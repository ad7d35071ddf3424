//! From the torrents known and the rules to the limits that must change.

use crate::client::{dropped, rejections, synced, Client, MainData, Rejection};
use crate::config::{
    differs, first_match, lemma_first_match_from, Config, Rule, RuleLimits, RuleView,
};
use crate::qbittorrent::{limited, Torrent, TorrentView};
use crate::store::Entries;
use vstd::prelude::*;

verus! {

/// The limits that defer to the server's global limits in both fields.
pub open spec fn global_limits() -> RuleLimits {
    RuleLimits { ratio: None, minutes: None }
}

/// The limits to set on a torrent, given the limits of the rule that
/// matched it, if one did. A matched torrent gets the rule's limits, both
/// fields, if its own differ from them. An unmatched torrent that carries a
/// limit of its own goes back to the global limits.
pub open spec fn decision(matched: Option<RuleLimits>, torrent: TorrentView) -> Option<RuleLimits> {
    match matched {
        Some(limits) => if differs(limits, torrent) {
            Some(limits)
        } else {
            None
        },
        None => if limited(torrent) {
            Some(global_limits())
        } else {
            None
        },
    }
}

/// The limits to set on a torrent, if any: the first rule that matches it
/// decides.
pub open spec fn decided(rules: Seq<RuleView>, torrent: TorrentView) -> Option<RuleLimits> {
    match first_match(rules, torrent) {
        Some(i) => decision(Some(rules[i].limits), torrent),
        None => decision(None, torrent),
    }
}

/// The changes to make, in the order of the entries: each hash whose torrent
/// needs new limits, with those limits.
pub open spec fn planned(rules: Seq<RuleView>, entries: Entries) -> Seq<(Seq<char>, RuleLimits)>
    decreases entries.len(),
{
    if entries.len() == 0 {
        Seq::empty()
    } else {
        let before = planned(rules, entries.drop_last());
        match decided(rules, entries.last().1) {
            Some(limits) => before.push((entries.last().0, limits)),
            None => before,
        }
    }
}

/// New limits for the torrent under `hash`.
#[derive(Debug)]
pub struct Action {
    pub hash: String,
    pub limits: RuleLimits,
}

/// The views of the actions, in order.
pub open spec fn actions(v: Seq<Action>) -> Seq<(Seq<char>, RuleLimits)> {
    v.map_values(|a: Action| (a.hash@, a.limits))
}

/// The limits to set on a torrent, given the rule that matched it, if one
/// did.
pub fn decide(torrent: &Torrent, matched: Option<&Rule>) -> (r: Option<RuleLimits>)
    ensures
        r == decision(
            match matched {
                Some(rule) => Some(rule.limits),
                None => None,
            },
            torrent@,
        ),
{
    match matched {
        Some(rule) => if rule.needs_update(torrent) {
            Some(rule.limits)
        } else {
            None
        },
        None => if torrent.is_limited() {
            Some(RuleLimits { ratio: None, minutes: None })
        } else {
            None
        },
    }
}

/// The limits to set on a torrent, if any.
pub fn handle_torrent(config: &Config, torrent: &Torrent) -> (r: Option<RuleLimits>)
    ensures
        r == decided(config.rules@, torrent@),
{
    proof {
        lemma_first_match_from(config.rules@, torrent@, 0);
    }
    decide(torrent, config.rules.find(torrent))
}

/// Holds every known torrent against the rules and lists the changes to
/// make. Nothing the client knows is changed.
pub fn run(config: &Config, client: &Client) -> (out: Vec<Action>)
    ensures
        actions(out@) == planned(config.rules@, client.torrents@),
{
    let mut out: Vec<Action> = Vec::new();
    let ghost entries = client.torrents@;
    let mut i: usize = 0;
    assert(entries.take(0) =~= Seq::<(Seq<char>, TorrentView)>::empty());
    assert(actions(out@) =~= Seq::<(Seq<char>, RuleLimits)>::empty());
    let total: usize = client.torrents.len();
    while i < total
        invariant
            i <= total,
            total == entries.len(),
            entries == client.torrents@,
            actions(out@) == planned(config.rules@, entries.take(i as int)),
        decreases total - i,
    {
        proof {
            let longer = entries.take(i + 1);
            assert(longer.drop_last() =~= entries.take(i as int));
            assert(longer.last() == entries[i as int]);
        }
        match handle_torrent(config, client.torrents.torrent_at(i)) {
            Some(limits) => {
                let hash: String = client.torrents.hash_at(i).clone();
                proof {
                    assert(actions(out@.push(Action { hash, limits })) =~= actions(out@).push(
                        (hash@, limits),
                    ));
                }
                out.push(Action { hash, limits });
            },
            None => {},
        }
        i = i + 1;
    }
    assert(entries.take(i as int) =~= entries);
    out
}

/// What one cycle yields: the reports that were dropped and the changes to
/// make.
#[derive(Debug)]
pub struct Cycle {
    pub rejections: Vec<Rejection>,
    pub actions: Vec<Action>,
}

/// One cycle: takes in the server's answer, then holds every torrent that is
/// known after it against the rules.
pub fn cycle(config: &Config, client: &mut Client, main_data: &MainData) -> (out: Cycle)
    ensures
        final(client).torrents@ == synced(old(client).torrents@, main_data@),
        final(client).rid == main_data.rid,
        final(client).base_url == old(client).base_url,
        final(client).username == old(client).username,
        final(client).password == old(client).password,
        rejections(out.rejections@) == dropped(old(client).torrents@, main_data@),
        actions(out.actions@) == planned(
            config.rules@,
            synced(old(client).torrents@, main_data@),
        ),
{
    let rejections = client.update(main_data);
    let actions = run(config, client);
    Cycle { rejections, actions }
}

/// A second run over the same torrents with the same rules plans the same
/// changes as the first: whatever two runs hand back, they agree.
pub proof fn lemma_run_repeats(
    rules: Seq<RuleView>,
    entries: Entries,
    first: Seq<(Seq<char>, RuleLimits)>,
    second: Seq<(Seq<char>, RuleLimits)>,
)
    requires
        first == planned(rules, entries),
        second == planned(rules, entries),
    ensures
        first == second,
{
}

/// Every known torrent that needs new limits is in the plan, under its hash
/// and with those limits.
pub proof fn lemma_planned_covers(rules: Seq<RuleView>, entries: Entries, i: int)
    requires
        0 <= i < entries.len(),
        decided(rules, entries[i].1) is Some,
    ensures
        planned(rules, entries).contains((entries[i].0, decided(rules, entries[i].1).unwrap())),
    decreases entries.len(),
{
    let plan = planned(rules, entries);
    let before = planned(rules, entries.drop_last());
    if i == entries.len() - 1 {
        assert(plan == before.push((entries[i].0, decided(rules, entries[i].1).unwrap())));
        assert(plan[before.len() as int] == (entries[i].0, decided(rules, entries[i].1).unwrap()));
    } else {
        lemma_planned_covers(rules, entries.drop_last(), i);
        let wanted = (entries[i].0, decided(rules, entries[i].1).unwrap());
        assert(entries.drop_last()[i] == entries[i]);
        let k = choose|k: int| 0 <= k < before.len() && before[k] == wanted;
        assert(plan[k] == wanted);
    }
}

/// Every change in the plan is for a known torrent, under its hash, and sets
/// the limits that were decided for it.
pub proof fn lemma_planned_only(rules: Seq<RuleView>, entries: Entries, k: int)
    requires
        0 <= k < planned(rules, entries).len(),
    ensures
        exists|i: int|
            0 <= i < entries.len() && (#[trigger] entries[i]).0 == planned(rules, entries)[k].0
                && decided(rules, entries[i].1) == Some(planned(rules, entries)[k].1),
    decreases entries.len(),
{
    let plan = planned(rules, entries);
    let before = planned(rules, entries.drop_last());
    if entries.len() > 0 {
        if k < before.len() {
            lemma_planned_only(rules, entries.drop_last(), k);
            let i = choose|i: int|
                0 <= i < entries.drop_last().len() && (#[trigger] entries.drop_last()[i]).0
                    == before[k].0 && decided(rules, entries.drop_last()[i].1) == Some(
                    before[k].1,
                );
            assert(entries[i] == entries.drop_last()[i]);
            assert(plan[k] == before[k]);
        } else {
            let i = entries.len() - 1;
            assert(entries[i] == entries.last());
        }
    }
}

/// A torrent that no rule matches goes back to the global limits if it
/// carries a limit of its own, and is left alone if it does not.
pub proof fn lemma_unmatched(rules: Seq<RuleView>, torrent: TorrentView)
    requires
        forall|j: int| 0 <= j < rules.len() ==> !crate::config::matches(#[trigger] rules[j], torrent),
    ensures
        limited(torrent) ==> decided(rules, torrent) == Some(global_limits()),
        !limited(torrent) ==> decided(rules, torrent) is None,
{
    lemma_first_match_from(rules, torrent, 0);
}

} // verus!
