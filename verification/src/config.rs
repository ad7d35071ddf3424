//! Rules: which torrents they match and the limits they ask for.

use crate::comparison::{holds, symbol_of, Comparison};
use crate::qbittorrent::{MaxSeedingTime, TagList, Torrent, TorrentView};
use crate::ratio::{same_number, Ratio};
use crate::text::{decimal, decimal_text, join, joined, texts};
use vstd::prelude::*;

verus! {

/// The limits a rule asks for. A field left out defers to the server's
/// global limit; it does not mean "no limit".
#[derive(Clone, Copy, Debug)]
pub struct RuleLimits {
    pub ratio: Option<Ratio>,
    pub minutes: Option<MaxSeedingTime>,
}

/// Predicates on a torrent, and the limits for the torrents that meet them.
#[derive(Debug)]
pub struct Rule {
    /// The category the torrent must have, letter for letter.
    pub category: Option<String>,
    /// What must hold of the torrent's seeding time in whole minutes.
    pub seeding_time: Option<Comparison<usize>>,
    /// The tags the torrent must have, in this order.
    pub tags: Option<TagList>,
    pub limits: RuleLimits,
}

/// A `Rule` over sequences of characters.
pub struct RuleView {
    pub category: Option<Seq<char>>,
    pub seeding_time: Option<Comparison<usize>>,
    pub tags: Option<Seq<Seq<char>>>,
    pub limits: RuleLimits,
}

impl View for Rule {
    type V = RuleView;

    open spec fn view(&self) -> RuleView {
        RuleView {
            category: match self.category {
                Some(c) => Some(c@),
                None => None,
            },
            seeding_time: self.seeding_time,
            tags: match self.tags {
                Some(t) => Some(t@),
                None => None,
            },
            limits: self.limits,
        }
    }
}

/// Whether a torrent meets every predicate that the rule holds. The seeding
/// time is compared in whole minutes.
pub open spec fn matches(rule: RuleView, torrent: TorrentView) -> bool {
    &&& rule.category matches Some(category) ==> category == torrent.category
    &&& rule.seeding_time matches Some(c) ==> holds(
        c.operator,
        c.value as int,
        torrent.seeding_time as int / 60,
    )
    &&& rule.tags matches Some(tags) ==> tags == torrent.tags
}

/// Whether a torrent's limits differ from those the rule names. A limit the
/// rule leaves out never differs.
pub open spec fn differs(limits: RuleLimits, torrent: TorrentView) -> bool {
    ||| limits.ratio matches Some(ratio) && !same_number(torrent.max_ratio.bits, ratio.bits)
    ||| limits.minutes matches Some(minutes) && torrent.max_seeding_time != minutes
}

/// The word written for a limit that a rule leaves out.
pub open spec fn unlimited() -> Seq<char> {
    "unlimited"@
}

/// The rule's predicates in words, one text for each it holds.
pub open spec fn conditions(rule: RuleView) -> Seq<Seq<char>> {
    (match rule.category {
        Some(category) => seq!["category = "@ + category],
        None => Seq::empty(),
    }) + (match rule.seeding_time {
        Some(c) => seq![
            "seeding time "@ + symbol_of(c.operator) + " "@ + decimal_text(c.value as int)
                + " minutes"@,
        ],
        None => Seq::empty(),
    }) + (match rule.tags {
        Some(tags) => seq!["tags = "@ + ("["@ + joined(tags, ", "@) + "]"@)],
        None => Seq::empty(),
    })
}

/// The rule in words: its predicates joined by `", "`, then its limits.
/// `ratio_text` is the text of the ratio limit where the rule has one.
pub open spec fn rendered(rule: RuleView, ratio_text: Seq<char>) -> Seq<char> {
    joined(conditions(rule), ", "@) + " => "@ + (match rule.limits.ratio {
        Some(_) => ratio_text,
        None => unlimited(),
    }) + " ratio and "@ + (match rule.limits.minutes {
        Some(minutes) => decimal_text(minutes as int),
        None => unlimited(),
    }) + " minutes"@
}

impl Rule {
    /// Whether the torrent meets every predicate of this rule.
    pub fn matches(&self, torrent: &Torrent) -> (b: bool)
        ensures
            b == matches(self@, torrent@),
    {
        if let Some(category) = &self.category {
            if *category != torrent.category {
                return false;
            }
        }
        if let Some(seeding_time) = &self.seeding_time {
            if !seeding_time.compare(torrent.seeding_time / 60) {
                return false;
            }
        }
        if let Some(tags) = &self.tags {
            if !tags.same_as(&torrent.tags) {
                return false;
            }
        }
        true
    }

    /// Whether the torrent's limits differ from those this rule names.
    pub fn needs_update(&self, torrent: &Torrent) -> (b: bool)
        ensures
            b == differs(self.limits, torrent@),
    {
        if let Some(ratio) = &self.limits.ratio {
            if !torrent.max_ratio.same_number(ratio) {
                return true;
            }
        }
        if let Some(minutes) = &self.limits.minutes {
            if torrent.max_seeding_time != *minutes {
                return true;
            }
        }
        false
    }

    /// This rule in words. `ratio_text` is the text of the ratio limit; it is
    /// read only where the rule has one.
    pub fn render(&self, ratio_text: &str) -> (s: String)
        ensures
            s@ == rendered(self@, ratio_text@),
    {
        let mut parts: Vec<String> = Vec::new();
        assert(texts(parts@) =~= Seq::<Seq<char>>::empty());
        if let Some(category) = &self.category {
            let mut part = String::from_str("category = ");
            part.append(category.as_str());
            proof {
                assert(texts(parts@.push(part)) =~= texts(parts@) + seq![part@]);
            }
            parts.push(part);
        } else {
            assert(texts(parts@) + Seq::<Seq<char>>::empty() =~= texts(parts@));
        }
        if let Some(seeding_time) = &self.seeding_time {
            let mut part = String::from_str("seeding time ");
            part.append(seeding_time.operator.symbol());
            part.append(" ");
            part.append(decimal(seeding_time.value as i128).as_str());
            part.append(" minutes");
            proof {
                assert(texts(parts@.push(part)) =~= texts(parts@) + seq![part@]);
            }
            parts.push(part);
        } else {
            assert(texts(parts@) + Seq::<Seq<char>>::empty() =~= texts(parts@));
        }
        if let Some(tags) = &self.tags {
            let mut part = String::from_str("tags = ");
            part.append(tags.render().as_str());
            proof {
                assert(texts(parts@.push(part)) =~= texts(parts@) + seq![part@]);
            }
            parts.push(part);
        } else {
            assert(texts(parts@) + Seq::<Seq<char>>::empty() =~= texts(parts@));
        }
        assert(texts(parts@) == conditions(self@));
        let mut out = join(&parts, ", ");
        out.append(" => ");
        match self.limits.ratio {
            Some(_) => out.append(ratio_text),
            None => out.append("unlimited"),
        }
        out.append(" ratio and ");
        match self.limits.minutes {
            Some(minutes) => out.append(decimal(minutes as i128).as_str()),
            None => out.append("unlimited"),
        }
        out.append(" minutes");
        out
    }
}

/// Rules in order of priority: the first that matches a torrent decides.
#[derive(Debug)]
pub struct RuleList(pub Vec<Rule>);

impl View for RuleList {
    type V = Seq<RuleView>;

    open spec fn view(&self) -> Seq<RuleView> {
        self.0@.map_values(|r: Rule| r@)
    }
}

/// The position of the first rule at or after `from` that the torrent meets.
pub open spec fn first_match_from(rules: Seq<RuleView>, torrent: TorrentView, from: int) -> Option<
    int,
>
    decreases rules.len() - from,
{
    if from < 0 || from >= rules.len() {
        None
    } else if matches(rules[from], torrent) {
        Some(from)
    } else {
        first_match_from(rules, torrent, from + 1)
    }
}

/// The position of the first rule that the torrent meets.
pub open spec fn first_match(rules: Seq<RuleView>, torrent: TorrentView) -> Option<int> {
    first_match_from(rules, torrent, 0)
}

/// The first match is a rule that the torrent meets, and the torrent meets
/// none of the rules before it; there is no first match only where the
/// torrent meets no rule from `from` on.
pub proof fn lemma_first_match_from(rules: Seq<RuleView>, torrent: TorrentView, from: int)
    requires
        0 <= from,
    ensures
        match first_match_from(rules, torrent, from) {
            Some(i) => {
                &&& from <= i < rules.len()
                &&& matches(rules[i], torrent)
                &&& forall|j: int| from <= j < i ==> !matches(#[trigger] rules[j], torrent)
            },
            None => forall|j: int| from <= j < rules.len() ==> !matches(#[trigger] rules[j], torrent),
        },
    decreases rules.len() - from,
{
    if from < rules.len() && !matches(rules[from], torrent) {
        lemma_first_match_from(rules, torrent, from + 1);
    }
}

/// Of the rules that a torrent meets, the one that stands first in the list
/// is the first match, whatever follows it.
pub proof fn lemma_first_match_wins(rules: Seq<RuleView>, torrent: TorrentView, i: int)
    requires
        0 <= i < rules.len(),
        matches(rules[i], torrent),
        forall|j: int| 0 <= j < i ==> !matches(#[trigger] rules[j], torrent),
    ensures
        first_match(rules, torrent) == Some(i),
{
    lemma_first_match_from(rules, torrent, 0);
}

impl RuleList {
    /// The first rule that the torrent meets.
    pub fn find(&self, torrent: &Torrent) -> (r: Option<&Rule>)
        ensures
            match first_match(self@, torrent@) {
                Some(i) => r == Some(&self.0[i]),
                None => r is None,
            },
    {
        let mut i: usize = 0;
        while i < self.0.len()
            invariant
                i <= self.0.len(),
                first_match(self@, torrent@) == first_match_from(self@, torrent@, i as int),
            decreases self.0.len() - i,
        {
            if self.0[i].matches(torrent) {
                return Some(&self.0[i]);
            }
            i = i + 1;
        }
        None
    }

    /// The rules in order.
    pub fn iter(&self) -> (it: std::slice::Iter<'_, Rule>)
        ensures
            vstd::std_specs::slice::into_iter_elts(it) == self.0@,
    {
        broadcast use vstd::std_specs::slice::axiom_spec_slice_iter;

        let it = self.0.as_slice().iter();
        assert(vstd::std_specs::slice::into_iter_elts(it) =~= self.0@);
        it
    }

    /// The number of rules.
    pub fn len(&self) -> (n: usize)
        ensures
            n == self@.len(),
    {
        self.0.len()
    }
}

/// Where the server is and how to log in.
#[derive(Debug)]
pub struct ServerConfig {
    pub address: String,
    pub username: Option<String>,
    pub password: Option<String>,
}

impl Default for ServerConfig {
    /// An empty address and no credentials.
    fn default() -> (r: ServerConfig)
        ensures
            r.address@ == Seq::<char>::empty(),
            r.username is None,
            r.password is None,
    {
        ServerConfig { address: String::new(), username: None, password: None }
    }
}

/// The whole configuration: the server and the rules.
#[derive(Debug)]
pub struct Config {
    pub server: ServerConfig,
    pub rules: RuleList,
}

} // verus!
