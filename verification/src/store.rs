//! The known torrents, each under its hash, in the order they came.

use crate::qbittorrent::{
    complete, merged, missing_field, PartialTorrent, PartialTorrentView, Torrent, TorrentField,
    TorrentView,
};
use vstd::map::*;
use vstd::prelude::*;

verus! {

/// Hashes with their torrents, in order.
pub type Entries = Seq<(Seq<char>, TorrentView)>;

/// Whether no hash stands twice.
pub open spec fn distinct(entries: Entries) -> bool {
    forall|i: int, j: int| 0 <= i < j < entries.len() ==> entries[i].0 != entries[j].0
}

/// The first position at or after `from` that holds `hash`.
pub open spec fn position_from(entries: Entries, hash: Seq<char>, from: int) -> Option<int>
    decreases entries.len() - from,
{
    if from < 0 || from >= entries.len() {
        None
    } else if entries[from].0 == hash {
        Some(from)
    } else {
        position_from(entries, hash, from + 1)
    }
}

/// The first position that holds `hash`.
pub open spec fn position(entries: Entries, hash: Seq<char>) -> Option<int> {
    position_from(entries, hash, 0)
}

/// The torrent known under `hash`.
pub open spec fn lookup(entries: Entries, hash: Seq<char>) -> Option<TorrentView> {
    match position(entries, hash) {
        Some(i) => Some(entries[i].1),
        None => None,
    }
}

/// The torrents known, each by its hash.
pub open spec fn known(entries: Entries) -> Map<Seq<char>, TorrentView> {
    Map::new(
        |hash: Seq<char>| lookup(entries, hash) is Some,
        |hash: Seq<char>| lookup(entries, hash).unwrap(),
    )
}

/// The entries without `hash`; an unknown hash changes nothing.
pub open spec fn without(entries: Entries, hash: Seq<char>) -> Entries {
    match position(entries, hash) {
        Some(i) => entries.remove(i),
        None => entries,
    }
}

/// The entries with `torrent` under `hash`, in place of what was known
/// under it, or at the end where the hash is new.
pub open spec fn inserted(entries: Entries, hash: Seq<char>, torrent: TorrentView) -> Entries {
    match position(entries, hash) {
        Some(i) => entries.update(i, (hash, torrent)),
        None => entries.push((hash, torrent)),
    }
}

/// The entries after one report: a known torrent takes over the fields that
/// the report holds; an unknown one comes in only where the report is
/// complete.
pub open spec fn upserted(entries: Entries, hash: Seq<char>, data: PartialTorrentView) -> Entries {
    match position(entries, hash) {
        Some(i) => entries.update(i, (hash, merged(entries[i].1, data))),
        None => if missing_field(data) is None {
            entries.push((hash, complete(data)))
        } else {
            entries
        },
    }
}

/// The field for whose lack a report is dropped: the first it lacks, where
/// its hash is unknown.
pub open spec fn refused(entries: Entries, hash: Seq<char>, data: PartialTorrentView) -> Option<
    TorrentField,
> {
    if position(entries, hash) is None {
        missing_field(data)
    } else {
        None
    }
}

/// `position_from` finds the first entry under `hash`, and finds none only
/// where there is none.
pub proof fn lemma_position_from(entries: Entries, hash: Seq<char>, from: int)
    requires
        0 <= from,
    ensures
        match position_from(entries, hash, from) {
            Some(i) => {
                &&& from <= i < entries.len()
                &&& entries[i].0 == hash
                &&& forall|j: int| from <= j < i ==> (#[trigger] entries[j]).0 != hash
            },
            None => forall|j: int| from <= j < entries.len() ==> (#[trigger] entries[j]).0 != hash,
        },
    decreases entries.len() - from,
{
    if from < entries.len() && entries[from].0 != hash {
        lemma_position_from(entries, hash, from + 1);
    }
}

/// The first entry under a hash is where `position` finds it.
pub proof fn lemma_position_is(entries: Entries, hash: Seq<char>, i: int)
    requires
        0 <= i < entries.len(),
        entries[i].0 == hash,
        forall|j: int| 0 <= j < i ==> (#[trigger] entries[j]).0 != hash,
    ensures
        position(entries, hash) == Some(i),
{
    lemma_position_from(entries, hash, 0);
    match position(entries, hash) {
        Some(k) => {
            assert(entries[k].0 == hash);
            assert(entries[i].0 == hash);
        },
        None => {
            assert(entries[i].0 == hash);
        },
    }
}

/// Where no hash is found, none of the entries stands under it.
pub proof fn lemma_position_none(entries: Entries, hash: Seq<char>)
    requires
        forall|j: int| 0 <= j < entries.len() ==> (#[trigger] entries[j]).0 != hash,
    ensures
        position(entries, hash) is None,
{
    lemma_position_from(entries, hash, 0);
    match position(entries, hash) {
        Some(k) => {
            assert(entries[k].0 == hash);
        },
        None => {},
    }
}

/// What is put under a hash is then known under it, and what is known under
/// any other hash stays as it was.
pub proof fn lemma_insert_sets(
    entries: Entries,
    hash: Seq<char>,
    torrent: TorrentView,
    other: Seq<char>,
)
    ensures
        lookup(inserted(entries, hash, torrent), hash) == Some(torrent),
        other != hash ==> lookup(inserted(entries, hash, torrent), other) == lookup(entries, other),
{
    let after = inserted(entries, hash, torrent);
    lemma_position_from(entries, hash, 0);
    match position(entries, hash) {
        Some(i) => {
            assert forall|j: int| 0 <= j < i implies (#[trigger] after[j]).0 != hash by {
                assert(entries[j].0 != hash);
            }
            lemma_position_is(after, hash, i);
        },
        None => {
            assert forall|j: int| 0 <= j < entries.len() implies (#[trigger] after[j]).0
                != hash by {
                assert(entries[j].0 != hash);
            }
            lemma_position_is(after, hash, entries.len() as int);
        },
    }
    if other != hash {
        lemma_position_from(entries, other, 0);
        match position(entries, other) {
            Some(k) => {
                assert forall|j: int| 0 <= j < k implies (#[trigger] after[j]).0 != other by {
                    assert(entries[j].0 != other);
                }
                lemma_position_is(after, other, k);
            },
            None => {
                assert forall|j: int| 0 <= j < after.len() implies (#[trigger] after[j]).0
                    != other by {
                    if j < entries.len() {
                        assert(entries[j].0 != other);
                    }
                }
                lemma_position_none(after, other);
            },
        }
    }
}

/// Where no hash stands twice, a removed hash is unknown afterwards, what is
/// known under any other hash stays as it was, and still no hash stands
/// twice.
pub proof fn lemma_without_forgets(entries: Entries, hash: Seq<char>, other: Seq<char>)
    requires
        distinct(entries),
    ensures
        lookup(without(entries, hash), hash) is None,
        other != hash ==> lookup(without(entries, hash), other) == lookup(entries, other),
        distinct(without(entries, hash)),
{
    let after = without(entries, hash);
    lemma_position_from(entries, hash, 0);
    match position(entries, hash) {
        Some(i) => {
            assert forall|j: int| 0 <= j < after.len() implies (#[trigger] after[j]).0
                != hash by {
                if j < i {
                    assert(after[j] == entries[j]);
                } else {
                    assert(after[j] == entries[j + 1]);
                }
            }
            lemma_position_none(after, hash);
            if other != hash {
                lemma_position_from(entries, other, 0);
                match position(entries, other) {
                    Some(k) => {
                        let k2 = if k < i {
                            k
                        } else {
                            k - 1
                        };
                        assert(after[k2] == entries[k]);
                        assert forall|j: int| 0 <= j < k2 implies (#[trigger] after[j]).0
                            != other by {
                            if j < i {
                                assert(after[j] == entries[j]);
                            } else {
                                assert(after[j] == entries[j + 1]);
                            }
                        }
                        lemma_position_is(after, other, k2);
                    },
                    None => {
                        assert forall|j: int| 0 <= j < after.len() implies (#[trigger] after[j]).0
                            != other by {
                            if j < i {
                                assert(after[j] == entries[j]);
                            } else {
                                assert(after[j] == entries[j + 1]);
                            }
                        }
                        lemma_position_none(after, other);
                    },
                }
            }
            assert forall|a: int, b: int| 0 <= a < b < after.len() implies after[a].0
                != after[b].0 by {
                let a2 = if a < i {
                    a
                } else {
                    a + 1
                };
                let b2 = if b < i {
                    b
                } else {
                    b + 1
                };
                assert(after[a] == entries[a2]);
                assert(after[b] == entries[b2]);
            }
        },
        None => {},
    }
}

/// A report on a known torrent changes that torrent alone: it takes over
/// the fields that the report holds and keeps every other field, and what is
/// known under any other hash stays as it was.
pub proof fn lemma_upsert_merges(
    entries: Entries,
    hash: Seq<char>,
    data: PartialTorrentView,
    other: Seq<char>,
)
    requires
        lookup(entries, hash) is Some,
    ensures
        lookup(upserted(entries, hash, data), hash) == Some(
            merged(lookup(entries, hash).unwrap(), data),
        ),
        data.category is None ==> lookup(upserted(entries, hash, data), hash).unwrap().category
            == lookup(entries, hash).unwrap().category,
        data.max_ratio is None ==> lookup(upserted(entries, hash, data), hash).unwrap().max_ratio
            == lookup(entries, hash).unwrap().max_ratio,
        data.max_seeding_time is None ==> lookup(
            upserted(entries, hash, data),
            hash,
        ).unwrap().max_seeding_time == lookup(entries, hash).unwrap().max_seeding_time,
        data.name is None ==> lookup(upserted(entries, hash, data), hash).unwrap().name == lookup(
            entries,
            hash,
        ).unwrap().name,
        data.seeding_time is None ==> lookup(
            upserted(entries, hash, data),
            hash,
        ).unwrap().seeding_time == lookup(entries, hash).unwrap().seeding_time,
        data.tags is None ==> lookup(upserted(entries, hash, data), hash).unwrap().tags == lookup(
            entries,
            hash,
        ).unwrap().tags,
        other != hash ==> lookup(upserted(entries, hash, data), other) == lookup(entries, other),
{
    let after = upserted(entries, hash, data);
    lemma_position_from(entries, hash, 0);
    let i = position(entries, hash).unwrap();
    assert forall|j: int| 0 <= j < i implies (#[trigger] after[j]).0 != hash by {
        assert(entries[j].0 != hash);
    }
    lemma_position_is(after, hash, i);
    if other != hash {
        lemma_position_from(entries, other, 0);
        match position(entries, other) {
            Some(k) => {
                assert forall|j: int| 0 <= j < k implies (#[trigger] after[j]).0 != other by {
                    assert(entries[j].0 != other);
                }
                lemma_position_is(after, other, k);
            },
            None => {
                assert forall|j: int| 0 <= j < after.len() implies (#[trigger] after[j]).0
                    != other by {
                    assert(entries[j].0 != other);
                }
                lemma_position_none(after, other);
            },
        }
    }
}

/// A report on an unknown torrent that lacks a field changes nothing: the
/// torrent stays unknown, and the field it lacks is named.
pub proof fn lemma_incomplete_is_dropped(entries: Entries, hash: Seq<char>, data: PartialTorrentView)
    requires
        lookup(entries, hash) is None,
        missing_field(data) is Some,
    ensures
        upserted(entries, hash, data) == entries,
        lookup(upserted(entries, hash, data), hash) is None,
        refused(entries, hash, data) == missing_field(data),
{
}

/// A complete report on an unknown torrent makes it known, as the report
/// describes it.
pub proof fn lemma_complete_is_admitted(entries: Entries, hash: Seq<char>, data: PartialTorrentView)
    requires
        lookup(entries, hash) is None,
        missing_field(data) is None,
    ensures
        lookup(upserted(entries, hash, data), hash) == Some(complete(data)),
        refused(entries, hash, data) is None,
{
    let after = upserted(entries, hash, data);
    lemma_position_from(entries, hash, 0);
    assert forall|j: int| 0 <= j < entries.len() implies (#[trigger] after[j]).0 != hash by {
        assert(entries[j].0 != hash);
    }
    lemma_position_is(after, hash, entries.len() as int);
}

/// By hash, putting a torrent under a hash is an insertion.
pub proof fn lemma_known_after_insert(entries: Entries, hash: Seq<char>, torrent: TorrentView)
    ensures
        known(inserted(entries, hash, torrent)) == known(entries).insert(hash, torrent),
{
    let after = known(inserted(entries, hash, torrent));
    let wanted = known(entries).insert(hash, torrent);
    assert_maps_equal!(after, wanted, k => {
        lemma_insert_sets(entries, hash, torrent, k);
    });
}

/// By hash, and where no hash stands twice, forgetting a hash is a removal.
pub proof fn lemma_known_after_removal(entries: Entries, hash: Seq<char>)
    requires
        distinct(entries),
    ensures
        known(without(entries, hash)) == known(entries).remove(hash),
{
    let after = known(without(entries, hash));
    let wanted = known(entries).remove(hash);
    assert_maps_equal!(after, wanted, k => {
        lemma_without_forgets(entries, hash, k);
    });
}

/// By hash, a report on a known torrent replaces it by the merged torrent, a
/// complete report on an unknown one inserts it, and an incomplete report on
/// an unknown one changes nothing.
pub proof fn lemma_known_after_upsert(entries: Entries, hash: Seq<char>, data: PartialTorrentView)
    ensures
        known(upserted(entries, hash, data)) == if known(entries).contains_key(hash) {
            known(entries).insert(hash, merged(known(entries)[hash], data))
        } else if missing_field(data) is None {
            known(entries).insert(hash, complete(data))
        } else {
            known(entries)
        },
{
    let after = known(upserted(entries, hash, data));
    if known(entries).contains_key(hash) {
        let wanted = known(entries).insert(hash, merged(known(entries)[hash], data));
        assert_maps_equal!(after, wanted, k => {
            lemma_upsert_merges(entries, hash, data, k);
        });
    } else if missing_field(data) is None {
        assert(upserted(entries, hash, data) == inserted(entries, hash, complete(data)));
        lemma_known_after_insert(entries, hash, complete(data));
    }
}

/// One known torrent under its hash.
#[derive(Debug)]
pub struct Entry {
    pub hash: String,
    pub torrent: Torrent,
}

/// The views of the entries, in order.
pub open spec fn listed(entries: Seq<Entry>) -> Entries {
    entries.map_values(|e: Entry| (e.hash@, e.torrent@))
}

/// The known torrents, each under its hash.
#[derive(Debug)]
pub struct TorrentMap {
    entries: Vec<Entry>,
}

impl View for TorrentMap {
    type V = Entries;

    closed spec fn view(&self) -> Entries {
        listed(self.entries@)
    }
}

impl TorrentMap {
    /// No hash stands twice.
    #[verifier::type_invariant]
    pub open spec fn wf(&self) -> bool {
        distinct(self@)
    }

    /// A map that knows no torrent.
    pub fn new() -> (m: TorrentMap)
        ensures
            m@ == Seq::<(Seq<char>, TorrentView)>::empty(),
    {
        let m = TorrentMap { entries: Vec::new() };
        assert(m@ =~= Seq::<(Seq<char>, TorrentView)>::empty());
        m
    }

    /// The number of known torrents.
    pub fn len(&self) -> (n: usize)
        ensures
            n == self@.len(),
    {
        self.entries.len()
    }

    /// The hash at position `i`.
    pub fn hash_at(&self, i: usize) -> (hash: &String)
        requires
            i < self@.len(),
        ensures
            hash@ == self@[i as int].0,
    {
        &self.entries[i].hash
    }

    /// The torrent at position `i`.
    pub fn torrent_at(&self, i: usize) -> (torrent: &Torrent)
        requires
            i < self@.len(),
        ensures
            torrent@ == self@[i as int].1,
    {
        &self.entries[i].torrent
    }

    /// The position of the torrent known under `hash`.
    pub fn position(&self, hash: &String) -> (r: Option<usize>)
        ensures
            r matches Some(i) ==> position(self@, hash@) == Some(i as int),
            r is None ==> position(self@, hash@) is None,
    {
        let mut i: usize = 0;
        while i < self.entries.len()
            invariant
                i <= self.entries.len(),
                position(self@, hash@) == position_from(self@, hash@, i as int),
            decreases self.entries.len() - i,
        {
            if self.entries[i].hash == *hash {
                return Some(i);
            }
            i = i + 1;
        }
        None
    }

    /// The torrent known under `hash`.
    pub fn get(&self, hash: &String) -> (r: Option<&Torrent>)
        ensures
            r matches Some(t) ==> lookup(self@, hash@) == Some(t@),
            r is None ==> lookup(self@, hash@) is None,
    {
        match self.position(hash) {
            Some(i) => {
                proof {
                    lemma_position_from(self@, hash@, 0);
                }
                Some(&self.entries[i].torrent)
            },
            None => None,
        }
    }

    /// Forgets the torrent under `hash`, and says whether one was known.
    pub fn remove(&mut self, hash: &String) -> (known: bool)
        ensures
            final(self)@ == without(old(self)@, hash@),
            known == position(old(self)@, hash@).is_some(),
            distinct(final(self)@),
    {
        proof {
            use_type_invariant(&*self);
            lemma_position_from(self@, hash@, 0);
        }
        match self.position(hash) {
            Some(i) => {
                let mut entries: Vec<Entry> = Vec::new();
                assert(listed(entries@) =~= Seq::<(Seq<char>, TorrentView)>::empty());
                std::mem::swap(&mut self.entries, &mut entries);
                let _gone = entries.remove(i);
                assert(listed(entries@) =~= old(self)@.remove(i as int));
                self.entries = entries;
                true
            },
            None => false,
        }
    }

    /// Puts `torrent` under `hash`, in place of what was known under it.
    pub fn insert(&mut self, hash: String, torrent: Torrent)
        ensures
            final(self)@ == inserted(old(self)@, hash@, torrent@),
            distinct(final(self)@),
    {
        proof {
            use_type_invariant(&*self);
            lemma_position_from(self@, hash@, 0);
        }
        let found = self.position(&hash);
        let mut entries: Vec<Entry> = Vec::new();
        assert(listed(entries@) =~= Seq::<(Seq<char>, TorrentView)>::empty());
        std::mem::swap(&mut self.entries, &mut entries);
        match found {
            Some(i) => {
                entries[i].torrent = torrent;
                assert(listed(entries@) =~= old(self)@.update(i as int, (hash@, torrent@)));
            },
            None => {
                entries.push(Entry { hash, torrent });
                assert(listed(entries@) =~= old(self)@.push((hash@, torrent@)));
            },
        }
        self.entries = entries;
    }

    /// Takes in one report. A known torrent takes over the fields that the
    /// report holds. An unknown one comes in only where the report is
    /// complete; otherwise the first field it lacks is handed back.
    pub fn upsert(&mut self, hash: String, data: PartialTorrent) -> (lacking: Option<TorrentField>)
        ensures
            final(self)@ == upserted(old(self)@, hash@, data@),
            lacking == refused(old(self)@, hash@, data@),
            distinct(final(self)@),
    {
        proof {
            use_type_invariant(&*self);
            lemma_position_from(self@, hash@, 0);
        }
        let found = self.position(&hash);
        let mut entries: Vec<Entry> = Vec::new();
        assert(listed(entries@) =~= Seq::<(Seq<char>, TorrentView)>::empty());
        std::mem::swap(&mut self.entries, &mut entries);
        let lacking = match found {
            Some(i) => {
                entries[i].torrent.update(data);
                assert(listed(entries@) =~= old(self)@.update(
                    i as int,
                    (hash@, merged(old(self)@[i as int].1, data@)),
                ));
                None
            },
            None => match Torrent::from_data(data) {
                Ok(torrent) => {
                    entries.push(Entry { hash, torrent });
                    assert(listed(entries@) =~= old(self)@.push((hash@, torrent@)));
                    None
                },
                Err(field) => Some(field),
            },
        };
        self.entries = entries;
        lacking
    }
}

} // verus!
