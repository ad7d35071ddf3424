//! Torrents as the server reports them, whole or in part.

use crate::ratio::{at_least_zero, Ratio};
use crate::text::{join, joined, texts};
use vstd::prelude::*;

verus! {

/// A seeding-time limit in minutes; `-1` stands for no limit.
pub type MaxSeedingTime = i32;

/// The tags in a comma-joined text from position `from` on, where the tag
/// being read started at `start`. A tag ends at each comma; what follows the
/// last comma is a tag unless it is empty.
pub open spec fn tags_from(s: Seq<char>, from: int, start: int) -> Seq<Seq<char>>
    decreases s.len() - from,
{
    if from < 0 || from >= s.len() {
        if 0 <= start < s.len() {
            seq![s.subrange(start, s.len() as int)]
        } else {
            Seq::empty()
        }
    } else if s[from] == ',' {
        seq![s.subrange(start, from)] + tags_from(s, from + 1, from + 1)
    } else {
        tags_from(s, from + 1, start)
    }
}

/// The tags that a comma-joined text holds: no escaping, no trimming.
pub open spec fn split_tags(s: Seq<char>) -> Seq<Seq<char>> {
    tags_from(s, 0, 0)
}

/// A text without the comma it ends with, if it ends with one.
pub open spec fn without_last_comma(s: Seq<char>) -> Seq<char> {
    if s.len() > 0 && s.last() == ',' {
        s.drop_last()
    } else {
        s
    }
}

/// Whether a text holds no comma.
pub open spec fn comma_free(s: Seq<char>) -> bool {
    forall|i: int| 0 <= i < s.len() ==> #[trigger] s[i] != ','
}

/// Joining a first text and more texts puts the separator after the first.
pub proof fn lemma_joined_front(first: Seq<char>, rest: Seq<Seq<char>>, separator: Seq<char>)
    ensures
        joined(seq![first] + rest, separator) == if rest.len() == 0 {
            first
        } else {
            first + separator + joined(rest, separator)
        },
    decreases rest.len(),
{
    let all = seq![first] + rest;
    let one = seq![first];
    assert(one.len() == 1 && one[0] == first);
    assert(joined(one, separator) == first);
    if rest.len() == 0 {
        assert(all =~= one);
    } else if rest.len() == 1 {
        assert(all.len() == 2);
        assert(all.drop_last() =~= one);
        assert(all.last() == rest[0]);
        assert(joined(rest, separator) == rest[0]);
        assert(joined(all, separator) == joined(all.drop_last(), separator) + separator
            + all.last());
    } else {
        lemma_joined_front(first, rest.drop_last(), separator);
        assert(all.len() == rest.len() + 1);
        assert(all.drop_last() =~= one + rest.drop_last());
        assert(all.last() == rest.last());
        assert(joined(all, separator) == joined(all.drop_last(), separator) + separator
            + all.last());
        assert(joined(rest, separator) == joined(rest.drop_last(), separator) + separator
            + rest.last());
        assert(first + separator + joined(rest.drop_last(), separator) + separator + rest.last()
            =~= first + separator + (joined(rest.drop_last(), separator) + separator
            + rest.last()));
    }
}

/// What `tags_from` reads: tags without commas that, joined by commas, give
/// the text from `start` on, less a comma at its end.
pub proof fn lemma_tags_from(s: Seq<char>, from: int, start: int)
    requires
        0 <= start <= from <= s.len(),
        comma_free(s.subrange(start, from)),
    ensures
        joined(tags_from(s, from, start), ","@) == without_last_comma(
            s.subrange(start, s.len() as int),
        ),
        forall|k: int|
            0 <= k < tags_from(s, from, start).len() ==> comma_free(
                #[trigger] tags_from(s, from, start)[k],
            ),
        start < s.len() ==> tags_from(s, from, start).len() > 0,
    decreases s.len() - from,
{
    reveal_strlit(",");
    let tags = tags_from(s, from, start);
    let tail = s.subrange(start, s.len() as int);
    if from >= s.len() {
        if start < s.len() {
            assert(s.subrange(start, from) =~= tail);
            assert(tail.last() == s.subrange(start, from)[from - start - 1]);
            assert(tags[0] == tail);
        } else {
            assert(tail =~= Seq::<char>::empty());
        }
    } else if s[from] == ',' {
        let first = s.subrange(start, from);
        let rest = tags_from(s, from + 1, from + 1);
        let rest_tail = s.subrange(from + 1, s.len() as int);
        assert(s.subrange(from + 1, from + 1) =~= Seq::<char>::empty());
        lemma_tags_from(s, from + 1, from + 1);
        lemma_joined_front(first, rest, ","@);
        assert forall|k: int| 0 <= k < tags.len() implies comma_free(#[trigger] tags[k]) by {
            if k > 0 {
                assert(tags[k] == rest[k - 1]);
            }
        }
        if from + 1 == s.len() {
            assert(rest.len() == 0);
            assert(tail.last() == ',');
            assert(tail.drop_last() =~= first);
        } else {
            assert(rest.len() > 0);
            assert(tail.last() == rest_tail.last());
            assert(","@ =~= seq![',']);
            if rest_tail.last() == ',' {
                assert(first + ","@ + rest_tail.drop_last() =~= tail.drop_last());
            } else {
                assert(first + ","@ + rest_tail =~= tail);
            }
        }
    } else {
        assert forall|i: int| 0 <= i < from + 1 - start implies #[trigger] s.subrange(
            start,
            from + 1,
        )[i] != ',' by {
            if i < from - start {
                assert(s.subrange(start, from)[i] == s.subrange(start, from + 1)[i]);
            }
        }
        lemma_tags_from(s, from + 1, start);
    }
}

/// No tag holds a comma, and the tags joined by commas give the text back,
/// less a comma at its end.
pub proof fn lemma_split_tags(s: Seq<char>)
    ensures
        joined(split_tags(s), ","@) == without_last_comma(s),
        forall|k: int| 0 <= k < split_tags(s).len() ==> comma_free(#[trigger] split_tags(s)[k]),
{
    assert(s.subrange(0, 0) =~= Seq::<char>::empty());
    assert(s.subrange(0, s.len() as int) =~= s);
    lemma_tags_from(s, 0, 0);
}

/// An ordered list of tags. Two lists are the same only if they hold the
/// same tags in the same order.
#[derive(Debug, PartialEq)]
pub struct TagList(pub Vec<String>);

impl View for TagList {
    type V = Seq<Seq<char>>;

    open spec fn view(&self) -> Seq<Seq<char>> {
        texts(self.0@)
    }
}

impl TagList {
    /// The tags of a comma-joined text.
    pub fn parse(item: &str) -> (tags: TagList)
        ensures
            tags@ == split_tags(item@),
    {
        let total: usize = item.unicode_len();
        let mut out: Vec<String> = Vec::new();
        let mut start: usize = 0;
        let mut i: usize = 0;
        assert(texts(out@) =~= Seq::<Seq<char>>::empty());
        while i < total
            invariant
                start <= i <= total,
                total == item@.len(),
                texts(out@) + tags_from(item@, i as int, start as int) == split_tags(item@),
            decreases total - i,
        {
            if item.get_char(i) == ',' {
                let tag: String = item.substring_char(start, i).to_owned();
                proof {
                    let rest = tags_from(item@, i + 1, i + 1);
                    assert(texts(out@.push(tag)) =~= texts(out@).push(tag@));
                    assert(texts(out@).push(tag@) + rest =~= texts(out@) + (seq![tag@] + rest));
                }
                out.push(tag);
                start = i + 1;
            }
            i = i + 1;
        }
        if start < total {
            let tag: String = item.substring_char(start, total).to_owned();
            proof {
                assert(texts(out@.push(tag)) =~= texts(out@).push(tag@));
                assert(texts(out@).push(tag@) =~= texts(out@) + seq![tag@]);
            }
            out.push(tag);
        } else {
            assert(texts(out@) + Seq::<Seq<char>>::empty() =~= texts(out@));
        }
        TagList(out)
    }

    /// Whether both lists hold the same tags in the same order.
    pub fn same_as(&self, other: &TagList) -> (b: bool)
        ensures
            b == (self@ == other@),
    {
        if self.0.len() != other.0.len() {
            assert(self@.len() != other@.len());
            return false;
        }
        let mut i: usize = 0;
        while i < self.0.len()
            invariant
                i <= self.0.len(),
                self.0.len() == other.0.len(),
                forall|j: int| 0 <= j < i ==> self@[j] == other@[j],
            decreases self.0.len() - i,
        {
            if self.0[i] != other.0[i] {
                assert(self@[i as int] != other@[i as int]);
                return false;
            }
            i = i + 1;
        }
        assert(self@ =~= other@);
        true
    }

    /// The tags between square brackets, joined by `", "`.
    pub fn render(&self) -> (s: String)
        ensures
            s@ == "["@ + joined(self@, ", "@) + "]"@,
    {
        let mut out = String::from_str("[");
        out.append(join(&self.0, ", ").as_str());
        out.append("]");
        out
    }
}

impl Clone for TagList {
    fn clone(&self) -> (tags: TagList)
        ensures
            tags@ == self@,
    {
        let mut out: Vec<String> = Vec::new();
        let mut i: usize = 0;
        while i < self.0.len()
            invariant
                i <= self.0.len(),
                out@ == self.0@.take(i as int),
            decreases self.0.len() - i,
        {
            out.push(self.0[i].clone());
            assert(out@ =~= self.0@.take(i + 1));
            i = i + 1;
        }
        assert(out@ =~= self.0@);
        TagList(out)
    }
}

impl Default for TagList {
    /// No tags.
    fn default() -> (tags: TagList)
        ensures
            tags@ == Seq::<Seq<char>>::empty(),
    {
        let tags = TagList(Vec::new());
        assert(tags@ =~= Seq::<Seq<char>>::empty());
        tags
    }
}

impl From<String> for TagList {
    /// The tags of a comma-joined text.
    fn from(item: String) -> (tags: TagList)
        ensures
            tags@ == split_tags(item@),
    {
        TagList::parse(item.as_str())
    }
}

impl vstd::std_specs::convert::FromSpecImpl<String> for TagList {
    /// `from` is described by its own contract, over the view of the tags.
    open spec fn obeys_from_spec() -> bool {
        false
    }

    open spec fn from_spec(item: String) -> TagList {
        arbitrary()
    }
}

/// The six fields of a torrent.
#[derive(Clone, Copy, Debug, PartialEq, Eq, Structural)]
pub enum TorrentField {
    Category,
    MaxRatio,
    MaxSeedingTime,
    Name,
    SeedingTime,
    Tags,
}

impl TorrentField {
    /// The field's name as the server spells it.
    pub fn name(&self) -> (s: &'static str)
        ensures
            s@ == match *self {
                TorrentField::Category => "category"@,
                TorrentField::MaxRatio => "max_ratio"@,
                TorrentField::MaxSeedingTime => "max_seeding_time"@,
                TorrentField::Name => "name"@,
                TorrentField::SeedingTime => "seeding_time"@,
                TorrentField::Tags => "tags"@,
            },
    {
        match self {
            TorrentField::Category => "category",
            TorrentField::MaxRatio => "max_ratio",
            TorrentField::MaxSeedingTime => "max_seeding_time",
            TorrentField::Name => "name",
            TorrentField::SeedingTime => "seeding_time",
            TorrentField::Tags => "tags",
        }
    }
}

/// A torrent with every field known.
#[derive(Debug)]
pub struct Torrent {
    pub category: String,
    pub max_ratio: Ratio,
    pub max_seeding_time: MaxSeedingTime,
    pub name: String,
    /// Seconds spent seeding.
    pub seeding_time: usize,
    pub tags: TagList,
}

/// A `Torrent` over sequences of characters.
pub struct TorrentView {
    pub category: Seq<char>,
    pub max_ratio: Ratio,
    pub max_seeding_time: MaxSeedingTime,
    pub name: Seq<char>,
    pub seeding_time: usize,
    pub tags: Seq<Seq<char>>,
}

impl View for Torrent {
    type V = TorrentView;

    open spec fn view(&self) -> TorrentView {
        TorrentView {
            category: self.category@,
            max_ratio: self.max_ratio,
            max_seeding_time: self.max_seeding_time,
            name: self.name@,
            seeding_time: self.seeding_time,
            tags: self.tags@,
        }
    }
}

/// What one report says of a torrent: any of the six fields, the tags still
/// comma-joined.
#[derive(Debug)]
pub struct PartialTorrent {
    pub category: Option<String>,
    pub max_ratio: Option<Ratio>,
    pub max_seeding_time: Option<MaxSeedingTime>,
    pub name: Option<String>,
    pub seeding_time: Option<usize>,
    pub tags: Option<String>,
}

/// A `PartialTorrent` over sequences of characters.
pub struct PartialTorrentView {
    pub category: Option<Seq<char>>,
    pub max_ratio: Option<Ratio>,
    pub max_seeding_time: Option<MaxSeedingTime>,
    pub name: Option<Seq<char>>,
    pub seeding_time: Option<usize>,
    pub tags: Option<Seq<char>>,
}

/// The view of an optional string.
pub open spec fn optional_text(s: Option<String>) -> Option<Seq<char>> {
    match s {
        Some(s) => Some(s@),
        None => None,
    }
}

impl View for PartialTorrent {
    type V = PartialTorrentView;

    open spec fn view(&self) -> PartialTorrentView {
        PartialTorrentView {
            category: optional_text(self.category),
            max_ratio: self.max_ratio,
            max_seeding_time: self.max_seeding_time,
            name: optional_text(self.name),
            seeding_time: self.seeding_time,
            tags: optional_text(self.tags),
        }
    }
}

fn copy_text(s: &Option<String>) -> (r: Option<String>)
    ensures
        r == *s,
{
    match s {
        Some(s) => Some(s.clone()),
        None => None,
    }
}

impl Clone for PartialTorrent {
    fn clone(&self) -> (r: PartialTorrent)
        ensures
            r == *self,
    {
        PartialTorrent {
            category: copy_text(&self.category),
            max_ratio: self.max_ratio,
            max_seeding_time: self.max_seeding_time,
            name: copy_text(&self.name),
            seeding_time: self.seeding_time,
            tags: copy_text(&self.tags),
        }
    }
}

impl Default for PartialTorrent {
    /// A report that holds no field.
    fn default() -> (r: PartialTorrent)
        ensures
            r.category is None,
            r.max_ratio is None,
            r.max_seeding_time is None,
            r.name is None,
            r.seeding_time is None,
            r.tags is None,
    {
        PartialTorrent {
            category: None,
            max_ratio: None,
            max_seeding_time: None,
            name: None,
            seeding_time: None,
            tags: None,
        }
    }
}

/// The first field that a report lacks, in the order category, max_ratio,
/// max_seeding_time, name, seeding_time, tags.
pub open spec fn missing_field(data: PartialTorrentView) -> Option<TorrentField> {
    if data.category is None {
        Some(TorrentField::Category)
    } else if data.max_ratio is None {
        Some(TorrentField::MaxRatio)
    } else if data.max_seeding_time is None {
        Some(TorrentField::MaxSeedingTime)
    } else if data.name is None {
        Some(TorrentField::Name)
    } else if data.seeding_time is None {
        Some(TorrentField::SeedingTime)
    } else if data.tags is None {
        Some(TorrentField::Tags)
    } else {
        None
    }
}

/// The torrent that a complete report describes.
pub open spec fn complete(data: PartialTorrentView) -> TorrentView
    recommends
        missing_field(data) is None,
{
    TorrentView {
        category: data.category.unwrap(),
        max_ratio: data.max_ratio.unwrap(),
        max_seeding_time: data.max_seeding_time.unwrap(),
        name: data.name.unwrap(),
        seeding_time: data.seeding_time.unwrap(),
        tags: split_tags(data.tags.unwrap()),
    }
}

/// A torrent after a report: each field the report holds replaces the old
/// one, every other field stays.
pub open spec fn merged(torrent: TorrentView, data: PartialTorrentView) -> TorrentView {
    TorrentView {
        category: match data.category {
            Some(v) => v,
            None => torrent.category,
        },
        max_ratio: match data.max_ratio {
            Some(v) => v,
            None => torrent.max_ratio,
        },
        max_seeding_time: match data.max_seeding_time {
            Some(v) => v,
            None => torrent.max_seeding_time,
        },
        name: match data.name {
            Some(v) => v,
            None => torrent.name,
        },
        seeding_time: match data.seeding_time {
            Some(v) => v,
            None => torrent.seeding_time,
        },
        tags: match data.tags {
            Some(v) => split_tags(v),
            None => torrent.tags,
        },
    }
}

/// Whether a torrent carries a limit of its own: a seeding time or a ratio
/// that is zero or above.
pub open spec fn limited(torrent: TorrentView) -> bool {
    torrent.max_seeding_time >= 0 || at_least_zero(torrent.max_ratio.bits)
}

impl Clone for Torrent {
    fn clone(&self) -> (r: Torrent)
        ensures
            r@ == self@,
    {
        Torrent {
            category: self.category.clone(),
            max_ratio: self.max_ratio,
            max_seeding_time: self.max_seeding_time,
            name: self.name.clone(),
            seeding_time: self.seeding_time,
            tags: self.tags.clone(),
        }
    }
}

impl Torrent {
    /// Whether this torrent carries a limit of its own.
    pub fn is_limited(&self) -> (b: bool)
        ensures
            b == limited(self@),
    {
        self.max_seeding_time >= 0 || self.max_ratio.at_least_zero()
    }

    /// The torrent that a report describes, or the first field it lacks.
    pub fn from_data(torrent_data: PartialTorrent) -> (r: Result<Torrent, TorrentField>)
        ensures
            r matches Ok(t) ==> missing_field(torrent_data@) is None && t@ == complete(
                torrent_data@,
            ),
            r matches Err(field) ==> missing_field(torrent_data@) == Some(field),
    {
        let category = match torrent_data.category {
            Some(v) => v,
            None => { return Err(TorrentField::Category); },
        };
        let max_ratio = match torrent_data.max_ratio {
            Some(v) => v,
            None => { return Err(TorrentField::MaxRatio); },
        };
        let max_seeding_time = match torrent_data.max_seeding_time {
            Some(v) => v,
            None => { return Err(TorrentField::MaxSeedingTime); },
        };
        let name = match torrent_data.name {
            Some(v) => v,
            None => { return Err(TorrentField::Name); },
        };
        let seeding_time = match torrent_data.seeding_time {
            Some(v) => v,
            None => { return Err(TorrentField::SeedingTime); },
        };
        let tags = match torrent_data.tags {
            Some(v) => TagList::from(v),
            None => { return Err(TorrentField::Tags); },
        };
        Ok(Torrent { category, max_ratio, max_seeding_time, name, seeding_time, tags })
    }

    /// Takes over each field that the report holds and keeps the others.
    pub fn update(&mut self, torrent_data: PartialTorrent)
        ensures
            final(self)@ == merged(old(self)@, torrent_data@),
    {
        if let Some(category) = torrent_data.category {
            self.category = category;
        }
        if let Some(max_ratio) = torrent_data.max_ratio {
            self.max_ratio = max_ratio;
        }
        if let Some(max_seeding_time) = torrent_data.max_seeding_time {
            self.max_seeding_time = max_seeding_time;
        }
        if let Some(name) = torrent_data.name {
            self.name = name;
        }
        if let Some(seeding_time) = torrent_data.seeding_time {
            self.seeding_time = seeding_time;
        }
        if let Some(tags) = torrent_data.tags {
            self.tags = TagList::from(tags);
        }
    }
}

/// What the server reads as "use the global limit".
pub open spec fn global_limit() -> Seq<char> {
    "-2"@
}

/// The text of a limit as it goes to the server: the value's own text, or
/// the global-limit mark where there is no value.
pub fn value_or_global_limit(value: Option<String>) -> (s: String)
    ensures
        s@ == match value {
            Some(v) => v@,
            None => global_limit(),
        },
{
    match value {
        Some(value) => value,
        None => String::from_str("-2"),
    }
}

} // verus!
