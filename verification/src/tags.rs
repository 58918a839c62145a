//! Counting the tags of notes.

use vstd::prelude::*;

use crate::frontmatter;
use crate::host;
use crate::host::{WalkEntry, Want};
use crate::json;
use crate::json::{Json, Tree};
use crate::notes;
use crate::sorting;
use crate::sorting::Ranked;
use crate::text;

verus! {

/// A tag and how often it occurs.
pub struct TagCount {
    pub tag: String,
    pub count: u64,
}

impl View for TagCount {
    type V = (Seq<char>, u64);

    open spec fn view(&self) -> (Seq<char>, u64) {
        (self.tag@, self.count)
    }
}

impl Ranked for TagCount {
    /// The larger count first; then the tags in order.
    open spec fn before(a: (Seq<char>, u64), b: (Seq<char>, u64)) -> bool {
        if a.1 == b.1 {
            text::text_le(a.0, b.0)
        } else {
            a.1 > b.1
        }
    }

    proof fn total(a: (Seq<char>, u64), b: (Seq<char>, u64)) {
        text::text_le_total(a.0, b.0);
    }

    proof fn transitive(a: (Seq<char>, u64), b: (Seq<char>, u64), c: (Seq<char>, u64)) {
        if a.1 == b.1 && b.1 == c.1 {
            text::text_le_transitive(a.0, b.0, c.0);
        }
    }

    fn may_precede(&self, other: &TagCount) -> (r: bool) {
        if self.count == other.count {
            text::le(&self.tag, &other.tag)
        } else {
            self.count > other.count
        }
    }
}

/// Where a tag first occurs.
pub open spec fn tag_index(s: Seq<(Seq<char>, u64)>, tag: Seq<char>) -> Option<int>
    decreases s.len(),
{
    if s.len() == 0 {
        None
    } else if s[0].0 == tag {
        Some(0int)
    } else {
        match tag_index(s.drop_first(), tag) {
            Some(i) => Some(i + 1),
            None => None,
        }
    }
}

/// The counts after a tag was seen once more.
pub open spec fn counted(s: Seq<(Seq<char>, u64)>, tag: Seq<char>) -> Seq<(Seq<char>, u64)> {
    match tag_index(s, tag) {
        Some(i) => s.update(i, (tag, host::plus(s[i].1, 1))),
        None => s.push((tag, 1)),
    }
}

/// The counts after each of `tags` was seen once more.
pub open spec fn all_counted(s: Seq<(Seq<char>, u64)>, tags: Seq<Seq<char>>) -> Seq<(Seq<char>, u64)>
    decreases tags.len(),
{
    if tags.len() == 0 {
        s
    } else {
        counted(all_counted(s, tags.drop_last()), tags.last())
    }
}

/// How often a tag was seen.
pub open spec fn count_of(s: Seq<(Seq<char>, u64)>, tag: Seq<char>) -> u64 {
    match tag_index(s, tag) {
        Some(i) => s[i].1,
        None => 0,
    }
}

/// The counts after a note with frontmatter `fm` and body `body` was read.
pub open spec fn note_counted(s: Seq<(Seq<char>, u64)>, fm: Tree, body: Seq<char>) -> Seq<(Seq<char>, u64)> {
    all_counted(all_counted(s, notes::frontmatter_tags(fm)), notes::inline_tags(body))
}

/// Counts as the members of a JSON object.
pub open spec fn count_members(s: Seq<(Seq<char>, u64)>) -> Seq<(Seq<char>, Tree)> {
    s.map_values(|t: (Seq<char>, u64)| (t.0, Tree::Number(json::number_of(t.1))))
}

/// The counts as JSON: an object with the tags in order.
pub open spec fn tags_tree(s: Seq<(Seq<char>, u64)>) -> Tree {
    Tree::Object(seq![("tags"@, Tree::Object(count_members(sorting::stably_sorted::<TagCount>(s))))])
}

/// What to do with an entry: notes that are not too large are read.
pub open spec fn wanted(e: WalkEntry) -> Want {
    if e.is_file && e.extension@ == "md"@ && e.size <= host::MAX_FILE_SIZE {
        Want::Read
    } else {
        Want::Skip
    }
}

/// A count of tags.
pub struct Tags {
    list: Vec<TagCount>,
}

impl View for Tags {
    type V = Seq<(Seq<char>, u64)>;

    closed spec fn view(&self) -> Seq<(Seq<char>, u64)> {
        sorting::views(self.list@)
    }
}

impl Tags {
    /// No tag yet.
    pub fn new() -> (r: Tags)
        ensures
            r@ == Seq::<(Seq<char>, u64)>::empty(),
    {
        let list: Vec<TagCount> = Vec::new();
        assert(sorting::views(list@) =~= Seq::<(Seq<char>, u64)>::empty());
        Tags { list }
    }

    /// What to do with an entry.
    pub fn consider(&self, e: &WalkEntry) -> (r: Want)
        ensures
            r == wanted(*e),
    {
        if e.is_file && text::same(&e.extension, "md") && e.size <= host::MAX_FILE_SIZE {
            Want::Read
        } else {
            Want::Skip
        }
    }

    /// Counts a tag once more.
    pub fn count(&mut self, tag: &str)
        ensures
            final(self)@ == counted(old(self)@, tag@),
    {
        let ghost s = sorting::views(self.list@);
        let mut i: usize = 0;
        assert(s.skip(0) =~= s);
        while i < self.list.len()
            invariant
                i <= self.list@.len(),
                *self == *old(self),
                s == sorting::views(self.list@),
                match tag_index(s.skip(i as int), tag@) {
                    Some(k) => tag_index(s, tag@) == Some(k + i),
                    None => tag_index(s, tag@) is None,
                },
            decreases self.list@.len() - i,
        {
            assert(s.skip(i as int)[0] == s[i as int]);
            if text::same(&self.list[i].tag, tag) {
                let n = host::add_capped(self.list[i].count, 1);
                self.list.set(i, TagCount { tag: tag.to_owned(), count: n });
                assert(sorting::views(self.list@) =~= s.update(i as int, (tag@, n)));
                return;
            }
            assert(s.skip(i as int).drop_first() =~= s.skip(i + 1));
            i += 1;
        }
        self.list.push(TagCount { tag: tag.to_owned(), count: 1 });
        assert(sorting::views(self.list@) =~= s.push((tag@, 1)));
    }

    /// Counts each of `tags` once more.
    pub fn count_all(&mut self, tags: &Vec<String>)
        ensures
            final(self)@ == all_counted(old(self)@, text::texts(tags@)),
    {
        let ghost all = text::texts(tags@);
        let mut i: usize = 0;
        assert(all.take(0) =~= Seq::<Seq<char>>::empty());
        while i < tags.len()
            invariant
                i <= tags@.len(),
                all == text::texts(tags@),
                self@ == all_counted(old(self)@, all.take(i as int)),
            decreases tags@.len() - i,
        {
            assert(all.take(i + 1).drop_last() =~= all.take(i as int));
            assert(all.take(i + 1).last() == tags@[i as int]@);
            self.count(&tags[i]);
            i += 1;
        }
        assert(all.take(all.len() as int) =~= all);
    }

    /// Counts the tags of a note, by its frontmatter and its body.
    pub fn read_parts(&mut self, fm: &Json, body: &str)
        ensures
            final(self)@ == note_counted(old(self)@, fm.tree(), body@),
    {
        self.count_all(&notes::extract_frontmatter_tags(fm));
        self.count_all(&notes::extract_inline_tags(body));
    }

    /// Counts the tags of a note.
    pub fn read(&mut self, content: &str)
        ensures
            final(self)@ == note_counted(
                old(self)@,
                frontmatter::frontmatter_of(content@),
                frontmatter::body_of(content@),
            ),
    {
        let (fm, body) = frontmatter::parse_frontmatter(content);
        self.read_parts(&fm, &body)
    }

    /// The counts as JSON.
    pub fn to_json(self) -> (r: Json)
        ensures
            r.tree() == tags_tree(self@),
    {
        let sorted = sorting::sort(self.list);
        let mut m: Vec<(String, Json)> = Vec::new();
        let mut i: usize = 0;
        while i < sorted.len()
            invariant
                i <= sorted@.len(),
                m@.len() == i,
                forall|k: int|
                    0 <= k < i ==> (#[trigger] m@[k]).0@ == sorted@[k].tag@ && m@[k].1.tree() == Tree::Number(
                        json::number_of(sorted@[k].count),
                    ),
            decreases sorted@.len() - i,
        {
            m.push((sorted[i].tag.clone(), Json::number(sorted[i].count)));
            i += 1;
        }
        assert(json::members(m@) =~= count_members(sorting::views(sorted@)));
        Json::object1("tags", Json::object(m))
    }
}

// ── Laws ──────────────────────────────────────────────────────────────────────

/// Where a tag is found, it is found for the first time.
proof fn tag_index_is_first(s: Seq<(Seq<char>, u64)>, tag: Seq<char>)
    ensures
        match tag_index(s, tag) {
            Some(i) => 0 <= i < s.len() && s[i].0 == tag && forall|j: int| 0 <= j < i ==> (#[trigger] s[j]).0 != tag,
            None => forall|j: int| 0 <= j < s.len() ==> (#[trigger] s[j]).0 != tag,
        },
    decreases s.len(),
{
    if s.len() > 0 && s[0].0 != tag {
        let rest = s.drop_first();
        tag_index_is_first(rest, tag);
        assert forall|j: int| 0 < j < s.len() implies #[trigger] s[j] == rest[j - 1] by {}
        match tag_index(rest, tag) {
            Some(i) => {
                assert(rest[i] == s[i + 1]);
            },
            None => {},
        }
    }
}

/// Counting a tag raises its count by one, up to the largest number, and leaves
/// every other count as it is.
pub proof fn counting_raises_one_count(s: Seq<(Seq<char>, u64)>, tag: Seq<char>, other: Seq<char>)
    ensures
        count_of(counted(s, tag), tag) == host::plus(count_of(s, tag), 1),
        other != tag ==> count_of(counted(s, tag), other) == count_of(s, other),
{
    let n = counted(s, tag);
    tag_index_is_first(s, tag);
    tag_index_is_first(s, other);
    tag_index_is_first(n, tag);
    tag_index_is_first(n, other);
    match tag_index(s, tag) {
        Some(i) => {
            assert(n[i].0 == tag);
            if let Some(k) = tag_index(n, tag) {
                if k < i {
                    assert(n[k] == s[k]);
                }
            }
        },
        None => {
            assert(n[s.len() as int].0 == tag);
            if let Some(k) = tag_index(n, tag) {
                if k < s.len() {
                    assert(n[k] == s[k]);
                }
            }
        },
    }
    if other != tag {
        match tag_index(s, other) {
            Some(k) => {
                assert(n[k].0 == other);
                let l = tag_index(n, other)->0;
                if l < s.len() {
                    assert(s[l].0 == n[l].0);
                }
            },
            None => {
                if let Some(l) = tag_index(n, other) {
                    if l < s.len() {
                        assert(s[l].0 == n[l].0);
                    }
                }
            },
        }
    }
}

/// Tags are counted in files with the extension `md` of at most ten mebibytes, and in no
/// others.
pub proof fn tags_are_those_of_notes(e: WalkEntry)
    ensures
        wanted(e) == (if e.is_file && e.extension@ == seq!['m', 'd'] && e.size <= 10_485_760 {
            Want::Read
        } else {
            Want::Skip
        }),
{
    reveal_strlit("md");
    assert("md"@ =~= seq!['m', 'd']);
}

/// How often a text occurs in a list.
pub open spec fn occurrences(tags: Seq<Seq<char>>, tag: Seq<char>) -> nat
    decreases tags.len(),
{
    if tags.len() == 0 {
        0
    } else {
        occurrences(tags.drop_first(), tag) + (if tags[0] == tag { 1nat } else { 0nat })
    }
}

proof fn occurrences_pushed(tags: Seq<Seq<char>>, last: Seq<char>, tag: Seq<char>)
    ensures
        occurrences(tags.push(last), tag) == occurrences(tags, tag) + (if last == tag { 1nat } else { 0nat }),
    decreases tags.len(),
{
    reveal_with_fuel(occurrences, 2);
    let all = tags.push(last);
    if tags.len() == 0 {
        assert(all.drop_first() =~= Seq::<Seq<char>>::empty());
        assert(all[0] == last);
    } else {
        assert(all.drop_first() =~= tags.drop_first().push(last));
        assert(all[0] == tags[0]);
        occurrences_pushed(tags.drop_first(), last, tag);
    }
}

proof fn counts_add_up(s: Seq<(Seq<char>, u64)>, tags: Seq<Seq<char>>, tag: Seq<char>)
    requires
        count_of(s, tag) + occurrences(tags, tag) <= u64::MAX,
    ensures
        count_of(all_counted(s, tags), tag) == count_of(s, tag) + occurrences(tags, tag),
    decreases tags.len(),
{
    if tags.len() > 0 {
        let before = tags.drop_last();
        assert(tags =~= before.push(tags.last()));
        occurrences_pushed(before, tags.last(), tag);
        counts_add_up(s, before, tag);
        counting_raises_one_count(all_counted(s, before), tags.last(), tag);
    }
}

/// Each note adds to the count of a tag as often as it has the tag, in its frontmatter and in
/// its text together.
pub proof fn tags_are_counted_as_often_as_they_occur(
    s: Seq<(Seq<char>, u64)>,
    fm: Tree,
    body: Seq<char>,
    tag: Seq<char>,
)
    requires
        count_of(s, tag) + occurrences(notes::frontmatter_tags(fm), tag) + occurrences(notes::inline_tags(body), tag)
            <= u64::MAX,
    ensures
        count_of(note_counted(s, fm, body), tag) == count_of(s, tag) + occurrences(notes::frontmatter_tags(fm), tag)
            + occurrences(notes::inline_tags(body), tag),
{
    counts_add_up(s, notes::frontmatter_tags(fm), tag);
    counts_add_up(all_counted(s, notes::frontmatter_tags(fm)), notes::inline_tags(body), tag);
}

/// The counts are told with the larger ones first, and those that are equal in the order of
/// their tags; each tag is told as often as it is in the count.
pub proof fn larger_counts_come_first(s: Seq<(Seq<char>, u64)>, i: int, j: int)
    requires
        0 <= i < j < s.len(),
    ensures
        ({
            let t = sorting::stably_sorted::<TagCount>(s);
            &&& t.len() == s.len()
            &&& t.to_multiset() == s.to_multiset()
            &&& t[i].1 > t[j].1 || (t[i].1 == t[j].1 && text::text_le(t[i].0, t[j].0))
            &&& tags_tree(s) == Tree::Object(
                seq![
                    (
                        "tags"@,
                        Tree::Object(t.map_values(|c: (Seq<char>, u64)| (c.0, Tree::Number(json::number_of(c.1))))),
                    ),
                ],
            )
        }),
{
    sorting::sorting_keeps_the_values::<TagCount>(s);
    let t = sorting::stably_sorted::<TagCount>(s);
    assert(TagCount::before(t[i], t[j]));
    assert(count_members(t) =~= t.map_values(|c: (Seq<char>, u64)| (c.0, Tree::Number(json::number_of(c.1)))));
}

} // verus!
