//! Directory listings: their order, their pages, their text.

use vstd::prelude::*;

use crate::json;
use crate::json::{Json, Tree};
use crate::sorting;
use crate::sorting::Ranked;
use crate::text;

verus! {

/// How many entries of a directory a listing in pages knows of.
pub const MAX_LISTED: usize = 1000;

/// How many entries of a directory are read for a listing in pages: one more than
/// it knows of, so that it can say that there are more.
pub const MAX_READ: usize = 1001;

/// An entry of a directory. Only a regular file has a size.
pub struct DirEntry {
    pub name: String,
    pub is_dir: bool,
    pub size: Option<u64>,
}

/// What an entry is, mathematically.
pub struct EntryView {
    pub name: Seq<char>,
    pub is_dir: bool,
    pub size: Option<u64>,
}

impl View for DirEntry {
    type V = EntryView;

    open spec fn view(&self) -> EntryView {
        EntryView { name: self.name@, is_dir: self.is_dir, size: self.size }
    }
}

impl EntryView {
    /// The word for what the entry is.
    pub open spec fn kind(self) -> Seq<char> {
        if self.is_dir {
            "directory"@
        } else {
            "file"@
        }
    }

    /// The entry as JSON.
    pub open spec fn tree(self) -> Tree {
        Tree::Object(
            seq![
                ("name"@, Tree::Text(self.name)),
                ("type"@, Tree::Text(self.kind())),
                (
                    "size"@,
                    match self.size {
                        Some(n) => Tree::Number(json::number_of(n)),
                        None => Tree::Null,
                    },
                ),
            ],
        )
    }
}

impl DirEntry {
    /// The entry as JSON.
    pub fn to_json(&self) -> (r: Json)
        ensures
            r.tree() == self@.tree(),
    {
        let kind = if self.is_dir {
            "directory"
        } else {
            "file"
        };
        let size = match self.size {
            Some(n) => Json::number(n),
            None => Json::Null,
        };
        let r = Json::object3("name", Json::text(&self.name), "type", Json::text(kind), "size", size);
        assert(r.tree()->Object_0 =~= self@.tree()->Object_0);
        r
    }
}

impl Ranked for DirEntry {
    /// Directories come first; then it goes by the names.
    open spec fn before(a: EntryView, b: EntryView) -> bool {
        if a.is_dir == b.is_dir {
            text::text_le(a.name, b.name)
        } else {
            a.is_dir
        }
    }

    proof fn total(a: EntryView, b: EntryView) {
        text::text_le_total(a.name, b.name);
    }

    proof fn transitive(a: EntryView, b: EntryView, c: EntryView) {
        if a.is_dir == b.is_dir && b.is_dir == c.is_dir {
            text::text_le_transitive(a.name, b.name, c.name);
        }
    }

    fn may_precede(&self, other: &DirEntry) -> (r: bool) {
        if self.is_dir == other.is_dir {
            text::le(&self.name, &other.name)
        } else {
            self.is_dir
        }
    }
}

/// The entries as JSON.
pub open spec fn entry_trees(entries: Seq<EntryView>) -> Seq<Tree> {
    entries.map_values(|e: EntryView| e.tree())
}

/// The entries as JSON.
fn entries_to_json(entries: &[DirEntry]) -> (r: Json)
    ensures
        r.tree() == Tree::Array(entry_trees(sorting::views(entries@))),
{
    let mut out: Vec<Json> = Vec::new();
    let mut i: usize = 0;
    while i < entries.len()
        invariant
            i <= entries@.len(),
            out@.len() == i,
            forall|k: int| 0 <= k < i ==> (#[trigger] out@[k]).tree() == entries@[k]@.tree(),
        decreases entries@.len() - i,
    {
        out.push(entries[i].to_json());
        i += 1;
    }
    assert(json::trees(out@) =~= entry_trees(sorting::views(entries@)));
    Json::array(out)
}

/// The text of a listing of all entries.
pub open spec fn whole_listing(entries: Seq<EntryView>) -> Seq<char> {
    json::json_pretty(Tree::Array(entry_trees(sorting::stably_sorted::<DirEntry>(entries))).settled())
}

/// The listing of all entries of a directory as JSON.
pub fn whole_json(entries: Vec<DirEntry>) -> (r: Json)
    ensures
        r.tree() == Tree::Array(entry_trees(sorting::stably_sorted::<DirEntry>(sorting::views(entries@)))),
{
    entries_to_json(&sorting::sort(entries))
}

/// The listing of all entries of a directory, which come in the order in which
/// they were read.
pub fn list_whole(entries: Vec<DirEntry>) -> (r: String)
    ensures
        r@ == whole_listing(sorting::views(entries@)),
{
    json::to_pretty(&whole_json(entries))
}

/// At most `limit` values of `s`, from `offset` on.
pub open spec fn page<T>(s: Seq<T>, offset: int, limit: int) -> Seq<T> {
    let from = if offset < s.len() {
        offset
    } else {
        s.len() as int
    };
    let to = if from + limit < s.len() {
        from + limit
    } else {
        s.len() as int
    };
    s.subrange(from, to)
}

/// The first `n` values of `s`.
pub open spec fn at_most<T>(s: Seq<T>, n: int) -> Seq<T> {
    if s.len() > n {
        s.take(n)
    } else {
        s
    }
}

/// The entries that a listing in pages knows of, in order.
pub open spec fn listed(entries: Seq<EntryView>) -> Seq<EntryView> {
    at_most(sorting::stably_sorted::<DirEntry>(at_most(entries, MAX_READ as int)), MAX_LISTED as int)
}

/// A page of a listing as JSON.
pub open spec fn page_tree(entries: Seq<EntryView>, offset: u64, limit: u64) -> Tree {
    let known = listed(entries);
    let members = seq![
        ("total"@, Tree::Number(json::number_of(known.len() as u64))),
        ("offset"@, Tree::Number(json::number_of(offset))),
        ("limit"@, Tree::Number(json::number_of(limit))),
        ("entries"@, Tree::Array(entry_trees(page(known, offset as int, limit as int)))),
    ];
    if entries.len() > MAX_LISTED {
        Tree::Object(members.push(("truncated"@, Tree::Bool(true))))
    } else {
        Tree::Object(members)
    }
}

/// The text of a page of a listing.
pub open spec fn page_listing(entries: Seq<EntryView>, offset: u64, limit: u64) -> Seq<char> {
    json::json_pretty(page_tree(entries, offset, limit).settled())
}

/// A page of the listing of a directory as JSON.
pub fn page_json(entries: Vec<DirEntry>, offset: u64, limit: u64) -> (r: Json)
    ensures
        r.tree() == page_tree(sorting::views(entries@), offset, limit),
{
    let mut all = entries;
    all.truncate(MAX_READ);
    let ghost given = sorting::views(entries@);
    assert(sorting::views(all@) =~= at_most(given, MAX_READ as int));
    proof {
        sorting::sorting_keeps_the_values::<DirEntry>(sorting::views(all@));
    }
    let mut sorted = sorting::sort(all);
    let truncated = sorted.len() > MAX_LISTED;
    let ghost whole = sorting::views(sorted@);
    assert(whole.len() == sorted@.len());
    sorted.truncate(MAX_LISTED);
    assert(sorting::views(sorted@) =~= listed(given));
    let n: usize = sorted.len();
    let from: usize = if offset < n as u64 {
        offset as usize
    } else {
        n
    };
    let to: usize = if limit < (n - from) as u64 {
        from + limit as usize
    } else {
        n
    };
    let part = vstd::slice::slice_subrange(&sorted, from, to);
    assert(sorting::views(part@) =~= page(listed(given), offset as int, limit as int));
    let mut m: Vec<(String, Json)> = Vec::new();
    m.push(("total".to_owned(), Json::number(n as u64)));
    m.push(("offset".to_owned(), Json::number(offset)));
    m.push(("limit".to_owned(), Json::number(limit)));
    m.push(("entries".to_owned(), entries_to_json(part)));
    if truncated {
        m.push(("truncated".to_owned(), Json::Bool(true)));
    }
    assert(json::members(m@) =~= page_tree(sorting::views(entries@), offset, limit)->Object_0);
    Json::object(m)
}

/// A page of the listing of a directory, whose entries come in the order in which
/// they were read.
pub fn list_page(entries: Vec<DirEntry>, offset: u64, limit: u64) -> (r: String)
    ensures
        r@ == page_listing(sorting::views(entries@), offset, limit),
{
    json::to_pretty(&page_json(entries, offset, limit))
}

// ── Laws ──────────────────────────────────────────────────────────────────────

/// A page of one length and the page that follows it make up the page of both
/// lengths.
pub proof fn pages_follow_one_another<T>(s: Seq<T>, offset: nat, limit: nat, more: nat)
    ensures
        page(s, offset as int, limit as int) + page(s, (offset + limit) as int, more as int) == page(
            s,
            offset as int,
            (limit + more) as int,
        ),
{
    assert(page(s, offset as int, limit as int) + page(s, (offset + limit) as int, more as int) =~= page(
        s,
        offset as int,
        (limit + more) as int,
    ));
}

/// A page has no more entries than it may have, and a listing in pages knows of no
/// more than `MAX_LISTED` entries.
pub proof fn pages_are_bounded(entries: Seq<EntryView>, offset: u64, limit: u64)
    ensures
        page(listed(entries), offset as int, limit as int).len() <= limit,
        listed(entries).len() <= MAX_LISTED,
        listed(entries).len() == entries.len() || entries.len() > MAX_LISTED,
{
    sorting::sorting_keeps_the_values::<DirEntry>(at_most(entries, MAX_READ as int));
}

/// A listing has the entries of the directory, each as often as the directory has it:
/// directories before files, and each of the two by their names.
pub proof fn directories_come_first(entries: Seq<EntryView>, i: int, j: int)
    requires
        0 <= i < j < entries.len(),
    ensures
        sorting::stably_sorted::<DirEntry>(entries).to_multiset() == entries.to_multiset(),
        ({
            let s = sorting::stably_sorted::<DirEntry>(entries);
            &&& s.len() == entries.len()
            &&& s[j].is_dir ==> s[i].is_dir
            &&& s[i].is_dir == s[j].is_dir ==> text::text_le(s[i].name, s[j].name)
        }),
{
    sorting::sorting_keeps_the_values::<DirEntry>(entries);
    let s = sorting::stably_sorted::<DirEntry>(entries);
    assert(DirEntry::before(s[i], s[j]));
}

/// A listing tells of each entry its name, whether it is a directory or a file, and its size
/// where that is known.
pub proof fn entries_are_told(e: EntryView)
    ensures
        e.tree() == Tree::Object(
            seq![
                ("name"@, Tree::Text(e.name)),
                (
                    "type"@,
                    Tree::Text(
                        if e.is_dir {
                            seq!['d', 'i', 'r', 'e', 'c', 't', 'o', 'r', 'y']
                        } else {
                            seq!['f', 'i', 'l', 'e']
                        },
                    ),
                ),
                ("size"@, if e.size is Some { Tree::Number(json::number_of(e.size->0)) } else { Tree::Null }),
            ],
        ),
{
    reveal_strlit("directory");
    reveal_strlit("file");
    assert("directory"@ =~= seq!['d', 'i', 'r', 'e', 'c', 't', 'o', 'r', 'y']);
    assert("file"@ =~= seq!['f', 'i', 'l', 'e']);
    let told = seq![
        ("name"@, Tree::Text(e.name)),
        ("type"@, Tree::Text(e.kind())),
        ("size"@, if e.size is Some { Tree::Number(json::number_of(e.size->0)) } else { Tree::Null }),
    ];
    assert(e.tree()->Object_0 =~= told);
}

/// A page holds the values from the offset on, in their order: as many as are asked for, or
/// as there are.
pub proof fn pages_hold_what_stands_there<T>(s: Seq<T>, offset: nat, limit: nat)
    ensures
        ({
            let p = page(s, offset as int, limit as int);
            &&& p.len() == (if offset >= s.len() {
                0
            } else if offset + limit <= s.len() {
                limit as int
            } else {
                s.len() - offset
            })
            &&& forall|i: int| 0 <= i < p.len() ==> #[trigger] p[i] == s[offset + i]
        }),
{
}

/// A page of a listing tells how many entries there are, at most a thousand, where it starts
/// and how many it may hold, and its entries, which are those of the listing; a listing of
/// more entries than that is marked.
pub proof fn pages_tell_what_they_hold(entries: Seq<EntryView>, offset: u64, limit: u64)
    ensures
        ({
            let t = page_tree(entries, offset, limit);
            let known = listed(entries);
            &&& known.len() == (if entries.len() > 1000 { 1000 } else { entries.len() })
            &&& t.field("total"@) == Tree::Number(json::number_of(known.len() as u64))
            &&& t.field("offset"@) == Tree::Number(json::number_of(offset))
            &&& t.field("limit"@) == Tree::Number(json::number_of(limit))
            &&& t.field("entries"@) == Tree::Array(
                page(known, offset as int, limit as int).map_values(|e: EntryView| e.tree()),
            )
            &&& t.field("truncated"@) == (if entries.len() > 1000 { Tree::Bool(true) } else { Tree::Null })
        }),
        entries.len() <= 1000 ==> listed(entries) == sorting::stably_sorted::<DirEntry>(entries),
{
    pages_are_bounded(entries, offset, limit);
    sorting::sorting_keeps_the_values::<DirEntry>(at_most(entries, MAX_READ as int));
    let t = page_tree(entries, offset, limit);
    let m = t->Object_0;
    reveal_strlit("total");
    reveal_strlit("offset");
    reveal_strlit("limit");
    reveal_strlit("entries");
    reveal_strlit("truncated");
    assert("total"@.len() == 5 && "offset"@.len() == 6 && "limit"@.len() == 5 && "entries"@.len() == 7 && "truncated"@.len()
        == 9);
    assert("total"@[0] == 't' && "limit"@[0] == 'l');
    assert(m[0].0 == "total"@ && m[1].0 == "offset"@ && m[2].0 == "limit"@ && m[3].0 == "entries"@);
    json::member_index_is_first(m, "total"@);
    json::member_index_is_first(m, "offset"@);
    json::member_index_is_first(m, "limit"@);
    json::member_index_is_first(m, "entries"@);
    json::member_index_is_first(m, "truncated"@);
    if entries.len() > 1000 {
        assert(m[4].0 == "truncated"@);
    }
}

/// A listing of all entries holds each of them, in the order of listings.
pub proof fn whole_listings_hold_all(entries: Seq<EntryView>)
    ensures
        whole_listing(entries) == json::json_pretty(
            Tree::Array(sorting::stably_sorted::<DirEntry>(entries).map_values(|e: EntryView| e.tree())).settled(),
        ),
        sorting::stably_sorted::<DirEntry>(entries).to_multiset() == entries.to_multiset(),
{
    sorting::sorting_keeps_the_values::<DirEntry>(entries);
    let sorted = sorting::stably_sorted::<DirEntry>(entries);
    assert(entry_trees(sorted) =~= sorted.map_values(|e: EntryView| e.tree()));
}

} // verus!
