//! The outline of a vault: its directories and notes as a tree, down to a depth
//! and up to a number of entries.

use std::path::PathBuf;

use vstd::prelude::*;
use vstd::utf8::encode_utf8;

use crate::json;
use crate::json::{Json, Tree};
use crate::notes;
use crate::sorting;
use crate::sorting::Ranked;
use crate::text;

verus! {

/// How many entries an outline counts.
pub const MAX_COUNT: u64 = 300;

/// The depth of an outline, where none is asked for, and the largest.
pub const DEFAULT_DEPTH: u64 = 2;

pub const MAX_DEPTH: u64 = 5;

// ── Entries ───────────────────────────────────────────────────────────────────

/// What an entry of a directory is.
#[derive(Clone, Copy, PartialEq, Eq, Structural)]
pub enum Kind {
    Directory,
    File,
    /// Neither, such as a symbolic link.
    Other,
    /// It could not be told.
    Unknown,
}

/// An entry of a directory.
pub struct OutlineEntry {
    pub path: PathBuf,
    /// The bytes of its name, by which entries are ordered.
    pub key: Vec<u8>,
    pub name: String,
    /// The extension of its name; empty where it has none.
    pub extension: String,
    pub kind: Kind,
}

/// What an entry is, mathematically.
pub struct OutlineEntryView {
    pub path: PathBuf,
    pub key: Seq<u8>,
    pub name: Seq<char>,
    pub extension: Seq<char>,
    pub kind: Kind,
}

impl View for OutlineEntry {
    type V = OutlineEntryView;

    open spec fn view(&self) -> OutlineEntryView {
        OutlineEntryView {
            path: self.path,
            key: self.key@,
            name: self.name@,
            extension: self.extension@,
            kind: self.kind,
        }
    }
}

/// Bytes `a` come before bytes `b`, or are the same.
pub open spec fn bytes_le(a: Seq<u8>, b: Seq<u8>) -> bool
    decreases a.len(),
{
    if a.len() == 0 {
        true
    } else if b.len() == 0 {
        false
    } else if a[0] != b[0] {
        a[0] < b[0]
    } else {
        bytes_le(a.drop_first(), b.drop_first())
    }
}

/// Whether bytes `a` come before bytes `b`, or are the same.
fn check_bytes_le(a: &Vec<u8>, b: &Vec<u8>) -> (r: bool)
    ensures
        r == bytes_le(a@, b@),
{
    let mut i: usize = 0;
    assert(a@.skip(0) =~= a@);
    assert(b@.skip(0) =~= b@);
    loop
        invariant
            i <= a@.len(),
            i <= b@.len(),
            bytes_le(a@.skip(i as int), b@.skip(i as int)) == bytes_le(a@, b@),
        decreases a@.len() - i,
    {
        if i == a.len() {
            return true;
        }
        if i == b.len() {
            return false;
        }
        assert(a@.skip(i as int)[0] == a@[i as int]);
        assert(b@.skip(i as int)[0] == b@[i as int]);
        if a[i] != b[i] {
            return a[i] < b[i];
        }
        assert(a@.skip(i as int).drop_first() =~= a@.skip(i + 1));
        assert(b@.skip(i as int).drop_first() =~= b@.skip(i + 1));
        i += 1;
    }
}

proof fn bytes_le_total(a: Seq<u8>, b: Seq<u8>)
    ensures
        bytes_le(a, b) || bytes_le(b, a),
    decreases a.len(),
{
    if a.len() > 0 && b.len() > 0 && a[0] == b[0] {
        bytes_le_total(a.drop_first(), b.drop_first());
    }
}

proof fn bytes_le_transitive(a: Seq<u8>, b: Seq<u8>, c: Seq<u8>)
    requires
        bytes_le(a, b),
        bytes_le(b, c),
    ensures
        bytes_le(a, c),
    decreases a.len(),
{
    if a.len() > 0 && b.len() > 0 && c.len() > 0 && a[0] == b[0] && b[0] == c[0] {
        bytes_le_transitive(a.drop_first(), b.drop_first(), c.drop_first());
    }
}

impl Ranked for OutlineEntry {
    /// Directories first; then by the bytes of the name.
    open spec fn before(a: OutlineEntryView, b: OutlineEntryView) -> bool {
        if (a.kind == Kind::Directory) == (b.kind == Kind::Directory) {
            bytes_le(a.key, b.key)
        } else {
            a.kind == Kind::Directory
        }
    }

    proof fn total(a: OutlineEntryView, b: OutlineEntryView) {
        bytes_le_total(a.key, b.key);
    }

    proof fn transitive(a: OutlineEntryView, b: OutlineEntryView, c: OutlineEntryView) {
        if bytes_le(a.key, b.key) && bytes_le(b.key, c.key) {
            bytes_le_transitive(a.key, b.key, c.key);
        }
    }

    fn may_precede(&self, other: &OutlineEntry) -> (r: bool) {
        let a = self.kind == Kind::Directory;
        let b = other.kind == Kind::Directory;
        if a == b {
            check_bytes_le(&self.key, &other.key)
        } else {
            a
        }
    }
}

// ── The outline of a snapshot ─────────────────────────────────────────────────

/// A file system, as far as an outline looks at it.
pub struct Snapshot {
    /// The entries of a directory, in the order in which they are read; `None`
    /// where it cannot be read.
    pub dirs: spec_fn(PathBuf) -> Option<Seq<OutlineEntryView>>,
    /// The first bytes of a file; `None` where it cannot be read.
    pub heads: spec_fn(PathBuf) -> Option<Seq<u8>>,
}

/// A directory as JSON.
pub open spec fn dir_node(name: Seq<char>, children: Seq<Tree>) -> Tree {
    Tree::Object(
        seq![
            ("name"@, Tree::Text(name)),
            ("type"@, Tree::Text("directory"@)),
            ("children"@, Tree::Array(children)),
        ],
    )
}

/// A note as JSON.
pub open spec fn note_node(name: Seq<char>, head: Option<Seq<u8>>) -> Tree {
    let plain = seq![("name"@, Tree::Text(name)), ("type"@, Tree::Text("note"@))];
    match head {
        Some(raw) => match notes::note_title(raw) {
            Some(t) => Tree::Object(plain.push(("title"@, Tree::Text(t)))),
            None => Tree::Object(plain),
        },
        None => Tree::Object(plain),
    }
}

/// The mark for entries that are left out.
pub open spec fn cut_node() -> Tree {
    Tree::Object(seq![("name"@, Tree::Text("...truncated"@)), ("type"@, Tree::Text("truncated"@))])
}

/// Whether an entry is passed over without being counted.
pub open spec fn passed_over(e: OutlineEntryView) -> bool {
    (e.name.len() > 0 && e.name[0] == '.') || e.kind == Kind::Unknown
}

/// Whether an entry is a note.
pub open spec fn is_note(e: OutlineEntryView) -> bool {
    e.kind == Kind::File && e.extension == "md"@
}

/// The outline of a directory at `depth`, and the count after it.
pub open spec fn outline_of(fs: Snapshot, path: PathBuf, name: Seq<char>, depth: nat, max: nat, count: u64) -> (
    Tree,
    u64,
)
    decreases max - depth, 1int, 0int,
{
    if depth >= max || count >= MAX_COUNT {
        (dir_node(name, seq![]), count)
    } else {
        match (fs.dirs)(path) {
            None => (dir_node(name, seq![]), count),
            Some(entries) => {
                let (children, c) = children_of(
                    fs,
                    sorting::stably_sorted::<OutlineEntry>(entries),
                    depth,
                    max,
                    count,
                );
                (dir_node(name, children), c)
            },
        }
    }
}

/// The outlines of the entries of a directory at `depth`, and the count after
/// them.
pub open spec fn children_of(
    fs: Snapshot,
    entries: Seq<OutlineEntryView>,
    depth: nat,
    max: nat,
    count: u64,
) -> (Seq<Tree>, u64)
    decreases max - depth, 0int, entries.len(),
{
    if entries.len() == 0 {
        (seq![], count)
    } else if count >= MAX_COUNT {
        (seq![cut_node()], count)
    } else {
        let e = entries[0];
        let rest = entries.drop_first();
        if passed_over(e) {
            children_of(fs, rest, depth, max, count)
        } else if e.kind == Kind::Directory {
            let (node, c) = if depth < max {
                outline_of(fs, e.path, e.name, depth + 1, max, (count + 1) as u64)
            } else {
                (dir_node(e.name, seq![]), (count + 1) as u64)
            };
            let (others, d) = children_of(fs, rest, depth, max, c);
            (seq![node] + others, d)
        } else if is_note(e) {
            let (others, d) = children_of(fs, rest, depth, max, (count + 1) as u64);
            (seq![note_node(e.name, (fs.heads)(e.path))] + others, d)
        } else {
            children_of(fs, rest, depth, max, (count + 1) as u64)
        }
    }
}

// ── The outline under way ─────────────────────────────────────────────────────

/// A directory that is being outlined.
pub struct Frame {
    name: String,
    /// The entries that are left, the next one last.
    rest: Vec<OutlineEntry>,
    children: Vec<Json>,
}

/// What a directory under way is: its name, the entries left, the children made.
pub struct FrameView {
    pub name: Seq<char>,
    pub rest: Seq<OutlineEntryView>,
    pub children: Seq<Tree>,
}

impl View for Frame {
    type V = FrameView;

    closed spec fn view(&self) -> FrameView {
        FrameView {
            name: self.name@,
            rest: sorting::views(self.rest@).reverse(),
            children: json::trees(self.children@),
        }
    }
}

/// An outline under way: the directories from the root down to the current one.
pub struct Outline {
    max: u32,
    count: u64,
    frames: Vec<Frame>,
}

/// What an outline under way is.
pub struct OutlineView {
    pub max: nat,
    pub count: u64,
    pub frames: Seq<FrameView>,
}

impl View for Outline {
    type V = OutlineView;

    closed spec fn view(&self) -> OutlineView {
        OutlineView { max: self.max as nat, count: self.count, frames: sorting::views(self.frames@) }
    }
}

impl Outline {
    /// Whether a directory is being outlined, to which a note can belong.
    pub fn is_open(&self) -> (r: bool)
        ensures
            r == (self@.frames.len() > 0),
    {
        self.frames.len() > 0
    }
}

impl OutlineView {
    /// This outline with a node added to the current directory.
    pub open spec fn with_child(self, node: Tree, count: u64) -> OutlineView {
        let top = self.frames.last();
        OutlineView {
            count,
            frames: self.frames.drop_last().push(FrameView { children: top.children.push(node), ..top }),
            ..self
        }
    }

    /// Whether the paths that this outline keeps for later belong to a set.
    pub open spec fn paths_in(self, paths: Set<PathBuf>) -> bool {
        forall|i: int, j: int|
            0 <= i < self.frames.len() && 0 <= j < self.frames[i].rest.len() ==> paths.contains(
                (#[trigger] self.frames[i].rest[j]).path,
            )
    }

    /// The tree that comes of this outline on a snapshot.
    pub open spec fn value(self, fs: Snapshot) -> Tree
        decreases self.frames.len(),
    {
        if self.frames.len() == 0 {
            Tree::Null
        } else {
            let top = self.frames.last();
            let depth = (self.frames.len() - 1) as nat;
            let (more, c) = children_of(fs, top.rest, depth, self.max, self.count);
            let node = dir_node(top.name, top.children + more);
            if self.frames.len() == 1 {
                node
            } else {
                OutlineView { frames: self.frames.drop_last(), ..self }.with_child(node, c).value(fs)
            }
        }
    }
}

/// What an outline needs next.
pub enum OutlineStep {
    /// The entries of the directory `path`.
    ReadDir { name: String, path: PathBuf, outline: Outline },
    /// The first bytes of the note `path`.
    ReadHead { name: String, path: PathBuf, outline: Outline },
    Done(Json),
}

impl OutlineStep {
    /// The tree that comes of this step on a snapshot.
    pub open spec fn value(self, fs: Snapshot) -> Tree {
        match self {
            OutlineStep::ReadDir { name, path, outline } => read_value(
                outline@,
                name@,
                fs,
                (fs.dirs)(path),
            ),
            OutlineStep::ReadHead { name, path, outline } => outline@.with_child(
                note_node(name@, (fs.heads)(path)),
                outline@.count,
            ).value(fs),
            OutlineStep::Done(j) => j.tree(),
        }
    }

    /// Whether the path that the step asks for, and those that are kept for later, belong
    /// to a set.
    pub open spec fn paths_in(self, paths: Set<PathBuf>) -> bool {
        match self {
            OutlineStep::ReadDir { path, outline, .. } => paths.contains(path) && outline@.paths_in(paths),
            OutlineStep::ReadHead { path, outline, .. } => paths.contains(path) && outline@.paths_in(paths),
            OutlineStep::Done(_) => true,
        }
    }

    /// Whether the step can be answered as it asks: a note lies in a directory.
    pub open spec fn sound(self) -> bool {
        match self {
            OutlineStep::ReadDir { outline, .. } => true,
            OutlineStep::ReadHead { outline, .. } => outline@.frames.len() > 0,
            OutlineStep::Done(_) => true,
        }
    }
}

/// The tree that comes of an outline whose next directory has these entries.
pub open spec fn read_value(
    o: OutlineView,
    name: Seq<char>,
    fs: Snapshot,
    entries: Option<Seq<OutlineEntryView>>,
) -> Tree {
    match entries {
        Some(es) => OutlineView {
            frames: o.frames.push(
                FrameView { name, rest: sorting::stably_sorted::<OutlineEntry>(es), children: seq![] },
            ),
            ..o
        }.value(fs),
        None => if o.frames.len() == 0 {
            dir_node(name, seq![])
        } else {
            o.with_child(dir_node(name, seq![]), o.count).value(fs)
        },
    }
}

/// Whether the paths of some entries belong to a set.
pub open spec fn entries_in(entries: Option<Seq<OutlineEntryView>>, paths: Set<PathBuf>) -> bool {
    entries matches Some(es) ==> forall|k: int| 0 <= k < es.len() ==> paths.contains((#[trigger] es[k]).path)
}

/// Whether `r` goes on with an outline whose next directory has these entries: it comes to
/// the tree of these, and asks for no other paths than the outline kept and they have.
pub open spec fn follows_dir(
    o: OutlineView,
    name: Seq<char>,
    entries: Option<Seq<OutlineEntryView>>,
    r: OutlineStep,
) -> bool {
    &&& forall|fs: Snapshot| #[trigger] r.value(fs) == read_value(o, name, fs, entries)
    &&& forall|paths: Set<PathBuf>| o.paths_in(paths) && entries_in(entries, paths) ==> #[trigger] r.paths_in(paths)
    &&& r.sound()
}

/// Whether `r` goes on with an outline whose next note starts with these bytes.
pub open spec fn follows_head(o: OutlineView, name: Seq<char>, head: Option<Seq<u8>>, r: OutlineStep) -> bool {
    &&& forall|fs: Snapshot| #[trigger] r.value(fs) == o.with_child(note_node(name, head), o.count).value(fs)
    &&& forall|paths: Set<PathBuf>| o.paths_in(paths) ==> #[trigger] r.paths_in(paths)
    &&& r.sound()
}

/// What the host answers to a step of an outline.
pub enum OutlineAnswer {
    Entries(Option<Seq<OutlineEntryView>>),
    Head(Option<Seq<u8>>),
}

/// Whether `next` goes on after `step` was answered.
pub open spec fn goes_on(step: OutlineStep, answer: OutlineAnswer, next: OutlineStep) -> bool {
    match (step, answer) {
        (OutlineStep::ReadDir { name, outline, .. }, OutlineAnswer::Entries(entries)) => follows_dir(
            outline@,
            name@,
            entries,
            next,
        ),
        (OutlineStep::ReadHead { name, outline, .. }, OutlineAnswer::Head(head)) => follows_head(
            outline@,
            name@,
            head,
            next,
        ),
        _ => false,
    }
}

fn make_dir_node(name: &str, children: Vec<Json>) -> (r: Json)
    ensures
        r.tree() == dir_node(name@, json::trees(children@)),
{
    Json::object3("name", Json::text(name), "type", Json::text("directory"), "children", Json::array(children))
}

fn make_empty_node(name: &str) -> (r: Json)
    ensures
        r.tree() == dir_node(name@, seq![]),
{
    let children: Vec<Json> = Vec::new();
    assert(json::trees(children@) =~= Seq::<Tree>::empty());
    make_dir_node(name, children)
}

/// A note as JSON, from its first bytes.
pub fn make_note_node(name: &str, head: Option<Vec<u8>>) -> (r: Json)
    ensures
        r.tree() == note_node(
            name@,
            match head {
                Some(raw) => Some(raw@),
                None => None,
            },
        ),
{
    let title = match head {
        Some(raw) => notes::extract_title(&raw),
        None => None,
    };
    let ghost plain = seq![("name"@, Tree::Text(name@)), ("type"@, Tree::Text("note"@))];
    match title {
        Some(t) => {
            let r = Json::object3("name", Json::text(name), "type", Json::text("note"), "title", Json::text(&t));
            assert(r.tree()->Object_0 =~= plain.push(("title"@, Tree::Text(t@))));
            r
        },
        None => Json::object2("name", Json::text(name), "type", Json::text("note")),
    }
}

/// How much is left to do: entries and directories.
spec fn work(frames: Seq<FrameView>) -> nat
    decreases frames.len(),
{
    if frames.len() == 0 {
        0
    } else {
        work(frames.drop_last()) + frames.last().rest.len() + 1
    }
}

/// Adds a node to the current directory.
fn add_child(o: &mut Outline, node: Json)
    requires
        old(o)@.frames.len() > 0,
    ensures
        final(o)@ == old(o)@.with_child(node.tree(), old(o)@.count),
{
    let ghost before = o.frames@;
    let mut top = o.frames.pop().unwrap();
    let ghost kids = top.children@;
    assert(sorting::views(before).last() == top@);
    assert(sorting::views(o.frames@) =~= sorting::views(before).drop_last());
    let ghost popped = o.frames@;
    top.children.push(node);
    assert(json::trees(top.children@) =~= json::trees(kids).push(node.tree()));
    o.frames.push(top);
    assert(sorting::views(o.frames@) =~= sorting::views(popped).push(top@));
}

/// Takes the next entry of the current directory.
fn next_entry(o: &mut Outline) -> (r: Option<OutlineEntry>)
    requires
        old(o)@.frames.len() > 0,
    ensures
        final(o)@.max == old(o)@.max,
        final(o)@.count == old(o)@.count,
        final(o)@.frames.len() == old(o)@.frames.len(),
        final(o)@.frames.drop_last() == old(o)@.frames.drop_last(),
        final(o)@.frames.last().name == old(o)@.frames.last().name,
        final(o)@.frames.last().children == old(o)@.frames.last().children,
        match r {
            Some(e) => old(o)@.frames.last().rest.len() > 0 && e@ == old(o)@.frames.last().rest[0]
                && final(o)@.frames.last().rest == old(o)@.frames.last().rest.drop_first(),
            None => old(o)@.frames.last().rest.len() == 0 && *final(o) == *old(o),
        },
{
    let n: usize = o.frames.len();
    if o.frames[n - 1].rest.len() == 0 {
        return None;
    }
    let ghost before = o.frames@;
    let mut top = o.frames.pop().unwrap();
    let ghost popped = o.frames@;
    let ghost rest = top.rest@;
    assert(sorting::views(before).last() == top@);
    assert(sorting::views(popped) =~= sorting::views(before).drop_last());
    let e = top.rest.pop().unwrap();
    assert(sorting::views(top.rest@).reverse() =~= sorting::views(rest).reverse().drop_first());
    assert(sorting::views(rest).reverse()[0] == e@);
    o.frames.push(top);
    assert(sorting::views(o.frames@) =~= sorting::views(popped).push(top@));
    assert(sorting::views(o.frames@).drop_last() =~= sorting::views(popped));
    Some(e)
}

/// Drops the entries that are left in the current directory.
fn drop_rest(o: &mut Outline)
    requires
        old(o)@.frames.len() > 0,
    ensures
        final(o)@.max == old(o)@.max,
        final(o)@.count == old(o)@.count,
        final(o)@.frames == old(o)@.frames.drop_last().push(
            FrameView { rest: seq![], ..old(o)@.frames.last() },
        ),
{
    let ghost before = o.frames@;
    let mut top = o.frames.pop().unwrap();
    let ghost popped = o.frames@;
    assert(sorting::views(before).last() == top@);
    assert(sorting::views(popped) =~= sorting::views(before).drop_last());
    top.rest = Vec::new();
    assert(sorting::views(top.rest@).reverse() =~= Seq::<OutlineEntryView>::empty());
    o.frames.push(top);
    assert(sorting::views(o.frames@) =~= sorting::views(popped).push(top@));
}

/// Two outlines that differ in the current directory alone, and there have the same
/// children in the end, come to the same tree.
proof fn same_children(o: OutlineView, p: OutlineView, fs: Snapshot)
    requires
        o.frames.len() > 0,
        o.frames.len() == p.frames.len(),
        o.frames.drop_last() == p.frames.drop_last(),
        o.max == p.max,
        o.frames.last().name == p.frames.last().name,
        ({
            let depth = (o.frames.len() - 1) as nat;
            let (m, c) = children_of(fs, o.frames.last().rest, depth, o.max, o.count);
            let (n, d) = children_of(fs, p.frames.last().rest, depth, p.max, p.count);
            o.frames.last().children + m == p.frames.last().children + n && c == d
        }),
    ensures
        o.value(fs) == p.value(fs),
{
}

/// A node added to the current directory stands before the children to come.
proof fn child_comes_first(o: OutlineView, rest: Seq<OutlineEntryView>, node: Tree, c: u64, p: OutlineView, fs: Snapshot)
    requires
        o.frames.len() > 0,
        p.frames.len() == o.frames.len(),
        p.frames.drop_last() == o.frames.drop_last(),
        p.max == o.max,
        p.frames.last() == (FrameView { rest, ..o.frames.last() }),
        ({
            let depth = (o.frames.len() - 1) as nat;
            let (others, d) = children_of(fs, rest, depth, o.max, c);
            children_of(fs, o.frames.last().rest, depth, o.max, o.count) == (seq![node] + others, d)
        }),
    ensures
        p.with_child(node, c).value(fs) == o.value(fs),
{
    let q = p.with_child(node, c);
    let depth = (o.frames.len() - 1) as nat;
    let (others, d) = children_of(fs, rest, depth, o.max, c);
    assert(q.frames.drop_last() =~= p.frames.drop_last());
    assert(q.frames.last().children + others =~= o.frames.last().children + (seq![node] + others));
    same_children(q, o, fs);
}

/// An outline that differs in the current directory alone, and there has fewer entries
/// left, keeps no other paths.
proof fn fewer_paths(o: OutlineView, p: OutlineView)
    requires
        o.frames.len() > 0,
        o.frames.len() == p.frames.len(),
        o.frames.drop_last() == p.frames.drop_last(),
        ({
            let a = o.frames.last().rest;
            let b = p.frames.last().rest;
            b == a || b.len() == 0 || (a.len() > 0 && b == a.drop_first())
        }),
    ensures
        forall|paths: Set<PathBuf>| o.paths_in(paths) ==> #[trigger] p.paths_in(paths),
{
    let n = o.frames.len() - 1;
    assert forall|paths: Set<PathBuf>| o.paths_in(paths) implies #[trigger] p.paths_in(paths) by {
        assert forall|i: int, j: int|
            0 <= i < p.frames.len() && 0 <= j < p.frames[i].rest.len() implies paths.contains(
            (#[trigger] p.frames[i].rest[j]).path,
        ) by {
            if i < n {
                assert(p.frames.drop_last()[i] == p.frames[i]);
                assert(o.frames.drop_last()[i] == o.frames[i]);
                assert(paths.contains(o.frames[i].rest[j].path));
            } else if p.frames[n].rest == o.frames[n].rest {
                assert(paths.contains(o.frames[n].rest[j].path));
            } else {
                assert(paths.contains(o.frames[n].rest[j + 1].path));
            }
        }
    }
}

/// An outline without its current directory keeps no other paths.
proof fn lower_paths(o: OutlineView, p: OutlineView)
    requires
        o.frames.len() > 0,
        p.frames == o.frames.drop_last(),
    ensures
        forall|paths: Set<PathBuf>| o.paths_in(paths) ==> #[trigger] p.paths_in(paths),
{
    assert forall|paths: Set<PathBuf>| o.paths_in(paths) implies #[trigger] p.paths_in(paths) by {
        assert forall|i: int, j: int|
            0 <= i < p.frames.len() && 0 <= j < p.frames[i].rest.len() implies paths.contains(
            (#[trigger] p.frames[i].rest[j]).path,
        ) by {
            assert(paths.contains(o.frames[i].rest[j].path));
        }
    }
}

/// What an outline needs next, or its tree.
fn proceed(given: Outline) -> (r: OutlineStep)
    requires
        given@.frames.len() > 0,
    ensures
        forall|fs: Snapshot| #[trigger] r.value(fs) == given@.value(fs),
        forall|paths: Set<PathBuf>| given@.paths_in(paths) ==> #[trigger] r.paths_in(paths),
        r.sound(),
{
    let ghost start = given@;
    let mut o = given;
    loop
        invariant
            o@.frames.len() > 0,
            start == given@,
            forall|fs: Snapshot| #[trigger] o@.value(fs) == start.value(fs),
            forall|paths: Set<PathBuf>| start.paths_in(paths) ==> #[trigger] o@.paths_in(paths),
        decreases work(o@.frames),
    {
        let ghost was = o@;
        let ghost depth = (was.frames.len() - 1) as nat;
        let ghost top = was.frames.last();
        match next_entry(&mut o) {
            None => {
                let ghost frames = o.frames@;
                let done = o.frames.pop().unwrap();
                assert(sorting::views(frames).last() == done@);
                assert(sorting::views(o.frames@) =~= was.frames.drop_last());
                let node = make_dir_node(&done.name, done.children);
                assert(top.children + Seq::<Tree>::empty() =~= top.children);
                if o.frames.len() == 0 {
                    assert forall|fs: Snapshot| node.tree() == #[trigger] start.value(fs) by {
                        assert(was.value(fs) == start.value(fs));
                    }
                    return OutlineStep::Done(node);
                }
                let ghost lower = o@;
                add_child(&mut o, node);
                proof {
                    assert(o@.frames.drop_last() =~= lower.frames.drop_last());
                    lower_paths(was, lower);
                    fewer_paths(lower, o@);
                    assert(work(o@.frames) == work(lower.frames));
                    assert(work(was.frames) == work(lower.frames) + 1);
                    assert(lower.with_child(node.tree(), lower.count).frames.drop_last() =~= lower.frames.drop_last());
                    assert forall|fs: Snapshot| #[trigger] o@.value(fs) == start.value(fs) by {
                        assert(was.value(fs) == start.value(fs));
                        assert((OutlineView { frames: was.frames.drop_last(), ..was }) == lower);
                    }
                }
            },
            Some(e) => {
                let ghost taken = o@;
                assert(work(taken.frames) + 1 == work(was.frames));
                assert(taken.frames.last() == (FrameView { rest: top.rest.drop_first(), ..top }));
                proof {
                    fewer_paths(was, taken);
                }
                if o.count >= MAX_COUNT {
                    let node = Json::object2("name", Json::text("...truncated"), "type", Json::text("truncated"));
                    drop_rest(&mut o);
                    let ghost emptied = o@;
                    assert(emptied.frames.drop_last() =~= was.frames.drop_last());
                    add_child(&mut o, node);
                    assert(o@.frames.drop_last() =~= was.frames.drop_last());
                    assert(work(o@.frames) < work(was.frames));
                    proof {
                        fewer_paths(was, o@);
                    }
                    assert forall|fs: Snapshot| #[trigger] o@.value(fs) == start.value(fs) by {
                        assert(was.value(fs) == start.value(fs));
                        assert(seq![node.tree()] + Seq::<Tree>::empty() =~= seq![cut_node()]);
                        child_comes_first(was, seq![], node.tree(), was.count, emptied, fs);
                    }
                    continue ;
                }
                let hidden = text::starts_with(&e.name, ".");
                proof {
                    reveal_strlit(".");
                    if e@.name.len() > 0 {
                        assert(e@.name.subrange(0, 1) =~= seq![e@.name[0]]);
                        assert("."@ =~= seq!['.']);
                        assert(seq![e@.name[0]][0] == e@.name[0]);
                        assert("."@[0] == '.');
                    }
                }
                assert(hidden == (e@.name.len() > 0 && e@.name[0] == '.'));
                if hidden || e.kind == Kind::Unknown {
                    assert forall|fs: Snapshot| #[trigger] o@.value(fs) == start.value(fs) by {
                        assert(was.value(fs) == start.value(fs));
                        same_children(o@, was, fs);
                    }
                    continue ;
                }
                o.count = o.count + 1;
                let ghost raised = o@;
                assert(raised.frames.len() == o.frames@.len());
                assert(raised.count == (was.count + 1) as u64);
                proof {
                    fewer_paths(was, raised);
                    assert forall|paths: Set<PathBuf>| start.paths_in(paths) implies #[trigger] paths.contains(e.path) by {
                        assert(was.paths_in(paths));
                        assert(was.frames[depth as int].rest[0] == e@);
                    }
                }
                if e.kind == Kind::Directory {
                    if o.frames.len() as u64 >= o.max as u64 || o.count >= MAX_COUNT {
                        let node = make_empty_node(&e.name);
                        add_child(&mut o, node);
                        assert(o@.frames.drop_last() =~= was.frames.drop_last());
                        assert(work(o@.frames) < work(was.frames));
                        proof {
                            fewer_paths(was, o@);
                        }
                        assert forall|fs: Snapshot| #[trigger] o@.value(fs) == start.value(fs) by {
                            assert(was.value(fs) == start.value(fs));
                            assert(outline_of(fs, e.path, e.name@, depth + 1, was.max, raised.count) == (
                                node.tree(),
                                raised.count,
                            ));
                            child_comes_first(was, top.rest.drop_first(), node.tree(), raised.count, raised, fs);
                        }
                        continue ;
                    }
                    let OutlineEntry { path, name, .. } = e;
                    let r = OutlineStep::ReadDir { name, path, outline: o };
                    assert forall|fs: Snapshot| #[trigger] r.value(fs) == start.value(fs) by {
                        assert(was.value(fs) == start.value(fs));
                        let (node, c) = outline_of(fs, e.path, e.name@, depth + 1, was.max, raised.count);
                        child_comes_first(was, top.rest.drop_first(), node, c, raised, fs);
                        match (fs.dirs)(e.path) {
                            Some(es) => {
                                let f = FrameView {
                                    name: e.name@,
                                    rest: sorting::stably_sorted::<OutlineEntry>(es),
                                    children: seq![],
                                };
                                let q = OutlineView { frames: raised.frames.push(f), ..raised };
                                assert(q.frames.drop_last() =~= raised.frames);
                                let (more, c2) = children_of(fs, f.rest, depth + 1, was.max, raised.count);
                                assert(f.children + more =~= more);
                                assert((OutlineView { frames: q.frames.drop_last(), ..q }) == raised);
                                assert(q.value(fs) == raised.with_child(node, c).value(fs));
                            },
                            None => {},
                        }
                    }
                    return r;
                }
                if e.kind == Kind::File && text::same(&e.extension, "md") {
                    let OutlineEntry { path, name, .. } = e;
                    let r = OutlineStep::ReadHead { name, path, outline: o };
                    assert forall|fs: Snapshot| #[trigger] r.value(fs) == start.value(fs) by {
                        assert(was.value(fs) == start.value(fs));
                        let node = note_node(e.name@, (fs.heads)(e.path));
                        child_comes_first(was, top.rest.drop_first(), node, raised.count, raised, fs);
                    }
                    return r;
                }
                assert forall|fs: Snapshot| #[trigger] o@.value(fs) == start.value(fs) by {
                    assert(was.value(fs) == start.value(fs));
                    same_children(o@, was, fs);
                }
            },
        }
    }
}

/// Starts the outline of the directory `path`, down to a depth of `max`.
pub fn build_outline(name: String, path: PathBuf, max: u32) -> (r: OutlineStep)
    ensures
        forall|fs: Snapshot| #[trigger] r.value(fs) == outline_of(fs, path, name@, 0, max as nat, 0).0,
        forall|paths: Set<PathBuf>| paths.contains(path) ==> #[trigger] r.paths_in(paths),
        r.sound(),
{
    if max == 0 {
        return OutlineStep::Done(make_empty_node(&name));
    }
    let frames: Vec<Frame> = Vec::new();
    let outline = Outline { max, count: 0, frames };
    assert(outline@.frames =~= Seq::<FrameView>::empty());
    let r = OutlineStep::ReadDir { name, path, outline };
    assert forall|fs: Snapshot| #[trigger] r.value(fs) == outline_of(fs, path, name@, 0, max as nat, 0).0 by {
        match (fs.dirs)(path) {
            Some(es) => {
                let sorted = sorting::stably_sorted::<OutlineEntry>(es);
                let (more, c) = children_of(fs, sorted, 0, max as nat, 0);
                assert(Seq::<Tree>::empty() + more =~= more);
            },
            None => {},
        }
    }
    r
}

/// An outline to which a directory was added keeps the paths of its entries besides.
proof fn sorted_paths_in(es: Seq<OutlineEntryView>, o: OutlineView, before: OutlineView)
    requires
        o.frames.len() == before.frames.len() + 1,
        o.frames.drop_last() == before.frames,
        o.frames.last().rest == sorting::stably_sorted::<OutlineEntry>(es),
    ensures
        forall|paths: Set<PathBuf>| before.paths_in(paths) && entries_in(Some(es), paths) ==> #[trigger] o.paths_in(paths),
{
    broadcast use vstd::seq_lib::group_to_multiset_ensures;

    let sorted = sorting::stably_sorted::<OutlineEntry>(es);
    sorting::sorting_keeps_the_values::<OutlineEntry>(es);
    assert forall|paths: Set<PathBuf>| before.paths_in(paths) && entries_in(Some(es), paths) implies #[trigger] o.paths_in(
        paths,
    ) by {
        assert forall|i: int, j: int|
            0 <= i < o.frames.len() && 0 <= j < o.frames[i].rest.len() implies paths.contains(
            (#[trigger] o.frames[i].rest[j]).path,
        ) by {
            if i < before.frames.len() {
                assert(o.frames.drop_last()[i] == o.frames[i]);
                assert(paths.contains(before.frames[i].rest[j].path));
            } else {
                let e = sorted[j];
                assert(sorted.contains(e));
                assert(sorted.to_multiset().count(e) > 0);
                assert(es.contains(e));
                let k = choose|k: int| 0 <= k < es.len() && es[k] == e;
                assert(paths.contains(es[k].path));
            }
        }
    }
}

/// Goes on with an outline after the entries of a directory were read.
pub fn after_dir(name: String, outline: Outline, entries: Option<Vec<OutlineEntry>>) -> (r: OutlineStep)
    ensures
        follows_dir(
            outline@,
            name@,
            match entries {
                Some(v) => Some(sorting::views(v@)),
                None => None,
            },
            r,
        ),
{
    let mut o = outline;
    match entries {
        None => {
            let node = make_empty_node(&name);
            if o.frames.len() == 0 {
                return OutlineStep::Done(node);
            }
            add_child(&mut o, node);
            proof {
                assert(o@.frames.drop_last() =~= outline@.frames.drop_last());
                fewer_paths(outline@, o@);
            }
            proceed(o)
        },
        Some(v) => {
            let ghost es = sorting::views(v@);
            let mut sorted = sorting::sort(v);
            let ghost all = sorting::views(sorted@);
            let mut rest: Vec<OutlineEntry> = Vec::new();
            assert(sorting::views(rest@).reverse() =~= Seq::<OutlineEntryView>::empty());
            while sorted.len() > 0
                invariant
                    sorting::views(sorted@) + sorting::views(rest@).reverse() =~= all,
                decreases sorted@.len(),
            {
                let ghost before = rest@;
                let ghost left = sorted@;
                let e = sorted.pop().unwrap();
                assert(sorting::views(left) =~= sorting::views(sorted@).push(e@));
                rest.push(e);
                assert(sorting::views(rest@).reverse() =~= seq![e@] + sorting::views(before).reverse());
            }
            let children: Vec<Json> = Vec::new();
            assert(json::trees(children@) =~= Seq::<Tree>::empty());
            let f = Frame { name, rest, children };
            let ghost before = o.frames@;
            o.frames.push(f);
            assert(sorting::views(o.frames@) =~= sorting::views(before).push(f@));
            proof {
                assert(o@.frames.drop_last() =~= outline@.frames);
                sorted_paths_in(es, o@, outline@);
            }
            proceed(o)
        },
    }
}

/// Goes on with an outline after the first bytes of a note were read.
pub fn after_head(name: String, outline: Outline, head: Option<Vec<u8>>) -> (r: OutlineStep)
    requires
        outline@.frames.len() > 0,
    ensures
        follows_head(
            outline@,
            name@,
            match head {
                Some(raw) => Some(raw@),
                None => None,
            },
            r,
        ),
{
    let mut o = outline;
    let node = make_note_node(&name, head);
    add_child(&mut o, node);
    proof {
        assert(o@.frames.drop_last() =~= outline@.frames.drop_last());
        fewer_paths(outline@, o@);
    }
    proceed(o)
}

// ── Laws ──────────────────────────────────────────────────────────────────────

/// An outline never counts more than `MAX_COUNT` entries, whatever the file system
/// holds.
pub proof fn outline_counts_are_bounded(
    fs: Snapshot,
    path: PathBuf,
    name: Seq<char>,
    depth: nat,
    max: nat,
    count: u64,
)
    requires
        count <= MAX_COUNT,
    ensures
        count <= outline_of(fs, path, name, depth, max, count).1 <= MAX_COUNT,
    decreases max - depth, 1int, 0int,
{
    if depth < max && count < MAX_COUNT {
        if let Some(entries) = (fs.dirs)(path) {
            child_counts_are_bounded(fs, sorting::stably_sorted::<OutlineEntry>(entries), depth, max, count);
        }
    }
}

proof fn child_counts_are_bounded(fs: Snapshot, entries: Seq<OutlineEntryView>, depth: nat, max: nat, count: u64)
    requires
        count <= MAX_COUNT,
    ensures
        count <= children_of(fs, entries, depth, max, count).1 <= MAX_COUNT,
    decreases max - depth, 0int, entries.len(),
{
    if entries.len() > 0 && count < MAX_COUNT {
        let e = entries[0];
        let rest = entries.drop_first();
        if passed_over(e) {
            child_counts_are_bounded(fs, rest, depth, max, count);
        } else if e.kind == Kind::Directory {
            if depth < max {
                outline_counts_are_bounded(fs, e.path, e.name, depth + 1, max, (count + 1) as u64);
                let c = outline_of(fs, e.path, e.name, depth + 1, max, (count + 1) as u64).1;
                child_counts_are_bounded(fs, rest, depth, max, c);
            } else {
                child_counts_are_bounded(fs, rest, depth, max, (count + 1) as u64);
            }
        } else {
            child_counts_are_bounded(fs, rest, depth, max, (count + 1) as u64);
        }
    }
}

/// An outline of depth zero, and one of a directory that cannot be read, has no
/// children.
pub proof fn outline_of_nothing_is_empty(fs: Snapshot, path: PathBuf, name: Seq<char>, max: nat, count: u64)
    requires
        max == 0 || (fs.dirs)(path) is None,
    ensures
        outline_of(fs, path, name, 0, max, count) == (dir_node(name, seq![]), count),
{
}

/// Where the last dot of a name stands; -1 where it has none.
pub open spec fn last_dot(name: Seq<char>) -> int
    decreases name.len(),
{
    if name.len() == 0 {
        -1
    } else if name.last() == '.' {
        name.len() - 1
    } else {
        last_dot(name.drop_last())
    }
}

/// The extension of a name: what stands after its last dot, unless it starts with that
/// dot.
pub open spec fn extension_of(name: Seq<char>) -> Seq<char> {
    let i = last_dot(name);
    if i <= 0 {
        seq![]
    } else {
        name.skip(i + 1)
    }
}

/// Whether the key and the extension of an entry are those of its name.
pub open spec fn well_named(e: OutlineEntryView) -> bool {
    e.key == encode_utf8(e.name) && e.extension == extension_of(e.name)
}

/// Whether all entries of a file system are well named.
pub open spec fn names_fit(fs: Snapshot) -> bool {
    forall|path: PathBuf, i: int|
        (fs.dirs)(path) matches Some(es) && 0 <= i < es.len() ==> well_named(#[trigger] (fs.dirs)(path)->0[i])
}

/// Whether a node is of a type.
pub open spec fn is_of_type(node: Tree, kind: Seq<char>) -> bool {
    node.field("type"@) == Tree::Text(kind)
}

/// The name of a node.
pub open spec fn name_of(node: Tree) -> Seq<char> {
    match node.field("name"@) {
        Tree::Text(s) => s,
        _ => seq![],
    }
}

/// Whether nodes are listed as in an outline: directories, then notes, each of them in the
/// order of their names, and the mark for what is left out last of all. No name is hidden,
/// and those of notes end in `.md`.
pub open spec fn is_tidy_list(nodes: Seq<Tree>) -> bool {
    &&& forall|i: int|
        0 <= i < nodes.len() ==> {
            let node = #[trigger] nodes[i];
            ||| node == cut_node() && i == nodes.len() - 1
            ||| {
                &&& is_of_type(node, "directory"@) || is_of_type(node, "note"@)
                &&& !(name_of(node).len() > 0 && name_of(node)[0] == '.')
                &&& is_of_type(node, "note"@) ==> ".md"@.is_suffix_of(name_of(node))
            }
        }
    &&& forall|i: int, j: int|
        0 <= i < j < nodes.len() && nodes[j] != cut_node() ==> {
            let a = #[trigger] nodes[i];
            let b = #[trigger] nodes[j];
            &&& is_of_type(b, "directory"@) ==> is_of_type(a, "directory"@)
            &&& is_of_type(a, "directory"@) == is_of_type(b, "directory"@) ==> bytes_le(
                encode_utf8(name_of(a)),
                encode_utf8(name_of(b)),
            )
        }
}

/// Whether the lists of children in a node are tidy, down to a number of levels.
pub open spec fn is_tidy(node: Tree, levels: nat) -> bool
    decreases levels,
{
    levels > 0 ==> (node.field("children"@) matches Tree::Array(nodes) ==> {
        &&& is_tidy_list(nodes)
        &&& forall|i: int| 0 <= i < nodes.len() ==> is_tidy(#[trigger] nodes[i], (levels - 1) as nat)
    })
}

/// Whether a node shows an entry.
spec fn shows(node: Tree, e: OutlineEntryView) -> bool {
    &&& !passed_over(e)
    &&& node != cut_node()
    &&& name_of(node) == e.name
    &&& is_of_type(node, "directory"@) == (e.kind == Kind::Directory)
    &&& is_of_type(node, "note"@) == is_note(e)
    &&& e.kind == Kind::Directory || is_note(e)
}

proof fn dir_nodes_show(name: Seq<char>, children: Seq<Tree>, e: OutlineEntryView)
    requires
        !passed_over(e),
        e.kind == Kind::Directory,
        e.name == name,
    ensures
        shows(dir_node(name, children), e),
        dir_node(name, children).field("children"@) == Tree::Array(children),
{
    reveal_strlit("name");
    reveal_strlit("type");
    reveal_strlit("children");
    reveal_strlit("directory");
    reveal_strlit("note");
    reveal_strlit("truncated");
    let node = dir_node(name, children);
    let m = node->Object_0;
    assert("name"@[0] == 'n' && "type"@[0] == 't' && "children"@[0] == 'c');
    assert("directory"@[0] == 'd' && "note"@[0] == 'n' && "truncated"@[0] == 't');
    json::member_index_is_first(m, "name"@);
    json::member_index_is_first(m, "type"@);
    json::member_index_is_first(m, "children"@);
    assert(m[0].0 == "name"@ && m[1].0 == "type"@ && m[2].0 == "children"@);
    assert(cut_node()->Object_0.len() == 2);
}

proof fn note_nodes_show(name: Seq<char>, head: Option<Seq<u8>>, e: OutlineEntryView)
    requires
        !passed_over(e),
        is_note(e),
        e.name == name,
    ensures
        shows(note_node(name, head), e),
        note_node(name, head).field("children"@) == Tree::Null,
{
    reveal_strlit("name");
    reveal_strlit("type");
    reveal_strlit("title");
    reveal_strlit("children");
    reveal_strlit("directory");
    reveal_strlit("note");
    reveal_strlit("truncated");
    let node = note_node(name, head);
    let m = node->Object_0;
    assert("name"@[0] == 'n' && "type"@[0] == 't' && "children"@[0] == 'c');
    assert("directory"@[0] == 'd' && "note"@[0] == 'n' && "truncated"@[0] == 't');
    json::member_index_is_first(m, "name"@);
    json::member_index_is_first(m, "type"@);
    json::member_index_is_first(m, "children"@);
    assert(m[0].0 == "name"@ && m[1].0 == "type"@);
    assert(m.len() == 3 ==> m[2].0 == "title"@);
    assert(cut_node()->Object_0[1].1 == Tree::Text("truncated"@));
    assert(m[1].1 == Tree::Text("note"@));
}

proof fn cut_nodes_have_no_children()
    ensures
        cut_node().field("children"@) == Tree::Null,
{
    reveal_strlit("name");
    reveal_strlit("type");
    reveal_strlit("children");
    let m = cut_node()->Object_0;
    assert("name"@[0] == 'n' && "type"@[0] == 't' && "children"@[0] == 'c');
    json::member_index_is_first(m, "children"@);
}

proof fn last_dot_is_a_dot(name: Seq<char>)
    ensures
        -1 <= last_dot(name) < name.len(),
        last_dot(name) >= 0 ==> name[last_dot(name)] == '.',
    decreases name.len(),
{
    if name.len() > 0 && name.last() != '.' {
        last_dot_is_a_dot(name.drop_last());
    }
}

proof fn names_of_notes(e: OutlineEntryView)
    requires
        well_named(e),
        is_note(e),
    ensures
        ".md"@.is_suffix_of(e.name),
{
    reveal_strlit(".md");
    reveal_strlit("md");
    last_dot_is_a_dot(e.name);
    let i = last_dot(e.name);
    assert("md"@.len() == 2);
    assert(e.name.skip(i + 1) == "md"@);
    let n = e.name.len();
    assert(n == i + 3);
    assert(e.name[i + 1] == e.name.skip(i + 1)[0]);
    assert(e.name[i + 2] == e.name.skip(i + 1)[1]);
    assert(e.name.subrange(n - 3, n as int) =~= ".md"@);
}

/// The children of a directory show its entries, and are listed as these are.
proof fn children_are_tidy(
    fs: Snapshot,
    entries: Seq<OutlineEntryView>,
    depth: nat,
    max: nat,
    count: u64,
    levels: nat,
)
    requires
        names_fit(fs),
        sorting::is_sorted::<OutlineEntry>(entries),
        forall|i: int| 0 <= i < entries.len() ==> well_named(#[trigger] entries[i]),
    ensures
        ({
            let nodes = children_of(fs, entries, depth, max, count).0;
            &&& is_tidy_list(nodes)
            &&& forall|i: int|
                0 <= i < nodes.len() && nodes[i] != cut_node() ==> exists|k: int|
                    0 <= k < entries.len() && shows(#[trigger] nodes[i], #[trigger] entries[k])
            &&& forall|i: int| 0 <= i < nodes.len() ==> is_tidy(#[trigger] nodes[i], levels)
        }),
    decreases max - depth, 0int, entries.len(),
{
    let nodes = children_of(fs, entries, depth, max, count).0;
    if entries.len() == 0 {
    } else if count >= MAX_COUNT {
        cut_nodes_have_no_children();
        assert(nodes =~= seq![cut_node()]);
    } else {
        let e = entries[0];
        let rest = entries.drop_first();
        assert forall|i: int| 0 <= i < rest.len() implies well_named(#[trigger] rest[i]) by {
            assert(rest[i] == entries[i + 1]);
        }
        assert(sorting::is_sorted::<OutlineEntry>(rest)) by {
            assert forall|i: int, j: int| 0 <= i < j < rest.len() implies OutlineEntry::before(
                #[trigger] rest[i],
                #[trigger] rest[j],
            ) by {
                assert(OutlineEntry::before(entries[i + 1], entries[j + 1]));
            }
        }
        let raised = (count + 1) as u64;
        if passed_over(e) {
            children_are_tidy(fs, rest, depth, max, count, levels);
            nodes_of_rest(entries, nodes);
        } else if e.kind == Kind::Directory {
            let (node, c) = if depth < max {
                outline_of(fs, e.path, e.name, depth + 1, max, raised)
            } else {
                (dir_node(e.name, seq![]), raised)
            };
            if depth < max {
                outlines_are_tidy(fs, e.path, e.name, depth + 1, max, raised, levels);
            } else {
                dir_nodes_show(e.name, seq![], e);
                assert(is_tidy(node, levels));
            }
            let kids = node->Object_0[2].1->Array_0;
            dir_nodes_show(e.name, kids, e);
            assert(node->Object_0 =~= dir_node(e.name, kids)->Object_0);
            children_are_tidy(fs, rest, depth, max, c, levels);
            node_before_rest(entries, node, children_of(fs, rest, depth, max, c).0, levels);
        } else if is_note(e) {
            let node = note_node(e.name, (fs.heads)(e.path));
            note_nodes_show(e.name, (fs.heads)(e.path), e);
            children_are_tidy(fs, rest, depth, max, raised, levels);
            node_before_rest(entries, node, children_of(fs, rest, depth, max, raised).0, levels);
        } else {
            children_are_tidy(fs, rest, depth, max, raised, levels);
            nodes_of_rest(entries, nodes);
        }
    }
}

proof fn nodes_of_rest(entries: Seq<OutlineEntryView>, nodes: Seq<Tree>)
    requires
        entries.len() > 0,
        forall|i: int|
            0 <= i < nodes.len() && nodes[i] != cut_node() ==> exists|k: int|
                0 <= k < entries.drop_first().len() && shows(#[trigger] nodes[i], #[trigger] entries.drop_first()[k]),
    ensures
        forall|i: int|
            0 <= i < nodes.len() && nodes[i] != cut_node() ==> exists|k: int|
                0 <= k < entries.len() && shows(#[trigger] nodes[i], #[trigger] entries[k]),
{
    let rest = entries.drop_first();
    assert forall|i: int| 0 <= i < nodes.len() && nodes[i] != cut_node() implies exists|k: int|
        0 <= k < entries.len() && shows(#[trigger] nodes[i], #[trigger] entries[k]) by {
        let k = choose|k: int| 0 <= k < rest.len() && shows(nodes[i], #[trigger] rest[k]);
        assert(shows(nodes[i], entries[k + 1]));
    }
}

proof fn node_before_rest(entries: Seq<OutlineEntryView>, node: Tree, others: Seq<Tree>, levels: nat)
    requires
        entries.len() > 0,
        sorting::is_sorted::<OutlineEntry>(entries),
        forall|i: int| 0 <= i < entries.len() ==> well_named(#[trigger] entries[i]),
        shows(node, entries[0]),
        is_tidy(node, levels),
        is_tidy_list(others),
        forall|i: int|
            0 <= i < others.len() && others[i] != cut_node() ==> exists|k: int|
                0 <= k < entries.drop_first().len() && shows(#[trigger] others[i], #[trigger] entries.drop_first()[k]),
        forall|i: int| 0 <= i < others.len() ==> is_tidy(#[trigger] others[i], levels),
    ensures
        ({
            let nodes = seq![node] + others;
            &&& is_tidy_list(nodes)
            &&& forall|i: int|
                0 <= i < nodes.len() && nodes[i] != cut_node() ==> exists|k: int|
                    0 <= k < entries.len() && shows(#[trigger] nodes[i], #[trigger] entries[k])
            &&& forall|i: int| 0 <= i < nodes.len() ==> is_tidy(#[trigger] nodes[i], levels)
        }),
{
    let nodes = seq![node] + others;
    let e = entries[0];
    let rest = entries.drop_first();
    if is_note(e) {
        names_of_notes(e);
    }
    assert forall|i: int| 0 <= i < nodes.len() && nodes[i] != cut_node() implies exists|k: int|
        0 <= k < entries.len() && shows(#[trigger] nodes[i], #[trigger] entries[k]) by {
        if i == 0 {
            assert(shows(nodes[0], entries[0]));
        } else {
            assert(nodes[i] == others[i - 1]);
            let k = choose|k: int| 0 <= k < rest.len() && shows(others[i - 1], #[trigger] rest[k]);
            assert(shows(nodes[i], entries[k + 1]));
        }
    }
    assert forall|i: int| 0 <= i < nodes.len() implies is_tidy(#[trigger] nodes[i], levels) by {
        if i > 0 {
            assert(nodes[i] == others[i - 1]);
        }
    }
    assert forall|i: int| 0 <= i < nodes.len() implies ({
        let n = #[trigger] nodes[i];
        ||| n == cut_node() && i == nodes.len() - 1
        ||| {
            &&& is_of_type(n, "directory"@) || is_of_type(n, "note"@)
            &&& !(name_of(n).len() > 0 && name_of(n)[0] == '.')
            &&& is_of_type(n, "note"@) ==> ".md"@.is_suffix_of(name_of(n))
        }
    }) by {
        if i > 0 {
            assert(nodes[i] == others[i - 1]);
        }
    }
    assert forall|i: int, j: int| 0 <= i < j < nodes.len() && nodes[j] != cut_node() implies ({
        let a = #[trigger] nodes[i];
        let b = #[trigger] nodes[j];
        &&& is_of_type(b, "directory"@) ==> is_of_type(a, "directory"@)
        &&& is_of_type(a, "directory"@) == is_of_type(b, "directory"@) ==> bytes_le(
            encode_utf8(name_of(a)),
            encode_utf8(name_of(b)),
        )
    }) by {
        assert(nodes[j] == others[j - 1]);
        if i > 0 {
            assert(nodes[i] == others[i - 1]);
        } else {
            let k = choose|k: int| 0 <= k < rest.len() && shows(others[j - 1], #[trigger] rest[k]);
            assert(OutlineEntry::before(entries[0], entries[k + 1]));
            assert(well_named(entries[k + 1]));
            assert(well_named(entries[0]));
        }
    }
}

/// In an outline each list of children, at every level, has directories before notes, both
/// in the order of their names, and the mark for what is left out last; it shows no hidden
/// name, and no note whose name does not end in `.md`.
pub proof fn outlines_are_tidy(
    fs: Snapshot,
    path: PathBuf,
    name: Seq<char>,
    depth: nat,
    max: nat,
    count: u64,
    levels: nat,
)
    requires
        names_fit(fs),
    ensures
        is_tidy(outline_of(fs, path, name, depth, max, count).0, levels),
        exists|children: Seq<Tree>| outline_of(fs, path, name, depth, max, count).0 == #[trigger] dir_node(name, children),
    decreases max - depth, 1int, 0int,
{
    let node = outline_of(fs, path, name, depth, max, count).0;
    if depth >= max || count >= MAX_COUNT || (fs.dirs)(path) is None {
        assert(node == dir_node(name, seq![]));
        dir_has_children(name, seq![]);
    } else {
        let es = (fs.dirs)(path)->0;
        let sorted = sorting::stably_sorted::<OutlineEntry>(es);
        sorting::sorting_keeps_the_values::<OutlineEntry>(es);
        sorted_names_fit(fs, path);
        let children = children_of(fs, sorted, depth, max, count).0;
        assert(node == dir_node(name, children));
        dir_has_children(name, children);
        if levels > 0 {
            children_are_tidy(fs, sorted, depth, max, count, (levels - 1) as nat);
        }
    }
}

proof fn dir_has_children(name: Seq<char>, children: Seq<Tree>)
    ensures
        dir_node(name, children).field("children"@) == Tree::Array(children),
{
    reveal_strlit("name");
    reveal_strlit("type");
    reveal_strlit("children");
    let m = dir_node(name, children)->Object_0;
    assert("name"@[0] == 'n' && "type"@[0] == 't' && "children"@[0] == 'c');
    json::member_index_is_first(m, "children"@);
    assert(m[2].0 == "children"@);
}

proof fn sorted_names_fit(fs: Snapshot, path: PathBuf)
    requires
        names_fit(fs),
        (fs.dirs)(path) is Some,
    ensures
        forall|i: int|
            0 <= i < sorting::stably_sorted::<OutlineEntry>((fs.dirs)(path)->0).len() ==> well_named(
                #[trigger] sorting::stably_sorted::<OutlineEntry>((fs.dirs)(path)->0)[i],
            ),
{
    broadcast use vstd::seq_lib::group_to_multiset_ensures;

    let es = (fs.dirs)(path)->0;
    let sorted = sorting::stably_sorted::<OutlineEntry>(es);
    sorting::sorting_keeps_the_values::<OutlineEntry>(es);
    assert forall|i: int| 0 <= i < sorted.len() implies well_named(#[trigger] sorted[i]) by {
        let e = sorted[i];
        assert(sorted.contains(e));
        assert(sorted.to_multiset().count(e) > 0);
        assert(es.contains(e));
        let k = choose|k: int| 0 <= k < es.len() && es[k] == e;
        assert(well_named((fs.dirs)(path)->0[k]));
    }
}

/// A note is shown with its name, and with its title where its start sets one; a directory
/// with its name and its children; and nothing below the depth that is asked for.
pub proof fn nodes_tell_what_they_are(name: Seq<char>, head: Seq<u8>, title: Seq<char>, children: Seq<Tree>)
    ensures
        note_node(name, None) == Tree::Object(seq![("name"@, Tree::Text(name)), ("type"@, Tree::Text("note"@))]),
        notes::note_title(head) is None ==> note_node(name, Some(head)) == note_node(name, None),
        notes::note_title(head) == Some(title) ==> note_node(name, Some(head)) == Tree::Object(
            seq![("name"@, Tree::Text(name)), ("type"@, Tree::Text("note"@)), ("title"@, Tree::Text(title))],
        ),
        dir_node(name, children) == Tree::Object(
            seq![
                ("name"@, Tree::Text(name)),
                ("type"@, Tree::Text("directory"@)),
                ("children"@, Tree::Array(children)),
            ],
        ),
{
    let plain = seq![("name"@, Tree::Text(name)), ("type"@, Tree::Text("note"@))];
    assert(plain.push(("title"@, Tree::Text(title))) =~= seq![
        ("name"@, Tree::Text(name)),
        ("type"@, Tree::Text("note"@)),
        ("title"@, Tree::Text(title)),
    ]);
}

/// Whether an entry is shown in an outline: it is a directory, or a file with the extension
/// `md`, and its name does not start with a dot.
pub open spec fn is_shown(e: OutlineEntryView) -> bool {
    &&& e.kind == Kind::Directory || (e.kind == Kind::File && e.extension == seq!['m', 'd'])
    &&& e.name.len() == 0 || e.name[0] != '.'
}

/// What an entry that is shown looks like: a note as it is, a directory with the outline of
/// what it holds, counted from `count` on.
pub open spec fn looks_like(fs: Snapshot, node: Tree, e: OutlineEntryView, depth: nat, max: nat) -> bool {
    if e.kind == Kind::Directory {
        exists|count: u64| node == (#[trigger] outline_of(fs, e.path, e.name, depth + 1, max, count)).0
    } else {
        node == note_node(e.name, (fs.heads)(e.path))
    }
}

/// As long as fewer than 300 entries were counted, every entry that is to be shown is shown,
/// once and in order, and nothing else is: a note as it is, and a directory with its outline
/// one level down. `which` are the entries that the nodes show.
#[verifier::rlimit(50)]
#[verifier::spinoff_prover]
pub proof fn all_entries_are_shown(
    fs: Snapshot,
    entries: Seq<OutlineEntryView>,
    depth: nat,
    max: nat,
    count: u64,
) -> (which: Seq<int>)
    requires
        children_of(fs, entries, depth, max, count).1 < 300,
        depth < max,
    ensures
        ({
            let nodes = children_of(fs, entries, depth, max, count).0;
            &&& which.len() == nodes.len()
            &&& forall|k: int|
                0 <= k < which.len() ==> 0 <= #[trigger] which[k] < entries.len() && is_shown(entries[which[k]]) && looks_like(
                    fs,
                    nodes[k],
                    entries[which[k]],
                    depth,
                    max,
                )
            &&& forall|j: int, k: int| 0 <= j < k < which.len() ==> #[trigger] which[j] < #[trigger] which[k]
            &&& forall|i: int| 0 <= i < entries.len() && is_shown(#[trigger] entries[i]) ==> which.contains(i)
        }),
    decreases entries.len(),
{
    reveal_strlit("md");
    assert("md"@ =~= seq!['m', 'd']);
    let nodes = children_of(fs, entries, depth, max, count).0;
    if entries.len() == 0 {
        Seq::empty()
    } else {
        let e = entries[0];
        let rest = entries.drop_first();
        let raised = (count + 1) as u64;
        if count >= MAX_COUNT {
            assert(false);
            Seq::empty()
        } else if passed_over(e) {
            let more = all_entries_are_shown(fs, rest, depth, max, count);
            assert(!is_shown(e));
            shown_behind(fs, entries, nodes, more, depth, max)
        } else if e.kind == Kind::Directory {
            let (node, c) = outline_of(fs, e.path, e.name, depth + 1, max, raised);
            let more = all_entries_are_shown(fs, rest, depth, max, c);
            let others = children_of(fs, rest, depth, max, c).0;
            assert(looks_like(fs, node, e, depth, max));
            shown_first(fs, entries, node, others, more, depth, max)
        } else if is_note(e) {
            let more = all_entries_are_shown(fs, rest, depth, max, raised);
            let others = children_of(fs, rest, depth, max, raised).0;
            shown_first(fs, entries, note_node(e.name, (fs.heads)(e.path)), others, more, depth, max)
        } else {
            let more = all_entries_are_shown(fs, rest, depth, max, raised);
            assert(!is_shown(e));
            shown_behind(fs, entries, nodes, more, depth, max)
        }
    }
}

proof fn shown_behind(
    fs: Snapshot,
    entries: Seq<OutlineEntryView>,
    nodes: Seq<Tree>,
    more: Seq<int>,
    depth: nat,
    max: nat,
) -> (which: Seq<int>)
    requires
        entries.len() > 0,
        !is_shown(entries[0]),
        more.len() == nodes.len(),
        forall|k: int|
            0 <= k < more.len() ==> 0 <= #[trigger] more[k] < entries.drop_first().len() && is_shown(
                entries.drop_first()[more[k]],
            ) && looks_like(fs, nodes[k], entries.drop_first()[more[k]], depth, max),
        forall|j: int, k: int| 0 <= j < k < more.len() ==> #[trigger] more[j] < #[trigger] more[k],
        forall|i: int|
            0 <= i < entries.drop_first().len() && is_shown(#[trigger] entries.drop_first()[i]) ==> more.contains(i),
    ensures
        which.len() == nodes.len(),
        forall|k: int|
            0 <= k < which.len() ==> 0 <= #[trigger] which[k] < entries.len() && is_shown(entries[which[k]]) && looks_like(
                fs,
                nodes[k],
                entries[which[k]],
                depth,
                max,
            ),
        forall|j: int, k: int| 0 <= j < k < which.len() ==> #[trigger] which[j] < #[trigger] which[k],
        forall|i: int| 0 <= i < entries.len() && is_shown(#[trigger] entries[i]) ==> which.contains(i),
{
    let rest = entries.drop_first();
    let which = more.map_values(|i: int| i + 1);
    assert forall|k: int| 0 <= k < which.len() implies 0 <= #[trigger] which[k] < entries.len() && is_shown(entries[which[k]])
        && looks_like(fs, nodes[k], entries[which[k]], depth, max) by {
        assert(which[k] == more[k] + 1);
        assert(entries[which[k]] == rest[more[k]]);
    }
    assert forall|j: int, k: int| 0 <= j < k < which.len() implies #[trigger] which[j] < #[trigger] which[k] by {
        assert(more[j] < more[k]);
    }
    assert forall|i: int| 0 <= i < entries.len() && is_shown(#[trigger] entries[i]) implies which.contains(i) by {
        assert(rest[i - 1] == entries[i]);
        let k = choose|k: int| 0 <= k < more.len() && more[k] == i - 1;
        assert(which[k] == i);
    }
    which
}

proof fn shown_first(
    fs: Snapshot,
    entries: Seq<OutlineEntryView>,
    node: Tree,
    others: Seq<Tree>,
    more: Seq<int>,
    depth: nat,
    max: nat,
) -> (which: Seq<int>)
    requires
        entries.len() > 0,
        is_shown(entries[0]),
        looks_like(fs, node, entries[0], depth, max),
        more.len() == others.len(),
        forall|k: int|
            0 <= k < more.len() ==> 0 <= #[trigger] more[k] < entries.drop_first().len() && is_shown(
                entries.drop_first()[more[k]],
            ) && looks_like(fs, others[k], entries.drop_first()[more[k]], depth, max),
        forall|j: int, k: int| 0 <= j < k < more.len() ==> #[trigger] more[j] < #[trigger] more[k],
        forall|i: int|
            0 <= i < entries.drop_first().len() && is_shown(#[trigger] entries.drop_first()[i]) ==> more.contains(i),
    ensures
        which.len() == others.len() + 1,
        forall|k: int|
            0 <= k < which.len() ==> 0 <= #[trigger] which[k] < entries.len() && is_shown(entries[which[k]]) && looks_like(
                fs,
                (seq![node] + others)[k],
                entries[which[k]],
                depth,
                max,
            ),
        forall|j: int, k: int| 0 <= j < k < which.len() ==> #[trigger] which[j] < #[trigger] which[k],
        forall|i: int| 0 <= i < entries.len() && is_shown(#[trigger] entries[i]) ==> which.contains(i),
{
    let rest = entries.drop_first();
    let nodes = seq![node] + others;
    let which = seq![0int] + more.map_values(|i: int| i + 1);
    assert forall|k: int| 0 <= k < which.len() implies 0 <= #[trigger] which[k] < entries.len() && is_shown(entries[which[k]])
        && looks_like(fs, nodes[k], entries[which[k]], depth, max) by {
        if k > 0 {
            assert(which[k] == more[k - 1] + 1);
            assert(entries[which[k]] == rest[more[k - 1]]);
            assert(nodes[k] == others[k - 1]);
        }
    }
    assert forall|j: int, k: int| 0 <= j < k < which.len() implies #[trigger] which[j] < #[trigger] which[k] by {
        assert(which[k] == more[k - 1] + 1);
        if j > 0 {
            assert(which[j] == more[j - 1] + 1);
        }
    }
    assert forall|i: int| 0 <= i < entries.len() && is_shown(#[trigger] entries[i]) implies which.contains(i) by {
        if i == 0 {
            assert(which[0] == 0);
        } else {
            assert(rest[i - 1] == entries[i]);
            let k = choose|k: int| 0 <= k < more.len() && more[k] == i - 1;
            assert(which[k + 1] == i);
        }
    }
    which
}

/// The outline of a directory holds what its entries, in order, are shown as, down to the
/// depth that is asked for.
pub proof fn outlines_hold_the_entries(fs: Snapshot, path: PathBuf, name: Seq<char>, depth: nat, max: nat, count: u64)
    ensures
        depth >= max ==> outline_of(fs, path, name, depth, max, count).0 == dir_node(name, seq![]),
        depth < max && count < 300 ==> match (fs.dirs)(path) {
            Some(entries) => outline_of(fs, path, name, depth, max, count).0 == dir_node(
                name,
                children_of(fs, sorting::stably_sorted::<OutlineEntry>(entries), depth, max, count).0,
            ),
            None => outline_of(fs, path, name, depth, max, count).0 == dir_node(name, seq![]),
        },
{
}

} // verus!
