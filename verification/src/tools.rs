//! The file tools that both servers have: what each asks of the host, one step
//! after the other, and what it answers in the end.
//!
//! A step names something that only the host can do and the task that goes on with
//! its answer. The host performs the step and hands the answer to the function for
//! that step, which gives the next step.

use std::path::PathBuf;

use vstd::prelude::*;

use crate::dir_cache::DirCache;
use crate::error::AppError;
use crate::error::ErrorView;
use crate::frontmatter;
use crate::host;
use crate::host::{Place, Resolved, WalkEntry, WalkItem, Want};
use crate::json;
use crate::json::{Json, Tree};
use crate::listing;
use crate::listing::DirEntry;
use crate::notes;
use crate::outline;
use crate::outline::{OutlineAnswer, OutlineStep};
use crate::periodic;
use crate::periodic::Date;
use crate::search;
use crate::search::{ContextSearch, ContextView, PlainSearch, PlainView};
use crate::sorting;
use crate::tags;
use crate::tags::Tags;
use crate::text;

verus! {

// ── Tasks ─────────────────────────────────────────────────────────────────────

// The types that carry text, JSON values and the like are generic in them, so that
// one definition serves for what runs and for what it means.

/// Which listing of a directory is asked for.
#[derive(Clone, Copy, PartialEq, Eq, Structural)]
pub enum Shape {
    /// All entries; a listing in the cache will do.
    Whole,
    /// One page.
    Page { offset: u64, limit: u64 },
}

/// A range of lines, counted from 1, with both ends.
#[derive(Clone, Copy, PartialEq, Eq, Structural)]
pub struct Range {
    pub start: Option<u64>,
    pub end: Option<u64>,
}

/// What is done with a note once its text is there.
pub enum NoteTask<T, J> {
    Frontmatter,
    SetKey { key: T, value: J },
    Patch { target_type: T, target: T, operation: T, content: T },
    Structure,
}

/// What a search is for.
pub enum Query<T> {
    Plain { query: T },
    Context { query: T, context: u64, max_files: u64 },
}

/// What is done once a path is resolved.
pub enum PlaceTask<T, J> {
    List { key: Vec<u8>, shape: Shape },
    Read { range: Range },
    Write { content: T },
    Append { content: T },
    MoveFrom { dst: T },
    MoveTo { src: Resolved },
    Search(Query<T>),
    Delete,
    Note(NoteTask<T, J>),
    Tags,
    Periodic { path: T },
}

/// What is done once the size of a file is known.
pub enum SizeTask<T, J> {
    Read { path: PathBuf, range: Range },
    Note { at: Resolved, note: NoteTask<T, J> },
}

/// A test that the host makes on a path.
#[derive(Clone, Copy, PartialEq, Eq, Structural)]
pub enum Test {
    /// Whether something is there.
    Exists,
    /// Whether the path can be brought into its canonical form.
    Canonical,
    /// Whether its metadata can be read.
    Stat,
}

/// What is done once a path is tested.
pub enum TestTask<T> {
    Write { target: PathBuf, dir: Place, content: T },
    Append { at: Resolved, content: T },
    MoveTarget { src: Resolved, dst: Resolved },
    MoveDir { src: Resolved, target: PathBuf, dir: Place },
}

/// A walk under way.
pub enum WalkTask<P, C, G> {
    Plain(P),
    Context(C),
    Tags(G),
}

/// Which settings are read for a periodic note.
#[derive(Clone, Copy, PartialEq, Eq, Structural)]
pub enum Settings {
    /// Those of the plugin for periodic notes.
    Plugin,
    /// Those for daily notes.
    Daily,
}

/// The next thing that a tool needs, or its answer.
#[allow(inconsistent_fields)]
pub enum Step<T, J, W, R> {
    /// The key of a path under the root.
    Key { relative: T, requested: T, shape: Shape },
    /// The path that a text stands for, which is there and inside the root.
    Resolve { requested: T, task: PlaceTask<T, J> },
    /// The path that a text stands for, inside the root, whether or not it is
    /// there.
    ResolveWritable { requested: T, task: PlaceTask<T, J> },
    /// The entries of a directory, at most so many.
    ReadDir { path: PathBuf, at_most: Option<u64>, key: Vec<u8>, shape: Shape },
    Size { path: PathBuf, task: SizeTask<T, J> },
    ReadBytes { path: PathBuf, range: Range },
    ReadNote { path: PathBuf, at: Resolved, note: NoteTask<T, J> },
    ReadExisting { path: PathBuf, at: Resolved, content: T },
    Test { path: PathBuf, test: Test, task: TestTask<T> },
    /// To write a file in a directory and put it at its place in one go.
    Replace { dir: PathBuf, target: PathBuf, content: T, discard: Option<Vec<u8>>, message: T },
    Rename { from: PathBuf, to: PathBuf, src: Resolved, dir: Place },
    Copy { from: PathBuf, to: PathBuf, src: Resolved, dir: Place },
    Remove { path: PathBuf, src: Resolved, dir: Place },
    /// To start a walk under a path.
    Walk { path: PathBuf, task: W },
    WalkOn { task: W },
    ReadWalked { path: PathBuf, display: T, task: W },
    /// The text of a file at a path under the root.
    ReadSettings { relative: T, settings: Settings, period: T, date: Date },
    Outline(OutlineStep),
    Done(R),
}

pub type NoteTaskView = NoteTask<Seq<char>, Tree>;

pub type PlaceTaskView = PlaceTask<Seq<char>, Tree>;

pub type SizeTaskView = SizeTask<Seq<char>, Tree>;

pub type TestTaskView = TestTask<Seq<char>>;

pub type Walk = WalkTask<PlainSearch, ContextSearch, Tags>;

pub type WalkView = WalkTask<PlainView, ContextView, Seq<(Seq<char>, u64)>>;

pub type ToolStep = Step<String, Json, Walk, Result<String, AppError>>;

pub type StepView = Step<Seq<char>, Tree, WalkView, Result<Seq<char>, ErrorView>>;

impl View for NoteTask<String, Json> {
    type V = NoteTaskView;

    open spec fn view(&self) -> NoteTaskView {
        match self {
            NoteTask::Frontmatter => NoteTask::Frontmatter,
            NoteTask::SetKey { key, value } => NoteTask::SetKey { key: key@, value: value.tree() },
            NoteTask::Patch { target_type, target, operation, content } => NoteTask::Patch {
                target_type: target_type@,
                target: target@,
                operation: operation@,
                content: content@,
            },
            NoteTask::Structure => NoteTask::Structure,
        }
    }
}

impl View for Query<String> {
    type V = Query<Seq<char>>;

    open spec fn view(&self) -> Query<Seq<char>> {
        match self {
            Query::Plain { query } => Query::Plain { query: query@ },
            Query::Context { query, context, max_files } => Query::Context {
                query: query@,
                context: *context,
                max_files: *max_files,
            },
        }
    }
}

impl View for PlaceTask<String, Json> {
    type V = PlaceTaskView;

    open spec fn view(&self) -> PlaceTaskView {
        match self {
            PlaceTask::List { key, shape } => PlaceTask::List { key: *key, shape: *shape },
            PlaceTask::Read { range } => PlaceTask::Read { range: *range },
            PlaceTask::Write { content } => PlaceTask::Write { content: content@ },
            PlaceTask::Append { content } => PlaceTask::Append { content: content@ },
            PlaceTask::MoveFrom { dst } => PlaceTask::MoveFrom { dst: dst@ },
            PlaceTask::MoveTo { src } => PlaceTask::MoveTo { src: *src },
            PlaceTask::Search(q) => PlaceTask::Search(q@),
            PlaceTask::Delete => PlaceTask::Delete,
            PlaceTask::Note(n) => PlaceTask::Note(n@),
            PlaceTask::Tags => PlaceTask::Tags,
            PlaceTask::Periodic { path } => PlaceTask::Periodic { path: path@ },
        }
    }
}

impl View for SizeTask<String, Json> {
    type V = SizeTaskView;

    open spec fn view(&self) -> SizeTaskView {
        match self {
            SizeTask::Read { path, range } => SizeTask::Read { path: *path, range: *range },
            SizeTask::Note { at, note } => SizeTask::Note { at: *at, note: note@ },
        }
    }
}

impl View for TestTask<String> {
    type V = TestTaskView;

    open spec fn view(&self) -> TestTaskView {
        match self {
            TestTask::Write { target, dir, content } => TestTask::Write {
                target: *target,
                dir: *dir,
                content: content@,
            },
            TestTask::Append { at, content } => TestTask::Append { at: *at, content: content@ },
            TestTask::MoveTarget { src, dst } => TestTask::MoveTarget { src: *src, dst: *dst },
            TestTask::MoveDir { src, target, dir } => TestTask::MoveDir { src: *src, target: *target, dir: *dir },
        }
    }
}

impl View for WalkTask<PlainSearch, ContextSearch, Tags> {
    type V = WalkView;

    open spec fn view(&self) -> WalkView {
        match self {
            WalkTask::Plain(s) => WalkTask::Plain(s@),
            WalkTask::Context(s) => WalkTask::Context(s@),
            WalkTask::Tags(t) => WalkTask::Tags(t@),
        }
    }
}

/// What the answer of a tool is.
pub open spec fn result_view(r: Result<String, AppError>) -> Result<Seq<char>, ErrorView> {
    match r {
        Ok(s) => Ok(s@),
        Err(e) => Err(e@),
    }
}

impl View for Step<String, Json, WalkTask<PlainSearch, ContextSearch, Tags>, Result<String, AppError>> {
    type V = StepView;

    open spec fn view(&self) -> StepView {
        match self {
            Step::Key { relative, requested, shape } => Step::Key {
                relative: relative@,
                requested: requested@,
                shape: *shape,
            },
            Step::Resolve { requested, task } => Step::Resolve { requested: requested@, task: task@ },
            Step::ResolveWritable { requested, task } => Step::ResolveWritable {
                requested: requested@,
                task: task@,
            },
            Step::ReadDir { path, at_most, key, shape } => Step::ReadDir {
                path: *path,
                at_most: *at_most,
                key: *key,
                shape: *shape,
            },
            Step::Size { path, task } => Step::Size { path: *path, task: task@ },
            Step::ReadBytes { path, range } => Step::ReadBytes { path: *path, range: *range },
            Step::ReadNote { path, at, note } => Step::ReadNote { path: *path, at: *at, note: note@ },
            Step::ReadExisting { path, at, content } => Step::ReadExisting {
                path: *path,
                at: *at,
                content: content@,
            },
            Step::Test { path, test, task } => Step::Test { path: *path, test: *test, task: task@ },
            Step::Replace { dir, target, content, discard, message } => Step::Replace {
                dir: *dir,
                target: *target,
                content: content@,
                discard: *discard,
                message: message@,
            },
            Step::Rename { from, to, src, dir } => Step::Rename { from: *from, to: *to, src: *src, dir: *dir },
            Step::Copy { from, to, src, dir } => Step::Copy { from: *from, to: *to, src: *src, dir: *dir },
            Step::Remove { path, src, dir } => Step::Remove { path: *path, src: *src, dir: *dir },
            Step::Walk { path, task } => Step::Walk { path: *path, task: task@ },
            Step::WalkOn { task } => Step::WalkOn { task: task@ },
            Step::ReadWalked { path, display, task } => Step::ReadWalked {
                path: *path,
                display: display@,
                task: task@,
            },
            Step::ReadSettings { relative, settings, period, date } => Step::ReadSettings {
                relative: relative@,
                settings: *settings,
                period: period@,
                date: *date,
            },
            Step::Outline(o) => Step::Outline(*o),
            Step::Done(r) => Step::Done(result_view(*r)),
        }
    }
}

// ── Answers ───────────────────────────────────────────────────────────────────

/// The tool fails with a message.
pub open spec fn fails(message: Seq<char>) -> StepView {
    Step::Done(Err(ErrorView::Other(message)))
}

/// The tool fails with an error of the operating system.
pub open spec fn fails_io(message: Seq<char>) -> StepView {
    Step::Done(Err(ErrorView::Io(message)))
}

pub fn fail(message: &str) -> (r: ToolStep)
    ensures
        r@ == fails(message@),
{
    Step::Done(Err(AppError::other(message)))
}

fn fail_io(message: String) -> (r: ToolStep)
    ensures
        r@ == fails_io(message@),
{
    Step::Done(Err(AppError::Io(message)))
}

// ── Listing a directory ───────────────────────────────────────────────────────

/// How many entries of a directory are read for a listing.
pub open spec fn read_limit(shape: Shape) -> Option<u64> {
    match shape {
        Shape::Whole => None,
        Shape::Page { .. } => Some(listing::MAX_READ as u64),
    }
}

/// After the key is known: what the cache has for it.
pub open spec fn next_of_lookup(
    requested: Seq<char>,
    shape: Shape,
    key: Vec<u8>,
    cached: Option<Seq<char>>,
) -> StepView {
    match (shape, cached) {
        (Shape::Whole, Some(s)) => Step::Done(Ok(s)),
        _ => Step::Resolve { requested, task: PlaceTask::List { key, shape } },
    }
}

/// Goes on with what the cache has for a directory.
pub fn after_lookup(requested: String, shape: Shape, key: Vec<u8>, cached: Option<String>) -> (r: ToolStep)
    ensures
        r@ == next_of_lookup(
            requested@,
            shape,
            key,
            match cached {
                Some(s) => Some(s@),
                None => None,
            },
        ),
{
    match (shape, cached) {
        (Shape::Whole, Some(s)) => Step::Done(Ok(s)),
        _ => Step::Resolve { requested, task: PlaceTask::List { key, shape } },
    }
}

/// Goes on after the key of a directory is known. A listing that is taken from the
/// cache was put there for that key; one page is never taken from it.
pub fn after_key(requested: String, shape: Shape, key: Vec<u8>, cache: &DirCache) -> (r: ToolStep)
    ensures
        ({
            ||| r@ == next_of_lookup(requested@, shape, key, None)
            ||| cache@.contains_key(key@) && r@ == next_of_lookup(requested@, shape, key, Some(cache@[key@]))
        }),
        shape is Page ==> r@ == next_of_lookup(requested@, shape, key, None),
{
    let cached = match shape {
        Shape::Whole => cache.get(&key),
        Shape::Page { .. } => None,
    };
    after_lookup(requested, shape, key, cached)
}

/// The text of a listing.
pub open spec fn listing_text(entries: Seq<listing::EntryView>, shape: Shape) -> Seq<char> {
    match shape {
        Shape::Whole => listing::whole_listing(entries),
        Shape::Page { offset, limit } => listing::page_listing(entries, offset, limit),
    }
}

/// After the entries of a directory were read.
pub open spec fn next_of_entries(shape: Shape, entries: Result<Seq<listing::EntryView>, Seq<char>>) -> StepView {
    match entries {
        Ok(es) => Step::Done(Ok(listing_text(es, shape))),
        Err(e) => fails_io(e),
    }
}

/// The cache after a directory was listed.
pub open spec fn cache_after_listing(
    cache: Map<Seq<u8>, Seq<char>>,
    key: Seq<u8>,
    entries: Seq<listing::EntryView>,
    shape: Shape,
) -> Map<Seq<u8>, Seq<char>> {
    cache.insert(key, listing_text(entries, shape))
}

/// Goes on after the entries of a directory were read: the listing is the answer,
/// and goes to the cache.
pub fn after_entries(
    key: Vec<u8>,
    shape: Shape,
    entries: Result<Vec<DirEntry>, String>,
    cache: &mut DirCache,
) -> (r: ToolStep)
    ensures
        match entries {
            Ok(v) => r@ == next_of_entries(shape, Ok(sorting::views(v@))) && final(cache)@ == cache_after_listing(
                old(cache)@,
                key@,
                sorting::views(v@),
                shape,
            ),
            Err(e) => r@ == next_of_entries(shape, Err(e@)) && final(cache)@ == old(cache)@,
        },
{
    match entries {
        Ok(v) => {
            let s = match shape {
                Shape::Whole => listing::list_whole(v),
                Shape::Page { offset, limit } => listing::list_page(v, offset, limit),
            };
            cache.insert(key, s.clone());
            Step::Done(Ok(s))
        },
        Err(e) => fail_io(e),
    }
}

// ── Once a path is resolved ───────────────────────────────────────────────────

/// The refusal to delete.
pub open spec fn no_deletion() -> ErrorView {
    ErrorView::OperationNotPermitted("deletion not supported — delete files manually"@)
}

/// The start of a search under a path.
pub open spec fn search_start(path: PathBuf, q: Query<Seq<char>>) -> StepView {
    match q {
        Query::Plain { query } => match search::pattern_error(query) {
            Some(e) => Step::Done(Err(e)),
            None => Step::Walk {
                path,
                task: WalkTask::Plain(PlainView { pattern: query, found: seq![] }),
            },
        },
        Query::Context { query, context, max_files } => match search::pattern_error(query) {
            Some(e) => Step::Done(Err(e)),
            None => Step::Walk {
                path,
                task: WalkTask::Context(search::fresh_search(query, context, max_files)),
            },
        },
    }
}

/// After a path was resolved.
pub open spec fn next_of_place(task: PlaceTaskView, at: Resolved) -> StepView {
    let path = at.place.path;
    match task {
        PlaceTask::List { key, shape } => Step::ReadDir { path, at_most: read_limit(shape), key, shape },
        PlaceTask::Read { range } => Step::Size { path, task: SizeTask::Read { path, range } },
        PlaceTask::Write { content } => match at.parent {
            Some(dir) => Step::Test {
                path: dir.path,
                test: Test::Canonical,
                task: TestTask::Write { target: path, dir, content },
            },
            None => fails("path has no parent directory"@),
        },
        PlaceTask::Append { content } => Step::Test {
            path,
            test: Test::Exists,
            task: TestTask::Append { at, content },
        },
        PlaceTask::MoveFrom { dst } => Step::ResolveWritable {
            requested: dst,
            task: PlaceTask::MoveTo { src: at },
        },
        PlaceTask::MoveTo { src } => Step::Test {
            path,
            test: Test::Stat,
            task: TestTask::MoveTarget { src, dst: at },
        },
        PlaceTask::Search(q) => search_start(path, q),
        PlaceTask::Delete => Step::Done(Err(no_deletion())),
        PlaceTask::Note(note) => Step::Size { path, task: SizeTask::Note { at, note } },
        PlaceTask::Tags => Step::Walk { path, task: WalkTask::Tags(seq![]) },
        PlaceTask::Periodic { path } => Step::Done(Ok(path)),
    }
}

/// After a path was refused.
pub open spec fn next_of_refusal(task: PlaceTaskView, e: ErrorView) -> StepView {
    match task {
        PlaceTask::Periodic { .. } => fails("computed path escapes vault: "@ + e.message()),
        _ => Step::Done(Err(e)),
    }
}

/// After a path was resolved or refused.
pub open spec fn next_of_resolution(task: PlaceTaskView, at: Result<Resolved, ErrorView>) -> StepView {
    match at {
        Ok(at) => next_of_place(task, at),
        Err(e) => next_of_refusal(task, e),
    }
}

fn start_search(path: PathBuf, q: Query<String>) -> (r: ToolStep)
    ensures
        r@ == search_start(path, q@),
{
    match q {
        Query::Plain { query } => match search::compile_query(&query) {
            Ok(re) => Step::Walk { path, task: WalkTask::Plain(PlainSearch::new(re)) },
            Err(e) => Step::Done(Err(e)),
        },
        Query::Context { query, context, max_files } => match search::compile_query(&query) {
            Ok(re) => Step::Walk { path, task: WalkTask::Context(ContextSearch::new(re, context, max_files)) },
            Err(e) => Step::Done(Err(e)),
        },
    }
}

/// Goes on after a path was resolved or refused.
pub fn after_resolution(task: PlaceTask<String, Json>, at: Result<Resolved, AppError>) -> (r: ToolStep)
    ensures
        r@ == next_of_resolution(
            task@,
            match at {
                Ok(at) => Ok(at),
                Err(e) => Err(e@),
            },
        ),
{
    let at = match at {
        Ok(at) => at,
        Err(e) => {
            return match task {
                PlaceTask::Periodic { .. } => Step::Done(
                    Err(AppError::Other(text::cat("computed path escapes vault: ", &e.message()))),
                ),
                _ => Step::Done(Err(e)),
            };
        },
    };
    match task {
        PlaceTask::List { key, shape } => {
            let at_most = match shape {
                Shape::Whole => None,
                Shape::Page { .. } => Some(listing::MAX_READ as u64),
            };
            Step::ReadDir { path: at.place.path, at_most, key, shape }
        },
        PlaceTask::Read { range } => {
            let path = at.place.path.clone();
            Step::Size { path: at.place.path, task: SizeTask::Read { path, range } }
        },
        PlaceTask::Write { content } => match at.parent {
            Some(dir) => Step::Test {
                path: dir.path.clone(),
                test: Test::Canonical,
                task: TestTask::Write { target: at.place.path, dir, content },
            },
            None => fail("path has no parent directory"),
        },
        PlaceTask::Append { content } => Step::Test {
            path: at.place.path.clone(),
            test: Test::Exists,
            task: TestTask::Append { at, content },
        },
        PlaceTask::MoveFrom { dst } => Step::ResolveWritable {
            requested: dst,
            task: PlaceTask::MoveTo { src: at },
        },
        PlaceTask::MoveTo { src } => Step::Test {
            path: at.place.path.clone(),
            test: Test::Stat,
            task: TestTask::MoveTarget { src, dst: at },
        },
        PlaceTask::Search(q) => start_search(at.place.path, q),
        PlaceTask::Delete => Step::Done(
            Err(
                AppError::OperationNotPermitted(
                    "deletion not supported — delete files manually".to_owned(),
                ),
            ),
        ),
        PlaceTask::Note(note) => Step::Size {
            path: at.place.path.clone(),
            task: SizeTask::Note { at, note },
        },
        PlaceTask::Tags => Step::Walk { path: at.place.path, task: WalkTask::Tags(Tags::new()) },
        PlaceTask::Periodic { path } => Step::Done(Ok(path)),
    }
}

// ── Reading ───────────────────────────────────────────────────────────────────

/// After the size of a file is known.
pub open spec fn next_of_size(task: SizeTaskView, size: Result<u64, Seq<char>>) -> StepView {
    match size {
        Err(e) => fails_io(e),
        Ok(n) => if n > host::MAX_FILE_SIZE {
            Step::Done(Err(ErrorView::FileTooLarge(n)))
        } else {
            match task {
                SizeTask::Read { path, range } => Step::ReadBytes { path, range },
                SizeTask::Note { at, note } => Step::ReadNote { path: at.place.path, at, note },
            }
        },
    }
}

/// What an answer of the operating system is: a value, or the message of an error.
pub open spec fn io_view<A>(r: Result<A, String>) -> Result<A, Seq<char>> {
    match r {
        Ok(a) => Ok(a),
        Err(e) => Err(e@),
    }
}

/// Goes on after the size of a file is known.
pub fn after_size(task: SizeTask<String, Json>, size: Result<u64, String>) -> (r: ToolStep)
    ensures
        r@ == next_of_size(task@, io_view(size)),
{
    match size {
        Err(e) => fail_io(e),
        Ok(n) => if n > host::MAX_FILE_SIZE {
            Step::Done(Err(AppError::FileTooLarge(n)))
        } else {
            match task {
                SizeTask::Read { path, range } => Step::ReadBytes { path, range },
                SizeTask::Note { at, note } => Step::ReadNote { path: at.place.path.clone(), at, note },
            }
        },
    }
}

/// The answer to a request for the text of a file.
pub open spec fn file_answer(bytes: Seq<u8>, range: Range) -> Result<Seq<char>, ErrorView> {
    if vstd::utf8::valid_utf8(bytes) {
        notes::line_range(vstd::utf8::decode_utf8(bytes), range.start, range.end)
    } else {
        Err(ErrorView::Other("binary file: cannot read as text"@))
    }
}

/// After the bytes of a file were read.
pub open spec fn next_of_bytes(range: Range, bytes: Result<Seq<u8>, Seq<char>>) -> StepView {
    match bytes {
        Err(e) => fails_io(e),
        Ok(b) => Step::Done(file_answer(b, range)),
    }
}

/// Goes on after the bytes of a file were read.
pub fn after_bytes(range: Range, bytes: Result<Vec<u8>, String>) -> (r: ToolStep)
    ensures
        r@ == next_of_bytes(
            range,
            match bytes {
                Ok(b) => Ok(b@),
                Err(e) => Err(e@),
            },
        ),
{
    match bytes {
        Err(e) => fail_io(e),
        Ok(b) => match text::utf8_text(b) {
            Some(s) => Step::Done(notes::read_lines(s, range.start, range.end)),
            None => fail("binary file: cannot read as text"),
        },
    }
}

// ── Writing ───────────────────────────────────────────────────────────────────

/// To put `content` at a resolved path; `discard` tells whether the listing of its
/// directory is discarded.
pub open spec fn replacement(
    at: Resolved,
    content: Seq<char>,
    discard: bool,
    message: Seq<char>,
    no_parent: Seq<char>,
) -> StepView {
    match at.parent {
        Some(dir) => Step::Replace {
            dir: dir.path,
            target: at.place.path,
            content,
            discard: if discard {
                Some(dir.key)
            } else {
                None
            },
            message,
        },
        None => fails(no_parent),
    }
}

fn replace_at(at: Resolved, content: String, discard: bool, message: &str, no_parent: &str) -> (r: ToolStep)
    ensures
        r@ == replacement(at, content@, discard, message@, no_parent@),
{
    match at.parent {
        Some(dir) => Step::Replace {
            dir: dir.path,
            target: at.place.path,
            content,
            discard: if discard {
                Some(dir.key)
            } else {
                None
            },
            message: message.to_owned(),
        },
        None => fail(no_parent),
    }
}

/// The step that puts a file with more text in the place of one.
pub open spec fn appended(at: Resolved, existing: Seq<char>, content: Seq<char>) -> StepView {
    replacement(at, existing + content, false, "appended successfully"@, "no parent dir"@)
}

/// After a path was tested.
pub open spec fn next_of_test(task: TestTaskView, passed: bool) -> StepView {
    match task {
        TestTask::Write { target, dir, content } => if passed {
            Step::Replace {
                dir: dir.path,
                target,
                content,
                discard: Some(dir.key),
                message: "written successfully"@,
            }
        } else {
            fails("parent directory does not exist"@)
        },
        TestTask::Append { at, content } => if passed {
            Step::ReadExisting { path: at.place.path, at, content }
        } else {
            appended(at, seq![], content)
        },
        TestTask::MoveTarget { src, dst } => if passed {
            Step::Done(Err(ErrorView::OperationNotPermitted("destination already exists"@)))
        } else {
            match dst.parent {
                Some(dir) => Step::Test {
                    path: dir.path,
                    test: Test::Stat,
                    task: TestTask::MoveDir { src, target: dst.place.path, dir },
                },
                None => fails("dst has no parent"@),
            }
        },
        TestTask::MoveDir { src, target, dir } => if passed {
            Step::Rename { from: src.place.path, to: target, src, dir }
        } else {
            fails("dst parent directory does not exist"@)
        },
    }
}

/// Goes on after a path was tested.
pub fn after_test(task: TestTask<String>, passed: bool) -> (r: ToolStep)
    ensures
        r@ == next_of_test(task@, passed),
{
    match task {
        TestTask::Write { target, dir, content } => if passed {
            Step::Replace {
                dir: dir.path,
                target,
                content,
                discard: Some(dir.key),
                message: "written successfully".to_owned(),
            }
        } else {
            fail("parent directory does not exist")
        },
        TestTask::Append { at, content } => if passed {
            Step::ReadExisting { path: at.place.path.clone(), at, content }
        } else {
            let r = replace_at(at, content, false, "appended successfully", "no parent dir");
            assert(Seq::<char>::empty() + content@ =~= content@);
            r
        },
        TestTask::MoveTarget { src, dst } => if passed {
            Step::Done(Err(AppError::OperationNotPermitted("destination already exists".to_owned())))
        } else {
            match dst.parent {
                Some(dir) => Step::Test {
                    path: dir.path.clone(),
                    test: Test::Stat,
                    task: TestTask::MoveDir { src, target: dst.place.path, dir },
                },
                None => fail("dst has no parent"),
            }
        },
        TestTask::MoveDir { src, target, dir } => if passed {
            Step::Rename { from: src.place.path.clone(), to: target, src, dir }
        } else {
            fail("dst parent directory does not exist")
        },
    }
}

/// After the text of a file that is appended to was read.
pub open spec fn next_of_existing(
    at: Resolved,
    content: Seq<char>,
    existing: Result<Seq<char>, Seq<char>>,
) -> StepView {
    match existing {
        Ok(s) => appended(at, s, content),
        Err(e) => fails_io(e),
    }
}

/// Goes on after the text of a file that is appended to was read.
pub fn after_existing(at: Resolved, content: String, existing: Result<String, String>) -> (r: ToolStep)
    ensures
        r@ == next_of_existing(
            at,
            content@,
            match existing {
                Ok(s) => Ok(s@),
                Err(e) => Err(e@),
            },
        ),
{
    match existing {
        Ok(s) => replace_at(at, text::cat(&s, &content), false, "appended successfully", "no parent dir"),
        Err(e) => fail_io(e),
    }
}

/// Goes on after a file was put at its place.
pub fn after_replacement(
    discard: Option<Vec<u8>>,
    message: String,
    outcome: Result<(), String>,
    cache: &mut DirCache,
) -> (r: ToolStep)
    ensures
        r@ == next_of_replacement(message@, io_view(outcome)),
        final(cache)@ == cache_after_replacement(old(cache)@, discard, io_view(outcome)),
        match outcome {
            Ok(_) => r@ == StepView::Done(Ok(message@)) && final(cache)@ == (match discard {
                Some(key) => old(cache)@.remove(key@),
                None => old(cache)@,
            }),
            Err(e) => r@ == fails_io(e@) && final(cache)@ == old(cache)@,
        },
{
    match outcome {
        Ok(_) => {
            if let Some(key) = discard {
                cache.invalidate(&key);
            }
            Step::Done(Ok(message))
        },
        Err(e) => fail_io(e),
    }
}

// ── Moving ────────────────────────────────────────────────────────────────────

/// How renaming went.
pub enum Renamed<T> {
    Done,
    Failed { os_code: Option<i32>, crosses_devices: bool, message: T },
}

/// Whether renaming failed because the two places are on different devices.
pub open spec fn is_cross_device(os_code: Option<i32>, crosses_devices: bool) -> bool {
    os_code == Some(17i32) || os_code == Some(18i32) || crosses_devices
}

/// The cache after a move: the listings of both directories are discarded. A source
/// without a directory stands for itself.
pub open spec fn cache_after_move(cache: Map<Seq<u8>, Seq<char>>, src: Resolved, dir: Place) -> Map<
    Seq<u8>,
    Seq<char>,
> {
    let from = match src.parent {
        Some(p) => p.key@,
        None => src.place.key@,
    };
    cache.remove(from).remove(dir.key@)
}

fn finish_move(src: Resolved, dir: Place, cache: &mut DirCache) -> (r: ToolStep)
    ensures
        r@ == StepView::Done(Ok("moved successfully"@)),
        final(cache)@ == cache_after_move(old(cache)@, src, dir),
{
    match src.parent {
        Some(p) => cache.invalidate(&p.key),
        None => cache.invalidate(&src.place.key),
    }
    cache.invalidate(&dir.key);
    Step::Done(Ok("moved successfully".to_owned()))
}

/// How renaming went, mathematically.
pub open spec fn renamed_view(outcome: Renamed<String>) -> Renamed<Seq<char>> {
    match outcome {
        Renamed::Done => Renamed::Done,
        Renamed::Failed { os_code, crosses_devices, message } => Renamed::Failed {
            os_code,
            crosses_devices,
            message: message@,
        },
    }
}

/// After the attempt to rename.
pub open spec fn next_of_rename(
    from: PathBuf,
    to: PathBuf,
    src: Resolved,
    dir: Place,
    outcome: Renamed<Seq<char>>,
) -> StepView {
    match outcome {
        Renamed::Done => Step::Done(Ok("moved successfully"@)),
        Renamed::Failed { os_code, crosses_devices, message } => if is_cross_device(os_code, crosses_devices) {
            Step::Copy { from, to, src, dir }
        } else {
            fails_io(message)
        },
    }
}

/// After the attempt to copy the source of a move.
pub open spec fn next_of_copy(from: PathBuf, src: Resolved, dir: Place, outcome: Result<(), Seq<char>>) -> StepView {
    match outcome {
        Ok(_) => Step::Remove { path: from, src, dir },
        Err(e) => fails_io(e),
    }
}

/// After the attempt to remove the source of a move.
pub open spec fn next_of_removal(outcome: Result<(), Seq<char>>) -> StepView {
    match outcome {
        Ok(_) => Step::Done(Ok("moved successfully"@)),
        Err(e) => fails_io(e),
    }
}

/// After the attempt to put a file at its place.
pub open spec fn next_of_replacement(message: Seq<char>, outcome: Result<(), Seq<char>>) -> StepView {
    match outcome {
        Ok(_) => Step::Done(Ok(message)),
        Err(e) => fails_io(e),
    }
}

/// The cache after a file was put at its place, or was not.
pub open spec fn cache_after_replacement(
    cache: Map<Seq<u8>, Seq<char>>,
    discard: Option<Vec<u8>>,
    outcome: Result<(), Seq<char>>,
) -> Map<Seq<u8>, Seq<char>> {
    match (outcome, discard) {
        (Ok(_), Some(key)) => cache.remove(key@),
        _ => cache,
    }
}

/// Goes on after the attempt to rename: across devices, the file is copied.
pub fn after_rename(
    from: PathBuf,
    to: PathBuf,
    src: Resolved,
    dir: Place,
    outcome: Renamed<String>,
    cache: &mut DirCache,
) -> (r: ToolStep)
    ensures
        r@ == next_of_rename(from, to, src, dir, renamed_view(outcome)),
        match outcome {
            Renamed::Done => r@ == StepView::Done(Ok("moved successfully"@)) && final(cache)@ == cache_after_move(
                old(cache)@,
                src,
                dir,
            ),
            Renamed::Failed { os_code, crosses_devices, message } => final(cache)@ == old(cache)@ && r@ == (
            if is_cross_device(os_code, crosses_devices) {
                StepView::Copy { from, to, src, dir }
            } else {
                fails_io(message@)
            }),
        },
{
    match outcome {
        Renamed::Done => finish_move(src, dir, cache),
        Renamed::Failed { os_code, crosses_devices, message } => {
            let device_code = match os_code {
                Some(c) => c == 17 || c == 18,
                None => false,
            };
            if device_code || crosses_devices {
                Step::Copy { from, to, src, dir }
            } else {
                fail_io(message)
            }
        },
    }
}

/// Goes on after a file was copied: the source is removed.
pub fn after_copy(from: PathBuf, src: Resolved, dir: Place, outcome: Result<(), String>) -> (r: ToolStep)
    ensures
        r@ == next_of_copy(from, src, dir, io_view(outcome)),
        r@ == (match outcome {
            Ok(_) => StepView::Remove { path: from, src, dir },
            Err(e) => fails_io(e@),
        }),
{
    match outcome {
        Ok(_) => Step::Remove { path: from, src, dir },
        Err(e) => fail_io(e),
    }
}

/// Goes on after the source of a move was removed.
pub fn after_removal(src: Resolved, dir: Place, outcome: Result<(), String>, cache: &mut DirCache) -> (r: ToolStep)
    ensures
        r@ == next_of_removal(io_view(outcome)),
        match outcome {
            Ok(_) => r@ == StepView::Done(Ok("moved successfully"@)) && final(cache)@ == cache_after_move(
                old(cache)@,
                src,
                dir,
            ),
            Err(e) => r@ == fails_io(e@) && final(cache)@ == old(cache)@,
        },
{
    match outcome {
        Ok(_) => finish_move(src, dir, cache),
        Err(e) => fail_io(e),
    }
}

// ── Notes ─────────────────────────────────────────────────────────────────────

/// The headings as JSON.
pub open spec fn heading_trees(v: Seq<notes::HeadingView>) -> Seq<Tree> {
    v.map_values(|h: notes::HeadingView| notes::heading_tree(h))
}

/// The structure of a note as JSON.
pub open spec fn structure_tree(content: Seq<char>) -> Tree {
    Tree::Object(
        seq![
            ("frontmatter_keys"@, search::text_array(notes::frontmatter_keys(content))),
            ("headings"@, Tree::Array(heading_trees(notes::note_headings(content)))),
            ("total_lines"@, Tree::Number(json::number_of(text::lines_of(content).len() as u64))),
        ],
    )
}

/// The structure of a note as JSON.
pub fn note_structure(content: &str) -> (r: Json)
    ensures
        r.tree() == structure_tree(content@),
{
    let keys = notes::extract_frontmatter_keys(content);
    let hs = notes::extract_headings(content);
    let mut out: Vec<Json> = Vec::new();
    let mut i: usize = 0;
    while i < hs.len()
        invariant
            i <= hs@.len(),
            out@.len() == i,
            forall|k: int| 0 <= k < i ==> (#[trigger] out@[k]).tree() == notes::heading_tree(hs@[k]@),
        decreases hs@.len() - i,
    {
        out.push(hs[i].to_json());
        i += 1;
    }
    assert(json::trees(out@) =~= heading_trees(notes::heading_views(hs@)));
    let lines = text::lines(content);
    assert(text::texts(lines@).len() == lines@.len());
    Json::object3(
        "frontmatter_keys",
        Json::texts(&keys),
        "headings",
        Json::array(out),
        "total_lines",
        Json::number(lines.len() as u64),
    )
}

/// A note after a patch.
pub open spec fn patched(
    content: Seq<char>,
    target_type: Seq<char>,
    target: Seq<char>,
    operation: Seq<char>,
    patch: Seq<char>,
) -> Result<Seq<char>, ErrorView> {
    if target_type == "frontmatter"@ {
        frontmatter::note_with_patch(content, target, operation, patch)
    } else if target_type == "heading"@ {
        notes::patched_heading(content, target, operation, patch)
    } else {
        Err(ErrorView::Other("unknown target_type: "@ + target_type))
    }
}

/// Patches a note.
pub fn patch_note(content: &str, target_type: &str, target: &str, operation: &str, patch: &str) -> (r: Result<
    String,
    AppError,
>)
    ensures
        result_view(r) == patched(content@, target_type@, target@, operation@, patch@),
{
    if text::same(target_type, "frontmatter") {
        frontmatter::patch_key(content, target, operation, patch)
    } else if text::same(target_type, "heading") {
        notes::patch_heading(content, target, operation, patch)
    } else {
        Err(AppError::Other(text::cat("unknown target_type: ", target_type)))
    }
}

/// The step that puts a changed note in the place of the old one.
pub open spec fn note_replacement(
    at: Resolved,
    changed: Result<Seq<char>, ErrorView>,
    message: Seq<char>,
) -> StepView {
    match changed {
        Ok(s) => replacement(at, s, true, message, "path has no parent directory"@),
        Err(e) => Step::Done(Err(e)),
    }
}

/// After the text of a note was read.
pub open spec fn next_of_note(at: Resolved, note: NoteTaskView, content: Option<Seq<char>>) -> StepView {
    match content {
        None => fails("cannot read file as text"@),
        Some(c) => match note {
            NoteTask::Frontmatter => Step::Done(
                Ok(json::json_pretty(frontmatter::frontmatter_of(c).settled())),
            ),
            NoteTask::SetKey { key, value } => note_replacement(
                at,
                frontmatter::note_with_key(c, key, value),
                "frontmatter updated successfully"@,
            ),
            NoteTask::Patch { target_type, target, operation, content } => note_replacement(
                at,
                patched(c, target_type, target, operation, content),
                "patch applied successfully"@,
            ),
            NoteTask::Structure => Step::Done(Ok(json::json_text(structure_tree(c).settled()))),
        },
    }
}

/// Goes on after the text of a note was read, where that could be done.
pub fn after_note(at: Resolved, note: NoteTask<String, Json>, content: Option<String>) -> (r: ToolStep)
    ensures
        r@ == next_of_note(
            at,
            note@,
            match content {
                Some(s) => Some(s@),
                None => None,
            },
        ),
{
    let c = match content {
        None => {
            return fail("cannot read file as text");
        },
        Some(c) => c,
    };
    match note {
        NoteTask::Frontmatter => {
            let (fm, _) = frontmatter::parse_frontmatter(&c);
            Step::Done(Ok(json::to_pretty(&fm)))
        },
        NoteTask::SetKey { key, value } => match frontmatter::write_key(&c, &key, value) {
            Ok(s) => replace_at(at, s, true, "frontmatter updated successfully", "path has no parent directory"),
            Err(e) => Step::Done(Err(e)),
        },
        NoteTask::Patch { target_type, target, operation, content } => match patch_note(
            &c,
            &target_type,
            &target,
            &operation,
            &content,
        ) {
            Ok(s) => replace_at(at, s, true, "patch applied successfully", "path has no parent directory"),
            Err(e) => Step::Done(Err(e)),
        },
        NoteTask::Structure => Step::Done(Ok(json::to_text(&note_structure(&c)))),
    }
}

// ── Walks ─────────────────────────────────────────────────────────────────────

/// The answer of a walk that has ended.
pub open spec fn walk_answer(task: WalkView) -> Seq<char> {
    match task {
        WalkTask::Plain(s) => s.result(),
        WalkTask::Context(s) => s.result(),
        WalkTask::Tags(t) => json::json_pretty(tags::tags_tree(t).settled()),
    }
}

/// What a walk wants with an entry.
pub open spec fn walk_want(task: WalkView, e: WalkEntry) -> Want {
    match task {
        WalkTask::Plain(s) => s.want(e),
        WalkTask::Context(s) => s.want(e),
        WalkTask::Tags(t) => tags::wanted(e),
    }
}

/// A walk after it has considered an entry.
pub open spec fn walk_after_entry(task: WalkView, e: WalkEntry) -> WalkView {
    match task {
        WalkTask::Context(s) => WalkTask::Context(s.after_entry(e)),
        _ => task,
    }
}

/// A walk after it has read a file.
pub open spec fn walk_after_text(task: WalkView, display: Seq<char>, content: Seq<char>) -> WalkView {
    match task {
        WalkTask::Plain(s) => WalkTask::Plain(s.after_text(display, content)),
        WalkTask::Context(s) => WalkTask::Context(s.after_text(display, content)),
        WalkTask::Tags(t) => WalkTask::Tags(
            tags::note_counted(t, frontmatter::frontmatter_of(content), frontmatter::body_of(content)),
        ),
    }
}

/// After a walk has come to its next entry, or to its end.
pub open spec fn next_of_walk(task: WalkView, item: WalkItem) -> StepView {
    match item {
        WalkItem::End => Step::Done(Ok(walk_answer(task))),
        WalkItem::Failed => Step::WalkOn { task },
        WalkItem::Entry(e) => match walk_want(task, e) {
            Want::Stop => Step::Done(Ok(walk_answer(task))),
            Want::Skip => Step::WalkOn { task: walk_after_entry(task, e) },
            Want::Read => Step::ReadWalked {
                path: e.path,
                display: e.display@,
                task: walk_after_entry(task, e),
            },
        },
    }
}

/// After a walk has read a file, where that could be done.
pub open spec fn next_of_walked(task: WalkView, display: Seq<char>, content: Option<Seq<char>>) -> StepView {
    match content {
        None => Step::WalkOn { task },
        Some(c) => {
            let after = walk_after_text(task, display, c);
            match after {
                WalkTask::Context(s) => if s.full() {
                    Step::Done(Ok(walk_answer(after)))
                } else {
                    Step::WalkOn { task: after }
                },
                _ => Step::WalkOn { task: after },
            }
        },
    }
}

fn finish_walk(task: Walk) -> (r: ToolStep)
    ensures
        r@ == StepView::Done(Ok(walk_answer(task@))),
{
    match task {
        WalkTask::Plain(s) => Step::Done(Ok(s.result())),
        WalkTask::Context(s) => Step::Done(Ok(s.result())),
        WalkTask::Tags(t) => Step::Done(Ok(json::to_pretty(&t.to_json()))),
    }
}

/// Goes on after a walk has come to its next entry, or to its end.
pub fn after_walk(task: Walk, item: WalkItem) -> (r: ToolStep)
    ensures
        r@ == next_of_walk(task@, item),
{
    match item {
        WalkItem::End => finish_walk(task),
        WalkItem::Failed => Step::WalkOn { task },
        WalkItem::Entry(e) => {
            let (want, task) = match task {
                WalkTask::Plain(s) => (s.consider(&e), WalkTask::Plain(s)),
                WalkTask::Context(s) => {
                    let mut s = s;
                    let want = s.consider(&e);
                    (want, WalkTask::Context(s))
                },
                WalkTask::Tags(t) => (t.consider(&e), WalkTask::Tags(t)),
            };
            match want {
                Want::Stop => finish_walk(task),
                Want::Skip => Step::WalkOn { task },
                Want::Read => Step::ReadWalked { path: e.path, display: e.display, task },
            }
        },
    }
}

/// Goes on after a walk has read a file, where that could be done.
pub fn after_walked(task: Walk, display: String, content: Option<String>) -> (r: ToolStep)
    ensures
        r@ == next_of_walked(
            task@,
            display@,
            match content {
                Some(s) => Some(s@),
                None => None,
            },
        ),
{
    let c = match content {
        None => {
            return Step::WalkOn { task };
        },
        Some(c) => c,
    };
    match task {
        WalkTask::Plain(s) => {
            let mut s = s;
            s.read(&display, &c);
            Step::WalkOn { task: WalkTask::Plain(s) }
        },
        WalkTask::Context(s) => {
            let mut s = s;
            if s.read(&display, &c) {
                finish_walk(WalkTask::Context(s))
            } else {
                Step::WalkOn { task: WalkTask::Context(s) }
            }
        },
        WalkTask::Tags(t) => {
            let mut t = t;
            t.read(&c);
            Step::WalkOn { task: WalkTask::Tags(t) }
        },
    }
}

// ── Periodic notes ────────────────────────────────────────────────────────────

/// Where the plugin for periodic notes keeps its settings.
pub open spec fn plugin_settings() -> Seq<char> {
    ".obsidian/plugins/periodic-notes/data.json"@
}

/// Where the settings for daily notes are kept.
pub open spec fn daily_settings() -> Seq<char> {
    ".obsidian/daily-notes.json"@
}

/// The path of a note of a day, from the folder and the format of its period.
pub open spec fn periodic_path(date: Date, folder: Seq<char>, format: Seq<char>) -> StepView {
    match periodic::moment_text(date, format) {
        Some(name) => {
            let path = periodic::note_path(folder, name);
            Step::ResolveWritable { requested: path, task: PlaceTask::Periodic { path } }
        },
        None => fails("invalid date format: "@ + format),
    }
}

/// The step after the settings for daily notes are needed: they are read where the
/// period is a day.
pub open spec fn daily_fallback(period: Seq<char>, date: Date) -> StepView {
    if period == "daily"@ {
        Step::ReadSettings { relative: daily_settings(), settings: Settings::Daily, period, date }
    } else {
        periodic_path(date, ""@, periodic::standard_format(period))
    }
}

/// The folder and the format of a period, once its settings are read; `None` where
/// the text is not JSON.
pub open spec fn settings_of(settings: Settings, period: Seq<char>, content: Seq<char>) -> Option<
    (Seq<char>, Seq<char>),
> {
    match json::json_parsed(vstd::utf8::encode_utf8(content)) {
        None => None,
        Some(t) => Some(
            periodic::folder_and_format(
                match settings {
                    Settings::Plugin => t.field(period),
                    Settings::Daily => t,
                },
                periodic::standard_format(period),
            ),
        ),
    }
}

/// After the settings of a period were read.
pub open spec fn next_of_settings(
    settings: Settings,
    period: Seq<char>,
    date: Date,
    content: Option<Seq<char>>,
) -> StepView {
    let found = match content {
        Some(c) => settings_of(settings, period, c),
        None => None,
    };
    match (found, settings) {
        (Some((folder, format)), _) => periodic_path(date, folder, format),
        (None, Settings::Plugin) => daily_fallback(period, date),
        (None, Settings::Daily) => periodic_path(date, ""@, periodic::standard_format(period)),
    }
}

/// The step after the path of a periodic note is known, from its folder and format.
pub fn find_periodic(date: Date, folder: &str, format: &str) -> (r: ToolStep)
    requires
        date.month >= 1,
    ensures
        r@ == periodic_path(date, folder@, format@),
{
    match periodic::try_format_date_momentjs(date, format) {
        Some(name) => {
            let path = periodic::join_note_path(folder, &name);
            Step::ResolveWritable { requested: path.clone(), task: PlaceTask::Periodic { path } }
        },
        None => Step::Done(Err(AppError::Other(text::cat("invalid date format: ", format)))),
    }
}

/// The folder and the format of a period, from its settings.
pub fn read_period(settings: Settings, period: &str, config: &Json) -> (r: (String, String))
    ensures
        (r.0@, r.1@) == periodic::folder_and_format(
            match settings {
                Settings::Plugin => config.tree().field(period@),
                Settings::Daily => config.tree(),
            },
            periodic::standard_format(period@),
        ),
{
    match settings {
        Settings::Plugin => periodic::read_settings(&config.field(period), period),
        Settings::Daily => periodic::read_settings(config, period),
    }
}

/// Goes on after the settings of a period were read, where that could be done.
pub fn after_settings(settings: Settings, period: String, date: Date, content: Option<String>) -> (r: ToolStep)
    requires
        date.month >= 1,
    ensures
        r@ == next_of_settings(
            settings,
            period@,
            date,
            match content {
                Some(s) => Some(s@),
                None => None,
            },
        ),
{
    if let Some(c) = content {
        if let Some(config) = json::parse(c.as_str().as_bytes()) {
            let (folder, format) = read_period(settings, &period, &config);
            return find_periodic(date, &folder, &format);
        }
    }
    match settings {
        Settings::Plugin => if text::same(&period, "daily") {
            Step::ReadSettings {
                relative: ".obsidian/daily-notes.json".to_owned(),
                settings: Settings::Daily,
                period,
                date,
            }
        } else {
            find_periodic(date, "", &periodic::default_format(&period))
        },
        Settings::Daily => find_periodic(date, "", &periodic::default_format(&period)),
    }
}

// ── Outlines ──────────────────────────────────────────────────────────────────

/// The next step of an outline, or its text.
pub open spec fn outline_view(o: OutlineStep) -> StepView {
    match o {
        OutlineStep::Done(j) => StepView::Done(Ok(json::json_pretty(j.tree().settled()))),
        _ => StepView::Outline(o),
    }
}

/// Goes on with an outline: its next step, or its text.
pub fn after_outline(o: OutlineStep) -> (r: ToolStep)
    ensures
        r@ == outline_view(o),
{
    match o {
        OutlineStep::Done(j) => Step::Done(Ok(json::to_pretty(&j))),
        _ => Step::Outline(o),
    }
}

// ── Laws ──────────────────────────────────────────────────────────────────────

/// Whether a resolved path and its directory belong to a set of paths.
pub open spec fn resolved_in(at: Resolved, paths: Set<PathBuf>) -> bool {
    paths.contains(at.place.path) && (at.parent matches Some(dir) ==> paths.contains(dir.path))
}

/// Whether every path that a task on a resolved path carries belongs to a set.
pub open spec fn place_task_in(task: PlaceTaskView, paths: Set<PathBuf>) -> bool {
    task matches PlaceTask::MoveTo { src } ==> resolved_in(src, paths)
}

/// Whether every path that a step touches or carries belongs to a set; the settings of a
/// vault are those at one of two fixed places under its root.
pub open spec fn step_in(step: StepView, paths: Set<PathBuf>) -> bool {
    match step {
        Step::Key { .. } => true,
        Step::Resolve { task, .. } => place_task_in(task, paths),
        Step::ResolveWritable { task, .. } => place_task_in(task, paths),
        Step::ReadDir { path, .. } => paths.contains(path),
        Step::Size { path, task } => paths.contains(path) && (match task {
            SizeTask::Read { path, .. } => paths.contains(path),
            SizeTask::Note { at, .. } => resolved_in(at, paths),
        }),
        Step::ReadBytes { path, .. } => paths.contains(path),
        Step::ReadNote { path, at, .. } => paths.contains(path) && resolved_in(at, paths),
        Step::ReadExisting { path, at, .. } => paths.contains(path) && resolved_in(at, paths),
        Step::Test { path, task, .. } => paths.contains(path) && test_task_in(task, paths),
        Step::Replace { dir, target, .. } => paths.contains(dir) && paths.contains(target),
        Step::Rename { from, to, src, dir } => {
            &&& paths.contains(from)
            &&& paths.contains(to)
            &&& resolved_in(src, paths)
            &&& paths.contains(dir.path)
        },
        Step::Copy { from, to, src, dir } => {
            &&& paths.contains(from)
            &&& paths.contains(to)
            &&& resolved_in(src, paths)
            &&& paths.contains(dir.path)
        },
        Step::Remove { path, src, dir } => {
            &&& paths.contains(path)
            &&& resolved_in(src, paths)
            &&& paths.contains(dir.path)
        },
        Step::Walk { path, .. } => paths.contains(path),
        Step::WalkOn { .. } => true,
        Step::ReadWalked { path, .. } => paths.contains(path),
        Step::ReadSettings { relative, .. } => relative == plugin_settings() || relative == daily_settings(),
        Step::Outline(o) => o.paths_in(paths),
        Step::Done(_) => true,
    }
}

/// Whether every path that a task on a tested path carries belongs to a set.
pub open spec fn test_task_in(task: TestTaskView, paths: Set<PathBuf>) -> bool {
    match task {
        TestTask::Write { target, dir, .. } => paths.contains(target) && paths.contains(dir.path),
        TestTask::Append { at, .. } => resolved_in(at, paths),
        TestTask::MoveTarget { src, dst } => resolved_in(src, paths) && resolved_in(dst, paths),
        TestTask::MoveDir { src, target, dir } => {
            &&& resolved_in(src, paths)
            &&& paths.contains(target)
            &&& paths.contains(dir.path)
        },
    }
}

/// Whether the paths that the host answers with belong to a set.
pub open spec fn answer_in(at: Result<Resolved, ErrorView>, paths: Set<PathBuf>) -> bool {
    at matches Ok(at) ==> resolved_in(at, paths)
}

/// Whether the path of an entry that a walk comes across belongs to a set.
pub open spec fn item_in(item: WalkItem, paths: Set<PathBuf>) -> bool {
    item matches WalkItem::Entry(e) ==> paths.contains(e.path)
}

/// Whether the paths that the host answers with to a step of an outline belong to a set.
pub open spec fn outline_answer_in(answer: OutlineAnswer, paths: Set<PathBuf>) -> bool {
    answer matches OutlineAnswer::Entries(entries) ==> outline::entries_in(entries, paths)
}

/// Whether `next` comes after `step`, on some answer of the host all of whose paths
/// belong to a set.
pub open spec fn follows(step: StepView, next: StepView, paths: Set<PathBuf>) -> bool {
    match step {
        Step::Key { requested, shape, .. } => exists|key: Vec<u8>, cached: Option<Seq<char>>|
            next == #[trigger] next_of_lookup(requested, shape, key, cached),
        Step::Resolve { task, .. } => exists|at: Result<Resolved, ErrorView>|
            answer_in(at, paths) && next == #[trigger] next_of_resolution(task, at),
        Step::ResolveWritable { task, .. } => exists|at: Result<Resolved, ErrorView>|
            answer_in(at, paths) && next == #[trigger] next_of_resolution(task, at),
        Step::ReadDir { shape, .. } => exists|entries: Result<Seq<listing::EntryView>, Seq<char>>|
            next == #[trigger] next_of_entries(shape, entries),
        Step::Size { task, .. } => exists|size: Result<u64, Seq<char>>| next == #[trigger] next_of_size(task, size),
        Step::ReadBytes { range, .. } => exists|bytes: Result<Seq<u8>, Seq<char>>|
            next == #[trigger] next_of_bytes(range, bytes),
        Step::ReadNote { at, note, .. } => exists|content: Option<Seq<char>>|
            next == #[trigger] next_of_note(at, note, content),
        Step::ReadExisting { at, content, .. } => exists|existing: Result<Seq<char>, Seq<char>>|
            next == #[trigger] next_of_existing(at, content, existing),
        Step::Test { task, .. } => exists|passed: bool| next == #[trigger] next_of_test(task, passed),
        Step::Replace { message, .. } => exists|outcome: Result<(), Seq<char>>|
            next == #[trigger] next_of_replacement(message, outcome),
        Step::Rename { from, to, src, dir } => exists|outcome: Renamed<Seq<char>>|
            next == #[trigger] next_of_rename(from, to, src, dir, outcome),
        Step::Copy { from, src, dir, .. } => exists|outcome: Result<(), Seq<char>>|
            next == #[trigger] next_of_copy(from, src, dir, outcome),
        Step::Remove { .. } => exists|outcome: Result<(), Seq<char>>| next == #[trigger] next_of_removal(outcome),
        Step::Walk { task, .. } => exists|item: WalkItem|
            item_in(item, paths) && next == #[trigger] next_of_walk(task, item),
        Step::WalkOn { task } => exists|item: WalkItem|
            item_in(item, paths) && next == #[trigger] next_of_walk(task, item),
        Step::ReadWalked { display, task, .. } => exists|content: Option<Seq<char>>|
            next == #[trigger] next_of_walked(task, display, content),
        Step::ReadSettings { settings, period, date, .. } => exists|content: Option<Seq<char>>|
            next == #[trigger] next_of_settings(settings, period, date, content),
        Step::Outline(o) => exists|answer: OutlineAnswer, p: OutlineStep|
            outline_answer_in(answer, paths) && #[trigger] outline::goes_on(o, answer, p) && next == outline_view(p),
        Step::Done(_) => false,
    }
}

/// Whether `run` is a run of a tool: each step comes after the one before it.
pub open spec fn is_run(run: Seq<StepView>, paths: Set<PathBuf>) -> bool {
    run.len() > 0 && forall|i: int| 0 <= i < run.len() - 1 ==> #[trigger] follows(run[i], run[i + 1], paths)
}

/// A tool touches no other paths than those that the host resolved for it, their
/// directories, those that a walk came across, and those that were listed for an outline:
/// where all of these belong to a set, so do the paths of every step of a run. Besides
/// these only the two files with the settings for periodic notes are read.
pub proof fn tools_touch_resolved_paths_only(run: Seq<StepView>, paths: Set<PathBuf>)
    requires
        is_run(run, paths),
        step_in(run[0], paths),
    ensures
        forall|i: int| 0 <= i < run.len() ==> step_in(#[trigger] run[i], paths),
    decreases run.len(),
{
    if run.len() > 1 {
        let before = run.drop_last();
        assert forall|i: int| 0 <= i < before.len() - 1 implies #[trigger] follows(before[i], before[i + 1], paths) by {
            assert(follows(run[i], run[i + 1], paths));
        }
        tools_touch_resolved_paths_only(before, paths);
        let n = run.len() - 1;
        assert(before[n - 1] == run[n - 1]);
        assert(follows(run[n - 1], run[n - 1 + 1], paths));
        step_stays_in(run[n - 1], run[n], paths);
        assert forall|i: int| 0 <= i < run.len() implies step_in(#[trigger] run[i], paths) by {
            if i < n {
                assert(before[i] == run[i]);
            }
        }
    }
}

proof fn step_stays_in(step: StepView, next: StepView, paths: Set<PathBuf>)
    requires
        step_in(step, paths),
        follows(step, next, paths),
    ensures
        step_in(next, paths),
{
}

/// Whether a step neither writes nor moves nor removes, and carries no task that does.
pub open spec fn only_reads(step: StepView) -> bool {
    match step {
        Step::ResolveWritable { task, .. } => task is Periodic,
        Step::Replace { .. } => false,
        Step::Rename { .. } => false,
        Step::Copy { .. } => false,
        Step::Remove { .. } => false,
        Step::Test { .. } => false,
        Step::ReadExisting { .. } => false,
        Step::Resolve { task, .. } => reading_task(task),
        Step::Size { task, .. } => task matches SizeTask::Note { note, .. } ==> reading_note(note),
        Step::ReadNote { note, .. } => reading_note(note),
        _ => true,
    }
}

/// Whether a task on a note only reads it.
pub open spec fn reading_note(note: NoteTaskView) -> bool {
    note is Frontmatter || note is Structure
}

/// Whether a task on a resolved path only reads.
pub open spec fn reading_task(task: PlaceTaskView) -> bool {
    match task {
        PlaceTask::List { .. } => true,
        PlaceTask::Read { .. } => true,
        PlaceTask::Search(_) => true,
        PlaceTask::Delete => true,
        PlaceTask::Note(note) => reading_note(note),
        PlaceTask::Tags => true,
        PlaceTask::Periodic { .. } => true,
        _ => false,
    }
}

/// A tool that starts with reading goes on with reading, whatever the host answers: no
/// step of its run writes, moves or removes anything.
pub proof fn reading_tools_only_read(run: Seq<StepView>, paths: Set<PathBuf>)
    requires
        is_run(run, paths),
        only_reads(run[0]),
    ensures
        forall|i: int| 0 <= i < run.len() ==> only_reads(#[trigger] run[i]),
    decreases run.len(),
{
    if run.len() > 1 {
        let before = run.drop_last();
        assert forall|i: int| 0 <= i < before.len() - 1 implies #[trigger] follows(before[i], before[i + 1], paths) by {
            assert(follows(run[i], run[i + 1], paths));
        }
        reading_tools_only_read(before, paths);
        let n = run.len() - 1;
        assert(before[n - 1] == run[n - 1]);
        assert(follows(run[n - 1], run[n - 1 + 1], paths));
        reading_goes_on(run[n - 1], run[n], paths);
        assert forall|i: int| 0 <= i < run.len() implies only_reads(#[trigger] run[i]) by {
            if i < n {
                assert(before[i] == run[i]);
            }
        }
    }
}

proof fn reading_goes_on(step: StepView, next: StepView, paths: Set<PathBuf>)
    requires
        only_reads(step),
        follows(step, next, paths),
    ensures
        only_reads(next),
{
}

/// The whole of a file.
pub open spec fn whole_file() -> Range {
    Range { start: None, end: None }
}

/// What is written to a file is read back: where a host keeps the text that it is given
/// as UTF-8, that text is the answer to a request for the whole file.
pub proof fn written_files_are_read_back(target: PathBuf, dir: Place, content: Seq<char>)
    ensures
        next_of_test(TestTask::Write { target, dir, content }, true) matches Step::Replace {
            target: t,
            content: c,
            ..
        } && t == target && next_of_bytes(whole_file(), Ok(vstd::utf8::encode_utf8(c))) == StepView::Done(Ok(content)),
{
    vstd::utf8::encode_utf8_valid_utf8(content);
    vstd::utf8::encode_utf8_decode_utf8(content);
}

/// What is appended to a file is read back after what it held before.
pub proof fn appended_files_are_read_back(at: Resolved, existing: Seq<char>, content: Seq<char>)
    requires
        at.parent is Some,
    ensures
        next_of_existing(at, content, Ok(existing)) matches Step::Replace { target: t, content: c, .. } && t
            == at.place.path && next_of_bytes(whole_file(), Ok(vstd::utf8::encode_utf8(c))) == StepView::Done(
            Ok(existing + content),
        ),
{
    vstd::utf8::encode_utf8_valid_utf8(existing + content);
    vstd::utf8::encode_utf8_decode_utf8(existing + content);
}

// ── What tools come to ────────────────────────────────────────────────────────

/// A file is written at the path that was asked for, with the text that was given, where its
/// directory is there; the listing of that directory is discarded. Otherwise nothing is
/// written.
pub proof fn files_are_written_where_they_are_asked_for(at: Resolved, dir: Place, content: Seq<char>)
    requires
        at.parent == Some(dir),
    ensures
        next_of_resolution(PlaceTask::Write { content }, Ok(at)) matches Step::Test { path, test, task } && {
            &&& path == dir.path && test == Test::Canonical
            &&& next_of_test(task, true) == (StepView::Replace {
                dir: dir.path,
                target: at.place.path,
                content,
                discard: Some(dir.key),
                message: "written successfully"@,
            })
            &&& next_of_test(task, false) == fails("parent directory does not exist"@)
        },
        next_of_resolution(PlaceTask::Write { content }, Ok(Resolved { parent: None, ..at })) is Done,
{
}

/// Text is appended behind what a file holds; a file that is not there is made with the text
/// alone. What cannot be read is left as it is.
pub proof fn text_is_appended_at_the_end(
    at: Resolved,
    dir: Place,
    content: Seq<char>,
    existing: Seq<char>,
    e: Seq<char>,
)
    requires
        at.parent == Some(dir),
    ensures
        next_of_resolution(PlaceTask::Append { content }, Ok(at)) matches Step::Test { path, test, task } && {
            &&& path == at.place.path && test == Test::Exists
            &&& next_of_test(task, true) matches Step::ReadExisting { path: p, at: a, content: c } && {
                &&& p == at.place.path
                &&& next_of_existing(a, c, Ok(existing)) == (StepView::Replace {
                    dir: dir.path,
                    target: at.place.path,
                    content: existing + content,
                    discard: None,
                    message: "appended successfully"@,
                })
                &&& next_of_existing(a, c, Err(e)) == StepView::Done(Err(ErrorView::Io(e)))
            }
            &&& next_of_test(task, false) == (StepView::Replace {
                dir: dir.path,
                target: at.place.path,
                content,
                discard: None,
                message: "appended successfully"@,
            })
        },
{
    assert(Seq::<char>::empty() + content =~= content);
}

/// A file is moved from the path that was asked for to the other one, where nothing is at
/// that one and its directory is there; and not otherwise.
pub proof fn files_are_moved_where_they_are_asked_to(src: Resolved, dst: Resolved, dir: Place, to: Seq<char>)
    requires
        dst.parent == Some(dir),
    ensures
        next_of_resolution(PlaceTask::MoveFrom { dst: to }, Ok(src)) matches Step::ResolveWritable { requested, task } && {
            &&& requested == to
            &&& next_of_resolution(task, Ok(dst)) matches Step::Test { path, test, task: t } && {
                &&& path == dst.place.path && test == Test::Stat
                &&& next_of_test(t, true) == StepView::Done(
                    Err(ErrorView::OperationNotPermitted("destination already exists"@)),
                )
                &&& next_of_test(t, false) matches Step::Test { path: p, test: s, task: u } && {
                    &&& p == dir.path && s == Test::Stat
                    &&& next_of_test(u, true) == (StepView::Rename { from: src.place.path, to: dst.place.path, src, dir })
                    &&& next_of_test(u, false) == fails("dst parent directory does not exist"@)
                }
            }
        },
{
}

/// A move across devices, which the system tells by its codes 17 and 18 or by its kind of
/// error, is a copy and a removal; any other failure is one. Both directories are listed
/// anew after a move, and no others.
pub proof fn moves_reach_other_devices(
    os_code: Option<i32>,
    crosses: bool,
    cache: Map<Seq<u8>, Seq<char>>,
    src: Resolved,
    from: Place,
    dir: Place,
    other: Seq<u8>,
)
    requires
        src.parent == Some(from),
    ensures
        is_cross_device(os_code, crosses) <==> crosses || (os_code matches Some(c) && (c == 17 || c == 18)),
        !cache_after_move(cache, src, dir).contains_key(from.key@),
        !cache_after_move(cache, src, dir).contains_key(dir.key@),
        other != from.key@ && other != dir.key@ ==> {
            &&& cache_after_move(cache, src, dir).contains_key(other) == cache.contains_key(other)
            &&& cache.contains_key(other) ==> cache_after_move(cache, src, dir)[other] == cache[other]
        },
{
}

/// A file is read where it has at most ten mebibytes, and a larger one is refused.
pub proof fn large_files_are_refused(path: PathBuf, at: Resolved, range: Range, note: NoteTaskView, size: u64, e: Seq<char>)
    ensures
        size > 10_485_760 ==> {
            &&& next_of_size(SizeTask::Read { path, range }, Ok(size)) == StepView::Done(Err(ErrorView::FileTooLarge(size)))
            &&& next_of_size(SizeTask::Note { at, note }, Ok(size)) == StepView::Done(Err(ErrorView::FileTooLarge(size)))
        },
        size <= 10_485_760 ==> {
            &&& next_of_size(SizeTask::Read { path, range }, Ok(size)) == (StepView::ReadBytes { path, range })
            &&& next_of_size(SizeTask::Note { at, note }, Ok(size)) == (StepView::ReadNote {
                path: at.place.path,
                at,
                note,
            })
        },
        next_of_size(SizeTask::Read { path, range }, Err(e)) == StepView::Done(Err(ErrorView::Io(e))),
{
}

/// The path that is read is the one that was resolved.
pub proof fn resolved_files_are_read(at: Resolved, range: Range, note: NoteTaskView)
    ensures
        next_of_resolution(PlaceTask::Read { range }, Ok(at)) == (StepView::Size {
            path: at.place.path,
            task: SizeTask::Read { path: at.place.path, range },
        }),
        next_of_resolution(PlaceTask::Note(note), Ok(at)) == (StepView::Size {
            path: at.place.path,
            task: SizeTask::Note { at, note },
        }),
{
}

/// What is text is answered with its lines; what is not, with an error.
pub proof fn texts_are_answered(content: Seq<char>, range: Range, bytes: Seq<u8>)
    ensures
        next_of_bytes(range, Ok(vstd::utf8::encode_utf8(content))) == StepView::Done(
            notes::line_range(content, range.start, range.end),
        ),
        !vstd::utf8::valid_utf8(bytes) ==> next_of_bytes(range, Ok(bytes)) == fails("binary file: cannot read as text"@),
{
    vstd::utf8::encode_utf8_valid_utf8(content);
    vstd::utf8::encode_utf8_decode_utf8(content);
}

/// A changed note is put in the place of the old one, at its path, and its directory is listed
/// anew. A change that is refused leaves the note as it is.
pub proof fn changed_notes_take_the_place_of_the_old(
    at: Resolved,
    dir: Place,
    content: Seq<char>,
    key: Seq<char>,
    value: Tree,
    target: Seq<char>,
    operation: Seq<char>,
    patch: Seq<char>,
)
    requires
        at.parent == Some(dir),
    ensures
        match frontmatter::note_with_key(content, key, value) {
            Ok(new) => next_of_note(at, NoteTask::SetKey { key, value }, Some(content)) == (StepView::Replace {
                dir: dir.path,
                target: at.place.path,
                content: new,
                discard: Some(dir.key),
                message: "frontmatter updated successfully"@,
            }),
            Err(e) => next_of_note(at, NoteTask::SetKey { key, value }, Some(content)) == StepView::Done(Err(e)),
        },
        match notes::patched_heading(content, target, operation, patch) {
            Ok(new) => next_of_note(
                at,
                NoteTask::Patch { target_type: "heading"@, target, operation, content: patch },
                Some(content),
            ) == (StepView::Replace {
                dir: dir.path,
                target: at.place.path,
                content: new,
                discard: Some(dir.key),
                message: "patch applied successfully"@,
            }),
            Err(e) => next_of_note(
                at,
                NoteTask::Patch { target_type: "heading"@, target, operation, content: patch },
                Some(content),
            ) == StepView::Done(Err(e)),
        },
        match frontmatter::note_with_patch(content, target, operation, patch) {
            Ok(new) => next_of_note(
                at,
                NoteTask::Patch { target_type: "frontmatter"@, target, operation, content: patch },
                Some(content),
            ) == (StepView::Replace {
                dir: dir.path,
                target: at.place.path,
                content: new,
                discard: Some(dir.key),
                message: "patch applied successfully"@,
            }),
            Err(e) => next_of_note(
                at,
                NoteTask::Patch { target_type: "frontmatter"@, target, operation, content: patch },
                Some(content),
            ) == StepView::Done(Err(e)),
        },
{
    reveal_strlit("heading");
    reveal_strlit("frontmatter");
    assert("heading"@.len() != "frontmatter"@.len());
}

/// The structure of a note tells the keys of its frontmatter, its headings with their levels,
/// texts and lines, and how many lines it has.
pub proof fn structures_tell_keys_headings_and_lines(content: Seq<char>)
    ensures
        structure_tree(content) == Tree::Object(
            seq![
                (
                    "frontmatter_keys"@,
                    Tree::Array(notes::frontmatter_keys(content).map_values(|k: Seq<char>| Tree::Text(k))),
                ),
                (
                    "headings"@,
                    Tree::Array(
                        notes::note_headings(content).map_values(
                            |h: notes::HeadingView|
                                Tree::Object(
                                    seq![
                                        ("level"@, Tree::Number(json::number_of(h.level as u64))),
                                        ("text"@, Tree::Text(h.text)),
                                        ("line"@, Tree::Number(json::number_of(h.line as u64))),
                                    ],
                                ),
                        ),
                    ),
                ),
                ("total_lines"@, Tree::Number(json::number_of(text::lines_of(content).len() as u64))),
            ],
        ),
{
    let hs = notes::note_headings(content);
    let told = hs.map_values(
        |h: notes::HeadingView|
            Tree::Object(
                seq![
                    ("level"@, Tree::Number(json::number_of(h.level as u64))),
                    ("text"@, Tree::Text(h.text)),
                    ("line"@, Tree::Number(json::number_of(h.line as u64))),
                ],
            ),
    );
    assert(heading_trees(hs) =~= told);
    let keys = notes::frontmatter_keys(content).map_values(|k: Seq<char>| Tree::Text(k));
    assert(search::text_array(notes::frontmatter_keys(content)) == Tree::Array(keys)) by {
        assert(search::text_array(notes::frontmatter_keys(content))->Array_0 =~= keys);
    }
}

/// The answer of a walk whose host comes across these entries, with what could be read of
/// each, and then to the end.
pub open spec fn walk_end(task: WalkView, items: Seq<(WalkEntry, Option<Seq<char>>)>) -> Option<Seq<char>>
    decreases items.len(),
{
    if items.len() == 0 {
        match next_of_walk(task, WalkItem::End) {
            Step::Done(Ok(s)) => Some(s),
            _ => None,
        }
    } else {
        let rest = items.drop_first();
        match next_of_walk(task, WalkItem::Entry(items[0].0)) {
            Step::Done(Ok(s)) => Some(s),
            Step::WalkOn { task: t } => walk_end(t, rest),
            Step::ReadWalked { display, task: t, .. } => match next_of_walked(t, display, items[0].1) {
                Step::Done(Ok(s)) => Some(s),
                Step::WalkOn { task: u } => walk_end(u, rest),
                _ => None,
            },
            _ => None,
        }
    }
}

/// A search answers with what it has found when the walk has come to its end, or when it has
/// enough: what a search over these files finds. An entry that could not be read does not end
/// it.
#[verifier::rlimit(50)]
#[verifier::spinoff_prover]
pub proof fn searches_answer_with_what_they_find(
    p: PlainView,
    c: ContextView,
    items: Seq<(WalkEntry, Option<Seq<char>>)>,
)
    ensures
        walk_end(WalkTask::Plain(p), items) == Some(
            json::json_pretty(Tree::Array(p.after_walk(items).found).settled()),
        ),
        walk_end(WalkTask::Context(c), items) == Some(c.after_walk(items).result()),
        next_of_walk(WalkTask::Plain(p), WalkItem::Failed) == (StepView::WalkOn { task: WalkTask::Plain(p) }),
        next_of_walk(WalkTask::Context(c), WalkItem::Failed) == (StepView::WalkOn { task: WalkTask::Context(c) }),
    decreases items.len(),
{
    if items.len() > 0 {
        let (e, content) = items[0];
        let rest = items.drop_first();
        let p2 = match (p.want(e), content) {
            (Want::Read, Some(t)) => p.after_text(e.display@, t),
            _ => p,
        };
        let c2 = match (c.want(e), content) {
            (Want::Read, Some(t)) => c.after_text(e.display@, t),
            _ => c.after_entry(e),
        };
        searches_answer_with_what_they_find(p2, c2, rest);
        assert(c.want(e) == Want::Read ==> c.after_entry(e) == c);
    }
}

/// A search starts with nothing found, under the path that was resolved, where its pattern
/// compiles.
pub proof fn searches_start_with_nothing(at: Resolved, query: Seq<char>, context: u64, max_files: u64)
    ensures
        search::pattern_error(query) is None ==> {
            &&& next_of_resolution(PlaceTask::Search(Query::Plain { query }), Ok(at)) == (StepView::Walk {
                path: at.place.path,
                task: WalkTask::Plain(PlainView { pattern: query, found: seq![] }),
            })
            &&& next_of_resolution(PlaceTask::Search(Query::Context { query, context, max_files }), Ok(at)) matches Step::Walk {
                path,
                task: WalkTask::Context(s),
            } && {
                &&& path == at.place.path
                &&& s.pattern == query && s.context == context && s.max_files == max_files
                &&& s.found.len() == 0 && s.size == 0 && s.searched == 0 && s.matches == 0 && s.skipped == 0
                &&& !s.truncated
            }
        },
        search::refusal(query, 1_000_000) matches Some(m) ==> {
            &&& next_of_resolution(PlaceTask::Search(Query::Plain { query }), Ok(at)) == fails("invalid regex: "@ + m)
            &&& next_of_resolution(PlaceTask::Search(Query::Context { query, context, max_files }), Ok(at)) == fails(
                "invalid regex: "@ + m,
            )
        },
{
}

/// The counts of tags after the notes among these files were read.
pub open spec fn tags_after(t: Seq<(Seq<char>, u64)>, items: Seq<(WalkEntry, Option<Seq<char>>)>) -> Seq<(Seq<char>, u64)>
    decreases items.len(),
{
    if items.len() == 0 {
        t
    } else {
        let (e, content) = items[0];
        let is_note = e.is_file && e.extension@ == seq!['m', 'd'] && e.size <= 10_485_760;
        let next = if is_note && content is Some {
            tags::note_counted(t, frontmatter::frontmatter_of(content->0), frontmatter::body_of(content->0))
        } else {
            t
        };
        tags_after(next, items.drop_first())
    }
}

/// The tags of a vault are those of all its notes together.
pub proof fn tags_are_those_of_all_notes(t: Seq<(Seq<char>, u64)>, items: Seq<(WalkEntry, Option<Seq<char>>)>)
    ensures
        walk_end(WalkTask::Tags(t), items) == Some(json::json_pretty(tags::tags_tree(tags_after(t, items)).settled())),
    decreases items.len(),
{
    if items.len() > 0 {
        let (e, content) = items[0];
        tags::tags_are_those_of_notes(e);
        let is_note = e.is_file && e.extension@ == seq!['m', 'd'] && e.size <= 10_485_760;
        let next = if is_note && content is Some {
            tags::note_counted(t, frontmatter::frontmatter_of(content->0), frontmatter::body_of(content->0))
        } else {
            t
        };
        tags_are_those_of_all_notes(next, items.drop_first());
    }
}

/// A listing is taken from the cache where the whole one is asked for and is there; otherwise
/// the directory is read. It is the listing of what was read.
pub proof fn listings_are_those_of_the_directory(
    requested: Seq<char>,
    offset: u64,
    limit: u64,
    key: Vec<u8>,
    cached: Seq<char>,
    at: Resolved,
    entries: Seq<listing::EntryView>,
    e: Seq<char>,
)
    ensures
        next_of_lookup(requested, Shape::Whole, key, Some(cached)) == StepView::Done(Ok(cached)),
        next_of_lookup(requested, Shape::Whole, key, None) == (StepView::Resolve {
            requested,
            task: PlaceTask::List { key, shape: Shape::Whole },
        }),
        next_of_lookup(requested, Shape::Page { offset, limit }, key, None) == (StepView::Resolve {
            requested,
            task: PlaceTask::List { key, shape: Shape::Page { offset, limit } },
        }),
        next_of_resolution(PlaceTask::List { key, shape: Shape::Whole }, Ok(at)) == (StepView::ReadDir {
            path: at.place.path,
            at_most: None,
            key,
            shape: Shape::Whole,
        }),
        next_of_resolution(PlaceTask::List { key, shape: Shape::Page { offset, limit } }, Ok(at)) matches Step::ReadDir {
            path,
            at_most,
            key: k,
            shape,
        } && path == at.place.path && k == key && shape == (Shape::Page { offset, limit }) && (at_most matches Some(n) && n
            > 1000),
        next_of_entries(Shape::Whole, Ok(entries)) == StepView::Done(Ok(listing::whole_listing(entries))),
        next_of_entries(Shape::Page { offset, limit }, Ok(entries)) == StepView::Done(
            Ok(listing::page_listing(entries, offset, limit)),
        ),
        next_of_entries(Shape::Whole, Err(e)) == StepView::Done(Err(ErrorView::Io(e))),
{
}

/// A path that is refused ends a tool with the reason.
pub proof fn refused_paths_end_a_tool(task: PlaceTaskView, e: ErrorView)
    ensures
        !(task is Periodic) ==> next_of_resolution(task, Err(e)) == StepView::Done(Err(e)),
        task is Periodic ==> next_of_resolution(task, Err(e)) == fails("computed path escapes vault: "@ + e.message()),
{
}

/// The path of a periodic note comes from the settings of its period, where the plugin for
/// periodic notes has any that can be read; for daily notes otherwise from their own; and
/// where there are none it is at the top, in the standard format.
pub proof fn periodic_notes_follow_their_settings(
    period: Seq<char>,
    date: Date,
    settings: Seq<char>,
    t: Tree,
)
    requires
        json::json_parsed(vstd::utf8::encode_utf8(settings)) == Some(t),
    ensures
        next_of_settings(Settings::Plugin, period, date, Some(settings)) == ({
            let (folder, format) = periodic::folder_and_format(t.field(period), periodic::standard_format(period));
            periodic_path(date, folder, format)
        }),
        next_of_settings(Settings::Daily, period, date, Some(settings)) == ({
            let (folder, format) = periodic::folder_and_format(t, periodic::standard_format(period));
            periodic_path(date, folder, format)
        }),
        period != "daily"@ ==> next_of_settings(Settings::Plugin, period, date, None) == periodic_path(
            date,
            Seq::empty(),
            periodic::standard_format(period),
        ),
        period == "daily"@ ==> next_of_settings(Settings::Plugin, period, date, None) == (StepView::ReadSettings {
            relative: ".obsidian/daily-notes.json"@,
            settings: Settings::Daily,
            period,
            date,
        }),
        next_of_settings(Settings::Daily, period, date, None) == periodic_path(
            date,
            Seq::empty(),
            periodic::standard_format(period),
        ),
{
    reveal_strlit("");
    assert(""@ =~= Seq::<char>::empty());
}

/// The path of a periodic note is that of its folder and the text of its day, and is the
/// answer once it was found to lie inside the root.
pub proof fn periodic_notes_have_the_name_of_their_day(
    date: Date,
    folder: Seq<char>,
    format: Seq<char>,
    name: Seq<char>,
    at: Resolved,
)
    requires
        periodic::moment_text(date, format) == Some(name),
    ensures
        periodic_path(date, folder, format) matches Step::ResolveWritable { requested, task } && {
            &&& requested == periodic::note_path(folder, name)
            &&& next_of_resolution(task, Ok(at)) == StepView::Done(Ok(periodic::note_path(folder, name)))
        },
{
}

/// The standard formats: a day, a week, a month, a quarter and a year, and a day for anything
/// else.
pub proof fn standard_formats(period: Seq<char>)
    ensures
        periodic::standard_format("daily"@) == "YYYY-MM-DD"@,
        periodic::standard_format("weekly"@) == "YYYY-[W]WW"@,
        periodic::standard_format("monthly"@) == "YYYY-MM"@,
        periodic::standard_format("quarterly"@) == "YYYY-[Q]Q"@,
        periodic::standard_format("yearly"@) == "YYYY"@,
        period != "weekly"@ && period != "monthly"@ && period != "quarterly"@ && period != "yearly"@
            ==> periodic::standard_format(period) == "YYYY-MM-DD"@,
{
    reveal_strlit("daily");
    reveal_strlit("weekly");
    reveal_strlit("monthly");
    reveal_strlit("quarterly");
    reveal_strlit("yearly");
    assert("daily"@.len() == 5 && "weekly"@.len() == 6 && "monthly"@.len() == 7 && "quarterly"@.len() == 9 && "yearly"@.len()
        == 6);
    assert("weekly"@[0] == 'w' && "yearly"@[0] == 'y');
}

/// A move is done where renaming is, and across devices where the file was copied to its new
/// place and then removed from the old one; a failure on the way is told, and ends it.
pub proof fn moves_leave_nothing_behind(
    from: PathBuf,
    to: PathBuf,
    src: Resolved,
    dir: Place,
    message: Seq<char>,
    code: i32,
)
    ensures
        next_of_rename(from, to, src, dir, Renamed::Done) == StepView::Done(Ok("moved successfully"@)),
        next_of_rename(
            from,
            to,
            src,
            dir,
            Renamed::Failed { os_code: None, crosses_devices: true, message },
        ) == (StepView::Copy { from, to, src, dir }),
        next_of_rename(
            from,
            to,
            src,
            dir,
            Renamed::Failed { os_code: Some(code), crosses_devices: false, message },
        ) == (if code == 17 || code == 18 {
            StepView::Copy { from, to, src, dir }
        } else {
            StepView::Done(Err(ErrorView::Io(message)))
        }),
        next_of_copy(from, src, dir, Ok(())) == (StepView::Remove { path: from, src, dir }),
        next_of_copy(from, src, dir, Err(message)) == StepView::Done(Err(ErrorView::Io(message))),
        next_of_removal(Ok(())) == StepView::Done(Ok("moved successfully"@)),
        next_of_removal(Err(message)) == StepView::Done(Err(ErrorView::Io(message))),
{
}

/// A file that was put at its place is told so, and the listing of its directory is discarded
/// where it is to be; where it could not be put there, neither.
pub proof fn written_files_are_told(
    cache: Map<Seq<u8>, Seq<char>>,
    key: Vec<u8>,
    message: Seq<char>,
    e: Seq<char>,
    other: Seq<u8>,
)
    ensures
        next_of_replacement(message, Ok(())) == StepView::Done(Ok(message)),
        next_of_replacement(message, Err(e)) == StepView::Done(Err(ErrorView::Io(e))),
        !cache_after_replacement(cache, Some(key), Ok(())).contains_key(key@),
        other != key@ ==> cache_after_replacement(cache, Some(key), Ok(())).contains_key(other) == cache.contains_key(other),
        cache_after_replacement(cache, None, Ok(())) == cache,
        cache_after_replacement(cache, Some(key), Err(e)) == cache,
{
}

/// The frontmatter of a note is told as JSON, and its structure too; a note that cannot be read
/// as text is neither read nor changed.
pub proof fn notes_are_told(at: Resolved, content: Seq<char>, note: NoteTaskView)
    ensures
        next_of_note(at, NoteTask::Frontmatter, Some(content)) == StepView::Done(
            Ok(json::json_pretty(frontmatter::frontmatter_of(content).settled())),
        ),
        next_of_note(at, NoteTask::Structure, Some(content)) == StepView::Done(
            Ok(json::json_text(structure_tree(content).settled())),
        ),
        next_of_note(at, note, None) == fails("cannot read file as text"@),
{
}

/// What the cache has for a directory is the answer that was last given for it; other
/// directories are not touched.
pub proof fn listings_are_remembered(
    cache: Map<Seq<u8>, Seq<char>>,
    key: Seq<u8>,
    entries: Seq<listing::EntryView>,
    shape: Shape,
    other: Seq<u8>,
)
    ensures
        ({
            let after = cache_after_listing(cache, key, entries, shape);
            &&& after.contains_key(key)
            &&& next_of_entries(shape, Ok(entries)) == StepView::Done(Ok(after[key]))
            &&& other != key ==> after.contains_key(other) == cache.contains_key(other)
            &&& other != key && cache.contains_key(other) ==> after[other] == cache[other]
        }),
{
}

} // verus!
