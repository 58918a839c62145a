//! Searching the files under a directory for a pattern.

use regex::Regex;
use vstd::prelude::*;

use crate::error::AppError;
use crate::error::ErrorView;
use crate::host;
use crate::host::{WalkEntry, Want};
use crate::json;
use crate::json::{Json, Tree};
use crate::sorting;
use crate::text;

verus! {

/// How many bytes a pattern may have.
pub const MAX_QUERY: usize = 256;

/// The size, in bytes, up to which a pattern is compiled.
pub const PATTERN_SIZE_LIMIT: usize = 1_000_000;

/// How many files, and how many lines of each, a plain search reports.
pub const MAX_FILES: usize = 50;

pub const MAX_LINES: usize = 5;

/// The size, in bytes, of the results after which a search with context ends.
pub const MAX_RESULT_SIZE: u64 = 8000;

/// How many characters the answer of a search with context may have.
pub const MAX_ANSWER: usize = 8000;

// ── Patterns ──────────────────────────────────────────────────────────────────

/// `regex`'s compiled pattern.
#[verifier::external_type_specification]
#[verifier::external_body]
pub struct ExRegex(regex::Regex);

/// The text of a compiled pattern.
pub uninterp spec fn source(re: regex::Regex) -> Seq<char>;

/// Why a text is not a pattern that compiles within a size limit; `None` where it
/// is.
pub uninterp spec fn refusal(pattern: Seq<char>, limit: usize) -> Option<Seq<char>>;

/// Whether a pattern matches somewhere in a text.
pub uninterp spec fn finds(pattern: Seq<char>, s: Seq<char>) -> bool;

/// Calls `RegexBuilder::new`, `size_limit` and `build`. Whether the text is
/// accepted, and the message where it is not, is a function of the text and the
/// limit.
#[verifier::external_body]
fn compile(pattern: &str, limit: usize) -> (r: Result<Regex, String>)
    ensures
        match r {
            Ok(re) => refusal(pattern@, limit) is None && source(re) == pattern@,
            Err(e) => refusal(pattern@, limit) == Some(e@),
        },
{
    regex::RegexBuilder::new(pattern).size_limit(limit).build().map_err(|e| e.to_string())
}

/// Calls `Regex::is_match`: whether a pattern matches is a function of its text
/// and of the text that is searched.
#[verifier::external_body]
fn is_match(re: &Regex, s: &str) -> (r: bool)
    ensures
        r == finds(source(*re), s@),
{
    re.is_match(s)
}

/// Whether a pattern is short enough to be considered.
pub open spec fn query_error(query: Seq<char>) -> Option<ErrorView> {
    if text::utf8_len(query) > MAX_QUERY {
        Some(ErrorView::Other("query pattern exceeds 256 characters"@))
    } else {
        None
    }
}

/// Refuses a pattern of more than `MAX_QUERY` bytes.
pub fn check_query(query: &str) -> (r: Result<(), AppError>)
    ensures
        match r {
            Ok(_) => query_error(query@) is None,
            Err(e) => query_error(query@) == Some(e@),
        },
{
    if text::byte_len(query) > MAX_QUERY {
        Err(AppError::other("query pattern exceeds 256 characters"))
    } else {
        Ok(())
    }
}

/// The error of a pattern that does not compile.
pub open spec fn pattern_error(query: Seq<char>) -> Option<ErrorView> {
    match refusal(query, PATTERN_SIZE_LIMIT) {
        Some(e) => Some(ErrorView::Other("invalid regex: "@ + e)),
        None => None,
    }
}

/// Compiles a pattern.
pub fn compile_query(query: &str) -> (r: Result<Regex, AppError>)
    ensures
        match r {
            Ok(re) => pattern_error(query@) is None && source(re) == query@,
            Err(e) => pattern_error(query@) == Some(e@),
        },
{
    match compile(query, PATTERN_SIZE_LIMIT) {
        Ok(re) => Ok(re),
        Err(e) => Err(AppError::Other(text::cat("invalid regex: ", &e))),
    }
}

// ── Which files ───────────────────────────────────────────────────────────────

/// Whether an entry is a file of notes or plain text.
pub open spec fn is_text_file(e: WalkEntry) -> bool {
    e.is_file && (e.extension@ == "md"@ || e.extension@ == "txt"@)
}

fn check_text_file(e: &WalkEntry) -> (r: bool)
    ensures
        r == is_text_file(*e),
{
    e.is_file && (text::same(&e.extension, "md") || text::same(&e.extension, "txt"))
}

/// The results of one file as JSON.
pub open spec fn file_tree(display: Seq<char>, hits: Seq<Tree>) -> Tree {
    Tree::Object(seq![("file"@, Tree::Text(display)), ("matches"@, Tree::Array(hits))])
}

/// Which lines a pattern matches.
pub open spec fn flags(pattern: Seq<char>, lines: Seq<Seq<char>>) -> Seq<bool> {
    lines.map_values(|l: Seq<char>| finds(pattern, l))
}

/// Which lines a pattern matches.
fn flag_lines(re: &Regex, lines: &Vec<String>) -> (r: Vec<bool>)
    ensures
        r@ == flags(source(*re), text::texts(lines@)),
{
    let mut out: Vec<bool> = Vec::new();
    let mut i: usize = 0;
    while i < lines.len()
        invariant
            i <= lines@.len(),
            out@.len() == i,
            forall|k: int| 0 <= k < i ==> #[trigger] out@[k] == finds(source(*re), lines@[k]@),
        decreases lines@.len() - i,
    {
        out.push(is_match(re, &lines[i]));
        i += 1;
    }
    assert(out@ =~= flags(source(*re), text::texts(lines@)));
    out
}

// ── Plain search ──────────────────────────────────────────────────────────────

/// A line that matches, as JSON; lines count from 1.
pub open spec fn plain_hit(at: int, line: Seq<char>) -> Tree {
    Tree::Object(
        seq![("line"@, Tree::Number(json::number_of((at + 1) as u64))), ("text"@, Tree::Text(line))],
    )
}

/// The flagged lines from line `at` on, at most `room` of them.
pub open spec fn plain_hits(marks: Seq<bool>, lines: Seq<Seq<char>>, at: int, room: nat) -> Seq<Tree>
    decreases lines.len() - at,
{
    if at >= lines.len() || room == 0 {
        seq![]
    } else if marks[at] {
        seq![plain_hit(at, lines[at])] + plain_hits(marks, lines, at + 1, (room - 1) as nat)
    } else {
        plain_hits(marks, lines, at + 1, room)
    }
}

/// The first flagged lines, at most `MAX_LINES` of them.
pub fn report_plain(marks: &Vec<bool>, lines: &Vec<String>) -> (r: Vec<Json>)
    requires
        marks@.len() == lines@.len(),
    ensures
        json::trees(r@) == plain_hits(marks@, text::texts(lines@), 0, MAX_LINES as nat),
{
    let ghost all = text::texts(lines@);
    let mut hits: Vec<Json> = Vec::new();
    let mut i: usize = 0;
    assert(json::trees(hits@) =~= Seq::<Tree>::empty());
    while i < lines.len() && hits.len() < MAX_LINES
        invariant
            i <= lines@.len() == marks@.len(),
            hits@.len() <= MAX_LINES,
            all == text::texts(lines@),
            json::trees(hits@) + plain_hits(marks@, all, i as int, (MAX_LINES - hits@.len()) as nat)
                =~= plain_hits(marks@, all, 0, MAX_LINES as nat),
        decreases lines@.len() - i,
    {
        assert(all[i as int] == lines@[i as int]@);
        if marks[i] {
            let hit = Json::object2("line", Json::number(i as u64 + 1), "text", Json::text(&lines[i]));
            let ghost before = hits@;
            hits.push(hit);
            assert(json::trees(hits@) =~= json::trees(before).push(plain_hit(i as int, all[i as int])));
        }
        i += 1;
    }
    assert(json::trees(hits@) =~= plain_hits(marks@, all, 0, MAX_LINES as nat));
    hits
}

/// What a plain search knows.
pub struct PlainView {
    pub pattern: Seq<char>,
    pub found: Seq<Tree>,
}

impl PlainView {
    /// What to do with an entry.
    pub open spec fn want(self, e: WalkEntry) -> Want {
        if self.found.len() >= MAX_FILES {
            Want::Stop
        } else if is_text_file(e) && e.size <= host::MAX_FILE_SIZE {
            Want::Read
        } else {
            Want::Skip
        }
    }

    /// The search after a file was read.
    pub open spec fn after_text(self, display: Seq<char>, content: Seq<char>) -> PlainView {
        let lines = text::lines_of(content);
        let hits = plain_hits(flags(self.pattern, lines), lines, 0, MAX_LINES as nat);
        if hits.len() > 0 {
            PlainView { found: self.found.push(file_tree(display, hits)), ..self }
        } else {
            self
        }
    }

    /// The text of the results.
    pub open spec fn result(self) -> Seq<char> {
        json::json_pretty(Tree::Array(self.found).settled())
    }

    /// The search after a walk over `items`: what could be read of each file that
    /// is wanted.
    pub open spec fn after_walk(self, items: Seq<(WalkEntry, Option<Seq<char>>)>) -> PlainView
        decreases items.len(),
    {
        if items.len() == 0 {
            self
        } else {
            let (e, content) = items[0];
            match self.want(e) {
                Want::Stop => self,
                Want::Skip => self.after_walk(items.drop_first()),
                Want::Read => match content {
                    Some(c) => self.after_text(e.display@, c).after_walk(items.drop_first()),
                    None => self.after_walk(items.drop_first()),
                },
            }
        }
    }
}

/// A search for the lines that match a pattern.
pub struct PlainSearch {
    re: Regex,
    found: Vec<Json>,
}

impl View for PlainSearch {
    type V = PlainView;

    closed spec fn view(&self) -> PlainView {
        PlainView { pattern: source(self.re), found: json::trees(self.found@) }
    }
}

impl PlainSearch {
    /// A search that has found nothing yet.
    pub fn new(re: Regex) -> (r: PlainSearch)
        ensures
            r@ == (PlainView { pattern: source(re), found: seq![] }),
    {
        let found: Vec<Json> = Vec::new();
        assert(json::trees(found@) =~= Seq::<Tree>::empty());
        PlainSearch { re, found }
    }

    /// What to do with an entry.
    pub fn consider(&self, e: &WalkEntry) -> (r: Want)
        ensures
            r == self@.want(*e),
    {
        if self.found.len() >= MAX_FILES {
            Want::Stop
        } else if check_text_file(e) && e.size <= host::MAX_FILE_SIZE {
            Want::Read
        } else {
            Want::Skip
        }
    }

    /// Searches a file.
    pub fn read(&mut self, display: &str, content: &str)
        ensures
            final(self)@ == old(self)@.after_text(display@, content@),
    {
        let lines = text::lines(content);
        let marks = flag_lines(&self.re, &lines);
        let hits = report_plain(&marks, &lines);
        assert(json::trees(hits@).len() == hits@.len());
        if hits.len() > 0 {
            let ghost before = self.found@;
            let file = Json::object2("file", Json::text(display), "matches", Json::array(hits));
            self.found.push(file);
            assert(json::trees(self.found@) =~= json::trees(before).push(file.tree()));
        }
    }

    /// The results as JSON.
    pub fn to_json(self) -> (r: Json)
        ensures
            r.tree() == Tree::Array(self@.found),
    {
        Json::array(self.found)
    }

    /// The text of the results.
    pub fn result(self) -> (r: String)
        ensures
            r@ == self@.result(),
    {
        json::to_pretty(&self.to_json())
    }
}

// ── Search with context ───────────────────────────────────────────────────────

/// The strings of a list as JSON.
pub open spec fn text_array(v: Seq<Seq<char>>) -> Tree {
    Tree::Array(v.map_values(|s: Seq<char>| Tree::Text(s)))
}

/// Line `i` of `lines` as JSON, with up to `context` lines before and after it.
pub open spec fn context_hit(lines: Seq<Seq<char>>, i: int, context: int) -> Tree {
    let from = if i >= context {
        i - context
    } else {
        0
    };
    let to = if i + context + 1 < lines.len() {
        i + context + 1
    } else {
        lines.len() as int
    };
    Tree::Object(
        seq![
            ("line"@, Tree::Number(json::number_of((i + 1) as u64))),
            ("text"@, Tree::Text(lines[i])),
            ("context_before"@, text_array(lines.subrange(from, i))),
            ("context_after"@, text_array(lines.subrange(i + 1, to))),
        ],
    )
}

/// The flagged lines among the first `n`, as JSON.
pub open spec fn context_hits(marks: Seq<bool>, lines: Seq<Seq<char>>, context: int, n: nat) -> Seq<Tree>
    decreases n,
{
    if n == 0 {
        seq![]
    } else {
        let before = context_hits(marks, lines, context, (n - 1) as nat);
        if marks[n - 1] {
            before.push(context_hit(lines, n - 1, context))
        } else {
            before
        }
    }
}

/// The matches in a file.
pub struct FileHits {
    pub display: String,
    pub hits: Vec<Json>,
}

/// The matches in a file, mathematically.
pub struct FileView {
    pub display: Seq<char>,
    pub hits: Seq<Tree>,
}

impl View for FileHits {
    type V = FileView;

    open spec fn view(&self) -> FileView {
        FileView { display: self.display@, hits: json::trees(self.hits@) }
    }
}

impl FileHits {
    /// The first `h` matches in the file as JSON.
    pub fn to_json(&self, h: usize) -> (r: Json)
        requires
            h <= self@.hits.len(),
        ensures
            r.tree() == file_tree(self@.display, self@.hits.take(h as int)),
    {
        let mut hits: Vec<Json> = Vec::new();
        let mut i: usize = 0;
        while i < h
            invariant
                i <= h <= self.hits@.len(),
                hits@.len() == i,
                forall|k: int| 0 <= k < i ==> (#[trigger] hits@[k]).tree() == self.hits@[k].tree(),
            decreases h - i,
        {
            hits.push(self.hits[i].copy());
            i += 1;
        }
        assert(json::trees(hits@) =~= self@.hits.take(h as int));
        Json::object2("file", Json::text(&self.display), "matches", Json::array(hits))
    }
}

/// The answer of a search whose results have no room at all.
pub open spec fn no_room() -> Seq<char> {
    "{\n  \"results\": [],\n  \"truncated\": true\n}"@
}

/// The matches in some files as JSON.
pub open spec fn file_trees(found: Seq<FileView>) -> Seq<Tree> {
    found.map_values(|f: FileView| file_tree(f.display, f.hits))
}

/// What a search with context knows.
pub struct ContextView {
    pub pattern: Seq<char>,
    pub context: u64,
    pub max_files: u64,
    pub found: Seq<FileView>,
    /// The size of the results in bytes.
    pub size: u64,
    pub searched: u64,
    pub matches: u64,
    pub skipped: u64,
    pub truncated: bool,
}

impl ContextView {
    /// What to do with an entry.
    pub open spec fn want(self, e: WalkEntry) -> Want {
        if is_text_file(e) && self.found.len() < self.max_files && self.size <= MAX_RESULT_SIZE && e.size
            <= host::MAX_FILE_SIZE {
            Want::Read
        } else {
            Want::Skip
        }
    }

    /// The search after an entry was considered: a file of text that is not read
    /// is counted.
    pub open spec fn after_entry(self, e: WalkEntry) -> ContextView {
        if is_text_file(e) && self.want(e) == Want::Skip {
            ContextView {
                skipped: host::plus(self.skipped, 1),
                truncated: self.truncated || (self.found.len() < self.max_files && self.size > MAX_RESULT_SIZE),
                ..self
            }
        } else {
            self
        }
    }

    /// The search after a file was read.
    pub open spec fn after_text(self, display: Seq<char>, content: Seq<char>) -> ContextView {
        let lines = text::lines_of(content);
        let hits = context_hits(flags(self.pattern, lines), lines, self.context as int, lines.len());
        let file = file_tree(display, hits);
        let size = if hits.len() > 0 {
            host::plus(self.size, text::utf8_len(json::json_text(file.settled())))
        } else {
            self.size
        };
        ContextView {
            found: if hits.len() > 0 {
                self.found.push(FileView { display, hits })
            } else {
                self.found
            },
            size,
            searched: host::plus(self.searched, 1),
            matches: host::plus(self.matches, hits.len()),
            truncated: self.truncated || size > MAX_RESULT_SIZE,
            ..self
        }
    }

    /// Whether the walk ends here.
    pub open spec fn full(self) -> bool {
        self.size > MAX_RESULT_SIZE
    }

    /// The results as JSON.
    pub open spec fn tree(self) -> Tree {
        let results = seq![("results"@, Tree::Array(file_trees(self.found)))];
        if self.truncated {
            Tree::Object(
                results + seq![
                    ("truncated"@, Tree::Bool(true)),
                    ("files_searched"@, Tree::Number(json::number_of(self.searched))),
                    ("total_matches"@, Tree::Number(json::number_of(self.matches))),
                    ("files_skipped"@, Tree::Number(json::number_of(self.skipped))),
                ],
            )
        } else {
            Tree::Object(results)
        }
    }

    /// The results as indented JSON text.
    pub open spec fn pretty(self) -> Seq<char> {
        json::json_pretty(self.tree().settled())
    }

    /// Whether the results have room in an answer.
    pub open spec fn fits(self) -> bool {
        self.pretty().len() <= MAX_ANSWER
    }

    /// The search with no more of its results than the first `n` files and the first `h`
    /// matches of the next one; it is marked as cut short.
    pub open spec fn shown(self, n: nat, h: nat) -> ContextView {
        let part = if h > 0 && n < self.found.len() {
            seq![FileView { display: self.found[n as int].display, hits: self.found[n as int].hits.take(h as int) }]
        } else {
            seq![]
        };
        ContextView { found: self.found.take(n as int) + part, truncated: true, ..self }
    }

    /// How many files are shown, where `n` have room: as many as have room one by one.
    pub open spec fn files_shown(self, n: nat) -> nat
        decreases self.found.len() - n,
    {
        if n < self.found.len() && self.shown(n + 1, 0).fits() {
            self.files_shown(n + 1)
        } else {
            n
        }
    }

    /// How many matches of file `n` are shown after the files before it, where `h` have
    /// room.
    pub open spec fn hits_shown(self, n: nat, h: nat) -> nat
        decreases self.found[n as int].hits.len() - h,
    {
        if n < self.found.len() && h < self.found[n as int].hits.len() && self.shown(n, h + 1).fits() {
            self.hits_shown(n, h + 1)
        } else {
            h
        }
    }

    /// The search with as many of its results as an answer has room for.
    pub open spec fn best(self) -> ContextView {
        if self.fits() {
            self
        } else {
            let n = self.files_shown(0);
            self.shown(n, self.hits_shown(n, 0))
        }
    }

    /// The answer: the results as JSON, as far as they have room.
    pub open spec fn result(self) -> Seq<char> {
        if self.best().fits() {
            self.best().pretty()
        } else {
            no_room()
        }
    }

    /// The search after a walk over `items`: what could be read of each file that
    /// is wanted.
    pub open spec fn after_walk(self, items: Seq<(WalkEntry, Option<Seq<char>>)>) -> ContextView
        decreases items.len(),
    {
        if items.len() == 0 {
            self
        } else {
            let (e, content) = items[0];
            match (self.want(e), content) {
                (Want::Read, Some(c)) => {
                    let next = self.after_text(e.display@, c);
                    if next.full() {
                        next
                    } else {
                        next.after_walk(items.drop_first())
                    }
                },
                _ => self.after_entry(e).after_walk(items.drop_first()),
            }
        }
    }
}

/// A search for the lines that match a pattern, with the lines around them.
pub struct ContextSearch {
    re: Regex,
    context: u64,
    max_files: u64,
    found: Vec<FileHits>,
    size: u64,
    searched: u64,
    matches: u64,
    skipped: u64,
    truncated: bool,
}

impl View for ContextSearch {
    type V = ContextView;

    closed spec fn view(&self) -> ContextView {
        ContextView {
            pattern: source(self.re),
            context: self.context,
            max_files: self.max_files,
            found: sorting::views(self.found@),
            size: self.size,
            searched: self.searched,
            matches: self.matches,
            skipped: self.skipped,
            truncated: self.truncated,
        }
    }
}

/// A search that has found nothing yet.
pub open spec fn fresh_search(pattern: Seq<char>, context: u64, max_files: u64) -> ContextView {
    ContextView {
        pattern,
        context,
        max_files,
        found: seq![],
        size: 0,
        searched: 0,
        matches: 0,
        skipped: 0,
        truncated: false,
    }
}

/// Line `i` of `lines` as JSON, with the lines around it.
fn hit_with_context(lines: &Vec<String>, i: usize, context: u64) -> (r: Json)
    requires
        i < lines@.len(),
    ensures
        r.tree() == context_hit(text::texts(lines@), i as int, context as int),
{
    let from: usize = if i as u64 >= context {
        i - context as usize
    } else {
        0
    };
    let to: usize = if context < (lines.len() - i - 1) as u64 {
        i + 1 + context as usize
    } else {
        lines.len()
    };
    let mut before: Vec<String> = Vec::new();
    let mut j: usize = from;
    while j < i
        invariant
            from <= j <= i < lines@.len(),
            before@.len() == j - from,
            forall|k: int| 0 <= k < before@.len() ==> (#[trigger] before@[k])@ == lines@[from + k]@,
        decreases i - j,
    {
        before.push(lines[j].clone());
        j += 1;
    }
    let mut after: Vec<String> = Vec::new();
    let mut k: usize = i + 1;
    while k < to
        invariant
            i + 1 <= k <= to <= lines@.len(),
            after@.len() == k - i - 1,
            forall|m: int| 0 <= m < after@.len() ==> (#[trigger] after@[m])@ == lines@[i + 1 + m]@,
        decreases to - k,
    {
        after.push(lines[k].clone());
        k += 1;
    }
    let ghost t = text::texts(lines@);
    assert(text::texts(before@) =~= t.subrange(from as int, i as int));
    assert(text::texts(after@) =~= t.subrange(i + 1, to as int));
    let mut m: Vec<(String, Json)> = Vec::new();
    m.push(("line".to_owned(), Json::number(i as u64 + 1)));
    m.push(("text".to_owned(), Json::text(&lines[i])));
    m.push(("context_before".to_owned(), Json::texts(&before)));
    m.push(("context_after".to_owned(), Json::texts(&after)));
    assert(json::members(m@) =~= context_hit(t, i as int, context as int)->Object_0);
    Json::object(m)
}

/// The flagged lines, with the lines around each.
pub fn report_with_context(marks: &Vec<bool>, lines: &Vec<String>, context: u64) -> (r: Vec<Json>)
    requires
        marks@.len() == lines@.len(),
    ensures
        json::trees(r@) == context_hits(marks@, text::texts(lines@), context as int, lines@.len()),
{
    let mut hits: Vec<Json> = Vec::new();
    let mut i: usize = 0;
    assert(json::trees(hits@) =~= Seq::<Tree>::empty());
    while i < lines.len()
        invariant
            i <= lines@.len() == marks@.len(),
            json::trees(hits@) == context_hits(marks@, text::texts(lines@), context as int, i as nat),
        decreases lines@.len() - i,
    {
        if marks[i] {
            let ghost before = hits@;
            let hit = hit_with_context(lines, i, context);
            hits.push(hit);
            assert(json::trees(hits@) =~= json::trees(before).push(hit.tree()));
        }
        i += 1;
    }
    hits
}

impl ContextSearch {
    /// A search that has found nothing yet.
    pub fn new(re: Regex, context: u64, max_files: u64) -> (r: ContextSearch)
        ensures
            r@ == fresh_search(source(re), context, max_files),
    {
        let found: Vec<FileHits> = Vec::new();
        assert(sorting::views(found@) =~= Seq::<FileView>::empty());
        ContextSearch {
            re,
            context,
            max_files,
            found,
            size: 0,
            searched: 0,
            matches: 0,
            skipped: 0,
            truncated: false,
        }
    }

    /// What to do with an entry.
    pub fn consider(&mut self, e: &WalkEntry) -> (r: Want)
        ensures
            r == old(self)@.want(*e),
            final(self)@ == old(self)@.after_entry(*e),
    {
        if !check_text_file(e) {
            return Want::Skip;
        }
        if self.found.len() as u64 >= self.max_files {
            self.skipped = host::add_capped(self.skipped, 1);
            return Want::Skip;
        }
        if self.size > MAX_RESULT_SIZE {
            self.truncated = true;
            self.skipped = host::add_capped(self.skipped, 1);
            return Want::Skip;
        }
        if e.size > host::MAX_FILE_SIZE {
            self.skipped = host::add_capped(self.skipped, 1);
            return Want::Skip;
        }
        Want::Read
    }

    /// Searches a file; tells whether the walk ends with it.
    pub fn read(&mut self, display: &str, content: &str) -> (r: bool)
        ensures
            final(self)@ == old(self)@.after_text(display@, content@),
            r == final(self)@.full(),
    {
        let lines = text::lines(content);
        let marks = flag_lines(&self.re, &lines);
        let hits = report_with_context(&marks, &lines, self.context);
        assert(json::trees(hits@).len() == hits@.len());
        self.searched = host::add_capped(self.searched, 1);
        self.matches = host::add_capped(self.matches, hits.len() as u64);
        if hits.len() > 0 {
            let file = FileHits { display: display.to_owned(), hits };
            let printed = json::to_text(&file.to_json(file.hits.len()));
            assert(file@.hits.take(file@.hits.len() as int) =~= file@.hits);
            self.size = host::add_capped(self.size, text::byte_len(&printed) as u64);
            let ghost before = self.found@;
            self.found.push(file);
            assert(sorting::views(self.found@) =~= sorting::views(before).push(file@));
        }
        if self.size > MAX_RESULT_SIZE {
            self.truncated = true;
        }
        self.size > MAX_RESULT_SIZE
    }

    /// The results as JSON, where these are the files.
    fn wrap(&self, files: Vec<Json>, truncated: bool) -> (r: Json)
        ensures
            forall|v: ContextView|
                file_trees(v.found) == json::trees(files@) && v.truncated == truncated && v.searched == self@.searched
                    && v.matches == self@.matches && v.skipped == self@.skipped ==> r.tree() == #[trigger] v.tree(),
    {
        let mut m: Vec<(String, Json)> = Vec::new();
        m.push(("results".to_owned(), Json::array(files)));
        if truncated {
            m.push(("truncated".to_owned(), Json::Bool(true)));
            m.push(("files_searched".to_owned(), Json::number(self.searched)));
            m.push(("total_matches".to_owned(), Json::number(self.matches)));
            m.push(("files_skipped".to_owned(), Json::number(self.skipped)));
        }
        let r = Json::object(m);
        assert forall|v: ContextView|
            file_trees(v.found) == json::trees(files@) && v.truncated == truncated && v.searched == self@.searched
                && v.matches == self@.matches && v.skipped == self@.skipped implies r.tree() == #[trigger] v.tree() by {
            assert(json::members(m@) =~= v.tree()->Object_0);
        }
        r
    }

    /// The first `n` files as JSON.
    fn first_files(&self, n: usize) -> (r: Vec<Json>)
        requires
            n <= self@.found.len(),
        ensures
            json::trees(r@) == file_trees(self@.found.take(n as int)),
    {
        let mut files: Vec<Json> = Vec::new();
        let mut i: usize = 0;
        assert(json::trees(files@) =~= file_trees(self@.found.take(0)));
        while i < n
            invariant
                i <= n <= self.found@.len(),
                json::trees(files@) =~= file_trees(self@.found.take(i as int)),
            decreases n - i,
        {
            let ghost before = files@;
            let all: usize = self.found[i].hits.len();
            let file = self.found[i].to_json(all);
            files.push(file);
            proof {
                let f = self.found@[i as int]@;
                assert(f.hits.take(all as int) =~= f.hits);
                assert(self@.found[i as int] == f);
                assert(json::trees(files@) =~= json::trees(before).push(file.tree()));
                assert(self@.found.take(i + 1) =~= self@.found.take(i as int).push(f));
            }
            i += 1;
        }
        files
    }

    /// The results as JSON.
    pub fn to_json(&self) -> (r: Json)
        ensures
            r.tree() == self@.tree(),
    {
        let files = self.first_files(self.found.len());
        assert(self@.found.take(self@.found.len() as int) =~= self@.found);
        self.wrap(files, self.truncated)
    }

    /// The results as JSON text: no more than the first `n` files and the first `h` matches
    /// of the next one.
    fn print_shown(&self, n: usize, h: usize) -> (r: String)
        requires
            n <= self@.found.len(),
            h > 0 ==> n < self@.found.len() && h <= self@.found[n as int].hits.len(),
        ensures
            r@ == self@.shown(n as nat, h as nat).pretty(),
    {
        let ghost v = self@.shown(n as nat, h as nat);
        let mut files = self.first_files(n);
        if h > 0 {
            let ghost before = files@;
            assert(self@.found[n as int] == self.found@[n as int]@);
            let file = self.found[n].to_json(h);
            files.push(file);
            assert(json::trees(files@) =~= json::trees(before).push(file.tree()));
        }
        assert(file_trees(v.found) =~= json::trees(files@));
        json::to_pretty(&self.wrap(files, true))
    }

    /// The answer: the results as JSON, as far as they have room.
    pub fn result(self) -> (r: String)
        ensures
            r@ == self@.result(),
            r@.len() <= MAX_ANSWER,
    {
        let whole = json::to_pretty(&self.to_json());
        if text::chars_of(&whole).len() <= MAX_ANSWER {
            return whole;
        }
        let ghost v = self@;
        let mut n: usize = 0;
        let mut best = self.print_shown(0, 0);
        while n < self.found.len()
            invariant
                n <= self.found@.len(),
                v == self@,
                v.files_shown(0) == v.files_shown(n as nat),
                best@ == v.shown(n as nat, 0).pretty(),
            ensures
                v.files_shown(0) == n,
            decreases self.found@.len() - n,
        {
            let more = self.print_shown(n + 1, 0);
            if text::chars_of(&more).len() > MAX_ANSWER {
                break;
            }
            best = more;
            n += 1;
        }
        let mut h: usize = 0;
        if n < self.found.len() {
            assert(v.found[n as int] == self.found@[n as int]@);
            while h < self.found[n].hits.len()
                invariant
                    n < self.found@.len(),
                    v == self@,
                    v.found[n as int] == self.found@[n as int]@,
                    h <= self.found@[n as int].hits@.len(),
                    v.hits_shown(n as nat, 0) == v.hits_shown(n as nat, h as nat),
                    best@ == v.shown(n as nat, h as nat).pretty(),
                ensures
                    v.hits_shown(n as nat, 0) == h,
                decreases self.found@[n as int].hits@.len() - h,
            {
                let more = self.print_shown(n, h + 1);
                if text::chars_of(&more).len() > MAX_ANSWER {
                    break;
                }
                best = more;
                h += 1;
            }
        }
        if text::chars_of(&best).len() <= MAX_ANSWER {
            best
        } else {
            proof {
                reveal_strlit("{\n  \"results\": [],\n  \"truncated\": true\n}");
            }
            "{\n  \"results\": [],\n  \"truncated\": true\n}".to_owned()
        }
    }
}

// ── Laws ──────────────────────────────────────────────────────────────────────

/// No file has more lines reported than may be.
proof fn plain_hits_bounded(marks: Seq<bool>, lines: Seq<Seq<char>>, at: int, room: nat)
    ensures
        plain_hits(marks, lines, at, room).len() <= room,
    decreases lines.len() - at,
{
    if at < lines.len() && room > 0 {
        plain_hits_bounded(marks, lines, at + 1, (room - 1) as nat);
        plain_hits_bounded(marks, lines, at + 1, room);
    }
}

/// Whether a list of results has at most `MAX_FILES` files with at most
/// `MAX_LINES` lines each, and at least one.
pub open spec fn within_bounds(found: Seq<Tree>) -> bool {
    &&& found.len() <= MAX_FILES
    &&& forall|i: int|
        0 <= i < found.len() ==> {
            let hits = (#[trigger] found[i]).field("matches"@);
            hits matches Tree::Array(a) && 0 < a.len() <= MAX_LINES
        }
}

/// A plain search reports at most `MAX_FILES` files, with one to `MAX_LINES` lines
/// each, whatever the walk comes across.
pub proof fn plain_search_is_bounded(s: PlainView, items: Seq<(WalkEntry, Option<Seq<char>>)>)
    requires
        within_bounds(s.found),
    ensures
        within_bounds(s.after_walk(items).found),
        s.after_walk(items).pattern == s.pattern,
    decreases items.len(),
{
    if items.len() > 0 {
        let (e, content) = items[0];
        match s.want(e) {
            Want::Stop => {},
            Want::Skip => {
                plain_search_is_bounded(s, items.drop_first());
            },
            Want::Read => match content {
                Some(c) => {
                    let lines = text::lines_of(c);
                    let hits = plain_hits(flags(s.pattern, lines), lines, 0, MAX_LINES as nat);
                    plain_hits_bounded(flags(s.pattern, lines), lines, 0, MAX_LINES as nat);
                    let next = s.after_text(e.display@, c);
                    if hits.len() > 0 {
                        let f = file_tree(e.display@, hits);
                        reveal_strlit("file");
                        reveal_strlit("matches");
                        let m = f->Object_0;
                        assert("file"@.len() != "matches"@.len());
                        assert(m.drop_first()[0] == ("matches"@, Tree::Array(hits)));
                        assert(json::member_index(m.drop_first(), "matches"@) == Some(0int));
                        assert(json::member_index(m, "matches"@) == Some(1int));
                        assert(f.field("matches"@) == Tree::Array(hits));
                        assert forall|i: int| 0 <= i < next.found.len() implies ({
                            let h = (#[trigger] next.found[i]).field("matches"@);
                            h matches Tree::Array(a) && 0 < a.len() <= MAX_LINES
                        }) by {
                            if i < s.found.len() {
                                assert(next.found[i] == s.found[i]);
                            }
                        }
                    }
                    plain_search_is_bounded(next, items.drop_first());
                },
                None => {
                    plain_search_is_bounded(s, items.drop_first());
                },
            },
        }
    }
}

/// A search with context reports no more files than it was asked for, and one that
/// has more than `MAX_RESULT_SIZE` bytes of results is marked as cut short, whatever
/// the walk comes across. Its answer has at most `MAX_ANSWER` characters.
pub proof fn context_search_is_bounded(s: ContextView, items: Seq<(WalkEntry, Option<Seq<char>>)>)
    requires
        s.found.len() <= s.max_files,
        s.full() ==> s.truncated,
    ensures
        s.after_walk(items).found.len() <= s.max_files,
        s.after_walk(items).full() ==> s.after_walk(items).truncated,
        s.after_walk(items).result().len() <= MAX_ANSWER,
    decreases items.len(),
{
    reveal_strlit("{\n  \"results\": [],\n  \"truncated\": true\n}");
    if items.len() > 0 {
        let (e, content) = items[0];
        match (s.want(e), content) {
            (Want::Read, Some(c)) => {
                let next = s.after_text(e.display@, c);
                if !next.full() {
                    context_search_is_bounded(next, items.drop_first());
                }
            },
            _ => {
                context_search_is_bounded(s.after_entry(e), items.drop_first());
            },
        }
    }
}

proof fn shown_counts(s: ContextView, n: nat, h: nat)
    ensures
        n <= s.found.len() ==> n <= s.files_shown(n) <= s.found.len(),
        n < s.found.len() && h <= s.found[n as int].hits.len() ==> h <= s.hits_shown(n, h) <= s.found[n as int].hits.len(),
        n >= s.found.len() ==> s.hits_shown(n, h) == h,
    decreases s.found.len() - n, s.found[n as int].hits.len() - h,
{
    if n < s.found.len() {
        shown_counts(s, n + 1, 0);
        if h < s.found[n as int].hits.len() {
            shown_counts(s, n, h + 1);
        }
    }
}

/// An answer shows what was found from its start: whole files, and after them perhaps the
/// first matches of one more. It leaves something out only where it says so.
pub proof fn answers_show_a_start(s: ContextView, i: int)
    requires
        0 <= i < s.best().found.len(),
    ensures
        s.best().found.len() <= s.found.len(),
        s.best().found[i].display == s.found[i].display,
        s.best().found[i].hits.is_prefix_of(s.found[i].hits),
        i < s.best().found.len() - 1 ==> s.best().found[i] == s.found[i],
        s.best().found != s.found ==> s.best().truncated,
        s.best().searched == s.searched && s.best().matches == s.matches && s.best().skipped == s.skipped,
{
    if !s.fits() {
        let n = s.files_shown(0);
        let h = s.hits_shown(n, 0);
        shown_counts(s, 0, 0);
        shown_counts(s, n, 0);
        let b = s.best();
        if i < n {
            assert(b.found[i] == s.found[i]);
        } else {
            assert(b.found[i].hits == s.found[i].hits.take(h as int));
            assert(s.found[i].hits.subrange(0, h as int) =~= b.found[i].hits);
        }
    }
    assert(s.found[i].hits.subrange(0, s.found[i].hits.len() as int) =~= s.found[i].hits);
}

// ── What a search reads and reports ───────────────────────────────────────────

/// A search that has room reads every file of notes and of plain text that is not larger
/// than ten mebibytes, and passes over everything else; one that has no room reads nothing.
pub proof fn searches_read_notes_and_texts(p: PlainView, c: ContextView, e: WalkEntry)
    ensures
        ({
            let is_text = e.is_file && e.size <= 10_485_760 && (e.extension@ == seq!['m', 'd'] || e.extension@ == seq![
                't',
                'x',
                't',
            ]);
            &&& p.want(e) == (if p.found.len() >= 50 {
                Want::Stop
            } else if is_text {
                Want::Read
            } else {
                Want::Skip
            })
            &&& c.want(e) == (if is_text && c.found.len() < c.max_files && c.size <= 8000 {
                Want::Read
            } else {
                Want::Skip
            })
        }),
{
    reveal_strlit("md");
    reveal_strlit("txt");
    assert("md"@ =~= seq!['m', 'd']);
    assert("txt"@ =~= seq!['t', 'x', 't']);
}

#[verifier::rlimit(50)]
#[verifier::spinoff_prover]
proof fn first_flagged(marks: Seq<bool>, lines: Seq<Seq<char>>, at: int, room: nat) -> (idx: Seq<int>)
    requires
        0 <= at <= lines.len(),
        marks.len() == lines.len(),
    ensures
        idx.len() <= room,
        plain_hits(marks, lines, at, room).len() == idx.len(),
        forall|k: int| 0 <= k < idx.len() ==> at <= #[trigger] idx[k] < lines.len() && marks[idx[k]],
        forall|k: int|
            0 <= k < idx.len() ==> #[trigger] plain_hits(marks, lines, at, room)[k] == plain_hit(idx[k], lines[idx[k]]),
        forall|j: int, k: int| 0 <= j < k < idx.len() ==> #[trigger] idx[j] < #[trigger] idx[k],
        forall|j: int|
            at <= j < lines.len() && #[trigger] marks[j] ==> idx.contains(j) || (idx.len() == room && (room == 0 || j
                > idx.last())),
    decreases lines.len() - at,
{
    if at >= lines.len() || room == 0 {
        Seq::empty()
    } else if marks[at] {
        let rest = first_flagged(marks, lines, at + 1, (room - 1) as nat);
        let idx = seq![at] + rest;
        let hits = plain_hits(marks, lines, at, room);
        let more = plain_hits(marks, lines, at + 1, (room - 1) as nat);
        assert(hits =~= seq![plain_hit(at, lines[at])] + more);
        assert forall|k: int| 0 <= k < idx.len() implies at <= #[trigger] idx[k] < lines.len() && marks[idx[k]] by {
            if k > 0 {
                assert(idx[k] == rest[k - 1]);
            }
        }
        assert forall|k: int| 0 <= k < idx.len() implies #[trigger] hits[k] == plain_hit(idx[k], lines[idx[k]]) by {
            if k > 0 {
                assert(idx[k] == rest[k - 1]);
                assert(hits[k] == more[k - 1]);
            }
        }
        assert forall|j: int, k: int| 0 <= j < k < idx.len() implies #[trigger] idx[j] < #[trigger] idx[k] by {
            assert(idx[k] == rest[k - 1]);
            if j > 0 {
                assert(idx[j] == rest[j - 1]);
            }
        }
        assert forall|j: int| at <= j < lines.len() && #[trigger] marks[j] implies idx.contains(j) || (idx.len() == room && (
        room == 0 || j > idx.last())) by {
            if j == at {
                assert(idx[0] == j);
            } else if rest.contains(j) {
                let k = choose|k: int| 0 <= k < rest.len() && rest[k] == j;
                assert(idx[k + 1] == j);
            } else if rest.len() > 0 {
                assert(idx.last() == rest.last());
            }
        }
        idx
    } else {
        first_flagged(marks, lines, at + 1, room)
    }
}

/// Of a file are reported the first lines that match, at most five, each with its number and
/// its text; a file without a line that matches is not reported. `idx` are those lines.
#[verifier::rlimit(50)]
#[verifier::spinoff_prover]
pub proof fn first_matches_are_reported(s: PlainView, display: Seq<char>, content: Seq<char>) -> (idx: Seq<int>)
    ensures
        ({
            let lines = text::lines_of(content);
            &&& idx.len() <= 5
            &&& forall|k: int| 0 <= k < idx.len() ==> 0 <= #[trigger] idx[k] < lines.len() && finds(s.pattern, lines[idx[k]])
            &&& forall|j: int, k: int| 0 <= j < k < idx.len() ==> #[trigger] idx[j] < #[trigger] idx[k]
            &&& forall|j: int|
                0 <= j < lines.len() && finds(s.pattern, #[trigger] lines[j]) ==> idx.contains(j) || (idx.len() == 5 && j
                    > idx[4])
            &&& s.after_text(display, content).pattern == s.pattern
            &&& idx.len() == 0 ==> s.after_text(display, content) == s
            &&& idx.len() > 0 ==> s.after_text(display, content).found == s.found.push(
                Tree::Object(
                    seq![
                        ("file"@, Tree::Text(display)),
                        (
                            "matches"@,
                            Tree::Array(
                                idx.map_values(
                                    |i: int|
                                        Tree::Object(
                                            seq![
                                                ("line"@, Tree::Number(json::number_of((i + 1) as u64))),
                                                ("text"@, Tree::Text(lines[i])),
                                            ],
                                        ),
                                ),
                            ),
                        ),
                    ],
                ),
            )
        }),
{
    let lines = text::lines_of(content);
    let marks = flags(s.pattern, lines);
    let idx = first_flagged(marks, lines, 0, 5);
    let hits = plain_hits(marks, lines, 0, 5);
    assert forall|j: int| 0 <= j < lines.len() && finds(s.pattern, #[trigger] lines[j]) implies idx.contains(j) || (idx.len()
        == 5 && j > idx[4]) by {
        assert(marks[j]);
    }
    let wanted = idx.map_values(
        |i: int|
            Tree::Object(
                seq![("line"@, Tree::Number(json::number_of((i + 1) as u64))), ("text"@, Tree::Text(lines[i]))],
            ),
    );
    assert(hits =~= wanted);
    idx
}

/// Whether an item of a walk is a file of notes or plain text that can be read, with a line
/// that matches.
pub open spec fn has_match(pattern: Seq<char>, item: (WalkEntry, Option<Seq<char>>)) -> bool {
    let (e, content) = item;
    &&& e.is_file && e.size <= 10_485_760
    &&& e.extension@ == seq!['m', 'd'] || e.extension@ == seq!['t', 'x', 't']
    &&& content matches Some(c) && exists|j: int|
        0 <= j < text::lines_of(c).len() && finds(pattern, #[trigger] text::lines_of(c)[j])
}

/// The files of a walk that have a line that matches.
pub open spec fn with_match(pattern: Seq<char>, items: Seq<(WalkEntry, Option<Seq<char>>)>) -> Seq<
    (WalkEntry, Option<Seq<char>>),
> {
    items.filter(|item: (WalkEntry, Option<Seq<char>>)| has_match(pattern, item))
}

proof fn with_match_from_the_front(pattern: Seq<char>, items: Seq<(WalkEntry, Option<Seq<char>>)>)
    requires
        items.len() > 0,
    ensures
        with_match(pattern, items) == (if has_match(pattern, items[0]) {
            seq![items[0]] + with_match(pattern, items.drop_first())
        } else {
            with_match(pattern, items.drop_first())
        }),
{
    let f = |item: (WalkEntry, Option<Seq<char>>)| has_match(pattern, item);
    let one = seq![items[0]];
    reveal_with_fuel(Seq::filter, 2);
    assert(one.drop_last() =~= Seq::empty());
    assert(one + items.drop_first() =~= items);
    Seq::filter_distributes_over_add(one, items.drop_first(), f);
    assert(one.filter(f) =~= (if has_match(pattern, items[0]) { one } else { Seq::empty() }));
    if !has_match(pattern, items[0]) {
        assert(one.filter(f) + with_match(pattern, items.drop_first()) =~= with_match(pattern, items.drop_first()));
    }
}

/// A plain search reports the files of the walk that have a line that matches, and no
/// others, in the order of the walk, until it has fifty: file `k` of those is what searching
/// it alone would report.
#[verifier::rlimit(50)]
#[verifier::spinoff_prover]
pub proof fn matching_files_are_reported(s: PlainView, items: Seq<(WalkEntry, Option<Seq<char>>)>)
    requires
        s.found.len() <= 50,
    ensures
        ({
            let all = with_match(s.pattern, items);
            let n = if s.found.len() + all.len() <= 50 { all.len() as int } else { 50 - s.found.len() };
            let found = s.after_walk(items).found;
            &&& found.len() == s.found.len() + n
            &&& forall|k: int| 0 <= k < s.found.len() ==> #[trigger] found[k] == s.found[k]
            &&& forall|k: int|
                0 <= k < n ==> (PlainView { pattern: s.pattern, found: seq![] }).after_text(
                    (#[trigger] all[k]).0.display@,
                    all[k].1->0,
                ).found == seq![found[s.found.len() + k]]
        }),
    decreases items.len(),
{
    let all = with_match(s.pattern, items);
    if items.len() == 0 {
        reveal(Seq::filter);
        assert(all =~= Seq::empty());
    } else {
        let (e, content) = items[0];
        let rest = items.drop_first();
        with_match_from_the_front(s.pattern, items);
        searches_read_notes_and_texts(s, fresh_search(s.pattern, 0, 0), e);
        let none = PlainView { pattern: s.pattern, found: seq![] };
        if s.found.len() >= 50 {
        } else {
            match (s.want(e), content) {
                (Want::Read, Some(c)) => {
                    let idx = first_matches_are_reported(s, e.display@, c);
                    let alone = first_matches_are_reported(none, e.display@, c);
                    let lines = text::lines_of(c);
                    let next = s.after_text(e.display@, c);
                    if has_match(s.pattern, items[0]) {
                        let j = choose|j: int| 0 <= j < lines.len() && finds(s.pattern, #[trigger] lines[j]);
                        assert(idx.len() > 0);
                        assert(next.found.len() == s.found.len() + 1);
                        assert(none.after_text(e.display@, c).found =~= seq![next.found[s.found.len() as int]]);
                        matching_files_are_reported(next, rest);
                        let more = with_match(s.pattern, rest);
                        assert(all =~= seq![items[0]] + more);
                        let n = if s.found.len() + all.len() <= 50 { all.len() as int } else { 50 - s.found.len() };
                        let found = s.after_walk(items).found;
                        assert forall|k: int| 0 <= k < n implies none.after_text(
                            (#[trigger] all[k]).0.display@,
                            all[k].1->0,
                        ).found == seq![found[s.found.len() + k]] by {
                            if k > 0 {
                                assert(all[k] == more[k - 1]);
                            }
                        }
                        assert forall|k: int| 0 <= k < s.found.len() implies #[trigger] found[k] == s.found[k] by {
                            assert(found[k] == next.found[k]);
                        }
                    } else {
                        if idx.len() > 0 {
                            assert(finds(s.pattern, lines[idx[0]]));
                        }
                        matching_files_are_reported(s, rest);
                    }
                },
                _ => {
                    matching_files_are_reported(s, rest);
                },
            }
        }
    }
}

/// The lines around a match are those right before it and right after it, as many as are
/// asked for and as there are.
pub proof fn matches_have_their_context(lines: Seq<Seq<char>>, i: int, context: nat)
    requires
        0 <= i < lines.len(),
    ensures
        ({
            let before = if context < i { context as int } else { i };
            let after = if context < lines.len() - i - 1 { context as int } else { lines.len() - i - 1 };
            context_hit(lines, i, context as int) == Tree::Object(
                seq![
                    ("line"@, Tree::Number(json::number_of((i + 1) as u64))),
                    ("text"@, Tree::Text(lines[i])),
                    (
                        "context_before"@,
                        Tree::Array(Seq::new(before as nat, |k: int| Tree::Text(lines[i - before + k]))),
                    ),
                    ("context_after"@, Tree::Array(Seq::new(after as nat, |k: int| Tree::Text(lines[i + 1 + k])))),
                ],
            )
        }),
{
    let before = if context < i { context as int } else { i };
    let after = if context < lines.len() - i - 1 { context as int } else { lines.len() - i - 1 };
    let hit = context_hit(lines, i, context as int)->Object_0;
    assert(hit[2].1->Array_0 =~= Seq::new(before as nat, |k: int| Tree::Text(lines[i - before + k])));
    assert(hit[3].1->Array_0 =~= Seq::new(after as nat, |k: int| Tree::Text(lines[i + 1 + k])));
}

proof fn all_flagged(marks: Seq<bool>, lines: Seq<Seq<char>>, context: int, n: nat) -> (idx: Seq<int>)
    requires
        n <= lines.len() == marks.len(),
    ensures
        context_hits(marks, lines, context, n).len() == idx.len(),
        forall|k: int| 0 <= k < idx.len() ==> 0 <= #[trigger] idx[k] < n && marks[idx[k]],
        forall|k: int|
            0 <= k < idx.len() ==> #[trigger] context_hits(marks, lines, context, n)[k] == context_hit(
                lines,
                idx[k],
                context,
            ),
        forall|j: int, k: int| 0 <= j < k < idx.len() ==> #[trigger] idx[j] < #[trigger] idx[k],
        forall|j: int| 0 <= j < n && #[trigger] marks[j] ==> idx.contains(j),
    decreases n,
{
    if n == 0 {
        Seq::empty()
    } else {
        let before = all_flagged(marks, lines, context, (n - 1) as nat);
        if marks[n - 1] {
            let idx = before.push(n - 1);
            assert forall|j: int| 0 <= j < n && #[trigger] marks[j] implies idx.contains(j) by {
                if j < n - 1 {
                    let k = choose|k: int| 0 <= k < before.len() && before[k] == j;
                    assert(idx[k] == j);
                } else {
                    assert(idx[before.len() as int] == j);
                }
            }
            idx
        } else {
            before
        }
    }
}

/// A search with context reports every line of a file that matches, in order and with the
/// lines around it; a file without such a line is not reported.
pub proof fn all_matches_are_reported(s: ContextView, display: Seq<char>, content: Seq<char>) -> (idx: Seq<int>)
    ensures
        ({
            let lines = text::lines_of(content);
            let next = s.after_text(display, content);
            &&& forall|k: int| 0 <= k < idx.len() ==> 0 <= #[trigger] idx[k] < lines.len() && finds(s.pattern, lines[idx[k]])
            &&& forall|j: int, k: int| 0 <= j < k < idx.len() ==> #[trigger] idx[j] < #[trigger] idx[k]
            &&& forall|j: int| 0 <= j < lines.len() && finds(s.pattern, #[trigger] lines[j]) ==> idx.contains(j)
            &&& idx.len() == 0 ==> next.found == s.found && next.size == s.size
            &&& idx.len() > 0 ==> next.found == s.found.push(
                FileView { display, hits: idx.map_values(|i: int| context_hit(lines, i, s.context as int)) },
            )
            &&& next.pattern == s.pattern && next.context == s.context && next.max_files == s.max_files
            &&& next.skipped == s.skipped
            &&& s.searched < u64::MAX ==> next.searched == s.searched + 1
            &&& s.matches + idx.len() <= u64::MAX ==> next.matches == s.matches + idx.len()
        }),
{
    let lines = text::lines_of(content);
    let marks = flags(s.pattern, lines);
    let idx = all_flagged(marks, lines, s.context as int, lines.len());
    let hits = context_hits(marks, lines, s.context as int, lines.len());
    assert forall|j: int| 0 <= j < lines.len() && finds(s.pattern, #[trigger] lines[j]) implies idx.contains(j) by {
        assert(marks[j]);
    }
    assert(hits =~= idx.map_values(|i: int| context_hit(lines, i, s.context as int)));
    idx
}

/// As long as a search with context has room for them, it reports each file of the walk that
/// has a line that matches, and no others, in the order of the walk.
#[verifier::rlimit(50)]
#[verifier::spinoff_prover]
pub proof fn matching_files_are_reported_with_context(s: ContextView, items: Seq<(WalkEntry, Option<Seq<char>>)>)
    requires
        s.found.len() + with_match(s.pattern, items).len() <= s.max_files,
        s.after_walk(items).size <= 8000,
        s.size <= 8000,
    ensures
        ({
            let all = with_match(s.pattern, items);
            let found = s.after_walk(items).found;
            &&& found.len() == s.found.len() + all.len()
            &&& forall|k: int| 0 <= k < s.found.len() ==> #[trigger] found[k] == s.found[k]
            &&& forall|k: int|
                0 <= k < all.len() ==> (ContextView { found: seq![], ..s }).after_text(
                    (#[trigger] all[k]).0.display@,
                    all[k].1->0,
                ).found == seq![found[s.found.len() + k]]
        }),
    decreases items.len(),
{
    let all = with_match(s.pattern, items);
    if items.len() == 0 {
        reveal(Seq::filter);
        assert(all =~= Seq::empty());
    } else {
        let (e, content) = items[0];
        let rest = items.drop_first();
        let more = with_match(s.pattern, rest);
        with_match_from_the_front(s.pattern, items);
        searches_read_notes_and_texts(PlainView { pattern: s.pattern, found: seq![] }, s, e);
        let none = ContextView { found: seq![], ..s };
        let found = s.after_walk(items).found;
        match (s.want(e), content) {
            (Want::Read, Some(c)) => {
                let idx = all_matches_are_reported(s, e.display@, c);
                let alone = all_matches_are_reported(none, e.display@, c);
                let lines = text::lines_of(c);
                let next = s.after_text(e.display@, c);
                same_after_text(next, s);
                if has_match(s.pattern, items[0]) {
                    let j = choose|j: int| 0 <= j < lines.len() && finds(s.pattern, #[trigger] lines[j]);
                    assert(idx.contains(j));
                    assert(next.found.len() == s.found.len() + 1);
                    assert(none.after_text(e.display@, c).found =~= seq![next.found[s.found.len() as int]]);
                    assert(all =~= seq![items[0]] + more);
                    assert(!next.full());
                    matching_files_are_reported_with_context(next, rest);
                    assert forall|k: int| 0 <= k < all.len() implies none.after_text(
                        (#[trigger] all[k]).0.display@,
                        all[k].1->0,
                    ).found == seq![found[s.found.len() + k]] by {
                        if k > 0 {
                            assert(all[k] == more[k - 1]);
                        }
                    }
                    assert forall|k: int| 0 <= k < s.found.len() implies #[trigger] found[k] == s.found[k] by {
                        assert(found[k] == next.found[k]);
                    }
                } else {
                    if idx.len() > 0 {
                        assert(finds(s.pattern, lines[idx[0]]));
                    }
                    assert(!next.full());
                    matching_files_are_reported_with_context(next, rest);
                    assert forall|k: int| 0 <= k < all.len() implies none.after_text(
                        (#[trigger] all[k]).0.display@,
                        all[k].1->0,
                    ).found == seq![found[s.found.len() + k]] by {
                        assert(all[k] == more[k]);
                    }
                }
            },
            _ => {
                let next = s.after_entry(e);
                same_after_text(next, s);
                if has_match(s.pattern, items[0]) {
                    assert(s.found.len() < s.max_files);
                }
                matching_files_are_reported_with_context(next, rest);
            },
        }
    }
}

/// What a file adds to the results depends on the pattern and the context alone.
proof fn same_after_text(a: ContextView, b: ContextView)
    requires
        a.pattern == b.pattern,
        a.context == b.context,
    ensures
        forall|display: Seq<char>, content: Seq<char>| #[trigger]
            (ContextView { found: seq![], ..a }).after_text(display, content).found == (ContextView { found: seq![], ..b })
                .after_text(display, content).found,
{
}

/// A pattern of more than 256 bytes is refused, and one that does not compile; any other is
/// taken.
pub proof fn long_patterns_are_refused(query: Seq<char>)
    ensures
        text::utf8_len(query) > 256 <==> query_error(query) is Some,
        query_error(query) matches Some(e) ==> e == ErrorView::Other("query pattern exceeds 256 characters"@),
        pattern_error(query) is Some <==> refusal(query, 1_000_000) is Some,
{
}

/// A file of notes or plain text that is not read is counted as skipped, and nothing else
/// is; the results are as before. Once the results have more than 8000 bytes of JSON the
/// search says that it was cut short.
pub proof fn skipped_files_are_counted(s: ContextView, e: WalkEntry, display: Seq<char>, content: Seq<char>)
    ensures
        ({
            let is_text = e.is_file && (e.extension@ == seq!['m', 'd'] || e.extension@ == seq!['t', 'x', 't']);
            let next = s.after_entry(e);
            &&& next == (ContextView { skipped: next.skipped, truncated: next.truncated, ..s })
            &&& !(is_text && s.want(e) != Want::Read) ==> next == s
            &&& is_text && s.want(e) != Want::Read && s.skipped < u64::MAX ==> next.skipped == s.skipped + 1
            &&& is_text && s.want(e) != Want::Read ==> next.truncated == (s.truncated || (s.found.len() < s.max_files && s.size
                > 8000))
        }),
        ({
            let next = s.after_text(display, content);
            &&& next.truncated == (s.truncated || next.size > 8000)
            &&& next.found.len() > s.found.len() && s.size + text::utf8_len(
                json::json_text(file_tree(display, next.found.last().hits).settled()),
            ) <= u64::MAX ==> next.size == s.size + text::utf8_len(
                json::json_text(file_tree(display, next.found.last().hits).settled()),
            )
        }),
{
    reveal_strlit("md");
    reveal_strlit("txt");
    assert("md"@ =~= seq!['m', 'd']);
    assert("txt"@ =~= seq!['t', 'x', 't']);
    searches_read_notes_and_texts(PlainView { pattern: s.pattern, found: seq![] }, s, e);
}

/// The results are a list of files with their matches; only those of a search that was cut
/// short tell so, and how many files it read, matches it found and files it passed over.
pub proof fn results_tell_when_they_are_cut(s: ContextView, i: int)
    ensures
        s.tree().field("results"@) == Tree::Array(file_trees(s.found)),
        0 <= i < s.found.len() ==> file_trees(s.found)[i] == Tree::Object(
            seq![("file"@, Tree::Text(s.found[i].display)), ("matches"@, Tree::Array(s.found[i].hits))],
        ),
        s.truncated ==> {
            &&& s.tree().field("truncated"@) == Tree::Bool(true)
            &&& s.tree().field("files_searched"@) == Tree::Number(json::number_of(s.searched))
            &&& s.tree().field("total_matches"@) == Tree::Number(json::number_of(s.matches))
            &&& s.tree().field("files_skipped"@) == Tree::Number(json::number_of(s.skipped))
        },
        !s.truncated ==> s.tree()->Object_0.len() == 1,
{
    let m = s.tree()->Object_0;
    reveal_strlit("results");
    reveal_strlit("truncated");
    reveal_strlit("files_searched");
    reveal_strlit("total_matches");
    reveal_strlit("files_skipped");
    json::member_index_is_first(m, "results"@);
    assert(m[0].0 == "results"@);
    assert("files_searched"@.len() == 14 && "files_skipped"@.len() == 13 && "total_matches"@.len() == 13);
    assert("files_skipped"@[0] == 'f' && "total_matches"@[0] == 't');
    if s.truncated {
        assert(m[1].0 == "truncated"@ && m[2].0 == "files_searched"@ && m[3].0 == "total_matches"@ && m[4].0
            == "files_skipped"@);
        json::member_index_is_first(m, "truncated"@);
        json::member_index_is_first(m, "files_searched"@);
        json::member_index_is_first(m, "total_matches"@);
        json::member_index_is_first(m, "files_skipped"@);
    }
}

proof fn no_more_fits(s: ContextView, n: nat, h: nat)
    ensures
        s.files_shown(n) < s.found.len() ==> !s.shown(s.files_shown(n) + 1, 0).fits(),
        n < s.found.len() && s.hits_shown(n, h) < s.found[n as int].hits.len() ==> !s.shown(n, s.hits_shown(n, h) + 1).fits(),
    decreases s.found.len() - n, s.found[n as int].hits.len() - h,
{
    if n < s.found.len() {
        no_more_fits(s, n + 1, 0);
        if h < s.found[n as int].hits.len() {
            no_more_fits(s, n, h + 1);
        }
    }
}

/// An answer that has room for all results holds them all, and any other as many as it has room
/// for: with one more match of the next file it would be too long.
pub proof fn answers_hold_as_much_as_they_can(s: ContextView)
    ensures
        s.pretty().len() <= 8000 ==> s.result() == s.pretty(),
        s.pretty().len() > 8000 ==> exists|n: nat, h: nat|
            {
                &&& n <= s.found.len()
                &&& s.best() == #[trigger] s.shown(n, h)
                &&& n < s.found.len() ==> s.shown(n + 1, 0).pretty().len() > 8000
                &&& n < s.found.len() && h < s.found[n as int].hits.len() ==> s.shown(n, h + 1).pretty().len() > 8000
            },
{
    if !s.fits() {
        let n = s.files_shown(0);
        let h = s.hits_shown(n, 0);
        shown_counts(s, 0, 0);
        no_more_fits(s, 0, 0);
        no_more_fits(s, n, 0);
        assert(s.best() == s.shown(n, h));
    }
}

} // verus!
