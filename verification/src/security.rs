//! Which paths a client may reach: those inside the root.
//!
//! What is on the disk is asked of the host, one step after the other.

use std::path::PathBuf;

use vstd::prelude::*;

use crate::error::AppError;
use crate::error::ErrorView;
use crate::host::Resolved;
use crate::text;
use crate::text::Chars;

verus! {

/// How many symbolic links are followed.
pub const MAX_SYMLINK_DEPTH: u32 = 40;

// ── Symbolic links ────────────────────────────────────────────────────────────

/// The symbolic links of a file system.
pub struct Links {
    /// What a path points to, where it is a symbolic link: another path, or the
    /// message of an error.
    pub target: spec_fn(PathBuf) -> Option<Result<PathBuf, Seq<char>>>,
    /// A path as text.
    pub shown: spec_fn(PathBuf) -> Seq<char>,
}

/// What is wrong with the symbolic links from `path` on, when `depth` were followed
/// before.
pub open spec fn links_error(fs: Links, path: PathBuf, depth: nat) -> Option<ErrorView>
    decreases MAX_SYMLINK_DEPTH - depth,
{
    match (fs.target)(path) {
        None => None,
        Some(target) => if depth >= MAX_SYMLINK_DEPTH {
            Some(ErrorView::SymlinkLoop("depth > "@ + text::decimal(MAX_SYMLINK_DEPTH as nat) + " at "@ + (fs.shown)(path)))
        } else {
            match target {
                Ok(next) => links_error(fs, next, depth + 1),
                Err(e) => Some(ErrorView::Io(e)),
            }
        },
    }
}

/// What the check of symbolic links needs next.
pub enum LinkStep {
    /// Whether `path` is a symbolic link, and the path as text.
    Look { path: PathBuf, depth: u32 },
    /// What the symbolic link `path` points to.
    Follow { path: PathBuf, depth: u32 },
    Done(Option<AppError>),
}

impl LinkStep {
    /// What comes of this step on a file system.
    pub open spec fn value(self, fs: Links) -> Option<ErrorView> {
        match self {
            LinkStep::Look { path, depth } => links_error(fs, path, depth as nat),
            LinkStep::Follow { path, depth } => match (fs.target)(path) {
                Some(Ok(next)) => links_error(fs, next, depth as nat),
                Some(Err(e)) => Some(ErrorView::Io(e)),
                None => None,
            },
            LinkStep::Done(Some(e)) => Some(e@),
            LinkStep::Done(None) => None,
        }
    }

    /// Whether no more links were followed than may be.
    pub open spec fn bounded(self) -> bool {
        match self {
            LinkStep::Look { depth, .. } => depth <= MAX_SYMLINK_DEPTH,
            LinkStep::Follow { depth, .. } => depth <= MAX_SYMLINK_DEPTH,
            LinkStep::Done(_) => true,
        }
    }
}

/// Starts the check of the symbolic links from `path` on.
pub fn check_symlink_depth(path: PathBuf) -> (r: LinkStep)
    ensures
        forall|fs: Links| #[trigger] r.value(fs) == links_error(fs, path, 0),
        r.bounded(),
        r == (LinkStep::Look { path, depth: 0 }),
{
    LinkStep::Look { path, depth: 0 }
}

/// Goes on after a path was looked at.
pub fn after_look(path: PathBuf, depth: u32, is_link: bool, shown: &str) -> (r: LinkStep)
    ensures
        forall|fs: Links|
            ((fs.target)(path) is Some <==> is_link) && (fs.shown)(path) == shown@ ==> #[trigger] r.value(fs)
                == links_error(fs, path, depth as nat),
        r.bounded(),
{
    if !is_link {
        LinkStep::Done(None)
    } else if depth >= MAX_SYMLINK_DEPTH {
        let mut msg = text::cat3("depth > ", &text::to_decimal(MAX_SYMLINK_DEPTH as u64), " at ");
        msg.append(shown);
        LinkStep::Done(Some(AppError::SymlinkLoop(msg)))
    } else {
        LinkStep::Follow { path, depth: depth + 1 }
    }
}

/// Goes on after a symbolic link was read.
pub fn after_follow(path: PathBuf, depth: u32, target: Result<PathBuf, String>) -> (r: LinkStep)
    ensures
        forall|fs: Links|
            (fs.target)(path) == Some(
                match target {
                    Ok(p) => Ok::<PathBuf, Seq<char>>(p),
                    Err(e) => Err(e@),
                },
            ) ==> #[trigger] r.value(fs) == (LinkStep::Follow { path, depth }).value(fs),
        depth <= MAX_SYMLINK_DEPTH ==> r.bounded(),
{
    match target {
        Ok(next) => LinkStep::Look { path: next, depth },
        Err(e) => LinkStep::Done(Some(AppError::Io(e))),
    }
}

// ── Paths ─────────────────────────────────────────────────────────────────────

/// The components of a path, as bytes.
pub open spec fn parts(v: Seq<Vec<u8>>) -> Seq<Seq<u8>> {
    v.map_values(|p: Vec<u8>| p@)
}

/// Whether a path lies in a directory, or is the directory.
pub open spec fn within(path: Seq<Seq<u8>>, dir: Seq<Seq<u8>>) -> bool {
    dir.is_prefix_of(path)
}

fn same_bytes(a: &Vec<u8>, b: &Vec<u8>) -> (r: bool)
    ensures
        r == (a@ == b@),
{
    if a.len() != b.len() {
        return false;
    }
    let mut i: usize = 0;
    while i < a.len()
        invariant
            i <= a@.len() == b@.len(),
            forall|j: int| 0 <= j < i ==> a@[j] == b@[j],
        decreases a@.len() - i,
    {
        if a[i] != b[i] {
            return false;
        }
        i += 1;
    }
    assert(a@ =~= b@);
    true
}

/// Whether a path lies in a directory, or is the directory: its first components
/// are those of the directory.
pub fn starts_with(path: &Vec<Vec<u8>>, dir: &Vec<Vec<u8>>) -> (r: bool)
    ensures
        r == within(parts(path@), parts(dir@)),
{
    if dir.len() > path.len() {
        return false;
    }
    let mut i: usize = 0;
    while i < dir.len()
        invariant
            i <= dir@.len() <= path@.len(),
            forall|j: int| 0 <= j < i ==> (#[trigger] path@[j])@ == dir@[j]@,
        decreases dir@.len() - i,
    {
        if !same_bytes(&path[i], &dir[i]) {
            proof {
                let n = parts(dir@).len() as int;
                assert(parts(path@).subrange(0, n)[i as int] == path@[i as int]@);
                assert(parts(dir@)[i as int] == dir@[i as int]@);
            }
            return false;
        }
        i += 1;
    }
    assert(parts(dir@) =~= parts(path@).subrange(0, dir@.len() as int));
    true
}

/// What a client may ask for.
#[derive(Clone, Copy, PartialEq, Eq, Structural)]
pub enum Access {
    /// A path that is there.
    Existing,
    /// A path that may be there, or may be made.
    Writable,
}

/// A candidate in its canonical form. Of a path that is not there, the part that is
/// there is canonical, and `missing` are the components after it.
pub struct Canonical {
    pub root: Vec<Vec<u8>>,
    pub path: Vec<Vec<u8>>,
    pub missing: Vec<Vec<u8>>,
    pub resolved: Resolved,
}

/// The component that leads to the parent directory.
pub open spec fn dot_dot() -> Seq<u8> {
    seq![46u8, 46u8]
}

/// Whether a candidate stays inside the root: what is there of it lies in the root,
/// and what is not there does not lead back out.
pub open spec fn stays_inside(c: Canonical) -> bool {
    within(parts(c.path@), parts(c.root@)) && !parts(c.missing@).contains(dot_dot())
}

fn has_dot_dot(v: &Vec<Vec<u8>>) -> (r: bool)
    ensures
        r == parts(v@).contains(dot_dot()),
{
    let mut i: usize = 0;
    while i < v.len()
        invariant
            i <= v@.len(),
            forall|j: int| 0 <= j < i ==> (#[trigger] v@[j])@ != dot_dot(),
        decreases v@.len() - i,
    {
        let p = &v[i];
        if p.len() == 2 && p[0] == 46 && p[1] == 46 {
            assert(p@ =~= dot_dot());
            assert(parts(v@)[i as int] == dot_dot());
            return true;
        }
        assert(v@[i as int]@ != dot_dot()) by {
            if v@[i as int]@ == dot_dot() {
                assert(v@[i as int]@[0] == 46u8);
                assert(v@[i as int]@[1] == 46u8);
                assert(v@[i as int]@.len() == 2);
            }
        }
        i += 1;
    }
    proof {
        if parts(v@).contains(dot_dot()) {
            let j = choose|j: int| 0 <= j < v@.len() && parts(v@)[j] == dot_dot();
            assert(v@[j]@ == dot_dot());
        }
    }
    false
}

/// What the check of a path needs next.
pub enum PathStep {
    /// The root joined with `relative`; the root itself where that is empty.
    Join { relative: String, requested: String, access: Access },
    /// The symbolic links from the candidate on.
    Links { step: LinkStep, candidate: PathBuf, requested: String, access: Access },
    /// The root and the candidate in their canonical forms.
    Canonicalize { candidate: PathBuf, requested: String, access: Access },
    Done(Result<Resolved, AppError>),
}

/// A requested path without the separators that it starts with.
pub open spec fn relative_path(requested: Seq<char>) -> Seq<char> {
    text::trim_front(requested, Chars::In(seq!['/', '\\']))
}

/// A requested path without the separators that it starts with.
pub fn strip_separators(requested: &str) -> (r: String)
    ensures
        r@ == relative_path(requested@),
{
    text::trim_start_matches(requested, &text::either('/', '\\'))
}

/// Why a requested path is refused at once; `None` where it is not.
pub open spec fn start_refusal(requested: Seq<char>) -> Option<ErrorView> {
    if requested.contains('\0') {
        Some(ErrorView::PathTraversal("null byte in path"@))
    } else {
        None
    }
}

/// Starts the check of a requested path: it counts from the root, whatever
/// separators it starts with.
pub fn check_path(requested: &str, access: Access) -> (r: PathStep)
    ensures
        if let Some(refusal) = start_refusal(requested@) {
            r matches PathStep::Done(Err(e)) && e@ == refusal
        } else {
            r matches PathStep::Join { relative, requested: q, access: a } && relative@ == relative_path(
                requested@,
            ) && q@ == requested@ && a == access
        },
{
    if text::contains_char(requested, '\0') {
        return PathStep::Done(Err(AppError::PathTraversal("null byte in path".to_owned())));
    }
    PathStep::Join { relative: strip_separators(requested), requested: requested.to_owned(), access }
}

/// Starts the check of a path that has to be there.
pub fn validate_path(requested: &str) -> (r: PathStep)
    ensures
        if let Some(refusal) = start_refusal(requested@) {
            r matches PathStep::Done(Err(e)) && e@ == refusal
        } else {
            r matches PathStep::Join { relative, requested: q, access: a } && relative@ == relative_path(
                requested@,
            ) && q@ == requested@ && a == Access::Existing
        },
{
    check_path(requested, Access::Existing)
}

/// Starts the check of a path that may be written.
pub fn validate_writable_path(requested: &str) -> (r: PathStep)
    ensures
        if let Some(refusal) = start_refusal(requested@) {
            r matches PathStep::Done(Err(e)) && e@ == refusal
        } else {
            r matches PathStep::Join { relative, requested: q, access: a } && relative@ == relative_path(
                requested@,
            ) && q@ == requested@ && a == Access::Writable
        },
{
    check_path(requested, Access::Writable)
}

/// Goes on after the candidate was joined: its symbolic links are checked first.
pub fn after_join(candidate: PathBuf, requested: String, access: Access) -> (r: PathStep)
    ensures
        r == (PathStep::Links {
            step: LinkStep::Look { path: candidate, depth: 0 },
            candidate,
            requested,
            access,
        }),
{
    PathStep::Links { step: check_symlink_depth(candidate.clone()), candidate, requested, access }
}

/// Goes on with the check of symbolic links: where it is done, the canonical forms
/// are next, or the path is refused.
pub fn after_links(step: LinkStep, candidate: PathBuf, requested: String, access: Access) -> (r: PathStep)
    ensures
        match step {
            LinkStep::Done(Some(e)) => r matches PathStep::Done(Err(f)) && f@ == e@,
            LinkStep::Done(None) => r == (PathStep::Canonicalize { candidate, requested, access }),
            _ => r == (PathStep::Links { step, candidate, requested, access }),
        },
{
    match step {
        LinkStep::Done(Some(e)) => PathStep::Done(Err(e)),
        LinkStep::Done(None) => PathStep::Canonicalize { candidate, requested, access },
        _ => PathStep::Links { step, candidate, requested, access },
    }
}

/// The decision on a path.
pub open spec fn decision(requested: Seq<char>, c: Result<Canonical, Seq<char>>) -> Result<Resolved, ErrorView> {
    match c {
        Err(e) => Err(ErrorView::Io(e)),
        Ok(c) => if stays_inside(c) {
            Ok(c.resolved)
        } else {
            Err(ErrorView::PathTraversal("path escapes root: "@ + requested))
        },
    }
}

/// Decides on a path, once its canonical form is known: it has to lie in the root.
pub fn after_canonical(requested: &str, c: Result<Canonical, String>) -> (r: Result<Resolved, AppError>)
    ensures
        match r {
            Ok(at) => c matches Ok(c) && decision(requested@, Ok(c)) == Ok::<Resolved, ErrorView>(at),
            Err(e) => decision(
                requested@,
                match c {
                    Ok(c) => Ok(c),
                    Err(m) => Err(m@),
                },
            ) == Err::<Resolved, ErrorView>(e@),
        },
{
    match c {
        Err(e) => Err(AppError::Io(e)),
        Ok(c) => if starts_with(&c.path, &c.root) && !has_dot_dot(&c.missing) {
            Ok(c.resolved)
        } else {
            Err(AppError::PathTraversal(text::cat("path escapes root: ", requested)))
        },
    }
}

// ── Laws ──────────────────────────────────────────────────────────────────────

/// A path that is let through lies in the root.
pub proof fn allowed_paths_lie_in_the_root(requested: Seq<char>, c: Canonical, at: Resolved)
    requires
        decision(requested, Ok(c)) == Ok::<Resolved, ErrorView>(at),
    ensures
        at == c.resolved,
        within(parts(c.path@), parts(c.root@)),
        within(parts(c.path@) + parts(c.missing@), parts(c.root@)),
{
    let p = parts(c.path@);
    let root = parts(c.root@);
    let n = root.len() as int;
    assert((p + parts(c.missing@)).subrange(0, n) =~= p.subrange(0, n));
}

/// Being inside a directory goes on from directory to directory.
pub proof fn within_is_transitive(path: Seq<Seq<u8>>, dir: Seq<Seq<u8>>, root: Seq<Seq<u8>>)
    requires
        within(path, dir),
        within(dir, root),
    ensures
        within(path, root),
{
    let n = root.len() as int;
    assert(path.subrange(0, n) =~= path.subrange(0, dir.len() as int).subrange(0, n));
}

/// A chain of more than `MAX_SYMLINK_DEPTH` symbolic links is refused: so is one
/// that never ends.
pub proof fn endless_links_are_refused(fs: Links, path: PathBuf, depth: nat)
    requires
        forall|p: PathBuf| (#[trigger] (fs.target)(p)) is Some,
    ensures
        links_error(fs, path, depth) is Some,
    decreases MAX_SYMLINK_DEPTH - depth,
{
    if depth < MAX_SYMLINK_DEPTH {
        if let Some(Ok(next)) = (fs.target)(path) {
            endless_links_are_refused(fs, next, depth + 1);
        }
    }
}

/// A path is let through where its components start with those of the root, one by one, and
/// none of the components that are not there yet is `..`; and not otherwise.
pub proof fn paths_inside_the_root_are_let_through(requested: Seq<char>, c: Canonical, e: Seq<char>)
    ensures
        decision(requested, Ok(c)) == (if c.path@.len() >= c.root@.len() && (forall|i: int|
            0 <= i < c.root@.len() ==> (#[trigger] c.root@[i])@ == c.path@[i]@) && (forall|i: int|
            0 <= i < c.missing@.len() ==> (#[trigger] c.missing@[i])@ != seq![46u8, 46u8]) {
            Ok::<Resolved, ErrorView>(c.resolved)
        } else {
            Err(ErrorView::PathTraversal("path escapes root: "@ + requested))
        }),
        decision(requested, Err(e)) == Err::<Resolved, ErrorView>(ErrorView::Io(e)),
{
    let p = parts(c.path@);
    let r = parts(c.root@);
    let m = parts(c.missing@);
    assert(forall|i: int| 0 <= i < c.root@.len() ==> r[i] == (#[trigger] c.root@[i])@);
    assert(forall|i: int| 0 <= i < c.path@.len() ==> p[i] == (#[trigger] c.path@[i])@);
    if within(p, r) {
        assert forall|i: int| 0 <= i < c.root@.len() implies (#[trigger] c.root@[i])@ == c.path@[i]@ by {
            assert(p.subrange(0, r.len() as int)[i] == p[i]);
            assert(r[i] == p[i]);
        }
    }
    if c.path@.len() >= c.root@.len() && forall|i: int|
        0 <= i < c.root@.len() ==> (#[trigger] c.root@[i])@ == c.path@[i]@ {
        assert forall|i: int| 0 <= i < r.len() implies p.subrange(0, r.len() as int)[i] == r[i] by {
            assert(c.root@[i]@ == c.path@[i]@);
        }
        assert(p.subrange(0, r.len() as int) =~= r);
    }
    if m.contains(dot_dot()) {
        let j = choose|j: int| 0 <= j < m.len() && m[j] == dot_dot();
        assert(c.missing@[j]@ == seq![46u8, 46u8]);
    }
    if exists|i: int| 0 <= i < c.missing@.len() && (#[trigger] c.missing@[i])@ == seq![46u8, 46u8] {
        let i = choose|i: int| 0 <= i < c.missing@.len() && (#[trigger] c.missing@[i])@ == seq![46u8, 46u8];
        assert(m[i] == dot_dot());
    }
}

/// A path counts from the root, whatever slashes and backslashes it starts with; the rest of
/// it stays as it is.
pub proof fn paths_count_from_the_root(seps: Seq<char>, rest: Seq<char>)
    requires
        forall|i: int| 0 <= i < seps.len() ==> #[trigger] seps[i] == '/' || seps[i] == '\\',
        rest.len() > 0 ==> rest[0] != '/' && rest[0] != '\\',
    ensures
        relative_path(seps + rest) == rest,
{
    let both = seq!['/', '\\'];
    let k = Chars::In(both);
    assert(both[0] == '/' && both[1] == '\\');
    assert forall|i: int| 0 <= i < seps.len() implies k.has(#[trigger] seps[i]) by {}
    if rest.len() > 0 && both.contains(rest[0]) {
        let i = choose|i: int| 0 <= i < 2 && both[i] == rest[0];
    }
    text::front_is_trimmed(seps, rest, k);
}

/// Up to forty symbolic links after one another are followed, and where they lead to something
/// that is no link there is nothing wrong with them; more than that are refused. `chain` are
/// the paths that they lead over.
pub proof fn forty_links_are_followed(fs: Links, chain: Seq<PathBuf>, depth: nat)
    requires
        chain.len() > 0,
        depth <= 40,
        forall|i: int| 0 <= i < chain.len() - 1 ==> (fs.target)(#[trigger] chain[i]) == Some(
            Ok::<PathBuf, Seq<char>>(chain[i + 1]),
        ),
        (fs.target)(chain.last()) is None,
    ensures
        links_error(fs, chain[0], depth) is None <==> depth + chain.len() - 1 <= 40,
        links_error(fs, chain[0], depth) matches Some(e) ==> e is SymlinkLoop,
    decreases chain.len(),
{
    if chain.len() > 1 {
        assert((fs.target)(chain[0]) == Some(Ok::<PathBuf, Seq<char>>(chain[1])));
        if depth < 40 {
            let rest = chain.drop_first();
            assert(rest.last() == chain.last());
            assert forall|i: int| 0 <= i < rest.len() - 1 implies (fs.target)(#[trigger] rest[i]) == Some(
                Ok::<PathBuf, Seq<char>>(rest[i + 1]),
            ) by {
                assert(rest[i] == chain[i + 1]);
            }
            forty_links_are_followed(fs, rest, depth + 1);
        }
    }
}

/// A path with a null character in it is refused at once, and no other is.
pub proof fn null_characters_are_refused(a: Seq<char>, b: Seq<char>, s: Seq<char>)
    requires
        forall|i: int| 0 <= i < s.len() ==> s[i] != '\0',
    ensures
        start_refusal(a + seq!['\0'] + b) == Some(ErrorView::PathTraversal("null byte in path"@)),
        start_refusal(s) is None,
{
    assert((a + seq!['\0'] + b)[a.len() as int] == '\0');
}

} // verus!
