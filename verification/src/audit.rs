//! The record of calls: the latest ones in memory, and when the log file is
//! rotated.

use std::collections::VecDeque;
use std::path::PathBuf;

use vstd::prelude::*;

use crate::error::AppError;
use crate::error::ErrorView;
use crate::models::{AuditEntry, AuditEntryView, AuditResult, AuditResultView};
use crate::sorting;
use crate::text;

verus! {

/// How many entries are kept in memory.
pub const RING_CAPACITY: usize = 500;

/// The size up to which the log file may grow: 5 MB.
pub const MAX_LOG_SIZE: u64 = 5 * 1024 * 1024;

/// After how many entries the size of the log file is looked at.
pub const CHECK_EVERY: usize = 100;

/// How many entries a user sees, where no number is asked for.
pub const DEFAULT_LIMIT: usize = 200;

/// The record of calls.
pub struct AuditLog {
    ring: VecDeque<AuditEntry>,
    log_path: PathBuf,
    append_count: usize,
}

/// What the record of calls is, mathematically: the entries in memory, the oldest
/// first, and how many were appended.
pub struct AuditLogView {
    pub ring: Seq<AuditEntryView>,
    pub log_path: PathBuf,
    pub append_count: usize,
}

impl View for AuditLog {
    type V = AuditLogView;

    closed spec fn view(&self) -> AuditLogView {
        AuditLogView {
            ring: sorting::views(self.ring@),
            log_path: self.log_path,
            append_count: self.append_count,
        }
    }
}

/// The ring after an entry came in: a full one loses its oldest entry.
pub open spec fn pushed(ring: Seq<AuditEntryView>, e: AuditEntryView) -> Seq<AuditEntryView> {
    if ring.len() >= RING_CAPACITY {
        ring.drop_first().push(e)
    } else {
        ring.push(e)
    }
}

/// The latest entries, at most `limit` of them, the latest first.
pub open spec fn latest(ring: Seq<AuditEntryView>, limit: int) -> Seq<AuditEntryView> {
    let all = ring.reverse();
    if all.len() <= limit {
        all
    } else {
        all.take(limit)
    }
}

/// Whether the size of the log file is looked at, after so many entries.
pub open spec fn looks_at_size(count: usize) -> bool {
    count % CHECK_EVERY == 0
}

/// One more than `n`; zero after the largest number.
pub open spec fn next_count(n: usize) -> usize {
    if n == usize::MAX {
        0
    } else {
        (n + 1) as usize
    }
}

impl AuditLog {
    /// An empty record, whose log file is at `log_path`.
    pub fn new(log_path: PathBuf) -> (r: AuditLog)
        ensures
            r@.ring == Seq::<AuditEntryView>::empty(),
            r@.log_path == log_path,
            r@.append_count == 0,
    {
        let r = AuditLog { ring: VecDeque::new(), log_path, append_count: 0 };
        assert(r@.ring =~= Seq::<AuditEntryView>::empty());
        r
    }

    /// Where the log file is.
    pub fn log_path(&self) -> (r: &PathBuf)
        ensures
            *r == self@.log_path,
    {
        &self.log_path
    }

    /// How many entries were appended.
    pub fn append_count(&self) -> (r: usize)
        ensures
            r == self@.append_count,
    {
        self.append_count
    }

    /// Appends an entry. Tells whether the size of the log file is to be looked at.
    pub fn append(&mut self, entry: AuditEntry) -> (r: bool)
        ensures
            final(self)@.ring == pushed(old(self)@.ring, entry@),
            final(self)@.log_path == old(self)@.log_path,
            final(self)@.append_count == next_count(old(self)@.append_count),
            r == looks_at_size(old(self)@.append_count),
    {
        let ghost before = self.ring@;
        if self.ring.len() >= RING_CAPACITY {
            let _ = self.ring.pop_front();
            assert(sorting::views(self.ring@) =~= sorting::views(before).drop_first());
        }
        let ghost room = self.ring@;
        self.ring.push_back(entry);
        assert(sorting::views(self.ring@) =~= sorting::views(room).push(entry@));
        let prev: usize = self.append_count;
        self.append_count = if prev == usize::MAX {
            0
        } else {
            prev + 1
        };
        prev % CHECK_EVERY == 0
    }

    /// The latest entries, at most `limit` of them, the latest first.
    pub fn recent(&self, limit: usize) -> (r: Vec<AuditEntry>)
        ensures
            sorting::views(r@) == latest(self@.ring, limit as int),
    {
        let n: usize = self.ring.len();
        let mut out: Vec<AuditEntry> = Vec::new();
        let mut i: usize = 0;
        while i < n && i < limit
            invariant
                n == self.ring@.len(),
                i <= n,
                i <= limit,
                out@.len() == i,
                forall|k: int| 0 <= k < i ==> (#[trigger] out@[k])@ == self.ring@[n - 1 - k]@,
            decreases n - i,
        {
            out.push(self.ring[n - 1 - i].copy());
            i += 1;
        }
        assert(sorting::views(out@) =~= latest(self@.ring, limit as int));
        out
    }
}

// ── Rotation ──────────────────────────────────────────────────────────────────

/// Whether a log file of this size is rotated.
pub fn needs_rotation(size: u64) -> (r: bool)
    ensures
        r == (size > MAX_LOG_SIZE),
{
    size > MAX_LOG_SIZE
}

/// A log file: the current one, or an earlier one by its number.
#[derive(Clone, Copy, Debug, PartialEq, Eq, Structural)]
pub enum LogFile {
    Current,
    Rotated(u32),
}

/// A step of the rotation.
#[derive(Clone, Copy, Debug, PartialEq, Eq, Structural)]
pub enum Rotation {
    Remove(LogFile),
    Rename { from: LogFile, to: LogFile },
}

/// The steps of the rotation: the second goes, the first becomes the second, the
/// current one the first.
pub open spec fn rotation() -> Seq<Rotation> {
    seq![
        Rotation::Remove(LogFile::Rotated(2)),
        Rotation::Rename { from: LogFile::Rotated(1), to: LogFile::Rotated(2) },
        Rotation::Rename { from: LogFile::Current, to: LogFile::Rotated(1) },
    ]
}

/// The steps that a log file of this size calls for.
pub fn maybe_rotate(size: u64) -> (r: Vec<Rotation>)
    ensures
        r@ == (if size > MAX_LOG_SIZE {
            rotation()
        } else {
            seq![]
        }),
{
    if !needs_rotation(size) {
        return Vec::new();
    }
    let r = vec![
        Rotation::Remove(LogFile::Rotated(2)),
        Rotation::Rename { from: LogFile::Rotated(1), to: LogFile::Rotated(2) },
        Rotation::Rename { from: LogFile::Current, to: LogFile::Rotated(1) },
    ];
    assert(r@ =~= rotation());
    r
}

/// The name of an earlier log file, from the stem and the extension of the current
/// one.
pub open spec fn name_of_rotated(stem: Seq<char>, extension: Seq<char>, n: nat) -> Seq<char> {
    stem + "."@ + text::decimal(n) + "."@ + extension
}

/// The name of an earlier log file, from the stem and the extension of the current
/// one.
pub fn rotated_name(stem: &str, extension: &str, n: u32) -> (r: String)
    ensures
        r@ == name_of_rotated(stem@, extension@, n as nat),
{
    let mut s = text::cat3(stem, ".", &text::to_decimal(n as u64));
    s.append(".");
    s.append(extension);
    s
}

// ── What came of a call ───────────────────────────────────────────────────────

/// What came of a call: an attempt to leave the root, or to do what is not allowed,
/// was denied.
pub open spec fn outcome(r: Result<Seq<char>, ErrorView>) -> AuditResultView {
    match r {
        Ok(_) => AuditResultView::Success,
        Err(e) => match e {
            ErrorView::PathTraversal(_) => AuditResultView::Denied(e.message()),
            ErrorView::OperationNotPermitted(_) => AuditResultView::Denied(e.message()),
            _ => AuditResultView::Error(e.message()),
        },
    }
}

/// What came of a call.
pub fn classify(r: &Result<String, AppError>) -> (a: AuditResult)
    ensures
        a@ == outcome(
            match *r {
                Ok(s) => Ok(s@),
                Err(e) => Err(e@),
            },
        ),
{
    match r {
        Ok(_) => AuditResult::Success,
        Err(e) => {
            let message = e.message();
            match e {
                AppError::PathTraversal(_) => AuditResult::Denied(message),
                AppError::OperationNotPermitted(_) => AuditResult::Denied(message),
                _ => AuditResult::Error(message),
            }
        },
    }
}

// ── Laws ──────────────────────────────────────────────────────────────────────

/// The entries in memory after a number of calls.
pub open spec fn pushed_all(ring: Seq<AuditEntryView>, es: Seq<AuditEntryView>) -> Seq<AuditEntryView>
    decreases es.len(),
{
    if es.len() == 0 {
        ring
    } else {
        pushed(pushed_all(ring, es.drop_last()), es.last())
    }
}

/// However many entries come in, memory holds the last `RING_CAPACITY` of them, or
/// all where they are fewer.
pub proof fn ring_holds_the_last_entries(es: Seq<AuditEntryView>)
    ensures
        pushed_all(seq![], es) == (if es.len() > RING_CAPACITY {
            es.skip(es.len() - RING_CAPACITY)
        } else {
            es
        }),
        pushed_all(seq![], es).len() <= RING_CAPACITY,
    decreases es.len(),
{
    if es.len() == 0 {
        assert(pushed_all(seq![], es) =~= es);
    } else {
        let init = es.drop_last();
        ring_holds_the_last_entries(init);
        if es.len() > RING_CAPACITY {
            let before = pushed_all(seq![], init);
            assert(before.len() == RING_CAPACITY);
            assert(before.drop_first().push(es.last()) =~= es.skip(es.len() - RING_CAPACITY));
        } else {
            assert(init.push(es.last()) =~= es);
        }
    }
}

/// What came in last is shown first.
pub proof fn latest_entry_comes_first(ring: Seq<AuditEntryView>, e: AuditEntryView, limit: int)
    requires
        limit >= 1,
    ensures
        latest(pushed(ring, e), limit).len() >= 1,
        latest(pushed(ring, e), limit)[0] == e,
{
}

/// Of the entries that came in, the last 500 are remembered, and as many of them shown as are
/// asked for, the latest first: entry `k` that is shown is the one that came in `k` before the
/// last.
pub proof fn last_entries_are_shown(es: Seq<AuditEntryView>, limit: nat, k: int)
    ensures
        ({
            let shown = latest(pushed_all(seq![], es), limit as int);
            let kept = if es.len() > 500 { 500nat } else { es.len() };
            &&& shown.len() == (if limit < kept { limit } else { kept })
            &&& 0 <= k < shown.len() ==> shown[k] == es[es.len() - 1 - k]
        }),
{
    ring_holds_the_last_entries(es);
}

/// Attempts to leave the root, and to do what is not permitted, are recorded as denied; other
/// errors as errors, each with its message; and everything else as a success.
pub proof fn refusals_are_recorded_as_denied(s: Seq<char>, e: ErrorView)
    ensures
        outcome(Ok(s)) == AuditResultView::Success,
        outcome(Err(e)) == (if e is PathTraversal || e is OperationNotPermitted {
            AuditResultView::Denied(e.message())
        } else {
            AuditResultView::Error(e.message())
        }),
{
}

/// What the log files hold after the steps of a rotation: what was in the current one is in
/// the first, and what was in the first is in the second; the current one is gone. `a`, `b`
/// and `c` are what they held.
pub open spec fn after_rotation(files: Map<LogFile, Seq<u8>>, step: Rotation) -> Map<LogFile, Seq<u8>> {
    match step {
        Rotation::Remove(f) => files.remove(f),
        Rotation::Rename { from, to } => if files.contains_key(from) {
            files.remove(from).insert(to, files[from])
        } else {
            files
        },
    }
}

/// A rotation moves each log file on by one, and drops the oldest.
pub proof fn rotation_moves_the_files_on(a: Seq<u8>, b: Seq<u8>, c: Seq<u8>)
    ensures
        ({
            let files = map![
                LogFile::Current => a,
                LogFile::Rotated(1) => b,
                LogFile::Rotated(2) => c,
            ];
            let r = rotation();
            &&& r.len() == 3
            &&& after_rotation(after_rotation(after_rotation(files, r[0]), r[1]), r[2]) == map![
                LogFile::Rotated(1) => a,
                LogFile::Rotated(2) => b,
            ]
        }),
{
    let files = map![
        LogFile::Current => a,
        LogFile::Rotated(1) => b,
        LogFile::Rotated(2) => c,
    ];
    let r = rotation();
    assert(after_rotation(after_rotation(after_rotation(files, r[0]), r[1]), r[2]) =~= map![
        LogFile::Rotated(1) => a,
        LogFile::Rotated(2) => b,
    ]);
}

/// The size of the log file is looked at with the first entry and with every hundredth after it.
pub proof fn every_hundredth_entry_looks_at_the_size(n: usize, k: nat)
    ensures
        looks_at_size(n) <==> n as int % 100 == 0,
        n == 100 * k ==> looks_at_size(n),
{
    if n == 100 * k {
        vstd::arithmetic::div_mod::lemma_mod_multiples_basic(k as int, 100);
    }
}

/// An earlier log file has its number between the stem and the extension.
pub proof fn rotated_files_have_their_number(stem: Seq<char>, extension: Seq<char>, n: nat)
    ensures
        name_of_rotated(stem, extension, n) == stem + seq!['.'] + text::decimal(n) + seq!['.'] + extension,
        text::number_of_digits(text::decimal(n)) == n,
{
    reveal_strlit(".");
    assert("."@ =~= seq!['.']);
    text::decimals_stand_for_their_number(n);
}

} // verus!
