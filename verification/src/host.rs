//! What the library and its host exchange about files: paths that the host has
//! resolved, the entries of a walk.

use std::path::PathBuf;

use vstd::prelude::*;

verus! {

/// The size up to which a file is read: 10 MB.
pub const MAX_FILE_SIZE: u64 = 10 * 1024 * 1024;

/// A path, carried through as it is.
#[verifier::external_type_specification]
#[verifier::external_body]
pub struct ExPathBuf(std::path::PathBuf);

/// `PathBuf::clone` copies the path.
pub assume_specification[ <std::path::PathBuf as Clone>::clone ](p: &std::path::PathBuf) -> (r:
    std::path::PathBuf)
    ensures
        r == *p,
;

/// A path and its key in the cache: the bytes of its components.
pub struct Place {
    pub path: PathBuf,
    pub key: Vec<u8>,
}

/// A path inside the root, and the directory that it is in.
pub struct Resolved {
    pub place: Place,
    pub parent: Option<Place>,
}

/// An entry that a walk comes across.
pub struct WalkEntry {
    pub path: PathBuf,
    /// The path as text.
    pub display: String,
    pub is_file: bool,
    /// The extension of its name; empty where it has none.
    pub extension: String,
    /// Its size in bytes; zero where that is not known.
    pub size: u64,
}

/// The next thing that a walk has.
pub enum WalkItem {
    Entry(WalkEntry),
    /// An entry that could not be read.
    Failed,
    End,
}

/// What to do with an entry of a walk.
#[derive(Clone, Copy, PartialEq, Eq, Structural)]
pub enum Want {
    /// Go on with the next entry.
    Skip,
    /// Read the file.
    Read,
    /// End the walk.
    Stop,
}

/// `a` and `n` together, or the largest number where that is more.
pub open spec fn plus(a: u64, n: nat) -> u64 {
    if a + n > u64::MAX {
        u64::MAX
    } else {
        (a + n) as u64
    }
}

/// `a` and `n` together, or the largest number where that is more.
pub fn add_capped(a: u64, n: u64) -> (r: u64)
    ensures
        r == plus(a, n as nat),
{
    if n > u64::MAX - a {
        u64::MAX
    } else {
        a + n
    }
}

} // verus!
