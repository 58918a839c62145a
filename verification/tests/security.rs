//! The check of paths, with a host that is made up for it.

use std::path::PathBuf;

use overfry::error::AppError;
use overfry::host::{Place, Resolved};
use overfry::security::{
    after_canonical, after_follow, after_join, after_links, after_look, check_symlink_depth, starts_with,
    strip_separators, validate_path, validate_writable_path, Canonical, LinkStep, PathStep, MAX_SYMLINK_DEPTH,
};

fn parts(path: &str) -> Vec<Vec<u8>> {
    path.split('/').map(|p| p.as_bytes().to_vec()).collect()
}

fn place(path: &str) -> Place {
    Place { path: PathBuf::from(path), key: path.as_bytes().to_vec() }
}

fn canonical(root: &str, path: &str, missing: Vec<&str>) -> Canonical {
    Canonical {
        root: parts(root),
        path: parts(path),
        missing: missing.iter().map(|p| p.as_bytes().to_vec()).collect(),
        resolved: Resolved { place: place(path), parent: None },
    }
}

/// Runs the check of a path under `/root`, where every path is what it says and
/// `/root/loop` is a symbolic link to itself.
fn check(first: PathStep, missing: Vec<&str>) -> Result<Resolved, AppError> {
    let mut step = first;
    loop {
        step = match step {
            PathStep::Join { relative, requested, access } => {
                let candidate = if relative.is_empty() { "/root".to_string() } else { format!("/root/{relative}") };
                after_join(PathBuf::from(candidate), requested, access)
            }
            PathStep::Links { step, candidate, requested, access } => {
                let next = match step {
                    LinkStep::Look { path, depth } => {
                        let shown = path.display().to_string();
                        after_look(path, depth, shown == "/root/loop", &shown)
                    }
                    LinkStep::Follow { path, depth } => after_follow(path.clone(), depth, Ok(path)),
                    done => done,
                };
                after_links(next, candidate, requested, access)
            }
            PathStep::Canonicalize { candidate, requested, .. } => {
                let mut path: Vec<&str> = Vec::new();
                let shown = candidate.display().to_string();
                for p in shown.split('/') {
                    match p {
                        "." => {}
                        ".." => {
                            path.pop();
                        }
                        p => path.push(p),
                    }
                }
                return after_canonical(&requested, Ok(canonical("/root", &path.join("/"), missing)));
            }
            PathStep::Done(r) => return r,
        };
    }
}

#[test]
fn null_byte_rejected() {
    assert!(matches!(check(validate_path("some\0path"), vec![]), Err(AppError::PathTraversal(_))));
}

#[test]
fn traversal_rejected() {
    let result = check(validate_path("../../etc/passwd"), vec![]);
    assert!(matches!(result, Err(AppError::PathTraversal(_)) | Err(AppError::Io(_))));
}

#[test]
fn valid_subpath_accepted() {
    let result = check(validate_path("."), vec![]);
    assert!(result.is_ok());
}

#[test]
fn separators_at_the_start_do_not_leave_the_root() {
    assert_eq!(strip_separators("/\\/a/b"), "a/b");
    let at = check(validate_path("/a/b"), vec![]).unwrap();
    assert_eq!(at.place.path, PathBuf::from("/root/a/b"));
}

#[test]
fn refusals_name_the_path() {
    let e = check(validate_path("../other"), vec![]).err().unwrap();
    assert_eq!(e.message(), "path traversal attempt: path escapes root: ../other");
}

#[test]
fn loops_of_links_are_refused() {
    let e = check(validate_path("loop"), vec![]).err().unwrap();
    assert_eq!(e.message(), "symlink loop detected: depth > 40 at /root/loop");
}

#[test]
fn links_up_to_the_limit_are_followed() {
    let path = PathBuf::from("/x");
    let last = after_look(path.clone(), MAX_SYMLINK_DEPTH - 1, true, "/x");
    assert!(matches!(last, LinkStep::Follow { depth, .. } if depth == MAX_SYMLINK_DEPTH));
    assert!(matches!(after_look(path.clone(), MAX_SYMLINK_DEPTH, true, "/x"), LinkStep::Done(Some(_))));
    assert!(matches!(after_look(path.clone(), 3, false, "/x"), LinkStep::Done(None)));
    assert!(matches!(check_symlink_depth(path), LinkStep::Look { depth: 0, .. }));
}

#[test]
fn links_that_cannot_be_read_are_errors() {
    match after_follow(PathBuf::from("/x"), 1, Err("denied".to_string())) {
        LinkStep::Done(Some(AppError::Io(m))) => assert_eq!(m, "denied"),
        _ => panic!("no error"),
    }
}

#[test]
fn paths_to_write_may_be_missing() {
    assert!(check(validate_writable_path("new"), vec!["new"]).is_ok());
    assert!(check(validate_writable_path("new"), vec!["..", "x"]).is_err());
    assert!(matches!(check(validate_writable_path("a\0"), vec![]), Err(AppError::PathTraversal(_))));
}

#[test]
fn errors_of_the_host_are_passed_on() {
    match after_canonical("x", Err("not found".to_string())) {
        Err(AppError::Io(m)) => assert_eq!(m, "not found"),
        _ => panic!("no error"),
    }
}

#[test]
fn paths_lie_in_a_directory_by_their_components() {
    assert!(starts_with(&parts("/root/a"), &parts("/root")));
    assert!(starts_with(&parts("/root"), &parts("/root")));
    assert!(!starts_with(&parts("/rootling"), &parts("/root")));
    assert!(!starts_with(&parts("/"), &parts("/root")));
}
