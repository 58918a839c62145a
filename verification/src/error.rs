//! What can go wrong, and how it is told to the user.

use vstd::prelude::*;

use crate::text;

verus! {

/// An error of the bridge.
#[derive(Debug)]
pub enum AppError {
    PathTraversal(String),
    SymlinkLoop(String),
    OperationNotPermitted(String),
    PortConflict(String),
    ServerAlreadyRunning,
    ServerNotFound,
    ConnectionNotFound,
    FileTooLarge(u64),
    /// An error of the operating system, by its message.
    Io(String),
    Store(String),
    Upstream(String),
    Other(String),
}

/// What an error is, mathematically.
pub enum ErrorView {
    PathTraversal(Seq<char>),
    SymlinkLoop(Seq<char>),
    OperationNotPermitted(Seq<char>),
    PortConflict(Seq<char>),
    ServerAlreadyRunning,
    ServerNotFound,
    ConnectionNotFound,
    FileTooLarge(u64),
    Io(Seq<char>),
    Store(Seq<char>),
    Upstream(Seq<char>),
    Other(Seq<char>),
}

impl View for AppError {
    type V = ErrorView;

    open spec fn view(&self) -> ErrorView {
        match self {
            AppError::PathTraversal(s) => ErrorView::PathTraversal(s@),
            AppError::SymlinkLoop(s) => ErrorView::SymlinkLoop(s@),
            AppError::OperationNotPermitted(s) => ErrorView::OperationNotPermitted(s@),
            AppError::PortConflict(s) => ErrorView::PortConflict(s@),
            AppError::ServerAlreadyRunning => ErrorView::ServerAlreadyRunning,
            AppError::ServerNotFound => ErrorView::ServerNotFound,
            AppError::ConnectionNotFound => ErrorView::ConnectionNotFound,
            AppError::FileTooLarge(n) => ErrorView::FileTooLarge(*n),
            AppError::Io(s) => ErrorView::Io(s@),
            AppError::Store(s) => ErrorView::Store(s@),
            AppError::Upstream(s) => ErrorView::Upstream(s@),
            AppError::Other(s) => ErrorView::Other(s@),
        }
    }
}

impl ErrorView {
    /// The message of an error.
    pub open spec fn message(self) -> Seq<char> {
        match self {
            ErrorView::PathTraversal(s) => "path traversal attempt: "@ + s,
            ErrorView::SymlinkLoop(s) => "symlink loop detected: "@ + s,
            ErrorView::OperationNotPermitted(s) => "operation not permitted: "@ + s,
            ErrorView::PortConflict(s) => "port conflict: "@ + s,
            ErrorView::ServerAlreadyRunning => "server already running"@,
            ErrorView::ServerNotFound => "server not found"@,
            ErrorView::ConnectionNotFound => "connection not found"@,
            ErrorView::FileTooLarge(n) => "file too large: "@ + text::decimal(n as nat) + " bytes"@,
            ErrorView::Io(s) => "io error: "@ + s,
            ErrorView::Store(s) => "store error: "@ + s,
            ErrorView::Upstream(s) => "upstream error: "@ + s,
            ErrorView::Other(s) => s,
        }
    }
}

impl AppError {
    /// The message of the error.
    pub fn message(&self) -> (r: String)
        ensures
            r@ == self@.message(),
    {
        match self {
            AppError::PathTraversal(s) => text::cat("path traversal attempt: ", s),
            AppError::SymlinkLoop(s) => text::cat("symlink loop detected: ", s),
            AppError::OperationNotPermitted(s) => text::cat("operation not permitted: ", s),
            AppError::PortConflict(s) => text::cat("port conflict: ", s),
            AppError::ServerAlreadyRunning => "server already running".to_owned(),
            AppError::ServerNotFound => "server not found".to_owned(),
            AppError::ConnectionNotFound => "connection not found".to_owned(),
            AppError::FileTooLarge(n) => text::cat3("file too large: ", &text::to_decimal(*n), " bytes"),
            AppError::Io(s) => text::cat("io error: ", s),
            AppError::Store(s) => text::cat("store error: ", s),
            AppError::Upstream(s) => text::cat("upstream error: ", s),
            AppError::Other(s) => s.clone(),
        }
    }

    /// An error with a fixed message.
    pub fn other(message: &str) -> (r: AppError)
        ensures
            r@ == ErrorView::Other(message@),
    {
        AppError::Other(message.to_owned())
    }
}

// ── Laws ──────────────────────────────────────────────────────────────────────

/// What each error is told as.
pub proof fn errors_have_their_messages(s: Seq<char>, n: u64)
    ensures
        ErrorView::PathTraversal(s).message() == "path traversal attempt: "@ + s,
        ErrorView::SymlinkLoop(s).message() == "symlink loop detected: "@ + s,
        ErrorView::OperationNotPermitted(s).message() == "operation not permitted: "@ + s,
        ErrorView::PortConflict(s).message() == "port conflict: "@ + s,
        ErrorView::ServerAlreadyRunning.message() == "server already running"@,
        ErrorView::ServerNotFound.message() == "server not found"@,
        ErrorView::ConnectionNotFound.message() == "connection not found"@,
        ErrorView::FileTooLarge(n).message() == "file too large: "@ + text::decimal(n as nat) + " bytes"@,
        ErrorView::Io(s).message() == "io error: "@ + s,
        ErrorView::Store(s).message() == "store error: "@ + s,
        ErrorView::Upstream(s).message() == "upstream error: "@ + s,
        ErrorView::Other(s).message() == s,
{
}

} // verus!
