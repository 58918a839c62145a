//! Which web pages may talk to the bridge.
//!
//! | Origin                   | Client                                  |
//! |--------------------------|-----------------------------------------|
//! | (none)                   | desktop applications, curl, other tools |
//! | `tauri://...`            | the window of this application          |
//! | the origin `web`         | the web application of the assistant    |
//! | `http://localhost:PORT`  | MCP Inspector, local tools              |
//! | `http://127.0.0.1:PORT`  | the same, in another form               |
//! | `vscode-webview://...`   | extensions of VS Code                   |
//!
//! Everything else is rejected, an origin that cannot be read too.

use axum::http::HeaderMap;
use vstd::prelude::*;

use crate::headers;
use crate::headers::Found;
use crate::text;

verus! {

/// Whether an origin is on the list; `web` is the origin of the web application.
pub open spec fn listed_origin(o: Seq<char>, web: Seq<char>) -> bool {
    ||| "tauri://"@.is_prefix_of(o)
    ||| o == web
    ||| "http://localhost:"@.is_prefix_of(o)
    ||| "http://127.0.0.1:"@.is_prefix_of(o)
    ||| "vscode-webview://"@.is_prefix_of(o)
}

/// Whether the origin of a request is accepted: a request without one is, and one
/// whose origin cannot be read is not.
pub open spec fn accepted(origin: Found<Seq<char>>, web: Seq<char>) -> bool {
    match origin {
        Found::Absent => true,
        Found::Unreadable => false,
        Found::Text(o) => listed_origin(o, web),
    }
}

/// Whether an origin is on the list, by which the answers to a browser are marked
/// too.
pub fn is_listed(origin: &str, web: &str) -> (r: bool)
    ensures
        r == listed_origin(origin@, web@),
{
    text::starts_with(origin, "tauri://") || text::same(origin, web) || text::starts_with(
        origin,
        "http://localhost:",
    ) || text::starts_with(origin, "http://127.0.0.1:") || text::starts_with(origin, "vscode-webview://")
}

/// Whether the origin of a request is accepted.
pub fn accept_origin(origin: &Found<String>, web: &str) -> (r: bool)
    ensures
        r == accepted(origin@, web@),
{
    match origin {
        Found::Absent => true,
        Found::Unreadable => false,
        Found::Text(o) => is_listed(o, web),
    }
}

/// Whether the origin of a request is accepted.
pub fn origin_ok(headers: &HeaderMap, web: &str) -> (r: bool)
    ensures
        r == accepted(headers::header_found(*headers, "origin"@), web@),
{
    accept_origin(&headers::find_header(headers, "origin"), web)
}

// ── Laws ──────────────────────────────────────────────────────────────────────

/// A request with an origin is accepted if and only if a browser is told so: both go
/// by the same list.
pub proof fn requests_and_answers_agree(origin: Seq<char>, web: Seq<char>)
    ensures
        accepted(Found::Text(origin), web) == listed_origin(origin, web),
{
}

/// Accepted are requests without an origin, and those of the window of the application, of the
/// extensions of VS Code, of local pages with a port, and of the web application itself; no
/// others.
pub proof fn accepted_origins(rest: Seq<char>, o: Seq<char>, web: Seq<char>)
    ensures
        accepted(Found::Absent, web),
        !accepted(Found::Unreadable, web),
        accepted(Found::Text(web), web),
        accepted(Found::Text("tauri://"@ + rest), web),
        accepted(Found::Text("http://localhost:"@ + rest), web),
        accepted(Found::Text("http://127.0.0.1:"@ + rest), web),
        accepted(Found::Text("vscode-webview://"@ + rest), web),
        accepted(Found::Text(o), web) ==> o == web || "tauri://"@.is_prefix_of(o) || "http://localhost:"@.is_prefix_of(o)
            || "http://127.0.0.1:"@.is_prefix_of(o) || "vscode-webview://"@.is_prefix_of(o),
{
    starts_so("tauri://"@, rest);
    starts_so("http://localhost:"@, rest);
    starts_so("http://127.0.0.1:"@, rest);
    starts_so("vscode-webview://"@, rest);
}

proof fn starts_so(p: Seq<char>, rest: Seq<char>)
    ensures
        p.is_prefix_of(p + rest),
{
    assert((p + rest).subrange(0, p.len() as int) =~= p);
}

} // verus!
