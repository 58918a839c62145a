//! The headers of a request.

use axum::http::HeaderMap;
use vstd::prelude::*;

verus! {

/// The header map of the crate `http`.
#[verifier::external_type_specification]
#[verifier::external_body]
#[verifier::reject_recursive_types(T)]
pub struct ExHeaderMap<T>(axum::http::HeaderMap<T>);

/// The value of a header in the crate `http`.
#[verifier::external_type_specification]
#[verifier::external_body]
pub struct ExHeaderValue(axum::http::HeaderValue);

/// What a request has under the name of a header: no header, one that is not
/// visible ASCII, or a text.
pub enum Found<T> {
    Absent,
    Unreadable,
    Text(T),
}

impl View for Found<String> {
    type V = Found<Seq<char>>;

    open spec fn view(&self) -> Found<Seq<char>> {
        match self {
            Found::Absent => Found::Absent,
            Found::Unreadable => Found::Unreadable,
            Found::Text(s) => Found::Text(s@),
        }
    }
}

/// What the headers of a request have under a name.
pub uninterp spec fn header_found(headers: axum::http::HeaderMap, name: Seq<char>) -> Found<Seq<char>>;

/// Calls `HeaderMap::get` and `HeaderValue::to_str`: the first value of the header
/// as text, where there is one and it is visible ASCII. It is a function of the
/// headers and the name.
#[verifier::external_body]
pub(crate) fn find_header(headers: &HeaderMap, name: &str) -> (r: Found<String>)
    ensures
        r@ == header_found(*headers, name@),
{
    match headers.get(name).map(|v| v.to_str()) {
        None => Found::Absent,
        Some(Err(_)) => Found::Unreadable,
        Some(Ok(s)) => Found::Text(s.to_owned()),
    }
}

/// The text of a header, where there is one and it can be read.
pub open spec fn header_value(headers: axum::http::HeaderMap, name: Seq<char>) -> Option<Seq<char>> {
    match header_found(headers, name) {
        Found::Text(s) => Some(s),
        _ => None,
    }
}

/// The text of a header, where there is one and it can be read.
pub fn header(headers: &HeaderMap, name: &str) -> (r: Option<String>)
    ensures
        match r {
            Some(s) => header_value(*headers, name@) == Some(s@),
            None => header_value(*headers, name@) is None,
        },
{
    match find_header(headers, name) {
        Found::Text(s) => Some(s),
        _ => None,
    }
}

} // verus!
