//! The proxy to a remote server: what is sent on, what is answered, and when the token
//! is refreshed.

use axum::http::HeaderMap;
use uuid::Uuid;
use vstd::prelude::*;

use crate::file_server;
use crate::headers;
use crate::json;
use crate::json::{Json, Tree};
use crate::models;
use crate::models::{AuditEntry, AuditEntryView, AuditResult, AuditResultView, AuthConfig, AuthMethod, AuthModel};
use crate::oauth;
use crate::rpc;
use crate::text;
use crate::text::Chars;

verus! {

// ── Requests to the remote server ─────────────────────────────────────────────

/// The token that requests carry.
pub open spec fn bearer_of(auth: AuthModel) -> Option<Seq<char>> {
    let token = match auth.auth_method {
        AuthMethod::OAuth => auth.access_token,
        AuthMethod::Token => auth.token,
    };
    if token.len() > 0 {
        Some(token)
    } else {
        None
    }
}

/// The token that requests carry.
pub fn pick_bearer(auth: &AuthConfig) -> (r: Option<String>)
    ensures
        models::optional_text(r) == bearer_of(auth@),
{
    match auth.auth_method {
        AuthMethod::OAuth => {
            if auth.access_token.as_str().is_empty() {
                None
            } else {
                Some(auth.access_token.clone())
            }
        },
        AuthMethod::Token => {
            if auth.token.as_str().is_empty() {
                None
            } else {
                Some(auth.token.clone())
            }
        },
    }
}

/// The address that requests are sent to.
pub open spec fn target_of(auth: AuthModel) -> Seq<char> {
    text::trim_back(auth.base_url, Chars::In(seq!['/']))
}

/// The address that requests are sent to.
pub fn target_url(auth: &AuthConfig) -> (r: String)
    ensures
        r@ == target_of(auth@),
{
    text::trim_end_matches(&auth.base_url, &text::only('/'))
}

/// Whether certificates that cannot be verified are accepted.
pub open spec fn trusts_any_certificate(auth: AuthModel) -> bool {
    auth.preset == Some("obsidian"@)
}

/// Whether certificates that cannot be verified are accepted: those of a local
/// Obsidian are its own.
pub fn accepts_invalid_certs(auth: &AuthConfig) -> (r: bool)
    ensures
        r == trusts_any_certificate(auth@),
{
    match &auth.preset {
        Some(p) => text::same(p, "obsidian"),
        None => false,
    }
}

/// The characters, besides ASCII letters and digits, that the name of a header may hold.
pub open spec fn name_marks() -> Seq<char> {
    seq!['!', '#', '$', '%', '&', '\'', '*', '+', '-', '.', '^', '_', '`', '|', '~']
}

/// Whether a text is the name of a header: 1 to 65535 letters, digits and marks.
pub open spec fn is_header_name(s: Seq<char>) -> bool {
    &&& 1 <= s.len() <= 65535
    &&& forall|i: int|
        0 <= i < s.len() ==> text::is_ascii_letter(#[trigger] s[i]) || '0' <= s[i] <= '9' || name_marks().contains(s[i])
}

/// Whether a text is the value of a header: it has no control characters but tabs.
pub open spec fn is_header_value(s: Seq<char>) -> bool {
    forall|i: int| 0 <= i < s.len() ==> (#[trigger] s[i] as u32 >= 32 && s[i] as u32 != 127) || s[i] == '\t'
}

/// Calls `HeaderName::from_bytes`: it accepts the names of headers.
#[verifier::external_body]
fn check_header_name(s: &str) -> (r: bool)
    ensures
        r == is_header_name(s@),
{
    axum::http::HeaderName::from_bytes(s.as_bytes()).is_ok()
}

/// Calls `HeaderValue::from_str`: it accepts the values of headers.
#[verifier::external_body]
fn check_header_value(s: &str) -> (r: bool)
    ensures
        r == is_header_value(s@),
{
    axum::http::HeaderValue::from_str(s).is_ok()
}

/// The headers of a list that can be sent.
pub open spec fn sendable(headers: Seq<(Seq<char>, Seq<char>)>) -> Seq<(Seq<char>, Seq<char>)>
    decreases headers.len(),
{
    if headers.len() == 0 {
        seq![]
    } else {
        let before = sendable(headers.drop_last());
        let (k, v) = headers.last();
        if is_header_name(k) && is_header_value(v) {
            before.push((k, v))
        } else {
            before
        }
    }
}

/// The headers of a request.
pub open spec fn request_headers(bearer: Option<Seq<char>>, extra: Seq<(Seq<char>, Seq<char>)>) -> Seq<
    (Seq<char>, Seq<char>),
> {
    let content = seq![("Content-Type"@, "application/json"@)];
    let authorization = match bearer {
        Some(t) => seq![("Authorization"@, "Bearer "@ + t)],
        None => seq![],
    };
    content + authorization + sendable(extra)
}

/// The headers of a request.
pub fn upstream_headers(bearer: &Option<String>, extra: &Vec<(String, String)>) -> (r: Vec<(String, String)>)
    ensures
        models::pair_texts(r@) == request_headers(models::optional_text(*bearer), models::pair_texts(extra@)),
{
    let ghost all = models::pair_texts(extra@);
    let mut out: Vec<(String, String)> = Vec::new();
    out.push(("Content-Type".to_owned(), "application/json".to_owned()));
    if let Some(t) = bearer {
        out.push(("Authorization".to_owned(), text::cat("Bearer ", t)));
    }
    let ghost first = models::pair_texts(out@);
    assert(first =~= request_headers(models::optional_text(*bearer), seq![]));
    let mut i: usize = 0;
    assert(all.take(0) =~= Seq::<(Seq<char>, Seq<char>)>::empty());
    assert(first + sendable(all.take(0)) =~= first);
    while i < extra.len()
        invariant
            i <= extra@.len(),
            all == models::pair_texts(extra@),
            models::pair_texts(out@) =~= first + sendable(all.take(i as int)),
        decreases extra@.len() - i,
    {
        assert(all.take(i + 1).drop_last() =~= all.take(i as int));
        assert(all.take(i + 1).last() == (extra@[i as int].0@, extra@[i as int].1@));
        if check_header_name(&extra[i].0) && check_header_value(&extra[i].1) {
            let ghost before = out@;
            let pair = (extra[i].0.clone(), extra[i].1.clone());
            out.push(pair);
            assert(models::pair_texts(out@) =~= models::pair_texts(before).push((pair.0@, pair.1@)));
        }
        i += 1;
    }
    assert(all.take(all.len() as int) =~= all);
    assert(first + sendable(all) =~= request_headers(models::optional_text(*bearer), all));
    out
}

// ── Answers ───────────────────────────────────────────────────────────────────

/// An answer, and what it is for the record.
pub struct Answer {
    pub result: AuditResult,
    pub body: Json,
}

/// An answer, mathematically.
pub struct AnswerView {
    pub result: AuditResultView,
    pub body: Tree,
}

impl View for Answer {
    type V = AnswerView;

    open spec fn view(&self) -> AnswerView {
        AnswerView { result: self.result@, body: self.body.tree() }
    }
}

/// An error as the answer to the request with this id.
pub open spec fn error_reply(id: Tree, code: i32, message: Seq<char>) -> Tree {
    Tree::Object(
        seq![("jsonrpc"@, Tree::Text("2.0"@)), ("id"@, id), ("error"@, rpc::error_tree(code, message))],
    )
}

/// An error as the answer to the request with this id.
pub fn rpc_err(id: Json, code: i32, message: &str) -> (r: Json)
    ensures
        r.tree() == error_reply(id.tree(), code, message@),
{
    Json::object3("jsonrpc", Json::text("2.0"), "id", id, "error", rpc::error_json(code, message))
}

/// The answer to a request that failed.
pub open spec fn failed(id: Tree, message: Seq<char>) -> AnswerView {
    AnswerView {
        result: AuditResultView::Error(message),
        body: error_reply(id, rpc::INTERNAL_ERROR, message),
    }
}

/// The answer to a request that failed.
pub fn fail(id: Json, message: String) -> (r: Answer)
    ensures
        r@ == failed(id.tree(), message@),
{
    let body = rpc_err(id, rpc::INTERNAL_ERROR, &message);
    Answer { result: AuditResult::Error(message), body }
}

/// The answer, once the remote server has answered with this value: an error carries
/// the id of the request.
pub open spec fn passed_on(value: Option<Tree>, id: Tree) -> AnswerView {
    match value {
        None => failed(id, "upstream returned non-JSON body"@),
        Some(t) => AnswerView {
            result: AuditResultView::Success,
            body: match t {
                Tree::Object(m) => if t.has_field("error"@) {
                    Tree::Object(json::with_member(m, "id"@, id))
                } else {
                    t
                },
                _ => t,
            },
        },
    }
}

/// The answer, once the remote server has answered with this value.
pub fn pass_on(value: Option<Json>, id: Json) -> (r: Answer)
    ensures
        r@ == passed_on(rpc::optional_tree(value), id.tree()),
{
    let value = match value {
        None => {
            return fail(id, "upstream returned non-JSON body".to_owned());
        },
        Some(v) => v,
    };
    proof {
        json::tree_of_parts(value);
    }
    let is_error = value.get("error").is_some();
    let body = match value {
        Json::Object(m) => {
            let mut m = m;
            if is_error {
                json::set_member(&mut m, "id", id);
            }
            Json::object(m)
        },
        other => other,
    };
    Answer { result: AuditResult::Success, body }
}

/// The answer, once the remote server has answered with these bytes.
pub fn parse_bytes(bytes: &[u8], id: Json) -> (r: Answer)
    ensures
        r@ == passed_on(json::json_parsed(bytes@), id.tree()),
{
    pass_on(json::parse(bytes), id)
}

// ── A request, step by step ───────────────────────────────────────────────────

/// What the proxy needs next.
pub enum ProxyStep<T, H, J, A> {
    /// To send the request with this body; `retried` tells that the token was refreshed
    /// before.
    Send { url: T, headers: H, body: T, id: J, retried: bool },
    /// To refresh the token by posting a form; the request is to be sent again after.
    Refresh { token_url: T, form: H, status_text: T, body: T, id: J },
    Done(A),
}

pub type Proxy = ProxyStep<String, Vec<(String, String)>, Json, Answer>;

pub type ProxyView = ProxyStep<Seq<char>, Seq<(Seq<char>, Seq<char>)>, Tree, AnswerView>;

impl View for ProxyStep<String, Vec<(String, String)>, Json, Answer> {
    type V = ProxyView;

    open spec fn view(&self) -> ProxyView {
        match self {
            ProxyStep::Send { url, headers, body, id, retried } => ProxyStep::Send {
                url: url@,
                headers: models::pair_texts(headers@),
                body: body@,
                id: id.tree(),
                retried: *retried,
            },
            ProxyStep::Refresh { token_url, form, status_text, body, id } => ProxyStep::Refresh {
                token_url: token_url@,
                form: models::pair_texts(form@),
                status_text: status_text@,
                body: body@,
                id: id.tree(),
            },
            ProxyStep::Done(a) => ProxyStep::Done(a@),
        }
    }
}

/// What a user who has not authorized the bridge is told.
pub open spec fn not_authorized() -> Seq<char> {
    "OAuth not authorized — click 'Authorize' on the connection card first."@
}

/// The first step of a request: its body is sent as JSON.
pub open spec fn proxy_start(auth: AuthModel, body: Tree, id: Tree) -> ProxyView {
    if auth.auth_method == AuthMethod::OAuth && auth.access_token.len() == 0 {
        ProxyStep::Done(failed(id, not_authorized()))
    } else {
        ProxyStep::Send {
            url: target_of(auth),
            headers: request_headers(bearer_of(auth), auth.extra_headers),
            body: json::json_text(body.settled()),
            id,
            retried: false,
        }
    }
}

/// Starts a request.
pub fn do_proxy_request(auth: &AuthConfig, body: &Json, id: Json) -> (r: Proxy)
    ensures
        r@ == proxy_start(auth@, body.tree(), id.tree()),
{
    if auth.auth_method == AuthMethod::OAuth && auth.access_token.as_str().is_empty() {
        return ProxyStep::Done(
            fail(id, "OAuth not authorized — click 'Authorize' on the connection card first.".to_owned()),
        );
    }
    ProxyStep::Send {
        url: target_url(auth),
        headers: upstream_headers(&pick_bearer(auth), &auth.extra_headers),
        body: json::to_text(body),
        id,
        retried: false,
    }
}

/// What came of sending a request: an error, or a status and the body.
pub enum Sent {
    Failed(String),
    Answered { status: u16, status_text: String, body: Vec<u8> },
}

/// Whether a token can be refreshed.
pub open spec fn can_refresh(auth: AuthModel) -> bool {
    &&& auth.auth_method == AuthMethod::OAuth
    &&& auth.oauth_token_url.len() > 0
    &&& auth.refresh_token.len() > 0
}

/// The step after a request with this body was sent.
pub open spec fn next_of_sent(auth: AuthModel, body: Seq<char>, id: Tree, retried: bool, sent: Sent) -> ProxyView {
    match sent {
        Sent::Failed(e) => ProxyStep::Done(failed(id, e@)),
        Sent::Answered { status, status_text, body: answer } => if retried {
            ProxyStep::Done(passed_on(json::json_parsed(answer@), id))
        } else if status == 401 && can_refresh(auth) {
            ProxyStep::Refresh {
                token_url: auth.oauth_token_url,
                form: oauth::refresh_form(auth.client_id, auth.client_secret, auth.refresh_token),
                status_text: status_text@,
                body,
                id,
            }
        } else if !oauth::is_success(status) {
            ProxyStep::Done(failed(id, "upstream error: "@ + status_text@))
        } else {
            ProxyStep::Done(passed_on(json::json_parsed(answer@), id))
        },
    }
}

/// Goes on after a request with this body was sent: once, an expired token is refreshed.
pub fn after_send(auth: &AuthConfig, body: String, id: Json, retried: bool, sent: Sent) -> (r: Proxy)
    ensures
        r@ == next_of_sent(auth@, body@, id.tree(), retried, sent),
{
    match sent {
        Sent::Failed(e) => ProxyStep::Done(fail(id, e)),
        Sent::Answered { status, status_text, body: answer } => {
            if retried {
                return ProxyStep::Done(parse_bytes(&answer, id));
            }
            if status == 401 && auth.auth_method == AuthMethod::OAuth && !auth.oauth_token_url.as_str().is_empty()
                && !auth.refresh_token.as_str().is_empty() {
                return ProxyStep::Refresh {
                    token_url: auth.oauth_token_url.clone(),
                    form: oauth::refresh_access_token(&auth.client_id, &auth.client_secret, &auth.refresh_token),
                    status_text,
                    body,
                    id,
                };
            }
            if !(200 <= status && status < 300) {
                return ProxyStep::Done(fail(id, text::cat("upstream error: ", &status_text)));
            }
            ProxyStep::Done(parse_bytes(&answer, id))
        },
    }
}

/// The way to a remote server with new tokens.
pub open spec fn with_tokens(auth: AuthModel, access: Seq<char>, refresh: Seq<char>) -> AuthModel {
    AuthModel { access_token: access, refresh_token: refresh, ..auth }
}

/// Puts new tokens in.
pub fn set_tokens(auth: &mut AuthConfig, access: String, refresh: String)
    ensures
        final(auth)@ == with_tokens(old(auth)@, access@, refresh@),
{
    auth.access_token = access;
    auth.refresh_token = refresh;
}

/// The step after a token was refreshed, or was not.
pub open spec fn next_of_refresh(
    auth: AuthModel,
    body: Seq<char>,
    id: Tree,
    status_text: Seq<char>,
    tokens: Option<(Seq<char>, Seq<char>)>,
) -> ProxyView {
    match tokens {
        Some((access, _)) => ProxyStep::Send {
            url: target_of(auth),
            headers: request_headers(Some(access), auth.extra_headers),
            body,
            id,
            retried: true,
        },
        None => ProxyStep::Done(failed(id, "upstream error: "@ + status_text)),
    }
}

/// Goes on after the attempt to refresh the token: with a new one the request is sent
/// again, with the same body. The new tokens are handed back, to be kept.
pub fn try_refresh(auth: &mut AuthConfig, body: String, id: Json, status_text: &str, posted: oauth::Posted) -> (r: (
    Proxy,
    Option<(String, String)>,
))
    ensures
        match oauth::refreshed(posted, old(auth)@.refresh_token) {
            Ok((access, refresh)) => {
                &&& final(auth)@ == with_tokens(old(auth)@, access, refresh)
                &&& r.0@ == next_of_refresh(old(auth)@, body@, id.tree(), status_text@, Some((access, refresh)))
                &&& r.1 matches Some((a, f)) && a@ == access && f@ == refresh
            },
            Err(_) => {
                &&& final(auth)@ == old(auth)@
                &&& r.0@ == next_of_refresh(old(auth)@, body@, id.tree(), status_text@, None)
                &&& r.1 is None
            },
        },
{
    match oauth::after_refresh(posted, &auth.refresh_token) {
        Ok((access, refresh)) => {
            let kept = (access.clone(), refresh.clone());
            let bearer = Some(access.clone());
            set_tokens(auth, access, refresh);
            let step = ProxyStep::Send {
                url: target_url(auth),
                headers: upstream_headers(&bearer, &auth.extra_headers),
                body,
                id,
                retried: true,
            };
            (step, Some(kept))
        },
        Err(_) => (ProxyStep::Done(fail(id, text::cat("upstream error: ", status_text))), None),
    }
}

// ── The body of a request ─────────────────────────────────────────────────────

/// Whether the origin of a request is accepted: none, or the window of the
/// application itself.
pub fn origin_ok(headers: &HeaderMap) -> (r: bool)
    ensures
        r == file_server::own_origin(headers::header_found(*headers, "origin"@)),
{
    file_server::origin_ok(headers)
}

/// What to do with a request to the proxy.
pub enum Received {
    Forbidden,
    /// It is answered so.
    Reply(Json),
    /// It is sent on; `id` is its id.
    Forward { body: Json, id: Json },
}

/// Whether `r` is what to do with a request to the proxy, whose body is this value.
pub open spec fn is_received(origin_accepted: bool, body: Option<Tree>, r: Received) -> bool {
    match r {
        Received::Forbidden => !origin_accepted,
        Received::Reply(j) => origin_accepted && body is None && j.tree() == error_reply(
            Tree::Null,
            rpc::PARSE_ERROR,
            "Parse error"@,
        ),
        Received::Forward { body: b, id } => origin_accepted && body == Some(b.tree()) && id.tree() == b.tree().field(
            "id"@,
        ),
    }
}

/// What to do with a request to the proxy.
pub fn handle_rpc(origin_accepted: bool, body: &[u8]) -> (r: Received)
    ensures
        is_received(origin_accepted, json::json_parsed(body@), r),
{
    if !origin_accepted {
        return Received::Forbidden;
    }
    match json::parse(body) {
        None => Received::Reply(rpc_err(Json::Null, rpc::PARSE_ERROR, "Parse error")),
        Some(b) => {
            let id = b.field("id");
            Received::Forward { body: b, id }
        },
    }
}

/// The record of a request that was sent on, made at a time under an identifier.
pub fn audit_request(
    id: Uuid,
    timestamp: models::Timestamp,
    connection_id: Uuid,
    auth: &AuthConfig,
    result: AuditResult,
) -> (r: AuditEntry)
    ensures
        r@ == (AuditEntryView {
            id,
            connection_id,
            tool_name: "proxy"@,
            path: Some(target_of(auth@)),
            timestamp,
            session_id: None,
            result: result@,
        }),
{
    AuditEntry {
        id,
        connection_id,
        tool_name: "proxy".to_owned(),
        path: Some(target_url(auth)),
        timestamp,
        session_id: None,
        result,
    }
}

/// The record of a request that was sent on just now.
pub fn record_request(connection_id: Uuid, auth: &AuthConfig, result: AuditResult) -> (r: AuditEntry)
    ensures
        r@ == (AuditEntryView {
            id: r.id,
            connection_id,
            tool_name: "proxy"@,
            path: Some(target_of(auth@)),
            timestamp: r.timestamp,
            session_id: None,
            result: result@,
        }),
{
    audit_request(models::new_id(), models::utc_now(), connection_id, auth, result)
}

// ── Laws ──────────────────────────────────────────────────────────────────────

/// A request is sent at most twice: after the second time it is answered, whatever the
/// remote server says.
pub proof fn requests_are_sent_at_most_twice(auth: AuthModel, body: Seq<char>, id: Tree, sent: Sent)
    ensures
        next_of_sent(auth, body, id, true, sent) is Done,
        !(next_of_sent(auth, body, id, false, sent) is Send),
{
}

/// The token is refreshed only where the remote server refuses it, and only where the
/// bridge was authorized by OAuth.
pub proof fn refresh_needs_a_refusal(auth: AuthModel, body: Seq<char>, id: Tree, retried: bool, sent: Sent)
    ensures
        next_of_sent(auth, body, id, retried, sent) is Refresh ==> {
            &&& !retried
            &&& auth.auth_method == AuthMethod::OAuth
            &&& sent matches Sent::Answered { status, .. } && status == 401
        },
{
}

/// Each time it is sent, a request carries the body that the caller gave, and the second
/// time the new token. What is refreshed, and what is answered, is so for its id.
pub proof fn requests_carry_their_body(
    auth: AuthModel,
    body: Tree,
    id: Tree,
    sent: Sent,
    status_text: Seq<char>,
    tokens: Option<(Seq<char>, Seq<char>)>,
)
    ensures
        proxy_start(auth, body, id) matches ProxyStep::Send { body: first, id: i, .. } ==> {
            &&& first == json::json_text(body.settled())
            &&& i == id
            &&& next_of_sent(auth, first, id, false, sent) matches ProxyStep::Refresh { body: kept, id: j, .. } ==> {
                &&& kept == first
                &&& j == id
                &&& tokens matches Some((access, _)) ==> next_of_refresh(auth, kept, id, status_text, tokens)
                    == (ProxyStep::<Seq<char>, Seq<(Seq<char>, Seq<char>)>, Tree, AnswerView>::Send {
                    url: target_of(auth),
                    headers: request_headers(Some(access), auth.extra_headers),
                    body: first,
                    id,
                    retried: true,
                })
            }
        },
{
}

/// Every error that is passed on carries the id of the request.
pub proof fn passed_on_errors_carry_the_id(t: Tree, id: Tree)
    requires
        t.has_field("error"@),
    ensures
        passed_on(Some(t), id).body.field("id"@) == id,
{
    if let Tree::Object(m) = t {
        json::set_member_is_read_back(m, "id"@, id, "id"@);
    }
}

/// Requests carry the access token of an authorization, or the token that is set, by the
/// method; and none where it is empty.
pub proof fn requests_carry_their_token(auth: AuthModel)
    ensures
        auth.auth_method == AuthMethod::OAuth ==> bearer_of(auth) == (if auth.access_token.len() > 0 {
            Some(auth.access_token)
        } else {
            None
        }),
        auth.auth_method == AuthMethod::Token ==> bearer_of(auth) == (if auth.token.len() > 0 {
            Some(auth.token)
        } else {
            None
        }),
{
}

/// Requests go to the address that is set, without the slashes at its end.
pub proof fn requests_go_to_their_address(auth: AuthModel, url: Seq<char>, slashes: nat)
    requires
        auth.base_url == url + Seq::new(slashes, |i: int| '/'),
        url.len() > 0 ==> url.last() != '/',
    ensures
        target_of(auth) == url,
{
    let sl = Seq::new(slashes, |i: int| '/');
    let k = Chars::In(seq!['/']);
    assert(seq!['/'][0] == '/');
    assert forall|i: int| 0 <= i < sl.len() implies k.has(#[trigger] sl[i]) by {}
    if url.len() > 0 && seq!['/'].contains(url.last()) {
        let i = choose|i: int| 0 <= i < 1 && seq!['/'][i] == url.last();
    }
    text::back_is_trimmed(url, sl, k);
}

/// The headers of a request are its kind of content, its token where it has one, and those
/// that are set, in turn, but for those that are no headers.
pub proof fn requests_have_their_headers(
    bearer: Seq<char>,
    extra: Seq<(Seq<char>, Seq<char>)>,
    name: Seq<char>,
    value: Seq<char>,
)
    ensures
        request_headers(None, seq![]) == seq![("Content-Type"@, "application/json"@)],
        request_headers(Some(bearer), seq![]) == seq![
            ("Content-Type"@, "application/json"@),
            ("Authorization"@, "Bearer "@ + bearer),
        ],
        is_header_name(name) && is_header_value(value) ==> request_headers(Some(bearer), extra.push((name, value)))
            == request_headers(Some(bearer), extra).push((name, value)) && request_headers(None, extra.push((name, value)))
            == request_headers(None, extra).push((name, value)),
        !(is_header_name(name) && is_header_value(value)) ==> request_headers(Some(bearer), extra.push((name, value)))
            == request_headers(Some(bearer), extra) && request_headers(None, extra.push((name, value))) == request_headers(
            None,
            extra,
        ),
{
    let e = Seq::<(Seq<char>, Seq<char>)>::empty();
    assert(sendable(e) =~= e);
    assert(request_headers(None, seq![]) =~= seq![("Content-Type"@, "application/json"@)]);
    assert(request_headers(Some(bearer), seq![]) =~= seq![
        ("Content-Type"@, "application/json"@),
        ("Authorization"@, "Bearer "@ + bearer),
    ]);
    assert(extra.push((name, value)).drop_last() =~= extra);
    assert(extra.push((name, value)).last() == (name, value));
    if is_header_name(name) && is_header_value(value) {
        assert(request_headers(Some(bearer), extra.push((name, value))) =~= request_headers(Some(bearer), extra).push(
            (name, value),
        ));
        assert(request_headers(None, extra.push((name, value))) =~= request_headers(None, extra).push((name, value)));
    }
}

/// What the remote server answers is passed on as it is, but that an error gets the id of the
/// request; what is no JSON, a refusal and a failure are told as the error -32603.
pub proof fn answers_are_passed_on(
    auth: AuthModel,
    body: Seq<char>,
    id: Tree,
    t: Tree,
    status: u16,
    status_text: String,
    answer: Vec<u8>,
    e: String,
)
    requires
        json::json_parsed(answer@) == Some(t),
        !t.has_field("error"@),
    ensures
        ({
            let sent = Sent::Answered { status, status_text, body: answer };
            let good = ProxyView::Done(AnswerView { result: AuditResultView::Success, body: t });
            &&& 200 <= status <= 299 ==> next_of_sent(auth, body, id, false, sent) == good
            &&& next_of_sent(auth, body, id, true, sent) == good
            &&& !(200 <= status <= 299) && !(status == 401 && auth.auth_method == AuthMethod::OAuth) ==> next_of_sent(
                auth,
                body,
                id,
                false,
                sent,
            ) == ProxyView::Done(failed(id, "upstream error: "@ + status_text@))
            &&& status == 401 && auth.auth_method == AuthMethod::OAuth && auth.oauth_token_url.len() > 0
                && auth.refresh_token.len() > 0 ==> next_of_sent(auth, body, id, false, sent) == (ProxyView::Refresh {
                token_url: auth.oauth_token_url,
                form: oauth::refresh_form(auth.client_id, auth.client_secret, auth.refresh_token),
                status_text: status_text@,
                body,
                id,
            })
            &&& next_of_sent(auth, body, id, false, Sent::Failed(e)) == ProxyView::Done(failed(id, e@))
        }),
        failed(id, body) == (AnswerView {
            result: AuditResultView::Error(body),
            body: Tree::Object(
                seq![
                    ("jsonrpc"@, Tree::Text("2.0"@)),
                    ("id"@, id),
                    (
                        "error"@,
                        Tree::Object(
                            seq![
                                ("code"@, Tree::Number(json::number_of_int((-32603) as i64))),
                                ("message"@, Tree::Text(body)),
                            ],
                        ),
                    ),
                ],
            ),
        }),
        passed_on(None, id) == failed(id, "upstream returned non-JSON body"@),
{
}

/// A request is sent at once, unless it needs an authorization that was not given yet.
pub proof fn requests_are_sent_once_authorized(auth: AuthModel, body: Tree, id: Tree)
    ensures
        proxy_start(auth, body, id) is Done <==> auth.auth_method == AuthMethod::OAuth && auth.access_token.len() == 0,
        proxy_start(auth, body, id) matches ProxyStep::Send { url, headers, body: b, id: i, retried } ==> {
            &&& url == target_of(auth)
            &&& headers == request_headers(bearer_of(auth), auth.extra_headers)
            &&& b == json::json_text(body.settled())
            &&& i == id && !retried
        },
{
}

/// A refused token that cannot be refreshed ends the request, and so does a refresh that fails.
pub proof fn refusals_without_a_refresh_end_the_request(
    auth: AuthModel,
    body: Seq<char>,
    id: Tree,
    status_text: String,
    answer: Vec<u8>,
)
    ensures
        auth.auth_method == AuthMethod::OAuth && (auth.oauth_token_url.len() == 0 || auth.refresh_token.len() == 0)
            ==> next_of_sent(auth, body, id, false, Sent::Answered { status: 401, status_text, body: answer })
            == ProxyView::Done(failed(id, "upstream error: "@ + status_text@)),
        next_of_refresh(auth, body, id, status_text@, None) == ProxyView::Done(
            failed(id, "upstream error: "@ + status_text@),
        ),
{
}

/// A request to the proxy is forbidden where its origin is not accepted, refused where it is no
/// JSON, and otherwise sent on as it is, under its id. Only a local Obsidian may have a
/// certificate that cannot be verified.
pub proof fn requests_to_the_proxy(origin_accepted: bool, body: Option<Tree>, r: Received, auth: AuthModel)
    requires
        is_received(origin_accepted, body, r),
    ensures
        r is Forbidden <==> !origin_accepted,
        r is Reply <==> origin_accepted && body is None,
        r matches Received::Forward { body: b, id } ==> body == Some(b.tree()) && id.tree() == b.tree().field("id"@),
        trusts_any_certificate(auth) <==> auth.preset is Some && auth.preset->0 == seq![
            'o',
            'b',
            's',
            'i',
            'd',
            'i',
            'a',
            'n',
        ],
{
    reveal_strlit("obsidian");
    assert("obsidian"@ =~= seq!['o', 'b', 's', 'i', 'd', 'i', 'a', 'n']);
}

} // verus!
