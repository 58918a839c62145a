//! A small OAuth 2 server that protects the public address of the bridge: who gets
//! a token, and which tokens count.
//!
//! Time is given in nanoseconds of a clock that never goes back.

use axum::http::HeaderMap;
use vstd::prelude::*;

use crate::crypto;
use crate::forms;
use crate::headers;
use crate::host;
use crate::json;
use crate::json::{Json, Tree};
use crate::string_map;
use crate::string_map::{Expiring, StringMap};
use crate::text;

verus! {

/// For how many seconds a token counts: a day.
pub const TOKEN_SECONDS: u64 = 86400;

/// For how many nanoseconds a token counts.
pub const TOKEN_TTL: u64 = 86_400_000_000_000;

/// For how many nanoseconds an authorization code counts: ten minutes.
pub const CODE_TTL: u64 = 600_000_000_000;

pub const UNAUTHORIZED: u16 = 401;

pub const BAD_REQUEST: u16 = 400;

pub const SUCCESS: u16 = 200;

/// The credentials of a client.
pub struct OAuthCredentials {
    pub client_id: String,
    pub client_secret: String,
}

/// A token that was issued.
pub struct Token {
    pub expires_at: u64,
}

impl Expiring for Token {
    open spec fn expiry(self) -> u64 {
        self.expires_at
    }

    fn expires_at(&self) -> (r: u64) {
        self.expires_at
    }
}

/// An authorization code that was issued.
pub struct AuthCode {
    pub code_challenge: String,
    pub redirect_uri: String,
    pub client_id: String,
    pub expires_at: u64,
}

impl Expiring for AuthCode {
    open spec fn expiry(self) -> u64 {
        self.expires_at
    }

    fn expires_at(&self) -> (r: u64) {
        self.expires_at
    }
}

/// The state of the server.
pub struct IncomingAuthState {
    credentials: OAuthCredentials,
    tokens: StringMap<Token>,
    auth_codes: StringMap<AuthCode>,
    local_enabled: bool,
    tunnel_active: bool,
}

/// The state of the server, mathematically.
pub struct AuthStateView {
    pub client_id: Seq<char>,
    pub client_secret: Seq<char>,
    pub tokens: Map<Seq<char>, Token>,
    pub auth_codes: Map<Seq<char>, AuthCode>,
    pub local_enabled: bool,
    pub tunnel_active: bool,
}

impl View for IncomingAuthState {
    type V = AuthStateView;

    closed spec fn view(&self) -> AuthStateView {
        AuthStateView {
            client_id: self.credentials.client_id@,
            client_secret: self.credentials.client_secret@,
            tokens: self.tokens@,
            auth_codes: self.auth_codes@,
            local_enabled: self.local_enabled,
            tunnel_active: self.tunnel_active,
        }
    }
}

impl AuthStateView {
    /// Whether a token counts.
    pub open spec fn valid(self, token: Seq<char>, now: u64) -> bool {
        self.tokens.contains_key(token) && self.tokens[token].expires_at > now
    }

    /// Whether requests have to prove who they are.
    pub open spec fn authenticates(self) -> bool {
        self.local_enabled || self.tunnel_active
    }

    /// The state after a token was issued; those that have expired are gone.
    pub open spec fn with_token(self, token: Seq<char>, now: u64) -> AuthStateView {
        AuthStateView {
            tokens: string_map::unexpired(self.tokens, now).insert(
                token,
                Token { expires_at: host::plus(now, TOKEN_TTL as nat) },
            ),
            ..self
        }
    }

    /// The state without an authorization code.
    pub open spec fn without_code(self, code: Seq<char>) -> AuthStateView {
        AuthStateView { auth_codes: self.auth_codes.remove(code), ..self }
    }

    /// Whether an authorization code can be exchanged: it was issued for this address,
    /// it counts, and the verifier belongs to its challenge.
    pub open spec fn exchangeable(self, code: Seq<char>, verifier: Seq<char>, redirect_uri: Seq<char>, now: u64) -> bool {
        &&& self.auth_codes.contains_key(code)
        &&& self.auth_codes[code].expires_at >= now
        &&& self.auth_codes[code].redirect_uri@ == redirect_uri
        &&& crypto::challenge_of(verifier) == self.auth_codes[code].code_challenge@
    }
}

impl IncomingAuthState {
    /// A state without tokens and codes, while the tunnel is not active.
    pub fn new(credentials: OAuthCredentials, local_enabled: bool) -> (r: IncomingAuthState)
        ensures
            r@ == (AuthStateView {
                client_id: credentials.client_id@,
                client_secret: credentials.client_secret@,
                tokens: Map::empty(),
                auth_codes: Map::empty(),
                local_enabled,
                tunnel_active: false,
            }),
    {
        IncomingAuthState {
            credentials,
            tokens: StringMap::new(),
            auth_codes: StringMap::new(),
            local_enabled,
            tunnel_active: false,
        }
    }

    /// Takes in a token; those that have expired are dropped.
    pub fn add_token(&mut self, token: &str, now: u64)
        ensures
            final(self)@ == old(self)@.with_token(token@, now),
    {
        self.tokens.drop_expired(now);
        self.tokens.insert(token, Token { expires_at: host::add_capped(now, TOKEN_TTL) });
    }

    /// Issues a token: 32 random bytes in hexadecimal.
    pub fn issue_token(&mut self, now: u64) -> (r: String)
        ensures
            crypto::is_hex_text(r@, 32),
            final(self)@ == old(self)@.with_token(r@, now),
    {
        let bytes = crypto::random_bytes(32);
        let token = crypto::to_hex(&bytes);
        self.add_token(&token, now);
        token
    }

    /// Whether a token counts.
    pub fn validate_token(&self, token: &str, now: u64) -> (r: bool)
        ensures
            r == self@.valid(token@, now),
    {
        match self.tokens.get(token) {
            Some(t) => t.expires_at > now,
            None => false,
        }
    }

    /// Takes in an authorization code; those that have expired are dropped.
    pub fn add_auth_code(&mut self, code: &str, client_id: &str, code_challenge: &str, redirect_uri: &str, now: u64)
        ensures
            ({
                let entry = final(self)@.auth_codes[code@];
                &&& entry.client_id@ == client_id@
                &&& entry.code_challenge@ == code_challenge@
                &&& entry.redirect_uri@ == redirect_uri@
                &&& entry.expires_at == host::plus(now, CODE_TTL as nat)
                &&& final(self)@ == (AuthStateView {
                    auth_codes: string_map::unexpired(old(self)@.auth_codes, now).insert(code@, entry),
                    ..old(self)@
                })
            }),
    {
        self.auth_codes.drop_expired(now);
        let entry = AuthCode {
            code_challenge: code_challenge.to_owned(),
            redirect_uri: redirect_uri.to_owned(),
            client_id: client_id.to_owned(),
            expires_at: host::add_capped(now, CODE_TTL),
        };
        self.auth_codes.insert(code, entry);
    }

    /// Issues an authorization code: 16 random bytes in hexadecimal.
    pub fn issue_auth_code(&mut self, client_id: &str, code_challenge: &str, redirect_uri: &str, now: u64) -> (r: String)
        ensures
            crypto::is_hex_text(r@, 16),
            ({
                let entry = final(self)@.auth_codes[r@];
                &&& entry.client_id@ == client_id@
                &&& entry.code_challenge@ == code_challenge@
                &&& entry.redirect_uri@ == redirect_uri@
                &&& entry.expires_at == host::plus(now, CODE_TTL as nat)
                &&& final(self)@ == (AuthStateView {
                    auth_codes: string_map::unexpired(old(self)@.auth_codes, now).insert(r@, entry),
                    ..old(self)@
                })
            }),
    {
        let bytes = crypto::random_bytes(16);
        let code = crypto::to_hex(&bytes);
        self.add_auth_code(&code, client_id, code_challenge, redirect_uri, now);
        code
    }

    /// Takes an authorization code out of the state, and tells whether it could be
    /// exchanged.
    pub fn consume_code(&mut self, code: &str, code_verifier: &str, redirect_uri: &str, now: u64) -> (r: bool)
        ensures
            r == old(self)@.exchangeable(code@, code_verifier@, redirect_uri@, now),
            final(self)@ == old(self)@.without_code(code@),
    {
        match self.auth_codes.remove(code) {
            Some(entry) => entry.expires_at >= now && text::same(&entry.redirect_uri, redirect_uri)
                && crypto::verify_pkce(code_verifier, &entry.code_challenge),
            None => false,
        }
    }

    /// Exchanges an authorization code for a token. The code is used up either way.
    pub fn exchange_code(&mut self, code: &str, code_verifier: &str, redirect_uri: &str, now: u64) -> (r: Option<String>)
        ensures
            match r {
                Some(token) => {
                    &&& old(self)@.exchangeable(code@, code_verifier@, redirect_uri@, now)
                    &&& crypto::is_hex_text(token@, 32)
                    &&& final(self)@ == old(self)@.without_code(code@).with_token(token@, now)
                },
                None => !old(self)@.exchangeable(code@, code_verifier@, redirect_uri@, now) && final(self)@
                    == old(self)@.without_code(code@),
            },
    {
        if self.consume_code(code, code_verifier, redirect_uri, now) {
            Some(self.issue_token(now))
        } else {
            None
        }
    }

    /// Replaces the credentials; every token is dropped.
    pub fn rotate_credentials(&mut self, new_creds: OAuthCredentials)
        ensures
            final(self)@ == (AuthStateView {
                client_id: new_creds.client_id@,
                client_secret: new_creds.client_secret@,
                tokens: Map::empty(),
                ..old(self)@
            }),
    {
        self.credentials = new_creds;
        self.tokens.clear();
    }

    /// Whether requests have to prove who they are.
    pub fn should_authenticate(&self) -> (r: bool)
        ensures
            r == self@.authenticates(),
    {
        self.local_enabled || self.tunnel_active
    }

    /// Sets whether local requests have to prove who they are.
    pub fn set_local_enabled(&mut self, v: bool)
        ensures
            final(self)@ == (AuthStateView { local_enabled: v, ..old(self)@ }),
    {
        self.local_enabled = v;
    }

    /// Sets whether the tunnel is active.
    pub fn set_tunnel_active(&mut self, v: bool)
        ensures
            final(self)@ == (AuthStateView { tunnel_active: v, ..old(self)@ }),
    {
        self.tunnel_active = v;
    }

    /// Whether the tunnel is active.
    pub fn is_tunnel_forced(&self) -> (r: bool)
        ensures
            r == self@.tunnel_active,
    {
        self.tunnel_active
    }

    /// Whether local requests have to prove who they are.
    pub fn local_enabled(&self) -> (r: bool)
        ensures
            r == self@.local_enabled,
    {
        self.local_enabled
    }

    /// Whether an id is that of the client.
    pub fn is_client(&self, client_id: &str) -> (r: bool)
        ensures
            r == (client_id@ == self@.client_id),
    {
        text::same(client_id, &self.credentials.client_id)
    }

    /// Whether an id and a secret are those of the client.
    pub fn knows(&self, client_id: &str, client_secret: &str) -> (r: bool)
        ensures
            r == (client_id@ == self@.client_id && client_secret@ == self@.client_secret),
    {
        text::same(client_id, &self.credentials.client_id) && text::same(
            client_secret,
            &self.credentials.client_secret,
        )
    }
}

// ── The token endpoint ────────────────────────────────────────────────────────

/// An answer over HTTP: its status and its body.
pub struct HttpReply {
    pub status: u16,
    pub body: Json,
}

/// An error as the body of an answer.
pub open spec fn error_body(error: Seq<char>) -> Tree {
    Tree::Object(seq![("error"@, Tree::Text(error))])
}

/// A token as the body of an answer.
pub open spec fn token_body(token: Seq<char>) -> Tree {
    Tree::Object(
        seq![
            ("access_token"@, Tree::Text(token)),
            ("token_type"@, Tree::Text("bearer"@)),
            ("expires_in"@, Tree::Number(json::number_of(TOKEN_SECONDS))),
        ],
    )
}

fn refuse(status: u16, error: &str) -> (r: HttpReply)
    ensures
        r.status == status,
        r.body.tree() == error_body(error@),
{
    HttpReply { status, body: Json::object1("error", Json::text(error)) }
}

/// The answer with a token.
pub fn grant(token: &str) -> (r: HttpReply)
    ensures
        r.status == SUCCESS,
        r.body.tree() == token_body(token@),
{
    HttpReply {
        status: SUCCESS,
        body: Json::object3(
            "access_token",
            Json::text(token),
            "token_type",
            Json::text("bearer"),
            "expires_in",
            Json::number(TOKEN_SECONDS),
        ),
    }
}

/// Whether an answer is a refusal.
pub open spec fn is_refusal(r: HttpReply, status: u16, error: Seq<char>) -> bool {
    r.status == status && r.body.tree() == error_body(error)
}

/// Whether an answer grants a token that the state then knows.
pub open spec fn is_grant(r: HttpReply, before: AuthStateView, after: AuthStateView, now: u64) -> bool {
    exists|token: Seq<char>|
        {
            &&& r.status == SUCCESS
            &&& r.body.tree() == token_body(token)
            &&& crypto::is_hex_text(token, 32)
            &&& after == #[trigger] before.with_token(token, now)
        }
}

/// Whether `r` is the answer to a request for a token with parameters `p`, which leaves the
/// state `after`: a client with its secret gets one, and so does an authorization code, once.
pub open spec fn token_answered(
    before: AuthStateView,
    p: Map<Seq<char>, Seq<char>>,
    now: u64,
    r: HttpReply,
    after: AuthStateView,
) -> bool {
    let grant_type = forms::param(p, "grant_type"@);
    if grant_type == "client_credentials"@ {
        if forms::param(p, "client_id"@) == before.client_id && forms::param(p, "client_secret"@) == before.client_secret {
            is_grant(r, before, after, now)
        } else {
            is_refusal(r, UNAUTHORIZED, "invalid_client"@) && after == before
        }
    } else if grant_type == "authorization_code"@ {
        let code = forms::param(p, "code"@);
        let verifier = forms::param(p, "code_verifier"@);
        let redirect_uri = forms::param(p, "redirect_uri"@);
        if before.exchangeable(code, verifier, redirect_uri, now) {
            is_grant(r, before.without_code(code), after, now)
        } else {
            is_refusal(r, BAD_REQUEST, "invalid_grant"@) && after == before.without_code(code)
        }
    } else {
        is_refusal(r, BAD_REQUEST, "unsupported_grant_type"@) && after == before
    }
}

/// The answer to a request for a token, by its parameters: a client with its secret
/// gets one, and so does an authorization code, once.
pub fn answer_token_request(auth: &mut IncomingAuthState, params: &StringMap<String>, now: u64) -> (r: HttpReply)
    ensures
        ({
            let p = forms::texts_of(params@);
            token_answered(old(auth)@, p, now, r, final(auth)@)
        }),
{
    let grant_type = forms::read_param(params, "grant_type");
    let client_id = forms::read_param(params, "client_id");
    if text::same(&grant_type, "client_credentials") {
        let client_secret = forms::read_param(params, "client_secret");
        if !auth.knows(&client_id, &client_secret) {
            return refuse(UNAUTHORIZED, "invalid_client");
        }
        let ghost before = auth@;
        let token = auth.issue_token(now);
        assert(auth@ == before.with_token(token@, now));
        grant(&token)
    } else if text::same(&grant_type, "authorization_code") {
        let code = forms::read_param(params, "code");
        let code_verifier = forms::read_param(params, "code_verifier");
        let redirect_uri = forms::read_param(params, "redirect_uri");
        match auth.exchange_code(&code, &code_verifier, &redirect_uri, now) {
            Some(token) => grant(&token),
            None => refuse(BAD_REQUEST, "invalid_grant"),
        }
    } else {
        refuse(BAD_REQUEST, "unsupported_grant_type")
    }
}

/// The answer to a request for a token, by its headers and its body.
pub fn token_endpoint(auth: &mut IncomingAuthState, headers: &HeaderMap, body: &[u8], now: u64) -> (r: HttpReply)
    ensures
        ({
            let content_type = match headers::header_value(*headers, "content-type"@) {
                Some(s) => s,
                None => ""@,
            };
            let p = forms::params_of(content_type, json::json_parsed(body@), body@);
            token_answered(old(auth)@, p, now, r, final(auth)@)
        }),
{
    let content_type = match headers::header(headers, "content-type") {
        Some(s) => s,
        None => "".to_owned(),
    };
    let params = forms::parse_body(&content_type, body);
    answer_token_request(auth, &params, now)
}

// ── Bearer tokens ─────────────────────────────────────────────────────────────

/// The token that an authorization header carries.
pub open spec fn bearer_token(header: Option<Seq<char>>) -> Option<Seq<char>> {
    match header {
        Some(s) => if "Bearer "@.is_prefix_of(s) {
            Some(text::trimmed(s.skip("Bearer "@.len() as int)))
        } else {
            None
        },
        None => None,
    }
}

/// Whether a request with this authorization header is let through.
pub open spec fn let_through(auth: AuthStateView, header: Option<Seq<char>>, now: u64) -> bool {
    !auth.authenticates() || (bearer_token(header) matches Some(t) && auth.valid(t, now))
}

/// What a request that is not let through is told.
pub open spec fn unauthorized_body() -> Tree {
    Tree::Object(
        seq![
            ("error"@, Tree::Text("unauthorized"@)),
            ("message"@, Tree::Text("Valid Bearer token required. Obtain one via POST /oauth/token"@)),
        ],
    )
}

/// Checks an authorization header: `None` where the request is let through, else the
/// answer to it.
pub fn check_authorization(auth: &IncomingAuthState, header: Option<&str>, now: u64) -> (r: Option<HttpReply>)
    ensures
        ({
            let h = match header {
                Some(s) => Some(s@),
                None => None,
            };
            match r {
                None => let_through(auth@, h, now),
                Some(a) => !let_through(auth@, h, now) && a.status == UNAUTHORIZED && a.body.tree()
                    == unauthorized_body(),
            }
        }),
{
    if !auth.should_authenticate() {
        return None;
    }
    if let Some(s) = header {
        if let Some(rest) = text::strip_prefix(s, "Bearer ") {
            if auth.validate_token(&text::trim(&rest), now) {
                return None;
            }
        }
    }
    Some(
        HttpReply {
            status: UNAUTHORIZED,
            body: Json::object2(
                "error",
                Json::text("unauthorized"),
                "message",
                Json::text("Valid Bearer token required. Obtain one via POST /oauth/token"),
            ),
        },
    )
}

/// Checks the authorization header of a request.
pub fn check_bearer(auth: &IncomingAuthState, headers: &HeaderMap, now: u64) -> (r: Option<HttpReply>)
    ensures
        ({
            let h = headers::header_value(*headers, "authorization"@);
            match r {
                None => let_through(auth@, h, now),
                Some(a) => !let_through(auth@, h, now) && a.status == UNAUTHORIZED && a.body.tree()
                    == unauthorized_body(),
            }
        }),
{
    match headers::header(headers, "authorization") {
        Some(s) => check_authorization(auth, Some(s.as_str()), now),
        None => check_authorization(auth, None, now),
    }
}

// ── Laws ──────────────────────────────────────────────────────────────────────

/// A token counts from the moment it is issued until its time is up, and not after,
/// unless something else happens to it.
pub proof fn issued_tokens_count_for_their_time(s: AuthStateView, token: Seq<char>, now: u64, later: u64)
    requires
        now + TOKEN_TTL <= u64::MAX,
    ensures
        s.with_token(token, now).valid(token, later) <==> later < now + TOKEN_TTL,
{
}

/// Issuing a token takes no other token away that still counts, and brings none back
/// that does not.
pub proof fn issuing_keeps_other_tokens(s: AuthStateView, token: Seq<char>, other: Seq<char>, now: u64, later: u64)
    requires
        other != token,
        now <= later,
    ensures
        s.with_token(token, now).valid(other, later) == s.valid(other, later),
{
}

/// After the credentials were replaced, no token counts any more.
pub proof fn rotation_ends_all_tokens(s: AuthStateView, id: Seq<char>, secret: Seq<char>, token: Seq<char>, now: u64)
    ensures
        !(AuthStateView { client_id: id, client_secret: secret, tokens: Map::empty(), ..s }).valid(token, now),
{
}

/// An authorization code is good once: after an exchange, successful or not, it cannot
/// be exchanged.
pub proof fn codes_are_good_once(
    s: AuthStateView,
    code: Seq<char>,
    verifier: Seq<char>,
    redirect_uri: Seq<char>,
    token: Seq<char>,
    now: u64,
    later: u64,
)
    ensures
        !s.without_code(code).exchangeable(code, verifier, redirect_uri, later),
        !s.without_code(code).with_token(token, now).exchangeable(code, verifier, redirect_uri, later),
{
}

/// While the tunnel is active, requests have to prove who they are, whatever the user
/// has set; and without a token that counts none is let through.
pub proof fn tunnel_forces_authentication(s: AuthStateView, header: Option<Seq<char>>, now: u64)
    requires
        s.tunnel_active,
    ensures
        s.authenticates(),
        let_through(s, header, now) ==> exists|t: Seq<char>| s.valid(t, now),
{
    if let_through(s, header, now) {
        let t = bearer_token(header)->0;
        assert(s.valid(t, now));
    }
}

/// A token as they are issued, in hexadecimal, lets a request through that carries it, for
/// as long as it counts.
pub proof fn issued_tokens_let_through(s: AuthStateView, token: Seq<char>, now: u64, later: u64)
    requires
        crypto::is_hex_text(token, 32),
        now + TOKEN_TTL <= u64::MAX,
        later < now + TOKEN_TTL,
    ensures
        let_through(s.with_token(token, now), Some("Bearer "@ + token), later),
{
    let bytes = choose|bytes: Seq<u8>| bytes.len() == 32 && token == #[trigger] crypto::hex(bytes);
    let h = "Bearer "@ + token;
    let n = "Bearer "@.len() as int;
    assert(h.subrange(0, n) =~= "Bearer "@);
    assert(h.skip(n) =~= token);
    crypto::hex_has_no_spaces(bytes);
    text::nothing_to_trim(token, text::Chars::White);
}

/// Whoever is granted a token by the endpoint gets through with it: the token stands in
/// the answer, and counts for its time.
pub proof fn granted_tokens_let_through(r: HttpReply, before: AuthStateView, after: AuthStateView, now: u64, later: u64)
    requires
        is_grant(r, before, after, now),
        now + TOKEN_TTL <= u64::MAX,
        later < now + TOKEN_TTL,
    ensures
        r.body.tree().field("access_token"@) matches Tree::Text(token) && let_through(
            after,
            Some("Bearer "@ + token),
            later,
        ),
{
    let token = choose|token: Seq<char>|
        {
            &&& r.status == SUCCESS
            &&& r.body.tree() == token_body(token)
            &&& crypto::is_hex_text(token, 32)
            &&& after == #[trigger] before.with_token(token, now)
        };
    issued_tokens_let_through(before, token, now, later);
    let t = token_body(token);
    assert(t->Object_0[0] == ("access_token"@, Tree::Text(token)));
}

// ── Codes over many calls ─────────────────────────────────────────────────────

/// A call that changes the state of the server.
#[allow(inconsistent_fields)]
pub enum AuthCall {
    /// A code was issued, as `entry` says.
    IssueCode { code: Seq<char>, entry: AuthCode, now: u64 },
    /// A code was exchanged; `token` is what came of it.
    Exchange { code: Seq<char>, token: Option<Seq<char>>, now: u64 },
    /// A token was issued.
    IssueToken { token: Seq<char>, now: u64 },
    /// The credentials were replaced.
    Rotate { client_id: Seq<char>, client_secret: Seq<char> },
    SetLocal(bool),
    SetTunnel(bool),
}

impl AuthStateView {
    /// The state after a call.
    pub open spec fn after(self, call: AuthCall) -> AuthStateView {
        match call {
            AuthCall::IssueCode { code, entry, now } => AuthStateView {
                auth_codes: string_map::unexpired(self.auth_codes, now).insert(code, entry),
                ..self
            },
            AuthCall::Exchange { code, token: Some(t), now } => self.without_code(code).with_token(t, now),
            AuthCall::Exchange { code, token: None, .. } => self.without_code(code),
            AuthCall::IssueToken { token, now } => self.with_token(token, now),
            AuthCall::Rotate { client_id, client_secret } => AuthStateView {
                client_id,
                client_secret,
                tokens: Map::empty(),
                ..self
            },
            AuthCall::SetLocal(v) => AuthStateView { local_enabled: v, ..self },
            AuthCall::SetTunnel(v) => AuthStateView { tunnel_active: v, ..self },
        }
    }

    /// The state after some calls, one after the other.
    pub open spec fn after_all(self, calls: Seq<AuthCall>) -> AuthStateView
        decreases calls.len(),
    {
        if calls.len() == 0 {
            self
        } else {
            self.after_all(calls.drop_last()).after(calls.last())
        }
    }
}

/// Whether a call ends a code that was good until `expires_at`: the code is exchanged or
/// issued anew, or another is issued once its time is up.
pub open spec fn ends_code(call: AuthCall, code: Seq<char>, expires_at: u64) -> bool {
    match call {
        AuthCall::IssueCode { code: c, now, .. } => c == code || expires_at <= now,
        AuthCall::Exchange { code: c, .. } => c == code,
        _ => false,
    }
}

/// Whether call `k` issued a code that no later call has ended.
pub open spec fn issued_for_good(calls: Seq<AuthCall>, k: int, code: Seq<char>, entry: AuthCode) -> bool {
    &&& 0 <= k < calls.len()
    &&& calls[k] matches AuthCall::IssueCode { code: c, entry: e, .. } && c == code && e == entry
    &&& forall|j: int| k < j < calls.len() ==> !ends_code(#[trigger] calls[j], code, entry.expires_at)
}

proof fn kept_codes(s: AuthStateView, calls: Seq<AuthCall>, code: Seq<char>)
    requires
        s.auth_codes == Map::<Seq<char>, AuthCode>::empty(),
    ensures
        s.after_all(calls).auth_codes.contains_key(code) ==> exists|k: int| #[trigger]
            issued_for_good(calls, k, code, s.after_all(calls).auth_codes[code]),
        forall|k: int, entry: AuthCode| #[trigger]
            issued_for_good(calls, k, code, entry) ==> s.after_all(calls).auth_codes.contains_key(code)
                && s.after_all(calls).auth_codes[code] == entry,
    decreases calls.len(),
{
    if calls.len() > 0 {
        let before = calls.drop_last();
        let last = calls.last();
        let n = before.len() as int;
        kept_codes(s, before, code);
        let was = s.after_all(before).auth_codes;
        let now = s.after_all(calls).auth_codes;
        if now.contains_key(code) {
            if last matches AuthCall::IssueCode { code: c, .. } && c == code {
                assert(issued_for_good(calls, n, code, now[code]));
            } else {
                assert(was.contains_key(code) && was[code] == now[code]);
                let k = choose|k: int| #[trigger] issued_for_good(before, k, code, was[code]);
                assert forall|j: int| k < j < calls.len() implies !ends_code(
                    #[trigger] calls[j],
                    code,
                    now[code].expires_at,
                ) by {
                    if j < n {
                        assert(calls[j] == before[j]);
                    }
                }
                assert(calls[k] == before[k]);
                assert(issued_for_good(calls, k, code, now[code]));
            }
        }
        assert forall|k: int, entry: AuthCode| #[trigger] issued_for_good(calls, k, code, entry) implies now.contains_key(
            code,
        ) && now[code] == entry by {
            if k < n {
                assert(before[k] == calls[k]);
                assert forall|j: int| k < j < before.len() implies !ends_code(
                    #[trigger] before[j],
                    code,
                    entry.expires_at,
                ) by {
                    assert(before[j] == calls[j]);
                }
                assert(issued_for_good(before, k, code, entry));
                assert(!ends_code(calls[n], code, entry.expires_at));
            }
        }
    }
}

/// Whatever calls were made since the server was started, a code can be exchanged if and
/// only if one of them issued it, for this address and to whoever has this verifier, its
/// time is not up, and no later call has ended it. In particular no code is good twice.
pub proof fn exchangeable_codes_were_issued(
    s: AuthStateView,
    calls: Seq<AuthCall>,
    code: Seq<char>,
    verifier: Seq<char>,
    redirect_uri: Seq<char>,
    now: u64,
)
    requires
        s.auth_codes == Map::<Seq<char>, AuthCode>::empty(),
    ensures
        s.after_all(calls).exchangeable(code, verifier, redirect_uri, now) <==> exists|k: int, entry: AuthCode|
            {
                &&& #[trigger] issued_for_good(calls, k, code, entry)
                &&& entry.expires_at >= now
                &&& entry.redirect_uri@ == redirect_uri
                &&& crypto::challenge_of(verifier) == entry.code_challenge@
            },
{
    kept_codes(s, calls, code);
    let codes = s.after_all(calls).auth_codes;
    if s.after_all(calls).exchangeable(code, verifier, redirect_uri, now) {
        let k = choose|k: int| #[trigger] issued_for_good(calls, k, code, codes[code]);
        assert(issued_for_good(calls, k, code, codes[code]));
    }
}

// ── What tokens and codes are worth ───────────────────────────────────────────

/// The token of a request stands behind `Bearer` and a space, white space around it aside; any
/// other header carries none.
pub proof fn headers_carry_tokens(w1: Seq<char>, t: Seq<char>, w2: Seq<char>, other: Seq<char>)
    requires
        forall|i: int| 0 <= i < w1.len() ==> text::is_white(#[trigger] w1[i]),
        forall|i: int| 0 <= i < w2.len() ==> text::is_white(#[trigger] w2[i]),
        t.len() > 0 ==> !text::is_white(t[0]) && !text::is_white(t.last()),
        !seq!['B', 'e', 'a', 'r', 'e', 'r', ' '].is_prefix_of(other),
    ensures
        bearer_token(Some(seq!['B', 'e', 'a', 'r', 'e', 'r', ' '] + (w1 + t + w2))) == Some(t),
        bearer_token(Some(other)) is None,
        bearer_token(None) is None,
{
    reveal_strlit("Bearer ");
    let p = seq!['B', 'e', 'a', 'r', 'e', 'r', ' '];
    assert("Bearer "@ =~= p);
    let h = p + (w1 + t + w2);
    assert(h.subrange(0, 7) =~= p);
    assert(h.skip(7) =~= w1 + t + w2);
    text::surroundings_are_trimmed(w1, t, w2, text::Chars::White);
}

/// A request is let through where none has to prove who it is, or where its token was issued
/// and is not older than a day.
pub proof fn requests_that_are_let_through(s: AuthStateView, header: Option<Seq<char>>, now: u64)
    ensures
        let_through(s, header, now) <==> (!s.local_enabled && !s.tunnel_active) || (bearer_token(header) matches Some(t)
            && s.tokens.contains_key(t) && now < s.tokens[t].expires_at),
{
}

/// A token is good for a day, and a code, which `entry` is, for ten minutes, where it is
/// brought back to the address that it was issued for, by whoever has the verifier.
pub proof fn tokens_and_codes_have_their_time(
    s: AuthStateView,
    token: Seq<char>,
    code: Seq<char>,
    entry: AuthCode,
    verifier: Seq<char>,
    uri: Seq<char>,
    now: u64,
    later: u64,
)
    requires
        now + 86_400_000_000_000 <= u64::MAX,
        s.auth_codes.contains_key(code),
        s.auth_codes[code] == entry,
        entry.expires_at == host::plus(now, CODE_TTL as nat),
    ensures
        s.with_token(token, now).valid(token, later) <==> later < now + 86_400_000_000_000,
        s.exchangeable(code, verifier, uri, later) <==> later <= now + 600_000_000_000 && entry.redirect_uri@ == uri
            && crypto::challenge_of(verifier) == entry.code_challenge@,
        !s.auth_codes.contains_key(token) ==> !s.exchangeable(token, verifier, uri, later),
{
}

/// A granted token is told with its kind and for how many seconds it is good, and a refusal
/// with its reason.
pub proof fn answers_tell_the_token(token: Seq<char>, error: Seq<char>)
    ensures
        token_body(token) == Tree::Object(
            seq![
                ("access_token"@, Tree::Text(token)),
                ("token_type"@, Tree::Text("bearer"@)),
                ("expires_in"@, Tree::Number(json::number_of(86400))),
            ],
        ),
        error_body(error) == Tree::Object(seq![("error"@, Tree::Text(error))]),
        SUCCESS == 200 && BAD_REQUEST == 400 && UNAUTHORIZED == 401,
{
}

/// An expired token or code is dropped when another is issued, and one that is not expired is
/// kept.
pub proof fn expired_entries_are_dropped(s: AuthStateView, token: Seq<char>, other: Seq<char>, now: u64)
    requires
        other != token,
    ensures
        s.with_token(token, now).tokens.contains_key(other) <==> s.tokens.contains_key(other) && s.tokens[other].expires_at
            > now,
        s.with_token(token, now).auth_codes == s.auth_codes,
        !s.without_code(token).auth_codes.contains_key(token),
        s.without_code(token).auth_codes.contains_key(other) == s.auth_codes.contains_key(other),
        s.without_code(token).tokens == s.tokens,
{
}

/// A token is granted to whoever has the id and the secret of the client, and to whoever
/// brings a code with its verifier and its address in time; to nobody else. Whoever is refused
/// leaves no token behind, and a code is used up by the attempt.
pub proof fn tokens_are_granted_to_whoever_may_have_them(
    before: AuthStateView,
    p: Map<Seq<char>, Seq<char>>,
    now: u64,
    r: HttpReply,
    after: AuthStateView,
)
    requires
        token_answered(before, p, now, r, after),
    ensures
        ({
            let grant_type = forms::param(p, "grant_type"@);
            let code = forms::param(p, "code"@);
            let has_secret = grant_type == "client_credentials"@ && forms::param(p, "client_id"@) == before.client_id
                && forms::param(p, "client_secret"@) == before.client_secret;
            let has_code = grant_type == "authorization_code"@ && before.auth_codes.contains_key(code)
                && before.auth_codes[code].expires_at >= now && before.auth_codes[code].redirect_uri@ == forms::param(
                p,
                "redirect_uri"@,
            ) && crypto::challenge_of(forms::param(p, "code_verifier"@)) == before.auth_codes[code].code_challenge@;
            &&& r.status == 200 <==> has_secret || has_code
            &&& r.status == 200 || r.status == 400 || r.status == 401
            &&& r.status == 401 <==> grant_type == "client_credentials"@ && !has_secret
            &&& r.status != 200 ==> after.tokens == before.tokens
            &&& r.status == 200 ==> exists|token: Seq<char>| #[trigger] after.tokens.contains_key(token) && crypto::is_hex_text(
                token,
                32,
            ) && r.body.tree() == token_body(token)
            &&& grant_type == "authorization_code"@ ==> !after.auth_codes.contains_key(code)
            &&& grant_type != "authorization_code"@ ==> after.auth_codes == before.auth_codes
        }),
{
    reveal_strlit("client_credentials");
    reveal_strlit("authorization_code");
    assert("client_credentials"@[0] == 'c' && "authorization_code"@[0] == 'a');
    let grant_type = forms::param(p, "grant_type"@);
    let code = forms::param(p, "code"@);
    if r.status == 200 {
        let base = if grant_type == "client_credentials"@ { before } else { before.without_code(code) };
        let token = choose|token: Seq<char>|
            {
                &&& r.status == SUCCESS
                &&& r.body.tree() == token_body(token)
                &&& crypto::is_hex_text(token, 32)
                &&& after == #[trigger] base.with_token(token, now)
            };
        assert(after.tokens.contains_key(token));
    }
}

} // verus!
