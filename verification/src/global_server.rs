//! The one server that all connections share: a table from paths to what serves them,
//! and whether it listens.

use axum::http::HeaderMap;
use vstd::prelude::*;

use crate::headers;
use crate::incoming_auth;
use crate::incoming_auth::{AuthStateView, HttpReply, IncomingAuthState};
use crate::json;
use crate::json::{Json, Tree};
use crate::models;
use crate::string_map::StringMap;
use crate::text;

verus! {

/// The port that the bridge listens on, where no other is set.
pub const DEFAULT_PORT: u16 = models::DEFAULT_PORT;

/// How many seconds the bridge waits for its server to stop.
pub const STOP_SECONDS: u64 = 2;

// ── The table ─────────────────────────────────────────────────────────────────

/// The server: what serves each path, its port, whether it listens, and whether it
/// authenticates its requests.
pub struct GlobalServer<S> {
    dispatch: StringMap<S>,
    running: bool,
    port: u16,
    with_auth: bool,
}

/// The server, mathematically.
pub struct ServerView<S> {
    pub dispatch: Map<Seq<char>, S>,
    pub running: bool,
    pub port: u16,
    pub with_auth: bool,
}

impl<S> View for GlobalServer<S> {
    type V = ServerView<S>;

    closed spec fn view(&self) -> ServerView<S> {
        ServerView {
            dispatch: self.dispatch@,
            running: self.running,
            port: self.port,
            with_auth: self.with_auth,
        }
    }
}

/// What the host does about listening.
#[derive(Clone, Copy, Debug, PartialEq, Eq, Structural)]
pub enum Listening {
    /// It goes on as before.
    Keep,
    /// It starts to listen on a port of 127.0.0.1.
    Bind { port: u16 },
}

impl<S> GlobalServer<S> {
    /// A server that does not listen yet and serves nothing.
    pub fn new(port: u16) -> (r: GlobalServer<S>)
        ensures
            r@ == (ServerView::<S> { dispatch: Map::empty(), running: false, port, with_auth: false }),
    {
        GlobalServer { dispatch: StringMap::new(), running: false, port, with_auth: false }
    }

    /// From now on requests are authenticated, and the bridge has an authorization server.
    pub fn set_auth(&mut self)
        ensures
            final(self)@ == (ServerView { with_auth: true, ..old(self)@ }),
    {
        self.with_auth = true;
    }

    /// Whether requests are authenticated, and the bridge has an authorization server.
    pub fn has_auth(&self) -> (r: bool)
        ensures
            r == self@.with_auth,
    {
        self.with_auth
    }

    /// What is to be done to start the server: nothing, where it listens.
    pub fn start(&self) -> (r: Listening)
        ensures
            r == (if self@.running {
                Listening::Keep
            } else {
                Listening::Bind { port: self@.port }
            }),
    {
        if self.running {
            Listening::Keep
        } else {
            Listening::Bind { port: self.port }
        }
    }

    /// Takes note of whether the host could bind the port.
    pub fn after_bind(&mut self, bound: bool)
        ensures
            final(self)@ == (ServerView { running: old(self)@.running || bound, ..old(self)@ }),
    {
        if bound {
            self.running = true;
        }
    }

    /// Takes note that the server is stopped.
    pub fn stop(&mut self)
        ensures
            final(self)@ == (ServerView { running: false, ..old(self)@ }),
    {
        self.running = false;
    }

    /// Stops the server and changes its port; what is to be done to start it again.
    pub fn restart_on_port(&mut self, new_port: u16) -> (r: Listening)
        ensures
            final(self)@ == (ServerView { running: false, port: new_port, ..old(self)@ }),
            r == (Listening::Bind { port: new_port }),
    {
        self.stop();
        self.port = new_port;
        self.start()
    }

    /// The port of the server.
    pub fn port(&self) -> (r: u16)
        ensures
            r == self@.port,
    {
        self.port
    }

    /// Whether the server listens.
    pub fn is_running(&self) -> (r: bool)
        ensures
            r == self@.running,
    {
        self.running
    }

    /// Puts what serves a path into the table.
    pub fn register(&mut self, path: &str, service: S)
        ensures
            final(self)@ == (ServerView { dispatch: old(self)@.dispatch.insert(path@, service), ..old(self)@ }),
    {
        self.dispatch.insert(path, service);
    }

    /// Takes what serves a path out of the table.
    pub fn unregister(&mut self, path: &str)
        ensures
            final(self)@ == (ServerView { dispatch: old(self)@.dispatch.remove(path@), ..old(self)@ }),
    {
        let _ = self.dispatch.remove(path);
    }

    /// Whether something serves a path.
    pub fn is_registered(&self, path: &str) -> (r: bool)
        ensures
            r == self@.dispatch.contains_key(path@),
    {
        self.dispatch.contains_key(path)
    }

    /// What serves a path; where nothing does, the request is not found.
    pub fn route(&self, path: &str) -> (r: Option<&S>)
        ensures
            match r {
                Some(s) => self@.dispatch.contains_key(path@) && self@.dispatch[path@] == *s,
                None => !self@.dispatch.contains_key(path@),
            },
    {
        self.dispatch.get(path)
    }

    /// Routes a request that goes to a connection: where requests are authenticated, it
    /// needs a token that counts.
    pub fn route_request(&self, auth: &IncomingAuthState, headers: &HeaderMap, path: &str, now: u64) -> (r: Routed<
        '_,
        S,
    >)
        ensures
            is_routed(self@, auth@, headers::header_value(*headers, "authorization"@), path@, now, r),
    {
        if self.with_auth {
            if let Some(a) = incoming_auth::check_bearer(auth, headers, now) {
                return Routed::Refused(a);
            }
        }
        match self.route(path) {
            Some(s) => Routed::Found(s),
            None => Routed::NotFound,
        }
    }
}

// ── Requests ──────────────────────────────────────────────────────────────────

/// Where a request to a connection ends up.
pub enum Routed<'a, S> {
    /// It is answered so, for want of a token.
    Refused(HttpReply),
    /// With what serves its path.
    Found(&'a S),
    NotFound,
}

/// Whether a request with an authorization header gets past the door.
pub open spec fn admitted<S>(server: ServerView<S>, auth: AuthStateView, header: Option<Seq<char>>, now: u64) -> bool {
    !server.with_auth || incoming_auth::let_through(auth, header, now)
}

/// Whether a request with an authorization header, for a path, ends up at `r`.
pub open spec fn is_routed<S>(
    server: ServerView<S>,
    auth: AuthStateView,
    header: Option<Seq<char>>,
    path: Seq<char>,
    now: u64,
    r: Routed<'_, S>,
) -> bool {
    match r {
        Routed::Refused(a) => {
            &&& !admitted(server, auth, header, now)
            &&& a.status == incoming_auth::UNAUTHORIZED
            &&& a.body.tree() == incoming_auth::unauthorized_body()
        },
        Routed::Found(s) => {
            &&& admitted(server, auth, header, now)
            &&& server.dispatch.contains_key(path)
            &&& server.dispatch[path] == *s
        },
        Routed::NotFound => {
            &&& admitted(server, auth, header, now)
            &&& !server.dispatch.contains_key(path)
        },
    }
}

// ── Discovery ─────────────────────────────────────────────────────────────────

/// The address of the bridge, as the host of a request names it: a public name is
/// reached over TLS.
pub open spec fn base_address(host: Seq<char>) -> Seq<char> {
    let public = host.contains('.') && !"127."@.is_prefix_of(host) && !"localhost"@.is_prefix_of(host);
    if public {
        "https://"@ + host
    } else {
        "http://"@ + host
    }
}

/// What the bridge tells of its authorization server.
pub open spec fn discovery_tree(base: Seq<char>) -> Tree {
    let one = |s: Seq<char>| Tree::Array(seq![Tree::Text(s)]);
    Tree::Object(
        seq![
            ("issuer"@, Tree::Text(base)),
            ("authorization_endpoint"@, Tree::Text(base + "/oauth/authorize"@)),
            ("token_endpoint"@, Tree::Text(base + "/oauth/token"@)),
            ("response_types_supported"@, one("code"@)),
            (
                "grant_types_supported"@,
                Tree::Array(seq![Tree::Text("authorization_code"@), Tree::Text("client_credentials"@)]),
            ),
            ("code_challenge_methods_supported"@, one("S256"@)),
            ("token_endpoint_auth_methods_supported"@, one("client_secret_post"@)),
        ],
    )
}

fn one_text(s: &str) -> (r: Json)
    ensures
        r.tree() == Tree::Array(seq![Tree::Text(s@)]),
{
    let mut v: Vec<Json> = Vec::new();
    v.push(Json::text(s));
    assert(json::trees(v@) =~= seq![Tree::Text(s@)]);
    Json::array(v)
}

/// What the bridge tells of its authorization server, under the name of a host.
pub fn describe_authorization(host: &str) -> (r: Json)
    ensures
        r.tree() == discovery_tree(base_address(host@)),
{
    let public = text::contains_char(host, '.') && !text::starts_with(host, "127.") && !text::starts_with(
        host,
        "localhost",
    );
    let base = if public {
        text::cat("https://", host)
    } else {
        text::cat("http://", host)
    };
    let mut grants: Vec<Json> = Vec::new();
    grants.push(Json::text("authorization_code"));
    grants.push(Json::text("client_credentials"));
    assert(json::trees(grants@) =~= seq![Tree::Text("authorization_code"@), Tree::Text("client_credentials"@)]);
    let mut m: Vec<(String, Json)> = Vec::new();
    m.push(("issuer".to_owned(), Json::text(&base)));
    m.push(("authorization_endpoint".to_owned(), Json::text(&text::cat(&base, "/oauth/authorize"))));
    m.push(("token_endpoint".to_owned(), Json::text(&text::cat(&base, "/oauth/token"))));
    m.push(("response_types_supported".to_owned(), one_text("code")));
    m.push(("grant_types_supported".to_owned(), Json::array(grants)));
    m.push(("code_challenge_methods_supported".to_owned(), one_text("S256")));
    m.push(("token_endpoint_auth_methods_supported".to_owned(), one_text("client_secret_post")));
    assert(json::members(m@) =~= discovery_tree(base_address(host@))->Object_0);
    Json::object(m)
}

/// What the bridge tells of its authorization server, by the headers of a request.
pub fn discovery_handler(headers: &HeaderMap) -> (r: Json)
    ensures
        r.tree() == discovery_tree(
            base_address(
                match headers::header_value(*headers, "host"@) {
                    Some(h) => h,
                    None => "127.0.0.1:51552"@,
                },
            ),
        ),
{
    match headers::header(headers, "host") {
        Some(h) => describe_authorization(&h),
        None => describe_authorization("127.0.0.1:51552"),
    }
}

// ── Authorization ─────────────────────────────────────────────────────────────

/// What a client asks for when it wants to be authorized.
pub struct AuthorizeParams {
    pub client_id: String,
    pub redirect_uri: String,
    pub state: Option<String>,
    pub code_challenge: String,
    pub code_challenge_method: Option<String>,
    pub response_type: String,
}

/// What a client is answered that wants to be authorized.
pub enum Authorized {
    /// It is refused, with a status and a word.
    Refused { status: u16, error: String },
    /// Its user is sent on to an address.
    Redirect { location: String },
}

/// Why a client is refused, by the id of the client that is known.
pub open spec fn refusal(client_id: Seq<char>, p: AuthorizeParams) -> Option<(u16, Seq<char>)> {
    if p.response_type@ != "code"@ {
        Some((incoming_auth::BAD_REQUEST, "unsupported_response_type"@))
    } else if p.code_challenge_method matches Some(m) && m@ != "S256"@ {
        Some((incoming_auth::BAD_REQUEST, "unsupported_code_challenge_method"@))
    } else if p.client_id@ != client_id {
        Some((incoming_auth::UNAUTHORIZED, "invalid_client"@))
    } else {
        None
    }
}

/// Where the user of a client is sent, with a code.
pub open spec fn redirect_location(redirect_uri: Seq<char>, code: Seq<char>, state: Option<Seq<char>>) -> Seq<char> {
    let location = redirect_uri + "?code="@ + code;
    match state {
        Some(s) => location + "&state="@ + s,
        None => location,
    }
}

/// Where the user of a client is sent, with a code.
pub fn make_location(redirect_uri: &str, code: &str, state: &Option<String>) -> (r: String)
    ensures
        r@ == redirect_location(redirect_uri@, code@, models::optional_text(*state)),
{
    let mut location = text::cat3(redirect_uri, "?code=", code);
    if let Some(s) = state {
        location.append("&state=");
        location.append(s);
    }
    location
}

/// Whether a code was issued for a client, and its user is sent on with it.
pub open spec fn is_redirect(
    r: Authorized,
    p: AuthorizeParams,
    before: AuthStateView,
    after: AuthStateView,
    now: u64,
) -> bool {
    exists|code: Seq<char>|
        {
            let entry = #[trigger] after.auth_codes[code];
            &&& r matches Authorized::Redirect { location } && location@ == redirect_location(
                p.redirect_uri@,
                code,
                models::optional_text(p.state),
            )
            &&& crate::crypto::is_hex_text(code, 16)
            &&& entry.client_id@ == p.client_id@
            &&& entry.code_challenge@ == p.code_challenge@
            &&& entry.redirect_uri@ == p.redirect_uri@
            &&& entry.expires_at == crate::host::plus(now, incoming_auth::CODE_TTL as nat)
            &&& after == (AuthStateView {
                auth_codes: crate::string_map::unexpired(before.auth_codes, now).insert(code, entry),
                ..before
            })
        }
}

/// Authorizes a client: a code is issued, and its user is sent back with it.
pub fn authorize_handler(auth: &mut IncomingAuthState, p: AuthorizeParams, now: u64) -> (r: Authorized)
    ensures
        match refusal(old(auth)@.client_id, p) {
            Some((status, error)) => {
                &&& r matches Authorized::Refused { status: s, error: e } && s == status && e@ == error
                &&& final(auth)@ == old(auth)@
            },
            None => is_redirect(r, p, old(auth)@, final(auth)@, now),
        },
{
    if !text::same(&p.response_type, "code") {
        return Authorized::Refused {
            status: incoming_auth::BAD_REQUEST,
            error: "unsupported_response_type".to_owned(),
        };
    }
    if let Some(m) = &p.code_challenge_method {
        if !text::same(m, "S256") {
            return Authorized::Refused {
                status: incoming_auth::BAD_REQUEST,
                error: "unsupported_code_challenge_method".to_owned(),
            };
        }
    }
    if !auth.is_client(&p.client_id) {
        return Authorized::Refused { status: incoming_auth::UNAUTHORIZED, error: "invalid_client".to_owned() };
    }
    let code = auth.issue_auth_code(&p.client_id, &p.code_challenge, &p.redirect_uri, now);
    let location = make_location(&p.redirect_uri, &code, &p.state);
    let r = Authorized::Redirect { location };
    assert(auth@.auth_codes[code@].client_id@ == p.client_id@);
    r
}

// ── Laws ──────────────────────────────────────────────────────────────────────

/// Where requests are authenticated and have to prove who they are, as they do while the
/// tunnel is active, none gets to a connection without a token that counts.
pub proof fn connections_need_a_token<S>(
    server: ServerView<S>,
    auth: AuthStateView,
    header: Option<Seq<char>>,
    now: u64,
)
    requires
        server.with_auth,
        auth.tunnel_active || auth.local_enabled,
        admitted(server, auth, header, now),
    ensures
        exists|token: Seq<char>|
            incoming_auth::bearer_token(header) == Some(token) && #[trigger] auth.valid(token, now),
{
    assert(auth.valid(incoming_auth::bearer_token(header)->0, now));
}

/// What is registered is routed to until it is taken out again, and no other path is
/// touched.
pub proof fn registered_paths_are_routed<S>(dispatch: Map<Seq<char>, S>, path: Seq<char>, service: S, other: Seq<char>)
    ensures
        dispatch.insert(path, service).contains_key(path),
        dispatch.insert(path, service)[path] == service,
        !dispatch.insert(path, service).remove(path).contains_key(path),
        other != path ==> {
            &&& dispatch.insert(path, service).contains_key(other) == dispatch.contains_key(other)
            &&& dispatch.remove(path).contains_key(other) == dispatch.contains_key(other)
        },
{
}

/// The code with which a user is sent back can be exchanged by whoever has the verifier,
/// at the same address and within its time.
pub proof fn issued_codes_can_be_exchanged(
    r: Authorized,
    p: AuthorizeParams,
    before: AuthStateView,
    after: AuthStateView,
    verifier: Seq<char>,
    now: u64,
    later: u64,
)
    requires
        is_redirect(r, p, before, after, now),
        now + incoming_auth::CODE_TTL <= u64::MAX,
        later <= now + incoming_auth::CODE_TTL,
        crate::crypto::challenge_of(verifier) == p.code_challenge@,
    ensures
        exists|code: Seq<char>|
            {
                &&& r matches Authorized::Redirect { location } && location@ == redirect_location(
                    p.redirect_uri@,
                    code,
                    models::optional_text(p.state),
                )
                &&& #[trigger] after.exchangeable(code, verifier, p.redirect_uri@, later)
            },
{
    let code = choose|code: Seq<char>|
        {
            let entry = #[trigger] after.auth_codes[code];
            &&& r matches Authorized::Redirect { location } && location@ == redirect_location(
                p.redirect_uri@,
                code,
                models::optional_text(p.state),
            )
            &&& crate::crypto::is_hex_text(code, 16)
            &&& entry.client_id@ == p.client_id@
            &&& entry.code_challenge@ == p.code_challenge@
            &&& entry.redirect_uri@ == p.redirect_uri@
            &&& entry.expires_at == crate::host::plus(now, incoming_auth::CODE_TTL as nat)
            &&& after == (AuthStateView {
                auth_codes: crate::string_map::unexpired(before.auth_codes, now).insert(code, entry),
                ..before
            })
        };
    assert(after.exchangeable(code, verifier, p.redirect_uri@, later));
}

/// A public host, which has a dot in its name and is not this machine by its number or its
/// name, is reached over HTTPS; any other over HTTP.
pub proof fn public_hosts_are_reached_over_https(host: Seq<char>)
    ensures
        base_address(host) == (if host.contains('.') && !seq!['1', '2', '7', '.'].is_prefix_of(host) && !seq![
            'l',
            'o',
            'c',
            'a',
            'l',
            'h',
            'o',
            's',
            't',
        ].is_prefix_of(host) {
            "https://"@ + host
        } else {
            "http://"@ + host
        }),
{
    reveal_strlit("127.");
    reveal_strlit("localhost");
    assert("127."@ =~= seq!['1', '2', '7', '.']);
    assert("localhost"@ =~= seq!['l', 'o', 'c', 'a', 'l', 'h', 'o', 's', 't']);
}

/// What is told of the authorization server: its address and those of its parts below it, and
/// what it supports.
pub proof fn the_authorization_server_is_described(base: Seq<char>)
    ensures
        discovery_tree(base) == Tree::Object(
            seq![
                ("issuer"@, Tree::Text(base)),
                ("authorization_endpoint"@, Tree::Text(base + "/oauth/authorize"@)),
                ("token_endpoint"@, Tree::Text(base + "/oauth/token"@)),
                ("response_types_supported"@, Tree::Array(seq![Tree::Text("code"@)])),
                (
                    "grant_types_supported"@,
                    Tree::Array(seq![Tree::Text("authorization_code"@), Tree::Text("client_credentials"@)]),
                ),
                ("code_challenge_methods_supported"@, Tree::Array(seq![Tree::Text("S256"@)])),
                ("token_endpoint_auth_methods_supported"@, Tree::Array(seq![Tree::Text("client_secret_post"@)])),
            ],
        ),
{
}

/// A client is authorized where it asks for a code, by the one method of challenges or none
/// that it names, under the id that is known; and is refused otherwise.
pub proof fn known_clients_are_authorized(client_id: Seq<char>, p: AuthorizeParams)
    ensures
        refusal(client_id, p) is None <==> p.response_type@ == "code"@ && (p.code_challenge_method is None || (
        p.code_challenge_method matches Some(m) && m@ == "S256"@)) && p.client_id@ == client_id,
        refusal(client_id, p) matches Some((status, error)) ==> (status == 400 && error == "unsupported_response_type"@) || (
        status == 400 && error == "unsupported_code_challenge_method"@) || (status == 401 && error == "invalid_client"@),
        p.response_type@ != "code"@ ==> refusal(client_id, p) == Some((400u16, "unsupported_response_type"@)),
        p.response_type@ == "code"@ && p.code_challenge_method is None && p.client_id@ != client_id ==> refusal(client_id, p)
            == Some((401u16, "invalid_client"@)),
{
}

/// A user is sent back to the address that was asked for, with the code, and with the state
/// that was given.
pub proof fn users_are_sent_back_with_the_code(uri: Seq<char>, code: Seq<char>, state: Seq<char>)
    ensures
        redirect_location(uri, code, None) == uri + "?code="@ + code,
        redirect_location(uri, code, Some(state)) == uri + "?code="@ + code + "&state="@ + state,
{
}

/// Where requests are authenticated, one without a token that counts is refused with the status
/// 401, whatever its path is; any other gets to what serves its path, or is not found.
pub proof fn requests_are_routed_once_they_are_let_through<S>(
    server: ServerView<S>,
    auth: AuthStateView,
    header: Option<Seq<char>>,
    path: Seq<char>,
    now: u64,
    r: Routed<'_, S>,
)
    requires
        is_routed(server, auth, header, path, now, r),
    ensures
        ({
            let open = !server.with_auth || (!auth.local_enabled && !auth.tunnel_active) || (incoming_auth::bearer_token(header) matches Some(
                t,
            ) && auth.tokens.contains_key(t) && auth.tokens[t].expires_at > now);
            &&& !open <==> r is Refused
            &&& r matches Routed::Refused(a) ==> a.status == 401
            &&& open && server.dispatch.contains_key(path) <==> r is Found
            &&& r matches Routed::Found(s) ==> *s == server.dispatch[path]
            &&& open && !server.dispatch.contains_key(path) <==> r is NotFound
        }),
{
}

} // verus!
