//! What the bridge keeps: connections, their credentials, the audit entries.

use std::path::PathBuf;

use uuid::Uuid;
use vstd::prelude::*;
use vstd::std_specs::convert::FromSpecImpl;

use crate::text;

verus! {

/// The port that the bridge listens on, where no other is set.
pub const DEFAULT_PORT: u16 = 51552;

// ── Identities and times ──────────────────────────────────────────────────────

/// `uuid`'s identifier, carried through as it is.
#[verifier::external_type_specification]
#[verifier::external_body]
pub struct ExUuid(uuid::Uuid);

/// The text of an identifier.
pub uninterp spec fn uuid_text(id: uuid::Uuid) -> Seq<char>;

/// Calls `to_string` on a `Uuid`; the text is a function of the identifier.
#[verifier::external_body]
pub(crate) fn id_text(id: &Uuid) -> (r: String)
    ensures
        r@ == uuid_text(*id),
{
    id.to_string()
}

/// Calls `Uuid::new_v4`. The identifier is random: nothing is said of it.
#[verifier::external_body]
pub(crate) fn new_id() -> Uuid {
    Uuid::new_v4()
}

/// A point in time: the seconds since the start of 1970 in UTC, and the nanoseconds
/// of the second.
#[derive(Clone, Copy, Debug, PartialEq, Eq, Structural)]
pub struct Timestamp {
    pub seconds: i64,
    pub nanos: u32,
}

/// Calls `chrono::Utc::now`. What it gives depends on the clock; the nanoseconds are
/// less than two seconds, as in a leap second.
#[verifier::external_body]
pub(crate) fn utc_now() -> (r: Timestamp)
    ensures
        r.nanos < 2_000_000_000,
{
    let now = chrono::Utc::now();
    Timestamp { seconds: now.timestamp(), nanos: now.timestamp_subsec_nanos() }
}

// ── Connections ───────────────────────────────────────────────────────────────

/// What a connection serves.
#[derive(Clone, Copy, Debug, PartialEq, Eq, Structural)]
pub enum ConnectionType {
    /// A folder.
    Filesystem,
    /// A vault of notes.
    ObsidianFilesystem,
    /// A remote server.
    RemoteProxy,
}

/// Where a connection stands.
#[derive(Debug)]
pub enum ConnectionStatus {
    Starting,
    Running,
    Stopped,
    Error(String),
}

impl Default for ConnectionStatus {
    fn default() -> (r: ConnectionStatus)
        ensures
            r == ConnectionStatus::Stopped,
    {
        ConnectionStatus::Stopped
    }
}

/// How the bridge proves who it is to a remote server.
#[derive(Clone, Copy, Debug, PartialEq, Eq, Structural)]
pub enum AuthMethod {
    Token,
    OAuth,
}

impl Default for AuthMethod {
    fn default() -> (r: AuthMethod)
        ensures
            r == AuthMethod::Token,
    {
        AuthMethod::Token
    }
}

/// How to reach a remote server.
#[derive(Debug)]
pub struct AuthConfig {
    pub base_url: String,
    pub token: String,
    pub extra_headers: Vec<(String, String)>,
    /// `outline`, `obsidian`, `notion` or `custom`.
    pub preset: Option<String>,
    pub auth_method: AuthMethod,
    pub client_id: String,
    pub client_secret: String,
    pub oauth_auth_url: String,
    pub oauth_token_url: String,
    pub oauth_scopes: String,
    /// Filled in when authorization is done.
    pub access_token: String,
    /// Filled in when authorization is done.
    pub refresh_token: String,
}

/// The texts of a list of pairs.
pub open spec fn pair_texts(v: Seq<(String, String)>) -> Seq<(Seq<char>, Seq<char>)> {
    v.map_values(|p: (String, String)| (p.0@, p.1@))
}

/// What the way to a remote server is, mathematically.
pub struct AuthModel {
    pub base_url: Seq<char>,
    pub token: Seq<char>,
    pub extra_headers: Seq<(Seq<char>, Seq<char>)>,
    pub preset: Option<Seq<char>>,
    pub auth_method: AuthMethod,
    pub client_id: Seq<char>,
    pub client_secret: Seq<char>,
    pub oauth_auth_url: Seq<char>,
    pub oauth_token_url: Seq<char>,
    pub oauth_scopes: Seq<char>,
    pub access_token: Seq<char>,
    pub refresh_token: Seq<char>,
}

impl View for AuthConfig {
    type V = AuthModel;

    open spec fn view(&self) -> AuthModel {
        AuthModel {
            base_url: self.base_url@,
            token: self.token@,
            extra_headers: pair_texts(self.extra_headers@),
            preset: match self.preset {
                Some(p) => Some(p@),
                None => None,
            },
            auth_method: self.auth_method,
            client_id: self.client_id@,
            client_secret: self.client_secret@,
            oauth_auth_url: self.oauth_auth_url@,
            oauth_token_url: self.oauth_token_url@,
            oauth_scopes: self.oauth_scopes@,
            access_token: self.access_token@,
            refresh_token: self.refresh_token@,
        }
    }
}

/// A copy of a list of pairs.
pub fn copy_pairs(v: &Vec<(String, String)>) -> (r: Vec<(String, String)>)
    ensures
        pair_texts(r@) == pair_texts(v@),
{
    let mut out: Vec<(String, String)> = Vec::new();
    let mut i: usize = 0;
    while i < v.len()
        invariant
            i <= v@.len(),
            out@.len() == i,
            forall|k: int| 0 <= k < i ==> (#[trigger] out@[k]).0@ == v@[k].0@ && out@[k].1@ == v@[k].1@,
        decreases v@.len() - i,
    {
        out.push((v[i].0.clone(), v[i].1.clone()));
        i += 1;
    }
    assert(pair_texts(out@) =~= pair_texts(v@));
    out
}

impl AuthConfig {
    /// A copy.
    pub fn copy(&self) -> (r: AuthConfig)
        ensures
            r@ == self@,
    {
        AuthConfig {
            base_url: self.base_url.clone(),
            token: self.token.clone(),
            extra_headers: copy_pairs(&self.extra_headers),
            preset: match &self.preset {
                Some(p) => Some(p.clone()),
                None => None,
            },
            auth_method: self.auth_method,
            client_id: self.client_id.clone(),
            client_secret: self.client_secret.clone(),
            oauth_auth_url: self.oauth_auth_url.clone(),
            oauth_token_url: self.oauth_token_url.clone(),
            oauth_scopes: self.oauth_scopes.clone(),
            access_token: self.access_token.clone(),
            refresh_token: self.refresh_token.clone(),
        }
    }
}

/// A connection.
#[derive(Debug)]
pub struct Connection {
    pub id: Uuid,
    pub name: String,
    pub connection_type: ConnectionType,
    pub root_paths: Vec<PathBuf>,
    pub auth_config: Option<AuthConfig>,
    pub status: ConnectionStatus,
    pub mcp_path: String,
    pub created_at: Timestamp,
    pub updated_at: Timestamp,
}

/// The path of a connection that was stored without one.
pub fn default_mcp_path() -> (r: String)
    ensures
        r@ == "/mcp"@,
{
    "/mcp".to_owned()
}

/// The port of the bridge.
#[derive(Clone, Copy, Debug, PartialEq, Eq, Structural)]
pub struct PortConfig {
    pub port: u16,
}

impl Default for PortConfig {
    fn default() -> (r: PortConfig)
        ensures
            r.port == DEFAULT_PORT,
    {
        PortConfig { port: DEFAULT_PORT }
    }
}

/// What is needed to make a connection.
#[derive(Debug)]
pub struct CreateConnectionRequest {
    pub name: String,
    pub connection_type: ConnectionType,
    pub root_paths: Vec<PathBuf>,
    pub auth_config: Option<AuthConfig>,
    pub mcp_path: Option<String>,
}

// ── Audit ─────────────────────────────────────────────────────────────────────

/// What came of a call.
#[derive(Debug)]
pub enum AuditResult {
    Success,
    Denied(String),
    Error(String),
}

/// What came of a call, mathematically.
pub enum AuditResultView {
    Success,
    Denied(Seq<char>),
    Error(Seq<char>),
}

impl View for AuditResult {
    type V = AuditResultView;

    open spec fn view(&self) -> AuditResultView {
        match self {
            AuditResult::Success => AuditResultView::Success,
            AuditResult::Denied(s) => AuditResultView::Denied(s@),
            AuditResult::Error(s) => AuditResultView::Error(s@),
        }
    }
}

/// A call, for the record.
#[derive(Debug)]
pub struct AuditEntry {
    pub id: Uuid,
    pub connection_id: Uuid,
    pub tool_name: String,
    pub path: Option<String>,
    pub timestamp: Timestamp,
    pub session_id: Option<String>,
    pub result: AuditResult,
}

/// A call, for the record, mathematically.
pub struct AuditEntryView {
    pub id: Uuid,
    pub connection_id: Uuid,
    pub tool_name: Seq<char>,
    pub path: Option<Seq<char>>,
    pub timestamp: Timestamp,
    pub session_id: Option<Seq<char>>,
    pub result: AuditResultView,
}

/// The text of an optional string.
pub open spec fn optional_text(s: Option<String>) -> Option<Seq<char>> {
    match s {
        Some(t) => Some(t@),
        None => None,
    }
}

impl View for AuditEntry {
    type V = AuditEntryView;

    open spec fn view(&self) -> AuditEntryView {
        AuditEntryView {
            id: self.id,
            connection_id: self.connection_id,
            tool_name: self.tool_name@,
            path: optional_text(self.path),
            timestamp: self.timestamp,
            session_id: optional_text(self.session_id),
            result: self.result@,
        }
    }
}

/// `Uuid::clone` copies the identifier.
pub assume_specification[ <uuid::Uuid as Clone>::clone ](id: &uuid::Uuid) -> (r: uuid::Uuid)
    ensures
        r == *id,
;

impl AuditEntry {
    /// A copy.
    pub fn copy(&self) -> (r: AuditEntry)
        ensures
            r@ == self@,
    {
        AuditEntry {
            id: self.id.clone(),
            connection_id: self.connection_id.clone(),
            tool_name: self.tool_name.clone(),
            path: match &self.path {
                Some(s) => Some(s.clone()),
                None => None,
            },
            timestamp: self.timestamp,
            session_id: match &self.session_id {
                Some(s) => Some(s.clone()),
                None => None,
            },
            result: match &self.result {
                AuditResult::Success => AuditResult::Success,
                AuditResult::Denied(s) => AuditResult::Denied(s.clone()),
                AuditResult::Error(s) => AuditResult::Error(s.clone()),
            },
        }
    }
}

// ── What a user sees of a connection ──────────────────────────────────────────

/// What a user sees of the way to a remote server: no token and no secret.
#[derive(Debug)]
pub struct AuthConfigView {
    pub base_url: String,
    pub preset: Option<String>,
    pub auth_method: AuthMethod,
    pub is_authorized: bool,
}

/// What a user sees of a connection.
#[derive(Debug)]
pub struct ConnectionView {
    pub id: Uuid,
    pub name: String,
    pub connection_type: ConnectionType,
    pub root_paths: Vec<PathBuf>,
    pub status: ConnectionStatus,
    pub auth_config: Option<AuthConfigView>,
    pub mcp_path: String,
    pub created_at: Timestamp,
    pub updated_at: Timestamp,
}

/// What a user sees of the way to a remote server.
pub open spec fn seen_auth(a: AuthConfig) -> AuthConfigView {
    AuthConfigView {
        base_url: a.base_url,
        preset: a.preset,
        auth_method: a.auth_method,
        is_authorized: a.access_token@.len() > 0,
    }
}

/// What a user sees of a connection.
pub open spec fn seen(c: Connection) -> ConnectionView {
    ConnectionView {
        id: c.id,
        name: c.name,
        connection_type: c.connection_type,
        root_paths: c.root_paths,
        status: c.status,
        auth_config: match c.auth_config {
            Some(a) => Some(seen_auth(a)),
            None => None,
        },
        mcp_path: c.mcp_path,
        created_at: c.created_at,
        updated_at: c.updated_at,
    }
}

impl FromSpecImpl<Connection> for ConnectionView {
    open spec fn obeys_from_spec() -> bool {
        true
    }

    open spec fn from_spec(c: Connection) -> ConnectionView {
        seen(c)
    }
}

impl From<Connection> for ConnectionView {
    fn from(c: Connection) -> (r: ConnectionView) {
        let auth_config = match c.auth_config {
            Some(a) => {
                let is_authorized = !a.access_token.as_str().is_empty();
                Some(
                    AuthConfigView {
                        base_url: a.base_url,
                        preset: a.preset,
                        auth_method: a.auth_method,
                        is_authorized,
                    },
                )
            },
            None => None,
        };
        ConnectionView {
            id: c.id,
            name: c.name,
            connection_type: c.connection_type,
            root_paths: c.root_paths,
            status: c.status,
            auth_config,
            mcp_path: c.mcp_path,
            created_at: c.created_at,
            updated_at: c.updated_at,
        }
    }
}

// ── Laws ──────────────────────────────────────────────────────────────────────

/// Two connections that differ in nothing but their secrets look the same to a
/// user: what is seen depends on no token, no header, no client and no OAuth
/// setting, but for whether there is an access token.
pub proof fn secrets_are_not_seen(c: Connection, d: Connection, a: AuthConfig, b: AuthConfig)
    requires
        c.auth_config == Some(a),
        d == (Connection { auth_config: Some(b), ..c }),
        a.base_url == b.base_url,
        a.preset == b.preset,
        a.auth_method == b.auth_method,
        (a.access_token@.len() > 0) == (b.access_token@.len() > 0),
    ensures
        seen(c) == seen(d),
{
}

/// A user sees of a connection everything but the secrets, and whether it is authorized: that
/// it is where there is an access token.
pub proof fn connections_are_seen(c: Connection, a: AuthConfig)
    ensures
        ({
            let v = seen(c);
            &&& v.id == c.id && v.name == c.name && v.connection_type == c.connection_type
            &&& v.root_paths == c.root_paths && v.status == c.status && v.mcp_path == c.mcp_path
            &&& v.created_at == c.created_at && v.updated_at == c.updated_at
            &&& c.auth_config is None ==> v.auth_config is None
            &&& c.auth_config == Some(a) ==> v.auth_config == Some(
                AuthConfigView {
                    base_url: a.base_url,
                    preset: a.preset,
                    auth_method: a.auth_method,
                    is_authorized: a.access_token@ != Seq::<char>::empty(),
                },
            )
        }),
{
    if a.access_token@.len() == 0 {
        assert(a.access_token@ =~= Seq::<char>::empty());
    }
}

} // verus!
