//! What a user can do with connections: make, change, delete, start and stop them,
//! authorize them, and set the port of the bridge.

use uuid::Uuid;
use vstd::prelude::*;

use crate::audit;
use crate::audit::AuditLog;
use crate::error::AppError;
use crate::error::ErrorView;
use crate::models;
use crate::models::{
    AuditEntry, AuthConfig, AuthMethod, Connection, ConnectionStatus, ConnectionType, ConnectionView, CreateConnectionRequest,
    Timestamp,
};
use crate::sorting;
use crate::text;
use crate::text::Chars;

verus! {

// ── Paths of connections ──────────────────────────────────────────────────────

/// How many bytes the path of a connection may have.
pub const MAX_PATH: usize = 64;

/// A name in small letters as part of a path: what is no letter and no number becomes a
/// hyphen, and there is none at its ends.
pub open spec fn slug_of(lower: Seq<char>) -> Seq<char> {
    text::trim_both(
        lower.map_values(
            |c: char|
                if text::is_alnum(c) {
                    c
                } else {
                    '-'
                },
        ),
        Chars::In(seq!['-']),
    )
}

/// A name in small letters as part of a path.
pub fn make_slug(lower: &str) -> (r: String)
    ensures
        r@ == slug_of(lower@),
{
    let v = text::chars_of(lower);
    let mut out = String::new();
    let mut i: usize = 0;
    let ghost f = |c: char|
        if text::is_alnum(c) {
            c
        } else {
            '-'
        };
    assert(v@.take(0).map_values(f) =~= Seq::<char>::empty());
    while i < v.len()
        invariant
            i <= v@.len(),
            v@ == lower@,
            f == (|c: char|
                if text::is_alnum(c) {
                    c
                } else {
                    '-'
                }),
            out@ == v@.take(i as int).map_values(f),
        decreases v@.len() - i,
    {
        let c = if v[i].is_alphanumeric() {
            v[i]
        } else {
            '-'
        };
        out.push(c);
        assert(v@.take(i + 1).map_values(f) =~= v@.take(i as int).map_values(f).push(c));
        i += 1;
    }
    assert(v@.take(v@.len() as int) =~= v@);
    text::trim_matches(&out, &text::only('-'))
}

/// Whether a text can be the path of a connection.
pub open spec fn is_path(p: Seq<char>) -> bool {
    &&& p.len() > 0
    &&& p[0] == '/'
    &&& !p.contains(' ')
    &&& text::utf8_len(p) <= MAX_PATH
}

/// The path of a connection: the one asked for, where it can be one, or else one made of
/// its name.
pub open spec fn normal_path(raw: Option<Seq<char>>, name: Seq<char>) -> Seq<char> {
    let p = match raw {
        Some(s) => text::trimmed(s),
        None => text::trimmed(seq![]),
    };
    if is_path(p) {
        p
    } else {
        "/connector/"@ + slug_of(text::lowercase(name))
    }
}

/// The path of a connection: the one asked for, where it can be one, or else one made of
/// its name.
pub fn normalise_mcp_path(raw: Option<String>, name: &str) -> (r: String)
    ensures
        r@ == normal_path(models::optional_text(raw), name@),
{
    let raw = match raw {
        Some(s) => s,
        None => {
            let empty = String::new();
            assert(empty@ =~= Seq::<char>::empty());
            empty
        },
    };
    let p = text::trim(&raw);
    proof {
        reveal_strlit("/");
        if p@.len() > 0 {
            assert(p@.subrange(0, 1) =~= seq![p@[0]]);
            assert("/"@ =~= seq!['/']);
            assert(seq![p@[0]][0] == p@[0]);
            assert("/"@[0] == '/');
        }
    }
    if text::starts_with(&p, "/") && !text::contains_char(&p, ' ') && text::byte_len(&p) <= MAX_PATH {
        p
    } else {
        text::cat("/connector/", &make_slug(&text::to_lowercase(name)))
    }
}

// ── Connections by their ids ──────────────────────────────────────────────────

/// Where the first connection with an id is.
pub open spec fn position(conns: Seq<Connection>, id: Seq<char>) -> Option<int>
    decreases conns.len(),
{
    if conns.len() == 0 {
        None
    } else if models::uuid_text(conns[0].id) == id {
        Some(0int)
    } else {
        match position(conns.drop_first(), id) {
            Some(i) => Some(i + 1),
            None => None,
        }
    }
}

/// Where the first connection with an id is.
pub fn find_connection(conns: &Vec<Connection>, id: &str) -> (r: Option<usize>)
    ensures
        match r {
            Some(i) => i < conns@.len() && position(conns@, id@) == Some(i as int),
            None => position(conns@, id@) is None,
        },
{
    let mut i: usize = 0;
    assert(conns@.skip(0) =~= conns@);
    while i < conns.len()
        invariant
            i <= conns@.len(),
            match position(conns@.skip(i as int), id@) {
                Some(k) => position(conns@, id@) == Some(k + i),
                None => position(conns@, id@) is None,
            },
        decreases conns@.len() - i,
    {
        assert(conns@.skip(i as int)[0] == conns@[i as int]);
        if text::same(&models::id_text(&conns[i].id), id) {
            return Some(i);
        }
        assert(conns@.skip(i as int).drop_first() =~= conns@.skip(i + 1));
        i += 1;
    }
    None
}

/// What a user sees of a list of connections.
pub fn list_connections(conns: Vec<Connection>) -> (r: Vec<ConnectionView>)
    ensures
        r@ == conns@.map_values(|c: Connection| models::seen(c)),
{
    let ghost given = conns@;
    let mut out: Vec<ConnectionView> = Vec::new();
    for c in it: conns
        invariant
            it.seq() == given,
            out@.len() == it.index(),
            forall|k: int| 0 <= k < out@.len() ==> #[trigger] out@[k] == models::seen(given[k]),
    {
        out.push(ConnectionView::from(c));
    }
    assert(out@ =~= given.map_values(|c: Connection| models::seen(c)));
    out
}

/// What a user sees of the connection with an id.
pub fn show_connection(conns: Vec<Connection>, id: &str) -> (r: Result<ConnectionView, AppError>)
    ensures
        match r {
            Ok(v) => position(conns@, id@) matches Some(i) && v == models::seen(conns@[i]),
            Err(e) => position(conns@, id@) is None && e@ == ErrorView::ConnectionNotFound,
        },
{
    let mut conns = conns;
    match find_connection(&conns, id) {
        Some(i) => Ok(ConnectionView::from(conns.remove(i))),
        None => Err(AppError::ConnectionNotFound),
    }
}

/// The path of the connection with an id.
pub fn path_of(conns: &Vec<Connection>, id: &str) -> (r: Result<String, AppError>)
    ensures
        match r {
            Ok(p) => position(conns@, id@) matches Some(i) && p@ == conns@[i].mcp_path@,
            Err(e) => position(conns@, id@) is None && e@ == ErrorView::ConnectionNotFound,
        },
{
    match find_connection(conns, id) {
        Some(i) => Ok(conns[i].mcp_path.clone()),
        None => Err(AppError::ConnectionNotFound),
    }
}

// ── Making and deleting ───────────────────────────────────────────────────────

/// Whether `c` is the connection that a request makes, under an identifier and with
/// these times: it is stopped.
pub open spec fn is_made_of(
    c: Connection,
    id: Uuid,
    req: CreateConnectionRequest,
    created_at: Timestamp,
    updated_at: Timestamp,
) -> bool {
    &&& c.id == id
    &&& c.name == req.name
    &&& c.connection_type == req.connection_type
    &&& c.root_paths == req.root_paths
    &&& c.auth_config == req.auth_config
    &&& c.status == ConnectionStatus::Stopped
    &&& c.mcp_path@ == normal_path(models::optional_text(req.mcp_path), req.name@)
    &&& c.created_at == created_at
    &&& c.updated_at == updated_at
}

/// The connection that a request makes, under an identifier and with these times.
pub fn make_connection(id: Uuid, req: CreateConnectionRequest, created_at: Timestamp, updated_at: Timestamp) -> (r: Connection)
    ensures
        is_made_of(r, id, req, created_at, updated_at),
{
    let mcp_path = normalise_mcp_path(req.mcp_path, &req.name);
    Connection {
        id,
        name: req.name,
        connection_type: req.connection_type,
        root_paths: req.root_paths,
        auth_config: req.auth_config,
        status: ConnectionStatus::Stopped,
        mcp_path,
        created_at,
        updated_at,
    }
}

/// Makes a connection just now, under a new identifier: it comes last.
pub fn create_connection(conns: Vec<Connection>, req: CreateConnectionRequest) -> (r: Vec<Connection>)
    ensures
        r@.len() == conns@.len() + 1,
        r@.drop_last() == conns@,
        is_made_of(r@.last(), r@.last().id, req, r@.last().created_at, r@.last().created_at),
{
    let now = models::utc_now();
    let mut conns = conns;
    let ghost given = conns@;
    conns.push(make_connection(models::new_id(), req, now, now));
    assert(conns@.drop_last() =~= given);
    conns
}

/// The connections without those that have an id.
pub open spec fn without(conns: Seq<Connection>, id: Seq<char>) -> Seq<Connection>
    decreases conns.len(),
{
    if conns.len() == 0 {
        conns
    } else {
        let before = without(conns.drop_last(), id);
        if models::uuid_text(conns.last().id) == id {
            before
        } else {
            before.push(conns.last())
        }
    }
}

/// Deletes the connections that have an id. Tells the path of the first of them, which is
/// to be taken out of the table before the others are saved.
pub fn delete_connection(conns: Vec<Connection>, id: &str) -> (r: (Vec<Connection>, Option<String>))
    ensures
        r.0@ == without(conns@, id@),
        match r.1 {
            Some(path) => position(conns@, id@) matches Some(i) && path@ == conns@[i].mcp_path@,
            None => position(conns@, id@) is None,
        },
{
    let path = path_of(&conns, id).ok();
    let ghost given = conns@;
    let mut out: Vec<Connection> = Vec::new();
    assert(given.take(0) =~= Seq::<Connection>::empty());
    for c in it: conns
        invariant
            it.seq() == given,
            out@ =~= without(given.take(it.index() as int), id@),
    {
        assert(given.take(it.index() + 1).drop_last() =~= given.take(it.index() as int));
        assert(given.take(it.index() + 1).last() == c);
        if !text::same(&models::id_text(&c.id), id) {
            out.push(c);
        }
    }
    assert(given.take(given.len() as int) =~= given);
    (out, path)
}

// ── Changing ──────────────────────────────────────────────────────────────────

/// Whether `after` are the connections `before`, but for the first one with an id, which
/// is now `c`.
pub open spec fn replaced_by(before: Seq<Connection>, id: Seq<char>, after: Seq<Connection>, c: Connection) -> bool {
    match position(before, id) {
        Some(i) => after == before.update(i, c),
        None => after == before,
    }
}

/// Takes a connection out of a list and puts another one in its place.
fn put_at(conns: Vec<Connection>, i: usize, c: Connection) -> (r: Vec<Connection>)
    requires
        i < conns@.len(),
    ensures
        r@ == conns@.update(i as int, c),
{
    let mut conns = conns;
    let ghost given = conns@;
    let _ = conns.remove(i);
    conns.insert(i, c);
    assert(conns@ =~= given.update(i as int, c));
    conns
}

/// Replaces the first connection with an id by one that a request makes: it keeps its
/// identifier and the time when it was made.
pub fn replace_connection(conns: Vec<Connection>, id: &str, req: CreateConnectionRequest, now: Timestamp) -> (r: Vec<
    Connection,
>)
    ensures
        match position(conns@, id@) {
            Some(i) => r@.len() == conns@.len() && is_made_of(
                r@[i],
                conns@[i].id,
                req,
                conns@[i].created_at,
                now,
            ) && replaced_by(conns@, id@, r@, r@[i]),
            None => r@ == conns@,
        },
{
    match find_connection(&conns, id) {
        Some(i) => {
            let c = make_connection(conns[i].id.clone(), req, conns[i].created_at, now);
            put_at(conns, i, c)
        },
        None => conns,
    }
}

/// The connections once the first one with an id has another status.
pub open spec fn marked(conns: Seq<Connection>, id: Seq<char>, status: ConnectionStatus, now: Timestamp) -> Seq<
    Connection,
> {
    match position(conns, id) {
        Some(i) => conns.update(i, Connection { status, updated_at: now, ..conns[i] }),
        None => conns,
    }
}

/// Sets the status of the first connection with an id, and the time when it was
/// changed.
pub fn mark(conns: Vec<Connection>, id: &str, status: ConnectionStatus, now: Timestamp) -> (r: Vec<Connection>)
    ensures
        r@ == marked(conns@, id@, status, now),
{
    match find_connection(&conns, id) {
        Some(i) => {
            let mut conns = conns;
            let ghost given = conns@;
            let mut c = conns.remove(i);
            c.status = status;
            c.updated_at = now;
            conns.insert(i, c);
            assert(conns@ =~= given.update(i as int, c));
            conns
        },
        None => conns,
    }
}

/// A connection with new tokens, changed at a time where one is given.
pub open spec fn with_tokens(c: Connection, access: String, refresh: String, now: Option<Timestamp>) -> Connection {
    Connection {
        auth_config: match c.auth_config {
            Some(a) => Some(AuthConfig { access_token: access, refresh_token: refresh, ..a }),
            None => None,
        },
        updated_at: match now {
            Some(t) => t,
            None => c.updated_at,
        },
        ..c
    }
}

/// Keeps new tokens for the first connection with an id.
pub fn store_tokens(
    conns: Vec<Connection>,
    id: &str,
    access: String,
    refresh: String,
    now: Option<Timestamp>,
) -> (r: Vec<Connection>)
    ensures
        match position(conns@, id@) {
            Some(i) => r@ == conns@.update(i, with_tokens(conns@[i], access, refresh, now)),
            None => r@ == conns@,
        },
{
    match find_connection(&conns, id) {
        Some(i) => {
            let mut conns = conns;
            let ghost given = conns@;
            let c = conns.remove(i);
            let auth_config = match c.auth_config {
                Some(a) => {
                    let mut a = a;
                    a.access_token = access;
                    a.refresh_token = refresh;
                    Some(a)
                },
                None => None,
            };
            let updated_at = match now {
                Some(t) => t,
                None => c.updated_at,
            };
            let d = Connection {
                id: c.id,
                name: c.name,
                connection_type: c.connection_type,
                root_paths: c.root_paths,
                auth_config,
                status: c.status,
                mcp_path: c.mcp_path,
                created_at: c.created_at,
                updated_at,
            };
            assert(d == with_tokens(given[i as int], access, refresh, now));
            conns.insert(i, d);
            assert(conns@ =~= given.update(i as int, d));
            conns
        },
        None => conns,
    }
}

/// A connection that is stopped.
pub open spec fn stopped(c: Connection) -> Connection {
    Connection { status: ConnectionStatus::Stopped, ..c }
}

/// Marks every connection as stopped, as none runs when the bridge starts. Tells whether
/// one was not.
pub fn reset_statuses(conns: Vec<Connection>) -> (r: (Vec<Connection>, bool))
    ensures
        r.0@ == conns@.map_values(|c: Connection| stopped(c)),
        r.1 == exists|i: int| 0 <= i < conns@.len() && (#[trigger] conns@[i]).status != ConnectionStatus::Stopped,
{
    let ghost given = conns@;
    let mut out: Vec<Connection> = Vec::new();
    let mut dirty = false;
    for c in it: conns
        invariant
            it.seq() == given,
            out@.len() == it.index(),
            forall|k: int| 0 <= k < out@.len() ==> #[trigger] out@[k] == stopped(given[k]),
            dirty == exists|i: int| 0 <= i < it.index() && (#[trigger] given[i]).status != ConnectionStatus::Stopped,
    {
        let mut c = c;
        let is_stopped = match &c.status {
            ConnectionStatus::Stopped => true,
            _ => false,
        };
        proof {
            let n = it.index() as int;
            assert(given[n].status == c.status);
        }
        if !is_stopped {
            dirty = true;
        }
        c.status = ConnectionStatus::Stopped;
        out.push(c);
    }
    assert(out@ =~= given.map_values(|c: Connection| stopped(c)));
    (out, dirty)
}

// ── Serving ───────────────────────────────────────────────────────────────────

/// What serves a connection.
pub enum Service {
    Filesystem,
    Vault,
    Proxy(AuthConfig),
}

/// What serves a connection; a proxy needs to know how to reach its server.
pub fn build_router(conn: &Connection) -> (r: Result<Service, AppError>)
    ensures
        match conn.connection_type {
            ConnectionType::Filesystem => r == Ok::<Service, AppError>(Service::Filesystem),
            ConnectionType::ObsidianFilesystem => r == Ok::<Service, AppError>(Service::Vault),
            ConnectionType::RemoteProxy => match conn.auth_config {
                Some(a) => r matches Ok(Service::Proxy(b)) && b@ == a@,
                None => r matches Err(e) && e@ == ErrorView::Other("RemoteProxy connection missing auth_config"@),
            },
        },
{
    match conn.connection_type {
        ConnectionType::Filesystem => Ok(Service::Filesystem),
        ConnectionType::ObsidianFilesystem => Ok(Service::Vault),
        ConnectionType::RemoteProxy => match &conn.auth_config {
            Some(a) => Ok(Service::Proxy(a.copy())),
            None => Err(AppError::other("RemoteProxy connection missing auth_config")),
        },
    }
}

/// Where a connection stands, as users are told.
#[derive(Clone, Copy, Debug, PartialEq, Eq, Structural)]
pub enum Announced {
    Starting,
    Running,
    Stopped,
}

impl Announced {
    /// The word for where a connection stands.
    pub fn word(self) -> (r: String)
        ensures
            r@ == (match self {
                Announced::Starting => "Starting"@,
                Announced::Running => "Running"@,
                Announced::Stopped => "Stopped"@,
            }),
    {
        match self {
            Announced::Starting => "Starting".to_owned(),
            Announced::Running => "Running".to_owned(),
            Announced::Stopped => "Stopped".to_owned(),
        }
    }
}

/// A thing to do with a connection. Where one fails, those after it are not done.
#[derive(Debug, PartialEq, Eq)]
pub enum Action<P> {
    /// Take what serves a path out of the table.
    Unregister { path: P },
    /// Mark the connection as running or as stopped, and save the list.
    Save { running: bool },
    /// Build what serves it.
    Build,
    /// Put what was built into the table, under a path.
    Register { path: P },
    /// Tell users where it stands.
    Announce(Announced),
}

impl View for Action<String> {
    type V = Action<Seq<char>>;

    open spec fn view(&self) -> Action<Seq<char>> {
        match self {
            Action::Unregister { path } => Action::Unregister { path: path@ },
            Action::Save { running } => Action::Save { running: *running },
            Action::Build => Action::Build,
            Action::Register { path } => Action::Register { path: path@ },
            Action::Announce(a) => Action::Announce(*a),
        }
    }
}

/// What there is to do once a connection with the path `old` was changed to one with the
/// path `new`: one that was running is stopped before, and started again after.
pub open spec fn update_plan(was_running: bool, old: Seq<char>, new: Seq<char>) -> Seq<Action<Seq<char>>> {
    if was_running {
        seq![
            Action::Unregister { path: old },
            Action::Save { running: false },
            Action::Build,
            Action::Save { running: true },
            Action::Register { path: new },
            Action::Announce(Announced::Running),
        ]
    } else {
        seq![Action::Save { running: false }, Action::Announce(Announced::Stopped)]
    }
}

/// Whether `c` is what a request makes of the connection `old`: it keeps its identifier
/// and the time when it was made, and runs if `old` did.
pub open spec fn is_update(
    c: Connection,
    old: Connection,
    req: CreateConnectionRequest,
    was_running: bool,
    now: Timestamp,
) -> bool {
    &&& is_made_of(stopped(c), old.id, req, old.created_at, now)
    &&& c.status == (if was_running {
        ConnectionStatus::Running
    } else {
        ConnectionStatus::Stopped
    })
}

/// Changes the connection with an id as a request says: the connections as they are once
/// all is done, and what there is to do.
pub fn update_connection(
    conns: Vec<Connection>,
    id: &str,
    req: CreateConnectionRequest,
    was_running: bool,
    now: Timestamp,
) -> (r: Result<(Vec<Connection>, Vec<Action<String>>), AppError>)
    ensures
        match r {
            Ok((v, plan)) => position(conns@, id@) matches Some(i) && ({
                &&& v@.len() == conns@.len()
                &&& v@ == conns@.update(i, v@[i])
                &&& is_update(v@[i], conns@[i], req, was_running, now)
                &&& sorting::views(plan@) == update_plan(was_running, conns@[i].mcp_path@, v@[i].mcp_path@)
            }),
            Err(e) => position(conns@, id@) is None && e@ == ErrorView::ConnectionNotFound,
        },
{
    let i = match find_connection(&conns, id) {
        Some(i) => i,
        None => {
            return Err(AppError::ConnectionNotFound);
        },
    };
    let old = conns[i].mcp_path.clone();
    let ghost given = conns@;
    let changed = replace_connection(conns, id, req, now);
    let new = changed[i].mcp_path.clone();
    proof {
        position_is_first(given, id@);
        changed_connections_keep_their_place(given, id@, i as int, changed@[i as int]);
    }
    let (v, plan) = if was_running {
        let v = mark(changed, id, ConnectionStatus::Running, now);
        let plan = vec![
            Action::Unregister { path: old },
            Action::Save { running: false },
            Action::Build,
            Action::Save { running: true },
            Action::Register { path: new },
            Action::Announce(Announced::Running),
        ];
        (v, plan)
    } else {
        let plan = vec![Action::Save { running: false }, Action::Announce(Announced::Stopped)];
        (changed, plan)
    };
    proof {
        let c = v@[i as int];
        assert(v@ =~= given.update(i as int, c));
        assert(sorting::views(plan@) =~= update_plan(was_running, given[i as int].mcp_path@, c.mcp_path@));
    }
    Ok((v, plan))
}

/// What there is to do to start a connection with a path.
pub open spec fn start_plan(path: Seq<char>) -> Seq<Action<Seq<char>>> {
    seq![
        Action::Announce(Announced::Starting),
        Action::Build,
        Action::Register { path },
        Action::Save { running: true },
        Action::Announce(Announced::Running),
    ]
}

/// What there is to do to start the connection with an id, or why it cannot be started.
pub open spec fn start_outcome(conns: Seq<Connection>, id: Seq<char>, is_registered: bool) -> Result<
    Seq<Action<Seq<char>>>,
    ErrorView,
> {
    match position(conns, id) {
        None => Err(ErrorView::ConnectionNotFound),
        Some(i) => if is_registered {
            Err(ErrorView::ServerAlreadyRunning)
        } else {
            Ok(start_plan(conns[i].mcp_path@))
        },
    }
}

/// What there is to do to start the connection with an id; one that is running cannot be
/// started.
pub fn start_server(conns: &Vec<Connection>, id: &str, is_registered: bool) -> (r: Result<
    Vec<Action<String>>,
    AppError,
>)
    ensures
        match r {
            Ok(v) => start_outcome(conns@, id@, is_registered) == Ok::<Seq<Action<Seq<char>>>, ErrorView>(
                sorting::views(v@),
            ),
            Err(e) => start_outcome(conns@, id@, is_registered) == Err::<Seq<Action<Seq<char>>>, ErrorView>(e@),
        },
{
    let path = path_of(conns, id)?;
    if is_registered {
        return Err(AppError::ServerAlreadyRunning);
    }
    let ghost p = path@;
    let r = vec![
        Action::Announce(Announced::Starting),
        Action::Build,
        Action::Register { path },
        Action::Save { running: true },
        Action::Announce(Announced::Running),
    ];
    assert(sorting::views(r@) =~= start_plan(p));
    Ok(r)
}

/// What there is to do to stop a connection with a path.
pub open spec fn stop_plan(path: Seq<char>) -> Seq<Action<Seq<char>>> {
    seq![Action::Unregister { path }, Action::Save { running: false }, Action::Announce(Announced::Stopped)]
}

/// What there is to do to stop the connection with an id.
pub fn stop_server(conns: &Vec<Connection>, id: &str) -> (r: Result<Vec<Action<String>>, AppError>)
    ensures
        match r {
            Ok(v) => position(conns@, id@) matches Some(i) && sorting::views(v@) == stop_plan(conns@[i].mcp_path@),
            Err(e) => position(conns@, id@) is None && e@ == ErrorView::ConnectionNotFound,
        },
{
    let path = path_of(conns, id)?;
    let ghost p = path@;
    let r = vec![
        Action::Unregister { path },
        Action::Save { running: false },
        Action::Announce(Announced::Stopped),
    ];
    assert(sorting::views(r@) =~= stop_plan(p));
    Ok(r)
}

/// The word for whether the bridge runs.
pub fn get_server_status(running: bool) -> (r: String)
    ensures
        r@ == (if running {
            "Running"@
        } else {
            "Stopped"@
        }),
{
    if running {
        "Running".to_owned()
    } else {
        "Stopped".to_owned()
    }
}

/// Why the bridge cannot have a port; `None` where it can.
pub open spec fn port_refusal(port: u16) -> Option<ErrorView> {
    if port < 1024 {
        Some(ErrorView::Other("Port must be >= 1024"@))
    } else {
        None
    }
}

/// Checks a port for the bridge.
pub fn set_global_port(port: u16) -> (r: Result<models::PortConfig, AppError>)
    ensures
        match r {
            Ok(c) => port_refusal(port) is None && c.port == port,
            Err(e) => port_refusal(port) == Some(e@),
        },
{
    if port < 1024 {
        Err(AppError::other("Port must be >= 1024"))
    } else {
        Ok(models::PortConfig { port })
    }
}

/// The latest entries of the record of calls, the latest first: as many as are asked for,
/// or `DEFAULT_LIMIT`.
pub fn get_audit_log(log: &AuditLog, limit: Option<usize>) -> (r: Vec<AuditEntry>)
    ensures
        sorting::views(r@) == audit::latest(
            log@.ring,
            match limit {
                Some(n) => n as int,
                None => audit::DEFAULT_LIMIT as int,
            },
        ),
{
    match limit {
        Some(n) => log.recent(n),
        None => log.recent(audit::DEFAULT_LIMIT),
    }
}

// ── Authorizing ───────────────────────────────────────────────────────────────

/// Why the connection with an id cannot be authorized, or how its server is reached.
pub open spec fn oauth_config(conns: Seq<Connection>, id: Seq<char>) -> Result<models::AuthModel, ErrorView> {
    match position(conns, id) {
        None => Err(ErrorView::ConnectionNotFound),
        Some(i) => match conns[i].auth_config {
            None => Err(ErrorView::Other("Connection has no auth_config"@)),
            Some(a) => if a.auth_method == AuthMethod::OAuth {
                Ok(a@)
            } else {
                Err(ErrorView::Other("Connection is not using OAuth auth method"@))
            },
        },
    }
}

/// How the server of a connection is reached that is to be authorized.
pub fn start_oauth_flow(conns: &Vec<Connection>, id: &str) -> (r: Result<AuthConfig, AppError>)
    ensures
        match r {
            Ok(a) => oauth_config(conns@, id@) == Ok::<models::AuthModel, ErrorView>(a@),
            Err(e) => oauth_config(conns@, id@) == Err::<models::AuthModel, ErrorView>(e@),
        },
{
    match find_connection(conns, id) {
        None => Err(AppError::ConnectionNotFound),
        Some(i) => match &conns[i].auth_config {
            None => Err(AppError::other("Connection has no auth_config")),
            Some(a) => if a.auth_method == AuthMethod::OAuth {
                Ok(a.copy())
            } else {
                Err(AppError::other("Connection is not using OAuth auth method"))
            },
        },
    }
}

// ── Laws ──────────────────────────────────────────────────────────────────────

proof fn position_is_first(conns: Seq<Connection>, id: Seq<char>)
    ensures
        match position(conns, id) {
            Some(i) => 0 <= i < conns.len() && models::uuid_text(conns[i].id) == id,
            None => forall|i: int| 0 <= i < conns.len() ==> models::uuid_text((#[trigger] conns[i]).id) != id,
        },
    decreases conns.len(),
{
    if conns.len() > 0 && models::uuid_text(conns[0].id) != id {
        let rest = conns.drop_first();
        position_is_first(rest, id);
        match position(rest, id) {
            Some(i) => {
                assert(conns[i + 1] == rest[i]);
            },
            None => {
                assert forall|i: int| 0 <= i < conns.len() implies models::uuid_text((#[trigger] conns[i]).id) != id by {
                    if i > 0 {
                        assert(conns[i] == rest[i - 1]);
                    }
                }
            },
        }
    }
}

proof fn without_has_none(conns: Seq<Connection>, id: Seq<char>)
    ensures
        forall|i: int| 0 <= i < without(conns, id).len() ==> models::uuid_text((#[trigger] without(conns, id)[i]).id) != id,
    decreases conns.len(),
{
    if conns.len() > 0 {
        without_has_none(conns.drop_last(), id);
        let before = without(conns.drop_last(), id);
        assert forall|i: int| 0 <= i < without(conns, id).len() implies models::uuid_text(
            (#[trigger] without(conns, id)[i]).id,
        ) != id by {
            if i < before.len() {
                assert(without(conns, id)[i] == before[i]);
            }
        }
    }
}

/// A connection that was deleted is not found any more.
pub proof fn deleted_connections_are_not_found(conns: Seq<Connection>, id: Seq<char>)
    ensures
        position(without(conns, id), id) is None,
{
    without_has_none(conns, id);
    position_is_first(without(conns, id), id);
}

proof fn without_keeps(conns: Seq<Connection>, id: Seq<char>, c: Connection)
    requires
        conns.contains(c),
        models::uuid_text(c.id) != id,
    ensures
        without(conns, id).contains(c),
    decreases conns.len(),
{
    let i = choose|i: int| 0 <= i < conns.len() && conns[i] == c;
    let before = without(conns.drop_last(), id);
    if i == conns.len() - 1 {
        assert(without(conns, id) == before.push(c));
        assert(without(conns, id)[before.len() as int] == c);
    } else {
        assert(conns.drop_last()[i] == c);
        without_keeps(conns.drop_last(), id, c);
        let j = choose|j: int| 0 <= j < before.len() && before[j] == c;
        assert(without(conns, id)[j] == c);
    }
}

/// Deleting a connection keeps all others.
pub proof fn deletion_keeps_other_connections(conns: Seq<Connection>, id: Seq<char>, c: Connection)
    requires
        conns.contains(c),
        models::uuid_text(c.id) != id,
    ensures
        without(conns, id).contains(c),
{
    without_keeps(conns, id, c);
}

/// A connection that was changed is still found under its id, where it was before.
pub proof fn changed_connections_keep_their_place(conns: Seq<Connection>, id: Seq<char>, i: int, c: Connection)
    requires
        position(conns, id) == Some(i),
        models::uuid_text(c.id) == id,
    ensures
        position(conns.update(i, c), id) == Some(i),
    decreases conns.len(),
{
    position_is_first(conns, id);
    let n = conns.update(i, c);
    if models::uuid_text(conns[0].id) == id {
    } else {
        let rest = conns.drop_first();
        assert(n.drop_first() =~= rest.update(i - 1, c));
        changed_connections_keep_their_place(rest, id, i - 1, c);
    }
}

/// What a plan changes: the paths in the table, and whether the connection is saved as
/// running.
pub struct Standing {
    pub registered: Set<Seq<char>>,
    pub running: bool,
}

impl Standing {
    /// What it is after one thing was done.
    pub open spec fn after(self, a: Action<Seq<char>>) -> Standing {
        match a {
            Action::Unregister { path } => Standing { registered: self.registered.remove(path), ..self },
            Action::Register { path } => Standing { registered: self.registered.insert(path), ..self },
            Action::Save { running } => Standing { running, ..self },
            _ => self,
        }
    }

    /// What it is after all was done that a plan says.
    pub open spec fn after_all(self, plan: Seq<Action<Seq<char>>>) -> Standing
        decreases plan.len(),
    {
        if plan.len() == 0 {
            self
        } else {
            self.after_all(plan.drop_last()).after(plan.last())
        }
    }
}

proof fn after_some(s: Standing, plan: Seq<Action<Seq<char>>>, n: int)
    requires
        0 <= n < plan.len(),
    ensures
        s.after_all(plan.take(n + 1)) == s.after_all(plan.take(n)).after(plan[n]),
        s.after_all(plan.take(0)) == s,
        plan.take(plan.len() as int) == plan,
{
    assert(plan.take(n + 1).drop_last() =~= plan.take(n));
    assert(plan.take(plan.len() as int) =~= plan);
}

/// Changing a connection that is running moves it from its old path to its new one, and
/// leaves it running; changing one that is not leaves the table alone. Where what serves it
/// cannot be built, it is left stopped and its old path is not in the table.
pub proof fn updates_move_the_path(s: Standing, old: Seq<char>, new: Seq<char>)
    ensures
        s.after_all(update_plan(true, old, new)).registered == s.registered.remove(old).insert(new),
        s.after_all(update_plan(true, old, new)).running,
        s.after_all(update_plan(false, old, new)).registered == s.registered,
        !s.after_all(update_plan(false, old, new)).running,
        update_plan(true, old, new)[2] == Action::<Seq<char>>::Build,
        s.after_all(update_plan(true, old, new).take(2)).registered == s.registered.remove(old),
        !s.after_all(update_plan(true, old, new).take(2)).running,
{
    let p = update_plan(true, old, new);
    after_some(s, p, 0);
    after_some(s, p, 1);
    after_some(s, p, 2);
    after_some(s, p, 3);
    after_some(s, p, 4);
    after_some(s, p, 5);
    let q = update_plan(false, old, new);
    after_some(s, q, 0);
    after_some(s, q, 1);
}

/// Starting a connection puts its path into the table, and stopping it takes the path out.
pub proof fn started_connections_are_registered(s: Standing, path: Seq<char>)
    ensures
        s.after_all(start_plan(path)).registered == s.registered.insert(path),
        s.after_all(start_plan(path)).running,
        s.after_all(stop_plan(path)).registered == s.registered.remove(path),
        !s.after_all(stop_plan(path)).running,
{
    let p = start_plan(path);
    after_some(s, p, 0);
    after_some(s, p, 1);
    after_some(s, p, 2);
    after_some(s, p, 3);
    after_some(s, p, 4);
    let q = stop_plan(path);
    after_some(s, q, 0);
    after_some(s, q, 1);
    after_some(s, q, 2);
}

/// The path of a connection always starts with a slash.
pub proof fn paths_start_with_a_slash(raw: Option<Seq<char>>, name: Seq<char>)
    ensures
        normal_path(raw, name).len() > 0,
        normal_path(raw, name)[0] == '/',
{
    reveal_strlit("/connector/");
}

/// The path that is asked for is taken, without the white space around it, where it starts
/// with a slash, has no spaces and takes at most 64 bytes; otherwise it is made of the name.
pub proof fn asked_paths_are_taken(w1: Seq<char>, p: Seq<char>, w2: Seq<char>, name: Seq<char>)
    requires
        forall|i: int| 0 <= i < w1.len() ==> text::is_white(#[trigger] w1[i]),
        forall|i: int| 0 <= i < w2.len() ==> text::is_white(#[trigger] w2[i]),
        p.len() > 0 ==> !text::is_white(p[0]) && !text::is_white(p.last()),
    ensures
        normal_path(Some(w1 + p + w2), name) == (if p.len() > 0 && p[0] == '/' && (forall|i: int|
            0 <= i < p.len() ==> p[i] != ' ') && vstd::utf8::encode_utf8(p).len() <= 64 {
            p
        } else {
            "/connector/"@ + slug_of(text::lowercase(name))
        }),
        normal_path(None, name) == "/connector/"@ + slug_of(text::lowercase(name)),
{
    text::surroundings_are_trimmed(w1, p, w2, Chars::White);
    let e = Seq::<char>::empty();
    text::surroundings_are_trimmed(e, e, e, Chars::White);
    assert(e + e + e =~= e);
    if p.contains(' ') {
        let i = choose|i: int| 0 <= i < p.len() && p[i] == ' ';
    }
    if exists|i: int| 0 <= i < p.len() && p[i] == ' ' {
        let i = choose|i: int| 0 <= i < p.len() && p[i] == ' ';
        assert(p.contains(' '));
    }
}

/// In a path that is made of a name, letters and digits stay as they are and everything else
/// becomes a hyphen, but for what is at the ends, which goes.
pub proof fn slugs_keep_letters_and_digits(a: Seq<char>, t: Seq<char>, b: Seq<char>)
    requires
        forall|i: int| 0 <= i < a.len() ==> !text::is_alnum(#[trigger] a[i]),
        forall|i: int| 0 <= i < b.len() ==> !text::is_alnum(#[trigger] b[i]),
        t.len() > 0 ==> text::is_alnum(t[0]) && text::is_alnum(t.last()),
    ensures
        slug_of(a + t + b).len() == t.len(),
        forall|i: int|
            0 <= i < t.len() ==> #[trigger] slug_of(a + t + b)[i] == (if text::is_alnum(t[i]) { t[i] } else { '-' }),
{
    let f = |c: char|
        if text::is_alnum(c) {
            c
        } else {
            '-'
        };
    let k = Chars::In(seq!['-']);
    assert(seq!['-'][0] == '-');
    let (x, m, y) = (a.map_values(f), t.map_values(f), b.map_values(f));
    assert((a + t + b).map_values(f) =~= x + m + y);
    assert forall|i: int| 0 <= i < x.len() implies k.has(#[trigger] x[i]) by {
        assert(!text::is_alnum(a[i]));
    }
    assert forall|i: int| 0 <= i < y.len() implies k.has(#[trigger] y[i]) by {
        assert(!text::is_alnum(b[i]));
    }
    if t.len() > 0 {
        assert(m[0] == t[0] && m.last() == t.last());
        assert(!text::is_alnum('-'));
        if k.has(m[0]) {
            let i = choose|i: int| 0 <= i < 1 && seq!['-'][i] == m[0];
        }
        if k.has(m.last()) {
            let i = choose|i: int| 0 <= i < 1 && seq!['-'][i] == m.last();
        }
    }
    text::surroundings_are_trimmed(x, m, y, k);
}

/// A connection is found under the text of its id, and the first one where there are more.
pub proof fn connections_are_found_by_their_id(conns: Seq<Connection>, id: Seq<char>, i: int)
    ensures
        position(conns, id) == Some(i) <==> 0 <= i < conns.len() && models::uuid_text(conns[i].id) == id && forall|j: int|
            0 <= j < i ==> models::uuid_text((#[trigger] conns[j]).id) != id,
        position(conns, id) is None <==> forall|j: int|
            0 <= j < conns.len() ==> models::uuid_text((#[trigger] conns[j]).id) != id,
    decreases conns.len(),
{
    position_is_first(conns, id);
    if conns.len() > 0 && models::uuid_text(conns[0].id) != id {
        let rest = conns.drop_first();
        connections_are_found_by_their_id(rest, id, i - 1);
        assert(forall|j: int| 0 <= j < rest.len() ==> #[trigger] rest[j] == conns[j + 1]);
        if 0 < i < conns.len() && models::uuid_text(conns[i].id) == id && forall|j: int|
            0 <= j < i ==> models::uuid_text((#[trigger] conns[j]).id) != id {
            assert forall|j: int| 0 <= j < i - 1 implies models::uuid_text((#[trigger] rest[j]).id) != id by {
                assert(rest[j] == conns[j + 1]);
            }
        }
        if position(conns, id) == Some(i) {
            assert forall|j: int| 0 <= j < i implies models::uuid_text((#[trigger] conns[j]).id) != id by {
                if j > 0 {
                    assert(conns[j] == rest[j - 1]);
                }
            }
        }
    }
}

/// What a request makes is what it asks for, and it is stopped.
pub proof fn made_connections_are_as_asked_for(
    c: Connection,
    id: Uuid,
    req: CreateConnectionRequest,
    created_at: Timestamp,
    updated_at: Timestamp,
)
    requires
        is_made_of(c, id, req, created_at, updated_at),
    ensures
        c.id == id && c.name == req.name && c.connection_type == req.connection_type,
        c.root_paths == req.root_paths && c.auth_config == req.auth_config,
        c.status == ConnectionStatus::Stopped,
        c.created_at == created_at && c.updated_at == updated_at,
        c.mcp_path@ == normal_path(models::optional_text(req.mcp_path), req.name@),
{
}

/// New tokens change the tokens of a connection, and the time when it was changed where one
/// is given; nothing else.
pub proof fn new_tokens_change_tokens_only(
    c: Connection,
    a: AuthConfig,
    access: String,
    refresh: String,
    now: Option<Timestamp>,
)
    requires
        c.auth_config == Some(a),
    ensures
        ({
            let d = with_tokens(c, access, refresh, now);
            &&& d.auth_config matches Some(b)
            &&& b.access_token == access && b.refresh_token == refresh
            &&& b == (AuthConfig { access_token: access, refresh_token: refresh, ..a })
            &&& d == (Connection { auth_config: Some(b), updated_at: d.updated_at, ..c })
            &&& d.updated_at == (if now is Some { now->0 } else { c.updated_at })
        }),
{
}

/// A connection can be authorized where it is there, and reaches its server by OAuth.
pub proof fn connections_that_can_be_authorized(conns: Seq<Connection>, id: Seq<char>, i: int)
    requires
        position(conns, id) == Some(i),
    ensures
        conns[i].auth_config is None ==> oauth_config(conns, id) == Err::<models::AuthModel, ErrorView>(
            ErrorView::Other("Connection has no auth_config"@),
        ),
        conns[i].auth_config matches Some(a) ==> ((oauth_config(conns, id) is Ok) == (a.auth_method == AuthMethod::OAuth)) && (
        oauth_config(conns, id) matches Ok(m) ==> m == a@),
{
}

/// The ports below 1024 are refused, and all others can be had.
pub proof fn low_ports_are_refused(port: u16)
    ensures
        port_refusal(port) is None <==> port >= 1024,
{
}

/// A connection that is marked as stopped keeps everything else.
pub proof fn stopped_connections_keep_the_rest(c: Connection)
    ensures
        stopped(c).status == ConnectionStatus::Stopped,
        stopped(c) == (Connection { status: stopped(c).status, ..c }),
{
}

/// Marking changes the status and the time of the one connection that is meant, and nothing
/// else.
pub proof fn marking_changes_one_status(
    conns: Seq<Connection>,
    id: Seq<char>,
    status: ConnectionStatus,
    now: Timestamp,
    k: int,
)
    requires
        0 <= k < conns.len(),
    ensures
        marked(conns, id, status, now).len() == conns.len(),
        position(conns, id) != Some(k) ==> marked(conns, id, status, now)[k] == conns[k],
        position(conns, id) == Some(k) ==> {
            let c = marked(conns, id, status, now)[k];
            &&& c.status == status && c.updated_at == now
            &&& c == (Connection { status: c.status, updated_at: c.updated_at, ..conns[k] })
        },
{
    position_is_first(conns, id);
}

/// A connection is started under its own path where it is there and does not run yet; otherwise
/// it is told which of the two is missing.
pub proof fn stopped_connections_can_be_started(conns: Seq<Connection>, id: Seq<char>, i: int, running: bool)
    ensures
        position(conns, id) is None ==> start_outcome(conns, id, running) == Err::<Seq<Action<Seq<char>>>, ErrorView>(
            ErrorView::ConnectionNotFound,
        ),
        position(conns, id) == Some(i) && running ==> start_outcome(conns, id, running) == Err::<
            Seq<Action<Seq<char>>>,
            ErrorView,
        >(ErrorView::ServerAlreadyRunning),
        position(conns, id) == Some(i) && !running ==> start_outcome(conns, id, running) == Ok::<
            Seq<Action<Seq<char>>>,
            ErrorView,
        >(
            seq![
                Action::Announce(Announced::Starting),
                Action::Build,
                Action::Register { path: conns[i].mcp_path@ },
                Action::Save { running: true },
                Action::Announce(Announced::Running),
            ],
        ),
{
}

} // verus!
