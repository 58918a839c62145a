//! What a user can do with connections, and the servers of the bridge.

use axum::http::HeaderMap;
use overfry::audit::AuditLog;
use overfry::commands::{
    build_router, create_connection, delete_connection, find_connection, get_audit_log, get_server_status, list_connections,
    make_slug, mark, normalise_mcp_path, path_of, replace_connection, reset_statuses, set_global_port,
    show_connection, start_oauth_flow, start_server, stop_server, store_tokens, update_connection, Action, Announced,
    Service,
};
use overfry::error::AppError;
use overfry::global_server::{GlobalServer, Listening, Routed, DEFAULT_PORT};
use overfry::incoming_auth::{IncomingAuthState, OAuthCredentials};
use overfry::json;
use overfry::models::{
    AuditEntry, AuditResult, AuthConfig, AuthMethod, Connection, ConnectionStatus, ConnectionType,
    CreateConnectionRequest, Timestamp,
};
use overfry::server_manager::ServerManager;
use overfry::tls::{after_consent, after_setup, after_stored, ensure_cert, make_cert, make_tls_config, CertSource, TlsStep};
use overfry::tunnel::{
    extract_tunnel_url, on_event, tunnel_args, tunnel_start, Event, Next, Notice, TunnelManager, TunnelStatus,
};

fn wanted(name: &str, connection_type: ConnectionType, path: Option<&str>) -> CreateConnectionRequest {
    CreateConnectionRequest {
        name: name.to_string(),
        connection_type,
        root_paths: vec![],
        auth_config: None,
        mcp_path: path.map(|p| p.to_string()),
    }
}

fn two() -> Vec<Connection> {
    let conns = create_connection(vec![], wanted("One", ConnectionType::Filesystem, None));
    create_connection(conns, wanted("Two", ConnectionType::RemoteProxy, Some("/two")))
}

fn later() -> Timestamp {
    Timestamp { seconds: 99, nanos: 0 }
}

fn config(auth_method: AuthMethod) -> AuthConfig {
    AuthConfig {
        base_url: "https://example.com".to_string(),
        token: String::new(),
        extra_headers: vec![],
        preset: None,
        auth_method,
        client_id: String::new(),
        client_secret: String::new(),
        oauth_auth_url: String::new(),
        oauth_token_url: String::new(),
        oauth_scopes: String::new(),
        access_token: String::new(),
        refresh_token: String::new(),
    }
}

// ── Connections ───────────────────────────────────────────────────────────────

#[test]
fn paths_are_made_of_names() {
    assert_eq!(make_slug("my vault!"), "my-vault");
    assert_eq!(normalise_mcp_path(None, "My Vault"), "/connector/my-vault");
    assert_eq!(normalise_mcp_path(Some(" /x ".to_string()), "My Vault"), "/x");
    assert_eq!(normalise_mcp_path(Some("x".to_string()), "My Vault"), "/connector/my-vault");
    assert_eq!(normalise_mcp_path(Some("/a b".to_string()), "Ünï"), "/connector/ünï");
    let long = format!("/{}", "a".repeat(64));
    assert_eq!(normalise_mcp_path(Some(long), "N"), "/connector/n");
}

#[test]
fn connections_are_made_and_found() {
    let conns = two();
    assert_eq!(conns.len(), 2);
    assert_eq!(conns[0].mcp_path, "/connector/one");
    assert!(matches!(conns[1].status, ConnectionStatus::Stopped));
    assert_ne!(conns[0].id, conns[1].id);
    assert_eq!(find_connection(&conns, &conns[1].id.to_string()), Some(1));
    assert_eq!(path_of(&conns, &conns[1].id.to_string()).unwrap(), "/two");
    assert!(matches!(path_of(&conns, "none"), Err(AppError::ConnectionNotFound)));
}

#[test]
fn connections_are_shown() {
    let conns = two();
    let id = conns[1].id.to_string();
    assert_eq!(show_connection(conns, &id).unwrap().name, "Two");
    assert!(matches!(show_connection(two(), "none"), Err(AppError::ConnectionNotFound)));
    let views = list_connections(two());
    assert_eq!((views[0].name.as_str(), views[1].name.as_str()), ("One", "Two"));
}

#[test]
fn deleted_connections_are_gone_and_others_stay() {
    let conns = two();
    let (first, second) = (conns[0].id.to_string(), conns[1].id.to_string());
    let path = conns[0].mcp_path.clone();
    let (conns, freed) = delete_connection(conns, &first);
    assert_eq!(freed, Some(path));
    let (conns, freed) = delete_connection(conns, "none");
    assert_eq!(freed, None);
    assert_eq!(find_connection(&conns, &first), None);
    assert_eq!(find_connection(&conns, &second), Some(0));
}

#[test]
fn changed_connections_keep_their_place_and_their_id() {
    let conns = two();
    let (id, created_at) = (conns[0].id, conns[0].created_at);
    let conns = replace_connection(conns, &id.to_string(), wanted("New", ConnectionType::Filesystem, None), later());
    assert_eq!(conns[0].name, "New");
    assert_eq!((conns[0].id, conns[0].created_at, conns[0].updated_at), (id, created_at, later()));
    assert_eq!(conns[1].name, "Two");
    let conns = mark(conns, &id.to_string(), ConnectionStatus::Running, later());
    assert!(matches!(conns[0].status, ConnectionStatus::Running));
    let (conns, dirty) = reset_statuses(conns);
    assert!(dirty && matches!(conns[0].status, ConnectionStatus::Stopped));
    assert!(!reset_statuses(conns).1);
}

#[test]
fn tokens_are_kept_with_their_connection() {
    let mut conns = two();
    conns[1].auth_config = Some(config(AuthMethod::OAuth));
    let id = conns[1].id.to_string();
    let conns = store_tokens(conns, &id, "a".to_string(), "r".to_string(), Some(later()));
    let auth = conns[1].auth_config.as_ref().unwrap();
    assert_eq!((auth.access_token.as_str(), auth.refresh_token.as_str()), ("a", "r"));
    assert_eq!(conns[1].updated_at, later());
}

#[test]
fn connections_are_served_by_their_kind() {
    let mut conns = two();
    assert!(matches!(build_router(&conns[0]), Ok(Service::Filesystem)));
    match build_router(&conns[1]) {
        Err(e) => assert_eq!(e.message(), "RemoteProxy connection missing auth_config"),
        _ => panic!("served"),
    }
    conns[1].auth_config = Some(config(AuthMethod::Token));
    assert!(matches!(build_router(&conns[1]), Ok(Service::Proxy(a)) if a.base_url == "https://example.com"));
    conns[1].connection_type = ConnectionType::ObsidianFilesystem;
    assert!(matches!(build_router(&conns[1]), Ok(Service::Vault)));
}

#[test]
fn running_connections_are_moved_to_their_new_path() {
    let conns = two();
    let (id, created_at) = (conns[1].id, conns[1].created_at);
    let mut req = wanted("New", ConnectionType::Filesystem, None);
    req.mcp_path = Some("/new".to_string());
    let (v, plan) = update_connection(conns, &id.to_string(), req, true, later()).unwrap();
    assert_eq!(v[0].name, "One");
    assert_eq!((v[1].id, v[1].created_at, v[1].updated_at), (id, created_at, later()));
    assert_eq!((v[1].name.as_str(), v[1].mcp_path.as_str()), ("New", "/new"));
    assert!(matches!(v[1].status, ConnectionStatus::Running));
    assert_eq!(
        plan,
        vec![
            Action::Unregister { path: "/two".to_string() },
            Action::Save { running: false },
            Action::Build,
            Action::Save { running: true },
            Action::Register { path: "/new".to_string() },
            Action::Announce(Announced::Running),
        ]
    );
}

#[test]
fn plans_to_change_start_and_stop() {
    let conns = two();
    let (id, path) = (conns[0].id.to_string(), conns[0].mcp_path.clone());
    assert_eq!(start_server(&conns, &id, false).unwrap()[2], Action::Register { path: path.clone() });
    assert!(matches!(start_server(&conns, &id, true), Err(AppError::ServerAlreadyRunning)));
    assert!(matches!(start_server(&conns, "none", true), Err(AppError::ConnectionNotFound)));
    assert_eq!(
        stop_server(&conns, &id).unwrap(),
        vec![Action::Unregister { path }, Action::Save { running: false }, Action::Announce(Announced::Stopped)]
    );
    assert!(matches!(stop_server(&conns, "none"), Err(AppError::ConnectionNotFound)));
    let request = || wanted("New", ConnectionType::Filesystem, None);
    assert!(matches!(update_connection(two(), "none", request(), true, later()), Err(AppError::ConnectionNotFound)));
    let (v, plan) = update_connection(conns, &id, request(), false, later()).unwrap();
    assert!(matches!(v[0].status, ConnectionStatus::Stopped));
    assert_eq!(plan, vec![Action::Save { running: false }, Action::Announce(Announced::Stopped)]);
    assert_eq!(Announced::Running.word(), "Running");
}

#[test]
fn ports_of_the_bridge() {
    assert_eq!(set_global_port(1024).unwrap().port, 1024);
    assert_eq!(set_global_port(1023).unwrap_err().message(), "Port must be >= 1024");
    assert_eq!(get_server_status(true), "Running");
    assert_eq!(get_server_status(false), "Stopped");
}

#[test]
fn only_connections_with_oauth_are_authorized() {
    let mut conns = two();
    let id = conns[1].id.to_string();
    assert_eq!(start_oauth_flow(&conns, &id).unwrap_err().message(), "Connection has no auth_config");
    conns[1].auth_config = Some(config(AuthMethod::Token));
    assert_eq!(
        start_oauth_flow(&conns, &id).unwrap_err().message(),
        "Connection is not using OAuth auth method"
    );
    conns[1].auth_config = Some(config(AuthMethod::OAuth));
    assert_eq!(start_oauth_flow(&conns, &id).unwrap().base_url, "https://example.com");
    assert!(matches!(start_oauth_flow(&conns, "none"), Err(AppError::ConnectionNotFound)));
}

#[test]
fn users_see_two_hundred_entries_of_the_record() {
    let mut log = AuditLog::new(std::path::PathBuf::from("audit.ndjson"));
    for i in 0..250 {
        log.append(AuditEntry {
            id: uuid::Uuid::new_v4(),
            connection_id: uuid::Uuid::new_v4(),
            tool_name: format!("{i}"),
            path: None,
            timestamp: later(),
            session_id: None,
            result: AuditResult::Success,
        });
    }
    assert_eq!(get_audit_log(&log, None).len(), 200);
    assert_eq!(get_audit_log(&log, Some(2))[0].tool_name, "249");
}

// ── Servers ───────────────────────────────────────────────────────────────────

#[test]
fn connections_are_reached_with_a_token() {
    let mut s: GlobalServer<u32> = GlobalServer::new(1);
    s.register("/a", 7);
    let mut auth = local_auth();
    let none = HeaderMap::new();
    assert!(matches!(s.route_request(&auth, &none, "/a", 0), Routed::Found(7)));
    assert!(matches!(s.route_request(&auth, &none, "/b", 0), Routed::NotFound));
    assert!(!s.has_auth());
    s.set_auth();
    assert!(s.has_auth());
    assert!(matches!(s.route_request(&auth, &none, "/a", 0), Routed::Found(7)));
    auth.set_tunnel_active(true);
    assert!(matches!(s.route_request(&auth, &none, "/a", 0), Routed::Refused(r) if r.status == 401));
    assert!(matches!(s.route_request(&auth, &none, "/b", 0), Routed::Refused(_)));
    let mut with = HeaderMap::new();
    with.insert("authorization", format!("Bearer {}", auth.issue_token(0)).parse().unwrap());
    assert!(matches!(s.route_request(&auth, &with, "/a", 1), Routed::Found(7)));
}

#[test]
fn registered_paths_are_routed() {
    let mut s: GlobalServer<u32> = GlobalServer::new(DEFAULT_PORT);
    s.register("/a", 1);
    s.register("/b", 2);
    assert_eq!(s.route("/a"), Some(&1));
    s.unregister("/a");
    assert_eq!(s.route("/a"), None);
    assert!(s.is_registered("/b") && !s.is_registered("/a"));
}

#[test]
fn servers_listen_on_their_port() {
    let mut s: GlobalServer<u32> = GlobalServer::new(51552);
    assert_eq!(s.start(), Listening::Bind { port: 51552 });
    s.after_bind(false);
    assert!(!s.is_running());
    s.after_bind(true);
    assert!(s.is_running());
    assert_eq!(s.start(), Listening::Keep);
    assert_eq!(s.restart_on_port(6000), Listening::Bind { port: 6000 });
    assert_eq!(s.port(), 6000);
    s.after_bind(true);
    s.stop();
    assert!(!s.is_running());
}

#[test]
fn servers_are_registered_once() {
    let mut m: ServerManager<u32> = ServerManager::new();
    assert!(m.register("a", 1).is_ok());
    assert!(matches!(m.register("a", 2), Err(AppError::ServerAlreadyRunning)));
    assert!(m.is_running("a"));
    assert_eq!(m.shutdown("a").unwrap(), 1);
    assert!(matches!(m.shutdown("a"), Err(AppError::ServerNotFound)));
}

#[test]
fn certificates_are_made_and_loaded() {
    let (cert, key) = make_cert().unwrap();
    assert!(cert.starts_with("-----BEGIN CERTIFICATE-----"));
    assert!(key.contains("PRIVATE KEY"));
    assert!(make_tls_config(&cert, &key).is_ok());
    match make_tls_config(&cert, "") {
        Err(AppError::Io(m)) => assert_eq!(m, "no private key"),
        _ => panic!("loaded"),
    }
    assert!(make_tls_config("", &key).is_err());
    let (_, other) = make_cert().unwrap();
    assert!(make_tls_config(&cert, &other).is_err());
}

#[test]
fn certificates_are_made_where_one_is_missing() {
    assert_eq!(ensure_cert(true, true), CertSource::Stored);
    assert_eq!(ensure_cert(true, false), CertSource::Made);
    assert_eq!(ensure_cert(false, true), CertSource::Made);
}

#[test]
fn https_needs_a_certificate_and_consent() {
    assert!(matches!(after_stored::<u8>(None), TlsStep::Ask));
    assert!(matches!(after_stored(Some(Ok(1u8))), TlsStep::Https(1)));
    assert!(matches!(after_stored::<u8>(Some(Err(AppError::ServerNotFound))), TlsStep::Http));
    assert!(matches!(after_consent::<u8>(true), TlsStep::Setup));
    assert!(matches!(after_consent::<u8>(false), TlsStep::Http));
    assert!(matches!(after_setup(Ok(2u8)), TlsStep::Https(2)));
    match after_setup::<u8>(Err(AppError::other("no"))) {
        TlsStep::Tell { message } => assert!(message.starts_with("HTTPS setup failed: no\n\n")),
        _ => panic!("not told"),
    }
}

// ── The tunnel ────────────────────────────────────────────────────────────────

#[test]
fn extract_url_from_cloudflared_output() {
    let line = "2024-01-01T00:00:00Z INF  |  https://abc-def-123.trycloudflare.com       |";
    assert_eq!(extract_tunnel_url(line), Some("https://abc-def-123.trycloudflare.com".to_string()));
}

#[test]
fn extract_url_ignores_non_tunnel() {
    let line = "connecting to https://api.cloudflare.com/something";
    assert_eq!(extract_tunnel_url(line), None);
}

#[test]
fn extract_url_strips_trailing_slash() {
    let line = "visit https://my-tunnel.trycloudflare.com/ now";
    assert_eq!(extract_tunnel_url(line), Some("https://my-tunnel.trycloudflare.com".to_string()));
}

fn local_auth() -> IncomingAuthState {
    let credentials = OAuthCredentials { client_id: "id".to_string(), client_secret: "s".to_string() };
    IncomingAuthState::new(credentials, false)
}

#[test]
fn tunnels_force_authentication_while_they_are_active() {
    let (mut m, mut auth) = (TunnelManager::new(), local_auth());
    tunnel_start(&mut m);
    assert_eq!(m.status, TunnelStatus::Connecting);
    let (notices, next) = on_event(&mut m, &mut auth, 5, Event::Started);
    assert!(notices.is_empty() && next == Next::Read);
    let line = "https://x.trycloudflare.com".to_string();
    let (notices, next) = on_event(&mut m, &mut auth, 5, Event::Line(line));
    assert_eq!(next, Next::Read);
    assert_eq!(
        json::to_text(&notices[0].to_json()),
        "{\"url\":\"https://x.trycloudflare.com\",\"status\":\"Active\"}"
    );
    assert_eq!(
        json::to_text(&notices[1].to_json()),
        "{\"tunnel_forced\":true,\"local_enabled\":false,\"effective\":true}"
    );
    assert!(auth.should_authenticate());
    let (notices, next) = on_event(&mut m, &mut auth, 5, Event::Terminated);
    assert_eq!(next, Next::Retry { retries_left: 4 });
    assert!(matches!(notices[0], Notice::Tunnel { status: TunnelStatus::Connecting, .. }));
    assert!(!auth.should_authenticate());
    assert_eq!(json::to_text(&m.get_status_snapshot()), "{\"url\":null,\"status\":\"Unavailable\"}");
}

#[test]
fn tunnels_are_given_up_in_the_end() {
    let (mut m, mut auth) = (TunnelManager::new(), local_auth());
    let (notices, next) = on_event(&mut m, &mut auth, 0, Event::SpawnFailed);
    assert_eq!(next, Next::Stop);
    assert!(matches!(notices[0], Notice::Tunnel { status: TunnelStatus::Unavailable, .. }));
    assert_eq!(on_event(&mut m, &mut auth, 3, Event::Closed).1, Next::Stop);
    assert_eq!(TunnelStatus::Active.word(), "Active");
}

#[test]
fn arguments_of_the_tunnel() {
    assert_eq!(tunnel_args(51552), vec!["tunnel", "--no-autoupdate", "--url", "http://127.0.0.1:51552"]);
}
