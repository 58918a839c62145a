//! Connections, and what users see of them.

use std::path::PathBuf;

use overfry::models::{
    default_mcp_path, AuthConfig, AuthConfigView, AuthMethod, Connection, ConnectionStatus, ConnectionType,
    ConnectionView, PortConfig, Timestamp,
};
use uuid::Uuid;

fn now() -> Timestamp {
    Timestamp { seconds: 1_700_000_000, nanos: 0 }
}

fn make_conn(connection_type: ConnectionType, auth_config: Option<AuthConfig>) -> Connection {
    Connection {
        id: Uuid::new_v4(),
        name: "Test".to_string(),
        connection_type,
        root_paths: vec![],
        status: ConnectionStatus::Stopped,
        auth_config,
        mcp_path: "/mcp".to_string(),
        created_at: now(),
        updated_at: now(),
    }
}

fn make_auth(token: &str) -> AuthConfig {
    AuthConfig {
        base_url: "https://example.com".to_string(),
        token: token.to_string(),
        extra_headers: vec![],
        preset: None,
        auth_method: AuthMethod::Token,
        client_id: String::new(),
        client_secret: String::new(),
        oauth_auth_url: String::new(),
        oauth_token_url: String::new(),
        oauth_scopes: String::new(),
        access_token: String::new(),
        refresh_token: String::new(),
    }
}

#[test]
fn connection_view_omits_token() {
    let conn = make_conn(ConnectionType::RemoteProxy, Some(make_auth("super-secret-token")));
    let view = ConnectionView::from(conn);
    let shown = format!("{view:?}");
    assert!(!shown.contains("super-secret-token"), "token must not appear in ConnectionView: {shown}");
    assert!(shown.contains("https://example.com"), "base_url must be present");
}

#[test]
fn connection_view_filesystem_no_auth() {
    let mut conn = make_conn(ConnectionType::Filesystem, None);
    conn.root_paths = vec![PathBuf::from("/tmp/vault")];
    conn.status = ConnectionStatus::Running;
    let view = ConnectionView::from(conn);
    let shown = format!("{view:?}");
    assert!(shown.contains("Test"));
    assert!(!shown.contains("token:"));
}

#[test]
fn connection_view_auth_config_view_has_no_token_field() {
    let auth_view = AuthConfigView {
        base_url: "https://outline.example.com".to_string(),
        preset: Some("outline".to_string()),
        auth_method: AuthMethod::Token,
        is_authorized: false,
    };
    let shown = format!("{auth_view:?}");
    assert!(!shown.contains("token:"), "AuthConfigView must have no token field: {shown}");
    assert!(shown.contains("outline.example.com"));
}

#[test]
fn views_tell_whether_a_connection_is_authorized() {
    let mut auth = make_auth("t");
    auth.auth_method = AuthMethod::OAuth;
    let before = ConnectionView::from(make_conn(ConnectionType::RemoteProxy, Some(auth.copy())));
    assert!(!before.auth_config.unwrap().is_authorized);
    auth.access_token = "a".to_string();
    let after = ConnectionView::from(make_conn(ConnectionType::RemoteProxy, Some(auth)));
    assert!(after.auth_config.unwrap().is_authorized);
}

#[test]
fn defaults() {
    assert_eq!(default_mcp_path(), "/mcp");
    assert_eq!(PortConfig::default().port, 51552);
    assert_eq!(AuthMethod::default(), AuthMethod::Token);
    assert!(matches!(ConnectionStatus::default(), ConnectionStatus::Stopped));
}
