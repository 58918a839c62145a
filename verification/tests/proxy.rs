//! The proxy to a remote server.

use overfry::json;
use overfry::json::Json;
use overfry::models::{AuditResult, AuthConfig, AuthMethod};
use overfry::oauth::{Posted, TokenResponse};
use overfry::proxy_server::{
    accepts_invalid_certs, after_send, do_proxy_request, handle_rpc, parse_bytes, pick_bearer, record_request,
    target_url, try_refresh, upstream_headers, ProxyStep, Received, Sent,
};
use uuid::Uuid;

fn remote(method: AuthMethod) -> AuthConfig {
    AuthConfig {
        base_url: "https://example.com/mcp/".to_string(),
        token: "tok".to_string(),
        extra_headers: vec![("X-One".to_string(), "1".to_string()), ("bad name".to_string(), "2".to_string())],
        preset: None,
        auth_method: method,
        client_id: "id".to_string(),
        client_secret: "secret".to_string(),
        oauth_auth_url: String::new(),
        oauth_token_url: "https://example.com/token".to_string(),
        oauth_scopes: String::new(),
        access_token: "acc".to_string(),
        refresh_token: "ref".to_string(),
    }
}

fn sent(status: u16, body: &str) -> Sent {
    Sent::Answered { status, status_text: format!("{status} X"), body: body.as_bytes().to_vec() }
}

fn call() -> Json {
    json::parse(b"{\"id\":9,\"method\":\"ping\"}").unwrap()
}

fn id() -> Json {
    Json::number(9)
}

#[test]
fn requests_carry_the_token_of_their_method() {
    assert_eq!(pick_bearer(&remote(AuthMethod::Token)), Some("tok".to_string()));
    assert_eq!(pick_bearer(&remote(AuthMethod::OAuth)), Some("acc".to_string()));
    let mut a = remote(AuthMethod::Token);
    a.token = String::new();
    assert_eq!(pick_bearer(&a), None);
    assert_eq!(target_url(&a), "https://example.com/mcp");
}

#[test]
fn headers_that_cannot_be_sent_are_left_out() {
    let a = remote(AuthMethod::Token);
    let pair = |k: &str, v: &str| (k.to_string(), v.to_string());
    assert_eq!(
        upstream_headers(&Some("t".to_string()), &a.extra_headers),
        vec![pair("Content-Type", "application/json"), pair("Authorization", "Bearer t"), pair("X-One", "1")]
    );
    let odd = vec![pair("X", "a\nb"), pair("Y", "ok")];
    assert_eq!(upstream_headers(&None, &odd), vec![pair("Content-Type", "application/json"), pair("Y", "ok")]);
    let odd = vec![pair("", "a"), pair("a b", "a"), pair("é", "a"), pair("X", "\u{7f}"), pair("x~!", "\té")];
    assert_eq!(upstream_headers(&None, &odd), vec![pair("Content-Type", "application/json"), pair("x~!", "\té")]);
    let long = vec![pair(&"x".repeat(65536), "a"), pair(&"x".repeat(65535), "a")];
    assert_eq!(upstream_headers(&None, &long).len(), 2);
}

#[test]
fn certificates_of_a_local_vault_are_accepted() {
    let mut a = remote(AuthMethod::Token);
    assert!(!accepts_invalid_certs(&a));
    a.preset = Some("obsidian".to_string());
    assert!(accepts_invalid_certs(&a));
}

#[test]
fn requests_are_sent_on() {
    match do_proxy_request(&remote(AuthMethod::Token), &call(), id()) {
        ProxyStep::Send { url, headers, body, retried, .. } => {
            assert_eq!(body, "{\"id\":9,\"method\":\"ping\"}");
            assert_eq!(url, "https://example.com/mcp");
            assert_eq!(headers.len(), 3);
            assert!(!retried);
        }
        _ => panic!("not sent"),
    }
    let mut a = remote(AuthMethod::OAuth);
    a.access_token = String::new();
    match do_proxy_request(&a, &call(), id()) {
        ProxyStep::Done(answer) => match answer.result {
            AuditResult::Error(m) => assert!(m.starts_with("OAuth not authorized")),
            _ => panic!("no error"),
        },
        _ => panic!("sent"),
    }
}

#[test]
fn answers_are_passed_on() {
    match after_send(&remote(AuthMethod::Token), "{}".to_string(), id(), false, sent(200, "{\"result\":1}")) {
        ProxyStep::Done(a) => {
            assert!(matches!(a.result, AuditResult::Success));
            assert_eq!(json::to_text(&a.body), "{\"result\":1}");
        }
        _ => panic!("not done"),
    }
    match after_send(&remote(AuthMethod::Token), "{}".to_string(), id(), false, sent(401, "")) {
        ProxyStep::Done(a) => assert_eq!(
            json::to_text(&a.body),
            "{\"jsonrpc\":\"2.0\",\"id\":9,\"error\":{\"code\":-32603,\"message\":\"upstream error: 401 X\"}}"
        ),
        _ => panic!("not done"),
    }
    match after_send(&remote(AuthMethod::Token), "{}".to_string(), id(), false, Sent::Failed("down".to_string())) {
        ProxyStep::Done(a) => assert!(matches!(a.result, AuditResult::Error(m) if m == "down")),
        _ => panic!("not done"),
    }
}

#[test]
fn errors_carry_the_id_of_the_request() {
    let a = parse_bytes(b"{\"id\":1,\"error\":{\"code\":1}}", id());
    assert_eq!(json::to_text(&a.body), "{\"id\":9,\"error\":{\"code\":1}}");
    let a = parse_bytes(b"<html>", id());
    assert!(json::to_text(&a.body).contains("upstream returned non-JSON body"));
}

#[test]
fn refused_tokens_are_refreshed_once() {
    let mut a = remote(AuthMethod::OAuth);
    let (body, id, status_text) = match after_send(&a, "{\"id\":9}".to_string(), id(), false, sent(401, "")) {
        ProxyStep::Refresh { token_url, form, status_text, body, id } => {
            assert_eq!(token_url, "https://example.com/token");
            assert!(form.contains(&("refresh_token".to_string(), "ref".to_string())));
            (body, id, status_text)
        }
        _ => panic!("not refreshed"),
    };
    let posted = Posted::Answered {
        status: 200,
        status_text: "200 OK".to_string(),
        text: String::new(),
        parsed: Ok(TokenResponse { access_token: "new".to_string(), refresh_token: String::new() }),
    };
    let (step, kept) = try_refresh(&mut a, body, id, &status_text, posted);
    assert_eq!(kept, Some(("new".to_string(), "ref".to_string())));
    assert_eq!(a.access_token, "new");
    match step {
        ProxyStep::Send { headers, body, retried, .. } => {
            assert_eq!(body, "{\"id\":9}");
            assert!(retried);
            assert!(headers.contains(&("Authorization".to_string(), "Bearer new".to_string())));
        }
        _ => panic!("not sent"),
    }
    assert!(matches!(after_send(&a, String::new(), Json::Null, true, sent(401, "{}")), ProxyStep::Done(_)));
}

#[test]
fn failed_refreshes_end_the_request() {
    let mut a = remote(AuthMethod::OAuth);
    let (step, kept) = try_refresh(&mut a, String::new(), id(), "401 X", Posted::Failed("down".to_string()));
    assert!(kept.is_none());
    assert_eq!(a.access_token, "acc");
    match step {
        ProxyStep::Done(answer) => assert!(matches!(answer.result, AuditResult::Error(m) if m == "upstream error: 401 X")),
        _ => panic!("not done"),
    }
}

#[test]
fn bodies_are_forwarded_with_their_id() {
    assert!(matches!(handle_rpc(false, b"{}"), Received::Forbidden));
    match handle_rpc(true, b"{\"id\":3}") {
        Received::Forward { id, .. } => assert_eq!(json::to_text(&id), "3"),
        _ => panic!("not forwarded"),
    }
    match handle_rpc(true, b"{") {
        Received::Reply(j) => assert_eq!(
            json::to_text(&j),
            "{\"jsonrpc\":\"2.0\",\"id\":null,\"error\":{\"code\":-32700,\"message\":\"Parse error\"}}"
        ),
        _ => panic!("no reply"),
    }
}

#[test]
fn forwarded_requests_are_recorded() {
    let connection = Uuid::new_v4();
    let e = record_request(connection, &remote(AuthMethod::Token), AuditResult::Success);
    assert_eq!(e.connection_id, connection);
    assert_eq!((e.tool_name.as_str(), e.path), ("proxy", Some("https://example.com/mcp".to_string())));
}
