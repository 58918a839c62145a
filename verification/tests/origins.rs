//! Which origins are accepted.

use axum::http::{HeaderMap, HeaderValue};
use overfry::cors::{accept_origin, is_listed, origin_ok};
use overfry::filesystem_server;
use overfry::headers::Found;
use overfry::obsidian_fs_server;
use overfry::proxy_server;

/// The origin of the web application.
const WEB: &str = "https://assistant.example";

fn with_origin(origin: &str) -> HeaderMap {
    let mut h = HeaderMap::new();
    h.insert("origin", origin.parse().unwrap());
    h
}

#[test]
fn no_origin_allowed() {
    assert!(origin_ok(&HeaderMap::new(), WEB));
}

#[test]
fn tauri_allowed() {
    assert!(origin_ok(&with_origin("tauri://localhost"), WEB));
}

#[test]
fn the_web_application_is_allowed() {
    assert!(origin_ok(&with_origin("https://assistant.example"), WEB));
}

#[test]
fn origins_near_the_web_application_are_rejected() {
    assert!(!origin_ok(&with_origin("https://assistant.example.com"), WEB));
    assert!(!origin_ok(&with_origin("http://assistant.example"), WEB));
    assert!(!is_listed("", WEB));
}

#[test]
fn unreadable_origins_are_rejected() {
    let mut h = HeaderMap::new();
    h.insert("origin", HeaderValue::from_bytes(b"http://evil\xff.com").unwrap());
    assert!(!origin_ok(&h, WEB));
    assert!(!filesystem_server::origin_ok(&h));
    assert!(!obsidian_fs_server::origin_ok(&h));
    assert!(!proxy_server::origin_ok(&h));
}

#[test]
fn localhost_port_allowed() {
    assert!(origin_ok(&with_origin("http://localhost:5173"), WEB));
    assert!(origin_ok(&with_origin("http://localhost:3000"), WEB));
}

#[test]
fn loopback_port_allowed() {
    assert!(origin_ok(&with_origin("http://127.0.0.1:51552"), WEB));
}

#[test]
fn vscode_webview_allowed() {
    assert!(origin_ok(&with_origin("vscode-webview://abc123"), WEB));
}

#[test]
fn external_https_rejected() {
    assert!(!origin_ok(&with_origin("https://example.com"), WEB));
    assert!(!origin_ok(&with_origin("https://evil.com"), WEB));
}

#[test]
fn external_http_rejected() {
    assert!(!origin_ok(&with_origin("http://evil.com"), WEB));
}

#[test]
fn bare_localhost_no_port_rejected() {
    assert!(!origin_ok(&with_origin("http://localhost"), WEB));
}

#[test]
fn requests_and_preflights_agree() {
    for origin in ["https://assistant.example", "http://localhost:1", "https://example.com", "tauri://x"] {
        assert_eq!(accept_origin(&Found::Text(origin.to_owned()), WEB), is_listed(origin, WEB));
    }
    assert!(accept_origin(&Found::Absent, WEB));
}

// ── The servers of files ──────────────────────────────────────────────────────

#[test]
fn origin_ok_tauri_scheme_allowed() {
    let h = with_origin("tauri://localhost");
    assert!(filesystem_server::origin_ok(&h));
}

#[test]
fn origin_ok_rejects_http_localhost() {
    let h = with_origin("http://127.0.0.1:50000");
    assert!(!filesystem_server::origin_ok(&h));
}

#[test]
fn origin_ok_rejects_http_scheme() {
    let h = with_origin("http://evil.com");
    assert!(!filesystem_server::origin_ok(&h));
}

#[test]
fn origin_ok_rejects_https_scheme() {
    let h = with_origin("https://example.com");
    assert!(!filesystem_server::origin_ok(&h));
}

#[test]
fn origin_ok_no_origin_header_allowed() {
    let h = HeaderMap::new();
    assert!(filesystem_server::origin_ok(&h));
}

#[test]
fn origin_ok_tauri_scheme_allowed_obsidian() {
    let mut h = HeaderMap::new();
    h.insert("origin", "tauri://localhost".parse().unwrap());
    assert!(obsidian_fs_server::origin_ok(&h));
}

#[test]
fn origin_ok_rejects_http_localhost_obsidian() {
    let mut h = HeaderMap::new();
    h.insert("origin", "http://127.0.0.1:50000".parse().unwrap());
    assert!(!obsidian_fs_server::origin_ok(&h));
}

#[test]
fn origin_ok_no_origin_allowed_obsidian() {
    let h = HeaderMap::new();
    assert!(obsidian_fs_server::origin_ok(&h));
}

#[test]
fn the_proxy_accepts_the_application_alone() {
    assert!(proxy_server::origin_ok(&with_origin("tauri://localhost")));
    assert!(!proxy_server::origin_ok(&with_origin("https://assistant.example")));
}
