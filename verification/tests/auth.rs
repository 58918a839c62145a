//! Tokens and codes of the bridge, forms and digests.

use axum::http::HeaderMap;
use overfry::crypto::{make_challenge, to_base64_url, to_hex, verify_pkce};
use overfry::forms::{form_urlencoded_parse, parse_body, read_param, url_decode};
use overfry::global_server::{authorize_handler, describe_authorization, discovery_handler, AuthorizeParams, Authorized};
use overfry::incoming_auth::{
    answer_token_request, check_authorization, check_bearer, token_endpoint, IncomingAuthState, OAuthCredentials,
    CODE_TTL, TOKEN_TTL,
};
use overfry::json;
use overfry::string_map::StringMap;

fn credentials(id: &str, secret: &str) -> OAuthCredentials {
    OAuthCredentials { client_id: id.to_string(), client_secret: secret.to_string() }
}

fn state() -> IncomingAuthState {
    IncomingAuthState::new(credentials("id", "secret"), true)
}

fn params(pairs: &[(&str, &str)]) -> StringMap<String> {
    let mut m: StringMap<String> = StringMap::new();
    for (k, v) in pairs {
        m.insert(k, v.to_string());
    }
    m
}

const VERIFIER: &str = "dBjftJeZ4CVP-mB92K27uhbUJU1p1r_wW1gFWFOEjXk";
const CHALLENGE: &str = "E9Melhoa2OwvFrEMTJguCHaoeK1t8URWbuGJSstw-cM";

// ── Digests and forms ─────────────────────────────────────────────────────────

#[test]
fn challenges_belong_to_their_verifiers() {
    assert_eq!(make_challenge(VERIFIER), CHALLENGE);
    assert!(verify_pkce(VERIFIER, CHALLENGE));
    assert!(!verify_pkce("other", CHALLENGE));
}

#[test]
fn bytes_as_text() {
    assert_eq!(to_hex(&vec![0x00, 0x1f, 0xa0]), "001fa0");
    assert_eq!(to_base64_url(&[0xfb, 0xff]), "-_8");
}

#[test]
fn different_bytes_have_different_texts() {
    assert_ne!(to_hex(&vec![1, 2]), to_hex(&vec![2, 1]));
    assert_eq!(to_hex(&vec![0; 16]).len(), 32);
}

#[test]
fn urls_are_decoded() {
    assert_eq!(url_decode("a%20b+c%3d"), "a b c=");
    assert_eq!(url_decode("a%zzb"), "ab");
    assert_eq!(url_decode("%4"), "@");
    assert_eq!(url_decode("100%"), "100\0");
}

#[test]
fn forms_are_parsed() {
    let m = form_urlencoded_parse("a=1&b=x%20y&a=2&c");
    assert_eq!(read_param(&m, "a"), "2");
    assert_eq!(read_param(&m, "b"), "x y");
    assert_eq!(read_param(&m, "c"), "");
    assert_eq!(read_param(&m, "d"), "");
}

#[test]
fn bodies_are_forms_or_json() {
    let m = parse_body("application/json", b"{\"a\":\"1\",\"n\":2}");
    assert_eq!(read_param(&m, "a"), "1");
    assert_eq!(read_param(&m, "n"), "");
    let m = parse_body("application/x-www-form-urlencoded", b"a=1");
    assert_eq!(read_param(&m, "a"), "1");
    let m = parse_body("application/json", b"a=1");
    assert_eq!(read_param(&m, "a"), "1");
}

// ── Tokens ────────────────────────────────────────────────────────────────────

#[test]
fn tokens_count_for_a_day() {
    let mut s = state();
    let token = s.issue_token(1000);
    assert_eq!(token.len(), 64);
    assert!(s.validate_token(&token, 1000 + TOKEN_TTL - 1));
    assert!(!s.validate_token(&token, 1000 + TOKEN_TTL));
    assert!(!s.validate_token("other", 1000));
    let second = s.issue_token(1000);
    assert_ne!(token, second);
    assert!(s.validate_token(&token, 2000));
}

#[test]
fn new_credentials_end_all_tokens() {
    let mut s = state();
    let token = s.issue_token(0);
    s.rotate_credentials(credentials("new", "other"));
    assert!(!s.validate_token(&token, 1));
    assert!(s.knows("new", "other"));
    assert!(!s.knows("id", "secret"));
}

#[test]
fn codes_are_good_once() {
    let mut s = state();
    let code = s.issue_auth_code("id", CHALLENGE, "http://cb", 0);
    assert_eq!(code.len(), 32);
    let token = s.exchange_code(&code, VERIFIER, "http://cb", 5).unwrap();
    assert!(s.validate_token(&token, 6));
    assert!(s.exchange_code(&code, VERIFIER, "http://cb", 5).is_none());
}

#[test]
fn codes_outlive_other_calls_until_they_end() {
    let mut s = state();
    let code = s.issue_auth_code("id", CHALLENGE, "http://cb", 0);
    s.issue_auth_code("id", "other", "http://cb", 1);
    s.issue_token(2);
    s.set_tunnel_active(true);
    assert!(s.exchange_code(&code, VERIFIER, "http://cb", 3).is_some());
    let code = s.issue_auth_code("id", CHALLENGE, "http://cb", 0);
    s.issue_auth_code("id", "other", "http://cb", CODE_TTL);
    assert!(s.exchange_code(&code, VERIFIER, "http://cb", CODE_TTL).is_none());
}

#[test]
fn codes_need_their_verifier_their_address_and_their_time() {
    let mut s = state();
    let code = s.issue_auth_code("id", CHALLENGE, "http://cb", 0);
    assert!(s.exchange_code(&code, "wrong", "http://cb", 5).is_none());
    assert!(s.exchange_code(&code, VERIFIER, "http://cb", 5).is_none());
    let code = s.issue_auth_code("id", CHALLENGE, "http://cb", 0);
    assert!(s.exchange_code(&code, VERIFIER, "http://other", 5).is_none());
    let code = s.issue_auth_code("id", CHALLENGE, "http://cb", 0);
    assert!(s.exchange_code(&code, VERIFIER, "http://cb", CODE_TTL + 1).is_none());
    let code = s.issue_auth_code("id", CHALLENGE, "http://cb", 0);
    assert!(s.exchange_code(&code, VERIFIER, "http://cb", CODE_TTL).is_some());
}

#[test]
fn an_active_tunnel_forces_authentication() {
    let mut s = IncomingAuthState::new(credentials("id", "secret"), false);
    assert!(!s.should_authenticate());
    s.set_tunnel_active(true);
    assert!(s.should_authenticate() && s.is_tunnel_forced() && !s.local_enabled());
    s.set_tunnel_active(false);
    s.set_local_enabled(true);
    assert!(s.should_authenticate() && !s.is_tunnel_forced());
}

// ── The endpoint ──────────────────────────────────────────────────────────────

#[test]
fn clients_get_tokens_for_their_secret() {
    let mut s = state();
    let p = params(&[("grant_type", "client_credentials"), ("client_id", "id"), ("client_secret", "secret")]);
    let r = answer_token_request(&mut s, &p, 0);
    assert_eq!(r.status, 200);
    assert_eq!(r.body.str_field("token_type"), Some("bearer".to_string()));
    assert_eq!(r.body.u64_field("expires_in"), Some(86400));
    assert!(s.validate_token(&r.body.str_field("access_token").unwrap(), 1));
}

#[test]
fn requests_for_tokens_are_refused() {
    let mut s = state();
    let refused = |s: &mut IncomingAuthState, pairs: &[(&str, &str)]| {
        let r = answer_token_request(s, &params(pairs), 0);
        (r.status, r.body.str_field("error").unwrap())
    };
    assert_eq!(
        refused(&mut s, &[("grant_type", "client_credentials"), ("client_id", "id")]),
        (401, "invalid_client".to_string())
    );
    assert_eq!(
        refused(&mut s, &[("grant_type", "authorization_code"), ("code", "x")]),
        (400, "invalid_grant".to_string())
    );
    assert_eq!(refused(&mut s, &[]), (400, "unsupported_grant_type".to_string()));
}

#[test]
fn the_endpoint_reads_headers_and_body() {
    let mut s = state();
    let mut h = HeaderMap::new();
    h.insert("content-type", "application/json".parse().unwrap());
    let body = b"{\"grant_type\":\"client_credentials\",\"client_id\":\"id\",\"client_secret\":\"secret\"}";
    assert_eq!(token_endpoint(&mut s, &h, body, 0).status, 200);
    let form = b"grant_type=client_credentials&client_id=id&client_secret=secret";
    assert_eq!(token_endpoint(&mut s, &HeaderMap::new(), form, 0).status, 200);
}

#[test]
fn requests_need_a_bearer_token() {
    let mut s = state();
    let token = s.issue_token(0);
    assert!(check_authorization(&s, Some(&format!("Bearer {token} ")), 1).is_none());
    let r = check_authorization(&s, Some(&token), 1).unwrap();
    assert_eq!(r.status, 401);
    assert_eq!(r.body.str_field("error"), Some("unauthorized".to_string()));
    assert!(check_authorization(&s, None, 1).is_some());
    let mut h = HeaderMap::new();
    h.insert("authorization", format!("Bearer {token}").parse().unwrap());
    assert!(check_bearer(&s, &h, 1).is_none());
    assert!(check_bearer(&s, &HeaderMap::new(), 1).is_some());
    s.set_local_enabled(false);
    assert!(check_bearer(&s, &HeaderMap::new(), 1).is_none());
}

// ── Authorization ─────────────────────────────────────────────────────────────

fn asking(client_id: &str) -> AuthorizeParams {
    AuthorizeParams {
        client_id: client_id.to_string(),
        redirect_uri: "http://cb".to_string(),
        state: Some("st".to_string()),
        code_challenge: CHALLENGE.to_string(),
        code_challenge_method: Some("S256".to_string()),
        response_type: "code".to_string(),
    }
}

#[test]
fn users_are_sent_back_with_a_code() {
    let mut s = state();
    match authorize_handler(&mut s, asking("id"), 0) {
        Authorized::Redirect { location } => {
            let rest = location.strip_prefix("http://cb?code=").unwrap();
            let code = rest.strip_suffix("&state=st").unwrap();
            assert!(s.exchange_code(code, VERIFIER, "http://cb", 1).is_some());
        }
        _ => panic!("refused"),
    }
}

#[test]
fn clients_are_refused() {
    let mut s = state();
    let refused = |s: &mut IncomingAuthState, p: AuthorizeParams| match authorize_handler(s, p, 0) {
        Authorized::Refused { status, error } => (status, error),
        _ => panic!("not refused"),
    };
    assert_eq!(refused(&mut s, asking("other")), (401, "invalid_client".to_string()));
    let mut p = asking("id");
    p.response_type = "token".to_string();
    assert_eq!(refused(&mut s, p), (400, "unsupported_response_type".to_string()));
    let mut p = asking("id");
    p.code_challenge_method = Some("plain".to_string());
    assert_eq!(refused(&mut s, p), (400, "unsupported_code_challenge_method".to_string()));
}

#[test]
fn discovery_names_the_endpoints() {
    let j = describe_authorization("x.trycloudflare.com");
    assert_eq!(j.str_field("token_endpoint"), Some("https://x.trycloudflare.com/oauth/token".to_string()));
    let j = describe_authorization("localhost:1");
    assert_eq!(j.str_field("issuer"), Some("http://localhost:1".to_string()));
    let j = discovery_handler(&HeaderMap::new());
    assert_eq!(j.str_field("issuer"), Some("http://127.0.0.1:51552".to_string()));
    let mut h = HeaderMap::new();
    h.insert("host", "127.0.0.1:9".parse().unwrap());
    assert_eq!(discovery_handler(&h).str_field("issuer"), Some("http://127.0.0.1:9".to_string()));
    assert!(json::to_text(&j).contains("\"S256\""));
}
