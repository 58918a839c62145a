//! Signing in to remote servers.

use overfry::crypto::verify_pkce;
use overfry::error::AppError;
use overfry::oauth::{
    after_exchange, after_listen, after_open, after_refresh, after_wait, authorization_pairs, generate_pkce,
    handle_callback, pkce_of, refresh_access_token, run_oauth_flow, start_flow, Flow, FlowStep, OAuthParams,
    PkceChallenge, Posted, TokenResponse, Waited,
};

fn oauth_params(auth_url: &str) -> OAuthParams<'_> {
    OAuthParams {
        auth_url,
        token_url: "https://example.com/token",
        client_id: "id",
        client_secret: "secret",
        scopes: "read write",
    }
}

fn flow() -> Flow<String> {
    Flow {
        token_url: "https://example.com/token".to_string(),
        client_id: "id".to_string(),
        client_secret: "secret".to_string(),
        verifier: "v".to_string(),
    }
}

fn answered(status: u16, access: &str, refresh: &str) -> Posted {
    Posted::Answered {
        status,
        status_text: format!("{status} X"),
        text: "text".to_string(),
        parsed: Ok(TokenResponse { access_token: access.to_string(), refresh_token: refresh.to_string() }),
    }
}

fn upstream_error<A>(r: Result<A, AppError>) -> String {
    match r {
        Err(AppError::Upstream(m)) => m,
        _ => panic!("no upstream error"),
    }
}

#[test]
fn verifiers_come_with_their_challenge() {
    let p = generate_pkce();
    assert_eq!(p.verifier.len(), 43);
    assert!(verify_pkce(&p.verifier, &p.challenge));
    let p = pkce_of(&[0; 32]);
    assert_eq!(p.verifier, "AAAAAAAAAAAAAAAAAAAAAAAAAAAAAAAAAAAAAAAAAAA");
}

#[test]
fn flows_start_with_the_address_for_the_browser() {
    let pkce = PkceChallenge { verifier: "v".to_string(), challenge: "c".to_string() };
    match start_flow(oauth_params("https://example.com/auth"), pkce) {
        FlowStep::Listen { url, flow } => {
            assert!(url.starts_with("https://example.com/auth?"));
            assert!(url.contains("response_type=code"));
            assert!(url.contains("client_id=id"));
            assert!(url.contains("code_challenge=c"));
            assert!(url.contains("code_challenge_method=S256"));
            assert!(url.contains("scope=read+write"));
            assert_eq!(flow.verifier, "v");
        }
        _ => panic!("not listening"),
    }
    match run_oauth_flow(oauth_params("no address")) {
        FlowStep::Done(r) => assert!(upstream_error(r).starts_with("invalid auth URL: ")),
        _ => panic!("not done"),
    }
}

#[test]
fn scopes_are_left_out_where_there_are_none() {
    let with = authorization_pairs("id", "c", "read");
    let without = authorization_pairs("id", "c", "");
    assert!(with.contains(&("scope".to_string(), "read".to_string())));
    assert_eq!(without.len() + 1, with.len());
}

#[test]
fn flows_go_on_step_by_step() {
    let url = "https://example.com/auth".to_string();
    assert!(matches!(after_listen(url.clone(), flow(), Ok(())), FlowStep::Open { .. }));
    match after_listen(url, flow(), Err("in use".to_string())) {
        FlowStep::Done(r) => assert_eq!(upstream_error(r), "cannot bind callback port 59876: in use"),
        _ => panic!("not done"),
    }
    assert!(matches!(after_open(flow(), Ok(())), FlowStep::Wait { .. }));
    match after_open(flow(), Err("none".to_string())) {
        FlowStep::Done(r) => assert_eq!(upstream_error(r), "cannot open browser: none"),
        _ => panic!("not done"),
    }
}

#[test]
fn codes_are_exchanged() {
    match after_wait(flow(), Waited::Code("abc".to_string())) {
        FlowStep::Post { token_url, form } => {
            assert_eq!(token_url, "https://example.com/token");
            assert!(form.contains(&("code".to_string(), "abc".to_string())));
            assert!(form.contains(&("code_verifier".to_string(), "v".to_string())));
            assert!(form.contains(&("grant_type".to_string(), "authorization_code".to_string())));
        }
        _ => panic!("nothing posted"),
    }
    let failed = |w: Waited<String>| match after_wait(flow(), w) {
        FlowStep::Done(r) => upstream_error(r),
        _ => panic!("not done"),
    };
    assert_eq!(failed(Waited::TimedOut), "OAuth flow timed out (120 s)");
    assert_eq!(failed(Waited::Closed), "OAuth callback channel closed");
    assert_eq!(failed(Waited::Code("__error__denied".to_string())), "OAuth error: denied");
}

#[test]
fn tokens_are_read_from_the_answer() {
    assert_eq!(after_exchange(answered(200, "a", "r")).unwrap(), ("a".to_string(), "r".to_string()));
    assert_eq!(upstream_error(after_exchange(answered(400, "a", "r"))), "token exchange failed (400 X): text");
    assert_eq!(
        upstream_error(after_exchange(Posted::Failed("down".to_string()))),
        "token exchange request failed: down"
    );
    let garbled = Posted::Answered {
        status: 200,
        status_text: "200 OK".to_string(),
        text: "x".to_string(),
        parsed: Err("bad".to_string()),
    };
    assert_eq!(upstream_error(after_exchange(garbled)), "token response parse failed: bad");
}

#[test]
fn refreshing_keeps_the_refresh_token() {
    assert_eq!(after_refresh(answered(200, "a", ""), "old").unwrap(), ("a".to_string(), "old".to_string()));
    assert_eq!(after_refresh(answered(200, "a", "new"), "old").unwrap(), ("a".to_string(), "new".to_string()));
    assert_eq!(upstream_error(after_refresh(answered(500, "", ""), "old")), "token refresh failed (500 X): text");
    let form = refresh_access_token("id", "secret", "r");
    assert_eq!(form[0], ("grant_type".to_string(), "refresh_token".to_string()));
    assert_eq!(form[1], ("refresh_token".to_string(), "r".to_string()));
}

#[test]
fn callbacks_tell_the_code_or_the_error() {
    let (code, page) = handle_callback(true, Some("c".to_string()), None);
    assert_eq!(code, Some("c".to_string()));
    assert!(page.contains("Authorization successful!"));
    let (code, page) = handle_callback(true, None, Some("denied".to_string()));
    assert_eq!(code, Some("__error__denied".to_string()));
    assert!(page.contains("Authorization failed."));
    assert_eq!(handle_callback(true, None, None).0, Some("__error__unknown error".to_string()));
    assert_eq!(handle_callback(false, Some("c".to_string()), None).0, None);
}
