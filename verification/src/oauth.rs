//! The OAuth 2 authorization code flow with PKCE, by which the bridge gets its tokens
//! for a remote server:
//!
//! 1. make a verifier and its challenge,
//! 2. listen for the callback,
//! 3. open the browser at the authorization address,
//! 4. receive the code,
//! 5. exchange the code for tokens.
//!
//! What only the host can do is asked of it, one step after the other.

use vstd::prelude::*;

use crate::crypto;
use crate::error::AppError;
use crate::error::ErrorView;
use crate::models;
use crate::text;

verus! {

/// The port of the callback.
pub const CALLBACK_PORT: u16 = 59876;

/// How many seconds the bridge waits for the code.
pub const FLOW_SECONDS: u64 = 120;

// ── PKCE ──────────────────────────────────────────────────────────────────────

/// A verifier, and the challenge that belongs to it.
pub struct PkceChallenge {
    pub verifier: String,
    pub challenge: String,
}

/// The verifier of these bytes, and its challenge.
pub fn pkce_of(bytes: &[u8]) -> (r: PkceChallenge)
    ensures
        r.verifier@ == crypto::base64_url(bytes@),
        r.challenge@ == crypto::challenge_of(r.verifier@),
{
    let verifier = crypto::to_base64_url(bytes);
    let challenge = crypto::make_challenge(&verifier);
    PkceChallenge { verifier, challenge }
}

/// A verifier of 32 random bytes, and its challenge.
pub fn generate_pkce() -> (r: PkceChallenge)
    ensures
        exists|bytes: Seq<u8>| bytes.len() == 32 && r.verifier@ == #[trigger] crypto::base64_url(bytes),
        r.challenge@ == crypto::challenge_of(r.verifier@),
{
    let bytes = crypto::random_bytes(32);
    let r = pkce_of(&bytes);
    assert(bytes@.len() == 32 && r.verifier@ == crypto::base64_url(bytes@));
    r
}

// ── The authorization address ─────────────────────────────────────────────────

/// An address with name and value pairs added to its query, or the message of the
/// error where it is no address.
pub uninterp spec fn url_with_pairs(base: Seq<char>, pairs: Seq<(Seq<char>, Seq<char>)>) -> Result<
    Seq<char>,
    Seq<char>,
>;

/// Calls `reqwest::Url::parse`, and `extend_pairs` on what `query_pairs_mut` gives.
/// The address, or the message of the error, is a function of the base and the pairs.
#[verifier::external_body]
fn add_pairs(base: &str, pairs: &Vec<(String, String)>) -> (r: Result<String, String>)
    ensures
        match r {
            Ok(s) => url_with_pairs(base@, models::pair_texts(pairs@)) == Ok::<Seq<char>, Seq<char>>(s@),
            Err(e) => url_with_pairs(base@, models::pair_texts(pairs@)) == Err::<Seq<char>, Seq<char>>(e@),
        },
{
    let mut url = reqwest::Url::parse(base).map_err(|e| e.to_string())?;
    url.query_pairs_mut().extend_pairs(pairs);
    Ok(url.to_string())
}

/// Where the browser is sent back to.
pub open spec fn callback_address() -> Seq<char> {
    "http://127.0.0.1:"@ + text::decimal(CALLBACK_PORT as nat) + "/callback"@
}

fn callback_uri() -> (r: String)
    ensures
        r@ == callback_address(),
{
    text::cat3("http://127.0.0.1:", &text::to_decimal(CALLBACK_PORT as u64), "/callback")
}

/// How to reach the authorization server.
pub struct OAuthParams<'a> {
    pub auth_url: &'a str,
    pub token_url: &'a str,
    pub client_id: &'a str,
    pub client_secret: &'a str,
    pub scopes: &'a str,
}

/// What the browser asks the authorization server for.
pub open spec fn authorization_query(client_id: Seq<char>, challenge: Seq<char>, scopes: Seq<char>) -> Seq<
    (Seq<char>, Seq<char>),
> {
    let pairs = seq![
        ("response_type"@, "code"@),
        ("client_id"@, client_id),
        ("redirect_uri"@, callback_address()),
        ("code_challenge"@, challenge),
        ("code_challenge_method"@, "S256"@),
    ];
    if scopes.len() > 0 {
        pairs.push(("scope"@, scopes))
    } else {
        pairs
    }
}

/// What the browser asks the authorization server for.
pub fn authorization_pairs(client_id: &str, challenge: &str, scopes: &str) -> (r: Vec<(String, String)>)
    ensures
        models::pair_texts(r@) == authorization_query(client_id@, challenge@, scopes@),
{
    let mut v: Vec<(String, String)> = Vec::new();
    v.push(("response_type".to_owned(), "code".to_owned()));
    v.push(("client_id".to_owned(), client_id.to_owned()));
    v.push(("redirect_uri".to_owned(), callback_uri()));
    v.push(("code_challenge".to_owned(), challenge.to_owned()));
    v.push(("code_challenge_method".to_owned(), "S256".to_owned()));
    if !scopes.is_empty() {
        v.push(("scope".to_owned(), scopes.to_owned()));
    }
    assert(models::pair_texts(v@) =~= authorization_query(client_id@, challenge@, scopes@));
    v
}

/// The address that the browser is sent to.
pub open spec fn authorization_url(auth_url: Seq<char>, client_id: Seq<char>, challenge: Seq<char>, scopes: Seq<char>) -> Result<
    Seq<char>,
    ErrorView,
> {
    match url_with_pairs(auth_url, authorization_query(client_id, challenge, scopes)) {
        Ok(s) => Ok(s),
        Err(e) => Err(ErrorView::Upstream("invalid auth URL: "@ + e)),
    }
}

// ── The flow ──────────────────────────────────────────────────────────────────

/// What is needed once the code is there.
pub struct Flow<T> {
    pub token_url: T,
    pub client_id: T,
    pub client_secret: T,
    pub verifier: T,
}

/// What the flow needs next.
pub enum FlowStep<T, P, R> {
    /// To listen for the callback.
    Listen { url: T, flow: Flow<T> },
    /// To open the browser.
    Open { url: T, flow: Flow<T> },
    /// To wait for the code.
    Wait { flow: Flow<T> },
    /// To post a form to the token address.
    Post { token_url: T, form: P },
    Done(R),
}

pub type OAuthStep = FlowStep<String, Vec<(String, String)>, Result<(String, String), AppError>>;

pub type OAuthStepView = FlowStep<Seq<char>, Seq<(Seq<char>, Seq<char>)>, Result<(Seq<char>, Seq<char>), ErrorView>>;

impl View for Flow<String> {
    type V = Flow<Seq<char>>;

    open spec fn view(&self) -> Flow<Seq<char>> {
        Flow {
            token_url: self.token_url@,
            client_id: self.client_id@,
            client_secret: self.client_secret@,
            verifier: self.verifier@,
        }
    }
}

/// What a pair of tokens, or an error, is.
pub open spec fn tokens_view(r: Result<(String, String), AppError>) -> Result<(Seq<char>, Seq<char>), ErrorView> {
    match r {
        Ok(t) => Ok((t.0@, t.1@)),
        Err(e) => Err(e@),
    }
}

impl View for FlowStep<String, Vec<(String, String)>, Result<(String, String), AppError>> {
    type V = OAuthStepView;

    open spec fn view(&self) -> OAuthStepView {
        match self {
            FlowStep::Listen { url, flow } => FlowStep::Listen { url: url@, flow: flow@ },
            FlowStep::Open { url, flow } => FlowStep::Open { url: url@, flow: flow@ },
            FlowStep::Wait { flow } => FlowStep::Wait { flow: flow@ },
            FlowStep::Post { token_url, form } => FlowStep::Post {
                token_url: token_url@,
                form: models::pair_texts(form@),
            },
            FlowStep::Done(r) => FlowStep::Done(tokens_view(*r)),
        }
    }
}

/// The flow fails because of the other side.
pub open spec fn upstream(message: Seq<char>) -> OAuthStepView {
    FlowStep::Done(Err(ErrorView::Upstream(message)))
}

/// The first step of the flow, for a verifier and its challenge.
pub open spec fn flow_start(
    auth_url: Seq<char>,
    flow: Flow<Seq<char>>,
    scopes: Seq<char>,
    challenge: Seq<char>,
) -> OAuthStepView {
    match authorization_url(auth_url, flow.client_id, challenge, scopes) {
        Ok(url) => FlowStep::Listen { url, flow },
        Err(e) => FlowStep::Done(Err(e)),
    }
}

/// Starts the flow with a verifier and its challenge.
pub fn start_flow(params: OAuthParams<'_>, pkce: PkceChallenge) -> (r: OAuthStep)
    ensures
        r@ == flow_start(
            params.auth_url@,
            (Flow {
                token_url: params.token_url@,
                client_id: params.client_id@,
                client_secret: params.client_secret@,
                verifier: pkce.verifier@,
            }),
            params.scopes@,
            pkce.challenge@,
        ),
{
    let pairs = authorization_pairs(params.client_id, &pkce.challenge, params.scopes);
    match add_pairs(params.auth_url, &pairs) {
        Ok(url) => FlowStep::Listen {
            url,
            flow: Flow {
                token_url: params.token_url.to_owned(),
                client_id: params.client_id.to_owned(),
                client_secret: params.client_secret.to_owned(),
                verifier: pkce.verifier,
            },
        },
        Err(e) => FlowStep::Done(Err(AppError::Upstream(text::cat("invalid auth URL: ", &e)))),
    }
}

/// Starts the flow with a verifier of random bytes.
pub fn run_oauth_flow(params: OAuthParams<'_>) -> (r: OAuthStep)
    ensures
        exists|bytes: Seq<u8>|
            {
                let verifier = #[trigger] crypto::base64_url(bytes);
                bytes.len() == 32 && r@ == flow_start(
                    params.auth_url@,
                    (Flow {
                        token_url: params.token_url@,
                        client_id: params.client_id@,
                        client_secret: params.client_secret@,
                        verifier,
                    }),
                    params.scopes@,
                    crypto::challenge_of(verifier),
                )
            },
{
    let pkce = generate_pkce();
    start_flow(params, pkce)
}

/// Goes on after the attempt to listen for the callback.
pub fn after_listen(url: String, flow: Flow<String>, outcome: Result<(), String>) -> (r: OAuthStep)
    ensures
        r@ == (match outcome {
            Ok(_) => OAuthStepView::Open { url: url@, flow: flow@ },
            Err(e) => upstream("cannot bind callback port "@ + text::decimal(CALLBACK_PORT as nat) + ": "@ + e@),
        }),
{
    match outcome {
        Ok(_) => FlowStep::Open { url, flow },
        Err(e) => {
            let mut msg = text::cat3("cannot bind callback port ", &text::to_decimal(CALLBACK_PORT as u64), ": ");
            msg.append(&e);
            FlowStep::Done(Err(AppError::Upstream(msg)))
        },
    }
}

/// Goes on after the attempt to open the browser.
pub fn after_open(flow: Flow<String>, outcome: Result<(), String>) -> (r: OAuthStep)
    ensures
        r@ == (match outcome {
            Ok(_) => OAuthStepView::Wait { flow: flow@ },
            Err(e) => upstream("cannot open browser: "@ + e@),
        }),
{
    match outcome {
        Ok(_) => FlowStep::Wait { flow },
        Err(e) => FlowStep::Done(Err(AppError::Upstream(text::cat("cannot open browser: ", &e)))),
    }
}

/// What came of waiting for the code.
pub enum Waited<T> {
    Code(T),
    TimedOut,
    Closed,
}

/// The form that exchanges a code for tokens.
pub open spec fn exchange_form(flow: Flow<Seq<char>>, code: Seq<char>) -> Seq<(Seq<char>, Seq<char>)> {
    seq![
        ("grant_type"@, "authorization_code"@),
        ("code"@, code),
        ("redirect_uri"@, callback_address()),
        ("client_id"@, flow.client_id),
        ("client_secret"@, flow.client_secret),
        ("code_verifier"@, flow.verifier),
    ]
}

/// The step after waiting for the code.
pub open spec fn next_of_wait(flow: Flow<Seq<char>>, waited: Waited<Seq<char>>) -> OAuthStepView {
    match waited {
        Waited::TimedOut => upstream("OAuth flow timed out (120 s)"@),
        Waited::Closed => upstream("OAuth callback channel closed"@),
        Waited::Code(code) => if "__error__"@.is_prefix_of(code) {
            upstream("OAuth error: "@ + code.skip("__error__"@.len() as int))
        } else {
            FlowStep::Post { token_url: flow.token_url, form: exchange_form(flow, code) }
        },
    }
}

/// Goes on after waiting for the code.
pub fn after_wait(flow: Flow<String>, waited: Waited<String>) -> (r: OAuthStep)
    ensures
        r@ == next_of_wait(
            flow@,
            match waited {
                Waited::Code(c) => Waited::Code(c@),
                Waited::TimedOut => Waited::TimedOut,
                Waited::Closed => Waited::Closed,
            },
        ),
{
    let code = match waited {
        Waited::TimedOut => {
            return FlowStep::Done(Err(AppError::Upstream("OAuth flow timed out (120 s)".to_owned())));
        },
        Waited::Closed => {
            return FlowStep::Done(Err(AppError::Upstream("OAuth callback channel closed".to_owned())));
        },
        Waited::Code(code) => code,
    };
    match text::strip_prefix(&code, "__error__") {
        Some(e) => FlowStep::Done(Err(AppError::Upstream(text::cat("OAuth error: ", &e)))),
        None => {
            let ghost want = exchange_form(flow@, code@);
            let mut form: Vec<(String, String)> = Vec::new();
            form.push(("grant_type".to_owned(), "authorization_code".to_owned()));
            form.push(("code".to_owned(), code));
            form.push(("redirect_uri".to_owned(), callback_uri()));
            form.push(("client_id".to_owned(), flow.client_id));
            form.push(("client_secret".to_owned(), flow.client_secret));
            form.push(("code_verifier".to_owned(), flow.verifier));
            assert(models::pair_texts(form@) =~= want);
            FlowStep::Post { token_url: flow.token_url, form }
        },
    }
}

// ── Tokens ────────────────────────────────────────────────────────────────────

/// What the token address answers.
#[derive(Debug)]
pub struct TokenResponse {
    pub access_token: String,
    /// Empty where there is none.
    pub refresh_token: String,
}

/// What came of posting a form to the token address. The body of an answer is there
/// as text and as the tokens that it holds.
pub enum Posted {
    Failed(String),
    Answered { status: u16, status_text: String, text: String, parsed: Result<TokenResponse, String> },
}

/// Whether a status is a success.
pub open spec fn is_success(status: u16) -> bool {
    200 <= status < 300
}

/// The words for what failed.
pub struct FailureWords {
    pub request: Seq<char>,
    pub refusal: Seq<char>,
    pub parse: Seq<char>,
}

/// The tokens that came of posting a form, or the error.
pub open spec fn tokens_of(posted: Posted, words: FailureWords) -> Result<(Seq<char>, Seq<char>), ErrorView> {
    match posted {
        Posted::Failed(e) => Err(ErrorView::Upstream(words.request + ": "@ + e@)),
        Posted::Answered { status, status_text, text, parsed } => if is_success(status) {
            match parsed {
                Ok(t) => Ok((t.access_token@, t.refresh_token@)),
                Err(e) => Err(ErrorView::Upstream(words.parse + ": "@ + e@)),
            }
        } else {
            Err(ErrorView::Upstream(words.refusal + " ("@ + status_text@ + "): "@ + text@))
        },
    }
}

fn read_tokens(posted: Posted, request: &str, refusal: &str, parse: &str) -> (r: Result<(String, String), AppError>)
    ensures
        tokens_view(r) == tokens_of(
            posted,
            (FailureWords { request: request@, refusal: refusal@, parse: parse@ }),
        ),
{
    match posted {
        Posted::Failed(e) => Err(AppError::Upstream(text::cat3(request, ": ", &e))),
        Posted::Answered { status, status_text, text, parsed } => if 200 <= status && status < 300 {
            match parsed {
                Ok(t) => Ok((t.access_token, t.refresh_token)),
                Err(e) => Err(AppError::Upstream(text::cat3(parse, ": ", &e))),
            }
        } else {
            let mut msg = text::cat3(refusal, " (", &status_text);
            msg.append("): ");
            msg.append(&text);
            Err(AppError::Upstream(msg))
        },
    }
}

/// The words for a failed exchange.
pub open spec fn exchange_words() -> FailureWords {
    FailureWords {
        request: "token exchange request failed"@,
        refusal: "token exchange failed"@,
        parse: "token response parse failed"@,
    }
}

/// The tokens that an exchange comes to.
pub fn after_exchange(posted: Posted) -> (r: Result<(String, String), AppError>)
    ensures
        tokens_view(r) == tokens_of(posted, exchange_words()),
{
    read_tokens(posted, "token exchange request failed", "token exchange failed", "token response parse failed")
}

/// The form that refreshes a token.
pub open spec fn refresh_form(client_id: Seq<char>, client_secret: Seq<char>, refresh_token: Seq<char>) -> Seq<
    (Seq<char>, Seq<char>),
> {
    seq![
        ("grant_type"@, "refresh_token"@),
        ("refresh_token"@, refresh_token),
        ("client_id"@, client_id),
        ("client_secret"@, client_secret),
    ]
}

/// The form that refreshes a token.
pub fn refresh_access_token(client_id: &str, client_secret: &str, refresh_token: &str) -> (r: Vec<(String, String)>)
    ensures
        models::pair_texts(r@) == refresh_form(client_id@, client_secret@, refresh_token@),
{
    let mut form: Vec<(String, String)> = Vec::new();
    form.push(("grant_type".to_owned(), "refresh_token".to_owned()));
    form.push(("refresh_token".to_owned(), refresh_token.to_owned()));
    form.push(("client_id".to_owned(), client_id.to_owned()));
    form.push(("client_secret".to_owned(), client_secret.to_owned()));
    assert(models::pair_texts(form@) =~= refresh_form(client_id@, client_secret@, refresh_token@));
    form
}

/// The words for a failed refresh.
pub open spec fn refresh_words() -> FailureWords {
    FailureWords {
        request: "refresh request failed"@,
        refusal: "token refresh failed"@,
        parse: "refresh response parse failed"@,
    }
}

/// The tokens that a refresh comes to: the old refresh token is kept where no new one
/// is given.
pub open spec fn refreshed(posted: Posted, refresh_token: Seq<char>) -> Result<(Seq<char>, Seq<char>), ErrorView> {
    match tokens_of(posted, refresh_words()) {
        Ok((access, refresh)) => Ok(
            (
                access,
                if refresh.len() == 0 {
                    refresh_token
                } else {
                    refresh
                },
            ),
        ),
        Err(e) => Err(e),
    }
}

/// The tokens that a refresh comes to.
pub fn after_refresh(posted: Posted, refresh_token: &str) -> (r: Result<(String, String), AppError>)
    ensures
        tokens_view(r) == refreshed(posted, refresh_token@),
{
    match read_tokens(posted, "refresh request failed", "token refresh failed", "refresh response parse failed") {
        Ok((access, refresh)) => {
            if refresh.as_str().is_empty() {
                Ok((access, refresh_token.to_owned()))
            } else {
                Ok((access, refresh))
            }
        },
        Err(e) => Err(e),
    }
}

// ── The callback ──────────────────────────────────────────────────────────────

/// What a callback comes to: the message to whoever waits for the code, where somebody
/// still does, and the page that is shown.
pub open spec fn callback_outcome(waiting: bool, code: Option<Seq<char>>, error: Option<Seq<char>>) -> (
    Option<Seq<char>>,
    Seq<char>,
) {
    if !waiting {
        (None, "<html><body><p>Already handled.</p></body></html>"@)
    } else {
        match code {
            Some(c) => (
                Some(c),
                "<html><body><h2>Authorization successful!</h2><p>You can close this tab.</p></body></html>"@,
            ),
            None => (
                Some(
                    "__error__"@ + match error {
                        Some(e) => e,
                        None => "unknown error"@,
                    },
                ),
                "<html><body><h2>Authorization failed.</h2><p>You can close this tab.</p></body></html>"@,
            ),
        }
    }
}

/// Handles a callback.
pub fn handle_callback(waiting: bool, code: Option<String>, error: Option<String>) -> (r: (Option<String>, String))
    ensures
        (models::optional_text(r.0), r.1@) == callback_outcome(
            waiting,
            models::optional_text(code),
            models::optional_text(error),
        ),
{
    if !waiting {
        return (None, "<html><body><p>Already handled.</p></body></html>".to_owned());
    }
    match code {
        Some(c) => (
            Some(c),
            "<html><body><h2>Authorization successful!</h2><p>You can close this tab.</p></body></html>".to_owned(),
        ),
        None => {
            let e = match error {
                Some(e) => e,
                None => "unknown error".to_owned(),
            };
            (
                Some(text::cat("__error__", &e)),
                "<html><body><h2>Authorization failed.</h2><p>You can close this tab.</p></body></html>".to_owned(),
            )
        },
    }
}

// ── Laws ──────────────────────────────────────────────────────────────────────

/// A refused authorization ends the flow with the error that was told, and no form is
/// posted.
pub proof fn refusals_end_the_flow(flow: Flow<Seq<char>>, error: Seq<char>)
    ensures
        callback_outcome(true, None, Some(error)).0 == Some("__error__"@ + error),
        next_of_wait(flow, Waited::Code("__error__"@ + error)) == upstream("OAuth error: "@ + error),
{
    let code = "__error__"@ + error;
    let n = "__error__"@.len() as int;
    assert(code.subrange(0, n) =~= "__error__"@);
    assert(code.skip(n) =~= error);
}

/// After a refresh there is always a refresh token, where there was one before.
pub proof fn refresh_keeps_a_refresh_token(posted: Posted, refresh_token: Seq<char>)
    requires
        refresh_token.len() > 0,
    ensures
        refreshed(posted, refresh_token) matches Ok((access, refresh)) ==> refresh.len() > 0,
{
}

/// The verifier in the form belongs to the challenge that the browser carried.
pub proof fn form_proves_the_challenge(
    auth_url: Seq<char>,
    flow: Flow<Seq<char>>,
    scopes: Seq<char>,
    code: Seq<char>,
)
    ensures
        authorization_query(flow.client_id, crypto::challenge_of(flow.verifier), scopes).contains(
            ("code_challenge"@, crypto::challenge_of(flow.verifier)),
        ),
        exchange_form(flow, code).contains(("code_verifier"@, flow.verifier)),
        exchange_form(flow, code).contains(("code"@, code)),
{
    let q = authorization_query(flow.client_id, crypto::challenge_of(flow.verifier), scopes);
    assert(q[3] == ("code_challenge"@, crypto::challenge_of(flow.verifier)));
    let f = exchange_form(flow, code);
    assert(f[5] == ("code_verifier"@, flow.verifier));
    assert(f[1] == ("code"@, code));
}

/// The browser is sent back to port 59876 of this machine.
pub proof fn callbacks_come_to_this_machine()
    ensures
        callback_address() == "http://127.0.0.1:59876/callback"@,
{
    reveal_strlit("http://127.0.0.1:59876/callback");
    reveal_strlit("http://127.0.0.1:");
    reveal_strlit("/callback");
    reveal_with_fuel(text::decimal, 6);
    assert(text::decimal(59876) =~= seq!['5', '9', '8', '7', '6']);
    assert(callback_address() =~= "http://127.0.0.1:59876/callback"@);
}

/// The browser asks for a code, for this client, to be sent to the callback, with the
/// challenge by its method; and for the scopes where there are any.
pub proof fn codes_are_asked_for(client_id: Seq<char>, challenge: Seq<char>, scopes: Seq<char>)
    ensures
        ({
            let q = authorization_query(client_id, challenge, scopes);
            &&& q.len() == (if scopes.len() > 0 { 6int } else { 5 })
            &&& q[0] == ("response_type"@, "code"@)
            &&& q[1] == ("client_id"@, client_id)
            &&& q[2] == ("redirect_uri"@, "http://127.0.0.1:59876/callback"@)
            &&& q[3] == ("code_challenge"@, challenge)
            &&& q[4] == ("code_challenge_method"@, "S256"@)
            &&& scopes.len() > 0 ==> q[5] == ("scope"@, scopes)
        }),
{
    callbacks_come_to_this_machine();
}

/// A code is exchanged at the token address, with the client, its secret and the verifier; a
/// token is refreshed with the client, its secret and the old refresh token.
pub proof fn forms_hold_what_they_need(flow: Flow<Seq<char>>, code: Seq<char>, refresh: Seq<char>)
    requires
        !"__error__"@.is_prefix_of(code),
    ensures
        next_of_wait(flow, Waited::Code(code)) == (OAuthStepView::Post {
            token_url: flow.token_url,
            form: seq![
                ("grant_type"@, "authorization_code"@),
                ("code"@, code),
                ("redirect_uri"@, "http://127.0.0.1:59876/callback"@),
                ("client_id"@, flow.client_id),
                ("client_secret"@, flow.client_secret),
                ("code_verifier"@, flow.verifier),
            ],
        }),
        refresh_form(flow.client_id, flow.client_secret, refresh) == seq![
            ("grant_type"@, "refresh_token"@),
            ("refresh_token"@, refresh),
            ("client_id"@, flow.client_id),
            ("client_secret"@, flow.client_secret),
        ],
        next_of_wait(flow, Waited::TimedOut) is Done,
        next_of_wait(flow, Waited::Closed) is Done,
{
    callbacks_come_to_this_machine();
}

/// Tokens come of an answer with a status from 200 to 299 that holds them, and of no other; a
/// refresh that gives no new refresh token keeps the old one.
pub proof fn tokens_come_of_good_answers(
    status: u16,
    status_text: String,
    text: String,
    t: TokenResponse,
    e: String,
    old_refresh: Seq<char>,
)
    ensures
        ({
            let good = Posted::Answered { status, status_text, text, parsed: Ok(t) };
            let bad = Posted::Answered { status, status_text, text, parsed: Err(e) };
            let ok = 200 <= status <= 299;
            &&& ok ==> tokens_of(good, exchange_words()) == Ok::<(Seq<char>, Seq<char>), ErrorView>(
                (t.access_token@, t.refresh_token@),
            )
            &&& ok ==> refreshed(good, old_refresh) == Ok::<(Seq<char>, Seq<char>), ErrorView>(
                (t.access_token@, if t.refresh_token@.len() > 0 { t.refresh_token@ } else { old_refresh }),
            )
            &&& !ok ==> tokens_of(good, exchange_words()) is Err && refreshed(good, old_refresh) is Err
            &&& tokens_of(bad, exchange_words()) is Err && refreshed(bad, old_refresh) is Err
            &&& tokens_of(Posted::Failed(e), exchange_words()) is Err && refreshed(Posted::Failed(e), old_refresh) is Err
        }),
{
}

/// A callback hands on its code, or its error, to whoever waits; after that it hands on
/// nothing.
pub proof fn callbacks_hand_on_their_code(code: Seq<char>, error: Option<Seq<char>>)
    ensures
        callback_outcome(true, Some(code), error).0 == Some(code),
        callback_outcome(true, None, Some(code)).0 == Some("__error__"@ + code),
        callback_outcome(true, None, None).0 == Some("__error__"@ + "unknown error"@),
        callback_outcome(false, Some(code), error).0 is None,
{
}

} // verus!
