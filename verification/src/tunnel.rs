//! The tunnel that makes the bridge reachable from outside: how the output of
//! `cloudflared` is read, and when it is started again.

use vstd::prelude::*;
use vstd::slice::slice_subrange;

use crate::incoming_auth::{AuthStateView, IncomingAuthState};
use crate::json::{Json, Tree};
use crate::sorting;
use crate::text;
use crate::text::Chars;

verus! {

/// How often the tunnel is started again.
pub const MAX_RETRIES: u32 = 5;

/// After how many seconds the tunnel is started again.
pub const RETRY_DELAY_SECS: u64 = 15;

// ── The address ───────────────────────────────────────────────────────────────

/// `s` up to its first white space.
pub open spec fn first_word(s: Seq<char>) -> Seq<char>
    decreases s.len(),
{
    if s.len() == 0 || text::is_white(s[0]) {
        seq![]
    } else {
        seq![s[0]] + first_word(s.drop_first())
    }
}

/// The address of the tunnel that a line of output tells: the first web address, up to
/// white space and without slashes at its end, where it is one of the tunnel service.
pub open spec fn tunnel_url(line: Seq<char>) -> Option<Seq<char>> {
    match text::find_sub(line, "https://"@) {
        None => None,
        Some(i) => {
            let url = text::trim_back(first_word(line.skip(i)), Chars::In(seq!['/']));
            if text::has_sub(url, "trycloudflare.com"@) {
                Some(url)
            } else {
                None
            }
        },
    }
}

fn count_word(v: &[char]) -> (r: usize)
    ensures
        r <= v@.len(),
        v@.take(r as int) == first_word(v@),
{
    let mut i: usize = 0;
    assert(v@.skip(0) =~= v@);
    assert(v@.take(0) + first_word(v@) =~= first_word(v@));
    while i < v.len()
        invariant
            i <= v@.len(),
            v@.take(i as int) + first_word(v@.skip(i as int)) == first_word(v@),
        decreases v@.len() - i,
    {
        assert(v@.skip(i as int)[0] == v@[i as int]);
        if v[i].is_whitespace() {
            assert(v@.take(i as int) + Seq::<char>::empty() =~= v@.take(i as int));
            return i;
        }
        assert(v@.skip(i as int).drop_first() =~= v@.skip(i + 1));
        assert(v@.take(i as int) + (seq![v@[i as int]] + first_word(v@.skip(i + 1))) =~= v@.take(i + 1) + first_word(
            v@.skip(i + 1),
        ));
        i += 1;
    }
    assert(v@.skip(i as int) =~= Seq::<char>::empty());
    assert(v@.take(i as int) + Seq::<char>::empty() =~= v@.take(i as int));
    i
}

/// The address of the tunnel that a line of output tells.
pub fn extract_tunnel_url(line: &str) -> (r: Option<String>)
    ensures
        match r {
            Some(u) => tunnel_url(line@) == Some(u@),
            None => tunnel_url(line@) is None,
        },
{
    let v = text::chars_of(line);
    match text::find_in(&v, &text::chars_of("https://")) {
        None => None,
        Some(i) => {
            let rest = slice_subrange(&v, i, v.len());
            assert(rest@ =~= line@.skip(i as int));
            let n = count_word(rest);
            let word = text::string_of(slice_subrange(rest, 0, n));
            assert(word@ =~= first_word(rest@));
            let url = text::trim_end_matches(&word, &text::only('/'));
            if text::contains(&url, "trycloudflare.com") {
                Some(url)
            } else {
                None
            }
        },
    }
}

// ── The state ─────────────────────────────────────────────────────────────────

/// Where the tunnel stands.
#[derive(Clone, Copy, Debug, PartialEq, Eq, Structural)]
pub enum TunnelStatus {
    Connecting,
    Active,
    Unavailable,
}

impl TunnelStatus {
    /// The word for where the tunnel stands.
    pub open spec fn spec_word(self) -> Seq<char> {
        match self {
            TunnelStatus::Connecting => "Connecting"@,
            TunnelStatus::Active => "Active"@,
            TunnelStatus::Unavailable => "Unavailable"@,
        }
    }

    /// The word for where the tunnel stands.
    pub fn word(self) -> (r: String)
        ensures
            r@ == self.spec_word(),
    {
        match self {
            TunnelStatus::Connecting => "Connecting".to_owned(),
            TunnelStatus::Active => "Active".to_owned(),
            TunnelStatus::Unavailable => "Unavailable".to_owned(),
        }
    }
}

/// The tunnel: its address, where it has one, and where it stands.
pub struct TunnelManager {
    pub url: Option<String>,
    pub status: TunnelStatus,
}

/// The tunnel, mathematically.
pub struct TunnelView {
    pub url: Option<Seq<char>>,
    pub status: TunnelStatus,
}

impl View for TunnelManager {
    type V = TunnelView;

    open spec fn view(&self) -> TunnelView {
        TunnelView {
            url: match self.url {
                Some(u) => Some(u@),
                None => None,
            },
            status: self.status,
        }
    }
}

/// An address and a status as JSON.
pub open spec fn status_tree(url: Option<Seq<char>>, status: TunnelStatus) -> Tree {
    Tree::Object(
        seq![
            (
                "url"@,
                match url {
                    Some(u) => Tree::Text(u),
                    None => Tree::Null,
                },
            ),
            ("status"@, Tree::Text(status.spec_word())),
        ],
    )
}

fn status_json(url: &Option<String>, status: TunnelStatus) -> (r: Json)
    ensures
        r.tree() == status_tree(
            match *url {
                Some(u) => Some(u@),
                None => None,
            },
            status,
        ),
{
    let u = match url {
        Some(u) => Json::text(u),
        None => Json::Null,
    };
    let r = Json::object2("url", u, "status", Json::text(&status.word()));
    assert(r.tree()->Object_0 =~= status_tree(
        match *url {
            Some(u) => Some(u@),
            None => None,
        },
        status,
    )->Object_0);
    r
}

impl TunnelManager {
    /// No tunnel.
    pub fn new() -> (r: TunnelManager)
        ensures
            r@ == (TunnelView { url: None, status: TunnelStatus::Unavailable }),
    {
        TunnelManager { url: None, status: TunnelStatus::Unavailable }
    }

    /// Where the tunnel stands, for a user.
    pub fn get_status_snapshot(&self) -> (r: Json)
        ensures
            r.tree() == status_tree(self@.url, self@.status),
    {
        status_json(&self.url, self.status)
    }
}

// ── Events ────────────────────────────────────────────────────────────────────

/// What users are told.
pub enum Notice<T> {
    /// The address and the status of the tunnel.
    Tunnel { url: Option<T>, status: TunnelStatus },
    /// Whether requests have to prove who they are.
    Auth { tunnel_forced: bool, local_enabled: bool, effective: bool },
}

impl View for Notice<String> {
    type V = Notice<Seq<char>>;

    open spec fn view(&self) -> Notice<Seq<char>> {
        match self {
            Notice::Tunnel { url, status } => Notice::Tunnel {
                url: match url {
                    Some(u) => Some(u@),
                    None => None,
                },
                status: *status,
            },
            Notice::Auth { tunnel_forced, local_enabled, effective } => Notice::Auth {
                tunnel_forced: *tunnel_forced,
                local_enabled: *local_enabled,
                effective: *effective,
            },
        }
    }
}

/// A notice as JSON.
pub open spec fn notice_tree(n: Notice<Seq<char>>) -> Tree {
    match n {
        Notice::Tunnel { url, status } => status_tree(url, status),
        Notice::Auth { tunnel_forced, local_enabled, effective } => Tree::Object(
            seq![
                ("tunnel_forced"@, Tree::Bool(tunnel_forced)),
                ("local_enabled"@, Tree::Bool(local_enabled)),
                ("effective"@, Tree::Bool(effective)),
            ],
        ),
    }
}

impl Notice<String> {
    /// The notice as JSON.
    pub fn to_json(&self) -> (r: Json)
        ensures
            r.tree() == notice_tree(self@),
    {
        match self {
            Notice::Tunnel { url, status } => status_json(url, *status),
            Notice::Auth { tunnel_forced, local_enabled, effective } => Json::object3(
                "tunnel_forced",
                Json::Bool(*tunnel_forced),
                "local_enabled",
                Json::Bool(*local_enabled),
                "effective",
                Json::Bool(*effective),
            ),
        }
    }
}

/// What happens to the process of the tunnel.
pub enum Event<T> {
    /// It could not be started.
    SpawnFailed,
    Started,
    /// It has written a line.
    Line(T),
    /// It has ended.
    Terminated,
    /// Its output was closed without word of its end.
    Closed,
}

/// What to do next.
#[derive(Clone, Copy, Debug, PartialEq, Eq, Structural)]
pub enum Next {
    /// Go on reading.
    Read,
    /// Start the tunnel again after a while, with so many attempts left after that.
    Retry { retries_left: u32 },
    Stop,
}

/// The tunnel and the state of authentication.
pub struct Both {
    pub tunnel: TunnelView,
    pub auth: AuthStateView,
}

/// Both after the tunnel has gone.
pub open spec fn gone(b: Both) -> Both {
    Both {
        tunnel: TunnelView { url: None, status: TunnelStatus::Unavailable },
        auth: AuthStateView { tunnel_active: false, ..b.auth },
    }
}

/// What users are told when the tunnel has gone.
pub open spec fn gone_notices(auth: AuthStateView, will_retry: bool) -> Seq<Notice<Seq<char>>> {
    seq![
        Notice::Tunnel {
            url: None,
            status: if will_retry {
                TunnelStatus::Connecting
            } else {
                TunnelStatus::Unavailable
            },
        },
        Notice::Auth { tunnel_forced: false, local_enabled: auth.local_enabled, effective: auth.local_enabled },
    ]
}

/// What to do when the tunnel has gone.
pub open spec fn next_attempt(retries_left: u32) -> Next {
    if retries_left > 0 {
        Next::Retry { retries_left: (retries_left - 1) as u32 }
    } else {
        Next::Stop
    }
}

/// Both after an event.
pub open spec fn after_event(b: Both, e: Event<Seq<char>>) -> Both {
    match e {
        Event::SpawnFailed => gone(b),
        Event::Terminated => gone(b),
        Event::Started => Both {
            tunnel: TunnelView { url: None, status: TunnelStatus::Connecting },
            ..b
        },
        Event::Line(s) => match tunnel_url(s) {
            Some(u) => Both {
                tunnel: TunnelView { url: Some(u), status: TunnelStatus::Active },
                auth: AuthStateView { tunnel_active: true, ..b.auth },
            },
            None => b,
        },
        Event::Closed => b,
    }
}

/// What users are told of an event.
pub open spec fn notices_of(auth: AuthStateView, retries_left: u32, e: Event<Seq<char>>) -> Seq<Notice<Seq<char>>> {
    match e {
        Event::SpawnFailed => gone_notices(auth, retries_left > 0),
        Event::Terminated => gone_notices(auth, retries_left > 0),
        Event::Line(s) => match tunnel_url(s) {
            Some(u) => seq![
                Notice::Tunnel { url: Some(u), status: TunnelStatus::Active },
                Notice::Auth { tunnel_forced: true, local_enabled: auth.local_enabled, effective: true },
            ],
            None => seq![],
        },
        _ => seq![],
    }
}

/// What to do after an event.
pub open spec fn next_of(retries_left: u32, e: Event<Seq<char>>) -> Next {
    match e {
        Event::SpawnFailed => next_attempt(retries_left),
        Event::Terminated => next_attempt(retries_left),
        Event::Started => Next::Read,
        Event::Line(_) => Next::Read,
        Event::Closed => Next::Stop,
    }
}

/// What an event is, mathematically.
pub open spec fn event_view(e: Event<String>) -> Event<Seq<char>> {
    match e {
        Event::SpawnFailed => Event::SpawnFailed,
        Event::Started => Event::Started,
        Event::Line(s) => Event::Line(s@),
        Event::Terminated => Event::Terminated,
        Event::Closed => Event::Closed,
    }
}

fn emit_unavailable(m: &mut TunnelManager, auth: &mut IncomingAuthState, will_retry: bool) -> (r: Vec<Notice<String>>)
    ensures
        (Both { tunnel: final(m)@, auth: final(auth)@ }) == gone((Both { tunnel: old(m)@, auth: old(auth)@ })),
        sorting::views(r@) == gone_notices(old(auth)@, will_retry),
{
    auth.set_tunnel_active(false);
    let local_enabled = auth.local_enabled();
    m.status = TunnelStatus::Unavailable;
    m.url = None;
    let status = if will_retry {
        TunnelStatus::Connecting
    } else {
        TunnelStatus::Unavailable
    };
    let r: Vec<Notice<String>> = vec![
        Notice::Tunnel { url: None, status },
        Notice::Auth { tunnel_forced: false, local_enabled, effective: local_enabled },
    ];
    assert(sorting::views(r@) =~= gone_notices(old(auth)@, will_retry));
    r
}

/// Starts the tunnel: users are told that it is connecting.
pub fn tunnel_start(m: &mut TunnelManager) -> (r: Notice<String>)
    ensures
        final(m)@ == (TunnelView { url: None, status: TunnelStatus::Connecting }),
        r@ == (Notice::<Seq<char>>::Tunnel { url: None, status: TunnelStatus::Connecting }),
{
    m.status = TunnelStatus::Connecting;
    m.url = None;
    Notice::Tunnel { url: None, status: TunnelStatus::Connecting }
}

/// The arguments of `cloudflared` for a port.
pub open spec fn arguments_for(port: u16) -> Seq<Seq<char>> {
    seq!["tunnel"@, "--no-autoupdate"@, "--url"@, "http://127.0.0.1:"@ + text::decimal(port as nat)]
}

/// The arguments of `cloudflared` for a port.
pub fn tunnel_args(port: u16) -> (r: Vec<String>)
    ensures
        text::texts(r@) == arguments_for(port),
{
    let r = vec![
        "tunnel".to_owned(),
        "--no-autoupdate".to_owned(),
        "--url".to_owned(),
        text::cat("http://127.0.0.1:", &text::to_decimal(port as u64)),
    ];
    assert(text::texts(r@) =~= seq![
        "tunnel"@,
        "--no-autoupdate"@,
        "--url"@,
        "http://127.0.0.1:"@ + text::decimal(port as nat),
    ]);
    r
}

/// Takes note of an event: what users are told of it, and what to do next.
pub fn on_event(m: &mut TunnelManager, auth: &mut IncomingAuthState, retries_left: u32, e: Event<String>) -> (r: (
    Vec<Notice<String>>,
    Next,
))
    ensures
        (Both { tunnel: final(m)@, auth: final(auth)@ }) == after_event(
            (Both { tunnel: old(m)@, auth: old(auth)@ }),
            event_view(e),
        ),
        sorting::views(r.0@) == notices_of(old(auth)@, retries_left, event_view(e)),
        r.1 == next_of(retries_left, event_view(e)),
{
    let next = if retries_left > 0 {
        Next::Retry { retries_left: retries_left - 1 }
    } else {
        Next::Stop
    };
    let none: Vec<Notice<String>> = Vec::new();
    assert(sorting::views(none@) =~= Seq::<Notice<Seq<char>>>::empty());
    match e {
        Event::SpawnFailed => (emit_unavailable(m, auth, retries_left > 0), next),
        Event::Terminated => (emit_unavailable(m, auth, retries_left > 0), next),
        Event::Started => {
            m.status = TunnelStatus::Connecting;
            m.url = None;
            (none, Next::Read)
        },
        Event::Line(s) => match extract_tunnel_url(&s) {
            Some(url) => {
                m.url = Some(url.clone());
                m.status = TunnelStatus::Active;
                auth.set_tunnel_active(true);
                let local_enabled = auth.local_enabled();
                let notices: Vec<Notice<String>> = vec![
                    Notice::Tunnel { url: Some(url), status: TunnelStatus::Active },
                    Notice::Auth { tunnel_forced: true, local_enabled, effective: true },
                ];
                assert(sorting::views(notices@) =~= notices_of(old(auth)@, retries_left, event_view(e)));
                (notices, Next::Read)
            },
            None => (none, Next::Read),
        },
        Event::Closed => (none, Next::Stop),
    }
}

// ── Laws ──────────────────────────────────────────────────────────────────────

/// While the tunnel is active, requests have to prove who they are: every event keeps
/// this.
pub proof fn active_tunnels_force_authentication(b: Both, e: Event<Seq<char>>)
    requires
        b.tunnel.status == TunnelStatus::Active ==> b.auth.tunnel_active,
    ensures
        after_event(b, e).tunnel.status == TunnelStatus::Active ==> after_event(b, e).auth.tunnel_active && after_event(
            b,
            e,
        ).auth.authenticates(),
{
}

/// The tunnel has an address if and only if it is active: every event keeps this.
pub proof fn active_tunnels_have_addresses(b: Both, e: Event<Seq<char>>)
    requires
        b.tunnel.status == TunnelStatus::Active <==> b.tunnel.url is Some,
    ensures
        after_event(b, e).tunnel.status == TunnelStatus::Active <==> after_event(b, e).tunnel.url is Some,
{
}

/// What happens to the tunnel changes no token, no code and no preference of the user.
pub proof fn tunnels_leave_credentials_alone(b: Both, e: Event<Seq<char>>)
    ensures
        after_event(b, e).auth == (AuthStateView { tunnel_active: after_event(b, e).auth.tunnel_active, ..b.auth }),
{
}

/// Each time the tunnel is started again, one attempt less is left; without any left it
/// is not.
pub proof fn retries_run_out(retries_left: u32, e: Event<Seq<char>>)
    ensures
        next_of(retries_left, e) matches Next::Retry { retries_left: n } ==> n < retries_left,
        retries_left == 0 ==> !(next_of(retries_left, e) is Retry),
{
}

/// Up to white space, a text is one word.
proof fn words_end_at_white_space(w: Seq<char>, rest: Seq<char>)
    requires
        forall|i: int| 0 <= i < w.len() ==> !text::is_white(#[trigger] w[i]),
        rest.len() > 0 ==> text::is_white(rest[0]),
    ensures
        first_word(w + rest) == w,
    decreases w.len(),
{
    if w.len() == 0 {
        assert(w + rest =~= rest);
        assert(first_word(rest) =~= w);
    } else {
        assert((w + rest)[0] == w[0]);
        assert((w + rest).drop_first() =~= w.drop_first() + rest);
        assert forall|i: int| 0 <= i < w.drop_first().len() implies !text::is_white(#[trigger] w.drop_first()[i]) by {
            assert(w.drop_first()[i] == w[i + 1]);
        }
        words_end_at_white_space(w.drop_first(), rest);
        assert(seq![w[0]] + w.drop_first() =~= w);
    }
}

/// The address of the tunnel is the first web address of a line, up to white space and without
/// the slashes at its end, where it is one of the service; a line without one tells none.
pub proof fn lines_tell_the_address(line: Seq<char>, a: Seq<char>, url: Seq<char>, sl: Seq<char>, rest: Seq<char>)
    requires
        line == a + (url + sl + rest),
        "https://"@.is_prefix_of(url),
        forall|i: int| 0 <= i < a.len() ==> #[trigger] line.subrange(i, i + "https://"@.len()) != "https://"@,
        forall|i: int| 0 <= i < sl.len() ==> #[trigger] sl[i] == '/',
        forall|i: int| 0 <= i < url.len() ==> !text::is_white(#[trigger] url[i]),
        url.last() != '/',
        rest.len() > 0 ==> text::is_white(rest[0]),
    ensures
        tunnel_url(line) == (if text::has_sub(url, "trycloudflare.com"@) {
            Some(url)
        } else {
            None
        }),
{
    let p = "https://"@;
    reveal_strlit("https://");
    text::first_occurrence_is_found(line, p);
    let n = a.len() as int;
    assert(line.subrange(n, n + p.len()) =~= url.subrange(0, p.len() as int));
    if let Some(i) = text::find_sub(line, p) {
        if i < n {
            assert(line.subrange(i, i + p.len()) == p);
        }
        if i > n {
            assert(line.subrange(n, n + p.len()) != p);
        }
    }
    assert(text::find_sub(line, p) == Some(n));
    assert(line.skip(n) =~= (url + sl) + rest);
    let w = url + sl;
    assert forall|i: int| 0 <= i < w.len() implies !text::is_white(#[trigger] w[i]) by {
        if i < url.len() {
            assert(w[i] == url[i]);
        } else {
            assert(w[i] == '/');
        }
    }
    words_end_at_white_space(w, rest);
    let k = Chars::In(seq!['/']);
    assert(seq!['/'][0] == '/');
    assert forall|i: int| 0 <= i < sl.len() implies k.has(#[trigger] sl[i]) by {}
    if seq!['/'].contains(url.last()) {
        let i = choose|i: int| 0 <= i < 1 && seq!['/'][i] == url.last();
    }
    text::back_is_trimmed(url, sl, k);
}

/// A line in which no web address starts tells none.
pub proof fn other_lines_tell_no_address(line: Seq<char>)
    requires
        forall|i: int|
            0 <= i && i + "https://"@.len() <= line.len() ==> #[trigger] line.subrange(i, i + "https://"@.len())
                != "https://"@,
    ensures
        tunnel_url(line) is None,
{
    text::first_occurrence_is_found(line, "https://"@);
}

/// The tunnel is active from the line that tells its address on, until it ends; then
/// authentication is left to the user again, and it is started anew as long as there are
/// attempts left. Users are told of each change.
pub proof fn events_change_the_tunnel(b: Both, s: Seq<char>, u: Seq<char>, n: u32)
    requires
        tunnel_url(s) == Some(u),
    ensures
        after_event(b, Event::Line(s)).tunnel == (TunnelView { url: Some(u), status: TunnelStatus::Active }),
        after_event(b, Event::Line(s)).auth.tunnel_active,
        after_event(b, Event::Started).tunnel == (TunnelView { url: None, status: TunnelStatus::Connecting }),
        after_event(b, Event::Started).auth == b.auth,
        after_event(b, Event::Closed) == b,
        after_event(b, Event::Terminated).tunnel == (TunnelView { url: None, status: TunnelStatus::Unavailable }),
        !after_event(b, Event::Terminated).auth.tunnel_active,
        after_event(b, Event::SpawnFailed) == after_event(b, Event::Terminated),
        next_of(n, Event::Line(s)) == Next::Read && next_of(n, Event::Started) == Next::Read,
        next_of(n, Event::Closed) == Next::Stop,
        n > 0 ==> next_of(n, Event::Terminated) == (Next::Retry { retries_left: (n - 1) as u32 }) && next_of(
            n,
            Event::SpawnFailed,
        ) == (Next::Retry { retries_left: (n - 1) as u32 }),
        next_of(0, Event::Terminated) == Next::Stop && next_of(0, Event::SpawnFailed) == Next::Stop,
        notices_of(b.auth, n, Event::Line(s)) == seq![
            Notice::Tunnel { url: Some(u), status: TunnelStatus::Active },
            Notice::Auth { tunnel_forced: true, local_enabled: b.auth.local_enabled, effective: true },
        ],
        notices_of(b.auth, n, Event::Terminated) == seq![
            Notice::Tunnel {
                url: None::<Seq<char>>,
                status: if n > 0 { TunnelStatus::Connecting } else { TunnelStatus::Unavailable },
            },
            Notice::Auth {
                tunnel_forced: false,
                local_enabled: b.auth.local_enabled,
                effective: b.auth.local_enabled,
            },
        ],
        MAX_RETRIES == 5 && RETRY_DELAY_SECS == 15,
{
}

/// The tunnel leads to the port of the bridge on this machine.
pub proof fn tunnels_lead_to_the_bridge(port: u16)
    ensures
        arguments_for(port).len() == 4,
        arguments_for(port)[2] == "--url"@,
        arguments_for(port)[3] == "http://127.0.0.1:"@ + text::decimal(port as nat),
        text::number_of_digits(text::decimal(port as nat)) == port,
{
    text::decimals_stand_for_their_number(port as nat);
}

} // verus!
