//! JSON-RPC: what a client asks, and how it is answered.

use vstd::prelude::*;

use crate::error::AppError;
use crate::error::ErrorView;
use crate::json;
use crate::json::{Json, Tree};
use crate::sorting;
use crate::text;

verus! {

/// The size up to which the body of a request is read: 1 MB.
pub const MAX_BODY_SIZE: usize = 1024 * 1024;

/// After how many seconds a request times out.
pub const REQUEST_SECONDS: u64 = 30;

pub const PARSE_ERROR: i32 = -32700;

pub const METHOD_NOT_FOUND: i32 = -32601;

pub const INTERNAL_ERROR: i32 = -32603;

// ── Requests ──────────────────────────────────────────────────────────────────

/// A request. One without an id is a notification, which is not answered.
pub struct RpcRequest {
    pub jsonrpc: String,
    pub id: Option<Json>,
    pub method: String,
    pub params: Option<Json>,
}

/// What a request is, mathematically.
pub struct RequestView {
    pub jsonrpc: Seq<char>,
    pub id: Option<Tree>,
    pub method: Seq<char>,
    pub params: Option<Tree>,
}

/// What an optional value is.
pub open spec fn optional_tree(j: Option<Json>) -> Option<Tree> {
    match j {
        Some(v) => Some(v.tree()),
        None => None,
    }
}

impl View for RpcRequest {
    type V = RequestView;

    open spec fn view(&self) -> RequestView {
        RequestView {
            jsonrpc: self.jsonrpc@,
            id: optional_tree(self.id),
            method: self.method@,
            params: optional_tree(self.params),
        }
    }
}

/// A value that may be left out; `null` stands for one that is.
pub open spec fn unless_null(t: Tree) -> Option<Tree> {
    match t {
        Tree::Null => None,
        _ => Some(t),
    }
}

/// The request of these parts.
pub open spec fn request_of_parts(jsonrpc: Tree, id: Tree, method: Tree, params: Tree) -> Option<RequestView> {
    match (jsonrpc, method) {
        (Tree::Text(j), Tree::Text(m)) => Some(
            RequestView { jsonrpc: j, id: unless_null(id), method: m, params: unless_null(params) },
        ),
        _ => None,
    }
}

/// The request that a JSON value is: an object with its members, or an array with
/// the four in order.
pub open spec fn request_of(t: Tree) -> Option<RequestView> {
    match t {
        Tree::Object(_) => request_of_parts(
            t.field("jsonrpc"@),
            t.field("id"@),
            t.field("method"@),
            t.field("params"@),
        ),
        Tree::Array(a) => if a.len() == 4 {
            request_of_parts(a[0], a[1], a[2], a[3])
        } else {
            None
        },
        _ => None,
    }
}

fn unless_null_json(j: Json) -> (r: Option<Json>)
    ensures
        optional_tree(r) == unless_null(j.tree()),
{
    match j {
        Json::Null => None,
        _ => Some(j),
    }
}

fn build_request(jsonrpc: Json, id: Json, method: Json, params: Json) -> (r: Option<RpcRequest>)
    ensures
        match r {
            Some(q) => request_of_parts(jsonrpc.tree(), id.tree(), method.tree(), params.tree()) == Some(q@),
            None => request_of_parts(jsonrpc.tree(), id.tree(), method.tree(), params.tree()) is None,
        },
{
    match (jsonrpc, method) {
        (Json::Text(j), Json::Text(m)) => Some(
            RpcRequest { jsonrpc: j, id: unless_null_json(id), method: m, params: unless_null_json(params) },
        ),
        _ => None,
    }
}

/// Reads a request.
pub fn read_request(j: &Json) -> (r: Option<RpcRequest>)
    ensures
        match r {
            Some(q) => request_of(j.tree()) == Some(q@),
            None => request_of(j.tree()) is None,
        },
{
    proof {
        json::tree_of_parts(*j);
    }
    match j {
        Json::Object(_) => build_request(j.field("jsonrpc"), j.field("id"), j.field("method"), j.field("params")),
        Json::Array(a) => if a.len() == 4 {
            build_request(a[0].copy(), a[1].copy(), a[2].copy(), a[3].copy())
        } else {
            None
        },
        _ => None,
    }
}

// ── Responses ─────────────────────────────────────────────────────────────────

/// An error, by its code and its message.
pub struct RpcError {
    pub code: i32,
    pub message: String,
}

/// The answer to a request.
pub struct RpcResponse {
    pub id: Option<Json>,
    pub result: Option<Json>,
    pub error: Option<RpcError>,
}

/// What an answer is, mathematically.
pub struct ResponseView {
    pub id: Option<Tree>,
    pub result: Option<Tree>,
    pub error: Option<(i32, Seq<char>)>,
}

impl View for RpcResponse {
    type V = ResponseView;

    open spec fn view(&self) -> ResponseView {
        ResponseView {
            id: optional_tree(self.id),
            result: optional_tree(self.result),
            error: match self.error {
                Some(e) => Some((e.code, e.message@)),
                None => None,
            },
        }
    }
}

/// An error as JSON.
pub open spec fn error_tree(code: i32, message: Seq<char>) -> Tree {
    Tree::Object(
        seq![("code"@, Tree::Number(json::number_of_int(code as i64))), ("message"@, Tree::Text(message))],
    )
}

impl ResponseView {
    /// The answer as JSON; what is missing is left out.
    pub open spec fn tree(self) -> Tree {
        let id = match self.id {
            Some(t) => seq![("id"@, t)],
            None => seq![],
        };
        let result = match self.result {
            Some(t) => seq![("result"@, t)],
            None => seq![],
        };
        let error = match self.error {
            Some((code, message)) => seq![("error"@, error_tree(code, message))],
            None => seq![],
        };
        Tree::Object(seq![("jsonrpc"@, Tree::Text("2.0"@))] + id + result + error)
    }
}

/// An error as JSON.
pub fn error_json(code: i32, message: &str) -> (r: Json)
    ensures
        r.tree() == error_tree(code, message@),
{
    Json::object2("code", Json::integer(code as i64), "message", Json::text(message))
}

impl RpcResponse {
    /// The answer as JSON.
    pub fn to_json(self) -> (r: Json)
        ensures
            r.tree() == self@.tree(),
    {
        let mut m: Vec<(String, Json)> = Vec::new();
        m.push(("jsonrpc".to_owned(), Json::text("2.0")));
        if let Some(id) = self.id {
            m.push(("id".to_owned(), id));
        }
        if let Some(result) = self.result {
            m.push(("result".to_owned(), result));
        }
        if let Some(e) = self.error {
            m.push(("error".to_owned(), error_json(e.code, &e.message)));
        }
        assert(json::members(m@) =~= self@.tree()->Object_0);
        Json::object(m)
    }
}

/// The answer with a result.
pub open spec fn ok_view(id: Option<Tree>, result: Tree) -> ResponseView {
    ResponseView { id, result: Some(result), error: None }
}

/// The answer with an error.
pub open spec fn err_view(id: Option<Tree>, code: i32, message: Seq<char>) -> ResponseView {
    ResponseView { id, result: None, error: Some((code, message)) }
}

/// The answer with a result.
pub fn rpc_ok(id: Option<Json>, result: Json) -> (r: RpcResponse)
    ensures
        r@ == ok_view(optional_tree(id), result.tree()),
{
    RpcResponse { id, result: Some(result), error: None }
}

/// The answer with an error.
pub fn rpc_err(id: Option<Json>, code: i32, message: &str) -> (r: RpcResponse)
    ensures
        r@ == err_view(optional_tree(id), code, message@),
{
    RpcResponse { id, result: None, error: Some(RpcError { code, message: message.to_owned() }) }
}

// ── The body of a request ─────────────────────────────────────────────────────

/// What to do with the body of a request.
pub enum Plan<J, Q> {
    /// Refuse it.
    Forbidden,
    /// Take note of it without an answer.
    Accepted,
    /// Answer it so.
    Reply(J),
    /// Dispatch a request, and answer with its response.
    Single(Q),
    /// Dispatch requests, and answer with their responses in one array.
    Batch(Vec<Q>),
}

/// What to do with the body of a request, mathematically.
pub enum PlanView {
    Forbidden,
    Accepted,
    Reply(Tree),
    Single(RequestView),
    Batch(Seq<RequestView>),
}

impl View for Plan<Json, RpcRequest> {
    type V = PlanView;

    open spec fn view(&self) -> PlanView {
        match self {
            Plan::Forbidden => PlanView::Forbidden,
            Plan::Accepted => PlanView::Accepted,
            Plan::Reply(j) => PlanView::Reply(j.tree()),
            Plan::Single(q) => PlanView::Single(q@),
            Plan::Batch(v) => PlanView::Batch(sorting::views(v@)),
        }
    }
}

/// The answer to what is no request.
pub open spec fn parse_failure() -> PlanView {
    PlanView::Reply(err_view(None, PARSE_ERROR, "Parse error"@).tree())
}

/// The requests with an id among the values of a batch.
pub open spec fn answered_requests(items: Seq<Tree>) -> Seq<RequestView>
    decreases items.len(),
{
    if items.len() == 0 {
        seq![]
    } else {
        let before = answered_requests(items.drop_last());
        match request_of(items.last()) {
            Some(q) => if q.id is Some {
                before.push(q)
            } else {
                before
            },
            None => before,
        }
    }
}

/// What to do with a body, by the JSON value that it is.
pub open spec fn plan_of(body: Option<Tree>) -> PlanView {
    match body {
        None => parse_failure(),
        Some(Tree::Array(items)) => PlanView::Batch(answered_requests(items)),
        Some(t) => match request_of(t) {
            None => parse_failure(),
            Some(q) => if q.id is None {
                PlanView::Accepted
            } else {
                PlanView::Single(q)
            },
        },
    }
}

fn fail_parse() -> (r: Plan<Json, RpcRequest>)
    ensures
        r@ == parse_failure(),
{
    Plan::Reply(rpc_err(None, PARSE_ERROR, "Parse error").to_json())
}

/// What to do with a body, by the JSON value that it is.
pub fn plan_body(body: Option<Json>) -> (r: Plan<Json, RpcRequest>)
    ensures
        r@ == plan_of(optional_tree(body)),
{
    let body = match body {
        None => {
            return fail_parse();
        },
        Some(b) => b,
    };
    proof {
        json::tree_of_parts(body);
    }
    if let Json::Array(items) = &body {
        let ghost all = json::trees(items@);
        let mut out: Vec<RpcRequest> = Vec::new();
        let mut i: usize = 0;
        assert(all.take(0) =~= Seq::<Tree>::empty());
        assert(sorting::views(out@) =~= Seq::<RequestView>::empty());
        while i < items.len()
            invariant
                i <= items@.len(),
                all == json::trees(items@),
                sorting::views(out@) =~= answered_requests(all.take(i as int)),
            decreases items@.len() - i,
        {
            assert(all.take(i + 1).drop_last() =~= all.take(i as int));
            assert(all.take(i + 1).last() == items@[i as int].tree());
            if let Some(q) = read_request(&items[i]) {
                if q.id.is_some() {
                    let ghost before = out@;
                    out.push(q);
                    assert(sorting::views(out@) =~= sorting::views(before).push(q@));
                }
            }
            i += 1;
        }
        assert(all.take(all.len() as int) =~= all);
        return Plan::Batch(out);
    }
    match read_request(&body) {
        None => fail_parse(),
        Some(q) => if q.id.is_none() {
            Plan::Accepted
        } else {
            Plan::Single(q)
        },
    }
}

/// What to do with a request, by whether its origin is accepted and by its body.
pub open spec fn received(origin_accepted: bool, body: Seq<u8>) -> PlanView {
    if origin_accepted {
        plan_of(json::json_parsed(body))
    } else {
        PlanView::Forbidden
    }
}

/// What to do with a request, by whether its origin is accepted and by its body.
pub fn handle_rpc(origin_accepted: bool, body: &[u8]) -> (r: Plan<Json, RpcRequest>)
    ensures
        r@ == received(origin_accepted, body@),
{
    if !origin_accepted {
        return Plan::Forbidden;
    }
    plan_body(json::parse(body))
}

// ── Calls of tools ────────────────────────────────────────────────────────────

/// The answer of a tool as JSON.
pub open spec fn call_result(r: Result<Seq<char>, ErrorView>) -> Tree {
    let (s, is_error) = match r {
        Ok(s) => (s, false),
        Err(e) => (e.message(), true),
    };
    let content = Tree::Object(seq![("type"@, Tree::Text("text"@)), ("text"@, Tree::Text(s))]);
    Tree::Object(seq![("content"@, Tree::Array(seq![content])), ("isError"@, Tree::Bool(is_error))])
}

/// The response to a call of a tool: an error of the tool is told as its answer.
pub fn finish_call(id: Option<Json>, r: &Result<String, AppError>) -> (a: RpcResponse)
    ensures
        a@ == ok_view(
            optional_tree(id),
            call_result(
                match *r {
                    Ok(s) => Ok(s@),
                    Err(e) => Err(e@),
                },
            ),
        ),
{
    let (s, is_error) = match r {
        Ok(s) => (s.clone(), false),
        Err(e) => (e.message(), true),
    };
    let mut content: Vec<Json> = Vec::new();
    content.push(Json::object2("type", Json::text("text"), "text", Json::text(&s)));
    assert(json::trees(content@) =~= seq![
        Tree::Object(seq![("type"@, Tree::Text("text"@)), ("text"@, Tree::Text(s@))]),
    ]);
    rpc_ok(id, Json::object2("content", Json::array(content), "isError", Json::Bool(is_error)))
}

/// The responses to a batch as one value.
pub fn join_responses(responses: Vec<RpcResponse>) -> (r: Json)
    ensures
        r.tree() == Tree::Array(sorting::views(responses@).map_values(|a: ResponseView| a.tree())),
{
    let ghost given = responses@;
    let mut out: Vec<Json> = Vec::new();
    for a in it: responses
        invariant
            it.seq() == given,
            out@.len() == it.index(),
            forall|k: int| 0 <= k < out@.len() ==> (#[trigger] out@[k]).tree() == given[k]@.tree(),
    {
        out.push(a.to_json());
    }
    assert(json::trees(out@) =~= sorting::views(given).map_values(|a: ResponseView| a.tree()));
    Json::array(out)
}

// ── Laws ──────────────────────────────────────────────────────────────────────

/// A notification is never dispatched: every request that is has an id.
pub proof fn notifications_are_not_dispatched(body: Option<Tree>)
    ensures
        plan_of(body) matches PlanView::Single(q) ==> q.id is Some,
        plan_of(body) matches PlanView::Batch(qs) ==> forall|i: int|
            0 <= i < qs.len() ==> (#[trigger] qs[i]).id is Some,
{
    if let Some(Tree::Array(items)) = body {
        batch_has_ids(items);
    }
}

proof fn batch_has_ids(items: Seq<Tree>)
    ensures
        forall|i: int| 0 <= i < answered_requests(items).len() ==> (#[trigger] answered_requests(items)[i]).id is Some,
    decreases items.len(),
{
    if items.len() > 0 {
        batch_has_ids(items.drop_last());
        let before = answered_requests(items.drop_last());
        assert forall|i: int| 0 <= i < answered_requests(items).len() implies (#[trigger] answered_requests(items)[i]).id is Some by {
            if i < before.len() {
                assert(answered_requests(items)[i] == before[i]);
            }
        }
    }
}

/// A request is an object whose version and method are texts; an id or parameters that are
/// missing, or null, count as none. An object without one of the two texts is no request, nor
/// is a text, a number or the like.
pub proof fn requests_are_objects(m: Seq<(Seq<char>, Tree)>, t: Tree)
    ensures
        ({
            let o = Tree::Object(m);
            match (o.field("jsonrpc"@), o.field("method"@)) {
                (Tree::Text(v), Tree::Text(n)) => request_of(o) matches Some(q) && {
                    &&& q.jsonrpc == v && q.method == n
                    &&& q.id == (if o.field("id"@) is Null { None } else { Some(o.field("id"@)) })
                    &&& q.params == (if o.field("params"@) is Null { None } else { Some(o.field("params"@)) })
                },
                _ => request_of(o) is None,
            }
        }),
        !(t is Object) && !(t is Array) ==> request_of(t) is None,
{
}

/// An answer tells its version, the id of its request where that has one, and either its
/// result or its error, with code and message.
pub proof fn answers_tell_result_or_error(id: Tree, result: Tree, code: i32, message: Seq<char>)
    ensures
        ok_view(Some(id), result).tree() == Tree::Object(
            seq![("jsonrpc"@, Tree::Text(seq!['2', '.', '0'])), ("id"@, id), ("result"@, result)],
        ),
        err_view(Some(id), code, message).tree() == Tree::Object(
            seq![
                ("jsonrpc"@, Tree::Text(seq!['2', '.', '0'])),
                ("id"@, id),
                (
                    "error"@,
                    Tree::Object(
                        seq![
                            ("code"@, Tree::Number(json::number_of_int(code as i64))),
                            ("message"@, Tree::Text(message)),
                        ],
                    ),
                ),
            ],
        ),
        err_view(None, code, message).tree() == Tree::Object(
            seq![
                ("jsonrpc"@, Tree::Text(seq!['2', '.', '0'])),
                (
                    "error"@,
                    Tree::Object(
                        seq![
                            ("code"@, Tree::Number(json::number_of_int(code as i64))),
                            ("message"@, Tree::Text(message)),
                        ],
                    ),
                ),
            ],
        ),
{
    reveal_strlit("2.0");
    assert("2.0"@ =~= seq!['2', '.', '0']);
    let v = ("jsonrpc"@, Tree::Text("2.0"@));
    assert(ok_view(Some(id), result).tree()->Object_0 =~= seq![v, ("id"@, id), ("result"@, result)]);
    assert(err_view(Some(id), code, message).tree()->Object_0 =~= seq![
        v,
        ("id"@, id),
        ("error"@, error_tree(code, message)),
    ]);
    assert(err_view(None, code, message).tree()->Object_0 =~= seq![v, ("error"@, error_tree(code, message))]);
}

/// A request with an id is dispatched, one without is taken note of, and what is no request
/// is answered with the error -32700.
pub proof fn requests_are_dispatched(t: Tree, q: RequestView)
    requires
        !(t is Array),
    ensures
        request_of(t) == Some(q) && q.id is Some ==> plan_of(Some(t)) == PlanView::Single(q),
        request_of(t) == Some(q) && q.id is None ==> plan_of(Some(t)) is Accepted,
        request_of(t) is None ==> plan_of(Some(t)) == PlanView::Reply(err_view(None, (-32700) as i32, "Parse error"@).tree()),
        plan_of(None) == PlanView::Reply(err_view(None, (-32700) as i32, "Parse error"@).tree()),
{
}

/// Of a batch, each request with an id is dispatched, in turn; everything else is passed
/// over.
pub proof fn batches_are_dispatched_in_turn(first: Tree, rest: Seq<Tree>)
    ensures
        plan_of(Some(Tree::Array(rest))) == PlanView::Batch(answered_requests(rest)),
        answered_requests(Seq::<Tree>::empty()) == Seq::<RequestView>::empty(),
        answered_requests(seq![first] + rest) == (match request_of(first) {
            Some(q) => if q.id is Some {
                seq![q]
            } else {
                Seq::<RequestView>::empty()
            },
            None => Seq::<RequestView>::empty(),
        }) + answered_requests(rest),
    decreases rest.len(),
{
    let all = seq![first] + rest;
    let head = match request_of(first) {
        Some(q) => if q.id is Some {
            seq![q]
        } else {
            Seq::<RequestView>::empty()
        },
        None => Seq::<RequestView>::empty(),
    };
    reveal_with_fuel(answered_requests, 2);
    if rest.len() == 0 {
        assert(all.drop_last() =~= Seq::<Tree>::empty());
        assert(all.last() == first);
        assert(answered_requests(all) =~= head + answered_requests(rest));
    } else {
        batches_are_dispatched_in_turn(first, rest.drop_last());
        assert(all.last() == rest.last());
        assert(all.drop_last() =~= seq![first] + rest.drop_last());
        assert(answered_requests(all) =~= head + answered_requests(rest));
    }
}

/// The answer of a tool is told as a text, and an error as its message, marked as one.
pub proof fn calls_are_answered_with_text(s: Seq<char>, e: ErrorView)
    ensures
        call_result(Ok(s)) == Tree::Object(
            seq![
                (
                    "content"@,
                    Tree::Array(seq![Tree::Object(seq![("type"@, Tree::Text("text"@)), ("text"@, Tree::Text(s))])]),
                ),
                ("isError"@, Tree::Bool(false)),
            ],
        ),
        call_result(Err(e)) == Tree::Object(
            seq![
                (
                    "content"@,
                    Tree::Array(
                        seq![Tree::Object(seq![("type"@, Tree::Text("text"@)), ("text"@, Tree::Text(e.message()))])],
                    ),
                ),
                ("isError"@, Tree::Bool(true)),
            ],
        ),
{
}

/// A request is forbidden where its origin is not accepted, and only there.
pub proof fn other_origins_are_forbidden(body: Seq<u8>)
    ensures
        received(false, body) is Forbidden,
        !(received(true, body) is Forbidden),
        received(true, body) == plan_of(json::json_parsed(body)),
{
}

/// A request may be told as a list of its four parts, in a batch.
pub proof fn requests_may_be_lists(v: Seq<char>, id: Tree, m: Seq<char>, params: Tree, a: Seq<Tree>)
    ensures
        request_of(Tree::Array(seq![Tree::Text(v), id, Tree::Text(m), params])) == Some(
            RequestView {
                jsonrpc: v,
                id: if id is Null { None } else { Some(id) },
                method: m,
                params: if params is Null { None } else { Some(params) },
            },
        ),
        a.len() != 4 ==> request_of(Tree::Array(a)) is None,
{
}

} // verus!
