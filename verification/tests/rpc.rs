//! Requests and responses, the definitions of tools, and JSON.

use overfry::error::AppError;
use overfry::file_server::Dispatched;
use overfry::filesystem_server;
use overfry::json;
use overfry::json::Json;
use overfry::obsidian_fs_server;
use overfry::rpc::{finish_call, handle_rpc, join_responses, plan_body, read_request, rpc_err, rpc_ok, Plan, RpcRequest};
use overfry::tool_defs::{describe, find_tool, list_tools, Server, Tool};

fn value(s: &str) -> Json {
    json::parse(s.as_bytes()).unwrap()
}

fn request(method: &str, params: Option<&str>) -> RpcRequest {
    RpcRequest {
        jsonrpc: "2.0".to_string(),
        id: Some(Json::number(7)),
        method: method.to_string(),
        params: params.map(value),
    }
}

// ── JSON ──────────────────────────────────────────────────────────────────────

#[test]
fn values_are_parsed_and_printed() {
    let s = "{\"b\":[1,true,null],\"a\":\"x\"}";
    let j = value(s);
    assert_eq!(json::to_text(&j), s);
    assert_eq!(json::to_pretty(&Json::object1("a", Json::number(1))), "{\n  \"a\": 1\n}");
    assert!(json::parse(b"{").is_none());
    assert!(json::parse(b"").is_none());
}

#[test]
fn members_of_values() {
    let j = value("{\"a\":\"x\",\"n\":3,\"m\":-3}");
    assert_eq!(j.str_field("a"), Some("x".to_string()));
    assert_eq!(j.u64_field("n"), Some(3));
    assert_eq!(j.u64_field("m"), None);
    assert!(matches!(j.field("none"), Json::Null));
    assert!(j.get("none").is_none());
    assert_eq!(json::to_text(&Json::integer(-3)), "-3");
}

#[test]
fn members_that_are_set_are_read_back() {
    let mut m: Vec<(String, Json)> = vec![("a".to_string(), Json::number(1)), ("b".to_string(), Json::number(2))];
    json::set_member(&mut m, "a", Json::number(5));
    json::set_member(&mut m, "c", Json::number(6));
    assert_eq!(json::to_text(&Json::object(m)), "{\"a\":5,\"b\":2,\"c\":6}");
}

#[test]
fn later_members_replace_earlier_ones_of_one_name() {
    let m = vec![("a".to_string(), Json::number(1)), ("a".to_string(), Json::number(2))];
    assert_eq!(json::to_text(&Json::object(m)), "{\"a\":2}");
}

#[test]
fn values_go_to_serde_and_back() {
    let j = value("[{\"a\":[]},\"x\"]");
    assert_eq!(json::to_text(&json::from_value(json::to_value(&j))), "[{\"a\":[]},\"x\"]");
    assert_eq!(json::to_text(&j.copy()), "[{\"a\":[]},\"x\"]");
}

// ── Requests ──────────────────────────────────────────────────────────────────

#[test]
fn requests_are_read() {
    let q = read_request(&value("{\"jsonrpc\":\"2.0\",\"id\":1,\"method\":\"m\",\"params\":null}")).unwrap();
    assert_eq!(q.method, "m");
    assert_eq!(json::to_text(&q.id.unwrap()), "1");
    assert!(q.params.is_none());
    assert!(read_request(&value("{\"id\":1,\"method\":\"m\"}")).is_none());
    assert!(read_request(&value("3")).is_none());
}

#[test]
fn bodies_that_are_no_requests_are_answered_with_an_error() {
    match handle_rpc(true, b"{") {
        Plan::Reply(j) => assert_eq!(
            json::to_text(&j),
            "{\"jsonrpc\":\"2.0\",\"error\":{\"code\":-32700,\"message\":\"Parse error\"}}"
        ),
        _ => panic!("no reply"),
    }
    assert!(matches!(plan_body(Some(Json::number(1))), Plan::Reply(_)));
    assert!(matches!(plan_body(None), Plan::Reply(_)));
}

#[test]
fn requests_from_elsewhere_are_forbidden() {
    assert!(matches!(handle_rpc(false, b"{}"), Plan::Forbidden));
}

#[test]
fn notifications_are_accepted_without_an_answer() {
    assert!(matches!(handle_rpc(true, b"{\"jsonrpc\":\"2.0\",\"method\":\"m\"}"), Plan::Accepted));
}

#[test]
fn batches_hold_the_requests_with_an_id() {
    let body = b"[{\"jsonrpc\":\"2.0\",\"id\":1,\"method\":\"a\"},{\"jsonrpc\":\"2.0\",\"method\":\"b\"},3]";
    match handle_rpc(true, body) {
        Plan::Batch(v) => {
            assert_eq!(v.len(), 1);
            assert_eq!(v[0].method, "a");
        }
        _ => panic!("no batch"),
    }
    assert!(matches!(handle_rpc(true, b"{\"jsonrpc\":\"2.0\",\"id\":1,\"method\":\"a\"}"), Plan::Single(_)));
}

#[test]
fn responses_as_json() {
    let ok = rpc_ok(Some(Json::number(1)), Json::text("r"));
    let err = rpc_err(None, -32601, "Method not found");
    assert_eq!(
        json::to_text(&join_responses(vec![ok, err])),
        "[{\"jsonrpc\":\"2.0\",\"id\":1,\"result\":\"r\"},{\"jsonrpc\":\"2.0\",\"error\":{\"code\":-32601,\"message\":\"Method not found\"}}]"
    );
}

#[test]
fn answers_of_tools() {
    let ok = finish_call(Some(Json::number(1)), &Ok("hi".to_string())).to_json();
    assert_eq!(
        json::to_text(&ok.field("result")),
        "{\"content\":[{\"type\":\"text\",\"text\":\"hi\"}],\"isError\":false}"
    );
    let err = finish_call(None, &Err(AppError::ServerNotFound)).to_json();
    assert_eq!(
        json::to_text(&err.field("result")),
        "{\"content\":[{\"type\":\"text\",\"text\":\"server not found\"}],\"isError\":true}"
    );
}

// ── Dispatching ───────────────────────────────────────────────────────────────

#[test]
fn servers_introduce_themselves() {
    let name = |d: Dispatched<_, _>| match d {
        Dispatched::Reply(a) => {
            let a: overfry::rpc::RpcResponse = a;
            let _: Option<Json> = a.id;
            json::to_text(&a.result.unwrap().field("serverInfo"))
        }
        Dispatched::Call { args, .. } => {
            let _: Json = args;
            panic!("a call")
        }
    };
    assert_eq!(
        name(filesystem_server::dispatch(request("initialize", None))),
        "{\"name\":\"overfry-filesystem\",\"version\":\"0.1.0\"}"
    );
    assert_eq!(
        name(obsidian_fs_server::dispatch(request("initialize", None))),
        "{\"name\":\"overfry-obsidian-filesystem\",\"version\":\"0.2.1\"}"
    );
}

#[test]
fn tools_are_listed_and_called() {
    match filesystem_server::dispatch(request("tools/list", None)) {
        Dispatched::Reply(a) => assert!(json::to_text(&a.to_json()).contains("\"read_file\"")),
        _ => panic!("no reply"),
    }
    match obsidian_fs_server::dispatch(request("tools/call", Some("{\"name\":\"n\",\"arguments\":{\"a\":1}}"))) {
        Dispatched::Call { id, name, args } => {
            assert_eq!(json::to_text(&id.unwrap()), "7");
            assert_eq!(name, "n");
            assert_eq!(json::to_text(&args), "{\"a\":1}");
        }
        _ => panic!("no call"),
    }
}

#[test]
fn unknown_methods_are_not_found() {
    match filesystem_server::dispatch(request("fly", None)) {
        Dispatched::Reply(a) => assert_eq!(
            json::to_text(&a.to_json()),
            "{\"jsonrpc\":\"2.0\",\"id\":7,\"error\":{\"code\":-32601,\"message\":\"Method not found\"}}"
        ),
        _ => panic!("no reply"),
    }
}

#[test]
fn every_tool_that_is_listed_is_found() {
    for server in [Server::Filesystem, Server::Vault] {
        for tool in list_tools(server) {
            assert!(find_tool(server, &tool.name()) == Some(tool));
            assert_eq!(describe(server, tool).name, tool.name());
        }
    }
    for tool in list_tools(Server::Filesystem) {
        assert!(find_tool(Server::Vault, &tool.name()) == Some(tool));
    }
    assert_eq!(list_tools(Server::Filesystem).len(), 7);
    assert_eq!(list_tools(Server::Vault).len(), 14);
    assert!(find_tool(Server::Filesystem, "list_tags").is_none());
    assert!(find_tool(Server::Vault, "list_tags") == Some(Tool::ListTags));
}

#[test]
fn definitions_name_what_is_required() {
    let defs = json::to_text(&filesystem_server::tool_defs());
    assert!(defs.contains("\"required\":[\"path\",\"content\"]"));
    assert!(json::to_text(&obsidian_fs_server::tool_defs()).contains("\"get_vault_outline\""));
}

#[test]
fn servers_name_the_protocol_that_they_follow() {
    for reply in [
        filesystem_server::dispatch(request("initialize", None)),
        obsidian_fs_server::dispatch(request("initialize", None)),
    ] {
        match reply {
            Dispatched::Reply(a) => {
                let j = a.to_json();
                assert_eq!(j.field("result").str_field("protocolVersion"), Some("2025-03-26".to_string()));
                assert!(j.get("error").is_none());
            }
            _ => panic!("no reply"),
        }
    }
}

#[test]
fn needed_arguments_are_properties_and_names_differ() {
    for server in [Server::Filesystem, Server::Vault] {
        let defs: Vec<_> = list_tools(server).into_iter().map(|t| describe(server, t)).collect();
        for (i, d) in defs.iter().enumerate() {
            assert!(d.required.iter().all(|r| d.params.iter().any(|p| &p.name == r)));
            assert!(defs[..i].iter().all(|e| e.name != d.name));
        }
    }
}
