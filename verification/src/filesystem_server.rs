//! The server of a folder.

use axum::http::HeaderMap;
use vstd::prelude::*;

use crate::file_server;
use crate::file_server::{Dispatched, Root};
use crate::headers;
use crate::json::Json;
use crate::rpc::{RpcRequest, RpcResponse};
use crate::tool_defs;
use crate::tool_defs::Server;
use crate::tools::ToolStep;

verus! {

/// Whether the origin of a request is accepted: none, or the window of the
/// application itself.
pub fn origin_ok(headers: &HeaderMap) -> (r: bool)
    ensures
        r == file_server::own_origin(headers::header_found(*headers, "origin"@)),
{
    file_server::origin_ok(headers)
}

/// Dispatches a request to a folder.
pub fn dispatch(req: RpcRequest) -> (r: Dispatched<RpcResponse, Json>)
    ensures
        r@ == file_server::dispatched(Server::Filesystem, req@),
{
    file_server::dispatch(Server::Filesystem, req)
}

/// Starts a tool of a folder on its arguments. Without a root every tool fails.
pub fn call_tool(root: Option<Root>, name: &str, args: &Json) -> (r: ToolStep)
    ensures
        file_server::called(Server::Filesystem, root, name@, args.tree(), r@),
{
    file_server::call_tool(Server::Filesystem, root, name, args)
}

/// The descriptions of the tools of a folder.
pub fn tool_defs() -> (r: Json)
    ensures
        r.tree() == tool_defs::defs_tree(Server::Filesystem),
{
    tool_defs::tool_defs(Server::Filesystem)
}

} // verus!
