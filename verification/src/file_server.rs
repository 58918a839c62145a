//! What the two file servers have in common: how a tool is started on its
//! arguments, and how a request is dispatched.

use std::path::PathBuf;

use axum::http::HeaderMap;
use uuid::Uuid;
use vstd::prelude::*;

use crate::audit;
use crate::error::AppError;
use crate::error::ErrorView;
use crate::headers;
use crate::headers::Found;
use crate::json;
use crate::json::{Json, Tree};
use crate::models;
use crate::models::{AuditEntry, AuditEntryView};
use crate::outline;
use crate::outline::OutlineStep;
use crate::outline::Snapshot;
use crate::periodic;
use crate::periodic::Date;
use crate::rpc;
use crate::rpc::{RequestView, ResponseView, RpcRequest, RpcResponse};
use crate::search;
use crate::security;
use crate::text;
use crate::tool_defs;
use crate::tool_defs::{Server, Tool};
use crate::tools;
use crate::tools::{NoteTask, PlaceTask, Query, Range, Settings, Shape, Step, StepView, ToolStep, WalkTask};
use crate::tags::Tags;

verus! {

// ── Origins ───────────────────────────────────────────────────────────────────

/// Whether the origin of a request is accepted: none, or the window of the
/// application itself.
pub open spec fn own_origin(origin: Found<Seq<char>>) -> bool {
    match origin {
        Found::Absent => true,
        Found::Unreadable => false,
        Found::Text(o) => "tauri://"@.is_prefix_of(o),
    }
}

/// Whether the origin of a request is accepted.
pub fn accept_own_origin(origin: &Found<String>) -> (r: bool)
    ensures
        r == own_origin(origin@),
{
    match origin {
        Found::Absent => true,
        Found::Unreadable => false,
        Found::Text(o) => text::starts_with(o, "tauri://"),
    }
}

/// Whether the origin of a request is accepted.
pub fn origin_ok(headers: &HeaderMap) -> (r: bool)
    ensures
        r == own_origin(headers::header_found(*headers, "origin"@)),
{
    accept_own_origin(&headers::find_header(headers, "origin"))
}

// ── Starting a tool ───────────────────────────────────────────────────────────

/// The root of a server, and its name.
pub struct Root {
    pub path: PathBuf,
    pub name: String,
}

/// The number of entries on a page, where none is asked for, and the largest.
pub const DEFAULT_LIMIT: u64 = 100;

pub const MAX_LIMIT: u64 = 200;

/// The lines of context around a match, where none are asked for, and the most.
pub const DEFAULT_CONTEXT: u64 = 3;

pub const MAX_CONTEXT: u64 = 10;

/// The files of a search, where none are asked for, and the most.
pub const DEFAULT_FILES: u64 = 20;

pub const MAX_FILES: u64 = 50;

/// The text of an argument.
pub open spec fn arg(args: Tree, key: Seq<char>) -> Option<Seq<char>> {
    args.field(key).as_text()
}

/// The text of an argument, or another.
pub open spec fn arg_or(args: Tree, key: Seq<char>, other: Seq<char>) -> Seq<char> {
    match arg(args, key) {
        Some(s) => s,
        None => other,
    }
}

/// The number of an argument, or another, up to a limit.
pub open spec fn count_or(args: Tree, key: Seq<char>, other: u64, most: u64) -> u64 {
    let n = match args.field(key).as_count() {
        Some(n) => n,
        None => other,
    };
    if n < most {
        n
    } else {
        most
    }
}

fn read_count(args: &Json, key: &str, other: u64, most: u64) -> (r: u64)
    ensures
        r == count_or(args.tree(), key@, other, most),
{
    let n = match args.u64_field(key) {
        Some(n) => n,
        None => other,
    };
    if n < most {
        n
    } else {
        most
    }
}

fn read_or(args: &Json, key: &str, other: &str) -> (r: String)
    ensures
        r@ == arg_or(args.tree(), key@, other@),
{
    match args.str_field(key) {
        Some(s) => s,
        None => other.to_owned(),
    }
}

/// Which listing is asked for.
pub open spec fn shape_of(server: Server, args: Tree) -> Shape {
    match server {
        Server::Filesystem => Shape::Whole,
        Server::Vault => Shape::Page {
            offset: match args.field("offset"@).as_count() {
                Some(n) => n,
                None => 0,
            },
            limit: count_or(args, "limit"@, DEFAULT_LIMIT, MAX_LIMIT),
        },
    }
}

/// Which lines are asked for.
pub open spec fn range_of(server: Server, args: Tree) -> Range {
    match server {
        Server::Filesystem => Range { start: None, end: None },
        Server::Vault => Range {
            start: args.field("start_line"@).as_count(),
            end: args.field("end_line"@).as_count(),
        },
    }
}

/// Which search is asked for.
pub open spec fn query_of(server: Server, args: Tree, query: Seq<char>) -> Query<Seq<char>> {
    match server {
        Server::Filesystem => Query::Plain { query },
        Server::Vault => Query::Context {
            query,
            context: count_or(args, "context_lines"@, DEFAULT_CONTEXT, MAX_CONTEXT),
            max_files: count_or(args, "max_files"@, DEFAULT_FILES, MAX_FILES),
        },
    }
}

/// The start of a tool that needs a path.
pub open spec fn on_path(args: Tree, task: tools::PlaceTaskView) -> StepView {
    match arg(args, "path"@) {
        None => tools::fails("path required"@),
        Some(p) => Step::Resolve { requested: p, task },
    }
}

/// The start of the tool that writes a key.
pub open spec fn start_set_key(args: Tree) -> StepView {
    match (arg(args, "path"@), arg(args, "key"@)) {
        (None, _) => tools::fails("path required"@),
        (_, None) => tools::fails("key required"@),
        (Some(p), Some(key)) => {
            let value = args.field("value"@);
            if value is Null {
                tools::fails("value required"@)
            } else {
                Step::Resolve { requested: p, task: PlaceTask::Note(NoteTask::SetKey { key, value }) }
            }
        },
    }
}

/// The start of the tool that patches a note.
pub open spec fn start_patch(args: Tree) -> StepView {
    match arg(args, "path"@) {
        None => tools::fails("path required"@),
        Some(p) => match arg(args, "target_type"@) {
            None => tools::fails("target_type required"@),
            Some(target_type) => match arg(args, "target"@) {
                None => tools::fails("target required"@),
                Some(target) => match arg(args, "operation"@) {
                    None => tools::fails("operation required"@),
                    Some(operation) => match arg(args, "content"@) {
                        None => tools::fails("content required"@),
                        Some(content) => Step::Resolve {
                            requested: p,
                            task: PlaceTask::Note(NoteTask::Patch { target_type, target, operation, content }),
                        },
                    },
                },
            },
        },
    }
}

/// The start of a tool, but for the two whose start is told by `periodic_started`
/// and `outline_started`.
pub open spec fn start_of(server: Server, tool: Tool, root: PathBuf, args: Tree) -> StepView {
    match tool {
        Tool::ListDirectory => {
            let requested = arg_or(args, "path"@, "."@);
            Step::Key { relative: security::relative_path(requested), requested, shape: shape_of(server, args) }
        },
        Tool::ReadFile => on_path(args, PlaceTask::Read { range: range_of(server, args) }),
        Tool::WriteFile => match (arg(args, "path"@), arg(args, "content"@)) {
            (None, _) => tools::fails("path required"@),
            (_, None) => tools::fails("content required"@),
            (Some(p), Some(content)) => Step::ResolveWritable { requested: p, task: PlaceTask::Write { content } },
        },
        Tool::AppendFile => match (arg(args, "path"@), arg(args, "content"@)) {
            (None, _) => tools::fails("path required"@),
            (_, None) => tools::fails("content required"@),
            (Some(p), Some(content)) => Step::Resolve { requested: p, task: PlaceTask::Append { content } },
        },
        Tool::MoveFile => match (arg(args, "src"@), arg(args, "dst"@)) {
            (None, _) => tools::fails("src required"@),
            (_, None) => tools::fails("dst required"@),
            (Some(src), Some(dst)) => Step::Resolve { requested: src, task: PlaceTask::MoveFrom { dst } },
        },
        Tool::SearchFiles => match arg(args, "query"@) {
            None => tools::fails("query required"@),
            Some(query) => match search::query_error(query) {
                Some(e) => Step::Done(Err(e)),
                None => Step::Resolve {
                    requested: arg_or(args, "path"@, "."@),
                    task: PlaceTask::Search(query_of(server, args, query)),
                },
            },
        },
        Tool::DeleteFile => on_path(args, PlaceTask::Delete),
        Tool::ReadFrontmatter => on_path(args, PlaceTask::Note(NoteTask::Frontmatter)),
        Tool::WriteFrontmatter => start_set_key(args),
        Tool::PatchFile => start_patch(args),
        Tool::ListTags => match arg(args, "path"@) {
            Some(p) => Step::Resolve { requested: p, task: PlaceTask::Tags },
            None => Step::Walk { path: root, task: WalkTask::Tags(seq![]) },
        },
        Tool::GetNoteStructure => on_path(args, PlaceTask::Note(NoteTask::Structure)),
        _ => tools::fails(""@),
    }
}

/// The first step to the path of a periodic note.
pub open spec fn settings_step(period: Seq<char>, date: Date) -> StepView {
    Step::ReadSettings { relative: tools::plugin_settings(), settings: Settings::Plugin, period, date }
}

/// Whether `step` starts the search for the path of a periodic note: of the day that
/// is given, or of some day where none is, namely today.
pub open spec fn periodic_started(args: Tree, step: StepView) -> bool {
    match arg(args, "period"@) {
        None => step == tools::fails("period required"@),
        Some(period) => match arg(args, "date"@) {
            Some(s) => step == (match periodic::date_of(s) {
                Ok(d) => settings_step(period, d),
                Err(e) => Step::Done(Err(e)),
            }),
            None => step matches Step::ReadSettings { date, .. } && step == settings_step(period, date) && 1
                <= date.month <= 12,
        },
    }
}

/// Whether `step` starts an outline of the root, of the depth that is asked for.
pub open spec fn outline_started(root: PathBuf, name: Seq<char>, args: Tree, step: StepView) -> bool {
    let depth = count_or(args, "depth"@, outline::DEFAULT_DEPTH, outline::MAX_DEPTH);
    exists|o: OutlineStep|
        {
            &&& forall|fs: Snapshot| #[trigger]
                o.value(fs) == outline::outline_of(fs, root, name, 0, depth as nat, 0).0
            &&& forall|paths: Set<PathBuf>| paths.contains(root) ==> #[trigger] o.paths_in(paths)
            &&& #[trigger] o.sound()
            &&& step == tools::outline_view(o)
        }
}

/// Whether `step` starts a tool.
pub open spec fn started(server: Server, tool: Tool, root: Root, args: Tree, step: StepView) -> bool {
    match tool {
        Tool::PeriodicNotePath => periodic_started(args, step),
        Tool::GetVaultOutline => outline_started(root.path, root.name@, args, step),
        _ => step == start_of(server, tool, root.path, args),
    }
}

fn resolve_path(args: &Json, task: PlaceTask<String, Json>) -> (r: ToolStep)
    ensures
        r@ == on_path(args.tree(), task@),
{
    match args.str_field("path") {
        None => tools::fail("path required"),
        Some(p) => Step::Resolve { requested: p, task },
    }
}

fn begin_set_key(args: &Json) -> (r: ToolStep)
    ensures
        r@ == start_set_key(args.tree()),
{
    let p = match args.str_field("path") {
        None => {
            return tools::fail("path required");
        },
        Some(p) => p,
    };
    let key = match args.str_field("key") {
        None => {
            return tools::fail("key required");
        },
        Some(k) => k,
    };
    match args.field("value") {
        Json::Null => tools::fail("value required"),
        value => Step::Resolve { requested: p, task: PlaceTask::Note(NoteTask::SetKey { key, value }) },
    }
}

fn begin_patch(args: &Json) -> (r: ToolStep)
    ensures
        r@ == start_patch(args.tree()),
{
    let p = match args.str_field("path") {
        None => {
            return tools::fail("path required");
        },
        Some(p) => p,
    };
    let target_type = match args.str_field("target_type") {
        None => {
            return tools::fail("target_type required");
        },
        Some(s) => s,
    };
    let target = match args.str_field("target") {
        None => {
            return tools::fail("target required");
        },
        Some(s) => s,
    };
    let operation = match args.str_field("operation") {
        None => {
            return tools::fail("operation required");
        },
        Some(s) => s,
    };
    let content = match args.str_field("content") {
        None => {
            return tools::fail("content required");
        },
        Some(s) => s,
    };
    Step::Resolve {
        requested: p,
        task: PlaceTask::Note(NoteTask::Patch { target_type, target, operation, content }),
    }
}

/// Goes on once the day of a periodic note is known.
pub fn after_date(period: String, date: Result<Date, AppError>) -> (r: ToolStep)
    ensures
        r@ == (match date {
            Ok(d) => settings_step(period@, d),
            Err(e) => StepView::Done(Err(e@)),
        }),
{
    match date {
        Ok(date) => Step::ReadSettings {
            relative: ".obsidian/plugins/periodic-notes/data.json".to_owned(),
            settings: Settings::Plugin,
            period,
            date,
        },
        Err(e) => Step::Done(Err(e)),
    }
}

fn begin_periodic(args: &Json) -> (r: ToolStep)
    ensures
        periodic_started(args.tree(), r@),
{
    match args.str_field("period") {
        None => tools::fail("period required"),
        Some(period) => after_date(period, periodic::requested_date(args.str_field("date"))),
    }
}

fn begin_search(server: Server, args: &Json) -> (r: ToolStep)
    ensures
        forall|root: PathBuf| r@ == #[trigger] start_of(server, Tool::SearchFiles, root, args.tree()),
{
    let query = match args.str_field("query") {
        None => {
            return tools::fail("query required");
        },
        Some(q) => q,
    };
    match search::check_query(&query) {
        Err(e) => Step::Done(Err(e)),
        Ok(_) => {
            let q = match server {
                Server::Filesystem => Query::Plain { query },
                Server::Vault => Query::Context {
                    query,
                    context: read_count(args, "context_lines", DEFAULT_CONTEXT, MAX_CONTEXT),
                    max_files: read_count(args, "max_files", DEFAULT_FILES, MAX_FILES),
                },
            };
            Step::Resolve { requested: read_or(args, "path", "."), task: PlaceTask::Search(q) }
        },
    }
}

fn begin_listing(server: Server, args: &Json) -> (r: ToolStep)
    ensures
        forall|root: PathBuf| r@ == #[trigger] start_of(server, Tool::ListDirectory, root, args.tree()),
{
    let requested = read_or(args, "path", ".");
    let shape = match server {
        Server::Filesystem => Shape::Whole,
        Server::Vault => Shape::Page {
            offset: match args.u64_field("offset") {
                Some(n) => n,
                None => 0,
            },
            limit: read_count(args, "limit", DEFAULT_LIMIT, MAX_LIMIT),
        },
    };
    Step::Key { relative: security::strip_separators(&requested), requested, shape }
}

/// Starts a tool on its arguments.
pub fn start_tool(server: Server, tool: Tool, root: &Root, args: &Json) -> (r: ToolStep)
    ensures
        started(server, tool, *root, args.tree(), r@),
{
    match tool {
        Tool::ListDirectory => begin_listing(server, args),
        Tool::ReadFile => {
            let range = match server {
                Server::Filesystem => Range { start: None, end: None },
                Server::Vault => Range {
                    start: args.u64_field("start_line"),
                    end: args.u64_field("end_line"),
                },
            };
            resolve_path(args, PlaceTask::Read { range })
        },
        Tool::WriteFile => match args.str_field("path") {
            None => tools::fail("path required"),
            Some(p) => match args.str_field("content") {
                None => tools::fail("content required"),
                Some(content) => Step::ResolveWritable { requested: p, task: PlaceTask::Write { content } },
            },
        },
        Tool::AppendFile => match args.str_field("path") {
            None => tools::fail("path required"),
            Some(p) => match args.str_field("content") {
                None => tools::fail("content required"),
                Some(content) => Step::Resolve { requested: p, task: PlaceTask::Append { content } },
            },
        },
        Tool::MoveFile => match args.str_field("src") {
            None => tools::fail("src required"),
            Some(src) => match args.str_field("dst") {
                None => tools::fail("dst required"),
                Some(dst) => Step::Resolve { requested: src, task: PlaceTask::MoveFrom { dst } },
            },
        },
        Tool::SearchFiles => begin_search(server, args),
        Tool::DeleteFile => resolve_path(args, PlaceTask::Delete),
        Tool::ReadFrontmatter => resolve_path(args, PlaceTask::Note(NoteTask::Frontmatter)),
        Tool::WriteFrontmatter => begin_set_key(args),
        Tool::PatchFile => begin_patch(args),
        Tool::ListTags => match args.str_field("path") {
            Some(p) => Step::Resolve { requested: p, task: PlaceTask::Tags },
            None => Step::Walk { path: root.path.clone(), task: WalkTask::Tags(Tags::new()) },
        },
        Tool::PeriodicNotePath => begin_periodic(args),
        Tool::GetVaultOutline => {
            let depth = read_count(args, "depth", outline::DEFAULT_DEPTH, outline::MAX_DEPTH);
            let o = outline::build_outline(root.name.clone(), root.path.clone(), depth as u32);
            let r = tools::after_outline(o);
            assert(o.sound());
            r
        },
        Tool::GetNoteStructure => resolve_path(args, PlaceTask::Note(NoteTask::Structure)),
    }
}

/// Whether `step` starts the tool of a server that is called by a name.
pub open spec fn called(server: Server, root: Option<Root>, name: Seq<char>, args: Tree, step: StepView) -> bool {
    match root {
        None => step == tools::fails("no root paths configured"@),
        Some(root) => match tool_defs::tool_named(tool_defs::tools_of(server), name) {
            Some(tool) => started(server, tool, root, args, step),
            None => step == tools::fails("unknown tool: "@ + name),
        },
    }
}

/// Starts the tool of a server that is called by a name.
pub fn call_tool(server: Server, root: Option<Root>, name: &str, args: &Json) -> (r: ToolStep)
    ensures
        called(server, root, name@, args.tree(), r@),
{
    let root = match root {
        None => {
            return tools::fail("no root paths configured");
        },
        Some(root) => root,
    };
    match tool_defs::find_tool(server, name) {
        Some(tool) => start_tool(server, tool, &root, args),
        None => Step::Done(Err(AppError::Other(text::cat("unknown tool: ", name)))),
    }
}

// ── Dispatching a request ─────────────────────────────────────────────────────

/// What a request comes to.
pub enum Dispatched<A, J> {
    /// It is answered so.
    Reply(A),
    /// A tool is called.
    Call { id: Option<J>, name: String, args: J },
}

/// What a request comes to, mathematically.
pub enum DispatchedView {
    Reply(ResponseView),
    Call { id: Option<Tree>, name: Seq<char>, args: Tree },
}

impl View for Dispatched<RpcResponse, Json> {
    type V = DispatchedView;

    open spec fn view(&self) -> DispatchedView {
        match self {
            Dispatched::Reply(a) => DispatchedView::Reply(a@),
            Dispatched::Call { id, name, args } => DispatchedView::Call {
                id: rpc::optional_tree(*id),
                name: name@,
                args: args.tree(),
            },
        }
    }
}

/// How a server introduces itself.
pub open spec fn introduction(server: Server) -> Tree {
    let (name, version) = match server {
        Server::Filesystem => ("overfry-filesystem"@, "0.1.0"@),
        Server::Vault => ("overfry-obsidian-filesystem"@, "0.2.1"@),
    };
    Tree::Object(
        seq![
            ("protocolVersion"@, Tree::Text("2025-03-26"@)),
            ("capabilities"@, Tree::Object(seq![("tools"@, Tree::Object(seq![]))])),
            ("serverInfo"@, Tree::Object(seq![("name"@, Tree::Text(name)), ("version"@, Tree::Text(version))])),
        ],
    )
}

fn introduce(server: Server) -> (r: Json)
    ensures
        r.tree() == introduction(server),
{
    let none: Vec<(String, Json)> = Vec::new();
    assert(json::members(none@) =~= Seq::<(Seq<char>, Tree)>::empty());
    let (name, version) = match server {
        Server::Filesystem => ("overfry-filesystem", "0.1.0"),
        Server::Vault => ("overfry-obsidian-filesystem", "0.2.1"),
    };
    let r = Json::object3(
        "protocolVersion",
        Json::text("2025-03-26"),
        "capabilities",
        Json::object1("tools", Json::object(none)),
        "serverInfo",
        Json::object2("name", Json::text(name), "version", Json::text(version)),
    );
    assert(r.tree()->Object_0 =~= introduction(server)->Object_0);
    r
}

/// What a request comes to.
pub open spec fn dispatched(server: Server, q: RequestView) -> DispatchedView {
    if q.method == "initialize"@ {
        DispatchedView::Reply(rpc::ok_view(q.id, introduction(server)))
    } else if q.method == "tools/list"@ {
        DispatchedView::Reply(
            rpc::ok_view(q.id, Tree::Object(seq![("tools"@, tool_defs::defs_tree(server))])),
        )
    } else if q.method == "tools/call"@ {
        let params = match q.params {
            Some(t) => t,
            None => Tree::Null,
        };
        DispatchedView::Call {
            id: q.id,
            name: arg_or(params, "name"@, ""@),
            args: params.field("arguments"@),
        }
    } else {
        DispatchedView::Reply(rpc::err_view(q.id, rpc::METHOD_NOT_FOUND, "Method not found"@))
    }
}

/// Dispatches a request.
pub fn dispatch(server: Server, req: RpcRequest) -> (r: Dispatched<RpcResponse, Json>)
    ensures
        r@ == dispatched(server, req@),
{
    if text::same(&req.method, "initialize") {
        Dispatched::Reply(rpc::rpc_ok(req.id, introduce(server)))
    } else if text::same(&req.method, "tools/list") {
        Dispatched::Reply(rpc::rpc_ok(req.id, Json::object1("tools", tool_defs::tool_defs(server))))
    } else if text::same(&req.method, "tools/call") {
        let params = match req.params {
            Some(p) => p,
            None => Json::Null,
        };
        Dispatched::Call { id: req.id, name: read_or(&params, "name", ""), args: params.field("arguments") }
    } else {
        Dispatched::Reply(rpc::rpc_err(req.id, rpc::METHOD_NOT_FOUND, "Method not found"))
    }
}

/// The record of a call, made at a time under an identifier.
pub fn audit_call(
    id: Uuid,
    timestamp: models::Timestamp,
    connection_id: Uuid,
    name: &str,
    args: &Json,
    result: &Result<String, AppError>,
) -> (r: AuditEntry)
    ensures
        r@ == (AuditEntryView {
            id,
            connection_id,
            tool_name: name@,
            path: arg(args.tree(), "path"@),
            timestamp,
            session_id: None,
            result: audit::outcome(tools::result_view(*result)),
        }),
{
    AuditEntry {
        id,
        connection_id,
        tool_name: name.to_owned(),
        path: args.str_field("path"),
        timestamp,
        session_id: None,
        result: audit::classify(result),
    }
}

/// The record of a call that was made just now.
pub fn record_call(connection_id: Uuid, name: &str, args: &Json, result: &Result<String, AppError>) -> (r: AuditEntry)
    ensures
        r@ == (AuditEntryView {
            id: r.id,
            connection_id,
            tool_name: name@,
            path: arg(args.tree(), "path"@),
            timestamp: r.timestamp,
            session_id: None,
            result: audit::outcome(tools::result_view(*result)),
        }),
{
    audit_call(models::new_id(), models::utc_now(), connection_id, name, args, result)
}

// ── Laws ──────────────────────────────────────────────────────────────────────

/// Every reply to a request that is dispatched carries the id of the request.
pub proof fn replies_carry_the_id(server: Server, q: RequestView)
    ensures
        match dispatched(server, q) {
            DispatchedView::Reply(a) => a.id == q.id,
            DispatchedView::Call { id, .. } => id == q.id,
        },
{
}

/// Nothing is ever deleted: a call to delete ends in a refusal, whatever path it
/// names and however that is resolved.
pub proof fn deletion_is_always_refused(
    server: Server,
    root: PathBuf,
    args: Tree,
    at: Result<crate::host::Resolved, ErrorView>,
)
    ensures
        match start_of(server, Tool::DeleteFile, root, args) {
            Step::Resolve { requested, task } => {
                &&& arg(args, "path"@) == Some(requested)
                &&& tools::next_of_resolution(task, at) == StepView::Done(
                    Err(
                        match at {
                            Ok(_) => tools::no_deletion(),
                            Err(e) => e,
                        },
                    ),
                )
            },
            step => step == tools::fails("path required"@),
        },
{
}

/// A tool starts without any path but the root: all the others it has from the host.
pub proof fn tools_start_at_the_root(server: Server, tool: Tool, root: Root, args: Tree, step: StepView)
    requires
        started(server, tool, root, args, step),
    ensures
        tools::step_in(step, set![root.path]),
{
}

/// Whether a tool only reads.
pub open spec fn is_reading(tool: Tool) -> bool {
    match tool {
        Tool::WriteFile => false,
        Tool::AppendFile => false,
        Tool::MoveFile => false,
        Tool::WriteFrontmatter => false,
        Tool::PatchFile => false,
        _ => true,
    }
}

/// The tools that read, and the one that refuses to delete, change no file: no step of
/// their runs writes, moves or removes anything.
pub proof fn reading_tools_change_nothing(
    server: Server,
    tool: Tool,
    root: Root,
    args: Tree,
    run: Seq<StepView>,
    paths: Set<PathBuf>,
)
    requires
        is_reading(tool),
        tools::is_run(run, paths),
        started(server, tool, root, args, run[0]),
    ensures
        forall|i: int| 0 <= i < run.len() ==> tools::only_reads(#[trigger] run[i]),
{
    tools::reading_tools_only_read(run, paths);
}

/// A call is refused at once, because there is no such tool, if and only if no tool is
/// described under the name; whatever its arguments are.
pub proof fn unknown_names_are_refused(server: Server, root: Root, name: Seq<char>, args: Tree, step: StepView)
    requires
        called(server, Some(root), name, args, step),
    ensures
        step == tools::fails("unknown tool: "@ + name) <==> !exists|i: int|
            0 <= i < tool_defs::tools_of(server).len() && tool_defs::def_of(
                server,
                #[trigger] tool_defs::tools_of(server)[i],
            ).name == name,
{
    tool_defs::listed_tools_are_found(server, name);
    reveal_strlit("path required");
    reveal_strlit("key required");
    reveal_strlit("value required");
    reveal_strlit("target_type required");
    reveal_strlit("target required");
    reveal_strlit("operation required");
    reveal_strlit("content required");
    reveal_strlit("src required");
    reveal_strlit("dst required");
    reveal_strlit("query required");
    reveal_strlit("period required");
    reveal_strlit("query pattern exceeds 256 characters");
    reveal_strlit("invalid date '");
    reveal_strlit("unknown tool: ");
    assert(("unknown tool: "@ + name)[0] == 'u');
    if let Some(tool) = tool_defs::tool_named(tool_defs::tools_of(server), name) {
        assert(started(server, tool, root, args, step));
        if let Step::Done(Err(ErrorView::Other(m))) = step {
            assert(m.len() > 0 && m[0] != 'u');
        }
    }
}

/// A number that is asked for is taken up to a limit, and where none is asked for, or
/// something else than a number, there is one for that case: a page of a listing holds 100
/// entries, at most 200, from the first on; a search shows 3 lines around a match, at most
/// 10, and 20 files, at most 50. Lines are read as they are asked for.
pub proof fn numbers_that_are_asked_for(args: Tree, query: Seq<char>)
    ensures
        shape_of(Server::Vault, args) matches Shape::Page { offset, limit } && {
            &&& offset == (if args.field("offset"@).as_count() is Some { args.field("offset"@).as_count()->0 } else { 0 })
            &&& args.field("limit"@).as_count() is None ==> limit == 100
            &&& args.field("limit"@).as_count() matches Some(n) ==> limit == (if n > 200 { 200 } else { n })
        },
        shape_of(Server::Filesystem, args) == Shape::Whole,
        range_of(Server::Vault, args) == (Range {
            start: args.field("start_line"@).as_count(),
            end: args.field("end_line"@).as_count(),
        }),
        range_of(Server::Filesystem, args) == (Range { start: None, end: None }),
        query_of(Server::Filesystem, args, query) == (Query::<Seq<char>>::Plain { query }),
        query_of(Server::Vault, args, query) matches Query::Context { query: q, context, max_files } && {
            &&& q == query
            &&& args.field("context_lines"@).as_count() is None ==> context == 3
            &&& args.field("context_lines"@).as_count() matches Some(n) ==> context == (if n > 10 { 10 } else { n })
            &&& args.field("max_files"@).as_count() is None ==> max_files == 20
            &&& args.field("max_files"@).as_count() matches Some(n) ==> max_files == (if n > 50 { 50 } else { n })
        },
{
}

/// The tools that read start with the path that they are given, and without one they fail;
/// a listing and a search start at the root then, and the tags are those of the whole vault.
pub proof fn reading_tools_start_with_their_path(server: Server, root: PathBuf, args: Tree, p: Seq<char>, q: Seq<char>)
    ensures
        args.field("path"@) == Tree::Text(p) ==> {
            &&& start_of(server, Tool::ReadFile, root, args) == (StepView::Resolve {
                requested: p,
                task: PlaceTask::Read { range: range_of(server, args) },
            })
            &&& start_of(server, Tool::DeleteFile, root, args) == (StepView::Resolve {
                requested: p,
                task: PlaceTask::Delete,
            })
            &&& start_of(server, Tool::ReadFrontmatter, root, args) == (StepView::Resolve {
                requested: p,
                task: PlaceTask::Note(NoteTask::Frontmatter),
            })
            &&& start_of(server, Tool::GetNoteStructure, root, args) == (StepView::Resolve {
                requested: p,
                task: PlaceTask::Note(NoteTask::Structure),
            })
            &&& start_of(server, Tool::ListTags, root, args) == (StepView::Resolve {
                requested: p,
                task: PlaceTask::Tags,
            })
            &&& start_of(server, Tool::ListDirectory, root, args) == (StepView::Key {
                relative: security::relative_path(p),
                requested: p,
                shape: shape_of(server, args),
            })
        },
        !(args.field("path"@) is Text) ==> {
            &&& start_of(server, Tool::ReadFile, root, args) == tools::fails("path required"@)
            &&& start_of(server, Tool::DeleteFile, root, args) == tools::fails("path required"@)
            &&& start_of(server, Tool::ReadFrontmatter, root, args) == tools::fails("path required"@)
            &&& start_of(server, Tool::GetNoteStructure, root, args) == tools::fails("path required"@)
            &&& start_of(server, Tool::ListTags, root, args) == (StepView::Walk {
                path: root,
                task: WalkTask::Tags(seq![]),
            })
            &&& start_of(server, Tool::ListDirectory, root, args) matches Step::Key { requested, shape, .. } && requested
                == seq!['.'] && shape == shape_of(server, args)
        },
        args.field("query"@) == Tree::Text(q) && text::utf8_len(q) <= 256 ==> start_of(
            server,
            Tool::SearchFiles,
            root,
            args,
        ) == (StepView::Resolve {
            requested: if args.field("path"@) is Text { args.field("path"@)->Text_0 } else { seq!['.'] },
            task: PlaceTask::Search(query_of(server, args, q)),
        }),
        args.field("query"@) == Tree::Text(q) && text::utf8_len(q) > 256 ==> start_of(server, Tool::SearchFiles, root, args)
            == tools::fails("query pattern exceeds 256 characters"@),
        !(args.field("query"@) is Text) ==> start_of(server, Tool::SearchFiles, root, args) == tools::fails(
            "query required"@,
        ),
{
    reveal_strlit(".");
    assert("."@ =~= seq!['.']);
}

/// The tools that write start with the path and the text that they are given, and fail
/// without one of them. A file that is written may be new; what is appended to, patched or
/// moved has to be resolved first.
pub proof fn writing_tools_start_with_their_arguments(
    server: Server,
    root: PathBuf,
    args: Tree,
    p: Seq<char>,
    c: Seq<char>,
    key: Seq<char>,
    kind: Seq<char>,
    target: Seq<char>,
    operation: Seq<char>,
)
    ensures
        args.field("path"@) == Tree::Text(p) && args.field("content"@) == Tree::Text(c) ==> {
            &&& start_of(server, Tool::WriteFile, root, args) == (StepView::ResolveWritable {
                requested: p,
                task: PlaceTask::Write { content: c },
            })
            &&& start_of(server, Tool::AppendFile, root, args) == (StepView::Resolve {
                requested: p,
                task: PlaceTask::Append { content: c },
            })
            &&& args.field("target_type"@) == Tree::Text(kind) && args.field("target"@) == Tree::Text(target) && args.field(
                "operation"@,
            ) == Tree::Text(operation) ==> start_of(server, Tool::PatchFile, root, args) == (StepView::Resolve {
                requested: p,
                task: PlaceTask::Note(NoteTask::Patch { target_type: kind, target, operation, content: c }),
            })
        },
        !(args.field("path"@) is Text) || !(args.field("content"@) is Text) ==> {
            &&& start_of(server, Tool::WriteFile, root, args) is Done
            &&& start_of(server, Tool::AppendFile, root, args) is Done
            &&& start_of(server, Tool::PatchFile, root, args) is Done
        },
        !(args.field("target_type"@) is Text) || !(args.field("target"@) is Text) || !(args.field("operation"@) is Text)
            ==> start_of(server, Tool::PatchFile, root, args) is Done,
        args.field("src"@) == Tree::Text(p) && args.field("dst"@) == Tree::Text(c) ==> start_of(
            server,
            Tool::MoveFile,
            root,
            args,
        ) == (StepView::Resolve { requested: p, task: PlaceTask::MoveFrom { dst: c } }),
        !(args.field("src"@) is Text) || !(args.field("dst"@) is Text) ==> start_of(server, Tool::MoveFile, root, args) is Done,
        args.field("path"@) == Tree::Text(p) && args.field("key"@) == Tree::Text(key) && !(args.field("value"@) is Null)
            ==> start_of(server, Tool::WriteFrontmatter, root, args) == (StepView::Resolve {
            requested: p,
            task: PlaceTask::Note(NoteTask::SetKey { key, value: args.field("value"@) }),
        }),
        !(args.field("path"@) is Text) || !(args.field("key"@) is Text) || args.field("value"@) is Null ==> start_of(
            server,
            Tool::WriteFrontmatter,
            root,
            args,
        ) is Done,
{
}

/// A periodic note is that of the period and of the day that are asked for; a day that cannot
/// be read is refused. An outline goes two levels deep, at most five, or as deep as is asked.
pub proof fn periods_and_depths_that_are_asked_for(args: Tree, step: StepView, period: Seq<char>, s: Seq<char>, d: Date)
    requires
        args.field("period"@) == Tree::Text(period),
        args.field("date"@) == Tree::Text(s),
    ensures
        periodic::parsed_date(s) == Ok::<Date, Seq<char>>(d) ==> (periodic_started(args, step) <==> step == (
        StepView::ReadSettings {
            relative: ".obsidian/plugins/periodic-notes/data.json"@,
            settings: Settings::Plugin,
            period,
            date: d,
        })),
        periodic::parsed_date(s) matches Err(e) ==> (periodic_started(args, step) <==> step == tools::fails(
            "invalid date '"@ + s + "': "@ + e,
        )),
        args.field("depth"@).as_count() is None ==> count_or(args, "depth"@, outline::DEFAULT_DEPTH, outline::MAX_DEPTH) == 2,
        args.field("depth"@).as_count() matches Some(n) ==> count_or(
            args,
            "depth"@,
            outline::DEFAULT_DEPTH,
            outline::MAX_DEPTH,
        ) == (if n > 5 { 5 } else { n }),
{
}

/// Each tool of a server is called by its name, on the root of the server; without a root
/// none is.
pub proof fn tools_are_called_by_their_names(server: Server, i: int, root: Root, name: Seq<char>, args: Tree, step: StepView)
    requires
        0 <= i < tool_defs::tools_of(server).len(),
    ensures
        called(server, Some(root), tool_defs::tools_of(server)[i].spec_name(), args, step) <==> started(
            server,
            tool_defs::tools_of(server)[i],
            root,
            args,
            step,
        ),
        called(server, None, name, args, step) <==> step == tools::fails("no root paths configured"@),
{
    tool_defs::names_find_their_tools(server, i);
}

/// What a request comes to, by its method: a server introduces itself, lists its tools, or
/// calls the one that is named, with the arguments that are given; any other method is
/// answered with the error -32601.
pub proof fn methods_are_dispatched(server: Server, q: RequestView, params: Tree, name: Seq<char>)
    requires
        q.params == Some(params),
        params.field("name"@) == Tree::Text(name),
    ensures
        q.method == "tools/call"@ ==> dispatched(server, q) == (DispatchedView::Call {
            id: q.id,
            name,
            args: params.field("arguments"@),
        }),
        q.method == "tools/list"@ ==> dispatched(server, q) == DispatchedView::Reply(
            ResponseView {
                id: q.id,
                result: Some(Tree::Object(seq![("tools"@, tool_defs::defs_tree(server))])),
                error: None,
            },
        ),
        q.method == "initialize"@ ==> ({
            &&& dispatched(server, q) matches DispatchedView::Reply(a)
            &&& a.id == q.id && a.error is None
            &&& a.result matches Some(t)
            &&& t.field("protocolVersion"@) == Tree::Text("2025-03-26"@)
        }),
        q.method != "tools/call"@ && q.method != "tools/list"@ && q.method != "initialize"@ ==> dispatched(server, q)
            == DispatchedView::Reply(
            ResponseView { id: q.id, result: None, error: Some(((-32601) as i32, "Method not found"@)) },
        ),
{
    reveal_strlit("initialize");
    reveal_strlit("tools/list");
    reveal_strlit("tools/call");
    assert("initialize"@[0] == 'i' && "tools/list"@[0] == 't' && "tools/call"@[0] == 't');
    assert("tools/list"@[6] == 'l' && "tools/call"@[6] == 'c');
    let m = introduction(server)->Object_0;
    assert(m[0].0 == "protocolVersion"@);
    json::member_index_is_first(m, "protocolVersion"@);
}

} // verus!
