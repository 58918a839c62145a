//! The tools that the two file servers have, and how they are described to a
//! client.

use vstd::prelude::*;

use crate::json;
use crate::json::{Json, Tree};
use crate::sorting;
use crate::text;

verus! {

/// A file server.
#[derive(Clone, Copy, PartialEq, Eq, Structural)]
pub enum Server {
    /// Serves a folder.
    Filesystem,
    /// Serves a vault of notes.
    Vault,
}

/// A tool.
#[derive(Clone, Copy, PartialEq, Eq, Structural)]
pub enum Tool {
    ListDirectory,
    ReadFile,
    WriteFile,
    AppendFile,
    MoveFile,
    SearchFiles,
    DeleteFile,
    ReadFrontmatter,
    WriteFrontmatter,
    PatchFile,
    ListTags,
    PeriodicNotePath,
    GetVaultOutline,
    GetNoteStructure,
}

impl Tool {
    /// The name of the tool.
    pub open spec fn spec_name(self) -> Seq<char> {
        match self {
            Tool::ListDirectory => "list_directory"@,
            Tool::ReadFile => "read_file"@,
            Tool::WriteFile => "write_file"@,
            Tool::AppendFile => "append_file"@,
            Tool::MoveFile => "move_file"@,
            Tool::SearchFiles => "search_files"@,
            Tool::DeleteFile => "delete_file"@,
            Tool::ReadFrontmatter => "read_frontmatter"@,
            Tool::WriteFrontmatter => "write_frontmatter"@,
            Tool::PatchFile => "patch_file"@,
            Tool::ListTags => "list_tags"@,
            Tool::PeriodicNotePath => "periodic_note_path"@,
            Tool::GetVaultOutline => "get_vault_outline"@,
            Tool::GetNoteStructure => "get_note_structure"@,
        }
    }

    /// The name of the tool.
    pub fn name(self) -> (r: String)
        ensures
            r@ == self.spec_name(),
    {
        match self {
            Tool::ListDirectory => "list_directory".to_owned(),
            Tool::ReadFile => "read_file".to_owned(),
            Tool::WriteFile => "write_file".to_owned(),
            Tool::AppendFile => "append_file".to_owned(),
            Tool::MoveFile => "move_file".to_owned(),
            Tool::SearchFiles => "search_files".to_owned(),
            Tool::DeleteFile => "delete_file".to_owned(),
            Tool::ReadFrontmatter => "read_frontmatter".to_owned(),
            Tool::WriteFrontmatter => "write_frontmatter".to_owned(),
            Tool::PatchFile => "patch_file".to_owned(),
            Tool::ListTags => "list_tags".to_owned(),
            Tool::PeriodicNotePath => "periodic_note_path".to_owned(),
            Tool::GetVaultOutline => "get_vault_outline".to_owned(),
            Tool::GetNoteStructure => "get_note_structure".to_owned(),
        }
    }
}

/// The tools of a server, in the order in which they are listed.
pub open spec fn tools_of(server: Server) -> Seq<Tool> {
    let common = seq![
        Tool::ListDirectory,
        Tool::ReadFile,
        Tool::WriteFile,
        Tool::AppendFile,
        Tool::MoveFile,
        Tool::SearchFiles,
        Tool::DeleteFile,
    ];
    match server {
        Server::Filesystem => common,
        Server::Vault => common + seq![
            Tool::ReadFrontmatter,
            Tool::WriteFrontmatter,
            Tool::PatchFile,
            Tool::ListTags,
            Tool::PeriodicNotePath,
            Tool::GetVaultOutline,
            Tool::GetNoteStructure,
        ],
    }
}

/// The tools of a server, in the order in which they are listed.
pub fn list_tools(server: Server) -> (r: Vec<Tool>)
    ensures
        r@ == tools_of(server),
{
    let mut v = vec![
        Tool::ListDirectory,
        Tool::ReadFile,
        Tool::WriteFile,
        Tool::AppendFile,
        Tool::MoveFile,
        Tool::SearchFiles,
        Tool::DeleteFile,
    ];
    if server == Server::Vault {
        v.push(Tool::ReadFrontmatter);
        v.push(Tool::WriteFrontmatter);
        v.push(Tool::PatchFile);
        v.push(Tool::ListTags);
        v.push(Tool::PeriodicNotePath);
        v.push(Tool::GetVaultOutline);
        v.push(Tool::GetNoteStructure);
    }
    assert(v@ =~= tools_of(server));
    v
}

/// The first tool of a list with a name.
pub open spec fn tool_named(list: Seq<Tool>, name: Seq<char>) -> Option<Tool>
    decreases list.len(),
{
    if list.len() == 0 {
        None
    } else if list[0].spec_name() == name {
        Some(list[0])
    } else {
        tool_named(list.drop_first(), name)
    }
}

/// The tool of a server with a name.
pub fn find_tool(server: Server, name: &str) -> (r: Option<Tool>)
    ensures
        r == tool_named(tools_of(server), name@),
{
    let list = list_tools(server);
    let mut i: usize = 0;
    assert(list@.skip(0) =~= list@);
    while i < list.len()
        invariant
            i <= list@.len(),
            list@ == tools_of(server),
            tool_named(list@.skip(i as int), name@) == tool_named(list@, name@),
        decreases list@.len() - i,
    {
        assert(list@.skip(i as int)[0] == list@[i as int]);
        if text::same(&list[i].name(), name) {
            return Some(list[i]);
        }
        assert(list@.skip(i as int).drop_first() =~= list@.skip(i + 1));
        i += 1;
    }
    None
}

// ── Descriptions ──────────────────────────────────────────────────────────────

/// A parameter of a tool: its type, where it has one, and the values it can take,
/// where they are few.
pub struct Param {
    pub name: String,
    pub kind: Option<String>,
    pub choices: Vec<String>,
    pub description: String,
}

/// What a parameter is, mathematically.
pub struct ParamView {
    pub name: Seq<char>,
    pub kind: Option<Seq<char>>,
    pub choices: Seq<Seq<char>>,
    pub description: Seq<char>,
}

impl View for Param {
    type V = ParamView;

    open spec fn view(&self) -> ParamView {
        ParamView {
            name: self.name@,
            kind: match self.kind {
                Some(k) => Some(k@),
                None => None,
            },
            choices: text::texts(self.choices@),
            description: self.description@,
        }
    }
}

/// The description of a tool.
pub struct ToolDef {
    pub name: String,
    pub description: String,
    pub params: Vec<Param>,
    pub required: Vec<String>,
}

/// What the description of a tool is, mathematically.
pub struct ToolDefView {
    pub name: Seq<char>,
    pub description: Seq<char>,
    pub params: Seq<ParamView>,
    pub required: Seq<Seq<char>>,
}

impl View for ToolDef {
    type V = ToolDefView;

    open spec fn view(&self) -> ToolDefView {
        ToolDefView {
            name: self.name@,
            description: self.description@,
            params: sorting::views(self.params@),
            required: text::texts(self.required@),
        }
    }
}

/// Strings as a JSON array.
pub open spec fn string_array(v: Seq<Seq<char>>) -> Tree {
    Tree::Array(v.map_values(|s: Seq<char>| Tree::Text(s)))
}

impl ParamView {
    /// The schema of the parameter.
    pub open spec fn schema(self) -> Tree {
        let kind = match self.kind {
            Some(k) => seq![("type"@, Tree::Text(k))],
            None => seq![],
        };
        let choices = if self.choices.len() > 0 {
            seq![("enum"@, string_array(self.choices))]
        } else {
            seq![]
        };
        Tree::Object(kind + choices + seq![("description"@, Tree::Text(self.description))])
    }
}

impl ToolDefView {
    /// The description as JSON.
    pub open spec fn tree(self) -> Tree {
        let schema = Tree::Object(
            seq![
                ("type"@, Tree::Text("object"@)),
                ("properties"@, Tree::Object(self.params.map_values(|p: ParamView| (p.name, p.schema())))),
                ("required"@, string_array(self.required)),
            ],
        );
        Tree::Object(
            seq![
                ("name"@, Tree::Text(self.name)),
                ("description"@, Tree::Text(self.description)),
                ("inputSchema"@, schema),
            ],
        )
    }
}

impl Param {
    /// The schema of the parameter.
    pub fn to_json(&self) -> (r: Json)
        ensures
            r.tree() == self@.schema(),
    {
        let mut m: Vec<(String, Json)> = Vec::new();
        if let Some(k) = &self.kind {
            m.push(("type".to_owned(), Json::text(k)));
        }
        if self.choices.len() > 0 {
            m.push(("enum".to_owned(), Json::texts(&self.choices)));
        }
        m.push(("description".to_owned(), Json::text(&self.description)));
        assert(text::texts(self.choices@).len() == self.choices@.len());
        assert(json::members(m@) =~= self@.schema()->Object_0);
        Json::object(m)
    }
}

impl ToolDef {
    /// The description as JSON.
    pub fn to_json(&self) -> (r: Json)
        ensures
            r.tree() == self@.tree(),
    {
        let mut m: Vec<(String, Json)> = Vec::new();
        let mut i: usize = 0;
        while i < self.params.len()
            invariant
                i <= self.params@.len(),
                m@.len() == i,
                forall|k: int|
                    0 <= k < i ==> (#[trigger] m@[k]).0@ == self.params@[k].name@ && m@[k].1.tree()
                        == self.params@[k]@.schema(),
            decreases self.params@.len() - i,
        {
            m.push((self.params[i].name.clone(), self.params[i].to_json()));
            i += 1;
        }
        assert(json::members(m@) =~= sorting::views(self.params@).map_values(
            |p: ParamView| (p.name, p.schema()),
        ));
        let schema = Json::object3(
            "type",
            Json::text("object"),
            "properties",
            Json::object(m),
            "required",
            Json::texts(&self.required),
        );
        Json::object3(
            "name",
            Json::text(&self.name),
            "description",
            Json::text(&self.description),
            "inputSchema",
            schema,
        )
    }
}

/// A parameter of a type.
pub open spec fn typed(name: Seq<char>, kind: Seq<char>, description: Seq<char>) -> ParamView {
    ParamView { name, kind: Some(kind), choices: seq![], description }
}

/// A string out of a few.
pub open spec fn one_of(name: Seq<char>, choices: Seq<Seq<char>>, description: Seq<char>) -> ParamView {
    ParamView { name, kind: Some("string"@), choices, description }
}

fn typed_param(name: &str, kind: &str, description: &str) -> (r: Param)
    ensures
        r@ == typed(name@, kind@, description@),
{
    let choices: Vec<String> = Vec::new();
    assert(text::texts(choices@) =~= Seq::<Seq<char>>::empty());
    Param {
        name: name.to_owned(),
        kind: Some(kind.to_owned()),
        choices,
        description: description.to_owned(),
    }
}

fn any_param(name: &str, description: &str) -> (r: Param)
    ensures
        r@ == (ParamView { name: name@, kind: None, choices: seq![], description: description@ }),
{
    let choices: Vec<String> = Vec::new();
    assert(text::texts(choices@) =~= Seq::<Seq<char>>::empty());
    Param { name: name.to_owned(), kind: None, choices, description: description.to_owned() }
}

fn choice_param(name: &str, choices: Vec<String>, description: &str) -> (r: Param)
    ensures
        r@ == one_of(name@, text::texts(choices@), description@),
{
    Param {
        name: name.to_owned(),
        kind: Some("string".to_owned()),
        choices,
        description: description.to_owned(),
    }
}

/// The description of `list_directory` of a folder.
pub open spec fn list_directory_plain() -> ToolDefView {
    ToolDefView {
        name: "list_directory"@,
        description: "List files and directories at a path within the root. Use '.' for root."@,
        params: seq![
            typed("path"@, "string"@, "Path relative to root"@),
        ],
        required: seq!["path"@],
    }
}

fn describe_list_directory_plain() -> (r: ToolDef)
    ensures
        r@ == list_directory_plain(),
{
    let params: Vec<Param> = vec![
        typed_param("path", "string", "Path relative to root"),
    ];
    let required: Vec<String> = vec!["path".to_owned()];
    assert(sorting::views(params@) =~= list_directory_plain().params);
    assert(text::texts(required@) =~= list_directory_plain().required);
    ToolDef {
        name: "list_directory".to_owned(),
        description: "List files and directories at a path within the root. Use '.' for root.".to_owned(),
        params,
        required,
    }
}

/// The description of `list_directory` of a vault.
pub open spec fn list_directory_paged() -> ToolDefView {
    ToolDefView {
        name: "list_directory"@,
        description: "List files and directories at a path within the root. Supports pagination via limit/offset. Returns total count."@,
        params: seq![
            typed("path"@, "string"@, "Path relative to root (default: '.')"@),
            typed("limit"@, "integer"@, "Max entries to return (default 100, max 200)"@),
            typed("offset"@, "integer"@, "Entries to skip for pagination (default 0)"@),
        ],
        required: seq!["path"@],
    }
}

fn describe_list_directory_paged() -> (r: ToolDef)
    ensures
        r@ == list_directory_paged(),
{
    let params: Vec<Param> = vec![
        typed_param("path", "string", "Path relative to root (default: '.')"),
        typed_param("limit", "integer", "Max entries to return (default 100, max 200)"),
        typed_param("offset", "integer", "Entries to skip for pagination (default 0)"),
    ];
    let required: Vec<String> = vec!["path".to_owned()];
    assert(sorting::views(params@) =~= list_directory_paged().params);
    assert(text::texts(required@) =~= list_directory_paged().required);
    ToolDef {
        name: "list_directory".to_owned(),
        description: "List files and directories at a path within the root. Supports pagination via limit/offset. Returns total count.".to_owned(),
        params,
        required,
    }
}

/// The description of `read_file` of a folder.
pub open spec fn read_file_plain() -> ToolDefView {
    ToolDefView {
        name: "read_file"@,
        description: "Read text content of a file within the root. Returns error for binary files. Max 10 MB."@,
        params: seq![
            typed("path"@, "string"@, "Path relative to root"@),
        ],
        required: seq!["path"@],
    }
}

fn describe_read_file_plain() -> (r: ToolDef)
    ensures
        r@ == read_file_plain(),
{
    let params: Vec<Param> = vec![
        typed_param("path", "string", "Path relative to root"),
    ];
    let required: Vec<String> = vec!["path".to_owned()];
    assert(sorting::views(params@) =~= read_file_plain().params);
    assert(text::texts(required@) =~= read_file_plain().required);
    ToolDef {
        name: "read_file".to_owned(),
        description: "Read text content of a file within the root. Returns error for binary files. Max 10 MB.".to_owned(),
        params,
        required,
    }
}

/// The description of `read_file` of a vault.
pub open spec fn read_file_ranged() -> ToolDefView {
    ToolDefView {
        name: "read_file"@,
        description: "Read text content of a file within the root. Optionally specify start_line/end_line for chunked reading (max 500 lines per call). Returns binary-file error if not UTF-8. Max 10 MB."@,
        params: seq![
            typed("path"@, "string"@, "Path relative to root"@),
            typed("start_line"@, "integer"@, "First line to read, 1-indexed (optional)"@),
            typed("end_line"@, "integer"@, "Last line to read, inclusive (optional)"@),
        ],
        required: seq!["path"@],
    }
}

fn describe_read_file_ranged() -> (r: ToolDef)
    ensures
        r@ == read_file_ranged(),
{
    let params: Vec<Param> = vec![
        typed_param("path", "string", "Path relative to root"),
        typed_param("start_line", "integer", "First line to read, 1-indexed (optional)"),
        typed_param("end_line", "integer", "Last line to read, inclusive (optional)"),
    ];
    let required: Vec<String> = vec!["path".to_owned()];
    assert(sorting::views(params@) =~= read_file_ranged().params);
    assert(text::texts(required@) =~= read_file_ranged().required);
    ToolDef {
        name: "read_file".to_owned(),
        description: "Read text content of a file within the root. Optionally specify start_line/end_line for chunked reading (max 500 lines per call). Returns binary-file error if not UTF-8. Max 10 MB.".to_owned(),
        params,
        required,
    }
}

/// The description of `write_file`.
pub open spec fn write_file() -> ToolDefView {
    ToolDefView {
        name: "write_file"@,
        description: "Write (or overwrite) a text file within the root. Atomic write via tempfile."@,
        params: seq![
            typed("path"@, "string"@, "Path relative to root"@),
            typed("content"@, "string"@, "Text content to write"@),
        ],
        required: seq!["path"@, "content"@],
    }
}

fn describe_write_file() -> (r: ToolDef)
    ensures
        r@ == write_file(),
{
    let params: Vec<Param> = vec![
        typed_param("path", "string", "Path relative to root"),
        typed_param("content", "string", "Text content to write"),
    ];
    let required: Vec<String> = vec!["path".to_owned(), "content".to_owned()];
    assert(sorting::views(params@) =~= write_file().params);
    assert(text::texts(required@) =~= write_file().required);
    ToolDef {
        name: "write_file".to_owned(),
        description: "Write (or overwrite) a text file within the root. Atomic write via tempfile.".to_owned(),
        params,
        required,
    }
}

/// The description of `append_file`.
pub open spec fn append_file() -> ToolDefView {
    ToolDefView {
        name: "append_file"@,
        description: "Append text to an existing file within the root."@,
        params: seq![
            typed("path"@, "string"@, "Path relative to root (file must exist)"@),
            typed("content"@, "string"@, "Text to append"@),
        ],
        required: seq!["path"@, "content"@],
    }
}

fn describe_append_file() -> (r: ToolDef)
    ensures
        r@ == append_file(),
{
    let params: Vec<Param> = vec![
        typed_param("path", "string", "Path relative to root (file must exist)"),
        typed_param("content", "string", "Text to append"),
    ];
    let required: Vec<String> = vec!["path".to_owned(), "content".to_owned()];
    assert(sorting::views(params@) =~= append_file().params);
    assert(text::texts(required@) =~= append_file().required);
    ToolDef {
        name: "append_file".to_owned(),
        description: "Append text to an existing file within the root.".to_owned(),
        params,
        required,
    }
}

/// The description of `move_file`.
pub open spec fn move_file() -> ToolDefView {
    ToolDefView {
        name: "move_file"@,
        description: "Move (rename) a file or directory within the root. Destination must not exist."@,
        params: seq![
            typed("src"@, "string"@, "Source path relative to root"@),
            typed("dst"@, "string"@, "Destination path relative to root"@),
        ],
        required: seq!["src"@, "dst"@],
    }
}

fn describe_move_file() -> (r: ToolDef)
    ensures
        r@ == move_file(),
{
    let params: Vec<Param> = vec![
        typed_param("src", "string", "Source path relative to root"),
        typed_param("dst", "string", "Destination path relative to root"),
    ];
    let required: Vec<String> = vec!["src".to_owned(), "dst".to_owned()];
    assert(sorting::views(params@) =~= move_file().params);
    assert(text::texts(required@) =~= move_file().required);
    ToolDef {
        name: "move_file".to_owned(),
        description: "Move (rename) a file or directory within the root. Destination must not exist.".to_owned(),
        params,
        required,
    }
}

/// The description of `search_files` of a folder.
pub open spec fn search_files_plain() -> ToolDefView {
    ToolDefView {
        name: "search_files"@,
        description: "Search .md and .txt files for a regex pattern. Returns up to 50 files with up to 5 matching lines each."@,
        params: seq![
            typed("query"@, "string"@, "Regex pattern to search for"@),
            typed("path"@, "string"@, "Path relative to root to search within (default: root)"@),
        ],
        required: seq!["query"@],
    }
}

fn describe_search_files_plain() -> (r: ToolDef)
    ensures
        r@ == search_files_plain(),
{
    let params: Vec<Param> = vec![
        typed_param("query", "string", "Regex pattern to search for"),
        typed_param("path", "string", "Path relative to root to search within (default: root)"),
    ];
    let required: Vec<String> = vec!["query".to_owned()];
    assert(sorting::views(params@) =~= search_files_plain().params);
    assert(text::texts(required@) =~= search_files_plain().required);
    ToolDef {
        name: "search_files".to_owned(),
        description: "Search .md and .txt files for a regex pattern. Returns up to 50 files with up to 5 matching lines each.".to_owned(),
        params,
        required,
    }
}

/// The description of `search_files` of a vault.
pub open spec fn search_files_context() -> ToolDefView {
    ToolDefView {
        name: "search_files"@,
        description: "Search .md and .txt files for a regex pattern. Returns matching lines with surrounding context. Hard cap at 8000 chars of output."@,
        params: seq![
            typed("query"@, "string"@, "Regex pattern to search for"@),
            typed("path"@, "string"@, "Path relative to root to search within (default: root)"@),
            typed("context_lines"@, "integer"@, "Lines of context before/after each match (default 3, max 10)"@),
            typed("max_files"@, "integer"@, "Max files to return results from (default 20, max 50)"@),
        ],
        required: seq!["query"@],
    }
}

fn describe_search_files_context() -> (r: ToolDef)
    ensures
        r@ == search_files_context(),
{
    let params: Vec<Param> = vec![
        typed_param("query", "string", "Regex pattern to search for"),
        typed_param("path", "string", "Path relative to root to search within (default: root)"),
        typed_param("context_lines", "integer", "Lines of context before/after each match (default 3, max 10)"),
        typed_param("max_files", "integer", "Max files to return results from (default 20, max 50)"),
    ];
    let required: Vec<String> = vec!["query".to_owned()];
    assert(sorting::views(params@) =~= search_files_context().params);
    assert(text::texts(required@) =~= search_files_context().required);
    ToolDef {
        name: "search_files".to_owned(),
        description: "Search .md and .txt files for a regex pattern. Returns matching lines with surrounding context. Hard cap at 8000 chars of output.".to_owned(),
        params,
        required,
    }
}

/// The description of `delete_file`.
pub open spec fn delete_file() -> ToolDefView {
    ToolDefView {
        name: "delete_file"@,
        description: "Not supported. Always returns an error. Delete files manually."@,
        params: seq![
            typed("path"@, "string"@, "Path relative to root"@),
        ],
        required: seq!["path"@],
    }
}

fn describe_delete_file() -> (r: ToolDef)
    ensures
        r@ == delete_file(),
{
    let params: Vec<Param> = vec![
        typed_param("path", "string", "Path relative to root"),
    ];
    let required: Vec<String> = vec!["path".to_owned()];
    assert(sorting::views(params@) =~= delete_file().params);
    assert(text::texts(required@) =~= delete_file().required);
    ToolDef {
        name: "delete_file".to_owned(),
        description: "Not supported. Always returns an error. Delete files manually.".to_owned(),
        params,
        required,
    }
}

/// The description of `read_frontmatter`.
pub open spec fn read_frontmatter() -> ToolDefView {
    ToolDefView {
        name: "read_frontmatter"@,
        description: "Read YAML frontmatter from a Markdown file. Returns an empty object if no frontmatter is present."@,
        params: seq![
            typed("path"@, "string"@, "Path relative to root (must exist)"@),
        ],
        required: seq!["path"@],
    }
}

fn describe_read_frontmatter() -> (r: ToolDef)
    ensures
        r@ == read_frontmatter(),
{
    let params: Vec<Param> = vec![
        typed_param("path", "string", "Path relative to root (must exist)"),
    ];
    let required: Vec<String> = vec!["path".to_owned()];
    assert(sorting::views(params@) =~= read_frontmatter().params);
    assert(text::texts(required@) =~= read_frontmatter().required);
    ToolDef {
        name: "read_frontmatter".to_owned(),
        description: "Read YAML frontmatter from a Markdown file. Returns an empty object if no frontmatter is present.".to_owned(),
        params,
        required,
    }
}

/// The description of `write_frontmatter`.
pub open spec fn write_frontmatter() -> ToolDefView {
    ToolDefView {
        name: "write_frontmatter"@,
        description: "Set or update a single key in the YAML frontmatter of a Markdown file. Creates frontmatter if absent."@,
        params: seq![
            typed("path"@, "string"@, "Path relative to root (must exist)"@),
            typed("key"@, "string"@, "Frontmatter key to set"@),
            ParamView { name: "value"@, kind: None, choices: seq![], description: "Value to set (string, number, boolean, array, or object)"@ },
        ],
        required: seq!["path"@, "key"@, "value"@],
    }
}

fn describe_write_frontmatter() -> (r: ToolDef)
    ensures
        r@ == write_frontmatter(),
{
    let params: Vec<Param> = vec![
        typed_param("path", "string", "Path relative to root (must exist)"),
        typed_param("key", "string", "Frontmatter key to set"),
        any_param("value", "Value to set (string, number, boolean, array, or object)"),
    ];
    let required: Vec<String> = vec!["path".to_owned(), "key".to_owned(), "value".to_owned()];
    assert(sorting::views(params@) =~= write_frontmatter().params);
    assert(text::texts(required@) =~= write_frontmatter().required);
    ToolDef {
        name: "write_frontmatter".to_owned(),
        description: "Set or update a single key in the YAML frontmatter of a Markdown file. Creates frontmatter if absent.".to_owned(),
        params,
        required,
    }
}

/// The description of `patch_file`.
pub open spec fn patch_file() -> ToolDefView {
    ToolDefView {
        name: "patch_file"@,
        description: "Patch a section of a Markdown file identified by a heading or frontmatter key. Supports append, prepend, and replace operations."@,
        params: seq![
            typed("path"@, "string"@, "Path relative to root (must exist)"@),
            one_of("target_type"@, seq!["heading"@, "frontmatter"@], "Whether the target is a heading or a frontmatter key"@),
            typed("target"@, "string"@, "Heading text (case-insensitive) or frontmatter key name"@),
            one_of("operation"@, seq!["append"@, "prepend"@, "replace"@], "How to apply the patch"@),
            typed("content"@, "string"@, "Content to insert"@),
        ],
        required: seq!["path"@, "target_type"@, "target"@, "operation"@, "content"@],
    }
}

fn describe_patch_file() -> (r: ToolDef)
    ensures
        r@ == patch_file(),
{
    let target_type_choices = vec!["heading".to_owned(), "frontmatter".to_owned()];
    assert(text::texts(target_type_choices@) =~= seq!["heading"@, "frontmatter"@]);
    let operation_choices = vec!["append".to_owned(), "prepend".to_owned(), "replace".to_owned()];
    assert(text::texts(operation_choices@) =~= seq!["append"@, "prepend"@, "replace"@]);
    let params: Vec<Param> = vec![
        typed_param("path", "string", "Path relative to root (must exist)"),
        choice_param("target_type", target_type_choices, "Whether the target is a heading or a frontmatter key"),
        typed_param("target", "string", "Heading text (case-insensitive) or frontmatter key name"),
        choice_param("operation", operation_choices, "How to apply the patch"),
        typed_param("content", "string", "Content to insert"),
    ];
    let required: Vec<String> = vec!["path".to_owned(), "target_type".to_owned(), "target".to_owned(), "operation".to_owned(), "content".to_owned()];
    assert(sorting::views(params@) =~= patch_file().params);
    assert(text::texts(required@) =~= patch_file().required);
    ToolDef {
        name: "patch_file".to_owned(),
        description: "Patch a section of a Markdown file identified by a heading or frontmatter key. Supports append, prepend, and replace operations.".to_owned(),
        params,
        required,
    }
}

/// The description of `list_tags`.
pub open spec fn list_tags() -> ToolDefView {
    ToolDefView {
        name: "list_tags"@,
        description: "List all #tags (inline and frontmatter tags:) in Markdown files, sorted by frequency."@,
        params: seq![
            typed("path"@, "string"@, "Optional path relative to root to search within (default: entire vault)"@),
        ],
        required: seq![],
    }
}

fn describe_list_tags() -> (r: ToolDef)
    ensures
        r@ == list_tags(),
{
    let params: Vec<Param> = vec![
        typed_param("path", "string", "Optional path relative to root to search within (default: entire vault)"),
    ];
    let required: Vec<String> = vec![];
    assert(sorting::views(params@) =~= list_tags().params);
    assert(text::texts(required@) =~= list_tags().required);
    ToolDef {
        name: "list_tags".to_owned(),
        description: "List all #tags (inline and frontmatter tags:) in Markdown files, sorted by frequency.".to_owned(),
        params,
        required,
    }
}

/// The description of `periodic_note_path`.
pub open spec fn periodic_note_path() -> ToolDefView {
    ToolDefView {
        name: "periodic_note_path"@,
        description: "Resolve the file path for a periodic note (daily/weekly/monthly/quarterly/yearly). Reads .obsidian plugin config for folder and format. Returns the relative path including .md extension."@,
        params: seq![
            one_of("period"@, seq!["daily"@, "weekly"@, "monthly"@, "quarterly"@, "yearly"@], "Period type"@),
            typed("date"@, "string"@, "ISO date string YYYY-MM-DD (default: today)"@),
        ],
        required: seq!["period"@],
    }
}

fn describe_periodic_note_path() -> (r: ToolDef)
    ensures
        r@ == periodic_note_path(),
{
    let period_choices = vec!["daily".to_owned(), "weekly".to_owned(), "monthly".to_owned(), "quarterly".to_owned(), "yearly".to_owned()];
    assert(text::texts(period_choices@) =~= seq!["daily"@, "weekly"@, "monthly"@, "quarterly"@, "yearly"@]);
    let params: Vec<Param> = vec![
        choice_param("period", period_choices, "Period type"),
        typed_param("date", "string", "ISO date string YYYY-MM-DD (default: today)"),
    ];
    let required: Vec<String> = vec!["period".to_owned()];
    assert(sorting::views(params@) =~= periodic_note_path().params);
    assert(text::texts(required@) =~= periodic_note_path().required);
    ToolDef {
        name: "periodic_note_path".to_owned(),
        description: "Resolve the file path for a periodic note (daily/weekly/monthly/quarterly/yearly). Reads .obsidian plugin config for folder and format. Returns the relative path including .md extension.".to_owned(),
        params,
        required,
    }
}

/// The description of `get_vault_outline`.
pub open spec fn get_vault_outline() -> ToolDefView {
    ToolDefView {
        name: "get_vault_outline"@,
        description: "Get a tree view of the vault structure with note titles extracted from frontmatter. Capped at 300 nodes."@,
        params: seq![
            typed("depth"@, "integer"@, "Max depth to traverse (default 2, max 5)"@),
        ],
        required: seq![],
    }
}

fn describe_get_vault_outline() -> (r: ToolDef)
    ensures
        r@ == get_vault_outline(),
{
    let params: Vec<Param> = vec![
        typed_param("depth", "integer", "Max depth to traverse (default 2, max 5)"),
    ];
    let required: Vec<String> = vec![];
    assert(sorting::views(params@) =~= get_vault_outline().params);
    assert(text::texts(required@) =~= get_vault_outline().required);
    ToolDef {
        name: "get_vault_outline".to_owned(),
        description: "Get a tree view of the vault structure with note titles extracted from frontmatter. Capped at 300 nodes.".to_owned(),
        params,
        required,
    }
}

/// The description of `get_note_structure`.
pub open spec fn get_note_structure() -> ToolDefView {
    ToolDefView {
        name: "get_note_structure"@,
        description: "Get the heading outline and frontmatter key names of a note without loading full content into context."@,
        params: seq![
            typed("path"@, "string"@, "Path relative to root"@),
        ],
        required: seq!["path"@],
    }
}

fn describe_get_note_structure() -> (r: ToolDef)
    ensures
        r@ == get_note_structure(),
{
    let params: Vec<Param> = vec![
        typed_param("path", "string", "Path relative to root"),
    ];
    let required: Vec<String> = vec!["path".to_owned()];
    assert(sorting::views(params@) =~= get_note_structure().params);
    assert(text::texts(required@) =~= get_note_structure().required);
    ToolDef {
        name: "get_note_structure".to_owned(),
        description: "Get the heading outline and frontmatter key names of a note without loading full content into context.".to_owned(),
        params,
        required,
    }
}

/// How a server describes a tool.
pub open spec fn def_of(server: Server, tool: Tool) -> ToolDefView {
    match tool {
        Tool::ListDirectory => match server {
            Server::Filesystem => list_directory_plain(),
            Server::Vault => list_directory_paged(),
        },
        Tool::ReadFile => match server {
            Server::Filesystem => read_file_plain(),
            Server::Vault => read_file_ranged(),
        },
        Tool::WriteFile => write_file(),
        Tool::AppendFile => append_file(),
        Tool::MoveFile => move_file(),
        Tool::SearchFiles => match server {
            Server::Filesystem => search_files_plain(),
            Server::Vault => search_files_context(),
        },
        Tool::DeleteFile => delete_file(),
        Tool::ReadFrontmatter => read_frontmatter(),
        Tool::WriteFrontmatter => write_frontmatter(),
        Tool::PatchFile => patch_file(),
        Tool::ListTags => list_tags(),
        Tool::PeriodicNotePath => periodic_note_path(),
        Tool::GetVaultOutline => get_vault_outline(),
        Tool::GetNoteStructure => get_note_structure(),
    }
}

/// How a server describes a tool.
pub fn describe(server: Server, tool: Tool) -> (r: ToolDef)
    ensures
        r@ == def_of(server, tool),
{
    match tool {
        Tool::ListDirectory => match server {
            Server::Filesystem => describe_list_directory_plain(),
            Server::Vault => describe_list_directory_paged(),
        },
        Tool::ReadFile => match server {
            Server::Filesystem => describe_read_file_plain(),
            Server::Vault => describe_read_file_ranged(),
        },
        Tool::WriteFile => describe_write_file(),
        Tool::AppendFile => describe_append_file(),
        Tool::MoveFile => describe_move_file(),
        Tool::SearchFiles => match server {
            Server::Filesystem => describe_search_files_plain(),
            Server::Vault => describe_search_files_context(),
        },
        Tool::DeleteFile => describe_delete_file(),
        Tool::ReadFrontmatter => describe_read_frontmatter(),
        Tool::WriteFrontmatter => describe_write_frontmatter(),
        Tool::PatchFile => describe_patch_file(),
        Tool::ListTags => describe_list_tags(),
        Tool::PeriodicNotePath => describe_periodic_note_path(),
        Tool::GetVaultOutline => describe_get_vault_outline(),
        Tool::GetNoteStructure => describe_get_note_structure(),
    }
}

/// The descriptions of the tools of a server as JSON.
pub open spec fn defs_tree(server: Server) -> Tree {
    Tree::Array(tools_of(server).map_values(|t: Tool| def_of(server, t).tree()))
}

/// The descriptions of the tools of a server.
pub fn tool_defs(server: Server) -> (r: Json)
    ensures
        r.tree() == defs_tree(server),
{
    let list = list_tools(server);
    let mut out: Vec<Json> = Vec::new();
    let mut i: usize = 0;
    while i < list.len()
        invariant
            i <= list@.len(),
            out@.len() == i,
            forall|k: int| 0 <= k < i ==> (#[trigger] out@[k]).tree() == def_of(server, list@[k]).tree(),
        decreases list@.len() - i,
    {
        out.push(describe(server, list[i]).to_json());
        i += 1;
    }
    assert(json::trees(out@) =~= list@.map_values(|t: Tool| def_of(server, t).tree()));
    Json::array(out)
}

// ── Laws ──────────────────────────────────────────────────────────────────────

proof fn found_where_listed(list: Seq<Tool>, name: Seq<char>)
    ensures
        tool_named(list, name) is Some <==> exists|i: int| 0 <= i < list.len() && (#[trigger] list[i]).spec_name() == name,
        tool_named(list, name) matches Some(t) ==> t.spec_name() == name && list.contains(t),
    decreases list.len(),
{
    if list.len() > 0 && list[0].spec_name() != name {
        let rest = list.drop_first();
        found_where_listed(rest, name);
        if let Some(t) = tool_named(rest, name) {
            let i = choose|i: int| 0 <= i < rest.len() && (#[trigger] rest[i]).spec_name() == name;
            assert(list[i + 1].spec_name() == name);
            let j = choose|j: int| 0 <= j < rest.len() && rest[j] == t;
            assert(list[j + 1] == t);
        } else {
            assert forall|i: int| 0 <= i < list.len() implies (#[trigger] list[i]).spec_name() != name by {
                if i > 0 {
                    assert(rest[i - 1] == list[i]);
                }
            }
        }
    } else if list.len() > 0 {
        assert(list[0].spec_name() == name);
    }
}

/// The tools that a server lists are those that it finds by their names: a name is
/// found if and only if a description with that name is listed.
pub proof fn listed_tools_are_found(server: Server, name: Seq<char>)
    ensures
        tool_named(tools_of(server), name) is Some <==> exists|i: int|
            0 <= i < tools_of(server).len() && def_of(server, #[trigger] tools_of(server)[i]).name == name,
        tool_named(tools_of(server), name) matches Some(t) ==> def_of(server, t).name == name,
{
    let list = tools_of(server);
    found_where_listed(list, name);
    assert forall|t: Tool| #[trigger] def_of(server, t).name == t.spec_name() by {}
    if exists|i: int| 0 <= i < list.len() && def_of(server, #[trigger] list[i]).name == name {
        let i = choose|i: int| 0 <= i < list.len() && def_of(server, #[trigger] list[i]).name == name;
        assert(list[i].spec_name() == name);
    }
    if exists|i: int| 0 <= i < list.len() && (#[trigger] list[i]).spec_name() == name {
        let i = choose|i: int| 0 <= i < list.len() && (#[trigger] list[i]).spec_name() == name;
        assert(def_of(server, list[i]).name == name);
    }
}

/// Every tool that a folder has, a vault has too.
pub proof fn vaults_have_the_tools_of_folders(tool: Tool)
    requires
        tools_of(Server::Filesystem).contains(tool),
    ensures
        tools_of(Server::Vault).contains(tool),
{
    let f = tools_of(Server::Filesystem);
    let v = tools_of(Server::Vault);
    let i = choose|i: int| 0 <= i < f.len() && f[i] == tool;
    assert(v[i] == tool);
}

/// Tools that differ have names that differ, in their lengths or in their first letters.
proof fn names_differ(a: Tool, b: Tool)
    requires
        a != b,
    ensures
        a.spec_name() != b.spec_name(),
{
    reveal_strlit("list_directory");
    reveal_strlit("read_file");
    reveal_strlit("write_file");
    reveal_strlit("append_file");
    reveal_strlit("move_file");
    reveal_strlit("search_files");
    reveal_strlit("delete_file");
    reveal_strlit("read_frontmatter");
    reveal_strlit("write_frontmatter");
    reveal_strlit("patch_file");
    reveal_strlit("list_tags");
    reveal_strlit("periodic_note_path");
    reveal_strlit("get_vault_outline");
    reveal_strlit("get_note_structure");
    assert(a.spec_name().len() != b.spec_name().len() || a.spec_name()[0] != b.spec_name()[0]);
}

/// The tools that a server lists have different names.
pub proof fn listed_names_differ(server: Server, i: int, j: int)
    requires
        0 <= i < j < tools_of(server).len(),
    ensures
        def_of(server, tools_of(server)[i]).name != def_of(server, tools_of(server)[j]).name,
{
    let list = tools_of(server);
    assert forall|t: Tool| #[trigger] def_of(server, t).name == t.spec_name() by {}
    assert(list[i] != list[j]);
    names_differ(list[i], list[j]);
}

/// Each argument that a tool needs is the parameter at the same place.
proof fn needed_come_first(server: Server, tool: Tool, i: int)
    requires
        0 <= i < def_of(server, tool).required.len(),
    ensures
        i < def_of(server, tool).params.len(),
        def_of(server, tool).params[i].name == def_of(server, tool).required[i],
{
}

/// In the description of each tool, every argument that the tool needs is one of the
/// properties.
pub proof fn needed_arguments_are_described(server: Server, n: int)
    requires
        0 <= n < tools_of(server).len(),
    ensures
        defs_tree(server)->Array_0[n] == def_of(server, tools_of(server)[n]).tree(),
        ({
            let schema = defs_tree(server)->Array_0[n].field("inputSchema"@);
            schema.field("required"@) matches Tree::Array(a) && forall|i: int|
                0 <= i < a.len() ==> ((#[trigger] a[i]) matches Tree::Text(name) && schema.field(
                    "properties"@,
                ).has_field(name))
        }),
{
    let d = def_of(server, tools_of(server)[n]);
    let entry = d.tree();
    let m = entry->Object_0;
    reveal_strlit("name");
    reveal_strlit("description");
    reveal_strlit("inputSchema");
    reveal_strlit("type");
    reveal_strlit("properties");
    reveal_strlit("required");
    assert("description"@[0] == 'd' && "inputSchema"@[0] == 'i');
    json::member_index_is_first(m, "inputSchema"@);
    assert(m[2].0 == "inputSchema"@);
    let schema = entry.field("inputSchema"@);
    let sm = schema->Object_0;
    json::member_index_is_first(sm, "required"@);
    assert(sm[2].0 == "required"@);
    json::member_index_is_first(sm, "properties"@);
    assert(sm[1].0 == "properties"@);
    assert(schema.field("required"@) == string_array(d.required));
    let a = string_array(d.required)->Array_0;
    let props = schema.field("properties"@)->Object_0;
    assert forall|i: int| 0 <= i < a.len() implies ((#[trigger] a[i]) matches Tree::Text(name) && schema.field(
        "properties"@,
    ).has_field(name)) by {
        needed_come_first(server, tools_of(server)[n], i);
        json::member_index_is_first(props, d.required[i]);
        assert(props[i].0 == d.required[i]);
    }
}

/// The name of a tool that is listed finds that tool, and no other.
pub proof fn names_find_their_tools(server: Server, i: int)
    requires
        0 <= i < tools_of(server).len(),
    ensures
        tool_named(tools_of(server), tools_of(server)[i].spec_name()) == Some(tools_of(server)[i]),
{
    let list = tools_of(server);
    let tool = list[i];
    found_where_listed(list, tool.spec_name());
    assert(list[i].spec_name() == tool.spec_name());
    let t = tool_named(list, tool.spec_name())->0;
    if t != tool {
        names_differ(t, tool);
    }
}

/// The names of the tools.
pub proof fn names_of_the_tools()
    ensures
        Tool::ListDirectory.spec_name() == "list_directory"@,
        Tool::ReadFile.spec_name() == "read_file"@,
        Tool::WriteFile.spec_name() == "write_file"@,
        Tool::AppendFile.spec_name() == "append_file"@,
        Tool::MoveFile.spec_name() == "move_file"@,
        Tool::SearchFiles.spec_name() == "search_files"@,
        Tool::DeleteFile.spec_name() == "delete_file"@,
        Tool::ReadFrontmatter.spec_name() == "read_frontmatter"@,
        Tool::WriteFrontmatter.spec_name() == "write_frontmatter"@,
        Tool::PatchFile.spec_name() == "patch_file"@,
        Tool::ListTags.spec_name() == "list_tags"@,
        Tool::PeriodicNotePath.spec_name() == "periodic_note_path"@,
        Tool::GetVaultOutline.spec_name() == "get_vault_outline"@,
        Tool::GetNoteStructure.spec_name() == "get_note_structure"@,
{
}

/// A vault has fourteen tools and a folder the first seven of them.
pub proof fn tools_that_there_are()
    ensures
        tools_of(Server::Filesystem) == seq![
            Tool::ListDirectory,
            Tool::ReadFile,
            Tool::WriteFile,
            Tool::AppendFile,
            Tool::MoveFile,
            Tool::SearchFiles,
            Tool::DeleteFile,
        ],
        tools_of(Server::Vault).take(7) == tools_of(Server::Filesystem),
        tools_of(Server::Vault).skip(7) == seq![
            Tool::ReadFrontmatter,
            Tool::WriteFrontmatter,
            Tool::PatchFile,
            Tool::ListTags,
            Tool::PeriodicNotePath,
            Tool::GetVaultOutline,
            Tool::GetNoteStructure,
        ],
{
    let f = tools_of(Server::Filesystem);
    let v = tools_of(Server::Vault);
    assert(v.take(7) =~= f);
    assert(v.skip(7) =~= seq![
        Tool::ReadFrontmatter,
        Tool::WriteFrontmatter,
        Tool::PatchFile,
        Tool::ListTags,
        Tool::PeriodicNotePath,
        Tool::GetVaultOutline,
        Tool::GetNoteStructure,
    ]);
}

} // verus!
