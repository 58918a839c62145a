//! The tools, with a host that keeps its files in memory.

use std::collections::BTreeMap;
use std::path::PathBuf;

use overfry::dir_cache::DirCache;
use overfry::error::AppError;
use overfry::file_server::{audit_call, call_tool, record_call, Root};
use overfry::filesystem_server;
use overfry::host::{Place, Resolved, WalkEntry, WalkItem};
use overfry::json;
use overfry::json::Json;
use overfry::listing::DirEntry;
use overfry::models::{AuditResult, Timestamp};
use overfry::obsidian_fs_server;
use overfry::outline::{after_dir, after_head, Kind, OutlineEntry, OutlineStep};
use overfry::security::{after_canonical, Canonical};
use overfry::tool_defs::Server;
use overfry::tools::{
    after_bytes, after_copy, after_entries, after_existing, after_key, after_note, after_outline, after_removal,
    after_rename, after_replacement, after_resolution, after_settings, after_size, after_test, after_walk,
    after_walked, Renamed, Step, Test, ToolStep,
};
use uuid::Uuid;

/// A folder in memory, by the paths of its files below the root.
struct Memory {
    files: BTreeMap<String, String>,
    cache: DirCache,
    renames: bool,
}

fn memory(files: &[(&str, &str)]) -> Memory {
    Memory {
        files: files.iter().map(|(k, v)| (k.to_string(), v.to_string())).collect(),
        cache: DirCache::new(),
        renames: true,
    }
}

fn shown(path: &PathBuf) -> String {
    path.display().to_string()
}

fn key_of(path: &str) -> Vec<u8> {
    path.as_bytes().to_vec()
}

fn place_of(path: &str) -> Place {
    Place { path: PathBuf::from(path), key: key_of(path) }
}

fn parent_of(path: &str) -> Option<String> {
    if path.is_empty() {
        None
    } else {
        Some(path.rfind('/').map(|i| path[..i].to_string()).unwrap_or_default())
    }
}

impl Memory {
    fn is_dir(&self, path: &str) -> bool {
        path.is_empty() || self.files.keys().any(|k| k.starts_with(&format!("{path}/")))
    }

    fn resolve(&self, requested: &str, must_exist: bool) -> Result<Resolved, AppError> {
        let mut parts: Vec<Vec<u8>> = vec![b"root".to_vec()];
        for p in requested.split('/') {
            match p {
                "" | "." => {}
                ".." => {
                    parts.pop();
                }
                p => parts.push(p.as_bytes().to_vec()),
            }
        }
        let names: Vec<String> =
            parts.iter().skip(1).map(|p| String::from_utf8(p.clone()).unwrap()).collect();
        let path = names.join("/");
        if must_exist && !self.files.contains_key(&path) && !self.is_dir(&path) && parts.len() > 1 {
            return Err(AppError::Io("not found".to_string()));
        }
        let resolved = Resolved { place: place_of(&path), parent: parent_of(&path).map(|p| place_of(&p)) };
        let root = vec![b"root".to_vec()];
        after_canonical(requested, Ok(Canonical { root, path: parts, missing: vec![], resolved }))
    }

    fn entries(&self, dir: &str) -> Vec<(String, String, bool)> {
        let prefix = if dir.is_empty() { String::new() } else { format!("{dir}/") };
        let mut out: Vec<(String, String, bool)> = Vec::new();
        for k in self.files.keys() {
            if let Some(rest) = k.strip_prefix(&prefix) {
                let (name, is_dir) = match rest.find('/') {
                    Some(i) => (rest[..i].to_string(), true),
                    None => (rest.to_string(), false),
                };
                if !out.iter().any(|(n, _, _)| *n == name) {
                    out.push((name.clone(), format!("{prefix}{name}"), is_dir));
                }
            }
        }
        out
    }

    fn walk_entry(&self, i: usize) -> WalkItem {
        match self.files.iter().nth(i) {
            Some((k, v)) => WalkItem::Entry(WalkEntry {
                path: PathBuf::from(k),
                display: k.clone(),
                is_file: true,
                extension: k.rsplit('.').next().unwrap().to_string(),
                size: v.len() as u64,
            }),
            None => WalkItem::End,
        }
    }

    fn outline(&self, step: OutlineStep) -> OutlineStep {
        match step {
            OutlineStep::ReadDir { name, path, outline } => {
                let entries = self
                    .entries(&shown(&path))
                    .into_iter()
                    .map(|(n, p, is_dir)| OutlineEntry {
                        path: PathBuf::from(p),
                        key: n.as_bytes().to_vec(),
                        extension: n.rsplit('.').next().unwrap().to_string(),
                        kind: if is_dir { Kind::Directory } else { Kind::File },
                        name: n,
                    })
                    .collect();
                after_dir(name, outline, Some(entries))
            }
            OutlineStep::ReadHead { name, path, outline } => {
                let head = self.files.get(&shown(&path)).map(|s| s.as_bytes().to_vec());
                after_head(name, outline, head)
            }
            done => done,
        }
    }

    fn run(&mut self, first: ToolStep) -> Result<String, AppError> {
        let mut step = first;
        let mut walked = 0;
        loop {
            step = match step {
                Step::Key { relative, requested, shape } => {
                    after_key(requested, shape, key_of(relative.trim_matches('.')), &self.cache)
                }
                Step::Resolve { requested, task } => after_resolution(task, self.resolve(&requested, true)),
                Step::ResolveWritable { requested, task } => after_resolution(task, self.resolve(&requested, false)),
                Step::ReadDir { path, key, shape, .. } => {
                    let entries = self
                        .entries(&shown(&path))
                        .into_iter()
                        .map(|(name, p, is_dir)| DirEntry {
                            name,
                            is_dir,
                            size: self.files.get(&p).map(|s| s.len() as u64),
                        })
                        .collect();
                    after_entries(key, shape, Ok(entries), &mut self.cache)
                }
                Step::Size { path, task } => {
                    let size = self.files.get(&shown(&path)).map(|s| s.len() as u64);
                    after_size(task, size.ok_or("not found".to_string()))
                }
                Step::ReadBytes { path, range } => {
                    let bytes = self.files.get(&shown(&path)).map(|s| s.as_bytes().to_vec());
                    after_bytes(range, bytes.ok_or("not found".to_string()))
                }
                Step::ReadNote { path, at, note } => after_note(at, note, self.files.get(&shown(&path)).cloned()),
                Step::ReadExisting { path, at, content } => {
                    let existing = self.files.get(&shown(&path)).cloned();
                    after_existing(at, content, existing.ok_or("not found".to_string()))
                }
                Step::Test { path, test, task } => {
                    let path = shown(&path);
                    let is_there = match test {
                        Test::Canonical | Test::Stat | Test::Exists => {
                            self.files.contains_key(&path) || self.is_dir(&path)
                        }
                    };
                    after_test(task, is_there)
                }
                Step::Replace { target, content, discard, message, .. } => {
                    self.files.insert(shown(&target), content);
                    after_replacement(discard, message, Ok(()), &mut self.cache)
                }
                Step::Rename { from, to, src, dir } => {
                    let outcome = if self.renames {
                        let content = self.files.remove(&shown(&from)).unwrap();
                        self.files.insert(shown(&to), content);
                        Renamed::Done
                    } else {
                        Renamed::Failed { os_code: Some(18), crosses_devices: false, message: "EXDEV".to_string() }
                    };
                    after_rename(from, to, src, dir, outcome, &mut self.cache)
                }
                Step::Copy { from, to, src, dir } => {
                    let content = self.files.get(&shown(&from)).cloned().unwrap();
                    self.files.insert(shown(&to), content);
                    after_copy(from, src, dir, Ok(()))
                }
                Step::Remove { path, src, dir } => {
                    self.files.remove(&shown(&path));
                    after_removal(src, dir, Ok(()), &mut self.cache)
                }
                Step::Walk { task, .. } | Step::WalkOn { task } => {
                    walked += 1;
                    after_walk(task, self.walk_entry(walked - 1))
                }
                Step::ReadWalked { path, display, task } => {
                    after_walked(task, display, self.files.get(&shown(&path)).cloned())
                }
                Step::ReadSettings { relative, settings, period, date } => {
                    after_settings(settings, period, date, self.files.get(&relative).cloned())
                }
                Step::Outline(o) => after_outline(self.outline(o)),
                Step::Done(r) => return r,
            };
        }
    }

    fn call(&mut self, server: Server, name: &str, args: &str) -> Result<String, AppError> {
        let root = Root { path: PathBuf::from(""), name: "vault".to_string() };
        self.run(call_tool(server, Some(root), name, &json::parse(args.as_bytes()).unwrap()))
    }

    fn vault(&mut self, name: &str, args: &str) -> Result<String, AppError> {
        self.call(Server::Vault, name, args)
    }

    fn folder(&mut self, name: &str, args: &str) -> Result<String, AppError> {
        self.call(Server::Filesystem, name, args)
    }
}

fn error_of(r: Result<String, AppError>) -> String {
    r.unwrap_err().message()
}

// ── Starting ──────────────────────────────────────────────────────────────────

#[test]
fn servers_without_a_root_answer_nothing() {
    let step = filesystem_server::call_tool(None, "read_file", &Json::Null);
    assert_eq!(error_of(memory(&[]).run(step)), "no root paths configured");
    let step = obsidian_fs_server::call_tool(None, "read_file", &Json::Null);
    assert_eq!(error_of(memory(&[]).run(step)), "no root paths configured");
}

#[test]
fn unknown_tools_are_refused() {
    assert_eq!(error_of(memory(&[]).folder("fly", "{}")), "unknown tool: fly");
    assert_eq!(error_of(memory(&[]).folder("list_tags", "{}")), "unknown tool: list_tags");
}

#[test]
fn arguments_are_required() {
    let mut m = memory(&[]);
    assert_eq!(error_of(m.folder("read_file", "{}")), "path required");
    assert_eq!(error_of(m.folder("write_file", "{\"path\":\"a\"}")), "content required");
    assert_eq!(error_of(m.folder("append_file", "{}")), "path required");
    assert_eq!(error_of(m.folder("move_file", "{\"src\":\"a\"}")), "dst required");
    assert_eq!(error_of(m.folder("search_files", "{}")), "query required");
    assert_eq!(error_of(m.vault("write_frontmatter", "{\"path\":\"a\",\"key\":\"k\"}")), "value required");
    assert_eq!(error_of(m.vault("periodic_note_path", "{}")), "period required");
    let patch = "{\"path\":\"a\",\"target_type\":\"heading\",\"target\":\"A\",\"operation\":\"append\"}";
    assert_eq!(error_of(m.vault("patch_file", patch)), "content required");
}

#[test]
fn paths_outside_the_root_are_refused() {
    let mut m = memory(&[("a", "x")]);
    assert_eq!(
        error_of(m.folder("read_file", "{\"path\":\"../a\"}")),
        "path traversal attempt: path escapes root: ../a"
    );
    assert_eq!(
        error_of(m.folder("write_file", "{\"path\":\"../../a\",\"content\":\"\"}")),
        "path traversal attempt: path escapes root: ../../a"
    );
}

// ── Files ─────────────────────────────────────────────────────────────────────

#[test]
fn files_are_written_and_read_back() {
    let mut m = memory(&[]);
    assert_eq!(m.folder("write_file", "{\"path\":\"a\",\"content\":\"one\"}").unwrap(), "written successfully");
    assert_eq!(m.folder("read_file", "{\"path\":\"a\"}").unwrap(), "one");
}

#[test]
fn files_are_written_into_directories_that_are_there() {
    let e = error_of(memory(&[]).folder("write_file", "{\"path\":\"d/a\",\"content\":\"one\"}"));
    assert_eq!(e, "parent directory does not exist");
}

#[test]
fn files_are_appended_to() {
    let mut m = memory(&[("a", "one\n")]);
    assert_eq!(m.folder("append_file", "{\"path\":\"a\",\"content\":\"two\"}").unwrap(), "appended successfully");
    assert_eq!(m.files["a"], "one\ntwo");
}

#[test]
fn files_are_moved() {
    let mut m = memory(&[("a", "x"), ("d/b", "y")]);
    assert_eq!(m.folder("move_file", "{\"src\":\"a\",\"dst\":\"d/c\"}").unwrap(), "moved successfully");
    assert_eq!(m.files.get("a"), None);
    assert_eq!(m.files["d/c"], "x");
}

#[test]
fn files_are_copied_and_removed_where_renaming_cannot_be_done() {
    let mut m = memory(&[("a", "x"), ("d/b", "y")]);
    m.renames = false;
    assert_eq!(m.folder("move_file", "{\"src\":\"a\",\"dst\":\"d/c\"}").unwrap(), "moved successfully");
    assert_eq!(m.files.get("a"), None);
    assert_eq!(m.files["d/c"], "x");
}

#[test]
fn moves_overwrite_nothing() {
    let mut m = memory(&[("a", "x"), ("b", "y")]);
    let e = error_of(m.folder("move_file", "{\"src\":\"a\",\"dst\":\"b\"}"));
    assert_eq!(e, "operation not permitted: destination already exists");
    let e = error_of(m.folder("move_file", "{\"src\":\"a\",\"dst\":\"d/b\"}"));
    assert_eq!(e, "dst parent directory does not exist");
    assert_eq!(m.files["a"], "x");
}

#[test]
fn nothing_is_deleted() {
    let mut m = memory(&[("a", "x")]);
    let e = error_of(m.vault("delete_file", "{\"path\":\"a\"}"));
    assert_eq!(e, "operation not permitted: deletion not supported — delete files manually");
    assert_eq!(m.files["a"], "x");
}

#[test]
fn files_that_are_too_large_are_not_read() {
    let big = "x".repeat(10 * 1024 * 1024 + 1);
    let mut m = memory(&[("a", &big)]);
    assert_eq!(error_of(m.folder("read_file", "{\"path\":\"a\"}")), "file too large: 10485761 bytes");
}

#[test]
fn lines_of_a_file_in_a_vault() {
    let mut m = memory(&[("a.md", "one\ntwo\nthree\n")]);
    let s = m.vault("read_file", "{\"path\":\"a.md\",\"start_line\":2,\"end_line\":2}").unwrap();
    assert_eq!(s, "two\n\n[Lines 2–2 of 3 total]");
}

// ── Listings ──────────────────────────────────────────────────────────────────

#[test]
fn directories_are_listed() {
    let mut m = memory(&[("b", "xy"), ("a/c", "")]);
    let j = json::parse(m.folder("list_directory", "{}").unwrap().as_bytes()).unwrap();
    assert_eq!(
        json::to_text(&j),
        "[{\"name\":\"a\",\"type\":\"directory\",\"size\":null},{\"name\":\"b\",\"type\":\"file\",\"size\":2}]"
    );
}

#[test]
fn listings_come_from_the_cache_until_something_is_written() {
    let mut m = memory(&[("a", "x")]);
    let first = m.folder("list_directory", "{}").unwrap();
    m.files.insert("b".to_string(), "y".to_string());
    assert_eq!(m.folder("list_directory", "{}").unwrap(), first);
    m.folder("write_file", "{\"path\":\"c\",\"content\":\"\"}").unwrap();
    let second = m.folder("list_directory", "{}").unwrap();
    assert!(second.contains("\"b\"") && second.contains("\"c\""));
}

#[test]
fn vaults_are_listed_by_pages() {
    let mut m = memory(&[("a", ""), ("b", ""), ("c", "")]);
    let s = m.vault("list_directory", "{\"offset\":1,\"limit\":1}").unwrap();
    assert!(!s.contains("\"a\""));
    assert!(s.contains("\"b\""));
    assert!(!s.contains("\"c\""));
}

// ── Searches ──────────────────────────────────────────────────────────────────

#[test]
fn files_are_searched() {
    let mut m = memory(&[("a.md", "one\ntwo\n"), ("b.md", "three\n")]);
    let s = m.folder("search_files", "{\"query\":\"t[wh]\"}").unwrap();
    assert!(s.contains("a.md") && s.contains("b.md") && s.contains("two"));
    let s = m.vault("search_files", "{\"query\":\"two\",\"context_lines\":1}").unwrap();
    assert!(s.contains("a.md") && s.contains("one") && !s.contains("three"));
}

#[test]
fn patterns_that_do_not_compile_are_refused() {
    let e = error_of(memory(&[]).vault("search_files", "{\"query\":\"(\"}"));
    assert!(e.starts_with("invalid regex: "));
    let long = "a".repeat(257);
    let e = error_of(memory(&[]).vault("search_files", &format!("{{\"query\":\"{long}\"}}")));
    assert_eq!(e, "query pattern exceeds 256 characters");
}

// ── Notes ─────────────────────────────────────────────────────────────────────

#[test]
fn frontmatter_of_notes_is_read_and_written() {
    let mut m = memory(&[("a.md", "---\nk: v\n---\nBody")]);
    assert!(m.vault("read_frontmatter", "{\"path\":\"a.md\"}").unwrap().contains("\"k\": \"v\""));
    let s = m.vault("write_frontmatter", "{\"path\":\"a.md\",\"key\":\"k\",\"value\":2}").unwrap();
    assert_eq!(s, "frontmatter updated successfully");
    assert_eq!(m.files["a.md"], "---\nk: 2\n---\nBody");
}

#[test]
fn notes_are_patched_in_place() {
    let mut m = memory(&[("a.md", "# A\nx\n")]);
    let args = "{\"path\":\"a.md\",\"target_type\":\"heading\",\"target\":\"A\",\"operation\":\"append\",\"content\":\"y\\n\"}";
    assert_eq!(m.vault("patch_file", args).unwrap(), "patch applied successfully");
    assert_eq!(m.files["a.md"], "# A\nx\ny\n");
}

#[test]
fn tags_are_counted_over_the_notes() {
    let mut m = memory(&[("a.md", "#x #y\n"), ("b.md", "---\ntags: [x]\n---\n"), ("c.txt", "#z")]);
    let s = m.vault("list_tags", "{}").unwrap();
    let j = json::parse(s.as_bytes()).unwrap().field("tags");
    assert_eq!(j.u64_field("x"), Some(2));
    assert_eq!(j.u64_field("y"), Some(1));
    assert!(j.get("z").is_none());
}

#[test]
fn structures_of_notes() {
    let mut m = memory(&[("a.md", "---\nk: v\n---\n# A\n")]);
    let s = m.vault("get_note_structure", "{\"path\":\"a.md\"}").unwrap();
    assert!(s.contains("\"A\"") && s.contains("\"k\""));
}

#[test]
fn paths_of_periodic_notes() {
    let daily = "{\"period\":\"daily\",\"date\":\"2025-03-15\"}";
    assert_eq!(memory(&[]).vault("periodic_note_path", daily).unwrap(), "2025-03-15.md");
    let mut m = memory(&[(".obsidian/daily-notes.json", "{\"folder\":\"Days\"}")]);
    assert_eq!(m.vault("periodic_note_path", daily).unwrap(), "Days/2025-03-15.md");
    let plugin = "{\"daily\":{\"folder\":\"P\",\"format\":\"YYYY/MM\"}}";
    let mut m = memory(&[(".obsidian/plugins/periodic-notes/data.json", plugin)]);
    assert_eq!(m.vault("periodic_note_path", daily).unwrap(), "P/2025/03.md");
    let outside = "{\"daily\":{\"folder\":\"..\",\"format\":\"YYYY\"}}";
    let mut m = memory(&[(".obsidian/plugins/periodic-notes/data.json", outside)]);
    assert!(error_of(m.vault("periodic_note_path", daily)).starts_with("computed path escapes vault: "));
}

#[test]
fn outlines_of_vaults() {
    let mut m = memory(&[("a.md", "---\ntitle: First\n---\n"), ("d/b.md", "text"), ("e.txt", "")]);
    let s = m.vault("get_vault_outline", "{}").unwrap();
    assert!(s.contains("First"));
    assert!(s.contains("\"d\""));
    assert!(s.contains("b.md"));
    let s = m.vault("get_vault_outline", "{\"depth\":1}").unwrap();
    assert!(!s.contains("b.md"));
}

#[test]
fn outlines_list_directories_before_notes_by_name() {
    let mut m = memory(&[("b.md", ""), ("a.md", ""), ("z/x.md", ""), ("c/y.md", ""), (".h/n.md", ""), ("t.txt", "")]);
    let s = m.vault("get_vault_outline", "{\"depth\":1}").unwrap();
    let at = |name: &str| s.find(&format!("\"{name}\"")).unwrap();
    assert!(at("c") < at("z") && at("z") < at("a.md") && at("a.md") < at("b.md"));
    assert!(!s.contains(".h") && !s.contains("t.txt"));
}

#[test]
fn outlines_stop_after_three_hundred_entries() {
    let names: Vec<String> = (0..400).map(|i| format!("{i:03}.md")).collect();
    let files: Vec<(&str, &str)> = names.iter().map(|n| (n.as_str(), "")).collect();
    let s = memory(&files).vault("get_vault_outline", "{}").unwrap();
    assert_eq!(s.matches("\"note\"").count(), 300);
    assert_eq!(s.matches("...truncated").count(), 1);
}

#[test]
fn tools_that_read_change_nothing() {
    let mut m = memory(&[("a.md", "---\nk: v\n---\n# A\n#tag\n"), ("d/b.md", "text")]);
    let before = m.files.clone();
    let calls = [
        ("list_directory", "{}"),
        ("read_file", "{\"path\":\"a.md\"}"),
        ("search_files", "{\"query\":\"t\"}"),
        ("delete_file", "{\"path\":\"a.md\"}"),
        ("read_frontmatter", "{\"path\":\"a.md\"}"),
        ("list_tags", "{}"),
        ("periodic_note_path", "{\"period\":\"daily\"}"),
        ("get_vault_outline", "{}"),
        ("get_note_structure", "{\"path\":\"a.md\"}"),
    ];
    for (name, args) in calls {
        let _ = m.vault(name, args);
    }
    assert!(m.files == before);
}

// ── Records ───────────────────────────────────────────────────────────────────

#[test]
fn calls_are_recorded() {
    let args = json::parse(b"{\"path\":\"a\"}").unwrap();
    let refused: Result<String, AppError> = Err(AppError::PathTraversal("a".to_string()));
    let (id, connection) = (Uuid::new_v4(), Uuid::new_v4());
    let e = audit_call(id, Timestamp { seconds: 5, nanos: 6 }, connection, "read_file", &args, &refused);
    assert_eq!((e.id, e.connection_id, e.timestamp.seconds), (id, connection, 5));
    assert_eq!((e.tool_name.as_str(), e.path), ("read_file", Some("a".to_string())));
    assert!(matches!(e.result, AuditResult::Denied(_)));
    let e = record_call(connection, "list_tags", &Json::Null, &Ok("x".to_string()));
    assert!(e.timestamp.seconds > 1_600_000_000);
    assert_eq!(e.path, None);
    assert!(matches!(e.result, AuditResult::Success));
}
