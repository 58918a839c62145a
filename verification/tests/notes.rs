//! Headings, tags, front matter and lines of notes.

use overfry::error::AppError;
use overfry::frontmatter::{
    assemble, parse_frontmatter, patch_frontmatter, patch_key, reconstruct_file, serialize_frontmatter, set_key,
    write_key,
};
use overfry::json;
use overfry::json::Json;
use overfry::notes::{
    extract_frontmatter_keys, extract_frontmatter_tags, extract_headings, extract_inline_tags, extract_title,
    find_heading_section, level_of, patch_heading, read_lines, text_of,
};
use overfry::tools::{note_structure, patch_note};

fn json_of(s: &str) -> Json {
    json::parse(s.as_bytes()).unwrap()
}

fn section_of<'a>(content: &'a str, heading: &str) -> &'a str {
    let (_, start, end) = find_heading_section(content, heading).unwrap();
    &content[start..end]
}

// ── Sections ──────────────────────────────────────────────────────────────────

#[test]
fn find_heading_section_basic() {
    let content = "# Hello\nsome content\n## Subheading\nmore\n# Other\nend";
    let result = find_heading_section(content, "Hello");
    assert!(result.is_some());
    let (_, start, end) = result.unwrap();
    let section = &content[start..end];
    assert!(section.contains("some content"));
    assert!(!section.contains("end"));
}

#[test]
fn find_heading_section_to_eof() {
    let content = "# Hello\ncontent here\n";
    let result = find_heading_section(content, "Hello");
    assert!(result.is_some());
    let (_, start, end) = result.unwrap();
    let section = &content[start..end];
    assert!(section.contains("content here"));
}

#[test]
fn find_heading_section_missing() {
    let content = "# Hello\ncontent\n";
    let result = find_heading_section(content, "NotHere");
    assert!(result.is_none());
}

#[test]
fn find_heading_section_crlf() {
    // The section of a heading goes on over headings below it, up to the next one of its
    // level.
    let content = "# Heading One\r\nContent line\r\n## Sub\r\nMore\r\n# Other\r\n";
    let result = find_heading_section(content, "Heading One");
    assert!(result.is_some());
    let (_, start, end) = result.unwrap();
    assert!(start <= end);
    assert!(end <= content.len());
    let section = &content[start..end];
    assert!(section.contains("Content line"));
    assert!(!section.contains("# Other"));
}

#[test]
fn find_heading_section_eof_no_trailing_newline() {
    let content = "# Heading\nContent without trailing newline";
    let result = find_heading_section(content, "Heading");
    assert!(result.is_some());
    let (_, start, end) = result.unwrap();
    assert!(end <= content.len());
    let _ = &content[start..end];
}

#[test]
fn find_heading_section_crlf_byte_offsets() {
    let content = "# H1\r\nLine A\r\nLine B\r\n# H2\r\nOther\r\n";
    let result = find_heading_section(content, "H1");
    assert!(result.is_some());
    let (_, start, end) = result.unwrap();
    assert!(start <= end);
    assert!(end <= content.len());
    let section = &content[start..end];
    assert!(section.contains("Line A"));
    assert!(section.contains("Line B"));
    assert!(!section.contains("# H2"));
}

#[test]
fn section_offsets_count_bytes() {
    let content = "é\n# Ü\nö\n# X\n";
    assert_eq!(find_heading_section(content, "Ü"), Some((8, 8, 11)));
    assert_eq!(section_of(content, "Ü"), "ö\n");
}

#[test]
fn section_of_a_heading_without_end_of_line_is_empty() {
    assert_eq!(find_heading_section("# A", "A"), Some((3, 3, 3)));
}

#[test]
fn sections_are_replaced_and_read_back() {
    let content = "intro\n# A\nold\n## B\nsub\n# C\nrest\n";
    let new = patch_heading(content, "A", "replace", "new\n").unwrap();
    assert_eq!(new, "intro\n# A\nnew\n# C\nrest\n");
    assert_eq!(section_of(&new, "A"), "new\n");
    assert_eq!(section_of(&new, "C"), "rest\n");
}

#[test]
fn sections_are_appended_to_and_prepended_to() {
    let content = "# A\nold\n\n# C\nrest\n";
    assert_eq!(patch_heading(content, "A", "append", "more\n").unwrap(), "# A\nold\nmore\n# C\nrest\n");
    assert_eq!(patch_heading(content, "A", "prepend", "first").unwrap(), "# A\nfirst\nold\n\n# C\nrest\n");
}

#[test]
fn patches_need_a_heading_and_an_operation() {
    assert_eq!(patch_heading("# A\n", "B", "replace", "x").unwrap_err().message(), "heading not found: B");
    assert_eq!(patch_heading("# A\n", "A", "swap", "x").unwrap_err().message(), "unknown operation: swap");
}

#[test]
fn levels_and_texts_of_headings() {
    assert_eq!(level_of("### Deep"), 3);
    assert_eq!(level_of("no heading"), 0);
    assert_eq!(text_of("## Two words "), "Two words");
}

// ── Front matter ──────────────────────────────────────────────────────────────

#[test]
fn parse_frontmatter_with_yaml() {
    let content = "---\ntitle: Test\ntags:\n  - rust\n---\nBody here";
    let (fm, body) = parse_frontmatter(content);
    assert_eq!(fm.field("title").as_str(), Some("Test".to_string()));
    assert!(body.contains("Body here"));
}

#[test]
fn parse_frontmatter_no_frontmatter() {
    let content = "Just body content";
    let (fm, body) = parse_frontmatter(content);
    match fm {
        Json::Object(m) => assert_eq!(m.len(), 0),
        _ => panic!("no object"),
    }
    assert!(body.contains("Just body content"));
}

#[test]
fn frontmatter_comes_with_its_members_in_order() {
    let (fm, body) = parse_frontmatter("---\nb: 1\na: x\n---\nText");
    assert_eq!(json::to_text(&fm), "{\"a\":\"x\",\"b\":1}");
    assert_eq!(body, "Text");
}

#[test]
fn files_are_assembled_of_yaml_and_body() {
    assert_eq!(assemble("a: 1\n", "Body"), "---\na: 1\n---\nBody");
    let fm = json_of("{\"a\":\"x\"}");
    assert_eq!(serialize_frontmatter(&fm).unwrap(), "a: x\n");
    assert_eq!(reconstruct_file(&fm, "Body").unwrap(), "---\na: x\n---\nBody");
}

#[test]
fn keys_are_written_and_read_back() {
    let new = write_key("---\na: 1\n---\nBody", "b", Json::text("two")).unwrap();
    assert_eq!(new, "---\na: 1\nb: two\n---\nBody");
    let (fm, body) = parse_frontmatter(&new);
    assert_eq!(fm.str_field("b"), Some("two".to_string()));
    assert_eq!(fm.u64_field("a"), Some(1));
    assert_eq!(body, "Body");
    assert_eq!(set_key(json_of("{\"a\":1}"), "a", Json::text("z")).str_field("a"), Some("z".to_string()));
}

#[test]
fn frontmatter_is_patched() {
    let fm = json_of("{\"n\":\"one\",\"list\":[\"a\"]}");
    let fm = patch_frontmatter(fm, "n", "replace", "two").unwrap();
    assert_eq!(fm.str_field("n"), Some("two".to_string()));
    assert_eq!(json::to_text(&fm.field("list")), "[\"a\"]");
    let fm = patch_frontmatter(fm, "list", "append", "b").unwrap();
    assert_eq!(json::to_text(&fm.field("list")), "[\"a\",\"b\"]");
    let fm = patch_frontmatter(fm, "n", "append", "three").unwrap();
    assert_eq!(fm.str_field("n"), Some("two\nthree".to_string()));
    let fm = patch_frontmatter(fm, "n", "prepend", "one").unwrap();
    assert_eq!(fm.str_field("n"), Some("one\ntwo\nthree".to_string()));
    let e = patch_frontmatter(json_of("{}"), "n", "swap", "1").err().unwrap();
    assert_eq!(e.message(), "unknown operation: swap");
}

#[test]
fn notes_without_frontmatter_are_all_body() {
    for content in ["", "Hi", "\n\nx\r\ny\n", "---\ntitle: x\n", "text\n---\na: 1\n---\n", "---"] {
        let (fm, body) = parse_frontmatter(content);
        assert_eq!(json::to_text(&fm), "{}");
        assert_eq!(body, content);
    }
    assert_eq!(write_key("Hi", "a", Json::text("b")).unwrap(), "---\na: b\n---\nHi");
    let (fm, body) = parse_frontmatter("--- \r\na: b\n---\t\nText");
    assert_eq!((json::to_text(&fm), body), ("{\"a\":\"b\"}".to_string(), "Text".to_string()));
}

#[test]
fn frontmatter_of_a_note_is_patched() {
    let new = patch_key("---\na: one\n---\nBody", "a", "replace", "two").unwrap();
    assert_eq!(new, "---\na: two\n---\nBody");
}

#[test]
fn extract_frontmatter_keys_basic() {
    let content = "---\ntitle: Test\ntags:\n  - rust\ndate: 2025-01-01\n---\nBody";
    let keys = extract_frontmatter_keys(content);
    assert!(keys.contains(&"title".to_string()));
    assert!(keys.contains(&"date".to_string()));
}

#[test]
fn keys_stand_in_the_frontmatter() {
    let content = "---\ntitle: x\n1a: y\n_b-2: z\n---\n";
    let keys = extract_frontmatter_keys(content);
    assert_eq!(keys, vec!["title", "_b-2"]);
    for tail in ["other: y\n", "---\nmore: z\n---\n", ""] {
        assert_eq!(extract_frontmatter_keys(&format!("{content}{tail}")), keys);
    }
}

#[test]
fn texts_without_frontmatter_have_no_keys() {
    assert!(extract_frontmatter_keys("title: x\n").is_empty());
}

// ── Tags ──────────────────────────────────────────────────────────────────────

#[test]
fn extract_inline_tags_basic() {
    let body = "This has #rust and #obsidian/daily tags";
    let tags = extract_inline_tags(body);
    assert!(tags.contains(&"rust".to_string()));
    assert!(tags.contains(&"obsidian/daily".to_string()));
}

#[test]
fn inline_tags_start_with_a_letter() {
    assert_eq!(extract_inline_tags("#1 #a1 # b"), vec!["a1"]);
}

#[test]
fn extract_frontmatter_tags_list() {
    let fm = json_of("{ \"tags\": [\"rust\", \"dev\"] }");
    let tags = extract_frontmatter_tags(&fm);
    assert_eq!(tags, vec!["rust", "dev"]);
}

#[test]
fn extract_frontmatter_tags_string() {
    let fm = json_of("{ \"tags\": \"rust, dev, obsidian\" }");
    let tags = extract_frontmatter_tags(&fm);
    assert_eq!(tags, vec!["rust", "dev", "obsidian"]);
}

#[test]
fn tags_of_other_kinds_do_not_count() {
    assert!(extract_frontmatter_tags(&json_of("{ \"tags\": 3 }")).is_empty());
    assert!(extract_frontmatter_tags(&Json::Null).is_empty());
}

// ── Structure ─────────────────────────────────────────────────────────────────

#[test]
fn extract_headings_basic() {
    let content = "# Overview\n\nSome text\n\n## Section 1\n\nContent\n\n### Subsection\n";
    let headings = extract_headings(content);
    assert_eq!(headings.len(), 3);
    assert_eq!(headings[0].to_json().u64_field("level"), Some(1));
    assert_eq!(headings[0].to_json().str_field("text"), Some("Overview".to_string()));
    assert_eq!(headings[1].to_json().u64_field("level"), Some(2));
    assert_eq!(headings[2].to_json().u64_field("level"), Some(3));
}

#[test]
fn extract_headings_skips_frontmatter() {
    let content = "---\ntitle: My Note\n---\n\n# Real Heading\n";
    let headings = extract_headings(content);
    assert_eq!(headings.len(), 1);
    assert_eq!(headings[0].to_json().str_field("text"), Some("Real Heading".to_string()));
}

#[test]
fn titles_come_from_frontmatter() {
    let raw = b"---\ntags: x\ntitle: \"My Note\"\n---\n# Head\n".to_vec();
    assert_eq!(extract_title(&raw), Some("My Note".to_string()));
    assert_eq!(extract_title(&b"# Head\ntitle: No\n".to_vec()), None);
    assert_eq!(extract_title(&b"---\ntitle: ''\n---\n".to_vec()), None);
}

#[test]
fn titles_are_read_from_a_cut_text() {
    let mut raw = "---\ntitle: Café\n---\nü".as_bytes().to_vec();
    raw.pop();
    assert_eq!(extract_title(&raw), Some("Café".to_string()));
}

#[test]
fn structures_name_keys_and_headings() {
    let j = note_structure("---\ntitle: T\n---\n# A\n## B\n");
    let s = json::to_text(&j);
    assert!(s.contains("\"title\""));
    assert!(s.contains("\"A\""));
    assert!(s.contains("\"B\""));
}

#[test]
fn notes_are_patched_by_the_kind_of_their_target() {
    assert_eq!(patch_note("# A\nx\n", "heading", "A", "replace", "y\n").unwrap(), "# A\ny\n");
    let e = patch_note("# A\nx\n", "block", "A", "replace", "y\n").unwrap_err();
    assert_eq!(e.message(), "unknown target_type: block");
}

// ── Lines ─────────────────────────────────────────────────────────────────────

#[test]
fn whole_texts_are_read_without_a_range() {
    assert_eq!(read_lines("a\nb\n".to_string(), None, None).unwrap(), "a\nb\n");
}

#[test]
fn ranges_of_lines_are_read_with_their_place() {
    let s = read_lines("a\nb\nc\nd\n".to_string(), Some(2), Some(3)).unwrap();
    assert_eq!(s, "b\nc\n\n[Lines 2–3 of 4 total]");
    let s = read_lines("a\nb\n".to_string(), None, Some(9)).unwrap();
    assert_eq!(s, "a\nb\n\n[Lines 1–2 of 2 total]");
}

#[test]
fn ranges_of_five_hundred_lines_are_read() {
    let content = "x\n".repeat(600);
    let s = read_lines(content.clone(), Some(1), Some(500)).unwrap();
    assert_eq!(s.matches('x').count(), 500);
    assert!(s.ends_with("[Lines 1–500 of 600 total]"));
    assert!(read_lines(content, Some(1), Some(501)).is_err());
}

#[test]
fn ranges_of_lines_are_refused() {
    let refused = |start: u64, end: u64| match read_lines("a\n".to_string(), Some(start), Some(end)) {
        Err(AppError::Other(m)) => m,
        _ => panic!("not refused"),
    };
    assert_eq!(refused(0, 1), "start_line must be >= 1");
    assert_eq!(refused(2, 1), "end_line must be >= start_line");
    assert_eq!(refused(1, 501), "line range exceeds 500 lines");
    assert_eq!(refused(3, 4), "start_line 3 exceeds file length 1");
}
