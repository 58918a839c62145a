//! Searches, tags and listings by themselves.

use std::path::PathBuf;

use overfry::host::{add_capped, WalkEntry, Want};
use overfry::json;
use overfry::json::Json;
use overfry::listing::{list_page, list_whole, DirEntry};
use overfry::search::{check_query, compile_query, report_plain, report_with_context, ContextSearch, PlainSearch};
use overfry::tags::Tags;

fn file(name: &str, size: u64) -> WalkEntry {
    WalkEntry {
        path: PathBuf::from(name),
        display: name.to_string(),
        is_file: true,
        extension: name.rsplit('.').next().unwrap().to_string(),
        size,
    }
}

fn entry(name: &str, is_dir: bool) -> DirEntry {
    DirEntry { name: name.to_string(), is_dir, size: None }
}

#[test]
fn search_files_rejects_long_query() {
    let long_query = "a".repeat(257);
    assert!(long_query.len() > 256);
    assert_eq!(check_query(&long_query).unwrap_err().message(), "query pattern exceeds 256 characters");
    assert!(check_query(&"a".repeat(256)).is_ok());
}

#[test]
fn patterns_are_compiled() {
    assert!(compile_query("a+b").is_ok());
    assert!(compile_query("(").unwrap_err().message().starts_with("invalid regex: "));
    assert!(compile_query("(a{1000}){1000}").is_err());
}

#[test]
fn plain_reports_number_the_lines() {
    let lines: Vec<String> = vec!["a".to_string(), "b".to_string(), "c".to_string()];
    let found = report_plain(&vec![false, true, true], &lines);
    assert_eq!(found.len(), 2);
    assert!(json::to_text(&found[0]).contains("2"));
    assert!(json::to_text(&found[0]).contains("b"));
}

#[test]
fn plain_reports_hold_five_lines() {
    let lines: Vec<String> = (0..9).map(|i| format!("l{i}")).collect();
    assert_eq!(report_plain(&vec![true; 9], &lines).len(), 5);
}

#[test]
fn reports_with_context_hold_the_lines_around() {
    let lines: Vec<String> = (0..9).map(|i| format!("l{i}")).collect();
    let marks: Vec<bool> = (0..9).map(|i| i == 4).collect();
    let found = report_with_context(&marks, &lines, 1);
    assert_eq!(found.len(), 1);
    let s = json::to_text(&found[0]);
    assert!(s.contains("l3") && s.contains("l4") && s.contains("l5"));
    assert!(!s.contains("l2") && !s.contains("l6"));
}

#[test]
fn plain_searches_stop_after_fifty_files() {
    let mut s = PlainSearch::new(compile_query("x").unwrap());
    for i in 0..60 {
        let e = file(&format!("{i}.md"), 1);
        match s.consider(&e) {
            Want::Stop => {
                assert_eq!(i, 50);
                return;
            }
            _ => s.read(&e.display, "x"),
        }
    }
    panic!("not stopped");
}

#[test]
fn searches_pass_over_large_files_and_directories() {
    let s = PlainSearch::new(compile_query("x").unwrap());
    assert!(matches!(s.consider(&file("a.md", 10 * 1024 * 1024 + 1)), Want::Skip));
    let mut d = file("d", 0);
    d.is_file = false;
    assert!(matches!(s.consider(&d), Want::Skip));
}

#[test]
fn context_searches_end_with_their_size() {
    let mut s = ContextSearch::new(compile_query("x").unwrap(), 0, 50);
    let long = "x".repeat(9000);
    assert!(matches!(s.consider(&file("a.md", 9000)), Want::Read));
    assert!(s.read("a.md", &long));
    let j = s.to_json();
    assert!(json::to_text(&j).contains("\"truncated\":true"));
}

#[test]
fn tags_are_sorted_by_their_counts() {
    let mut t = Tags::new();
    t.count("b");
    t.count("a");
    t.count("b");
    t.count_all(&vec!["c".to_string(), "c".to_string(), "c".to_string()]);
    assert_eq!(json::to_text(&t.to_json()), "{\"tags\":{\"c\":3,\"b\":2,\"a\":1}}");
}

fn shown(answer: &str) -> (Json, usize) {
    assert!(answer.chars().count() <= 8000);
    let j = json::parse(answer.as_bytes()).unwrap();
    let files = match j.field("results") {
        Json::Array(a) => a.len(),
        _ => panic!("no results"),
    };
    (j, files)
}

#[test]
fn answers_with_context_stay_json_and_leave_matches_out() {
    let mut s = ContextSearch::new(compile_query("x").unwrap(), 0, 50);
    assert!(!s.read("a.md", "x\n"));
    assert!(s.read("b.md", &"xé\n".repeat(3000)));
    let (j, files) = shown(&s.result());
    assert_eq!(files, 2);
    assert!(matches!(j.field("truncated"), Json::Bool(true)));
    assert_eq!(j.u64_field("total_matches"), Some(3001));
    assert!(json::to_text(&j).matches("xé").count() > 50);
}

#[test]
fn matches_without_room_are_left_out() {
    let mut s = ContextSearch::new(compile_query("x").unwrap(), 0, 50);
    assert!(s.read("a.md", &"x".repeat(9000)));
    let (j, files) = shown(&s.result());
    assert_eq!(files, 0);
    assert!(matches!(j.field("truncated"), Json::Bool(true)));
}

#[test]
fn answers_with_room_are_whole() {
    let mut s = ContextSearch::new(compile_query("x").unwrap(), 0, 50);
    assert!(!s.read("a.md", "x\ny\nx\n"));
    let whole = json::to_pretty(&s.to_json());
    assert!(!whole.contains("truncated"));
    assert_eq!(s.result(), whole);
}

#[test]
fn only_notes_have_tags() {
    let t = Tags::new();
    assert!(matches!(t.consider(&file("a.md", 1)), Want::Read));
    assert!(matches!(t.consider(&file("a.txt", 1)), Want::Skip));
}

#[test]
fn listings_put_directories_first_by_name() {
    let s = list_whole(vec![entry("z", false), entry("d", true), entry("a", false)]);
    let (a, z, d) = (s.find("\"a\"").unwrap(), s.find("\"z\"").unwrap(), s.find("\"d\"").unwrap());
    assert!(d < a && a < z);
}

#[test]
fn pages_follow_one_another() {
    let all = || vec![entry("b", false), entry("a", false), entry("c", false)];
    let first = list_page(all(), 0, 2);
    let second = list_page(all(), 2, 2);
    assert!(first.contains("\"a\"") && first.contains("\"b\"") && !first.contains("\"c\""));
    assert!(second.contains("\"c\"") && !second.contains("\"a\""));
    let past = list_page(all(), 9, 2);
    assert!(!past.contains("\"a\""));
}

#[test]
fn listings_of_more_than_a_thousand_entries_are_cut() {
    let many = |n: usize| (0..n).map(|i| entry(&format!("{i:05}"), false)).collect::<Vec<DirEntry>>();
    let cut = json::parse(list_page(many(1001), 0, 200).as_bytes()).unwrap();
    assert_eq!(cut.u64_field("total"), Some(1000));
    assert!(matches!(cut.field("truncated"), Json::Bool(true)));
    match cut.field("entries") {
        Json::Array(a) => assert_eq!(a.len(), 200),
        _ => panic!("no entries"),
    }
    let whole = json::parse(list_page(many(1000), 999, 200).as_bytes()).unwrap();
    assert!(whole.get("truncated").is_none());
    match whole.field("entries") {
        Json::Array(a) => assert_eq!(a[0].str_field("name"), Some("00999".to_string())),
        _ => panic!("no entries"),
    }
}

#[test]
fn sums_stay_within_their_type() {
    assert_eq!(add_capped(1, 2), 3);
    assert_eq!(add_capped(u64::MAX, 2), u64::MAX);
}
