//! The ports of connections.

use overfry::port_manager::{
    assign_port, next_free_port, release_port, suggest_port, validate_and_reassign, PortConfig,
};
use overfry::string_map::StringMap;

fn make_cfg(assignments: Vec<(&str, u16)>) -> PortConfig {
    let mut map: StringMap<u16> = StringMap::new();
    for (k, v) in assignments {
        map.insert(k, v);
    }
    PortConfig { base: 50000, max: 59999, assignments: map }
}

fn all_free(_port: u16) -> bool {
    true
}

fn none_free(_port: u16) -> bool {
    false
}

#[test]
fn assign_uses_requested_when_free() {
    let mut cfg = make_cfg(vec![]);
    let free = next_free_port(50000, 59999, &cfg.assignments, None, &all_free).unwrap();
    let port = assign_port(&mut cfg, "conn-1", Some(free), &all_free).unwrap();
    assert_eq!(port, free);
}

#[test]
fn assign_skips_already_assigned() {
    let mut cfg = make_cfg(vec![("conn-1", 50000)]);
    let port = assign_port(&mut cfg, "conn-2", Some(50000), &all_free).unwrap();
    assert_ne!(port, 50000);
    assert!(port >= 50000 && port <= 59999);
}

#[test]
fn release_removes_assignment() {
    let mut cfg = make_cfg(vec![("conn-1", 50001)]);
    release_port(&mut cfg, "conn-1");
    assert!(!cfg.assignments.contains_key("conn-1"));
}

#[test]
fn suggest_returns_requested_when_free() {
    let cfg = make_cfg(vec![]);
    assert_eq!(suggest_port(&cfg, Some(50005), &all_free), 50005);
}

#[test]
fn suggest_skips_assigned() {
    let cfg = make_cfg(vec![("x", 50000)]);
    let s = suggest_port(&cfg, Some(50000), &all_free);
    assert_ne!(s, 50000);
}

#[test]
fn assigned_ports_are_kept() {
    let mut cfg = make_cfg(vec![]);
    assert_eq!(assign_port(&mut cfg, "a", None, &all_free).unwrap(), 50000);
    assert_eq!(assign_port(&mut cfg, "b", None, &all_free).unwrap(), 50001);
    assert_eq!(cfg.assignments.get("a"), Some(&50000));
    assert_eq!(cfg.assignments.get("b"), Some(&50001));
}

#[test]
fn ports_in_use_are_passed_over() {
    let busy = |p: u16| p >= 50003;
    let cfg = make_cfg(vec![]);
    assert_eq!(next_free_port(50000, 59999, &cfg.assignments, Some(50003), &busy), Some(50004));
    assert_eq!(suggest_port(&cfg, Some(50001), &busy), 50003);
}

#[test]
fn without_a_free_port_none_is_assigned() {
    let mut cfg = make_cfg(vec![]);
    let e = assign_port(&mut cfg, "a", None, &none_free).unwrap_err();
    assert!(e.message().starts_with("port conflict: "));
    assert!(cfg.assignments.get("a").is_none());
    assert_eq!(suggest_port(&cfg, None, &none_free), 50000);
}

#[test]
fn ports_that_were_taken_are_assigned_anew() {
    let mut cfg = make_cfg(vec![("a", 50000), ("b", 50001)]);
    let free = |p: u16| p != 50000;
    let changed = validate_and_reassign(&mut cfg, &free);
    assert_eq!(changed, vec![("a".to_string(), 50000, 50002)]);
    assert_eq!(cfg.assignments.get("a"), Some(&50002));
    assert_eq!(cfg.assignments.get("b"), Some(&50001));
}

#[test]
fn new_ports_differ_and_were_nobodys() {
    let mut cfg = make_cfg(vec![("a", 50000), ("b", 50000), ("c", 50001), ("d", 50003)]);
    let free = |p: u16| p > 50002;
    let moved = validate_and_reassign(&mut cfg, &free);
    let mut new: Vec<u16> = moved.iter().map(|m| m.2).collect();
    new.sort();
    assert_eq!(new, vec![50004, 50005, 50006]);
    assert_eq!(cfg.assignments.get("d"), Some(&50003));
}
