//! The blacklist and the bypass paths.

use limen::storage::{BlacklistEntry, BypassPath, Storage};

fn strings(v: &[&str]) -> Vec<String> {
    v.iter().map(|s| s.to_string()).collect()
}

#[test]
fn rows_of_the_tables_are_kept() {
    let s = Storage::open(&strings(&["1.1.1.1", "2.2.2.2", "1.1.1.1"]), &strings(&["/a/", "/b"]));
    assert!(s.is_banned("1.1.1.1"));
    assert!(s.is_banned("2.2.2.2"));
    assert!(!s.is_banned("3.3.3.3"));
    assert_eq!(s.banned_count(), 2);
}

#[test]
fn pattern_with_a_slash_at_its_end_is_a_prefix() {
    let s = Storage::open(&Vec::new(), &strings(&["/internal/", "/health"]));
    assert!(s.is_bypass("/internal/"));
    assert!(s.is_bypass("/internal/x/y"));
    assert!(!s.is_bypass("/internal"));
    assert!(s.is_bypass("/health"));
    assert!(!s.is_bypass("/health/"));
    assert!(!s.is_bypass("/healthy"));
    assert!(!s.is_bypass(""));
}

#[test]
fn empty_pattern_matches_the_empty_path_only() {
    let s = Storage::open(&Vec::new(), &strings(&[""]));
    assert!(s.is_bypass(""));
    assert!(!s.is_bypass("/"));
}

#[test]
fn blacklist_follows_its_table() {
    let mut s = Storage::open(&Vec::new(), &Vec::new());
    assert!(s.add_blacklist("1.1.1.1", 1));
    assert!(s.is_banned("1.1.1.1"));
    assert!(!s.add_blacklist("1.1.1.1", 0));
    assert_eq!(s.banned_count(), 1);
    assert!(!s.add_blacklist("9.9.9.9", 0));
    assert!(!s.is_banned("9.9.9.9"));
    assert!(s.remove_blacklist("1.1.1.1", 1));
    assert!(!s.is_banned("1.1.1.1"));
    assert!(!s.remove_blacklist("1.1.1.1", 0));
}

#[test]
fn emptied_blacklist_bans_nobody() {
    let mut s = Storage::open(&strings(&["1.1.1.1", "2.2.2.2"]), &strings(&["/a"]));
    assert_eq!(s.clear_blacklist(3), 3);
    assert_eq!(s.banned_count(), 0);
    assert!(!s.is_banned("1.1.1.1"));
    assert!(s.is_bypass("/a"));
    assert_eq!(s.clear_blacklist(0), 0);
}

#[test]
fn bypass_paths_follow_their_table() {
    let mut s = Storage::open(&Vec::new(), &Vec::new());
    assert!(s.add_bypass("/x/", 1));
    assert!(s.add_bypass("/y", 1));
    assert!(s.is_bypass("/x/1"));
    assert!(s.is_bypass("/y"));
    assert!(!s.add_bypass("/z", 0));
    assert!(!s.is_bypass("/z"));
    assert!(!s.remove_bypass("/x/", 0));
    assert!(s.is_bypass("/x/1"));
    assert!(s.remove_bypass("/x/", 1));
    assert!(!s.is_bypass("/x/1"));
    assert!(s.remove_bypass("/y", 1));
    assert!(!s.is_bypass("/y"));
}

#[test]
fn rows_are_copied_whole() {
    let p = BypassPath { pattern: "/a".to_string(), comment: "c".to_string(), created_at: "t".to_string() };
    assert_eq!(p.clone().pattern, "/a");
    assert_eq!(p.clone().comment, "c");
    let e = BlacklistEntry { ip: "i".to_string(), reason: "r".to_string(), blocked_at: "t".to_string() };
    assert_eq!(e.clone().ip, "i");
    assert_eq!(e.clone().blocked_at, "t");
}
