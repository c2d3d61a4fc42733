//! The modes and the bans.

use limen::state::{Controls, AUTO_BAN_THRESHOLD};
use limen::storage::Storage;

#[test]
fn ban_comes_at_the_threshold() {
    let mut c = Controls::new(AUTO_BAN_THRESHOLD, None);
    for _ in 0..4 {
        assert!(!c.record_block("1.1.1.1"));
        assert!(!c.is_banned("1.1.1.1"));
    }
    assert!(c.record_block("1.1.1.1"));
    assert!(c.is_banned("1.1.1.1"));
    assert!(!c.is_banned("2.2.2.2"));
    assert!(!c.record_block("1.1.1.1"));
    assert_eq!(c.block_count("1.1.1.1"), 6);
    assert_eq!(c.block_count("2.2.2.2"), 0);
    assert_eq!(c.banned_count(), 1);
}

#[test]
fn threshold_of_zero_bans_nobody() {
    let mut c = Controls::new(0, None);
    for _ in 0..20 {
        assert!(!c.record_block("1.1.1.1"));
    }
    assert_eq!(c.block_count("1.1.1.1"), 0);
    assert!(!c.is_banned("1.1.1.1"));
}

#[test]
fn blacklist_takes_the_bans() {
    let s = Storage::open(&vec!["9.9.9.9".to_string()], &vec!["/open/".to_string()]);
    let mut c = Controls::new(2, Some(s));
    assert!(c.is_banned("9.9.9.9"));
    assert!(c.is_bypass("/open/door"));
    assert!(!c.is_bypass("/closed"));
    assert!(!c.record_block("1.1.1.1"));
    assert!(c.record_block("1.1.1.1"));
    assert!(!c.is_banned("1.1.1.1"));
    assert!(c.ban_stored("1.1.1.1", 1));
    assert!(c.is_banned("1.1.1.1"));
    assert!(!c.record_block("1.1.1.1"));
    assert_eq!(c.banned_count(), 2);
}

#[test]
fn ban_that_is_not_stored_is_announced_again() {
    let mut c = Controls::new(1, Some(Storage::open(&Vec::new(), &Vec::new())));
    assert!(c.record_block("1.1.1.1"));
    assert!(!c.ban_stored("1.1.1.1", 0));
    assert!(c.record_block("1.1.1.1"));
}

#[test]
fn all_bans_are_lifted() {
    let mut c = Controls::new(1, None);
    assert!(c.record_block("1.1.1.1"));
    assert!(c.record_block("2.2.2.2"));
    assert_eq!(c.unban_all(None), 2);
    assert_eq!(c.banned_count(), 0);
    assert_eq!(c.block_count("1.1.1.1"), 0);
}

#[test]
fn bans_of_a_table_that_was_not_emptied_stay() {
    let s = Storage::open(&vec!["9.9.9.9".to_string()], &Vec::new());
    let mut c = Controls::new(5, Some(s));
    assert_eq!(c.unban_all(None), 0);
    assert!(c.is_banned("9.9.9.9"));
    assert_eq!(c.unban_all(Some(2)), 2);
    assert!(!c.is_banned("9.9.9.9"));
    assert_eq!(c.banned_count(), 0);
}

#[test]
fn mode_goes_back_and_forth() {
    let mut c = Controls::new(5, None);
    assert!(c.enforce());
    assert!(!c.toggle_enforce());
    assert!(!c.enforce());
    assert!(c.toggle_enforce());
    assert!(c.enforce());
}

#[test]
fn others_in_between_change_nothing() {
    let mut c = Controls::new(3, None);
    assert!(!c.record_block("1.1.1.1"));
    assert!(!c.record_block("2.2.2.2"));
    assert!(!c.record_block("1.1.1.1"));
    assert!(!c.record_block("2.2.2.2"));
    assert!(c.record_block("1.1.1.1"));
    assert!(c.is_banned("1.1.1.1"));
    assert!(!c.is_banned("2.2.2.2"));
    assert!(c.record_block("2.2.2.2"));
}
