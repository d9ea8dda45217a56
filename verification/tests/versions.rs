use hpm::utils::{
    compare_versions, download_command, lock_busy_message, missing_deb_packages, newest_version,
    rank_versions, satisfies, sort_versions, Rank,
};
use std::cmp::Ordering;

fn texts(v: &[&str]) -> Vec<String> {
    v.iter().map(|s| s.to_string()).collect()
}

#[test]
fn test_version_compare() {
    assert_eq!(compare_versions("1.2.0", "1.1.9"), Ordering::Greater);
    assert_eq!(compare_versions("1.0.0", "1.0.0"), Ordering::Equal);
    assert_eq!(compare_versions("0.9.9", "1.0.0"), Ordering::Less);
    assert_eq!(compare_versions("2.0.0", "1.99.99"), Ordering::Greater);
}

#[test]
fn test_version_satisfies() {
    assert!(satisfies("1.2.0", ">=1.0"));
    assert!(satisfies("1.0.0", ">=1.0.0"));
    assert!(!satisfies("0.9.0", ">=1.0"));
    assert!(satisfies("1.5.0", ">1.4"));
    assert!(satisfies("2.0.0", "=2.0.0"));
    assert!(!satisfies("2.0.1", "=2.0.0"));
    assert!(satisfies("1.0.0", ""));
}

#[test]
fn numbers_in_versions_are_compared_as_numbers() {
    assert_eq!(compare_versions("1.10", "1.9"), Ordering::Greater);
    assert_eq!(rank_versions("1.10", "1.9"), Rank::After);
    assert_eq!(rank_versions("1.9", "1.10"), Rank::Before);
}

#[test]
fn ranking_versions_with_letters_is_not_transitive() {
    assert_eq!(rank_versions("9", "10"), Rank::Before);
    assert_eq!(rank_versions("10", "1a"), Rank::Before);
    assert_eq!(rank_versions("1a", "9"), Rank::Before);
}

#[test]
fn a_version_ranks_the_same_as_itself() {
    for v in ["1.0.0", "2", "1.0-beta", ""] {
        assert_eq!(rank_versions(v, v), Rank::Same);
    }
}

#[test]
fn sorting_keeps_every_version() {
    let sorted = sort_versions(&texts(&["1.10.0", "1.2.0", "1.9.3", "0.1.0"]));
    assert_eq!(sorted, texts(&["0.1.0", "1.2.0", "1.9.3", "1.10.0"]));
}

#[test]
fn the_newest_version_is_the_last_of_the_sorted() {
    assert_eq!(newest_version(&texts(&["1.2.0", "1.10.0", "1.9.0"])), Some("1.10.0".to_string()));
    assert_eq!(newest_version(&Vec::new()), None);
}

#[test]
fn only_missing_packages_are_wanted() {
    let wanted = texts(&["git", "curl", "make"]);
    let installed = texts(&["curl"]);
    assert_eq!(missing_deb_packages(&wanted, &installed), texts(&["git", "make"]));
}

#[test]
fn a_download_follows_redirections() {
    assert_eq!(
        download_command("https://example.org/x", "/tmp/x"),
        texts(&["curl", "-L", "--progress-bar", "-o", "/tmp/x", "https://example.org/x"])
    );
}

#[test]
fn a_held_lock_is_named() {
    let m = lock_busy_message("/tmp/hpm.lock");
    assert!(m.starts_with("Another hpm process is already running"));
    assert!(m.ends_with("\n  /tmp/hpm.lock"));
}
