use hpm::collections::{NameMap, NameSet};
use hpm::db::{load_history, load_packages, load_state, package_records, relation_rows, save_state, snapshot_rows};
use hpm::state::{
    join_pkg_ver, split_pkg_ver, Relation, State, StateError, VersionInfo, WrapperNames, MAX_HISTORY,
};

fn names(v: &[&str]) -> NameSet {
    NameSet::from_names(&v.iter().map(|s| s.to_string()).collect())
}

fn installed(state: &mut State, name: &str, version: &str, deps: &[&str]) {
    state.update_package(name, version, "sum", true, names(deps), NameSet::new(), 5);
}

#[test]
fn test_state_roundtrip() {
    let mut state = State::new();
    let mut info = VersionInfo::new("abc123", true, 7);
    info.depends_on = names(&["dep-a@1.0.0"]);
    state.packages.insert("test-pkg", "2.0.0", info);
    let loaded = load_packages(
        &package_records(&state.packages),
        &relation_rows(&state.packages, Relation::RequiredBy),
        &relation_rows(&state.packages, Relation::DependsOn),
        &relation_rows(&state.packages, Relation::ConflictsWith),
    );
    assert!(loaded.contains("test-pkg"));
    let read = loaded.get("test-pkg", "2.0.0").unwrap();
    assert_eq!(read.checksum, "abc123");
    assert!(read.manually_installed);
    assert!(!read.pinned);
    assert_eq!(read.installed_at, 7);
    assert_eq!(read.depends_on.to_names(), vec!["dep-a@1.0.0".to_string()]);
    assert!(read.required_by.is_empty());
}

#[test]
fn test_state_conflict() {
    let mut state = State::new();
    let mut info = VersionInfo::new("hash1", true, 0);
    info.conflicts_with = names(&["new-pkg"]);
    state.packages.insert("installed-pkg", "1.0.0", info);
    let conflicts = state.check_conflicts("new-pkg", &Vec::new());
    assert!(!conflicts.is_empty());
    assert!(conflicts[0].contains("new-pkg"));
}

#[test]
fn declared_conflicts_are_found() {
    let mut state = State::new();
    installed(&mut state, "vim", "9.0", &[]);
    let found = state.check_conflicts("emacs", &vec!["vim".to_string()]);
    assert_eq!(found.len(), 1);
    assert!(found[0].contains("vim"));
    assert!(state.check_conflicts("emacs", &vec!["nano".to_string()]).is_empty());
}

#[test]
fn test_wrapper_names() {
    let mut wn = WrapperNames::new();
    wn.set("mypkg", "mybin", "mypkg-mybin");
    assert_eq!(wn.get("mypkg", "mybin"), Some(&"mypkg-mybin".to_string()));
    assert_eq!(wn.get("mypkg", "other"), None);
    wn.remove_pkg("mypkg");
    assert_eq!(wn.get("mypkg", "mybin"), None);
}

#[test]
fn forgetting_a_package_keeps_the_wrappers_of_others() {
    let mut wn = WrapperNames::new();
    wn.set("a", "x", "a-x");
    wn.set("ab", "x", "ab-x");
    wn.remove_pkg("a");
    assert_eq!(wn.get("a", "x"), None);
    assert_eq!(wn.get("ab", "x"), Some(&"ab-x".to_string()));
}

#[test]
fn test_rollback_state() {
    let mut state = State::new();
    state.packages.insert("rollback-pkg", "1.0.0", VersionInfo::new("hash1", true, 0));
    state.push_snapshot(10, "pre-update rollback-pkg");
    assert_eq!(state.history.len(), 1);
    state.packages.insert("rollback-pkg", "2.0.0", VersionInfo::new("hash2", true, 0));
    assert!(state.restore_snapshot(0, 11));
    assert!(state.packages.get("rollback-pkg", "1.0.0").is_some());
    assert!(state.packages.get("rollback-pkg", "2.0.0").is_none());
}

#[test]
fn a_snapshot_that_is_not_there_changes_nothing() {
    let mut state = State::new();
    installed(&mut state, "a", "1", &[]);
    assert!(!state.restore_snapshot(0, 1));
    assert!(state.packages.contains("a"));
}

#[test]
fn only_the_newest_snapshots_are_kept() {
    let mut state = State::new();
    for i in 0..25u64 {
        state.push_snapshot(i, &format!("step {}", i));
    }
    assert_eq!(state.history.len(), MAX_HISTORY);
    assert_eq!(state.history[0].description, "step 5");
    let listed = state.list_history();
    assert_eq!(listed.len(), MAX_HISTORY);
    let last = state.pop_snapshot().unwrap();
    assert_eq!(last.description, "step 24");
    assert_eq!(state.history.len(), MAX_HISTORY - 1);
}

#[test]
fn removing_undoes_installing() {
    let mut state = State::new();
    installed(&mut state, "lib", "1.0", &[]);
    installed(&mut state, "app", "2.0", &["lib@1.0"]);
    assert_eq!(state.packages.get("lib", "1.0").unwrap().required_by.to_names(), vec!["app@2.0".to_string()]);
    let mut wn = WrapperNames::new();
    wn.set("app", "app", "my-app");
    state.remove_package_version(&mut wn, "app", "2.0");
    assert!(!state.packages.contains("app"));
    assert!(state.packages.get("lib", "1.0").unwrap().required_by.is_empty());
    assert_eq!(wn.get("app", "app"), None);
}

#[test]
fn what_is_needed_is_no_orphan() {
    let mut state = State::new();
    state.update_package("lib", "1.0", "s", false, NameSet::new(), NameSet::new(), 0);
    state.update_package("old", "1.0", "s", false, NameSet::new(), NameSet::new(), 0);
    installed(&mut state, "app", "2.0", &["lib@1.0"]);
    assert_eq!(state.orphans(), vec![("old".to_string(), "1.0".to_string())]);
    assert_eq!(state.reverse_deps("lib"), vec!["app@2.0".to_string()]);
}

#[test]
fn a_key_is_taken_apart_as_it_was_put_together() {
    assert_eq!(join_pkg_ver("a", "1.0"), "a@1.0");
    assert_eq!(split_pkg_ver("a@1.0"), ("a".to_string(), "1.0".to_string()));
    assert_eq!(split_pkg_ver("a"), ("a".to_string(), String::new()));
}

#[test]
fn pinning_what_is_not_there() {
    let mut state = State::new();
    assert!(matches!(state.set_pinned("a", "1", true), Err(StateError::PackageNotInstalled)));
    installed(&mut state, "a", "1", &[]);
    assert!(matches!(state.set_pinned("a", "2", true), Err(StateError::VersionNotInstalled)));
    assert!(state.set_pinned("a", "1", true).is_ok());
    assert!(state.packages.get("a", "1").unwrap().pinned);
    assert!(state.find_installed("a", "1").is_ok());
}

#[test]
fn the_previous_version_is_the_newest_of_the_others() {
    let mut state = State::new();
    installed(&mut state, "a", "1.0", &[]);
    installed(&mut state, "a", "1.10", &[]);
    installed(&mut state, "a", "1.9", &[]);
    assert_eq!(state.get_previous_version("a", &Some("1.10".to_string())), Some("1.9".to_string()));
    assert_eq!(state.get_previous_version("b", &None), None);
}

#[test]
fn installing_again_keeps_no_second_row() {
    let mut state = State::new();
    installed(&mut state, "a", "1.0", &[]);
    installed(&mut state, "a", "1.0", &[]);
    assert_eq!(state.packages.len(), 1);
    assert_eq!(state.packages.versions_of("a"), vec!["1.0".to_string()]);
    assert_eq!(state.packages.package_names(), vec!["a".to_string()]);
}

#[test]
fn a_set_holds_each_name_once() {
    let mut set = NameSet::new();
    set.insert("a");
    set.insert("b");
    set.insert("a");
    assert_eq!(set.len(), 2);
    set.remove("a");
    assert!(!set.contains("a"));
    assert!(set.contains("b"));
}

#[test]
fn a_map_keeps_the_last_value() {
    let mut map = NameMap::new();
    map.insert("k", "1");
    map.insert("k", "2");
    assert_eq!(map.get("k"), Some(&"2".to_string()));
    assert_eq!(map.len(), 1);
    map.remove_prefix("k");
    assert_eq!(map.get("k"), None);
}

#[test]
fn recording_again_keeps_what_requires() {
    let mut s = State::new();
    s.update_package("b", "1", "c", false, NameSet::new(), NameSet::new(), 0);
    s.update_package("a", "1", "c", true, names(&["b@1"]), NameSet::new(), 0);
    s.update_package("b", "1", "c2", false, NameSet::new(), NameSet::new(), 0);
    assert_eq!(s.packages.get("b", "1").unwrap().checksum, "c2");
    assert_eq!(s.packages.get("b", "1").unwrap().required_by.to_names(), ["a@1"]);
    assert!(s.orphans().is_empty());
    s.update_package("a", "1", "c", true, NameSet::new(), NameSet::new(), 0);
    assert_eq!(s.orphans(), [("b".to_string(), "1".to_string())]);
}

#[test]
fn a_version_put_back_is_required_again() {
    let mut s = State::new();
    let mut wn = WrapperNames::new();
    s.update_package("b", "1", "c", false, NameSet::new(), NameSet::new(), 0);
    s.update_package("a", "1", "c", true, names(&["b"]), NameSet::new(), 0);
    s.remove_package_version(&mut wn, "b", "1");
    s.update_package("b", "2", "c", false, NameSet::new(), NameSet::new(), 0);
    assert!(s.orphans().is_empty());
    s.remove_package_version(&mut wn, "a", "1");
    assert_eq!(s.orphans(), [("b".to_string(), "2".to_string())]);
}

#[test]
fn chosen_names_go_with_a_version() {
    let mut s = State::new();
    let mut wn = WrapperNames::new();
    wn.set("app", "ls", "app-ls");
    wn.set("other", "ls", "other-ls");
    s.update_package("app", "1.0", "c", true, NameSet::new(), NameSet::new(), 0);
    s.update_package("app", "2.0", "c", true, NameSet::new(), NameSet::new(), 0);
    s.remove_package_version(&mut wn, "app", "1.0");
    assert!(wn.get("app", "ls").is_none());
    assert_eq!(wn.get("other", "ls").unwrap(), "other-ls");
}

#[test]
fn everything_that_is_saved_is_loaded() {
    let mut s = State::new();
    s.update_package("b", "1", "c", false, NameSet::new(), names(&["x"]), 7);
    s.push_snapshot(1, "first");
    s.update_package("a", "1", "d", true, names(&["b@1"]), NameSet::new(), 8);
    s.push_snapshot(2, "second");
    let saved = save_state(&s);
    assert_eq!((saved.packages.records.len(), saved.snapshots.len()), (2, 2));
    assert_eq!(saved.packages.records[1].name, "a");
    assert_eq!(saved.snapshots[0].packages.as_ref().unwrap().records.len(), 1);
    let r = load_state(&saved);
    assert_eq!(r.packages.len(), 2);
    assert_eq!(r.packages.get("b", "1").unwrap().required_by.to_names(), ["a@1"]);
    assert_eq!(r.packages.get("b", "1").unwrap().conflicts_with.to_names(), ["x"]);
    assert_eq!(r.packages.get("a", "1").unwrap().installed_at, 8);
    assert_eq!(r.list_history(), s.list_history());
    assert_eq!(r.history[0].snapshot.len(), 1);
    assert!(r.history[0].snapshot.get("b", "1").unwrap().required_by.is_empty());
    assert_eq!(r.history[1].snapshot.get("a", "1").unwrap().depends_on.to_names(), ["b@1"]);
    let mut rows = snapshot_rows(&s.history);
    rows[0].packages = None;
    let h = load_history(&rows);
    assert_eq!((h.len(), h[0].description.as_str()), (1, "second"));
}
