use hpm::collections::{NameMap, NameSet};
use hpm::commands::deps::{dependency_tree, DepsProblem};
use hpm::commands::diff::{
    collect_files_rel, diff_checksums, diff_files, diff_manifests, diff_request, file_mark, file_summary,
    missing_manifest_note, ChangeKind, DiffProblem,
};
use hpm::commands::info::{info_report, unreached_note, wrap_text};
use hpm::commands::list::{list_installed, outdated, KnownVersions};
use hpm::commands::search::{
    format_tags, page_header, page_prompt, page_range, page_step, query_tag, result_row, tag_page_step,
    tag_preview, tag_row, total_pages, PAGE_SIZE,
};
use hpm::commands::update::{
    check_dep_compatibility_before_update, find_updates, outdated_target, update_gate, update_snapshot_name,
    update_summary, update_target, KnownManifest, KnownTags, PlannedUpdate, UpdateGate,
};
use hpm::manifest::Manifest;
use hpm::repo::{BuildSource, PackageMeta, PackageVersion, RepoIndex, RepoPackage};
use hpm::state::{State, WrapperNames};

fn texts(v: &[&str]) -> Vec<String> {
    v.iter().map(|s| s.to_string()).collect()
}

fn manifest(name: &str, version: &str, more: &str) -> Manifest {
    let text = format!("[metadata]\n-> name => {}\n-> version => {}\n{}", name, version, more);
    Manifest::parse(&text, false).unwrap()
}

fn meta(name: &str, summary: &str, tags: &[&str]) -> PackageMeta {
    PackageMeta {
        name: name.to_string(),
        version: "1.0.0".to_string(),
        summary: summary.to_string(),
        authors: "Ann".to_string(),
        license: "MIT".to_string(),
        tags: texts(tags),
        available_versions: Vec::new(),
        fetched_at: 0,
    }
}

fn index(names: &[&str]) -> RepoIndex {
    let mut packages = NameMap::new();
    for n in names {
        packages.insert(n, &format!("https://github.com/x/{}", n));
    }
    RepoIndex { packages }
}

fn add(state: &mut State, name: &str, version: &str, deps: &[&str]) {
    state.update_package(name, version, "sum", true, NameSet::from_names(&texts(deps)), NameSet::new(), 0);
}

fn in_use(v: &[(&str, &str)]) -> NameMap {
    let mut m = NameMap::new();
    for (a, b) in v {
        m.insert(a, b);
    }
    m
}

// Searching

#[test]
fn test_search_pagination() {
    let results: Vec<String> = (0..60).map(|i| format!("pkg-{:03}", i)).collect();
    assert_eq!(PAGE_SIZE, 20);
    assert_eq!(total_pages(60), 3);
    let (a, b) = page_range(0, 60);
    assert_eq!(results[a..b].len(), 20);
    assert_eq!(results[a], "pkg-000");
    let (a, _) = page_range(1, 60);
    assert_eq!(results[a], "pkg-020");
}

#[test]
fn the_last_page_may_be_short() {
    assert_eq!(total_pages(41), 3);
    assert_eq!(page_range(2, 41), (40, 41));
    assert_eq!(page_header(2, 41), "Page 3/3 (41-41 of 41)");
    assert_eq!(total_pages(0), 0);
}

#[test]
fn every_result_is_on_one_page_only() {
    let total = 47;
    let mut seen = vec![0; total];
    for page in 0..total_pages(total) {
        let (a, b) = page_range(page, total);
        for i in a..b {
            seen[i] += 1;
        }
    }
    assert!(seen.iter().all(|n| *n == 1));
}

#[test]
fn moving_between_pages() {
    assert_eq!(page_prompt(0, 2), " [n]ext [q]uit");
    assert_eq!(page_prompt(1, 2), " [p]rev [q]uit");
    assert_eq!(page_step("n\n", 0, 2), Some(1));
    assert_eq!(page_step("p\n", 1, 2), Some(0));
    assert_eq!(page_step("q\n", 0, 2), None);
    assert_eq!(tag_page_step("n\n", 0, 2), Some(1));
    assert_eq!(tag_page_step("q\n", 0, 2), None);
}

#[test]
fn rows_of_results() {
    let r = result_row(&meta("a", "0123456789012345678901234567890123", &["cli", "dev"]));
    assert_eq!(r.description, "01234567890123456789012345678…");
    assert!(r.tags.contains("@cli"));
    let r = tag_row("a", &None);
    assert_eq!(r.version, "unknown");
    assert_eq!(r.description, "(run hpm refresh)");
    assert_eq!(query_tag("@dev"), "dev");
    assert_eq!(format_tags(&texts(&["a", "b"]), " "), "@a @b");
    assert_eq!(tag_preview(&texts(&["a", "b"])), "a, b");
    assert_eq!(tag_preview(&texts(&["a", "b", "c", "d", "e", "f", "g"])), "a, b, c, d, e +2 more");
}

// Showing

#[test]
fn lines_are_no_longer_than_the_width() {
    assert_eq!(wrap_text("one two three", 7), texts(&["one two", "three"]));
    assert_eq!(wrap_text("", 7), texts(&[""]));
    assert_eq!(wrap_text("unbreakable", 3), texts(&["unbreakable"]));
}

#[test]
fn everything_of_a_package() {
    let mut state = State::new();
    add(&mut state, "t", "1.0.0", &[]);
    state.set_pinned("t", "1.0.0", true).unwrap();
    let mut names = WrapperNames::new();
    names.set("t", "t", "t-t");
    let idx = index(&["t", "u"]);
    let cached = vec![
        ("t".to_string(), meta("t", "", &["cli"])),
        ("u".to_string(), meta("u", "", &["cli"])),
    ];
    let source = Some(BuildSource::Build { commands: Vec::new(), output: String::new() });
    let current = Some("1.0.0".to_string());
    let r = info_report(
        "t",
        "https://github.com/x/t",
        &meta("t", "A tool", &["cli"]),
        &source,
        &texts(&["1.0.0", "2.0.0"]),
        &state,
        &current,
        &names,
        &Some(texts(&["t"])),
        &idx,
        &cached,
    );
    assert_eq!(r.rows[0], ("Version:".to_string(), "1.0.0".to_string()));
    assert_eq!(r.rows[4], ("Tags:".to_string(), "@cli".to_string()));
    assert_eq!(r.rows[5], ("Build type:".to_string(), "build from source".to_string()));
    assert_eq!(r.description, texts(&["A tool"]));
    assert_eq!(r.installed, "1.0.0 (pinned)");
    assert_eq!(r.wrappers, Some("t → /usr/bin/t-t".to_string()));
    assert_eq!(r.versions, texts(&["• 1.0.0 ← current", "• 2.0.0"]));
    assert_eq!(r.related, texts(&["@cli: u"]));
    assert_eq!(r.hint, None);
    let r = info_report(
        "u", "u", &meta("u", "", &[]), &None, &Vec::new(), &state, &None, &names, &None, &idx, &cached,
    );
    assert_eq!(r.installed, "No");
    assert_eq!(r.hint, Some("hpm install u".to_string()));
    assert!(r.related.is_empty());
}

#[test]
fn what_could_not_be_reached_is_counted() {
    assert_eq!(unreached_note(5, 5), None);
    assert!(unreached_note(5, 3).unwrap().starts_with("2 package(s) could not be reached"));
}

#[test]
fn what_is_installed_is_listed() {
    let mut state = State::new();
    add(&mut state, "a", "1.0", &[]);
    add(&mut state, "a", "2.0", &[]);
    let rows = list_installed(
        &state,
        &in_use(&[("a", "2.0")]),
        &vec![("a".to_string(), meta("a", "", &["x", "y"]))],
    );
    assert_eq!(rows.len(), 2);
    assert!(!rows[0].is_current && rows[1].is_current);
    assert_eq!(rows[0].tags, "@x @y");
}

fn versions(name: &str, v: &[&str]) -> Vec<PackageVersion> {
    v.iter()
        .map(|x| PackageVersion {
            version: x.to_string(),
            commit: String::new(),
            manifest: manifest(name, x, ""),
        })
        .collect()
}

#[test]
fn what_is_outdated_is_listed() {
    let mut state = State::new();
    add(&mut state, "a", "1.0.0", &[]);
    add(&mut state, "b", "1.0.0", &[]);
    state.set_pinned("b", "1.0.0", true).unwrap();
    let known = vec![
        KnownVersions { package: "a".to_string(), versions: versions("a", &["1.0.0", "1.2.0"]) },
        KnownVersions { package: "b".to_string(), versions: versions("b", &["2.0.0"]) },
    ];
    let found = outdated(&state, &in_use(&[("a", "1.0.0"), ("b", "1.0.0")]), &known);
    assert_eq!(found.len(), 1);
    assert_eq!(found[0].package, "a");
    assert_eq!(found[0].new_version, "1.2.0");
    assert_eq!(outdated_target(&state, "a", "1.2.0", &known[0].versions), None);
}

// Updating

#[test]
fn updates_lead_forward_and_leave_pinned_alone() {
    let mut state = State::new();
    for n in ["a", "b", "c", "d"] {
        add(&mut state, n, "1.0", &[]);
    }
    state.set_pinned("b", "1.0", true).unwrap();
    let current = in_use(&[("a", "1.0"), ("b", "1.0"), ("c", "1.0")]);
    let known = vec![
        KnownTags { package: "a".to_string(), tags: texts(&["v1.0", "v1.10", "v1.9"]) },
        KnownTags { package: "b".to_string(), tags: texts(&["v9.0"]) },
    ];
    let round = find_updates(&state, &index(&["a", "b"]), &current, &known);
    assert_eq!(round.updates.len(), 1);
    assert_eq!(round.updates[0].package, "a");
    assert_eq!(round.updates[0].old_version, "1.0");
    assert_eq!(round.updates[0].new_version, "1.10");
    assert_eq!(round.notes, texts(&["b pinned at 1.0 — skipping", "c not in index — skipping"]));
    assert!(matches!(
        update_gate(&state, &index(&["a"]), "a", &Some("1.0".to_string())),
        UpdateGate::Look { .. }
    ));
    assert_eq!(update_target(&texts(&["v1.0"]), "1.0"), None);
    assert_eq!(update_snapshot_name(2), "pre-update 2 packages");
    assert_eq!(update_summary(1, &texts(&["x", "y"])), texts(&["Updated 1 package(s).", "Failed: x, y"]));
}

#[test]
fn updates_that_do_not_agree_are_named() {
    let mut state = State::new();
    add(&mut state, "bar", "1.0.0", &[]);
    add(&mut state, "foo", "1.0.0", &["bar@1.0.0"]);
    add(&mut state, "baz", "1.0.0", &["bar@1.0.0"]);
    let current = in_use(&[("bar", "1.0.0"), ("foo", "1.0.0"), ("baz", "1.0.0")]);
    let plan = vec![PlannedUpdate {
        package: "foo".to_string(),
        old_version: "1.0.0".to_string(),
        new_version: "2.0.0".to_string(),
        manifest: Some(manifest("foo", "2.0.0", "[specs]\n-> dependencies\n--> bar => >=2.0.0\n")),
    }];
    let known = vec![KnownManifest {
        package: "baz".to_string(),
        manifest: manifest("baz", "1.0.0", "[specs]\n-> dependencies\n--> bar => =1.0.0\n"),
    }];
    let issues = check_dep_compatibility_before_update(&plan, &state, &current, &known);
    assert_eq!(
        issues,
        texts(&[
            "foo@2.0.0 requires bar (>=2.0.0)  but bar@1.0.0 is installed",
            "foo@2.0.0 requires bar (>=2.0.0) but baz@1.0.0 requires bar (=1.0.0)",
        ])
    );
}

// Differences

#[test]
fn test_diff_files() {
    let one = collect_files_rel(&vec![
        ("same.txt".to_string(), b"same content".to_vec()),
        ("changed.txt".to_string(), b"version 1".to_vec()),
        ("old.txt".to_string(), b"x".to_vec()),
    ]);
    let two = collect_files_rel(&vec![
        ("same.txt".to_string(), b"same content".to_vec()),
        ("changed.txt".to_string(), b"version 2".to_vec()),
        ("new.txt".to_string(), b"y".to_vec()),
    ]);
    assert_eq!(one.get("same.txt"), two.get("same.txt"));
    assert_ne!(one.get("changed.txt"), two.get("changed.txt"));
    let d = diff_files(&one, &two);
    assert_eq!(d.changed, texts(&["changed.txt"]));
    assert_eq!(d.added, texts(&["new.txt"]));
    assert_eq!(d.removed, texts(&["old.txt"]));
    assert_eq!(file_summary(&d), Some("1 added  1 removed  1 modified".to_string()));
    assert_eq!(file_mark(&b"hello".to_vec()), "2cf24dba5fb0a30e");
}

#[test]
fn manifests_are_compared() {
    let a = manifest("t", "1.0.0", "-> license => MIT\n-> bins.x => \"\"\n");
    let b = manifest("t", "2.0.0", "-> license => GPL\n-> bins.y => \"\"\n[sandbox]\n-> network => true\n");
    assert!(diff_manifests(&a, &manifest("t", "1.0.0", "-> license => MIT\n-> bins.x => \"\"\n")).is_empty());
    let d = diff_manifests(&a, &b);
    assert!(d.iter().any(|c| c.kind == ChangeKind::Changed && c.text.contains("MIT")));
    assert!(d.iter().any(|c| c.kind == ChangeKind::Added && c.text.contains("y")));
    assert!(d.iter().any(|c| c.kind == ChangeKind::Removed && c.text.contains("x")));
}

#[test]
fn what_is_to_be_compared() {
    assert!(matches!(diff_request(&texts(&["t"]), &None), Err(DiffProblem::Usage)));
    let q = diff_request(&texts(&["t", "1"]), &Some("2".to_string())).unwrap();
    assert_eq!((q.first, q.second), ("1".to_string(), "2".to_string()));
    assert!(matches!(diff_request(&texts(&["t", "1"]), &None), Err(DiffProblem::NotInstalled(_))));
    assert_eq!(missing_manifest_note("1", "2", true, true), None);
    assert_eq!(
        missing_manifest_note("1", "2", false, true),
        Some("Version 1 manifest not available".to_string())
    );
    let sum = Some("0123456789abcdef0123".to_string());
    assert_eq!(
        diff_checksums(&sum, &sum),
        Some(("0123456789abcdef".to_string(), "0123456789abcdef".to_string(), true))
    );
    assert_eq!(diff_checksums(&sum, &None), None);
}

// Dependencies

#[test]
fn a_tree_of_dependencies() {
    let package = |n: &str, v: &str, deps: &str| RepoPackage {
        name: n.to_string(),
        versions: vec![PackageVersion {
            version: v.to_string(),
            commit: String::new(),
            manifest: manifest(n, v, deps),
        }],
    };
    let idx = vec![
        package("app", "1.0.0", "[specs]\n-> dependencies\n--> lib => >=1.0.0\n"),
        package("lib", "1.5.0", ""),
    ];
    let t = dependency_tree(&idx, "app").unwrap();
    assert_eq!(t.package, "app");
    assert_eq!(t.version, "1.0.0");
    assert!(t.lines.iter().any(|l| l.contains("lib")));
    assert!(matches!(dependency_tree(&idx, "none"), Err(DepsProblem::NotFound(_))));
    assert!(matches!(dependency_tree(&idx, "app@9.0.0"), Err(DepsProblem::NoMatch(_))));
    let empty = vec![RepoPackage { name: "e".to_string(), versions: Vec::new() }];
    assert!(matches!(dependency_tree(&empty, "e"), Err(DepsProblem::NoVersions(_))));
}

#[test]
fn a_circle_of_dependencies_ends() {
    let package = |n: &str, dep: &str| RepoPackage {
        name: n.to_string(),
        versions: vec![PackageVersion {
            version: "1.0.0".to_string(),
            commit: String::new(),
            manifest: manifest(n, "1.0.0", &format!("[specs]\n-> dependencies\n--> {} => \"\"\n", dep)),
        }],
    };
    let idx = vec![package("a", "b"), package("b", "a")];
    let t = dependency_tree(&idx, "a").unwrap();
    assert!(t.lines.len() <= 3);
}
