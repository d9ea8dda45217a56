use hpm::collections::{NameMap, NameSet};
use hpm::commands::clean::{clean_summary, is_staging_dir, old_versions, unit_for, ByteUnit};
use hpm::commands::doctor::{
    diagnose, links_to_make, needs_desktop_entry, repair_summary, repair_wrapper, stale_wrapper,
    wrappers_to_remove, Claims, Facts, Level, LinkFacts, ManifestFacts, PackageFacts, ProgramFacts,
    RepairLink, VersionFacts, WrapperFacts, WrapperFile, WrapperRepair,
};
use hpm::commands::history::{
    autoremove_summary, choose_snapshot, missing_files, no_previous_version, pin, remove_versions,
    rollback_plan, unpin, SnapshotChoice,
};
use hpm::commands::remove::{
    blocking_dependents, hooks_staging_name, is_last_version, parse_removal, relink_after_remove,
    removal_goes_on, remove_desktop_integration, remove_snapshot_name, remove_version,
    versions_to_remove, wrappers_to_check, LinkStep, Removal, RemovalFacts, RemovalStep,
};
use hpm::commands::wrappers::wrapper_content;
use hpm::hooks::HookKind;
use hpm::manifest::Manifest;
use hpm::state::{State, WrapperNames};

fn texts(v: &[&str]) -> Vec<String> {
    v.iter().map(|s| s.to_string()).collect()
}

fn pair(a: &str, b: &str) -> (String, String) {
    (a.to_string(), b.to_string())
}

fn manifest(more: &str) -> Manifest {
    Manifest::parse(&format!("[metadata]\n-> name => t\n-> version => 1.0.0\n{}", more), false).unwrap()
}

fn add(state: &mut State, name: &str, version: &str, deps: &[&str]) {
    let deps = NameSet::from_names(&texts(deps));
    state.update_package(name, version, "0123456789abcdef0123456789abcdef", true, deps, NameSet::new(), 0);
}

// Removing

#[test]
fn only_what_is_installed_is_removed() {
    let mut state = State::new();
    assert_eq!(parse_removal(&state, "a").unwrap_err(), "Package 'a' is not installed");
    add(&mut state, "a", "1.0", &[]);
    let r = parse_removal(&state, "a@1.0").unwrap();
    assert_eq!(r.version, Some("1.0".to_string()));
    assert_eq!(versions_to_remove(&state, &r), texts(&["1.0"]));
    assert_eq!(remove_snapshot_name("a"), "pre-remove a");
}

#[test]
fn what_others_need_blocks_a_removal() {
    let mut state = State::new();
    add(&mut state, "lib", "1.0", &[]);
    add(&mut state, "app", "1.0", &["lib@1.0"]);
    let all = Removal { package: "lib".to_string(), version: None };
    assert_eq!(blocking_dependents(&state, &all), texts(&["app@1.0"]));
    add(&mut state, "lib", "2.0", &[]);
    let one = Removal { package: "lib".to_string(), version: Some("1.0".to_string()) };
    assert!(blocking_dependents(&state, &one).is_empty());
}

#[test]
fn shared_files_stay_while_another_version_does() {
    let mut state = State::new();
    add(&mut state, "t", "1.0", &[]);
    assert!(is_last_version(&state, "t"));
    add(&mut state, "t", "2.0", &[]);
    assert!(!is_last_version(&state, "t"));
    let names = WrapperNames::new();
    let facts = |is_last: bool| RemovalFacts {
        manifest: Some(manifest("-> gui => true\n-> bins.t => \"\"\n")),
        has_pre_hook: true,
        has_post_hook: true,
        is_last,
    };
    let steps = remove_version("t", &facts(false), &names);
    assert!(!steps.iter().any(|s| matches!(s, RemovalStep::Wrapper(_) | RemovalStep::Desktop)));
    let steps = remove_version("t", &facts(true), &names);
    assert!(steps.iter().any(|s| matches!(s, RemovalStep::Wrapper(n) if n == "t")));
    assert!(steps.iter().any(|s| matches!(s, RemovalStep::Desktop)));
}

#[test]
fn hooks_run_around_a_removal() {
    let facts = RemovalFacts {
        manifest: Some(manifest("")),
        has_pre_hook: true,
        has_post_hook: true,
        is_last: true,
    };
    let steps = remove_version("t", &facts, &WrapperNames::new());
    assert!(matches!(steps[0], RemovalStep::RunHook(HookKind::PreRemove)));
    assert!(matches!(steps[1], RemovalStep::KeepHooks));
    assert!(matches!(steps[2], RemovalStep::Unmount));
    assert!(matches!(steps[3], RemovalStep::RemoveFiles));
    assert!(matches!(steps[4], RemovalStep::RemoveSidecar));
    assert!(matches!(steps[5], RemovalStep::Forget));
    assert!(matches!(steps[6], RemovalStep::RunHook(HookKind::PostRemove)));
    assert!(matches!(steps[7], RemovalStep::Relink));
    assert!(!removal_goes_on(&steps[0], false));
    assert!(removal_goes_on(&steps[6], false));
    assert!(removal_goes_on(&steps[3], true));
}

#[test]
fn an_unreadable_manifest_does_not_stop_a_removal() {
    let facts = RemovalFacts { manifest: None, has_pre_hook: true, has_post_hook: true, is_last: true };
    let steps = remove_version("t", &facts, &WrapperNames::new());
    assert_eq!(steps.len(), 5);
    assert!(matches!(steps[0], RemovalStep::Unmount));
}

#[test]
fn both_names_of_a_wrapper_are_looked_at() {
    let mut names = WrapperNames::new();
    assert_eq!(wrappers_to_check(&names, "p", "b"), texts(&["b"]));
    names.set("p", "b", "p-b");
    assert_eq!(wrappers_to_check(&names, "p", "b"), texts(&["p-b", "b"]));
}

#[test]
fn the_newest_version_left_is_used_next() {
    let mut state = State::new();
    add(&mut state, "t", "1.9", &[]);
    add(&mut state, "t", "1.10", &[]);
    let on = Some("2.0".to_string());
    assert!(matches!(relink_after_remove(&state, "t", "2.0", &on), LinkStep::SwitchTo(v) if v == "1.10"));
    assert!(matches!(relink_after_remove(&state, "t", "1.0", &on), LinkStep::Keep));
    assert!(matches!(relink_after_remove(&State::new(), "t", "2.0", &on), LinkStep::Drop));
    assert!(matches!(relink_after_remove(&state, "t", "2.0", &None), LinkStep::Keep));
}

#[test]
fn every_trace_on_the_desktop_goes() {
    let files = remove_desktop_integration("t", "/d", "/i", "/p");
    assert_eq!(files.len(), 1 + 7 * 3 + 3);
    assert_eq!(files[0], "/d/t.desktop");
    assert_eq!(files[1], "/i/16x16/apps/t.png");
    assert_eq!(files[24], "/p/t.xpm");
    assert_eq!(hooks_staging_name("t", "1.0", 7), "hpm-post-remove-t-1.0-7");
}

// Checking and repairing

fn sound_version() -> VersionFacts {
    let sum = "0123456789abcdef0123456789abcdef".to_string();
    VersionFacts {
        version: "1.0".to_string(),
        stored: sum.clone(),
        dir: "/s/t/1.0".to_string(),
        dir_exists: true,
        mount_error: None,
        computed: Ok(sum),
        manifest: Some(ManifestFacts {
            wrappers: vec![WrapperFacts {
                bin: "t".to_string(),
                exists_there: true,
                other_exists: false,
                content: wrapper_content("hpm", "t", "bin/t"),
            }],
            is_gui: false,
            sandbox_gui: false,
            desktop_path: "/d/t.desktop".to_string(),
            desktop_exists: false,
        }),
    }
}

fn sound_facts() -> Facts {
    Facts {
        db_exists: true,
        store_exists: true,
        store: "/s".to_string(),
        bin_dir: "/b".to_string(),
        packages: vec![PackageFacts {
            name: "t".to_string(),
            link: LinkFacts::To("1.0".to_string()),
            versions: vec![sound_version()],
        }],
        entries: texts(&["t"]),
        wrappers: vec![WrapperFile { name: "t".to_string(), content: wrapper_content("hpm", "t", "bin/t") }],
        claims: vec![Claims { package: "t".to_string(), bins: texts(&["t"]) }],
    }
}

#[test]
fn a_sound_installation_has_no_findings() {
    let mut state = State::new();
    add(&mut state, "t", "1.0", &[]);
    let report = diagnose(&state, &sound_facts());
    assert!(report.texts(Level::Error).is_empty());
    assert!(report.texts(Level::Warning).is_empty());
    assert!(!report.texts(Level::Fine).is_empty());
    assert_eq!(report.advice(), Some("All checks passed."));
}

#[test]
fn every_fault_is_found() {
    let mut state = State::new();
    add(&mut state, "t", "1.0", &[]);
    let mut facts = sound_facts();
    facts.packages[0].link = LinkFacts::Missing;
    facts.packages[0].versions[0].computed = Ok("ffffffffffffffffffffffffffffffff".to_string());
    facts.entries = texts(&["t", "orphan"]);
    facts.wrappers.push(WrapperFile { name: "gone".to_string(), content: wrapper_content("hpm", "gone", "bin/gone") });
    facts.claims.push(Claims { package: "u".to_string(), bins: texts(&["t"]) });
    let report = diagnose(&state, &facts);
    let errors = report.texts(Level::Error);
    let warnings = report.texts(Level::Warning);
    assert!(errors.len() + warnings.len() >= 5);
    assert!(warnings.iter().any(|w| w == "/b/gone: wrapper references 'gone' but it is not installed"));
    assert!(warnings.iter().any(|w| w == "/b/t is claimed by multiple packages: t, u"));
    assert!(warnings.iter().any(|w| w.contains("orphan")));
}

#[test]
fn a_missing_store_is_found() {
    let mut facts = sound_facts();
    facts.db_exists = false;
    facts.store_exists = false;
    facts.packages.clear();
    facts.entries.clear();
    facts.wrappers.clear();
    facts.claims.clear();
    let report = diagnose(&State::new(), &facts);
    assert!(!report.texts(Level::Error).is_empty() || !report.texts(Level::Warning).is_empty());
}

#[test]
fn links_are_made_to_the_newest_version() {
    let mut state = State::new();
    add(&mut state, "t", "1.0", &[]);
    add(&mut state, "t", "1.1", &[]);
    add(&mut state, "u", "1.0", &[]);
    let links = vec![
        RepairLink { package: "t".to_string(), leads_somewhere: false, present: texts(&["1.0", "1.1"]) },
        RepairLink { package: "u".to_string(), leads_somewhere: true, present: texts(&["1.0"]) },
    ];
    assert_eq!(links_to_make(&state, &links), vec![pair("t", "1.1")]);
    let gone = vec![RepairLink { package: "t".to_string(), leads_somewhere: false, present: texts(&["1.0"]) }];
    assert!(links_to_make(&state, &gone).is_empty());
}

#[test]
fn a_repaired_wrapper_needs_no_repair() {
    let m = manifest("-> bins.t => \"\"\n");
    let mut p = ProgramFacts {
        name: "t".to_string(),
        wrapper_exists: false,
        wrapper_content: String::new(),
        explicit_exists: false,
        in_bin: true,
        at_top: false,
    };
    let text = match repair_wrapper("hpm", "t", &m, &p, &Vec::new()) {
        WrapperRepair::Write(c) => c,
        _ => panic!("it is written"),
    };
    assert_eq!(text, "#!/bin/sh\nexec hpm run t bin/t \"$@\"\n");
    p.wrapper_exists = true;
    p.wrapper_content = text;
    assert!(matches!(repair_wrapper("hpm", "t", &m, &p, &Vec::new()), WrapperRepair::InOrder));
    p.wrapper_exists = false;
    p.in_bin = false;
    assert!(matches!(repair_wrapper("hpm", "t", &m, &p, &Vec::new()), WrapperRepair::ProgramMissing));
}

#[test]
fn wrappers_of_removed_packages_are_stale() {
    let mut state = State::new();
    add(&mut state, "t", "1.0", &[]);
    let text = wrapper_content("hpm", "t", "bin/t");
    assert_eq!(stale_wrapper(&state, &text), None);
    assert_eq!(stale_wrapper(&State::new(), &text), Some("t".to_string()));
    assert_eq!(stale_wrapper(&State::new(), "#!/bin/sh\necho\n"), None);
    let files = vec![WrapperFile { name: "x".to_string(), content: wrapper_content("hpm", "x", "x") }];
    assert_eq!(wrappers_to_remove(&state, &files), vec![pair("x", "x")]);
    assert!(needs_desktop_entry(&manifest("-> gui => true\n"), false));
    assert!(!needs_desktop_entry(&manifest(""), false));
    assert_eq!(repair_summary(0), "Nothing needed repair.");
    assert_eq!(repair_summary(2), "Repaired 2 issue(s).");
}

// History

#[test]
fn a_rollback_leads_to_the_snapshot() {
    let mut state = State::new();
    add(&mut state, "a", "1.0", &[]);
    add(&mut state, "b", "1.0", &[]);
    state.push_snapshot(1, "before");
    let mut names = WrapperNames::new();
    remove_versions(&mut state, &mut names, &vec![pair("b", "1.0")]);
    assert!(!state.packages.contains("b"));
    add(&mut state, "a", "2.0", &[]);
    let plan = rollback_plan(&state, 0);
    assert_eq!(plan.to_install, vec![pair("b", "1.0")]);
    assert_eq!(plan.to_remove, vec![pair("a", "2.0")]);
}

#[test]
fn a_snapshot_is_chosen_by_number() {
    assert!(matches!(choose_snapshot("\n", 3), Ok(SnapshotChoice::Quit)));
    assert!(matches!(choose_snapshot("q\n", 3), Ok(SnapshotChoice::Quit)));
    assert!(matches!(choose_snapshot("2\n", 3), Ok(SnapshotChoice::Snapshot(2))));
    assert_eq!(choose_snapshot("x\n", 3).unwrap_err(), "Invalid index: x");
    assert_eq!(choose_snapshot("3\n", 3).unwrap_err(), "Index 3 out of range (0..2)");
}

#[test]
fn unpinning_undoes_pinning() {
    let mut state = State::new();
    assert_eq!(pin(&mut state, "a", "1.0").unwrap_err(), "Package 'a' not installed");
    add(&mut state, "a", "1.0", &[]);
    assert_eq!(pin(&mut state, "a", "2.0").unwrap_err(), "Version '2.0' of package 'a' not installed");
    pin(&mut state, "a", "1.0").unwrap();
    assert!(state.packages.get("a", "1.0").unwrap().pinned);
    unpin(&mut state, "a", &Some("1.0".to_string())).unwrap();
    assert!(!state.packages.get("a", "1.0").unwrap().pinned);
    assert_eq!(unpin(&mut state, "a", &None).unwrap_err(), "Package 'a' not installed");
    assert_eq!(
        unpin(&mut state, "z", &Some("1".to_string())).unwrap_err(),
        "Package not found in state"
    );
    assert_eq!(
        unpin(&mut state, "a", &Some("9".to_string())).unwrap_err(),
        "Current version not found in state"
    );
}

#[test]
fn texts_about_history() {
    assert!(no_previous_version("a").starts_with("No previous version found for 'a'.\n"));
    assert!(missing_files("a", "1.0").starts_with("Version a@1.0 files not found in store."));
    assert_eq!(autoremove_summary(0), "Nothing to remove — no orphaned packages found.");
    assert_eq!(autoremove_summary(2), "Removed 2 orphaned package(s).");
}

// Cleaning

#[test]
fn versions_in_use_stay() {
    let mut state = State::new();
    add(&mut state, "a", "1.0", &[]);
    add(&mut state, "a", "2.0", &[]);
    let mut current = NameMap::new();
    current.insert("a", "2.0");
    assert_eq!(old_versions(&state, &current), vec![pair("a", "1.0")]);
    assert!(is_staging_dir(".staging-1.0"));
    assert!(!is_staging_dir("1.0"));
}

#[test]
fn sizes_have_units() {
    assert!(matches!(unit_for(1023), ByteUnit::Bytes));
    assert!(matches!(unit_for(1024), ByteUnit::Kilobytes));
    assert!(matches!(unit_for(1048576), ByteUnit::Megabytes));
    assert!(matches!(unit_for(1073741824), ByteUnit::Gigabytes));
    assert_eq!(unit_for(2048).size(), 1024);
    assert_eq!(clean_summary(0, 0, 0, false, "0 B"), "Cache is already empty.");
    assert_eq!(clean_summary(1, 2, 0, false, "3 KB"), "Cleaned: 1 git repo(s), 2 file(s) — 3 KB freed.");
}
