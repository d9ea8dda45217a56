use hpm::collections::NameMap;
use hpm::commands::candidates::{
    candidate_tags, find_tag, gather_candidates, order_versions, replacement_notes, resolution_text,
    resolve_version, Attempt,
};
use hpm::commands::install::{
    check_inter_package_conflicts, expand_specs, install_args_message, install_snapshot_name,
    parse_install_args, plan_install, split_spec, unknown_tag_message, InstallArgsProblem, PlanProblem,
};
use hpm::commands::installing::{install_steps, next_step, InstallStep, NextStep};
use hpm::commands::placing::{
    bin_name_for_pkg, binary_not_found_help, binary_path, build_deb_deps, check_installable,
    completion_targets, dependency_step, find_binary_in_dir, install_path_of, merge_strings,
    needs_exec_bit, no_contents_message, record_install, run_build_config, run_classic_build,
    runtime_deb_deps, staging_dir, BuildStep, DependencyStep, Download,
};
use hpm::commands::release::{
    asked_for, check_archive, release_files, release_repository, release_tag, signature_verdict,
    SignatureCheck,
};
use hpm::commands::solver::{solve_batch_versions, BatchPackage, Candidate};
use hpm::hash::{compute_dir_hash, compute_file_hash, verify_checksum};
use hpm::hooks::HookKind;
use hpm::manifest::Manifest;
use hpm::repo::{BuildConfig, BuildSource, GithubAsset, GithubRelease, PackageMeta, RepoIndex};
use hpm::state::State;

fn texts(v: &[&str]) -> Vec<String> {
    v.iter().map(|s| s.to_string()).collect()
}

fn manifest(name: &str, version: &str, more: &str) -> Manifest {
    let text = format!("[metadata]\n-> name => {}\n-> version => {}\n{}", name, version, more);
    Manifest::parse(&text, false).unwrap()
}

fn index(names: &[&str]) -> RepoIndex {
    let mut packages = NameMap::new();
    for n in names {
        packages.insert(n, &format!("https://github.com/x/{}", n));
    }
    RepoIndex { packages }
}

fn meta(tags: &[&str]) -> PackageMeta {
    PackageMeta {
        name: "m".to_string(),
        version: "1.0.0".to_string(),
        summary: String::new(),
        authors: String::new(),
        license: String::new(),
        tags: texts(tags),
        available_versions: Vec::new(),
        fetched_at: 0,
    }
}

#[test]
fn arguments_of_install() {
    let a = parse_install_args(&texts(&["a", "--release", "-v", "b@1.0", "--require-signed"]));
    assert_eq!(a.specs, texts(&["a", "b@1.0"]));
    assert!(a.use_release && a.require_signed && a.verbose);
    assert!(a.problem().is_none());
    let b = parse_install_args(&texts(&["a", "--require-signed"]));
    assert!(matches!(b.problem(), Some(InstallArgsProblem::SignedWithoutRelease)));
    let c = parse_install_args(&texts(&["--release"]));
    assert!(matches!(c.problem(), Some(InstallArgsProblem::NothingNamed)));
    assert!(install_args_message(InstallArgsProblem::NothingNamed).contains("hpm install"));
}

#[test]
fn a_specification_names_a_version() {
    assert_eq!(split_spec("a@1@2"), ("a".to_string(), Some("1@2".to_string())));
    assert_eq!(split_spec("a"), ("a".to_string(), None));
}

#[test]
fn tags_stand_for_their_packages() {
    let idx = index(&["gcc", "make", "vim"]);
    let cached = vec![
        ("gcc".to_string(), meta(&["dev"])),
        ("make".to_string(), meta(&["dev"])),
    ];
    assert_eq!(
        expand_specs(&texts(&["@dev", "make", "vim"]), &idx, &cached).unwrap(),
        texts(&["gcc", "make", "vim"])
    );
    assert_eq!(
        expand_specs(&texts(&["@dev", "gcc"]), &idx, &cached).unwrap(),
        texts(&["gcc", "make", "gcc"])
    );
    let e = expand_specs(&texts(&["@none"]), &idx, &cached).unwrap_err();
    assert_eq!(e.tag, "none");
    assert_eq!(e.available, texts(&["dev"]));
    assert!(unknown_tag_message(&e).contains("none"));
}

#[test]
fn no_package_is_named_twice() {
    assert!(check_inter_package_conflicts(&texts(&["a", "b"])).is_ok());
    assert_eq!(
        check_inter_package_conflicts(&texts(&["a@1.0", "b", "a@2.0"])),
        Err("Duplicate package 'a' in install list".to_string())
    );
}

#[test]
fn what_is_there_is_not_installed_again() {
    let idx = index(&["a", "b"]);
    let mut state = State::new();
    let mut current = NameMap::new();
    record_install(&mut state, "a", "1.0.0", &manifest("a", "1.0.0", ""), "sum", true, &current, 1);
    current.insert("a", "1.0.0");
    let plan = plan_install(&texts(&["a", "b"]), &idx, &Vec::new(), &state, &current).unwrap();
    assert_eq!(plan.to_install, texts(&["b"]));
    assert_eq!(plan.notes.len(), 1);
    assert!(matches!(
        plan_install(&texts(&["zzz"]), &idx, &Vec::new(), &state, &current),
        Err(PlanProblem::NotFound(_))
    ));
    assert!(matches!(
        plan_install(&texts(&["@t"]), &idx, &Vec::new(), &state, &current),
        Err(PlanProblem::UnknownTag(_))
    ));
    assert!(matches!(
        plan_install(&texts(&["b@1", "b@2"]), &idx, &Vec::new(), &state, &current),
        Err(PlanProblem::Duplicate(_))
    ));
    assert!(install_snapshot_name(&texts(&["a", "b"])).starts_with("pre-install"));
}

#[test]
fn versions_are_tried_from_the_newest() {
    assert_eq!(order_versions(&texts(&["1.0", "1.10", "1.9"]), true), vec![1, 2, 0]);
    assert_eq!(candidate_tags(&texts(&["1", "2", "3", "4", "5", "6", "7", "8"])), vec![7, 6, 5, 4, 3, 2]);
}

#[test]
fn a_version_is_found_among_tags() {
    let tags = texts(&["v1.0.0", "v1.1.0"]);
    assert_eq!(find_tag(&tags, "1.0.0", "a").unwrap(), 0);
    assert!(find_tag(&tags, "9.9.9", "a").is_err());
    let (v, tag) = resolve_version(&tags, &tags, &None, "a").unwrap();
    assert_eq!(v, "1.1.0");
    assert_eq!(tag, Some("v1.1.0".to_string()));
}

fn candidate(name: &str, version: &str, more: &str) -> Candidate {
    Candidate { version: version.to_string(), manifest: manifest(name, version, more) }
}

#[test]
fn an_older_version_is_taken_where_the_newest_conflicts() {
    let batch = vec![
        BatchPackage {
            name: "a".to_string(),
            candidates: vec![
                candidate("a", "2.0.0", "[conflicts]\n-> b => \"\"\n"),
                candidate("a", "1.0.0", ""),
            ],
        },
        BatchPackage { name: "b".to_string(), candidates: vec![candidate("b", "1.0.0", "")] },
    ];
    let chosen = solve_batch_versions(&batch, &State::new()).unwrap();
    assert_eq!(chosen, vec![1, 0]);
    let text = resolution_text(&batch, &chosen);
    assert!(text.contains("a@1.0.0"));
    let notes = replacement_notes(&batch, &chosen, &texts(&["a", "b"]));
    assert_eq!(notes.len(), 1);
}

#[test]
fn packages_that_always_conflict_cannot_be_installed() {
    let batch = vec![
        BatchPackage {
            name: "a".to_string(),
            candidates: vec![candidate("a", "2.0.0", "[conflicts]\n-> b => \"\"\n")],
        },
        BatchPackage { name: "b".to_string(), candidates: vec![candidate("b", "1.0.0", "")] },
    ];
    assert!(solve_batch_versions(&batch, &State::new()).is_err());
}

#[test]
fn candidates_are_what_can_be_read() {
    let attempts = vec![
        Attempt { version: "2.0.0".to_string(), manifest: Err("broken".to_string()) },
        Attempt { version: "1.0.0".to_string(), manifest: Ok(manifest("a", "1.0.0", "")) },
    ];
    let b = gather_candidates("a", 2, attempts).unwrap();
    assert_eq!(b.candidates.len(), 1);
    assert_eq!(b.candidates[0].version, "1.0.0");
    let none = vec![Attempt { version: "2.0.0".to_string(), manifest: Err("broken".to_string()) }];
    assert!(gather_candidates("a", 1, none).is_err());
}

#[test]
fn steps_of_an_installation() {
    let m = Manifest::parse(
        "[metadata]\n-> name => t\n-> version => 1.0.0\n-> bins.t => \"\"\n[specs]\n-> dependencies\n--> lib => >=1.0.0\n",
        true,
    )
    .unwrap();
    let steps = install_steps("t", &m, &None);
    assert!(matches!(&steps[0], InstallStep::Dependency { name, .. } if name == "lib"));
    assert!(matches!(&steps[1], InstallStep::Build));
    assert!(matches!(&steps[2], InstallStep::CheckContents));
    assert!(matches!(&steps[3], InstallStep::RunHook(HookKind::PreInstall)));
    assert!(matches!(&steps[4], InstallStep::PrepareStaging));
    assert!(matches!(&steps[9], InstallStep::MoveIntoPlace));
    assert!(matches!(&steps[10], InstallStep::Wrapper(b) if b == "t"));
    assert!(matches!(&steps[11], InstallStep::Completions(b) if b == "t"));
    assert!(matches!(&steps[12], InstallStep::RunHook(HookKind::PostInstall)));
    assert!(matches!(&steps[13], InstallStep::Record));
    assert!(matches!(&steps[14], InstallStep::Link));
    assert!(matches!(&steps[15], InstallStep::Compress));
    assert_eq!(steps.len(), 16);
}

#[test]
fn a_failed_step_ends_an_installation() {
    let steps = install_steps("t", &manifest("t", "1.0.0", ""), &None);
    let at = |s: fn(&InstallStep) -> bool| steps.iter().position(s).unwrap();
    let copy = at(|s| matches!(s, InstallStep::CopyContents));
    assert!(matches!(next_step(&steps, copy, false), NextStep::RemoveStagingAndStop));
    assert!(matches!(next_step(&steps, copy, true), NextStep::Take(i) if i == copy + 1));
    let build = at(|s| matches!(s, InstallStep::Build));
    assert!(matches!(next_step(&steps, build, false), NextStep::Stop));
    let compress = at(|s| matches!(s, InstallStep::Compress));
    assert!(matches!(next_step(&steps, compress, false), NextStep::Finished));
}

#[test]
fn only_the_hook_before_an_installation_can_stop_it() {
    let m = Manifest::parse("[metadata]\n-> name => t\n-> version => 1.0.0\n", true).unwrap();
    let steps = install_steps("t", &m, &None);
    let at = |k: HookKind| {
        steps.iter().position(|s| matches!(s, InstallStep::RunHook(h) if *h == k)).unwrap()
    };
    assert!(matches!(next_step(&steps, at(HookKind::PreInstall), false), NextStep::Stop));
    let after = at(HookKind::PostInstall);
    assert!(matches!(next_step(&steps, after, false), NextStep::Take(i) if i == after + 1));
}

#[test]
fn nothing_is_recorded_where_a_step_before_fails() {
    let steps = install_steps("t", &manifest("t", "1.0.0", "-> bins.t => \"\"\n"), &None);
    for failing in 0..steps.len() - 3 {
        let mut at = 0;
        let mut recorded = false;
        loop {
            if matches!(steps[at], InstallStep::Record) {
                recorded = true;
            }
            match next_step(&steps, at, at != failing) {
                NextStep::Take(i) => at = i,
                _ => break,
            }
        }
        assert!(!recorded);
        assert_eq!(at, failing);
    }
}

#[test]
fn whether_a_package_can_be_installed() {
    let state = State::new();
    let m = manifest("a", "1.0.0", "-> arch => aarch64\n");
    assert!(check_installable(&state, "a", &m, "aarch64").is_ok());
    assert!(check_installable(&state, "a", &m, "x86_64").unwrap_err().starts_with("Architecture mismatch"));
    let mut state = State::new();
    record_install(&mut state, "vim", "9.0.0", &manifest("vim", "9.0.0", ""), "s", true, &NameMap::new(), 0);
    let m = manifest("emacs", "1.0.0", "[conflicts]\n-> vim => \"\"\n");
    let e = check_installable(&state, "emacs", &m, "x86_64").unwrap_err();
    assert!(e.starts_with("Cannot install 'emacs': conflicts:\n  ✗ "));
}

#[test]
fn what_is_to_be_done_about_a_dependency() {
    let mut state = State::new();
    assert!(matches!(
        dependency_step(&state, "lib", ">=1.0"),
        DependencyStep::Install { version: None, replaces: false }
    ));
    assert!(matches!(
        dependency_step(&state, "lib", "1.5"),
        DependencyStep::Install { version: Some(v), .. } if v == "1.5"
    ));
    record_install(&mut state, "lib", "1.2.0", &manifest("lib", "1.2.0", ""), "s", false, &NameMap::new(), 0);
    assert!(matches!(dependency_step(&state, "lib", ">=1.0"), DependencyStep::Satisfied));
    assert!(matches!(
        dependency_step(&state, "lib", ">=2.0"),
        DependencyStep::Install { version: None, replaces: true }
    ));
}

#[test]
fn installing_is_recorded() {
    let mut state = State::new();
    let mut current = NameMap::new();
    record_install(&mut state, "lib", "1.0.0", &manifest("lib", "1.0.0", ""), "x", false, &current, 3);
    current.insert("lib", "1.0.0");
    let m = manifest("app", "2.0.0", "[specs]\n-> dependencies\n--> lib => >=1.0.0\n--> other => \"\"\n");
    record_install(&mut state, "app", "2.0.0", &m, "y", true, &current, 4);
    let info = state.packages.get("app", "2.0.0").unwrap();
    assert_eq!(info.checksum, "y");
    assert!(info.manually_installed);
    assert!(info.depends_on.contains("lib@1.0.0"));
    assert!(info.depends_on.contains("other"));
    assert!(state.packages.get("lib", "1.0.0").unwrap().required_by.contains("app@2.0.0"));
}

#[test]
fn system_packages_are_put_together() {
    assert_eq!(merge_strings(&texts(&["a", "b"]), &texts(&["b", "c"])), texts(&["a", "b", "c"]));
    let m = manifest("a", "1.0.0", "[build]\n-> deb_deps => make\n[runtime]\n-> deb_deps => curl\n");
    let config = BuildConfig {
        build_deps: texts(&["gcc", "make"]),
        runtime_deps: texts(&["git"]),
        ..BuildConfig::default()
    };
    assert_eq!(build_deb_deps(&m, &Some(config)), texts(&["make", "gcc"]));
    assert_eq!(runtime_deb_deps(&m, &None), texts(&["curl"]));
}

#[test]
fn how_contents_are_obtained() {
    let config = BuildConfig {
        source: BuildSource::Download {
            url: "https://x/v{version}/t.tar.gz".to_string(),
            binary_path: String::new(),
            strip_components: 1,
        },
        ..BuildConfig::default()
    };
    match run_build_config(&config, "1.2.0") {
        BuildStep::Fetch { url, kind, only, .. } => {
            assert_eq!(url, "https://x/v1.2.0/t.tar.gz");
            assert!(matches!(kind, Download::Tar));
            assert_eq!(only, None);
        }
        _ => panic!("it is fetched"),
    }
    assert!(matches!(run_build_config(&BuildConfig::default(), "1"), BuildStep::UseContents));
    let build = BuildConfig {
        source: BuildSource::Build { commands: texts(&["make", "make install"]), output: "out/t".to_string() },
        ..BuildConfig::default()
    };
    match run_build_config(&build, "1") {
        BuildStep::RunScript { script, output } => {
            assert!(script.ends_with("make\nmake install"));
            assert_eq!(output, "out/t");
        }
        _ => panic!("it is built"),
    }
    assert_eq!(install_path_of(&build, "t"), "bin/t");
    let m = manifest("a", "1.0.0", "[build]\n-> commands => make\n");
    assert!(!run_classic_build(false, &m).is_empty());
}

#[test]
fn programs_are_found() {
    assert_eq!(find_binary_in_dir(true, true, &Vec::new(), "t"), Some("bin/t".to_string()));
    assert_eq!(find_binary_in_dir(false, true, &Vec::new(), "t"), Some("t".to_string()));
    assert_eq!(
        find_binary_in_dir(false, false, &texts(&["lib/x", "opt/t"]), "t"),
        Some("opt/t".to_string())
    );
    assert_eq!(find_binary_in_dir(false, false, &texts(&["lib/x"]), "t"), None);
    let m = manifest("t", "1.0.0", "-> bins.t => \"opt/t\"\n");
    assert_eq!(binary_path(&m, "t", true, true, false, &Vec::new()), Some("opt/t".to_string()));
    assert_eq!(binary_path(&m, "t", false, true, false, &Vec::new()), Some("bin/t".to_string()));
    assert_eq!(bin_name_for_pkg(&m, "pkg"), "t");
    assert_eq!(bin_name_for_pkg(&manifest("x", "1.0.0", ""), "pkg"), "pkg");
    assert!(binary_not_found_help("t", &texts(&["bin/u"])).contains("bin/u"));
    assert!(needs_exec_bit(0o100644, &b"#!/bin/sh\n".to_vec()));
    assert!(needs_exec_bit(0o100755, &b"text".to_vec()));
    assert!(!needs_exec_bit(0o100644, &b"text".to_vec()));
}

#[test]
fn places_of_an_installation() {
    assert_eq!(staging_dir("/s/", "t", "1.0"), "/s/t/.staging-1.0");
    assert_eq!(no_contents_message("t", "1.0"), "No 'contents/' for 't@1.0'");
    let c = completion_targets("/h", "t");
    assert_eq!(c.len(), 3);
    assert_eq!(c[0].file, "t.bash");
    assert_eq!(c[0].dir, "/h/.local/share/bash-completion/completions");
    assert_eq!(c[2].dir, "/h/.config/fish/completions");
}

#[test]
fn release_is_named_by_its_tag() {
    assert_eq!(release_tag("my-tool@v1.2.0").as_deref(), Some("v1.2.0"));
    assert_eq!(release_tag("my-tool"), None);
    let asked = |spec: &str, release: bool| asked_for(spec, release);
    let pair = |n: &str, v: &str| (n.to_string(), Some(v.to_string()));
    assert_eq!(asked("my-tool@v1.2.0", true), pair("my-tool", "1.2.0"));
    assert_eq!(asked("my-tool@1.2.0", true), pair("my-tool", "1.2.0"));
    assert_eq!(asked("my-tool@v1.2.0", false), pair("my-tool", "v1.2.0"));
    assert_eq!(asked("my-tool", true), ("my-tool".to_string(), None));
}

#[test]
fn files_of_a_release() {
    let asset = |n: &str| GithubAsset { name: n.to_string(), browser_download_url: format!("https://x/{}", n) };
    let r = GithubRelease {
        tag_name: "v1".to_string(),
        assets: vec![asset("t.hpm.sha256"), asset("t.hpm"), asset("t.hpm.sig")],
    };
    let f = release_files(&r, "o", "r").unwrap();
    assert_eq!((f.archive, f.checksum, f.signature), (1, Some(0), Some(2)));
    let none = GithubRelease { tag_name: "v1".to_string(), assets: vec![asset("readme")] };
    assert!(release_files(&none, "o", "r").unwrap_err().contains("has no .hpm asset"));
    assert_eq!(
        release_repository("t", "https://github.com/o/r").unwrap(),
        ("o".to_string(), "r".to_string())
    );
    assert!(release_repository("t", "https://gitlab.com/o/r").is_err());
}

#[test]
fn archives_are_checked() {
    let data = b"hello".to_vec();
    let sum = compute_file_hash(&data);
    assert_eq!(sum, "2cf24dba5fb0a30e26e83b2ac5b9e29e1b161e5c1fa7425e73043362938b9824");
    assert!(verify_checksum(&data, &sum));
    assert!(!verify_checksum(&data, "00"));
    assert_eq!(check_archive("t.hpm", &data, &Some(format!("{}  t.hpm\n", sum))), Ok(None));
    let bad = check_archive("t.hpm", &data, &Some("dead  t.hpm\n".to_string())).unwrap_err();
    assert!(bad.starts_with("Checksum mismatch for t.hpm!\n  expected: dead\n"));
    assert!(check_archive("t.hpm", &data, &None).unwrap().is_some());
}

#[test]
fn signatures_are_judged() {
    assert!(signature_verdict("t", &SignatureCheck::Absent, false).is_ok());
    assert!(signature_verdict("t", &SignatureCheck::Absent, true).is_err());
    assert!(signature_verdict("t", &SignatureCheck::Good("Ann".to_string()), true).unwrap().contains("Ann"));
    let e = signature_verdict("t", &SignatureCheck::Bad("expired".to_string()), false).unwrap_err();
    assert!(e.starts_with("GPG signature verification FAILED for t: expired"));
}

#[test]
fn test_compute_hash() {
    let h1 = compute_dir_hash(&vec![b"hello".to_vec(), b"world".to_vec()]);
    let h2 = compute_dir_hash(&vec![b"hello".to_vec(), b"world".to_vec()]);
    assert_eq!(h1, h2);
    let h3 = compute_dir_hash(&vec![b"changed".to_vec(), b"world".to_vec()]);
    assert_ne!(h1, h3);
    assert_eq!(h1, "936a185caaa266bb9cbe981e9e05cb78cd732b0b3280eb944412bb6f8f8f07af");
}
