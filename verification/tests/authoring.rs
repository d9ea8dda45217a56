use hpm::collections::{NameMap, NameSet};
use hpm::commands::create::{
    generate_build_toml, generate_info_hk, generate_readme, kind_choices, kind_has_program,
    kind_is_gui, license_choices, new_package, package_files, placeholder_icon, prompt_answer,
    prompt_bool_answer, prompt_choice_answer, source_choices, validate_pkg_name, Answers, NewBuild,
    NewPackage,
};
use hpm::commands::desktop::{
    capitalise, desktop_entry, entry_source, find_file_by_ext, icon_candidates, icon_source, icon_targets,
    patch_desktop_exec, EntrySource,
};
use hpm::commands::dev::{
    check_kernel_feature, dev_command, dev_steps, environment_ready, tools, DevCommand, DevStep,
    FeatureState, TestSuite,
};
use hpm::commands::lock::{diff_kind, lock_command, DiffKind, LockCommand, LockEntry, LockFile};
use hpm::commands::packing::{
    archive_name, build_args_message, check_binary_portability, check_build_arch, check_git_tag, check_tags,
    checksum_line, has_only_name_chars, is_elf, is_executable_mode, pack_arguments, parse_build_args,
    validate_manifest, validation_failure, BuildArgsProblem, TagCheck,
};
use hpm::commands::verify::{
    check_contents, contents_failure, expected_checksum, key_address, keyring_to_use, signature_step,
    verify_gpg_signature, ContentCheck, Keyring, SignatureFacts, SignatureStep,
};
use hpm::hash::compute_dir_hash;
use hpm::hooks::HookKind;
use hpm::manifest::Manifest;
use hpm::state::State;

fn texts(v: &[&str]) -> Vec<String> {
    v.iter().map(|s| s.to_string()).collect()
}

fn manifest(more: &str) -> Manifest {
    Manifest::parse(&format!("[metadata]\n-> name => tool\n-> version => 1.0.0\n{}", more), false).unwrap()
}

// Starting a package

fn sample_package() -> NewPackage {
    NewPackage {
        name: "tool".to_string(),
        version: "1.0.0".to_string(),
        authors: "Ann".to_string(),
        license: "MIT".to_string(),
        summary: "A tool".to_string(),
        long: "A good tool".to_string(),
        bin: "tool".to_string(),
        is_gui: true,
        needs_network: false,
        categories: String::new(),
        build: NewBuild::Prebuilt,
    }
}

#[test]
fn answers_to_questions() {
    assert_eq!(prompt_answer(" x \n", &None), "x");
    assert_eq!(prompt_answer("\n", &Some("1.0.0".to_string())), "1.0.0");
    assert_eq!(prompt_answer("\n", &None), "");
    assert!(prompt_bool_answer("YES\n", false));
    assert!(!prompt_bool_answer("n\n", true));
    assert!(prompt_bool_answer("what\n", true));
    assert_eq!(prompt_choice_answer("2\n", 4, 0), 2);
    assert_eq!(prompt_choice_answer("9\n", 4, 1), 1);
    assert_eq!(prompt_choice_answer("\n", 4, 3), 3);
}

#[test]
fn names_of_packages() {
    assert!(validate_pkg_name("my-tool_2").is_ok());
    assert_eq!(validate_pkg_name(""), Err("Package name cannot be empty".to_string()));
    assert!(validate_pkg_name("my tool").unwrap_err().contains("invalid characters"));
    assert_eq!(
        validate_pkg_name("-tool"),
        Err("Package name must start with a letter or digit".to_string())
    );
}

#[test]
fn a_new_package_can_be_read() {
    let p = sample_package();
    let m = Manifest::parse(&generate_info_hk(&p), false).unwrap();
    assert_eq!(m.name, "tool");
    assert_eq!(m.version, "1.0.0");
    assert!(m.is_gui);
    assert_eq!(m.summary, "A tool");
    assert_eq!(m.desktop.display_name, "Tool");
    assert_eq!(m.bin_paths.get("tool"), Some(&"bin/tool".to_string()));
    assert!(validate_manifest(&m).errors.is_empty());
}

#[test]
fn files_of_a_new_package() {
    let mut p = sample_package();
    let paths: Vec<String> = package_files(&p).into_iter().map(|f| f.path).collect();
    assert_eq!(
        paths,
        texts(&[
            "contents/bin/tool",
            "contents/icons/tool.svg",
            "info.hk",
            "README.md",
            ".gitignore",
            ".gitattributes",
            ".github/workflows/hpm-validate.yml",
        ])
    );
    let files = package_files(&p);
    assert!(files[0].executable && files[0].keep);
    assert_eq!(files[0].content, "#!/bin/sh\n# tool — replace with actual binary\necho 'Hello from tool!'\n");
    p.build = NewBuild::Download;
    p.is_gui = false;
    let paths: Vec<String> = package_files(&p).into_iter().map(|f| f.path).collect();
    assert_eq!(paths[1], "build.toml");
    assert!(generate_build_toml(&p).contains("type         = \"download\""));
    p.build = NewBuild::Source;
    assert!(generate_build_toml(&p).contains("target/release/tool"));
    assert!(generate_readme(&p).starts_with("# tool\n\nA tool\n"));
}

#[test]
fn letters_are_made_large() {
    assert_eq!(capitalise("ćma"), "Ćma");
    assert_eq!(capitalise(""), "");
    assert!(placeholder_icon("ółw").contains(">Ó</text>"));
    assert!(placeholder_icon("").contains(">?</text>"));
}

// The desktop

#[test]
fn a_desktop_entry_is_written() {
    let m = manifest("-> gui => true\n-> bins.tool => \"\"\n[description]\n-> summary => Nice\n");
    let text = desktop_entry(&m, "tool", "hpm", "tool");
    assert_eq!(
        text,
        "[Desktop Entry]\nType=Application\nName=Tool\nComment=Nice\nExec=hpm run tool tool %F\nCategories=Utility;\nTerminal=false\nIcon=tool\n"
    );
}

#[test]
fn a_desktop_entry_that_is_there_is_changed() {
    let m = manifest("-> bins.tool => \"\"\n");
    let text = patch_desktop_exec("[Desktop Entry]\nExec=/usr/bin/tool --x %U\nName=T\n", "hpm", "tool", &m);
    assert_eq!(text, "[Desktop Entry]\nExec=hpm run tool tool %U\nName=T\n");
    assert!(matches!(
        entry_source(&m, false, &texts(&["share/tool.desktop"])),
        EntrySource::File(p) if p == "share/tool.desktop"
    ));
    assert!(matches!(entry_source(&m, false, &Vec::new()), EntrySource::Written));
    assert_eq!(find_file_by_ext(&texts(&["a.txt", "b.svg"]), "svg"), Some("b.svg".to_string()));
}

#[test]
fn icons_have_their_places() {
    assert_eq!(icon_targets("x.svg", "t", "/i", "/p"), texts(&["/i/scalable/apps/t.svg"]));
    assert_eq!(
        icon_targets("x.png", "t", "/i", "/p"),
        texts(&["/i/256x256/apps/t.png", "/p/t.png"])
    );
    assert_eq!(icon_candidates("t").len(), 3);
    let none = icon_source(&manifest(""), false, "t", (false, false, false), &Vec::new());
    assert_eq!(none, None);
}

// Packing

#[test]
fn arguments_of_build() {
    let a = parse_build_args(&texts(&["name", "--output", "o.hpm", "--sign", "K", "--odd"])).unwrap();
    assert_eq!(a.name, "name");
    assert_eq!(a.output, Some("o.hpm".to_string()));
    assert_eq!(a.sign_key, Some("K".to_string()));
    assert_eq!(a.unknown, texts(&["--odd"]));
    assert!(matches!(parse_build_args(&texts(&["-o"])), Err(BuildArgsProblem::OutputWithoutPath)));
    assert!(matches!(parse_build_args(&texts(&["--sign"])), Err(BuildArgsProblem::SignWithoutKey)));
    assert!(!build_args_message(BuildArgsProblem::SignWithoutKey).is_empty());
    let b = parse_build_args(&Vec::new()).unwrap();
    assert_eq!(archive_name(&b, &manifest("")), "tool-1.0.0.hpm");
}

#[test]
fn a_manifest_is_checked_before_packing() {
    let v = validate_manifest(&manifest(""));
    assert!(v.errors.is_empty());
    assert!(v.warnings.contains(&"authors is empty".to_string()));
    let bad = Manifest::parse("[metadata]\n-> name => _bad name\n-> version => 1.0.0\n", false).unwrap();
    let v = validate_manifest(&bad);
    assert_eq!(
        v.errors,
        texts(&[
            "name contains invalid characters (only a-z, 0-9, -, _ allowed)",
            "name must start with a letter or digit",
        ])
    );
    assert_eq!(validation_failure(2), "info.hk validation failed with 2 error(s)");
    assert!(has_only_name_chars("a-Z_9"));
    assert!(!has_only_name_chars("ą"));
    assert!(check_tags(&texts(&["cli", "dev-tools"])));
    assert!(!check_tags(&texts(&["Dev Tools"])));
}

#[test]
fn versions_match_tags() {
    assert!(matches!(check_git_tag(&Some("v1.0.0".to_string()), "1.0.0"), TagCheck::Matches));
    assert!(matches!(check_git_tag(&Some("v1.1.0".to_string()), "1.0.0"), TagCheck::Differs));
    assert!(matches!(check_git_tag(&None, "1.0.0"), TagCheck::NoTags));
    assert_eq!(check_build_arch(&manifest(""), "x86_64"), ("any".to_string(), true));
}

#[test]
fn programs_are_checked_for_other_machines() {
    let report = "\tlibc.so.6 => /lib/x86_64-linux-gnu/libc.so.6 (0x1)\n\tliba.so => not found\n\tlibb.so => /opt/b/libb.so (0x2)\n";
    let w = check_binary_portability("t", report);
    assert_eq!(w.len(), 2);
    assert!(w[0].starts_with("t: missing dependency 'liba.so'"));
    assert!(w[1].starts_with("t: links against '/opt/b/libb.so'"));
    assert!(check_binary_portability("t", "\tnot a dynamic executable\n").is_empty());
    assert!(is_elf(&b"\x7fELF\x02".to_vec()));
    assert!(!is_elf(&b"#!/bin/sh".to_vec()));
    assert!(is_executable_mode(0o755));
    assert!(!is_executable_mode(0o644));
}

#[test]
fn archives_are_packed_the_same_each_time() {
    let a = pack_arguments(true, "o.hpm");
    assert_eq!(a[..2], texts(&["-I", "zstd"])[..]);
    assert!(a.contains(&"--sort=name".to_string()) && a.contains(&"--mtime=@0".to_string()));
    assert_eq!(pack_arguments(false, "o.hpm")[0], "-z");
    assert_eq!(checksum_line("abc", "o.hpm"), "abc  o.hpm\n");
}

// Verifying

#[test]
fn contents_are_compared_with_what_is_recorded() {
    let files = vec![b"a".to_vec(), b"b".to_vec()];
    let sum = compute_dir_hash(&files);
    assert!(matches!(check_contents(&files, &sum), ContentCheck::Same(s) if s == sum[..32]));
    match check_contents(&files, "0000000000000000ffff") {
        ContentCheck::Different { stored, computed } => {
            assert_eq!(stored, "0000000000000000");
            assert_eq!(computed, sum[..16]);
        }
        _ => panic!("they differ"),
    }
    let mut state = State::new();
    assert_eq!(expected_checksum(&state, "a", &None), Err("Package 'a' not installed".to_string()));
    let one = Some("1".to_string());
    assert_eq!(expected_checksum(&state, "a", &one), Err("No checksum in state for a@1".to_string()));
    state.update_package("a", "1", "sum", true, NameSet::new(), NameSet::new(), 0);
    assert_eq!(expected_checksum(&state, "a", &one), Ok("sum".to_string()));
    assert_eq!(contents_failure("a", "1"), "Content checksum verification failed for a@1");
}

fn good_signature() -> SignatureFacts {
    SignatureFacts {
        fingerprint: Some("ABCD".to_string()),
        key_revoked: false,
        key_expired: false,
        signature_expired: false,
        key_missing: false,
        is_bad: false,
        system_error: false,
    }
}

#[test]
fn only_sound_signatures_are_trusted() {
    assert_eq!(verify_gpg_signature(&Vec::new()), Err("No valid signatures found".to_string()));
    assert_eq!(verify_gpg_signature(&vec![good_signature()]), Ok("ABCD".to_string()));
    let bad = |change: fn(&mut SignatureFacts)| {
        let mut f = good_signature();
        change(&mut f);
        verify_gpg_signature(&vec![good_signature(), f]).unwrap_err()
    };
    assert!(bad(|f| f.key_revoked = true).contains("REVOKED"));
    assert!(bad(|f| f.key_expired = true).contains("has EXPIRED"));
    assert!(bad(|f| f.signature_expired = true).starts_with("Signature itself has EXPIRED"));
    assert!(bad(|f| f.key_missing = true).contains("not in trusted keyring"));
    assert!(bad(|f| f.is_bad = true).starts_with("BAD signature"));
    assert!(bad(|f| f.system_error = true).contains("system error"));
}

#[test]
fn keys_and_signatures() {
    assert!(matches!(signature_step(false, true), SignatureStep::NotSigned));
    assert!(matches!(signature_step(true, false), SignatureStep::ManifestMissing));
    assert!(matches!(signature_step(true, true), SignatureStep::Check));
    assert!(matches!(keyring_to_use(true, true), Keyring::System));
    assert!(matches!(keyring_to_use(false, true), Keyring::User));
    assert!(matches!(keyring_to_use(false, false), Keyring::Neither));
    assert_eq!(key_address("https://x/k.asc"), "https://x/k.asc");
    assert_eq!(key_address("ABCD"), "https://keyserver.ubuntu.com/pks/lookup?op=get&search=ABCD");
}

// Locking

fn entry(version: &str) -> LockEntry {
    LockEntry {
        version: version.to_string(),
        git_commit: "abc".to_string(),
        repo_url: "https://github.com/test/test".to_string(),
        checksum: "dead".to_string(),
        dependencies: NameMap::new(),
        manually_installed: true,
        installed_at: 0,
    }
}

#[test]
fn test_lock_generate() {
    let lock = LockFile::new(7, "0.9.0");
    assert_eq!(lock.lock_version, 1);
    assert_eq!(lock.generated_at, 7);
    assert_eq!(lock.hpm_version, "0.9.0");
    assert!(lock.packages.is_empty());
}

#[test]
fn test_lock_check_ok() {
    let lock = LockFile::new(0, "0.9.0");
    assert!(lock.check_against_state(&State::new(), &NameMap::new()).is_empty());
}

#[test]
fn test_lock_check_diff() {
    let mut lock = LockFile::new(0, "0.9.0");
    lock.packages.push(("missing-pkg".to_string(), entry("1.0.0")));
    let diffs = lock.check_against_state(&State::new(), &NameMap::new());
    assert!(!diffs.is_empty());
    assert!(diffs[0].contains("missing"));
    assert_eq!(diffs[0], "missing: missing-pkg@1.0.0 not installed");
    assert!(matches!(diff_kind(&diffs[0]), DiffKind::Lost));
}

#[test]
fn a_generated_lock_matches() {
    let mut state = State::new();
    state.update_package("a", "1.0", "x", true, NameSet::new(), NameSet::new(), 3);
    let mut current = NameMap::new();
    current.insert("a", "1.0");
    let mut urls = NameMap::new();
    urls.insert("a", "https://github.com/x/a");
    let lock = LockFile::generate(&state, &current, &urls, &NameMap::new(), 9, "0.9.0");
    assert_eq!(lock.packages.len(), 1);
    assert_eq!(lock.packages[0].1.repo_url, "https://github.com/x/a");
    assert!(lock.check_against_state(&state, &current).is_empty());
    state.update_package("a", "1.0", "y", true, NameSet::new(), NameSet::new(), 3);
    assert_eq!(lock.check_against_state(&state, &current).len(), 1);
    assert!(lock.contains("a"));
}

#[test]
fn commands_of_lock() {
    assert!(matches!(lock_command(&Vec::new()), Some(LockCommand::Status)));
    assert!(matches!(lock_command(&texts(&["generate"])), Some(LockCommand::Generate)));
    assert!(matches!(lock_command(&texts(&["check"])), Some(LockCommand::Check)));
    assert!(lock_command(&texts(&["odd"])).is_none());
}

// Working on packages

#[test]
fn what_is_asked_of_dev() {
    assert!(matches!(dev_command(&Vec::new(), false), Ok(DevCommand::Test)));
    assert!(matches!(dev_command(&texts(&["test-full"]), false), Ok(DevCommand::TestFull)));
    assert!(matches!(dev_command(&texts(&["check-env"]), false), Ok(DevCommand::CheckEnv)));
    assert!(matches!(dev_command(&texts(&["./p"]), true), Ok(DevCommand::TryPackage(p)) if p == "./p"));
    match dev_command(&texts(&["./p", "run", "b", "--flag"]), true) {
        Ok(DevCommand::RunProgram { path, program, args }) => {
            assert_eq!((path.as_str(), program.as_str()), ("./p", "b"));
            assert_eq!(args, texts(&["--flag"]));
        }
        _ => panic!("it is run"),
    }
    assert_eq!(
        dev_command(&texts(&["odd"]), false).unwrap_err(),
        "Unknown dev subcommand: odd (test|test-full|check-env)"
    );
    assert!(dev_command(&texts(&["./p", "run"]), true).is_err());
}

#[test]
fn trying_a_package_out() {
    let steps = dev_steps(false);
    assert_eq!(steps.len(), 7);
    assert_eq!(steps[3], DevStep::Build);
    assert_eq!(steps[4], DevStep::RunHook(HookKind::PreInstall));
    assert_eq!(dev_steps(true).len(), 6);
}

#[test]
fn the_machine_is_looked_over() {
    let t = tools();
    assert_eq!(t[0].program, "git");
    let all = vec![true; t.len()];
    assert!(environment_ready(&t, &all));
    let mut found = all;
    found[2] = false;
    assert!(environment_ready(&t, &found));
    found[0] = false;
    assert!(!environment_ready(&t, &found));
    assert_eq!(check_kernel_feature(&Some("1\n".to_string()), "0"), FeatureState::Enabled);
    assert_eq!(check_kernel_feature(&Some("0\n".to_string()), "0"), FeatureState::Disabled);
    assert_eq!(check_kernel_feature(&None, "0"), FeatureState::NotAvailable);
}

#[test]
fn results_are_counted() {
    let mut suite = TestSuite::new();
    suite.record("a", &None);
    assert_eq!(suite.verdict(), "All tests passed!");
    suite.record("b", &Some("broken".to_string()));
    assert_eq!(suite.verdict(), "1 test(s) failed.");
    assert_eq!(suite.failed[0], ("b".to_string(), "broken".to_string()));
}

#[test]
fn new_package_is_what_was_answered() {
    let answers = |kind: usize, source: usize| Answers {
        name: "tool".to_string(),
        version: "1.0.0".to_string(),
        authors: "A".to_string(),
        license: 2,
        summary: "s".to_string(),
        long: "l".to_string(),
        kind,
        bin: "run".to_string(),
        source,
        needs_network: true,
        categories: "Utility;".to_string(),
    };
    let p = new_package(answers(0, 1));
    assert_eq!((p.license.as_str(), p.bin.as_str(), p.build), ("GPL-3.0", "run", NewBuild::Download));
    assert!(!p.is_gui && !p.needs_network && p.categories.is_empty());
    let p = new_package(answers(1, 2));
    assert!(p.is_gui && p.needs_network);
    assert_eq!((p.categories.as_str(), p.build), ("Utility;", NewBuild::Source));
    let p = new_package(answers(2, 0));
    assert_eq!((p.bin.as_str(), p.build), ("", NewBuild::Nothing));
    assert_eq!(new_package(answers(3, 0)).build, NewBuild::Prebuilt);
    assert_eq!(license_choices()[0], "MIT");
    assert_eq!(kind_choices()[2], "Library / tool (no binary)");
    assert!(kind_is_gui(1) && !kind_is_gui(0) && kind_has_program(3) && !kind_has_program(2));
    assert!(source_choices()[1].starts_with("Download"));
}
