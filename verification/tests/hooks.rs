use hpm::collections::NameSet;
use hpm::hooks::{
    find_hook_file, hook_environment, hook_exists, hook_outcome, interpreter_candidates,
    select_interpreter, shebang_line, validate_hooks, HookContext, HookFile, HookKind, HookLang,
    HookOutcome,
};

fn texts(v: &[&str]) -> Vec<String> {
    v.iter().map(|s| s.to_string()).collect()
}

fn have(v: &[&str]) -> NameSet {
    NameSet::from_names(&texts(v))
}

#[test]
fn test_hooks_validate() {
    let files = vec![HookFile {
        name: "post-install.sh".to_string(),
        content: Some(b"echo done".to_vec()),
        executable: Some(true),
    }];
    let warnings = validate_hooks(&files);
    assert!(warnings.iter().any(|w| w.contains("shebang")));
}

#[test]
fn hooks_are_looked_over() {
    let files = vec![
        HookFile { name: "notes.txt".to_string(), content: None, executable: None },
        HookFile {
            name: "pre-install.hl".to_string(),
            content: Some(b"#!/usr/bin/env hl\n".to_vec()),
            executable: Some(false),
        },
    ];
    let warnings = validate_hooks(&files);
    assert_eq!(warnings.len(), 3);
    assert!(warnings[0].starts_with("Unknown hook file: hooks/notes.txt"));
    assert!(warnings[1].contains("missing 'using <gen 2>' declaration"));
    assert!(warnings[2].contains("is not executable"));
}

#[test]
fn a_hook_in_order_is_not_mentioned() {
    let files = vec![HookFile {
        name: "post-update.py".to_string(),
        content: Some(b"#!/usr/bin/env python3\nprint(1)\n".to_vec()),
        executable: Some(true),
    }];
    assert!(validate_hooks(&files).is_empty());
}

#[test]
fn test_hooks_fail_blocks() {
    match hook_outcome(HookKind::PreInstall, HookLang::Shell, Some(1)) {
        HookOutcome::Blocked(m) => {
            assert!(m.starts_with("Hook 'pre-install' failed with exit code 1."));
            assert!(m.ends_with("Fix the hook script or remove hooks/pre-install.sh to skip it."));
        }
        _ => panic!("a failing hook before an installation blocks it"),
    }
}

#[test]
fn only_hooks_that_run_before_block() {
    assert!(matches!(hook_outcome(HookKind::PreRemove, HookLang::Ruby, Some(3)), HookOutcome::Blocked(_)));
    assert!(matches!(hook_outcome(HookKind::PostInstall, HookLang::Shell, Some(1)), HookOutcome::Ignored));
    assert!(matches!(hook_outcome(HookKind::PostRemove, HookLang::Shell, None), HookOutcome::Ignored));
    assert!(matches!(hook_outcome(HookKind::PostUpdate, HookLang::Shell, Some(2)), HookOutcome::Ignored));
    assert!(matches!(hook_outcome(HookKind::PreInstall, HookLang::Shell, Some(0)), HookOutcome::Completed));
    assert!(HookKind::PreInstall.blocks_on_failure());
    assert!(!HookKind::PostUpdate.blocks_on_failure());
}

#[test]
fn a_hook_is_found_by_its_name() {
    let present = texts(&["pre-install.sh", "pre-install.py"]);
    let (name, lang) = find_hook_file(&present, HookKind::PreInstall).unwrap();
    assert_eq!(name, "pre-install.py");
    assert!(matches!(lang, HookLang::Python));
    assert!(hook_exists(&present, HookKind::PreInstall));
    assert!(!hook_exists(&present, HookKind::PostInstall));
}

#[test]
fn the_first_line_names_the_interpreter() {
    assert_eq!(shebang_line(&b"#!/usr/bin/env python3 -u\nx".to_vec()), Some("/usr/bin/env python3 -u".to_string()));
    assert_eq!(shebang_line(&b"echo x\n".to_vec()), None);
}

#[test]
fn an_interpreter_that_is_there_is_chosen() {
    let line = Some("/usr/bin/env python3".to_string());
    assert_eq!(select_interpreter(&line, "sh", &have(&["python3", "sh"])), "python3");
    assert_eq!(select_interpreter(&line, "sh", &have(&["sh"])), "sh");
    assert_eq!(select_interpreter(&None, "ruby", &have(&["ruby"])), "ruby");
    assert_eq!(select_interpreter(&None, "ruby", &have(&[])), "sh");
    assert_eq!(select_interpreter(&Some("/usr/bin/env hl".to_string()), "hl", &have(&[])), "sh");
    assert_eq!(select_interpreter(&Some("/bin/bash".to_string()), "sh", &have(&["bash"])), "bash");
}

#[test]
fn only_candidates_are_looked_for() {
    let line = Some("/usr/bin/env python3".to_string());
    let asked = interpreter_candidates(&line, "sh");
    let mut seen = NameSet::new();
    for name in ["python3", "sh", "ruby", "perl"] {
        if asked.contains(name) {
            seen.insert(name);
        }
    }
    let all = have(&["python3", "sh", "ruby", "perl"]);
    assert_eq!(select_interpreter(&line, "sh", &seen), select_interpreter(&line, "sh", &all));
}

#[test]
fn a_hook_learns_what_it_is_run_for() {
    let ctx = HookContext { pkg_name: "a", pkg_version: "2.0", store_path: "/s", old_version: Some("1.0") };
    let env = hook_environment(HookKind::PostUpdate, &ctx, "sh");
    assert_eq!(env[0], ("HPM_PKG_NAME".to_string(), "a".to_string()));
    assert_eq!(env[3], ("HPM_HOOK_TYPE".to_string(), "post-update".to_string()));
    assert_eq!(env[5], ("HPM_OLD_VERSION".to_string(), "1.0".to_string()));
}

#[test]
fn bytes_that_are_no_text_are_read_all_the_same() {
    assert_eq!(shebang_line(&vec![b'#', b'!', 0xff, b'\n']), Some("\u{fffd}".to_string()));
}
