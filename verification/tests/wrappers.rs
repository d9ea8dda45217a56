use hpm::commands::wrappers::{
    ask_wrapper_resolution, classify_wrapper, custom_wrapper_name, describe_foreign_file,
    extract_pkg_from_wrapper, is_system_critical, offered_wrapper_name, remember_wrapper,
    resolve_wrapper_name, suggested_name, wrapper_content, ForeignFile, WrapperAnswer, WrapperConflict,
    WrapperPlan,
};
use hpm::state::WrapperNames;

#[test]
fn a_wrapper_runs_its_program() {
    assert_eq!(
        wrapper_content("hpm", "tool", "bin/tool"),
        "#!/bin/sh\nexec hpm run tool bin/tool \"$@\"\n"
    );
}

#[test]
fn a_written_wrapper_is_recognised() {
    let text = wrapper_content("/usr/bin/hpm", "tool", "bin/tool");
    assert_eq!(extract_pkg_from_wrapper(&text), Some("tool".to_string()));
    assert!(matches!(
        classify_wrapper("tool", true, &Some(text)),
        WrapperConflict::HpmWrapper { pkg } if pkg == "tool"
    ));
    assert_eq!(extract_pkg_from_wrapper("#!/bin/sh\necho x\n"), None);
}

#[test]
fn what_stands_at_a_place() {
    assert!(matches!(classify_wrapper("tool", false, &None), WrapperConflict::Free));
    assert!(matches!(classify_wrapper("grep", true, &None), WrapperConflict::SystemCritical));
    assert!(matches!(classify_wrapper("tool", true, &None), WrapperConflict::Foreign));
    assert!(matches!(
        classify_wrapper("tool", true, &Some("#!/bin/sh\necho hi\n".to_string())),
        WrapperConflict::Foreign
    ));
    assert!(is_system_critical("bash"));
    assert!(is_system_critical("["));
    assert!(!is_system_critical("firefox"));
}

#[test]
fn a_package_takes_its_own_wrapper() {
    let own = WrapperConflict::HpmWrapper { pkg: "tool".to_string() };
    assert!(matches!(resolve_wrapper_name("t", "tool", &None, &own), WrapperPlan::Use(n) if n == "t"));
    let other = WrapperConflict::HpmWrapper { pkg: "else".to_string() };
    assert!(matches!(resolve_wrapper_name("t", "tool", &None, &other), WrapperPlan::AskOwned(p) if p == "else"));
    assert!(matches!(resolve_wrapper_name("t", "tool", &None, &WrapperConflict::Foreign), WrapperPlan::AskForeign));
    assert!(matches!(
        resolve_wrapper_name("t", "tool", &None, &WrapperConflict::SystemCritical),
        WrapperPlan::OfferOther
    ));
}

#[test]
fn a_remembered_name_counts_first() {
    let remembered = Some(("tool-t".to_string(), WrapperConflict::Free));
    assert!(matches!(
        resolve_wrapper_name("t", "tool", &remembered, &WrapperConflict::Foreign),
        WrapperPlan::Use(n) if n == "tool-t"
    ));
    let taken = Some(("tool-t".to_string(), WrapperConflict::Foreign));
    assert!(matches!(
        resolve_wrapper_name("t", "tool", &taken, &WrapperConflict::Free),
        WrapperPlan::Use(n) if n == "t"
    ));
}

#[test]
fn answers_about_a_wrapper() {
    assert_eq!(suggested_name("pkg", "bin"), "pkg-bin");
    assert!(matches!(ask_wrapper_resolution("1\n", "bin", "pkg", false), WrapperAnswer::Use(n) if n == "bin"));
    assert!(matches!(ask_wrapper_resolution("3\n", "bin", "pkg", false), WrapperAnswer::Skip));
    assert!(matches!(ask_wrapper_resolution("\n", "bin", "pkg", false), WrapperAnswer::Use(n) if n == "pkg-bin"));
    assert!(matches!(ask_wrapper_resolution("2\n", "bin", "pkg", true), WrapperAnswer::AskCustom));
    assert!(matches!(custom_wrapper_name(" mine \n"), WrapperAnswer::Use(n) if n == "mine"));
    assert!(matches!(custom_wrapper_name("\n"), WrapperAnswer::Skip));
    assert!(matches!(offered_wrapper_name("\n", "bin", "pkg", false), WrapperAnswer::Use(n) if n == "pkg-bin"));
    assert!(matches!(offered_wrapper_name("N\n", "bin", "pkg", false), WrapperAnswer::Skip));
    assert!(matches!(offered_wrapper_name("\n", "bin", "pkg", true), WrapperAnswer::Skip));
}

#[test]
fn a_chosen_name_is_remembered() {
    let mut names = WrapperNames::new();
    remember_wrapper(&mut names, &WrapperPlan::AskForeign, "pkg", "bin", "pkg-bin");
    assert_eq!(names.get("pkg", "bin"), Some(&"pkg-bin".to_string()));
    remember_wrapper(&mut names, &WrapperPlan::OfferOther, "pkg", "ls", "pkg-ls");
    assert_eq!(names.get("pkg", "ls"), Some(&"pkg-ls".to_string()));
    let remembered = Some(("pkg-ls".to_string(), WrapperConflict::Free));
    let plan = resolve_wrapper_name("ls", "pkg", &remembered, &WrapperConflict::SystemCritical);
    assert!(matches!(plan, WrapperPlan::Use(n) if n == "pkg-ls"));
    remember_wrapper(&mut names, &WrapperPlan::Use("x".to_string()), "pkg", "own", "x");
    assert!(names.get("pkg", "own").is_none());
}

#[test]
fn a_foreign_file_is_described() {
    assert_eq!(describe_foreign_file(&None), "unknown");
    let link = ForeignFile { is_symlink: true, content: None, size: 0 };
    assert_eq!(describe_foreign_file(&Some(link)), "symlink");
    let script = ForeignFile { is_symlink: false, content: Some(b"#!/bin/bash\necho\n".to_vec()), size: 17 };
    assert_eq!(describe_foreign_file(&Some(script)), "script: #!/bin/bash");
    let elf = ForeignFile { is_symlink: false, content: Some(b"\x7fELF....".to_vec()), size: 8 };
    assert_eq!(describe_foreign_file(&Some(elf)), "compiled binary (ELF)");
    let other = ForeignFile { is_symlink: false, content: Some(b"text".to_vec()), size: 4 };
    assert_eq!(describe_foreign_file(&Some(other)), "4 bytes");
}
