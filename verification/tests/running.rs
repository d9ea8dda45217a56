use hpm::cli::{is_permission_error, parse_command_line, read_task, CliProblem, Invocation, Task};
use hpm::clock::{civil_date, format_timestamp, format_ts};
use hpm::collections::NameSet;
use hpm::commands::run::{missing_program_message, run_path, split_run_spec, switch_version, wrapper_name};
use hpm::commands::upgrade::{
    is_system_path, plan_upgrade, recorded_version, replace_hint, version_or_first, version_record,
};
use hpm::manifest::Manifest;
use hpm::paths::{
    bin_dir, cache_dir, current_link, db_dir, db_path, desktop_dir, icon_dir, join, pixmap_dir,
    resolve_lock_path, store_path, system_lock_path, version_dir,
};
use hpm::sandbox::{
    apply_resource_limits, best_landlock_abi, bind_target, child_outcome, compat_namespaces, exec_command, full_namespaces,
    hook_fallback, hook_namespaces, hook_step_is_taken, hook_steps, hook_timeout_message, hook_tolerates, id_mapping, new_root_path,
    pick_mode, run_commands, sandbox_steps, setup_dev, setup_landlock, setup_landlock_for_hook,
    setup_mounts, setup_sandbox, setup_seccomp, step_is_taken, system_dir_list, tolerates, user_ns_not_ruled_out,
    FileAccess, LimitKind, MountAction, Namespaces, ResourceLimits, SandboxMode, SandboxStep,
};
use hpm::squash::{
    building_image, compress_after_install, compress_command, ensure_mounted, is_mount_point,
    mount_failure, on_disk_size, squashfs_sidecar, CompressStep, MountStep,
};
use hpm::state::{State, WrapperNames};

fn texts(v: &[&str]) -> Vec<String> {
    v.iter().map(|s| s.to_string()).collect()
}

fn manifest(more: &str) -> Manifest {
    Manifest::parse(&format!("[metadata]\n-> name => t\n-> version => 1.0.0\n{}", more), false).unwrap()
}

// The command line

#[test]
fn options_behind_the_command_reach_it() {
    match parse_command_line(&texts(&["-v", "run", "pkg", "bin", "--version"])) {
        Invocation::Command { verbose, command, args } => {
            assert!(verbose);
            assert_eq!(command, "run");
            assert_eq!(args, texts(&["pkg", "bin", "--version"]));
        }
        _ => panic!("it is a command"),
    }
    assert!(matches!(parse_command_line(&texts(&["--version"])), Invocation::Version));
    assert!(matches!(parse_command_line(&texts(&["-v", "-h", "x"])), Invocation::Help));
    assert!(matches!(parse_command_line(&Vec::new()), Invocation::Nothing));
}

#[test]
fn commands_are_read() {
    assert!(matches!(read_task("refresh", &Vec::new()), Ok(Task::Refresh)));
    assert!(matches!(read_task("remove", &texts(&["a"])), Ok(Task::Remove(s)) if s == "a"));
    assert!(matches!(read_task("search", &Vec::new()), Ok(Task::Search(s)) if s.is_empty()));
    assert!(matches!(read_task("rollback", &Vec::new()), Ok(Task::Rollback(None))));
    assert!(matches!(read_task("install", &texts(&["a", "b"])), Ok(Task::Install(l)) if l.len() == 2));
    assert!(matches!(read_task("clean", &texts(&["--all"])), Ok(Task::Clean { all: true })));
    match read_task("run", &texts(&["p", "b", "--help"])) {
        Ok(Task::Run { package, program, args }) => {
            assert_eq!((package.as_str(), program.as_str()), ("p", "b"));
            assert_eq!(args, texts(&["--help"]));
        }
        _ => panic!("it is run"),
    }
    assert!(matches!(read_task("verify", &texts(&["--import-key", "K"])), Ok(Task::ImportKey(k)) if k == "K"));
    assert!(matches!(read_task("verify", &texts(&["p"])), Ok(Task::Verify(p)) if p == "p"));
}

#[test]
fn commands_that_cannot_be_read() {
    match read_task("switch", &texts(&["a"])) {
        Err(CliProblem::Usage(m)) => assert_eq!(m, "Usage: hpm switch <package> <version>"),
        _ => panic!("too few arguments"),
    }
    assert!(matches!(read_task("run", &texts(&["p"])), Err(CliProblem::Usage(_))));
    assert!(matches!(read_task("pin", &Vec::new()), Err(CliProblem::Usage(_))));
    assert!(matches!(read_task("verify", &texts(&["--import-key"])), Err(CliProblem::Usage(_))));
    match read_task("fly", &Vec::new()) {
        Err(CliProblem::UnknownCommand(m)) => assert_eq!(m, "Unknown command: fly"),
        _ => panic!("no such command"),
    }
}

#[test]
fn errors_of_permission_are_recognised() {
    assert!(is_permission_error("Permission denied (os error 13)"));
    assert!(is_permission_error("open: EACCES"));
    assert!(!is_permission_error("No such file"));
}

// Paths

#[test]
fn everything_lies_below_home() {
    assert_eq!(store_path("/home/u"), "/home/u/.hackeros/hpm/store/");
    assert_eq!(cache_dir("/home/u"), "/home/u/.hackeros/hpm/cache");
    assert_eq!(db_dir("/home/u"), "/home/u/.hackeros/hpm/db");
    assert_eq!(bin_dir("/home/u"), "/home/u/.local/bin");
    assert_eq!(desktop_dir("/home/u"), "/home/u/.local/share/applications");
    assert_eq!(icon_dir("/home/u"), "/home/u/.local/share/icons/hicolor");
    assert_eq!(pixmap_dir("/home/u"), "/home/u/.local/share/pixmaps");
}

#[test]
fn paths_are_put_together() {
    assert_eq!(join("/a", "b"), "/a/b");
    assert_eq!(join("/a/", "b"), "/a/b");
    assert_eq!(join("/a", "/b"), "/b");
    assert_eq!(version_dir("/s/", "p", "1"), "/s/p/1");
    assert_eq!(current_link("/s/", "p"), "/s/p/current");
    assert_eq!(db_path("/d"), "/d/hpm.db");
    assert_eq!(system_lock_path("/d"), "/d/system.lock");
    assert_eq!(resolve_lock_path(&None, "/w", true, "/d"), "/w/hpm.lock");
    assert_eq!(resolve_lock_path(&None, "/w", false, "/d"), "/d/system.lock");
}

// Time

#[test]
fn times_are_written_as_dates() {
    assert_eq!(civil_date(0), (1970, 1, 1));
    assert_eq!(civil_date(19782), (2024, 2, 29));
    assert_eq!(civil_date(11016), (2000, 2, 29));
    assert_eq!(format_timestamp(1_709_210_096), "2024-02-29 12:34");
    assert_eq!(format_ts(0), "1970-01-01 00:00 UTC");
}

// Sandboxes

#[test]
fn how_far_programs_are_kept_apart() {
    assert_eq!(pick_mode(&manifest(""), true), SandboxMode::Full);
    assert_eq!(pick_mode(&manifest(""), false), SandboxMode::Compat);
    assert_eq!(pick_mode(&manifest("-> gui => true\n"), true), SandboxMode::Compat);
    assert_eq!(pick_mode(&manifest("[sandbox]\n-> network => true\n"), true), SandboxMode::Compat);
    assert_eq!(pick_mode(&manifest("[sandbox]\n-> disabled => true\n"), true), SandboxMode::Off);
    assert!(!user_ns_not_ruled_out(&Some("0\n".to_string()), &None));
    assert!(user_ns_not_ruled_out(&Some("1\n".to_string()), &Some("1000\n".to_string())));
}

#[test]
fn test_sandbox_compat() {
    assert_eq!(setup_sandbox(SandboxMode::Full, false), Some(SandboxMode::Compat));
    assert_eq!(setup_sandbox(SandboxMode::Full, true), None);
    assert_eq!(setup_sandbox(SandboxMode::Compat, false), None);
    assert!(tolerates(SandboxMode::Compat, SandboxStep::NewNamespaces));
    assert!(!tolerates(SandboxMode::Full, SandboxStep::NewNamespaces));
}

#[test]
fn nothing_runs_before_it_is_confined() {
    for mode in [SandboxMode::Full, SandboxMode::Compat] {
        let steps = sandbox_steps(mode);
        let at = |s: SandboxStep| steps.iter().position(|x| *x == s).unwrap();
        assert!(at(SandboxStep::LimitResources) < at(SandboxStep::Execute));
        assert!(at(SandboxStep::LimitCalls) < at(SandboxStep::Execute));
        assert!(tolerates(mode, SandboxStep::LimitCalls));
        assert!(tolerates(mode, SandboxStep::LimitResources));
        assert!(!tolerates(mode, SandboxStep::Execute));
    }
    for step in sandbox_steps(SandboxMode::Compat) {
        assert!(tolerates(SandboxMode::Compat, step) || step == SandboxStep::Execute);
    }
    assert!(!tolerates(SandboxMode::Full, SandboxStep::ChangeRoot));
    assert_eq!(sandbox_steps(SandboxMode::Off), vec![SandboxStep::Execute]);
    assert_eq!(hook_steps(&manifest("")).len(), 8);
    assert_eq!(hook_steps(&manifest("[sandbox]\n-> disabled => true\n")), vec![SandboxStep::Execute]);
    assert!(hook_tolerates(SandboxStep::LimitFiles));
    assert!(!hook_tolerates(SandboxStep::Execute));
}

#[test]
fn hooks_have_no_network_by_default() {
    let m = manifest("[sandbox]\n-> network => true\n");
    assert!(hook_namespaces(&m, true).net);
    assert!(!full_namespaces(&m).net);
    let m = manifest("[sandbox]\n-> hooks_network => true\n");
    assert!(!hook_namespaces(&m, true).net);
    assert!(!hook_namespaces(&m, false).user);
}

#[test]
fn limits_are_set() {
    let l = apply_resource_limits(ResourceLimits::for_hook());
    assert_eq!(
        l,
        vec![(LimitKind::CpuSeconds, 120), (LimitKind::MemoryBytes, 536870912), (LimitKind::Processes, 256)]
    );
    let l = apply_resource_limits(ResourceLimits::for_run());
    assert_eq!(l[0], (LimitKind::MemoryBytes, 4294967296));
    assert_eq!(ResourceLimits::for_build().nproc, 8192);
}

#[test]
fn files_that_may_be_changed() {
    let m = manifest("[sandbox]\n-> filesystem => /srv\n");
    let rules = setup_landlock_for_hook(&m, "/pkg");
    let writable: Vec<&str> =
        rules.iter().filter(|r| r.access == FileAccess::All).map(|r| r.path.as_str()).collect();
    assert_eq!(writable, vec!["/pkg", "/tmp", "/srv"]);
    let rules = setup_landlock(&m, &Some("/home/u".to_string()));
    assert!(rules.iter().any(|r| r.path == "/home/u" && r.access == FileAccess::All));
    assert_eq!(best_landlock_abi("3\n"), Some(3));
    assert_eq!(best_landlock_abi("7\n"), Some(3));
    assert_eq!(best_landlock_abi("0\n"), None);
    assert_eq!(best_landlock_abi("x"), None);
}

#[test]
fn what_a_program_sees() {
    let mounts = setup_mounts("/r", "/s/t/1.0", &manifest(""), &Some("/home/u".to_string()), &texts(&["/usr", "/etc", "/home/u"]));
    match &mounts[0] {
        MountAction::Bind { source, target, read_only } => {
            assert_eq!((source.as_str(), target.as_str(), *read_only), ("/usr", "/r/usr", true));
        }
        _ => panic!("the system comes first"),
    }
    assert!(matches!(&mounts[2], MountAction::Bind { target, read_only: false, .. } if target == "/r/app"));
    assert!(matches!(&mounts[4], MountAction::Bind { source, .. } if source == "/home/u"));
    assert!(matches!(&mounts[6], MountAction::Devices { all: false, .. }));
    assert_eq!(mounts.len(), 9);
    assert_eq!(bind_target("/r", "/usr"), "/r/usr");
    assert_eq!(new_root_path(12), "/tmp/hpm_newroot_12");
    assert_eq!(id_mapping(1000), "0 1000 1");
    assert_eq!(system_dir_list().len(), 7);
    assert_eq!(setup_dev(false).len(), 5);
    assert_eq!(setup_dev(true)[6].name, "fuse");
    assert!(setup_seccomp().contains(&"ptrace"));
}

#[test]
fn what_is_executed() {
    let c = exec_command("/app", false, &Vec::new(), &Some("bin/t".to_string()), &texts(&["-x"]));
    assert_eq!(c.program, "/app/bin/t");
    assert_eq!(c.args, texts(&["/app/bin/t", "-x"]));
    let c = exec_command("/app", true, &texts(&["a", "b"]), &None, &Vec::new());
    assert_eq!(c.args, texts(&["/bin/sh", "-c", "a && b"]));
    assert_eq!(run_commands(&texts(&["a", "b"])), "#!/bin/sh\nset -e\na\nb");
}

#[test]
fn what_came_of_a_program() {
    assert!(child_outcome(Some(0), "").is_ok());
    assert_eq!(child_outcome(Some(3), ""), Err("Process exited with code 3".to_string()));
    assert_eq!(child_outcome(None, " oops \n"), Err("Sandbox error: oops".to_string()));
    assert_eq!(hook_timeout_message(60), "Hook timed out after 60 seconds and was killed");
}

// Compressed packages

#[test]
fn images_lie_beside_versions() {
    assert_eq!(squashfs_sidecar("/s/t", "1.0"), "/s/t/.1.0.squashfs");
    assert_eq!(building_image("/s/t", "1.0"), "/s/t/.1.0.squashfs.building");
    assert!(is_mount_point("proc /proc proc rw 0 0\nx /s/t/1.0 fuse rw 0 0\n", "/s/t/1.0"));
    assert!(!is_mount_point("x /s/t/1.00 fuse\n", "/s/t/1.0"));
    assert_eq!(ensure_mounted(false, false, false), MountStep::Ready);
    assert_eq!(ensure_mounted(true, false, true), MountStep::Mount);
    assert_eq!(ensure_mounted(true, false, false), MountStep::NoTool);
    assert_eq!(on_disk_size(Some(5), 9), 5);
    assert_eq!(on_disk_size(None, 9), 9);
    assert_eq!(compress_after_install(false, None), CompressStep::Leave);
    assert_eq!(compress_after_install(true, Some(false)), CompressStep::RemoveImage);
    assert_eq!(compress_after_install(true, Some(true)), CompressStep::UseImage);
    assert_eq!(compress_command("/d", "/i")[3], "-comp");
    assert_eq!(mount_failure("/i", "no"), "Failed to mount /i: no");
}

// Running

#[test]
fn where_a_program_runs() {
    let mut state = State::new();
    assert!(run_path(&state, "/s/", "t", &None, false, &None).unwrap_err().contains("is not installed"));
    state.update_package("t", "1.0", "s", true, NameSet::new(), NameSet::new(), 0);
    assert_eq!(run_path(&state, "/s/", "t", &None, false, &Some("1.0".to_string())), Ok("/s/t/1.0".to_string()));
    assert_eq!(
        run_path(&state, "/s/", "t", &Some("2.0".to_string()), false, &None),
        Err("Version 2.0 of package 't' is not installed".to_string())
    );
    assert_eq!(
        run_path(&state, "/s/", "t", &None, false, &None),
        Err("No current version set for package 't'".to_string())
    );
    assert_eq!(split_run_spec("t@1.0"), ("t".to_string(), Some("1.0".to_string())));
    assert!(missing_program_message("b", "t", &Vec::new()).contains("store is empty"));
    assert!(missing_program_message("b", "t", &texts(&["bin/c"])).contains("bin/c"));
    assert!(switch_version(&state, "t", "1.0").is_ok());
    assert_eq!(switch_version(&state, "t", "2.0"), Err("Version 2.0 of package t not installed".to_string()));
    assert_eq!(switch_version(&state, "u", "2.0"), Err("Package u not installed".to_string()));
    let mut names = WrapperNames::new();
    assert_eq!(wrapper_name(&names, "t", "b"), "b");
    names.set("t", "b", "t-b");
    assert_eq!(wrapper_name(&names, "t", "b"), "t-b");
}

// Upgrading

#[test]
fn version_is_read_from_its_record() {
    let read = |s: &str| recorded_version(&Some(s.to_string()));
    assert_eq!(version_record("1.2"), "{\"version\":\"1.2\"}");
    for v in ["1.2", "", "a \"quoted\" \\ version\n", "é"] {
        assert_eq!(read(&version_record(v)).unwrap(), v);
    }
    assert_eq!(read("{\"version\": \"0.8\", \"more\": 1}").unwrap(), "0.8");
    assert_eq!(read("{\"version\": 8}").unwrap(), "0.0");
    assert_eq!(read("[1, 2]").unwrap(), "0.0");
    assert_eq!(recorded_version(&None).unwrap(), "0.0");
    assert!(!read("version 0.8").unwrap_err().reason.to_string().is_empty());
    assert_eq!(version_or_first(Some("0.8".to_string())), "0.8");
    assert_eq!(version_or_first(None), "0.0");
}

#[test]
fn upgraded_hpm_is_up_to_date() {
    let p = plan_upgrade(" 2.0.1\n", "0.9.0").unwrap();
    let here = recorded_version(&Some(version_record(&p.version))).unwrap();
    assert!(plan_upgrade(" 2.0.1\n", &here).is_none());
}

#[test]
fn hpm_is_upgraded_forward_only() {
    let p = plan_upgrade("1.2\n", "1.1").unwrap();
    assert_eq!(p.version, "1.2");
    assert!(p.program_url.ends_with("/hpm"));
    assert_eq!(
        p.backend_url,
        "https://github.com/HackerOS-Linux-System/Hacker-Package-Manager/releases/download/v1.2/backend"
    );
    assert!(plan_upgrade("1.1", "1.1").is_none());
    assert!(plan_upgrade("0.1", "0.0").is_some());
    assert!(is_system_path("/usr/bin/hpm"));
    assert!(!is_system_path("/home/u/hpm"));
    assert!(replace_hint("/usr/bin/hpm").contains("sudo hpm upgrade"));
}

#[test]
fn hooks_get_no_network_from_the_program() {
    let m = manifest("[sandbox]\n-> network => true\n");
    assert!(!full_namespaces(&m).net);
    assert!(hook_namespaces(&m, true).net);
    assert!(hook_namespaces(&m, false).net);
    assert!(!hook_namespaces(&manifest("[sandbox]\n-> hooks_network => true\n"), true).net);
    for user_ns in [true, false] {
        assert_ne!(pick_mode(&m, user_ns), SandboxMode::Off);
        assert_ne!(pick_mode(&manifest(""), user_ns), SandboxMode::Off);
    }
}

#[test]
fn steps_that_need_namespaces_wait_for_them() {
    let none = Namespaces::none();
    assert!(!step_is_taken(SandboxStep::PrivateMounts, none));
    assert!(!step_is_taken(SandboxStep::MapIds, none));
    assert!(step_is_taken(SandboxStep::LimitCalls, none));
    assert!(step_is_taken(SandboxStep::PrivateMounts, compat_namespaces()));
    let full = full_namespaces(&manifest(""));
    assert!(sandbox_steps(SandboxMode::Full).into_iter().all(|s| step_is_taken(s, full)));
    assert!(!hook_step_is_taken(SandboxStep::MapIds, none));
    assert!(hook_step_is_taken(SandboxStep::PrivateMounts, none));
    assert!(hook_step_is_taken(SandboxStep::MapIds, hook_namespaces(&manifest(""), true)));
    assert!(!hook_step_is_taken(SandboxStep::MapIds, hook_namespaces(&manifest(""), false)));
    assert_eq!(hook_fallback(SandboxStep::NewNamespaces), Some(compat_namespaces()));
    assert_eq!(hook_fallback(SandboxStep::LimitCalls), None);
}
