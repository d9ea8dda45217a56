use hpm::config::{read_config, ConfigError, ConfigValue};
use hpm::manifest::{
    check_arch_compatibility, is_known_arch, problem_message, Manifest, ManifestError, ManifestProblem,
};

fn package(name: &str, version: &str, extra: &str) -> String {
    format!(
        "[metadata]\n-> name => {}\n-> version => {}\n-> authors => Test\n-> license => MIT\n{}\n[description]\n-> summary => Test package {}\n[sandbox]\n-> network => false\n-> gui => false\n-> full_gui => false\n-> dev => false\n-> disabled => false\n-> filesystem => {{}}\n",
        name, version, extra, name
    )
}

#[test]
fn test_manifest_parse() {
    let text = package("test-parse", "1.0.0", "-> bins.test-parse => \"bin/test-parse\"");
    let m = Manifest::parse(&text, false).unwrap();
    assert_eq!(m.name, "test-parse");
    assert_eq!(m.version, "1.0.0");
    assert!(m.bins.contains(&"test-parse".to_string()));
    assert_eq!(m.bin_paths.get("test-parse"), Some(&"bin/test-parse".to_string()));
    assert_eq!(m.authors, "Test");
    assert_eq!(m.license, "MIT");
    assert_eq!(m.summary, "Test package test-parse");
    assert!(!m.has_hooks);
}

#[test]
fn test_manifest_invalid() {
    match Manifest::parse("[metadata]\n-> name => \n-> version => \n", false) {
        Err(_) => {}
        Ok(m) => assert!(m.name.is_empty()),
    }
}

#[test]
fn test_build_validates() {
    let text = "[metadata]\n-> name => valid-pkg\n-> version => 1.0.0\n[description]\n-> summary => test\n[sandbox]\n-> network => false\n-> gui => false\n-> full_gui => false\n-> dev => false\n-> disabled => false\n-> filesystem => {}\n";
    let m = Manifest::parse(text, false).unwrap();
    assert_eq!(m.name, "valid-pkg");
}

#[test]
fn test_diff_manifests() {
    let m1 = Manifest::parse(&package("diff-pkg", "1.0.0", ""), false).unwrap();
    let text = "[metadata]\n-> name => diff-pkg\n-> version => 2.0.0\n-> authors => New\n-> license => MIT\n[description]\n-> summary => Changed\n[sandbox]\n-> network => true\n-> gui => false\n-> full_gui => false\n-> dev => false\n-> disabled => false\n-> filesystem => {}\n";
    let m2 = Manifest::parse(text, false).unwrap();
    assert_ne!(m1.version, m2.version);
    assert_ne!(m1.sandbox.network, m2.sandbox.network);
}

#[test]
fn test_arch_check() {
    assert!(check_arch_compatibility("any", "x86_64").is_ok());
    assert!(check_arch_compatibility("", "x86_64").is_ok());
}

#[test]
fn architectures_have_their_own_names() {
    assert!(check_arch_compatibility("x86_64", "x86_64").is_ok());
    assert!(check_arch_compatibility("armhf", "arm").is_ok());
    assert!(check_arch_compatibility("i386", "x86").is_ok());
    assert_eq!(
        check_arch_compatibility("aarch64", "x86_64"),
        Err("Architecture mismatch: package requires 'aarch64' but running on 'x86_64'.\nIf this is a cross-arch install, use hpm install --force-arch to override.".to_string())
    );
    assert!(check_arch_compatibility("sparc", "sparc").is_err());
    assert!(is_known_arch("any"));
    assert!(!is_known_arch("sparc"));
}

#[test]
fn a_manifest_needs_its_metadata() {
    assert!(matches!(
        Manifest::parse("[description]\n-> summary => x\n", false),
        Err(ManifestError::Problem(ManifestProblem::MissingMetadata))
    ));
    assert!(matches!(
        Manifest::parse("[metadata]\n-> version => 1.0\n", false),
        Err(ManifestError::Problem(ManifestProblem::MissingName))
    ));
    assert!(matches!(
        Manifest::parse("[metadata]\n-> name => x\n", false),
        Err(ManifestError::Problem(ManifestProblem::MissingVersion))
    ));
    assert_eq!(problem_message(ManifestProblem::MissingMetadata), "Missing [metadata] section");
    assert_eq!(problem_message(ManifestProblem::InvalidMetadata), "Invalid [metadata] section");
    assert_eq!(problem_message(ManifestProblem::MissingName), "Missing name");
    assert_eq!(problem_message(ManifestProblem::MissingVersion), "Missing version");
}

#[test]
fn metadata_that_is_no_section() {
    let config = vec![("metadata".to_string(), ConfigValue::Flag(true))];
    assert!(matches!(
        Manifest::from_config(&config, false),
        Err(ManifestProblem::InvalidMetadata)
    ));
}

#[test]
fn unreadable_text_is_an_error() {
    assert!(matches!(
        Manifest::parse("-> name => x\n", false),
        Err(ManifestError::Config(ConfigError::Unreadable(_)))
    ));
}

#[test]
fn an_interpolation_that_leads_nowhere_is_an_error() {
    let r = read_config("[metadata]\n-> name => ${metadata.missing}\n");
    assert!(matches!(r, Err(ConfigError::Unresolved(_))));
}

#[test]
fn interpolations_are_resolved() {
    let m = Manifest::parse(
        "[metadata]\n-> name => tool\n-> version => 1.0\n[description]\n-> summary => The ${metadata.name}\n",
        false,
    )
    .unwrap();
    assert_eq!(m.summary, "The tool");
}

#[test]
fn a_window_opens_the_sandbox_for_it() {
    let m = Manifest::parse("[metadata]\n-> name => a\n-> version => 1.0\n-> gui => true\n", true).unwrap();
    assert!(m.is_gui);
    assert!(m.sandbox.gui);
    assert!(m.has_window());
    assert!(m.has_hooks);
}

#[test]
fn without_a_sandbox_section_everything_is_closed() {
    let m = Manifest::parse("[metadata]\n-> name => a\n-> version => 1.0\n", false).unwrap();
    assert!(!m.sandbox.network);
    assert!(!m.sandbox.gui);
    assert!(!m.sandbox.dev);
    assert!(!m.sandbox.full_gui);
    assert!(!m.sandbox.hooks_network);
    assert!(m.sandbox.filesystem.is_empty());
    assert!(!m.sandbox_disabled);
    assert!(!m.has_window());
}

#[test]
fn lists_and_dependencies_are_read() {
    let text = "[metadata]\n-> name => a\n-> version => 1.0\n-> tags => cli, tools\n[specs]\n-> arch => x86_64\n-> dependencies\n--> libfoo => >=1.0\n--> libbar => 2.0\n[conflicts]\n-> other => \"\"\n[runtime]\n-> deb_deps => curl\n[sandbox]\n-> hooks_network => true\n";
    let m = Manifest::parse(text, false).unwrap();
    assert_eq!(m.tags, vec!["cli".to_string(), "tools".to_string()]);
    assert_eq!(m.arch, "x86_64");
    assert_eq!(m.deps.get("libfoo"), Some(&">=1.0".to_string()));
    assert_eq!(m.deps.get_index(1).unwrap().0, "libbar");
    assert_eq!(m.conflicts, vec!["other".to_string()]);
    assert_eq!(m.runtime.deb_deps, vec!["curl".to_string()]);
    assert!(m.sandbox.hooks_network);
}

#[test]
fn lists_are_read_and_are_no_tags() {
    let text = "[metadata]\n-> name => tool\n-> version => 1.0.0\n-> tags => [\"cli\", [true, \"x y\"]]\n";
    let config = read_config(text).unwrap();
    let ConfigValue::Table(meta) = &config[0].1 else { panic!("a section is a table") };
    let ConfigValue::List(items) = &meta[2].1 else { panic!("brackets make a list") };
    assert_eq!(items.len(), 2);
    assert!(matches!(&items[0], ConfigValue::Text(s) if s == "cli"));
    let ConfigValue::List(inner) = &items[1] else { panic!("lists nest") };
    assert!(matches!(&inner[0], ConfigValue::Flag(true)));
    assert!(matches!(&inner[1], ConfigValue::Text(s) if s == "x y"));
    assert!(Manifest::parse(text, false).unwrap().tags.is_empty());
}

#[test]
fn a_lone_quote_counts_only_as_a_value() {
    let lone = |t: &str| matches!(read_config(t), Err(ConfigError::LoneQuote));
    assert!(lone("[a]\n-> k => \"\n"));
    assert!(lone("[a]\n-> l => [\n  x\n]\n-> k => \"\n"));
    assert!(lone("[a]\n-> l => [x]\n-> k => \"\n"));
    assert!(matches!(read_config("[a]\n-> => \"\n"), Err(ConfigError::Unreadable(_))));
    let inside = "[a]\n-> l => [\n  x\n-> k => \"\n\"\n]\n-> m => y\n";
    assert!(!lone(inside));
    assert!(read_config(inside).is_ok());
}

#[test]
fn references_to_the_environment_change_only_their_texts() {
    let m = Manifest::parse(
        "[metadata]\n-> name => tool\n-> version => 1.0\n[description]\n-> summary => <${env:HPM_UNSET}>\n",
        false,
    )
    .unwrap();
    assert_eq!((m.name.as_str(), m.version.as_str(), m.summary.as_str()), ("tool", "1", "<>"));
}
