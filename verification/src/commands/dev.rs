//! Working on packages: trying one out, and checking that a machine is fit for
//! it.
use vstd::prelude::*;

use crate::cli::arguments;
use crate::hooks::HookKind;
use crate::number::{decimal, to_decimal};
use crate::text::{cat, cat3, push_text, same, strs, trim_white, trimmed};

verus! {

/// What is asked for.
#[derive(Debug)]
pub enum DevCommand {
    /// The quick tests of hpm itself.
    Test,
    /// All tests of hpm itself.
    TestFull,
    /// Whether the machine is fit.
    CheckEnv,
    /// Trying out a package in a directory.
    TryPackage(String),
    /// Running a program of a package in a directory.
    RunProgram { path: String, program: String, args: Vec<String> },
}

/// Whether what is asked for is read as it is meant. `is_dir` tells whether the
/// first word is a directory.
pub open spec fn dev_is_read_as(args: Seq<Seq<char>>, is_dir: bool, r: Result<DevCommand, String>) -> bool {
    if args.len() == 0 || args[0] == "test"@ {
        r matches Ok(DevCommand::Test)
    } else if args[0] == "test-full"@ {
        r matches Ok(DevCommand::TestFull)
    } else if args[0] == "check-env"@ {
        r matches Ok(DevCommand::CheckEnv)
    } else if !is_dir {
        r matches Err(m) && m@ == "Unknown dev subcommand: "@ + args[0] + " (test|test-full|check-env)"@
    } else if args.len() == 1 {
        r matches Ok(DevCommand::TryPackage(p)) && p@ == args[0]
    } else if args[1] == "run"@ && args.len() >= 3 {
        r matches Ok(DevCommand::RunProgram { path, program, args: rest }) && path@ == args[0]
            && program@ == args[2] && strs(rest@) == args.skip(3)
    } else {
        r matches Err(m) && m@ == "Usage: hpm dev <path> [run <bin> [args...]]"@
    }
}

/// Reads what is asked for: the tests where nothing is, a package where a
/// directory is named.
pub fn dev_command(args: &Vec<String>, is_dir: bool) -> (r: Result<DevCommand, String>)
    ensures
        dev_is_read_as(strs(args@), is_dir, r),
{
    if args.len() == 0 {
        return Ok(DevCommand::Test);
    }
    let a = args[0].as_str();
    if same(a, "test") {
        return Ok(DevCommand::Test);
    }
    if same(a, "test-full") {
        return Ok(DevCommand::TestFull);
    }
    if same(a, "check-env") {
        return Ok(DevCommand::CheckEnv);
    }
    if !is_dir {
        return Err(cat3("Unknown dev subcommand: ", a, " (test|test-full|check-env)"));
    }
    if args.len() == 1 {
        return Ok(DevCommand::TryPackage(args[0].clone()));
    }
    if same(args[1].as_str(), "run") && args.len() >= 3 {
        return Ok(
            DevCommand::RunProgram {
                path: args[0].clone(),
                program: args[2].clone(),
                args: arguments(args, 3),
            },
        );
    }
    Err("Usage: hpm dev <path> [run <bin> [args...]]".to_owned())
}

/// A step of trying out a package.
#[derive(Clone, Copy, PartialEq, Eq, Structural, Debug)]
pub enum DevStep {
    /// Show what the package says of itself.
    ShowManifest,
    /// Look its hooks over.
    ValidateHooks,
    /// See that it is for this machine.
    CheckArch,
    /// Obtain its contents.
    Build,
    /// Run a hook.
    RunHook(HookKind),
    /// List its programs, and whether they are there.
    ListPrograms,
}

/// The steps of trying out a package.
pub open spec fn tried(has_contents: bool) -> Seq<DevStep> {
    seq![DevStep::ShowManifest, DevStep::ValidateHooks, DevStep::CheckArch] + (if has_contents {
        Seq::empty()
    } else {
        seq![DevStep::Build]
    }) + seq![
        DevStep::RunHook(HookKind::PreInstall),
        DevStep::RunHook(HookKind::PostInstall),
        DevStep::ListPrograms,
    ]
}

/// The steps of trying out a package, in the order in which they are taken. None
/// of them installs it.
pub fn dev_steps(has_contents: bool) -> (r: Vec<DevStep>)
    ensures
        r@ == tried(has_contents),
{
    let mut v: Vec<DevStep> = Vec::new();
    v.push(DevStep::ShowManifest);
    v.push(DevStep::ValidateHooks);
    v.push(DevStep::CheckArch);
    if !has_contents {
        v.push(DevStep::Build);
    }
    v.push(DevStep::RunHook(HookKind::PreInstall));
    v.push(DevStep::RunHook(HookKind::PostInstall));
    v.push(DevStep::ListPrograms);
    assert(v@ =~= tried(has_contents));
    v
}

/// A program that is looked for.
#[derive(Clone, Copy, Debug)]
pub struct Tool {
    pub program: &'static str,
    pub title: &'static str,
    pub required: bool,
}

/// A program that is looked for, as a mathematical value.
pub open spec fn tool(t: Tool) -> (Seq<char>, Seq<char>, bool) {
    (t.program@, t.title@, t.required)
}

/// The programs that are looked for.
pub fn tools() -> (r: Vec<Tool>)
    ensures
        r@.map_values(|t: Tool| tool(t)) == seq![
            ("git"@, "Git"@, true),
            ("tar"@, "tar"@, true),
            ("zstd"@, "zstd"@, false),
            ("gpg"@, "GPG"@, false),
            ("bpftrace"@, "bpftrace (eBPF tracing)"@, false),
            ("valac"@, "Vala compiler"@, false),
            ("meson"@, "Meson build system"@, false),
            ("cargo"@, "Rust/Cargo"@, false),
        ],
{
    let mut v: Vec<Tool> = Vec::new();
    v.push(Tool { program: "git", title: "Git", required: true });
    v.push(Tool { program: "tar", title: "tar", required: true });
    v.push(Tool { program: "zstd", title: "zstd", required: false });
    v.push(Tool { program: "gpg", title: "GPG", required: false });
    v.push(Tool { program: "bpftrace", title: "bpftrace (eBPF tracing)", required: false });
    v.push(Tool { program: "valac", title: "Vala compiler", required: false });
    v.push(Tool { program: "meson", title: "Meson build system", required: false });
    v.push(Tool { program: "cargo", title: "Rust/Cargo", required: false });
    assert(v@.map_values(|t: Tool| tool(t)) =~= seq![
        ("git"@, "Git"@, true),
        ("tar"@, "tar"@, true),
        ("zstd"@, "zstd"@, false),
        ("gpg"@, "GPG"@, false),
        ("bpftrace"@, "bpftrace (eBPF tracing)"@, false),
        ("valac"@, "Vala compiler"@, false),
        ("meson"@, "Meson build system"@, false),
        ("cargo"@, "Rust/Cargo"@, false),
    ]);
    v
}

/// Whether every program that is required was found. `found` tells, for each
/// program, whether it was.
pub open spec fn ready(tools: Seq<Tool>, found: Seq<bool>) -> bool {
    forall|i: int| 0 <= i < tools.len() && (#[trigger] tools[i]).required ==> found[i]
}

/// Whether every program that is required was found.
pub fn environment_ready(tools: &Vec<Tool>, found: &Vec<bool>) -> (r: bool)
    requires
        found@.len() == tools@.len(),
    ensures
        r == ready(tools@, found@),
{
    let mut i: usize = 0;
    while i < tools.len()
        invariant
            i <= tools@.len(),
            found@.len() == tools@.len(),
            forall|j: int| 0 <= j < i && (#[trigger] tools@[j]).required ==> found@[j],
        decreases tools@.len() - i,
    {
        if tools[i].required && !found[i] {
            assert(tools@[i as int].required);
            return false;
        }
        i = i + 1;
    }
    true
}

/// What a setting of the kernel says of one of its features.
#[derive(Clone, Copy, PartialEq, Eq, Structural, Debug)]
pub enum FeatureState {
    Enabled,
    Disabled,
    NotAvailable,
}

/// What a setting of the kernel says of one of its features: `bad` is the value
/// by which it is switched off.
pub fn check_kernel_feature(setting: &Option<String>, bad: &str) -> (r: FeatureState)
    ensures
        r == (match setting {
            Some(s) => if trimmed(s@) == bad@ {
                FeatureState::Disabled
            } else {
                FeatureState::Enabled
            },
            None => FeatureState::NotAvailable,
        }),
{
    match setting {
        Some(s) => {
            let t = trim_white(s.as_str());
            if same(t.as_str(), bad) {
                FeatureState::Disabled
            } else {
                FeatureState::Enabled
            }
        },
        None => FeatureState::NotAvailable,
    }
}

/// What came of tests.
#[derive(Debug)]
pub struct TestSuite {
    pub passed: Vec<String>,
    /// The tests that failed, and why.
    pub failed: Vec<(String, String)>,
    pub skipped: Vec<String>,
}

impl TestSuite {
    /// Nothing was tested yet.
    pub fn new() -> (r: TestSuite)
        ensures
            r.passed@ == Seq::<String>::empty(),
            r.failed@ == Seq::<(String, String)>::empty(),
            r.skipped@ == Seq::<String>::empty(),
    {
        TestSuite { passed: Vec::new(), failed: Vec::new(), skipped: Vec::new() }
    }

    /// Records what came of a test.
    pub fn record(&mut self, id: &str, outcome: &Option<String>)
        ensures
            final(self).skipped == old(self).skipped,
            match outcome {
                None => strs(final(self).passed@) == strs(old(self).passed@) + seq![id@]
                    && final(self).failed == old(self).failed,
                Some(why) => {
                    &&& final(self).passed == old(self).passed
                    &&& final(self).failed@.len() == old(self).failed@.len() + 1
                    &&& final(self).failed@.drop_last() == old(self).failed@
                    &&& final(self).failed@.last().0@ == id@
                    &&& final(self).failed@.last().1@ == why@
                },
            },
    {
        match outcome {
            None => {
                push_text(&mut self.passed, id.to_owned());
            },
            Some(why) => {
                self.failed.push((id.to_owned(), why.clone()));
                assert(self.failed@.drop_last() =~= old(self).failed@);
            },
        }
    }

    /// What is said at the end.
    pub fn verdict(&self) -> (r: String)
        ensures
            r@ == (if self.failed@.len() == 0 {
                "All tests passed!"@
            } else {
                decimal(self.failed@.len()) + " test(s) failed."@
            }),
    {
        if self.failed.len() == 0 {
            "All tests passed!".to_owned()
        } else {
            let n = to_decimal(self.failed.len() as u64);
            cat(n.as_str(), " test(s) failed.")
        }
    }
}

// ---------------------------------------------------------------------------
// Laws
// ---------------------------------------------------------------------------

/// A machine is fit exactly where no required program is missing.
pub proof fn required_programs_decide(tools: Seq<Tool>, found: Seq<bool>)
    ensures
        !ready(tools, found) <==> exists|i: int|
            0 <= i < tools.len() && (#[trigger] tools[i]).required && !found[i],
{
}

/// What is tried is what was asked for: a package where a directory stands alone, a program
/// of it where one is named behind `run`, with the arguments behind that.
pub proof fn what_is_tried(args: Seq<Seq<char>>, is_dir: bool, r: Result<DevCommand, String>)
    requires
        dev_is_read_as(args, is_dir, r),
    ensures
        r matches Ok(DevCommand::Test) ==> args.len() == 0 || args[0] == "test"@,
        r matches Ok(DevCommand::TestFull) ==> args[0] == "test-full"@,
        r matches Ok(DevCommand::CheckEnv) ==> args[0] == "check-env"@,
        r matches Ok(DevCommand::TryPackage(p)) ==> is_dir && args.len() == 1 && p@ == args[0],
        r matches Ok(DevCommand::RunProgram { path, program, args: rest }) ==> is_dir && args.len() >= 3 && path@
            == args[0] && args[1] == "run"@ && program@ == args[2] && strs(rest@) == args.skip(3),
        r is Err ==> args.len() > 0 && args[0] != "test"@,
{
}

/// A package that is tried out is built exactly where it brings no contents, before its
/// hooks run, and its programs are listed last.
pub proof fn built_before_it_is_tried(has_contents: bool)
    ensures
        tried(has_contents).contains(DevStep::Build) <==> !has_contents,
        tried(has_contents).last() == DevStep::ListPrograms,
        tried(has_contents)[tried(has_contents).len() - 3] == DevStep::RunHook(HookKind::PreInstall),
        tried(has_contents)[tried(has_contents).len() - 2] == DevStep::RunHook(HookKind::PostInstall),
        tried(has_contents)[2] == DevStep::CheckArch,
{
    let s = tried(has_contents);
    if !has_contents {
        assert(s[3] == DevStep::Build);
    } else if s.contains(DevStep::Build) {
        let i = choose|i: int| 0 <= i < s.len() && s[i] == DevStep::Build;
        assert(i == 0 || i == 1 || i == 2 || i == 3 || i == 4 || i == 5);
    }
}

} // verus!
