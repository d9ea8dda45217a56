//! The command line.
use vstd::prelude::*;

use crate::pattern::{contains, occurs};
use crate::text::{cat, has_string, is_empty_text, same, strs, strs_push};

verus! {

/// What a command line asks for.
#[derive(Debug)]
pub enum Invocation {
    /// The help text.
    Help,
    /// The version.
    Version,
    /// Nothing.
    Nothing,
    /// A command with its arguments.
    Command {
        verbose: bool,
        command: String,
        args: Vec<String>,
    },
}

/// What a command line asks for, as a mathematical value.
pub enum Request {
    Help,
    Version,
    Nothing,
    Command { verbose: bool, command: Seq<char>, args: Seq<Seq<char>> },
}

impl View for Invocation {
    type V = Request;

    open spec fn view(&self) -> Request {
        match self {
            Invocation::Help => Request::Help,
            Invocation::Version => Request::Version,
            Invocation::Nothing => Request::Nothing,
            Invocation::Command { verbose, command, args } => Request::Command {
                verbose: *verbose,
                command: command@,
                args: strs(args@),
            },
        }
    }
}

/// What a command line asks for. Only options before the command are hpm's own;
/// everything after it goes to the command as it stands.
pub open spec fn requested(raw: Seq<Seq<char>>, verbose: bool) -> Request
    decreases raw.len(),
{
    if raw.len() == 0 {
        Request::Nothing
    } else if raw[0] == "-h"@ || raw[0] == "--help"@ {
        Request::Help
    } else if raw[0] == "-V"@ || raw[0] == "--version"@ {
        Request::Version
    } else if raw[0] == "-v"@ || raw[0] == "--verbose"@ {
        requested(raw.drop_first(), true)
    } else {
        Request::Command { verbose, command: raw[0], args: raw.drop_first() }
    }
}

/// What a command line asks for.
pub fn parse_command_line(raw: &Vec<String>) -> (r: Invocation)
    ensures
        r@ == requested(strs(raw@), false),
{
    let mut verbose = false;
    let mut i: usize = 0;
    let ghost all = strs(raw@);
    assert(all.skip(0) =~= all);
    while i < raw.len()
        invariant
            i <= raw@.len(),
            all == strs(raw@),
            requested(all, false) == requested(all.skip(i as int), verbose),
        decreases raw@.len() - i,
    {
        let arg = raw[i].as_str();
        assert(all.skip(i as int)[0] == arg@);
        assert(all.skip(i as int).drop_first() =~= all.skip(i + 1));
        if same(arg, "-h") || same(arg, "--help") {
            return Invocation::Help;
        }
        if same(arg, "-V") || same(arg, "--version") {
            return Invocation::Version;
        }
        if same(arg, "-v") || same(arg, "--verbose") {
            verbose = true;
        } else {
            let args = arguments(raw, i + 1);
            return Invocation::Command { verbose, command: raw[i].clone(), args };
        }
        i = i + 1;
    }
    Invocation::Nothing
}

/// Whether the text of an error says that something is not permitted.
pub open spec fn says_not_permitted(err: Seq<char>) -> bool {
    occurs(err, "Permission denied"@) || occurs(err, "os error 13"@) || occurs(err, "EACCES"@)
        || occurs(err, "permission denied"@)
}

/// Whether the text of an error says that something is not permitted.
pub fn is_permission_error(err: &str) -> (r: bool)
    ensures
        r == says_not_permitted(err@),
        r == (occurs(err@, "Permission denied"@) || occurs(err@, "os error 13"@) || occurs(err@, "EACCES"@)
            || occurs(err@, "permission denied"@)),
{
    contains(err, "Permission denied") || contains(err, "os error 13") || contains(err, "EACCES")
        || contains(err, "permission denied")
}

// ---------------------------------------------------------------------------
// Commands
// ---------------------------------------------------------------------------

/// What hpm can be told to do.
#[derive(Debug)]
pub enum Task {
    /// Bring the index up to date.
    Refresh,
    /// Update every package.
    Update,
    /// Upgrade hpm itself.
    Upgrade,
    /// Remove what nothing needs.
    Autoremove,
    /// List what is installed.
    List,
    /// List what can be updated.
    Outdated,
    /// List the tags.
    Tags,
    /// Check the installation.
    Doctor,
    /// Put the installation right.
    Repair,
    /// Remove a package.
    Remove(String),
    /// Search for packages.
    Search(String),
    /// Show what is known of a package.
    Info(String),
    /// Show what a package needs.
    Deps(String),
    /// Let a package be updated again.
    Unpin(String),
    /// Show the hash of a directory.
    DebugHash(String),
    /// Go back to an earlier state.
    Rollback(Option<String>),
    /// Set up a new package.
    Create(Option<String>),
    /// Install packages.
    Install(Vec<String>),
    /// Show how two versions differ.
    Diff(Vec<String>),
    /// Pack a package.
    Build(Vec<String>),
    /// Write or check a lock file.
    Lock(Vec<String>),
    /// Try a package out.
    Dev(Vec<String>),
    /// Use another version.
    Switch { package: String, version: String },
    /// Keep a package at a version.
    Pin { package: String, version: String },
    /// Run a program of a package.
    Run { package: String, program: String, args: Vec<String> },
    /// Remove what is cached, and old versions too where `all` is set.
    Clean { all: bool },
    /// Check a package.
    Verify(String),
    /// Add a key to those that are trusted.
    ImportKey(String),
    /// Check the signature of a file.
    DebugGpg { data: String, signature: String },
}

/// Why a command line cannot be followed, with a text for the user.
#[derive(Debug)]
pub enum CliProblem {
    /// Too few arguments.
    Usage(String),
    /// No such command.
    UnknownCommand(String),
}

/// An argument, or nothing where there are too few.
pub open spec fn nth_or_empty(args: Seq<Seq<char>>, n: int) -> Seq<char> {
    if n < args.len() {
        args[n]
    } else {
        Seq::empty()
    }
}

fn argument(args: &Vec<String>, n: usize) -> (r: String)
    ensures
        r@ == nth_or_empty(strs(args@), n as int),
{
    if n < args.len() {
        args[n].clone()
    } else {
        let e = "".to_owned();
        proof {
            reveal_strlit("");
        }
        assert(e@ =~= Seq::<char>::empty());
        e
    }
}

/// The arguments from one on.
pub fn arguments(args: &Vec<String>, from: usize) -> (r: Vec<String>)
    requires
        from <= args@.len(),
    ensures
        strs(r@) == strs(args@).skip(from as int),
{
    let ghost all = strs(args@);
    let mut rest: Vec<String> = Vec::new();
    let mut i: usize = from;
    assert(strs(rest@) =~= all.subrange(from as int, from as int));
    while i < args.len()
        invariant
            from <= i <= args@.len(),
            all == strs(args@),
            strs(rest@) == all.subrange(from as int, i as int),
        decreases args@.len() - i,
    {
        let a = args[i].clone();
        proof {
            strs_push(rest@, a);
            assert(all.subrange(from as int, i + 1) =~= all.subrange(from as int, i as int).push(a@));
        }
        rest.push(a);
        i = i + 1;
    }
    assert(all.subrange(from as int, all.len() as int) =~= all.skip(from as int));
    rest
}

/// Whether a command with its arguments is read as it is meant.
pub open spec fn is_read_as(
    command: Seq<char>,
    args: Seq<Seq<char>>,
    r: Result<Task, CliProblem>,
) -> bool {
    if command == "refresh"@ {
        r matches Ok(Task::Refresh)
    } else if command == "update"@ {
        r matches Ok(Task::Update)
    } else if command == "upgrade"@ {
        r matches Ok(Task::Upgrade)
    } else if command == "autoremove"@ {
        r matches Ok(Task::Autoremove)
    } else if command == "list"@ {
        r matches Ok(Task::List)
    } else if command == "outdated"@ {
        r matches Ok(Task::Outdated)
    } else if command == "tags"@ {
        r matches Ok(Task::Tags)
    } else if command == "doctor"@ {
        r matches Ok(Task::Doctor)
    } else if command == "repair"@ {
        r matches Ok(Task::Repair)
    } else if command == "remove"@ {
        r matches Ok(Task::Remove(s)) && s@ == nth_or_empty(args, 0)
    } else if command == "search"@ {
        r matches Ok(Task::Search(s)) && s@ == nth_or_empty(args, 0)
    } else if command == "info"@ {
        r matches Ok(Task::Info(s)) && s@ == nth_or_empty(args, 0)
    } else if command == "deps"@ {
        r matches Ok(Task::Deps(s)) && s@ == nth_or_empty(args, 0)
    } else if command == "unpin"@ {
        r matches Ok(Task::Unpin(s)) && s@ == nth_or_empty(args, 0)
    } else if command == "__debug_hash"@ {
        r matches Ok(Task::DebugHash(s)) && s@ == nth_or_empty(args, 0)
    } else if command == "rollback"@ {
        r matches Ok(Task::Rollback(s)) && if args.len() > 0 {
            s matches Some(t) && t@ == args[0]
        } else {
            s is None
        }
    } else if command == "create"@ {
        r matches Ok(Task::Create(s)) && if args.len() > 0 {
            s matches Some(t) && t@ == args[0]
        } else {
            s is None
        }
    } else if command == "install"@ {
        r matches Ok(Task::Install(l)) && strs(l@) == args
    } else if command == "diff"@ {
        r matches Ok(Task::Diff(l)) && strs(l@) == args
    } else if command == "build"@ {
        r matches Ok(Task::Build(l)) && strs(l@) == args
    } else if command == "lock"@ {
        r matches Ok(Task::Lock(l)) && strs(l@) == args
    } else if command == "dev"@ {
        r matches Ok(Task::Dev(l)) && strs(l@) == args
    } else if command == "switch"@ {
        if args.len() < 2 {
            r matches Err(CliProblem::Usage(m)) && m@ == "Usage: hpm switch <package> <version>"@
        } else {
            r matches Ok(Task::Switch { package, version }) && package@ == args[0] && version@ == args[1]
        }
    } else if command == "pin"@ {
        if args.len() < 2 {
            r matches Err(CliProblem::Usage(m)) && m@ == "Usage: hpm pin <package> <version>"@
        } else {
            r matches Ok(Task::Pin { package, version }) && package@ == args[0] && version@ == args[1]
        }
    } else if command == "run"@ {
        if args.len() < 2 {
            r matches Err(CliProblem::Usage(m)) && m@ == "Usage: hpm run <package> <bin> [args...]"@
        } else {
            r matches Ok(Task::Run { package, program, args: rest }) && package@ == args[0]
                && program@ == args[1] && strs(rest@) == args.skip(2)
        }
    } else if command == "clean"@ {
        r matches Ok(Task::Clean { all }) && all == args.contains("--all"@)
    } else if command == "verify"@ {
        if args.len() > 0 && args[0] == "--import-key"@ {
            if nth_or_empty(args, 1).len() == 0 {
                r matches Err(CliProblem::Usage(m)) && m@
                    == "Usage: hpm verify --import-key <keyid|keyfile|url>"@
            } else {
                r matches Ok(Task::ImportKey(k)) && k@ == args[1]
            }
        } else {
            r matches Ok(Task::Verify(s)) && s@ == nth_or_empty(args, 0)
        }
    } else if command == "__debug_gpg"@ {
        r matches Ok(Task::DebugGpg { data, signature }) && data@ == nth_or_empty(args, 0)
            && signature@ == nth_or_empty(args, 1)
    } else {
        r matches Err(CliProblem::UnknownCommand(m)) && m@ == "Unknown command: "@ + command
    }
}

/// Finds out what a command with its arguments asks for.
pub fn read_task(command: &str, args: &Vec<String>) -> (r: Result<Task, CliProblem>)
    ensures
        is_read_as(command@, strs(args@), r),
{
    assert(strs(args@).skip(0) =~= strs(args@));
    if same(command, "refresh") {
        return Ok(Task::Refresh);
    }
    if same(command, "update") {
        return Ok(Task::Update);
    }
    if same(command, "upgrade") {
        return Ok(Task::Upgrade);
    }
    if same(command, "autoremove") {
        return Ok(Task::Autoremove);
    }
    if same(command, "list") {
        return Ok(Task::List);
    }
    if same(command, "outdated") {
        return Ok(Task::Outdated);
    }
    if same(command, "tags") {
        return Ok(Task::Tags);
    }
    if same(command, "doctor") {
        return Ok(Task::Doctor);
    }
    if same(command, "repair") {
        return Ok(Task::Repair);
    }
    if same(command, "remove") {
        return Ok(Task::Remove(argument(args, 0)));
    }
    if same(command, "search") {
        return Ok(Task::Search(argument(args, 0)));
    }
    if same(command, "info") {
        return Ok(Task::Info(argument(args, 0)));
    }
    if same(command, "deps") {
        return Ok(Task::Deps(argument(args, 0)));
    }
    if same(command, "unpin") {
        return Ok(Task::Unpin(argument(args, 0)));
    }
    if same(command, "__debug_hash") {
        return Ok(Task::DebugHash(argument(args, 0)));
    }
    if same(command, "rollback") {
        if args.len() > 0 {
            return Ok(Task::Rollback(Some(args[0].clone())));
        }
        return Ok(Task::Rollback(None));
    }
    if same(command, "create") {
        if args.len() > 0 {
            return Ok(Task::Create(Some(args[0].clone())));
        }
        return Ok(Task::Create(None));
    }
    if same(command, "install") {
        return Ok(Task::Install(arguments(args, 0)));
    }
    if same(command, "diff") {
        return Ok(Task::Diff(arguments(args, 0)));
    }
    if same(command, "build") {
        return Ok(Task::Build(arguments(args, 0)));
    }
    if same(command, "lock") {
        return Ok(Task::Lock(arguments(args, 0)));
    }
    if same(command, "dev") {
        return Ok(Task::Dev(arguments(args, 0)));
    }
    if same(command, "switch") {
        if args.len() < 2 {
            return Err(CliProblem::Usage("Usage: hpm switch <package> <version>".to_owned()));
        }
        return Ok(Task::Switch { package: args[0].clone(), version: args[1].clone() });
    }
    if same(command, "pin") {
        if args.len() < 2 {
            return Err(CliProblem::Usage("Usage: hpm pin <package> <version>".to_owned()));
        }
        return Ok(Task::Pin { package: args[0].clone(), version: args[1].clone() });
    }
    if same(command, "run") {
        if args.len() < 2 {
            return Err(CliProblem::Usage("Usage: hpm run <package> <bin> [args...]".to_owned()));
        }
        return Ok(
            Task::Run {
                package: args[0].clone(),
                program: args[1].clone(),
                args: arguments(args, 2),
            },
        );
    }
    if same(command, "clean") {
        return Ok(Task::Clean { all: has_string(args, "--all") });
    }
    if same(command, "verify") {
        if args.len() > 0 && same(args[0].as_str(), "--import-key") {
            let key = argument(args, 1);
            if is_empty_text(key.as_str()) {
                return Err(
                    CliProblem::Usage("Usage: hpm verify --import-key <keyid|keyfile|url>".to_owned()),
                );
            }
            return Ok(Task::ImportKey(key));
        }
        return Ok(Task::Verify(argument(args, 0)));
    }
    if same(command, "__debug_gpg") {
        return Ok(Task::DebugGpg { data: argument(args, 0), signature: argument(args, 1) });
    }
    Err(CliProblem::UnknownCommand(cat("Unknown command: ", command)))
}

// ---------------------------------------------------------------------------
// Laws
// ---------------------------------------------------------------------------

/// Options that stand behind the command reach it untouched: hpm reads only
/// what stands before the command.
pub proof fn arguments_pass_through(before: Seq<Seq<char>>, command: Seq<char>, after: Seq<Seq<char>>)
    requires
        forall|i: int|
            0 <= i < before.len() ==> (#[trigger] before[i] == "-v"@ || before[i] == "--verbose"@),
        command != "-h"@ && command != "--help"@ && command != "-V"@ && command != "--version"@
            && command != "-v"@ && command != "--verbose"@,
    ensures
        requested(before.push(command) + after, false) == (Request::Command {
            verbose: before.len() > 0,
            command,
            args: after,
        }),
{
    pass_through(before, command, after, false);
}

proof fn pass_through(
    before: Seq<Seq<char>>,
    command: Seq<char>,
    after: Seq<Seq<char>>,
    verbose: bool,
)
    requires
        forall|i: int|
            0 <= i < before.len() ==> (#[trigger] before[i] == "-v"@ || before[i] == "--verbose"@),
        command != "-h"@ && command != "--help"@ && command != "-V"@ && command != "--version"@
            && command != "-v"@ && command != "--verbose"@,
    ensures
        requested(before.push(command) + after, verbose) == (Request::Command {
            verbose: verbose || before.len() > 0,
            command,
            args: after,
        }),
    decreases before.len(),
{
    reveal_strlit("-h");
    reveal_strlit("--help");
    reveal_strlit("-V");
    reveal_strlit("--version");
    reveal_strlit("-v");
    reveal_strlit("--verbose");
    let raw = before.push(command) + after;
    if before.len() == 0 {
        assert(raw[0] == command);
        assert(raw.drop_first() =~= after);
    } else {
        let rest = before.drop_first();
        assert(raw[0] == before[0]);
        assert(raw.drop_first() =~= rest.push(command) + after);
        assert("-v"@[1] != "-h"@[1]);
        assert("-v"@[1] != "-V"@[1]);
        assert("-v"@.len() != "--help"@.len());
        assert("--verbose"@.len() != "--help"@.len());
        assert("--verbose"@[4] != "--version"@[4] || "--verbose"@[5] != "--version"@[5]);
        assert(forall|i: int|
            0 <= i < rest.len() ==> (#[trigger] rest[i] == before[i + 1]));
        pass_through(rest, command, after, true);
    }
}

/// A command line without words asks for nothing; one that begins with an option for the
/// help or the version asks for that.
pub proof fn options_before_the_command(rest: Seq<Seq<char>>, x: Seq<char>, verbose: bool)
    ensures
        requested(Seq::empty(), verbose) == Request::Nothing,
        x == "-h"@ || x == "--help"@ ==> requested(seq![x] + rest, verbose) == Request::Help,
        x == "-V"@ || x == "--version"@ ==> requested(seq![x] + rest, verbose) == Request::Version,
{
    reveal_strlit("-h");
    reveal_strlit("--help");
    reveal_strlit("-V");
    reveal_strlit("--version");
    assert((seq![x] + rest)[0] == x);
    assert("-h"@[1] == 'h' && "-V"@[1] == 'V' && "--help"@.len() == 6 && "--version"@.len() == 9);
    assert("-h"@.len() == 2 && "-V"@.len() == 2);
}

/// What is done is what the command names, with the arguments in their places; and only a
/// command that has no such meaning is unknown.
pub proof fn commands_mean_what_they_say(command: Seq<char>, args: Seq<Seq<char>>, r: Result<Task, CliProblem>)
    requires
        is_read_as(command, args, r),
    ensures
        r matches Ok(Task::Refresh) ==> command == "refresh"@,
        r matches Ok(Task::Update) ==> command == "update"@,
        r matches Ok(Task::Upgrade) ==> command == "upgrade"@,
        r matches Ok(Task::Autoremove) ==> command == "autoremove"@,
        r matches Ok(Task::List) ==> command == "list"@,
        r matches Ok(Task::Outdated) ==> command == "outdated"@,
        r matches Ok(Task::Tags) ==> command == "tags"@,
        r matches Ok(Task::Doctor) ==> command == "doctor"@,
        r matches Ok(Task::Repair) ==> command == "repair"@,
        r matches Ok(Task::Remove(s)) ==> command == "remove"@ && (args.len() > 0 ==> s@ == args[0]),
        r matches Ok(Task::Search(s)) ==> command == "search"@ && (args.len() > 0 ==> s@ == args[0]),
        r matches Ok(Task::Info(s)) ==> command == "info"@ && (args.len() > 0 ==> s@ == args[0]),
        r matches Ok(Task::Deps(s)) ==> command == "deps"@ && (args.len() > 0 ==> s@ == args[0]),
        r matches Ok(Task::Unpin(s)) ==> command == "unpin"@ && (args.len() > 0 ==> s@ == args[0]),
        r matches Ok(Task::Rollback(s)) ==> command == "rollback"@ && (s is None <==> args.len() == 0) && (
        s matches Some(t) ==> t@ == args[0]),
        r matches Ok(Task::Create(s)) ==> command == "create"@ && (s is None <==> args.len() == 0) && (
        s matches Some(t) ==> t@ == args[0]),
        r matches Ok(Task::Install(l)) ==> command == "install"@ && strs(l@) == args,
        r matches Ok(Task::Diff(l)) ==> command == "diff"@ && strs(l@) == args,
        r matches Ok(Task::Build(l)) ==> command == "build"@ && strs(l@) == args,
        r matches Ok(Task::Lock(l)) ==> command == "lock"@ && strs(l@) == args,
        r matches Ok(Task::Dev(l)) ==> command == "dev"@ && strs(l@) == args,
        r matches Ok(Task::Switch { package, version }) ==> command == "switch"@ && args.len() >= 2 && package@
            == args[0] && version@ == args[1],
        r matches Ok(Task::Pin { package, version }) ==> command == "pin"@ && args.len() >= 2 && package@ == args[0]
            && version@ == args[1],
        r matches Ok(Task::Run { package, program, args: rest }) ==> command == "run"@ && args.len() >= 2 && package@
            == args[0] && program@ == args[1] && strs(rest@) == args.skip(2),
        r matches Ok(Task::Clean { all }) ==> command == "clean"@ && all == args.contains("--all"@),
        r matches Ok(Task::Verify(s)) ==> command == "verify"@ && (args.len() > 0 ==> s@ == args[0] && args[0]
            != "--import-key"@),
        r matches Ok(Task::ImportKey(k)) ==> command == "verify"@ && args.len() >= 2 && args[0] == "--import-key"@
            && k@ == args[1],
        r matches Err(CliProblem::UnknownCommand(_)) ==> command != "refresh"@ && command != "update"@ && command
            != "upgrade"@ && command != "autoremove"@ && command != "list"@ && command != "outdated"@ && command
            != "tags"@ && command != "doctor"@ && command != "repair"@ && command != "remove"@ && command
            != "search"@ && command != "info"@ && command != "deps"@ && command != "unpin"@ && command
            != "rollback"@ && command != "create"@ && command != "install"@ && command != "diff"@ && command
            != "build"@ && command != "lock"@ && command != "dev"@ && command != "switch"@ && command != "pin"@
            && command != "run"@ && command != "clean"@ && command != "verify"@,
        r matches Err(CliProblem::Usage(_)) ==> args.len() < 2 || (command == "verify"@ && args[1].len() == 0),
{
}

} // verus!
