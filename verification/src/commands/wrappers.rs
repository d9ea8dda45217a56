//! Wrappers: the small scripts by which installed programs are started.
use vstd::prelude::*;

use crate::hooks::has_shebang;
use crate::number::{decimal, to_decimal};
use crate::pattern::{contains, ends_with, has_prefix, has_suffix, occurs, skip_chars, starts_with};
use crate::state::{WrapperNames, wrapper_key};
use crate::text::{is_letter, is_one_letter, lines, lossy_text, run, run_bounds, run_unique, same, split_lines, split_words, strs, text_of_bytes, trim_white, trimmed, words, CharClass};

verus! {

// ---------------------------------------------------------------------------
// Contents
// ---------------------------------------------------------------------------

/// The script that starts a program of a package.
pub open spec fn wrapper_script(exe: Seq<char>, pkg: Seq<char>, rel: Seq<char>) -> Seq<char> {
    "#!/bin/sh\nexec "@ + exe + " run "@ + pkg + " "@ + rel + " \"$@\"\n"@
}

/// The script that starts a program of a package.
pub fn wrapper_content(exe: &str, pkg: &str, rel: &str) -> (r: String)
    ensures
        r@ == wrapper_script(exe@, pkg@, rel@),
{
    let mut s = "#!/bin/sh\nexec ".to_owned();
    s.append(exe);
    s.append(" run ");
    s.append(pkg);
    s.append(" ");
    s.append(rel);
    s.append(" \"$@\"\n");
    s
}

/// The package that a line `exec <program> run <package> ...` names.
pub open spec fn exec_line_pkg(line: Seq<char>) -> Option<Seq<char>> {
    if has_prefix(line, "exec "@) {
        let w = words(line.skip(5));
        if w.len() >= 3 && w[1] == "run"@ {
            Some(w[2])
        } else {
            None
        }
    } else {
        None
    }
}

/// The package that the first such line names.
pub open spec fn first_exec_pkg(all: Seq<Seq<char>>) -> Option<Seq<char>>
    decreases all.len(),
{
    if all.len() == 0 {
        None
    } else {
        match exec_line_pkg(all[0]) {
            Some(p) => Some(p),
            None => first_exec_pkg(all.drop_first()),
        }
    }
}

/// The package that a wrapper starts a program of.
pub fn extract_pkg_from_wrapper(content: &str) -> (r: Option<String>)
    ensures
        match r {
            Some(p) => first_exec_pkg(lines(content@)) == Some(p@),
            None => first_exec_pkg(lines(content@)) is None,
        },
{
    let all = split_lines(content);
    let mut i: usize = 0;
    let ghost s = strs(all@);
    assert(s.skip(0) =~= s);
    proof {
        reveal_strlit("exec ");
    }
    while i < all.len()
        invariant
            i <= all@.len(),
            s == strs(all@),
            s == lines(content@),
            "exec "@.len() == 5,
            first_exec_pkg(s) == first_exec_pkg(s.skip(i as int)),
        decreases all@.len() - i,
    {
        let line = all[i].as_str();
        assert(s.skip(i as int)[0] == line@);
        assert(s.skip(i as int).drop_first() =~= s.skip(i + 1));
        if starts_with(line, "exec ") {
            let rest = skip_chars(line, 5);
            let w = split_words(rest.as_str());
            if w.len() >= 3 {
                assert(strs(w@)[1] == w@[1]@);
                assert(strs(w@)[2] == w@[2]@);
                if same(w[1].as_str(), "run") {
                    return Some(w[2].clone());
                }
            }
        }
        i = i + 1;
    }
    None
}

// ---------------------------------------------------------------------------
// Names of the system
// ---------------------------------------------------------------------------

/// Shells.
pub open spec fn shells(n: Seq<char>) -> bool {
    n == "sh"@ || n == "bash"@ || n == "zsh"@ || n == "fish"@ || n == "dash"@
}

/// Tools for files.
pub open spec fn file_tools(n: Seq<char>) -> bool {
    n == "ls"@ || n == "cp"@ || n == "mv"@ || n == "rm"@ || n == "mkdir"@ || n == "rmdir"@ || n == "ln"@ || n == "chmod"@ || n == "chown"@
}

/// The simplest tools for text, and the conditions of shells.
pub open spec fn text_basics(n: Seq<char>) -> bool {
    n == "cat"@ || n == "echo"@ || n == "printf"@ || n == "test"@ || n == "true"@ || n == "false"@ || n == "["@
}

/// Tools that search and change text.
pub open spec fn text_tools(n: Seq<char>) -> bool {
    n == "grep"@ || n == "sed"@ || n == "awk"@ || n == "find"@ || n == "xargs"@ || n == "sort"@ || n == "uniq"@ || n == "wc"@ || n == "head"@ || n == "tail"@
}

/// Tools for archives.
pub open spec fn archivers(n: Seq<char>) -> bool {
    n == "tar"@ || n == "gzip"@ || n == "bzip2"@ || n == "xz"@ || n == "zstd"@ || n == "zip"@ || n == "unzip"@
}

/// Tools for mounts and for who one is.
pub open spec fn account_tools(n: Seq<char>) -> bool {
    n == "mount"@ || n == "umount"@ || n == "sudo"@ || n == "su"@ || n == "passwd"@ || n == "id"@ || n == "whoami"@
}

/// Tools for processes.
pub open spec fn process_tools(n: Seq<char>) -> bool {
    n == "ps"@ || n == "kill"@ || n == "killall"@ || n == "top"@ || n == "htop"@
}

/// Tools for the network.
pub open spec fn network_tools(n: Seq<char>) -> bool {
    n == "ip"@ || n == "ifconfig"@ || n == "ping"@ || n == "curl"@ || n == "wget"@ || n == "ssh"@ || n == "scp"@
}

/// Tools for the packages and services of the system.
pub open spec fn system_managers(n: Seq<char>) -> bool {
    n == "apt"@ || n == "dpkg"@ || n == "apt-get"@ || n == "apt-cache"@ || n == "systemctl"@ || n == "journalctl"@
}

/// Interpreters.
pub open spec fn interpreters(n: Seq<char>) -> bool {
    n == "python"@ || n == "python3"@ || n == "perl"@ || n == "ruby"@ || n == "node"@ || n == "npm"@
}

/// Tools to build programs.
pub open spec fn compilers(n: Seq<char>) -> bool {
    n == "git"@ || n == "make"@ || n == "gcc"@ || n == "cc"@ || n == "g++"@ || n == "clang"@
}

/// Tools that tell what is there.
pub open spec fn environment_tools(n: Seq<char>) -> bool {
    n == "env"@ || n == "which"@ || n == "whereis"@ || n == "type"@ || n == "hostname"@ || n == "uname"@ || n == "df"@ || n == "du"@
}

/// Tools for users and for times.
pub open spec fn user_tools(n: Seq<char>) -> bool {
    n == "useradd"@ || n == "userdel"@ || n == "groupadd"@ || n == "usermod"@ || n == "crontab"@
}

/// Whether a name is that of a tool that the system cannot do without.
pub open spec fn system_critical(n: Seq<char>) -> bool {
    shells(n) || file_tools(n) || text_basics(n) || text_tools(n) || archivers(n) || account_tools(n) || process_tools(n) || network_tools(n) || system_managers(n) || interpreters(n) || compilers(n) || environment_tools(n) || user_tools(n)
}

fn is_shells(n: &str) -> (r: bool)
    ensures
        r == shells(n@),
{
    same(n, "sh") || same(n, "bash") || same(n, "zsh") || same(n, "fish") || same(n, "dash")
}

fn is_file_tools(n: &str) -> (r: bool)
    ensures
        r == file_tools(n@),
{
    same(n, "ls") || same(n, "cp") || same(n, "mv") || same(n, "rm") || same(n, "mkdir") || same(n, "rmdir") || same(n, "ln") || same(n, "chmod") || same(n, "chown")
}

fn is_text_basics(n: &str) -> (r: bool)
    ensures
        r == text_basics(n@),
{
    same(n, "cat") || same(n, "echo") || same(n, "printf") || same(n, "test") || same(n, "true") || same(n, "false") || same(n, "[")
}

fn is_text_tools(n: &str) -> (r: bool)
    ensures
        r == text_tools(n@),
{
    same(n, "grep") || same(n, "sed") || same(n, "awk") || same(n, "find") || same(n, "xargs") || same(n, "sort") || same(n, "uniq") || same(n, "wc") || same(n, "head") || same(n, "tail")
}

fn is_archivers(n: &str) -> (r: bool)
    ensures
        r == archivers(n@),
{
    same(n, "tar") || same(n, "gzip") || same(n, "bzip2") || same(n, "xz") || same(n, "zstd") || same(n, "zip") || same(n, "unzip")
}

fn is_account_tools(n: &str) -> (r: bool)
    ensures
        r == account_tools(n@),
{
    same(n, "mount") || same(n, "umount") || same(n, "sudo") || same(n, "su") || same(n, "passwd") || same(n, "id") || same(n, "whoami")
}

fn is_process_tools(n: &str) -> (r: bool)
    ensures
        r == process_tools(n@),
{
    same(n, "ps") || same(n, "kill") || same(n, "killall") || same(n, "top") || same(n, "htop")
}

fn is_network_tools(n: &str) -> (r: bool)
    ensures
        r == network_tools(n@),
{
    same(n, "ip") || same(n, "ifconfig") || same(n, "ping") || same(n, "curl") || same(n, "wget") || same(n, "ssh") || same(n, "scp")
}

fn is_system_managers(n: &str) -> (r: bool)
    ensures
        r == system_managers(n@),
{
    same(n, "apt") || same(n, "dpkg") || same(n, "apt-get") || same(n, "apt-cache") || same(n, "systemctl") || same(n, "journalctl")
}

fn is_interpreters(n: &str) -> (r: bool)
    ensures
        r == interpreters(n@),
{
    same(n, "python") || same(n, "python3") || same(n, "perl") || same(n, "ruby") || same(n, "node") || same(n, "npm")
}

fn is_compilers(n: &str) -> (r: bool)
    ensures
        r == compilers(n@),
{
    same(n, "git") || same(n, "make") || same(n, "gcc") || same(n, "cc") || same(n, "g++") || same(n, "clang")
}

fn is_environment_tools(n: &str) -> (r: bool)
    ensures
        r == environment_tools(n@),
{
    same(n, "env") || same(n, "which") || same(n, "whereis") || same(n, "type") || same(n, "hostname") || same(n, "uname") || same(n, "df") || same(n, "du")
}

fn is_user_tools(n: &str) -> (r: bool)
    ensures
        r == user_tools(n@),
{
    same(n, "useradd") || same(n, "userdel") || same(n, "groupadd") || same(n, "usermod") || same(n, "crontab")
}

/// Whether a name is that of a tool that the system cannot do without.
pub fn is_system_critical(n: &str) -> (r: bool)
    ensures
        r == system_critical(n@),
{
    is_shells(n) || is_file_tools(n) || is_text_basics(n) || is_text_tools(n) || is_archivers(n) || is_account_tools(n) || is_process_tools(n) || is_network_tools(n) || is_system_managers(n) || is_interpreters(n) || is_compilers(n) || is_environment_tools(n) || is_user_tools(n)
}

// ---------------------------------------------------------------------------
// Conflicts
// ---------------------------------------------------------------------------

/// What stands at the place where a wrapper is to go.
#[derive(Debug)]
pub enum WrapperConflict {
    /// Nothing.
    Free,
    /// A wrapper of a package; the name is empty where it cannot be read.
    HpmWrapper { pkg: String },
    /// Something else.
    Foreign,
    /// A tool that the system cannot do without.
    SystemCritical,
}

/// What stands at a place, as a mathematical value.
pub enum Place {
    Free,
    HpmWrapper(Seq<char>),
    Foreign,
    SystemCritical,
}

impl View for WrapperConflict {
    type V = Place;

    open spec fn view(&self) -> Place {
        match self {
            WrapperConflict::Free => Place::Free,
            WrapperConflict::HpmWrapper { pkg } => Place::HpmWrapper(pkg@),
            WrapperConflict::Foreign => Place::Foreign,
            WrapperConflict::SystemCritical => Place::SystemCritical,
        }
    }
}

/// Whether a file is a wrapper.
pub open spec fn is_wrapper(content: Seq<char>) -> bool {
    occurs(content, "hpm run "@) && has_prefix(content, "#!/bin/sh"@)
}

/// The package that the first line `exec ...` of a wrapper names, or nothing.
pub open spec fn owner_in(all: Seq<Seq<char>>) -> Seq<char>
    decreases all.len(),
{
    if all.len() == 0 {
        Seq::empty()
    } else if has_prefix(all[0], "exec "@) {
        let w = words(all[0]);
        if w.len() >= 4 && has_suffix(w[1], "hpm"@) && w[2] == "run"@ {
            w[3]
        } else {
            Seq::empty()
        }
    } else {
        owner_in(all.drop_first())
    }
}

/// What stands at the place of a wrapper, given whether there is a file and
/// what it holds, if that is text.
pub open spec fn place_of(bin: Seq<char>, exists_there: bool, content: Option<Seq<char>>) -> Place {
    if !exists_there {
        Place::Free
    } else if system_critical(bin) {
        Place::SystemCritical
    } else {
        match content {
            Some(c) => if is_wrapper(c) {
                Place::HpmWrapper(owner_in(lines(c)))
            } else {
                Place::Foreign
            },
            None => Place::Foreign,
        }
    }
}

fn owner_of(content: &str) -> (r: String)
    ensures
        r@ == owner_in(lines(content@)),
{
    let all = split_lines(content);
    let mut i: usize = 0;
    let ghost s = strs(all@);
    assert(s.skip(0) =~= s);
    while i < all.len()
        invariant
            i <= all@.len(),
            s == strs(all@),
            s == lines(content@),
            owner_in(s) == owner_in(s.skip(i as int)),
        decreases all@.len() - i,
    {
        let line = all[i].as_str();
        assert(s.skip(i as int)[0] == line@);
        assert(s.skip(i as int).drop_first() =~= s.skip(i + 1));
        if starts_with(line, "exec ") {
            let w = split_words(line);
            if w.len() >= 4 {
                assert(strs(w@)[1] == w@[1]@);
                assert(strs(w@)[2] == w@[2]@);
                assert(strs(w@)[3] == w@[3]@);
                if ends_with(w[1].as_str(), "hpm") && same(w[2].as_str(), "run") {
                    return w[3].clone();
                }
            }
            let e = String::new();
            assert(e@ =~= Seq::<char>::empty());
            return e;
        }
        i = i + 1;
    }
    let e = String::new();
    assert(e@ =~= Seq::<char>::empty());
    e
}

/// What stands at the place of a wrapper.
pub fn classify_wrapper(bin_name: &str, exists_there: bool, content: &Option<String>) -> (r: WrapperConflict)
    ensures
        r@ == place_of(
            bin_name@,
            exists_there,
            match content {
                Some(c) => Some(c@),
                None => None,
            },
        ),
{
    if !exists_there {
        return WrapperConflict::Free;
    }
    if is_system_critical(bin_name) {
        return WrapperConflict::SystemCritical;
    }
    match content {
        Some(c) => {
            if contains(c.as_str(), "hpm run ") && starts_with(c.as_str(), "#!/bin/sh") {
                WrapperConflict::HpmWrapper { pkg: owner_of(c.as_str()) }
            } else {
                WrapperConflict::Foreign
            }
        },
        None => WrapperConflict::Foreign,
    }
}

/// What to do about the wrapper of a program.
#[derive(Debug)]
pub enum WrapperPlan {
    /// Write it under a name.
    Use(String),
    /// Ask: another package has the name.
    AskOwned(String),
    /// Ask: a file that is no wrapper has the name.
    AskForeign,
    /// Offer another name: this one is the system's.
    OfferOther,
}

/// What to do, as a mathematical value.
pub enum Plan {
    Use(Seq<char>),
    AskOwned(Seq<char>),
    AskForeign,
    OfferOther,
}

impl View for WrapperPlan {
    type V = Plan;

    open spec fn view(&self) -> Plan {
        match self {
            WrapperPlan::Use(n) => Plan::Use(n@),
            WrapperPlan::AskOwned(p) => Plan::AskOwned(p@),
            WrapperPlan::AskForeign => Plan::AskForeign,
            WrapperPlan::OfferOther => Plan::OfferOther,
        }
    }
}

/// Whether a package may write at a place without asking.
pub open spec fn may_take(place: Place, pkg: Seq<char>) -> bool {
    place == Place::Free || place == Place::HpmWrapper(pkg)
}

/// What to do about the wrapper of a program: a name that was chosen before
/// counts if it can be taken; else the program's own name does.
pub open spec fn plan_for(
    bin: Seq<char>,
    pkg: Seq<char>,
    remembered: Option<(Seq<char>, Place)>,
    place: Place,
) -> Plan {
    if remembered matches Some((_, there)) && may_take(there, pkg) {
        Plan::Use((remembered->0).0)
    } else {
        match place {
            Place::Free => Plan::Use(bin),
            Place::HpmWrapper(p) => if p == pkg {
                Plan::Use(bin)
            } else {
                Plan::AskOwned(p)
            },
            Place::Foreign => Plan::AskForeign,
            Place::SystemCritical => Plan::OfferOther,
        }
    }
}

fn takes(place: &WrapperConflict, pkg: &str) -> (r: bool)
    ensures
        r == may_take(place@, pkg@),
{
    match place {
        WrapperConflict::Free => true,
        WrapperConflict::HpmWrapper { pkg: p } => same(p.as_str(), pkg),
        _ => false,
    }
}

/// What to do about the wrapper of a program. `remembered` is the name that was
/// chosen for it before, with what stands at that name's place.
pub fn resolve_wrapper_name(
    bin_name: &str,
    pkg_name: &str,
    remembered: &Option<(String, WrapperConflict)>,
    place: &WrapperConflict,
) -> (r: WrapperPlan)
    ensures
        r@ == plan_for(
            bin_name@,
            pkg_name@,
            match remembered {
                Some((n, c)) => Some((n@, c@)),
                None => None,
            },
            place@,
        ),
{
    match remembered {
        Some((n, c)) => {
            if takes(c, pkg_name) {
                return WrapperPlan::Use(n.clone());
            }
        },
        None => {},
    }
    match place {
        WrapperConflict::Free => WrapperPlan::Use(bin_name.to_owned()),
        WrapperConflict::HpmWrapper { pkg } => {
            if same(pkg.as_str(), pkg_name) {
                WrapperPlan::Use(bin_name.to_owned())
            } else {
                WrapperPlan::AskOwned(pkg.clone())
            }
        },
        WrapperConflict::Foreign => WrapperPlan::AskForeign,
        WrapperConflict::SystemCritical => WrapperPlan::OfferOther,
    }
}

/// The name to suggest where a program's own is taken.
pub open spec fn suggested(pkg: Seq<char>, bin: Seq<char>) -> Seq<char> {
    pkg + "-"@ + bin
}

/// The name to suggest where a program's own is taken.
pub fn suggested_name(pkg_name: &str, bin_name: &str) -> (r: String)
    ensures
        r@ == suggested(pkg_name@, bin_name@),
        r@ == pkg_name@ + "-"@ + bin_name@,
{
    let mut s = pkg_name.to_owned();
    s.append("-");
    s.append(bin_name);
    s
}

/// What an answer about a wrapper's name comes to.
#[derive(Debug)]
pub enum WrapperAnswer {
    /// Write it under a name.
    Use(String),
    /// Do not write it.
    Skip,
    /// Ask for a name.
    AskCustom,
}

/// What an answer comes to, as a mathematical value.
pub enum Answer {
    Use(Seq<char>),
    Skip,
    AskCustom,
}

impl View for WrapperAnswer {
    type V = Answer;

    open spec fn view(&self) -> Answer {
        match self {
            WrapperAnswer::Use(n) => Answer::Use(n@),
            WrapperAnswer::Skip => Answer::Skip,
            WrapperAnswer::AskCustom => Answer::AskCustom,
        }
    }
}

/// What an answer to the question about a taken name comes to: `1` overwrites,
/// `3` skips, and anything else takes the suggested name if that is free.
pub fn ask_wrapper_resolution(input: &str, bin_name: &str, pkg_name: &str, suggested_exists: bool) -> (r: WrapperAnswer)
    ensures
        r@ == (if trimmed(input@) == "1"@ {
            Answer::Use(bin_name@)
        } else if trimmed(input@) == "3"@ {
            Answer::Skip
        } else if !suggested_exists {
            Answer::Use(suggested(pkg_name@, bin_name@))
        } else {
            Answer::AskCustom
        }),
{
    let t = trim_white(input);
    if same(t.as_str(), "1") {
        WrapperAnswer::Use(bin_name.to_owned())
    } else if same(t.as_str(), "3") {
        WrapperAnswer::Skip
    } else if !suggested_exists {
        WrapperAnswer::Use(suggested_name(pkg_name, bin_name))
    } else {
        WrapperAnswer::AskCustom
    }
}

/// What an answer with a name of one's own comes to; an empty one skips.
pub fn custom_wrapper_name(input: &str) -> (r: WrapperAnswer)
    ensures
        r@ == (if trimmed(input@).len() == 0 {
            Answer::Skip
        } else {
            Answer::Use(trimmed(input@))
        }),
{
    let t = trim_white(input);
    proof {
        reveal_strlit("");
        if t@.len() == 0 {
            assert(t@ =~= ""@);
        }
    }
    if same(t.as_str(), "") {
        WrapperAnswer::Skip
    } else {
        WrapperAnswer::Use(t)
    }
}

/// What an answer to the offer of another name, for one that is the system's,
/// comes to: the suggested name, if it is free and the answer is not `n`.
pub fn offered_wrapper_name(input: &str, bin_name: &str, pkg_name: &str, suggested_exists: bool) -> (r: WrapperAnswer)
    ensures
        r@ == (if !suggested_exists && !is_letter(trimmed(input@), 'n', 'N') {
            Answer::Use(suggested(pkg_name@, bin_name@))
        } else {
            Answer::Skip
        }),
{
    let t = trim_white(input);
    if !suggested_exists && !is_one_letter(t.as_str(), 'n', 'N') {
        WrapperAnswer::Use(suggested_name(pkg_name, bin_name))
    } else {
        WrapperAnswer::Skip
    }
}

/// Remembers the name under which a wrapper is written, if it was chosen because
/// the program's own was taken, and is not the program's own.
pub fn remember_wrapper(names: &mut WrapperNames, plan: &WrapperPlan, pkg_name: &str, bin_name: &str, chosen: &str)
    requires
        old(names).wf(),
    ensures
        final(names).wf(),
        final(names)@ == (if plan !is Use && chosen@ != bin_name@ {
            old(names)@.insert(wrapper_key(pkg_name@, bin_name@), chosen@)
        } else {
            old(names)@
        }),
{
    let asked = match plan {
        WrapperPlan::Use(_) => false,
        _ => true,
    };
    if asked && !same(chosen, bin_name) {
        names.set(pkg_name, bin_name, chosen);
    }
}

/// A file that stands where a wrapper is to go.
pub struct ForeignFile {
    pub is_symlink: bool,
    /// Its bytes, if it could be read.
    pub content: Option<Vec<u8>>,
    pub size: u64,
}

/// Where the first line of some bytes ends, at the latest after eighty bytes.
pub open spec fn line_end(content: Seq<u8>, i: int) -> int
    decreases content.len() - i,
{
    if i >= 80 || i >= content.len() || i < 0 {
        i
    } else if content[i] == 10 {
        i
    } else {
        line_end(content, i + 1)
    }
}

/// Whether the first line of a script ends, or eighty bytes of it are there.
pub open spec fn has_line(content: Seq<u8>) -> bool {
    content.len() >= 80 || content.contains(10)
}

/// A description of a file that stands where a wrapper is to go.
pub open spec fn description(f: ForeignFile) -> Seq<char> {
    if f.is_symlink {
        "symlink"@
    } else {
        match f.content {
            Some(c) => if has_shebang(c@) {
                "script: "@ + trimmed(lossy_text(c@.take(line_end(c@, 0))))
            } else if c@.len() >= 4 && c@[0] == 127 && c@[1] == 69 && c@[2] == 76 && c@[3] == 70 {
                "compiled binary (ELF)"@
            } else {
                decimal(f.size as nat) + " bytes"@
            },
            None => decimal(f.size as nat) + " bytes"@,
        }
    }
}

/// A description of a file that stands where a wrapper is to go, if anything
/// is known of it.
pub fn describe_foreign_file(file: &Option<ForeignFile>) -> (r: String)
    requires
        file matches Some(f) ==> !f.is_symlink ==> (f.content matches Some(c) ==> has_shebang(c@)
            ==> has_line(c@)),
    ensures
        r@ == (match file {
            Some(f) => description(*f),
            None => "unknown"@,
        }),
{
    match file {
        Some(f) => describe(f),
        None => "unknown".to_owned(),
    }
}

fn describe(f: &ForeignFile) -> (r: String)
    ensures
        r@ == description(*f),
{
    if f.is_symlink {
        return "symlink".to_owned();
    }
    match &f.content {
        Some(c) => {
            if c.len() >= 2 && c[0] == 35 && c[1] == 33 {
                let mut line: Vec<u8> = Vec::new();
                let mut i: usize = 0;
                assert(c@.take(0) =~= line@);
                while i < 80 && i < c.len() && c[i] != 10
                    invariant
                        i <= c@.len(),
                        i <= 80,
                        line@ == c@.take(i as int),
                        line_end(c@, 0) == line_end(c@, i as int),
                    decreases c@.len() - i,
                {
                    assert(c@.take(i + 1) =~= c@.take(i as int).push(c@[i as int]));
                    line.push(c[i]);
                    i = i + 1;
                }
                let t = text_of_bytes(&line);
                let u = trim_white(t.as_str());
                let mut s = "script: ".to_owned();
                s.append(u.as_str());
                return s;
            }
            if c.len() >= 4 && c[0] == 127 && c[1] == 69 && c[2] == 76 && c[3] == 70 {
                return "compiled binary (ELF)".to_owned();
            }
        },
        None => {},
    }
    let mut s = to_decimal(f.size);
    s.append(" bytes");
    s
}

// ---------------------------------------------------------------------------
// Laws
// ---------------------------------------------------------------------------

/// Whether a text is one word.
pub open spec fn is_word(s: Seq<char>) -> bool {
    s.len() > 0 && forall|i: int| 0 <= i < s.len() ==> !CharClass::White.has(#[trigger] s[i])
}

proof fn words_after_white(c: char, rest: Seq<char>)
    requires
        CharClass::White.has(c),
    ensures
        words(seq![c] + rest) == words(rest),
{
    let s = seq![c] + rest;
    let k = CharClass::White;
    run_bounds(rest, k, true);
    let a = run(rest, k, true);
    assert forall|i: int| 0 <= i < a + 1 implies k.has(#[trigger] s[i]) == true by {
        if i > 0 {
            assert(s[i] == rest[i - 1]);
        }
    }
    if a < rest.len() {
        assert(s[a + 1] == rest[a]);
    }
    run_unique(s, k, true, a + 1);
    assert(s.skip(a + 1) =~= rest.skip(a));
}

proof fn words_cons(w: Seq<char>, c: char, rest: Seq<char>)
    requires
        is_word(w),
        CharClass::White.has(c),
    ensures
        words(w + (seq![c] + rest)) == seq![w] + words(rest),
{
    let s = w + (seq![c] + rest);
    let k = CharClass::White;
    assert(s[0] == w[0]);
    run_unique(s, k, true, 0);
    assert(s.skip(0) =~= s);
    assert forall|i: int| 0 <= i < w.len() implies k.has(#[trigger] s[i]) == false by {
        assert(s[i] == w[i]);
    }
    assert(s[w.len() as int] == c);
    run_unique(s, k, false, w.len() as int);
    assert(s.take(w.len() as int) =~= w);
    assert(s.skip(w.len() as int) =~= seq![c] + rest);
    words_after_white(c, rest);
}

proof fn lines_cons(l: Seq<char>, rest: Seq<char>)
    requires
        !l.contains('\n'),
        l.len() == 0 || l.last() != '\r',
    ensures
        lines(l + (seq!['\n'] + rest)) == seq![l] + lines(rest),
{
    let s = l + (seq!['\n'] + rest);
    let k = CharClass::Is('\n');
    assert forall|i: int| 0 <= i < l.len() implies k.has(#[trigger] s[i]) == false by {
        assert(s[i] == l[i]);
        assert(l.contains(l[i]));
    }
    assert(s[l.len() as int] == '\n');
    run_unique(s, k, false, l.len() as int);
    assert(s.take(l.len() as int) =~= l);
    assert(s.skip(l.len() as int + 1) =~= rest);
}

spec fn script_tail(rel: Seq<char>) -> Seq<char> {
    rel + seq![' ', '"', '$', '@', '"']
}

spec fn script_args(exe: Seq<char>, pkg: Seq<char>, rel: Seq<char>) -> Seq<char> {
    exe + (seq![' '] + (seq!['r', 'u', 'n'] + (seq![' '] + (pkg + (seq![' '] + script_tail(rel))))))
}

spec fn script_line(exe: Seq<char>, pkg: Seq<char>, rel: Seq<char>) -> Seq<char> {
    seq!['e', 'x', 'e', 'c'] + (seq![' '] + script_args(exe, pkg, rel))
}

proof fn script_is(exe: Seq<char>, pkg: Seq<char>, rel: Seq<char>)
    ensures
        wrapper_script(exe, pkg, rel) == "#!/bin/sh"@ + (seq!['\n'] + (script_line(exe, pkg, rel) + (seq!['\n']
            + Seq::<char>::empty()))),
        "#!/bin/sh"@.len() == 9,
        has_prefix(wrapper_script(exe, pkg, rel), "#!/bin/sh"@),
{
    reveal_strlit("#!/bin/sh\nexec ");
    reveal_strlit("#!/bin/sh");
    reveal_strlit(" run ");
    reveal_strlit(" ");
    reveal_strlit(" \"$@\"\n");
    let script = wrapper_script(exe, pkg, rel);
    assert(script =~= "#!/bin/sh"@ + (seq!['\n'] + (script_line(exe, pkg, rel) + (seq!['\n']
        + Seq::<char>::empty()))));
    assert(script.take(9) =~= "#!/bin/sh"@);
}

proof fn script_calls_hpm(exe: Seq<char>, pkg: Seq<char>, rel: Seq<char>)
    requires
        has_suffix(exe, "hpm"@),
    ensures
        occurs(wrapper_script(exe, pkg, rel), "hpm run "@),
{
    reveal_strlit("#!/bin/sh\nexec ");
    reveal_strlit(" run ");
    reveal_strlit("hpm run ");
    reveal_strlit("hpm");
    let script = wrapper_script(exe, pkg, rel);
    let at = 15 + exe.len() - 3;
    assert(exe.skip(exe.len() - 3) == "hpm"@);
    assert(script.skip(at).take(8) =~= "hpm run "@) by {
        let got = script.skip(at).take(8);
        let e = exe.skip(exe.len() - 3);
        assert(got[0] == e[0] && got[1] == e[1] && got[2] == e[2]);
        assert(e[0] == 'h' && e[1] == 'p' && e[2] == 'm');
        assert(got[3] == ' ' && got[4] == 'r' && got[5] == 'u' && got[6] == 'n' && got[7] == ' ');
    }
    assert(has_prefix(script.skip(at), "hpm run "@));
}

proof fn script_line_is_one(exe: Seq<char>, pkg: Seq<char>, rel: Seq<char>)
    requires
        is_word(exe),
        is_word(pkg),
        is_word(rel),
    ensures
        !script_line(exe, pkg, rel).contains('\n'),
        script_line(exe, pkg, rel).last() != '\r',
{
    let line = script_line(exe, pkg, rel);
    assert forall|i: int| 0 <= i < line.len() implies line[i] != '\n' by {
        if i < 5 {
        } else if i < 5 + exe.len() {
            assert(line[i] == exe[i - 5]);
            assert(!CharClass::White.has(exe[i - 5]));
        } else if i < 10 + exe.len() {
        } else if i < 10 + exe.len() + pkg.len() {
            assert(line[i] == pkg[i - 10 - exe.len()]);
            assert(!CharClass::White.has(pkg[i - 10 - exe.len()]));
        } else if i < 11 + exe.len() + pkg.len() {
        } else if i < 11 + exe.len() + pkg.len() + rel.len() {
            assert(line[i] == rel[i - 11 - exe.len() - pkg.len()]);
            assert(!CharClass::White.has(rel[i - 11 - exe.len() - pkg.len()]));
        }
    }
    assert(line.last() == '"');
}

proof fn script_lines(exe: Seq<char>, pkg: Seq<char>, rel: Seq<char>)
    requires
        is_word(exe),
        is_word(pkg),
        is_word(rel),
    ensures
        lines(wrapper_script(exe, pkg, rel)) == seq!["#!/bin/sh"@, script_line(exe, pkg, rel)],
{
    let head = "#!/bin/sh"@;
    let line = script_line(exe, pkg, rel);
    let end: Seq<char> = Seq::empty();
    script_is(exe, pkg, rel);
    script_line_is_one(exe, pkg, rel);
    assert(!head.contains('\n') && head.last() != '\r') by {
        reveal_strlit("#!/bin/sh");
    }
    lines_cons(head, line + (seq!['\n'] + end));
    lines_cons(line, end);
    assert(lines(end) =~= Seq::<Seq<char>>::empty());
    assert(lines(wrapper_script(exe, pkg, rel)) =~= seq![head, line]);
}

proof fn script_words(exe: Seq<char>, pkg: Seq<char>, rel: Seq<char>)
    requires
        is_word(exe),
        is_word(pkg),
    ensures
        words(script_args(exe, pkg, rel)) == seq![exe, "run"@, pkg] + words(script_tail(rel)),
        words(script_line(exe, pkg, rel)) == seq![seq!['e', 'x', 'e', 'c'], exe, "run"@, pkg] + words(
            script_tail(rel),
        ),
{
    reveal_strlit("run");
    let tail = script_tail(rel);
    let after_run = pkg + (seq![' '] + tail);
    let after_exe = seq!['r', 'u', 'n'] + (seq![' '] + after_run);
    assert(is_word(seq!['e', 'x', 'e', 'c']));
    assert(is_word(seq!['r', 'u', 'n']));
    words_cons(seq!['e', 'x', 'e', 'c'], ' ', script_args(exe, pkg, rel));
    words_cons(exe, ' ', after_exe);
    words_cons(seq!['r', 'u', 'n'], ' ', after_run);
    words_cons(pkg, ' ', tail);
    assert(seq!['r', 'u', 'n'] =~= "run"@);
    assert(words(script_args(exe, pkg, rel)) =~= seq![exe, "run"@, pkg] + words(tail));
    assert(words(script_line(exe, pkg, rel)) =~= seq![seq!['e', 'x', 'e', 'c'], exe, "run"@, pkg] + words(tail));
}

/// A wrapper that was written for a package is recognised as that package's,
/// if the names in it are single words and the program's name ends in `hpm`.
pub proof fn written_wrapper_is_recognised(exe: Seq<char>, pkg: Seq<char>, rel: Seq<char>)
    requires
        is_word(exe),
        is_word(pkg),
        is_word(rel),
        has_suffix(exe, "hpm"@),
    ensures
        is_wrapper(wrapper_script(exe, pkg, rel)),
        owner_in(lines(wrapper_script(exe, pkg, rel))) == pkg,
        first_exec_pkg(lines(wrapper_script(exe, pkg, rel))) == Some(pkg),
{
    let head = "#!/bin/sh"@;
    let line = script_line(exe, pkg, rel);
    let all = lines(wrapper_script(exe, pkg, rel));
    script_is(exe, pkg, rel);
    script_calls_hpm(exe, pkg, rel);
    script_lines(exe, pkg, rel);
    script_words(exe, pkg, rel);
    assert(!has_prefix(head, "exec "@)) by {
        reveal_strlit("#!/bin/sh");
        reveal_strlit("exec ");
        if has_prefix(head, "exec "@) {
            assert(head.take(5)[0] == 'e');
        }
    }
    assert(has_prefix(line, "exec "@)) by {
        reveal_strlit("exec ");
        assert(line.take(5) =~= "exec "@);
    }
    assert(line.skip(5) =~= script_args(exe, pkg, rel));
    let w = words(line);
    assert(w[1] == exe && w[2] == "run"@ && w[3] == pkg);
    let v = words(line.skip(5));
    assert(v[1] == "run"@ && v[2] == pkg);
    assert(exec_line_pkg(line) == Some(pkg));
    reveal_with_fuel(first_exec_pkg, 2);
    reveal_with_fuel(owner_in, 2);
    assert(all[0] == head);
    assert(all.drop_first() =~= seq![line]);
    assert(all.drop_first()[0] == line);
    assert(owner_in(all.drop_first()) == pkg);
}

/// A package may always write its own wrappers again.
pub proof fn own_wrapper_is_taken(bin: Seq<char>, pkg: Seq<char>, remembered: Option<(Seq<char>, Place)>)
    ensures
        plan_for(bin, pkg, None, Place::HpmWrapper(pkg)) == Plan::Use(bin),
        plan_for(bin, pkg, None, Place::Free) == Plan::Use(bin),
        plan_for(bin, pkg, remembered, Place::SystemCritical) == Plan::Use(bin) ==> (remembered
            matches Some((name, _)) && name == bin),
{
}

/// A name that was chosen once is not asked for again, as long as its place is free
/// or holds a wrapper of the same package, even where the program's own name is one
/// of the system.
pub proof fn chosen_name_is_used_again(bin: Seq<char>, pkg: Seq<char>, chosen: Seq<char>, place: Place)
    ensures
        plan_for(bin, pkg, Some((chosen, Place::Free)), place) == Plan::Use(chosen),
        plan_for(bin, pkg, Some((chosen, Place::HpmWrapper(pkg))), place) == Plan::Use(chosen),
{
}

/// These names, and no others, are those of tools that the system cannot do without.
pub proof fn which_names_are_the_systems(n: Seq<char>)
    ensures
        system_critical(n) <==> (n == "["@ || n == "apt"@ || n == "apt-cache"@ || n == "apt-get"@ || n == "awk"@ || n == "bash"@ || n == "bzip2"@ || n == "cat"@ || n == "cc"@ || n == "chmod"@ || n == "chown"@ || n == "clang"@ || n == "cp"@ || n == "crontab"@ || n == "curl"@ || n == "dash"@ || n == "df"@ || n == "dpkg"@ || n == "du"@ || n == "echo"@ || n == "env"@ || n == "false"@ || n == "find"@ || n == "fish"@ || n == "g++"@ || n == "gcc"@ || n == "git"@ || n == "grep"@ || n == "groupadd"@ || n == "gzip"@ || n == "head"@ || n == "hostname"@ || n == "htop"@ || n == "id"@ || n == "ifconfig"@ || n == "ip"@ || n == "journalctl"@ || n == "kill"@ || n == "killall"@ || n == "ln"@ || n == "ls"@ || n == "make"@ || n == "mkdir"@ || n == "mount"@ || n == "mv"@ || n == "node"@ || n == "npm"@ || n == "passwd"@ || n == "perl"@ || n == "ping"@ || n == "printf"@ || n == "ps"@ || n == "python"@ || n == "python3"@ || n == "rm"@ || n == "rmdir"@ || n == "ruby"@ || n == "scp"@ || n == "sed"@ || n == "sh"@ || n == "sort"@ || n == "ssh"@ || n == "su"@ || n == "sudo"@ || n == "systemctl"@ || n == "tail"@ || n == "tar"@ || n == "test"@ || n == "top"@ || n == "true"@ || n == "type"@ || n == "umount"@ || n == "uname"@ || n == "uniq"@ || n == "unzip"@ || n == "useradd"@ || n == "userdel"@ || n == "usermod"@ || n == "wc"@ || n == "wget"@ || n == "whereis"@ || n == "which"@ || n == "whoami"@ || n == "xargs"@ || n == "xz"@ || n == "zip"@ || n == "zsh"@ || n == "zstd"@),
{
}

/// At a place without a file a wrapper can go; a tool of the system is told apart from all
/// else; and a file that does not start as a script of the shell is no wrapper.
pub proof fn what_stands_at_a_place(bin: Seq<char>, content: Option<Seq<char>>)
    ensures
        place_of(bin, false, content) == Place::Free,
        system_critical(bin) ==> place_of(bin, true, content) == Place::SystemCritical,
        !system_critical(bin) && (content matches Some(c) ==> !has_prefix(c, "#!/bin/sh"@) || !occurs(
            c,
            "hpm run "@,
        )) ==> place_of(bin, true, content) == Place::Foreign,
{
}

/// A wrapper that was written for a package is found as that of the package.
pub proof fn written_wrapper_is_found(bin: Seq<char>, exe: Seq<char>, pkg: Seq<char>, rel: Seq<char>)
    requires
        is_word(exe),
        is_word(pkg),
        is_word(rel),
        has_suffix(exe, "hpm"@),
        !system_critical(bin),
    ensures
        place_of(bin, true, Some(wrapper_script(exe, pkg, rel))) == Place::HpmWrapper(pkg),
{
    written_wrapper_is_recognised(exe, pkg, rel);
}

/// What another package or the system has is not taken without asking, whatever name was
/// chosen before, unless the place of that name can be taken.
pub proof fn taken_names_are_asked_about(
    bin: Seq<char>,
    pkg: Seq<char>,
    other: Seq<char>,
    chosen: Seq<char>,
    there: Place,
)
    requires
        other != pkg,
        there != Place::Free,
        there != Place::HpmWrapper(pkg),
    ensures
        plan_for(bin, pkg, None, Place::HpmWrapper(other)) == Plan::AskOwned(other),
        plan_for(bin, pkg, None, Place::Foreign) == Plan::AskForeign,
        plan_for(bin, pkg, None, Place::SystemCritical) == Plan::OfferOther,
        forall|place: Place| #[trigger]
            plan_for(bin, pkg, Some((chosen, there)), place) == plan_for(bin, pkg, None, place),
{
}

/// The first line ends at the first line feed, or after eighty bytes, or with the bytes.
pub proof fn line_ends_at_the_first_feed(content: Seq<u8>, i: int)
    requires
        0 <= i <= content.len(),
        i <= 80,
    ensures
        ({
            let e = line_end(content, i);
            &&& i <= e <= content.len() && e <= 80
            &&& forall|j: int| i <= j < e ==> #[trigger] content[j] != 10
            &&& e == 80 || e == content.len() || content[e] == 10
        }),
    decreases content.len() - i,
{
    if i < 80 && i < content.len() && content[i] != 10 {
        line_ends_at_the_first_feed(content, i + 1);
    }
}

/// The package of a wrapper is that of its first line that runs one; other lines do not
/// count.
pub proof fn first_running_line_counts(all: Seq<Seq<char>>, line: Seq<char>)
    ensures
        !has_prefix(line, "exec "@) ==> first_exec_pkg(seq![line] + all) == first_exec_pkg(all) && owner_in(
            seq![line] + all,
        ) == owner_in(all),
        has_prefix(line, "exec "@) && words(line.skip(5)).len() >= 3 && words(line.skip(5))[1] == "run"@
            ==> first_exec_pkg(seq![line] + all) == Some(words(line.skip(5))[2]),
        first_exec_pkg(Seq::empty()) is None,
        owner_in(Seq::empty()).len() == 0,
{
    assert((seq![line] + all)[0] == line);
    assert((seq![line] + all).drop_first() =~= all);
}

} // verus!
