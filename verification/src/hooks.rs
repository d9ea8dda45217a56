//! Hooks: scripts of a package that run around its installation and removal.
use vstd::prelude::*;

use crate::collections::NameSet;
use crate::number::{decimal, to_decimal};
use crate::pattern::{contains, has_prefix, occurs, starts_with, stripping_goes_on, strip_prefixes, trim_start_text};
use crate::text::{has_string, is_white, lossy_text, push_text, same, split_by, split_class, split_extends, split_words, strs, text_of_bytes, trim_white, trimmed, what_is_white, words, words_are_between_white, CharClass};

verus! {

/// The points at which a hook runs.
#[derive(Debug, Clone, Copy, PartialEq, Eq, Structural)]
pub enum HookKind {
    PreInstall,
    PostInstall,
    PreRemove,
    PostRemove,
    PostUpdate,
}

impl HookKind {
    /// The name of a hook's file, without its extension.
    pub open spec fn base(self) -> Seq<char> {
        match self {
            HookKind::PreInstall => "pre-install"@,
            HookKind::PostInstall => "post-install"@,
            HookKind::PreRemove => "pre-remove"@,
            HookKind::PostRemove => "post-remove"@,
            HookKind::PostUpdate => "post-update"@,
        }
    }

    /// The name of a hook's file, without its extension.
    pub fn base_name(&self) -> (r: &'static str)
        ensures
            r@ == self.base(),
    {
        match self {
            HookKind::PreInstall => "pre-install",
            HookKind::PostInstall => "post-install",
            HookKind::PreRemove => "pre-remove",
            HookKind::PostRemove => "post-remove",
            HookKind::PostUpdate => "post-update",
        }
    }

    /// The name that users see.
    pub fn display(&self) -> (r: &'static str)
        ensures
            r@ == self.base(),
    {
        self.base_name()
    }

    /// Whether the operation is given up where the hook fails: what runs before
    /// an installation or a removal can stop it.
    pub fn blocks_on_failure(&self) -> (r: bool)
        ensures
            r == (self is PreInstall || self is PreRemove),
    {
        match self {
            HookKind::PreInstall => true,
            HookKind::PreRemove => true,
            _ => false,
        }
    }
}

/// How long a hook may run, in seconds.
pub const HOOK_TIMEOUT_SECS: u64 = 60;

/// The languages of hooks, in order of precedence.
#[derive(Debug, Clone, Copy, PartialEq, Eq, Structural)]
pub enum HookLang {
    HackerLang,
    Python,
    Ruby,
    Shell,
}

impl HookLang {
    /// The extension of its files.
    pub open spec fn ext(self) -> Seq<char> {
        match self {
            HookLang::HackerLang => ".hl"@,
            HookLang::Python => ".py"@,
            HookLang::Ruby => ".rb"@,
            HookLang::Shell => ".sh"@,
        }
    }

    /// The program that runs it.
    pub open spec fn program(self) -> Seq<char> {
        match self {
            HookLang::HackerLang => "hl"@,
            HookLang::Python => "python3"@,
            HookLang::Ruby => "ruby"@,
            HookLang::Shell => "sh"@,
        }
    }

    /// The extension of its files.
    pub fn extension(&self) -> (r: &'static str)
        ensures
            r@ == self.ext(),
    {
        match self {
            HookLang::HackerLang => ".hl",
            HookLang::Python => ".py",
            HookLang::Ruby => ".rb",
            HookLang::Shell => ".sh",
        }
    }

    /// The program that runs it.
    pub fn interpreter(&self) -> (r: &'static str)
        ensures
            r@ == self.program(),
    {
        match self {
            HookLang::HackerLang => "hl",
            HookLang::Python => "python3",
            HookLang::Ruby => "ruby",
            HookLang::Shell => "sh",
        }
    }
}

/// The file of a hook.
pub open spec fn hook_file(kind: HookKind, lang: HookLang) -> Seq<char> {
    kind.base() + lang.ext()
}

/// The language of the file that a hook is read from: the first in order of
/// precedence of which there is a file.
pub open spec fn hook_lang(present: Seq<Seq<char>>, kind: HookKind) -> Option<HookLang> {
    if present.contains(hook_file(kind, HookLang::HackerLang)) {
        Some(HookLang::HackerLang)
    } else if present.contains(hook_file(kind, HookLang::Python)) {
        Some(HookLang::Python)
    } else if present.contains(hook_file(kind, HookLang::Ruby)) {
        Some(HookLang::Ruby)
    } else if present.contains(hook_file(kind, HookLang::Shell)) {
        Some(HookLang::Shell)
    } else {
        None
    }
}

fn hook_file_name(kind: HookKind, lang: HookLang) -> (r: String)
    ensures
        r@ == hook_file(kind, lang),
{
    let mut s = kind.base_name().to_owned();
    s.append(lang.extension());
    s
}

/// The file of a hook and its language, given the names of the files in the
/// directory of hooks.
pub fn find_hook_file(present: &Vec<String>, kind: HookKind) -> (r: Option<(String, HookLang)>)
    ensures
        match r {
            Some((file, lang)) => hook_lang(strs(present@), kind) == Some(lang) && file@
                == hook_file(kind, lang),
            None => hook_lang(strs(present@), kind) is None,
        },
{
    let hl = hook_file_name(kind, HookLang::HackerLang);
    if has_string(present, hl.as_str()) {
        return Some((hl, HookLang::HackerLang));
    }
    let py = hook_file_name(kind, HookLang::Python);
    if has_string(present, py.as_str()) {
        return Some((py, HookLang::Python));
    }
    let rb = hook_file_name(kind, HookLang::Ruby);
    if has_string(present, rb.as_str()) {
        return Some((rb, HookLang::Ruby));
    }
    let sh = hook_file_name(kind, HookLang::Shell);
    if has_string(present, sh.as_str()) {
        return Some((sh, HookLang::Shell));
    }
    None
}

/// Whether there is a file for a hook.
pub fn hook_exists(present: &Vec<String>, kind: HookKind) -> (r: bool)
    ensures
        r == (hook_lang(strs(present@), kind) is Some),
{
    find_hook_file(present, kind).is_some()
}

// ---------------------------------------------------------------------------
// Interpreters
// ---------------------------------------------------------------------------

/// Whether the bytes of a file start with `#!`.
pub open spec fn has_shebang(content: Seq<u8>) -> bool {
    content.len() >= 2 && content[0] == 35 && content[1] == 33
}

/// The bytes before the first line feed from `i` on; `None` where there is none.
pub open spec fn until_newline(content: Seq<u8>, i: int) -> Option<int>
    decreases content.len() - i,
{
    if i >= content.len() {
        None
    } else if content[i] == 10 {
        Some(i)
    } else {
        until_newline(content, i + 1)
    }
}

/// The text of a script's first line behind `#!`, without the white space round
/// it; `None` where it has no such line.
pub open spec fn shebang(content: Seq<u8>) -> Option<Seq<char>> {
    if has_shebang(content) {
        match until_newline(content, 0) {
            Some(n) => Some(trimmed(lossy_text(content.subrange(2, n)))),
            None => None,
        }
    } else {
        None
    }
}

/// The text of a script's first line behind `#!`.
pub fn shebang_line(content: &Vec<u8>) -> (r: Option<String>)
    ensures
        match r {
            Some(s) => shebang(content@) == Some(s@),
            None => shebang(content@) is None,
        },
{
    if content.len() < 2 || content[0] != 35 || content[1] != 33 {
        return None;
    }
    let mut line: Vec<u8> = Vec::new();
    let mut i: usize = 2;
    assert(until_newline(content@, 0) == until_newline(content@, 2)) by {
        reveal_with_fuel(until_newline, 3);
    }
    assert(content@.subrange(2, 2) =~= line@);
    while i < content.len()
        invariant
            2 <= i <= content@.len(),
            has_shebang(content@),
            line@ == content@.subrange(2, i as int),
            until_newline(content@, 0) == until_newline(content@, i as int),
        decreases content@.len() - i,
    {
        if content[i] == 10 {
            let t = text_of_bytes(&line);
            return Some(trim_white(t.as_str()));
        }
        assert(content@.subrange(2, i + 1) =~= line@.push(content@[i as int]));
        line.push(content[i]);
        i = i + 1;
    }
    None
}

/// The first word of a text, or `sh` where it has none.
pub open spec fn first_word(s: Seq<char>) -> Seq<char> {
    if words(s).len() == 0 {
        "sh"@
    } else {
        words(s)[0]
    }
}

fn first_word_of(s: &str) -> (r: String)
    ensures
        r@ == first_word(s@),
{
    let w = split_words(s);
    if w.len() == 0 {
        "sh".to_owned()
    } else {
        assert(strs(w@)[0] == w@[0]@);
        w[0].clone()
    }
}

/// Whether a first line names its program by way of `env`.
pub open spec fn by_env(line: Seq<char>) -> bool {
    has_prefix(line, "/usr/bin/env "@)
}

/// The program that a first line names by way of `env`.
pub open spec fn env_program(line: Seq<char>) -> Seq<char> {
    first_word(strip_prefixes(line, "/usr/bin/env "@))
}

/// The program that a first line names by its path.
pub open spec fn path_program(line: Seq<char>) -> Seq<char> {
    first_word(split_by(line, CharClass::Is('/')).last())
}

/// The program that runs a hook, given those that are available: the one that
/// its first line names, or else the one of its language, or else `sh`. Where
/// the first line asks `env` for `hl` and there is none, `sh` runs it.
pub open spec fn chosen_program(
    line: Option<Seq<char>>,
    fallback: Seq<char>,
    available: Set<Seq<char>>,
) -> Seq<char> {
    let default = if available.contains(fallback) {
        fallback
    } else {
        "sh"@
    };
    match line {
        None => default,
        Some(l) => if by_env(l) && available.contains(env_program(l)) {
            env_program(l)
        } else if by_env(l) && env_program(l) == "hl"@ {
            "sh"@
        } else if available.contains(path_program(l)) {
            path_program(l)
        } else {
            default
        },
    }
}

/// The programs whose availability decides which one runs a hook.
pub open spec fn candidates(line: Option<Seq<char>>, fallback: Seq<char>) -> Set<Seq<char>> {
    match line {
        None => Set::empty().insert(fallback),
        Some(l) => Set::empty().insert(fallback).insert(env_program(l)).insert(path_program(l)),
    }
}

fn env_program_of(line: &str) -> (r: String)
    ensures
        r@ == env_program(line@),
{
    let rest = trim_start_text(line, "/usr/bin/env ");
    first_word_of(rest.as_str())
}

fn path_program_of(line: &str) -> (r: String)
    ensures
        r@ == path_program(line@),
{
    let pieces = split_class(line, CharClass::Is('/'));
    let n = pieces.len();
    assert(strs(pieces@).last() == pieces@[n - 1]@);
    first_word_of(pieces[n - 1].as_str())
}

/// The programs whose availability decides which one runs a hook.
pub fn interpreter_candidates(line: &Option<String>, fallback: &str) -> (r: NameSet)
    ensures
        r.wf(),
        r@ == candidates(
            match line {
                Some(l) => Some(l@),
                None => None,
            },
            fallback@,
        ),
{
    let mut set = NameSet::new();
    set.insert(fallback);
    match line {
        None => {},
        Some(l) => {
            let e = env_program_of(l.as_str());
            let p = path_program_of(l.as_str());
            set.insert(e.as_str());
            set.insert(p.as_str());
        },
    }
    set
}

/// The program that runs a hook, given those of the candidates that are
/// available.
pub fn select_interpreter(line: &Option<String>, fallback: &str, available: &NameSet) -> (r: String)
    ensures
        r@ == chosen_program(
            match line {
                Some(l) => Some(l@),
                None => None,
            },
            fallback@,
            available@,
        ),
{
    match line {
        None => {},
        Some(l) => {
            let env = starts_with(l.as_str(), "/usr/bin/env ");
            let e = env_program_of(l.as_str());
            if env && available.contains(e.as_str()) {
                return e;
            }
            if env && same(e.as_str(), "hl") {
                return "sh".to_owned();
            }
            let p = path_program_of(l.as_str());
            if available.contains(p.as_str()) {
                return p;
            }
        },
    }
    if available.contains(fallback) {
        fallback.to_owned()
    } else {
        "sh".to_owned()
    }
}

/// Which program runs a hook depends on the availability of the candidates alone.
pub proof fn only_candidates_decide(
    line: Option<Seq<char>>,
    fallback: Seq<char>,
    a: Set<Seq<char>>,
    b: Set<Seq<char>>,
)
    requires
        forall|p: Seq<char>|
            candidates(line, fallback).contains(p) ==> a.contains(p) == #[trigger] b.contains(p),
    ensures
        chosen_program(line, fallback, a) == chosen_program(line, fallback, b),
{
    assert(candidates(line, fallback).contains(fallback));
    if let Some(l) = line {
        assert(candidates(line, fallback).contains(env_program(l)));
        assert(candidates(line, fallback).contains(path_program(l)));
        assert(a.contains(path_program(l)) == b.contains(path_program(l)));
        assert(a.contains(env_program(l)) == b.contains(env_program(l)));
    }
    assert(a.contains(fallback) == b.contains(fallback));
}

// ---------------------------------------------------------------------------
// Running
// ---------------------------------------------------------------------------

/// What a hook is told.
pub struct HookContext<'a> {
    pub pkg_name: &'a str,
    pub pkg_version: &'a str,
    pub store_path: &'a str,
    pub old_version: Option<&'a str>,
}

/// The environment variables that a hook runs with.
pub fn hook_environment(kind: HookKind, ctx: &HookContext, interpreter: &str) -> (r: Vec<(String, String)>)
    ensures
        crate::collections::pair_texts(r@) == ({
            let base = seq![
                ("HPM_PKG_NAME"@, ctx.pkg_name@),
                ("HPM_PKG_VERSION"@, ctx.pkg_version@),
                ("HPM_STORE_PATH"@, ctx.store_path@),
                ("HPM_HOOK_TYPE"@, kind.base()),
                ("HPM_HOOK_LANG"@, interpreter@),
            ];
            match ctx.old_version {
                Some(v) => base.push(("HPM_OLD_VERSION"@, v@)),
                None => base,
            }
        }),
{
    let mut v: Vec<(String, String)> = Vec::new();
    v.push(("HPM_PKG_NAME".to_owned(), ctx.pkg_name.to_owned()));
    v.push(("HPM_PKG_VERSION".to_owned(), ctx.pkg_version.to_owned()));
    v.push(("HPM_STORE_PATH".to_owned(), ctx.store_path.to_owned()));
    v.push(("HPM_HOOK_TYPE".to_owned(), kind.display().to_owned()));
    v.push(("HPM_HOOK_LANG".to_owned(), interpreter.to_owned()));
    let ghost base = seq![
        ("HPM_PKG_NAME"@, ctx.pkg_name@),
        ("HPM_PKG_VERSION"@, ctx.pkg_version@),
        ("HPM_STORE_PATH"@, ctx.store_path@),
        ("HPM_HOOK_TYPE"@, kind.base()),
        ("HPM_HOOK_LANG"@, interpreter@),
    ];
    assert(crate::collections::pair_texts(v@) =~= base);
    match ctx.old_version {
        Some(old_ver) => {
            v.push(("HPM_OLD_VERSION".to_owned(), old_ver.to_owned()));
            assert(crate::collections::pair_texts(v@) =~= base.push(
                ("HPM_OLD_VERSION"@, old_ver@),
            ));
        },
        None => {},
    }
    v
}

/// What becomes of an operation once a hook has ended.
#[derive(Debug)]
pub enum HookOutcome {
    /// The hook succeeded.
    Completed,
    /// It failed, and the operation goes on.
    Ignored,
    /// It failed, and the operation is given up.
    Blocked(String),
}

/// The message with which an operation is given up.
pub open spec fn blocked_message(kind: HookKind, lang: HookLang, code: nat) -> Seq<char> {
    "Hook '"@ + kind.base() + "' failed with exit code "@ + decimal(code)
        + ".\nPre-install/pre-remove hooks block the operation on failure.\nFix the hook script or remove hooks/"@
        + kind.base() + lang.ext() + " to skip it."@
}

/// What becomes of an operation once a hook has ended with an exit code; one
/// that ended without a code counts as having ended with 1.
pub fn hook_outcome(kind: HookKind, lang: HookLang, code: Option<u8>) -> (r: HookOutcome)
    ensures
        ({
            let c = match code {
                Some(c) => c as nat,
                None => 1nat,
            };
            match r {
                HookOutcome::Completed => c == 0,
                HookOutcome::Ignored => c != 0 && !(kind is PreInstall || kind is PreRemove),
                HookOutcome::Blocked(m) => c != 0 && (kind is PreInstall || kind is PreRemove)
                    && m@ == blocked_message(kind, lang, c),
            }
        }),
{
    let c: u8 = match code {
        Some(c) => c,
        None => 1,
    };
    if c == 0 {
        return HookOutcome::Completed;
    }
    if !kind.blocks_on_failure() {
        return HookOutcome::Ignored;
    }
    let mut m = "Hook '".to_owned();
    m.append(kind.display());
    m.append("' failed with exit code ");
    m.append(to_decimal(c as u64).as_str());
    m.append(
        ".\nPre-install/pre-remove hooks block the operation on failure.\nFix the hook script or remove hooks/",
    );
    m.append(kind.base_name());
    m.append(lang.extension());
    m.append(" to skip it.");
    HookOutcome::Blocked(m)
}

// ---------------------------------------------------------------------------
// Validation
// ---------------------------------------------------------------------------

/// A file in the directory of hooks.
pub struct HookFile {
    pub name: String,
    /// Its bytes, if it could be read.
    pub content: Option<Vec<u8>>,
    /// Whether it may be run, if that is known.
    pub executable: Option<bool>,
}

/// The language of a file, if its name is that of a hook.
pub open spec fn lang_of_file(name: Seq<char>) -> Option<HookLang> {
    if exists|k: HookKind| name == #[trigger] hook_file(k, HookLang::HackerLang) {
        Some(HookLang::HackerLang)
    } else if exists|k: HookKind| name == #[trigger] hook_file(k, HookLang::Python) {
        Some(HookLang::Python)
    } else if exists|k: HookKind| name == #[trigger] hook_file(k, HookLang::Ruby) {
        Some(HookLang::Ruby)
    } else if exists|k: HookKind| name == #[trigger] hook_file(k, HookLang::Shell) {
        Some(HookLang::Shell)
    } else {
        None
    }
}

/// The first line to recommend for a language.
pub open spec fn recommended(lang: HookLang) -> Seq<char> {
    match lang {
        HookLang::HackerLang => "#!/usr/bin/env hl"@,
        HookLang::Python => "#!/usr/bin/env python3"@,
        HookLang::Ruby => "#!/usr/bin/env ruby"@,
        HookLang::Shell => "#!/bin/sh"@,
    }
}

/// Zero or one text.
pub open spec fn provided(condition: bool, text: Seq<char>) -> Seq<Seq<char>> {
    if condition {
        seq![text]
    } else {
        Seq::empty()
    }
}

/// The warnings about a file in the directory of hooks.
pub open spec fn file_warnings(f: HookFile) -> Seq<Seq<char>> {
    let name = f.name@;
    match lang_of_file(name) {
        None => seq![
            "Unknown hook file: hooks/"@ + name
                + " — expected <name>.<ext> where name ∈ [\"pre-install\", \"post-install\", \"pre-remove\", \"post-remove\", \"post-update\"] and ext ∈ [\".hl\", \".py\", \".rb\", \".sh\"]"@,
        ],
        Some(lang) => {
            let unreadable = f.content is None;
            let bytes = f.content->0@;
            provided(
                !unreadable && !has_shebang(bytes),
                "hooks/"@ + name + " has no shebang line — add: "@ + recommended(lang),
            ) + provided(
                !unreadable && lang is HackerLang && !occurs(
                    lossy_text(bytes),
                    "using <gen 2>"@,
                ) && !occurs(lossy_text(bytes), "using <gen 1>"@),
                "hooks/"@ + name
                    + " missing 'using <gen 2>' declaration — Hacker Lang gen 2 is recommended"@,
            ) + provided(
                f.executable == Some(false),
                "hooks/"@ + name
                    + " is not executable — fix: git update-index --chmod=+x hooks/"@ + name,
            )
        },
    }
}

/// The warnings about the files in the directory of hooks.
pub open spec fn all_warnings(files: Seq<HookFile>) -> Seq<Seq<char>>
    decreases files.len(),
{
    if files.len() == 0 {
        Seq::empty()
    } else {
        all_warnings(files.drop_last()) + file_warnings(files.last())
    }
}

fn is_hook_of(name: &str, lang: HookLang) -> (r: bool)
    ensures
        r == (exists|k: HookKind| name@ == #[trigger] hook_file(k, lang)),
{
    let a = hook_file_name(HookKind::PreInstall, lang);
    let b = hook_file_name(HookKind::PostInstall, lang);
    let c = hook_file_name(HookKind::PreRemove, lang);
    let d = hook_file_name(HookKind::PostRemove, lang);
    let e = hook_file_name(HookKind::PostUpdate, lang);
    let r = same(name, a.as_str()) || same(name, b.as_str()) || same(name, c.as_str()) || same(
        name,
        d.as_str(),
    ) || same(name, e.as_str());
    proof {
        if exists|k: HookKind| name@ == #[trigger] hook_file(k, lang) {
            let k = choose|k: HookKind| name@ == #[trigger] hook_file(k, lang);
            match k {
                HookKind::PreInstall => {},
                HookKind::PostInstall => {},
                HookKind::PreRemove => {},
                HookKind::PostRemove => {},
                HookKind::PostUpdate => {},
            }
        }
    }
    r
}

fn file_lang(name: &str) -> (r: Option<HookLang>)
    ensures
        r == lang_of_file(name@),
{
    if is_hook_of(name, HookLang::HackerLang) {
        Some(HookLang::HackerLang)
    } else if is_hook_of(name, HookLang::Python) {
        Some(HookLang::Python)
    } else if is_hook_of(name, HookLang::Ruby) {
        Some(HookLang::Ruby)
    } else if is_hook_of(name, HookLang::Shell) {
        Some(HookLang::Shell)
    } else {
        None
    }
}

fn warn_about(out: &mut Vec<String>, f: &HookFile)
    ensures
        strs(final(out)@) == strs(old(out)@) + file_warnings(*f),
{
    let ghost before = strs(out@);
    let name = f.name.as_str();
    match file_lang(name) {
        None => {
            let mut s = "Unknown hook file: hooks/".to_owned();
            s.append(name);
            s.append(
                " — expected <name>.<ext> where name ∈ [\"pre-install\", \"post-install\", \"pre-remove\", \"post-remove\", \"post-update\"] and ext ∈ [\".hl\", \".py\", \".rb\", \".sh\"]",
            );
            push_text(out, s);
        },
        Some(lang) => {
            let ghost mut told: Seq<Seq<char>> = Seq::empty();
            assert(before + told =~= before);
            match &f.content {
                None => {},
                Some(bytes) => {
                    if !(bytes.len() >= 2 && bytes[0] == 35 && bytes[1] == 33) {
                        let mut s = "hooks/".to_owned();
                        s.append(name);
                        s.append(" has no shebang line — add: ");
                        s.append(
                            match lang {
                                HookLang::HackerLang => "#!/usr/bin/env hl",
                                HookLang::Python => "#!/usr/bin/env python3",
                                HookLang::Ruby => "#!/usr/bin/env ruby",
                                HookLang::Shell => "#!/bin/sh",
                            },
                        );
                        proof {
                            assert(before + (told + seq![s@]) =~= (before + told) + seq![s@]);
                            told = told + seq![s@];
                        }
                        push_text(out, s);
                    }
                    if lang == HookLang::HackerLang {
                        let text = text_of_bytes(bytes);
                        if !contains(text.as_str(), "using <gen 2>") && !contains(
                            text.as_str(),
                            "using <gen 1>",
                        ) {
                            let mut s = "hooks/".to_owned();
                            s.append(name);
                            s.append(
                                " missing 'using <gen 2>' declaration — Hacker Lang gen 2 is recommended",
                            );
                            proof {
                                assert(before + (told + seq![s@]) =~= (before + told) + seq![s@]);
                                told = told + seq![s@];
                            }
                            push_text(out, s);
                        }
                    }
                },
            }
            match f.executable {
                Some(x) => {
                    if !x {
                        let mut s = "hooks/".to_owned();
                        s.append(name);
                        s.append(" is not executable — fix: git update-index --chmod=+x hooks/");
                        s.append(name);
                        proof {
                            assert(before + (told + seq![s@]) =~= (before + told) + seq![s@]);
                            told = told + seq![s@];
                        }
                        push_text(out, s);
                    }
                },
                None => {},
            }
            assert(told =~= file_warnings(*f));
        },
    }
}

/// The warnings about the files in the directory of hooks.
pub fn validate_hooks(files: &Vec<HookFile>) -> (r: Vec<String>)
    ensures
        strs(r@) == all_warnings(files@),
{
    let mut out: Vec<String> = Vec::new();
    let mut i: usize = 0;
    assert(files@.take(0) =~= Seq::<HookFile>::empty());
    assert(strs(out@) =~= Seq::<Seq<char>>::empty());
    while i < files.len()
        invariant
            i <= files@.len(),
            strs(out@) == all_warnings(files@.take(i as int)),
        decreases files@.len() - i,
    {
        proof {
            let longer = files@.take(i + 1);
            assert(longer.drop_last() =~= files@.take(i as int));
            assert(longer.last() == files@[i as int]);
        }
        warn_about(&mut out, &files[i]);
        i = i + 1;
    }
    assert(files@.take(files@.len() as int) =~= files@);
    out
}

// ---------------------------------------------------------------------------
// Laws
// ---------------------------------------------------------------------------

/// A hook is there exactly where a file of its name in one of the four languages is; and
/// where there are several, it is read from the one of Hacker Lang, then of Python, then
/// of Ruby, and last of the shell.
pub proof fn which_hook_is_run(present: Seq<Seq<char>>, kind: HookKind)
    ensures
        hook_lang(present, kind) == Some(HookLang::HackerLang) <==> present.contains(kind.base() + ".hl"@),
        hook_lang(present, kind) == Some(HookLang::Python) <==> present.contains(kind.base() + ".py"@)
            && !present.contains(kind.base() + ".hl"@),
        hook_lang(present, kind) == Some(HookLang::Ruby) <==> present.contains(kind.base() + ".rb"@)
            && !present.contains(kind.base() + ".hl"@) && !present.contains(kind.base() + ".py"@),
        hook_lang(present, kind) == Some(HookLang::Shell) <==> present.contains(kind.base() + ".sh"@)
            && !present.contains(kind.base() + ".hl"@) && !present.contains(kind.base() + ".py"@)
            && !present.contains(kind.base() + ".rb"@),
        hook_lang(present, kind) is None <==> !present.contains(kind.base() + ".hl"@) && !present.contains(
            kind.base() + ".py"@,
        ) && !present.contains(kind.base() + ".rb"@) && !present.contains(kind.base() + ".sh"@),
{
}

/// The hooks are named after the points at which they run, and no two alike.
pub proof fn hooks_have_names_of_their_own(a: HookKind, b: HookKind)
    ensures
        a.base() == b.base() <==> a == b,
        HookKind::PreInstall.base() == "pre-install"@,
        HookKind::PostInstall.base() == "post-install"@,
        HookKind::PreRemove.base() == "pre-remove"@,
        HookKind::PostRemove.base() == "post-remove"@,
        HookKind::PostUpdate.base() == "post-update"@,
{
    reveal_strlit("pre-install");
    reveal_strlit("post-install");
    reveal_strlit("pre-remove");
    reveal_strlit("post-remove");
    reveal_strlit("post-update");
    assert("pre-install"@[4] == 'i' && "pre-remove"@[4] == 'r' && "post-install"@[4] == '-');
    assert("post-install"@[5] == 'i' && "post-remove"@[5] == 'r' && "post-update"@[5] == 'u');
    assert("pre-install"@[1] == 'r' && "pre-remove"@[1] == 'r' && "post-install"@[1] == 'o' && "post-remove"@[1]
        == 'o' && "post-update"@[1] == 'o');
}

/// The first line ends at the first line feed.
pub proof fn first_line_ends_at_the_feed(content: Seq<u8>, n: int)
    requires
        2 <= n < content.len(),
        content[0] == 35,
        content[1] == 33,
        content[n] == 10,
        forall|j: int| 0 <= j < n ==> #[trigger] content[j] != 10,
    ensures
        shebang(content) == Some(trimmed(lossy_text(content.subrange(2, n)))),
{
    newline_is(content, 0, n);
}

proof fn newline_is(content: Seq<u8>, i: int, n: int)
    requires
        0 <= i <= n < content.len(),
        content[n] == 10,
        forall|j: int| 0 <= j < n ==> #[trigger] content[j] != 10,
    ensures
        until_newline(content, i) == Some(n),
    decreases n - i,
{
    if i < n {
        assert(content[i] != 10);
        newline_is(content, i + 1, n);
    }
}

/// A script has no first line behind `#!` where it does not start so, or holds no line
/// feed.
pub proof fn no_first_line(content: Seq<u8>)
    requires
        content.len() < 2 || content[0] != 35 || content[1] != 33 || !content.contains(10),
    ensures
        shebang(content) is None,
{
    if !content.contains(10) {
        no_newline(content, 0);
    }
}

proof fn no_newline(content: Seq<u8>, i: int)
    requires
        0 <= i <= content.len(),
        !content.contains(10),
    ensures
        until_newline(content, i) is None,
    decreases content.len() - i,
{
    if i < content.len() {
        assert(content.contains(content[i]));
        no_newline(content, i + 1);
    }
}

/// A first line that asks `env` for a program names that program, and one that gives the
/// path of a program names what stands behind the last slash; in each case without what
/// follows it.
pub proof fn first_line_names_its_program(dir: Seq<char>, program: Seq<char>, args: Seq<char>)
    requires
        program.len() > 0,
        forall|i: int| 0 <= i < program.len() ==> !is_white(#[trigger] program[i]) && program[i] != '/',
        !args.contains('/'),
    ensures
        env_program("/usr/bin/env "@ + program) == program,
        env_program("/usr/bin/env "@ + (program.push(' ') + args)) == program,
        by_env("/usr/bin/env "@ + (program.push(' ') + args)),
        path_program(dir + "/"@ + program) == program,
        path_program(dir + "/"@ + (program.push(' ') + args)) == program,
{
    let env = "/usr/bin/env "@;
    reveal_strlit("/usr/bin/env ");
    reveal_strlit("/");
    what_is_white(' ');
    let long = program.push(' ') + args;
    stripping_goes_on(program, env);
    stripping_goes_on(long, env);
    assert(program[0] != '/' && long[0] == program[0]);
    if has_prefix(program, env) {
        assert(program.take(env.len() as int)[0] == '/');
    }
    if has_prefix(long, env) {
        assert(long.take(env.len() as int)[0] == '/');
    }
    words_are_between_white(program, ' ', args);
    assert((env + long).take(env.len() as int) =~= env);
    let k = CharClass::Is('/');
    assert forall|i: int| 0 <= i < long.len() implies !k.has(#[trigger] long[i]) by {
        if i < program.len() {
            assert(long[i] == program[i]);
        } else if i > program.len() {
            assert(args.contains(args[i - program.len() - 1]));
        }
    }
    split_extends(dir, '/', program, k);
    split_extends(dir, '/', long, k);
    assert(dir + "/"@ + program =~= dir.push('/') + program);
    assert(dir + "/"@ + long =~= dir.push('/') + long);
    assert((seq![program] + words(args))[0] == program);
}

/// The program that a first line names runs the hook where it is there; without such a
/// line the one of the language does, and where that is not there, the shell.
pub proof fn named_program_runs_the_hook(
    line: Seq<char>,
    fallback: Seq<char>,
    available: Set<Seq<char>>,
)
    ensures
        has_prefix(line, "/usr/bin/env "@) && available.contains(env_program(line)) ==> chosen_program(
            Some(line),
            fallback,
            available,
        ) == env_program(line),
        has_prefix(line, "/usr/bin/env "@) && env_program(line) == "hl"@ && !available.contains("hl"@)
            ==> chosen_program(Some(line), fallback, available) == "sh"@,
        !has_prefix(line, "/usr/bin/env "@) && available.contains(path_program(line)) ==> chosen_program(
            Some(line),
            fallback,
            available,
        ) == path_program(line),
        !has_prefix(line, "/usr/bin/env "@) && !available.contains(path_program(line)) ==> chosen_program(
            Some(line),
            fallback,
            available,
        ) == chosen_program(None, fallback, available),
        available.contains(fallback) ==> chosen_program(None, fallback, available) == fallback,
        !available.contains(fallback) ==> chosen_program(None, fallback, available) == "sh"@,
{
}

/// A file is not warned of exactly where its name is that of a hook, it starts with `#!`,
/// it may be run and, in Hacker Lang, it names its generation.
pub proof fn which_files_are_in_order(f: HookFile)
    ensures
        file_warnings(f).len() == 0 <==> {
            &&& exists|k: HookKind, l: HookLang| f.name@ == #[trigger] hook_file(k, l)
            &&& f.executable != Some(false)
            &&& f.content matches Some(c) ==> {
                &&& has_shebang(c@)
                &&& (exists|k: HookKind| f.name@ == #[trigger] hook_file(k, HookLang::HackerLang)) ==> occurs(
                    lossy_text(c@),
                    "using <gen 2>"@,
                ) || occurs(lossy_text(c@), "using <gen 1>"@)
            }
        },
{
    if exists|k: HookKind, l: HookLang| f.name@ == #[trigger] hook_file(k, l) {
        let (k, l) = choose|k: HookKind, l: HookLang| f.name@ == #[trigger] hook_file(k, l);
        assert(f.name@ == hook_file(k, l));
        assert(lang_of_file(f.name@) is Some);
    }
    if let Some(l) = lang_of_file(f.name@) {
        let k = choose|k: HookKind| f.name@ == #[trigger] hook_file(k, l);
        assert(f.name@ == hook_file(k, l));
    }
}

/// The files are warned of one after the other.
pub proof fn each_file_is_warned_of(files: Seq<HookFile>, f: HookFile)
    ensures
        all_warnings(files.push(f)) == all_warnings(files) + file_warnings(f),
        all_warnings(Seq::empty()) == Seq::<Seq<char>>::empty(),
{
    assert(files.push(f).drop_last() =~= files);
}

} // verus!
