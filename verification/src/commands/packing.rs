//! Packing a package into an archive.
use vstd::prelude::*;

use crate::config::{map_get, map_pairs, pair_value};
use crate::hooks::provided;
use crate::manifest::{is_known_arch, known_arch, Manifest};
use crate::number::{decimal, number_of, parse_number, to_decimal};
use crate::pattern::{contains, cut_at_text, cut_text, cut_text_at_the_first, has_prefix, occurs, starts_with, where_a_text_stands};
use crate::repo::{tag_version, version_of_tag};
use crate::text::{cat, cat3, is_empty_text, lines, push_text, same, split_by, split_class, split_lines, split_words, strs, to_chars, trim_white, trimmed, words, CharClass};

verus! {

// ---------------------------------------------------------------------------
// Arguments
// ---------------------------------------------------------------------------

/// The arguments of the command.
#[derive(Debug)]
pub struct BuildArgs {
    /// The name of the archive; empty where none is given.
    pub name: String,
    pub output: Option<String>,
    /// The key to sign with.
    pub sign_key: Option<String>,
    /// What is not understood.
    pub unknown: Vec<String>,
}

/// The arguments of the command, as a mathematical value.
#[verifier::ext_equal]
pub struct BuildModel {
    pub name: Seq<char>,
    pub output: Option<Seq<char>>,
    pub sign_key: Option<Seq<char>>,
    pub unknown: Seq<Seq<char>>,
}

/// A text that may be there.
pub open spec fn maybe_text(s: Option<String>) -> Option<Seq<char>> {
    match s {
        Some(x) => Some(x@),
        None => None,
    }
}

impl View for BuildArgs {
    type V = BuildModel;

    open spec fn view(&self) -> BuildModel {
        BuildModel {
            name: self.name@,
            output: maybe_text(self.output),
            sign_key: maybe_text(self.sign_key),
            unknown: strs(self.unknown@),
        }
    }
}

/// Why arguments cannot be read.
#[derive(Clone, Copy, PartialEq, Eq, Structural, Debug)]
pub enum BuildArgsProblem {
    OutputWithoutPath,
    SignWithoutKey,
}

/// Reads arguments from the `i`-th on.
pub open spec fn read_build_args(args: Seq<Seq<char>>, i: int, m: BuildModel) -> Result<BuildModel, BuildArgsProblem>
    decreases args.len() - i,
{
    if i < 0 || i >= args.len() {
        Ok(m)
    } else {
        let a = args[i];
        if a == "--output"@ || a == "-o"@ {
            if i + 1 < args.len() {
                read_build_args(args, i + 2, BuildModel { output: Some(args[i + 1]), ..m })
            } else {
                Err(BuildArgsProblem::OutputWithoutPath)
            }
        } else if a == "--sign"@ {
            if i + 1 < args.len() {
                read_build_args(args, i + 2, BuildModel { sign_key: Some(args[i + 1]), ..m })
            } else {
                Err(BuildArgsProblem::SignWithoutKey)
            }
        } else if m.name.len() == 0 && !has_prefix(a, "-"@) {
            read_build_args(args, i + 1, BuildModel { name: a, ..m })
        } else {
            read_build_args(args, i + 1, BuildModel { unknown: m.unknown + seq![a], ..m })
        }
    }
}

/// No arguments.
pub open spec fn no_build_args() -> BuildModel {
    BuildModel { name: Seq::empty(), output: None, sign_key: None, unknown: Seq::empty() }
}

/// Reads the arguments of the command.
pub fn parse_build_args(args: &Vec<String>) -> (r: Result<BuildArgs, BuildArgsProblem>)
    ensures
        match r {
            Ok(b) => read_build_args(strs(args@), 0, no_build_args()) == Ok::<BuildModel, BuildArgsProblem>(b@),
            Err(e) => read_build_args(strs(args@), 0, no_build_args()) == Err::<BuildModel, BuildArgsProblem>(e),
        },
{
    let mut b = BuildArgs { name: String::new(), output: None, sign_key: None, unknown: Vec::new() };
    let ghost all = strs(args@);
    let mut i: usize = 0;
    assert(b@ =~= no_build_args());
    while i < args.len()
        invariant
            i <= args@.len(),
            all == strs(args@),
            read_build_args(all, 0, no_build_args()) == read_build_args(all, i as int, b@),
        decreases args@.len() - i,
    {
        let a = args[i].as_str();
        assert(all[i as int] == a@);
        let ghost before = b@;
        if same(a, "--output") || same(a, "-o") {
            if args.len() - i < 2 {
                return Err(BuildArgsProblem::OutputWithoutPath);
            }
            assert(all[i + 1] == args@[i + 1]@);
            b.output = Some(args[i + 1].clone());
            assert(b@ =~= BuildModel { output: Some(all[i + 1]), ..before });
            i = i + 2;
        } else if same(a, "--sign") {
            if args.len() - i < 2 {
                return Err(BuildArgsProblem::SignWithoutKey);
            }
            assert(all[i + 1] == args@[i + 1]@);
            b.sign_key = Some(args[i + 1].clone());
            assert(b@ =~= BuildModel { sign_key: Some(all[i + 1]), ..before });
            i = i + 2;
        } else if is_empty_text(b.name.as_str()) && !starts_with(a, "-") {
            b.name = args[i].clone();
            assert(b@ =~= BuildModel { name: a@, ..before });
            i = i + 1;
        } else {
            push_text(&mut b.unknown, args[i].clone());
            assert(b@ =~= BuildModel { unknown: before.unknown + seq![a@], ..before });
            i = i + 1;
        }
    }
    Ok(b)
}

/// The text for arguments that cannot be read.
pub fn build_args_message(p: BuildArgsProblem) -> (r: &'static str)
    ensures
        r@ == (match p {
            BuildArgsProblem::OutputWithoutPath => "--output requires a path argument"@,
            BuildArgsProblem::SignWithoutKey => "--sign requires a GPG key id / fingerprint argument"@,
        }),
{
    match p {
        BuildArgsProblem::OutputWithoutPath => "--output requires a path argument",
        BuildArgsProblem::SignWithoutKey => "--sign requires a GPG key id / fingerprint argument",
    }
}

/// The archive to write: the one that is asked for, or one that is named after
/// the package or after the name that is given.
pub fn archive_name(args: &BuildArgs, manifest: &Manifest) -> (r: String)
    ensures
        r@ == (match args.output {
            Some(o) => o@,
            None => if args.name@.len() == 0 {
                manifest.name@ + "-"@ + manifest.version@ + ".hpm"@
            } else {
                args.name@ + ".hpm"@
            },
        }),
{
    match &args.output {
        Some(o) => o.clone(),
        None => {
            if is_empty_text(args.name.as_str()) {
                let mut s = cat3(manifest.name.as_str(), "-", manifest.version.as_str());
                s.append(".hpm");
                s
            } else {
                cat(args.name.as_str(), ".hpm")
            }
        },
    }
}

// ---------------------------------------------------------------------------
// The manifest
// ---------------------------------------------------------------------------

/// Whether a character may stand in a name: a letter or a digit of ASCII, a
/// hyphen or an underscore.
pub open spec fn is_name_char(c: char) -> bool {
    ('a' <= c && c <= 'z') || ('A' <= c && c <= 'Z') || ('0' <= c && c <= '9') || c == '-' || c == '_'
}

/// Whether every character of a text may stand in a name.
pub open spec fn only_name_chars(s: Seq<char>) -> bool {
    forall|i: int| 0 <= i < s.len() ==> is_name_char(#[trigger] s[i])
}

/// Whether every character of a text may stand in a name.
pub fn has_only_name_chars(s: &str) -> (r: bool)
    ensures
        r == only_name_chars(s@),
{
    let v = to_chars(s);
    let mut i: usize = 0;
    while i < v.len()
        invariant
            i <= v@.len(),
            v@ == s@,
            forall|j: int| 0 <= j < i ==> is_name_char(#[trigger] v@[j]),
        decreases v@.len() - i,
    {
        let c = v[i];
        if !(('a' <= c && c <= 'z') || ('A' <= c && c <= 'Z') || ('0' <= c && c <= '9') || c == '-' || c == '_') {
            assert(!is_name_char(s@[i as int]));
            return false;
        }
        i = i + 1;
    }
    true
}

/// Whether a part of a version is a number, or has a hyphen.
pub open spec fn plain_part(p: Seq<char>) -> bool {
    number_of(p, u32::MAX as nat) is Some || occurs(p, "-"@)
}

/// Whether every part of a version is a number, or has a hyphen.
pub open spec fn plain_parts(parts: Seq<Seq<char>>) -> bool {
    forall|i: int| 0 <= i < parts.len() ==> plain_part(#[trigger] parts[i])
}

fn has_plain_parts(parts: &Vec<String>) -> (r: bool)
    ensures
        r == plain_parts(strs(parts@)),
{
    let ghost all = strs(parts@);
    let mut i: usize = 0;
    while i < parts.len()
        invariant
            i <= parts@.len(),
            all == strs(parts@),
            forall|j: int| 0 <= j < i ==> plain_part(#[trigger] all[j]),
        decreases parts@.len() - i,
    {
        assert(all[i as int] == parts@[i as int]@);
        let number = parse_number(parts[i].as_str(), u32::MAX as u64).is_some();
        if !number && !contains(parts[i].as_str(), "-") {
            assert(!plain_part(all[i as int]));
            return false;
        }
        i = i + 1;
    }
    true
}

/// What is wrong with a manifest.
pub open spec fn manifest_errors(m: Manifest) -> Seq<Seq<char>> {
    provided(m.name@.len() == 0, "name is empty"@) + provided(m.version@.len() == 0, "version is empty"@) + provided(
        m.name@.len() > 0 && !only_name_chars(m.name@),
        "name contains invalid characters (only a-z, 0-9, -, _ allowed)"@,
    ) + provided(
        m.name@.len() > 0 && (has_prefix(m.name@, "-"@) || has_prefix(m.name@, "_"@)),
        "name must start with a letter or digit"@,
    )
}

/// What is said of the version of a manifest.
pub open spec fn version_warning(version: Seq<char>) -> Seq<Seq<char>> {
    let parts = split_by(version, CharClass::Is('.'));
    if version.len() == 0 {
        Seq::empty()
    } else if parts.len() < 2 {
        seq!["version should follow semver (e.g. 1.0.0)"@]
    } else {
        provided(!plain_parts(parts), "version parts should be numeric"@)
    }
}

/// What could be better in a manifest.
pub open spec fn manifest_warnings(m: Manifest) -> Seq<Seq<char>> {
    provided(m.authors@.len() == 0, "authors is empty"@) + provided(m.license@.len() == 0, "license is empty"@)
        + provided(m.summary@.len() == 0, "summary is empty (shown in hpm search)"@) + version_warning(
        m.version@,
    ) + provided(
        m.is_gui && m.desktop.display_name@.len() == 0,
        "GUI package has no [desktop] display_name"@,
    ) + provided(
        m.bins@.len() > 0 && m.summary@.len() == 0,
        "package has bins but no summary — users won't see description in hpm search"@,
    ) + provided(
        pair_value(map_pairs(m.system_specs), "arch"@) matches Some(a) && !known_arch(a),
        "unknown arch value in [specs] — supported: x86_64, aarch64, armhf, i386, any"@,
    )
}

fn push_when(out: &mut Vec<String>, condition: bool, text: &str)
    ensures
        strs(final(out)@) == strs(old(out)@) + provided(condition, text@),
{
    if condition {
        push_text(out, text.to_owned());
    } else {
        assert(strs(out@) + Seq::<Seq<char>>::empty() =~= strs(out@));
    }
}

/// What is wrong with a manifest, and what could be better in it.
#[derive(Debug)]
pub struct Validation {
    pub errors: Vec<String>,
    pub warnings: Vec<String>,
}

fn check_version_text(out: &mut Vec<String>, version: &str)
    ensures
        strs(final(out)@) == strs(old(out)@) + version_warning(version@),
{
    let parts = split_class(version, CharClass::Is('.'));
    assert(strs(parts@).len() == parts@.len());
    assert(strs(out@) + Seq::<Seq<char>>::empty() =~= strs(out@));
    if is_empty_text(version) {
        return;
    }
    if parts.len() < 2 {
        push_text(out, "version should follow semver (e.g. 1.0.0)".to_owned());
    } else {
        let plain = has_plain_parts(&parts);
        push_when(out, !plain, "version parts should be numeric");
    }
}

/// Looks for what is wrong with a manifest, and what could be better in it.
pub fn validate_manifest(m: &Manifest) -> (r: Validation)
    ensures
        strs(r.errors@) == manifest_errors(*m),
        strs(r.warnings@) == manifest_warnings(*m),
{
    let mut errors: Vec<String> = Vec::new();
    let mut warnings: Vec<String> = Vec::new();
    assert(strs(errors@) =~= Seq::<Seq<char>>::empty());
    assert(strs(warnings@) =~= Seq::<Seq<char>>::empty());
    let no_name = is_empty_text(m.name.as_str());
    let no_summary = is_empty_text(m.summary.as_str());
    push_when(&mut errors, no_name, "name is empty");
    assert(strs(errors@) =~= provided(m.name@.len() == 0, "name is empty"@));
    push_when(&mut errors, is_empty_text(m.version.as_str()), "version is empty");
    push_when(
        &mut errors,
        !no_name && !has_only_name_chars(m.name.as_str()),
        "name contains invalid characters (only a-z, 0-9, -, _ allowed)",
    );
    push_when(
        &mut errors,
        !no_name && (starts_with(m.name.as_str(), "-") || starts_with(m.name.as_str(), "_")),
        "name must start with a letter or digit",
    );
    push_when(&mut warnings, is_empty_text(m.authors.as_str()), "authors is empty");
    assert(strs(warnings@) =~= provided(m.authors@.len() == 0, "authors is empty"@));
    push_when(&mut warnings, is_empty_text(m.license.as_str()), "license is empty");
    push_when(&mut warnings, no_summary, "summary is empty (shown in hpm search)");
    check_version_text(&mut warnings, m.version.as_str());
    push_when(
        &mut warnings,
        m.is_gui && is_empty_text(m.desktop.display_name.as_str()),
        "GUI package has no [desktop] display_name",
    );
    push_when(
        &mut warnings,
        m.bins.len() > 0 && no_summary,
        "package has bins but no summary — users won't see description in hpm search",
    );
    let odd = match map_get(&m.system_specs, "arch") {
        Some(a) => !is_known_arch(a.as_str()),
        None => false,
    };
    push_when(
        &mut warnings,
        odd,
        "unknown arch value in [specs] — supported: x86_64, aarch64, armhf, i386, any",
    );
    Validation { errors, warnings }
}

/// The text for a manifest with errors.
pub fn validation_failure(errors: usize) -> (r: String)
    ensures
        r@ == "info.hk validation failed with "@ + decimal(errors as nat) + " error(s)"@,
{
    let n = to_decimal(errors as u64);
    cat3("info.hk validation failed with ", n.as_str(), " error(s)")
}

/// Whether every tag is made of characters that may stand in names.
pub open spec fn tags_are_plain(tags: Seq<Seq<char>>) -> bool {
    forall|i: int| 0 <= i < tags.len() ==> only_name_chars(#[trigger] tags[i])
}

/// Whether every tag is made of characters that may stand in names.
pub fn check_tags(tags: &Vec<String>) -> (r: bool)
    ensures
        r == tags_are_plain(strs(tags@)),
{
    let ghost all = strs(tags@);
    let mut i: usize = 0;
    while i < tags.len()
        invariant
            i <= tags@.len(),
            all == strs(tags@),
            forall|j: int| 0 <= j < i ==> only_name_chars(#[trigger] all[j]),
        decreases tags@.len() - i,
    {
        assert(all[i as int] == tags@[i as int]@);
        if !has_only_name_chars(tags[i].as_str()) {
            return false;
        }
        i = i + 1;
    }
    true
}

/// How the version of a manifest compares with the latest tag.
#[derive(Clone, Copy, PartialEq, Eq, Structural, Debug)]
pub enum TagCheck {
    Matches,
    Differs,
    NoTags,
}

/// Compares the version of a manifest with the latest tag.
pub fn check_git_tag(tag: &Option<String>, version: &str) -> (r: TagCheck)
    ensures
        r == (match tag {
            Some(t) => if tag_version(t@) == version@ {
                TagCheck::Matches
            } else {
                TagCheck::Differs
            },
            None => TagCheck::NoTags,
        }),
{
    match tag {
        Some(t) => {
            let v = version_of_tag(t.as_str());
            if same(v.as_str(), version) {
                TagCheck::Matches
            } else {
                TagCheck::Differs
            }
        },
        None => TagCheck::NoTags,
    }
}

/// The architecture that a manifest declares; `any` where it declares none.
pub open spec fn declared_arch(m: Manifest) -> Seq<char> {
    match pair_value(map_pairs(m.system_specs), "arch"@) {
        Some(a) => a,
        None => "any"@,
    }
}

/// The architecture that a manifest declares, and whether it can be built on
/// this machine.
pub fn check_build_arch(m: &Manifest, current: &str) -> (r: (String, bool))
    ensures
        r.0@ == declared_arch(*m),
        r.1 == (declared_arch(*m) == "any"@ || declared_arch(*m) == current@),
{
    let declared = match map_get(&m.system_specs, "arch") {
        Some(a) => a.clone(),
        None => "any".to_owned(),
    };
    let fits = same(declared.as_str(), "any") || same(declared.as_str(), current);
    (declared, fits)
}

// ---------------------------------------------------------------------------
// Programs
// ---------------------------------------------------------------------------

/// The places where a program of a package is looked for before it is packed.
pub fn packed_places(bin_name: &str) -> (r: (String, String))
    ensures
        r.0@ == "contents/bin/"@ + bin_name@,
        r.1@ == "contents/"@ + bin_name@,
{
    (cat("contents/bin/", bin_name), cat("contents/", bin_name))
}

/// Whether anyone may execute a file with these permissions.
pub fn is_executable_mode(mode: u32) -> (r: bool)
    ensures
        r == (mode & 0o111 != 0),
{
    mode & 0o111 != 0
}

/// Whether a file is a program for the machine itself, and not a script.
pub fn is_elf(data: &Vec<u8>) -> (r: bool)
    ensures
        r == (data@.len() >= 4 && data@[0] == 127 && data@[1] == 69 && data@[2] == 76 && data@[3] == 70),
{
    data.len() >= 4 && data[0] == 127 && data[1] == 69 && data[2] == 76 && data[3] == 70
}

/// Whether a path is one where the system keeps libraries.
pub open spec fn in_system_libs(path: Seq<char>) -> bool {
    has_prefix(path, "/lib"@) || has_prefix(path, "/usr/lib"@)
}

/// What is said of a line about a library.
pub open spec fn library_warning(bin: Seq<char>, raw: Seq<char>) -> Seq<Seq<char>> {
    let line = trimmed(raw);
    if occurs(line, "=> not found"@) {
        let name = if words(line).len() == 0 {
            line
        } else {
            words(line)[0]
        };
        seq![
            bin + ": missing dependency '"@ + name
                + "' — broken even on THIS machine, will definitely fail for users"@,
        ]
    } else {
        match cut_text(line, "=> "@) {
            Some((_, behind)) => {
                let resolved = trimmed(
                    match cut_text(behind, " ("@) {
                        Some((path, _)) => path,
                        None => behind,
                    },
                );
                if resolved.len() == 0 || resolved == "not found"@ || in_system_libs(resolved) {
                    Seq::empty()
                } else {
                    seq![
                        bin + ": links against '"@ + resolved
                            + "' from a non-standard path — may not exist on the target machine"@,
                    ]
                }
            },
            None => Seq::empty(),
        }
    }
}

/// What is said of lines about libraries.
pub open spec fn library_warnings(bin: Seq<char>, all: Seq<Seq<char>>) -> Seq<Seq<char>>
    decreases all.len(),
{
    if all.len() == 0 {
        Seq::empty()
    } else {
        library_warnings(bin, all.drop_last()) + library_warning(bin, all.last())
    }
}

/// What is said of the libraries of a program, given what `ldd` prints of it.
pub open spec fn portability(bin: Seq<char>, report: Seq<char>) -> Seq<Seq<char>> {
    if occurs(report, "not a dynamic executable"@) {
        Seq::empty()
    } else {
        library_warnings(bin, lines(report))
    }
}

fn check_library(out: &mut Vec<String>, bin: &str, raw: &str)
    ensures
        strs(final(out)@) == strs(old(out)@) + library_warning(bin@, raw@),
{
    proof {
        reveal_strlit("=> ");
        reveal_strlit(" (");
        assert(strs(out@) + Seq::<Seq<char>>::empty() =~= strs(out@));
    }
    let line = trim_white(raw);
    if contains(line.as_str(), "=> not found") {
        let w = split_words(line.as_str());
        assert(strs(w@).len() == w@.len());
        let name = if w.len() == 0 {
            line.clone()
        } else {
            assert(strs(w@)[0] == w@[0]@);
            w[0].clone()
        };
        let mut s = cat3(bin, ": missing dependency '", name.as_str());
        s.append("' — broken even on THIS machine, will definitely fail for users");
        push_text(out, s);
        return;
    }
    match cut_at_text(line.as_str(), "=> ") {
        Some((_, behind)) => {
            let part = match cut_at_text(behind.as_str(), " (") {
                Some((path, _)) => path,
                None => behind,
            };
            let resolved = trim_white(part.as_str());
            if !is_empty_text(resolved.as_str()) && !same(resolved.as_str(), "not found") && !starts_with(
                resolved.as_str(),
                "/lib",
            ) && !starts_with(resolved.as_str(), "/usr/lib") {
                let mut s = cat3(bin, ": links against '", resolved.as_str());
                s.append("' from a non-standard path — may not exist on the target machine");
                push_text(out, s);
            }
        },
        None => {},
    }
}

/// Looks for libraries that a program needs and that other machines may not
/// have, given what `ldd` prints of it.
pub fn check_binary_portability(bin_name: &str, report: &str) -> (r: Vec<String>)
    ensures
        strs(r@) == portability(bin_name@, report@),
{
    let mut out: Vec<String> = Vec::new();
    assert(strs(out@) =~= Seq::<Seq<char>>::empty());
    if contains(report, "not a dynamic executable") {
        return out;
    }
    let all = split_lines(report);
    let ghost s = strs(all@);
    let mut i: usize = 0;
    assert(s.take(0) =~= Seq::<Seq<char>>::empty());
    while i < all.len()
        invariant
            i <= all@.len(),
            s == strs(all@),
            strs(out@) == library_warnings(bin_name@, s.take(i as int)),
        decreases all@.len() - i,
    {
        proof {
            let longer = s.take(i + 1);
            assert(longer.drop_last() =~= s.take(i as int));
            assert(longer.last() == all@[i as int]@);
        }
        check_library(&mut out, bin_name, all[i].as_str());
        i = i + 1;
    }
    assert(s.take(s.len() as int) =~= s);
    out
}

// ---------------------------------------------------------------------------
// Packing
// ---------------------------------------------------------------------------

/// The arguments of `tar` that make two archives of the same files the same
/// bytes, and that leave out what is not part of a package.
pub open spec fn fixed_tar_args() -> Seq<Seq<char>> {
    seq![
        "--sort=name"@,
        "--mtime=@0"@,
        "--owner=0"@,
        "--group=0"@,
        "--numeric-owner"@,
        "--pax-option=exthdr.name=%d/PaxHeaders/%f,delete=atime,delete=ctime"@,
        "--exclude=.git"@,
        "--exclude=.github"@,
        "--exclude=target"@,
        "--exclude=_build"@,
        "--exclude=*.o"@,
        "--exclude=*.d"@,
        "--exclude=*.tmp"@,
        "--exclude=.staging-*"@,
        "-cf"@,
    ]
}

/// The arguments of `tar` that pack a package.
pub open spec fn tar_args(have_zstd: bool, output: Seq<char>) -> Seq<Seq<char>> {
    (if have_zstd {
        seq!["-I"@, "zstd"@]
    } else {
        seq!["-z"@]
    }) + fixed_tar_args() + seq![output, "."@]
}

/// The arguments of `tar` that pack a package.
pub fn pack_arguments(have_zstd: bool, output: &str) -> (r: Vec<String>)
    ensures
        strs(r@) == tar_args(have_zstd, output@),
{
    let mut v: Vec<String> = Vec::new();
    if have_zstd {
        v.push("-I".to_owned());
        v.push("zstd".to_owned());
    } else {
        v.push("-z".to_owned());
    }
    v.push("--sort=name".to_owned());
    v.push("--mtime=@0".to_owned());
    v.push("--owner=0".to_owned());
    v.push("--group=0".to_owned());
    v.push("--numeric-owner".to_owned());
    v.push("--pax-option=exthdr.name=%d/PaxHeaders/%f,delete=atime,delete=ctime".to_owned());
    v.push("--exclude=.git".to_owned());
    v.push("--exclude=.github".to_owned());
    v.push("--exclude=target".to_owned());
    v.push("--exclude=_build".to_owned());
    v.push("--exclude=*.o".to_owned());
    v.push("--exclude=*.d".to_owned());
    v.push("--exclude=*.tmp".to_owned());
    v.push("--exclude=.staging-*".to_owned());
    v.push("-cf".to_owned());
    v.push(output.to_owned());
    v.push(".".to_owned());
    assert(strs(v@) =~= tar_args(have_zstd, output@));
    v
}

/// What the file beside an archive holds: its checksum and its name.
pub fn checksum_line(sum: &str, output: &str) -> (r: String)
    ensures
        r@ == sum@ + "  "@ + output@ + "\n"@,
{
    let mut s = cat3(sum, "  ", output);
    s.append("\n");
    s
}

// ---------------------------------------------------------------------------
// Laws
// ---------------------------------------------------------------------------

proof fn read_from(args: Seq<Seq<char>>, more: Seq<Seq<char>>, i: int, m: BuildModel)
    requires
        0 <= i <= args.len(),
    ensures
        read_build_args(more + args, more.len() + i, m) == read_build_args(args, i, m),
    decreases args.len() - i,
{
    let all = more + args;
    if i < args.len() {
        let a = args[i];
        assert(all[more.len() + i] == a);
        if i + 1 < args.len() {
            assert(all[more.len() + i + 1] == args[i + 1]);
            read_from(args, more, i + 2, BuildModel { output: Some(args[i + 1]), ..m });
            read_from(args, more, i + 2, BuildModel { sign_key: Some(args[i + 1]), ..m });
        }
        read_from(args, more, i + 1, BuildModel { name: a, ..m });
        read_from(args, more, i + 1, BuildModel { unknown: m.unknown + seq![a], ..m });
    }
}

/// What the arguments mean, read from the first on: the text behind an option for the
/// archive or the key is that of the option, the first text that is no option is the name,
/// and all else is not understood.
pub proof fn what_build_arguments_mean(x: Seq<char>, y: Seq<char>, rest: Seq<Seq<char>>, m: BuildModel)
    ensures
        x == "--output"@ || x == "-o"@ ==> read_build_args(seq![x, y] + rest, 0, m) == read_build_args(
            rest,
            0,
            (BuildModel { output: Some(y), ..m }),
        ) && read_build_args(seq![x], 0, m) == Err::<BuildModel, BuildArgsProblem>(
            BuildArgsProblem::OutputWithoutPath,
        ),
        x == "--sign"@ ==> read_build_args(seq![x, y] + rest, 0, m) == read_build_args(
            rest,
            0,
            (BuildModel { sign_key: Some(y), ..m }),
        ) && read_build_args(seq![x], 0, m) == Err::<BuildModel, BuildArgsProblem>(
            BuildArgsProblem::SignWithoutKey,
        ),
        (x.len() == 0 || x[0] != '-') && m.name.len() == 0 ==> read_build_args(seq![x] + rest, 0, m)
            == read_build_args(rest, 0, (BuildModel { name: x, ..m })),
        x != "--output"@ && x != "-o"@ && x != "--sign"@ && (m.name.len() > 0 || (x.len() > 0 && x[0] == '-'))
            ==> read_build_args(seq![x] + rest, 0, m) == read_build_args(
            rest,
            0,
            (BuildModel { unknown: m.unknown.push(x), ..m }),
        ),
        read_build_args(Seq::empty(), 0, m) == Ok::<BuildModel, BuildArgsProblem>(m),
{
    reveal_strlit("--output");
    reveal_strlit("-o");
    reveal_strlit("--sign");
    reveal_strlit("-");
    assert("--output"@[0] == '-' && "-o"@[0] == '-' && "--sign"@[0] == '-');
    assert("--output"@.len() == 8 && "-o"@.len() == 2 && "--sign"@.len() == 6);
    if x.len() > 0 {
        assert(x.take(1)[0] == x[0]);
        if x[0] == '-' {
            assert(x.take(1) =~= "-"@);
        }
    }
    let two = seq![x, y];
    let one = seq![x];
    assert((two + rest)[0] == x && (two + rest)[1] == y);
    assert((one + rest)[0] == x);
    assert(one[0] == x);
    read_from(rest, two, 0, BuildModel { output: Some(y), ..m });
    read_from(rest, two, 0, BuildModel { sign_key: Some(y), ..m });
    read_from(rest, one, 0, BuildModel { name: x, ..m });
    read_from(rest, one, 0, BuildModel { unknown: m.unknown + seq![x], ..m });
    assert(m.unknown + seq![x] =~= m.unknown.push(x));
}

/// A manifest has no errors exactly where it has a version, and a name of letters, digits,
/// hyphens and underscores that begins with a letter or a digit.
pub proof fn which_manifests_are_without_errors(m: Manifest)
    ensures
        manifest_errors(m).len() == 0 <==> m.version@.len() > 0 && m.name@.len() > 0 && m.name@[0] != '-'
            && m.name@[0] != '_' && forall|i: int|
            0 <= i < m.name@.len() ==> {
                let c = #[trigger] m.name@[i];
                ('a' <= c && c <= 'z') || ('A' <= c && c <= 'Z') || ('0' <= c && c <= '9') || c == '-' || c == '_'
            },
{
    reveal_strlit("-");
    reveal_strlit("_");
    let n = m.name@;
    if n.len() > 0 {
        assert(n.take(1)[0] == n[0]);
        if n[0] == '-' {
            assert(n.take(1) =~= "-"@);
        }
        if n[0] == '_' {
            assert(n.take(1) =~= "_"@);
        }
    }
}

/// A manifest gives no cause for warnings exactly where it has authors, a license and a
/// summary, a version of two parts or more that are numbers or have a hyphen, a name for
/// its window if it has one, and an architecture that is known if it declares one.
pub proof fn which_manifests_are_without_warnings(m: Manifest)
    ensures
        manifest_warnings(m).len() == 0 <==> {
            &&& m.authors@.len() > 0 && m.license@.len() > 0 && m.summary@.len() > 0
            &&& m.version@.len() > 0 ==> split_by(m.version@, CharClass::Is('.')).len() >= 2 && forall|i: int|
                0 <= i < split_by(m.version@, CharClass::Is('.')).len() ==> number_of(
                    #[trigger] split_by(m.version@, CharClass::Is('.'))[i],
                    u32::MAX as nat,
                ) is Some || occurs(split_by(m.version@, CharClass::Is('.'))[i], "-"@)
            &&& m.is_gui ==> m.desktop.display_name@.len() > 0
            &&& pair_value(map_pairs(m.system_specs), "arch"@) matches Some(a) ==> a == "x86_64"@ || a == "aarch64"@
                || a == "armhf"@ || a == "i386"@ || a == "any"@
        },
{
    let parts = split_by(m.version@, CharClass::Is('.'));
    if plain_parts(parts) {
        assert forall|i: int| 0 <= i < parts.len() implies number_of(#[trigger] parts[i], u32::MAX as nat) is Some
            || occurs(parts[i], "-"@) by {
            assert(plain_part(parts[i]));
        }
    }
}

/// The warnings about the libraries of a program come line by line.
pub proof fn libraries_are_warned_of_by_line(bin: Seq<char>, a: Seq<Seq<char>>, line: Seq<char>)
    ensures
        library_warnings(bin, a.push(line)) == library_warnings(bin, a) + library_warning(bin, line),
        library_warnings(bin, Seq::empty()) == Seq::<Seq<char>>::empty(),
        library_warning(bin, line).len() <= 1,
        occurs(trimmed(line), "=> not found"@) ==> library_warning(bin, line).len() == 1,
        !occurs(trimmed(line), "=> "@) ==> library_warning(bin, line).len() == 0,
{
    assert(a.push(line).drop_last() =~= a);
    cut_text_at_the_first(trimmed(line), "=> "@);
    if occurs(trimmed(line), "=> not found"@) {
        where_a_text_stands(trimmed(line), "=> not found"@);
        let (x, y) = choose|x: Seq<char>, y: Seq<char>|
            trimmed(line) == #[trigger] (x + "=> not found"@ + y);
        reveal_strlit("=> not found");
        reveal_strlit("=> ");
        let rest = "=> not found"@.skip(3) + y;
        assert("=> not found"@.take(3) =~= "=> "@);
        assert("=> not found"@ =~= "=> "@ + "=> not found"@.skip(3));
        assert(trimmed(line) =~= x + "=> "@ + rest);
        where_a_text_stands(trimmed(line), "=> "@);
    }
}

/// An archive is packed so that the same files give the same bytes: sorted by name, with
/// fixed times and owners; and without the files of version control.
pub proof fn archives_are_reproducible(have_zstd: bool, output: Seq<char>)
    ensures
        ({
            let s = tar_args(have_zstd, output);
            &&& s.contains("--sort=name"@) && s.contains("--mtime=@0"@)
            &&& s.contains("--owner=0"@) && s.contains("--group=0"@) && s.contains("--numeric-owner"@)
            &&& s.contains("--exclude=.git"@)
            &&& s[s.len() - 3] == "-cf"@ && s[s.len() - 2] == output && s.last() == "."@
            &&& if have_zstd {
                s[0] == "-I"@ && s[1] == "zstd"@
            } else {
                s[0] == "-z"@
            }
        }),
{
    let s = tar_args(have_zstd, output);
    let k: int = if have_zstd {
        2
    } else {
        1
    };
    let f = fixed_tar_args();
    assert forall|i: int| 0 <= i < f.len() implies #[trigger] s[k + i] == f[i] by {}
    assert(s[k] == f[0] && s[k + 1] == f[1] && s[k + 2] == f[2] && s[k + 3] == f[3] && s[k + 4] == f[4] && s[k + 6]
        == f[6] && s[k + 14] == f[14]);
}

/// A library that was found is warned of exactly where it lies outside of the directories
/// of the system.
pub proof fn libraries_outside_of_the_system_are_warned_of(bin: Seq<char>, line: Seq<char>, a: Seq<char>, path: Seq<char>, c: Seq<char>)
    requires
        !occurs(trimmed(line), "=> not found"@),
        cut_text(trimmed(line), "=> "@) == Some((a, path + " ("@ + c)),
        cut_text(path + " ("@ + c, " ("@) == Some((path, c)),
        trimmed(path) == path,
        path.len() > 0,
        path != "not found"@,
    ensures
        library_warning(bin, line).len() == 0 <==> has_prefix(path, "/lib"@) || has_prefix(path, "/usr/lib"@),
        library_warning(bin, line).len() > 0 ==> library_warning(bin, line)[0] == bin + ": links against '"@ + path
            + "' from a non-standard path — may not exist on the target machine"@,
{
}

/// A program that needs no libraries is not warned of; of another each line is looked at.
pub proof fn static_programs_are_portable(bin: Seq<char>, report: Seq<char>)
    ensures
        occurs(report, "not a dynamic executable"@) ==> portability(bin, report).len() == 0,
        !occurs(report, "not a dynamic executable"@) ==> portability(bin, report) == library_warnings(
            bin,
            lines(report),
        ),
{
}

/// A package is for every machine where it declares no architecture.
pub proof fn undeclared_means_any(m: Manifest)
    ensures
        pair_value(map_pairs(m.system_specs), "arch"@) is None ==> declared_arch(m) == "any"@,
        pair_value(map_pairs(m.system_specs), "arch"@) matches Some(a) ==> declared_arch(m) == a,
{
}

} // verus!
