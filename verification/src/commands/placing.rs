//! Putting a package in its place: what it needs, what it brings, and what is
//! recorded of it.
use vstd::prelude::*;
use vstd::seq_lib::{lemma_seq_concat_contains_all_elements, lemma_seq_contains_after_push};

use crate::collections::{NameMap, NameSet};
use crate::config::{map_entry, map_get, map_len, map_pairs, pair_value};
use crate::hooks::has_shebang;
use crate::manifest::{arch_fits, check_arch_compatibility, Manifest};
use crate::number::{decimal, to_decimal};
use crate::paths::{join, joined};
use crate::pattern::{contains, ends_with, has_prefix, has_suffix, occurs, replace, replace_all, starts_with};
use crate::repo::{BuildConfig, BuildSource};
use crate::state::{after_update, declared_complaints, depends_on_package, fresh_info, installed_complaints, join_pkg_ver, no_complaint_means_no_conflict, pkg_key, pkg_ver, versions_in, versions_in_are_installed, InfoModel, State};
use crate::text::{cat, cat3, copy_strings, has_string, is_empty_text, join_strings, join_with, push_text, same, split_by, split_class, split_extends, strs, CharClass};
use crate::utils::{meets, satisfies};

verus! {

// ---------------------------------------------------------------------------
// Whether it can be installed
// ---------------------------------------------------------------------------

/// The complaints against installing a package.
pub open spec fn complaints(state: State, pkg: Seq<char>, declared: Seq<Seq<char>>) -> Seq<Seq<char>> {
    installed_complaints(state.packages.all(), pkg) + declared_complaints(
        state.packages,
        pkg,
        declared,
    )
}

/// Lines, each with a mark before it.
pub open spec fn marked(lines: Seq<Seq<char>>) -> Seq<Seq<char>> {
    lines.map_values(|l: Seq<char>| "  ✗ "@ + l)
}

fn mark_lines(lines: &Vec<String>) -> (r: Vec<String>)
    ensures
        strs(r@) == marked(strs(lines@)),
{
    let mut out: Vec<String> = Vec::new();
    let mut i: usize = 0;
    let ghost all = marked(strs(lines@));
    assert(strs(out@) =~= all.take(0));
    while i < lines.len()
        invariant
            i <= lines@.len(),
            all == marked(strs(lines@)),
            strs(out@) == all.take(i as int),
        decreases lines@.len() - i,
    {
        let l = cat("  ✗ ", lines[i].as_str());
        assert(all[i as int] == l@);
        assert(all.take(i + 1) =~= all.take(i as int) + seq![l@]);
        push_text(&mut out, l);
        i = i + 1;
    }
    assert(all.take(all.len() as int) =~= all);
    out
}

/// The text for a package that conflicts with what is installed.
pub open spec fn conflict_message(pkg: Seq<char>, why: Seq<Seq<char>>) -> Seq<char> {
    "Cannot install '"@ + pkg + "': conflicts:\n"@ + join_with(marked(why), "\n"@)
}

/// Checks that a package is for this machine and conflicts with nothing that
/// is installed.
pub fn check_installable(state: &State, pkg_name: &str, manifest: &Manifest, current_arch: &str) -> (r: Result<(), String>)
    requires
        state.wf(),
    ensures
        r is Ok == (arch_fits(manifest.arch@, current_arch@) && complaints(
            *state,
            pkg_name@,
            strs(manifest.conflicts@),
        ).len() == 0),
        r matches Err(m) ==> arch_fits(manifest.arch@, current_arch@) ==> m@ == conflict_message(
            pkg_name@,
            complaints(*state, pkg_name@, strs(manifest.conflicts@)),
        ),
        r matches Err(m) ==> !arch_fits(manifest.arch@, current_arch@) ==> m@
            == "Architecture mismatch: package requires '"@ + manifest.arch@
            + "' but running on '"@ + current_arch@
            + "'.\nIf this is a cross-arch install, use hpm install --force-arch to override."@,
{
    match check_arch_compatibility(manifest.arch.as_str(), current_arch) {
        Ok(_) => {},
        Err(m) => {
            return Err(m);
        },
    }
    let violations = state.check_conflicts(pkg_name, &manifest.conflicts);
    assert(strs(violations@).len() == violations@.len());
    if violations.len() > 0 {
        let lines = mark_lines(&violations);
        let list = join_strings(&lines, "\n");
        let mut m = cat3("Cannot install '", pkg_name, "': conflicts:\n");
        m.append(list.as_str());
        return Err(m);
    }
    Ok(())
}

// ---------------------------------------------------------------------------
// What it needs
// ---------------------------------------------------------------------------

/// What to do about a dependency.
#[derive(Debug)]
pub enum DependencyStep {
    /// A version that will do is installed.
    Satisfied,
    /// Install it, in a version if one is named. `replaces` tells whether
    /// another version is installed.
    Install { version: Option<String>, replaces: bool },
}

/// Whether one of the versions meets a requirement.
pub open spec fn any_meets(versions: Seq<Seq<char>>, req: Seq<char>) -> bool {
    exists|i: int| 0 <= i < versions.len() && meets(#[trigger] versions[i], req)
}

/// Whether a requirement names a version, and not a range.
pub open spec fn names_version(req: Seq<char>) -> bool {
    req.len() > 0 && !has_prefix(req, ">"@) && !has_prefix(req, "="@)
}

/// Decides what to do about a dependency.
pub fn dependency_step(state: &State, name: &str, req: &str) -> (r: DependencyStep)
    requires
        state.wf(),
    ensures
        match r {
            DependencyStep::Satisfied => any_meets(versions_in(state.packages.all(), name@), req@),
            DependencyStep::Install { version, replaces } => {
                &&& !any_meets(versions_in(state.packages.all(), name@), req@)
                &&& replaces == (versions_in(state.packages.all(), name@).len() > 0)
                &&& match version {
                    Some(v) => names_version(req@) && v@ == req@,
                    None => !names_version(req@),
                }
            },
        },
{
    let versions = state.packages.versions_of(name);
    let ghost all = strs(versions@);
    let mut i: usize = 0;
    while i < versions.len()
        invariant
            i <= versions@.len(),
            all == strs(versions@),
            all == versions_in(state.packages.all(), name@),
            forall|j: int| 0 <= j < i ==> !meets(#[trigger] all[j], req@),
        decreases versions@.len() - i,
    {
        assert(all[i as int] == versions@[i as int]@);
        if satisfies(versions[i].as_str(), req) {
            return DependencyStep::Satisfied;
        }
        i = i + 1;
    }
    let version = if is_empty_text(req) || starts_with(req, ">") || starts_with(req, "=") {
        None
    } else {
        Some(req.to_owned())
    };
    DependencyStep::Install { version, replaces: versions.len() > 0 }
}

/// The texts, followed by the others that are not among them.
pub open spec fn merged(own: Seq<Seq<char>>, more: Seq<Seq<char>>) -> Seq<Seq<char>>
    decreases more.len(),
{
    if more.len() == 0 {
        own
    } else {
        let rest = merged(own, more.drop_last());
        if rest.contains(more.last()) {
            rest
        } else {
            rest + seq![more.last()]
        }
    }
}

/// The strings, followed by the others that are not among them.
pub fn merge_strings(own: &Vec<String>, more: &Vec<String>) -> (r: Vec<String>)
    ensures
        strs(r@) == merged(strs(own@), strs(more@)),
{
    let mut out = copy_strings(own);
    let mut i: usize = 0;
    let ghost all = strs(more@);
    assert(all.take(0) =~= Seq::<Seq<char>>::empty());
    while i < more.len()
        invariant
            i <= more@.len(),
            all == strs(more@),
            strs(out@) == merged(strs(own@), all.take(i as int)),
        decreases more@.len() - i,
    {
        proof {
            let longer = all.take(i + 1);
            assert(longer.drop_last() =~= all.take(i as int));
            assert(longer.last() == more@[i as int]@);
        }
        if !has_string(&out, more[i].as_str()) {
            push_text(&mut out, more[i].clone());
        }
        i = i + 1;
    }
    assert(all.take(all.len() as int) =~= all);
    out
}

/// The system packages that are needed to build a package.
pub fn build_deb_deps(manifest: &Manifest, config: &Option<BuildConfig>) -> (r: Vec<String>)
    ensures
        strs(r@) == (match config {
            Some(c) => merged(strs(manifest.build.deb_deps@), strs(c.build_deps@)),
            None => strs(manifest.build.deb_deps@),
        }),
{
    match config {
        Some(c) => merge_strings(&manifest.build.deb_deps, &c.build_deps),
        None => copy_strings(&manifest.build.deb_deps),
    }
}

/// The system packages that are needed to run a package.
pub fn runtime_deb_deps(manifest: &Manifest, config: &Option<BuildConfig>) -> (r: Vec<String>)
    ensures
        strs(r@) == (match config {
            Some(c) => merged(strs(manifest.runtime.deb_deps@), strs(c.runtime_deps@)),
            None => strs(manifest.runtime.deb_deps@),
        }),
{
    match config {
        Some(c) => merge_strings(&manifest.runtime.deb_deps, &c.runtime_deps),
        None => copy_strings(&manifest.runtime.deb_deps),
    }
}

// ---------------------------------------------------------------------------
// Building
// ---------------------------------------------------------------------------

/// How a package without build instructions of its own is built: by its script,
/// or else by the commands of its manifest; without either, not at all.
pub open spec fn classic_commands(has_script: bool, commands: Seq<Seq<char>>) -> Seq<Seq<char>> {
    if has_script {
        seq!["./build.info"@]
    } else {
        commands
    }
}

/// The commands by which a package without build instructions is built.
pub fn run_classic_build(has_script: bool, manifest: &Manifest) -> (r: Vec<String>)
    ensures
        strs(r@) == classic_commands(has_script, strs(manifest.build.commands@)),
{
    if has_script {
        let mut v: Vec<String> = Vec::new();
        v.push("./build.info".to_owned());
        assert(strs(v@) =~= seq!["./build.info"@]);
        v
    } else {
        copy_strings(&manifest.build.commands)
    }
}

/// What kind of file is downloaded.
#[derive(Clone, Copy, PartialEq, Eq, Structural, Debug)]
pub enum Download {
    /// An archive for `tar`.
    Tar,
    /// An archive for `unzip`.
    Zip,
    /// The program itself.
    Plain,
}

/// What kind of file an address is of.
pub open spec fn download_kind(url: Seq<char>) -> Download {
    if occurs(url, ".tar."@) || has_suffix(url, ".tgz"@) {
        Download::Tar
    } else if has_suffix(url, ".zip"@) {
        Download::Zip
    } else {
        Download::Plain
    }
}

/// What to do to obtain the files of a package.
#[derive(Debug)]
pub enum BuildStep {
    /// Nothing: they came with the package.
    UseContents,
    /// Download a file, unpack it with these extra arguments if it is an
    /// archive, and take one file of it, or all of them.
    Fetch { url: String, kind: Download, tar_args: Vec<String>, only: Option<String> },
    /// Run a script and take what it leaves.
    RunScript { script: String, output: String },
}

/// The place of a program below the contents of a package.
pub open spec fn install_place(install_path: Seq<char>, pkg: Seq<char>) -> Seq<char> {
    if install_path.len() == 0 {
        "bin/"@ + pkg
    } else {
        install_path
    }
}

/// The place of a program below the contents of a package.
pub fn install_path_of(config: &BuildConfig, pkg_name: &str) -> (r: String)
    ensures
        r@ == install_place(config.install_path@, pkg_name@),
{
    if is_empty_text(config.install_path.as_str()) {
        cat("bin/", pkg_name)
    } else {
        config.install_path.clone()
    }
}

/// The script that runs commands, and stops at the first that fails.
pub open spec fn build_script(commands: Seq<Seq<char>>) -> Seq<char> {
    "#!/bin/sh\nset -e\n"@ + join_with(commands, "\n"@)
}

/// Decides what to do to obtain the files of a version of a package.
pub fn run_build_config(config: &BuildConfig, version: &str) -> (r: BuildStep)
    ensures
        match config.source {
            BuildSource::Prebuilt => r is UseContents,
            BuildSource::Download { url, binary_path, strip_components } => {
                let address = replace_all(url@, "{version}"@, version@);
                &&& r matches BuildStep::Fetch { url: u, kind, tar_args, only }
                &&& u@ == address
                &&& kind == download_kind(address)
                &&& strs(tar_args@) == (if download_kind(address) == Download::Tar && strip_components > 0 {
                    seq!["--strip-components="@ + decimal(strip_components as nat)]
                } else {
                    Seq::<Seq<char>>::empty()
                })
                &&& match only {
                    Some(o) => o@ == binary_path@ && binary_path@.len() > 0 && download_kind(address)
                        != Download::Plain,
                    None => binary_path@.len() == 0 || download_kind(address) == Download::Plain,
                }
            },
            BuildSource::Build { commands, output } => r matches BuildStep::RunScript {
                script,
                output: out,
            } && script@ == build_script(strs(commands@)) && out@ == output@,
        },
{
    match &config.source {
        BuildSource::Prebuilt => BuildStep::UseContents,
        BuildSource::Download { url, binary_path, strip_components } => {
            proof {
                reveal_strlit("{version}");
            }
            let address = replace(url.as_str(), "{version}", version);
            let kind = if contains(address.as_str(), ".tar.") || ends_with(address.as_str(), ".tgz") {
                Download::Tar
            } else if ends_with(address.as_str(), ".zip") {
                Download::Zip
            } else {
                Download::Plain
            };
            let mut tar_args: Vec<String> = Vec::new();
            if kind == Download::Tar && *strip_components > 0 {
                let n = to_decimal(*strip_components as u64);
                let arg = cat("--strip-components=", n.as_str());
                tar_args.push(arg);
                assert(strs(tar_args@) =~= seq![arg@]);
            } else {
                assert(strs(tar_args@) =~= Seq::<Seq<char>>::empty());
            }
            let only = if is_empty_text(binary_path.as_str()) || kind == Download::Plain {
                None
            } else {
                Some(binary_path.clone())
            };
            BuildStep::Fetch { url: address, kind, tar_args, only }
        },
        BuildSource::Build { commands, output } => {
            let list = join_strings(commands, "\n");
            let script = cat("#!/bin/sh\nset -e\n", list.as_str());
            BuildStep::RunScript { script, output: output.clone() }
        },
    }
}

/// Whether a file of a repository is made executable: it is marked so, or it is
/// a script.
pub fn needs_exec_bit(mode: u32, content: &Vec<u8>) -> (r: bool)
    ensures
        r == (mode == 0o100755 || has_shebang(content@)),
{
    mode == 0o100755 || (content.len() >= 2 && content[0] == 35 && content[1] == 33)
}

// ---------------------------------------------------------------------------
// Programs
// ---------------------------------------------------------------------------

/// The last part of a path.
pub open spec fn file_name(path: Seq<char>) -> Seq<char> {
    split_by(path, CharClass::Is('/')).last()
}

fn file_name_of(path: &str) -> (r: String)
    ensures
        r@ == file_name(path@),
{
    let parts = split_class(path, CharClass::Is('/'));
    let ghost s = strs(parts@);
    assert(s.len() == parts@.len());
    assert(s.last() == parts@.last()@);
    parts[parts.len() - 1].clone()
}

/// The first of the files that has a name.
pub open spec fn first_named(files: Seq<Seq<char>>, name: Seq<char>) -> Option<Seq<char>>
    decreases files.len(),
{
    if files.len() == 0 {
        None
    } else if file_name(files[0]) == name {
        Some(files[0])
    } else {
        first_named(files.drop_first(), name)
    }
}

/// Where a program is in a package: below `bin`, at the top, or anywhere.
pub open spec fn binary_place(in_bin: bool, at_top: bool, files: Seq<Seq<char>>, bin: Seq<char>) -> Option<Seq<char>> {
    if in_bin {
        Some("bin/"@ + bin)
    } else if at_top {
        Some(bin)
    } else {
        first_named(files, bin)
    }
}

/// Finds a program in a package. `in_bin` and `at_top` tell whether there is
/// anything of its name below `bin` and at the top; `files` are the paths of
/// the files of the package, in the order in which they are walked.
pub fn find_binary_in_dir(in_bin: bool, at_top: bool, files: &Vec<String>, bin_name: &str) -> (r: Option<String>)
    ensures
        match r {
            Some(p) => binary_place(in_bin, at_top, strs(files@), bin_name@) == Some(p@),
            None => binary_place(in_bin, at_top, strs(files@), bin_name@) is None,
        },
{
    if in_bin {
        return Some(cat("bin/", bin_name));
    }
    if at_top {
        return Some(bin_name.to_owned());
    }
    let mut i: usize = 0;
    let ghost all = strs(files@);
    assert(all.skip(0) =~= all);
    while i < files.len()
        invariant
            i <= files@.len(),
            !in_bin,
            !at_top,
            all == strs(files@),
            first_named(all, bin_name@) == first_named(all.skip(i as int), bin_name@),
        decreases files@.len() - i,
    {
        assert(all.skip(i as int)[0] == files@[i as int]@);
        assert(all.skip(i as int).drop_first() =~= all.skip(i + 1));
        let name = file_name_of(files[i].as_str());
        if same(name.as_str(), bin_name) {
            return Some(files[i].clone());
        }
        i = i + 1;
    }
    None
}

/// Where a program is that the manifest may give a place for: there, if
/// anything is, and else where it is found.
pub open spec fn bin_place(
    manifest: Manifest,
    bin: Seq<char>,
    explicit_exists: bool,
    in_bin: bool,
    at_top: bool,
    files: Seq<Seq<char>>,
) -> Option<Seq<char>> {
    match pair_value(map_pairs(manifest.bin_paths), bin) {
        Some(p) => if explicit_exists {
            Some(p)
        } else {
            binary_place(in_bin, at_top, files, bin)
        },
        None => binary_place(in_bin, at_top, files, bin),
    }
}

/// Finds a program of a package.
pub fn binary_path(
    manifest: &Manifest,
    bin_name: &str,
    explicit_exists: bool,
    in_bin: bool,
    at_top: bool,
    files: &Vec<String>,
) -> (r: Option<String>)
    ensures
        match r {
            Some(p) => bin_place(*manifest, bin_name@, explicit_exists, in_bin, at_top, strs(files@))
                == Some(p@),
            None => bin_place(*manifest, bin_name@, explicit_exists, in_bin, at_top, strs(files@)) is None,
        },
{
    match map_get(&manifest.bin_paths, bin_name) {
        Some(p) => {
            if explicit_exists {
                return Some(p.clone());
            }
        },
        None => {},
    }
    find_binary_in_dir(in_bin, at_top, files, bin_name)
}

/// The files to make executable for a program: the one that the manifest
/// names, if it is there; else those of its name below `bin` and at the top,
/// and the one that is found.
pub open spec fn marked_files(
    manifest: Manifest,
    bin: Seq<char>,
    explicit_exists: bool,
    in_bin: bool,
    at_top: bool,
    files: Seq<Seq<char>>,
) -> Seq<Seq<char>> {
    let explicit = pair_value(map_pairs(manifest.bin_paths), bin);
    if explicit is Some && explicit_exists {
        seq![explicit->0]
    } else {
        let a = if in_bin {
            seq!["bin/"@ + bin]
        } else {
            Seq::empty()
        };
        let b = if at_top {
            seq![bin]
        } else {
            Seq::empty()
        };
        let c = match binary_place(in_bin, at_top, files, bin) {
            Some(p) => seq![p],
            None => Seq::empty(),
        };
        a + b + c
    }
}

/// The files to make executable for a program of a package.
pub fn make_all_binaries_executable(
    manifest: &Manifest,
    bin_name: &str,
    explicit_exists: bool,
    in_bin: bool,
    at_top: bool,
    files: &Vec<String>,
) -> (r: Vec<String>)
    ensures
        strs(r@) == marked_files(
            *manifest,
            bin_name@,
            explicit_exists,
            in_bin,
            at_top,
            strs(files@),
        ),
{
    let mut out: Vec<String> = Vec::new();
    assert(strs(out@) =~= Seq::<Seq<char>>::empty());
    match map_get(&manifest.bin_paths, bin_name) {
        Some(p) => {
            if explicit_exists {
                push_text(&mut out, p.clone());
                assert(strs(out@) =~= seq![p@]);
                return out;
            }
        },
        None => {},
    }
    if in_bin {
        push_text(&mut out, cat("bin/", bin_name));
    }
    if at_top {
        push_text(&mut out, bin_name.to_owned());
    }
    match find_binary_in_dir(in_bin, at_top, files, bin_name) {
        Some(p) => {
            push_text(&mut out, p);
        },
        None => {},
    }
    assert(strs(out@) =~= marked_files(*manifest, bin_name@, explicit_exists, in_bin, at_top, strs(files@)));
    out
}

/// The paths whose last part is not that of a manifest.
pub open spec fn without_manifests(files: Seq<Seq<char>>) -> Seq<Seq<char>>
    decreases files.len(),
{
    if files.len() == 0 {
        Seq::empty()
    } else {
        let rest = without_manifests(files.drop_last());
        if file_name(files.last()) == "info.hk"@ {
            rest
        } else {
            rest + seq![files.last()]
        }
    }
}

/// The files of a package other than its manifest.
pub fn list_all_files(files: &Vec<String>) -> (r: Vec<String>)
    ensures
        strs(r@) == without_manifests(strs(files@)),
{
    let mut out: Vec<String> = Vec::new();
    let mut i: usize = 0;
    let ghost all = strs(files@);
    assert(all.take(0) =~= Seq::<Seq<char>>::empty());
    assert(strs(out@) =~= Seq::<Seq<char>>::empty());
    while i < files.len()
        invariant
            i <= files@.len(),
            all == strs(files@),
            strs(out@) == without_manifests(all.take(i as int)),
        decreases files@.len() - i,
    {
        proof {
            let longer = all.take(i + 1);
            assert(longer.drop_last() =~= all.take(i as int));
            assert(longer.last() == files@[i as int]@);
        }
        let name = file_name_of(files[i].as_str());
        if !same(name.as_str(), "info.hk") {
            push_text(&mut out, files[i].clone());
        }
        i = i + 1;
    }
    assert(all.take(all.len() as int) =~= all);
    out
}

/// Paths, each on a line of its own behind the first line.
pub open spec fn indented(first: Seq<char>, paths: Seq<Seq<char>>) -> Seq<char>
    decreases paths.len(),
{
    if paths.len() == 0 {
        first
    } else {
        indented(first, paths.drop_last()) + "\n    "@ + paths.last()
    }
}

/// The text for a program that a package does not hold, given the executable
/// files that it does hold.
pub fn binary_not_found_help(bin_name: &str, executables: &Vec<String>) -> (r: String)
    ensures
        r@ == (if executables@.len() == 0 {
            "Binary '"@ + bin_name@ + "' not found in installed files."@
                + "\n  No executables. Fix: git update-index --chmod=+x contents/bin/<binary>"@
        } else {
            indented(
                "Binary '"@ + bin_name@ + "' not found in installed files."@
                    + "\n  Executables found:"@,
                strs(executables@),
            )
        }),
{
    let mut s = cat3("Binary '", bin_name, "' not found in installed files.");
    if executables.len() == 0 {
        s.append("\n  No executables. Fix: git update-index --chmod=+x contents/bin/<binary>");
        return s;
    }
    s.append("\n  Executables found:");
    let ghost first = s@;
    let ghost all = strs(executables@);
    let mut i: usize = 0;
    assert(all.take(0) =~= Seq::<Seq<char>>::empty());
    while i < executables.len()
        invariant
            i <= executables@.len(),
            all == strs(executables@),
            s@ == indented(first, all.take(i as int)),
        decreases executables@.len() - i,
    {
        proof {
            let longer = all.take(i + 1);
            assert(longer.drop_last() =~= all.take(i as int));
            assert(longer.last() == executables@[i as int]@);
        }
        s.append("\n    ");
        s.append(executables[i].as_str());
        i = i + 1;
    }
    assert(all.take(all.len() as int) =~= all);
    s
}

// ---------------------------------------------------------------------------
// Completions
// ---------------------------------------------------------------------------

/// The first program of a package, or else the package's name.
pub open spec fn main_bin(bins: Seq<Seq<char>>, pkg: Seq<char>) -> Seq<char> {
    if bins.len() == 0 {
        pkg
    } else {
        bins[0]
    }
}

/// The first program of a package, or else the package's name.
pub fn bin_name_for_pkg(manifest: &Manifest, pkg_name: &str) -> (r: String)
    ensures
        r@ == main_bin(strs(manifest.bins@), pkg_name@),
{
    if manifest.bins.len() > 0 {
        assert(strs(manifest.bins@)[0] == manifest.bins@[0]@);
        manifest.bins[0].clone()
    } else {
        pkg_name.to_owned()
    }
}

/// A file with completions for a shell: its name, and the directory below the
/// user's home that it goes to.
#[derive(Debug)]
pub struct Completion {
    pub file: String,
    pub dir: String,
}

/// The files with completions that a package may bring for a program.
pub fn completion_targets(home: &str, bin_name: &str) -> (r: Vec<Completion>)
    ensures
        r@.len() == 3,
        r@[0].file@ == bin_name@ + ".bash"@,
        r@[0].dir@ == joined(home@, ".local/share/bash-completion/completions"@),
        r@[1].file@ == bin_name@ + ".zsh"@,
        r@[1].dir@ == joined(home@, ".local/share/zsh/site-functions"@),
        r@[2].file@ == bin_name@ + ".fish"@,
        r@[2].dir@ == joined(home@, ".config/fish/completions"@),
{
    let mut out: Vec<Completion> = Vec::new();
    out.push(
        Completion {
            file: cat(bin_name, ".bash"),
            dir: join(home, ".local/share/bash-completion/completions"),
        },
    );
    out.push(
        Completion { file: cat(bin_name, ".zsh"), dir: join(home, ".local/share/zsh/site-functions") },
    );
    out.push(Completion { file: cat(bin_name, ".fish"), dir: join(home, ".config/fish/completions") });
    out
}

// ---------------------------------------------------------------------------
// What is recorded
// ---------------------------------------------------------------------------

/// What is recorded for a dependency: its name, with the version that is in
/// use, if one is.
pub open spec fn dependency_key(name: Seq<char>, current: Map<Seq<char>, Seq<char>>) -> Seq<char> {
    if current.dom().contains(name) {
        pkg_key(name, current[name])
    } else {
        name
    }
}

/// What is recorded for dependencies.
pub open spec fn dependency_keys(
    deps: Seq<(Seq<char>, Seq<char>)>,
    current: Map<Seq<char>, Seq<char>>,
) -> Set<Seq<char>>
    decreases deps.len(),
{
    if deps.len() == 0 {
        Set::empty()
    } else {
        dependency_keys(deps.drop_last(), current).insert(dependency_key(deps.last().0, current))
    }
}

fn recorded_deps(manifest: &Manifest, current: &NameMap) -> (r: NameSet)
    requires
        current.wf(),
    ensures
        r.wf(),
        r@ == dependency_keys(map_pairs(manifest.deps), current@),
{
    let mut out = NameSet::new();
    let ghost all = map_pairs(manifest.deps);
    let mut i: usize = 0;
    assert(all.take(0) =~= Seq::<(Seq<char>, Seq<char>)>::empty());
    assert(out@ =~= Set::<Seq<char>>::empty());
    let n = map_len(&manifest.deps);
    while i < n
        invariant
            i <= n,
            n == all.len(),
            all == map_pairs(manifest.deps),
            current.wf(),
            out.wf(),
            out@ == dependency_keys(all.take(i as int), current@),
        decreases n - i,
    {
        let (name, _) = map_entry(&manifest.deps, i);
        proof {
            let longer = all.take(i + 1);
            assert(longer.drop_last() =~= all.take(i as int));
        }
        match current.get(name.as_str()) {
            Some(v) => {
                let key = join_pkg_ver(name.as_str(), v.as_str());
                out.insert(key.as_str());
            },
            None => {
                out.insert(name.as_str());
            },
        }
        i = i + 1;
    }
    assert(all.take(all.len() as int) =~= all);
    out
}

/// What is recorded of a version that was installed.
pub open spec fn installed_info(
    manifest: Manifest,
    checksum: Seq<char>,
    manually_installed: bool,
    current: Map<Seq<char>, Seq<char>>,
    now: u64,
) -> InfoModel {
    InfoModel {
        depends_on: dependency_keys(map_pairs(manifest.deps), current),
        conflicts_with: strs(manifest.conflicts@).to_set(),
        ..fresh_info(checksum, manually_installed, now)
    }
}

/// Records that a version of a package was installed.
pub fn record_install(
    state: &mut State,
    pkg_name: &str,
    version: &str,
    manifest: &Manifest,
    checksum: &str,
    manually_installed: bool,
    current: &NameMap,
    now: u64,
)
    requires
        old(state).wf(),
        current.wf(),
    ensures
        final(state).wf(),
        final(state).history == old(state).history,
        final(state).packages@ == after_update(
            old(state).packages@,
            pkg_name@,
            version@,
            installed_info(*manifest, checksum@, manually_installed, current@, now),
        ),
{
    let depends_on = recorded_deps(manifest, current);
    let conflicts_with = NameSet::from_names(&manifest.conflicts);
    state.update_package(
        pkg_name,
        version,
        checksum,
        manually_installed,
        depends_on,
        conflicts_with,
        now,
    );
}

/// The directory in which a version is put together before it takes its place.
pub fn staging_dir(store: &str, pkg_name: &str, version: &str) -> (r: String)
    ensures
        r@ == joined(joined(store@, pkg_name@), ".staging-"@ + version@),
{
    let dir = join(store, pkg_name);
    let name = cat(".staging-", version);
    join(dir.as_str(), name.as_str())
}

/// The text for a package that has nothing to install.
pub fn no_contents_message(pkg_name: &str, version: &str) -> (r: String)
    ensures
        r@ == "No 'contents/' for '"@ + pkg_key(pkg_name@, version@) + "'"@,
{
    let key = join_pkg_ver(pkg_name, version);
    cat3("No 'contents/' for '", key.as_str(), "'")
}

// ---------------------------------------------------------------------------
// Laws
// ---------------------------------------------------------------------------

/// A package that was installed is recorded, in the version that was installed,
/// with what its manifest says of conflicts.
pub proof fn installed_is_recorded(
    before: Map<(Seq<char>, Seq<char>), InfoModel>,
    pkg: Seq<char>,
    version: Seq<char>,
    info: InfoModel,
)
    ensures
        after_update(before, pkg, version, info).dom().contains((pkg, version)),
        after_update(before, pkg, version, info)[(pkg, version)].conflicts_with == info.conflicts_with,
        after_update(before, pkg, version, info)[(pkg, version)].depends_on == info.depends_on,
        after_update(before, pkg, version, info)[(pkg, version)].checksum == info.checksum,
{
}

/// Merging keeps what is there and adds what is not.
pub proof fn merged_holds_both(own: Seq<Seq<char>>, more: Seq<Seq<char>>, x: Seq<char>)
    ensures
        merged(own, more).contains(x) == (own.contains(x) || more.contains(x)),
    decreases more.len(),
{
    if more.len() > 0 {
        let rest = merged(own, more.drop_last());
        merged_holds_both(own, more.drop_last(), x);
        let last = more.last();
        assert(more[more.len() - 1] == last);
        if more.contains(x) && x != last {
            let i = choose|i: int| 0 <= i < more.len() && more[i] == x;
            assert(more.drop_last()[i] == x);
        }
        if more.drop_last().contains(x) {
            let i = choose|i: int| 0 <= i < more.drop_last().len() && more.drop_last()[i] == x;
            assert(more[i] == x);
        }
        if !rest.contains(last) {
            let m = rest + seq![last];
            assert(m[rest.len() as int] == last);
            if rest.contains(x) {
                let i = choose|i: int| 0 <= i < rest.len() && rest[i] == x;
                assert(m[i] == x);
            }
            if m.contains(x) && x != last {
                let i = choose|i: int| 0 <= i < m.len() && m[i] == x;
                assert(rest[i] == x);
            }
        }
    }
}

/// A dependency is met by what is installed exactly where one of the installed
/// versions of the package meets the requirement.
pub proof fn dependency_is_met_by_what_is_installed(state: State, name: Seq<char>, req: Seq<char>)
    requires
        state.wf(),
    ensures
        any_meets(versions_in(state.packages.all(), name), req) <==> exists|v: Seq<char>| #[trigger]
            state.packages@.dom().contains((name, v)) && meets(v, req),
        versions_in(state.packages.all(), name).len() > 0 <==> exists|v: Seq<char>| #[trigger]
            state.packages@.dom().contains((name, v)),
{
    let all = versions_in(state.packages.all(), name);
    state.packages.has_package_in_map(name);
    versions_in_are_installed(state.packages, name, name);
    if any_meets(all, req) {
        let i = choose|i: int| 0 <= i < all.len() && meets(#[trigger] all[i], req);
        assert(all.contains(all[i]));
        versions_in_are_installed(state.packages, name, all[i]);
    }
    if exists|v: Seq<char>| #[trigger] state.packages@.dom().contains((name, v)) && meets(v, req) {
        let v = choose|v: Seq<char>| #[trigger] state.packages@.dom().contains((name, v)) && meets(v, req);
        versions_in_are_installed(state.packages, name, v);
        let i = choose|i: int| 0 <= i < all.len() && all[i] == v;
        assert(meets(all[i], req));
    }
}

/// A requirement that is a version by itself is the version to install; a range is
/// none.
pub proof fn which_requirements_name_a_version(v: Seq<char>)
    ensures
        v.len() > 0 && v[0] != '>' && v[0] != '=' ==> names_version(v),
        !names_version(seq!['>'] + v),
        !names_version(seq!['='] + v),
        !names_version(Seq::<char>::empty()),
{
    reveal_strlit(">");
    reveal_strlit("=");
    assert((seq!['>'] + v).take(1) =~= ">"@);
    assert((seq!['='] + v).take(1) =~= "="@);
    if v.len() > 0 {
        assert(v.take(1)[0] == v[0]);
    }
}

/// A package is put in only where no installed version declares a conflict with it, and
/// none of the conflicts that it declares is with an installed package.
pub proof fn nothing_conflicting_is_installed(state: State, pkg: Seq<char>, declared: Seq<Seq<char>>)
    requires
        state.wf(),
    ensures
        complaints(state, pkg, declared).len() == 0 <==> {
            &&& forall|k: (Seq<char>, Seq<char>), d: Seq<char>|
                state.packages@.dom().contains(k) && #[trigger] state.packages@[k].conflicts_with.contains(d)
                    ==> pkg_ver(d).0 != pkg
            &&& forall|i: int|
                0 <= i < declared.len() ==> !state.packages.has_package(
                    (#[trigger] pkg_ver(declared[i])).0,
                )
        },
{
    no_complaint_means_no_conflict(state.packages, pkg, declared);
    if forall|k: (Seq<char>, Seq<char>)| #[trigger]
        state.packages@.dom().contains(k) ==> !depends_on_package(state.packages@[k].conflicts_with, pkg) {
        assert forall|k: (Seq<char>, Seq<char>), d: Seq<char>|
            state.packages@.dom().contains(k) && #[trigger] state.packages@[k].conflicts_with.contains(d) implies pkg_ver(
            d,
        ).0 != pkg by {
            assert(!depends_on_package(state.packages@[k].conflicts_with, pkg));
        }
    }
    if forall|k: (Seq<char>, Seq<char>), d: Seq<char>|
        state.packages@.dom().contains(k) && #[trigger] state.packages@[k].conflicts_with.contains(d) ==> pkg_ver(
            d,
        ).0 != pkg {
        assert forall|k: (Seq<char>, Seq<char>)| #[trigger] state.packages@.dom().contains(k) implies !depends_on_package(
            state.packages@[k].conflicts_with,
            pkg,
        ) by {
            if depends_on_package(state.packages@[k].conflicts_with, pkg) {
                let d = choose|d: Seq<char>|
                    state.packages@[k].conflicts_with.contains(d) && (#[trigger] pkg_ver(d)).0 == pkg;
                assert(state.packages@[k].conflicts_with.contains(d));
            }
        }
    }
}

/// The first of two lists that are merged comes first and unchanged, and nothing of the
/// second comes twice.
pub proof fn merged_keeps_its_own(own: Seq<Seq<char>>, more: Seq<Seq<char>>)
    ensures
        merged(own, more).len() >= own.len(),
        merged(own, more).take(own.len() as int) == own,
        own.no_duplicates() ==> merged(own, more).no_duplicates(),
    decreases more.len(),
{
    if more.len() == 0 {
        assert(own.take(own.len() as int) =~= own);
    } else {
        merged_keeps_its_own(own, more.drop_last());
        let rest = merged(own, more.drop_last());
        let x = more.last();
        if !rest.contains(x) {
            assert((rest + seq![x]).take(own.len() as int) =~= rest.take(own.len() as int));
            if own.no_duplicates() {
                let all = rest + seq![x];
                assert forall|i: int, j: int| 0 <= i < all.len() && 0 <= j < all.len() && i != j implies all[i]
                    != all[j] by {
                    if i < rest.len() {
                        assert(rest.contains(rest[i]));
                    }
                    if j < rest.len() {
                        assert(rest.contains(rest[j]));
                    }
                }
            }
        }
    }
}

/// The last part of a path is what stands behind its last slash.
pub proof fn name_is_behind_the_last_slash(dir: Seq<char>, name: Seq<char>)
    requires
        !name.contains('/'),
    ensures
        file_name(dir + "/"@ + name) == name,
        file_name(name) == name,
{
    reveal_strlit("/");
    assert("/"@ =~= seq!['/']);
    let k = CharClass::Is('/');
    assert forall|i: int| 0 <= i < name.len() implies !k.has(#[trigger] name[i]) by {
        assert(name.contains(name[i]));
    }
    split_extends(dir, '/', name, k);
    assert(dir + "/"@ + name =~= dir.push('/') + name);
}

/// A program that is neither below `bin` nor at the top is the first of the files that has
/// its name; where the manifest names a place that is there, it is that.
pub proof fn where_a_program_is(files: Seq<Seq<char>>, bin: Seq<char>, manifest: Manifest, in_bin: bool, at_top: bool)
    ensures
        binary_place(true, at_top, files, bin) == Some("bin/"@ + bin),
        binary_place(false, true, files, bin) == Some(bin),
        match binary_place(false, false, files, bin) {
            Some(p) => exists|i: int|
                0 <= i < files.len() && #[trigger] files[i] == p && file_name(p) == bin && forall|j: int|
                    0 <= j < i ==> file_name(#[trigger] files[j]) != bin,
            None => forall|j: int| 0 <= j < files.len() ==> file_name(#[trigger] files[j]) != bin,
        },
        pair_value(map_pairs(manifest.bin_paths), bin) is Some ==> bin_place(
            manifest,
            bin,
            true,
            in_bin,
            at_top,
            files,
        ) == pair_value(map_pairs(manifest.bin_paths), bin),
        bin_place(manifest, bin, false, in_bin, at_top, files) == binary_place(in_bin, at_top, files, bin),
        pair_value(map_pairs(manifest.bin_paths), bin) is None ==> bin_place(
            manifest,
            bin,
            true,
            in_bin,
            at_top,
            files,
        ) == binary_place(in_bin, at_top, files, bin),
{
    first_named_is(files, bin);
}

proof fn first_named_is(files: Seq<Seq<char>>, name: Seq<char>)
    ensures
        match first_named(files, name) {
            Some(p) => exists|i: int|
                0 <= i < files.len() && #[trigger] files[i] == p && file_name(p) == name && forall|j: int|
                    0 <= j < i ==> file_name(#[trigger] files[j]) != name,
            None => forall|j: int| 0 <= j < files.len() ==> file_name(#[trigger] files[j]) != name,
        },
    decreases files.len(),
{
    if files.len() > 0 {
        let t = files.drop_first();
        if file_name(files[0]) == name {
            assert(files[0] == files[0]);
        } else {
            first_named_is(t, name);
            match first_named(t, name) {
                Some(p) => {
                    let i = choose|i: int|
                        0 <= i < t.len() && #[trigger] t[i] == p && file_name(p) == name && forall|j: int|
                            0 <= j < i ==> file_name(#[trigger] t[j]) != name;
                    assert(files[i + 1] == p);
                    assert forall|j: int| 0 <= j < i + 1 implies file_name(#[trigger] files[j]) != name by {
                        if j > 0 {
                            assert(t[j - 1] == files[j]);
                        }
                    }
                },
                None => {
                    assert forall|j: int| 0 <= j < files.len() implies file_name(#[trigger] files[j])
                        != name by {
                        if j > 0 {
                            assert(t[j - 1] == files[j]);
                        }
                    }
                },
            }
        }
    }
}

/// A program is made executable where it will be started from, and everywhere else that
/// its name stands in the usual places.
pub proof fn program_is_made_executable(
    manifest: Manifest,
    bin: Seq<char>,
    explicit_exists: bool,
    in_bin: bool,
    at_top: bool,
    files: Seq<Seq<char>>,
)
    ensures
        bin_place(manifest, bin, explicit_exists, in_bin, at_top, files) matches Some(p) ==> marked_files(
            manifest,
            bin,
            explicit_exists,
            in_bin,
            at_top,
            files,
        ).contains(p),
        !explicit_exists && in_bin ==> marked_files(manifest, bin, explicit_exists, in_bin, at_top, files).contains(
            "bin/"@ + bin,
        ),
        !explicit_exists && at_top ==> marked_files(manifest, bin, explicit_exists, in_bin, at_top, files).contains(
            bin,
        ),
{
    let s = marked_files(manifest, bin, explicit_exists, in_bin, at_top, files);
    let explicit = pair_value(map_pairs(manifest.bin_paths), bin);
    if explicit is Some && explicit_exists {
        assert(s[0] == explicit->0);
    } else {
        if in_bin {
            assert(s[0] == "bin/"@ + bin);
        }
        if at_top {
            assert(s[if in_bin {
                1int
            } else {
                0
            }] == bin);
        }
        if let Some(p) = binary_place(in_bin, at_top, files, bin) {
            assert(s[s.len() - 1] == p);
        }
    }
}

/// The files of a package other than its manifest are those whose last part is another
/// name, in their order.
pub proof fn manifests_are_left_out(a: Seq<Seq<char>>, b: Seq<Seq<char>>, f: Seq<char>)
    ensures
        without_manifests(a + b) == without_manifests(a) + without_manifests(b),
        without_manifests(a).contains(f) <==> a.contains(f) && file_name(f) != "info.hk"@,
    decreases a.len() + b.len(),
{
    if b.len() > 0 {
        manifests_are_left_out(a, b.drop_last(), f);
        assert((a + b).drop_last() =~= a + b.drop_last());
        assert((a + b).last() == b.last());
        assert(without_manifests(a + b) =~= without_manifests(a) + without_manifests(b));
    } else {
        assert(a + b =~= a);
        assert(without_manifests(a + b) =~= without_manifests(a) + without_manifests(b));
        if a.len() > 0 {
            let t = a.drop_last();
            manifests_are_left_out(t, b, f);
            assert(a =~= t.push(a.last()));
            lemma_seq_contains_after_push(t, a.last(), f);
            lemma_seq_concat_contains_all_elements(without_manifests(t), seq![a.last()], f);
            assert(seq![a.last()][0] == a.last());
        }
    }
}

/// Of each dependency is recorded its name with the version of it that is in use, or the
/// name alone where none is; and nothing else is recorded.
pub proof fn every_dependency_is_recorded(
    deps: Seq<(Seq<char>, Seq<char>)>,
    current: Map<Seq<char>, Seq<char>>,
    x: Seq<char>,
)
    ensures
        dependency_keys(deps, current).contains(x) <==> exists|i: int|
            0 <= i < deps.len() && x == (if current.dom().contains((#[trigger] deps[i]).0) {
                deps[i].0 + "@"@ + current[deps[i].0]
            } else {
                deps[i].0
            }),
    decreases deps.len(),
{
    if deps.len() > 0 {
        let t = deps.drop_last();
        let last = deps[deps.len() - 1];
        every_dependency_is_recorded(t, current, x);
        assert(dependency_key(last.0, current) == (if current.dom().contains(last.0) {
            last.0 + "@"@ + current[last.0]
        } else {
            last.0
        }));
        assert(forall|i: int| 0 <= i < t.len() ==> t[i] == #[trigger] deps[i]);
        assert forall|i: int| 0 <= i < t.len() implies #[trigger] t[i] == deps[i] by {}
    }
}

/// What is recorded of a version that was installed: its checksum and time, whether it was
/// asked for, the conflicts that it declares, and that it may be updated.
pub proof fn what_is_recorded_of_an_install(
    manifest: Manifest,
    checksum: Seq<char>,
    manually_installed: bool,
    current: Map<Seq<char>, Seq<char>>,
    now: u64,
    x: Seq<char>,
)
    ensures
        ({
            let info = installed_info(manifest, checksum, manually_installed, current, now);
            &&& info.checksum == checksum && info.installed_at == now
            &&& info.manually_installed == manually_installed && !info.pinned
            &&& info.conflicts_with.contains(x) <==> strs(manifest.conflicts@).contains(x)
            &&& info.depends_on == dependency_keys(map_pairs(manifest.deps), current)
        }),
{
}

/// What is downloaded is unpacked as its address says: with `tar` where that holds `.tar.`
/// or ends in `.tgz`, with `unzip` where it ends in `.zip`, and else not at all.
pub proof fn address_tells_the_kind(url: Seq<char>)
    ensures
        download_kind(url) == Download::Tar <==> occurs(url, ".tar."@) || has_suffix(url, ".tgz"@),
        download_kind(url) == Download::Zip <==> has_suffix(url, ".zip"@) && !occurs(url, ".tar."@),
        download_kind(url) == Download::Plain <==> !has_suffix(url, ".zip"@) && !has_suffix(url, ".tgz"@)
            && !occurs(url, ".tar."@),
{
    reveal_strlit(".zip");
    reveal_strlit(".tgz");
    if has_suffix(url, ".zip"@) && has_suffix(url, ".tgz"@) {
        assert(".zip"@[1] == 'z' && ".tgz"@[1] == 't');
        assert(url.skip(url.len() - 4) == ".zip"@);
    }
}

/// The program that a package is started by is its first, or one of the name of the package
/// where it lists none; and it goes to the place that is given, or below `bin`.
pub proof fn what_a_package_is_started_by(bins: Seq<Seq<char>>, pkg: Seq<char>, place: Seq<char>)
    ensures
        bins.len() > 0 ==> main_bin(bins, pkg) == bins[0],
        bins.len() == 0 ==> main_bin(bins, pkg) == pkg,
        place.len() > 0 ==> install_place(place, pkg) == place,
        install_place(Seq::empty(), pkg) == "bin/"@ + pkg,
        classic_commands(true, bins) == seq!["./build.info"@],
        classic_commands(false, bins) == bins,
        has_prefix(build_script(bins), "#!/bin/sh\nset -e\n"@),
        has_suffix(build_script(bins), join_with(bins, "\n"@)),
{
    let a = "#!/bin/sh\nset -e\n"@;
    let b = join_with(bins, "\n"@);
    assert((a + b).take(a.len() as int) =~= a);
    assert((a + b).skip((a + b).len() - b.len()) =~= b);
}

/// Each path stands on a line of its own, in its order.
pub proof fn paths_stand_on_lines(first: Seq<char>, paths: Seq<Seq<char>>, p: Seq<char>)
    ensures
        indented(first, paths.push(p)) == indented(first, paths) + "\n    "@ + p,
        indented(first, Seq::empty()) == first,
{
    assert(paths.push(p).drop_last() =~= paths);
}

} // verus!
