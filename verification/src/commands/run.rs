//! Running programs of packages, and choosing the version that is in use.
use vstd::prelude::*;

use crate::state::{State, StateError, WrapperNames, wrapper_key};
use crate::text::{cat, cat3, cat5, join_strings, join_with, push_text, split_by, split_class, split_extends, strs, CharClass};

verus! {

// ---------------------------------------------------------------------------
// Running
// ---------------------------------------------------------------------------

/// The package and the version that a specification names: its first part, and
/// its second where it has one.
pub open spec fn run_parts(spec: Seq<char>) -> (Seq<char>, Option<Seq<char>>) {
    let parts = split_by(spec, CharClass::Is('@'));
    (
        parts[0],
        if parts.len() > 1 {
            Some(parts[1])
        } else {
            None
        },
    )
}

/// The package and the version that a specification names.
pub fn split_run_spec(spec: &str) -> (r: (String, Option<String>))
    ensures
        r.0@ == run_parts(spec@).0,
        match r.1 {
            Some(v) => run_parts(spec@).1 == Some(v@),
            None => run_parts(spec@).1 is None,
        },
{
    let parts = split_class(spec, CharClass::Is('@'));
    let ghost all = strs(parts@);
    assert(all.len() == parts@.len());
    assert(all[0] == parts@[0]@);
    if parts.len() > 1 {
        assert(all[1] == parts@[1]@);
        (parts[0].clone(), Some(parts[1].clone()))
    } else {
        (parts[0].clone(), None)
    }
}

/// Where a version of a package is kept, or why it cannot be run. `store` ends
/// with a separator; `version_exists` tells whether the version that is asked
/// for is there, and `current` is the one that is in use.
pub fn run_path(
    state: &State,
    store: &str,
    package: &str,
    version: &Option<String>,
    version_exists: bool,
    current: &Option<String>,
) -> (r: Result<String, String>)
    requires
        state.wf(),
    ensures
        if !state.packages.has_package(package@) {
            r matches Err(m) && m@ == "Package '"@ + package@
                + "' is not installed. Install with: hpm install "@ + package@
        } else {
            match version {
                Some(v) => if version_exists {
                    r matches Ok(p) && p@ == store@ + package@ + "/"@ + v@
                } else {
                    r matches Err(m) && m@ == "Version "@ + v@ + " of package '"@ + package@
                        + "' is not installed"@
                },
                None => match current {
                    Some(c) => r matches Ok(p) && p@ == store@ + package@ + "/"@ + c@,
                    None => r matches Err(m) && m@ == "No current version set for package '"@ + package@
                        + "'"@,
                },
            }
        },
{
    if !state.packages.contains(package) {
        let mut m = cat3("Package '", package, "' is not installed. Install with: hpm install ");
        m.append(package);
        return Err(m);
    }
    match version {
        Some(v) => {
            if version_exists {
                let mut p = cat3(store, package, "/");
                p.append(v.as_str());
                Ok(p)
            } else {
                Err(cat5("Version ", v.as_str(), " of package '", package, "' is not installed"))
            }
        },
        None => match current {
            Some(c) => {
                let mut p = cat3(store, package, "/");
                p.append(c.as_str());
                Ok(p)
            },
            None => Err(cat3("No current version set for package '", package, "'")),
        },
    }
}

/// Paths, each with spaces before it.
pub open spec fn shifted(files: Seq<Seq<char>>) -> Seq<Seq<char>> {
    files.map_values(|f: Seq<char>| "    "@ + f)
}

/// The text for a program that a package does not hold, given the files that it
/// does hold.
pub fn missing_program_message(bin: &str, package: &str, files: &Vec<String>) -> (r: String)
    ensures
        r@ == (if files@.len() == 0 {
            "Package '"@ + package@ + "' store is empty. Try reinstalling: sudo hpm install "@ + package@
        } else {
            "Binary '"@ + bin@ + "' not found in package '"@ + package@
                + "'.\n  Files installed:\n"@ + join_with(shifted(strs(files@)), "\n"@)
                + "\n  Hint: check 'bins' field in info.hk matches the actual binary name."@
        }),
{
    if files.len() == 0 {
        let mut m = cat3("Package '", package, "' store is empty. Try reinstalling: sudo hpm install ");
        m.append(package);
        return m;
    }
    let mut out: Vec<String> = Vec::new();
    let ghost all = shifted(strs(files@));
    let mut i: usize = 0;
    assert(strs(out@) =~= all.take(0));
    while i < files.len()
        invariant
            i <= files@.len(),
            all == shifted(strs(files@)),
            strs(out@) == all.take(i as int),
        decreases files@.len() - i,
    {
        let f = cat("    ", files[i].as_str());
        assert(all[i as int] == f@);
        assert(all.take(i + 1) =~= all.take(i as int) + seq![f@]);
        push_text(&mut out, f);
        i = i + 1;
    }
    assert(all.take(all.len() as int) =~= all);
    let list = join_strings(&out, "\n");
    let mut m = cat5("Binary '", bin, "' not found in package '", package, "'.\n  Files installed:\n");
    m.append(list.as_str());
    m.append("\n  Hint: check 'bins' field in info.hk matches the actual binary name.");
    m
}

// ---------------------------------------------------------------------------
// Switching
// ---------------------------------------------------------------------------

/// Checks that a version can be put to use: it is installed.
pub fn switch_version(state: &State, package: &str, version: &str) -> (r: Result<(), String>)
    requires
        state.wf(),
    ensures
        if !state.packages.has_package(package@) {
            r matches Err(m) && m@ == "Package "@ + package@ + " not installed"@
        } else if !state.packages@.dom().contains((package@, version@)) {
            r matches Err(m) && m@ == "Version "@ + version@ + " of package "@ + package@
                + " not installed"@
        } else {
            r is Ok
        },
{
    match state.find_installed(package, version) {
        Ok(_) => Ok(()),
        Err(StateError::PackageNotInstalled) => Err(cat3("Package ", package, " not installed")),
        Err(StateError::VersionNotInstalled) => Err(
            cat5("Version ", version, " of package ", package, " not installed"),
        ),
    }
}

/// The name under which the wrapper of a program is written: the one that was
/// chosen for it, or its own.
pub open spec fn chosen_wrapper(names: Map<Seq<char>, Seq<char>>, package: Seq<char>, bin: Seq<char>) -> Seq<char> {
    let key = wrapper_key(package, bin);
    if names.dom().contains(key) {
        names[key]
    } else {
        bin
    }
}

/// The name under which the wrapper of a program is written.
pub fn wrapper_name(names: &WrapperNames, package: &str, bin: &str) -> (r: String)
    requires
        names.wf(),
    ensures
        r@ == chosen_wrapper(names@, package@, bin@),
{
    match names.get(package, bin) {
        Some(n) => n.clone(),
        None => bin.to_owned(),
    }
}

// ---------------------------------------------------------------------------
// Laws
// ---------------------------------------------------------------------------

/// A name, an at sign and a version name that version of the package; a name alone names
/// no version.
pub proof fn what_is_run(name: Seq<char>, version: Seq<char>)
    requires
        !name.contains('@'),
        !version.contains('@'),
    ensures
        run_parts(name + "@"@ + version) == (name, Some(version)),
        run_parts(name) == (name, None::<Seq<char>>),
{
    reveal_strlit("@");
    assert("@"@ =~= seq!['@']);
    let k = CharClass::Is('@');
    assert forall|i: int| 0 <= i < name.len() implies !k.has(#[trigger] name[i]) by {
        assert(name.contains(name[i]));
    }
    assert forall|i: int| 0 <= i < version.len() implies !k.has(#[trigger] version[i]) by {
        assert(version.contains(version[i]));
    }
    split_extends(name, '@', version, k);
    split_extends(version, '@', name, k);
    assert(name + "@"@ + version =~= name.push('@') + version);
}

/// A wrapper is written under the name that was chosen for its program, or else under the
/// program's own.
pub proof fn chosen_name_counts(
    names: Map<Seq<char>, Seq<char>>,
    package: Seq<char>,
    bin: Seq<char>,
    chosen: Seq<char>,
)
    ensures
        chosen_wrapper(names.insert(package + ":"@ + bin, chosen), package, bin) == chosen,
        !names.dom().contains(package + ":"@ + bin) ==> chosen_wrapper(names, package, bin) == bin,
{
}

} // verus!
