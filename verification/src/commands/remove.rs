//! Removing packages.
use vstd::prelude::*;
use vstd::seq_lib::lemma_seq_concat_contains_all_elements;

use crate::commands::install::{spec_parts, split_spec};
use crate::hooks::HookKind;
use crate::manifest::Manifest;
use crate::number::{decimal, to_decimal};
use crate::paths::{join, joined};
use crate::state::{dependents, versions_in, wrapper_key, State, WrapperNames};
use crate::text::{cat, cat3, cat5, push_text, same, strs};
use crate::utils::{newest, newest_is_one_of_them, newest_version};

verus! {

// ---------------------------------------------------------------------------
// What is removed
// ---------------------------------------------------------------------------

/// What is asked to be removed: one version of a package, or all of them.
#[derive(Debug)]
pub struct Removal {
    pub package: String,
    pub version: Option<String>,
}

/// Reads what is asked to be removed; the package must be installed.
pub fn parse_removal(state: &State, spec: &str) -> (r: Result<Removal, String>)
    requires
        state.wf(),
    ensures
        match r {
            Ok(x) => {
                &&& state.packages.has_package(spec_parts(spec@).0)
                &&& x.package@ == spec_parts(spec@).0
                &&& match x.version {
                    Some(v) => spec_parts(spec@).1 == Some(v@),
                    None => spec_parts(spec@).1 is None,
                }
            },
            Err(m) => !state.packages.has_package(spec_parts(spec@).0) && m@ == "Package '"@
                + spec_parts(spec@).0 + "' is not installed"@,
        },
{
    let (package, version) = split_spec(spec);
    if state.packages.contains(package.as_str()) {
        Ok(Removal { package, version })
    } else {
        Err(cat3("Package '", package.as_str(), "' is not installed"))
    }
}

/// The installed versions of other packages that would lose what they depend
/// on: none if another version of the package stays.
pub fn blocking_dependents(state: &State, removal: &Removal) -> (r: Vec<String>)
    requires
        state.wf(),
    ensures
        strs(r@) == (if removal.version is Some && versions_in(
            state.packages.all(),
            removal.package@,
        ).len() > 1 {
            Seq::empty()
        } else {
            dependents(state.packages@, removal.package@)
        }),
{
    let versions = state.packages.versions_of(removal.package.as_str());
    assert(strs(versions@).len() == versions@.len());
    if removal.version.is_some() && versions.len() > 1 {
        let none: Vec<String> = Vec::new();
        assert(strs(none@) =~= Seq::<Seq<char>>::empty());
        return none;
    }
    state.reverse_deps(removal.package.as_str())
}

/// The versions to remove.
pub fn versions_to_remove(state: &State, removal: &Removal) -> (r: Vec<String>)
    requires
        state.wf(),
    ensures
        strs(r@) == (match removal.version {
            Some(v) => seq![v@],
            None => versions_in(state.packages.all(), removal.package@),
        }),
{
    match &removal.version {
        Some(v) => {
            let mut out: Vec<String> = Vec::new();
            out.push(v.clone());
            assert(strs(out@) =~= seq![v@]);
            out
        },
        None => state.packages.versions_of(removal.package.as_str()),
    }
}

/// The name of the snapshot that is taken before packages are removed.
pub fn remove_snapshot_name(spec: &str) -> (r: String)
    ensures
        r@ == "pre-remove "@ + spec@,
{
    cat("pre-remove ", spec)
}

/// Whether no other version of a package is installed. What belongs to the
/// package as a whole, its wrappers and its place on the desktop, goes only
/// with the last version.
pub fn is_last_version(state: &State, package: &str) -> (r: bool)
    requires
        state.wf(),
    ensures
        r == (versions_in(state.packages.all(), package@).len() <= 1),
{
    let versions = state.packages.versions_of(package);
    assert(strs(versions@).len() == versions@.len());
    versions.len() <= 1
}

// ---------------------------------------------------------------------------
// What goes with it
// ---------------------------------------------------------------------------

/// The names that the wrapper of a program may have: the one that was chosen,
/// and the program's own.
pub open spec fn wrapper_names_of(
    names: Map<Seq<char>, Seq<char>>,
    package: Seq<char>,
    bin: Seq<char>,
) -> Seq<Seq<char>> {
    let key = wrapper_key(package, bin);
    if names.dom().contains(key) && names[key] != bin {
        seq![names[key], bin]
    } else {
        seq![bin]
    }
}

/// The names that the wrapper of a program may have. Each that calls the
/// package is removed with it.
pub fn wrappers_to_check(names: &WrapperNames, package: &str, bin: &str) -> (r: Vec<String>)
    requires
        names.wf(),
    ensures
        strs(r@) == wrapper_names_of(names@, package@, bin@),
{
    let mut out: Vec<String> = Vec::new();
    match names.get(package, bin) {
        Some(n) => {
            if !same(n.as_str(), bin) {
                out.push(n.clone());
            }
        },
        None => {},
    }
    out.push(bin.to_owned());
    assert(strs(out@) =~= wrapper_names_of(names@, package@, bin@));
    out
}

/// The sizes of icons that may be there.
pub open spec fn icon_sizes() -> Seq<Seq<char>> {
    seq!["16x16"@, "32x32"@, "48x48"@, "64x64"@, "128x128"@, "256x256"@, "scalable"@]
}

/// The kinds of picture files that may be there.
pub open spec fn picture_kinds() -> Seq<Seq<char>> {
    seq!["png"@, "svg"@, "xpm"@]
}

/// The places of a picture, of every kind, in a directory.
pub open spec fn picture_places(dir: Seq<char>, package: Seq<char>) -> Seq<Seq<char>> {
    picture_kinds().map_values(|k: Seq<char>| joined(dir, package + "."@ + k))
}

/// The places of icons of the first `n` sizes.
pub open spec fn icon_places(icon_dir: Seq<char>, package: Seq<char>, n: nat) -> Seq<Seq<char>>
    decreases n,
{
    if n == 0 {
        Seq::empty()
    } else {
        icon_places(icon_dir, package, (n - 1) as nat) + picture_places(
            joined(icon_dir, icon_sizes()[n - 1] + "/apps"@),
            package,
        )
    }
}

/// Every file by which a package may appear on the desktop.
pub open spec fn desktop_places(
    package: Seq<char>,
    desktop_dir: Seq<char>,
    icon_dir: Seq<char>,
    pixmap_dir: Seq<char>,
) -> Seq<Seq<char>> {
    seq![joined(desktop_dir, package + ".desktop"@)] + icon_places(icon_dir, package, 7)
        + picture_places(pixmap_dir, package)
}

fn push_pictures(out: &mut Vec<String>, dir: &str, package: &str)
    ensures
        strs(final(out)@) == strs(old(out)@) + picture_places(dir@, package@),
{
    let png = cat(package, ".png");
    let svg = cat(package, ".svg");
    let xpm = cat(package, ".xpm");
    push_text(out, join(dir, png.as_str()));
    push_text(out, join(dir, svg.as_str()));
    push_text(out, join(dir, xpm.as_str()));
    proof {
        reveal_strlit(".");
        reveal_strlit("png");
        reveal_strlit("svg");
        reveal_strlit("xpm");
        reveal_strlit(".png");
        reveal_strlit(".svg");
        reveal_strlit(".xpm");
        assert(package@ + "."@ + "png"@ =~= package@ + ".png"@);
        assert(package@ + "."@ + "svg"@ =~= package@ + ".svg"@);
        assert(package@ + "."@ + "xpm"@ =~= package@ + ".xpm"@);
        let p = picture_places(dir@, package@);
        assert(p =~= seq![joined(dir@, png@), joined(dir@, svg@), joined(dir@, xpm@)]);
        assert(strs(out@) =~= strs(old(out)@) + p);
    }
}

/// Every file by which a package may appear on the desktop. Those that are
/// there are removed with its last version.
pub fn remove_desktop_integration(package: &str, desktop_dir: &str, icon_dir: &str, pixmap_dir: &str) -> (r: Vec<String>)
    ensures
        strs(r@) == desktop_places(package@, desktop_dir@, icon_dir@, pixmap_dir@),
{
    let mut sizes: Vec<String> = Vec::new();
    sizes.push("16x16".to_owned());
    sizes.push("32x32".to_owned());
    sizes.push("48x48".to_owned());
    sizes.push("64x64".to_owned());
    sizes.push("128x128".to_owned());
    sizes.push("256x256".to_owned());
    sizes.push("scalable".to_owned());
    assert(strs(sizes@) =~= icon_sizes());
    let mut out: Vec<String> = Vec::new();
    let entry = cat(package, ".desktop");
    out.push(join(desktop_dir, entry.as_str()));
    let ghost first = seq![joined(desktop_dir@, package@ + ".desktop"@)];
    assert(strs(out@) =~= first);
    assert(first + icon_places(icon_dir@, package@, 0) =~= first);
    let mut i: usize = 0;
    while i < sizes.len()
        invariant
            i <= sizes@.len(),
            strs(sizes@) == icon_sizes(),
            strs(out@) == first + icon_places(icon_dir@, package@, i as nat),
        decreases sizes@.len() - i,
    {
        assert(strs(sizes@)[i as int] == sizes@[i as int]@);
        let sub = cat(sizes[i].as_str(), "/apps");
        let dir = join(icon_dir, sub.as_str());
        push_pictures(&mut out, dir.as_str(), package);
        proof {
            assert(strs(out@) =~= first + icon_places(icon_dir@, package@, (i + 1) as nat));
        }
        i = i + 1;
    }
    push_pictures(&mut out, pixmap_dir, package);
    out
}

// ---------------------------------------------------------------------------
// What is used next
// ---------------------------------------------------------------------------

/// What becomes of the link to the version in use.
#[derive(Debug)]
pub enum LinkStep {
    /// It stays.
    Keep,
    /// It goes: no version is left.
    Drop,
    /// It leads to another version.
    SwitchTo(String),
}

/// Decides what becomes of the link to the version in use when a version is
/// removed. `state` is the state without that version; `target` is where the
/// link leads.
pub fn relink_after_remove(state: &State, package: &str, removed: &str, target: &Option<String>) -> (r: LinkStep)
    requires
        state.wf(),
    ensures
        match target {
            Some(t) => if t@ == removed@ {
                match r {
                    LinkStep::SwitchTo(v) => newest(versions_in(state.packages.all(), package@))
                        == Some(v@),
                    LinkStep::Drop => versions_in(state.packages.all(), package@).len() == 0,
                    LinkStep::Keep => false,
                }
            } else {
                r is Keep
            },
            None => r is Keep,
        },
{
    match target {
        Some(t) => {
            if !same(t.as_str(), removed) {
                return LinkStep::Keep;
            }
            let versions = state.packages.versions_of(package);
            assert(strs(versions@).len() == versions@.len());
            match newest_version(&versions) {
                Some(v) => LinkStep::SwitchTo(v),
                None => LinkStep::Drop,
            }
        },
        None => LinkStep::Keep,
    }
}

/// The name of the directory in which the hooks of a package wait until its
/// files are gone.
pub fn hooks_staging_name(package: &str, version: &str, pid: u32) -> (r: String)
    ensures
        r@ == "hpm-post-remove-"@ + package@ + "-"@ + version@ + "-"@ + decimal(pid as nat),
{
    let n = to_decimal(pid as u64);
    let mut s = cat5("hpm-post-remove-", package, "-", version, "-");
    s.append(n.as_str());
    s
}

// ---------------------------------------------------------------------------
// Step by step
// ---------------------------------------------------------------------------

/// A step of the removal of a version.
#[derive(Debug)]
pub enum RemovalStep {
    /// Run a hook.
    RunHook(HookKind),
    /// Copy the hooks to where they outlive the files of the package. Where that
    /// fails, the hook that runs after is left out.
    KeepHooks,
    /// Remove a wrapper if it is there and calls the package.
    Wrapper(String),
    /// Remove the package from the desktop.
    Desktop,
    /// Unmount the files.
    Unmount,
    /// Remove the files.
    RemoveFiles,
    /// Remove the compressed files.
    RemoveSidecar,
    /// Take the version from what is recorded.
    Forget,
    /// See to the link to the version in use.
    Relink,
}

/// A step of the removal of a version, as a mathematical value.
#[verifier::ext_equal]
pub enum RemovalModel {
    RunHook(HookKind),
    KeepHooks,
    Wrapper(Seq<char>),
    Desktop,
    Unmount,
    RemoveFiles,
    RemoveSidecar,
    Forget,
    Relink,
}

impl View for RemovalStep {
    type V = RemovalModel;

    open spec fn view(&self) -> RemovalModel {
        match self {
            RemovalStep::RunHook(k) => RemovalModel::RunHook(*k),
            RemovalStep::KeepHooks => RemovalModel::KeepHooks,
            RemovalStep::Wrapper(n) => RemovalModel::Wrapper(n@),
            RemovalStep::Desktop => RemovalModel::Desktop,
            RemovalStep::Unmount => RemovalModel::Unmount,
            RemovalStep::RemoveFiles => RemovalModel::RemoveFiles,
            RemovalStep::RemoveSidecar => RemovalModel::RemoveSidecar,
            RemovalStep::Forget => RemovalModel::Forget,
            RemovalStep::Relink => RemovalModel::Relink,
        }
    }
}

/// Steps as mathematical values.
pub open spec fn removal_models(v: Seq<RemovalStep>) -> Seq<RemovalModel> {
    v.map_values(|s: RemovalStep| s@)
}

/// What is known of a version that is removed.
#[derive(Debug)]
pub struct RemovalFacts {
    /// What it says of itself, where that can be read.
    pub manifest: Option<Manifest>,
    /// Whether it has a hook that runs before.
    pub has_pre_hook: bool,
    /// Whether it has a hook that runs after.
    pub has_post_hook: bool,
    /// Whether no other version of the package is installed.
    pub is_last: bool,
}

/// The steps about the wrappers of programs.
pub open spec fn wrapper_removals(
    names: Map<Seq<char>, Seq<char>>,
    package: Seq<char>,
    bins: Seq<Seq<char>>,
) -> Seq<RemovalModel>
    decreases bins.len(),
{
    if bins.len() == 0 {
        Seq::empty()
    } else {
        wrapper_removals(names, package, bins.drop_last()) + wrapper_names_of(
            names,
            package,
            bins.last(),
        ).map_values(|n: Seq<char>| RemovalModel::Wrapper(n))
    }
}

/// A step that is taken only under a condition.
pub open spec fn removal_if(condition: bool, s: RemovalModel) -> Seq<RemovalModel> {
    if condition {
        seq![s]
    } else {
        Seq::empty()
    }
}

/// The steps for what a package shares among its versions.
pub open spec fn shared_removals(
    names: Map<Seq<char>, Seq<char>>,
    package: Seq<char>,
    manifest: Manifest,
) -> Seq<RemovalModel> {
    wrapper_removals(names, package, strs(manifest.bins@)) + removal_if(
        manifest@.is_gui || manifest@.sandbox.gui || manifest@.sandbox.full_gui,
        RemovalModel::Desktop,
    )
}

/// The steps before the files are removed.
pub open spec fn early_removals(
    names: Map<Seq<char>, Seq<char>>,
    package: Seq<char>,
    f: RemovalFacts,
) -> Seq<RemovalModel> {
    match f.manifest {
        Some(m) => removal_if(f.has_pre_hook, RemovalModel::RunHook(HookKind::PreRemove))
            + removal_if(f.has_post_hook, RemovalModel::KeepHooks) + if f.is_last {
            shared_removals(names, package, m)
        } else {
            Seq::empty()
        },
        None => Seq::empty(),
    }
}

/// The steps of the removal of a version.
pub open spec fn all_removals(
    names: Map<Seq<char>, Seq<char>>,
    package: Seq<char>,
    f: RemovalFacts,
) -> Seq<RemovalModel> {
    early_removals(names, package, f) + seq![
        RemovalModel::Unmount,
        RemovalModel::RemoveFiles,
        RemovalModel::RemoveSidecar,
        RemovalModel::Forget,
    ] + removal_if(
        f.manifest is Some && f.has_post_hook,
        RemovalModel::RunHook(HookKind::PostRemove),
    ) + seq![RemovalModel::Relink]
}

fn push_removal(out: &mut Vec<RemovalStep>, s: RemovalStep)
    ensures
        removal_models(final(out)@) == removal_models(old(out)@) + seq![s@],
{
    let ghost before = out@;
    out.push(s);
    assert(removal_models(out@) =~= removal_models(before) + seq![s@]);
}

fn push_removal_if(out: &mut Vec<RemovalStep>, condition: bool, s: RemovalStep)
    ensures
        removal_models(final(out)@) == removal_models(old(out)@) + removal_if(condition, s@),
{
    if condition {
        push_removal(out, s);
    } else {
        assert(removal_models(out@) + Seq::<RemovalModel>::empty() =~= removal_models(out@));
    }
}

fn push_wrapper_names(out: &mut Vec<RemovalStep>, list: &Vec<String>)
    ensures
        removal_models(final(out)@) == removal_models(old(out)@) + strs(list@).map_values(
            |n: Seq<char>| RemovalModel::Wrapper(n),
        ),
{
    let ghost before = removal_models(out@);
    let ghost all = strs(list@).map_values(|n: Seq<char>| RemovalModel::Wrapper(n));
    let mut i: usize = 0;
    assert(before + all.take(0) =~= before);
    while i < list.len()
        invariant
            i <= list@.len(),
            all == strs(list@).map_values(|n: Seq<char>| RemovalModel::Wrapper(n)),
            removal_models(out@) == before + all.take(i as int),
        decreases list@.len() - i,
    {
        push_removal(out, RemovalStep::Wrapper(list[i].clone()));
        assert(all[i as int] == RemovalModel::Wrapper(list@[i as int]@));
        assert(before + all.take(i + 1) =~= before + all.take(i as int) + seq![all[i as int]]);
        i = i + 1;
    }
    assert(all.take(all.len() as int) =~= all);
}

fn push_wrapper_removals(out: &mut Vec<RemovalStep>, names: &WrapperNames, package: &str, bins: &Vec<String>)
    requires
        names.wf(),
    ensures
        removal_models(final(out)@) == removal_models(old(out)@) + wrapper_removals(
            names@,
            package@,
            strs(bins@),
        ),
{
    let ghost before = removal_models(out@);
    let ghost all = strs(bins@);
    let mut i: usize = 0;
    assert(all.take(0) =~= Seq::<Seq<char>>::empty());
    assert(before + Seq::<RemovalModel>::empty() =~= before);
    while i < bins.len()
        invariant
            i <= bins@.len(),
            names.wf(),
            all == strs(bins@),
            removal_models(out@) == before + wrapper_removals(names@, package@, all.take(i as int)),
        decreases bins@.len() - i,
    {
        proof {
            let longer = all.take(i + 1);
            assert(longer.drop_last() =~= all.take(i as int));
            assert(longer.last() == bins@[i as int]@);
        }
        let list = wrappers_to_check(names, package, bins[i].as_str());
        push_wrapper_names(out, &list);
        assert(removal_models(out@) =~= before + wrapper_removals(names@, package@, all.take(i + 1)));
        i = i + 1;
    }
    assert(all.take(all.len() as int) =~= all);
}

/// The steps that remove a version of a package, in the order in which they are
/// taken.
pub fn remove_version(package: &str, facts: &RemovalFacts, names: &WrapperNames) -> (r: Vec<RemovalStep>)
    requires
        names.wf(),
    ensures
        removal_models(r@) == all_removals(names@, package@, *facts),
{
    let mut out: Vec<RemovalStep> = Vec::new();
    assert(removal_models(out@) =~= Seq::<RemovalModel>::empty());
    let mut after = false;
    match &facts.manifest {
        Some(m) => {
            push_removal_if(&mut out, facts.has_pre_hook, RemovalStep::RunHook(HookKind::PreRemove));
            push_removal_if(&mut out, facts.has_post_hook, RemovalStep::KeepHooks);
            if facts.is_last {
                push_wrapper_removals(&mut out, names, package, &m.bins);
                push_removal_if(&mut out, m.has_window(), RemovalStep::Desktop);
            }
            after = facts.has_post_hook;
        },
        None => {},
    }
    assert(removal_models(out@) =~= early_removals(names@, package@, *facts));
    push_removal(&mut out, RemovalStep::Unmount);
    push_removal(&mut out, RemovalStep::RemoveFiles);
    push_removal(&mut out, RemovalStep::RemoveSidecar);
    push_removal(&mut out, RemovalStep::Forget);
    push_removal_if(&mut out, after, RemovalStep::RunHook(HookKind::PostRemove));
    push_removal(&mut out, RemovalStep::Relink);
    assert(removal_models(out@) =~= all_removals(names@, package@, *facts));
    out
}

/// Whether a removal goes on though a step failed: that hooks cannot be kept, or
/// that one fails once the files are gone, does no harm.
pub fn removal_goes_on(step: &RemovalStep, succeeded: bool) -> (r: bool)
    ensures
        r == (succeeded || step@ is KeepHooks || step@ == RemovalModel::RunHook(HookKind::PostRemove)),
{
    if succeeded {
        return true;
    }
    match step {
        RemovalStep::KeepHooks => true,
        RemovalStep::RunHook(k) => *k == HookKind::PostRemove,
        _ => false,
    }
}

// ---------------------------------------------------------------------------
// Laws
// ---------------------------------------------------------------------------

/// The version that is used after another is removed is installed.
pub proof fn next_version_is_installed(state: State, package: Seq<char>, v: Seq<char>)
    requires
        newest(versions_in(state.packages.all(), package)) == Some(v),
    ensures
        versions_in(state.packages.all(), package).contains(v),
{
    newest_is_one_of_them(versions_in(state.packages.all(), package));
}

/// While another version of a package stays, its wrappers and its place on the
/// desktop are left alone.
pub proof fn shared_files_stay(
    names: Map<Seq<char>, Seq<char>>,
    package: Seq<char>,
    f: RemovalFacts,
    i: int,
)
    requires
        !f.is_last,
        0 <= i < all_removals(names, package, f).len(),
    ensures
        !(all_removals(names, package, f)[i] is Wrapper),
        !(all_removals(names, package, f)[i] is Desktop),
{
}

proof fn wrapper_removals_are_wrappers(
    names: Map<Seq<char>, Seq<char>>,
    package: Seq<char>,
    bins: Seq<Seq<char>>,
    i: int,
)
    requires
        0 <= i < wrapper_removals(names, package, bins).len(),
    ensures
        wrapper_removals(names, package, bins)[i] is Wrapper,
    decreases bins.len(),
{
    if bins.len() > 0 && i < wrapper_removals(names, package, bins.drop_last()).len() {
        wrapper_removals_are_wrappers(names, package, bins.drop_last(), i);
    }
}

/// The hook that runs before a removal finds the files in place, and the one
/// that runs after it finds them gone and was kept before.
pub proof fn hooks_run_around_removal(
    names: Map<Seq<char>, Seq<char>>,
    package: Seq<char>,
    f: RemovalFacts,
    i: int,
    j: int,
)
    requires
        0 <= i < all_removals(names, package, f).len(),
        0 <= j < all_removals(names, package, f).len(),
        all_removals(names, package, f)[i] is RemoveFiles,
        all_removals(names, package, f)[j] is RunHook,
    ensures
        all_removals(names, package, f)[j] == RemovalModel::RunHook(HookKind::PreRemove) ==> j < i,
        all_removals(names, package, f)[j] == RemovalModel::RunHook(HookKind::PostRemove) ==> i < j,
        all_removals(names, package, f)[j] == RemovalModel::RunHook(HookKind::PostRemove) ==> exists|
            k: int,
        | 0 <= k < i && #[trigger] all_removals(names, package, f)[k] is KeepHooks,
{
    let s = all_removals(names, package, f);
    let a = early_removals(names, package, f);
    let n = a.len();
    if i < n {
        early_is_known(names, package, f, i);
        assert(s[i] == a[i]);
    }
    assert(i == n + 1);
    if j < n {
        early_is_known(names, package, f, j);
        assert(s[j] == a[j]);
    }
    if s[j] == RemovalModel::RunHook(HookKind::PostRemove) {
        let k: int = if f.has_pre_hook {
            1
        } else {
            0
        };
        assert(a[k] is KeepHooks);
        assert(s[k] == a[k]);
    }
}

proof fn early_is_known(
    names: Map<Seq<char>, Seq<char>>,
    package: Seq<char>,
    f: RemovalFacts,
    i: int,
)
    requires
        0 <= i < early_removals(names, package, f).len(),
    ensures
        ({
            let s = early_removals(names, package, f)[i];
            s == RemovalModel::RunHook(HookKind::PreRemove) || s is KeepHooks || s is Wrapper || s is Desktop
        }),
{
    match f.manifest {
        Some(m) => {
            let h = removal_if(f.has_pre_hook, RemovalModel::RunHook(HookKind::PreRemove)) + removal_if(
                f.has_post_hook,
                RemovalModel::KeepHooks,
            );
            if i >= h.len() && f.is_last {
                let w = wrapper_removals(names, package, strs(m.bins@));
                if i - h.len() < w.len() {
                    wrapper_removals_are_wrappers(names, package, strs(m.bins@), i - h.len());
                }
            }
        },
        None => {},
    }
}

/// The wrapper of a program may have its own name or the one that was chosen for it, and
/// no other.
pub proof fn wrapper_has_own_or_chosen_name(
    names: Map<Seq<char>, Seq<char>>,
    package: Seq<char>,
    bin: Seq<char>,
    n: Seq<char>,
)
    ensures
        wrapper_names_of(names, package, bin).contains(n) <==> n == bin || (names.dom().contains(
            package + ":"@ + bin,
        ) && names[package + ":"@ + bin] == n),
{
    let s = wrapper_names_of(names, package, bin);
    assert(wrapper_key(package, bin) == package + ":"@ + bin);
    if names.dom().contains(package + ":"@ + bin) && names[package + ":"@ + bin] != bin {
        assert(s[0] == names[package + ":"@ + bin] && s[1] == bin);
    } else {
        assert(s[0] == bin);
    }
}

proof fn wrapper_removals_hold(
    names: Map<Seq<char>, Seq<char>>,
    package: Seq<char>,
    bins: Seq<Seq<char>>,
    n: Seq<char>,
)
    ensures
        wrapper_removals(names, package, bins).contains(RemovalModel::Wrapper(n)) <==> exists|i: int|
            0 <= i < bins.len() && wrapper_names_of(names, package, #[trigger] bins[i]).contains(n),
    decreases bins.len(),
{
    if bins.len() > 0 {
        let t = bins.drop_last();
        wrapper_removals_hold(names, package, t, n);
        let a = wrapper_removals(names, package, t);
        let own = wrapper_names_of(names, package, bins.last());
        let b = own.map_values(|n: Seq<char>| RemovalModel::Wrapper(n));
        let x = RemovalModel::Wrapper(n);
        lemma_seq_concat_contains_all_elements(a, b, x);
        if b.contains(x) {
            let j = choose|j: int| 0 <= j < b.len() && b[j] == x;
            assert(own[j] == n);
            assert(own.contains(n));
            assert(wrapper_names_of(names, package, bins[bins.len() - 1]).contains(n));
        }
        if own.contains(n) {
            let j = choose|j: int| 0 <= j < own.len() && own[j] == n;
            assert(b[j] == x);
        }
        if a.contains(x) {
            let i = choose|i: int|
                0 <= i < t.len() && wrapper_names_of(names, package, #[trigger] t[i]).contains(n);
            assert(bins[i] == t[i]);
        }
        if exists|i: int| 0 <= i < bins.len() && wrapper_names_of(names, package, #[trigger] bins[i]).contains(n) {
            let i = choose|i: int|
                0 <= i < bins.len() && wrapper_names_of(names, package, #[trigger] bins[i]).contains(n);
            if i < t.len() {
                assert(t[i] == bins[i]);
            }
        }
    }
}

/// A removal takes away the files, the compressed ones too, and the record, and then sees
/// to the link. It runs the hooks that there are, and with the last version it takes away
/// each name that the wrapper of one of the programs may have, and the place on the
/// desktop of a package that has a window.
pub proof fn what_a_removal_takes_away(
    names: Map<Seq<char>, Seq<char>>,
    package: Seq<char>,
    f: RemovalFacts,
    n: Seq<char>,
)
    ensures
        ({
            let s = all_removals(names, package, f);
            &&& s.contains(RemovalModel::Unmount)
            &&& s.contains(RemovalModel::RemoveFiles)
            &&& s.contains(RemovalModel::RemoveSidecar)
            &&& s.contains(RemovalModel::Forget)
            &&& s.last() == RemovalModel::Relink
            &&& s.contains(RemovalModel::RunHook(HookKind::PreRemove)) <==> f.manifest is Some && f.has_pre_hook
            &&& s.contains(RemovalModel::RunHook(HookKind::PostRemove)) <==> f.manifest is Some
                && f.has_post_hook
            &&& s.contains(RemovalModel::KeepHooks) <==> f.manifest is Some && f.has_post_hook
            &&& s.contains(RemovalModel::Desktop) <==> f.is_last && f.manifest is Some && (
            f.manifest->0.is_gui || f.manifest->0.sandbox.gui || f.manifest->0.sandbox.full_gui)
            &&& s.contains(RemovalModel::Wrapper(n)) <==> f.is_last && f.manifest is Some && exists|i: int|
                0 <= i < f.manifest->0.bins@.len() && ((#[trigger] f.manifest->0.bins@[i])@ == n || (
                names.dom().contains(package + ":"@ + f.manifest->0.bins@[i]@) && names[package + ":"@
                    + f.manifest->0.bins@[i]@] == n))
        }),
{
    let s = all_removals(names, package, f);
    let a = early_removals(names, package, f);
    let k: int = a.len() as int;
    assert(s[k] == RemovalModel::Unmount);
    assert(s[k + 1] == RemovalModel::RemoveFiles);
    assert(s[k + 2] == RemovalModel::RemoveSidecar);
    assert(s[k + 3] == RemovalModel::Forget);
    assert forall|x: RemovalModel| a.contains(x) implies #[trigger] s.contains(x) by {
        let i = choose|i: int| 0 <= i < a.len() && a[i] == x;
        assert(s[i] == x);
    }
    assert forall|x: RemovalModel| #[trigger] s.contains(x) implies a.contains(x) || x is Unmount || x is RemoveFiles
        || x is RemoveSidecar || x is Forget || x is Relink || (x == RemovalModel::RunHook(
        HookKind::PostRemove,
    ) && f.manifest is Some && f.has_post_hook) by {
        let i = choose|i: int| 0 <= i < s.len() && s[i] == x;
        if i < a.len() {
            assert(a[i] == x);
        }
    }
    if let Some(m) = f.manifest {
        let p = removal_if(f.has_pre_hook, RemovalModel::RunHook(HookKind::PreRemove));
        let q = removal_if(f.has_post_hook, RemovalModel::KeepHooks);
        let w = wrapper_removals(names, package, strs(m.bins@));
        let d = removal_if(m@.is_gui || m@.sandbox.gui || m@.sandbox.full_gui, RemovalModel::Desktop);
        if f.has_pre_hook {
            assert(p[0] == RemovalModel::RunHook(HookKind::PreRemove));
            assert(a[0] == p[0]);
        }
        if f.has_post_hook {
            assert(q[0] == RemovalModel::KeepHooks);
            assert(a[p.len() as int] == q[0]);
            assert(s[k + 4] == RemovalModel::RunHook(HookKind::PostRemove));
        }
        let base: int = (p.len() + q.len()) as int;
        if f.is_last {
            assert(a.len() == base + w.len() + d.len());
            assert forall|i: int| 0 <= i < w.len() implies #[trigger] a[base + i] == w[i] by {}
            if d.len() > 0 {
                assert(a[base + w.len()] == RemovalModel::Desktop);
            }
        }
        assert forall|x: RemovalModel| #[trigger] a.contains(x) implies x == RemovalModel::KeepHooks && f.has_post_hook
            || x == RemovalModel::RunHook(HookKind::PreRemove) && f.has_pre_hook || f.is_last && (w.contains(x)
            && x is Wrapper || x is Desktop && d.len() > 0) by {
            let i = choose|i: int| 0 <= i < a.len() && a[i] == x;
            if i >= base && i < base + w.len() {
                assert(w[i - base] == x);
                wrapper_removals_are_wrappers(names, package, strs(m.bins@), i - base);
            }
        }
        wrapper_removals_hold(names, package, strs(m.bins@), n);
        let x = RemovalModel::Wrapper(n);
        if f.is_last && w.contains(x) {
            let i = choose|i: int| 0 <= i < w.len() && w[i] == x;
            assert(a[base + i] == x);
            assert(a.contains(x));
            let j = choose|j: int|
                0 <= j < strs(m.bins@).len() && wrapper_names_of(names, package, #[trigger] strs(m.bins@)[j]).contains(n);
            wrapper_has_own_or_chosen_name(names, package, strs(m.bins@)[j], n);
            assert(m.bins@[j]@ == strs(m.bins@)[j]);
        }
        if f.is_last && exists|i: int|
            0 <= i < m.bins@.len() && ((#[trigger] m.bins@[i])@ == n || (names.dom().contains(
                package + ":"@ + m.bins@[i]@,
            ) && names[package + ":"@ + m.bins@[i]@] == n)) {
            let i = choose|i: int|
                0 <= i < m.bins@.len() && ((#[trigger] m.bins@[i])@ == n || (names.dom().contains(
                    package + ":"@ + m.bins@[i]@,
                ) && names[package + ":"@ + m.bins@[i]@] == n));
            wrapper_has_own_or_chosen_name(names, package, m.bins@[i]@, n);
            assert(strs(m.bins@)[i] == m.bins@[i]@);
            assert(w.contains(x));
        }
    }
}

/// The files of the desktop that go with a package are its entry, and its pictures of
/// each kind, in the directory of each size and in that for pictures of any size.
pub proof fn desktop_files_go(
    package: Seq<char>,
    desktop_dir: Seq<char>,
    icon_dir: Seq<char>,
    pixmap_dir: Seq<char>,
    size: Seq<char>,
    kind: Seq<char>,
)
    requires
        size == "16x16"@ || size == "32x32"@ || size == "48x48"@ || size == "64x64"@ || size == "128x128"@
            || size == "256x256"@ || size == "scalable"@,
        kind == "png"@ || kind == "svg"@ || kind == "xpm"@,
    ensures
        ({
            let s = desktop_places(package, desktop_dir, icon_dir, pixmap_dir);
            &&& s.len() == 25
            &&& s.contains(joined(desktop_dir, package + ".desktop"@))
            &&& s.contains(joined(joined(icon_dir, size + "/apps"@), package + "."@ + kind))
            &&& s.contains(joined(pixmap_dir, package + "."@ + kind))
        }),
{
    let s = desktop_places(package, desktop_dir, icon_dir, pixmap_dir);
    reveal_with_fuel(icon_places, 8);
    let a = icon_places(icon_dir, package, 7);
    let k: int = if kind == "png"@ {
        0
    } else if kind == "svg"@ {
        1
    } else {
        2
    };
    assert(picture_kinds()[k] == kind);
    let n: int = if size == "16x16"@ {
        0
    } else if size == "32x32"@ {
        1
    } else if size == "48x48"@ {
        2
    } else if size == "64x64"@ {
        3
    } else if size == "128x128"@ {
        4
    } else if size == "256x256"@ {
        5
    } else {
        6
    };
    assert(icon_sizes()[n] == size);
    icon_places_at(icon_dir, package, 7, n, k);
    assert(s[0] == joined(desktop_dir, package + ".desktop"@));
    assert(s[1 + 3 * n + k] == joined(joined(icon_dir, size + "/apps"@), package + "."@ + kind));
    assert(s[22 + k] == joined(pixmap_dir, package + "."@ + kind));
}

proof fn icon_places_at(icon_dir: Seq<char>, package: Seq<char>, count: nat, n: int, k: int)
    requires
        0 <= n < count <= 7,
        0 <= k < 3,
    ensures
        icon_places(icon_dir, package, count).len() == 3 * count,
        icon_places(icon_dir, package, count)[3 * n + k] == joined(
            joined(icon_dir, icon_sizes()[n] + "/apps"@),
            package + "."@ + picture_kinds()[k],
        ),
    decreases count,
{
    if count == 1 {
        assert(icon_places(icon_dir, package, 0).len() == 0);
    } else if n < count - 1 {
        icon_places_at(icon_dir, package, (count - 1) as nat, n, k);
    } else {
        icon_places_at(icon_dir, package, (count - 1) as nat, 0, k);
    }
}

} // verus!
