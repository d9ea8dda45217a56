//! Installing a package, step by step.
use vstd::prelude::*;
use vstd::seq_lib::lemma_seq_concat_contains_all_elements;

use crate::commands::placing::{bin_name_for_pkg, build_deb_deps, main_bin, merged, runtime_deb_deps};
use crate::config::{map_entry, map_len, map_pairs};
use crate::hooks::HookKind;
use crate::manifest::Manifest;
use crate::repo::BuildConfig;
use crate::text::strs;

verus! {

// ---------------------------------------------------------------------------
// The steps
// ---------------------------------------------------------------------------

/// A step of an installation.
#[derive(Debug)]
pub enum InstallStep {
    /// Have a package that this one depends on, in a version that will do.
    Dependency { name: String, requirement: String },
    /// Have packages of the system.
    SystemPackages(Vec<String>),
    /// Obtain what is to be installed.
    Build,
    /// See that there is something to install.
    CheckContents,
    /// Run a hook.
    RunHook(HookKind),
    /// Make an empty directory next to the place of the package.
    PrepareStaging,
    /// Copy what is to be installed to that directory.
    CopyContents,
    /// Make the programs there executable.
    MarkExecutables,
    /// Copy the manifest there.
    CopyManifest,
    /// Copy the hooks there.
    CopyHooks,
    /// Let that directory take the place of the package.
    MoveIntoPlace,
    /// Write the wrapper of a program.
    Wrapper(String),
    /// Put the package on the desktop.
    Desktop,
    /// Install what completes the command line of a program.
    Completions(String),
    /// Record that the package is installed.
    Record,
    /// Let the version be the one in use.
    Link,
    /// Compress the package where it lies.
    Compress,
}

/// A step of an installation, as a mathematical value.
#[verifier::ext_equal]
pub enum StepModel {
    Dependency { name: Seq<char>, requirement: Seq<char> },
    SystemPackages(Seq<Seq<char>>),
    Build,
    CheckContents,
    RunHook(HookKind),
    PrepareStaging,
    CopyContents,
    MarkExecutables,
    CopyManifest,
    CopyHooks,
    MoveIntoPlace,
    Wrapper(Seq<char>),
    Desktop,
    Completions(Seq<char>),
    Record,
    Link,
    Compress,
}

impl View for InstallStep {
    type V = StepModel;

    open spec fn view(&self) -> StepModel {
        match self {
            InstallStep::Dependency { name, requirement } => StepModel::Dependency {
                name: name@,
                requirement: requirement@,
            },
            InstallStep::SystemPackages(p) => StepModel::SystemPackages(strs(p@)),
            InstallStep::Build => StepModel::Build,
            InstallStep::CheckContents => StepModel::CheckContents,
            InstallStep::RunHook(k) => StepModel::RunHook(*k),
            InstallStep::PrepareStaging => StepModel::PrepareStaging,
            InstallStep::CopyContents => StepModel::CopyContents,
            InstallStep::MarkExecutables => StepModel::MarkExecutables,
            InstallStep::CopyManifest => StepModel::CopyManifest,
            InstallStep::CopyHooks => StepModel::CopyHooks,
            InstallStep::MoveIntoPlace => StepModel::MoveIntoPlace,
            InstallStep::Wrapper(b) => StepModel::Wrapper(b@),
            InstallStep::Desktop => StepModel::Desktop,
            InstallStep::Completions(b) => StepModel::Completions(b@),
            InstallStep::Record => StepModel::Record,
            InstallStep::Link => StepModel::Link,
            InstallStep::Compress => StepModel::Compress,
        }
    }
}

/// Steps as mathematical values.
pub open spec fn steps_of(v: Seq<InstallStep>) -> Seq<StepModel> {
    v.map_values(|s: InstallStep| s@)
}

fn push_step(out: &mut Vec<InstallStep>, s: InstallStep)
    ensures
        steps_of(final(out)@) == steps_of(old(out)@) + seq![s@],
{
    let ghost before = out@;
    out.push(s);
    assert(steps_of(out@) =~= steps_of(before) + seq![s@]);
}

/// A step that is taken only under a condition.
pub open spec fn step_if(condition: bool, s: StepModel) -> Seq<StepModel> {
    if condition {
        seq![s]
    } else {
        Seq::empty()
    }
}

/// One step for each package that is depended on.
pub open spec fn dependency_steps(deps: Seq<(Seq<char>, Seq<char>)>) -> Seq<StepModel> {
    deps.map_values(|d: (Seq<char>, Seq<char>)| StepModel::Dependency { name: d.0, requirement: d.1 })
}

/// One step for each program.
pub open spec fn wrapper_steps(bins: Seq<Seq<char>>) -> Seq<StepModel> {
    bins.map_values(|b: Seq<char>| StepModel::Wrapper(b))
}

/// The system packages that a package names, with those of its build
/// instructions.
pub open spec fn system_packages(own: Seq<Seq<char>>, more: Option<Seq<Seq<char>>>) -> Seq<Seq<char>> {
    match more {
        Some(m) => merged(own, m),
        None => own,
    }
}

/// The steps before anything is put in the store.
pub open spec fn first_steps(manifest: Manifest, config: Option<BuildConfig>) -> Seq<StepModel> {
    let packages = system_packages(
        strs(manifest.build.deb_deps@),
        match config {
            Some(c) => Some(strs(c.build_deps@)),
            None => None,
        },
    );
    dependency_steps(map_pairs(manifest.deps)) + step_if(
        packages.len() > 0,
        StepModel::SystemPackages(packages),
    ) + seq![StepModel::Build, StepModel::CheckContents] + step_if(
        manifest.has_hooks,
        StepModel::RunHook(HookKind::PreInstall),
    )
}

/// The steps by which the files come into the store.
pub open spec fn store_steps() -> Seq<StepModel> {
    seq![
        StepModel::PrepareStaging,
        StepModel::CopyContents,
        StepModel::MarkExecutables,
        StepModel::CopyManifest,
        StepModel::CopyHooks,
        StepModel::MoveIntoPlace,
    ]
}

/// The steps between the files' coming into the store and the record of it.
pub open spec fn later_steps(pkg: Seq<char>, manifest: Manifest, config: Option<BuildConfig>) -> Seq<StepModel> {
    let packages = system_packages(
        strs(manifest.runtime.deb_deps@),
        match config {
            Some(c) => Some(strs(c.runtime_deps@)),
            None => None,
        },
    );
    step_if(packages.len() > 0, StepModel::SystemPackages(packages)) + wrapper_steps(
        strs(manifest.bins@),
    ) + step_if(
        manifest@.is_gui || manifest@.sandbox.gui || manifest@.sandbox.full_gui,
        StepModel::Desktop,
    ) + seq![StepModel::Completions(main_bin(strs(manifest.bins@), pkg))] + step_if(
        manifest.has_hooks,
        StepModel::RunHook(HookKind::PostInstall),
    )
}

/// The steps of an installation.
pub open spec fn all_steps(pkg: Seq<char>, manifest: Manifest, config: Option<BuildConfig>) -> Seq<StepModel> {
    first_steps(manifest, config) + store_steps() + later_steps(pkg, manifest, config) + seq![
        StepModel::Record,
        StepModel::Link,
        StepModel::Compress,
    ]
}

fn push_dependencies(out: &mut Vec<InstallStep>, manifest: &Manifest)
    ensures
        steps_of(final(out)@) == steps_of(old(out)@) + dependency_steps(map_pairs(manifest.deps)),
{
    let ghost before = steps_of(out@);
    let ghost all = dependency_steps(map_pairs(manifest.deps));
    let n = map_len(&manifest.deps);
    let mut i: usize = 0;
    assert(before + all.take(0) =~= before);
    while i < n
        invariant
            i <= n,
            n == map_pairs(manifest.deps).len(),
            all == dependency_steps(map_pairs(manifest.deps)),
            steps_of(out@) == before + all.take(i as int),
        decreases n - i,
    {
        let (name, req) = map_entry(&manifest.deps, i);
        push_step(out, InstallStep::Dependency { name: name.clone(), requirement: req.clone() });
        assert(before + all.take(i + 1) =~= before + all.take(i as int) + seq![all[i as int]]);
        i = i + 1;
    }
    assert(all.take(all.len() as int) =~= all);
}

fn push_wrappers(out: &mut Vec<InstallStep>, bins: &Vec<String>)
    ensures
        steps_of(final(out)@) == steps_of(old(out)@) + wrapper_steps(strs(bins@)),
{
    let ghost before = steps_of(out@);
    let ghost all = wrapper_steps(strs(bins@));
    let mut i: usize = 0;
    assert(before + all.take(0) =~= before);
    while i < bins.len()
        invariant
            i <= bins@.len(),
            all == wrapper_steps(strs(bins@)),
            steps_of(out@) == before + all.take(i as int),
        decreases bins@.len() - i,
    {
        push_step(out, InstallStep::Wrapper(bins[i].clone()));
        assert(before + all.take(i + 1) =~= before + all.take(i as int) + seq![all[i as int]]);
        i = i + 1;
    }
    assert(all.take(all.len() as int) =~= all);
}

fn push_packages(out: &mut Vec<InstallStep>, packages: Vec<String>)
    ensures
        steps_of(final(out)@) == steps_of(old(out)@) + step_if(
            packages@.len() > 0,
            StepModel::SystemPackages(strs(packages@)),
        ),
{
    if packages.len() > 0 {
        push_step(out, InstallStep::SystemPackages(packages));
    } else {
        assert(steps_of(out@) + Seq::<StepModel>::empty() =~= steps_of(out@));
    }
}

fn push_step_if(out: &mut Vec<InstallStep>, condition: bool, s: InstallStep)
    ensures
        steps_of(final(out)@) == steps_of(old(out)@) + step_if(condition, s@),
{
    if condition {
        push_step(out, s);
    } else {
        assert(steps_of(out@) + Seq::<StepModel>::empty() =~= steps_of(out@));
    }
}

/// The steps that install a package, in the order in which they are taken.
pub fn install_steps(pkg_name: &str, manifest: &Manifest, config: &Option<BuildConfig>) -> (r: Vec<InstallStep>)
    ensures
        steps_of(r@) == all_steps(pkg_name@, *manifest, *config),
{
    let mut out: Vec<InstallStep> = Vec::new();
    assert(steps_of(out@) =~= Seq::<StepModel>::empty());
    push_dependencies(&mut out, manifest);
    let build = build_deb_deps(manifest, config);
    assert(strs(build@).len() == build@.len());
    push_packages(&mut out, build);
    push_step(&mut out, InstallStep::Build);
    push_step(&mut out, InstallStep::CheckContents);
    push_step_if(&mut out, manifest.has_hooks, InstallStep::RunHook(HookKind::PreInstall));
    assert(steps_of(out@) =~= first_steps(*manifest, *config));
    push_step(&mut out, InstallStep::PrepareStaging);
    push_step(&mut out, InstallStep::CopyContents);
    push_step(&mut out, InstallStep::MarkExecutables);
    push_step(&mut out, InstallStep::CopyManifest);
    push_step(&mut out, InstallStep::CopyHooks);
    push_step(&mut out, InstallStep::MoveIntoPlace);
    let ghost stored = first_steps(*manifest, *config) + store_steps();
    assert(steps_of(out@) =~= stored);
    let runtime = runtime_deb_deps(manifest, config);
    assert(strs(runtime@).len() == runtime@.len());
    push_packages(&mut out, runtime);
    push_wrappers(&mut out, &manifest.bins);
    push_step_if(&mut out, manifest.has_window(), InstallStep::Desktop);
    push_step(&mut out, InstallStep::Completions(bin_name_for_pkg(manifest, pkg_name)));
    push_step_if(&mut out, manifest.has_hooks, InstallStep::RunHook(HookKind::PostInstall));
    assert(steps_of(out@) =~= stored + later_steps(pkg_name@, *manifest, *config));
    push_step(&mut out, InstallStep::Record);
    push_step(&mut out, InstallStep::Link);
    push_step(&mut out, InstallStep::Compress);
    assert(steps_of(out@) =~= all_steps(pkg_name@, *manifest, *config));
    out
}

// ---------------------------------------------------------------------------
// Taking them
// ---------------------------------------------------------------------------

/// What follows a step.
#[derive(Debug)]
pub enum NextStep {
    /// Take another step.
    Take(usize),
    /// Remove the directory that was made next to the place of the package, and
    /// give up.
    RemoveStagingAndStop,
    /// Give up.
    Stop,
    /// The package is installed.
    Finished,
}

/// Whether it does no harm that a step fails: that a package cannot be
/// compressed, or that the hook fails that runs after it has been put in place.
pub open spec fn harmless(s: StepModel) -> bool {
    s is Compress || (s matches StepModel::RunHook(k) && !(k is PreInstall || k is PreRemove))
}

/// Whether an installation goes on after a step.
pub open spec fn goes_on(s: StepModel, succeeded: bool) -> bool {
    succeeded || harmless(s)
}

/// Whether a step fills the directory next to the place of the package.
pub open spec fn fills_staging(s: StepModel) -> bool {
    s is CopyContents || s is MarkExecutables || s is CopyManifest || s is CopyHooks
}

/// Decides what follows a step.
pub fn next_step(steps: &Vec<InstallStep>, at: usize, succeeded: bool) -> (r: NextStep)
    requires
        at < steps@.len(),
    ensures
        match r {
            NextStep::Take(i) => goes_on(steps@[at as int]@, succeeded) && i == at + 1 && i < steps@.len(),
            NextStep::Finished => goes_on(steps@[at as int]@, succeeded) && at + 1 == steps@.len(),
            NextStep::RemoveStagingAndStop => !goes_on(steps@[at as int]@, succeeded) && fills_staging(
                steps@[at as int]@,
            ),
            NextStep::Stop => !goes_on(steps@[at as int]@, succeeded) && !fills_staging(
                steps@[at as int]@,
            ),
        },
{
    let no_harm = match &steps[at] {
        InstallStep::Compress => true,
        InstallStep::RunHook(kind) => !kind.blocks_on_failure(),
        _ => false,
    };
    if succeeded || no_harm {
        if at < steps.len() - 1 {
            return NextStep::Take(at + 1);
        }
        return NextStep::Finished;
    }
    let filling = match &steps[at] {
        InstallStep::CopyContents => true,
        InstallStep::MarkExecutables => true,
        InstallStep::CopyManifest => true,
        InstallStep::CopyHooks => true,
        _ => false,
    };
    if filling {
        NextStep::RemoveStagingAndStop
    } else {
        NextStep::Stop
    }
}

/// How many steps are taken from one on, given which of them succeed.
pub open spec fn taken(s: Seq<StepModel>, ok: Seq<bool>, from: int) -> int
    decreases s.len() - from,
{
    if from >= s.len() {
        s.len() as int
    } else if goes_on(s[from], ok[from]) {
        taken(s, ok, from + 1)
    } else {
        from + 1
    }
}

// ---------------------------------------------------------------------------
// Laws
// ---------------------------------------------------------------------------

proof fn taken_goes_on(s: Seq<StepModel>, ok: Seq<bool>, from: int, i: int, j: int)
    requires
        0 <= from <= j < i < taken(s, ok, from),
        from <= s.len(),
    ensures
        goes_on(s[j], ok[j]),
        i < s.len(),
    decreases s.len() - from,
{
    if from < s.len() && goes_on(s[from], ok[from]) {
        taken_in_range(s, ok, from + 1);
        if from < j {
            taken_goes_on(s, ok, from + 1, i, j);
        }
    }
}

proof fn taken_in_range(s: Seq<StepModel>, ok: Seq<bool>, from: int)
    requires
        0 <= from <= s.len(),
    ensures
        from <= taken(s, ok, from) <= s.len(),
    decreases s.len() - from,
{
    if from < s.len() && goes_on(s[from], ok[from]) {
        taken_in_range(s, ok, from + 1);
    }
}

/// A step is taken only when every step before it has succeeded, but for those
/// whose failure does no harm.
pub proof fn every_step_before_succeeded(s: Seq<StepModel>, ok: Seq<bool>, i: int, j: int)
    requires
        0 <= j < i < taken(s, ok, 0),
    ensures
        ok[j] || harmless(s[j]),
{
    taken_goes_on(s, ok, 0, i, j);
}

/// The position of the record among the steps, and what stands after it.
pub proof fn record_comes_last(pkg: Seq<char>, manifest: Manifest, config: Option<BuildConfig>)
    ensures
        ({
            let s = all_steps(pkg, manifest, config);
            let n = s.len();
            &&& n >= 3
            &&& s[n - 3] is Record
            &&& s[n - 2] is Link
            &&& s[n - 1] is Compress
            &&& forall|i: int|
                0 <= i < n - 3 ==> !(#[trigger] s[i] is Record) && !(s[i] is Link) && !(s[i] is Compress)
        }),
{
    let s = all_steps(pkg, manifest, config);
    let a = first_steps(manifest, config);
    let b = store_steps();
    let c = later_steps(pkg, manifest, config);
    assert forall|i: int| 0 <= i < s.len() - 3 implies !(#[trigger] s[i] is Record) && !(s[i] is Link)
        && !(s[i] is Compress) by {
        if i < a.len() {
            assert(s[i] == a[i]);
        } else if i < a.len() + b.len() {
            assert(s[i] == b[i - a.len()]);
        } else {
            assert(s[i] == c[i - a.len() - b.len()]);
        }
    }
}

/// A package is recorded as installed only when its files have taken their place
/// and every step before has succeeded, but for the hook that runs after that; so
/// what is recorded does not change where an installation fails.
pub proof fn recorded_only_when_in_place(
    pkg: Seq<char>,
    manifest: Manifest,
    config: Option<BuildConfig>,
    ok: Seq<bool>,
    i: int,
)
    requires
        0 <= i < taken(all_steps(pkg, manifest, config), ok, 0),
        all_steps(pkg, manifest, config)[i] is Record,
    ensures
        forall|j: int|
            0 <= j < i ==> #[trigger] ok[j] || all_steps(pkg, manifest, config)[j]
                == StepModel::RunHook(HookKind::PostInstall),
        exists|j: int| 0 <= j < i && #[trigger] all_steps(pkg, manifest, config)[j] is MoveIntoPlace,
{
    let s = all_steps(pkg, manifest, config);
    record_comes_last(pkg, manifest, config);
    taken_in_range(s, ok, 0);
    let n = s.len();
    assert(i == n - 3);
    let a = first_steps(manifest, config);
    let b = store_steps();
    let c = later_steps(pkg, manifest, config);
    assert forall|j: int| 0 <= j < i implies #[trigger] ok[j] || s[j] == StepModel::RunHook(
        HookKind::PostInstall,
    ) by {
        assert(!(s[j] is Compress));
        every_step_before_succeeded(s, ok, i, j);
        if j < a.len() {
            assert(s[j] == a[j]);
        } else if j < a.len() + b.len() {
            assert(s[j] == b[j - a.len()]);
        } else {
            assert(s[j] == c[j - a.len() - b.len()]);
        }
    }
    let at = first_steps(manifest, config).len() + 5;
    assert(s[at as int] == store_steps()[5]);
}

/// The files of a package are moved into their place only when all of them have
/// been put together.
pub proof fn moved_only_when_complete(
    pkg: Seq<char>,
    manifest: Manifest,
    config: Option<BuildConfig>,
    ok: Seq<bool>,
    i: int,
)
    requires
        0 <= i < taken(all_steps(pkg, manifest, config), ok, 0),
        all_steps(pkg, manifest, config)[i] is MoveIntoPlace,
    ensures
        forall|j: int|
            0 <= j < all_steps(pkg, manifest, config).len() && fills_staging(
                #[trigger] all_steps(pkg, manifest, config)[j],
            ) ==> j < i && ok[j],
{
    let s = all_steps(pkg, manifest, config);
    let a = first_steps(manifest, config);
    let b = store_steps();
    let c = later_steps(pkg, manifest, config);
    taken_in_range(s, ok, 0);
    if i < a.len() {
        assert(s[i] == a[i]);
    } else if i < a.len() + b.len() {
        assert(s[i] == b[i - a.len()]);
    } else if i < a.len() + b.len() + c.len() {
        assert(s[i] == c[i - a.len() - b.len()]);
    }
    assert(i == a.len() + 5);
    assert forall|j: int| 0 <= j < s.len() && fills_staging(#[trigger] s[j]) implies j < i && ok[j] by {
        if j < a.len() {
            assert(s[j] == a[j]);
        } else if j < a.len() + b.len() {
            assert(s[j] == b[j - a.len()]);
            every_step_before_succeeded(s, ok, i, j);
        } else if j < a.len() + b.len() + c.len() {
            assert(s[j] == c[j - a.len() - b.len()]);
        }
    }
}

/// What a package depends on is there before anything else is done.
pub proof fn dependencies_come_first(pkg: Seq<char>, manifest: Manifest, config: Option<BuildConfig>, i: int)
    requires
        0 <= i < map_pairs(manifest.deps).len(),
    ensures
        all_steps(pkg, manifest, config)[i] == (StepModel::Dependency {
            name: map_pairs(manifest.deps)[i].0,
            requirement: map_pairs(manifest.deps)[i].1,
        }),
{
}

/// An installation goes on after a step that failed only where that was compressing the
/// package, or a hook that runs after the fact.
pub proof fn only_these_failures_are_borne(s: StepModel)
    ensures
        goes_on(s, true),
        goes_on(s, false) <==> s is Compress || s == StepModel::RunHook(HookKind::PostInstall) || s
            == StepModel::RunHook(HookKind::PostRemove) || s == StepModel::RunHook(HookKind::PostUpdate),
{
}

/// An installation builds the package and checks what came of it, writes a wrapper for
/// each program and for nothing else, puts a package with a window on the desktop, and runs
/// the hooks of a package that has any, the one before anything is put in the store and the
/// other behind that.
pub proof fn what_an_installation_does(pkg: Seq<char>, manifest: Manifest, config: Option<BuildConfig>, b: Seq<char>)
    ensures
        ({
            let s = all_steps(pkg, manifest, config);
            &&& s.contains(StepModel::Build) && s.contains(StepModel::CheckContents)
            &&& s.contains(StepModel::CopyContents) && s.contains(StepModel::MarkExecutables)
            &&& s.contains(StepModel::CopyManifest) && s.contains(StepModel::CopyHooks)
            &&& s.contains(StepModel::Wrapper(b)) <==> strs(manifest.bins@).contains(b)
            &&& s.contains(StepModel::Desktop) <==> manifest.is_gui || manifest.sandbox.gui
                || manifest.sandbox.full_gui
            &&& s.contains(StepModel::RunHook(HookKind::PreInstall)) <==> manifest.has_hooks
            &&& s.contains(StepModel::RunHook(HookKind::PostInstall)) <==> manifest.has_hooks
        }),
{
    let s = all_steps(pkg, manifest, config);
    let a = first_steps(manifest, config);
    let c = store_steps();
    let d = later_steps(pkg, manifest, config);
    let e = seq![StepModel::Record, StepModel::Link, StepModel::Compress];
    assert(s == a + c + d + e);
    assert forall|x: StepModel| #[trigger] s.contains(x) <==> a.contains(x) || c.contains(x) || d.contains(x)
        || e.contains(x) by {
        lemma_seq_concat_contains_all_elements(a + c + d, e, x);
        lemma_seq_concat_contains_all_elements(a + c, d, x);
        lemma_seq_concat_contains_all_elements(a, c, x);
    }
    let deps = dependency_steps(map_pairs(manifest.deps));
    let sys = system_packages(
        strs(manifest.build.deb_deps@),
        match config {
            Some(c) => Some(strs(c.build_deps@)),
            None => None,
        },
    );
    let sys2 = system_packages(
        strs(manifest.runtime.deb_deps@),
        match config {
            Some(c) => Some(strs(c.runtime_deps@)),
            None => None,
        },
    );
    let a1 = step_if(sys.len() > 0, StepModel::SystemPackages(sys));
    let a2 = seq![StepModel::Build, StepModel::CheckContents];
    let a3 = step_if(manifest.has_hooks, StepModel::RunHook(HookKind::PreInstall));
    let d1 = step_if(sys2.len() > 0, StepModel::SystemPackages(sys2));
    let w = wrapper_steps(strs(manifest.bins@));
    let d2 = step_if(
        manifest@.is_gui || manifest@.sandbox.gui || manifest@.sandbox.full_gui,
        StepModel::Desktop,
    );
    let d3 = seq![StepModel::Completions(main_bin(strs(manifest.bins@), pkg))];
    let d4 = step_if(manifest.has_hooks, StepModel::RunHook(HookKind::PostInstall));
    assert forall|x: StepModel| #[trigger] a.contains(x) <==> deps.contains(x) || a1.contains(x) || a2.contains(x)
        || a3.contains(x) by {
        lemma_seq_concat_contains_all_elements(deps + a1 + a2, a3, x);
        lemma_seq_concat_contains_all_elements(deps + a1, a2, x);
        lemma_seq_concat_contains_all_elements(deps, a1, x);
    }
    assert forall|x: StepModel| #[trigger] d.contains(x) <==> d1.contains(x) || w.contains(x) || d2.contains(x)
        || d3.contains(x) || d4.contains(x) by {
        lemma_seq_concat_contains_all_elements(d1 + w + d2 + d3, d4, x);
        lemma_seq_concat_contains_all_elements(d1 + w + d2, d3, x);
        lemma_seq_concat_contains_all_elements(d1 + w, d2, x);
        lemma_seq_concat_contains_all_elements(d1, w, x);
    }
    assert(a2[0] == StepModel::Build && a2[1] == StepModel::CheckContents);
    assert(c[1] == StepModel::CopyContents && c[2] == StepModel::MarkExecutables && c[3] == StepModel::CopyManifest
        && c[4] == StepModel::CopyHooks);
    if manifest.has_hooks {
        assert(a3[0] == StepModel::RunHook(HookKind::PreInstall));
        assert(d4[0] == StepModel::RunHook(HookKind::PostInstall));
    }
    if d2.len() > 0 {
        assert(d2[0] == StepModel::Desktop);
    }
    if strs(manifest.bins@).contains(b) {
        let i = choose|i: int| 0 <= i < strs(manifest.bins@).len() && strs(manifest.bins@)[i] == b;
        assert(w[i] == StepModel::Wrapper(b));
    }
    if w.contains(StepModel::Wrapper(b)) {
        let i = choose|i: int| 0 <= i < w.len() && w[i] == StepModel::Wrapper(b);
        assert(strs(manifest.bins@)[i] == b);
    }
    assert forall|x: StepModel| #[trigger] w.contains(x) implies x is Wrapper by {
        let i = choose|i: int| 0 <= i < w.len() && w[i] == x;
    }
    assert forall|x: StepModel| #[trigger] deps.contains(x) implies x is Dependency by {
        let i = choose|i: int| 0 <= i < deps.len() && deps[i] == x;
    }
}

/// The files are put together in an empty directory and moved into place at the end: the
/// directory is made before it is filled, and filled before it is moved.
pub proof fn store_is_filled_in_order()
    ensures
        store_steps()[0] == StepModel::PrepareStaging,
        store_steps().last() == StepModel::MoveIntoPlace,
        forall|i: int| 0 < i < store_steps().len() - 1 ==> fills_staging(#[trigger] store_steps()[i]),
{
}

} // verus!
