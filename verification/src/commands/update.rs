//! Bringing installed packages up to date.
use vstd::prelude::*;
use vstd::seq_lib::lemma_seq_concat_contains_all_elements;

use crate::collections::{NameMap, NameSet};
use crate::config::{map_entry, map_get, map_len, map_pairs, pair_value};
use crate::manifest::Manifest;
use crate::number::{decimal, to_decimal};
use crate::repo::{tag_version, tag_versions, versions_of_tags, PackageVersion, RepoIndex};
use crate::state::{names_in, names_in_rows, pkg_key, join_pkg_ver, pkg_ver, split_pkg_ver, InfoModel, State};
use crate::text::{cat, cat3, cat5, is_empty_text, join_strings, join_with, push_text, same, strs};
use crate::utils::{meets, newest, newest_is_one_of_them, nothing_is_newer_than_the_newest, numeric, rank_versions, satisfies, version_rank, version_rank_flips, version_rank_reflexive, version_rank_transitive, Rank};

verus! {

// ---------------------------------------------------------------------------
// What can be updated
// ---------------------------------------------------------------------------

/// Whether a package is looked at for an update.
#[derive(Debug)]
pub enum UpdateGate {
    /// It has no version in use.
    NotInUse,
    /// The version in use is to stay.
    Pinned(String),
    /// It is not in the index.
    NotInIndex,
    /// It may be updated from the version in use; its repository is here.
    Look { current: String, url: String },
}

/// Whether the version of a package is to stay.
pub open spec fn is_pinned(m: Map<(Seq<char>, Seq<char>), InfoModel>, name: Seq<char>, version: Seq<char>) -> bool {
    m.dom().contains((name, version)) && m[(name, version)].pinned
}

/// Decides whether a package is looked at for an update.
pub fn update_gate(state: &State, index: &RepoIndex, name: &str, current: &Option<String>) -> (r: UpdateGate)
    requires
        state.wf(),
        index.wf(),
    ensures
        match current {
            None => r is NotInUse,
            Some(v) => if is_pinned(state.packages@, name@, v@) {
                r matches UpdateGate::Pinned(p) && p@ == v@
            } else if !index.packages@.dom().contains(name@) {
                r is NotInIndex
            } else {
                r matches UpdateGate::Look { current: c, url } && c@ == v@ && url@
                    == index.packages@[name@]
            },
        },
{
    match current {
        None => UpdateGate::NotInUse,
        Some(v) => {
            let pinned = match state.packages.get(name, v.as_str()) {
                Some(info) => info.pinned,
                None => false,
            };
            if pinned {
                return UpdateGate::Pinned(v.clone());
            }
            match index.url_of(name) {
                Some(u) => UpdateGate::Look { current: v.clone(), url: u.clone() },
                None => UpdateGate::NotInIndex,
            }
        },
    }
}

/// The newest of the versions that tags stand for, if it is newer than the one
/// in use.
pub open spec fn newer_tag(tags: Seq<Seq<char>>, current: Seq<char>) -> Option<Seq<char>> {
    match newest(tag_versions(tags)) {
        Some(v) => if version_rank(v, current) == Rank::After {
            Some(v)
        } else {
            None
        },
        None => None,
    }
}

/// The version to update to, given the tags of a repository.
pub fn update_target(tags: &Vec<String>, current: &str) -> (r: Option<String>)
    ensures
        match r {
            Some(v) => newer_tag(strs(tags@), current@) == Some(v@),
            None => newer_tag(strs(tags@), current@) is None,
        },
{
    let versions = versions_of_tags(tags);
    assert(tag_versions(strs(tags@)).len() == tags@.len());
    if versions.len() == 0 {
        return None;
    }
    let last = versions[versions.len() - 1].as_str();
    assert(strs(versions@).last() == last@);
    if rank_versions(last, current) == Rank::After {
        Some(last.to_owned())
    } else {
        None
    }
}

/// The last of the versions that none before it is newer than.
pub open spec fn latest_of(v: Seq<PackageVersion>) -> Option<Seq<char>>
    decreases v.len(),
{
    if v.len() == 0 {
        None
    } else {
        let x = v.last().version@;
        match latest_of(v.drop_last()) {
            Some(best) => if version_rank(best, x) == Rank::After {
                Some(best)
            } else {
                Some(x)
            },
            None => Some(x),
        }
    }
}

/// The newest version in the index, if it is newer than the one in use and that
/// one is not to stay.
pub fn outdated_target(state: &State, name: &str, current: &str, versions: &Vec<PackageVersion>) -> (r: Option<String>)
    requires
        state.wf(),
    ensures
        match r {
            Some(v) => !is_pinned(state.packages@, name@, current@) && latest_of(versions@) == Some(
                v@,
            ) && version_rank(v@, current@) == Rank::After,
            None => is_pinned(state.packages@, name@, current@) || (latest_of(versions@) matches Some(v)
                ==> version_rank(v, current@) != Rank::After),
        },
{
    let pinned = match state.packages.get(name, current) {
        Some(info) => info.pinned,
        None => false,
    };
    if pinned || versions.len() == 0 {
        return None;
    }
    let mut best: usize = 0;
    let mut i: usize = 1;
    proof {
        reveal_with_fuel(latest_of, 2);
        let one = versions@.take(1);
        assert(one.drop_last() =~= Seq::<PackageVersion>::empty());
        assert(one.last() == versions@[0]);
        assert(latest_of(one) == Some(versions@[0].version@));
    }
    while i < versions.len()
        invariant
            1 <= i <= versions@.len(),
            best < i,
            latest_of(versions@.take(i as int)) == Some(versions@[best as int].version@),
        decreases versions@.len() - i,
    {
        proof {
            let longer = versions@.take(i + 1);
            assert(longer.drop_last() =~= versions@.take(i as int));
            assert(longer.last() == versions@[i as int]);
        }
        if rank_versions(versions[best].version.as_str(), versions[i].version.as_str()) != Rank::After {
            best = i;
        }
        i = i + 1;
    }
    assert(versions@.take(versions@.len() as int) =~= versions@);
    if rank_versions(versions[best].version.as_str(), current) == Rank::After {
        Some(versions[best].version.clone())
    } else {
        None
    }
}

/// The tags of the repository of a package.
#[derive(Debug)]
pub struct KnownTags {
    pub package: String,
    pub tags: Vec<String>,
}

/// The tags of the first repository of a package.
pub open spec fn tags_known(known: Seq<KnownTags>, name: Seq<char>) -> Option<Seq<Seq<char>>>
    decreases known.len(),
{
    if known.len() == 0 {
        None
    } else if known[0].package@ == name {
        Some(strs(known[0].tags@))
    } else {
        tags_known(known.drop_first(), name)
    }
}

/// An update from one version of a package to another.
#[derive(Debug)]
pub struct FoundUpdate {
    pub package: String,
    pub old_version: String,
    pub new_version: String,
}

/// An update from one version of a package to another, as a mathematical value.
#[verifier::ext_equal]
pub struct UpdateModel {
    pub package: Seq<char>,
    pub old_version: Seq<char>,
    pub new_version: Seq<char>,
}

impl View for FoundUpdate {
    type V = UpdateModel;

    open spec fn view(&self) -> UpdateModel {
        UpdateModel {
            package: self.package@,
            old_version: self.old_version@,
            new_version: self.new_version@,
        }
    }
}

/// What is found when packages are looked at for updates.
#[derive(Debug)]
pub struct UpdateRound {
    /// What is said of packages that are left as they are.
    pub notes: Vec<String>,
    /// The updates.
    pub updates: Vec<FoundUpdate>,
}

/// Updates as mathematical values.
pub open spec fn update_models(v: Seq<FoundUpdate>) -> Seq<UpdateModel> {
    v.map_values(|u: FoundUpdate| u@)
}

/// What is said of a package that is left as it is.
pub open spec fn skip_note(
    state: State,
    index: RepoIndex,
    current: Map<Seq<char>, Seq<char>>,
    name: Seq<char>,
) -> Option<Seq<char>> {
    if !current.dom().contains(name) {
        None
    } else if is_pinned(state.packages@, name, current[name]) {
        Some(name + " pinned at "@ + current[name] + " — skipping"@)
    } else if !index.packages@.dom().contains(name) {
        Some(name + " not in index — skipping"@)
    } else {
        None
    }
}

/// The update of a package: to the newest version that a tag stands for, if that
/// is newer than the one in use.
pub open spec fn update_of(
    state: State,
    index: RepoIndex,
    current: Map<Seq<char>, Seq<char>>,
    known: Seq<KnownTags>,
    name: Seq<char>,
) -> Option<UpdateModel> {
    if !current.dom().contains(name) || is_pinned(state.packages@, name, current[name])
        || !index.packages@.dom().contains(name) {
        None
    } else {
        match tags_known(known, name) {
            Some(tags) => match newer_tag(tags, current[name]) {
                Some(v) => Some(
                    UpdateModel { package: name, old_version: current[name], new_version: v },
                ),
                None => None,
            },
            None => None,
        }
    }
}

/// What is said of those of the packages that are left as they are.
pub open spec fn skip_notes(
    state: State,
    index: RepoIndex,
    current: Map<Seq<char>, Seq<char>>,
    names: Seq<Seq<char>>,
) -> Seq<Seq<char>>
    decreases names.len(),
{
    if names.len() == 0 {
        Seq::empty()
    } else {
        let rest = skip_notes(state, index, current, names.drop_last());
        match skip_note(state, index, current, names.last()) {
            Some(n) => rest + seq![n],
            None => rest,
        }
    }
}

/// The updates of packages.
pub open spec fn updates_of(
    state: State,
    index: RepoIndex,
    current: Map<Seq<char>, Seq<char>>,
    known: Seq<KnownTags>,
    names: Seq<Seq<char>>,
) -> Seq<UpdateModel>
    decreases names.len(),
{
    if names.len() == 0 {
        Seq::empty()
    } else {
        let rest = updates_of(state, index, current, known, names.drop_last());
        match update_of(state, index, current, known, names.last()) {
            Some(u) => rest.push(u),
            None => rest,
        }
    }
}

fn find_tags(known: &Vec<KnownTags>, name: &str) -> (r: Option<usize>)
    ensures
        match r {
            Some(i) => i < known@.len() && tags_known(known@, name@) == Some(strs(known@[i as int].tags@)),
            None => tags_known(known@, name@) is None,
        },
{
    let mut i: usize = 0;
    assert(known@.skip(0) =~= known@);
    while i < known.len()
        invariant
            i <= known@.len(),
            tags_known(known@, name@) == tags_known(known@.skip(i as int), name@),
        decreases known@.len() - i,
    {
        assert(known@.skip(i as int)[0] == known@[i as int]);
        assert(known@.skip(i as int).drop_first() =~= known@.skip(i + 1));
        if same(known[i].package.as_str(), name) {
            return Some(i);
        }
        i = i + 1;
    }
    None
}

fn look_for_update(
    round: &mut UpdateRound,
    state: &State,
    index: &RepoIndex,
    current: &NameMap,
    known: &Vec<KnownTags>,
    name: &str,
)
    requires
        state.wf(),
        index.wf(),
        current.wf(),
    ensures
        strs(final(round).notes@) == (match skip_note(*state, *index, current@, name@) {
            Some(n) => strs(old(round).notes@) + seq![n],
            None => strs(old(round).notes@),
        }),
        update_models(final(round).updates@) == (match update_of(
            *state,
            *index,
            current@,
            known@,
            name@,
        ) {
            Some(u) => update_models(old(round).updates@).push(u),
            None => update_models(old(round).updates@),
        }),
{
    let in_use: Option<String> = match current.get(name) {
        Some(v) => Some(v.clone()),
        None => None,
    };
    match update_gate(state, index, name, &in_use) {
        UpdateGate::NotInUse => {},
        UpdateGate::Pinned(v) => {
            push_text(&mut round.notes, cat5(name, " pinned at ", v.as_str(), " — skipping", ""));
            proof {
                reveal_strlit("");
                assert(name@ + " pinned at "@ + v@ + " — skipping"@ + ""@ =~= name@ + " pinned at "@ + v@
                    + " — skipping"@);
            }
        },
        UpdateGate::NotInIndex => {
            push_text(&mut round.notes, cat(name, " not in index — skipping"));
        },
        UpdateGate::Look { current: v, url: _ } => match find_tags(known, name) {
            Some(i) => match update_target(&known[i].tags, v.as_str()) {
                Some(n) => {
                    let ghost before = round.updates@;
                    let u = FoundUpdate { package: name.to_owned(), old_version: v, new_version: n };
                    round.updates.push(u);
                    assert(update_models(round.updates@) =~= update_models(before).push(u@));
                },
                None => {},
            },
            None => {},
        },
    }
}

/// Looks at every installed package for an update, given the tags of those whose
/// repositories are known.
pub fn find_updates(
    state: &State,
    index: &RepoIndex,
    current: &NameMap,
    known: &Vec<KnownTags>,
) -> (r: UpdateRound)
    requires
        state.wf(),
        index.wf(),
        current.wf(),
    ensures
        strs(r.notes@) == skip_notes(*state, *index, current@, names_in(state.packages.all())),
        update_models(r.updates@) == updates_of(
            *state,
            *index,
            current@,
            known@,
            names_in(state.packages.all()),
        ),
{
    let names = state.packages.package_names();
    let ghost all = strs(names@);
    let mut round = UpdateRound { notes: Vec::new(), updates: Vec::new() };
    let mut i: usize = 0;
    assert(all.take(0) =~= Seq::<Seq<char>>::empty());
    assert(strs(round.notes@) =~= Seq::<Seq<char>>::empty());
    assert(update_models(round.updates@) =~= Seq::<UpdateModel>::empty());
    while i < names.len()
        invariant
            i <= names@.len(),
            all == strs(names@),
            state.wf(),
            index.wf(),
            current.wf(),
            strs(round.notes@) == skip_notes(*state, *index, current@, all.take(i as int)),
            update_models(round.updates@) == updates_of(
                *state,
                *index,
                current@,
                known@,
                all.take(i as int),
            ),
        decreases names@.len() - i,
    {
        proof {
            let longer = all.take(i + 1);
            assert(longer.drop_last() =~= all.take(i as int));
            assert(longer.last() == names@[i as int]@);
        }
        look_for_update(&mut round, state, index, current, known, names[i].as_str());
        i = i + 1;
    }
    assert(all.take(all.len() as int) =~= all);
    round
}

/// What is said at the end of an update.
pub fn update_summary(updated: usize, failed: &Vec<String>) -> (r: Vec<String>)
    ensures
        strs(r@) == seq!["Updated "@ + decimal(updated as nat) + " package(s)."@] + (if failed@.len()
            == 0 {
            Seq::empty()
        } else {
            seq!["Failed: "@ + join_with(strs(failed@), ", "@)]
        }),
{
    let mut out: Vec<String> = Vec::new();
    let n = to_decimal(updated as u64);
    out.push(cat3("Updated ", n.as_str(), " package(s)."));
    if failed.len() > 0 {
        let list = join_strings(failed, ", ");
        out.push(cat("Failed: ", list.as_str()));
    }
    assert(strs(out@) =~= seq!["Updated "@ + decimal(updated as nat) + " package(s)."@] + (if failed@.len()
        == 0 {
        Seq::empty()
    } else {
        seq!["Failed: "@ + join_with(strs(failed@), ", "@)]
    }));
    out
}

// ---------------------------------------------------------------------------
// Whether updates agree
// ---------------------------------------------------------------------------

/// An update that is planned, with the manifest of the new version if it can be
/// read.
#[derive(Debug)]
pub struct PlannedUpdate {
    pub package: String,
    pub old_version: String,
    pub new_version: String,
    pub manifest: Option<Manifest>,
}

/// A package whose version in use has a manifest that can be read.
#[derive(Debug)]
pub struct KnownManifest {
    pub package: String,
    pub manifest: Manifest,
}

/// A requirement in round brackets.
pub open spec fn bracketed(req: Seq<char>) -> Seq<char> {
    " ("@ + req + ")"@
}

/// What is said of a dependency of a new version that is installed in a version
/// that will not do.
pub open spec fn installed_issue(
    pkg: Seq<char>,
    new_version: Seq<char>,
    dep: Seq<char>,
    req: Seq<char>,
    current: Map<Seq<char>, Seq<char>>,
) -> Seq<Seq<char>> {
    if current.dom().contains(dep) && !meets(current[dep], req) {
        seq![
            pkg_key(pkg, new_version) + " requires "@ + dep + (if req.len() == 0 {
                Seq::empty()
            } else {
                bracketed(req)
            }) + "  but "@ + pkg_key(dep, current[dep]) + " is installed"@,
        ]
    } else {
        Seq::empty()
    }
}

/// What a package that is not updated requires of a dependency, if its version
/// in use is recorded to depend on it.
pub open spec fn other_requirement(
    m: Map<(Seq<char>, Seq<char>), InfoModel>,
    current: Map<Seq<char>, Seq<char>>,
    known: Seq<KnownManifest>,
    other: Seq<char>,
    dep: Seq<char>,
) -> Option<Seq<char>> {
    if current.dom().contains(other) && m.dom().contains((other, current[other]))
        && recorded_on(m[(other, current[other])].depends_on, dep) {
        match manifest_of_package(known, other) {
            Some(man) => pair_value(map_pairs(man.deps), dep),
            None => None,
        }
    } else {
        None
    }
}

/// Whether recorded dependencies name a package.
pub open spec fn recorded_on(deps: Set<Seq<char>>, dep: Seq<char>) -> bool {
    exists|d: Seq<char>| #[trigger] deps.contains(d) && pkg_ver(d).0 == dep
}

/// The first manifest that is known of a package.
pub open spec fn manifest_of_package(known: Seq<KnownManifest>, name: Seq<char>) -> Option<Manifest>
    decreases known.len(),
{
    if known.len() == 0 {
        None
    } else if known[0].package@ == name {
        Some(known[0].manifest)
    } else {
        manifest_of_package(known.drop_first(), name)
    }
}

/// Whether an update of a package is planned.
pub open spec fn is_planned(plan: Seq<PlannedUpdate>, name: Seq<char>) -> bool {
    exists|i: int| 0 <= i < plan.len() && (#[trigger] plan[i]).package@ == name
}

/// What is said of another package that requires something else of a dependency.
pub open spec fn other_issue(
    plan: Seq<PlannedUpdate>,
    m: Map<(Seq<char>, Seq<char>), InfoModel>,
    current: Map<Seq<char>, Seq<char>>,
    known: Seq<KnownManifest>,
    u: PlannedUpdate,
    dep: Seq<char>,
    req: Seq<char>,
    other: Seq<char>,
) -> Seq<Seq<char>> {
    if other == u.package@ || is_planned(plan, other) {
        Seq::empty()
    } else {
        match other_requirement(m, current, known, other, dep) {
            Some(theirs) => if req.len() > 0 && theirs.len() > 0 && req != theirs {
                seq![
                    pkg_key(u.package@, u.new_version@) + " requires "@ + dep + bracketed(req)
                        + " but "@ + pkg_key(other, current[other]) + " requires "@ + dep
                        + bracketed(theirs),
                ]
            } else {
                Seq::empty()
            },
            None => Seq::empty(),
        }
    }
}

/// What is said of other packages.
pub open spec fn other_issues(
    plan: Seq<PlannedUpdate>,
    m: Map<(Seq<char>, Seq<char>), InfoModel>,
    current: Map<Seq<char>, Seq<char>>,
    known: Seq<KnownManifest>,
    u: PlannedUpdate,
    dep: Seq<char>,
    req: Seq<char>,
    others: Seq<Seq<char>>,
) -> Seq<Seq<char>>
    decreases others.len(),
{
    if others.len() == 0 {
        Seq::empty()
    } else {
        other_issues(plan, m, current, known, u, dep, req, others.drop_last()) + other_issue(
            plan,
            m,
            current,
            known,
            u,
            dep,
            req,
            others.last(),
        )
    }
}

/// What is said of the dependencies of a new version.
pub open spec fn dep_issues(
    plan: Seq<PlannedUpdate>,
    state: State,
    current: Map<Seq<char>, Seq<char>>,
    known: Seq<KnownManifest>,
    u: PlannedUpdate,
    deps: Seq<(Seq<char>, Seq<char>)>,
) -> Seq<Seq<char>>
    decreases deps.len(),
{
    if deps.len() == 0 {
        Seq::empty()
    } else {
        let (dep, req) = deps.last();
        dep_issues(plan, state, current, known, u, deps.drop_last()) + installed_issue(
            u.package@,
            u.new_version@,
            dep,
            req,
            current,
        ) + other_issues(
            plan,
            state.packages@,
            current,
            known,
            u,
            dep,
            req,
            names_in(state.packages.all()),
        )
    }
}

/// What is said of the first `n` planned updates.
pub open spec fn plan_issues(
    plan: Seq<PlannedUpdate>,
    state: State,
    current: Map<Seq<char>, Seq<char>>,
    known: Seq<KnownManifest>,
    n: nat,
) -> Seq<Seq<char>>
    decreases n,
{
    if n == 0 {
        Seq::empty()
    } else {
        plan_issues(plan, state, current, known, (n - 1) as nat) + (match plan[n - 1].manifest {
            Some(man) => dep_issues(plan, state, current, known, plan[n - 1], map_pairs(man.deps)),
            None => Seq::empty(),
        })
    }
}

fn find_manifest<'a>(known: &'a Vec<KnownManifest>, name: &str) -> (r: Option<&'a Manifest>)
    ensures
        match r {
            Some(m) => manifest_of_package(known@, name@) == Some(*m),
            None => manifest_of_package(known@, name@) is None,
        },
{
    let mut i: usize = 0;
    assert(known@.skip(0) =~= known@);
    while i < known.len()
        invariant
            i <= known@.len(),
            manifest_of_package(known@, name@) == manifest_of_package(known@.skip(i as int), name@),
        decreases known@.len() - i,
    {
        assert(known@.skip(i as int)[0] == known@[i as int]);
        assert(known@.skip(i as int).drop_first() =~= known@.skip(i + 1));
        if same(known[i].package.as_str(), name) {
            return Some(&known[i].manifest);
        }
        i = i + 1;
    }
    None
}

fn names_dependency(deps: &NameSet, dep: &str) -> (r: bool)
    requires
        deps.wf(),
    ensures
        r == recorded_on(deps@, dep@),
{
    let mut i: usize = 0;
    while i < deps.len()
        invariant
            i <= deps.texts().len(),
            forall|j: int| 0 <= j < i ==> pkg_ver(#[trigger] deps.texts()[j]).0 != dep@,
        decreases deps.texts().len() - i,
    {
        let (name, _) = split_pkg_ver(deps.at(i).as_str());
        if same(name.as_str(), dep) {
            assert(deps@.contains(deps.texts()[i as int]));
            return true;
        }
        i = i + 1;
    }
    proof {
        assert forall|d: Seq<char>| #[trigger] deps@.contains(d) implies pkg_ver(d).0 != dep@ by {
            let j = choose|j: int| 0 <= j < deps.texts().len() && deps.texts()[j] == d;
            assert(pkg_ver(deps.texts()[j]).0 != dep@);
        }
    }
    false
}

fn planned(plan: &Vec<PlannedUpdate>, name: &str) -> (r: bool)
    ensures
        r == is_planned(plan@, name@),
{
    let mut i: usize = 0;
    while i < plan.len()
        invariant
            i <= plan@.len(),
            forall|j: int| 0 <= j < i ==> (#[trigger] plan@[j]).package@ != name@,
        decreases plan@.len() - i,
    {
        if same(plan[i].package.as_str(), name) {
            assert(plan@[i as int].package@ == name@);
            return true;
        }
        i = i + 1;
    }
    false
}

fn requirement_of(
    state: &State,
    current: &NameMap,
    known: &Vec<KnownManifest>,
    other: &str,
    dep: &str,
) -> (r: Option<String>)
    requires
        state.wf(),
        current.wf(),
    ensures
        match r {
            Some(t) => other_requirement(state.packages@, current@, known@, other@, dep@) == Some(t@),
            None => other_requirement(state.packages@, current@, known@, other@, dep@) is None,
        },
{
    match current.get(other) {
        Some(v) => match state.packages.get(other, v.as_str()) {
            Some(info) => {
                if !names_dependency(&info.depends_on, dep) {
                    return None;
                }
                match find_manifest(known, other) {
                    Some(m) => match map_get(&m.deps, dep) {
                        Some(t) => Some(t.clone()),
                        None => None,
                    },
                    None => None,
                }
            },
            None => None,
        },
        None => None,
    }
}

fn in_brackets(req: &str) -> (r: String)
    ensures
        r@ == bracketed(req@),
{
    cat3(" (", req, ")")
}

fn push_installed_issue(out: &mut Vec<String>, u: &PlannedUpdate, dep: &str, req: &str, current: &NameMap)
    requires
        current.wf(),
    ensures
        strs(final(out)@) == strs(old(out)@) + installed_issue(
            u.package@,
            u.new_version@,
            dep@,
            req@,
            current@,
        ),
{
    assert(strs(out@) + Seq::<Seq<char>>::empty() =~= strs(out@));
    match current.get(dep) {
        Some(v) => {
            if !satisfies(v.as_str(), req) {
                let key = join_pkg_ver(u.package.as_str(), u.new_version.as_str());
                let there = join_pkg_ver(dep, v.as_str());
                let mut s = cat3(key.as_str(), " requires ", dep);
                if is_empty_text(req) {
                    assert(s@ + Seq::<char>::empty() =~= s@);
                } else {
                    let b = in_brackets(req);
                    s.append(b.as_str());
                }
                s.append("  but ");
                s.append(there.as_str());
                s.append(" is installed");
                push_text(out, s);
            }
        },
        None => {},
    }
}

fn push_other_issue(
    out: &mut Vec<String>,
    plan: &Vec<PlannedUpdate>,
    state: &State,
    current: &NameMap,
    known: &Vec<KnownManifest>,
    u: &PlannedUpdate,
    dep: &str,
    req: &str,
    other: &str,
)
    requires
        state.wf(),
        current.wf(),
    ensures
        strs(final(out)@) == strs(old(out)@) + other_issue(
            plan@,
            state.packages@,
            current@,
            known@,
            *u,
            dep@,
            req@,
            other@,
        ),
{
    assert(strs(out@) + Seq::<Seq<char>>::empty() =~= strs(out@));
    if same(other, u.package.as_str()) || planned(plan, other) {
        return;
    }
    match requirement_of(state, current, known, other, dep) {
        Some(theirs) => {
            if !is_empty_text(req) && !is_empty_text(theirs.as_str()) && !same(req, theirs.as_str()) {
                match current.get(other) {
                    Some(v) => {
                        let key = join_pkg_ver(u.package.as_str(), u.new_version.as_str());
                        let there = join_pkg_ver(other, v.as_str());
                        let ours = in_brackets(req);
                        let them = in_brackets(theirs.as_str());
                        let mut s = cat5(key.as_str(), " requires ", dep, ours.as_str(), " but ");
                        s.append(there.as_str());
                        s.append(" requires ");
                        s.append(dep);
                        s.append(them.as_str());
                        push_text(out, s);
                    },
                    None => {},
                }
            }
        },
        None => {},
    }
}

fn push_other_issues(
    out: &mut Vec<String>,
    plan: &Vec<PlannedUpdate>,
    state: &State,
    current: &NameMap,
    known: &Vec<KnownManifest>,
    u: &PlannedUpdate,
    dep: &str,
    req: &str,
    others: &Vec<String>,
)
    requires
        state.wf(),
        current.wf(),
    ensures
        strs(final(out)@) == strs(old(out)@) + other_issues(
            plan@,
            state.packages@,
            current@,
            known@,
            *u,
            dep@,
            req@,
            strs(others@),
        ),
{
    let ghost first = strs(out@);
    let ghost all = strs(others@);
    let mut i: usize = 0;
    assert(all.take(0) =~= Seq::<Seq<char>>::empty());
    assert(first + Seq::<Seq<char>>::empty() =~= first);
    while i < others.len()
        invariant
            i <= others@.len(),
            all == strs(others@),
            state.wf(),
            current.wf(),
            strs(out@) == first + other_issues(
                plan@,
                state.packages@,
                current@,
                known@,
                *u,
                dep@,
                req@,
                all.take(i as int),
            ),
        decreases others@.len() - i,
    {
        proof {
            let longer = all.take(i + 1);
            assert(longer.drop_last() =~= all.take(i as int));
            assert(longer.last() == others@[i as int]@);
        }
        push_other_issue(out, plan, state, current, known, u, dep, req, others[i].as_str());
        assert(strs(out@) =~= first + other_issues(
            plan@,
            state.packages@,
            current@,
            known@,
            *u,
            dep@,
            req@,
            all.take(i + 1),
        ));
        i = i + 1;
    }
    assert(all.take(all.len() as int) =~= all);
}

fn push_dep_issues(
    out: &mut Vec<String>,
    plan: &Vec<PlannedUpdate>,
    state: &State,
    current: &NameMap,
    known: &Vec<KnownManifest>,
    u: &PlannedUpdate,
    man: &Manifest,
    others: &Vec<String>,
)
    requires
        state.wf(),
        current.wf(),
        strs(others@) == names_in(state.packages.all()),
    ensures
        strs(final(out)@) == strs(old(out)@) + dep_issues(
            plan@,
            *state,
            current@,
            known@,
            *u,
            map_pairs(man.deps),
        ),
{
    let ghost first = strs(out@);
    let ghost all = map_pairs(man.deps);
    let n = map_len(&man.deps);
    let mut i: usize = 0;
    assert(all.take(0) =~= Seq::<(Seq<char>, Seq<char>)>::empty());
    assert(first + Seq::<Seq<char>>::empty() =~= first);
    while i < n
        invariant
            i <= n,
            n == all.len(),
            all == map_pairs(man.deps),
            state.wf(),
            current.wf(),
            strs(others@) == names_in(state.packages.all()),
            strs(out@) == first + dep_issues(
                plan@,
                *state,
                current@,
                known@,
                *u,
                all.take(i as int),
            ),
        decreases n - i,
    {
        let (dep, req) = map_entry(&man.deps, i);
        proof {
            let longer = all.take(i + 1);
            assert(longer.drop_last() =~= all.take(i as int));
            assert(longer.last() == (dep@, req@));
        }
        push_installed_issue(out, u, dep.as_str(), req.as_str(), current);
        push_other_issues(out, plan, state, current, known, u, dep.as_str(), req.as_str(), others);
        assert(strs(out@) =~= first + dep_issues(plan@, *state, current@, known@, *u, all.take(i + 1)));
        i = i + 1;
    }
    assert(all.take(all.len() as int) =~= all);
}

/// Looks for dependencies on which planned updates and installed packages do
/// not agree. `current` gives the version of each package that is in use;
/// `known` gives the manifests of those versions as far as they can be read.
pub fn check_dep_compatibility_before_update(
    plan: &Vec<PlannedUpdate>,
    state: &State,
    current: &NameMap,
    known: &Vec<KnownManifest>,
) -> (r: Vec<String>)
    requires
        state.wf(),
        current.wf(),
    ensures
        strs(r@) == plan_issues(plan@, *state, current@, known@, plan@.len()),
{
    let others = state.packages.package_names();
    let mut out: Vec<String> = Vec::new();
    let mut i: usize = 0;
    assert(strs(out@) =~= Seq::<Seq<char>>::empty());
    while i < plan.len()
        invariant
            i <= plan@.len(),
            state.wf(),
            current.wf(),
            strs(others@) == names_in(state.packages.all()),
            strs(out@) == plan_issues(plan@, *state, current@, known@, i as nat),
        decreases plan@.len() - i,
    {
        match &plan[i].manifest {
            Some(man) => {
                push_dep_issues(&mut out, plan, state, current, known, &plan[i], man, &others);
            },
            None => {},
        }
        assert(strs(out@) =~= plan_issues(plan@, *state, current@, known@, (i + 1) as nat));
        i = i + 1;
    }
    out
}

/// The name of the snapshot that is taken before packages are updated.
pub fn update_snapshot_name(count: usize) -> (r: String)
    ensures
        r@ == "pre-update "@ + decimal(count as nat) + " packages"@,
{
    let n = to_decimal(count as u64);
    cat3("pre-update ", n.as_str(), " packages")
}

// ---------------------------------------------------------------------------
// Laws
// ---------------------------------------------------------------------------

/// An update never leads to the version in use or to an older one.
pub proof fn update_leads_forward(tags: Seq<Seq<char>>, current: Seq<char>)
    ensures
        newer_tag(tags, current) matches Some(v) ==> version_rank(v, current) == Rank::After && v != current,
{
    version_rank_reflexive(current);
}

proof fn found_update_is_allowed(
    state: State,
    index: RepoIndex,
    current: Map<Seq<char>, Seq<char>>,
    known: Seq<KnownTags>,
    names: Seq<Seq<char>>,
    i: int,
)
    requires
        0 <= i < updates_of(state, index, current, known, names).len(),
    ensures
        ({
            let u = updates_of(state, index, current, known, names)[i];
            update_of(state, index, current, known, u.package) == Some(u)
        }),
    decreases names.len(),
{
    let rest = updates_of(state, index, current, known, names.drop_last());
    if i < rest.len() {
        found_update_is_allowed(state, index, current, known, names.drop_last(), i);
    }
}

/// No update touches a version that is to stay, and each leads from the version
/// in use to a newer one.
pub proof fn pinned_stays_and_updates_lead_forward(
    state: State,
    index: RepoIndex,
    current: Map<Seq<char>, Seq<char>>,
    known: Seq<KnownTags>,
    i: int,
)
    requires
        0 <= i < updates_of(state, index, current, known, names_in(state.packages.all())).len(),
    ensures
        ({
            let u = updates_of(state, index, current, known, names_in(state.packages.all()))[i];
            &&& current.dom().contains(u.package)
            &&& u.old_version == current[u.package]
            &&& !is_pinned(state.packages@, u.package, u.old_version)
            &&& version_rank(u.new_version, u.old_version) == Rank::After
        }),
{
    found_update_is_allowed(state, index, current, known, names_in(state.packages.all()), i);
}

/// Among tags whose versions are all numbers, the version that an update leads to is
/// that of one of them, and none is newer; and where one is newer than the version in
/// use, an update is found.
pub proof fn every_newer_version_is_found(tags: Seq<Seq<char>>, current: Seq<char>, i: int)
    requires
        numeric(current),
        forall|j: int| 0 <= j < tags.len() ==> numeric(tag_version(#[trigger] tags[j])),
        0 <= i < tags.len(),
    ensures
        newer_tag(tags, current) matches Some(v) ==> version_rank(tag_version(tags[i]), v) != Rank::After
            && exists|j: int| 0 <= j < tags.len() && tag_version(#[trigger] tags[j]) == v,
        version_rank(tag_version(tags[i]), current) == Rank::After ==> newer_tag(tags, current) is Some,
{
    let s = tag_versions(tags);
    assert forall|j: int| 0 <= j < s.len() implies numeric(#[trigger] s[j]) by {
        assert(s[j] == tag_version(tags[j]));
    }
    nothing_is_newer_than_the_newest(s, i);
    newest_is_one_of_them(s);
    let v = newest(s)->0;
    assert(s[i] == tag_version(tags[i]));
    let j = choose|j: int| 0 <= j < s.len() && s[j] == v;
    assert(tag_version(tags[j]) == v);
    if version_rank(s[i], current) == Rank::After && version_rank(v, current) != Rank::After {
        version_rank_transitive(s[i], v, current);
    }
}

proof fn latest_is(v: Seq<PackageVersion>, i: int)
    requires
        0 <= i < v.len(),
        forall|j: int| 0 <= j < v.len() ==> numeric((#[trigger] v[j]).version@),
    ensures
        latest_of(v) matches Some(x) && numeric(x) && version_rank(v[i].version@, x) != Rank::After
            && exists|j: int| 0 <= j < v.len() && (#[trigger] v[j]).version@ == x,
    decreases v.len(),
{
    let t = v.drop_last();
    assert forall|j: int| 0 <= j < t.len() implies numeric((#[trigger] t[j]).version@) by {
        assert(t[j] == v[j]);
    }
    let x = v.last().version@;
    assert(v[v.len() - 1].version@ == x);
    version_rank_reflexive(x);
    if t.len() > 0 {
        let k = if i < t.len() { i } else { 0 };
        latest_is(t, k);
        let best = latest_of(t)->0;
        let j = choose|j: int| 0 <= j < t.len() && (#[trigger] t[j]).version@ == best;
        assert(v[j].version@ == best);
        assert(t[k] == v[k]);
        version_rank_flips(best, x);
        if i < t.len() && version_rank(best, x) != Rank::After {
            version_rank_transitive(v[i].version@, best, x);
        }
    }
}

/// The latest of versions that are all numbers is one of them, and none is newer.
pub proof fn latest_is_the_newest(v: Seq<PackageVersion>, i: int)
    requires
        0 <= i < v.len(),
        forall|j: int| 0 <= j < v.len() ==> numeric((#[trigger] v[j]).version@),
    ensures
        latest_of(v) matches Some(x) && version_rank(v[i].version@, x) != Rank::After && exists|j: int|
            0 <= j < v.len() && (#[trigger] v[j]).version@ == x,
{
    latest_is(v, i);
}

proof fn updates_hold(
    state: State,
    index: RepoIndex,
    current: Map<Seq<char>, Seq<char>>,
    known: Seq<KnownTags>,
    names: Seq<Seq<char>>,
    k: int,
)
    requires
        0 <= k < names.len(),
    ensures
        update_of(state, index, current, known, names[k]) matches Some(u) ==> updates_of(
            state,
            index,
            current,
            known,
            names,
        ).contains(u),
    decreases names.len(),
{
    let rest = updates_of(state, index, current, known, names.drop_last());
    let all = updates_of(state, index, current, known, names);
    if let Some(u) = update_of(state, index, current, known, names[k]) {
        if k < names.len() - 1 {
            updates_hold(state, index, current, known, names.drop_last(), k);
            assert(names.drop_last()[k] == names[k]);
            let j = choose|j: int| 0 <= j < rest.len() && rest[j] == u;
            assert(all[j] == u);
        } else {
            assert(all[rest.len() as int] == u);
        }
    }
}

/// Every installed package is updated that has a version in use, is not pinned at it
/// and is in the index, if one of the tags that are known of it stands for a newer
/// version; the versions are all numbers.
pub proof fn outdated_packages_are_updated(
    state: State,
    index: RepoIndex,
    current: Map<Seq<char>, Seq<char>>,
    known: Seq<KnownTags>,
    key: (Seq<char>, Seq<char>),
    a: int,
    i: int,
)
    requires
        state.wf(),
        state.packages@.dom().contains(key),
        current.dom().contains(key.0),
        !(state.packages@.dom().contains((key.0, current[key.0])) && state.packages@[(
            key.0,
            current[key.0],
        )].pinned),
        index.packages@.dom().contains(key.0),
        0 <= a < known.len(),
        known[a].package@ == key.0,
        forall|b: int| 0 <= b < a ==> (#[trigger] known[b]).package@ != key.0,
        numeric(current[key.0]),
        forall|j: int|
            0 <= j < known[a].tags@.len() ==> numeric(tag_version((#[trigger] known[a].tags@[j])@)),
        0 <= i < known[a].tags@.len(),
        version_rank(tag_version(known[a].tags@[i]@), current[key.0]) == Rank::After,
    ensures
        exists|u: UpdateModel| #[trigger]
            updates_of(state, index, current, known, names_in(state.packages.all())).contains(u)
                && u.package == key.0 && u.old_version == current[key.0] && version_rank(
                tag_version(known[a].tags@[i]@),
                u.new_version,
            ) != Rank::After,
{
    let names = names_in(state.packages.all());
    names_in_rows(state.packages.all());
    state.packages.has_package_in_map(key.0);
    assert(key == (key.0, key.1));
    assert(names.contains(key.0));
    let k = choose|k: int| 0 <= k < names.len() && names[k] == key.0;
    tags_known_is(known, key.0, a);
    let tags = strs(known[a].tags@);
    assert forall|j: int| 0 <= j < tags.len() implies numeric(tag_version(#[trigger] tags[j])) by {
        assert(tags[j] == known[a].tags@[j]@);
    }
    every_newer_version_is_found(tags, current[key.0], i);
    updates_hold(state, index, current, known, names, k);
}

proof fn tags_known_is(known: Seq<KnownTags>, name: Seq<char>, a: int)
    requires
        0 <= a < known.len(),
        known[a].package@ == name,
        forall|b: int| 0 <= b < a ==> (#[trigger] known[b]).package@ != name,
    ensures
        tags_known(known, name) == Some(strs(known[a].tags@)),
    decreases a,
{
    if a > 0 {
        assert(known[0].package@ != name);
        let t = known.drop_first();
        assert(t[a - 1] == known[a]);
        assert forall|b: int| 0 <= b < a - 1 implies (#[trigger] t[b]).package@ != name by {
            assert(t[b] == known[b + 1]);
        }
        tags_known_is(t, name, a - 1);
    }
}

/// A planned update whose dependency is in use in a version that does not meet what
/// the new version requires is warned of.
pub proof fn unmet_dependencies_are_warned_of(
    plan: Seq<PlannedUpdate>,
    state: State,
    current: Map<Seq<char>, Seq<char>>,
    known: Seq<KnownManifest>,
    n: int,
    dep: Seq<char>,
    req: Seq<char>,
)
    requires
        0 <= n < plan.len(),
        plan[n].manifest matches Some(man) && map_pairs(man.deps).contains((dep, req)),
        current.dom().contains(dep),
        !meets(current[dep], req),
    ensures
        plan_issues(plan, state, current, known, plan.len()).contains(
            plan[n].package@ + "@"@ + plan[n].new_version@ + " requires "@ + dep + (if req.len() == 0 {
                Seq::empty()
            } else {
                " ("@ + req + ")"@
            }) + "  but "@ + (dep + "@"@ + current[dep]) + " is installed"@,
        ),
{
    let x = plan[n].package@ + "@"@ + plan[n].new_version@ + " requires "@ + dep + (if req.len() == 0 {
        Seq::empty()
    } else {
        " ("@ + req + ")"@
    }) + "  but "@ + (dep + "@"@ + current[dep]) + " is installed"@;
    let man = plan[n].manifest->0;
    let deps = map_pairs(man.deps);
    let k = choose|k: int| 0 <= k < deps.len() && deps[k] == (dep, req);
    assert(installed_issue(plan[n].package@, plan[n].new_version@, dep, req, current)[0] == x);
    dep_issues_hold(plan, state, current, known, plan[n], deps, k, x);
    plan_issues_hold(plan, state, current, known, plan.len(), n, x);
}

proof fn dep_issues_hold(
    plan: Seq<PlannedUpdate>,
    state: State,
    current: Map<Seq<char>, Seq<char>>,
    known: Seq<KnownManifest>,
    u: PlannedUpdate,
    deps: Seq<(Seq<char>, Seq<char>)>,
    k: int,
    x: Seq<char>,
)
    requires
        0 <= k < deps.len(),
        installed_issue(u.package@, u.new_version@, deps[k].0, deps[k].1, current).contains(x)
            || other_issues(
            plan,
            state.packages@,
            current,
            known,
            u,
            deps[k].0,
            deps[k].1,
            names_in(state.packages.all()),
        ).contains(x),
    ensures
        dep_issues(plan, state, current, known, u, deps).contains(x),
    decreases deps.len(),
{
    let t = deps.drop_last();
    let a = dep_issues(plan, state, current, known, u, t);
    let b = installed_issue(u.package@, u.new_version@, deps.last().0, deps.last().1, current);
    let c = other_issues(
        plan,
        state.packages@,
        current,
        known,
        u,
        deps.last().0,
        deps.last().1,
        names_in(state.packages.all()),
    );
    let all = dep_issues(plan, state, current, known, u, deps);
    assert(all == a + b + c);
    if k < t.len() {
        assert(t[k] == deps[k]);
        dep_issues_hold(plan, state, current, known, u, t, k, x);
        let j = choose|j: int| 0 <= j < a.len() && a[j] == x;
        assert(all[j] == x);
    } else if b.contains(x) {
        let j = choose|j: int| 0 <= j < b.len() && b[j] == x;
        assert(all[a.len() + j] == x);
    } else {
        let j = choose|j: int| 0 <= j < c.len() && c[j] == x;
        assert(all[a.len() + b.len() + j] == x);
    }
}

proof fn plan_issues_hold(
    plan: Seq<PlannedUpdate>,
    state: State,
    current: Map<Seq<char>, Seq<char>>,
    known: Seq<KnownManifest>,
    count: nat,
    n: int,
    x: Seq<char>,
)
    requires
        0 <= n < count <= plan.len(),
        plan[n].manifest matches Some(man) && dep_issues(
            plan,
            state,
            current,
            known,
            plan[n],
            map_pairs(man.deps),
        ).contains(x),
    ensures
        plan_issues(plan, state, current, known, count).contains(x),
    decreases count,
{
    let a = plan_issues(plan, state, current, known, (count - 1) as nat);
    let all = plan_issues(plan, state, current, known, count);
    if n < count - 1 {
        plan_issues_hold(plan, state, current, known, (count - 1) as nat, n, x);
        let j = choose|j: int| 0 <= j < a.len() && a[j] == x;
        assert(all[j] == x);
    } else {
        let b = dep_issues(plan, state, current, known, plan[n], map_pairs(plan[n].manifest->0.deps));
        let j = choose|j: int| 0 <= j < b.len() && b[j] == x;
        assert(all[a.len() + j] == x);
    }
}

/// A package is updated only where it is in the index and its version in use is not pinned.
pub proof fn pinned_versions_stay(
    state: State,
    index: RepoIndex,
    current: Map<Seq<char>, Seq<char>>,
    known: Seq<KnownTags>,
    names: Seq<Seq<char>>,
    u: UpdateModel,
)
    requires
        updates_of(state, index, current, known, names).contains(u),
    ensures
        names.contains(u.package),
        index.packages@.dom().contains(u.package),
        current.dom().contains(u.package),
        u.old_version == current[u.package],
        state.packages@.dom().contains((u.package, u.old_version)) ==> !state.packages@[(
            u.package,
            u.old_version,
        )].pinned,
    decreases names.len(),
{
    let t = names.drop_last();
    let rest = updates_of(state, index, current, known, t);
    let all = updates_of(state, index, current, known, names);
    let j = choose|j: int| 0 <= j < all.len() && all[j] == u;
    if names.len() > 0 {
        if j < rest.len() {
            assert(rest[j] == u);
            pinned_versions_stay(state, index, current, known, t, u);
            let k = choose|k: int| 0 <= k < t.len() && t[k] == u.package;
            assert(names[k] == u.package);
        } else {
            assert(names[names.len() - 1] == u.package);
        }
    }
}

/// A note is made of each package that is left as it is because its version in use is
/// pinned, or because it is not in the index.
pub proof fn what_is_skipped_is_noted(
    state: State,
    index: RepoIndex,
    current: Map<Seq<char>, Seq<char>>,
    names: Seq<Seq<char>>,
    x: Seq<char>,
)
    ensures
        skip_notes(state, index, current, names).contains(x) <==> exists|i: int|
            0 <= i < names.len() && current.dom().contains(#[trigger] names[i]) && if state.packages@.dom().contains(
                (names[i], current[names[i]]),
            ) && state.packages@[(names[i], current[names[i]])].pinned {
                x == names[i] + " pinned at "@ + current[names[i]] + " — skipping"@
            } else {
                !index.packages@.dom().contains(names[i]) && x == names[i] + " not in index — skipping"@
            },
    decreases names.len(),
{
    if names.len() > 0 {
        let t = names.drop_last();
        let last = names[names.len() - 1];
        what_is_skipped_is_noted(state, index, current, t, x);
        if let Some(n) = skip_note(state, index, current, last) {
            lemma_seq_concat_contains_all_elements(skip_notes(state, index, current, t), seq![n], x);
            assert(seq![n][0] == n);
        }
        assert(forall|i: int| 0 <= i < t.len() ==> t[i] == #[trigger] names[i]);
        assert forall|i: int| 0 <= i < t.len() implies #[trigger] t[i] == names[i] by {}
    }
}

/// Whether another installed package that is not updated requires something else of a
/// dependency than the new version of a package does, and a text says so.
pub open spec fn is_clash(
    plan: Seq<PlannedUpdate>,
    state: State,
    current: Map<Seq<char>, Seq<char>>,
    known: Seq<KnownManifest>,
    u: PlannedUpdate,
    need: (Seq<char>, Seq<char>),
    other: Seq<char>,
    x: Seq<char>,
) -> bool {
    &&& state.packages.has_package(other) && other != u.package@
    &&& forall|i: int| 0 <= i < plan.len() ==> (#[trigger] plan[i]).package@ != other
    &&& current.dom().contains(other) && state.packages@.dom().contains((other, current[other]))
    &&& exists|d: Seq<char>| #[trigger]
        state.packages@[(other, current[other])].depends_on.contains(d) && pkg_ver(d).0 == need.0
    &&& manifest_of_package(known, other) matches Some(man) && pair_value(map_pairs(man.deps), need.0) matches Some(
        theirs,
    ) && need.1.len() > 0 && theirs.len() > 0 && theirs != need.1 && x == u.package@ + "@"@ + u.new_version@
        + " requires "@ + need.0 + (" ("@ + need.1 + ")"@) + " but "@ + (other + "@"@ + current[other])
        + " requires "@ + need.0 + (" ("@ + theirs + ")"@)
}

/// Whether a dependency of a new version is in use in a version that does not meet what is
/// required of it, and a text says so.
pub open spec fn is_unmet(
    current: Map<Seq<char>, Seq<char>>,
    u: PlannedUpdate,
    need: (Seq<char>, Seq<char>),
    x: Seq<char>,
) -> bool {
    &&& current.dom().contains(need.0) && !meets(current[need.0], need.1)
    &&& x == u.package@ + "@"@ + u.new_version@ + " requires "@ + need.0 + (if need.1.len() == 0 {
        Seq::empty()
    } else {
        " ("@ + need.1 + ")"@
    }) + "  but "@ + (need.0 + "@"@ + current[need.0]) + " is installed"@
}

proof fn other_issues_are(
    plan: Seq<PlannedUpdate>,
    state: State,
    current: Map<Seq<char>, Seq<char>>,
    known: Seq<KnownManifest>,
    u: PlannedUpdate,
    need: (Seq<char>, Seq<char>),
    others: Seq<Seq<char>>,
    x: Seq<char>,
)
    requires
        forall|i: int| 0 <= i < others.len() ==> state.packages.has_package(#[trigger] others[i]),
    ensures
        other_issues(plan, state.packages@, current, known, u, need.0, need.1, others).contains(x) <==> exists|i: int|
            0 <= i < others.len() && is_clash(plan, state, current, known, u, need, #[trigger] others[i], x),
    decreases others.len(),
{
    if others.len() > 0 {
        let t = others.drop_last();
        let last = others[others.len() - 1];
        assert forall|i: int| 0 <= i < t.len() implies state.packages.has_package(#[trigger] t[i]) by {
            assert(t[i] == others[i]);
        }
        other_issues_are(plan, state, current, known, u, need, t, x);
        let a = other_issues(plan, state.packages@, current, known, u, need.0, need.1, t);
        let b = other_issue(plan, state.packages@, current, known, u, need.0, need.1, last);
        lemma_seq_concat_contains_all_elements(a, b, x);
        assert(state.packages.has_package(last));
        if b.len() > 0 {
            assert(b.contains(x) <==> b[0] == x);
        }
        assert(b.contains(x) <==> is_clash(plan, state, current, known, u, need, last, x));
        assert(forall|i: int| 0 <= i < t.len() ==> t[i] == #[trigger] others[i]);
        assert forall|i: int| 0 <= i < t.len() implies #[trigger] t[i] == others[i] by {}
    }
}

proof fn dep_issues_are(
    plan: Seq<PlannedUpdate>,
    state: State,
    current: Map<Seq<char>, Seq<char>>,
    known: Seq<KnownManifest>,
    u: PlannedUpdate,
    deps: Seq<(Seq<char>, Seq<char>)>,
    x: Seq<char>,
)
    requires
        state.wf(),
    ensures
        dep_issues(plan, state, current, known, u, deps).contains(x) <==> exists|k: int|
            0 <= k < deps.len() && is_issue_of(plan, state, current, known, u, #[trigger] deps[k], x),
    decreases deps.len(),
{
    if deps.len() > 0 {
        let t = deps.drop_last();
        let last = deps[deps.len() - 1];
        dep_issues_are(plan, state, current, known, u, t, x);
        let names = names_in(state.packages.all());
        names_in_rows(state.packages.all());
        assert forall|i: int| 0 <= i < names.len() implies state.packages.has_package(#[trigger] names[i]) by {
            assert(names.contains(names[i]));
        }
        let a = dep_issues(plan, state, current, known, u, t);
        let b = installed_issue(u.package@, u.new_version@, last.0, last.1, current);
        let c = other_issues(plan, state.packages@, current, known, u, last.0, last.1, names);
        lemma_seq_concat_contains_all_elements(a + b, c, x);
        lemma_seq_concat_contains_all_elements(a, b, x);
        assert(deps.last() == last);
        assert(dep_issues(plan, state, current, known, u, deps) == a + b + c);
        if b.len() > 0 {
            assert(b.contains(x) <==> b[0] == x);
        }
        assert(b.contains(x) <==> is_unmet(current, u, last, x));
        other_issues_are(plan, state, current, known, u, last, names, x);
        if c.contains(x) {
            let i = choose|i: int|
                0 <= i < names.len() && is_clash(plan, state, current, known, u, last, #[trigger] names[i], x);
            assert(is_clash(plan, state, current, known, u, last, names[i], x));
        }
        if exists|other: Seq<char>| #[trigger] is_clash(plan, state, current, known, u, last, other, x) {
            let other = choose|other: Seq<char>| #[trigger]
                is_clash(plan, state, current, known, u, last, other, x);
            assert(names.contains(other));
            let i = choose|i: int| 0 <= i < names.len() && names[i] == other;
            assert(is_clash(plan, state, current, known, u, last, names[i], x));
        }
        assert((b.contains(x) || c.contains(x)) <==> is_issue_of(plan, state, current, known, u, last, x));
        assert(forall|i: int| 0 <= i < t.len() ==> t[i] == #[trigger] deps[i]);
        assert forall|i: int| 0 <= i < t.len() implies #[trigger] t[i] == deps[i] by {}
    }
}

/// Whether a text is said of a dependency of a new version: it is not met, or another
/// package requires something else of it.
pub open spec fn is_issue_of(
    plan: Seq<PlannedUpdate>,
    state: State,
    current: Map<Seq<char>, Seq<char>>,
    known: Seq<KnownManifest>,
    u: PlannedUpdate,
    need: (Seq<char>, Seq<char>),
    x: Seq<char>,
) -> bool {
    is_unmet(current, u, need, x) || exists|other: Seq<char>| #[trigger]
        is_clash(plan, state, current, known, u, need, other, x)
}

proof fn plan_issues_are(
    plan: Seq<PlannedUpdate>,
    state: State,
    current: Map<Seq<char>, Seq<char>>,
    known: Seq<KnownManifest>,
    count: nat,
    x: Seq<char>,
)
    requires
        state.wf(),
        count <= plan.len(),
    ensures
        plan_issues(plan, state, current, known, count).contains(x) <==> exists|n: int|
            0 <= n < count && (#[trigger] plan[n]).manifest is Some && dep_issues(
                plan,
                state,
                current,
                known,
                plan[n],
                map_pairs(plan[n].manifest->0.deps),
            ).contains(x),
    decreases count,
{
    if count > 0 {
        plan_issues_are(plan, state, current, known, (count - 1) as nat, x);
        let a = plan_issues(plan, state, current, known, (count - 1) as nat);
        if let Some(man) = plan[count - 1].manifest {
            let b = dep_issues(plan, state, current, known, plan[count - 1], map_pairs(man.deps));
            lemma_seq_concat_contains_all_elements(a, b, x);
        }
    }
}

/// The warnings about a plan are these and no others: for each dependency of a new version
/// that is in use in a version that will not do, and for each that another installed
/// package requires something else of.
pub proof fn what_a_plan_is_warned_of(
    plan: Seq<PlannedUpdate>,
    state: State,
    current: Map<Seq<char>, Seq<char>>,
    known: Seq<KnownManifest>,
    x: Seq<char>,
)
    requires
        state.wf(),
    ensures
        plan_issues(plan, state, current, known, plan.len()).contains(x) <==> exists|n: int, k: int|
            0 <= n < plan.len() && plan[n].manifest is Some && 0 <= k < map_pairs(plan[n].manifest->0.deps).len()
                && is_issue_of(
                plan,
                state,
                current,
                known,
                plan[n],
                #[trigger] map_pairs(plan[n].manifest->0.deps)[k],
                x,
            ),
{
    plan_issues_are(plan, state, current, known, plan.len(), x);
    if plan_issues(plan, state, current, known, plan.len()).contains(x) {
        let n = choose|n: int|
            0 <= n < plan.len() && (#[trigger] plan[n]).manifest is Some && dep_issues(
                plan,
                state,
                current,
                known,
                plan[n],
                map_pairs(plan[n].manifest->0.deps),
            ).contains(x);
        let deps = map_pairs(plan[n].manifest->0.deps);
        dep_issues_are(plan, state, current, known, plan[n], deps, x);
        let k = choose|k: int|
            0 <= k < deps.len() && is_issue_of(plan, state, current, known, plan[n], #[trigger] deps[k], x);
        assert(is_issue_of(plan, state, current, known, plan[n], map_pairs(plan[n].manifest->0.deps)[k], x));
    }
    if exists|n: int, k: int|
        0 <= n < plan.len() && plan[n].manifest is Some && 0 <= k < map_pairs(plan[n].manifest->0.deps).len()
            && is_issue_of(
            plan,
            state,
            current,
            known,
            plan[n],
            #[trigger] map_pairs(plan[n].manifest->0.deps)[k],
            x,
        ) {
        let (n, k) = choose|n: int, k: int|
            0 <= n < plan.len() && plan[n].manifest is Some && 0 <= k < map_pairs(plan[n].manifest->0.deps).len()
                && is_issue_of(
                plan,
                state,
                current,
                known,
                plan[n],
                #[trigger] map_pairs(plan[n].manifest->0.deps)[k],
                x,
            );
        let deps = map_pairs(plan[n].manifest->0.deps);
        dep_issues_are(plan, state, current, known, plan[n], deps, x);
        assert(deps[k] == map_pairs(plan[n].manifest->0.deps)[k]);
        assert(plan[n].manifest is Some);
    }
}

/// What is known of a package is the first manifest that is given for it.
pub proof fn first_manifest_counts(known: Seq<KnownManifest>, a: int)
    requires
        0 <= a < known.len(),
        forall|b: int| 0 <= b < a ==> (#[trigger] known[b]).package@ != known[a].package@,
    ensures
        manifest_of_package(known, known[a].package@) == Some(known[a].manifest),
    decreases a,
{
    if a > 0 {
        assert(known[0].package@ != known[a].package@);
        let t = known.drop_first();
        assert(t[a - 1] == known[a]);
        assert forall|b: int| 0 <= b < a - 1 implies (#[trigger] t[b]).package@ != t[a - 1].package@ by {
            assert(t[b] == known[b + 1]);
        }
        first_manifest_counts(t, a - 1);
    }
}

/// With one more version the latest is that one, unless the latest of the others is newer.
pub proof fn latest_with_one_more(v: Seq<PackageVersion>, x: PackageVersion)
    ensures
        latest_of(Seq::empty()) is None,
        latest_of(v.push(x)) == Some(
            match latest_of(v) {
                Some(w) => if version_rank(w, x.version@) == Rank::After {
                    w
                } else {
                    x.version@
                },
                None => x.version@,
            },
        ),
{
    assert(v.push(x).drop_last() =~= v);
}

} // verus!
