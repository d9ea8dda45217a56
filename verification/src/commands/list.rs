//! Listing what is installed, and what of it is outdated.
use vstd::prelude::*;

use crate::collections::{pairs_map_at, NameMap};
use crate::commands::search::{format_tags, marked_tags};
use crate::commands::update::{is_pinned, latest_is_the_newest, latest_of, outdated_target, FoundUpdate, UpdateModel, update_models};
use crate::repo::{PackageMeta, PackageVersion};
use crate::state::{installed_has_a_row, names_in, names_in_rows, row_pairs, PackageRow, State};
use crate::text::{join_with, same, strs};
use crate::utils::{numeric, version_rank, version_rank_transitive, Rank};

verus! {

// ---------------------------------------------------------------------------
// What is installed
// ---------------------------------------------------------------------------

/// A version that is installed, as it is listed.
#[derive(Debug)]
pub struct InstalledRow {
    pub package: String,
    pub version: String,
    pub pinned: bool,
    pub is_current: bool,
    pub tags: String,
}

/// A version that is installed, as a mathematical value.
#[verifier::ext_equal]
pub struct RowModel {
    pub package: Seq<char>,
    pub version: Seq<char>,
    pub pinned: bool,
    pub is_current: bool,
    pub tags: Seq<char>,
}

impl View for InstalledRow {
    type V = RowModel;

    open spec fn view(&self) -> RowModel {
        RowModel {
            package: self.package@,
            version: self.version@,
            pinned: self.pinned,
            is_current: self.is_current,
            tags: self.tags@,
        }
    }
}

/// The tags of the first of the metadata of a package.
pub open spec fn tags_of(cached: Seq<(String, PackageMeta)>, name: Seq<char>) -> Seq<Seq<char>>
    decreases cached.len(),
{
    if cached.len() == 0 {
        Seq::empty()
    } else if cached[0].0@ == name {
        strs(cached[0].1.tags@)
    } else {
        tags_of(cached.drop_first(), name)
    }
}

/// A row of what is installed, as it is listed.
pub open spec fn listed(
    row: PackageRow,
    current: Map<Seq<char>, Seq<char>>,
    cached: Seq<(String, PackageMeta)>,
) -> RowModel {
    RowModel {
        package: row.name@,
        version: row.version@,
        pinned: row.info@.pinned,
        is_current: current.dom().contains(row.name@) && current[row.name@] == row.version@,
        tags: join_with(marked_tags(tags_of(cached, row.name@)), " "@),
    }
}

/// Everything that is installed, as it is listed.
pub open spec fn all_listed(
    rows: Seq<PackageRow>,
    current: Map<Seq<char>, Seq<char>>,
    cached: Seq<(String, PackageMeta)>,
) -> Seq<RowModel> {
    rows.map_values(|r: PackageRow| listed(r, current, cached))
}

/// Rows as mathematical values.
pub open spec fn row_models(v: Seq<InstalledRow>) -> Seq<RowModel> {
    v.map_values(|r: InstalledRow| r@)
}

fn tags_text(cached: &Vec<(String, PackageMeta)>, name: &str) -> (r: String)
    ensures
        r@ == join_with(marked_tags(tags_of(cached@, name@)), " "@),
{
    let mut i: usize = 0;
    assert(cached@.skip(0) =~= cached@);
    while i < cached.len()
        invariant
            i <= cached@.len(),
            tags_of(cached@, name@) == tags_of(cached@.skip(i as int), name@),
        decreases cached@.len() - i,
    {
        assert(cached@.skip(i as int)[0] == cached@[i as int]);
        assert(cached@.skip(i as int).drop_first() =~= cached@.skip(i + 1));
        if same(cached[i].0.as_str(), name) {
            return format_tags(&cached[i].1.tags, " ");
        }
        i = i + 1;
    }
    let none: Vec<String> = Vec::new();
    assert(strs(none@) =~= tags_of(cached@, name@));
    format_tags(&none, " ")
}

/// Lists everything that is installed, given the versions in use and what is
/// known of packages.
pub fn list_installed(state: &State, current: &NameMap, cached: &Vec<(String, PackageMeta)>) -> (r: Vec<InstalledRow>)
    requires
        state.wf(),
        current.wf(),
    ensures
        row_models(r@) == all_listed(state.packages.all(), current@, cached@),
{
    let mut out: Vec<InstalledRow> = Vec::new();
    let ghost all = all_listed(state.packages.all(), current@, cached@);
    let n = state.packages.len();
    let mut i: usize = 0;
    assert(row_models(out@) =~= all.take(0));
    while i < n
        invariant
            i <= n,
            n == state.packages.all().len(),
            state.wf(),
            current.wf(),
            all == all_listed(state.packages.all(), current@, cached@),
            row_models(out@) == all.take(i as int),
        decreases n - i,
    {
        let row = state.packages.row(i);
        let is_current = match current.get(row.name.as_str()) {
            Some(v) => same(v.as_str(), row.version.as_str()),
            None => false,
        };
        let entry = InstalledRow {
            package: row.name.clone(),
            version: row.version.clone(),
            pinned: row.info.pinned,
            is_current,
            tags: tags_text(cached, row.name.as_str()),
        };
        let ghost before = out@;
        out.push(entry);
        proof {
            assert(all[i as int] == entry@);
            assert(row_models(out@) =~= row_models(before).push(entry@));
            assert(all.take(i + 1) =~= all.take(i as int).push(entry@));
        }
        i = i + 1;
    }
    assert(all.take(all.len() as int) =~= all);
    out
}

// ---------------------------------------------------------------------------
// What is outdated
// ---------------------------------------------------------------------------

/// The versions of a package.
#[derive(Debug)]
pub struct KnownVersions {
    pub package: String,
    pub versions: Vec<PackageVersion>,
}

/// The versions of the first entry of a package.
pub open spec fn versions_known(known: Seq<KnownVersions>, name: Seq<char>) -> Option<Seq<PackageVersion>>
    decreases known.len(),
{
    if known.len() == 0 {
        None
    } else if known[0].package@ == name {
        Some(known[0].versions@)
    } else {
        versions_known(known.drop_first(), name)
    }
}

/// The newer version of a package whose version in use is not to stay.
pub open spec fn newer_of(
    state: State,
    current: Map<Seq<char>, Seq<char>>,
    known: Seq<KnownVersions>,
    name: Seq<char>,
) -> Option<UpdateModel> {
    if !current.dom().contains(name) || is_pinned(state.packages@, name, current[name]) {
        None
    } else {
        match versions_known(known, name) {
            Some(v) => match latest_of(v) {
                Some(new) => if version_rank(new, current[name]) == Rank::After {
                    Some(
                        UpdateModel { package: name, old_version: current[name], new_version: new },
                    )
                } else {
                    None
                },
                None => None,
            },
            None => None,
        }
    }
}

/// Those of the packages that are outdated.
pub open spec fn all_outdated(
    state: State,
    current: Map<Seq<char>, Seq<char>>,
    known: Seq<KnownVersions>,
    names: Seq<Seq<char>>,
) -> Seq<UpdateModel>
    decreases names.len(),
{
    if names.len() == 0 {
        Seq::empty()
    } else {
        let rest = all_outdated(state, current, known, names.drop_last());
        match newer_of(state, current, known, names.last()) {
            Some(u) => rest.push(u),
            None => rest,
        }
    }
}

fn find_versions(known: &Vec<KnownVersions>, name: &str) -> (r: Option<usize>)
    ensures
        match r {
            Some(i) => i < known@.len() && versions_known(known@, name@) == Some(
                known@[i as int].versions@,
            ),
            None => versions_known(known@, name@) is None,
        },
{
    let mut i: usize = 0;
    assert(known@.skip(0) =~= known@);
    while i < known.len()
        invariant
            i <= known@.len(),
            versions_known(known@, name@) == versions_known(known@.skip(i as int), name@),
        decreases known@.len() - i,
    {
        assert(known@.skip(i as int)[0] == known@[i as int]);
        assert(known@.skip(i as int).drop_first() =~= known@.skip(i + 1));
        if same(known[i].package.as_str(), name) {
            return Some(i);
        }
        i = i + 1;
    }
    None
}

/// Finds the installed packages of which there is a newer version.
pub fn outdated(state: &State, current: &NameMap, known: &Vec<KnownVersions>) -> (r: Vec<FoundUpdate>)
    requires
        state.wf(),
        current.wf(),
    ensures
        update_models(r@) == all_outdated(*state, current@, known@, names_in(state.packages.all())),
{
    let names = state.packages.package_names();
    let ghost all = strs(names@);
    let mut out: Vec<FoundUpdate> = Vec::new();
    let mut i: usize = 0;
    assert(all.take(0) =~= Seq::<Seq<char>>::empty());
    assert(update_models(out@) =~= Seq::<UpdateModel>::empty());
    while i < names.len()
        invariant
            i <= names@.len(),
            all == strs(names@),
            state.wf(),
            current.wf(),
            update_models(out@) == all_outdated(*state, current@, known@, all.take(i as int)),
        decreases names@.len() - i,
    {
        let name = names[i].as_str();
        proof {
            let longer = all.take(i + 1);
            assert(longer.drop_last() =~= all.take(i as int));
            assert(longer.last() == name@);
        }
        match current.get(name) {
            Some(v) => match find_versions(known, name) {
                Some(k) => match outdated_target(state, name, v.as_str(), &known[k].versions) {
                    Some(new) => {
                        let ghost before = out@;
                        let u = FoundUpdate {
                            package: name.to_owned(),
                            old_version: v.clone(),
                            new_version: new,
                        };
                        out.push(u);
                        assert(update_models(out@) =~= update_models(before).push(u@));
                    },
                    None => {},
                },
                None => {},
            },
            None => {},
        }
        i = i + 1;
    }
    assert(all.take(all.len() as int) =~= all);
    out
}

// ---------------------------------------------------------------------------
// Laws
// ---------------------------------------------------------------------------

proof fn versions_known_are(known: Seq<KnownVersions>, name: Seq<char>, a: int)
    requires
        0 <= a < known.len(),
        known[a].package@ == name,
        forall|b: int| 0 <= b < a ==> (#[trigger] known[b]).package@ != name,
    ensures
        versions_known(known, name) == Some(known[a].versions@),
    decreases a,
{
    if a > 0 {
        assert(known[0].package@ != name);
        let t = known.drop_first();
        assert(t[a - 1] == known[a]);
        assert forall|b: int| 0 <= b < a - 1 implies (#[trigger] t[b]).package@ != name by {
            assert(t[b] == known[b + 1]);
        }
        versions_known_are(t, name, a - 1);
    }
}

proof fn outdated_hold(
    state: State,
    current: Map<Seq<char>, Seq<char>>,
    known: Seq<KnownVersions>,
    names: Seq<Seq<char>>,
    u: UpdateModel,
)
    ensures
        all_outdated(state, current, known, names).contains(u) <==> exists|k: int|
            0 <= k < names.len() && newer_of(state, current, known, #[trigger] names[k]) == Some(u),
    decreases names.len(),
{
    if names.len() > 0 {
        let t = names.drop_last();
        outdated_hold(state, current, known, t, u);
        let rest = all_outdated(state, current, known, t);
        let all = all_outdated(state, current, known, names);
        if all.contains(u) {
            let j = choose|j: int| 0 <= j < all.len() && all[j] == u;
            if j < rest.len() {
                assert(rest[j] == u);
                assert(rest.contains(u));
                let k = choose|k: int|
                    0 <= k < t.len() && newer_of(state, current, known, #[trigger] t[k]) == Some(u);
                assert(names[k] == t[k]);
            } else {
                assert(newer_of(state, current, known, names[names.len() - 1]) == Some(u));
            }
        }
        if exists|k: int| 0 <= k < names.len() && newer_of(state, current, known, #[trigger] names[k]) == Some(u) {
            let k = choose|k: int|
                0 <= k < names.len() && newer_of(state, current, known, #[trigger] names[k]) == Some(u);
            if k < t.len() {
                assert(t[k] == names[k]);
                assert(rest.contains(u));
                let j = choose|j: int| 0 <= j < rest.len() && rest[j] == u;
                assert(all[j] == u);
            } else {
                assert(all[rest.len() as int] == u);
            }
        }
    }
}

/// A package is listed as outdated exactly where it is installed, its version in use is
/// not pinned, and the newest version that is known of it is newer than that; the
/// versions are all numbers.
pub proof fn outdated_is_what_has_a_newer_version(
    state: State,
    current: Map<Seq<char>, Seq<char>>,
    known: Seq<KnownVersions>,
    key: (Seq<char>, Seq<char>),
    a: int,
)
    requires
        state.wf(),
        state.packages@.dom().contains(key),
        current.dom().contains(key.0),
        0 <= a < known.len(),
        known[a].package@ == key.0,
        forall|b: int| 0 <= b < a ==> (#[trigger] known[b]).package@ != key.0,
        numeric(current[key.0]),
        forall|j: int|
            0 <= j < known[a].versions@.len() ==> numeric((#[trigger] known[a].versions@[j]).version@),
    ensures
        (exists|u: UpdateModel| #[trigger]
            all_outdated(state, current, known, names_in(state.packages.all())).contains(u) && u.package
                == key.0) <==> !(state.packages@.dom().contains((key.0, current[key.0])) && state.packages@[(
            key.0,
            current[key.0],
        )].pinned) && exists|i: int|
            0 <= i < known[a].versions@.len() && version_rank(
                (#[trigger] known[a].versions@[i]).version@,
                current[key.0],
            ) == Rank::After,
        forall|u: UpdateModel| #[trigger]
            all_outdated(state, current, known, names_in(state.packages.all())).contains(u) && u.package
                == key.0 ==> u.old_version == current[key.0] && version_rank(u.new_version, u.old_version)
                == Rank::After && forall|i: int|
                0 <= i < known[a].versions@.len() ==> version_rank(
                    (#[trigger] known[a].versions@[i]).version@,
                    u.new_version,
                ) != Rank::After,
{
    let names = names_in(state.packages.all());
    names_in_rows(state.packages.all());
    state.packages.has_package_in_map(key.0);
    assert(key == (key.0, key.1));
    assert(names.contains(key.0));
    let k = choose|k: int| 0 <= k < names.len() && names[k] == key.0;
    versions_known_are(known, key.0, a);
    let v = known[a].versions@;
    let cur = current[key.0];
    assert forall|u: UpdateModel| #[trigger]
        all_outdated(state, current, known, names).contains(u) && u.package == key.0 implies newer_of(
        state,
        current,
        known,
        key.0,
    ) == Some(u) && u.old_version == cur && version_rank(u.new_version, u.old_version) == Rank::After
        && forall|i: int|
        0 <= i < v.len() ==> version_rank((#[trigger] v[i]).version@, u.new_version) != Rank::After by {
        outdated_hold(state, current, known, names, u);
        let n = choose|n: int|
            0 <= n < names.len() && newer_of(state, current, known, #[trigger] names[n]) == Some(u);
        assert forall|i: int| 0 <= i < v.len() implies version_rank(
            (#[trigger] v[i]).version@,
            u.new_version,
        ) != Rank::After by {
            latest_is_the_newest(v, i);
        }
    }
    if v.len() > 0 {
        latest_is_the_newest(v, 0);
        let x = latest_of(v)->0;
        let j = choose|j: int| 0 <= j < v.len() && (#[trigger] v[j]).version@ == x;
        assert(version_rank(v[j].version@, cur) == version_rank(x, cur));
        if exists|i: int| 0 <= i < v.len() && version_rank((#[trigger] v[i]).version@, cur) == Rank::After {
            let i = choose|i: int|
                0 <= i < v.len() && version_rank((#[trigger] v[i]).version@, cur) == Rank::After;
            latest_is_the_newest(v, i);
            if version_rank(x, cur) != Rank::After {
                version_rank_transitive(v[i].version@, x, cur);
            }
        }
    }
    if let Some(u) = newer_of(state, current, known, key.0) {
        outdated_hold(state, current, known, names, u);
    }
}

/// Every installed version is listed once, as it is: with its package, whether it is pinned
/// and whether it is the one in use.
pub proof fn every_version_is_listed(
    state: State,
    current: Map<Seq<char>, Seq<char>>,
    cached: Seq<(String, PackageMeta)>,
    key: (Seq<char>, Seq<char>),
)
    requires
        state.wf(),
        state.packages@.dom().contains(key),
    ensures
        exists|i: int| {
            let row = #[trigger] all_listed(state.packages.all(), current, cached)[i];
            &&& 0 <= i < all_listed(state.packages.all(), current, cached).len()
            &&& row.package == key.0 && row.version == key.1
            &&& row.pinned == state.packages@[key].pinned
            &&& row.is_current <==> current.dom().contains(key.0) && current[key.0] == key.1
        },
        all_listed(state.packages.all(), current, cached).len() == state.packages.all().len(),
{
    let s = row_pairs(state.packages.all());
    installed_has_a_row(state.packages, key);
    let i = choose|i: int|
        0 <= i < state.packages.all().len() && (#[trigger] state.packages.all()[i]).name@ == key.0
            && state.packages.all()[i].version@ == key.1;
    pairs_map_at(s, i);
    assert(s[i] == state.packages.all()[i].pair());
    assert(s[i].0 == key);
    assert(all_listed(state.packages.all(), current, cached)[i] == listed(
        state.packages.all()[i],
        current,
        cached,
    ));
}

/// The tags that are listed are those of the first entry that is known of a package.
pub proof fn tags_are_those_of_the_first(cached: Seq<(String, PackageMeta)>, a: int)
    requires
        0 <= a < cached.len(),
        forall|b: int| 0 <= b < a ==> (#[trigger] cached[b]).0@ != cached[a].0@,
    ensures
        tags_of(cached, cached[a].0@) == strs(cached[a].1.tags@),
    decreases a,
{
    if a > 0 {
        assert(cached[0].0@ != cached[a].0@);
        let t = cached.drop_first();
        assert(t[a - 1] == cached[a]);
        assert forall|b: int| 0 <= b < a - 1 implies (#[trigger] t[b]).0@ != t[a - 1].0@ by {
            assert(t[b] == cached[b + 1]);
        }
        tags_are_those_of_the_first(t, a - 1);
    }
}

} // verus!
