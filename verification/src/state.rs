//! What is installed: packages, their versions, and the history of changes.
use vstd::prelude::*;

use crate::collections::{key_index, keys_distinct, pairs_map, pairs_map_at, pairs_map_push, pairs_map_remove, pairs_map_same_keys, pairs_map_update, has_key, NameMap, NameSet};
use crate::collections::pair_texts;
use crate::order::{pairs_sorted, same_multiset_contains, sort_pairs, sort_unique, strictly_sorted, strictly_sorted_unique};
use crate::pattern::has_prefix;
use crate::utils::{numeric, sort_versions, version_rank, version_rank_flips, version_rank_reflexive, version_sorted, version_sorted_keeps, version_sorted_orders, Rank};
use crate::text::{cut, cut_at, cut_of_joined, cut_only_where_it_stands, has_string, same, strs, strs_push};

verus! {

// ---------------------------------------------------------------------------
// Package specs
// ---------------------------------------------------------------------------

/// The name and the version of a spec `name@version`; without an at sign the
/// whole is the name and the version is empty.
pub open spec fn pkg_ver(spec: Seq<char>) -> (Seq<char>, Seq<char>) {
    match cut(spec, '@') {
        Some(p) => p,
        None => (spec, Seq::empty()),
    }
}

/// The spec of a version of a package.
pub open spec fn pkg_key(name: Seq<char>, version: Seq<char>) -> Seq<char> {
    name + "@"@ + version
}

/// The name and the version of a spec.
pub fn split_pkg_ver(spec: &str) -> (r: (String, String))
    ensures
        (r.0@, r.1@) == pkg_ver(spec@),
{
    match cut_at(spec, '@') {
        Some(p) => p,
        None => {
            let e = String::new();
            assert(e@ =~= Seq::<char>::empty());
            (spec.to_owned(), e)
        },
    }
}

/// The spec of a version of a package.
pub fn join_pkg_ver(name: &str, version: &str) -> (r: String)
    ensures
        r@ == pkg_key(name@, version@),
{
    let mut s = name.to_owned();
    s.append("@");
    s.append(version);
    s
}

/// Joining a name and a version and splitting the spec again gives them back,
/// for any name without an at sign.
pub proof fn pkg_ver_of_key(name: Seq<char>, version: Seq<char>)
    requires
        !name.contains('@'),
    ensures
        pkg_ver(pkg_key(name, version)) == (name, version),
{
    reveal_strlit("@");
    cut_of_joined(name, '@', version);
    assert(pkg_key(name, version) =~= name.push('@') + version);
}

// ---------------------------------------------------------------------------
// Installed versions
// ---------------------------------------------------------------------------

/// What is known of an installed version of a package.
#[derive(Debug)]
pub struct VersionInfo {
    /// The checksum of its contents.
    pub checksum: String,
    /// Whether updates leave it alone.
    pub pinned: bool,
    /// Whether it was asked for, and not installed as a dependency.
    pub manually_installed: bool,
    /// The specs of the installed versions that depend on it.
    pub required_by: NameSet,
    /// The specs that it depends on.
    pub depends_on: NameSet,
    /// The packages that it cannot be installed with.
    pub conflicts_with: NameSet,
    /// When it was installed, in seconds since 1970.
    pub installed_at: u64,
}

/// An installed version as a mathematical value.
#[verifier::ext_equal]
pub struct InfoModel {
    pub checksum: Seq<char>,
    pub pinned: bool,
    pub manually_installed: bool,
    pub required_by: Set<Seq<char>>,
    pub depends_on: Set<Seq<char>>,
    pub conflicts_with: Set<Seq<char>>,
    pub installed_at: u64,
}

/// What is known of a version that was just installed.
pub open spec fn fresh_info(checksum: Seq<char>, manually_installed: bool, now: u64) -> InfoModel {
    InfoModel {
        checksum,
        pinned: false,
        manually_installed,
        required_by: Set::empty(),
        depends_on: Set::empty(),
        conflicts_with: Set::empty(),
        installed_at: now,
    }
}

impl View for VersionInfo {
    type V = InfoModel;

    open spec fn view(&self) -> InfoModel {
        InfoModel {
            checksum: self.checksum@,
            pinned: self.pinned,
            manually_installed: self.manually_installed,
            required_by: self.required_by@,
            depends_on: self.depends_on@,
            conflicts_with: self.conflicts_with@,
            installed_at: self.installed_at,
        }
    }
}

impl VersionInfo {
    /// None of the sets holds a name twice.
    pub open spec fn wf(&self) -> bool {
        self.required_by.wf() && self.depends_on.wf() && self.conflicts_with.wf()
    }

    /// A version that is installed at the time `now`.
    pub fn new(checksum: &str, manually_installed: bool, now: u64) -> (r: VersionInfo)
        ensures
            r.wf(),
            r@ == fresh_info(checksum@, manually_installed, now),
    {
        VersionInfo {
            checksum: checksum.to_owned(),
            pinned: false,
            manually_installed,
            required_by: NameSet::new(),
            depends_on: NameSet::new(),
            conflicts_with: NameSet::new(),
            installed_at: now,
        }
    }

    /// A copy.
    pub fn copy(&self) -> (r: VersionInfo)
        requires
            self.wf(),
        ensures
            r.wf(),
            r@ == self@,
            r.conflicts_with.texts() == self.conflicts_with.texts(),
            r.depends_on.texts() == self.depends_on.texts(),
            r.required_by.texts() == self.required_by.texts(),
    {
        VersionInfo {
            checksum: self.checksum.clone(),
            pinned: self.pinned,
            manually_installed: self.manually_installed,
            required_by: self.required_by.copy(),
            depends_on: self.depends_on.copy(),
            conflicts_with: self.conflicts_with.copy(),
            installed_at: self.installed_at,
        }
    }
}

/// The sets of names that are kept of a version.
#[derive(Clone, Copy, PartialEq, Eq, Structural, Debug)]
pub enum Relation {
    RequiredBy,
    DependsOn,
    ConflictsWith,
}

/// A version with a value put into one of its sets.
pub open spec fn related_info(info: InfoModel, relation: Relation, value: Seq<char>) -> InfoModel {
    match relation {
        Relation::RequiredBy => InfoModel { required_by: info.required_by.insert(value), ..info },
        Relation::DependsOn => InfoModel { depends_on: info.depends_on.insert(value), ..info },
        Relation::ConflictsWith => InfoModel {
            conflicts_with: info.conflicts_with.insert(value),
            ..info
        },
    }
}

/// The packages with a value put into one of the sets of a version, if it is there.
pub open spec fn related(
    m: Map<(Seq<char>, Seq<char>), InfoModel>,
    key: (Seq<char>, Seq<char>),
    relation: Relation,
    value: Seq<char>,
) -> Map<(Seq<char>, Seq<char>), InfoModel> {
    if m.dom().contains(key) {
        m.insert(key, related_info(m[key], relation, value))
    } else {
        m
    }
}

/// One installed version of one package.
#[derive(Debug)]
pub struct PackageRow {
    pub name: String,
    pub version: String,
    pub info: VersionInfo,
}

impl PackageRow {
    /// The name and the version.
    pub open spec fn key(&self) -> (Seq<char>, Seq<char>) {
        (self.name@, self.version@)
    }

    /// The row as an entry of a map.
    pub open spec fn pair(&self) -> ((Seq<char>, Seq<char>), InfoModel) {
        (self.key(), self.info@)
    }
}

/// The entries of a list of rows.
pub open spec fn row_pairs(rows: Seq<PackageRow>) -> Seq<((Seq<char>, Seq<char>), InfoModel)> {
    rows.map_values(|r: PackageRow| r.pair())
}

/// The versions of `name` among the rows, in their order.
pub open spec fn versions_in(rows: Seq<PackageRow>, name: Seq<char>) -> Seq<Seq<char>>
    decreases rows.len(),
{
    if rows.len() == 0 {
        Seq::empty()
    } else {
        let rest = versions_in(rows.drop_last(), name);
        if rows.last().name@ == name {
            rest.push(rows.last().version@)
        } else {
            rest
        }
    }
}

/// The names of the packages among the rows, each once, in the order in which
/// they are first met.
pub open spec fn names_in(rows: Seq<PackageRow>) -> Seq<Seq<char>>
    decreases rows.len(),
{
    if rows.len() == 0 {
        Seq::empty()
    } else {
        let rest = names_in(rows.drop_last());
        if rest.contains(rows.last().name@) {
            rest
        } else {
            rest.push(rows.last().name@)
        }
    }
}

/// The names of the packages are those that have a row, and none occurs twice.
pub proof fn names_in_rows(rows: Seq<PackageRow>)
    ensures
        names_in(rows).no_duplicates(),
        forall|n: Seq<char>| #[trigger]
            names_in(rows).contains(n) == (exists|i: int|
                0 <= i < rows.len() && (#[trigger] rows[i]).name@ == n),
    decreases rows.len(),
{
    if rows.len() > 0 {
        let t = rows.drop_last();
        let rest = names_in(t);
        let last = rows.last().name@;
        names_in_rows(t);
        let all = names_in(rows);
        assert forall|n: Seq<char>| #[trigger] all.contains(n) == (exists|i: int|
            0 <= i < rows.len() && (#[trigger] rows[i]).name@ == n) by {
            if all.contains(n) {
                let a = choose|a: int| 0 <= a < all.len() && all[a] == n;
                if a < rest.len() {
                    assert(rest[a] == n);
                    assert(rest.contains(n));
                    let i = choose|i: int| 0 <= i < t.len() && (#[trigger] t[i]).name@ == n;
                    assert(rows[i].name@ == n);
                } else {
                    assert(rows[rows.len() - 1].name@ == n);
                }
            }
            if exists|i: int| 0 <= i < rows.len() && (#[trigger] rows[i]).name@ == n {
                let i = choose|i: int| 0 <= i < rows.len() && (#[trigger] rows[i]).name@ == n;
                if i < t.len() {
                    assert(t[i].name@ == n);
                    assert(rest.contains(n));
                    let a = choose|a: int| 0 <= a < rest.len() && rest[a] == n;
                    assert(all[a] == n);
                } else if !rest.contains(last) {
                    assert(all[rest.len() as int] == last);
                }
            }
        }
        assert forall|a: int, b: int| 0 <= a < all.len() && 0 <= b < all.len() && a != b implies all[a]
            != all[b] by {
            if a < rest.len() && b < rest.len() {
                assert(rest[a] != rest[b]);
            } else if a < rest.len() {
                assert(rest.contains(rest[a]));
            } else if b < rest.len() {
                assert(rest.contains(rest[b]));
            }
        }
    }
}

/// The installed versions of all packages. No version of a package occurs twice.
#[derive(Debug)]
pub struct PackageTable {
    rows: Vec<PackageRow>,
}

impl View for PackageTable {
    type V = Map<(Seq<char>, Seq<char>), InfoModel>;

    open spec fn view(&self) -> Map<(Seq<char>, Seq<char>), InfoModel> {
        pairs_map(row_pairs(self.all()))
    }
}

impl PackageTable {
    /// The rows, in the order in which they were put in.
    pub closed spec fn all(&self) -> Seq<PackageRow> {
        self.rows@
    }

    /// No version of a package occurs twice, and every row is well formed.
    pub open spec fn wf(&self) -> bool {
        &&& keys_distinct(row_pairs(self.all()))
        &&& forall|i: int| 0 <= i < self.all().len() ==> (#[trigger] self.all()[i]).info.wf()
    }

    /// Whether some version of a package is installed.
    pub open spec fn has_package(&self, name: Seq<char>) -> bool {
        exists|i: int| 0 <= i < self.all().len() && (#[trigger] self.all()[i]).name@ == name
    }

    /// A table without rows.
    pub fn new() -> (r: PackageTable)
        ensures
            r.wf(),
            r.all() == Seq::<PackageRow>::empty(),
            r@ == Map::<(Seq<char>, Seq<char>), InfoModel>::empty(),
    {
        let r = PackageTable { rows: Vec::new() };
        assert(r.all() =~= Seq::<PackageRow>::empty());
        assert(r@ =~= Map::<(Seq<char>, Seq<char>), InfoModel>::empty());
        r
    }

    /// The number of rows.
    pub fn len(&self) -> (r: usize)
        ensures
            r == self.all().len(),
    {
        self.rows.len()
    }

    /// The `i`-th row.
    pub fn row(&self, i: usize) -> (r: &PackageRow)
        requires
            i < self.all().len(),
        ensures
            *r == self.all()[i as int],
    {
        &self.rows[i]
    }

    fn index_of(&self, name: &str, version: &str) -> (r: Option<usize>)
        ensures
            match r {
                Some(i) => i < self.all().len() && self.all()[i as int].key() == (name@, version@),
                None => !has_key(row_pairs(self.all()), (name@, version@)),
            },
    {
        let mut i: usize = 0;
        while i < self.rows.len()
            invariant
                i <= self.rows@.len(),
                forall|j: int|
                    0 <= j < i ==> (#[trigger] row_pairs(self.all())[j]).0 != (name@, version@),
            decreases self.rows@.len() - i,
        {
            if same(self.rows[i].name.as_str(), name) && same(
                self.rows[i].version.as_str(),
                version,
            ) {
                return Some(i);
            }
            i = i + 1;
        }
        None
    }

    /// What is known of a version of a package.
    pub fn get(&self, name: &str, version: &str) -> (r: Option<&VersionInfo>)
        requires
            self.wf(),
        ensures
            match r {
                Some(v) => self@.dom().contains((name@, version@)) && self@[(name@, version@)]
                    == v@ && v.wf(),
                None => !self@.dom().contains((name@, version@)),
            },
    {
        match self.index_of(name, version) {
            Some(i) => {
                proof {
                    pairs_map_at(row_pairs(self.all()), i as int);
                    assert(row_pairs(self.all())[i as int] == self.all()[i as int].pair());
                }
                Some(&self.rows[i].info)
            },
            None => None,
        }
    }

    /// Whether some version of a package is installed.
    pub fn contains(&self, name: &str) -> (r: bool)
        ensures
            r == self.has_package(name@),
    {
        let mut i: usize = 0;
        while i < self.rows.len()
            invariant
                i <= self.rows@.len(),
                forall|j: int| 0 <= j < i ==> (#[trigger] self.all()[j]).name@ != name@,
            decreases self.rows@.len() - i,
        {
            if same(self.rows[i].name.as_str(), name) {
                assert(self.all()[i as int].name@ == name@);
                return true;
            }
            i = i + 1;
        }
        false
    }

    /// The installed versions of a package.
    pub fn versions_of(&self, name: &str) -> (r: Vec<String>)
        ensures
            strs(r@) == versions_in(self.all(), name@),
    {
        let mut out: Vec<String> = Vec::new();
        let mut i: usize = 0;
        assert(self.all().take(0) =~= Seq::<PackageRow>::empty());
        assert(strs(out@) =~= Seq::<Seq<char>>::empty());
        while i < self.rows.len()
            invariant
                i <= self.rows@.len(),
                strs(out@) == versions_in(self.all().take(i as int), name@),
            decreases self.rows@.len() - i,
        {
            proof {
                let longer = self.all().take(i + 1);
                assert(longer.drop_last() =~= self.all().take(i as int));
                assert(longer.last() == self.rows@[i as int]);
            }
            if same(self.rows[i].name.as_str(), name) {
                let v = self.rows[i].version.clone();
                proof {
                    strs_push(out@, v);
                }
                out.push(v);
            }
            i = i + 1;
        }
        assert(self.all().take(self.rows@.len() as int) =~= self.all());
        out
    }

    /// The names of the installed packages, each once.
    pub fn package_names(&self) -> (r: Vec<String>)
        ensures
            strs(r@) == names_in(self.all()),
    {
        let mut out: Vec<String> = Vec::new();
        let mut i: usize = 0;
        assert(self.all().take(0) =~= Seq::<PackageRow>::empty());
        assert(strs(out@) =~= Seq::<Seq<char>>::empty());
        while i < self.rows.len()
            invariant
                i <= self.rows@.len(),
                strs(out@) == names_in(self.all().take(i as int)),
            decreases self.rows@.len() - i,
        {
            proof {
                let longer = self.all().take(i + 1);
                assert(longer.drop_last() =~= self.all().take(i as int));
                assert(longer.last() == self.rows@[i as int]);
            }
            if !has_string(&out, self.rows[i].name.as_str()) {
                let v = self.rows[i].name.clone();
                proof {
                    strs_push(out@, v);
                }
                out.push(v);
            }
            i = i + 1;
        }
        assert(self.all().take(self.rows@.len() as int) =~= self.all());
        out
    }

    /// Puts a version of a package in, in place of the one that is there.
    pub fn insert(&mut self, name: &str, version: &str, info: VersionInfo)
        requires
            old(self).wf(),
            info.wf(),
        ensures
            final(self).wf(),
            final(self)@ == old(self)@.insert((name@, version@), info@),
    {
        let ghost before = row_pairs(self.all());
        let ghost model = info@;
        match self.index_of(name, version) {
            Some(i) => {
                let row = PackageRow { name: name.to_owned(), version: version.to_owned(), info };
                proof {
                    assert(before[i as int] == self.all()[i as int].pair());
                    pairs_map_update(before, i as int, model);
                }
                self.rows.set(i, row);
                assert(row_pairs(self.all()) =~= before.update(
                    i as int,
                    ((name@, version@), model),
                ));
            },
            None => {
                let row = PackageRow { name: name.to_owned(), version: version.to_owned(), info };
                proof {
                    pairs_map_push(before, ((name@, version@), model));
                }
                self.rows.push(row);
                assert(row_pairs(self.all()) =~= before.push(((name@, version@), model)));
            },
        }
    }

    /// Takes a version of a package out, if it is there.
    pub fn remove(&mut self, name: &str, version: &str)
        requires
            old(self).wf(),
        ensures
            final(self).wf(),
            final(self)@ == old(self)@.remove((name@, version@)),
    {
        let ghost before = row_pairs(self.all());
        let ghost rows = self.all();
        match self.index_of(name, version) {
            Some(i) => {
                proof {
                    assert(before[i as int] == rows[i as int].pair());
                    pairs_map_remove(before, i as int);
                }
                self.rows.remove(i);
                proof {
                    assert(self.all() =~= rows.remove(i as int));
                    assert(row_pairs(self.all()) =~= before.remove(i as int));
                }
            },
            None => {
                assert(self@.remove((name@, version@)) =~= self@);
            },
        }
    }

    /// Puts a value into one of the sets of a version of a package, if that
    /// version is there.
    pub fn relate(&mut self, name: &str, version: &str, relation: Relation, value: &str)
        requires
            old(self).wf(),
        ensures
            final(self).wf(),
            final(self)@ == related(old(self)@, (name@, version@), relation, value@),
    {
        let ghost before = row_pairs(self.all());
        let ghost rows = self.all();
        match self.index_of(name, version) {
            None => {},
            Some(i) => {
                proof {
                    assert(before[i as int] == rows[i as int].pair());
                    assert(rows[i as int].info.wf());
                    pairs_map_at(before, i as int);
                    pairs_map_update(
                        before,
                        i as int,
                        related_info(rows[i as int].info@, relation, value@),
                    );
                }
                match relation {
                    Relation::RequiredBy => {
                        self.rows[i].info.required_by.insert(value);
                    },
                    Relation::DependsOn => {
                        self.rows[i].info.depends_on.insert(value);
                    },
                    Relation::ConflictsWith => {
                        self.rows[i].info.conflicts_with.insert(value);
                    },
                }
                proof {
                    assert(row_pairs(self.all()) =~= before.update(
                        i as int,
                        (before[i as int].0, related_info(rows[i as int].info@, relation, value@)),
                    ));
                    assert forall|j: int| 0 <= j < self.all().len() implies (
                    #[trigger] self.all()[j]).info.wf() by {
                        assert(rows[j].info.wf());
                    }
                }
            },
        }
    }

    /// A copy of the table.
    pub fn copy(&self) -> (r: PackageTable)
        requires
            self.wf(),
        ensures
            r.wf(),
            r@ == self@,
            row_pairs(r.all()) == row_pairs(self.all()),
    {
        let mut rows: Vec<PackageRow> = Vec::new();
        let mut i: usize = 0;
        while i < self.rows.len()
            invariant
                i <= self.rows@.len(),
                self.wf(),
                rows@.len() == i,
                forall|j: int| 0 <= j < i ==> (#[trigger] rows@[j]).info.wf(),
                forall|j: int| 0 <= j < i ==> (#[trigger] rows@[j]).pair() == self.all()[j].pair(),
            decreases self.rows@.len() - i,
        {
            assert(self.all()[i as int].info.wf());
            rows.push(
                PackageRow {
                    name: self.rows[i].name.clone(),
                    version: self.rows[i].version.clone(),
                    info: self.rows[i].info.copy(),
                },
            );
            i = i + 1;
        }
        let r = PackageTable { rows };
        proof {
            assert forall|j: int| 0 <= j < r.all().len() implies row_pairs(r.all())[j] == row_pairs(
                self.all(),
            )[j] by {
                assert(rows@[j].pair() == self.all()[j].pair());
            }
            assert(row_pairs(r.all()) =~= row_pairs(self.all()));
            assert forall|j: int| 0 <= j < r.all().len() implies (#[trigger] r.all()[j]).info.wf() by {
                assert(rows@[j].info.wf());
            }
        }
        r
    }

    /// A package is installed exactly where the map has a version of it.
    pub proof fn has_package_in_map(&self, name: Seq<char>)
        requires
            self.wf(),
        ensures
            self.has_package(name) == (exists|v: Seq<char>| #[trigger]
                self@.dom().contains((name, v))),
    {
        let s = row_pairs(self.all());
        if self.has_package(name) {
            let i = choose|i: int| 0 <= i < self.all().len() && (#[trigger] self.all()[i]).name@ == name;
            pairs_map_at(s, i);
            assert(s[i] == self.all()[i].pair());
            assert(self@.dom().contains((name, self.all()[i].version@)));
        }
        if exists|v: Seq<char>| #[trigger] self@.dom().contains((name, v)) {
            let v = choose|v: Seq<char>| #[trigger] self@.dom().contains((name, v));
            let i = key_index(s, (name, v));
            assert(s[i].0 == (name, v));
            assert(self.all()[i].name@ == name);
        }
    }
}

// ---------------------------------------------------------------------------
// Dependencies between installed versions
// ---------------------------------------------------------------------------

/// Whether a dependency names an installed version: by its package, and by its
/// version where it gives one.
pub open spec fn targets(dep: Seq<char>, key: (Seq<char>, Seq<char>)) -> bool {
    let (name, version) = pkg_ver(dep);
    name == key.0 && (version.len() == 0 || version == key.1)
}

/// Whether one of the dependencies names an installed version.
pub open spec fn wanted(deps: Set<Seq<char>>, key: (Seq<char>, Seq<char>)) -> bool {
    exists|d: Seq<char>| deps.contains(d) && #[trigger] targets(d, key)
}

/// The table with `who` added to, or taken from, what requires each version
/// that one of the dependencies names.
pub open spec fn relinked(
    m: Map<(Seq<char>, Seq<char>), InfoModel>,
    deps: Set<Seq<char>>,
    who: Seq<char>,
    link: bool,
) -> Map<(Seq<char>, Seq<char>), InfoModel> {
    Map::new(|k: (Seq<char>, Seq<char>)| m.dom().contains(k), |k: (Seq<char>, Seq<char>)| relinked_info(m[k], wanted(deps, k), who, link))
}

/// What is known of a version once `who` is added or taken.
pub open spec fn relinked_info(info: InfoModel, hit: bool, who: Seq<char>, link: bool) -> InfoModel {
    if !hit {
        info
    } else if link {
        InfoModel { required_by: info.required_by.insert(who), ..info }
    } else {
        InfoModel { required_by: info.required_by.remove(who), ..info }
    }
}

fn wants(deps: &NameSet, name: &str, version: &str) -> (r: bool)
    ensures
        r == wanted(deps@, (name@, version@)),
{
    let mut i: usize = 0;
    while i < deps.len()
        invariant
            i <= deps.texts().len(),
            forall|j: int| 0 <= j < i ==> !targets(#[trigger] deps.texts()[j], (name@, version@)),
        decreases deps.texts().len() - i,
    {
        let d = deps.at(i);
        let (n, v) = split_pkg_ver(d.as_str());
        proof {
            reveal_strlit("");
            if v@.len() == 0 {
                assert(v@ =~= ""@);
            }
        }
        if same(n.as_str(), name) && (same(v.as_str(), "") || same(v.as_str(), version)) {
            proof {
                assert(deps.texts().contains(deps.texts()[i as int]));
                assert(deps@.contains(d@));
                assert(targets(d@, (name@, version@)));
            }
            return true;
        }
        i = i + 1;
    }
    proof {
        if wanted(deps@, (name@, version@)) {
            let d = choose|d: Seq<char>| deps@.contains(d) && #[trigger] targets(d, (name@, version@));
            let j = choose|j: int| 0 <= j < deps.texts().len() && deps.texts()[j] == d;
            assert(targets(deps.texts()[j], (name@, version@)));
        }
    }
    false
}

impl PackageTable {
    /// What a version depends on; nothing, where it is not there.
    fn copied_deps(&self, name: &str, version: &str) -> (r: NameSet)
        requires
            self.wf(),
        ensures
            r.wf(),
            r@ == deps_of(self@, (name@, version@)),
    {
        match self.get(name, version) {
            Some(info) => info.depends_on.copy(),
            None => {
                let r = NameSet::new();
                assert(r@ =~= Set::<Seq<char>>::empty());
                r
            },
        }
    }

    /// The specs of the other versions that depend on a version.
    fn requirers_of(&self, name: &str, version: &str) -> (r: NameSet)
        requires
            self.wf(),
        ensures
            r.wf(),
            r@ == requirers(self@.remove((name@, version@)), (name@, version@)),
    {
        let ghost key = (name@, version@);
        let ghost m = self@.remove(key);
        let ghost s = row_pairs(self.all());
        let mut out = NameSet::new();
        let mut i: usize = 0;
        while i < self.rows.len()
            invariant
                i <= self.rows@.len(),
                self.wf(),
                key == (name@, version@),
                m == self@.remove(key),
                s == row_pairs(self.all()),
                out.wf(),
                forall|x: Seq<char>| #[trigger] out@.contains(x) ==> names_requirer(m, key, x),
                forall|j: int|
                    0 <= j < i && m.dom().contains((#[trigger] s[j]).0) && wanted(
                        m[s[j].0].depends_on,
                        key,
                    ) ==> out@.contains(pkg_key(s[j].0.0, s[j].0.1)),
            decreases self.rows@.len() - i,
        {
            let row = &self.rows[i];
            proof {
                pairs_map_at(s, i as int);
                assert(s[i as int] == self.all()[i as int].pair());
            }
            let own = same(row.name.as_str(), name) && same(row.version.as_str(), version);
            if !own && wants(&row.info.depends_on, name, version) {
                let spec = join_pkg_ver(row.name.as_str(), row.version.as_str());
                assert(m.dom().contains(s[i as int].0));
                out.insert(spec.as_str());
            }
            i = i + 1;
        }
        proof {
            assert forall|x: Seq<char>| #[trigger] out@.contains(x) == requirers(m, key).contains(x) by {
                if names_requirer(m, key, x) {
                    let k = choose|k: (Seq<char>, Seq<char>)| #[trigger]
                        m.dom().contains(k) && wanted(m[k].depends_on, key) && x == pkg_key(k.0, k.1);
                    let j = key_index(s, k);
                    assert(has_key(s, k));
                    assert(s[j].0 == k);
                }
            }
            assert(out@ =~= requirers(m, key));
        }
        out
    }

    /// Adds `who` to, or takes it from, what requires each version that one of
    /// the dependencies names.
    fn relink(&mut self, deps: &NameSet, who: &str, link: bool)
        requires
            old(self).wf(),
        ensures
            final(self).wf(),
            final(self)@ == relinked(old(self)@, deps@, who@, link),
    {
        let ghost before = self.all();
        let mut i: usize = 0;
        while i < self.rows.len()
            invariant
                i <= self.rows@.len(),
                self.all().len() == before.len(),
                forall|j: int| 0 <= j < before.len() ==> (#[trigger] before[j]).info.wf(),
                forall|j: int| 0 <= j < before.len() ==> (#[trigger] self.all()[j]).info.wf(),
                forall|j: int| i <= j < before.len() ==> #[trigger] self.all()[j] == before[j],
                forall|j: int| 0 <= j < before.len() ==> (#[trigger] self.all()[j]).key() == before[j].key(),
                forall|j: int|
                    0 <= j < i ==> (#[trigger] self.all()[j]).info@ == relinked_info(
                        before[j].info@,
                        wanted(deps@, before[j].key()),
                        who@,
                        link,
                    ),
            decreases self.rows@.len() - i,
        {
            assert(self.all()[i as int] == before[i as int]);
            let hit = wants(deps, self.rows[i].name.as_str(), self.rows[i].version.as_str());
            if hit {
                if link {
                    self.rows[i].info.required_by.insert(who);
                } else {
                    self.rows[i].info.required_by.remove(who);
                }
            }
            i = i + 1;
        }
        proof {
            let s = row_pairs(before);
            let t = row_pairs(self.all());
            assert forall|j: int| 0 <= j < s.len() implies (#[trigger] s[j]).0 == t[j].0 by {
                assert(self.all()[j].key() == before[j].key());
            }
            pairs_map_same_keys(s, t);
            let m = relinked(old(self)@, deps@, who@, link);
            assert(self@.dom() =~= m.dom());
            assert forall|k: (Seq<char>, Seq<char>)| self@.dom().contains(k) implies self@[k] == m[k] by {
                let j = key_index(s, k);
                assert(has_key(s, k));
                pairs_map_at(s, j);
                assert(s[j] == before[j].pair());
                assert(self@[s[j].0] == t[j].1);
                assert(t[j] == self.all()[j].pair());
            }
            assert(self@ =~= m);
        }
    }
}

// ---------------------------------------------------------------------------
// History
// ---------------------------------------------------------------------------

/// The number of snapshots that the history keeps.
pub const MAX_HISTORY: usize = 20;

/// A snapshot of the installed packages, taken before a change.
#[derive(Debug)]
pub struct RollbackEntry {
    pub timestamp: u64,
    pub description: String,
    pub snapshot: PackageTable,
}

/// A snapshot as a mathematical value.
#[verifier::ext_equal]
pub struct EntryModel {
    pub timestamp: u64,
    pub description: Seq<char>,
    pub snapshot: Map<(Seq<char>, Seq<char>), InfoModel>,
}

impl View for RollbackEntry {
    type V = EntryModel;

    open spec fn view(&self) -> EntryModel {
        EntryModel {
            timestamp: self.timestamp,
            description: self.description@,
            snapshot: self.snapshot@,
        }
    }
}

/// The snapshots of a history.
pub open spec fn entries(h: Seq<RollbackEntry>) -> Seq<EntryModel> {
    h.map_values(|e: RollbackEntry| e@)
}

/// The newest snapshots of a history, as many as it keeps.
pub open spec fn capped(h: Seq<EntryModel>) -> Seq<EntryModel> {
    if h.len() > MAX_HISTORY {
        h.skip(h.len() - MAX_HISTORY)
    } else {
        h
    }
}

// ---------------------------------------------------------------------------
// The state
// ---------------------------------------------------------------------------

/// The installed packages and the history of changes to them.
#[derive(Debug)]
pub struct State {
    pub packages: PackageTable,
    /// Snapshots, oldest first.
    pub history: Vec<RollbackEntry>,
}

/// Why a request about an installed package is refused.
#[derive(Clone, Copy, PartialEq, Eq, Structural, Debug)]
pub enum StateError {
    /// No version of the package is installed.
    PackageNotInstalled,
    /// The package is installed, but not in that version.
    VersionNotInstalled,
}

/// What an installed version depends on; nothing, where it is not installed.
pub open spec fn deps_of(
    m: Map<(Seq<char>, Seq<char>), InfoModel>,
    key: (Seq<char>, Seq<char>),
) -> Set<Seq<char>> {
    if m.dom().contains(key) {
        m[key].depends_on
    } else {
        Set::empty()
    }
}

/// Whether a text names an installed version that depends on this one.
pub open spec fn names_requirer(
    m: Map<(Seq<char>, Seq<char>), InfoModel>,
    key: (Seq<char>, Seq<char>),
    x: Seq<char>,
) -> bool {
    exists|k: (Seq<char>, Seq<char>)| #[trigger]
        m.dom().contains(k) && wanted(m[k].depends_on, key) && x == pkg_key(k.0, k.1)
}

/// The specs of the installed versions that depend on this one.
pub open spec fn requirers(
    m: Map<(Seq<char>, Seq<char>), InfoModel>,
    key: (Seq<char>, Seq<char>),
) -> Set<Seq<char>> {
    Set::new(|x: Seq<char>| names_requirer(m, key, x))
}

/// The packages after a version of one is installed, in place of what was known
/// of that version: it is required by the versions that depend on it, and it
/// requires those that it depends on.
pub open spec fn after_update(
    m: Map<(Seq<char>, Seq<char>), InfoModel>,
    package: Seq<char>,
    version: Seq<char>,
    info: InfoModel,
) -> Map<(Seq<char>, Seq<char>), InfoModel> {
    let key = (package, version);
    let who = pkg_key(package, version);
    let info = InfoModel { required_by: requirers(m.remove(key), key), ..info };
    relinked(relinked(m, deps_of(m, key), who, false).insert(key, info), info.depends_on, who, true)
}

/// The packages after a version of one is removed.
pub open spec fn after_remove(
    m: Map<(Seq<char>, Seq<char>), InfoModel>,
    package: Seq<char>,
    version: Seq<char>,
) -> Map<(Seq<char>, Seq<char>), InfoModel> {
    let key = (package, version);
    relinked(m, deps_of(m, key), pkg_key(package, version), false).remove(key)
}

impl State {
    /// The table and every snapshot are well formed.
    pub open spec fn wf(&self) -> bool {
        &&& self.packages.wf()
        &&& forall|i: int| 0 <= i < self.history@.len() ==> (#[trigger] self.history@[i]).snapshot.wf()
    }

    /// A state with nothing installed and no history.
    pub fn new() -> (r: State)
        ensures
            r.wf(),
            r.packages@ == Map::<(Seq<char>, Seq<char>), InfoModel>::empty(),
            r.history@ == Seq::<RollbackEntry>::empty(),
    {
        State { packages: PackageTable::new(), history: Vec::new() }
    }

    /// Records the installed packages in the history, which keeps the newest
    /// `MAX_HISTORY` snapshots.
    pub fn push_snapshot(&mut self, now: u64, description: &str)
        requires
            old(self).wf(),
        ensures
            final(self).wf(),
            final(self).packages == old(self).packages,
            entries(final(self).history@) == capped(
                entries(old(self).history@).push(
                    (EntryModel {
                        timestamp: now,
                        description: description@,
                        snapshot: old(self).packages@,
                    }),
                ),
            ),
    {
        let entry = RollbackEntry {
            timestamp: now,
            description: description.to_owned(),
            snapshot: self.packages.copy(),
        };
        let ghost full = entries(self.history@).push(entry@);
        self.history.push(entry);
        assert(entries(self.history@) =~= full);
        assert(full.skip(0) =~= full);
        while self.history.len() > MAX_HISTORY
            invariant
                self.wf(),
                self.packages == old(self).packages,
                self.history@.len() <= full.len(),
                full.len() <= MAX_HISTORY ==> self.history@.len() == full.len(),
                full.len() > MAX_HISTORY ==> self.history@.len() >= MAX_HISTORY,
                entries(self.history@) == full.skip(full.len() - self.history@.len()),
            decreases self.history@.len(),
        {
            let ghost h = self.history@;
            self.history.remove(0);
            proof {
                assert(self.history@ =~= h.remove(0));
                assert forall|i: int| 0 <= i < self.history@.len() implies (
                #[trigger] self.history@[i]).snapshot.wf() by {
                    assert(h[i + 1].snapshot.wf());
                }
                let now_left = entries(self.history@);
                let wanted_left = full.skip(full.len() - self.history@.len());
                assert forall|i: int| 0 <= i < now_left.len() implies now_left[i] == wanted_left[i] by {
                    assert(now_left[i] == h[i + 1]@);
                    assert(entries(h)[i + 1] == h[i + 1]@);
                    assert(full.skip(full.len() - h.len())[i + 1] == wanted_left[i]);
                }
                assert(now_left =~= wanted_left);
            }
        }
    }

    /// Takes the newest snapshot out of the history.
    pub fn pop_snapshot(&mut self) -> (r: Option<RollbackEntry>)
        requires
            old(self).wf(),
        ensures
            final(self).wf(),
            final(self).packages == old(self).packages,
            match r {
                Some(e) => old(self).history@.len() > 0 && e == old(self).history@.last()
                    && final(self).history@ == old(self).history@.drop_last(),
                None => old(self).history@.len() == 0 && final(self).history@ == old(self).history@,
            },
    {
        self.history.pop()
    }

    /// The history: the index, the time and the description of each snapshot.
    pub fn list_history(&self) -> (r: Vec<(usize, u64, String)>)
        ensures
            r@.len() == self.history@.len(),
            forall|i: int|
                0 <= i < r@.len() ==> {
                    &&& (#[trigger] r@[i]).0 == i
                    &&& r@[i].1 == self.history@[i].timestamp
                    &&& r@[i].2@ == self.history@[i].description@
                },
    {
        let mut out: Vec<(usize, u64, String)> = Vec::new();
        let mut i: usize = 0;
        while i < self.history.len()
            invariant
                i <= self.history@.len(),
                out@.len() == i,
                forall|j: int|
                    0 <= j < i ==> {
                        &&& (#[trigger] out@[j]).0 == j
                        &&& out@[j].1 == self.history@[j].timestamp
                        &&& out@[j].2@ == self.history@[j].description@
                    },
            decreases self.history@.len() - i,
        {
            out.push((i, self.history[i].timestamp, self.history[i].description.clone()));
            i = i + 1;
        }
        out
    }

    /// Puts the packages back as a snapshot has them, and records how they were
    /// before that. `false`, and nothing done, where there is no such snapshot.
    pub fn restore_snapshot(&mut self, index: usize, now: u64) -> (r: bool)
        requires
            old(self).wf(),
        ensures
            final(self).wf(),
            r == (index < old(self).history@.len()),
            !r ==> *final(self) == *old(self),
            r ==> final(self).packages@ == old(self).history@[index as int].snapshot@,
            r ==> entries(final(self).history@) == capped(
                entries(old(self).history@).push(
                    (EntryModel {
                        timestamp: now,
                        description: "pre-rollback snapshot"@,
                        snapshot: old(self).packages@,
                    }),
                ),
            ),
    {
        if index >= self.history.len() {
            return false;
        }
        assert(self.history@[index as int].snapshot.wf());
        let snapshot = self.history[index].snapshot.copy();
        self.push_snapshot(now, "pre-rollback snapshot");
        self.packages = snapshot;
        true
    }

    /// Records that a version of a package is installed, what requires it, and in
    /// each installed version that it depends on, that it does.
    pub fn update_package(
        &mut self,
        package: &str,
        version: &str,
        checksum: &str,
        manually_installed: bool,
        depends_on: NameSet,
        conflicts_with: NameSet,
        now: u64,
    )
        requires
            old(self).wf(),
            depends_on.wf(),
            conflicts_with.wf(),
        ensures
            final(self).wf(),
            final(self).history == old(self).history,
            final(self).packages@ == after_update(
                old(self).packages@,
                package@,
                version@,
                (InfoModel {
                    depends_on: depends_on@,
                    conflicts_with: conflicts_with@,
                    ..fresh_info(checksum@, manually_installed, now)
                }),
            ),
    {
        let key = join_pkg_ver(package, version);
        let required_by = self.packages.requirers_of(package, version);
        let old_deps = self.packages.copied_deps(package, version);
        self.packages.relink(&old_deps, key.as_str(), false);
        let mut info = VersionInfo::new(checksum, manually_installed, now);
        info.required_by = required_by;
        info.depends_on = depends_on.copy();
        info.conflicts_with = conflicts_with;
        self.packages.insert(package, version, info);
        self.packages.relink(&depends_on, key.as_str(), true);
    }

    /// Records that a version of a package is gone, in the versions that it
    /// depended on too, and forgets the wrapper names chosen for the package.
    pub fn remove_package_version(&mut self, names: &mut WrapperNames, package: &str, version: &str)
        requires
            old(self).wf(),
            old(names).wf(),
        ensures
            final(self).wf(),
            final(self).history == old(self).history,
            final(self).packages@ == after_remove(old(self).packages@, package@, version@),
            final(names).wf(),
            final(names)@ == without_pkg(old(names)@, package@),
    {
        let deps = self.packages.copied_deps(package, version);
        let key = join_pkg_ver(package, version);
        self.packages.relink(&deps, key.as_str(), false);
        self.packages.remove(package, version);
        names.remove_pkg(package);
    }
}

// ---------------------------------------------------------------------------
// Wrapper names
// ---------------------------------------------------------------------------

/// The names of command wrappers that were chosen where a binary's own name
/// was taken.
#[derive(Debug)]
pub struct WrapperNames {
    pub names: NameMap,
}

/// The key of a binary of a package.
pub open spec fn wrapper_key(pkg_name: Seq<char>, bin_name: Seq<char>) -> Seq<char> {
    pkg_name + ":"@ + bin_name
}

/// The names without those of a package.
pub open spec fn without_pkg(
    m: Map<Seq<char>, Seq<char>>,
    pkg_name: Seq<char>,
) -> Map<Seq<char>, Seq<char>> {
    m.remove_keys(Set::new(|k: Seq<char>| has_prefix(k, pkg_name + ":"@)))
}

impl View for WrapperNames {
    type V = Map<Seq<char>, Seq<char>>;

    open spec fn view(&self) -> Map<Seq<char>, Seq<char>> {
        self.names@
    }
}

impl WrapperNames {
    /// No key occurs twice.
    pub open spec fn wf(&self) -> bool {
        self.names.wf()
    }

    /// No name chosen yet.
    pub fn new() -> (r: WrapperNames)
        ensures
            r.wf(),
            r@ == Map::<Seq<char>, Seq<char>>::empty(),
    {
        WrapperNames { names: NameMap::new() }
    }

    /// The key of a binary of a package.
    pub fn key(pkg_name: &str, bin_name: &str) -> (r: String)
        ensures
            r@ == wrapper_key(pkg_name@, bin_name@),
    {
        let mut s = pkg_name.to_owned();
        s.append(":");
        s.append(bin_name);
        s
    }

    /// The name chosen for a binary of a package.
    pub fn get(&self, pkg_name: &str, bin_name: &str) -> (r: Option<&String>)
        requires
            self.wf(),
        ensures
            match r {
                Some(n) => self@.dom().contains(wrapper_key(pkg_name@, bin_name@))
                    && self@[wrapper_key(pkg_name@, bin_name@)] == n@,
                None => !self@.dom().contains(wrapper_key(pkg_name@, bin_name@)),
            },
    {
        let k = WrapperNames::key(pkg_name, bin_name);
        self.names.get(k.as_str())
    }

    /// Chooses a name for a binary of a package.
    pub fn set(&mut self, pkg_name: &str, bin_name: &str, wrapper_name: &str)
        requires
            old(self).wf(),
        ensures
            final(self).wf(),
            final(self)@ == old(self)@.insert(wrapper_key(pkg_name@, bin_name@), wrapper_name@),
    {
        let k = WrapperNames::key(pkg_name, bin_name);
        self.names.insert(k.as_str(), wrapper_name);
    }

    /// Forgets the names chosen for a package.
    pub fn remove_pkg(&mut self, pkg_name: &str)
        requires
            old(self).wf(),
        ensures
            final(self).wf(),
            final(self)@ == without_pkg(old(self)@, pkg_name@),
    {
        let mut prefix = pkg_name.to_owned();
        prefix.append(":");
        self.names.remove_prefix(prefix.as_str());
    }
}

/// Forgetting the names of a package forgets each of its binaries, and leaves
/// every name of another package, if neither package's name holds a colon.
pub proof fn without_pkg_forgets_only_it(
    m: Map<Seq<char>, Seq<char>>,
    pkg: Seq<char>,
    other: Seq<char>,
    bin: Seq<char>,
)
    requires
        !pkg.contains(':'),
        !other.contains(':'),
        pkg != other,
    ensures
        !without_pkg(m, pkg).dom().contains(wrapper_key(pkg, bin)),
        without_pkg(m, pkg).dom().contains(wrapper_key(other, bin)) == m.dom().contains(
            wrapper_key(other, bin),
        ),
        m.dom().contains(wrapper_key(other, bin)) ==> without_pkg(m, pkg)[wrapper_key(other, bin)]
            == m[wrapper_key(other, bin)],
{
    reveal_strlit(":");
    let p = pkg + ":"@;
    let k = wrapper_key(pkg, bin);
    assert(k.take(p.len() as int) =~= p);
    let o = wrapper_key(other, bin);
    if has_prefix(o, p) {
        assert(cut(o, ':') == Some((other, bin))) by {
            cut_of_joined(other, ':', bin);
            assert(o =~= other.push(':') + bin);
        }
        let rest = o.skip(p.len() as int);
        assert(o =~= pkg.push(':') + rest) by {
            assert(o =~= o.take(p.len() as int) + rest);
            assert(p =~= pkg.push(':'));
        }
        cut_of_joined(pkg, ':', rest);
        assert(false);
    }
}

// ---------------------------------------------------------------------------
// Questions about the installed packages
// ---------------------------------------------------------------------------

/// Whether one of the dependencies is on a package, in whatever version.
pub open spec fn depends_on_package(deps: Set<Seq<char>>, package: Seq<char>) -> bool {
    exists|d: Seq<char>| deps.contains(d) && (#[trigger] pkg_ver(d)).0 == package
}

/// Whether the names of a set that speak of a package speak of this one.
fn names_package(deps: &NameSet, package: &str) -> (r: bool)
    ensures
        r == depends_on_package(deps@, package@),
{
    let mut i: usize = 0;
    while i < deps.len()
        invariant
            i <= deps.texts().len(),
            forall|j: int| 0 <= j < i ==> (#[trigger] pkg_ver(deps.texts()[j])).0 != package@,
        decreases deps.texts().len() - i,
    {
        let d = deps.at(i);
        let (n, _v) = split_pkg_ver(d.as_str());
        if same(n.as_str(), package) {
            proof {
                assert(deps.texts().contains(deps.texts()[i as int]));
                assert(deps@.contains(d@));
            }
            return true;
        }
        i = i + 1;
    }
    proof {
        if depends_on_package(deps@, package@) {
            let d = choose|d: Seq<char>| deps@.contains(d) && (#[trigger] pkg_ver(d)).0 == package@;
            let j = choose|j: int| 0 <= j < deps.texts().len() && deps.texts()[j] == d;
            assert(pkg_ver(deps.texts()[j]).0 == package@);
        }
    }
    false
}

/// Whether an installed version is of another package and depends on this one.
pub open spec fn is_reverse_dep(
    m: Map<(Seq<char>, Seq<char>), InfoModel>,
    package: Seq<char>,
    key: (Seq<char>, Seq<char>),
) -> bool {
    m.dom().contains(key) && key.0 != package && depends_on_package(m[key].depends_on, package)
}

/// Whether a text names an installed version of another package that depends on
/// this one.
pub open spec fn names_dependent(
    m: Map<(Seq<char>, Seq<char>), InfoModel>,
    package: Seq<char>,
    x: Seq<char>,
) -> bool {
    exists|k: (Seq<char>, Seq<char>)| #[trigger] is_reverse_dep(m, package, k) && x == pkg_key(k.0, k.1)
}

/// The installed versions of other packages that depend on this one, in order.
pub open spec fn dependents(m: Map<(Seq<char>, Seq<char>), InfoModel>, package: Seq<char>) -> Seq<Seq<char>> {
    choose|s: Seq<Seq<char>>| #[trigger]
        strictly_sorted(s) && forall|x: Seq<char>| #[trigger]
            s.contains(x) == names_dependent(m, package, x)
}

/// Whether an installed version was not asked for and nothing requires it.
pub open spec fn is_orphan(
    m: Map<(Seq<char>, Seq<char>), InfoModel>,
    key: (Seq<char>, Seq<char>),
) -> bool {
    m.dom().contains(key) && !m[key].manually_installed && m[key].required_by
        == Set::<Seq<char>>::empty()
}

/// `n` times the same text.
pub open spec fn repeated(text: Seq<char>, n: nat) -> Seq<Seq<char>> {
    Seq::new(n, |i: int| text)
}

/// How many of the names speak of a package.
pub open spec fn mentions(names: Seq<Seq<char>>, package: Seq<char>) -> nat
    decreases names.len(),
{
    if names.len() == 0 {
        0
    } else {
        mentions(names.drop_last(), package) + (if pkg_ver(names.last()).0 == package {
            1nat
        } else {
            0nat
        })
    }
}

/// A complaint for each declaration of an installed version against a package.
pub open spec fn installed_complaints(rows: Seq<PackageRow>, package: Seq<char>) -> Seq<Seq<char>>
    decreases rows.len(),
{
    if rows.len() == 0 {
        Seq::empty()
    } else {
        let row = rows.last();
        installed_complaints(rows.drop_last(), package) + repeated(
            pkg_key(row.name@, row.version@) + " conflicts with "@ + package,
            mentions(row.info.conflicts_with.texts(), package),
        )
    }
}

/// A complaint for each declared conflict with a package that is installed.
pub open spec fn declared_complaints(
    table: PackageTable,
    package: Seq<char>,
    declared: Seq<Seq<char>>,
) -> Seq<Seq<char>>
    decreases declared.len(),
{
    if declared.len() == 0 {
        Seq::empty()
    } else {
        let rest = declared_complaints(table, package, declared.drop_last());
        let name = pkg_ver(declared.last()).0;
        if table.has_package(name) {
            rest.push(package + " conflicts with installed package "@ + name)
        } else {
            rest
        }
    }
}

/// The text before the first occurrence of `x` in `s`.
pub open spec fn text_before(s: Seq<Seq<char>>, x: Seq<char>) -> Option<Seq<char>>
    decreases s.len(),
{
    if s.len() < 2 || s[0] == x {
        None
    } else if s[1] == x {
        Some(s[0])
    } else {
        text_before(s.drop_first(), x)
    }
}

impl State {
    /// The installed versions of other packages that depend on a package, in order.
    pub fn reverse_deps(&self, package: &str) -> (r: Vec<String>)
        requires
            self.wf(),
        ensures
            strictly_sorted(strs(r@)),
            forall|x: Seq<char>| #[trigger]
                strs(r@).contains(x) == names_dependent(self.packages@, package@, x),
            strs(r@) == dependents(self.packages@, package@),
    {
        let ghost m = self.packages@;
        let ghost s = row_pairs(self.packages.all());
        let mut out: Vec<String> = Vec::new();
        let mut i: usize = 0;
        while i < self.packages.len()
            invariant
                self.wf(),
                m == self.packages@,
                s == row_pairs(self.packages.all()),
                i <= s.len(),
                forall|x: Seq<char>| #[trigger]
                    strs(out@).contains(x) == (exists|j: int|
                        0 <= j < i && is_reverse_dep(m, package@, (#[trigger] s[j]).0) && x
                            == pkg_key(s[j].0.0, s[j].0.1)),
            decreases s.len() - i,
        {
            let row = self.packages.row(i);
            let ghost before = strs(out@);
            proof {
                pairs_map_at(s, i as int);
                assert(s[i as int] == self.packages.all()[i as int].pair());
            }
            let hit = !same(row.name.as_str(), package) && names_package(
                &row.info.depends_on,
                package,
            );
            assert(hit == is_reverse_dep(m, package@, s[i as int].0));
            if hit {
                let text = join_pkg_ver(row.name.as_str(), row.version.as_str());
                proof {
                    strs_push(out@, text);
                }
                out.push(text);
                proof {
                    let after = strs(out@);
                    assert forall|x: Seq<char>| #[trigger] after.contains(x) == (exists|j: int|
                        0 <= j < i + 1 && is_reverse_dep(m, package@, (#[trigger] s[j]).0) && x
                            == pkg_key(s[j].0.0, s[j].0.1)) by {
                        assert(after[before.len() as int] == text@);
                        if after.contains(x) {
                            let a = choose|a: int| 0 <= a < after.len() && after[a] == x;
                            if a < before.len() {
                                assert(before[a] == x);
                                assert(before.contains(x));
                            } else {
                                assert(x == pkg_key(s[i as int].0.0, s[i as int].0.1));
                            }
                        }
                        if before.contains(x) {
                            let a = choose|a: int| 0 <= a < before.len() && before[a] == x;
                            assert(after[a] == x);
                        }
                    }
                }
            }
            i = i + 1;
        }
        proof {
            assert forall|x: Seq<char>| #[trigger] strs(out@).contains(x) == (exists|k: (
                Seq<char>,
                Seq<char>,
            )| #[trigger] is_reverse_dep(m, package@, k) && x == pkg_key(k.0, k.1)) by {
                if exists|k: (Seq<char>, Seq<char>)| #[trigger]
                    is_reverse_dep(m, package@, k) && x == pkg_key(k.0, k.1) {
                    let k = choose|k: (Seq<char>, Seq<char>)| #[trigger]
                        is_reverse_dep(m, package@, k) && x == pkg_key(k.0, k.1);
                    let j = key_index(s, k);
                    assert(has_key(s, k));
                    assert(s[j].0 == k);
                }
            }
        }
        let r = sort_unique(out);
        proof {
            let t = strs(r@);
            let u = dependents(m, package@);
            assert forall|x: Seq<char>| #[trigger] t.contains(x) == names_dependent(m, package@, x) by {
                assert(strs(out@).contains(x) == names_dependent(m, package@, x));
            }
            assert forall|x: Seq<char>| #[trigger] t.contains(x) == u.contains(x) by {}
            strictly_sorted_unique(t, u);
        }
        r
    }

    /// The installed versions that were not asked for and that nothing
    /// requires, in order.
    pub fn orphans(&self) -> (r: Vec<(String, String)>)
        requires
            self.wf(),
        ensures
            pairs_sorted(pair_texts(r@)),
            pair_texts(r@).no_duplicates(),
            forall|k: (Seq<char>, Seq<char>)| #[trigger]
                pair_texts(r@).contains(k) == is_orphan(self.packages@, k),
    {
        let ghost m = self.packages@;
        let ghost s = row_pairs(self.packages.all());
        let mut out: Vec<(String, String)> = Vec::new();
        let ghost mut from: Seq<int> = Seq::empty();
        let mut i: usize = 0;
        while i < self.packages.len()
            invariant
                self.wf(),
                m == self.packages@,
                s == row_pairs(self.packages.all()),
                i <= s.len(),
                from.len() == out@.len(),
                forall|a: int| 0 <= a < from.len() ==> 0 <= #[trigger] from[a] < i && s[from[a]].0
                    == pair_texts(out@)[a] && is_orphan(m, s[from[a]].0),
                forall|a: int, b: int| 0 <= a < b < from.len() ==> #[trigger] from[a] < #[trigger] from[b],
                forall|j: int| 0 <= j < i && is_orphan(m, (#[trigger] s[j]).0) ==> pair_texts(out@).contains(s[j].0),
            decreases s.len() - i,
        {
            let row = self.packages.row(i);
            let ghost before = pair_texts(out@);
            proof {
                pairs_map_at(s, i as int);
                assert(s[i as int] == self.packages.all()[i as int].pair());
            }
            if !row.info.manually_installed && row.info.required_by.is_empty() {
                out.push((row.name.clone(), row.version.clone()));
                proof {
                    from = from.push(i as int);
                    let after = pair_texts(out@);
                    assert(after =~= before.push(s[i as int].0));
                    assert forall|j: int| 0 <= j < i + 1 && is_orphan(m, (#[trigger] s[j]).0) implies after.contains(s[j].0) by {
                        if j < i {
                            let a = choose|a: int| 0 <= a < before.len() && before[a] == s[j].0;
                            assert(after[a] == s[j].0);
                        } else {
                            assert(after[before.len() as int] == s[j].0);
                        }
                    }
                }
            }
            i = i + 1;
        }
        let r = sort_pairs(&out);
        proof {
            let p = pair_texts(out@);
            let q = pair_texts(r@);
            assert forall|a: int, b: int| 0 <= a < p.len() && 0 <= b < p.len() && a != b implies p[a] != p[b] by {
                if a < b {
                    assert(from[a] < from[b]);
                    assert(s[from[a]].0 != s[from[b]].0);
                } else {
                    assert(from[b] < from[a]);
                    assert(s[from[b]].0 != s[from[a]].0);
                }
            }
            pairs_same_multiset(p, q);
            assert forall|k: (Seq<char>, Seq<char>)| #[trigger] q.contains(k) == is_orphan(m, k) by {
                if p.contains(k) {
                    let a = choose|a: int| 0 <= a < p.len() && p[a] == k;
                    assert(0 <= from[a] < i);
                }
                if is_orphan(m, k) {
                    let j = key_index(s, k);
                    assert(has_key(s, k));
                    assert(s[j].0 == k);
                }
            }
        }
        r
    }

    /// The complaints against installing a package: of installed versions that
    /// declare a conflict with it, and of its own declared conflicts.
    pub fn check_conflicts(&self, package: &str, declared: &Vec<String>) -> (r: Vec<String>)
        requires
            self.wf(),
        ensures
            strs(r@) == installed_complaints(self.packages.all(), package@) + declared_complaints(
                self.packages,
                package@,
                strs(declared@),
            ),
    {
        let mut out: Vec<String> = Vec::new();
        let mut i: usize = 0;
        let ghost rows = self.packages.all();
        assert(rows.take(0) =~= Seq::<PackageRow>::empty());
        assert(strs(out@) =~= Seq::<Seq<char>>::empty());
        while i < self.packages.len()
            invariant
                i <= rows.len(),
                rows == self.packages.all(),
                strs(out@) == installed_complaints(rows.take(i as int), package@),
            decreases rows.len() - i,
        {
            let row = self.packages.row(i);
            let ghost start = strs(out@);
            let ghost text = pkg_key(row.name@, row.version@) + " conflicts with "@ + package@;
            let ghost names = row.info.conflicts_with.texts();
            let mut j: usize = 0;
            assert(names.take(0) =~= Seq::<Seq<char>>::empty());
            assert(start + repeated(text, 0) =~= start);
            while j < row.info.conflicts_with.len()
                invariant
                    j <= names.len(),
                    names == row.info.conflicts_with.texts(),
                    text == pkg_key(row.name@, row.version@) + " conflicts with "@ + package@,
                    strs(out@) == start + repeated(text, mentions(names.take(j as int), package@)),
                decreases names.len() - j,
            {
                let (n, _v) = split_pkg_ver(row.info.conflicts_with.at(j).as_str());
                proof {
                    let longer = names.take(j + 1);
                    assert(longer.drop_last() =~= names.take(j as int));
                }
                if same(n.as_str(), package) {
                    let mut s = join_pkg_ver(row.name.as_str(), row.version.as_str());
                    s.append(" conflicts with ");
                    s.append(package);
                    proof {
                        strs_push(out@, s);
                        let c = mentions(names.take(j as int), package@);
                        assert(start + repeated(text, c + 1) =~= (start + repeated(text, c)).push(text));
                    }
                    out.push(s);
                }
                j = j + 1;
            }
            proof {
                assert(names.take(names.len() as int) =~= names);
                let longer = rows.take(i + 1);
                assert(longer.drop_last() =~= rows.take(i as int));
            }
            i = i + 1;
        }
        assert(rows.take(rows.len() as int) =~= rows);
        let ghost first = strs(out@);
        let mut k: usize = 0;
        assert(strs(declared@).take(0) =~= Seq::<Seq<char>>::empty());
        assert(first + declared_complaints(self.packages, package@, strs(declared@).take(0)) =~= first);
        while k < declared.len()
            invariant
                k <= declared@.len(),
                strs(out@) == first + declared_complaints(
                    self.packages,
                    package@,
                    strs(declared@).take(k as int),
                ),
            decreases declared@.len() - k,
        {
            let (n, _v) = split_pkg_ver(declared[k].as_str());
            proof {
                let longer = strs(declared@).take(k + 1);
                assert(longer.drop_last() =~= strs(declared@).take(k as int));
                assert(longer.last() == declared@[k as int]@);
            }
            if self.packages.contains(n.as_str()) {
                let mut s = package.to_owned();
                s.append(" conflicts with installed package ");
                s.append(n.as_str());
                let ghost before = declared_complaints(self.packages, package@, strs(declared@).take(k as int));
                proof {
                    strs_push(out@, s);
                    assert(first + before.push(s@) =~= (first + before).push(s@));
                }
                out.push(s);
            }
            k = k + 1;
        }
        assert(strs(declared@).take(declared@.len() as int) =~= strs(declared@));
        out
    }

    /// The installed version just older than the current one.
    pub fn get_previous_version(&self, package: &str, current: &Option<String>) -> (r: Option<String>)
        ensures
            match r {
                Some(v) => current is Some && text_before(
                    version_sorted(versions_in(self.packages.all(), package@)),
                    current->0@,
                ) == Some(v@),
                None => current is None || text_before(
                    version_sorted(versions_in(self.packages.all(), package@)),
                    current->0@,
                ) is None,
            },
    {
        match current {
            None => None,
            Some(cur) => {
                let all = self.packages.versions_of(package);
                let sorted = sort_versions(&all);
                let mut i: usize = 1;
                let ghost s = strs(sorted@);
                assert(s.skip(0) =~= s);
                if sorted.len() == 0 || same(sorted[0].as_str(), cur.as_str()) {
                    return None;
                }
                while i < sorted.len()
                    invariant
                        1 <= i <= sorted@.len(),
                        s == strs(sorted@),
                        s == version_sorted(versions_in(self.packages.all(), package@)),
                        current is Some,
                        current->0@ == cur@,
                        s[i - 1] != cur@,
                        text_before(s, cur@) == text_before(s.skip(i - 1), cur@),
                    decreases sorted@.len() - i,
                {
                    assert(s.skip(i - 1)[0] == s[i - 1]);
                    assert(s.skip(i - 1)[1] == s[i as int]);
                    if same(sorted[i].as_str(), cur.as_str()) {
                        return Some(sorted[i - 1].clone());
                    }
                    assert(s.skip(i - 1).drop_first() =~= s.skip(i as int));
                    i = i + 1;
                }
                None
            },
        }
    }

    /// Whether a version of a package is installed, and if not, why not.
    pub fn find_installed(&self, package: &str, version: &str) -> (r: Result<(), StateError>)
        requires
            self.wf(),
        ensures
            match r {
                Ok(_) => self.packages@.dom().contains((package@, version@)),
                Err(StateError::PackageNotInstalled) => !self.packages.has_package(package@),
                Err(StateError::VersionNotInstalled) => self.packages.has_package(package@)
                    && !self.packages@.dom().contains((package@, version@)),
            },
    {
        if !self.packages.contains(package) {
            return Err(StateError::PackageNotInstalled);
        }
        match self.packages.get(package, version) {
            Some(_) => {
                Ok(())
            },
            None => Err(StateError::VersionNotInstalled),
        }
    }

    /// Pins a version of a package, or unpins it: updates leave a pinned one alone.
    pub fn set_pinned(&mut self, package: &str, version: &str, pinned: bool) -> (r: Result<(), StateError>)
        requires
            old(self).wf(),
        ensures
            final(self).wf(),
            final(self).history == old(self).history,
            match r {
                Ok(_) => {
                    &&& old(self).packages@.dom().contains((package@, version@))
                    &&& final(self).packages@ == old(self).packages@.insert(
                        (package@, version@),
                        (InfoModel { pinned, ..old(self).packages@[(package@, version@)] }),
                    )
                },
                Err(StateError::PackageNotInstalled) => final(self).packages == old(self).packages && !old(self).packages.has_package(package@),
                Err(StateError::VersionNotInstalled) => final(self).packages == old(self).packages && old(self).packages.has_package(package@)
                    && !old(self).packages@.dom().contains((package@, version@)),
            },
    {
        match self.find_installed(package, version) {
            Err(e) => Err(e),
            Ok(_) => {
                let mut info = match self.packages.get(package, version) {
                    Some(v) => v.copy(),
                    None => VersionInfo::new("", false, 0),
                };
                info.pinned = pinned;
                self.packages.insert(package, version, info);
                Ok(())
            },
        }
    }
}

proof fn pairs_same_multiset(a: Seq<(Seq<char>, Seq<char>)>, b: Seq<(Seq<char>, Seq<char>)>)
    requires
        a.to_multiset() == b.to_multiset(),
        a.no_duplicates(),
    ensures
        b.no_duplicates(),
        forall|x: (Seq<char>, Seq<char>)| a.contains(x) == b.contains(x),
{
    a.to_multiset_ensures();
    b.to_multiset_ensures();
    assert forall|x: (Seq<char>, Seq<char>)| a.contains(x) == b.contains(x) by {
        assert(a.contains(x) == (a.to_multiset().count(x) > 0));
        assert(b.contains(x) == (b.to_multiset().count(x) > 0));
    }
    a.lemma_multiset_has_no_duplicates();
    b.lemma_multiset_has_no_duplicates_conv();
}

// ---------------------------------------------------------------------------
// Laws
// ---------------------------------------------------------------------------

/// Removing a version that was just installed undoes the installation, if it
/// was not installed before and nothing recorded it as depending on it.
pub proof fn remove_undoes_update(
    m: Map<(Seq<char>, Seq<char>), InfoModel>,
    package: Seq<char>,
    version: Seq<char>,
    info: InfoModel,
)
    requires
        !m.dom().contains((package, version)),
        forall|k: (Seq<char>, Seq<char>)| #[trigger]
            m.dom().contains(k) ==> !m[k].required_by.contains(pkg_key(package, version)),
    ensures
        after_remove(after_update(m, package, version, info), package, version) == m,
{
    let key = (package, version);
    let who = pkg_key(package, version);
    let up = after_update(m, package, version, info);
    let down = after_remove(up, package, version);
    assert(up.dom().contains(key));
    assert(up[key].depends_on == info.depends_on);
    assert(down.dom() =~= m.dom());
    assert forall|k: (Seq<char>, Seq<char>)| m.dom().contains(k) implies down[k] == m[k] by {
        assert(k != key);
        assert(m[k].required_by.insert(who).remove(who) =~= m[k].required_by);
        assert(down[k] =~= m[k]);
    }
    assert(down =~= m);
}

/// Installing a version of a package adds that version and no other, and
/// leaves what every other version is apart from what requires it.
pub proof fn update_adds_only_it(
    m: Map<(Seq<char>, Seq<char>), InfoModel>,
    package: Seq<char>,
    version: Seq<char>,
    info: InfoModel,
    k: (Seq<char>, Seq<char>),
)
    requires
        k != (package, version),
    ensures
        after_update(m, package, version, info).dom() == m.dom().insert((package, version)),
        m.dom().contains(k) ==> {
            let after = after_update(m, package, version, info)[k];
            after == InfoModel { required_by: after.required_by, ..m[k] }
        },
{
    assert(after_update(m, package, version, info).dom() =~= m.dom().insert((package, version)));
}

/// Whether every installed version is recorded as required by the installed
/// versions that depend on it, and by no others.
pub open spec fn linked(m: Map<(Seq<char>, Seq<char>), InfoModel>) -> bool {
    forall|k: (Seq<char>, Seq<char>)| #[trigger]
        m.dom().contains(k) ==> m[k].required_by == requirers(m, k)
}

/// Whether no name of an installed package holds an at sign, which would make it
/// look like a spec.
pub open spec fn plain_names(m: Map<(Seq<char>, Seq<char>), InfoModel>) -> bool {
    forall|k: (Seq<char>, Seq<char>)| #[trigger] m.dom().contains(k) ==> !k.0.contains('@')
}

/// The specs of two packages whose names hold no at sign differ.
proof fn specs_differ(a: (Seq<char>, Seq<char>), b: (Seq<char>, Seq<char>))
    requires
        !a.0.contains('@'),
        !b.0.contains('@'),
        a != b,
    ensures
        pkg_key(a.0, a.1) != pkg_key(b.0, b.1),
{
    pkg_ver_of_key(a.0, a.1);
    pkg_ver_of_key(b.0, b.1);
}

/// With nothing installed, what is recorded of who requires whom is right.
pub proof fn nothing_is_linked()
    ensures
        linked(Map::<(Seq<char>, Seq<char>), InfoModel>::empty()),
{
}

/// Installing a version of a package, for the first time or again, keeps what is
/// recorded of who requires whom right.
pub proof fn update_keeps_links(
    m: Map<(Seq<char>, Seq<char>), InfoModel>,
    package: Seq<char>,
    version: Seq<char>,
    info: InfoModel,
)
    requires
        linked(m),
        plain_names(m),
        !package.contains('@'),
    ensures
        linked(after_update(m, package, version, info)),
{
    let key = (package, version);
    let who = pkg_key(package, version);
    let after = after_update(m, package, version, info);
    let rest = m.remove(key);
    assert forall|k: (Seq<char>, Seq<char>)| #[trigger] after.dom().contains(k) implies after[k].required_by
        == requirers(after, k) by {
        assert forall|x: Seq<char>| #[trigger] requirers(after, k).contains(x) == (requirers(
            rest,
            k,
        ).contains(x) || (x == who && wanted(info.depends_on, k))) by {
            if names_requirer(after, k, x) {
                let j = choose|j: (Seq<char>, Seq<char>)| #[trigger]
                    after.dom().contains(j) && wanted(after[j].depends_on, k) && x == pkg_key(j.0, j.1);
                if j != key {
                    assert(rest.dom().contains(j));
                    assert(rest[j].depends_on == after[j].depends_on);
                }
            }
            if names_requirer(rest, k, x) {
                let j = choose|j: (Seq<char>, Seq<char>)| #[trigger]
                    rest.dom().contains(j) && wanted(rest[j].depends_on, k) && x == pkg_key(j.0, j.1);
                assert(after.dom().contains(j));
                assert(rest[j].depends_on == after[j].depends_on);
            }
            assert(after.dom().contains(key));
            assert(after[key].depends_on == info.depends_on);
        }
        if k != key {
            assert(m.dom().contains(k));
            requirers_without(m, key, k);
        }
        assert(after[k].required_by =~= requirers(after, k));
    }
}

/// Without a version, another is required by the same versions but for it.
proof fn requirers_without(
    m: Map<(Seq<char>, Seq<char>), InfoModel>,
    key: (Seq<char>, Seq<char>),
    k: (Seq<char>, Seq<char>),
)
    requires
        plain_names(m),
        !key.0.contains('@'),
    ensures
        requirers(m, k) == (if wanted(deps_of(m, key), k) {
            requirers(m.remove(key), k).insert(pkg_key(key.0, key.1))
        } else {
            requirers(m.remove(key), k)
        }),
        !requirers(m.remove(key), k).contains(pkg_key(key.0, key.1)),
{
    let rest = m.remove(key);
    let who = pkg_key(key.0, key.1);
    assert forall|x: Seq<char>| names_requirer(rest, k, x) implies x != who && names_requirer(m, k, x) by {
        let j = choose|j: (Seq<char>, Seq<char>)| #[trigger]
            rest.dom().contains(j) && wanted(rest[j].depends_on, k) && x == pkg_key(j.0, j.1);
        assert(m.dom().contains(j));
        specs_differ(j, key);
    }
    assert forall|x: Seq<char>| names_requirer(m, k, x) implies names_requirer(rest, k, x) || (x == who
        && wanted(deps_of(m, key), k)) by {
        let j = choose|j: (Seq<char>, Seq<char>)| #[trigger]
            m.dom().contains(j) && wanted(m[j].depends_on, k) && x == pkg_key(j.0, j.1);
        if j != key {
            assert(rest.dom().contains(j));
        }
    }
    if wanted(deps_of(m, key), k) {
        if !m.dom().contains(key) {
            let d = choose|d: Seq<char>| deps_of(m, key).contains(d) && #[trigger] targets(d, k);
        }
        assert(m.dom().contains(key));
        assert(names_requirer(m, k, who));
        assert(requirers(m, k) =~= requirers(rest, k).insert(who));
    } else {
        assert(requirers(m, k) =~= requirers(rest, k));
    }
}

/// Removing a version of a package keeps what is recorded of who requires whom
/// right.
pub proof fn remove_keeps_links(
    m: Map<(Seq<char>, Seq<char>), InfoModel>,
    package: Seq<char>,
    version: Seq<char>,
)
    requires
        linked(m),
        plain_names(m),
        !package.contains('@'),
    ensures
        linked(after_remove(m, package, version)),
{
    let key = (package, version);
    let after = after_remove(m, package, version);
    let rest = m.remove(key);
    assert forall|k: (Seq<char>, Seq<char>)| #[trigger] after.dom().contains(k) implies after[k].required_by
        == requirers(after, k) by {
        assert(m.dom().contains(k));
        requirers_without(m, key, k);
        assert forall|x: Seq<char>| #[trigger] requirers(after, k).contains(x) == requirers(
            rest,
            k,
        ).contains(x) by {
            if names_requirer(after, k, x) {
                let j = choose|j: (Seq<char>, Seq<char>)| #[trigger]
                    after.dom().contains(j) && wanted(after[j].depends_on, k) && x == pkg_key(j.0, j.1);
                assert(rest.dom().contains(j));
                assert(rest[j].depends_on == after[j].depends_on);
            }
            if names_requirer(rest, k, x) {
                let j = choose|j: (Seq<char>, Seq<char>)| #[trigger]
                    rest.dom().contains(j) && wanted(rest[j].depends_on, k) && x == pkg_key(j.0, j.1);
                assert(after.dom().contains(j));
                assert(rest[j].depends_on == after[j].depends_on);
            }
        }
        assert(after[k].required_by =~= requirers(after, k));
    }
}

/// An installed version that an installed one depends on is no orphan, wherever
/// what is recorded of who requires whom is right.
pub proof fn dependency_is_no_orphan(
    m: Map<(Seq<char>, Seq<char>), InfoModel>,
    key: (Seq<char>, Seq<char>),
    k: (Seq<char>, Seq<char>),
)
    requires
        linked(m),
        m.dom().contains(key),
        m.dom().contains(k),
        wanted(m[key].depends_on, k),
    ensures
        !is_orphan(m, k),
{
    assert(names_requirer(m, k, pkg_key(key.0, key.1)));
    assert(m[k].required_by.contains(pkg_key(key.0, key.1)));
}

/// Recording a version again takes from no version that it is required: one that
/// an installed version depends on, other than the recorded one, is no orphan
/// afterwards.
pub proof fn recording_again_makes_no_orphan(
    m: Map<(Seq<char>, Seq<char>), InfoModel>,
    package: Seq<char>,
    version: Seq<char>,
    info: InfoModel,
    key: (Seq<char>, Seq<char>),
)
    requires
        m.dom().contains(key),
        key != (package, version),
        wanted(m[key].depends_on, (package, version)),
    ensures
        !is_orphan(after_update(m, package, version, info), (package, version)),
{
    let own = (package, version);
    let rest = m.remove(own);
    assert(rest.dom().contains(key));
    assert(names_requirer(rest, own, pkg_key(key.0, key.1)));
    assert(after_update(m, package, version, info)[own].required_by.contains(pkg_key(key.0, key.1)));
}

/// A removed version is gone, every other stays, and none that it depended on
/// is recorded as required by it any more.
pub proof fn remove_takes_only_it(
    m: Map<(Seq<char>, Seq<char>), InfoModel>,
    package: Seq<char>,
    version: Seq<char>,
    k: (Seq<char>, Seq<char>),
)
    ensures
        after_remove(m, package, version).dom() == m.dom().remove((package, version)),
        m.dom().contains(k) && m.dom().contains((package, version)) && k != (package, version)
            && wanted(m[(package, version)].depends_on, k) ==> !after_remove(
            m,
            package,
            version,
        )[k].required_by.contains(pkg_key(package, version)),
{
    assert(after_remove(m, package, version).dom() =~= m.dom().remove((package, version)));
}

/// The history never grows over its bound, and its last entry is the one that
/// was just recorded.
pub proof fn history_keeps_newest(h: Seq<EntryModel>, e: EntryModel)
    ensures
        capped(h.push(e)).len() <= MAX_HISTORY,
        capped(h.push(e)).last() == e,
        h.len() < MAX_HISTORY ==> capped(h.push(e)) == h.push(e),
{
}

proof fn mentions_none(names: Seq<Seq<char>>, package: Seq<char>)
    ensures
        (mentions(names, package) == 0) == (forall|i: int|
            0 <= i < names.len() ==> (#[trigger] pkg_ver(names[i])).0 != package),
    decreases names.len(),
{
    if names.len() > 0 {
        let t = names.drop_last();
        mentions_none(t, package);
        if forall|i: int| 0 <= i < names.len() ==> (#[trigger] pkg_ver(names[i])).0 != package {
            assert forall|i: int| 0 <= i < t.len() implies (#[trigger] pkg_ver(t[i])).0 != package by {
                assert(pkg_ver(names[i]).0 != package);
            }
            assert(pkg_ver(names[names.len() - 1]).0 != package);
        }
        if mentions(names, package) == 0 {
            assert forall|i: int| 0 <= i < names.len() implies (#[trigger] pkg_ver(names[i])).0
                != package by {
                if i < t.len() {
                    assert(pkg_ver(t[i]).0 != package);
                }
            }
        }
    }
}

proof fn installed_complaints_none(rows: Seq<PackageRow>, package: Seq<char>)
    ensures
        (installed_complaints(rows, package).len() == 0) == (forall|i: int|
            0 <= i < rows.len() ==> !depends_on_package(
                (#[trigger] rows[i]).info.conflicts_with@,
                package,
            )),
    decreases rows.len(),
{
    if rows.len() > 0 {
        let t = rows.drop_last();
        installed_complaints_none(t, package);
        let set = rows.last().info.conflicts_with;
        let names = set.texts();
        mentions_none(names, package);
        if depends_on_package(set@, package) {
            let d = choose|d: Seq<char>| set@.contains(d) && (#[trigger] pkg_ver(d)).0 == package;
            let i = choose|i: int| 0 <= i < names.len() && names[i] == d;
            assert(pkg_ver(names[i]).0 == package);
        }
        if mentions(names, package) > 0 {
            let i = choose|i: int| 0 <= i < names.len() && (#[trigger] pkg_ver(names[i])).0 == package;
            assert(names.contains(names[i]));
            assert(set@.contains(names[i]));
            assert(depends_on_package(set@, package));
        }
        assert(rows[rows.len() - 1] == rows.last());
        assert forall|i: int| 0 <= i < t.len() implies t[i] == rows[i] by {}
    }
}

proof fn declared_complaints_none(table: PackageTable, package: Seq<char>, declared: Seq<Seq<char>>)
    ensures
        (declared_complaints(table, package, declared).len() == 0) == (forall|i: int|
            0 <= i < declared.len() ==> !table.has_package((#[trigger] pkg_ver(declared[i])).0)),
    decreases declared.len(),
{
    if declared.len() > 0 {
        let t = declared.drop_last();
        declared_complaints_none(table, package, t);
        if forall|i: int| 0 <= i < declared.len() ==> !table.has_package((#[trigger] pkg_ver(declared[i])).0) {
            assert forall|i: int| 0 <= i < t.len() implies !table.has_package((#[trigger] pkg_ver(t[i])).0) by {
                assert(!table.has_package(pkg_ver(declared[i]).0));
            }
            assert(!table.has_package(pkg_ver(declared[declared.len() - 1]).0));
        }
        if declared_complaints(table, package, declared).len() == 0 {
            assert forall|i: int| 0 <= i < declared.len() implies !table.has_package((#[trigger] pkg_ver(declared[i])).0) by {
                if i < t.len() {
                    assert(!table.has_package(pkg_ver(t[i]).0));
                }
            }
        }
    }
}

/// There is no complaint exactly where no installed version declares a conflict
/// with the package, and none of its own declared conflicts is installed.
pub proof fn no_complaint_means_no_conflict(
    table: PackageTable,
    package: Seq<char>,
    declared: Seq<Seq<char>>,
)
    requires
        table.wf(),
    ensures
        ((installed_complaints(table.all(), package) + declared_complaints(
            table,
            package,
            declared,
        )).len() == 0) == ((forall|k: (Seq<char>, Seq<char>)| #[trigger]
            table@.dom().contains(k) ==> !depends_on_package(table@[k].conflicts_with, package)) && (
        forall|i: int|
            0 <= i < declared.len() ==> !table.has_package((#[trigger] pkg_ver(declared[i])).0))),
{
    installed_complaints_none(table.all(), package);
    declared_complaints_none(table, package, declared);
    let s = row_pairs(table.all());
    let rows = table.all();
    if forall|i: int| 0 <= i < rows.len() ==> !depends_on_package(
        (#[trigger] rows[i]).info.conflicts_with@,
        package,
    ) {
        assert forall|k: (Seq<char>, Seq<char>)| #[trigger] table@.dom().contains(k) implies !depends_on_package(table@[k].conflicts_with, package) by {
            let i = key_index(s, k);
            assert(has_key(s, k));
            pairs_map_at(s, i);
            assert(s[i] == rows[i].pair());
        }
    }
    if forall|k: (Seq<char>, Seq<char>)| #[trigger]
            table@.dom().contains(k) ==> !depends_on_package(table@[k].conflicts_with, package) {
        assert forall|i: int| 0 <= i < rows.len() implies !depends_on_package(
            (#[trigger] rows[i]).info.conflicts_with@,
            package,
        ) by {
            pairs_map_at(s, i);
            assert(s[i] == rows[i].pair());
            assert(table@.dom().contains(s[i].0));
        }
    }
}

/// The versions of a package among the rows are those that the table has of it, each
/// once.
pub proof fn versions_in_are_installed(table: PackageTable, name: Seq<char>, v: Seq<char>)
    requires
        table.wf(),
    ensures
        versions_in(table.all(), name).contains(v) <==> table@.dom().contains((name, v)),
        versions_in(table.all(), name).len() > 0 <==> table.has_package(name),
        versions_in(table.all(), name).no_duplicates(),
{
    let s = row_pairs(table.all());
    versions_in_rows(table.all(), name);
    let all = versions_in(table.all(), name);
    if all.contains(v) {
        let i = choose|i: int|
            0 <= i < table.all().len() && (#[trigger] table.all()[i]).name@ == name
                && table.all()[i].version@ == v;
        pairs_map_at(s, i);
        assert(s[i] == table.all()[i].pair());
    }
    if table@.dom().contains((name, v)) {
        let i = key_index(s, (name, v));
        assert(has_key(s, (name, v)));
        assert(s[i] == table.all()[i].pair());
        assert(table.all()[i].name@ == name && table.all()[i].version@ == v);
    }
    if all.len() > 0 {
        assert(all.contains(all[0]));
    }
    if table.has_package(name) {
        let i = choose|i: int| 0 <= i < table.all().len() && (#[trigger] table.all()[i]).name@ == name;
        assert(all.contains(table.all()[i].version@));
    }
}

proof fn versions_in_rows(rows: Seq<PackageRow>, name: Seq<char>)
    requires
        keys_distinct(row_pairs(rows)),
    ensures
        versions_in(rows, name).no_duplicates(),
        forall|v: Seq<char>| #[trigger]
            versions_in(rows, name).contains(v) == (exists|i: int|
                0 <= i < rows.len() && (#[trigger] rows[i]).name@ == name && rows[i].version@ == v),
    decreases rows.len(),
{
    if rows.len() > 0 {
        let t = rows.drop_last();
        assert forall|i: int, j: int| 0 <= i < j < row_pairs(t).len() implies (#[trigger] row_pairs(t)[i]).0
            != (#[trigger] row_pairs(t)[j]).0 by {
            assert(row_pairs(rows)[i].0 != row_pairs(rows)[j].0);
        }
        versions_in_rows(t, name);
        let a = versions_in(t, name);
        let all = versions_in(rows, name);
        let last = rows[rows.len() - 1];
        assert forall|v: Seq<char>| #[trigger] all.contains(v) == (exists|i: int|
            0 <= i < rows.len() && (#[trigger] rows[i]).name@ == name && rows[i].version@ == v) by {
            if all.contains(v) {
                let k = choose|k: int| 0 <= k < all.len() && all[k] == v;
                if k < a.len() {
                    assert(a[k] == v);
                    assert(a.contains(v));
                    let i = choose|i: int|
                        0 <= i < t.len() && (#[trigger] t[i]).name@ == name && t[i].version@ == v;
                    assert(rows[i] == t[i]);
                } else {
                    assert(last.name@ == name && last.version@ == v);
                }
            }
            if exists|i: int| 0 <= i < rows.len() && (#[trigger] rows[i]).name@ == name && rows[i].version@ == v {
                let i = choose|i: int|
                    0 <= i < rows.len() && (#[trigger] rows[i]).name@ == name && rows[i].version@ == v;
                if i < t.len() {
                    assert(t[i] == rows[i]);
                    assert(a.contains(v));
                    let k = choose|k: int| 0 <= k < a.len() && a[k] == v;
                    assert(all[k] == v);
                } else {
                    assert(all[a.len() as int] == v);
                }
            }
        }
        if last.name@ == name && a.contains(last.version@) {
            let i = choose|i: int|
                0 <= i < t.len() && (#[trigger] t[i]).name@ == name && t[i].version@ == last.version@;
            assert(row_pairs(rows)[i].0 == row_pairs(rows)[rows.len() - 1].0);
            assert(false);
        }
        assert forall|x: int, y: int| 0 <= x < all.len() && 0 <= y < all.len() && x != y implies all[x] != all[y] by {
            if x == a.len() {
                assert(a.contains(a[y]));
            } else if y == a.len() {
                assert(a.contains(a[x]));
            }
        }
    }
}

/// The text before another in a list is the one that stands just before where that
/// one first stands.
pub proof fn text_before_is_next_to_it(s: Seq<Seq<char>>, i: int)
    requires
        0 <= i < s.len(),
        forall|j: int| 0 <= j < i ==> #[trigger] s[j] != s[i],
    ensures
        text_before(s, s[i]) == (if i == 0 {
            None
        } else {
            Some(s[i - 1])
        }),
    decreases s.len(),
{
    if i >= 2 {
        assert(s[0] != s[i] && s[1] != s[i]);
        let t = s.drop_first();
        assert(t[i - 1] == s[i] && t[i - 2] == s[i - 1]);
        assert forall|j: int| 0 <= j < i - 1 implies #[trigger] t[j] != t[i - 1] by {
            assert(s[j + 1] != s[i]);
        }
        text_before_is_next_to_it(t, i - 1);
    } else if i == 1 {
        assert(s[0] != s[1]);
    }
}

/// The names of dependents are those of the installed versions of other packages whose
/// dependencies name the package.
pub proof fn dependents_name_it(
    m: Map<(Seq<char>, Seq<char>), InfoModel>,
    package: Seq<char>,
    key: (Seq<char>, Seq<char>),
    d: Seq<char>,
)
    requires
        m.dom().contains(key),
        key.0 != package,
        m[key].depends_on.contains(d),
        pkg_ver(d).0 == package,
    ensures
        names_dependent(m, package, key.0 + "@"@ + key.1),
{
    assert(depends_on_package(m[key].depends_on, package));
    assert(is_reverse_dep(m, package, key));
    assert(key.0 + "@"@ + key.1 == pkg_key(key.0, key.1));
}

/// A spec without an at sign is a package without a version.
pub proof fn spec_without_version(spec: Seq<char>)
    requires
        !spec.contains('@'),
    ensures
        pkg_ver(spec) == (spec, Seq::<char>::empty()),
{
    cut_only_where_it_stands(spec, '@');
}

/// A version is installed exactly where the table has a row of it.
pub proof fn installed_has_a_row(table: PackageTable, key: (Seq<char>, Seq<char>))
    requires
        table.wf(),
    ensures
        table@.dom().contains(key) <==> exists|i: int|
            0 <= i < table.all().len() && (#[trigger] table.all()[i]).name@ == key.0
                && table.all()[i].version@ == key.1,
{
    let s = row_pairs(table.all());
    if table@.dom().contains(key) {
        assert(has_key(s, key));
        let i = key_index(s, key);
        assert(s[i] == table.all()[i].pair());
    }
    if exists|i: int|
        0 <= i < table.all().len() && (#[trigger] table.all()[i]).name@ == key.0 && table.all()[i].version@
            == key.1 {
        let i = choose|i: int|
            0 <= i < table.all().len() && (#[trigger] table.all()[i]).name@ == key.0
                && table.all()[i].version@ == key.1;
        pairs_map_at(s, i);
        assert(s[i] == table.all()[i].pair());
        assert(s[i].0 == key);
    }
}

/// A package alone as a dependency stands for each of its versions; a package with a
/// version for that version only.
pub proof fn what_a_dependency_names(name: Seq<char>, version: Seq<char>, key: (Seq<char>, Seq<char>))
    requires
        !name.contains('@'),
    ensures
        targets(name, key) <==> name == key.0,
        version.len() > 0 ==> (targets(name + "@"@ + version, key) <==> key == (name, version)),
        version.len() == 0 ==> (targets(name + "@"@ + version, key) <==> name == key.0),
{
    spec_without_version(name);
    pkg_ver_of_key(name, version);
}

/// Recording a version records of it what is given, and in each other version that it
/// depends on, that it requires that one; nothing else changes there.
pub proof fn recording_records(
    m: Map<(Seq<char>, Seq<char>), InfoModel>,
    key: (Seq<char>, Seq<char>),
    info: InfoModel,
    k: (Seq<char>, Seq<char>),
    x: Seq<char>,
)
    requires
        m.dom().contains(k),
        k != key,
    ensures
        ({
            let after = after_update(m, key.0, key.1, info);
            let who = key.0 + "@"@ + key.1;
            &&& after.dom().contains(key) && after.dom().contains(k)
            &&& after[key] == InfoModel { required_by: after[key].required_by, ..info }
            &&& x != who ==> (after[k].required_by.contains(x) <==> m[k].required_by.contains(x))
            &&& (exists|d: Seq<char>|
                info.depends_on.contains(d) && (#[trigger] pkg_ver(d)).0 == k.0 && (pkg_ver(d).1.len() == 0
                    || pkg_ver(d).1 == k.1)) ==> after[k].required_by.contains(who)
            &&& after[k].required_by.contains(who) ==> m[k].required_by.contains(who) || exists|d: Seq<char>|
                info.depends_on.contains(d) && (#[trigger] pkg_ver(d)).0 == k.0 && (pkg_ver(d).1.len() == 0
                    || pkg_ver(d).1 == k.1)
        }),
{
    let after = after_update(m, key.0, key.1, info);
    let who = key.0 + "@"@ + key.1;
    assert(who == pkg_key(key.0, key.1));
    assert(key == (key.0, key.1));
    if exists|d: Seq<char>|
        info.depends_on.contains(d) && (#[trigger] pkg_ver(d)).0 == k.0 && (pkg_ver(d).1.len() == 0 || pkg_ver(
            d,
        ).1 == k.1) {
        let d = choose|d: Seq<char>|
            info.depends_on.contains(d) && (#[trigger] pkg_ver(d)).0 == k.0 && (pkg_ver(d).1.len() == 0
                || pkg_ver(d).1 == k.1);
        assert(targets(d, k));
        assert(wanted(info.depends_on, k));
    }
    if wanted(info.depends_on, k) {
        let d = choose|d: Seq<char>| info.depends_on.contains(d) && #[trigger] targets(d, k);
        assert(pkg_ver(d).0 == k.0);
    }
}

/// Taking a version away changes nothing in another but that the version taken away no
/// longer requires it.
pub proof fn removing_leaves_the_rest(
    m: Map<(Seq<char>, Seq<char>), InfoModel>,
    key: (Seq<char>, Seq<char>),
    k: (Seq<char>, Seq<char>),
    x: Seq<char>,
)
    requires
        m.dom().contains(k),
        k != key,
    ensures
        ({
            let after = after_remove(m, key.0, key.1);
            &&& !after.dom().contains(key)
            &&& after.dom().contains(k)
            &&& after[k] == InfoModel { required_by: after[k].required_by, ..m[k] }
            &&& x != key.0 + "@"@ + key.1 ==> (after[k].required_by.contains(x) <==> m[k].required_by.contains(
                x,
            ))
        }),
{
    assert(key == (key.0, key.1));
}

/// A version that was just installed is as new: with the checksum and the time given,
/// not pinned, and without anything that it requires or that requires it.
pub proof fn fresh_is_as_given(checksum: Seq<char>, manually: bool, now: u64, x: Seq<char>)
    ensures
        ({
            let info = fresh_info(checksum, manually, now);
            &&& info.checksum == checksum && info.manually_installed == manually && info.installed_at == now
            &&& !info.pinned && !info.required_by.contains(x) && !info.depends_on.contains(x)
                && !info.conflicts_with.contains(x)
        }),
{
}

/// A text names a dependent exactly where it is the spec of an installed version of
/// another package, and one of the dependencies of that is on the package.
pub proof fn dependents_are_those_that_need_it(
    m: Map<(Seq<char>, Seq<char>), InfoModel>,
    package: Seq<char>,
    x: Seq<char>,
)
    ensures
        names_dependent(m, package, x) <==> exists|k: (Seq<char>, Seq<char>), d: Seq<char>|
            m.dom().contains(k) && k.0 != package && #[trigger] m[k].depends_on.contains(d) && pkg_ver(d).0
                == package && x == k.0 + "@"@ + k.1,
{
    if names_dependent(m, package, x) {
        let k = choose|k: (Seq<char>, Seq<char>)| #[trigger]
            is_reverse_dep(m, package, k) && x == pkg_key(k.0, k.1);
        let d = choose|d: Seq<char>| m[k].depends_on.contains(d) && (#[trigger] pkg_ver(d)).0 == package;
        assert(m[k].depends_on.contains(d));
    }
    if exists|k: (Seq<char>, Seq<char>), d: Seq<char>|
        m.dom().contains(k) && k.0 != package && #[trigger] m[k].depends_on.contains(d) && pkg_ver(d).0
            == package && x == k.0 + "@"@ + k.1 {
        let (k, d) = choose|k: (Seq<char>, Seq<char>), d: Seq<char>|
            m.dom().contains(k) && k.0 != package && #[trigger] m[k].depends_on.contains(d) && pkg_ver(d).0
                == package && x == k.0 + "@"@ + k.1;
        dependents_name_it(m, package, k, d);
    }
}

/// The version to go back to is installed and not newer than the one in use, and no
/// installed one stands between the two; where there is none, no installed version is
/// older. The versions are all numbers.
pub proof fn previous_is_just_older(table: PackageTable, name: Seq<char>, current: Seq<char>, w: Seq<char>)
    requires
        table.wf(),
        forall|v: Seq<char>| #[trigger] table@.dom().contains((name, v)) ==> numeric(v),
        table@.dom().contains((name, current)),
        table@.dom().contains((name, w)),
    ensures
        match text_before(version_sorted(versions_in(table.all(), name)), current) {
            Some(v) => {
                &&& table@.dom().contains((name, v)) && v != current
                &&& version_rank(v, current) != Rank::After
                &&& version_rank(w, v) != Rank::After || version_rank(w, current) != Rank::Before
            },
            None => version_rank(w, current) != Rank::Before,
        },
{
    let s = versions_in(table.all(), name);
    let t = version_sorted(s);
    assert forall|i: int| 0 <= i < s.len() implies numeric(#[trigger] s[i]) by {
        assert(s.contains(s[i]));
        versions_in_are_installed(table, name, s[i]);
    }
    version_sorted_orders(s);
    version_sorted_keeps(s);
    same_multiset_contains(t, s);
    versions_in_are_installed(table, name, current);
    versions_in_are_installed(table, name, w);
    assert(t.contains(current) && t.contains(w));
    s.to_multiset_ensures();
    t.to_multiset_ensures();
    s.lemma_multiset_has_no_duplicates();
    t.lemma_multiset_has_no_duplicates_conv();
    let i = choose|i: int| 0 <= i < t.len() && t[i] == current;
    let j = choose|j: int| 0 <= j < t.len() && t[j] == w;
    text_before_is_next_to_it(t, i);
    version_rank_reflexive(w);
    version_rank_flips(w, current);
    if i > 0 {
        assert(t.contains(t[i - 1]));
        versions_in_are_installed(table, name, t[i - 1]);
    }
}

/// The history keeps the newest twenty snapshots, in their order.
pub proof fn newest_snapshots_are_kept(h: Seq<EntryModel>, i: int)
    requires
        0 <= i < 20,
        i < h.len(),
    ensures
        capped(h).len() == (if h.len() < 20 {
            h.len()
        } else {
            20
        }),
        capped(h)[capped(h).len() - 1 - i] == h[h.len() - 1 - i],
{
}

proof fn complained_of(rows: Seq<PackageRow>, package: Seq<char>, i: int)
    requires
        0 <= i < rows.len(),
        depends_on_package(rows[i].info.conflicts_with@, package),
    ensures
        installed_complaints(rows, package).contains(
            pkg_key(rows[i].name@, rows[i].version@) + " conflicts with "@ + package,
        ),
    decreases rows.len(),
{
    let t = rows.drop_last();
    let row = rows.last();
    let a = installed_complaints(t, package);
    let b = repeated(
        pkg_key(row.name@, row.version@) + " conflicts with "@ + package,
        mentions(row.info.conflicts_with.texts(), package),
    );
    let x = pkg_key(rows[i].name@, rows[i].version@) + " conflicts with "@ + package;
    if i < t.len() {
        assert(t[i] == rows[i]);
        complained_of(t, package, i);
        let k = choose|k: int| 0 <= k < a.len() && a[k] == x;
        assert((a + b)[k] == x);
    } else {
        let names = row.info.conflicts_with.texts();
        mentions_none(names, package);
        let d = choose|d: Seq<char>|
            row.info.conflicts_with@.contains(d) && (#[trigger] pkg_ver(d)).0 == package;
        let j = choose|j: int| 0 <= j < names.len() && names[j] == d;
        assert(pkg_ver(names[j]).0 == package);
        assert(b[0] == x);
        assert((a + b)[a.len() as int] == x);
    }
}

/// Each installed version that declares a conflict with a package is complained of by its
/// name and version.
pub proof fn declared_conflicts_are_complained_of(
    table: PackageTable,
    package: Seq<char>,
    key: (Seq<char>, Seq<char>),
    d: Seq<char>,
)
    requires
        table.wf(),
        table@.dom().contains(key),
        table@[key].conflicts_with.contains(d),
        pkg_ver(d).0 == package,
    ensures
        installed_complaints(table.all(), package).contains(
            key.0 + "@"@ + key.1 + " conflicts with "@ + package,
        ),
{
    let s = row_pairs(table.all());
    assert(has_key(s, key));
    let i = key_index(s, key);
    assert(s[i] == table.all()[i].pair());
    assert(table.all()[i].info@.conflicts_with == table@[key].conflicts_with);
    assert(depends_on_package(table.all()[i].info.conflicts_with@, package));
    complained_of(table.all(), package, i);
}

/// Putting a value into one of the sets of an installed version puts it into that set
/// and changes nothing else.
pub proof fn relating_adds_one_value(
    m: Map<(Seq<char>, Seq<char>), InfoModel>,
    key: (Seq<char>, Seq<char>),
    value: Seq<char>,
    k: (Seq<char>, Seq<char>),
)
    requires
        m.dom().contains(key),
        k != key,
    ensures
        related(m, key, Relation::RequiredBy, value)[key] == (InfoModel {
            required_by: m[key].required_by.insert(value),
            ..m[key]
        }),
        related(m, key, Relation::DependsOn, value)[key] == (InfoModel {
            depends_on: m[key].depends_on.insert(value),
            ..m[key]
        }),
        related(m, key, Relation::ConflictsWith, value)[key] == (InfoModel {
            conflicts_with: m[key].conflicts_with.insert(value),
            ..m[key]
        }),
        forall|r: Relation|
            (#[trigger] related(m, key, r, value)).dom().contains(k) == m.dom().contains(k) && (
            m.dom().contains(k) ==> related(m, key, r, value)[k] == m[k]),
        forall|r: Relation| !m.dom().contains(k) ==> #[trigger] related(m, k, r, value) == m,
{
}

/// An orphan is an installed version that was not asked for and that no installed version
/// depends on, wherever what is recorded of who requires whom is right.
pub proof fn what_is_an_orphan(m: Map<(Seq<char>, Seq<char>), InfoModel>, key: (Seq<char>, Seq<char>))
    requires
        linked(m),
    ensures
        is_orphan(m, key) <==> m.dom().contains(key) && !m[key].manually_installed && forall|
            k: (Seq<char>, Seq<char>),
            d: Seq<char>,
        |
            m.dom().contains(k) && #[trigger] m[k].depends_on.contains(d) ==> pkg_ver(d).0 != key.0 || (pkg_ver(
                d,
            ).1.len() > 0 && pkg_ver(d).1 != key.1),
{
    if m.dom().contains(key) {
        assert(m[key].required_by == requirers(m, key));
        if m[key].required_by == Set::<Seq<char>>::empty() {
            assert forall|k: (Seq<char>, Seq<char>), d: Seq<char>|
                m.dom().contains(k) && #[trigger] m[k].depends_on.contains(d) implies pkg_ver(d).0 != key.0 || (
            pkg_ver(d).1.len() > 0 && pkg_ver(d).1 != key.1) by {
                if targets(d, key) {
                    assert(wanted(m[k].depends_on, key));
                    assert(names_requirer(m, key, pkg_key(k.0, k.1)));
                    assert(requirers(m, key).contains(pkg_key(k.0, k.1)));
                }
            }
        }
        if forall|k: (Seq<char>, Seq<char>), d: Seq<char>|
            m.dom().contains(k) && #[trigger] m[k].depends_on.contains(d) ==> pkg_ver(d).0 != key.0 || (pkg_ver(
                d,
            ).1.len() > 0 && pkg_ver(d).1 != key.1) {
            assert forall|x: Seq<char>| !requirers(m, key).contains(x) by {
                if names_requirer(m, key, x) {
                    let k = choose|k: (Seq<char>, Seq<char>)| #[trigger]
                        m.dom().contains(k) && wanted(m[k].depends_on, key) && x == pkg_key(k.0, k.1);
                    let d = choose|d: Seq<char>| m[k].depends_on.contains(d) && #[trigger] targets(d, key);
                    assert(m[k].depends_on.contains(d));
                }
            }
            assert(requirers(m, key) =~= Set::<Seq<char>>::empty());
        }
    }
}

} // verus!
