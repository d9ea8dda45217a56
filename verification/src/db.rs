//! The installed packages and the history of changes as rows of a database.
use vstd::prelude::*;

use crate::collections::{has_key, key_index, pairs_map_at, NameSet};
use crate::state::{entries, related, row_pairs, EntryModel, InfoModel, PackageRow, PackageTable, Relation, RollbackEntry, State, VersionInfo};

verus! {

/// A row of the table of packages.
#[derive(Debug)]
pub struct PackageRecord {
    pub name: String,
    pub version: String,
    pub checksum: String,
    pub pinned: bool,
    pub manually_installed: bool,
    pub installed_at: u64,
}

/// A row of one of the tables of relations.
#[derive(Debug)]
pub struct RelationRow {
    pub name: String,
    pub version: String,
    pub value: String,
}

impl PackageRecord {
    /// The name and the version.
    pub open spec fn key(&self) -> (Seq<char>, Seq<char>) {
        (self.name@, self.version@)
    }

    /// What the row says of the version.
    pub open spec fn info(&self) -> InfoModel {
        InfoModel {
            checksum: self.checksum@,
            pinned: self.pinned,
            manually_installed: self.manually_installed,
            required_by: Set::empty(),
            depends_on: Set::empty(),
            conflicts_with: Set::empty(),
            installed_at: self.installed_at,
        }
    }
}

impl RelationRow {
    /// The name and the version.
    pub open spec fn key(&self) -> (Seq<char>, Seq<char>) {
        (self.name@, self.version@)
    }
}

/// The packages of the rows; of two rows with the same key the later one counts.
pub open spec fn records_map(records: Seq<PackageRecord>) -> Map<(Seq<char>, Seq<char>), InfoModel>
    decreases records.len(),
{
    if records.len() == 0 {
        Map::empty()
    } else {
        records_map(records.drop_last()).insert(records.last().key(), records.last().info())
    }
}

/// The packages with the values of a relation put in. Rows about versions that
/// are not there count for nothing.
pub open spec fn with_relation(
    m: Map<(Seq<char>, Seq<char>), InfoModel>,
    relation: Relation,
    rows: Seq<RelationRow>,
) -> Map<(Seq<char>, Seq<char>), InfoModel>
    decreases rows.len(),
{
    if rows.len() == 0 {
        m
    } else {
        related(
            with_relation(m, relation, rows.drop_last()),
            rows.last().key(),
            relation,
            rows.last().value@,
        )
    }
}

/// The packages that the rows of a database stand for.
pub open spec fn loaded(
    records: Seq<PackageRecord>,
    required_by: Seq<RelationRow>,
    depends_on: Seq<RelationRow>,
    conflicts_with: Seq<RelationRow>,
) -> Map<(Seq<char>, Seq<char>), InfoModel> {
    with_relation(
        with_relation(
            with_relation(records_map(records), Relation::RequiredBy, required_by),
            Relation::DependsOn,
            depends_on,
        ),
        Relation::ConflictsWith,
        conflicts_with,
    )
}

fn load_relation(table: &mut PackageTable, relation: Relation, rows: &Vec<RelationRow>)
    requires
        old(table).wf(),
    ensures
        final(table).wf(),
        final(table)@ == with_relation(old(table)@, relation, rows@),
{
    let ghost m = table@;
    let mut i: usize = 0;
    assert(rows@.take(0) =~= Seq::<RelationRow>::empty());
    while i < rows.len()
        invariant
            i <= rows@.len(),
            table.wf(),
            table@ == with_relation(m, relation, rows@.take(i as int)),
        decreases rows@.len() - i,
    {
        proof {
            let longer = rows@.take(i + 1);
            assert(longer.drop_last() =~= rows@.take(i as int));
            assert(longer.last() == rows@[i as int]);
        }
        table.relate(
            rows[i].name.as_str(),
            rows[i].version.as_str(),
            relation,
            rows[i].value.as_str(),
        );
        i = i + 1;
    }
    assert(rows@.take(rows@.len() as int) =~= rows@);
}

/// The packages that the rows of a database stand for.
pub fn load_packages(
    records: &Vec<PackageRecord>,
    required_by: &Vec<RelationRow>,
    depends_on: &Vec<RelationRow>,
    conflicts_with: &Vec<RelationRow>,
) -> (r: PackageTable)
    ensures
        r.wf(),
        r@ == loaded(records@, required_by@, depends_on@, conflicts_with@),
{
    let mut table = PackageTable::new();
    let mut i: usize = 0;
    assert(records@.take(0) =~= Seq::<PackageRecord>::empty());
    while i < records.len()
        invariant
            i <= records@.len(),
            table.wf(),
            table@ == records_map(records@.take(i as int)),
        decreases records@.len() - i,
    {
        let rec = &records[i];
        let info = VersionInfo {
            checksum: rec.checksum.clone(),
            pinned: rec.pinned,
            manually_installed: rec.manually_installed,
            required_by: NameSet::new(),
            depends_on: NameSet::new(),
            conflicts_with: NameSet::new(),
            installed_at: rec.installed_at,
        };
        proof {
            let longer = records@.take(i + 1);
            assert(longer.drop_last() =~= records@.take(i as int));
            assert(longer.last() == *rec);
            assert(info@ == rec.info());
        }
        table.insert(rec.name.as_str(), rec.version.as_str(), info);
        i = i + 1;
    }
    assert(records@.take(records@.len() as int) =~= records@);
    load_relation(&mut table, Relation::RequiredBy, required_by);
    load_relation(&mut table, Relation::DependsOn, depends_on);
    load_relation(&mut table, Relation::ConflictsWith, conflicts_with);
    table
}

/// Whether a record is the one to write for a row.
pub open spec fn records(rec: PackageRecord, row: PackageRow) -> bool {
    &&& rec.key() == row.key()
    &&& rec.checksum@ == row.info.checksum@
    &&& rec.pinned == row.info.pinned
    &&& rec.manually_installed == row.info.manually_installed
    &&& rec.installed_at == row.info.installed_at
}

/// The rows of the table of packages for what is installed.
pub fn package_records(table: &PackageTable) -> (r: Vec<PackageRecord>)
    ensures
        r@.len() == table.all().len(),
        forall|i: int| 0 <= i < r@.len() ==> records(#[trigger] r@[i], table.all()[i]),
{
    let mut out: Vec<PackageRecord> = Vec::new();
    let mut i: usize = 0;
    while i < table.len()
        invariant
            i <= table.all().len(),
            out@.len() == i,
            forall|j: int| 0 <= j < i ==> records(#[trigger] out@[j], table.all()[j]),
        decreases table.all().len() - i,
    {
        let row = table.row(i);
        out.push(
            PackageRecord {
                name: row.name.clone(),
                version: row.version.clone(),
                checksum: row.info.checksum.clone(),
                pinned: row.info.pinned,
                manually_installed: row.info.manually_installed,
                installed_at: row.info.installed_at,
            },
        );
        i = i + 1;
    }
    out
}

/// One of the sets of a version.
pub open spec fn side(info: InfoModel, relation: Relation) -> Set<Seq<char>> {
    match relation {
        Relation::RequiredBy => info.required_by,
        Relation::DependsOn => info.depends_on,
        Relation::ConflictsWith => info.conflicts_with,
    }
}

/// Whether a row of a relation is among the rows.
pub open spec fn has_relation(rows: Seq<RelationRow>, key: (Seq<char>, Seq<char>), value: Seq<char>) -> bool {
    exists|i: int|
        0 <= i < rows.len() && (#[trigger] rows[i]).key() == key && rows[i].value@ == value
}

/// The rows of the table of a relation for what is installed.
pub fn relation_rows(table: &PackageTable, relation: Relation) -> (r: Vec<RelationRow>)
    requires
        table.wf(),
    ensures
        forall|k: (Seq<char>, Seq<char>), v: Seq<char>| #[trigger]
            has_relation(r@, k, v) == (table@.dom().contains(k) && side(
                table@[k],
                relation,
            ).contains(v)),
{
    let ghost s = row_pairs(table.all());
    let mut out: Vec<RelationRow> = Vec::new();
    let mut i: usize = 0;
    while i < table.len()
        invariant
            table.wf(),
            s == row_pairs(table.all()),
            i <= s.len(),
            forall|k: (Seq<char>, Seq<char>), v: Seq<char>| #[trigger]
                has_relation(out@, k, v) == (exists|a: int|
                    0 <= a < i && (#[trigger] s[a]).0 == k && side(s[a].1, relation).contains(v)),
        decreases s.len() - i,
    {
        let row = table.row(i);
        let set: &NameSet = match relation {
            Relation::RequiredBy => &row.info.required_by,
            Relation::DependsOn => &row.info.depends_on,
            Relation::ConflictsWith => &row.info.conflicts_with,
        };
        let ghost first = out@;
        let ghost names = set.texts();
        let ghost key = row.key();
        proof {
            assert(s[i as int] == row.pair());
            assert(set@ == side(s[i as int].1, relation));
        }
        let mut j: usize = 0;
        while j < set.len()
            invariant
                j <= names.len(),
                names == set.texts(),
                key == row.key(),
                forall|k: (Seq<char>, Seq<char>), v: Seq<char>| #[trigger]
                    has_relation(out@, k, v) == (has_relation(first, k, v) || (k == key && exists|
                        b: int,
                    |
                        0 <= b < j && #[trigger] names[b] == v)),
            decreases names.len() - j,
        {
            let ghost before = out@;
            let text = set.at(j).clone();
            out.push(
                RelationRow { name: row.name.clone(), version: row.version.clone(), value: text },
            );
            proof {
                let after = out@;
                assert forall|k: (Seq<char>, Seq<char>), v: Seq<char>| #[trigger]
                    has_relation(after, k, v) == (has_relation(first, k, v) || (k == key && exists|
                        b: int,
                    |
                        0 <= b < j + 1 && #[trigger] names[b] == v)) by {
                    if has_relation(after, k, v) {
                        let a = choose|a: int|
                            0 <= a < after.len() && (#[trigger] after[a]).key() == k && after[a].value@
                                == v;
                        if a < before.len() {
                            assert(before[a].key() == k);
                            assert(has_relation(before, k, v));
                        } else {
                            assert(names[j as int] == v);
                        }
                    }
                    if has_relation(before, k, v) {
                        let a = choose|a: int|
                            0 <= a < before.len() && (#[trigger] before[a]).key() == k
                                && before[a].value@ == v;
                        assert(after[a].key() == k);
                    }
                    if has_relation(first, k, v) {
                        assert(has_relation(before, k, v));
                    }
                    if k == key && exists|b: int| 0 <= b < j + 1 && #[trigger] names[b] == v {
                        let b = choose|b: int| 0 <= b < j + 1 && #[trigger] names[b] == v;
                        if b < j {
                            assert(has_relation(before, k, v));
                        } else {
                            assert(after[before.len() as int].key() == k);
                        }
                    }
                }
            }
            j = j + 1;
        }
        proof {
            assert forall|k: (Seq<char>, Seq<char>), v: Seq<char>| #[trigger]
                has_relation(out@, k, v) == (exists|a: int|
                    0 <= a < i + 1 && (#[trigger] s[a]).0 == k && side(s[a].1, relation).contains(
                        v,
                    )) by {
                if k == key && exists|b: int| 0 <= b < j && #[trigger] names[b] == v {
                    let b = choose|b: int| 0 <= b < j && #[trigger] names[b] == v;
                    assert(names.contains(v));
                    assert(s[i as int].0 == k);
                }
                if exists|a: int|
                    0 <= a < i + 1 && (#[trigger] s[a]).0 == k && side(s[a].1, relation).contains(
                        v,
                    ) {
                    let a = choose|a: int|
                        0 <= a < i + 1 && (#[trigger] s[a]).0 == k && side(
                            s[a].1,
                            relation,
                        ).contains(v);
                    if a == i {
                        assert(names.contains(v));
                        let b = choose|b: int| 0 <= b < names.len() && names[b] == v;
                        assert(names[b] == v);
                    }
                }
            }
        }
        i = i + 1;
    }
    proof {
        assert forall|k: (Seq<char>, Seq<char>), v: Seq<char>| #[trigger] has_relation(out@, k, v)
            == (table@.dom().contains(k) && side(table@[k], relation).contains(v)) by {
            if exists|a: int|
                0 <= a < i && (#[trigger] s[a]).0 == k && side(s[a].1, relation).contains(v) {
                let a = choose|a: int|
                    0 <= a < i && (#[trigger] s[a]).0 == k && side(s[a].1, relation).contains(v);
                pairs_map_at(s, a);
            }
            if table@.dom().contains(k) {
                let a = key_index(s, k);
                assert(has_key(s, k));
                pairs_map_at(s, a);
                assert(s[a].0 == k);
            }
        }
    }
    out
}

// ---------------------------------------------------------------------------
// Laws
// ---------------------------------------------------------------------------

proof fn with_relation_at(
    m: Map<(Seq<char>, Seq<char>), InfoModel>,
    relation: Relation,
    rows: Seq<RelationRow>,
    k: (Seq<char>, Seq<char>),
)
    requires
        m.dom().contains(k),
    ensures
        with_relation(m, relation, rows).dom() == m.dom(),
        forall|other: Relation|
            other != relation ==> #[trigger] side(with_relation(m, relation, rows)[k], other)
                == side(m[k], other),
        ({
            let a = with_relation(m, relation, rows)[k];
            let b = m[k];
            a.checksum == b.checksum && a.pinned == b.pinned && a.manually_installed
                == b.manually_installed && a.installed_at == b.installed_at
        }),
    decreases rows.len(),
{
    if rows.len() > 0 {
        let t = rows.drop_last();
        with_relation_at(m, relation, t, k);
        let part = with_relation(m, relation, t);
        let all = with_relation(m, relation, rows);
        assert(all.dom() =~= m.dom());
        assert forall|other: Relation| other != relation implies #[trigger] side(all[k], other)
            == side(m[k], other) by {
            assert(side(part[k], other) == side(m[k], other));
        }
    }
}

proof fn with_relation_has(
    m: Map<(Seq<char>, Seq<char>), InfoModel>,
    relation: Relation,
    rows: Seq<RelationRow>,
    k: (Seq<char>, Seq<char>),
    v: Seq<char>,
)
    requires
        m.dom().contains(k),
    ensures
        side(with_relation(m, relation, rows)[k], relation).contains(v) == (side(
            m[k],
            relation,
        ).contains(v) || has_relation(rows, k, v)),
    decreases rows.len(),
{
    if rows.len() > 0 {
        let t = rows.drop_last();
        with_relation_at(m, relation, t, k);
        with_relation_has(m, relation, t, k, v);
        if has_relation(rows, k, v) {
            let i = choose|i: int|
                0 <= i < rows.len() && (#[trigger] rows[i]).key() == k && rows[i].value@ == v;
            if i < t.len() {
                assert(t[i].key() == k);
                assert(has_relation(t, k, v));
            }
        }
        if has_relation(t, k, v) {
            let i = choose|i: int|
                0 <= i < t.len() && (#[trigger] t[i]).key() == k && t[i].value@ == v;
            assert(rows[i].key() == k);
        }
        if rows.last().key() == k && rows.last().value@ == v {
            assert(rows[rows.len() - 1].key() == k);
        }
    }
}

proof fn records_map_at(recs: Seq<PackageRecord>, rows: Seq<PackageRow>)
    requires
        recs.len() == rows.len(),
        crate::collections::keys_distinct(row_pairs(rows)),
        forall|i: int| 0 <= i < recs.len() ==> records(#[trigger] recs[i], rows[i]),
    ensures
        forall|k: (Seq<char>, Seq<char>)| #[trigger]
            records_map(recs).dom().contains(k) == has_key(row_pairs(rows), k),
        forall|i: int|
            0 <= i < recs.len() ==> records_map(recs)[(#[trigger] recs[i]).key()]
                == recs[i].info(),
    decreases recs.len(),
{
    let s = row_pairs(rows);
    if recs.len() > 0 {
        let t = recs.drop_last();
        let u = rows.drop_last();
        let s2 = row_pairs(u);
        assert(s2 =~= s.drop_last());
        assert forall|i: int| 0 <= i < t.len() implies records(#[trigger] t[i], u[i]) by {
            assert(records(recs[i], rows[i]));
        }
        assert forall|i: int, j: int| 0 <= i < j < s2.len() implies (#[trigger] s2[i]).0 != (
        #[trigger] s2[j]).0 by {
            assert(s[i].0 != s[j].0);
        }
        records_map_at(t, u);
        let last = recs.len() - 1;
        assert(records(recs[last], rows[last]));
        assert(s[last] == rows[last].pair());
        assert forall|k: (Seq<char>, Seq<char>)| #[trigger]
            records_map(recs).dom().contains(k) == has_key(s, k) by {
            if has_key(s, k) {
                let i = key_index(s, k);
                if i < last {
                    assert(s2[i].0 == k);
                }
            }
            if has_key(s2, k) {
                let i = key_index(s2, k);
                assert(s[i].0 == k);
            }
            assert(s[last].0 == recs.last().key());
            assert(records_map(recs).dom().contains(k) == (records_map(t).dom().contains(k) || k
                == recs.last().key()));
            assert(records_map(t).dom().contains(k) == has_key(s2, k));
        }
        assert forall|i: int| 0 <= i < recs.len() implies records_map(recs)[(
        #[trigger] recs[i]).key()] == recs[i].info() by {
            if i < last {
                assert(t[i] == recs[i]);
                assert(s[i].0 != s[last].0);
                assert(s[i] == rows[i].pair());
                assert(records(recs[i], rows[i]));
            }
        }
    } else {
        assert(s.len() == 0);
    }
}

/// Loading the rows that were written for what is installed gives it back.
pub proof fn save_then_load(
    table: PackageTable,
    recs: Seq<PackageRecord>,
    required_by: Seq<RelationRow>,
    depends_on: Seq<RelationRow>,
    conflicts_with: Seq<RelationRow>,
)
    requires
        table.wf(),
        recs.len() == table.all().len(),
        forall|i: int| 0 <= i < recs.len() ==> records(#[trigger] recs[i], table.all()[i]),
        forall|k: (Seq<char>, Seq<char>), v: Seq<char>| #[trigger]
            has_relation(required_by, k, v) == (table@.dom().contains(k) && side(
                table@[k],
                Relation::RequiredBy,
            ).contains(v)),
        forall|k: (Seq<char>, Seq<char>), v: Seq<char>| #[trigger]
            has_relation(depends_on, k, v) == (table@.dom().contains(k) && side(
                table@[k],
                Relation::DependsOn,
            ).contains(v)),
        forall|k: (Seq<char>, Seq<char>), v: Seq<char>| #[trigger]
            has_relation(conflicts_with, k, v) == (table@.dom().contains(k) && side(
                table@[k],
                Relation::ConflictsWith,
            ).contains(v)),
    ensures
        loaded(recs, required_by, depends_on, conflicts_with) == table@,
{
    let s = row_pairs(table.all());
    let m0 = records_map(recs);
    let m1 = with_relation(m0, Relation::RequiredBy, required_by);
    let m2 = with_relation(m1, Relation::DependsOn, depends_on);
    let m3 = with_relation(m2, Relation::ConflictsWith, conflicts_with);
    records_map_at(recs, table.all());
    assert(m0.dom() =~= table@.dom());
    if table.all().len() == 0 {
        with_relation_empty(m0, Relation::RequiredBy, required_by);
        with_relation_empty(m1, Relation::DependsOn, depends_on);
        with_relation_empty(m2, Relation::ConflictsWith, conflicts_with);
        assert(m3 =~= table@);
    } else {
        let k0 = s[0].0;
        pairs_map_at(s, 0);
        with_relation_at(m0, Relation::RequiredBy, required_by, k0);
        with_relation_at(m1, Relation::DependsOn, depends_on, k0);
        with_relation_at(m2, Relation::ConflictsWith, conflicts_with, k0);
        assert(m3.dom() =~= table@.dom());
        assert forall|k: (Seq<char>, Seq<char>)| table@.dom().contains(k) implies m3[k] == table@[k] by {
            let i = key_index(s, k);
            assert(has_key(s, k));
            pairs_map_at(s, i);
            assert(s[i] == table.all()[i].pair());
            assert(records(recs[i], table.all()[i]));
            assert(recs[i].key() == k);
            with_relation_at(m0, Relation::RequiredBy, required_by, k);
            with_relation_at(m1, Relation::DependsOn, depends_on, k);
            with_relation_at(m2, Relation::ConflictsWith, conflicts_with, k);
            let a = m3[k];
            let b = table@[k];
            assert(side(m1[k], Relation::DependsOn) == side(m0[k], Relation::DependsOn));
            assert(side(m1[k], Relation::ConflictsWith) == side(m0[k], Relation::ConflictsWith));
            assert(side(m2[k], Relation::RequiredBy) == side(m1[k], Relation::RequiredBy));
            assert(side(m2[k], Relation::ConflictsWith) == side(m1[k], Relation::ConflictsWith));
            assert(side(m3[k], Relation::RequiredBy) == side(m2[k], Relation::RequiredBy));
            assert(side(m3[k], Relation::DependsOn) == side(m2[k], Relation::DependsOn));
            assert forall|v: Seq<char>| a.required_by.contains(v) == b.required_by.contains(v) by {
                with_relation_has(m0, Relation::RequiredBy, required_by, k, v);
                assert(has_relation(required_by, k, v) == side(b, Relation::RequiredBy).contains(v));
            }
            assert forall|v: Seq<char>| a.depends_on.contains(v) == b.depends_on.contains(v) by {
                with_relation_has(m1, Relation::DependsOn, depends_on, k, v);
                assert(has_relation(depends_on, k, v) == side(b, Relation::DependsOn).contains(v));
            }
            assert forall|v: Seq<char>| a.conflicts_with.contains(v) == b.conflicts_with.contains(v) by {
                with_relation_has(m2, Relation::ConflictsWith, conflicts_with, k, v);
                assert(has_relation(conflicts_with, k, v) == side(b, Relation::ConflictsWith).contains(v));
            }
            assert(a.required_by =~= b.required_by);
            assert(a.depends_on =~= b.depends_on);
            assert(a.conflicts_with =~= b.conflicts_with);
            assert(a =~= b);
        }
        assert(m3 =~= table@);
    }
}

proof fn with_relation_empty(
    m: Map<(Seq<char>, Seq<char>), InfoModel>,
    relation: Relation,
    rows: Seq<RelationRow>,
)
    requires
        forall|k: (Seq<char>, Seq<char>)| !m.dom().contains(k),
    ensures
        with_relation(m, relation, rows) == m,
    decreases rows.len(),
{
    if rows.len() > 0 {
        with_relation_empty(m, relation, rows.drop_last());
    }
}

// ---------------------------------------------------------------------------
// The history
// ---------------------------------------------------------------------------

/// All rows for the packages of a table.
#[derive(Debug)]
pub struct PackageRows {
    pub records: Vec<PackageRecord>,
    pub required_by: Vec<RelationRow>,
    pub depends_on: Vec<RelationRow>,
    pub conflicts_with: Vec<RelationRow>,
}

/// A row of the table of snapshots.
#[derive(Debug)]
pub struct SnapshotRow {
    pub timestamp: u64,
    pub description: String,
    /// The packages; `None` where what is stored of them cannot be read.
    pub packages: Option<PackageRows>,
}

impl PackageRows {
    /// The packages that the rows stand for.
    pub open spec fn packages(&self) -> Map<(Seq<char>, Seq<char>), InfoModel> {
        loaded(self.records@, self.required_by@, self.depends_on@, self.conflicts_with@)
    }
}

/// The packages that the rows stand for.
pub fn load_rows(rows: &PackageRows) -> (r: PackageTable)
    ensures
        r.wf(),
        r@ == rows.packages(),
{
    load_packages(&rows.records, &rows.required_by, &rows.depends_on, &rows.conflicts_with)
}

/// The rows for the packages of a table.
pub fn package_rows(table: &PackageTable) -> (r: PackageRows)
    requires
        table.wf(),
    ensures
        r.packages() == table@,
        r.records@.len() == table.all().len(),
        forall|i: int| 0 <= i < r.records@.len() ==> records(#[trigger] r.records@[i], table.all()[i]),
{
    let r = PackageRows {
        records: package_records(table),
        required_by: relation_rows(table, Relation::RequiredBy),
        depends_on: relation_rows(table, Relation::DependsOn),
        conflicts_with: relation_rows(table, Relation::ConflictsWith),
    };
    proof {
        save_then_load(
            *table,
            r.records@,
            r.required_by@,
            r.depends_on@,
            r.conflicts_with@,
        );
    }
    r
}

/// The history that the rows of the table of snapshots stand for. Snapshots that
/// cannot be read are left out.
pub open spec fn loaded_history(rows: Seq<SnapshotRow>) -> Seq<EntryModel>
    decreases rows.len(),
{
    if rows.len() == 0 {
        Seq::empty()
    } else {
        let rest = loaded_history(rows.drop_last());
        match rows.last().packages {
            Some(p) => rest.push(
                EntryModel {
                    timestamp: rows.last().timestamp,
                    description: rows.last().description@,
                    snapshot: p.packages(),
                },
            ),
            None => rest,
        }
    }
}

/// The history that the rows of the table of snapshots stand for, oldest first.
pub fn load_history(rows: &Vec<SnapshotRow>) -> (r: Vec<RollbackEntry>)
    ensures
        entries(r@) == loaded_history(rows@),
        forall|i: int| 0 <= i < r@.len() ==> (#[trigger] r@[i]).snapshot.wf(),
{
    let mut out: Vec<RollbackEntry> = Vec::new();
    let mut i: usize = 0;
    assert(rows@.take(0) =~= Seq::<SnapshotRow>::empty());
    assert(entries(out@) =~= Seq::<EntryModel>::empty());
    while i < rows.len()
        invariant
            i <= rows@.len(),
            entries(out@) == loaded_history(rows@.take(i as int)),
            forall|j: int| 0 <= j < out@.len() ==> (#[trigger] out@[j]).snapshot.wf(),
        decreases rows@.len() - i,
    {
        proof {
            let longer = rows@.take(i + 1);
            assert(longer.drop_last() =~= rows@.take(i as int));
            assert(longer.last() == rows@[i as int]);
        }
        match &rows[i].packages {
            Some(p) => {
                let entry = RollbackEntry {
                    timestamp: rows[i].timestamp,
                    description: rows[i].description.clone(),
                    snapshot: load_rows(p),
                };
                let ghost before = out@;
                out.push(entry);
                assert(entries(out@) =~= entries(before).push(entry@));
            },
            None => {},
        }
        i = i + 1;
    }
    assert(rows@.take(rows@.len() as int) =~= rows@);
    out
}

/// Whether a row is the one to write for a snapshot.
pub open spec fn stores(row: SnapshotRow, entry: RollbackEntry) -> bool {
    &&& row.timestamp == entry.timestamp
    &&& row.description@ == entry.description@
    &&& row.packages matches Some(p) && {
        &&& p.packages() == entry.snapshot@
        &&& p.records@.len() == entry.snapshot.all().len()
        &&& forall|i: int|
            0 <= i < p.records@.len() ==> records(#[trigger] p.records@[i], entry.snapshot.all()[i])
    }
}

/// The rows of the table of snapshots for a history.
pub fn snapshot_rows(history: &Vec<RollbackEntry>) -> (r: Vec<SnapshotRow>)
    requires
        forall|i: int| 0 <= i < history@.len() ==> (#[trigger] history@[i]).snapshot.wf(),
    ensures
        r@.len() == history@.len(),
        forall|i: int| 0 <= i < r@.len() ==> stores(#[trigger] r@[i], history@[i]),
{
    let mut out: Vec<SnapshotRow> = Vec::new();
    let mut i: usize = 0;
    while i < history.len()
        invariant
            i <= history@.len(),
            forall|j: int| 0 <= j < history@.len() ==> (#[trigger] history@[j]).snapshot.wf(),
            out@.len() == i,
            forall|j: int| 0 <= j < i ==> stores(#[trigger] out@[j], history@[j]),
        decreases history@.len() - i,
    {
        assert(history@[i as int].snapshot.wf());
        out.push(
            SnapshotRow {
                timestamp: history[i].timestamp,
                description: history[i].description.clone(),
                packages: Some(package_rows(&history[i].snapshot)),
            },
        );
        i = i + 1;
    }
    out
}

/// Loading the rows that were written for a history gives it back, snapshot by
/// snapshot and in the same order.
pub proof fn save_then_load_history(history: Seq<RollbackEntry>, rows: Seq<SnapshotRow>)
    requires
        rows.len() == history.len(),
        forall|i: int| 0 <= i < rows.len() ==> stores(#[trigger] rows[i], history[i]),
    ensures
        loaded_history(rows) == entries(history),
    decreases rows.len(),
{
    if rows.len() > 0 {
        let t = rows.drop_last();
        let h = history.drop_last();
        assert forall|i: int| 0 <= i < t.len() implies stores(#[trigger] t[i], h[i]) by {
            assert(stores(rows[i], history[i]));
        }
        save_then_load_history(h, t);
        assert(stores(rows[rows.len() - 1], history[history.len() - 1]));
        assert(entries(history) =~= entries(h).push(history.last()@));
    } else {
        assert(entries(history) =~= Seq::<EntryModel>::empty());
    }
}

/// The rows of all tables, for everything that is recorded.
#[derive(Debug)]
pub struct StateRows {
    pub packages: PackageRows,
    pub snapshots: Vec<SnapshotRow>,
}

/// The rows to write for a state: loading them gives back its packages and its
/// history.
pub fn save_state(state: &State) -> (r: StateRows)
    requires
        state.wf(),
    ensures
        r.packages.packages() == state.packages@,
        r.packages.records@.len() == state.packages.all().len(),
        forall|i: int|
            0 <= i < r.packages.records@.len() ==> records(
                #[trigger] r.packages.records@[i],
                state.packages.all()[i],
            ),
        loaded_history(r.snapshots@) == entries(state.history@),
        r.snapshots@.len() == state.history@.len(),
        forall|i: int|
            0 <= i < r.snapshots@.len() ==> stores(#[trigger] r.snapshots@[i], state.history@[i]),
{
    let r = StateRows {
        packages: package_rows(&state.packages),
        snapshots: snapshot_rows(&state.history),
    };
    proof {
        save_then_load_history(state.history@, r.snapshots@);
    }
    r
}

/// The state that rows stand for.
pub fn load_state(rows: &StateRows) -> (r: State)
    ensures
        r.wf(),
        r.packages@ == rows.packages.packages(),
        entries(r.history@) == loaded_history(rows.snapshots@),
{
    State { packages: load_rows(&rows.packages), history: load_history(&rows.snapshots) }
}

} // verus!
