//! Removing what is no longer needed.
use vstd::prelude::*;

use crate::collections::{pair_texts, NameMap};
use crate::number::{decimal, to_decimal};
use crate::pattern::{has_prefix, starts_with};
use crate::state::{installed_has_a_row, PackageRow, State};
use crate::text::{cat3, same};

verus! {

/// Whether a directory is one in which an installation was broken off.
pub fn is_staging_dir(name: &str) -> (r: bool)
    ensures
        r == has_prefix(name@, ".staging-"@),
{
    starts_with(name, ".staging-")
}

/// Whether an installed version is of a package with another version in use.
pub open spec fn is_old(row: PackageRow, current: Map<Seq<char>, Seq<char>>) -> bool {
    current.dom().contains(row.name@) && current[row.name@] != row.version@
}

/// The versions of packages with another version in use.
pub open spec fn old_rows(rows: Seq<PackageRow>, current: Map<Seq<char>, Seq<char>>) -> Seq<(Seq<char>, Seq<char>)>
    decreases rows.len(),
{
    if rows.len() == 0 {
        Seq::empty()
    } else {
        let rest = old_rows(rows.drop_last(), current);
        if is_old(rows.last(), current) {
            rest + seq![(rows.last().name@, rows.last().version@)]
        } else {
            rest
        }
    }
}

/// The installed versions that are not in use, of packages that have a version
/// in use. Those whose files are there can be removed.
pub fn old_versions(state: &State, current: &NameMap) -> (r: Vec<(String, String)>)
    requires
        state.wf(),
        current.wf(),
    ensures
        pair_texts(r@) == old_rows(state.packages.all(), current@),
{
    let mut out: Vec<(String, String)> = Vec::new();
    let ghost rows = state.packages.all();
    let mut i: usize = 0;
    assert(rows.take(0) =~= Seq::<PackageRow>::empty());
    assert(pair_texts(out@) =~= Seq::<(Seq<char>, Seq<char>)>::empty());
    while i < state.packages.len()
        invariant
            i <= rows.len(),
            rows == state.packages.all(),
            current.wf(),
            pair_texts(out@) == old_rows(rows.take(i as int), current@),
        decreases rows.len() - i,
    {
        let row = state.packages.row(i);
        proof {
            let longer = rows.take(i + 1);
            assert(longer.drop_last() =~= rows.take(i as int));
            assert(longer.last() == rows[i as int]);
        }
        match current.get(row.name.as_str()) {
            Some(c) => {
                if !same(c.as_str(), row.version.as_str()) {
                    let ghost before = out@;
                    out.push((row.name.clone(), row.version.clone()));
                    assert(pair_texts(out@) =~= pair_texts(before) + seq![(row.name@, row.version@)]);
                }
            },
            None => {},
        }
        i = i + 1;
    }
    assert(rows.take(rows.len() as int) =~= rows);
    out
}

/// The unit in which a number of bytes is shown.
#[derive(Clone, Copy, PartialEq, Eq, Structural, Debug)]
pub enum ByteUnit {
    Bytes,
    Kilobytes,
    Megabytes,
    Gigabytes,
}

/// The unit in which a number of bytes is shown: the largest of which there is
/// at least one.
pub fn unit_for(bytes: u64) -> (r: ByteUnit)
    ensures
        r == (if bytes < 1024 {
            ByteUnit::Bytes
        } else if bytes < 1048576 {
            ByteUnit::Kilobytes
        } else if bytes < 1073741824 {
            ByteUnit::Megabytes
        } else {
            ByteUnit::Gigabytes
        }),
{
    if bytes < 1024 {
        ByteUnit::Bytes
    } else if bytes < 1048576 {
        ByteUnit::Kilobytes
    } else if bytes < 1073741824 {
        ByteUnit::Megabytes
    } else {
        ByteUnit::Gigabytes
    }
}

impl ByteUnit {
    /// How many bytes the unit has.
    pub fn size(&self) -> (r: u64)
        ensures
            r == (match self {
                ByteUnit::Bytes => 1u64,
                ByteUnit::Kilobytes => 1024u64,
                ByteUnit::Megabytes => 1048576u64,
                ByteUnit::Gigabytes => 1073741824u64,
            }),
    {
        match self {
            ByteUnit::Bytes => 1,
            ByteUnit::Kilobytes => 1024,
            ByteUnit::Megabytes => 1048576,
            ByteUnit::Gigabytes => 1073741824,
        }
    }

    /// How many digits are shown behind the point.
    pub fn digits(&self) -> (r: usize)
        ensures
            r == (match self {
                ByteUnit::Bytes => 0usize,
                ByteUnit::Gigabytes => 2usize,
                _ => 1usize,
            }),
    {
        match self {
            ByteUnit::Bytes => 0,
            ByteUnit::Gigabytes => 2,
            _ => 1,
        }
    }

    /// The sign of the unit.
    pub fn sign(&self) -> (r: &'static str)
        ensures
            r@ == (match self {
                ByteUnit::Bytes => "B"@,
                ByteUnit::Kilobytes => "KB"@,
                ByteUnit::Megabytes => "MB"@,
                ByteUnit::Gigabytes => "GB"@,
            }),
    {
        match self {
            ByteUnit::Bytes => "B",
            ByteUnit::Kilobytes => "KB",
            ByteUnit::Megabytes => "MB",
            ByteUnit::Gigabytes => "GB",
        }
    }
}

/// The text for what was removed; `freed` is the size of it as text.
pub fn clean_summary(repos: usize, files: usize, staging: usize, also_store: bool, freed: &str) -> (r: String)
    ensures
        r@ == (if repos == 0 && files == 0 && staging == 0 && !also_store {
            "Cache is already empty."@
        } else {
            "Cleaned: "@ + decimal(repos as nat) + " git repo(s), "@ + decimal(files as nat)
                + " file(s) — "@ + freed@ + " freed."@
        }),
{
    if repos == 0 && files == 0 && staging == 0 && !also_store {
        return "Cache is already empty.".to_owned();
    }
    let a = to_decimal(repos as u64);
    let b = to_decimal(files as u64);
    let mut s = cat3("Cleaned: ", a.as_str(), " git repo(s), ");
    s.append(b.as_str());
    s.append(" file(s) — ");
    s.append(freed);
    s.append(" freed.");
    s
}

// ---------------------------------------------------------------------------
// Laws
// ---------------------------------------------------------------------------

/// The version of a package that is in use is never removed.
pub proof fn version_in_use_stays(rows: Seq<PackageRow>, current: Map<Seq<char>, Seq<char>>, name: Seq<char>)
    requires
        current.dom().contains(name),
    ensures
        !old_rows(rows, current).contains((name, current[name])),
    decreases rows.len(),
{
    if rows.len() > 0 {
        version_in_use_stays(rows.drop_last(), current, name);
        let rest = old_rows(rows.drop_last(), current);
        if is_old(rows.last(), current) {
            let all = rest + seq![(rows.last().name@, rows.last().version@)];
            if all.contains((name, current[name])) {
                let i = choose|i: int| 0 <= i < all.len() && all[i] == (name, current[name]);
                if i < rest.len() {
                    assert(rest[i] == (name, current[name]));
                }
            }
        }
    }
}

proof fn old_rows_hold(rows: Seq<PackageRow>, current: Map<Seq<char>, Seq<char>>, key: (Seq<char>, Seq<char>))
    ensures
        old_rows(rows, current).contains(key) == (current.dom().contains(key.0) && current[key.0] != key.1
            && exists|i: int|
            0 <= i < rows.len() && (#[trigger] rows[i]).name@ == key.0 && rows[i].version@ == key.1),
    decreases rows.len(),
{
    if rows.len() > 0 {
        let t = rows.drop_last();
        old_rows_hold(t, current, key);
        let rest = old_rows(t, current);
        let all = old_rows(rows, current);
        if all.contains(key) {
            let k = choose|k: int| 0 <= k < all.len() && all[k] == key;
            if k < rest.len() {
                assert(rest[k] == key);
                let i = choose|i: int|
                    0 <= i < t.len() && (#[trigger] t[i]).name@ == key.0 && t[i].version@ == key.1;
                assert(rows[i] == t[i]);
            } else {
                assert(rows[rows.len() - 1].name@ == key.0);
            }
        }
        if current.dom().contains(key.0) && current[key.0] != key.1 && exists|i: int|
            0 <= i < rows.len() && (#[trigger] rows[i]).name@ == key.0 && rows[i].version@ == key.1 {
            let i = choose|i: int|
                0 <= i < rows.len() && (#[trigger] rows[i]).name@ == key.0 && rows[i].version@ == key.1;
            if i < t.len() {
                assert(t[i] == rows[i]);
                assert(rest.contains(key));
                let k = choose|k: int| 0 <= k < rest.len() && rest[k] == key;
                assert(all[k] == key);
            } else {
                assert(all[rest.len() as int] == key);
            }
        }
    }
}

/// What can be removed are the installed versions of packages of which another version
/// is in use, and nothing else.
pub proof fn only_versions_not_in_use_go(
    state: State,
    current: Map<Seq<char>, Seq<char>>,
    key: (Seq<char>, Seq<char>),
)
    requires
        state.wf(),
    ensures
        old_rows(state.packages.all(), current).contains(key) <==> state.packages@.dom().contains(key)
            && current.dom().contains(key.0) && current[key.0] != key.1,
{
    old_rows_hold(state.packages.all(), current, key);
    installed_has_a_row(state.packages, key);
}

} // verus!
