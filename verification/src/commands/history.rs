//! Going back to earlier states, keeping versions, and removing what nothing
//! needs any more.
use vstd::prelude::*;

use crate::collections::{key_index, pair_texts, pairs_map_at};
use crate::number::{decimal, number_of, parse_number, to_decimal};
use crate::state::{after_remove, installed_has_a_row, join_pkg_ver, linked, names_requirer, pkg_key, plain_names, remove_keeps_links, requirers, row_pairs, wanted, without_pkg, without_pkg_forgets_only_it, wrapper_key, InfoModel, PackageRow, PackageTable, State, StateError, WrapperNames};
use crate::text::{cat, cat3, cat5, is_empty_text, is_letter, is_one_letter, trim_white, trimmed};

verus! {

// ---------------------------------------------------------------------------
// One package
// ---------------------------------------------------------------------------

/// The text for a package that has no earlier version.
pub fn no_previous_version(package: &str) -> (r: String)
    ensures
        r@ == "No previous version found for '"@ + package@
            + "'.\nOnly one version is installed — nothing to roll back to."@,
{
    cat3(
        "No previous version found for '",
        package,
        "'.\nOnly one version is installed — nothing to roll back to.",
    )
}

/// The text for a version whose files are not there.
pub fn missing_files(package: &str, version: &str) -> (r: String)
    ensures
        r@ == "Version "@ + pkg_key(package@, version@)
            + " files not found in store.\nThe version is in state.json but its directory is missing.\nRun hpm doctor to diagnose."@,
{
    let key = join_pkg_ver(package, version);
    cat3(
        "Version ",
        key.as_str(),
        " files not found in store.\nThe version is in state.json but its directory is missing.\nRun hpm doctor to diagnose.",
    )
}

// ---------------------------------------------------------------------------
// Everything
// ---------------------------------------------------------------------------

/// Which snapshot is chosen.
#[derive(Clone, Copy, PartialEq, Eq, Structural, Debug)]
pub enum SnapshotChoice {
    Quit,
    Snapshot(usize),
}

/// Reads which of so many snapshots is chosen.
pub fn choose_snapshot(input: &str, count: usize) -> (r: Result<SnapshotChoice, String>)
    requires
        count > 0,
    ensures
        ({
            let t = trimmed(input@);
            if t.len() == 0 || is_letter(t, 'q', 'Q') {
                r == Ok::<SnapshotChoice, String>(SnapshotChoice::Quit)
            } else {
                match number_of(t, usize::MAX as nat) {
                    None => r matches Err(m) && m@ == "Invalid index: "@ + t,
                    Some(n) => if n >= count {
                        r matches Err(m) && m@ == "Index "@ + decimal(n) + " out of range (0.."@ + decimal(
                            (count - 1) as nat,
                        ) + ")"@
                    } else {
                        r == Ok::<SnapshotChoice, String>(SnapshotChoice::Snapshot(n as usize))
                    },
                }
            }
        }),
{
    let t = trim_white(input);
    if is_empty_text(t.as_str()) || is_one_letter(t.as_str(), 'q', 'Q') {
        return Ok(SnapshotChoice::Quit);
    }
    match parse_number(t.as_str(), usize::MAX as u64) {
        None => Err(cat("Invalid index: ", t.as_str())),
        Some(n) => {
            if n >= count as u64 {
                let a = to_decimal(n);
                let b = to_decimal((count - 1) as u64);
                return Err(cat5("Index ", a.as_str(), " out of range (0..", b.as_str(), ")"));
            }
            Ok(SnapshotChoice::Snapshot(n as usize))
        },
    }
}

/// The versions among the rows that are not in the map, in their order.
pub open spec fn absent(rows: Seq<PackageRow>, m: Map<(Seq<char>, Seq<char>), InfoModel>) -> Seq<(Seq<char>, Seq<char>)>
    decreases rows.len(),
{
    if rows.len() == 0 {
        Seq::empty()
    } else {
        let rest = absent(rows.drop_last(), m);
        if m.dom().contains(rows.last().key()) {
            rest
        } else {
            rest + seq![rows.last().key()]
        }
    }
}

/// How to get from one state to another.
#[derive(Debug)]
pub struct RollbackPlan {
    pub to_install: Vec<(String, String)>,
    pub to_remove: Vec<(String, String)>,
}

fn absent_versions(from: &PackageTable, other: &PackageTable) -> (r: Vec<(String, String)>)
    requires
        other.wf(),
    ensures
        pair_texts(r@) == absent(from.all(), other@),
{
    let mut out: Vec<(String, String)> = Vec::new();
    let ghost rows = from.all();
    let mut i: usize = 0;
    assert(rows.take(0) =~= Seq::<PackageRow>::empty());
    assert(pair_texts(out@) =~= Seq::<(Seq<char>, Seq<char>)>::empty());
    while i < from.len()
        invariant
            i <= rows.len(),
            rows == from.all(),
            other.wf(),
            pair_texts(out@) == absent(rows.take(i as int), other@),
        decreases rows.len() - i,
    {
        let row = from.row(i);
        proof {
            let longer = rows.take(i + 1);
            assert(longer.drop_last() =~= rows.take(i as int));
            assert(longer.last() == rows[i as int]);
        }
        if other.get(row.name.as_str(), row.version.as_str()).is_none() {
            let ghost before = out@;
            out.push((row.name.clone(), row.version.clone()));
            assert(pair_texts(out@) =~= pair_texts(before) + seq![(row.name@, row.version@)]);
        }
        i = i + 1;
    }
    assert(rows.take(rows.len() as int) =~= rows);
    out
}

/// How to get from what is installed to a snapshot: what to install and what to
/// remove.
pub fn rollback_plan(state: &State, index: usize) -> (r: RollbackPlan)
    requires
        state.wf(),
        index < state.history@.len(),
    ensures
        pair_texts(r.to_install@) == absent(
            state.history@[index as int].snapshot.all(),
            state.packages@,
        ),
        pair_texts(r.to_remove@) == absent(
            state.packages.all(),
            state.history@[index as int].snapshot@,
        ),
{
    assert(state.history@[index as int].snapshot.wf());
    let snapshot = &state.history[index].snapshot;
    RollbackPlan {
        to_install: absent_versions(snapshot, &state.packages),
        to_remove: absent_versions(&state.packages, snapshot),
    }
}

// ---------------------------------------------------------------------------
// What nothing needs
// ---------------------------------------------------------------------------

/// The packages after versions are removed, one after the other.
pub open spec fn after_removes(
    m: Map<(Seq<char>, Seq<char>), InfoModel>,
    gone: Seq<(Seq<char>, Seq<char>)>,
) -> Map<(Seq<char>, Seq<char>), InfoModel>
    decreases gone.len(),
{
    if gone.len() == 0 {
        m
    } else {
        after_remove(after_removes(m, gone.drop_last()), gone.last().0, gone.last().1)
    }
}

/// The chosen wrapper names without those of packages of which versions are
/// removed.
pub open spec fn names_after_removes(
    names: Map<Seq<char>, Seq<char>>,
    gone: Seq<(Seq<char>, Seq<char>)>,
) -> Map<Seq<char>, Seq<char>>
    decreases gone.len(),
{
    if gone.len() == 0 {
        names
    } else {
        without_pkg(names_after_removes(names, gone.drop_last()), gone.last().0)
    }
}

/// Records that versions are gone, one after the other.
pub fn remove_versions(state: &mut State, names: &mut WrapperNames, gone: &Vec<(String, String)>)
    requires
        old(state).wf(),
        old(names).wf(),
    ensures
        final(state).wf(),
        final(names).wf(),
        final(state).history == old(state).history,
        final(state).packages@ == after_removes(old(state).packages@, pair_texts(gone@)),
        final(names)@ == names_after_removes(old(names)@, pair_texts(gone@)),
{
    let ghost all = pair_texts(gone@);
    let ghost start = state.packages@;
    let ghost history = state.history;
    let ghost chosen = names@;
    let mut i: usize = 0;
    assert(all.take(0) =~= Seq::<(Seq<char>, Seq<char>)>::empty());
    while i < gone.len()
        invariant
            i <= gone@.len(),
            all == pair_texts(gone@),
            state.wf(),
            names.wf(),
            state.history == history,
            state.packages@ == after_removes(start, all.take(i as int)),
            names@ == names_after_removes(chosen, all.take(i as int)),
        decreases gone@.len() - i,
    {
        proof {
            let longer = all.take(i + 1);
            assert(longer.drop_last() =~= all.take(i as int));
            assert(longer.last() == (gone@[i as int].0@, gone@[i as int].1@));
        }
        state.remove_package_version(names, gone[i].0.as_str(), gone[i].1.as_str());
        i = i + 1;
    }
    assert(all.take(all.len() as int) =~= all);
}

/// The name of the snapshot that is taken before packages that nothing needs
/// are removed.
pub fn autoremove_snapshot_name(count: usize) -> (r: String)
    ensures
        r@ == "pre-autoremove "@ + decimal(count as nat) + " packages"@,
{
    let n = to_decimal(count as u64);
    cat3("pre-autoremove ", n.as_str(), " packages")
}

/// The text for how many packages that nothing needed were removed.
pub fn autoremove_summary(removed: usize) -> (r: String)
    ensures
        r@ == (if removed == 0 {
            "Nothing to remove — no orphaned packages found."@
        } else {
            "Removed "@ + decimal(removed as nat) + " orphaned package(s)."@
        }),
{
    if removed == 0 {
        "Nothing to remove — no orphaned packages found.".to_owned()
    } else {
        let n = to_decimal(removed as u64);
        cat3("Removed ", n.as_str(), " orphaned package(s).")
    }
}

// ---------------------------------------------------------------------------
// Keeping versions
// ---------------------------------------------------------------------------

/// The packages with one version kept, or not kept any more.
pub open spec fn with_pin(
    m: Map<(Seq<char>, Seq<char>), InfoModel>,
    key: (Seq<char>, Seq<char>),
    pinned: bool,
) -> Map<(Seq<char>, Seq<char>), InfoModel> {
    m.insert(key, InfoModel { pinned, ..m[key] })
}

/// Keeps a version of a package: it is not updated any more.
pub fn pin(state: &mut State, package: &str, version: &str) -> (r: Result<(), String>)
    requires
        old(state).wf(),
    ensures
        final(state).wf(),
        final(state).history == old(state).history,
        if !old(state).packages.has_package(package@) {
            r matches Err(m) && m@ == "Package '"@ + package@ + "' not installed"@
                && final(state).packages == old(state).packages
        } else if !old(state).packages@.dom().contains((package@, version@)) {
            r matches Err(m) && m@ == "Version '"@ + version@ + "' of package '"@ + package@
                + "' not installed"@ && final(state).packages == old(state).packages
        } else {
            r is Ok && final(state).packages@ == with_pin(
                old(state).packages@,
                (package@, version@),
                true,
            )
        },
{
    proof {
        state.packages.has_package_in_map(package@);
    }
    match state.set_pinned(package, version, true) {
        Ok(_) => Ok(()),
        Err(StateError::PackageNotInstalled) => Err(cat3("Package '", package, "' not installed")),
        Err(StateError::VersionNotInstalled) => Err(
            cat5("Version '", version, "' of package '", package, "' not installed"),
        ),
    }
}

/// Lets the version of a package that is in use be updated again.
pub fn unpin(state: &mut State, package: &str, current: &Option<String>) -> (r: Result<(), String>)
    requires
        old(state).wf(),
    ensures
        final(state).wf(),
        final(state).history == old(state).history,
        match current {
            None => r matches Err(m) && m@ == "Package '"@ + package@ + "' not installed"@
                && final(state).packages == old(state).packages,
            Some(v) => if !old(state).packages.has_package(package@) {
                r matches Err(m) && m@ == "Package not found in state"@ && final(state).packages
                    == old(state).packages
            } else if !old(state).packages@.dom().contains((package@, v@)) {
                r matches Err(m) && m@ == "Current version not found in state"@
                    && final(state).packages == old(state).packages
            } else {
                r is Ok && final(state).packages@ == with_pin(
                    old(state).packages@,
                    (package@, v@),
                    false,
                )
            },
        },
{
    proof {
        state.packages.has_package_in_map(package@);
    }
    match current {
        None => Err(cat3("Package '", package, "' not installed")),
        Some(v) => match state.set_pinned(package, v.as_str(), false) {
            Ok(_) => Ok(()),
            Err(StateError::PackageNotInstalled) => Err("Package not found in state".to_owned()),
            Err(StateError::VersionNotInstalled) => Err("Current version not found in state".to_owned()),
        },
    }
}

// ---------------------------------------------------------------------------
// Laws
// ---------------------------------------------------------------------------

/// Letting a version be updated again undoes keeping it.
pub proof fn unpin_undoes_pin(m: Map<(Seq<char>, Seq<char>), InfoModel>, key: (Seq<char>, Seq<char>))
    requires
        m.dom().contains(key),
        !m[key].pinned,
    ensures
        with_pin(with_pin(m, key, true), key, false) == m,
{
    assert(with_pin(with_pin(m, key, true), key, false) =~= m);
}

/// Keeping a version, or no longer, leaves what is recorded of who requires whom
/// right.
pub proof fn pin_keeps_links(
    m: Map<(Seq<char>, Seq<char>), InfoModel>,
    key: (Seq<char>, Seq<char>),
    pinned: bool,
)
    requires
        linked(m),
        m.dom().contains(key),
    ensures
        linked(with_pin(m, key, pinned)),
{
    let after = with_pin(m, key, pinned);
    assert forall|k: (Seq<char>, Seq<char>)| #[trigger] after.dom().contains(k) implies after[k].required_by
        == requirers(after, k) by {
        assert(m.dom().contains(k));
        assert forall|x: Seq<char>| names_requirer(after, k, x) == names_requirer(m, k, x) by {
            if names_requirer(m, k, x) {
                let j = choose|j: (Seq<char>, Seq<char>)| #[trigger]
                    m.dom().contains(j) && wanted(m[j].depends_on, k) && x == pkg_key(j.0, j.1);
                assert(after.dom().contains(j));
            }
            if names_requirer(after, k, x) {
                let j = choose|j: (Seq<char>, Seq<char>)| #[trigger]
                    after.dom().contains(j) && wanted(after[j].depends_on, k) && x == pkg_key(j.0, j.1);
                assert(m.dom().contains(j));
            }
        }
        assert(requirers(after, k) =~= requirers(m, k));
    }
}

/// Removing versions one after the other leaves what is recorded of who requires
/// whom right.
pub proof fn removes_keep_links(
    m: Map<(Seq<char>, Seq<char>), InfoModel>,
    gone: Seq<(Seq<char>, Seq<char>)>,
)
    requires
        linked(m),
        plain_names(m),
        forall|i: int| 0 <= i < gone.len() ==> !(#[trigger] gone[i]).0.contains('@'),
    ensures
        linked(after_removes(m, gone)),
        plain_names(after_removes(m, gone)),
    decreases gone.len(),
{
    if gone.len() > 0 {
        let rest = gone.drop_last();
        assert forall|i: int| 0 <= i < rest.len() implies !(#[trigger] rest[i]).0.contains('@') by {
            assert(rest[i] == gone[i]);
        }
        removes_keep_links(m, rest);
        let before = after_removes(m, rest);
        let last = gone[gone.len() - 1];
        remove_keeps_links(before, last.0, last.1);
        assert forall|k: (Seq<char>, Seq<char>)| #[trigger]
            after_removes(m, gone).dom().contains(k) implies !k.0.contains('@') by {
            assert(before.dom().contains(k));
        }
    }
}

/// Versions that were removed are gone, and no other version is.
pub proof fn removed_are_gone(
    m: Map<(Seq<char>, Seq<char>), InfoModel>,
    gone: Seq<(Seq<char>, Seq<char>)>,
    key: (Seq<char>, Seq<char>),
)
    ensures
        after_removes(m, gone).dom().contains(key) == (m.dom().contains(key) && !gone.contains(key)),
    decreases gone.len(),
{
    if gone.len() > 0 {
        let rest = gone.drop_last();
        removed_are_gone(m, rest, key);
        let last = gone.last();
        assert((last.0, last.1) == last);
        assert(gone[gone.len() - 1] == last);
        if gone.contains(key) && key != last {
            let i = choose|i: int| 0 <= i < gone.len() && gone[i] == key;
            assert(rest[i] == key);
        }
        if rest.contains(key) {
            let i = choose|i: int| 0 <= i < rest.len() && rest[i] == key;
            assert(gone[i] == key);
        }
    }
}

proof fn absent_holds(
    rows: Seq<PackageRow>,
    m: Map<(Seq<char>, Seq<char>), InfoModel>,
    key: (Seq<char>, Seq<char>),
)
    ensures
        absent(rows, m).contains(key) == (!m.dom().contains(key) && exists|i: int|
            0 <= i < rows.len() && (#[trigger] rows[i]).key() == key),
    decreases rows.len(),
{
    if rows.len() > 0 {
        let rest = rows.drop_last();
        absent_holds(rest, m, key);
        let before = absent(rest, m);
        let last = rows.last();
        assert(rows[rows.len() - 1] == last);
        let all = absent(rows, m);
        if exists|i: int| 0 <= i < rows.len() && (#[trigger] rows[i]).key() == key {
            let i = choose|i: int| 0 <= i < rows.len() && (#[trigger] rows[i]).key() == key;
            if i < rest.len() {
                assert(rest[i].key() == key);
            }
        }
        if exists|i: int| 0 <= i < rest.len() && (#[trigger] rest[i]).key() == key {
            let i = choose|i: int| 0 <= i < rest.len() && (#[trigger] rest[i]).key() == key;
            assert(rows[i].key() == key);
        }
        if !m.dom().contains(last.key()) {
            assert(all[before.len() as int] == last.key());
            if before.contains(key) {
                let i = choose|i: int| 0 <= i < before.len() && before[i] == key;
                assert(all[i] == key);
            }
            if all.contains(key) && key != last.key() {
                let i = choose|i: int| 0 <= i < all.len() && all[i] == key;
                assert(before[i] == key);
            }
        }
    }
}

/// What is installed, without what is to be removed and with what is to be
/// installed, is what the snapshot holds.
pub proof fn plan_reaches_snapshot(now: PackageTable, snapshot: PackageTable, key: (Seq<char>, Seq<char>))
    requires
        now.wf(),
        snapshot.wf(),
    ensures
        snapshot@.dom().contains(key) == ((now@.dom().contains(key) && !absent(
            now.all(),
            snapshot@,
        ).contains(key)) || absent(snapshot.all(), now@).contains(key)),
{
    absent_holds(now.all(), snapshot@, key);
    absent_holds(snapshot.all(), now@, key);
    rows_are_keys(now, key);
    rows_are_keys(snapshot, key);
}

proof fn rows_are_keys(t: PackageTable, key: (Seq<char>, Seq<char>))
    requires
        t.wf(),
    ensures
        t@.dom().contains(key) == (exists|i: int|
            0 <= i < t.all().len() && (#[trigger] t.all()[i]).key() == key),
{
    let s = row_pairs(t.all());
    if t@.dom().contains(key) {
        let i = key_index(s, key);
        assert(s[i].0 == key);
        assert(t.all()[i].key() == key);
    }
    if exists|i: int| 0 <= i < t.all().len() && (#[trigger] t.all()[i]).key() == key {
        let i = choose|i: int| 0 <= i < t.all().len() && (#[trigger] t.all()[i]).key() == key;
        assert(s[i] == t.all()[i].pair());
        pairs_map_at(s, i);
    }
}

/// Keeping a version, or no longer, changes nothing but that.
pub proof fn pin_changes_only_that(
    m: Map<(Seq<char>, Seq<char>), InfoModel>,
    key: (Seq<char>, Seq<char>),
    pinned: bool,
    k: (Seq<char>, Seq<char>),
)
    requires
        m.dom().contains(key),
    ensures
        with_pin(m, key, pinned).dom() == m.dom(),
        with_pin(m, key, pinned)[key].pinned == pinned,
        with_pin(m, key, pinned)[key] == (InfoModel { pinned: with_pin(m, key, pinned)[key].pinned, ..m[key] }),
        k != key ==> with_pin(m, key, pinned)[k] == m[k],
{
    assert(with_pin(m, key, pinned).dom() =~= m.dom());
}

/// With versions of packages go the wrapper names chosen for those packages, and no
/// others.
pub proof fn names_go_with_their_packages(
    names: Map<Seq<char>, Seq<char>>,
    gone: Seq<(Seq<char>, Seq<char>)>,
    package: Seq<char>,
    bin: Seq<char>,
)
    requires
        !package.contains(':'),
        forall|i: int| 0 <= i < gone.len() ==> !(#[trigger] gone[i]).0.contains(':'),
    ensures
        names_after_removes(names, gone).dom().contains(package + ":"@ + bin) <==> names.dom().contains(
            package + ":"@ + bin,
        ) && forall|i: int| 0 <= i < gone.len() ==> (#[trigger] gone[i]).0 != package,
        names_after_removes(names, gone).dom().contains(package + ":"@ + bin) ==> names_after_removes(
            names,
            gone,
        )[package + ":"@ + bin] == names[package + ":"@ + bin],
    decreases gone.len(),
{
    if gone.len() > 0 {
        let t = gone.drop_last();
        assert forall|i: int| 0 <= i < t.len() implies !(#[trigger] t[i]).0.contains(':') by {
            assert(t[i] == gone[i]);
        }
        names_go_with_their_packages(names, t, package, bin);
        let last = gone[gone.len() - 1];
        let before = names_after_removes(names, t);
        let key = package + ":"@ + bin;
        assert(key == wrapper_key(package, bin));
        if last.0 == package {
            assert(key.take((package + ":"@).len() as int) =~= package + ":"@);
        } else {
            without_pkg_forgets_only_it(before, last.0, package, bin);
            if forall|i: int| 0 <= i < t.len() ==> (#[trigger] t[i]).0 != package {
                assert forall|i: int| 0 <= i < gone.len() implies (#[trigger] gone[i]).0 != package by {
                    if i < t.len() {
                        assert(t[i] == gone[i]);
                    }
                }
            } else {
                let i = choose|i: int| 0 <= i < t.len() && (#[trigger] t[i]).0 == package;
                assert(gone[i].0 == package);
            }
        }
    }
}

/// Only what the one state has and the other has not is installed, or removed, on the way
/// to it: what both have is left alone.
pub proof fn what_both_have_is_left_alone(table: PackageTable, other: PackageTable, key: (Seq<char>, Seq<char>))
    requires
        table.wf(),
        other.wf(),
    ensures
        absent(table.all(), other@).contains(key) <==> table@.dom().contains(key) && !other@.dom().contains(key),
{
    absent_holds(table.all(), other@, key);
    installed_has_a_row(table, key);
    assert forall|i: int| 0 <= i < table.all().len() implies (#[trigger] table.all()[i]).key() == (
        table.all()[i].name@,
        table.all()[i].version@,
    ) by {}
}

} // verus!
