//! Comparing two versions of a package.
use vstd::prelude::*;
use vstd::seq_lib::lemma_seq_concat_contains_all_elements;

use crate::collections::{has_key, key_index, pairs_map_at, NameMap};
use crate::commands::placing::{merge_strings, merged, merged_holds_both};
use crate::config::{map_entry, map_get, map_len, map_pairs, pair_value, value_is_that_of_the_first};
use crate::hash::{checksum, compute_file_hash};
use crate::manifest::Manifest;
use crate::number::{decimal, to_decimal};
use crate::text::{cat3, cat5, chars_in_bytes, first_bytes, padded_right, pad_right, push_text, same, strs, substring, to_chars};
use crate::utils::{missing_from, missing_is_what_is_not_there, strings_missing_from};

use indexmap::IndexMap;

verus! {

// ---------------------------------------------------------------------------
// Arguments
// ---------------------------------------------------------------------------

/// Which versions are compared.
#[derive(Debug)]
pub struct DiffRequest {
    pub package: String,
    pub first: String,
    pub second: String,
}

/// Why there is nothing to compare.
#[derive(Debug)]
pub enum DiffProblem {
    /// The package and a version are not both given.
    Usage,
    /// The second version is not given, and none is in use.
    NotInstalled(String),
}

/// Reads which versions are compared: the second is the one in use where it is
/// not given.
pub fn diff_request(args: &Vec<String>, current: &Option<String>) -> (r: Result<DiffRequest, DiffProblem>)
    ensures
        if args@.len() < 2 {
            r matches Err(DiffProblem::Usage)
        } else if args@.len() >= 3 {
            r matches Ok(q) && q.package@ == args@[0]@ && q.first@ == args@[1]@ && q.second@
                == args@[2]@
        } else {
            match current {
                Some(c) => r matches Ok(q) && q.package@ == args@[0]@ && q.first@ == args@[1]@
                    && q.second@ == c@,
                None => r matches Err(DiffProblem::NotInstalled(m)) && m@ == "Package '"@ + args@[0]@
                    + "' not installed. Provide two explicit versions:\n  hpm diff "@ + args@[0]@
                    + " <ver1> <ver2>"@,
            }
        },
{
    if args.len() < 2 {
        return Err(DiffProblem::Usage);
    }
    let package = args[0].clone();
    let first = args[1].clone();
    if args.len() >= 3 {
        return Ok(DiffRequest { package, first, second: args[2].clone() });
    }
    match current {
        Some(c) => Ok(DiffRequest { package, first, second: c.clone() }),
        None => Err(
            DiffProblem::NotInstalled(
                cat5(
                    "Package '",
                    package.as_str(),
                    "' not installed. Provide two explicit versions:\n  hpm diff ",
                    package.as_str(),
                    " <ver1> <ver2>",
                ),
            ),
        ),
    }
}

/// What is said where the manifests cannot be compared.
pub fn missing_manifest_note(first: &str, second: &str, have_first: bool, have_second: bool) -> (r: Option<String>)
    ensures
        match r {
            None => have_first && have_second,
            Some(t) => if have_second {
                !have_first && t@ == "Version "@ + first@ + " manifest not available"@
            } else if have_first {
                t@ == "Version "@ + second@ + " manifest not available"@
            } else {
                t@ == "Neither version manifest available locally"@
            },
        },
{
    if have_first && have_second {
        None
    } else if have_second {
        Some(cat3("Version ", first, " manifest not available"))
    } else if have_first {
        Some(cat3("Version ", second, " manifest not available"))
    } else {
        Some("Neither version manifest available locally".to_owned())
    }
}

// ---------------------------------------------------------------------------
// Manifests
// ---------------------------------------------------------------------------

/// What kind of change a change is.
#[derive(Clone, Copy, PartialEq, Eq, Structural, Debug)]
pub enum ChangeKind {
    Changed,
    Added,
    Removed,
}

/// A change from one version to another.
#[derive(Debug)]
pub struct Change {
    pub kind: ChangeKind,
    pub text: String,
}

/// Changes as mathematical values.
pub open spec fn changes(v: Seq<Change>) -> Seq<(ChangeKind, Seq<char>)> {
    v.map_values(|c: Change| (c.kind, c.text@))
}

fn push_change(out: &mut Vec<Change>, kind: ChangeKind, text: String)
    ensures
        changes(final(out)@) == changes(old(out)@) + seq![(kind, text@)],
{
    out.push(Change { kind, text });
    assert(changes(out@) =~= changes(old(out)@) + seq![(kind, text@)]);
}

/// The change of a field.
pub open spec fn field_change(label: Seq<char>, a: Seq<char>, b: Seq<char>) -> Seq<(ChangeKind, Seq<char>)> {
    if a == b {
        Seq::empty()
    } else {
        seq![(ChangeKind::Changed, padded_right(label, 16) + " "@ + a + " → "@ + b)]
    }
}

fn diff_field(out: &mut Vec<Change>, label: &str, a: &str, b: &str)
    ensures
        changes(final(out)@) == changes(old(out)@) + field_change(label@, a@, b@),
{
    if same(a, b) {
        assert(changes(out@) + Seq::<(ChangeKind, Seq<char>)>::empty() =~= changes(out@));
    } else {
        let l = pad_right(label, 16);
        push_change(out, ChangeKind::Changed, cat5(l.as_str(), " ", a, " → ", b));
    }
}

/// The change of a dependency, given what each version requires of it.
pub open spec fn dep_change(dep: Seq<char>, a: Option<Seq<char>>, b: Option<Seq<char>>) -> Seq<(ChangeKind, Seq<char>)> {
    let label = "dep "@ + padded_right(dep, 16) + " "@;
    match (a, b) {
        (Some(v), Some(w)) => if v == w {
            Seq::empty()
        } else {
            seq![(ChangeKind::Changed, label + v + " → "@ + w)]
        },
        (None, Some(w)) => seq![(ChangeKind::Added, label + w + " (new dependency)"@)],
        (Some(v), None) => seq![(ChangeKind::Removed, label + v + " (removed dependency)"@)],
        (None, None) => Seq::empty(),
    }
}

/// The changes of dependencies.
pub open spec fn dep_changes(
    deps: Seq<Seq<char>>,
    a: Seq<(Seq<char>, Seq<char>)>,
    b: Seq<(Seq<char>, Seq<char>)>,
) -> Seq<(ChangeKind, Seq<char>)>
    decreases deps.len(),
{
    if deps.len() == 0 {
        Seq::empty()
    } else {
        dep_changes(deps.drop_last(), a, b) + dep_change(
            deps.last(),
            pair_value(a, deps.last()),
            pair_value(b, deps.last()),
        )
    }
}

/// The keys of pairs.
pub open spec fn keys_of(s: Seq<(Seq<char>, Seq<char>)>) -> Seq<Seq<char>> {
    s.map_values(|p: (Seq<char>, Seq<char>)| p.0)
}

fn map_keys(m: &IndexMap<String, String>) -> (r: Vec<String>)
    ensures
        strs(r@) == keys_of(map_pairs(*m)),
{
    let mut out: Vec<String> = Vec::new();
    let n = map_len(m);
    let mut i: usize = 0;
    let ghost all = keys_of(map_pairs(*m));
    assert(strs(out@) =~= all.take(0));
    while i < n
        invariant
            i <= n,
            n == map_pairs(*m).len(),
            all == keys_of(map_pairs(*m)),
            strs(out@) == all.take(i as int),
        decreases n - i,
    {
        let (k, _) = map_entry(m, i);
        assert(all.take(i + 1) =~= all.take(i as int) + seq![k@]);
        push_text(&mut out, k.clone());
        i = i + 1;
    }
    assert(all.take(all.len() as int) =~= all);
    out
}

fn diff_dep(out: &mut Vec<Change>, dep: &str, a: Option<&String>, b: Option<&String>)
    ensures
        changes(final(out)@) == changes(old(out)@) + dep_change(
            dep@,
            match a {
                Some(v) => Some(v@),
                None => None,
            },
            match b {
                Some(w) => Some(w@),
                None => None,
            },
        ),
{
    let name = pad_right(dep, 16);
    let label = cat3("dep ", name.as_str(), " ");
    assert(changes(out@) + Seq::<(ChangeKind, Seq<char>)>::empty() =~= changes(out@));
    match a {
        Some(v) => match b {
            Some(w) => {
                if !same(v.as_str(), w.as_str()) {
                    let mut s = cat3(label.as_str(), v.as_str(), " → ");
                    s.append(w.as_str());
                    push_change(out, ChangeKind::Changed, s);
                }
            },
            None => {
                push_change(
                    out,
                    ChangeKind::Removed,
                    cat3(label.as_str(), v.as_str(), " (removed dependency)"),
                );
            },
        },
        None => match b {
            Some(w) => {
                push_change(
                    out,
                    ChangeKind::Added,
                    cat3(label.as_str(), w.as_str(), " (new dependency)"),
                );
            },
            None => {},
        },
    }
}

fn diff_deps(out: &mut Vec<Change>, a: &IndexMap<String, String>, b: &IndexMap<String, String>)
    ensures
        changes(final(out)@) == changes(old(out)@) + dep_changes(
            merged(keys_of(map_pairs(*a)), keys_of(map_pairs(*b))),
            map_pairs(*a),
            map_pairs(*b),
        ),
{
    let old_keys = map_keys(a);
    let new_keys = map_keys(b);
    let deps = merge_strings(&old_keys, &new_keys);
    let ghost first = changes(out@);
    let ghost all = strs(deps@);
    let mut i: usize = 0;
    assert(all.take(0) =~= Seq::<Seq<char>>::empty());
    assert(first + Seq::<(ChangeKind, Seq<char>)>::empty() =~= first);
    while i < deps.len()
        invariant
            i <= deps@.len(),
            all == strs(deps@),
            changes(out@) == first + dep_changes(all.take(i as int), map_pairs(*a), map_pairs(*b)),
        decreases deps@.len() - i,
    {
        let dep = deps[i].as_str();
        proof {
            let longer = all.take(i + 1);
            assert(longer.drop_last() =~= all.take(i as int));
            assert(longer.last() == dep@);
        }
        diff_dep(out, dep, map_get(a, dep), map_get(b, dep));
        assert(changes(out@) =~= first + dep_changes(all.take(i + 1), map_pairs(*a), map_pairs(*b)));
        i = i + 1;
    }
    assert(all.take(all.len() as int) =~= all);
}

/// Changes of one kind, one for each name.
pub open spec fn name_changes(
    names: Seq<Seq<char>>,
    kind: ChangeKind,
    before: Seq<char>,
    width: int,
    behind: Seq<char>,
) -> Seq<(ChangeKind, Seq<char>)> {
    names.map_values(|n: Seq<char>| (kind, before + padded_right(n, width) + behind))
}

fn push_names(out: &mut Vec<Change>, names: &Vec<String>, kind: ChangeKind, before: &str, width: usize, behind: &str)
    ensures
        changes(final(out)@) == changes(old(out)@) + name_changes(
            strs(names@),
            kind,
            before@,
            width as int,
            behind@,
        ),
{
    let ghost first = changes(out@);
    let ghost all = name_changes(strs(names@), kind, before@, width as int, behind@);
    let mut i: usize = 0;
    assert(first + all.take(0) =~= first);
    while i < names.len()
        invariant
            i <= names@.len(),
            all == name_changes(strs(names@), kind, before@, width as int, behind@),
            changes(out@) == first + all.take(i as int),
        decreases names@.len() - i,
    {
        let n = pad_right(names[i].as_str(), width);
        let text = cat3(before, n.as_str(), behind);
        assert(all[i as int] == (kind, text@));
        push_change(out, kind, text);
        assert(all.take(i + 1) =~= all.take(i as int) + seq![all[i as int]]);
        assert(changes(out@) =~= first + all.take(i + 1));
        i = i + 1;
    }
    assert(all.take(all.len() as int) =~= all);
}

/// Texts, each once.
pub open spec fn distinct(s: Seq<Seq<char>>) -> Seq<Seq<char>> {
    merged(Seq::empty(), s)
}

fn distinct_missing(v: &Vec<String>, have: &Vec<String>) -> (r: Vec<String>)
    ensures
        strs(r@) == missing_from(distinct(strs(v@)), strs(have@)),
{
    let none: Vec<String> = Vec::new();
    assert(strs(none@) =~= Seq::<Seq<char>>::empty());
    let once = merge_strings(&none, v);
    strings_missing_from(&once, have)
}

/// A flag as text.
pub open spec fn flag_text(b: bool) -> Seq<char> {
    if b {
        "true"@
    } else {
        "false"@
    }
}

/// A flag as text.
pub fn flag_word(b: bool) -> (r: &'static str)
    ensures
        r@ == flag_text(b),
{
    if b {
        "true"
    } else {
        "false"
    }
}

/// The change of a flag.
pub open spec fn flag_change(label: Seq<char>, a: bool, b: bool) -> Seq<(ChangeKind, Seq<char>)> {
    if a == b {
        Seq::empty()
    } else {
        seq![(ChangeKind::Changed, label + " "@ + flag_text(a) + " → "@ + flag_text(b))]
    }
}

fn diff_flag(out: &mut Vec<Change>, label: &str, a: bool, b: bool)
    ensures
        changes(final(out)@) == changes(old(out)@) + flag_change(label@, a, b),
{
    if a == b {
        assert(changes(out@) + Seq::<(ChangeKind, Seq<char>)>::empty() =~= changes(out@));
    } else {
        push_change(out, ChangeKind::Changed, cat5(label, " ", flag_word(a), " → ", flag_word(b)));
    }
}

/// How two manifests differ. Dependencies come in the order of the older one,
/// then of the newer one.
pub open spec fn manifest_changes(a: Manifest, b: Manifest) -> Seq<(ChangeKind, Seq<char>)> {
    let x = map_pairs(a.deps);
    let y = map_pairs(b.deps);
    let bins = strs(a.bins@);
    let new_bins = strs(b.bins@);
    let tags = strs(a.tags@);
    let new_tags = strs(b.tags@);
    field_change("version:"@, a.version@, b.version@) + field_change(
        "authors:"@,
        a.authors@,
        b.authors@,
    ) + field_change("license:"@, a.license@, b.license@) + field_change(
        "summary:"@,
        a.summary@,
        b.summary@,
    ) + dep_changes(merged(keys_of(x), keys_of(y)), x, y) + name_changes(
        missing_from(distinct(new_bins), bins),
        ChangeKind::Added,
        "bin "@,
        16,
        " (new binary)"@,
    ) + name_changes(
        missing_from(distinct(bins), new_bins),
        ChangeKind::Removed,
        "bin "@,
        16,
        " (removed binary)"@,
    ) + name_changes(
        missing_from(distinct(new_tags), tags),
        ChangeKind::Added,
        "tag @"@,
        0,
        ""@,
    ) + name_changes(
        missing_from(distinct(tags), new_tags),
        ChangeKind::Removed,
        "tag @"@,
        0,
        ""@,
    ) + flag_change("sandbox.network"@, a.sandbox.network, b.sandbox.network) + flag_change(
        "sandbox.gui"@,
        a.sandbox.gui,
        b.sandbox.gui,
    )
}

/// How two manifests differ.
pub fn diff_manifests(older: &Manifest, newer: &Manifest) -> (r: Vec<Change>)
    ensures
        changes(r@) == manifest_changes(*older, *newer),
{
    let mut out: Vec<Change> = Vec::new();
    assert(changes(out@) =~= Seq::<(ChangeKind, Seq<char>)>::empty());
    diff_field(&mut out, "version:", older.version.as_str(), newer.version.as_str());
    assert(changes(out@) =~= field_change("version:"@, older.version@, newer.version@));
    diff_field(&mut out, "authors:", older.authors.as_str(), newer.authors.as_str());
    diff_field(&mut out, "license:", older.license.as_str(), newer.license.as_str());
    diff_field(&mut out, "summary:", older.summary.as_str(), newer.summary.as_str());
    diff_deps(&mut out, &older.deps, &newer.deps);
    let new_bins = distinct_missing(&newer.bins, &older.bins);
    push_names(&mut out, &new_bins, ChangeKind::Added, "bin ", 16, " (new binary)");
    let old_bins = distinct_missing(&older.bins, &newer.bins);
    push_names(&mut out, &old_bins, ChangeKind::Removed, "bin ", 16, " (removed binary)");
    let new_tags = distinct_missing(&newer.tags, &older.tags);
    push_names(&mut out, &new_tags, ChangeKind::Added, "tag @", 0, "");
    let old_tags = distinct_missing(&older.tags, &newer.tags);
    push_names(&mut out, &old_tags, ChangeKind::Removed, "tag @", 0, "");
    diff_flag(&mut out, "sandbox.network", older.sandbox.network, newer.sandbox.network);
    diff_flag(&mut out, "sandbox.gui", older.sandbox.gui, newer.sandbox.gui);
    out
}

// ---------------------------------------------------------------------------
// Files
// ---------------------------------------------------------------------------

/// The mark by which the contents of a file are compared: the first digits of
/// its checksum.
pub open spec fn mark(data: Seq<u8>) -> Seq<char> {
    checksum(data).take(16)
}

/// The mark by which the contents of a file are compared.
pub fn file_mark(data: &Vec<u8>) -> (r: String)
    ensures
        r@ == mark(data@),
{
    let sum = compute_file_hash(data);
    let v = to_chars(sum.as_str());
    let r = substring(&v, 0, 16);
    assert(r@ =~= mark(data@));
    r
}

/// The marks of the files of a version, by their paths, without its manifest.
pub open spec fn marks(files: Seq<(String, Vec<u8>)>) -> Map<Seq<char>, Seq<char>>
    decreases files.len(),
{
    if files.len() == 0 {
        Map::empty()
    } else {
        let rest = marks(files.drop_last());
        if files.last().0@ == "info.hk"@ {
            rest
        } else {
            rest.insert(files.last().0@, mark(files.last().1@))
        }
    }
}

/// The marks of the files of a version, by their paths, without its manifest.
pub fn collect_files_rel(files: &Vec<(String, Vec<u8>)>) -> (r: NameMap)
    ensures
        r.wf(),
        r@ == marks(files@),
{
    let mut out = NameMap::new();
    let mut i: usize = 0;
    assert(files@.take(0) =~= Seq::<(String, Vec<u8>)>::empty());
    while i < files.len()
        invariant
            i <= files@.len(),
            out.wf(),
            out@ == marks(files@.take(i as int)),
        decreases files@.len() - i,
    {
        proof {
            let longer = files@.take(i + 1);
            assert(longer.drop_last() =~= files@.take(i as int));
            assert(longer.last() == files@[i as int]);
        }
        if !same(files[i].0.as_str(), "info.hk") {
            let m = file_mark(&files[i].1);
            out.insert(files[i].0.as_str(), m.as_str());
        }
        i = i + 1;
    }
    assert(files@.take(files@.len() as int) =~= files@);
    out
}

/// The paths of files that are only in the one version.
pub open spec fn only_in(a: Seq<(Seq<char>, Seq<char>)>, b: Map<Seq<char>, Seq<char>>) -> Seq<Seq<char>>
    decreases a.len(),
{
    if a.len() == 0 {
        Seq::empty()
    } else {
        let rest = only_in(a.drop_last(), b);
        if b.dom().contains(a.last().0) {
            rest
        } else {
            rest + seq![a.last().0]
        }
    }
}

/// The paths of files that are in both versions with different contents.
pub open spec fn differing(a: Seq<(Seq<char>, Seq<char>)>, b: Map<Seq<char>, Seq<char>>) -> Seq<Seq<char>>
    decreases a.len(),
{
    if a.len() == 0 {
        Seq::empty()
    } else {
        let rest = differing(a.drop_last(), b);
        if b.dom().contains(a.last().0) && b[a.last().0] != a.last().1 {
            rest + seq![a.last().0]
        } else {
            rest
        }
    }
}

/// How the files of two versions differ.
#[derive(Debug)]
pub struct FileChanges {
    pub added: Vec<String>,
    pub removed: Vec<String>,
    pub changed: Vec<String>,
}

fn paths_only_in(a: &NameMap, b: &NameMap) -> (r: Vec<String>)
    requires
        b.wf(),
    ensures
        strs(r@) == only_in(a.pairs(), b@),
{
    let mut out: Vec<String> = Vec::new();
    let ghost all = a.pairs();
    let mut i: usize = 0;
    assert(all.take(0) =~= Seq::<(Seq<char>, Seq<char>)>::empty());
    assert(strs(out@) =~= Seq::<Seq<char>>::empty());
    while i < a.len()
        invariant
            i <= all.len(),
            all == a.pairs(),
            b.wf(),
            strs(out@) == only_in(all.take(i as int), b@),
        decreases all.len() - i,
    {
        proof {
            let longer = all.take(i + 1);
            assert(longer.drop_last() =~= all.take(i as int));
        }
        let k = a.key_at(i);
        if b.get(k.as_str()).is_none() {
            push_text(&mut out, k.clone());
        }
        i = i + 1;
    }
    assert(all.take(all.len() as int) =~= all);
    out
}

fn paths_differing(a: &NameMap, b: &NameMap) -> (r: Vec<String>)
    requires
        b.wf(),
    ensures
        strs(r@) == differing(a.pairs(), b@),
{
    let mut out: Vec<String> = Vec::new();
    let ghost all = a.pairs();
    let mut i: usize = 0;
    assert(all.take(0) =~= Seq::<(Seq<char>, Seq<char>)>::empty());
    assert(strs(out@) =~= Seq::<Seq<char>>::empty());
    while i < a.len()
        invariant
            i <= all.len(),
            all == a.pairs(),
            b.wf(),
            strs(out@) == differing(all.take(i as int), b@),
        decreases all.len() - i,
    {
        proof {
            let longer = all.take(i + 1);
            assert(longer.drop_last() =~= all.take(i as int));
        }
        let k = a.key_at(i);
        match b.get(k.as_str()) {
            Some(w) => {
                if !same(w.as_str(), a.value_at(i).as_str()) {
                    push_text(&mut out, k.clone());
                }
            },
            None => {},
        }
        i = i + 1;
    }
    assert(all.take(all.len() as int) =~= all);
    out
}

/// How the files of two versions differ, given their marks.
pub fn diff_files(older: &NameMap, newer: &NameMap) -> (r: FileChanges)
    requires
        older.wf(),
        newer.wf(),
    ensures
        strs(r.added@) == only_in(newer.pairs(), older@),
        strs(r.removed@) == only_in(older.pairs(), newer@),
        strs(r.changed@) == differing(older.pairs(), newer@),
{
    FileChanges {
        added: paths_only_in(newer, older),
        removed: paths_only_in(older, newer),
        changed: paths_differing(older, newer),
    }
}

/// How many files differ, as text; `None` where none does.
pub fn file_summary(c: &FileChanges) -> (r: Option<String>)
    ensures
        match r {
            None => c.added@.len() == 0 && c.removed@.len() == 0 && c.changed@.len() == 0,
            Some(t) => c.added@.len() + c.removed@.len() + c.changed@.len() > 0 && t@ == decimal(
                c.added@.len(),
            ) + " added  "@ + decimal(c.removed@.len()) + " removed  "@ + decimal(c.changed@.len())
                + " modified"@,
        },
{
    if c.added.len() == 0 && c.removed.len() == 0 && c.changed.len() == 0 {
        return None;
    }
    let a = to_decimal(c.added.len() as u64);
    let b = to_decimal(c.removed.len() as u64);
    let d = to_decimal(c.changed.len() as u64);
    let mut s = cat5(a.as_str(), " added  ", b.as_str(), " removed  ", d.as_str());
    s.append(" modified");
    Some(s)
}

// ---------------------------------------------------------------------------
// Checksums
// ---------------------------------------------------------------------------

/// Whether the first sixteen bytes of a checksum are there and end with a
/// character.
pub open spec fn has_short_form(sum: Option<String>) -> bool {
    sum matches Some(s) ==> chars_in_bytes(s@, 16) is Some
}

/// The first sixteen bytes of a checksum.
pub open spec fn short_form(sum: Seq<char>) -> Seq<char> {
    sum.take(chars_in_bytes(sum, 16)->0)
}

/// How the recorded checksums of two versions compare: what is shown of each,
/// and whether that is the same. `None` where one is not recorded.
pub fn diff_checksums(first: &Option<String>, second: &Option<String>) -> (r: Option<(String, String, bool)>)
    requires
        has_short_form(*first),
        has_short_form(*second),
    ensures
        match (first, second) {
            (Some(a), Some(b)) => r matches Some((x, y, alike)) && x@ == short_form(a@) && y@
                == short_form(b@) && alike == (short_form(a@) == short_form(b@)),
            _ => r is None,
        },
{
    match first {
        Some(a) => match second {
            Some(b) => {
                let x = first_bytes(a.as_str(), 16);
                let y = first_bytes(b.as_str(), 16);
                match x {
                    Some(x) => match y {
                        Some(y) => {
                            let alike = same(x.as_str(), y.as_str());
                            Some((x, y, alike))
                        },
                        None => None,
                    },
                    None => None,
                }
            },
            None => None,
        },
        None => None,
    }
}

// ---------------------------------------------------------------------------
// Laws
// ---------------------------------------------------------------------------

proof fn missing_from_itself(s: Seq<Seq<char>>, have: Seq<Seq<char>>)
    requires
        forall|x: Seq<char>| #[trigger] s.contains(x) ==> have.contains(x),
    ensures
        missing_from(s, have) == Seq::<Seq<char>>::empty(),
    decreases s.len(),
{
    if s.len() > 0 {
        assert(s.contains(s[s.len() - 1]));
        let t = s.drop_last();
        assert forall|x: Seq<char>| #[trigger] t.contains(x) implies have.contains(x) by {
            let i = choose|i: int| 0 <= i < t.len() && t[i] == x;
            assert(s[i] == x);
            assert(s.contains(x));
        }
        missing_from_itself(t, have);
    }
}

proof fn same_deps(deps: Seq<Seq<char>>, a: Seq<(Seq<char>, Seq<char>)>)
    ensures
        dep_changes(deps, a, a) == Seq::<(ChangeKind, Seq<char>)>::empty(),
    decreases deps.len(),
{
    if deps.len() > 0 {
        same_deps(deps.drop_last(), a);
    }
}

proof fn distinct_missing_nothing(s: Seq<Seq<char>>)
    ensures
        missing_from(distinct(s), s) == Seq::<Seq<char>>::empty(),
{
    assert forall|x: Seq<char>| #[trigger] distinct(s).contains(x) implies s.contains(x) by {
        merged_holds_both(Seq::empty(), s, x);
    }
    missing_from_itself(distinct(s), s);
}

/// A manifest does not differ from itself.
pub proof fn manifest_is_like_itself(m: Manifest)
    ensures
        manifest_changes(m, m) == Seq::<(ChangeKind, Seq<char>)>::empty(),
{
    let x = map_pairs(m.deps);
    same_deps(merged(keys_of(x), keys_of(x)), x);
    distinct_missing_nothing(strs(m.bins@));
    distinct_missing_nothing(strs(m.tags@));
    assert(manifest_changes(m, m) =~= Seq::<(ChangeKind, Seq<char>)>::empty());
}

proof fn no_dep_changes(deps: Seq<Seq<char>>, a: Seq<(Seq<char>, Seq<char>)>, b: Seq<(Seq<char>, Seq<char>)>)
    ensures
        dep_changes(deps, a, b).len() == 0 <==> forall|i: int|
            0 <= i < deps.len() ==> pair_value(a, #[trigger] deps[i]) == pair_value(b, deps[i]),
    decreases deps.len(),
{
    if deps.len() > 0 {
        let t = deps.drop_last();
        no_dep_changes(t, a, b);
        let last = deps[deps.len() - 1];
        if dep_changes(deps, a, b).len() == 0 {
            assert forall|i: int| 0 <= i < deps.len() implies pair_value(a, #[trigger] deps[i]) == pair_value(
                b,
                deps[i],
            ) by {
                if i < t.len() {
                    assert(t[i] == deps[i]);
                }
            }
        }
        if forall|i: int|
            0 <= i < deps.len() ==> pair_value(a, #[trigger] deps[i]) == pair_value(b, deps[i]) {
            assert(pair_value(a, last) == pair_value(b, last));
            assert forall|i: int| 0 <= i < t.len() implies pair_value(a, #[trigger] t[i]) == pair_value(
                b,
                t[i],
            ) by {
                assert(t[i] == deps[i]);
            }
        }
    }
}

proof fn no_names_missing(a: Seq<Seq<char>>, b: Seq<Seq<char>>)
    ensures
        missing_from(distinct(a), b).len() == 0 <==> forall|x: Seq<char>| a.contains(x) ==> #[trigger] b.contains(x),
{
    let m = missing_from(distinct(a), b);
    if m.len() == 0 {
        assert forall|x: Seq<char>| a.contains(x) implies #[trigger] b.contains(x) by {
            merged_holds_both(Seq::empty(), a, x);
            missing_is_what_is_not_there(distinct(a), Seq::empty(), b, x);
        }
    } else {
        let x = m[0];
        assert(m.contains(x));
        merged_holds_both(Seq::empty(), a, x);
        missing_is_what_is_not_there(distinct(a), Seq::empty(), b, x);
        assert(a.contains(x) && !b.contains(x));
    }
}

/// Two manifests differ in nothing that is shown exactly where they have the same
/// version, authors, license and summary, require the same of the same packages, bring
/// the same programs and tags, and have the same access to the network and the screen.
pub proof fn nothing_shown_means_alike(a: Manifest, b: Manifest)
    ensures
        manifest_changes(a, b).len() == 0 <==> {
            &&& a.version@ == b.version@ && a.authors@ == b.authors@
            &&& a.license@ == b.license@ && a.summary@ == b.summary@
            &&& forall|n: Seq<char>| #[trigger] pair_value(map_pairs(a.deps), n) == pair_value(map_pairs(b.deps), n)
            &&& forall|n: Seq<char>| #[trigger] strs(a.bins@).contains(n) == strs(b.bins@).contains(n)
            &&& forall|n: Seq<char>| #[trigger] strs(a.tags@).contains(n) == strs(b.tags@).contains(n)
            &&& a.sandbox.network == b.sandbox.network && a.sandbox.gui == b.sandbox.gui
        },
{
    let x = map_pairs(a.deps);
    let y = map_pairs(b.deps);
    let deps = merged(keys_of(x), keys_of(y));
    no_dep_changes(deps, x, y);
    no_names_missing(strs(a.bins@), strs(b.bins@));
    no_names_missing(strs(b.bins@), strs(a.bins@));
    no_names_missing(strs(a.tags@), strs(b.tags@));
    no_names_missing(strs(b.tags@), strs(a.tags@));
    if dep_changes(deps, x, y).len() == 0 {
        assert forall|n: Seq<char>| #[trigger] pair_value(x, n) == pair_value(y, n) by {
            key_is_among(x, n);
            key_is_among(y, n);
            merged_holds_both(keys_of(x), keys_of(y), n);
            if deps.contains(n) {
                let i = choose|i: int| 0 <= i < deps.len() && deps[i] == n;
                assert(pair_value(x, deps[i]) == pair_value(y, deps[i]));
            }
        }
    }
    let all = manifest_changes(a, b);
    assert(all.len() == field_change("version:"@, a.version@, b.version@).len() + field_change(
        "authors:"@,
        a.authors@,
        b.authors@,
    ).len() + field_change("license:"@, a.license@, b.license@).len() + field_change(
        "summary:"@,
        a.summary@,
        b.summary@,
    ).len() + dep_changes(deps, x, y).len() + missing_from(distinct(strs(b.bins@)), strs(a.bins@)).len()
        + missing_from(distinct(strs(a.bins@)), strs(b.bins@)).len() + missing_from(
        distinct(strs(b.tags@)),
        strs(a.tags@),
    ).len() + missing_from(distinct(strs(a.tags@)), strs(b.tags@)).len() + flag_change(
        "sandbox.network"@,
        a.sandbox.network,
        b.sandbox.network,
    ).len() + flag_change("sandbox.gui"@, a.sandbox.gui, b.sandbox.gui).len());
}

proof fn key_is_among(s: Seq<(Seq<char>, Seq<char>)>, n: Seq<char>)
    ensures
        pair_value(s, n) is Some ==> keys_of(s).contains(n),
{
    value_is_that_of_the_first(s, n);
    if let Some(v) = pair_value(s, n) {
        let i = choose|i: int|
            0 <= i < s.len() && #[trigger] s[i] == (n, v) && forall|j: int| 0 <= j < i ==> (#[trigger] s[j]).0 != n;
        assert(keys_of(s)[i] == n);
    }
}

proof fn only_in_holds(a: Seq<(Seq<char>, Seq<char>)>, b: Map<Seq<char>, Seq<char>>, p: Seq<char>)
    ensures
        only_in(a, b).contains(p) <==> !b.dom().contains(p) && exists|i: int|
            0 <= i < a.len() && (#[trigger] a[i]).0 == p,
        differing(a, b).contains(p) <==> b.dom().contains(p) && exists|i: int|
            0 <= i < a.len() && (#[trigger] a[i]).0 == p && a[i].1 != b[p],
    decreases a.len(),
{
    if a.len() > 0 {
        let t = a.drop_last();
        only_in_holds(t, b, p);
        let last = a[a.len() - 1];
        lemma_seq_concat_contains_all_elements(only_in(t, b), seq![last.0], p);
        lemma_seq_concat_contains_all_elements(differing(t, b), seq![last.0], p);
        assert(seq![last.0][0] == last.0);
        assert(forall|i: int| 0 <= i < t.len() ==> t[i] == #[trigger] a[i]);
        if exists|i: int| 0 <= i < t.len() && (#[trigger] t[i]).0 == p {
            let i = choose|i: int| 0 <= i < t.len() && (#[trigger] t[i]).0 == p;
            assert(a[i].0 == p);
        }
        if exists|i: int| 0 <= i < t.len() && (#[trigger] t[i]).0 == p && t[i].1 != b[p] {
            let i = choose|i: int| 0 <= i < t.len() && (#[trigger] t[i]).0 == p && t[i].1 != b[p];
            assert(a[i].0 == p && a[i].1 != b[p]);
        }
        if exists|i: int| 0 <= i < a.len() && (#[trigger] a[i]).0 == p {
            let i = choose|i: int| 0 <= i < a.len() && (#[trigger] a[i]).0 == p;
            if i < t.len() {
                assert(t[i].0 == p);
            }
        }
        if exists|i: int| 0 <= i < a.len() && (#[trigger] a[i]).0 == p && a[i].1 != b[p] {
            let i = choose|i: int| 0 <= i < a.len() && (#[trigger] a[i]).0 == p && a[i].1 != b[p];
            if i < t.len() {
                assert(t[i].0 == p && t[i].1 != b[p]);
            }
        }
    }
}

/// The files only in one version are those whose paths the other has not; the changed
/// ones are those that both have with different marks.
pub proof fn file_changes_are_the_differences(a: NameMap, b: NameMap, p: Seq<char>)
    requires
        a.wf(),
    ensures
        only_in(a.pairs(), b@).contains(p) <==> a@.dom().contains(p) && !b@.dom().contains(p),
        differing(a.pairs(), b@).contains(p) <==> a@.dom().contains(p) && b@.dom().contains(p) && a@[p] != b@[p],
{
    let s = a.pairs();
    only_in_holds(s, b@, p);
    if a@.dom().contains(p) {
        assert(has_key(s, p));
        let i = key_index(s, p);
        pairs_map_at(s, i);
        assert(s[i].0 == p);
    }
    if exists|i: int| 0 <= i < s.len() && (#[trigger] s[i]).0 == p {
        assert(has_key(s, p));
        let i = choose|i: int| 0 <= i < s.len() && (#[trigger] s[i]).0 == p;
        pairs_map_at(s, i);
    }
    if exists|i: int| 0 <= i < s.len() && (#[trigger] s[i]).0 == p && s[i].1 != b@[p] {
        let i = choose|i: int| 0 <= i < s.len() && (#[trigger] s[i]).0 == p && s[i].1 != b@[p];
        pairs_map_at(s, i);
    }
}

/// Every file is marked by the first digits of its checksum, except the manifest, which
/// is not marked at all.
pub proof fn every_file_is_marked(files: Seq<(String, Vec<u8>)>, i: int)
    requires
        0 <= i < files.len(),
        forall|j: int| i < j < files.len() ==> (#[trigger] files[j]).0@ != files[i].0@,
    ensures
        files[i].0@ != "info.hk"@ ==> marks(files).dom().contains(files[i].0@) && marks(files)[files[i].0@]
            == checksum(files[i].1@).take(16),
        !marks(files).dom().contains("info.hk"@),
    decreases files.len(),
{
    let t = files.drop_last();
    if i < t.len() {
        assert(t[i] == files[i]);
        assert forall|j: int| i < j < t.len() implies (#[trigger] t[j]).0@ != t[i].0@ by {
            assert(t[j] == files[j]);
        }
        every_file_is_marked(t, i);
        assert(files[files.len() - 1].0@ != files[i].0@);
    } else {
        manifest_is_not_marked(t);
    }
}

proof fn manifest_is_not_marked(files: Seq<(String, Vec<u8>)>)
    ensures
        !marks(files).dom().contains("info.hk"@),
    decreases files.len(),
{
    if files.len() > 0 {
        manifest_is_not_marked(files.drop_last());
    }
}

/// What differs between two manifests is told: a changed field with both values, a
/// requirement that changed, came or went, and a program or a tag that came or went.
pub proof fn changes_are_told(a: Manifest, b: Manifest, n: Seq<char>)
    ensures
        ({
            let all = manifest_changes(a, b);
            let x = pair_value(map_pairs(a.deps), n);
            let y = pair_value(map_pairs(b.deps), n);
            let dep = "dep "@ + padded_right(n, 16) + " "@;
            &&& a.version@ != b.version@ ==> all.contains(
                (ChangeKind::Changed, padded_right("version:"@, 16) + " "@ + a.version@ + " → "@ + b.version@),
            )
            &&& a.summary@ != b.summary@ ==> all.contains(
                (ChangeKind::Changed, padded_right("summary:"@, 16) + " "@ + a.summary@ + " → "@ + b.summary@),
            )
            &&& x is Some && y is Some && x != y ==> all.contains((ChangeKind::Changed, dep + x->0 + " → "@ + y->0))
            &&& x is None && y is Some ==> all.contains((ChangeKind::Added, dep + y->0 + " (new dependency)"@))
            &&& x is Some && y is None ==> all.contains((ChangeKind::Removed, dep + x->0 + " (removed dependency)"@))
            &&& strs(b.bins@).contains(n) && !strs(a.bins@).contains(n) ==> all.contains(
                (ChangeKind::Added, "bin "@ + padded_right(n, 16) + " (new binary)"@),
            )
            &&& strs(a.bins@).contains(n) && !strs(b.bins@).contains(n) ==> all.contains(
                (ChangeKind::Removed, "bin "@ + padded_right(n, 16) + " (removed binary)"@),
            )
            &&& strs(b.tags@).contains(n) && !strs(a.tags@).contains(n) ==> all.contains(
                (ChangeKind::Added, "tag @"@ + padded_right(n, 0) + ""@),
            )
            &&& strs(a.tags@).contains(n) && !strs(b.tags@).contains(n) ==> all.contains(
                (ChangeKind::Removed, "tag @"@ + padded_right(n, 0) + ""@),
            )
        }),
{
    let all = manifest_changes(a, b);
    let x = map_pairs(a.deps);
    let y = map_pairs(b.deps);
    let deps = merged(keys_of(x), keys_of(y));
    let s1 = field_change("version:"@, a.version@, b.version@);
    let s2 = field_change("authors:"@, a.authors@, b.authors@);
    let s3 = field_change("license:"@, a.license@, b.license@);
    let s4 = field_change("summary:"@, a.summary@, b.summary@);
    let s5 = dep_changes(deps, x, y);
    let m6 = missing_from(distinct(strs(b.bins@)), strs(a.bins@));
    let m7 = missing_from(distinct(strs(a.bins@)), strs(b.bins@));
    let m8 = missing_from(distinct(strs(b.tags@)), strs(a.tags@));
    let m9 = missing_from(distinct(strs(a.tags@)), strs(b.tags@));
    let s6 = name_changes(m6, ChangeKind::Added, "bin "@, 16, " (new binary)"@);
    let s7 = name_changes(m7, ChangeKind::Removed, "bin "@, 16, " (removed binary)"@);
    let s8 = name_changes(m8, ChangeKind::Added, "tag @"@, 0, ""@);
    let s9 = name_changes(m9, ChangeKind::Removed, "tag @"@, 0, ""@);
    let s10 = flag_change("sandbox.network"@, a.sandbox.network, b.sandbox.network);
    let s11 = flag_change("sandbox.gui"@, a.sandbox.gui, b.sandbox.gui);
    assert(all == s1 + s2 + s3 + s4 + s5 + s6 + s7 + s8 + s9 + s10 + s11);
    assert forall|c: (ChangeKind, Seq<char>)|
        s1.contains(c) || s4.contains(c) || s5.contains(c) || s6.contains(c) || s7.contains(c) || s8.contains(c)
            || s9.contains(c) implies #[trigger] all.contains(c) by {
        lemma_seq_concat_contains_all_elements(s1 + s2 + s3 + s4 + s5 + s6 + s7 + s8 + s9 + s10, s11, c);
        lemma_seq_concat_contains_all_elements(s1 + s2 + s3 + s4 + s5 + s6 + s7 + s8 + s9, s10, c);
        lemma_seq_concat_contains_all_elements(s1 + s2 + s3 + s4 + s5 + s6 + s7 + s8, s9, c);
        lemma_seq_concat_contains_all_elements(s1 + s2 + s3 + s4 + s5 + s6 + s7, s8, c);
        lemma_seq_concat_contains_all_elements(s1 + s2 + s3 + s4 + s5 + s6, s7, c);
        lemma_seq_concat_contains_all_elements(s1 + s2 + s3 + s4 + s5, s6, c);
        lemma_seq_concat_contains_all_elements(s1 + s2 + s3 + s4, s5, c);
        lemma_seq_concat_contains_all_elements(s1 + s2 + s3, s4, c);
        lemma_seq_concat_contains_all_elements(s1 + s2, s3, c);
        lemma_seq_concat_contains_all_elements(s1, s2, c);
    }
    if a.version@ != b.version@ {
        assert(s1.contains(s1[0]));
    }
    if a.summary@ != b.summary@ {
        assert(s4.contains(s4[0]));
    }
    name_is_told(strs(b.bins@), strs(a.bins@), ChangeKind::Added, "bin "@, 16, " (new binary)"@, n);
    name_is_told(strs(a.bins@), strs(b.bins@), ChangeKind::Removed, "bin "@, 16, " (removed binary)"@, n);
    name_is_told(strs(b.tags@), strs(a.tags@), ChangeKind::Added, "tag @"@, 0, ""@, n);
    name_is_told(strs(a.tags@), strs(b.tags@), ChangeKind::Removed, "tag @"@, 0, ""@, n);
    key_is_among(x, n);
    key_is_among(y, n);
    merged_holds_both(keys_of(x), keys_of(y), n);
    if deps.contains(n) {
        let i = choose|i: int| 0 <= i < deps.len() && deps[i] == n;
        dep_is_told(deps, x, y, i);
        let d = dep_change(n, pair_value(x, n), pair_value(y, n));
        if d.len() > 0 {
            assert(d.contains(d[0]));
        }
    }
}

proof fn name_is_told(
    have: Seq<Seq<char>>,
    other: Seq<Seq<char>>,
    kind: ChangeKind,
    before: Seq<char>,
    width: int,
    behind: Seq<char>,
    n: Seq<char>,
)
    ensures
        have.contains(n) && !other.contains(n) ==> name_changes(
            missing_from(distinct(have), other),
            kind,
            before,
            width,
            behind,
        ).contains((kind, before + padded_right(n, width) + behind)),
{
    let m = missing_from(distinct(have), other);
    merged_holds_both(Seq::empty(), have, n);
    missing_is_what_is_not_there(distinct(have), Seq::empty(), other, n);
    if have.contains(n) && !other.contains(n) {
        let i = choose|i: int| 0 <= i < m.len() && m[i] == n;
        assert(name_changes(m, kind, before, width, behind)[i] == (kind, before + padded_right(n, width) + behind));
    }
}

proof fn dep_is_told(deps: Seq<Seq<char>>, a: Seq<(Seq<char>, Seq<char>)>, b: Seq<(Seq<char>, Seq<char>)>, i: int)
    requires
        0 <= i < deps.len(),
    ensures
        forall|c: (ChangeKind, Seq<char>)|
            dep_change(deps[i], pair_value(a, deps[i]), pair_value(b, deps[i])).contains(c) ==> #[trigger] dep_changes(
                deps,
                a,
                b,
            ).contains(c),
    decreases deps.len(),
{
    let t = deps.drop_last();
    let last = deps.last();
    let d = dep_change(last, pair_value(a, last), pair_value(b, last));
    if i < t.len() {
        assert(t[i] == deps[i]);
        dep_is_told(t, a, b, i);
    }
    assert forall|c: (ChangeKind, Seq<char>)|
        dep_change(deps[i], pair_value(a, deps[i]), pair_value(b, deps[i])).contains(c) implies #[trigger] dep_changes(
        deps,
        a,
        b,
    ).contains(c) by {
        lemma_seq_concat_contains_all_elements(dep_changes(t, a, b), d, c);
    }
}

} // verus!
