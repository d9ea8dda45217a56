//! The versions of a package that can be installed: the tags of its repository.
use vstd::prelude::*;
use vstd::seq_lib::{lemma_seq_concat_contains_all_elements, lemma_seq_contains_after_push};

use crate::commands::install::{spec_parts, split_spec};
use crate::commands::solver::{positions, BatchPackage, Candidate, MAX_CANDIDATES_PER_PKG};
use crate::manifest::Manifest;
use crate::number::{decimal, to_decimal};
use crate::repo::{tag_version, tag_versions, version_of_tag};
use crate::state::{join_pkg_ver, pkg_key};
use crate::text::{cat, cat5, join_strings, join_with, push_text, same, strs};
use crate::utils::{numeric, rank_versions, version_rank, version_rank_flips, version_rank_reflexive, version_rank_transitive, Rank};

verus! {

// ---------------------------------------------------------------------------
// Order
// ---------------------------------------------------------------------------

/// Whether a version that is put in stays behind one that is there: it is not
/// newer than that, or, with the oldest first, not older.
pub open spec fn stays_behind(there: Seq<char>, v: Seq<char>, newest_first: bool) -> bool {
    if newest_first {
        version_rank(there, v) != Rank::Before
    } else {
        version_rank(there, v) != Rank::After
    }
}

/// Positions with the `k`-th put behind the last one that it stays behind.
pub open spec fn place_position(s: Seq<int>, versions: Seq<Seq<char>>, k: int, newest_first: bool) -> Seq<int>
    decreases s.len(),
{
    if s.len() == 0 || stays_behind(versions[s.last()], versions[k], newest_first) {
        s.push(k)
    } else {
        place_position(s.drop_last(), versions, k, newest_first).push(s.last())
    }
}

/// The positions of the first `n` versions in the order of their versions.
/// Versions that rank the same keep their places relative to each other.
pub open spec fn ordered_positions(versions: Seq<Seq<char>>, n: nat, newest_first: bool) -> Seq<int>
    decreases n,
{
    if n == 0 {
        Seq::empty()
    } else {
        place_position(
            ordered_positions(versions, (n - 1) as nat, newest_first),
            versions,
            n - 1,
            newest_first,
        )
    }
}

proof fn place_position_at(s: Seq<int>, versions: Seq<Seq<char>>, k: int, newest_first: bool, i: int)
    requires
        0 <= i <= s.len(),
        forall|j: int|
            i <= j < s.len() ==> !stays_behind(versions[#[trigger] s[j]], versions[k], newest_first),
        i > 0 ==> stays_behind(versions[s[i - 1]], versions[k], newest_first),
    ensures
        place_position(s, versions, k, newest_first) == s.insert(i, k),
    decreases s.len(),
{
    if i == s.len() {
        assert(s.insert(i, k) =~= s.push(k));
    } else {
        let t = s.drop_last();
        assert(!stays_behind(versions[s[s.len() - 1]], versions[k], newest_first));
        assert forall|j: int| i <= j < t.len() implies !stays_behind(
            versions[#[trigger] t[j]],
            versions[k],
            newest_first,
        ) by {
            assert(t[j] == s[j]);
        }
        place_position_at(t, versions, k, newest_first, i);
        assert(t.insert(i, k).push(s.last()) =~= s.insert(i, k));
    }
}

fn behind(there: &str, v: &str, newest_first: bool) -> (r: bool)
    ensures
        r == stays_behind(there@, v@, newest_first),
{
    let rank = rank_versions(there, v);
    if newest_first {
        rank != Rank::Before
    } else {
        rank != Rank::After
    }
}

/// The positions of versions in the order of the versions.
pub fn order_versions(versions: &Vec<String>, newest_first: bool) -> (r: Vec<usize>)
    ensures
        positions(r@) == ordered_positions(strs(versions@), versions@.len(), newest_first),
        r@.len() == versions@.len(),
        forall|i: int| 0 <= i < r@.len() ==> (#[trigger] r@[i]) < versions@.len(),
{
    let mut out: Vec<usize> = Vec::new();
    let mut k: usize = 0;
    let ghost all = strs(versions@);
    assert(positions(out@) =~= Seq::<int>::empty());
    while k < versions.len()
        invariant
            k <= versions@.len(),
            all == strs(versions@),
            out@.len() == k,
            positions(out@) == ordered_positions(all, k as nat, newest_first),
            forall|i: int| 0 <= i < out@.len() ==> (#[trigger] out@[i]) < k,
        decreases versions@.len() - k,
    {
        let v = versions[k].as_str();
        let mut i: usize = out.len();
        while i > 0 && !behind(versions[out[i - 1]].as_str(), v, newest_first)
            invariant
                i <= out@.len(),
                k < versions@.len(),
                all == strs(versions@),
                v@ == all[k as int],
                forall|j: int| 0 <= j < out@.len() ==> (#[trigger] out@[j]) < k,
                forall|j: int|
                    i <= j < out@.len() ==> !stays_behind(
                        all[#[trigger] positions(out@)[j]],
                        v@,
                        newest_first,
                    ),
            decreases i,
        {
            assert(positions(out@)[i - 1] == out@[i - 1]);
            assert(all[out@[i - 1] as int] == versions@[out@[i - 1] as int]@);
            i = i - 1;
        }
        proof {
            let p = positions(out@);
            if i > 0 {
                assert(p[i - 1] == out@[i - 1]);
                assert(all[out@[i - 1] as int] == versions@[out@[i - 1] as int]@);
            }
            place_position_at(p, all, k as int, newest_first, i as int);
            assert(positions(out@.insert(i as int, k)) =~= p.insert(i as int, k as int));
        }
        out.insert(i, k);
        k = k + 1;
    }
    out
}

// ---------------------------------------------------------------------------
// Tags
// ---------------------------------------------------------------------------

/// The position of the first tag that stands for a version.
pub open spec fn tag_position(tags: Seq<Seq<char>>, version: Seq<char>) -> Option<int>
    decreases tags.len(),
{
    if tags.len() == 0 {
        None
    } else if tag_version(tags[0]) == version {
        Some(0)
    } else {
        match tag_position(tags.drop_first(), version) {
            Some(i) => Some(i + 1),
            None => None,
        }
    }
}

/// The text for a version that no tag stands for.
pub open spec fn no_such_version(version: Seq<char>, pkg: Seq<char>) -> Seq<char> {
    "Version "@ + version + " not found in tags for '"@ + pkg + "'."@
}

/// The position of the first tag that stands for a version.
pub fn find_tag(tags: &Vec<String>, version: &str, pkg_name: &str) -> (r: Result<usize, String>)
    ensures
        match r {
            Ok(i) => i < tags@.len() && tag_position(strs(tags@), version@) == Some(i as int),
            Err(m) => tag_position(strs(tags@), version@) is None && m@ == no_such_version(
                version@,
                pkg_name@,
            ),
        },
        r matches Err(m) ==> m@ == "Version "@ + version@ + " not found in tags for '"@ + pkg_name@ + "'."@,
{
    let mut i: usize = 0;
    let ghost all = strs(tags@);
    assert(all.skip(0) =~= all);
    while i < tags.len()
        invariant
            i <= tags@.len(),
            all == strs(tags@),
            match tag_position(all.skip(i as int), version@) {
                Some(k) => tag_position(all, version@) == Some(k + i),
                None => tag_position(all, version@) is None,
            },
        decreases tags@.len() - i,
    {
        assert(all.skip(i as int)[0] == tags@[i as int]@);
        assert(all.skip(i as int).drop_first() =~= all.skip(i + 1));
        let v = version_of_tag(tags[i].as_str());
        if same(v.as_str(), version) {
            return Ok(i);
        }
        i = i + 1;
    }
    Err(cat5("Version ", version, " not found in tags for '", pkg_name, "'."))
}

/// The versions that tags stand for.
pub fn tag_version_list(tags: &Vec<String>) -> (r: Vec<String>)
    ensures
        strs(r@) == tag_versions(strs(tags@)),
        r@.len() == tags@.len(),
{
    let mut out: Vec<String> = Vec::new();
    let mut i: usize = 0;
    let ghost all = tag_versions(strs(tags@));
    assert(all.take(0) =~= strs(out@));
    while i < tags.len()
        invariant
            i <= tags@.len(),
            out@.len() == i,
            all == tag_versions(strs(tags@)),
            strs(out@) == all.take(i as int),
        decreases tags@.len() - i,
    {
        let v = version_of_tag(tags[i].as_str());
        assert(all.take(i + 1) =~= all.take(i as int) + seq![v@]);
        push_text(&mut out, v);
        i = i + 1;
    }
    assert(all.take(all.len() as int) =~= all);
    out
}

/// The position of the newest of the versions that tags stand for.
pub open spec fn newest_tag(tags: Seq<Seq<char>>) -> int {
    ordered_positions(tag_versions(tags), tags.len(), false).last()
}

/// Finds the version to install, and the tag that stands for it: the version
/// that is asked for; else the newest of the tags whose commits could be read;
/// else the head of the repository, which needs no tag.
pub fn resolve_version(tags: &Vec<String>, readable_tags: &Vec<String>, version: &Option<String>, pkg_name: &str) -> (r: Result<(String, Option<String>), String>)
    ensures
        match version {
            Some(v) => match tag_position(strs(tags@), v@) {
                Some(i) => r matches Ok((found, Some(tag))) && found@ == v@ && tag@ == strs(tags@)[i],
                None => r matches Err(m) && m@ == no_such_version(v@, pkg_name@),
            },
            None => if readable_tags@.len() == 0 {
                r matches Ok((found, None)) && found@ == "HEAD"@
            } else {
                let i = newest_tag(strs(readable_tags@));
                &&& 0 <= i < readable_tags@.len()
                &&& r matches Ok((found, Some(tag))) && tag@ == readable_tags@[i]@ && found@
                    == tag_version(tag@)
            },
        },
{
    match version {
        Some(v) => match find_tag(tags, v.as_str(), pkg_name) {
            Ok(i) => {
                assert(strs(tags@)[i as int] == tags@[i as int]@);
                Ok((v.clone(), Some(tags[i].clone())))
            },
            Err(m) => Err(m),
        },
        None => {
            if readable_tags.len() == 0 {
                return Ok(("HEAD".to_owned(), None));
            }
            let versions = tag_version_list(readable_tags);
            let order = order_versions(&versions, false);
            let last = order[order.len() - 1];
            assert(positions(order@).last() == last as int);
            assert(strs(versions@)[last as int] == tag_version(readable_tags@[last as int]@));
            Ok((versions[last].clone(), Some(readable_tags[last].clone())))
        },
    }
}

/// The tags to try where no version is asked for: the newest, newest first, by
/// their positions.
pub fn candidate_tags(versions: &Vec<String>) -> (r: Vec<usize>)
    ensures
        positions(r@) == (if versions@.len() <= MAX_CANDIDATES_PER_PKG {
            ordered_positions(strs(versions@), versions@.len(), true)
        } else {
            ordered_positions(strs(versions@), versions@.len(), true).take(
                MAX_CANDIDATES_PER_PKG as int,
            )
        }),
        forall|i: int| 0 <= i < r@.len() ==> (#[trigger] r@[i]) < versions@.len(),
        r@.len() == (if versions@.len() < 6 {
            versions@.len()
        } else {
            6
        }),
{
    let order = order_versions(versions, true);
    let mut out: Vec<usize> = Vec::new();
    let mut i: usize = 0;
    assert(out@ =~= order@.take(0));
    while i < order.len() && i < MAX_CANDIDATES_PER_PKG
        invariant
            i <= order@.len(),
            i <= MAX_CANDIDATES_PER_PKG,
            out@ == order@.take(i as int),
        decreases order@.len() - i,
    {
        assert(order@.take(i + 1) =~= order@.take(i as int).push(order@[i as int]));
        out.push(order[i]);
        i = i + 1;
    }
    assert(positions(order@.take(i as int)) =~= positions(order@).take(i as int));
    assert(positions(order@).take(order@.len() as int) =~= positions(order@));
    out
}

// ---------------------------------------------------------------------------
// Candidates
// ---------------------------------------------------------------------------

/// A version that was tried, with its manifest or why that could not be read.
#[derive(Debug)]
pub struct Attempt {
    pub version: String,
    pub manifest: Result<Manifest, String>,
}

/// The attempts that have a manifest.
pub open spec fn readable(a: Seq<Attempt>) -> Seq<Candidate>
    decreases a.len(),
{
    if a.len() == 0 {
        Seq::empty()
    } else {
        match a.last().manifest {
            Ok(m) => readable(a.drop_last()).push(
                (Candidate { version: a.last().version, manifest: m }),
            ),
            Err(_) => readable(a.drop_last()),
        }
    }
}

/// Why the first attempt that has no manifest has none.
pub open spec fn first_failure(a: Seq<Attempt>) -> Option<Seq<char>>
    decreases a.len(),
{
    if a.len() == 0 {
        None
    } else {
        match first_failure(a.drop_last()) {
            Some(e) => Some(e),
            None => match a.last().manifest {
                Ok(_) => None,
                Err(e) => Some(e@),
            },
        }
    }
}

/// The text for a package that has no version that can be installed.
pub open spec fn no_candidates(pkg: Seq<char>, tag_count: nat, failure: Option<Seq<char>>) -> Seq<char> {
    if tag_count == 0 {
        "No installable version found for '"@ + pkg
            + "' — this repository has no git tags.\n  hpm reads installable versions ONLY from git tags — not from repo.json, not\n  from a GitHub Release, and not from the default branch. Push one:\n\n  git tag <version>          (e.g. git tag 1.0.15, matching info.hk's version)\n  git push origin <version>\n\n  Then run `hpm refresh` and try again."@
    } else {
        match failure {
            Some(e) => "No installable version found for '"@ + pkg + "' — "@ + decimal(tag_count)
                + " tag(s) exist, but info.hk failed to load on every one of them. Most recent failure:\n\n"@
                + e,
            None => "No installable version found for '"@ + pkg + "' — "@ + decimal(tag_count)
                + " tag(s) exist but none could be read (corrupt commit, missing info.hk in the tagged tree, or similar)."@,
        }
    }
}

/// The candidates of a package, in the order in which they were tried.
pub fn gather_candidates(pkg_name: &str, tag_count: usize, attempts: Vec<Attempt>) -> (r: Result<BatchPackage, String>)
    ensures
        match r {
            Ok(p) => readable(attempts@).len() > 0 && p.name@ == pkg_name@ && p.candidates@
                == readable(attempts@),
            Err(m) => readable(attempts@).len() == 0 && m@ == no_candidates(
                pkg_name@,
                tag_count as nat,
                first_failure(attempts@),
            ),
        },
{
    let ghost all = attempts@;
    let mut left = attempts;
    let mut found: Vec<Candidate> = Vec::new();
    let mut failure: Option<String> = None;
    let ghost mut n: int = 0;
    assert(all.take(0) =~= Seq::<Attempt>::empty());
    assert(all.skip(0) =~= all);
    while left.len() > 0
        invariant
            0 <= n <= all.len(),
            left@ == all.skip(n),
            found@ == readable(all.take(n)),
            match failure {
                Some(e) => first_failure(all.take(n)) == Some(e@),
                None => first_failure(all.take(n)) is None,
            },
        decreases left@.len(),
    {
        proof {
            let longer = all.take(n + 1);
            assert(longer.drop_last() =~= all.take(n));
            assert(longer.last() == left@[0]);
            assert(all.skip(n).remove(0) =~= all.skip(n + 1));
            n = n + 1;
        }
        let a = left.remove(0);
        match a.manifest {
            Ok(m) => {
                found.push(Candidate { version: a.version, manifest: m });
            },
            Err(e) => {
                if failure.is_none() {
                    failure = Some(e);
                }
            },
        }
    }
    assert(all.take(n) =~= all);
    if found.len() > 0 {
        return Ok(BatchPackage { name: pkg_name.to_owned(), candidates: found });
    }
    let count = to_decimal(tag_count as u64);
    let mut m = cat("No installable version found for '", pkg_name);
    if tag_count == 0 {
        m.append("' — this repository has no git tags.\n  hpm reads installable versions ONLY from git tags — not from repo.json, not\n  from a GitHub Release, and not from the default branch. Push one:\n\n  git tag <version>          (e.g. git tag 1.0.15, matching info.hk's version)\n  git push origin <version>\n\n  Then run `hpm refresh` and try again.");
    } else {
        m.append("' — ");
        m.append(count.as_str());
        match failure {
            Some(e) => {
                m.append(" tag(s) exist, but info.hk failed to load on every one of them. Most recent failure:\n\n");
                m.append(e.as_str());
            },
            None => {
                m.append(" tag(s) exist but none could be read (corrupt commit, missing info.hk in the tagged tree, or similar).");
            },
        }
    }
    Err(m)
}

// ---------------------------------------------------------------------------
// What was chosen
// ---------------------------------------------------------------------------

/// What is said of a package for which no version was asked for and not the
/// newest candidate was chosen.
pub open spec fn replaced(p: BatchPackage, chosen: int, asked: Option<Seq<char>>) -> Option<Seq<char>> {
    let version = p.candidates@[chosen].version@;
    let newest = p.candidates@[0].version@;
    if asked is None && version != newest {
        Some(
            p.name@ + ": using "@ + version + " instead of latest ("@ + newest
                + ") to avoid a conflict"@,
        )
    } else {
        None
    }
}

/// What is said of the packages of a batch.
pub open spec fn replacements(b: Seq<BatchPackage>, chosen: Seq<int>, specs: Seq<Seq<char>>, n: nat) -> Seq<Seq<char>>
    decreases n,
{
    if n == 0 {
        Seq::empty()
    } else {
        let rest = replacements(b, chosen, specs, (n - 1) as nat);
        match replaced(b[n - 1], chosen[n - 1], spec_parts(specs[n - 1]).1) {
            Some(note) => rest + seq![note],
            None => rest,
        }
    }
}

/// What is said of the packages of a batch for which not the newest candidate
/// was chosen.
pub fn replacement_notes(batch: &Vec<BatchPackage>, chosen: &Vec<usize>, specs: &Vec<String>) -> (r: Vec<String>)
    requires
        chosen@.len() == batch@.len(),
        specs@.len() == batch@.len(),
        forall|i: int| 0 <= i < batch@.len() ==> (#[trigger] chosen@[i]) < batch@[i].candidates@.len(),
    ensures
        strs(r@) == replacements(batch@, positions(chosen@), strs(specs@), batch@.len()),
{
    let mut out: Vec<String> = Vec::new();
    let mut i: usize = 0;
    assert(strs(out@) =~= Seq::<Seq<char>>::empty());
    while i < batch.len()
        invariant
            i <= batch@.len(),
            chosen@.len() == batch@.len(),
            specs@.len() == batch@.len(),
            forall|k: int|
                0 <= k < batch@.len() ==> (#[trigger] chosen@[k]) < batch@[k].candidates@.len(),
            strs(out@) == replacements(batch@, positions(chosen@), strs(specs@), i as nat),
        decreases batch@.len() - i,
    {
        assert(positions(chosen@)[i as int] == chosen@[i as int]);
        assert(strs(specs@)[i as int] == specs@[i as int]@);
        let (_, asked) = split_spec(specs[i].as_str());
        let version = batch[i].candidates[chosen[i]].version.as_str();
        let newest = batch[i].candidates[0].version.as_str();
        if asked.is_none() && !same(version, newest) {
            let mut s = cat5(batch[i].name.as_str(), ": using ", version, " instead of latest (", newest);
            s.append(") to avoid a conflict");
            push_text(&mut out, s);
        }
        i = i + 1;
    }
    out
}

/// The packages of a batch with the versions that were chosen.
pub open spec fn chosen_keys(b: Seq<BatchPackage>, chosen: Seq<int>) -> Seq<Seq<char>> {
    Seq::new(b.len(), |i: int| pkg_key(b[i].name@, b[i].candidates@[chosen[i]].version@))
}

/// The text for the versions that were chosen for a batch.
pub fn resolution_text(batch: &Vec<BatchPackage>, chosen: &Vec<usize>) -> (r: String)
    requires
        chosen@.len() == batch@.len(),
        forall|i: int| 0 <= i < batch@.len() ==> (#[trigger] chosen@[i]) < batch@[i].candidates@.len(),
    ensures
        r@ == "Resolved: "@ + join_with(chosen_keys(batch@, positions(chosen@)), ", "@),
{
    let mut keys: Vec<String> = Vec::new();
    let mut i: usize = 0;
    let ghost all = chosen_keys(batch@, positions(chosen@));
    assert(strs(keys@) =~= all.take(0));
    while i < batch.len()
        invariant
            i <= batch@.len(),
            chosen@.len() == batch@.len(),
            forall|k: int|
                0 <= k < batch@.len() ==> (#[trigger] chosen@[k]) < batch@[k].candidates@.len(),
            all == chosen_keys(batch@, positions(chosen@)),
            strs(keys@) == all.take(i as int),
        decreases batch@.len() - i,
    {
        assert(positions(chosen@)[i as int] == chosen@[i as int]);
        let key = join_pkg_ver(batch[i].name.as_str(), batch[i].candidates[chosen[i]].version.as_str());
        assert(all.take(i + 1) =~= all.take(i as int) + seq![key@]);
        push_text(&mut keys, key);
        i = i + 1;
    }
    assert(all.take(all.len() as int) =~= all);
    let list = join_strings(&keys, ", ");
    cat("Resolved: ", list.as_str())
}

// ---------------------------------------------------------------------------
// Laws
// ---------------------------------------------------------------------------

/// Whether positions stand in the order of the versions at them: the newest first, or
/// the oldest first, and of versions that rank the same the earlier position first.
pub open spec fn in_order(s: Seq<int>, versions: Seq<Seq<char>>, newest_first: bool) -> bool {
    forall|i: int, j: int|
        0 <= i < j < s.len() ==> match version_rank(versions[#[trigger] s[i]], versions[#[trigger] s[j]]) {
            Rank::Before => !newest_first,
            Rank::After => newest_first,
            Rank::Same => s[i] < s[j],
        }
}

proof fn placed(s: Seq<int>, versions: Seq<Seq<char>>, k: int, newest_first: bool)
    requires
        0 <= k < versions.len(),
        forall|i: int| 0 <= i < versions.len() ==> numeric(#[trigger] versions[i]),
        forall|i: int| 0 <= i < s.len() ==> 0 <= #[trigger] s[i] < k,
        in_order(s, versions, newest_first),
    ensures
        in_order(place_position(s, versions, k, newest_first), versions, newest_first),
        place_position(s, versions, k, newest_first).len() == s.len() + 1,
        forall|x: int| #[trigger]
            place_position(s, versions, k, newest_first).contains(x) <==> x == k || s.contains(x),
    decreases s.len(),
{
    let r = place_position(s, versions, k, newest_first);
    if s.len() == 0 || stays_behind(versions[s.last()], versions[k], newest_first) {
        assert forall|i: int, j: int| 0 <= i < j < r.len() implies match version_rank(
            versions[#[trigger] r[i]],
            versions[#[trigger] r[j]],
        ) {
            Rank::Before => !newest_first,
            Rank::After => newest_first,
            Rank::Same => r[i] < r[j],
        } by {
            if j == s.len() {
                let a = versions[s[i]];
                let b = versions[s.last()];
                let c = versions[k];
                assert(s[s.len() - 1] == s.last());
                version_rank_reflexive(a);
                version_rank_flips(a, b);
                version_rank_flips(b, c);
                version_rank_flips(a, c);
                if i < s.len() - 1 {
                    assert(s[i] == r[i]);
                    if newest_first {
                        version_rank_transitive(c, b, a);
                    } else {
                        version_rank_transitive(a, b, c);
                    }
                }
            } else {
                assert(s[i] == r[i] && s[j] == r[j]);
            }
        }
        assert forall|x: int| #[trigger] r.contains(x) <==> x == k || s.contains(x) by {
            if r.contains(x) {
                let i = choose|i: int| 0 <= i < r.len() && r[i] == x;
                if i < s.len() {
                    assert(s[i] == x);
                }
            }
            if x == k {
                assert(r[s.len() as int] == x);
            }
            if s.contains(x) {
                let i = choose|i: int| 0 <= i < s.len() && s[i] == x;
                assert(r[i] == x);
            }
        }
    } else {
        let t = s.drop_last();
        assert forall|i: int, j: int| 0 <= i < j < t.len() implies match version_rank(
            versions[#[trigger] t[i]],
            versions[#[trigger] t[j]],
        ) {
            Rank::Before => !newest_first,
            Rank::After => newest_first,
            Rank::Same => t[i] < t[j],
        } by {
            assert(t[i] == s[i] && t[j] == s[j]);
        }
        assert forall|i: int| 0 <= i < t.len() implies 0 <= #[trigger] t[i] < k by {
            assert(t[i] == s[i]);
        }
        placed(t, versions, k, newest_first);
        let q = place_position(t, versions, k, newest_first);
        assert(r == q.push(s.last()));
        assert forall|i: int, j: int| 0 <= i < j < r.len() implies match version_rank(
            versions[#[trigger] r[i]],
            versions[#[trigger] r[j]],
        ) {
            Rank::Before => !newest_first,
            Rank::After => newest_first,
            Rank::Same => r[i] < r[j],
        } by {
            assert(q[i] == r[i]);
            if j == q.len() {
                assert(q.contains(q[i]));
                version_rank_flips(versions[s.last()], versions[k]);
                if q[i] != k {
                    let m = choose|m: int| 0 <= m < t.len() && t[m] == q[i];
                    assert(s[m] == q[i]);
                    assert(s[s.len() - 1] == s.last());
                }
            } else {
                assert(q[j] == r[j]);
            }
        }
        assert forall|x: int| #[trigger] r.contains(x) <==> x == k || s.contains(x) by {
            if r.contains(x) {
                let i = choose|i: int| 0 <= i < r.len() && r[i] == x;
                if i < q.len() {
                    assert(q[i] == x);
                    assert(q.contains(x));
                    if x != k {
                        let m = choose|m: int| 0 <= m < t.len() && t[m] == x;
                        assert(s[m] == x);
                    }
                } else {
                    assert(s[s.len() - 1] == x);
                }
            }
            if x == k || s.contains(x) {
                if x == k || t.contains(x) {
                    assert(q.contains(x));
                    let i = choose|i: int| 0 <= i < q.len() && q[i] == x;
                    assert(r[i] == x);
                } else {
                    let m = choose|m: int| 0 <= m < s.len() && s[m] == x;
                    if m < t.len() {
                        assert(t[m] == x);
                    }
                    assert(r[q.len() as int] == x);
                }
            }
        }
    }
}

proof fn ordered(versions: Seq<Seq<char>>, n: nat, newest_first: bool)
    requires
        n <= versions.len(),
        forall|i: int| 0 <= i < versions.len() ==> numeric(#[trigger] versions[i]),
    ensures
        in_order(ordered_positions(versions, n, newest_first), versions, newest_first),
        ordered_positions(versions, n, newest_first).len() == n,
        forall|x: int| #[trigger]
            ordered_positions(versions, n, newest_first).contains(x) <==> 0 <= x < n,
    decreases n,
{
    if n > 0 {
        ordered(versions, (n - 1) as nat, newest_first);
        let s = ordered_positions(versions, (n - 1) as nat, newest_first);
        assert forall|i: int| 0 <= i < s.len() implies 0 <= #[trigger] s[i] < n - 1 by {
            assert(s.contains(s[i]));
        }
        placed(s, versions, n - 1, newest_first);
    }
}

/// Versions that are all numbers are put in their order: every position comes once, and
/// none stands before that of a version that goes before its own.
pub proof fn versions_are_put_in_order(versions: Seq<Seq<char>>, newest_first: bool)
    requires
        forall|i: int| 0 <= i < versions.len() ==> numeric(#[trigger] versions[i]),
    ensures
        in_order(ordered_positions(versions, versions.len(), newest_first), versions, newest_first),
        ordered_positions(versions, versions.len(), newest_first).len() == versions.len(),
        forall|x: int| #[trigger]
            ordered_positions(versions, versions.len(), newest_first).contains(x) <==> 0 <= x < versions.len(),
{
    ordered(versions, versions.len(), newest_first);
}

/// The newest of tags whose versions are all numbers is one of them, and none stands for
/// a newer version.
pub proof fn no_tag_is_newer(tags: Seq<Seq<char>>, i: int)
    requires
        0 <= i < tags.len(),
        forall|j: int| 0 <= j < tags.len() ==> numeric(tag_version(#[trigger] tags[j])),
    ensures
        0 <= newest_tag(tags) < tags.len(),
        version_rank(tag_version(tags[i]), tag_version(tags[newest_tag(tags)])) != Rank::After,
{
    let versions = tag_versions(tags);
    assert forall|j: int| 0 <= j < versions.len() implies numeric(#[trigger] versions[j]) by {
        assert(versions[j] == tag_version(tags[j]));
    }
    versions_are_put_in_order(versions, false);
    let s = ordered_positions(versions, versions.len(), false);
    assert(s[s.len() - 1] == s.last());
    assert(s.contains(s.last()));
    assert(s.contains(i));
    let k = choose|k: int| 0 <= k < s.len() && s[k] == i;
    version_rank_reflexive(versions[i]);
    assert(versions[i] == tag_version(tags[i]));
    assert(versions[s.last()] == tag_version(tags[s.last()]));
}

/// The tag for a version is the first that stands for it; there is none exactly where no
/// tag stands for it.
pub proof fn first_tag_of_a_version(tags: Seq<Seq<char>>, version: Seq<char>)
    ensures
        match tag_position(tags, version) {
            Some(i) => 0 <= i < tags.len() && tag_version(tags[i]) == version && forall|j: int|
                0 <= j < i ==> tag_version(#[trigger] tags[j]) != version,
            None => forall|j: int| 0 <= j < tags.len() ==> tag_version(#[trigger] tags[j]) != version,
        },
    decreases tags.len(),
{
    if tags.len() > 0 && tag_version(tags[0]) != version {
        let t = tags.drop_first();
        first_tag_of_a_version(t, version);
        match tag_position(t, version) {
            Some(i) => {
                assert(tags[i + 1] == t[i]);
                assert forall|j: int| 0 <= j < i + 1 implies tag_version(#[trigger] tags[j]) != version by {
                    if j > 0 {
                        assert(t[j - 1] == tags[j]);
                    }
                }
            },
            None => {
                assert forall|j: int| 0 <= j < tags.len() implies tag_version(#[trigger] tags[j])
                    != version by {
                    if j > 0 {
                        assert(t[j - 1] == tags[j]);
                    }
                }
            },
        }
    }
}

/// Every attempt that gave a manifest is a candidate, with that manifest and in the place
/// that it was tried in; an attempt that gave none is no candidate.
pub proof fn candidates_are_what_was_read(a: Seq<Attempt>, b: Seq<Attempt>, x: Attempt)
    ensures
        readable(a + b) == readable(a) + readable(b),
        match x.manifest {
            Ok(m) => readable(seq![x]) == seq![(Candidate { version: x.version, manifest: m })],
            Err(_) => readable(seq![x]) == Seq::<Candidate>::empty(),
        },
    decreases b.len(),
{
    if b.len() == 0 {
        assert(a + b =~= a);
        assert(readable(a) + readable(b) =~= readable(a));
    } else {
        candidates_are_what_was_read(a, b.drop_last(), x);
        assert((a + b).drop_last() =~= a + b.drop_last());
        assert((a + b).last() == b.last());
        assert(readable(a + b) =~= readable(a) + readable(b));
    }
    assert(seq![x].drop_last() =~= Seq::<Attempt>::empty());
    assert(readable(Seq::<Attempt>::empty()) =~= Seq::<Candidate>::empty());
    assert(seq![x].last() == x);
    if let Ok(m) = x.manifest {
        assert(readable(seq![x]) =~= seq![(Candidate { version: x.version, manifest: m })]);
    }
}

/// The failure that is told is that of the first attempt that gave no manifest.
pub proof fn first_failure_is_told(a: Seq<Attempt>, i: int)
    requires
        0 <= i < a.len(),
        forall|j: int| 0 <= j < i ==> (#[trigger] a[j]).manifest is Ok,
        a[i].manifest is Err,
    ensures
        first_failure(a) == Some(a[i].manifest->Err_0@),
    decreases a.len(),
{
    let t = a.drop_last();
    if i < t.len() {
        assert forall|j: int| 0 <= j < i implies (#[trigger] t[j]).manifest is Ok by {
            assert(t[j] == a[j]);
        }
        assert(t[i] == a[i]);
        first_failure_is_told(t, i);
    } else {
        nothing_failed(t);
    }
}

proof fn nothing_failed(a: Seq<Attempt>)
    requires
        forall|j: int| 0 <= j < a.len() ==> (#[trigger] a[j]).manifest is Ok,
    ensures
        first_failure(a) is None,
    decreases a.len(),
{
    if a.len() > 0 {
        assert(a[a.len() - 1] == a.last());
        assert forall|j: int| 0 <= j < a.drop_last().len() implies (#[trigger] a.drop_last()[j]).manifest is Ok by {
            assert(a[j] == a.drop_last()[j]);
        }
        nothing_failed(a.drop_last());
    }
}

/// It is said of a package that another version than the newest is used exactly where no
/// version was asked for and the one that was chosen is not the first candidate.
pub proof fn what_is_replaced_is_said(
    b: Seq<BatchPackage>,
    chosen: Seq<int>,
    specs: Seq<Seq<char>>,
    n: nat,
    x: Seq<char>,
)
    requires
        n <= b.len(),
    ensures
        replacements(b, chosen, specs, n).contains(x) <==> exists|i: int|
            0 <= i < n && spec_parts(#[trigger] specs[i]).1 is None && b[i].candidates@[chosen[i]].version@
                != b[i].candidates@[0].version@ && x == b[i].name@ + ": using "@
                + b[i].candidates@[chosen[i]].version@ + " instead of latest ("@ + b[i].candidates@[0].version@
                + ") to avoid a conflict"@,
    decreases n,
{
    if n > 0 {
        what_is_replaced_is_said(b, chosen, specs, (n - 1) as nat, x);
        let rest = replacements(b, chosen, specs, (n - 1) as nat);
        if let Some(note) = replaced(b[n - 1], chosen[n - 1], spec_parts(specs[n - 1]).1) {
            lemma_seq_concat_contains_all_elements(rest, seq![note], x);
            assert(seq![note][0] == note);
        }
    }
}

/// Whether no position stands right before that of a version that goes before its own.
pub open spec fn neighbours_in_order(s: Seq<int>, versions: Seq<Seq<char>>, newest_first: bool) -> bool {
    forall|i: int, j: int|
        0 <= i < j < s.len() && j == i + 1 ==> match version_rank(
            versions[#[trigger] s[i]],
            versions[#[trigger] s[j]],
        ) {
            Rank::Before => !newest_first,
            Rank::After => newest_first,
            Rank::Same => true,
        }
}

proof fn placed_among_neighbours(s: Seq<int>, versions: Seq<Seq<char>>, k: int, newest_first: bool)
    requires
        neighbours_in_order(s, versions, newest_first),
    ensures
        neighbours_in_order(place_position(s, versions, k, newest_first), versions, newest_first),
        place_position(s, versions, k, newest_first).len() == s.len() + 1,
        place_position(s, versions, k, newest_first).last() == k || (s.len() > 0 && place_position(
            s,
            versions,
            k,
            newest_first,
        ).last() == s.last()),
        forall|x: int| #[trigger]
            place_position(s, versions, k, newest_first).contains(x) <==> x == k || s.contains(x),
    decreases s.len(),
{
    let r = place_position(s, versions, k, newest_first);
    if s.len() == 0 || stays_behind(versions[s.last()], versions[k], newest_first) {
        assert forall|i: int, j: int| 0 <= i < j < r.len() && j == i + 1 implies match version_rank(
            versions[#[trigger] r[i]],
            versions[#[trigger] r[j]],
        ) {
            Rank::Before => !newest_first,
            Rank::After => newest_first,
            Rank::Same => true,
        } by {
            assert(s[i] == r[i]);
            if j < s.len() {
                assert(s[j] == r[j]);
            }
        }
        assert forall|x: int| #[trigger] r.contains(x) <==> x == k || s.contains(x) by {
            lemma_seq_contains_after_push(s, k, x);
        }
    } else {
        let t = s.drop_last();
        assert forall|i: int, j: int| 0 <= i < j < t.len() && j == i + 1 implies match version_rank(
            versions[#[trigger] t[i]],
            versions[#[trigger] t[j]],
        ) {
            Rank::Before => !newest_first,
            Rank::After => newest_first,
            Rank::Same => true,
        } by {
            assert(t[i] == s[i] && t[j] == s[j]);
        }
        placed_among_neighbours(t, versions, k, newest_first);
        let q = place_position(t, versions, k, newest_first);
        version_rank_flips(versions[s.last()], versions[k]);
        assert forall|i: int, j: int| 0 <= i < j < r.len() && j == i + 1 implies match version_rank(
            versions[#[trigger] r[i]],
            versions[#[trigger] r[j]],
        ) {
            Rank::Before => !newest_first,
            Rank::After => newest_first,
            Rank::Same => true,
        } by {
            assert(q[i] == r[i]);
            if j < q.len() {
                assert(q[j] == r[j]);
            } else {
                assert(r[j] == s.last() && r[i] == q.last());
                if q.last() != k {
                    assert(t.last() == s[s.len() - 2]);
                    assert(s[s.len() - 1] == s.last());
                }
            }
        }
        assert forall|x: int| #[trigger] r.contains(x) <==> x == k || s.contains(x) by {
            lemma_seq_contains_after_push(q, s.last(), x);
            assert(s =~= t.push(s.last()));
            lemma_seq_contains_after_push(t, s.last(), x);
        }
    }
}

/// Whatever the versions are, every position comes once, and none stands right before that
/// of a version that goes before its own.
pub proof fn neighbours_are_put_in_order(versions: Seq<Seq<char>>, n: nat, newest_first: bool)
    ensures
        neighbours_in_order(ordered_positions(versions, n, newest_first), versions, newest_first),
        ordered_positions(versions, n, newest_first).len() == n,
        forall|x: int| #[trigger]
            ordered_positions(versions, n, newest_first).contains(x) <==> 0 <= x < n,
    decreases n,
{
    if n > 0 {
        neighbours_are_put_in_order(versions, (n - 1) as nat, newest_first);
        placed_among_neighbours(
            ordered_positions(versions, (n - 1) as nat, newest_first),
            versions,
            n - 1,
            newest_first,
        );
    }
}

} // verus!
