//! Choosing versions for a batch of packages so that none conflict.
//!
//! The search tries the candidates of each package in their order, newest
//! first, and goes back where it gets stuck. It gives up after a number of
//! steps.
use vstd::prelude::*;

use crate::manifest::Manifest;
use crate::state::{declared_complaints, depends_on_package, installed_complaints, no_complaint_means_no_conflict, pkg_ver, split_pkg_ver, State};
use crate::text::{join_strings, join_with, push_text, same, strs};

verus! {

/// How many versions of a package are tried where none is asked for.
pub const MAX_CANDIDATES_PER_PKG: usize = 6;

/// How many choices the search makes before it gives up.
pub const MAX_SEARCH_STEPS: usize = 2000;

/// A version that may be chosen for a package.
#[derive(Debug)]
pub struct Candidate {
    pub version: String,
    pub manifest: Manifest,
}

/// A package of a batch, with the versions that may be chosen for it.
#[derive(Debug)]
pub struct BatchPackage {
    pub name: String,
    pub candidates: Vec<Candidate>,
}

/// What a candidate declares conflicts with.
pub open spec fn declared(b: Seq<BatchPackage>, i: int, c: int) -> Seq<Seq<char>> {
    strs(b[i].candidates@[c].manifest.conflicts@)
}

/// Whether one of the declared conflicts names a package.
pub open spec fn names(declared: Seq<Seq<char>>, name: Seq<char>) -> bool {
    exists|k: int| 0 <= k < declared.len() && pkg_ver(#[trigger] declared[k]).0 == name
}

/// Whether a candidate conflicts with what is installed.
pub open spec fn installed_conflict(b: Seq<BatchPackage>, state: State, i: int, c: int) -> bool {
    (installed_complaints(state.packages.all(), b[i].name@) + declared_complaints(
        state.packages,
        b[i].name@,
        declared(b, i, c),
    )).len() > 0
}

/// Whether candidates of two packages of the batch conflict.
pub open spec fn batch_conflict(b: Seq<BatchPackage>, i: int, c: int, j: int, d: int) -> bool {
    names(declared(b, i, c), b[j].name@) || names(declared(b, j, d), b[i].name@)
}

/// Whether a candidate of the next package can be added to choices for those
/// before it.
pub open spec fn fits(b: Seq<BatchPackage>, state: State, chosen: Seq<int>, c: int) -> bool {
    let i = chosen.len() as int;
    &&& !installed_conflict(b, state, i, c)
    &&& forall|j: int| 0 <= j < i ==> !#[trigger] batch_conflict(b, i, c, j, chosen[j])
}

/// Whether choices for the first packages of a batch are candidates of theirs
/// that conflict neither with each other nor with what is installed.
pub open spec fn consistent(b: Seq<BatchPackage>, state: State, chosen: Seq<int>) -> bool {
    &&& chosen.len() <= b.len()
    &&& forall|i: int|
        0 <= i < chosen.len() ==> 0 <= #[trigger] chosen[i] < b[i].candidates@.len()
    &&& forall|i: int|
        0 <= i < chosen.len() ==> !#[trigger] installed_conflict(b, state, i, chosen[i])
    &&& forall|i: int, j: int|
        0 <= j < i < chosen.len() ==> !#[trigger] batch_conflict(b, i, chosen[i], j, chosen[j])
}

/// Whether choices are a consistent choice for every package.
pub open spec fn solves(b: Seq<BatchPackage>, state: State, chosen: Seq<int>) -> bool {
    chosen.len() == b.len() && consistent(b, state, chosen)
}

/// The search from the `c`-th candidate of the next package on: the choices it
/// ends with, if it succeeds, and the steps it leaves.
pub open spec fn search(b: Seq<BatchPackage>, state: State, chosen: Seq<int>, c: int, steps: nat) -> (Option<Seq<int>>, nat)
    decreases steps, b.len() - chosen.len(),
{
    let i = chosen.len() as int;
    if i >= b.len() {
        (Some(chosen), steps)
    } else if c >= b[i].candidates@.len() {
        (None, steps)
    } else if steps == 0 {
        (None, 0)
    } else if !fits(b, state, chosen, c) {
        search(b, state, chosen, c + 1, (steps - 1) as nat)
    } else {
        let deeper = search(b, state, chosen.push(c), 0, (steps - 1) as nat);
        if deeper.0 is Some {
            deeper
        } else if deeper.1 < steps {
            search(b, state, chosen, c + 1, deeper.1)
        } else {
            (None, 0)
        }
    }
}

/// A search leaves no more steps than it was given.
pub proof fn search_uses_steps(b: Seq<BatchPackage>, state: State, chosen: Seq<int>, c: int, steps: nat)
    ensures
        search(b, state, chosen, c, steps).1 <= steps,
    decreases steps, b.len() - chosen.len(),
{
    let i = chosen.len() as int;
    if i < b.len() && c < b[i].candidates@.len() && steps > 0 {
        if !fits(b, state, chosen, c) {
            search_uses_steps(b, state, chosen, c + 1, (steps - 1) as nat);
        } else {
            search_uses_steps(b, state, chosen.push(c), 0, (steps - 1) as nat);
            let deeper = search(b, state, chosen.push(c), 0, (steps - 1) as nat);
            if deeper.0 is None {
                search_uses_steps(b, state, chosen, c + 1, deeper.1);
            }
        }
    }
}

proof fn consistent_push(b: Seq<BatchPackage>, state: State, chosen: Seq<int>, c: int)
    requires
        consistent(b, state, chosen),
        chosen.len() < b.len(),
        0 <= c < b[chosen.len() as int].candidates@.len(),
    ensures
        consistent(b, state, chosen.push(c)) == fits(b, state, chosen, c),
{
    let n = chosen.len() as int;
    let t = chosen.push(c);
    if fits(b, state, chosen, c) {
        assert forall|i: int| 0 <= i < t.len() implies 0 <= #[trigger] t[i] < b[i].candidates@.len() by {
            if i < n {
                assert(t[i] == chosen[i]);
            }
        }
        assert forall|i: int| 0 <= i < t.len() implies !#[trigger] installed_conflict(b, state, i, t[i]) by {
            if i < n {
                assert(!installed_conflict(b, state, i, chosen[i]));
            }
        }
        assert forall|i: int, j: int| 0 <= j < i < t.len() implies !#[trigger] batch_conflict(b, i, t[i], j, t[j]) by {
            if i < n {
                assert(!batch_conflict(b, i, chosen[i], j, chosen[j]));
            } else {
                assert(!batch_conflict(b, n, c, j, chosen[j]));
            }
        }
    }
    if consistent(b, state, t) {
        assert(!installed_conflict(b, state, n, t[n]));
        assert forall|j: int| 0 <= j < n implies !#[trigger] batch_conflict(b, n, c, j, chosen[j]) by {
            assert(!batch_conflict(b, n, t[n], j, t[j]));
        }
    }
}

/// What a successful search ends with is a consistent choice for every
/// package that keeps the choices it started from.
pub proof fn search_is_sound(b: Seq<BatchPackage>, state: State, chosen: Seq<int>, c: int, steps: nat)
    requires
        consistent(b, state, chosen),
        0 <= c,
        search(b, state, chosen, c, steps).0 is Some,
    ensures
        solves(b, state, search(b, state, chosen, c, steps).0->0),
        search(b, state, chosen, c, steps).0->0.take(chosen.len() as int) == chosen,
        chosen.len() < b.len() ==> search(b, state, chosen, c, steps).0->0[chosen.len() as int] >= c,
    decreases steps, b.len() - chosen.len(),
{
    let i = chosen.len() as int;
    if i >= b.len() {
        assert(chosen.take(i) =~= chosen);
    } else if c < b[i].candidates@.len() && steps > 0 {
        if !fits(b, state, chosen, c) {
            search_is_sound(b, state, chosen, c + 1, (steps - 1) as nat);
        } else {
            consistent_push(b, state, chosen, c);
            search_uses_steps(b, state, chosen.push(c), 0, (steps - 1) as nat);
            let deeper = search(b, state, chosen.push(c), 0, (steps - 1) as nat);
            if deeper.0 is Some {
                search_is_sound(b, state, chosen.push(c), 0, (steps - 1) as nat);
                let s = deeper.0->0;
                assert(s.take(i) =~= s.take(i + 1).take(i));
                assert(chosen.push(c).take(i) =~= chosen);
                assert(s[i] == s.take(i + 1)[i]);
            } else {
                search_is_sound(b, state, chosen, c + 1, deeper.1);
            }
        }
    }
}

/// Whether choices come before others, or equal them: at the first package at
/// which they differ they take the earlier candidate.
pub open spec fn comes_first(a: Seq<int>, b: Seq<int>, from: int) -> bool
    decreases a.len() - from,
{
    if from >= a.len() || from >= b.len() {
        true
    } else if a[from] != b[from] {
        a[from] < b[from]
    } else {
        comes_first(a, b, from + 1)
    }
}

proof fn prefix_consistent(b: Seq<BatchPackage>, state: State, full: Seq<int>, n: int)
    requires
        consistent(b, state, full),
        0 <= n <= full.len(),
    ensures
        consistent(b, state, full.take(n)),
{
    let t = full.take(n);
    assert forall|i: int| 0 <= i < t.len() implies 0 <= #[trigger] t[i] < b[i].candidates@.len() by {
        assert(t[i] == full[i]);
    }
    assert forall|i: int| 0 <= i < t.len() implies !#[trigger] installed_conflict(b, state, i, t[i]) by {
        assert(!installed_conflict(b, state, i, full[i]));
    }
    assert forall|i: int, j: int| 0 <= j < i < t.len() implies !#[trigger] batch_conflict(b, i, t[i], j, t[j]) by {
        assert(!batch_conflict(b, i, full[i], j, full[j]));
    }
}

/// A search that fails with steps left has looked at everything: there is no
/// consistent choice that it could have ended with. One that succeeds ends
/// with the first of them.
pub proof fn search_is_complete(
    b: Seq<BatchPackage>,
    state: State,
    chosen: Seq<int>,
    c: int,
    steps: nat,
    full: Seq<int>,
)
    requires
        consistent(b, state, chosen),
        0 <= c,
        solves(b, state, full),
        full.take(chosen.len() as int) == chosen,
        chosen.len() < b.len() ==> full[chosen.len() as int] >= c,
    ensures
        match search(b, state, chosen, c, steps) {
            (None, left) => left == 0,
            (Some(s), _) => comes_first(s, full, chosen.len() as int),
        },
    decreases steps, b.len() - chosen.len(),
{
    let i = chosen.len() as int;
    if i >= b.len() {
    } else if c >= b[i].candidates@.len() {
        assert(full[i] < b[i].candidates@.len());
    } else if steps == 0 {
    } else {
        let longer = full.take(i + 1);
        prefix_consistent(b, state, full, i + 1);
        assert(longer =~= chosen.push(full[i])) by {
            assert(longer.take(i) =~= full.take(i));
        }
        if !fits(b, state, chosen, c) {
            consistent_push(b, state, chosen, c);
            assert(full[i] != c);
            search_is_complete(b, state, chosen, c + 1, (steps - 1) as nat, full);
        } else {
            consistent_push(b, state, chosen, c);
            search_uses_steps(b, state, chosen.push(c), 0, (steps - 1) as nat);
            let deeper = search(b, state, chosen.push(c), 0, (steps - 1) as nat);
            if full[i] == c {
                search_is_complete(b, state, chosen.push(c), 0, (steps - 1) as nat, full);
                if deeper.0 is Some {
                    search_is_sound(b, state, chosen.push(c), 0, (steps - 1) as nat);
                    let s = deeper.0->0;
                    assert(s[i] == s.take(i + 1)[i]);
                } else {
                    assert(deeper.1 == 0);
                    search_uses_steps(b, state, chosen, c + 1, 0);
                    if search(b, state, chosen, c + 1, 0).0 is Some {
                        search_is_sound(b, state, chosen, c + 1, 0);
                    }
                }
            } else {
                if deeper.0 is Some {
                    search_is_sound(b, state, chosen.push(c), 0, (steps - 1) as nat);
                    let s = deeper.0->0;
                    assert(s[i] == s.take(i + 1)[i]);
                } else {
                    search_is_complete(b, state, chosen, c + 1, deeper.1, full);
                }
            }
        }
    }
}

/// The choices of a search as positions.
pub open spec fn positions(chosen: Seq<usize>) -> Seq<int> {
    chosen.map_values(|c: usize| c as int)
}

fn names_package(declared: &Vec<String>, name: &str) -> (r: bool)
    ensures
        r == names(strs(declared@), name@),
{
    let mut k: usize = 0;
    while k < declared.len()
        invariant
            k <= declared@.len(),
            forall|j: int| 0 <= j < k ==> pkg_ver(#[trigger] strs(declared@)[j]).0 != name@,
        decreases declared@.len() - k,
    {
        let (n, _v) = split_pkg_ver(declared[k].as_str());
        assert(strs(declared@)[k as int] == declared@[k as int]@);
        if same(n.as_str(), name) {
            return true;
        }
        k = k + 1;
    }
    false
}

fn check_fit(batch: &Vec<BatchPackage>, state: &State, chosen: &Vec<usize>, c: usize) -> (r: bool)
    requires
        state.wf(),
        chosen@.len() < batch@.len(),
        c < batch@[chosen@.len() as int].candidates@.len(),
        consistent(batch@, *state, positions(chosen@)),
    ensures
        r == fits(batch@, *state, positions(chosen@), c as int),
{
    let i = chosen.len();
    let name = batch[i].name.as_str();
    let cand = &batch[i].candidates[c];
    let complaints = state.check_conflicts(name, &cand.manifest.conflicts);
    if complaints.len() > 0 {
        assert(strs(complaints@).len() > 0);
        return false;
    }
    assert(strs(complaints@).len() == 0);
    let mut j: usize = 0;
    let ghost p = positions(chosen@);
    while j < i
        invariant
            j <= i,
            i == chosen@.len(),
            i < batch@.len(),
            c < batch@[i as int].candidates@.len(),
            p == positions(chosen@),
            consistent(batch@, *state, p),
            name@ == batch@[i as int].name@,
            *cand == batch@[i as int].candidates@[c as int],
            forall|k: int| 0 <= k < j ==> !#[trigger] batch_conflict(batch@, i as int, c as int, k, p[k]),
        decreases i - j,
    {
        assert(p[j as int] == chosen@[j as int]);
        assert(0 <= p[j as int] < batch@[j as int].candidates@.len());
        let other = &batch[j].candidates[chosen[j]];
        if names_package(&cand.manifest.conflicts, batch[j].name.as_str()) || names_package(
            &other.manifest.conflicts,
            name,
        ) {
            assert(batch_conflict(batch@, i as int, c as int, j as int, p[j as int]));
            return false;
        }
        j = j + 1;
    }
    true
}

/// The search, as far as it concerns the packages for which nothing is chosen
/// yet: completes the choices, or leaves them as they are.
pub fn backtrack_solve(batch: &Vec<BatchPackage>, state: &State, chosen: &mut Vec<usize>, steps: &mut usize) -> (r: bool)
    requires
        state.wf(),
        consistent(batch@, *state, positions(old(chosen)@)),
    ensures
        ({
            let result = search(batch@, *state, positions(old(chosen)@), 0, *old(steps) as nat);
            &&& *final(steps) == result.1
            &&& r == (result.0 is Some)
            &&& r ==> positions(final(chosen)@) == result.0->0
            &&& !r ==> final(chosen)@ == old(chosen)@
        }),
    decreases *old(steps), batch@.len() - old(chosen)@.len(),
{
    let i = chosen.len();
    let ghost start = positions(chosen@);
    let ghost all = search(batch@, *state, start, 0, *steps as nat);
    if i >= batch.len() {
        return true;
    }
    let mut c: usize = 0;
    while c < batch[i].candidates.len()
        invariant
            state.wf(),
            i == chosen@.len(),
            i < batch@.len(),
            chosen@ == old(chosen)@,
            start == positions(old(chosen)@),
            consistent(batch@, *state, start),
            c <= batch@[i as int].candidates@.len(),
            *steps <= *old(steps),
            all == search(batch@, *state, start, 0, *old(steps) as nat),
            all == search(batch@, *state, start, c as int, *steps as nat),
        decreases batch@[i as int].candidates@.len() - c,
    {
        if *steps == 0 {
            return false;
        }
        *steps = *steps - 1;
        if check_fit(batch, state, chosen, c) {
            proof {
                consistent_push(batch@, *state, start, c as int);
                assert(positions(chosen@.push(c)) =~= start.push(c as int));
                search_uses_steps(batch@, *state, start.push(c as int), 0, *steps as nat);
            }
            chosen.push(c);
            if backtrack_solve(batch, state, chosen, steps) {
                return true;
            }
            chosen.pop();
            assert(chosen@ =~= old(chosen)@);
        }
        c = c + 1;
    }
    false
}

/// The versions of a package that were tried, as text.
pub open spec fn tried(p: BatchPackage) -> Seq<char> {
    "  "@ + p.name@ + " — tried: "@ + join_with(version_texts(p.candidates@), ", "@)
}

/// The versions of candidates.
pub open spec fn version_texts(c: Seq<Candidate>) -> Seq<Seq<char>> {
    c.map_values(|x: Candidate| x.version@)
}

/// What was tried for each package.
pub open spec fn all_tried(b: Seq<BatchPackage>) -> Seq<Seq<char>> {
    b.map_values(|p: BatchPackage| tried(p))
}

/// The text for a batch for which no versions were found.
pub open spec fn no_solution_message(b: Seq<BatchPackage>) -> Seq<char> {
    "Could not find a conflict-free combination of versions for this batch:\n"@ + join_with(
        all_tried(b),
        "\n"@,
    ) + "\nTry installing these one at a time, or pin exact versions with 'pkg@version'."@
}

fn tried_text(p: &BatchPackage) -> (r: String)
    ensures
        r@ == tried(*p),
{
    let mut versions: Vec<String> = Vec::new();
    let mut i: usize = 0;
    let ghost all = version_texts(p.candidates@);
    assert(strs(versions@) =~= all.take(0));
    while i < p.candidates.len()
        invariant
            i <= p.candidates@.len(),
            all == version_texts(p.candidates@),
            strs(versions@) == all.take(i as int),
        decreases p.candidates@.len() - i,
    {
        let v = p.candidates[i].version.clone();
        proof {
            assert(all.take(i + 1) =~= all.take(i as int) + seq![v@]);
        }
        push_text(&mut versions, v);
        i = i + 1;
    }
    assert(all.take(all.len() as int) =~= all);
    let mut s = "  ".to_owned();
    s.append(p.name.as_str());
    s.append(" — tried: ");
    let j = join_strings(&versions, ", ");
    s.append(j.as_str());
    s
}

/// Chooses a version for each package of a batch, as a position among its
/// candidates. Fails where the search does, within its number of steps.
pub fn solve_batch_versions(batch: &Vec<BatchPackage>, state: &State) -> (r: Result<Vec<usize>, String>)
    requires
        state.wf(),
    ensures
        match r {
            Ok(chosen) => {
                &&& search(batch@, *state, Seq::empty(), 0, MAX_SEARCH_STEPS as nat).0 == Some(
                    positions(chosen@),
                )
                &&& solves(batch@, *state, positions(chosen@))
                &&& chosen@.len() == batch@.len()
                &&& forall|i: int|
                    0 <= i < chosen@.len() ==> (#[trigger] chosen@[i]) < batch@[i].candidates@.len()
                &&& forall|i: int, j: int, k: int|
                    0 <= i < batch@.len() && 0 <= j < batch@.len() && i != j && 0 <= k
                        < batch@[i].candidates@[chosen@[i] as int].manifest.conflicts@.len()
                        ==> pkg_ver(
                        (#[trigger] batch@[i].candidates@[chosen@[i] as int].manifest.conflicts@[k])@,
                    ).0 != (#[trigger] batch@[j]).name@
                &&& forall|i: int, k: int|
                    0 <= i < batch@.len() && 0 <= k
                        < batch@[i].candidates@[chosen@[i] as int].manifest.conflicts@.len()
                        ==> !state.packages.has_package(
                        pkg_ver(
                            (#[trigger] batch@[i].candidates@[chosen@[i] as int].manifest.conflicts@[k])@,
                        ).0,
                    )
                &&& forall|i: int, key: (Seq<char>, Seq<char>), d: Seq<char>|
                    0 <= i < batch@.len() && state.packages@.dom().contains(key)
                        && #[trigger] state.packages@[key].conflicts_with.contains(d)
                        ==> pkg_ver(d).0 != (#[trigger] batch@[i]).name@
            },
            Err(m) => search(batch@, *state, Seq::empty(), 0, MAX_SEARCH_STEPS as nat).0 is None && m@
                == no_solution_message(batch@),
        },
{
    let mut chosen: Vec<usize> = Vec::new();
    let mut steps: usize = MAX_SEARCH_STEPS;
    assert(positions(chosen@) =~= Seq::<int>::empty());
    assert(consistent(batch@, *state, Seq::<int>::empty()));
    if backtrack_solve(batch, state, &mut chosen, &mut steps) {
        proof {
            search_is_sound(batch@, *state, Seq::empty(), 0, MAX_SEARCH_STEPS as nat);
            let p = positions(chosen@);
            solution_has_no_conflicts(batch@, *state, p);
            assert forall|i: int| 0 <= i < chosen@.len() implies (#[trigger] chosen@[i])
                < batch@[i].candidates@.len() by {
                assert(p[i] == chosen@[i]);
            }
            assert forall|i: int, j: int, k: int|
                0 <= i < batch@.len() && 0 <= j < batch@.len() && i != j && 0 <= k
                    < batch@[i].candidates@[chosen@[i] as int].manifest.conflicts@.len() implies pkg_ver(
                (#[trigger] batch@[i].candidates@[chosen@[i] as int].manifest.conflicts@[k])@,
            ).0 != (#[trigger] batch@[j]).name@ by {
                assert(p[i] == chosen@[i]);
                assert(pkg_ver(batch@[i].candidates@[p[i]].manifest.conflicts@[k]@).0 != batch@[j].name@);
            }
            assert forall|i: int, k: int|
                0 <= i < batch@.len() && 0 <= k
                    < batch@[i].candidates@[chosen@[i] as int].manifest.conflicts@.len() implies !state.packages.has_package(
                pkg_ver(
                    (#[trigger] batch@[i].candidates@[chosen@[i] as int].manifest.conflicts@[k])@,
                ).0,
            ) by {
                assert(p[i] == chosen@[i]);
                assert(!state.packages.has_package(
                    pkg_ver(batch@[i].candidates@[p[i]].manifest.conflicts@[k]@).0,
                ));
            }
        }
        return Ok(chosen);
    }
    let mut details: Vec<String> = Vec::new();
    let mut i: usize = 0;
    let ghost all = all_tried(batch@);
    assert(strs(details@) =~= all.take(0));
    while i < batch.len()
        invariant
            i <= batch@.len(),
            all == all_tried(batch@),
            strs(details@) == all.take(i as int),
        decreases batch@.len() - i,
    {
        let t = tried_text(&batch[i]);
        proof {
            assert(all[i as int] == t@);
            assert(all.take(i + 1) =~= all.take(i as int) + seq![t@]);
        }
        push_text(&mut details, t);
        i = i + 1;
    }
    assert(all.take(all.len() as int) =~= all);
    let mut m = "Could not find a conflict-free combination of versions for this batch:\n".to_owned();
    let j = join_strings(&details, "\n");
    m.append(j.as_str());
    m.append("\nTry installing these one at a time, or pin exact versions with 'pkg@version'.");
    Err(m)
}

/// Whether two candidates conflict does not depend on which is named first.
pub proof fn conflicts_are_mutual(b: Seq<BatchPackage>, i: int, c: int, j: int, d: int)
    ensures
        batch_conflict(b, i, c, j, d) == batch_conflict(b, j, d, i, c),
{
}

/// Two candidates conflict exactly where a conflict that one of them declares has
/// the other's package as its package.
pub proof fn conflict_is_declared(b: Seq<BatchPackage>, i: int, c: int, j: int, d: int)
    ensures
        batch_conflict(b, i, c, j, d) <==> ((exists|k: int|
            0 <= k < b[i].candidates@[c].manifest.conflicts@.len() && pkg_ver(
                (#[trigger] b[i].candidates@[c].manifest.conflicts@[k])@,
            ).0 == b[j].name@) || (exists|k: int|
            0 <= k < b[j].candidates@[d].manifest.conflicts@.len() && pkg_ver(
                (#[trigger] b[j].candidates@[d].manifest.conflicts@[k])@,
            ).0 == b[i].name@)),
{
    let p = b[i].candidates@[c].manifest.conflicts@;
    let q = b[j].candidates@[d].manifest.conflicts@;
    if exists|k: int| 0 <= k < p.len() && pkg_ver((#[trigger] p[k])@).0 == b[j].name@ {
        let k = choose|k: int| 0 <= k < p.len() && pkg_ver((#[trigger] p[k])@).0 == b[j].name@;
        assert(pkg_ver(declared(b, i, c)[k]).0 == b[j].name@);
    }
    if exists|k: int| 0 <= k < q.len() && pkg_ver((#[trigger] q[k])@).0 == b[i].name@ {
        let k = choose|k: int| 0 <= k < q.len() && pkg_ver((#[trigger] q[k])@).0 == b[i].name@;
        assert(pkg_ver(declared(b, j, d)[k]).0 == b[i].name@);
    }
    if names(declared(b, i, c), b[j].name@) {
        let s = declared(b, i, c);
        let k = choose|k: int| 0 <= k < s.len() && pkg_ver(#[trigger] s[k]).0 == b[j].name@;
        assert(pkg_ver(p[k]@).0 == b[j].name@);
    }
    if names(declared(b, j, d), b[i].name@) {
        let s = declared(b, j, d);
        let k = choose|k: int| 0 <= k < s.len() && pkg_ver(#[trigger] s[k]).0 == b[i].name@;
        assert(pkg_ver(q[k]@).0 == b[i].name@);
    }
}

/// Whether choices name a candidate for every package, no chosen candidate declares
/// a conflict with another package of the batch or with an installed one, and no
/// installed version declares one with a package of the batch.
pub open spec fn conflict_free(b: Seq<BatchPackage>, state: State, chosen: Seq<int>) -> bool {
    &&& chosen.len() == b.len()
    &&& forall|i: int| 0 <= i < b.len() ==> 0 <= #[trigger] chosen[i] < b[i].candidates@.len()
    &&& forall|i: int, j: int, k: int|
        0 <= i < b.len() && 0 <= j < b.len() && i != j && 0 <= k
            < b[i].candidates@[chosen[i]].manifest.conflicts@.len() ==> pkg_ver(
            (#[trigger] b[i].candidates@[chosen[i]].manifest.conflicts@[k])@,
        ).0 != (#[trigger] b[j]).name@
    &&& forall|i: int, k: int|
        0 <= i < b.len() && 0 <= k < b[i].candidates@[chosen[i]].manifest.conflicts@.len()
            ==> !state.packages.has_package(
            pkg_ver((#[trigger] b[i].candidates@[chosen[i]].manifest.conflicts@[k])@).0,
        )
    &&& forall|i: int, key: (Seq<char>, Seq<char>), d: Seq<char>|
        0 <= i < b.len() && state.packages@.dom().contains(key)
            && #[trigger] state.packages@[key].conflicts_with.contains(d) ==> pkg_ver(d).0
            != (#[trigger] b[i]).name@
}

proof fn installed_conflict_is_declared(b: Seq<BatchPackage>, state: State, i: int, c: int)
    requires
        state.wf(),
    ensures
        installed_conflict(b, state, i, c) <==> ((exists|k: int|
            0 <= k < b[i].candidates@[c].manifest.conflicts@.len() && state.packages.has_package(
                pkg_ver((#[trigger] b[i].candidates@[c].manifest.conflicts@[k])@).0,
            )) || (exists|key: (Seq<char>, Seq<char>), d: Seq<char>|
            state.packages@.dom().contains(key)
                && #[trigger] state.packages@[key].conflicts_with.contains(d) && pkg_ver(d).0
                == b[i].name@)),
{
    let name = b[i].name@;
    let s = declared(b, i, c);
    let p = b[i].candidates@[c].manifest.conflicts@;
    no_complaint_means_no_conflict(state.packages, name, s);
    if exists|k: int| 0 <= k < p.len() && state.packages.has_package(pkg_ver((#[trigger] p[k])@).0) {
        let k = choose|k: int|
            0 <= k < p.len() && state.packages.has_package(pkg_ver((#[trigger] p[k])@).0);
        assert(state.packages.has_package(pkg_ver(s[k]).0));
    }
    if exists|key: (Seq<char>, Seq<char>), d: Seq<char>|
        state.packages@.dom().contains(key) && #[trigger] state.packages@[key].conflicts_with.contains(d)
            && pkg_ver(d).0 == name {
        let (key, d) = choose|key: (Seq<char>, Seq<char>), d: Seq<char>|
            state.packages@.dom().contains(key)
                && #[trigger] state.packages@[key].conflicts_with.contains(d) && pkg_ver(d).0 == name;
        assert(depends_on_package(state.packages@[key].conflicts_with, name));
    }
    if installed_conflict(b, state, i, c) {
        if exists|k: int| 0 <= k < s.len() && state.packages.has_package((#[trigger] pkg_ver(s[k])).0) {
            let k = choose|k: int|
                0 <= k < s.len() && state.packages.has_package((#[trigger] pkg_ver(s[k])).0);
            assert(state.packages.has_package(pkg_ver(p[k]@).0));
        } else {
            let key = choose|key: (Seq<char>, Seq<char>)| #[trigger]
                state.packages@.dom().contains(key) && depends_on_package(
                    state.packages@[key].conflicts_with,
                    name,
                );
            let d = choose|d: Seq<char>|
                state.packages@[key].conflicts_with.contains(d) && (#[trigger] pkg_ver(d)).0 == name;
            assert(state.packages@[key].conflicts_with.contains(d));
        }
    }
}

/// The choices that the search accepts are exactly those that are free of declared
/// conflicts.
pub proof fn solution_has_no_conflicts(b: Seq<BatchPackage>, state: State, chosen: Seq<int>)
    requires
        state.wf(),
    ensures
        solves(b, state, chosen) <==> conflict_free(b, state, chosen),
{
    if solves(b, state, chosen) {
        assert forall|i: int, j: int, k: int|
            0 <= i < b.len() && 0 <= j < b.len() && i != j && 0 <= k
                < b[i].candidates@[chosen[i]].manifest.conflicts@.len() implies pkg_ver(
            (#[trigger] b[i].candidates@[chosen[i]].manifest.conflicts@[k])@,
        ).0 != (#[trigger] b[j]).name@ by {
            if j < i {
                assert(!batch_conflict(b, i, chosen[i], j, chosen[j]));
            } else {
                assert(!batch_conflict(b, j, chosen[j], i, chosen[i]));
                conflicts_are_mutual(b, i, chosen[i], j, chosen[j]);
            }
            conflict_is_declared(b, i, chosen[i], j, chosen[j]);
        }
        assert forall|i: int, k: int|
            0 <= i < b.len() && 0 <= k < b[i].candidates@[chosen[i]].manifest.conflicts@.len() implies !state.packages.has_package(
            pkg_ver((#[trigger] b[i].candidates@[chosen[i]].manifest.conflicts@[k])@).0,
        ) by {
            assert(!installed_conflict(b, state, i, chosen[i]));
            installed_conflict_is_declared(b, state, i, chosen[i]);
        }
        assert forall|i: int, key: (Seq<char>, Seq<char>), d: Seq<char>|
            0 <= i < b.len() && state.packages@.dom().contains(key)
                && #[trigger] state.packages@[key].conflicts_with.contains(d) implies pkg_ver(d).0
            != (#[trigger] b[i]).name@ by {
            assert(!installed_conflict(b, state, i, chosen[i]));
            installed_conflict_is_declared(b, state, i, chosen[i]);
        }
    }
    if conflict_free(b, state, chosen) {
        assert forall|i: int| 0 <= i < chosen.len() implies !#[trigger] installed_conflict(b, state, i, chosen[i]) by {
            installed_conflict_is_declared(b, state, i, chosen[i]);
            assert(b[i].name@ == b[i].name@);
        }
        assert forall|i: int, j: int| 0 <= j < i < chosen.len() implies !#[trigger] batch_conflict(
            b,
            i,
            chosen[i],
            j,
            chosen[j],
        ) by {
            conflict_is_declared(b, i, chosen[i], j, chosen[j]);
            assert(b[i].name@ == b[i].name@ && b[j].name@ == b[j].name@);
        }
    }
}

/// No choice that is free of conflicts takes an earlier candidate, at the first
/// package at which it differs, than the one that is found.
pub proof fn no_earlier_choice(b: Seq<BatchPackage>, state: State, found: Seq<int>, other: Seq<int>, i: int)
    requires
        state.wf(),
        search(b, state, Seq::empty(), 0, MAX_SEARCH_STEPS as nat).0 == Some(found),
        conflict_free(b, state, other),
        0 <= i < b.len(),
        forall|j: int| 0 <= j < i ==> found[j] == #[trigger] other[j],
    ensures
        found[i] <= other[i],
{
    solution_has_no_conflicts(b, state, other);
    solution_is_first(b, state, other);
    assert(consistent(b, state, Seq::<int>::empty()));
    search_is_sound(b, state, Seq::empty(), 0, MAX_SEARCH_STEPS as nat);
    first_at(found, other, 0, i);
}

proof fn first_at(a: Seq<int>, b: Seq<int>, from: int, i: int)
    requires
        comes_first(a, b, from),
        0 <= from <= i < a.len(),
        i < b.len(),
        forall|j: int| from <= j < i ==> a[j] == #[trigger] b[j],
    ensures
        a[i] <= b[i],
    decreases i - from,
{
    if from < i {
        assert(a[from] == b[from]);
        first_at(a, b, from + 1, i);
    }
}

proof fn first_candidates_found(b: Seq<BatchPackage>, state: State, n: int, steps: nat)
    requires
        0 <= n <= b.len(),
        steps >= b.len() - n,
        solves(b, state, Seq::new(b.len(), |i: int| 0int)),
    ensures
        search(b, state, Seq::new(n as nat, |i: int| 0int), 0, steps).0 == Some(
            Seq::new(b.len(), |i: int| 0int),
        ),
    decreases b.len() - n,
{
    let zeros = Seq::new(b.len(), |i: int| 0int);
    let now = Seq::new(n as nat, |i: int| 0int);
    assert(zeros.take(n) =~= now);
    if n < b.len() {
        assert(0 <= zeros[n] < b[n].candidates@.len());
        prefix_consistent(b, state, zeros, n);
        prefix_consistent(b, state, zeros, n + 1);
        assert(zeros.take(n + 1) =~= now.push(0));
        consistent_push(b, state, now, 0);
        first_candidates_found(b, state, n + 1, (steps - 1) as nat);
        assert(Seq::new((n + 1) as nat, |i: int| 0int) =~= now.push(0));
    } else {
        assert(now =~= zeros);
    }
}

/// Where the first candidates of all packages do not conflict, they are chosen, for
/// batches of up to two thousand packages.
pub proof fn newest_are_taken_where_they_fit(b: Seq<BatchPackage>, state: State)
    requires
        state.wf(),
        b.len() <= 2000,
        conflict_free(b, state, Seq::new(b.len(), |i: int| 0int)),
    ensures
        search(b, state, Seq::empty(), 0, MAX_SEARCH_STEPS as nat).0 == Some(
            Seq::new(b.len(), |i: int| 0int),
        ),
{
    solution_has_no_conflicts(b, state, Seq::new(b.len(), |i: int| 0int));
    first_candidates_found(b, state, 0, MAX_SEARCH_STEPS as nat);
    assert(Seq::new(0, |i: int| 0int) =~= Seq::<int>::empty());
}

/// A batch for which a consistent choice exists is solved by the first one, in
/// the order in which candidates are tried, unless the steps run out.
pub proof fn solution_is_first(b: Seq<BatchPackage>, state: State, full: Seq<int>)
    requires
        solves(b, state, full),
    ensures
        match search(b, state, Seq::empty(), 0, MAX_SEARCH_STEPS as nat) {
            (Some(s), _) => comes_first(s, full, 0),
            (None, left) => left == 0,
        },
{
    assert(consistent(b, state, Seq::<int>::empty()));
    assert(full.take(0) =~= Seq::<int>::empty());
    search_is_complete(b, state, Seq::empty(), 0, MAX_SEARCH_STEPS as nat, full);
}

} // verus!
