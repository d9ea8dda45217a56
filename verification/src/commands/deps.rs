//! Showing what a package depends on, as a tree.
use vstd::prelude::*;

use crate::commands::run::{run_parts, split_run_spec, what_is_run};
use crate::config::{map_entry, map_len, map_pairs};
use crate::repo::{PackageVersion, RepoPackage};
use crate::state::{join_pkg_ver, pkg_key};
use crate::text::{cat, cat3, cat5, push_text, same, spaces, strs};
use crate::utils::{meets, satisfies, what_requirements_mean};

verus! {

// ---------------------------------------------------------------------------
// The index
// ---------------------------------------------------------------------------

/// The position of the first package with a name, or the number of packages.
pub open spec fn package_at(index: Seq<RepoPackage>, name: Seq<char>) -> int
    decreases index.len(),
{
    if index.len() == 0 || index[0].name@ == name {
        0
    } else {
        1 + package_at(index.drop_first(), name)
    }
}

/// The position of the first version that meets a requirement, or the number of
/// versions.
pub open spec fn meeting_at(v: Seq<PackageVersion>, req: Seq<char>) -> int
    decreases v.len(),
{
    if v.len() == 0 || meets(v[0].version@, req) {
        0
    } else {
        1 + meeting_at(v.drop_first(), req)
    }
}

/// The position of the first entry of a version, or the number of entries.
pub open spec fn version_at(v: Seq<PackageVersion>, version: Seq<char>) -> int
    decreases v.len(),
{
    if v.len() == 0 || v[0].version@ == version {
        0
    } else {
        1 + version_at(v.drop_first(), version)
    }
}

fn find_package(index: &Vec<RepoPackage>, name: &str) -> (r: usize)
    ensures
        r == package_at(index@, name@),
        r <= index@.len(),
        r < index@.len() ==> index@[r as int].name@ == name@,
{
    let mut i: usize = 0;
    assert(index@.skip(0) =~= index@);
    while i < index.len()
        invariant
            i <= index@.len(),
            package_at(index@, name@) == i + package_at(index@.skip(i as int), name@),
        decreases index@.len() - i,
    {
        assert(index@.skip(i as int)[0] == index@[i as int]);
        assert(index@.skip(i as int).drop_first() =~= index@.skip(i + 1));
        if same(index[i].name.as_str(), name) {
            return i;
        }
        i = i + 1;
    }
    i
}

fn find_meeting(v: &Vec<PackageVersion>, req: &str) -> (r: usize)
    ensures
        r == meeting_at(v@, req@),
        r <= v@.len(),
{
    let mut i: usize = 0;
    assert(v@.skip(0) =~= v@);
    while i < v.len()
        invariant
            i <= v@.len(),
            meeting_at(v@, req@) == i + meeting_at(v@.skip(i as int), req@),
        decreases v@.len() - i,
    {
        assert(v@.skip(i as int)[0] == v@[i as int]);
        assert(v@.skip(i as int).drop_first() =~= v@.skip(i + 1));
        if satisfies(v[i].version.as_str(), req) {
            return i;
        }
        i = i + 1;
    }
    i
}

fn find_version(v: &Vec<PackageVersion>, version: &str) -> (r: usize)
    ensures
        r == version_at(v@, version@),
        r <= v@.len(),
{
    let mut i: usize = 0;
    assert(v@.skip(0) =~= v@);
    while i < v.len()
        invariant
            i <= v@.len(),
            version_at(v@, version@) == i + version_at(v@.skip(i as int), version@),
        decreases v@.len() - i,
    {
        assert(v@.skip(i as int)[0] == v@[i as int]);
        assert(v@.skip(i as int).drop_first() =~= v@.skip(i + 1));
        if same(v[i].version.as_str(), version) {
            return i;
        }
        i = i + 1;
    }
    i
}

// ---------------------------------------------------------------------------
// The tree
// ---------------------------------------------------------------------------

/// A node that is still to be shown: a package, a version, and how deep it is.
pub type Node = (Seq<char>, Seq<char>, int);

/// What is still to be shown, what was shown, and the lines so far.
#[verifier::ext_equal]
pub struct Walk {
    pub stack: Seq<Node>,
    pub visited: Set<(Seq<char>, Seq<char>)>,
    pub output: Seq<Seq<char>>,
}

/// The line of a node.
pub open spec fn node_line(node: Node) -> Seq<char> {
    if node.2 == 0 {
        pkg_key(node.0, node.1)
    } else {
        spaces(2 * node.2) + "└─ "@ + pkg_key(node.0, node.1)
    }
}

/// What a dependency adds: a node that is still to be shown where a version of
/// it will do, or else a line.
pub open spec fn with_dep(index: Seq<RepoPackage>, w: Walk, depth: int, dep: Seq<char>, req: Seq<char>) -> Walk {
    let i = package_at(index, dep);
    if i >= index.len() {
        Walk {
            output: w.output + seq![spaces(2 * depth) + "└─ "@ + dep + " (not in index)"@],
            ..w
        }
    } else {
        let v = index[i].versions@;
        let j = meeting_at(v, req);
        if j >= v.len() {
            Walk {
                output: w.output + seq![
                    spaces(2 * depth) + "└─ "@ + pkg_key(dep, req) + " (not found)"@,
                ],
                ..w
            }
        } else {
            Walk { stack: w.stack + seq![(dep, v[j].version@, depth)], ..w }
        }
    }
}

/// What dependencies add, one after the other.
pub open spec fn with_deps(index: Seq<RepoPackage>, w: Walk, depth: int, deps: Seq<(Seq<char>, Seq<char>)>) -> Walk
    decreases deps.len(),
{
    if deps.len() == 0 {
        w
    } else {
        with_dep(
            index,
            with_deps(index, w, depth, deps.drop_last()),
            depth,
            deps.last().0,
            deps.last().1,
        )
    }
}

/// The dependencies of a version, as the index gives them.
pub open spec fn deps_of(index: Seq<RepoPackage>, name: Seq<char>, version: Seq<char>) -> Seq<(Seq<char>, Seq<char>)> {
    let i = package_at(index, name);
    if i >= index.len() {
        Seq::empty()
    } else {
        let v = index[i].versions@;
        let j = version_at(v, version);
        if j >= v.len() {
            Seq::empty()
        } else {
            map_pairs(v[j].manifest.deps)
        }
    }
}

/// One step: the node on top is shown, unless it was, and its dependencies are
/// added.
pub open spec fn step(index: Seq<RepoPackage>, w: Walk) -> Walk {
    if w.stack.len() == 0 {
        w
    } else {
        let node = w.stack.last();
        let below = Walk { stack: w.stack.drop_last(), ..w };
        if w.visited.contains((node.0, node.1)) {
            below
        } else {
            with_deps(
                index,
                Walk {
                    visited: w.visited.insert((node.0, node.1)),
                    output: w.output + seq![node_line(node)],
                    ..below
                },
                node.2 + 1,
                deps_of(index, node.0, node.1),
            )
        }
    }
}

/// So many steps.
pub open spec fn steps(index: Seq<RepoPackage>, w: Walk, n: nat) -> Walk
    decreases n,
{
    if n == 0 {
        w
    } else {
        step(index, steps(index, w, (n - 1) as nat))
    }
}

/// Before the first step.
pub open spec fn at_root(name: Seq<char>, version: Seq<char>) -> Walk {
    Walk { stack: seq![(name, version, 0)], visited: Set::empty(), output: Seq::empty() }
}

/// Whether some number of steps shows everything, in these lines.
pub open spec fn shows(index: Seq<RepoPackage>, w: Walk, output: Seq<Seq<char>>) -> bool {
    exists|n: nat| (#[trigger] steps(index, w, n)).stack.len() == 0 && steps(index, w, n).output == output
}

/// A node as it is kept.
pub struct NodeEntry {
    pub name: String,
    pub version: String,
    pub depth: usize,
}

spec fn nodes(v: Seq<NodeEntry>) -> Seq<Node> {
    v.map_values(|e: NodeEntry| (e.name@, e.version@, e.depth as int))
}

spec fn shown_pairs(v: Seq<(String, String)>) -> Set<(Seq<char>, Seq<char>)> {
    v.map_values(|p: (String, String)| (p.0@, p.1@)).to_set()
}

fn was_shown(v: &Vec<(String, String)>, name: &str, version: &str) -> (r: bool)
    ensures
        r == shown_pairs(v@).contains((name@, version@)),
{
    let ghost s = v@.map_values(|p: (String, String)| (p.0@, p.1@));
    let mut i: usize = 0;
    while i < v.len()
        invariant
            i <= v@.len(),
            s == v@.map_values(|p: (String, String)| (p.0@, p.1@)),
            forall|j: int| 0 <= j < i ==> #[trigger] s[j] != (name@, version@),
        decreases v@.len() - i,
    {
        if same(v[i].0.as_str(), name) && same(v[i].1.as_str(), version) {
            assert(s[i as int] == (name@, version@));
            assert(s.contains((name@, version@)));
            return true;
        }
        i = i + 1;
    }
    false
}

proof fn shown_pairs_push(v: Seq<(String, String)>, p: (String, String))
    ensures
        shown_pairs(v.push(p)) == shown_pairs(v).insert((p.0@, p.1@)),
{
    let f = |p: (String, String)| (p.0@, p.1@);
    let s = v.map_values(f);
    let t = v.push(p).map_values(f);
    assert(t =~= s.push((p.0@, p.1@)));
    assert forall|x: (Seq<char>, Seq<char>)| #[trigger] t.to_set().contains(x) == s.to_set().insert(
        (p.0@, p.1@),
    ).contains(x) by {
        if t.contains(x) {
            let i = choose|i: int| 0 <= i < t.len() && t[i] == x;
            if i < s.len() {
                assert(s[i] == x);
            }
        }
        if s.contains(x) {
            let i = choose|i: int| 0 <= i < s.len() && s[i] == x;
            assert(t[i] == x);
        }
        assert(t[s.len() as int] == (p.0@, p.1@));
    }
    assert(t.to_set() =~= s.to_set().insert((p.0@, p.1@)));
}

/// Every package and version of the index.
spec fn known(index: Seq<RepoPackage>) -> Set<(Seq<char>, Seq<char>)>
    decreases index.len(),
{
    if index.len() == 0 {
        Set::empty()
    } else {
        let p = index.last();
        known(index.drop_last()).union(
            p.versions@.map_values(|v: PackageVersion| (p.name@, v.version@)).to_set(),
        )
    }
}

proof fn known_holds(index: Seq<RepoPackage>, i: int, j: int)
    requires
        0 <= i < index.len(),
        0 <= j < index[i].versions@.len(),
    ensures
        known(index).contains((index[i].name@, index[i].versions@[j].version@)),
    decreases index.len(),
{
    if i == index.len() - 1 {
        let p = index.last();
        let s = p.versions@.map_values(|v: PackageVersion| (p.name@, v.version@));
        assert(s[j] == (p.name@, p.versions@[j].version@));
        assert(s.contains(s[j]));
    } else {
        known_holds(index.drop_last(), i, j);
    }
}

proof fn known_is_finite(index: Seq<RepoPackage>)
    ensures
        known(index).finite(),
    decreases index.len(),
{
    if index.len() > 0 {
        known_is_finite(index.drop_last());
        let p = index.last();
        let s = p.versions@.map_values(|v: PackageVersion| (p.name@, v.version@));
        vstd::seq_lib::seq_to_set_is_finite(s);
    }
}

/// Whether every node is of the index, and none is deeper than what was shown.
spec fn sound(index: Seq<RepoPackage>, stack: Seq<NodeEntry>, limit: int) -> bool {
    forall|k: int|
        0 <= k < stack.len() ==> (#[trigger] stack[k]).depth <= limit && known(index).contains(
            (stack[k].name@, stack[k].version@),
        )
}

fn make_indent(depth: usize) -> (r: String)
    ensures
        r@ == spaces(2 * depth as int),
{
    let mut out = String::new();
    let mut i: usize = 0;
    assert(out@ =~= spaces(0));
    while i < depth
        invariant
            i <= depth,
            out@ == spaces(2 * i as int),
        decreases depth - i,
    {
        out.push(' ');
        out.push(' ');
        assert(out@ =~= spaces(2 * (i + 1)));
        i = i + 1;
    }
    out
}

fn dep_line(depth: usize, text: &str, note: &str) -> (r: String)
    ensures
        r@ == spaces(2 * depth as int) + "└─ "@ + text@ + note@,
{
    let indent = make_indent(depth);
    let mut s = cat3(indent.as_str(), "└─ ", text);
    s.append(note);
    s
}

fn add_deps(
    index: &Vec<RepoPackage>,
    stack: &mut Vec<NodeEntry>,
    output: &mut Vec<String>,
    depth: usize,
    version: &PackageVersion,
    Ghost(limit): Ghost<int>,
    Ghost(visited): Ghost<Set<(Seq<char>, Seq<char>)>>,
)
    requires
        sound(index@, old(stack)@, limit),
        depth <= limit,
    ensures
        sound(index@, final(stack)@, limit),
        ({
            let w = with_deps(
                index@,
                (Walk { stack: nodes(old(stack)@), visited, output: strs(old(output)@) }),
                depth as int,
                map_pairs(version.manifest.deps),
            );
            nodes(final(stack)@) == w.stack && strs(final(output)@) == w.output && w.visited == visited
        }),
{
    let ghost start = Walk { stack: nodes(stack@), visited, output: strs(output@) };
    let ghost all = map_pairs(version.manifest.deps);
    let n = map_len(&version.manifest.deps);
    let mut k: usize = 0;
    assert(all.take(0) =~= Seq::<(Seq<char>, Seq<char>)>::empty());
    while k < n
        invariant
            k <= n,
            n == all.len(),
            all == map_pairs(version.manifest.deps),
            sound(index@, stack@, limit),
            depth <= limit,
            with_deps(index@, start, depth as int, all.take(k as int)) == (Walk {
                stack: nodes(stack@),
                visited,
                output: strs(output@),
            }),
        decreases n - k,
    {
        let (dep, req) = map_entry(&version.manifest.deps, k);
        proof {
            let longer = all.take(k + 1);
            assert(longer.drop_last() =~= all.take(k as int));
            assert(longer.last() == (dep@, req@));
        }
        let ghost before = nodes(stack@);
        let i = find_package(index, dep.as_str());
        if i >= index.len() {
            push_text(output, dep_line(depth, dep.as_str(), " (not in index)"));
        } else {
            let j = find_meeting(&index[i].versions, req.as_str());
            if j >= index[i].versions.len() {
                let key = join_pkg_ver(dep.as_str(), req.as_str());
                push_text(output, dep_line(depth, key.as_str(), " (not found)"));
            } else {
                let v = index[i].versions[j].version.clone();
                proof {
                    known_holds(index@, i as int, j as int);
                }
                stack.push(NodeEntry { name: dep.clone(), version: v, depth });
                assert(nodes(stack@) =~= before + seq![(dep@, v@, depth as int)]);
            }
        }
        assert(with_deps(index@, start, depth as int, all.take(k + 1)) =~= (Walk {
            stack: nodes(stack@),
            visited,
            output: strs(output@),
        }));
        k = k + 1;
    }
    assert(all.take(all.len() as int) =~= all);
}

/// The lines of the tree of a version of the `i`-th package.
#[verifier::rlimit(40)]
fn tree_lines(index: &Vec<RepoPackage>, i: usize, j: usize) -> (r: Vec<String>)
    requires
        i < index@.len(),
        j < index@[i as int].versions@.len(),
    ensures
        shows(
            index@,
            at_root(index@[i as int].name@, index@[i as int].versions@[j as int].version@),
            strs(r@),
        ),
{
    let mut stack: Vec<NodeEntry> = Vec::new();
    let mut visited: Vec<(String, String)> = Vec::new();
    let mut output: Vec<String> = Vec::new();
    let ghost root = at_root(
        index@[i as int].name@,
        index@[i as int].versions@[j as int].version@,
    );
    stack.push(
        NodeEntry {
            name: index[i].name.clone(),
            version: index[i].versions[j].version.clone(),
            depth: 0,
        },
    );
    let ghost all = known(index@);
    let ghost mut n: nat = 0;
    proof {
        known_is_finite(index@);
        known_holds(index@, i as int, j as int);
        assert(nodes(stack@) =~= root.stack);
        assert(shown_pairs(visited@) =~= root.visited);
        assert(strs(output@) =~= root.output);
        assert(all.difference(shown_pairs(visited@)) =~= all);
    }
    while stack.len() > 0
        invariant
            all == known(index@),
            all.finite(),
            all.difference(shown_pairs(visited@)).finite(),
            sound(index@, stack@, visited@.len() as int),
            steps(index@, root, n) == (Walk {
                stack: nodes(stack@),
                visited: shown_pairs(visited@),
                output: strs(output@),
            }),
        decreases all.difference(shown_pairs(visited@)).len(), stack@.len(),
    {
        let ghost before = steps(index@, root, n);
        let ghost old_stack = stack@;
        let node = stack[stack.len() - 1].name.clone();
        let version = stack[stack.len() - 1].version.clone();
        let depth = stack[stack.len() - 1].depth;
        proof {
            assert(before.stack.last() == (node@, version@, depth as int));
            n = n + 1;
            assert(steps(index@, root, n) == step(index@, before));
            assert(all.contains((old_stack.last().name@, old_stack.last().version@)));
        }
        stack.pop();
        assert(nodes(stack@) =~= before.stack.drop_last());
        let ghost pair = (node@, version@);
        if !was_shown(&visited, node.as_str(), version.as_str()) {
            let key = join_pkg_ver(node.as_str(), version.as_str());
            let ghost shown = shown_pairs(visited@);
            if depth == 0 {
                push_text(&mut output, key);
            } else {
                let line = dep_line(depth, key.as_str(), "");
                proof {
                    reveal_strlit("");
                    assert(line@ =~= node_line((node@, version@, depth as int)));
                }
                push_text(&mut output, line);
            }
            let ghost pushed = visited@.push((node, version));
            proof {
                shown_pairs_push(visited@, (node, version));
                let left = all.difference(shown);
                assert(left.contains(pair));
                assert(all.difference(shown.insert(pair)) =~= left.remove(pair));
                assert(left.remove(pair).len() < left.len());
            }
            let name = node.clone();
            let at = version.clone();
            visited.push((node, version));
            assert(visited@ =~= pushed);
            assert(depth < visited.len());
            let deeper = depth + 1;
            let a = find_package(index, name.as_str());
            if a < index.len() {
                let b = find_version(&index[a].versions, at.as_str());
                if b < index[a].versions.len() {
                    add_deps(index, &mut stack, &mut output, deeper, &index[a].versions[b], Ghost(visited@.len() as int), Ghost(shown.insert(pair)));
                }
            }
        }
        assert(steps(index@, root, n) =~= (Walk {
            stack: nodes(stack@),
            visited: shown_pairs(visited@),
            output: strs(output@),
        }));
    }
    proof {
        assert(nodes(stack@).len() == 0);
        assert(steps(index@, root, n).stack.len() == 0);
    }
    output
}

// ---------------------------------------------------------------------------
// The command
// ---------------------------------------------------------------------------

/// What a package depends on.
#[derive(Debug)]
pub struct DependencyTree {
    pub package: String,
    pub version: String,
    pub lines: Vec<String>,
}

/// Why there is nothing to show.
#[derive(Debug)]
pub enum DepsProblem {
    /// The package is not in the index.
    NotFound(String),
    /// No version of it is known.
    NoVersions(String),
    /// No version of it is the one that is asked for.
    NoMatch(String),
}

/// The requirement that a specification makes: the version that it names, or
/// none.
pub open spec fn requirement(spec: Seq<char>) -> Option<Seq<char>> {
    match run_parts(spec).1 {
        Some(v) => Some("="@ + v),
        None => None,
    }
}

/// The position of the version that is shown: the first that meets the
/// requirement, or else the last.
pub open spec fn shown_version(v: Seq<PackageVersion>, spec: Seq<char>) -> int {
    match requirement(spec) {
        Some(req) => meeting_at(v, req),
        None => v.len() - 1,
    }
}

/// Shows what a package depends on, given what the index knows of packages.
pub fn dependency_tree(index: &Vec<RepoPackage>, spec: &str) -> (r: Result<DependencyTree, DepsProblem>)
    ensures
        ({
            let name = run_parts(spec@).0;
            let i = package_at(index@, name);
            if i >= index@.len() {
                r matches Err(DepsProblem::NotFound(m)) && m@ == "Package '"@ + name
                    + "' not found. Run hpm refresh first."@
            } else {
                let v = index@[i].versions@;
                let j = shown_version(v, spec@);
                if v.len() == 0 {
                    r matches Err(DepsProblem::NoVersions(m)) && m@ == "No versions found for '"@ + name
                        + "'. Run hpm install to clone repo."@
                } else if j >= v.len() {
                    r matches Err(DepsProblem::NoMatch(m)) && m@ == "No version of '"@ + name
                        + "' matches '"@ + requirement(spec@)->0 + "'"@
                } else {
                    r matches Ok(t) && t.package@ == name && t.version@ == v[j].version@ && shows(
                        index@,
                        at_root(name, v[j].version@),
                        strs(t.lines@),
                    )
                }
            }
        }),
{
    let (name, version) = split_run_spec(spec);
    let i = find_package(index, name.as_str());
    if i >= index.len() {
        return Err(
            DepsProblem::NotFound(cat3("Package '", name.as_str(), "' not found. Run hpm refresh first.")),
        );
    }
    let count = index[i].versions.len();
    if count == 0 {
        return Err(
            DepsProblem::NoVersions(
                cat3("No versions found for '", name.as_str(), "'. Run hpm install to clone repo."),
            ),
        );
    }
    let j = match version {
        Some(v) => {
            let req = cat("=", v.as_str());
            let j = find_meeting(&index[i].versions, req.as_str());
            if j >= count {
                return Err(
                    DepsProblem::NoMatch(
                        cat5("No version of '", name.as_str(), "' matches '", req.as_str(), "'"),
                    ),
                );
            }
            j
        },
        None => count - 1,
    };
    let lines = tree_lines(index, i, j);
    Ok(DependencyTree { package: name, version: index[i].versions[j].version.clone(), lines })
}

// ---------------------------------------------------------------------------
// Laws
// ---------------------------------------------------------------------------

proof fn steps_stay(index: Seq<RepoPackage>, w: Walk, n: nat, m: nat)
    requires
        steps(index, w, n).stack.len() == 0,
        n <= m,
    ensures
        steps(index, w, m) == steps(index, w, n),
    decreases m,
{
    if m > n {
        steps_stay(index, w, n, (m - 1) as nat);
    }
}

/// There is only one way to show everything.
pub proof fn tree_is_unique(index: Seq<RepoPackage>, w: Walk, a: Seq<Seq<char>>, b: Seq<Seq<char>>)
    requires
        shows(index, w, a),
        shows(index, w, b),
    ensures
        a == b,
{
    let n = choose|n: nat| (#[trigger] steps(index, w, n)).stack.len() == 0 && steps(index, w, n).output == a;
    let m = choose|m: nat| (#[trigger] steps(index, w, m)).stack.len() == 0 && steps(index, w, m).output == b;
    if n <= m {
        steps_stay(index, w, n, m);
    } else {
        steps_stay(index, w, m, n);
    }
}

/// Whether a position is that of the first package with a name.
pub open spec fn first_named(index: Seq<RepoPackage>, name: Seq<char>, i: int) -> bool {
    &&& 0 <= i < index.len()
    &&& index[i].name@ == name
    &&& forall|a: int| 0 <= a < i ==> (#[trigger] index[a]).name@ != name
}

/// Whether a version of a package, as the index has it first, names another package
/// among its dependencies, with a requirement.
pub open spec fn needs(
    index: Seq<RepoPackage>,
    p: (Seq<char>, Seq<char>),
    dep: Seq<char>,
    req: Seq<char>,
) -> bool {
    exists|i: int, j: int|
        #![trigger index[i].versions@[j]]
        first_named(index, p.0, i) && 0 <= j < index[i].versions@.len()
            && index[i].versions@[j].version@ == p.1 && (forall|a: int|
            0 <= a < j ==> (#[trigger] index[i].versions@[a]).version@ != p.1) && map_pairs(
            index[i].versions@[j].manifest.deps,
        ).contains((dep, req))
}

/// Whether a version is the first of a package, as the index has it first, that meets
/// a requirement.
pub open spec fn picked(
    index: Seq<RepoPackage>,
    dep: Seq<char>,
    req: Seq<char>,
    version: Seq<char>,
) -> bool {
    exists|i: int, j: int|
        #![trigger index[i].versions@[j]]
        first_named(index, dep, i) && 0 <= j < index[i].versions@.len() && meets(
            index[i].versions@[j].version@,
            req,
        ) && (forall|a: int|
            0 <= a < j ==> !meets((#[trigger] index[i].versions@[a]).version@, req))
            && index[i].versions@[j].version@ == version
}

/// Whether the index has no package of a name.
pub open spec fn is_unknown(index: Seq<RepoPackage>, dep: Seq<char>) -> bool {
    forall|i: int| 0 <= i < index.len() ==> (#[trigger] index[i]).name@ != dep
}

/// Whether the index has a package, and no version of it, as it has it first, meets a
/// requirement.
pub open spec fn is_unmet(index: Seq<RepoPackage>, dep: Seq<char>, req: Seq<char>) -> bool {
    exists|i: int| #[trigger]
        first_named(index, dep, i) && forall|j: int|
            0 <= j < index[i].versions@.len() ==> !meets((#[trigger] index[i].versions@[j]).version@, req)
}

/// Whether a version of a package can be come to from another by `d` dependencies,
/// each to the first version that meets it.
pub open spec fn reached(
    index: Seq<RepoPackage>,
    root: (Seq<char>, Seq<char>),
    p: (Seq<char>, Seq<char>),
    d: nat,
) -> bool
    decreases d,
{
    if d == 0 {
        p == root
    } else {
        exists|q: (Seq<char>, Seq<char>), req: Seq<char>|
            #![trigger needs(index, q, p.0, req)]
            reached(index, root, q, (d - 1) as nat) && needs(index, q, p.0, req) && picked(
                index,
                p.0,
                req,
                p.1,
            )
    }
}

/// The line of a version of a package at a depth.
pub open spec fn line_at(p: (Seq<char>, Seq<char>), d: nat) -> Seq<char> {
    if d == 0 {
        p.0 + "@"@ + p.1
    } else {
        spaces(2 * d as int) + "└─ "@ + (p.0 + "@"@ + p.1)
    }
}

/// The line of a dependency that the index does not have, at a depth.
pub open spec fn unknown_line(dep: Seq<char>, d: nat) -> Seq<char> {
    spaces(2 * d as int) + "└─ "@ + dep + " (not in index)"@
}

/// The line of a dependency of which no version will do, at a depth.
pub open spec fn unmet_line(dep: Seq<char>, req: Seq<char>, d: nat) -> Seq<char> {
    spaces(2 * d as int) + "└─ "@ + (dep + "@"@ + req) + " (not found)"@
}

proof fn package_at_is(index: Seq<RepoPackage>, name: Seq<char>)
    ensures
        0 <= package_at(index, name) <= index.len(),
        package_at(index, name) < index.len() ==> first_named(index, name, package_at(index, name)),
        package_at(index, name) == index.len() ==> is_unknown(index, name),
        forall|i: int| #[trigger] first_named(index, name, i) ==> i == package_at(index, name),
    decreases index.len(),
{
    if index.len() > 0 && index[0].name@ != name {
        let t = index.drop_first();
        package_at_is(t, name);
        let k = package_at(t, name);
        assert forall|a: int| 0 <= a < 1 + k implies (#[trigger] index[a]).name@ != name by {
            if a > 0 {
                assert(t[a - 1] == index[a]);
            }
        }
        if k < t.len() {
            assert(t[k] == index[k + 1]);
        }
        assert forall|i: int| #[trigger] first_named(index, name, i) implies i == 1 + k by {
            assert(t[i - 1] == index[i]);
            assert forall|a: int| 0 <= a < i - 1 implies (#[trigger] t[a]).name@ != name by {
                assert(t[a] == index[a + 1]);
            }
            assert(first_named(t, name, i - 1));
        }
    } else if index.len() > 0 {
        assert forall|i: int| #[trigger] first_named(index, name, i) implies i == 0 by {
            if i > 0 {
                assert(index[0].name@ != name);
            }
        }
    }
}

proof fn meeting_at_is(v: Seq<PackageVersion>, req: Seq<char>)
    ensures
        0 <= meeting_at(v, req) <= v.len(),
        meeting_at(v, req) < v.len() ==> meets(v[meeting_at(v, req)].version@, req),
        forall|a: int| 0 <= a < meeting_at(v, req) ==> !meets((#[trigger] v[a]).version@, req),
    decreases v.len(),
{
    if v.len() > 0 && !meets(v[0].version@, req) {
        let t = v.drop_first();
        meeting_at_is(t, req);
        assert forall|a: int| 0 <= a < meeting_at(v, req) implies !meets((#[trigger] v[a]).version@, req) by {
            if a > 0 {
                assert(t[a - 1] == v[a]);
            }
        }
    }
}

proof fn version_at_is(v: Seq<PackageVersion>, version: Seq<char>)
    ensures
        0 <= version_at(v, version) <= v.len(),
        version_at(v, version) < v.len() ==> v[version_at(v, version)].version@ == version,
        forall|a: int| 0 <= a < version_at(v, version) ==> (#[trigger] v[a]).version@ != version,
    decreases v.len(),
{
    if v.len() > 0 && v[0].version@ != version {
        let t = v.drop_first();
        version_at_is(t, version);
        assert forall|a: int| 0 <= a < version_at(v, version) implies (#[trigger] v[a]).version@ != version by {
            if a > 0 {
                assert(t[a - 1] == v[a]);
            }
        }
    }
}

proof fn needs_is(index: Seq<RepoPackage>, p: (Seq<char>, Seq<char>), dep: Seq<char>, req: Seq<char>)
    ensures
        needs(index, p, dep, req) <==> deps_of(index, p.0, p.1).contains((dep, req)),
{
    package_at_is(index, p.0);
    let i = package_at(index, p.0);
    if i < index.len() {
        version_at_is(index[i].versions@, p.1);
        let j = version_at(index[i].versions@, p.1);
        if j < index[i].versions@.len() {
            assert(index[i].versions@[j].version@ == p.1);
        }
    }
}

/// Exactly one of three holds of a dependency.
proof fn dep_is(index: Seq<RepoPackage>, w: Walk, depth: int, dep: Seq<char>, req: Seq<char>)
    requires
        depth >= 0,
    ensures
        is_unknown(index, dep) ==> with_dep(index, w, depth, dep, req) == (Walk {
            output: w.output + seq![unknown_line(dep, depth as nat)],
            ..w
        }),
        is_unmet(index, dep, req) ==> with_dep(index, w, depth, dep, req) == (Walk {
            output: w.output + seq![unmet_line(dep, req, depth as nat)],
            ..w
        }),
        forall|v: Seq<char>| #[trigger]
            picked(index, dep, req, v) ==> with_dep(index, w, depth, dep, req) == (Walk {
                stack: w.stack + seq![(dep, v, depth)],
                ..w
            }),
        is_unknown(index, dep) || is_unmet(index, dep, req) || exists|v: Seq<char>| #[trigger]
            picked(index, dep, req, v),
{
    package_at_is(index, dep);
    let i = package_at(index, dep);
    if i < index.len() {
        let v = index[i].versions@;
        meeting_at_is(v, req);
        let j = meeting_at(v, req);
        assert(index[i].name@ == dep);
        if j < v.len() {
            assert(index[i].versions@[j].version@ == v[j].version@);
            assert(picked(index, dep, req, v[j].version@));
            assert forall|x: Seq<char>| #[trigger] picked(index, dep, req, x) implies x == v[j].version@ by {
                let (a, b) = choose|a: int, b: int|
                    #![trigger index[a].versions@[b]]
                    first_named(index, dep, a) && 0 <= b < index[a].versions@.len() && meets(
                        index[a].versions@[b].version@,
                        req,
                    ) && (forall|c: int|
                        0 <= c < b ==> !meets((#[trigger] index[a].versions@[c]).version@, req))
                        && index[a].versions@[b].version@ == x;
                assert(a == i);
                if b < j {
                    assert(!meets(v[b].version@, req));
                }
                if j < b {
                    assert(!meets(index[a].versions@[j].version@, req));
                }
            }
            if is_unmet(index, dep, req) {
                let a = choose|a: int| #[trigger]
                    first_named(index, dep, a) && forall|j: int|
                        0 <= j < index[a].versions@.len() ==> !meets(
                            (#[trigger] index[a].versions@[j]).version@,
                            req,
                        );
                assert(!meets(index[a].versions@[j].version@, req));
            }
        } else {
            assert(first_named(index, dep, i));
            assert forall|x: Seq<char>| !#[trigger] picked(index, dep, req, x) by {
                if picked(index, dep, req, x) {
                    let (a, b) = choose|a: int, b: int|
                        #![trigger index[a].versions@[b]]
                        first_named(index, dep, a) && 0 <= b < index[a].versions@.len() && meets(
                            index[a].versions@[b].version@,
                            req,
                        ) && (forall|c: int|
                            0 <= c < b ==> !meets((#[trigger] index[a].versions@[c]).version@, req))
                            && index[a].versions@[b].version@ == x;
                    assert(!meets(v[b].version@, req));
                }
            }
        }
    } else {
        assert forall|x: Seq<char>| !#[trigger] picked(index, dep, req, x) by {
            if picked(index, dep, req, x) {
                let (a, b) = choose|a: int, b: int|
                    #![trigger index[a].versions@[b]]
                    first_named(index, dep, a) && 0 <= b < index[a].versions@.len() && meets(
                        index[a].versions@[b].version@,
                        req,
                    ) && (forall|c: int|
                        0 <= c < b ==> !meets((#[trigger] index[a].versions@[c]).version@, req))
                        && index[a].versions@[b].version@ == x;
                assert(index[a].name@ != dep);
            }
        }
        if is_unmet(index, dep, req) {
            let a = choose|a: int| #[trigger]
                first_named(index, dep, a) && forall|j: int|
                    0 <= j < index[a].versions@.len() ==> !meets(
                        (#[trigger] index[a].versions@[j]).version@,
                        req,
                    );
            assert(index[a].name@ != dep);
        }
    }
}

/// Whether what a dependency asks for is to be shown, or was, or is said to be missing.
spec fn settled(index: Seq<RepoPackage>, w: Walk, depth: int, dep: Seq<char>, req: Seq<char>) -> bool {
    &&& is_unknown(index, dep) ==> w.output.contains(unknown_line(dep, depth as nat))
    &&& is_unmet(index, dep, req) ==> w.output.contains(unmet_line(dep, req, depth as nat))
    &&& forall|v: Seq<char>| #[trigger]
        picked(index, dep, req, v) ==> w.visited.contains((dep, v)) || on_stack(w, (dep, v))
}

spec fn on_stack(w: Walk, p: (Seq<char>, Seq<char>)) -> bool {
    exists|k: int| 0 <= k < w.stack.len() && (#[trigger] w.stack[k]).0 == p.0 && w.stack[k].1 == p.1
}

/// Whether a line is one of those that the tree may have.
pub open spec fn is_tree_line(index: Seq<RepoPackage>, root: (Seq<char>, Seq<char>), x: Seq<char>) -> bool {
    ||| exists|p: (Seq<char>, Seq<char>), d: nat| #[trigger]
        reached(index, root, p, d) && x == line_at(p, d)
    ||| exists|p: (Seq<char>, Seq<char>), d: nat, dep: Seq<char>, req: Seq<char>|
        #![trigger reached(index, root, p, d), needs(index, p, dep, req)]
        reached(index, root, p, d) && needs(index, p, dep, req) && ((is_unknown(index, dep) && x
            == unknown_line(dep, d + 1)) || (is_unmet(index, dep, req) && x == unmet_line(
            dep,
            req,
            d + 1,
        )))
}

spec fn settles(index: Seq<RepoPackage>, w: Walk, p: (Seq<char>, Seq<char>), d: nat) -> bool {
    forall|dep: Seq<char>, req: Seq<char>| #[trigger]
        needs(index, p, dep, req) ==> settled(index, w, d as int + 1, dep, req)
}

/// What holds after every step.
spec fn walk_is_right(index: Seq<RepoPackage>, root: (Seq<char>, Seq<char>), w: Walk) -> bool {
    &&& w.visited.contains(root) || (w.stack.len() == 1 && w.stack[0] == (root.0, root.1, 0int))
    &&& forall|k: int|
        0 <= k < w.stack.len() ==> (#[trigger] w.stack[k]).2 >= 0 && reached(
            index,
            root,
            (w.stack[k].0, w.stack[k].1),
            w.stack[k].2 as nat,
        )
    &&& forall|p: (Seq<char>, Seq<char>)| #[trigger]
        w.visited.contains(p) ==> exists|d: nat|
            #![trigger reached(index, root, p, d)]
            reached(index, root, p, d) && w.output.contains(line_at(p, d)) && settles(index, w, p, d)
    &&& forall|k: int| 0 <= k < w.output.len() ==> is_tree_line(index, root, #[trigger] w.output[k])
}

/// What is settled stays so while lines and nodes are added.
proof fn settled_stays(index: Seq<RepoPackage>, v: Walk, w: Walk, depth: int, dep: Seq<char>, req: Seq<char>)
    requires
        settled(index, v, depth, dep, req),
        forall|x: Seq<char>| v.output.contains(x) ==> #[trigger] w.output.contains(x),
        forall|p: (Seq<char>, Seq<char>)| #[trigger]
            v.visited.contains(p) || on_stack(v, p) ==> w.visited.contains(p) || on_stack(w, p),
    ensures
        settled(index, w, depth, dep, req),
{
    assert forall|x: Seq<char>| #[trigger] picked(index, dep, req, x) implies w.visited.contains((dep, x))
        || on_stack(w, (dep, x)) by {
        assert(v.visited.contains((dep, x)) || on_stack(v, (dep, x)));
    }
}

proof fn with_deps_adds(
    index: Seq<RepoPackage>,
    root: (Seq<char>, Seq<char>),
    w: Walk,
    p: (Seq<char>, Seq<char>),
    d: nat,
    deps: Seq<(Seq<char>, Seq<char>)>,
)
    requires
        reached(index, root, p, d),
        forall|k: int|
            0 <= k < deps.len() ==> needs(index, p, (#[trigger] deps[k]).0, deps[k].1),
        forall|k: int|
            0 <= k < w.stack.len() ==> (#[trigger] w.stack[k]).2 >= 0 && reached(
                index,
                root,
                (w.stack[k].0, w.stack[k].1),
                w.stack[k].2 as nat,
            ),
        forall|k: int| 0 <= k < w.output.len() ==> is_tree_line(index, root, #[trigger] w.output[k]),
    ensures
        ({
            let after = with_deps(index, w, d as int + 1, deps);
            &&& after.visited == w.visited
            &&& forall|x: Seq<char>| w.output.contains(x) ==> #[trigger] after.output.contains(x)
            &&& forall|q: (Seq<char>, Seq<char>)| on_stack(w, q) ==> #[trigger] on_stack(after, q)
            &&& forall|k: int|
                0 <= k < deps.len() ==> settled(index, after, d as int + 1, (#[trigger] deps[k]).0, deps[k].1)
            &&& forall|k: int|
                0 <= k < after.stack.len() ==> (#[trigger] after.stack[k]).2 >= 0 && reached(
                    index,
                    root,
                    (after.stack[k].0, after.stack[k].1),
                    after.stack[k].2 as nat,
                )
            &&& forall|k: int|
                0 <= k < after.output.len() ==> is_tree_line(index, root, #[trigger] after.output[k])
        }),
    decreases deps.len(),
{
    if deps.len() > 0 {
        let t = deps.drop_last();
        assert forall|k: int| 0 <= k < t.len() implies needs(index, p, (#[trigger] t[k]).0, t[k].1) by {
            assert(t[k] == deps[k]);
        }
        with_deps_adds(index, root, w, p, d, t);
        let depth = d as int + 1;
        let v = with_deps(index, w, depth, t);
        let dep = deps.last().0;
        let req = deps.last().1;
        assert(needs(index, p, deps[deps.len() - 1].0, deps[deps.len() - 1].1));
        let after = with_dep(index, v, depth, dep, req);
        assert(after == with_deps(index, w, depth, deps));
        dep_is(index, v, depth, dep, req);
        assert forall|x: Seq<char>| v.output.contains(x) implies #[trigger] after.output.contains(x) by {
            let k = choose|k: int| 0 <= k < v.output.len() && v.output[k] == x;
            assert(after.output[k] == x);
        }
        assert forall|q: (Seq<char>, Seq<char>)| on_stack(v, q) implies #[trigger] on_stack(after, q) by {
            let k = choose|k: int|
                0 <= k < v.stack.len() && (#[trigger] v.stack[k]).0 == q.0 && v.stack[k].1 == q.1;
            assert(after.stack[k] == v.stack[k]);
        }
        if is_unknown(index, dep) {
            assert(after.output[v.output.len() as int] == unknown_line(dep, depth as nat));
            assert(is_tree_line(index, root, unknown_line(dep, d + 1)));
        } else if is_unmet(index, dep, req) {
            assert(after.output[v.output.len() as int] == unmet_line(dep, req, depth as nat));
            assert(is_tree_line(index, root, unmet_line(dep, req, d + 1)));
        } else {
            let x = choose|x: Seq<char>| #[trigger] picked(index, dep, req, x);
            assert(after.stack[v.stack.len() as int] == (dep, x, depth));
            assert(needs(index, p, (dep, x).0, req) && picked(index, (dep, x).0, req, (dep, x).1));
            assert(reached(index, root, (dep, x), (d + 1) as nat));
            assert(on_stack(after, (dep, x)));
            assert forall|y: Seq<char>| #[trigger] picked(index, dep, req, y) implies on_stack(after, (dep, y)) by {
                assert(after.stack[v.stack.len() as int] == (dep, y, depth));
            }
        }
        assert(settled(index, after, depth, dep, req));
        assert forall|k: int| 0 <= k < deps.len() implies settled(
            index,
            after,
            depth,
            (#[trigger] deps[k]).0,
            deps[k].1,
        ) by {
            if k < t.len() {
                assert(t[k] == deps[k]);
                settled_stays(index, v, after, depth, deps[k].0, deps[k].1);
            }
        }
    }
}

#[verifier::rlimit(60)]
proof fn step_keeps_right(index: Seq<RepoPackage>, root: (Seq<char>, Seq<char>), w: Walk)
    requires
        walk_is_right(index, root, w),
    ensures
        walk_is_right(index, root, step(index, w)),
{
    if w.stack.len() > 0 {
        let node = w.stack.last();
        let p = (node.0, node.1);
        assert(w.stack[w.stack.len() - 1] == node);
        let below = Walk { stack: w.stack.drop_last(), ..w };
        let after = step(index, w);
        assert forall|k: int| 0 <= k < below.stack.len() implies (#[trigger] below.stack[k]).2 >= 0 && reached(
            index,
            root,
            (below.stack[k].0, below.stack[k].1),
            below.stack[k].2 as nat,
        ) by {
            assert(below.stack[k] == w.stack[k]);
        }
        let d = node.2 as nat;
        assert(reached(index, root, p, d));
        if w.visited.contains(p) {
            assert(w.visited.contains(root));
            assert forall|q: (Seq<char>, Seq<char>)| #[trigger]
                w.visited.contains(q) || on_stack(w, q) implies below.visited.contains(q) || on_stack(below, q) by {
                stack_without_top(w, below, q);
            }
            visited_stay_right(index, root, w, below);
        } else {
            let shown = Walk {
                visited: w.visited.insert(p),
                output: w.output + seq![node_line(node)],
                ..below
            };
            assert(node_line(node) == line_at(p, d));
            assert forall|k: int| 0 <= k < shown.output.len() implies is_tree_line(index, root, #[trigger] shown.output[k]) by {
                if k < w.output.len() {
                    assert(shown.output[k] == w.output[k]);
                } else {
                    assert(reached(index, root, p, d) && shown.output[k] == line_at(p, d));
                }
            }
            let deps = deps_of(index, p.0, p.1);
            assert forall|k: int| 0 <= k < deps.len() implies needs(index, p, (#[trigger] deps[k]).0, deps[k].1) by {
                needs_is(index, p, deps[k].0, deps[k].1);
                assert(deps[k] == (deps[k].0, deps[k].1));
                assert(deps.contains(deps[k]));
            }
            with_deps_adds(index, root, shown, p, d, deps);
            assert(after == with_deps(index, shown, d as int + 1, deps));
            assert forall|x: Seq<char>| w.output.contains(x) implies #[trigger] after.output.contains(x) by {
                let k = choose|k: int| 0 <= k < w.output.len() && w.output[k] == x;
                assert(shown.output[k] == x);
                assert(shown.output.contains(x));
            }
            assert(shown.output[w.output.len() as int] == line_at(p, d));
            assert(shown.output.contains(line_at(p, d)));
            assert(after.output.contains(line_at(p, d)));
            assert forall|q: (Seq<char>, Seq<char>)| #[trigger]
                w.visited.contains(q) || on_stack(w, q) implies after.visited.contains(q) || on_stack(after, q) by {
                if on_stack(w, q) && q != p {
                    stack_without_top(w, below, q);
                    assert(on_stack(shown, q)) by {
                        let k = choose|k: int|
                            0 <= k < below.stack.len() && (#[trigger] below.stack[k]).0 == q.0
                                && below.stack[k].1 == q.1;
                        assert(shown.stack[k] == below.stack[k]);
                    }
                }
            }
            visited_stay_right(index, root, w, after);
            assert(settles(index, after, p, d)) by {
                assert forall|dep: Seq<char>, req: Seq<char>| #[trigger] needs(index, p, dep, req) implies settled(
                    index,
                    after,
                    d as int + 1,
                    dep,
                    req,
                ) by {
                    needs_is(index, p, dep, req);
                    let k = choose|k: int| 0 <= k < deps.len() && deps[k] == (dep, req);
                    assert(settled(index, after, d as int + 1, deps[k].0, deps[k].1));
                }
            }
            assert forall|q: (Seq<char>, Seq<char>)| #[trigger] after.visited.contains(q) implies exists|e: nat|
                #![trigger reached(index, root, q, e)]
                reached(index, root, q, e) && after.output.contains(line_at(q, e)) && settles(index, after, q, e) by {
                if q == p {
                    assert(reached(index, root, q, d));
                } else {
                    assert(w.visited.contains(q));
                }
            }
        }
    }
}

/// Without its last node, a stack has every other node.
proof fn stack_without_top(w: Walk, below: Walk, q: (Seq<char>, Seq<char>))
    requires
        w.stack.len() > 0,
        below.stack == w.stack.drop_last(),
    ensures
        on_stack(w, q) ==> on_stack(below, q) || q == (w.stack.last().0, w.stack.last().1),
{
    if on_stack(w, q) {
        let k = choose|k: int|
            0 <= k < w.stack.len() && (#[trigger] w.stack[k]).0 == q.0 && w.stack[k].1 == q.1;
        if k < w.stack.len() - 1 {
            assert(below.stack[k] == w.stack[k]);
        }
    }
}

/// What was shown stays right while lines, nodes and shown versions are added.
proof fn visited_stay_right(index: Seq<RepoPackage>, root: (Seq<char>, Seq<char>), w: Walk, after: Walk)
    requires
        walk_is_right(index, root, w),
        forall|x: Seq<char>| w.output.contains(x) ==> #[trigger] after.output.contains(x),
        forall|q: (Seq<char>, Seq<char>)| #[trigger]
            w.visited.contains(q) || on_stack(w, q) ==> after.visited.contains(q) || on_stack(after, q),
    ensures
        forall|q: (Seq<char>, Seq<char>)| #[trigger]
            w.visited.contains(q) ==> exists|e: nat|
                #![trigger reached(index, root, q, e)]
                reached(index, root, q, e) && after.output.contains(line_at(q, e)) && settles(index, after, q, e),
{
    assert forall|q: (Seq<char>, Seq<char>)| #[trigger] w.visited.contains(q) implies exists|e: nat|
        #![trigger reached(index, root, q, e)]
        reached(index, root, q, e) && after.output.contains(line_at(q, e)) && settles(index, after, q, e) by {
        let e = choose|e: nat|
            #![trigger reached(index, root, q, e)]
            reached(index, root, q, e) && w.output.contains(line_at(q, e)) && settles(index, w, q, e);
        assert forall|dep: Seq<char>, req: Seq<char>| #[trigger] needs(index, q, dep, req) implies settled(
            index,
            after,
            e as int + 1,
            dep,
            req,
        ) by {
            assert(settled(index, w, e as int + 1, dep, req));
            settled_stays(index, w, after, e as int + 1, dep, req);
        }
        assert(after.output.contains(line_at(q, e)));
    }
}

proof fn steps_keep_right(index: Seq<RepoPackage>, root: (Seq<char>, Seq<char>), n: nat)
    ensures
        walk_is_right(index, root, steps(index, at_root(root.0, root.1), n)),
    decreases n,
{
    let w = at_root(root.0, root.1);
    if n == 0 {
        assert(w.stack[0] == (root.0, root.1, 0int));
        assert(reached(index, root, (root.0, root.1), 0));
    } else {
        steps_keep_right(index, root, (n - 1) as nat);
        step_keeps_right(index, root, steps(index, w, (n - 1) as nat));
    }
}

proof fn reached_was_shown(
    index: Seq<RepoPackage>,
    root: (Seq<char>, Seq<char>),
    w: Walk,
    p: (Seq<char>, Seq<char>),
    d: nat,
)
    requires
        walk_is_right(index, root, w),
        w.stack.len() == 0,
        reached(index, root, p, d),
    ensures
        w.visited.contains(p),
    decreases d,
{
    if d > 0 {
        let (q, req) = choose|q: (Seq<char>, Seq<char>), req: Seq<char>|
            #![trigger needs(index, q, p.0, req)]
            reached(index, root, q, (d - 1) as nat) && needs(index, q, p.0, req) && picked(
                index,
                p.0,
                req,
                p.1,
            );
        reached_was_shown(index, root, w, q, (d - 1) as nat);
        let e = choose|e: nat|
            #![trigger reached(index, root, q, e)]
            reached(index, root, q, e) && w.output.contains(line_at(q, e)) && settles(index, w, q, e);
        assert(settled(index, w, e as int + 1, p.0, req));
        assert(picked(index, p.0, req, p.1));
        assert(p == (p.0, p.1));
    }
}

/// The tree shows every version that can be come to through dependencies, however
/// deep, and for each of those every dependency that cannot be had.
pub proof fn tree_is_complete(
    index: Seq<RepoPackage>,
    root: (Seq<char>, Seq<char>),
    lines: Seq<Seq<char>>,
    p: (Seq<char>, Seq<char>),
    d: nat,
)
    requires
        shows(index, at_root(root.0, root.1), lines),
        reached(index, root, p, d),
    ensures
        exists|e: nat| reached(index, root, p, e) && lines.contains(#[trigger] line_at(p, e)),
        forall|dep: Seq<char>, req: Seq<char>| #[trigger]
            needs(index, p, dep, req) && is_unknown(index, dep) ==> exists|e: nat|
                lines.contains(#[trigger] unknown_line(dep, e)),
        forall|dep: Seq<char>, req: Seq<char>| #[trigger]
            needs(index, p, dep, req) && is_unmet(index, dep, req) ==> exists|e: nat|
                lines.contains(#[trigger] unmet_line(dep, req, e)),
        forall|dep: Seq<char>, req: Seq<char>, v: Seq<char>|
            needs(index, p, dep, req) && #[trigger] picked(index, dep, req, v) && #[trigger] needs(
                index,
                p,
                dep,
                req,
            ) ==> exists|e: nat| lines.contains(#[trigger] line_at((dep, v), e)),
{
    let w = at_root(root.0, root.1);
    let n = choose|n: nat|
        (#[trigger] steps(index, w, n)).stack.len() == 0 && steps(index, w, n).output == lines;
    let f = steps(index, w, n);
    steps_keep_right(index, root, n);
    reached_was_shown(index, root, f, p, d);
    let e = choose|e: nat|
        #![trigger reached(index, root, p, e)]
        reached(index, root, p, e) && f.output.contains(line_at(p, e)) && settles(index, f, p, e);
    assert(lines.contains(line_at(p, e)));
    assert forall|dep: Seq<char>, req: Seq<char>| #[trigger]
        needs(index, p, dep, req) && is_unknown(index, dep) implies exists|e: nat|
        lines.contains(#[trigger] unknown_line(dep, e)) by {
        assert(settled(index, f, e as int + 1, dep, req));
        assert(lines.contains(unknown_line(dep, (e + 1) as nat)));
    }
    assert forall|dep: Seq<char>, req: Seq<char>| #[trigger]
        needs(index, p, dep, req) && is_unmet(index, dep, req) implies exists|e: nat|
        lines.contains(#[trigger] unmet_line(dep, req, e)) by {
        assert(settled(index, f, e as int + 1, dep, req));
        assert(lines.contains(unmet_line(dep, req, (e + 1) as nat)));
    }
    assert forall|dep: Seq<char>, req: Seq<char>, v: Seq<char>|
        needs(index, p, dep, req) && #[trigger] picked(index, dep, req, v) && #[trigger] needs(
            index,
            p,
            dep,
            req,
        ) implies exists|e: nat| lines.contains(#[trigger] line_at((dep, v), e)) by {
        assert(settled(index, f, e as int + 1, dep, req));
        assert(f.visited.contains((dep, v)));
        let a = choose|a: nat|
            #![trigger reached(index, root, (dep, v), a)]
            reached(index, root, (dep, v), a) && f.output.contains(line_at((dep, v), a)) && settles(
                index,
                f,
                (dep, v),
                a,
            );
        assert(lines.contains(line_at((dep, v), a)));
    }
}

/// The tree shows nothing else: each line is of a version that can be come to by as
/// many dependencies as it is deep, or says that a dependency of such a version
/// cannot be had.
pub proof fn tree_is_sound(
    index: Seq<RepoPackage>,
    root: (Seq<char>, Seq<char>),
    lines: Seq<Seq<char>>,
    x: Seq<char>,
)
    requires
        shows(index, at_root(root.0, root.1), lines),
        lines.contains(x),
    ensures
        is_tree_line(index, root, x),
{
    let w = at_root(root.0, root.1);
    let n = choose|n: nat|
        (#[trigger] steps(index, w, n)).stack.len() == 0 && steps(index, w, n).output == lines;
    steps_keep_right(index, root, n);
    let k = choose|k: int| 0 <= k < lines.len() && lines[k] == x;
    assert(is_tree_line(index, root, lines[k]));
}

proof fn with_deps_extend(index: Seq<RepoPackage>, w: Walk, depth: int, deps: Seq<(Seq<char>, Seq<char>)>)
    ensures
        with_deps(index, w, depth, deps).output.len() >= w.output.len(),
        with_deps(index, w, depth, deps).output.take(w.output.len() as int) == w.output,
    decreases deps.len(),
{
    if deps.len() == 0 {
        assert(w.output.take(w.output.len() as int) =~= w.output);
    } else {
        let before = with_deps(index, w, depth, deps.drop_last());
        with_deps_extend(index, w, depth, deps.drop_last());
        let after = with_deps(index, w, depth, deps);
        let n: int = w.output.len() as int;
        assert(after.output.len() >= before.output.len());
        assert(after.output.take(n) =~= before.output.take(n));
    }
}

proof fn steps_extend(index: Seq<RepoPackage>, w: Walk, n: nat, m: nat)
    requires
        n <= m,
    ensures
        steps(index, w, m).output.len() >= steps(index, w, n).output.len(),
        steps(index, w, m).output.take(steps(index, w, n).output.len() as int) == steps(index, w, n).output,
    decreases m,
{
    let a = steps(index, w, n);
    if m == n {
        assert(a.output.take(a.output.len() as int) =~= a.output);
    } else {
        steps_extend(index, w, n, (m - 1) as nat);
        let b = steps(index, w, (m - 1) as nat);
        let c = step(index, b);
        assert(steps(index, w, m) == c);
        let k: int = a.output.len() as int;
        if b.stack.len() > 0 {
            let node = b.stack.last();
            if !b.visited.contains((node.0, node.1)) {
                let shown = Walk {
                    stack: b.stack.drop_last(),
                    visited: b.visited.insert((node.0, node.1)),
                    output: b.output + seq![node_line(node)],
                };
                with_deps_extend(index, shown, node.2 + 1, deps_of(index, node.0, node.1));
                assert(c == with_deps(index, shown, node.2 + 1, deps_of(index, node.0, node.1)));
                let s: int = shown.output.len() as int;
                assert(c.output.take(k) =~= c.output.take(s).take(k));
                assert(shown.output.take(k) =~= b.output.take(k));
            }
        }
    }
}

proof fn first_step(index: Seq<RepoPackage>, root: (Seq<char>, Seq<char>))
    ensures
        steps(index, at_root(root.0, root.1), 0) == at_root(root.0, root.1),
        ({
            let shown = Walk {
                stack: Seq::empty(),
                visited: Set::empty().insert(root),
                output: seq![line_at(root, 0)],
            };
            steps(index, at_root(root.0, root.1), 1) == with_deps(index, shown, 1, deps_of(index, root.0, root.1))
        }),
{
    let w = at_root(root.0, root.1);
    assert(steps(index, w, 0) == w);
    assert(steps(index, w, 1) == step(index, steps(index, w, 0)));
    let shown = Walk { stack: Seq::empty(), visited: Set::empty().insert(root), output: seq![line_at(root, 0)] };
    let node = w.stack.last();
    assert(node == (root.0, root.1, 0int));
    assert(root == (root.0, root.1));
    assert(w.stack.drop_last() =~= Seq::<Node>::empty());
    assert(w.output + seq![node_line(node)] =~= shown.output);
    assert(node_line(node) == line_at(root, 0));
    assert(!w.visited.contains((node.0, node.1)));
}

/// The tree begins with the package itself.
pub proof fn tree_begins_with_the_package(
    index: Seq<RepoPackage>,
    root: (Seq<char>, Seq<char>),
    lines: Seq<Seq<char>>,
)
    requires
        shows(index, at_root(root.0, root.1), lines),
    ensures
        lines.len() > 0,
        lines[0] == root.0 + "@"@ + root.1,
{
    let w = at_root(root.0, root.1);
    let n = choose|n: nat| (#[trigger] steps(index, w, n)).stack.len() == 0 && steps(index, w, n).output == lines;
    first_step(index, root);
    assert(n > 0);
    let shown = Walk { stack: Seq::empty(), visited: Set::empty().insert(root), output: seq![line_at(root, 0)] };
    with_deps_extend(index, shown, 1, deps_of(index, root.0, root.1));
    steps_extend(index, w, 1, n);
    let a = steps(index, w, 1).output;
    assert(a.take(1)[0] == line_at(root, 0));
    assert(lines.take(a.len() as int)[0] == a[0]);
}

/// Whether some version of a package meets a requirement.
pub open spec fn can_be_had(index: Seq<RepoPackage>, need: (Seq<char>, Seq<char>)) -> bool {
    exists|x: Seq<char>| #[trigger] picked(index, need.0, need.1, x)
}

proof fn all_are_put_on_the_stack(index: Seq<RepoPackage>, w: Walk, deps: Seq<(Seq<char>, Seq<char>)>, v: Seq<char>)
    requires
        deps.len() > 0,
        forall|k: int| 0 <= k < deps.len() ==> can_be_had(index, #[trigger] deps[k]),
        picked(index, deps.last().0, deps.last().1, v),
    ensures
        with_deps(index, w, 1, deps).output == w.output,
        with_deps(index, w, 1, deps).visited == w.visited,
        with_deps(index, w, 1, deps).stack.len() > 0,
        with_deps(index, w, 1, deps).stack.last() == (deps.last().0, v, 1int),
    decreases deps.len(),
{
    let t = deps.drop_last();
    assert forall|k: int| 0 <= k < t.len() implies can_be_had(index, #[trigger] t[k]) by {
        assert(t[k] == deps[k]);
    }
    if t.len() > 0 {
        let d = t[t.len() - 1];
        assert(d == t.last());
        assert(can_be_had(index, d));
        let x = choose|x: Seq<char>| #[trigger] picked(index, d.0, d.1, x);
        all_are_put_on_the_stack(index, w, t, x);
    }
    dep_is(index, with_deps(index, w, 1, t), 1, deps.last().0, deps.last().1);
}

/// Where every dependency of a package can be had, the one that it names last is shown
/// right below it.
pub proof fn last_dependency_is_shown_first(
    index: Seq<RepoPackage>,
    root: (Seq<char>, Seq<char>),
    lines: Seq<Seq<char>>,
    i: int,
    j: int,
    v: Seq<char>,
)
    requires
        shows(index, at_root(root.0, root.1), lines),
        first_named(index, root.0, i),
        0 <= j < index[i].versions@.len(),
        index[i].versions@[j].version@ == root.1,
        forall|a: int| 0 <= a < j ==> (#[trigger] index[i].versions@[a]).version@ != root.1,
        map_pairs(index[i].versions@[j].manifest.deps).len() > 0,
        forall|k: int|
            0 <= k < map_pairs(index[i].versions@[j].manifest.deps).len() ==> can_be_had(
                index,
                #[trigger] map_pairs(index[i].versions@[j].manifest.deps)[k],
            ),
        picked(
            index,
            map_pairs(index[i].versions@[j].manifest.deps).last().0,
            map_pairs(index[i].versions@[j].manifest.deps).last().1,
            v,
        ),
        (map_pairs(index[i].versions@[j].manifest.deps).last().0, v) != root,
    ensures
        lines.len() > 1,
        lines[1] == spaces(2) + "└─ "@ + (map_pairs(index[i].versions@[j].manifest.deps).last().0 + "@"@ + v),
{
    let deps = map_pairs(index[i].versions@[j].manifest.deps);
    let w = at_root(root.0, root.1);
    package_at_is(index, root.0);
    version_at_is(index[i].versions@, root.1);
    let b = version_at(index[i].versions@, root.1);
    if b < j {
        assert(index[i].versions@[b].version@ != root.1);
    }
    assert(b == j);
    assert(deps_of(index, root.0, root.1) == deps);
    first_step(index, root);
    let shown = Walk { stack: Seq::empty(), visited: Set::empty().insert(root), output: seq![line_at(root, 0)] };
    all_are_put_on_the_stack(index, shown, deps, v);
    let one = steps(index, w, 1);
    let p = (deps.last().0, v);
    let node = one.stack.last();
    assert(node == (deps.last().0, v, 1int));
    assert(!one.visited.contains(p));
    let n = choose|n: nat| (#[trigger] steps(index, w, n)).stack.len() == 0 && steps(index, w, n).output == lines;
    assert(n > 1) by {
        if n == 1 {
            assert(one.stack.len() == 0);
        }
        if n == 0 {
            assert(steps(index, w, 0).stack.len() == 1);
        }
    }
    let two = steps(index, w, 2);
    assert(two == step(index, one));
    let next = Walk {
        stack: one.stack.drop_last(),
        visited: one.visited.insert(p),
        output: one.output + seq![node_line(node)],
    };
    with_deps_extend(index, next, 2, deps_of(index, node.0, node.1));
    assert(two == with_deps(index, next, 2, deps_of(index, node.0, node.1)));
    steps_extend(index, w, 2, n);
    assert(next.output.len() == 2 && next.output[1] == node_line(node));
    assert(two.output.take(2)[1] == node_line(node));
    assert(lines.take(two.output.len() as int)[1] == two.output[1]);
}

/// The version that is shown is the one that is asked for, or the last where none is.
pub proof fn which_version_is_shown(v: Seq<PackageVersion>, name: Seq<char>, version: Seq<char>, i: int)
    requires
        !name.contains('@'),
        !version.contains('@'),
        0 <= i < v.len(),
        v[i].version@ == version,
        forall|j: int| 0 <= j < i ==> (#[trigger] v[j]).version@ != version,
    ensures
        shown_version(v, name) == v.len() - 1,
        shown_version(v, name + "@"@ + version) == i,
{
    what_is_run(name, version);
    let req = "="@ + version;
    reveal_strlit("=");
    assert("="@ =~= seq!['=']);
    assert forall|a: int| 0 <= a < v.len() implies meets((#[trigger] v[a]).version@, req) == (v[a].version@
        == version) by {
        what_requirements_mean(v[a].version@, version);
        assert(req =~= seq!['='] + version);
    }
    meeting_at_is(v, req);
    let m = meeting_at(v, req);
    if m < i {
        assert(meets(v[m].version@, req));
    }
    if i < m {
        assert(!meets(v[i].version@, req));
    }
}

/// A version that was shown is not shown again, nor is what it depends on.
pub proof fn every_version_is_shown_once(index: Seq<RepoPackage>, w: Walk)
    requires
        w.stack.len() > 0,
        w.visited.contains((w.stack.last().0, w.stack.last().1)),
    ensures
        step(index, w).output == w.output,
        step(index, w).visited == w.visited,
        step(index, w).stack == w.stack.drop_last(),
{
}

/// A version that was not shown is shown next, at its depth, and counts as shown from then
/// on.
pub proof fn next_version_is_shown(index: Seq<RepoPackage>, w: Walk)
    requires
        w.stack.len() > 0,
        w.stack.last().2 >= 0,
        !w.visited.contains((w.stack.last().0, w.stack.last().1)),
    ensures
        step(index, w).output.len() > w.output.len(),
        step(index, w).output.take(w.output.len() as int) == w.output,
        step(index, w).output[w.output.len() as int] == line_at(
            (w.stack.last().0, w.stack.last().1),
            w.stack.last().2 as nat,
        ),
{
    let node = w.stack.last();
    let shown = Walk {
        stack: w.stack.drop_last(),
        visited: w.visited.insert((node.0, node.1)),
        output: w.output + seq![node_line(node)],
    };
    with_deps_extend(index, shown, node.2 + 1, deps_of(index, node.0, node.1));
    let after = step(index, w);
    assert(after == with_deps(index, shown, node.2 + 1, deps_of(index, node.0, node.1)));
    let n: int = w.output.len() as int;
    assert(after.output.take(n + 1)[n] == node_line(node));
    assert(after.output.take(n) =~= shown.output.take(n)) by {
        assert(after.output.take(n + 1).take(n) =~= after.output.take(n));
    }
    assert(shown.output.take(n) =~= w.output);
}

} // verus!
