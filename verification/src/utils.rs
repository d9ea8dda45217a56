//! Versions: how they are ordered, and when one meets a requirement.
use vstd::prelude::*;
use vstd::seq_lib::lemma_seq_contains_after_push;
use std::cmp::Ordering;

use crate::number::{number_of, parse_number};
use crate::order::{text_at_most, text_le, text_le_antisymmetric, text_le_total};
use crate::pattern::{has_prefix, skip_chars, starts_with};
use crate::text::{cat, has_string, same, split_by, split_class, split_extends, strs, strs_push, CharClass};

verus! {

// ---------------------------------------------------------------------------
// The order of versions
// ---------------------------------------------------------------------------

/// How one version stands to another.
#[derive(Clone, Copy, PartialEq, Eq, Structural, Debug)]
pub enum Rank {
    /// It is older.
    Before,
    /// Neither is older.
    Same,
    /// It is newer.
    After,
}

impl Rank {
    /// The rank seen from the other side.
    pub open spec fn flip(self) -> Rank {
        match self {
            Rank::Before => Rank::After,
            Rank::Same => Rank::Same,
            Rank::After => Rank::Before,
        }
    }
}

/// The largest number that a part of a version is read as.
pub const PART_MAX: u64 = 0xffff_ffff;

/// The parts of a version: what stands between its dots and hyphens.
pub open spec fn version_parts(v: Seq<char>) -> Seq<Seq<char>> {
    split_by(v, CharClass::Either('.', '-'))
}

/// The `i`-th part; where a version has no more parts, a zero.
pub open spec fn part_at(parts: Seq<Seq<char>>, i: int) -> Seq<char> {
    if i < parts.len() {
        parts[i]
    } else {
        seq!['0']
    }
}

/// Two parts that are both numbers are ordered as numbers, any others as texts.
pub open spec fn part_rank(a: Seq<char>, b: Seq<char>) -> Rank {
    match (number_of(a, PART_MAX as nat), number_of(b, PART_MAX as nat)) {
        (Some(x), Some(y)) => if x < y {
            Rank::Before
        } else if x == y {
            Rank::Same
        } else {
            Rank::After
        },
        _ => if a == b {
            Rank::Same
        } else if text_le(a, b) {
            Rank::Before
        } else {
            Rank::After
        },
    }
}

/// The number of parts that two versions are ordered by.
pub open spec fn rank_len(p: Seq<Seq<char>>, q: Seq<Seq<char>>) -> int {
    if p.len() < q.len() {
        q.len() as int
    } else {
        p.len() as int
    }
}

/// The first difference from the `i`-th part on decides.
pub open spec fn parts_rank(p: Seq<Seq<char>>, q: Seq<Seq<char>>, i: int) -> Rank
    decreases rank_len(p, q) - i,
{
    if i >= rank_len(p, q) {
        Rank::Same
    } else {
        let r = part_rank(part_at(p, i), part_at(q, i));
        if r != Rank::Same {
            r
        } else {
            parts_rank(p, q, i + 1)
        }
    }
}

/// How version `a` stands to version `b`.
#[verifier::opaque]
pub open spec fn version_rank(a: Seq<char>, b: Seq<char>) -> Rank {
    parts_rank(version_parts(a), version_parts(b), 0)
}

fn rank_parts(a: &str, b: &str) -> (r: Rank)
    ensures
        r == part_rank(a@, b@),
{
    let x = parse_number(a, PART_MAX);
    let y = parse_number(b, PART_MAX);
    match (x, y) {
        (Some(m), Some(n)) => if m < n {
            Rank::Before
        } else if m == n {
            Rank::Same
        } else {
            Rank::After
        },
        _ => if same(a, b) {
            Rank::Same
        } else if text_at_most(a, b) {
            Rank::Before
        } else {
            Rank::After
        },
    }
}

/// How version `a` stands to version `b`.
pub fn rank_versions(a: &str, b: &str) -> (r: Rank)
    ensures
        r == version_rank(a@, b@),
{
    reveal(version_rank);
    let k = CharClass::Either('.', '-');
    let p = split_class(a, k);
    let q = split_class(b, k);
    let n = if p.len() < q.len() {
        q.len()
    } else {
        p.len()
    };
    let mut i: usize = 0;
    while i < n
        invariant
            i <= n,
            n == rank_len(strs(p@), strs(q@)),
            strs(p@) == version_parts(a@),
            strs(q@) == version_parts(b@),
            parts_rank(strs(p@), strs(q@), i as int) == version_rank(a@, b@),
        decreases n - i,
    {
        proof {
            reveal_strlit("0");
            assert("0"@ =~= seq!['0']);
        }
        let x: &str = if i < p.len() {
            p[i].as_str()
        } else {
            "0"
        };
        let y: &str = if i < q.len() {
            q[i].as_str()
        } else {
            "0"
        };
        assert(x@ == part_at(strs(p@), i as int));
        assert(y@ == part_at(strs(q@), i as int));
        let r = rank_parts(x, y);
        if r != Rank::Same {
            return r;
        }
        i = i + 1;
    }
    Rank::Same
}

/// The order of two versions.
///
/// A version is read as parts between dots and hyphens. The first part that
/// differs decides; two numbers are ordered as numbers, anything else as text,
/// and a missing part counts as zero.
pub fn compare_versions(a: &str, b: &str) -> (r: Ordering)
    ensures
        (r == Ordering::Less) == (version_rank(a@, b@) == Rank::Before),
        (r == Ordering::Equal) == (version_rank(a@, b@) == Rank::Same),
        (r == Ordering::Greater) == (version_rank(a@, b@) == Rank::After),
{
    match rank_versions(a, b) {
        Rank::Before => Ordering::Less,
        Rank::Same => Ordering::Equal,
        Rank::After => Ordering::Greater,
    }
}

/// Whether version `ver` meets the requirement `req`: any version meets the
/// empty one, `>=v` asks for one not older than `v`, `>v` for a newer one, and
/// `=v` or `v` for that very text.
pub open spec fn meets(ver: Seq<char>, req: Seq<char>) -> bool {
    if req.len() == 0 {
        true
    } else if has_prefix(req, ">="@) {
        version_rank(ver, req.skip(2)) != Rank::Before
    } else if has_prefix(req, ">"@) {
        version_rank(ver, req.skip(1)) == Rank::After
    } else if has_prefix(req, "="@) {
        ver == req.skip(1)
    } else {
        ver == req
    }
}

/// Whether version `ver` meets the requirement `req`.
pub fn satisfies(ver: &str, req: &str) -> (r: bool)
    ensures
        r == meets(ver@, req@),
{
    proof {
        reveal_strlit("");
        reveal_strlit(">=");
        reveal_strlit(">");
        reveal_strlit("=");
    }
    if same(req, "") {
        assert(req@.len() == 0);
        return true;
    }
    assert(req@.len() > 0) by {
        if req@.len() == 0 {
            assert(req@ =~= ""@);
        }
    }
    if starts_with(req, ">=") {
        let v = skip_chars(req, 2);
        rank_versions(ver, v.as_str()) != Rank::Before
    } else if starts_with(req, ">") {
        let v = skip_chars(req, 1);
        rank_versions(ver, v.as_str()) == Rank::After
    } else if starts_with(req, "=") {
        let v = skip_chars(req, 1);
        same(ver, v.as_str())
    } else {
        same(ver, req)
    }
}

// ---------------------------------------------------------------------------
// Laws of the order
// ---------------------------------------------------------------------------

/// Ranks of parts are seen the other way round from the other side.
pub proof fn part_rank_flips(a: Seq<char>, b: Seq<char>)
    ensures
        part_rank(b, a) == part_rank(a, b).flip(),
{
    text_le_total(a, b);
    if text_le(a, b) && text_le(b, a) {
        text_le_antisymmetric(a, b);
    }
}

proof fn parts_rank_flips(p: Seq<Seq<char>>, q: Seq<Seq<char>>, i: int)
    ensures
        parts_rank(q, p, i) == parts_rank(p, q, i).flip(),
    decreases rank_len(p, q) - i,
{
    if i < rank_len(p, q) {
        part_rank_flips(part_at(p, i), part_at(q, i));
        parts_rank_flips(p, q, i + 1);
    }
}

proof fn parts_rank_same(p: Seq<Seq<char>>, i: int)
    ensures
        parts_rank(p, p, i) == Rank::Same,
    decreases p.len() - i,
{
    if i < p.len() {
        parts_rank_same(p, i + 1);
    }
}

/// A version is neither older nor newer than itself.
pub proof fn version_rank_reflexive(a: Seq<char>)
    ensures
        version_rank(a, a) == Rank::Same,
{
    reveal(version_rank);
    parts_rank_same(version_parts(a), 0);
}

/// Where `a` is older than `b`, `b` is newer than `a`, and the other way round.
pub proof fn version_rank_flips(a: Seq<char>, b: Seq<char>)
    ensures
        version_rank(b, a) == version_rank(a, b).flip(),
{
    reveal(version_rank);
    parts_rank_flips(version_parts(a), version_parts(b), 0);
}

/// Whether every part of a version is a number.
pub open spec fn numeric(v: Seq<char>) -> bool {
    forall|i: int|
        0 <= i < version_parts(v).len() ==> number_of(
            #[trigger] version_parts(v)[i],
            PART_MAX as nat,
        ) is Some
}

proof fn zero_is_a_number()
    ensures
        number_of(seq!['0'], PART_MAX as nat) == Some(0nat),
{
    let z = seq!['0'];
    assert(crate::number::without_plus(z) == z);
    assert(z.drop_last() =~= Seq::<char>::empty());
    assert(crate::number::digits_value(Seq::<char>::empty()) == 0);
    assert(crate::number::digits_value(z) == 0);
}

proof fn numeric_parts_transitive(
    p: Seq<Seq<char>>,
    q: Seq<Seq<char>>,
    r: Seq<Seq<char>>,
    i: int,
)
    requires
        0 <= i,
        forall|j: int| 0 <= j ==> number_of(#[trigger] part_at(p, j), PART_MAX as nat) is Some,
        forall|j: int| 0 <= j ==> number_of(#[trigger] part_at(q, j), PART_MAX as nat) is Some,
        forall|j: int| 0 <= j ==> number_of(#[trigger] part_at(r, j), PART_MAX as nat) is Some,
        parts_rank(p, q, i) != Rank::After,
        parts_rank(q, r, i) != Rank::After,
    ensures
        parts_rank(p, r, i) != Rank::After,
        parts_rank(p, r, i) == Rank::Same ==> parts_rank(p, q, i) == Rank::Same && parts_rank(
            q,
            r,
            i,
        ) == Rank::Same,
    decreases p.len() + q.len() + r.len() - i,
{
    zero_is_a_number();
    if i >= p.len() && i >= q.len() && i >= r.len() {
    } else {
        let a = part_at(p, i);
        let b = part_at(q, i);
        let c = part_at(r, i);
        assert(number_of(a, PART_MAX as nat) is Some);
        assert(number_of(b, PART_MAX as nat) is Some);
        assert(number_of(c, PART_MAX as nat) is Some);
        if part_rank(a, b) == Rank::Same && part_rank(b, c) == Rank::Same {
            if i >= rank_len(p, q) {
                assert(parts_rank(p, q, i + 1) == Rank::Same);
            }
            if i >= rank_len(q, r) {
                assert(parts_rank(q, r, i + 1) == Rank::Same);
            }
            numeric_parts_transitive(p, q, r, i + 1);
            if i >= rank_len(p, r) {
                // Only the middle version has parts left; they are all zero.
                assert(parts_rank(p, r, i) == Rank::Same);
                assert(parts_rank(p, r, i + 1) == Rank::Same);
            }
        } else if i >= rank_len(p, r) {
            // Both ends read as zero here while the middle one does not.
            assert(a == c);
            part_rank_flips(a, b);
            assert(false);
        }
    }
}

proof fn numeric_part_at(v: Seq<char>)
    requires
        numeric(v),
    ensures
        forall|j: int|
            0 <= j ==> number_of(#[trigger] part_at(version_parts(v), j), PART_MAX as nat) is Some,
{
    zero_is_a_number();
    assert forall|j: int| 0 <= j implies number_of(
        #[trigger] part_at(version_parts(v), j),
        PART_MAX as nat,
    ) is Some by {
        if j < version_parts(v).len() {
            assert(number_of(version_parts(v)[j], PART_MAX as nat) is Some);
        }
    }
}

/// Among versions whose parts are all numbers, "not newer than" is transitive,
/// and versions that rank the same do so throughout.
pub proof fn version_rank_transitive(a: Seq<char>, b: Seq<char>, c: Seq<char>)
    requires
        numeric(a),
        numeric(b),
        numeric(c),
        version_rank(a, b) != Rank::After,
        version_rank(b, c) != Rank::After,
    ensures
        version_rank(a, c) != Rank::After,
        version_rank(a, c) == Rank::Same ==> version_rank(a, b) == Rank::Same && version_rank(b, c)
            == Rank::Same,
{
    reveal(version_rank);
    numeric_part_at(a);
    numeric_part_at(b);
    numeric_part_at(c);
    numeric_parts_transitive(version_parts(a), version_parts(b), version_parts(c), 0);
}

/// Every version meets the empty requirement; a version meets `>=` and `=` of
/// itself, and not `>` of itself.
pub proof fn meets_itself(v: Seq<char>)
    ensures
        meets(v, Seq::<char>::empty()),
        meets(v, ">="@ + v),
        meets(v, "="@ + v),
        (v.len() == 0 || v[0] != '=') ==> !meets(v, ">"@ + v),
{
    reveal_strlit(">=");
    reveal_strlit(">");
    reveal_strlit("=");
    version_rank_reflexive(v);
    let ge = ">="@ + v;
    assert(ge.take(2) =~= ">="@);
    assert(ge.skip(2) =~= v);
    let eq = "="@ + v;
    assert(eq.take(1) =~= "="@);
    assert(eq.skip(1) =~= v);
    if v.len() > 0 {
        assert(eq.take(2)[0] == '=');
    }
    assert(eq.take(1)[0] == '=');
    let gt = ">"@ + v;
    assert(gt.take(1) =~= ">"@);
    assert(gt.skip(1) =~= v);
    if v.len() > 0 && v[0] != '=' {
        assert(gt.take(2)[1] == v[0]);
    }
}

/// What is newer than `v` meets `>=v` too, unless `v` starts with an equals sign.
pub proof fn newer_is_not_older(ver: Seq<char>, v: Seq<char>)
    requires
        meets(ver, ">"@ + v),
        v.len() == 0 || v[0] != '=',
    ensures
        meets(ver, ">="@ + v),
{
    reveal_strlit(">=");
    reveal_strlit(">");
    let ge = ">="@ + v;
    assert(ge.take(2) =~= ">="@);
    assert(ge.skip(2) =~= v);
    let gt = ">"@ + v;
    assert(gt.take(1) =~= ">"@);
    assert(gt.skip(1) =~= v);
    if v.len() > 0 {
        assert(gt.take(2)[1] == v[0]);
    }
}

/// What the requirements mean: nothing asks for nothing, `>=v` for a version that is
/// not older than `v`, `>v` for one that is newer, `=v` for the text `v`, and a
/// version by itself for that text. A `v` behind a lone `>` does not begin with an
/// equals sign, and a version by itself begins with neither sign.
pub proof fn what_requirements_mean(w: Seq<char>, v: Seq<char>)
    ensures
        meets(w, Seq::<char>::empty()),
        meets(w, seq!['>', '='] + v) <==> version_rank(w, v) != Rank::Before,
        v.len() == 0 || v[0] != '=' ==> (meets(w, seq!['>'] + v) <==> version_rank(w, v)
            == Rank::After),
        meets(w, seq!['='] + v) <==> w == v,
        v.len() > 0 && v[0] != '>' && v[0] != '=' ==> (meets(w, v) <==> w == v),
{
    reveal_strlit(">=");
    reveal_strlit(">");
    reveal_strlit("=");
    let ge = seq!['>', '='] + v;
    assert(ge.take(2) =~= ">="@);
    assert(ge.skip(2) =~= v);
    let eq = seq!['='] + v;
    assert(eq.take(1) =~= "="@);
    assert(eq.skip(1) =~= v);
    assert(eq[0] == '=');
    if has_prefix(eq, ">="@) {
        assert(eq.take(2)[0] == '=');
    }
    if has_prefix(eq, ">"@) {
        assert(eq.take(1)[0] == '=');
    }
    let gt = seq!['>'] + v;
    assert(gt.take(1) =~= ">"@);
    assert(gt.skip(1) =~= v);
    if has_prefix(gt, ">="@) {
        assert(gt.take(2)[1] == v[0]);
    }
    if v.len() > 0 {
        if has_prefix(v, ">="@) {
            assert(v.take(2)[0] == v[0]);
        }
        if has_prefix(v, ">"@) {
            assert(v.take(1)[0] == v[0]);
        }
        if has_prefix(v, "="@) {
            assert(v.take(1)[0] == v[0]);
        }
    }
}

proof fn parts_rank_at(p: Seq<Seq<char>>, q: Seq<Seq<char>>, i: int, n: int)
    requires
        0 <= i <= n <= rank_len(p, q),
        forall|j: int| i <= j < n ==> part_rank(#[trigger] part_at(p, j), part_at(q, j)) == Rank::Same,
    ensures
        parts_rank(p, q, i) == parts_rank(p, q, n),
    decreases n - i,
{
    if i < n {
        assert(part_rank(part_at(p, i), part_at(q, i)) == Rank::Same);
        parts_rank_at(p, q, i + 1, n);
    }
}

/// Whether two parts of versions count as one: as texts, or as numbers of up to
/// thirty-two bits.
pub open spec fn alike(a: Seq<char>, b: Seq<char>) -> bool {
    a == b || (number_of(a, 0xffff_ffff) is Some && number_of(a, 0xffff_ffff) == number_of(
        b,
        0xffff_ffff,
    ))
}

/// The first part at which two versions differ decides, wherever it stands: of two
/// numbers the larger is newer, of other texts the later one.
pub proof fn first_difference_decides(a: Seq<char>, b: Seq<char>, i: int)
    requires
        ({
            let p = split_by(a, CharClass::Either('.', '-'));
            let q = split_by(b, CharClass::Either('.', '-'));
            &&& 0 <= i < p.len()
            &&& i < q.len()
            &&& forall|j: int| 0 <= j < i ==> alike(#[trigger] p[j], q[j])
        }),
    ensures
        ({
            let x = split_by(a, CharClass::Either('.', '-'))[i];
            let y = split_by(b, CharClass::Either('.', '-'))[i];
            match (number_of(x, 0xffff_ffff), number_of(y, 0xffff_ffff)) {
                (Some(m), Some(n)) => (m < n ==> version_rank(a, b) == Rank::Before) && (m > n
                    ==> version_rank(a, b) == Rank::After),
                _ => x != y ==> version_rank(a, b) == (if text_le(x, y) {
                    Rank::Before
                } else {
                    Rank::After
                }),
            }
        }),
{
    reveal(version_rank);
    let p = version_parts(a);
    let q = version_parts(b);
    assert forall|j: int| 0 <= j < i implies part_rank(#[trigger] part_at(p, j), part_at(q, j))
        == Rank::Same by {
        assert(alike(p[j], q[j]));
    }
    parts_rank_at(p, q, 0, i);
}

/// Versions whose parts are alike, one by one, rank the same; and only they do, among
/// versions with equally many parts.
pub proof fn same_rank_means_alike(a: Seq<char>, b: Seq<char>)
    requires
        split_by(a, CharClass::Either('.', '-')).len() == split_by(b, CharClass::Either('.', '-')).len(),
    ensures
        version_rank(a, b) == Rank::Same <==> forall|i: int|
            0 <= i < split_by(a, CharClass::Either('.', '-')).len() ==> alike(
                #[trigger] split_by(a, CharClass::Either('.', '-'))[i],
                split_by(b, CharClass::Either('.', '-'))[i],
            ),
{
    reveal(version_rank);
    let p = version_parts(a);
    let q = version_parts(b);
    let n = p.len() as int;
    if forall|i: int| 0 <= i < p.len() ==> alike(#[trigger] p[i], q[i]) {
        assert forall|j: int| 0 <= j < n implies part_rank(#[trigger] part_at(p, j), part_at(q, j))
            == Rank::Same by {
            assert(alike(p[j], q[j]));
        }
        parts_rank_at(p, q, 0, n);
    }
    if parts_rank(p, q, 0) == Rank::Same {
        same_parts_are_alike(p, q, 0);
    }
}

proof fn same_parts_are_alike(p: Seq<Seq<char>>, q: Seq<Seq<char>>, i: int)
    requires
        p.len() == q.len(),
        0 <= i <= p.len(),
        parts_rank(p, q, i) == Rank::Same,
    ensures
        forall|j: int| i <= j < p.len() ==> alike(#[trigger] p[j], q[j]),
    decreases p.len() - i,
{
    if i < p.len() {
        same_parts_are_alike(p, q, i + 1);
        assert(alike(p[i], q[i]));
    }
}

/// A part that is missing counts as zero: a version with another number behind it is
/// newer, unless that number is zero.
pub proof fn missing_part_counts_as_zero(a: Seq<char>, c: char, b: Seq<char>)
    requires
        c == '.' || c == '-',
        number_of(b, 0xffff_ffff) is Some,
        forall|i: int| 0 <= i < b.len() ==> #[trigger] b[i] != '.' && b[i] != '-',
    ensures
        version_rank(a, a.push(c) + b) == (if number_of(b, 0xffff_ffff) == Some(0nat) {
            Rank::Same
        } else {
            Rank::Before
        }),
{
    reveal(version_rank);
    split_extends(a, c, b, CharClass::Either('.', '-'));
    zero_is_a_number();
    let p = version_parts(a);
    let q = version_parts(a.push(c) + b);
    assert(q == p.push(b));
    let n = p.len() as int;
    assert forall|j: int| 0 <= j < n implies part_rank(#[trigger] part_at(p, j), part_at(q, j))
        == Rank::Same by {
        assert(p[j] == q[j]);
    }
    parts_rank_at(p, q, 0, n);
    assert(part_at(q, n) == b);
    assert(parts_rank(p, q, n + 1) == Rank::Same);
}

/// None of the versions is newer than the newest, if their parts are all numbers.
pub proof fn nothing_is_newer_than_the_newest(s: Seq<Seq<char>>, i: int)
    requires
        0 <= i < s.len(),
        forall|j: int| 0 <= j < s.len() ==> numeric(#[trigger] s[j]),
    ensures
        newest(s) matches Some(v) && version_rank(s[i], v) != Rank::After,
{
    broadcast use vstd::seq_lib::group_to_multiset_ensures;

    version_sorted_keeps(s);
    version_sorted_orders(s);
    let t = version_sorted(s);
    assert(s.contains(s[i]));
    assert(t.to_multiset().count(s[i]) > 0);
    assert(t.contains(s[i]));
    let k = choose|k: int| 0 <= k < t.len() && t[k] == s[i];
    if k < t.len() - 1 {
        assert(version_rank(t[k], t[t.len() - 1]) != Rank::After);
    } else {
        version_rank_reflexive(s[i]);
    }
}

// ---------------------------------------------------------------------------
// Sorting versions
// ---------------------------------------------------------------------------

/// `s` with `v` put behind every version at its end that is not newer.
pub open spec fn place_version(s: Seq<Seq<char>>, v: Seq<char>) -> Seq<Seq<char>>
    decreases s.len(),
{
    if s.len() == 0 || version_rank(s.last(), v) != Rank::After {
        s.push(v)
    } else {
        place_version(s.drop_last(), v).push(s.last())
    }
}

/// The versions in order, oldest first; versions that rank the same keep their
/// places relative to each other.
pub open spec fn version_sorted(s: Seq<Seq<char>>) -> Seq<Seq<char>>
    decreases s.len(),
{
    if s.len() == 0 {
        s
    } else {
        place_version(version_sorted(s.drop_last()), s.last())
    }
}

/// The newest of the versions: the last one in order.
pub open spec fn newest(s: Seq<Seq<char>>) -> Option<Seq<char>> {
    if s.len() == 0 {
        None
    } else {
        Some(version_sorted(s).last())
    }
}

proof fn place_version_at(s: Seq<Seq<char>>, v: Seq<char>, i: int)
    requires
        0 <= i <= s.len(),
        forall|j: int| i <= j < s.len() ==> version_rank(#[trigger] s[j], v) == Rank::After,
        i > 0 ==> version_rank(s[i - 1], v) != Rank::After,
    ensures
        place_version(s, v) == s.insert(i, v),
    decreases s.len(),
{
    if i == s.len() {
        assert(s.insert(i, v) =~= s.push(v));
    } else {
        let t = s.drop_last();
        assert(version_rank(s[s.len() - 1], v) == Rank::After);
        assert forall|j: int| i <= j < t.len() implies version_rank(#[trigger] t[j], v)
            == Rank::After by {
            assert(t[j] == s[j]);
        }
        place_version_at(t, v, i);
        assert(t.insert(i, v).push(s.last()) =~= s.insert(i, v));
    }
}

/// The versions in order, oldest first.
pub fn sort_versions(v: &Vec<String>) -> (r: Vec<String>)
    ensures
        strs(r@) == version_sorted(strs(v@)),
        r@.len() == v@.len(),
{
    let mut out: Vec<String> = Vec::new();
    let mut n: usize = 0;
    assert(strs(v@).take(0) =~= strs(out@));
    while n < v.len()
        invariant
            n <= v@.len(),
            out@.len() == n,
            strs(out@) == version_sorted(strs(v@).take(n as int)),
        decreases v@.len() - n,
    {
        let x = v[n].clone();
        let mut i: usize = out.len();
        while i > 0 && rank_versions(out[i - 1].as_str(), x.as_str()) == Rank::After
            invariant
                i <= out@.len(),
                forall|j: int|
                    i <= j < out@.len() ==> version_rank(#[trigger] strs(out@)[j], x@)
                        == Rank::After,
            decreases i,
        {
            assert(strs(out@)[i - 1] == out@[i - 1]@);
            i = i - 1;
        }
        proof {
            if i > 0 {
                assert(strs(out@)[i - 1] == out@[i - 1]@);
            }
            place_version_at(strs(out@), x@, i as int);
            assert(strs(out@.insert(i as int, x)) =~= strs(out@).insert(i as int, x@));
            let longer = strs(v@).take(n + 1);
            assert(longer.drop_last() =~= strs(v@).take(n as int));
            assert(longer.last() == x@);
        }
        out.insert(i, x);
        n = n + 1;
    }
    assert(strs(v@).take(v@.len() as int) =~= strs(v@));
    out
}

/// The newest of the versions.
pub fn newest_version(v: &Vec<String>) -> (r: Option<String>)
    ensures
        match r {
            Some(x) => newest(strs(v@)) == Some(x@),
            None => v@.len() == 0,
        },
{
    if v.len() == 0 {
        return None;
    }
    let s = sort_versions(v);
    let last = s[s.len() - 1].clone();
    assert(strs(s@).last() == last@);
    Some(last)
}

proof fn place_version_keeps(s: Seq<Seq<char>>, v: Seq<char>)
    ensures
        place_version(s, v).len() == s.len() + 1,
        place_version(s, v).to_multiset() == s.to_multiset().insert(v),
    decreases s.len(),
{
    broadcast use vstd::seq_lib::to_multiset_build;

    if s.len() == 0 || version_rank(s.last(), v) != Rank::After {
    } else {
        place_version_keeps(s.drop_last(), v);
        assert(s.drop_last().push(s.last()) =~= s);
        assert(s.drop_last().to_multiset().insert(v).insert(s.last()) =~= s.to_multiset().insert(
            v,
        ));
    }
}

/// Sorting neither loses nor invents a version.
pub proof fn version_sorted_keeps(s: Seq<Seq<char>>)
    ensures
        version_sorted(s).len() == s.len(),
        version_sorted(s).to_multiset() == s.to_multiset(),
    decreases s.len(),
{
    broadcast use vstd::seq_lib::to_multiset_build;

    if s.len() > 0 {
        version_sorted_keeps(s.drop_last());
        place_version_keeps(version_sorted(s.drop_last()), s.last());
        assert(s.drop_last().push(s.last()) =~= s);
    }
}

/// The newest of the versions is one of them.
pub proof fn newest_is_one_of_them(s: Seq<Seq<char>>)
    requires
        s.len() > 0,
    ensures
        newest(s) matches Some(v) && s.contains(v),
{
    broadcast use vstd::seq_lib::group_to_multiset_ensures;

    version_sorted_keeps(s);
    let t = version_sorted(s);
    assert(t.contains(t.last()));
    assert(t.to_multiset().count(t.last()) > 0);
}

/// Whether no version stands before an older one.
pub open spec fn in_version_order(s: Seq<Seq<char>>) -> bool {
    forall|i: int, j: int|
        0 <= i < j < s.len() ==> version_rank(#[trigger] s[i], #[trigger] s[j]) != Rank::After
}

proof fn place_version_orders(s: Seq<Seq<char>>, v: Seq<char>)
    requires
        in_version_order(s),
        numeric(v),
        forall|i: int| 0 <= i < s.len() ==> numeric(#[trigger] s[i]),
    ensures
        in_version_order(place_version(s, v)),
        forall|i: int| 0 <= i < s.len() + 1 ==> numeric(#[trigger] place_version(s, v)[i]),
        place_version(s, v).len() == s.len() + 1,
        forall|w: Seq<char>| #[trigger]
            place_version(s, v).contains(w) ==> w == v || s.contains(w),
    decreases s.len(),
{
    let p = place_version(s, v);
    if s.len() == 0 {
    } else if version_rank(s.last(), v) != Rank::After {
        assert forall|i: int, j: int| 0 <= i < j < p.len() implies version_rank(
            #[trigger] p[i],
            #[trigger] p[j],
        ) != Rank::After by {
            if j == s.len() && i < s.len() - 1 {
                version_rank_transitive(s[i], s.last(), v);
            }
        }
    } else {
        let t = s.drop_last();
        let q = place_version(t, v);
        assert forall|i: int| 0 <= i < t.len() implies numeric(#[trigger] t[i]) by {
            assert(t[i] == s[i]);
        }
        place_version_orders(t, v);
        assert(p == q.push(s.last()));
        version_rank_flips(s.last(), v);
        assert forall|i: int, j: int| 0 <= i < j < p.len() implies version_rank(
            #[trigger] p[i],
            #[trigger] p[j],
        ) != Rank::After by {
            if j == q.len() {
                assert(q.contains(q[i]));
                if q[i] != v {
                    let k = choose|k: int| 0 <= k < t.len() && t[k] == q[i];
                    assert(s[k] == q[i]);
                    assert(s[s.len() - 1] == s.last());
                }
            }
        }
        assert forall|w: Seq<char>| #[trigger] p.contains(w) implies w == v || s.contains(w) by {
            let k = choose|k: int| 0 <= k < p.len() && p[k] == w;
            if k < q.len() {
                assert(q.contains(q[k]));
                if w != v {
                    let m = choose|m: int| 0 <= m < t.len() && t[m] == w;
                    assert(s[m] == w);
                }
            } else {
                assert(s[s.len() - 1] == w);
            }
        }
    }
}

/// Versions whose parts are all numbers come out in order, and the last of
/// them is one that none is newer than.
pub proof fn version_sorted_orders(s: Seq<Seq<char>>)
    requires
        forall|i: int| 0 <= i < s.len() ==> numeric(#[trigger] s[i]),
    ensures
        in_version_order(version_sorted(s)),
        forall|i: int| 0 <= i < s.len() ==> numeric(#[trigger] version_sorted(s)[i]),
        version_sorted(s).len() == s.len(),
    decreases s.len(),
{
    if s.len() > 0 {
        let t = s.drop_last();
        assert forall|i: int| 0 <= i < t.len() implies numeric(#[trigger] t[i]) by {
            assert(t[i] == s[i]);
        }
        version_sorted_orders(t);
        assert(numeric(s[s.len() - 1]));
        place_version_orders(version_sorted(t), s.last());
    }
}

// ---------------------------------------------------------------------------
// System packages
// ---------------------------------------------------------------------------

/// The texts of `wanted` that are not in `have`, in their order.
pub open spec fn missing_from(wanted: Seq<Seq<char>>, have: Seq<Seq<char>>) -> Seq<Seq<char>>
    decreases wanted.len(),
{
    if wanted.len() == 0 {
        Seq::empty()
    } else {
        let rest = missing_from(wanted.drop_last(), have);
        if have.contains(wanted.last()) {
            rest
        } else {
            rest.push(wanted.last())
        }
    }
}

/// The system packages that are wanted and not installed.
pub fn missing_deb_packages(wanted: &Vec<String>, installed: &Vec<String>) -> (r: Vec<String>)
    ensures
        strs(r@) == missing_from(strs(wanted@), strs(installed@)),
{
    strings_missing_from(wanted, installed)
}

/// The strings of `wanted` that are not in `have`, in their order.
pub fn strings_missing_from(wanted: &Vec<String>, have: &Vec<String>) -> (r: Vec<String>)
    ensures
        strs(r@) == missing_from(strs(wanted@), strs(have@)),
{
    let mut out: Vec<String> = Vec::new();
    let mut i: usize = 0;
    assert(strs(wanted@).take(0) =~= Seq::<Seq<char>>::empty());
    assert(strs(out@) =~= Seq::<Seq<char>>::empty());
    while i < wanted.len()
        invariant
            i <= wanted@.len(),
            strs(out@) == missing_from(strs(wanted@).take(i as int), strs(have@)),
        decreases wanted@.len() - i,
    {
        proof {
            let longer = strs(wanted@).take(i + 1);
            assert(longer.drop_last() =~= strs(wanted@).take(i as int));
            assert(longer.last() == wanted@[i as int]@);
            strs_push(out@, wanted@[i as int]);
        }
        if !has_string(have, wanted[i].as_str()) {
            let s = wanted[i].clone();
            proof {
                strs_push(out@, s);
            }
            out.push(s);
        }
        i = i + 1;
    }
    assert(strs(wanted@).take(wanted@.len() as int) =~= strs(wanted@));
    out
}

// ---------------------------------------------------------------------------
// Downloads and the lock
// ---------------------------------------------------------------------------

/// The command that downloads a file.
pub fn download_command(url: &str, dest: &str) -> (r: Vec<String>)
    ensures
        strs(r@) == seq!["curl"@, "-L"@, "--progress-bar"@, "-o"@, dest@, url@],
{
    let mut v: Vec<String> = Vec::new();
    v.push("curl".to_owned());
    v.push("-L".to_owned());
    v.push("--progress-bar".to_owned());
    v.push("-o".to_owned());
    v.push(dest.to_owned());
    v.push(url.to_owned());
    assert(strs(v@) =~= seq!["curl"@, "-L"@, "--progress-bar"@, "-o"@, dest@, url@]);
    v
}

/// The text for a lock that another process holds.
pub fn lock_busy_message(path: &str) -> (r: String)
    ensures
        r@ == "Another hpm process is already running (install/remove/update/...).\n  Wait for it to finish, or if you're sure nothing is running, remove the stale lock:\n  "@
            + path@,
{
    cat(
        "Another hpm process is already running (install/remove/update/...).\n  Wait for it to finish, or if you're sure nothing is running, remove the stale lock:\n  ",
        path,
    )
}

/// What is missing are the wanted texts that are not there, in their order.
pub proof fn missing_is_what_is_not_there(
    a: Seq<Seq<char>>,
    b: Seq<Seq<char>>,
    have: Seq<Seq<char>>,
    x: Seq<char>,
)
    ensures
        missing_from(a + b, have) == missing_from(a, have) + missing_from(b, have),
        missing_from(a, have).contains(x) <==> a.contains(x) && !have.contains(x),
    decreases a.len() + b.len(),
{
    if b.len() > 0 {
        missing_is_what_is_not_there(a, b.drop_last(), have, x);
        assert((a + b).drop_last() =~= a + b.drop_last());
        assert((a + b).last() == b.last());
        assert(missing_from(a + b, have) =~= missing_from(a, have) + missing_from(b, have));
    } else {
        assert(a + b =~= a);
        assert(missing_from(a + b, have) =~= missing_from(a, have) + missing_from(b, have));
        if a.len() > 0 {
            let t = a.drop_last();
            missing_is_what_is_not_there(t, b, have, x);
            let rest = missing_from(t, have);
            assert(a =~= t.push(a.last()));
            lemma_seq_contains_after_push(t, a.last(), x);
            lemma_seq_contains_after_push(rest, a.last(), x);
        }
    }
}

/// With one more version the newest is that one, unless the newest of the others is newer.
pub proof fn newest_with_one_more(s: Seq<Seq<char>>, v: Seq<char>)
    ensures
        newest(Seq::empty()) is None,
        newest(s.push(v)) == Some(
            match newest(s) {
                Some(w) => if version_rank(w, v) == Rank::After {
                    w
                } else {
                    v
                },
                None => v,
            },
        ),
{
    assert(s.push(v).drop_last() =~= s);
    version_sorted_keeps(s);
    version_sorted_keeps(s.push(v));
    let t = version_sorted(s);
    let r = version_sorted(s.push(v));
    assert(r == place_version(t, v));
}

proof fn version_placed_among_neighbours(s: Seq<Seq<char>>, v: Seq<char>)
    requires
        forall|i: int, j: int|
            0 <= i < j < s.len() && j == i + 1 ==> version_rank(#[trigger] s[i], #[trigger] s[j]) != Rank::After,
    ensures
        forall|i: int, j: int|
            0 <= i < j < place_version(s, v).len() && j == i + 1 ==> version_rank(
                #[trigger] place_version(s, v)[i],
                #[trigger] place_version(s, v)[j],
            ) != Rank::After,
        place_version(s, v).len() == s.len() + 1,
        place_version(s, v).last() == v || (s.len() > 0 && place_version(s, v).last() == s.last()),
    decreases s.len(),
{
    let r = place_version(s, v);
    if s.len() == 0 || version_rank(s.last(), v) != Rank::After {
        assert(r == s.push(v));
        assert forall|i: int, j: int| 0 <= i < j < r.len() && j == i + 1 implies version_rank(
            #[trigger] r[i],
            #[trigger] r[j],
        ) != Rank::After by {
            assert(s[i] == r[i]);
            if j < s.len() {
                assert(s[j] == r[j]);
            }
        }
    } else {
        let t = s.drop_last();
        assert forall|i: int, j: int| 0 <= i < j < t.len() && j == i + 1 implies version_rank(
            #[trigger] t[i],
            #[trigger] t[j],
        ) != Rank::After by {
            assert(t[i] == s[i] && t[j] == s[j]);
        }
        version_placed_among_neighbours(t, v);
        let q = place_version(t, v);
        assert(r == q.push(s.last()));
        version_rank_flips(s.last(), v);
        assert forall|i: int, j: int| 0 <= i < j < r.len() && j == i + 1 implies version_rank(
            #[trigger] r[i],
            #[trigger] r[j],
        ) != Rank::After by {
            assert(q[i] == r[i]);
            if j < q.len() {
                assert(q[j] == r[j]);
            } else {
                assert(r[j] == s.last() && r[i] == q.last());
                if q.last() != v {
                    assert(t.last() == s[s.len() - 2]);
                    assert(s[s.len() - 1] == s.last());
                }
            }
        }
    }
}

/// Whatever the versions are, none stands right before an older one once they are sorted.
pub proof fn sorted_neighbours_are_in_order(s: Seq<Seq<char>>)
    ensures
        forall|i: int, j: int|
            0 <= i < j < version_sorted(s).len() && j == i + 1 ==> version_rank(
                #[trigger] version_sorted(s)[i],
                #[trigger] version_sorted(s)[j],
            ) != Rank::After,
    decreases s.len(),
{
    if s.len() > 0 {
        sorted_neighbours_are_in_order(s.drop_last());
        version_placed_among_neighbours(version_sorted(s.drop_last()), s.last());
    }
}

} // verus!
