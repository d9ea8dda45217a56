//! The order of texts, and sorting by it.
use vstd::prelude::*;

use crate::collections::pair_texts;
use crate::text::{same, strs, strs_push, to_chars};

verus! {

/// Whether `a` comes before `b` or equals it: character by character, by code point.
pub open spec fn text_le(a: Seq<char>, b: Seq<char>) -> bool
    decreases a.len(),
{
    if a.len() == 0 {
        true
    } else if b.len() == 0 {
        false
    } else if a[0] != b[0] {
        a[0] < b[0]
    } else {
        text_le(a.drop_first(), b.drop_first())
    }
}

/// Whether `a` comes before `b`.
pub open spec fn text_lt(a: Seq<char>, b: Seq<char>) -> bool {
    text_le(a, b) && a != b
}

/// Every text comes before or equals itself.
pub proof fn text_le_reflexive(a: Seq<char>)
    ensures
        text_le(a, a),
    decreases a.len(),
{
    if a.len() > 0 {
        text_le_reflexive(a.drop_first());
    }
}

/// Of two texts one comes before the other, unless they are equal.
pub proof fn text_le_total(a: Seq<char>, b: Seq<char>)
    ensures
        text_le(a, b) || text_le(b, a),
    decreases a.len(),
{
    if a.len() > 0 && b.len() > 0 && a[0] == b[0] {
        text_le_total(a.drop_first(), b.drop_first());
    }
}

/// Two texts of which each comes before or equals the other are equal.
pub proof fn text_le_antisymmetric(a: Seq<char>, b: Seq<char>)
    requires
        text_le(a, b),
        text_le(b, a),
    ensures
        a == b,
    decreases a.len(),
{
    if a.len() == 0 || b.len() == 0 {
        assert(a =~= b);
    } else {
        text_le_antisymmetric(a.drop_first(), b.drop_first());
        assert(a =~= seq![a[0]] + a.drop_first());
        assert(b =~= seq![b[0]] + b.drop_first());
    }
}

/// The order of texts is transitive.
pub proof fn text_le_transitive(a: Seq<char>, b: Seq<char>, c: Seq<char>)
    requires
        text_le(a, b),
        text_le(b, c),
    ensures
        text_le(a, c),
    decreases a.len(),
{
    if a.len() > 0 && b.len() > 0 && c.len() > 0 && a[0] == b[0] && b[0] == c[0] {
        text_le_transitive(a.drop_first(), b.drop_first(), c.drop_first());
    }
}

/// Whether `a` comes before `b` or equals it.
pub fn text_at_most(a: &str, b: &str) -> (r: bool)
    ensures
        r == text_le(a@, b@),
{
    let v = to_chars(a);
    let w = to_chars(b);
    let mut i: usize = 0;
    assert(v@.skip(0) =~= v@);
    assert(w@.skip(0) =~= w@);
    while i < v.len() && i < w.len()
        invariant
            i <= v@.len(),
            i <= w@.len(),
            v@ == a@,
            w@ == b@,
            text_le(a@, b@) == text_le(v@.skip(i as int), w@.skip(i as int)),
        decreases v@.len() - i,
    {
        if v[i] != w[i] {
            return v[i] < w[i];
        }
        assert(v@.skip(i as int).drop_first() =~= v@.skip(i + 1));
        assert(w@.skip(i as int).drop_first() =~= w@.skip(i + 1));
        i = i + 1;
    }
    i == v.len()
}

/// Whether the texts are in order.
pub open spec fn sorted(s: Seq<Seq<char>>) -> bool {
    forall|i: int, j: int| 0 <= i < j < s.len() ==> text_le(#[trigger] s[i], #[trigger] s[j])
}

/// Whether the texts are in order and none occurs twice.
pub open spec fn strictly_sorted(s: Seq<Seq<char>>) -> bool {
    forall|i: int, j: int| 0 <= i < j < s.len() ==> text_lt(#[trigger] s[i], #[trigger] s[j])
}

/// Putting a text into its place among texts in order.
fn insert_sorted(v: &mut Vec<String>, x: String)
    requires
        sorted(strs(old(v)@)),
    ensures
        sorted(strs(final(v)@)),
        strs(final(v)@).to_multiset() == strs(old(v)@).to_multiset().insert(x@),
        final(v)@.len() == old(v)@.len() + 1,
{
    let ghost before = strs(v@);
    let mut i: usize = v.len();
    while i > 0 && !text_at_most(v[i - 1].as_str(), x.as_str())
        invariant
            i <= v@.len(),
            before == strs(v@),
            forall|j: int| i <= j < v@.len() ==> text_le(x@, #[trigger] before[j]),
        decreases i,
    {
        proof {
            text_le_total(v@[i - 1]@, x@);
            assert(before[i - 1] == v@[i - 1]@);
        }
        i = i - 1;
    }
    let ghost text = x@;
    let ghost place = i as int;
    proof {
        assert(place > 0 ==> text_le(before[place - 1], text));
        assert forall|j: int| 0 <= j < place implies text_le(#[trigger] before[j], text) by {
            if j < place - 1 {
                text_le_transitive(before[j], before[place - 1], text);
            }
        }
        before.to_multiset_ensures();
        vstd::seq_lib::to_multiset_insert(before, place, text);
    }
    v.insert(i, x);
    proof {
        assert(strs(v@) =~= before.insert(place, text));
        let after = strs(v@);
        assert forall|a: int, b: int| 0 <= a < b < after.len() implies text_le(
            #[trigger] after[a],
            #[trigger] after[b],
        ) by {
            let old_a = if a < place { a } else { a - 1 };
            let old_b = if b < place { b } else { b - 1 };
            if a != place && b != place {
                assert(after[a] == before[old_a]);
                assert(after[b] == before[old_b]);
            }
        }
    }
}

/// The texts in order.
pub fn sort_strings(v: Vec<String>) -> (r: Vec<String>)
    ensures
        sorted(strs(r@)),
        strs(r@).to_multiset() == strs(v@).to_multiset(),
        r@.len() == v@.len(),
{
    let mut out: Vec<String> = Vec::new();
    let mut i: usize = 0;
    assert(strs(v@).take(0) =~= strs(out@));
    while i < v.len()
        invariant
            i <= v@.len(),
            out@.len() == i,
            sorted(strs(out@)),
            strs(out@).to_multiset() == strs(v@).take(i as int).to_multiset(),
        decreases v@.len() - i,
    {
        proof {
            let done = strs(v@).take(i as int);
            assert(strs(v@).take(i + 1) =~= done.push(v@[i as int]@));
            done.to_multiset_ensures();
        }
        insert_sorted(&mut out, v[i].clone());
        i = i + 1;
    }
    assert(strs(v@).take(v@.len() as int) =~= strs(v@));
    out
}

/// Sorting keeps the texts that occur.
pub proof fn same_multiset_contains(a: Seq<Seq<char>>, b: Seq<Seq<char>>)
    requires
        a.to_multiset() == b.to_multiset(),
    ensures
        forall|x: Seq<char>| a.contains(x) == b.contains(x),
{
    a.to_multiset_ensures();
    b.to_multiset_ensures();
    assert forall|x: Seq<char>| a.contains(x) == b.contains(x) by {
        assert(a.contains(x) == (a.to_multiset().count(x) > 0));
        assert(b.contains(x) == (b.to_multiset().count(x) > 0));
    }
}

/// Two strictly sorted lists with the same members are the same list.
pub proof fn strictly_sorted_unique(a: Seq<Seq<char>>, b: Seq<Seq<char>>)
    requires
        strictly_sorted(a),
        strictly_sorted(b),
        forall|x: Seq<char>| #[trigger] a.contains(x) == b.contains(x),
    ensures
        a == b,
    decreases a.len(),
{
    if a.len() == 0 {
        if b.len() > 0 {
            assert(b.contains(b[0]));
            assert(a.contains(b[0]));
        }
        assert(a =~= b);
    } else {
        assert(a.contains(a.last()));
        assert(b.contains(a.last()));
        assert(b.contains(b.last()));
        assert(a.contains(b.last()));
        let j = choose|j: int| 0 <= j < b.len() && b[j] == a.last();
        let i = choose|i: int| 0 <= i < a.len() && a[i] == b.last();
        if a.last() != b.last() {
            assert(text_lt(b[j], b[b.len() - 1]));
            assert(text_lt(a[i], a[a.len() - 1]));
            text_le_antisymmetric(a.last(), b.last());
        }
        let p = a.drop_last();
        let q = b.drop_last();
        assert forall|x: Seq<char>| #[trigger] p.contains(x) == q.contains(x) by {
            if p.contains(x) {
                let m = choose|m: int| 0 <= m < p.len() && p[m] == x;
                assert(text_lt(a[m], a[a.len() - 1]));
                assert(a.contains(a[m]));
                let n = choose|n: int| 0 <= n < b.len() && b[n] == x;
                assert(q[n] == x);
            }
            if q.contains(x) {
                let m = choose|m: int| 0 <= m < q.len() && q[m] == x;
                assert(text_lt(b[m], b[b.len() - 1]));
                assert(b.contains(b[m]));
                assert(a.contains(x));
                let n = choose|n: int| 0 <= n < a.len() && a[n] == x;
                assert(p[n] == x);
            }
        }
        strictly_sorted_unique(p, q);
        assert(a =~= p.push(a.last()));
        assert(b =~= q.push(b.last()));
    }
}

/// The texts in order, each once.
pub fn sort_unique(v: Vec<String>) -> (r: Vec<String>)
    ensures
        strictly_sorted(strs(r@)),
        forall|x: Seq<char>| #[trigger] strs(r@).contains(x) == strs(v@).contains(x),
{
    let ghost texts = strs(v@);
    let s = sort_strings(v);
    proof {
        same_multiset_contains(strs(s@), texts);
    }
    let mut out: Vec<String> = Vec::new();
    let mut i: usize = 0;
    while i < s.len()
        invariant
            i <= s@.len(),
            sorted(strs(s@)),
            strictly_sorted(strs(out@)),
            (i == 0) == (out@.len() == 0),
            i > 0 ==> strs(out@).last() == strs(s@)[i - 1],
            forall|x: Seq<char>| #[trigger]
                strs(out@).contains(x) == strs(s@).take(i as int).contains(x),
        decreases s@.len() - i,
    {
        let ghost before = strs(out@);
        let ghost done = strs(s@).take(i as int);
        let ghost longer = strs(s@).take(i + 1);
        let ghost text = s@[i as int]@;
        proof {
            assert(longer =~= done.push(text));
            assert forall|x: Seq<char>| longer.contains(x) == (done.contains(x) || x == text) by {
                if done.contains(x) {
                    let k = choose|k: int| 0 <= k < done.len() && done[k] == x;
                    assert(longer[k] == x);
                }
                assert(longer[i as int] == text);
                if longer.contains(x) {
                    let k = choose|k: int| 0 <= k < longer.len() && longer[k] == x;
                    if k < i {
                        assert(done[k] == x);
                    }
                }
            }
        }
        let fresh = out.len() == 0 || !same(out[out.len() - 1].as_str(), s[i].as_str());
        if fresh {
            let x = s[i].clone();
            proof {
                strs_push(out@, x);
            }
            out.push(x);
            proof {
                let after = strs(out@);
                assert(after == before.push(text));
                assert forall|a: int, b: int| 0 <= a < b < after.len() implies text_lt(
                    #[trigger] after[a],
                    #[trigger] after[b],
                ) by {
                    if b == before.len() {
                        let l = before.last();
                        assert(text_le(strs(s@)[i - 1], strs(s@)[i as int]));
                        if a < before.len() - 1 {
                            assert(text_lt(before[a], before[before.len() - 1]));
                            text_le_transitive(before[a], l, text);
                            if before[a] == text {
                                text_le_antisymmetric(l, text);
                            }
                        }
                    }
                }
                assert forall|x: Seq<char>| #[trigger] after.contains(x) == longer.contains(x) by {
                    if before.contains(x) {
                        let k = choose|k: int| 0 <= k < before.len() && before[k] == x;
                        assert(after[k] == x);
                    }
                    assert(after[before.len() as int] == text);
                    if after.contains(x) {
                        let k = choose|k: int| 0 <= k < after.len() && after[k] == x;
                        if k < before.len() {
                            assert(before[k] == x);
                        }
                    }
                }
            }
        } else {
            assert(before.contains(text)) by {
                assert(before[before.len() - 1] == text);
            }
        }
        i = i + 1;
    }
    assert(strs(s@).take(s@.len() as int) =~= strs(s@));
    out
}

// ---------------------------------------------------------------------------
// Pairs of texts
// ---------------------------------------------------------------------------

/// Whether pair `a` comes before pair `b` or equals it: by the first texts,
/// and where these are equal by the second.
pub open spec fn pair_le(a: (Seq<char>, Seq<char>), b: (Seq<char>, Seq<char>)) -> bool {
    if a.0 == b.0 {
        text_le(a.1, b.1)
    } else {
        text_le(a.0, b.0)
    }
}

/// The order of pairs is transitive.
pub proof fn pair_le_transitive(
    a: (Seq<char>, Seq<char>),
    b: (Seq<char>, Seq<char>),
    c: (Seq<char>, Seq<char>),
)
    requires
        pair_le(a, b),
        pair_le(b, c),
    ensures
        pair_le(a, c),
{
    if a.0 == b.0 && b.0 == c.0 {
        text_le_transitive(a.1, b.1, c.1);
    } else if a.0 != b.0 && b.0 != c.0 {
        text_le_transitive(a.0, b.0, c.0);
        if a.0 == c.0 {
            text_le_antisymmetric(a.0, b.0);
        }
    }
}

/// Whether the pairs are in order.
pub open spec fn pairs_sorted(s: Seq<(Seq<char>, Seq<char>)>) -> bool {
    forall|i: int, j: int| 0 <= i < j < s.len() ==> pair_le(#[trigger] s[i], #[trigger] s[j])
}

fn pair_at_most(a: &(String, String), b: &(String, String)) -> (r: bool)
    ensures
        r == pair_le((a.0@, a.1@), (b.0@, b.1@)),
        !r ==> pair_le((b.0@, b.1@), (a.0@, a.1@)),
{
    proof {
        text_le_total(a.0@, b.0@);
        text_le_total(a.1@, b.1@);
    }
    if same(a.0.as_str(), b.0.as_str()) {
        text_at_most(a.1.as_str(), b.1.as_str())
    } else {
        text_at_most(a.0.as_str(), b.0.as_str())
    }
}

/// The pairs in order.
pub fn sort_pairs(v: &Vec<(String, String)>) -> (r: Vec<(String, String)>)
    ensures
        pairs_sorted(pair_texts(r@)),
        pair_texts(r@).to_multiset() == pair_texts(v@).to_multiset(),
        r@.len() == v@.len(),
{
    let mut out: Vec<(String, String)> = Vec::new();
    let mut n: usize = 0;
    assert(pair_texts(v@).take(0) =~= pair_texts(out@));
    while n < v.len()
        invariant
            n <= v@.len(),
            out@.len() == n,
            pairs_sorted(pair_texts(out@)),
            pair_texts(out@).to_multiset() == pair_texts(v@).take(n as int).to_multiset(),
        decreases v@.len() - n,
    {
        let x = (v[n].0.clone(), v[n].1.clone());
        let ghost text = (x.0@, x.1@);
        let ghost before = pair_texts(out@);
        let mut i: usize = out.len();
        while i > 0 && !pair_at_most(&out[i - 1], &x)
            invariant
                i <= out@.len(),
                text == (x.0@, x.1@),
                before == pair_texts(out@),
                forall|j: int| i <= j < out@.len() ==> pair_le(text, #[trigger] before[j]),
            decreases i,
        {
            assert(before[i - 1] == (out@[i - 1].0@, out@[i - 1].1@));
            i = i - 1;
        }
        let ghost place = i as int;
        proof {
            assert(place > 0 ==> pair_le(before[place - 1], text));
            assert forall|j: int| 0 <= j < place implies pair_le(#[trigger] before[j], text) by {
                if j < place - 1 {
                    pair_le_transitive(before[j], before[place - 1], text);
                }
            }
            vstd::seq_lib::to_multiset_insert(before, place, text);
            let done = pair_texts(v@).take(n as int);
            assert(pair_texts(v@).take(n + 1) =~= done.push(text));
            done.to_multiset_ensures();
        }
        out.insert(i, x);
        proof {
            let after = pair_texts(out@);
            assert(after =~= before.insert(place, text));
            assert forall|a: int, b: int| 0 <= a < b < after.len() implies pair_le(
                #[trigger] after[a],
                #[trigger] after[b],
            ) by {
                let old_a = if a < place { a } else { a - 1 };
                let old_b = if b < place { b } else { b - 1 };
                if a != place && b != place {
                    assert(after[a] == before[old_a]);
                    assert(after[b] == before[old_b]);
                }
            }
        }
        n = n + 1;
    }
    assert(pair_texts(v@).take(v@.len() as int) =~= pair_texts(v@));
    out
}

// ---------------------------------------------------------------------------
// Laws
// ---------------------------------------------------------------------------

/// Texts are ordered by the first character at which they differ; one that goes on
/// where another ends comes behind it.
pub proof fn first_character_decides(a: Seq<char>, x: char, b: Seq<char>, y: char, c: Seq<char>)
    ensures
        x < y ==> text_le(a.push(x) + b, a.push(y) + c) && !text_le(a.push(y) + c, a.push(x) + b),
        text_le(a, a + b),
        b.len() > 0 ==> !text_le(a + b, a),
    decreases a.len(),
{
    let s = a.push(x) + b;
    let t = a.push(y) + c;
    if a.len() == 0 {
        assert(s[0] == x && t[0] == y);
    } else {
        first_character_decides(a.drop_first(), x, b, y, c);
        assert(s.drop_first() =~= a.drop_first().push(x) + b);
        assert(t.drop_first() =~= a.drop_first().push(y) + c);
        assert((a + b).drop_first() =~= a.drop_first() + b);
        assert(s[0] == a[0] && t[0] == a[0] && (a + b)[0] == a[0]);
    }
}

/// In a sorted list no text stands before one that it comes behind; in a strictly sorted
/// one none stands twice either; and pairs are sorted by their first texts and, where these
/// are the same, by their second.
pub proof fn what_sorted_means(
    s: Seq<Seq<char>>,
    p: Seq<(Seq<char>, Seq<char>)>,
    i: int,
    j: int,
)
    requires
        0 <= i < j,
    ensures
        j < s.len() && sorted(s) ==> text_le(s[i], s[j]),
        j < s.len() && strictly_sorted(s) ==> text_le(s[i], s[j]) && s[i] != s[j],
        j < p.len() && pairs_sorted(p) ==> text_le(p[i].0, p[j].0) && (p[i].0 == p[j].0 ==> text_le(p[i].1, p[j].1)),
{
    if j < s.len() && sorted(s) {
        assert(text_le(s[i], s[j]));
    }
    if j < s.len() && strictly_sorted(s) {
        assert(text_lt(s[i], s[j]));
    }
    if j < p.len() && pairs_sorted(p) {
        assert(pair_le(p[i], p[j]));
        text_le_reflexive(p[i].0);
    }
}

} // verus!
