//! Searching for one text inside another.
use vstd::prelude::*;

use crate::text::{substring, to_chars};

verus! {

/// Whether `s` starts with `p`.
pub open spec fn has_prefix(s: Seq<char>, p: Seq<char>) -> bool {
    p.len() <= s.len() && s.take(p.len() as int) == p
}

/// Whether `s` ends with `p`.
pub open spec fn has_suffix(s: Seq<char>, p: Seq<char>) -> bool {
    p.len() <= s.len() && s.skip(s.len() - p.len()) == p
}

/// Whether `p` stands somewhere in `s`.
pub open spec fn occurs(s: Seq<char>, p: Seq<char>) -> bool {
    exists|i: int| 0 <= i <= s.len() && has_prefix(#[trigger] s.skip(i), p)
}

/// The least position at which `p` stands in `s`; `None` where it does not occur.
pub open spec fn position(s: Seq<char>, p: Seq<char>) -> Option<int>
    decreases s.len(),
{
    if has_prefix(s, p) {
        Some(0)
    } else if s.len() == 0 {
        None
    } else {
        match position(s.drop_first(), p) {
            Some(i) => Some(i + 1),
            None => None,
        }
    }
}

/// A position is one at which `p` stands, and `p` stands at none before it.
pub proof fn position_bounds(s: Seq<char>, p: Seq<char>)
    ensures
        match position(s, p) {
            Some(i) => {
                &&& 0 <= i
                &&& i + p.len() <= s.len()
                &&& has_prefix(s.skip(i), p)
                &&& forall|j: int| 0 <= j < i ==> !has_prefix(#[trigger] s.skip(j), p)
            },
            None => forall|j: int| 0 <= j <= s.len() ==> !has_prefix(#[trigger] s.skip(j), p),
        },
    decreases s.len(),
{
    assert(s.skip(0) =~= s);
    if has_prefix(s, p) {
    } else if s.len() == 0 {
    } else {
        let t = s.drop_first();
        position_bounds(t, p);
        assert forall|j: int| 1 <= j <= s.len() implies #[trigger] s.skip(j) == t.skip(j - 1) by {
            assert(s.skip(j) =~= t.skip(j - 1));
        }
    }
}

/// `p` occurs in `s` exactly where it has a position.
pub proof fn position_occurs(s: Seq<char>, p: Seq<char>)
    ensures
        occurs(s, p) == (position(s, p) is Some),
{
    position_bounds(s, p);
}

/// A position is determined by what `position_bounds` says of it.
pub proof fn position_unique(s: Seq<char>, p: Seq<char>, i: int)
    requires
        0 <= i <= s.len(),
        has_prefix(s.skip(i), p),
        forall|j: int| 0 <= j < i ==> !has_prefix(#[trigger] s.skip(j), p),
    ensures
        position(s, p) == Some(i),
{
    position_bounds(s, p);
}

/// Whether `p` stands at `at` in `v`.
fn stands_at(v: &Vec<char>, at: usize, p: &Vec<char>) -> (r: bool)
    requires
        at <= v@.len(),
    ensures
        r == has_prefix(v@.skip(at as int), p@),
{
    if v.len() - at < p.len() {
        return false;
    }
    let mut i: usize = 0;
    let ghost s = v@.skip(at as int);
    while i < p.len()
        invariant
            i <= p@.len(),
            at + p@.len() <= v.len(),
            s == v@.skip(at as int),
            forall|j: int| 0 <= j < i ==> s[j] == p@[j],
        decreases p@.len() - i,
    {
        if v[at + i] != p[i] {
            assert(s.take(p@.len() as int)[i as int] != p@[i as int]);
            return false;
        }
        i = i + 1;
    }
    assert(s.take(p@.len() as int) =~= p@);
    true
}

/// The least position from `from` on at which `p` stands in `v`.
fn find_from(v: &Vec<char>, from: usize, p: &Vec<char>) -> (r: Option<usize>)
    requires
        from <= v@.len(),
    ensures
        match r {
            Some(i) => from <= i && i + p@.len() <= v@.len() && position(v@.skip(from as int), p@)
                == Some(i - from),
            None => position(v@.skip(from as int), p@) is None,
        },
{
    let ghost s = v@.skip(from as int);
    let mut i: usize = from;
    loop
        invariant
            from <= i <= v@.len(),
            s == v@.skip(from as int),
            forall|j: int| 0 <= j < i - from ==> !has_prefix(#[trigger] s.skip(j), p@),
        decreases v@.len() - i,
    {
        assert(s.skip(i - from) =~= v@.skip(i as int));
        if stands_at(v, i, p) {
            proof {
                position_unique(s, p@, i - from);
                position_bounds(s, p@);
            }
            return Some(i);
        }
        if i == v.len() {
            proof {
                position_bounds(s, p@);
            }
            return None;
        }
        i = i + 1;
    }
}

/// Whether `s` starts with `p`.
pub fn starts_with(s: &str, p: &str) -> (r: bool)
    ensures
        r == has_prefix(s@, p@),
{
    let v = to_chars(s);
    let w = to_chars(p);
    assert(v@.skip(0) =~= v@);
    stands_at(&v, 0, &w)
}

/// Whether `s` ends with `p`.
pub fn ends_with(s: &str, p: &str) -> (r: bool)
    ensures
        r == has_suffix(s@, p@),
{
    let v = to_chars(s);
    let w = to_chars(p);
    if v.len() < w.len() {
        return false;
    }
    let at = v.len() - w.len();
    proof {
        let t = v@.skip(at as int);
        assert(t.take(t.len() as int) =~= t);
    }
    stands_at(&v, at, &w)
}

/// Whether `p` stands somewhere in `s`.
pub fn contains(s: &str, p: &str) -> (r: bool)
    ensures
        r == occurs(s@, p@),
{
    let v = to_chars(s);
    let w = to_chars(p);
    proof {
        assert(v@.skip(0) =~= v@);
        position_occurs(s@, p@);
    }
    find_from(&v, 0, &w).is_some()
}

/// `s` cut at the first `p` into what stands before and after it.
pub open spec fn cut_text(s: Seq<char>, p: Seq<char>) -> Option<(Seq<char>, Seq<char>)> {
    match position(s, p) {
        Some(i) => Some((s.take(i), s.skip(i + p.len()))),
        None => None,
    }
}

/// `s` cut at the first `p`.
pub fn cut_at_text(s: &str, p: &str) -> (r: Option<(String, String)>)
    ensures
        match r {
            Some((a, b)) => cut_text(s@, p@) == Some((a@, b@)),
            None => cut_text(s@, p@) is None,
        },
{
    let v = to_chars(s);
    let w = to_chars(p);
    assert(v@.skip(0) =~= v@);
    match find_from(&v, 0, &w) {
        None => None,
        Some(i) => {
            let n = v.len();
            let a = substring(&v, 0, i);
            let b = substring(&v, i + w.len(), n);
            assert(a@ =~= s@.take(i as int));
            assert(b@ =~= s@.skip(i + w@.len()));
            Some((a, b))
        },
    }
}

/// `s` without the first `n` characters.
pub fn skip_chars(s: &str, n: usize) -> (r: String)
    requires
        n <= s@.len(),
    ensures
        r@ == s@.skip(n as int),
{
    let v = to_chars(s);
    let m = v.len();
    let r = substring(&v, n, m);
    assert(r@ =~= s@.skip(n as int));
    r
}

/// `s` with every `p` that is met from left to right replaced by `by`. An
/// empty `p` leaves `s` as it is.
pub open spec fn replace_all(s: Seq<char>, p: Seq<char>, by: Seq<char>) -> Seq<char>
    decreases s.len(),
{
    proof {
        position_bounds(s, p);
    }
    if p.len() == 0 {
        s
    } else {
        match position(s, p) {
            Some(i) => s.take(i) + by + replace_all(s.skip(i + p.len()), p, by),
            None => s,
        }
    }
}

/// `s` with every `p` replaced by `by`.
pub fn replace(s: &str, p: &str, by: &str) -> (r: String)
    ensures
        r@ == replace_all(s@, p@, by@),
{
    let v = to_chars(s);
    let w = to_chars(p);
    if w.len() == 0 {
        return s.to_owned();
    }
    let mut out = String::new();
    let mut from: usize = 0;
    let n = v.len();
    assert(v@.skip(0) =~= v@);
    assert(out@ + replace_all(v@, p@, by@) =~= replace_all(v@, p@, by@));
    loop
        invariant
            from <= v@.len(),
            n == v@.len(),
            v@ == s@,
            w@ == p@,
            p@.len() > 0,
            out@ + replace_all(v@.skip(from as int), p@, by@) == replace_all(s@, p@, by@),
        decreases v@.len() - from,
    {
        let ghost rest = v@.skip(from as int);
        match find_from(&v, from, &w) {
            None => {
                let tail = substring(&v, from, n);
                assert(tail@ =~= rest);
                out.append(tail.as_str());
                return out;
            },
            Some(i) => {
                let head = substring(&v, from, i);
                assert(head@ =~= rest.take(i - from));
                assert(rest.skip(i - from + p@.len()) =~= v@.skip(i + p@.len()));
                let ghost more = replace_all(v@.skip(i + p@.len()), p@, by@);
                assert(out@ + (head@ + by@ + more) =~= out@ + head@ + by@ + more);
                out.append(head.as_str());
                out.append(by);
                from = i + w.len();
            },
        }
    }
}

/// `s` without any `p` at its end, taken off as often as it stands there.
pub open spec fn strip_suffixes(s: Seq<char>, p: Seq<char>) -> Seq<char>
    decreases s.len(),
{
    if p.len() > 0 && has_suffix(s, p) {
        strip_suffixes(s.take(s.len() - p.len()), p)
    } else {
        s
    }
}

/// `s` without any `p` at its end.
pub fn trim_end_text(s: &str, p: &str) -> (r: String)
    ensures
        r@ == strip_suffixes(s@, p@),
{
    let v = to_chars(s);
    let w = to_chars(p);
    if w.len() == 0 {
        return s.to_owned();
    }
    let mut cur = s.to_owned();
    while ends_with(cur.as_str(), p)
        invariant
            w@ == p@,
            p@.len() > 0,
            strip_suffixes(cur@, p@) == strip_suffixes(s@, p@),
        decreases cur@.len(),
    {
        let c = to_chars(cur.as_str());
        let next = substring(&c, 0, c.len() - w.len());
        assert(next@ =~= cur@.take(cur@.len() - p@.len()));
        cur = next;
    }
    cur
}

/// `s` without any `p` at its start, taken off as often as it stands there.
pub open spec fn strip_prefixes(s: Seq<char>, p: Seq<char>) -> Seq<char>
    decreases s.len(),
{
    if p.len() > 0 && has_prefix(s, p) {
        strip_prefixes(s.skip(p.len() as int), p)
    } else {
        s
    }
}

/// `s` without any `p` at its start.
pub fn trim_start_text(s: &str, p: &str) -> (r: String)
    ensures
        r@ == strip_prefixes(s@, p@),
{
    let w = to_chars(p);
    if w.len() == 0 {
        return s.to_owned();
    }
    let mut cur = s.to_owned();
    while starts_with(cur.as_str(), p)
        invariant
            w@ == p@,
            p@.len() > 0,
            strip_prefixes(cur@, p@) == strip_prefixes(s@, p@),
        decreases cur@.len(),
    {
        let next = skip_chars(cur.as_str(), w.len());
        cur = next;
    }
    cur
}

// ---------------------------------------------------------------------------
// Laws
// ---------------------------------------------------------------------------

proof fn parted(s: Seq<char>, p: Seq<char>)
    ensures
        has_prefix(s, p) ==> s == p + s.skip(p.len() as int),
        has_suffix(s, p) ==> s == s.take(s.len() - p.len()) + p,
{
    if has_prefix(s, p) {
        assert(s =~= p + s.skip(p.len() as int));
    }
    if has_suffix(s, p) {
        assert(s =~= s.take(s.len() - p.len()) + p);
    }
}

proof fn put_together(a: Seq<char>, p: Seq<char>, b: Seq<char>)
    ensures
        has_prefix(p + b, p),
        has_suffix(a + p, p),
        occurs(a + p + b, p),
{
    assert((p + b).take(p.len() as int) =~= p);
    assert((a + p).skip((a + p).len() - p.len()) =~= p);
    let s = a + p + b;
    assert(s.skip(a.len() as int) =~= p + b);
    assert(0 <= a.len() <= s.len() && has_prefix(s.skip(a.len() as int), p));
}

proof fn parted_around(s: Seq<char>, p: Seq<char>) -> (r: (Seq<char>, Seq<char>))
    requires
        occurs(s, p),
    ensures
        s == r.0 + p + r.1,
{
    let i = choose|i: int| 0 <= i <= s.len() && has_prefix(#[trigger] s.skip(i), p);
    let rest = s.skip(i).skip(p.len() as int);
    parted(s.skip(i), p);
    assert(s =~= s.take(i) + s.skip(i));
    assert(s.take(i) + p + rest =~= s.take(i) + (p + rest));
    (s.take(i), rest)
}

/// A text starts with another, ends with it, or holds it, exactly where it is that
/// text with others behind it, before it, or around it.
pub proof fn where_a_text_stands(s: Seq<char>, p: Seq<char>)
    ensures
        has_prefix(s, p) <==> exists|t: Seq<char>| s == #[trigger] (p + t),
        has_suffix(s, p) <==> exists|t: Seq<char>| s == #[trigger] (t + p),
        occurs(s, p) <==> exists|a: Seq<char>, b: Seq<char>| s == #[trigger] (a + p + b),
{
    assert(has_prefix(s, p) <==> exists|t: Seq<char>| s == #[trigger] (p + t)) by {
        parted(s, p);
        if exists|t: Seq<char>| s == #[trigger] (p + t) {
            let t = choose|t: Seq<char>| s == #[trigger] (p + t);
            put_together(t, p, t);
        }
    }
    assert(has_suffix(s, p) <==> exists|t: Seq<char>| s == #[trigger] (t + p)) by {
        parted(s, p);
        if exists|t: Seq<char>| s == #[trigger] (t + p) {
            let t = choose|t: Seq<char>| s == #[trigger] (t + p);
            put_together(t, p, t);
        }
    }
    assert(occurs(s, p) <==> exists|a: Seq<char>, b: Seq<char>| s == #[trigger] (a + p + b)) by {
        if occurs(s, p) {
            let r = parted_around(s, p);
            assert(s == r.0 + p + r.1);
        }
        if exists|a: Seq<char>, b: Seq<char>| s == #[trigger] (a + p + b) {
            let (a, b) = choose|a: Seq<char>, b: Seq<char>| s == #[trigger] (a + p + b);
            put_together(a, p, b);
        }
    }
}

/// A text is cut at the first place where another stands in it.
pub proof fn cut_text_at_the_first(s: Seq<char>, p: Seq<char>)
    ensures
        cut_text(s, p) is Some <==> occurs(s, p),
        cut_text(s, p) matches Some((a, b)) ==> s == a + p + b && forall|i: int|
            0 <= i < a.len() ==> !has_prefix(#[trigger] s.skip(i), p),
{
    position_bounds(s, p);
    position_occurs(s, p);
    if let Some(i) = position(s, p) {
        assert(s.skip(i).take(p.len() as int) =~= p);
        assert(s =~= s.take(i) + p + s.skip(i + p.len())) by {
            assert(s.skip(i) =~= p + s.skip(i + p.len()));
            assert(s =~= s.take(i) + s.skip(i));
        }
    }
}

/// Where a text does not stand in another, nothing is replaced; where it does, the
/// first is, and then those behind it.
pub proof fn replacing_goes_from_left_to_right(s: Seq<char>, p: Seq<char>, by: Seq<char>)
    requires
        p.len() > 0,
    ensures
        !occurs(s, p) ==> replace_all(s, p, by) == s,
        cut_text(s, p) matches Some((a, b)) ==> replace_all(s, p, by) == a + by + replace_all(b, p, by),
{
    position_occurs(s, p);
}

/// A text is taken off the start, or the end, of another until it no longer stands
/// there.
pub proof fn stripping_goes_on(s: Seq<char>, p: Seq<char>)
    requires
        p.len() > 0,
    ensures
        strip_prefixes(p + s, p) == strip_prefixes(s, p),
        !has_prefix(strip_prefixes(s, p), p),
        !has_prefix(s, p) ==> strip_prefixes(s, p) == s,
        strip_suffixes(s + p, p) == strip_suffixes(s, p),
        !has_suffix(strip_suffixes(s, p), p),
        !has_suffix(s, p) ==> strip_suffixes(s, p) == s,
    decreases s.len(),
{
    assert((p + s).take(p.len() as int) =~= p);
    assert((p + s).skip(p.len() as int) =~= s);
    assert((s + p).skip((s + p).len() - p.len()) =~= p);
    assert((s + p).take((s + p).len() - p.len()) =~= s);
    if has_prefix(s, p) {
        stripping_goes_on(s.skip(p.len() as int), p);
    }
    if has_suffix(s, p) {
        stripping_goes_on(s.take(s.len() - p.len()), p);
    }
}

} // verus!
