//! Text as sequences of characters.
//!
//! Every string of the library is viewed as a `Seq<char>`. This module gives
//! the operations on such sequences that the rest of the library speaks of,
//! once as a mathematical function and once as executable code proved to
//! compute it.
use vstd::prelude::*;

verus! {

broadcast use vstd::string::axiom_spec_iter;

/// `String::push`: appends the given character to the end of the string.
pub assume_specification[ String::push ](s: &mut String, c: char)
    ensures
        final(s)@ == old(s)@.push(c),
;

// ---------------------------------------------------------------------------
// Strings and sequences of strings
// ---------------------------------------------------------------------------

/// The texts of a sequence of strings.
pub open spec fn strs(v: Seq<String>) -> Seq<Seq<char>> {
    v.map_values(|s: String| s@)
}

/// Appending a string appends its text.
pub broadcast proof fn strs_push(v: Seq<String>, s: String)
    ensures
        #[trigger] strs(v.push(s)) == strs(v).push(s@),
{
    assert(strs(v.push(s)) =~= strs(v).push(s@));
}

/// The characters of a string, one by one.
pub fn to_chars(s: &str) -> (r: Vec<char>)
    ensures
        r@ == s@,
{
    let mut out: Vec<char> = Vec::new();
    for c in it: s.chars()
        invariant
            it.seq() == s@,
            out@ == s@.take(it.index()),
    {
        assert(s@.take(it.index() + 1) =~= s@.take(it.index()).push(c));
        out.push(c);
    }
    assert(s@.take(s@.len() as int) =~= s@);
    out
}

/// The string that holds the characters `from..to` of `v`.
pub fn substring(v: &Vec<char>, from: usize, to: usize) -> (r: String)
    requires
        from <= to <= v@.len(),
    ensures
        r@ == v@.subrange(from as int, to as int),
{
    let mut out = String::new();
    let mut i: usize = from;
    while i < to
        invariant
            from <= i <= to <= v@.len(),
            out@ == v@.subrange(from as int, i as int),
        decreases to - i,
    {
        assert(v@.subrange(from as int, i + 1) =~= v@.subrange(from as int, i as int).push(v@[i as int]));
        out.push(v[i]);
        i = i + 1;
    }
    out
}

/// Whether two strings hold the same text.
pub fn same(a: &str, b: &str) -> (r: bool)
    ensures
        r == (a@ == b@),
{
    let x = a.to_owned();
    let y = b.to_owned();
    x == y
}

/// A copy of a list of strings.
pub fn copy_strings(v: &Vec<String>) -> (r: Vec<String>)
    ensures
        strs(r@) == strs(v@),
        r@.len() == v@.len(),
{
    let mut out: Vec<String> = Vec::new();
    let mut i: usize = 0;
    while i < v.len()
        invariant
            i <= v@.len(),
            out@.len() == i,
            strs(out@) == strs(v@).take(i as int),
        decreases v@.len() - i,
    {
        proof {
            strs_push(out@, v@[i as int]);
            assert(strs(v@).take(i + 1) =~= strs(v@).take(i as int).push(v@[i as int]@));
        }
        out.push(v[i].clone());
        i = i + 1;
    }
    assert(strs(v@).take(v@.len() as int) =~= strs(v@));
    out
}

/// Whether a text is empty.
pub fn is_empty_text(s: &str) -> (r: bool)
    ensures
        r == (s@.len() == 0),
{
    proof {
        reveal_strlit("");
        if s@.len() == 0 {
            assert(s@ =~= ""@);
        }
    }
    same(s, "")
}

/// Two texts one after the other.
pub fn cat(a: &str, b: &str) -> (r: String)
    ensures
        r@ == a@ + b@,
{
    let mut s = a.to_owned();
    s.append(b);
    s
}

/// Three texts one after the other.
pub fn cat3(a: &str, b: &str, c: &str) -> (r: String)
    ensures
        r@ == a@ + b@ + c@,
{
    let mut s = a.to_owned();
    s.append(b);
    s.append(c);
    s
}

/// Five texts one after the other.
pub fn cat5(a: &str, b: &str, c: &str, d: &str, e: &str) -> (r: String)
    ensures
        r@ == a@ + b@ + c@ + d@ + e@,
{
    let mut s = a.to_owned();
    s.append(b);
    s.append(c);
    s.append(d);
    s.append(e);
    s
}

/// Whether `name` is one of the texts of `v`.
pub fn has_string(v: &Vec<String>, name: &str) -> (r: bool)
    ensures
        r == strs(v@).contains(name@),
{
    let mut i: usize = 0;
    while i < v.len()
        invariant
            i <= v@.len(),
            forall|j: int| 0 <= j < i ==> strs(v@)[j] != name@,
        decreases v@.len() - i,
    {
        if same(v[i].as_str(), name) {
            assert(strs(v@)[i as int] == name@);
            return true;
        }
        i = i + 1;
    }
    false
}

/// Appends a string to a list.
pub fn push_text(out: &mut Vec<String>, s: String)
    ensures
        strs(final(out)@) == strs(old(out)@) + seq![s@],
{
    proof {
        strs_push(out@, s);
        assert(strs(out@).push(s@) =~= strs(out@) + seq![s@]);
    }
    out.push(s);
}

/// The texts one after the other, with `sep` between them.
pub open spec fn join_with(s: Seq<Seq<char>>, sep: Seq<char>) -> Seq<char>
    decreases s.len(),
{
    if s.len() == 0 {
        Seq::empty()
    } else if s.len() == 1 {
        s[0]
    } else {
        join_with(s.drop_last(), sep) + sep + s.last()
    }
}

/// The texts one after the other, with `sep` between them.
pub fn join_strings(v: &Vec<String>, sep: &str) -> (r: String)
    ensures
        r@ == join_with(strs(v@), sep@),
{
    if v.len() == 0 {
        let e = String::new();
        assert(e@ =~= Seq::<char>::empty());
        return e;
    }
    let mut out = v[0].clone();
    let mut i: usize = 1;
    let ghost s = strs(v@);
    assert(s.take(1) =~= seq![v@[0]@]);
    while i < v.len()
        invariant
            1 <= i <= v@.len(),
            s == strs(v@),
            out@ == join_with(s.take(i as int), sep@),
        decreases v@.len() - i,
    {
        proof {
            let longer = s.take(i + 1);
            assert(longer.drop_last() =~= s.take(i as int));
            assert(longer.last() == v@[i as int]@);
        }
        out.append(sep);
        out.append(v[i].as_str());
        i = i + 1;
    }
    assert(s.take(s.len() as int) =~= s);
    out
}

/// The text in lower case.
pub uninterp spec fn lowercase(s: Seq<char>) -> Seq<char>;

/// `str::to_lowercase`: the text in lower case, a function of the text alone.
#[verifier::external_body]
pub(crate) fn to_lowercase(s: &str) -> (r: String)
    ensures
        r@ == lowercase(s@),
{
    s.to_lowercase()
}

/// The text that bytes stand for, with a replacement for what is not UTF-8.
pub uninterp spec fn lossy_text(bytes: Seq<u8>) -> Seq<char>;

/// `String::from_utf8_lossy`: the text is a function of the bytes alone.
#[verifier::external_body]
pub(crate) fn text_of_bytes(bytes: &Vec<u8>) -> (r: String)
    ensures
        r@ == lossy_text(bytes@),
{
    String::from_utf8_lossy(bytes).into_owned()
}

// ---------------------------------------------------------------------------
// Classes of characters
// ---------------------------------------------------------------------------

/// The characters of Unicode's `White_Space` property.
pub open spec fn is_white(c: char) -> bool {
    ||| '\u{9}' <= c <= '\u{d}'
    ||| c == ' '
    ||| c == '\u{85}'
    ||| c == '\u{a0}'
    ||| c == '\u{1680}'
    ||| '\u{2000}' <= c <= '\u{200a}'
    ||| c == '\u{2028}'
    ||| c == '\u{2029}'
    ||| c == '\u{202f}'
    ||| c == '\u{205f}'
    ||| c == '\u{3000}'
}

/// A class of characters that text is split or trimmed at.
#[derive(Clone, Copy)]
pub enum CharClass {
    /// One character.
    Is(char),
    /// Either of two characters.
    Either(char, char),
    /// White space.
    White,
}

impl CharClass {
    /// Whether the class holds a character.
    pub open spec fn has(self, c: char) -> bool {
        match self {
            CharClass::Is(x) => c == x,
            CharClass::Either(x, y) => c == x || c == y,
            CharClass::White => is_white(c),
        }
    }

    /// Whether the class holds a character.
    pub fn holds(self, c: char) -> (r: bool)
        ensures
            r == self.has(c),
    {
        match self {
            CharClass::Is(x) => c == x,
            CharClass::Either(x, y) => c == x || c == y,
            CharClass::White => {
                ('\u{9}' <= c && c <= '\u{d}') || c == ' ' || c == '\u{85}' || c == '\u{a0}' || c
                    == '\u{1680}' || ('\u{2000}' <= c && c <= '\u{200a}') || c == '\u{2028}' || c
                    == '\u{2029}' || c == '\u{202f}' || c == '\u{205f}' || c == '\u{3000}'
            },
        }
    }
}

/// The length of the longest prefix of `s` whose characters are all in the
/// class (`want`) or all outside it (`!want`).
pub open spec fn run(s: Seq<char>, k: CharClass, want: bool) -> int
    decreases s.len(),
{
    if s.len() == 0 || k.has(s[0]) != want {
        0
    } else {
        1 + run(s.drop_first(), k, want)
    }
}

/// A run is a prefix, everything in it is as wanted, and what follows is not.
pub proof fn run_bounds(s: Seq<char>, k: CharClass, want: bool)
    ensures
        0 <= run(s, k, want) <= s.len(),
        forall|i: int| 0 <= i < run(s, k, want) ==> k.has(#[trigger] s[i]) == want,
        run(s, k, want) < s.len() ==> k.has(s[run(s, k, want)]) != want,
    decreases s.len(),
{
    if s.len() == 0 || k.has(s[0]) != want {
    } else {
        let t = s.drop_first();
        run_bounds(t, k, want);
        assert forall|i: int| 0 <= i < run(s, k, want) implies k.has(#[trigger] s[i]) == want by {
            if i > 0 {
                assert(t[i - 1] == s[i]);
            }
        }
        if run(s, k, want) < s.len() {
            assert(t[run(t, k, want)] == s[run(s, k, want)]);
        }
    }
}

/// A position that bounds a run from both sides is the run's length.
pub proof fn run_unique(s: Seq<char>, k: CharClass, want: bool, n: int)
    requires
        0 <= n <= s.len(),
        forall|i: int| 0 <= i < n ==> k.has(#[trigger] s[i]) == want,
        n < s.len() ==> k.has(s[n]) != want,
    ensures
        run(s, k, want) == n,
    decreases s.len(),
{
    if n == 0 {
    } else {
        let t = s.drop_first();
        assert forall|i: int| 0 <= i < n - 1 implies k.has(#[trigger] t[i]) == want by {
            assert(t[i] == s[i + 1]);
        }
        assert(k.has(s[0]) == want);
        if n < s.len() {
            assert(t[n - 1] == s[n]);
        }
        run_unique(t, k, want, n - 1);
    }
}

/// The end of the run that starts at `from`.
pub fn run_end(v: &Vec<char>, from: usize, k: CharClass, want: bool) -> (r: usize)
    requires
        from <= v@.len(),
    ensures
        from <= r <= v@.len(),
        r == from + run(v@.skip(from as int), k, want),
{
    let mut j: usize = from;
    while j < v.len() && k.holds(v[j]) == want
        invariant
            from <= j <= v@.len(),
            forall|i: int| from <= i < j ==> k.has(#[trigger] v@[i]) == want,
        decreases v@.len() - j,
    {
        j = j + 1;
    }
    proof {
        let s = v@.skip(from as int);
        assert forall|i: int| 0 <= i < j - from implies k.has(#[trigger] s[i]) == want by {
            assert(s[i] == v@[i + from]);
        }
        run_unique(s, k, want, j - from);
    }
    j
}

// ---------------------------------------------------------------------------
// Trimming
// ---------------------------------------------------------------------------

/// `s` without the characters of the class at its start.
pub open spec fn trim_start(s: Seq<char>, k: CharClass) -> Seq<char> {
    s.skip(run(s, k, true))
}

/// `s` without the characters of the class at its end.
pub open spec fn trim_end(s: Seq<char>, k: CharClass) -> Seq<char>
    decreases s.len(),
{
    if s.len() > 0 && k.has(s.last()) {
        trim_end(s.drop_last(), k)
    } else {
        s
    }
}

/// `s` without the characters of the class at either end.
pub open spec fn trim(s: Seq<char>, k: CharClass) -> Seq<char> {
    trim_end(trim_start(s, k), k)
}

/// `s` without the white space at either end.
pub open spec fn trimmed(s: Seq<char>) -> Seq<char> {
    trim(s, CharClass::White)
}

/// The bounds of `v[from..to]` without the characters of the class at its end.
fn trim_end_at(v: &Vec<char>, from: usize, to: usize, k: CharClass) -> (r: usize)
    requires
        from <= to <= v@.len(),
    ensures
        from <= r <= to,
        v@.subrange(from as int, r as int) == trim_end(v@.subrange(from as int, to as int), k),
{
    let mut e: usize = to;
    while from < e && k.holds(v[e - 1])
        invariant
            from <= e <= to <= v@.len(),
            trim_end(v@.subrange(from as int, e as int), k) == trim_end(
                v@.subrange(from as int, to as int),
                k,
            ),
        decreases e,
    {
        assert(v@.subrange(from as int, e as int).drop_last() =~= v@.subrange(
            from as int,
            e - 1,
        ));
        e = e - 1;
    }
    e
}

/// `s` without the characters of the class at either end.
pub fn trim_class(s: &str, k: CharClass) -> (r: String)
    ensures
        r@ == trim(s@, k),
{
    let v = to_chars(s);
    assert(v@.skip(0) =~= v@);
    let a = run_end(&v, 0, k, true);
    let n = v.len();
    let b = trim_end_at(&v, a, n, k);
    assert(v@.skip(a as int) =~= v@.subrange(a as int, n as int));
    substring(&v, a, b)
}

/// `s` without the white space at either end.
pub fn trim_white(s: &str) -> (r: String)
    ensures
        r@ == trimmed(s@),
{
    trim_class(s, CharClass::White)
}

/// `s` without the characters of the class at its start.
pub fn trim_start_class(s: &str, k: CharClass) -> (r: String)
    ensures
        r@ == trim_start(s@, k),
{
    let v = to_chars(s);
    assert(v@.skip(0) =~= v@);
    let a = run_end(&v, 0, k, true);
    let n = v.len();
    assert(v@.skip(a as int) =~= v@.subrange(a as int, n as int));
    substring(&v, a, n)
}

/// `s` without the characters of the class at its end.
pub fn trim_end_class(s: &str, k: CharClass) -> (r: String)
    ensures
        r@ == trim_end(s@, k),
{
    let v = to_chars(s);
    let n = v.len();
    assert(v@.subrange(0, n as int) =~= v@);
    let b = trim_end_at(&v, 0, n, k);
    substring(&v, 0, b)
}

// ---------------------------------------------------------------------------
// Splitting
// ---------------------------------------------------------------------------

/// The pieces of `s` between the characters of the class; a text without one
/// is its own only piece.
pub open spec fn split_by(s: Seq<char>, k: CharClass) -> Seq<Seq<char>>
    decreases s.len(),
{
    let n = run(s, k, false);
    proof {
        run_bounds(s, k, false);
    }
    if n >= s.len() {
        seq![s]
    } else {
        seq![s.take(n)] + split_by(s.skip(n + 1), k)
    }
}

/// What stands before the first character of the class is the first piece.
pub proof fn split_first(a: Seq<char>, c: char, b: Seq<char>, k: CharClass)
    requires
        forall|i: int| 0 <= i < a.len() ==> !k.has(#[trigger] a[i]),
        k.has(c),
    ensures
        split_by(a.push(c) + b, k)[0] == a,
        split_by(a, k) == seq![a],
{
    let s = a.push(c) + b;
    assert forall|i: int| 0 <= i < a.len() implies k.has(#[trigger] s[i]) == false by {
        assert(s[i] == a[i]);
    }
    assert(s[a.len() as int] == c);
    run_unique(s, k, false, a.len() as int);
    assert(s.take(a.len() as int) =~= a);
    run_unique(a, k, false, a.len() as int);
}

/// What stands behind the last character of the class is the last piece.
pub proof fn split_last(a: Seq<char>, c: char, b: Seq<char>, k: CharClass)
    requires
        forall|i: int| 0 <= i < b.len() ==> !k.has(#[trigger] b[i]),
        k.has(c),
    ensures
        split_by(a.push(c) + b, k).last() == b,
    decreases a.len(),
{
    let s = a.push(c) + b;
    let n = run(s, k, false);
    run_bounds(s, k, false);
    assert(s[a.len() as int] == c);
    assert(n <= a.len());
    if n == a.len() {
        assert(s.skip(n + 1) =~= b);
        split_first(b, c, b, k);
    } else {
        let rest = a.skip(n + 1);
        assert(s.skip(n + 1) =~= rest.push(c) + b);
        split_last(rest, c, b, k);
    }
    reveal_with_fuel(split_by, 2);
    assert(split_by(s.skip(n + 1), k).len() > 0);
}

/// A separator and a text without one, put behind a text, add that text as a piece.
pub proof fn split_extends(a: Seq<char>, c: char, b: Seq<char>, k: CharClass)
    requires
        forall|i: int| 0 <= i < b.len() ==> !k.has(#[trigger] b[i]),
        k.has(c),
    ensures
        split_by(a.push(c) + b, k) == split_by(a, k).push(b),
        split_by(b, k) == seq![b],
    decreases a.len(),
{
    let s = a.push(c) + b;
    let n = run(s, k, false);
    run_bounds(s, k, false);
    assert(s[a.len() as int] == c);
    assert(n <= a.len());
    split_first(b, c, b, k);
    assert forall|i: int| 0 <= i < n implies k.has(#[trigger] a[i]) == false by {
        assert(s[i] == a[i]);
    }
    if n < a.len() {
        assert(s[n] == a[n]);
    }
    run_unique(a, k, false, n);
    if n == a.len() {
        assert(s.skip(n + 1) =~= b);
        assert(s.take(n) =~= a);
        assert(split_by(s, k) =~= seq![a].push(b));
    } else {
        let rest = a.skip(n + 1);
        assert(s.skip(n + 1) =~= rest.push(c) + b);
        assert(s.take(n) =~= a.take(n));
        split_extends(rest, c, b, k);
        assert(split_by(s, k) =~= split_by(a, k).push(b));
    }
}

/// No piece holds a separator, and there is one more of them than of separators
/// that a text holds.
pub proof fn pieces_hold_no_separator(s: Seq<char>, k: CharClass)
    ensures
        split_by(s, k).len() >= 1,
        forall|i: int, j: int|
            0 <= i < split_by(s, k).len() && 0 <= j < split_by(s, k)[i].len() ==> !k.has(
                #[trigger] split_by(s, k)[i][j],
            ),
        split_by(s, k).len() == 1 + s.filter(|c: char| k.has(c)).len(),
    decreases s.len(),
{
    let f = |c: char| k.has(c);
    let n = run(s, k, false);
    run_bounds(s, k, false);
    let head = s.take(n);
    assert(head.filter(f).len() == 0) by {
        nothing_is_filtered(head, k);
    }
    if n < s.len() {
        let rest = s.skip(n + 1);
        pieces_hold_no_separator(rest, k);
        assert forall|i: int, j: int|
            0 <= i < split_by(s, k).len() && 0 <= j < split_by(s, k)[i].len() implies !k.has(
            #[trigger] split_by(s, k)[i][j],
        ) by {
            if i == 0 {
                assert(split_by(s, k)[0] == head);
                assert(head[j] == s[j]);
            } else {
                assert(split_by(s, k)[i] == split_by(rest, k)[i - 1]);
                assert(!k.has(split_by(rest, k)[i - 1][j]));
            }
        }
        assert(s =~= head + (seq![s[n]] + rest));
        Seq::filter_distributes_over_add(head, seq![s[n]] + rest, f);
        Seq::filter_distributes_over_add(seq![s[n]], rest, f);
        assert(seq![s[n]].filter(f) =~= seq![s[n]]) by {
            reveal_with_fuel(Seq::filter, 2);
            assert(seq![s[n]].drop_last() =~= Seq::<char>::empty());
        }
    } else {
        assert(head =~= s);
        assert forall|i: int, j: int|
            0 <= i < split_by(s, k).len() && 0 <= j < split_by(s, k)[i].len() implies !k.has(
            #[trigger] split_by(s, k)[i][j],
        ) by {
            assert(split_by(s, k)[0] == s);
        }
    }
}

proof fn nothing_is_filtered(s: Seq<char>, k: CharClass)
    requires
        forall|i: int| 0 <= i < s.len() ==> k.has(#[trigger] s[i]) == false,
    ensures
        s.filter(|c: char| k.has(c)).len() == 0,
    decreases s.len(),
{
    reveal_with_fuel(Seq::filter, 2);
    if s.len() > 0 {
        let t = s.drop_last();
        assert forall|i: int| 0 <= i < t.len() implies k.has(#[trigger] t[i]) == false by {
            assert(t[i] == s[i]);
        }
        nothing_is_filtered(t, k);
        assert(!k.has(s[s.len() - 1]));
    }
}

/// The pieces of `s` between the characters of the class.
pub fn split_class(s: &str, k: CharClass) -> (r: Vec<String>)
    ensures
        strs(r@) == split_by(s@, k),
        r@.len() >= 1,
{
    let v = to_chars(s);
    let mut out: Vec<String> = Vec::new();
    let mut start: usize = 0;
    assert(v@.skip(0) =~= v@);
    assert(strs(out@) + split_by(v@, k) =~= split_by(v@, k));
    loop
        invariant
            start <= v@.len(),
            v@ == s@,
            strs(out@) + split_by(v@.skip(start as int), k) == split_by(s@, k),
        decreases v@.len() - start,
    {
        let e = run_end(&v, start, k, false);
        let ghost rest = v@.skip(start as int);
        let piece = substring(&v, start, e);
        proof {
            strs_push(out@, piece);
        }
        let ghost before = strs(out@);
        out.push(piece);
        if e == v.len() {
            proof {
                assert(piece@ =~= rest);
                assert(before + seq![rest] =~= before.push(rest));
            }
            return out;
        }
        proof {
            assert(piece@ =~= rest.take(e - start));
            assert(rest.skip(e - start + 1) =~= v@.skip(e + 1));
            assert(before + (seq![piece@] + split_by(v@.skip(e + 1), k)) =~= before.push(piece@)
                + split_by(v@.skip(e + 1), k));
        }
        start = e + 1;
    }
}

/// The words of `s`: its longest runs without white space.
pub open spec fn words(s: Seq<char>) -> Seq<Seq<char>>
    decreases s.len(),
{
    let a = run(s, CharClass::White, true);
    let t = s.skip(a);
    let n = run(t, CharClass::White, false);
    proof {
        run_bounds(s, CharClass::White, true);
        run_bounds(t, CharClass::White, false);
    }
    if a >= s.len() {
        Seq::empty()
    } else {
        seq![t.take(n)] + words(t.skip(n))
    }
}

/// The words of `s`: its longest runs without white space.
pub fn split_words(s: &str) -> (r: Vec<String>)
    ensures
        strs(r@) == words(s@),
{
    let v = to_chars(s);
    let mut out: Vec<String> = Vec::new();
    let mut start: usize = 0;
    assert(v@.skip(0) =~= v@);
    assert(strs(out@) + words(v@) =~= words(v@));
    loop
        invariant
            start <= v@.len(),
            v@ == s@,
            strs(out@) + words(v@.skip(start as int)) == words(s@),
        decreases v@.len() - start,
    {
        let ghost rest = v@.skip(start as int);
        let a = run_end(&v, start, CharClass::White, true);
        proof {
            run_bounds(rest, CharClass::White, true);
            assert(rest.skip(a - start) =~= v@.skip(a as int));
        }
        if a == v.len() {
            assert(strs(out@) + words(rest) =~= strs(out@));
            return out;
        }
        let e = run_end(&v, a, CharClass::White, false);
        let piece = substring(&v, a, e);
        let ghost t = v@.skip(a as int);
        proof {
            run_bounds(t, CharClass::White, false);
            assert(t[0] == rest[a - start]);
            assert(piece@ =~= t.take(e - a));
            assert(t.skip(e - a) =~= v@.skip(e as int));
            strs_push(out@, piece);
            assert(strs(out@) + (seq![piece@] + words(v@.skip(e as int))) =~= strs(out@).push(
                piece@,
            ) + words(v@.skip(e as int)));
        }
        out.push(piece);
        start = e;
    }
}

/// `s` without a carriage return at its end.
pub open spec fn strip_cr(s: Seq<char>) -> Seq<char> {
    if s.len() > 0 && s.last() == '\r' {
        s.drop_last()
    } else {
        s
    }
}

/// The lines of `s`. A line ends with a line feed, or with a carriage return
/// and a line feed; the last line need not end so.
pub open spec fn lines(s: Seq<char>) -> Seq<Seq<char>>
    decreases s.len(),
{
    let n = run(s, CharClass::Is('\n'), false);
    proof {
        run_bounds(s, CharClass::Is('\n'), false);
    }
    if s.len() == 0 {
        Seq::empty()
    } else if n >= s.len() {
        seq![s]
    } else {
        seq![strip_cr(s.take(n))] + lines(s.skip(n + 1))
    }
}

/// The lines of `s`.
pub fn split_lines(s: &str) -> (r: Vec<String>)
    ensures
        strs(r@) == lines(s@),
{
    let v = to_chars(s);
    let mut out: Vec<String> = Vec::new();
    let mut start: usize = 0;
    let k = CharClass::Is('\n');
    assert(v@.skip(0) =~= v@);
    assert(strs(out@) + lines(v@) =~= lines(v@));
    while start < v.len()
        invariant
            start <= v@.len(),
            v@ == s@,
            k == CharClass::Is('\n'),
            strs(out@) + lines(v@.skip(start as int)) == lines(s@),
        decreases v@.len() - start,
    {
        let e = run_end(&v, start, k, false);
        let ghost rest = v@.skip(start as int);
        if e == v.len() {
            let piece = substring(&v, start, e);
            proof {
                strs_push(out@, piece);
                assert(piece@ =~= rest);
                assert(strs(out@) + seq![rest] =~= strs(out@).push(rest));
            }
            out.push(piece);
            return out;
        }
        let stop = if start < e && v[e - 1] == '\r' {
            e - 1
        } else {
            e
        };
        let piece = substring(&v, start, stop);
        proof {
            strs_push(out@, piece);
            let whole = rest.take(e - start);
            assert(piece@ =~= strip_cr(whole));
            assert(rest.skip(e - start + 1) =~= v@.skip(e + 1));
            assert(strs(out@) + (seq![piece@] + lines(v@.skip(e + 1))) =~= strs(out@).push(piece@)
                + lines(v@.skip(e + 1)));
        }
        out.push(piece);
        start = e + 1;
    }
    assert(v@.skip(start as int).len() == 0);
    assert(strs(out@) + lines(v@.skip(start as int)) =~= strs(out@));
    out
}

/// `s` cut at the first `c` into what stands before and after it; `None` where
/// `c` does not occur.
pub open spec fn cut(s: Seq<char>, c: char) -> Option<(Seq<char>, Seq<char>)> {
    let n = run(s, CharClass::Is(c), false);
    if n >= s.len() {
        None
    } else {
        Some((s.take(n), s.skip(n + 1)))
    }
}

/// `s` cut at the first `c`.
pub fn cut_at(s: &str, c: char) -> (r: Option<(String, String)>)
    ensures
        match r {
            Some((a, b)) => cut(s@, c) == Some((a@, b@)),
            None => cut(s@, c) is None,
        },
{
    let v = to_chars(s);
    assert(v@.skip(0) =~= v@);
    let e = run_end(&v, 0, CharClass::Is(c), false);
    if e == v.len() {
        return None;
    }
    let n = v.len();
    let a = substring(&v, 0, e);
    let b = substring(&v, e + 1, n);
    assert(a@ =~= s@.take(e as int));
    assert(b@ =~= s@.skip(e + 1));
    Some((a, b))
}

/// Where `c` does not occur in `a`, the text `a`, `c`, `b` is cut into `a` and `b`.
pub proof fn cut_of_joined(a: Seq<char>, c: char, b: Seq<char>)
    requires
        !a.contains(c),
    ensures
        cut(a.push(c) + b, c) == Some((a, b)),
{
    let s = a.push(c) + b;
    assert forall|i: int| 0 <= i < a.len() implies !CharClass::Is(c).has(#[trigger] s[i]) by {
        assert(s[i] == a[i]);
        assert(a.contains(a[i]));
    }
    assert(s[a.len() as int] == c);
    run_unique(s, CharClass::Is(c), false, a.len() as int);
    assert(s.take(a.len() as int) =~= a);
    assert(s.skip(a.len() as int + 1) =~= b);
}

// ---------------------------------------------------------------------------
// Bytes
// ---------------------------------------------------------------------------

/// The number of bytes of a character in UTF-8.
pub open spec fn char_bytes(c: char) -> int {
    if (c as int) < 0x80 {
        1
    } else if (c as int) < 0x800 {
        2
    } else if (c as int) < 0x10000 {
        3
    } else {
        4
    }
}

/// The number of bytes of a text in UTF-8.
pub open spec fn byte_len(s: Seq<char>) -> int
    decreases s.len(),
{
    if s.len() == 0 {
        0
    } else {
        byte_len(s.drop_first()) + char_bytes(s[0])
    }
}

/// The number of characters in the first `n` bytes of a text; `None` where a
/// character stands across their end, or there are fewer.
pub open spec fn chars_in_bytes(s: Seq<char>, n: int) -> Option<int>
    decreases s.len(),
{
    if n == 0 {
        Some(0)
    } else if n < 0 || s.len() == 0 {
        None
    } else {
        match chars_in_bytes(s.drop_first(), n - char_bytes(s[0])) {
            Some(k) => Some(k + 1),
            None => None,
        }
    }
}

fn bytes_of(c: char) -> (r: usize)
    ensures
        r == char_bytes(c),
{
    let n = c as u32;
    if n < 0x80 {
        1
    } else if n < 0x800 {
        2
    } else if n < 0x10000 {
        3
    } else {
        4
    }
}

proof fn byte_len_not_negative(s: Seq<char>)
    ensures
        byte_len(s) >= 0,
    decreases s.len(),
{
    if s.len() > 0 {
        byte_len_not_negative(s.drop_first());
    }
}

/// Whether a text has more than `max` bytes.
pub fn longer_than(s: &str, max: usize) -> (r: bool)
    ensures
        r == (byte_len(s@) > max),
{
    let v = to_chars(s);
    let mut left: usize = max;
    let mut i: usize = 0;
    assert(v@.skip(0) =~= s@);
    while i < v.len()
        invariant
            i <= v@.len(),
            (byte_len(s@) > max) == (byte_len(v@.skip(i as int)) > left),
        decreases v@.len() - i,
    {
        let n = bytes_of(v[i]);
        proof {
            assert(v@.skip(i as int).drop_first() =~= v@.skip(i + 1));
            byte_len_not_negative(v@.skip(i + 1));
        }
        if n > left {
            return true;
        }
        left = left - n;
        i = i + 1;
    }
    false
}

/// The first `n` bytes of a text.
pub fn first_bytes(s: &str, n: usize) -> (r: Option<String>)
    ensures
        match chars_in_bytes(s@, n as int) {
            Some(k) => r matches Some(t) && 0 <= k <= s@.len() && t@ == s@.take(k),
            None => r is None,
        },
{
    let v = to_chars(s);
    let mut left: usize = n;
    let mut i: usize = 0;
    assert(v@.skip(0) =~= s@);
    while left > 0 && i < v.len()
        invariant
            i <= v@.len(),
            v@ == s@,
            match chars_in_bytes(v@.skip(i as int), left as int) {
                Some(k) => chars_in_bytes(s@, n as int) == Some(k + i),
                None => chars_in_bytes(s@, n as int) is None,
            },
        decreases v@.len() - i,
    {
        let b = bytes_of(v[i]);
        assert(v@.skip(i as int).drop_first() =~= v@.skip(i + 1));
        if b > left {
            return None;
        }
        left = left - b;
        i = i + 1;
    }
    if left > 0 {
        return None;
    }
    let t = substring(&v, 0, i);
    assert(t@ =~= s@.take(i as int));
    Some(t)
}

/// Whether a text has no more than `max` bytes, or a character ends with the
/// `keep`-th of them.
pub open spec fn can_shorten(s: Seq<char>, max: int, keep: int) -> bool {
    byte_len(s) > max ==> chars_in_bytes(s, keep) is Some
}

/// A text, or its first `keep` bytes and then `end`, where it has more than
/// `max` bytes.
pub open spec fn shortened(s: Seq<char>, max: int, keep: int, end: Seq<char>) -> Seq<char> {
    if byte_len(s) > max {
        s.take(chars_in_bytes(s, keep)->0) + end
    } else {
        s
    }
}

/// Whether `shorten` can be asked for a text.
pub fn can_be_shortened(s: &str, max: usize, keep: usize) -> (r: bool)
    ensures
        r == can_shorten(s@, max as int, keep as int),
{
    !longer_than(s, max) || first_bytes(s, keep).is_some()
}

/// A text, or its first `keep` bytes and then `end`, where it has more than
/// `max` bytes.
pub fn shorten(s: &str, max: usize, keep: usize, end: &str) -> (r: String)
    requires
        can_shorten(s@, max as int, keep as int),
    ensures
        r@ == shortened(s@, max as int, keep as int, end@),
{
    if longer_than(s, max) {
        match first_bytes(s, keep) {
            Some(t) => cat(t.as_str(), end),
            None => s.to_owned(),
        }
    } else {
        s.to_owned()
    }
}

// ---------------------------------------------------------------------------
// Answers and columns
// ---------------------------------------------------------------------------

/// Whether a text is one letter, in either case.
pub open spec fn is_letter(s: Seq<char>, lower: char, upper: char) -> bool {
    s.len() == 1 && (s[0] == lower || s[0] == upper)
}

/// Whether a text is one letter, in either case.
pub fn is_one_letter(s: &str, lower: char, upper: char) -> (r: bool)
    ensures
        r == is_letter(s@, lower, upper),
{
    let v = to_chars(s);
    v.len() == 1 && (v[0] == lower || v[0] == upper)
}

/// Whether a text is spelled with the letters of `lower`, each in lower or in
/// upper case.
pub open spec fn spells(s: Seq<char>, lower: Seq<char>, upper: Seq<char>) -> bool {
    &&& s.len() == lower.len()
    &&& forall|i: int| 0 <= i < s.len() ==> #[trigger] s[i] == lower[i] || s[i] == upper[i]
}

/// Whether a text is spelled with the letters of `lower`, each in lower or in
/// upper case.
pub fn is_spelled(s: &str, lower: &str, upper: &str) -> (r: bool)
    requires
        lower@.len() == upper@.len(),
    ensures
        r == spells(s@, lower@, upper@),
{
    let v = to_chars(s);
    let l = to_chars(lower);
    let u = to_chars(upper);
    if v.len() != l.len() {
        return false;
    }
    let mut i: usize = 0;
    while i < v.len()
        invariant
            i <= v@.len() == l@.len() == u@.len(),
            v@ == s@,
            l@ == lower@,
            u@ == upper@,
            forall|j: int| 0 <= j < i ==> #[trigger] s@[j] == lower@[j] || s@[j] == upper@[j],
        decreases v@.len() - i,
    {
        if v[i] != l[i] && v[i] != u[i] {
            assert(s@[i as int] != lower@[i as int]);
            return false;
        }
        i = i + 1;
    }
    true
}

/// Whether an answer says yes.
pub open spec fn says_yes(input: Seq<char>) -> bool {
    is_letter(trimmed(input), 'y', 'Y')
}

/// Whether an answer says yes. Anything but the letter does not.
pub fn answer_is_yes(input: &str) -> (r: bool)
    ensures
        r == says_yes(input@),
{
    let t = trim_white(input);
    is_one_letter(t.as_str(), 'y', 'Y')
}

/// Spaces.
pub open spec fn spaces(n: int) -> Seq<char> {
    Seq::new(
        if n < 0 {
            0
        } else {
            n as nat
        },
        |i: int| ' ',
    )
}

/// A text with spaces behind it up to a width.
pub open spec fn padded_right(s: Seq<char>, width: int) -> Seq<char> {
    s + spaces(width - s.len())
}

/// A text with spaces behind it up to a width.
pub fn pad_right(s: &str, width: usize) -> (r: String)
    ensures
        r@ == padded_right(s@, width as int),
{
    let n = to_chars(s).len();
    let mut out = s.to_owned();
    let mut i: usize = n;
    assert(out@ =~= s@ + spaces(0));
    while i < width
        invariant
            n == s@.len(),
            n <= i,
            i <= width || i == n,
            out@ == s@ + spaces(i - n),
        decreases width - i,
    {
        out.push(' ');
        i = i + 1;
        assert(out@ =~= s@ + spaces(i - n));
    }
    assert(out@ =~= padded_right(s@, width as int));
    out
}

// ---------------------------------------------------------------------------
// Laws
// ---------------------------------------------------------------------------

/// White space at both ends of a text is trimmed, and nothing else is.
pub proof fn trimming_takes_white_ends(a: Seq<char>, t: Seq<char>, b: Seq<char>)
    requires
        forall|i: int| 0 <= i < a.len() ==> is_white(#[trigger] a[i]),
        forall|i: int| 0 <= i < b.len() ==> is_white(#[trigger] b[i]),
        t.len() > 0 ==> !is_white(t[0]) && !is_white(t.last()),
    ensures
        trimmed(a + t + b) == t,
    decreases b.len(),
{
    let k = CharClass::White;
    let s = a + t + b;
    if t.len() == 0 {
        assert forall|i: int| 0 <= i < s.len() implies k.has(#[trigger] s[i]) == true by {
            if i < a.len() {
                assert(s[i] == a[i]);
            } else {
                assert(s[i] == b[i - a.len()]);
            }
        }
        run_unique(s, k, true, s.len() as int);
        assert(trim_start(s, k) =~= Seq::<char>::empty());
        assert(trimmed(s) =~= t);
    } else {
        assert forall|i: int| 0 <= i < a.len() implies k.has(#[trigger] s[i]) == true by {
            assert(s[i] == a[i]);
        }
        assert(s[a.len() as int] == t[0]);
        run_unique(s, k, true, a.len() as int);
        assert(trim_start(s, k) =~= t + b);
        trim_end_takes(t, b, k);
    }
}

proof fn trim_end_takes(t: Seq<char>, b: Seq<char>, k: CharClass)
    requires
        t.len() > 0,
        !k.has(t.last()),
        forall|i: int| 0 <= i < b.len() ==> k.has(#[trigger] b[i]),
    ensures
        trim_end(t + b, k) == t,
    decreases b.len(),
{
    if b.len() == 0 {
        assert(t + b =~= t);
    } else {
        let c = b.drop_last();
        assert forall|i: int| 0 <= i < c.len() implies k.has(#[trigger] c[i]) by {
            assert(c[i] == b[i]);
        }
        assert((t + b).drop_last() =~= t + c);
        assert((t + b).last() == b[b.len() - 1]);
        trim_end_takes(t, c, k);
    }
}

/// Blanks, tabulators and line ends are white space; visible characters of ASCII are
/// not.
pub proof fn what_is_white(c: char)
    ensures
        c == ' ' || c == '\t' || c == '\n' || c == '\r' ==> is_white(c),
        '!' <= c <= '~' ==> !is_white(c),
{
}

/// The lines of a text: what stands before the first line feed, without a carriage
/// return at its end, and then the lines of what stands behind it. A text without a
/// line feed is one line, unless it is empty.
pub proof fn lines_are_between_line_feeds(a: Seq<char>, b: Seq<char>)
    requires
        !a.contains('\n'),
    ensures
        lines(a.push('\n') + b) == seq![
            if a.len() > 0 && a.last() == '\r' {
                a.drop_last()
            } else {
                a
            },
        ] + lines(b),
        a.len() > 0 ==> lines(a) == seq![a],
        lines(Seq::<char>::empty()) == Seq::<Seq<char>>::empty(),
{
    let k = CharClass::Is('\n');
    let s = a.push('\n') + b;
    assert forall|i: int| 0 <= i < a.len() implies k.has(#[trigger] a[i]) == false by {
        assert(a.contains(a[i]));
    }
    run_unique(a, k, false, a.len() as int);
    assert forall|i: int| 0 <= i < a.len() implies k.has(#[trigger] s[i]) == false by {
        assert(s[i] == a[i]);
    }
    assert(s[a.len() as int] == '\n');
    run_unique(s, k, false, a.len() as int);
    assert(s.take(a.len() as int) =~= a);
    assert(s.skip(a.len() as int + 1) =~= b);
}

/// A text with its words found: one without white space is one word, white space
/// before a text changes nothing, and behind a word and white space the words of the
/// rest follow.
pub proof fn words_are_between_white(a: Seq<char>, c: char, b: Seq<char>)
    requires
        is_white(c),
        forall|i: int| 0 <= i < a.len() ==> !is_white(#[trigger] a[i]),
    ensures
        a.len() > 0 ==> words(a) == seq![a] && words(a.push(c) + b) == seq![a] + words(b),
        words(seq![c] + b) == words(b),
        words(Seq::<char>::empty()) == Seq::<Seq<char>>::empty(),
    decreases b.len(),
{
    let k = CharClass::White;
    // White space before a text.
    let s = seq![c] + b;
    let m = run(b, k, true);
    run_bounds(b, k, true);
    assert forall|i: int| 0 <= i < 1 + m implies k.has(#[trigger] s[i]) == true by {
        if i > 0 {
            assert(s[i] == b[i - 1]);
        }
    }
    if m < b.len() {
        assert(s[1 + m] == b[m]);
    }
    run_unique(s, k, true, 1 + m);
    assert(s.skip(1 + m) =~= b.skip(m));
    assert(words(s) =~= words(b));
    if a.len() > 0 {
        run_unique(a, k, true, 0);
        run_unique(a, k, false, a.len() as int);
        assert(a.skip(0) =~= a);
        assert(a.take(a.len() as int) =~= a);
        assert(a.skip(a.len() as int) =~= Seq::<char>::empty());
        assert(words(Seq::<char>::empty()) =~= Seq::<Seq<char>>::empty());
        assert(words(a) =~= seq![a]);
        let t = a.push(c) + b;
        assert(t[0] == a[0]);
        run_unique(t, k, true, 0);
        assert(t.skip(0) =~= t);
        assert forall|i: int| 0 <= i < a.len() implies k.has(#[trigger] t[i]) == false by {
            assert(t[i] == a[i]);
        }
        assert(t[a.len() as int] == c);
        run_unique(t, k, false, a.len() as int);
        assert(t.take(a.len() as int) =~= a);
        assert(t.skip(a.len() as int) =~= s);
    }
}

/// Texts that do not hold a separator are got back by splitting what they are joined
/// to with it.
pub proof fn splitting_undoes_joining(s: Seq<Seq<char>>, c: char)
    requires
        s.len() > 0,
        forall|i: int, j: int| 0 <= i < s.len() && 0 <= j < s[i].len() ==> #[trigger] s[i][j] != c,
    ensures
        split_by(join_with(s, seq![c]), CharClass::Is(c)) == s,
    decreases s.len(),
{
    let k = CharClass::Is(c);
    let last = s.last();
    assert forall|i: int| 0 <= i < last.len() implies !k.has(#[trigger] last[i]) by {
        assert(s[s.len() - 1][i] != c);
    }
    if s.len() == 1 {
        split_extends(last, c, last, k);
        assert(s =~= seq![last]);
    } else {
        let t = s.drop_last();
        assert forall|i: int, j: int| 0 <= i < t.len() && 0 <= j < t[i].len() implies #[trigger] t[i][j] != c by {
            assert(s[i][j] != c);
        }
        splitting_undoes_joining(t, c);
        let a = join_with(t, seq![c]);
        assert(a + seq![c] + last =~= a.push(c) + last);
        split_extends(a, c, last, k);
        assert(s =~= t.push(last));
    }
}

/// Joining puts the separator between each text and the next, and nowhere else.
pub proof fn joining_adds(s: Seq<Seq<char>>, x: Seq<char>, sep: Seq<char>)
    ensures
        join_with(Seq::<Seq<char>>::empty(), sep) == Seq::<char>::empty(),
        join_with(seq![x], sep) == x,
        s.len() > 0 ==> join_with(s.push(x), sep) == join_with(s, sep) + sep + x,
{
    if s.len() > 0 {
        assert(s.push(x).drop_last() =~= s);
    }
}

/// A text is cut at the first of a character, and not at all without one.
pub proof fn cut_only_where_it_stands(s: Seq<char>, c: char)
    ensures
        cut(s, c) is Some <==> s.contains(c),
        cut(s, c) matches Some((a, b)) ==> s == a.push(c) + b && !a.contains(c),
{
    let k = CharClass::Is(c);
    run_bounds(s, k, false);
    let n = run(s, k, false);
    if n < s.len() {
        assert(s[n] == c);
        let a = s.take(n);
        assert(s =~= a.push(c) + s.skip(n + 1));
        if a.contains(c) {
            let i = choose|i: int| 0 <= i < a.len() && a[i] == c;
            assert(k.has(s[i]) == false);
        }
    } else if s.contains(c) {
        let i = choose|i: int| 0 <= i < s.len() && s[i] == c;
        assert(k.has(s[i]) == false);
    }
}

/// The bytes of two texts one after the other are those of both.
pub proof fn byte_len_adds(a: Seq<char>, b: Seq<char>)
    ensures
        byte_len(a + b) == byte_len(a) + byte_len(b),
    decreases a.len(),
{
    if a.len() == 0 {
        assert(a + b =~= b);
    } else {
        byte_len_adds(a.drop_first(), b);
        assert((a + b).drop_first() =~= a.drop_first() + b);
    }
}

/// The characters in the first bytes of a text have that many bytes.
pub proof fn first_bytes_are_as_many(s: Seq<char>, n: int)
    ensures
        chars_in_bytes(s, n) matches Some(k) ==> 0 <= k <= s.len() && byte_len(s.take(k)) == n,
    decreases s.len(),
{
    if n == 0 {
        assert(s.take(0) =~= Seq::<char>::empty());
    } else if n > 0 && s.len() > 0 {
        first_bytes_are_as_many(s.drop_first(), n - char_bytes(s[0]));
        if let Some(k) = chars_in_bytes(s.drop_first(), n - char_bytes(s[0])) {
            assert(s.take(k + 1).drop_first() =~= s.drop_first().take(k));
        }
    }
}

/// A text that is not too long stays as it is; of one that is, so many bytes are kept, and
/// the end is put behind them.
pub proof fn long_texts_are_shortened(s: Seq<char>, max: int, keep: int, end: Seq<char>)
    requires
        can_shorten(s, max, keep),
    ensures
        byte_len(s) <= max ==> shortened(s, max, keep, end) == s,
        byte_len(s) > max ==> exists|k: int|
            0 <= k <= s.len() && byte_len(#[trigger] s.take(k)) == keep && shortened(s, max, keep, end) == s.take(k)
                + end,
{
    first_bytes_are_as_many(s, keep);
    if byte_len(s) > max {
        let k = chars_in_bytes(s, keep)->0;
        assert(byte_len(s.take(k)) == keep);
    }
}

/// A text is filled up with spaces to a width, and longer ones stay as they are.
pub proof fn texts_are_filled_up(s: Seq<char>, width: int, i: int)
    ensures
        padded_right(s, width).len() == (if s.len() < width {
            width
        } else {
            s.len() as int
        }),
        padded_right(s, width).take(s.len() as int) == s,
        s.len() <= i < width ==> padded_right(s, width)[i] == ' ',
        s.len() >= width ==> padded_right(s, width) == s,
{
    assert(padded_right(s, width).take(s.len() as int) =~= s);
    if s.len() >= width {
        assert(padded_right(s, width) =~= s);
    }
}

/// Only the letter, in either case, says yes; white space around it does not matter.
pub proof fn what_says_yes(a: Seq<char>, b: Seq<char>, t: Seq<char>)
    requires
        forall|i: int| 0 <= i < a.len() ==> is_white(#[trigger] a[i]),
        forall|i: int| 0 <= i < b.len() ==> is_white(#[trigger] b[i]),
        t.len() > 0 ==> !is_white(t[0]) && !is_white(t.last()),
    ensures
        says_yes(a + t + b) <==> t == seq!['y'] || t == seq!['Y'],
{
    trimming_takes_white_ends(a, t, b);
    if t.len() == 1 {
        assert(t =~= seq![t[0]]);
    }
}

/// Characters of a class are taken off the end of a text until another stands there.
pub proof fn trimming_the_end(s: Seq<char>, c: char, k: CharClass)
    ensures
        k.has(c) ==> trim_end(s.push(c), k) == trim_end(s, k),
        !k.has(c) ==> trim_end(s.push(c), k) == s.push(c),
        trim_end(Seq::empty(), k) == Seq::<char>::empty(),
        k.has(c) ==> trim_start(seq![c] + s, k) == trim_start(s, k),
        !k.has(c) ==> trim_start(seq![c] + s, k) == seq![c] + s,
{
    assert(s.push(c).drop_last() =~= s);
    let t = seq![c] + s;
    assert(t.drop_first() =~= s);
    assert(t[0] == c);
    run_bounds(s, k, true);
    if k.has(c) {
        assert(t.skip(1 + run(s, k, true)) =~= s.skip(run(s, k, true)));
    } else {
        assert(t.skip(0) =~= t);
    }
}

/// A character takes one byte up to the end of ASCII, and up to three more behind that.
pub proof fn how_many_bytes_a_character_takes(c: char)
    ensures
        byte_len(seq![c]) == (if c as u32 <= 0x7f {
            1int
        } else if c as u32 <= 0x7ff {
            2
        } else if c as u32 <= 0xffff {
            3
        } else {
            4
        }),
{
    reveal_with_fuel(byte_len, 2);
    assert(seq![c].drop_first() =~= Seq::<char>::empty());
    assert(seq![c].drop_last() =~= Seq::<char>::empty());
}

} // verus!
