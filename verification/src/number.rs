//! Decimal numbers as text.
use vstd::prelude::*;

use crate::text::to_chars;

verus! {

/// Whether `c` is a decimal digit.
pub open spec fn is_digit(c: char) -> bool {
    '0' <= c <= '9'
}

/// The number that a sequence of digits stands for.
pub open spec fn digits_value(s: Seq<char>) -> nat
    decreases s.len(),
{
    if s.len() == 0 {
        0
    } else {
        10 * digits_value(s.drop_last()) + (s.last() as int - '0' as int) as nat
    }
}

/// `s` without a plus sign at its start.
pub open spec fn without_plus(s: Seq<char>) -> Seq<char> {
    if s.len() > 0 && s[0] == '+' {
        s.skip(1)
    } else {
        s
    }
}

/// Whether `s` holds digits only.
pub open spec fn all_digits(s: Seq<char>) -> bool {
    forall|i: int| 0 <= i < s.len() ==> is_digit(#[trigger] s[i])
}

/// The number that `s` stands for, if it is one of at most `max`: an optional
/// plus sign and then digits, at least one.
pub open spec fn number_of(s: Seq<char>, max: nat) -> Option<nat> {
    let d = without_plus(s);
    if d.len() > 0 && all_digits(d) && digits_value(d) <= max {
        Some(digits_value(d))
    } else {
        None
    }
}

/// A longer sequence of digits stands for no smaller number.
pub proof fn digits_value_grows(s: Seq<char>, n: int)
    requires
        0 <= n <= s.len(),
        all_digits(s),
    ensures
        digits_value(s.take(n)) <= digits_value(s),
    decreases s.len(),
{
    if n == s.len() {
        assert(s.take(n) =~= s);
    } else {
        let t = s.drop_last();
        assert forall|i: int| 0 <= i < t.len() implies is_digit(#[trigger] t[i]) by {
            assert(t[i] == s[i]);
        }
        digits_value_grows(t, n);
        assert(t.take(n) =~= s.take(n));
    }
}

/// The number that `s` stands for, if it is one of at most `max`.
pub fn parse_number(s: &str, max: u64) -> (r: Option<u64>)
    ensures
        match r {
            Some(n) => number_of(s@, max as nat) == Some(n as nat),
            None => number_of(s@, max as nat) is None,
        },
{
    let v = to_chars(s);
    let start: usize = if v.len() > 0 && v[0] == '+' {
        1
    } else {
        0
    };
    let ghost d = s@.skip(start as int);
    assert(start == 0 ==> d =~= s@);
    if start == v.len() {
        return None;
    }
    let mut n: u64 = 0;
    let mut i: usize = start;
    assert(d.take(0) =~= Seq::<char>::empty());
    while i < v.len()
        invariant
            start <= i <= v@.len(),
            v@ == s@,
            start < v@.len(),
            d == s@.skip(start as int),
            forall|j: int| 0 <= j < i - start ==> is_digit(#[trigger] d[j]),
            n == digits_value(d.take(i - start)),
            n <= max,
            d == without_plus(s@),
        decreases v@.len() - i,
    {
        let c = v[i];
        assert(d[i - start] == c);
        if c < '0' || c > '9' {
            assert(!all_digits(d));
            return None;
        }
        let x: u64 = (c as u64) - ('0' as u64);
        let ghost longer = d.take(i - start + 1);
        proof {
            assert(longer.drop_last() =~= d.take(i - start));
            assert(longer.last() == c);
            if all_digits(d) {
                digits_value_grows(d, i - start + 1);
            }
        }
        if n > max / 10 || x > max - n * 10 {
            assert(digits_value(longer) > max);
            assert(all_digits(d) ==> digits_value(d) > max);
            return None;
        }
        n = n * 10 + x;
        i = i + 1;
    }
    assert(d.take(d.len() as int) =~= d);
    Some(n)
}

/// The digit of a number below ten.
pub open spec fn digit(d: nat) -> char {
    if d == 0 {
        '0'
    } else if d == 1 {
        '1'
    } else if d == 2 {
        '2'
    } else if d == 3 {
        '3'
    } else if d == 4 {
        '4'
    } else if d == 5 {
        '5'
    } else if d == 6 {
        '6'
    } else if d == 7 {
        '7'
    } else if d == 8 {
        '8'
    } else {
        '9'
    }
}

fn digit_char(d: u64) -> (r: char)
    requires
        d < 10,
    ensures
        r == digit(d as nat),
{
    match d {
        0 => '0',
        1 => '1',
        2 => '2',
        3 => '3',
        4 => '4',
        5 => '5',
        6 => '6',
        7 => '7',
        8 => '8',
        _ => '9',
    }
}

/// `n` in decimal digits, without leading zeros.
pub open spec fn decimal(n: nat) -> Seq<char>
    decreases n,
{
    if n < 10 {
        seq![digit(n)]
    } else {
        decimal(n / 10).push(digit(n % 10))
    }
}

/// `n` in decimal digits.
pub fn to_decimal(n: u64) -> (r: String)
    ensures
        r@ == decimal(n as nat),
    decreases n,
{
    if n < 10 {
        let mut out = String::new();
        out.push(digit_char(n));
        assert(out@ =~= seq![digit(n as nat)]);
        out
    } else {
        let mut out = to_decimal(n / 10);
        out.push(digit_char(n % 10));
        out
    }
}

/// `n` in decimal digits, with zeros before it up to a width.
pub open spec fn padded(n: nat, width: nat) -> Seq<char> {
    let d = decimal(n);
    if d.len() >= width {
        d
    } else {
        Seq::new((width - d.len()) as nat, |i: int| '0') + d
    }
}

/// `n` in decimal digits, with zeros before it up to a width.
pub fn to_padded(n: u64, width: usize) -> (r: String)
    ensures
        r@ == padded(n as nat, width as nat),
{
    let d = to_decimal(n);
    let len = to_chars(d.as_str()).len();
    if len >= width {
        return d;
    }
    let mut out = String::new();
    let mut i: usize = 0;
    while i < width - len
        invariant
            i <= width - len,
            len < width,
            out@ == Seq::new(i as nat, |j: int| '0'),
        decreases width - len - i,
    {
        out.push('0');
        i = i + 1;
        assert(out@ =~= Seq::new(i as nat, |j: int| '0'));
    }
    out.append(d.as_str());
    out
}

/// The digits of a number stand for that number.
pub proof fn decimal_value(n: nat)
    ensures
        digits_value(decimal(n)) == n,
        decimal(n).len() > 0,
        all_digits(decimal(n)),
    decreases n,
{
    if n < 10 {
        assert(decimal(n).drop_last() =~= Seq::<char>::empty());
        assert(digits_value(Seq::<char>::empty()) == 0);
    } else {
        decimal_value(n / 10);
        assert(decimal(n).drop_last() =~= decimal(n / 10));
        assert forall|i: int| 0 <= i < decimal(n).len() implies is_digit(#[trigger] decimal(n)[i]) by {
            if i < decimal(n / 10).len() {
                assert(decimal(n)[i] == decimal(n / 10)[i]);
            }
        }
    }
}

/// Reading back a number that was written gives the number.
pub proof fn number_round_trip(n: nat, max: nat)
    requires
        n <= max,
    ensures
        number_of(decimal(n), max) == Some(n),
{
    decimal_value(n);
    assert(is_digit(decimal(n)[0]));
}

/// A digit behind digits counts ten times what stands before it and itself more, and
/// a number is written so.
pub proof fn digits_count_by_tens(s: Seq<char>, n: nat, d: nat)
    requires
        d < 10,
    ensures
        digit(d) as int == '0' as int + d,
        digits_value(s.push(digit(d))) == 10 * digits_value(s) + d,
        digits_value(Seq::<char>::empty()) == 0,
        n > 0 ==> decimal(10 * n + d) == decimal(n).push(digit(d)),
        decimal(d) == seq![digit(d)],
{
    assert(s.push(digit(d)).drop_last() =~= s);
    if n > 0 {
        assert((10 * n + d) / 10 == n && (10 * n + d) % 10 == d) by (nonlinear_arith)
            requires
                d < 10,
        ;
    }
}

/// A text is read as a number exactly where it is digits, at least one, with at most
/// a plus sign before them, and the number is not too large.
pub proof fn what_is_a_number(s: Seq<char>, max: nat)
    ensures
        s.len() > 0 && all_digits(s) && digits_value(s) <= max ==> number_of(s, max) == Some(
            digits_value(s),
        ),
        s.len() > 0 && s[0] != '+' ==> (number_of(s, max) is Some <==> all_digits(s)
            && digits_value(s) <= max),
        number_of(Seq::<char>::empty(), max) is None,
        s.len() > 0 && s[0] != '+' ==> number_of(seq!['+'] + s, max) == number_of(s, max),
{
    if s.len() > 0 && all_digits(s) {
        assert(is_digit(s[0]));
    }
    assert((seq!['+'] + s).skip(1) =~= s);
}

/// Zeros before a number fill it up to a width and do not change it.
pub proof fn padding_keeps_the_number(n: nat, width: nat)
    ensures
        padded(n, width).len() >= width,
        all_digits(padded(n, width)),
        digits_value(padded(n, width)) == n,
        decimal(n).len() >= width ==> padded(n, width) == decimal(n),
{
    decimal_value(n);
    let d = decimal(n);
    if d.len() < width {
        let z = Seq::new((width - d.len()) as nat, |i: int| '0');
        zeros_change_nothing(z, d);
        assert forall|i: int| 0 <= i < padded(n, width).len() implies is_digit(
            #[trigger] padded(n, width)[i],
        ) by {
            if i >= z.len() {
                assert(padded(n, width)[i] == d[i - z.len()]);
            }
        }
    }
}

proof fn zeros_change_nothing(z: Seq<char>, d: Seq<char>)
    requires
        forall|i: int| 0 <= i < z.len() ==> #[trigger] z[i] == '0',
    ensures
        digits_value(z + d) == digits_value(d),
    decreases z.len() + d.len(),
{
    if d.len() > 0 {
        zeros_change_nothing(z, d.drop_last());
        assert((z + d).drop_last() =~= z + d.drop_last());
    } else if z.len() > 0 {
        let t = z.drop_last();
        assert forall|i: int| 0 <= i < t.len() implies #[trigger] t[i] == '0' by {
            assert(t[i] == z[i]);
        }
        zeros_change_nothing(t, d);
        assert((z + d).drop_last() =~= t + d);
        assert((z + d).last() == z[z.len() - 1]);
    }
}

} // verus!
