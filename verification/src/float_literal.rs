//! The texts that Rust reads as a floating-point number.
use vstd::prelude::*;
use crate::expressions::is_digit;

verus! {

/// A sign character.
pub open spec fn is_sign(c: char) -> bool {
    c == '+' || c == '-'
}

/// Whether `s` spells the word whose lower-case letters are `lower` and whose
/// upper-case letters are `upper`, each letter in either case.
pub open spec fn spells(s: Seq<char>, lower: Seq<char>, upper: Seq<char>) -> bool {
    s.len() == lower.len() && forall|i: int| 0 <= i < s.len() ==> s[i] == lower[i] || s[i] == upper[i]
}

/// A character that may occur in the digits part of a decimal literal.
pub open spec fn is_mantissa_char(c: char) -> bool {
    is_digit(c) || c == '.'
}

/// The length of the longest prefix of digits and points.
pub open spec fn mantissa_len(s: Seq<char>) -> nat
    decreases s.len(),
{
    if s.len() > 0 && is_mantissa_char(s[0]) {
        1 + mantissa_len(s.drop_first())
    } else {
        0
    }
}

/// The number of points in `s`.
pub open spec fn points(s: Seq<char>) -> nat
    decreases s.len(),
{
    if s.len() == 0 {
        0
    } else {
        points(s.drop_last()) + if s.last() == '.' { 1nat } else { 0 }
    }
}

/// Digits with at most one point, and at least one digit.
pub open spec fn is_mantissa(m: Seq<char>) -> bool {
    &&& forall|i: int| 0 <= i < m.len() ==> is_mantissa_char(#[trigger] m[i])
    &&& points(m) <= 1
    &&& exists|i: int| 0 <= i < m.len() && is_digit(#[trigger] m[i])
}

/// An exponent: `e` or `E`, an optional sign, then at least one digit.
pub open spec fn is_exponent(x: Seq<char>) -> bool {
    &&& x.len() >= 2
    &&& x[0] == 'e' || x[0] == 'E'
    &&& exponent_digits(x).len() >= 1
    &&& forall|i: int| 0 <= i < exponent_digits(x).len() ==> is_digit(#[trigger] exponent_digits(x)[i])
}

/// What follows the `e` of an exponent and its sign.
pub open spec fn exponent_digits(x: Seq<char>) -> Seq<char> {
    if is_sign(x[1]) {
        x.skip(2)
    } else {
        x.skip(1)
    }
}

/// A decimal number: digits with at most one point and at least one digit,
/// optionally followed by an exponent.
pub open spec fn is_decimal(b: Seq<char>) -> bool {
    let m = mantissa_len(b) as int;
    is_mantissa(b.take(m)) && (m == b.len() || is_exponent(b.skip(m)))
}

/// The texts that `f64::from_str` accepts, as its documentation gives them: an
/// optional sign, then `inf`, `infinity`, `nan` in any case, or a decimal
/// number.
pub open spec fn is_float_literal(s: Seq<char>) -> bool {
    let b = if s.len() > 0 && is_sign(s[0]) { s.drop_first() } else { s };
    spells(b, "inf"@, "INF"@) || spells(b, "infinity"@, "INFINITY"@) || spells(b, "nan"@, "NAN"@)
        || is_decimal(b)
}

fn spells_word(s: &Vec<char>, lower: &str, upper: &str) -> (r: bool)
    requires
        lower@.len() == upper@.len(),
    ensures
        r == spells(s@, lower@, upper@),
{
    let lo = crate::text::chars_of(lower);
    let up = crate::text::chars_of(upper);
    if s.len() != lo.len() {
        return false;
    }
    let mut i: usize = 0;
    while i < s.len()
        invariant
            i <= s.len(),
            s.len() == lo.len(),
            lo.len() == up.len(),
            lo@ == lower@,
            up@ == upper@,
            forall|k: int| 0 <= k < i ==> s@[k] == lo@[k] || s@[k] == up@[k],
        decreases s.len() - i,
    {
        if s[i] != lo[i] && s[i] != up[i] {
            return false;
        }
        i += 1;
    }
    true
}

proof fn lemma_mantissa_len(b: Seq<char>, m: int)
    requires
        0 <= m <= b.len(),
        forall|i: int| 0 <= i < m ==> is_mantissa_char(#[trigger] b[i]),
        m == b.len() || !is_mantissa_char(b[m]),
    ensures
        mantissa_len(b) == m,
    decreases m,
{
    if m > 0 {
        lemma_mantissa_len(b.drop_first(), m - 1);
    }
}

/// The characters of `v` from `start` on.
fn skip_chars(v: &Vec<char>, start: usize) -> (r: Vec<char>)
    requires
        start <= v.len(),
    ensures
        r@ == v@.skip(start as int),
{
    let mut b: Vec<char> = Vec::new();
    let mut j: usize = start;
    while j < v.len()
        invariant
            start <= j <= v.len(),
            b@ == v@.subrange(start as int, j as int),
        decreases v.len() - j,
    {
        b.push(v[j]);
        j += 1;
    }
    b
}

/// Whether every character of `v` is a digit.
fn all_digits(v: &Vec<char>) -> (r: bool)
    ensures
        r == forall|i: int| 0 <= i < v@.len() ==> is_digit(#[trigger] v@[i]),
{
    let mut k: usize = 0;
    while k < v.len()
        invariant
            k <= v.len(),
            forall|i: int| 0 <= i < k ==> is_digit(#[trigger] v@[i]),
        decreases v.len() - k,
    {
        if !('0' <= v[k] && v[k] <= '9') {
            return false;
        }
        k += 1;
    }
    true
}

/// Whether `x` is an exponent (see `is_exponent`).
fn exponent_chars(x: &Vec<char>) -> (r: bool)
    ensures
        r == is_exponent(x@),
{
    if x.len() < 2 || (x[0] != 'e' && x[0] != 'E') {
        return false;
    }
    let d = if x[1] == '+' || x[1] == '-' {
        skip_chars(x, 2)
    } else {
        skip_chars(x, 1)
    };
    assert(d@ == exponent_digits(x@));
    d.len() >= 1 && all_digits(&d)
}

/// Whether `b` is a decimal number (see `is_decimal`).
fn decimal_chars(b: &Vec<char>) -> (r: bool)
    ensures
        r == is_decimal(b@),
{
    let mut m: usize = 0;
    let mut pts: usize = 0;
    let mut digits = false;
    while m < b.len() && (('0' <= b[m] && b[m] <= '9') || b[m] == '.')
        invariant
            m <= b.len(),
            pts <= m,
            forall|i: int| 0 <= i < m ==> is_mantissa_char(#[trigger] b@[i]),
            pts == points(b@.take(m as int)),
            digits == exists|i: int| 0 <= i < m && is_digit(#[trigger] b@[i]),
        decreases b.len() - m,
    {
        assert(b@.take(m + 1).drop_last() =~= b@.take(m as int));
        if b[m] == '.' {
            pts += 1;
        } else {
            digits = true;
        }
        m += 1;
    }
    proof {
        lemma_mantissa_len(b@, m as int);
        assert forall|i: int| 0 <= i < m implies is_mantissa_char(#[trigger] b@.take(m as int)[i]) by {
            assert(b@.take(m as int)[i] == b@[i]);
        }
        if digits {
            let i = choose|i: int| 0 <= i < m && is_digit(#[trigger] b@[i]);
            assert(b@.take(m as int)[i] == b@[i]);
        }
        if exists|i: int| 0 <= i < m && is_digit(#[trigger] b@.take(m as int)[i]) {
            let i = choose|i: int| 0 <= i < m && is_digit(#[trigger] b@.take(m as int)[i]);
            assert(b@.take(m as int)[i] == b@[i]);
        }
    }
    if pts > 1 || !digits {
        return false;
    }
    if m == b.len() {
        return true;
    }
    let x = skip_chars(b, m);
    exponent_chars(&x)
}

/// Whether `f64::from_str` accepts the characters of `s` (see
/// `is_float_literal`).
pub fn is_float_literal_chars(s: &Vec<char>) -> (r: bool)
    ensures
        r == is_float_literal(s@),
{
    let start: usize = if s.len() > 0 && (s[0] == '+' || s[0] == '-') {
        1
    } else {
        0
    };
    let b = skip_chars(s, start);
    assert(b@ =~= if s@.len() > 0 && is_sign(s@[0]) { s@.drop_first() } else { s@ });
    proof {
        reveal_strlit("inf");
        reveal_strlit("INF");
        reveal_strlit("infinity");
        reveal_strlit("INFINITY");
        reveal_strlit("nan");
        reveal_strlit("NAN");
    }
    if spells_word(&b, "inf", "INF") || spells_word(&b, "infinity", "INFINITY") || spells_word(
        &b,
        "nan",
        "NAN",
    ) {
        return true;
    }
    decimal_chars(&b)
}

} // verus!
