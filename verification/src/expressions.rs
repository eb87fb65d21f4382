//! Character classes and the shapes of identifiers and numbers.
use vstd::prelude::*;
use crate::text::{char_in, chars_of, occurs, occurs_in};

verus! {

/// The English letters, lower case first.
pub open spec fn english_alphabet() -> Seq<char> {
    "abcdefghijklmnopqrstuvwxyzABCDEFGHIJKLMNOPQRSTUVWXYZ"@
}

/// Whether `c` occurs in the English alphabet, or in `_{}`.
pub fn is_alphabetic(c: &str) -> (r: bool)
    ensures
        r == (occurs_in(c@, english_alphabet()) || occurs_in(c@, "_{}"@)),
{
    let cs = chars_of(c);
    is_alphabetic_chars(&cs)
}

pub fn is_alphabetic_chars(cs: &Vec<char>) -> (r: bool)
    ensures
        r == (occurs_in(cs@, english_alphabet()) || occurs_in(cs@, "_{}"@)),
{
    let letters = chars_of("abcdefghijklmnopqrstuvwxyzABCDEFGHIJKLMNOPQRSTUVWXYZ");
    let marks = chars_of("_{}");
    occurs(cs, &letters) || occurs(cs, &marks)
}


/// Whether `c` occurs in `0123456789i.`.
pub fn is_numeric(c: &str) -> (r: bool)
    ensures
        r == occurs_in(c@, "0123456789i."@),
{
    let cs = chars_of(c);
    is_numeric_chars(&cs)
}

pub fn is_numeric_chars(cs: &Vec<char>) -> (r: bool)
    ensures
        r == occurs_in(cs@, "0123456789i."@),
{
    let hay = chars_of("0123456789i.");
    occurs(cs, &hay)
}

/// Whether `c` occurs in `+-*/^()`.
pub fn is_operational(c: &str) -> (r: bool)
    ensures
        r == occurs_in(c@, "+-*/^()"@),
{
    let cs = chars_of(c);
    is_operational_chars(&cs)
}

pub fn is_operational_chars(cs: &Vec<char>) -> (r: bool)
    ensures
        r == occurs_in(cs@, "+-*/^()"@),
{
    let hay = chars_of("+-*/^()");
    occurs(cs, &hay)
}

/// How far a reading of a variable name has come: `0` nothing read, `1` letters
/// read, `2` an underscore after the letters, `3` an opened subscript brace,
/// `4` the closed subscript; `-1` once the text can no longer be a name.
pub open spec fn id_step(phase: int, c: char) -> int {
    if english_alphabet().contains(c) {
        if phase == 0 || phase == 1 {
            1
        } else if phase == 3 {
            3
        } else {
            -1
        }
    } else if c == '_' {
        if phase == 1 { 2 } else { -1 }
    } else if c == '{' {
        if phase == 2 { 3 } else { -1 }
    } else if c == '}' {
        if phase == 3 { 4 } else { -1 }
    } else {
        if phase == 3 { 3 } else { -1 }
    }
}

/// The phase reached after reading all of `s`.
pub open spec fn id_phase(s: Seq<char>) -> int
    decreases s.len(),
{
    if s.len() == 0 {
        0
    } else {
        let p = id_phase(s.drop_last());
        if p < 0 { -1 } else { id_step(p, s.last()) }
    }
}

/// A variable name: letters, optionally followed by `_` and then by a brace
/// subscript `{...}` whose body holds no `_`, `{` or `}`; any prefix of such a
/// name (the empty text included) is accepted too.
pub open spec fn variable_id_shape(s: Seq<char>) -> bool {
    id_phase(s) >= 0
}

/// Whether `input` has the shape of a variable name.
pub fn is_variable_id(input: &str) -> (r: bool)
    ensures
        r == variable_id_shape(input@),
{
    let cs = chars_of(input);
    is_variable_id_chars(&cs)
}

pub fn is_variable_id_chars(cs: &Vec<char>) -> (r: bool)
    ensures
        r == variable_id_shape(cs@),
{
    let letters = chars_of("abcdefghijklmnopqrstuvwxyzABCDEFGHIJKLMNOPQRSTUVWXYZ");
    let mut phase: u8 = 0;
    let mut i: usize = 0;
    while i < cs.len()
        invariant
            i <= cs.len(),
            letters@ == english_alphabet(),
            phase <= 4,
            id_phase(cs@.subrange(0, i as int)) == phase as int,
        decreases cs.len() - i,
    {
        let c = cs[i];
        proof {
            assert(cs@.subrange(0, i + 1).drop_last() =~= cs@.subrange(0, i as int));
        }
        if char_in(c, &letters) {
            if phase == 0 || phase == 1 {
                phase = 1;
            } else if phase != 3 {
                proof { lemma_id_phase_stuck(cs@, (i + 1) as int); }
                return false;
            }
        } else if c == '_' {
            if phase != 1 {
                proof { lemma_id_phase_stuck(cs@, (i + 1) as int); }
                return false;
            }
            phase = 2;
        } else if c == '{' {
            if phase != 2 {
                proof { lemma_id_phase_stuck(cs@, (i + 1) as int); }
                return false;
            }
            phase = 3;
        } else if c == '}' {
            if phase != 3 {
                proof { lemma_id_phase_stuck(cs@, (i + 1) as int); }
                return false;
            }
            phase = 4;
        } else if phase != 3 {
            proof { lemma_id_phase_stuck(cs@, (i + 1) as int); }
            return false;
        }
        i += 1;
    }
    assert(cs@.subrange(0, cs@.len() as int) =~= cs@);
    true
}

/// Once a prefix is rejected, every longer text is rejected.
proof fn lemma_id_phase_stuck(s: Seq<char>, k: int)
    requires
        0 <= k <= s.len(),
        id_phase(s.subrange(0, k)) < 0,
    ensures
        id_phase(s) < 0,
    decreases s.len() - k,
{
    if k < s.len() {
        assert(s.subrange(0, k + 1).drop_last() =~= s.subrange(0, k));
        lemma_id_phase_stuck(s, k + 1);
    } else {
        assert(s.subrange(0, k) =~= s);
    }
}

/// Whether `c` is one of the ASCII digits `0`..`9`.
pub open spec fn is_digit(c: char) -> bool {
    '0' <= c && c <= '9'
}

/// The number shape read from `s`, where `decimal` says whether a point was
/// already read: digits and at most one `.`, and anything at all once an `i`
/// has been read.
pub open spec fn number_shape_from(s: Seq<char>, decimal: bool) -> bool
    decreases s.len(),
{
    if s.len() == 0 {
        true
    } else if is_digit(s[0]) {
        number_shape_from(s.drop_first(), decimal)
    } else if s[0] == '.' {
        !decimal && number_shape_from(s.drop_first(), true)
    } else {
        s[0] == 'i'
    }
}

/// Whether `input` has the shape of a number: digits with at most one decimal
/// point up to the first `i`, the imaginary unit, after which nothing is read.
pub fn is_number(input: &str) -> (r: bool)
    ensures
        r == number_shape_from(input@, false),
{
    let cs = chars_of(input);
    is_number_chars(&cs)
}

pub fn is_number_chars(cs: &Vec<char>) -> (r: bool)
    ensures
        r == number_shape_from(cs@, false),
{
    let mut decimal = false;
    let mut i: usize = 0;
    assert(cs@.skip(0) =~= cs@);
    while i < cs.len()
        invariant
            i <= cs.len(),
            number_shape_from(cs@, false) == number_shape_from(cs@.skip(i as int), decimal),
        decreases cs.len() - i,
    {
        let c = cs[i];
        proof {
            assert(cs@.skip(i as int)[0] == c);
            assert(cs@.skip(i as int).drop_first() =~= cs@.skip(i + 1));
        }
        if '0' <= c && c <= '9' {
        } else if c == '.' {
            if decimal {
                return false;
            }
            decimal = true;
        } else if c == 'i' {
            return true;
        } else {
            return false;
        }
        i += 1;
    }
    true
}

} // verus!
