//! Splitting an input line into lexemes, with the character classes given by
//! regular expressions.
use vstd::prelude::*;
use crate::pattern::{captures, captures_spec, is_match, matches_spec};
use crate::text::{chars_of, string_from_chars};

verus! {

/// A whole number, optionally with a decimal part and an imaginary unit.
pub const NUMERIC: &'static str = r"\G((\d)+(\.)?(\d)*[i]?)$";

/// A name, optionally with an underscore and a brace subscript.
pub const ALPHABETIC: &'static str = r"\G(([a-zA-Z]+)(_(\{(\w*(})?)?)?)?)$";

/// A single operator sign.
pub const OPERATIONAL: &'static str = r"\G([\*/\-+\(\]\)\]<>^|])$";

/// A character that may occur in a number.
pub const NUMERIC_CHAR: &'static str = r"[i\.\d]";

/// A character that may occur in a name.
pub const ALPHABETIC_CHAR: &'static str = r"[\w\{\}\_]";

/// A white-space character.
pub const WHITESPACE: &'static str = r"\s";

/// Class bits from three answers: 4, 2 and 1 for the first, second and third.
pub open spec fn bits(n: bool, a: bool, o: bool) -> int {
    (if n { 4int } else { 0 }) + (if a { 2int } else { 0 }) + (if o { 1int } else { 0 })
}

/// The class bits of a character, by the character patterns; `None` where a
/// pattern reports a failure.
pub open spec fn char_bits(c: Seq<char>) -> Option<u8> {
    match (
        captures_spec(NUMERIC_CHAR@, c),
        captures_spec(ALPHABETIC_CHAR@, c),
        captures_spec(OPERATIONAL@, c),
    ) {
        (Some(n), Some(a), Some(o)) => Some(bits(n, a, o) as u8),
        _ => None,
    }
}

/// The class bits of a lexeme, by the whole-lexeme patterns, with 8 when none
/// matches; `None` where a pattern reports a failure.
pub open spec fn string_bits(s: Seq<char>) -> Option<u8> {
    match (captures_spec(NUMERIC@, s), captures_spec(ALPHABETIC@, s), captures_spec(OPERATIONAL@, s)) {
        (Some(n), Some(a), Some(o)) => Some(
            if bits(n, a, o) != 0 {
                bits(n, a, o) as u8
            } else {
                8
            },
        ),
        _ => None,
    }
}

/// One character read into the lexemes, as in `crate::lexer::absorb` but with
/// white space and the classes given by the patterns.
pub open spec fn absorb_by_patterns(ls: Seq<Seq<char>>, c: char) -> Option<Seq<Seq<char>>> {
    match matches_spec(WHITESPACE@, seq![c]) {
        None => None,
        Some(true) => Some(ls),
        Some(false) => match (char_bits(seq![c]), string_bits(ls.last().push(c))) {
            (Some(ct), Some(combined)) => Some(
                if combined & ct == combined || ls.last().len() == 0 {
                    ls.drop_last().push(ls.last().push(c))
                } else {
                    ls.push(seq![c])
                },
            ),
            _ => None,
        },
    }
}

/// The lexemes of `s`; `None` where a pattern reports a failure.
pub open spec fn lex_by_patterns(s: Seq<char>) -> Option<Seq<Seq<char>>>
    decreases s.len(),
{
    if s.len() == 0 {
        Some(seq![Seq::<char>::empty()])
    } else {
        match lex_by_patterns(s.drop_last()) {
            None => None,
            Some(ls) => absorb_by_patterns(ls, s.last()),
        }
    }
}

proof fn lemma_lex_by_patterns_stuck(s: Seq<char>, k: int)
    requires
        0 <= k <= s.len(),
        lex_by_patterns(s.subrange(0, k)) is None,
    ensures
        lex_by_patterns(s) is None,
    decreases s.len() - k,
{
    if k < s.len() {
        assert(s.subrange(0, k + 1).drop_last() =~= s.subrange(0, k));
        lemma_lex_by_patterns_stuck(s, k + 1);
    } else {
        assert(s.subrange(0, k) =~= s);
    }
}

/// The characters of `s` that the white-space pattern does not match.
pub open spec fn without_white_space(s: Seq<char>) -> Seq<char> {
    s.filter(|c: char| matches_spec(WHITESPACE@, seq![c]) != Some(true))
}

proof fn lemma_lex_by_patterns_keeps_text(s: Seq<char>)
    ensures
        lex_by_patterns(s) matches Some(ls) ==> ls.len() >= 1 && ls.flatten_alt()
            == without_white_space(s),
    decreases s.len(),
{
    reveal(Seq::filter);
    if s.len() == 0 {
        let one = seq![Seq::<char>::empty()];
        assert(one.drop_last() =~= Seq::<Seq<char>>::empty());
        assert(Seq::<Seq<char>>::empty().flatten_alt() =~= Seq::<char>::empty());
        assert(one.flatten_alt() == one.drop_last().flatten_alt().add(one.last()));
        assert(one.flatten_alt() =~= Seq::<char>::empty());
        assert(without_white_space(s) =~= Seq::<char>::empty());
    } else {
        let c = s.last();
        lemma_lex_by_patterns_keeps_text(s.drop_last());
        if let Some(l) = lex_by_patterns(s.drop_last()) {
            let space = matches_spec(WHITESPACE@, seq![c]);
            assert(without_white_space(s) == if space != Some(true) {
                without_white_space(s.drop_last()).push(c)
            } else {
                without_white_space(s.drop_last())
            });
            if space == Some(false) {
                if let (Some(ct), Some(combined)) = (char_bits(seq![c]), string_bits(l.last().push(c))) {
                    let last = l.last();
                    if combined & ct == combined || last.len() == 0 {
                        let m = l.drop_last().push(last.push(c));
                        assert(m.drop_last() =~= l.drop_last());
                        assert(l.flatten_alt() == l.drop_last().flatten_alt().add(last));
                        assert(m.flatten_alt() =~= l.flatten_alt().push(c));
                    } else {
                        let m = l.push(seq![c]);
                        assert(m.drop_last() =~= l);
                        assert(m.flatten_alt() =~= l.flatten_alt().push(c));
                    }
                }
            }
        }
    }
}

/// Splitting by the patterns loses and adds no character: the lexemes, joined
/// in order, give back the line without the characters the white-space
/// pattern matches.
pub proof fn lemma_scan_by_patterns_keeps_text(s: Seq<char>)
    ensures
        lex_by_patterns(s) matches Some(ls) ==> ls.flatten() == without_white_space(s),
{
    lemma_lex_by_patterns_keeps_text(s);
    if let Some(ls) = lex_by_patterns(s) {
        ls.lemma_flatten_and_flatten_alt_are_equivalent();
    }
}

/// The class bits of a character from the answers of the numeric, alphabetic
/// and operational patterns (see `bits`).
pub fn class_bits(numeric: bool, alphabetic: bool, operational: bool) -> (r: u8)
    ensures
        r == bits(numeric, alphabetic, operational),
{
    let mut out: u8 = 0;
    if numeric {
        out += 4;
    }
    if alphabetic {
        out += 2;
    }
    if operational {
        out += 1;
    }
    out
}

/// The class bits of a lexeme from the answers of the three whole-lexeme
/// patterns: their bits, or 8 when none matches.
pub fn lexeme_class(numeric: bool, alphabetic: bool, operational: bool) -> (r: u8)
    ensures
        r == (if bits(numeric, alphabetic, operational) != 0 {
            bits(numeric, alphabetic, operational)
        } else {
            8
        }),
{
    let out = class_bits(numeric, alphabetic, operational);
    if out != 0 {
        out
    } else {
        8
    }
}

/// Whether a character of class `char_class` joins the current lexeme, given
/// the class `combined` of the lexeme with the character added: when the
/// character's class covers the combined one, or the lexeme is still empty.
pub fn joins_lexeme(combined: u8, char_class: u8, lexeme_empty: bool) -> (r: bool)
    ensures
        r == (combined & char_class == combined || lexeme_empty),
{
    (combined & char_class) == combined || lexeme_empty
}

/// The class bits of a lexeme (see `string_bits`).
pub fn string_type(s: &str) -> (r: Option<u8>)
    ensures
        r == string_bits(s@),
{
    let n = match captures(NUMERIC, s) {
        Some(b) => b,
        None => return None,
    };
    let a = match captures(ALPHABETIC, s) {
        Some(b) => b,
        None => return None,
    };
    let o = match captures(OPERATIONAL, s) {
        Some(b) => b,
        None => return None,
    };
    Some(lexeme_class(n, a, o))
}

/// The class bits of a character given as a text (see `char_bits`).
pub fn char_type(s: &str) -> (r: Option<u8>)
    ensures
        r == char_bits(s@),
{
    let n = match captures(NUMERIC_CHAR, s) {
        Some(b) => b,
        None => return None,
    };
    let a = match captures(ALPHABETIC_CHAR, s) {
        Some(b) => b,
        None => return None,
    };
    let o = match captures(OPERATIONAL, s) {
        Some(b) => b,
        None => return None,
    };
    Some(class_bits(n, a, o))
}

/// Splits `input` into lexemes (see `lex_by_patterns`); `None` where a
/// pattern reports a failure.
pub fn scan(input: String) -> (r: Option<Vec<String>>)
    ensures
        match r {
            Some(v) => lex_by_patterns(input@) matches Some(ls) && v@.len() == ls.len() && forall|k: int|
                0 <= k < v@.len() ==> #[trigger] v@[k]@ == ls[k],
            None => lex_by_patterns(input@) is None,
        },
{
    let cs = chars_of(input.as_str());
    let mut done: Vec<String> = Vec::new();
    let mut cur: Vec<char> = Vec::new();
    let mut i: usize = 0;
    assert(cs@.subrange(0, 0) =~= Seq::<char>::empty());
    while i < cs.len()
        invariant
            i <= cs.len(),
            cs@ == input@,
            lex_by_patterns(cs@.subrange(0, i as int)) matches Some(ls) && ls.len() == done@.len()
                + 1 && cur@ == ls.last() && forall|k: int|
                0 <= k < done@.len() ==> #[trigger] done@[k]@ == ls[k],
        decreases cs.len() - i,
    {
        let c = cs[i];
        let ghost before = lex_by_patterns(cs@.subrange(0, i as int))->0;
        proof {
            assert(cs@.subrange(0, i + 1).drop_last() =~= cs@.subrange(0, i as int));
        }
        let one = vec![c];
        assert(one@ =~= seq![c]);
        let ch = string_from_chars(&one);
        let space = match is_match(WHITESPACE, ch.as_str()) {
            Some(b) => b,
            None => {
                proof { lemma_lex_by_patterns_stuck(cs@, i + 1); }
                return None;
            },
        };
        if !space {
            let character_type = match char_type(ch.as_str()) {
                Some(t) => t,
                None => {
                    proof { lemma_lex_by_patterns_stuck(cs@, i + 1); }
                    return None;
                },
            };
            let was_empty = cur.len() == 0;
            cur.push(c);
            let combination = string_from_chars(&cur);
            let combined_type = match string_type(combination.as_str()) {
                Some(t) => t,
                None => {
                    proof { lemma_lex_by_patterns_stuck(cs@, i + 1); }
                    return None;
                },
            };
            if joins_lexeme(combined_type, character_type, was_empty) {
                assert(lex_by_patterns(cs@.subrange(0, i + 1)) == Some(
                    before.drop_last().push(cur@),
                ));
            } else {
                cur.pop();
                let finished = string_from_chars(&cur);
                done.push(finished);
                cur = vec![c];
                assert(cur@ =~= seq![c]);
                assert(lex_by_patterns(cs@.subrange(0, i + 1)) == Some(before.push(seq![c])));
            }
        }
        i += 1;
    }
    let last = string_from_chars(&cur);
    done.push(last);
    assert(cs@.subrange(0, cs@.len() as int) =~= cs@);
    Some(done)
}

} // verus!
