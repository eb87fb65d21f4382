//! Splitting an input line into lexemes by the classes of its characters.
use vstd::prelude::*;
use crate::expressions::{english_alphabet, is_alphabetic_chars, is_number_chars, is_numeric_chars, is_operational_chars, is_variable_id_chars, number_shape_from, variable_id_shape};
use crate::text::{chars_of, occurs_in, string_from_chars};

verus! {

/// The class bits of a single character: 4 when it may occur in a number,
/// 2 when it may occur in a name, 1 when it is an operator sign.
pub open spec fn char_type_of(s: Seq<char>) -> u8 {
    ((if occurs_in(s, "0123456789i."@) { 4int } else { 0 }) + (if occurs_in(s, english_alphabet())
        || occurs_in(s, "_{}"@) {
        2int
    } else {
        0
    }) + (if occurs_in(s, "+-*/^()"@) { 1int } else { 0 })) as u8
}

/// The class bits of a whole lexeme: 4 when it has the shape of a number, 2
/// when it has the shape of a name, 1 when it is an operator sign; 8 when it is
/// none of these.
pub open spec fn string_type_of(s: Seq<char>) -> u8 {
    let bits = (if number_shape_from(s, false) { 4int } else { 0 }) + (if variable_id_shape(s) {
        2int
    } else {
        0
    }) + (if occurs_in(s, "+-*/^()"@) { 1int } else { 0 });
    if bits != 0 { bits as u8 } else { 8 }
}

/// One character read into the lexemes: spaces are skipped; a character joins
/// the last lexeme when the last lexeme is empty or when every class bit of
/// the joined lexeme is also a class bit of the character; otherwise it starts
/// a new lexeme.
pub open spec fn absorb(lexemes: Seq<Seq<char>>, c: char) -> Seq<Seq<char>> {
    if c == ' ' {
        lexemes
    } else {
        let last = lexemes.last();
        let combined = string_type_of(last.push(c));
        if combined & char_type_of(seq![c]) == combined || last.len() == 0 {
            lexemes.drop_last().push(last.push(c))
        } else {
            lexemes.push(seq![c])
        }
    }
}

/// The lexemes of `s`, starting from one empty lexeme.
pub open spec fn lex_chars(s: Seq<char>) -> Seq<Seq<char>>
    decreases s.len(),
{
    if s.len() == 0 {
        seq![Seq::<char>::empty()]
    } else {
        absorb(lex_chars(s.drop_last()), s.last())
    }
}

/// The lexemes of an input line; an empty line gives an empty lexeme followed
/// by `+` and `-`, which no expression can be read from.
pub open spec fn lex(s: Seq<char>) -> Seq<Seq<char>> {
    if s.len() == 0 {
        seq![Seq::<char>::empty(), seq!['+'], seq!['-']]
    } else {
        lex_chars(s)
    }
}

/// The class bits of a lexeme (see `string_type_of`).
pub fn string_type(s: &Vec<char>) -> (r: u8)
    ensures
        r == string_type_of(s@),
{
    let mut out: u8 = 0;
    if is_number_chars(s) {
        out += 4;
    }
    if is_variable_id_chars(s) {
        out += 2;
    }
    if is_operational_chars(s) {
        out += 1;
    }
    if out != 0 {
        out
    } else {
        8
    }
}

/// The class bits of a character given as a text (see `char_type_of`).
pub fn char_type(s: &Vec<char>) -> (r: u8)
    ensures
        r == char_type_of(s@),
{
    let mut out: u8 = 0;
    if is_numeric_chars(s) {
        out += 4;
    }
    if is_alphabetic_chars(s) {
        out += 2;
    }
    if is_operational_chars(s) {
        out += 1;
    }
    out
}

/// A `String` of one character.
pub fn one_char_string(c: char) -> (s: String)
    ensures
        s@ == seq![c],
{
    let v = vec![c];
    let s = string_from_chars(&v);
    assert(v@ =~= seq![c]);
    s
}

/// Splits `input` into lexemes.
pub fn scan(input: String) -> (r: Vec<String>)
    ensures
        r@.len() == lex(input@).len(),
        forall|k: int| 0 <= k < r@.len() ==> #[trigger] r@[k]@ == lex(input@)[k],
{
    let cs = chars_of(input.as_str());
    if cs.len() == 0 {
        let mut out: Vec<String> = Vec::new();
        out.push(string_from_chars(&Vec::new()));
        out.push(one_char_string('+'));
        out.push(one_char_string('-'));
        assert(lex(input@) =~= seq![Seq::<char>::empty(), seq!['+'], seq!['-']]);
        return out;
    }
    let mut done: Vec<String> = Vec::new();
    let mut cur: Vec<char> = Vec::new();
    let mut i: usize = 0;
    assert(cs@.subrange(0, 0) =~= Seq::<char>::empty());
    while i < cs.len()
        invariant
            i <= cs.len(),
            cs@ == input@,
            lex_chars(cs@.subrange(0, i as int)).len() == done@.len() + 1,
            forall|k: int|
                0 <= k < done@.len() ==> #[trigger] done@[k]@ == lex_chars(
                    cs@.subrange(0, i as int),
                )[k],
            cur@ == lex_chars(cs@.subrange(0, i as int)).last(),
        decreases cs.len() - i,
    {
        let c = cs[i];
        let ghost before = lex_chars(cs@.subrange(0, i as int));
        proof {
            assert(cs@.subrange(0, i + 1).drop_last() =~= cs@.subrange(0, i as int));
        }
        if c != ' ' {
            let one = vec![c];
            let character_type = char_type(&one);
            let was_empty = cur.len() == 0;
            cur.push(c);
            let combined_type = string_type(&cur);
            assert(one@ =~= seq![c]);
            if (combined_type & character_type) == combined_type || was_empty {
                assert(lex_chars(cs@.subrange(0, i + 1)) =~= before.drop_last().push(cur@));
            } else {
                cur.pop();
                let finished = string_from_chars(&cur);
                done.push(finished);
                cur = vec![c];
                assert(lex_chars(cs@.subrange(0, i + 1)) =~= before.push(seq![c]));
                assert(cur@ =~= seq![c]);
            }
        }
        i += 1;
    }
    let last = string_from_chars(&cur);
    done.push(last);
    assert(cs@.subrange(0, cs@.len() as int) =~= cs@);
    done
}


/// The characters of `s` other than spaces, in order.
pub open spec fn without_spaces(s: Seq<char>) -> Seq<char> {
    s.filter(|c: char| c != ' ')
}

proof fn lemma_lex_chars_keeps_text(s: Seq<char>)
    ensures
        lex_chars(s).len() >= 1,
        lex_chars(s).flatten_alt() == without_spaces(s),
    decreases s.len(),
{
    reveal(Seq::filter);
    if s.len() == 0 {
        let one = seq![Seq::<char>::empty()];
        assert(one.drop_last() =~= Seq::<Seq<char>>::empty());
        assert(Seq::<Seq<char>>::empty().flatten_alt() =~= Seq::<char>::empty());
        assert(one.flatten_alt() == one.drop_last().flatten_alt().add(one.last()));
        assert(one.flatten_alt() =~= Seq::<char>::empty());
        assert(without_spaces(s) =~= Seq::<char>::empty());
    } else {
        let l = lex_chars(s.drop_last());
        let c = s.last();
        lemma_lex_chars_keeps_text(s.drop_last());
        assert(without_spaces(s) == if c != ' ' {
            without_spaces(s.drop_last()).push(c)
        } else {
            without_spaces(s.drop_last())
        });
        if c != ' ' {
            let last = l.last();
            let combined = string_type_of(last.push(c));
            if combined & char_type_of(seq![c]) == combined || last.len() == 0 {
                let m = l.drop_last().push(last.push(c));
                assert(m.drop_last() =~= l.drop_last());
                assert(l.flatten_alt() == l.drop_last().flatten_alt().add(last));
                assert(m.flatten_alt() =~= l.flatten_alt().push(c));
            } else {
                let m = l.push(seq![c]);
                assert(m.drop_last() =~= l);
                assert(m.flatten_alt() =~= l.flatten_alt().push(c));
            }
        }
    }
}

proof fn lemma_lex_chars_nonempty(s: Seq<char>)
    ensures
        lex_chars(s).len() >= 1,
        forall|k: int| 1 <= k < lex_chars(s).len() ==> #[trigger] lex_chars(s)[k].len() > 0,
        lex_chars(s)[0].len() == 0 ==> lex_chars(s).len() == 1,
    decreases s.len(),
{
    if s.len() > 0 {
        lemma_lex_chars_nonempty(s.drop_last());
        let l = lex_chars(s.drop_last());
        let m = lex_chars(s);
        assert forall|k: int| 1 <= k < m.len() implies #[trigger] m[k].len() > 0 by {
            if k < l.len() - 1 {
                assert(m[k] == l[k]);
            }
        }
    }
}

/// Only the first lexeme can be empty, and only when it is the single lexeme
/// of a line of spaces, or the first of the three lexemes of an empty line.
pub proof fn lemma_lexemes_not_empty(s: Seq<char>)
    ensures
        forall|k: int| 1 <= k < lex(s).len() ==> #[trigger] lex(s)[k].len() > 0,
        s.len() > 0 && lex(s)[0].len() == 0 ==> lex(s).len() == 1,
{
    lemma_lex_chars_nonempty(s);
    if s.len() == 0 {
        assert(lex(s)[1] == seq!['+']);
        assert(lex(s)[2] == seq!['-']);
    }
}

/// Reading a non-empty line into lexemes loses and adds no character: the
/// lexemes, joined in order, give back the line without its spaces.
pub proof fn lemma_scan_keeps_text(s: Seq<char>)
    requires
        s.len() > 0,
    ensures
        lex(s).flatten() == without_spaces(s),
{
    lemma_lex_chars_keeps_text(s);
    lex(s).lemma_flatten_and_flatten_alt_are_equivalent();
}

} // verus!
