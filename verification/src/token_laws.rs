//! Laws about the token streams that the tokenizer makes.
use vstd::prelude::*;
use crate::abstract_syntax_tree::readable_stream;
use crate::arity::Arities;
use crate::operator::{OperatorView, token_view};
use crate::token::Token;
use crate::tokenizer::{
    complex_of_two, negation, minus_one, pop_last,
    implicit_product, complex_step, lexeme_token, minus_step, pass_complex, pass_implicit,
    pass_minus, tokenize_of, tokens_of,
};
use crate::value::ValueView;
use crate::pattern::matches_spec;
use crate::scanner::ALPHABETIC;
use crate::token::operator_named;

verus! {

/// A token with the operands its kind asks for: an operator that takes two
/// operands (never a number or a name) holds two, any other operator that
/// takes one holds one.
pub open spec fn token_shaped(t: OperatorView) -> bool {
    &&& t.arity == Arities::BINARY ==> t.token_type != Token::Num && t.token_type != Token::ID && (
    t.values matches ValueView::Op(s) && s.len() >= 2)
    &&& (t.arity == Arities::UNARY && t.token_type != Token::Num && t.token_type != Token::ID) ==> (
    t.values matches ValueView::Op(s) && s.len() >= 1)
}

/// Every token of `ts` is shaped.
pub open spec fn all_shaped(ts: Seq<OperatorView>) -> bool {
    forall|i: int| 0 <= i < ts.len() ==> token_shaped(#[trigger] ts[i])
}

pub proof fn lemma_token_view_shaped(t: Token)
    ensures
        token_shaped(token_view(t)),
{
}

proof fn lemma_lexeme_token_shaped(l: Seq<char>)
    ensures
        lexeme_token(l) matches Ok(Some(t)) ==> token_shaped(t),
{
    if lexeme_token(l) matches Ok(Some(t)) {
        match crate::token::operator_named(l) {
            Some(k) => lemma_token_view_shaped(k),
            None => {},
        }
    }
}

proof fn lemma_tokens_of_shaped(ls: Seq<Seq<char>>)
    ensures
        tokens_of(ls) matches Ok(ts) ==> all_shaped(ts),
    decreases ls.len(),
{
    if ls.len() > 0 {
        lemma_tokens_of_shaped(ls.drop_last());
        lemma_lexeme_token_shaped(ls.last());
    }
}

proof fn lemma_pass_minus_shaped(inp: Seq<OperatorView>, i: int, out: Seq<OperatorView>, skip: bool)
    requires
        all_shaped(inp),
        all_shaped(out),
    ensures
        pass_minus(inp, i, out, skip) matches Some(r) ==> all_shaped(r),
    decreases inp.len() - i,
{
    if 0 <= i < inp.len() {
        if skip {
            lemma_pass_minus_shaped(inp, i + 1, out, false);
        } else if let Some((o, s)) = minus_step(inp, i, out) {
            lemma_token_view_shaped(Token::Mult);
            lemma_token_view_shaped(Token::Num);
            assert(all_shaped(o)) by {
                assert forall|j: int| 0 <= j < o.len() implies token_shaped(#[trigger] o[j]) by {
                    if j < out.len() - 1 {
                        assert(o[j] == out[j]);
                    }
                }
            }
            lemma_pass_minus_shaped(inp, i + 1, o, s);
        }
    }
}

proof fn lemma_pass_complex_shaped(
    inp: Seq<OperatorView>,
    i: int,
    out: Seq<OperatorView>,
    skip: bool,
    skip_num: bool,
)
    requires
        all_shaped(inp),
        all_shaped(out),
    ensures
        pass_complex(inp, i, out, skip, skip_num) matches Some(r) ==> all_shaped(r),
    decreases inp.len() - i,
{
    if 0 <= i < inp.len() {
        if skip {
            lemma_pass_complex_shaped(inp, i + 1, out, false, skip_num);
        } else if let Some((o, s, n)) = complex_step(inp, i, out, skip_num) {
            lemma_token_view_shaped(Token::Num);
            assert(all_shaped(o)) by {
                assert forall|j: int| 0 <= j < o.len() implies token_shaped(#[trigger] o[j]) by {
                    if j < out.len() {
                        assert(o[j] == out[j]);
                    }
                }
            }
            lemma_pass_complex_shaped(inp, i + 1, o, s, n);
        }
    }
}

proof fn lemma_pass_implicit_shaped(inp: Seq<OperatorView>, i: int, out: Seq<OperatorView>)
    requires
        all_shaped(inp),
        all_shaped(out),
    ensures
        all_shaped(pass_implicit(inp, i, out)),
        pass_implicit(inp, i, out).len() >= 1,
        pass_implicit(inp, i, out).last() == token_view(Token::END),
    decreases inp.len() - i,
{
    lemma_token_view_shaped(Token::Mult);
    lemma_token_view_shaped(Token::END);
    if 0 <= i < inp.len() {
        let o = if i + 1 < inp.len() && crate::tokenizer::implicit_product(
            inp[i].token_type,
            inp[i + 1].token_type,
        ) {
            out + seq![inp[i], token_view(Token::Mult)]
        } else {
            out.push(inp[i])
        };
        assert(all_shaped(o)) by {
            assert forall|j: int| 0 <= j < o.len() implies token_shaped(#[trigger] o[j]) by {
                if j < out.len() {
                    assert(o[j] == out[j]);
                }
            }
        }
        lemma_pass_implicit_shaped(inp, i + 1, o);
    } else {
        let o = out.push(token_view(Token::END));
        assert forall|j: int| 0 <= j < o.len() implies token_shaped(#[trigger] o[j]) by {
            if j < out.len() {
                assert(o[j] == out[j]);
            }
        }
    }
}

/// Every token that the tokenizer makes has the operands its kind asks for,
/// and the stream ends with the end token.
pub proof fn lemma_tokenize_shaped(ls: Seq<Seq<char>>)
    ensures
        tokenize_of(ls) matches Ok(ts) ==> all_shaped(ts) && ts.len() >= 1 && ts.last()
            == token_view(Token::END),
{
    lemma_tokens_of_shaped(ls);
    if let Ok(ts0) = tokens_of(ls) {
        let e: Seq<OperatorView> = Seq::empty();
        lemma_pass_minus_shaped(ts0, 0, e, false);
        if let Some(a) = pass_minus(ts0, 0, e, false) {
            lemma_pass_complex_shaped(a, 0, e, false, false);
            if let Some(b) = pass_complex(a, 0, e, false, false) {
                lemma_pass_implicit_shaped(b, 0, e);
            }
        }
    }
}

/// The parser reads every stream that the tokenizer makes to its end.
pub proof fn lemma_tokenize_readable(ls: Seq<Seq<char>>)
    ensures
        tokenize_of(ls) matches Ok(ts) ==> readable_stream(ts),
{
    lemma_tokenize_shaped(ls);
    if let Ok(ts) = tokenize_of(ls) {
        assert forall|i: int| 0 <= i < ts.len() implies crate::abstract_syntax_tree::settable(#[trigger] ts[i]) by {
            assert(token_shaped(ts[i]));
        }
    }
}


/// No two adjacent tokens of `ts` imply a product.
#[verifier::opaque]
pub open spec fn products_written(ts: Seq<OperatorView>) -> bool {
    forall|i: int|
        0 <= i < ts.len() - 1 ==> !implicit_product(#[trigger] ts[i].token_type, ts[i + 1].token_type)
}

proof fn lemma_push_keeps_products(out: Seq<OperatorView>, x: OperatorView)
    requires
        products_written(out),
        out.len() > 0 ==> !implicit_product(out.last().token_type, x.token_type),
    ensures
        products_written(out.push(x)),
{
    reveal(products_written);
    let o = out.push(x);
    assert forall|j: int| 0 <= j < o.len() - 1 implies !implicit_product(
        #[trigger] o[j].token_type,
        o[j + 1].token_type,
    ) by {
        if j < out.len() - 1 {
            assert(o[j] == out[j] && o[j + 1] == out[j + 1]);
        }
    }
}

proof fn lemma_pass_implicit_products(inp: Seq<OperatorView>, i: int, out: Seq<OperatorView>)
    requires
        0 <= i,
        products_written(out),
        out.len() > 0 && i < inp.len() ==> !implicit_product(out.last().token_type, inp[i].token_type),
    ensures
        products_written(pass_implicit(inp, i, out)),
    decreases inp.len() - i,
{
    if i < inp.len() {
        lemma_push_keeps_products(out, inp[i]);
        let o1 = out.push(inp[i]);
        if i + 1 < inp.len() && implicit_product(inp[i].token_type, inp[i + 1].token_type) {
            lemma_push_keeps_products(o1, token_view(Token::Mult));
            assert(out + seq![inp[i], token_view(Token::Mult)] =~= o1.push(token_view(Token::Mult)));
            lemma_pass_implicit_products(inp, i + 1, o1.push(token_view(Token::Mult)));
        } else {
            lemma_pass_implicit_products(inp, i + 1, o1);
        }
    } else {
        lemma_push_keeps_products(out, token_view(Token::END));
    }
}

proof fn lemma_empty_products()
    ensures
        products_written(Seq::<OperatorView>::empty()),
{
    reveal(products_written);
}

/// The tokenizer writes out every implied product: no two adjacent tokens of
/// its stream are a number before a name or a parenthesis, or a name before a
/// parenthesis.
pub proof fn lemma_tokenize_writes_products(ls: Seq<Seq<char>>)
    ensures
        tokenize_of(ls) matches Ok(ts) ==> products_written(ts),
{
    if let Ok(ts0) = tokens_of(ls) {
        let e: Seq<OperatorView> = Seq::empty();
        if let Some(a) = pass_minus(ts0, 0, e, false) {
            if let Some(b) = pass_complex(a, 0, e, false, false) {
                lemma_empty_products();
                lemma_pass_implicit_products(b, 0, e);
            }
        }
    }
}


/// No token of `ts` is the end token or a stack bottom.
pub open spec fn all_unmarked(ts: Seq<OperatorView>) -> bool {
    forall|i: int|
        0 <= i < ts.len() ==> #[trigger] ts[i].token_type != Token::END && ts[i].token_type
            != Token::SENTINEL
}

proof fn lemma_tokens_of_unmarked(ls: Seq<Seq<char>>)
    ensures
        tokens_of(ls) matches Ok(ts) ==> all_unmarked(ts),
    decreases ls.len(),
{
    if ls.len() > 0 {
        lemma_tokens_of_unmarked(ls.drop_last());
        if let Ok(ts) = tokens_of(ls.drop_last()) {
            if let Ok(Some(t)) = lexeme_token(ls.last()) {
                let o = ts.push(t);
                assert forall|j: int| 0 <= j < o.len() implies #[trigger] o[j].token_type
                    != Token::END && o[j].token_type != Token::SENTINEL by {
                    if j < ts.len() {
                        assert(o[j] == ts[j]);
                    }
                }
            }
        }
    }
}

proof fn lemma_pass_minus_unmarked(inp: Seq<OperatorView>, i: int, out: Seq<OperatorView>, skip: bool)
    requires
        all_unmarked(inp),
        all_unmarked(out),
    ensures
        pass_minus(inp, i, out, skip) matches Some(r) ==> all_unmarked(r),
    decreases inp.len() - i,
{
    if 0 <= i < inp.len() {
        if skip {
            lemma_pass_minus_unmarked(inp, i + 1, out, false);
        } else if let Some((o, s)) = minus_step(inp, i, out) {
            assert(all_unmarked(o)) by {
                assert forall|j: int| 0 <= j < o.len() implies #[trigger] o[j].token_type
                    != Token::END && o[j].token_type != Token::SENTINEL by {
                    if j < out.len() - 1 {
                        assert(o[j] == out[j]);
                    }
                }
            }
            lemma_pass_minus_unmarked(inp, i + 1, o, s);
        }
    }
}

proof fn lemma_pass_complex_unmarked(
    inp: Seq<OperatorView>,
    i: int,
    out: Seq<OperatorView>,
    skip: bool,
    skip_num: bool,
)
    requires
        all_unmarked(inp),
        all_unmarked(out),
    ensures
        pass_complex(inp, i, out, skip, skip_num) matches Some(r) ==> all_unmarked(r),
    decreases inp.len() - i,
{
    if 0 <= i < inp.len() {
        if skip {
            lemma_pass_complex_unmarked(inp, i + 1, out, false, skip_num);
        } else if let Some((o, s, n)) = complex_step(inp, i, out, skip_num) {
            assert(all_unmarked(o)) by {
                assert forall|j: int| 0 <= j < o.len() implies #[trigger] o[j].token_type
                    != Token::END && o[j].token_type != Token::SENTINEL by {
                    if j < out.len() {
                        assert(o[j] == out[j]);
                    }
                }
            }
            lemma_pass_complex_unmarked(inp, i + 1, o, s, n);
        }
    }
}

proof fn lemma_pass_implicit_unmarked(inp: Seq<OperatorView>, i: int, out: Seq<OperatorView>)
    requires
        all_unmarked(inp),
        all_unmarked(out),
    ensures
        all_unmarked(pass_implicit(inp, i, out).drop_last()),
    decreases inp.len() - i,
{
    if 0 <= i < inp.len() {
        let o = if i + 1 < inp.len() && implicit_product(inp[i].token_type, inp[i + 1].token_type) {
            out + seq![inp[i], token_view(Token::Mult)]
        } else {
            out.push(inp[i])
        };
        assert(all_unmarked(o)) by {
            assert forall|j: int| 0 <= j < o.len() implies #[trigger] o[j].token_type
                != Token::END && o[j].token_type != Token::SENTINEL by {
                if j < out.len() {
                    assert(o[j] == out[j]);
                }
            }
        }
        lemma_pass_implicit_unmarked(inp, i + 1, o);
    } else {
        assert(out.push(token_view(Token::END)).drop_last() =~= out);
    }
}

/// Before its last token, the tokenizer's stream holds neither the end token
/// nor a stack bottom.
pub proof fn lemma_tokenize_unmarked(ls: Seq<Seq<char>>)
    ensures
        tokenize_of(ls) matches Ok(ts) ==> all_unmarked(ts.drop_last()),
{
    lemma_tokens_of_unmarked(ls);
    if let Ok(ts0) = tokens_of(ls) {
        let e: Seq<OperatorView> = Seq::empty();
        lemma_pass_minus_unmarked(ts0, 0, e, false);
        if let Some(a) = pass_minus(ts0, 0, e, false) {
            lemma_pass_complex_unmarked(a, 0, e, false, false);
            if let Some(b) = pass_complex(a, 0, e, false, false) {
                lemma_pass_implicit_unmarked(b, 0, e);
            }
        }
    }
}


/// The name a token reads: its symbol for a name, nothing for any other
/// token.
pub open spec fn name_of(t: OperatorView) -> Seq<Seq<char>> {
    if t.token_type == Token::ID {
        seq![t.symbol]
    } else {
        Seq::empty()
    }
}

/// The names among the tokens, in order.
pub open spec fn names_of(ts: Seq<OperatorView>) -> Seq<Seq<char>>
    decreases ts.len(),
{
    if ts.len() == 0 {
        Seq::empty()
    } else {
        names_of(ts.drop_last()) + name_of(ts.last())
    }
}

/// The lexemes that are names: those the alphabetic pattern matches and that
/// name no operator, in order.
pub open spec fn name_lexemes(ls: Seq<Seq<char>>) -> Seq<Seq<char>>
    decreases ls.len(),
{
    if ls.len() == 0 {
        Seq::empty()
    } else {
        name_lexemes(ls.drop_last()) + if matches_spec(ALPHABETIC@, ls.last()) == Some(true)
            && operator_named(ls.last()) is None {
            seq![ls.last()]
        } else {
            Seq::empty()
        }
    }
}

proof fn lemma_names_push(a: Seq<OperatorView>, x: OperatorView)
    ensures
        names_of(a.push(x)) == names_of(a) + name_of(x),
{
    assert(a.push(x).drop_last() =~= a);
}

proof fn lemma_names_take(inp: Seq<OperatorView>, k: int)
    requires
        0 <= k < inp.len(),
    ensures
        names_of(inp.take(k + 1)) == names_of(inp.take(k)) + name_of(inp[k]),
{
    assert(inp.take(k + 1) =~= inp.take(k).push(inp[k]));
    lemma_names_push(inp.take(k), inp[k]);
}

proof fn lemma_names_pop(out: Seq<OperatorView>)
    requires
        out.len() > 0,
        out.last().token_type != Token::ID,
    ensures
        names_of(pop_last(out)) == names_of(out),
{
    assert(names_of(out) =~= names_of(out.drop_last()));
}

proof fn lemma_operator_named_not_name(l: Seq<char>)
    ensures
        operator_named(l) matches Some(t) ==> t != Token::ID && t != Token::Num,
{
}

proof fn lemma_tokens_of_names(ls: Seq<Seq<char>>)
    ensures
        tokens_of(ls) matches Ok(ts) ==> names_of(ts) == name_lexemes(ls),
    decreases ls.len(),
{
    if ls.len() > 0 {
        lemma_tokens_of_names(ls.drop_last());
        lemma_operator_named_not_name(ls.last());
        if let Ok(ts) = tokens_of(ls.drop_last()) {
            match lexeme_token(ls.last()) {
                Ok(Some(t)) => {
                    lemma_names_push(ts, t);
                    assert(names_of(ts.push(t)) =~= name_lexemes(ls));
                },
                Ok(None) => {
                    assert(names_of(ts) =~= name_lexemes(ls));
                },
                Err(_) => {},
            }
        }
    }
}

/// The last input index the first or second pass has accounted for at `i`.
spec fn done_upto(i: int, skip: bool) -> int {
    if skip {
        i
    } else {
        i - 1
    }
}

/// What the first pass keeps at `i`: the names written so far are those of
/// the tokens accounted for, and a number accounted for last was written last.
spec fn minus_kept(inp: Seq<OperatorView>, i: int, out: Seq<OperatorView>, skip: bool) -> bool {
    let c = done_upto(i, skip);
    &&& -1 <= c < inp.len()
    &&& names_of(out) == names_of(inp.take(c + 1))
    &&& (c >= 0 && inp[c].token_type == Token::Num) ==> out.len() > 0 && out.last().token_type
        == Token::Num
}

proof fn lemma_pass_minus_names(inp: Seq<OperatorView>, i: int, out: Seq<OperatorView>, skip: bool)
    requires
        0 <= i <= inp.len(),
        skip ==> i < inp.len(),
        minus_kept(inp, i, out, skip),
    ensures
        pass_minus(inp, i, out, skip) matches Some(r) ==> names_of(r) == names_of(inp),
    decreases inp.len() - i,
{
    if i >= inp.len() {
        assert(inp.take(inp.len() as int) =~= inp);
    } else if skip {
        lemma_pass_minus_names(inp, i + 1, out, false);
    } else if let Some((o, s)) = minus_step(inp, i, out) {
        let token = inp[i];
        lemma_names_take(inp, i);
        if s {
            lemma_names_take(inp, i + 1);
            let next = inp[i + 1];
            if i >= 1 && inp[i - 1].token_type == Token::Num && next.token_type == Token::Num {
                let c = complex_of_two(out.last(), next, true)->0;
                lemma_names_pop(out);
                lemma_names_push(pop_last(out), c);
            } else if next.token_type == Token::Num {
                let x = negation(next)->0;
                lemma_names_push(out, x);
            } else {
                let e = seq![minus_one(), token_view(Token::Mult), next];
                assert(out + e =~= out.push(minus_one()).push(token_view(Token::Mult)).push(next));
                lemma_names_push(out, minus_one());
                lemma_names_push(out.push(minus_one()), token_view(Token::Mult));
                lemma_names_push(out.push(minus_one()).push(token_view(Token::Mult)), next);
            }
        } else {
            lemma_names_push(out, token);
        }
        lemma_pass_minus_names(inp, i + 1, o, s);
    }
}

proof fn lemma_pass_complex_names(
    inp: Seq<OperatorView>,
    i: int,
    out: Seq<OperatorView>,
    skip: bool,
    skip_num: bool,
)
    requires
        0 <= i <= inp.len(),
        skip ==> i < inp.len(),
        names_of(out) == names_of(inp.take(done_upto(i, skip) + 1)),
    ensures
        pass_complex(inp, i, out, skip, skip_num) matches Some(r) ==> names_of(r) == names_of(inp),
    decreases inp.len() - i,
{
    if i >= inp.len() {
        assert(inp.take(inp.len() as int) =~= inp);
    } else if skip {
        lemma_pass_complex_names(inp, i + 1, out, false, skip_num);
    } else if let Some((o, s, n)) = complex_step(inp, i, out, skip_num) {
        let token = inp[i];
        lemma_names_take(inp, i);
        if s {
            lemma_names_take(inp, i + 1);
            lemma_names_push(out, o.last());
            assert(o =~= out.push(o.last()));
        } else if o.len() == out.len() + 1 {
            assert(o =~= out.push(o.last()));
            lemma_names_push(out, o.last());
        } else {
            assert(o =~= out);
        }
        lemma_pass_complex_names(inp, i + 1, o, s, n);
    }
}

proof fn lemma_pass_implicit_names(inp: Seq<OperatorView>, i: int, out: Seq<OperatorView>)
    requires
        0 <= i <= inp.len(),
        names_of(out) == names_of(inp.take(i)),
    ensures
        names_of(pass_implicit(inp, i, out)) == names_of(inp),
    decreases inp.len() - i,
{
    if i < inp.len() {
        lemma_names_take(inp, i);
        lemma_names_push(out, inp[i]);
        if i + 1 < inp.len() && implicit_product(inp[i].token_type, inp[i + 1].token_type) {
            assert(out + seq![inp[i], token_view(Token::Mult)] =~= out.push(inp[i]).push(
                token_view(Token::Mult),
            ));
            lemma_names_push(out.push(inp[i]), token_view(Token::Mult));
        }
        lemma_pass_implicit_names(
            inp,
            i + 1,
            if i + 1 < inp.len() && implicit_product(inp[i].token_type, inp[i + 1].token_type) {
                out + seq![inp[i], token_view(Token::Mult)]
            } else {
                out.push(inp[i])
            },
        );
    } else {
        assert(inp.take(inp.len() as int) =~= inp);
        lemma_names_push(out, token_view(Token::END));
    }
}

/// The names among the tokenizer's stream are its name lexemes, in order.
pub proof fn lemma_tokenize_names(ls: Seq<Seq<char>>)
    ensures
        tokenize_of(ls) matches Ok(ts) ==> names_of(ts) == name_lexemes(ls),
{
    lemma_tokens_of_names(ls);
    if let Ok(ts0) = tokens_of(ls) {
        let e: Seq<OperatorView> = Seq::empty();
        assert(ts0.take(0) =~= e);
        lemma_pass_minus_names(ts0, 0, e, false);
        if let Some(a) = pass_minus(ts0, 0, e, false) {
            assert(a.take(0) =~= e);
            lemma_pass_complex_names(a, 0, e, false, false);
            if let Some(b) = pass_complex(a, 0, e, false, false) {
                assert(b.take(0) =~= e);
                lemma_pass_implicit_names(b, 0, e);
            }
        }
    }
}


/// Joining a real and an imaginary number into their sum does not depend on
/// their order, and joining them into a difference is joining the first with
/// the negated second.
pub proof fn lemma_complex_of_two_laws(a: OperatorView, b: OperatorView)
    ensures
        complex_of_two(a, b, false) == complex_of_two(b, a, false),
        negation(b) matches Some(nb) ==> complex_of_two(a, b, true) == complex_of_two(a, nb, false),
{
}

} // verus!
