//! Turning lexemes into tokens, and the rewriting of the token stream that
//! reads signs, complex numbers and implicit products.
use vstd::prelude::*;
use crate::float_literal::{is_float_literal, is_float_literal_chars};
use crate::op_vec::OpVec;
use crate::operator::{Operator, OperatorView, number_view, token_view};
use crate::pattern::{is_match, matches_spec};
use crate::scanner::{ALPHABETIC, NUMERIC};
use crate::text::{chars_of, string_from_chars};
use crate::token::{Token, operator_named, operator_token};
use crate::value::{
    Complex, ComplexView, Numeral, NumeralView, Value, ValueView, negated_view, one_view,
    value_kind, zero_view,
};

verus! {

/// Why a token stream could not be made.
#[derive(Clone, Copy, PartialEq, Eq, Structural, Debug)]
pub enum TokenizeError {
    /// A regular expression reported a failure.
    PatternEngine,
    /// A number lexeme is no floating-point literal.
    Numeral,
    /// The stream joins numbers into a complex number in a way the rewriting
    /// has no reading for.
    Grammar,
}

// ---------------------------------------------------------------------------
// Numbers built by the rewriting
// ---------------------------------------------------------------------------

/// The real or imaginary number held by a value.
pub open spec fn num_of(v: ValueView) -> NumeralView {
    match v {
        ValueView::Real(n) => n,
        ValueView::Imag(n) => n,
        _ => zero_view(),
    }
}

/// `n`, negated when `negate` is set.
pub open spec fn signed(n: NumeralView, negate: bool) -> NumeralView {
    if negate {
        negated_view(n)
    } else {
        n
    }
}

/// The number token for a complex literal; its symbol is the printed number.
pub open spec fn complex_literal(c: ComplexView) -> OperatorView {
    OperatorView { values: ValueView::Number(c), symbol_from_value: true, ..token_view(Token::Num) }
}

/// The complex number `a + b`, or `a - b` when `subtract` is set, of a real
/// and an imaginary number token in either order; `None` for any other pair.
pub open spec fn complex_of_two(a: OperatorView, b: OperatorView, subtract: bool) -> Option<
    OperatorView,
> {
    let ka = value_kind(a.values);
    let kb = value_kind(b.values);
    if ka == 1 && kb == 2 {
        Some(
            complex_literal(
                ComplexView { re: num_of(a.values), im: signed(num_of(b.values), subtract) },
            ),
        )
    } else if ka == 2 && kb == 1 {
        Some(
            complex_literal(
                ComplexView { re: signed(num_of(b.values), subtract), im: num_of(a.values) },
            ),
        )
    } else {
        None
    }
}

/// A number token as a complex number: a real `x` becomes `x + 0i`, an
/// imaginary `y` becomes `0 + yi`, a complex number stays; `None` for
/// operands.
pub open spec fn complex_of_one(a: OperatorView) -> Option<OperatorView> {
    let k = value_kind(a.values);
    if k == 1 {
        Some(complex_literal(ComplexView { re: num_of(a.values), im: zero_view() }))
    } else if k == 2 {
        Some(complex_literal(ComplexView { re: zero_view(), im: num_of(a.values) }))
    } else if k == 3 {
        Some(a)
    } else {
        None
    }
}

/// The negation of a real or imaginary number token; `None` for others.
pub open spec fn negation(a: OperatorView) -> Option<OperatorView> {
    let k = value_kind(a.values);
    if k == 1 {
        Some(number_view(ValueView::Real(negated_view(num_of(a.values)))))
    } else if k == 2 {
        Some(number_view(ValueView::Imag(negated_view(num_of(a.values)))))
    } else {
        None
    }
}

/// The number token `-1`.
pub open spec fn minus_one() -> OperatorView {
    number_view(ValueView::Real(negated_view(one_view())))
}

/// The negation of a real or imaginary number token.
fn negate(input: Operator) -> (r: Operator)
    requires
        value_kind(input@.values) == 1 || value_kind(input@.values) == 2,
    ensures
        Some(r@) == negation(input@),
{
    let mut out: Operator = Operator::from_token(Token::Num);
    let n = input.values.get_num().unwrap();
    if input.values.get_type() == 1 {
        out.values = Value::Real(n.negated());
    } else {
        out.values = Value::Imag(n.negated());
    }
    out
}

/// The complex number joined from a real and an imaginary number token (see
/// `complex_of_two`).
fn create_complex_from_two(input_a: Operator, input_b: Operator, subtract: bool) -> (r: Operator)
    requires
        complex_of_two(input_a@, input_b@, subtract) is Some,
    ensures
        Some(r@) == complex_of_two(input_a@, input_b@, subtract),
{
    let a = input_a.values.get_num().unwrap();
    let b = input_b.values.get_num().unwrap();
    let b = if subtract { b.negated() } else { b };
    let (re, im) = if input_a.values.get_type() == 1 {
        (a, b)
    } else {
        (b, a)
    };
    let mut out: Operator = Operator::from_token(Token::Num);
    out.values = Value::Number(Complex::new(re, im));
    out.symbol_from_value = true;
    out
}

/// A number token as a complex number (see `complex_of_one`).
fn create_complex(input_a: Operator) -> (r: Operator)
    requires
        complex_of_one(input_a@) is Some,
    ensures
        Some(r@) == complex_of_one(input_a@),
{
    let k = input_a.values.get_type();
    if k == 3 {
        return input_a;
    }
    let n = input_a.values.get_num().unwrap();
    let mut out: Operator = Operator::from_token(Token::Num);
    if k == 1 {
        out.values = Value::Number(Complex::new(n, Numeral::zero()));
    } else {
        out.values = Value::Number(Complex::new(Numeral::zero(), n));
    }
    out.symbol_from_value = true;
    out
}

// ---------------------------------------------------------------------------
// First pass: minus signs
// ---------------------------------------------------------------------------

/// `out` without its last token, if it has one.
pub open spec fn pop_last(out: Seq<OperatorView>) -> Seq<OperatorView> {
    if out.len() > 0 {
        out.drop_last()
    } else {
        out
    }
}

/// Whether a minus between tokens of kinds `p` and `n` is read as a
/// subtraction without further thought.
pub open spec fn plain_minus(p: Token, n: Token) -> bool {
    (p == Token::ID && n == Token::Num) || (p == Token::Num && n == Token::ID) || (p == Token::ID
        && n == Token::ID) || (p == Token::Num && n == Token::OpenPar) || (p == Token::ID && n
        == Token::OpenPar)
}

/// What the token at `i` adds in the first pass, and whether it consumes the
/// token after it; `None` where the tokens cannot be joined.
///
/// A minus between two numbers, where the number already written and the one
/// after the minus are a real and an imaginary number, joins them into their
/// difference, which replaces the number written (so a sign already applied
/// to it is kept); a minus before a number that
/// follows no name or number negates it; a minus before a parenthesis that
/// follows no name or number, or before a name or parenthesis at the start,
/// becomes a product with `-1`.
pub open spec fn minus_step(inp: Seq<OperatorView>, i: int, out: Seq<OperatorView>) -> Option<
    (Seq<OperatorView>, bool),
> {
    let token = inp[i];
    let keep = Some((out.push(token), false));
    if token.token_type != Token::Sub || i + 1 >= inp.len() {
        keep
    } else {
        let next = inp[i + 1];
        let n = next.token_type;
        if i >= 1 {
            let prev = inp[i - 1];
            let p = prev.token_type;
            if plain_minus(p, n) {
                keep
            } else if p == Token::Num && n == Token::Num {
                if out.len() > 0 && complex_of_two(out.last(), next, true) is Some {
                    Some((pop_last(out).push(complex_of_two(out.last(), next, true)->0), true))
                } else {
                    keep
                }
            } else if n == Token::Num {
                match negation(next) {
                    Some(x) => Some((out.push(x), true)),
                    None => None,
                }
            } else if n == Token::OpenPar {
                Some((out + seq![minus_one(), token_view(Token::Mult), next], true))
            } else {
                keep
            }
        } else {
            if n == Token::Num {
                match negation(next) {
                    Some(x) => Some((out.push(x), true)),
                    None => None,
                }
            } else if n == Token::ID || n == Token::OpenPar {
                Some((out + seq![minus_one(), token_view(Token::Mult), next], true))
            } else {
                keep
            }
        }
    }
}

/// The first pass from token `i` on, with `out` written so far and `skip`
/// saying whether token `i` was consumed already.
pub open spec fn pass_minus(inp: Seq<OperatorView>, i: int, out: Seq<OperatorView>, skip: bool) -> Option<
    Seq<OperatorView>,
>
    decreases inp.len() - i,
{
    if i < 0 || i >= inp.len() {
        Some(out)
    } else if skip {
        pass_minus(inp, i + 1, out, false)
    } else {
        match minus_step(inp, i, out) {
            None => None,
            Some((o, s)) => pass_minus(inp, i + 1, o, s),
        }
    }
}

// ---------------------------------------------------------------------------
// Second pass: complex numbers
// ---------------------------------------------------------------------------

/// What the token at `i` adds in the second pass, whether it consumes the next
/// token, and whether the next real or imaginary number is to be dropped;
/// `None` where the tokens cannot be joined.
///
/// A real and an imaginary number next to each other, or with a plus between
/// them, join into one complex number; any other real or imaginary number
/// becomes a complex number on its own.
pub open spec fn complex_step(inp: Seq<OperatorView>, i: int, out: Seq<OperatorView>, skip_num: bool) -> Option<
    (Seq<OperatorView>, bool, bool),
> {
    let token = inp[i];
    if token.token_type == Token::Num && value_kind(token.values) != 3 {
        if skip_num {
            Some((out, false, false))
        } else if i + 2 < inp.len() && inp[i + 1].token_type == Token::Add && inp[i + 2].token_type
            == Token::Num && value_kind(token.values) != value_kind(inp[i + 2].values) {
            match complex_of_two(token, inp[i + 2], false) {
                Some(c) => Some((out.push(c), true, true)),
                None => None,
            }
        } else if i + 1 < inp.len() && inp[i + 1].token_type == Token::Num && value_kind(token.values)
            != value_kind(inp[i + 1].values) {
            match complex_of_two(token, inp[i + 1], false) {
                Some(c) => Some((out.push(c), true, false)),
                None => None,
            }
        } else {
            match complex_of_one(token) {
                Some(c) => Some((out.push(c), false, false)),
                None => None,
            }
        }
    } else {
        Some((out.push(token), false, skip_num))
    }
}

/// The second pass from token `i` on.
pub open spec fn pass_complex(
    inp: Seq<OperatorView>,
    i: int,
    out: Seq<OperatorView>,
    skip: bool,
    skip_num: bool,
) -> Option<Seq<OperatorView>>
    decreases inp.len() - i,
{
    if i < 0 || i >= inp.len() {
        Some(out)
    } else if skip {
        pass_complex(inp, i + 1, out, false, skip_num)
    } else {
        match complex_step(inp, i, out, skip_num) {
            None => None,
            Some((o, s, n)) => pass_complex(inp, i + 1, o, s, n),
        }
    }
}

// ---------------------------------------------------------------------------
// Third pass: implicit products
// ---------------------------------------------------------------------------

/// Whether a product is implied between adjacent tokens of kinds `a` and `b`:
/// a number before a name or a parenthesis, or a name before a parenthesis.
pub open spec fn implicit_product(a: Token, b: Token) -> bool {
    (a == Token::Num && b == Token::ID) || (a == Token::Num && b == Token::OpenPar) || (a == Token::ID
        && b == Token::OpenPar)
}

/// The third pass from token `i` on: a product sign inserted wherever one is
/// implied, and the end token appended.
pub open spec fn pass_implicit(inp: Seq<OperatorView>, i: int, out: Seq<OperatorView>) -> Seq<
    OperatorView,
>
    decreases inp.len() - i,
{
    if i < 0 || i >= inp.len() {
        out.push(token_view(Token::END))
    } else if i + 1 < inp.len() && implicit_product(inp[i].token_type, inp[i + 1].token_type) {
        pass_implicit(inp, i + 1, out + seq![inp[i], token_view(Token::Mult)])
    } else {
        pass_implicit(inp, i + 1, out.push(inp[i]))
    }
}

/// The three passes over a token stream; `None` where numbers cannot be
/// joined.
pub open spec fn grammar_of(inp: Seq<OperatorView>) -> Option<Seq<OperatorView>> {
    match pass_minus(inp, 0, Seq::empty(), false) {
        None => None,
        Some(a) => match pass_complex(a, 0, Seq::empty(), false, false) {
            None => None,
            Some(b) => Some(pass_implicit(b, 0, Seq::empty())),
        },
    }
}


// ---------------------------------------------------------------------------
// The passes
// ---------------------------------------------------------------------------

/// The number token `-1`.
fn minus_one_operator() -> (r: Operator)
    ensures
        r@ == minus_one(),
{
    let mut temp: Operator = Operator::from_token(Token::Num);
    temp.values = Value::Real(Numeral::one().negated());
    temp
}

fn first_pass(inp: &OpVec) -> (r: Option<OpVec>)
    ensures
        match r {
            Some(o) => pass_minus(inp@, 0, Seq::empty(), false) == Some(o@),
            None => pass_minus(inp@, 0, Seq::empty(), false) is None,
        },
{
    let length: usize = inp.len();
    let mut intermediate: OpVec = OpVec::new();
    let mut skip_flag: bool = false;
    let mut i: usize = 0;
    while i < length
        invariant
            length == inp@.len(),
            i <= length,
            skip_flag ==> i < length,
            pass_minus(inp@, 0, Seq::empty(), false) == pass_minus(
                inp@,
                i as int,
                intermediate@,
                skip_flag,
            ),
        decreases length - i,
    {
        let token: Operator = inp.get(i).unwrap();
        if skip_flag {
            skip_flag = false;
        } else {
            let ghost before = intermediate@;
            let mut handled = false;
            if token.token_type == Token::Sub && i + 1 < length {
                let next: Operator = inp.get(i + 1).unwrap();
                let n = next.token_type;
                if i >= 1 {
                    let prev: Operator = inp.get(i - 1).unwrap();
                    let p = prev.token_type;
                    if (p == Token::ID && n == Token::Num) || (p == Token::Num && n == Token::ID) || (
                    p == Token::ID && n == Token::ID) || (p == Token::Num && n == Token::OpenPar) || (p
                        == Token::ID && n == Token::OpenPar) {
                    } else if p == Token::Num && n == Token::Num {
                        let kn = next.values.get_type();
                        if let Some(last) = intermediate.pop() {
                            let kl = last.values.get_type();
                            if (kl == 1 && kn == 2) || (kl == 2 && kn == 1) {
                                intermediate.push(create_complex_from_two(last, next, true));
                                skip_flag = true;
                                handled = true;
                            } else {
                                intermediate.push(last);
                                assert(intermediate@ =~= before);
                            }
                        }
                    } else if n == Token::Num {
                        let kn = next.values.get_type();
                        if kn != 1 && kn != 2 {
                            return None;
                        }
                        intermediate.push(negate(next));
                        skip_flag = true;
                        handled = true;
                    } else if n == Token::OpenPar {
                        intermediate.push(minus_one_operator());
                        intermediate.push(Operator::from_token(Token::Mult));
                        intermediate.push(next);
                        assert(intermediate@ =~= before + seq![
                            minus_one(),
                            token_view(Token::Mult),
                            inp@[i + 1],
                        ]);
                        skip_flag = true;
                        handled = true;
                    }
                } else {
                    if n == Token::Num {
                        let kn = next.values.get_type();
                        if kn != 1 && kn != 2 {
                            return None;
                        }
                        intermediate.push(negate(next));
                        skip_flag = true;
                        handled = true;
                    } else if n == Token::ID || n == Token::OpenPar {
                        intermediate.push(minus_one_operator());
                        intermediate.push(Operator::from_token(Token::Mult));
                        intermediate.push(next);
                        assert(intermediate@ =~= before + seq![
                            minus_one(),
                            token_view(Token::Mult),
                            inp@[i + 1],
                        ]);
                        skip_flag = true;
                        handled = true;
                    }
                }
            }
            if !handled {
                intermediate.push(token);
            }
            assert(minus_step(inp@, i as int, before) == Some((intermediate@, skip_flag)));
        }
        i += 1;
    }
    Some(intermediate)
}

fn second_pass(intermediate: &OpVec) -> (r: Option<OpVec>)
    ensures
        match r {
            Some(o) => pass_complex(intermediate@, 0, Seq::empty(), false, false) == Some(o@),
            None => pass_complex(intermediate@, 0, Seq::empty(), false, false) is None,
        },
{
    let length: usize = intermediate.len();
    let mut intermediate_2: OpVec = OpVec::new();
    let mut skip_flag: bool = false;
    let mut skip_num: bool = false;
    let mut i: usize = 0;
    while i < length
        invariant
            length == intermediate@.len(),
            i <= length,
            pass_complex(intermediate@, 0, Seq::empty(), false, false) == pass_complex(
                intermediate@,
                i as int,
                intermediate_2@,
                skip_flag,
                skip_num,
            ),
        decreases length - i,
    {
        let token: Operator = intermediate.get(i).unwrap();
        if skip_flag {
            skip_flag = false;
        } else {
            let ghost before = intermediate_2@;
            let ghost sn = skip_num;
            if token.token_type == Token::Num && token.values.get_type() != 3 {
                if skip_num {
                    skip_num = false;
                } else {
                    let kt = token.values.get_type();
                    let mut done = false;
                    if i + 1 < length && i + 2 < length {
                        let next_token = intermediate.get(i + 1).unwrap();
                        let second_num = intermediate.get(i + 2).unwrap();
                        if next_token.token_type == Token::Add && second_num.token_type == Token::Num
                            && kt != second_num.values.get_type() {
                            let ks = second_num.values.get_type();
                            if !((kt == 1 && ks == 2) || (kt == 2 && ks == 1)) {
                                return None;
                            }
                            intermediate_2.push(create_complex_from_two(token.clone(), second_num, false));
                            skip_flag = true;
                            skip_num = true;
                            done = true;
                        }
                    }
                    if !done && i + 1 < length {
                        let next_token = intermediate.get(i + 1).unwrap();
                        if next_token.token_type == Token::Num && kt != next_token.values.get_type() {
                            let kn = next_token.values.get_type();
                            if !((kt == 1 && kn == 2) || (kt == 2 && kn == 1)) {
                                return None;
                            }
                            intermediate_2.push(create_complex_from_two(token.clone(), next_token, false));
                            skip_flag = true;
                            done = true;
                        }
                    }
                    if !done {
                        if kt != 1 && kt != 2 {
                            return None;
                        }
                        intermediate_2.push(create_complex(token));
                    }
                }
            } else {
                intermediate_2.push(token);
            }
            assert(complex_step(intermediate@, i as int, before, sn) == Some(
                (intermediate_2@, skip_flag, skip_num),
            ));
        }
        i += 1;
    }
    Some(intermediate_2)
}

fn third_pass(intermediate_2: &OpVec) -> (r: OpVec)
    ensures
        r@ == pass_implicit(intermediate_2@, 0, Seq::empty()),
{
    let length: usize = intermediate_2.len();
    let mut output: OpVec = OpVec::new();
    let mut i: usize = 0;
    while i < length
        invariant
            length == intermediate_2@.len(),
            i <= length,
            pass_implicit(intermediate_2@, 0, Seq::empty()) == pass_implicit(
                intermediate_2@,
                i as int,
                output@,
            ),
        decreases length - i,
    {
        let token: Operator = intermediate_2.get(i).unwrap();
        let ghost before = output@;
        let mut implied = false;
        if i + 1 < length {
            let next = intermediate_2.get(i + 1).unwrap();
            let a = token.token_type;
            let b = next.token_type;
            implied = (a == Token::Num && b == Token::ID) || (a == Token::Num && b == Token::OpenPar)
                || (a == Token::ID && b == Token::OpenPar);
        }
        output.push(token);
        if implied {
            output.push(Operator::from_token(Token::Mult));
            assert(output@ =~= before + seq![intermediate_2@[i as int], token_view(Token::Mult)]);
        }
        i += 1;
    }
    output.push(Operator::from_token(Token::END));
    output
}

/// Rewrites a token stream: reads minus signs as negations or as products with
/// `-1`, joins real and imaginary numbers into complex numbers, makes every
/// other number complex, inserts the implied products and appends the end
/// token (see `grammar_of`); `None` where numbers cannot be joined.
pub fn apply_partial_grammar(inp: OpVec) -> (r: Option<OpVec>)
    ensures
        match r {
            Some(o) => grammar_of(inp@) == Some(o@),
            None => grammar_of(inp@) is None,
        },
{
    let intermediate = match first_pass(&inp) {
        Some(o) => o,
        None => return None,
    };
    let intermediate_2 = match second_pass(&intermediate) {
        Some(o) => o,
        None => return None,
    };
    Some(third_pass(&intermediate_2))
}


// ---------------------------------------------------------------------------
// From lexemes to tokens
// ---------------------------------------------------------------------------

/// The token read from one lexeme, if any: a name (or a function name), a
/// real or imaginary number, or an operator sign; lexemes that are none of
/// these give no token.
pub open spec fn lexeme_token(l: Seq<char>) -> Result<Option<OperatorView>, TokenizeError> {
    match matches_spec(ALPHABETIC@, l) {
        None => Err(TokenizeError::PatternEngine),
        Some(true) => Ok(
            Some(
                match operator_named(l) {
                    Some(t) => token_view(t),
                    None => OperatorView { symbol: l, ..token_view(Token::ID) },
                },
            ),
        ),
        Some(false) => match matches_spec(NUMERIC@, l) {
            None => Err(TokenizeError::PatternEngine),
            Some(true) => {
                let imaginary = l.len() > 0 && l.last() == 'i';
                let digits = if imaginary { l.drop_last() } else { l };
                if is_float_literal(digits) {
                    let n = NumeralView { negative: false, text: digits };
                    Ok(
                        Some(
                            OperatorView {
                                symbol: l,
                                values: if imaginary {
                                    ValueView::Imag(n)
                                } else {
                                    ValueView::Real(n)
                                },
                                ..token_view(Token::Num)
                            },
                        ),
                    )
                } else {
                    Err(TokenizeError::Numeral)
                }
            },
            Some(false) => Ok(
                match operator_named(l) {
                    Some(t) => Some(token_view(t)),
                    None => None,
                },
            ),
        },
    }
}

/// The tokens read from the lexemes, in order; the first failure stops the
/// reading.
pub open spec fn tokens_of(ls: Seq<Seq<char>>) -> Result<Seq<OperatorView>, TokenizeError>
    decreases ls.len(),
{
    if ls.len() == 0 {
        Ok(Seq::empty())
    } else {
        match tokens_of(ls.drop_last()) {
            Err(e) => Err(e),
            Ok(ts) => match lexeme_token(ls.last()) {
                Err(e) => Err(e),
                Ok(None) => Ok(ts),
                Ok(Some(t)) => Ok(ts.push(t)),
            },
        }
    }
}

/// The token stream of the lexemes: the tokens, rewritten (see `grammar_of`).
pub open spec fn tokenize_of(ls: Seq<Seq<char>>) -> Result<Seq<OperatorView>, TokenizeError> {
    match tokens_of(ls) {
        Err(e) => Err(e),
        Ok(ts) => match grammar_of(ts) {
            None => Err(TokenizeError::Grammar),
            Some(r) => Ok(r),
        },
    }
}

/// The token read from one lexeme (see `lexeme_token`).
fn lexeme_to_token(lexeme: &String) -> (r: Result<Option<Operator>, TokenizeError>)
    ensures
        match r {
            Ok(Some(op)) => lexeme_token(lexeme@) == Ok::<Option<OperatorView>, TokenizeError>(Some(op@)),
            Ok(None) => lexeme_token(lexeme@) == Ok::<Option<OperatorView>, TokenizeError>(None),
            Err(e) => lexeme_token(lexeme@) == Err::<Option<OperatorView>, TokenizeError>(e),
        },
{
    let cs = chars_of(lexeme.as_str());
    match is_match(ALPHABETIC, lexeme.as_str()) {
        None => Err(TokenizeError::PatternEngine),
        Some(true) => {
            if let Some(t) = operator_token(&cs) {
                Ok(Some(Operator::from_token(t)))
            } else {
                let mut to_add = Operator::from_token(Token::ID);
                to_add.symbol = lexeme.clone();
                Ok(Some(to_add))
            }
        },
        Some(false) => match is_match(NUMERIC, lexeme.as_str()) {
            None => Err(TokenizeError::PatternEngine),
            Some(true) => {
                let imaginary = cs.len() > 0 && cs[cs.len() - 1] == 'i';
                let mut digits = cs.clone();
                if imaginary {
                    digits.pop();
                }
                assert(digits@ =~= if imaginary { cs@.drop_last() } else { cs@ });
                if !is_float_literal_chars(&digits) {
                    return Err(TokenizeError::Numeral);
                }
                let n = Numeral { negative: false, text: string_from_chars(&digits) };
                let mut to_add = Operator::from_token(Token::Num);
                to_add.symbol = lexeme.clone();
                if imaginary {
                    to_add.values = Value::Imag(n);
                } else {
                    to_add.values = Value::Real(n);
                }
                Ok(Some(to_add))
            },
            Some(false) => {
                if let Some(t) = operator_token(&cs) {
                    Ok(Some(Operator::from_token(t)))
                } else {
                    Ok(None)
                }
            },
        },
    }
}

/// The tokens read from the lexemes (see `tokens_of`).
pub fn to_tokens(lexemes: Vec<String>) -> (r: Result<OpVec, TokenizeError>)
    ensures
        match r {
            Ok(o) => tokens_of(lexemes@.map_values(|l: String| l@)) == Ok::<Seq<OperatorView>, TokenizeError>(o@),
            Err(e) => tokens_of(lexemes@.map_values(|l: String| l@)) == Err::<Seq<OperatorView>, TokenizeError>(e),
        },
{
    let ghost ls = lexemes@.map_values(|l: String| l@);
    let mut tokens: OpVec = OpVec::new();
    let mut i: usize = 0;
    assert(ls.subrange(0, 0) =~= Seq::<Seq<char>>::empty());
    while i < lexemes.len()
        invariant
            i <= lexemes.len(),
            ls == lexemes@.map_values(|l: String| l@),
            tokens_of(ls.subrange(0, i as int)) == Ok::<Seq<OperatorView>, TokenizeError>(tokens@),
        decreases lexemes.len() - i,
    {
        proof {
            assert(ls.subrange(0, i + 1).drop_last() =~= ls.subrange(0, i as int));
            assert(ls.subrange(0, i + 1).last() == lexemes@[i as int]@);
        }
        match lexeme_to_token(&lexemes[i]) {
            Err(e) => {
                proof { lemma_tokens_of_stuck(ls, (i + 1) as int, e); }
                return Err(e);
            },
            Ok(None) => {},
            Ok(Some(op)) => {
                tokens.push(op);
            },
        }
        i += 1;
    }
    assert(ls.subrange(0, lexemes@.len() as int) =~= ls);
    Ok(tokens)
}

proof fn lemma_tokens_of_stuck(ls: Seq<Seq<char>>, k: int, e: TokenizeError)
    requires
        0 <= k <= ls.len(),
        tokens_of(ls.subrange(0, k)) == Err::<Seq<OperatorView>, TokenizeError>(e),
    ensures
        tokens_of(ls) == Err::<Seq<OperatorView>, TokenizeError>(e),
    decreases ls.len() - k,
{
    if k < ls.len() {
        assert(ls.subrange(0, k + 1).drop_last() =~= ls.subrange(0, k));
        lemma_tokens_of_stuck(ls, k + 1, e);
    } else {
        assert(ls.subrange(0, k) =~= ls);
    }
}

/// The token stream of the lexemes (see `tokenize_of`).
pub fn tokenize(lexemes: Vec<String>) -> (r: Result<OpVec, TokenizeError>)
    ensures
        match r {
            Ok(o) => tokenize_of(lexemes@.map_values(|l: String| l@)) == Ok::<Seq<OperatorView>, TokenizeError>(o@),
            Err(e) => tokenize_of(lexemes@.map_values(|l: String| l@)) == Err::<Seq<OperatorView>, TokenizeError>(e),
        },
{
    let out = to_tokens(lexemes)?;
    match apply_partial_grammar(out) {
        Some(o) => Ok(o),
        None => Err(TokenizeError::Grammar),
    }
}

} // verus!
