//! Laws about the trees the parser builds.
use vstd::prelude::*;
use crate::abstract_syntax_tree::{
    ParseState, e_loop, fresh_state, loaded, measure, need_e, need_loop, need_p, parse_tree,
    applies_before, groups_left, popped, push_loop, same_place, st_consume, st_e, st_expect, st_p,
    st_pop_operator, st_push_operator, unwind,
};
use crate::arity::Arities;
use crate::evaluator::read_line;
use crate::lexer::lex;
use crate::operator::{OperatorView, dependencies_of, token_view, well_formed};
use crate::token::Token;
use crate::token_laws::{
    all_shaped, lemma_tokenize_names, lemma_tokenize_shaped, lemma_tokenize_unmarked,
    name_lexemes, names_of, token_shaped,
};
use crate::tokenizer::{complex_of_one, grammar_of, pass_complex, pass_implicit, pass_minus, tokenize_of};
use crate::value::{ValueView, value_kind, value_with_operand};

verus! {

/// An operator on the stack that builds a well-formed node: a stack bottom,
/// or an operator that is no number or name and has room for its operands.
pub open spec fn builds_node(t: OperatorView) -> bool {
    ||| t == token_view(Token::SENTINEL)
    ||| t.token_type != Token::Num && t.token_type != Token::ID && (t.values matches ValueView::Op(s)
        && ((t.arity == Arities::BINARY && s.len() >= 2) || (t.arity == Arities::UNARY && s.len()
        >= 1)))
}

/// A parser state from which only well-formed trees can come.
pub open spec fn sound_state(s: ParseState) -> bool {
    &&& all_shaped(s.stream)
    &&& token_shaped(s.next)
    &&& forall|i: int| 0 <= i < s.operands.len() ==> well_formed(#[trigger] s.operands[i])
    &&& forall|i: int| 0 <= i < s.operators.len() ==> builds_node(#[trigger] s.operators[i])
}

proof fn lemma_pop_sound(s: ParseState)
    requires
        sound_state(s),
    ensures
        sound_state(st_pop_operator(s)),
{
    if !s.error && s.operators.len() > 0 {
        let r = st_pop_operator(s);
        let top = s.operators.last();
        assert(builds_node(top));
        let (a1, t1, e1) = popped(s.operands);
        assert(well_formed(t1)) by {
            if s.operands.len() > 0 {
                assert(well_formed(s.operands[s.operands.len() - 1]));
            }
        }
        if top.arity == Arities::BINARY {
            let (a2, t2, e2) = popped(a1);
            assert(well_formed(t2)) by {
                if a1.len() > 0 {
                    assert(a1.last() == s.operands[a1.len() - 1]);
                    assert(well_formed(s.operands[a1.len() - 1]));
                }
            }
            if top != token_view(Token::SENTINEL) {
                let sv = top.values->Op_0;
                let node = r.operands.last();
                assert(node.values == ValueView::Op(sv.update(1, t1).update(0, t2)));
                assert(well_formed(node));
            }
        } else {
            if top != token_view(Token::SENTINEL) {
                let sv = top.values->Op_0;
                let node = r.operands.last();
                assert(node.values == ValueView::Op(sv.update(0, t1)));
                assert(well_formed(node));
            }
        }
        assert forall|i: int| 0 <= i < r.operands.len() implies well_formed(#[trigger] r.operands[i]) by {
            if i < r.operands.len() - 1 {
                assert(r.operands[i] == s.operands[i]);
            }
        }
        assert forall|i: int| 0 <= i < r.operators.len() implies builds_node(#[trigger] r.operators[i]) by {
            assert(r.operators[i] == s.operators[i]);
        }
    }
}

proof fn lemma_push_loop_sound(s: ParseState, p: OperatorView)
    requires
        sound_state(s),
    ensures
        sound_state(push_loop(s, p)),
    decreases s.operators.len(),
{
    if !s.error && s.operators.len() > 0 && !(s.operators.last().token_type == Token::SENTINEL)
        && applies_before(s.operators.last(), p) {
        lemma_pop_sound(s);
        lemma_push_loop_sound(st_pop_operator(s), p);
    }
}

proof fn lemma_unwind_sound(s: ParseState)
    requires
        sound_state(s),
    ensures
        sound_state(unwind(s)),
    decreases s.operators.len(),
{
    if !s.error && s.operators.len() > 0 && !(s.operators.last().token_type == Token::SENTINEL) {
        lemma_pop_sound(s);
        lemma_unwind_sound(st_pop_operator(s));
    }
}

proof fn lemma_push_sound(s: ParseState, op: OperatorView)
    requires
        sound_state(s),
        builds_node(op),
    ensures
        sound_state(st_push_operator(s, op)),
{
    if !s.error {
        lemma_push_loop_sound(s, op);
        let s2 = push_loop(s, op);
        let r = st_push_operator(s, op);
        assert forall|i: int| 0 <= i < r.operators.len() implies builds_node(#[trigger] r.operators[i]) by {
            if i < s2.operators.len() {
                assert(r.operators[i] == s2.operators[i]);
            }
        }
    }
}

proof fn lemma_consume_sound(s: ParseState)
    requires
        sound_state(s),
    ensures
        sound_state(st_consume(s)),
{
}

proof fn lemma_p_sound(s: ParseState, fuel: nat)
    requires
        sound_state(s),
    ensures
        sound_state(st_p(s, fuel)),
    decreases fuel,
{
    if fuel > 0 && !s.error {
        if s.next.token_type == Token::ID || s.next.token_type == Token::Num {
            let s1 = ParseState { operands: s.operands.push(s.next), ..s };
            assert forall|i: int| 0 <= i < s1.operands.len() implies well_formed(#[trigger] s1.operands[i]) by {
                if i < s.operands.len() {
                    assert(s1.operands[i] == s.operands[i]);
                }
            }
            lemma_consume_sound(s1);
        } else if s.next.token_type == Token::OpenPar {
            let s1 = st_consume(s);
            lemma_consume_sound(s);
            let s2 = ParseState { operators: s1.operators.push(token_view(Token::SENTINEL)), ..s1 };
            assert forall|i: int| 0 <= i < s2.operators.len() implies builds_node(#[trigger] s2.operators[i]) by {
                if i < s1.operators.len() {
                    assert(s2.operators[i] == s1.operators[i]);
                }
            }
            lemma_e_sound(s2, (fuel - 1) as nat);
            let s3 = st_e(s2, (fuel - 1) as nat);
            let s4 = st_expect(s3, Token::ClosePar);
            let s5 = ParseState { operators: popped(s4.operators).0, ..s4 };
            assert forall|i: int| 0 <= i < s5.operators.len() implies builds_node(#[trigger] s5.operators[i]) by {
                assert(s5.operators[i] == s4.operators[i]);
            }
        } else if s.next.arity == Arities::UNARY {
            lemma_push_sound(s, s.next);
            lemma_consume_sound(st_push_operator(s, s.next));
            lemma_p_sound(st_consume(st_push_operator(s, s.next)), (fuel - 1) as nat);
        }
    }
}

proof fn lemma_loop_sound(s: ParseState, fuel: nat)
    requires
        sound_state(s),
    ensures
        sound_state(e_loop(s, fuel)),
    decreases fuel,
{
    if fuel > 0 && !s.error && s.next.token_type != Token::END && s.next.arity == Arities::BINARY {
        lemma_push_sound(s, s.next);
        let s1 = st_consume(st_push_operator(s, s.next));
        lemma_consume_sound(st_push_operator(s, s.next));
        lemma_p_sound(s1, (fuel - 1) as nat);
        lemma_loop_sound(st_p(s1, (fuel - 1) as nat), (fuel - 1) as nat);
    }
}

proof fn lemma_e_sound(s: ParseState, fuel: nat)
    requires
        sound_state(s),
    ensures
        sound_state(st_e(s, fuel)),
    decreases fuel,
{
    if fuel > 0 && !s.error {
        lemma_p_sound(s, (fuel - 1) as nat);
        lemma_loop_sound(st_p(s, (fuel - 1) as nat), (fuel - 1) as nat);
        lemma_unwind_sound(e_loop(st_p(s, (fuel - 1) as nat), (fuel - 1) as nat));
    }
}

/// A tree read from a stream of shaped tokens is well-formed.
pub proof fn lemma_parse_tree_well_formed(stream: Seq<OperatorView>)
    requires
        all_shaped(stream),
    ensures
        parse_tree(stream) matches Some(t) ==> well_formed(t),
{
    if stream.len() > 1 {
        let s1 = loaded(fresh_state(), stream);
        assert(s1.operators =~= seq![token_view(Token::SENTINEL)]);
        assert(sound_state(s1));
        lemma_e_sound(s1, crate::abstract_syntax_tree::need_e(s1));
    }
}

/// A tree read from an input line is well-formed: every tree operation can
/// walk it.
pub proof fn lemma_read_line_well_formed(input: Seq<char>)
    ensures
        read_line(input) matches Ok(Some(t)) ==> well_formed(t),
{
    lemma_tokenize_shaped(lex(input));
    if let Ok(ts) = crate::tokenizer::tokenize_of(lex(input)) {
        lemma_parse_tree_well_formed(ts);
    }
}


// ---------------------------------------------------------------------------
// The names a tree reads
// ---------------------------------------------------------------------------

/// The names the trees read, tree after tree.
pub open spec fn names_read(ops: Seq<OperatorView>) -> Seq<Seq<char>>
    decreases ops.len(),
{
    if ops.len() == 0 {
        Seq::empty()
    } else {
        names_read(ops.drop_last()) + dependencies_of(ops.last())
    }
}

/// A stream as the tokenizer makes it: the end token last and only there, and
/// no stack bottom in it.
pub open spec fn plain_stream(ts: Seq<OperatorView>) -> bool {
    &&& ts.len() >= 1
    &&& ts.last() == token_view(Token::END)
    &&& forall|i: int|
        0 <= i < ts.len() - 1 ==> #[trigger] ts[i].token_type != Token::END && ts[i].token_type
            != Token::SENTINEL
}

/// The operands that the operators on the stack still take: one for each
/// binary operator and one for each stack bottom.
spec fn stack_weight(ops: Seq<OperatorView>) -> int
    decreases ops.len(),
{
    if ops.len() == 0 {
        0
    } else {
        stack_weight(ops.drop_last()) + if ops.last().token_type == Token::SENTINEL
            || ops.last().arity == Arities::BINARY {
            1int
        } else {
            0
        }
    }
}

/// Operands beyond those the operator stack still takes.
spec fn balance(s: ParseState) -> int {
    s.operands.len() - stack_weight(s.operators)
}

/// The position of the topmost stack bottom, or -1.
spec fn last_bottom(ops: Seq<OperatorView>) -> int
    decreases ops.len(),
{
    if ops.len() == 0 {
        -1
    } else if ops.last().token_type == Token::SENTINEL {
        ops.len() - 1
    } else {
        last_bottom(ops.drop_last())
    }
}

/// The operator stack up to its topmost stack bottom.
spec fn below(ops: Seq<OperatorView>) -> Seq<OperatorView> {
    ops.take(last_bottom(ops) + 1)
}

proof fn lemma_last_bottom_range(ops: Seq<OperatorView>)
    ensures
        -1 <= last_bottom(ops) < ops.len(),
    decreases ops.len(),
{
    if ops.len() > 0 && ops.last().token_type != Token::SENTINEL {
        lemma_last_bottom_range(ops.drop_last());
    }
}

/// A state of a reading whose consumed tokens hold exactly the names its
/// operands read.
spec fn reading(s: ParseState) -> bool {
    &&& sound_state(s)
    &&& plain_stream(s.stream)
    &&& 1 <= s.index <= s.stream.len()
    &&& s.next == s.stream[s.index - 1]
    &&& !s.error ==> names_read(s.operands) == names_of(s.stream.take(s.index - 1))
}

#[verifier::spinoff_prover]
#[verifier::rlimit(40)]
proof fn lemma_pop_reading(s: ParseState)
    requires
        reading(s),
        !s.error ==> s.operators.len() > 0 && s.operators.last().token_type != Token::SENTINEL,
    ensures
        reading(st_pop_operator(s)),
        same_place(s, st_pop_operator(s)),
        !st_pop_operator(s).error ==> balance(st_pop_operator(s)) == balance(s) && below(
            st_pop_operator(s).operators,
        ) == below(s.operators),
{
    lemma_pop_sound(s);
    let r = st_pop_operator(s);
    if !s.error {
        let top = s.operators.last();
        let ops = s.operators.drop_last();
        assert(builds_node(top));
        assert(last_bottom(s.operators) == last_bottom(ops));
        lemma_last_bottom_range(ops);
        assert(below(ops) =~= below(s.operators));
        assert(stack_weight(s.operators) == stack_weight(ops) + if top.arity == Arities::BINARY {
            1int
        } else {
            0
        });
        if !r.error {
            let a1 = s.operands.drop_last();
            let t1 = s.operands.last();
            let node = r.operands.last();
            assert(r.operands.drop_last() =~= if top.arity == Arities::BINARY {
                a1.drop_last()
            } else {
                a1
            });
            if top.arity == Arities::BINARY {
                let a2 = a1.drop_last();
                let t2 = a1.last();
                let sv = top.values->Op_0;
                assert(node.values == ValueView::Op(sv.update(1, t1).update(0, t2)));
                assert(dependencies_of(node) == dependencies_of(t2) + dependencies_of(t1));
                assert(names_read(s.operands) == names_read(a1) + dependencies_of(t1));
                assert(names_read(a1) == names_read(a2) + dependencies_of(t2));
                assert(names_read(r.operands) == names_read(a2) + dependencies_of(node));
                assert(names_read(r.operands) =~= names_read(s.operands));
            } else {
                let sv = top.values->Op_0;
                assert(node.values == ValueView::Op(sv.update(0, t1)));
                assert(dependencies_of(node) == dependencies_of(t1));
                assert(names_read(r.operands) =~= names_read(s.operands));
            }
        }
    }
}

proof fn lemma_push_loop_reading(s: ParseState, p: OperatorView)
    requires
        reading(s),
    ensures
        reading(push_loop(s, p)),
        same_place(s, push_loop(s, p)),
        !push_loop(s, p).error ==> balance(push_loop(s, p)) == balance(s) && below(
            push_loop(s, p).operators,
        ) == below(s.operators),
    decreases s.operators.len(),
{
    if !s.error && s.operators.len() > 0 && !(s.operators.last().token_type == Token::SENTINEL)
        && applies_before(s.operators.last(), p) {
        lemma_pop_reading(s);
        lemma_push_loop_reading(st_pop_operator(s), p);
    }
}

proof fn lemma_unwind_reading(s: ParseState)
    requires
        reading(s),
    ensures
        reading(unwind(s)),
        same_place(s, unwind(s)),
        !unwind(s).error ==> balance(unwind(s)) == balance(s) && unwind(s).operators == below(
            s.operators,
        ),
    decreases s.operators.len(),
{
    if !s.error && s.operators.len() > 0 {
        if s.operators.last().token_type == Token::SENTINEL {
            assert(s.operators.take(s.operators.len() as int) =~= s.operators);
        } else {
            lemma_pop_reading(s);
            lemma_unwind_reading(st_pop_operator(s));
        }
    }
}

proof fn lemma_push_reading(s: ParseState, op: OperatorView)
    requires
        reading(s),
        builds_node(op),
        op.token_type != Token::SENTINEL,
    ensures
        reading(st_push_operator(s, op)),
        same_place(s, st_push_operator(s, op)),
        !st_push_operator(s, op).error ==> balance(st_push_operator(s, op)) == balance(s) - (
        if op.arity == Arities::BINARY {
            1int
        } else {
            0
        }) && below(st_push_operator(s, op).operators) == below(s.operators),
{
    lemma_push_sound(s, op);
    if !s.error {
        lemma_push_loop_reading(s, op);
        let s2 = push_loop(s, op);
        let r = st_push_operator(s, op);
        assert(r.operators.drop_last() =~= s2.operators);
        lemma_last_bottom_range(s2.operators);
        assert(below(r.operators) =~= below(s2.operators));
    }
}

proof fn lemma_consume_reading(s: ParseState)
    requires
        reading(s),
        s.next.token_type != Token::ID,
    ensures
        reading(st_consume(s)),
        st_consume(s).operands == s.operands,
        st_consume(s).operators == s.operators,
        st_consume(s).error == s.error,
        st_consume(s).stream == s.stream,
        measure(st_consume(s)) <= measure(s),
        !s.error && s.next.token_type != Token::END ==> measure(st_consume(s)) < measure(s),
{
    if !s.error && s.index < s.stream.len() {
        assert(s.stream.take(s.index as int) =~= s.stream.take(s.index - 1).push(s.next));
        assert(s.stream.take(s.index as int).drop_last() =~= s.stream.take(s.index - 1));
        assert(names_of(s.stream.take(s.index as int)) =~= names_of(s.stream.take(s.index - 1)));
    }
}

proof fn lemma_take_operand_reading(s: ParseState)
    requires
        reading(s),
        !s.error,
        s.next.token_type == Token::ID || s.next.token_type == Token::Num,
    ensures
        reading(st_consume(ParseState { operands: s.operands.push(s.next), ..s })),
        balance(st_consume(ParseState { operands: s.operands.push(s.next), ..s })) == balance(s)
            + 1,
        st_consume(ParseState { operands: s.operands.push(s.next), ..s }).operators == s.operators,
        !st_consume(ParseState { operands: s.operands.push(s.next), ..s }).error,
        measure(st_consume(ParseState { operands: s.operands.push(s.next), ..s })) < measure(s),
{
    let s1 = ParseState { operands: s.operands.push(s.next), ..s };
    lemma_p_sound(s, 1);
    assert(s.index < s.stream.len());
    assert(s1.operands.drop_last() =~= s.operands);
    assert(s.stream.take(s.index as int).drop_last() =~= s.stream.take(s.index - 1));
    assert(s.stream.take(s.index as int).last() == s.next);
    assert(names_read(s1.operands) =~= names_of(s.stream.take(s.index as int)));
}

proof fn lemma_p_reading(s: ParseState, fuel: nat)
    requires
        reading(s),
        fuel >= need_p(s),
    ensures
        reading(st_p(s, fuel)),
        st_p(s, fuel).stream == s.stream,
        measure(st_p(s, fuel)) <= measure(s),
        !st_p(s, fuel).error ==> !s.error && balance(st_p(s, fuel)) <= balance(s) + 1 && below(
            st_p(s, fuel).operators,
        ) == below(s.operators),
    decreases fuel,
{
    if !s.error {
        let t = s.next.token_type;
        if t == Token::ID || t == Token::Num {
            lemma_take_operand_reading(s);
        } else if t == Token::OpenPar {
            lemma_consume_reading(s);
            let s1 = st_consume(s);
            let s2 = ParseState { operators: s1.operators.push(token_view(Token::SENTINEL)), ..s1 };
            lemma_p_sound(s, fuel);
            assert(sound_state(s2)) by {
                assert forall|i: int| 0 <= i < s2.operators.len() implies builds_node(
                    #[trigger] s2.operators[i],
                ) by {
                    if i < s1.operators.len() {
                        assert(s2.operators[i] == s1.operators[i]);
                    }
                }
            }
            assert(s2.operators.drop_last() =~= s1.operators);
            assert(balance(s2) == balance(s) - 1);
            lemma_e_reading(s2, (fuel - 1) as nat);
            let s3 = st_e(s2, (fuel - 1) as nat);
            if !s3.error {
                assert(s2.operators.take(s2.operators.len() as int) =~= s2.operators);
            }
            let s4 = st_expect(s3, Token::ClosePar);
            if s3.next.token_type == Token::ClosePar && !s3.error {
                lemma_consume_reading(s3);
            }
            let s5 = ParseState { operators: popped(s4.operators).0, ..s4 };
            assert(sound_state(s5)) by {
                assert forall|i: int| 0 <= i < s5.operators.len() implies builds_node(
                    #[trigger] s5.operators[i],
                ) by {
                    assert(s5.operators[i] == s4.operators[i]);
                }
            }
            if !s5.error {
                assert(s4.operators == s2.operators);
                assert(s5.operators =~= s.operators);
            }
        } else if s.next.arity == Arities::UNARY {
            lemma_p_sound(s, fuel);
            assert(s.next.token_type != Token::SENTINEL);
            lemma_push_reading(s, s.next);
            let s1 = st_push_operator(s, s.next);
            lemma_consume_reading(s1);
            let s2 = st_consume(s1);
            lemma_p_reading(s2, (fuel - 1) as nat);
        }
    }
}

proof fn lemma_loop_reading(s: ParseState, fuel: nat)
    requires
        reading(s),
        fuel >= need_loop(s),
    ensures
        reading(e_loop(s, fuel)),
        e_loop(s, fuel).stream == s.stream,
        measure(e_loop(s, fuel)) <= measure(s),
        !e_loop(s, fuel).error ==> !s.error && balance(e_loop(s, fuel)) <= balance(s) && below(
            e_loop(s, fuel).operators,
        ) == below(s.operators),
    decreases fuel,
{
    if !s.error && s.next.token_type != Token::END && s.next.arity == Arities::BINARY {
        assert(s.next.token_type != Token::SENTINEL);
        assert(builds_node(s.next));
        lemma_push_reading(s, s.next);
        let s1 = st_push_operator(s, s.next);
        lemma_consume_reading(s1);
        let s2 = st_consume(s1);
        lemma_p_reading(s2, (fuel - 1) as nat);
        let s3 = st_p(s2, (fuel - 1) as nat);
        lemma_loop_reading(s3, (fuel - 1) as nat);
    }
}

proof fn lemma_e_reading(s: ParseState, fuel: nat)
    requires
        reading(s),
        fuel >= need_e(s),
    ensures
        reading(st_e(s, fuel)),
        st_e(s, fuel).stream == s.stream,
        measure(st_e(s, fuel)) <= measure(s),
        !st_e(s, fuel).error ==> !s.error && balance(st_e(s, fuel)) <= balance(s) + 1 && st_e(
            s,
            fuel,
        ).operators == below(s.operators),
    decreases fuel,
{
    if !s.error {
        lemma_p_reading(s, (fuel - 1) as nat);
        let sp = st_p(s, (fuel - 1) as nat);
        lemma_loop_reading(sp, (fuel - 1) as nat);
        let sl = e_loop(sp, (fuel - 1) as nat);
        lemma_unwind_reading(sl);
    }
}

/// A tree read from a stream as the tokenizer makes it reads exactly the names
/// of the stream, in order.
pub proof fn lemma_parse_tree_names(stream: Seq<OperatorView>)
    requires
        all_shaped(stream),
        plain_stream(stream),
    ensures
        parse_tree(stream) matches Some(t) ==> dependencies_of(t) == names_of(stream),
{
    if stream.len() > 1 {
        let s1 = loaded(fresh_state(), stream);
        assert(s1.operators =~= seq![token_view(Token::SENTINEL)]);
        assert(stream.take(0) =~= Seq::<OperatorView>::empty());
        assert(reading(s1));
        lemma_e_reading(s1, need_e(s1));
        let s2 = st_e(s1, need_e(s1));
        let s3 = st_expect(s2, Token::END);
        if s2.next.token_type == Token::END && !s2.error {
            lemma_consume_reading(s2);
            assert(last_bottom(s1.operators) == 0);
            assert(below(s1.operators) =~= s1.operators);
            assert(s1.operators.drop_last() =~= Seq::<OperatorView>::empty());
            assert(stack_weight(Seq::<OperatorView>::empty()) == 0);
            assert(stack_weight(s1.operators) == 1);
            assert(balance(s1) == -1);
            assert(s2.index == stream.len());
            if s3.operands.len() > 0 {
                assert(s3.operands.len() == 1);
                assert(names_read(s3.operands) == names_read(s3.operands.drop_last())
                    + dependencies_of(s3.operands.last()));
                assert(s3.operands.drop_last() =~= Seq::<OperatorView>::empty());
                assert(names_read(s3.operands) =~= dependencies_of(s3.operands.last()));
                assert(stream.take(stream.len() - 1) =~= stream.drop_last());
                assert(names_of(stream) =~= names_of(stream.drop_last()));
            }
        }
    }
}


/// The names a tree read from an input line depends on are exactly the name
/// lexemes of the line, in the order they are written.
pub proof fn lemma_read_line_names(input: Seq<char>)
    ensures
        read_line(input) matches Ok(Some(t)) ==> dependencies_of(t) == name_lexemes(lex(input)),
{
    lemma_tokenize_shaped(lex(input));
    lemma_tokenize_unmarked(lex(input));
    lemma_tokenize_names(lex(input));
    if let Ok(ts) = tokenize_of(lex(input)) {
        assert(plain_stream(ts)) by {
            assert forall|i: int| 0 <= i < ts.len() - 1 implies #[trigger] ts[i].token_type
                != Token::END && ts[i].token_type != Token::SENTINEL by {
                assert(ts.drop_last()[i] == ts[i]);
            }
        }
        lemma_parse_tree_names(ts);
    }
}


/// Operators that are no stack bottom never bind looser than the operator
/// under them: precedence numbers do not grow from bottom to top between
/// stack bottoms.
pub open spec fn ordered_stack(ops: Seq<OperatorView>) -> bool {
    forall|i: int, j: int|
        #![trigger ops[i], ops[j]]
        0 <= i && j == i + 1 && j < ops.len() && ops[i].token_type != Token::SENTINEL
            && ops[j].token_type != Token::SENTINEL ==> ops[i].precedence >= ops[j].precedence
}

proof fn lemma_push_loop_order(s: ParseState, op: OperatorView)
    requires
        ordered_stack(s.operators),
    ensures
        ordered_stack(push_loop(s, op).operators),
        !s.error && !push_loop(s, op).error ==> push_loop(s, op).operators.len() > 0 && (
        push_loop(s, op).operators.last().token_type == Token::SENTINEL || !applies_before(
            push_loop(s, op).operators.last(),
            op,
        )),
    decreases s.operators.len(),
{
    if !s.error && s.operators.len() > 0 && s.operators.last().token_type != Token::SENTINEL
        && applies_before(s.operators.last(), op) {
        let t = st_pop_operator(s);
        assert(t.operators =~= s.operators.drop_last());
        assert(ordered_stack(t.operators)) by {
            assert forall|i: int, j: int|
                #![trigger t.operators[i], t.operators[j]]
                0 <= i && j == i + 1 && j < t.operators.len() && t.operators[i].token_type
                    != Token::SENTINEL && t.operators[j].token_type != Token::SENTINEL implies t.operators[i].precedence
                >= t.operators[j].precedence by {
                assert(t.operators[i] == s.operators[i] && t.operators[j] == s.operators[j]);
            }
        }
        lemma_push_loop_order(t, op);
    }
}

/// Pushing an operator keeps the operator stack ordered, and puts the
/// operator on top of a stack bottom or of an operator that is not applied
/// before it: one binding looser, or as tight where the pushed operator does
/// not group to the left.
pub proof fn lemma_push_keeps_order(s: ParseState, op: OperatorView)
    requires
        ordered_stack(s.operators),
    ensures
        !st_push_operator(s, op).error ==> {
            let ops = st_push_operator(s, op).operators;
            &&& ordered_stack(ops)
            &&& ops.last() == op
            &&& ops.len() >= 2 ==> ops[ops.len() - 2].token_type == Token::SENTINEL
                || ops[ops.len() - 2].precedence > op.precedence || (ops[ops.len()
                - 2].precedence == op.precedence && !groups_left(op.token_type))
        },
{
    if !s.error {
        lemma_push_loop_order(s, op);
        let s2 = push_loop(s, op);
        let ops = s2.operators.push(op);
        if !s2.error {
            assert(ops[ops.len() - 2] == s2.operators.last());
            assert forall|i: int, j: int|
                #![trigger ops[i], ops[j]]
                0 <= i && j == i + 1 && j < ops.len() && ops[i].token_type != Token::SENTINEL
                    && ops[j].token_type != Token::SENTINEL implies ops[i].precedence
                >= ops[j].precedence by {
                if j < ops.len() - 1 {
                    assert(ops[i] == s2.operators[i] && ops[j] == s2.operators[j]);
                }
            }
        }
    }
}


/// The node of binary operator `op` over the operands `l` and `r`.
pub open spec fn binary_node(op: OperatorView, l: OperatorView, r: OperatorView) -> OperatorView {
    OperatorView { values: value_with_operand(value_with_operand(op.values, 1, r), 0, l), ..op }
}

/// The tree of `a o1 b o2 c` that precedence and grouping assign: `o1` takes
/// `a` and `b` first when it binds tighter than `o2`, or as tight and `o2`
/// groups to the left; otherwise `o2` takes `b` and `c` first.
pub open spec fn grouped(
    a: OperatorView,
    o1: OperatorView,
    b: OperatorView,
    o2: OperatorView,
    c: OperatorView,
) -> OperatorView {
    if applies_before(o1, o2) {
        binary_node(o2, binary_node(o1, a, b), c)
    } else {
        binary_node(o1, a, binary_node(o2, b, c))
    }
}

/// An operand token: a name or a number.
pub open spec fn operand_token(t: OperatorView) -> bool {
    t.token_type == Token::ID || t.token_type == Token::Num
}

/// A token of an operator that takes two operands.
pub open spec fn binary_token(t: OperatorView) -> bool {
    &&& t.arity == Arities::BINARY
    &&& t.token_type != Token::END && t.token_type != Token::SENTINEL
    &&& !operand_token(t)
}

/// Two operators between three operands are read by precedence, and between
/// operators of equal precedence by grouping: `a - b - c` is `(a - b) - c`,
/// `a ^ b ^ c` is `a ^ (b ^ c)`, and `a + b * c` is `a + (b * c)`.
pub proof fn lemma_parse_two_operators(
    a: OperatorView,
    o1: OperatorView,
    b: OperatorView,
    o2: OperatorView,
    c: OperatorView,
)
    requires
        operand_token(a),
        operand_token(b),
        operand_token(c),
        binary_token(o1),
        binary_token(o2),
    ensures
        parse_tree(seq![a, o1, b, o2, c, token_view(Token::END)]) == Some(grouped(a, o1, b, o2, c)),
{
    let end = token_view(Token::END);
    let st = seq![a, o1, b, o2, c, end];
    let sent = token_view(Token::SENTINEL);
    let s1 = loaded(fresh_state(), st);
    assert(s1.operators =~= seq![sent]);
    assert(need_e(s1) == 24);
    // the first operand
    let p1 = ParseState { operands: seq![a], next: o1, index: 2, ..s1 };
    assert(st_p(s1, 23) == p1) by {
        assert(s1.operands.push(a) =~= seq![a]);
    }
    // the first operator and the second operand
    assert(push_loop(p1, o1) == p1);
    let q1 = ParseState { operators: seq![sent, o1], next: b, index: 3, ..p1 };
    assert(st_consume(st_push_operator(p1, o1)) == q1) by {
        assert(p1.operators.push(o1) =~= seq![sent, o1]);
    }
    let q2 = ParseState { operands: seq![a, b], next: o2, index: 4, ..q1 };
    assert(st_p(q1, 22) == q2) by {
        assert(q1.operands.push(b) =~= seq![a, b]);
    }
    // the second operator and the third operand
    let n1 = binary_node(o1, a, b);
    let r1 = if applies_before(o1, o2) {
        ParseState { operands: seq![n1], operators: seq![sent, o2], next: c, index: 5, ..q2 }
    } else {
        ParseState { operators: seq![sent, o1, o2], next: c, index: 5, ..q2 }
    };
    assert(st_consume(st_push_operator(q2, o2)) == r1) by {
        if applies_before(o1, o2) {
            let t = st_pop_operator(q2);
            assert(q2.operands.drop_last().drop_last() =~= Seq::<OperatorView>::empty());
            assert(t.operands =~= seq![n1]);
            assert(t.operators =~= seq![sent]);
            assert(push_loop(t, o2) == t);
            assert(push_loop(q2, o2) == t);
            assert(t.operators.push(o2) =~= seq![sent, o2]);
        } else {
            assert(push_loop(q2, o2) == q2);
            assert(q2.operators.push(o2) =~= seq![sent, o1, o2]);
        }
    }
    let r2 = ParseState { operands: r1.operands.push(c), next: end, index: 6, ..r1 };
    assert(st_p(r1, 21) == r2);
    assert(e_loop(r2, 21) == r2);
    assert(e_loop(q2, 22) == r2);
    assert(e_loop(p1, 23) == r2);
    // applying the pending operators
    let tree = grouped(a, o1, b, o2, c);
    let u = ParseState { operands: seq![tree], operators: seq![sent], ..r2 };
    assert(unwind(r2) == u) by {
        if applies_before(o1, o2) {
            let t = st_pop_operator(r2);
            assert(r2.operands =~= seq![n1, c]);
            assert(r2.operands.drop_last().drop_last() =~= Seq::<OperatorView>::empty());
            assert(t.operands =~= seq![tree]);
            assert(t.operators =~= seq![sent]);
            assert(unwind(t) == t);
        } else {
            let n2 = binary_node(o2, b, c);
            let t = st_pop_operator(r2);
            assert(r2.operands =~= seq![a, b, c]);
            assert(r2.operands.drop_last().drop_last() =~= seq![a]);
            assert(t.operands =~= seq![a, n2]);
            assert(t.operators =~= seq![sent, o1]);
            let t2 = st_pop_operator(t);
            assert(t.operands.drop_last().drop_last() =~= Seq::<OperatorView>::empty());
            assert(t2.operands =~= seq![tree]);
            assert(t2.operators =~= seq![sent]);
            assert(unwind(t2) == t2);
            assert(unwind(t) == t2);
        }
    }
    assert(st_e(s1, 24) == u);
    assert(st_expect(u, Token::END) == u);
}


/// The node of one-operand operator `op` over the operand `x`.
pub open spec fn unary_node(op: OperatorView, x: OperatorView) -> OperatorView {
    OperatorView { values: value_with_operand(op.values, 0, x), ..op }
}

/// The function names of the input language: `sqrt sin cos tan log ln`.
pub open spec fn function_token(t: Token) -> bool {
    t == Token::Sqrt || t == Token::Sin || t == Token::Cos || t == Token::Tan || t == Token::Log
        || t == Token::Ln
}

/// The four operators of arithmetic: `+ - * /`.
pub open spec fn arithmetic_token(t: Token) -> bool {
    t == Token::Add || t == Token::Sub || t == Token::Mult || t == Token::Div
}

/// A function applied to a parenthesised operand binds tighter than any of
/// `+ - * /` after it: `f(a) o b` is read as `o(f(a), b)`, so `log(x)+1` is
/// the sum of `log(x)` and 1 and `cos(x)*2` is twice `cos(x)`.
pub proof fn lemma_function_binds_tighter(f: Token, a: OperatorView, o: Token, b: OperatorView)
    requires
        function_token(f),
        arithmetic_token(o),
        operand_token(a),
        operand_token(b),
    ensures
        parse_tree(
            seq![
                token_view(f),
                token_view(Token::OpenPar),
                a,
                token_view(Token::ClosePar),
                token_view(o),
                b,
                token_view(Token::END),
            ],
        ) == Some(
            binary_node(token_view(o), unary_node(token_view(f), a), b),
        ),
{
    let ft = token_view(f);
    let ot = token_view(o);
    let op = token_view(Token::OpenPar);
    let cp = token_view(Token::ClosePar);
    let end = token_view(Token::END);
    let sent = token_view(Token::SENTINEL);
    let st = seq![ft, op, a, cp, ot, b, end];
    let s1 = loaded(fresh_state(), st);
    assert(s1.operators =~= seq![sent]);
    assert(need_e(s1) == 28);
    // the function name is pushed
    assert(push_loop(s1, ft) == s1);
    let t1 = ParseState { operators: seq![sent, ft], next: op, index: 2, ..s1 };
    assert(st_consume(st_push_operator(s1, ft)) == t1) by {
        assert(s1.operators.push(ft) =~= seq![sent, ft]);
    }
    // the parenthesised operand
    let u1 = ParseState { operators: seq![sent, ft, sent], next: a, index: 3, ..t1 };
    assert(ParseState { operators: st_consume(t1).operators.push(sent), ..st_consume(t1) } == u1) by {
        assert(t1.operators.push(sent) =~= seq![sent, ft, sent]);
    }
    let u2 = ParseState { operands: seq![a], next: cp, index: 4, ..u1 };
    assert(st_p(u1, 24) == u2) by {
        assert(u1.operands.push(a) =~= seq![a]);
    }
    assert(e_loop(u2, 24) == u2);
    assert(unwind(u2) == u2);
    assert(st_e(u1, 25) == u2);
    let u3 = ParseState { next: ot, index: 5, ..u2 };
    assert(st_expect(u2, Token::ClosePar) == u3);
    let t2 = ParseState { operators: seq![sent, ft], ..u3 };
    assert(popped(u3.operators).0 =~= seq![sent, ft]);
    assert(st_p(t1, 26) == t2);
    assert(st_p(s1, 27) == t2);
    // the operator applies the function first
    let fa = unary_node(ft, a);
    let v1 = st_pop_operator(t2);
    assert(t2.operands.drop_last() =~= Seq::<OperatorView>::empty());
    assert(v1.operands =~= seq![fa]);
    assert(v1.operators =~= seq![sent]);
    assert(push_loop(v1, ot) == v1);
    assert(push_loop(t2, ot) == v1);
    let v2 = ParseState { operators: seq![sent, ot], next: b, index: 6, ..v1 };
    assert(st_consume(st_push_operator(t2, ot)) == v2) by {
        assert(v1.operators.push(ot) =~= seq![sent, ot]);
    }
    let v3 = ParseState { operands: seq![fa, b], next: end, index: 7, ..v2 };
    assert(st_p(v2, 26) == v3) by {
        assert(v2.operands.push(b) =~= seq![fa, b]);
    }
    assert(e_loop(v3, 26) == v3);
    assert(e_loop(t2, 27) == v3);
    let tree = binary_node(ot, fa, b);
    let w = st_pop_operator(v3);
    assert(v3.operands.drop_last().drop_last() =~= Seq::<OperatorView>::empty());
    assert(w.operands =~= seq![tree]);
    assert(w.operators =~= seq![sent]);
    assert(unwind(w) == w);
    assert(unwind(v3) == w);
    assert(st_e(s1, 28) == w);
    assert(st_expect(w, Token::END) == w);
}


/// One operator between two operands is read as that operator over them.
pub proof fn lemma_parse_one_operator(a: OperatorView, o: OperatorView, b: OperatorView)
    requires
        operand_token(a),
        operand_token(b),
        binary_token(o),
    ensures
        parse_tree(seq![a, o, b, token_view(Token::END)]) == Some(binary_node(o, a, b)),
{
    let end = token_view(Token::END);
    let sent = token_view(Token::SENTINEL);
    let st = seq![a, o, b, end];
    let s1 = loaded(fresh_state(), st);
    assert(s1.operators =~= seq![sent]);
    assert(need_e(s1) == 16);
    let p1 = ParseState { operands: seq![a], next: o, index: 2, ..s1 };
    assert(st_p(s1, 15) == p1) by {
        assert(s1.operands.push(a) =~= seq![a]);
    }
    assert(push_loop(p1, o) == p1);
    let q1 = ParseState { operators: seq![sent, o], next: b, index: 3, ..p1 };
    assert(st_consume(st_push_operator(p1, o)) == q1) by {
        assert(p1.operators.push(o) =~= seq![sent, o]);
    }
    let q2 = ParseState { operands: seq![a, b], next: end, index: 4, ..q1 };
    assert(st_p(q1, 14) == q2) by {
        assert(q1.operands.push(b) =~= seq![a, b]);
    }
    assert(e_loop(q2, 14) == q2);
    assert(e_loop(p1, 15) == q2);
    let tree = binary_node(o, a, b);
    let w = st_pop_operator(q2);
    assert(q2.operands.drop_last().drop_last() =~= Seq::<OperatorView>::empty());
    assert(w.operands =~= seq![tree]);
    assert(w.operators =~= seq![sent]);
    assert(unwind(w) == w);
    assert(unwind(q2) == w);
    assert(st_e(s1, 16) == w);
    assert(st_expect(w, Token::END) == w);
}

/// A number token as the grammar passes leave it: made complex; other
/// tokens stay.
pub open spec fn as_number(t: OperatorView) -> OperatorView {
    if t.token_type == Token::Num {
        complex_of_one(t)->0
    } else {
        t
    }
}

/// A minus between a name and a number, or between two numbers of the same
/// kind (both real or both imaginary), is a subtraction: the grammar passes
/// keep the minus between the two operands, and the line is read as the
/// first minus the second. So `x-1` is `x` minus 1, never `x` next to -1.
pub proof fn lemma_minus_between_operands(a: OperatorView, n: OperatorView)
    requires
        n.token_type == Token::Num,
        value_kind(n.values) == 1 || value_kind(n.values) == 2,
        a.token_type == Token::ID || (a.token_type == Token::Num && value_kind(a.values)
            == value_kind(n.values)),
    ensures
        grammar_of(seq![a, token_view(Token::Sub), n]) == Some(
            seq![as_number(a), token_view(Token::Sub), as_number(n), token_view(Token::END)],
        ),
        parse_tree(
            seq![as_number(a), token_view(Token::Sub), as_number(n), token_view(Token::END)],
        ) == Some(binary_node(token_view(Token::Sub), as_number(a), as_number(n))),
{
    let sub = token_view(Token::Sub);
    let inp = seq![a, sub, n];
    let e: Seq<OperatorView> = Seq::empty();
    assert(pass_minus(inp, 0, e, false) == Some(inp)) by {
        assert(e.push(a) =~= seq![a]);
        assert(seq![a].push(sub) =~= seq![a, sub]);
        assert(seq![a, sub].push(n) =~= inp);
        assert(pass_minus(inp, 3, inp, false) == Some(inp));
        assert(pass_minus(inp, 2, seq![a, sub], false) == Some(inp));
        assert(pass_minus(inp, 1, seq![a], false) == Some(inp));
    }
    let b = seq![as_number(a), sub, as_number(n)];
    assert(pass_complex(inp, 0, e, false, false) == Some(b)) by {
        assert(e.push(as_number(a)) =~= seq![as_number(a)]);
        assert(seq![as_number(a)].push(sub) =~= seq![as_number(a), sub]);
        assert(seq![as_number(a), sub].push(as_number(n)) =~= b);
        assert(pass_complex(inp, 3, b, false, false) == Some(b));
        assert(pass_complex(inp, 2, seq![as_number(a), sub], false, false) == Some(b));
        assert(pass_complex(inp, 1, seq![as_number(a)], false, false) == Some(b));
    }
    let r = seq![as_number(a), sub, as_number(n), token_view(Token::END)];
    assert(pass_implicit(b, 0, e) == r) by {
        assert(e.push(as_number(a)) =~= seq![as_number(a)]);
        assert(seq![as_number(a)].push(sub) =~= seq![as_number(a), sub]);
        assert(seq![as_number(a), sub].push(as_number(n)) =~= b);
        assert(b.push(token_view(Token::END)) =~= r);
        assert(pass_implicit(b, 3, b) == r);
        assert(pass_implicit(b, 2, seq![as_number(a), sub]) == r);
        assert(pass_implicit(b, 1, seq![as_number(a)]) == r);
    }
    lemma_parse_one_operator(as_number(a), sub, as_number(n));
}

} // verus!
