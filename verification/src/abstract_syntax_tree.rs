//! The shunting-yard parser that builds an operator tree from a token stream.
use vstd::prelude::*;
use crate::arity::Arities;
use crate::op_vec::OpVec;
use crate::operator::{Operator, OperatorView, default_view, token_view};
use crate::token::Token;
use crate::value::{ValueView, value_with_operand};

verus! {

/// The state of the parser: the token stream, the stacks of operands and of
/// pending operators, the current token `next` (the token before position
/// `index` of the stream), whether an error was met, and the result.
pub struct ParseState {
    pub stream: Seq<OperatorView>,
    pub operands: Seq<OperatorView>,
    pub operators: Seq<OperatorView>,
    pub next: OperatorView,
    pub index: int,
    pub error: bool,
    pub value: OperatorView,
}

/// The operator given back where a lookup fails.
pub open spec fn null_view() -> OperatorView {
    token_view(Token::Null)
}

/// The state after an error is reported.
pub open spec fn st_error(s: ParseState) -> ParseState {
    ParseState { error: true, ..s }
}

/// The state after the current token is consumed: the next token of the
/// stream becomes current, if there is one and no error was met.
pub open spec fn st_consume(s: ParseState) -> ParseState {
    if 0 <= s.index < s.stream.len() && !s.error {
        ParseState { next: s.stream[s.index], index: s.index + 1, ..s }
    } else {
        s
    }
}

/// The state after the current token is expected to be of kind `t`: it is
/// consumed if so, and an error is reported if not.
pub open spec fn st_expect(s: ParseState, t: Token) -> ParseState {
    if s.next.token_type == t && !s.error {
        st_consume(s)
    } else {
        st_error(s)
    }
}

/// A stack without its top, the top, and whether the stack was empty (the
/// top is then the null operator).
pub open spec fn popped(stack: Seq<OperatorView>) -> (Seq<OperatorView>, OperatorView, bool) {
    if stack.len() > 0 {
        (stack.drop_last(), stack.last(), false)
    } else {
        (stack, null_view(), true)
    }
}

/// The state after the top operator is applied: it takes its operands from
/// the operand stack (the last one as its last operand) and goes onto the
/// operand stack itself; missing operands report an error.
pub open spec fn st_pop_operator(s: ParseState) -> ParseState {
    if s.error || s.operators.len() == 0 {
        s
    } else {
        let top = s.operators.last();
        let ops = s.operators.drop_last();
        if top.arity == Arities::BINARY {
            let (a1, t1, e1) = popped(s.operands);
            let (a2, t2, e2) = popped(a1);
            let node = OperatorView {
                values: value_with_operand(value_with_operand(top.values, 1, t1), 0, t2),
                ..top
            };
            ParseState { operands: a2.push(node), operators: ops, error: e1 || e2, ..s }
        } else {
            let (a1, t1, e1) = popped(s.operands);
            let node = OperatorView { values: value_with_operand(top.values, 0, t1), ..top };
            ParseState { operands: a1.push(node), operators: ops, error: e1, ..s }
        }
    }
}

/// Whether operators of kind `t` group to the left: `a - b - c` is
/// `(a - b) - c`.
pub open spec fn groups_left(t: Token) -> bool {
    t == Token::Add || t == Token::Sub || t == Token::Mult || t == Token::Div
}

/// Whether the pending operator `top` is applied before `op` is pushed: it
/// binds tighter, or as tight and `op` groups to the left.
pub open spec fn applies_before(top: OperatorView, op: OperatorView) -> bool {
    top.precedence < op.precedence || (top.precedence == op.precedence && groups_left(
        op.token_type,
    ))
}

/// Applies pending operators while the top one is no stack bottom and is
/// applied before `op` (see `applies_before`); an empty stack reports an
/// error.
pub open spec fn push_loop(s: ParseState, op: OperatorView) -> ParseState
    decreases s.operators.len(),
{
    if s.error {
        s
    } else if s.operators.len() == 0 {
        st_error(s)
    } else if s.operators.last().token_type == Token::SENTINEL || !applies_before(
        s.operators.last(),
        op,
    ) {
        s
    } else {
        push_loop(st_pop_operator(s), op)
    }
}

/// The state after `op` is pushed onto the operator stack, once the pending
/// operators that are applied before it are applied.
pub open spec fn st_push_operator(s: ParseState, op: OperatorView) -> ParseState {
    if s.error {
        s
    } else {
        let s2 = push_loop(s, op);
        ParseState { operators: s2.operators.push(op), ..s2 }
    }
}

/// Applies pending operators down to the next stack bottom; an empty stack
/// reports an error.
pub open spec fn unwind(s: ParseState) -> ParseState
    decreases s.operators.len(),
{
    if s.error {
        s
    } else if s.operators.len() == 0 {
        st_error(s)
    } else if s.operators.last().token_type == Token::SENTINEL {
        s
    } else {
        unwind(st_pop_operator(s))
    }
}

/// Reading a primary: a name or number goes onto the operand stack; a
/// parenthesis opens a sub-expression, which must be closed; a function name
/// or other one-operand operator is pushed and applies to the primary after
/// it. `fuel` bounds the depth of the reading; `need_p` is always enough.
pub open spec fn st_p(s: ParseState, fuel: nat) -> ParseState
    decreases fuel,
{
    if fuel == 0 || s.error {
        s
    } else if s.next.token_type == Token::ID || s.next.token_type == Token::Num {
        st_consume(ParseState { operands: s.operands.push(s.next), ..s })
    } else if s.next.token_type == Token::OpenPar {
        let s1 = st_consume(s);
        let s2 = ParseState { operators: s1.operators.push(token_view(Token::SENTINEL)), ..s1 };
        let s3 = st_e(s2, (fuel - 1) as nat);
        let s4 = st_expect(s3, Token::ClosePar);
        ParseState { operators: popped(s4.operators).0, ..s4 }
    } else if s.next.arity == Arities::UNARY {
        st_p(st_consume(st_push_operator(s, s.next)), (fuel - 1) as nat)
    } else {
        s
    }
}

/// Reading the binary operators after a primary, each followed by a primary.
pub open spec fn e_loop(s: ParseState, fuel: nat) -> ParseState
    decreases fuel,
{
    if fuel == 0 {
        s
    } else if !s.error && s.next.token_type != Token::END && s.next.arity == Arities::BINARY {
        let s1 = st_consume(st_push_operator(s, s.next));
        e_loop(st_p(s1, (fuel - 1) as nat), (fuel - 1) as nat)
    } else {
        s
    }
}

/// Reading an expression: a primary, the binary operators that follow, and
/// then every pending operator down to the stack bottom.
pub open spec fn st_e(s: ParseState, fuel: nat) -> ParseState
    decreases fuel,
{
    if fuel == 0 || s.error {
        s
    } else {
        unwind(e_loop(st_p(s, (fuel - 1) as nat), (fuel - 1) as nat))
    }
}

/// A bound on the work left: twice the tokens not yet read, plus one while
/// some are left; nothing once an error was met.
pub open spec fn measure(s: ParseState) -> nat {
    if s.error || s.index < 0 || s.index >= s.stream.len() {
        0
    } else {
        (2 * (s.stream.len() - s.index) + 1) as nat
    }
}

/// Fuel that is enough for `st_p`.
pub open spec fn need_p(s: ParseState) -> nat {
    2 * measure(s) + 1
}

/// Fuel that is enough for `st_e`.
pub open spec fn need_e(s: ParseState) -> nat {
    2 * measure(s) + 2
}

/// Fuel that is enough for `e_loop`.
pub open spec fn need_loop(s: ParseState) -> nat {
    2 * measure(s) + 1
}

/// A token whose operands can be set once it is pushed as an operator: one
/// that takes two operands has room for two, and one that takes one operand
/// and is no number or name has room for one.
pub open spec fn settable(t: OperatorView) -> bool {
    &&& t.arity == Arities::BINARY ==> (t.values matches ValueView::Op(s) ==> s.len() >= 2)
    &&& (t.arity == Arities::UNARY && t.token_type != Token::Num && t.token_type != Token::ID) ==> (
    t.values matches ValueView::Op(s) ==> s.len() >= 1)
}

/// An operator that may stand on the operator stack: a stack bottom, or an
/// operator that takes operands and has room for them.
pub open spec fn stackable(t: OperatorView) -> bool {
    ||| t.token_type == Token::SENTINEL
    ||| t.arity == Arities::BINARY && (t.values matches ValueView::Op(s) ==> s.len() >= 2)
    ||| t.arity == Arities::UNARY && (t.values matches ValueView::Op(s) ==> s.len() >= 1)
}

/// A last token on which the reading stops: it neither continues an
/// expression with a binary operator nor opens a primary.
pub open spec fn inert_at_end(t: OperatorView) -> bool {
    &&& t.token_type == Token::END || t.arity != Arities::BINARY
    &&& t.token_type == Token::ID || t.token_type == Token::Num || (t.token_type != Token::OpenPar
        && t.arity != Arities::UNARY)
}

/// A token stream the parser reads to its end: every operator in it has room
/// for its operands, and the reading stops at its last token.
pub open spec fn readable_stream(stream: Seq<OperatorView>) -> bool {
    &&& stream.len() >= 1
    &&& inert_at_end(stream.last())
    &&& forall|i: int| 0 <= i < stream.len() ==> settable(#[trigger] stream[i])
}

/// What holds of the parser state throughout a reading.
pub open spec fn parse_inv(s: ParseState) -> bool {
    &&& readable_stream(s.stream)
    &&& 1 <= s.index <= s.stream.len()
    &&& s.next == s.stream[s.index - 1]
    &&& forall|i: int| 0 <= i < s.operators.len() ==> stackable(#[trigger] s.operators[i])
}


/// State `b` is at the same place of the same stream as state `a`, and keeps
/// an error that `a` met.
pub open spec fn same_place(a: ParseState, b: ParseState) -> bool {
    &&& b.stream == a.stream
    &&& b.index == a.index
    &&& b.next == a.next
    &&& a.error ==> b.error
}

/// The state of a parser that has read nothing yet.
pub open spec fn fresh_state() -> ParseState {
    ParseState {
        stream: Seq::empty(),
        operands: Seq::empty(),
        operators: Seq::empty(),
        next: default_view(),
        index: 1,
        error: false,
        value: default_view(),
    }
}

/// The state with `stream` loaded at its start: both stacks cleared but for
/// the stack bottom, and no error; the result is kept.
pub open spec fn loaded(s0: ParseState, stream: Seq<OperatorView>) -> ParseState {
    ParseState {
        stream: stream,
        next: stream[0],
        operands: Seq::empty(),
        operators: seq![token_view(Token::SENTINEL)],
        index: 1,
        error: false,
        ..s0
    }
}

/// The state after reading `stream` from state `s0`, and the tree read: the
/// whole stream must be one expression followed by the end token, and the
/// tree is the last operand.
pub open spec fn shunting_outcome(s0: ParseState, stream: Seq<OperatorView>) -> (
    ParseState,
    Option<OperatorView>,
) {
    if stream.len() > 1 {
        let s1 = loaded(s0, stream);
        let s2 = st_expect(st_e(s1, need_e(s1)), Token::END);
        let s3 = if s2.operands.len() > 0 {
            ParseState { value: s2.operands.last(), ..s2 }
        } else {
            st_error(s2)
        };
        (s3, if !s3.error { Some(s3.value) } else { None })
    } else {
        (s0, None)
    }
}

/// The tree read from a token stream by a fresh parser, if the stream is one
/// expression followed by the end token.
pub open spec fn parse_tree(stream: Seq<OperatorView>) -> Option<OperatorView> {
    shunting_outcome(fresh_state(), stream).1
}

/// A shunting-yard parser.
pub struct AbstractSyntaxTree {
    token_stream: OpVec,
    operands: OpVec,
    operators: OpVec,
    next: Operator,
    token_index: usize,
    error: bool,
    pub value: Operator,
}

impl View for AbstractSyntaxTree {
    type V = ParseState;

    closed spec fn view(&self) -> ParseState {
        ParseState {
            stream: self.token_stream@,
            operands: self.operands@,
            operators: self.operators@,
            next: self.next@,
            index: self.token_index as int,
            error: self.error,
            value: self.value@,
        }
    }
}

impl AbstractSyntaxTree {
    /// The result held in the parser's state: the tree last read.
    pub fn value(&self) -> (r: &Operator)
        ensures
            r@ == self@.value,
    {
        &self.value
    }
}

impl Default for AbstractSyntaxTree {
    fn default() -> (r: AbstractSyntaxTree)
        ensures
            r@ == fresh_state(),
    {
        let r = AbstractSyntaxTree {
            token_stream: OpVec::new(),
            operands: OpVec::new(),
            operators: OpVec::new(),
            next: Operator::default(),
            token_index: 1,
            error: false,
            value: Operator::default(),
        };
        assert(r@ =~= fresh_state());
        r
    }
}

impl AbstractSyntaxTree {
    /// Reports an error and gives back the null operator.
    fn error(&mut self) -> (r: Operator)
        ensures
            final(self)@ == st_error(old(self)@),
            r@ == null_view(),
    {
        self.error = true;
        Operator::from_token(Token::Null)
    }

    /// Makes the next token of the stream current.
    fn consume(&mut self)
        ensures
            final(self)@ == st_consume(old(self)@),
    {
        if self.token_index < self.token_stream.len() && !self.error {
            self.next = match self.token_stream.get(self.token_index) {
                Some(o) => o,
                None => self.error(),
            };
            self.token_index += 1;
        }
    }

    /// Consumes the current token if it is of kind `expected`, and reports an
    /// error if not.
    fn expect(&mut self, expected: Token)
        ensures
            final(self)@ == st_expect(old(self)@, expected),
    {
        if self.next.token_type == expected && !self.error {
            self.consume();
        } else {
            self.error();
        }
    }

    /// A copy of the top operator; an empty stack reports an error.
    fn top_operator(&mut self) -> (r: Operator)
        ensures
            old(self)@.operators.len() > 0 ==> final(self)@ == old(self)@ && r@
                == old(self)@.operators.last(),
            old(self)@.operators.len() == 0 ==> final(self)@ == st_error(old(self)@) && r@
                == null_view(),
    {
        let n = self.operators.len();
        if n == 0 {
            self.error()
        } else {
            match self.operators.get(n - 1) {
                Some(o) => o,
                None => self.error(),
            }
        }
    }

    /// Applies the top operator (see `st_pop_operator`).
    fn pop_operator(&mut self)
        requires
            parse_inv(old(self)@),
            !old(self)@.error ==> old(self)@.operators.len() > 0
                && old(self)@.operators.last().token_type != Token::SENTINEL,
        ensures
            final(self)@ == st_pop_operator(old(self)@),
            parse_inv(final(self)@),
            same_place(old(self)@, final(self)@),
    {
        if !self.error {
            let top = self.top_operator();
            if top.arity == Arities::BINARY {
                let t1 = match self.operands.pop() {
                    Some(o) => o,
                    None => self.error(),
                };
                let t2 = match self.operands.pop() {
                    Some(o) => o,
                    None => self.error(),
                };
                let mut toadd: Operator = match self.operators.pop() {
                    Some(o) => o,
                    None => self.error(),
                };
                toadd.values.set_index(1, t1);
                toadd.values.set_index(0, t2);
                self.operands.push(toadd);
            } else {
                let mut toadd: Operator = match self.operators.pop() {
                    Some(o) => o,
                    None => self.error(),
                };
                let t = match self.operands.pop() {
                    Some(o) => o,
                    None => self.error(),
                };
                toadd.values.set_index(0, t);
                self.operands.push(toadd);
            }
            assert(self@.operators =~= old(self)@.operators.drop_last());
        }
    }

    /// Pushes `op` once the pending operators that are applied before it are
    /// applied (see `st_push_operator`).
    fn push_operator(&mut self, op: Operator)
        requires
            parse_inv(old(self)@),
            stackable(op@),
        ensures
            final(self)@ == st_push_operator(old(self)@, op@),
            parse_inv(final(self)@),
            same_place(old(self)@, final(self)@),
    {
        if !self.error {
            let ghost entry = self@;
            loop
                invariant
                    parse_inv(self@),
                    push_loop(self@, op@) == push_loop(entry, op@),
                    stackable(op@),
                    same_place(entry, self@),
                ensures
                    self@ == push_loop(entry, op@),
                    parse_inv(self@),
                    same_place(entry, self@),
                decreases self@.operators.len() + if self@.error { 0int } else { 1int },
            {
                if self.error {
                    break;
                }
                let t = self.top_operator();
                if t.token_type == Token::SENTINEL {
                    break;
                }
                let t2 = self.top_operator();
                let left = op.token_type == Token::Add || op.token_type == Token::Sub
                    || op.token_type == Token::Mult || op.token_type == Token::Div;
                if !(t2.precedence < op.precedence || (t2.precedence == op.precedence && left)) {
                    break;
                }
                self.pop_operator();
            }
            self.operators.push(op);
        }
    }

    /// Reads an expression (see `st_e`).
    fn e(&mut self)
        requires
            parse_inv(old(self)@),
        ensures
            parse_inv(final(self)@),
            final(self)@.stream == old(self)@.stream,
            measure(final(self)@) <= measure(old(self)@),
            forall|f: nat| f >= need_e(old(self)@) ==> final(self)@ == #[trigger] st_e(old(self)@, f),
        decreases measure(old(self)@), 1nat,
    {
        let ghost s0 = self@;
        if !self.error {
            self.p();
            let ghost sp = self@;
            let ghost mut k: nat = 0;
            while !self.error && !(self.next.token_type == Token::END) && self.next.arity
                == Arities::BINARY
                invariant
                    s0 == old(self)@,
                    parse_inv(self@),
                    self@.stream == s0.stream,
                    measure(sp) <= measure(s0),
                    measure(self@) <= measure(sp),
                    need_loop(self@) + k <= need_loop(sp),
                    forall|g: nat|
                        g >= need_loop(sp) ==> #[trigger] e_loop(sp, g) == e_loop(
                            self@,
                            (g - k) as nat,
                        ),
                decreases measure(self@),
            {
                let ghost cur = self@;
                let op = self.next.clone();
                self.push_operator(op);
                self.consume();
                let ghost s1 = self@;
                assert(cur.index < cur.stream.len());
                assert(measure(s1) < measure(cur));
                self.p();
                proof {
                    assert forall|g: nat| g >= need_loop(sp) implies #[trigger] e_loop(sp, g)
                        == e_loop(self@, (g - (k + 1)) as nat) by {
                        let h = (g - k) as nat;
                        assert(e_loop(cur, h) == e_loop(st_p(s1, (h - 1) as nat), (h - 1) as nat));
                    }
                    k = k + 1;
                }
            }
            let ghost sl = self@;
            loop
                invariant
                    parse_inv(self@),
                    self@.stream == s0.stream,
                    measure(self@) <= measure(sl),
                    unwind(self@) == unwind(sl),
                ensures
                    parse_inv(self@),
                    self@.stream == s0.stream,
                    measure(self@) <= measure(sl),
                    self@ == unwind(sl),
                decreases self@.operators.len() + if self@.error { 0int } else { 1int },
            {
                if self.error {
                    break;
                }
                let t = self.top_operator();
                if t.token_type == Token::SENTINEL {
                    break;
                }
                self.pop_operator();
            }
            proof {
                assert forall|f: nat| f >= need_e(s0) implies self@ == #[trigger] st_e(s0, f) by {
                    let g = (f - 1) as nat;
                    assert(st_p(s0, g) == sp);
                    assert(e_loop(sp, g) == e_loop(sl, (g - k) as nat));
                }
            }
        }
    }

    /// Reads a primary (see `st_p`).
    fn p(&mut self)
        requires
            parse_inv(old(self)@),
        ensures
            parse_inv(final(self)@),
            final(self)@.stream == old(self)@.stream,
            measure(final(self)@) <= measure(old(self)@),
            forall|f: nat| f >= need_p(old(self)@) ==> final(self)@ == #[trigger] st_p(old(self)@, f),
        decreases measure(old(self)@), 0nat,
    {
        let ghost s0 = self@;
        if !self.error {
            if self.next.token_type == Token::ID || self.next.token_type == Token::Num {
                let n = self.next.clone();
                self.operands.push(n);
                self.consume();
            } else if self.next.token_type == Token::OpenPar {
                self.consume();
                self.operators.push(Operator::from_token(Token::SENTINEL));
                let ghost s2 = self@;
                assert(s0.index < s0.stream.len());
                assert(s2 == ParseState {
                    operators: st_consume(s0).operators.push(token_view(Token::SENTINEL)),
                    ..st_consume(s0)
                });
                assert(measure(s2) < measure(s0));
                self.e();
                self.expect(Token::ClosePar);
                self.operators.pop();
                proof {
                    assert forall|f: nat| f >= need_p(s0) implies self@ == #[trigger] st_p(s0, f) by {
                        assert((f - 1) as nat >= need_e(s2));
                        assert(st_p(s0, f) == ParseState {
                            operators: popped(st_expect(st_e(s2, (f - 1) as nat), Token::ClosePar).operators).0,
                            ..st_expect(st_e(s2, (f - 1) as nat), Token::ClosePar)
                        });
                    }
                }
            } else if self.next.arity == Arities::UNARY {
                let op = self.next.clone();
                self.push_operator(op);
                self.consume();
                let ghost s1 = self@;
                assert(s0.index < s0.stream.len());
                assert(s1 == st_consume(st_push_operator(s0, s0.next)));
                assert(measure(s1) < measure(s0));
                self.p();
                proof {
                    assert forall|f: nat| f >= need_p(s0) implies self@ == #[trigger] st_p(s0, f) by {
                        assert((f - 1) as nat >= need_p(s1));
                        assert(st_p(s0, f) == st_p(s1, (f - 1) as nat));
                    }
                }
            }
        }
    }

    /// Reads `stream` into a tree from its start, whatever the parser read
    /// before (see `shunting_outcome`); `None` where the stream is no
    /// expression followed by the end token. A stream of at most one token
    /// leaves the parser as it was.
    pub fn from_shunting_yard(&mut self, stream: OpVec) -> (r: Option<Operator>)
        requires
            stream@.len() > 1 ==> readable_stream(stream@),
        ensures
            final(self)@ == shunting_outcome(old(self)@, stream@).0,
            match r {
                Some(o) => shunting_outcome(old(self)@, stream@).1 == Some(o@),
                None => shunting_outcome(old(self)@, stream@).1 is None,
            },
    {
        if stream.len() > 1 {
            self.operands = OpVec::new();
            self.operators = OpVec::new();
            self.token_index = 1;
            self.error = false;
            self.token_stream = stream.clone();
            self.next = match self.token_stream.get(0) {
                Some(o) => o,
                None => self.error(),
            };
            self.operators.push(Operator::from_token(Token::SENTINEL));
            let ghost s1 = self@;
            assert(s1.operators =~= seq![token_view(Token::SENTINEL)]);
            assert(s1 == loaded(old(self)@, stream@));
            self.e();
            self.expect(Token::END);
            if !self.operands.is_empty() {
                let n = self.operands.len();
                self.value = match self.operands.get(n - 1) {
                    Some(o) => o,
                    None => self.error(),
                };
            } else {
                self.error();
            }
            if !self.error {
                Some(self.value.clone())
            } else {
                None
            }
        } else {
            None
        }
    }
}

} // verus!
