//! Operators: the tokens of an expression and the nodes of its tree.
use vstd::prelude::*;
use crate::arity::Arities;
use crate::op_vec::OpVec;
use crate::token::Token;
use crate::value::{Complex, ComplexView, Numeral, NumeralView, Value, ValueView, zero_view};
use crate::var_map::{VarMap, lookup};

verus! {

broadcast use vstd::std_specs::vec::group_vec_axioms;

/// An operator: a token of an expression, or a node of an expression tree
/// whose operands are held in `values`.
pub struct Operator {
    pub arity: Arities,
    pub token_type: Token,
    pub symbol: String,
    pub values: Value,
    pub precedence: u8,
    pub katex_repr: String,
    /// Set when `symbol` is the printed form of the complex number in
    /// `values`: printing a floating-point number is left to the caller, so
    /// such a symbol is held empty here.
    pub symbol_from_value: bool,
}

/// What an `Operator` stands for.
pub struct OperatorView {
    pub arity: Arities,
    pub token_type: Token,
    pub symbol: Seq<char>,
    pub values: ValueView,
    pub precedence: u8,
    pub katex_repr: Seq<char>,
    pub symbol_from_value: bool,
}

pub open spec fn operator_view(op: Operator) -> OperatorView
    decreases op,
{
    OperatorView {
        arity: op.arity,
        token_type: op.token_type,
        symbol: op.symbol@,
        values: value_view(op.values),
        precedence: op.precedence,
        katex_repr: op.katex_repr@,
        symbol_from_value: op.symbol_from_value,
    }
}

pub open spec fn value_view(v: Value) -> ValueView
    decreases v,
{
    match v {
        Value::Op(ov) => ValueView::Op(views_of(ov.0@)),
        Value::Number(c) => ValueView::Number(c@),
        Value::Real(n) => ValueView::Real(n@),
        Value::Imag(n) => ValueView::Imag(n@),
    }
}

/// The views of a sequence of operators, element by element.
pub open spec fn views_of(s: Seq<Operator>) -> Seq<OperatorView>
    decreases s,
{
    if s.len() == 0 {
        Seq::empty()
    } else {
        views_of(s.subrange(0, s.len() - 1)).push(operator_view(s[s.len() - 1]))
    }
}

impl View for Operator {
    type V = OperatorView;

    open spec fn view(&self) -> OperatorView {
        operator_view(*self)
    }
}

impl View for Value {
    type V = ValueView;

    open spec fn view(&self) -> ValueView {
        value_view(*self)
    }
}

pub proof fn lemma_views_of(s: Seq<Operator>)
    ensures
        views_of(s).len() == s.len(),
        forall|i: int| 0 <= i < s.len() ==> #[trigger] views_of(s)[i] == s[i]@,
    decreases s.len(),
{
    if s.len() > 0 {
        lemma_views_of(s.subrange(0, s.len() - 1));
    }
}

pub proof fn lemma_views_of_push(s: Seq<Operator>, x: Operator)
    ensures
        views_of(s.push(x)) == views_of(s).push(x@),
{
    assert(s.push(x).subrange(0, s.len() as int) =~= s);
}

fn copy_operator(op: &Operator) -> (r: Operator)
    ensures
        r@ == op@,
    decreases op,
{
    Operator {
        arity: op.arity,
        token_type: op.token_type,
        symbol: op.symbol.clone(),
        values: copy_value(&op.values),
        precedence: op.precedence,
        katex_repr: op.katex_repr.clone(),
        symbol_from_value: op.symbol_from_value,
    }
}

fn copy_value(v: &Value) -> (r: Value)
    ensures
        r@ == v@,
    decreases v,
{
    match v {
        Value::Op(ov) => Value::Op(OpVec(copy_operators(&ov.0))),
        Value::Number(c) => Value::Number(c.clone()),
        Value::Real(n) => Value::Real(n.clone()),
        Value::Imag(n) => Value::Imag(n.clone()),
    }
}

fn copy_operators(v: &Vec<Operator>) -> (r: Vec<Operator>)
    ensures
        views_of(r@) == views_of(v@),
    decreases v,
{
    let mut out: Vec<Operator> = Vec::new();
    let mut i: usize = 0;
    while i < v.len()
        invariant
            i <= v.len(),
            views_of(out@) == views_of(v@.subrange(0, i as int)),
        decreases v.len() - i,
    {
        proof {
            assert(decreases_to!(v => v[i as int]));
        }
        let c = copy_operator(&v[i]);
        proof {
            lemma_views_of_push(out@, c);
            lemma_views_of_push(v@.subrange(0, i as int), v@[i as int]);
            assert(v@.subrange(0, i as int).push(v@[i as int]) =~= v@.subrange(0, i + 1));
        }
        out.push(c);
        i += 1;
    }
    assert(v@.subrange(0, v@.len() as int) =~= v@);
    out
}

impl Clone for Operator {
    fn clone(&self) -> (r: Self)
        ensures
            r@ == self@,
    {
        copy_operator(self)
    }
}

impl Clone for Value {
    fn clone(&self) -> (r: Self)
        ensures
            r@ == self@,
    {
        copy_value(self)
    }
}

impl Clone for OpVec {
    fn clone(&self) -> (r: Self)
        ensures
            r@ == self@,
    {
        OpVec(copy_operators(&self.0))
    }
}

/// The operator that stands for nothing: a `Null` token without operands.
pub open spec fn default_view() -> OperatorView {
    OperatorView {
        arity: Arities::NULLARY,
        token_type: Token::Null,
        symbol: Seq::empty(),
        values: ValueView::Op(Seq::empty()),
        precedence: 255,
        katex_repr: Seq::empty(),
        symbol_from_value: false,
    }
}

/// The number of operands of a token.
pub open spec fn arity_of(t: Token) -> Arities {
    match t {
        Token::END | Token::SENTINEL | Token::Null | Token::OpenPar | Token::ClosePar => Arities::NULLARY,
        Token::Num | Token::ID | Token::Sqrt | Token::Sin | Token::Cos | Token::Tan | Token::Log
        | Token::Ln => Arities::UNARY,
        Token::Add | Token::Sub | Token::Mult | Token::Div | Token::Pow => Arities::BINARY,
    }
}

/// The precedence of a token: the lower, the tighter it binds; parentheses
/// and the stack bottom have 0 and tokens that are no operator 255.
pub open spec fn precedence_of(t: Token) -> u8 {
    match t {
        Token::SENTINEL | Token::OpenPar | Token::ClosePar => 0,
        Token::Pow | Token::Sqrt | Token::Log | Token::Ln => 1,
        Token::Sin | Token::Cos | Token::Tan => 2,
        Token::Mult | Token::Div => 3,
        Token::Add | Token::Sub => 4,
        _ => 255,
    }
}

/// The symbol written for a token.
pub open spec fn symbol_of(t: Token) -> Seq<char> {
    match t {
        Token::Add => "+"@,
        Token::Sub => "-"@,
        Token::Mult => "*"@,
        Token::Div => "/"@,
        Token::Sqrt => "sqrt"@,
        Token::Pow => "^"@,
        Token::Sin => "sin"@,
        Token::Cos => "cos"@,
        Token::Tan => "tan"@,
        Token::Log => "log"@,
        Token::Ln => "ln"@,
        Token::OpenPar => "("@,
        Token::ClosePar => ")"@,
        Token::END => "END"@,
        _ => Seq::empty(),
    }
}

/// The complex number zero.
pub open spec fn complex_zero() -> ComplexView {
    ComplexView { re: zero_view(), im: zero_view() }
}

/// The fresh operator for a token: a number token holds zero, an operator
/// holds one placeholder operand per operand it takes.
pub open spec fn token_view(t: Token) -> OperatorView {
    OperatorView {
        arity: arity_of(t),
        token_type: t,
        symbol: symbol_of(t),
        values: if t == Token::Num {
            ValueView::Number(complex_zero())
        } else {
            match arity_of(t) {
                Arities::BINARY => ValueView::Op(seq![default_view(), default_view()]),
                Arities::UNARY => ValueView::Op(seq![default_view()]),
                Arities::NULLARY => ValueView::Op(Seq::empty()),
            }
        },
        precedence: precedence_of(t),
        katex_repr: Seq::empty(),
        symbol_from_value: false,
    }
}

/// The number operator holding `v`.
pub open spec fn number_view(v: ValueView) -> OperatorView {
    OperatorView { values: v, ..token_view(Token::Num) }
}

impl Default for Operator {
    fn default() -> (r: Operator)
        ensures
            r@ == default_view(),
    {
        Operator::new()
    }
}

/// A `String` holding the characters of `s`.
fn text(s: &str) -> (r: String)
    ensures
        r@ == s@,
{
    String::from_str(s)
}

impl Operator {
    fn new() -> (r: Operator)
        ensures
            r@ == default_view(),
    {
        let r = Operator {
            token_type: Token::Null,
            arity: Arities::NULLARY,
            symbol: String::new(),
            values: Value::Op(OpVec(Vec::new())),
            precedence: 255,
            katex_repr: String::new(),
            symbol_from_value: false,
        };
        assert(r@.values =~= ValueView::Op(Seq::empty()));
        r
    }

    /// The number operator holding `val_to_add`.
    pub fn from_value(val_to_add: Value) -> (r: Operator)
        ensures
            r@ == number_view(val_to_add@),
    {
        let mut out = Operator::from_token(Token::Num);
        out.values = val_to_add;
        out
    }

    /// The fresh operator for a token (see `token_view`).
    pub fn from_token(type_of_token: Token) -> (r: Operator)
        ensures
            r@ == token_view(type_of_token),
    {
        let arity: Arities = match type_of_token {
            Token::END | Token::SENTINEL | Token::Null | Token::OpenPar | Token::ClosePar => {
                Arities::NULLARY
            },
            Token::Num | Token::ID | Token::Sqrt | Token::Sin | Token::Cos | Token::Tan
            | Token::Log | Token::Ln => Arities::UNARY,
            Token::Add | Token::Sub | Token::Mult | Token::Div | Token::Pow => Arities::BINARY,
        };
        let precedence: u8 = match type_of_token {
            Token::SENTINEL | Token::OpenPar | Token::ClosePar => 0,
            Token::Pow | Token::Sqrt | Token::Log | Token::Ln => 1,
            Token::Sin | Token::Cos | Token::Tan => 2,
            Token::Mult | Token::Div => 3,
            Token::Add | Token::Sub => 4,
            _ => 255,
        };
        let values: Value = match type_of_token {
            Token::Num => Value::Number(Complex::new(Numeral::zero(), Numeral::zero())),
            _ => match arity {
                Arities::BINARY => {
                    let mut v: Vec<Operator> = Vec::new();
                    v.push(Operator::new());
                    v.push(Operator::new());
                    proof {
                        lemma_views_of(v@);
                        assert(views_of(v@) =~= seq![default_view(), default_view()]);
                    }
                    Value::Op(OpVec(v))
                },
                Arities::UNARY => {
                    let mut v: Vec<Operator> = Vec::new();
                    v.push(Operator::new());
                    proof {
                        lemma_views_of(v@);
                        assert(views_of(v@) =~= seq![default_view()]);
                    }
                    Value::Op(OpVec(v))
                },
                _ => Operator::new().values,
            },
        };
        let symbol: String = match type_of_token {
            Token::Add => text("+"),
            Token::Sub => text("-"),
            Token::Mult => text("*"),
            Token::Div => text("/"),
            Token::Sqrt => text("sqrt"),
            Token::Pow => text("^"),
            Token::Sin => text("sin"),
            Token::Cos => text("cos"),
            Token::Tan => text("tan"),
            Token::Log => text("log"),
            Token::Ln => text("ln"),
            Token::OpenPar => text("("),
            Token::ClosePar => text(")"),
            Token::END => text("END"),
            _ => String::new(),
        };
        Operator {
            arity,
            token_type: type_of_token,
            precedence,
            values,
            symbol,
            katex_repr: String::new(),
            symbol_from_value: false,
        }
    }
}


/// An operator tree that every tree operation can walk: every node other than
/// a number or a name holds as many operands as its arity asks for.
pub open spec fn well_formed(op: OperatorView) -> bool
    decreases op,
{
    match op.token_type {
        Token::Num | Token::ID => true,
        _ => match op.arity {
            Arities::BINARY => match op.values {
                ValueView::Op(s) => s.len() >= 2 && well_formed(s[0]) && well_formed(s[1]),
                _ => false,
            },
            Arities::UNARY => match op.values {
                ValueView::Op(s) => s.len() >= 1 && well_formed(s[0]),
                _ => false,
            },
            Arities::NULLARY => true,
        },
    }
}

/// Whether the tree reads no variable: numbers are constant, names are not,
/// and an operator is constant when its operands are.
pub open spec fn is_constant_of(op: OperatorView) -> bool
    decreases op,
{
    match op.token_type {
        Token::Num => true,
        Token::ID => false,
        _ => match op.arity {
            Arities::BINARY => match op.values {
                ValueView::Op(s) => s.len() >= 2 && is_constant_of(s[0]) && is_constant_of(s[1]),
                _ => false,
            },
            Arities::UNARY => match op.values {
                ValueView::Op(s) => s.len() >= 1 && is_constant_of(s[0]),
                _ => false,
            },
            Arities::NULLARY => true,
        },
    }
}

/// The names the tree reads, from left to right, with repetitions.
pub open spec fn dependencies_of(op: OperatorView) -> Seq<Seq<char>>
    decreases op,
{
    match op.token_type {
        Token::Num => Seq::empty(),
        Token::ID => seq![op.symbol],
        _ => match op.arity {
            Arities::BINARY => match op.values {
                ValueView::Op(s) => if s.len() >= 2 {
                    dependencies_of(s[0]) + dependencies_of(s[1])
                } else {
                    Seq::empty()
                },
                _ => Seq::empty(),
            },
            Arities::UNARY => match op.values {
                ValueView::Op(s) => if s.len() >= 1 {
                    dependencies_of(s[0])
                } else {
                    Seq::empty()
                },
                _ => Seq::empty(),
            },
            Arities::NULLARY => Seq::empty(),
        },
    }
}

/// The number operator holding the complex number `re + im i`.
pub open spec fn complex_constant(re: Seq<char>, im: Seq<char>) -> OperatorView {
    number_view(
        ValueView::Number(
            ComplexView {
                re: NumeralView { negative: false, text: re },
                im: NumeralView { negative: false, text: im },
            },
        ),
    )
}

/// The predefined constants: the imaginary unit `i`, `pi`, `e` and the golden
/// ratio `phi`, each written as the shortest decimal that reads back as the
/// double-precision value of the constant.
pub open spec fn constant_named(name: Seq<char>) -> Option<OperatorView> {
    if name == "i"@ {
        Some(complex_constant("0"@, "1"@))
    } else if name == "pi"@ {
        Some(complex_constant("3.141592653589793"@, "0"@))
    } else if name == "e"@ {
        Some(complex_constant("2.718281828459045"@, "0"@))
    } else if name == "phi"@ {
        Some(complex_constant("1.618033988749895"@, "0"@))
    } else {
        None
    }
}

/// The tree with every name replaced by its value in `map`, or else by the
/// predefined constant of that name; other names stay.
pub open spec fn flatten_of(op: OperatorView, map: Map<Seq<char>, OperatorView>) -> OperatorView
    decreases op,
{
    match op.token_type {
        Token::Num => op,
        Token::ID => match lookup(map, op.symbol) {
            Some(v) => v,
            None => match constant_named(op.symbol) {
                Some(c) => c,
                None => op,
            },
        },
        _ => match op.arity {
            Arities::BINARY => match op.values {
                ValueView::Op(s) => if s.len() >= 2 {
                    OperatorView {
                        values: ValueView::Op(
                            s.update(0, flatten_of(s[0], map)).update(1, flatten_of(s[1], map)),
                        ),
                        ..op
                    }
                } else {
                    op
                },
                _ => op,
            },
            Arities::UNARY => match op.values {
                ValueView::Op(s) => if s.len() >= 1 {
                    OperatorView { values: ValueView::Op(s.update(0, flatten_of(s[0], map))), ..op }
                } else {
                    op
                },
                _ => op,
            },
            Arities::NULLARY => op,
        },
    }
}

/// The strings of a sequence, as character sequences.
pub open spec fn strings_view(v: Seq<String>) -> Seq<Seq<char>> {
    v.map_values(|s: String| s@)
}

/// The operator for a complex constant.
fn complex_operator(re: &str, im: &str) -> (r: Operator)
    ensures
        r@ == complex_constant(re@, im@),
{
    Operator::from_value(
        Value::Number(
            Complex::new(
                Numeral { negative: false, text: text(re) },
                Numeral { negative: false, text: text(im) },
            ),
        ),
    )
}

/// The predefined constant named `name`, if there is one.
pub fn constant(name: &String) -> (r: Option<Operator>)
    ensures
        match r {
            Some(op) => constant_named(name@) == Some(op@),
            None => constant_named(name@) is None,
        },
{
    let cs = crate::text::chars_of(name.as_str());
    if crate::token::is_named(&cs, "i") {
        Some(complex_operator("0", "1"))
    } else if crate::token::is_named(&cs, "pi") {
        Some(complex_operator("3.141592653589793", "0"))
    } else if crate::token::is_named(&cs, "e") {
        Some(complex_operator("2.718281828459045", "0"))
    } else if crate::token::is_named(&cs, "phi") {
        Some(complex_operator("1.618033988749895", "0"))
    } else {
        None
    }
}

impl Operator {
    /// Whether this tree has the operands that every tree operation needs
    /// (see `well_formed`).
    pub fn is_well_formed(&self) -> (r: bool)
        ensures
            r == well_formed(self@),
        decreases self,
    {
        match self.token_type {
            Token::Num | Token::ID => true,
            _ => match self.arity {
                Arities::BINARY => match &self.values {
                    Value::Op(ov) => {
                        proof { lemma_views_of(ov.0@); }
                        if ov.0.len() < 2 {
                            false
                        } else {
                            proof {
                                assert(decreases_to!(self => ov.0[0]));
                                assert(decreases_to!(self => ov.0[1]));
                            }
                            ov.0[0].is_well_formed() && ov.0[1].is_well_formed()
                        }
                    },
                    _ => false,
                },
                Arities::UNARY => match &self.values {
                    Value::Op(ov) => {
                        proof { lemma_views_of(ov.0@); }
                        if ov.0.len() < 1 {
                            false
                        } else {
                            proof { assert(decreases_to!(self => ov.0[0])); }
                            ov.0[0].is_well_formed()
                        }
                    },
                    _ => false,
                },
                Arities::NULLARY => true,
            },
        }
    }

    /// Whether this tree reads no variable (see `is_constant_of`).
    pub fn is_constant(&self) -> (r: bool)
        requires
            well_formed(self@),
        ensures
            r == is_constant_of(self@),
        decreases self,
    {
        match self.token_type {
            Token::Num => true,
            Token::ID => false,
            _ => match self.arity {
                Arities::BINARY => match &self.values {
                    Value::Op(ov) => {
                        proof {
                            lemma_views_of(ov.0@);
                            assert(decreases_to!(self => ov.0[0]));
                            assert(decreases_to!(self => ov.0[1]));
                        }
                        let a = ov.0[0].is_constant();
                        let b = ov.0[1].is_constant();
                        a && b
                    },
                    _ => false,
                },
                Arities::UNARY => match &self.values {
                    Value::Op(ov) => {
                        proof {
                            lemma_views_of(ov.0@);
                            assert(decreases_to!(self => ov.0[0]));
                        }
                        ov.0[0].is_constant()
                    },
                    _ => false,
                },
                _ => true,
            },
        }
    }

    /// The names this tree reads (see `dependencies_of`).
    pub fn dependencies(&self) -> (r: Vec<String>)
        requires
            well_formed(self@),
        ensures
            strings_view(r@) == dependencies_of(self@),
        decreases self,
    {
        let mut out: Vec<String> = Vec::new();
        match self.token_type {
            Token::Num => {
                assert(strings_view(out@) =~= Seq::<Seq<char>>::empty());
                out
            },
            Token::ID => {
                out.push(self.symbol.clone());
                assert(strings_view(out@) =~= seq![self.symbol@]);
                out
            },
            _ => match self.arity {
                Arities::BINARY => match &self.values {
                    Value::Op(ov) => {
                        proof {
                            lemma_views_of(ov.0@);
                            assert(decreases_to!(self => ov.0[0]));
                            assert(decreases_to!(self => ov.0[1]));
                        }
                        let mut left = ov.0[0].dependencies();
                        let mut right = ov.0[1].dependencies();
                        let ghost l = left@;
                        let ghost r = right@;
                        out.append(&mut left);
                        out.append(&mut right);
                        assert(strings_view(out@) =~= strings_view(l) + strings_view(r));
                        out
                    },
                    _ => {
                        assert(strings_view(out@) =~= Seq::<Seq<char>>::empty());
                        out
                    },
                },
                Arities::UNARY => match &self.values {
                    Value::Op(ov) => {
                        proof {
                            lemma_views_of(ov.0@);
                            assert(decreases_to!(self => ov.0[0]));
                        }
                        let mut inner = ov.0[0].dependencies();
                        let ghost l = inner@;
                        out.append(&mut inner);
                        assert(strings_view(out@) =~= strings_view(l));
                        out
                    },
                    _ => {
                        assert(strings_view(out@) =~= Seq::<Seq<char>>::empty());
                        out
                    },
                },
                _ => {
                    assert(strings_view(out@) =~= Seq::<Seq<char>>::empty());
                    out
                },
            },
        }
    }

    /// This tree with its names replaced by their values (see `flatten_of`).
    pub fn flatten(&self, map: &VarMap) -> (r: Operator)
        requires
            well_formed(self@),
        ensures
            r@ == flatten_of(self@, map@),
        decreases self,
    {
        match self.token_type {
            Token::Num => self.clone(),
            Token::ID => {
                if let Some(mapped_var) = map.get(&self.symbol) {
                    mapped_var
                } else if let Some(c) = constant(&self.symbol) {
                    c
                } else {
                    self.clone()
                }
            },
            _ => match self.arity {
                Arities::BINARY => match &self.values {
                    Value::Op(ov) => {
                        proof {
                            lemma_views_of(ov.0@);
                            assert(decreases_to!(self => ov.0[0]));
                            assert(decreases_to!(self => ov.0[1]));
                        }
                        let a = ov.0[0].flatten(map);
                        let b = ov.0[1].flatten(map);
                        let mut out = self.clone();
                        out.values.set_index(0, a);
                        out.values.set_index(1, b);
                        out
                    },
                    _ => self.clone(),
                },
                Arities::UNARY => match &self.values {
                    Value::Op(ov) => {
                        proof {
                            lemma_views_of(ov.0@);
                            assert(decreases_to!(self => ov.0[0]));
                        }
                        let a = ov.0[0].flatten(map);
                        let mut out = self.clone();
                        out.values.set_index(0, a);
                        out
                    },
                    _ => self.clone(),
                },
                _ => self.clone(),
            },
        }
    }
}

} // verus!
