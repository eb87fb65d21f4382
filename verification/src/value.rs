//! The payload of an operator: its operands, or the number it stands for.
use vstd::prelude::*;
use crate::op_vec::OpVec;
use crate::operator::{Operator, OperatorView};

verus! {

/// A real number written as decimal text: the value of `text` read as a
/// floating-point literal, negated when `negative` is set.
pub struct Numeral {
    pub negative: bool,
    pub text: String,
}

/// What a `Numeral` stands for.
pub struct NumeralView {
    pub negative: bool,
    pub text: Seq<char>,
}

impl View for Numeral {
    type V = NumeralView;

    open spec fn view(&self) -> NumeralView {
        NumeralView { negative: self.negative, text: self.text@ }
    }
}

/// The numeral for zero.
pub open spec fn zero_view() -> NumeralView {
    NumeralView { negative: false, text: "0"@ }
}

/// The numeral for one.
pub open spec fn one_view() -> NumeralView {
    NumeralView { negative: false, text: "1"@ }
}

/// The numeral for the negation of `n`.
pub open spec fn negated_view(n: NumeralView) -> NumeralView {
    NumeralView { negative: !n.negative, text: n.text }
}

impl Numeral {
    /// Zero.
    pub fn zero() -> (r: Numeral)
        ensures
            r@ == zero_view(),
    {
        Numeral { negative: false, text: String::from_str("0") }
    }

    /// One.
    pub fn one() -> (r: Numeral)
        ensures
            r@ == one_view(),
    {
        Numeral { negative: false, text: String::from_str("1") }
    }

    /// The negation of this number.
    pub fn negated(&self) -> (r: Numeral)
        ensures
            r@ == negated_view(self@),
    {
        Numeral { negative: !self.negative, text: self.text.clone() }
    }
}

impl Clone for Numeral {
    fn clone(&self) -> (r: Self)
        ensures
            r@ == self@,
    {
        Numeral { negative: self.negative, text: self.text.clone() }
    }
}

/// A complex number given by its real and imaginary parts.
pub struct Complex {
    pub re: Numeral,
    pub im: Numeral,
}

/// What a `Complex` stands for.
pub struct ComplexView {
    pub re: NumeralView,
    pub im: NumeralView,
}

impl View for Complex {
    type V = ComplexView;

    open spec fn view(&self) -> ComplexView {
        ComplexView { re: self.re@, im: self.im@ }
    }
}

impl Clone for Complex {
    fn clone(&self) -> (r: Self)
        ensures
            r@ == self@,
    {
        Complex { re: self.re.clone(), im: self.im.clone() }
    }
}

impl Complex {
    /// The complex number `re + im i`.
    pub fn new(re: Numeral, im: Numeral) -> (r: Complex)
        ensures
            r@ == (ComplexView { re: re@, im: im@ }),
    {
        Complex { re, im }
    }
}

/// The payload of an operator: its operands, or a complex, real or imaginary
/// number.
pub enum Value {
    Op(OpVec),
    Number(Complex),
    Real(Numeral),
    Imag(Numeral),
}

/// What a `Value` stands for.
pub enum ValueView {
    Op(Seq<OperatorView>),
    Number(ComplexView),
    Real(NumeralView),
    Imag(NumeralView),
}

/// The numeric kind of a value: 3 for a complex number, 1 for a real number, 2
/// for an imaginary number and 4 for operands.
pub open spec fn value_kind(v: ValueView) -> u8 {
    match v {
        ValueView::Number(_) => 3,
        ValueView::Real(_) => 1,
        ValueView::Imag(_) => 2,
        ValueView::Op(_) => 4,
    }
}

/// The value after `set_index(i, x)`: operand `i` replaced by `x`.
pub open spec fn value_with_operand(v: ValueView, i: int, x: OperatorView) -> ValueView {
    match v {
        ValueView::Op(s) => ValueView::Op(s.update(i, x)),
        _ => v,
    }
}

/// Operand `i` of a value, if it has one.
pub open spec fn operand_of(v: ValueView, i: int) -> Option<OperatorView> {
    match v {
        ValueView::Op(s) => if 0 <= i < s.len() {
            Some(s[i])
        } else {
            None
        },
        _ => None,
    }
}

impl Value {
    /// Replaces operand `i`; a number is left as it is.
    pub fn set_index(&mut self, i: usize, val: Operator)
        requires
            old(self)@ matches ValueView::Op(s) ==> i < s.len(),
        ensures
            final(self)@ == value_with_operand(old(self)@, i as int, val@),
    {
        if let Value::Op(opvector) = self {
            opvector.set(i, val);
        }
    }

    /// A copy of operand `i`, if there is one.
    pub fn get_index(&self, i: usize) -> (r: Option<Operator>)
        ensures
            match r {
                Some(op) => operand_of(self@, i as int) == Some(op@),
                None => operand_of(self@, i as int) is None,
            },
    {
        if let Value::Op(opvector) = self {
            opvector.get(i)
        } else {
            None
        }
    }

    /// The complex number, if this value is one.
    pub fn get_complex(&self) -> (r: Option<Complex>)
        ensures
            match r {
                Some(c) => self@ == ValueView::Number(c@),
                None => !(self@ is Number),
            },
    {
        if let Value::Number(number) = self {
            Some(number.clone())
        } else {
            None
        }
    }

    /// The real or imaginary number, if this value is one.
    pub fn get_num(&self) -> (r: Option<Numeral>)
        ensures
            match r {
                Some(n) => self@ == ValueView::Real(n@) || self@ == ValueView::Imag(n@),
                None => !(self@ is Real) && !(self@ is Imag),
            },
    {
        if let Value::Real(number) = self {
            Some(number.clone())
        } else if let Value::Imag(number) = self {
            Some(number.clone())
        } else {
            None
        }
    }

    /// The numeric kind of this value (see `value_kind`).
    pub fn get_type(&self) -> (r: u8)
        ensures
            r == value_kind(self@),
    {
        match self {
            Value::Number(_) => 3,
            Value::Real(_) => 1,
            Value::Imag(_) => 2,
            _ => 4,
        }
    }
}

} // verus!
