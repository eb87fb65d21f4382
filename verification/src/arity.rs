//! How many operands an operator takes.
use vstd::prelude::*;

verus! {

/// The number of operands of an operator: two, one, or none.
#[derive(Clone, Copy, PartialEq, Eq, Structural, Debug, Hash)]
pub enum Arities {
    BINARY,
    UNARY,
    NULLARY,
}

impl Default for Arities {
    fn default() -> (a: Arities)
        ensures
            a == Arities::BINARY,
    {
        Arities::BINARY
    }
}

} // verus!
