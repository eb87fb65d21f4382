//! Definitions the user enters: constants, points and functions of a variable.
use vstd::prelude::*;
use crate::operator::{Operator, flatten_of, well_formed};
use crate::value::Value;
use crate::var_map::VarMap;

verus! {

/// A user definition: a constant value, a point, or a function given by an
/// operator tree.
pub enum Function {
    Constant(Value),
    Point(Value, Value),
    Variable(Operator),
}

impl Function {
    /// The tree of a function with the given variables replaced by their values
    /// (see `flatten_of`); `None` for constants and points.
    pub fn flatten(&self, map: &VarMap) -> (r: Option<Operator>)
        requires
            self matches Function::Variable(f) ==> well_formed(f@),
        ensures
            match self {
                Function::Variable(f) => r matches Some(o) && o@ == flatten_of(f@, map@),
                _ => r is None,
            },
    {
        match self {
            Function::Variable(function) => Some(function.flatten(map)),
            _ => None,
        }
    }
}

} // verus!
