use vstd::prelude::*;

use crate::id::fresh_id;

verus! {

/// The production function of a transition, known by its id alone.
#[derive(Clone, Copy, Debug, PartialEq, Eq, Structural)]
pub struct Function {
    pub id: u128,
}

impl Function {
    /// A function with a fresh id.
    pub fn new() -> (r: Self) {
        Function { id: fresh_id() }
    }
}

} // verus!
