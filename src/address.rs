use vstd::prelude::*;

verus! {

/// A slot of a place: the place's id and a position in its signature.
#[derive(Clone, Copy, Debug, PartialEq, Eq, Structural, Hash)]
pub struct Address {
    pub index: usize,
    pub place_id: u128,
}

} // verus!
