use vstd::prelude::*;

use crate::clade::Clade;
use crate::id::fresh_id;

verus! {

/// A token of a net, typed by a clade.
#[derive(Debug)]
pub struct Token {
    pub id: u128,
    pub name: String,
    pub clade: Clade,
}

impl Token {
    /// A token with a fresh id.
    pub fn new(name: String, clade: Clade) -> (r: Self)
        ensures
            r.name@ == name@,
            r.clade == clade,
    {
        Token { id: fresh_id(), name, clade }
    }
}

impl Clone for Token {
    fn clone(&self) -> (r: Self)
        ensures
            r.id == self.id,
            r.name@ == self.name@,
            r.clade@ == self.clade@,
    {
        Token { id: self.id, name: self.name.clone(), clade: self.clade.clone() }
    }
}

} // verus!
