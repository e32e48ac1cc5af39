use vstd::prelude::*;

use crate::id::fresh_id;

verus! {

/// A place of a net.
#[derive(Debug)]
pub struct Place {
    pub id: u128,
    pub name: String,
}

impl Place {
    /// A place with a fresh id.
    pub fn new(name: String) -> (r: Self)
        ensures
            r.name@ == name@,
    {
        Place { id: fresh_id(), name }
    }
}

impl Clone for Place {
    fn clone(&self) -> (r: Self)
        ensures
            r.id == self.id,
            r.name@ == self.name@,
    {
        Place { id: self.id, name: self.name.clone() }
    }
}

} // verus!
