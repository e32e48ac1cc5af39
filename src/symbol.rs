use vstd::prelude::*;

verus! {

/// A binding key: the name by which a guard refers to a bound clade.
#[derive(Debug, Hash)]
pub struct Symbol(pub String);

impl Symbol {
    pub fn new(name: String) -> (r: Symbol)
        ensures
            r.0@ == name@,
    {
        Symbol(name)
    }
}

impl Clone for Symbol {
    fn clone(&self) -> (r: Self)
        ensures
            r.0@ == self.0@,
    {
        Symbol(self.0.clone())
    }
}

impl PartialEq for Symbol {
    fn eq(&self, other: &Self) -> (r: bool) {
        self.0 == other.0
    }
}

impl Eq for Symbol {

}

impl vstd::std_specs::cmp::PartialEqSpecImpl for Symbol {
    open spec fn obeys_eq_spec() -> bool {
        true
    }

    open spec fn eq_spec(&self, other: &Symbol) -> bool {
        self.0@ == other.0@
    }
}

} // verus!
