use vstd::prelude::*;

use crate::clade::Taxon;
use crate::function::Function;
use crate::guard::{keys, names, Guard};
use crate::id::fresh_id;
use crate::signature::Signature;
use crate::symbol::Symbol;
use std::collections::HashMap;
use vstd::std_specs::iter::IteratorSpec;

verus! {

broadcast use vstd::std_specs::hash::group_hash_axioms;

/// Whether some slot of `sig` holds a clade named `k`.
pub open spec fn names_slot(sig: Seq<Taxon>, k: Seq<char>) -> bool {
    exists|j: int| 0 <= j < sig.len() && (#[trigger] sig[j]).name() == k
}

/// Whether the key `k` names a slot of one of the input signatures.
pub open spec fn resolvable(input: Map<u128, Signature>, k: Seq<char>) -> bool {
    exists|p: u128| input.contains_key(p) && names_slot((#[trigger] input[p])@, k)
}

/// Whether every key of `ks` names a slot of one of the input signatures.
pub open spec fn all_resolvable(input: Map<u128, Signature>, ks: Seq<Seq<char>>) -> bool {
    forall|i: int| 0 <= i < ks.len() ==> resolvable(input, #[trigger] ks[i])
}

/// A transition between places: what it consumes from each input place, what
/// it produces in each output place, and the guard on what it may consume.
#[derive(Debug)]
pub struct Transition {
    pub id: u128,
    pub name: String,
    /// The signature consumed from each input place, by place id.
    pub input: HashMap<u128, Signature>,
    /// The signature produced in each output place, by place id.
    pub output: HashMap<u128, Signature>,
    pub guard: Guard,
    pub function: Function,
}

/// Whether some slot of `sig` holds a clade named `key`.
fn slot_named(sig: &Signature, key: &Symbol) -> (r: bool)
    ensures
        r == names_slot(sig@, key.0@),
{
    proof {
        crate::clade::lemma_forest_view(sig.clades@);
    }
    let n = sig.clades.len();
    let mut j: usize = 0;
    while j < n
        invariant
            j <= n,
            n == sig.clades.len(),
            sig@.len() == n,
            forall|i: int| 0 <= i < n ==> #[trigger] sig@[i] == sig.clades@[i]@,
            forall|i: int| 0 <= i < j ==> (#[trigger] sig@[i]).name() != key.0@,
        decreases n - j,
    {
        let nm = sig.clades[j].name();
        if nm == key.0 {
            assert(sig@[j as int].name() == key.0@);
            return true;
        }
        j = j + 1;
    }
    false
}

/// Whether `key` names a slot of one of the input signatures.
fn resolves(input: &HashMap<u128, Signature>, key: &Symbol) -> (r: bool)
    ensures
        r == resolvable(input@, key.0@),
{
    proof {
        let vals = input.values().remaining().unref();
        assert(vals.to_set() == input@.values());
        assert forall|p: u128| #[trigger] input@.contains_key(p) implies exists|j: int|
            0 <= j < vals.len() && vals[j] == input@[p] by {
            assert(input@.values().contains(input@[p]));
            assert(vals.to_set().contains(input@[p]));
        }
    }
    for sig in it: input.values()
        invariant
            forall|p: u128|
                #[trigger] input@.contains_key(p) && names_slot(input@[p]@, key.0@) ==> exists|j: int|
                    it.index() <= j < it.seq().len() && *it.seq()[j] == input@[p],
    {
        if slot_named(sig, key) {
            proof {
                let vals = input.values().remaining().unref();
                assert(vals.to_set() == input@.values());
                assert(it.seq().unref() == vals);
                assert(*sig == vals[it.index()]);
                assert(vals.contains(*sig));
                assert(vals.to_set().contains(*sig));
                assert(input@.values().contains(*sig));
                let p = choose|p: u128| input@.contains_key(p) && input@[p] == *sig;
                assert(input@.contains_key(p) && names_slot(input@[p]@, key.0@));
            }
            return true;
        }
    }
    false
}

/// The first key of `guard` that names no slot of the input signatures, if any.
pub fn unresolved_key(guard: &Guard, input: &HashMap<u128, Signature>) -> (r: Option<Symbol>)
    ensures
        match r {
            Some(k) => keys(*guard).contains(k.0@) && !resolvable(input@, k.0@),
            None => all_resolvable(input@, keys(*guard)),
        },
{
    let ks = guard.symbols();
    let n = ks.len();
    let mut i: usize = 0;
    while i < n
        invariant
            i <= n,
            n == ks.len(),
            names(ks@) == keys(*guard),
            forall|j: int| 0 <= j < i ==> resolvable(input@, (#[trigger] ks@[j]).0@),
        decreases n - i,
    {
        if !resolves(input, &ks[i]) {
            assert(names(ks@)[i as int] == ks@[i as int].0@);
            return Some(ks[i].clone());
        }
        i = i + 1;
    }
    proof {
        assert forall|j: int| 0 <= j < keys(*guard).len() implies resolvable(
            input@,
            #[trigger] keys(*guard)[j],
        ) by {
            assert(names(ks@)[j] == ks@[j].0@);
        }
    }
    None
}

impl Transition {
    /// Builds a transition. A guard is kept only when an input is given and
    /// every key of the guard names a slot of one of its signatures; in every
    /// other case the guard is `Empty`. The function is kept only when an
    /// output is given. The id is fresh.
    pub fn new(
        name: String,
        input: Option<HashMap<u128, Signature>>,
        output: Option<HashMap<u128, Signature>>,
        guard: Option<Guard>,
        function: Option<Function>,
    ) -> (r: Self)
        ensures
            r.name@ == name@,
            match input {
                Some(i) => r.input@ == i@,
                None => r.input@ == Map::<u128, Signature>::empty(),
            },
            match output {
                Some(o) => r.output@ == o@,
                None => r.output@ == Map::<u128, Signature>::empty(),
            },
            match (input, guard) {
                (Some(i), Some(g)) => if all_resolvable(i@, keys(g)) {
                    r.guard == g
                } else {
                    r.guard is Empty
                },
                _ => r.guard is Empty,
            },
            (output is Some && function is Some) ==> r.function == function->0,
    {
        let mut final_guard = Guard::Empty;
        let final_input = match input {
            Some(i) => {
                match guard {
                    Some(g) => {
                        let unresolved = unresolved_key(&g, &i);
                        if unresolved.is_none() {
                            final_guard = g;
                        }
                    },
                    None => {},
                }
                i
            },
            None => HashMap::new(),
        };
        let (final_output, final_function) = match output {
            Some(o) => match function {
                Some(f) => (o, f),
                None => (o, Function::new()),
            },
            None => (HashMap::new(), Function::new()),
        };
        Transition {
            id: fresh_id(),
            name,
            input: final_input,
            output: final_output,
            guard: final_guard,
            function: final_function,
        }
    }
}

} // verus!
