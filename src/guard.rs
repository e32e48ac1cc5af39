use vstd::prelude::*;

use crate::binding::Binding;
use crate::clade::{taxon_cmp, Clade, Taxon};
use crate::symbol::Symbol;
use std::cmp::Ordering;

verus! {

broadcast use vstd::std_specs::vec::group_vec_axioms;

/// A predicate over a binding of keys to clades.
#[derive(Debug)]
pub enum Guard {
    Is(Symbol, Clade),
    GreaterThan(Symbol, Clade),
    LessThan(Symbol, Clade),
    GreaterThanOrEqual(Symbol, Clade),
    LessThanOrEqual(Symbol, Clade),
    Not(Symbol, Clade),
    All(Vec<Guard>),
    Any(Vec<Guard>),
    NoneOf(Vec<Guard>),
    Empty,
}

/// Whether key `k` is bound in `b` to a taxon that stands in relation `rel`
/// to `c`; false when `k` is not bound.
pub open spec fn bound_and(
    b: Map<Seq<char>, Taxon>,
    k: Seq<char>,
    rel: spec_fn(Taxon) -> bool,
) -> bool {
    b.contains_key(k) && rel(b[k])
}

/// What a guard says of binding `b`.
pub open spec fn holds(g: Guard, b: Map<Seq<char>, Taxon>) -> bool
    decreases g, 0nat,
{
    match g {
        Guard::Is(k, c) => bound_and(b, k.0@, |t: Taxon| t.id() == c@.id()),
        Guard::GreaterThan(k, c) => bound_and(
            b,
            k.0@,
            |t: Taxon| taxon_cmp(t, c@) == Some(Ordering::Greater),
        ),
        Guard::LessThan(k, c) => bound_and(
            b,
            k.0@,
            |t: Taxon| taxon_cmp(t, c@) == Some(Ordering::Less),
        ),
        Guard::GreaterThanOrEqual(k, c) => bound_and(
            b,
            k.0@,
            |t: Taxon| taxon_cmp(t, c@) matches Some(Ordering::Greater | Ordering::Equal),
        ),
        Guard::LessThanOrEqual(k, c) => bound_and(
            b,
            k.0@,
            |t: Taxon| taxon_cmp(t, c@) matches Some(Ordering::Less | Ordering::Equal),
        ),
        Guard::Not(k, c) => bound_and(b, k.0@, |t: Taxon| t.id() != c@.id()),
        Guard::All(gs) => all_from(gs@, 0, b),
        Guard::Any(gs) => any_from(gs@, 0, b),
        Guard::NoneOf(gs) => !any_from(gs@, 0, b),
        Guard::Empty => true,
    }
}

/// Whether every guard of `s[i..]` holds of `b`.
pub open spec fn all_from(s: Seq<Guard>, i: int, b: Map<Seq<char>, Taxon>) -> bool
    decreases s, s.len() - i,
{
    if 0 <= i < s.len() {
        holds(s[i], b) && all_from(s, i + 1, b)
    } else {
        true
    }
}

/// Whether some guard of `s[i..]` holds of `b`.
pub open spec fn any_from(s: Seq<Guard>, i: int, b: Map<Seq<char>, Taxon>) -> bool
    decreases s, s.len() - i,
{
    if 0 <= i < s.len() {
        holds(s[i], b) || any_from(s, i + 1, b)
    } else {
        false
    }
}

/// The keys of a guard's leaves, in pre-order, repeats kept.
pub open spec fn keys(g: Guard) -> Seq<Seq<char>>
    decreases g, 0nat,
{
    match g {
        Guard::Is(k, _) => seq![k.0@],
        Guard::GreaterThan(k, _) => seq![k.0@],
        Guard::LessThan(k, _) => seq![k.0@],
        Guard::GreaterThanOrEqual(k, _) => seq![k.0@],
        Guard::LessThanOrEqual(k, _) => seq![k.0@],
        Guard::Not(k, _) => seq![k.0@],
        Guard::All(gs) => keys_from(gs@, 0),
        Guard::Any(gs) => keys_from(gs@, 0),
        Guard::NoneOf(gs) => keys_from(gs@, 0),
        Guard::Empty => Seq::empty(),
    }
}

/// The keys of the guards `s[i..]`, one after another.
pub open spec fn keys_from(s: Seq<Guard>, i: int) -> Seq<Seq<char>>
    decreases s, s.len() - i,
{
    if 0 <= i < s.len() {
        keys(s[i]) + keys_from(s, i + 1)
    } else {
        Seq::empty()
    }
}

/// The names of a sequence of symbols.
pub open spec fn names(s: Seq<Symbol>) -> Seq<Seq<char>> {
    s.map_values(|y: Symbol| y.0@)
}

/// `Empty` holds of every binding, the empty one included.
pub proof fn lemma_empty_holds(b: Map<Seq<char>, Taxon>)
    ensures
        holds(Guard::Empty, b),
        holds(Guard::Empty, Map::empty()),
{
}

/// A leaf whose key is not bound is false.
pub proof fn lemma_unbound_leaf_fails(g: Guard, b: Map<Seq<char>, Taxon>)
    requires
        !(g is All || g is Any || g is NoneOf || g is Empty),
        !b.contains_key(keys(g)[0]),
    ensures
        !holds(g, b),
{
}

/// Of no guards, `All` holds, `Any` fails and `NoneOf` holds.
pub proof fn lemma_empty_combinators(gs: Vec<Guard>, b: Map<Seq<char>, Taxon>)
    requires
        gs@.len() == 0,
    ensures
        holds(Guard::All(gs), b),
        !holds(Guard::Any(gs), b),
        holds(Guard::NoneOf(gs), b),
{
}

/// Evaluates a leaf guard against `candidates`.
fn eval_leaf(guard: &Guard, candidates: &Binding) -> (r: bool)
    requires
        !(guard is All || guard is Any || guard is NoneOf || guard is Empty),
    ensures
        r == holds(*guard, candidates@),
{
    match guard {
        Guard::Is(symbol, clade) => match candidates.get(symbol) {
            Some(c) => c.eq(clade),
            None => false,
        },
        Guard::GreaterThan(symbol, clade) => match candidates.get(symbol) {
            Some(c) => c.gt(clade),
            None => false,
        },
        Guard::LessThan(symbol, clade) => match candidates.get(symbol) {
            Some(c) => c.lt(clade),
            None => false,
        },
        Guard::GreaterThanOrEqual(symbol, clade) => match candidates.get(symbol) {
            Some(c) => c.ge(clade),
            None => false,
        },
        Guard::LessThanOrEqual(symbol, clade) => match candidates.get(symbol) {
            Some(c) => c.le(clade),
            None => false,
        },
        Guard::Not(symbol, clade) => match candidates.get(symbol) {
            Some(c) => c.ne(clade),
            None => false,
        },
        _ => false,
    }
}

impl Guard {
    /// Whether the guard holds of `candidates`. A leaf whose key is unbound
    /// is false; `All` of nothing is true, `Any` of nothing false, `NoneOf` of
    /// nothing true; `Empty` is always true.
    pub fn eval(&self, candidates: &Binding) -> (r: bool)
        ensures
            r == holds(*self, candidates@),
        decreases self,
    {
        match self {
            Guard::All(guards) => {
                let n = guards.len();
                let mut i: usize = 0;
                while i < n
                    invariant
                        i <= n,
                        n == guards.len(),
                        *self is All,
                        self->All_0 == *guards,
                        all_from(guards@, 0, candidates@) == all_from(guards@, i as int, candidates@),
                    decreases n - i,
                {
                    let g: &Guard = &guards[i];
                    proof {
                        assert(decreases_to!(*self => *guards));
                        assert(decreases_to!(guards => guards@));
                        assert(decreases_to!(guards@ => guards@[i as int]));
                    }
                    if !g.eval(candidates) {
                        return false;
                    }
                    i = i + 1;
                }
                true
            },
            Guard::Any(guards) => {
                let n = guards.len();
                let mut i: usize = 0;
                while i < n
                    invariant
                        i <= n,
                        n == guards.len(),
                        *self is Any,
                        self->Any_0 == *guards,
                        any_from(guards@, 0, candidates@) == any_from(guards@, i as int, candidates@),
                    decreases n - i,
                {
                    let g: &Guard = &guards[i];
                    proof {
                        assert(decreases_to!(*self => *guards));
                        assert(decreases_to!(guards => guards@));
                        assert(decreases_to!(guards@ => guards@[i as int]));
                    }
                    if g.eval(candidates) {
                        return true;
                    }
                    i = i + 1;
                }
                false
            },
            Guard::NoneOf(guards) => {
                let n = guards.len();
                let mut i: usize = 0;
                while i < n
                    invariant
                        i <= n,
                        n == guards.len(),
                        *self is NoneOf,
                        self->NoneOf_0 == *guards,
                        any_from(guards@, 0, candidates@) == any_from(guards@, i as int, candidates@),
                    decreases n - i,
                {
                    let g: &Guard = &guards[i];
                    proof {
                        assert(decreases_to!(*self => *guards));
                        assert(decreases_to!(guards => guards@));
                        assert(decreases_to!(guards@ => guards@[i as int]));
                    }
                    if g.eval(candidates) {
                        return false;
                    }
                    i = i + 1;
                }
                true
            },
            Guard::Empty => true,
            _ => eval_leaf(self, candidates),
        }
    }

    /// The keys of the guard's leaves, in pre-order, repeats kept.
    pub fn symbols(&self) -> (r: Vec<Symbol>)
        ensures
            names(r@) == keys(*self),
        decreases self,
    {
        match self {
            Guard::Is(symbol, _) | Guard::GreaterThan(symbol, _) | Guard::LessThan(symbol, _)
            | Guard::GreaterThanOrEqual(symbol, _) | Guard::LessThanOrEqual(symbol, _)
            | Guard::Not(symbol, _) => {
                let r = vec![symbol.clone()];
                assert(names(r@) =~= keys(*self));
                r
            },
            Guard::All(guards) | Guard::Any(guards) | Guard::NoneOf(guards) => {
                let mut out: Vec<Symbol> = Vec::new();
                let n = guards.len();
                let mut i: usize = 0;
                proof {
                    assert(names(out@) =~= Seq::<Seq<char>>::empty());
                    assert(keys(*self) == keys_from(guards@, 0));
                    assert(keys_from(guards@, 0) =~= names(out@) + keys_from(guards@, 0));
                }
                while i < n
                    invariant
                        i <= n,
                        n == guards.len(),
                        *self is All || *self is Any || *self is NoneOf,
                        keys(*self) == keys_from(guards@, 0),
                        *self is All ==> self->All_0 == *guards,
                        *self is Any ==> self->Any_0 == *guards,
                        *self is NoneOf ==> self->NoneOf_0 == *guards,
                        keys_from(guards@, 0) == names(out@) + keys_from(guards@, i as int),
                    decreases n - i,
                {
                    let g: &Guard = &guards[i];
                    proof {
                        assert(decreases_to!(*self => *guards));
                        assert(decreases_to!(guards => guards@));
                        assert(decreases_to!(guards@ => guards@[i as int]));
                    }
                    let mut ks = g.symbols();
                    let ghost before = out@;
                    let ghost added = ks@;
                    out.append(&mut ks);
                    proof {
                        assert(out@ == before + added);
                        assert(names(out@) =~= names(before) + names(added));
                        assert(keys_from(guards@, i as int) == keys(guards@[i as int])
                            + keys_from(guards@, i + 1));
                        assert(names(before) + keys_from(guards@, i as int) =~= names(out@)
                            + keys_from(guards@, i + 1));
                    }
                    i = i + 1;
                }
                assert(names(out@) =~= keys(*self));
                out
            },
            Guard::Empty => {
                let r: Vec<Symbol> = Vec::new();
                assert(names(r@) =~= keys(*self));
                r
            },
        }
    }
}

impl Default for Guard {
    fn default() -> (r: Self)
        ensures
            r is Empty,
    {
        Guard::Empty
    }
}

} // verus!
