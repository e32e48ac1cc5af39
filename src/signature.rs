use vstd::prelude::*;

use crate::clade::{forest_view, lemma_forest_view, taxon_cmp, Clade, Taxon};
use std::cmp::Ordering;

verus! {

/// The product order of two tuples of taxa: no order when the lengths differ
/// or some slot has none; equal when every slot is equal; greater (less) when
/// every slot is greater (less) or equal; no order for any mixture.
pub open spec fn tuple_cmp(a: Seq<Taxon>, b: Seq<Taxon>) -> Option<Ordering> {
    if a.len() != b.len() {
        None
    } else if exists|i: int| 0 <= i < a.len() && (#[trigger] taxon_cmp(a[i], b[i])) is None {
        None
    } else if forall|i: int| 0 <= i < a.len() ==> #[trigger] taxon_cmp(a[i], b[i]) == Some(
        Ordering::Equal,
    ) {
        Some(Ordering::Equal)
    } else if forall|i: int| 0 <= i < a.len() ==> (#[trigger] taxon_cmp(a[i], b[i])) matches Some(
        Ordering::Greater
        | Ordering::Equal,
    ) {
        Some(Ordering::Greater)
    } else if forall|i: int| 0 <= i < a.len() ==> (#[trigger] taxon_cmp(a[i], b[i])) matches Some(
        Ordering::Less
        | Ordering::Equal,
    ) {
        Some(Ordering::Less)
    } else {
        None
    }
}

/// Tuples of different lengths are incomparable.
pub proof fn lemma_unequal_lengths_incomparable(a: Seq<Taxon>, b: Seq<Taxon>)
    requires
        a.len() != b.len(),
    ensures
        tuple_cmp(a, b) is None,
{
}

/// Tuples with an incomparable slot, or with one slot greater and another
/// less, are incomparable.
pub proof fn lemma_mixed_incomparable(a: Seq<Taxon>, b: Seq<Taxon>, i: int, j: int)
    requires
        a.len() == b.len(),
        0 <= i < a.len(),
        0 <= j < a.len(),
        taxon_cmp(a[i], b[i]) is None || (taxon_cmp(a[i], b[i]) == Some(Ordering::Greater)
            && taxon_cmp(a[j], b[j]) == Some(Ordering::Less)),
    ensures
        tuple_cmp(a, b) is None,
{
}

/// An ordered tuple of clades: the type required in each slot.
#[derive(Debug)]
pub struct Signature {
    pub clades: Vec<Clade>,
}

impl View for Signature {
    type V = Seq<Taxon>;

    open spec fn view(&self) -> Seq<Taxon> {
        forest_view(self.clades@)
    }
}

impl Signature {
    pub fn new(clades: Vec<Clade>) -> (r: Self)
        ensures
            r.clades == clades,
    {
        Signature { clades }
    }
}

impl Clone for Signature {
    fn clone(&self) -> (r: Self)
        ensures
            r@ == self@,
    {
        let mut copies: Vec<Clade> = Vec::new();
        let n = self.clades.len();
        for i in 0..n
            invariant
                n == self.clades.len(),
                copies.len() == i,
                forall|j: int| 0 <= j < i ==> (#[trigger] copies@[j])@ == self.clades@[j]@,
        {
            copies.push(self.clades[i].clone());
        }
        proof {
            lemma_forest_view(copies@);
            lemma_forest_view(self.clades@);
            assert(forest_view(copies@) =~= forest_view(self.clades@));
        }
        Signature { clades: copies }
    }
}

impl Default for Signature {
    fn default() -> (r: Self)
        ensures
            r.clades@.len() == 0,
    {
        Signature { clades: Vec::new() }
    }
}

impl PartialEq for Signature {
    /// Equal when of one length with equal clades slot by slot.
    fn eq(&self, other: &Self) -> (r: bool) {
        proof {
            lemma_forest_view(self.clades@);
            lemma_forest_view(other.clades@);
        }
        let n = self.clades.len();
        if n != other.clades.len() {
            return false;
        }
        let mut i: usize = 0;
        while i < n
            invariant
                i <= n,
                n == self.clades.len(),
                n == other.clades.len(),
                self@.len() == n,
                other@.len() == n,
                forall|j: int| 0 <= j < n ==> #[trigger] self@[j] == self.clades@[j]@,
                forall|j: int| 0 <= j < n ==> #[trigger] other@[j] == other.clades@[j]@,
                forall|j: int| 0 <= j < i ==> (#[trigger] self@[j]).id() == other@[j].id(),
            decreases n - i,
        {
            if self.clades[i].id() != other.clades[i].id() {
                assert(self@[i as int].id() != other@[i as int].id());
                return false;
            }
            i = i + 1;
        }
        true
    }
}

impl vstd::std_specs::cmp::PartialEqSpecImpl for Signature {
    open spec fn obeys_eq_spec() -> bool {
        true
    }

    open spec fn eq_spec(&self, other: &Signature) -> bool {
        &&& self@.len() == other@.len()
        &&& forall|i: int| 0 <= i < self@.len() ==> (#[trigger] self@[i]).id() == other@[i].id()
    }
}

impl PartialOrd for Signature {
    /// The product order, slot by slot, over the order of clades.
    fn partial_cmp(&self, other: &Self) -> (r: Option<Ordering>) {
        proof {
            lemma_forest_view(self.clades@);
            lemma_forest_view(other.clades@);
        }
        let n = self.clades.len();
        if n != other.clades.len() {
            return None;
        }
        let ghost a = self@;
        let ghost b = other@;
        let mut all_eq = true;
        let mut all_ge = true;
        let mut all_le = true;
        let mut i: usize = 0;
        while i < n
            invariant
                i <= n,
                n == self.clades.len(),
                n == other.clades.len(),
                a == self@,
                b == other@,
                a.len() == n,
                b.len() == n,
                forall|j: int| 0 <= j < n ==> #[trigger] a[j] == self.clades@[j]@,
                forall|j: int| 0 <= j < n ==> #[trigger] b[j] == other.clades@[j]@,
                forall|j: int| 0 <= j < i ==> !((#[trigger] taxon_cmp(a[j], b[j])) is None),
                all_eq == forall|j: int| 0 <= j < i ==> #[trigger] taxon_cmp(a[j], b[j]) == Some(
                    Ordering::Equal,
                ),
                all_ge == forall|j: int| 0 <= j < i ==> (#[trigger] taxon_cmp(a[j], b[j])) matches Some(
                    Ordering::Greater
                    | Ordering::Equal,
                ),
                all_le == forall|j: int| 0 <= j < i ==> (#[trigger] taxon_cmp(a[j], b[j])) matches Some(
                    Ordering::Less
                    | Ordering::Equal,
                ),
            decreases n - i,
        {
            let o = self.clades[i].partial_cmp(&other.clades[i]);
            match o {
                None => {
                    assert(taxon_cmp(a[i as int], b[i as int]) is None);
                    return None;
                },
                Some(Ordering::Equal) => {},
                Some(Ordering::Greater) => {
                    all_eq = false;
                    all_le = false;
                },
                Some(Ordering::Less) => {
                    all_eq = false;
                    all_ge = false;
                },
            }
            i = i + 1;
        }
        if all_eq {
            Some(Ordering::Equal)
        } else if all_ge {
            Some(Ordering::Greater)
        } else if all_le {
            Some(Ordering::Less)
        } else {
            None
        }
    }
}

impl vstd::std_specs::cmp::PartialOrdSpecImpl for Signature {
    open spec fn obeys_partial_cmp_spec() -> bool {
        true
    }

    open spec fn partial_cmp_spec(&self, other: &Signature) -> Option<Ordering> {
        tuple_cmp(self@, other@)
    }
}

} // verus!
