use vstd::prelude::*;

use crate::clade::{Clade, Taxon};
use crate::symbol::Symbol;

verus! {

/// The clade bound to `k` among the first `n` entries: the last such entry wins.
pub open spec fn lookup(s: Seq<(Symbol, Clade)>, k: Seq<char>, n: int) -> Option<Taxon>
    decreases n,
{
    if n <= 0 || n > s.len() {
        None
    } else if s[n - 1].0.0@ == k {
        Some(s[n - 1].1@)
    } else {
        lookup(s, k, n - 1)
    }
}

proof fn lemma_lookup_prefix(s: Seq<(Symbol, Clade)>, e: (Symbol, Clade), k: Seq<char>, n: int)
    requires
        0 <= n <= s.len(),
    ensures
        lookup(s.push(e), k, n) == lookup(s, k, n),
    decreases n,
{
    if n > 0 {
        assert(s.push(e)[n - 1] == s[n - 1]);
        lemma_lookup_prefix(s, e, k, n - 1);
    }
}

/// An assignment of clades to keys, against which guards are evaluated.
#[derive(Debug)]
pub struct Binding {
    entries: Vec<(Symbol, Clade)>,
}

impl View for Binding {
    type V = Map<Seq<char>, Taxon>;

    closed spec fn view(&self) -> Map<Seq<char>, Taxon> {
        Map::new(
            |k: Seq<char>| lookup(self.entries@, k, self.entries@.len() as int) is Some,
            |k: Seq<char>| lookup(self.entries@, k, self.entries@.len() as int)->0,
        )
    }
}

impl Binding {
    /// The binding that binds no key.
    pub fn new() -> (r: Binding)
        ensures
            r@ == Map::<Seq<char>, Taxon>::empty(),
    {
        let r = Binding { entries: Vec::new() };
        assert(r@ =~= Map::<Seq<char>, Taxon>::empty());
        r
    }

    /// Binds `key` to `clade`, in place of what it was bound to.
    pub fn insert(&mut self, key: Symbol, clade: Clade)
        ensures
            final(self)@ == old(self)@.insert(key.0@, clade@),
    {
        let ghost old_entries = self.entries@;
        let ghost e = (key, clade);
        self.entries.push((key, clade));
        proof {
            assert(self.entries@ == old_entries.push(e));
            assert forall|k: Seq<char>|
                k != e.0.0@ implies lookup(self.entries@, k, self.entries@.len() as int) == lookup(
                old_entries,
                k,
                old_entries.len() as int,
            ) by {
                lemma_lookup_prefix(old_entries, e, k, old_entries.len() as int);
            }
            assert(self@ =~= old(self)@.insert(e.0.0@, e.1@));
        }
    }

    /// The clade bound to `key`, if any.
    pub fn get(&self, key: &Symbol) -> (r: Option<&Clade>)
        ensures
            match r {
                Some(c) => self@.contains_key(key.0@) && self@[key.0@] == c@,
                None => !self@.contains_key(key.0@),
            },
    {
        let n = self.entries.len();
        let mut i: usize = n;
        while i > 0
            invariant
                i <= n,
                n == self.entries.len(),
                lookup(self.entries@, key.0@, n as int) == lookup(self.entries@, key.0@, i as int),
            decreases i,
        {
            if self.entries[i - 1].0 == *key {
                return Some(&self.entries[i - 1].1);
            }
            i = i - 1;
        }
        None
    }
}

} // verus!
