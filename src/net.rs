use vstd::prelude::*;

use crate::id::fresh_id;
use crate::place::Place;
use crate::token::Token;
use crate::transition::Transition;
use std::collections::HashMap;

verus! {

/// A colored Petri net: places, transitions and markings, each by id.
#[derive(Debug)]
pub struct ColoredPetriNet {
    pub id: u128,
    pub name: String,
    pub places: HashMap<u128, Place>,
    pub transitions: HashMap<u128, Transition>,
    /// The tokens of each place at the start, by place id and token id.
    pub initial_marking: HashMap<u128, HashMap<u128, Token>>,
    /// The tokens of each place now, by place id and token id.
    pub current_marking: HashMap<u128, HashMap<u128, Token>>,
    pub name_lookup: HashMap<u128, String>,
}

impl ColoredPetriNet {
    /// A net with a fresh id, whose current marking is its initial marking.
    /// What is absent is empty.
    pub fn new(
        name: String,
        places: Option<HashMap<u128, Place>>,
        transitions: Option<HashMap<u128, Transition>>,
        initial_marking: Option<HashMap<u128, HashMap<u128, Token>>>,
    ) -> (r: Self)
        ensures
            r.name@ == name@,
            match places {
                Some(p) => r.places@ == p@,
                None => r.places@ == Map::<u128, Place>::empty(),
            },
            match transitions {
                Some(t) => r.transitions@ == t@,
                None => r.transitions@ == Map::<u128, Transition>::empty(),
            },
            match initial_marking {
                Some(m) => r.initial_marking@ == m@,
                None => r.initial_marking@ == Map::<u128, HashMap<u128, Token>>::empty(),
            },
            r.current_marking@ == r.initial_marking@,
            r.name_lookup@ == Map::<u128, String>::empty(),
    {
        let places = match places {
            Some(p) => p,
            None => HashMap::new(),
        };
        let transitions = match transitions {
            Some(t) => t,
            None => HashMap::new(),
        };
        let initial_marking = match initial_marking {
            Some(m) => m,
            None => HashMap::new(),
        };
        let current_marking = initial_marking.clone();
        ColoredPetriNet {
            id: fresh_id(),
            name,
            places,
            transitions,
            initial_marking,
            current_marking,
            name_lookup: HashMap::new(),
        }
    }
}

} // verus!
