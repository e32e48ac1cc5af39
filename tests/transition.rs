use clade_petri::clade::Clade;
use clade_petri::function::Function;
use clade_petri::guard::Guard;
use clade_petri::net::ColoredPetriNet;
use clade_petri::place::Place;
use clade_petri::signature::Signature;
use clade_petri::symbol::Symbol;
use clade_petri::token::Token;
use clade_petri::transition::{unresolved_key, Transition};
use std::collections::HashMap;

fn sym(s: &str) -> Symbol {
    Symbol::new(s.to_string())
}

fn input(place: u128) -> HashMap<u128, Signature> {
    let g1 = Clade::new("G1".into(), None);
    let g2 = Clade::new("G2".into(), None);
    let c = Clade::new("C".into(), Some(vec![g1.clone(), g2.clone()]));
    let mut m = HashMap::new();
    m.insert(place, Signature::new(vec![c, g1]));
    m
}

#[test]
pub fn verify_signature() {}

#[test]
pub fn verify_guard() {}

#[test]
fn guard_over_known_keys_is_kept() {
    let g1 = Clade::new("G1".into(), None);
    let guard = Guard::All(vec![Guard::Is(sym("C"), g1.clone()), Guard::Not(sym("G1"), g1)]);
    let t = Transition::new("t".into(), Some(input(7)), None, Some(guard), None);
    assert_eq!(t.name, "t".to_string());
    assert!(matches!(t.guard, Guard::All(ref v) if v.len() == 2));
    assert_eq!(t.input.len(), 1);
    assert!(t.output.is_empty());
}

#[test]
fn guard_with_unknown_key_becomes_empty() {
    let g1 = Clade::new("G1".into(), None);
    let guard = Guard::Any(vec![Guard::Is(sym("C"), g1.clone()), Guard::Is(sym("Q"), g1)]);
    let t = Transition::new("t".into(), Some(input(7)), None, Some(guard), None);
    assert!(matches!(t.guard, Guard::Empty));
    assert_eq!(t.input.len(), 1);
}

#[test]
fn guard_without_input_becomes_empty() {
    let g1 = Clade::new("G1".into(), None);
    let t = Transition::new("t".into(), None, None, Some(Guard::Is(sym("G1"), g1)), None);
    assert!(matches!(t.guard, Guard::Empty));
    assert!(t.input.is_empty());
}

#[test]
fn input_without_guard_has_empty_guard() {
    let t = Transition::new("t".into(), Some(input(3)), None, None, None);
    assert!(matches!(t.guard, Guard::Empty));
    let none = Transition::new("n".into(), None, None, None, None);
    assert!(matches!(none.guard, Guard::Empty));
    assert!(none.input.is_empty() && none.output.is_empty());
}

#[test]
fn function_kept_only_with_output() {
    let f = Function::new();
    let t = Transition::new("t".into(), None, Some(input(1)), None, Some(f));
    assert_eq!(t.function, f);
    assert_eq!(t.output.len(), 1);
    let u = Transition::new("u".into(), None, None, None, Some(f));
    assert_ne!(u.function, f);
}

#[test]
fn unresolved_key_names_the_missing_key() {
    let g1 = Clade::new("G1".into(), None);
    let guard = Guard::All(vec![Guard::Is(sym("G1"), g1.clone()), Guard::Is(sym("Z"), g1)]);
    assert_eq!(unresolved_key(&guard, &input(5)), Some(sym("Z")));
    assert_eq!(unresolved_key(&Guard::Empty, &HashMap::new()), None);
}

#[test]
fn records_get_fresh_ids() {
    let p = Place::new("p".into());
    let q = Place::new("p".into());
    assert_ne!(p.id, q.id);
    assert_eq!(p.name, "p".to_string());
    let leaf = Clade::new("L".into(), None);
    let tok = Token::new("tok".into(), leaf.clone());
    assert_eq!(tok.clade, leaf);
    assert_eq!(tok.name, "tok".to_string());
}

#[test]
fn net_starts_at_its_initial_marking() {
    let p = Place::new("p".into());
    let tok = Token::new("tok".into(), Clade::new("L".into(), None));
    let mut tokens = HashMap::new();
    tokens.insert(tok.id, tok);
    let mut marking = HashMap::new();
    marking.insert(p.id, tokens);
    let mut places = HashMap::new();
    places.insert(p.id, p.clone());
    let net = ColoredPetriNet::new("net".into(), Some(places), None, Some(marking));
    assert_eq!(net.places.len(), 1);
    assert!(net.transitions.is_empty());
    assert_eq!(net.current_marking.get(&p.id).map(|m| m.len()), Some(1));
    assert_eq!(net.initial_marking.get(&p.id).map(|m| m.len()), Some(1));
    assert!(net.name_lookup.is_empty());
}
