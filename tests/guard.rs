use clade_petri::binding::Binding;
use clade_petri::clade::Clade;
use clade_petri::guard::Guard;
use clade_petri::symbol::Symbol;

fn sym(s: &str) -> Symbol {
    Symbol::new(s.to_string())
}

struct Tree {
    c: Clade,
    g1: Clade,
    g2: Clade,
}

fn tree() -> Tree {
    let g1 = Clade::new("G1".into(), None);
    let g2 = Clade::new("G2".into(), None);
    let c = Clade::new("C".into(), Some(vec![g1.clone(), g2.clone()]));
    Tree { c, g1, g2 }
}

#[test]
fn scenario_greater_than_or_equal() {
    let t = tree();
    let g = Guard::GreaterThanOrEqual(sym("x"), t.c.clone());
    let mut b = Binding::new();
    b.insert(sym("x"), t.g1.clone());
    // G1 lies below C, so C is the greater: G1 >= C fails.
    assert!(!g.eval(&b));
    assert!(!g.eval(&Binding::new()));
    let le = Guard::LessThanOrEqual(sym("x"), t.c.clone());
    assert!(le.eval(&b));
}

#[test]
fn empty_guard_always_holds() {
    let t = tree();
    assert!(Guard::Empty.eval(&Binding::new()));
    let mut b = Binding::new();
    b.insert(sym("x"), t.g1.clone());
    assert!(Guard::Empty.eval(&b));
    assert!(Guard::default().eval(&b));
}

#[test]
fn leaf_with_unbound_key_is_false() {
    let t = tree();
    let mut b = Binding::new();
    b.insert(sym("y"), t.g1.clone());
    let leaves = vec![
        Guard::Is(sym("x"), t.g1.clone()),
        Guard::GreaterThan(sym("x"), t.g1.clone()),
        Guard::LessThan(sym("x"), t.c.clone()),
        Guard::GreaterThanOrEqual(sym("x"), t.g1.clone()),
        Guard::LessThanOrEqual(sym("x"), t.c.clone()),
        Guard::Not(sym("x"), t.g2.clone()),
    ];
    for g in leaves.iter() {
        assert!(!g.eval(&b));
    }
}

#[test]
fn combinators_of_nothing() {
    let b = Binding::new();
    assert!(Guard::All(vec![]).eval(&b));
    assert!(!Guard::Any(vec![]).eval(&b));
    assert!(Guard::NoneOf(vec![]).eval(&b));
}

#[test]
fn leaves_follow_the_order() {
    let t = tree();
    let mut b = Binding::new();
    b.insert(sym("x"), t.g1.clone());
    assert!(Guard::Is(sym("x"), t.g1.clone()).eval(&b));
    assert!(!Guard::Is(sym("x"), t.g2.clone()).eval(&b));
    assert!(Guard::LessThan(sym("x"), t.c.clone()).eval(&b));
    assert!(!Guard::GreaterThan(sym("x"), t.c.clone()).eval(&b));
    assert!(!Guard::LessThan(sym("x"), t.g2.clone()).eval(&b));
    assert!(!Guard::GreaterThanOrEqual(sym("x"), t.g2.clone()).eval(&b));
    assert!(Guard::Not(sym("x"), t.g2.clone()).eval(&b));
    assert!(!Guard::Not(sym("x"), t.g1.clone()).eval(&b));
}

#[test]
fn combinators_combine() {
    let t = tree();
    let mut b = Binding::new();
    b.insert(sym("x"), t.g1.clone());
    let yes = || Guard::Is(sym("x"), t.g1.clone());
    let no = || Guard::Is(sym("x"), t.g2.clone());
    assert!(Guard::All(vec![yes(), yes()]).eval(&b));
    assert!(!Guard::All(vec![yes(), no()]).eval(&b));
    assert!(Guard::Any(vec![no(), yes()]).eval(&b));
    assert!(!Guard::Any(vec![no(), no()]).eval(&b));
    assert!(Guard::NoneOf(vec![no(), no()]).eval(&b));
    assert!(!Guard::NoneOf(vec![no(), yes()]).eval(&b));
}

#[test]
fn later_insert_replaces_binding() {
    let t = tree();
    let mut b = Binding::new();
    b.insert(sym("x"), t.g1.clone());
    b.insert(sym("x"), t.g2.clone());
    assert_eq!(b.get(&sym("x")).unwrap().id(), t.g2.id());
    assert!(b.get(&sym("z")).is_none());
}

#[test]
fn symbols_in_preorder_with_repeats() {
    let t = tree();
    let g = Guard::All(vec![
        Guard::Is(sym("a"), t.g1.clone()),
        Guard::Any(vec![Guard::Not(sym("b"), t.g1.clone()), Guard::Empty]),
        Guard::NoneOf(vec![Guard::LessThan(sym("a"), t.c.clone())]),
    ]);
    assert_eq!(g.symbols(), vec![sym("a"), sym("b"), sym("a")]);
    assert!(Guard::Empty.symbols().is_empty());
}
