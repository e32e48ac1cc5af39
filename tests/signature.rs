use clade_petri::clade::Clade;
use clade_petri::signature::Signature;
use std::cmp::Ordering;

#[test]
pub fn signature_logic() {
    let grandchild1 = Clade::new("grandchild1".into(), None);
    let grandchild2 = Clade::new("grandchild2".into(), None);
    let child = Clade::new("child".into(), Some(vec![grandchild1.clone(), grandchild2.clone()]));
    let tax = Clade::new("root".into(), Some(vec![child.clone()]));

    let sig1 = Signature::new(vec![child.clone(), grandchild2.clone()]);
    let sig2 = Signature::new(vec![grandchild1.clone(), grandchild2.clone()]);
    let sig3 = Signature::new(vec![grandchild1.clone(), grandchild2.clone()]);
    let sig4 = Signature::new(vec![grandchild1.clone()]);
    let sig5 = Signature::new(vec![child.clone()]);
    assert!(sig3 == sig2);
    assert!(sig5 > sig4);
    assert!(!(sig5 < sig4));
    assert!(sig1 > sig2);
    assert!(tax > grandchild1);
    assert!(tax != grandchild1);
    assert!(tax >= child);
    assert!(sig1 != sig5);
    assert!(!(sig1 >= sig5));
}

struct Tree {
    c: Clade,
    g1: Clade,
    g2: Clade,
}

fn tree() -> Tree {
    let g1 = Clade::new("G1".into(), None);
    let g2 = Clade::new("G2".into(), None);
    let c = Clade::new("C".into(), Some(vec![g1.clone(), g2.clone()]));
    Tree { c, g1, g2 }
}

#[test]
fn scenario_signature_greater() {
    let t = tree();
    let a = Signature::new(vec![t.c.clone(), t.g2.clone()]);
    let b = Signature::new(vec![t.g1.clone(), t.g2.clone()]);
    assert_eq!(a.partial_cmp(&b), Some(Ordering::Greater));
    assert_eq!(b.partial_cmp(&a), Some(Ordering::Less));
}

#[test]
fn unequal_lengths_are_incomparable() {
    let t = tree();
    let a = Signature::new(vec![t.c.clone()]);
    let b = Signature::new(vec![t.c.clone(), t.g1.clone()]);
    assert_eq!(a.partial_cmp(&b), None);
    assert!(a != b);
    let empty = Signature::new(vec![]);
    assert_eq!(empty.partial_cmp(&a), None);
}

#[test]
fn mixed_directions_are_incomparable() {
    let t = tree();
    let a = Signature::new(vec![t.c.clone(), t.g1.clone()]);
    let b = Signature::new(vec![t.g1.clone(), t.c.clone()]);
    assert_eq!(a.partial_cmp(&b), None);
    let d = Signature::new(vec![t.g1.clone(), t.g1.clone()]);
    let e = Signature::new(vec![t.g1.clone(), t.g2.clone()]);
    assert_eq!(d.partial_cmp(&e), None);
}

#[test]
fn equal_signatures_compare_equal() {
    let t = tree();
    let a = Signature::new(vec![t.c.clone(), t.g1.clone()]);
    let b = a.clone();
    assert!(a == b);
    assert_eq!(a.partial_cmp(&b), Some(Ordering::Equal));
    let empty = Signature::default();
    assert_eq!(empty.partial_cmp(&Signature::new(vec![])), Some(Ordering::Equal));
}
