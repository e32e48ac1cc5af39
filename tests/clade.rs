use clade_petri::clade::Clade;

#[test]
pub fn clade_descendents() {
    let tax1 = Clade::new(
        "root:1".into(),
        Some(vec![Clade::new(
            "child:1".into(),
            Some(vec![
                Clade::new("grandchild1:1".into(), None),
                Clade::new("grandchild2:1".into(), None),
            ]),
        )]),
    );

    let _tax2 = Clade::new("root:2".into(), Some(vec![Clade::new("child:2".into(), None)]));

    assert!(tax1.descendent(&tax1.id()));
    assert!(tax1 >= tax1);
    assert!(tax1 == tax1);
    match tax1.children() {
        Some(children) => {
            assert!(children[0].descendent(&children[0].id()));
            assert!(tax1.descendent(&children[0].id()));
            assert!(!(tax1 < children[0]));
            assert!(tax1 > children[0]);
            assert!(tax1 >= children[0]);
            assert!(children[0] == children[0]);
            match children[0].children() {
                Some(grandchildren) => {
                    assert_eq!(grandchildren.len(), 2);
                    assert!(grandchildren[0].descendent(&grandchildren[0].id()));
                    assert!(children[0].descendent(&grandchildren[0].id()));
                    assert!(children[0] > grandchildren[0]);
                    assert!(children[0] >= grandchildren[1]);
                    assert!(tax1 > grandchildren[0]);
                    assert!(!(tax1 < grandchildren[0]));
                    assert!(grandchildren[0] != grandchildren[1]);
                    assert!(tax1.descendent(&grandchildren[0].id()));
                    assert!(tax1.descendent(&grandchildren[1].id()));
                }
                None => assert!(false),
            }
            assert_eq!(children[0].id(), tax1.query(&"child:1".into()).unwrap());
            assert_eq!(children[0], tax1.get(&children[0].id()).unwrap());
        }
        None => assert!(false),
    }
}

fn sample() -> Clade {
    Clade::new(
        "R".into(),
        Some(vec![Clade::new(
            "C".into(),
            Some(vec![Clade::new("G1".into(), None), Clade::new("G2".into(), None)]),
        )]),
    )
}

#[test]
fn leaf_and_branch_are_built_as_asked() {
    let leaf = Clade::new("leaf".into(), None);
    assert!(leaf.children().is_none());
    assert_eq!(leaf.name(), "leaf".to_string());
    let branch = Clade::new("branch".into(), Some(vec![]));
    assert_eq!(branch.children().map(|c| c.len()), Some(0));
    assert_ne!(leaf.id(), branch.id());
}

#[test]
fn every_clade_descends_from_itself() {
    let r = sample();
    assert!(r.descendent(&r.id()));
    assert!(r == r);
    assert_eq!(r.partial_cmp(&r), Some(std::cmp::Ordering::Equal));
}

#[test]
fn descent_is_not_mutual_between_distinct_clades() {
    let r = sample();
    let c = r.children().unwrap()[0].clone();
    assert!(r.descendent(&c.id()));
    assert!(!c.descendent(&r.id()));
}

#[test]
fn descent_is_transitive() {
    let r = sample();
    let c = r.children().unwrap()[0].clone();
    let g1 = c.children().unwrap()[0].clone();
    assert!(r.descendent(&c.id()) && c.descendent(&g1.id()));
    assert!(r.descendent(&g1.id()));
}

#[test]
fn clades_in_disjoint_subtrees_are_incomparable() {
    let r = sample();
    let c = r.children().unwrap()[0].clone();
    let g1 = &c.children().unwrap()[0];
    let g2 = &c.children().unwrap()[1];
    assert_eq!(g1.partial_cmp(g2), None);
    assert!(!(g1 <= g2));
    assert!(!(g1 >= g2));
    let other = Clade::new("other".into(), None);
    assert_eq!(r.partial_cmp(&other), None);
}

#[test]
fn query_returns_first_preorder_match() {
    let first_child = Clade::new("dup".into(), Some(vec![Clade::new("deep".into(), None)]));
    let second_child = Clade::new("dup".into(), None);
    let first_id = first_child.id();
    let root = Clade::new("root".into(), Some(vec![first_child, second_child]));
    assert_eq!(root.query(&"dup".into()), Some(first_id));
    assert_eq!(root.query(&"root".into()), Some(root.id()));
    assert_eq!(root.query(&"missing".into()), None);

    let self_named = Clade::new("dup".into(), Some(vec![Clade::new("dup".into(), None)]));
    assert_eq!(self_named.query(&"dup".into()), Some(self_named.id()));
}

#[test]
fn parentage_lists_ancestors_nearest_first() {
    let r = sample();
    let c = r.children().unwrap()[0].clone();
    let g2 = c.children().unwrap()[1].clone();
    assert_eq!(r.parentage(&g2.id()), Some(vec![c.id(), r.id()]));
    assert_eq!(r.parentage(&c.id()), Some(vec![r.id()]));
    assert_eq!(r.parentage(&r.id()), Some(vec![]));
    let stranger = Clade::new("stranger".into(), None);
    assert_eq!(r.parentage(&stranger.id()), None);
}

#[test]
fn get_copies_the_subtree() {
    let r = sample();
    let c = r.children().unwrap()[0].clone();
    let got = r.get(&c.id()).unwrap();
    assert_eq!(got.name(), "C".to_string());
    assert_eq!(got.children().unwrap().len(), 2);
    assert_eq!(got.children().unwrap()[1].name(), "G2".to_string());
    assert!(r.get(&Clade::new("x".into(), None).id()).is_none());
}

#[test]
fn scenario_root_child_leaves() {
    let r = sample();
    let c = r.children().unwrap()[0].clone();
    let g1 = c.children().unwrap()[0].clone();
    assert!(r.descendent(&g1.id()));
    assert!(c > g1);
    assert!(g1 < c);
    assert!(r > g1);
}
