use rui::ViewID;

#[test]
fn root_is_the_empty_path() {
    let root = ViewID::root();
    assert!(root.is_root());
    assert_eq!(root.depth(), 0);
    assert_eq!(root.keys(), Vec::<u64>::new());
    assert_eq!(root.key(), None);
    assert!(root.parent().is_none());
}

#[test]
fn child_appends_its_key() {
    let id = ViewID::root().child(3).child(0).child(17);
    assert_eq!(id.keys(), vec![3, 0, 17]);
    assert_eq!(id.depth(), 3);
    assert!(!id.is_root());
    assert_eq!(id.key(), Some(17));
    assert_eq!(id.parent().unwrap().keys(), vec![3, 0]);
}

#[test]
fn two_rebuilds_give_the_same_identities() {
    let first: Vec<ViewID> = (0..5).map(|k| ViewID::root().child(2).child(k)).collect();
    let second: Vec<ViewID> = (0..5).map(|k| ViewID::root().child(2).child(k)).collect();
    assert_eq!(first, second);
    for (a, b) in first.iter().zip(second.iter()) {
        assert_eq!(a.child(9), b.child(9));
    }
}

#[test]
fn different_positions_have_different_identities() {
    let parent = ViewID::root().child(1);
    assert_ne!(parent.child(0), parent.child(1));
    assert_ne!(parent.child(0), parent);
    assert_ne!(ViewID::root().child(0).child(1), ViewID::root().child(1).child(0));
    assert_ne!(ViewID::root().child(0), ViewID::root().child(0).child(0));
}

#[test]
fn descend_follows_the_keys_in_turn() {
    let base = ViewID::root().child(8);
    let by_steps = base.child(1).child(2).child(3);
    assert_eq!(base.descend(&vec![1, 2, 3]), by_steps);
    assert_eq!(base.descend(&vec![]), base);
    assert_eq!(base.descend(&vec![1, 2, 3]).keys(), vec![8, 1, 2, 3]);
}

#[test]
fn clone_is_equal() {
    let id = ViewID::root().child(u64::MAX).child(0);
    assert_eq!(id.clone(), id);
    assert_eq!(id.clone().keys(), vec![u64::MAX, 0]);
}

#[test]
fn a_node_is_within_the_subtree_of_its_ancestors() {
    let a = ViewID::root().child(1);
    let b = a.child(2);
    let c = b.child(3);
    assert!(c.is_within(&a));
    assert!(c.is_within(&b));
    assert!(c.is_within(&c));
    assert!(c.is_within(&ViewID::root()));
    assert!(!a.is_within(&c));
    assert!(!c.is_within(&ViewID::root().child(2)));
    assert!(!ViewID::root().child(1).child(3).is_within(&b));
}

#[test]
fn occurs_in_finds_an_identity() {
    let ids = vec![ViewID::root(), ViewID::root().child(1), ViewID::root().child(1).child(2)];
    assert!(ViewID::root().child(1).occurs_in(&ids));
    assert!(ViewID::root().occurs_in(&ids));
    assert!(!ViewID::root().child(2).occurs_in(&ids));
    assert!(!ViewID::root().occurs_in(&Vec::new()));
}

#[test]
fn precedes_is_the_order_of_paths() {
    let root = ViewID::root();
    let a = root.child(1);
    let ab = root.child(1).child(5);
    let b = root.child(2);
    assert!(root.precedes(&a));
    assert!(a.precedes(&ab));
    assert!(ab.precedes(&b));
    assert!(a.precedes(&b));
    assert!(!b.precedes(&a));
    assert!(!ab.precedes(&a));
    assert!(!a.precedes(&a));
    assert!(!root.precedes(&root));
}

#[test]
fn precedes_agrees_with_the_derived_order() {
    let ids = vec![
        ViewID::root(),
        ViewID::root().child(0),
        ViewID::root().child(0).child(0),
        ViewID::root().child(0).child(7),
        ViewID::root().child(1),
        ViewID::root().child(7).child(0),
        ViewID::root().child(u64::MAX),
    ];
    for a in ids.iter() {
        for b in ids.iter() {
            assert_eq!(a.precedes(b), a < b);
            assert_eq!(a == b, !a.precedes(b) && !b.precedes(a));
        }
    }
    let mut shuffled = vec![ids[4].clone(), ids[0].clone(), ids[6].clone(), ids[2].clone()];
    shuffled.sort();
    assert_eq!(shuffled, vec![ids[0].clone(), ids[2].clone(), ids[4].clone(), ids[6].clone()]);
}
