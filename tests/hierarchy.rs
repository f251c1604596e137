use tuix_core::entity::Entity;
use tuix_core::hierarchy::{
    Hierarchy, HierarchyError, HierarchyTree, IntoBranchIterator, IntoChildIterator,
    IntoHierarchyIterator, IntoParentIterator,
};

fn e(i: u32) -> Entity {
    Entity::new(i, 0)
}

fn children(h: &Hierarchy, p: Entity) -> Vec<Entity> {
    let mut out = Vec::new();
    let mut it = (&p).child_iter(h);
    while let Some(c) = it.next() {
        out.push(c);
    }
    out
}

fn children_back(h: &Hierarchy, p: Entity) -> Vec<Entity> {
    let mut out = Vec::new();
    let mut it = (&p).child_iter(h);
    while let Some(c) = it.next_back() {
        out.push(c);
    }
    out
}

/// root -> a -> {b, c}, root -> d
fn sample() -> (Hierarchy, [Entity; 4]) {
    let mut h = Hierarchy::new();
    let (a, b, c, d) = (e(1), e(2), e(3), e(4));
    h.add(a, Entity::root()).unwrap();
    h.add(b, a).unwrap();
    h.add(c, a).unwrap();
    h.add(d, Entity::root()).unwrap();
    (h, [a, b, c, d])
}

#[test]
fn remove_middle_scenario() {
    let mut h = Hierarchy::new();
    let (a, b, c) = (e(1), e(2), e(3));
    h.add(a, Entity::root()).unwrap();
    h.add(b, a).unwrap();
    h.add(c, a).unwrap();
    h.remove(b).unwrap();
    assert_eq!(h.get_num_children(a), Some(1));
    assert_eq!(h.get_first_child(a), Some(c));
    assert_eq!(h.get_prev_sibling(c), None);
    assert_eq!(h.get_parent(b), None);
    assert!(h.changed());
}

#[test]
fn queries_on_sample() {
    let (h, [a, b, c, d]) = sample();
    assert_eq!(h.get_parent(a), Some(Entity::root()));
    assert_eq!(h.get_parent(Entity::root()), None);
    assert_eq!(h.get_first_child(a), Some(b));
    assert_eq!(h.get_last_child(a), Some(c));
    assert_eq!(h.get_last_child(b), None);
    assert_eq!(h.get_child(a, 0), Some(b));
    assert_eq!(h.get_child(a, 1), Some(c));
    assert_eq!(h.get_child(a, 2), None);
    assert_eq!(h.get_num_children(Entity::root()), Some(2));
    assert_eq!(h.get_num_children(Entity::null()), None);
    assert_eq!(h.get_next_sibling(b), Some(c));
    assert_eq!(h.get_prev_sibling(c), Some(b));
    assert_eq!(h.get_next_sibling(a), Some(d));
    assert!(h.is_first_child(b));
    assert!(!h.is_first_child(c));
    assert!(!h.is_first_child(Entity::root()));
    assert!(h.is_sibling(b, c));
    assert!(!h.is_sibling(b, d));
    assert!(h.has_children(a));
    assert!(!h.has_children(d));
    assert!(!h.has_children(e(99)));
}

#[test]
fn relations_trait() {
    let (h, [a, b, c, d]) = sample();
    assert_eq!(b.parent(&h), Some(a));
    assert!(b.is_sibling(&h, c));
    assert!(b.is_child_of(&h, a));
    assert!(!b.is_child_of(&h, Entity::root()));
    assert!(!Entity::null().is_child_of(&h, a));
    assert!(b.is_descendant_of(&h, Entity::root()));
    assert!(b.is_descendant_of(&h, b));
    assert!(!b.is_descendant_of(&h, d));
    assert!(!Entity::null().is_descendant_of(&h, Entity::root()));
}

#[test]
fn add_errors() {
    let mut h = Hierarchy::new();
    assert_eq!(h.add(Entity::null(), Entity::root()), Err(HierarchyError::NullEntity));
    assert_eq!(h.add(e(1), Entity::null()), Err(HierarchyError::NullEntity));
    assert_eq!(h.add(e(1), e(5)), Err(HierarchyError::InvalidParent));
    assert_eq!(h.add(Entity::root(), Entity::root()), Err(HierarchyError::InvalidParent));
    h.add(e(1), Entity::root()).unwrap();
    h.add(e(2), e(1)).unwrap();
    // An entity cannot go below its own descendant.
    assert_eq!(h.add(e(1), e(2)), Err(HierarchyError::InvalidParent));
    assert_eq!(h.add(e(1), e(1)), Err(HierarchyError::InvalidParent));
    assert_eq!(h.get_parent(e(1)), Some(Entity::root()));
    assert_eq!(h.get_parent(e(2)), Some(e(1)));
}

#[test]
fn add_grows_and_initialises_slots() {
    let mut h = Hierarchy::new();
    h.add(e(10), Entity::root()).unwrap();
    assert_eq!(h.get_parent(e(10)), Some(Entity::root()));
    assert_eq!(h.get_parent(e(5)), None);
    assert_eq!(h.get_first_child(e(5)), None);
    assert_eq!(h.get_num_children(e(5)), Some(0));
    assert_eq!(h.get_num_children(e(11)), None);
}

#[test]
fn remove_errors() {
    let mut h = Hierarchy::new();
    assert_eq!(h.remove(Entity::null()), Err(HierarchyError::NullEntity));
    assert_eq!(h.remove(e(3)), Err(HierarchyError::NoEntity));
    assert!(!h.changed());
}

#[test]
fn remove_then_add_back_keeps_tree() {
    let (mut h, [a, b, c, d]) = sample();
    h.add(e(5), c).unwrap();
    let before_count = h.get_num_children(a);
    h.remove(b).unwrap();
    h.add(b, a).unwrap();
    assert_eq!(h.get_num_children(a), before_count);
    let mut kids = children(&h, a);
    kids.sort_by_key(|x| x.0);
    assert_eq!(kids, vec![b, c]);
    assert_eq!(h.get_parent(e(5)), Some(c));
    assert_eq!(children(&h, Entity::root()), vec![a, d]);
}

#[test]
fn removed_entity_keeps_its_subtree() {
    let (mut h, [a, b, _c, d]) = sample();
    h.remove(a).unwrap();
    assert_eq!(h.get_parent(a), None);
    assert_eq!(h.get_parent(b), Some(a));
    assert_eq!(children(&h, Entity::root()), vec![d]);
    h.add(a, d).unwrap();
    assert!(b.is_descendant_of(&h, d));
}

#[test]
fn child_iteration_forward_and_back() {
    let mut h = Hierarchy::new();
    for i in 1..=5 {
        h.add(e(i), Entity::root()).unwrap();
    }
    let fwd = children(&h, Entity::root());
    let mut back = children_back(&h, Entity::root());
    assert_eq!(fwd, vec![e(1), e(2), e(3), e(4), e(5)]);
    back.reverse();
    assert_eq!(back, fwd);
    assert!(children(&h, e(3)).is_empty());
    assert!(children_back(&h, e(3)).is_empty());
}

#[test]
fn set_first_child_moves_to_front() {
    let (mut h, [a, b, c, _d]) = sample();
    h.add(e(5), a).unwrap();
    assert_eq!(h.set_first_child(e(5)), Ok(()));
    assert_eq!(children(&h, a), vec![e(5), b, c]);
    assert_eq!(children_back(&h, a), vec![c, b, e(5)]);
    assert_eq!(h.set_first_child(e(5)), Err(HierarchyError::AlreadyFirstChild));
    assert_eq!(h.set_first_child(Entity::root()), Err(HierarchyError::InvalidParent));
    assert_eq!(h.set_first_child(Entity::null()), Err(HierarchyError::NullEntity));
    assert_eq!(h.set_first_child(e(40)), Err(HierarchyError::InvalidSibling));
}

#[test]
fn set_next_sibling_moves_after() {
    let (mut h, [a, b, c, d]) = sample();
    h.add(e(5), a).unwrap();
    // a: b, c, 5  ->  b, 5, c
    assert_eq!(h.set_next_sibling(b, e(5)), Ok(()));
    assert_eq!(children(&h, a), vec![b, e(5), c]);
    assert_eq!(children_back(&h, a), vec![c, e(5), b]);
    assert_eq!(h.set_next_sibling(b, e(5)), Err(HierarchyError::AlreadySibling));
    assert_eq!(h.set_next_sibling(b, d), Err(HierarchyError::InvalidSibling));
    assert_eq!(h.set_next_sibling(b, b), Err(HierarchyError::InvalidSibling));
    assert_eq!(h.set_next_sibling(Entity::root(), a), Err(HierarchyError::InvalidParent));
    assert_eq!(h.set_next_sibling(e(50), a), Err(HierarchyError::NoEntity));
    assert_eq!(h.set_next_sibling(b, e(50)), Err(HierarchyError::InvalidSibling));
    // Moving the first child after the last.
    assert_eq!(h.set_next_sibling(c, b), Ok(()));
    assert_eq!(children(&h, a), vec![e(5), c, b]);
    assert_eq!(h.get_first_child(a), Some(e(5)));
}

#[test]
fn set_prev_sibling_moves_before() {
    let (mut h, [a, b, c, _d]) = sample();
    h.add(e(5), a).unwrap();
    // a: b, c, 5  ->  5, b, c
    assert_eq!(h.set_prev_sibling(b, e(5)), Ok(()));
    assert_eq!(children(&h, a), vec![e(5), b, c]);
    assert_eq!(h.get_first_child(a), Some(e(5)));
    assert_eq!(h.set_prev_sibling(b, e(5)), Err(HierarchyError::AlreadySibling));
    assert_eq!(h.set_prev_sibling(Entity::null(), b), Err(HierarchyError::NullEntity));
    assert_eq!(h.set_prev_sibling(c, e(5)), Ok(()));
    assert_eq!(children(&h, a), vec![b, e(5), c]);
    assert_eq!(children_back(&h, a), vec![c, e(5), b]);
}

#[test]
fn set_parent_moves_subtree() {
    let (mut h, [a, b, c, d]) = sample();
    assert_eq!(h.set_parent(a, d), Ok(()));
    assert_eq!(children(&h, Entity::root()), vec![d]);
    assert_eq!(children(&h, d), vec![a]);
    assert_eq!(children(&h, a), vec![b, c]);
    assert_eq!(h.set_parent(d, b), Err(HierarchyError::InvalidParent));
    assert_eq!(h.set_parent(e(30), d), Err(HierarchyError::NoEntity));
    assert_eq!(h.set_parent(Entity::root(), d), Err(HierarchyError::InvalidParent));
}

#[test]
fn preorder_visits_each_entity_once() {
    let (mut h, [a, b, c, d]) = sample();
    h.add(e(5), c).unwrap();
    h.add(e(6), d).unwrap();
    let order = h.preorder();
    assert_eq!(order, vec![Entity::root(), a, b, c, e(5), d, e(6)]);
    let mut it = h.iter();
    let mut walked = Vec::new();
    while let Some(x) = it.next() {
        walked.push(x);
    }
    assert_eq!(walked, order);
    for x in &order {
        let mut up = x.parent_iter(&h);
        let mut last = *x;
        while let Some(y) = up.next() {
            last = y;
        }
        assert_eq!(last, Entity::root());
    }
}

#[test]
fn preorder_from_entity_goes_on_past_subtree() {
    let (h, [a, b, c, d]) = sample();
    let mut it = (&a).into_iter(&h);
    let mut walked = Vec::new();
    while let Some(x) = it.next() {
        walked.push(x);
    }
    assert_eq!(walked, vec![a, b, c, d]);
}

#[test]
fn next_branch_skips_subtree() {
    let (h, [a, _b, _c, d]) = sample();
    let mut it = h.iter();
    assert_eq!(it.next(), Some(Entity::root()));
    assert_eq!(it.next_branch(), Some(a));
    assert_eq!(it.next(), Some(d));
    let mut last = (&d).into_iter(&h);
    assert_eq!(last.next_branch(), None);
    assert_eq!(last.next(), None);
    let mut it = (&a).into_iter(&h);
    assert_eq!(it.next_branch(), Some(a));
    assert_eq!(it.next(), Some(d));
    assert_eq!(it.next(), None);
}

#[test]
fn branch_iter_stays_in_subtree() {
    let (mut h, [a, b, c, _d]) = sample();
    h.add(e(5), b).unwrap();
    let mut it = (&a).branch_iter(&h);
    let mut walked = Vec::new();
    while let Some(x) = it.next() {
        walked.push(x);
    }
    assert_eq!(walked, vec![a, b, e(5), c]);
    let mut leaf = (&c).branch_iter(&h);
    assert_eq!(leaf.next(), Some(c));
    assert_eq!(leaf.next(), None);
}

#[test]
fn parent_iter_climbs_to_root() {
    let (h, [a, b, _c, _d]) = sample();
    let mut it = (&b).parent_iter(&h);
    assert_eq!(it.next(), Some(b));
    assert_eq!(it.next(), Some(a));
    assert_eq!(it.next(), Some(Entity::root()));
    assert_eq!(it.next(), None);
}

#[test]
fn clear_changed_flag() {
    let (mut h, _) = sample();
    assert!(h.changed());
    h.clear_changed();
    assert!(!h.changed());
}

#[test]
fn preorder_skips_removed_subtree() {
    let (mut h, [a, _b, _c, d]) = sample();
    h.remove(a).unwrap();
    assert_eq!(h.preorder(), vec![Entity::root(), d]);
    h.add(a, d).unwrap();
    assert_eq!(h.preorder(), vec![Entity::root(), d, a, e(2), e(3)]);
}
