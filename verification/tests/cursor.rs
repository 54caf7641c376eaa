use protosnirk::scoped_id::ScopedId;

fn assert_components(id: &ScopedId, expected: &[u64]) {
    assert_eq!(id.components().as_slice(), expected);
}

#[test]
fn unset_is_the_sentinel() {
    let id = ScopedId::unset();
    assert!(id.is_unset());
    assert_eq!(id.depth(), 0);
}

#[test]
fn push_increment_pop_walk_the_tree() {
    let mut id = ScopedId::unset();
    id.push();
    assert!(!id.is_unset());
    assert_components(&id, &[0]);
    id.increment();
    assert_components(&id, &[1]);
    id.push();
    assert_components(&id, &[1, 0]);
    id.increment();
    id.increment();
    assert_components(&id, &[1, 2]);
    id.pop();
    assert_components(&id, &[1]);
    id.increment();
    assert_components(&id, &[2]);
}

#[test]
fn snapshot_is_independent_of_later_mutation() {
    let mut id = ScopedId::unset();
    id.push();
    id.increment();
    let snap = id.snapshot();
    id.push();
    id.increment();
    assert_components(&snap, &[1]);
    assert_components(&id, &[1, 1]);
}

#[test]
fn equality_is_structural() {
    let mut a = ScopedId::unset();
    a.push();
    a.increment();
    let mut b = ScopedId::unset();
    b.push();
    b.increment();
    assert!(a == b);
    b.push();
    assert!(a != b);
    assert!(ScopedId::unset() != a);
}
