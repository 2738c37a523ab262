//! Unit tests of the id allocator: FIFO recycling and fresh issuance.

use ecs::EidManager;

#[test]
fn first_entity_gets_id_zero() {
    let mut manager = EidManager::new();
    let e = manager.create("Alice");
    assert_eq!(e.id, 0);
    assert_eq!(e.component_bitmask, 0);
    assert_eq!(e.owner, String::from("Alice"));
}

#[test]
fn fresh_ids_grow_monotonically() {
    let mut manager = EidManager::new();
    let e0 = manager.create("a");
    let e1 = manager.create("a");
    let e2 = manager.create("a");
    assert_eq!(e0.id, 0);
    assert_eq!(e1.id, 1);
    assert_eq!(e2.id, 2);
}

#[test]
fn freed_ids_are_reused_oldest_first() {
    let mut manager = EidManager::new();
    let e0 = manager.create("a");
    let e1 = manager.create("a");
    let e2 = manager.create("a");
    manager.free(&e1);
    manager.free(&e0);
    let r1 = manager.create("b");
    let r2 = manager.create("b");
    let r3 = manager.create("b");
    assert_eq!(r1.id, 1);
    assert_eq!(r2.id, 0);
    assert_eq!(r3.id, 3);
    assert_eq!(e2.id, 2);
}
