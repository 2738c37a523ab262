//! Unit tests of the component store: kind lookup, the bitmask test, and
//! the dense/packed bookkeeping operations.

use ecs::{Component, ComponentData, ComponentManager, Entity, ErrEcs, Find, Vector2};

fn entity_with_mask(id: usize, mask: u32) -> Entity {
    Entity {
        id,
        component_bitmask: mask,
        owner: String::from("tester"),
    }
}

#[test]
fn kind_lookup_is_fixed() {
    assert_eq!(ComponentManager::get_component_id(&Find::Pos2), 0);
    assert_eq!(ComponentManager::get_component_bit(&Find::Pos2), 1);
}

#[test]
fn bitmask_test_reads_the_kind_bit() {
    let bare = entity_with_mask(0, 0);
    let holder = entity_with_mask(0, 1);
    assert!(!ComponentManager::entity_has_component(&bare, &Find::Pos2));
    assert!(ComponentManager::entity_has_component(&holder, &Find::Pos2));
}

#[test]
fn read_and_set_through_reserved_slots() {
    let mut data = ComponentData::new();
    ComponentManager::reserve(&mut data);
    ComponentManager::reserve(&mut data);
    let e0 = entity_with_mask(0, 0);
    assert_eq!(
        ComponentManager::read_component(&data, &e0, Find::Pos2),
        Ok(Component::Empty)
    );
    assert_eq!(
        ComponentManager::set_component(
            &mut data,
            &e0,
            &Find::Pos2,
            Component::Pos2(Vector2 { x: 8, y: 9 })
        ),
        Ok(())
    );
    assert_eq!(
        ComponentManager::read_component(&data, &e0, Find::Pos2),
        Ok(Component::Pos2(Vector2 { x: 8, y: 9 }))
    );
    let e1 = entity_with_mask(1, 0);
    assert_eq!(
        ComponentManager::read_component(&data, &e1, Find::Pos2),
        Ok(Component::Empty)
    );
}

#[test]
fn reads_beyond_reserved_slots_are_out_of_bounds() {
    let mut data = ComponentData::new();
    ComponentManager::reserve(&mut data);
    let beyond = entity_with_mask(5, 0);
    assert_eq!(
        ComponentManager::read_component(&data, &beyond, Find::Pos2),
        Err(ErrEcs::EidOutOfBounds)
    );
    assert_eq!(
        ComponentManager::set_component(
            &mut data,
            &beyond,
            &Find::Pos2,
            Component::Pos2(Vector2 { x: 1, y: 1 })
        ),
        Err(ErrEcs::EidOutOfBounds)
    );
}

#[test]
fn add_sets_all_three_structures_and_remove_clears_them() {
    let mut data = ComponentData::new();
    ComponentManager::reserve(&mut data);
    let mut e0 = entity_with_mask(0, 0);
    assert_eq!(
        ComponentManager::add_component(
            &mut data,
            &mut e0,
            Find::Pos2,
            Component::Pos2(Vector2 { x: 2, y: 3 })
        ),
        Ok(())
    );
    assert!(ComponentManager::entity_has_component(&e0, &Find::Pos2));
    assert_eq!(
        ComponentManager::read_component(&data, &e0, Find::Pos2),
        Ok(Component::Pos2(Vector2 { x: 2, y: 3 }))
    );
    assert_eq!(
        ComponentManager::add_component(
            &mut data,
            &mut e0,
            Find::Pos2,
            Component::Pos2(Vector2 { x: 4, y: 4 })
        ),
        Err(ErrEcs::ComponentAlreadyExists)
    );
    assert_eq!(
        ComponentManager::remove_component(&mut data, &mut e0, Find::Pos2),
        Ok(())
    );
    assert!(!ComponentManager::entity_has_component(&e0, &Find::Pos2));
    assert_eq!(
        ComponentManager::read_component(&data, &e0, Find::Pos2),
        Ok(Component::Empty)
    );
    assert_eq!(
        ComponentManager::remove_component(&mut data, &mut e0, Find::Pos2),
        Err(ErrEcs::EntityComponentNotFound)
    );
}

#[test]
fn free_clears_every_slot_of_the_id() {
    let mut data = ComponentData::new();
    ComponentManager::reserve(&mut data);
    ComponentManager::reserve(&mut data);
    let mut e0 = entity_with_mask(0, 0);
    let mut e1 = entity_with_mask(1, 0);
    assert_eq!(
        ComponentManager::add_component(
            &mut data,
            &mut e0,
            Find::Pos2,
            Component::Pos2(Vector2 { x: 1, y: 2 })
        ),
        Ok(())
    );
    assert_eq!(
        ComponentManager::add_component(
            &mut data,
            &mut e1,
            Find::Pos2,
            Component::Pos2(Vector2 { x: 3, y: 4 })
        ),
        Ok(())
    );
    ComponentManager::free(&mut data, &e0);
    assert_eq!(
        ComponentManager::read_component(&data, &e0, Find::Pos2),
        Ok(Component::Empty)
    );
    assert_eq!(
        ComponentManager::read_component(&data, &e1, Find::Pos2),
        Ok(Component::Pos2(Vector2 { x: 3, y: 4 }))
    );
}

#[test]
fn pack_and_unpack_keep_the_dense_slots() {
    let mut data = ComponentData::new();
    ComponentManager::reserve(&mut data);
    let e0 = entity_with_mask(0, 0);
    assert_eq!(ComponentManager::pack(&mut data, &e0, &Find::Pos2), Ok(()));
    assert_eq!(
        ComponentManager::set_component(
            &mut data,
            &e0,
            &Find::Pos2,
            Component::Pos2(Vector2 { x: 7, y: 7 })
        ),
        Ok(())
    );
    assert_eq!(ComponentManager::unpack(&mut data, &e0, &Find::Pos2), Ok(()));
    assert_eq!(
        ComponentManager::read_component(&data, &e0, Find::Pos2),
        Ok(Component::Pos2(Vector2 { x: 7, y: 7 }))
    );
}

#[test]
fn vector_and_component_equality_are_structural() {
    let a = Vector2 { x: 1, y: 2 };
    let b = Vector2 { x: 1, y: 2 };
    assert_eq!(a, b);
    assert_eq!(Component::Pos2(a), Component::Pos2(b));
    assert_ne!(Component::Pos2(a), Component::Empty);
    assert_ne!(
        Component::Pos2(Vector2 { x: 1, y: 2 }),
        Component::Pos2(Vector2 { x: 2, y: 1 })
    );
}
