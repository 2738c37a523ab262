//! End-to-end tests of the facade: lifecycle, ownership gating, and the
//! mutation dispatcher.

use ecs::{Component, Entity, ErrEcs, Find, System, SystemMessage, Vector2, ECS};

#[test]
fn scenario_position_lifecycle() {
    let mut ecs = ECS::new();
    let mut e1 = ecs.create_for("Alice");
    assert_eq!(
        ecs.add_component(&mut e1, Find::Pos2, Component::Pos2(Vector2 { x: 0, y: 1 })),
        Ok(())
    );
    assert_eq!(
        ecs.read_component(&e1, Find::Pos2),
        Ok(Component::Pos2(Vector2 { x: 0, y: 1 }))
    );
    assert_eq!(
        ecs.system_send(
            &e1,
            System::Position,
            SystemMessage::Pos2Set(Vector2 { x: 300, y: 300 })
        ),
        Ok(())
    );
    assert_eq!(
        ecs.read_component(&e1, Find::Pos2),
        Ok(Component::Pos2(Vector2 { x: 300, y: 300 }))
    );
    assert_eq!(ecs.remove_component(&mut e1, Find::Pos2), Ok(()));
    assert_eq!(ecs.read_component(&e1, Find::Pos2), Ok(Component::Empty));
}

#[test]
fn wrong_owner_is_rejected_without_mutation() {
    let mut ecs = ECS::new();
    let mut e1 = ecs.create_for("Alice");
    let _e2 = ecs.create_for("Bob");
    assert_eq!(
        ecs.add_component(&mut e1, Find::Pos2, Component::Pos2(Vector2 { x: 4, y: 5 })),
        Ok(())
    );
    let imposter = Entity {
        id: e1.id,
        component_bitmask: e1.component_bitmask,
        owner: String::from("Bob"),
    };
    assert_eq!(
        ecs.read_component(&imposter, Find::Pos2),
        Err(ErrEcs::UserDoesNotOwn)
    );
    let mut imposter_mut = Entity {
        id: e1.id,
        component_bitmask: e1.component_bitmask,
        owner: String::from("Bob"),
    };
    assert_eq!(
        ecs.remove_component(&mut imposter_mut, Find::Pos2),
        Err(ErrEcs::UserDoesNotOwn)
    );
    assert_eq!(
        ecs.system_send(
            &imposter,
            System::Position,
            SystemMessage::Pos2Set(Vector2 { x: 9, y: 9 })
        ),
        Err(ErrEcs::UserDoesNotOwn)
    );
    assert_eq!(
        ecs.read_component(&e1, Find::Pos2),
        Ok(Component::Pos2(Vector2 { x: 4, y: 5 }))
    );
}

#[test]
fn unknown_owner_is_not_found() {
    let ecs = ECS::new();
    let ghost_entity = Entity {
        id: 0,
        component_bitmask: 0,
        owner: String::from("Ghost"),
    };
    assert_eq!(
        ecs.read_component(&ghost_entity, Find::Pos2),
        Err(ErrEcs::UserNotFound)
    );
}

#[test]
fn adding_twice_fails_and_changes_nothing() {
    let mut ecs = ECS::new();
    let mut e1 = ecs.create_for("Alice");
    assert_eq!(
        ecs.add_component(&mut e1, Find::Pos2, Component::Pos2(Vector2 { x: 1, y: 2 })),
        Ok(())
    );
    assert_eq!(
        ecs.add_component(&mut e1, Find::Pos2, Component::Pos2(Vector2 { x: 7, y: 8 })),
        Err(ErrEcs::ComponentAlreadyExists)
    );
    assert_eq!(
        ecs.read_component(&e1, Find::Pos2),
        Ok(Component::Pos2(Vector2 { x: 1, y: 2 }))
    );
}

#[test]
fn removing_a_missing_component_fails_and_changes_nothing() {
    let mut ecs = ECS::new();
    let mut e1 = ecs.create_for("Alice");
    assert_eq!(
        ecs.remove_component(&mut e1, Find::Pos2),
        Err(ErrEcs::EntityComponentNotFound)
    );
    assert_eq!(ecs.read_component(&e1, Find::Pos2), Ok(Component::Empty));
    assert_eq!(
        ecs.add_component(&mut e1, Find::Pos2, Component::Pos2(Vector2 { x: 3, y: 3 })),
        Ok(())
    );
}

#[test]
fn freed_id_is_reused_fifo_and_reads_empty() {
    let mut ecs = ECS::new();
    let mut e1 = ecs.create_for("Alice");
    let e2 = ecs.create_for("Alice");
    let e3 = ecs.create_for("Alice");
    assert_eq!(e1.id, 0);
    assert_eq!(e2.id, 1);
    assert_eq!(e3.id, 2);
    assert_eq!(
        ecs.add_component(&mut e1, Find::Pos2, Component::Pos2(Vector2 { x: 6, y: 6 })),
        Ok(())
    );
    ecs.free(e1);
    ecs.free(e2);
    let e4 = ecs.create_for("Carol");
    let e5 = ecs.create_for("Carol");
    let e6 = ecs.create_for("Carol");
    assert_eq!(e4.id, 0);
    assert_eq!(e5.id, 1);
    assert_eq!(e6.id, 3);
    assert_eq!(e4.component_bitmask, 0);
    assert_eq!(ecs.read_component(&e4, Find::Pos2), Ok(Component::Empty));
}

#[test]
fn freed_entity_no_longer_authenticates() {
    let mut ecs = ECS::new();
    let e1 = ecs.create_for("Alice");
    let stale = Entity {
        id: e1.id,
        component_bitmask: e1.component_bitmask,
        owner: String::from("Alice"),
    };
    ecs.free(e1);
    assert_eq!(
        ecs.read_component(&stale, Find::Pos2),
        Err(ErrEcs::UserDoesNotOwn)
    );
}

#[test]
fn stopped_system_accepts_no_more_messages() {
    let mut ecs = ECS::new();
    let mut e1 = ecs.create_for("Alice");
    assert_eq!(
        ecs.add_component(&mut e1, Find::Pos2, Component::Pos2(Vector2 { x: 1, y: 1 })),
        Ok(())
    );
    assert_eq!(
        ecs.system_send(&e1, System::Position, SystemMessage::Stop),
        Ok(())
    );
    assert_eq!(
        ecs.system_send(
            &e1,
            System::Position,
            SystemMessage::Pos2Set(Vector2 { x: 2, y: 2 })
        ),
        Err(ErrEcs::SystemTransmitterNotFound)
    );
    assert_eq!(
        ecs.read_component(&e1, Find::Pos2),
        Ok(Component::Pos2(Vector2 { x: 1, y: 1 }))
    );
}

#[test]
fn system_send_requires_the_component() {
    let mut ecs = ECS::new();
    let e1 = ecs.create_for("Alice");
    assert_eq!(
        ecs.system_send(
            &e1,
            System::Position,
            SystemMessage::Pos2Set(Vector2 { x: 2, y: 2 })
        ),
        Err(ErrEcs::EntityComponentNotFound)
    );
    assert_eq!(ecs.read_component(&e1, Find::Pos2), Ok(Component::Empty));
}

#[test]
fn non_set_messages_leave_the_store_unchanged() {
    let mut ecs = ECS::new();
    let mut e1 = ecs.create_for("Alice");
    assert_eq!(
        ecs.add_component(&mut e1, Find::Pos2, Component::Pos2(Vector2 { x: 5, y: 6 })),
        Ok(())
    );
    assert_eq!(
        ecs.system_send(
            &e1,
            System::Position,
            SystemMessage::Pos2Add(Vector2 { x: 1, y: 1 })
        ),
        Ok(())
    );
    assert_eq!(
        ecs.system_send(&e1, System::Position, SystemMessage::Pos2IncX),
        Ok(())
    );
    assert_eq!(
        ecs.read_component(&e1, Find::Pos2),
        Ok(Component::Pos2(Vector2 { x: 5, y: 6 }))
    );
}
