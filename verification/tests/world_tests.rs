use solitaire_ecs::components::{DraggingInfo, GameState, Position, StackInfo, StackType};
use solitaire_ecs::entity::Entity;
use solitaire_ecs::world::World;

/// The world holds the game's kinds of component only: a dragging info's offsets stand
/// in for a velocity.
fn velocity(dx: i64, dy: i64) -> DraggingInfo {
    DraggingInfo {
        original_position_in_stack: 0,
        original_stack_entity: Entity(0),
        original_x: 0,
        original_y: 0,
        offset_x: dx,
        offset_y: dy,
    }
}

#[test]
fn test_new_world_is_empty() {
    let world = World::new();
    assert_eq!(world.entity_count(), 0, "New world should have no entities");
    assert_eq!(world.next_entity_id(), 0, "Next entity ID should start at 0");
    assert!(world.storage::<Position>().is_none(), "New world should have no component stores");
    assert!(world.storage::<DraggingInfo>().is_none(), "New world should have no component stores");
}

#[test]
fn test_create_entity() {
    let mut world = World::new();
    let entity1 = world.create_entity();
    let entity2 = world.create_entity();

    assert_eq!(entity1, Entity(0), "First entity ID should be 0");
    assert_eq!(entity2, Entity(1), "Second entity ID should be 1");
    assert_eq!(world.next_entity_id(), 2, "Next entity ID should be 2");
    assert_eq!(world.entity_count(), 2, "World should contain 2 entities");
    assert!(world.is_entity_alive(entity1), "World should contain entity1");
    assert!(world.is_entity_alive(entity2), "World should contain entity2");
}

#[test]
fn test_create_entity_with_id() {
    let mut world = World::new();
    let entity5 = Entity(5);
    let entity2 = Entity(2);

    world.create_entity_with_id(entity5);
    assert!(world.is_entity_alive(entity5), "Entity 5 should be alive");
    assert_eq!(world.next_entity_id(), 6, "Next ID should be 6 after adding entity 5");
    assert_eq!(world.entity_count(), 1, "World should have 1 entity");

    world.create_entity_with_id(entity2);
    assert!(world.is_entity_alive(entity2), "Entity 2 should be alive");
    assert_eq!(world.next_entity_id(), 6, "Next ID should still be 6 after adding entity 2");
    assert_eq!(world.entity_count(), 2, "World should have 2 entities");

    let entity6 = world.create_entity();
    assert_eq!(entity6, Entity(6), "Next created entity should have ID 6");
    assert_eq!(world.next_entity_id(), 7, "Next ID should become 7");
    assert_eq!(world.entity_count(), 3, "World should have 3 entities");
}

#[test]
fn test_is_entity_alive() {
    let mut world = World::new();
    let entity0 = world.create_entity();
    let entity1 = Entity(1);

    assert!(world.is_entity_alive(entity0), "Entity 0 should be alive");
    assert!(!world.is_entity_alive(entity1), "Entity 1 should not be alive yet");

    world.create_entity_with_id(entity1);
    assert!(world.is_entity_alive(entity1), "Entity 1 should be alive now");
}

#[test]
fn test_register_and_add_component() {
    let mut world = World::new();
    world.register_component::<Position>();

    let entity1 = world.create_entity();
    let pos1 = Position { x: 10, y: 20 };
    world.add_component(entity1, pos1);

    let storage = world.storage::<Position>().expect("Position storage should exist");
    assert_eq!(storage.len(), 1, "Position storage should have 1 entry");
    assert_eq!(storage.get(entity1), Some(&pos1), "Stored position should match");
    assert_eq!(storage.len(), 1, "Storage size should remain 1 BEFORE adding to non-existent");

    assert_eq!(world.get_component::<Position>(entity1), Some(&pos1));

    let non_existent_entity = Entity(99);
    world.add_component(non_existent_entity, Position { x: 0, y: 0 });
    assert_eq!(world.get_component::<Position>(non_existent_entity), None);
}

#[test]
fn test_get_component() {
    let mut world = World::new();
    world.register_component::<Position>();
    world.register_component::<DraggingInfo>();

    let entity1 = world.create_entity();
    let entity2 = world.create_entity();

    let pos1 = Position { x: 1, y: 2 };
    let vel1 = velocity(3, 4);
    let pos2 = Position { x: 5, y: 6 };

    world.add_component(entity1, pos1);
    world.add_component(entity1, vel1);
    world.add_component(entity2, pos2);

    assert_eq!(world.get_component::<Position>(entity1), Some(&pos1));
    assert_eq!(world.get_component::<DraggingInfo>(entity1), Some(&vel1));
    assert_eq!(world.get_component::<Position>(entity2), Some(&pos2));

    assert_eq!(world.get_component::<DraggingInfo>(entity2), None);
    assert_eq!(world.get_component::<Position>(Entity(99)), None);
    assert_eq!(world.get_component::<GameState>(entity1), None);
}

#[test]
fn test_get_component_mut() {
    let mut world = World::new();
    world.register_component::<Position>();

    let entity1 = world.create_entity();
    let pos1 = Position { x: 1, y: 2 };
    world.add_component(entity1, pos1);

    {
        let pos_mut = world.get_component_mut::<Position>(entity1).expect("Should get mutable position");
        pos_mut.x += 10;
        pos_mut.y += 20;
    }

    let expected_pos = Position { x: 11, y: 22 };
    assert_eq!(world.get_component::<Position>(entity1), Some(&expected_pos));

    assert!(world.get_component_mut::<DraggingInfo>(entity1).is_none());
    assert!(world.get_component_mut::<Position>(Entity(99)).is_none());
    assert!(world.get_component_mut::<GameState>(entity1).is_none());
}

#[test]
fn test_remove_component() {
    let mut world = World::new();
    world.register_component::<Position>();

    let entity1 = world.create_entity();
    let pos1 = Position { x: 1, y: 2 };
    world.add_component(entity1, pos1);

    let removed = world.remove_component::<Position>(entity1);
    assert_eq!(removed, Some(pos1), "Should return the removed component");
    assert_eq!(world.get_component::<Position>(entity1), None);

    let storage = world.storage::<Position>().unwrap();
    assert!(storage.get(entity1).is_none(), "Component should be gone from storage");
    assert!(world.storage::<Position>().is_some());

    let removed_again = world.remove_component::<Position>(entity1);
    assert_eq!(removed_again, None, "Removing again should return None");

    assert_eq!(world.remove_component::<Position>(Entity(99)), None);
    assert_eq!(world.remove_component::<GameState>(entity1), None);
}

#[test]
fn test_get_all_entities_with_component() {
    let mut world = World::new();
    world.register_component::<Position>();
    world.register_component::<DraggingInfo>();

    let e1 = world.create_entity();
    let e2 = world.create_entity();
    let e3 = world.create_entity();
    let _e4 = world.create_entity();
    let e5 = world.create_entity();

    world.add_component(e1, Position { x: 0, y: 0 });
    world.add_component(e1, velocity(1, 1));
    world.add_component(e2, Position { x: 1, y: 1 });
    world.add_component(e3, velocity(2, 2));
    world.add_component(e5, Position { x: 0, y: 0 });

    let mut pos_entities = world.get_all_entities_with_component::<Position>();
    pos_entities.sort_by_key(|e| e.0);
    assert_eq!(pos_entities, vec![e1, e2, e5]);

    let mut vel_entities = world.get_all_entities_with_component::<DraggingInfo>();
    vel_entities.sort_by_key(|e| e.0);
    assert_eq!(vel_entities, vec![e1, e3]);

    let unregistered_entities = world.get_all_entities_with_component::<GameState>();
    assert!(unregistered_entities.is_empty());

    world.destroy_entity(e5);
    let mut pos_entities_after_destroy = world.get_all_entities_with_component::<Position>();
    pos_entities_after_destroy.sort_by_key(|e| e.0);
    assert_eq!(pos_entities_after_destroy, vec![e1, e2], "Destroyed entity e5 should not be included");

    world.remove_component::<Position>(e1);
    let mut pos_entities_after_remove = world.get_all_entities_with_component::<Position>();
    pos_entities_after_remove.sort_by_key(|e| e.0);
    assert_eq!(pos_entities_after_remove, vec![e2], "Entity e1 should not be included after removing Position");
}

#[test]
fn test_destroy_entity_removes_components() {
    let mut world = World::new();
    world.register_component::<Position>();
    world.register_component::<DraggingInfo>();

    let entity_to_destroy = world.create_entity();
    let other_entity = world.create_entity();

    world.add_component(entity_to_destroy, Position { x: 1, y: 1 });
    world.add_component(entity_to_destroy, velocity(1, 1));
    world.add_component(other_entity, Position { x: 2, y: 2 });

    let destroyed = world.destroy_entity(entity_to_destroy);
    assert!(destroyed, "destroy_entity should return true for existing entity");

    assert!(!world.is_entity_alive(entity_to_destroy), "Destroyed entity should not be alive");
    assert!(world.is_entity_alive(other_entity), "Other entity should still be alive");

    assert!(world.get_component::<Position>(entity_to_destroy).is_none(), "Position for destroyed entity should be None");
    assert!(world.get_component::<DraggingInfo>(entity_to_destroy).is_none(), "Velocity for destroyed entity should be None");

    assert!(world.get_component::<Position>(other_entity).is_some(), "Position for other entity should remain");
    assert_eq!(world.get_component::<Position>(other_entity).unwrap(), &Position { x: 2, y: 2 });

    let pos_storage = world.storage::<Position>().unwrap();
    assert!(pos_storage.get(entity_to_destroy).is_none(), "Position should be removed from storage map");
    assert!(pos_storage.get(other_entity).is_some(), "Other entity's position should remain in storage map");
    assert_eq!(pos_storage.len(), 1, "Position storage should contain only other_entity's component");

    let vel_storage = world.storage::<DraggingInfo>().unwrap();
    assert!(vel_storage.get(entity_to_destroy).is_none(), "Velocity should be removed from storage map");
    assert!(vel_storage.is_empty(), "Velocity storage should be empty as only destroyed entity had it");

    let destroyed_again = world.destroy_entity(entity_to_destroy);
    assert!(!destroyed_again, "Destroying already destroyed entity should return false");

    let destroyed_non_existent = world.destroy_entity(Entity(99));
    assert!(!destroyed_non_existent, "Destroying non-existent entity should return false");
}

#[test]
fn register_again_empties_the_store() {
    let mut world = World::new();
    world.register_component::<Position>();
    let e = world.create_entity();
    world.add_component(e, Position { x: 3, y: 4 });
    world.register_component::<Position>();
    assert_eq!(world.get_component::<Position>(e), None);
    assert!(world.is_entity_alive(e));
}

#[test]
fn find_entity_by_stack_type_takes_the_smallest_id() {
    let mut world = World::new();
    world.register_component::<StackInfo>();
    let a = world.create_entity();
    let b = world.create_entity();
    let c = world.create_entity();
    world.add_component(a, StackInfo::new(StackType::Waste, 0));
    world.add_component(b, StackInfo::new(StackType::Stock, 3));
    world.add_component(c, StackInfo::new(StackType::Stock, 1));
    assert_eq!(world.find_entity_by_stack_type(StackType::Stock), Some(b));
    assert_eq!(world.find_entity_by_stack_type(StackType::Waste), Some(a));
    assert_eq!(world.find_entity_by_stack_type(StackType::Tableau(0)), None);
}

#[test]
fn a_change_to_one_kind_leaves_the_others_alone() {
    let mut world = World::new();
    world.register_component::<Position>();
    let e = world.create_entity();
    world.add_component(e, Position { x: 3, y: 4 });
    world.register_component::<StackInfo>();
    assert!(world.get_all_entities_with_component::<StackInfo>().is_empty(), "a new kind holds nothing");
    world.add_component(e, StackInfo::new(StackType::Waste, 2));
    assert_eq!(world.get_component::<StackInfo>(e), Some(&StackInfo::new(StackType::Waste, 2)));
    assert_eq!(world.get_component::<Position>(e), Some(&Position { x: 3, y: 4 }));
    world.remove_component::<StackInfo>(e);
    assert_eq!(world.get_component::<Position>(e), Some(&Position { x: 3, y: 4 }));
    assert!(world.get_component::<GameState>(e).is_none());
}

#[test]
fn a_created_identifier_exceeds_every_identifier_used_before() {
    let mut world = World::new();
    let a = world.create_entity();
    world.create_entity_with_id(Entity(10));
    world.destroy_entity(Entity(10));
    world.create_entity_with_id(Entity(4));
    assert_eq!(world.next_entity_id(), 11, "the next identifier never goes down");
    let b = world.create_entity();
    assert_eq!(b, Entity(11));
    assert!(b.0 > a.0 && b.0 > 10 && b.0 > 4);
    assert!(!world.is_entity_alive(Entity(10)));
}
