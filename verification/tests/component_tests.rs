use solitaire_ecs::component::ComponentStorage;
use solitaire_ecs::entity::EntityManager;

#[derive(Debug, PartialEq, Clone)]
struct TestPosition {
    x: f32,
    y: f32,
}

#[derive(Debug, PartialEq, Clone)]
struct TestVelocity {
    dx: f32,
    dy: f32,
}

#[test]
fn insert_and_get_component() {
    let mut manager = EntityManager::default();
    let mut storage = ComponentStorage::<TestPosition>::default();

    let entity1 = manager.create_entity();
    let entity2 = manager.create_entity();

    let pos1 = TestPosition { x: 10.0, y: 20.0 };
    let pos2 = TestPosition { x: 30.0, y: 40.0 };

    storage.insert(entity1, pos1.clone());
    storage.insert(entity2, pos2.clone());

    assert_eq!(storage.get(entity1), Some(&pos1), "entity 1 has the wrong position");
    assert_eq!(storage.get(entity2), Some(&pos2), "entity 2 has the wrong position");

    let entity3 = manager.create_entity();
    assert_eq!(storage.get(entity3), None, "a component was found where none was added");
}

#[test]
fn get_mut_component() {
    let mut manager = EntityManager::default();
    let mut storage = ComponentStorage::<TestPosition>::default();
    let entity1 = manager.create_entity();
    let pos1 = TestPosition { x: 10.0, y: 20.0 };
    storage.insert(entity1, pos1);

    if let Some(pos_mut) = storage.get_mut(entity1) {
        pos_mut.x = 15.0;
    } else {
        panic!("get_mut found no component");
    }

    assert_eq!(storage.get(entity1), Some(&TestPosition { x: 15.0, y: 20.0 }), "the change was not kept");
}

#[test]
fn remove_component() {
    let mut manager = EntityManager::default();
    let mut storage = ComponentStorage::<TestPosition>::default();
    let entity1 = manager.create_entity();
    let pos1 = TestPosition { x: 10.0, y: 20.0 };
    storage.insert(entity1, pos1.clone());

    assert!(storage.get(entity1).is_some(), "the component is missing before removal");

    let removed_component = storage.remove(entity1);

    assert_eq!(removed_component, Some(pos1), "the wrong component was removed");
    assert!(storage.get(entity1).is_none(), "the component was not removed");
}

#[test]
fn iter_components() {
    let mut manager = EntityManager::default();
    let mut storage = ComponentStorage::<TestPosition>::default();
    let entity1 = manager.create_entity();
    let entity2 = manager.create_entity();
    let pos1 = TestPosition { x: 10.0, y: 20.0 };
    let pos2 = TestPosition { x: 30.0, y: 40.0 };
    storage.insert(entity1, pos1.clone());
    storage.insert(entity2, pos2.clone());

    let mut count = 0;
    let mut found1 = false;
    let mut found2 = false;
    for (entity, pos) in storage.iter() {
        if entity == entity1 {
            assert_eq!(pos, &pos1, "wrong component for entity 1");
            found1 = true;
        } else if entity == entity2 {
            assert_eq!(pos, &pos2, "wrong component for entity 2");
            found2 = true;
        } else {
            panic!("an unexpected entity was found");
        }
        count += 1;
    }
    assert!(found1 && found2, "not both entities were found");
    assert_eq!(count, 2, "wrong number of components");
}

#[test]
fn different_component_types() {
    let mut manager = EntityManager::default();
    let mut pos_storage = ComponentStorage::<TestPosition>::default();
    let mut vel_storage = ComponentStorage::<TestVelocity>::default();

    let entity1 = manager.create_entity();
    let entity2 = manager.create_entity();

    let pos1 = TestPosition { x: 1.0, y: 2.0 };
    let vel1 = TestVelocity { dx: 3.0, dy: 4.0 };
    let pos2 = TestPosition { x: 5.0, y: 6.0 };

    pos_storage.insert(entity1, pos1.clone());
    vel_storage.insert(entity1, vel1.clone());
    pos_storage.insert(entity2, pos2.clone());

    assert_eq!(pos_storage.get(entity1), Some(&pos1));
    assert_eq!(vel_storage.get(entity1), Some(&vel1));
    assert_eq!(pos_storage.get(entity2), Some(&pos2));
    assert_eq!(vel_storage.get(entity2), None);
}

#[test]
fn storage_len_and_entities() {
    let mut storage = ComponentStorage::<u32>::new();
    assert!(storage.is_empty());
    storage.insert(solitaire_ecs::entity::Entity(3), 7);
    storage.insert(solitaire_ecs::entity::Entity(5), 9);
    storage.insert(solitaire_ecs::entity::Entity(3), 8);
    assert_eq!(storage.len(), 2);
    assert!(!storage.is_empty());
    let mut ids: Vec<usize> = storage.entities().iter().map(|e| e.0).collect();
    ids.sort();
    assert_eq!(ids, vec![3, 5]);
    assert_eq!(storage.get(solitaire_ecs::entity::Entity(3)), Some(&8));
}
