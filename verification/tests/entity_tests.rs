use solitaire_ecs::entity::EntityManager;

#[test]
fn create_entities_gives_unique_ids() {
    let mut manager = EntityManager::default();

    let entity1 = manager.create_entity();
    let entity2 = manager.create_entity();
    let entity3 = manager.create_entity();

    assert_ne!(entity1, entity2, "entities 1 and 2 share an id");
    assert_ne!(entity1, entity3, "entities 1 and 3 share an id");
    assert_ne!(entity2, entity3, "entities 2 and 3 share an id");

    assert_eq!(entity1.0, 0, "the first id is 0");
    assert_eq!(entity2.0, 1, "the second id is 1");
    assert_eq!(entity3.0, 2, "the third id is 2");
}
