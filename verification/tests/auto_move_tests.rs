use solitaire_ecs::components::{Card, Rank, Suit, StackInfo, StackType};
use solitaire_ecs::entity::Entity;
use solitaire_ecs::logic::auto_move::{find_automatic_foundation_move, get_foundation_top_card};
use solitaire_ecs::world::World;

fn add_card_to_foundation(world: &mut World, suit: Suit, rank: Rank, index: u8, pos: u8) -> Entity {
    let entity = world.create_entity();
    let card = Card { suit, rank, is_face_up: true };
    let stack_info = StackInfo { stack_type: StackType::Foundation(index), position_in_stack: pos };
    world.add_component(entity, card);
    world.add_component(entity, stack_info);
    entity
}

#[test]
fn auto_move_test_find_automatic_foundation_move() {
    let mut world = World::new();
    world.register_component::<Card>();
    world.register_component::<StackInfo>();

    let ace_hearts = Card { suit: Suit::Heart, rank: Rank::Ace, is_face_up: true };
    let two_hearts = Card { suit: Suit::Heart, rank: Rank::Two, is_face_up: true };
    let ace_spades = Card { suit: Suit::Spade, rank: Rank::Ace, is_face_up: true };
    let three_hearts = Card { suit: Suit::Heart, rank: Rank::Three, is_face_up: true };

    assert_eq!(find_automatic_foundation_move(&ace_hearts, &world), Some(StackType::Foundation(0)), "Scenario 1: ace of hearts to foundation 0");
    assert_eq!(find_automatic_foundation_move(&ace_spades, &world), Some(StackType::Foundation(3)), "Scenario 1: ace of spades to foundation 3");
    assert_eq!(find_automatic_foundation_move(&two_hearts, &world), None, "Scenario 1: a two goes nowhere");

    let entity_ace_h_s2 = add_card_to_foundation(&mut world, Suit::Heart, Rank::Ace, 0, 0);
    assert_eq!(find_automatic_foundation_move(&two_hearts, &world), Some(StackType::Foundation(0)), "Scenario 2: two of hearts onto the ace");
    assert_eq!(find_automatic_foundation_move(&ace_spades, &world), Some(StackType::Foundation(3)), "Scenario 2: ace of spades still to foundation 3");
    assert!(world.destroy_entity(entity_ace_h_s2), "Scenario 2: Failed to destroy test entity");

    let entity_ace_h_s3 = add_card_to_foundation(&mut world, Suit::Heart, Rank::Ace, 0, 0);
    let entity_two_h_s3 = add_card_to_foundation(&mut world, Suit::Heart, Rank::Two, 0, 1);
    assert_eq!(find_automatic_foundation_move(&three_hearts, &world), Some(StackType::Foundation(0)), "Scenario 3: three of hearts onto the two");
    assert_eq!(find_automatic_foundation_move(&ace_spades, &world), Some(StackType::Foundation(3)), "Scenario 3: Ace of Spades should still move");
    assert!(world.destroy_entity(entity_ace_h_s3), "Scenario 3: Failed to destroy test entity ace");
    assert!(world.destroy_entity(entity_two_h_s3), "Scenario 3: Failed to destroy test entity two");
}

#[test]
fn foundation_top_card_is_the_highest_placed_card() {
    let mut world = World::new();
    world.register_component::<Card>();
    world.register_component::<StackInfo>();
    assert_eq!(get_foundation_top_card(&world, 2), None);
    add_card_to_foundation(&mut world, Suit::Club, Rank::Ace, 2, 0);
    add_card_to_foundation(&mut world, Suit::Club, Rank::Two, 2, 1);
    assert_eq!(get_foundation_top_card(&world, 2), Some(&Card { suit: Suit::Club, rank: Rank::Two, is_face_up: true }));
}
