use solitaire_ecs::components::{Card, Rank, Suit, StackInfo, StackType};
use solitaire_ecs::entity::Entity;
use solitaire_ecs::logic::rules as world_rules;
use solitaire_ecs::rules::{
    can_deal_from_stock, can_move_from_waste_to_foundation, can_move_from_waste_to_tableau, can_move_to_foundation,
    can_move_to_tableau, can_reset_stock_from_waste, check_win_condition, CardColor,
};
use solitaire_ecs::world::World;

#[test]
fn rules_test_card_color() {
    assert_eq!(CardColor::from_suit(Suit::Heart), CardColor::Red);
    assert_eq!(CardColor::from_suit(Suit::Diamond), CardColor::Red);
    assert_eq!(CardColor::from_suit(Suit::Club), CardColor::Black);
    assert_eq!(CardColor::from_suit(Suit::Spade), CardColor::Black);
}

#[test]
fn rules_test_can_move_to_foundation_rules() {
    let ace_hearts = Card { suit: Suit::Heart, rank: Rank::Ace, is_face_up: true };
    let two_hearts = Card { suit: Suit::Heart, rank: Rank::Two, is_face_up: true };
    let three_hearts = Card { suit: Suit::Heart, rank: Rank::Three, is_face_up: true };
    let ace_spades = Card { suit: Suit::Spade, rank: Rank::Ace, is_face_up: true };

    assert!(can_move_to_foundation(&ace_hearts, None, Suit::Heart), "an ace goes on its empty foundation");
    assert!(!can_move_to_foundation(&two_hearts, None, Suit::Heart), "a two does not go on an empty foundation");
    assert!(!can_move_to_foundation(&ace_spades, None, Suit::Heart), "an ace does not go on another suit's foundation");

    assert!(can_move_to_foundation(&two_hearts, Some(&ace_hearts), Suit::Heart), "a two goes on its ace");
    assert!(!can_move_to_foundation(&three_hearts, Some(&ace_hearts), Suit::Heart), "a three does not go on an ace");
    let two_spades = Card { suit: Suit::Spade, rank: Rank::Two, is_face_up: true };
    assert!(!can_move_to_foundation(&two_spades, Some(&ace_hearts), Suit::Heart), "a two of spades does not go on hearts");

    assert!(can_move_to_foundation(&three_hearts, Some(&two_hearts), Suit::Heart), "a three goes on its two");
}

#[test]
fn rules_test_can_move_to_tableau_rules() {
    let king_spades = Card { suit: Suit::Spade, rank: Rank::King, is_face_up: true };
    let queen_hearts = Card { suit: Suit::Heart, rank: Rank::Queen, is_face_up: true };
    let jack_diamonds = Card { suit: Suit::Diamond, rank: Rank::Jack, is_face_up: true };
    let jack_spades = Card { suit: Suit::Spade, rank: Rank::Jack, is_face_up: true };
    let ten_hearts = Card { suit: Suit::Heart, rank: Rank::Ten, is_face_up: true };

    assert!(can_move_to_tableau(&king_spades, None), "a king goes on an empty pile");
    assert!(!can_move_to_tableau(&queen_hearts, None), "a queen does not go on an empty pile");

    assert!(can_move_to_tableau(&jack_spades, Some(&queen_hearts)), "a black jack goes on a red queen");
    assert!(!can_move_to_tableau(&jack_diamonds, Some(&queen_hearts)), "a red jack does not go on a red queen");
    let ten_clubs = Card { suit: Suit::Club, rank: Rank::Ten, is_face_up: true };
    assert!(!can_move_to_tableau(&ten_clubs, Some(&queen_hearts)), "a ten does not go on a queen");

    assert!(can_move_to_tableau(&ten_hearts, Some(&jack_spades)), "a red ten goes on a black jack");
}

#[test]
fn rules_test_stock_waste_rules() {
    assert!(can_deal_from_stock(false), "a full stock deals");
    assert!(!can_reset_stock_from_waste(false, false), "a full stock is not reset");
    assert!(!can_reset_stock_from_waste(false, true), "a full stock is not reset");

    assert!(!can_deal_from_stock(true), "an empty stock does not deal");
    assert!(can_reset_stock_from_waste(true, false), "an empty stock is reset from a waste with cards");
    assert!(!can_reset_stock_from_waste(true, true), "nothing is reset when both are empty");
}

#[test]
fn rules_test_can_move_from_waste_rules() {
    let queen_hearts = Card { suit: Suit::Heart, rank: Rank::Queen, is_face_up: true };
    let jack_spades = Card { suit: Suit::Spade, rank: Rank::Jack, is_face_up: true };
    let king_spades = Card { suit: Suit::Spade, rank: Rank::King, is_face_up: true };

    let ace_hearts = Card { suit: Suit::Heart, rank: Rank::Ace, is_face_up: true };
    let two_hearts = Card { suit: Suit::Heart, rank: Rank::Two, is_face_up: true };
    let ace_clubs = Card { suit: Suit::Club, rank: Rank::Ace, is_face_up: true };

    assert!(can_move_from_waste_to_tableau(&jack_spades, Some(&queen_hearts)), "J of spades onto Q of hearts");
    assert!(!can_move_from_waste_to_tableau(&jack_spades, Some(&king_spades)), "J of spades not onto K of spades");
    assert!(can_move_from_waste_to_tableau(&king_spades, None), "K of spades onto an empty pile");
    assert!(!can_move_from_waste_to_tableau(&queen_hearts, None), "Q of hearts not onto an empty pile");

    assert!(can_move_from_waste_to_foundation(&ace_hearts, None, Suit::Heart), "A of hearts onto the empty hearts foundation");
    assert!(!can_move_from_waste_to_foundation(&ace_clubs, None, Suit::Heart), "A of clubs not onto the hearts foundation");
    assert!(can_move_from_waste_to_foundation(&two_hearts, Some(&ace_hearts), Suit::Heart), "2 of hearts onto A of hearts");
    assert!(!can_move_from_waste_to_foundation(&two_hearts, Some(&ace_clubs), Suit::Club), "2 of hearts not onto clubs");
}

#[test]
fn rules_test_win_condition() {
    assert!(check_win_condition(52), "52 cards on the foundations win");
    assert!(!check_win_condition(51), "51 cards do not win");
    assert!(!check_win_condition(0), "no cards do not win");
}

#[test]
fn test_can_deal_from_stock() {
    let _world = World::new();
}

#[test]
fn tests_test_card_color() {
    assert_eq!(world_rules::CardColor::from_suit(Suit::Heart), world_rules::CardColor::Red);
    assert_eq!(world_rules::CardColor::from_suit(Suit::Diamond), world_rules::CardColor::Red);
    assert_eq!(world_rules::CardColor::from_suit(Suit::Club), world_rules::CardColor::Black);
    assert_eq!(world_rules::CardColor::from_suit(Suit::Spade), world_rules::CardColor::Black);
}

#[test]
fn tests_test_stock_waste_rules() {
    assert!(world_rules::can_deal_from_stock(false), "a full stock deals");
    assert!(!world_rules::can_reset_stock_from_waste(false, false), "a full stock is not reset");
    assert!(!world_rules::can_reset_stock_from_waste(false, true), "a full stock is not reset");

    assert!(!world_rules::can_deal_from_stock(true), "an empty stock does not deal");
    assert!(world_rules::can_reset_stock_from_waste(true, false), "an empty stock is reset from a waste with cards");
    assert!(!world_rules::can_reset_stock_from_waste(true, true), "nothing is reset when both are empty");
}

#[test]
fn tests_test_win_condition() {
    assert!(world_rules::check_win_condition(52), "52 cards on the foundations win");
    assert!(!world_rules::check_win_condition(51), "51 cards do not win");
    assert!(!world_rules::check_win_condition(0), "no cards do not win");
}

fn add_card_for_test(world: &mut World, suit: Suit, rank: Rank, stack_type: StackType, pos: u8) -> Entity {
    let entity = world.create_entity();
    let card = Card { suit, rank, is_face_up: true };
    let stack_info = StackInfo { stack_type, position_in_stack: pos };
    world.add_component(entity, card);
    world.add_component(entity, stack_info);
    entity
}

#[test]
fn test_can_move_to_tableau_world() {
    let mut world = World::new();
    world.register_component::<Card>();
    world.register_component::<StackInfo>();

    let king_spades_entity = add_card_for_test(&mut world, Suit::Spade, Rank::King, StackType::Waste, 0);
    let queen_hearts_entity = add_card_for_test(&mut world, Suit::Heart, Rank::Queen, StackType::Waste, 1);
    let jack_spades_entity = add_card_for_test(&mut world, Suit::Spade, Rank::Jack, StackType::Waste, 2);
    let jack_diamonds_entity = add_card_for_test(&mut world, Suit::Diamond, Rank::Jack, StackType::Waste, 3);
    let ten_spades_entity = add_card_for_test(&mut world, Suit::Spade, Rank::Ten, StackType::Waste, 4);

    assert!(world_rules::can_move_to_tableau(&world, king_spades_entity, 0), "a king goes on empty pile 0");
    assert!(!world_rules::can_move_to_tableau(&world, queen_hearts_entity, 1), "a queen does not go on empty pile 1");

    let _target_q_hearts_t2 = add_card_for_test(&mut world, Suit::Heart, Rank::Queen, StackType::Tableau(2), 0);
    assert!(world_rules::can_move_to_tableau(&world, jack_spades_entity, 2), "a black jack goes on pile 2's red queen");

    let _target_q_hearts_t3 = add_card_for_test(&mut world, Suit::Heart, Rank::Queen, StackType::Tableau(3), 0);
    assert!(!world_rules::can_move_to_tableau(&world, jack_diamonds_entity, 3), "a red jack does not go on pile 3's red queen");

    let _target_q_hearts_t4 = add_card_for_test(&mut world, Suit::Heart, Rank::Queen, StackType::Tableau(4), 0);
    assert!(!world_rules::can_move_to_tableau(&world, ten_spades_entity, 4), "a ten does not go on pile 4's queen");
}

#[test]
fn world_foundation_rule_follows_the_top_card() {
    let mut world = World::new();
    world.register_component::<Card>();
    world.register_component::<StackInfo>();
    let ace = add_card_for_test(&mut world, Suit::Diamond, Rank::Ace, StackType::Waste, 0);
    let two = add_card_for_test(&mut world, Suit::Diamond, Rank::Two, StackType::Waste, 1);
    assert!(world_rules::can_move_to_foundation(&world, ace, 1), "the ace of diamonds goes on foundation 1");
    assert!(!world_rules::can_move_to_foundation(&world, ace, 0), "not on the hearts foundation");
    assert!(!world_rules::can_move_to_foundation(&world, ace, 4), "there is no foundation 4");
    assert!(!world_rules::can_move_to_foundation(&world, two, 1), "a two does not go on an empty foundation");
    let _on_foundation = add_card_for_test(&mut world, Suit::Diamond, Rank::Ace, StackType::Foundation(1), 0);
    assert!(world_rules::can_move_to_foundation(&world, two, 1), "the two goes on the ace");
    assert!(world_rules::is_move_valid(&world, two, StackType::Foundation(1)));
    assert!(!world_rules::is_move_valid(&world, two, StackType::Waste));
}

#[test]
fn world_waste_rules_use_the_waste_card() {
    let mut world = World::new();
    world.register_component::<Card>();
    world.register_component::<StackInfo>();
    let king = add_card_for_test(&mut world, Suit::Club, Rank::King, StackType::Waste, 0);
    let ace = add_card_for_test(&mut world, Suit::Spade, Rank::Ace, StackType::Waste, 1);
    assert!(world_rules::can_move_from_waste_to_tableau(&world, king, 5));
    assert!(!world_rules::can_move_from_waste_to_tableau(&world, ace, 5));
    assert!(world_rules::can_move_from_waste_to_foundation(&world, ace, 3));
    assert!(!world_rules::can_move_from_waste_to_foundation(&world, ace, 2));
    assert_eq!(world_rules::get_foundation_suit(2), Some(Suit::Club));
    assert_eq!(world_rules::get_foundation_suit(7), None);
    assert_eq!(world_rules::get_top_card_entity(&world, StackType::Waste), Some(ace));
    assert_eq!(world_rules::get_top_card_entity(&world, StackType::Stock), None);
}
