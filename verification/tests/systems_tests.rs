use std::collections::HashMap;
use solitaire_ecs::components::{Card, GameState, GameStatus, Position, Rank, Suit, StackInfo, StackType};
use solitaire_ecs::entity::Entity;
use solitaire_ecs::system::System;
use solitaire_ecs::systems::deal_system::DealInitialCardsSystem;
use solitaire_ecs::systems::move_card_system::MoveCardSystem;
use solitaire_ecs::systems::win_condition_system::WinConditionSystem;
use solitaire_ecs::world::World;

#[test]
fn test_initial_deal_creates_correct_setup() {
    let mut world = World::new();
    world.register_component::<Card>();
    world.register_component::<StackInfo>();
    world.register_component::<Position>();

    let deal_system = DealInitialCardsSystem::default();
    deal_system.execute(&mut world);

    let all_card_entities: Vec<Entity> = world.get_all_entities_with_component::<Card>().into_iter().collect();
    assert_eq!(all_card_entities.len(), 52, "there are {} card entities, not 52", all_card_entities.len());

    let stack_info_count = all_card_entities.iter().filter(|&&e| world.get_component::<StackInfo>(e).is_some()).count();
    assert_eq!(stack_info_count, 52, "{} card entities have a stack info, not 52", stack_info_count);
    let position_count = all_card_entities.iter().filter(|&&e| world.get_component::<Position>(e).is_some()).count();
    assert_eq!(position_count, 52, "{} card entities have a position, not 52", position_count);

    let mut counts: HashMap<StackType, usize> = HashMap::new();
    let mut face_up_counts: HashMap<StackType, usize> = HashMap::new();
    let mut cards_data: HashMap<StackType, Vec<(u8, Card)>> = HashMap::new();

    for entity in all_card_entities {
        let stack_info = world.get_component::<StackInfo>(entity).unwrap();
        let card = world.get_component::<Card>(entity).unwrap();
        *counts.entry(stack_info.stack_type).or_insert(0) += 1;
        if card.is_face_up {
            *face_up_counts.entry(stack_info.stack_type).or_insert(0) += 1;
        }
        cards_data.entry(stack_info.stack_type).or_default().push((stack_info.position_in_stack, card.clone()));
    }

    let stock_count = counts.get(&StackType::Stock).copied().unwrap_or(0);
    assert_eq!(stock_count, 24, "the stock holds {} cards, not 24", stock_count);
    let stock_face_up_count = face_up_counts.get(&StackType::Stock).copied().unwrap_or(0);
    assert_eq!(stock_face_up_count, 0, "the stock holds {} face-up cards", stock_face_up_count);
    if let Some(stock_cards) = cards_data.get_mut(&StackType::Stock) {
        stock_cards.sort_by_key(|(pos, _)| *pos);
        for (i, (pos, _)) in stock_cards.iter().enumerate() {
            assert_eq!(*pos as usize, i, "stock positions are not consecutive (expected {}, got {})", i, *pos);
        }
    } else {
        panic!("no stock cards were collected");
    }

    let mut total_tableau_cards = 0;
    for i in 0..7 {
        let stack_type = StackType::Tableau(i);
        let pile_count = counts.get(&stack_type).copied().unwrap_or(0);
        let expected_pile_count = (i + 1) as usize;
        assert_eq!(pile_count, expected_pile_count, "tableau {} holds {} cards, not {}", i, pile_count, expected_pile_count);

        let pile_face_up_count = face_up_counts.get(&stack_type).copied().unwrap_or(0);
        assert_eq!(pile_face_up_count, 1, "tableau {} holds {} face-up cards, not 1", i, pile_face_up_count);

        if let Some(pile_cards) = cards_data.get_mut(&stack_type) {
            pile_cards.sort_by_key(|(pos, _)| *pos);
            for (j, (pos, card)) in pile_cards.iter().enumerate() {
                assert_eq!(*pos as usize, j, "tableau {} is out of order (expected {}, got {})", i, j, *pos);
                let should_be_face_up = j == expected_pile_count - 1;
                assert_eq!(card.is_face_up, should_be_face_up, "tableau {}[{}] faces the wrong way", i, j);
            }
        } else {
            panic!("no cards were collected for tableau {}", i);
        }
        total_tableau_cards += pile_count;
    }
    assert_eq!(total_tableau_cards, 28, "the tableau holds {} cards, not 28", total_tableau_cards);

    assert!(counts.get(&StackType::Foundation(0)).is_none(), "foundation 0 must be empty");
    assert!(counts.get(&StackType::Waste).is_none(), "the waste must be empty");
}

#[test]
fn deal_replaces_the_cards_dealt_before() {
    let mut world = World::new();
    world.register_component::<Card>();
    world.register_component::<StackInfo>();
    world.register_component::<Position>();
    let deal_system = DealInitialCardsSystem::default();
    deal_system.execute(&mut world);
    deal_system.execute(&mut world);
    assert_eq!(world.get_all_entities_with_component::<Card>().len(), 52);
    assert_eq!(world.get_all_entities_with_component::<StackInfo>().len(), 52);
    assert_eq!(world.next_entity_id(), 104);
}

fn add_card_to_world(world: &mut World, entity_id: usize, stack_type: StackType, pos_in_stack: u8) -> Entity {
    let entity = Entity(entity_id);
    world.create_entity_with_id(entity);
    world.add_component(entity, Card { suit: Suit::Heart, rank: Rank::Ace, is_face_up: true });
    world.add_component(entity, StackInfo::new(stack_type, pos_in_stack));
    entity
}

fn win_world() -> (World, Entity) {
    let mut world = World::new();
    world.register_component::<Card>();
    world.register_component::<StackInfo>();
    world.register_component::<GameState>();
    let game_state_entity = Entity(0);
    world.create_entity_with_id(game_state_entity);
    world.add_component(game_state_entity, GameState { status: GameStatus::Playing });
    (world, game_state_entity)
}

#[test]
fn test_win_condition_not_met_real() {
    let (mut world, game_state_entity) = win_world();
    let mut system = WinConditionSystem::new();

    for i in 1..=51 {
        add_card_to_world(&mut world, i, StackType::Foundation((i % 4) as u8), 0);
    }
    add_card_to_world(&mut world, 52, StackType::Tableau(0), 0);

    system.run(&mut world);

    let game_state = world.get_component::<GameState>(game_state_entity).unwrap();
    assert_eq!(game_state.status, GameStatus::Playing);
}

#[test]
fn test_win_condition_met_real() {
    let (mut world, game_state_entity) = win_world();
    let mut system = WinConditionSystem::new();

    for i in 1..=52 {
        add_card_to_world(&mut world, i, StackType::Foundation((i % 4) as u8), (i / 4) as u8);
    }

    system.run(&mut world);

    let game_state = world.get_component::<GameState>(game_state_entity).unwrap();
    assert_eq!(game_state.status, GameStatus::Won);
}

#[test]
fn test_win_condition_not_met_not_enough_cards() {
    let (mut world, game_state_entity) = win_world();
    let mut system = WinConditionSystem::new();

    for i in 1..=51 {
        add_card_to_world(&mut world, i, StackType::Foundation((i % 4) as u8), (i / 4) as u8);
    }

    system.run(&mut world);

    let game_state = world.get_component::<GameState>(game_state_entity).unwrap();
    assert_eq!(game_state.status, GameStatus::Playing);
}

#[test]
fn win_check_leaves_a_finished_game_alone() {
    let (mut world, game_state_entity) = win_world();
    if let Some(gs) = world.get_component_mut::<GameState>(game_state_entity) {
        gs.status = GameStatus::GameOver { winner_id: None };
    }
    for i in 1..=52 {
        add_card_to_world(&mut world, i, StackType::Foundation((i % 4) as u8), 0);
    }
    let mut system = WinConditionSystem::new();
    assert!(system.check_win_condition(&world));
    assert!(system.is_card_in_foundation(&world, Entity(7)));
    assert!(!system.is_card_in_foundation(&world, Entity(0)));
    system.run(&mut world);
    assert_eq!(world.get_component::<GameState>(game_state_entity).unwrap().status, GameStatus::GameOver { winner_id: None });
}

#[test]
fn move_card_system_run_has_no_requests() {
    let mut world = World::new();
    world.register_component::<Card>();
    let e = world.create_entity();
    world.add_component(e, Card { suit: Suit::Club, rank: Rank::Two, is_face_up: false });
    let mut system = MoveCardSystem::new();
    system.run(&mut world);
    assert_eq!(world.get_component::<Card>(e), Some(&Card { suit: Suit::Club, rank: Rank::Two, is_face_up: false }));
}

#[test]
fn a_given_deck_is_dealt_in_its_order() {
    let mut world = World::new();
    world.register_component::<Card>();
    world.register_component::<StackInfo>();
    world.register_component::<Position>();
    let old = world.create_entity();
    world.add_component(old, Card { suit: Suit::Heart, rank: Rank::Ace, is_face_up: true });
    world.add_component(old, StackInfo::new(StackType::Waste, 0));
    world.add_component(old, Position { x: 1, y: 1 });
    let deck = solitaire_ecs::logic::deck::create_standard_deck();
    DealInitialCardsSystem::default().deal_deck(&mut world, deck.clone());
    assert!(world.get_component::<Card>(old).is_none(), "the card held before is cleared");
    assert!(world.get_component::<StackInfo>(old).is_none());
    assert_eq!(world.entity_count(), 53);
    let first = Entity(1);
    assert_eq!(world.get_component::<Card>(first), Some(&Card { is_face_up: true, ..deck[0] }));
    assert_eq!(world.get_component::<StackInfo>(first), Some(&StackInfo::new(StackType::Tableau(0), 0)));
    assert_eq!(world.get_component::<Position>(first), Some(&Position { x: 50, y: 200 }));
    assert_eq!(world.get_component::<Card>(Entity(2)), Some(&deck[1]));
    assert_eq!(world.get_component::<StackInfo>(Entity(2)), Some(&StackInfo::new(StackType::Tableau(1), 0)));
    assert_eq!(world.get_component::<Card>(Entity(3)), Some(&Card { is_face_up: true, ..deck[2] }));
    assert_eq!(world.get_component::<Position>(Entity(3)), Some(&Position { x: 150, y: 210 }));
    assert_eq!(world.get_component::<StackInfo>(Entity(28)), Some(&StackInfo::new(StackType::Tableau(6), 6)));
    assert_eq!(world.get_component::<Position>(Entity(28)), Some(&Position { x: 650, y: 260 }));
    assert_eq!(world.get_component::<Card>(Entity(29)), Some(&deck[28]));
    assert_eq!(world.get_component::<StackInfo>(Entity(29)), Some(&StackInfo::new(StackType::Stock, 0)));
    assert_eq!(world.get_component::<StackInfo>(Entity(52)), Some(&StackInfo::new(StackType::Stock, 23)));
    assert_eq!(world.get_component::<Position>(Entity(52)), Some(&Position { x: 50, y: 50 }));
}

#[test]
fn a_short_deck_keeps_face_up_cards_and_fills_the_stock_with_the_rest() {
    let mut world = World::new();
    world.register_component::<Card>();
    world.register_component::<StackInfo>();
    world.register_component::<Position>();
    let mut deck = solitaire_ecs::logic::deck::create_standard_deck();
    deck.truncate(30);
    deck[1].is_face_up = true;
    DealInitialCardsSystem::default().deal_deck(&mut world, deck.clone());
    assert_eq!(world.entity_count(), 30);
    assert!(world.get_component::<Card>(Entity(1)).unwrap().is_face_up, "a face-up card below the top stays face up");
    assert_eq!(world.get_component::<StackInfo>(Entity(29)), Some(&StackInfo::new(StackType::Stock, 1)));
}
