use solitaire_ecs::app::drag_apply_handler::update_world_and_notify_server;
use solitaire_ecs::app::drag_handler::{handle_drag_end, handle_drag_start, reset_card_position, update_dragged_position};
use solitaire_ecs::app::event_handler::{
    find_clicked_element, find_clicked_stack_area, find_topmost_clicked_card, get_entity_id_at, handle_click,
    handle_double_click_logic, ClickTarget,
};
use solitaire_ecs::app::init_handler::{deal_initial_cards, get_initial_state_data, initialize_world};
use solitaire_ecs::app::layout_calculator::calculate_card_position;
use solitaire_ecs::app::network_receiver::{first_rejected_entity, process_received_messages, ProcessedMessageResult};
use solitaire_ecs::app::renderer::{card_render_list, get_rank_text, get_suit_text, stack_type_draw_order};
use solitaire_ecs::app::state_getter::get_world_state_data;
use solitaire_ecs::app::state_handler::apply_game_state;
use solitaire_ecs::app::stock_handler::{deal_one_card_from_stock, find_cards_in_stack, handle_stock_click, reset_waste_to_stock};
use solitaire_ecs::components::{Card, DraggingInfo, Player, Position, Rank, StackInfo, StackType, Suit};
use solitaire_ecs::entity::Entity;
use solitaire_ecs::network::{connection_step, ConnectionAction, ConnectionEvent, ConnectionStatus};
use solitaire_ecs::protocol::{CardData, ClientMessage, GameStateData, PlayerData, PositionData, ServerMessage};
use solitaire_ecs::systems::deal_system::DealInitialCardsSystem;
use solitaire_ecs::world::World;

fn add_card(world: &mut World, suit: Suit, rank: Rank, face_up: bool, stack_type: StackType, pos: u8) -> Entity {
    let entity = world.create_entity();
    world.add_component(entity, Card { suit, rank, is_face_up: face_up });
    world.add_component(entity, StackInfo::new(stack_type, pos));
    let position = calculate_card_position(stack_type, pos, world);
    world.add_component(entity, position);
    entity
}

#[test]
fn card_positions_follow_the_layout() {
    let mut world = initialize_world();
    assert_eq!(calculate_card_position(StackType::Stock, 3, &world), Position { x: 50, y: 50 });
    assert_eq!(calculate_card_position(StackType::Waste, 0, &world), Position { x: 150, y: 50 });
    assert_eq!(calculate_card_position(StackType::Foundation(2), 0, &world), Position { x: 680, y: 50 });
    assert_eq!(calculate_card_position(StackType::Tableau(3), 0, &world), Position { x: 350, y: 200 });
    add_card(&mut world, Suit::Club, Rank::Two, false, StackType::Tableau(3), 0);
    add_card(&mut world, Suit::Club, Rank::Three, true, StackType::Tableau(3), 1);
    assert_eq!(calculate_card_position(StackType::Tableau(3), 1, &world), Position { x: 350, y: 210 });
    assert_eq!(calculate_card_position(StackType::Tableau(3), 2, &world), Position { x: 350, y: 235 });
    assert_eq!(calculate_card_position(StackType::Tableau(3), 9, &world), Position { x: 350, y: 235 });
}

#[test]
fn stock_deals_its_top_card_face_up_onto_the_waste() {
    let mut world = initialize_world();
    let bottom = add_card(&mut world, Suit::Heart, Rank::Five, false, StackType::Stock, 0);
    let top = add_card(&mut world, Suit::Spade, Rank::Nine, false, StackType::Stock, 1);
    assert!(deal_one_card_from_stock(&mut world));
    assert_eq!(world.get_component::<StackInfo>(top), Some(&StackInfo::new(StackType::Waste, 0)));
    assert!(world.get_component::<Card>(top).unwrap().is_face_up);
    assert_eq!(world.get_component::<Position>(top), Some(&Position { x: 150, y: 50 }));
    assert_eq!(world.get_component::<StackInfo>(bottom), Some(&StackInfo::new(StackType::Stock, 0)));
    assert!(deal_one_card_from_stock(&mut world));
    assert_eq!(world.get_component::<StackInfo>(bottom), Some(&StackInfo::new(StackType::Waste, 1)));
    assert!(!deal_one_card_from_stock(&mut world), "an empty stock deals nothing");
    assert!(reset_waste_to_stock(&mut world), "an empty stock is refilled from the waste");
    assert_eq!(world.get_component::<StackInfo>(top), Some(&StackInfo::new(StackType::Stock, 0)));
    assert_eq!(world.get_component::<StackInfo>(bottom), Some(&StackInfo::new(StackType::Stock, 1)));
    assert!(!world.get_component::<Card>(top).unwrap().is_face_up);
    assert_eq!(world.get_component::<Position>(bottom), Some(&Position { x: 50, y: 50 }));
    assert!(!reset_waste_to_stock(&mut world), "a full stock is not reset");
    assert_eq!(find_cards_in_stack(&world, StackType::Stock).len(), 2);
    assert_eq!(find_cards_in_stack(&world, StackType::Waste).len(), 0);
}

#[test]
fn stock_click_deals_then_resets() {
    let mut world = initialize_world();
    let only = add_card(&mut world, Suit::Diamond, Rank::Queen, false, StackType::Stock, 0);
    handle_stock_click(&mut world);
    assert_eq!(world.get_component::<StackInfo>(only), Some(&StackInfo::new(StackType::Waste, 0)));
    handle_stock_click(&mut world);
    assert_eq!(world.get_component::<StackInfo>(only), Some(&StackInfo::new(StackType::Stock, 0)));
    assert!(!world.get_component::<Card>(only).unwrap().is_face_up);
}

#[test]
fn state_taken_over_is_read_back() {
    let mut world = initialize_world();
    let old = add_card(&mut world, Suit::Heart, Rank::Ace, true, StackType::Waste, 0);
    let cards = vec![
        CardData {
            entity: Entity(40),
            suit: Suit::Club,
            rank: Rank::Four,
            is_face_up: true,
            stack_type: StackType::Tableau(1),
            position_in_stack: 2,
            position: PositionData { x: 150, y: 220 },
        },
        CardData {
            entity: Entity(41),
            suit: Suit::Spade,
            rank: Rank::Jack,
            is_face_up: false,
            stack_type: StackType::Stock,
            position_in_stack: 0,
            position: PositionData { x: 50, y: 50 },
        },
    ];
    let state = GameStateData { players: vec![PlayerData { id: 3, name: "Ann".to_string() }], cards: cards.clone() };
    assert!(apply_game_state(&mut world, state));
    assert_eq!(world.get_component::<Card>(old), None, "the cards held before are cleared");
    assert_eq!(
        world.get_component::<Player>(Entity(3)),
        Some(&Player { name: "Ann".to_string(), is_current_turn: false })
    );
    let read = get_world_state_data(&world);
    assert!(read.players.is_empty());
    let mut read_cards = read.cards.clone();
    read_cards.sort_by_key(|c| c.entity.0);
    assert_eq!(read_cards, cards);
    assert_eq!(world.next_entity_id(), 42);
}

#[test]
fn empty_state_on_empty_world_changes_nothing() {
    let mut world = initialize_world();
    let state = GameStateData { players: Vec::new(), cards: Vec::new() };
    assert!(!apply_game_state(&mut world, state));
    assert_eq!(world.entity_count(), 0);
}

#[test]
fn clicks_find_the_lowest_card_under_the_pointer() {
    let mut world = initialize_world();
    let below = add_card(&mut world, Suit::Heart, Rank::King, false, StackType::Tableau(0), 0);
    let above = add_card(&mut world, Suit::Club, Rank::Queen, true, StackType::Tableau(0), 1);
    assert_eq!(find_topmost_clicked_card(&world, 60, 215, None), Some(ClickTarget::Card(above)));
    assert_eq!(find_topmost_clicked_card(&world, 60, 205, None), Some(ClickTarget::Card(below)));
    assert_eq!(find_topmost_clicked_card(&world, 60, 215, Some(above)), Some(ClickTarget::Card(below)));
    assert_eq!(find_topmost_clicked_card(&world, 120, 215, None), None, "the right edge is outside");
    assert_eq!(find_topmost_clicked_card(&world, 119, 299, None), Some(ClickTarget::Card(above)));
    assert_eq!(find_clicked_stack_area(&world, 60, 60), Some(ClickTarget::Stack(StackType::Stock)));
    assert_eq!(find_clicked_element(&world, 5, 5, None), None);
    assert_eq!(get_entity_id_at(&world, 60, 215), Some(above.0));
    assert_eq!(get_entity_id_at(&world, 900, 900), None);
    assert_eq!(handle_click(&mut world, 60, 215), Some(ClickTarget::Card(above)));
    assert_eq!(world.get_component::<StackInfo>(above), Some(&StackInfo::new(StackType::Tableau(0), 1)));
}

#[test]
fn pile_areas_are_found_from_the_layout() {
    let world = initialize_world();
    assert_eq!(find_clicked_stack_area(&world, 50, 50), Some(ClickTarget::Stack(StackType::Stock)));
    assert_eq!(find_clicked_stack_area(&world, 119, 149), Some(ClickTarget::Stack(StackType::Stock)));
    assert_eq!(find_clicked_stack_area(&world, 120, 60), None, "the right edge is outside");
    assert_eq!(find_clicked_stack_area(&world, 60, 150), None, "the bottom edge is outside");
    assert_eq!(find_clicked_stack_area(&world, 160, 60), Some(ClickTarget::Stack(StackType::Waste)));
    assert_eq!(find_clicked_stack_area(&world, 500, 50), Some(ClickTarget::Stack(StackType::Foundation(0))));
    assert_eq!(find_clicked_stack_area(&world, 600, 100), Some(ClickTarget::Stack(StackType::Foundation(1))));
    assert_eq!(find_clicked_stack_area(&world, 839, 149), Some(ClickTarget::Stack(StackType::Foundation(3))));
    assert_eq!(find_clicked_stack_area(&world, 580, 60), None, "between two foundations");
    assert_eq!(find_clicked_stack_area(&world, 60, 250), Some(ClickTarget::Stack(StackType::Tableau(0))));
    assert_eq!(find_clicked_stack_area(&world, 719, 299), Some(ClickTarget::Stack(StackType::Tableau(6))));
    assert_eq!(find_clicked_stack_area(&world, 750, 250), None);
    assert_eq!(find_clicked_stack_area(&world, 60, 300), None);
    assert_eq!(find_clicked_element(&world, 360, 220, None), Some(ClickTarget::Stack(StackType::Tableau(3))));
}

#[test]
fn a_click_on_the_stock_area_deals_and_resets() {
    let mut world = initialize_world();
    let only = add_card(&mut world, Suit::Diamond, Rank::Queen, false, StackType::Stock, 0);
    assert_eq!(handle_click(&mut world, 60, 60), Some(ClickTarget::Card(only)));
    assert_eq!(world.get_component::<StackInfo>(only), Some(&StackInfo::new(StackType::Stock, 0)), "a click on a card deals nothing");
    world.remove_component::<Position>(only);
    assert_eq!(handle_click(&mut world, 60, 60), Some(ClickTarget::Stack(StackType::Stock)));
    assert_eq!(world.get_component::<StackInfo>(only), Some(&StackInfo::new(StackType::Waste, 0)));
    assert!(world.get_component::<Card>(only).unwrap().is_face_up);
    assert_eq!(handle_click(&mut world, 60, 60), Some(ClickTarget::Stack(StackType::Stock)));
    assert_eq!(world.get_component::<StackInfo>(only), Some(&StackInfo::new(StackType::Stock, 0)));
    assert!(!world.get_component::<Card>(only).unwrap().is_face_up);
    assert_eq!(handle_click(&mut world, 160, 60), Some(ClickTarget::Stack(StackType::Waste)));
    assert_eq!(world.get_component::<StackInfo>(only), Some(&StackInfo::new(StackType::Stock, 0)));
}

#[test]
fn a_king_goes_on_an_empty_tableau_pile_and_an_ace_on_an_empty_foundation() {
    let mut world = initialize_world();
    let king = add_card(&mut world, Suit::Spade, Rank::King, true, StackType::Waste, 0);
    let ace = add_card(&mut world, Suit::Club, Rank::Ace, true, StackType::Tableau(0), 0);
    handle_drag_start(&mut world, king.0, 160, 60);
    match handle_drag_end(&mut world, king.0, 460, 250) {
        Some(ClientMessage::MakeMove { moved_entity, target_stack }) => {
            assert_eq!(moved_entity, king);
            assert_eq!(target_stack, StackType::Tableau(4));
        },
        other => panic!("unexpected {:?}", other),
    }
    assert_eq!(world.get_component::<StackInfo>(king), Some(&StackInfo::new(StackType::Tableau(4), 0)));
    assert_eq!(world.get_component::<Position>(king), Some(&Position { x: 450, y: 200 }));
    handle_drag_start(&mut world, ace.0, 60, 210);
    match handle_drag_end(&mut world, ace.0, 700, 80) {
        Some(ClientMessage::MakeMove { moved_entity, target_stack }) => {
            assert_eq!(moved_entity, ace);
            assert_eq!(target_stack, StackType::Foundation(2));
        },
        other => panic!("unexpected {:?}", other),
    }
    assert_eq!(world.get_component::<Position>(ace), Some(&Position { x: 680, y: 50 }));
    let two = add_card(&mut world, Suit::Club, Rank::Two, true, StackType::Waste, 0);
    handle_drag_start(&mut world, two.0, 160, 60);
    assert!(handle_drag_end(&mut world, two.0, 600, 60).is_none(), "a two does not go on an empty foundation");
    assert_eq!(world.get_component::<Position>(two), Some(&Position { x: 150, y: 50 }));
}

#[test]
fn double_click_sends_a_card_to_its_foundation() {
    let mut world = initialize_world();
    let ace = add_card(&mut world, Suit::Spade, Rank::Ace, true, StackType::Waste, 0);
    let two = add_card(&mut world, Suit::Spade, Rank::Two, true, StackType::Tableau(1), 0);
    match handle_double_click_logic(ace.0, &world) {
        Some(ClientMessage::MakeMove { moved_entity, target_stack }) => {
            assert_eq!(moved_entity, ace);
            assert_eq!(target_stack, StackType::Foundation(3));
        },
        other => panic!("unexpected {:?}", other),
    }
    assert!(handle_double_click_logic(two.0, &world).is_none());
    assert!(handle_double_click_logic(999, &world).is_none());
}

/// A tableau of two piles: pile 0 holds a face-down king under a black jack, pile 1 a
/// red queen.
fn drag_world() -> (World, Entity, Entity, Entity) {
    let mut world = initialize_world();
    let hidden = add_card(&mut world, Suit::Heart, Rank::King, false, StackType::Tableau(0), 0);
    let jack = add_card(&mut world, Suit::Spade, Rank::Jack, true, StackType::Tableau(0), 1);
    let queen = add_card(&mut world, Suit::Heart, Rank::Queen, true, StackType::Tableau(1), 0);
    (world, hidden, jack, queen)
}

#[test]
fn a_valid_drop_moves_the_card_and_uncovers_the_one_below() {
    let (mut world, hidden, jack, queen) = drag_world();
    assert_eq!(world.get_component::<Position>(jack), Some(&Position { x: 50, y: 210 }));
    handle_drag_start(&mut world, jack.0, 60, 215);
    let info = *world.get_component::<DraggingInfo>(jack).unwrap();
    assert_eq!(info.offset_x, 10);
    assert_eq!(info.offset_y, 5);
    assert_eq!(info.original_x, 50);
    assert_eq!(info.original_y, 210);
    assert_eq!(info.original_position_in_stack, 1);
    assert_eq!(info.original_stack_entity, hidden);
    update_dragged_position(&mut world, jack.0, 170, 240);
    assert_eq!(world.get_component::<Position>(jack), Some(&Position { x: 160, y: 235 }));
    match handle_drag_end(&mut world, jack.0, 170, 240) {
        Some(ClientMessage::MakeMove { moved_entity, target_stack }) => {
            assert_eq!(moved_entity, jack);
            assert_eq!(target_stack, StackType::Tableau(1));
        },
        other => panic!("unexpected {:?}", other),
    }
    assert_eq!(world.get_component::<StackInfo>(jack), Some(&StackInfo::new(StackType::Tableau(1), 1)));
    assert_eq!(world.get_component::<Position>(jack), Some(&Position { x: 150, y: 225 }));
    assert!(world.get_component::<Card>(hidden).unwrap().is_face_up, "the king is uncovered");
    assert!(world.get_component::<DraggingInfo>(jack).is_none());
    assert_eq!(world.get_component::<StackInfo>(queen), Some(&StackInfo::new(StackType::Tableau(1), 0)));
}

#[test]
fn a_drop_nowhere_puts_the_card_back() {
    let (mut world, hidden, jack, _queen) = drag_world();
    handle_drag_start(&mut world, jack.0, 60, 215);
    update_dragged_position(&mut world, jack.0, 400, 500);
    assert_eq!(world.get_component::<Position>(jack), Some(&Position { x: 390, y: 495 }));
    assert!(handle_drag_end(&mut world, jack.0, 400, 500).is_none());
    assert_eq!(world.get_component::<Position>(jack), Some(&Position { x: 50, y: 210 }));
    assert_eq!(world.get_component::<StackInfo>(jack), Some(&StackInfo::new(StackType::Tableau(0), 1)));
    assert!(!world.get_component::<Card>(hidden).unwrap().is_face_up);
    assert!(world.get_component::<DraggingInfo>(jack).is_none());
}

#[test]
fn a_drop_on_a_pile_that_refuses_puts_the_card_back() {
    let (mut world, _hidden, jack, queen) = drag_world();
    handle_drag_start(&mut world, queen.0, 160, 210);
    assert!(handle_drag_end(&mut world, queen.0, 60, 215).is_none(), "a queen does not go on a jack");
    assert_eq!(world.get_component::<Position>(queen), Some(&Position { x: 150, y: 200 }));
    assert!(handle_drag_end(&mut world, jack.0, 170, 240).is_none(), "a card not being dragged is left alone");
    assert_eq!(world.get_component::<Position>(jack), Some(&Position { x: 50, y: 210 }));
}

#[test]
fn reset_and_apply_helpers() {
    let (mut world, hidden, jack, _queen) = drag_world();
    let info = DraggingInfo {
        original_position_in_stack: 1,
        original_stack_entity: hidden,
        original_x: 7,
        original_y: 8,
        offset_x: 0,
        offset_y: 0,
    };
    reset_card_position(&mut world, jack, &info);
    assert_eq!(world.get_component::<Position>(jack), Some(&Position { x: 7, y: 8 }));
    let before = world.get_component::<StackInfo>(jack).copied();
    let message = update_world_and_notify_server(&mut world, jack, StackType::Foundation(3), &before);
    assert!(matches!(message, ClientMessage::MakeMove { moved_entity, target_stack: StackType::Foundation(3) } if moved_entity == jack));
    assert_eq!(world.get_component::<StackInfo>(jack), Some(&StackInfo::new(StackType::Foundation(3), 0)));
    assert_eq!(world.get_component::<Position>(jack), Some(&Position { x: 770, y: 50 }));
    assert!(world.get_component::<Card>(hidden).unwrap().is_face_up);
}

#[test]
fn messages_are_taken_in_order() {
    let mut world = initialize_world();
    let mut my_id = None;
    let card = CardData {
        entity: Entity(2),
        suit: Suit::Diamond,
        rank: Rank::Six,
        is_face_up: true,
        stack_type: StackType::Waste,
        position_in_stack: 0,
        position: PositionData { x: 150, y: 50 },
    };
    let messages = vec![
        ServerMessage::GameJoined {
            your_player_id: 7,
            initial_game_state: GameStateData { players: vec![PlayerData { id: 7, name: "Bo".to_string() }], cards: vec![card] },
        },
        ServerMessage::Pong,
        ServerMessage::MoveRejected { entity_id: Entity(2), reason: "no".to_string() },
        ServerMessage::PlayerJoined { player_id: 8, player_name: "Cy".to_string() },
        ServerMessage::GameStateUpdate { current_game_state: GameStateData { players: Vec::new(), cards: Vec::new() } },
        ServerMessage::Error { message: "oops".to_string() },
    ];
    let results = process_received_messages(messages, &mut my_id, &mut world);
    assert_eq!(my_id, Some(7));
    assert_eq!(results.len(), 3);
    assert!(matches!(results[0], ProcessedMessageResult::StateChanged));
    assert!(matches!(&results[1], ProcessedMessageResult::MoveRejected { entity_id, reason } if *entity_id == Entity(2) && reason == "no"));
    assert!(matches!(results[2], ProcessedMessageResult::StateChanged));
    assert_eq!(first_rejected_entity(&results), Some(2));
    assert_eq!(world.get_component::<Card>(Entity(2)), None);
    assert_eq!(world.get_component::<Player>(Entity(7)), None);
    assert_eq!(first_rejected_entity(&vec![ProcessedMessageResult::Nothing]), None);
}

#[test]
fn connection_status_follows_socket_events() {
    assert_eq!(
        connection_step(ConnectionStatus::Disconnected, ConnectionEvent::ConnectRequested),
        (ConnectionStatus::Connecting, ConnectionAction::OpenSocket)
    );
    assert_eq!(
        connection_step(ConnectionStatus::Connecting, ConnectionEvent::ConnectRequested),
        (ConnectionStatus::Connecting, ConnectionAction::Nothing)
    );
    assert_eq!(
        connection_step(ConnectionStatus::Connecting, ConnectionEvent::Opened),
        (ConnectionStatus::Connected, ConnectionAction::Nothing)
    );
    assert_eq!(
        connection_step(ConnectionStatus::Connected, ConnectionEvent::Failed),
        (ConnectionStatus::Error, ConnectionAction::Nothing)
    );
    assert_eq!(
        connection_step(ConnectionStatus::Connecting, ConnectionEvent::SocketCreationFailed),
        (ConnectionStatus::Error, ConnectionAction::Nothing)
    );
    assert_eq!(
        connection_step(ConnectionStatus::Connected, ConnectionEvent::Closed),
        (ConnectionStatus::Disconnected, ConnectionAction::Nothing)
    );
    assert_eq!(
        connection_step(ConnectionStatus::Error, ConnectionEvent::DisconnectRequested { had_socket: false }),
        (ConnectionStatus::Error, ConnectionAction::Nothing)
    );
    assert_eq!(
        connection_step(ConnectionStatus::Connected, ConnectionEvent::DisconnectRequested { had_socket: true }),
        (ConnectionStatus::Disconnected, ConnectionAction::Nothing)
    );
}

#[test]
fn card_texts_and_drawing_order() {
    assert_eq!(get_rank_text(Rank::Ace), "A");
    assert_eq!(get_rank_text(Rank::Ten), "10");
    assert_eq!(get_rank_text(Rank::Queen), "Q");
    assert_eq!(get_suit_text(Suit::Heart), "\u{2665}");
    assert_eq!(get_suit_text(Suit::Club), "\u{2663}");
    assert_eq!(stack_type_draw_order(StackType::Stock), 0);
    assert_eq!(stack_type_draw_order(StackType::Foundation(3)), 2);
    assert_eq!(stack_type_draw_order(StackType::Hand), 4);

    let mut world = initialize_world();
    let t = add_card(&mut world, Suit::Club, Rank::Two, true, StackType::Tableau(0), 0);
    let s = add_card(&mut world, Suit::Club, Rank::Three, false, StackType::Stock, 5);
    let f = add_card(&mut world, Suit::Club, Rank::Ace, true, StackType::Foundation(2), 0);
    let w1 = add_card(&mut world, Suit::Club, Rank::Four, true, StackType::Waste, 1);
    let w0 = add_card(&mut world, Suit::Club, Rank::Five, true, StackType::Waste, 0);
    let loose = world.create_entity();
    world.add_component(loose, Card { suit: Suit::Heart, rank: Rank::Six, is_face_up: true });
    world.add_component(loose, Position { x: 1, y: 1 });
    handle_drag_start(&mut world, t.0, 60, 210);
    let list = card_render_list(&world);
    let order: Vec<Entity> = list.iter().map(|r| r.entity).collect();
    assert_eq!(order, vec![s, w0, w1, f, loose, t], "the dragged card comes last");
    assert!(list[5].is_dragging);
    assert!(!list[0].is_dragging);
    assert_eq!(list[4].stack_info, None);
    handle_drag_start(&mut world, w0.0, 160, 60);
    let order: Vec<Entity> = card_render_list(&world).iter().map(|r| r.entity).collect();
    assert_eq!(order, vec![s, w1, f, loose, t], "of two dragged cards only the later one is drawn");
    let mut plain = initialize_world();
    let a = add_card(&mut plain, Suit::Club, Rank::Two, true, StackType::Tableau(0), 0);
    let b = add_card(&mut plain, Suit::Club, Rank::Three, true, StackType::Stock, 0);
    let order: Vec<Entity> = card_render_list(&plain).iter().map(|r| r.entity).collect();
    assert_eq!(order, vec![b, a]);
}

#[test]
fn a_dealt_game_is_handed_to_the_server() {
    let mut world = initialize_world();
    let message = deal_initial_cards(&mut world, &DealInitialCardsSystem::default());
    match message {
        ClientMessage::ProvideInitialState { initial_state } => {
            assert!(initial_state.players.is_empty());
            assert_eq!(initial_state.cards.len(), 52);
            let stock = initial_state.cards.iter().filter(|c| c.stack_type == StackType::Stock).count();
            assert_eq!(stock, 24);
            let face_up = initial_state.cards.iter().filter(|c| c.is_face_up).count();
            assert_eq!(face_up, 7);
        },
        other => panic!("unexpected {:?}", other),
    }
    assert_eq!(get_initial_state_data(&world).cards.len(), 52);
}

#[test]
fn taking_over_a_state_twice_is_taking_it_over_once() {
    let state = GameStateData {
        players: vec![PlayerData { id: 4, name: "Di".to_string() }],
        cards: vec![CardData {
            entity: Entity(9),
            suit: Suit::Heart,
            rank: Rank::Nine,
            is_face_up: true,
            stack_type: StackType::Tableau(6),
            position_in_stack: 0,
            position: PositionData { x: 650, y: 200 },
        }],
    };
    let mut once = initialize_world();
    apply_game_state(&mut once, state.clone());
    let mut twice = initialize_world();
    apply_game_state(&mut twice, state.clone());
    assert!(apply_game_state(&mut twice, state), "a state with cards always reports a change");
    assert_eq!(get_world_state_data(&once).cards, get_world_state_data(&twice).cards);
    assert_eq!(once.entity_count(), twice.entity_count());
    assert_eq!(once.next_entity_id(), twice.next_entity_id());
    assert_eq!(once.get_component::<Player>(Entity(4)), twice.get_component::<Player>(Entity(4)));
}

#[test]
fn an_empty_state_needs_no_registered_kinds() {
    let mut world = World::new();
    let state = GameStateData { players: Vec::new(), cards: Vec::new() };
    assert!(!apply_game_state(&mut world, state));
    assert_eq!(world.entity_count(), 0);
    let mut me = None;
    let results = process_received_messages(vec![ServerMessage::Pong], &mut me, &mut world);
    assert!(results.is_empty());
    assert_eq!(me, None);
}
