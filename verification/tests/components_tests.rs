use solitaire_ecs::component;
use solitaire_ecs::component::Component;
use solitaire_ecs::components::{Card, Rank, Suit, GameState, GameStatus, Player, Position, StackInfo, StackType};

fn needs_component<T: Component>(_: T) {}

#[test]
fn create_card_component() {
    let card = Card { suit: Suit::Spade, rank: Rank::Ace, is_face_up: false };

    assert_eq!(card.suit, Suit::Spade);
    assert_eq!(card.rank, Rank::Ace);
    assert_eq!(card.is_face_up, false);

    println!("card: {:?}", card);
    needs_component(card.clone());
}

#[test]
fn rank_comparison() {
    assert!(Rank::Ace < Rank::Two);
    assert!(Rank::Ten < Rank::Jack);
    assert!(Rank::Queen < Rank::King);
    assert!(Rank::King > Rank::Ace);
    assert_eq!(Rank::Seven, Rank::Seven);
}

#[test]
fn rank_values_run_from_ace_to_king() {
    assert_eq!(Rank::Ace.value(), 1);
    assert_eq!(Rank::Seven.value(), 7);
    assert_eq!(Rank::Ten.value(), 10);
    assert_eq!(Rank::King.value(), 13);
}

#[test]
fn create_game_state_component() {
    let initial_state = GameState { status: GameStatus::Playing };
    assert_eq!(initial_state.status, GameStatus::Playing);

    let game_over_state = GameState { status: GameStatus::GameOver { winner_id: Some(1) } };
    assert_eq!(game_over_state.status, GameStatus::GameOver { winner_id: Some(1) });

    needs_component(initial_state.clone());
    needs_component(game_over_state.clone());
}

#[test]
fn game_status_comparison() {
    let playing = GameStatus::Playing;
    let over_p1_wins = GameStatus::GameOver { winner_id: Some(1) };
    let over_p2_wins = GameStatus::GameOver { winner_id: Some(2) };
    let over_draw = GameStatus::GameOver { winner_id: None };

    assert_eq!(playing, GameStatus::Playing);
    assert_ne!(playing, over_p1_wins);
    assert_eq!(over_p1_wins, GameStatus::GameOver { winner_id: Some(1) });
    assert_ne!(over_p1_wins, over_p2_wins);
    assert_ne!(over_p1_wins, over_draw);
}

#[test]
fn create_player_component() {
    let player1 = Player { name: "Player 1".to_string(), is_current_turn: true };
    let player2 = Player { name: "Player 2".to_string(), is_current_turn: false };

    assert_eq!(player1.name, "Player 1");
    assert_eq!(player1.is_current_turn, true);
    assert_eq!(player2.name, "Player 2");
    assert_eq!(player2.is_current_turn, false);

    needs_component(player1.clone());
    needs_component(player2.clone());
}

#[test]
fn create_position_component() {
    let pos = Position { x: 100, y: -50 };

    assert_eq!(pos.x, 100);
    assert_eq!(pos.y, -50);

    let pos_same = Position { x: 100, y: -50 };
    let pos_different = Position { x: 0, y: 0 };
    assert_eq!(pos, pos_same);
    assert_ne!(pos, pos_different);

    needs_component(pos.clone());
}

#[test]
fn test_stack_info_creation() {
    let info1 = StackInfo::new(StackType::Tableau(2), 5);
    assert_eq!(info1.stack_type, StackType::Tableau(2));
    assert_eq!(info1.position_in_stack, 5);

    let info2 = StackInfo::new(StackType::Foundation(0), 0);
    assert_eq!(info2.stack_type, StackType::Foundation(0));
    assert_eq!(info2.position_in_stack, 0);
}

#[test]
fn kinds_of_pile_as_the_page_sees_them() {
    assert_eq!(component::StackType::from(StackType::Tableau(3)), component::StackType::Tableau);
    assert_eq!(component::StackType::from(StackType::Waste), component::StackType::Waste);
    assert_eq!(StackType::from(component::StackType::Foundation), StackType::Foundation(0));
    assert_eq!(StackType::from(component::StackType::Hand), StackType::Hand);
    assert_eq!(component::Suit::from(Suit::Club), component::Suit::Club);
    assert_eq!(component::Rank::from(Rank::Queen), component::Rank::Queen);
    assert_ne!(component::GameState::Playing, component::GameState::Won);
}
