//! Setting up the world, and the initial state that is sent to the server.

use vstd::prelude::*;
use crate::components::{Card, Position, StackInfo, GameState, Player, DraggingInfo};
use crate::ecs::world::{World, WorldView, component_of};
use crate::protocol::{GameStateData, ClientMessage};
use crate::app::state_getter::{get_world_state_data, lists_all_cards};
use crate::systems::deal_system::{DealInitialCardsSystem, deal_result};
use crate::logic::deck::standard_deck;

verus! {

/// A world with no entities and every kind of component of the game registered, empty.
pub fn initialize_world() -> (world: World)
    ensures
        world.wf(),
        world@.entities == Set::<usize>::empty(),
        world@.next_entity_id == 0,
        world@.cards == Some(Map::<usize, Card>::empty()),
        world@.positions == Some(Map::<usize, Position>::empty()),
        world@.stack_infos == Some(Map::<usize, StackInfo>::empty()),
        world@.game_states == Some(Map::<usize, GameState>::empty()),
        world@.players == Some(Map::<usize, Player>::empty()),
        world@.dragging_infos == Some(Map::<usize, DraggingInfo>::empty()),
{
    let mut world = World::new();
    world.register_component::<Card>();
    world.register_component::<Position>();
    world.register_component::<StackInfo>();
    world.register_component::<GameState>();
    world.register_component::<Player>();
    world.register_component::<DraggingInfo>();
    world
}

/// Every living card holder also has a stack info and a position.
pub open spec fn cards_complete(w: WorldView) -> bool {
    forall|id: usize| #[trigger] w.entities.contains(id) && component_of::<Card>(w, id) is Some
        ==> component_of::<StackInfo>(w, id) is Some && component_of::<Position>(w, id) is Some
}

/// The state to send the server once the cards are dealt: no players, and every card
/// with its pile, place and position, each once.
pub fn get_initial_state_data(world: &World) -> (data: GameStateData)
    requires
        cards_complete(world@),
    ensures
        data.players@.len() == 0,
        lists_all_cards(world@, data.cards@),
{
    get_world_state_data(world)
}

/// After a deal every card holder has a pile and a position.
proof fn lemma_deal_complete(w: WorldView, d: Seq<Card>)
    requires
        w.cards is Some,
        w.stack_infos is Some,
        w.positions is Some,
    ensures
        cards_complete(deal_result(w, d)),
{
}

/// Deals a new game and returns the message that hands its state to the server: no
/// players, and every card with its pile, place and position.
pub fn deal_initial_cards(world: &mut World, deal_system: &DealInitialCardsSystem) -> (message: ClientMessage)
    requires
        old(world).wf(),
        old(world)@.cards is Some,
        old(world)@.stack_infos is Some,
        old(world)@.positions is Some,
        old(world)@.next_entity_id + 52 < usize::MAX,
    ensures
        final(world).wf(),
        exists|d: Seq<Card>| d.to_multiset() == standard_deck().to_multiset()
            && final(world)@ == deal_result(old(world)@, d),
        message matches ClientMessage::ProvideInitialState { initial_state }
            && initial_state.players@.len() == 0
            && lists_all_cards(final(world)@, initial_state.cards@),
{
    let ghost w0 = world@;
    deal_system.execute(world);
    proof {
        let d = choose|d: Seq<Card>| d.to_multiset() == standard_deck().to_multiset()
            && world@ == deal_result(w0, d);
        lemma_deal_complete(w0, d);
    }
    let initial_state = get_initial_state_data(world);
    ClientMessage::ProvideInitialState { initial_state }
}

} // verus!
