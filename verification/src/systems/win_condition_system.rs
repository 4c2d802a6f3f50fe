//! Declaring the game won once every card is on a foundation.

use vstd::prelude::*;
use crate::components::{Card, StackInfo, StackType};
use crate::components::game_state::{GameState, GameStatus};
use crate::entity::Entity;
use crate::ecs::system::System;
use crate::ecs::world::{World, WorldView, component_of, with_component};

verus! {

/// The living entities that hold a card.
pub open spec fn card_holders(w: WorldView) -> Set<usize> {
    Set::new(|id: usize| w.entities.contains(id) && component_of::<Card>(w, id) is Some)
}

/// Entity `id` lies on a foundation.
pub open spec fn on_foundation(w: WorldView, id: usize) -> bool {
    component_of::<StackInfo>(w, id) matches Some(si) && si.stack_type is Foundation
}

/// All 52 cards lie on the foundations: exactly 52 entities hold a card, all on foundations.
pub open spec fn all_on_foundations(w: WorldView) -> bool {
    &&& card_holders(w).len() == 52
    &&& forall|id: usize| #[trigger] card_holders(w).contains(id) ==> on_foundation(w, id)
}

/// The entity that holds the game state.
pub open spec fn game_state_id() -> usize {
    0
}

/// The world after a run: a game that is being played and has all its cards on the
/// foundations becomes won; anything else stays as it is.
pub open spec fn win_check_result(w: WorldView) -> WorldView {
    if component_of::<GameState>(w, game_state_id()) matches Some(gs) && gs.status == GameStatus::Playing
        && all_on_foundations(w) {
        with_component(w, game_state_id(), GameState { status: GameStatus::Won })
    } else {
        w
    }
}

/// Watches for the end of the game.
pub struct WinConditionSystem;

impl WinConditionSystem {
    pub fn new() -> (s: Self) {
        WinConditionSystem
    }

    /// Whether all 52 cards lie on the foundations.
    pub fn check_win_condition(&self, world: &World) -> (b: bool)
        requires
            world.wf(),
        ensures
            b == all_on_foundations(world@),
    {
        let ghost w = world@;
        let card_entities = world.get_all_entities_with_component::<Card>();
        proof {
            let ids = card_entities@.map_values(|e: Entity| e.0);
            assert(ids.no_duplicates()) by {
                assert forall|a: int, b: int| 0 <= a < ids.len() && 0 <= b < ids.len() && a != b implies ids[a] != ids[b] by {
                    assert(card_entities@[a] != card_entities@[b]);
                }
            }
            assert(ids.to_set() =~= card_holders(w)) by {
                assert forall|id: usize| ids.to_set().contains(id) implies card_holders(w).contains(id) by {
                    let a = choose|a: int| 0 <= a < ids.len() && ids[a] == id;
                    assert(card_entities@.contains(card_entities@[a]));
                }
                assert forall|id: usize| card_holders(w).contains(id) implies ids.to_set().contains(id) by {
                    assert(card_entities@.contains(Entity(id)));
                    let a = choose|a: int| 0 <= a < card_entities@.len() && card_entities@[a] == Entity(id);
                    assert(ids[a] == id);
                }
            }
            ids.unique_seq_to_set();
        }
        if card_entities.len() != 52 {
            return false;
        }
        let n = card_entities.len();
        let mut i: usize = 0;
        while i < n
            invariant
                w == world@,
                n == card_entities@.len(),
                i <= n,
                forall|e: Entity| #[trigger] card_entities@.contains(e) <==> (component_of::<Card>(w, e.0) is Some
                    && w.entities.contains(e.0)),
                forall|j: int| 0 <= j < i ==> on_foundation(w, (#[trigger] card_entities@[j]).0),
            decreases n - i,
        {
            if !self.is_card_in_foundation(world, card_entities[i]) {
                proof {
                    assert(card_entities@.contains(card_entities@[i as int]));
                    assert(card_holders(w).contains(card_entities@[i as int].0));
                }
                return false;
            }
            i = i + 1;
        }
        proof {
            assert forall|id: usize| #[trigger] card_holders(w).contains(id) implies on_foundation(w, id) by {
                assert(card_entities@.contains(Entity(id)));
                let a = choose|a: int| 0 <= a < n && card_entities@[a] == Entity(id);
                assert(on_foundation(w, card_entities@[a].0));
            }
        }
        true
    }

    /// Whether `card_entity` lies on a foundation.
    pub fn is_card_in_foundation(&self, world: &World, card_entity: Entity) -> (b: bool)
        ensures
            b == on_foundation(world@, card_entity.0),
    {
        match world.get_component::<StackInfo>(card_entity) {
            Some(stack_info) => match stack_info.stack_type {
                StackType::Foundation(_) => true,
                _ => false,
            },
            None => false,
        }
    }
}

impl System for WinConditionSystem {
    /// Marks the game won when it is being played and all cards are on the foundations.
    fn run(&mut self, world: &mut World)
        ensures
            final(world)@ == win_check_result(old(world)@),
    {
        let game_state_entity = Entity(0);
        let playing = match world.get_component::<GameState>(game_state_entity) {
            Some(gs) => gs.status == GameStatus::Playing,
            None => false,
        };
        if !playing {
            return;
        }
        if self.check_win_condition(world) {
            if let Some(game_state) = world.get_component_mut::<GameState>(game_state_entity) {
                game_state.status = GameStatus::Won;
            }
        }
    }
}

/// Running the win check again changes nothing: a won game stays won, and a game that
/// was not won stays as the first run left it.
pub proof fn lemma_win_check_settles(w: WorldView)
    requires
        w.wf(),
    ensures
        win_check_result(win_check_result(w)) == win_check_result(w),
{
    let r = win_check_result(w);
    if r != w {
        assert(component_of::<GameState>(r, game_state_id()) == Some(GameState { status: GameStatus::Won }));
    }
}

} // verus!
