//! Carrying out a move of a card onto another pile.

use vstd::prelude::*;
use crate::components::{Card, Position, StackInfo, StackType};
use crate::entity::Entity;
use crate::ecs::system::System;
use crate::ecs::world::{World, WorldView, component_of};
use crate::logic::rules;
use crate::app::layout_calculator::{calculate_card_position, card_position};
use crate::app::stock_handler::{pile_set, pile_entries, update_entry, turn_card};

verus! {

/// The place a card moved onto `target` takes: the top, above every entity already there.
pub open spec fn target_slot(w: WorldView, target: StackType) -> u8 {
    pile_set(w, target, false).len() as u8
}

/// The world with `moved` relabelled as lying at the top of `target`.
pub open spec fn restacked(w: WorldView, moved: usize, target: StackType) -> WorldView {
    WorldView {
        stack_infos: update_entry(w.stack_infos, moved, StackInfo { stack_type: target, position_in_stack: target_slot(w, target) }),
        ..w
    }
}

/// The world after `moved` goes to the top of `target`: its stack info and position
/// follow, and on a tableau pile it is turned face up. An entity without a stack info
/// does not move.
pub open spec fn move_result(w: WorldView, moved: usize, target: StackType) -> WorldView {
    if component_of::<StackInfo>(w, moved) is Some {
        let w1 = restacked(w, moved, target);
        let pos = card_position(w1, target, target_slot(w, target));
        WorldView {
            positions: update_entry(w1.positions, moved, Position { x: pos.0 as i32, y: pos.1 as i32 }),
            cards: if target is Tableau { turn_card(w1.cards, moved, true) } else { w1.cards },
            ..w1
        }
    } else {
        w
    }
}

/// Carries out moves of cards between piles.
pub struct MoveCardSystem {}

impl MoveCardSystem {
    pub fn new() -> (s: Self) {
        MoveCardSystem {}
    }

    /// Moves `moved_entity` to the top of `target_stack`.
    fn process_move(&mut self, world: &mut World, moved_entity: Entity, target_stack: StackType)
        requires
            old(world).wf(),
            component_of::<StackInfo>(old(world)@, moved_entity.0) is Some ==> !(target_stack is Hand),
        ensures
            final(world)@ == move_result(old(world)@, moved_entity.0, target_stack),
            final(world).wf(),
    {
        let ghost w0 = world@;
        let new_position_in_stack = {
            let target_entities = world.get_all_entities_with_component::<StackInfo>();
            let entries = pile_entries(world, &target_entities, target_stack, false);
            entries.len() as u8
        };
        if let Some(stack_info) = world.get_component_mut::<StackInfo>(moved_entity) {
            stack_info.stack_type = target_stack;
            stack_info.position_in_stack = new_position_in_stack;
        } else {
            return;
        }
        assert(world@ == restacked(w0, moved_entity.0, target_stack));
        let new_position = calculate_card_position(target_stack, new_position_in_stack, world);
        if let Some(position) = world.get_component_mut::<Position>(moved_entity) {
            position.x = new_position.x;
            position.y = new_position.y;
        }
        if let Some(card) = world.get_component_mut::<Card>(moved_entity) {
            if let StackType::Tableau(_) = target_stack {
                if !card.is_face_up {
                    card.is_face_up = true;
                }
            }
        }
        proof {
            let e = move_result(w0, moved_entity.0, target_stack);
            assert(world@.positions == e.positions);
            assert(world@.cards == e.cards);
            assert(world@ =~= e);
        }
    }
}

impl System for MoveCardSystem {
    /// Processes the pending move requests; there are none to take in yet, so the world
    /// stays as it is.
    fn run(&mut self, world: &mut World)
        ensures
            final(world)@ == old(world)@,
    {
        let ghost w0 = world@;
        let move_requests: Vec<(Entity, StackType)> = Vec::new();
        let n = move_requests.len();
        let mut i: usize = 0;
        while i < n
            invariant
                n == move_requests@.len(),
                n == 0,
                i <= n,
                world@ == w0,
                world.wf(),
            decreases n - i,
        {
            let (moved_entity, target_stack) = move_requests[i];
            if rules::is_move_valid(world, moved_entity, target_stack) {
                self.process_move(world, moved_entity, target_stack);
            }
            i = i + 1;
        }
    }
}

} // verus!
