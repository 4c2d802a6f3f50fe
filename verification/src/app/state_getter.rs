//! The state of the world as the server sees it: every card with its pile and position.

use vstd::prelude::*;
use crate::components::{Card, Position, StackInfo};
use crate::entity::Entity;
use crate::ecs::world::{World, WorldView, component_of};
use crate::protocol::{CardData, GameStateData, PositionData};

verus! {

/// What the server is told of entity `id`: its card, pile, place and position, when it
/// is a living entity holding all of them.
pub open spec fn card_data_of(w: WorldView, id: usize) -> Option<CardData> {
    if w.entities.contains(id) && component_of::<Card>(w, id) is Some && component_of::<StackInfo>(w, id) is Some
        && component_of::<Position>(w, id) is Some {
        let c = component_of::<Card>(w, id).unwrap();
        let si = component_of::<StackInfo>(w, id).unwrap();
        let p = component_of::<Position>(w, id).unwrap();
        Some(CardData {
            entity: Entity(id),
            suit: c.suit,
            rank: c.rank,
            is_face_up: c.is_face_up,
            stack_type: si.stack_type,
            position_in_stack: si.position_in_stack,
            position: PositionData { x: p.x, y: p.y },
        })
    } else {
        None
    }
}

/// `cards` lists the card data of every entity that has some, each once.
pub open spec fn lists_all_cards(w: WorldView, cards: Seq<CardData>) -> bool {
    &&& forall|i: int| 0 <= i < cards.len() ==> card_data_of(w, (#[trigger] cards[i]).entity.0) == Some(cards[i])
    &&& forall|id: usize| card_data_of(w, id) is Some ==> exists|i: int| 0 <= i < cards.len() && (#[trigger] cards[i]).entity.0 == id
    &&& forall|i: int, j: int| 0 <= i < j < cards.len() ==> (#[trigger] cards[i]).entity != (#[trigger] cards[j]).entity
}

/// The game state of the world: no players, and every card holder that also has a
/// pile and a position, each once (card holders missing one of them are left out).
pub fn get_world_state_data(world: &World) -> (data: GameStateData)
    ensures
        data.players@.len() == 0,
        lists_all_cards(world@, data.cards@),
{
    let ghost w = world@;
    let mut cards_data: Vec<CardData> = Vec::new();
    let entities_with_card = world.get_all_entities_with_component::<Card>();
    let n = entities_with_card.len();
    let mut i: usize = 0;
    while i < n
        invariant
            w == world@,
            n == entities_with_card@.len(),
            i <= n,
            entities_with_card@.no_duplicates(),
            forall|e: Entity| #[trigger] entities_with_card@.contains(e) <==> (component_of::<Card>(w, e.0) is Some
                && w.entities.contains(e.0)),
            forall|k: int| 0 <= k < cards_data@.len() ==> card_data_of(w, (#[trigger] cards_data@[k]).entity.0) == Some(cards_data@[k]),
            forall|k: int| 0 <= k < cards_data@.len() ==> exists|j: int| 0 <= j < i && (#[trigger] cards_data@[k]).entity == entities_with_card@[j],
            forall|j: int| 0 <= j < i && card_data_of(w, (#[trigger] entities_with_card@[j]).0) is Some
                ==> exists|k: int| 0 <= k < cards_data@.len() && (#[trigger] cards_data@[k]).entity == entities_with_card@[j],
            forall|a: int, b: int| 0 <= a < b < cards_data@.len() ==> (#[trigger] cards_data@[a]).entity != (#[trigger] cards_data@[b]).entity,
        decreases n - i,
    {
        let entity = entities_with_card[i];
        assert(entities_with_card@.contains(entity));
        let pos_opt = world.get_component::<Position>(entity);
        let card_opt = world.get_component::<Card>(entity);
        let stack_info_opt = world.get_component::<StackInfo>(entity);
        let ghost before = cards_data@;
        if let (Some(pos), Some(card), Some(stack_info)) = (pos_opt, card_opt, stack_info_opt) {
            let card_data = CardData {
                entity,
                suit: card.suit,
                rank: card.rank,
                is_face_up: card.is_face_up,
                stack_type: stack_info.stack_type,
                position_in_stack: stack_info.position_in_stack,
                position: PositionData { x: pos.x, y: pos.y },
            };
            proof {
                assert forall|k: int| 0 <= k < before.len() implies before[k].entity != entity by {
                    let j = choose|j: int| 0 <= j < i && before[k].entity == entities_with_card@[j];
                    assert(entities_with_card@[j] != entities_with_card@[i as int]);
                }
            }
            cards_data.push(card_data);
            proof {
                assert(cards_data@ == before.push(card_data));
                assert forall|k: int| 0 <= k < cards_data@.len() implies exists|j: int| 0 <= j < i + 1 && (#[trigger] cards_data@[k]).entity
                    == entities_with_card@[j] by {
                    if k == before.len() {
                        assert(cards_data@[k].entity == entities_with_card@[i as int]);
                    } else {
                        assert(cards_data@[k] == before[k]);
                        let j = choose|j: int| 0 <= j < i && before[k].entity == entities_with_card@[j];
                        assert(cards_data@[k].entity == entities_with_card@[j]);
                    }
                }
                assert forall|j: int| 0 <= j < i + 1 && card_data_of(w, (#[trigger] entities_with_card@[j]).0) is Some
                    implies exists|k: int| 0 <= k < cards_data@.len() && (#[trigger] cards_data@[k]).entity == entities_with_card@[j] by {
                    if j == i {
                        assert(cards_data@[before.len() as int].entity == entities_with_card@[j]);
                    } else {
                        let k = choose|k: int| 0 <= k < before.len() && before[k].entity == entities_with_card@[j];
                        assert(cards_data@[k] == before[k]);
                    }
                }
            }
        } else {
            proof {
                assert forall|k: int| 0 <= k < cards_data@.len() implies exists|j: int| 0 <= j < i + 1 && (#[trigger] cards_data@[k]).entity
                    == entities_with_card@[j] by {
                    let j = choose|j: int| 0 <= j < i && cards_data@[k].entity == entities_with_card@[j];
                }
            }
        }
        i = i + 1;
    }
    proof {
        assert forall|id: usize| card_data_of(w, id) is Some implies exists|k: int| 0 <= k < cards_data@.len()
            && (#[trigger] cards_data@[k]).entity.0 == id by {
            assert(entities_with_card@.contains(Entity(id)));
            let j = choose|j: int| 0 <= j < n && entities_with_card@[j] == Entity(id);
            assert(card_data_of(w, entities_with_card@[j].0) is Some);
            let k = choose|k: int| 0 <= k < cards_data@.len() && (#[trigger] cards_data@[k]).entity == entities_with_card@[j];
            assert(cards_data@[k].entity.0 == id);
        }
    }
    GameStateData { players: Vec::new(), cards: cards_data }
}

} // verus!
