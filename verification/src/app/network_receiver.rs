//! Taking in the messages that came from the server, in the order they came.

use vstd::prelude::*;
use crate::entity::Entity;
use crate::ecs::world::{World, WorldView};
use crate::protocol::{ServerMessage, PlayerId, GameStateData};
use crate::app::state_handler::{apply_game_state, state_applied, state_changes, state_kinds_registered, kinds_kept};

verus! {

broadcast use vstd::std_specs::vec::axiom_spec_into_iter;

/// What a message from the server amounted to, for the page to react to.
#[derive(Debug, Clone)]
pub enum ProcessedMessageResult {
    Nothing,
    StateChanged,
    MoveRejected { entity_id: Entity, reason: String },
}

/// The game state a message carries, if it carries one.
pub open spec fn carried_state(m: ServerMessage) -> Option<GameStateData> {
    match m {
        ServerMessage::GameJoined { initial_game_state, .. } => Some(initial_game_state),
        ServerMessage::GameStateUpdate { current_game_state } => Some(current_game_state),
        _ => None,
    }
}

/// Every identifier of a player or card in `gs` is below `usize::MAX`.
pub open spec fn state_ids_fit(gs: GameStateData) -> bool {
    &&& forall|i: int| 0 <= i < gs.cards@.len() ==> (#[trigger] gs.cards@[i]).entity.0 < usize::MAX
    &&& forall|i: int| 0 <= i < gs.players@.len() ==> (#[trigger] gs.players@[i]).id < usize::MAX
}

/// The identifiers of the game state that `m` carries, if any, fit.
pub open spec fn message_ids_fit(m: ServerMessage) -> bool {
    match carried_state(m) {
        Some(gs) => state_ids_fit(gs),
        None => true,
    }
}

/// The kinds that taking over the game state `m` carries, if any, writes are
/// registered in `w`.
pub open spec fn message_kinds_registered(w: WorldView, m: ServerMessage) -> bool {
    match carried_state(m) {
        Some(gs) => state_kinds_registered(w, gs.players@, gs.cards@),
        None => true,
    }
}

/// The world after message `m`: a carried game state is taken over.
pub open spec fn world_after(w: WorldView, m: ServerMessage) -> WorldView {
    match carried_state(m) {
        Some(gs) => state_applied(w, gs.players@, gs.cards@),
        None => w,
    }
}

/// What message `m` amounts to in world `w`: a state change when a carried state changes
/// anything, a rejection with its entity and reason, else nothing worth reporting.
pub open spec fn results_of(w: WorldView, m: ServerMessage) -> Seq<ProcessedMessageResult> {
    match m {
        ServerMessage::MoveRejected { entity_id, reason } => seq![ProcessedMessageResult::MoveRejected { entity_id, reason }],
        _ => match carried_state(m) {
            Some(gs) => if state_changes(w, gs.players@, gs.cards@) {
                seq![ProcessedMessageResult::StateChanged]
            } else {
                Seq::empty()
            },
            None => Seq::empty(),
        },
    }
}

/// This client's player identifier after message `m`: the one a join hands out.
pub open spec fn player_after(p: Option<PlayerId>, m: ServerMessage) -> Option<PlayerId> {
    match m {
        ServerMessage::GameJoined { your_player_id, .. } => Some(your_player_id),
        _ => p,
    }
}

/// The world after the first `k` messages of `ms`.
pub open spec fn world_after_all(w: WorldView, ms: Seq<ServerMessage>, k: int) -> WorldView
    decreases k,
{
    if k <= 0 {
        w
    } else {
        world_after(world_after_all(w, ms, k - 1), ms[k - 1])
    }
}

/// What the first `k` messages of `ms` amount to, in order.
pub open spec fn results_of_all(w: WorldView, ms: Seq<ServerMessage>, k: int) -> Seq<ProcessedMessageResult>
    decreases k,
{
    if k <= 0 {
        Seq::empty()
    } else {
        results_of_all(w, ms, k - 1) + results_of(world_after_all(w, ms, k - 1), ms[k - 1])
    }
}

/// This client's player identifier after the first `k` messages of `ms`.
pub open spec fn player_after_all(p: Option<PlayerId>, ms: Seq<ServerMessage>, k: int) -> Option<PlayerId>
    decreases k,
{
    if k <= 0 {
        p
    } else {
        player_after(player_after_all(p, ms, k - 1), ms[k - 1])
    }
}

/// Takes in the messages from the server in order: a join records this client's
/// player identifier; a join or a state update takes over the game state it carries
/// (the kinds it writes must be registered: the players when it brings players, the
/// cards, stack infos and positions when it brings cards);
/// a rejected move is reported; the other messages change nothing. Returns what the
/// messages amounted to, in order.
pub fn process_received_messages(
    messages: Vec<ServerMessage>,
    my_player_id: &mut Option<PlayerId>,
    world: &mut World,
) -> (results: Vec<ProcessedMessageResult>)
    requires
        old(world).wf(),
        forall|i: int| 0 <= i < messages@.len() ==> message_ids_fit(#[trigger] messages@[i]),
        forall|i: int| 0 <= i < messages@.len() ==> message_kinds_registered(old(world)@, #[trigger] messages@[i]),
    ensures
        final(world).wf(),
        final(world)@ == world_after_all(old(world)@, messages@, messages@.len() as int),
        *final(my_player_id) == player_after_all(*old(my_player_id), messages@, messages@.len() as int),
        results@ == results_of_all(old(world)@, messages@, messages@.len() as int),
{
    let ghost w0 = world@;
    let ghost p0 = *my_player_id;
    let ghost ms = messages@;
    let mut results: Vec<ProcessedMessageResult> = Vec::new();
    let ghost mut k: int = 0;
    for message in it: messages.into_iter()
        invariant
            it.seq() == ms,
            k == it.index(),
            forall|i: int| 0 <= i < ms.len() ==> message_ids_fit(#[trigger] ms[i]),
            forall|i: int| 0 <= i < ms.len() ==> message_kinds_registered(w0, #[trigger] ms[i]),
            world.wf(),
            kinds_kept(w0, world@),
            world@ == world_after_all(w0, ms, k),
            *my_player_id == player_after_all(p0, ms, k),
            results@ == results_of_all(w0, ms, k),
    {
        let ghost wk = world@;
        let ghost rk = results@;
        proof {
            assert(ms[k] == message);
            assert(message_ids_fit(ms[k]));
            assert(message_kinds_registered(w0, ms[k]));
            assert(message_kinds_registered(wk, ms[k]));
        }
        match message {
            ServerMessage::GameJoined { your_player_id, initial_game_state } => {
                *my_player_id = Some(your_player_id);
                if apply_game_state(world, initial_game_state) {
                    results.push(ProcessedMessageResult::StateChanged);
                }
            },
            ServerMessage::GameStateUpdate { current_game_state } => {
                if apply_game_state(world, current_game_state) {
                    results.push(ProcessedMessageResult::StateChanged);
                }
            },
            ServerMessage::MoveRejected { entity_id, reason } => {
                results.push(ProcessedMessageResult::MoveRejected { entity_id, reason });
            },
            ServerMessage::PlayerJoined { .. } => {},
            ServerMessage::PlayerLeft { .. } => {},
            ServerMessage::Pong => {},
            ServerMessage::Error { .. } => {},
        }
        proof {
            assert(results@ =~= rk + results_of(wk, ms[k]));
            k = k + 1;
        }
    }
    results
}

/// The entity of the first rejected move among `results`, if any.
pub open spec fn first_rejected(results: Seq<ProcessedMessageResult>) -> Option<usize>
    decreases results.len(),
{
    if results.len() == 0 {
        None
    } else {
        match results[0] {
            ProcessedMessageResult::MoveRejected { entity_id, .. } => Some(entity_id.0),
            _ => first_rejected(results.drop_first()),
        }
    }
}

/// The entity of the first move that the server rejected, among the outcomes of the
/// messages taken in, if any: the card the page has to put back.
pub fn first_rejected_entity(results: &Vec<ProcessedMessageResult>) -> (r: Option<usize>)
    ensures
        r == first_rejected(results@),
{
    let n = results.len();
    let mut i: usize = 0;
    assert(results@.skip(0) =~= results@);
    while i < n
        invariant
            n == results@.len(),
            i <= n,
            first_rejected(results@) == first_rejected(results@.skip(i as int)),
        decreases n - i,
    {
        assert(results@.skip(i as int).drop_first() =~= results@.skip(i + 1));
        if let ProcessedMessageResult::MoveRejected { entity_id, .. } = &results[i] {
            return Some(entity_id.0);
        }
        i = i + 1;
    }
    None
}

} // verus!
