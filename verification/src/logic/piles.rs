//! Piles in order: the members of a pile sorted from the bottom card up.

use vstd::prelude::*;
use crate::components::card::Card;
use crate::components::stack::{StackType, StackInfo};
use crate::entity::Entity;
use crate::ecs::world::{World, WorldView, component_of, in_stack};
use crate::logic::rules::common::{pos_in_stack, is_member};

verus! {

/// `a` lies strictly below `b`: a lower position, or the same position and a smaller identifier.
pub open spec fn stack_lt(w: WorldView, a: usize, b: usize) -> bool {
    pos_in_stack(w, a) < pos_in_stack(w, b) || (pos_in_stack(w, a) == pos_in_stack(w, b) && a < b)
}

/// `s` lists the members of pile `st` from the bottom up, each once.
pub open spec fn is_sorted_pile(w: WorldView, st: StackType, need_card: bool, s: Seq<usize>) -> bool {
    &&& forall|i: int, j: int| 0 <= i < j < s.len() ==> stack_lt(w, #[trigger] s[i], #[trigger] s[j])
    &&& forall|id: usize| #[trigger] s.contains(id) <==> is_member(w, st, need_card, id)
}

/// The members of pile `st` from the bottom up.
pub open spec fn sorted_pile(w: WorldView, st: StackType, need_card: bool) -> Seq<usize> {
    choose|s: Seq<usize>| is_sorted_pile(w, st, need_card, s)
}

/// Two sequences, each strictly increasing in the pile order, with the same elements, are equal.
proof fn lemma_strictly_sorted_unique(w: WorldView, s1: Seq<usize>, s2: Seq<usize>)
    requires
        forall|i: int, j: int| 0 <= i < j < s1.len() ==> stack_lt(w, #[trigger] s1[i], #[trigger] s1[j]),
        forall|i: int, j: int| 0 <= i < j < s2.len() ==> stack_lt(w, #[trigger] s2[i], #[trigger] s2[j]),
        forall|x: usize| s1.contains(x) <==> s2.contains(x),
    ensures
        s1 == s2,
    decreases s1.len(),
{
    if s1.len() == 0 {
        if s2.len() > 0 {
            assert(s2.contains(s2[0]));
        }
        assert(s1 =~= s2);
    } else {
        assert(s1.contains(s1[0]));
        assert(s2.len() > 0);
        assert(s2.contains(s2[0]));
        let k = choose|k: int| 0 <= k < s2.len() && s2[k] == s1[0];
        let m = choose|m: int| 0 <= m < s1.len() && s1[m] == s2[0];
        if k > 0 {
            assert(stack_lt(w, s2[0], s2[k]));
            if m > 0 {
                assert(stack_lt(w, s1[0], s1[m]));
            }
            assert(false);
        }
        let t1 = s1.drop_first();
        let t2 = s2.drop_first();
        assert forall|x: usize| t1.contains(x) implies t2.contains(x) by {
            let a = choose|a: int| 0 <= a < t1.len() && t1[a] == x;
            assert(s1[a + 1] == x);
            assert(stack_lt(w, s1[0], s1[a + 1]));
            assert(s2.contains(x));
            let b = choose|b: int| 0 <= b < s2.len() && s2[b] == x;
            assert(b != 0);
            assert(t2[b - 1] == x);
        }
        assert forall|x: usize| t2.contains(x) implies t1.contains(x) by {
            let a = choose|a: int| 0 <= a < t2.len() && t2[a] == x;
            assert(s2[a + 1] == x);
            assert(stack_lt(w, s2[0], s2[a + 1]));
            assert(s1.contains(x));
            let b = choose|b: int| 0 <= b < s1.len() && s1[b] == x;
            assert(b != 0);
            assert(t1[b - 1] == x);
        }
        assert forall|i: int, j: int| 0 <= i < j < t1.len() implies stack_lt(w, #[trigger] t1[i], #[trigger] t1[j]) by {
            assert(stack_lt(w, s1[i + 1], s1[j + 1]));
        }
        assert forall|i: int, j: int| 0 <= i < j < t2.len() implies stack_lt(w, #[trigger] t2[i], #[trigger] t2[j]) by {
            assert(stack_lt(w, s2[i + 1], s2[j + 1]));
        }
        lemma_strictly_sorted_unique(w, t1, t2);
        assert(s1 =~= s2) by {
            assert forall|i: int| 0 <= i < s1.len() implies s1[i] == s2[i] by {
                if i > 0 {
                    assert(t1[i - 1] == t2[i - 1]);
                }
            }
        }
    }
}

/// A sequence that lists the pile from the bottom up is the sorted pile.
pub proof fn lemma_sorted_pile(w: WorldView, st: StackType, need_card: bool, s: Seq<usize>)
    requires
        is_sorted_pile(w, st, need_card, s),
    ensures
        sorted_pile(w, st, need_card) == s,
{
    let c = sorted_pile(w, st, need_card);
    assert(is_sorted_pile(w, st, need_card, c));
    lemma_strictly_sorted_unique(w, c, s);
}

/// The position in its pile of `e`, which holds a stack info.
fn position_of(world: &World, e: Entity) -> (p: u8)
    requires
        component_of::<StackInfo>(world@, e.0) is Some,
    ensures
        p == pos_in_stack(world@, e.0),
{
    match world.get_component::<StackInfo>(e) {
        Some(si) => si.position_in_stack,
        None => 0,
    }
}

/// The members of pile `st` among `candidates` (which hold all of them), from the bottom up.
pub fn sorted_pile_of(world: &World, candidates: &Vec<Entity>, st: StackType, need_card: bool) -> (r: Vec<Entity>)
    requires
        world.wf(),
        candidates@.no_duplicates(),
        forall|id: usize| is_member(world@, st, need_card, id) ==> candidates@.contains(Entity(id)),
    ensures
        r@.len() == sorted_pile(world@, st, need_card).len(),
        forall|k: int| 0 <= k < r@.len() ==> #[trigger] r@[k].0 == sorted_pile(world@, st, need_card)[k],
{
    let ghost w = world@;
    let mut r: Vec<Entity> = Vec::new();
    let n = candidates.len();
    let mut i: usize = 0;
    while i < n
        invariant
            w == world@,
            n == candidates@.len(),
            candidates@.no_duplicates(),
            i <= n,
            forall|a: int, b: int| 0 <= a < b < r@.len() ==> stack_lt(w, #[trigger] r@[a].0, #[trigger] r@[b].0),
            forall|a: int| 0 <= a < r@.len() ==> is_member(w, st, need_card, #[trigger] r@[a].0),
            forall|a: int| 0 <= a < r@.len() ==> exists|j: int| 0 <= j < i && candidates@[j] == #[trigger] r@[a],
            forall|j: int| 0 <= j < i && is_member(w, st, need_card, #[trigger] candidates@[j].0) ==> r@.contains(candidates@[j]),
        decreases n - i,
    {
        let e = candidates[i];
        let alive = world.is_entity_alive(e);
        let has_card = if need_card { world.get_component::<Card>(e).is_some() } else { true };
        let in_pile = match world.get_component::<StackInfo>(e) {
            Some(si) => si.stack_type == st,
            None => false,
        };
        if alive && has_card && in_pile {
            assert(is_member(w, st, need_card, e.0));
            let p = position_of(world, e);
            let mut j: usize = 0;
            while j < r.len()
                invariant
                    w == world@,
                    j <= r@.len(),
                    p == pos_in_stack(w, e.0),
                    forall|a: int| 0 <= a < r@.len() ==> is_member(w, st, need_card, #[trigger] r@[a].0),
                    forall|a: int| 0 <= a < j ==> stack_lt(w, #[trigger] r@[a].0, e.0),
                ensures
                    j <= r@.len(),
                    forall|a: int| 0 <= a < j ==> stack_lt(w, #[trigger] r@[a].0, e.0),
                    j < r@.len() ==> !stack_lt(w, r@[j as int].0, e.0),
                decreases r@.len() - j,
            {
                let q = position_of(world, r[j]);
                if q < p || (q == p && r[j].0 < e.0) {
                    j = j + 1;
                } else {
                    break;
                }
            }
            let ghost r0 = r@;
            proof {
                assert forall|a: int| j <= a < r0.len() implies stack_lt(w, e.0, #[trigger] r0[a].0) by {
                    if a > j {
                        assert(stack_lt(w, r0[j as int].0, r0[a].0));
                    }
                    if r0[a].0 == e.0 {
                        assert(r0[a] == e);
                        let k = choose|k: int| 0 <= k < i && candidates@[k] == r0[a];
                        assert(candidates@[k] == candidates@[i as int]);
                    }
                }
            }
            r.insert(j, e);
            proof {
                assert(r@ == r0.insert(j as int, e));
                assert forall|a: int, b: int| 0 <= a < b < r@.len() implies stack_lt(w, #[trigger] r@[a].0, #[trigger] r@[b].0) by {
                    if a < j && b < j {
                        assert(r@[a] == r0[a] && r@[b] == r0[b]);
                    } else if a < j && b == j {
                        assert(r@[a] == r0[a]);
                    } else if a < j && b > j {
                        assert(r@[a] == r0[a] && r@[b] == r0[b - 1]);
                        assert(stack_lt(w, r0[a].0, e.0));
                    } else if a == j {
                        assert(r@[b] == r0[b - 1]);
                    } else {
                        assert(r@[a] == r0[a - 1] && r@[b] == r0[b - 1]);
                    }
                }
                assert forall|a: int| 0 <= a < r@.len() implies exists|k: int| 0 <= k < i + 1 && candidates@[k] == #[trigger] r@[a] by {
                    if a < j {
                        assert(r@[a] == r0[a]);
                    } else if a == j {
                        assert(candidates@[i as int] == r@[a]);
                    } else {
                        assert(r@[a] == r0[a - 1]);
                    }
                }
                assert forall|k: int| 0 <= k < i + 1 && is_member(w, st, need_card, #[trigger] candidates@[k].0) implies r@.contains(candidates@[k]) by {
                    if k == i {
                        assert(r@[j as int] == e);
                    } else {
                        let a = choose|a: int| 0 <= a < r0.len() && r0[a] == candidates@[k];
                        if a < j {
                            assert(r@[a] == r0[a]);
                        } else {
                            assert(r@[a + 1] == r0[a]);
                        }
                    }
                }
            }
        } else {
            proof {
                assert forall|k: int| 0 <= k < i + 1 && is_member(w, st, need_card, #[trigger] candidates@[k].0) implies r@.contains(candidates@[k]) by {
                    if k == i {
                        assert(candidates@[k] == e);
                    }
                }
                assert forall|a: int| 0 <= a < r@.len() implies exists|k: int| 0 <= k < i + 1 && candidates@[k] == #[trigger] r@[a] by {
                    let k = choose|k: int| 0 <= k < i && candidates@[k] == r@[a];
                }
            }
        }
        i = i + 1;
    }
    let ghost s = r@.map_values(|e: Entity| e.0);
    proof {
        assert forall|a: int, b: int| 0 <= a < b < s.len() implies stack_lt(w, #[trigger] s[a], #[trigger] s[b]) by {
            assert(stack_lt(w, r@[a].0, r@[b].0));
        }
        assert forall|id: usize| #[trigger] s.contains(id) <==> is_member(w, st, need_card, id) by {
            if s.contains(id) {
                let a = choose|a: int| 0 <= a < s.len() && s[a] == id;
                assert(is_member(w, st, need_card, r@[a].0));
            }
            if is_member(w, st, need_card, id) {
                assert(candidates@.contains(Entity(id)));
                let k = choose|k: int| 0 <= k < n && candidates@[k] == Entity(id);
                assert(is_member(w, st, need_card, candidates@[k].0));
                assert(r@.contains(candidates@[k]));
                let a = choose|a: int| 0 <= a < r@.len() && r@[a] == candidates@[k];
                assert(s[a] == id);
            }
        }
        lemma_sorted_pile(w, st, need_card, s);
    }
    r
}

} // verus!
