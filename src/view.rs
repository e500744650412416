//! What a client makes of the snapshots it receives: which actor is its own,
//! and how the squares on its display change to show a snapshot.
use vstd::prelude::*;
use crate::world::{ActorState, has_id};

verus! {

/// The changes that bring a display in line with a snapshot.
pub struct SceneChanges {
    /// Ids shown that the snapshot no longer holds, in display order.
    pub despawn: Vec<u64>,
    /// Actors of the snapshot already shown, to be moved, in snapshot order.
    pub update: Vec<ActorState>,
    /// Actors of the snapshot not shown yet, in snapshot order, each marked
    /// where it is the client's own.
    pub spawn: Vec<Spawn>,
}

/// An actor to spawn on a display, and whether it is the client's own (which
/// is drawn in its own colour).
#[derive(Clone, Copy, Debug, PartialEq, Eq, Structural)]
pub struct Spawn {
    pub actor: ActorState,
    pub own: bool,
}

/// The actors of `s`, each marked where its id is `own`.
pub open spec fn marked(s: Seq<ActorState>, own: Option<u64>) -> Seq<Spawn> {
    s.map_values(|a: ActorState| Spawn { actor: a, own: own == Some(a.actor_id) })
}

pub open spec fn gone(state: Seq<ActorState>) -> spec_fn(u64) -> bool {
    |id: u64| !has_id(state, id)
}

pub open spec fn shown_in(shown: Seq<u64>) -> spec_fn(ActorState) -> bool {
    |a: ActorState| shown.contains(a.actor_id)
}

pub open spec fn new_to(shown: Seq<u64>) -> spec_fn(ActorState) -> bool {
    |a: ActorState| !shown.contains(a.actor_id)
}

fn state_has(state: &Vec<ActorState>, id: u64) -> (r: bool)
    ensures
        r == has_id(state@, id),
{
    let mut i: usize = 0;
    while i < state.len()
        invariant
            0 <= i <= state@.len(),
            forall|k: int| 0 <= k < i ==> (#[trigger] state@[k]).actor_id != id,
        decreases state@.len() - i,
    {
        if state[i].actor_id == id {
            return true;
        }
        i = i + 1;
    }
    false
}

fn shown_has(shown: &Vec<u64>, id: u64) -> (r: bool)
    ensures
        r == shown@.contains(id),
{
    let mut i: usize = 0;
    while i < shown.len()
        invariant
            0 <= i <= shown@.len(),
            forall|k: int| 0 <= k < i ==> shown@[k] != id,
        decreases shown@.len() - i,
    {
        if shown[i] == id {
            assert(shown@[i as int] == id);
            return true;
        }
        i = i + 1;
    }
    false
}

/// The id a client takes for its own when its first snapshot comes: the
/// highest id in it, since a joining connection gets the newest id. The
/// first snapshot a connection receives holds its own actor, so it is never
/// empty.
pub fn player_id_from_state(state: &Vec<ActorState>) -> (r: u64)
    requires
        state@.len() > 0,
    ensures
        has_id(state@, r),
        forall|k: int| 0 <= k < state@.len() ==> (#[trigger] state@[k]).actor_id <= r,
{
    let mut best: u64 = state[0].actor_id;
    let mut i: usize = 1;
    while i < state.len()
        invariant
            1 <= i <= state@.len(),
            has_id(state@, best),
            forall|k: int| 0 <= k < i ==> (#[trigger] state@[k]).actor_id <= best,
        decreases state@.len() - i,
    {
        if state[i].actor_id > best {
            best = state[i].actor_id;
        }
        i = i + 1;
    }
    best
}

/// The changes that bring a display showing the squares `shown` in line with
/// the snapshot `state`: despawn what left, move what stays, spawn what is
/// new, marking the actor whose id is `own`, the client's, if it is known.
pub fn reconcile(shown: &Vec<u64>, state: &Vec<ActorState>, own: Option<u64>) -> (r: SceneChanges)
    ensures
        r.despawn@ == shown@.filter(gone(state@)),
        r.update@ == state@.filter(shown_in(shown@)),
        r.spawn@ == marked(state@.filter(new_to(shown@)), own),
{
    let mut despawn: Vec<u64> = Vec::new();
    let mut i: usize = 0;
    while i < shown.len()
        invariant
            0 <= i <= shown@.len(),
            despawn@ == shown@.subrange(0, i as int).filter(gone(state@)),
        decreases shown@.len() - i,
    {
        let id = shown[i];
        let absent = !state_has(state, id);
        if absent {
            despawn.push(id);
        }
        proof {
            let sub = shown@.subrange(0, i + 1);
            assert(sub.drop_last() =~= shown@.subrange(0, i as int));
            assert(sub.last() == id);
            reveal(Seq::filter);
        }
        i = i + 1;
    }
    assert(shown@.subrange(0, shown@.len() as int) =~= shown@);
    let mut update: Vec<ActorState> = Vec::new();
    let mut spawn: Vec<Spawn> = Vec::new();
    let mut j: usize = 0;
    while j < state.len()
        invariant
            0 <= j <= state@.len(),
            update@ == state@.subrange(0, j as int).filter(shown_in(shown@)),
            spawn@ == marked(state@.subrange(0, j as int).filter(new_to(shown@)), own),
        decreases state@.len() - j,
    {
        let a = state[j];
        let ghost before = state@.subrange(0, j as int).filter(new_to(shown@));
        if shown_has(shown, a.actor_id) {
            update.push(a);
        } else {
            let is_own = match own {
                Some(o) => o == a.actor_id,
                None => false,
            };
            spawn.push(Spawn { actor: a, own: is_own });
        }
        proof {
            let sub = state@.subrange(0, j + 1);
            assert(sub.drop_last() =~= state@.subrange(0, j as int));
            assert(sub.last() == a);
            reveal(Seq::filter);
            if !shown@.contains(a.actor_id) {
                assert(marked(before.push(a), own) =~= marked(before, own).push(
                    Spawn { actor: a, own: own == Some(a.actor_id) },
                ));
            }
        }
        j = j + 1;
    }
    assert(state@.subrange(0, state@.len() as int) =~= state@);
    SceneChanges { despawn, update, spawn }
}

} // verus!
