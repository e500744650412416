//! The authoritative world: the actors of the session and their positions.
use vstd::prelude::*;
use crate::control::{ControlDelta, SPEED, normalize, normalize_delta};

verus! {

/// One actor: its id and its position, in fixed-point steps.
#[derive(Clone, Copy, Debug, PartialEq, Eq, Structural)]
pub struct ActorState {
    pub actor_id: u64,
    pub x: i64,
    pub y: i64,
}

/// A coordinate after a move, held at the bounds of `i64`.
pub open spec fn clamped(v: int) -> int {
    if v > i64::MAX {
        i64::MAX as int
    } else if v < i64::MIN {
        i64::MIN as int
    } else {
        v
    }
}

/// An actor after one accepted input: each coordinate moves by `SPEED` times
/// the delta's component.
pub open spec fn moved(a: ActorState, d: ControlDelta) -> ActorState {
    ActorState {
        actor_id: a.actor_id,
        x: clamped(a.x + SPEED * d.dx) as i64,
        y: clamped(a.y + SPEED * d.dy) as i64,
    }
}

/// The spawn point of a new actor: the origin.
pub open spec fn spawned(id: u64) -> ActorState {
    ActorState { actor_id: id, x: 0, y: 0 }
}

pub open spec fn has_id(s: Seq<ActorState>, id: u64) -> bool {
    exists|i: int| 0 <= i < s.len() && (#[trigger] s[i]).actor_id == id
}

/// No two actors share an id.
pub open spec fn unique_ids(s: Seq<ActorState>) -> bool {
    forall|i: int, j: int|
        0 <= i < s.len() && 0 <= j < s.len() && i != j ==> (#[trigger] s[i]).actor_id != (#[trigger] s[j]).actor_id
}

/// The ids of the actors, in order.
pub open spec fn id_seq(s: Seq<ActorState>) -> Seq<u64> {
    s.map_values(|a: ActorState| a.actor_id)
}

/// The position of the actor with id `id`.
pub open spec fn index_of(s: Seq<ActorState>, id: u64) -> int {
    choose|i: int| 0 <= i < s.len() && (#[trigger] s[i]).actor_id == id
}

/// The actors after `id` joins: a new actor at the origin at the end, unless
/// `id` is already there.
pub open spec fn joined(s: Seq<ActorState>, id: u64) -> Seq<ActorState> {
    if has_id(s, id) {
        s
    } else {
        s.push(spawned(id))
    }
}

/// The actors after `id` leaves: its actor is gone, the others keep their order.
pub open spec fn left(s: Seq<ActorState>, id: u64) -> Seq<ActorState> {
    if has_id(s, id) {
        s.remove(index_of(s, id))
    } else {
        s
    }
}

/// The actors after an input for `id`: that actor moves, the others stay.
pub open spec fn applied(s: Seq<ActorState>, id: u64, d: ControlDelta) -> Seq<ActorState> {
    s.map_values(|a: ActorState| if a.actor_id == id { moved(a, d) } else { a })
}

pub proof fn lemma_index_of(s: Seq<ActorState>, id: u64, i: int)
    requires
        unique_ids(s),
        0 <= i < s.len(),
        s[i].actor_id == id,
    ensures
        index_of(s, id) == i,
{
    assert(has_id(s, id));
    let j = index_of(s, id);
    assert(s[j].actor_id == id);
}

/// Appending an actor whose id is new keeps the ids distinct.
pub proof fn lemma_push_unique(s: Seq<ActorState>, a: ActorState)
    requires
        unique_ids(s),
        !has_id(s, a.actor_id),
    ensures
        unique_ids(s.push(a)),
{
    let p = s.push(a);
    assert forall|i: int, j: int|
        0 <= i < p.len() && 0 <= j < p.len() && i != j implies (#[trigger] p[i]).actor_id
            != (#[trigger] p[j]).actor_id by {
        if i == s.len() {
            assert(p[j] == s[j]);
        } else if j == s.len() {
            assert(p[i] == s[i]);
        } else {
            assert(p[i] == s[i]);
            assert(p[j] == s[j]);
        }
    }
}

pub proof fn lemma_remove_unique(s: Seq<ActorState>, i: int)
    requires
        unique_ids(s),
        0 <= i < s.len(),
    ensures
        unique_ids(s.remove(i)),
        !has_id(s.remove(i), s[i].actor_id),
        forall|id: u64| id != s[i].actor_id ==> (has_id(s.remove(i), id) == has_id(s, id)),
{
    let r = s.remove(i);
    assert forall|id: u64| id != s[i].actor_id implies (has_id(r, id) == has_id(s, id)) by {
        if has_id(s, id) {
            let k = choose|k: int| 0 <= k < s.len() && (#[trigger] s[k]).actor_id == id;
            if k < i {
                assert(r[k] == s[k]);
            } else {
                assert(k != i);
                assert(r[k - 1] == s[k]);
            }
        }
        if has_id(r, id) {
            let k = choose|k: int| 0 <= k < r.len() && (#[trigger] r[k]).actor_id == id;
            if k < i {
                assert(r[k] == s[k]);
            } else {
                assert(r[k] == s[k + 1]);
            }
        }
    }
    if has_id(r, s[i].actor_id) {
        let k = choose|k: int| 0 <= k < r.len() && (#[trigger] r[k]).actor_id == s[i].actor_id;
        if k < i {
            assert(r[k] == s[k]);
        } else {
            assert(r[k] == s[k + 1]);
        }
    }
}

/// A join of `id` followed at once by its leave leaves no trace of `id`; where
/// `id` was absent before, the actors are exactly as they were.
pub proof fn lemma_join_then_leave(s: Seq<ActorState>, id: u64)
    requires
        unique_ids(s),
    ensures
        !has_id(left(joined(s, id), id), id),
        !has_id(s, id) ==> left(joined(s, id), id) == s,
{
    let j = joined(s, id);
    if has_id(s, id) {
        let i = index_of(s, id);
        lemma_remove_unique(s, i);
    } else {
        let p = s.push(spawned(id));
        lemma_push_unique(s, spawned(id));
        assert(p[s.len() as int].actor_id == id);
        lemma_index_of(p, id, s.len() as int);
        lemma_remove_unique(p, s.len() as int);
        assert(p.remove(s.len() as int) =~= s);
    }
}

/// Leaving twice is leaving once: the second leave changes nothing.
pub proof fn lemma_leave_idempotent(s: Seq<ActorState>, id: u64)
    requires
        unique_ids(s),
    ensures
        left(left(s, id), id) == left(s, id),
{
    if has_id(s, id) {
        lemma_remove_unique(s, index_of(s, id));
    }
}

/// The world state: actors with pairwise distinct ids, in the order they joined.
pub struct World {
    actors: Vec<ActorState>,
}

impl View for World {
    type V = Seq<ActorState>;

    closed spec fn view(&self) -> Seq<ActorState> {
        self.actors@
    }
}

impl World {
    /// No two actors share an id.
    pub open spec fn wf(&self) -> bool {
        unique_ids(self@)
    }

    /// An empty world.
    pub fn new() -> (r: World)
        ensures
            r.wf(),
            r@ == Seq::<ActorState>::empty(),
    {
        World { actors: Vec::new() }
    }

    /// The index of the actor with id `id`, if there is one.
    pub fn find(&self, id: u64) -> (r: Option<usize>)
        requires
            self.wf(),
        ensures
            r.is_some() == has_id(self@, id),
            r.is_some() ==> r.unwrap() < self@.len() && self@[r.unwrap() as int].actor_id == id
                && index_of(self@, id) == r.unwrap(),
    {
        let mut i: usize = 0;
        while i < self.actors.len()
            invariant
                self.wf(),
                0 <= i <= self.actors@.len(),
                forall|k: int| 0 <= k < i ==> (#[trigger] self.actors@[k]).actor_id != id,
            decreases self.actors@.len() - i,
        {
            if self.actors[i].actor_id == id {
                proof {
                    lemma_index_of(self@, id, i as int);
                }
                return Some(i);
            }
            i = i + 1;
        }
        None
    }

    /// Whether an actor with id `id` is present.
    pub fn contains(&self, id: u64) -> (r: bool)
        requires
            self.wf(),
        ensures
            r == has_id(self@, id),
    {
        self.find(id).is_some()
    }

    /// The number of actors.
    pub fn len(&self) -> (r: usize)
        ensures
            r == self@.len(),
    {
        self.actors.len()
    }

    /// Adds the actor `id` at the origin and returns it; where `id` is already
    /// present, returns that actor and changes nothing.
    pub fn join(&mut self, id: u64) -> (r: ActorState)
        requires
            old(self).wf(),
        ensures
            final(self).wf(),
            final(self)@ == joined(old(self)@, id),
            has_id(final(self)@, id),
            r == final(self)@[index_of(final(self)@, id)],
            !has_id(old(self)@, id) ==> r == spawned(id),
    {
        match self.find(id) {
            Some(i) => self.actors[i],
            None => {
                let a = ActorState { actor_id: id, x: 0, y: 0 };
                self.actors.push(a);
                proof {
                    let s = self@;
                    assert(s[s.len() - 1] == a);
                    lemma_push_unique(old(self)@, a);
                    lemma_index_of(s, id, s.len() - 1);
                }
                a
            },
        }
    }

    /// Removes the actor `id`; returns whether it was present. Removing an
    /// absent actor changes nothing.
    pub fn leave(&mut self, id: u64) -> (r: bool)
        requires
            old(self).wf(),
        ensures
            final(self).wf(),
            r == has_id(old(self)@, id),
            final(self)@ == left(old(self)@, id),
            !has_id(final(self)@, id),
    {
        match self.find(id) {
            Some(i) => {
                self.actors.remove(i);
                proof {
                    lemma_remove_unique(old(self)@, i as int);
                }
                true
            },
            None => false,
        }
    }

    /// Moves the actor `id` by `SPEED` times `d` normalized; returns whether it
    /// is present.
    /// An input for an absent actor changes nothing.
    pub fn apply(&mut self, id: u64, d: ControlDelta) -> (r: bool)
        requires
            old(self).wf(),
        ensures
            final(self).wf(),
            r == has_id(old(self)@, id),
            final(self)@ == applied(old(self)@, id, normalize(d)),
            !r ==> final(self)@ == old(self)@,
    {
        let n = normalize_delta(d);
        match self.find(id) {
            Some(i) => {
                let a = self.actors[i];
                let step_x: i64 = SPEED * (n.dx as i64);
                let step_y: i64 = SPEED * (n.dy as i64);
                let x: i64 = match a.x.checked_add(step_x) {
                    Some(v) => v,
                    None => if step_x > 0 { i64::MAX } else { i64::MIN },
                };
                let y: i64 = match a.y.checked_add(step_y) {
                    Some(v) => v,
                    None => if step_y > 0 { i64::MAX } else { i64::MIN },
                };
                let b = ActorState { actor_id: id, x, y };
                assert(b == moved(a, n));
                self.actors.set(i, b);
                proof {
                    let s = self@;
                    let o = old(self)@;
                    assert forall|k: int| 0 <= k < s.len() implies (#[trigger] s[k]).actor_id == o[k].actor_id by {}
                    assert(s =~= applied(o, id, n)) by {
                        assert forall|k: int| 0 <= k < s.len() implies #[trigger] s[k] == applied(o, id, n)[k] by {
                            if k != i {
                                assert(o[k].actor_id != o[i as int].actor_id);
                            }
                        }
                    }
                }
                true
            },
            None => {
                proof {
                    let o = old(self)@;
                    assert(o =~= applied(o, id, n)) by {
                        assert forall|k: int| 0 <= k < o.len() implies #[trigger] o[k] == applied(o, id, n)[k] by {
                            assert(o[k].actor_id != id);
                        }
                    }
                }
                false
            },
        }
    }

    /// A copy of the actors, in order, which shares nothing with the world.
    pub fn snapshot(&self) -> (r: Vec<ActorState>)
        ensures
            r@ == self@,
    {
        let mut out: Vec<ActorState> = Vec::new();
        let mut i: usize = 0;
        while i < self.actors.len()
            invariant
                0 <= i <= self.actors@.len(),
                out@ == self.actors@.subrange(0, i as int),
            decreases self.actors@.len() - i,
        {
            out.push(self.actors[i]);
            i = i + 1;
            assert(out@ =~= self.actors@.subrange(0, i as int));
        }
        assert(out@ =~= self.actors@);
        out
    }
}

} // verus!
