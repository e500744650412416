//! The session: world state and connection registry kept in lock-step, with
//! the broadcast that each accepted change calls for.
use vstd::prelude::*;
use crate::control::{ControlDelta, normalize};
use crate::registry::{Registry, entry_ids};
use crate::world::{
    ActorState, World, has_id, id_seq, joined, left, applied, index_of, unique_ids, lemma_join_then_leave,
    lemma_index_of, lemma_push_unique, spawned,
};

verus! {

/// A control input from a connection: the actor it moves and by how much.
#[derive(Clone, Copy, Debug, PartialEq, Eq, Structural)]
pub struct ControlInput {
    pub actor_id: u64,
    pub delta: ControlDelta,
}

/// What a change calls for: `snapshot` is sent to each id of `recipients`.
pub struct Broadcast {
    pub snapshot: Vec<ActorState>,
    pub recipients: Vec<u64>,
}

/// A join followed at once by the leave of the same id restores the registry
/// as well as the world: the handle that the join added is the one the leave
/// removes.
pub proof fn lemma_join_then_leave_restores<H>(
    actors: Seq<ActorState>,
    entries: Seq<(u64, H)>,
    id: u64,
    handle: H,
)
    requires
        unique_ids(actors),
        !has_id(actors, id),
        entry_ids(entries) == id_seq(actors),
    ensures
        left(joined(actors, id), id) == actors,
        entries.push((id, handle)).remove(index_of(joined(actors, id), id)) == entries,
{
    lemma_join_then_leave(actors, id);
    let p = actors.push(spawned(id));
    lemma_push_unique(actors, spawned(id));
    assert(p[actors.len() as int].actor_id == id);
    lemma_index_of(p, id, actors.len() as int);
    assert(entries.len() == actors.len()) by {
        assert(entry_ids(entries).len() == entries.len());
        assert(id_seq(actors).len() == actors.len());
        assert(entry_ids(entries).len() == id_seq(actors).len());
    }
    assert(entries.push((id, handle)).remove(entries.len() as int) =~= entries);
}

/// The shared state of a session: the world, the registry of outbound
/// handles, and the next id to hand out.
pub struct Session<H> {
    world: World,
    registry: Registry<H>,
    next_id: u64,
}

impl<H> Session<H> {
    /// The actors of the world, in order.
    pub closed spec fn actors(&self) -> Seq<ActorState> {
        self.world@
    }

    /// The registry's entries, in order.
    pub closed spec fn entries(&self) -> Seq<(u64, H)> {
        self.registry@
    }

    /// The ids with a registered outbound handle, in order.
    pub open spec fn members(&self) -> Seq<u64> {
        entry_ids(self.entries())
    }

    /// The id the next join gets.
    pub closed spec fn next_id(&self) -> u64 {
        self.next_id
    }

    /// The session's invariant: the registry holds exactly the world's ids,
    /// in the same order, and every id is below the next one to hand out.
    pub closed spec fn wf(&self) -> bool {
        &&& self.world.wf()
        &&& self.registry.wf()
        &&& self.registry.ids() == id_seq(self.world@)
        &&& forall|i: int| 0 <= i < self.world@.len() ==> (#[trigger] self.world@[i]).actor_id < self.next_id
    }

    /// A broadcast is what `b` holds when it carries this session's actors to
    /// each of its members.
    pub open spec fn carries(&self, b: Broadcast) -> bool {
        b.snapshot@ == self.actors() && b.recipients@ == self.members()
    }

    /// A session with no actors, whose first join gets id 0.
    pub fn new() -> (r: Session<H>)
        ensures
            r.wf(),
            r.actors() == Seq::<ActorState>::empty(),
            r.entries() == Seq::<(u64, H)>::empty(),
            r.next_id() == 0,
    {
        let r = Session { world: World::new(), registry: Registry::new(), next_id: 0 };
        assert(id_seq(r.world@) =~= Seq::<u64>::empty());
        assert(r.registry.ids() =~= Seq::<u64>::empty());
        r
    }

    fn broadcast(&self) -> (r: Broadcast)
        ensures
            self.carries(r),
    {
        Broadcast { snapshot: self.world.snapshot(), recipients: self.registry.targets() }
    }

    /// Whether the actor `id` is present.
    pub fn contains(&self, id: u64) -> (r: bool)
        requires
            self.wf(),
        ensures
            r == has_id(self.actors(), id),
    {
        self.world.contains(id)
    }

    /// A copy of the actors, in order.
    pub fn snapshot(&self) -> (r: Vec<ActorState>)
        ensures
            r@ == self.actors(),
    {
        self.world.snapshot()
    }

    /// The number of registered outbound handles.
    pub fn member_count(&self) -> (r: usize)
        ensures
            r == self.entries().len(),
    {
        self.registry.len()
    }

    /// The outbound handle of the member `id`, if it is registered.
    pub fn handle(&self, id: u64) -> (r: Option<&H>)
        requires
            self.wf(),
        ensures
            r.is_some() == self.members().contains(id),
            r.is_some() ==> *r.unwrap() == self.entries()[self.members().index_of(id)].1,
    {
        match self.registry.find(id) {
            Some(i) => {
                proof {
                    let m = self.members();
                    m.index_of_first_ensures(id);
                    let j = m.index_of(id);
                    assert(m[i as int] == id);
                    assert(j == i as int);
                }
                Some(self.registry.handle_at(i))
            },
            None => None,
        }
    }

    /// A new connection joins with outbound handle `handle`: it gets the next
    /// id, an actor at the origin and a place in the registry, and every member,
    /// the new one included, is sent the new state. The new id is the highest
    /// in that state. Fails, changing nothing,
    /// once every id has been handed out.
    pub fn join(&mut self, handle: H) -> (r: Option<(u64, Broadcast)>)
        requires
            old(self).wf(),
        ensures
            final(self).wf(),
            r.is_some() == (old(self).next_id() < u64::MAX),
            r.is_none() ==> *final(self) == *old(self),
            r.is_some() ==> {
                let (id, b) = r.unwrap();
                &&& id == old(self).next_id()
                &&& final(self).next_id() == id + 1
                &&& !has_id(old(self).actors(), id)
                &&& has_id(final(self).actors(), id)
                &&& forall|k: int| 0 <= k < final(self).actors().len()
                    ==> (#[trigger] final(self).actors()[k]).actor_id <= id
                &&& final(self).actors() == joined(old(self).actors(), id)
                &&& final(self).entries() == old(self).entries().push((id, handle))
                &&& final(self).carries(b)
            },
    {
        if self.next_id == u64::MAX {
            return None;
        }
        let id = self.next_id;
        proof {
            if has_id(self.world@, id) {
                let k = choose|k: int| 0 <= k < self.world@.len() && (#[trigger] self.world@[k]).actor_id == id;
            }
            assert(!self.registry.ids().contains(id)) by {
                if self.registry.ids().contains(id) {
                    let k = choose|k: int| 0 <= k < self.registry.ids().len() && self.registry.ids()[k] == id;
                    assert(self.world@[k].actor_id == id);
                }
            }
        }
        self.world.join(id);
        self.registry.register(id, handle);
        self.next_id = id + 1;
        proof {
            assert(id_seq(self.world@) =~= id_seq(old(self).world@).push(id));
        }
        Some((id, self.broadcast()))
    }

    /// Applies a control input. It is accepted where its delta is in range and
    /// its actor is present: the actor moves by `SPEED` times the normalized
    /// delta and every member is sent the new state. Otherwise it is dropped: nothing changes and nothing is sent.
    pub fn input(&mut self, ci: ControlInput) -> (r: Option<Broadcast>)
        requires
            old(self).wf(),
        ensures
            final(self).wf(),
            r.is_some() == (ci.delta.in_range() && has_id(old(self).actors(), ci.actor_id)),
            r.is_none() ==> *final(self) == *old(self),
            r.is_some() ==> {
                &&& final(self).actors() == applied(old(self).actors(), ci.actor_id, normalize(ci.delta))
                &&& forall|id: u64| #[trigger] has_id(final(self).actors(), id) == has_id(old(self).actors(), id)
                &&& final(self).entries() == old(self).entries()
                &&& final(self).next_id() == old(self).next_id()
                &&& final(self).carries(r.unwrap())
            },
    {
        if !ci.delta.is_in_range() || !self.world.contains(ci.actor_id) {
            return None;
        }
        self.world.apply(ci.actor_id, ci.delta);
        proof {
            let o = old(self).world@;
            let s = self.world@;
            assert forall|k: int| 0 <= k < s.len() implies (#[trigger] s[k]).actor_id == o[k].actor_id by {}
            assert(id_seq(s) =~= id_seq(o));
            assert forall|id: u64| #[trigger] has_id(s, id) == has_id(o, id) by {
                if has_id(s, id) {
                    let k = choose|k: int| 0 <= k < s.len() && (#[trigger] s[k]).actor_id == id;
                    assert(o[k].actor_id == id);
                }
                if has_id(o, id) {
                    let k = choose|k: int| 0 <= k < o.len() && (#[trigger] o[k]).actor_id == id;
                    assert(s[k].actor_id == id);
                }
            }
        }
        Some(self.broadcast())
    }

    /// The connection of `id` has ended: its actor and its handle are removed
    /// and every remaining member is sent the new state. Where `id` is absent
    /// nothing changes and nothing is sent.
    pub fn leave(&mut self, id: u64) -> (r: Option<(H, Broadcast)>)
        requires
            old(self).wf(),
        ensures
            final(self).wf(),
            r.is_some() == has_id(old(self).actors(), id),
            r.is_none() ==> *final(self) == *old(self),
            !has_id(final(self).actors(), id),
            !final(self).members().contains(id),
            r.is_some() ==> {
                let (h, b) = r.unwrap();
                let i = index_of(old(self).actors(), id);
                &&& final(self).actors() == left(old(self).actors(), id)
                &&& final(self).entries() == old(self).entries().remove(i)
                &&& h == old(self).entries()[i].1
                &&& final(self).next_id() == old(self).next_id()
                &&& final(self).carries(b)
            },
    {
        let ghost o = self.world@;
        if !self.world.contains(id) {
            proof {
                assert(!self.registry.ids().contains(id)) by {
                    if self.registry.ids().contains(id) {
                        let k = choose|k: int| 0 <= k < self.registry.ids().len() && self.registry.ids()[k] == id;
                        assert(o[k].actor_id == id);
                    }
                }
            }
            return None;
        }
        self.world.leave(id);
        let ghost i = index_of(o, id);
        proof {
            assert(o[i].actor_id == id);
            assert(old(self).registry.ids()[i] == id);
            assert(old(self).registry.ids().index_of(id) == i) by {
                let ids = old(self).registry.ids();
                ids.index_of_first_ensures(id);
                let j = ids.index_of(id);
                assert(o[j].actor_id == id);
            }
        }
        let h = self.registry.deregister(id);
        proof {
            let s = self.world@;
            assert(s == o.remove(i));
            assert(id_seq(s) =~= id_seq(o).remove(i));
            assert(self.registry.ids() =~= old(self).registry.ids().remove(i));
            assert forall|k: int| 0 <= k < s.len() implies (#[trigger] s[k]).actor_id < self.next_id by {
                if k < i {
                    assert(s[k] == o[k]);
                } else {
                    assert(s[k] == o[k + 1]);
                }
            }
        }
        Some((h.unwrap(), self.broadcast()))
    }

    /// Every actor of the world has a registered outbound handle and every
    /// registered handle has an actor: the two hold the same ids.
    pub proof fn lemma_members_match_actors(&self)
        requires
            self.wf(),
        ensures
            forall|id: u64| self.members().contains(id) <==> has_id(self.actors(), id),
            self.members() == id_seq(self.actors()),
            unique_ids(self.actors()),
    {
        assert forall|id: u64| self.members().contains(id) <==> has_id(self.actors(), id) by {
            if self.members().contains(id) {
                let k = choose|k: int| 0 <= k < self.members().len() && self.members()[k] == id;
                assert(self.world@[k].actor_id == id);
            }
            if has_id(self.actors(), id) {
                let k = choose|k: int| 0 <= k < self.world@.len() && (#[trigger] self.world@[k]).actor_id == id;
                assert(self.members()[k] == id);
            }
        }
    }

    /// A broadcast that carries this session's state reaches each member
    /// exactly once and nobody else, and holds the state that the change left.
    pub proof fn lemma_broadcast_complete(&self, b: Broadcast)
        requires
            self.wf(),
            self.carries(b),
        ensures
            b.recipients@.no_duplicates(),
            forall|id: u64| b.recipients@.contains(id) <==> has_id(self.actors(), id),
            b.snapshot@ == self.actors(),
    {
        self.lemma_members_match_actors();
    }
}

} // verus!
