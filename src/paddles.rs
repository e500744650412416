//! The fixed roster: two paddles, left (id 1) and right (id 2), always present;
//! the first two connections take them and a third is turned away.
use vstd::prelude::*;
use crate::control::{Direction, direction_sign, UNIT, SPEED};
use crate::world::clamped;

verus! {

/// The id of the left paddle.
pub const LEFT: u64 = 1;

/// The id of the right paddle.
pub const RIGHT: u64 = 2;

/// The heights of the two paddles, in fixed-point steps.
#[derive(Clone, Copy, Debug, PartialEq, Eq, Structural)]
pub struct PaddleState {
    pub left_y: i64,
    pub right_y: i64,
}

/// A height after one input in direction `d`.
pub open spec fn stepped(y: i64, d: Direction) -> i64 {
    clamped(y + SPEED * direction_sign(d) * UNIT) as i64
}

/// The paddles after an input for paddle `id`; an unknown id moves nothing.
pub open spec fn paddles_applied(p: PaddleState, id: u64, d: Direction) -> PaddleState {
    if id == LEFT {
        PaddleState { left_y: stepped(p.left_y, d), ..p }
    } else if id == RIGHT {
        PaddleState { right_y: stepped(p.right_y, d), ..p }
    } else {
        p
    }
}

/// What a change calls for: `state` is sent to each id of `recipients`.
pub struct PaddleBroadcast {
    pub state: PaddleState,
    pub recipients: Vec<u64>,
}

/// Why a join was turned away.
#[derive(Clone, Copy, Debug, PartialEq, Eq, Structural)]
pub enum JoinError {
    /// Both paddles are taken.
    Full,
}

/// A two-paddle match: the paddles and the outbound handles of the
/// connections that hold them.
pub struct PaddleMatch<H> {
    state: PaddleState,
    left: Option<H>,
    right: Option<H>,
}

fn step(y: i64, d: Direction) -> (r: i64)
    ensures
        r == stepped(y, d),
{
    let delta: i64 = match d {
        Direction::Up => SPEED * (UNIT as i64),
        Direction::Down => -SPEED * (UNIT as i64),
        Direction::Still => 0,
    };
    match y.checked_add(delta) {
        Some(v) => v,
        None => if delta > 0 { i64::MAX } else { i64::MIN },
    }
}

/// The ids of the held paddles, left first.
pub open spec fn held_ids(left: bool, right: bool) -> Seq<u64> {
    if left && right {
        seq![LEFT, RIGHT]
    } else if left {
        seq![LEFT]
    } else if right {
        seq![RIGHT]
    } else {
        Seq::<u64>::empty()
    }
}

impl<H> PaddleMatch<H> {
    /// The heights of the paddles.
    pub closed spec fn paddles(&self) -> PaddleState {
        self.state
    }

    /// The handle of the connection holding the left paddle, if any.
    pub closed spec fn left_seat(&self) -> Option<H> {
        self.left
    }

    /// The handle of the connection holding the right paddle, if any.
    pub closed spec fn right_seat(&self) -> Option<H> {
        self.right
    }

    /// The ids of the held paddles, left first.
    pub open spec fn members(&self) -> Seq<u64> {
        held_ids(self.left_seat().is_some(), self.right_seat().is_some())
    }

    /// A broadcast is what `b` holds when it carries these paddles to each member.
    pub open spec fn carries(&self, b: PaddleBroadcast) -> bool {
        b.state == self.paddles() && b.recipients@ == self.members()
    }

    /// Both paddles at height 0, neither held.
    pub fn new() -> (r: PaddleMatch<H>)
        ensures
            r.paddles() == (PaddleState { left_y: 0, right_y: 0 }),
            r.left_seat().is_none(),
            r.right_seat().is_none(),
    {
        PaddleMatch { state: PaddleState { left_y: 0, right_y: 0 }, left: None, right: None }
    }

    fn broadcast(&self) -> (r: PaddleBroadcast)
        ensures
            self.carries(r),
    {
        let mut recipients: Vec<u64> = Vec::new();
        if self.left.is_some() {
            recipients.push(LEFT);
        }
        if self.right.is_some() {
            recipients.push(RIGHT);
        }
        assert(recipients@ =~= self.members());
        PaddleBroadcast { state: self.state, recipients }
    }

    /// The current heights of the paddles.
    pub fn snapshot(&self) -> (r: PaddleState)
        ensures
            r == self.paddles(),
    {
        self.state
    }

    /// The outbound handle of the connection holding paddle `id`, if any.
    pub fn handle(&self, id: u64) -> (r: Option<&H>)
        ensures
            id == LEFT ==> r.is_some() == self.left_seat().is_some()
                && (r.is_some() ==> *r.unwrap() == self.left_seat().unwrap()),
            id == RIGHT ==> r.is_some() == self.right_seat().is_some()
                && (r.is_some() ==> *r.unwrap() == self.right_seat().unwrap()),
            id != LEFT && id != RIGHT ==> r.is_none(),
    {
        if id == LEFT {
            self.left.as_ref()
        } else if id == RIGHT {
            self.right.as_ref()
        } else {
            None
        }
    }

    /// A connection asks for a paddle: it takes the left one if free, else the
    /// right one, and every member is sent the paddles. Where both are held it
    /// is turned away with its handle, and nothing changes.
    pub fn join(&mut self, handle: H) -> (r: Result<(u64, PaddleBroadcast), (JoinError, H)>)
        ensures
            final(self).paddles() == old(self).paddles(),
            r.is_err() == (old(self).left_seat().is_some() && old(self).right_seat().is_some()),
            r.is_err() ==> *final(self) == *old(self) && r->Err_0 == (JoinError::Full, handle),
            r.is_ok() ==> {
                let (id, b) = r->Ok_0;
                &&& old(self).left_seat().is_none() ==> id == LEFT && final(self).left_seat() == Some(handle)
                    && final(self).right_seat() == old(self).right_seat()
                &&& old(self).left_seat().is_some() ==> id == RIGHT && final(self).right_seat() == Some(handle)
                    && final(self).left_seat() == old(self).left_seat()
                &&& final(self).carries(b)
            },
    {
        let id = if self.left.is_none() {
            self.left = Some(handle);
            LEFT
        } else if self.right.is_none() {
            self.right = Some(handle);
            RIGHT
        } else {
            return Err((JoinError::Full, handle));
        };
        Ok((id, self.broadcast()))
    }

    /// Applies an input for paddle `id`. It is accepted where `id` names a
    /// paddle: that paddle moves and every member is sent the paddles.
    /// Otherwise nothing changes and nothing is sent.
    pub fn input(&mut self, id: u64, d: Direction) -> (r: Option<PaddleBroadcast>)
        ensures
            r.is_some() == (id == LEFT || id == RIGHT),
            final(self).paddles() == paddles_applied(old(self).paddles(), id, d),
            final(self).left_seat() == old(self).left_seat(),
            final(self).right_seat() == old(self).right_seat(),
            r.is_some() ==> final(self).carries(r.unwrap()),
    {
        if id == LEFT {
            self.state.left_y = step(self.state.left_y, d);
        } else if id == RIGHT {
            self.state.right_y = step(self.state.right_y, d);
        } else {
            return None;
        }
        Some(self.broadcast())
    }

    /// The connection holding paddle `id` has ended: its handle is handed back
    /// and the paddle stays where it is, free for the next join. Every
    /// remaining member is sent the paddles. Where `id` is not held nothing
    /// changes and nothing is sent.
    pub fn leave(&mut self, id: u64) -> (r: Option<(H, PaddleBroadcast)>)
        ensures
            final(self).paddles() == old(self).paddles(),
            r.is_some() == old(self).members().contains(id),
            r.is_none() ==> *final(self) == *old(self),
            !final(self).members().contains(id),
            id == LEFT ==> final(self).left_seat().is_none() && final(self).right_seat() == old(self).right_seat(),
            id == RIGHT ==> final(self).right_seat().is_none() && final(self).left_seat() == old(self).left_seat(),
            r.is_some() ==> {
                let (h, b) = r.unwrap();
                &&& (id == LEFT ==> old(self).left_seat() == Some(h))
                &&& (id == RIGHT ==> old(self).right_seat() == Some(h))
                &&& final(self).carries(b)
            },
    {
        proof {
            let l = old(self).left_seat().is_some();
            let rt = old(self).right_seat().is_some();
            let m = held_ids(l, rt);
            if l && rt {
                assert(m[0] == LEFT && m[1] == RIGHT);
            } else if l {
                assert(m[0] == LEFT);
            } else if rt {
                assert(m[0] == RIGHT);
            }
        }
        let taken = if id == LEFT {
            self.left.take()
        } else if id == RIGHT {
            self.right.take()
        } else {
            None
        };
        match taken {
            Some(h) => Some((h, self.broadcast())),
            None => None,
        }
    }
}

} // verus!
