//! A session coordinator for a real-time multiplayer game: one authoritative
//! world of actors, a registry of the connections that control them, and the
//! snapshot broadcast that every accepted change calls for.
//!
//! Positions and control deltas are held in fixed point (`control::UNIT`
//! steps to a distance unit), so that every change is exact.

pub mod control;
pub mod world;
pub mod registry;
pub mod session;
pub mod paddles;
pub mod view;
