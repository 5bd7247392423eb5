//! Core logic of a peer-to-peer, turn-based combat encounter on a staggered
//! (diamond) tile grid: coordinate transforms, a cost-bounded reachability
//! solver, the wire protocol for peer messages, a countdown timer, and the
//! owner-evaluated combat phase controller with its readiness consensus.

pub mod chunk;
pub mod player;
pub mod protocol;
pub mod reach;
pub mod session;
pub mod tile;
pub mod timer;
