//! The authoritative simulation.

pub mod clock;
pub mod plan;
pub mod fluids;
pub mod player;
pub mod roster;
pub mod chunks;
pub mod stream;
pub mod edits;
pub mod window;
pub mod mirrors;
pub mod inventory;
pub mod interact;
pub mod sand;
pub mod world_tick;
pub mod seed;
pub mod live;
pub mod entities;
pub mod survival;
pub mod fate;
pub mod vitals;
pub mod enemies;
pub mod pack;
pub mod combat;
pub mod session;
pub mod dispatch;
pub mod mining;
