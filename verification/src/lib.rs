//! Ferraria: the rules of a 2D sandbox game, verified.
//!
//! The library holds the world model, the world generation passes that work on
//! whole numbers, the authoritative simulation rules and the client's view
//! models. Everything that draws, talks to a socket or computes with floating
//! point lives outside of it and hands plain values in.

pub mod tile;
pub mod grid;
pub mod sort;
pub mod cellmap;
pub mod text;
pub mod settings;
pub mod item;
pub mod stacks;
pub mod chest;
pub mod net;
pub mod client;
pub mod sim;
pub mod worldgen;
