//! The player's side: the connection, the panels and what they decide.

pub mod net;
pub mod hud;
pub mod message;
pub mod interact;
pub mod inventory;
pub mod crafting;
pub mod dialogue;
pub mod chat;
pub mod hotbar;
pub mod snapshots;
pub mod mirror;
pub mod world_view;
pub mod session;
pub mod app;
pub mod render;
pub mod tooltip;
