//! A relay of a game-server directory into chat channels: rendering of
//! server snapshots, the channel subscription table, and the decisions
//! of the broadcast cycle.
pub mod bot;
pub mod dcs;
pub mod handler;
pub mod render;
pub mod text;
