//! A realtime lobby hub: a store of game sessions with atomic player joins,
//! and a registry of streaming subscribers with broadcast and pruning.

pub mod models;
pub mod util;
pub mod registry;
pub mod games;
pub mod chat;
