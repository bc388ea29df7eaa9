//! A registry of connect-k games: the board rules, the store that numbers the
//! games by insertion order, and the operations a service offers on top of it.

pub mod board;
pub mod registry;
pub mod service;
