//! A four-snake arena game: the simultaneous-move state machine and a
//! depth-bounded max-n search over it.
pub mod agent;
pub mod env;
pub mod game;
pub mod grid;
pub mod search;
pub mod setup;
