//! An iterated Prisoner's Dilemma round robin whose competitors are scripts
//! run in sandboxed interpreters.
pub mod error;
pub mod executor;
pub mod lua;
pub mod player;
pub mod python;
pub mod script;
pub mod tournament;
