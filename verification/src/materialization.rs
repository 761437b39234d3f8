//! The rule programs of the profiles and the stages that run them.

pub mod common;
pub mod inclusion;
pub mod instance;
pub mod owl2rl;
pub mod rdfs;
pub mod rdfspp;
pub mod schema;
