//! The identifier model: reserved vocabulary and the shapes of the data.

pub mod consts;
pub mod types;
