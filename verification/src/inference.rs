//! A small rule engine: facts, Horn clauses over them, and least models.

pub mod horn;
pub mod matcher;
pub mod model;
pub mod rule;
pub mod transfer;
