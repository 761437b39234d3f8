//! Identifiers that are bound to vocabulary terms.

pub mod constants;
