//! The reserved identifiers. Everything a dictionary hands out lies above `MAX_CONST`.

use vstd::prelude::*;

pub mod owl;
pub mod rdfs;

verus! {

/// The largest identifier of the reserved block. One vocabulary term lies
/// above it: `owl::oneOf` is 46.
pub const MAX_CONST: u32 = 45;

} // verus!
