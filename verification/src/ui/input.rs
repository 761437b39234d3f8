//! The modes of the input line.

use vstd::prelude::*;

verus! {

/// What the input line is for: nothing, a file for the terminology box, or a file for the assertion box.
#[derive(Clone, Copy, PartialEq, Eq, Structural, Debug)]
pub enum InputMode {
    Normal,
    TBOX,
    ABOX,
}

} // verus!
