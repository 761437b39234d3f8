//! What reaches the front end: keys and ticks.

use vstd::prelude::*;

verus! {

/// The keys the front end tells apart.
#[derive(Clone, Copy, PartialEq, Eq, Structural, Debug)]
pub enum Key {
    Char(char),
    Enter,
    Backspace,
    Esc,
    Other,
}

/// A key was pressed, or the tick time went by without one.
#[derive(Clone, Copy, PartialEq, Eq, Structural, Debug)]
pub enum InputEvent {
    Input(Key),
    Tick,
}

} // verus!
