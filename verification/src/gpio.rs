//! Logic levels of pins.

use vstd::prelude::*;

verus! {

/// The level of a pin.
#[derive(Clone, Copy, PartialEq, Eq, Structural, Debug)]
pub enum Level {
    Low,
    High,
}

} // verus!
