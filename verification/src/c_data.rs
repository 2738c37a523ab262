//! Plain copyable payload types for components.

use vstd::prelude::*;

verus! {

/// A two-dimensional vector, the payload of the position component.
#[derive(Clone, Copy, Debug, PartialEq, Eq, Structural)]
pub struct Vector2 {
    pub x: u32,
    pub y: u32,
}

} // verus!
