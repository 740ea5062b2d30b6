//! A plain two-dimensional coordinate / extent pair.

use vstd::prelude::*;

verus! {

/// A pair of coordinates (or an extent) over an unsigned domain.
#[derive(Debug, Copy, Clone)]
pub struct Vector2<T> {
    pub x: T,
    pub y: T,
}

impl<T> Vector2<T> {
    /// Builds the pair `(x, y)`.
    pub fn new(x: T, y: T) -> (r: Vector2<T>)
        ensures
            r.x == x,
            r.y == y,
    {
        Vector2 { x, y }
    }
}

/// The coordinate type used by the grid: a pair of `u32`.
pub type Vector2u = Vector2<u32>;

} // verus!
