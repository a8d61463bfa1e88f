use vstd::prelude::*;

verus! {

/// A point in a two dimensional grid: `x` is the column, `y` the line.
#[derive(Clone, Copy, Debug, PartialEq, Eq)]
pub struct Point2<T> {
    pub x: T,
    pub y: T,
}

impl<T> Point2<T> {
    pub fn new(x: T, y: T) -> (p: Self)
        ensures
            p.x == x,
            p.y == y,
    {
        Point2 { x, y }
    }
}

} // verus!
