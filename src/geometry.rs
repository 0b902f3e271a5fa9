use vstd::prelude::*;

verus! {

/// A size in whole pixels.
#[derive(Clone, Copy, PartialEq, Eq, Structural, Debug)]
pub struct Size2D {
    pub width: usize,
    pub height: usize,
}

/// A point in whole pixels.
#[derive(Clone, Copy, PartialEq, Eq, Structural, Debug)]
pub struct Point2D {
    pub x: usize,
    pub y: usize,
}

/// An axis-aligned rectangle in whole pixels.
#[derive(Clone, Copy, PartialEq, Eq, Structural, Debug)]
pub struct Rect {
    pub origin: Point2D,
    pub size: Size2D,
}

impl Size2D {
    pub open spec fn area(self) -> int {
        self.width * self.height
    }
}

} // verus!
