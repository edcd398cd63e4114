//! Points, sizes and rectangles.
use crate::dimension::Pt;
use vstd::prelude::*;

verus! {

/// A position.
#[derive(Clone, Copy, Debug, PartialEq, Eq, Structural)]
pub struct PtOffset {
    pub x: Pt,
    pub y: Pt,
}

/// A width and a height.
#[derive(Clone, Copy, Debug, PartialEq, Eq, Structural)]
pub struct PtSize {
    pub width: Pt,
    pub height: Pt,
}

/// An axis-aligned rectangle.
#[derive(Clone, Copy, Debug, PartialEq, Eq, Structural)]
pub struct PtRect {
    pub origin: PtOffset,
    pub size: PtSize,
}

/// Distances from the four sides of a box.
#[derive(Clone, Copy, Debug, PartialEq, Eq, Structural)]
pub struct PtEdgeInsets {
    pub top: Pt,
    pub right: Pt,
    pub bottom: Pt,
    pub left: Pt,
}

/// A straight segment between two positions.
#[derive(Clone, Copy, Debug, PartialEq, Eq, Structural)]
pub struct PtLineSegment {
    pub start: PtOffset,
    pub end: PtOffset,
}

impl PtOffset {
    /// The position `(x, y)`.
    #[verifier::allow_in_spec]
    pub fn new(x: Pt, y: Pt) -> PtOffset
        returns
            (PtOffset { x, y }),
    {
        PtOffset { x, y }
    }

    /// This position moved by `(dx, dy)`.
    #[verifier::allow_in_spec]
    pub fn moved(self, dx: Pt, dy: Pt) -> PtOffset
        returns
            (PtOffset { x: self.x.plus(dx), y: self.y.plus(dy) }),
    {
        PtOffset { x: self.x.plus(dx), y: self.y.plus(dy) }
    }
}

impl PtSize {
    /// No extent.
    #[verifier::allow_in_spec]
    pub fn zero() -> PtSize
        returns
            (PtSize { width: Pt { units: 0 }, height: Pt { units: 0 } }),
    {
        PtSize { width: Pt { units: 0 }, height: Pt { units: 0 } }
    }

    /// An extent.
    #[verifier::allow_in_spec]
    pub fn new(width: Pt, height: Pt) -> PtSize
        returns
            (PtSize { width, height }),
    {
        PtSize { width, height }
    }
}

impl PtRect {
    /// The rectangle with the upper left corner `(x, y)`.
    #[verifier::allow_in_spec]
    pub fn from_xywh(x: Pt, y: Pt, width: Pt, height: Pt) -> PtRect
        returns
            (PtRect { origin: PtOffset { x, y }, size: PtSize { width, height } }),
    {
        PtRect { origin: PtOffset { x, y }, size: PtSize { width, height } }
    }

    /// This rectangle moved by `(dx, dy)`.
    #[verifier::allow_in_spec]
    pub fn moved(self, dx: Pt, dy: Pt) -> PtRect
        returns
            (PtRect { origin: self.origin.moved(dx, dy), size: self.size }),
    {
        PtRect { origin: self.origin.moved(dx, dy), size: self.size }
    }
}

impl PtEdgeInsets {
    /// No insets.
    #[verifier::allow_in_spec]
    pub fn zero() -> PtEdgeInsets
        returns
            (PtEdgeInsets { top: Pt::zero(), right: Pt::zero(), bottom: Pt::zero(), left: Pt::zero() }),
    {
        PtEdgeInsets { top: Pt::zero(), right: Pt::zero(), bottom: Pt::zero(), left: Pt::zero() }
    }

    /// Insets clockwise from the top.
    #[verifier::allow_in_spec]
    pub fn new(top: Pt, right: Pt, bottom: Pt, left: Pt) -> PtEdgeInsets
        returns
            (PtEdgeInsets { top, right, bottom, left }),
    {
        PtEdgeInsets { top, right, bottom, left }
    }

    /// The sum of the left and right insets.
    #[verifier::allow_in_spec]
    pub fn horizontal(self) -> Pt
        returns
            (self.left.plus(self.right)),
    {
        self.left.plus(self.right)
    }

    /// The sum of the top and bottom insets.
    #[verifier::allow_in_spec]
    pub fn vertical(self) -> Pt
        returns
            (self.top.plus(self.bottom)),
    {
        self.top.plus(self.bottom)
    }
}

} // verus!
