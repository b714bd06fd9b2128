//! Sizes, points and the result of laying out one node.
use vstd::prelude::*;
use crate::scalar::Scalar;

verus! {

/// A pair of values, one for each axis.
#[derive(Clone, Copy, Debug, PartialEq, Eq, Structural)]
pub struct Size<T> {
    pub width: T,
    pub height: T,
}

impl<T> Size<T> {
    /// Pairs a width with a height.
    pub fn new(width: T, height: T) -> (r: Size<T>)
        ensures
            r.width == width,
            r.height == height,
    {
        Size { width, height }
    }
}

/// A position relative to the parent's origin.
#[derive(Clone, Copy, Debug, PartialEq, Eq, Structural)]
pub struct Point {
    pub x: Scalar,
    pub y: Scalar,
}

/// The geometry that a layout pass gives to one node.
#[derive(Clone, Copy, Debug, PartialEq, Eq, Structural)]
pub struct Layout {
    pub size: Size<Scalar>,
    pub location: Point,
}

impl Layout {
    /// The layout of a box that takes no room: size 0 x 0 at the origin.
    pub open spec fn zero_spec() -> Layout {
        Layout {
            size: Size { width: Scalar::zero_spec(), height: Scalar::zero_spec() },
            location: Point { x: Scalar::zero_spec(), y: Scalar::zero_spec() },
        }
    }

    /// No degenerate number: neither dimension is a NaN or below zero, and
    /// neither coordinate is a NaN.
    pub open spec fn is_settled(self) -> bool {
        &&& self.size.width.is_non_negative()
        &&& self.size.height.is_non_negative()
        &&& !self.location.x.is_nan()
        &&& !self.location.y.is_nan()
    }

    /// The layout with each degenerate number replaced by zero.
    pub open spec fn settled(self) -> Layout {
        Layout {
            size: Size { width: self.size.width.clamped(), height: self.size.height.clamped() },
            location: Point { x: self.location.x.settled(), y: self.location.y.settled() },
        }
    }

    /// Builds a layout from a size and a position.
    pub fn new(width: Scalar, height: Scalar, x: Scalar, y: Scalar) -> (r: Layout)
        ensures
            r == (Layout { size: Size { width, height }, location: Point { x, y } }),
    {
        Layout { size: Size { width, height }, location: Point { x, y } }
    }

    /// The layout of a box that takes no room.
    #[verifier::when_used_as_spec(zero_spec)]
    pub fn zero() -> (r: Layout)
        ensures
            r == Layout::zero_spec(),
            r.is_settled(),
    {
        Layout {
            size: Size { width: Scalar::zero(), height: Scalar::zero() },
            location: Point { x: Scalar::zero(), y: Scalar::zero() },
        }
    }

    /// Width and height, in that order.
    pub fn size(&self) -> (r: (Scalar, Scalar))
        ensures
            r.0 == self.size.width,
            r.1 == self.size.height,
    {
        (self.size.width, self.size.height)
    }

    /// Horizontal and vertical offset, in that order.
    pub fn location(&self) -> (r: (Scalar, Scalar))
        ensures
            r.0 == self.location.x,
            r.1 == self.location.y,
    {
        (self.location.x, self.location.y)
    }

    /// Clamps a NaN or negative dimension to zero and a NaN coordinate to
    /// zero; leaves every other number as it is.
    pub fn settle(&self) -> (r: Layout)
        ensures
            r == self.settled(),
            r.is_settled(),
    {
        Layout {
            size: Size {
                width: self.size.width.clamp_non_negative(),
                height: self.size.height.clamp_non_negative(),
            },
            location: Point { x: self.location.x.settle(), y: self.location.y.settle() },
        }
    }
}

/// A settled layout is a fixed point of settling, and settling always yields
/// one.
pub proof fn lemma_settled_fixed_point(l: Layout)
    ensures
        l.settled().is_settled(),
        l.is_settled() ==> l.settled() == l,
        l.settled().settled() == l.settled(),
        Layout::zero_spec().is_settled(),
{
}

} // verus!
