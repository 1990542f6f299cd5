use vstd::prelude::*;

verus! {

/// A two-dimensional integer vector, used for pixel coordinates and sizes.
#[derive(Clone, Copy, Debug, PartialEq, Eq, Structural, Hash, Default)]
pub struct IVec2 {
    pub x: i32,
    pub y: i32,
}

/// Builds the vector `(x, y)`.
pub fn ivec2(x: i32, y: i32) -> (v: IVec2)
    ensures
        v.x == x,
        v.y == y,
{
    IVec2 { x, y }
}

/// The dot product of two vectors, as a mathematical integer.
pub open spec fn dot_spec(a: IVec2, b: IVec2) -> int {
    a.x * b.x + a.y * b.y
}

/// Whether `a - b` fits in `i32` componentwise.
pub open spec fn sub_fits(a: IVec2, b: IVec2) -> bool {
    &&& i32::MIN <= a.x - b.x <= i32::MAX
    &&& i32::MIN <= a.y - b.y <= i32::MAX
}

/// Whether the dot product of `a` and `b`, and each of its two terms, fits in `i32`.
pub open spec fn dot_fits(a: IVec2, b: IVec2) -> bool {
    &&& i32::MIN <= a.x * b.x <= i32::MAX
    &&& i32::MIN <= a.y * b.y <= i32::MAX
    &&& i32::MIN <= dot_spec(a, b) <= i32::MAX
}

impl IVec2 {
    /// Componentwise difference `self - other`.
    pub fn sub(self, other: IVec2) -> (v: IVec2)
        requires
            sub_fits(self, other),
        ensures
            v.x == self.x - other.x,
            v.y == self.y - other.y,
    {
        IVec2 { x: self.x - other.x, y: self.y - other.y }
    }

    /// Componentwise sum `self + other`.
    pub fn add(self, other: IVec2) -> (v: IVec2)
        requires
            i32::MIN <= self.x + other.x <= i32::MAX,
            i32::MIN <= self.y + other.y <= i32::MAX,
        ensures
            v.x == self.x + other.x,
            v.y == self.y + other.y,
    {
        IVec2 { x: self.x + other.x, y: self.y + other.y }
    }

    /// The dot product `self.x * other.x + self.y * other.y`.
    pub fn dot(&self, other: &IVec2) -> (d: i32)
        requires
            dot_fits(*self, *other),
        ensures
            d == dot_spec(*self, *other),
    {
        self.x * other.x + self.y * other.y
    }
}

} // verus!
