use vstd::prelude::*;

verus! {

/// An axis-aligned box given as `(left, top, right, bottom)`.
pub type Bounds = (i64, i64, i64, i64);

/// Penetration depths `(left, right, top, bottom)` of one box into another.
pub type Overlap = (i64, i64, i64, i64);

/// A rectangular collision box, placed relative to its owner's position.
#[derive(Clone, Copy, Debug, PartialEq, Eq)]
pub struct Collider {
    pub width: u32,
    pub height: u32,
    pub offset_x: i32,
    pub offset_y: i32,
}

/// The box that a collider covers when its owner stands at `(x, y)`:
/// the offset gives the top-left corner, the size extends it right and down.
pub open spec fn bounds_at(c: Collider, x: int, y: int) -> Bounds {
    let left = x + c.offset_x;
    let top = y + c.offset_y;
    (left as i64, top as i64, (left + c.width) as i64, (top + c.height) as i64)
}

/// Strict overlap: touching edges do not count.
pub open spec fn spec_overlaps(a: Bounds, b: Bounds) -> bool {
    &&& a.2 > b.0
    &&& a.0 < b.2
    &&& a.3 > b.1
    &&& a.1 < b.3
}

impl Collider {
    /// The box this collider covers when its owner stands at `(x, y)`.
    pub fn bounds_at(&self, x: i32, y: i32) -> (r: Bounds)
        ensures
            r == bounds_at(*self, x as int, y as int),
    {
        let left: i64 = x as i64 + self.offset_x as i64;
        let top: i64 = y as i64 + self.offset_y as i64;
        (left, top, left + self.width as i64, top + self.height as i64)
    }
}

/// Whether two boxes overlap: each one's right edge lies past the other's
/// left edge and each one's bottom edge lies below the other's top edge.
pub fn overlaps(a: Bounds, b: Bounds) -> (r: bool)
    ensures
        r == spec_overlaps(a, b),
{
    a.2 > b.0 && a.0 < b.2 && a.3 > b.1 && a.1 < b.3
}

/// Overlap does not depend on the order of its two arguments.
pub proof fn lemma_overlaps_symmetric(a: Bounds, b: Bounds)
    ensures
        spec_overlaps(a, b) == spec_overlaps(b, a),
{
}

} // verus!
