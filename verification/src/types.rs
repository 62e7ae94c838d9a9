use vstd::prelude::*;
use vstd::math::{max, min};

use crate::image::ColorImage;

verus! {

/// A pixel position or size: `[x, y]` or `[width, height]`.
pub type PixCoord = [usize; 2];

/// The row-major buffer index of `coord` in `img`.
pub fn coord_to_idx(coord: PixCoord, img: &ColorImage) -> (idx: usize)
    requires
        coord[0] + coord[1] * img.size[0] <= usize::MAX,
    ensures
        idx == coord[0] + coord[1] * img.size[0],
{
    coord[0] + coord[1] * img.width()
}

/// The componentwise minimum.
pub fn coord_min(a: PixCoord, b: PixCoord) -> (r: PixCoord)
    ensures
        r[0] == min(a[0] as int, b[0] as int),
        r[1] == min(a[1] as int, b[1] as int),
{
    [a[0].min(b[0]), a[1].min(b[1])]
}

/// The componentwise maximum.
pub fn coord_max(a: PixCoord, b: PixCoord) -> (r: PixCoord)
    ensures
        r[0] == max(a[0] as int, b[0] as int),
        r[1] == max(a[1] as int, b[1] as int),
{
    [a[0].max(b[0]), a[1].max(b[1])]
}

/// The componentwise sum.
pub fn coord_add(a: PixCoord, b: PixCoord) -> (r: PixCoord)
    requires
        a[0] + b[0] <= usize::MAX,
        a[1] + b[1] <= usize::MAX,
    ensures
        r[0] == a[0] + b[0],
        r[1] == a[1] + b[1],
{
    [a[0] + b[0], a[1] + b[1]]
}

/// The componentwise difference.
pub fn coord_sub(a: PixCoord, b: PixCoord) -> (r: PixCoord)
    requires
        a[0] >= b[0],
        a[1] >= b[1],
    ensures
        r[0] == a[0] - b[0],
        r[1] == a[1] - b[1],
{
    [a[0] - b[0], a[1] - b[1]]
}

/// Maps `coord` from the box from `in_min` (inclusive) to `in_max` (exclusive)
/// linearly onto the box from `out_min` to `out_max`, rounding down.
pub fn coord_map(coord: PixCoord, in_min: PixCoord, in_max: PixCoord, out_min: PixCoord, out_max: PixCoord) -> (r: PixCoord)
    requires
        forall|k: int|
            0 <= k < 2 ==> {
                &&& in_min[k] <= coord[k]
                &&& in_min[k] < in_max[k]
                &&& out_min[k] <= out_max[k]
                &&& (coord[k] - in_min[k]) * (out_max[k] - out_min[k]) <= usize::MAX
                &&& out_min[k] + (coord[k] - in_min[k]) * (out_max[k] - out_min[k]) / (in_max[k] - in_min[k]) <= usize::MAX
            },
    ensures
        forall|k: int|
            0 <= k < 2 ==> r[k] == out_min[k] + (coord[k] - in_min[k]) * (out_max[k] - out_min[k]) / (in_max[k]
                - in_min[k]),
{
    assert(in_min[0] <= coord[0] && in_min[0] < in_max[0] && out_min[0] <= out_max[0]);
    assert(in_min[1] <= coord[1] && in_min[1] < in_max[1] && out_min[1] <= out_max[1]);
    let x = out_min[0] + (coord[0] - in_min[0]) * (out_max[0] - out_min[0]) / (in_max[0] - in_min[0]);
    let y = out_min[1] + (coord[1] - in_min[1]) * (out_max[1] - out_min[1]) / (in_max[1] - in_min[1]);
    let r = [x, y];
    assert(r[0] == x && r[1] == y);
    r
}

/// A rectangle of pixels given by two opposite corners, both inside it.
#[derive(Debug, Clone, Copy, PartialEq, Eq)]
pub struct PixRect {
    pub a: PixCoord,
    pub b: PixCoord,
}

impl Default for PixRect {
    fn default() -> (r: PixRect)
        ensures
            r.a[0] == 0 && r.a[1] == 0 && r.b[0] == 0 && r.b[1] == 0,
    {
        PixRect { a: [0, 0], b: [0, 0] }
    }
}

impl PixRect {
    /// The two stored corners as `(a.x, a.y, b.x, b.y)`.
    pub open spec fn corners(self) -> (int, int, int, int) {
        (self.a[0] as int, self.a[1] as int, self.b[0] as int, self.b[1] as int)
    }

    /// The top-left corner on axis `k`.
    pub open spec fn lo(self, k: int) -> int {
        min(self.a[k] as int, self.b[k] as int)
    }

    /// The bottom-right corner on axis `k`.
    pub open spec fn hi(self, k: int) -> int {
        max(self.a[k] as int, self.b[k] as int)
    }

    /// The top-left corner.
    pub fn min(&self) -> (r: PixCoord)
        ensures
            r[0] == self.lo(0),
            r[1] == self.lo(1),
    {
        coord_min(self.a, self.b)
    }

    /// The bottom-right corner.
    pub fn max(&self) -> (r: PixCoord)
        ensures
            r[0] == self.hi(0),
            r[1] == self.hi(1),
    {
        coord_max(self.a, self.b)
    }

    /// Max +1, good for boundaries that are exclusive
    pub fn outer(&self) -> (r: PixCoord)
        requires
            self.hi(0) + 1 <= usize::MAX,
            self.hi(1) + 1 <= usize::MAX,
        ensures
            r[0] == self.hi(0) + 1,
            r[1] == self.hi(1) + 1,
    {
        coord_add(self.max(), [1, 1])
    }

    /// The distance between the two corners.
    pub fn size(&self) -> (r: PixCoord)
        ensures
            r[0] == self.hi(0) - self.lo(0),
            r[1] == self.hi(1) - self.lo(1),
    {
        let mi = self.min();
        let ma = self.max();
        coord_sub(ma, mi)
    }

    /// Like `outer()` but for size: the number of pixels covered on each axis.
    pub fn outer_size(&self) -> (r: PixCoord)
        requires
            self.hi(0) + 1 <= usize::MAX,
            self.hi(1) + 1 <= usize::MAX,
        ensures
            r[0] == self.hi(0) - self.lo(0) + 1,
            r[1] == self.hi(1) - self.lo(1) + 1,
    {
        let mi = self.min();
        let ma = self.outer();
        coord_sub(ma, mi)
    }

    /// Returns the smallest rect that holds both this rect and the given coordinate
    pub fn enclose(&self, coord: PixCoord) -> (r: Self)
        ensures
            r.a[0] == min(self.lo(0), coord[0] as int),
            r.a[1] == min(self.lo(1), coord[1] as int),
            r.b[0] == max(self.hi(0), coord[0] as int),
            r.b[1] == max(self.hi(1), coord[1] as int),
    {
        Self { a: coord_min(self.min(), coord), b: coord_max(self.max(), coord) }
    }

    /// Caps the size
    pub fn limit(&self, max_size: PixCoord) -> (r: Self)
        ensures
            r.a[0] == min(self.lo(0), max_size[0] as int),
            r.a[1] == min(self.lo(1), max_size[1] as int),
            r.b[0] == min(self.hi(0), max_size[0] as int),
            r.b[1] == min(self.hi(1), max_size[1] as int),
    {
        Self { a: coord_min(self.min(), max_size), b: coord_min(self.max(), max_size) }
    }
}

} // verus!
