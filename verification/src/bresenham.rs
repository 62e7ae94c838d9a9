use vstd::prelude::*;
use vstd::arithmetic::div_mod::lemma_fundamental_div_mod_converse;

verus! {

/// The row of the pixel nearest to the ideal line from `(0, 0)` to `(dx, dy)`
/// at column `x`, for `0 <= dy <= dx`; a tie between two rows goes to the lower one.
pub open spec fn octant_row(dx: int, dy: int, x: int) -> int {
    if dx == 0 {
        0
    } else {
        (2 * dy * x + dx - 1) / (2 * dx)
    }
}

/// The pixels of the line from `(0, 0)` to `(dx, dy)` when `0 <= dy <= dx`:
/// one pixel per column, in order of increasing column.
pub open spec fn octant_points(dx: int, dy: int) -> Seq<(int, int)> {
    Seq::new((dx + 1) as nat, |x: int| (x, octant_row(dx, dy, x)))
}

/// `octant_row` is the row whose doubled distance to the ideal line lies in `[-dx, dx)`.
proof fn lemma_octant_row(dx: int, dy: int, x: int, y: int)
    requires
        dx > 0,
        2 * dy * x - dx <= 2 * dx * y,
        2 * dx * y < 2 * dy * x + dx,
    ensures
        octant_row(dx, dy, x) == y,
{
    let n = 2 * dy * x + dx - 1;
    assert(n == y * (2 * dx) + (n - 2 * dx * y)) by (nonlinear_arith);
    lemma_fundamental_div_mod_converse(n, 2 * dx, y, n - 2 * dx * y);
}

pub open spec fn same_points_i32(v: Seq<[i32; 2]>, s: Seq<(int, int)>) -> bool {
    &&& v.len() == s.len()
    &&& forall|i: int| 0 <= i < v.len() ==> (#[trigger] v[i])[0] == s[i].0 && v[i][1] == s[i].1
}

/// Rasterises the line from the origin to `(dx, dy)`, going down-right with `dx >= dy`.
fn oct(dx: i32, dy: i32) -> (points: Vec<[i32; 2]>)
    requires
        0 <= dy <= dx,
        2 * dx <= i32::MAX,
    ensures
        same_points_i32(points@, octant_points(dx as int, dy as int)),
{
    let mut points: Vec<[i32; 2]> = Vec::new();
    let mut d: i32 = 2 * dy - dx;
    let mut y: i32 = 0;
    let mut x: i32 = 0;
    while x <= dx
        invariant
            0 <= dy <= dx,
            2 * dx <= i32::MAX,
            0 <= x <= dx + 1,
            0 <= y <= x,
            y <= dy + 1,
            points@.len() == x,
            forall|i: int| 0 <= i < x ==> (#[trigger] points@[i])[0] == i && points@[i][1] == octant_row(dx as int, dy as int, i),
            d == 2 * dy * x + 2 * dy - 2 * dx * y - dx,
            2 * dy * x - dx <= 2 * dx * y,
            2 * dx * y < 2 * dy * x + dx || (dx == 0 && y == 0),
        decreases dx + 1 - x,
    {
        proof {
            if dx > 0 {
                lemma_octant_row(dx as int, dy as int, x as int, y as int);
            }
        }
        let p = [x, y];
        assert(p[0] == x && p[1] == y);
        points.push(p);
        let ghost (x0, y0, d0) = (x as int, y as int, d as int);
        proof {
            assert(y0 <= dy) by (nonlinear_arith)
                requires 2 * dx * y0 < 2 * dy * x0 + dx || (dx == 0 && y0 == 0), x0 <= dx, 0 <= dy <= dx;
        }
        if d > 0 {
            y += 1;
            d -= 2 * dx;
        }
        d += 2 * dy;
        x += 1;
        proof {
            let (x1, y1, d1) = (x as int, y as int, d as int);
            assert(d1 == 2 * dy * x1 + 2 * dy - 2 * dx * y1 - dx) by (nonlinear_arith)
                requires
                    d0 == 2 * dy * x0 + 2 * dy - 2 * dx * y0 - dx,
                    x1 == x0 + 1,
                    y1 == y0 || y1 == y0 + 1,
                    y1 == y0 ==> d1 == d0 + 2 * dy,
                    y1 == y0 + 1 ==> d1 == d0 - 2 * dx + 2 * dy;
            assert(2 * dy * x1 - dx <= 2 * dx * y1) by (nonlinear_arith)
                requires
                    d0 == 2 * dy * x0 + 2 * dy - 2 * dx * y0 - dx,
                    2 * dy * x0 - dx <= 2 * dx * y0,
                    x1 == x0 + 1,
                    y1 == y0 || (y1 == y0 + 1 && d0 > 0),
                    y1 == y0 ==> d0 <= 0,
                    0 <= dy <= dx;
            assert(2 * dx * y1 < 2 * dy * x1 + dx || (dx == 0 && y1 == 0)) by (nonlinear_arith)
                requires
                    d0 == 2 * dy * x0 + 2 * dy - 2 * dx * y0 - dx,
                    2 * dx * y0 < 2 * dy * x0 + dx || (dx == 0 && y0 == 0),
                    x1 == x0 + 1,
                    y1 == y0 || (y1 == y0 + 1 && d0 > 0),
                    y1 == y0 ==> d0 <= 0,
                    0 <= dy <= dx;
        }
    }
    points
}

/// The pixels of the line from `(0, 0)` to `(dx, dy)` when both are non-negative:
/// one pixel per step along the longer axis, starting at the origin.
pub open spec fn quadrant_points(dx: int, dy: int) -> Seq<(int, int)> {
    if dx < dy {
        Seq::new((dy + 1) as nat, |y: int| (octant_row(dy, dx, y), y))
    } else {
        octant_points(dx, dy)
    }
}

pub open spec fn abs(v: int) -> int {
    if v < 0 { -v } else { v }
}

pub open spec fn flip(v: int, negate: bool) -> int {
    if negate { -v } else { v }
}

/// The pixels of the line from `(0, 0)` to `(dx, dy)` in any direction: the
/// non-negative line to `(|dx|, |dy|)` mirrored on each axis whose offset is negative.
pub open spec fn full_points(dx: int, dy: int) -> Seq<(int, int)> {
    quadrant_points(abs(dx), abs(dy)).map_values(|p: (int, int)| (flip(p.0, dx < 0), flip(p.1, dy < 0)))
}

/// The pixels of the line from `start` to `end`, without `start` itself.
pub open spec fn line_points(start: (int, int), end: (int, int)) -> Seq<(int, int)> {
    full_points(end.0 - start.0, end.1 - start.1).skip(1).map_values(
        |p: (int, int)| (p.0 + start.0, p.1 + start.1),
    )
}

pub open spec fn same_points_usize(v: Seq<[usize; 2]>, s: Seq<(int, int)>) -> bool {
    &&& v.len() == s.len()
    &&& forall|i: int| 0 <= i < v.len() ==> (#[trigger] v[i])[0] == s[i].0 && v[i][1] == s[i].1
}

/// Rasterises the line from the origin to `(dx, dy)`, going down-right.
fn quad(dx: i32, dy: i32) -> (points: Vec<[i32; 2]>)
    requires
        0 <= dx,
        0 <= dy,
        2 * dx <= i32::MAX,
        2 * dy <= i32::MAX,
    ensures
        same_points_i32(points@, quadrant_points(dx as int, dy as int)),
{
    if dx < dy {
        let points = oct(dy, dx);
        let mut swapped: Vec<[i32; 2]> = Vec::new();
        let mut i: usize = 0;
        while i < points.len()
            invariant
                same_points_i32(points@, octant_points(dy as int, dx as int)),
                i <= points.len(),
                swapped@.len() == i,
                forall|j: int| 0 <= j < i ==> (#[trigger] swapped@[j])[0] == points@[j][1] && swapped@[j][1] == points@[j][0],
            decreases points.len() - i,
        {
            let p = [points[i][1], points[i][0]];
            swapped.push(p);
            i += 1;
        }
        return swapped;
    } else {
        let points = oct(dx, dy);
        return points;
    }
}

/// Rasterises the line from the origin to `(dx, dy)` in any direction.
pub fn full(dx: i32, dy: i32) -> (points: Vec<[i32; 2]>)
    requires
        2 * abs(dx as int) <= i32::MAX,
        2 * abs(dy as int) <= i32::MAX,
    ensures
        same_points_i32(points@, full_points(dx as int, dy as int)),
{
    let flipped_x = dx < 0;
    let flipped_y = dy < 0;
    let adx = if flipped_x { -dx } else { dx };
    let ady = if flipped_y { -dy } else { dy };
    let points = quad(adx, ady);
    let ghost q = quadrant_points(adx as int, ady as int);
    let mut out: Vec<[i32; 2]> = Vec::new();
    let mut i: usize = 0;
    while i < points.len()
        invariant
            same_points_i32(points@, q),
            q == quadrant_points(abs(dx as int), abs(dy as int)),
            flipped_x == (dx < 0),
            flipped_y == (dy < 0),
            i <= points.len(),
            out@.len() == i,
            forall|j: int| 0 <= j < i ==> (#[trigger] out@[j])[0] == flip(q[j].0, flipped_x) && out@[j][1] == flip(q[j].1, flipped_y),
        decreases points.len() - i,
    {
        proof {
            lemma_quadrant_bounds(abs(dx as int), abs(dy as int), i as int);
        }
        let x = if flipped_x { -points[i][0] } else { points[i][0] };
        let y = if flipped_y { -points[i][1] } else { points[i][1] };
        out.push([x, y]);
        i += 1;
    }
    out
}

/// Each pixel of a non-negative line lies in the box spanned by its two ends.
proof fn lemma_quadrant_bounds(dx: int, dy: int, i: int)
    requires
        0 <= dx,
        0 <= dy,
        0 <= i < quadrant_points(dx, dy).len(),
    ensures
        0 <= quadrant_points(dx, dy)[i].0 <= dx,
        0 <= quadrant_points(dx, dy)[i].1 <= dy,
{
    if dx < dy {
        lemma_octant_row_bounds(dy, dx, i);
    } else {
        lemma_octant_row_bounds(dx, dy, i);
    }
}

/// Along the line, rows stay between `0` and `dy`.
proof fn lemma_octant_row_bounds(dx: int, dy: int, x: int)
    requires
        0 <= dy <= dx,
        0 <= x <= dx,
    ensures
        0 <= octant_row(dx, dy, x) <= dy,
{
    if dx > 0 {
        let n = 2 * dy * x + dx - 1;
        assert(0 <= n) by (nonlinear_arith)
            requires dy >= 0, x >= 0, dx > 0, n == 2 * dy * x + dx - 1;
        assert(n < (dy + 1) * (2 * dx)) by (nonlinear_arith)
            requires 0 <= dy <= dx, 0 <= x <= dx, dx > 0, n == 2 * dy * x + dx - 1;
        vstd::arithmetic::div_mod::lemma_div_pos_is_pos(n, 2 * dx);
        vstd::arithmetic::div_mod::lemma_div_is_ordered(n, (dy + 1) * (2 * dx) - 1, 2 * dx);
        assert(((dy + 1) * (2 * dx) - 1) / (2 * dx) == dy) by {
            assert((dy + 1) * (2 * dx) - 1 == dy * (2 * dx) + (2 * dx - 1)) by (nonlinear_arith);
            lemma_fundamental_div_mod_converse((dy + 1) * (2 * dx) - 1, 2 * dx, dy, 2 * dx - 1);
        }
    }
}

/// Rasterises the line from `start` to `end`, leaving out `start`.
pub fn line(start: [usize; 2], end: [usize; 2]) -> (points: Vec<[usize; 2]>)
    requires
        start[0] <= i32::MAX,
        start[1] <= i32::MAX,
        end[0] <= i32::MAX,
        end[1] <= i32::MAX,
        2 * abs(end[0] - start[0]) <= i32::MAX,
        2 * abs(end[1] - start[1]) <= i32::MAX,
    ensures
        same_points_usize(points@, line_points((start[0] as int, start[1] as int), (end[0] as int, end[1] as int))),
{
    let x0 = start[0] as i32;
    let y0 = start[1] as i32;
    let x1 = end[0] as i32;
    let y1 = end[1] as i32;

    let dx = x1 - x0;
    let dy = y1 - y0;

    let points = full(dx, dy);
    let ghost f = full_points(dx as int, dy as int);
    let mut out: Vec<[usize; 2]> = Vec::new();
    let mut i: usize = 1;
    while i < points.len()
        invariant
            same_points_i32(points@, f),
            f == full_points(dx as int, dy as int),
            dx == end[0] - start[0],
            dy == end[1] - start[1],
            x0 == start[0],
            y0 == start[1],
            end[0] <= i32::MAX,
            end[1] <= i32::MAX,
            1 <= i,
            i <= points.len() || points.len() == 0,
            out@.len() == i - 1,
            forall|j: int| 0 <= j < i - 1 ==> (#[trigger] out@[j])[0] == f[j + 1].0 + x0 && out@[j][1] == f[j + 1].1 + y0,
        decreases points.len() - i,
    {
        proof {
            lemma_full_bounds(dx as int, dy as int, i as int);
            assert(points@[i as int][0] == f[i as int].0 && points@[i as int][1] == f[i as int].1);
        }
        let x = (points[i][0] + x0) as usize;
        let y = (points[i][1] + y0) as usize;
        out.push([x, y]);
        i += 1;
    }
    out
}

/// Each pixel of a line from the origin lies in the box spanned by the origin and `(dx, dy)`.
proof fn lemma_full_bounds(dx: int, dy: int, i: int)
    requires
        0 <= i < full_points(dx, dy).len(),
    ensures
        dx >= 0 ==> 0 <= full_points(dx, dy)[i].0 <= dx,
        dx < 0 ==> dx <= full_points(dx, dy)[i].0 <= 0,
        dy >= 0 ==> 0 <= full_points(dx, dy)[i].1 <= dy,
        dy < 0 ==> dy <= full_points(dx, dy)[i].1 <= 0,
{
    lemma_quadrant_bounds(abs(dx), abs(dy), i);
}

/// The row chosen at column `x` is within half a pixel of the ideal line:
/// its doubled distance lies in `[-dx, dx)`.
proof fn lemma_octant_row_near(dx: int, dy: int, x: int)
    requires
        dx > 0,
        0 <= dy,
        0 <= x,
    ensures
        2 * dy * x - dx <= 2 * dx * octant_row(dx, dy, x),
        2 * dx * octant_row(dx, dy, x) < 2 * dy * x + dx,
{
    let n = 2 * dy * x + dx - 1;
    assert(n >= 0) by (nonlinear_arith)
        requires dx > 0, dy >= 0, x >= 0, n == 2 * dy * x + dx - 1;
    vstd::arithmetic::div_mod::lemma_fundamental_div_mod(n, 2 * dx);
    vstd::arithmetic::div_mod::lemma_mod_pos_bound(n, 2 * dx);
    let q = n / (2 * dx);
    let r = n % (2 * dx);
    assert(2 * dx * q == (2 * dx) * q) by (nonlinear_arith);
}

/// Along the line the row starts at 0, ends at `dy`, and grows by 0 or 1 per column.
proof fn lemma_octant_row_steps(dx: int, dy: int, x: int)
    requires
        0 <= dy <= dx,
    ensures
        octant_row(dx, dy, 0) == 0,
        octant_row(dx, dy, dx) == dy,
        0 <= x < dx ==> octant_row(dx, dy, x) <= octant_row(dx, dy, x + 1) <= octant_row(dx, dy, x) + 1,
{
    if dx > 0 {
        lemma_octant_row(dx, dy, 0, 0);
        assert(2 * dy * dx - dx <= 2 * dx * dy < 2 * dy * dx + dx) by (nonlinear_arith)
            requires dx > 0;
        lemma_octant_row(dx, dy, dx, dy);
        if 0 <= x < dx {
            lemma_octant_row_near(dx, dy, x);
            lemma_octant_row_near(dx, dy, x + 1);
            let y0 = octant_row(dx, dy, x);
            let y1 = octant_row(dx, dy, x + 1);
            assert(y0 <= y1 <= y0 + 1) by (nonlinear_arith)
                requires
                    dx > 0,
                    0 <= dy <= dx,
                    2 * dy * x - dx <= 2 * dx * y0,
                    2 * dx * y0 < 2 * dy * x + dx,
                    2 * dy * (x + 1) - dx <= 2 * dx * y1,
                    2 * dx * y1 < 2 * dy * (x + 1) + dx;
        }
    }
}

/// Swapping the two offsets of a non-negative line mirrors its pixels across
/// the diagonal; a line no steeper than the diagonal is the
/// one-pixel-per-column line.
pub proof fn lemma_quadrant_swap(dx: int, dy: int)
    requires
        0 <= dx,
        0 <= dy,
    ensures
        quadrant_points(dy, dx) == quadrant_points(dx, dy).map_values(|p: (int, int)| (p.1, p.0)),
        dy <= dx ==> quadrant_points(dx, dy) == octant_points(dx, dy),
{
    let swapped = quadrant_points(dx, dy).map_values(|p: (int, int)| (p.1, p.0));
    if dx == dy {
        assert forall|x: int| 0 <= x <= dx implies octant_row(dx, dy, x) == x by {
            if dx > 0 {
                lemma_octant_row(dx, dy, x, x);
            }
        }
    }
    assert(quadrant_points(dy, dx) =~= swapped);
}

pub open spec fn max_abs(dx: int, dy: int) -> int {
    if abs(dx) < abs(dy) {
        abs(dy)
    } else {
        abs(dx)
    }
}

/// A line from the origin has one pixel per step along its longer axis: it
/// starts at the origin and ends exactly at `(dx, dy)`.
pub proof fn lemma_full_endpoints(dx: int, dy: int)
    ensures
        full_points(dx, dy).len() == max_abs(dx, dy) + 1,
        full_points(dx, dy)[0] == (0int, 0int),
        full_points(dx, dy).last() == (dx, dy),
{
    let (ax, ay) = (abs(dx), abs(dy));
    if ax < ay {
        lemma_octant_row_steps(ay, ax, 0);
    } else {
        lemma_octant_row_steps(ax, ay, 0);
    }
    assert(full_points(dx, dy)[0] == (flip(quadrant_points(ax, ay)[0].0, dx < 0), flip(quadrant_points(ax, ay)[0].1, dy < 0)));
}

/// Consecutive pixels of a line from the origin are neighbours: each step
/// moves by one along the longer axis and by at most one along the other.
pub proof fn lemma_full_steps(dx: int, dy: int, i: int)
    requires
        0 <= i < full_points(dx, dy).len() - 1,
    ensures
        abs(full_points(dx, dy)[i + 1].0 - full_points(dx, dy)[i].0) <= 1,
        abs(full_points(dx, dy)[i + 1].1 - full_points(dx, dy)[i].1) <= 1,
        abs(dx) >= abs(dy) ==> abs(full_points(dx, dy)[i + 1].0 - full_points(dx, dy)[i].0) == 1,
        abs(dx) < abs(dy) ==> abs(full_points(dx, dy)[i + 1].1 - full_points(dx, dy)[i].1) == 1,
{
    let (ax, ay) = (abs(dx), abs(dy));
    if ax < ay {
        lemma_octant_row_steps(ay, ax, i);
    } else {
        lemma_octant_row_steps(ax, ay, i);
    }
}

/// The line from `start` to `end` has one pixel per step along its longer
/// axis, ends exactly at `end`, and its first pixel neighbours `start`.
pub proof fn lemma_line_endpoints(start: (int, int), end: (int, int))
    ensures
        line_points(start, end).len() == max_abs(end.0 - start.0, end.1 - start.1),
        line_points(start, end).len() > 0 ==> line_points(start, end).last() == end,
        line_points(start, end).len() > 0 ==> abs(line_points(start, end)[0].0 - start.0) <= 1 && abs(
            line_points(start, end)[0].1 - start.1,
        ) <= 1,
{
    let (dx, dy) = (end.0 - start.0, end.1 - start.1);
    lemma_full_endpoints(dx, dy);
    if line_points(start, end).len() > 0 {
        lemma_full_steps(dx, dy, 0);
    }
}

/// Consecutive pixels of the line from `start` to `end` are neighbours, and
/// every pixel lies in the box spanned by `start` and `end`.
pub proof fn lemma_line_steps(start: (int, int), end: (int, int), i: int)
    requires
        0 <= i < line_points(start, end).len(),
    ensures
        vstd::math::min(start.0, end.0) <= line_points(start, end)[i].0 <= vstd::math::max(start.0, end.0),
        vstd::math::min(start.1, end.1) <= line_points(start, end)[i].1 <= vstd::math::max(start.1, end.1),
        i + 1 < line_points(start, end).len() ==> abs(line_points(start, end)[i + 1].0 - line_points(start, end)[i].0)
            <= 1 && abs(line_points(start, end)[i + 1].1 - line_points(start, end)[i].1) <= 1,
{
    let (dx, dy) = (end.0 - start.0, end.1 - start.1);
    lemma_full_bounds(dx, dy, i + 1);
    if i + 1 < line_points(start, end).len() {
        lemma_full_steps(dx, dy, i + 1);
    }
}

} // verus!
