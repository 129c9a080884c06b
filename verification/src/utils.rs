//! Measures of outlines in whole numbers: lengths in 1024ths of a pixel,
//! areas doubled, and the box around a set of points.

use crate::panel::{max_int, min_int, Point, Rect};
use vstd::prelude::*;

verus! {

/// Number of length units in one pixel.
pub const SUBPIXEL: u64 = 1024;

/// Largest coordinate for which every measure below is computed exactly.
pub const MAX_COORD: u32 = 0x400_0000;

/// Whether every coordinate of `points` is at most `MAX_COORD`.
pub open spec fn in_range(points: Seq<Point>) -> bool {
    forall|i: int|
        #![trigger points[i]]
        0 <= i < points.len() ==> points[i].x <= MAX_COORD && points[i].y <= MAX_COORD
}

/// Whether `r` is the square root of `n` rounded down.
pub open spec fn is_floor_sqrt(n: int, r: int) -> bool {
    0 <= r && r * r <= n < (r + 1) * (r + 1)
}

/// The square root of `n`, rounded down.
pub open spec fn floor_sqrt(n: int) -> int {
    choose|r: int| is_floor_sqrt(n, r)
}

/// A number has one rounded-down square root.
pub proof fn lemma_floor_sqrt_unique(n: int, r: int)
    requires
        is_floor_sqrt(n, r),
    ensures
        floor_sqrt(n) == r,
{
    let s = floor_sqrt(n);
    assert(is_floor_sqrt(n, s));
    assert(s == r) by (nonlinear_arith)
        requires
            0 <= r,
            0 <= s,
            r * r <= n < (r + 1) * (r + 1),
            s * s <= n < (s + 1) * (s + 1),
    ;
}

/// The square root of `n`, rounded down.
pub fn isqrt(n: u128) -> (r: u64)
    ensures
        r == floor_sqrt(n as int),
        is_floor_sqrt(n as int, r as int),
{
    let mut lo: u128 = 0;
    let mut hi: u128 = 0x1_0000_0000_0000_0000;
    assert(hi * hi == 0x1_0000_0000_0000_0000_0000_0000_0000_0000) by (nonlinear_arith)
        requires
            hi == 0x1_0000_0000_0000_0000,
    ;
    while hi - lo > 1
        invariant
            lo < hi <= 0x1_0000_0000_0000_0000,
            lo * lo <= n,
            n < hi * hi,
        decreases hi - lo,
    {
        let mid: u128 = lo + (hi - lo) / 2;
        assert(mid * mid <= 0xffff_ffff_ffff_ffff * 0xffff_ffff_ffff_ffff) by (nonlinear_arith)
            requires
                0 <= mid <= 0xffff_ffff_ffff_ffff,
        ;
        if mid * mid <= n {
            lo = mid;
        } else {
            hi = mid;
        }
    }
    proof {
        lemma_floor_sqrt_unique(n as int, lo as int);
    }
    lo as u64
}

/// How far two integers are apart.
pub open spec fn abs_diff(a: int, b: int) -> int {
    if a >= b { a - b } else { b - a }
}

/// The squared distance of two points, in squared pixels.
pub open spec fn spec_distance_sq(p1: Point, p2: Point) -> int {
    abs_diff(p1.x as int, p2.x as int) * abs_diff(p1.x as int, p2.x as int) + abs_diff(
        p1.y as int,
        p2.y as int,
    ) * abs_diff(p1.y as int, p2.y as int)
}

/// The distance of two points in length units, rounded down.
pub open spec fn spec_distance(p1: Point, p2: Point) -> int {
    floor_sqrt(spec_distance_sq(p1, p2) * (SUBPIXEL * SUBPIXEL))
}

fn gap(a: u32, b: u32) -> (d: u128)
    ensures
        d == abs_diff(a as int, b as int),
        d <= u32::MAX,
{
    if a >= b { (a - b) as u128 } else { (b - a) as u128 }
}

/// The distance of two points in length units, rounded down.
pub fn distance(p1: &Point, p2: &Point) -> (d: u64)
    ensures
        d == spec_distance(*p1, *p2),
        d <= 0x800_0000_0000,
{
    let dx: u128 = gap(p1.x, p2.x);
    let dy: u128 = gap(p1.y, p2.y);
    assert(dx * dx <= 0xffff_ffff * 0xffff_ffff) by (nonlinear_arith)
        requires
            0 <= dx <= 0xffff_ffff,
    ;
    assert(dy * dy <= 0xffff_ffff * 0xffff_ffff) by (nonlinear_arith)
        requires
            0 <= dy <= 0xffff_ffff,
    ;
    let sq: u128 = dx * dx + dy * dy;
    let scaled: u128 = sq * 0x10_0000;
    assert(SUBPIXEL * SUBPIXEL == 0x10_0000) by (nonlinear_arith)
        requires
            SUBPIXEL == 1024,
    ;
    let d: u64 = isqrt(scaled);
    assert(d <= 0x800_0000_0000) by (nonlinear_arith)
        requires
            d * d <= scaled,
            scaled < 0x20_0000_0000_0000_0000_0000,
            0 <= d,
    ;
    d
}

/// The summed lengths of the first `count` edges of the closed outline
/// `points`, edge `i` leading from point `i` to the next point around.
pub open spec fn edges_length(points: Seq<Point>, count: int) -> int
    decreases count,
{
    if count <= 0 || points.len() == 0 {
        0
    } else {
        edges_length(points, count - 1) + spec_distance(
            points[count - 1],
            points[count % (points.len() as int)],
        )
    }
}

/// The length of the closed outline `points` in length units; zero for
/// fewer than two points.
pub open spec fn spec_perimeter(points: Seq<Point>) -> int {
    if points.len() < 2 {
        0
    } else {
        edges_length(points, points.len() as int)
    }
}

/// The length of the closed outline `points` in length units.
pub fn calculate_polygon_perimeter(points: &[Point]) -> (perimeter: u128)
    ensures
        perimeter == spec_perimeter(points@),
{
    let n: usize = points.len();
    if n < 2 {
        return 0;
    }
    let mut total: u128 = 0;
    let mut i: usize = 0;
    while i < n
        invariant
            i <= n,
            n == points@.len(),
            n >= 2,
            total == edges_length(points@, i as int),
            total <= i * 0x800_0000_0000,
        decreases n - i,
    {
        let next: usize = if i + 1 == n { 0 } else { i + 1 };
        assert(next == (i + 1) % (n as int)) by {
            if i + 1 == n {
                assert((n as int) % (n as int) == 0) by (nonlinear_arith)
                    requires
                        n > 0,
                ;
            } else {
                assert(((i + 1) as int) % (n as int) == i + 1) by (nonlinear_arith)
                    requires
                        0 <= i + 1 < n,
                ;
            }
        }
        let d: u64 = distance(&points[i], &points[next]);
        assert((i + 1) * 0x800_0000_0000 <= 0x1_0000_0000_0000_0000 * 0x800_0000_0000)
            by (nonlinear_arith)
            requires
                i + 1 <= 0x1_0000_0000_0000_0000,
        ;
        total = total + d as u128;
        i += 1;
    }
    total
}

/// The signed shoelace sum over the first `count` edges of the closed outline.
pub open spec fn shoelace(points: Seq<Point>, count: int) -> int
    decreases count,
{
    if count <= 0 || points.len() == 0 {
        0
    } else {
        let p1 = points[count - 1];
        let p2 = points[count % (points.len() as int)];
        shoelace(points, count - 1) + (p1.x * p2.y - p2.x * p1.y)
    }
}

/// Twice the area that the closed outline encloses, in squared pixels; zero
/// for fewer than three points.
pub open spec fn spec_double_area(points: Seq<Point>) -> int {
    if points.len() < 3 {
        0
    } else {
        let sum = shoelace(points, points.len() as int);
        if sum >= 0 { sum } else { -sum }
    }
}

/// Twice the area that the closed outline encloses. The doubled area is a
/// whole number where the area itself may end in one half.
pub fn calculate_polygon_area(points: &[Point]) -> (doubled: u128)
    requires
        in_range(points@),
    ensures
        doubled == spec_double_area(points@),
{
    let n: usize = points.len();
    if n < 3 {
        return 0;
    }
    let mut sum: i128 = 0;
    let mut i: usize = 0;
    while i < n
        invariant
            i <= n,
            n == points@.len(),
            n >= 3,
            in_range(points@),
            sum == shoelace(points@, i as int),
            -(i * 0x10_0000_0000_0000) <= sum <= i * 0x10_0000_0000_0000,
        decreases n - i,
    {
        let next: usize = if i + 1 == n { 0 } else { i + 1 };
        assert(next == (i + 1) % (n as int)) by {
            if i + 1 == n {
                assert((n as int) % (n as int) == 0) by (nonlinear_arith)
                    requires
                        n > 0,
                ;
            } else {
                assert(((i + 1) as int) % (n as int) == i + 1) by (nonlinear_arith)
                    requires
                        0 <= i + 1 < n,
                ;
            }
        }
        let p1 = &points[i];
        let p2 = &points[next];
        let x1: i128 = p1.x as i128;
        let y1: i128 = p1.y as i128;
        let x2: i128 = p2.x as i128;
        let y2: i128 = p2.y as i128;
        assert(0 <= x1 * y2 <= 0x10_0000_0000_0000) by (nonlinear_arith)
            requires
                0 <= x1 <= 0x400_0000,
                0 <= y2 <= 0x400_0000,
        ;
        assert(0 <= x2 * y1 <= 0x10_0000_0000_0000) by (nonlinear_arith)
            requires
                0 <= x2 <= 0x400_0000,
                0 <= y1 <= 0x400_0000,
        ;
        assert((i + 1) * 0x10_0000_0000_0000 <= 0x1_0000_0000_0000_0000 * 0x10_0000_0000_0000)
            by (nonlinear_arith)
            requires
                i + 1 <= 0x1_0000_0000_0000_0000,
        ;
        sum = sum + (x1 * y2 - x2 * y1);
        i += 1;
    }
    if sum >= 0 { sum as u128 } else { (-sum) as u128 }
}

/// The coordinate of a point along one axis.
pub open spec fn coord(p: Point, vertical: bool) -> int {
    if vertical { p.y as int } else { p.x as int }
}

/// The least coordinate of the points along one axis; the largest `u32` for
/// no points.
pub open spec fn least(points: Seq<Point>, vertical: bool) -> int
    decreases points.len(),
{
    if points.len() == 0 {
        u32::MAX as int
    } else {
        min_int(least(points.drop_last(), vertical), coord(points.last(), vertical))
    }
}

/// The greatest coordinate of the points along one axis; zero for no points.
pub open spec fn greatest(points: Seq<Point>, vertical: bool) -> int
    decreases points.len(),
{
    if points.len() == 0 {
        0
    } else {
        max_int(greatest(points.drop_last(), vertical), coord(points.last(), vertical))
    }
}

/// The size of the box along one axis: the span, or 1 where the span is empty.
pub open spec fn span_size(lo: int, hi: int) -> int {
    if hi > lo { hi - lo } else { 1 }
}

/// The box around `points`: its corner at the least coordinates, its size the
/// span on each axis. With no points the corner is at (-1, -1) and the size 1 by 1.
pub open spec fn spec_bounding_rect(points: Seq<Point>) -> Rect {
    if points.len() == 0 {
        Rect { left: -1i32, top: -1i32, width: 1, height: 1 }
    } else {
        Rect {
            left: least(points, false) as i32,
            top: least(points, true) as i32,
            width: span_size(least(points, false), greatest(points, false)) as u32,
            height: span_size(least(points, true), greatest(points, true)) as u32,
        }
    }
}

/// Every point lies between the least and the greatest coordinate, and both
/// are coordinates of `u32`.
pub proof fn lemma_span_bounds(points: Seq<Point>, vertical: bool, k: int)
    requires
        0 <= k < points.len(),
    ensures
        0 <= least(points, vertical) <= coord(points[k], vertical) <= greatest(points, vertical)
            <= u32::MAX,
    decreases points.len(),
{
    let front = points.drop_last();
    if points.len() > 1 {
        if k < points.len() - 1 {
            lemma_span_bounds(front, vertical, k);
        } else {
            lemma_span_bounds(front, vertical, 0);
        }
    } else {
        assert(least(front, vertical) == u32::MAX);
        assert(greatest(front, vertical) == 0);
    }
}

/// The least and the greatest coordinate are coordinates of points.
pub proof fn lemma_span_attained(points: Seq<Point>, vertical: bool)
    requires
        points.len() > 0,
    ensures
        exists|k: int| 0 <= k < points.len() && #[trigger] coord(points[k], vertical) == least(
            points,
            vertical,
        ),
        exists|k: int| 0 <= k < points.len() && #[trigger] coord(points[k], vertical) == greatest(
            points,
            vertical,
        ),
    decreases points.len(),
{
    let last = points.len() - 1;
    if points.len() == 1 {
        assert(least(points.drop_last(), vertical) == u32::MAX);
        assert(greatest(points.drop_last(), vertical) == 0);
        assert(coord(points[0], vertical) == least(points, vertical));
        assert(coord(points[0], vertical) == greatest(points, vertical));
    } else {
        let front = points.drop_last();
        lemma_span_attained(front, vertical);
        lemma_span_bounds(front, vertical, 0);
        if coord(points[last], vertical) <= least(front, vertical) {
            assert(coord(points[last], vertical) == least(points, vertical));
        } else {
            let k = choose|k: int|
                0 <= k < front.len() && #[trigger] coord(front[k], vertical) == least(
                    front,
                    vertical,
                );
            assert(coord(points[k], vertical) == least(points, vertical));
        }
        if coord(points[last], vertical) >= greatest(front, vertical) {
            assert(coord(points[last], vertical) == greatest(points, vertical));
        } else {
            let k = choose|k: int|
                0 <= k < front.len() && #[trigger] coord(front[k], vertical) == greatest(
                    front,
                    vertical,
                );
            assert(coord(points[k], vertical) == greatest(points, vertical));
        }
    }
}

/// Whether every coordinate fits a signed 32-bit number.
pub open spec fn fits_signed(points: Seq<Point>) -> bool {
    forall|i: int|
        #![trigger points[i]]
        0 <= i < points.len() ==> points[i].x <= i32::MAX && points[i].y <= i32::MAX
}

/// The box around `points`.
pub fn bounding_rect_from_points(points: &[Point]) -> (rect: Rect)
    requires
        fits_signed(points@),
    ensures
        rect == spec_bounding_rect(points@),
        rect.wf(),
        rect.spec_right() <= i32::MAX,
        rect.spec_bottom() <= i32::MAX,
{
    let n: usize = points.len();
    if n == 0 {
        return Rect::at(-1, -1).of_size(1, 1);
    }
    let mut min_x: u32 = u32::MAX;
    let mut min_y: u32 = u32::MAX;
    let mut max_x: u32 = 0;
    let mut max_y: u32 = 0;
    let mut i: usize = 0;
    while i < n
        invariant
            i <= n,
            n == points@.len(),
            fits_signed(points@),
            min_x == least(points@.take(i as int), false),
            min_y == least(points@.take(i as int), true),
            max_x == greatest(points@.take(i as int), false),
            max_y == greatest(points@.take(i as int), true),
            max_x <= i32::MAX,
            max_y <= i32::MAX,
            i > 0 ==> min_x <= max_x && min_y <= max_y,
        decreases n - i,
    {
        let p = &points[i];
        assert(points@.take(i + 1).drop_last() == points@.take(i as int));
        assert(points@.take(i + 1).last() == points@[i as int]);
        if p.x < min_x {
            min_x = p.x;
        }
        if p.y < min_y {
            min_y = p.y;
        }
        if p.x > max_x {
            max_x = p.x;
        }
        if p.y > max_y {
            max_y = p.y;
        }
        i += 1;
    }
    assert(points@.take(i as int) == points@);
    let width: u32 = if max_x > min_x { max_x - min_x } else { 1 };
    let height: u32 = if max_y > min_y { max_y - min_y } else { 1 };
    Rect::at(min_x as i32, min_y as i32).of_size(width, height)
}

} // verus!
