//! Thinning an outline: points that stay within a tolerance of the line
//! between the ends of their stretch are dropped.

use crate::config::Ratio;
use crate::panel::Point;
use crate::utils::{abs_diff, in_range, spec_distance_sq, MAX_COORD, SUBPIXEL};
use vstd::prelude::*;

verus! {

/// The square of a distance as an exact fraction `num / den` of squared pixels.
#[derive(Debug, Clone, Copy, PartialEq, Eq, Structural)]
pub struct SquaredDistance {
    pub num: u128,
    pub den: u128,
}

/// Twice the signed area of the triangle `a`, `b`, `pt`.
pub open spec fn cross(pt: Point, a: Point, b: Point) -> int {
    (b.x - a.x) * (pt.y - a.y) - (b.y - a.y) * (pt.x - a.x)
}

/// The squared length of the stretch from `a` to `b`, or 1 where they coincide.
pub open spec fn chord_sq(a: Point, b: Point) -> int {
    let m = spec_distance_sq(a, b);
    if m == 0 { 1 } else { m }
}

/// The squared distance of `pt` from the line through `a` and `b`, times
/// `chord_sq(a, b)`: the square of `cross`. Where `a` and `b` coincide, the
/// squared distance of `pt` from `a`.
pub open spec fn deviation(pt: Point, a: Point, b: Point) -> int {
    if spec_distance_sq(a, b) == 0 {
        spec_distance_sq(pt, a)
    } else {
        cross(pt, a, b) * cross(pt, a, b)
    }
}

/// Whether a distance whose square is `dev / chord` squared pixels is more
/// than `epsilon` length units. Nothing is rounded.
pub open spec fn exceeds(dev: int, chord: int, epsilon: int) -> bool {
    dev * SUBPIXEL * SUBPIXEL > epsilon * epsilon * chord
}

/// The squared distance of `pt` from the line through `line_start` and
/// `line_end`; where the two coincide, the squared distance from that point.
pub fn perpendicular_distance(pt: &Point, line_start: &Point, line_end: &Point) -> (d:
    SquaredDistance)
    requires
        pt.x <= MAX_COORD,
        pt.y <= MAX_COORD,
        line_start.x <= MAX_COORD,
        line_start.y <= MAX_COORD,
        line_end.x <= MAX_COORD,
        line_end.y <= MAX_COORD,
    ensures
        d.num == deviation(*pt, *line_start, *line_end),
        d.den == chord_sq(*line_start, *line_end),
        d.num <= 0x400_0000_0000_0000_0000_0000_0000,
        0 < d.den <= 0x20_0000_0000_0000,
{
    let dx: i128 = line_end.x as i128 - line_start.x as i128;
    let dy: i128 = line_end.y as i128 - line_start.y as i128;
    let ex: i128 = pt.x as i128 - line_start.x as i128;
    let ey: i128 = pt.y as i128 - line_start.y as i128;
    assert(0 <= dx * dx <= 0x400_0000 * 0x400_0000) by (nonlinear_arith)
        requires
            -0x400_0000 <= dx <= 0x400_0000,
    ;
    assert(0 <= dy * dy <= 0x400_0000 * 0x400_0000) by (nonlinear_arith)
        requires
            -0x400_0000 <= dy <= 0x400_0000,
    ;
    assert(0 <= ex * ex <= 0x400_0000 * 0x400_0000) by (nonlinear_arith)
        requires
            -0x400_0000 <= ex <= 0x400_0000,
    ;
    assert(0 <= ey * ey <= 0x400_0000 * 0x400_0000) by (nonlinear_arith)
        requires
            -0x400_0000 <= ey <= 0x400_0000,
    ;
    let m: i128 = dx * dx + dy * dy;
    proof {
        let ax = abs_diff(line_start.x as int, line_end.x as int);
        let ay = abs_diff(line_start.y as int, line_end.y as int);
        assert(ax * ax == dx * dx) by (nonlinear_arith)
            requires
                ax == dx || ax == -dx,
        ;
        assert(ay * ay == dy * dy) by (nonlinear_arith)
            requires
                ay == dy || ay == -dy,
        ;
        assert(m == spec_distance_sq(*line_start, *line_end));
    }
    if m == 0 {
        proof {
            let bx = abs_diff(pt.x as int, line_start.x as int);
            let by = abs_diff(pt.y as int, line_start.y as int);
            assert(bx * bx == ex * ex) by (nonlinear_arith)
                requires
                    bx == ex || bx == -ex,
            ;
            assert(by * by == ey * ey) by (nonlinear_arith)
                requires
                    by == ey || by == -ey,
            ;
        }
        return SquaredDistance { num: (ex * ex + ey * ey) as u128, den: 1 };
    }
    assert(-0x400_0000 * 0x400_0000 <= dx * ey <= 0x400_0000 * 0x400_0000) by (nonlinear_arith)
        requires
            -0x400_0000 <= dx <= 0x400_0000,
            -0x400_0000 <= ey <= 0x400_0000,
    ;
    assert(-0x400_0000 * 0x400_0000 <= dy * ex <= 0x400_0000 * 0x400_0000) by (nonlinear_arith)
        requires
            -0x400_0000 <= dy <= 0x400_0000,
            -0x400_0000 <= ex <= 0x400_0000,
    ;
    let c: i128 = dx * ey - dy * ex;
    assert(c == cross(*pt, *line_start, *line_end));
    assert(0 <= c * c <= 0x20_0000_0000_0000 * 0x20_0000_0000_0000) by (nonlinear_arith)
        requires
            -0x20_0000_0000_0000 <= c <= 0x20_0000_0000_0000,
    ;
    SquaredDistance { num: (c * c) as u128, den: m as u128 }
}

/// Tells whether a squared distance is more than the square of `epsilon`
/// length units.
pub fn exceeds_tolerance(d: SquaredDistance, epsilon: u128) -> (more: bool)
    requires
        d.num <= 0x400_0000_0000_0000_0000_0000_0000,
        d.den > 0,
    ensures
        more == exceeds(d.num as int, d.den as int, epsilon as int),
{
    let lhs: u128 = d.num * 0x10_0000;
    assert(lhs == d.num * SUBPIXEL * SUBPIXEL);
    if epsilon >= 0x1_0000_0000_0000_0000 {
        assert(epsilon * epsilon * d.den >= 0x1_0000_0000_0000_0000_0000_0000_0000_0000)
            by (nonlinear_arith)
            requires
                epsilon >= 0x1_0000_0000_0000_0000,
                d.den >= 1,
        ;
        return false;
    }
    assert(epsilon * epsilon <= 0xffff_ffff_ffff_ffff * 0xffff_ffff_ffff_ffff) by (nonlinear_arith)
        requires
            0 <= epsilon <= 0xffff_ffff_ffff_ffff,
    ;
    let squared: u128 = epsilon * epsilon;
    match squared.checked_mul(d.den) {
        Some(rhs) => lhs > rhs,
        None => false,
    }
}

/// The farthest of the inner points `1 .. upto` of a stretch from the line
/// between its ends, as index and deviation. Of equally far points the first
/// counts; with no point off the line the index is 0 and the deviation 0.
pub open spec fn farthest(points: Seq<Point>, upto: int) -> (int, int)
    decreases upto,
{
    if upto <= 1 || points.len() == 0 {
        (0, 0)
    } else {
        let before = farthest(points, upto - 1);
        let d = deviation(points[upto - 1], points[0], points.last());
        if d > before.1 {
            (upto - 1, d)
        } else {
            before
        }
    }
}

/// Whether a stretch is cut: its farthest inner point lies more than
/// `epsilon` length units from the line between its ends.
pub open spec fn is_cut(points: Seq<Point>, epsilon: int) -> bool {
    let far = farthest(points, points.len() - 1);
    exceeds(far.1, chord_sq(points[0], points.last()), epsilon) && 1 <= far.0 < points.len() - 1
}

/// The thinned stretch. A stretch of at most two points stays. A longer one
/// whose farthest inner point lies further than `epsilon` from the line
/// between its ends is cut there, both parts are thinned, and they are joined
/// at the cut; otherwise only its ends stay. A point that lies further than
/// any tolerance is an inner point (`lemma_farthest_inner`).
pub open spec fn simplified(points: Seq<Point>, epsilon: int) -> Seq<Point>
    decreases points.len(),
{
    if points.len() <= 2 {
        points
    } else {
        let far = farthest(points, points.len() - 1);
        if is_cut(points, epsilon) {
            simplified(points.subrange(0, far.0 + 1), epsilon).drop_last() + simplified(
                points.subrange(far.0, points.len() as int),
                epsilon,
            )
        } else {
            seq![points[0], points.last()]
        }
    }
}

/// The farthest point is an inner point whenever its deviation is positive.
pub proof fn lemma_farthest_inner(points: Seq<Point>, upto: int)
    requires
        points.len() > 0,
    ensures
        farthest(points, upto).1 >= 0,
        farthest(points, upto).1 > 0 ==> 1 <= farthest(points, upto).0 < upto,
        farthest(points, upto).1 == 0 ==> farthest(points, upto).0 == 0,
    decreases upto,
{
    if upto > 1 {
        lemma_farthest_inner(points, upto - 1);
    }
}

/// With tolerance zero exactly the positive deviations exceed it.
pub proof fn lemma_exceeds_zero(dev: int, chord: int)
    ensures
        exceeds(dev, chord, 0) <==> dev > 0,
{
    assert(dev * SUBPIXEL * SUBPIXEL == dev * 0x10_0000) by (nonlinear_arith)
        requires
            SUBPIXEL == 1024,
    ;
    assert(0 * 0 * chord == 0) by (nonlinear_arith);
}

/// Thinning keeps both ends of a stretch.
pub proof fn lemma_simplified_ends(points: Seq<Point>, epsilon: int)
    requires
        points.len() >= 2,
    ensures
        simplified(points, epsilon).len() >= 2,
        simplified(points, epsilon)[0] == points[0],
        simplified(points, epsilon).last() == points.last(),
    decreases points.len(),
{
    if points.len() > 2 {
        let far = farthest(points, points.len() - 1);
        if is_cut(points, epsilon) {
            let left = points.subrange(0, far.0 + 1);
            let right = points.subrange(far.0, points.len() as int);
            lemma_simplified_ends(left, epsilon);
            lemma_simplified_ends(right, epsilon);
            let l = simplified(left, epsilon);
            let r = simplified(right, epsilon);
            assert((l.drop_last() + r).last() == r.last());
            if l.len() > 1 {
                assert((l.drop_last() + r)[0] == l[0]);
            }
        }
    }
}

/// Whether every stretch that thinning looks at has a point off the line
/// between its ends.
pub open spec fn bends_throughout(points: Seq<Point>) -> bool
    decreases points.len(),
{
    if points.len() <= 2 {
        true
    } else {
        let far = farthest(points, points.len() - 1);
        &&& far.1 > 0
        &&& 1 <= far.0 < points.len() - 1
        &&& bends_throughout(points.subrange(0, far.0 + 1))
        &&& bends_throughout(points.subrange(far.0, points.len() as int))
    }
}

/// With tolerance zero an outline that bends throughout comes back unchanged.
pub proof fn lemma_zero_tolerance_keeps_outline(points: Seq<Point>)
    requires
        bends_throughout(points),
    ensures
        simplified(points, 0) == points,
    decreases points.len(),
{
    if points.len() > 2 {
        let far = farthest(points, points.len() - 1);
        let left = points.subrange(0, far.0 + 1);
        let right = points.subrange(far.0, points.len() as int);
        lemma_exceeds_zero(far.1, chord_sq(points[0], points.last()));
        lemma_zero_tolerance_keeps_outline(left);
        lemma_zero_tolerance_keeps_outline(right);
        assert(left.drop_last() + right =~= points);
    }
}

/// Thinning never makes a stretch longer.
pub proof fn lemma_simplified_len(points: Seq<Point>, epsilon: int)
    ensures
        simplified(points, epsilon).len() <= points.len(),
    decreases points.len(),
{
    if points.len() > 2 {
        let far = farthest(points, points.len() - 1);
        if is_cut(points, epsilon) {
            let left = points.subrange(0, far.0 + 1);
            let right = points.subrange(far.0, points.len() as int);
            lemma_simplified_len(left, epsilon);
            lemma_simplified_len(right, epsilon);
            lemma_simplified_ends(left, epsilon);
        }
    }
}

/// With tolerance zero an outline that does not bend throughout loses a point.
pub proof fn lemma_zero_tolerance_drops_from_others(points: Seq<Point>)
    requires
        !bends_throughout(points),
    ensures
        simplified(points, 0) != points,
    decreases points.len(),
{
    let n = points.len() as int;
    let far = farthest(points, n - 1);
    lemma_exceeds_zero(far.1, chord_sq(points[0], points.last()));
    if far.1 > 0 && 1 <= far.0 < n - 1 {
        let left = points.subrange(0, far.0 + 1);
        let right = points.subrange(far.0, n);
        let l = simplified(left, 0);
        let r = simplified(right, 0);
        let out = l.drop_last() + r;
        lemma_simplified_len(left, 0);
        lemma_simplified_len(right, 0);
        lemma_simplified_ends(left, 0);
        lemma_simplified_ends(right, 0);
        if out == points {
            assert(l.len() == far.0 + 1 && r.len() == n - far.0);
            assert(l =~= left) by {
                assert forall|i: int| 0 <= i < l.len() implies l[i] == left[i] by {
                    if i < far.0 {
                        assert(out[i] == l.drop_last()[i]);
                    }
                }
            }
            assert(r =~= right) by {
                assert forall|i: int| 0 <= i < r.len() implies r[i] == right[i] by {
                    assert(out[far.0 + i] == r[i]);
                }
            }
            if !bends_throughout(left) {
                lemma_zero_tolerance_drops_from_others(left);
            } else {
                lemma_zero_tolerance_drops_from_others(right);
            }
        }
    }
}

/// With tolerance zero a point goes only if it lies on the line between the
/// ends of its stretch: a stretch of three points with the middle one off
/// that line comes back unchanged.
pub proof fn lemma_zero_tolerance_keeps_a_bend(a: Point, b: Point, c: Point)
    requires
        deviation(b, a, c) > 0,
    ensures
        simplified(seq![a, b, c], 0) == seq![a, b, c],
{
    let points = seq![a, b, c];
    reveal_with_fuel(farthest, 3);
    assert(farthest(points, 2) == (1int, deviation(b, a, c)));
    assert(bends_throughout(points.subrange(0, 2)));
    assert(bends_throughout(points.subrange(1, 3)));
    assert(bends_throughout(points));
    lemma_zero_tolerance_keeps_outline(points);
}

fn farthest_point(points: &[Point], lo: usize, hi: usize) -> (far: (usize, SquaredDistance))
    requires
        lo < hi < points@.len(),
        in_range(points@),
    ensures
        far.0 == farthest(points@.subrange(lo as int, hi + 1), hi - lo).0,
        far.1.num == farthest(points@.subrange(lo as int, hi + 1), hi - lo).1,
        far.1.den == chord_sq(points@[lo as int], points@[hi as int]),
        far.1.num <= 0x400_0000_0000_0000_0000_0000_0000,
        far.1.den > 0,
        far.1.num > 0 ==> 1 <= far.0 < hi - lo,
{
    let ghost chain = points@.subrange(lo as int, hi + 1);
    let chord = perpendicular_distance(&points[lo], &points[lo], &points[hi]);
    let mut best: u128 = 0;
    let mut index: usize = 0;
    let mut i: usize = 1;
    while i < hi - lo
        invariant
            1 <= i <= hi - lo,
            lo < hi < points@.len(),
            in_range(points@),
            chain == points@.subrange(lo as int, hi + 1),
            index == farthest(chain, i as int).0,
            best == farthest(chain, i as int).1,
            best <= 0x400_0000_0000_0000_0000_0000_0000,
        decreases hi - lo - i,
    {
        assert(chain[i as int] == points@[lo + i]);
        assert(chain[0] == points@[lo as int]);
        assert(chain.last() == points@[hi as int]);
        let d = perpendicular_distance(&points[lo + i], &points[lo], &points[hi]);
        if d.num > best {
            best = d.num;
            index = i;
        }
        i += 1;
    }
    proof {
        lemma_farthest_inner(chain, hi - lo);
    }
    (index, SquaredDistance { num: best, den: chord.den })
}

fn simplify_chain(points: &[Point], lo: usize, hi: usize, epsilon: u128, out: &mut Vec<Point>)
    requires
        lo < hi < points@.len(),
        in_range(points@),
    ensures
        final(out)@ == old(out)@ + simplified(
            points@.subrange(lo as int, hi + 1),
            epsilon as int,
        ).drop_last(),
    decreases hi - lo,
{
    let ghost chain = points@.subrange(lo as int, hi + 1);
    assert(chain[0] == points@[lo as int]);
    assert(chain.last() == points@[hi as int]);
    if hi - lo < 2 {
        out.push(points[lo]);
        assert(chain.drop_last() =~= seq![points@[lo as int]]);
        return ;
    }
    let far = farthest_point(points, lo, hi);
    if exceeds_tolerance(far.1, epsilon) {
        proof {
            assert(far.1.num > 0) by (nonlinear_arith)
                requires
                    exceeds(far.1.num as int, far.1.den as int, epsilon as int),
                    far.1.den > 0,
                    SUBPIXEL == 1024,
            ;
        }
        let mid: usize = lo + far.0;
        let ghost left = chain.subrange(0, far.0 + 1);
        let ghost right = chain.subrange(far.0 as int, chain.len() as int);
        assert(left =~= points@.subrange(lo as int, mid + 1));
        assert(right =~= points@.subrange(mid as int, hi + 1));
        simplify_chain(points, lo, mid, epsilon, out);
        simplify_chain(points, mid, hi, epsilon, out);
        proof {
            lemma_simplified_ends(right, epsilon as int);
            let l = simplified(left, epsilon as int);
            let r = simplified(right, epsilon as int);
            assert((l.drop_last() + r).drop_last() =~= l.drop_last() + r.drop_last());
            assert(out@ =~= old(out)@ + simplified(chain, epsilon as int).drop_last());
        }
    } else {
        out.push(points[lo]);
        assert(seq![chain[0], chain.last()].drop_last() =~= seq![points@[lo as int]]);
    }
}

/// The outline with the points dropped that stay within `epsilon` length
/// units of the line between the ends of their stretch.
pub fn approximate_polygon(points: &[Point], epsilon: u128) -> (thinned: Vec<Point>)
    requires
        in_range(points@),
    ensures
        thinned@ == simplified(points@, epsilon as int),
{
    let n: usize = points.len();
    let mut out: Vec<Point> = Vec::new();
    if n <= 2 {
        let mut i: usize = 0;
        while i < n
            invariant
                i <= n,
                n == points@.len(),
                out@ == points@.take(i as int),
            decreases n - i,
        {
            out.push(points[i]);
            assert(points@.take(i as int).push(points@[i as int]) =~= points@.take(i + 1));
            i += 1;
        }
        assert(points@.take(n as int) == points@);
        return out;
    }
    simplify_chain(points, 0, n - 1, epsilon, &mut out);
    out.push(points[n - 1]);
    proof {
        assert(points@.subrange(0, n as int) == points@);
        lemma_simplified_ends(points@, epsilon as int);
        let s = simplified(points@, epsilon as int);
        assert(s.drop_last().push(s.last()) =~= s);
    }
    out
}

/// The tolerance for an outline of the given perimeter: `ratio` of it,
/// rounded down, and never more than the largest `u128`.
pub open spec fn spec_tolerance(ratio: Ratio, perimeter: int) -> int {
    let exact = (ratio.num * perimeter) / (ratio.den as int);
    if exact > u128::MAX { u128::MAX as int } else { exact }
}

/// The tolerance for an outline of the given perimeter.
pub fn tolerance(ratio: Ratio, perimeter: u128) -> (epsilon: u128)
    requires
        ratio.wf(),
    ensures
        epsilon == spec_tolerance(ratio, perimeter as int),
{
    let num: u128 = ratio.num as u128;
    let den: u128 = ratio.den as u128;
    let whole: u128 = perimeter / den;
    let rest: u128 = perimeter % den;
    assert(rest * num <= 0xffff_ffff * 0xffff_ffff) by (nonlinear_arith)
        requires
            0 <= rest <= 0xffff_ffff,
            0 <= num <= 0xffff_ffff,
    ;
    let tail: u128 = (rest * num) / den;
    proof {
        lemma_split_quotient(perimeter as int, num as int, den as int);
    }
    match whole.checked_mul(num) {
        Some(head) => match head.checked_add(tail) {
            Some(total) => total,
            None => u128::MAX,
        },
        None => u128::MAX,
    }
}

/// Dividing a product: `(p * n) / d` is `(p / d) * n + ((p % d) * n) / d`.
pub proof fn lemma_split_quotient(p: int, n: int, d: int)
    requires
        p >= 0,
        n >= 0,
        d > 0,
    ensures
        (n * p) / d == (p / d) * n + ((p % d) * n) / d,
        (p / d) * n >= 0,
        ((p % d) * n) / d >= 0,
{
    let q = p / d;
    let r = p % d;
    vstd::arithmetic::div_mod::lemma_fundamental_div_mod(p, d);
    vstd::arithmetic::div_mod::lemma_mod_bound(p, d);
    vstd::arithmetic::div_mod::lemma_div_pos_is_pos(p, d);
    assert(n * p == r * n + (q * n) * d) by (nonlinear_arith)
        requires
            p == d * q + r,
    ;
    assert(r * n >= 0 && q * n >= 0) by (nonlinear_arith)
        requires
            r >= 0,
            q >= 0,
            n >= 0,
    ;
    vstd::arithmetic::div_mod::lemma_div_pos_is_pos(r * n, d);
    vstd::arithmetic::div_mod::lemma_hoist_over_denominator(r * n, q * n, d as nat);
}

} // verus!
