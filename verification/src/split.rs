//! Cutting a panel whose outline runs around two touching panels.

use crate::order::{insertion_sorted, lemma_insert_position};
use crate::panel::{min_int, views, Panel, PanelView, Point};
use crate::utils::{
    abs_diff, bounding_rect_from_points, calculate_polygon_area, in_range, spec_bounding_rect,
    spec_double_area,
};
use vstd::prelude::*;

verus! {

/// The extent that pinches are measured against: the smaller of the width
/// and the height of the panel.
pub open spec fn pinch_extent(p: PanelView) -> int {
    min_int(p.width(), p.height())
}

/// Whether the points `i` and `j` of the outline, `i` before `j`, are not
/// next to each other along it and differ by less than a quarter of `extent`
/// on both axes.
pub open spec fn is_pinch(poly: Seq<Point>, extent: int, i: int, j: int) -> bool {
    &&& 0 <= i
    &&& i + 1 < j < poly.len()
    &&& !(i == 0 && j == poly.len() - 1)
    &&& 4 * abs_diff(poly[i].x as int, poly[j].x as int) < extent
    &&& 4 * abs_diff(poly[i].y as int, poly[j].y as int) < extent
}

/// The pinches of the outline from the pair `(i, j)` on, pairs ordered by
/// their first and then their second index.
pub open spec fn pinches_from(poly: Seq<Point>, extent: int, i: int, j: int) -> Seq<(usize, usize)>
    decreases poly.len() - i, poly.len() - j,
{
    if i < 0 || j <= i || i >= poly.len() {
        Seq::empty()
    } else if j >= poly.len() {
        pinches_from(poly, extent, i + 1, i + 2)
    } else if is_pinch(poly, extent, i, j) {
        seq![(i as usize, j as usize)] + pinches_from(poly, extent, i, j + 1)
    } else {
        pinches_from(poly, extent, i, j + 1)
    }
}

/// All pinches of a panel's outline.
pub open spec fn pinches(p: PanelView) -> Seq<(usize, usize)> {
    pinches_from(p.polygon, pinch_extent(p), 0, 1)
}

/// Whether both points of every cut are points of an outline of `len` points.
pub open spec fn cuts_within(cuts: Seq<(usize, usize)>, len: int) -> bool {
    forall|k: int| 0 <= k < cuts.len() ==> (#[trigger] cuts[k]).0 < len && cuts[k].1 < len
}

/// The length of a cut: the sum of what its two points differ by on each axis.
pub open spec fn cut_length(poly: Seq<Point>, cut: (usize, usize)) -> int {
    abs_diff(poly[cut.0 as int].x as int, poly[cut.1 as int].x as int) + abs_diff(
        poly[cut.0 as int].y as int,
        poly[cut.1 as int].y as int,
    )
}

/// The relation by which cuts are ordered: the shorter goes first.
pub open spec fn cut_order(poly: Seq<Point>) -> spec_fn((usize, usize), (usize, usize)) -> bool {
    |a: (usize, usize), b: (usize, usize)| cut_length(poly, a) < cut_length(poly, b)
}

/// Whether a cut of an outline of `len` points leaves more than two points
/// on either side: the side that wraps around holds the points up to the
/// first point of the cut and from its second point on, the other side the
/// points between the two.
pub open spec fn is_valid_cut(len: int, cut: (usize, usize)) -> bool {
    cut.0 < cut.1 < len && len - cut.1 + cut.0 + 1 > 2 && cut.1 - cut.0 - 1 > 2
}

/// Of the first `k` points, those up to the first point of the cut and from
/// its second point on.
pub open spec fn outer_part(poly: Seq<Point>, cut: (usize, usize), k: int) -> Seq<Point>
    decreases k,
{
    if k <= 0 {
        Seq::empty()
    } else {
        let rest = outer_part(poly, cut, k - 1);
        if k - 1 <= cut.0 || k - 1 >= cut.1 {
            rest.push(poly[k - 1])
        } else {
            rest
        }
    }
}

/// Of the first `k` points, those strictly between the two points of the cut.
pub open spec fn inner_part(poly: Seq<Point>, cut: (usize, usize), k: int) -> Seq<Point>
    decreases k,
{
    if k <= 0 {
        Seq::empty()
    } else {
        let rest = inner_part(poly, cut, k - 1);
        if k - 1 <= cut.0 || k - 1 >= cut.1 {
            rest
        } else {
            rest.push(poly[k - 1])
        }
    }
}

/// The panel around an outline: the box around its points, whose right and
/// bottom are the last column and row of that box.
pub open spec fn outline_panel(poly: Seq<Point>) -> PanelView {
    let rect = spec_bounding_rect(poly);
    PanelView {
        x: rect.left as int,
        y: rect.top as int,
        r: rect.spec_right(),
        b: rect.spec_bottom(),
        polygon: poly,
    }
}

/// Whether a part keeps a tenth of the width and of the height of the whole.
pub open spec fn keeps_share(part: PanelView, whole: PanelView) -> bool {
    10 * part.height() >= whole.height() && 10 * part.width() >= whole.width()
}

/// Whether two parts may replace the whole: each keeps its share of both
/// extents, both outlines enclose an area, and the smaller area is at least
/// a tenth of the larger.
pub open spec fn valid_subpanels(whole: PanelView, first: PanelView, second: PanelView) -> bool {
    let a1 = spec_double_area(first.polygon);
    let a2 = spec_double_area(second.polygon);
    &&& keeps_share(first, whole)
    &&& keeps_share(second, whole)
    &&& a1 != 0
    &&& a2 != 0
    &&& 10 * min_int(a1, a2) >= (if a1 >= a2 { a1 } else { a2 })
}

/// Whether the panel is cut along `cut`.
pub open spec fn accepts(p: PanelView, cut: (usize, usize)) -> bool {
    let n = p.polygon.len() as int;
    is_valid_cut(n, cut) && valid_subpanels(
        p,
        outline_panel(outer_part(p.polygon, cut, n)),
        outline_panel(inner_part(p.polygon, cut, n)),
    )
}

/// The first cut from position `k` on along which the panel is cut.
pub open spec fn first_accepted(p: PanelView, cuts: Seq<(usize, usize)>, k: int) -> Option<
    (usize, usize),
>
    decreases cuts.len() - k,
{
    if k < 0 || k >= cuts.len() {
        None
    } else if accepts(p, cuts[k]) {
        Some(cuts[k])
    } else {
        first_accepted(p, cuts, k + 1)
    }
}

/// The cut along which the panel is cut: the shortest pinch that is accepted,
/// of equally short ones the first; none for a panel without an outline.
pub open spec fn chosen_cut(p: PanelView) -> Option<(usize, usize)> {
    if p.polygon.len() == 0 {
        None
    } else {
        first_accepted(p, insertion_sorted(pinches(p), cut_order(p.polygon)), 0)
    }
}

/// The panels that the panel is cut into, each part cut further where it can
/// be; none where the panel is not cut. Both sides of an accepted cut have
/// fewer points than the outline (`lemma_parts_len`), so the test on the
/// lengths always holds.
pub open spec fn split_parts(p: PanelView) -> Option<Seq<PanelView>>
    decreases p.polygon.len(),
{
    let n = p.polygon.len() as int;
    match chosen_cut(p) {
        None => None,
        Some(cut) => {
            let first = outline_panel(outer_part(p.polygon, cut, n));
            let second = outline_panel(inner_part(p.polygon, cut, n));
            if first.polygon.len() < n && second.polygon.len() < n {
                Some(
                    (match split_parts(first) {
                        Some(parts) => parts,
                        None => seq![first],
                    }) + (match split_parts(second) {
                        Some(parts) => parts,
                        None => seq![second],
                    }),
                )
            } else {
                None
            }
        },
    }
}

/// The two sides of a cut share out the points, and each side of a valid cut
/// has fewer points than the outline.
pub proof fn lemma_parts_len(poly: Seq<Point>, cut: (usize, usize), k: int)
    requires
        0 <= k <= poly.len(),
    ensures
        outer_part(poly, cut, k).len() + inner_part(poly, cut, k).len() == k,
        k >= 1 ==> outer_part(poly, cut, k).len() >= 1,
        cut.0 + 1 < cut.1 && k >= cut.0 + 2 ==> inner_part(poly, cut, k).len() >= 1,
    decreases k,
{
    if k > 0 {
        lemma_parts_len(poly, cut, k - 1);
    }
}

/// A panel that is cut is cut into at least two parts.
pub proof fn lemma_split_gives_parts(p: PanelView)
    ensures
        split_parts(p) is Some ==> split_parts(p)->0.len() >= 2,
    decreases p.polygon.len(),
{
    let n = p.polygon.len() as int;
    match chosen_cut(p) {
        None => {},
        Some(cut) => {
            let first = outline_panel(outer_part(p.polygon, cut, n));
            let second = outline_panel(inner_part(p.polygon, cut, n));
            if first.polygon.len() < n && second.polygon.len() < n {
                lemma_split_gives_parts(first);
                lemma_split_gives_parts(second);
            }
        },
    }
}

/// How many points each side of a cut holds among the first `k` points.
pub proof fn lemma_parts_count(poly: Seq<Point>, cut: (usize, usize), k: int)
    requires
        0 <= k <= poly.len(),
        cut.0 < cut.1,
    ensures
        outer_part(poly, cut, k).len() == (if k <= cut.0 + 1 {
            k
        } else if k <= cut.1 {
            cut.0 + 1
        } else {
            cut.0 + 1 + k - cut.1
        }),
        inner_part(poly, cut, k).len() == (if k <= cut.0 + 1 {
            0
        } else if k <= cut.1 {
            k - cut.0 - 1
        } else {
            cut.1 - cut.0 - 1
        }),
    decreases k,
{
    if k > 0 {
        lemma_parts_count(poly, cut, k - 1);
    }
}

/// A cut is valid exactly when its points are points of the outline in
/// order and both of its sides hold more than two points.
pub proof fn lemma_valid_cut_sides(poly: Seq<Point>, cut: (usize, usize))
    requires
        cut.0 < cut.1 < poly.len(),
    ensures
        is_valid_cut(poly.len() as int, cut) <==> outer_part(poly, cut, poly.len() as int).len()
            > 2 && inner_part(poly, cut, poly.len() as int).len() > 2,
{
    lemma_parts_count(poly, cut, poly.len() as int);
}

/// Both sides of a cut hold points of the outline only.
pub proof fn lemma_parts_in_range(poly: Seq<Point>, cut: (usize, usize), k: int)
    requires
        0 <= k <= poly.len(),
        in_range(poly),
    ensures
        in_range(outer_part(poly, cut, k)),
        in_range(inner_part(poly, cut, k)),
    decreases k,
{
    if k > 0 {
        lemma_parts_in_range(poly, cut, k - 1);
    }
}

fn span(a: u32, b: u32) -> (d: i64)
    ensures
        d == abs_diff(a as int, b as int),
{
    if a >= b { (a - b) as i64 } else { (b - a) as i64 }
}

impl Panel {
    /// The panel around an outline.
    pub fn from_outline(polygon: Vec<Point>) -> (p: Panel)
        requires
            in_range(polygon@),
        ensures
            p@ == outline_panel(polygon@),
            p.polygon == polygon,
    {
        let rect = bounding_rect_from_points(polygon.as_slice());
        Panel::from_rect(rect, polygon)
    }

    /// The pinches of the outline.
    pub fn _find_close_dots(&self) -> (dots: Vec<(usize, usize)>)
        ensures
            dots@ == pinches(self@),
            cuts_within(dots@, self.polygon@.len() as int),
    {
        let ghost poly = self.polygon@;
        let wide_w: i64 = self.r as i64 - self.x as i64;
        let wide_h: i64 = self.b as i64 - self.y as i64;
        let w: i64 = if wide_w < 1 { 1 } else { wide_w };
        let h: i64 = if wide_h < 1 { 1 } else { wide_h };
        let extent: i64 = if w <= h { w } else { h };
        let n: usize = self.polygon.len();
        let mut dots: Vec<(usize, usize)> = Vec::new();
        let mut i: usize = 0;
        while i < n
            invariant
                i <= n,
                n == poly.len(),
                poly == self.polygon@,
                extent == pinch_extent(self@),
                dots@ + pinches_from(poly, extent as int, i as int, i + 1) == pinches(self@),
                cuts_within(dots@, n as int),
            decreases n - i,
        {
            let mut j: usize = i + 1;
            while j < n
                invariant
                    i < n,
                    i < j <= n,
                    n == poly.len(),
                    poly == self.polygon@,
                    extent == pinch_extent(self@),
                    dots@ + pinches_from(poly, extent as int, i as int, j as int) == pinches(
                        self@,
                    ),
                    cuts_within(dots@, n as int),
                decreases n - j,
            {
                let ghost rest = pinches_from(poly, extent as int, i as int, j + 1);
                let ghost held = dots@;
                let adjacent: bool = j == i + 1 || (i == 0 && j == n - 1);
                if !adjacent && 4 * span(self.polygon[i].x, self.polygon[j].x) < extent && 4
                    * span(self.polygon[i].y, self.polygon[j].y) < extent {
                    dots.push((i, j));
                    assert(dots@ + rest =~= held + (seq![(i, j)] + rest));
                }
                j += 1;
            }
            i += 1;
        }
        assert(dots@ + Seq::<(usize, usize)>::empty() =~= dots@);
        dots
    }

    /// The cuts ordered by length, the shortest first; equally long cuts
    /// stay in the order they came in.
    pub fn _sort_cuts_by_distance(&self, cuts: Vec<(usize, usize)>) -> (sorted: Vec<
        (usize, usize),
    >)
        requires
            cuts_within(cuts@, self.polygon@.len() as int),
        ensures
            sorted@ == insertion_sorted(cuts@, cut_order(self.polygon@)),
            sorted@.len() == cuts@.len(),
            cuts_within(sorted@, self.polygon@.len() as int),
    {
        let ghost poly = self.polygon@;
        let ghost before = cut_order(poly);
        let mut out: Vec<(usize, usize)> = Vec::new();
        let mut k: usize = 0;
        assert(cuts@.take(0) =~= Seq::<(usize, usize)>::empty());
        while k < cuts.len()
            invariant
                k <= cuts@.len(),
                poly == self.polygon@,
                before == cut_order(poly),
                cuts_within(cuts@, poly.len() as int),
                cuts_within(out@, poly.len() as int),
                out@.len() == k,
                out@ == insertion_sorted(cuts@.take(k as int), before),
            decreases cuts@.len() - k,
        {
            let c = cuts[k];
            let key: i64 = self.cut_len(c);
            let mut pos: usize = out.len();
            while pos > 0 && key < self.cut_len(out[pos - 1])
                invariant
                    pos <= out@.len(),
                    poly == self.polygon@,
                    before == cut_order(poly),
                    cuts_within(out@, poly.len() as int),
                    c.0 < poly.len() && c.1 < poly.len(),
                    key == cut_length(poly, c),
                    forall|m: int| pos <= m < out@.len() ==> before(c, #[trigger] out@[m]),
                decreases pos,
            {
                pos -= 1;
            }
            proof {
                lemma_insert_position(out@, c, before, pos as int);
                assert(cuts@.take(k + 1).drop_last() =~= cuts@.take(k as int));
                assert(cuts@.take(k + 1).last() == c);
            }
            let ghost held = out@;
            out.insert(pos, c);
            assert(cuts_within(out@, poly.len() as int)) by {
                assert forall|m: int| 0 <= m < out@.len() implies (#[trigger] out@[m]).0
                    < poly.len() && out@[m].1 < poly.len() by {
                    if m < pos {
                        assert(out@[m] == held[m]);
                    } else if m > pos {
                        assert(out@[m] == held[m - 1]);
                    }
                }
            }
            k += 1;
        }
        assert(cuts@.take(k as int) =~= cuts@);
        out
    }

    fn cut_len(&self, cut: (usize, usize)) -> (len: i64)
        requires
            cut.0 < self.polygon@.len(),
            cut.1 < self.polygon@.len(),
        ensures
            len == cut_length(self.polygon@, cut),
    {
        span(self.polygon[cut.0].x, self.polygon[cut.1].x) + span(
            self.polygon[cut.0].y,
            self.polygon[cut.1].y,
        )
    }

    /// Whether the cut leaves more than two points on either side.
    pub fn _is_valid_cut(&self, cut: &(usize, usize)) -> (valid: bool)
        ensures
            valid == is_valid_cut(self.polygon@.len() as int, *cut),
    {
        let n: usize = self.polygon.len();
        if !(cut.0 < cut.1 && cut.1 < n) {
            return false;
        }
        n - cut.1 + cut.0 >= 2 && cut.1 - cut.0 > 3
    }

    /// The two sides of the cut: the points up to its first point together
    /// with those from its second point on, and the points between.
    pub fn _split_polygon(&self, cut: &(usize, usize)) -> (sides: (Vec<Point>, Vec<Point>))
        ensures
            sides.0@ == outer_part(self.polygon@, *cut, self.polygon@.len() as int),
            sides.1@ == inner_part(self.polygon@, *cut, self.polygon@.len() as int),
    {
        let mut poly1: Vec<Point> = Vec::new();
        let mut poly2: Vec<Point> = Vec::new();
        let n: usize = self.polygon.len();
        let mut idx: usize = 0;
        while idx < n
            invariant
                idx <= n,
                n == self.polygon@.len(),
                poly1@ == outer_part(self.polygon@, *cut, idx as int),
                poly2@ == inner_part(self.polygon@, *cut, idx as int),
            decreases n - idx,
        {
            if idx <= cut.0 || idx >= cut.1 {
                poly1.push(self.polygon[idx]);
            } else {
                poly2.push(self.polygon[idx]);
            }
            idx += 1;
        }
        (poly1, poly2)
    }

    /// Whether the two parts may replace this panel.
    pub fn _valid_subpanels(&self, panel1: &Panel, panel2: &Panel) -> (valid: bool)
        requires
            in_range(panel1.polygon@),
            in_range(panel2.polygon@),
        ensures
            valid == valid_subpanels(self@, panel1@, panel2@),
    {
        let w: i64 = self.r as i64 - self.x as i64;
        let h: i64 = self.b as i64 - self.y as i64;
        let w: i64 = if w < 1 { 1 } else { w };
        let h: i64 = if h < 1 { 1 } else { h };
        let w1: i64 = panel1.r as i64 - panel1.x as i64;
        let h1: i64 = panel1.b as i64 - panel1.y as i64;
        let w1: i64 = if w1 < 1 { 1 } else { w1 };
        let h1: i64 = if h1 < 1 { 1 } else { h1 };
        let w2: i64 = panel2.r as i64 - panel2.x as i64;
        let h2: i64 = panel2.b as i64 - panel2.y as i64;
        let w2: i64 = if w2 < 1 { 1 } else { w2 };
        let h2: i64 = if h2 < 1 { 1 } else { h2 };
        if 10 * h1 < h || 10 * w1 < w || 10 * h2 < h || 10 * w2 < w {
            return false;
        }
        let area1: u128 = calculate_polygon_area(panel1.polygon.as_slice());
        let area2: u128 = calculate_polygon_area(panel2.polygon.as_slice());
        if area1 == 0 || area2 == 0 {
            return false;
        }
        let lo: u128 = if area1 <= area2 { area1 } else { area2 };
        let hi: u128 = if area1 >= area2 { area1 } else { area2 };
        match lo.checked_mul(10) {
            Some(tenfold) => tenfold >= hi,
            None => true,
        }
    }

    /// Cuts the panel along its shortest accepted pinch and cuts both parts
    /// further where they can be. Returns the parts in order, the side that
    /// holds the start of the outline first, or nothing where the panel is
    /// not cut.
    pub fn split(&self) -> (parts: Option<Vec<Panel>>)
        requires
            in_range(self.polygon@),
        ensures
            match parts {
                Some(list) => split_parts(self@) == Some(views(list@)),
                None => split_parts(self@) is None,
            },
        decreases self.polygon@.len(),
    {
        if self.polygon.len() == 0 {
            return None;
        }
        let close_dots = self._find_close_dots();
        if close_dots.len() == 0 {
            assert(insertion_sorted(close_dots@, cut_order(self.polygon@)).len() == 0);
            return None;
        }
        let cuts = self._sort_cuts_by_distance(close_dots);
        let n: usize = self.polygon.len();
        let mut k: usize = 0;
        while k < cuts.len()
            invariant
                k <= cuts@.len(),
                n == self.polygon@.len(),
                n > 0,
                in_range(self.polygon@),
                cuts@ == insertion_sorted(pinches(self@), cut_order(self.polygon@)),
                first_accepted(self@, cuts@, k as int) == chosen_cut(self@),
            decreases cuts@.len() - k,
        {
            let cut = cuts[k];
            if self._is_valid_cut(&cut) {
                let (poly1, poly2) = self._split_polygon(&cut);
                proof {
                    lemma_parts_in_range(self.polygon@, cut, n as int);
                    lemma_parts_len(self.polygon@, cut, n as int);
                }
                let panel1 = Panel::from_outline(poly1);
                let panel2 = Panel::from_outline(poly2);
                if self._valid_subpanels(&panel1, &panel2) {
                    assert(chosen_cut(self@) == Some(cut));
                    let mut subpanels: Vec<Panel> = Vec::new();
                    match panel1.split() {
                        Some(mut s) => {
                            subpanels.append(&mut s);
                        },
                        None => {
                            subpanels.push(panel1);
                        },
                    }
                    let ghost head = views(subpanels@);
                    match panel2.split() {
                        Some(mut s) => {
                            let ghost tail = views(s@);
                            subpanels.append(&mut s);
                            assert(views(subpanels@) =~= head + tail);
                        },
                        None => {
                            subpanels.push(panel2);
                            assert(views(subpanels@) =~= head + seq![panel2@]);
                        },
                    }
                    return Some(subpanels);
                }
            }
            k += 1;
        }
        None
    }
}

} // verus!
