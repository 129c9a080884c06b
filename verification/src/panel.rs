//! Points, rectangles and panels, and the geometric tests between panels.

use crate::config::{Gutters, Ratio};
use vstd::prelude::*;

verus! {

/// A pixel position.
#[derive(Debug, Clone, Copy, PartialEq, Eq, Structural)]
pub struct Point {
    pub x: u32,
    pub y: u32,
}

/// A rectangle of pixels given by its top-left corner and its size. Its right
/// column is `left + width - 1` and its bottom row `top + height - 1`.
#[derive(Debug, Clone, Copy, PartialEq, Eq, Structural)]
pub struct Rect {
    pub left: i32,
    pub top: i32,
    pub width: u32,
    pub height: u32,
}

/// The top-left corner of a rectangle whose size is still to be given.
#[derive(Debug, Clone, Copy, PartialEq, Eq, Structural)]
pub struct RectPosition {
    pub left: i32,
    pub top: i32,
}

impl RectPosition {
    /// The rectangle at this corner with the given size, which must not be empty.
    pub fn of_size(self, width: u32, height: u32) -> (rect: Rect)
        requires
            width > 0,
            height > 0,
        ensures
            rect == (Rect { left: self.left, top: self.top, width, height }),
            rect.wf(),
    {
        Rect { left: self.left, top: self.top, width, height }
    }
}

impl Rect {
    /// A rectangle covers at least one pixel.
    pub open spec fn wf(&self) -> bool {
        self.width > 0 && self.height > 0
    }

    /// The last column of the rectangle.
    pub open spec fn spec_right(&self) -> int {
        self.left + self.width - 1
    }

    /// The last row of the rectangle.
    pub open spec fn spec_bottom(&self) -> int {
        self.top + self.height - 1
    }

    /// The corner at which a rectangle is to stand.
    pub fn at(x: i32, y: i32) -> (pos: RectPosition)
        ensures
            pos == (RectPosition { left: x, top: y }),
    {
        RectPosition { left: x, top: y }
    }

    /// The first column of the rectangle.
    pub fn left(&self) -> (v: i32)
        ensures
            v == self.left,
    {
        self.left
    }

    /// The first row of the rectangle.
    pub fn top(&self) -> (v: i32)
        ensures
            v == self.top,
    {
        self.top
    }

    /// The number of columns of the rectangle.
    pub fn width(&self) -> (v: u32)
        ensures
            v == self.width,
    {
        self.width
    }

    /// The number of rows of the rectangle.
    pub fn height(&self) -> (v: u32)
        ensures
            v == self.height,
    {
        self.height
    }

    /// The last column of the rectangle.
    pub fn right(&self) -> (v: i32)
        requires
            self.wf(),
            self.spec_right() <= i32::MAX,
        ensures
            v == self.spec_right(),
    {
        (self.left as i64 + self.width as i64 - 1) as i32
    }

    /// The last row of the rectangle.
    pub fn bottom(&self) -> (v: i32)
        requires
            self.wf(),
            self.spec_bottom() <= i32::MAX,
        ensures
            v == self.spec_bottom(),
    {
        (self.top as i64 + self.height as i64 - 1) as i32
    }
}

/// The side of a panel on which a neighbour is looked for.
#[derive(Debug, Clone, Copy, PartialEq, Eq, Structural)]
pub enum Direction {
    Left,
    Top,
    Right,
    Bottom,
}

/// A region of the page: the corners of its box and the outline it was built
/// from. The outline is empty once the box no longer follows one.
#[derive(Debug)]
pub struct Panel {
    pub x: i32,
    pub y: i32,
    pub r: i32,
    pub b: i32,
    pub polygon: Vec<Point>,
}

/// What a panel stands for: four integers and a sequence of points.
pub ghost struct PanelView {
    pub x: int,
    pub y: int,
    pub r: int,
    pub b: int,
    pub polygon: Seq<Point>,
}

impl Clone for Panel {
    fn clone(&self) -> (copy: Self)
        ensures
            copy@ == self@,
    {
        let polygon = self.polygon.clone();
        assert(polygon@ =~= self.polygon@);
        Panel { x: self.x, y: self.y, r: self.r, b: self.b, polygon }
    }
}

impl View for Panel {
    type V = PanelView;

    open spec fn view(&self) -> PanelView {
        PanelView {
            x: self.x as int,
            y: self.y as int,
            r: self.r as int,
            b: self.b as int,
            polygon: self.polygon@,
        }
    }
}

/// The box of a finished panel by corner and size.
#[derive(Debug, Clone, Copy, PartialEq, Eq, Structural)]
pub struct SerializablePanel {
    pub x: i32,
    pub y: i32,
    pub width: i32,
    pub height: i32,
}

/// The greater of two integers.
pub open spec fn max_int(a: int, b: int) -> int {
    if a >= b { a } else { b }
}

/// The lesser of two integers.
pub open spec fn min_int(a: int, b: int) -> int {
    if a <= b { a } else { b }
}

/// The distance of an integer from zero.
pub open spec fn abs_int(a: int) -> int {
    if a >= 0 { a } else { -a }
}

impl PanelView {
    /// Horizontal extent, never less than 1.
    pub open spec fn width(self) -> int {
        max_int(self.r - self.x, 1)
    }

    /// Vertical extent, never less than 1.
    pub open spec fn height(self) -> int {
        max_int(self.b - self.y, 1)
    }

    /// The same box without an outline.
    pub open spec fn bare(self) -> PanelView {
        PanelView { polygon: Seq::empty(), ..self }
    }

    /// Small on a page of `img_w` by `img_h`: narrower than `ratio` of the
    /// page width, or lower than `ratio` of the page height.
    pub open spec fn is_small(self, img_w: int, img_h: int, ratio: Ratio) -> bool {
        self.width() * ratio.den < img_w * ratio.num || self.height() * ratio.den < img_h
            * ratio.num
    }

    /// Whether the two boxes share a row. The one that starts higher is taken
    /// first. Apart rows do not touch vertically; a lower box that ends before
    /// the upper one does lies in its row; otherwise the shared height has to
    /// be at least a third of the smaller height.
    pub open spec fn same_row(self, other: PanelView) -> bool {
        let above = if self.y <= other.y { self } else { other };
        let below = if self.y <= other.y { other } else { self };
        if below.y > above.b {
            false
        } else if below.b < above.b {
            true
        } else {
            3 * (min_int(above.b, below.b) - below.y) >= min_int(above.height(), below.height())
        }
    }

    /// Whether the two boxes overlap in their horizontal extent, edges included.
    pub open spec fn same_col(self, other: PanelView) -> bool {
        other.x <= self.r && other.r >= self.x
    }

    /// The column of the centre pixel: the left edge plus half the width, rounded down.
    pub open spec fn center_x(self) -> int {
        self.x + self.width() / 2
    }

    /// The row of the centre pixel: the top edge plus half the height, rounded down.
    pub open spec fn center_y(self) -> int {
        self.y + self.height() / 2
    }

    /// Centre pixels no further apart, on either axis, than three quarters of
    /// the summed extents on that axis.
    pub open spec fn is_close(self, other: PanelView) -> bool {
        4 * abs_int(self.center_x() - other.center_x()) <= 3 * (self.width() + other.width())
            && 4 * abs_int(self.center_y() - other.center_y()) <= 3 * (self.height()
            + other.height())
    }

    /// Whether this box holds `other`, where each side of `other` may stick
    /// out by three tenths of the extent of `other` on that axis. The far
    /// sides are taken at corner plus extent.
    pub open spec fn contains(self, other: PanelView) -> bool {
        let ow = other.width();
        let oh = other.height();
        &&& 10 * (other.x - self.x) + 3 * ow >= 0
        &&& 10 * ((self.x + self.width()) - (other.x + ow)) + 3 * ow >= 0
        &&& 10 * (other.y - self.y) + 3 * oh >= 0
        &&& 10 * ((self.y + self.height()) - (other.y + oh)) + 3 * oh >= 0
    }

    /// The box common to both, which may be empty or inverted.
    pub open spec fn intersection(self, other: PanelView) -> PanelView {
        PanelView {
            x: max_int(self.x, other.x),
            y: max_int(self.y, other.y),
            r: min_int(self.r, other.r),
            b: min_int(self.b, other.b),
            polygon: Seq::empty(),
        }
    }

    /// Whether the two boxes share a region of positive width and height.
    pub open spec fn overlaps(self, other: PanelView) -> bool {
        let i = self.intersection(other);
        i.x < i.r && i.y < i.b
    }

    /// The smallest box around both, without an outline.
    pub open spec fn merge(self, other: PanelView) -> PanelView {
        PanelView {
            x: min_int(self.x, other.x),
            y: min_int(self.y, other.y),
            r: max_int(self.r, other.r),
            b: max_int(self.b, other.b),
            polygon: Seq::empty(),
        }
    }

    /// Whether `other` lies on the given side of this box and in its row
    /// (for left and right) or column (for top and bottom).
    pub open spec fn faces(self, direction: Direction, other: PanelView) -> bool {
        match direction {
            Direction::Left => other.r <= self.x && other.same_row(self),
            Direction::Right => other.x >= self.r && other.same_row(self),
            Direction::Top => other.b <= self.y && self.same_col(other),
            Direction::Bottom => other.y >= self.b && self.same_col(other),
        }
    }

    /// The edge of a neighbour that looks at this box from the given side.
    pub open spec fn facing_edge(self, direction: Direction) -> int {
        match direction {
            Direction::Left => self.r,
            Direction::Right => self.x,
            Direction::Top => self.b,
            Direction::Bottom => self.y,
        }
    }
}

/// Whether `k` is the neighbour of `p` among `panels` on the given side: it
/// faces `p`, no facing panel is nearer, and of equally near ones it is the
/// last in the sequence for left and top, the first for right and bottom.
pub open spec fn is_neighbour(p: PanelView, direction: Direction, panels: Seq<PanelView>, k: int)
    -> bool {
    let edge = panels[k].facing_edge(direction);
    &&& 0 <= k < panels.len()
    &&& p.faces(direction, panels[k])
    &&& match direction {
        Direction::Left | Direction::Top => {
            &&& forall|j: int|
                0 <= j < panels.len() && #[trigger] p.faces(direction, panels[j])
                    ==> panels[j].facing_edge(direction) <= edge
            &&& forall|j: int|
                k < j < panels.len() && #[trigger] p.faces(direction, panels[j])
                    ==> panels[j].facing_edge(direction) < edge
        },
        Direction::Right | Direction::Bottom => {
            &&& forall|j: int|
                0 <= j < panels.len() && #[trigger] p.faces(direction, panels[j])
                    ==> panels[j].facing_edge(direction) >= edge
            &&& forall|j: int|
                0 <= j < k && #[trigger] p.faces(direction, panels[j])
                    ==> panels[j].facing_edge(direction) > edge
        },
    }
}

/// Whether no panel of `panels` faces `p` on the given side.
pub open spec fn no_neighbour(p: PanelView, direction: Direction, panels: Seq<PanelView>) -> bool {
    forall|j: int| 0 <= j < panels.len() ==> !#[trigger] p.faces(direction, panels[j])
}

/// The boxes and outlines that a list of panels stands for.
pub open spec fn views(panels: Seq<Panel>) -> Seq<PanelView> {
    panels.map_values(|p: Panel| p@)
}

/// The width and the height of a box are at least 1, whatever its corners.
pub proof fn lemma_extent_positive(p: PanelView)
    ensures
        p.width() >= 1,
        p.height() >= 1,
{
}

/// The box around two panels does not depend on which of them is asked.
pub proof fn lemma_merge_commutes(a: PanelView, b: PanelView)
    ensures
        a.merge(b) == b.merge(a),
{
}

/// Whether two boxes give the same answer to `same_row` whichever is asked
/// first: always where their tops differ; with equal tops where both have
/// positive height, both have negative height, or their bottoms are equal.
pub open spec fn row_test_settled(a: PanelView, b: PanelView) -> bool {
    a.y == b.y ==> (a.b == b.b || (a.y < a.b && b.y < b.b) || (a.b < a.y && b.b < b.y))
}

/// Sharing a row does not depend on which of the two boxes is asked.
pub proof fn lemma_same_row_symmetric(a: PanelView, b: PanelView)
    requires
        row_test_settled(a, b),
    ensures
        a.same_row(b) == b.same_row(a),
{
}

/// With equal tops, sharing a row depends on which box is asked exactly
/// where `row_test_settled` fails.
pub proof fn lemma_same_row_asymmetric(a: PanelView, b: PanelView)
    requires
        !row_test_settled(a, b),
    ensures
        a.same_row(b) != b.same_row(a),
{
}

impl Panel {
    /// A panel with the given corners and outline.
    pub fn new(x: i32, y: i32, r: i32, b: i32, polygon: Vec<Point>) -> (p: Self)
        ensures
            p.x == x,
            p.y == y,
            p.r == r,
            p.b == b,
            p.polygon == polygon,
    {
        Panel { x, y, r, b, polygon }
    }

    /// A panel on the pixels of `rect`: its right and bottom are the last
    /// column and row of the rectangle.
    pub fn from_rect(rect: Rect, polygon: Vec<Point>) -> (p: Self)
        requires
            rect.wf(),
            rect.spec_right() <= i32::MAX,
            rect.spec_bottom() <= i32::MAX,
        ensures
            p.x == rect.left,
            p.y == rect.top,
            p.r == rect.spec_right(),
            p.b == rect.spec_bottom(),
            p.polygon == polygon,
    {
        Panel { x: rect.left(), y: rect.top(), r: rect.right(), b: rect.bottom(), polygon }
    }

    fn wide_width(&self) -> (w: i64)
        ensures
            w == self@.width(),
    {
        let d: i64 = self.r as i64 - self.x as i64;
        if d < 1 { 1 } else { d }
    }

    fn wide_height(&self) -> (h: i64)
        ensures
            h == self@.height(),
    {
        let d: i64 = self.b as i64 - self.y as i64;
        if d < 1 { 1 } else { d }
    }

    /// The horizontal extent of the box, never less than 1.
    pub fn width(&self) -> (w: i32)
        requires
            self.r - self.x <= i32::MAX,
        ensures
            w == self@.width(),
            w >= 1,
    {
        self.wide_width() as i32
    }

    /// The vertical extent of the box, never less than 1.
    pub fn height(&self) -> (h: i32)
        requires
            self.b - self.y <= i32::MAX,
        ensures
            h == self@.height(),
            h >= 1,
    {
        self.wide_height() as i32
    }

    /// The rectangle at the panel's corner with the panel's width and height.
    pub fn to_rect(&self) -> (rect: Rect)
        requires
            self.r - self.x <= i32::MAX,
            self.b - self.y <= i32::MAX,
        ensures
            rect.left == self.x,
            rect.top == self.y,
            rect.width == self@.width(),
            rect.height == self@.height(),
            rect.wf(),
    {
        Rect::at(self.x, self.y).of_size(self.width() as u32, self.height() as u32)
    }

    /// Whether the panel is small on a page of `img_w` by `img_h`: narrower than
    /// `ratio` of the page width, or lower than `ratio` of the page height.
    pub fn is_small(&self, img_w: i32, img_h: i32, ratio: Ratio) -> (small: bool)
        ensures
            small == self@.is_small(img_w as int, img_h as int, ratio),
    {
        let w: i128 = self.wide_width() as i128;
        let h: i128 = self.wide_height() as i128;
        let num: i128 = ratio.num as i128;
        let den: i128 = ratio.den as i128;
        assert(w * den <= 0x1_0000_0000 * 0x1_0000_0000 && w * den >= 0) by (nonlinear_arith)
            requires
                1 <= w <= 0x1_0000_0000,
                0 <= den <= 0x1_0000_0000,
        ;
        assert(h * den <= 0x1_0000_0000 * 0x1_0000_0000 && h * den >= 0) by (nonlinear_arith)
            requires
                1 <= h <= 0x1_0000_0000,
                0 <= den <= 0x1_0000_0000,
        ;
        let iw: i128 = img_w as i128;
        let ih: i128 = img_h as i128;
        assert(-0x1_0000_0000 * 0x1_0000_0000 <= iw * num <= 0x1_0000_0000 * 0x1_0000_0000)
            by (nonlinear_arith)
            requires
                -0x1_0000_0000 <= iw <= 0x1_0000_0000,
                0 <= num <= 0x1_0000_0000,
        ;
        assert(-0x1_0000_0000 * 0x1_0000_0000 <= ih * num <= 0x1_0000_0000 * 0x1_0000_0000)
            by (nonlinear_arith)
            requires
                -0x1_0000_0000 <= ih <= 0x1_0000_0000,
                0 <= num <= 0x1_0000_0000,
        ;
        w * den < iw * num || h * den < ih * num
    }

    /// Whether the two panels share a row.
    pub fn same_row(&self, other: &Panel) -> (same: bool)
        ensures
            same == self@.same_row(other@),
    {
        let (above, below) = if self.y <= other.y { (self, other) } else { (other, self) };
        if below.y > above.b {
            return false;
        }
        if below.b < above.b {
            return true;
        }
        let shared: i64 = above.b as i64 - below.y as i64;
        let ha: i64 = above.wide_height();
        let hb: i64 = below.wide_height();
        let min_h: i64 = if ha <= hb { ha } else { hb };
        3 * shared >= min_h
    }

    /// Whether the centre pixels of the two panels are no further apart, on
    /// either axis, than three quarters of their summed extents on that axis.
    pub fn is_close(&self, other: &Panel) -> (close: bool)
        ensures
            close == self@.is_close(other@),
    {
        let w1: i64 = self.wide_width();
        let h1: i64 = self.wide_height();
        let w2: i64 = other.wide_width();
        let h2: i64 = other.wide_height();
        let c1x: i64 = self.x as i64 + w1 / 2;
        let c1y: i64 = self.y as i64 + h1 / 2;
        let c2x: i64 = other.x as i64 + w2 / 2;
        let c2y: i64 = other.y as i64 + h2 / 2;
        let dx: i64 = if c1x >= c2x { c1x - c2x } else { c2x - c1x };
        let dy: i64 = if c1y >= c2y { c1y - c2y } else { c2y - c1y };
        4 * dx <= 3 * (w1 + w2) && 4 * dy <= 3 * (h1 + h2)
    }

    /// Whether this panel holds `other`, where each side of `other` may stick out
    /// by three tenths of its extent.
    pub fn contains(&self, other: &Panel) -> (inside: bool)
        ensures
            inside == self@.contains(other@),
    {
        let sw: i64 = self.wide_width();
        let sh: i64 = self.wide_height();
        let ow: i64 = other.wide_width();
        let oh: i64 = other.wide_height();
        let sx: i64 = self.x as i64;
        let sy: i64 = self.y as i64;
        let ox: i64 = other.x as i64;
        let oy: i64 = other.y as i64;
        10 * (ox - sx) + 3 * ow >= 0 && 10 * ((sx + sw) - (ox + ow)) + 3 * ow >= 0 && 10 * (oy
            - sy) + 3 * oh >= 0 && 10 * ((sy + sh) - (oy + oh)) + 3 * oh >= 0
    }

    /// The region shared with `other`, if it has positive width and height.
    pub fn overlap_panel(&self, other: &Panel) -> (shared: Option<Panel>)
        ensures
            shared is Some <==> self@.overlaps(other@),
            shared is Some ==> shared->0@ == self@.intersection(other@),
    {
        let x: i32 = if self.x >= other.x { self.x } else { other.x };
        let y: i32 = if self.y >= other.y { self.y } else { other.y };
        let r: i32 = if self.r <= other.r { self.r } else { other.r };
        let b: i32 = if self.b <= other.b { self.b } else { other.b };
        if x < r && y < b {
            Some(Panel::new(x, y, r, b, Vec::new()))
        } else {
            None
        }
    }

    /// The smallest box around both panels. The outline is dropped.
    pub fn merge(&self, other: &Panel) -> (both: Panel)
        ensures
            both@ == self@.merge(other@),
    {
        let x: i32 = if self.x <= other.x { self.x } else { other.x };
        let y: i32 = if self.y <= other.y { self.y } else { other.y };
        let r: i32 = if self.r >= other.r { self.r } else { other.r };
        let b: i32 = if self.b >= other.b { self.b } else { other.b };
        Panel::new(x, y, r, b, Vec::new())
    }

    fn faces(&self, direction: Direction, other: &Panel) -> (f: bool)
        ensures
            f == self@.faces(direction, other@),
    {
        match direction {
            Direction::Left => other.r <= self.x && other.same_row(self),
            Direction::Right => other.x >= self.r && other.same_row(self),
            Direction::Top => other.b <= self.y && other.x <= self.r && other.r >= self.x,
            Direction::Bottom => other.y >= self.b && other.x <= self.r && other.r >= self.x,
        }
    }

    fn facing_edge(&self, direction: Direction) -> (e: i32)
        ensures
            e == self@.facing_edge(direction),
    {
        match direction {
            Direction::Left => self.r,
            Direction::Right => self.x,
            Direction::Top => self.b,
            Direction::Bottom => self.y,
        }
    }

    /// The nearest panel of `panels` on the given side of this one, if any
    /// faces it there.
    pub fn find_neighbour_panel<'a>(
        &self,
        direction: Direction,
        panels: &'a [Panel],
        _gutters: &Gutters,
    ) -> (found: Option<&'a Panel>)
        ensures
            found is None <==> no_neighbour(self@, direction, views(panels@)),
            found is Some ==> exists|k: int|
                is_neighbour(self@, direction, views(panels@), k) && *found->0
                    == #[trigger] panels@[k],
    {
        let towards_low: bool = match direction {
            Direction::Left | Direction::Top => true,
            Direction::Right | Direction::Bottom => false,
        };
        let mut best: Option<usize> = None;
        let mut i: usize = 0;
        while i < panels.len()
            invariant
                i <= panels.len(),
                towards_low == (direction == Direction::Left || direction == Direction::Top),
                best is None <==> no_neighbour(self@, direction, views(panels@).take(i as int)),
                best is Some ==> best->0 < i && is_neighbour(
                    self@,
                    direction,
                    views(panels@).take(i as int),
                    best->0 as int,
                ),
            decreases panels.len() - i,
        {
            let cand = &panels[i];
            let ghost before = views(panels@).take(i as int);
            let ghost after = views(panels@).take(i + 1);
            assert(forall|j: int| 0 <= j < i ==> before[j] == after[j]);
            assert(after[i as int] == panels@[i as int]@);
            if let Some(k) = best {
                assert(before[k as int] == panels@[k as int]@);
            }
            if self.faces(direction, cand) {
                let e: i32 = cand.facing_edge(direction);
                let takes: bool = match best {
                    None => true,
                    Some(k) => {
                        let cur: i32 = panels[k].facing_edge(direction);
                        if towards_low { e >= cur } else { e < cur }
                    },
                };
                if takes {
                    best = Some(i);
                }
                assert(self@.faces(direction, after[i as int]));
            }
            i += 1;
            assert(best is None <==> no_neighbour(self@, direction, after));
            assert(best is Some ==> is_neighbour(self@, direction, after, best->0 as int));
        }
        assert(views(panels@).take(i as int) == views(panels@));
        match best {
            None => None,
            Some(k) => Some(&panels[k]),
        }
    }
}

} // verus!
