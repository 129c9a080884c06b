//! Trimming the region that two panel boxes share along a common seam.

use crate::panel::{views, Panel, PanelView};
use vstd::prelude::*;

verus! {

/// The seam along which a pair is trimmed, if any.
pub enum Seam {
    /// The shared region is taller than wide and ends at the first panel's right edge.
    Vertical,
    /// The shared region is wider than tall and ends at the first panel's bottom edge.
    Horizontal,
    /// The boxes do not overlap, or the shared region lines up with neither edge.
    Untouched,
}

/// Which seam the ordered pair `(first, second)` is trimmed along.
pub open spec fn seam_of(first: PanelView, second: PanelView) -> Seam {
    let shared = first.intersection(second);
    if !first.overlaps(second) {
        Seam::Untouched
    } else if shared.width() < shared.height() && first.r == shared.r {
        Seam::Vertical
    } else if shared.width() > shared.height() && first.b == shared.b {
        Seam::Horizontal
    } else {
        Seam::Untouched
    }
}

/// The list after the ordered pair `(i, j)` has been looked at: along a
/// vertical seam the first panel ends where the shared region begins and the
/// second begins where it ends; along a horizontal seam likewise from top to bottom.
pub open spec fn trim_pair(s: Seq<PanelView>, i: int, j: int) -> Seq<PanelView> {
    if i == j || !(0 <= i < s.len()) || !(0 <= j < s.len()) {
        s
    } else {
        let shared = s[i].intersection(s[j]);
        match seam_of(s[i], s[j]) {
            Seam::Vertical => s.update(i, PanelView { r: shared.x, ..s[i] }).update(
                j,
                PanelView { x: shared.r, ..s[j] },
            ),
            Seam::Horizontal => s.update(i, PanelView { b: shared.y, ..s[i] }).update(
                j,
                PanelView { y: shared.b, ..s[j] },
            ),
            Seam::Untouched => s,
        }
    }
}

/// The list after panel `i` has been paired with the panels `j`, `j + 1`, and
/// so on. Trimming keeps the length (`lemma_trim_pair_len`), so the test on it
/// never ends the pairing early.
pub open spec fn trim_from(s: Seq<PanelView>, i: int, j: int) -> Seq<PanelView>
    decreases s.len() - j,
{
    if j >= s.len() || trim_pair(s, i, j).len() != s.len() {
        s
    } else {
        trim_from(trim_pair(s, i, j), i, j + 1)
    }
}

/// The list after the panels `i`, `i + 1`, and so on have each been paired in
/// turn: with every other panel, or only with those after it. The test on the
/// length never ends the pairing early.
pub open spec fn trim_all(s: Seq<PanelView>, i: int, later_only: bool) -> Seq<PanelView>
    decreases s.len() - i,
{
    let start = if later_only { i + 1 } else { 0 };
    if i >= s.len() || trim_from(s, i, start).len() != s.len() {
        s
    } else {
        trim_all(trim_from(s, i, start), i + 1, later_only)
    }
}

/// The result of resolving overlaps on a whole list.
pub open spec fn resolved(s: Seq<PanelView>, later_only: bool) -> Seq<PanelView> {
    trim_all(s, 0, later_only)
}

/// Trimming one pair keeps the length of the list.
pub proof fn lemma_trim_pair_len(s: Seq<PanelView>, i: int, j: int)
    ensures
        trim_pair(s, i, j).len() == s.len(),
{
}

fn trim_one(panels: &mut Vec<Panel>, i: usize, j: usize)
    requires
        i < old(panels)@.len(),
        j < old(panels)@.len(),
    ensures
        views(final(panels)@) == trim_pair(views(old(panels)@), i as int, j as int),
        final(panels)@.len() == old(panels)@.len(),
{
    let ghost before = views(panels@);
    assert(before[i as int] == panels@[i as int]@);
    assert(before[j as int] == panels@[j as int]@);
    if i == j {
        return ;
    }
    let shared = panels[i].overlap_panel(&panels[j]);
    match shared {
        Some(o) => {
            let ow: i64 = o.r as i64 - o.x as i64;
            let oh: i64 = o.b as i64 - o.y as i64;
            assert(ow == o@.width() && oh == o@.height());
            if ow < oh && panels[i].r == o.r {
                panels[i].r = o.x;
                panels[j].x = o.r;
                assert(views(panels@) =~= trim_pair(before, i as int, j as int));
            } else if ow > oh && panels[i].b == o.b {
                panels[i].b = o.y;
                panels[j].y = o.b;
                assert(views(panels@) =~= trim_pair(before, i as int, j as int));
            } else {
                assert(views(panels@) =~= trim_pair(before, i as int, j as int));
            }
        },
        None => {
            assert(views(panels@) =~= trim_pair(before, i as int, j as int));
        },
    }
}

/// Looks at every ordered pair of panels, or with `later_only` at the pairs
/// whose second panel comes after the first, and trims the overlap of each
/// pair that lines up along a seam. Outlines are kept.
pub fn resolve_overlaps(panels: &mut Vec<Panel>, later_only: bool)
    ensures
        final(panels)@.len() == old(panels)@.len(),
        views(final(panels)@) == resolved(views(old(panels)@), later_only),
{
    let n: usize = panels.len();
    let mut i: usize = 0;
    while i < n
        invariant
            i <= n,
            n == panels@.len(),
            n == old(panels)@.len(),
            trim_all(views(panels@), i as int, later_only) == resolved(
                views(old(panels)@),
                later_only,
            ),
        decreases n - i,
    {
        let ghost row_start = views(panels@);
        let mut j: usize = if later_only { i + 1 } else { 0 };
        while j < n
            invariant
                i < n,
                j <= n,
                n == panels@.len(),
                row_start.len() == n,
                trim_from(views(panels@), i as int, j as int) == trim_from(
                    row_start,
                    i as int,
                    if later_only { i + 1 } else { 0 },
                ),
            decreases n - j,
        {
            let ghost cur = views(panels@);
            trim_one(panels, i, j);
            proof {
                lemma_trim_pair_len(cur, i as int, j as int);
            }
            j += 1;
        }
        proof {
            assert(views(panels@).len() == n);
        }
        i += 1;
    }
}

} // verus!
