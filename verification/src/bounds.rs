//! How far the coordinates of panels can move through the stages: every
//! stage keeps the panels of a page within reach of the page.

use crate::config::{Gutters, Ratio};
use crate::contain::{absorb, contained_merged, scan_pass, scan_row};
use crate::expand::{edge_from_layout, gutter_offset, layout_extreme, own_edge};
use crate::group::{gather, large_only, regroup};
use crate::order::{insert_sorted, insertion_sorted};
use crate::overlap::{trim_all, trim_from, trim_pair};
use crate::panel::{views, Direction, Panel, PanelView, Point};
use crate::simplify::{farthest, is_cut, simplified};
use crate::split::{
    chosen_cut, inner_part, lemma_parts_in_range, outer_part, outline_panel, split_parts,
};
use crate::utils::{greatest, in_range, lemma_span_attained, lemma_span_bounds, MAX_COORD};
use vstd::prelude::*;

verus! {

/// Whether a panel lies on a page with coordinates up to `MAX_COORD`: its
/// edges on the page or one pixel before it, and its outline on the page.
pub open spec fn sound(p: PanelView) -> bool {
    &&& -1 <= p.x <= MAX_COORD
    &&& -1 <= p.y <= MAX_COORD
    &&& -1 <= p.r <= MAX_COORD
    &&& -1 <= p.b <= MAX_COORD
    &&& in_range(p.polygon)
}

/// Whether every panel of the list is sound.
pub open spec fn all_sound(s: Seq<PanelView>) -> bool {
    forall|k: int| 0 <= k < s.len() ==> sound(#[trigger] s[k])
}

/// Whether all four edges of a panel lie no further than `margin` outside
/// the reach of sound panels.
pub open spec fn spread(p: PanelView, margin: int) -> bool {
    &&& -1 - margin <= p.x <= MAX_COORD + margin
    &&& -1 - margin <= p.y <= MAX_COORD + margin
    &&& -1 - margin <= p.r <= MAX_COORD + margin
    &&& -1 - margin <= p.b <= MAX_COORD + margin
}

/// Whether every panel of the list lies within `margin` of the reach of sound panels.
pub open spec fn all_spread(s: Seq<PanelView>, margin: int) -> bool {
    forall|k: int| 0 <= k < s.len() ==> spread(#[trigger] s[k], margin)
}

/// Whether every element of `out` is an element of `s`.
pub open spec fn drawn_from<T>(out: Seq<T>, s: Seq<T>) -> bool {
    forall|k: int| 0 <= k < out.len() ==> s.contains(#[trigger] out[k])
}

/// A list drawn from sound panels is sound.
pub proof fn lemma_drawn_sound(out: Seq<PanelView>, s: Seq<PanelView>)
    requires
        drawn_from(out, s),
        all_sound(s),
    ensures
        all_sound(out),
{
    assert forall|k: int| 0 <= k < out.len() implies sound(#[trigger] out[k]) by {
        assert(s.contains(out[k]));
        let m = choose|m: int| 0 <= m < s.len() && s[m] == out[k];
        assert(sound(s[m]));
    }
}

/// A list drawn from panels near the page is as near to the page.
pub proof fn lemma_drawn_spread(out: Seq<PanelView>, s: Seq<PanelView>, margin: int)
    requires
        drawn_from(out, s),
        all_spread(s, margin),
    ensures
        all_spread(out, margin),
{
    assert forall|k: int| 0 <= k < out.len() implies spread(#[trigger] out[k], margin) by {
        assert(s.contains(out[k]));
        let m = choose|m: int| 0 <= m < s.len() && s[m] == out[k];
        assert(spread(s[m], margin));
    }
}

/// Thinning an outline keeps it on the page.
pub proof fn lemma_simplified_in_range(points: Seq<Point>, epsilon: int)
    requires
        in_range(points),
    ensures
        in_range(simplified(points, epsilon)),
    decreases points.len(),
{
    if points.len() > 2 {
        let far = farthest(points, points.len() - 1);
        if is_cut(points, epsilon) {
            let left = points.subrange(0, far.0 + 1);
            let right = points.subrange(far.0, points.len() as int);
            assert(in_range(left)) by {
                assert forall|i: int| 0 <= i < left.len() implies (#[trigger] left[i]).x
                    <= MAX_COORD && left[i].y <= MAX_COORD by {
                    assert(left[i] == points[i]);
                }
            }
            assert(in_range(right)) by {
                assert forall|i: int| 0 <= i < right.len() implies (#[trigger] right[i]).x
                    <= MAX_COORD && right[i].y <= MAX_COORD by {
                    assert(right[i] == points[far.0 + i]);
                }
            }
            lemma_simplified_in_range(left, epsilon);
            lemma_simplified_in_range(right, epsilon);
            crate::simplify::lemma_simplified_ends(left, epsilon);
            crate::simplify::lemma_simplified_ends(right, epsilon);
            let l = simplified(left, epsilon);
            let r = simplified(right, epsilon);
            let out = l.drop_last() + r;
            assert forall|i: int| 0 <= i < out.len() implies (#[trigger] out[i]).x <= MAX_COORD
                && out[i].y <= MAX_COORD by {
                if i < l.len() - 1 {
                    assert(out[i] == l[i]);
                } else {
                    assert(out[i] == r[i - (l.len() - 1)]);
                }
            }
        } else {
            let out = seq![points[0], points.last()];
            assert forall|i: int| 0 <= i < out.len() implies (#[trigger] out[i]).x <= MAX_COORD
                && out[i].y <= MAX_COORD by {
                assert(points[0].x <= MAX_COORD);
                assert(points[points.len() - 1].x <= MAX_COORD);
            }
        }
    }
}

/// The panel around an outline on the page is sound.
pub proof fn lemma_outline_panel_sound(poly: Seq<Point>)
    requires
        in_range(poly),
    ensures
        sound(outline_panel(poly)),
        outline_panel(poly).polygon == poly,
{
    if poly.len() > 0 {
        lemma_span_attained(poly, false);
        lemma_span_attained(poly, true);
        lemma_span_bounds(poly, false, 0);
        lemma_span_bounds(poly, true, 0);
        let kx = choose|k: int|
            0 <= k < poly.len() && #[trigger] crate::utils::coord(poly[k], false) == greatest(
                poly,
                false,
            );
        let ky = choose|k: int|
            0 <= k < poly.len() && #[trigger] crate::utils::coord(poly[k], true) == greatest(
                poly,
                true,
            );
        assert(poly[kx].x <= MAX_COORD);
        assert(poly[ky].y <= MAX_COORD);
        assert(poly[0].x <= MAX_COORD);
        assert(poly[0].y <= MAX_COORD);
    }
}

/// Gathering keeps sound panels sound.
pub proof fn lemma_gather_sound(
    s: Seq<PanelView>,
    j: int,
    big: PanelView,
    img_w: int,
    img_h: int,
    ratio: Ratio,
)
    requires
        all_sound(s),
        sound(big),
    ensures
        all_sound(gather(s, j, big, img_w, img_h, ratio).0),
        sound(gather(s, j, big, img_w, img_h, ratio).1),
    decreases s.len(), s.len() - j,
{
    if j < 0 || j >= s.len() {
    } else if s[j].is_small(img_w, img_h, ratio) && s[j].is_close(big) {
        let cut = s.remove(j);
        assert(all_sound(cut)) by {
            assert forall|k: int| 0 <= k < cut.len() implies sound(#[trigger] cut[k]) by {
                if k < j {
                    assert(cut[k] == s[k]);
                } else {
                    assert(cut[k] == s[k + 1]);
                }
            }
        }
        assert(sound(s[j]));
        lemma_gather_sound(cut, j, big.merge(s[j]), img_w, img_h, ratio);
    } else {
        lemma_gather_sound(s, j + 1, big, img_w, img_h, ratio);
    }
}

/// Merging small panels keeps sound panels sound.
pub proof fn lemma_regroup_sound(
    s: Seq<PanelView>,
    i: int,
    added: Seq<PanelView>,
    img_w: int,
    img_h: int,
    ratio: Ratio,
)
    requires
        all_sound(s),
        all_sound(added),
    ensures
        all_sound(regroup(s, i, added, img_w, img_h, ratio)),
    decreases s.len() - i,
{
    if i < 0 || i >= s.len() {
        assert forall|k: int| 0 <= k < (s + added).len() implies sound(
            #[trigger] (s + added)[k],
        ) by {
            if k < s.len() {
                assert((s + added)[k] == s[k]);
            } else {
                assert((s + added)[k] == added[k - s.len()]);
            }
        }
    } else if !s[i].is_small(img_w, img_h, ratio) {
        lemma_regroup_sound(s, i + 1, added, img_w, img_h, ratio);
    } else {
        let g = gather(s, i + 1, s[i].bare(), img_w, img_h, ratio);
        assert(sound(s[i]));
        assert(sound(s[i].bare()));
        lemma_gather_sound(s, i + 1, s[i].bare(), img_w, img_h, ratio);
        if i < g.0.len() <= s.len() {
            let rest = g.0.remove(i);
            assert(all_sound(rest)) by {
                assert forall|k: int| 0 <= k < rest.len() implies sound(#[trigger] rest[k]) by {
                    if k < i {
                        assert(rest[k] == g.0[k]);
                    } else {
                        assert(rest[k] == g.0[k + 1]);
                    }
                }
            }
            let noted = if g.2 && !g.1.is_small(img_w, img_h, ratio) {
                added.push(g.1)
            } else {
                added
            };
            assert(all_sound(noted)) by {
                assert forall|k: int| 0 <= k < noted.len() implies sound(#[trigger] noted[k]) by {
                    if k < added.len() {
                        assert(noted[k] == added[k]);
                    }
                }
            }
            lemma_regroup_sound(rest, i, noted, img_w, img_h, ratio);
        } else {
            assert forall|k: int| 0 <= k < (s + added).len() implies sound(
                #[trigger] (s + added)[k],
            ) by {
                if k < s.len() {
                    assert((s + added)[k] == s[k]);
                } else {
                    assert((s + added)[k] == added[k - s.len()]);
                }
            }
        }
    }
}

/// What is left of a list after the small panels are dropped is drawn from it.
pub proof fn lemma_large_only_drawn(s: Seq<PanelView>, img_w: int, img_h: int, ratio: Ratio)
    ensures
        drawn_from(large_only(s, img_w, img_h, ratio), s),
    decreases s.len(),
{
    let out = large_only(s, img_w, img_h, ratio);
    if s.len() > 0 {
        let front = large_only(s.drop_last(), img_w, img_h, ratio);
        lemma_large_only_drawn(s.drop_last(), img_w, img_h, ratio);
        assert forall|k: int| 0 <= k < out.len() implies s.contains(#[trigger] out[k]) by {
            if k < front.len() {
                assert(out[k] == front[k]);
                assert(s.drop_last().contains(front[k]));
                let m = choose|m: int|
                    0 <= m < s.drop_last().len() && s.drop_last()[m] == front[k];
                assert(s[m] == out[k]);
            } else {
                assert(s[s.len() - 1] == out[k]);
            }
        }
    }
}

/// The parts that a panel with an outline on the page is cut into are sound.
pub proof fn lemma_split_sound(p: PanelView)
    requires
        in_range(p.polygon),
    ensures
        split_parts(p) is Some ==> all_sound(split_parts(p)->0),
    decreases p.polygon.len(),
{
    let n = p.polygon.len() as int;
    match chosen_cut(p) {
        None => {},
        Some(cut) => {
            let first = outline_panel(outer_part(p.polygon, cut, n));
            let second = outline_panel(inner_part(p.polygon, cut, n));
            if first.polygon.len() < n && second.polygon.len() < n {
                lemma_parts_in_range(p.polygon, cut, n);
                lemma_outline_panel_sound(outer_part(p.polygon, cut, n));
                lemma_outline_panel_sound(inner_part(p.polygon, cut, n));
                lemma_split_sound(first);
                lemma_split_sound(second);
                let a = match split_parts(first) {
                    Some(parts) => parts,
                    None => seq![first],
                };
                let b = match split_parts(second) {
                    Some(parts) => parts,
                    None => seq![second],
                };
                assert(all_sound(a));
                assert(all_sound(b));
                assert forall|k: int| 0 <= k < (a + b).len() implies sound(
                    #[trigger] (a + b)[k],
                ) by {
                    if k < a.len() {
                        assert((a + b)[k] == a[k]);
                    } else {
                        assert((a + b)[k] == b[k - a.len()]);
                    }
                }
            }
        },
    }
}

/// One panel taking in another keeps sound panels sound.
pub proof fn lemma_absorb_sound(s: Seq<PanelView>, i: int, j: int)
    requires
        all_sound(s),
        0 <= i < s.len(),
        0 <= j < s.len(),
        i != j,
    ensures
        all_sound(absorb(s, i, j)),
{
    let out = absorb(s, i, j);
    assert(sound(s[i]) && sound(s[j]));
    assert forall|k: int| 0 <= k < out.len() implies sound(#[trigger] out[k]) by {
        let src = if k < j { k } else { k + 1 };
        if src != i {
            assert(out[k] == s[src]);
        }
    }
}

/// One panel's look at a sound list leaves a sound list.
pub proof fn lemma_scan_row_sound(s: Seq<PanelView>, i: int, j: int)
    requires
        all_sound(s),
    ensures
        all_sound(scan_row(s, i, j).0),
    decreases s.len(), s.len() - j,
{
    if !(0 <= i < s.len()) || j < 0 || j >= s.len() {
    } else if i == j {
        lemma_scan_row_sound(s, i, j + 1);
    } else if s[i].contains(s[j]) {
        lemma_absorb_sound(s, i, j);
        lemma_scan_row_sound(absorb(s, i, j), if j < i { i - 1 } else { i }, j);
    } else {
        lemma_scan_row_sound(s, i, j + 1);
    }
}

/// A pass over a sound list leaves a sound list.
pub proof fn lemma_scan_pass_sound(s: Seq<PanelView>, i: int)
    requires
        all_sound(s),
    ensures
        all_sound(scan_pass(s, i).0),
    decreases s.len() - i,
{
    if i < 0 || i >= s.len() {
    } else {
        let row = scan_row(s, i, 0);
        lemma_scan_row_sound(s, i, 0);
        if 0 <= row.1 < row.0.len() && row.0.len() - row.1 <= s.len() - i {
            lemma_scan_pass_sound(row.0, row.1 + 1);
        }
    }
}

/// Merging contained panels keeps sound panels sound.
pub proof fn lemma_contained_sound(s: Seq<PanelView>)
    requires
        all_sound(s),
    ensures
        all_sound(contained_merged(s)),
    decreases s.len(),
{
    let pass = scan_pass(s, 0);
    lemma_scan_pass_sound(s, 0);
    if pass.1 && pass.0.len() < s.len() {
        lemma_contained_sound(pass.0);
    }
}

/// Trimming one pair keeps the panels as near to the page as they were.
pub proof fn lemma_trim_pair_spread(s: Seq<PanelView>, i: int, j: int, margin: int)
    requires
        all_spread(s, margin),
    ensures
        all_spread(trim_pair(s, i, j), margin),
        trim_pair(s, i, j).len() == s.len(),
{
    let out = trim_pair(s, i, j);
    if i == j || !(0 <= i < s.len()) || !(0 <= j < s.len()) {
    } else {
        assert(spread(s[i], margin) && spread(s[j], margin));
        assert forall|k: int| 0 <= k < out.len() implies spread(#[trigger] out[k], margin) by {
            if k != i && k != j {
                assert(out[k] == s[k]);
            }
        }
    }
}

/// Pairing one panel with those after a position keeps the panels as near to
/// the page as they were.
pub proof fn lemma_trim_from_spread(s: Seq<PanelView>, i: int, j: int, margin: int)
    requires
        all_spread(s, margin),
    ensures
        all_spread(trim_from(s, i, j), margin),
        trim_from(s, i, j).len() == s.len(),
    decreases s.len() - j,
{
    if j >= s.len() || trim_pair(s, i, j).len() != s.len() {
    } else {
        lemma_trim_pair_spread(s, i, j, margin);
        lemma_trim_from_spread(trim_pair(s, i, j), i, j + 1, margin);
    }
}

/// Resolving overlaps moves edges onto other edges only, so it keeps the
/// panels as near to the page as they were.
pub proof fn lemma_trim_all_spread(s: Seq<PanelView>, i: int, later_only: bool, margin: int)
    requires
        all_spread(s, margin),
    ensures
        all_spread(trim_all(s, i, later_only), margin),
        trim_all(s, i, later_only).len() == s.len(),
    decreases s.len() - i,
{
    let start = if later_only { i + 1 } else { 0 };
    if i >= s.len() || trim_from(s, i, start).len() != s.len() {
    } else {
        lemma_trim_from_spread(s, i, start, margin);
        lemma_trim_all_spread(trim_from(s, i, start), i + 1, later_only, margin);
    }
}

/// Sound panels are within reach of the page.
pub proof fn lemma_sound_spread(s: Seq<PanelView>)
    requires
        all_sound(s),
    ensures
        all_spread(s, 0),
{
    assert forall|k: int| 0 <= k < s.len() implies spread(#[trigger] s[k], 0) by {
        assert(sound(s[k]));
    }
}

/// Putting an item into a list gives the item and the items of the list.
pub proof fn lemma_insert_drawn<T>(sorted: Seq<T>, item: T, before: spec_fn(T, T) -> bool)
    ensures
        drawn_from(insert_sorted(sorted, item, before), sorted.push(item)),
    decreases sorted.len(),
{
    let out = insert_sorted(sorted, item, before);
    let all = sorted.push(item);
    if sorted.len() == 0 || !before(item, sorted.last()) {
        assert forall|k: int| 0 <= k < out.len() implies all.contains(#[trigger] out[k]) by {
            assert(all[k] == out[k]);
        }
    } else {
        let front = sorted.drop_last();
        let inner = insert_sorted(front, item, before);
        let part = front.push(item);
        lemma_insert_drawn(front, item, before);
        assert forall|k: int| 0 <= k < out.len() implies all.contains(#[trigger] out[k]) by {
            if k < inner.len() {
                assert(out[k] == inner[k]);
                assert(part.contains(inner[k]));
                let m = choose|m: int| 0 <= m < part.len() && part[m] == inner[k];
                if m < front.len() {
                    assert(all[m] == out[k]);
                } else {
                    assert(all[sorted.len() as int] == out[k]);
                }
            } else {
                assert(all[sorted.len() - 1] == out[k]);
            }
        }
    }
}

/// A sorted list holds items of the list only.
pub proof fn lemma_sorted_drawn<T>(items: Seq<T>, before: spec_fn(T, T) -> bool)
    ensures
        drawn_from(insertion_sorted(items, before), items),
    decreases items.len(),
{
    let out = insertion_sorted(items, before);
    if items.len() > 0 {
        let front = items.drop_last();
        let sorted = insertion_sorted(front, before);
        lemma_sorted_drawn(front, before);
        lemma_insert_drawn(sorted, items.last(), before);
        let all = sorted.push(items.last());
        assert forall|k: int| 0 <= k < out.len() implies items.contains(#[trigger] out[k]) by {
            assert(all.contains(out[k]));
            let a = choose|a: int| 0 <= a < all.len() && all[a] == out[k];
            if a < sorted.len() {
                assert(all[a] == sorted[a]);
                assert(front.contains(sorted[a]));
                let m = choose|m: int| 0 <= m < front.len() && front[m] == sorted[a];
                assert(items[m] == out[k]);
            } else {
                assert(items[items.len() - 1] == out[k]);
            }
        }
    }
}

/// The rim of a layout within reach of the page is within reach of the page.
pub proof fn lemma_extreme_spread(s: Seq<PanelView>, direction: Direction, margin: int)
    requires
        all_spread(s, margin),
        s.len() > 0,
    ensures
        -1 - margin <= layout_extreme(s, direction) <= MAX_COORD + margin,
    decreases s.len(),
{
    assert(spread(s[s.len() - 1], margin));
    if s.len() > 1 {
        let front = s.drop_last();
        assert forall|k: int| 0 <= k < front.len() implies spread(#[trigger] front[k], margin) by {
            assert(front[k] == s[k]);
        }
        lemma_extreme_spread(front, direction, margin);
    }
}

/// Whether no gutter is larger than `limit` either way.
pub open spec fn gutters_within(gutters: Gutters, limit: int) -> bool {
    &&& -limit <= gutters.x <= limit
    &&& -limit <= gutters.y <= limit
    &&& -limit <= gutters.r <= limit
    &&& -limit <= gutters.b <= limit
}

/// An edge that comes from a layout within reach of the page lies at most a
/// gutter further out.
pub proof fn lemma_edge_spread(
    edge: int,
    p: PanelView,
    direction: Direction,
    panels: Seq<PanelView>,
    gutters: Gutters,
    limit: int,
)
    requires
        edge_from_layout(edge, p, direction, panels, gutters),
        all_spread(panels, 0),
        spread(p, 0),
        panels.len() > 0,
        limit >= 0,
        gutters_within(gutters, limit),
    ensures
        -1 - limit <= edge <= MAX_COORD + limit,
{
    lemma_extreme_spread(panels, direction, 0);
    if edge != own_edge(p, direction) && edge != layout_extreme(panels, direction) {
        let k = choose|k: int|
            0 <= k < panels.len() && edge == (#[trigger] panels[k]).facing_edge(direction)
                + gutter_offset(gutters, direction);
        assert(spread(panels[k], 0));
    }
}

/// The outlines of sound panels are on the page.
pub proof fn lemma_sound_outlines(panels: Seq<Panel>)
    requires
        all_sound(views(panels)),
    ensures
        forall|k: int| 0 <= k < panels.len() ==> in_range((#[trigger] panels[k]).polygon@),
{
    assert forall|k: int| 0 <= k < panels.len() implies in_range(
        (#[trigger] panels[k]).polygon@,
    ) by {
        assert(sound(views(panels)[k]));
    }
}

} // verus!
