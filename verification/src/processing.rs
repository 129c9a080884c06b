//! From the outlines of a page to its panels in reading order.

use crate::binarize::{binarize, get_background_color, page_mask, threshold_for, GrayPage};
use crate::bounds::{
    all_sound, all_spread, gutters_within, lemma_contained_sound, lemma_drawn_sound,
    lemma_drawn_spread, lemma_edge_spread, lemma_large_only_drawn, lemma_outline_panel_sound,
    lemma_regroup_sound, lemma_simplified_in_range, lemma_sorted_drawn, lemma_sound_outlines,
    lemma_sound_spread, lemma_split_sound, lemma_trim_all_spread, sound, spread,
};
use crate::config::{KumikoConfig, Ratio, ReadingDirection};
use crate::contain::{contained_merged, merge_contained};
use crate::contours::{outlines_of, trace_outlines, traced_outlines};
use crate::expand::{expand_panels, expanded, expanded_all, expansion_from_layout, gutters_fit};
use crate::group::{large_only, merge_small_panels, retain_large, small_merged};
use crate::overlap::{resolve_overlaps, resolved};
use crate::panel::{abs_int, min_int, views, Panel, PanelView, Point, SerializablePanel};
use crate::reading::{in_reading_order, reading_order, reads_before, sort_panels};
use crate::simplify::{approximate_polygon, simplified, spec_tolerance, tolerance};
use crate::split::{outline_panel, split_parts};
use crate::utils::{calculate_polygon_perimeter, in_range, spec_perimeter, MAX_COORD};
use vstd::prelude::*;

verus! {

/// The largest gutter, either way, for which every edge stays a coordinate.
pub const MAX_GUTTER: i32 = 0x2000_0000;

/// The panel that an outline gives: the outline thinned with the tolerance
/// that goes with its perimeter, and the box around what is left.
pub open spec fn outline_to_panel(outline: Seq<Point>, rdp_epsilon: Ratio) -> PanelView {
    outline_panel(simplified(outline, spec_tolerance(rdp_epsilon, spec_perimeter(outline))))
}

/// One panel for each outline, in the order of the outlines.
pub open spec fn built_panels(outlines: Seq<Seq<Point>>, rdp_epsilon: Ratio) -> Seq<PanelView> {
    Seq::new(outlines.len(), |i: int| outline_to_panel(outlines[i], rdp_epsilon))
}

/// The parts that a panel is cut into, or the panel itself where it is not cut.
pub open spec fn parts_or_whole(p: PanelView) -> Seq<PanelView> {
    match split_parts(p) {
        Some(parts) => parts,
        None => seq![p],
    }
}

/// Every panel of the list replaced by its parts.
pub open spec fn split_all(s: Seq<PanelView>) -> Seq<PanelView>
    decreases s.len(),
{
    if s.len() == 0 {
        Seq::empty()
    } else {
        split_all(s.drop_last()) + parts_or_whole(s.last())
    }
}

/// The box of a panel by corner and size.
pub open spec fn to_serializable(p: PanelView) -> SerializablePanel {
    SerializablePanel {
        x: p.x as i32,
        y: p.y as i32,
        width: p.width() as i32,
        height: p.height() as i32,
    }
}

/// Whether the box `a` is read before the box `b`: in one row, where the tops
/// differ by less than half the smaller height, the one further toward the
/// side where reading starts, else the one whose top is higher.
pub open spec fn box_reads_before(
    a: SerializablePanel,
    b: SerializablePanel,
    direction: ReadingDirection,
) -> bool {
    if 2 * abs_int(a.y - b.y) < min_int(a.height as int, b.height as int) {
        match direction {
            ReadingDirection::Ltr => a.x < b.x,
            ReadingDirection::Rtl => b.x < a.x,
        }
    } else {
        a.y < b.y
    }
}

/// Whether no box is read before the box in front of it.
pub open spec fn boxes_read_in_order(boxes: Seq<SerializablePanel>, direction: ReadingDirection)
    -> bool {
    forall|k: int|
        0 <= k < boxes.len() - 1 ==> !box_reads_before(#[trigger] boxes[k + 1], boxes[k], direction)
}

/// The panels of a page of `img_w` by `img_h` with the given outlines, in
/// reading order. The stages in turn: a panel for each outline; small panels
/// dropped; small panels that lie close merged; panels cut at their pinches;
/// small panels dropped; contained panels merged; overlaps trimmed between
/// all pairs; small panels dropped; panels expanded; overlaps trimmed between
/// each panel and those after it; panels ordered.
pub open spec fn page_layout(
    outlines: Seq<Seq<Point>>,
    img_w: int,
    img_h: int,
    config: KumikoConfig,
) -> Seq<PanelView> {
    let ratio = config.small_panel_ratio;
    let built = large_only(built_panels(outlines, config.rdp_epsilon), img_w, img_h, ratio);
    let grouped = small_merged(built, img_w, img_h, ratio);
    let cut = large_only(split_all(grouped), img_w, img_h, ratio);
    let merged = contained_merged(cut);
    let trimmed = large_only(resolved(merged, false), img_w, img_h, ratio);
    let grown = expanded_all(trimmed, config.gutters);
    in_reading_order(resolved(grown, true), config.reading_direction)
}

/// The boxes of the panels of a page, in reading order.
pub open spec fn page_panels(
    outlines: Seq<Seq<Point>>,
    img_w: int,
    img_h: int,
    config: KumikoConfig,
) -> Seq<SerializablePanel> {
    page_layout(outlines, img_w, img_h, config).map_values(|p: PanelView| to_serializable(p))
}

/// Whether every outline has coordinates up to `MAX_COORD` only.
pub open spec fn outlines_in_range(outlines: Seq<Seq<Point>>) -> bool {
    forall|i: int| 0 <= i < outlines.len() ==> in_range(#[trigger] outlines[i])
}

/// Cutting every panel of a sound list gives a sound list.
pub proof fn lemma_split_all_sound(s: Seq<PanelView>)
    requires
        all_sound(s),
    ensures
        all_sound(split_all(s)),
    decreases s.len(),
{
    if s.len() > 0 {
        let front = s.drop_last();
        assert(all_sound(front)) by {
            assert forall|k: int| 0 <= k < front.len() implies sound(#[trigger] front[k]) by {
                assert(front[k] == s[k]);
            }
        }
        lemma_split_all_sound(front);
        assert(sound(s[s.len() - 1]));
        lemma_split_sound(s.last());
        let a = split_all(front);
        let b = parts_or_whole(s.last());
        assert forall|k: int| 0 <= k < (a + b).len() implies sound(#[trigger] (a + b)[k]) by {
            if k < a.len() {
                assert((a + b)[k] == a[k]);
            } else {
                assert((a + b)[k] == b[k - a.len()]);
            }
        }
    }
}

/// One panel for each outline: the outline is thinned with the tolerance
/// that goes with its perimeter, and the panel is the box around the rest.
pub fn build_panels(outlines: &Vec<Vec<Point>>, rdp_epsilon: Ratio) -> (panels: Vec<Panel>)
    requires
        rdp_epsilon.wf(),
        outlines_in_range(outlines_of(outlines@)),
    ensures
        views(panels@) == built_panels(outlines_of(outlines@), rdp_epsilon),
        all_sound(views(panels@)),
{
    let ghost source = outlines_of(outlines@);
    let mut panels: Vec<Panel> = Vec::new();
    let mut i: usize = 0;
    while i < outlines.len()
        invariant
            i <= outlines@.len(),
            rdp_epsilon.wf(),
            source == outlines_of(outlines@),
            outlines_in_range(source),
            panels@.len() == i,
            forall|k: int|
                0 <= k < i ==> #[trigger] views(panels@)[k] == outline_to_panel(
                    source[k],
                    rdp_epsilon,
                ),
            all_sound(views(panels@)),
        decreases outlines@.len() - i,
    {
        let points = outlines[i].as_slice();
        assert(points@ == source[i as int]);
        assert(in_range(source[i as int]));
        let arclength: u128 = calculate_polygon_perimeter(points);
        let epsilon: u128 = tolerance(rdp_epsilon, arclength);
        let approximated = approximate_polygon(points, epsilon);
        proof {
            lemma_simplified_in_range(points@, epsilon as int);
            lemma_outline_panel_sound(approximated@);
        }
        let ghost held = views(panels@);
        let panel = Panel::from_outline(approximated);
        panels.push(panel);
        assert(views(panels@) =~= held.push(panel@));
        i += 1;
    }
    assert(views(panels@) =~= built_panels(source, rdp_epsilon));
    panels
}

/// Replaces every panel that can be cut by its parts.
pub fn split_panels(panels: &mut Vec<Panel>)
    requires
        forall|k: int|
            0 <= k < old(panels)@.len() ==> in_range((#[trigger] old(panels)@[k]).polygon@),
    ensures
        views(final(panels)@) == split_all(views(old(panels)@)),
{
    let ghost input = views(panels@);
    let ghost source = panels@;
    let total: usize = panels.len();
    let mut out: Vec<Panel> = Vec::new();
    let mut i: usize = 0;
    assert(input.take(0) =~= Seq::<PanelView>::empty());
    assert(views(out@) =~= Seq::<PanelView>::empty());
    while i < total
        invariant
            i <= total,
            input == views(source),
            source.len() == total,
            panels@.len() == total,
            forall|k: int| i <= k < total ==> #[trigger] panels@[k] == source[k],
            forall|k: int| 0 <= k < source.len() ==> in_range((#[trigger] source[k]).polygon@),
            views(out@) == split_all(input.take(i as int)),
        decreases total - i,
    {
        let ghost held = views(out@);
        let mut p = Panel::new(0, 0, 0, 0, Vec::new());
        core::mem::swap(&mut panels[i], &mut p);
        assert(p == source[i as int]);
        assert(input.take(i + 1).drop_last() =~= input.take(i as int));
        assert(input.take(i + 1).last() == p@);
        match p.split() {
            Some(mut parts) => {
                let ghost tail = views(parts@);
                out.append(&mut parts);
                assert(views(out@) =~= held + tail);
            },
            None => {
                out.push(p);
                assert(views(out@) =~= held + seq![p@]);
            },
        }
        i += 1;
    }
    assert(input.take(i as int) =~= input);
    *panels = out;
}

fn serialize(panels: &Vec<Panel>) -> (boxes: Vec<SerializablePanel>)
    requires
        all_spread(views(panels@), MAX_GUTTER as int),
    ensures
        boxes@ == views(panels@).map_values(|p: PanelView| to_serializable(p)),
        forall|k: int|
            0 <= k < boxes@.len() ==> (#[trigger] boxes@[k]).width >= 1 && boxes@[k].height >= 1,
{
    let ghost all = views(panels@);
    let mut boxes: Vec<SerializablePanel> = Vec::new();
    let mut i: usize = 0;
    while i < panels.len()
        invariant
            i <= panels@.len(),
            all == views(panels@),
            all_spread(all, MAX_GUTTER as int),
            boxes@.len() == i,
            forall|k: int| 0 <= k < i ==> #[trigger] boxes@[k] == to_serializable(all[k]),
            forall|k: int|
                0 <= k < i ==> (#[trigger] boxes@[k]).width >= 1 && boxes@[k].height >= 1,
        decreases panels@.len() - i,
    {
        let p = &panels[i];
        assert(all[i as int] == p@);
        assert(spread(all[i as int], MAX_GUTTER as int));
        boxes.push(SerializablePanel { x: p.x, y: p.y, width: p.width(), height: p.height() });
        i += 1;
    }
    assert(boxes@ =~= all.map_values(|p: PanelView| to_serializable(p)));
    boxes
}

/// The boxes of the panels of a page of `img_w` by `img_h` whose inked
/// regions have the given outlines, in reading order.
pub fn panels_from_outlines(
    outlines: Vec<Vec<Point>>,
    img_w: u32,
    img_h: u32,
    config: &KumikoConfig,
) -> (boxes: Vec<SerializablePanel>)
    requires
        config.wf(),
        gutters_within(config.gutters, MAX_GUTTER as int),
        img_w <= MAX_COORD,
        img_h <= MAX_COORD,
        outlines_in_range(outlines_of(outlines@)),
    ensures
        boxes@ == page_panels(outlines_of(outlines@), img_w as int, img_h as int, *config),
        boxes_read_in_order(boxes@, config.reading_direction),
        forall|k: int|
            0 <= k < boxes@.len() ==> (#[trigger] boxes@[k]).width >= 1 && boxes@[k].height >= 1,
{
    let w: i32 = img_w as i32;
    let h: i32 = img_h as i32;
    let ratio = config.small_panel_ratio;
    let ghost gw = img_w as int;
    let ghost gh = img_h as int;
    let mut panels = build_panels(&outlines, config.rdp_epsilon);
    let ghost s0 = views(panels@);

    retain_large(&mut panels, w, h, ratio);
    let ghost s1 = views(panels@);
    proof {
        lemma_large_only_drawn(s0, gw, gh, ratio);
        lemma_drawn_sound(s1, s0);
    }

    merge_small_panels(&mut panels, w, h, ratio);
    let ghost s2 = views(panels@);
    proof {
        lemma_regroup_sound(s1, 0, Seq::empty(), gw, gh, ratio);
        lemma_sound_outlines(panels@);
    }

    split_panels(&mut panels);
    let ghost s3 = views(panels@);
    proof {
        lemma_split_all_sound(s2);
    }

    retain_large(&mut panels, w, h, ratio);
    let ghost s4 = views(panels@);
    proof {
        lemma_large_only_drawn(s3, gw, gh, ratio);
        lemma_drawn_sound(s4, s3);
    }

    merge_contained(&mut panels);
    let ghost s5 = views(panels@);
    proof {
        lemma_contained_sound(s4);
        lemma_sound_spread(s5);
    }

    resolve_overlaps(&mut panels, false);
    let ghost s6 = views(panels@);
    proof {
        lemma_trim_all_spread(s5, 0, false, 0);
    }

    retain_large(&mut panels, w, h, ratio);
    let ghost s7 = views(panels@);
    proof {
        lemma_large_only_drawn(s6, gw, gh, ratio);
        lemma_drawn_spread(s7, s6, 0);
        assert(gutters_fit(s7, config.gutters)) by {
            assert forall|k: int| #![trigger s7[k]] 0 <= k < s7.len() implies {
                &&& i32::MIN <= s7[k].r + config.gutters.x <= i32::MAX
                &&& i32::MIN <= s7[k].b + config.gutters.y <= i32::MAX
                &&& i32::MIN <= s7[k].x + config.gutters.r <= i32::MAX
                &&& i32::MIN <= s7[k].y + config.gutters.b <= i32::MAX
            } by {
                assert(spread(s7[k], 0));
            }
        }
    }

    expand_panels(&mut panels, &config.gutters);
    let ghost s8 = views(panels@);
    proof {
        assert forall|k: int| 0 <= k < s8.len() implies spread(
            #[trigger] s8[k],
            MAX_GUTTER as int,
        ) by {
            assert(expansion_from_layout(s7[k], s7, config.gutters));
            assert(spread(s7[k], 0));
            assert(s8[k] == expanded(s7[k], s7, config.gutters));
            lemma_edge_spread(
                s8[k].x,
                s7[k],
                crate::panel::Direction::Left,
                s7,
                config.gutters,
                MAX_GUTTER as int,
            );
            lemma_edge_spread(
                s8[k].y,
                s7[k],
                crate::panel::Direction::Top,
                s7,
                config.gutters,
                MAX_GUTTER as int,
            );
            lemma_edge_spread(
                s8[k].r,
                s7[k],
                crate::panel::Direction::Right,
                s7,
                config.gutters,
                MAX_GUTTER as int,
            );
            lemma_edge_spread(
                s8[k].b,
                s7[k],
                crate::panel::Direction::Bottom,
                s7,
                config.gutters,
                MAX_GUTTER as int,
            );
        }
    }

    resolve_overlaps(&mut panels, true);
    let ghost s9 = views(panels@);
    proof {
        lemma_trim_all_spread(s8, 0, true, MAX_GUTTER as int);
    }

    sort_panels(&mut panels, config.reading_direction);
    let ghost s10 = views(panels@);
    proof {
        lemma_sorted_drawn(s9, reading_order(config.reading_direction));
        lemma_drawn_spread(s10, s9, MAX_GUTTER as int);
    }
    let boxes = serialize(&panels);
    proof {
        let direction = config.reading_direction;
        assert forall|k: int| 0 <= k < boxes@.len() - 1 implies !box_reads_before(
            #[trigger] boxes@[k + 1],
            boxes@[k],
            direction,
        ) by {
            assert(spread(s10[k], MAX_GUTTER as int));
            assert(spread(s10[k + 1], MAX_GUTTER as int));
            assert(boxes@[k] == to_serializable(s10[k]));
            assert(boxes@[k + 1] == to_serializable(s10[k + 1]));
            assert(!reading_order(direction)(s10[k + 1], s10[k]));
            assert(reading_order(direction)(s10[k + 1], s10[k]) == reads_before(
                s10[k + 1],
                s10[k],
                direction,
            ));
        }
    }
    boxes
}

/// Whether a page and a configuration are within what `find_panels` works
/// on: the page holds a shade for each pixel and is at most `MAX_COORD` wide
/// and high, both fractions have a denominator, and no gutter is larger than
/// `MAX_GUTTER` either way.
pub open spec fn processable(page: GrayPage, config: KumikoConfig) -> bool {
    &&& page.wf()
    &&& page.width <= MAX_COORD
    &&& page.height <= MAX_COORD
    &&& config.wf()
    &&& gutters_within(config.gutters, MAX_GUTTER as int)
}

/// Tells whether `find_panels` works on the page with the configuration.
pub fn can_process(page: &GrayPage, config: &KumikoConfig) -> (ok: bool)
    ensures
        ok == processable(*page, *config),
{
    let g = &config.gutters;
    let wide: u128 = page.width as u128;
    let high: u128 = page.height as u128;
    assert(wide * high <= 0xffff_ffff * 0xffff_ffff) by (nonlinear_arith)
        requires
            0 <= wide <= 0xffff_ffff,
            0 <= high <= 0xffff_ffff,
    ;
    let cells: u128 = wide * high;
    page.pixels.len() as u128 == cells && page.width <= MAX_COORD && page.height <= MAX_COORD
        && config.small_panel_ratio.den > 0 && config.rdp_epsilon.den > 0 && -MAX_GUTTER <= g.x
        && g.x <= MAX_GUTTER && -MAX_GUTTER <= g.y && g.y <= MAX_GUTTER && -MAX_GUTTER <= g.r
        && g.r <= MAX_GUTTER && -MAX_GUTTER <= g.b && g.b <= MAX_GUTTER
}

/// The size of the page and the boxes of its panels in reading order. The
/// page is turned into a mask of its ink, the outlines of the inked regions
/// are traced, and the panels are made from the outlines.
pub fn find_panels(page: &GrayPage, config: &KumikoConfig) -> (found: (
    (u32, u32),
    Vec<SerializablePanel>,
))
    requires
        processable(*page, *config),
    ensures
        found.0 == (page.width, page.height),
        found.1@ == page_panels(
            traced_outlines(page.width, page.height, page_mask(page.pixels@)),
            page.width as int,
            page.height as int,
            *config,
        ),
        boxes_read_in_order(found.1@, config.reading_direction),
        forall|k: int|
            0 <= k < found.1@.len() ==> (#[trigger] found.1@[k]).width >= 1 && found.1@[k].height
                >= 1,
{
    let background = get_background_color(page);
    let (threshold, invert) = threshold_for(background);
    let mask = binarize(page, threshold, invert);
    let outlines = trace_outlines(page.width, page.height, mask);
    proof {
        let traced = outlines_of(outlines@);
        assert forall|i: int| 0 <= i < traced.len() implies in_range(#[trigger] traced[i]) by {
            assert forall|k: int|
                #![trigger traced[i][k]]
                0 <= k < traced[i].len() implies traced[i][k].x <= MAX_COORD && traced[i][k].y
                <= MAX_COORD by {
                assert(traced[i][k].x < page.width);
            }
        }
    }
    let boxes = panels_from_outlines(outlines, page.width, page.height, config);
    ((page.width, page.height), boxes)
}

} // verus!
