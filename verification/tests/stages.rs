use libkumiko::config::{Gutters, Ratio, ReadingDirection};
use libkumiko::contain::merge_contained;
use libkumiko::expand::expand_panels;
use libkumiko::group::{merge_small_panels, retain_large};
use libkumiko::overlap::resolve_overlaps;
use libkumiko::panel::{Panel, Point};
use libkumiko::processing::split_panels;
use libkumiko::reading::sort_panels;

fn bare(x: i32, y: i32, r: i32, b: i32) -> Panel {
    Panel::new(x, y, r, b, vec![])
}

fn corners(panels: &[Panel]) -> Vec<(i32, i32, i32, i32)> {
    panels.iter().map(|p| (p.x, p.y, p.r, p.b)).collect()
}

fn pt(x: u32, y: u32) -> Point {
    Point { x, y }
}

fn pinched_outline() -> Vec<Point> {
    vec![
        pt(0, 0),
        pt(100, 0),
        pt(100, 98),
        pt(104, 98),
        pt(104, 0),
        pt(200, 0),
        pt(200, 200),
        pt(104, 200),
        pt(104, 102),
        pt(100, 102),
        pt(100, 200),
        pt(0, 200),
    ]
}

#[test]
fn overlap_along_a_vertical_seam_is_trimmed() {
    let mut panels = vec![bare(0, 0, 100, 100), bare(95, 0, 200, 100)];
    resolve_overlaps(&mut panels, false);
    assert_eq!(corners(&panels), vec![(0, 0, 95, 100), (100, 0, 200, 100)]);
}

#[test]
fn overlap_along_a_horizontal_seam_is_trimmed() {
    let mut panels = vec![bare(0, 0, 100, 100), bare(0, 90, 100, 200)];
    resolve_overlaps(&mut panels, false);
    assert_eq!(corners(&panels), vec![(0, 0, 100, 90), (0, 100, 100, 200)]);
}

#[test]
fn overlap_not_on_the_first_panels_far_edge_stays() {
    let mut panels = vec![bare(95, 0, 200, 100), bare(0, 0, 100, 100)];
    resolve_overlaps(&mut panels, true);
    assert_eq!(corners(&panels), vec![(95, 0, 200, 100), (0, 0, 100, 100)]);
    resolve_overlaps(&mut panels, false);
    assert_eq!(corners(&panels), vec![(100, 0, 200, 100), (0, 0, 95, 100)]);
}

#[test]
fn overlap_of_a_square_region_stays() {
    let mut panels = vec![bare(0, 0, 100, 100), bare(90, 90, 200, 200)];
    resolve_overlaps(&mut panels, false);
    assert_eq!(corners(&panels), vec![(0, 0, 100, 100), (90, 90, 200, 200)]);
}

#[test]
fn resolve_overlaps_keeps_outlines() {
    let outline = vec![pt(0, 0), pt(100, 0), pt(100, 100)];
    let mut panels = vec![Panel::new(0, 0, 100, 100, outline.clone()), bare(95, 0, 200, 100)];
    resolve_overlaps(&mut panels, false);
    assert_eq!(panels[0].polygon, outline);
}

#[test]
fn lone_panels_expand_to_the_rim_of_the_layout() {
    let gutters = Gutters { x: 0, y: 0, r: 0, b: 0 };
    let mut panels = vec![bare(100, 100, 200, 200), bare(300, 400, 500, 600)];
    expand_panels(&mut panels, &gutters);
    assert_eq!(corners(&panels), vec![(100, 100, 500, 600), (100, 100, 500, 600)]);
}

#[test]
fn a_single_panel_stays_as_it_is() {
    let gutters = Gutters { x: 0, y: 0, r: 0, b: 0 };
    let mut panels = vec![bare(100, 100, 200, 200)];
    expand_panels(&mut panels, &gutters);
    assert_eq!(corners(&panels), vec![(100, 100, 200, 200)]);
    let mut none: Vec<Panel> = vec![];
    expand_panels(&mut none, &gutters);
    assert!(none.is_empty());
}

#[test]
fn neighbours_expand_toward_each_other_with_the_gutter() {
    let gutters = Gutters { x: -2, y: -2, r: 2, b: 2 };
    let mut panels = vec![bare(0, 0, 100, 100), bare(120, 0, 220, 100)];
    expand_panels(&mut panels, &gutters);
    assert_eq!(corners(&panels), vec![(0, 0, 122, 100), (98, 0, 220, 100)]);
}

#[test]
fn a_positive_right_gutter_pushes_past_the_neighbour() {
    let gutters = Gutters { x: 0, y: 0, r: 2, b: 0 };
    let mut panels = vec![bare(0, 0, 100, 100), bare(110, 0, 200, 100)];
    expand_panels(&mut panels, &gutters);
    assert_eq!(corners(&panels), vec![(0, 0, 112, 100), (100, 0, 200, 100)]);
}

#[test]
fn a_negative_gutter_stops_short_of_the_neighbour() {
    let gutters = Gutters { x: 3, y: 0, r: -3, b: 0 };
    let mut panels = vec![bare(0, 0, 100, 100), bare(110, 0, 200, 100)];
    expand_panels(&mut panels, &gutters);
    assert_eq!(corners(&panels), vec![(0, 0, 107, 100), (103, 0, 200, 100)]);
}

#[test]
fn stacked_panels_expand_toward_each_other_with_the_gutter() {
    let gutters = Gutters { x: -2, y: -3, r: 2, b: 5 };
    let mut panels = vec![bare(0, 0, 100, 100), bare(0, 130, 100, 230)];
    expand_panels(&mut panels, &gutters);
    assert_eq!(corners(&panels), vec![(0, 0, 100, 135), (0, 97, 100, 230)]);
}

#[test]
fn expansion_never_moves_an_edge_inward() {
    let gutters = Gutters { x: 30, y: 30, r: 30, b: 30 };
    let before = vec![(0, 0, 100, 100), (110, 0, 220, 100), (0, 110, 100, 200)];
    let mut panels: Vec<Panel> = before.iter().map(|c| bare(c.0, c.1, c.2, c.3)).collect();
    expand_panels(&mut panels, &gutters);
    for (p, c) in panels.iter().zip(before.iter()) {
        assert!(p.x <= c.0 && p.y <= c.1 && p.r >= c.2 && p.b >= c.3);
    }
    assert_eq!(
        corners(&panels),
        vec![(0, 0, 140, 140), (110, 0, 220, 200), (0, 110, 220, 200)]
    );
}

#[test]
fn contained_panels_are_merged_into_the_panel_around_them() {
    let mut panels = vec![bare(0, 0, 100, 100), bare(10, 10, 50, 50), bare(200, 200, 300, 300)];
    merge_contained(&mut panels);
    assert_eq!(corners(&panels), vec![(0, 0, 100, 100), (200, 200, 300, 300)]);
}

#[test]
fn a_panel_in_front_of_the_panel_around_it_is_merged_too() {
    let mut panels = vec![bare(10, 10, 50, 50), bare(0, 0, 100, 100)];
    merge_contained(&mut panels);
    assert_eq!(corners(&panels), vec![(0, 0, 100, 100)]);
}

#[test]
fn merging_grows_until_nothing_is_contained() {
    let mut panels = vec![bare(0, 0, 100, 100), bare(80, 0, 122, 100), bare(70, 0, 110, 100)];
    assert!(!panels[0].contains(&panels[1]));
    merge_contained(&mut panels);
    assert_eq!(corners(&panels), vec![(0, 0, 122, 100)]);
    for (i, a) in panels.iter().enumerate() {
        for (j, b) in panels.iter().enumerate() {
            assert!(i == j || !a.contains(b));
        }
    }
}

#[test]
fn after_merging_no_panel_contains_another() {
    let mut panels = vec![
        bare(0, 0, 100, 100),
        bare(20, 20, 60, 60),
        bare(300, 0, 400, 100),
        bare(310, 10, 390, 90),
        bare(0, 300, 50, 350),
        bare(-5, 295, 60, 360),
    ];
    merge_contained(&mut panels);
    assert_eq!(panels.len(), 3);
    for (i, a) in panels.iter().enumerate() {
        for (j, b) in panels.iter().enumerate() {
            assert!(i == j || !a.contains(b));
        }
    }
}

#[test]
fn retain_large_drops_small_panels_in_order() {
    let ratio = Ratio { num: 1, den: 15 };
    let mut panels = vec![
        bare(0, 0, 50, 500),
        bare(0, 0, 500, 500),
        bare(0, 0, 500, 50),
        bare(100, 100, 167, 167),
    ];
    retain_large(&mut panels, 1000, 1000, ratio);
    assert_eq!(corners(&panels), vec![(0, 0, 500, 500), (100, 100, 167, 167)]);
}

#[test]
fn small_panels_close_together_are_merged_and_lone_ones_dropped() {
    let ratio = Ratio { num: 1, den: 15 };
    let mut panels = vec![
        bare(0, 0, 60, 60),
        bare(500, 500, 900, 900),
        bare(50, 0, 110, 60),
        bare(300, 900, 310, 910),
        bare(0, 50, 60, 110),
    ];
    merge_small_panels(&mut panels, 1000, 1000, ratio);
    assert_eq!(corners(&panels), vec![(500, 500, 900, 900), (0, 0, 110, 110)]);
}

#[test]
fn a_merged_box_that_is_still_small_is_dropped() {
    let ratio = Ratio { num: 1, den: 15 };
    let mut panels = vec![bare(0, 0, 50, 50), bare(40, 0, 90, 50)];
    merge_small_panels(&mut panels, 1000, 1000, ratio);
    assert!(panels.is_empty());
}

#[test]
fn every_small_panel_is_looked_at_after_a_group_left() {
    let ratio = Ratio { num: 1, den: 15 };
    let mut panels = vec![
        bare(0, 0, 60, 60),
        bare(50, 0, 110, 60),
        bare(800, 800, 810, 810),
        bare(0, 50, 60, 110),
    ];
    merge_small_panels(&mut panels, 1000, 1000, ratio);
    assert_eq!(corners(&panels), vec![(0, 0, 110, 110)]);
}

#[test]
fn closeness_is_judged_against_the_box_gathered_so_far() {
    let ratio = Ratio { num: 1, den: 15 };
    let mut panels = vec![bare(0, 0, 60, 60), bare(50, 0, 110, 60), bare(150, 0, 210, 60)];
    assert!(!panels[2].is_close(&panels[0]));
    merge_small_panels(&mut panels, 1000, 1000, ratio);
    assert!(panels.is_empty());
    let mut taller = vec![bare(0, 0, 60, 70), bare(50, 0, 110, 70), bare(150, 0, 210, 70)];
    assert!(!taller[2].is_close(&taller[0]));
    merge_small_panels(&mut taller, 1000, 1000, ratio);
    assert_eq!(corners(&taller), vec![(0, 0, 210, 70)]);
}

#[test]
fn panels_are_sorted_by_row_and_then_by_column() {
    let mut panels = vec![bare(0, 120, 100, 220), bare(120, 5, 220, 105), bare(0, 0, 100, 100)];
    sort_panels(&mut panels, ReadingDirection::Ltr);
    assert_eq!(
        corners(&panels),
        vec![(0, 0, 100, 100), (120, 5, 220, 105), (0, 120, 100, 220)]
    );
    sort_panels(&mut panels, ReadingDirection::Rtl);
    assert_eq!(
        corners(&panels),
        vec![(120, 5, 220, 105), (0, 0, 100, 100), (0, 120, 100, 220)]
    );
}

#[test]
fn tops_less_than_half_the_smaller_height_apart_are_one_row() {
    let mut panels = vec![bare(10, 0, 20, 5), bare(0, 2, 5, 7)];
    sort_panels(&mut panels, ReadingDirection::Ltr);
    assert_eq!(corners(&panels), vec![(0, 2, 5, 7), (10, 0, 20, 5)]);
    sort_panels(&mut panels, ReadingDirection::Rtl);
    assert_eq!(corners(&panels), vec![(10, 0, 20, 5), (0, 2, 5, 7)]);
    let mut apart = vec![bare(10, 0, 20, 6), bare(0, 3, 5, 9)];
    sort_panels(&mut apart, ReadingDirection::Rtl);
    assert_eq!(corners(&apart), vec![(10, 0, 20, 6), (0, 3, 5, 9)]);
    let mut lower_first = vec![bare(0, 3, 5, 9), bare(10, 0, 20, 6)];
    sort_panels(&mut lower_first, ReadingDirection::Ltr);
    assert_eq!(corners(&lower_first), vec![(10, 0, 20, 6), (0, 3, 5, 9)]);
}

#[test]
fn sorting_a_sorted_page_changes_nothing() {
    let mut panels = vec![
        bare(300, 300, 400, 400),
        bare(0, 120, 100, 220),
        bare(120, 5, 220, 105),
        bare(0, 0, 100, 100),
        bare(150, 130, 250, 230),
    ];
    sort_panels(&mut panels, ReadingDirection::Ltr);
    let once = corners(&panels);
    sort_panels(&mut panels, ReadingDirection::Ltr);
    assert_eq!(corners(&panels), once);
    assert_eq!(
        once,
        vec![
            (0, 0, 100, 100),
            (120, 5, 220, 105),
            (0, 120, 100, 220),
            (150, 130, 250, 230),
            (300, 300, 400, 400)
        ]
    );
}

#[test]
fn equal_panels_keep_their_order_when_sorted() {
    let mut panels = vec![
        Panel::new(0, 0, 100, 100, vec![pt(1, 1)]),
        Panel::new(0, 0, 100, 100, vec![pt(2, 2)]),
    ];
    sort_panels(&mut panels, ReadingDirection::Ltr);
    assert_eq!(panels[0].polygon, vec![pt(1, 1)]);
    assert_eq!(panels[1].polygon, vec![pt(2, 2)]);
}

#[test]
fn a_pinched_outline_is_cut_into_two_panels() {
    let whole = Panel::from_outline(pinched_outline());
    assert_eq!((whole.x, whole.y, whole.r, whole.b), (0, 0, 199, 199));
    let parts = whole.split().unwrap();
    assert_eq!(corners(&parts), vec![(0, 0, 99, 199), (104, 0, 199, 199)]);
    assert_eq!(
        parts[0].polygon,
        vec![pt(0, 0), pt(100, 0), pt(100, 98), pt(100, 102), pt(100, 200), pt(0, 200)]
    );
    assert_eq!(
        parts[1].polygon,
        vec![pt(104, 98), pt(104, 0), pt(200, 0), pt(200, 200), pt(104, 200), pt(104, 102)]
    );
    for part in &parts {
        assert!(10 * part.width() >= whole.width());
        assert!(10 * part.height() >= whole.height());
    }
}

#[test]
fn pinches_are_found_in_order_and_sorted_by_length() {
    let whole = Panel::from_outline(pinched_outline());
    let dots = whole._find_close_dots();
    assert_eq!(dots, vec![(1, 4), (2, 8), (2, 9), (3, 8), (3, 9), (7, 10)]);
    let cuts = whole._sort_cuts_by_distance(dots);
    assert_eq!(cuts, vec![(1, 4), (2, 9), (3, 8), (7, 10), (2, 8), (3, 9)]);
}

#[test]
fn a_pinch_is_closer_than_a_quarter_of_the_smaller_extent() {
    let outline = |gap: u32| {
        vec![
            pt(0, 0),
            pt(10, 0),
            pt(10, 4),
            pt(6, 4),
            pt(6, 4 + gap),
            pt(10, 4 + gap),
            pt(10, 11),
            pt(0, 11),
        ]
    };
    let near = Panel::from_outline(outline(2));
    assert_eq!((near.width(), near.height()), (9, 10));
    assert_eq!(near._find_close_dots(), vec![(2, 5)]);
    let edge = Panel::from_outline(outline(3));
    assert_eq!((edge.width(), edge.height()), (9, 10));
    assert_eq!(edge._find_close_dots(), vec![]);
}

#[test]
fn a_cut_needs_more_than_two_points_on_each_side() {
    let whole = Panel::from_outline(pinched_outline());
    assert!(whole._is_valid_cut(&(2, 9)));
    assert!(whole._is_valid_cut(&(1, 5)));
    assert!(!whole._is_valid_cut(&(1, 4)));
    assert!(!whole._is_valid_cut(&(2, 4)));
    assert!(whole._is_valid_cut(&(0, 10)));
    assert!(!whole._is_valid_cut(&(0, 11)));
    assert!(!whole._is_valid_cut(&(9, 2)));
    assert!(!whole._is_valid_cut(&(2, 12)));
    let (outer, inner) = whole._split_polygon(&(0, 10));
    assert_eq!((outer.len(), inner.len()), (3, 9));
    let (outer, inner) = whole._split_polygon(&(1, 4));
    assert_eq!((outer.len(), inner.len()), (10, 2));
}

#[test]
fn split_polygon_shares_out_the_points() {
    let whole = Panel::from_outline(pinched_outline());
    let (outer, inner) = whole._split_polygon(&(1, 4));
    assert_eq!(outer.len(), 10);
    assert_eq!(inner, vec![pt(100, 98), pt(104, 98)]);
    assert_eq!(outer[1], pt(100, 0));
    assert_eq!(outer[2], pt(104, 0));
}

#[test]
fn parts_must_keep_a_tenth_of_the_extents_and_a_tenth_of_the_area() {
    let whole = Panel::from_outline(pinched_outline());
    let left = Panel::from_outline(vec![pt(0, 0), pt(100, 0), pt(100, 200), pt(0, 200)]);
    let right = Panel::from_outline(vec![pt(104, 0), pt(200, 0), pt(200, 200), pt(104, 200)]);
    assert!(whole._valid_subpanels(&left, &right));
    let thin = Panel::from_outline(vec![pt(100, 0), pt(110, 0), pt(110, 200), pt(100, 200)]);
    assert!(!whole._valid_subpanels(&left, &thin));
    let flat = Panel::from_outline(vec![pt(0, 0), pt(100, 0), pt(200, 0)]);
    assert!(!whole._valid_subpanels(&left, &flat));
    let sliver = Panel::from_outline(vec![pt(104, 0), pt(200, 100), pt(104, 200), pt(199, 100)]);
    assert!(!whole._valid_subpanels(&left, &sliver));
}

#[test]
fn a_panel_without_outline_or_pinch_is_not_cut() {
    assert!(bare(0, 0, 100, 100).split().is_none());
    let square = Panel::from_outline(vec![pt(0, 0), pt(100, 0), pt(100, 100), pt(0, 100)]);
    assert!(square.split().is_none());
}

#[test]
fn split_panels_replaces_a_panel_by_its_parts() {
    let square = vec![pt(300, 0), pt(400, 0), pt(400, 100), pt(300, 100)];
    let mut panels = vec![
        Panel::from_outline(square.clone()),
        Panel::from_outline(pinched_outline()),
        bare(5, 5, 9, 9),
    ];
    split_panels(&mut panels);
    assert_eq!(
        corners(&panels),
        vec![(300, 0, 399, 99), (0, 0, 99, 199), (104, 0, 199, 199), (5, 5, 9, 9)]
    );
    assert_eq!(panels[0].polygon, square);
}
