use libkumiko::config::{Gutters, Ratio};
use libkumiko::panel::{Direction, Panel, Point, Rect};

fn corners(p: &Panel) -> (i32, i32, i32, i32) {
    (p.x, p.y, p.r, p.b)
}

fn bare(x: i32, y: i32, r: i32, b: i32) -> Panel {
    Panel::new(x, y, r, b, vec![])
}

#[test]
fn width_and_height_are_clamped_to_one() {
    let p = Panel::new(10, 10, 10, 5, vec![]);
    assert_eq!(p.width(), 1);
    assert_eq!(p.height(), 1);
    let q = Panel::new(0, 0, 30, 20, vec![Point { x: 0, y: 0 }]);
    assert_eq!(q.width(), 30);
    assert_eq!(q.height(), 20);
}

#[test]
fn new_keeps_corners_and_outline() {
    let outline = vec![Point { x: 1, y: 2 }, Point { x: 3, y: 4 }];
    let p = Panel::new(-5, 7, 40, 90, outline.clone());
    assert_eq!(corners(&p), (-5, 7, 40, 90));
    assert_eq!(p.polygon, outline);
}

#[test]
fn rect_reaches_its_last_column_and_row() {
    let rect = Rect::at(4, 5).of_size(6, 7);
    assert_eq!(rect.left(), 4);
    assert_eq!(rect.top(), 5);
    assert_eq!(rect.width(), 6);
    assert_eq!(rect.height(), 7);
    assert_eq!(rect.right(), 9);
    assert_eq!(rect.bottom(), 11);
}

#[test]
fn panel_from_rect_ends_on_last_column_and_row() {
    let p = Panel::from_rect(Rect::at(4, 5).of_size(6, 7), vec![]);
    assert_eq!(corners(&p), (4, 5, 9, 11));
    assert_eq!(p.width(), 5);
    assert_eq!(p.height(), 6);
}

#[test]
fn panel_to_rect_uses_clamped_size() {
    let rect = bare(4, 5, 9, 11).to_rect();
    assert_eq!(rect, Rect::at(4, 5).of_size(5, 6));
    let flat = bare(4, 5, 4, 2).to_rect();
    assert_eq!(flat, Rect::at(4, 5).of_size(1, 1));
}

#[test]
fn is_small_when_either_extent_is_below_the_ratio() {
    let fifteenth = Ratio { num: 1, den: 15 };
    assert!(bare(0, 0, 66, 200).is_small(1000, 1000, fifteenth));
    assert!(!bare(0, 0, 67, 67).is_small(1000, 1000, fifteenth));
    assert!(bare(0, 0, 500, 10).is_small(1000, 1000, fifteenth));
    assert!(bare(0, 0, 10, 500).is_small(1000, 1000, fifteenth));
}

#[test]
fn is_small_compares_exactly_at_the_threshold() {
    let tenth = Ratio { num: 1, den: 10 };
    assert!(!bare(0, 0, 100, 100).is_small(1000, 1000, tenth));
    assert!(bare(0, 0, 99, 100).is_small(1000, 1000, tenth));
    assert!(!bare(0, 0, 1, 1).is_small(1000, 1000, Ratio { num: 0, den: 1 }));
}

#[test]
fn same_row_needs_a_third_of_the_smaller_height() {
    let a = bare(0, 0, 100, 100);
    assert!(a.same_row(&bare(150, 50, 250, 150)));
    assert!(!a.same_row(&bare(150, 80, 250, 180)));
    assert!(a.same_row(&bare(150, 66, 250, 166)));
    assert!(!a.same_row(&bare(150, 67, 250, 167)));
}

#[test]
fn same_row_for_contained_and_apart_boxes() {
    let a = bare(0, 0, 100, 100);
    assert!(a.same_row(&bare(150, 10, 250, 90)));
    assert!(!a.same_row(&bare(150, 101, 250, 200)));
    assert!(!a.same_row(&bare(150, 100, 250, 200)));
}

#[test]
fn same_row_is_symmetric_on_regular_boxes() {
    let boxes = vec![
        bare(0, 0, 100, 100),
        bare(150, 50, 250, 150),
        bare(150, 80, 250, 180),
        bare(150, 10, 250, 90),
        bare(150, 101, 250, 200),
        bare(300, 0, 400, 30),
    ];
    for a in &boxes {
        for b in &boxes {
            assert_eq!(a.same_row(b), b.same_row(a));
        }
    }
}

#[test]
fn same_row_depends_on_the_order_for_a_flat_box_at_equal_top() {
    let flat = bare(0, 10, 50, 10);
    let tall = bare(60, 10, 100, 20);
    assert!(!flat.same_row(&tall));
    assert!(tall.same_row(&flat));
}

#[test]
fn is_close_within_three_quarters_of_summed_extents() {
    let a = bare(0, 0, 100, 100);
    assert!(a.is_close(&bare(100, 0, 200, 100)));
    assert!(a.is_close(&bare(150, 0, 250, 100)));
    assert!(!a.is_close(&bare(151, 0, 251, 100)));
    assert!(!a.is_close(&bare(0, 151, 100, 251)));
    assert!(a.is_close(&bare(0, 150, 100, 250)));
}

#[test]
fn contains_allows_three_tenths_of_slack() {
    let outer = bare(0, 0, 100, 100);
    assert!(outer.contains(&bare(10, 10, 50, 50)));
    assert!(outer.contains(&bare(-12, 0, 28, 40)));
    assert!(!outer.contains(&bare(-13, 0, 27, 40)));
    assert!(outer.contains(&bare(72, 0, 112, 40)));
    assert!(!outer.contains(&bare(73, 0, 113, 40)));
    assert!(!bare(10, 10, 50, 50).contains(&outer));
}

#[test]
fn overlap_panel_is_the_shared_region() {
    let a = bare(0, 0, 100, 100);
    let shared = a.overlap_panel(&bare(95, 10, 200, 90)).unwrap();
    assert_eq!(corners(&shared), (95, 10, 100, 90));
    assert!(shared.polygon.is_empty());
    assert!(a.overlap_panel(&bare(100, 0, 200, 100)).is_none());
    assert!(a.overlap_panel(&bare(50, 100, 60, 200)).is_none());
    assert!(a.overlap_panel(&bare(300, 300, 400, 400)).is_none());
}

#[test]
fn merge_is_the_box_around_both() {
    let a = Panel::new(0, 0, 10, 10, vec![Point { x: 0, y: 0 }]);
    let both = a.merge(&bare(20, 5, 30, 40));
    assert_eq!(corners(&both), (0, 0, 30, 40));
    assert!(both.polygon.is_empty());
}

#[test]
fn merge_takes_the_edges_of_a_flat_box_as_they_are() {
    let flat = bare(5, 5, 5, 5);
    assert_eq!(corners(&flat.merge(&flat)), (5, 5, 5, 5));
    assert_eq!(corners(&flat.merge(&bare(0, 0, 3, 3))), (0, 0, 5, 5));
    assert_eq!(corners(&bare(10, 0, 10, 5).merge(&bare(0, 0, 5, 5))), (0, 0, 10, 5));
}

#[test]
fn merge_gives_the_same_box_either_way_round() {
    let a = bare(-3, 7, 40, 9);
    let b = bare(20, -5, 25, 60);
    assert_eq!(corners(&a.merge(&b)), (-3, -5, 40, 60));
    assert_eq!(corners(&b.merge(&a)), (-3, -5, 40, 60));
    let far = bare(i32::MAX, i32::MAX, i32::MAX, i32::MAX);
    assert_eq!(corners(&far.merge(&a)), (-3, 7, i32::MAX, i32::MAX));
}

#[test]
fn find_neighbour_panel_takes_the_nearest_on_each_side() {
    let gutters = Gutters { x: 0, y: 0, r: 0, b: 0 };
    let me = bare(100, 100, 200, 200);
    let panels = vec![
        bare(0, 100, 50, 200),
        bare(60, 100, 90, 200),
        bare(220, 100, 300, 200),
        bare(400, 100, 500, 200),
        bare(100, 0, 200, 40),
        bare(100, 50, 200, 90),
        bare(100, 210, 200, 300),
        bare(100, 400, 200, 500),
    ];
    let left = me.find_neighbour_panel(Direction::Left, &panels, &gutters).unwrap();
    assert_eq!(corners(left), (60, 100, 90, 200));
    let right = me.find_neighbour_panel(Direction::Right, &panels, &gutters).unwrap();
    assert_eq!(corners(right), (220, 100, 300, 200));
    let top = me.find_neighbour_panel(Direction::Top, &panels, &gutters).unwrap();
    assert_eq!(corners(top), (100, 50, 200, 90));
    let bottom = me.find_neighbour_panel(Direction::Bottom, &panels, &gutters).unwrap();
    assert_eq!(corners(bottom), (100, 210, 200, 300));
}

#[test]
fn find_neighbour_panel_finds_nothing_in_another_row() {
    let gutters = Gutters { x: 0, y: 0, r: 0, b: 0 };
    let me = bare(100, 100, 200, 200);
    let panels = vec![bare(0, 300, 50, 400), bare(300, 400, 500, 600)];
    assert!(me.find_neighbour_panel(Direction::Left, &panels, &gutters).is_none());
    assert!(me.find_neighbour_panel(Direction::Right, &panels, &gutters).is_none());
    assert!(me.find_neighbour_panel(Direction::Top, &panels, &gutters).is_none());
    assert!(me.find_neighbour_panel(Direction::Bottom, &panels, &gutters).is_none());
    assert!(me.find_neighbour_panel(Direction::Left, &[], &gutters).is_none());
}

#[test]
fn find_neighbour_panel_breaks_ties_by_position() {
    let gutters = Gutters { x: 0, y: 0, r: 0, b: 0 };
    let me = bare(100, 100, 200, 200);
    let panels = vec![
        bare(10, 100, 90, 200),
        bare(20, 110, 90, 190),
        bare(220, 100, 300, 200),
        bare(220, 110, 310, 190),
    ];
    let left = me.find_neighbour_panel(Direction::Left, &panels, &gutters).unwrap();
    assert_eq!(corners(left), (20, 110, 90, 190));
    let right = me.find_neighbour_panel(Direction::Right, &panels, &gutters).unwrap();
    assert_eq!(corners(right), (220, 100, 300, 200));
}

#[test]
fn a_panel_clone_has_the_same_box_and_outline() {
    let p = Panel::new(1, 2, 30, 40, vec![Point { x: 1, y: 2 }, Point { x: 30, y: 40 }]);
    let copy = p.clone();
    assert_eq!(corners(&copy), (1, 2, 30, 40));
    assert_eq!(copy.polygon, p.polygon);
}

#[test]
fn panel_from_outline_is_the_box_around_it() {
    let p = Panel::from_outline(vec![
        Point { x: 5, y: 7 },
        Point { x: 10, y: 3 },
        Point { x: 8, y: 20 },
    ]);
    assert_eq!(corners(&p), (5, 3, 9, 19));
    assert_eq!(p.polygon.len(), 3);
    let dot = Panel::from_outline(vec![Point { x: 4, y: 4 }]);
    assert_eq!(corners(&dot), (4, 4, 4, 4));
    assert_eq!((dot.width(), dot.height()), (1, 1));
}
