use libkumiko::config::Ratio;
use libkumiko::panel::{Point, Rect};
use libkumiko::simplify::{
    approximate_polygon, exceeds_tolerance, perpendicular_distance, tolerance, SquaredDistance,
};
use libkumiko::utils::{
    bounding_rect_from_points, calculate_polygon_area, calculate_polygon_perimeter, distance,
    isqrt,
};

fn pt(x: u32, y: u32) -> Point {
    Point { x, y }
}

#[test]
fn isqrt_rounds_down() {
    assert_eq!(isqrt(0), 0);
    assert_eq!(isqrt(1), 1);
    assert_eq!(isqrt(15), 3);
    assert_eq!(isqrt(16), 4);
    assert_eq!(isqrt(17), 4);
    assert_eq!(isqrt(1 << 40), 1 << 20);
    assert_eq!(isqrt(u128::MAX), u64::MAX);
}

#[test]
fn distance_is_in_1024ths_of_a_pixel() {
    assert_eq!(distance(&pt(0, 0), &pt(3, 4)), 5 * 1024);
    assert_eq!(distance(&pt(3, 4), &pt(0, 0)), 5 * 1024);
    assert_eq!(distance(&pt(7, 7), &pt(7, 7)), 0);
    assert_eq!(distance(&pt(0, 0), &pt(1, 1)), 1448);
    assert_eq!(distance(&pt(0, 0), &pt(0, 1)), 1024);
}

#[test]
fn perimeter_closes_the_outline() {
    let square = vec![pt(0, 0), pt(10, 0), pt(10, 10), pt(0, 10)];
    assert_eq!(calculate_polygon_perimeter(&square), 40 * 1024);
    assert_eq!(calculate_polygon_perimeter(&[pt(0, 0), pt(3, 4)]), 10 * 1024);
    assert_eq!(calculate_polygon_perimeter(&[pt(5, 5)]), 0);
    assert_eq!(calculate_polygon_perimeter(&[]), 0);
}

#[test]
fn area_is_doubled() {
    let square = vec![pt(0, 0), pt(10, 0), pt(10, 10), pt(0, 10)];
    assert_eq!(calculate_polygon_area(&square), 200);
    let reversed = vec![pt(0, 10), pt(10, 10), pt(10, 0), pt(0, 0)];
    assert_eq!(calculate_polygon_area(&reversed), 200);
    assert_eq!(calculate_polygon_area(&[pt(0, 0), pt(4, 0), pt(0, 3)]), 12);
    assert_eq!(calculate_polygon_area(&[pt(0, 0), pt(4, 0)]), 0);
    assert_eq!(calculate_polygon_area(&[pt(0, 0), pt(4, 0), pt(8, 0)]), 0);
}

#[test]
fn bounding_rect_spans_the_points() {
    let rect = bounding_rect_from_points(&[pt(5, 7), pt(10, 3), pt(8, 20)]);
    assert_eq!(rect, Rect::at(5, 3).of_size(5, 17));
    assert_eq!(rect.right(), 9);
    assert_eq!(rect.bottom(), 19);
}

#[test]
fn bounding_rect_of_one_point_and_of_none() {
    assert_eq!(bounding_rect_from_points(&[pt(4, 4)]), Rect::at(4, 4).of_size(1, 1));
    assert_eq!(bounding_rect_from_points(&[]), Rect::at(-1, -1).of_size(1, 1));
    assert_eq!(
        bounding_rect_from_points(&[pt(4, 4), pt(4, 9)]),
        Rect::at(4, 4).of_size(1, 5)
    );
}

fn squared(num: u128, den: u128) -> SquaredDistance {
    SquaredDistance { num, den }
}

#[test]
fn perpendicular_distance_to_a_line_and_to_a_point() {
    assert_eq!(perpendicular_distance(&pt(5, 5), &pt(0, 0), &pt(10, 0)), squared(2500, 100));
    assert_eq!(perpendicular_distance(&pt(50, 5), &pt(0, 0), &pt(10, 0)), squared(2500, 100));
    assert_eq!(perpendicular_distance(&pt(5, 0), &pt(0, 0), &pt(10, 0)), squared(0, 100));
    assert_eq!(perpendicular_distance(&pt(0, 7), &pt(3, 3), &pt(3, 3)), squared(25, 1));
    assert_eq!(perpendicular_distance(&pt(0, 10), &pt(0, 0), &pt(10, 10)), squared(10000, 200));
    assert_eq!(
        perpendicular_distance(&pt(2000, 1), &pt(0, 0), &pt(2001, 1)),
        squared(1, 2001 * 2001 + 1)
    );
}

#[test]
fn exceeds_tolerance_compares_without_rounding() {
    assert!(!exceeds_tolerance(squared(2500, 100), 5 * 1024));
    assert!(exceeds_tolerance(squared(2500, 100), 5 * 1024 - 1));
    assert!(!exceeds_tolerance(squared(0, 100), 0));
    assert!(exceeds_tolerance(squared(1, 2001 * 2001 + 1), 0));
    assert!(!exceeds_tolerance(squared(1, 2001 * 2001 + 1), 1));
    assert!(exceeds_tolerance(squared(1, 1024 * 1024 + 1), 0));
    assert!(!exceeds_tolerance(squared(1, 1024 * 1024), 1));
    assert!(exceeds_tolerance(squared(1, 1024 * 1024 - 1), 1));
    assert!(!exceeds_tolerance(squared(1 << 106, 1), u128::MAX));
    assert!(!exceeds_tolerance(squared(1 << 106, 1), 1 << 64));
    assert!(exceeds_tolerance(squared(1 << 106, 1), (1 << 63) - 1));
    assert!(!exceeds_tolerance(squared(1 << 106, 1), 1 << 63));
}

#[test]
fn approximate_polygon_drops_points_within_tolerance() {
    let bent = vec![pt(0, 0), pt(5, 1), pt(10, 0)];
    assert_eq!(approximate_polygon(&bent, 2048), vec![pt(0, 0), pt(10, 0)]);
    assert_eq!(approximate_polygon(&bent, 1024), vec![pt(0, 0), pt(10, 0)]);
    assert_eq!(approximate_polygon(&bent, 1023), bent);
}

#[test]
fn approximate_polygon_keeps_short_outlines() {
    assert_eq!(approximate_polygon(&[], 0), vec![]);
    assert_eq!(approximate_polygon(&[pt(1, 1)], 0), vec![pt(1, 1)]);
    assert_eq!(approximate_polygon(&[pt(1, 1), pt(9, 9)], 99999), vec![pt(1, 1), pt(9, 9)]);
}

#[test]
fn zero_tolerance_keeps_an_outline_that_bends() {
    let outline = vec![pt(0, 0), pt(5, 3), pt(10, 0), pt(12, 8)];
    assert_eq!(approximate_polygon(&outline, 0), outline);
}

#[test]
fn zero_tolerance_keeps_a_point_that_is_barely_off_the_line() {
    let outline = vec![pt(0, 0), pt(2000, 1), pt(2001, 1)];
    assert_eq!(approximate_polygon(&outline, 0), outline);
    let long = vec![pt(0, 0), pt(30_000_000, 1), pt(60_000_000, 1)];
    assert_eq!(approximate_polygon(&long, 0), long);
    assert_eq!(approximate_polygon(&long, 511), long);
    assert_eq!(approximate_polygon(&long, 512), vec![pt(0, 0), pt(60_000_000, 1)]);
}

#[test]
fn zero_tolerance_still_drops_points_on_the_line() {
    let line = vec![pt(0, 0), pt(5, 0), pt(10, 0)];
    assert_eq!(approximate_polygon(&line, 0), vec![pt(0, 0), pt(10, 0)]);
}

#[test]
fn approximate_polygon_cuts_at_the_first_farthest_point() {
    let square = vec![pt(0, 0), pt(300, 0), pt(300, 400), pt(0, 400)];
    assert_eq!(approximate_polygon(&square, 14 * 1024), square);
    let spike = vec![pt(0, 0), pt(10, 1), pt(20, 50), pt(30, 1), pt(40, 0)];
    assert_eq!(
        approximate_polygon(&spike, 10 * 1024),
        vec![pt(0, 0), pt(20, 50), pt(40, 0)]
    );
    assert_eq!(approximate_polygon(&spike, 5 * 1024), spike);
    assert_eq!(approximate_polygon(&spike, 50 * 1024), vec![pt(0, 0), pt(40, 0)]);
}

#[test]
fn tolerance_is_a_fraction_of_the_perimeter() {
    assert_eq!(tolerance(Ratio { num: 1, den: 100 }, 40960), 409);
    assert_eq!(tolerance(Ratio { num: 0, den: 7 }, 40960), 0);
    assert_eq!(tolerance(Ratio { num: 3, den: 2 }, 5), 7);
    assert_eq!(tolerance(Ratio { num: 2, den: 1 }, u128::MAX), u128::MAX);
}
