use libkumiko::binarize::{binarize, get_background_color, threshold_for, Background, GrayPage};
use libkumiko::config::{Gutters, KumikoConfig, Ratio, ReadingDirection};
use libkumiko::panel::{Point, SerializablePanel};
use libkumiko::processing::{build_panels, can_process, find_panels, panels_from_outlines};

fn pt(x: u32, y: u32) -> Point {
    Point { x, y }
}

fn boxed(x: i32, y: i32, width: i32, height: i32) -> SerializablePanel {
    SerializablePanel { x, y, width, height }
}

fn blank(width: u32, height: u32, shade: u8) -> GrayPage {
    GrayPage { width, height, pixels: vec![shade; (width * height) as usize] }
}

fn draw_frame(page: &mut GrayPage, left: u32, top: u32, right: u32, bottom: u32, thick: u32) {
    for y in top..=bottom {
        for x in left..=right {
            let on_rim = x < left + thick
                || x + thick > right
                || y < top + thick
                || y + thick > bottom;
            if on_rim {
                page.pixels[(y * page.width + x) as usize] = 0;
            }
        }
    }
}

fn two_columns() -> Vec<Vec<Point>> {
    vec![
        vec![pt(0, 0), pt(300, 0), pt(300, 400), pt(0, 400)],
        vec![pt(320, 0), pt(700, 0), pt(700, 400), pt(320, 400)],
    ]
}

#[test]
fn default_config_values() {
    let config = KumikoConfig::default();
    assert_eq!(
        (config.gutters.x, config.gutters.y, config.gutters.r, config.gutters.b),
        (-2, -2, 2, 2)
    );
    assert_eq!((config.small_panel_ratio.num, config.small_panel_ratio.den), (1, 15));
    assert_eq!((config.rdp_epsilon.num, config.rdp_epsilon.den), (1, 100));
    assert_eq!(config.reading_direction, ReadingDirection::Ltr);
}

#[test]
fn background_is_white_when_white_shades_outnumber_black() {
    assert_eq!(get_background_color(&blank(4, 4, 255)), Background::White);
    assert_eq!(get_background_color(&blank(4, 4, 0)), Background::Black);
    assert_eq!(get_background_color(&blank(4, 4, 128)), Background::Black);
    let page = GrayPage { width: 4, height: 1, pixels: vec![201, 200, 49, 50] };
    assert_eq!(get_background_color(&page), Background::Black);
    let page = GrayPage { width: 4, height: 1, pixels: vec![201, 202, 49, 50] };
    assert_eq!(get_background_color(&page), Background::White);
    assert_eq!(get_background_color(&blank(0, 0, 0)), Background::Black);
}

#[test]
fn threshold_goes_with_the_background() {
    assert_eq!(threshold_for(Background::White), (220, true));
    assert_eq!(threshold_for(Background::Black), (50, false));
}

#[test]
fn mask_marks_the_ink() {
    let page = GrayPage { width: 4, height: 1, pixels: vec![0, 220, 221, 255] };
    assert_eq!(binarize(&page, 220, true), vec![255, 255, 0, 0]);
    let page = GrayPage { width: 4, height: 1, pixels: vec![0, 50, 51, 255] };
    assert_eq!(binarize(&page, 50, false), vec![0, 0, 255, 255]);
}

#[test]
fn a_blank_white_page_has_no_panels() {
    let page = blank(100, 80, 255);
    assert_eq!(get_background_color(&page), Background::White);
    assert_eq!(threshold_for(get_background_color(&page)), (220, true));
    let (size, panels) = find_panels(&page, &KumikoConfig::default());
    assert_eq!(size, (100, 80));
    assert!(panels.is_empty());
}

#[test]
fn a_framed_region_on_a_white_page_is_one_panel() {
    let mut page = blank(100, 100, 255);
    draw_frame(&mut page, 10, 10, 89, 89, 3);
    let (size, panels) = find_panels(&page, &KumikoConfig::default());
    assert_eq!(size, (100, 100));
    assert_eq!(panels, vec![boxed(10, 10, 78, 78)]);
}

#[test]
fn two_frames_side_by_side_are_read_in_the_configured_direction() {
    let mut page = blank(200, 100, 255);
    draw_frame(&mut page, 10, 10, 89, 89, 3);
    draw_frame(&mut page, 110, 10, 189, 89, 3);
    let mut config = KumikoConfig::default();
    config.gutters = Gutters { x: 0, y: 0, r: 0, b: 0 };
    let (_, ltr) = find_panels(&page, &config);
    assert_eq!(ltr, vec![boxed(10, 10, 78, 78), boxed(110, 10, 78, 78)]);
    config.reading_direction = ReadingDirection::Rtl;
    let (_, rtl) = find_panels(&page, &config);
    assert_eq!(rtl, vec![boxed(110, 10, 78, 78), boxed(10, 10, 78, 78)]);
}

#[test]
fn build_panels_boxes_each_thinned_outline() {
    let panels = build_panels(&two_columns(), Ratio { num: 1, den: 100 });
    assert_eq!(panels.len(), 2);
    assert_eq!((panels[0].x, panels[0].y, panels[0].r, panels[0].b), (0, 0, 299, 399));
    assert_eq!((panels[1].x, panels[1].y, panels[1].r, panels[1].b), (320, 0, 699, 399));
    assert_eq!(panels[0].polygon, two_columns()[0]);
    let wobbly = vec![vec![pt(0, 0), pt(150, 1), pt(300, 0), pt(300, 400), pt(0, 400)]];
    let thinned = build_panels(&wobbly, Ratio { num: 1, den: 100 });
    assert_eq!(thinned[0].polygon, two_columns()[0]);
}

#[test]
fn outlines_of_two_columns_give_two_panels_with_the_gutter_between() {
    let config = KumikoConfig::default();
    let panels = panels_from_outlines(two_columns(), 1000, 1000, &config);
    assert_eq!(panels, vec![boxed(0, 0, 297, 399), boxed(322, 0, 377, 399)]);
}

#[test]
fn right_to_left_reading_reverses_a_row() {
    let mut config = KumikoConfig::default();
    config.reading_direction = ReadingDirection::Rtl;
    let panels = panels_from_outlines(two_columns(), 1000, 1000, &config);
    assert_eq!(panels, vec![boxed(322, 0, 377, 399), boxed(0, 0, 297, 399)]);
}

#[test]
fn small_outlines_are_dropped() {
    let mut outlines = two_columns();
    outlines.push(vec![pt(800, 800), pt(820, 800), pt(820, 820), pt(800, 820)]);
    let panels = panels_from_outlines(outlines, 1000, 1000, &KumikoConfig::default());
    assert_eq!(panels, vec![boxed(0, 0, 297, 399), boxed(322, 0, 377, 399)]);
}

#[test]
fn every_panel_handed_out_has_positive_size() {
    let config = KumikoConfig {
        gutters: Gutters { x: 0, y: 0, r: 0, b: 0 },
        small_panel_ratio: Ratio { num: 0, den: 1 },
        rdp_epsilon: Ratio { num: 1, den: 100 },
        reading_direction: ReadingDirection::Ltr,
    };
    let outlines = vec![vec![pt(5, 5)], vec![pt(50, 60), pt(50, 61)], two_columns()[0].clone()];
    let panels = panels_from_outlines(outlines, 1000, 1000, &config);
    assert!(!panels.is_empty());
    for p in &panels {
        assert!(p.width >= 1 && p.height >= 1);
    }
}

#[test]
fn no_outlines_give_no_panels() {
    let panels = panels_from_outlines(vec![], 1000, 1000, &KumikoConfig::default());
    assert!(panels.is_empty());
}

#[test]
fn can_process_tells_the_limits() {
    let config = KumikoConfig::default();
    assert!(can_process(&blank(10, 10, 255), &config));
    assert!(can_process(&blank(0, 0, 255), &config));
    let short = GrayPage { width: 10, height: 10, pixels: vec![0; 99] };
    assert!(!can_process(&short, &config));
    let wide = GrayPage { width: 0x400_0001, height: 0, pixels: vec![] };
    assert!(!can_process(&wide, &config));
    let widest = GrayPage { width: 0x400_0000, height: 0, pixels: vec![] };
    assert!(can_process(&widest, &config));
    let mut no_den = config;
    no_den.rdp_epsilon = Ratio { num: 1, den: 0 };
    assert!(!can_process(&blank(10, 10, 255), &no_den));
    let mut far = config;
    far.gutters = Gutters { x: 0, y: 0, r: 0x2000_0001, b: 0 };
    assert!(!can_process(&blank(10, 10, 255), &far));
    far.gutters = Gutters { x: -0x2000_0000, y: 0, r: 0x2000_0000, b: 0 };
    assert!(can_process(&blank(10, 10, 255), &far));
}

#[test]
fn a_dark_page_is_thresholded_the_other_way() {
    let mut page = blank(100, 100, 0);
    for y in 10..90u32 {
        for x in 10..90u32 {
            let on_rim = x < 13 || x >= 87 || y < 13 || y >= 87;
            if on_rim {
                page.pixels[(y * 100 + x) as usize] = 255;
            }
        }
    }
    assert_eq!(get_background_color(&page), Background::Black);
    let (_, panels) = find_panels(&page, &KumikoConfig::default());
    assert_eq!(panels, vec![boxed(10, 10, 78, 78)]);
}

#[test]
fn a_page_clone_is_the_same_page() {
    let page = GrayPage { width: 2, height: 1, pixels: vec![7, 9] };
    let copy = page.clone();
    assert_eq!((copy.width, copy.height, copy.pixels), (2, 1, vec![7, 9]));
}
