//! Tracing the outlines of the inked regions of a mask.

use crate::panel::Point;
use vstd::prelude::*;

verus! {

/// The outlines that border following finds in a mask of the given width
/// and height, each outline a closed walk along the border of one region.
pub uninterp spec fn traced_outlines(width: u32, height: u32, mask: Seq<u8>) -> Seq<Seq<Point>>;

/// The point sequences that a list of outlines holds.
pub open spec fn outlines_of(outlines: Seq<Vec<Point>>) -> Seq<Seq<Point>> {
    outlines.map_values(|o: Vec<Point>| o@)
}

/// Whether every point of every outline lies on a page of the given size.
pub open spec fn on_page(outlines: Seq<Seq<Point>>, width: u32, height: u32) -> bool {
    forall|i: int, k: int|
        0 <= i < outlines.len() && 0 <= k < outlines[i].len() ==> (#[trigger] outlines[i][k]).x
            < width && outlines[i][k].y < height
}

/// Calls `imageproc::contours::find_contours` on the mask as a grey image
/// built by `image::GrayImage::from_raw`. Every non-zero pixel counts as ink.
/// The result depends on the mask alone and is named `traced_outlines`; its
/// points are positions of pixels of the mask, so they lie on the page. The
/// outside function turns pixel positions and their neighbours into `i32`,
/// so neither side of the mask may be longer than the largest `i32`.
#[verifier::external_body]
pub(crate) fn trace_outlines(width: u32, height: u32, mask: Vec<u8>) -> (outlines: Vec<
    Vec<Point>,
>)
    requires
        mask@.len() == width * height,
        width <= i32::MAX,
        height <= i32::MAX,
    ensures
        outlines_of(outlines@) == traced_outlines(width, height, mask@),
        on_page(outlines_of(outlines@), width, height),
{
    match image::GrayImage::from_raw(width, height, mask) {
        Some(image) => imageproc::contours::find_contours::<u32>(&image)
            .into_iter()
            .map(|c| c.points.into_iter().map(|p| Point { x: p.x, y: p.y }).collect())
            .collect(),
        None => Vec::new(),
    }
}

} // verus!
