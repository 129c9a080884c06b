//! Telling the ink of a page from its background.

use vstd::prelude::*;

verus! {

/// A page in shades of grey, row after row from the top, each row from the left.
#[derive(Debug)]
pub struct GrayPage {
    pub width: u32,
    pub height: u32,
    pub pixels: Vec<u8>,
}

impl Clone for GrayPage {
    fn clone(&self) -> (copy: Self)
        ensures
            copy.width == self.width,
            copy.height == self.height,
            copy.pixels@ == self.pixels@,
    {
        let pixels = self.pixels.clone();
        assert(pixels@ =~= self.pixels@);
        GrayPage { width: self.width, height: self.height, pixels }
    }
}

impl GrayPage {
    /// A page holds one shade for each of its pixels.
    pub open spec fn wf(&self) -> bool {
        self.pixels@.len() == self.width * self.height
    }
}

/// The shade that a page is printed on.
#[derive(Debug, Clone, Copy, PartialEq, Eq, Structural)]
pub enum Background {
    White,
    Black,
}

/// Shades above this count as white.
pub const WHITE_ABOVE: u8 = 200;

/// Shades below this count as black.
pub const BLACK_BELOW: u8 = 50;

/// How many of the shades count as white.
pub open spec fn white_count(pixels: Seq<u8>) -> nat
    decreases pixels.len(),
{
    if pixels.len() == 0 {
        0
    } else {
        white_count(pixels.drop_last()) + if pixels.last() > WHITE_ABOVE { 1nat } else { 0nat }
    }
}

/// How many of the shades count as black.
pub open spec fn black_count(pixels: Seq<u8>) -> nat
    decreases pixels.len(),
{
    if pixels.len() == 0 {
        0
    } else {
        black_count(pixels.drop_last()) + if pixels.last() < BLACK_BELOW { 1nat } else { 0nat }
    }
}

/// The background of a page: white where more shades count as white than as
/// black, else black.
pub open spec fn spec_background(pixels: Seq<u8>) -> Background {
    if white_count(pixels) > black_count(pixels) {
        Background::White
    } else {
        Background::Black
    }
}

/// The threshold for a background, and whether shades above it are background.
pub open spec fn spec_threshold(background: Background) -> (u8, bool) {
    match background {
        Background::White => (220u8, true),
        Background::Black => (50u8, false),
    }
}

/// The mark of one shade in the mask: 255 for ink, 0 for background. With
/// `invert`, shades above the threshold are background, else shades up to it.
pub open spec fn mask_value(shade: u8, threshold: u8, invert: bool) -> u8 {
    if invert == (shade > threshold) { 0u8 } else { 255u8 }
}

/// The mask of a page for a threshold.
pub open spec fn spec_mask(pixels: Seq<u8>, threshold: u8, invert: bool) -> Seq<u8> {
    Seq::new(pixels.len(), |i: int| mask_value(pixels[i], threshold, invert))
}

/// The mask of a page under the threshold that goes with its background.
pub open spec fn page_mask(pixels: Seq<u8>) -> Seq<u8> {
    let t = spec_threshold(spec_background(pixels));
    spec_mask(pixels, t.0, t.1)
}

/// The background of the page.
pub fn get_background_color(img: &GrayPage) -> (background: Background)
    ensures
        background == spec_background(img.pixels@),
{
    let n: usize = img.pixels.len();
    let mut white_pixels: usize = 0;
    let mut black_pixels: usize = 0;
    let mut i: usize = 0;
    while i < n
        invariant
            i <= n,
            n == img.pixels@.len(),
            white_pixels == white_count(img.pixels@.take(i as int)),
            black_pixels == black_count(img.pixels@.take(i as int)),
            white_pixels <= i,
            black_pixels <= i,
        decreases n - i,
    {
        let pixel: u8 = img.pixels[i];
        assert(img.pixels@.take(i + 1).drop_last() == img.pixels@.take(i as int));
        assert(img.pixels@.take(i + 1).last() == pixel);
        if pixel > WHITE_ABOVE {
            white_pixels += 1;
        } else if pixel < BLACK_BELOW {
            black_pixels += 1;
        }
        i += 1;
    }
    assert(img.pixels@.take(i as int) == img.pixels@);
    if white_pixels > black_pixels {
        Background::White
    } else {
        Background::Black
    }
}

/// The threshold for a background, and whether shades above it are background.
pub fn threshold_for(background: Background) -> (policy: (u8, bool))
    ensures
        policy == spec_threshold(background),
{
    match background {
        Background::White => (220, true),
        Background::Black => (50, false),
    }
}

/// The mask of the page: 255 where there is ink, 0 elsewhere.
pub fn binarize(img: &GrayPage, threshold: u8, invert: bool) -> (mask: Vec<u8>)
    ensures
        mask@ == spec_mask(img.pixels@, threshold, invert),
        mask@.len() == img.pixels@.len(),
{
    let n: usize = img.pixels.len();
    let mut mask: Vec<u8> = Vec::new();
    let mut i: usize = 0;
    while i < n
        invariant
            i <= n,
            n == img.pixels@.len(),
            mask@.len() == i,
            forall|k: int|
                0 <= k < i ==> #[trigger] mask@[k] == mask_value(
                    img.pixels@[k],
                    threshold,
                    invert,
                ),
        decreases n - i,
    {
        let val: u8 = img.pixels[i];
        let mark: u8 = if invert {
            if val > threshold { 0 } else { 255 }
        } else {
            if val > threshold { 255 } else { 0 }
        };
        mask.push(mark);
        i += 1;
    }
    assert(mask@ =~= spec_mask(img.pixels@, threshold, invert));
    mask
}

} // verus!
