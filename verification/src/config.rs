//! Tuning values of the panel extraction.

use vstd::prelude::*;

verus! {

/// Pixel offsets applied when an edge is moved toward a neighbouring panel:
/// `x` for the left edge, `y` for the top, `r` for the right, `b` for the
/// bottom. Each is added to the edge of the neighbour that the moved edge faces.
#[derive(Debug, Clone, Copy)]
pub struct Gutters {
    pub x: i32,
    pub y: i32,
    pub r: i32,
    pub b: i32,
}

/// Order in which the panels of one row are read.
#[derive(Debug, Clone, Copy, PartialEq, Eq, Structural)]
pub enum ReadingDirection {
    Ltr,
    Rtl,
}

/// A non-negative fraction `num / den`, kept exact.
#[derive(Debug, Clone, Copy)]
pub struct Ratio {
    pub num: u32,
    pub den: u32,
}

impl Ratio {
    /// A fraction is usable when its denominator is not zero.
    pub open spec fn wf(&self) -> bool {
        self.den > 0
    }
}

/// What the panel extraction is tuned by.
#[derive(Debug, Clone, Copy)]
pub struct KumikoConfig {
    pub gutters: Gutters,
    /// Fraction of a page dimension below which a panel counts as small.
    pub small_panel_ratio: Ratio,
    /// Simplification tolerance, as a fraction of an outline's perimeter.
    pub rdp_epsilon: Ratio,
    pub reading_direction: ReadingDirection,
}

impl KumikoConfig {
    /// A configuration is usable when both of its fractions are.
    pub open spec fn wf(&self) -> bool {
        self.small_panel_ratio.wf() && self.rdp_epsilon.wf()
    }
}

impl Default for KumikoConfig {
    fn default() -> (c: Self)
        ensures
            c.gutters.x == -2,
            c.gutters.y == -2,
            c.gutters.r == 2,
            c.gutters.b == 2,
            c.small_panel_ratio.num == 1,
            c.small_panel_ratio.den == 15,
            c.rdp_epsilon.num == 1,
            c.rdp_epsilon.den == 100,
            c.reading_direction == ReadingDirection::Ltr,
            c.wf(),
    {
        KumikoConfig {
            gutters: Gutters { x: -2, y: -2, r: 2, b: 2 },
            small_panel_ratio: Ratio { num: 1, den: 15 },
            rdp_epsilon: Ratio { num: 1, den: 100 },
            reading_direction: ReadingDirection::Ltr,
        }
    }
}

} // verus!
