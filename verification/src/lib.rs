//! Comic page panel extraction: geometry on integer pixel coordinates that
//! turns traced region outlines into an ordered list of panel boxes.

pub mod binarize;
pub mod bounds;
pub mod config;
pub mod contain;
pub mod contours;
pub mod expand;
pub mod group;
pub mod order;
pub mod overlap;
pub mod panel;
pub mod processing;
pub mod reading;
pub mod simplify;
pub mod split;
pub mod utils;

pub use crate::binarize::GrayPage;
pub use crate::config::{Gutters, KumikoConfig, Ratio, ReadingDirection};
pub use crate::panel::{Direction, Panel, Point, Rect, SerializablePanel};
pub use crate::processing::{can_process, find_panels, panels_from_outlines};
