//! Core model of a marker-driven slideshow: a markdown document is split on a
//! literal horizontal-rule delimiter into slides, each slide's text is scanned
//! for marker directive lines selecting demo widgets, and a controller holds
//! the cyclic slide cursor together with the demo widget state, including a
//! freehand painting model over normalized integer coordinates.

use vstd::prelude::*;

pub mod painting;
pub mod presentation;
pub mod slide;
pub mod text;

verus! {

/// Unit scale of the fixed-point normalized coordinates used by the painting
/// model: a coordinate of `POINT_UNIT` stands for 1.0 in the 0-1 space.
pub const POINT_UNIT: u32 = 65536;

} // verus!
