//! A terminal font shaping library: converts a run of text, a point size and
//! a display density into positioned glyph references, drawing glyphs from a
//! prioritized fallback chain of fonts so that characters absent from a
//! preferred font are still rendered by a later font in the chain.

use vstd::prelude::*;

pub mod cells;
pub mod cluster;
pub mod engine;
pub mod pane;
pub mod rasterizer;
pub mod shaper;
pub mod feature;
pub mod font;
pub mod units;
pub mod utf8;

verus! {

} // verus!
