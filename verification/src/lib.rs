//! Region capture, scrolling capture and stitching, and screenshot annotation logic.
use vstd::prelude::*;

pub mod image;
pub mod overlap;
pub mod stitch;
pub mod blur;
pub mod session;
pub mod editor;
pub mod desktop;
pub mod files;

verus! {

} // verus!
