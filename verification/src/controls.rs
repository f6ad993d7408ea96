//! The controls of the status bar: the zoom controls on the right and the thumbnail-strip
//! controls on the left. Their layout and tooltips are measured by the application.

use vstd::prelude::*;

verus! {

/// A zoom control of the status bar.
#[derive(Clone, Copy, Debug, PartialEq, Eq, Structural)]
pub enum StatusControl {
    ActualSize,
    ZoomMenu,
    ZoomOut,
    Slider,
    ZoomIn,
    Fullscreen,
}

/// A thumbnail-strip control of the status bar.
#[derive(Clone, Copy, Debug, PartialEq, Eq, Structural)]
pub enum ThumbnailControl {
    Toggle,
    DockMenu,
}

} // verus!
