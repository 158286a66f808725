//! The ways in which taking a screenshot can fail.
use vstd::prelude::*;

verus! {

/// Why no screenshot was made.
#[derive(Debug, Clone, Copy, PartialEq, Eq, Structural)]
pub enum ScreenshotError {
    /// The capture itself failed.
    Capture,
    /// The captured bytes do not fill the captured size.
    Shape,
    /// There is no monitor to capture.
    NoMonitorFound,
    /// Converting the captured image failed.
    OpenCV,
}

} // verus!
