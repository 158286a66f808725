//! The ways in which a matching call can fail.
use vstd::prelude::*;

verus! {

/// Why a matching call produced no result.
#[derive(Debug, Clone, Copy, PartialEq, Eq, Structural)]
pub enum ImageMatchError {
    /// No display surface could be captured.
    CaptureUnavailable,
    /// A required template file was missing, empty or corrupt.
    TemplateUnreadable,
    /// The template is wider or taller than the source it is searched in.
    TemplateLargerThanSource,
    /// The number of samples does not fit the declared dimensions.
    InvalidBufferShape,
}

impl ImageMatchError {
    /// A short description of the error, for messages.
    pub fn message(&self) -> (text: &'static str)
        ensures
            text@ == match *self {
                ImageMatchError::CaptureUnavailable => "no capturable surface"@,
                ImageMatchError::TemplateUnreadable => "template cannot be read"@,
                ImageMatchError::TemplateLargerThanSource => "template larger than source"@,
                ImageMatchError::InvalidBufferShape => "sample count does not match shape"@,
            },
    {
        match self {
            ImageMatchError::CaptureUnavailable => "no capturable surface",
            ImageMatchError::TemplateUnreadable => "template cannot be read",
            ImageMatchError::TemplateLargerThanSource => "template larger than source",
            ImageMatchError::InvalidBufferShape => "sample count does not match shape",
        }
    }
}

} // verus!
