//! Turning the bytes of a captured image into an array.
use vstd::prelude::*;
use crate::array3::{array3_elements, array3_is_standard, array3_shape, shape_accepts, ByteArray3};
use crate::screenshot_error::ScreenshotError;

verus! {

/// The array of a captured image of `width` by `height` pixels from its
/// bytes, four for each pixel: red, green, blue, alpha. Its axes are row,
/// column and channel.
///
/// The bytes are refused as `Shape` unless there are exactly
/// `height * width * 4` of them.
pub fn screenshot_to_ndarray(width: usize, height: usize, rgba_data: Vec<u8>) -> (r: Result<
    ByteArray3,
    ScreenshotError,
>)
    ensures
        r.is_ok() == shape_accepts(height, width, 4, rgba_data@.len()),
        r.is_err() ==> r.unwrap_err() == ScreenshotError::Shape,
        r.is_ok() ==> array3_elements(r.unwrap()) == rgba_data@ && array3_shape(r.unwrap()) == (
            height,
            width,
            4usize,
        ) && array3_is_standard(r.unwrap()),
{
    match ByteArray3::from_shape_vec(height, width, 4, rgba_data) {
        Some(array) => Ok(array),
        None => Err(ScreenshotError::Shape),
    }
}

} // verus!
