//! Getting an array ready to be written as an image file.
use vstd::prelude::*;
use crate::array3::{
    array3_elements,
    array3_is_standard,
    array3_shape,
    logical_index,
    ByteArray3,
};

verus! {

/// Why an array cannot be written as an image.
#[derive(Debug, Clone, Copy, PartialEq, Eq, Structural)]
pub enum SaveError {
    /// The array does not lie in memory in logical order.
    NotStandardLayout,
    /// The array has neither three nor four channels.
    UnsupportedChannels,
}

/// The bytes of an image, row by row, with its size and its number of
/// channels: 3 or 4.
#[derive(Debug)]
pub struct RawImage {
    pub width: usize,
    pub height: usize,
    pub channels: usize,
    pub data: Vec<u8>,
}

/// Whether `image` is the image held by `array`, whose axes are row,
/// column and channel.
pub open spec fn is_image_of(image: RawImage, array: ByteArray3) -> bool {
    &&& image.height == array3_shape(array).0
    &&& image.width == array3_shape(array).1
    &&& image.channels == array3_shape(array).2
    &&& image.data@ == array3_elements(array)
}

/// Whether an image has three or four channels.
pub open spec fn channels_supported(channels: usize) -> bool {
    channels == 3 || channels == 4
}

/// The image held by an array whose axes are row, column and channel, read
/// as one run of bytes.
///
/// An array that does not lie in memory in logical order is refused as
/// `NotStandardLayout`; otherwise one with neither three nor four channels
/// as `UnsupportedChannels`.
pub fn array3_image(array: &ByteArray3) -> (r: Result<RawImage, SaveError>)
    ensures
        r.is_ok() == (array3_is_standard(*array) && channels_supported(array3_shape(*array).2)),
        r.is_ok() ==> is_image_of(r.unwrap(), *array),
        r.is_err() ==> r.unwrap_err() == (if !array3_is_standard(*array) {
            SaveError::NotStandardLayout
        } else {
            SaveError::UnsupportedChannels
        }),
{
    let (height, width, channels) = array.dim();
    match array.to_vec() {
        None => Err(SaveError::NotStandardLayout),
        Some(data) => {
            if channels == 3 || channels == 4 {
                Ok(RawImage { width, height, channels, data })
            } else {
                Err(SaveError::UnsupportedChannels)
            }
        },
    }
}

/// The image held by an array whose axes are row, column and channel, read
/// element by element, whatever the array's layout in memory.
///
/// An array with neither three nor four channels is refused as
/// `UnsupportedChannels`.
pub fn array3_pixels(array: &ByteArray3) -> (r: Result<RawImage, SaveError>)
    ensures
        r.is_ok() == channels_supported(array3_shape(*array).2),
        r.is_ok() ==> is_image_of(r.unwrap(), *array),
        r.is_err() ==> r.unwrap_err() == SaveError::UnsupportedChannels,
{
    let (height, width, channels) = array.dim();
    if channels != 3 && channels != 4 {
        return Err(SaveError::UnsupportedChannels);
    }
    let ghost elements = array3_elements(*array);
    let mut data: Vec<u8> = Vec::new();
    let mut y: usize = 0;
    proof {
        assert(logical_index(width, channels, 0, 0, 0) == 0) by (nonlinear_arith);
        assert(data@ == elements.take(0));
    }
    while y < height
        invariant
            y <= height,
            (height, width, channels) == array3_shape(*array),
            channels == 3 || channels == 4,
            elements == array3_elements(*array),
            elements.len() == height * width * channels,
            data@ == elements.take(logical_index(width, channels, y as int, 0, 0)),
            0 <= logical_index(width, channels, y as int, 0, 0) <= elements.len(),
        decreases height - y,
    {
        let mut x: usize = 0;
        while x < width
            invariant
                x <= width,
                y < height,
                (height, width, channels) == array3_shape(*array),
                channels == 3 || channels == 4,
                elements == array3_elements(*array),
                elements.len() == height * width * channels,
                data@ == elements.take(logical_index(width, channels, y as int, x as int, 0)),
                0 <= logical_index(width, channels, y as int, x as int, 0) <= elements.len(),
            decreases width - x,
        {
            proof {
                lemma_pixel_within(
                    height as int,
                    width as int,
                    channels as int,
                    y as int,
                    x as int,
                );
            }
            let mut c: usize = 0;
            while c < channels
                invariant
                    c <= channels,
                    x < width,
                    y < height,
                    (height, width, channels) == array3_shape(*array),
                    elements == array3_elements(*array),
                    logical_index(width, channels, y as int, x as int, 0) + channels
                        <= elements.len(),
                    0 <= logical_index(width, channels, y as int, x as int, 0),
                    data@ == elements.take(
                        logical_index(width, channels, y as int, x as int, c as int),
                    ),
                decreases channels - c,
            {
                let ghost at = logical_index(width, channels, y as int, x as int, c as int);
                let v = array.get(y, x, c);
                data.push(v.unwrap());
                proof {
                    assert(elements.take(at + 1) == elements.take(at).push(elements[at]));
                }
                c += 1;
            }
            x += 1;
            proof {
                assert(logical_index(width, channels, y as int, x as int, 0) == logical_index(
                    width,
                    channels,
                    y as int,
                    x - 1,
                    channels as int,
                )) by (nonlinear_arith);
            }
        }
        y += 1;
        proof {
            assert(logical_index(width, channels, y as int, 0, 0) == logical_index(
                width,
                channels,
                y - 1,
                width as int,
                0,
            )) by (nonlinear_arith);
        }
    }
    proof {
        assert(logical_index(width, channels, height as int, 0, 0) == height * width * channels)
            by (nonlinear_arith);
        assert(elements.take(elements.len() as int) == elements);
    }
    Ok(RawImage { width, height, channels, data })
}

/// The elements of the pixel in column `x` of row `y` lie within the
/// array's elements.
proof fn lemma_pixel_within(height: int, width: int, channels: int, y: int, x: int)
    requires
        0 <= y < height,
        0 <= x < width,
        0 < channels,
    ensures
        0 <= (y * width + x) * channels,
        (y * width + x) * channels + channels <= height * width * channels,
{
    crate::pixel_buffer::lemma_pixel_in_bounds(width, height, x, y);
    let p = y * width + x;
    let n = width * height;
    assert(0 <= p * channels) by (nonlinear_arith)
        requires
            0 <= p,
            0 < channels,
    ;
    assert((p + 1) * channels <= n * channels) by (nonlinear_arith)
        requires
            p + 1 <= n,
            0 < channels,
    ;
    assert((p + 1) * channels == p * channels + channels) by (nonlinear_arith);
    assert(n * channels == height * width * channels) by (nonlinear_arith)
        requires
            n == width * height,
    ;
}

} // verus!
