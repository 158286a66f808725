//! A rectangular grid of 8-bit samples.
use vstd::prelude::*;
use crate::image_match_error::ImageMatchError;

verus! {

/// The colour, as red, green and blue, held at sample offset `base` of
/// `samples`, which stores each pixel as blue, green, red.
pub open spec fn color_at(samples: Seq<u8>, base: int) -> (u8, u8, u8) {
    (samples[base + 2], samples[base + 1], samples[base])
}

/// Whether `len` samples fill a grid of `width` by `height` pixels of
/// `channels` samples each, with one channel (grey) or three (colour).
pub open spec fn shape_fits(width: nat, height: nat, channels: nat, len: nat) -> bool {
    (channels == 1 || channels == 3) && len == width * height * channels
}

/// A grid of pixels, stored row by row without padding. A buffer of three
/// channels stores each pixel as blue, green, red.
#[derive(Debug)]
pub struct PixelBuffer {
    width: usize,
    height: usize,
    channels: usize,
    samples: Vec<u8>,
}

impl View for PixelBuffer {
    type V = Seq<u8>;

    /// The samples, row by row.
    closed spec fn view(&self) -> Seq<u8> {
        self.samples@
    }
}

impl PixelBuffer {
    #[verifier::type_invariant]
    spec fn well_formed(self) -> bool {
        shape_fits(
            self.width as nat,
            self.height as nat,
            self.channels as nat,
            self.samples@.len(),
        )
    }

    /// The number of pixels in a row.
    pub closed spec fn spec_width(self) -> nat {
        self.width as nat
    }

    /// The number of rows.
    pub closed spec fn spec_height(self) -> nat {
        self.height as nat
    }

    /// The number of samples per pixel.
    pub closed spec fn spec_channels(self) -> nat {
        self.channels as nat
    }

    /// The number of pixels.
    pub open spec fn spec_pixel_count(self) -> nat {
        self.spec_width() * self.spec_height()
    }

    /// The colour of pixel `i`, counted row by row, of a colour buffer.
    pub open spec fn spec_pixel_at(self, i: int) -> (u8, u8, u8) {
        color_at(self@, 3 * i)
    }

    /// The colour of the pixel in column `x` of row `y` of a colour buffer.
    pub open spec fn spec_pixel(self, x: int, y: int) -> (u8, u8, u8) {
        self.spec_pixel_at(y * self.spec_width() + x)
    }

    /// Builds a buffer from its shape and samples. The shape is refused
    /// unless `channels` is 1 or 3 and `samples` holds exactly
    /// `width * height * channels` values.
    pub fn new(width: usize, height: usize, channels: usize, samples: Vec<u8>) -> (r: Result<
        PixelBuffer,
        ImageMatchError,
    >)
        ensures
            shape_fits(width as nat, height as nat, channels as nat, samples@.len()) ==> r.is_ok(),
            !shape_fits(width as nat, height as nat, channels as nat, samples@.len()) ==> r
                == Err::<PixelBuffer, ImageMatchError>(ImageMatchError::InvalidBufferShape),
            r.is_ok() ==> r.unwrap()@ == samples@ && r.unwrap().spec_width() == width
                && r.unwrap().spec_height() == height && r.unwrap().spec_channels() == channels,
    {
        if channels != 1 && channels != 3 {
            return Err(ImageMatchError::InvalidBufferShape);
        }
        let len: usize = samples.len();
        if width == 0 || height == 0 {
            assert(width * height * channels == 0) by (nonlinear_arith)
                requires
                    width == 0 || height == 0,
            ;
            if len != 0 {
                return Err(ImageMatchError::InvalidBufferShape);
            }
            return Ok(PixelBuffer { width, height, channels, samples });
        }
        // Both sides are at least 1 here, so a product beyond `usize` is
        // also beyond any length a vector can have.
        match width.checked_mul(height) {
            None => {
                assert(width * height * channels > len) by (nonlinear_arith)
                    requires
                        width * height > usize::MAX,
                        len <= usize::MAX,
                        channels >= 1,
                ;
                Err(ImageMatchError::InvalidBufferShape)
            },
            Some(pixels) => match pixels.checked_mul(channels) {
                None => Err(ImageMatchError::InvalidBufferShape),
                Some(total) => {
                    if total == len {
                        Ok(PixelBuffer { width, height, channels, samples })
                    } else {
                        Err(ImageMatchError::InvalidBufferShape)
                    }
                },
            },
        }
    }

    /// The number of pixels in a row.
    pub fn width(&self) -> (w: usize)
        ensures
            w == self.spec_width(),
            shape_fits(self.spec_width(), self.spec_height(), self.spec_channels(), self@.len()),
    {
        proof {
            use_type_invariant(self);
        }
        self.width
    }

    /// The number of rows.
    pub fn height(&self) -> (h: usize)
        ensures
            h == self.spec_height(),
            shape_fits(self.spec_width(), self.spec_height(), self.spec_channels(), self@.len()),
    {
        proof {
            use_type_invariant(self);
        }
        self.height
    }

    /// The number of samples per pixel: 1 or 3.
    pub fn channels(&self) -> (c: usize)
        ensures
            c == self.spec_channels(),
            c == 1 || c == 3,
    {
        proof {
            use_type_invariant(self);
        }
        self.channels
    }

    /// The samples, row by row.
    pub fn samples(&self) -> (s: &Vec<u8>)
        ensures
            s@ == self@,
            shape_fits(self.spec_width(), self.spec_height(), self.spec_channels(), self@.len()),
    {
        proof {
            use_type_invariant(self);
        }
        &self.samples
    }

    /// The number of pixels.
    pub fn pixel_count(&self) -> (n: usize)
        ensures
            n == self.spec_pixel_count(),
            shape_fits(self.spec_width(), self.spec_height(), self.spec_channels(), self@.len()),
    {
        let len: usize = self.samples.len();
        proof {
            use_type_invariant(self);
            let pixels: int = self.width * self.height;
            assert(0 <= pixels) by (nonlinear_arith)
                requires
                    pixels == self.width * self.height,
            ;
            assert(pixels <= pixels * self.channels) by (nonlinear_arith)
                requires
                    0 <= pixels,
                    self.channels >= 1,
            ;
        }
        self.width * self.height
    }

    /// The colour of pixel `i`, counted row by row.
    pub fn pixel_at(&self, i: usize) -> (c: (u8, u8, u8))
        requires
            self.spec_channels() == 3,
            i < self.spec_pixel_count(),
        ensures
            c == self.spec_pixel_at(i as int),
    {
        let len: usize = self.samples.len();
        proof {
            use_type_invariant(self);
            let pixels: int = self.width * self.height;
            assert(len == pixels * 3);
        }
        let base: usize = 3 * i;
        (self.samples[base + 2], self.samples[base + 1], self.samples[base])
    }

    /// The colour of the pixel in column `x` of row `y`.
    pub fn pixel(&self, x: usize, y: usize) -> (c: (u8, u8, u8))
        requires
            self.spec_channels() == 3,
            x < self.spec_width(),
            y < self.spec_height(),
        ensures
            c == self.spec_pixel(x as int, y as int),
    {
        let len: usize = self.samples.len();
        proof {
            use_type_invariant(self);
            lemma_pixel_in_bounds(self.width as int, self.height as int, x as int, y as int);
            let pixels: int = self.width * self.height;
            assert(len == pixels * 3);
        }
        self.pixel_at(y * self.width + x)
    }
}

/// The three samples of a pixel inside a grid lie inside the grid's samples.
pub proof fn lemma_pixel_in_bounds(width: int, height: int, x: int, y: int)
    requires
        0 <= x < width,
        0 <= y < height,
    ensures
        0 <= y * width <= y * width + x < width * height,
{
    assert(0 <= y * width) by (nonlinear_arith)
        requires
            0 <= y,
            0 < width,
    ;
    assert((y + 1) * width <= height * width) by (nonlinear_arith)
        requires
            y + 1 <= height,
            0 < width,
    ;
    assert((y + 1) * width == y * width + width) by (nonlinear_arith);
    assert(height * width == width * height) by (nonlinear_arith);
}

} // verus!
