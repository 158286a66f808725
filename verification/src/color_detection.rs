//! Colour queries on a pixel buffer: the distance between two colours, and
//! the search for a colour within a tolerance.
use vstd::prelude::*;
use vstd::arithmetic::div_mod::{lemma_mod_bound, lemma_multiply_divide_lt, lemma_div_pos_is_pos};
use crate::pixel_buffer::PixelBuffer;

verus! {

/// The distance between two channel values.
pub open spec fn channel_gap(a: u8, b: u8) -> nat {
    if a >= b {
        (a - b) as nat
    } else {
        (b - a) as nat
    }
}

/// The distance between two colours: the sum of the distances of their
/// channels.
pub open spec fn spec_color_difference(a: (u8, u8, u8), b: (u8, u8, u8)) -> nat {
    channel_gap(a.0, b.0) + channel_gap(a.1, b.1) + channel_gap(a.2, b.2)
}

/// Whether pixel `i` of `buffer`, counted row by row, is within `tolerance`
/// of `target`.
pub open spec fn pixel_matches(
    buffer: PixelBuffer,
    i: int,
    target: (u8, u8, u8),
    tolerance: u32,
) -> bool {
    spec_color_difference(buffer.spec_pixel_at(i), target) <= tolerance
}

/// Whether some pixel of `buffer` is within `tolerance` of `target`.
pub open spec fn has_match(buffer: PixelBuffer, target: (u8, u8, u8), tolerance: u32) -> bool {
    exists|i: int| 0 <= i < buffer.spec_pixel_count() && pixel_matches(buffer, i, target, tolerance)
}

/// Whether pixel `i` is the first, row by row, within `tolerance` of
/// `target`.
pub open spec fn is_first_match(
    buffer: PixelBuffer,
    i: int,
    target: (u8, u8, u8),
    tolerance: u32,
) -> bool {
    &&& 0 <= i < buffer.spec_pixel_count()
    &&& pixel_matches(buffer, i, target, tolerance)
    &&& forall|j: int| 0 <= j < i ==> !pixel_matches(buffer, j, target, tolerance)
}

/// Whether `coord` is the absolute coordinate of the first pixel, row by
/// row, within `tolerance` of `target`, for a buffer whose top-left pixel
/// lies at (`x1`, `y1`): the pixel's column added to `x1`, and its row
/// added to `y1`.
pub open spec fn found_at(
    buffer: PixelBuffer,
    x1: u32,
    y1: u32,
    target: (u8, u8, u8),
    tolerance: u32,
    coord: (u32, u32),
) -> bool {
    exists|i: int|
        is_first_match(buffer, i, target, tolerance) && coord.0 == x1 + i % (
        buffer.spec_width() as int) && coord.1 == y1 + i / (buffer.spec_width() as int)
}

/// Whether `coord` is what a search that answers with one coordinate
/// gives: that of the first matching pixel, and (0, 0) where no pixel
/// matches.
pub open spec fn is_region_coord(
    buffer: PixelBuffer,
    x1: u32,
    y1: u32,
    target: (u8, u8, u8),
    tolerance: u32,
    coord: (u32, u32),
) -> bool {
    if has_match(buffer, target, tolerance) {
        found_at(buffer, x1, y1, target, tolerance, coord)
    } else {
        coord == (0u32, 0u32)
    }
}

/// Whether the absolute coordinate of the first pixel within `tolerance`
/// of `target` is one that a `u32` can hold, for a buffer whose top-left
/// pixel lies at (`x1`, `y1`). This holds wherever no pixel matches.
pub open spec fn match_fits(
    buffer: PixelBuffer,
    x1: u32,
    y1: u32,
    target: (u8, u8, u8),
    tolerance: u32,
) -> bool {
    forall|i: int|
        is_first_match(buffer, i, target, tolerance) ==> x1 + i % (buffer.spec_width() as int)
            <= u32::MAX && y1 + i / (buffer.spec_width() as int) <= u32::MAX
}

fn channel_difference(a: u8, b: u8) -> (d: u32)
    ensures
        d == channel_gap(a, b),
{
    if a >= b {
        (a - b) as u32
    } else {
        (b - a) as u32
    }
}

/// The distance between two colours: the sum of the absolute differences of
/// their channels, between 0 and 765.
pub fn calculate_color_difference(color1: (u8, u8, u8), color2: (u8, u8, u8)) -> (d: u32)
    ensures
        d == spec_color_difference(color1, color2),
        d <= 765,
        d == spec_color_difference(color2, color1),
        (d == 0) == (color1 == color2),
{
    channel_difference(color1.0, color2.0) + channel_difference(color1.1, color2.1)
        + channel_difference(color1.2, color2.2)
}

/// The distance between colours does not depend on their order, and a
/// colour is at distance 0 from itself.
pub proof fn lemma_color_difference_symmetric(a: (u8, u8, u8), b: (u8, u8, u8))
    ensures
        spec_color_difference(a, b) == spec_color_difference(b, a),
        spec_color_difference(a, a) == 0,
{
}

/// Whether the single pixel of a buffer of one pixel is within `tolerance`
/// of `target_rgb`.
pub fn find_color_at_point(buffer: &PixelBuffer, target_rgb: (u8, u8, u8), tolerance: u32) -> (found:
    bool)
    requires
        buffer.spec_channels() == 3,
        buffer.spec_width() == 1,
        buffer.spec_height() == 1,
    ensures
        found == (spec_color_difference(buffer.spec_pixel(0, 0), target_rgb) <= tolerance),
{
    let rgb = buffer.pixel(0, 0);
    let diff: u32 = calculate_color_difference(rgb, target_rgb);
    diff <= tolerance
}

/// The index of the first pixel, row by row, within `tolerance` of
/// `target_rgb`, if there is one.
pub fn first_match_index(buffer: &PixelBuffer, target_rgb: (u8, u8, u8), tolerance: u32) -> (r:
    Option<usize>)
    requires
        buffer.spec_channels() == 3,
    ensures
        r.is_some() == has_match(*buffer, target_rgb, tolerance),
        r.is_some() ==> is_first_match(*buffer, r.unwrap() as int, target_rgb, tolerance),
{
    let n: usize = buffer.pixel_count();
    let mut i: usize = 0;
    while i < n
        invariant
            i <= n,
            n == buffer.spec_pixel_count(),
            buffer.spec_channels() == 3,
            forall|j: int| 0 <= j < i ==> !pixel_matches(*buffer, j, target_rgb, tolerance),
        decreases n - i,
    {
        let rgb = buffer.pixel_at(i);
        let diff: u32 = calculate_color_difference(rgb, target_rgb);
        if diff <= tolerance {
            assert(pixel_matches(*buffer, i as int, target_rgb, tolerance));
            return Some(i);
        }
        i += 1;
    }
    None
}

/// Whether some pixel of the buffer is within `tolerance` of `target_rgb`.
/// The pixels are tried row by row, and the search ends at the first one
/// that is.
pub fn find_color_in_region(buffer: &PixelBuffer, target_rgb: (u8, u8, u8), tolerance: u32) -> (found:
    bool)
    requires
        buffer.spec_channels() == 3,
    ensures
        found == has_match(*buffer, target_rgb, tolerance),
{
    first_match_index(buffer, target_rgb, tolerance).is_some()
}

/// The absolute coordinate of the first pixel, row by row, within
/// `tolerance` of `target_rgb`, for a buffer whose top-left pixel lies at
/// (`x1`, `y1`); `None` where no pixel is.
pub fn locate_color_in_region(
    buffer: &PixelBuffer,
    x1: u32,
    y1: u32,
    target_rgb: (u8, u8, u8),
    tolerance: u32,
) -> (r: Option<(u32, u32)>)
    requires
        buffer.spec_channels() == 3,
        match_fits(*buffer, x1, y1, target_rgb, tolerance),
    ensures
        r.is_some() == has_match(*buffer, target_rgb, tolerance),
        r.is_some() ==> found_at(*buffer, x1, y1, target_rgb, tolerance, r.unwrap()),
{
    match first_match_index(buffer, target_rgb, tolerance) {
        None => None,
        Some(i) => {
            let w: usize = buffer.width();
            let h: usize = buffer.height();
            proof {
                assert(w > 0) by (nonlinear_arith)
                    requires
                        i < w * h,
                ;
                lemma_mod_bound(i as int, w as int);
                lemma_multiply_divide_lt(i as int, w as int, h as int);
                lemma_div_pos_is_pos(i as int, w as int);
            }
            let x: usize = i % w;
            let y: usize = i / w;
            assert(is_first_match(*buffer, i as int, target_rgb, tolerance));
            let coord: (u32, u32) = (x1 + x as u32, y1 + y as u32);
            proof {
                assert(is_first_match(*buffer, i as int, target_rgb, tolerance) && coord.0 == x1
                    + (i as int) % (buffer.spec_width() as int) && coord.1 == y1 + (i as int) / (
                buffer.spec_width() as int));
            }
            Some(coord)
        },
    }
}

/// Whether [`locate_color_in_region`] and [`find_color_in_region_coord`]
/// can be called with these arguments: whether the coordinate that they
/// would give fits a `u32`.
pub fn first_match_fits(
    buffer: &PixelBuffer,
    x1: u32,
    y1: u32,
    target_rgb: (u8, u8, u8),
    tolerance: u32,
) -> (ok: bool)
    requires
        buffer.spec_channels() == 3,
    ensures
        ok == match_fits(*buffer, x1, y1, target_rgb, tolerance),
{
    match first_match_index(buffer, target_rgb, tolerance) {
        None => {
            assert forall|i: int|
                is_first_match(*buffer, i, target_rgb, tolerance) implies x1 + i % (
            buffer.spec_width() as int) <= u32::MAX && y1 + i / (buffer.spec_width() as int)
                <= u32::MAX by {
                assert(has_match(*buffer, target_rgb, tolerance));
            }
            true
        },
        Some(i) => {
            let w: usize = buffer.width();
            let h: usize = buffer.height();
            proof {
                assert(w > 0) by (nonlinear_arith)
                    requires
                        i < w * h,
                ;
                lemma_mod_bound(i as int, w as int);
                lemma_div_pos_is_pos(i as int, w as int);
            }
            let x: usize = i % w;
            let y: usize = i / w;
            let ok: bool = x <= (0xffff_ffff - x1) as usize && y <= (0xffff_ffff - y1) as usize;
            proof {
                assert forall|j: int|
                    is_first_match(*buffer, j, target_rgb, tolerance) implies j == i by {
                    lemma_first_match_unique(*buffer, i as int, j, target_rgb, tolerance);
                }
            }
            ok
        },
    }
}

/// As [`locate_color_in_region`], with (0, 0) standing for "no pixel
/// found". A pixel found at the absolute origin gives (0, 0) too: where the
/// two must be told apart, call [`locate_color_in_region`].
pub fn find_color_in_region_coord(
    buffer: &PixelBuffer,
    x1: u32,
    y1: u32,
    target_rgb: (u8, u8, u8),
    tolerance: u32,
) -> (coord: (u32, u32))
    requires
        buffer.spec_channels() == 3,
        match_fits(*buffer, x1, y1, target_rgb, tolerance),
    ensures
        is_region_coord(*buffer, x1, y1, target_rgb, tolerance, coord),
{
    match locate_color_in_region(buffer, x1, y1, target_rgb, tolerance) {
        Some(coord) => coord,
        None => (0, 0),
    }
}

/// There is one first matching pixel at most, so a search can give one
/// coordinate only.
pub proof fn lemma_first_match_unique(
    buffer: PixelBuffer,
    i: int,
    j: int,
    target: (u8, u8, u8),
    tolerance: u32,
)
    requires
        is_first_match(buffer, i, target, tolerance),
        is_first_match(buffer, j, target, tolerance),
    ensures
        i == j,
{
}

/// In a buffer of at least one pixel whose pixels all have the colour
/// `color`, a search for `color` with tolerance 0 finds the colour, and the
/// one coordinate that it can give is that of the buffer's top-left corner,
/// wherever that corner lies: the search can be called for every `x1` and
/// `y1`.
pub proof fn lemma_uniform_region_found_at_origin(
    buffer: PixelBuffer,
    x1: u32,
    y1: u32,
    color: (u8, u8, u8),
)
    requires
        buffer.spec_pixel_count() > 0,
        forall|i: int| 0 <= i < buffer.spec_pixel_count() ==> buffer.spec_pixel_at(i) == color,
    ensures
        has_match(buffer, color, 0),
        match_fits(buffer, x1, y1, color, 0),
        is_region_coord(buffer, x1, y1, color, 0, (x1, y1)),
        forall|coord: (u32, u32)|
            is_region_coord(buffer, x1, y1, color, 0, coord) ==> coord == (x1, y1),
{
    assert(pixel_matches(buffer, 0, color, 0));
    assert(buffer.spec_width() > 0) by (nonlinear_arith)
        requires
            buffer.spec_width() * buffer.spec_height() > 0,
    ;
    assert(is_first_match(buffer, 0, color, 0));
    assert forall|coord: (u32, u32)|
        is_region_coord(buffer, x1, y1, color, 0, coord) implies coord == (x1, y1) by {
        let i = choose|i: int|
            is_first_match(buffer, i, color, 0) && coord.0 == x1 + i % (
            buffer.spec_width() as int) && coord.1 == y1 + i / (buffer.spec_width() as int);
        assert(i == 0) by {
            if i > 0 {
                assert(!pixel_matches(buffer, 0, color, 0));
            }
        }
        let w = buffer.spec_width() as int;
        assert(0int % w == 0 && 0int / w == 0) by (nonlinear_arith)
            requires
                w > 0,
        ;
    }
    let w = buffer.spec_width() as int;
    assert(0int % w == 0 && 0int / w == 0) by (nonlinear_arith)
        requires
            w > 0,
    ;
}

/// Where no pixel is within the tolerance, the one coordinate that a
/// search can give is (0, 0), wherever the buffer lies: the search can be
/// called for every `x1` and `y1`.
pub proof fn lemma_no_match_gives_sentinel(
    buffer: PixelBuffer,
    x1: u32,
    y1: u32,
    target: (u8, u8, u8),
    tolerance: u32,
    coord: (u32, u32),
)
    requires
        forall|i: int|
            0 <= i < buffer.spec_pixel_count() ==> !pixel_matches(buffer, i, target, tolerance),
    ensures
        !has_match(buffer, target, tolerance),
        match_fits(buffer, x1, y1, target, tolerance),
        is_region_coord(buffer, x1, y1, target, tolerance, coord) <==> coord == (0u32, 0u32),
{
}

} // verus!
