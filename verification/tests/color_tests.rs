use image_utils::color_detection::{
    calculate_color_difference, find_color_at_point, find_color_in_region,
    find_color_in_region_coord, first_match_fits, first_match_index, locate_color_in_region,
};
use image_utils::image_match_error::ImageMatchError;
use image_utils::pixel_buffer::PixelBuffer;
use image_utils::types::{Point, RgbColor};

/// A colour buffer of `width` by `height` pixels, all of the colour
/// (`r`, `g`, `b`), stored as blue, green, red.
fn uniform(width: usize, height: usize, r: u8, g: u8, b: u8) -> PixelBuffer {
    let mut samples = Vec::new();
    for _ in 0..width * height {
        samples.push(b);
        samples.push(g);
        samples.push(r);
    }
    PixelBuffer::new(width, height, 3, samples).unwrap()
}

fn with_pixel(buffer: &PixelBuffer, x: usize, y: usize, rgb: (u8, u8, u8)) -> PixelBuffer {
    let mut samples = buffer.samples().clone();
    let base = (y * buffer.width() + x) * 3;
    samples[base] = rgb.2;
    samples[base + 1] = rgb.1;
    samples[base + 2] = rgb.0;
    PixelBuffer::new(buffer.width(), buffer.height(), 3, samples).unwrap()
}

#[test]
fn color_difference_exact_values() {
    assert_eq!(calculate_color_difference((0, 0, 0), (255, 255, 255)), 765);
    assert_eq!(calculate_color_difference((10, 20, 30), (13, 16, 30)), 7);
    assert_eq!(calculate_color_difference((43, 45, 48), (43, 45, 48)), 0);
    assert_eq!(calculate_color_difference((255, 0, 0), (0, 0, 255)), 510);
}

#[test]
fn color_difference_is_symmetric_and_zero_on_equal_colors() {
    let colors = [(0u8, 0u8, 0u8), (255, 255, 255), (1, 200, 3), (180, 142, 136), (43, 45, 48)];
    for a in colors.iter() {
        assert_eq!(calculate_color_difference(*a, *a), 0);
        for b in colors.iter() {
            assert_eq!(calculate_color_difference(*a, *b), calculate_color_difference(*b, *a));
        }
    }
}

#[test]
fn pixel_buffer_checks_its_shape() {
    assert!(PixelBuffer::new(2, 2, 3, vec![0; 12]).is_ok());
    assert!(PixelBuffer::new(2, 2, 1, vec![0; 4]).is_ok());
    assert!(PixelBuffer::new(0, 5, 3, vec![]).is_ok());
    assert_eq!(
        PixelBuffer::new(2, 2, 3, vec![0; 11]).unwrap_err(),
        ImageMatchError::InvalidBufferShape
    );
    assert_eq!(
        PixelBuffer::new(2, 2, 4, vec![0; 16]).unwrap_err(),
        ImageMatchError::InvalidBufferShape
    );
    assert_eq!(
        PixelBuffer::new(2, 2, 0, vec![]).unwrap_err(),
        ImageMatchError::InvalidBufferShape
    );
    assert_eq!(
        PixelBuffer::new(0, 5, 3, vec![1]).unwrap_err(),
        ImageMatchError::InvalidBufferShape
    );
    assert_eq!(
        PixelBuffer::new(usize::MAX, 2, 3, vec![0; 6]).unwrap_err(),
        ImageMatchError::InvalidBufferShape
    );
    assert_eq!(
        PixelBuffer::new(usize::MAX / 2, 2, 3, vec![0; 6]).unwrap_err(),
        ImageMatchError::InvalidBufferShape
    );
}

#[test]
fn pixel_buffer_reads_blue_green_red() {
    let buffer = PixelBuffer::new(2, 1, 3, vec![1, 2, 3, 4, 5, 6]).unwrap();
    assert_eq!(buffer.width(), 2);
    assert_eq!(buffer.height(), 1);
    assert_eq!(buffer.channels(), 3);
    assert_eq!(buffer.pixel_count(), 2);
    assert_eq!(buffer.pixel(0, 0), (3, 2, 1));
    assert_eq!(buffer.pixel(1, 0), (6, 5, 4));
    assert_eq!(buffer.pixel_at(1), (6, 5, 4));
}

#[test]
fn point_color_within_tolerance() {
    let buffer = PixelBuffer::new(1, 1, 3, vec![48, 45, 43]).unwrap();
    assert!(find_color_at_point(&buffer, (43, 45, 48), 0));
    assert!(find_color_at_point(&buffer, (40, 45, 50), 5));
    assert!(!find_color_at_point(&buffer, (40, 45, 50), 4));
    assert!(!find_color_at_point(&buffer, (48, 45, 43), 9));
    assert!(find_color_at_point(&buffer, (48, 45, 43), 10));
}

#[test]
fn uniform_region_is_found_at_its_top_left_corner() {
    for (x1, y1, w, h) in [(0u32, 0u32, 1usize, 1usize), (100, 200, 4, 3), (7, 0, 5, 1)] {
        let buffer = uniform(w, h, 180, 142, 136);
        assert!(find_color_in_region(&buffer, (180, 142, 136), 0));
        assert_eq!(find_color_in_region_coord(&buffer, x1, y1, (180, 142, 136), 0), (x1, y1));
        assert_eq!(locate_color_in_region(&buffer, x1, y1, (180, 142, 136), 0), Some((x1, y1)));
    }
}

#[test]
fn region_without_the_color_gives_the_sentinel() {
    let buffer = uniform(4, 3, 10, 10, 10);
    assert!(!find_color_in_region(&buffer, (200, 200, 200), 10));
    assert_eq!(find_color_in_region_coord(&buffer, 100, 200, (200, 200, 200), 10), (0, 0));
    assert_eq!(locate_color_in_region(&buffer, 100, 200, (200, 200, 200), 10), None);
    assert_eq!(first_match_index(&buffer, (200, 200, 200), 10), None);
    let empty = PixelBuffer::new(0, 0, 3, vec![]).unwrap();
    assert!(!find_color_in_region(&empty, (0, 0, 0), 765));
    assert_eq!(find_color_in_region_coord(&empty, 5, 5, (0, 0, 0), 765), (0, 0));
}

#[test]
fn first_matching_pixel_wins_row_by_row() {
    let base = uniform(4, 3, 0, 0, 0);
    let one = with_pixel(&base, 3, 1, (250, 0, 0));
    let two = with_pixel(&one, 0, 2, (255, 0, 0));
    let three = with_pixel(&two, 1, 1, (251, 1, 1));
    assert_eq!(first_match_index(&two, (255, 0, 0), 5), Some(7));
    assert_eq!(find_color_in_region_coord(&two, 100, 200, (255, 0, 0), 5), (103, 201));
    assert_eq!(find_color_in_region_coord(&two, 100, 200, (255, 0, 0), 4), (100, 202));
    assert_eq!(find_color_in_region_coord(&three, 100, 200, (255, 0, 0), 6), (101, 201));
    assert_eq!(locate_color_in_region(&three, 0, 0, (255, 0, 0), 0), Some((0, 2)));
    assert!(find_color_in_region(&three, (255, 0, 0), 0));
}

#[test]
fn match_at_the_origin_and_no_match_give_the_same_sentinel() {
    let buffer = uniform(2, 2, 9, 9, 9);
    assert_eq!(find_color_in_region_coord(&buffer, 0, 0, (9, 9, 9), 0), (0, 0));
    assert_eq!(locate_color_in_region(&buffer, 0, 0, (9, 9, 9), 0), Some((0, 0)));
    assert_eq!(find_color_in_region_coord(&buffer, 0, 0, (99, 99, 99), 0), (0, 0));
    assert_eq!(locate_color_in_region(&buffer, 0, 0, (99, 99, 99), 0), None);
}

#[test]
fn region_at_the_edge_of_the_coordinate_space() {
    let buffer = uniform(2, 2, 1, 2, 3);
    let marked = with_pixel(&buffer, 1, 1, (100, 100, 100));
    assert!(first_match_fits(&marked, u32::MAX - 1, u32::MAX - 1, (100, 100, 100), 0));
    assert_eq!(
        find_color_in_region_coord(&marked, u32::MAX - 1, u32::MAX - 1, (100, 100, 100), 0),
        (u32::MAX, u32::MAX)
    );
    assert!(!first_match_fits(&marked, u32::MAX, u32::MAX - 1, (100, 100, 100), 0));
    assert!(!first_match_fits(&marked, u32::MAX - 1, u32::MAX, (100, 100, 100), 0));
}

#[test]
fn uniform_region_is_found_wherever_it_lies() {
    let buffer = uniform(4, 3, 180, 142, 136);
    for (x1, y1) in [(u32::MAX, u32::MAX), (u32::MAX, 0), (0, u32::MAX), (u32::MAX - 1, 7)] {
        assert!(first_match_fits(&buffer, x1, y1, (180, 142, 136), 0));
        assert_eq!(find_color_in_region_coord(&buffer, x1, y1, (180, 142, 136), 0), (x1, y1));
        assert_eq!(locate_color_in_region(&buffer, x1, y1, (180, 142, 136), 0), Some((x1, y1)));
    }
}

#[test]
fn nothing_found_gives_the_sentinel_wherever_the_region_lies() {
    let buffer = uniform(4, 3, 10, 10, 10);
    for (x1, y1) in [(u32::MAX, u32::MAX), (u32::MAX, 0), (0, u32::MAX), (5, 5)] {
        assert!(first_match_fits(&buffer, x1, y1, (200, 200, 200), 10));
        assert_eq!(find_color_in_region_coord(&buffer, x1, y1, (200, 200, 200), 10), (0, 0));
        assert_eq!(locate_color_in_region(&buffer, x1, y1, (200, 200, 200), 10), None);
    }
}

#[test]
fn rgb_color_round_trips_through_tuples() {
    let c = RgbColor::new(1, 2, 3);
    assert_eq!(c, RgbColor::from_tuple((1, 2, 3)));
    assert_eq!(c.to_tuple(), (1, 2, 3));
    assert_eq!(c.r, 1);
    assert_eq!(c.g, 2);
    assert_eq!(c.b, 3);
}

#[test]
fn point_keeps_its_coordinates() {
    let p = Point::new(3i32, -4i32);
    assert_eq!(*p.x(), 3);
    assert_eq!(*p.y(), -4);
}

#[test]
fn error_messages_differ() {
    let all = [
        ImageMatchError::CaptureUnavailable,
        ImageMatchError::TemplateUnreadable,
        ImageMatchError::TemplateLargerThanSource,
        ImageMatchError::InvalidBufferShape,
    ];
    for (i, a) in all.iter().enumerate() {
        assert!(!a.message().is_empty());
        for b in all.iter().skip(i + 1) {
            assert_ne!(a.message(), b.message());
        }
    }
}
