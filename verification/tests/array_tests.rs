use image_utils::array3::ByteArray3;
use image_utils::saving::{array3_image, array3_pixels, SaveError};
use image_utils::screenshot::screenshot_to_ndarray;
use image_utils::screenshot_error::ScreenshotError;

#[test]
fn captured_bytes_become_rows_columns_channels() {
    let data: Vec<u8> = (0..24).collect();
    let array = screenshot_to_ndarray(3, 2, data.clone()).unwrap();
    assert_eq!(array.dim(), (2, 3, 4));
    assert!(array.is_standard_layout());
    assert_eq!(array.to_vec(), Some(data));
    assert_eq!(array.get(0, 0, 0), Some(0));
    assert_eq!(array.get(0, 1, 2), Some(6));
    assert_eq!(array.get(1, 0, 0), Some(12));
    assert_eq!(array.get(1, 2, 3), Some(23));
    assert_eq!(array.get(2, 0, 0), None);
    assert_eq!(array.get(0, 3, 0), None);
    assert_eq!(array.get(0, 0, 4), None);
}

#[test]
fn captured_bytes_must_fill_the_size() {
    assert_eq!(screenshot_to_ndarray(3, 2, vec![0; 23]).unwrap_err(), ScreenshotError::Shape);
    assert_eq!(screenshot_to_ndarray(3, 2, vec![0; 25]).unwrap_err(), ScreenshotError::Shape);
    assert_eq!(screenshot_to_ndarray(3, 2, vec![]).unwrap_err(), ScreenshotError::Shape);
    assert!(screenshot_to_ndarray(0, 0, vec![]).is_ok());
    assert!(screenshot_to_ndarray(0, 7, vec![]).is_ok());
    assert_eq!(
        screenshot_to_ndarray(usize::MAX, 0, vec![]).unwrap_err(),
        ScreenshotError::Shape
    );
}

#[test]
fn array_shape_must_ask_for_the_elements_given() {
    assert!(ByteArray3::from_shape_vec(2, 2, 3, vec![0; 12]).is_some());
    assert!(ByteArray3::from_shape_vec(2, 2, 3, vec![0; 11]).is_none());
    assert!(ByteArray3::from_shape_vec(0, 5, 3, vec![]).is_some());
    assert!(ByteArray3::from_shape_vec(0, usize::MAX, 2, vec![]).is_none());
    assert!(ByteArray3::from_shape_vec(0, usize::MAX / 2, 1, vec![]).is_some());
    assert_eq!(ByteArray3::from_shape_vec(0, 5, 3, vec![]).unwrap().dim(), (0, 5, 3));
}

#[test]
fn image_of_an_array_keeps_its_bytes() {
    let data: Vec<u8> = (0..24).collect();
    let rgb = ByteArray3::from_shape_vec(2, 4, 3, data.clone()).unwrap();
    let image = array3_image(&rgb).unwrap();
    assert_eq!((image.width, image.height, image.channels), (4, 2, 3));
    assert_eq!(image.data, data);
    let rgba = ByteArray3::from_shape_vec(3, 2, 4, data.clone()).unwrap();
    let image = array3_image(&rgba).unwrap();
    assert_eq!((image.width, image.height, image.channels), (2, 3, 4));
    assert_eq!(image.data, data);
}

#[test]
fn image_read_element_by_element_is_the_same() {
    let data: Vec<u8> = (0..120).collect();
    for (rows, cols, channels) in [(2usize, 20usize, 3usize), (10, 3, 4), (1, 40, 3), (30, 1, 4)] {
        let array = ByteArray3::from_shape_vec(rows, cols, channels, data.clone()).unwrap();
        let whole = array3_image(&array).unwrap();
        let pixels = array3_pixels(&array).unwrap();
        assert_eq!(pixels.data, data);
        assert_eq!(pixels.data, whole.data);
        assert_eq!(
            (pixels.width, pixels.height, pixels.channels),
            (whole.width, whole.height, whole.channels)
        );
        assert_eq!((pixels.width, pixels.height, pixels.channels), (cols, rows, channels));
    }
    let empty = ByteArray3::from_shape_vec(0, 5, 3, vec![]).unwrap();
    assert!(array3_pixels(&empty).unwrap().data.is_empty());
}

#[test]
fn only_three_or_four_channels_make_an_image() {
    let data: Vec<u8> = (0..24).collect();
    for channels in [1usize, 2, 6, 8] {
        let array = ByteArray3::from_shape_vec(1, 24 / channels, channels, data.clone()).unwrap();
        assert_eq!(array3_image(&array).unwrap_err(), SaveError::UnsupportedChannels);
        assert_eq!(array3_pixels(&array).unwrap_err(), SaveError::UnsupportedChannels);
    }
    let none = ByteArray3::from_shape_vec(4, 4, 0, vec![]).unwrap();
    assert_eq!(array3_image(&none).unwrap_err(), SaveError::UnsupportedChannels);
    assert_eq!(array3_pixels(&none).unwrap_err(), SaveError::UnsupportedChannels);
}
