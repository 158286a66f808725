use image_utils::confidence_map::{confidence_map_shape, ConfidenceMap};
use image_utils::deduplication::suppress_overlaps;
use image_utils::image_match::{
    centers_fit, extract_matches, find_all_template, find_image_optimized_coord,
    find_images_optimized_coords, find_template_coord, find_template_exists, first_center_fits,
    first_hit_by_rows, first_hit_index, locate_template, match_at, match_centers, rank_cells,
    round_half_pixels, source_needs_gray,
};
use image_utils::image_match_error::ImageMatchError;
use image_utils::ranking::rank_indices;
use image_utils::types::MatchResult;

/// The map of a template of 10 by 10 pixels in a source of 12 by 11
/// pixels: two rows of three places.
fn sample_map() -> ConfidenceMap {
    ConfidenceMap::new(12, 11, 10, 10, vec![500, 900, 950, 900, 100, 950]).unwrap()
}

fn corners(m: &MatchResult<i32>) -> Vec<(i32, i32)> {
    m.rectangle.iter().map(|p| (*p.x(), *p.y())).collect()
}

#[test]
fn template_larger_than_source_is_an_error() {
    assert_eq!(
        confidence_map_shape(10, 10, 11, 5),
        Err(ImageMatchError::TemplateLargerThanSource)
    );
    assert_eq!(
        confidence_map_shape(10, 10, 5, 11),
        Err(ImageMatchError::TemplateLargerThanSource)
    );
    assert_eq!(
        confidence_map_shape(0, 0, 1, 1),
        Err(ImageMatchError::TemplateLargerThanSource)
    );
    assert_eq!(
        ConfidenceMap::new(10, 10, 11, 11, vec![]).unwrap_err(),
        ImageMatchError::TemplateLargerThanSource
    );
    assert_eq!(
        find_all_template(10, 10, 11, 10, vec![], 0).unwrap_err(),
        ImageMatchError::TemplateLargerThanSource
    );
    assert_eq!(
        find_all_template(10, 10, 10, 11, vec![1, 2, 3], 0).unwrap_err(),
        ImageMatchError::TemplateLargerThanSource
    );
}

#[test]
fn confidence_map_shape_counts_the_places() {
    assert_eq!(confidence_map_shape(10, 10, 10, 10), Ok((1, 1)));
    assert_eq!(confidence_map_shape(10, 8, 3, 2), Ok((7, 8)));
    assert_eq!(confidence_map_shape(2560, 1440, 32, 48), Ok((1393, 2529)));
}

#[test]
fn confidence_map_refuses_what_is_no_grid() {
    assert_eq!(confidence_map_shape(10, 10, 0, 5), Err(ImageMatchError::InvalidBufferShape));
    assert_eq!(confidence_map_shape(10, 10, 5, 0), Err(ImageMatchError::InvalidBufferShape));
    assert_eq!(
        confidence_map_shape(0x8000_0000, 10, 5, 5),
        Err(ImageMatchError::InvalidBufferShape)
    );
    assert_eq!(
        ConfidenceMap::new(12, 11, 10, 10, vec![0; 5]).unwrap_err(),
        ImageMatchError::InvalidBufferShape
    );
    assert_eq!(
        ConfidenceMap::new(12, 11, 10, 10, vec![0; 7]).unwrap_err(),
        ImageMatchError::InvalidBufferShape
    );
    assert_eq!(
        find_all_template(12, 11, 10, 10, vec![], 0).unwrap_err(),
        ImageMatchError::InvalidBufferShape
    );
}

#[test]
fn confidence_map_keeps_its_sizes() {
    let map = sample_map();
    assert_eq!(map.rows(), 2);
    assert_eq!(map.cols(), 3);
    assert_eq!(map.template_width(), 10);
    assert_eq!(map.template_height(), 10);
    assert_eq!(map.scores(), &vec![500, 900, 950, 900, 100, 950]);
}

#[test]
fn source_equal_to_its_template_matches_at_its_centre() {
    let matches = find_all_template(20, 30, 20, 30, vec![1000], 900).unwrap();
    assert_eq!(matches.len(), 1);
    assert_eq!(matches[0].confidence, 1000);
    assert_eq!(*matches[0].result.x() as f64 / 2.0, 20.0 / 2.0);
    assert_eq!(*matches[0].result.y() as f64 / 2.0, 30.0 / 2.0);
    assert_eq!(corners(&matches[0]), vec![(0, 0), (0, 30), (20, 0), (20, 30)]);
    let odd = find_all_template(5, 7, 5, 7, vec![1000], 1000).unwrap();
    assert_eq!(*odd[0].result.x() as f64 / 2.0, 2.5);
    assert_eq!(*odd[0].result.y() as f64 / 2.0, 3.5);
}

#[test]
fn all_matches_come_best_first() {
    let map = sample_map();
    assert_eq!(rank_cells(&map, 900), vec![2, 5, 1, 3]);
    let matches = extract_matches(&map, 900);
    let scores: Vec<i32> = matches.iter().map(|m| m.confidence).collect();
    assert_eq!(scores, vec![950, 950, 900, 900]);
    assert_eq!(corners(&matches[0]), vec![(2, 0), (2, 10), (12, 0), (12, 10)]);
    assert_eq!((*matches[0].result.x(), *matches[0].result.y()), (14, 10));
    assert_eq!(corners(&matches[1]), vec![(2, 1), (2, 11), (12, 1), (12, 11)]);
    assert_eq!((*matches[1].result.x(), *matches[1].result.y()), (14, 12));
    assert_eq!(corners(&matches[2]), vec![(1, 0), (1, 10), (11, 0), (11, 10)]);
    assert_eq!(corners(&matches[3]), vec![(0, 1), (0, 11), (10, 1), (10, 11)]);
    let same = find_all_template(12, 11, 10, 10, vec![500, 900, 950, 900, 100, 950], 900).unwrap();
    assert_eq!(same.len(), 4);
    for (a, b) in same.iter().zip(matches.iter()) {
        assert_eq!(a.confidence, b.confidence);
        assert_eq!(corners(a), corners(b));
    }
}

#[test]
fn matches_are_sorted_for_every_threshold() {
    let scores = vec![3, -7, 12, 12, 0, 5, 9, -1, 12, 4, 4, 8];
    let map = ConfidenceMap::new(6, 5, 3, 3, scores.clone()).unwrap();
    for threshold in -8..14 {
        let matches = extract_matches(&map, threshold);
        let expected = scores.iter().filter(|s| **s >= threshold).count();
        assert_eq!(matches.len(), expected);
        for pair in matches.windows(2) {
            assert!(pair[0].confidence >= pair[1].confidence);
        }
        for m in matches.iter() {
            assert!(m.confidence >= threshold);
        }
    }
    assert!(extract_matches(&map, 13).is_empty());
}

#[test]
fn match_at_describes_its_cell() {
    let map = sample_map();
    let m = match_at(&map, 4);
    assert_eq!(m.confidence, 100);
    assert_eq!(corners(&m), vec![(1, 1), (1, 11), (11, 1), (11, 11)]);
    assert_eq!((*m.result.x(), *m.result.y()), (12, 12));
}

#[test]
fn existence_stops_at_the_threshold() {
    let map = sample_map();
    assert!(find_template_exists(&map, 950));
    assert!(!find_template_exists(&map, 951));
    assert!(find_template_exists(&map, i32::MIN));
}

#[test]
fn both_traversals_find_the_same_first_hit() {
    let scores = vec![3, -7, 12, 12, 0, 5, 9, -1, 12, 4, 4, 8];
    let map = ConfidenceMap::new(6, 5, 3, 3, scores).unwrap();
    for threshold in -8..14 {
        let flat = first_hit_index(&map, threshold);
        let by_rows = first_hit_by_rows(&map, threshold);
        assert_eq!(flat, by_rows.map(|(row, col)| row * map.cols() + col));
    }
    assert_eq!(first_hit_by_rows(&map, 9), Some((0, 2)));
    assert_eq!(first_hit_by_rows(&map, 13), None);
    assert_eq!(first_hit_index(&map, 4), Some(2));
    assert_eq!(first_hit_by_rows(&map, -1), Some((0, 0)));
}

#[test]
fn first_coordinate_is_rounded_before_the_offset() {
    let map = sample_map();
    assert_eq!(find_template_coord(&map, 900, 100, 200), (106, 205));
    assert_eq!(find_template_coord(&map, 950, 100, 200), (107, 205));
    assert_eq!(find_template_coord(&map, 951, 100, 200), (0, 0));
    assert_eq!(locate_template(&map, 900), Some((6, 5)));
    assert_eq!(locate_template(&map, 951), None);
    let odd = ConfidenceMap::new(7, 5, 5, 5, vec![0, 1000, 0]).unwrap();
    assert_eq!(find_template_coord(&odd, 1000, 10, 20), (14, 23));
    assert_eq!(find_template_coord(&odd, 1000, -10, -20), (-6, -17));
    assert_eq!(find_template_coord(&odd, 0, 0, 0), (3, 3));
}

#[test]
fn single_coordinate_is_that_of_the_first_place() {
    let two = ConfidenceMap::new(2, 1, 1, 1, vec![10, 20]).unwrap();
    assert_eq!(find_image_optimized_coord(&two, 5, 0, 0), (1, 1));
    assert_eq!(find_image_optimized_coord(&two, 15, 0, 0), (2, 1));
    assert_eq!(find_image_optimized_coord(&two, 21, 0, 0), (0, 0));
    let map = sample_map();
    assert_eq!(find_image_optimized_coord(&map, 900, 100, 200), (106, 205));
    assert_eq!(find_image_optimized_coord(&map, 0, 100, 200), (105, 205));
    assert_eq!(find_image_optimized_coord(&map, 950, 100, 200), (107, 205));
    assert_eq!(find_image_optimized_coord(&map, 951, 100, 200), (0, 0));
    for threshold in [0, 500, 900, 950, 951] {
        assert_eq!(
            find_image_optimized_coord(&map, threshold, -7, 9),
            find_template_coord(&map, threshold, -7, 9)
        );
    }
    let odd = ConfidenceMap::new(7, 5, 5, 5, vec![7, 7, 6]).unwrap();
    assert_eq!(find_image_optimized_coord(&odd, 7, 0, 0), (3, 3));
}

#[test]
fn nothing_found_gives_the_sentinel_for_any_offset() {
    let map = sample_map();
    assert!(first_center_fits(&map, 951, i32::MAX, i32::MAX));
    assert_eq!(find_template_coord(&map, 951, i32::MAX, i32::MAX), (0, 0));
    assert_eq!(find_image_optimized_coord(&map, 951, i32::MAX, i32::MIN), (0, 0));
    assert!(centers_fit(&map, 951, i32::MAX, i32::MAX));
    assert_eq!(match_centers(&map, 951, i32::MAX, i32::MAX), vec![]);
    let maps = vec![sample_map(), sample_map()];
    assert_eq!(find_images_optimized_coords(&maps, 951, i32::MAX, i32::MAX), vec![]);
}

#[test]
fn only_the_centres_found_must_fit() {
    let map = sample_map();
    // The first place at or above 900 is in column 1 of row 0: centre (6, 5).
    assert!(first_center_fits(&map, 900, i32::MAX - 6, i32::MAX - 5));
    assert_eq!(
        find_template_coord(&map, 900, i32::MAX - 6, i32::MAX - 5),
        (i32::MAX, i32::MAX)
    );
    assert!(!first_center_fits(&map, 900, i32::MAX - 5, i32::MAX - 5));
    assert!(!first_center_fits(&map, 900, i32::MAX - 6, i32::MAX - 4));
    // Every place at or above 950 is in column 2: centres (7, 5) and (7, 6).
    assert!(centers_fit(&map, 950, i32::MAX - 7, i32::MAX - 6));
    assert_eq!(
        match_centers(&map, 950, i32::MAX - 7, i32::MAX - 6),
        vec![(i32::MAX, i32::MAX - 1), (i32::MAX, i32::MAX)]
    );
    assert!(!centers_fit(&map, 950, i32::MAX - 7, i32::MAX - 5));
    assert!(!centers_fit(&map, 950, i32::MAX - 6, i32::MAX - 6));
    assert!(first_center_fits(&map, 950, i32::MAX - 7, i32::MAX - 5));
    assert!(centers_fit(&map, 950, i32::MIN, i32::MIN));
}

#[test]
fn round_half_pixels_rounds_away_from_zero() {
    assert_eq!(round_half_pixels(0), 0);
    assert_eq!(round_half_pixels(1), 1);
    assert_eq!(round_half_pixels(2), 1);
    assert_eq!(round_half_pixels(3), 2);
    assert_eq!(round_half_pixels(5), 3);
    assert_eq!(round_half_pixels(-1), -1);
    assert_eq!(round_half_pixels(-2), -1);
    assert_eq!(round_half_pixels(-3), -2);
    assert_eq!(round_half_pixels(i64::MAX), 1 << 62);
    assert_eq!(round_half_pixels(i64::MIN), -(1 << 62));
    for h in -9i64..10 {
        assert_eq!(round_half_pixels(h), (h as f64 / 2.0).round() as i64);
    }
}

#[test]
fn overlapping_candidates_are_suppressed() {
    assert_eq!(suppress_overlaps(&vec![(100, 100), (105, 100)], 20), vec![(100, 100)]);
    assert_eq!(
        suppress_overlaps(&vec![(100, 100), (125, 100)], 20),
        vec![(100, 100), (125, 100)]
    );
    assert_eq!(
        suppress_overlaps(&vec![(100, 100), (100, 125)], 20),
        vec![(100, 100), (100, 125)]
    );
    assert_eq!(
        suppress_overlaps(&vec![(100, 100), (120, 100)], 20),
        vec![(100, 100), (120, 100)]
    );
    assert_eq!(suppress_overlaps(&vec![(100, 100), (119, 119)], 20), vec![(100, 100)]);
    assert_eq!(
        suppress_overlaps(&vec![(100, 100), (119, 120)], 20),
        vec![(100, 100), (119, 120)]
    );
    assert_eq!(suppress_overlaps(&vec![], 20), vec![]);
}

#[test]
fn suppression_depends_on_the_order() {
    let a = vec![(0, 0), (15, 0), (30, 0)];
    assert_eq!(suppress_overlaps(&a, 20), vec![(0, 0), (30, 0)]);
    let b = vec![(15, 0), (0, 0), (30, 0)];
    assert_eq!(suppress_overlaps(&b, 20), vec![(15, 0)]);
    let far = vec![(i32::MIN, i32::MIN), (i32::MAX, i32::MAX), (i32::MIN + 1, i32::MIN + 1)];
    assert_eq!(
        suppress_overlaps(&far, i32::MAX),
        vec![(i32::MIN, i32::MIN), (i32::MAX, i32::MAX)]
    );
}

#[test]
fn match_centers_are_absolute_and_best_first() {
    let map = sample_map();
    assert_eq!(
        match_centers(&map, 900, 100, 200),
        vec![(107, 205), (107, 206), (106, 205), (105, 206)]
    );
}

#[test]
fn multi_template_search_deduplicates_each_template() {
    let mut scores = vec![0; 41];
    scores[0] = 1000;
    scores[5] = 990;
    scores[25] = 980;
    let first = ConfidenceMap::new(60, 20, 20, 20, scores).unwrap();
    let mut scores = vec![0; 41];
    scores[0] = 990;
    scores[5] = 1000;
    scores[25] = 980;
    let second = ConfidenceMap::new(60, 20, 20, 20, scores).unwrap();
    let coords = find_images_optimized_coords(&vec![first, second], 900, 1000, 2000);
    assert_eq!(coords, vec![(1010, 2010), (1035, 2010), (1015, 2010), (1035, 2010)]);
    assert_eq!(find_images_optimized_coords(&vec![], 900, 0, 0), vec![]);
}

#[test]
fn grey_conversion_is_skipped_for_grey_sources() {
    assert!(source_needs_gray(3, false));
    assert!(source_needs_gray(4, false));
    assert!(!source_needs_gray(1, false));
    assert!(!source_needs_gray(3, true));
    assert!(!source_needs_gray(1, true));
}

#[test]
fn rank_indices_orders_by_key_then_position() {
    assert_eq!(rank_indices(&vec![5, 3, 5, 1, 3], i64::MAX), vec![3, 1, 4, 0, 2]);
    assert_eq!(rank_indices(&vec![5, 3, 5, 1, 3], 3), vec![3, 1, 4]);
    assert_eq!(rank_indices(&vec![5, 3, 5, 1, 3], 0), vec![]);
    assert_eq!(rank_indices(&vec![], 0), vec![]);
    assert_eq!(rank_indices(&vec![i64::MIN, i64::MAX, i64::MIN], i64::MIN), vec![0, 2]);
}
