use image_utils::math_utils::{
    generate_new_path_array_i32, nearest_index, squared_distance_i32, RotationDirection,
};

#[test]
fn test_generate_new_path_array_i32() {
    let path = vec![(0, 0), (10, 10), (20, 20), (30, 30)];
    let current = (12, 12);
    let new_path = generate_new_path_array_i32(&path, current);
    assert_eq!(new_path.len(), 3);
    assert_eq!(new_path[0], (10, 10));
    assert_eq!(new_path[1], (20, 20));
    assert_eq!(new_path[2], (30, 30));

    let path = vec![(0, 0), (10, 10), (20, 20)];
    let current = (25, 25);
    let new_path = generate_new_path_array_i32(&path, current);
    assert_eq!(new_path.len(), 1);
    assert_eq!(new_path[0], (20, 20));

    let empty_path: Vec<(i32, i32)> = Vec::new();
    let new_path = generate_new_path_array_i32(&empty_path, (0, 0));
    assert_eq!(new_path.len(), 0);

    let path = vec![(0, 0), (10, 10), (20, 20)];
    let current = (0, 0);
    let new_path = generate_new_path_array_i32(&path, current);
    assert_eq!(new_path.len(), 3);
    assert_eq!(new_path[0], (0, 0));
}

#[test]
fn nearest_index_prefers_first_of_equally_near_points() {
    let path = vec![(5, 0), (0, 5), (-5, 0), (0, -5)];
    assert_eq!(nearest_index(&path, (0, 0)), Some(0));
    let path = vec![(9, 9), (3, 4), (4, 3), (-3, -4)];
    assert_eq!(nearest_index(&path, (0, 0)), Some(1));
    let new_path = generate_new_path_array_i32(&path, (0, 0));
    assert_eq!(new_path, vec![(3, 4), (4, 3), (-3, -4)]);
}

#[test]
fn nearest_index_of_empty_path_is_none() {
    let path: Vec<(i32, i32)> = Vec::new();
    assert_eq!(nearest_index(&path, (7, 7)), None);
}

#[test]
fn squared_distance_is_exact_at_the_extremes() {
    assert_eq!(squared_distance_i32((0, 0), (3, 4)), 25);
    assert_eq!(squared_distance_i32((5, 5), (5, 5)), 0);
    let far = squared_distance_i32((i32::MIN, i32::MIN), (i32::MAX, i32::MAX));
    let side: u128 = (i32::MAX as i64 - i32::MIN as i64) as u128;
    assert_eq!(far, 2 * side * side);
}

#[test]
fn nearest_index_with_extreme_coordinates() {
    let path = vec![(i32::MAX, i32::MAX), (i32::MIN, i32::MIN), (i32::MIN + 1, i32::MIN)];
    assert_eq!(nearest_index(&path, (i32::MIN, i32::MIN)), Some(1));
    assert_eq!(nearest_index(&path, (i32::MAX, i32::MAX)), Some(0));
}

#[test]
fn rotation_direction_names() {
    assert_eq!(RotationDirection::Left.to_string_cn(), "左");
    assert_eq!(RotationDirection::Right.to_string_cn(), "右");
    assert_ne!(RotationDirection::Left, RotationDirection::Right);
}
