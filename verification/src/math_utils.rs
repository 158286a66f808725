//! Helpers for walking a path of points.
use vstd::prelude::*;

verus! {

/// The direction of a turn.
#[derive(Debug, Clone, Copy, PartialEq, Eq, Structural)]
pub enum RotationDirection {
    /// A turn to the left.
    Left,
    /// A turn to the right.
    Right,
}

impl RotationDirection {
    /// The direction's name in Chinese.
    pub fn to_string_cn(&self) -> (name: &'static str)
        ensures
            name@ == match *self {
                RotationDirection::Left => "左"@,
                RotationDirection::Right => "右"@,
            },
    {
        match self {
            RotationDirection::Left => "左",
            RotationDirection::Right => "右",
        }
    }
}

/// The square of the straight-line distance between two points.
pub open spec fn squared_distance(a: (i32, i32), b: (i32, i32)) -> int {
    (a.0 - b.0) * (a.0 - b.0) + (a.1 - b.1) * (a.1 - b.1)
}

/// Whether point `k` of `path` is the nearest to `from`: no point is
/// nearer, and every point before it is farther.
pub open spec fn is_nearest(path: Seq<(i32, i32)>, from: (i32, i32), k: int) -> bool {
    &&& 0 <= k < path.len()
    &&& forall|j: int|
        0 <= j < path.len() ==> squared_distance(from, #[trigger] path[j]) >= squared_distance(
            from,
            path[k],
        )
    &&& forall|j: int|
        0 <= j < k ==> squared_distance(from, #[trigger] path[j]) > squared_distance(from, path[k])
}

/// The square of the straight-line distance between two points.
pub fn squared_distance_i32(a: (i32, i32), b: (i32, i32)) -> (d: u128)
    ensures
        d == squared_distance(a, b),
{
    let dx: i128 = a.0 as i128 - b.0 as i128;
    let dy: i128 = a.1 as i128 - b.1 as i128;
    assert(0 <= dx * dx <= 0x1_0000_0000 * 0x1_0000_0000) by (nonlinear_arith)
        requires
            -0x1_0000_0000 <= dx <= 0x1_0000_0000,
    ;
    assert(0 <= dy * dy <= 0x1_0000_0000 * 0x1_0000_0000) by (nonlinear_arith)
        requires
            -0x1_0000_0000 <= dy <= 0x1_0000_0000,
    ;
    (dx * dx + dy * dy) as u128
}

/// The index of the point of `path_array` nearest to `current_coord`, the
/// first of them where several are equally near; `None` for an empty path.
pub fn nearest_index(path_array: &[(i32, i32)], current_coord: (i32, i32)) -> (r: Option<usize>)
    ensures
        r.is_some() == (path_array@.len() > 0),
        r.is_some() ==> is_nearest(path_array@, current_coord, r.unwrap() as int),
{
    let n: usize = path_array.len();
    if n == 0 {
        return None;
    }
    let mut min_distance: u128 = squared_distance_i32(current_coord, path_array[0]);
    let mut min_distance_index: usize = 0;
    let mut index: usize = 1;
    while index < n
        invariant
            1 <= index <= n,
            n == path_array@.len(),
            min_distance_index < index,
            min_distance == squared_distance(current_coord, path_array@[min_distance_index as int]),
            forall|j: int|
                0 <= j < index ==> squared_distance(current_coord, #[trigger] path_array@[j])
                    >= min_distance,
            forall|j: int|
                0 <= j < min_distance_index ==> squared_distance(
                    current_coord,
                    #[trigger] path_array@[j],
                ) > min_distance,
        decreases n - index,
    {
        let distance: u128 = squared_distance_i32(current_coord, path_array[index]);
        if distance < min_distance {
            min_distance = distance;
            min_distance_index = index;
        }
        index += 1;
    }
    Some(min_distance_index)
}

/// The part of the path that starts at the point nearest to
/// `current_coord`, the first of them where several are equally near. An
/// empty path gives an empty path.
pub fn generate_new_path_array_i32(path_array: &[(i32, i32)], current_coord: (i32, i32)) -> (new_path:
    Vec<(i32, i32)>)
    ensures
        path_array@.len() == 0 ==> new_path@.len() == 0,
        path_array@.len() > 0 ==> exists|k: int|
            is_nearest(path_array@, current_coord, k) && new_path@ == path_array@.subrange(
                k,
                path_array@.len() as int,
            ),
{
    let mut new_path: Vec<(i32, i32)> = Vec::new();
    match nearest_index(path_array, current_coord) {
        None => {},
        Some(start) => {
            let n: usize = path_array.len();
            let mut i: usize = start;
            while i < n
                invariant
                    start <= i <= n,
                    n == path_array@.len(),
                    new_path@ == path_array@.subrange(start as int, i as int),
                decreases n - i,
            {
                new_path.push(path_array[i]);
                proof {
                    assert(new_path@ =~= path_array@.subrange(start as int, i + 1));
                }
                i += 1;
            }
        },
    }
    new_path
}

} // verus!
