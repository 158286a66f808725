//! Dropping near-duplicate finds of one template: of two centres that lie
//! close together, only the one that comes first is kept.
use vstd::prelude::*;

verus! {

/// The distance between two coordinates.
pub open spec fn gap(a: i32, b: i32) -> int {
    if a >= b {
        a - b
    } else {
        b - a
    }
}

/// Whether two centres are nearer than `min_distance` both from left to
/// right and from top to bottom.
pub open spec fn overlaps(a: (i32, i32), b: (i32, i32), min_distance: int) -> bool {
    gap(a.0, b.0) < min_distance && gap(a.1, b.1) < min_distance
}

/// Whether `c` overlaps one of `kept`.
pub open spec fn overlaps_any(kept: Seq<(i32, i32)>, c: (i32, i32), min_distance: int) -> bool {
    exists|k: int| 0 <= k < kept.len() && overlaps(#[trigger] kept[k], c, min_distance)
}

/// The centres that are kept when each centre, in turn, is kept unless it
/// overlaps one kept before it.
pub open spec fn suppress(centers: Seq<(i32, i32)>, min_distance: int) -> Seq<(i32, i32)>
    decreases centers.len(),
{
    if centers.len() == 0 {
        Seq::empty()
    } else {
        let kept = suppress(centers.drop_last(), min_distance);
        if overlaps_any(kept, centers.last(), min_distance) {
            kept
        } else {
            kept.push(centers.last())
        }
    }
}

/// No two of the centres kept overlap; every centre is kept or overlaps
/// one that is; and each centre kept is one of the centres given.
pub proof fn lemma_suppress(centers: Seq<(i32, i32)>, min_distance: int)
    ensures
        forall|a: int, b: int|
            0 <= a < b < suppress(centers, min_distance).len() ==> !overlaps(
                #[trigger] suppress(centers, min_distance)[a],
                #[trigger] suppress(centers, min_distance)[b],
                min_distance,
            ),
        forall|i: int|
            0 <= i < centers.len() ==> suppress(centers, min_distance).contains(
                #[trigger] centers[i],
            ) || overlaps_any(suppress(centers, min_distance), centers[i], min_distance),
        forall|k: int|
            0 <= k < suppress(centers, min_distance).len() ==> centers.contains(
                #[trigger] suppress(centers, min_distance)[k],
            ),
        suppress(centers, min_distance).len() <= centers.len(),
        centers.len() > 0 ==> suppress(centers, min_distance).len() > 0 && suppress(
            centers,
            min_distance,
        )[0] == centers[0],
    decreases centers.len(),
{
    if centers.len() > 0 {
        let front = centers.drop_last();
        let last = centers.last();
        let kept = suppress(front, min_distance);
        let all = suppress(centers, min_distance);
        lemma_suppress(front, min_distance);
        assert forall|i: int| 0 <= i < centers.len() implies all.contains(#[trigger] centers[i])
            || overlaps_any(all, centers[i], min_distance) by {
            if i < centers.len() - 1 {
                assert(centers[i] == front[i]);
                if kept.contains(front[i]) {
                    let k = choose|k: int| 0 <= k < kept.len() && kept[k] == front[i];
                    assert(all[k] == centers[i]);
                } else {
                    let k = choose|k: int|
                        0 <= k < kept.len() && overlaps(#[trigger] kept[k], front[i], min_distance);
                    assert(overlaps(all[k], centers[i], min_distance));
                }
            } else {
                if overlaps_any(kept, last, min_distance) {
                } else {
                    assert(all[kept.len() as int] == last);
                }
            }
        }
        assert forall|k: int| 0 <= k < all.len() implies centers.contains(#[trigger] all[k]) by {
            if k < kept.len() {
                assert(front.contains(kept[k]));
                let i = choose|i: int| 0 <= i < front.len() && front[i] == kept[k];
                assert(centers[i] == all[k]);
            } else {
                assert(centers[centers.len() - 1] == all[k]);
            }
        }
        if front.len() > 0 {
            assert(front[0] == centers[0]);
        }
    }
}

/// Keeps each centre, in turn, unless it overlaps one kept before it: one
/// nearer than `min_distance` both from left to right and from top to
/// bottom.
pub fn suppress_overlaps(centers: &Vec<(i32, i32)>, min_distance: i32) -> (kept: Vec<(i32, i32)>)
    ensures
        kept@ == suppress(centers@, min_distance as int),
{
    let n: usize = centers.len();
    let mut kept: Vec<(i32, i32)> = Vec::new();
    let mut i: usize = 0;
    while i < n
        invariant
            i <= n,
            n == centers@.len(),
            kept@ == suppress(centers@.take(i as int), min_distance as int),
        decreases n - i,
    {
        let c: (i32, i32) = centers[i];
        let m: usize = kept.len();
        let mut is_overlapping: bool = false;
        let mut k: usize = 0;
        while k < m && !is_overlapping
            invariant
                k <= m,
                m == kept@.len(),
                is_overlapping ==> overlaps_any(kept@, c, min_distance as int),
                !is_overlapping ==> forall|j: int|
                    0 <= j < k ==> !overlaps(#[trigger] kept@[j], c, min_distance as int),
            decreases m - k + (if is_overlapping { 0int } else { 1int }),
        {
            let e: (i32, i32) = kept[k];
            let dx: i64 = if c.0 >= e.0 {
                c.0 as i64 - e.0 as i64
            } else {
                e.0 as i64 - c.0 as i64
            };
            let dy: i64 = if c.1 >= e.1 {
                c.1 as i64 - e.1 as i64
            } else {
                e.1 as i64 - c.1 as i64
            };
            if dx < min_distance as i64 && dy < min_distance as i64 {
                proof {
                    assert(overlaps(kept@[k as int], c, min_distance as int));
                }
                is_overlapping = true;
            } else {
                k += 1;
            }
        }
        proof {
            assert(centers@.take(i + 1).drop_last() == centers@.take(i as int));
            assert(centers@.take(i + 1).last() == c);
        }
        if !is_overlapping {
            kept.push(c);
        }
        i += 1;
    }
    proof {
        assert(centers@.take(n as int) == centers@);
    }
    kept
}

} // verus!
