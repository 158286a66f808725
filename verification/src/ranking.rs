//! Ranking the positions of a list of keys: ascending by key, and by
//! position where keys are equal.
use vstd::prelude::*;

verus! {

/// Whether position `a` comes before position `b` in the ranking of `keys`:
/// its key is smaller, or the keys are equal and `a` is the earlier position.
pub open spec fn ranks_before(keys: Seq<i64>, a: int, b: int) -> bool {
    keys[a] < keys[b] || (keys[a] == keys[b] && a < b)
}

/// Whether `order` ranks the positions of `keys` whose key is at most
/// `limit`: it holds those positions and no others, each once, in ascending
/// order of key, positions of equal keys in ascending order.
pub open spec fn is_ranking(keys: Seq<i64>, limit: i64, order: Seq<usize>) -> bool {
    &&& forall|k: int|
        0 <= k < order.len() ==> (#[trigger] order[k]) < keys.len() && keys[order[k] as int]
            <= limit
    &&& forall|i: int|
        0 <= i < keys.len() && (#[trigger] keys[i]) <= limit ==> order.contains(i as usize)
    &&& forall|a: int, b: int|
        0 <= a < b < order.len() ==> ranks_before(
            keys,
            (#[trigger] order[a]) as int,
            (#[trigger] order[b]) as int,
        )
}

/// Where a position with key `key` goes into `order`, a list of positions
/// of `keys`: behind the last position whose key is not greater than `key`.
pub open spec fn insert_pos(keys: Seq<i64>, order: Seq<usize>, key: i64) -> int
    decreases order.len(),
{
    if order.len() > 0 && keys[order.last() as int] > key {
        insert_pos(keys, order.drop_last(), key)
    } else {
        order.len() as int
    }
}

/// The ranking of the first `upto` positions of `keys`: each position whose
/// key is at most `limit` is put, in turn, where [`insert_pos`] says.
pub open spec fn ranking_upto(keys: Seq<i64>, limit: i64, upto: nat) -> Seq<usize>
    decreases upto,
{
    if upto == 0 {
        Seq::empty()
    } else {
        let before = ranking_upto(keys, limit, (upto - 1) as nat);
        let key = keys[upto - 1];
        if key <= limit {
            before.insert(insert_pos(keys, before, key), (upto - 1) as usize)
        } else {
            before
        }
    }
}

/// The positions of `keys` whose key is at most `limit`, in ascending order
/// of key, positions of equal keys in ascending order.
pub open spec fn ranking(keys: Seq<i64>, limit: i64) -> Seq<usize> {
    ranking_upto(keys, limit, keys.len())
}

/// Whether `order` ranks the positions below `upto` only.
pub open spec fn ranks_prefix(keys: Seq<i64>, limit: i64, upto: int, order: Seq<usize>) -> bool {
    &&& forall|k: int|
        0 <= k < order.len() ==> (#[trigger] order[k]) < upto && keys[order[k] as int] <= limit
    &&& forall|i: int| 0 <= i < upto && (#[trigger] keys[i]) <= limit ==> order.contains(i as usize)
    &&& forall|a: int, b: int|
        0 <= a < b < order.len() ==> ranks_before(
            keys,
            (#[trigger] order[a]) as int,
            (#[trigger] order[b]) as int,
        )
}

/// [`insert_pos`] lies within the list; every position from it on has a
/// greater key, and the position just before it has not.
pub proof fn lemma_insert_pos(keys: Seq<i64>, order: Seq<usize>, key: i64)
    ensures
        0 <= insert_pos(keys, order, key) <= order.len(),
        forall|b: int|
            insert_pos(keys, order, key) <= b < order.len() ==> keys[(#[trigger] order[b]) as int]
                > key,
        insert_pos(keys, order, key) > 0 ==> keys[order[insert_pos(keys, order, key) - 1] as int]
            <= key,
    decreases order.len(),
{
    if order.len() > 0 && keys[order.last() as int] > key {
        lemma_insert_pos(keys, order.drop_last(), key);
        let p = insert_pos(keys, order.drop_last(), key);
        assert forall|b: int| p <= b < order.len() implies keys[(#[trigger] order[b]) as int]
            > key by {
            if b < order.len() - 1 {
                assert(order[b] == order.drop_last()[b]);
            }
        }
        if p > 0 {
            assert(order[p - 1] == order.drop_last()[p - 1]);
        }
    }
}

/// Putting position `i` into a ranking of the positions below `i`, behind
/// the last position whose key is not greater, ranks the positions up to
/// and including `i`.
pub proof fn lemma_insert_keeps_ranking(
    keys: Seq<i64>,
    limit: i64,
    i: int,
    order: Seq<usize>,
    j: int,
)
    requires
        0 <= i < keys.len(),
        i <= usize::MAX,
        keys[i] <= limit,
        ranks_prefix(keys, limit, i, order),
        0 <= j <= order.len(),
        forall|b: int| j <= b < order.len() ==> keys[(#[trigger] order[b]) as int] > keys[i],
        j > 0 ==> keys[order[j - 1] as int] <= keys[i],
    ensures
        ranks_prefix(keys, limit, i + 1, order.insert(j, i as usize)),
{
    let next = order.insert(j, i as usize);
    assert forall|k: int| 0 <= k < next.len() implies (#[trigger] next[k]) < i + 1
        && keys[next[k] as int] <= limit by {
        if k < j {
            assert(next[k] == order[k]);
        } else if k > j {
            assert(next[k] == order[k - 1]);
        }
    }
    assert forall|c: int| 0 <= c < i + 1 && (#[trigger] keys[c]) <= limit implies next.contains(
        c as usize,
    ) by {
        if c == i {
            assert(next[j] == i as usize);
        } else {
            assert(order.contains(c as usize));
            let k = choose|k: int| 0 <= k < order.len() && order[k] == c as usize;
            if k < j {
                assert(next[k] == c as usize);
            } else {
                assert(next[k + 1] == c as usize);
            }
        }
    }
    assert forall|a: int, b: int| 0 <= a < b < next.len() implies ranks_before(
        keys,
        (#[trigger] next[a]) as int,
        (#[trigger] next[b]) as int,
    ) by {
        if b < j {
            assert(next[a] == order[a] && next[b] == order[b]);
        } else if b == j {
            assert(next[a] == order[a]);
            assert(order[a] < i);
            if a < j - 1 {
                assert(ranks_before(keys, order[a] as int, order[j - 1] as int));
            }
        } else if a < j {
            assert(next[a] == order[a] && next[b] == order[b - 1]);
        } else if a == j {
            assert(next[b] == order[b - 1]);
        } else {
            assert(next[a] == order[a - 1] && next[b] == order[b - 1]);
        }
    }
}

/// [`ranking_upto`] ranks the positions below `upto`.
pub proof fn lemma_ranking_upto(keys: Seq<i64>, limit: i64, upto: nat)
    requires
        upto <= keys.len(),
        keys.len() <= usize::MAX,
    ensures
        ranks_prefix(keys, limit, upto as int, ranking_upto(keys, limit, upto)),
    decreases upto,
{
    if upto > 0 {
        lemma_ranking_upto(keys, limit, (upto - 1) as nat);
        let before = ranking_upto(keys, limit, (upto - 1) as nat);
        let key = keys[upto - 1];
        if key <= limit {
            lemma_insert_pos(keys, before, key);
            lemma_insert_keeps_ranking(
                keys,
                limit,
                upto - 1,
                before,
                insert_pos(keys, before, key),
            );
        } else {
            let order = ranking_upto(keys, limit, upto);
            assert(order == before);
        }
    }
}

/// The ranking holds exactly the positions whose key is at most `limit`,
/// each once, in ascending order of key, positions of equal keys in
/// ascending order.
pub proof fn lemma_ranking(keys: Seq<i64>, limit: i64)
    requires
        keys.len() <= usize::MAX,
    ensures
        is_ranking(keys, limit, ranking(keys, limit)),
{
    lemma_ranking_upto(keys, limit, keys.len());
}

/// In a ranking the keys never decrease.
pub proof fn lemma_ranking_ascends(keys: Seq<i64>, limit: i64, a: int, b: int)
    requires
        keys.len() <= usize::MAX,
        0 <= a <= b < ranking(keys, limit).len(),
    ensures
        keys[ranking(keys, limit)[a] as int] <= keys[ranking(keys, limit)[b] as int],
{
    lemma_ranking(keys, limit);
}

/// The positions of `keys` whose key is at most `limit`, in ascending order
/// of key; positions of equal keys keep their order.
pub fn rank_indices(keys: &Vec<i64>, limit: i64) -> (order: Vec<usize>)
    ensures
        order@ == ranking(keys@, limit),
        is_ranking(keys@, limit, order@),
{
    let n: usize = keys.len();
    let mut order: Vec<usize> = Vec::new();
    let mut i: usize = 0;
    while i < n
        invariant
            i <= n,
            n == keys@.len(),
            order@ == ranking_upto(keys@, limit, i as nat),
        decreases n - i,
    {
        let key: i64 = keys[i];
        if key <= limit {
            proof {
                lemma_ranking_upto(keys@, limit, i as nat);
            }
            let mut j: usize = order.len();
            proof {
                assert(order@.take(j as int) == order@);
            }
            while j > 0 && keys[order[j - 1]] > key
                invariant
                    j <= order@.len(),
                    i < n,
                    n == keys@.len(),
                    ranks_prefix(keys@, limit, i as int, order@),
                    insert_pos(keys@, order@, key) == insert_pos(keys@, order@.take(j as int), key),
                decreases j,
            {
                proof {
                    assert(order@.take(j as int).drop_last() == order@.take(j - 1));
                }
                j -= 1;
            }
            proof {
                assert(insert_pos(keys@, order@.take(j as int), key) == j);
            }
            order.insert(j, i);
        }
        i += 1;
    }
    proof {
        lemma_ranking(keys@, limit);
    }
    order
}

} // verus!
