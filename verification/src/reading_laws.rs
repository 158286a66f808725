//! What holds of the string read off a set of glyphs when one digit's
//! glyph is taken away: the string is the same, without that digit.
use vstd::prelude::*;
use crate::digit_recognition::{
    digit_char,
    hit_keys,
    lemma_merged_digits,
    lemma_reading_order,
    merged_hits,
    reading_order,
    spec_glyph_hits,
    spelling,
    GlyphScores,
};
use crate::ranking::{insert_pos, lemma_insert_pos, lemma_ranking_upto, ranking_upto};

verus! {

/// Whether a hit carries a digit other than `d`.
pub open spec fn other_digit(d: u8) -> spec_fn((i64, u8)) -> bool {
    |h: (i64, u8)| h.1 != d
}

/// Whether a character is not that of the digit `d`.
pub open spec fn other_char(d: u8) -> spec_fn(char) -> bool {
    |c: char| c != digit_char(d)
}

/// Whether a glyph shows a digit other than `d`.
pub open spec fn other_glyph(d: u8) -> spec_fn(GlyphScores) -> bool {
    |g: GlyphScores| g.spec_digit() != d
}

/// The hit at a position of `hits`.
pub open spec fn hit_at(hits: Seq<(i64, u8)>) -> spec_fn(usize) -> (i64, u8) {
    |i: usize| hits[i as int]
}

/// The character of a hit's digit.
pub open spec fn hit_char() -> spec_fn((i64, u8)) -> char {
    |h: (i64, u8)| digit_char(h.1)
}

/// Where a hit at the place `key` goes into a list of hits: behind the
/// last hit whose place is not greater than `key`.
pub open spec fn insert_place(sorted: Seq<(i64, u8)>, key: i64) -> int
    decreases sorted.len(),
{
    if sorted.len() > 0 && sorted.last().0 > key {
        insert_place(sorted.drop_last(), key)
    } else {
        sorted.len() as int
    }
}

/// The hits from left to right: each hit is put, in turn, where
/// [`insert_place`] says.
pub open spec fn read_in_order(hits: Seq<(i64, u8)>) -> Seq<(i64, u8)>
    decreases hits.len(),
{
    if hits.len() == 0 {
        Seq::empty()
    } else {
        let before = read_in_order(hits.drop_last());
        before.insert(insert_place(before, hits.last().0), hits.last())
    }
}

/// [`insert_place`] lies within the list; every hit from it on has a
/// greater place, and the hit just before it has not.
proof fn lemma_insert_place(sorted: Seq<(i64, u8)>, key: i64)
    ensures
        0 <= insert_place(sorted, key) <= sorted.len(),
        forall|b: int|
            insert_place(sorted, key) <= b < sorted.len() ==> (#[trigger] sorted[b]).0 > key,
        insert_place(sorted, key) > 0 ==> sorted[insert_place(sorted, key) - 1].0 <= key,
    decreases sorted.len(),
{
    if sorted.len() > 0 && sorted.last().0 > key {
        lemma_insert_place(sorted.drop_last(), key);
        let p = insert_place(sorted.drop_last(), key);
        assert forall|b: int| p <= b < sorted.len() implies (#[trigger] sorted[b]).0 > key by {
            if b < sorted.len() - 1 {
                assert(sorted[b] == sorted.drop_last()[b]);
            }
        }
        if p > 0 {
            assert(sorted[p - 1] == sorted.drop_last()[p - 1]);
        }
    }
}

/// A position goes into a list of positions where its hit goes into the
/// list of their hits.
proof fn lemma_same_place(hits: Seq<(i64, u8)>, order: Seq<usize>, key: i64)
    requires
        forall|k: int| 0 <= k < order.len() ==> (#[trigger] order[k]) < hits.len(),
    ensures
        insert_pos(hit_keys(hits), order, key) == insert_place(
            order.map_values(hit_at(hits)),
            key,
        ),
    decreases order.len(),
{
    let keys = hit_keys(hits);
    let vals = order.map_values(hit_at(hits));
    if order.len() > 0 {
        assert(order.last() == order[order.len() - 1]);
        assert(vals.last() == hits[order.last() as int]);
        assert(keys[order.last() as int] == hits[order.last() as int].0);
        if keys[order.last() as int] > key {
            assert forall|k: int| 0 <= k < order.drop_last().len() implies (
            #[trigger] order.drop_last()[k]) < hits.len() by {
                assert(order.drop_last()[k] == order[k]);
            }
            lemma_same_place(hits, order.drop_last(), key);
            assert(vals.drop_last() =~= order.drop_last().map_values(hit_at(hits)));
        }
    }
}

/// The hits at the ranked positions of the first `n` hits are those hits
/// from left to right.
proof fn lemma_read_upto(hits: Seq<(i64, u8)>, n: nat)
    requires
        n <= hits.len() <= usize::MAX,
    ensures
        ranking_upto(hit_keys(hits), i64::MAX, n).map_values(hit_at(hits)) == read_in_order(
            hits.take(n as int),
        ),
    decreases n,
{
    let keys = hit_keys(hits);
    if n == 0 {
        assert(ranking_upto(keys, i64::MAX, n).map_values(hit_at(hits)) =~= Seq::empty());
    } else {
        lemma_read_upto(hits, (n - 1) as nat);
        lemma_ranking_upto(keys, i64::MAX, (n - 1) as nat);
        let before = ranking_upto(keys, i64::MAX, (n - 1) as nat);
        let key = keys[n - 1];
        assert(key == hits[n - 1].0);
        lemma_same_place(hits, before, key);
        lemma_insert_pos(keys, before, key);
        let pos = insert_pos(keys, before, key);
        let prefix = hits.take(n as int);
        assert(prefix.drop_last() =~= hits.take(n - 1));
        assert(prefix.last() == hits[n - 1]);
        assert(before.insert(pos, (n - 1) as usize).map_values(hit_at(hits))
            =~= before.map_values(hit_at(hits)).insert(pos, hits[n - 1]));
    }
}

/// The string read off the hits holds the digits of the hits from left to
/// right.
pub proof fn lemma_spelling_by_insertion(hits: Seq<(i64, u8)>)
    requires
        hits.len() <= usize::MAX,
    ensures
        reading_order(hits).map_values(hit_at(hits)) == read_in_order(hits),
        spelling(hits) == read_in_order(hits).map_values(hit_char()),
        read_in_order(hits).len() == hits.len(),
        forall|a: int, b: int|
            0 <= a < b < hits.len() ==> (#[trigger] read_in_order(hits)[a]).0 <= (
            #[trigger] read_in_order(hits)[b]).0,
        forall|k: int|
            0 <= k < hits.len() ==> hits.contains(#[trigger] read_in_order(hits)[k]),
{
    lemma_read_upto(hits, hits.len());
    assert(hits.take(hits.len() as int) =~= hits);
    assert(hit_keys(hits).len() == hits.len());
    lemma_reading_order(hits);
    let order = reading_order(hits);
    let read = read_in_order(hits);
    assert(read == order.map_values(hit_at(hits)));
    assert(spelling(hits) =~= read.map_values(hit_char()));
    assert forall|a: int, b: int| 0 <= a < b < hits.len() implies (#[trigger] read[a]).0 <= (
    #[trigger] read[b]).0 by {
        assert(read[a] == hits[order[a] as int]);
        assert(read[b] == hits[order[b] as int]);
    }
    assert forall|k: int| 0 <= k < hits.len() implies hits.contains(#[trigger] read[k]) by {
        assert(read[k] == hits[order[k] as int]);
    }
}

/// A place behind hits at or before `key` and before hits after `key` is
/// where a hit at `key` goes.
proof fn lemma_place_of_concat(a: Seq<(i64, u8)>, b: Seq<(i64, u8)>, key: i64)
    requires
        forall|i: int| 0 <= i < b.len() ==> (#[trigger] b[i]).0 > key,
        a.len() == 0 || a.last().0 <= key,
    ensures
        insert_place(a + b, key) == a.len(),
    decreases b.len(),
{
    if b.len() == 0 {
        assert(a + b =~= a);
    } else {
        assert((a + b).last() == b[b.len() - 1]);
        assert((a + b).drop_last() =~= a + b.drop_last());
        assert forall|i: int| 0 <= i < b.drop_last().len() implies (
        #[trigger] b.drop_last()[i]).0 > key by {
            assert(b.drop_last()[i] == b[i]);
        }
        lemma_place_of_concat(a, b.drop_last(), key);
    }
}

/// Putting a hit into a list in order and then taking out the digit `d`
/// gives what taking out `d` first and then putting in the hit gives.
proof fn lemma_insert_then_filter(s: Seq<(i64, u8)>, h: (i64, u8), d: u8)
    requires
        forall|a: int, b: int| 0 <= a < b < s.len() ==> (#[trigger] s[a]).0 <= (#[trigger] s[b]).0,
    ensures
        s.insert(insert_place(s, h.0), h).filter(other_digit(d)) == (if h.1 != d {
            s.filter(other_digit(d)).insert(insert_place(s.filter(other_digit(d)), h.0), h)
        } else {
            s.filter(other_digit(d))
        }),
{
    let p = other_digit(d);
    let key = h.0;
    lemma_insert_place(s, key);
    let pos = insert_place(s, key);
    let a = s.take(pos);
    let b = s.skip(pos);
    assert(s =~= a + b);
    assert(s.insert(pos, h) =~= a.push(h) + b);
    Seq::filter_distributes_over_add(a, b, p);
    Seq::filter_distributes_over_add(a.push(h), b, p);
    let fa = a.filter(p);
    let fb = b.filter(p);
    assert(a.push(h).filter(p) == (if p(h) {
        fa.push(h)
    } else {
        fa
    })) by {
        reveal(Seq::filter);
        assert(a.push(h).drop_last() =~= a);
        assert(a.push(h).last() == h);
    }
    if h.1 != d {
        assert forall|i: int| 0 <= i < fb.len() implies (#[trigger] fb[i]).0 > key by {
            assert(fb.contains(fb[i]));
            b.lemma_filter_contains_rev(p, fb[i]);
            let j = choose|j: int| 0 <= j < b.len() && b[j] == fb[i];
            assert(b[j] == s[pos + j]);
        }
        if fa.len() > 0 {
            assert(fa.contains(fa.last()));
            a.lemma_filter_contains_rev(p, fa.last());
            let j = choose|j: int| 0 <= j < a.len() && a[j] == fa.last();
            assert(a[j] == s[j]);
            if j < pos - 1 {
                assert(s[j].0 <= s[pos - 1].0);
            }
        }
        lemma_place_of_concat(fa, fb, key);
        assert((fa + fb).insert(fa.len() as int, h) =~= fa.push(h) + fb);
    }
}

/// Reading the hits without the digit `d` gives what reading all hits and
/// then taking out `d` gives.
proof fn lemma_read_filter(hits: Seq<(i64, u8)>, d: u8)
    requires
        hits.len() <= usize::MAX,
    ensures
        read_in_order(hits.filter(other_digit(d))) == read_in_order(hits).filter(other_digit(d)),
    decreases hits.len(),
{
    let p = other_digit(d);
    reveal(Seq::filter);
    if hits.len() == 0 {
        assert(hits.filter(p) =~= Seq::empty());
        assert(read_in_order(hits).filter(p) =~= Seq::empty());
    } else {
        let front = hits.drop_last();
        let h = hits.last();
        lemma_read_filter(front, d);
        lemma_spelling_by_insertion(front);
        lemma_insert_then_filter(read_in_order(front), h, d);
        if p(h) {
            let ff = front.filter(p);
            assert(hits.filter(p) == ff.push(h));
            assert(ff.push(h).drop_last() =~= ff);
            assert(ff.push(h).last() == h);
        }
    }
}

/// Taking the digit `d` out of the hits and then writing their digits
/// gives what writing all digits and then taking out the character of `d`
/// gives.
proof fn lemma_chars_filter(s: Seq<(i64, u8)>, d: u8)
    requires
        d <= 9,
        forall|k: int| 0 <= k < s.len() ==> (#[trigger] s[k]).1 <= 9,
    ensures
        s.filter(other_digit(d)).map_values(hit_char()) == s.map_values(hit_char()).filter(
            other_char(d),
        ),
    decreases s.len(),
{
    let p = other_digit(d);
    let q = other_char(d);
    let f = hit_char();
    reveal(Seq::filter);
    if s.len() == 0 {
        assert(s.filter(p).map_values(f) =~= Seq::empty());
        assert(s.map_values(f).filter(q) =~= Seq::empty());
    } else {
        let front = s.drop_last();
        let h = s.last();
        assert forall|k: int| 0 <= k < front.len() implies (#[trigger] front[k]).1 <= 9 by {
            assert(front[k] == s[k]);
        }
        lemma_chars_filter(front, d);
        assert(s.map_values(f).drop_last() =~= front.map_values(f));
        assert(s.map_values(f).last() == f(h));
        assert(h.1 <= 9);
        assert(p(h) == q(f(h)));
        let ff = front.filter(p);
        assert(ff.push(h).map_values(f) =~= ff.map_values(f).push(f(h)));
    }
}

/// Taking out what every element passes changes nothing.
proof fn lemma_filter_all<A>(s: Seq<A>, p: spec_fn(A) -> bool)
    requires
        forall|i: int| 0 <= i < s.len() ==> p(#[trigger] s[i]),
    ensures
        s.filter(p) == s,
    decreases s.len(),
{
    reveal(Seq::filter);
    if s.len() > 0 {
        assert forall|i: int| 0 <= i < s.drop_last().len() implies p(
            #[trigger] s.drop_last()[i],
        ) by {
            assert(s.drop_last()[i] == s[i]);
        }
        lemma_filter_all(s.drop_last(), p);
        assert(s.drop_last().push(s.last()) =~= s);
    }
}

/// Taking out what no element passes leaves nothing.
proof fn lemma_filter_none<A>(s: Seq<A>, p: spec_fn(A) -> bool)
    requires
        forall|i: int| 0 <= i < s.len() ==> !p(#[trigger] s[i]),
    ensures
        s.filter(p) == Seq::<A>::empty(),
    decreases s.len(),
{
    reveal(Seq::filter);
    if s.len() > 0 {
        assert forall|i: int| 0 <= i < s.drop_last().len() implies !p(
            #[trigger] s.drop_last()[i],
        ) by {
            assert(s.drop_last()[i] == s[i]);
        }
        lemma_filter_none(s.drop_last(), p);
    } else {
        assert(s =~= Seq::<A>::empty());
    }
}

/// The hits of the glyphs without those of the digit `d` are the hits of
/// all glyphs without the hits that carry `d`.
pub proof fn lemma_merged_filter(glyphs: Seq<GlyphScores>, threshold: i32, d: u8)
    ensures
        merged_hits(glyphs.filter(other_glyph(d)), threshold) == merged_hits(
            glyphs,
            threshold,
        ).filter(other_digit(d)),
    decreases glyphs.len(),
{
    let g = other_glyph(d);
    let p = other_digit(d);
    reveal(Seq::filter);
    if glyphs.len() == 0 {
        assert(glyphs.filter(g) =~= Seq::empty());
        assert(merged_hits(glyphs, threshold).filter(p) =~= Seq::empty());
    } else {
        let front = glyphs.drop_last();
        let last = glyphs.last();
        let tail = spec_glyph_hits(last, threshold);
        lemma_merged_filter(front, threshold, d);
        Seq::filter_distributes_over_add(merged_hits(front, threshold), tail, p);
        if g(last) {
            assert forall|i: int| 0 <= i < tail.len() implies p(#[trigger] tail[i]) by {}
            lemma_filter_all(tail, p);
            let kept = front.filter(g).push(last);
            assert(kept.drop_last() =~= front.filter(g));
            assert(kept.last() == last);
        } else {
            assert forall|i: int| 0 <= i < tail.len() implies !p(#[trigger] tail[i]) by {}
            lemma_filter_none(tail, p);
            assert(merged_hits(front, threshold).filter(p) + Seq::<(i64, u8)>::empty()
                =~= merged_hits(front, threshold).filter(p));
        }
    }
}

/// Without the glyph of the digit `d`, the string read is the string that
/// all the glyphs give, without the characters of `d`: the other digits
/// stay, each in its place among the others.
pub proof fn lemma_missing_glyph_leaves_out_its_digit(
    glyphs: Seq<GlyphScores>,
    threshold: i32,
    d: u8,
)
    requires
        merged_hits(glyphs, threshold).len() <= usize::MAX,
        d <= 9,
    ensures
        spelling(merged_hits(glyphs.filter(other_glyph(d)), threshold)) == spelling(
            merged_hits(glyphs, threshold),
        ).filter(other_char(d)),
{
    let hits = merged_hits(glyphs, threshold);
    let fewer = hits.filter(other_digit(d));
    lemma_merged_filter(glyphs, threshold, d);
    hits.lemma_filter_len(other_digit(d));
    lemma_spelling_by_insertion(hits);
    lemma_spelling_by_insertion(fewer);
    lemma_read_filter(hits, d);
    lemma_merged_digits(glyphs, threshold);
    let read = read_in_order(hits);
    assert forall|k: int| 0 <= k < read.len() implies (#[trigger] read[k]).1 <= 9 by {
        assert(hits.contains(read[k]));
    }
    lemma_chars_filter(read, d);
}

} // verus!
