//! Reading a string of digits off a source: every place at which the
//! template of a digit matches gives that digit, and the digits are put
//! in the order of their places from left to right.
use vstd::prelude::*;
use vstd::string::StringExecFns;
use rayon::iter::{IntoParallelRefIterator, ParallelIterator};
use crate::confidence_map::ConfidenceMap;
use crate::image_match::{center_x2, lemma_cell_in_map, match_order, rank_cells};
use crate::ranking::{lemma_ranking, rank_indices, ranking, ranking_upto};

verus! {

/// The scores of one digit's template against the source.
#[derive(Debug)]
pub struct GlyphScores {
    digit: u8,
    map: ConfidenceMap,
}

impl GlyphScores {
    #[verifier::type_invariant]
    spec fn well_formed(self) -> bool {
        self.digit <= 9
    }

    /// The digit that the template shows.
    pub closed spec fn spec_digit(self) -> u8 {
        if self.digit <= 9 {
            self.digit
        } else {
            9
        }
    }

    /// The digit is one of 0 to 9.
    pub proof fn lemma_digit_bound(self)
        ensures
            self.spec_digit() <= 9,
    {
    }

    /// The scores of the template.
    pub closed spec fn spec_map(self) -> ConfidenceMap {
        self.map
    }

    /// The scores `map` of the template of `digit`; `None` unless `digit`
    /// is a digit, 0 to 9.
    pub fn new(digit: u8, map: ConfidenceMap) -> (r: Option<GlyphScores>)
        ensures
            r.is_some() == (digit <= 9),
            r.is_some() ==> r.unwrap().spec_digit() == digit && r.unwrap().spec_map() == map,
    {
        if digit <= 9 {
            Some(GlyphScores { digit, map })
        } else {
            None
        }
    }

    /// The digit that the template shows.
    pub fn digit(&self) -> (d: u8)
        ensures
            d == self.spec_digit(),
            d <= 9,
    {
        proof {
            use_type_invariant(self);
        }
        self.digit
    }

    /// The scores of the template.
    pub fn map(&self) -> (m: &ConfidenceMap)
        ensures
            *m == self.spec_map(),
    {
        &self.map
    }
}

/// The character of a digit.
pub open spec fn digit_char(d: u8) -> char {
    if d == 0 {
        '0'
    } else if d == 1 {
        '1'
    } else if d == 2 {
        '2'
    } else if d == 3 {
        '3'
    } else if d == 4 {
        '4'
    } else if d == 5 {
        '5'
    } else if d == 6 {
        '6'
    } else if d == 7 {
        '7'
    } else if d == 8 {
        '8'
    } else {
        '9'
    }
}

/// What the matches of one digit's template give: for each place that
/// scores at least `threshold`, best first, the horizontal centre of the
/// template there, in half pixels, and the digit.
pub open spec fn spec_glyph_hits(glyph: GlyphScores, threshold: i32) -> Seq<(i64, u8)> {
    match_order(glyph.spec_map()@, threshold).map_values(
        |cell: usize| (center_x2(glyph.spec_map(), cell as int) as i64, glyph.spec_digit()),
    )
}

/// What the matches of all templates give: the hits of each, one template
/// after the other.
pub open spec fn merged_hits(glyphs: Seq<GlyphScores>, threshold: i32) -> Seq<(i64, u8)>
    decreases glyphs.len(),
{
    if glyphs.len() == 0 {
        Seq::empty()
    } else {
        merged_hits(glyphs.drop_last(), threshold) + spec_glyph_hits(glyphs.last(), threshold)
    }
}

/// The horizontal places of the hits.
pub open spec fn hit_keys(hits: Seq<(i64, u8)>) -> Seq<i64> {
    hits.map_values(|h: (i64, u8)| h.0)
}

/// The order in which the hits are read: from left to right, hits at the
/// same place in the order in which they are listed.
pub open spec fn reading_order(hits: Seq<(i64, u8)>) -> Seq<usize> {
    ranking(hit_keys(hits), i64::MAX)
}

/// The digits of the hits, read from left to right.
pub open spec fn spelling(hits: Seq<(i64, u8)>) -> Seq<char> {
    reading_order(hits).map_values(|i: usize| digit_char(hits[i as int].1))
}

/// Every hit is read once: the reading order holds each position of the
/// list, and the string has one character for each hit. The places of the
/// hits read never decrease.
pub proof fn lemma_reading_order(hits: Seq<(i64, u8)>)
    requires
        hits.len() <= usize::MAX,
    ensures
        reading_order(hits).len() == hits.len(),
        spelling(hits).len() == hits.len(),
        forall|i: usize| i < hits.len() ==> #[trigger] reading_order(hits).contains(i),
        forall|k: int|
            0 <= k < hits.len() ==> (#[trigger] reading_order(hits)[k]) < hits.len() && spelling(
                hits,
            )[k] == digit_char(hits[reading_order(hits)[k] as int].1),
        forall|a: int, b: int|
            0 <= a < b < hits.len() ==> hits[(#[trigger] reading_order(hits)[a]) as int].0
                <= hits[(#[trigger] reading_order(hits)[b]) as int].0,
{
    let keys = hit_keys(hits);
    lemma_ranking(keys, i64::MAX);
    lemma_ranking_upto_len(keys, keys.len());
    let order = reading_order(hits);
    assert forall|i: usize| i < hits.len() implies #[trigger] order.contains(i) by {
        assert(keys[i as int] <= i64::MAX);
    }
    assert forall|a: int, b: int| 0 <= a < b < hits.len() implies hits[(
    #[trigger] order[a]) as int].0 <= hits[(#[trigger] order[b]) as int].0 by {
        assert(crate::ranking::ranks_before(keys, order[a] as int, order[b] as int));
    }
}

/// With no limit on the keys, the ranking of the first `upto` positions
/// holds `upto` positions.
proof fn lemma_ranking_upto_len(keys: Seq<i64>, upto: nat)
    requires
        upto <= keys.len(),
    ensures
        ranking_upto(keys, i64::MAX, upto).len() == upto,
    decreases upto,
{
    if upto > 0 {
        lemma_ranking_upto_len(keys, (upto - 1) as nat);
        crate::ranking::lemma_insert_pos(
            keys,
            ranking_upto(keys, i64::MAX, (upto - 1) as nat),
            keys[upto - 1],
        );
    }
}

/// The hits of one digit's template: for each place that scores at least
/// `threshold`, best first, the horizontal centre of the template there,
/// in half pixels, and the digit.
pub fn glyph_hits(glyph: &GlyphScores, threshold: i32) -> (hits: Vec<(i64, u8)>)
    ensures
        hits@ == spec_glyph_hits(*glyph, threshold),
{
    let map = glyph.map();
    let digit: u8 = glyph.digit();
    let order = rank_cells(map, threshold);
    let cols: usize = map.cols();
    let w: usize = map.template_width();
    let n: usize = order.len();
    let mut hits: Vec<(i64, u8)> = Vec::new();
    let mut k: usize = 0;
    while k < n
        invariant
            k <= n,
            n == order@.len(),
            cols == map.spec_cols(),
            w == map.spec_template_width(),
            map.well_shaped(),
            *map == glyph.spec_map(),
            digit == glyph.spec_digit(),
            crate::image_match::is_match_order(map@, threshold, order@),
            hits@ == order@.take(k as int).map_values(
                |cell: usize| (center_x2(glyph.spec_map(), cell as int) as i64, glyph.spec_digit()),
            ),
        decreases n - k,
    {
        let cell: usize = order[k];
        proof {
            lemma_cell_in_map(*map, cell as int);
        }
        let x2: i64 = 2 * ((cell % cols) as i64) + w as i64;
        hits.push((x2, digit));
        proof {
            assert(order@.take(k + 1) == order@.take(k as int).push(cell));
            assert(hits@ == order@.take(k + 1).map_values(
                |cell: usize| (center_x2(glyph.spec_map(), cell as int) as i64, glyph.spec_digit()),
            ));
        }
        k += 1;
    }
    proof {
        assert(order@.take(n as int) == order@);
    }
    hits
}

/// Runs [`glyph_hits`] on each template, the templates side by side on
/// rayon's thread pool, and collects what they give into one list.
///
/// This calls rayon's `par_iter`, `flat_map` and `collect`. What is
/// taken on trust of them: the list collected holds the items that the
/// calls of [`glyph_hits`] returned, those of each template together and
/// in the order returned, the templates in the order of `glyphs`,
/// whichever call finished first.
#[verifier::external_body]
fn gather_hits(glyphs: &Vec<GlyphScores>, threshold: i32) -> (hits: Vec<(i64, u8)>)
    ensures
        hits@ == merged_hits(glyphs@, threshold),
{
    glyphs.par_iter().flat_map(|glyph| glyph_hits(glyph, threshold)).collect()
}

/// The string of one digit.
fn digit_str(d: u8) -> (s: &'static str)
    requires
        d <= 9,
    ensures
        s@ == seq![digit_char(d)],
{
    proof {
        reveal_strlit("0");
        reveal_strlit("1");
        reveal_strlit("2");
        reveal_strlit("3");
        reveal_strlit("4");
        reveal_strlit("5");
        reveal_strlit("6");
        reveal_strlit("7");
        reveal_strlit("8");
        reveal_strlit("9");
    }
    let s = match d {
        0 => "0",
        1 => "1",
        2 => "2",
        3 => "3",
        4 => "4",
        5 => "5",
        6 => "6",
        7 => "7",
        8 => "8",
        _ => "9",
    };
    assert(s@ =~= seq![digit_char(d)]);
    s
}

/// The digits of `hits`, read from left to right: in ascending order of
/// the first component, hits of equal first component in the order in
/// which they are listed. Every hit gives one character.
pub fn spell_hits(hits: &Vec<(i64, u8)>) -> (text: String)
    requires
        forall|k: int| 0 <= k < hits@.len() ==> (#[trigger] hits@[k]).1 <= 9,
    ensures
        text@ == spelling(hits@),
{
    let n: usize = hits.len();
    let mut keys: Vec<i64> = Vec::new();
    let mut i: usize = 0;
    while i < n
        invariant
            i <= n,
            n == hits@.len(),
            keys@ == hit_keys(hits@).take(i as int),
        decreases n - i,
    {
        keys.push(hits[i].0);
        proof {
            assert(keys@ =~= hit_keys(hits@).take(i + 1));
        }
        i += 1;
    }
    proof {
        assert(hit_keys(hits@).take(n as int) == hit_keys(hits@));
    }
    let order = rank_indices(&keys, i64::MAX);
    let m: usize = order.len();
    let mut text = String::new();
    let mut k: usize = 0;
    while k < m
        invariant
            k <= m,
            m == order@.len(),
            order@ == reading_order(hits@),
            crate::ranking::is_ranking(hit_keys(hits@), i64::MAX, order@),
            forall|j: int| 0 <= j < hits@.len() ==> (#[trigger] hits@[j]).1 <= 9,
            text@ == order@.take(k as int).map_values(|i: usize| digit_char(hits@[i as int].1)),
        decreases m - k,
    {
        let at: usize = order[k];
        let s = digit_str(hits[at].1);
        text.append(s);
        proof {
            assert(order@.take(k + 1) == order@.take(k as int).push(at));
            assert(text@ =~= order@.take(k + 1).map_values(
                |i: usize| digit_char(hits@[i as int].1),
            ));
        }
        k += 1;
    }
    proof {
        assert(order@.take(m as int) == order@);
    }
    text
}

/// The string of digits that the templates' matches spell: every place at
/// which the template of a digit scores at least `threshold` gives that
/// digit, and the digits are put in the order of their places from left
/// to right. Digits at the same place come in the order of their
/// templates in `glyphs`. A digit whose template is not among `glyphs` is
/// never read.
pub fn find_characters_from_library_threaded(glyphs: &Vec<GlyphScores>, threshold: i32) -> (text:
    String)
    ensures
        text@ == spelling(merged_hits(glyphs@, threshold)),
        merged_hits(glyphs@, threshold).len() <= usize::MAX,
{
    let hits = gather_hits(glyphs, threshold);
    // Taking the length tells the proof that the number of hits fits `usize`.
    let _count: usize = hits.len();
    proof {
        lemma_merged_digits(glyphs@, threshold);
    }
    spell_hits(&hits)
}

/// Every hit carries a digit, 0 to 9.
pub proof fn lemma_merged_digits(glyphs: Seq<GlyphScores>, threshold: i32)
    ensures
        forall|k: int|
            0 <= k < merged_hits(glyphs, threshold).len() ==> (#[trigger] merged_hits(
                glyphs,
                threshold,
            )[k]).1 <= 9,
    decreases glyphs.len(),
{
    if glyphs.len() > 0 {
        lemma_merged_digits(glyphs.drop_last(), threshold);
        glyphs.last().lemma_digit_bound();
        let front = merged_hits(glyphs.drop_last(), threshold);
        let tail = spec_glyph_hits(glyphs.last(), threshold);
        assert forall|k: int| 0 <= k < front.len() + tail.len() implies (#[trigger] (front
            + tail)[k]).1 <= 9 by {
            if k < front.len() {
                assert((front + tail)[k] == front[k]);
            } else {
                assert((front + tail)[k] == tail[k - front.len()]);
            }
        }
    }
}

/// Every hit carries the digit of one of the templates.
pub proof fn lemma_hits_come_from_glyphs(glyphs: Seq<GlyphScores>, threshold: i32)
    ensures
        forall|k: int|
            0 <= k < merged_hits(glyphs, threshold).len() ==> exists|j: int|
                0 <= j < glyphs.len() && (#[trigger] merged_hits(glyphs, threshold)[k]).1
                    == glyphs[j].spec_digit(),
    decreases glyphs.len(),
{
    if glyphs.len() > 0 {
        lemma_hits_come_from_glyphs(glyphs.drop_last(), threshold);
        let front = merged_hits(glyphs.drop_last(), threshold);
        let tail = spec_glyph_hits(glyphs.last(), threshold);
        assert forall|k: int| 0 <= k < front.len() + tail.len() implies exists|j: int|
            0 <= j < glyphs.len() && (#[trigger] (front + tail)[k]).1
                == glyphs[j].spec_digit() by {
            if k < front.len() {
                assert((front + tail)[k] == front[k]);
                let j = choose|j: int|
                    0 <= j < glyphs.drop_last().len() && front[k].1
                        == glyphs.drop_last()[j].spec_digit();
                assert(glyphs.drop_last()[j] == glyphs[j]);
            } else {
                assert((front + tail)[k] == tail[k - front.len()]);
                assert(glyphs[glyphs.len() - 1] == glyphs.last());
            }
        }
    }
}

/// A digit whose template is not among the glyphs is never read: its
/// character is not in the string.
pub proof fn lemma_missing_glyph_is_not_read(glyphs: Seq<GlyphScores>, threshold: i32, d: u8)
    requires
        merged_hits(glyphs, threshold).len() <= usize::MAX,
        d <= 9,
        forall|j: int| 0 <= j < glyphs.len() ==> (#[trigger] glyphs[j]).spec_digit() != d,
    ensures
        !spelling(merged_hits(glyphs, threshold)).contains(digit_char(d)),
{
    let hits = merged_hits(glyphs, threshold);
    let text = spelling(hits);
    lemma_reading_order(hits);
    lemma_hits_come_from_glyphs(glyphs, threshold);
    lemma_merged_digits(glyphs, threshold);
    assert forall|k: int| 0 <= k < text.len() implies text[k] != digit_char(d) by {
        let at = reading_order(hits)[k] as int;
        assert(text[k] == digit_char(hits[at].1));
        let j = choose|j: int| 0 <= j < glyphs.len() && hits[at].1 == glyphs[j].spec_digit();
        assert(glyphs[j].spec_digit() != d);
        assert(hits[at].1 <= 9);
    }
}

} // verus!
