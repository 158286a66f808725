//! Finding a template in a source from the map of its scores: whether it
//! is there, where it is first found, and all the places at which it is
//! found, best first.
use vstd::prelude::*;
use vstd::arithmetic::div_mod::{
    lemma_div_pos_is_pos,
    lemma_fundamental_div_mod_converse,
    lemma_mod_bound,
    lemma_multiply_divide_lt,
};
use crate::confidence_map::{sizes_fit, template_exceeds, ConfidenceMap};
use crate::deduplication::{suppress, suppress_overlaps};
use crate::image_match_error::ImageMatchError;
use crate::ranking::{is_ranking, lemma_ranking, rank_indices, ranking};
use crate::types::{MatchResult, Point};

verus! {

/// Whether some score is at least `threshold`.
pub open spec fn has_hit(scores: Seq<i32>, threshold: i32) -> bool {
    exists|i: int| 0 <= i < scores.len() && scores[i] >= threshold
}

/// Whether cell `i` is the first, row by row, whose score is at least
/// `threshold`.
pub open spec fn is_first_hit(scores: Seq<i32>, i: int, threshold: i32) -> bool {
    &&& 0 <= i < scores.len()
    &&& scores[i] >= threshold
    &&& forall|j: int| 0 <= j < i ==> scores[j] < threshold
}

/// Half of `h`, rounded to the nearest integer, a half away from zero.
pub open spec fn round_half(h: int) -> int {
    if h >= 0 {
        (h + 1) / 2
    } else {
        -((1 - h) / 2)
    }
}

/// The column of cell `cell`, counted row by row.
pub open spec fn cell_col(map: ConfidenceMap, cell: int) -> int {
    cell % (map.spec_cols() as int)
}

/// The row of cell `cell`, counted row by row.
pub open spec fn cell_row(map: ConfidenceMap, cell: int) -> int {
    cell / (map.spec_cols() as int)
}

/// Twice the horizontal centre of the template placed at cell `cell`: the
/// centre is the column plus half the template's width.
pub open spec fn center_x2(map: ConfidenceMap, cell: int) -> int {
    2 * cell_col(map, cell) + map.spec_template_width()
}

/// Twice the vertical centre of the template placed at cell `cell`: the
/// centre is the row plus half the template's height.
pub open spec fn center_y2(map: ConfidenceMap, cell: int) -> int {
    2 * cell_row(map, cell) + map.spec_template_height()
}

/// Whether the absolute centre of the template placed at cell `cell`,
/// rounded to whole pixels, is a coordinate that an `i32` can hold, for a
/// source whose top-left pixel lies at (`x`, `y`).
pub open spec fn center_fits(map: ConfidenceMap, cell: int, x: i32, y: i32) -> bool {
    x + round_half(center_x2(map, cell)) <= i32::MAX && y + round_half(center_y2(map, cell))
        <= i32::MAX
}

/// Whether the centre of the first place that scores at least
/// `confidence` fits an `i32`. This holds wherever no place does.
pub open spec fn first_hit_fits(map: ConfidenceMap, confidence: i32, x: i32, y: i32) -> bool {
    forall|i: int| is_first_hit(map@, i, confidence) ==> center_fits(map, i, x, y)
}

/// Whether the centre of every place that scores at least `confidence`
/// fits an `i32`. This holds wherever no place does.
pub open spec fn all_hits_fit(map: ConfidenceMap, confidence: i32, x: i32, y: i32) -> bool {
    forall|i: int|
        0 <= i < map@.len() && (#[trigger] map@[i]) >= confidence ==> center_fits(map, i, x, y)
}

/// The absolute coordinate of the centre, rounded to whole pixels, of the
/// template placed at cell `cell` of a source whose top-left pixel lies at
/// (`x`, `y`).
pub open spec fn absolute_center(map: ConfidenceMap, cell: int, x: i32, y: i32) -> (int, int) {
    (x + round_half(center_x2(map, cell)), y + round_half(center_y2(map, cell)))
}

/// Whether a source of `channels` channels has to be turned into grey
/// before it is scored: only for a grey match, and only if it is not grey
/// already. The template of a grey match is always turned.
pub fn source_needs_gray(channels: usize, rgb: bool) -> (convert: bool)
    ensures
        convert == (!rgb && channels != 1),
{
    !rgb && channels != 1
}

/// Half of `h`, rounded to the nearest integer, a half away from zero.
pub fn round_half_pixels(h: i64) -> (r: i64)
    ensures
        r == round_half(h as int),
{
    if h >= 0 {
        h / 2 + h % 2
    } else {
        // `h` is negative, so `-(h + 1)` cannot overflow.
        let m: i64 = -(h + 1);
        -(m / 2 + 1)
    }
}

/// The column and row of a cell lie within the map.
pub proof fn lemma_cell_in_map(map: ConfidenceMap, cell: int)
    requires
        map.well_shaped(),
        0 <= cell < map@.len(),
    ensures
        0 <= cell_col(map, cell) < map.spec_cols(),
        0 <= cell_row(map, cell) < map.spec_rows(),
        cell == cell_row(map, cell) * map.spec_cols() + cell_col(map, cell),
        0 <= center_x2(map, cell) <= 2 * map.spec_source_width(),
        0 <= center_y2(map, cell) <= 2 * map.spec_source_height(),
        0 <= round_half(center_x2(map, cell)) <= map.spec_source_width(),
        0 <= round_half(center_y2(map, cell)) <= map.spec_source_height(),
{
    let cols = map.spec_cols() as int;
    let rows = map.spec_rows() as int;
    lemma_mod_bound(cell, cols);
    lemma_div_pos_is_pos(cell, cols);
    assert(cols * rows == rows * cols) by (nonlinear_arith);
    lemma_multiply_divide_lt(cell, cols, rows);
    vstd::arithmetic::div_mod::lemma_fundamental_div_mod(cell, cols);
    assert(cols * (cell / cols) == (cell / cols) * cols) by (nonlinear_arith);
}

/// There is one first hit at most: going through the map as one run and
/// going through it row by row find the same cell.
pub proof fn lemma_first_hit_unique(scores: Seq<i32>, i: int, j: int, threshold: i32)
    requires
        is_first_hit(scores, i, threshold),
        is_first_hit(scores, j, threshold),
    ensures
        i == j,
{
}

/// Where no place scores at least `confidence`, no centre has to fit: the
/// searches can be called for every `x` and `y`.
pub proof fn lemma_no_hit_fits(map: ConfidenceMap, confidence: i32, x: i32, y: i32)
    requires
        !has_hit(map@, confidence),
    ensures
        first_hit_fits(map, confidence, x, y),
        all_hits_fit(map, confidence, x, y),
{
}

/// The first cell whose score is at least `threshold`, found by going
/// through the scores as one run.
pub fn first_hit_index(map: &ConfidenceMap, threshold: i32) -> (r: Option<usize>)
    ensures
        r.is_some() == has_hit(map@, threshold),
        r.is_some() ==> is_first_hit(map@, r.unwrap() as int, threshold),
{
    let scores = map.scores();
    let n: usize = scores.len();
    let mut i: usize = 0;
    while i < n
        invariant
            i <= n,
            n == scores@.len(),
            scores@ == map@,
            forall|j: int| 0 <= j < i ==> scores@[j] < threshold,
        decreases n - i,
    {
        if scores[i] >= threshold {
            return Some(i);
        }
        i += 1;
    }
    None
}

/// The row and column of the first cell whose score is at least
/// `threshold`, found by going through the map row by row. It finds the
/// cell that [`first_hit_index`] finds.
pub fn first_hit_by_rows(map: &ConfidenceMap, threshold: i32) -> (r: Option<(usize, usize)>)
    ensures
        r.is_some() == has_hit(map@, threshold),
        r.is_some() ==> {
            let (row, col) = r.unwrap();
            &&& row < map.spec_rows()
            &&& col < map.spec_cols()
            &&& is_first_hit(map@, row * map.spec_cols() + col, threshold)
            &&& cell_row(*map, row * map.spec_cols() + col) == row
            &&& cell_col(*map, row * map.spec_cols() + col) == col
        },
{
    let scores = map.scores();
    let n: usize = scores.len();
    let rows: usize = map.rows();
    let cols: usize = map.cols();
    let mut row: usize = 0;
    while row < rows
        invariant
            row <= rows,
            n == scores@.len(),
            rows == map.spec_rows(),
            cols == map.spec_cols(),
            scores@ == map@,
            map.well_shaped(),
            forall|j: int| 0 <= j < row * cols ==> scores@[j] < threshold,
        decreases rows - row,
    {
        let mut col: usize = 0;
        proof {
            assert((row + 1) * cols <= rows * cols) by (nonlinear_arith)
                requires
                    row + 1 <= rows,
                    0 <= cols,
            ;
            assert((row + 1) * cols == row * cols + cols) by (nonlinear_arith);
            assert(0 <= row * cols) by (nonlinear_arith)
                requires
                    0 <= row,
                    0 <= cols,
            ;
        }
        while col < cols
            invariant
                col <= cols,
                row < rows,
                n == scores@.len(),
                rows == map.spec_rows(),
                cols == map.spec_cols(),
                scores@ == map@,
                map.well_shaped(),
                0 <= row * cols,
                row * cols + cols <= rows * cols,
                forall|j: int| 0 <= j < row * cols + col ==> scores@[j] < threshold,
            decreases cols - col,
        {
            if scores[row * cols + col] >= threshold {
                proof {
                    lemma_fundamental_div_mod_converse(
                        row * cols + col,
                        cols as int,
                        row as int,
                        col as int,
                    );
                }
                return Some((row, col));
            }
            col += 1;
        }
        row += 1;
    }
    None
}

/// Whether some place scores at least `confidence`. The search ends at
/// the first such place.
pub fn find_template_exists(map: &ConfidenceMap, confidence: i32) -> (found: bool)
    ensures
        found == has_hit(map@, confidence),
{
    first_hit_index(map, confidence).is_some()
}

/// The centre, rounded to whole pixels and counted from the source's
/// top-left pixel, of the first place, row by row, that scores at least
/// `confidence`; `None` where no place does.
pub fn locate_template(map: &ConfidenceMap, confidence: i32) -> (r: Option<(i32, i32)>)
    ensures
        r.is_some() == has_hit(map@, confidence),
        r.is_some() ==> exists|i: int|
            is_first_hit(map@, i, confidence) && r.unwrap().0 == round_half(center_x2(*map, i))
                && r.unwrap().1 == round_half(center_y2(*map, i)),
        r.is_some() ==> 0 <= r.unwrap().0 <= map.spec_source_width() && 0 <= r.unwrap().1
            <= map.spec_source_height(),
{
    match first_hit_by_rows(map, confidence) {
        None => None,
        Some((row, col)) => {
            let w: usize = map.template_width();
            let h: usize = map.template_height();
            let center_x: i32 = round_half_pixels(2 * (col as i64) + w as i64) as i32;
            let center_y: i32 = round_half_pixels(2 * (row as i64) + h as i64) as i32;
            proof {
                let i = row * map.spec_cols() + col;
                assert(center_x == round_half(center_x2(*map, i)));
                assert(center_y == round_half(center_y2(*map, i)));
                assert(is_first_hit(map@, i, confidence));
            }
            Some((center_x, center_y))
        },
    }
}

/// The absolute coordinate of the centre of the first place, row by row,
/// that scores at least `confidence`, for a source whose top-left pixel
/// lies at (`offset_x`, `offset_y`). The centre is rounded to whole pixels
/// before the offset is added.
///
/// (0, 0) stands for "no place found". A centre found at the absolute
/// origin gives (0, 0) too: where the two must be told apart, call
/// [`locate_template`].
pub fn find_template_coord(map: &ConfidenceMap, confidence: i32, offset_x: i32, offset_y: i32) -> (coord:
    (i32, i32))
    requires
        first_hit_fits(*map, confidence, offset_x, offset_y),
    ensures
        !has_hit(map@, confidence) ==> coord == (0i32, 0i32),
        has_hit(map@, confidence) ==> exists|i: int|
            is_first_hit(map@, i, confidence) && (coord.0 as int, coord.1 as int)
                == absolute_center(*map, i, offset_x, offset_y),
{
    match locate_template(map, confidence) {
        None => (0, 0),
        Some((center_x, center_y)) => {
            proof {
                let i = choose|i: int|
                    is_first_hit(map@, i, confidence) && center_x == round_half(
                        center_x2(*map, i),
                    ) && center_y == round_half(center_y2(*map, i));
                assert(center_fits(*map, i, offset_x, offset_y));
            }
            (offset_x + center_x, offset_y + center_y)
        },
    }
}

/// Whether [`find_template_coord`] and [`find_image_optimized_coord`] can
/// be called with these arguments: whether the centre that they would
/// give fits an `i32`.
pub fn first_center_fits(map: &ConfidenceMap, confidence: i32, offset_x: i32, offset_y: i32) -> (ok:
    bool)
    ensures
        ok == first_hit_fits(*map, confidence, offset_x, offset_y),
{
    match locate_template(map, confidence) {
        None => {
            assert forall|i: int| is_first_hit(map@, i, confidence) implies center_fits(
                *map,
                i,
                offset_x,
                offset_y,
            ) by {
                assert(has_hit(map@, confidence));
            }
            true
        },
        Some((center_x, center_y)) => {
            let ok: bool = offset_x as i64 + center_x as i64 <= 0x7fff_ffff && offset_y as i64
                + center_y as i64 <= 0x7fff_ffff;
            proof {
                let i = choose|i: int|
                    is_first_hit(map@, i, confidence) && center_x == round_half(
                        center_x2(*map, i),
                    ) && center_y == round_half(center_y2(*map, i));
                assert(ok == center_fits(*map, i, offset_x, offset_y));
                assert forall|j: int| is_first_hit(map@, j, confidence) implies j == i by {
                    lemma_first_hit_unique(map@, i, j, confidence);
                }
            }
            ok
        },
    }
}

/// The keys by which cells are ranked: the scores, negated, so that the
/// greatest score has the smallest key.
pub open spec fn score_keys(scores: Seq<i32>) -> Seq<i64> {
    Seq::new(scores.len(), |i: int| (-(scores[i] as int)) as i64)
}

/// The cells whose score is at least `threshold`, best first: in
/// descending order of score, cells of equal score row by row.
pub open spec fn match_order(scores: Seq<i32>, threshold: i32) -> Seq<usize> {
    ranking(score_keys(scores), (-(threshold as int)) as i64)
}

/// Whether cell `a` is a better match than cell `b`: its score is greater,
/// or the scores are equal and `a` comes first, row by row.
pub open spec fn outranks(scores: Seq<i32>, a: int, b: int) -> bool {
    scores[a] > scores[b] || (scores[a] == scores[b] && a < b)
}

/// Whether `order` holds the cells whose score is at least `threshold`,
/// and no others, each once, every cell before the cells it outranks.
pub open spec fn is_match_order(scores: Seq<i32>, threshold: i32, order: Seq<usize>) -> bool {
    &&& forall|k: int|
        0 <= k < order.len() ==> (#[trigger] order[k]) < scores.len() && scores[order[k] as int]
            >= threshold
    &&& forall|i: int|
        0 <= i < scores.len() && (#[trigger] scores[i]) >= threshold ==> order.contains(i as usize)
    &&& forall|a: int, b: int|
        0 <= a < b < order.len() ==> outranks(
            scores,
            (#[trigger] order[a]) as int,
            (#[trigger] order[b]) as int,
        )
}

/// [`match_order`] holds exactly the cells whose score is at least
/// `threshold`, each once, every cell before the cells it outranks.
pub proof fn lemma_match_order(scores: Seq<i32>, threshold: i32)
    requires
        scores.len() <= usize::MAX,
    ensures
        is_match_order(scores, threshold, match_order(scores, threshold)),
{
    let keys = score_keys(scores);
    let limit = (-(threshold as int)) as i64;
    let order = match_order(scores, threshold);
    lemma_ranking(keys, limit);
    assert forall|k: int| 0 <= k < order.len() implies (#[trigger] order[k]) < scores.len()
        && scores[order[k] as int] >= threshold by {
        assert(keys[order[k] as int] <= limit);
    }
    assert forall|i: int| 0 <= i < scores.len() && (#[trigger] scores[i]) >= threshold implies order.contains(
        i as usize,
    ) by {
        assert(keys[i] <= limit);
    }
    assert forall|a: int, b: int| 0 <= a < b < order.len() implies outranks(
        scores,
        (#[trigger] order[a]) as int,
        (#[trigger] order[b]) as int,
    ) by {
        assert(crate::ranking::ranks_before(keys, order[a] as int, order[b] as int));
    }
}

/// The matches are listed in descending order of score: no match has a
/// greater score than one listed before it.
pub proof fn lemma_match_order_descends(scores: Seq<i32>, threshold: i32, a: int, b: int)
    requires
        scores.len() <= usize::MAX,
        0 <= a <= b < match_order(scores, threshold).len(),
    ensures
        scores[match_order(scores, threshold)[a] as int] >= scores[match_order(
            scores,
            threshold,
        )[b] as int],
{
    lemma_match_order(scores, threshold);
}

/// The cells whose score is at least `threshold`, best first.
pub fn rank_cells(map: &ConfidenceMap, threshold: i32) -> (order: Vec<usize>)
    ensures
        order@ == match_order(map@, threshold),
        is_match_order(map@, threshold, order@),
        map@.len() <= usize::MAX,
{
    let scores = map.scores();
    let n: usize = scores.len();
    let mut keys: Vec<i64> = Vec::new();
    let mut i: usize = 0;
    while i < n
        invariant
            i <= n,
            n == scores@.len(),
            keys@.len() == i,
            forall|j: int| 0 <= j < i ==> keys@[j] == score_keys(scores@)[j],
        decreases n - i,
    {
        keys.push(-(scores[i] as i64));
        i += 1;
    }
    proof {
        assert(keys@ == score_keys(scores@));
        lemma_match_order(scores@, threshold);
    }
    rank_indices(&keys, -(threshold as i64))
}

/// Whether `m` is the match of a template of `template_width` by
/// `template_height` pixels placed with its top-left corner in column
/// `col` of row `row`, where it scores `score`: it holds the score, the
/// four corners of the template's area as top-left, bottom-left, top-right
/// and bottom-right, and the area's centre in half pixels.
pub open spec fn describes_place(
    m: MatchResult<i32>,
    score: i32,
    col: int,
    row: int,
    template_width: int,
    template_height: int,
) -> bool {
    &&& m.confidence == score
    &&& m.rectangle@[0].spec_x() == col
    &&& m.rectangle@[0].spec_y() == row
    &&& m.rectangle@[1].spec_x() == col
    &&& m.rectangle@[1].spec_y() == row + template_height
    &&& m.rectangle@[2].spec_x() == col + template_width
    &&& m.rectangle@[2].spec_y() == row
    &&& m.rectangle@[3].spec_x() == col + template_width
    &&& m.rectangle@[3].spec_y() == row + template_height
    &&& m.result.spec_x() == 2 * col + template_width
    &&& m.result.spec_y() == 2 * row + template_height
}

/// Whether `m` is the match at cell `cell` of `map`.
pub open spec fn describes_cell(m: MatchResult<i32>, map: ConfidenceMap, cell: int) -> bool {
    describes_place(
        m,
        map@[cell],
        cell_col(map, cell),
        cell_row(map, cell),
        map.spec_template_width() as int,
        map.spec_template_height() as int,
    )
}

/// Whether `matches` lists the matches at the cells of `order`, in that
/// order.
pub open spec fn lists_cells(
    matches: Seq<MatchResult<i32>>,
    map: ConfidenceMap,
    order: Seq<usize>,
) -> bool {
    &&& matches.len() == order.len()
    &&& forall|k: int|
        0 <= k < matches.len() ==> describes_cell(#[trigger] matches[k], map, order[k] as int)
}

/// The match at cell `cell`.
pub fn match_at(map: &ConfidenceMap, cell: usize) -> (m: MatchResult<i32>)
    requires
        cell < map@.len(),
    ensures
        describes_cell(m, *map, cell as int),
{
    let scores = map.scores();
    let cols: usize = map.cols();
    let w: i32 = map.template_width() as i32;
    let h: i32 = map.template_height() as i32;
    proof {
        lemma_cell_in_map(*map, cell as int);
    }
    let x: i32 = (cell % cols) as i32;
    let y: i32 = (cell / cols) as i32;
    let rectangle: [Point<i32>; 4] = [
        Point::new(x, y),
        Point::new(x, y + h),
        Point::new(x + w, y),
        Point::new(x + w, y + h),
    ];
    MatchResult {
        confidence: scores[cell],
        rectangle,
        result: Point::new(2 * (x as i64) + w as i64, 2 * (y as i64) + h as i64),
    }
}

/// Every place that scores at least `threshold`, best first: in
/// descending order of score, places of equal score row by row.
pub fn extract_matches(map: &ConfidenceMap, threshold: i32) -> (matches: Vec<MatchResult<i32>>)
    ensures
        lists_cells(matches@, *map, match_order(map@, threshold)),
        is_match_order(map@, threshold, match_order(map@, threshold)),
        forall|a: int, b: int|
            0 <= a <= b < matches@.len() ==> (#[trigger] matches@[a]).confidence
                >= (#[trigger] matches@[b]).confidence,
{
    let order = rank_cells(map, threshold);
    let scores = map.scores();
    let n: usize = order.len();
    let mut matches: Vec<MatchResult<i32>> = Vec::new();
    let mut k: usize = 0;
    while k < n
        invariant
            k <= n,
            n == order@.len(),
            scores@ == map@,
            is_match_order(map@, threshold, order@),
            lists_cells(matches@, *map, order@.take(k as int)),
        decreases n - k,
    {
        let cell: usize = order[k];
        let m = match_at(map, cell);
        matches.push(m);
        proof {
            assert(order@.take(k + 1)[k as int] == cell);
            assert forall|j: int| 0 <= j < matches@.len() implies describes_cell(
                #[trigger] matches@[j],
                *map,
                order@.take(k + 1)[j] as int,
            ) by {
                if j < k {
                    assert(order@.take(k + 1)[j] == order@.take(k as int)[j]);
                }
            }
        }
        k += 1;
    }
    proof {
        assert(order@.take(n as int) == order@);
        assert forall|a: int, b: int| 0 <= a <= b < matches@.len() implies (
        #[trigger] matches@[a]).confidence >= (#[trigger] matches@[b]).confidence by {
            if a < b {
                assert(outranks(map@, order@[a] as int, order@[b] as int));
            }
        }
    }
    matches
}

/// Where the source has the size of the template, the map has one cell.
/// If its score is at least `threshold`, the one match is that cell, and
/// its centre lies at half the template's width and half its height.
pub proof fn lemma_same_size_matches_at_centre(map: ConfidenceMap, threshold: i32)
    requires
        map.well_shaped(),
        map.spec_rows() == 1,
        map.spec_cols() == 1,
        map@[0] >= threshold,
    ensures
        match_order(map@, threshold) == seq![0usize],
        center_x2(map, 0) == map.spec_template_width(),
        center_y2(map, 0) == map.spec_template_height(),
{
    let order = match_order(map@, threshold);
    lemma_match_order(map@, threshold);
    assert(map@.len() == 1) by (nonlinear_arith)
        requires
            map@.len() == map.spec_rows() * map.spec_cols(),
            map.spec_rows() == 1,
            map.spec_cols() == 1,
    ;
    assert(order.contains(0usize));
    assert(order.len() == 1) by {
        if order.len() > 1 {
            assert(outranks(map@, order[0] as int, order[1] as int));
        }
    }
    assert(order =~= seq![0usize]);
}

/// Every place at which a template matches a source with a score of at
/// least `confidence`, best first, from the scores of all places, given
/// row by row.
///
/// The sizes and the number of scores are checked as
/// [`ConfidenceMap::new`] checks them, with the same errors.
pub fn find_all_template(
    source_width: usize,
    source_height: usize,
    template_width: usize,
    template_height: usize,
    scores: Vec<i32>,
    confidence: i32,
) -> (r: Result<Vec<MatchResult<i32>>, ImageMatchError>)
    ensures
        r.is_ok() <==> sizes_fit(
            source_width as nat,
            source_height as nat,
            template_width as nat,
            template_height as nat,
        ) && scores@.len() == (source_height - template_height + 1) * (source_width
            - template_width + 1),
        r.is_err() ==> r.unwrap_err() == (if template_exceeds(
            source_width as nat,
            source_height as nat,
            template_width as nat,
            template_height as nat,
        ) {
            ImageMatchError::TemplateLargerThanSource
        } else {
            ImageMatchError::InvalidBufferShape
        }),
        r.is_ok() ==> {
            let matches = r.unwrap()@;
            let order = match_order(scores@, confidence);
            let cols = source_width - template_width + 1;
            &&& is_match_order(scores@, confidence, order)
            &&& matches.len() == order.len()
            &&& forall|k: int|
                0 <= k < matches.len() ==> describes_place(
                    #[trigger] matches[k],
                    scores@[order[k] as int],
                    order[k] as int % cols,
                    order[k] as int / cols,
                    template_width as int,
                    template_height as int,
                )
            &&& forall|a: int, b: int|
                0 <= a <= b < matches.len() ==> (#[trigger] matches[a]).confidence
                    >= (#[trigger] matches[b]).confidence
        },
{
    match ConfidenceMap::new(source_width, source_height, template_width, template_height, scores) {
        Err(e) => Err(e),
        Ok(map) => {
            let matches = extract_matches(&map, confidence);
            Ok(matches)
        },
    }
}

/// Whether cell `i` is the best match: its score is at least `threshold`,
/// no score is greater, and it is the first cell, row by row, with its
/// score.
pub open spec fn is_best_hit(scores: Seq<i32>, i: int, threshold: i32) -> bool {
    &&& 0 <= i < scores.len()
    &&& scores[i] >= threshold
    &&& forall|j: int| 0 <= j < scores.len() ==> scores[j] <= scores[i]
    &&& forall|j: int| 0 <= j < i ==> scores[j] < scores[i]
}

/// The match listed first is the best match.
pub proof fn lemma_first_is_best(scores: Seq<i32>, threshold: i32, order: Seq<usize>)
    requires
        scores.len() <= usize::MAX,
        is_match_order(scores, threshold, order),
        order.len() > 0,
    ensures
        is_best_hit(scores, order[0] as int, threshold),
{
    let best = order[0] as int;
    assert forall|j: int| 0 <= j < scores.len() implies scores[j] <= scores[best] && (j < best
        ==> scores[j] < scores[best]) by {
        if scores[j] >= scores[best] {
            assert(scores[j] >= threshold);
            assert(order.contains(j as usize));
            let k = choose|k: int| 0 <= k < order.len() && order[k] == j as usize;
            if k > 0 {
                assert(outranks(scores, order[0] as int, order[k] as int));
            }
        }
    }
}

/// The absolute coordinate of the centre, rounded to whole pixels, of the
/// template placed at cell `cell`, as a pair of `i32`. For a cell of the
/// map whose centre fits ([`center_fits`]), this is [`absolute_center`].
pub open spec fn center_of(map: ConfidenceMap, cell: int, x: i32, y: i32) -> (i32, i32) {
    (
        (x + round_half(center_x2(map, cell))) as i32,
        (y + round_half(center_y2(map, cell))) as i32,
    )
}

/// The centres of the template placed at each cell of `order`.
pub open spec fn centers_of(map: ConfidenceMap, order: Seq<usize>, x: i32, y: i32) -> Seq<
    (i32, i32),
> {
    order.map_values(|cell: usize| center_of(map, cell as int, x, y))
}

/// The absolute centre of the template placed at cell `cell`, rounded to
/// whole pixels.
fn center_at(map: &ConfidenceMap, cell: usize, x: i32, y: i32) -> (c: (i32, i32))
    requires
        cell < map@.len(),
        center_fits(*map, cell as int, x, y),
    ensures
        c == center_of(*map, cell as int, x, y),
        (c.0 as int, c.1 as int) == absolute_center(*map, cell as int, x, y),
{
    let cols: usize = map.cols();
    let w: usize = map.template_width();
    let h: usize = map.template_height();
    proof {
        lemma_cell_in_map(*map, cell as int);
    }
    let center_x: i32 = round_half_pixels(2 * ((cell % cols) as i64) + w as i64) as i32;
    let center_y: i32 = round_half_pixels(2 * ((cell / cols) as i64) + h as i64) as i32;
    (x + center_x, y + center_y)
}

/// The one coordinate of one template: the absolute coordinate of the
/// centre of the first place, row by row, that scores at least
/// `confidence`, for a source whose top-left pixel lies at (`x`, `y`).
/// The centre is rounded to whole pixels before the offset is added.
///
/// (0, 0) stands for "no place found". A centre found at the absolute
/// origin gives (0, 0) too: where the two must be told apart, call
/// [`locate_template`].
pub fn find_image_optimized_coord(map: &ConfidenceMap, confidence: i32, x: i32, y: i32) -> (coord:
    (i32, i32))
    requires
        first_hit_fits(*map, confidence, x, y),
    ensures
        !has_hit(map@, confidence) ==> coord == (0i32, 0i32),
        has_hit(map@, confidence) ==> exists|i: int|
            is_first_hit(map@, i, confidence) && (coord.0 as int, coord.1 as int)
                == absolute_center(*map, i, x, y),
{
    find_template_coord(map, confidence, x, y)
}

/// Whether [`match_centers`] can be called with these arguments: whether
/// the centre of every place that scores at least `confidence` fits an
/// `i32`.
pub fn centers_fit(map: &ConfidenceMap, confidence: i32, x: i32, y: i32) -> (ok: bool)
    ensures
        ok == all_hits_fit(*map, confidence, x, y),
{
    let scores = map.scores();
    let cols: usize = map.cols();
    let w: usize = map.template_width();
    let h: usize = map.template_height();
    let n: usize = scores.len();
    let mut i: usize = 0;
    while i < n
        invariant
            i <= n,
            n == scores@.len(),
            scores@ == map@,
            cols == map.spec_cols(),
            w == map.spec_template_width(),
            h == map.spec_template_height(),
            map.well_shaped(),
            forall|j: int|
                0 <= j < i && (#[trigger] map@[j]) >= confidence ==> center_fits(*map, j, x, y),
        decreases n - i,
    {
        if scores[i] >= confidence {
            proof {
                lemma_cell_in_map(*map, i as int);
            }
            let center_x: i64 = round_half_pixels(2 * ((i % cols) as i64) + w as i64);
            let center_y: i64 = round_half_pixels(2 * ((i / cols) as i64) + h as i64);
            if x as i64 + center_x > 0x7fff_ffff || y as i64 + center_y > 0x7fff_ffff {
                assert(!center_fits(*map, i as int, x, y));
                return false;
            }
        }
        i += 1;
    }
    true
}

/// The absolute centres, rounded to whole pixels, of all places that
/// score at least `confidence`, best first.
pub fn match_centers(map: &ConfidenceMap, confidence: i32, x: i32, y: i32) -> (centers: Vec<
    (i32, i32),
>)
    requires
        all_hits_fit(*map, confidence, x, y),
    ensures
        centers@ == centers_of(*map, match_order(map@, confidence), x, y),
{
    let order = rank_cells(map, confidence);
    let n: usize = order.len();
    let mut centers: Vec<(i32, i32)> = Vec::new();
    let mut k: usize = 0;
    while k < n
        invariant
            k <= n,
            n == order@.len(),
            all_hits_fit(*map, confidence, x, y),
            is_match_order(map@, confidence, order@),
            centers@ == centers_of(*map, order@.take(k as int), x, y),
        decreases n - k,
    {
        let cell: usize = order[k];
        assert(map@[cell as int] >= confidence);
        let c = center_at(map, cell, x, y);
        centers.push(c);
        proof {
            assert(order@.take(k + 1) == order@.take(k as int).push(order@[k as int]));
            assert(centers@ == centers_of(*map, order@.take(k + 1), x, y));
        }
        k += 1;
    }
    proof {
        assert(order@.take(n as int) == order@);
    }
    centers
}

/// The side of the square within which a second match of the same
/// template counts as the same find: the greater of the template's sides.
pub open spec fn spec_min_distance(map: ConfidenceMap) -> int {
    if map.spec_template_width() >= map.spec_template_height() {
        map.spec_template_width() as int
    } else {
        map.spec_template_height() as int
    }
}

/// The centres found for one template: those of its matches, best first,
/// without the ones that overlap a better one.
pub open spec fn template_coords(map: ConfidenceMap, confidence: i32, x: i32, y: i32) -> Seq<
    (i32, i32),
> {
    suppress(centers_of(map, match_order(map@, confidence), x, y), spec_min_distance(map))
}

/// The centres found for each template in turn, one after the other.
pub open spec fn all_coords(maps: Seq<ConfidenceMap>, confidence: i32, x: i32, y: i32) -> Seq<
    (i32, i32),
>
    decreases maps.len(),
{
    if maps.len() == 0 {
        Seq::empty()
    } else {
        all_coords(maps.drop_last(), confidence, x, y) + template_coords(
            maps.last(),
            confidence,
            x,
            y,
        )
    }
}

/// The absolute centres at which each of several templates is found in
/// one source whose top-left pixel lies at (`x`, `y`); `maps` holds the
/// scores of each template against that source.
///
/// For each template, its matches are taken best first, and a match is
/// dropped if its centre overlaps that of a match kept before it for the
/// same template. Matches of different templates never suppress each
/// other.
pub fn find_images_optimized_coords(maps: &Vec<ConfidenceMap>, confidence: i32, x: i32, y: i32) -> (coords:
    Vec<(i32, i32)>)
    requires
        forall|k: int|
            0 <= k < maps@.len() ==> all_hits_fit(#[trigger] maps@[k], confidence, x, y),
    ensures
        coords@ == all_coords(maps@, confidence, x, y),
{
    let n: usize = maps.len();
    let mut coords: Vec<(i32, i32)> = Vec::new();
    let mut k: usize = 0;
    while k < n
        invariant
            k <= n,
            n == maps@.len(),
            forall|j: int|
                0 <= j < maps@.len() ==> all_hits_fit(#[trigger] maps@[j], confidence, x, y),
            coords@ == all_coords(maps@.take(k as int), confidence, x, y),
        decreases n - k,
    {
        let map = &maps[k];
        let w: usize = map.template_width();
        let h: usize = map.template_height();
        let min_distance: i32 = if w >= h {
            w as i32
        } else {
            h as i32
        };
        let centers = match_centers(map, confidence, x, y);
        let mut kept = suppress_overlaps(&centers, min_distance);
        coords.append(&mut kept);
        proof {
            assert(maps@.take(k + 1).drop_last() == maps@.take(k as int));
            assert(maps@.take(k + 1).last() == maps@[k as int]);
        }
        k += 1;
    }
    proof {
        assert(maps@.take(n as int) == maps@);
    }
    coords
}

} // verus!
