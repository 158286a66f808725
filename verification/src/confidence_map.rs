//! The grid of scores that sliding a template over a source gives: one
//! score for each place at which the template fits.
use vstd::prelude::*;
use crate::image_match_error::ImageMatchError;

verus! {

/// Whether a template of `template_width` by `template_height` pixels is
/// wider or taller than a source of `source_width` by `source_height`.
pub open spec fn template_exceeds(
    source_width: nat,
    source_height: nat,
    template_width: nat,
    template_height: nat,
) -> bool {
    template_width > source_width || template_height > source_height
}

/// Whether the sizes are those of a template of at least one pixel that
/// fits into a source whose sides a pixel coordinate of 32 bits can count.
pub open spec fn sizes_fit(
    source_width: nat,
    source_height: nat,
    template_width: nat,
    template_height: nat,
) -> bool {
    1 <= template_width <= source_width <= i32::MAX && 1 <= template_height <= source_height
        <= i32::MAX
}

/// A grid of scores, stored row by row. The score in column `c` of row `r`
/// says how well the template matches the source with its top-left corner
/// at (`c`, `r`). A greater score is a better match.
#[derive(Debug)]
pub struct ConfidenceMap {
    rows: usize,
    cols: usize,
    template_width: usize,
    template_height: usize,
    scores: Vec<i32>,
}

impl View for ConfidenceMap {
    type V = Seq<i32>;

    /// The scores, row by row.
    closed spec fn view(&self) -> Seq<i32> {
        self.scores@
    }
}

impl ConfidenceMap {
    #[verifier::type_invariant]
    spec fn well_formed(self) -> bool {
        &&& self.rows >= 1
        &&& self.cols >= 1
        &&& self.template_width >= 1
        &&& self.template_height >= 1
        &&& self.cols + self.template_width - 1 <= i32::MAX
        &&& self.rows + self.template_height - 1 <= i32::MAX
        &&& self.scores@.len() == self.rows * self.cols
    }

    /// The number of rows: the places at which the template fits from top
    /// to bottom.
    pub closed spec fn spec_rows(self) -> nat {
        self.rows as nat
    }

    /// The number of columns: the places at which the template fits from
    /// left to right.
    pub closed spec fn spec_cols(self) -> nat {
        self.cols as nat
    }

    /// The template's width in pixels.
    pub closed spec fn spec_template_width(self) -> nat {
        self.template_width as nat
    }

    /// The template's height in pixels.
    pub closed spec fn spec_template_height(self) -> nat {
        self.template_height as nat
    }

    /// The width in pixels of the source that was searched.
    pub open spec fn spec_source_width(self) -> nat {
        (self.spec_cols() + self.spec_template_width() - 1) as nat
    }

    /// The height in pixels of the source that was searched.
    pub open spec fn spec_source_height(self) -> nat {
        (self.spec_rows() + self.spec_template_height() - 1) as nat
    }

    /// What holds of every map: it has at least one cell, its template at
    /// least one pixel, it holds one score for each cell, and the sides of
    /// its source fit a pixel coordinate of 32 bits.
    pub open spec fn well_shaped(self) -> bool {
        &&& self.spec_rows() >= 1
        &&& self.spec_cols() >= 1
        &&& self@.len() == self.spec_rows() * self.spec_cols()
        &&& sizes_fit(
            self.spec_source_width(),
            self.spec_source_height(),
            self.spec_template_width(),
            self.spec_template_height(),
        )
    }

    /// Builds the map for a source and a template of the given sizes from
    /// its scores, given row by row.
    ///
    /// A template wider or taller than the source is refused as
    /// `TemplateLargerThanSource`. Any other input that is not a grid is
    /// refused as `InvalidBufferShape`: a template without pixels, a source
    /// side beyond `i32::MAX`, or a number of scores other than
    /// `(source_height - template_height + 1) * (source_width - template_width + 1)`.
    pub fn new(
        source_width: usize,
        source_height: usize,
        template_width: usize,
        template_height: usize,
        scores: Vec<i32>,
    ) -> (r: Result<ConfidenceMap, ImageMatchError>)
        ensures
            match r {
                Ok(map) => {
                    &&& sizes_fit(
                        source_width as nat,
                        source_height as nat,
                        template_width as nat,
                        template_height as nat,
                    )
                    &&& map@ == scores@
                    &&& map.spec_rows() == source_height - template_height + 1
                    &&& map.spec_cols() == source_width - template_width + 1
                    &&& map.spec_template_width() == template_width
                    &&& map.spec_template_height() == template_height
                    &&& map.well_shaped()
                },
                Err(e) => {
                    if template_exceeds(
                        source_width as nat,
                        source_height as nat,
                        template_width as nat,
                        template_height as nat,
                    ) {
                        e == ImageMatchError::TemplateLargerThanSource
                    } else {
                        &&& e == ImageMatchError::InvalidBufferShape
                        &&& !sizes_fit(
                            source_width as nat,
                            source_height as nat,
                            template_width as nat,
                            template_height as nat,
                        ) || scores@.len() != (source_height - template_height + 1) * (source_width
                            - template_width + 1)
                    }
                },
            },
            r.is_ok() <==> sizes_fit(
                source_width as nat,
                source_height as nat,
                template_width as nat,
                template_height as nat,
            ) && scores@.len() == (source_height - template_height + 1) * (source_width
                - template_width + 1),
    {
        match confidence_map_shape(source_width, source_height, template_width, template_height) {
            Err(e) => Err(e),
            Ok((rows, cols)) => {
                let len: usize = scores.len();
                // Both sides are below 2^31, so their product fits 64 bits.
                assert(rows * cols <= 0x7fff_ffff * 0x7fff_ffff) by (nonlinear_arith)
                    requires
                        rows <= 0x7fff_ffff,
                        cols <= 0x7fff_ffff,
                ;
                let cells: u64 = (rows as u64) * (cols as u64);
                if len as u64 == cells {
                    Ok(ConfidenceMap { rows, cols, template_width, template_height, scores })
                } else {
                    Err(ImageMatchError::InvalidBufferShape)
                }
            },
        }
    }

    /// The number of rows.
    pub fn rows(&self) -> (n: usize)
        ensures
            n == self.spec_rows(),
            self.well_shaped(),
    {
        proof {
            use_type_invariant(self);
        }
        self.rows
    }

    /// The number of columns.
    pub fn cols(&self) -> (n: usize)
        ensures
            n == self.spec_cols(),
            self.well_shaped(),
    {
        proof {
            use_type_invariant(self);
        }
        self.cols
    }

    /// The template's width in pixels.
    pub fn template_width(&self) -> (n: usize)
        ensures
            n == self.spec_template_width(),
            self.well_shaped(),
    {
        proof {
            use_type_invariant(self);
        }
        self.template_width
    }

    /// The template's height in pixels.
    pub fn template_height(&self) -> (n: usize)
        ensures
            n == self.spec_template_height(),
            self.well_shaped(),
    {
        proof {
            use_type_invariant(self);
        }
        self.template_height
    }

    /// The scores, row by row.
    pub fn scores(&self) -> (s: &Vec<i32>)
        ensures
            s@ == self@,
            self.well_shaped(),
    {
        proof {
            use_type_invariant(self);
        }
        &self.scores
    }
}

/// The numbers of rows and columns of the map for a source and a template
/// of the given sizes: the places at which the template fits from top to
/// bottom, and from left to right.
///
/// A template wider or taller than the source has no map: it is refused as
/// `TemplateLargerThanSource`. A template without pixels, or a source side
/// beyond `i32::MAX`, is refused as `InvalidBufferShape`.
pub fn confidence_map_shape(
    source_width: usize,
    source_height: usize,
    template_width: usize,
    template_height: usize,
) -> (r: Result<(usize, usize), ImageMatchError>)
    ensures
        template_exceeds(
            source_width as nat,
            source_height as nat,
            template_width as nat,
            template_height as nat,
        ) <==> r == Err::<(usize, usize), ImageMatchError>(
            ImageMatchError::TemplateLargerThanSource,
        ),
        sizes_fit(
            source_width as nat,
            source_height as nat,
            template_width as nat,
            template_height as nat,
        ) <==> r == Ok::<(usize, usize), ImageMatchError>(
            (
                (source_height - template_height + 1) as usize,
                (source_width - template_width + 1) as usize,
            ),
        ),
        sizes_fit(
            source_width as nat,
            source_height as nat,
            template_width as nat,
            template_height as nat,
        ) <==> r.is_ok(),
        !template_exceeds(
            source_width as nat,
            source_height as nat,
            template_width as nat,
            template_height as nat,
        ) && !sizes_fit(
            source_width as nat,
            source_height as nat,
            template_width as nat,
            template_height as nat,
        ) ==> r == Err::<(usize, usize), ImageMatchError>(ImageMatchError::InvalidBufferShape),
{
    if template_width > source_width || template_height > source_height {
        return Err(ImageMatchError::TemplateLargerThanSource);
    }
    if template_width == 0 || template_height == 0 || source_width > 0x7fff_ffff || source_height
        > 0x7fff_ffff {
        return Err(ImageMatchError::InvalidBufferShape);
    }
    Ok((source_height - template_height + 1, source_width - template_width + 1))
}

} // verus!
