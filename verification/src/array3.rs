//! ndarray's three-dimensional byte array, as far as this library builds
//! and reads it: its shape, its elements in logical order, and whether it
//! lies in memory in that order.
use vstd::prelude::*;

verus! {

/// A three-dimensional array of bytes, held by ndarray.
#[verifier::external_body]
#[derive(Debug)]
pub struct ByteArray3 {
    inner: ndarray::Array3<u8>,
}

#[verifier::external_type_specification]
#[verifier::external_body]
pub struct ExShapeError(ndarray::ShapeError);

/// The elements of an array in logical order: the last index varies
/// fastest.
pub uninterp spec fn array3_elements(a: ByteArray3) -> Seq<u8>;

/// The lengths of an array's three axes.
pub uninterp spec fn array3_shape(a: ByteArray3) -> (usize, usize, usize);

/// Whether an array lies in memory in logical order, without gaps.
pub uninterp spec fn array3_is_standard(a: ByteArray3) -> bool;

/// The product of those of three axis lengths that are not zero.
pub open spec fn nonzero_product(a: usize, b: usize, c: usize) -> int {
    (if a == 0 {
        1int
    } else {
        a as int
    }) * (if b == 0 {
        1int
    } else {
        b as int
    }) * (if c == 0 {
        1int
    } else {
        c as int
    })
}

/// Whether an array of the shape `a` by `b` by `c` can be built from `len`
/// elements: the shape asks for exactly `len` elements, and the product of
/// its axis lengths that are not zero is at most `isize::MAX`.
pub open spec fn shape_accepts(a: usize, b: usize, c: usize, len: nat) -> bool {
    nonzero_product(a, b, c) <= isize::MAX && len == a * b * c
}

/// The place in logical order of the element at (`i`, `j`, `k`) of an
/// array whose second and third axes have the lengths `b` and `c`.
pub open spec fn logical_index(b: usize, c: usize, i: int, j: int, k: int) -> int {
    (i * b + j) * c + k
}

/// Calls ndarray's `Array::from_shape_vec` with the shape `(a, b, c)`.
///
/// What is taken on trust of it: it succeeds exactly on a shape that
/// [`shape_accepts`] for the number of elements given; the array then has
/// that shape, holds the elements of `data` in logical order, and lies in
/// memory in that order.
#[verifier::external_body]
fn array3_from_shape_vec(a: usize, b: usize, c: usize, data: Vec<u8>) -> (r: Result<
    ByteArray3,
    ndarray::ShapeError,
>)
    ensures
        r.is_ok() == shape_accepts(a, b, c, data@.len()),
        r.is_ok() ==> array3_elements(r.unwrap()) == data@ && array3_shape(r.unwrap()) == (a, b, c)
            && array3_is_standard(r.unwrap()),
{
    ndarray::Array3::from_shape_vec((a, b, c), data).map(|inner| ByteArray3 { inner })
}

/// Calls ndarray's `dim`.
///
/// What is taken on trust of it: it returns the lengths of the three axes,
/// and the array holds as many elements as their product.
#[verifier::external_body]
fn array3_dim(array: &ByteArray3) -> (d: (usize, usize, usize))
    ensures
        d == array3_shape(*array),
        array3_elements(*array).len() == d.0 * d.1 * d.2,
{
    array.inner.dim()
}

/// Calls ndarray's `is_standard_layout`.
///
/// What is taken on trust of it: it says whether the array lies in memory
/// in logical order.
#[verifier::external_body]
fn array3_is_standard_layout(array: &ByteArray3) -> (standard: bool)
    ensures
        standard == array3_is_standard(*array),
{
    array.inner.is_standard_layout()
}

/// Calls ndarray's `as_slice`, and copies the slice.
///
/// What is taken on trust of it: it gives the elements in logical order
/// if the array lies in memory in that order, and nothing otherwise.
#[verifier::external_body]
fn array3_to_vec(array: &ByteArray3) -> (r: Option<Vec<u8>>)
    ensures
        r.is_some() == array3_is_standard(*array),
        r.is_some() ==> r.unwrap()@ == array3_elements(*array),
{
    array.inner.as_slice().map(|s| s.to_vec())
}

/// Indexes the array with `[[i, j, k]]`, which panics outside the shape.
///
/// What is taken on trust of it: within the shape it gives the element
/// whose place in logical order is [`logical_index`].
#[verifier::external_body]
fn array3_get(array: &ByteArray3, i: usize, j: usize, k: usize) -> (v: u8)
    requires
        i < array3_shape(*array).0,
        j < array3_shape(*array).1,
        k < array3_shape(*array).2,
    ensures
        v == array3_elements(*array)[logical_index(
            array3_shape(*array).1,
            array3_shape(*array).2,
            i as int,
            j as int,
            k as int,
        )],
{
    array.inner[[i, j, k]]
}

impl ByteArray3 {
    /// The array of the shape `a` by `b` by `c` that holds `data` in
    /// logical order; `None` unless the shape asks for exactly as many
    /// elements as `data` holds and the product of its axis lengths that
    /// are not zero is at most `isize::MAX`.
    pub fn from_shape_vec(a: usize, b: usize, c: usize, data: Vec<u8>) -> (r: Option<ByteArray3>)
        ensures
            r.is_some() == shape_accepts(a, b, c, data@.len()),
            r.is_some() ==> array3_elements(r.unwrap()) == data@ && array3_shape(r.unwrap()) == (
                a,
                b,
                c,
            ) && array3_is_standard(r.unwrap()),
    {
        match array3_from_shape_vec(a, b, c, data) {
            Ok(array) => Some(array),
            Err(_) => None,
        }
    }

    /// The lengths of the three axes.
    pub fn dim(&self) -> (d: (usize, usize, usize))
        ensures
            d == array3_shape(*self),
            array3_elements(*self).len() == d.0 * d.1 * d.2,
    {
        array3_dim(self)
    }

    /// Whether the array lies in memory in logical order.
    pub fn is_standard_layout(&self) -> (standard: bool)
        ensures
            standard == array3_is_standard(*self),
    {
        array3_is_standard_layout(self)
    }

    /// The elements in logical order, if the array lies in memory in that
    /// order.
    pub fn to_vec(&self) -> (r: Option<Vec<u8>>)
        ensures
            r.is_some() == array3_is_standard(*self),
            r.is_some() ==> r.unwrap()@ == array3_elements(*self),
    {
        array3_to_vec(self)
    }

    /// The element at (`i`, `j`, `k`); `None` outside the shape.
    pub fn get(&self, i: usize, j: usize, k: usize) -> (r: Option<u8>)
        ensures
            r.is_some() == (i < array3_shape(*self).0 && j < array3_shape(*self).1 && k
                < array3_shape(*self).2),
            r.is_some() ==> r.unwrap() == array3_elements(*self)[logical_index(
                array3_shape(*self).1,
                array3_shape(*self).2,
                i as int,
                j as int,
                k as int,
            )],
    {
        let (a, b, c) = array3_dim(self);
        if i < a && j < b && k < c {
            Some(array3_get(self, i, j, k))
        } else {
            None
        }
    }
}

} // verus!
