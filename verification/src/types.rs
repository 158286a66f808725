//! Value types shared by the matching functions.
use vstd::prelude::*;

verus! {

/// A point of two coordinates.
#[derive(Debug, Copy, Clone)]
pub struct Point<T> {
    x: T,
    y: T,
}

impl<T> Point<T> {
    /// The first coordinate.
    pub closed spec fn spec_x(self) -> T {
        self.x
    }

    /// The second coordinate.
    pub closed spec fn spec_y(self) -> T {
        self.y
    }

    pub fn new(x: T, y: T) -> (p: Self)
        ensures
            p.spec_x() == x,
            p.spec_y() == y,
    {
        Point { x, y }
    }

    pub fn x(&self) -> (r: &T)
        ensures
            *r == self.spec_x(),
    {
        &self.x
    }

    pub fn y(&self) -> (r: &T)
        ensures
            *r == self.spec_y(),
    {
        &self.y
    }
}

/// One place at which a template matched.
///
/// `confidence` is the score of the match on the integer scale of the
/// confidence map it was taken from. `rectangle` holds the corners of the
/// matched area in the order top-left, bottom-left, top-right, bottom-right.
/// `result` is the centre of that area in half pixels: each coordinate is
/// twice the centre's coordinate, so that a centre between two pixels is
/// held exactly.
#[derive(Debug, Clone)]
pub struct MatchResult<T> {
    pub confidence: i32,
    pub rectangle: [Point<T>; 4],
    pub result: Point<i64>,
}

/// A colour of three 8-bit channels: red, green, blue.
#[derive(Debug, Clone, Copy, PartialEq, Eq, Structural)]
pub struct RgbColor {
    pub r: u8,
    pub g: u8,
    pub b: u8,
}

impl RgbColor {
    pub fn new(r: u8, g: u8, b: u8) -> (c: Self)
        ensures
            c == (RgbColor { r, g, b }),
    {
        Self { r, g, b }
    }

    pub fn from_tuple(rgb: (u8, u8, u8)) -> (c: Self)
        ensures
            c == (RgbColor { r: rgb.0, g: rgb.1, b: rgb.2 }),
    {
        Self { r: rgb.0, g: rgb.1, b: rgb.2 }
    }

    pub fn to_tuple(self) -> (rgb: (u8, u8, u8))
        ensures
            rgb == (self.r, self.g, self.b),
    {
        (self.r, self.g, self.b)
    }
}

} // verus!
