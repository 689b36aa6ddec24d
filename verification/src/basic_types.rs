use vstd::prelude::*;
use vstd::std_specs::convert::{FromSpecImpl, IntoSpecImpl};

verus! {

/// A pair of values along the two axes: a position or an extent.
#[derive(Debug, PartialEq, Eq, Structural, PartialOrd, Ord)]
pub struct Vector2<T>
where
    T: Clone + Copy,
{
    pub x: T,
    pub y: T,
}

impl<T> Clone for Vector2<T>
where
    T: Clone + Copy,
{
    fn clone(&self) -> (copy: Self)
        ensures
            copy == *self,
    {
        *self
    }
}

impl<T> Copy for Vector2<T> where T: Clone + Copy {}

impl<T> Vector2<T>
where
    T: Clone + Copy,
{
    pub fn new(x: T, y: T) -> (pair: Self)
        ensures
            pair.x == x,
            pair.y == y,
    {
        Self { x: x, y: y }
    }
}

/// A color of four channels. Two colors are equal when all four channels are.
#[derive(Debug, PartialEq, Eq, Structural, PartialOrd, Ord, Hash)]
pub struct ColorStruct<T>
where
    T: Clone + Copy,
{
    pub r: T,
    pub g: T,
    pub b: T,
    pub a: T,
}

impl<T> Clone for ColorStruct<T>
where
    T: Clone + Copy,
{
    fn clone(&self) -> (copy: Self)
        ensures
            copy == *self,
    {
        *self
    }
}

impl<T> Copy for ColorStruct<T> where T: Clone + Copy {}

impl<T: Copy> From<[T; 4]> for ColorStruct<T> {
    fn from(value: [T; 4]) -> (color: Self) {
        Self { r: value[0], g: value[1], b: value[2], a: value[3] }
    }
}

impl<T: Copy> FromSpecImpl<[T; 4]> for ColorStruct<T> {
    open spec fn obeys_from_spec() -> bool {
        true
    }

    /// Red, green, blue and alpha, in this order.
    open spec fn from_spec(value: [T; 4]) -> Self {
        ColorStruct { r: value[0], g: value[1], b: value[2], a: value[3] }
    }
}

impl<T> Into<[T; 4]> for ColorStruct<T>
where
    T: Clone + Copy,
{
    fn into(self) -> (channels: [T; 4]) {
        [self.r, self.g, self.b, self.a]
    }
}

impl<T> IntoSpecImpl<[T; 4]> for ColorStruct<T>
where
    T: Clone + Copy,
{
    open spec fn obeys_into_spec() -> bool {
        true
    }

    /// Red, green, blue and alpha, in this order.
    open spec fn into_spec(self) -> [T; 4] {
        [self.r, self.g, self.b, self.a]
    }
}

pub type Color = ColorStruct<u8>;

/// Why an image could not be processed.
#[derive(Debug, Clone, Copy, PartialEq, Eq, Structural)]
pub enum TileError {
    /// Fewer items were supplied than the extent asks for.
    TooFewPixels,
    /// The extent is not a whole number of tiles along both axes.
    NotDivisible,
    /// The image has `length` distinct colors, the bit depth allows `max`.
    PaletteOverflow { length: usize, max: usize },
    /// A pixel's color is not in the palette.
    ColorNotInPalette,
    /// The starting palette index moves a pixel's index past the bit depth's limit.
    StartingIndexTooHigh,
}

/// Something that went wrong without stopping the processing.
#[derive(Debug, Clone, Copy, PartialEq, Eq, Structural)]
pub enum Warning {
    /// While packing tile number `tile` of the output, an index did not fit
    /// the bit depth and was written as 0.
    TooManyColors { tile: usize },
}

/// The bytes of one packed tile.
#[derive(Debug, Clone, PartialEq, Eq)]
pub struct PackedTile {
    pub data: Vec<u8>,
    /// An index did not fit the bit depth and was written as 0.
    pub too_many_colors: bool,
}

/// Raw data of the image, in vectors of bytes, ready to be written to a file
#[derive(Debug, Clone, PartialEq, Eq)]
pub struct FinishedRawData {
    pub image_data: Vec<u8>,
    pub palette_data: Vec<u8>,
    /// One entry for each tile whose packing lost an index, in output order.
    pub warnings: Vec<Warning>,
}

} // verus!
