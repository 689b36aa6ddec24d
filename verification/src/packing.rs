use crate::basic_types::{Color, ColorStruct, TileError, Warning};
use crate::color_processor::{color_argb1555, color_rgb555, lemma_rgb555_sum, scale_to_5_bits};
use crate::image_settings::{BitsPerPixel, TileSettings};
use crate::palette::{lemma_position_of, position_of};
use vstd::arithmetic::div_mod::lemma_fundamental_div_mod_converse;
use vstd::prelude::*;

verus! {

/// The index of each pixel in the palette, moved up by `start`.
pub open spec fn tile_indices(pixels: Seq<Color>, palette: Seq<Color>, start: u32) -> Seq<u32> {
    Seq::new(pixels.len(), |i: int| (position_of(palette, pixels[i]) + start) as u32)
}

/// What mapping the pixels of one tile to palette indices comes to. Only the
/// first `tile_area` pixels count. A missing color is reported before an index
/// that the starting index moves past the palette's limit, and the limit is
/// looked at only where the starting index is not zero.
pub open spec fn mapping_outcome(
    data: Seq<Color>,
    settings: TileSettings,
    palette: Seq<Color>,
) -> Result<Seq<u32>, TileError> {
    let area = settings.tile_area();
    let start = settings.starting_palette_index;
    if data.len() < area {
        Err(TileError::TooFewPixels)
    } else if exists|i: int| 0 <= i < area && !palette.contains(#[trigger] data[i]) {
        Err(TileError::ColorNotInPalette)
    } else if start != 0 && exists|i: int|
        0 <= i < area && position_of(palette, #[trigger] data[i]) + start
            > settings.bpp.max_palette_length() {
        Err(TileError::StartingIndexTooHigh)
    } else {
        Ok(tile_indices(data.take(area), palette, start))
    }
}

/// What is written for an index: the index, or 0 where it is over `limit`.
pub open spec fn clamped(index: u32, limit: u32) -> u32 {
    if index > limit {
        0
    } else {
        index
    }
}

/// Two indices to a byte, the first in the low half. An index over 15 counts
/// as 0, and the last index of an odd number of them is left out.
pub open spec fn pack_4bit(indices: Seq<u32>) -> Seq<u8> {
    Seq::new(
        indices.len() / 2,
        |i: int| (clamped(indices[2 * i], 0xF) + 16 * clamped(indices[2 * i + 1], 0xF)) as u8,
    )
}

/// One index to a byte. An index over 255 counts as 0.
pub open spec fn pack_8bit(indices: Seq<u32>) -> Seq<u8> {
    Seq::new(indices.len(), |i: int| clamped(indices[i], 0xFF) as u8)
}

/// One of the indices that `pack_4bit` writes is over 15.
pub open spec fn overflows_4bit(indices: Seq<u32>) -> bool {
    exists|i: int| 0 <= i < 2 * (indices.len() / 2) && #[trigger] indices[i] > 0xF
}

/// One of the indices is over 255.
pub open spec fn overflows_8bit(indices: Seq<u32>) -> bool {
    exists|i: int| 0 <= i < indices.len() && #[trigger] indices[i] > 0xFF
}

/// The bytes of a tile's indices at this bit depth. The truecolor depth holds
/// no indices and gives no bytes.
pub open spec fn pack_indices(bpp: BitsPerPixel, indices: Seq<u32>) -> Seq<u8> {
    match bpp {
        BitsPerPixel::Bpp4 => pack_4bit(indices),
        BitsPerPixel::Bpp8 => pack_8bit(indices),
        BitsPerPixel::Bpp16 => Seq::empty(),
    }
}

/// Packing at this bit depth writes 0 for at least one index that does not fit.
pub open spec fn overflows(bpp: BitsPerPixel, indices: Seq<u32>) -> bool {
    match bpp {
        BitsPerPixel::Bpp4 => overflows_4bit(indices),
        BitsPerPixel::Bpp8 => overflows_8bit(indices),
        BitsPerPixel::Bpp16 => false,
    }
}

/// What packing one tile comes to: its bytes and whether an index was lost, or
/// the error of the mapping.
pub open spec fn tile_outcome(data: Seq<Color>, settings: TileSettings, palette: Seq<Color>) -> Result<
    (Seq<u8>, bool),
    TileError,
> {
    match mapping_outcome(data, settings, palette) {
        Ok(indices) => Ok(
            (pack_indices(settings.bpp, indices), overflows(settings.bpp, indices)),
        ),
        Err(error) => Err(error),
    }
}

/// The two bytes of a 16-bit word, the low byte first.
pub open spec fn le_bytes(word: u16) -> Seq<u8> {
    seq![(word % 256) as u8, (word / 256) as u8]
}

/// The 16-bit word that two bytes hold, the low byte first.
pub open spec fn le_word(low: u8, high: u8) -> u16 {
    (low + 256 * high) as u16
}

/// The palette as bytes: each color as its 16-bit palette entry, low byte first.
pub open spec fn palette_bytes(palette: Seq<Color>) -> Seq<u8> {
    Seq::new(2 * palette.len(), |i: int| le_bytes(color_rgb555(palette[i / 2]))[i % 2])
}

/// The pixels as bytes: each as its 16-bit truecolor word, low byte first.
pub open spec fn truecolor_bytes(data: Seq<Color>) -> Seq<u8> {
    Seq::new(2 * data.len(), |i: int| le_bytes(color_argb1555(data[i / 2]))[i % 2])
}

/// One warning for each tile that lost an index, with the tile's number, in
/// the order of the tiles.
pub open spec fn overflow_warnings(lost: Seq<bool>) -> Seq<Warning>
    decreases lost.len(),
{
    if lost.len() == 0 {
        Seq::empty()
    } else {
        let before = overflow_warnings(lost.drop_last());
        if lost.last() {
            before.push(Warning::TooManyColors { tile: (lost.len() - 1) as usize })
        } else {
            before
        }
    }
}

/// The index that the packed bytes of a tile hold for the pixel at offset `k`.
pub open spec fn unpacked_index(bpp: BitsPerPixel, bytes: Seq<u8>, k: int) -> int {
    match bpp {
        BitsPerPixel::Bpp4 => if k % 2 == 0 {
            bytes[k / 2] as int % 16
        } else {
            bytes[k / 2] as int / 16
        },
        BitsPerPixel::Bpp8 => bytes[k] as int,
        BitsPerPixel::Bpp16 => 0,
    }
}

/// How many of a tile's indices the packed bytes hold: all of them, but at 4
/// bits not the last of an odd number.
pub open spec fn packed_count(bpp: BitsPerPixel, count: int) -> int {
    match bpp {
        BitsPerPixel::Bpp4 => 2 * (count / 2),
        BitsPerPixel::Bpp8 => count,
        BitsPerPixel::Bpp16 => 0,
    }
}

/// How many bytes the indices of a tile take.
pub open spec fn packed_length(bpp: BitsPerPixel, count: int) -> int {
    match bpp {
        BitsPerPixel::Bpp4 => count / 2,
        BitsPerPixel::Bpp8 => count,
        BitsPerPixel::Bpp16 => 0,
    }
}

/// The 16-bit word of entry number `entry` of a palette's bytes.
pub open spec fn palette_entry(bytes: Seq<u8>, entry: int) -> u16 {
    le_word(bytes[2 * entry], bytes[2 * entry + 1])
}

/// The least channel value that scales to the 5-bit value `v`.
pub open spec fn expand_from_5_bits(v: int) -> int {
    (v * 255 + 30) / 31
}

/// The color that a 16-bit palette entry stands for, with the alpha given
/// beside it, since the entry holds none.
pub open spec fn color_of_rgb555(word: u16, alpha: u8) -> Color {
    ColorStruct {
        r: expand_from_5_bits(word as int % 32) as u8,
        g: expand_from_5_bits(word as int / 32 % 32) as u8,
        b: expand_from_5_bits(word as int / 1024 % 32) as u8,
        a: alpha,
    }
}

/// The color loses nothing when its channels are cut to 5 bits.
pub open spec fn holds_in_5_bits(color: Color) -> bool {
    &&& expand_from_5_bits(scale_to_5_bits(color.r as int)) == color.r
    &&& expand_from_5_bits(scale_to_5_bits(color.g as int)) == color.g
    &&& expand_from_5_bits(scale_to_5_bits(color.b as int)) == color.b
}

/// A 16-bit word is read back from its two bytes.
pub proof fn lemma_le_bytes_round_trip(word: u16)
    ensures
        le_bytes(word).len() == 2,
        le_word(le_bytes(word)[0], le_bytes(word)[1]) == word,
{
}

/// Entry number `entry` of the palette's bytes is the 16-bit palette form of
/// color number `entry` of the palette.
pub proof fn lemma_palette_entry(palette: Seq<Color>, entry: int)
    requires
        0 <= entry < palette.len(),
    ensures
        palette_bytes(palette).len() == 2 * palette.len(),
        palette_entry(palette_bytes(palette), entry) == color_rgb555(palette[entry]),
{
    lemma_le_bytes_round_trip(color_rgb555(palette[entry]));
}

/// Three 5-bit fields are read back from the word that holds them side by side.
pub proof fn lemma_fields_of_word(low: int, middle: int, high: int)
    requires
        0 <= low < 32,
        0 <= middle < 32,
        0 <= high < 32,
    ensures
        (low + 32 * middle + 1024 * high) % 32 == low,
        (low + 32 * middle + 1024 * high) / 32 % 32 == middle,
        (low + 32 * middle + 1024 * high) / 1024 % 32 == high,
{
    let word = low + 32 * middle + 1024 * high;
    lemma_fundamental_div_mod_converse(word, 32, middle + 32 * high, low);
    lemma_fundamental_div_mod_converse(middle + 32 * high, 32, high, middle);
    lemma_fundamental_div_mod_converse(word, 1024, high, low + 32 * middle);
    lemma_fundamental_div_mod_converse(high, 32, 0, high);
}

/// A color that loses nothing in 5 bits per channel is read back from its
/// palette entry, the alpha apart, which the entry does not hold.
pub proof fn lemma_rgb555_round_trip(color: Color)
    requires
        holds_in_5_bits(color),
    ensures
        color_of_rgb555(color_rgb555(color), color.a) == color,
{
    let low = scale_to_5_bits(color.r as int);
    let middle = scale_to_5_bits(color.g as int);
    let high = scale_to_5_bits(color.b as int);
    assert(0 <= low < 32 && 0 <= middle < 32 && 0 <= high < 32);
    lemma_rgb555_sum(color.r as u16, color.g as u16, color.b as u16);
    assert(color_rgb555(color) == low + 32 * middle + 1024 * high);
    lemma_fields_of_word(low, middle, high);
}

/// Packing the indices of a tile can be undone. For every pixel that the
/// packed bytes hold and whose index fits the bit depth, the bytes give the
/// index back; the index, less the starting index, is an entry of the palette;
/// that entry is the pixel's color; and the entry's two bytes hold the 16-bit
/// palette form of that color.
pub proof fn lemma_packing_reversible(
    pixels: Seq<Color>,
    palette: Seq<Color>,
    settings: TileSettings,
    k: int,
)
    requires
        settings.bpp.has_palette(),
        mapping_outcome(pixels, settings, palette) is Ok,
        0 <= k < packed_count(settings.bpp, settings.tile_area()),
        position_of(palette, pixels[k]) + settings.starting_palette_index
            <= settings.bpp.max_index(),
    ensures
        ({
            let indices = tile_indices(
                pixels.take(settings.tile_area()),
                palette,
                settings.starting_palette_index,
            );
            let bytes = pack_indices(settings.bpp, indices);
            let entry = unpacked_index(settings.bpp, bytes, k) - settings.starting_palette_index;
            &&& mapping_outcome(pixels, settings, palette) == Ok::<Seq<u32>, TileError>(indices)
            &&& unpacked_index(settings.bpp, bytes, k) == indices[k]
            &&& entry == position_of(palette, pixels[k])
            &&& 0 <= entry < palette.len()
            &&& palette[entry] == pixels[k]
            &&& palette_entry(palette_bytes(palette), entry) == color_rgb555(pixels[k])
        }),
{
    let area = settings.tile_area();
    let start = settings.starting_palette_index;
    let indices = tile_indices(pixels.take(area), palette, start);
    let bytes = pack_indices(settings.bpp, indices);
    assert(0 <= k < area);
    assert(palette.contains(pixels[k]));
    lemma_position_of(palette, pixels[k]);
    let entry = position_of(palette, pixels[k]);
    assert(pixels.take(area)[k] == pixels[k]);
    assert(indices[k] == entry + start);
    lemma_palette_entry(palette, entry);
    match settings.bpp {
        BitsPerPixel::Bpp4 => {
            let low = clamped(indices[2 * (k / 2)], 0xF);
            let high = clamped(indices[2 * (k / 2) + 1], 0xF);
            assert(bytes[k / 2] == (low + 16 * high) as u8);
        },
        BitsPerPixel::Bpp8 => {
            assert(bytes[k] == clamped(indices[k], 0xFF) as u8);
        },
        BitsPerPixel::Bpp16 => {},
    }
}

} // verus!
