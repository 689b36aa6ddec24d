use crate::basic_types::{Color, ColorStruct};
use vstd::prelude::*;

verus! {

/// A channel value scaled by 31/255 and truncated toward zero: 0..=255 becomes 0..=31.
pub open spec fn scale_to_5_bits(num: int) -> int {
    num * 31 / 255
}

/// Three channels laid out in one 16-bit word: `r` in bits 0 to 4, `g` from
/// bit 5 up, `b` from bit 10 up.
pub open spec fn rgb555_bits(r: u16, g: u16, b: u16) -> u16 {
    r | (g << 5) | (b << 10)
}

/// The 16-bit palette form of three channels: each scaled to 5 bits, bit 15 unused
/// as long as the channels are at most 255.
pub open spec fn rgb555(r: u16, g: u16, b: u16) -> u16 {
    rgb555_bits(
        scale_to_5_bits(r as int) as u16,
        scale_to_5_bits(g as int) as u16,
        scale_to_5_bits(b as int) as u16,
    )
}

/// The 16-bit truecolor form: as `rgb555`, with bit 15 set when alpha is not zero.
pub open spec fn argb1555(r: u16, g: u16, b: u16, a: u16) -> u16 {
    rgb555(r, g, b) | ((if a > 0 { 1u16 } else { 0u16 }) << 15)
}

/// Four channels, each cut to its low 8 bits, as red, green, blue, alpha from the
/// highest byte down.
pub open spec fn rgba8888(r: u32, g: u32, b: u32, a: u32) -> u32 {
    ((r & 0xFF) << 24) | ((g & 0xFF) << 16) | ((b & 0xFF) << 8) | (a & 0xFF)
}

/// The palette entry of a color.
pub open spec fn color_rgb555(color: Color) -> u16 {
    rgb555(color.r as u16, color.g as u16, color.b as u16)
}

/// The truecolor word of a color.
pub open spec fn color_argb1555(color: Color) -> u16 {
    argb1555(color.r as u16, color.g as u16, color.b as u16, color.a as u16)
}

/// The 32-bit word of a color.
pub open spec fn color_rgba8888(color: Color) -> u32 {
    rgba8888(color.r as u32, color.g as u32, color.b as u32, color.a as u32)
}

/// The color whose 32-bit word is `packed`: red in the highest byte, alpha in
/// the lowest.
pub open spec fn color_of_rgba8888(packed: u32) -> Color {
    ColorStruct {
        r: (packed >> 24) as u8,
        g: ((packed >> 16) & 0xFF) as u8,
        b: ((packed >> 8) & 0xFF) as u8,
        a: (packed & 0xFF) as u8,
    }
}

/// Scales a channel by 31/255, truncating toward zero. The result is the same as
/// that of the single-precision product cut to an integer, for every input.
pub fn bit16_to_bit5(num: u16) -> (scaled: u16)
    ensures
        scaled == scale_to_5_bits(num as int),
        num <= 255 ==> scaled <= 31,
{
    let wide: u32 = num as u32 * 31;
    (wide / 255) as u16
}

//rrrrrgggggbbbbba
pub fn create_16bit_color(r: u16, g: u16, b: u16, _a: u16) -> (packed: u16)
    ensures
        packed == rgb555(r, g, b),
        r <= 255 && g <= 255 && b <= 255 ==> packed == scale_to_5_bits(r as int) + 32
            * scale_to_5_bits(g as int) + 1024 * scale_to_5_bits(b as int),
{
    proof {
        lemma_rgb555_sum(r, g, b);
    }
    (bit16_to_bit5(r)) | ((bit16_to_bit5(g)) << 5) | ((bit16_to_bit5(b)) << 10)
}

//arrrrrgggggbbbbb
pub fn create_16bit_color_argb16(r: u16, g: u16, b: u16, a: u16) -> (packed: u16)
    ensures
        packed == argb1555(r, g, b, a),
        r <= 255 && g <= 255 && b <= 255 ==> packed == scale_to_5_bits(r as int) + 32
            * scale_to_5_bits(g as int) + 1024 * scale_to_5_bits(b as int) + (if a > 0 {
            32768int
        } else {
            0int
        }),
{
    proof {
        lemma_argb1555_sum(r, g, b, a);
    }
    let flag: u16 = if a > 0 {
        1
    } else {
        0
    };
    bit16_to_bit5(r) | (bit16_to_bit5(g) << 5) | (bit16_to_bit5(b) << 10) | (flag << 15)
}

//rrrrrrrrggggggggbbbbbbbbaaaaaaaa
pub fn create_32bit_color(r: u32, g: u32, b: u32, a: u32) -> (packed: u32)
    ensures
        packed == rgba8888(r, g, b, a),
        r <= 255 && g <= 255 && b <= 255 && a <= 255 ==> packed == r * 0x100_0000 + g * 0x1_0000
            + b * 0x100 + a,
{
    proof {
        lemma_rgba8888_sum(r, g, b, a);
    }
    ((r & 0xFF) << 24) | ((g & 0xFF) << 16) | ((b & 0xFF) << 8) | (a & 0xFF)
}

/// Splits a 32-bit word into its four channels, red first.
pub fn unpack_32bit_color(packed: u32) -> (color: Color)
    ensures
        color == color_of_rgba8888(packed),
{
    assert(packed >> 24 <= 0xFF && (packed >> 16) & 0xFF <= 0xFF && (packed >> 8) & 0xFF <= 0xFF
        && packed & 0xFF <= 0xFF) by (bit_vector);
    Color::from(
        [
            (packed >> 24) as u8,
            ((packed >> 16) & 0xFF) as u8,
            ((packed >> 8) & 0xFF) as u8,
            (packed & 0xFF) as u8,
        ],
    )
}

/// The colors of a buffer that holds red, green and blue of one pixel after
/// the other: one opaque color for every three bytes.
pub open spec fn rgb8_colors(raw: Seq<u8>) -> Seq<Color> {
    Seq::new(
        raw.len() / 3,
        |i: int| ColorStruct { r: raw[3 * i], g: raw[3 * i + 1], b: raw[3 * i + 2], a: 255u8 },
    )
}

/// Reads the pixels of a buffer of red, green and blue bytes. Bytes left over
/// at the end, fewer than three, are not read.
pub fn colors_from_rgb8(raw: &Vec<u8>) -> (colors: Vec<Color>)
    ensures
        colors@ == rgb8_colors(raw@),
{
    let mut colors: Vec<Color> = Vec::new();

    for i in 0..raw.len() / 3
        invariant
            colors@.len() == i,
            forall|j: int| 0 <= j < i ==> colors@[j] == rgb8_colors(raw@)[j],
    {
        // Red, Green, Blue
        let items: (u8, u8, u8) = (raw[i * 3 + 0], raw[i * 3 + 1], raw[i * 3 + 2]);

        colors.push(Color { r: items.0, g: items.1, b: items.2, a: 255 })
    }
    assert(colors@ =~= rgb8_colors(raw@));

    colors
}

/// A color is read back unchanged from its 32-bit word, so different colors
/// have different words.
pub proof fn lemma_rgba8888_round_trip(color: Color)
    ensures
        color_of_rgba8888(color_rgba8888(color)) == color,
{
    let r = color.r as u32;
    let g = color.g as u32;
    let b = color.b as u32;
    let a = color.a as u32;
    let packed = rgba8888(r, g, b, a);
    assert(r <= 255 && g <= 255 && b <= 255 && a <= 255 ==> {
        let p = ((r & 0xFF) << 24) | ((g & 0xFF) << 16) | ((b & 0xFF) << 8) | (a & 0xFF);
        &&& p >> 24 == r
        &&& (p >> 16) & 0xFF == g
        &&& (p >> 8) & 0xFF == b
        &&& p & 0xFF == a
    }) by (bit_vector);
}

/// With channels of at most 255 the three 5-bit fields do not overlap, so the
/// palette word is their weighted sum and stays under 32768.
pub proof fn lemma_rgb555_sum(r: u16, g: u16, b: u16)
    ensures
        r <= 255 && g <= 255 && b <= 255 ==> rgb555(r, g, b) == scale_to_5_bits(r as int) + 32
            * scale_to_5_bits(g as int) + 1024 * scale_to_5_bits(b as int),
        r <= 255 && g <= 255 && b <= 255 ==> rgb555(r, g, b) < 32768,
{
    if r <= 255 && g <= 255 && b <= 255 {
        let r5 = scale_to_5_bits(r as int) as u16;
        let g5 = scale_to_5_bits(g as int) as u16;
        let b5 = scale_to_5_bits(b as int) as u16;
        assert(r5 < 32 && g5 < 32 && b5 < 32 ==> (r5 | (g5 << 5) | (b5 << 10)) == r5 + 32 * g5
            + 1024 * b5) by (bit_vector);
    }
}

/// With channels of at most 255 the truecolor word is the palette word plus
/// 32768 for a color that is not fully transparent.
pub proof fn lemma_argb1555_sum(r: u16, g: u16, b: u16, a: u16)
    ensures
        r <= 255 && g <= 255 && b <= 255 ==> argb1555(r, g, b, a) == rgb555(r, g, b) + (if a
            > 0 {
            32768int
        } else {
            0int
        }),
        r <= 255 && g <= 255 && b <= 255 ==> argb1555(r, g, b, a) == scale_to_5_bits(r as int)
            + 32 * scale_to_5_bits(g as int) + 1024 * scale_to_5_bits(b as int) + (if a > 0 {
            32768int
        } else {
            0int
        }),
{
    if r <= 255 && g <= 255 && b <= 255 {
        lemma_rgb555_sum(r, g, b);
        let low = rgb555(r, g, b);
        assert(low < 32768 ==> (low | (1u16 << 15)) == low + 32768) by (bit_vector);
        assert((low | (0u16 << 15)) == low) by (bit_vector);
    }
}

/// With channels of at most 255 the 32-bit word holds one channel in each byte.
pub proof fn lemma_rgba8888_sum(r: u32, g: u32, b: u32, a: u32)
    ensures
        r <= 255 && g <= 255 && b <= 255 && a <= 255 ==> rgba8888(r, g, b, a) == r * 0x100_0000
            + g * 0x1_0000 + b * 0x100 + a,
{
    assert(r <= 255 && g <= 255 && b <= 255 && a <= 255 ==> (((r & 0xFF) << 24) | ((g & 0xFF)
        << 16) | ((b & 0xFF) << 8) | (a & 0xFF)) == r * 0x100_0000 + g * 0x1_0000 + b * 0x100
        + a) by (bit_vector);
}

} // verus!
