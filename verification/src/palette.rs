use crate::basic_types::{Color, TileError};
use crate::color_processor::{color_of_rgba8888, color_rgba8888, lemma_rgba8888_round_trip};
use crate::image_settings::TileSettings;
use crate::sequences::{
    first_occurrences, lemma_first_occurrences, lemma_first_occurrences_renamed,
};
use vstd::prelude::*;

verus! {

/// The colors that a palette is drawn from: the transparent color, if there is
/// one, and then every pixel.
pub open spec fn palette_candidates(data: Seq<Color>, transparent: Option<Color>) -> Seq<Color> {
    match transparent {
        Some(color) => seq![color] + data,
        None => data,
    }
}

/// The palette of an image: its distinct colors in the order in which each
/// occurs first, after the transparent color if there is one.
pub open spec fn palette_of(data: Seq<Color>, transparent: Option<Color>) -> Seq<Color> {
    first_occurrences(palette_candidates(data, transparent))
}

/// What building the palette comes to: the palette, or an overflow where it
/// has more colors than the bit depth holds.
pub open spec fn palette_outcome(data: Seq<Color>, settings: TileSettings) -> Result<
    Seq<Color>,
    TileError,
> {
    let palette = palette_of(data, settings.transparent_color);
    if palette.len() > settings.bpp.max_palette_length() {
        Err(
            TileError::PaletteOverflow {
                length: palette.len() as usize,
                max: settings.bpp.max_palette_length() as usize,
            },
        )
    } else {
        Ok(palette)
    }
}

/// `result` is what building the palette of these pixels comes to.
pub open spec fn is_palette_outcome(
    result: Result<Vec<Color>, TileError>,
    data: Seq<Color>,
    settings: TileSettings,
) -> bool {
    match result {
        Ok(palette) => palette_outcome(data, settings) == Ok::<Seq<Color>, TileError>(palette@),
        Err(error) => palette_outcome(data, settings) == Err::<Seq<Color>, TileError>(error),
    }
}

/// The index of the first entry of the palette that equals `color`, or the
/// palette's length where none does.
pub open spec fn position_of(palette: Seq<Color>, color: Color) -> int
    decreases palette.len(),
{
    if palette.len() == 0 {
        0
    } else if palette[0] == color {
        0
    } else {
        1 + position_of(palette.drop_first(), color)
    }
}

/// `position_of` is the least index at which the color stands, and the length
/// exactly when the color is missing.
pub proof fn lemma_position_of(palette: Seq<Color>, color: Color)
    ensures
        0 <= position_of(palette, color) <= palette.len(),
        position_of(palette, color) < palette.len() <==> palette.contains(color),
        position_of(palette, color) < palette.len() ==> palette[position_of(palette, color)]
            == color,
        forall|j: int| 0 <= j < position_of(palette, color) ==> palette[j] != color,
    decreases palette.len(),
{
    if palette.len() == 0 {
    } else if palette[0] == color {
    } else {
        let rest = palette.drop_first();
        lemma_position_of(rest, color);
        let p = position_of(rest, color);
        if p < rest.len() {
            assert(palette[p + 1] == rest[p]);
        }
        if palette.contains(color) {
            let j = choose|j: int| 0 <= j < palette.len() && palette[j] == color;
            assert(rest[j - 1] == color);
        }
        assert forall|j: int| 0 <= j < p + 1 implies palette[j] != color by {
            if j > 0 {
                assert(rest[j - 1] == palette[j]);
            }
        }
    }
}

/// A palette holds every color of the image once, and nothing else but the
/// transparent color; the transparent color, where there is one, is entry 0.
pub proof fn lemma_palette_contents(data: Seq<Color>, transparent: Option<Color>)
    ensures
        palette_of(data, transparent).no_duplicates(),
        forall|i: int|
            0 <= i < data.len() ==> palette_of(data, transparent).contains(#[trigger] data[i]),
        forall|color: Color| #[trigger]
            palette_of(data, transparent).contains(color) ==> data.contains(color) || transparent
                == Some(color),
        transparent matches Some(color) ==> palette_of(data, transparent).len() > 0 && palette_of(
            data,
            transparent,
        )[0] == color,
        palette_of(data, transparent).len() <= data.len() + 1,
{
    let candidates = palette_candidates(data, transparent);
    lemma_first_occurrences(candidates);
    assert forall|i: int| 0 <= i < data.len() implies palette_of(data, transparent).contains(
        #[trigger] data[i],
    ) by {
        match transparent {
            Some(color) => {
                assert(candidates[i + 1] == data[i]);
            },
            None => {},
        }
        assert(candidates.contains(data[i]));
    }
    assert forall|color: Color| #[trigger]
        palette_of(data, transparent).contains(color) implies data.contains(color) || transparent
        == Some(color) by {
        assert(candidates.contains(color));
        let j = choose|j: int| 0 <= j < candidates.len() && candidates[j] == color;
        match transparent {
            Some(first) => {
                if j > 0 {
                    assert(data[j - 1] == color);
                }
            },
            None => {},
        }
    }
}

/// The palette can be had from the 32-bit words of the colors: the distinct
/// words, read back as colors, are the distinct colors.
pub proof fn lemma_palette_from_words(colors: Seq<Color>)
    ensures
        first_occurrences(colors.map_values(|color: Color| color_rgba8888(color))).map_values(
            |word: u32| color_of_rgba8888(word),
        ) == first_occurrences(colors),
{
    let pack = |color: Color| color_rgba8888(color);
    let unpack = |word: u32| color_of_rgba8888(word);
    assert forall|i: int, j: int|
        0 <= i < colors.len() && 0 <= j < colors.len() && pack(colors[i]) == pack(
            colors[j],
        ) implies colors[i] == colors[j] by {
        lemma_rgba8888_round_trip(colors[i]);
        lemma_rgba8888_round_trip(colors[j]);
    }
    lemma_first_occurrences_renamed(colors, pack);
    let distinct = first_occurrences(colors);
    let back = distinct.map_values(pack).map_values(unpack);
    assert forall|i: int| 0 <= i < distinct.len() implies back[i] == distinct[i] by {
        lemma_rgba8888_round_trip(distinct[i]);
    }
    assert(back =~= distinct);
}

/// Building the palette twice from the same pixels and settings gives the same
/// outcome both times: the same colors in the same order, or the same error.
pub proof fn lemma_palette_deterministic(
    first: Result<Vec<Color>, TileError>,
    second: Result<Vec<Color>, TileError>,
    data: Seq<Color>,
    settings: TileSettings,
)
    requires
        is_palette_outcome(first, data, settings),
        is_palette_outcome(second, data, settings),
    ensures
        first is Ok <==> second is Ok,
        first matches Ok(one) ==> second matches Ok(other) && one@ == other@ && one@.len()
            == other@.len(),
        first matches Err(error) ==> second == Err::<Vec<Color>, TileError>(error),
        first matches Ok(one) ==> settings.transparent_color matches Some(color) ==> one@.len() > 0
            && one@[0] == color,
{
    lemma_palette_contents(data, settings.transparent_color);
}

/// The bit depth's limit is enforced exactly: an image whose palette has one
/// color more than the limit is refused with an overflow that names both
/// numbers, and one whose palette has at most the limit is accepted.
pub proof fn lemma_palette_overflow_boundary(data: Seq<Color>, settings: TileSettings)
    requires
        settings.bpp.has_palette(),
    ensures
        palette_of(data, settings.transparent_color).len() == settings.bpp.max_palette_length() + 1
            ==> palette_outcome(data, settings) == Err::<Seq<Color>, TileError>(
            TileError::PaletteOverflow {
                length: (settings.bpp.max_palette_length() + 1) as usize,
                max: settings.bpp.max_palette_length() as usize,
            },
        ),
        palette_of(data, settings.transparent_color).len() <= settings.bpp.max_palette_length()
            ==> palette_outcome(data, settings) == Ok::<Seq<Color>, TileError>(
            palette_of(data, settings.transparent_color),
        ),
        palette_outcome(data, settings) is Err <==> palette_of(
            data,
            settings.transparent_color,
        ).len() > settings.bpp.max_palette_length(),
{
}

} // verus!
