use crate::basic_types::{Color, FinishedRawData, PackedTile, TileError, Vector2, Warning};
use crate::color_processor::{
    color_of_rgba8888, color_rgba8888, create_16bit_color, create_16bit_color_argb16,
    create_32bit_color, unpack_32bit_color,
};
use crate::image_model::{
    image_bytes, image_tiles, image_warnings, layout_error, lemma_grid_extent, lemma_image_tiles,
    lemma_image_tiles_in_palette, lemma_output_tiles, output_tile_bytes, output_tile_overflows,
    palette_data_bytes, process_error,
};
use crate::image_settings::{BitsPerPixel, TileSettings};
use crate::packing::{
    le_bytes, mapping_outcome, overflow_warnings, pack_4bit, pack_8bit, palette_bytes,
    tile_indices, tile_outcome, truecolor_bytes,
};
use crate::palette::{
    is_palette_outcome, lemma_palette_contents, lemma_palette_from_words, lemma_position_of,
    palette_candidates, palette_of, position_of,
};
use crate::sequences::{group_views, unique_keys};
use crate::tiling::{
    divides_evenly, extent_area, grid_columns, grid_count, grid_rows, is_sequential_tiling,
    is_tile_of, is_tiling, lemma_cell_of, lemma_flatten_uniform, lemma_grid_covers,
    lemma_source_index_of_cell, source_index, tile_check,
};
use vstd::prelude::*;
use vstd::seq_lib::lemma_flatten_concat;

verus! {

/// Appends the two bytes of a word, the low byte first.
fn push_le_bytes(bytes: &mut Vec<u8>, word: u16)
    ensures
        final(bytes)@ == old(bytes)@ + le_bytes(word),
{
    assert(word & 0xFF == word % 256 && word >> 8 == word / 256 && word >> 8 <= 0xFF && word & 0xFF
        <= 0xFF) by (bit_vector);
    bytes.push((word & 0xFF) as u8);
    bytes.push((word >> 8) as u8);
    assert(bytes@ =~= old(bytes)@ + le_bytes(word));
}

/// Turns an image into the bytes of its tiles and of its palette. With a
/// palette the image is cut into tiles, the tiles are taken metatile by
/// metatile, and each tile's pixels are written as indices into one palette
/// built over the whole image. At the truecolor depth every pixel is written as
/// its own 16-bit word, in the order given, and there is no palette.
pub fn process_image(data: Vec<Color>, settings: TileSettings) -> (result: Result<
    FinishedRawData,
    TileError,
>)
    ensures
        match result {
            Ok(raw) => {
                &&& process_error(data@, settings) is None
                &&& raw.image_data@ == image_bytes(data@, settings)
                &&& raw.palette_data@ == palette_data_bytes(data@, settings)
                &&& raw.warnings@ == image_warnings(data@, settings)
            },
            Err(error) => process_error(data@, settings) == Some(error),
        },
{
    assert(settings.size_per_tile.x * settings.size_per_tile.y <= 0xFFFF * 0xFFFF)
        by (nonlinear_arith)
        requires
            settings.size_per_tile.x <= 0xFFFF,
            settings.size_per_tile.y <= 0xFFFF,
    ;
    let expected_length: usize = settings.size_per_tile.x as usize * settings.size_per_tile.y as usize;

    if data.len() < expected_length {
        return Err(TileError::TooFewPixels);
    }
    let tile_size = Vector2 {
        x: settings.size_per_tile.x as usize,
        y: settings.size_per_tile.y as usize,
    };

    // Split the image into tiles
    let tiled = match tile(&data, settings.image_size, tile_size) {
        Ok(tiles) => tiles,
        Err(error) => {
            return Err(error);
        },
    };
    proof {
        lemma_grid_extent(data@.len() as int, settings);
    }

    // Group metatiles together
    let metatiled = match tile_sequentially(
        &tiled,
        Vector2 {
            x: settings.image_size.x / tile_size.x,
            y: settings.image_size.y / tile_size.y,
        },
        settings.metatile_size,
    ) {
        Ok(tiles) => tiles,
        Err(error) => {
            return Err(error);
        },
    };
    let ghost tiles = image_tiles(data@, settings);
    proof {
        lemma_output_tiles(data@, settings, tiled@, metatiled@);
        lemma_image_tiles(data@, settings);
        lemma_image_tiles_in_palette(data@, settings);
        assert(metatiled@.len() == tiles.len());
        assert forall|t: int| 0 <= t < metatiled@.len() implies (#[trigger] metatiled@[t])@
            == tiles[t] by {
            assert(group_views(metatiled@)[t] == metatiled@[t]@);
        }
    }

    // This is the raw byte arrays that will be written to the file
    let mut final_data: FinishedRawData = FinishedRawData {
        image_data: Vec::new(),
        palette_data: Vec::new(),
        warnings: Vec::new(),
    };

    match settings.bpp {
        BitsPerPixel::Bpp4 | BitsPerPixel::Bpp8 => {
            // Get the palette of the entire image
            let palette = match get_image_palette(&data, &settings) {
                Ok(colors) => colors,
                Err(error) => {
                    return Err(error);
                },
            };
            let ghost start = settings.starting_palette_index;
            let ghost tile_bytes = output_tile_bytes(data@, settings);
            let ghost lost = output_tile_overflows(data@, settings);
            assert(tile_bytes.take(0) =~= Seq::<Seq<u8>>::empty());
            assert(lost.take(0) =~= Seq::<bool>::empty());

            // Process all the tiles and add it to final_data
            for t in 0..metatiled.len()
                invariant
                    settings.bpp.has_palette(),
                    start == settings.starting_palette_index,
                    tiles == image_tiles(data@, settings),
                    tile_bytes == output_tile_bytes(data@, settings),
                    lost == output_tile_overflows(data@, settings),
                    layout_error(data@.len() as int, settings) is None,
                    palette@ == palette_of(data@, settings.transparent_color),
                    palette@.len() <= settings.bpp.max_palette_length() <= 256,
                    metatiled@.len() == tiles.len(),
                    forall|u: int|
                        0 <= u < metatiled@.len() ==> (#[trigger] metatiled@[u])@ == tiles[u],
                    forall|u: int|
                        0 <= u < tiles.len() ==> (#[trigger] tiles[u]).len()
                            == settings.tile_area(),
                    forall|u: int, k: int|
                        0 <= u < tiles.len() && 0 <= k < settings.tile_area()
                            ==> palette@.contains(#[trigger] tiles[u][k]),
                    start != 0 ==> forall|u: int, k: int|
                        0 <= u < t && 0 <= k < settings.tile_area() ==> position_of(
                            palette@,
                            #[trigger] tiles[u][k],
                        ) + start <= settings.bpp.max_palette_length(),
                    final_data.image_data@ == tile_bytes.take(t as int).flatten(),
                    final_data.palette_data@ == Seq::<u8>::empty(),
                    final_data.warnings@ == overflow_warnings(lost.take(t as int)),
            {
                let ghost pixels = metatiled@[t as int]@;
                assert(pixels == tiles[t as int]);
                assert(pixels.take(settings.tile_area()) =~= pixels);
                assert(!exists|i: int|
                    0 <= i < settings.tile_area() && !palette@.contains(#[trigger] pixels[i]));
                let mut paletted = match process_tile_paletted(&metatiled[t], &settings, &palette) {
                    Ok(packed) => packed,
                    Err(error) => {
                        proof {
                            let i = choose|i: int|
                                0 <= i < settings.tile_area() && position_of(
                                    palette@,
                                    #[trigger] pixels[i],
                                ) + start > settings.bpp.max_palette_length();
                            assert(position_of(palette@, tiles[t as int][i]) + start
                                > settings.bpp.max_palette_length());
                        }
                        return Err(error);
                    },
                };
                proof {
                    assert(paletted.data@ == tile_bytes[t as int]);
                    assert(paletted.too_many_colors == lost[t as int]);
                    assert(tile_bytes.take(t + 1) =~= tile_bytes.take(t as int) + seq![
                        tile_bytes[t as int],
                    ]);
                    lemma_flatten_concat(tile_bytes.take(t as int), seq![tile_bytes[t as int]]);
                    seq![tile_bytes[t as int]].lemma_flatten_one_element();
                    assert(lost.take(t + 1).drop_last() =~= lost.take(t as int));
                    assert(lost.take(t + 1).last() == lost[t as int]);
                    if start != 0 {
                        assert forall|k: int| 0 <= k < settings.tile_area() implies position_of(
                            palette@,
                            #[trigger] tiles[t as int][k],
                        ) + start <= settings.bpp.max_palette_length() by {
                            assert(pixels[k] == tiles[t as int][k]);
                        }
                    }
                }
                if paletted.too_many_colors {
                    final_data.warnings.push(Warning::TooManyColors { tile: t });
                }

                final_data.image_data.append(&mut paletted.data);
            }
            proof {
                assert(tile_bytes.take(metatiled@.len() as int) =~= tile_bytes);
                assert(lost.take(metatiled@.len() as int) =~= lost);
            }

            // Convert all the colors into palette into 16 bit color
            for i in 0..palette.len()
                invariant
                    final_data.image_data@ == image_bytes(data@, settings),
                    final_data.warnings@ == image_warnings(data@, settings),
                    final_data.palette_data@ == palette_bytes(palette@.take(i as int)),
            {
                let item = palette[i];
                push_le_bytes(
                    &mut final_data.palette_data,
                    create_16bit_color(item.r as u16, item.g as u16, item.b as u16, item.a as u16),
                );
                assert(final_data.palette_data@ =~= palette_bytes(palette@.take(i + 1)));
            }
            assert(palette@.take(palette@.len() as int) =~= palette@);

            return Ok(final_data);
        },
        BitsPerPixel::Bpp16 => {
            for i in 0..data.len()
                invariant
                    final_data.palette_data@ == Seq::<u8>::empty(),
                    final_data.warnings@ == Seq::<Warning>::empty(),
                    final_data.image_data@ == truecolor_bytes(data@.take(i as int)),
            {
                let color = data[i];
                push_le_bytes(
                    &mut final_data.image_data,
                    create_16bit_color_argb16(
                        color.r as u16,
                        color.g as u16,
                        color.b as u16,
                        color.a as u16,
                    ),
                );
                assert(final_data.image_data@ =~= truecolor_bytes(data@.take(i + 1)));
            }
            assert(data@.take(data@.len() as int) =~= data@);

            return Ok(final_data);
        },
    }
}

/// Tile data together, and put them each into a Vec<T>
pub fn tile<T: Clone>(
    data: &Vec<T>,
    total_size: Vector2<usize>,
    tile_size: Vector2<usize>,
) -> (result: Result<Vec<Vec<T>>, TileError>)
    ensures
        match result {
            Ok(tiles) => {
                &&& tile_check(data@.len() as int, total_size, tile_size) is None
                &&& is_tiling(tiles@, data@, total_size, tile_size)
            },
            Err(error) => tile_check(data@.len() as int, total_size, tile_size) == Some(error),
        },
{
    let length = data.len();
    // The needed length of the vector for the function to work
    let expected_length = match total_size.x.checked_mul(total_size.y) {
        Some(length) => length,
        None => {
            return Err(TileError::TooFewPixels);
        },
    };
    if length < expected_length {
        return Err(TileError::TooFewPixels);
    }
    if tile_size.x == 0 || tile_size.y == 0 || total_size.x % tile_size.x != 0 || total_size.y
        % tile_size.y != 0 {
        return Err(TileError::NotDivisible);
    }
    let total_tiles: Vector2<usize> = Vector2 {
        x: total_size.x / tile_size.x,
        y: total_size.y / tile_size.y,
    };
    proof {
        lemma_grid_covers(total_size, tile_size);
    }

    // The vector which will contain all the tiles
    let mut new_vec: Vec<Vec<T>> = Vec::new();
    assert(0 * total_tiles.x == 0) by (nonlinear_arith);

    for y in 0..total_tiles.y
        invariant
            divides_evenly(total_size, tile_size),
            extent_area(total_size) <= length == data@.len(),
            total_tiles.x == grid_columns(total_size, tile_size),
            total_tiles.y == grid_rows(total_size, tile_size),
            new_vec@.len() == y * total_tiles.x,
            forall|t: int|
                0 <= t < new_vec@.len() ==> is_tile_of(
                    (#[trigger] new_vec@[t])@,
                    data@,
                    total_size,
                    tile_size,
                    t,
                ),
    {
        for x in 0..total_tiles.x
            invariant
                divides_evenly(total_size, tile_size),
                extent_area(total_size) <= length == data@.len(),
                total_tiles.x == grid_columns(total_size, tile_size),
                total_tiles.y == grid_rows(total_size, tile_size),
                y < total_tiles.y,
                new_vec@.len() == y * total_tiles.x + x,
                forall|t: int|
                    0 <= t < new_vec@.len() ==> is_tile_of(
                        (#[trigger] new_vec@[t])@,
                        data@,
                        total_size,
                        tile_size,
                        t,
                    ),
        {
            // A new tile
            let mut new_tile: Vec<T> = Vec::new();
            let ghost number = y * total_tiles.x + x;
            assert(0 * tile_size.x == 0) by (nonlinear_arith);

            // Go through each item (pixel) of the tile
            for tile_y in 0..tile_size.y
                invariant
                    divides_evenly(total_size, tile_size),
                    extent_area(total_size) <= length == data@.len(),
                    total_tiles.x == grid_columns(total_size, tile_size),
                    total_tiles.y == grid_rows(total_size, tile_size),
                    y < total_tiles.y,
                    x < total_tiles.x,
                    number == y * total_tiles.x + x,
                    new_tile@.len() == tile_y * tile_size.x,
                    forall|k: int|
                        0 <= k < new_tile@.len() ==> cloned(
                            data@[source_index(total_size, tile_size, number, k)],
                            #[trigger] new_tile@[k],
                        ),
            {
                proof {
                    if tile_size.x > 0 {
                        lemma_source_index_of_cell(
                            total_size,
                            tile_size,
                            x as int,
                            y as int,
                            0,
                            tile_y as int,
                        );
                    }
                }
                // The index of the first item of this row of the tile
                let index = (y * tile_size.y + tile_y) * total_size.x + x * tile_size.x;

                // Read each pixel of the row
                for tile_x in 0..tile_size.x
                    invariant
                        divides_evenly(total_size, tile_size),
                        extent_area(total_size) <= length == data@.len(),
                        total_tiles.x == grid_columns(total_size, tile_size),
                        total_tiles.y == grid_rows(total_size, tile_size),
                        y < total_tiles.y,
                        x < total_tiles.x,
                        tile_y < tile_size.y,
                        number == y * total_tiles.x + x,
                        index == (y * tile_size.y + tile_y) * total_size.x + x * tile_size.x,
                        new_tile@.len() == tile_y * tile_size.x + tile_x,
                        forall|k: int|
                            0 <= k < new_tile@.len() ==> cloned(
                                data@[source_index(total_size, tile_size, number, k)],
                                #[trigger] new_tile@[k],
                            ),
                {
                    proof {
                        lemma_source_index_of_cell(
                            total_size,
                            tile_size,
                            x as int,
                            y as int,
                            tile_x as int,
                            tile_y as int,
                        );
                    }
                    new_tile.push(data[index + tile_x].clone());
                }
                assert((tile_y + 1) * tile_size.x == tile_y * tile_size.x + tile_size.x)
                    by (nonlinear_arith);
            }
            assert(tile_size.y * tile_size.x == extent_area(tile_size)) by (nonlinear_arith);

            new_vec.push(new_tile);
        }
        assert((y + 1) * total_tiles.x == y * total_tiles.x + total_tiles.x) by (nonlinear_arith);
    }
    assert(total_tiles.y * total_tiles.x == grid_count(total_size, tile_size))
        by (nonlinear_arith)
        requires
            total_tiles.x == grid_columns(total_size, tile_size),
            total_tiles.y == grid_rows(total_size, tile_size),
    ;

    Ok(new_vec)
}

/// Tile the image, but instead of returning Vec<Vec<T>>, return Vec<T>, where each vector is appended to the end.
/// The items of the tiles are moved into the result, one tile after the other.
pub fn tile_sequentially<T: Clone>(
    data: &Vec<T>,
    total_size: Vector2<usize>,
    tile_size: Vector2<usize>,
) -> (result: Result<Vec<T>, TileError>)
    ensures
        match result {
            Ok(flat) => {
                &&& tile_check(data@.len() as int, total_size, tile_size) is None
                &&& is_sequential_tiling(flat@, data@, total_size, tile_size)
            },
            Err(error) => tile_check(data@.len() as int, total_size, tile_size) == Some(error),
        },
{
    match tile(data, total_size, tile_size) {
        Ok(tiles) => {
            let mut tiles = tiles;
            let ghost parts = group_views(tiles@);
            let ghost area = extent_area(tile_size);
            let mut flat: Vec<T> = Vec::new();
            assert(parts.take(0) =~= Seq::<Seq<T>>::empty());
            let count = tiles.len();
            for t in 0..count
                invariant
                    count == parts.len(),
                    tiles@.len() == count,
                    forall|u: int| t <= u < count ==> (#[trigger] tiles@[u])@ == parts[u],
                    flat@ == parts.take(t as int).flatten(),
            {
                assert(parts.take(t + 1) =~= parts.take(t as int) + seq![parts[t as int]]);
                proof {
                    lemma_flatten_concat(parts.take(t as int), seq![parts[t as int]]);
                    seq![parts[t as int]].lemma_flatten_one_element();
                }
                flat.append(&mut tiles[t]);
            }
            proof {
                assert(parts.take(parts.len() as int) =~= parts);
                lemma_grid_covers(total_size, tile_size);
                assert(0 <= area) by (nonlinear_arith)
                    requires
                        area == tile_size.x * tile_size.y,
                ;
                lemma_flatten_uniform(parts, area);
                assert forall|p: int| 0 <= p < flat@.len() implies cloned(
                    data@[source_index(total_size, tile_size, p / area, p % area)],
                    #[trigger] flat@[p],
                ) by {
                    lemma_cell_of(p, parts.len() as int, area);
                }
            }
            Ok(flat)
        },
        Err(error) => Err(error),
    }
}

/// Get the palette of an image by taking the image, then deduping it, and making sure the palette fits the parameters given
pub fn get_image_palette(data: &Vec<Color>, settings: &TileSettings) -> (result: Result<
    Vec<Color>,
    TileError,
>)
    requires
        settings.bpp.has_palette(),
    ensures
        is_palette_outcome(result, data@, *settings),
        result matches Ok(palette) ==> palette@.no_duplicates() && palette@.len()
            <= settings.bpp.max_palette_length(),
        result matches Ok(palette) ==> settings.transparent_color matches Some(color)
            ==> palette@.len() > 0 && palette@[0] == color,
{
    let ghost candidates = palette_candidates(data@, settings.transparent_color);
    let ghost pack = |color: Color| color_rgba8888(color);
    let ghost unpack = |word: u32| color_of_rgba8888(word);
    let mut words: Vec<u32> = Vec::new();
    // The transparent color needs to be first
    if let Some(color) = settings.transparent_color {
        words.push(create_32bit_color(color.r as u32, color.g as u32, color.b as u32, color.a as u32));
    }
    let ghost lead = words@.len();
    for i in 0..data.len()
        invariant
            candidates == palette_candidates(data@, settings.transparent_color),
            lead == (if settings.transparent_color is Some { 1int } else { 0int }),
            words@.len() == lead + i,
            forall|j: int| 0 <= j < words@.len() ==> words@[j] == color_rgba8888(candidates[j]),
    {
        let color = data[i];
        assert(candidates[lead + i] == data@[i as int]);
        words.push(create_32bit_color(color.r as u32, color.g as u32, color.b as u32, color.a as u32));
    }
    assert(words@ =~= candidates.map_values(pack));
    let distinct = unique_keys(words);
    let mut palette: Vec<Color> = Vec::new();
    for i in 0..distinct.len()
        invariant
            palette@.len() == i,
            forall|j: int| 0 <= j < i ==> palette@[j] == color_of_rgba8888(distinct@[j]),
    {
        palette.push(unpack_32bit_color(distinct[i]));
    }
    proof {
        lemma_palette_from_words(candidates);
        assert(palette@ =~= distinct@.map_values(unpack));
        lemma_palette_contents(data@, settings.transparent_color);
    }

    let max = settings.bpp.get_max_palette_length();
    if palette.len() > max {
        return Err(TileError::PaletteOverflow { length: palette.len(), max });
    }
    Ok(palette)
}

/// The index of the first entry of the palette that equals the color.
fn find_in_palette(palette: &Vec<Color>, item: Color) -> (found: Option<usize>)
    ensures
        match found {
            Some(index) => index < palette@.len() && index == position_of(palette@, item),
            None => !palette@.contains(item),
        },
{
    for index in 0..palette.len()
        invariant
            forall|j: int| 0 <= j < index ==> palette@[j] != item,
    {
        if palette[index] == item {
            proof {
                lemma_position_of(palette@, item);
            }
            return Some(index);
        }
    }
    None
}

// Convert to a palette tile
pub fn convert_to_paletted(data: &Vec<Color>, settings: &TileSettings, palette: &Vec<Color>) -> (result:
    Result<Vec<u32>, TileError>)
    requires
        palette@.len() <= u32::MAX,
        settings.starting_palette_index != 0 ==> settings.bpp.has_palette(),
    ensures
        match result {
            Ok(indices) => mapping_outcome(data@, *settings, palette@) == Ok::<
                Seq<u32>,
                TileError,
            >(indices@),
            Err(error) => mapping_outcome(data@, *settings, palette@) == Err::<
                Seq<u32>,
                TileError,
            >(error),
        },
{
    let start = settings.starting_palette_index;
    assert(settings.size_per_tile.x * settings.size_per_tile.y <= 0xFFFF * 0xFFFF)
        by (nonlinear_arith)
        requires
            settings.size_per_tile.x <= 0xFFFF,
            settings.size_per_tile.y <= 0xFFFF,
    ;
    let area = settings.size_per_tile.x as usize * settings.size_per_tile.y as usize;
    if data.len() < area {
        return Err(TileError::TooFewPixels);
    }
    let mut output: Vec<u32> = Vec::new();

    for i in 0..area
        invariant
            area == settings.tile_area() <= data@.len(),
            palette@.len() <= u32::MAX,
            output@.len() == i,
            forall|j: int| 0 <= j < i ==> palette@.contains(#[trigger] data@[j]),
            forall|j: int|
                0 <= j < i ==> (#[trigger] output@[j]) == position_of(palette@, data@[j]),
    {
        let item = data[i];

        proof {
            lemma_position_of(palette@, item);
        }
        if let Some(color_index) = find_in_palette(palette, item) {
            output.push(color_index as u32);
        } else {
            assert(!palette@.contains(data@[i as int]));
            return Err(TileError::ColorNotInPalette);
        }
    }

    // Start index at starting_palette_index instead of 0
    if start != 0 {
        let max = settings.bpp.get_max_palette_length();
        for i in 0..area
            invariant
                start == settings.starting_palette_index,
                start != 0,
                area == settings.tile_area() <= data@.len(),
                output@.len() == area,
                max == settings.bpp.max_palette_length(),
                max <= 256,
                forall|j: int| 0 <= j < area ==> palette@.contains(#[trigger] data@[j]),
                forall|j: int|
                    0 <= j < i ==> (#[trigger] output@[j]) == position_of(palette@, data@[j])
                        + start && output@[j] <= max,
                forall|j: int|
                    i <= j < area ==> (#[trigger] output@[j]) == position_of(palette@, data@[j]),
        {
            let moved: u64 = output[i] as u64 + start as u64;
            if moved > max as u64 {
                assert(position_of(palette@, data@[i as int]) + start
                    > settings.bpp.max_palette_length());
                return Err(TileError::StartingIndexTooHigh);
            }
            output[i] = moved as u32;
        }
    }
    proof {
        if start != 0 {
            assert forall|j: int| 0 <= j < area implies position_of(palette@, #[trigger] data@[j])
                + start <= settings.bpp.max_palette_length() by {
                assert(output@[j] == position_of(palette@, data@[j]) + start);
            }
        }
        assert forall|j: int| 0 <= j < area implies output@[j] == tile_indices(
            data@.take(area as int),
            palette@,
            start,
        )[j] by {
            assert(output@[j] == position_of(palette@, data@[j]) + start);
        }
        assert(output@ =~= tile_indices(data@.take(area as int), palette@, start));
    }

    return Ok(output);
}

/// This function takes the image data, and the palette that image uses, and converts it to a raw byte array, ready to be read.
pub fn process_tile_paletted(data: &Vec<Color>, settings: &TileSettings, palette: &Vec<Color>) -> (result:
    Result<PackedTile, TileError>)
    requires
        palette@.len() <= u32::MAX,
        settings.starting_palette_index != 0 ==> settings.bpp.has_palette(),
    ensures
        match result {
            Ok(packed) => tile_outcome(data@, *settings, palette@) == Ok::<
                (Seq<u8>, bool),
                TileError,
            >((packed.data@, packed.too_many_colors)),
            Err(error) => tile_outcome(data@, *settings, palette@) == Err::<
                (Seq<u8>, bool),
                TileError,
            >(error),
        },
{
    let unprocessed = match convert_to_paletted(data, settings, palette) {
        Ok(indices) => indices,
        Err(error) => {
            return Err(error);
        },
    };

    let mut image_data: Vec<u8> = Vec::new();

    // Set once an index was too large for its place, however often that happens
    let mut has_warned_too_many_colors = false;

    if settings.bpp == BitsPerPixel::Bpp4 {
        // We go 2 items at a time
        for i in 0..unprocessed.len() / 2
            invariant
                image_data@.len() == i,
                forall|j: int| 0 <= j < i ==> image_data@[j] == pack_4bit(unprocessed@)[j],
                has_warned_too_many_colors <==> exists|j: int|
                    0 <= j < 2 * i && #[trigger] unprocessed@[j] > 0xF,
        {
            let index = i * 2;

            let mut items = (unprocessed[index], unprocessed[index + 1]);
            let ghost warned_before = has_warned_too_many_colors;

            // Make sure both items fit within the 16 color limit of 4 bit images
            if items.0 > 0xF {
                has_warned_too_many_colors = true;
                items.0 = 0;
            }
            if items.1 > 0xF {
                has_warned_too_many_colors = true;
                items.1 = 0;
            }
            let low = items.0;
            let high = items.1;
            assert(low <= 0xF && high <= 0xF ==> (low | (high << 4)) == low + 16 * high && (low | (
                high << 4)) <= 0xFF) by (bit_vector);

            image_data.push(((items.0) | (items.1 << 4)) as u8);
            proof {
                if warned_before {
                    let j = choose|j: int| 0 <= j < 2 * i && #[trigger] unprocessed@[j] > 0xF;
                    assert(0 <= j < 2 * (i + 1) && unprocessed@[j] > 0xF);
                }
                if has_warned_too_many_colors && !warned_before {
                    if unprocessed@[index as int] > 0xF {
                        assert(0 <= index < 2 * (i + 1) && unprocessed@[index as int] > 0xF);
                    } else {
                        assert(0 <= index + 1 < 2 * (i + 1) && unprocessed@[index + 1] > 0xF);
                    }
                }
            }
        }
        assert(image_data@ =~= pack_4bit(unprocessed@));
    }
    if settings.bpp == BitsPerPixel::Bpp8 {
        for i in 0..unprocessed.len()
            invariant
                image_data@.len() == i,
                forall|j: int| 0 <= j < i ==> image_data@[j] == pack_8bit(unprocessed@)[j],
                has_warned_too_many_colors <==> exists|j: int|
                    0 <= j < i && #[trigger] unprocessed@[j] > 0xFF,
        {
            let item = unprocessed[i];
            let ghost warned_before = has_warned_too_many_colors;
            // Make sure the item fits within the 256 color limit for 8 bit images
            if item > 0xFF {
                has_warned_too_many_colors = true;
                image_data.push(0u8);
            } else {
                image_data.push(item as u8);
            }
            proof {
                if warned_before {
                    let j = choose|j: int| 0 <= j < i && #[trigger] unprocessed@[j] > 0xFF;
                    assert(0 <= j < i + 1 && unprocessed@[j] > 0xFF);
                }
                if item > 0xFF {
                    assert(0 <= i < i + 1 && unprocessed@[i as int] > 0xFF);
                }
            }
        }
        assert(image_data@ =~= pack_8bit(unprocessed@));
    }

    return Ok(PackedTile { data: image_data, too_many_colors: has_warned_too_many_colors });
}

} // verus!
