use crate::basic_types::{Color, TileError, Warning};
use crate::image_settings::TileSettings;
use crate::color_processor::color_rgb555;
use crate::packing::{
    lemma_packing_reversible, mapping_outcome, overflow_warnings, overflows, pack_indices,
    packed_count, packed_length, palette_bytes, palette_entry, tile_indices, truecolor_bytes,
    unpacked_index,
};
use crate::palette::{lemma_palette_contents, palette_of, palette_outcome, position_of};
use crate::sequences::group_views;
use crate::tiling::{
    divides_evenly, extent_area, grid_count, is_sequential_tiling, is_tile_of, is_tiling,
    lemma_cell_of, lemma_flatten_uniform, lemma_grid_covers, lemma_source_index_in_bounds,
    source_index, tile_check, tiled, tiled_sequentially,
};
use vstd::prelude::*;

verus! {

/// The tiles of the image in the order in which they are written: the image
/// is cut into tiles, and the tiles are then taken metatile by metatile.
pub open spec fn image_tiles(data: Seq<Color>, settings: TileSettings) -> Seq<Seq<Color>> {
    tiled_sequentially(
        tiled(data, settings.image_size, settings.tile_extent()),
        settings.grid_extent(),
        settings.metatile_size,
    )
}

/// The index in the image's buffer of the pixel at offset `k` of tile number
/// `t` of the output.
pub open spec fn pixel_source(settings: TileSettings, t: int, k: int) -> int {
    let within = extent_area(settings.metatile_size);
    source_index(
        settings.image_size,
        settings.tile_extent(),
        source_index(settings.grid_extent(), settings.metatile_size, t / within, t % within),
        k,
    )
}

/// What is wrong with the sizes, if anything: too few pixels for one tile or
/// for the image, an image that is not a whole number of tiles, or a grid of
/// tiles that is not a whole number of metatiles, looked for in this order.
pub open spec fn layout_error(length: int, settings: TileSettings) -> Option<TileError> {
    if length < settings.tile_area() {
        Some(TileError::TooFewPixels)
    } else if tile_check(length, settings.image_size, settings.tile_extent()) is Some {
        tile_check(length, settings.image_size, settings.tile_extent())
    } else if !divides_evenly(settings.grid_extent(), settings.metatile_size) {
        Some(TileError::NotDivisible)
    } else {
        None
    }
}

/// The starting index moves the index of some pixel of the image past the
/// palette's limit. A starting index of zero moves nothing.
pub open spec fn index_too_high(data: Seq<Color>, settings: TileSettings) -> bool {
    let tiles = image_tiles(data, settings);
    let palette = palette_of(data, settings.transparent_color);
    settings.starting_palette_index != 0 && exists|t: int, k: int|
        0 <= t < tiles.len() && 0 <= k < tiles[t].len() && position_of(
            palette,
            #[trigger] tiles[t][k],
        ) + settings.starting_palette_index > settings.bpp.max_palette_length()
}

/// Why the image cannot be processed, if it cannot. The sizes are looked at
/// first, then the palette, then the indices; the truecolor depth has neither
/// palette nor indices.
pub open spec fn process_error(data: Seq<Color>, settings: TileSettings) -> Option<TileError> {
    if layout_error(data.len() as int, settings) is Some {
        layout_error(data.len() as int, settings)
    } else if !settings.bpp.has_palette() {
        None
    } else {
        match palette_outcome(data, settings) {
            Err(error) => Some(error),
            Ok(_) => if index_too_high(data, settings) {
                Some(TileError::StartingIndexTooHigh)
            } else {
                None
            },
        }
    }
}

/// The indices of tile number `t` of the output.
pub open spec fn output_tile_indices(data: Seq<Color>, settings: TileSettings, t: int) -> Seq<u32> {
    tile_indices(
        image_tiles(data, settings)[t],
        palette_of(data, settings.transparent_color),
        settings.starting_palette_index,
    )
}

/// The bytes of each tile of the output.
pub open spec fn output_tile_bytes(data: Seq<Color>, settings: TileSettings) -> Seq<Seq<u8>> {
    Seq::new(
        image_tiles(data, settings).len(),
        |t: int| pack_indices(settings.bpp, output_tile_indices(data, settings, t)),
    )
}

/// For each tile of the output, whether packing it loses an index.
pub open spec fn output_tile_overflows(data: Seq<Color>, settings: TileSettings) -> Seq<bool> {
    Seq::new(
        image_tiles(data, settings).len(),
        |t: int| overflows(settings.bpp, output_tile_indices(data, settings, t)),
    )
}

/// The image data: with a palette, the packed indices of the tiles in output
/// order; at the truecolor depth, the truecolor words of all pixels in the
/// order in which they were given, not cut into tiles.
pub open spec fn image_bytes(data: Seq<Color>, settings: TileSettings) -> Seq<u8> {
    if settings.bpp.has_palette() {
        output_tile_bytes(data, settings).flatten()
    } else {
        truecolor_bytes(data)
    }
}

/// The palette data: the palette's entries, and nothing at the truecolor depth.
pub open spec fn palette_data_bytes(data: Seq<Color>, settings: TileSettings) -> Seq<u8> {
    if settings.bpp.has_palette() {
        palette_bytes(palette_of(data, settings.transparent_color))
    } else {
        Seq::empty()
    }
}

/// The warnings: one for each tile of the output that lost an index.
pub open spec fn image_warnings(data: Seq<Color>, settings: TileSettings) -> Seq<Warning> {
    if settings.bpp.has_palette() {
        overflow_warnings(output_tile_overflows(data, settings))
    } else {
        Seq::empty()
    }
}

/// Where the sizes are in order, the extent of the grid is what the division
/// gives, without loss.
pub proof fn lemma_grid_extent(length: int, settings: TileSettings)
    requires
        tile_check(length, settings.image_size, settings.tile_extent()) is None,
    ensures
        settings.grid_extent().x == settings.image_size.x as int / settings.size_per_tile.x as int,
        settings.grid_extent().y == settings.image_size.y as int / settings.size_per_tile.y as int,
        extent_area(settings.grid_extent()) == grid_count(
            settings.image_size,
            settings.tile_extent(),
        ),
{
    lemma_grid_covers(settings.image_size, settings.tile_extent());
}

/// Where the sizes are in order, the output has one tile for each tile of the
/// image, every tile has `tile_area` pixels, and every pixel of every tile is
/// a pixel of the image.
pub proof fn lemma_image_tiles(data: Seq<Color>, settings: TileSettings)
    requires
        layout_error(data.len() as int, settings) is None,
    ensures
        image_tiles(data, settings).len() == grid_count(
            settings.image_size,
            settings.tile_extent(),
        ),
        forall|t: int|
            0 <= t < image_tiles(data, settings).len() ==> (#[trigger] image_tiles(
                data,
                settings,
            )[t]).len() == settings.tile_area(),
        extent_area(settings.image_size) <= data.len(),
        forall|t: int, k: int|
            0 <= t < image_tiles(data, settings).len() && 0 <= k < settings.tile_area() ==> 0
                <= #[trigger] pixel_source(settings, t, k) < extent_area(settings.image_size),
        forall|t: int, k: int|
            0 <= t < image_tiles(data, settings).len() && 0 <= k < settings.tile_area()
                ==> #[trigger] image_tiles(data, settings)[t][k] == data[pixel_source(
                settings,
                t,
                k,
            )],
{
    let image = settings.image_size;
    let tile = settings.tile_extent();
    let grid = settings.grid_extent();
    let meta = settings.metatile_size;
    let cut = tiled(data, image, tile);
    let tiles = image_tiles(data, settings);
    lemma_grid_extent(data.len() as int, settings);
    lemma_grid_covers(image, tile);
    lemma_grid_covers(grid, meta);
    assert(0 < extent_area(meta)) by (nonlinear_arith)
        requires
            extent_area(meta) == meta.x * meta.y,
            meta.x >= 1,
            meta.y >= 1,
    ;
    assert(0 <= extent_area(tile) == settings.tile_area()) by (nonlinear_arith)
        requires
            extent_area(tile) == tile.x * tile.y,
            tile.x == settings.size_per_tile.x,
            tile.y == settings.size_per_tile.y,
            settings.tile_area() == settings.size_per_tile.x * settings.size_per_tile.y,
    ;
    assert(tiles.len() == extent_area(grid));
    assert forall|t: int| 0 <= t < tiles.len() implies (#[trigger] tiles[t]).len()
        == settings.tile_area() by {
        lemma_cell_of(t, grid_count(grid, meta), extent_area(meta));
        lemma_source_index_in_bounds(grid, meta, t / extent_area(meta), t % extent_area(meta));
    }
    assert forall|t: int, k: int|
        0 <= t < tiles.len() && 0 <= k < settings.tile_area() implies 0 <= #[trigger] pixel_source(
        settings,
        t,
        k,
    ) < extent_area(image) && tiles[t][k] == data[pixel_source(settings, t, k)] by {
        lemma_cell_of(t, grid_count(grid, meta), extent_area(meta));
        let from = source_index(grid, meta, t / extent_area(meta), t % extent_area(meta));
        lemma_source_index_in_bounds(grid, meta, t / extent_area(meta), t % extent_area(meta));
        assert(tiles[t] == cut[from]);
        lemma_source_index_in_bounds(image, tile, from, k);
        assert(cut[from][k] == data[source_index(image, tile, from, k)]);
    }
    assert forall|t: int, k: int|
        0 <= t < tiles.len() && 0 <= k < settings.tile_area() implies #[trigger] tiles[t][k]
        == data[pixel_source(settings, t, k)] by {
        assert(0 <= pixel_source(settings, t, k));
    }
}

/// Where the sizes are in order, the palette holds every pixel of every tile
/// of the output, so that every pixel has an index of its own color.
pub proof fn lemma_image_tiles_in_palette(data: Seq<Color>, settings: TileSettings)
    requires
        layout_error(data.len() as int, settings) is None,
    ensures
        forall|t: int, k: int|
            0 <= t < image_tiles(data, settings).len() && 0 <= k < settings.tile_area()
                ==> palette_of(data, settings.transparent_color).contains(
                #[trigger] image_tiles(data, settings)[t][k],
            ),
{
    lemma_image_tiles(data, settings);
    lemma_palette_contents(data, settings.transparent_color);
    let palette = palette_of(data, settings.transparent_color);
    assert forall|t: int, k: int|
        0 <= t < image_tiles(data, settings).len() && 0 <= k < settings.tile_area()
            implies palette.contains(#[trigger] image_tiles(data, settings)[t][k]) by {
        let i = pixel_source(settings, t, k);
        assert(image_tiles(data, settings)[t][k] == data[i]);
        assert(palette.contains(data[i]));
    }
}

/// Tiles that were cut from the image and then put in metatile order, each by
/// cloning, are the tiles of the output.
pub proof fn lemma_output_tiles(
    data: Seq<Color>,
    settings: TileSettings,
    cut: Seq<Vec<Color>>,
    ordered: Seq<Vec<Color>>,
)
    requires
        layout_error(data.len() as int, settings) is None,
        is_tiling(cut, data, settings.image_size, settings.tile_extent()),
        is_sequential_tiling(ordered, cut, settings.grid_extent(), settings.metatile_size),
    ensures
        group_views(ordered) == image_tiles(data, settings),
{
    let image = settings.image_size;
    let tile = settings.tile_extent();
    let grid = settings.grid_extent();
    let meta = settings.metatile_size;
    let tiles = image_tiles(data, settings);
    let whole = tiled(data, image, tile);
    lemma_image_tiles(data, settings);
    lemma_grid_extent(data.len() as int, settings);
    lemma_grid_covers(image, tile);
    lemma_grid_covers(grid, meta);
    assert(0 < extent_area(meta)) by (nonlinear_arith)
        requires
            extent_area(meta) == meta.x * meta.y,
            meta.x >= 1,
            meta.y >= 1,
    ;
    assert(0 <= extent_area(tile)) by (nonlinear_arith)
        requires
            extent_area(tile) == tile.x * tile.y,
    ;
    assert forall|u: int| 0 <= u < cut.len() implies (#[trigger] cut[u])@ == whole[u] by {
        assert(is_tile_of(cut[u]@, data, image, tile, u));
        assert(cut[u]@ =~= whole[u]);
    }
    assert(ordered.len() == tiles.len());
    assert forall|p: int| 0 <= p < ordered.len() implies group_views(ordered)[p] == tiles[p] by {
        lemma_cell_of(p, grid_count(grid, meta), extent_area(meta));
        let from = source_index(grid, meta, p / extent_area(meta), p % extent_area(meta));
        lemma_source_index_in_bounds(grid, meta, p / extent_area(meta), p % extent_area(meta));
        assert(cloned(cut[from], ordered[p]));
        assert(ordered[p]@ =~= cut[from]@);
        assert(tiles[p] == whole[from]);
    }
    assert(group_views(ordered) =~= tiles);
}

/// What was written can be read back. For every pixel of every tile of the
/// output that the packed bytes hold and whose index fits the bit depth: the
/// tile's stretch of the image data gives an index which, less the starting
/// index, is an entry of the palette; that entry is the color of the pixel,
/// which is the pixel at `pixel_source` of the image; and the palette data
/// hold the 16-bit palette form of that color at that entry.
pub proof fn lemma_image_reversible(data: Seq<Color>, settings: TileSettings, t: int, k: int)
    requires
        settings.bpp.has_palette(),
        process_error(data, settings) is None,
        0 <= t < image_tiles(data, settings).len(),
        0 <= k < packed_count(settings.bpp, settings.tile_area()),
        position_of(
            palette_of(data, settings.transparent_color),
            image_tiles(data, settings)[t][k],
        ) + settings.starting_palette_index <= settings.bpp.max_index(),
    ensures
        ({
            let width = packed_length(settings.bpp, settings.tile_area());
            let palette = palette_of(data, settings.transparent_color);
            let pixel = data[pixel_source(settings, t, k)];
            let bytes = image_bytes(data, settings).subrange(t * width, (t + 1) * width);
            let entry = unpacked_index(settings.bpp, bytes, k) - settings.starting_palette_index;
            &&& image_bytes(data, settings).len() == image_tiles(data, settings).len() * width
            &&& 0 <= pixel_source(settings, t, k) < data.len()
            &&& image_tiles(data, settings)[t][k] == pixel
            &&& 0 <= entry < palette.len()
            &&& palette[entry] == pixel
            &&& palette_entry(palette_data_bytes(data, settings), entry) == color_rgb555(pixel)
        }),
{
    let tiles = image_tiles(data, settings);
    let palette = palette_of(data, settings.transparent_color);
    let start = settings.starting_palette_index;
    let area = settings.tile_area();
    let width = packed_length(settings.bpp, area);
    let parts = output_tile_bytes(data, settings);
    lemma_image_tiles(data, settings);
    lemma_image_tiles_in_palette(data, settings);
    assert(0 <= k < area);
    assert(0 < width);
    assert(tiles[t].take(area) =~= tiles[t]);
    assert(mapping_outcome(tiles[t], settings, palette) is Ok) by {
        assert forall|i: int| 0 <= i < area implies palette.contains(#[trigger] tiles[t][i]) by {}
        if start != 0 {
            assert forall|i: int| 0 <= i < area implies position_of(palette, #[trigger] tiles[t][i])
                + start <= settings.bpp.max_palette_length() by {}
        }
    }
    lemma_packing_reversible(tiles[t], palette, settings, k);
    assert forall|u: int| 0 <= u < parts.len() implies (#[trigger] parts[u]).len() == width by {
        assert(output_tile_indices(data, settings, u).len() == area);
    }
    lemma_flatten_uniform(parts, width);
    let whole = parts.flatten();
    let bytes = whole.subrange(t * width, (t + 1) * width);
    assert(0 <= t * width && (t + 1) * width == t * width + width && (t + 1) * width
        <= parts.len() * width) by (nonlinear_arith)
        requires
            0 <= t < parts.len(),
            0 < width,
    ;
    assert forall|j: int| 0 <= j < width implies bytes[j] == parts[t][j] by {
        crate::tiling::lemma_cell(t, j, parts.len() as int, width);
        assert(whole[t * width + j] == parts[(t * width + j) / width][(t * width + j) % width]);
    }
    assert(bytes =~= parts[t]);
}

} // verus!
