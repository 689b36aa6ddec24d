use crate::basic_types::{TileError, Vector2};
use crate::sequences::group_views;
use vstd::arithmetic::div_mod::{lemma_fundamental_div_mod, lemma_fundamental_div_mod_converse};
use vstd::prelude::*;

verus! {

/// The number of items in a rectangle of this extent.
pub open spec fn extent_area(extent: Vector2<usize>) -> int {
    extent.x * extent.y
}

/// Both sides of `total` are whole multiples of the sides of `tile`.
pub open spec fn divides_evenly(total: Vector2<usize>, tile: Vector2<usize>) -> bool {
    &&& tile.x != 0
    &&& tile.y != 0
    &&& total.x as int % tile.x as int == 0
    &&& total.y as int % tile.y as int == 0
}

/// How many tiles lie side by side in one row of tiles.
pub open spec fn grid_columns(total: Vector2<usize>, tile: Vector2<usize>) -> int {
    total.x as int / tile.x as int
}

/// How many rows of tiles there are.
pub open spec fn grid_rows(total: Vector2<usize>, tile: Vector2<usize>) -> int {
    total.y as int / tile.y as int
}

/// How many tiles the grid has.
pub open spec fn grid_count(total: Vector2<usize>, tile: Vector2<usize>) -> int {
    grid_columns(total, tile) * grid_rows(total, tile)
}

/// Why a buffer of `length` items cannot be cut into tiles, if it cannot. Too
/// short a buffer is reported before a grid that does not divide.
pub open spec fn tile_check(length: int, total: Vector2<usize>, tile: Vector2<usize>) -> Option<
    TileError,
> {
    if length < extent_area(total) {
        Some(TileError::TooFewPixels)
    } else if !divides_evenly(total, tile) {
        Some(TileError::NotDivisible)
    } else {
        None
    }
}

/// Where in the row-major buffer the item at offset `k` of tile number `t` comes
/// from. Tiles are numbered row by row, and so are the items inside a tile.
pub open spec fn source_index(total: Vector2<usize>, tile: Vector2<usize>, t: int, k: int) -> int {
    let columns = grid_columns(total, tile);
    let row = (t / columns) * tile.y + k / (tile.x as int);
    let column = (t % columns) * tile.x + k % (tile.x as int);
    row * (columns * tile.x) + column
}

/// The tiles of a buffer, each a row-major sequence of its own items.
pub open spec fn tiled<T>(data: Seq<T>, total: Vector2<usize>, tile: Vector2<usize>) -> Seq<Seq<T>> {
    Seq::new(
        grid_count(total, tile) as nat,
        |t: int|
            Seq::new(extent_area(tile) as nat, |k: int| data[source_index(total, tile, t, k)]),
    )
}

/// The tiles of a buffer laid end to end.
pub open spec fn tiled_sequentially<T>(
    data: Seq<T>,
    total: Vector2<usize>,
    tile: Vector2<usize>,
) -> Seq<T> {
    Seq::new(
        (grid_count(total, tile) * extent_area(tile)) as nat,
        |p: int| data[source_index(total, tile, p / extent_area(tile), p % extent_area(tile))],
    )
}

/// `items` holds a clone of each item of tile number `t`, in order.
pub open spec fn is_tile_of<T: Clone>(
    items: Seq<T>,
    data: Seq<T>,
    total: Vector2<usize>,
    tile: Vector2<usize>,
    t: int,
) -> bool {
    &&& items.len() == extent_area(tile)
    &&& forall|k: int|
        0 <= k < items.len() ==> cloned(data[source_index(total, tile, t, k)], #[trigger] items[k])
}

/// `tiles` holds a clone of each tile of the buffer, in order.
pub open spec fn is_tiling<T: Clone>(
    tiles: Seq<Vec<T>>,
    data: Seq<T>,
    total: Vector2<usize>,
    tile: Vector2<usize>,
) -> bool {
    &&& tiles.len() == grid_count(total, tile)
    &&& forall|t: int|
        0 <= t < tiles.len() ==> is_tile_of((#[trigger] tiles[t])@, data, total, tile, t)
}

/// `flat` holds a clone of each item of each tile of the buffer, tile after tile.
pub open spec fn is_sequential_tiling<T: Clone>(
    flat: Seq<T>,
    data: Seq<T>,
    total: Vector2<usize>,
    tile: Vector2<usize>,
) -> bool {
    &&& flat.len() == grid_count(total, tile) * extent_area(tile)
    &&& forall|p: int|
        0 <= p < flat.len() ==> cloned(
            data[source_index(total, tile, p / extent_area(tile), p % extent_area(tile))],
            #[trigger] flat[p],
        )
}

/// The tile number in which the tiling puts the item at index `i` of the buffer.
pub open spec fn tile_number(total: Vector2<usize>, tile: Vector2<usize>, i: int) -> int {
    let row = i / (total.x as int);
    let column = i % (total.x as int);
    (row / (tile.y as int)) * grid_columns(total, tile) + column / (tile.x as int)
}

/// The offset inside its tile at which the tiling puts the item at index `i`.
pub open spec fn tile_offset(total: Vector2<usize>, tile: Vector2<usize>, i: int) -> int {
    let row = i / (total.x as int);
    let column = i % (total.x as int);
    (row % (tile.y as int)) * tile.x + column % (tile.x as int)
}

/// The buffer that a sequence of tiles was cut from: each item is read back from
/// the tile and offset that the tiling gave it.
pub open spec fn untiled<T>(tiles: Seq<Seq<T>>, total: Vector2<usize>, tile: Vector2<usize>) -> Seq<
    T,
> {
    Seq::new(
        extent_area(total) as nat,
        |i: int| tiles[tile_number(total, tile, i)][tile_offset(total, tile, i)],
    )
}

/// A cell `(a, b)` of an `n` by `m` table has number `a * m + b`, which is below
/// `n * m` and gives `a` and `b` back by division.
pub proof fn lemma_cell(a: int, b: int, n: int, m: int)
    requires
        0 <= a < n,
        0 <= b < m,
    ensures
        0 <= a * m + b < n * m,
        (a * m + b) / m == a,
        (a * m + b) % m == b,
{
    assert(0 <= a * m && a * m + m <= n * m) by (nonlinear_arith)
        requires
            0 <= a < n,
            0 < m,
    ;
    lemma_fundamental_div_mod_converse(a * m + b, m, a, b);
}

/// A number below `n * m` is a cell of an `n` by `m` table.
pub proof fn lemma_cell_of(p: int, n: int, m: int)
    requires
        0 <= p < n * m,
        0 < m,
    ensures
        0 <= p / m < n,
        0 <= p % m < m,
        p == (p / m) * m + p % m,
{
    lemma_fundamental_div_mod(p, m);
    let q = p / m;
    assert(0 <= q < n) by (nonlinear_arith)
        requires
            0 <= p < n * m,
            0 < m,
            p == m * q + p % m,
            0 <= p % m < m,
    ;
    assert((p / m) * m == m * (p / m)) by (nonlinear_arith);
}

/// Where the grid divides the extent, columns times tile width is the width,
/// and rows times tile height is the height.
pub proof fn lemma_grid_covers(total: Vector2<usize>, tile: Vector2<usize>)
    requires
        divides_evenly(total, tile),
    ensures
        grid_columns(total, tile) * tile.x == total.x,
        grid_rows(total, tile) * tile.y == total.y,
        0 <= grid_columns(total, tile) <= total.x,
        0 <= grid_rows(total, tile) <= total.y,
        grid_count(total, tile) * extent_area(tile) == extent_area(total),
        0 <= grid_count(total, tile) <= extent_area(total),
{
    let tw = tile.x as int;
    let th = tile.y as int;
    let c = grid_columns(total, tile);
    let r = grid_rows(total, tile);
    lemma_fundamental_div_mod(total.x as int, tw);
    lemma_fundamental_div_mod(total.y as int, th);
    assert(c * tw == tw * c) by (nonlinear_arith);
    assert(r * th == th * r) by (nonlinear_arith);
    assert(0 <= c <= c * tw) by (nonlinear_arith)
        requires
            0 <= c * tw,
            tw >= 1,
    ;
    assert(0 <= r <= r * th) by (nonlinear_arith)
        requires
            0 <= r * th,
            th >= 1,
    ;
    assert((c * r) * (tw * th) == (c * tw) * (r * th)) by (nonlinear_arith);
    assert(0 <= c * r <= (c * tw) * (r * th)) by (nonlinear_arith)
        requires
            0 <= c <= c * tw,
            0 <= r <= r * th,
    ;
}

/// The item at column `tx` and row `ty` of the tile at grid column `x` and grid
/// row `y` comes from row `y * tile.y + ty` and column `x * tile.x + tx` of the
/// image, and that place is inside the image.
pub proof fn lemma_source_index_of_cell(
    total: Vector2<usize>,
    tile: Vector2<usize>,
    x: int,
    y: int,
    tx: int,
    ty: int,
)
    requires
        divides_evenly(total, tile),
        0 <= x < grid_columns(total, tile),
        0 <= y < grid_rows(total, tile),
        0 <= tx < tile.x,
        0 <= ty < tile.y,
    ensures
        0 <= y * grid_columns(total, tile) + x < grid_count(total, tile),
        0 <= ty * tile.x + tx < extent_area(tile),
        source_index(
            total,
            tile,
            y * grid_columns(total, tile) + x,
            ty * tile.x + tx,
        ) == (y * tile.y + ty) * total.x + (x * tile.x + tx),
        0 <= y * tile.y + ty < total.y,
        0 <= x * tile.x + tx < total.x,
        0 <= (y * tile.y + ty) * total.x,
        (y * tile.y + ty) * total.x + (x * tile.x + tx) < extent_area(total),
{
    let tw = tile.x as int;
    let th = tile.y as int;
    let c = grid_columns(total, tile);
    let r = grid_rows(total, tile);
    lemma_grid_covers(total, tile);
    lemma_cell(y, x, r, c);
    assert(r * c == c * r) by (nonlinear_arith);
    lemma_cell(ty, tx, th, tw);
    assert(th * tw == tw * th) by (nonlinear_arith);
    lemma_cell(y, ty, r, th);
    lemma_cell(x, tx, c, tw);
    lemma_cell(y * th + ty, x * tw + tx, total.y as int, total.x as int);
    assert(0 <= (y * th + ty) * total.x) by (nonlinear_arith)
        requires
            0 <= y * th + ty,
            0 <= total.x,
    ;
}

/// Every item of every tile comes from inside the image.
pub proof fn lemma_source_index_in_bounds(
    total: Vector2<usize>,
    tile: Vector2<usize>,
    t: int,
    k: int,
)
    requires
        divides_evenly(total, tile),
        0 <= t < grid_count(total, tile),
        0 <= k < extent_area(tile),
    ensures
        0 <= source_index(total, tile, t, k) < extent_area(total),
        tile_number(total, tile, source_index(total, tile, t, k)) == t,
        tile_offset(total, tile, source_index(total, tile, t, k)) == k,
{
    let tw = tile.x as int;
    let th = tile.y as int;
    let c = grid_columns(total, tile);
    let r = grid_rows(total, tile);
    lemma_grid_covers(total, tile);
    assert(c > 0) by (nonlinear_arith)
        requires
            0 <= t < c * r,
            0 <= c,
    ;
    assert(r * c == c * r) by (nonlinear_arith);
    lemma_cell_of(t, r, c);
    assert(th * tw == tw * th) by (nonlinear_arith);
    lemma_cell_of(k, th, tw);
    let y = t / c;
    let x = t % c;
    let ty = k / tw;
    let tx = k % tw;
    lemma_source_index_of_cell(total, tile, x, y, tx, ty);
    let row = y * th + ty;
    let column = x * tw + tx;
    lemma_cell(row, column, total.y as int, total.x as int);
    lemma_cell(y, ty, r, th);
    lemma_cell(x, tx, c, tw);
}

/// Every index of the image is the source of exactly the item that
/// `tile_number` and `tile_offset` name.
pub proof fn lemma_tile_position(total: Vector2<usize>, tile: Vector2<usize>, i: int)
    requires
        divides_evenly(total, tile),
        0 <= i < extent_area(total),
    ensures
        0 <= tile_number(total, tile, i) < grid_count(total, tile),
        0 <= tile_offset(total, tile, i) < extent_area(tile),
        source_index(total, tile, tile_number(total, tile, i), tile_offset(total, tile, i)) == i,
{
    let tw = tile.x as int;
    let th = tile.y as int;
    let c = grid_columns(total, tile);
    let r = grid_rows(total, tile);
    lemma_grid_covers(total, tile);
    assert(total.x > 0) by (nonlinear_arith)
        requires
            0 <= i < total.x * total.y,
            0 <= total.x,
    ;
    assert(total.y * total.x == total.x * total.y) by (nonlinear_arith);
    lemma_cell_of(i, total.y as int, total.x as int);
    let row = i / (total.x as int);
    let column = i % (total.x as int);
    lemma_cell_of(row, r, th);
    lemma_cell_of(column, c, tw);
    let y = row / th;
    let ty = row % th;
    let x = column / tw;
    let tx = column % tw;
    lemma_source_index_of_cell(total, tile, x, y, tx, ty);
    lemma_cell(y, x, r, c);
    lemma_cell(ty, tx, th, tw);
}

/// For a type whose clones are equal to what they were cloned from, the tiles
/// that hold clones of the buffer's items are the tiles of the buffer.
pub proof fn lemma_tiling_of_equal_clones<T: Clone>(
    tiles: Seq<Vec<T>>,
    data: Seq<T>,
    total: Vector2<usize>,
    tile: Vector2<usize>,
)
    requires
        divides_evenly(total, tile),
        is_tiling(tiles, data, total, tile),
        forall|a: T, b: T| #[trigger] cloned(a, b) ==> a == b,
    ensures
        group_views(tiles) == tiled(data, total, tile),
{
    let whole = tiled(data, total, tile);
    lemma_grid_covers(total, tile);
    assert(0 <= extent_area(tile)) by (nonlinear_arith)
        requires
            extent_area(tile) == tile.x * tile.y,
    ;
    assert forall|t: int| 0 <= t < tiles.len() implies group_views(tiles)[t] == whole[t] by {
        assert(is_tile_of(tiles[t]@, data, total, tile, t));
        assert(tiles[t]@ =~= whole[t]);
    }
    assert(group_views(tiles) =~= whole);
}

/// For a type whose clones are equal to what they were cloned from, the
/// sequence that holds clones of the items of all tiles is the tiles laid end
/// to end.
pub proof fn lemma_sequential_tiling_of_equal_clones<T: Clone>(
    flat: Seq<T>,
    data: Seq<T>,
    total: Vector2<usize>,
    tile: Vector2<usize>,
)
    requires
        divides_evenly(total, tile),
        is_sequential_tiling(flat, data, total, tile),
        forall|a: T, b: T| #[trigger] cloned(a, b) ==> a == b,
    ensures
        flat == tiled_sequentially(data, total, tile),
{
    lemma_grid_covers(total, tile);
    assert(0 <= extent_area(tile)) by (nonlinear_arith)
        requires
            extent_area(tile) == tile.x * tile.y,
    ;
    assert(0 <= grid_count(total, tile) * extent_area(tile)) by (nonlinear_arith)
        requires
            0 <= grid_count(total, tile),
            0 <= extent_area(tile),
    ;
    assert(flat =~= tiled_sequentially(data, total, tile));
}

/// Cutting a buffer into tiles and reading every item back from its tile gives
/// the buffer again, up to the image's area: nothing is lost, moved or doubled.
pub proof fn lemma_tiling_round_trip<T>(data: Seq<T>, total: Vector2<usize>, tile: Vector2<usize>)
    requires
        tile_check(data.len() as int, total, tile) is None,
    ensures
        untiled(tiled(data, total, tile), total, tile) == data.take(extent_area(total)),
        data.len() == extent_area(total) ==> untiled(tiled(data, total, tile), total, tile)
            == data,
{
    let tiles = tiled(data, total, tile);
    let back = untiled(tiles, total, tile);
    assert(0 <= extent_area(total)) by (nonlinear_arith)
        requires
            0 <= total.x,
            0 <= total.y,
    ;
    assert forall|i: int| 0 <= i < extent_area(total) implies back[i] == data[i] by {
        lemma_tile_position(total, tile, i);
    }
    assert(back =~= data.take(extent_area(total)));
    if data.len() == extent_area(total) {
        assert(data.take(extent_area(total)) =~= data);
    }
}

/// Tiles laid end to end are the concatenation of the tiles.
pub proof fn lemma_tiled_sequentially_is_flattened<T>(
    data: Seq<T>,
    total: Vector2<usize>,
    tile: Vector2<usize>,
)
    requires
        divides_evenly(total, tile),
    ensures
        tiled_sequentially(data, total, tile) == tiled(data, total, tile).flatten(),
{
    let tiles = tiled(data, total, tile);
    lemma_grid_covers(total, tile);
    assert(0 <= extent_area(tile)) by (nonlinear_arith)
        requires
            0 <= tile.x,
            0 <= tile.y,
    ;
    lemma_flatten_uniform(tiles, extent_area(tile));
    let flat = tiles.flatten();
    let direct = tiled_sequentially(data, total, tile);
    assert(0 <= grid_count(total, tile) * extent_area(tile)) by (nonlinear_arith)
        requires
            0 <= grid_count(total, tile),
            0 <= extent_area(tile),
    ;
    assert(flat.len() == direct.len());
    assert forall|p: int| 0 <= p < direct.len() implies flat[p] == direct[p] by {
        lemma_cell_of(p, grid_count(total, tile), extent_area(tile));
    }
    assert(direct =~= flat);
}

/// In the concatenation of sequences that all have length `width`, the item at
/// position `p` is item `p % width` of sequence `p / width`.
pub proof fn lemma_flatten_uniform<T>(parts: Seq<Seq<T>>, width: int)
    requires
        0 <= width,
        forall|t: int| 0 <= t < parts.len() ==> (#[trigger] parts[t]).len() == width,
    ensures
        parts.flatten().len() == parts.len() * width,
        forall|p: int|
            0 <= p < parts.len() * width ==> (#[trigger] parts.flatten()[p]) == parts[p
                / width][p % width],
    decreases parts.len(),
{
    if parts.len() == 0 {
        assert(parts.len() * width == 0) by (nonlinear_arith)
            requires
                parts.len() == 0,
        ;
    } else {
        let rest = parts.drop_first();
        lemma_flatten_uniform(rest, width);
        assert(parts.len() * width == width + rest.len() * width) by (nonlinear_arith)
            requires
                parts.len() == rest.len() + 1,
        ;
        assert(parts.flatten() == parts.first() + rest.flatten());
        assert forall|p: int| 0 <= p < parts.len() * width implies (#[trigger] parts.flatten()[p])
            == parts[p / width][p % width] by {
            lemma_cell_of(p, parts.len() as int, width);
            if p < width {
                lemma_fundamental_div_mod_converse(p, width, 0, p);
            } else {
                let q = p - width;
                lemma_cell_of(q, rest.len() as int, width);
                assert(p == (q / width + 1) * width + q % width) by (nonlinear_arith)
                    requires
                        q == (q / width) * width + q % width,
                        p == q + width,
                ;
                lemma_fundamental_div_mod_converse(p, width, q / width + 1, q % width);
                assert(rest[q / width] == parts[q / width + 1]);
            }
        }
    }
}

} // verus!
