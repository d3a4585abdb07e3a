//! Cutting a picture into square tiles, each of which is rendered as one
//! task. The tiles cover the picture and no two of them share a pixel, so
//! the tasks can run in any order.

use vstd::prelude::*;

verus! {

/// The side of the tiles that a render uses.
pub const TILE_SIZE: usize = 16;

/// A rectangle of pixels: those in the columns from `x` up to `x + width`
/// and in the rows from `y` up to `y + height`.
#[derive(Clone, Copy, Debug, PartialEq, Eq, Structural)]
pub struct Tile {
    pub x: usize,
    pub y: usize,
    pub width: usize,
    pub height: usize,
}

impl Tile {
    /// Whether the pixel in column `px` of row `py` belongs to the tile.
    pub open spec fn contains(self, px: int, py: int) -> bool {
        &&& self.x <= px < self.x + self.width
        &&& self.y <= py < self.y + self.height
    }

    /// Whether the tile lies inside a picture of `width` by `height`
    /// pixels.
    pub open spec fn within(self, width: nat, height: nat) -> bool {
        &&& self.x + self.width <= width
        &&& self.y + self.height <= height
    }

    /// The number of pixels of the tile.
    pub open spec fn area(self) -> nat {
        (self.width * self.height) as nat
    }

    /// The `k`-th pixel of the tile, counting along its rows from its first
    /// row: the column and the row of that pixel in the picture.
    pub fn pixel(&self, k: usize) -> (p: (usize, usize))
        requires
            k < self.area(),
            self.x + self.width <= usize::MAX,
            self.y + self.height <= usize::MAX,
        ensures
            p.0 == self.x + k % self.width,
            p.1 == self.y + k / self.width,
            self.contains(p.0 as int, p.1 as int),
    {
        assert(self.width > 0) by (nonlinear_arith)
            requires
                k < self.width * self.height,
        ;
        assert(k / self.width < self.height) by (nonlinear_arith)
            requires
                k < self.width * self.height,
                self.width > 0,
        ;
        (self.x + k % self.width, self.y + k / self.width)
    }
}

/// The number of tiles of side `size` that it takes to cover `extent`
/// pixels: the last tile may be cut short.
pub open spec fn tile_count(extent: nat, size: nat) -> nat
    recommends
        size > 0,
{
    (extent + size - 1) as nat / size
}

/// How far tile `i` reaches along an axis of `extent` pixels: `size`
/// pixels, or as many as are left where the picture ends before that.
pub open spec fn span(extent: nat, size: nat, i: nat) -> nat {
    if (i + 1) * size <= extent {
        size
    } else {
        (extent - i * size) as nat
    }
}

/// The tile in column `i` and row `j` of the grid of tiles of side `size`
/// over a picture of `width` by `height` pixels.
pub open spec fn tile_at(width: nat, height: nat, size: nat, i: nat, j: nat) -> Tile
    recommends
        size > 0,
        i < tile_count(width, size),
        j < tile_count(height, size),
{
    Tile {
        x: (i * size) as usize,
        y: (j * size) as usize,
        width: span(width, size, i) as usize,
        height: span(height, size, j) as usize,
    }
}

/// The tiles of a picture, row of tiles after row of tiles.
pub open spec fn tiling(width: nat, height: nat, size: nat) -> Seq<Tile>
    recommends
        size > 0,
{
    let columns = tile_count(width, size);
    Seq::new(
        columns * tile_count(height, size),
        |k: int| tile_at(width, height, size, (k % columns as int) as nat, (k / columns as int) as nat),
    )
}

/// Tile `i` of an axis exists exactly when it starts inside the picture.
pub proof fn lemma_tile_starts_inside(extent: nat, size: nat, i: nat)
    requires
        size > 0,
    ensures
        i < tile_count(extent, size) <==> i * size < extent,
{
    assert(i < (extent + size - 1) / size as int <==> i * size < extent) by (nonlinear_arith)
        requires
            size > 0,
            extent >= 0,
            i >= 0,
    ;
}

/// A tile that exists starts inside the picture, reaches over at least one
/// pixel, and ends inside the picture.
pub proof fn lemma_span(extent: nat, size: nat, i: nat)
    requires
        size > 0,
        i < tile_count(extent, size),
    ensures
        i * size < extent,
        0 < span(extent, size, i) <= size,
        i * size + span(extent, size, i) <= extent,
{
    lemma_tile_starts_inside(extent, size, i);
    assert((i + 1) * size == i * size + size) by (nonlinear_arith);
}

/// Along one axis, a pixel lies in the tile that its position divided by
/// the side names.
pub proof fn lemma_axis(extent: nat, size: nat, p: nat)
    requires
        size > 0,
        p < extent,
    ensures
        p / size < tile_count(extent, size),
        (p / size) * size <= p < (p / size) * size + span(extent, size, p / size),
{
    let i = p / size;
    assert(i * size <= p < i * size + size) by (nonlinear_arith)
        requires
            size > 0,
            p >= 0,
            i == p / size,
    ;
    lemma_tile_starts_inside(extent, size, i);
    assert((i + 1) * size == i * size + size) by (nonlinear_arith);
}

/// Along one axis, a tile that holds a pixel is the one that the pixel's
/// position divided by the side names.
pub proof fn lemma_axis_only(extent: nat, size: nat, p: nat, i: nat)
    requires
        size > 0,
        i * size <= p < i * size + span(extent, size, i),
        i < tile_count(extent, size),
    ensures
        i == p / size,
{
    lemma_span(extent, size, i);
    assert(i == p / size) by (nonlinear_arith)
        requires
            size > 0,
            i * size <= p < i * size + size,
    ;
}

/// Every pixel of a picture belongs to the tile whose column is the
/// pixel's column divided by the side, and whose row is the pixel's row
/// divided by the side, and to no other tile of the grid.
pub proof fn lemma_tiles_partition(width: nat, height: nat, size: nat, px: nat, py: nat)
    requires
        size > 0,
        width <= usize::MAX,
        height <= usize::MAX,
        px < width,
        py < height,
    ensures
        px / size < tile_count(width, size),
        py / size < tile_count(height, size),
        tile_at(width, height, size, px / size, py / size).contains(px as int, py as int),
        forall|i: nat, j: nat|
            i < tile_count(width, size) && j < tile_count(height, size) && (#[trigger] tile_at(
                width,
                height,
                size,
                i,
                j,
            )).contains(px as int, py as int) ==> i == px / size && j == py / size,
{
    lemma_axis(width, size, px);
    lemma_axis(height, size, py);
    lemma_span(width, size, px / size);
    lemma_span(height, size, py / size);
    assert forall|i: nat, j: nat|
        i < tile_count(width, size) && j < tile_count(height, size) && (#[trigger] tile_at(
            width,
            height,
            size,
            i,
            j,
        )).contains(px as int, py as int) implies i == px / size && j == py / size by {
        lemma_span(width, size, i);
        lemma_span(height, size, j);
        lemma_axis_only(width, size, px, i);
        lemma_axis_only(height, size, py, j);
    }
}

/// Every pixel of a picture belongs to exactly one of the tiles into which
/// the picture is cut.
pub proof fn lemma_tiling_partition(width: nat, height: nat, size: nat, px: nat, py: nat)
    requires
        size > 0,
        width <= usize::MAX,
        height <= usize::MAX,
        px < width,
        py < height,
    ensures
        exists|k: int|
            {
                &&& 0 <= k < tiling(width, height, size).len()
                &&& (#[trigger] tiling(width, height, size)[k]).contains(px as int, py as int)
            },
        forall|k: int, l: int|
            {
                &&& 0 <= k < tiling(width, height, size).len()
                &&& 0 <= l < tiling(width, height, size).len()
                &&& (#[trigger] tiling(width, height, size)[k]).contains(px as int, py as int)
                &&& (#[trigger] tiling(width, height, size)[l]).contains(px as int, py as int)
            } ==> k == l,
{
    let columns = tile_count(width, size) as int;
    let rows = tile_count(height, size) as int;
    let all = tiling(width, height, size);
    lemma_tiles_partition(width, height, size, px, py);
    let i = (px / size) as int;
    let j = (py / size) as int;
    let at = j * columns + i;
    assert(at % columns == i && at / columns == j) by (nonlinear_arith)
        requires
            at == j * columns + i,
            0 <= i < columns,
            j >= 0,
    ;
    assert(0 <= at < columns * rows) by (nonlinear_arith)
        requires
            at == j * columns + i,
            0 <= i < columns,
            0 <= j < rows,
    ;
    assert(all[at].contains(px as int, py as int));
    assert forall|k: int|
        0 <= k < all.len() && (#[trigger] all[k]).contains(px as int, py as int) implies k == at by {
        let a = k % columns;
        let b = k / columns;
        assert(0 <= a < columns && 0 <= b < rows && k == b * columns + a) by (nonlinear_arith)
            requires
                0 <= k < columns * rows,
                columns > 0,
                a == k % columns,
                b == k / columns,
        ;
        assert(all[k] == tile_at(width, height, size, a as nat, b as nat));
    }
}

/// Every tile into which a picture is cut lies inside the picture and is
/// not empty.
pub proof fn lemma_tiling_within(width: nat, height: nat, size: nat, k: int)
    requires
        size > 0,
        width <= usize::MAX,
        height <= usize::MAX,
        0 <= k < tiling(width, height, size).len(),
    ensures
        tiling(width, height, size)[k].within(width, height),
        tiling(width, height, size)[k].width > 0,
        tiling(width, height, size)[k].height > 0,
{
    let columns = tile_count(width, size) as int;
    let rows = tile_count(height, size) as int;
    let a = k % columns;
    let b = k / columns;
    assert(0 <= a < columns && 0 <= b < rows) by (nonlinear_arith)
        requires
            0 <= k < columns * rows,
            columns >= 0,
            rows >= 0,
            a == k % columns,
            b == k / columns,
    ;
    lemma_span(width, size, a as nat);
    lemma_span(height, size, b as nat);
}

/// The number of tiles along one axis.
pub fn count_tiles(extent: usize, size: usize) -> (n: usize)
    requires
        size > 0,
    ensures
        n == tile_count(extent as nat, size as nat),
{
    assert(tile_count(extent as nat, size as nat) == if extent % size == 0 {
        extent as int / size as int
    } else {
        extent as int / size as int + 1
    }) by (nonlinear_arith)
        requires
            size > 0,
            extent >= 0,
            tile_count(extent as nat, size as nat) == (extent + size - 1) / size as int,
    ;
    assert(extent / size <= extent) by (nonlinear_arith)
        requires
            size > 0,
            extent >= 0,
    ;
    assert(extent % size != 0 ==> extent / size < extent) by (nonlinear_arith)
        requires
            size > 0,
            extent >= 0,
    ;
    if extent % size == 0 {
        extent / size
    } else {
        extent / size + 1
    }
}

/// Cuts a picture of `width` by `height` pixels into tiles of side `size`,
/// row of tiles after row of tiles.
pub fn tiles(width: usize, height: usize, size: usize) -> (r: Vec<Tile>)
    requires
        size > 0,
    ensures
        r@ == tiling(width as nat, height as nat, size as nat),
        forall|k: int| 0 <= k < r@.len() ==> (#[trigger] r@[k]).within(width as nat, height as nat),
{
    let columns = count_tiles(width, size);
    let rows = count_tiles(height, size);
    let ghost all = tiling(width as nat, height as nat, size as nat);
    let mut r: Vec<Tile> = Vec::new();
    let mut j: usize = 0;
    assert(0 * columns == 0);
    while j < rows
        invariant
            size > 0,
            j <= rows,
            columns == tile_count(width as nat, size as nat),
            rows == tile_count(height as nat, size as nat),
            all == tiling(width as nat, height as nat, size as nat),
            r@ == all.take(j * columns),
            forall|k: int|
                0 <= k < r@.len() ==> (#[trigger] r@[k]).within(width as nat, height as nat),
        decreases rows - j,
    {
        proof {
            lemma_span(height as nat, size as nat, j as nat);
            assert((j + 1) * columns == j * columns + columns) by (nonlinear_arith);
            assert((j + 1) * columns <= rows * columns) by (nonlinear_arith)
                requires
                    j + 1 <= rows,
                    columns >= 0,
            ;
        }
        let y: usize = j * size;
        let tall: usize = if height - y >= size {
            size
        } else {
            height - y
        };
        assert(tall == span(height as nat, size as nat, j as nat)) by {
            assert((j + 1) * size == j * size + size) by (nonlinear_arith);
        }
        let mut i: usize = 0;
        while i < columns
            invariant
                size > 0,
                j < rows,
                i <= columns,
                y == j * size,
                tall == span(height as nat, size as nat, j as nat),
                y + tall <= height,
                columns == tile_count(width as nat, size as nat),
                rows == tile_count(height as nat, size as nat),
                all == tiling(width as nat, height as nat, size as nat),
                (j + 1) * columns == j * columns + columns,
                (j + 1) * columns <= rows * columns,
                r@ == all.take(j * columns + i),
                forall|k: int|
                    0 <= k < r@.len() ==> (#[trigger] r@[k]).within(width as nat, height as nat),
            decreases columns - i,
        {
            proof {
                lemma_span(width as nat, size as nat, i as nat);
            }
            let x: usize = i * size;
            let wide: usize = if width - x >= size {
                size
            } else {
                width - x
            };
            let tile = Tile { x, y, width: wide, height: tall };
            proof {
                assert((i + 1) * size == i * size + size) by (nonlinear_arith);
                let k = j * columns + i;
                assert(k % columns as int == i && k / columns as int == j) by (nonlinear_arith)
                    requires
                        k == j * columns + i,
                        0 <= i < columns,
                        j >= 0,
                ;
                assert(all[k] == tile);
                assert(all.take(k).push(tile) == all.take(k + 1));
            }
            r.push(tile);
            i += 1;
        }
        j += 1;
    }
    proof {
        assert(rows * columns == columns * rows) by (nonlinear_arith);
        assert(all.take(all.len() as int) == all);
    }
    r
}

} // verus!
