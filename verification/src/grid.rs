//! The tile grid: a 3D array of tile ids indexed by layer, row and column.
//! Tile id 0 means "empty / no tile"; a positive id is a 1-based column index
//! into the tileset image strip.

use vstd::prelude::*;

verus! {

/// Row count of a grid, read from the first layer (every layer of a
/// rectangular grid has the same row count).
pub open spec fn spec_row_count(g: Seq<Seq<Seq<u16>>>) -> nat {
    if g.len() == 0 {
        0
    } else {
        g[0].len()
    }
}

/// Column count of a grid, read from the first row of the first layer.
pub open spec fn spec_col_count(g: Seq<Seq<Seq<u16>>>) -> nat {
    if g.len() == 0 || g[0].len() == 0 {
        0
    } else {
        g[0][0].len()
    }
}

/// The grid is rectangular: every layer has the same row count and every row
/// the same column count.
pub open spec fn grid_rect(g: Seq<Seq<Seq<u16>>>) -> bool {
    &&& forall|z: int| 0 <= z < g.len() ==> (#[trigger] g[z]).len() == spec_row_count(g)
    &&& forall|z: int, y: int|
        0 <= z < g.len() && 0 <= y < g[z].len() ==> (#[trigger] g[z][y]).len() == spec_col_count(g)
}

/// The grid has at least one layer, one row and one column.
pub open spec fn grid_nonempty(g: Seq<Seq<Seq<u16>>>) -> bool {
    g.len() > 0 && spec_row_count(g) > 0 && spec_col_count(g) > 0
}

/// A tile map: the tile grid plus the path of the tileset image it draws
/// from and the pixel size of one square tile of that image.
pub struct Tilemap {
    /// Path of the tileset image, as raw bytes; it may not contain a
    /// double-quote byte, since the codec delimits it with quotes.
    pub tileset_path: Vec<u8>,
    /// Pixel size of one square tile in the tileset strip (strictly positive).
    pub tile_size: u16,
    /// The tile ids, indexed by layer, then row, then column.
    pub tiles: Vec<Vec<Vec<u16>>>,
}

impl Tilemap {
    /// The mathematical grid: layers of rows of tile ids.
    pub open spec fn grid(&self) -> Seq<Seq<Seq<u16>>> {
        self.tiles.deep_view()
    }

    /// Well-formed: rectangular grid and a positive tile size.
    pub open spec fn wf(&self) -> bool {
        grid_rect(self.grid()) && self.tile_size > 0
    }

    /// Counts derived from the nested structure itself: layers, rows, columns.
    pub fn dimensions(&self) -> (r: (usize, usize, usize))
        ensures
            r.0 == self.grid().len(),
            r.1 == spec_row_count(self.grid()),
            r.2 == spec_col_count(self.grid()),
    {
        if self.tiles.len() == 0 {
            (0, 0, 0)
        } else if self.tiles[0].len() == 0 {
            (self.tiles.len(), 0, 0)
        } else {
            (self.tiles.len(), self.tiles[0].len(), self.tiles[0][0].len())
        }
    }

    /// Read one cell.
    pub fn get(&self, layer: usize, row: usize, col: usize) -> (r: u16)
        requires
            layer < self.grid().len(),
            row < self.grid()[layer as int].len(),
            col < self.grid()[layer as int][row as int].len(),
        ensures
            r == self.grid()[layer as int][row as int][col as int],
    {
        self.tiles[layer][row][col]
    }

    /// Overwrite one cell in place; every other cell, the path and the tile
    /// size stay as they were.
    pub fn set(&mut self, layer: usize, row: usize, col: usize, value: u16)
        requires
            layer < old(self).grid().len(),
            row < old(self).grid()[layer as int].len(),
            col < old(self).grid()[layer as int][row as int].len(),
        ensures
            final(self).grid() == old(self).grid().update(
                layer as int,
                old(self).grid()[layer as int].update(
                    row as int,
                    old(self).grid()[layer as int][row as int].update(col as int, value),
                ),
            ),
            final(self).tileset_path == old(self).tileset_path,
            final(self).tile_size == old(self).tile_size,
    {
        self.tiles[layer][row][col] = value;
        proof {
            assert(final(self).grid() =~~= old(self).grid().update(
                layer as int,
                old(self).grid()[layer as int].update(
                    row as int,
                    old(self).grid()[layer as int][row as int].update(col as int, value),
                ),
            ));
        }
    }

    /// A blank map: one layer of `rows` x `cols` empty cells.
    pub fn new_blank(rows: usize, cols: usize, tile_size: u16, tileset_path: Vec<u8>) -> (r: Tilemap)
        requires
            rows > 0,
            cols > 0,
            tile_size > 0,
        ensures
            r.wf(),
            grid_nonempty(r.grid()),
            r.grid().len() == 1,
            spec_row_count(r.grid()) == rows,
            spec_col_count(r.grid()) == cols,
            forall|y: int, x: int|
                0 <= y < rows && 0 <= x < cols ==> r.grid()[0][y][x] == 0u16,
            r.tile_size == tile_size,
            r.tileset_path == tileset_path,
    {
        let mut layer: Vec<Vec<u16>> = Vec::new();
        let mut y: usize = 0;
        while y < rows
            invariant
                y <= rows,
                layer.len() == y,
                forall|j: int| 0 <= j < y ==> (#[trigger] layer@[j])@.len() == cols,
                forall|j: int, i: int|
                    0 <= j < y && 0 <= i < cols ==> #[trigger] layer@[j]@[i] == 0u16,
            decreases rows - y,
        {
            let mut row: Vec<u16> = Vec::new();
            let mut x: usize = 0;
            while x < cols
                invariant
                    x <= cols,
                    row.len() == x,
                    forall|i: int| 0 <= i < x ==> row[i] == 0u16,
                decreases cols - x,
            {
                row.push(0);
                x = x + 1;
            }
            layer.push(row);
            y = y + 1;
        }
        let mut tiles: Vec<Vec<Vec<u16>>> = Vec::new();
        tiles.push(layer);
        let r = Tilemap { tileset_path, tile_size, tiles };
        proof {
            assert(r.grid().len() == 1);
            assert(r.grid()[0] == layer.deep_view());
            assert(r.grid()[0].len() == rows);
            assert forall|y0: int, x0: int|
                0 <= y0 < rows && 0 <= x0 < cols implies r.grid()[0][y0][x0] == 0u16 by {
                assert(r.grid()[0][y0] == layer@[y0].deep_view());
                assert(layer@[y0].deep_view()[x0] == layer@[y0]@[x0]);
            }
            assert forall|y0: int| 0 <= y0 < rows implies (#[trigger] r.grid()[0][y0]).len() == cols by {
                assert(r.grid()[0][y0] == layer@[y0].deep_view());
            }
            assert(grid_rect(r.grid()));
        }
        r
    }
}

impl Default for Tilemap {
    /// An empty map with the default tile size; no layers until one is
    /// loaded or built.
    fn default() -> (r: Self)
        ensures
            r.wf(),
            r.grid().len() == 0,
            r.tile_size == 16,
            r.tileset_path@ == Seq::<u8>::empty(),
    {
        let r = Tilemap { tileset_path: Vec::new(), tile_size: 16, tiles: Vec::new() };
        proof {
            assert(r.tileset_path@ =~= Seq::<u8>::empty());
        }
        r
    }
}

} // verus!
