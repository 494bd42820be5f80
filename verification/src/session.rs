//! The editing session: the tile map being edited, the selected tile and
//! layer, and the paint, erase and cycling operations. Cycling wraps at the
//! ends of its range; painting clamps out-of-range positions to the nearest
//! valid cell — these operations never fail.

use vstd::prelude::*;
use crate::grid::{grid_nonempty, grid_rect, spec_col_count, spec_row_count, Tilemap};
use crate::selector::spec_clamp;

verus! {

/// Where cycling the selected layer moves from `cur` within `[0, count)`.
pub open spec fn spec_cycle_layer(cur: int, count: int, forward: bool) -> int {
    if forward {
        if cur + 1 >= count {
            0
        } else {
            cur + 1
        }
    } else {
        if cur == 0 {
            count - 1
        } else {
            cur - 1
        }
    }
}

/// Where cycling the selected tile moves from `cur` within `[1, columns]`.
pub open spec fn spec_cycle_tile(cur: int, columns: int, forward: bool) -> int {
    if forward {
        if cur + 1 > columns {
            1
        } else {
            cur + 1
        }
    } else {
        if cur <= 1 {
            columns
        } else {
            cur - 1
        }
    }
}

/// The selected layer after `n` cycling steps.
pub open spec fn iter_cycle_layer(start: int, count: int, forward: bool, n: nat) -> int
    decreases n,
{
    if n == 0 {
        start
    } else {
        spec_cycle_layer(iter_cycle_layer(start, count, forward, (n - 1) as nat), count, forward)
    }
}

/// The selected tile after `n` cycling steps.
pub open spec fn iter_cycle_tile(start: int, columns: int, forward: bool, n: nat) -> int
    decreases n,
{
    if n == 0 {
        start
    } else {
        spec_cycle_tile(iter_cycle_tile(start, columns, forward, (n - 1) as nat), columns, forward)
    }
}

proof fn lemma_iter_cycle_layer(start: int, count: int, forward: bool, n: nat)
    requires
        0 <= start < count,
        n <= count,
    ensures
        iter_cycle_layer(start, count, forward, n) == (if forward {
            if start + n < count {
                start + n
            } else {
                start + n - count
            }
        } else {
            if start - n >= 0 {
                start - n
            } else {
                start - n + count
            }
        }),
    decreases n,
{
    if n > 0 {
        lemma_iter_cycle_layer(start, count, forward, (n - 1) as nat);
    }
}

proof fn lemma_iter_cycle_tile(start: int, columns: int, forward: bool, n: nat)
    requires
        1 <= start <= columns,
        n <= columns,
    ensures
        iter_cycle_tile(start, columns, forward, n) == (if forward {
            if start + n <= columns {
                start + n
            } else {
                start + n - columns
            }
        } else {
            if start - n >= 1 {
                start - n
            } else {
                start - n + columns
            }
        }),
    decreases n,
{
    if n > 0 {
        lemma_iter_cycle_tile(start, columns, forward, (n - 1) as nat);
    }
}

/// Wraparound: cycling the selected layer `count` times, in either
/// direction, returns to the starting layer.
pub proof fn lemma_cycle_layer_wraps(start: int, count: int, forward: bool)
    requires
        0 <= start < count,
    ensures
        iter_cycle_layer(start, count, forward, count as nat) == start,
{
    lemma_iter_cycle_layer(start, count, forward, count as nat);
}

/// Wraparound: cycling the selected tile over `columns` tileset columns
/// `columns` times, in either direction, returns to the starting tile.
pub proof fn lemma_cycle_tile_wraps(start: int, columns: int, forward: bool)
    requires
        1 <= start <= columns,
    ensures
        iter_cycle_tile(start, columns, forward, columns as nat) == start,
{
    lemma_iter_cycle_tile(start, columns, forward, columns as nat);
}

/// One editing session, owning the tile map it edits.
pub struct Session {
    pub tilemap: Tilemap,
    /// 1-based index into the tileset's columns; never 0, which means empty.
    pub selected_tile: u16,
    /// The layer receiving edits; always a valid layer index.
    pub selected_layer: usize,
    /// Whether the grid overlay is drawn.
    pub show_grid: bool,
}

impl Session {
    /// Well-formed: the map is rectangular and non-empty, the selected layer
    /// exists, and the selected tile is a 1-based tileset column.
    pub open spec fn wf(&self) -> bool {
        &&& self.tilemap.wf()
        &&& grid_nonempty(self.tilemap.grid())
        &&& self.selected_layer < self.tilemap.grid().len()
        &&& self.selected_tile >= 1
    }

    /// Start a session on a loaded map: first layer active, first tile
    /// selected, overlay on.
    pub fn new(tilemap: Tilemap) -> (s: Session)
        requires
            tilemap.wf(),
            grid_nonempty(tilemap.grid()),
        ensures
            s.wf(),
            s.tilemap == tilemap,
            s.selected_layer == 0,
            s.selected_tile == 1,
            s.show_grid == true,
    {
        Session { tilemap, selected_tile: 1, selected_layer: 0, show_grid: true }
    }

    /// Move the selected layer one step, wrapping at either end.
    pub fn cycle_layer(&mut self, forward: bool)
        requires
            old(self).wf(),
        ensures
            final(self).wf(),
            final(self).selected_layer as int == spec_cycle_layer(
                old(self).selected_layer as int,
                old(self).tilemap.grid().len() as int,
                forward,
            ),
            final(self).tilemap == old(self).tilemap,
            final(self).selected_tile == old(self).selected_tile,
            final(self).show_grid == old(self).show_grid,
    {
        let count = self.tilemap.tiles.len();
        if forward {
            if self.selected_layer + 1 >= count {
                self.selected_layer = 0;
            } else {
                self.selected_layer = self.selected_layer + 1;
            }
        } else {
            if self.selected_layer == 0 {
                self.selected_layer = count - 1;
            } else {
                self.selected_layer = self.selected_layer - 1;
            }
        }
    }

    /// Move the selected tile one step over the tileset's `columns` columns,
    /// wrapping over `[1, columns]`.
    pub fn cycle_tile(&mut self, forward: bool, columns: u16)
        requires
            old(self).wf(),
            columns >= 1,
        ensures
            final(self).wf(),
            final(self).selected_tile as int == spec_cycle_tile(
                old(self).selected_tile as int,
                columns as int,
                forward,
            ),
            final(self).tilemap == old(self).tilemap,
            final(self).selected_layer == old(self).selected_layer,
            final(self).show_grid == old(self).show_grid,
    {
        if forward {
            if self.selected_tile >= columns {
                self.selected_tile = 1;
            } else {
                self.selected_tile = self.selected_tile + 1;
            }
        } else {
            if self.selected_tile <= 1 {
                self.selected_tile = columns;
            } else {
                self.selected_tile = self.selected_tile - 1;
            }
        }
    }

    /// Write `value` into the active layer at the given tile position,
    /// clamped componentwise to the nearest valid cell of that layer.
    /// Exactly one cell changes; everything else stays as it was.
    pub fn paint_at(&mut self, x: i64, y: i64, value: u16)
        requires
            old(self).wf(),
        ensures
            final(self).wf(),
            ({
                let g = old(self).tilemap.grid();
                let l = old(self).selected_layer as int;
                let cy = spec_clamp(y as int, g[l].len() - 1);
                let cx = spec_clamp(x as int, g[l][cy].len() - 1);
                final(self).tilemap.grid() == g.update(
                    l,
                    g[l].update(cy, g[l][cy].update(cx, value)),
                )
            }),
            final(self).tilemap.tile_size == old(self).tilemap.tile_size,
            final(self).tilemap.tileset_path == old(self).tilemap.tileset_path,
            final(self).selected_tile == old(self).selected_tile,
            final(self).selected_layer == old(self).selected_layer,
            final(self).show_grid == old(self).show_grid,
    {
        let ghost g = self.tilemap.grid();
        let l = self.selected_layer;
        let rows_a = self.tilemap.tiles[l].len();
        proof {
            assert(g[l as int].len() == spec_row_count(g));
            assert(rows_a >= 1);
        }
        let cy: usize = if y < 0 {
            0
        } else if y as u64 >= rows_a as u64 {
            rows_a - 1
        } else {
            y as usize
        };
        let cols_a = self.tilemap.tiles[l][cy].len();
        proof {
            assert(g[l as int][cy as int].len() == spec_col_count(g));
            assert(cols_a >= 1);
        }
        let cx: usize = if x < 0 {
            0
        } else if x as u64 >= cols_a as u64 {
            cols_a - 1
        } else {
            x as usize
        };
        proof {
            assert(cy as int == spec_clamp(y as int, g[l as int].len() - 1));
            assert(cx as int == spec_clamp(x as int, g[l as int][cy as int].len() - 1));
        }
        self.tilemap.set(l, cy, cx, value);
        proof {
            let ng = self.tilemap.grid();
            assert(spec_row_count(ng) == spec_row_count(g));
            assert(ng[0].len() == g[0].len());
            assert forall|z: int, yy: int|
                0 <= z < ng.len() && 0 <= yy < ng[z].len() implies (#[trigger] ng[z][yy]).len()
                == spec_col_count(ng) by {
                assert(g[z].len() == spec_row_count(g));
                assert(g[z][yy].len() == spec_col_count(g));
            }
            assert(grid_rect(ng));
            assert(grid_nonempty(ng));
        }
    }

    /// Erase: paint the empty tile id.
    pub fn erase_at(&mut self, x: i64, y: i64)
        requires
            old(self).wf(),
        ensures
            final(self).wf(),
            ({
                let g = old(self).tilemap.grid();
                let l = old(self).selected_layer as int;
                let cy = spec_clamp(y as int, g[l].len() - 1);
                let cx = spec_clamp(x as int, g[l][cy].len() - 1);
                final(self).tilemap.grid() == g.update(
                    l,
                    g[l].update(cy, g[l][cy].update(cx, 0u16)),
                )
            }),
            final(self).tilemap.tile_size == old(self).tilemap.tile_size,
            final(self).tilemap.tileset_path == old(self).tilemap.tileset_path,
            final(self).selected_tile == old(self).selected_tile,
            final(self).selected_layer == old(self).selected_layer,
            final(self).show_grid == old(self).show_grid,
    {
        self.paint_at(x, y, 0)
    }

    /// Toggle the grid overlay.
    pub fn toggle_grid(&mut self)
        requires
            old(self).wf(),
        ensures
            final(self).wf(),
            final(self).show_grid == !old(self).show_grid,
            final(self).tilemap == old(self).tilemap,
            final(self).selected_tile == old(self).selected_tile,
            final(self).selected_layer == old(self).selected_layer,
    {
        self.show_grid = !self.show_grid;
    }
}

} // verus!
