//! The render selector: given a tile-coordinate window, a layer range and
//! the active layer, compute the ordered draw directives for every visible,
//! non-empty cell. Later layers come after earlier ones, rows top to bottom,
//! columns left to right — the compositing order.

use vstd::prelude::*;
use crate::grid::{spec_col_count, spec_row_count, Tilemap};

verus! {

/// How a directive is tinted: the active layer draws at full opacity, every
/// other layer is dimmed for context.
#[derive(Clone, Copy, Debug, PartialEq, Eq, Structural)]
pub enum Tint {
    Active,
    Dimmed,
}

/// One unit of "draw this tile there": grid cell, tile id, destination pixel
/// position, x offset of the square source rectangle in the tileset strip,
/// and tint.
#[derive(Clone, Copy, Debug, PartialEq, Eq, Structural)]
pub struct DrawDirective {
    pub layer: usize,
    pub row: usize,
    pub col: usize,
    pub tile_id: u16,
    pub dest_x_px: u64,
    pub dest_y_px: u64,
    pub src_x_px: u64,
    pub tint: Tint,
}

/// The requested window: a tile-coordinate rectangle (half-open, clamped
/// into the grid), a half-open layer range, and the active layer.
#[derive(Clone, Copy, Debug, PartialEq, Eq, Structural)]
pub struct TilemapRenderParams {
    pub min_tile_x: i64,
    pub min_tile_y: i64,
    pub max_tile_x: i64,
    pub max_tile_y: i64,
    pub min_render_layer: usize,
    pub max_render_layer: usize,
    pub active_layer: usize,
}

impl Default for TilemapRenderParams {
    /// The whole map: a window no grid exceeds.
    fn default() -> (r: Self)
        ensures
            r.min_tile_x == 0 && r.min_tile_y == 0,
            r.max_tile_x == i64::MAX && r.max_tile_y == i64::MAX,
            r.min_render_layer == 0,
            r.max_render_layer == usize::MAX,
            r.active_layer == 0,
    {
        TilemapRenderParams {
            min_tile_x: 0,
            min_tile_y: 0,
            max_tile_x: i64::MAX,
            max_tile_y: i64::MAX,
            min_render_layer: 0,
            max_render_layer: usize::MAX,
            active_layer: 0,
        }
    }
}

/// Clamp `v` into `[0, hi]`.
pub open spec fn spec_clamp(v: int, hi: int) -> int {
    if v < 0 {
        0
    } else if v > hi {
        hi
    } else {
        v
    }
}

/// The directives for one cell: none for an empty cell, otherwise one, at
/// pixel position `(x, y) * tile_size`, sourcing column `tile_id - 1` of the
/// tileset strip, tinted by whether the layer is active.
pub open spec fn spec_cell(id: u16, z: int, y: int, x: int, ts: u16, active: int) -> Seq<
    DrawDirective,
> {
    if id == 0 {
        Seq::empty()
    } else {
        seq![
            DrawDirective {
                layer: z as usize,
                row: y as usize,
                col: x as usize,
                tile_id: id,
                dest_x_px: (x * ts) as u64,
                dest_y_px: (y * ts) as u64,
                src_x_px: ((id - 1) * ts) as u64,
                tint: if z == active {
                    Tint::Active
                } else {
                    Tint::Dimmed
                },
            },
        ]
    }
}

/// The directives of columns `[x0, x1)` of one row, left to right.
pub open spec fn sel_row(
    row: Seq<u16>,
    z: int,
    y: int,
    x0: int,
    x1: int,
    ts: u16,
    active: int,
) -> Seq<DrawDirective>
    decreases x1 - x0,
{
    if x1 <= x0 {
        Seq::empty()
    } else {
        sel_row(row, z, y, x0, x1 - 1, ts, active) + spec_cell(row[x1 - 1], z, y, x1 - 1, ts, active)
    }
}

/// The directives of rows `[y0, y1)` of one layer, top to bottom.
pub open spec fn sel_layer(
    l: Seq<Seq<u16>>,
    z: int,
    y0: int,
    y1: int,
    x0: int,
    x1: int,
    ts: u16,
    active: int,
) -> Seq<DrawDirective>
    decreases y1 - y0,
{
    if y1 <= y0 {
        Seq::empty()
    } else {
        sel_layer(l, z, y0, y1 - 1, x0, x1, ts, active) + sel_row(
            l[y1 - 1],
            z,
            y1 - 1,
            x0,
            x1,
            ts,
            active,
        )
    }
}

/// The directives of layers `[z0, z1)`, back to front.
pub open spec fn sel_grid(
    g: Seq<Seq<Seq<u16>>>,
    z0: int,
    z1: int,
    y0: int,
    y1: int,
    x0: int,
    x1: int,
    ts: u16,
    active: int,
) -> Seq<DrawDirective>
    decreases z1 - z0,
{
    if z1 <= z0 {
        Seq::empty()
    } else {
        sel_grid(g, z0, z1 - 1, y0, y1, x0, x1, ts, active) + sel_layer(
            g[z1 - 1],
            z1 - 1,
            y0,
            y1,
            x0,
            x1,
            ts,
            active,
        )
    }
}

/// What rendering yields: the window clamped componentwise into the grid's
/// counts, then every non-empty cell of the clamped ranges in layer, row,
/// column order.
pub open spec fn spec_render(g: Seq<Seq<Seq<u16>>>, ts: u16, p: TilemapRenderParams) -> Seq<
    DrawDirective,
> {
    let x0 = spec_clamp(p.min_tile_x as int, spec_col_count(g) as int);
    let x1 = spec_clamp(p.max_tile_x as int, spec_col_count(g) as int);
    let y0 = spec_clamp(p.min_tile_y as int, spec_row_count(g) as int);
    let y1 = spec_clamp(p.max_tile_y as int, spec_row_count(g) as int);
    let z0 = spec_clamp(p.min_render_layer as int, g.len() as int);
    let z1 = spec_clamp(p.max_render_layer as int, g.len() as int);
    sel_grid(g, z0, z1, y0, y1, x0, x1, ts, p.active_layer as int)
}

/// Clamp a signed tile coordinate into `[0, hi]`.
fn clamp_coord(v: i64, hi: usize) -> (r: usize)
    ensures
        r == spec_clamp(v as int, hi as int),
{
    if v < 0 {
        0
    } else if v as u64 > hi as u64 {
        hi
    } else {
        v as usize
    }
}

/// Clamp a layer index into `[0, hi]`.
fn clamp_layer(v: usize, hi: usize) -> (r: usize)
    ensures
        r == spec_clamp(v as int, hi as int),
{
    if v > hi {
        hi
    } else {
        v
    }
}

impl Tilemap {
    /// Compute the draw directives for the requested window, in compositing
    /// order. An empty window yields no directives; empty cells are skipped.
    #[verifier::loop_isolation(false)]
    pub fn render(&self, params: TilemapRenderParams) -> (r: Vec<DrawDirective>)
        requires
            self.wf(),
            spec_col_count(self.grid()) * self.tile_size <= u64::MAX,
            spec_row_count(self.grid()) * self.tile_size <= u64::MAX,
        ensures
            r@ == spec_render(self.grid(), self.tile_size, params),
    {
        let ghost g = self.grid();
        let ghost act = params.active_layer as int;
        let (lc, rc, cc) = self.dimensions();
        let x0 = clamp_coord(params.min_tile_x, cc);
        let x1 = clamp_coord(params.max_tile_x, cc);
        let y0 = clamp_coord(params.min_tile_y, rc);
        let y1 = clamp_coord(params.max_tile_y, rc);
        let z0 = clamp_layer(params.min_render_layer, lc);
        let z1 = clamp_layer(params.max_render_layer, lc);
        let ts = self.tile_size;
        let mut out: Vec<DrawDirective> = Vec::new();
        let mut z: usize = z0;
        while z < z1
            invariant
                z0 <= z <= lc,
                z1 <= lc ==> z <= if z0 > z1 {
                    z0
                } else {
                    z1
                },
                out@ == sel_grid(g, z0 as int, z as int, y0 as int, y1 as int, x0 as int, x1 as int, ts, act),
            decreases z1 - z,
        {
            let ghost out_z = out@;
            let mut y: usize = y0;
            while y < y1
                invariant
                    y0 <= y <= rc,
                    y1 <= rc ==> y <= if y0 > y1 {
                        y0
                    } else {
                        y1
                    },
                    z < z1 <= lc,
                    out@ == out_z + sel_layer(g[z as int], z as int, y0 as int, y as int, x0 as int, x1 as int, ts, act),
                decreases y1 - y,
            {
                let ghost out_y = out@;
                let mut x: usize = x0;
                while x < x1
                    invariant
                        x0 <= x <= cc,
                        x1 <= cc ==> x <= if x0 > x1 {
                            x0
                        } else {
                            x1
                        },
                        z < z1 <= lc,
                        y < y1 <= rc,
                        out@ == out_y + sel_row(g[z as int][y as int], z as int, y as int, x0 as int, x as int, ts, act),
                    decreases x1 - x,
                {
                    proof {
                        assert(g[z as int].len() == rc);
                        assert(g[z as int][y as int].len() == cc);
                    }
                    let id = self.get(z, y, x);
                    if id != 0 {
                        proof {
                            assert((x as int) * (ts as int) <= (cc as int) * (ts as int)) by (nonlinear_arith)
                                requires
                                    0 <= x as int <= cc as int,
                                    0 <= ts as int,
                            ;
                            assert((y as int) * (ts as int) <= (rc as int) * (ts as int)) by (nonlinear_arith)
                                requires
                                    0 <= y as int <= rc as int,
                                    0 <= ts as int,
                            ;
                            assert(((id - 1) as int) * (ts as int) <= 65535 * 65535) by (nonlinear_arith)
                                requires
                                    0 <= (id - 1) as int <= 65535,
                                    0 <= ts as int <= 65535,
                            ;
                        }
                        let d = DrawDirective {
                            layer: z,
                            row: y,
                            col: x,
                            tile_id: id,
                            dest_x_px: (x as u64) * (ts as u64),
                            dest_y_px: (y as u64) * (ts as u64),
                            src_x_px: ((id - 1) as u64) * (ts as u64),
                            tint: if z == params.active_layer {
                                Tint::Active
                            } else {
                                Tint::Dimmed
                            },
                        };
                        out.push(d);
                        proof {
                            assert(spec_cell(id, z as int, y as int, x as int, ts, act) =~= seq![d]);
                        }
                    }
                    proof {
                        assert(out@ =~= out_y + sel_row(
                            g[z as int][y as int],
                            z as int,
                            y as int,
                            x0 as int,
                            x + 1,
                            ts,
                            act,
                        ));
                    }
                    x = x + 1;
                }
                proof {
                    if x1 <= x0 {
                        assert(sel_row(g[z as int][y as int], z as int, y as int, x0 as int, x1 as int, ts, act)
                            =~= sel_row(g[z as int][y as int], z as int, y as int, x0 as int, x as int, ts, act));
                    }
                    assert(out@ =~= out_z + sel_layer(
                        g[z as int],
                        z as int,
                        y0 as int,
                        y + 1,
                        x0 as int,
                        x1 as int,
                        ts,
                        act,
                    ));
                }
                y = y + 1;
            }
            proof {
                if y1 <= y0 {
                    assert(sel_layer(g[z as int], z as int, y0 as int, y1 as int, x0 as int, x1 as int, ts, act)
                        =~= sel_layer(g[z as int], z as int, y0 as int, y as int, x0 as int, x1 as int, ts, act));
                }
                assert(out@ =~= sel_grid(g, z0 as int, z + 1, y0 as int, y1 as int, x0 as int, x1 as int, ts, act));
            }
            z = z + 1;
        }
        proof {
            if z1 <= z0 {
                assert(sel_grid(g, z0 as int, z1 as int, y0 as int, y1 as int, x0 as int, x1 as int, ts, act)
                    =~= sel_grid(g, z0 as int, z0 as int, y0 as int, y1 as int, x0 as int, x1 as int, ts, act));
            }
            assert(out@ =~= spec_render(g, ts, params));
        }
        out
    }
}

/// A row window with no columns yields nothing, whatever the rows.
proof fn lemma_sel_layer_empty(
    l: Seq<Seq<u16>>,
    z: int,
    y0: int,
    y1: int,
    x0: int,
    x1: int,
    ts: u16,
    active: int,
)
    requires
        x1 <= x0 || y1 <= y0,
    ensures
        sel_layer(l, z, y0, y1, x0, x1, ts, active).len() == 0,
    decreases y1 - y0,
{
    if y1 > y0 {
        lemma_sel_layer_empty(l, z, y0, y1 - 1, x0, x1, ts, active);
    }
}

/// A window that is empty on some axis selects nothing.
proof fn lemma_sel_grid_empty(
    g: Seq<Seq<Seq<u16>>>,
    z0: int,
    z1: int,
    y0: int,
    y1: int,
    x0: int,
    x1: int,
    ts: u16,
    active: int,
)
    requires
        x1 <= x0 || y1 <= y0 || z1 <= z0,
    ensures
        sel_grid(g, z0, z1, y0, y1, x0, x1, ts, active).len() == 0,
    decreases z1 - z0,
{
    if z1 > z0 {
        lemma_sel_grid_empty(g, z0, z1 - 1, y0, y1, x0, x1, ts, active);
        lemma_sel_layer_empty(g[z1 - 1], z1 - 1, y0, y1, x0, x1, ts, active);
    }
}

/// Empty-range selection: a window whose minimum equals its maximum on any
/// axis yields zero directives, for every grid.
pub proof fn lemma_empty_range_selects_nothing(
    g: Seq<Seq<Seq<u16>>>,
    ts: u16,
    p: TilemapRenderParams,
)
    requires
        p.min_tile_x == p.max_tile_x || p.min_tile_y == p.max_tile_y || p.min_render_layer
            == p.max_render_layer,
    ensures
        spec_render(g, ts, p).len() == 0,
{
    let x0 = spec_clamp(p.min_tile_x as int, spec_col_count(g) as int);
    let x1 = spec_clamp(p.max_tile_x as int, spec_col_count(g) as int);
    let y0 = spec_clamp(p.min_tile_y as int, spec_row_count(g) as int);
    let y1 = spec_clamp(p.max_tile_y as int, spec_row_count(g) as int);
    let z0 = spec_clamp(p.min_render_layer as int, g.len() as int);
    let z1 = spec_clamp(p.max_render_layer as int, g.len() as int);
    lemma_sel_grid_empty(g, z0, z1, y0, y1, x0, x1, ts, p.active_layer as int);
}

} // verus!
