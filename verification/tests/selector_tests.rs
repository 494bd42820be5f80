use tile::grid::Tilemap;
use tile::selector::{TilemapRenderParams, Tint};

fn two_layer_map() -> Tilemap {
    // layer 0 = [[1,0],[0,2]], layer 1 = [[0,3],[0,0]]
    let tiles = vec![
        vec![vec![1, 0], vec![0, 2]],
        vec![vec![0, 3], vec![0, 0]],
    ];
    Tilemap { tileset_path: b"t.png".to_vec(), tile_size: 16, tiles }
}

fn full_window() -> TilemapRenderParams {
    TilemapRenderParams {
        min_tile_x: 0,
        min_tile_y: 0,
        max_tile_x: i64::MAX,
        max_tile_y: i64::MAX,
        min_render_layer: 0,
        max_render_layer: usize::MAX,
        active_layer: 0,
    }
}

#[test]
fn draw_order_layer_row_column() {
    // Grouped by layer ascending, then row, then column, omitting zero cells.
    let tm = two_layer_map();
    let ds = tm.render(full_window());
    assert_eq!(ds.len(), 3);
    assert_eq!((ds[0].layer, ds[0].row, ds[0].col, ds[0].tile_id), (0, 0, 0, 1));
    assert_eq!((ds[1].layer, ds[1].row, ds[1].col, ds[1].tile_id), (0, 1, 1, 2));
    assert_eq!((ds[2].layer, ds[2].row, ds[2].col, ds[2].tile_id), (1, 0, 1, 3));
}

#[test]
fn directive_pixel_positions() {
    let tm = two_layer_map();
    let ds = tm.render(full_window());
    // destination = (col, row) * tile_size; source column = tile_id - 1.
    assert_eq!((ds[0].dest_x_px, ds[0].dest_y_px, ds[0].src_x_px), (0, 0, 0));
    assert_eq!((ds[1].dest_x_px, ds[1].dest_y_px, ds[1].src_x_px), (16, 16, 16));
    assert_eq!((ds[2].dest_x_px, ds[2].dest_y_px, ds[2].src_x_px), (16, 0, 32));
}

#[test]
fn active_layer_tint() {
    let tm = two_layer_map();
    let mut p = full_window();
    p.active_layer = 1;
    let ds = tm.render(p);
    assert_eq!(ds[0].tint, Tint::Dimmed);
    assert_eq!(ds[1].tint, Tint::Dimmed);
    assert_eq!(ds[2].tint, Tint::Active);
}

#[test]
fn empty_x_range_selects_nothing() {
    let tm = two_layer_map();
    let mut p = full_window();
    p.min_tile_x = 1;
    p.max_tile_x = 1;
    assert_eq!(tm.render(p).len(), 0);
}

#[test]
fn empty_layer_range_selects_nothing() {
    let tm = two_layer_map();
    let mut p = full_window();
    p.min_render_layer = 1;
    p.max_render_layer = 1;
    assert_eq!(tm.render(p).len(), 0);
}

#[test]
fn window_clamps_into_grid() {
    let tm = two_layer_map();
    let mut p = full_window();
    p.min_tile_x = -100;
    p.min_tile_y = -100;
    let ds = tm.render(p);
    assert_eq!(ds.len(), 3);
}

#[test]
fn layer_range_restricts() {
    let tm = two_layer_map();
    let mut p = full_window();
    p.min_render_layer = 1;
    let ds = tm.render(p);
    assert_eq!(ds.len(), 1);
    assert_eq!((ds[0].layer, ds[0].tile_id), (1, 3));
}

#[test]
fn column_window_restricts() {
    let tm = two_layer_map();
    let mut p = full_window();
    p.min_tile_x = 0;
    p.max_tile_x = 1;
    let ds = tm.render(p);
    assert_eq!(ds.len(), 1);
    assert_eq!((ds[0].layer, ds[0].row, ds[0].col, ds[0].tile_id), (0, 0, 0, 1));
}

#[test]
fn default_params_cover_everything() {
    let tm = two_layer_map();
    let ds = tm.render(TilemapRenderParams::default());
    assert_eq!(ds.len(), 3);
}
