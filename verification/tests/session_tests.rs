use tile::grid::Tilemap;
use tile::session::Session;

fn three_layer_session() -> Session {
    let tiles = vec![
        vec![vec![0, 0], vec![0, 0]],
        vec![vec![0, 0], vec![0, 0]],
        vec![vec![0, 0], vec![0, 0]],
    ];
    Session::new(Tilemap { tileset_path: b"t.png".to_vec(), tile_size: 16, tiles })
}

#[test]
fn new_session_defaults() {
    let s = three_layer_session();
    assert_eq!(s.selected_layer, 0);
    assert_eq!(s.selected_tile, 1);
    assert!(s.show_grid);
}

#[test]
fn cycle_layer_forward_wraps() {
    let mut s = three_layer_session();
    s.cycle_layer(true);
    assert_eq!(s.selected_layer, 1);
    s.cycle_layer(true);
    assert_eq!(s.selected_layer, 2);
    s.cycle_layer(true);
    assert_eq!(s.selected_layer, 0);
}

#[test]
fn cycle_layer_backward_wraps() {
    let mut s = three_layer_session();
    s.cycle_layer(false);
    assert_eq!(s.selected_layer, 2);
    s.cycle_layer(false);
    assert_eq!(s.selected_layer, 1);
    s.cycle_layer(false);
    assert_eq!(s.selected_layer, 0);
}

#[test]
fn cycle_layer_full_round_from_any_start() {
    // layer_count applications return to the start, from every layer.
    for start in 0..3usize {
        let mut s = three_layer_session();
        for _ in 0..start {
            s.cycle_layer(true);
        }
        assert_eq!(s.selected_layer, start);
        for _ in 0..3 {
            s.cycle_layer(true);
        }
        assert_eq!(s.selected_layer, start);
        for _ in 0..3 {
            s.cycle_layer(false);
        }
        assert_eq!(s.selected_layer, start);
    }
}

#[test]
fn cycle_tile_wraps_over_columns() {
    let mut s = three_layer_session();
    // Four tileset columns: 1 -> 2 -> 3 -> 4 -> 1.
    s.cycle_tile(true, 4);
    assert_eq!(s.selected_tile, 2);
    s.cycle_tile(true, 4);
    s.cycle_tile(true, 4);
    assert_eq!(s.selected_tile, 4);
    s.cycle_tile(true, 4);
    assert_eq!(s.selected_tile, 1);
    s.cycle_tile(false, 4);
    assert_eq!(s.selected_tile, 4);
}

#[test]
fn cycle_tile_full_round() {
    let mut s = three_layer_session();
    for _ in 0..4 {
        s.cycle_tile(true, 4);
    }
    assert_eq!(s.selected_tile, 1);
    for _ in 0..4 {
        s.cycle_tile(false, 4);
    }
    assert_eq!(s.selected_tile, 1);
}

#[test]
fn paint_in_bounds() {
    let mut s = three_layer_session();
    s.paint_at(1, 0, 9);
    assert_eq!(s.tilemap.tiles[0][0][1], 9);
}

#[test]
fn paint_clamps_far_outside() {
    // A position far outside in any direction still writes exactly one
    // cell, at the nearest valid boundary cell.
    let mut s = three_layer_session();
    s.paint_at(1_000_000, -1_000_000, 7);
    assert_eq!(s.tilemap.tiles[0][0][1], 7);
    let mut count: u32 = 0;
    for layer in &s.tilemap.tiles {
        for row in layer {
            for &t in row {
                if t != 0 {
                    count += 1;
                }
            }
        }
    }
    assert_eq!(count, 1);

    let mut s2 = three_layer_session();
    s2.paint_at(-50, 99, 3);
    assert_eq!(s2.tilemap.tiles[0][1][0], 3);
}

#[test]
fn paint_targets_active_layer() {
    let mut s = three_layer_session();
    s.cycle_layer(true);
    s.paint_at(0, 0, 5);
    assert_eq!(s.tilemap.tiles[1][0][0], 5);
    assert_eq!(s.tilemap.tiles[0][0][0], 0);
}

#[test]
fn erase_clears_cell() {
    let mut s = three_layer_session();
    s.paint_at(0, 1, 8);
    assert_eq!(s.tilemap.tiles[0][1][0], 8);
    s.erase_at(0, 1);
    assert_eq!(s.tilemap.tiles[0][1][0], 0);
}

#[test]
fn toggle_grid_flips() {
    let mut s = three_layer_session();
    s.toggle_grid();
    assert!(!s.show_grid);
    s.toggle_grid();
    assert!(s.show_grid);
}
