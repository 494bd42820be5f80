use tile::digits::parse_u16_bytes;
use tile::grid::Tilemap;
use tile::text::{join_bytes, split_bytes};

#[test]
fn dimensions_from_structure() {
    let tm = Tilemap {
        tileset_path: b"t.png".to_vec(),
        tile_size: 16,
        tiles: vec![vec![vec![0, 0, 0], vec![0, 0, 0]]],
    };
    assert_eq!(tm.dimensions(), (1, 2, 3));
}

#[test]
fn dimensions_of_empty_map() {
    let tm = Tilemap::default();
    assert_eq!(tm.dimensions(), (0, 0, 0));
    assert_eq!(tm.tile_size, 16);
}

#[test]
fn get_and_set_one_cell() {
    let mut tm = Tilemap {
        tileset_path: b"t.png".to_vec(),
        tile_size: 16,
        tiles: vec![vec![vec![0, 0], vec![0, 0]], vec![vec![0, 0], vec![0, 0]]],
    };
    tm.set(1, 0, 1, 42);
    assert_eq!(tm.get(1, 0, 1), 42);
    assert_eq!(tm.get(0, 0, 1), 0);
    assert_eq!(tm.get(1, 0, 0), 0);
}

#[test]
fn blank_map_shape() {
    let tm = Tilemap::new_blank(3, 4, 16, b"t.png".to_vec());
    assert_eq!(tm.dimensions(), (1, 3, 4));
    for y in 0..3 {
        for x in 0..4 {
            assert_eq!(tm.get(0, y, x), 0);
        }
    }
}

#[test]
fn parse_u16_accepts_digits_only() {
    assert_eq!(parse_u16_bytes(&b"0".to_vec()), Some(0));
    assert_eq!(parse_u16_bytes(&b"65535".to_vec()), Some(65535));
    assert_eq!(parse_u16_bytes(&b"65536".to_vec()), None);
    assert_eq!(parse_u16_bytes(&b"".to_vec()), None);
    assert_eq!(parse_u16_bytes(&b"+3".to_vec()), None);
    assert_eq!(parse_u16_bytes(&b"1 2".to_vec()), None);
    assert_eq!(parse_u16_bytes(&b"0007".to_vec()), Some(7));
}

#[test]
fn split_and_join_are_inverse() {
    let parts = split_bytes(&b"ab,,cd".to_vec(), b',');
    assert_eq!(parts, vec![b"ab".to_vec(), b"".to_vec(), b"cd".to_vec()]);
    assert_eq!(join_bytes(&parts, b','), b"ab,,cd".to_vec());
}

#[test]
fn split_without_delimiter_is_whole() {
    let parts = split_bytes(&b"abc".to_vec(), b'/');
    assert_eq!(parts, vec![b"abc".to_vec()]);
    let parts2 = split_bytes(&Vec::new(), b'/');
    assert_eq!(parts2, vec![Vec::<u8>::new()]);
}
