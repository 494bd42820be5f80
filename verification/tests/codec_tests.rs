use tile::codec::{decode, encode, DecodeError};
use tile::grid::Tilemap;

fn map_of(path: &[u8], tile_size: u16, tiles: Vec<Vec<Vec<u16>>>) -> Tilemap {
    Tilemap { tileset_path: path.to_vec(), tile_size, tiles }
}

#[test]
fn encode_example_end_to_end() {
    // A 1-layer 1x2 grid [[5, 0]] with tileset "t.png" encodes as "t.png"5,0.
    let tm = map_of(b"t.png", 16, vec![vec![vec![5, 0]]]);
    let text = encode(&tm);
    assert_eq!(text, b"\"t.png\"5,0".to_vec());
}

#[test]
fn decode_example_end_to_end() {
    let r = decode(&b"\"t.png\"5,0".to_vec()).unwrap();
    assert_eq!(r.0, b"t.png".to_vec());
    assert_eq!(r.1, vec![vec![vec![5, 0]]]);
}

#[test]
fn round_trip_multi_layer() {
    let tiles = vec![
        vec![vec![1, 0, 3], vec![0, 2, 65535]],
        vec![vec![0, 0, 0], vec![7, 8, 9]],
    ];
    let tm = map_of(b"strip.png", 8, tiles.clone());
    let text = encode(&tm);
    let (path, grid) = decode(&text).unwrap();
    assert_eq!(path, b"strip.png".to_vec());
    assert_eq!(grid, tiles);
}

#[test]
fn round_trip_single_cell() {
    let tm = map_of(b"a", 1, vec![vec![vec![0]]]);
    let text = encode(&tm);
    assert_eq!(text, b"\"a\"0".to_vec());
    let (path, grid) = decode(&text).unwrap();
    assert_eq!(path, b"a".to_vec());
    assert_eq!(grid, vec![vec![vec![0]]]);
}

#[test]
fn round_trip_empty_path() {
    let tm = map_of(b"", 4, vec![vec![vec![1, 2], vec![3, 4]]]);
    let text = encode(&tm);
    assert_eq!(text, b"\"\"1,2/3,4".to_vec());
    let (path, grid) = decode(&text).unwrap();
    assert_eq!(path, b"".to_vec());
    assert_eq!(grid, vec![vec![vec![1, 2], vec![3, 4]]]);
}

#[test]
fn decode_empty_input() {
    assert_eq!(decode(&Vec::new()), Err(DecodeError::EmptyInput));
}

#[test]
fn decode_missing_opening_quote() {
    assert_eq!(decode(&b"t.png\"5,0".to_vec()), Err(DecodeError::MalformedHeader));
}

#[test]
fn decode_missing_closing_quote() {
    assert_eq!(decode(&b"\"t.png".to_vec()), Err(DecodeError::MalformedHeader));
}

#[test]
fn decode_non_numeric_token() {
    assert_eq!(decode(&b"\"t.png\"5,x".to_vec()), Err(DecodeError::MalformedInteger));
}

#[test]
fn decode_token_too_large() {
    assert_eq!(decode(&b"\"t.png\"65536".to_vec()), Err(DecodeError::MalformedInteger));
    assert_eq!(decode(&b"\"t.png\"99999999999999999999".to_vec()), Err(DecodeError::MalformedInteger));
}

#[test]
fn decode_largest_tile_id() {
    let (_, grid) = decode(&b"\"t.png\"65535".to_vec()).unwrap();
    assert_eq!(grid, vec![vec![vec![65535]]]);
}

#[test]
fn decode_empty_token() {
    // An empty body means one empty token, which is not an integer.
    assert_eq!(decode(&b"\"t.png\"".to_vec()), Err(DecodeError::MalformedInteger));
    assert_eq!(decode(&b"\"t.png\"5,,6".to_vec()), Err(DecodeError::MalformedInteger));
}

#[test]
fn decode_leading_zeros_accepted() {
    let (_, grid) = decode(&b"\"t.png\"007,0".to_vec()).unwrap();
    assert_eq!(grid, vec![vec![vec![7, 0]]]);
}

#[test]
fn decode_ragged_rows_rejected() {
    // Second row is shorter: never silently truncated or padded.
    assert_eq!(decode(&b"\"t.png\"1,2/3".to_vec()), Err(DecodeError::RectangularityViolation));
}

#[test]
fn decode_ragged_layers_rejected() {
    // Second layer has a different shape.
    assert_eq!(decode(&b"\"t.png\"1,2/3,4~5,6".to_vec()), Err(DecodeError::RectangularityViolation));
}

#[test]
fn decode_rectangular_two_layers() {
    let (_, grid) = decode(&b"\"t.png\"1,2/3,4~5,6/7,8".to_vec()).unwrap();
    assert_eq!(grid, vec![vec![vec![1, 2], vec![3, 4]], vec![vec![5, 6], vec![7, 8]]]);
}
