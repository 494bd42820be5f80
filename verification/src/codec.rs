//! The persisted text format and its codec.
//!
//! A tile map is saved as the tileset image path between two double quotes,
//! followed by the tile data: layers separated by `~`, rows inside a layer
//! separated by `/`, tile ids inside a row separated by `,`, each tile id a
//! decimal integer. A one-layer 1x2 grid `[[5, 0]]` with tileset `t.png`
//! encodes as `"t.png"5,0`.

use vstd::prelude::*;
use crate::digits::{
    dec_digits, is_digit, lemma_dec_digits, parse_u16_bytes, push_u16_digits, spec_parse_u16,
};
use crate::grid::{grid_nonempty, grid_rect, spec_col_count, spec_row_count, Tilemap};
use crate::text::{
    has_byte, join_bytes, lemma_find_at, lemma_join_no_byte, lemma_split_join, lemma_split_len,
    spec_find, spec_join, spec_split, split_bytes,
};
use crate::views::{
    lemma_deep_view_is_views, lemma_deep_view_len, lemma_u8_vec_deep_view, lemma_vec_deep_view_index,
    lemma_views_of_push, views_of,
};

verus! {

broadcast use {
    lemma_u8_vec_deep_view,
    lemma_deep_view_is_views,
    lemma_views_of_push,
    lemma_vec_deep_view_index,
    lemma_deep_view_len,
};

/// Delimiter between the quoted tileset path and around it.
pub const QUOTE: u8 = 34;

/// Delimiter between tile ids inside a row.
pub const COMMA: u8 = 44;

/// Delimiter between rows inside a layer.
pub const SLASH: u8 = 47;

/// Delimiter between layers.
pub const TILDE: u8 = 126;

/// Why a decode failed.
#[derive(Clone, Copy, Debug, PartialEq, Eq, Structural)]
pub enum DecodeError {
    /// The input text is empty.
    EmptyInput,
    /// The input does not start with a quoted tileset path.
    MalformedHeader,
    /// A tile token is not a non-negative decimal integer fitting 16 bits.
    MalformedInteger,
    /// Row lengths differ within a layer or layer shapes differ.
    RectangularityViolation,
}

/// One row encoded: tile ids in decimal, joined by commas.
pub open spec fn enc_row(row: Seq<u16>) -> Seq<u8> {
    spec_join(row.map_values(|t: u16| dec_digits(t as nat)), COMMA)
}

/// One layer encoded: rows joined by slashes.
pub open spec fn enc_layer(l: Seq<Seq<u16>>) -> Seq<u8> {
    spec_join(l.map_values(|r: Seq<u16>| enc_row(r)), SLASH)
}

/// The tile data encoded: layers joined by tildes.
pub open spec fn enc_body(g: Seq<Seq<Seq<u16>>>) -> Seq<u8> {
    spec_join(g.map_values(|l: Seq<Seq<u16>>| enc_layer(l)), TILDE)
}

/// The whole save text: quoted tileset path, then the tile data.
pub open spec fn spec_encode(path: Seq<u8>, g: Seq<Seq<Seq<u16>>>) -> Seq<u8> {
    seq![QUOTE] + path + seq![QUOTE] + enc_body(g)
}

/// One row parsed: comma-separated tokens, each through the tile-id parser.
pub open spec fn spec_parse_row(s: Seq<u8>) -> Seq<Option<u16>> {
    spec_split(s, COMMA).map_values(|t: Seq<u8>| spec_parse_u16(t))
}

/// One layer parsed: slash-separated rows.
pub open spec fn spec_parse_layer(s: Seq<u8>) -> Seq<Seq<Option<u16>>> {
    spec_split(s, SLASH).map_values(|r: Seq<u8>| spec_parse_row(r))
}

/// The tile data parsed: tilde-separated layers.
pub open spec fn spec_parse_grid(s: Seq<u8>) -> Seq<Seq<Seq<Option<u16>>>> {
    spec_split(s, TILDE).map_values(|l: Seq<u8>| spec_parse_layer(l))
}

/// Every token of the row parsed as a tile id.
pub open spec fn row_ok(s: Seq<u8>) -> bool {
    forall|x: int| 0 <= x < spec_parse_row(s).len() ==> (#[trigger] spec_parse_row(s)[x]) is Some
}

/// Every token of every row of the layer parsed.
pub open spec fn layer_ok(s: Seq<u8>) -> bool {
    forall|y: int| 0 <= y < spec_parse_layer(s).len() ==> row_ok(#[trigger] spec_split(s, SLASH)[y])
}

/// Every token of the whole tile data parsed.
pub open spec fn body_ok(s: Seq<u8>) -> bool {
    forall|z: int| 0 <= z < spec_parse_grid(s).len() ==> layer_ok(#[trigger] spec_split(s, TILDE)[z])
}

/// The values of a fully parsed row.
pub open spec fn unwrap_row(r: Seq<Option<u16>>) -> Seq<u16> {
    r.map_values(
        |t: Option<u16>|
            match t {
                Option::Some(v) => v,
                Option::None => 0u16,
            },
    )
}

/// The values of a fully parsed layer.
pub open spec fn unwrap_layer(l: Seq<Seq<Option<u16>>>) -> Seq<Seq<u16>> {
    l.map_values(|r: Seq<Option<u16>>| unwrap_row(r))
}

/// The values of a fully parsed grid.
pub open spec fn unwrap_grid(pg: Seq<Seq<Seq<Option<u16>>>>) -> Seq<Seq<Seq<u16>>> {
    pg.map_values(|l: Seq<Seq<Option<u16>>>| unwrap_layer(l))
}

/// What decoding a save text yields: the tileset path and the grid, or the
/// first applicable error. Empty input is rejected first; then the quoted
/// header is recovered; then every tile token must parse as a 16-bit
/// integer; finally the grid must be rectangular.
pub open spec fn spec_decode(s: Seq<u8>) -> Result<(Seq<u8>, Seq<Seq<Seq<u16>>>), DecodeError> {
    if s.len() == 0 {
        Err(DecodeError::EmptyInput)
    } else if s[0] != QUOTE {
        Err(DecodeError::MalformedHeader)
    } else {
        let q = spec_find(s.skip(1), QUOTE);
        if q == s.len() - 1 {
            Err(DecodeError::MalformedHeader)
        } else {
            let path = s.subrange(1, 1 + q);
            let body = s.skip(q + 2);
            if !body_ok(body) {
                Err(DecodeError::MalformedInteger)
            } else {
                let g = unwrap_grid(spec_parse_grid(body));
                if !grid_rect(g) {
                    Err(DecodeError::RectangularityViolation)
                } else {
                    Ok((path, g))
                }
            }
        }
    }
}

/// Encode one row.
fn encode_row(row: &Vec<u16>) -> (r: Vec<u8>)
    ensures
        r@ == enc_row(row@),
{
    let ghost target = row@.map_values(|t: u16| dec_digits(t as nat));
    let mut toks: Vec<Vec<u8>> = Vec::new();
    let mut x: usize = 0;
    while x < row.len()
        invariant
            x <= row@.len(),
            target == row@.map_values(|t: u16| dec_digits(t as nat)),
            toks.deep_view() == target.take(x as int),
        decreases row@.len() - x,
    {
        let mut t: Vec<u8> = Vec::new();
        push_u16_digits(&mut t, row[x]);
        let ghost prev = toks.deep_view();
        toks.push(t);
        proof {
            assert(t@ == dec_digits(row@[x as int] as nat));
            assert(toks.deep_view() == prev.push(t@));
            assert(prev.push(t@) =~= target.take(x + 1));
        }
        x = x + 1;
    }
    proof {
        assert(target.take(row@.len() as int) =~= target);
    }
    join_bytes(&toks, COMMA)
}

/// Encode one layer.
fn encode_layer(layer: &Vec<Vec<u16>>) -> (r: Vec<u8>)
    ensures
        r@ == enc_layer(layer.deep_view()),
{
    let ghost target = layer.deep_view().map_values(|rw: Seq<u16>| enc_row(rw));
    let mut rows: Vec<Vec<u8>> = Vec::new();
    let mut y: usize = 0;
    while y < layer.len()
        invariant
            y <= layer@.len(),
            target == layer.deep_view().map_values(|rw: Seq<u16>| enc_row(rw)),
            layer.deep_view().len() == layer@.len(),
            rows.deep_view() == target.take(y as int),
        decreases layer@.len() - y,
    {
        let rb = encode_row(&layer[y]);
        let ghost prev = rows.deep_view();
        rows.push(rb);
        proof {
            assert(layer@[y as int]@ == layer.deep_view()[y as int]);
            assert(rb@ == target[y as int]);
            assert(rows.deep_view() == prev.push(rb@));
            assert(prev.push(rb@) =~= target.take(y + 1));
        }
        y = y + 1;
    }
    proof {
        assert(target.take(layer@.len() as int) =~= target);
    }
    join_bytes(&rows, SLASH)
}

/// Parse one row's bytes: `None` exactly when some comma-separated token is
/// not a 16-bit tile id.
#[verifier::loop_isolation(false)]
fn parse_row_bytes(row: &Vec<u8>) -> (r: Option<Vec<u16>>)
    ensures
        r matches Some(v) ==> row_ok(row@) && v@ == unwrap_row(spec_parse_row(row@)) && v@.len()
            >= 1,
        r is None ==> !row_ok(row@),
{
    let toks = split_bytes(row, COMMA);
    let ghost pr = spec_parse_row(row@);
    let mut vals: Vec<u16> = Vec::new();
    let mut x: usize = 0;
    while x < toks.len()
        invariant
            toks.deep_view() == spec_split(row@, COMMA),
            pr == spec_parse_row(row@),
            pr.len() == toks@.len(),
            x <= toks@.len(),
            vals@.len() == x,
            forall|k: int| 0 <= k < x ==> (#[trigger] pr[k]) is Some && vals@[k] == pr[k]->Some_0,
        decreases toks@.len() - x,
    {
        proof {
            assert(toks@[x as int]@ == toks.deep_view()[x as int]);
            assert(pr[x as int] == spec_parse_u16(toks.deep_view()[x as int]));
        }
        match parse_u16_bytes(&toks[x]) {
            Some(v) => {
                vals.push(v);
            },
            None => {
                proof {
                    assert(pr[x as int] is None);
                }
                return None;
            },
        }
        x = x + 1;
    }
    proof {
        assert(row_ok(row@));
        assert(vals@ =~= unwrap_row(pr));
        lemma_split_len(row@, COMMA);
    }
    Some(vals)
}

/// Parse one layer's bytes: `None` exactly when some token of some row is
/// not a 16-bit tile id.
#[verifier::loop_isolation(false)]
fn parse_layer_bytes(layer: &Vec<u8>) -> (r: Option<Vec<Vec<u16>>>)
    ensures
        r matches Some(v) ==> layer_ok(layer@) && v.deep_view() == unwrap_layer(
            spec_parse_layer(layer@),
        ) && v@.len() >= 1 && (forall|y: int| 0 <= y < v@.len() ==> (#[trigger] v@[y])@.len() >= 1),
        r is None ==> !layer_ok(layer@),
{
    let rows_s = split_bytes(layer, SLASH);
    let ghost pl = spec_parse_layer(layer@);
    let mut rows: Vec<Vec<u16>> = Vec::new();
    let mut y: usize = 0;
    while y < rows_s.len()
        invariant
            rows_s.deep_view() == spec_split(layer@, SLASH),
            pl == spec_parse_layer(layer@),
            pl.len() == rows_s@.len(),
            y <= rows_s@.len(),
            rows@.len() == y,
            forall|k: int| 0 <= k < y ==> row_ok(#[trigger] spec_split(layer@, SLASH)[k]),
            forall|k: int| 0 <= k < y ==> (#[trigger] rows@[k]).deep_view() == unwrap_row(pl[k]),
            forall|k: int| 0 <= k < y ==> (#[trigger] rows@[k])@.len() >= 1,
        decreases rows_s@.len() - y,
    {
        proof {
            assert(rows_s@[y as int]@ == rows_s.deep_view()[y as int]);
            assert(pl[y as int] == spec_parse_row(rows_s.deep_view()[y as int]));
        }
        match parse_row_bytes(&rows_s[y]) {
            Some(v) => {
                proof {
                    assert(v.deep_view() =~= v@);
                }
                rows.push(v);
            },
            None => {
                proof {
                    assert(!row_ok(spec_split(layer@, SLASH)[y as int]));
                }
                return None;
            },
        }
        y = y + 1;
    }
    proof {
        assert(layer_ok(layer@));
        assert forall|k: int| 0 <= k < pl.len() implies rows.deep_view()[k] == unwrap_layer(pl)[k] by {
            assert(rows.deep_view()[k] == rows@[k].deep_view());
        }
        assert(rows.deep_view() =~= unwrap_layer(pl));
        lemma_split_len(layer@, SLASH);
        assert(rows@.len() >= 1);
    }
    Some(rows)
}

/// Decode a save text into the tileset path and the tile grid.
///
/// Succeeds exactly on a non-empty text that starts with a quoted path and
/// whose tile data is rectangular with every token a 16-bit decimal integer;
/// the grid then has at least one layer, one row and one column.
#[verifier::loop_isolation(false)]
pub fn decode(text: &Vec<u8>) -> (r: Result<(Vec<u8>, Vec<Vec<Vec<u16>>>), DecodeError>)
    ensures
        r matches Ok(pg) ==> spec_decode(text@) == Ok::<_, DecodeError>((pg.0@, pg.1.deep_view()))
            && grid_rect(pg.1.deep_view()) && grid_nonempty(pg.1.deep_view()),
        r matches Err(e) ==> spec_decode(text@) == Err::<(Seq<u8>, Seq<Seq<Seq<u16>>>), _>(e),
{
    if text.len() == 0 {
        return Err(DecodeError::EmptyInput);
    }
    if text[0] != QUOTE {
        return Err(DecodeError::MalformedHeader);
    }
    let mut q: usize = 1;
    while q < text.len() && text[q] != QUOTE
        invariant
            1 <= q <= text@.len(),
            forall|k: int| 1 <= k < q ==> text@[k] != QUOTE,
        decreases text@.len() - q,
    {
        q = q + 1;
    }
    proof {
        let tail = text@.skip(1);
        assert forall|k: int| 0 <= k < q - 1 implies tail[k] != QUOTE by {
            assert(tail[k] == text@[k + 1]);
        }
        if q < text@.len() {
            assert(tail[q - 1] == text@[q as int]);
        }
        lemma_find_at(tail, QUOTE, q - 1);
    }
    if q == text.len() {
        return Err(DecodeError::MalformedHeader);
    }
    let mut path: Vec<u8> = Vec::new();
    let mut i: usize = 1;
    while i < q
        invariant
            1 <= i <= q <= text@.len(),
            path@ == text@.subrange(1, i as int),
        decreases q - i,
    {
        let b = text[i];
        path.push(b);
        proof {
            assert(path@ =~= text@.subrange(1, i + 1));
        }
        i = i + 1;
    }
    let mut body: Vec<u8> = Vec::new();
    let mut j: usize = q + 1;
    while j < text.len()
        invariant
            q + 1 <= j <= text@.len(),
            body@ == text@.subrange(q + 1, j as int),
        decreases text@.len() - j,
    {
        let b = text[j];
        body.push(b);
        proof {
            assert(body@ =~= text@.subrange(q + 1, j + 1));
        }
        j = j + 1;
    }
    proof {
        assert(body@ =~= text@.skip(q + 1));
        assert(path@ == text@.subrange(1, 1 + spec_find(text@.skip(1), QUOTE)));
    }
    let layers_s = split_bytes(&body, TILDE);
    let ghost pg = spec_parse_grid(body@);
    let mut grid: Vec<Vec<Vec<u16>>> = Vec::new();
    let mut z: usize = 0;
    while z < layers_s.len()
        invariant
            layers_s.deep_view() == spec_split(body@, TILDE),
            pg == spec_parse_grid(body@),
            pg.len() == layers_s@.len(),
            z <= layers_s@.len(),
            grid@.len() == z,
            forall|k: int| 0 <= k < z ==> layer_ok(#[trigger] spec_split(body@, TILDE)[k]),
            forall|k: int| 0 <= k < z ==> (#[trigger] grid@[k]).deep_view() == unwrap_grid(pg)[k],
            forall|k: int| 0 <= k < z ==> (#[trigger] grid@[k])@.len() >= 1,
            forall|k: int, y: int|
                0 <= k < z && 0 <= y < grid@[k]@.len() ==> (#[trigger] grid@[k]@[y])@.len() >= 1,
        decreases layers_s@.len() - z,
    {
        proof {
            assert(layers_s@[z as int]@ == layers_s.deep_view()[z as int]);
            assert(pg[z as int] == spec_parse_layer(layers_s.deep_view()[z as int]));
            assert(unwrap_grid(pg)[z as int] == unwrap_layer(pg[z as int]));
        }
        match parse_layer_bytes(&layers_s[z]) {
            Some(v) => {
                grid.push(v);
            },
            None => {
                proof {
                    assert(!layer_ok(spec_split(body@, TILDE)[z as int]));
                    assert(!body_ok(body@));
                }
                return Err(DecodeError::MalformedInteger);
            },
        }
        z = z + 1;
    }
    let ghost gd = unwrap_grid(pg);
    proof {
        assert(body_ok(body@));
        assert forall|k: int| 0 <= k < gd.len() implies grid.deep_view()[k] == gd[k] by {
            assert(grid.deep_view()[k] == grid@[k].deep_view());
        }
        assert(grid.deep_view() =~= gd);
        lemma_split_len(body@, TILDE);
    }
    proof {
        lemma_split_len(body@, TILDE);
        assert(grid@.len() >= 1);
        assert(grid@[0]@.len() >= 1);
        assert(grid@[0]@[0]@.len() >= 1);
    }
    let rows0 = grid[0].len();
    let cols0 = grid[0][0].len();
    proof {
        assert(grid@[0].deep_view() == gd[0]);
        assert(gd[0].len() == rows0);
        assert(grid@[0]@[0]@.len() == cols0);
        assert(gd[0][0] == grid@[0]@[0]@);
        assert(spec_row_count(gd) == rows0);
        assert(spec_col_count(gd) == cols0);
    }
    let mut z2: usize = 0;
    while z2 < grid.len()
        invariant
            grid.deep_view() == gd,
            grid@.len() == gd.len(),
            z2 <= gd.len(),
            rows0 == spec_row_count(gd),
            cols0 == spec_col_count(gd),
            rows0 >= 1,
            cols0 >= 1,
            forall|k: int| 0 <= k < z2 ==> (#[trigger] gd[k]).len() == rows0,
            forall|k: int, y: int|
                0 <= k < z2 && 0 <= y < gd[k].len() ==> (#[trigger] gd[k][y]).len() == cols0,
        decreases gd.len() - z2,
    {
        proof {
            assert(grid@[z2 as int].deep_view() == gd[z2 as int]);
        }
        if grid[z2].len() != rows0 {
            proof {
                assert(gd[z2 as int].len() != spec_row_count(gd));
                assert(!grid_rect(gd));
            }
            return Err(DecodeError::RectangularityViolation);
        }
        let mut y2: usize = 0;
        while y2 < rows0
            invariant
                grid.deep_view() == gd,
                grid@.len() == gd.len(),
                z2 < gd.len(),
                y2 <= rows0,
                cols0 == spec_col_count(gd),
                gd[z2 as int].len() == rows0,
                forall|y: int| 0 <= y < y2 ==> (#[trigger] gd[z2 as int][y]).len() == cols0,
            decreases rows0 - y2,
        {
            proof {
                assert(grid@[z2 as int].deep_view() == gd[z2 as int]);
                assert(grid@[z2 as int]@[y2 as int]@ == gd[z2 as int][y2 as int]);
            }
            if grid[z2][y2].len() != cols0 {
                proof {
                    assert(gd[z2 as int][y2 as int].len() != spec_col_count(gd));
                    assert(!grid_rect(gd));
                }
                return Err(DecodeError::RectangularityViolation);
            }
            y2 = y2 + 1;
        }
        z2 = z2 + 1;
    }
    proof {
        assert(grid_rect(gd));
        assert(grid_nonempty(gd));
        assert(spec_decode(text@) == Ok::<_, DecodeError>((path@, gd)));
    }
    Ok((path, grid))
}

/// Encode a tile map into its save text. The exact inverse of decoding, for
/// any rectangular, non-empty grid.
pub fn encode(tm: &Tilemap) -> (r: Vec<u8>)
    requires
        !has_byte(tm.tileset_path@, QUOTE),
    ensures
        r@ == spec_encode(tm.tileset_path@, tm.grid()),
{
    let ghost target = tm.grid().map_values(|l: Seq<Seq<u16>>| enc_layer(l));
    let mut layers: Vec<Vec<u8>> = Vec::new();
    let mut z: usize = 0;
    while z < tm.tiles.len()
        invariant
            z <= tm.tiles@.len(),
            target == tm.grid().map_values(|l: Seq<Seq<u16>>| enc_layer(l)),
            tm.grid().len() == tm.tiles@.len(),
            tm.grid() == tm.tiles.deep_view(),
            layers.deep_view() == target.take(z as int),
        decreases tm.tiles@.len() - z,
    {
        let lb = encode_layer(&tm.tiles[z]);
        let ghost prev = layers.deep_view();
        layers.push(lb);
        proof {
            assert(tm.tiles@[z as int].deep_view() == tm.grid()[z as int]);
            assert(lb@ == target[z as int]);
            assert(layers.deep_view() == prev.push(lb@));
            assert(prev.push(lb@) =~= target.take(z + 1));
        }
        z = z + 1;
    }
    proof {
        assert(target.take(tm.tiles@.len() as int) =~= target);
    }
    let body = join_bytes(&layers, TILDE);
    let mut out: Vec<u8> = Vec::new();
    out.push(QUOTE);
    let mut i: usize = 0;
    while i < tm.tileset_path.len()
        invariant
            i <= tm.tileset_path@.len(),
            out@ == seq![QUOTE] + tm.tileset_path@.take(i as int),
        decreases tm.tileset_path@.len() - i,
    {
        let b = tm.tileset_path[i];
        out.push(b);
        proof {
            assert(out@ =~= seq![QUOTE] + tm.tileset_path@.take(i + 1));
        }
        i = i + 1;
    }
    out.push(QUOTE);
    let ghost mid = out@;
    proof {
        assert(tm.tileset_path@.take(tm.tileset_path@.len() as int) =~= tm.tileset_path@);
        assert(mid =~= seq![QUOTE] + tm.tileset_path@ + seq![QUOTE]);
    }
    let mut j: usize = 0;
    while j < body.len()
        invariant
            j <= body@.len(),
            out@ == mid + body@.take(j as int),
        decreases body@.len() - j,
    {
        let b = body[j];
        out.push(b);
        proof {
            assert(out@ =~= mid + body@.take(j + 1));
        }
        j = j + 1;
    }
    proof {
        assert(body@.take(body@.len() as int) =~= body@);
        assert(out@ =~= spec_encode(tm.tileset_path@, tm.grid()));
    }
    out
}


/// The decimal digits of a tile id contain no non-digit byte.
proof fn lemma_dec_digits_no_byte(n: nat, c: u8)
    requires
        !is_digit(c),
    ensures
        !has_byte(dec_digits(n), c),
{
    lemma_dec_digits(n);
    let s = dec_digits(n);
    assert forall|i: int| 0 <= i < s.len() implies s[i] != c by {
        assert(is_digit(s[i]));
    }
}

/// An encoded row contains only digits and commas.
proof fn lemma_enc_row_no_byte(row: Seq<u16>, c: u8)
    requires
        !is_digit(c),
        c != COMMA,
    ensures
        !has_byte(enc_row(row), c),
{
    let parts = row.map_values(|t: u16| dec_digits(t as nat));
    assert forall|k: int| 0 <= k < parts.len() implies !has_byte(#[trigger] parts[k], c) by {
        lemma_dec_digits_no_byte(row[k] as nat, c);
    }
    lemma_join_no_byte(parts, COMMA, c);
}

/// An encoded layer contains only digits, commas and slashes.
proof fn lemma_enc_layer_no_byte(l: Seq<Seq<u16>>, c: u8)
    requires
        !is_digit(c),
        c != COMMA,
        c != SLASH,
    ensures
        !has_byte(enc_layer(l), c),
{
    let parts = l.map_values(|r: Seq<u16>| enc_row(r));
    assert forall|k: int| 0 <= k < parts.len() implies !has_byte(#[trigger] parts[k], c) by {
        lemma_enc_row_no_byte(l[k], c);
    }
    lemma_join_no_byte(parts, SLASH, c);
}

/// Parsing an encoded row gives every tile id back.
proof fn lemma_row_round_trip(row: Seq<u16>)
    requires
        row.len() >= 1,
    ensures
        row_ok(enc_row(row)),
        unwrap_row(spec_parse_row(enc_row(row))) == row,
{
    let parts = row.map_values(|t: u16| dec_digits(t as nat));
    assert forall|k: int| 0 <= k < parts.len() implies !has_byte(#[trigger] parts[k], COMMA) by {
        lemma_dec_digits_no_byte(row[k] as nat, COMMA);
    }
    lemma_split_join(parts, COMMA);
    let pr = spec_parse_row(enc_row(row));
    assert forall|x: int| 0 <= x < pr.len() implies (#[trigger] pr[x]) == Some(row[x]) by {
        assert(pr[x] == spec_parse_u16(parts[x]));
        assert(parts[x] == dec_digits(row[x] as nat));
        lemma_dec_digits(row[x] as nat);
    }
    assert(unwrap_row(pr) =~= row);
}

/// Parsing an encoded layer gives every row back.
proof fn lemma_layer_round_trip(l: Seq<Seq<u16>>)
    requires
        l.len() >= 1,
        forall|y: int| 0 <= y < l.len() ==> (#[trigger] l[y]).len() >= 1,
    ensures
        layer_ok(enc_layer(l)),
        unwrap_layer(spec_parse_layer(enc_layer(l))) == l,
{
    let parts = l.map_values(|r: Seq<u16>| enc_row(r));
    assert forall|k: int| 0 <= k < parts.len() implies !has_byte(#[trigger] parts[k], SLASH) by {
        lemma_enc_row_no_byte(l[k], SLASH);
    }
    lemma_split_join(parts, SLASH);
    let pl = spec_parse_layer(enc_layer(l));
    assert forall|y: int| 0 <= y < pl.len() implies row_ok(
        #[trigger] spec_split(enc_layer(l), SLASH)[y],
    ) && unwrap_layer(pl)[y] == l[y] by {
        assert(parts[y] == enc_row(l[y]));
        lemma_row_round_trip(l[y]);
        assert(pl[y] == spec_parse_row(enc_row(l[y])));
    }
    assert(unwrap_layer(pl) =~= l);
}

/// Round trip: decoding the text that encodes a rectangular, non-empty tile
/// grid with a quote-free tileset path yields exactly that path and grid.
pub proof fn lemma_decode_inverts_encode(path: Seq<u8>, g: Seq<Seq<Seq<u16>>>)
    requires
        !has_byte(path, QUOTE),
        grid_rect(g),
        grid_nonempty(g),
    ensures
        spec_decode(spec_encode(path, g)) == Ok::<_, DecodeError>((path, g)),
{
    let body = enc_body(g);
    let parts = g.map_values(|l: Seq<Seq<u16>>| enc_layer(l));
    assert forall|k: int| 0 <= k < parts.len() implies !has_byte(#[trigger] parts[k], TILDE) by {
        lemma_enc_layer_no_byte(g[k], TILDE);
    }
    lemma_split_join(parts, TILDE);
    let pg = spec_parse_grid(body);
    assert forall|z: int| 0 <= z < pg.len() implies layer_ok(
        #[trigger] spec_split(body, TILDE)[z],
    ) && unwrap_grid(pg)[z] == g[z] by {
        assert(parts[z] == enc_layer(g[z]));
        assert forall|y: int| 0 <= y < g[z].len() implies (#[trigger] g[z][y]).len() >= 1 by {
            assert(g[z][y].len() == spec_col_count(g));
        }
        assert(g[z].len() == spec_row_count(g));
        lemma_layer_round_trip(g[z]);
        assert(pg[z] == spec_parse_layer(enc_layer(g[z])));
    }
    assert(body_ok(body));
    assert(unwrap_grid(pg) =~= g);

    let s = spec_encode(path, g);
    assert(s.len() == path.len() + 2 + body.len());
    assert(s[0] == QUOTE);
    let tail = s.skip(1);
    assert(tail =~= path + seq![QUOTE] + body);
    assert forall|j: int| 0 <= j < path.len() implies tail[j] != QUOTE by {
        assert(tail[j] == path[j]);
        assert(!has_byte(path, QUOTE));
    }
    assert(tail[path.len() as int] == QUOTE);
    lemma_find_at(tail, QUOTE, path.len() as int);
    let q = spec_find(s.skip(1), QUOTE);
    assert(q == path.len());
    assert(q != s.len() - 1);
    assert(s.subrange(1, 1 + q) =~= path);
    assert(s.skip(q + 2) =~= body);
    assert(spec_decode(s) == Ok::<_, DecodeError>((path, g)));
}


/// A successful decode always yields a rectangular grid with at least one
/// layer, one row and one column: nothing is ever truncated or padded.
pub proof fn lemma_decode_grid_well_formed(s: Seq<u8>)
    ensures
        spec_decode(s) matches Ok(p) ==> grid_rect(p.1) && grid_nonempty(p.1),
{
    if spec_decode(s) is Ok {
        let q = spec_find(s.skip(1), QUOTE);
        let body = s.skip(q + 2);
        let pg = spec_parse_grid(body);
        let g = unwrap_grid(pg);
        lemma_split_len(body, TILDE);
        assert(g.len() >= 1);
        let l0 = spec_split(body, TILDE)[0];
        lemma_split_len(l0, SLASH);
        assert(g[0] == unwrap_layer(pg[0]));
        assert(g[0].len() >= 1);
        let r0 = spec_split(l0, SLASH)[0];
        lemma_split_len(r0, COMMA);
        assert(g[0][0] == unwrap_row(pg[0][0]));
        assert(g[0][0].len() >= 1);
        assert(grid_nonempty(g));
    }
}

} // verus!
