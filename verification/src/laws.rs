//! What holds between the functions of this library: coordinates against
//! indices, and decoding against encoding.

use crate::codec::{decoding, encoding, layer_bytes, layers_bytes, tile_bytes};
use crate::codec::{header_bytes, i16_at, parse_body, parse_layer, parse_layers, parse_tile, u32_at};
use crate::codec::{lemma_layer_error_stays, lemma_layers_error_stays};
use crate::codec::{DecodeError, BINARY_VERSION, TAG_INT, TAG_SIDES};
use crate::grid::{DimensionType, GridModel};
use crate::tile::{Sides, Tile, TileType};
use crate::wire::{spec_i16_from_le_bytes, spec_i16_to_le_bytes};
use vstd::bytes::{lemma_auto_spec_u16_to_from_le_bytes, lemma_auto_spec_u32_to_from_le_bytes};
use vstd::bytes::{spec_u16_from_le_bytes, spec_u16_to_le_bytes, spec_u32_to_le_bytes};
use vstd::prelude::*;

verus! {

/// Every coordinate inside the grid has an index below `width * height`, and
/// the coordinate of that index is the coordinate again.
pub proof fn lemma_coordinate_round_trip(g: GridModel, x: DimensionType, y: DimensionType)
    requires
        g.in_bounds(x, y),
    ensures
        0 <= g.index_of(x, y) < g.width * g.height,
        g.coordinate_of(g.index_of(x, y)) == (x as int, y as int),
{
    let w = g.width as int;
    let h = g.height as int;
    let xi = x as int;
    let yi = y as int;
    assert(0 <= yi * w + xi < w * h) by (nonlinear_arith)
        requires
            0 <= xi < w,
            0 <= yi < h,
    ;
    assert((yi * w + xi) % w == xi && (yi * w + xi) / w == yi) by {
        vstd::arithmetic::div_mod::lemma_fundamental_div_mod_converse(yi * w + xi, w, yi, xi);
    }
}

/// Every index below `width * height` has a coordinate inside the grid, and
/// the index of that coordinate is the index again.
pub proof fn lemma_index_round_trip(g: GridModel, index: int)
    requires
        0 <= index < g.width * g.height,
    ensures
        0 <= g.coordinate_of(index).0 < g.width,
        0 <= g.coordinate_of(index).1 < g.height,
        g.index_of(
            g.coordinate_of(index).0 as DimensionType,
            g.coordinate_of(index).1 as DimensionType,
        ) == index,
{
    let w = g.width as int;
    let h = g.height as int;
    assert(w > 0) by (nonlinear_arith)
        requires
            0 <= index < w * h,
            0 <= w,
            0 <= h,
    ;
    vstd::arithmetic::div_mod::lemma_fundamental_div_mod(index, w);
    vstd::arithmetic::div_mod::lemma_mod_bound(index, w);
    let x = index % w;
    let y = index / w;
    assert(0 <= y < h) by (nonlinear_arith)
        requires
            0 <= index < w * h,
            w > 0,
            index == w * y + x,
            0 <= x < w,
    ;
    assert(y * w + x == index) by (nonlinear_arith)
        requires
            index == w * y + x,
    ;
}

/// Two different coordinates inside the grid have different indices.
pub proof fn lemma_index_injective(
    g: GridModel,
    x1: DimensionType,
    y1: DimensionType,
    x2: DimensionType,
    y2: DimensionType,
)
    requires
        g.in_bounds(x1, y1),
        g.in_bounds(x2, y2),
        g.index_of(x1, y1) == g.index_of(x2, y2),
    ensures
        x1 == x2,
        y1 == y2,
{
    lemma_coordinate_round_trip(g, x1, y1);
    lemma_coordinate_round_trip(g, x2, y2);
}

/// A 16-bit value is what its two bytes stand for.
pub proof fn lemma_i16_le_round_trip(v: TileType)
    ensures
        spec_i16_to_le_bytes(v).len() == 2,
        spec_i16_from_le_bytes(spec_i16_to_le_bytes(v)) == v,
{
    lemma_auto_spec_u16_to_from_le_bytes();
    let u = v as u16;
    assert(u as i16 == v) by (bit_vector)
        requires
            u == v as u16,
    ;
    assert(spec_i16_to_le_bytes(v).len() == 2);
    assert(vstd::bytes::spec_u16_from_le_bytes(vstd::bytes::spec_u16_to_le_bytes(u)) == u);
}

/// The number of bytes of a cell: three for a plain cell, nine for a
/// directional one.
pub proof fn lemma_tile_bytes_len(tile: Tile)
    ensures
        tile is Int ==> tile_bytes(tile).len() == 3,
        tile is Sides ==> tile_bytes(tile).len() == 9,
{
    lemma_auto_spec_u16_to_from_le_bytes();
}

/// Where a stream holds the bytes of a cell, that cell is read there.
pub proof fn lemma_parse_tile_of_bytes(s: Seq<u8>, pos: int, tile: Tile)
    requires
        0 <= pos,
        pos + tile_bytes(tile).len() <= s.len(),
        s.subrange(pos, pos + tile_bytes(tile).len()) == tile_bytes(tile),
    ensures
        parse_tile(s, pos) == Ok::<(Tile, int), DecodeError>(
            (tile, pos + tile_bytes(tile).len()),
        ),
{
    lemma_tile_bytes_len(tile);
    lemma_auto_spec_u16_to_from_le_bytes();
    let b = tile_bytes(tile);
    assert(s[pos] == b[0]);
    match tile {
        Tile::Int(t) => {
            lemma_i16_le_round_trip(t);
            assert(s.subrange(pos + 1, pos + 3) =~= b.subrange(1, 3));
            assert(b.subrange(1, 3) =~= spec_i16_to_le_bytes(t));
        },
        Tile::Sides(d) => {
            lemma_i16_le_round_trip(d.n);
            lemma_i16_le_round_trip(d.e);
            lemma_i16_le_round_trip(d.s);
            lemma_i16_le_round_trip(d.w);
            assert(s.subrange(pos + 1, pos + 3) =~= b.subrange(1, 3));
            assert(s.subrange(pos + 3, pos + 5) =~= b.subrange(3, 5));
            assert(s.subrange(pos + 5, pos + 7) =~= b.subrange(5, 7));
            assert(s.subrange(pos + 7, pos + 9) =~= b.subrange(7, 9));
            assert(b.subrange(1, 3) =~= spec_i16_to_le_bytes(d.n));
            assert(b.subrange(3, 5) =~= spec_i16_to_le_bytes(d.e));
            assert(b.subrange(5, 7) =~= spec_i16_to_le_bytes(d.s));
            assert(b.subrange(7, 9) =~= spec_i16_to_le_bytes(d.w));
        },
    }
}

/// Where a stream holds the bytes of a run of cells, those cells are read
/// there.
pub proof fn lemma_parse_layer_of_bytes(s: Seq<u8>, pos: int, tiles: Seq<Tile>)
    requires
        0 <= pos,
        pos + layer_bytes(tiles).len() <= s.len(),
        s.subrange(pos, pos + layer_bytes(tiles).len()) == layer_bytes(tiles),
    ensures
        parse_layer(s, pos, tiles.len()) == Ok::<(Seq<Tile>, int), DecodeError>(
            (tiles, pos + layer_bytes(tiles).len()),
        ),
    decreases tiles.len(),
{
    if tiles.len() > 0 {
        let front = tiles.drop_last();
        let mid = pos + layer_bytes(front).len();
        let whole = layer_bytes(tiles);
        assert(s.subrange(pos, mid) =~= whole.subrange(0, layer_bytes(front).len() as int));
        assert(whole.subrange(0, layer_bytes(front).len() as int) =~= layer_bytes(front));
        lemma_parse_layer_of_bytes(s, pos, front);
        assert(s.subrange(mid, mid + tile_bytes(tiles.last()).len()) =~= whole.subrange(
            layer_bytes(front).len() as int,
            whole.len() as int,
        ));
        assert(whole.subrange(layer_bytes(front).len() as int, whole.len() as int) =~= tile_bytes(
            tiles.last(),
        ));
        lemma_parse_tile_of_bytes(s, mid, tiles.last());
        assert(front.push(tiles.last()) =~= tiles);
    } else {
        assert(tiles =~= Seq::<Tile>::empty());
    }
}

/// Where a stream holds the bytes of a run of layers of `cells` cells each,
/// those layers are read there.
pub proof fn lemma_parse_layers_of_bytes(
    s: Seq<u8>,
    pos: int,
    cells: nat,
    layers: Seq<Seq<Tile>>,
)
    requires
        0 <= pos,
        pos + layers_bytes(layers).len() <= s.len(),
        s.subrange(pos, pos + layers_bytes(layers).len()) == layers_bytes(layers),
        forall|i: int| 0 <= i < layers.len() ==> (#[trigger] layers[i]).len() == cells,
    ensures
        parse_layers(s, pos, cells, layers.len()) == Ok::<(Seq<Seq<Tile>>, int), DecodeError>(
            (layers, pos + layers_bytes(layers).len()),
        ),
    decreases layers.len(),
{
    if layers.len() > 0 {
        let front = layers.drop_last();
        let mid = pos + layers_bytes(front).len();
        let whole = layers_bytes(layers);
        assert(s.subrange(pos, mid) =~= whole.subrange(0, layers_bytes(front).len() as int));
        assert(whole.subrange(0, layers_bytes(front).len() as int) =~= layers_bytes(front));
        lemma_parse_layers_of_bytes(s, pos, cells, front);
        assert(s.subrange(mid, mid + layer_bytes(layers.last()).len()) =~= whole.subrange(
            layers_bytes(front).len() as int,
            whole.len() as int,
        ));
        assert(whole.subrange(layers_bytes(front).len() as int, whole.len() as int)
            =~= layer_bytes(layers.last()));
        lemma_parse_layer_of_bytes(s, mid, layers.last());
        assert(front.push(layers.last()) =~= layers);
    } else {
        assert(layers =~= Seq::<Seq<Tile>>::empty());
    }
}

/// Where a stream holds the encoding of a well-formed grid behind its first
/// byte, with a layer count that fits in 32 bits, the grid is read there and
/// the position behind it is the end of the encoding.
pub proof fn lemma_parse_body_of_encoding(g: GridModel)
    requires
        g.wf(),
        g.layers.len() <= u32::MAX,
    ensures
        encoding(g).len() == 13 + layers_bytes(g.layers).len(),
        encoding(g)[0] == BINARY_VERSION,
        parse_body(encoding(g), 1) == Ok::<(GridModel, int), DecodeError>(
            (g, encoding(g).len() as int),
        ),
{
    lemma_auto_spec_u32_to_from_le_bytes();
    let s = encoding(g);
    let count = g.layers.len() as u32;
    assert(s.subrange(1, 5) =~= spec_u32_to_le_bytes(g.width));
    assert(s.subrange(5, 9) =~= spec_u32_to_le_bytes(g.height));
    assert(s.subrange(9, 13) =~= spec_u32_to_le_bytes(count));
    assert(s.subrange(13, s.len() as int) =~= layers_bytes(g.layers));
    lemma_parse_layers_of_bytes(s, 13, (g.width * g.height) as nat, g.layers);
}

/// Decoding the encoding of a well-formed grid whose layer count fits in 32
/// bits gives the grid back, whatever its layers and cells are.
pub proof fn lemma_decode_encode(g: GridModel)
    requires
        g.wf(),
        g.layers.len() <= u32::MAX,
    ensures
        decoding(encoding(g)) == Ok::<GridModel, DecodeError>(g),
{
    lemma_parse_body_of_encoding(g);
}

/// Encoding, decoding and encoding again gives the bytes of the first
/// encoding.
pub proof fn lemma_encode_decode_encode(g: GridModel)
    requires
        g.wf(),
        g.layers.len() <= u32::MAX,
    ensures
        decoding(encoding(g)) matches Ok(h) && encoding(h) == encoding(g),
{
    lemma_decode_encode(g);
}

/// A cell that is read ends inside the stream, at least three bytes on. In a
/// stream cut off at `k` the same cell is read if it ends by `k`; if not, the
/// stream is found too short.
pub proof fn lemma_tile_cut(s: Seq<u8>, pos: int, k: int)
    requires
        0 <= pos,
        0 <= k <= s.len(),
        parse_tile(s, pos) is Ok,
    ensures
        parse_tile(s, pos) matches Ok((_, end)) && {
            &&& pos + 3 <= end <= s.len()
            &&& end <= k ==> parse_tile(s.take(k), pos) == parse_tile(s, pos)
            &&& end > k ==> parse_tile(s.take(k), pos) == Err::<(Tile, int), DecodeError>(
                DecodeError::Truncated,
            )
        },
{
    let cut = s.take(k);
    let end = parse_tile(s, pos)->Ok_0.1;
    if end <= k {
        assert(cut[pos] == s[pos]);
        assert(cut.subrange(pos + 1, pos + 3) =~= s.subrange(pos + 1, pos + 3));
        if s[pos] == TAG_SIDES {
            assert(cut.subrange(pos + 3, pos + 5) =~= s.subrange(pos + 3, pos + 5));
            assert(cut.subrange(pos + 5, pos + 7) =~= s.subrange(pos + 5, pos + 7));
            assert(cut.subrange(pos + 7, pos + 9) =~= s.subrange(pos + 7, pos + 9));
        }
    } else if pos < k {
        assert(cut[pos] == s[pos]);
    }
}

/// A layer that is read holds `cells` cells and ends inside the stream. In a
/// stream cut off at `k` the same layer is read if it ends by `k` or takes no
/// byte at all; if not, the stream is found too short.
pub proof fn lemma_layer_cut(s: Seq<u8>, pos: int, cells: nat, k: int)
    requires
        0 <= pos <= s.len(),
        0 <= k <= s.len(),
        parse_layer(s, pos, cells) is Ok,
    ensures
        parse_layer(s, pos, cells) matches Ok((tiles, end)) && {
            &&& tiles.len() == cells
            &&& pos <= end <= s.len()
            &&& end <= k || end == pos ==> parse_layer(s.take(k), pos, cells) == parse_layer(
                s,
                pos,
                cells,
            )
            &&& end > k && end > pos ==> parse_layer(s.take(k), pos, cells) == Err::<
                (Seq<Tile>, int),
                DecodeError,
            >(DecodeError::Truncated)
        },
    decreases cells,
{
    if cells > 0 {
        let fewer = (cells - 1) as nat;
        assert(parse_layer(s, pos, fewer) is Ok);
        lemma_layer_cut(s, pos, fewer, k);
        let mid = parse_layer(s, pos, fewer)->Ok_0.1;
        assert(parse_tile(s, mid) is Ok);
        lemma_tile_cut(s, mid, k);
    }
}

/// A run of layers that is read holds `count` layers of `cells` cells each
/// and ends inside the stream. In a stream cut off at `k` the same layers are
/// read if they end by `k` or take no byte at all; if not, the stream is
/// found too short.
pub proof fn lemma_layers_cut(s: Seq<u8>, pos: int, cells: nat, count: nat, k: int)
    requires
        0 <= pos <= s.len(),
        0 <= k <= s.len(),
        parse_layers(s, pos, cells, count) is Ok,
    ensures
        parse_layers(s, pos, cells, count) matches Ok((layers, end)) && {
            &&& layers.len() == count
            &&& forall|i: int| 0 <= i < count ==> (#[trigger] layers[i]).len() == cells
            &&& pos <= end <= s.len()
            &&& end <= k || end == pos ==> parse_layers(s.take(k), pos, cells, count)
                == parse_layers(s, pos, cells, count)
            &&& end > k && end > pos ==> parse_layers(s.take(k), pos, cells, count) == Err::<
                (Seq<Seq<Tile>>, int),
                DecodeError,
            >(DecodeError::Truncated)
        },
    decreases count,
{
    if count > 0 {
        let fewer = (count - 1) as nat;
        assert(parse_layers(s, pos, cells, fewer) is Ok);
        lemma_layers_cut(s, pos, cells, fewer, k);
        let mid = parse_layers(s, pos, cells, fewer)->Ok_0.1;
        assert(parse_layer(s, mid, cells) is Ok);
        lemma_layer_cut(s, mid, cells, k);
    }
}

/// A grid that is decoded is well-formed, its layer count fits in 32 bits,
/// and its cells end inside the stream.
pub proof fn lemma_decoded_is_well_formed(s: Seq<u8>)
    requires
        decoding(s) is Ok,
    ensures
        decoding(s) matches Ok(g) && g.wf() && g.layers.len() <= u32::MAX,
        parse_body(s, 1) matches Ok((_, end)) && 13 <= end <= s.len(),
{
    let cells = (u32_at(s, 1) * u32_at(s, 5)) as nat;
    lemma_layers_cut(s, 13, cells, u32_at(s, 9) as nat, s.len() as int);
}

/// A stream that decodes, cut off anywhere before the end of its last cell,
/// is found too short: no shorter grid comes out of it.
pub proof fn lemma_cut_stream_is_truncated(s: Seq<u8>, k: int)
    requires
        decoding(s) is Ok,
        0 <= k < parse_body(s, 1)->Ok_0.1,
    ensures
        decoding(s.take(k)) == Err::<GridModel, DecodeError>(DecodeError::Truncated),
{
    lemma_decoded_is_well_formed(s);
    let cut = s.take(k);
    let cells = (u32_at(s, 1) * u32_at(s, 5)) as nat;
    if k >= 13 {
        assert(cut[0] == s[0]);
        assert(cut.subrange(1, 5) =~= s.subrange(1, 5));
        assert(cut.subrange(5, 9) =~= s.subrange(5, 9));
        assert(cut.subrange(9, 13) =~= s.subrange(9, 13));
        lemma_layers_cut(s, 13, cells, u32_at(s, 9) as nat, k);
    } else if k >= 1 {
        assert(cut[0] == s[0]);
    }
}

/// The encoding of a grid, cut off anywhere before its end, is found too
/// short.
pub proof fn lemma_cut_encoding_is_truncated(g: GridModel, k: int)
    requires
        g.wf(),
        g.layers.len() <= u32::MAX,
        0 <= k < encoding(g).len(),
    ensures
        decoding(encoding(g).take(k)) == Err::<GridModel, DecodeError>(DecodeError::Truncated),
{
    lemma_parse_body_of_encoding(g);
    lemma_cut_stream_is_truncated(encoding(g), k);
}

/// A stream in the binary dialect in which, after some whole layers and some
/// cells of the next layer have been read, a cell that the header still asks
/// for starts with a byte that is no tag, fails for that tag.
pub proof fn lemma_unknown_tag_fails(s: Seq<u8>, layers_read: nat, cells_read: nat)
    requires
        s.len() >= 13,
        s[0] == BINARY_VERSION,
        layers_read < u32_at(s, 9),
        cells_read < u32_at(s, 1) * u32_at(s, 5),
        parse_layers(s, 13, (u32_at(s, 1) * u32_at(s, 5)) as nat, layers_read) matches Ok(
            (_, layer_start),
        ) && parse_layer(s, layer_start, cells_read) matches Ok((_, at)) && 0 <= at < s.len()
            && s[at] != TAG_INT && s[at] != TAG_SIDES,
    ensures
        decoding(s) == Err::<GridModel, DecodeError>(DecodeError::UnknownTag),
{
    let cells = (u32_at(s, 1) * u32_at(s, 5)) as nat;
    let layer_start = parse_layers(s, 13, cells, layers_read)->Ok_0.1;
    lemma_layer_error_stays(s, layer_start, cells_read + 1, cells);
    lemma_layers_error_stays(s, 13, cells, layers_read + 1, u32_at(s, 9) as nat);
}

/// Two bytes are the bytes of the 16-bit value that they stand for.
pub proof fn lemma_i16_le_bytes_back(s: Seq<u8>)
    requires
        s.len() == 2,
    ensures
        spec_i16_to_le_bytes(spec_i16_from_le_bytes(s)) == s,
{
    lemma_auto_spec_u16_to_from_le_bytes();
    let u = spec_u16_from_le_bytes(s);
    let v = u as i16;
    assert(v as u16 == u) by (bit_vector)
        requires
            v == u as i16,
    ;
    assert(spec_u16_to_le_bytes(u) == s);
}

/// The bytes that a cell was read from are the bytes of that cell.
pub proof fn lemma_tile_read_is_written(s: Seq<u8>, pos: int)
    requires
        0 <= pos,
        parse_tile(s, pos) is Ok,
    ensures
        parse_tile(s, pos) matches Ok((tile, end)) && pos <= end <= s.len() && s.subrange(
            pos,
            end,
        ) == tile_bytes(tile),
{
    let tile = parse_tile(s, pos)->Ok_0.0;
    let end = parse_tile(s, pos)->Ok_0.1;
    lemma_i16_le_bytes_back(s.subrange(pos + 1, pos + 3));
    if s[pos] == TAG_SIDES {
        lemma_i16_le_bytes_back(s.subrange(pos + 3, pos + 5));
        lemma_i16_le_bytes_back(s.subrange(pos + 5, pos + 7));
        lemma_i16_le_bytes_back(s.subrange(pos + 7, pos + 9));
        assert(s.subrange(pos, end) =~= seq![TAG_SIDES] + s.subrange(pos + 1, pos + 3)
            + s.subrange(pos + 3, pos + 5) + s.subrange(pos + 5, pos + 7) + s.subrange(
            pos + 7,
            pos + 9,
        ));
    } else {
        assert(s.subrange(pos, end) =~= seq![TAG_INT] + s.subrange(pos + 1, pos + 3));
    }
}

/// The bytes that a layer was read from are the bytes of that layer.
pub proof fn lemma_layer_read_is_written(s: Seq<u8>, pos: int, cells: nat)
    requires
        0 <= pos <= s.len(),
        parse_layer(s, pos, cells) is Ok,
    ensures
        parse_layer(s, pos, cells) matches Ok((tiles, end)) && pos <= end <= s.len()
            && s.subrange(pos, end) == layer_bytes(tiles),
    decreases cells,
{
    if cells > 0 {
        let fewer = (cells - 1) as nat;
        lemma_layer_read_is_written(s, pos, fewer);
        let front = parse_layer(s, pos, fewer)->Ok_0.0;
        let mid = parse_layer(s, pos, fewer)->Ok_0.1;
        lemma_tile_read_is_written(s, mid);
        let tile = parse_tile(s, mid)->Ok_0.0;
        let end = parse_tile(s, mid)->Ok_0.1;
        assert(front.push(tile).drop_last() =~= front);
        assert(s.subrange(pos, end) =~= s.subrange(pos, mid) + s.subrange(mid, end));
    } else {
        assert(s.subrange(pos, pos) =~= Seq::<u8>::empty());
    }
}

/// The bytes that a run of layers was read from are the bytes of those
/// layers.
pub proof fn lemma_layers_read_are_written(s: Seq<u8>, pos: int, cells: nat, count: nat)
    requires
        0 <= pos <= s.len(),
        parse_layers(s, pos, cells, count) is Ok,
    ensures
        parse_layers(s, pos, cells, count) matches Ok((layers, end)) && pos <= end <= s.len()
            && layers.len() == count && s.subrange(pos, end) == layers_bytes(layers),
    decreases count,
{
    if count > 0 {
        let fewer = (count - 1) as nat;
        lemma_layers_read_are_written(s, pos, cells, fewer);
        let front = parse_layers(s, pos, cells, fewer)->Ok_0.0;
        let mid = parse_layers(s, pos, cells, fewer)->Ok_0.1;
        lemma_layer_read_is_written(s, mid, cells);
        let layer = parse_layer(s, mid, cells)->Ok_0.0;
        let end = parse_layer(s, mid, cells)->Ok_0.1;
        assert(front.push(layer).drop_last() =~= front);
        assert(s.subrange(pos, end) =~= s.subrange(pos, mid) + s.subrange(mid, end));
    } else {
        assert(s.subrange(pos, pos) =~= Seq::<u8>::empty());
    }
}

/// Encoding a grid that was decoded gives the bytes that it was decoded
/// from, up to the end of its last cell: every grid has one encoding only.
pub proof fn lemma_encode_decode(s: Seq<u8>)
    requires
        decoding(s) is Ok,
    ensures
        parse_body(s, 1) matches Ok((g, end)) && 13 <= end <= s.len() && encoding(g)
            == s.subrange(0, end),
{
    lemma_auto_spec_u32_to_from_le_bytes();
    let cells = (u32_at(s, 1) * u32_at(s, 5)) as nat;
    let count = u32_at(s, 9);
    lemma_layers_read_are_written(s, 13, cells, count as nat);
    let g = parse_body(s, 1)->Ok_0.0;
    let end = parse_body(s, 1)->Ok_0.1;
    assert(g.layers.len() as u32 == count);
    assert(spec_u32_to_le_bytes(g.width) == s.subrange(1, 5));
    assert(spec_u32_to_le_bytes(g.height) == s.subrange(5, 9));
    assert(spec_u32_to_le_bytes(count) == s.subrange(9, 13));
    assert(header_bytes(g) =~= s.subrange(0, 13));
    assert(s.subrange(0, end) =~= s.subrange(0, 13) + s.subrange(13, end));
}

} // verus!
