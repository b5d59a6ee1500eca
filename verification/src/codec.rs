//! The binary dialect: one version byte, the two dimensions and the layer
//! count as 32-bit values, then every cell of every layer, each as a tag byte
//! and one or four 16-bit values. All values are written low byte first.

use crate::grid::{DimensionType, GridModel, IMF};
use crate::laws::lemma_decoded_is_well_formed;
use crate::tile::{Sides, Tile, TileType};
use crate::wire::{builder_bytes, reader_bytes, reader_pos, reader_wf};
use crate::wire::{builder_into_bytes, builder_new, push_i16, push_u32, push_u8};
use crate::wire::{read_i16, read_u32, read_u8, reader_new};
use crate::wire::{spec_i16_from_le_bytes, spec_i16_to_le_bytes};
use bytebuilder::builder::ByteBuilder;
use bytebuilder::reader::ByteReader;
use vstd::bytes::{spec_u32_from_le_bytes, spec_u32_to_le_bytes};
use vstd::prelude::*;

verus! {

/// The version byte of the binary dialect.
pub const BINARY_VERSION: u8 = 3;

/// The tag byte of a plain cell.
pub const TAG_INT: u8 = 0;

/// The tag byte of a directional cell.
pub const TAG_SIDES: u8 = 1;

/// Why a byte stream is no grid.
#[derive(Clone, Copy, Debug, PartialEq, Eq, Structural)]
pub enum DecodeError {
    /// The stream ends before the structure that it declares.
    Truncated,
    /// A cell starts with a tag byte that names no kind of cell.
    UnknownTag,
    /// The first byte names no supported version.
    MalformedHeader,
}

/// The bytes of one cell: its tag, then its value, or its values in the order
/// north, east, south, west.
pub open spec fn tile_bytes(tile: Tile) -> Seq<u8> {
    match tile {
        Tile::Int(t) => seq![TAG_INT] + spec_i16_to_le_bytes(t),
        Tile::Sides(d) => seq![TAG_SIDES] + spec_i16_to_le_bytes(d.n) + spec_i16_to_le_bytes(d.e)
            + spec_i16_to_le_bytes(d.s) + spec_i16_to_le_bytes(d.w),
    }
}

/// The bytes of a run of cells, one after the other.
pub open spec fn layer_bytes(tiles: Seq<Tile>) -> Seq<u8>
    decreases tiles.len(),
{
    if tiles.len() == 0 {
        Seq::empty()
    } else {
        layer_bytes(tiles.drop_last()) + tile_bytes(tiles.last())
    }
}

/// The bytes of a run of layers, one after the other.
pub open spec fn layers_bytes(layers: Seq<Seq<Tile>>) -> Seq<u8>
    decreases layers.len(),
{
    if layers.len() == 0 {
        Seq::empty()
    } else {
        layers_bytes(layers.drop_last()) + layer_bytes(layers.last())
    }
}

/// The thirteen bytes in front of the cells. The layer count is written
/// modulo 2^32.
pub open spec fn header_bytes(g: GridModel) -> Seq<u8> {
    seq![BINARY_VERSION] + spec_u32_to_le_bytes(g.width) + spec_u32_to_le_bytes(g.height)
        + spec_u32_to_le_bytes(g.layers.len() as u32)
}

/// The binary encoding of a grid.
pub open spec fn encoding(g: GridModel) -> Seq<u8> {
    header_bytes(g) + layers_bytes(g.layers)
}

/// The 16-bit value at a position of a stream.
pub open spec fn i16_at(s: Seq<u8>, pos: int) -> TileType {
    spec_i16_from_le_bytes(s.subrange(pos, pos + 2))
}

/// The 32-bit value at a position of a stream.
pub open spec fn u32_at(s: Seq<u8>, pos: int) -> DimensionType {
    spec_u32_from_le_bytes(s.subrange(pos, pos + 4))
}

/// The cell that starts at a position of a stream, with the position behind
/// it.
pub open spec fn parse_tile(s: Seq<u8>, pos: int) -> Result<(Tile, int), DecodeError> {
    if pos + 1 > s.len() {
        Err(DecodeError::Truncated)
    } else if s[pos] == TAG_INT {
        if pos + 3 > s.len() {
            Err(DecodeError::Truncated)
        } else {
            Ok((Tile::Int(i16_at(s, pos + 1)), pos + 3))
        }
    } else if s[pos] == TAG_SIDES {
        if pos + 9 > s.len() {
            Err(DecodeError::Truncated)
        } else {
            Ok(
                (
                    Tile::Sides(
                        Sides {
                            n: i16_at(s, pos + 1),
                            e: i16_at(s, pos + 3),
                            s: i16_at(s, pos + 5),
                            w: i16_at(s, pos + 7),
                        },
                    ),
                    pos + 9,
                ),
            )
        }
    } else {
        Err(DecodeError::UnknownTag)
    }
}

/// The `cells` cells that start at a position of a stream, with the position
/// behind them; the first cell that fails decides the error.
pub open spec fn parse_layer(s: Seq<u8>, pos: int, cells: nat) -> Result<
    (Seq<Tile>, int),
    DecodeError,
>
    decreases cells,
{
    if cells == 0 {
        Ok((Seq::empty(), pos))
    } else {
        match parse_layer(s, pos, (cells - 1) as nat) {
            Err(e) => Err(e),
            Ok((tiles, mid)) => match parse_tile(s, mid) {
                Err(e) => Err(e),
                Ok((tile, end)) => Ok((tiles.push(tile), end)),
            },
        }
    }
}

/// The `count` layers of `cells` cells each that start at a position of a
/// stream, with the position behind them.
pub open spec fn parse_layers(s: Seq<u8>, pos: int, cells: nat, count: nat) -> Result<
    (Seq<Seq<Tile>>, int),
    DecodeError,
>
    decreases count,
{
    if count == 0 {
        Ok((Seq::empty(), pos))
    } else {
        match parse_layers(s, pos, cells, (count - 1) as nat) {
            Err(e) => Err(e),
            Ok((layers, mid)) => match parse_layer(s, mid, cells) {
                Err(e) => Err(e),
                Ok((layer, end)) => Ok((layers.push(layer), end)),
            },
        }
    }
}

/// The grid whose dimensions, layer count and cells start at a position of a
/// stream, with the position behind it.
pub open spec fn parse_body(s: Seq<u8>, pos: int) -> Result<(GridModel, int), DecodeError> {
    if pos + 12 > s.len() {
        Err(DecodeError::Truncated)
    } else {
        let width = u32_at(s, pos);
        let height = u32_at(s, pos + 4);
        let count = u32_at(s, pos + 8);
        match parse_layers(s, pos + 12, (width * height) as nat, count as nat) {
            Err(e) => Err(e),
            Ok((layers, end)) => Ok((GridModel { width, height, layers }, end)),
        }
    }
}

/// The grid that a stream stands for. Bytes behind the last cell are not
/// looked at.
pub open spec fn decoding(s: Seq<u8>) -> Result<GridModel, DecodeError> {
    if s.len() == 0 {
        Err(DecodeError::Truncated)
    } else if s[0] != BINARY_VERSION {
        Err(DecodeError::MalformedHeader)
    } else {
        match parse_body(s, 1) {
            Err(e) => Err(e),
            Ok((g, _)) => Ok(g),
        }
    }
}

/// Once a cell has failed, asking for more cells gives the same error.
pub proof fn lemma_layer_error_stays(s: Seq<u8>, pos: int, a: nat, b: nat)
    requires
        a <= b,
        parse_layer(s, pos, a) is Err,
    ensures
        parse_layer(s, pos, b) == parse_layer(s, pos, a),
    decreases b,
{
    if a < b {
        lemma_layer_error_stays(s, pos, a, (b - 1) as nat);
    }
}

/// Once a layer has failed, asking for more layers gives the same error.
pub proof fn lemma_layers_error_stays(s: Seq<u8>, pos: int, cells: nat, a: nat, b: nat)
    requires
        a <= b,
        parse_layers(s, pos, cells, a) is Err,
    ensures
        parse_layers(s, pos, cells, b) == parse_layers(s, pos, cells, a),
    decreases b,
{
    if a < b {
        lemma_layers_error_stays(s, pos, cells, a, (b - 1) as nat);
    }
}

/// Appends the encoding of one cell to a builder.
pub(crate) fn encode_tile(bb: &mut ByteBuilder, tile: &Tile)
    ensures
        builder_bytes(*final(bb)) == builder_bytes(*old(bb)) + tile_bytes(*tile),
{
    match tile {
        Tile::Int(t) => {
            push_u8(bb, TAG_INT);
            push_i16(bb, *t);
        },
        Tile::Sides(sides) => {
            push_u8(bb, TAG_SIDES);
            push_i16(bb, sides.n);
            push_i16(bb, sides.e);
            push_i16(bb, sides.s);
            push_i16(bb, sides.w);
        },
    }
    assert(builder_bytes(*bb) =~= builder_bytes(*old(bb)) + tile_bytes(*tile));
}

fn take_u8(br: &mut ByteReader<'_>) -> (r: Result<u8, DecodeError>)
    requires
        reader_wf(*old(br)),
    ensures
        reader_bytes(*final(br)) == reader_bytes(*old(br)),
        reader_wf(*final(br)),
        reader_pos(*old(br)) + 1 <= reader_bytes(*old(br)).len() ==> r == Ok::<u8, DecodeError>(
            reader_bytes(*old(br))[reader_pos(*old(br))],
        ) && reader_pos(*final(br)) == reader_pos(*old(br)) + 1,
        reader_pos(*old(br)) + 1 > reader_bytes(*old(br)).len() ==> r == Err::<u8, DecodeError>(
            DecodeError::Truncated,
        ),
{
    match read_u8(br) {
        Some(v) => Ok(v),
        None => Err(DecodeError::Truncated),
    }
}

fn take_i16(br: &mut ByteReader<'_>) -> (r: Result<TileType, DecodeError>)
    requires
        reader_wf(*old(br)),
    ensures
        reader_bytes(*final(br)) == reader_bytes(*old(br)),
        reader_wf(*final(br)),
        reader_pos(*old(br)) + 2 <= reader_bytes(*old(br)).len() ==> r == Ok::<
            TileType,
            DecodeError,
        >(i16_at(reader_bytes(*old(br)), reader_pos(*old(br)))) && reader_pos(*final(br))
            == reader_pos(*old(br)) + 2,
        reader_pos(*old(br)) + 2 > reader_bytes(*old(br)).len() ==> r == Err::<
            TileType,
            DecodeError,
        >(DecodeError::Truncated),
{
    match read_i16(br) {
        Some(v) => Ok(v),
        None => Err(DecodeError::Truncated),
    }
}

fn take_u32(br: &mut ByteReader<'_>) -> (r: Result<DimensionType, DecodeError>)
    requires
        reader_wf(*old(br)),
    ensures
        reader_bytes(*final(br)) == reader_bytes(*old(br)),
        reader_wf(*final(br)),
        reader_pos(*old(br)) + 4 <= reader_bytes(*old(br)).len() ==> r == Ok::<
            DimensionType,
            DecodeError,
        >(u32_at(reader_bytes(*old(br)), reader_pos(*old(br)))) && reader_pos(*final(br))
            == reader_pos(*old(br)) + 4,
        reader_pos(*old(br)) + 4 > reader_bytes(*old(br)).len() ==> r == Err::<
            DimensionType,
            DecodeError,
        >(DecodeError::Truncated),
{
    match read_u32(br) {
        Some(v) => Ok(v),
        None => Err(DecodeError::Truncated),
    }
}

/// Reads one cell at the reader's position. On success the reader stands
/// behind the cell.
pub(crate) fn decode_tile(br: &mut ByteReader<'_>) -> (r: Result<Tile, DecodeError>)
    requires
        reader_wf(*old(br)),
    ensures
        reader_bytes(*final(br)) == reader_bytes(*old(br)),
        reader_wf(*final(br)),
        match parse_tile(reader_bytes(*old(br)), reader_pos(*old(br))) {
            Ok((tile, end)) => r == Ok::<Tile, DecodeError>(tile) && reader_pos(*final(br)) == end,
            Err(e) => r == Err::<Tile, DecodeError>(e),
        },
{
    let tag: u8 = take_u8(br)?;
    if tag == TAG_INT {
        let t: TileType = take_i16(br)?;
        Ok(Tile::Int(t))
    } else if tag == TAG_SIDES {
        let n: TileType = take_i16(br)?;
        let e: TileType = take_i16(br)?;
        let s: TileType = take_i16(br)?;
        let w: TileType = take_i16(br)?;
        Ok(Tile::Sides(Sides { n, e, s, w }))
    } else {
        Err(DecodeError::UnknownTag)
    }
}

impl IMF {
    /// The grid in the binary dialect.
    pub(crate) fn ser_v3(&self) -> (bytes: Vec<u8>)
        ensures
            bytes@ == encoding(self@),
    {
        let mut bb = builder_new();
        push_u8(&mut bb, BINARY_VERSION);
        push_u32(&mut bb, self.width);
        push_u32(&mut bb, self.height);
        push_u32(&mut bb, #[verifier::truncate] (self.layers.len() as u32));
        assert(builder_bytes(bb) =~= header_bytes(self@));
        let mut i: usize = 0;
        while i < self.layers.len()
            invariant
                i <= self.layers.len(),
                builder_bytes(bb) == header_bytes(self@) + layers_bytes(self@.layers.take(i as int)),
            decreases self.layers.len() - i,
        {
            let layer: &Vec<Tile> = &self.layers[i];
            let ghost before = builder_bytes(bb);
            let mut j: usize = 0;
            while j < layer.len()
                invariant
                    j <= layer.len(),
                    builder_bytes(bb) == before + layer_bytes(layer@.take(j as int)),
                decreases layer.len() - j,
            {
                encode_tile(&mut bb, &layer[j]);
                proof {
                    let next = layer@.take(j + 1);
                    assert(next.drop_last() =~= layer@.take(j as int));
                    assert(next.last() == layer@[j as int]);
                    assert(builder_bytes(bb) =~= before + layer_bytes(next));
                }
                j = j + 1;
            }
            proof {
                assert(layer@.take(layer@.len() as int) =~= layer@);
                let next = self@.layers.take(i + 1);
                assert(next.drop_last() =~= self@.layers.take(i as int));
                assert(next.last() == layer@);
                assert(builder_bytes(bb) =~= header_bytes(self@) + layers_bytes(next));
            }
            i = i + 1;
        }
        assert(self@.layers.take(self@.layers.len() as int) =~= self@.layers);
        builder_into_bytes(bb)
    }

    /// Reads the dimensions, the layer count and the cells at the reader's
    /// position. On success the reader stands behind the last cell.
    pub(crate) fn deser_v3(br: &mut ByteReader<'_>) -> (r: Result<IMF, DecodeError>)
        requires
            reader_wf(*old(br)),
        ensures
            reader_bytes(*final(br)) == reader_bytes(*old(br)),
            reader_wf(*final(br)),
            match parse_body(reader_bytes(*old(br)), reader_pos(*old(br))) {
                Ok((g, end)) => r matches Ok(imf) && imf@ == g && reader_pos(*final(br)) == end,
                Err(e) => r matches Err(f) && f == e,
            },
    {
        let ghost s = reader_bytes(*br);
        let ghost start = reader_pos(*br);
        let width: DimensionType = take_u32(br)?;
        let height: DimensionType = take_u32(br)?;
        let layer_count: DimensionType = take_u32(br)?;
        assert(width as u64 * height as u64 <= 0xffff_ffff * 0xffff_ffff) by (nonlinear_arith)
            requires
                width <= 0xffff_ffff,
                height <= 0xffff_ffff,
        ;
        let cells: u64 = width as u64 * height as u64;
        let mut layers: Vec<Vec<Tile>> = Vec::new();
        assert(layers@.map_values(|l: Vec<Tile>| l@) =~= Seq::<Seq<Tile>>::empty());
        let mut i: u32 = 0;
        while i < layer_count
            invariant
                i <= layer_count,
                s == reader_bytes(*old(br)),
                start == reader_pos(*old(br)),
                start + 12 <= s.len(),
                width == u32_at(s, start),
                height == u32_at(s, start + 4),
                layer_count == u32_at(s, start + 8),
                cells == width * height,
                reader_bytes(*br) == s,
                reader_wf(*br),
                parse_layers(s, start + 12, cells as nat, i as nat) == Ok::<
                    (Seq<Seq<Tile>>, int),
                    DecodeError,
                >((layers@.map_values(|l: Vec<Tile>| l@), reader_pos(*br))),
            decreases layer_count - i,
        {
            let ghost layer_start = reader_pos(*br);
            let mut layer: Vec<Tile> = Vec::new();
            let mut j: u64 = 0;
            while j < cells
                invariant
                    j <= cells,
                    i < layer_count,
                    s == reader_bytes(*old(br)),
                    start == reader_pos(*old(br)),
                    start + 12 <= s.len(),
                    width == u32_at(s, start),
                    height == u32_at(s, start + 4),
                    layer_count == u32_at(s, start + 8),
                    cells == width * height,
                    reader_bytes(*br) == s,
                    reader_wf(*br),
                    parse_layers(s, start + 12, cells as nat, i as nat) == Ok::<
                        (Seq<Seq<Tile>>, int),
                        DecodeError,
                    >((layers@.map_values(|l: Vec<Tile>| l@), layer_start)),
                    parse_layer(s, layer_start, j as nat) == Ok::<(Seq<Tile>, int), DecodeError>(
                        (layer@, reader_pos(*br)),
                    ),
                decreases cells - j,
            {
                match decode_tile(br) {
                    Ok(tile) => {
                        layer.push(tile);
                    },
                    Err(e) => {
                        proof {
                            lemma_layer_error_stays(s, layer_start, (j + 1) as nat, cells as nat);
                            lemma_layers_error_stays(
                                s,
                                start + 12,
                                cells as nat,
                                (i + 1) as nat,
                                layer_count as nat,
                            );
                        }
                        return Err(e);
                    },
                }
                j = j + 1;
            }
            let ghost done = layers@.map_values(|l: Vec<Tile>| l@);
            let ghost cells_read = layer@;
            layers.push(layer);
            assert(layers@.map_values(|l: Vec<Tile>| l@) =~= done.push(cells_read));
            i = i + 1;
        }
        Ok(IMF { width, height, layers })
    }

    /// The grid in the binary dialect.
    pub fn to_bytes(&self) -> (bytes: Vec<u8>)
        ensures
            bytes@ == encoding(self@),
    {
        self.ser_v3()
    }

    /// Reads a grid from a byte stream: the first byte selects the dialect,
    /// which then decides. Says why a stream is no grid.
    pub fn decode(bytes: &[u8]) -> (r: Result<IMF, DecodeError>)
        ensures
            match decoding(bytes@) {
                Ok(g) => r matches Ok(imf) && imf@ == g && imf.wf(),
                Err(e) => r matches Err(f) && f == e,
            },
    {
        proof {
            if decoding(bytes@) is Ok {
                lemma_decoded_is_well_formed(bytes@);
            }
        }
        let mut br = reader_new(bytes);
        let version: u8 = take_u8(&mut br)?;
        if version == BINARY_VERSION {
            IMF::deser_v3(&mut br)
        } else {
            Err(DecodeError::MalformedHeader)
        }
    }

    /// Reads a grid from a byte stream; `None` exactly when the stream is no
    /// grid.
    pub fn from_bytes(bytes: &[u8]) -> (r: Option<IMF>)
        ensures
            match decoding(bytes@) {
                Ok(g) => r matches Some(imf) && imf@ == g && imf.wf(),
                Err(_) => r is None,
            },
    {
        match IMF::decode(bytes) {
            Ok(imf) => Some(imf),
            Err(_) => None,
        }
    }
}

impl DecodeError {
    /// The error in words, with the part of the stream that it is about in
    /// front.
    pub open spec fn message_text(self) -> Seq<char> {
        match self {
            DecodeError::Truncated => "Binary: stream ends too early"@,
            DecodeError::UnknownTag => "Binary: unknown cell tag"@,
            DecodeError::MalformedHeader => "Header: unknown version"@,
        }
    }

    /// The error in words, with the part of the stream that it is about in
    /// front.
    pub fn message(&self) -> (r: String)
        ensures
            r@ == self.message_text(),
    {
        match self {
            DecodeError::Truncated => "Binary: stream ends too early".to_owned(),
            DecodeError::UnknownTag => "Binary: unknown cell tag".to_owned(),
            DecodeError::MalformedHeader => "Header: unknown version".to_owned(),
        }
    }
}


} // verus!
