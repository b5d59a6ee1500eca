//! The byte buffer and byte cursor of `bytebuilder`, as the codec sees them.
//!
//! The contracts of the functions in this file are not proved: each restates
//! what the crate's source does with the builder's `bytes` and the reader's
//! `bytes` and `pos`.

use bytebuilder::builder::ByteBuilder;
use bytebuilder::reader::ByteReader;
use vstd::bytes::{spec_u16_from_le_bytes, spec_u16_to_le_bytes};
use vstd::bytes::{spec_u32_from_le_bytes, spec_u32_to_le_bytes};
use vstd::prelude::*;

verus! {

/// `bytebuilder::builder::ByteBuilder`, a growing byte buffer.
#[verifier::external_type_specification]
#[verifier::external_body]
pub struct ExByteBuilder(bytebuilder::builder::ByteBuilder);

/// `bytebuilder::reader::ByteReader`, a cursor over a borrowed byte slice.
#[verifier::external_type_specification]
#[verifier::external_body]
pub struct ExByteReader<'a>(bytebuilder::reader::ByteReader<'a>);

/// The bytes pushed onto a builder so far (its field `bytes`).
pub uninterp spec fn builder_bytes(b: ByteBuilder) -> Seq<u8>;

/// The whole slice that a reader walks over (its field `bytes`).
pub uninterp spec fn reader_bytes(r: ByteReader<'_>) -> Seq<u8>;

/// The index of the next byte that a reader hands out (its field `pos`).
pub uninterp spec fn reader_pos(r: ByteReader<'_>) -> int;

/// The two bytes of a signed 16-bit value, low byte first.
pub open spec fn spec_i16_to_le_bytes(v: i16) -> Seq<u8> {
    spec_u16_to_le_bytes(v as u16)
}

/// The signed 16-bit value that two bytes, low byte first, stand for.
pub open spec fn spec_i16_from_le_bytes(s: Seq<u8>) -> i16
    recommends
        s.len() == 2,
{
    spec_u16_from_le_bytes(s) as i16
}

/// A reader whose position lies within its slice. The reading methods work
/// out what is left as the slice's length less the position, so each of
/// their contracts asks for this; a reader made by `ByteReader::new` and moved
/// by them alone keeps it.
pub open spec fn reader_wf(r: ByteReader<'_>) -> bool {
    0 <= reader_pos(r) <= reader_bytes(r).len()
}

/// `ByteBuilder::new`: a builder that holds no byte.
#[verifier::external_body]
pub(crate) fn builder_new() -> (b: ByteBuilder)
    ensures
        builder_bytes(b) == Seq::<u8>::empty(),
{
    ByteBuilder::new()
}

/// `ByteBuilder::push_u8`: appends the byte.
#[verifier::external_body]
pub(crate) fn push_u8(b: &mut ByteBuilder, value: u8)
    ensures
        builder_bytes(*final(b)) == builder_bytes(*old(b)).push(value),
{
    b.push_u8(value)
}

/// `ByteBuilder::push_u32`: appends the value's four bytes, low byte first.
#[verifier::external_body]
pub(crate) fn push_u32(b: &mut ByteBuilder, value: u32)
    ensures
        builder_bytes(*final(b)) == builder_bytes(*old(b)) + spec_u32_to_le_bytes(value),
{
    b.push_u32(value)
}

/// `ByteBuilder::push_i16`: appends the value's two bytes, low byte first.
#[verifier::external_body]
pub(crate) fn push_i16(b: &mut ByteBuilder, value: i16)
    ensures
        builder_bytes(*final(b)) == builder_bytes(*old(b)) + spec_i16_to_le_bytes(value),
{
    b.push_i16(value)
}

/// Moves the field `bytes` out of a builder: the bytes pushed, in order.
#[verifier::external_body]
pub(crate) fn builder_into_bytes(b: ByteBuilder) -> (bytes: Vec<u8>)
    ensures
        bytes@ == builder_bytes(b),
{
    b.bytes
}

/// `ByteReader::new`: a reader at the start of the slice.
#[verifier::external_body]
pub(crate) fn reader_new<'a>(bytes: &'a [u8]) -> (r: ByteReader<'a>)
    ensures
        reader_bytes(r) == bytes@,
        reader_pos(r) == 0,
{
    ByteReader::new(bytes)
}

/// `ByteReader::read_u8`: with a byte left, hands it out and steps over it;
/// with none left, returns `None` and leaves the reader as it was.
#[verifier::external_body]
pub(crate) fn read_u8(r: &mut ByteReader<'_>) -> (res: Option<u8>)
    requires
        reader_wf(*old(r)),
    ensures
        reader_bytes(*final(r)) == reader_bytes(*old(r)),
        reader_pos(*old(r)) + 1 <= reader_bytes(*old(r)).len() ==> res == Some(
            reader_bytes(*old(r))[reader_pos(*old(r))],
        ) && reader_pos(*final(r)) == reader_pos(*old(r)) + 1,
        reader_pos(*old(r)) + 1 > reader_bytes(*old(r)).len() ==> res.is_none() && reader_pos(
            *final(r),
        ) == reader_pos(*old(r)),
{
    r.read_u8()
}

/// `ByteReader::read_u32`: with four bytes left, hands out the value they
/// stand for, low byte first, and steps over them; with fewer left, returns
/// `None` and leaves the reader as it was.
#[verifier::external_body]
pub(crate) fn read_u32(r: &mut ByteReader<'_>) -> (res: Option<u32>)
    requires
        reader_wf(*old(r)),
    ensures
        reader_bytes(*final(r)) == reader_bytes(*old(r)),
        reader_pos(*old(r)) + 4 <= reader_bytes(*old(r)).len() ==> res == Some(
            spec_u32_from_le_bytes(
                reader_bytes(*old(r)).subrange(
                    reader_pos(*old(r)),
                    reader_pos(*old(r)) + 4,
                ),
            ),
        ) && reader_pos(*final(r)) == reader_pos(*old(r)) + 4,
        reader_pos(*old(r)) + 4 > reader_bytes(*old(r)).len() ==> res.is_none() && reader_pos(
            *final(r),
        ) == reader_pos(*old(r)),
{
    r.read_u32()
}

/// `ByteReader::read_i16`: with two bytes left, hands out the value they
/// stand for, low byte first, and steps over them; with fewer left, returns
/// `None` and leaves the reader as it was.
#[verifier::external_body]
pub(crate) fn read_i16(r: &mut ByteReader<'_>) -> (res: Option<i16>)
    requires
        reader_wf(*old(r)),
    ensures
        reader_bytes(*final(r)) == reader_bytes(*old(r)),
        reader_pos(*old(r)) + 2 <= reader_bytes(*old(r)).len() ==> res == Some(
            spec_i16_from_le_bytes(
                reader_bytes(*old(r)).subrange(
                    reader_pos(*old(r)),
                    reader_pos(*old(r)) + 2,
                ),
            ),
        ) && reader_pos(*final(r)) == reader_pos(*old(r)) + 2,
        reader_pos(*old(r)) + 2 > reader_bytes(*old(r)).len() ==> res.is_none() && reader_pos(
            *final(r),
        ) == reader_pos(*old(r)),
{
    r.read_i16()
}

} // verus!
