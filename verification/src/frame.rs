//! The compressed stream that a log is kept in, and the reading of numbers
//! from it.
//!
//! Nothing in this file is proved. It holds the calls into `lz4_flex` and
//! `byteorder` and says, call by call, what the rest of the library takes
//! from them. The compressor and the decompressor are each kept in a struct
//! that the verifier does not look into: their own types are bound by
//! `std::io::Write` and `std::io::Read`, and a type with such a bound cannot
//! be declared to the verifier.

use vstd::prelude::*;
use byteorder::{NativeEndian, ReadBytesExt};
use lz4_flex::frame::{FrameDecoder, FrameEncoder};
use std::io::{Cursor, Write};
use crate::byte_order::{i64_from_bytes, u32_from_bytes};

verus! {

/// `std::io::Error`, as what a failed write hands back. Nothing is known of
/// a value of it.
#[verifier::external_type_specification]
#[verifier::external_body]
pub struct ExIoError(std::io::Error);

/// `lz4_flex::frame::Error`, as what a failed `finish` hands back. Nothing is
/// known of a value of it.
#[verifier::external_type_specification]
#[verifier::external_body]
pub struct ExFrameError(lz4_flex::frame::Error);

/// An `lz4_flex::frame::FrameEncoder` that compresses into a vector in
/// memory.
#[verifier::external_body]
#[derive(Debug)]
pub struct FrameWriter {
    encoder: FrameEncoder<Vec<u8>>,
}

/// An `lz4_flex::frame::FrameDecoder` that decompresses a vector in memory.
#[verifier::external_body]
pub struct FrameReader {
    decoder: FrameDecoder<Cursor<Vec<u8>>>,
}

/// The bytes that a writer has taken so far, before compression, in the order
/// in which it took them.
pub uninterp spec fn writer_content(writer: FrameWriter) -> Seq<u8>;

/// The bytes that a reader has yet to hand out, after decompression, in the
/// order in which it will hand them out.
pub uninterp spec fn reader_rest(reader: FrameReader) -> Seq<u8>;

/// The bytes that `stream` carries if it is a stream in the LZ4 frame format,
/// whole and undamaged: what a `FrameDecoder` hands out for it up to the end
/// of the stream. `None` for every other `stream`.
pub uninterp spec fn frame_payload(stream: Seq<u8>) -> Option<Seq<u8>>;

/// `FrameEncoder::new` on the sink `sink`, which holds nothing yet.
///
/// Claimed: the new writer has taken no byte.
#[verifier::external_body]
pub(crate) fn writer_new(sink: Vec<u8>) -> (writer: FrameWriter)
    requires
        sink@.len() == 0,
    ensures
        writer_content(writer) == Seq::<u8>::empty(),
{
    FrameWriter { encoder: FrameEncoder::new(sink) }
}

/// `std::io::Write::write_all` on the `FrameEncoder`.
///
/// Claimed: where the call returns `Ok`, the writer has taken all of `bytes`,
/// after what it had taken before. Of a call that returns `Err` nothing is
/// claimed, not even what the writer holds afterwards.
#[verifier::external_body]
pub(crate) fn writer_write_all(writer: &mut FrameWriter, bytes: &[u8]) -> (result: Result<
    (),
    std::io::Error,
>)
    ensures
        result is Ok ==> writer_content(*final(writer)) == writer_content(*old(writer)) + bytes@,
{
    writer.encoder.write_all(bytes)
}

/// `FrameEncoder::finish`, which hands back the sink.
///
/// Claimed: where the call returns `Ok`, the sink holds a whole stream in the
/// LZ4 frame format that carries what the writer had taken, which for a
/// writer that had taken nothing is the stream of no bytes.
#[verifier::external_body]
pub(crate) fn writer_finish(writer: FrameWriter) -> (result: Result<
    Vec<u8>,
    lz4_flex::frame::Error,
>)
    ensures
        result matches Ok(stream) ==> frame_payload(stream@) == Some(writer_content(writer)),
{
    writer.encoder.finish()
}

/// `FrameDecoder::new` on a `std::io::Cursor` over `stream`, which is a whole
/// stream in the LZ4 frame format.
///
/// Claimed: the new reader has yet to hand out all that the stream carries.
#[verifier::external_body]
pub(crate) fn reader_new(stream: Vec<u8>) -> (reader: FrameReader)
    requires
        frame_payload(stream@) is Some,
    ensures
        Some(reader_rest(reader)) == frame_payload(stream@),
{
    FrameReader { decoder: FrameDecoder::new(Cursor::new(stream)) }
}

/// `byteorder::ReadBytesExt::read_u32` in `NativeEndian` on the
/// `FrameDecoder`, with the error dropped.
///
/// Claimed: where the reader has four bytes or more to hand out, the call
/// hands out the next four as the number they hold in the byte order of the
/// machine, and the reader has the bytes after them left. Where it has
/// fewer, the call returns `None`; what the reader has left then is not
/// said.
#[verifier::external_body]
pub(crate) fn reader_read_u32(reader: &mut FrameReader) -> (number: Option<u32>)
    ensures
        number is Some <==> reader_rest(*old(reader)).len() >= 4,
        number matches Some(n) ==> {
            &&& n == u32_from_bytes(reader_rest(*old(reader)).take(4))
            &&& reader_rest(*final(reader)) == reader_rest(*old(reader)).skip(4)
        },
{
    reader.decoder.read_u32::<NativeEndian>().ok()
}

/// `byteorder::ReadBytesExt::read_i64` in `NativeEndian` on the
/// `FrameDecoder`, with the error dropped.
///
/// Claimed: where the reader has eight bytes or more to hand out, the call
/// hands out the next eight as the signed number they hold in the byte order
/// of the machine, and the reader has the bytes after them left. Where it
/// has fewer, the call returns `None`; what the reader has left then is not
/// said.
#[verifier::external_body]
pub(crate) fn reader_read_i64(reader: &mut FrameReader) -> (number: Option<i64>)
    ensures
        number is Some <==> reader_rest(*old(reader)).len() >= 8,
        number matches Some(n) ==> {
            &&& n == i64_from_bytes(reader_rest(*old(reader)).take(8))
            &&& reader_rest(*final(reader)) == reader_rest(*old(reader)).skip(8)
        },
{
    reader.decoder.read_i64::<NativeEndian>().ok()
}

} // verus!
