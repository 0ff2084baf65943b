use crate::ascii::{CR, LF, ZERO};
use crate::numerals::{hex, hex_bytes, hex_value, law_hex_denotes};
use vstd::prelude::*;

verus! {

/// The bytes of a chunk with the given size line.
pub open spec fn chunk_with_line(size_line: Seq<u8>, data: Seq<u8>) -> Seq<u8> {
    size_line + seq![CR, LF] + data + seq![CR, LF]
}

/// The bytes of a well-formed chunk: the size in hexadecimal, then the data.
pub open spec fn chunk_of(data: Seq<u8>) -> Seq<u8> {
    chunk_with_line(hex(data.len()), data)
}

/// The bytes that end a chunked body: `0\r\n\r\n`.
pub open spec fn final_chunk() -> Seq<u8> {
    seq![ZERO, CR, LF, CR, LF]
}

/// The bytes that end a chunked body.
pub const FINAL_CHUNK: [u8; 5] = [0x30, 0x0d, 0x0a, 0x0d, 0x0a];

/// A well-formed chunk: `{size in hexadecimal}\r\n{data}\r\n`.
pub fn chunk(data: &[u8]) -> (out: Vec<u8>)
    ensures
        out@ == chunk_of(data@),
{
    let size = hex_bytes(data.len());
    chunk_with_size_line(size.as_slice(), data)
}

/// A chunk with an arbitrary size line, malformed or with extensions, for when
/// the size must not be an honest hexadecimal number.
pub fn chunk_with_size_line(size_line: &[u8], data: &[u8]) -> (out: Vec<u8>)
    ensures
        out@ == chunk_with_line(size_line@, data@),
{
    let mut out: Vec<u8> = Vec::new();
    out.extend_from_slice(size_line);
    out.push(CR);
    out.push(LF);
    out.extend_from_slice(data);
    out.push(CR);
    out.push(LF);
    assert(out@ == chunk_with_line(size_line@, data@));
    out
}

/// Assembles a chunked body by hand: what was pushed is what comes out. The
/// body may end without the final chunk, and anything may follow it.
#[derive(Debug)]
pub struct ChunkedBodyBuilder {
    out: Vec<u8>,
}

impl View for ChunkedBodyBuilder {
    type V = Seq<u8>;

    closed spec fn view(&self) -> Seq<u8> {
        self.out@
    }
}

impl Default for ChunkedBodyBuilder {
    fn default() -> (r: Self)
        ensures
            r@ == Seq::<u8>::empty(),
    {
        ChunkedBodyBuilder::new()
    }
}

impl ChunkedBodyBuilder {
    /// An empty body.
    pub fn new() -> (r: Self)
        ensures
            r@ == Seq::<u8>::empty(),
    {
        ChunkedBodyBuilder { out: Vec::new() }
    }

    /// Appends a well-formed chunk.
    pub fn push_chunk(self, data: &[u8]) -> (r: Self)
        ensures
            r@ == self@ + chunk_of(data@),
    {
        self.push_raw(chunk(data).as_slice())
    }

    /// Appends a chunk with an arbitrary size line.
    pub fn push_chunk_with_size_line(self, size_line: &[u8], data: &[u8]) -> (r: Self)
        ensures
            r@ == self@ + chunk_with_line(size_line@, data@),
    {
        self.push_raw(chunk_with_size_line(size_line, data).as_slice())
    }

    /// Appends raw bytes without any framing.
    pub fn push_raw(self, bytes: &[u8]) -> (r: Self)
        ensures
            r@ == self@ + bytes@,
    {
        let mut out = self.out;
        out.extend_from_slice(bytes);
        assert(out@ == self@ + bytes@);
        ChunkedBodyBuilder { out }
    }

    /// The body, ended by the final chunk.
    pub fn finish_with_final_chunk(self) -> (out: Vec<u8>)
        ensures
            out@ == self@ + final_chunk(),
    {
        let mut out = self.out;
        out.extend_from_slice(&FINAL_CHUNK);
        assert(out@ == self@ + final_chunk());
        out
    }

    /// The body without `0\r\n\r\n`, deliberately left unfinished.
    pub fn finish_without_final_chunk(self) -> (out: Vec<u8>)
        ensures
            out@ == self@,
    {
        self.out
    }
}

/// A chunk announces its own length: its size line denotes the number of data
/// bytes, and the data follows the first line break.
pub proof fn law_chunk_announces_length(data: Seq<u8>)
    ensures
        hex_value(hex(data.len())) == data.len(),
        chunk_of(data).take(hex(data.len()).len() as int) == hex(data.len()),
        chunk_of(data).skip(hex(data.len()).len() as int + 2).take(data.len() as int) == data,
        chunk_of(data).len() == hex(data.len()).len() + data.len() + 4,
{
    law_hex_denotes(data.len());
    assert(chunk_of(data).take(hex(data.len()).len() as int) == hex(data.len()));
    assert(chunk_of(data).skip(hex(data.len()).len() as int + 2).take(data.len() as int) == data);
}

/// A chunk without data is the final chunk.
pub proof fn law_empty_chunk_is_final()
    ensures
        chunk_of(Seq::empty()) == final_chunk(),
{
    assert(hex(0) == seq![ZERO]);
    assert(chunk_of(Seq::empty()) == final_chunk());
}

} // verus!
