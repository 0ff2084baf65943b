//! Laws of chunked bodies.

use super::requests::crlf;
use crate::numerals::hex_bytes;
use crate::raw_http::chunked::{chunk, chunk_with_size_line, ChunkedBodyBuilder};
use vstd::prelude::*;

verus! {

/// A chunk is a size line, a line break, the data and a line break; the size line
/// is the length of the data in hexadecimal unless another one is given.
pub proof fn law_chunk(
    data: &[u8],
    length: usize,
    digits: Vec<u8>,
    size_line: &[u8],
    r: Vec<u8>,
    lined: Vec<u8>,
)
    requires
        length == data@.len(),
        call_ensures(hex_bytes, (length,), digits),
        call_ensures(chunk, (data,), r),
        call_ensures(chunk_with_size_line, (size_line, data), lined),
    ensures
        r@ == digits@ + crlf() + data@ + crlf(),
        lined@ == size_line@ + crlf() + data@ + crlf(),
{
}

/// A builder holds what was pushed into it, one after the other, and adds nothing
/// but the final chunk `0`, and that only where it is asked for.
pub proof fn law_builder(
    builder: ChunkedBodyBuilder,
    so_far: Vec<u8>,
    ended: Vec<u8>,
    data: &[u8],
    size_line: &[u8],
    one: Vec<u8>,
    lined: Vec<u8>,
    with_chunk: ChunkedBodyBuilder,
    with_line: ChunkedBodyBuilder,
    with_raw: ChunkedBodyBuilder,
    after_chunk: Vec<u8>,
    after_line: Vec<u8>,
    after_raw: Vec<u8>,
)
    requires
        call_ensures(ChunkedBodyBuilder::finish_without_final_chunk, (builder,), so_far),
        call_ensures(ChunkedBodyBuilder::finish_with_final_chunk, (builder,), ended),
        call_ensures(chunk, (data,), one),
        call_ensures(chunk_with_size_line, (size_line, data), lined),
        call_ensures(ChunkedBodyBuilder::push_chunk, (builder, data), with_chunk),
        call_ensures(
            ChunkedBodyBuilder::push_chunk_with_size_line,
            (builder, size_line, data),
            with_line,
        ),
        call_ensures(ChunkedBodyBuilder::push_raw, (builder, data), with_raw),
        call_ensures(ChunkedBodyBuilder::finish_without_final_chunk, (with_chunk,), after_chunk),
        call_ensures(ChunkedBodyBuilder::finish_without_final_chunk, (with_line,), after_line),
        call_ensures(ChunkedBodyBuilder::finish_without_final_chunk, (with_raw,), after_raw),
    ensures
        ended@ == so_far@ + seq![48u8, 13u8, 10u8, 13u8, 10u8],
        after_chunk@ == so_far@ + one@,
        after_line@ == so_far@ + lined@,
        after_raw@ == so_far@ + data@,
{
}

/// A new builder holds nothing.
pub proof fn law_new_builder(
    builder: ChunkedBodyBuilder,
    default: ChunkedBodyBuilder,
    r: Vec<u8>,
    default_r: Vec<u8>,
)
    requires
        call_ensures(ChunkedBodyBuilder::new, (), builder),
        call_ensures(<ChunkedBodyBuilder as Default>::default, (), default),
        call_ensures(ChunkedBodyBuilder::finish_without_final_chunk, (builder,), r),
        call_ensures(ChunkedBodyBuilder::finish_without_final_chunk, (default,), default_r),
    ensures
        r@.len() == 0,
        default_r@.len() == 0,
{
}

} // verus!
