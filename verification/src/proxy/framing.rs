//! Where lines, headers and messages end in what arrives on a stream.

use crate::ascii::{lowered, COLON, CR, LF, SPACE};
use crate::connectors::reply::{read_bytes, read_view, ReadFailure};
use crate::numerals::{decimal, is_decimal_digit, law_decimal_denotes, parse_unsigned, unsigned};
use crate::raw_http::parse::{
    has_blank_line, header_block, is_canonical, is_canonical_line, law_serialize_then_parse,
    lemma_header_block_extends, lemma_split_line_extends, lemma_split_line_shrinks, parse_request,
    request_of, split_line,
};
use crate::raw_http::request::{
    law_fix_content_length, lemma_name_key_lowered, line_bytes, lines_bytes, name_key, named,
    not_named, request_bytes, values_named, with_content_length, without_named, Request,
};
use crate::scan::{
    equals, first_where, lemma_after_last_where_is, lemma_first_where, lemma_first_where_is,
};
use crate::text::{chars_of, lossy, non_space, trim_chars, trimmed, utf8_lossy, utf8_text};
use vstd::prelude::*;
use vstd::utf8::{
    decode_utf8, encode_utf8, encode_utf8_decode_utf8, encode_utf8_valid_utf8, is_ascii_chars,
    is_ascii_chars_encode_utf8, valid_utf8,
};

verus! {

/// The four bytes that end a header block: `\r\n\r\n`.
pub open spec fn blank_line() -> Seq<u8> {
    seq![CR, LF, CR, LF]
}

/// Whether a header block ends with the four bytes from index `i` on.
pub open spec fn blank_line_at(s: Seq<u8>, i: int) -> bool {
    0 <= i && i + 4 <= s.len() && s.subrange(i, i + 4) == blank_line()
}

/// The index behind the first `\r\n\r\n` at or after `from`.
pub open spec fn headers_end_from(s: Seq<u8>, from: nat) -> Option<nat>
    decreases s.len() - from,
{
    if from + 4 > s.len() {
        None
    } else if blank_line_at(s, from as int) {
        Some(from + 4)
    } else {
        headers_end_from(s, from + 1)
    }
}

/// The index behind the first `\r\n\r\n`.
pub open spec fn headers_end(s: Seq<u8>) -> Option<nat> {
    headers_end_from(s, 0)
}

/// The length that the value of a `Content-Length` header declares: a decimal
/// number between whitespace, and zero for anything else.
pub open spec fn length_in(value: Seq<u8>) -> nat {
    if valid_utf8(value) {
        match unsigned(trimmed(decode_utf8(value)), usize::MAX as nat) {
            Some(n) => n,
            None => 0,
        }
    } else {
        0
    }
}

/// The body length that a message declares: that of its first `Content-Length`
/// header, and zero without one.
pub open spec fn declared_length(message: Seq<u8>) -> nat {
    let values = values_named(request_of(message).headers, encode_utf8("content-length"@));
    if values.len() > 0 {
        length_in(values[0])
    } else {
        0
    }
}

/// Whether a message has arrived in full: its headers have ended, and as many
/// bytes follow as it declares.
pub open spec fn is_complete(message: Seq<u8>) -> bool {
    headers_end(message) matches Some(end) && message.len() >= end + declared_length(message)
}

/// What `headers_end_from` promises of its result.
pub proof fn lemma_headers_end_from(s: Seq<u8>, from: nat)
    ensures
        match headers_end_from(s, from) {
            Some(end) => {
                &&& from + 4 <= end <= s.len()
                &&& blank_line_at(s, end - 4)
                &&& forall|j: int| from <= j < end - 4 ==> !blank_line_at(s, j)
            },
            None => forall|j: int| from <= j ==> !blank_line_at(s, j),
        },
    decreases s.len() - from,
{
    if from + 4 <= s.len() && !blank_line_at(s, from as int) {
        lemma_headers_end_from(s, from + 1);
    }
}

/// An index that has the properties of `headers_end_from` is its result.
pub proof fn lemma_headers_end_is(s: Seq<u8>, from: nat, end: nat)
    requires
        from + 4 <= end,
        blank_line_at(s, end - 4),
        forall|j: int| from <= j < end - 4 ==> !blank_line_at(s, j),
    ensures
        headers_end_from(s, from) == Some(end),
{
    lemma_headers_end_from(s, from);
    match headers_end_from(s, from) {
        Some(e) => {
            if e < end {
                assert(!blank_line_at(s, e - 4));
            } else if end < e {
                assert(!blank_line_at(s, end - 4));
            }
        },
        None => {
            assert(!blank_line_at(s, end - 4));
        },
    }
}

/// The index behind the first `\r\n\r\n`, if there is one.
pub fn find_headers_end(buf: &[u8]) -> (r: Option<usize>)
    ensures
        r matches Some(end) ==> headers_end(buf@) == Some(end as nat) && 4 <= end <= buf@.len(),
        r is None ==> headers_end(buf@) is None,
{
    let mut i: usize = 0;
    while i < buf.len() && buf.len() - i >= 4
        invariant
            i <= buf.len(),
            headers_end(buf@) == headers_end_from(buf@, i as nat),
        decreases buf.len() - i,
    {
        let found = buf[i] == CR && buf[i + 1] == LF && buf[i + 2] == CR && buf[i + 3] == LF;
        proof {
            let window = buf@.subrange(i as int, i + 4);
            if found {
                assert(window == blank_line());
            } else {
                assert(window[0] == buf@[i as int] && window[1] == buf@[i + 1] && window[2]
                    == buf@[i + 2] && window[3] == buf@[i + 3]);
                assert(window != blank_line());
            }
        }
        if found {
            return Some(i + 4);
        }
        i += 1;
    }
    None
}

/// The length that the value of a `Content-Length` header declares.
fn parse_length(value: &[u8]) -> (n: usize)
    ensures
        n == length_in(value@),
{
    match utf8_text(value) {
        Some(text) => {
            proof {
                encode_utf8_decode_utf8(text@);
            }
            let chars = chars_of(text);
            match parse_unsigned(trim_chars(chars.as_slice()), usize::MAX) {
                Some(n) => n,
                None => 0,
            }
        },
        None => 0,
    }
}

/// The body length that a message declares.
pub fn content_length(message: &[u8]) -> (n: usize)
    ensures
        n == declared_length(message@),
{
    let parsed = parse_request(message);
    let values = parsed.header_values("content-length");
    let ghost views = values@.map_values(|v: &[u8]| v@);
    assert(views.len() == values.len());
    if values.len() > 0 {
        assert(views[0] == values@[0]@);
        parse_length(values[0])
    } else {
        0
    }
}

/// Whether reading a message goes on.
#[derive(Debug, Clone, Copy, PartialEq, Eq)]
pub enum MessageProgress {
    /// The message has not arrived in full: read again.
    Partial,
    /// The message has arrived in full.
    Complete,
    /// The client has closed the stream: there is no further message.
    Closed,
    /// The stream failed.
    Failed,
}

/// What a read means for a message of which `message` has arrived, that read
/// included.
pub open spec fn message_progress(
    message: Seq<u8>,
    read: Result<Seq<u8>, ReadFailure>,
) -> MessageProgress {
    match read {
        Ok(data) => if data.len() == 0 {
            MessageProgress::Closed
        } else if is_complete(message) {
            MessageProgress::Complete
        } else {
            MessageProgress::Partial
        },
        Err(ReadFailure::UnexpectedEof) => MessageProgress::Closed,
        Err(_) => MessageProgress::Failed,
    }
}

/// Reads one HTTP message from a client: headers up to the blank line, then the
/// body by `Content-Length`.
#[derive(Debug)]
pub struct MessageReader {
    out: Vec<u8>,
}

impl View for MessageReader {
    type V = Seq<u8>;

    closed spec fn view(&self) -> Seq<u8> {
        self.out@
    }
}

impl MessageReader {
    /// A reader at the start of a message.
    pub fn new() -> (r: Self)
        ensures
            r@ == Seq::<u8>::empty(),
    {
        MessageReader { out: Vec::new() }
    }

    /// Takes in what one read gave.
    pub fn on_read(&mut self, read: Result<&[u8], ReadFailure>) -> (progress: MessageProgress)
        ensures
            final(self)@ == old(self)@ + read_bytes(read_view(read)),
            progress == message_progress(final(self)@, read_view(read)),
    {
        match read {
            Ok(data) => {
                self.out.extend_from_slice(data);
                assert(self.out@ == old(self)@ + data@);
                if data.len() == 0 {
                    return MessageProgress::Closed;
                }
                match find_headers_end(self.out.as_slice()) {
                    Some(end) => {
                        let length = content_length(self.out.as_slice());
                        if self.out.len() - end >= length {
                            MessageProgress::Complete
                        } else {
                            MessageProgress::Partial
                        }
                    },
                    None => MessageProgress::Partial,
                }
            },
            Err(failure) => {
                assert(self@ == old(self)@ + read_bytes(read_view(read)));
                match failure {
                    ReadFailure::UnexpectedEof => MessageProgress::Closed,
                    _ => MessageProgress::Failed,
                }
            },
        }
    }

    /// The bytes read so far.
    pub fn into_message(self) -> (r: Vec<u8>)
        ensures
            r@ == self@,
    {
        self.out
    }
}

/// Input that starts with `\r\n` starts with a blank line.
proof fn lemma_leading_blank_line(s: Seq<u8>)
    requires
        s.len() >= 2,
        s[0] == CR,
        s[1] == LF,
    ensures
        has_blank_line(s),
{
    lemma_first_where_is(s, equals(LF), 1);
    assert(split_line(s).content.len() == 0);
}

/// Input with `\r\n\r\n` in it has a terminated first line, and a blank line
/// after it.
proof fn lemma_blank_line_found(s: Seq<u8>, i: int)
    requires
        blank_line_at(s, i),
    ensures
        split_line(s).ending.len() > 0,
        has_blank_line(split_line(s).rest),
    decreases s.len(),
{
    let window = s.subrange(i, i + 4);
    assert(window[0] == s[i] && window[1] == s[i + 1] && window[2] == s[i + 2] && window[3] == s[i
        + 3]);
    lemma_first_where(s, equals(LF));
    let lf = first_where(s, equals(LF));
    assert(lf <= i + 1);
    let rest = split_line(s).rest;
    assert(rest == s.skip(lf + 1));
    if lf == i + 1 {
        lemma_leading_blank_line(rest);
    } else {
        assert(lf < i);
        assert(rest.subrange(i - lf - 1, i - lf + 3) == window);
        lemma_blank_line_found(rest, i - lf - 1);
        lemma_split_line_shrinks(s);
    }
}

/// Once the headers of a message have ended, neither where they ended nor the
/// length they declare depends on what arrives later, and a complete message
/// stays complete.
pub proof fn law_framing_is_settled(message: Seq<u8>, more: Seq<u8>)
    requires
        headers_end(message) is Some,
    ensures
        headers_end(message + more) == headers_end(message),
        request_of(message + more).headers == request_of(message).headers,
        request_of(message + more).body == request_of(message).body + more,
        declared_length(message + more) == declared_length(message),
        is_complete(message) ==> is_complete(message + more),
{
    lemma_headers_end_from(message, 0);
    let end = headers_end(message)->0;
    let longer = message + more;
    assert forall|j: int| 0 <= j && j + 4 <= message.len() implies longer.subrange(j, j + 4)
        == #[trigger] message.subrange(j, j + 4) by {
        assert(longer.subrange(j, j + 4) =~= message.subrange(j, j + 4));
    }
    assert(blank_line_at(longer, end - 4));
    assert forall|j: int| 0 <= j < end - 4 implies !blank_line_at(longer, j) by {
        assert(!blank_line_at(message, j));
        assert(longer.subrange(j, j + 4) == message.subrange(j, j + 4));
    }
    lemma_headers_end_is(longer, 0, end);
    lemma_blank_line_found(message, end - 4);
    lemma_split_line_extends(message, more);
    lemma_header_block_extends(split_line(message).rest, more);
}

/// The bytes of the first line of `s`, its line feed included.
pub open spec fn first_line(s: Seq<u8>) -> Seq<u8> {
    let lf = first_where(s, equals(LF));
    if lf < s.len() {
        s.take(lf + 1)
    } else {
        s
    }
}

/// Whether a line ends with the given byte; it also ends with the stream.
pub open spec fn ends_line(byte: Option<u8>) -> bool {
    byte is None || byte == Some(LF)
}

/// Reads one line byte by byte, so that nothing behind the line is taken from
/// the stream: the client may already be talking TLS there.
#[derive(Debug)]
pub struct LineReader {
    line: Vec<u8>,
}

impl View for LineReader {
    type V = Seq<u8>;

    closed spec fn view(&self) -> Seq<u8> {
        self.line@
    }
}

impl LineReader {
    /// A reader at the start of a line.
    pub fn new() -> (r: Self)
        ensures
            r@ == Seq::<u8>::empty(),
    {
        LineReader { line: Vec::new() }
    }

    /// Takes in the next byte, `None` at the end of the stream, and tells
    /// whether the line has ended.
    pub fn on_byte(&mut self, byte: Option<u8>) -> (done: bool)
        ensures
            done == ends_line(byte),
            final(self)@ == match byte {
                Some(b) => old(self)@.push(b),
                None => old(self)@,
            },
    {
        match byte {
            Some(b) => {
                self.line.push(b);
                b == LF
            },
            None => true,
        }
    }

    /// The bytes of the line.
    pub fn into_bytes(self) -> (r: Vec<u8>)
        ensures
            r@ == self@,
    {
        self.line
    }

    /// The line as text, with what is not UTF-8 replaced.
    pub fn into_text(self) -> (r: String)
        ensures
            r@ == lossy(self@),
            valid_utf8(self@) ==> r@ == decode_utf8(self@),
    {
        utf8_lossy(self.line.as_slice())
    }
}

/// The line that reading `input` byte by byte up to its end gives, with `line`
/// read already.
pub open spec fn line_run(line: Seq<u8>, input: Seq<u8>) -> Seq<u8>
    decreases input.len(),
{
    if input.len() == 0 {
        line
    } else if ends_line(Some(input[0])) {
        line.push(input[0])
    } else {
        line_run(line.push(input[0]), input.drop_first())
    }
}

/// Reading byte by byte takes the first line and not a byte more.
pub proof fn law_line_reader_stops_behind_line(line: Seq<u8>, input: Seq<u8>)
    ensures
        line_run(line, input) == line + first_line(input),
    decreases input.len(),
{
    if input.len() == 0 {
        assert(line + first_line(input) == line);
    } else if input[0] == LF {
        assert(first_where(input, equals(LF)) == 0);
        assert(line.push(input[0]) == line + first_line(input));
    } else {
        let rest = input.drop_first();
        law_line_reader_stops_behind_line(line.push(input[0]), rest);
        lemma_first_where(rest, equals(LF));
        assert(first_where(input, equals(LF)) == 1 + first_where(rest, equals(LF)));
        assert(line.push(input[0]) + first_line(rest) == line + first_line(input));
    }
}

/// Whether a line of a header block is the last one: a blank line, or nothing
/// because the stream has ended.
pub open spec fn is_last_header_line(line: Seq<u8>) -> bool {
    line.len() == 0 || line == seq![CR, LF]
}

/// Whether a header block ends with this line.
pub fn ends_headers(line: &[u8]) -> (r: bool)
    ensures
        r == is_last_header_line(line@),
{
    if line.len() == 2 && line[0] == CR && line[1] == LF {
        assert(line@ == seq![CR, LF]);
        true
    } else {
        line.len() == 0
    }
}

/// A request in origin form that is being read from a client: its request line
/// is known, and header lines and body follow byte for byte.
#[derive(Debug)]
pub struct RequestReader {
    out: Vec<u8>,
}

impl View for RequestReader {
    type V = Seq<u8>;

    closed spec fn view(&self) -> Seq<u8> {
        self.out@
    }
}

/// The request line `method path HTTP/1.1`.
pub open spec fn origin_line(method: Seq<char>, path: Seq<char>) -> Seq<u8> {
    encode_utf8(method) + seq![SPACE] + encode_utf8(path) + encode_utf8(" HTTP/1.1\r\n"@)
}

impl RequestReader {
    /// A request of which only the request line is there.
    pub fn new(method: &str, path: &str) -> (r: Self)
        ensures
            r@ == origin_line(method@, path@),
    {
        let mut out: Vec<u8> = Vec::new();
        out.extend_from_slice(method.as_bytes());
        out.push(SPACE);
        out.extend_from_slice(path.as_bytes());
        out.extend_from_slice(" HTTP/1.1\r\n".as_bytes());
        assert(out@ == origin_line(method@, path@));
        RequestReader { out }
    }

    /// Takes in the next line as it was read, and tells whether the header
    /// block has ended.
    pub fn on_line(&mut self, line: &[u8]) -> (done: bool)
        ensures
            done == is_last_header_line(line@),
            final(self)@ == old(self)@ + line@,
    {
        self.out.extend_from_slice(line);
        assert(self.out@ == old(self)@ + line@);
        ends_headers(line)
    }

    /// How many bytes of body are to be read after the header block.
    pub fn body_length(&self) -> (n: usize)
        ensures
            n == declared_length(self@),
    {
        content_length(self.out.as_slice())
    }

    /// The whole request.
    pub fn finish(self, body: &[u8]) -> (r: Vec<u8>)
        ensures
            r@ == self@ + body@,
    {
        let mut out = self.out;
        out.extend_from_slice(body);
        assert(out@ == self@ + body@);
        out
    }
}

/// A `Content-Length` value of a space and a decimal number declares that
/// number.
proof fn lemma_length_in_decimal(n: nat)
    requires
        n <= usize::MAX,
    ensures
        length_in(seq![SPACE] + encode_utf8(decimal(n))) == n,
{
    let digits = decimal(n);
    let text = seq![' '] + digits;
    law_decimal_denotes(n);
    assert forall|i: int| 0 <= i < digits.len() implies '\0' <= #[trigger] digits[i] <= '\u{7f}' by {
        assert(is_decimal_digit(digits[i]));
    }
    assert forall|i: int| 0 <= i < text.len() implies '\0' <= #[trigger] text[i] <= '\u{7f}' by {
        if i > 0 {
            assert(text[i] == digits[i - 1]);
        }
    }
    is_ascii_chars_encode_utf8(digits);
    is_ascii_chars_encode_utf8(text);
    assert forall|i: int| 0 <= i < text.len() implies #[trigger] encode_utf8(text)[i] == (seq![
        SPACE,
    ] + encode_utf8(digits))[i] by {
        assert(encode_utf8(text)[i] == text[i] as u8);
        if i > 0 {
            assert(text[i] == digits[i - 1]);
            assert(encode_utf8(digits)[i - 1] == digits[i - 1] as u8);
        }
    }
    assert(encode_utf8(text) == seq![SPACE] + encode_utf8(digits));
    encode_utf8_valid_utf8(text);
    encode_utf8_decode_utf8(text);
    assert(is_decimal_digit(digits[0]));
    assert(is_decimal_digit(digits.last()));
    assert(text[1] == digits[0]);
    lemma_first_where_is(text, non_space(), 1);
    lemma_after_last_where_is(text, non_space(), text.len() as int);
    assert(trimmed(text) == digits);
    assert(unsigned(digits, usize::MAX as nat) == Some(n));
}

/// The two spellings of the header name are looked up alike.
proof fn lemma_content_length_name()
    ensures
        name_key(encode_utf8("content-length"@)) == name_key(encode_utf8("Content-Length"@)),
        !encode_utf8("Content-Length"@).contains(COLON),
        !encode_utf8("Content-Length"@).contains(LF),
{
    reveal_strlit("content-length");
    reveal_strlit("Content-Length");
    let low = "content-length"@;
    let name = "Content-Length"@;
    is_ascii_chars_encode_utf8(low);
    is_ascii_chars_encode_utf8(name);
    assert forall|i: int| 0 <= i < name.len() implies #[trigger] lowered(encode_utf8(name))[i]
        == encode_utf8(low)[i] by {
        assert(encode_utf8(name)[i] == name[i] as u8);
        assert(encode_utf8(low)[i] == low[i] as u8);
    }
    assert(lowered(encode_utf8(name)) == encode_utf8(low));
    lemma_name_key_lowered(encode_utf8(name));
    assert forall|i: int| 0 <= i < name.len() implies #[trigger] encode_utf8(name)[i] != COLON
        && encode_utf8(name)[i] != LF by {
        assert(encode_utf8(name)[i] == name[i] as u8);
    }
}

/// A request with a recomputed `Content-Length` keeps the form in which it is
/// read back as it was written.
proof fn lemma_fixed_is_canonical(r: Request)
    requires
        is_canonical(r),
    ensures
        is_canonical(with_content_length(r)),
{
    let fixed = with_content_length(r);
    let name = encode_utf8("Content-Length"@);
    let kept = without_named(r.headers, name);
    let digits = decimal(r.body.len());
    law_decimal_denotes(r.body.len());
    lemma_content_length_name();
    assert forall|i: int| 0 <= i < digits.len() implies '0' <= #[trigger] digits[i] <= '9' by {
        assert(is_decimal_digit(digits[i]));
    }
    assert(is_ascii_chars(digits));
    is_ascii_chars_encode_utf8(digits);
    let value = seq![SPACE] + encode_utf8(digits);
    let content = name + seq![COLON] + value;
    assert forall|i: int| 0 <= i < content.len() implies #[trigger] content[i] != LF by {
        if i < name.len() {
            assert(name.contains(name[i]));
        } else if i > name.len() + 1 {
            let k = i - name.len() - 2;
            assert(content[i] == encode_utf8(digits)[k]);
            assert(encode_utf8(digits)[k] == digits[k] as u8);
        }
    }
    assert forall|i: int| 0 <= i < fixed.headers.len() implies is_canonical_line(
        #[trigger] fixed.headers[i],
    ) by {
        if i < kept.len() {
            assert(fixed.headers[i] == kept[i]);
            assert(kept.contains(kept[i]));
            r.headers.lemma_filter_contains_rev(not_named(name), kept[i]);
        }
    }
}

/// A recomputed `Content-Length` is the one that readers go by: the serialized
/// request declares exactly as many bytes as its body has.
pub proof fn law_fixed_length_is_declared(r: Request)
    requires
        is_canonical(r),
        r.body.len() <= usize::MAX,
    ensures
        declared_length(request_bytes(with_content_length(r))) == r.body.len(),
        request_of(request_bytes(with_content_length(r))).body == r.body,
{
    let fixed = with_content_length(r);
    let name = encode_utf8("Content-Length"@);
    lemma_fixed_is_canonical(r);
    law_serialize_then_parse(fixed);
    law_fix_content_length(r, name);
    lemma_content_length_name();
    assert(named(encode_utf8("content-length"@)) =~= named(name));
    lemma_length_in_decimal(r.body.len());
}

/// The body of a message is no longer than what the message was read from.
proof fn lemma_body_is_no_longer(s: Seq<u8>)
    ensures
        header_block(s).body.len() <= s.len(),
    decreases s.len(),
{
    if s.len() > 0 {
        lemma_split_line_shrinks(s);
        lemma_body_is_no_longer(split_line(s).rest);
    }
}

/// The body of a message starts behind the first `\r\n\r\n` at the latest.
pub proof fn lemma_body_starts_early(s: Seq<u8>, i: int)
    requires
        blank_line_at(s, i),
    ensures
        request_of(s).body.len() >= s.len() - (i + 4),
    decreases s.len(),
{
    let window = s.subrange(i, i + 4);
    assert(window[0] == s[i] && window[1] == s[i + 1] && window[2] == s[i + 2] && window[3] == s[i
        + 3]);
    lemma_first_where(s, equals(LF));
    let lf = first_where(s, equals(LF));
    let rest = split_line(s).rest;
    assert(rest == s.skip(lf + 1));
    if lf == i + 1 {
        lemma_first_where_is(rest, equals(LF), 1);
    } else {
        assert(lf < i);
        assert(rest.subrange(i - lf - 1, i - lf + 3) == window);
        lemma_split_line_shrinks(s);
        lemma_body_starts_early(rest, i - lf - 1);
        lemma_split_line_shrinks(rest);
        lemma_body_is_no_longer(split_line(rest).rest);
    }
}

/// A request with a recomputed `Content-Length`, made of terminated lines and a
/// blank line `\r\n`, is read from a stream as exactly one message: it is complete
/// with its last byte and not before.
pub proof fn law_fixed_request_is_one_message(r: Request, arrived: nat)
    requires
        is_canonical(r),
        r.terminator == seq![CR, LF],
        r.body.len() <= usize::MAX,
    ensures
        ({
            let message = request_bytes(with_content_length(r));
            &&& is_complete(message)
            &&& arrived < message.len() ==> !is_complete(message.take(arrived as int))
        }),
{
    let fixed = with_content_length(r);
    let message = request_bytes(fixed);
    let end = message.len() - r.body.len();
    law_fixed_length_is_declared(r);
    let head = fixed.line + fixed.line_ending + lines_bytes(fixed.headers);
    let last = line_bytes(fixed.headers.last());
    assert(head == fixed.line + fixed.line_ending + lines_bytes(fixed.headers.drop_last()) + last);
    assert(message == head + fixed.terminator + r.body);
    assert(end == head.len() + 2);
    assert(last[last.len() - 2] == CR && last[last.len() - 1] == LF);
    assert(message[end - 4] == CR && message[end - 3] == LF);
    assert(message[end - 2] == CR && message[end - 1] == LF);
    assert(message.subrange(end - 4, end as int) == blank_line());
    assert(blank_line_at(message, end - 4));
    assert forall|j: int| 0 <= j < end - 4 implies !blank_line_at(message, j) by {
        if blank_line_at(message, j) {
            lemma_body_starts_early(message, j);
        }
    }
    lemma_headers_end_is(message, 0, end as nat);
    if arrived < message.len() {
        let part = message.take(arrived as int);
        if headers_end(part) is Some {
            assert(part + message.skip(arrived as int) == message);
            law_framing_is_settled(part, message.skip(arrived as int));
        }
    }
}

} // verus!
