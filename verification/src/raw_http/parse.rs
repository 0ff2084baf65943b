use super::request::{
    line_bytes, lines_bytes, lines_view, request_bytes, HeaderEntry, Line, RawHeader, RawRequest, Request,
};
use crate::ascii::{COLON, CR, LF};
use crate::scan::{equals, first_where, lemma_first_where, lemma_first_where_is};
use vstd::prelude::*;
use vstd::slice::{slice_subrange, slice_to_vec};

verus! {

/// A line split off the front of some input: its content, the bytes of the
/// line break, and what follows.
#[verifier::ext_equal]
pub struct SplitLine {
    pub content: Seq<u8>,
    pub ending: Seq<u8>,
    pub rest: Seq<u8>,
}

/// Splits the first line off `s`. The line break is `\r\n` or a bare `\n`; with
/// no line break at all, everything is content.
pub open spec fn split_line(s: Seq<u8>) -> SplitLine {
    let lf = first_where(s, equals(LF));
    if lf == s.len() {
        SplitLine { content: s, ending: Seq::empty(), rest: Seq::empty() }
    } else {
        let start = if lf > 0 && s[lf - 1] == CR { lf - 1 } else { lf };
        SplitLine {
            content: s.take(start),
            ending: s.subrange(start, lf + 1),
            rest: s.skip(lf + 1),
        }
    }
}

/// A header line by its content and line break: split around the first colon,
/// or kept whole if there is none.
pub open spec fn header_line(content: Seq<u8>, ending: Seq<u8>) -> Line {
    let colon = first_where(content, equals(COLON));
    if colon < content.len() {
        Line::Header { name: content.take(colon), value: content.skip(colon + 1), ending }
    } else {
        Line::Raw(content + ending)
    }
}

/// What follows the request line: header lines up to the first blank one, that
/// blank line, and the body.
#[verifier::ext_equal]
pub struct HeaderBlock {
    pub headers: Seq<Line>,
    pub terminator: Seq<u8>,
    pub body: Seq<u8>,
}

/// A split line ends before the input does, so the rest is shorter.
pub proof fn lemma_split_line_shrinks(s: Seq<u8>)
    requires
        s.len() > 0,
    ensures
        split_line(s).rest.len() < s.len(),
{
    lemma_first_where(s, equals(LF));
}

/// Splits everything after the request line into header lines, the blank line
/// and the body.
pub open spec fn header_block(s: Seq<u8>) -> HeaderBlock
    decreases s.len(),
{
    if s.len() == 0 {
        HeaderBlock { headers: Seq::empty(), terminator: Seq::empty(), body: Seq::empty() }
    } else {
        let line = split_line(s);
        if line.content.len() == 0 {
            HeaderBlock { headers: Seq::empty(), terminator: line.ending, body: line.rest }
        } else {
            proof {
                lemma_split_line_shrinks(s);
            }
            let tail = header_block(line.rest);
            HeaderBlock {
                headers: seq![header_line(line.content, line.ending)] + tail.headers,
                terminator: tail.terminator,
                body: tail.body,
            }
        }
    }
}

/// The request that some bytes denote: the first line is the request line,
/// the header block follows, and everything after the first blank line is the
/// body, whatever the headers say about its length.
pub open spec fn request_of(input: Seq<u8>) -> Request {
    let first = split_line(input);
    let block = header_block(first.rest);
    Request {
        line: first.content,
        line_ending: first.ending,
        headers: block.headers,
        terminator: block.terminator,
        body: block.body,
    }
}

/// Splits the first line off `input`; nothing can be split off empty input.
pub fn next_line(input: &[u8]) -> (r: Option<(&[u8], &[u8], &[u8])>)
    ensures
        r is None <==> input@.len() == 0,
        r matches Some((content, ending, rest)) ==> split_line(input@) == (SplitLine {
            content: content@,
            ending: ending@,
            rest: rest@,
        }),
{
    if input.len() == 0 {
        return None;
    }
    let mut i: usize = 0;
    while i < input.len()
        invariant
            i <= input.len(),
            forall|j: int| 0 <= j < i ==> input@[j] != LF,
        decreases input.len() - i,
    {
        if input[i] == LF {
            let start: usize = if i > 0 && input[i - 1] == CR {
                i - 1
            } else {
                i
            };
            proof {
                lemma_first_where_is(input@, equals(LF), i as int);
            }
            return Some(
                (
                    slice_subrange(input, 0, start),
                    slice_subrange(input, start, i + 1),
                    slice_subrange(input, i + 1, input.len()),
                ),
            );
        }
        i += 1;
    }
    proof {
        lemma_first_where_is(input@, equals(LF), i as int);
    }
    let end = slice_subrange(input, input.len(), input.len());
    Some((input, end, end))
}

/// Turns the content and the line break of a header line into an entry.
pub fn parse_header_line(content: &[u8], ending: &[u8]) -> (entry: HeaderEntry)
    ensures
        entry@ == header_line(content@, ending@),
{
    let mut i: usize = 0;
    while i < content.len()
        invariant
            i <= content.len(),
            forall|j: int| 0 <= j < i ==> content@[j] != COLON,
        decreases content.len() - i,
    {
        if content[i] == COLON {
            proof {
                lemma_first_where_is(content@, equals(COLON), i as int);
            }
            return HeaderEntry::Header(
                RawHeader {
                    name: slice_to_vec(slice_subrange(content, 0, i)),
                    value: slice_to_vec(slice_subrange(content, i + 1, content.len())),
                    line_ending: slice_to_vec(ending),
                },
            );
        }
        i += 1;
    }
    proof {
        lemma_first_where_is(content@, equals(COLON), i as int);
    }
    let mut whole: Vec<u8> = slice_to_vec(content);
    whole.extend_from_slice(ending);
    assert(whole@ == content@ + ending@);
    HeaderEntry::Raw(whole)
}

/// Best-effort parsing that accepts any input. It does not choose between
/// `Content-Length` and `Transfer-Encoding`: the body is everything after the
/// first blank line.
pub fn parse_request(input: &[u8]) -> (r: RawRequest)
    ensures
        r@ == request_of(input@),
{
    let (request_line, request_line_ending, after) = match next_line(input) {
        Some(split) => split,
        None => (input, input, input),
    };
    let mut rest: &[u8] = after;
    let mut headers: Vec<HeaderEntry> = Vec::new();
    let ghost block = header_block(after@);
    loop
        invariant
            block == (HeaderBlock {
                headers: lines_view(headers@) + header_block(rest@).headers,
                terminator: header_block(rest@).terminator,
                body: header_block(rest@).body,
            }),
            request_of(input@) == (Request {
                line: request_line@,
                line_ending: request_line_ending@,
                headers: block.headers,
                terminator: block.terminator,
                body: block.body,
            }),
        decreases rest@.len(),
    {
        match next_line(rest) {
            None => {
                return RawRequest {
                    request_line: slice_to_vec(request_line),
                    request_line_ending: slice_to_vec(request_line_ending),
                    headers,
                    headers_terminator: Vec::new(),
                    body: Vec::new(),
                };
            },
            Some((content, ending, remaining)) => {
                if content.len() == 0 {
                    return RawRequest {
                        request_line: slice_to_vec(request_line),
                        request_line_ending: slice_to_vec(request_line_ending),
                        headers,
                        headers_terminator: slice_to_vec(ending),
                        body: slice_to_vec(remaining),
                    };
                }
                proof {
                    lemma_split_line_shrinks(rest@);
                }
                let entry = parse_header_line(content, ending);
                let ghost before = lines_view(headers@);
                headers.push(entry);
                assert(lines_view(headers@) == before.push(entry@));
                rest = remaining;
            },
        }
    }
}

/// A split line is a partition of the input.
proof fn lemma_split_line_partitions(s: Seq<u8>)
    ensures
        split_line(s).content + split_line(s).ending + split_line(s).rest == s,
{
    lemma_first_where(s, equals(LF));
}

/// The bytes of a header line are its content and its line break.
proof fn lemma_header_line_bytes(content: Seq<u8>, ending: Seq<u8>)
    ensures
        line_bytes(header_line(content, ending)) == content + ending,
{
    lemma_first_where(content, equals(COLON));
    let colon = first_where(content, equals(COLON));
    if colon < content.len() {
        assert(content == content.take(colon) + seq![COLON] + content.skip(colon + 1));
    }
}

/// Serializing a block line by line may start at its first line.
proof fn lemma_lines_bytes_prepend(first: Line, rest: Seq<Line>)
    ensures
        lines_bytes(seq![first] + rest) == line_bytes(first) + lines_bytes(rest),
    decreases rest.len(),
{
    let all = seq![first] + rest;
    if rest.len() == 0 {
        assert(all.drop_last() == Seq::<Line>::empty());
        assert(lines_bytes(all.drop_last()) == Seq::<u8>::empty());
    } else {
        assert(all.drop_last() == seq![first] + rest.drop_last());
        lemma_lines_bytes_prepend(first, rest.drop_last());
        assert(all.last() == rest.last());
    }
}

/// A header block loses no byte of what it was split from.
proof fn lemma_header_block_partitions(s: Seq<u8>)
    ensures
        lines_bytes(header_block(s).headers) + header_block(s).terminator + header_block(s).body
            == s,
    decreases s.len(),
{
    if s.len() > 0 {
        let line = split_line(s);
        lemma_split_line_partitions(s);
        lemma_split_line_shrinks(s);
        if line.content.len() > 0 {
            lemma_header_block_partitions(line.rest);
            lemma_header_line_bytes(line.content, line.ending);
            lemma_lines_bytes_prepend(
                header_line(line.content, line.ending),
                header_block(line.rest).headers,
            );
        }
    }
}

/// Parsing is lossless: serializing the request that any bytes denote gives
/// those very bytes back, however malformed they are.
pub proof fn law_parse_then_serialize(input: Seq<u8>)
    ensures
        request_bytes(request_of(input)) == input,
{
    let first = split_line(input);
    lemma_split_line_partitions(input);
    lemma_header_block_partitions(first.rest);
    let block = header_block(first.rest);
    assert(request_bytes(request_of(input)) == first.content + first.ending + (lines_bytes(
        block.headers,
    ) + block.terminator + block.body));
}

/// A line break: `\r\n` or a bare `\n`.
pub open spec fn is_line_break(ending: Seq<u8>) -> bool {
    ending == seq![CR, LF] || ending == seq![LF]
}

/// Content that is read back as one line when it is followed by `ending`.
pub open spec fn is_one_line(content: Seq<u8>, ending: Seq<u8>) -> bool {
    &&& is_line_break(ending)
    &&& !content.contains(LF)
    &&& ending == seq![LF] ==> (content.len() == 0 || content.last() != CR)
}

/// A header line that is read back as it was written.
pub open spec fn is_canonical_line(line: Line) -> bool {
    match line {
        Line::Header { name, value, ending } => {
            &&& !name.contains(COLON)
            &&& is_one_line(name + seq![COLON] + value, ending)
        },
        Line::Raw(bytes) => exists|content: Seq<u8>, ending: Seq<u8>|
            {
                &&& content.len() > 0
                &&& !content.contains(COLON)
                &&& is_one_line(content, ending)
                &&& bytes == #[trigger] (content + ending)
            },
    }
}

/// A request whose lines are terminated lines and whose header block ends with
/// a blank line.
pub open spec fn is_canonical(r: Request) -> bool {
    &&& is_one_line(r.line, r.line_ending)
    &&& forall|i: int| 0 <= i < r.headers.len() ==> is_canonical_line(#[trigger] r.headers[i])
    &&& is_line_break(r.terminator)
}

/// A line followed by its line break is what gets split off.
pub proof fn lemma_split_line_of(content: Seq<u8>, ending: Seq<u8>, rest: Seq<u8>)
    requires
        is_one_line(content, ending),
    ensures
        split_line(content + ending + rest) == (SplitLine { content, ending, rest }),
{
    let s = content + ending + rest;
    let lf = content.len() + ending.len() - 1;
    assert forall|j: int| 0 <= j < lf implies s[j] != LF by {
        if j < content.len() {
            assert(content.contains(content[j]));
        }
    }
    lemma_first_where_is(s, equals(LF), lf);
    if ending == seq![LF] {
        if content.len() > 0 {
            assert(s[lf - 1] == content.last());
        }
        assert(s.take(lf) == content);
        assert(s.subrange(lf, lf + 1) == ending);
    } else {
        assert(s[lf - 1] == CR);
        assert(s.take(lf - 1) == content);
        assert(s.subrange(lf - 1, lf + 1) == ending);
    }
    assert(s.skip(lf + 1) == rest);
}

/// A canonical header line comes back from its bytes.
proof fn lemma_canonical_line_comes_back(line: Line, rest: Seq<u8>)
    requires
        is_canonical_line(line),
    ensures
        ({
            let split = split_line(line_bytes(line) + rest);
            &&& split.content.len() > 0
            &&& split.rest == rest
            &&& header_line(split.content, split.ending) == line
        }),
{
    match line {
        Line::Header { name, value, ending } => {
            let content = name + seq![COLON] + value;
            assert(line_bytes(line) + rest == content + ending + rest);
            lemma_split_line_of(content, ending, rest);
            assert forall|j: int| 0 <= j < name.len() implies content[j] != COLON by {
                assert(name.contains(name[j]));
            }
            lemma_first_where_is(content, equals(COLON), name.len() as int);
            assert(content.take(name.len() as int) == name);
            assert(content.skip(name.len() as int + 1) == value);
        },
        Line::Raw(bytes) => {
            let (content, ending) = choose|content: Seq<u8>, ending: Seq<u8>|
                {
                    &&& content.len() > 0
                    &&& !content.contains(COLON)
                    &&& is_one_line(content, ending)
                    &&& bytes == #[trigger] (content + ending)
                };
            lemma_split_line_of(content, ending, rest);
            assert forall|j: int| 0 <= j < content.len() implies content[j] != COLON by {
                assert(content.contains(content[j]));
            }
            lemma_first_where_is(content, equals(COLON), content.len() as int);
        },
    }
}

/// Canonical header lines, a blank line and a body come back from their bytes.
proof fn lemma_canonical_block_comes_back(headers: Seq<Line>, terminator: Seq<u8>, body: Seq<u8>)
    requires
        forall|i: int| 0 <= i < headers.len() ==> is_canonical_line(#[trigger] headers[i]),
        is_line_break(terminator),
    ensures
        header_block(lines_bytes(headers) + terminator + body) == (HeaderBlock {
            headers,
            terminator,
            body,
        }),
    decreases headers.len(),
{
    let s = lines_bytes(headers) + terminator + body;
    if headers.len() == 0 {
        assert(s == Seq::<u8>::empty() + terminator + body);
        lemma_split_line_of(Seq::empty(), terminator, body);
    } else {
        let first = headers.first();
        let others = headers.drop_first();
        let rest = lines_bytes(others) + terminator + body;
        assert(headers == seq![first] + others);
        lemma_lines_bytes_prepend(first, others);
        assert(s == line_bytes(first) + rest);
        lemma_canonical_line_comes_back(first, rest);
        lemma_canonical_block_comes_back(others, terminator, body);
        lemma_split_line_partitions(s);
    }
}

/// Serializing is faithful: a request made of terminated lines and a blank
/// line is what its own bytes denote.
pub proof fn law_serialize_then_parse(r: Request)
    requires
        is_canonical(r),
    ensures
        request_of(request_bytes(r)) == r,
{
    let rest = lines_bytes(r.headers) + r.terminator + r.body;
    assert(request_bytes(r) == r.line + r.line_ending + rest);
    lemma_split_line_of(r.line, r.line_ending, rest);
    lemma_canonical_block_comes_back(r.headers, r.terminator, r.body);
}

/// Whether the lines of `s` include a terminated blank one.
pub open spec fn has_blank_line(s: Seq<u8>) -> bool
    decreases s.len(),
{
    s.len() > 0 && {
        let line = split_line(s);
        proof {
            lemma_split_line_shrinks(s);
        }
        line.ending.len() > 0 && (line.content.len() == 0 || has_blank_line(line.rest))
    }
}

/// A terminated line is split off the same way when more input follows.
pub proof fn lemma_split_line_extends(s: Seq<u8>, more: Seq<u8>)
    requires
        split_line(s).ending.len() > 0,
    ensures
        split_line(s + more) == (SplitLine {
            content: split_line(s).content,
            ending: split_line(s).ending,
            rest: split_line(s).rest + more,
        }),
{
    let lf = first_where(s, equals(LF));
    lemma_first_where(s, equals(LF));
    assert(lf < s.len());
    assert forall|j: int| 0 <= j <= lf implies #[trigger] (s + more)[j] == s[j] by {}
    lemma_first_where_is(s + more, equals(LF), lf);
    let start = if lf > 0 && s[lf - 1] == CR { lf - 1 } else { lf };
    assert((s + more).take(start) == s.take(start));
    assert((s + more).subrange(start, lf + 1) == s.subrange(start, lf + 1));
    assert((s + more).skip(lf + 1) == s.skip(lf + 1) + more);
}

/// Header lines up to a blank line do not depend on what follows it.
pub proof fn lemma_header_block_extends(s: Seq<u8>, more: Seq<u8>)
    requires
        has_blank_line(s),
    ensures
        header_block(s + more).headers == header_block(s).headers,
        header_block(s + more).terminator == header_block(s).terminator,
        header_block(s + more).body == header_block(s).body + more,
    decreases s.len(),
{
    let line = split_line(s);
    lemma_split_line_shrinks(s);
    lemma_split_line_extends(s, more);
    if line.content.len() > 0 {
        lemma_header_block_extends(line.rest, more);
    }
}

/// A header block has a terminator exactly if a terminated blank line ends it.
proof fn lemma_terminator(s: Seq<u8>)
    ensures
        has_blank_line(s) == (header_block(s).terminator.len() > 0),
    decreases s.len(),
{
    if s.len() > 0 {
        let line = split_line(s);
        lemma_first_where(s, equals(LF));
        lemma_split_line_shrinks(s);
        lemma_terminator(line.rest);
    }
}

/// Once a blank line has ended the headers, be it `\r\n` or a bare `\n`, whatever
/// follows is body: it extends the body and changes nothing else.
pub proof fn law_what_follows_is_body(input: Seq<u8>, more: Seq<u8>)
    requires
        request_of(input).terminator.len() > 0,
    ensures
        request_of(input + more) == (Request {
            body: request_of(input).body + more,
            ..request_of(input)
        }),
{
    let rest = split_line(input).rest;
    lemma_first_where(input, equals(LF));
    lemma_terminator(rest);
    lemma_split_line_extends(input, more);
    lemma_header_block_extends(rest, more);
}

} // verus!
