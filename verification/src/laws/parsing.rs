//! Laws of taking requests apart.

use super::requests::{crlf, is_header, is_raw, lemma_same_entries, same_entries};
use crate::raw_http::parse::{
    header_block, header_line, lemma_split_line_of, next_line, parse_header_line, parse_request,
    request_of, split_line,
};
use crate::raw_http::request::{lines_view, HeaderEntry, Line, RawRequest};
use crate::scan::{equals, lemma_first_where_is};
use vstd::prelude::*;

verus! {

/// Whether bytes followed by a line break are one line: the break is `\r\n` or a
/// bare `\n`, and it is the first one.
pub open spec fn is_line(content: Seq<u8>, ending: Seq<u8>) -> bool {
    &&& forall|i: int| 0 <= i < content.len() ==> #[trigger] content[i] != 10
    &&& ending == crlf() || (ending == seq![10u8] && (content.len() > 0 ==> content.last() != 13))
}

/// Whether there is no line feed in some bytes.
pub open spec fn is_unbroken(content: Seq<u8>) -> bool {
    forall|i: int| 0 <= i < content.len() ==> #[trigger] content[i] != 10
}

/// A line is what is split off.
proof fn lemma_line(content: Seq<u8>, ending: Seq<u8>, rest: Seq<u8>)
    requires
        is_line(content, ending),
    ensures
        split_line(content + ending + rest).content == content,
        split_line(content + ending + rest).ending == ending,
        split_line(content + ending + rest).rest == rest,
        (content + ending + rest).len() > 0,
{
    assert(!content.contains(10u8)) by {
        if content.contains(10u8) {
            let i = choose|i: int| 0 <= i < content.len() && content[i] == 10u8;
            assert(content[i] != 10);
        }
    }
    lemma_split_line_of(content, ending, rest);
}

/// Bytes without a line feed are one unfinished line.
proof fn lemma_unbroken(content: Seq<u8>)
    requires
        is_unbroken(content),
    ensures
        split_line(content).content == content,
        split_line(content).ending == Seq::<u8>::empty(),
        split_line(content).rest == Seq::<u8>::empty(),
{
    lemma_first_where_is(content, equals(10u8), content.len() as int);
}

/// Whether an entry is what a header line becomes: name and value around the first
/// colon, or, without a colon, the whole line.
pub open spec fn is_entry_of(entry: HeaderEntry, content: Seq<u8>, ending: Seq<u8>) -> bool {
    &&& forall|name: Seq<u8>, value: Seq<u8>|
        content == #[trigger] (name + seq![58u8] + value) && (forall|i: int|
            0 <= i < name.len() ==> #[trigger] name[i] != 58) ==> is_header(
            entry,
            name,
            value,
            ending,
        )
    &&& (forall|i: int| 0 <= i < content.len() ==> #[trigger] content[i] != 58) ==> is_raw(
        entry,
        content + ending,
    )
}

/// A header line is taken apart at its first colon, and only there.
proof fn lemma_entry(entry: HeaderEntry, content: Seq<u8>, ending: Seq<u8>)
    requires
        entry@ == header_line(content, ending),
    ensures
        is_entry_of(entry, content, ending),
{
    assert forall|name: Seq<u8>, value: Seq<u8>|
        content == #[trigger] (name + seq![58u8] + value) && (forall|i: int|
            0 <= i < name.len() ==> #[trigger] name[i] != 58) implies is_header(
        entry,
        name,
        value,
        ending,
    ) by {
        let n = name.len() as int;
        assert forall|j: int| 0 <= j < n implies #[trigger] content[j] != 58u8 by {
            assert(content[j] == name[j]);
        }
        assert(content[n] == 58u8);
        lemma_first_where_is(content, equals(58u8), n);
        assert(content.take(n) == name);
        assert(content.skip(n + 1) == value);
    }
    if forall|i: int| 0 <= i < content.len() ==> #[trigger] content[i] != 58 {
        lemma_first_where_is(content, equals(58u8), content.len() as int);
    }
}

/// A header line becomes name and value around its first colon, or stays whole
/// without one.
pub proof fn law_header_line(content: &[u8], ending: &[u8], entry: HeaderEntry)
    requires
        call_ensures(parse_header_line, (content, ending), entry),
    ensures
        is_entry_of(entry, content@, ending@),
{
    lemma_entry(entry, content@, ending@);
}

/// The first line ends with the first line feed, together with a carriage return
/// right in front of it; without a line feed everything is one line. Only of nothing
/// there is no line.
pub proof fn law_next_line(
    input: &[u8],
    content: Seq<u8>,
    ending: Seq<u8>,
    rest: Seq<u8>,
    r: Option<(&[u8], &[u8], &[u8])>,
)
    requires
        call_ensures(next_line, (input,), r),
        input@ == content + ending + rest,
        is_line(content, ending) || (is_unbroken(content) && ending.len() == 0 && rest.len() == 0),
    ensures
        r is None <==> input@.len() == 0,
        r matches Some((c, e, t)) ==> c@ == content && e@ == ending && t@ == rest,
{
    if is_line(content, ending) {
        lemma_line(content, ending, rest);
    } else {
        assert(input@ == content);
        lemma_unbroken(content);
        assert(ending == Seq::<u8>::empty() && rest == Seq::<u8>::empty());
    }
}

/// Without a line feed everything is the request line.
pub proof fn law_parse_single_line(input: &[u8], r: RawRequest)
    requires
        call_ensures(parse_request, (input,), r),
        is_unbroken(input@),
    ensures
        r.request_line@ == input@,
        r.request_line_ending@.len() == 0,
        r.headers@.len() == 0,
        r.headers_terminator@.len() == 0,
        r.body@.len() == 0,
{
    lemma_unbroken(input@);
    assert(header_block(Seq::<u8>::empty()).headers == Seq::<Line>::empty());
    assert(lines_view(r.headers@).len() == r.headers@.len());
}

/// The first line is the request line, and what follows it is taken apart without
/// regard to it.
pub proof fn law_parse_request_line(
    input: &[u8],
    line: Seq<u8>,
    ending: Seq<u8>,
    other_input: &[u8],
    other_line: Seq<u8>,
    other_ending: Seq<u8>,
    rest: Seq<u8>,
    r: RawRequest,
    other: RawRequest,
)
    requires
        call_ensures(parse_request, (input,), r),
        call_ensures(parse_request, (other_input,), other),
        input@ == line + ending + rest,
        is_line(line, ending),
        other_input@ == other_line + other_ending + rest,
        is_line(other_line, other_ending),
    ensures
        r.request_line@ == line,
        r.request_line_ending@ == ending,
        same_entries(r.headers@, other.headers@),
        r.headers_terminator@ == other.headers_terminator@,
        r.body@ == other.body@,
{
    lemma_line(line, ending, rest);
    lemma_line(other_line, other_ending, rest);
    lemma_same_entries(r.headers@, other.headers@);
}

/// The first blank line ends the headers, and everything behind it is the body,
/// whatever it is. With nothing behind the request line all of them are empty.
pub proof fn law_parse_blank_line(
    input: &[u8],
    line: Seq<u8>,
    ending: Seq<u8>,
    blank: Seq<u8>,
    body: Seq<u8>,
    r: RawRequest,
)
    requires
        call_ensures(parse_request, (input,), r),
        input@ == line + ending + (blank + body),
        is_line(line, ending),
        blank == crlf() || blank == seq![10u8] || (blank.len() == 0 && body.len() == 0),
    ensures
        r.headers@.len() == 0,
        r.headers_terminator@ == blank,
        r.body@ == body,
{
    lemma_line(line, ending, blank + body);
    if blank.len() > 0 {
        lemma_line(Seq::empty(), blank, body);
        assert(Seq::<u8>::empty() + blank + body == blank + body);
    } else {
        assert(blank + body == Seq::<u8>::empty());
        assert(blank == Seq::<u8>::empty() && body == Seq::<u8>::empty());
    }
    assert(lines_view(r.headers@).len() == r.headers@.len());
}

/// A line that is not blank is one entry in front of the others; taking it out
/// changes nothing else.
pub proof fn law_parse_header(
    input: &[u8],
    line: Seq<u8>,
    ending: Seq<u8>,
    content: Seq<u8>,
    content_ending: Seq<u8>,
    rest: Seq<u8>,
    shorter_input: &[u8],
    r: RawRequest,
    shorter: RawRequest,
)
    requires
        call_ensures(parse_request, (input,), r),
        call_ensures(parse_request, (shorter_input,), shorter),
        input@ == line + ending + (content + content_ending + rest),
        shorter_input@ == line + ending + rest,
        is_line(line, ending),
        content.len() > 0,
        is_line(content, content_ending) || (is_unbroken(content) && content_ending.len() == 0
            && rest.len() == 0),
    ensures
        r.headers@.len() == shorter.headers@.len() + 1,
        is_entry_of(r.headers@.first(), content, content_ending),
        same_entries(r.headers@.drop_first(), shorter.headers@),
        r.headers_terminator@ == shorter.headers_terminator@,
        r.body@ == shorter.body@,
{
    let block = content + content_ending + rest;
    lemma_line(line, ending, block);
    lemma_line(line, ending, rest);
    if is_line(content, content_ending) {
        lemma_line(content, content_ending, rest);
    } else {
        assert(block == content);
        lemma_unbroken(content);
        assert(content_ending == Seq::<u8>::empty() && rest == Seq::<u8>::empty());
    }
    let first = header_line(content, content_ending);
    let lines = lines_view(r.headers@);
    assert(lines == seq![first] + lines_view(shorter.headers@));
    assert(lines.len() == r.headers@.len());
    assert(lines_view(shorter.headers@).len() == shorter.headers@.len());
    assert(lines[0] == r.headers@.first()@);
    lemma_entry(r.headers@.first(), content, content_ending);
    assert(lines_view(r.headers@.drop_first()) == lines.drop_first());
    assert(lines.drop_first() == lines_view(shorter.headers@));
    lemma_same_entries(r.headers@.drop_first(), shorter.headers@);
}

} // verus!
