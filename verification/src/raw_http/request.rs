use crate::ascii::{
    ascii_trimmed, eq_ignore_ascii_case, is_ascii_space, lowered, non_ascii_space,
    trim_ascii_whitespace, COLON, CR, LF, SPACE,
};
use crate::numerals::{bytes_to_hex, decimal, decimal_text, hex_text};
use crate::scan::{
    after_last_where, first_where, lemma_after_last_where, lemma_after_last_where_is,
    lemma_first_where, lemma_first_where_is,
};
use crate::text::{lossy, utf8_lossy};
use vstd::prelude::*;
use vstd::utf8::{decode_utf8, encode_utf8, valid_utf8};

verus! {

/// A header line recognized as a name and a value around the first `:`.
/// Spacing and case are kept as they are: obfuscations such as
/// `Transfer-Encoding : chunked` live in exactly those bytes.
#[derive(Debug, Clone, PartialEq, Eq)]
pub struct RawHeader {
    pub name: Vec<u8>,
    pub value: Vec<u8>,
    pub line_ending: Vec<u8>,
}

/// One line of the header block. `Raw` holds a line that does not have the
/// form `name: value` at all, together with its line ending.
#[derive(Debug, Clone, PartialEq, Eq)]
pub enum HeaderEntry {
    Header(RawHeader),
    Raw(Vec<u8>),
}

/// An HTTP request, byte for byte. Serializing it yields exactly what the
/// fields hold; nothing is repaired or normalized implicitly.
#[derive(Debug, Clone, PartialEq, Eq)]
pub struct RawRequest {
    pub request_line: Vec<u8>,
    pub request_line_ending: Vec<u8>,
    pub headers: Vec<HeaderEntry>,
    /// The blank line between headers and body (usually `\r\n`).
    pub headers_terminator: Vec<u8>,
    pub body: Vec<u8>,
}

/// The contents of a `HeaderEntry`.
#[verifier::ext_equal]
pub enum Line {
    Header { name: Seq<u8>, value: Seq<u8>, ending: Seq<u8> },
    Raw(Seq<u8>),
}

/// The contents of a `RawRequest`.
#[verifier::ext_equal]
pub struct Request {
    pub line: Seq<u8>,
    pub line_ending: Seq<u8>,
    pub headers: Seq<Line>,
    pub terminator: Seq<u8>,
    pub body: Seq<u8>,
}

impl View for HeaderEntry {
    type V = Line;

    open spec fn view(&self) -> Line {
        match *self {
            HeaderEntry::Header(h) => Line::Header {
                name: h.name@,
                value: h.value@,
                ending: h.line_ending@,
            },
            HeaderEntry::Raw(bytes) => Line::Raw(bytes@),
        }
    }
}

/// The contents of a list of header entries.
pub open spec fn lines_view(entries: Seq<HeaderEntry>) -> Seq<Line> {
    entries.map_values(|e: HeaderEntry| e@)
}

impl View for RawRequest {
    type V = Request;

    open spec fn view(&self) -> Request {
        Request {
            line: self.request_line@,
            line_ending: self.request_line_ending@,
            headers: lines_view(self.headers@),
            terminator: self.headers_terminator@,
            body: self.body@,
        }
    }
}

/// The bytes of one header line.
pub open spec fn line_bytes(line: Line) -> Seq<u8> {
    match line {
        Line::Header { name, value, ending } => name + seq![COLON] + value + ending,
        Line::Raw(bytes) => bytes,
    }
}

/// The bytes of a header block, line after line.
pub open spec fn lines_bytes(lines: Seq<Line>) -> Seq<u8>
    decreases lines.len(),
{
    if lines.len() == 0 {
        Seq::empty()
    } else {
        lines_bytes(lines.drop_last()) + line_bytes(lines.last())
    }
}

/// The bytes of a request.
pub open spec fn request_bytes(r: Request) -> Seq<u8> {
    r.line + r.line_ending + lines_bytes(r.headers) + r.terminator + r.body
}

/// A header name as it is looked up: without surrounding ASCII whitespace and
/// in lowercase. Serialization never uses it.
pub open spec fn name_key(name: Seq<u8>) -> Seq<u8> {
    lowered(ascii_trimmed(name))
}

/// Whether a line is a header that is found under `name`.
pub open spec fn is_named(line: Line, name: Seq<u8>) -> bool {
    line matches Line::Header { name: own, .. } && name_key(own) == name_key(name)
}

/// The predicate "is a header found under `name`".
pub open spec fn named(name: Seq<u8>) -> spec_fn(Line) -> bool {
    |line: Line| is_named(line, name)
}

/// The predicate "is not a header found under `name`".
pub open spec fn not_named(name: Seq<u8>) -> spec_fn(Line) -> bool {
    |line: Line| !is_named(line, name)
}

/// The value of a header line.
pub open spec fn line_value(line: Line) -> Seq<u8> {
    match line {
        Line::Header { value, .. } => value,
        Line::Raw(_) => Seq::empty(),
    }
}

/// The values of all headers found under `name`, in order.
pub open spec fn values_named(lines: Seq<Line>, name: Seq<u8>) -> Seq<Seq<u8>> {
    lines.filter(named(name)).map_values(|line: Line| line_value(line))
}

/// The lines that are not headers found under `name`, in order.
pub open spec fn without_named(lines: Seq<Line>, name: Seq<u8>) -> Seq<Line> {
    lines.filter(not_named(name))
}

/// The line `name: value`.
pub open spec fn plain_header(name: Seq<char>, value: Seq<char>) -> Line {
    Line::Header {
        name: encode_utf8(name),
        value: seq![SPACE] + encode_utf8(value),
        ending: seq![CR, LF],
    }
}

/// A request with one `Content-Length` header, last and right for its body.
pub open spec fn with_content_length(r: Request) -> Request {
    Request {
        headers: without_named(r.headers, encode_utf8("Content-Length"@)).push(
            plain_header("Content-Length"@, decimal(r.body.len())),
        ),
        ..r
    }
}

/// `From<T> for T`: the standard conversion of a value to its own type returns
/// the value unchanged.
pub assume_specification<Same>[ <Same as From<Same>>::from ](t: Same) -> (r: Same)
    ensures
        r == t,
;

/// `From<&str> for Vec<u8>`: the standard conversion fills the vector with the
/// UTF-8 encoding of the string.
pub assume_specification<'a>[ <Vec<u8> as From<&'a str>>::from ](s: &str) -> (r: Vec<u8>)
    ensures
        r@ == encode_utf8(s@),
;

/// The two bytes of a `\r\n` line break.
fn crlf() -> (r: Vec<u8>)
    ensures
        r@ == seq![CR, LF],
{
    let mut r: Vec<u8> = Vec::new();
    r.push(CR);
    r.push(LF);
    assert(r@ == seq![CR, LF]);
    r
}

/// Whether a header called `name` is found under `target`. Stray whitespace
/// around the name does not hide a header, since servers disagree on what to
/// make of it.
pub fn header_name_matches(name: &[u8], target: &[u8]) -> (r: bool)
    ensures
        r == (name_key(name@) == name_key(target@)),
{
    eq_ignore_ascii_case(trim_ascii_whitespace(name), trim_ascii_whitespace(target))
}

impl RawRequest {
    /// A request without headers and body: `method target version`.
    pub fn new(method: &str, target: &str, version: &str) -> (r: Self)
        ensures
            r@ == (Request {
                line: encode_utf8(method@) + seq![SPACE] + encode_utf8(target@) + seq![SPACE]
                    + encode_utf8(version@),
                line_ending: seq![CR, LF],
                headers: Seq::empty(),
                terminator: seq![CR, LF],
                body: Seq::empty(),
            }),
    {
        let mut request_line: Vec<u8> = Vec::new();
        request_line.extend_from_slice(method.as_bytes());
        request_line.push(SPACE);
        request_line.extend_from_slice(target.as_bytes());
        request_line.push(SPACE);
        request_line.extend_from_slice(version.as_bytes());
        RawRequest {
            request_line,
            request_line_ending: crlf(),
            headers: Vec::new(),
            headers_terminator: crlf(),
            body: Vec::new(),
        }
    }

    /// Adds an ordinary header: `.header("Host", "example.com")` appends the
    /// line `Host: example.com`.
    pub fn header(self, name: &str, value: &str) -> (r: Self)
        ensures
            r@ == (Request { headers: self@.headers.push(plain_header(name@, value@)), ..self@ }),
    {
        let mut padded: Vec<u8> = Vec::new();
        padded.push(SPACE);
        padded.extend_from_slice(value.as_bytes());
        assert(padded@ == seq![SPACE] + encode_utf8(value@));
        let r = self.header_raw(name, padded, crlf());
        assert(r.headers@.last()@ == plain_header(name@, value@));
        r
    }

    /// Adds a header with full control over its bytes, for instance
    /// `.header_raw("Transfer-Encoding ", " chunked", "\r\n")` with a space
    /// before the colon.
    pub fn header_raw<N: Into<Vec<u8>>, V: Into<Vec<u8>>, E: Into<Vec<u8>>>(
        self,
        name: N,
        value: V,
        line_ending: E,
    ) -> (r: Self)
        ensures
            r.headers@.len() > 0,
            r.headers@.last() matches HeaderEntry::Header(h) && {
                &&& call_ensures(<N as Into<Vec<u8>>>::into, (name,), h.name)
                &&& call_ensures(<V as Into<Vec<u8>>>::into, (value,), h.value)
                &&& call_ensures(<E as Into<Vec<u8>>>::into, (line_ending,), h.line_ending)
            },
            r@ == (Request { headers: self@.headers.push(r.headers@.last()@), ..self@ }),
    {
        let mut r = self;
        r.headers.push(
            HeaderEntry::Header(
                RawHeader {
                    name: name.into(),
                    value: value.into(),
                    line_ending: line_ending.into(),
                },
            ),
        );
        assert(lines_view(r.headers@) == self@.headers.push(r.headers@.last()@));
        r
    }

    /// Adds a line to the header block that is not a name and a value at all.
    pub fn raw_line<B: Into<Vec<u8>>>(self, bytes: B) -> (r: Self)
        ensures
            r.headers@.len() > 0,
            r.headers@.last() matches HeaderEntry::Raw(line) && call_ensures(
                <B as Into<Vec<u8>>>::into,
                (bytes,),
                line,
            ),
            r@ == (Request { headers: self@.headers.push(r.headers@.last()@), ..self@ }),
    {
        let mut r = self;
        r.headers.push(HeaderEntry::Raw(bytes.into()));
        assert(lines_view(r.headers@) == self@.headers.push(r.headers@.last()@));
        r
    }

    /// Replaces the blank line between headers and body.
    pub fn headers_terminator<B: Into<Vec<u8>>>(self, bytes: B) -> (r: Self)
        ensures
            call_ensures(<B as Into<Vec<u8>>>::into, (bytes,), r.headers_terminator),
            r@ == (Request { terminator: r.headers_terminator@, ..self@ }),
    {
        let mut r = self;
        r.headers_terminator = bytes.into();
        r
    }

    /// Replaces the line break after the request line.
    pub fn request_line_ending<B: Into<Vec<u8>>>(self, bytes: B) -> (r: Self)
        ensures
            call_ensures(<B as Into<Vec<u8>>>::into, (bytes,), r.request_line_ending),
            r@ == (Request { line_ending: r.request_line_ending@, ..self@ }),
    {
        let mut r = self;
        r.request_line_ending = bytes.into();
        r
    }

    /// Replaces the body. Headers that describe its length stay as they are.
    pub fn body<B: Into<Vec<u8>>>(self, body: B) -> (r: Self)
        ensures
            call_ensures(<B as Into<Vec<u8>>>::into, (body,), r.body),
            r@ == (Request { body: r.body@, ..self@ }),
    {
        let mut r = self;
        r.body = body.into();
        r
    }

    /// The values of all headers with the given name, ignoring case, exactly
    /// as the `value` fields hold them.
    pub fn header_values(&self, name: &str) -> (values: Vec<&[u8]>)
        ensures
            values@.map_values(|v: &[u8]| v@) == values_named(self@.headers, encode_utf8(name@)),
    {
        let target = name.as_bytes();
        let mut values: Vec<&[u8]> = Vec::new();
        let mut i: usize = 0;
        assert(self@.headers.take(0) == Seq::<Line>::empty());
        proof {
            reveal(Seq::filter);
        }
        assert(values@.map_values(|v: &[u8]| v@) == values_named(self@.headers.take(0), target@));
        while i < self.headers.len()
            invariant
                i <= self.headers.len(),
                target@ == encode_utf8(name@),
                values@.map_values(|v: &[u8]| v@) == values_named(
                    self@.headers.take(i as int),
                    target@,
                ),
            decreases self.headers.len() - i,
        {
            let ghost before = values@.map_values(|v: &[u8]| v@);
            let ghost taken = self@.headers.take(i as int + 1);
            proof {
                reveal(Seq::filter);
                assert(taken.drop_last() == self@.headers.take(i as int));
                assert(taken.last() == self.headers@[i as int]@);
            }
            match &self.headers[i] {
                HeaderEntry::Header(h) => {
                    if header_name_matches(h.name.as_slice(), target) {
                        values.push(h.value.as_slice());
                        assert(values@.map_values(|v: &[u8]| v@) == before.push(h.value@));
                        assert(taken.filter(named(target@)) == taken.drop_last().filter(
                            named(target@),
                        ).push(taken.last()));
                    }
                },
                HeaderEntry::Raw(_) => {},
            }
            assert(values@.map_values(|v: &[u8]| v@) == values_named(taken, target@));
            i += 1;
        }
        assert(self@.headers.take(i as int) == self@.headers);
        values
    }

    /// Removes all headers with the given name, ignoring case.
    pub fn remove_headers(self, name: &str) -> (r: Self)
        ensures
            r@ == (Request {
                headers: without_named(self@.headers, encode_utf8(name@)),
                ..self@
            }),
    {
        let RawRequest { request_line, request_line_ending, headers, headers_terminator, body } =
            self;
        let target = name.as_bytes();
        let ghost all = lines_view(headers@);
        let mut kept: Vec<HeaderEntry> = Vec::new();
        proof {
            reveal(Seq::filter);
        }
        assert(lines_view(kept@) == without_named(all.take(0), target@));
        for entry in it: headers
            invariant
                it.seq() == headers@,
                all == lines_view(headers@),
                target@ == encode_utf8(name@),
                lines_view(kept@) == without_named(all.take(it.index()), target@),
        {
            let ghost before = lines_view(kept@);
            let ghost taken = all.take(it.index() + 1);
            proof {
                reveal(Seq::filter);
                assert(taken.drop_last() == all.take(it.index()));
                assert(taken.last() == entry@);
            }
            let keep = match &entry {
                HeaderEntry::Header(h) => !header_name_matches(h.name.as_slice(), target),
                HeaderEntry::Raw(_) => true,
            };
            let ghost line = entry@;
            if keep {
                kept.push(entry);
                assert(lines_view(kept@) == before.push(line));
            }
            assert(lines_view(kept@) == without_named(taken, target@));
        }
        assert(all.take(all.len() as int) == all);
        RawRequest { request_line, request_line_ending, headers: kept, headers_terminator, body }
    }

    /// Recomputes `Content-Length` from the body: removes every old
    /// `Content-Length` header and appends a single new one. It is never called
    /// implicitly.
    pub fn fix_content_length(self) -> (r: Self)
        ensures
            r@ == with_content_length(self@),
    {
        let length = decimal_text(self.body.len());
        self.remove_headers("Content-Length").header("Content-Length", length.as_str())
    }

    /// The wire bytes, two hexadecimal digits each.
    pub fn to_hex(&self) -> (r: String)
        ensures
            r@ == hex_text(request_bytes(self@)),
    {
        bytes_to_hex(self.to_bytes().as_slice())
    }

    /// The wire bytes as text, with what is not UTF-8 replaced.
    pub fn to_string_lossy(&self) -> (r: String)
        ensures
            r@ == lossy(request_bytes(self@)),
            valid_utf8(request_bytes(self@)) ==> r@ == decode_utf8(request_bytes(self@)),
    {
        utf8_lossy(self.to_bytes().as_slice())
    }

    /// The request as it goes on the wire.
    pub fn to_bytes(&self) -> (out: Vec<u8>)
        ensures
            out@ == request_bytes(self@),
    {
        let mut out: Vec<u8> = Vec::new();
        out.extend_from_slice(self.request_line.as_slice());
        out.extend_from_slice(self.request_line_ending.as_slice());
        let ghost prefix = self.request_line@ + self.request_line_ending@;
        assert(out@ == prefix);
        let mut i: usize = 0;
        while i < self.headers.len()
            invariant
                i <= self.headers.len(),
                out@ == prefix + lines_bytes(self@.headers.take(i as int)),
            decreases self.headers.len() - i,
        {
            let ghost before = out@;
            match &self.headers[i] {
                HeaderEntry::Header(h) => {
                    out.extend_from_slice(h.name.as_slice());
                    out.push(COLON);
                    out.extend_from_slice(h.value.as_slice());
                    out.extend_from_slice(h.line_ending.as_slice());
                },
                HeaderEntry::Raw(bytes) => {
                    out.extend_from_slice(bytes.as_slice());
                },
            }
            proof {
                let taken = self@.headers.take(i as int + 1);
                assert(taken.drop_last() == self@.headers.take(i as int));
                assert(taken.last() == self.headers@[i as int]@);
                assert(out@ == before + line_bytes(taken.last()));
            }
            i += 1;
        }
        assert(self@.headers.take(i as int) == self@.headers);
        out.extend_from_slice(self.headers_terminator.as_slice());
        out.extend_from_slice(self.body.as_slice());
        assert(out@ == request_bytes(self@));
        out
    }
}

/// Filtering lines one at a time from the back.
proof fn lemma_filter_step(lines: Seq<Line>, p: spec_fn(Line) -> bool)
    requires
        lines.len() > 0,
    ensures
        lines.filter(p) == if p(lines.last()) {
            lines.drop_last().filter(p).push(lines.last())
        } else {
            lines.drop_last().filter(p)
        },
{
    reveal(Seq::filter);
}

/// Filtering no lines gives no lines.
proof fn lemma_filter_empty(lines: Seq<Line>, p: spec_fn(Line) -> bool)
    requires
        lines.len() == 0,
    ensures
        lines.filter(p) == Seq::<Line>::empty(),
{
    reveal(Seq::filter);
}

/// A predicate that implies another selects the same lines before and after
/// the other has been applied; one that excludes it selects none afterwards.
proof fn lemma_filter_twice(
    lines: Seq<Line>,
    outer: spec_fn(Line) -> bool,
    inner: spec_fn(Line) -> bool,
)
    ensures
        (forall|line: Line| #[trigger] outer(line) ==> inner(line)) ==> lines.filter(inner).filter(
            outer,
        ) == lines.filter(outer),
        (forall|line: Line| #[trigger] outer(line) ==> !inner(line)) ==> lines.filter(inner).filter(
            outer,
        ) == Seq::<Line>::empty(),
    decreases lines.len(),
{
    if lines.len() == 0 {
        lemma_filter_empty(lines, inner);
        lemma_filter_empty(lines, outer);
        lemma_filter_empty(lines.filter(inner), outer);
    } else {
        lemma_filter_twice(lines.drop_last(), outer, inner);
        lemma_filter_step(lines, inner);
        lemma_filter_step(lines, outer);
        if inner(lines.last()) {
            let kept = lines.drop_last().filter(inner).push(lines.last());
            lemma_filter_step(kept, outer);
            assert(kept.drop_last() == lines.drop_last().filter(inner));
        }
    }
}

/// Removing headers by name removes exactly them: none is found under that
/// name afterwards, headers found under a different name are all still there
/// in order, and so are the lines that are no headers.
pub proof fn law_remove_headers(lines: Seq<Line>, name: Seq<u8>, other: Seq<u8>)
    ensures
        values_named(without_named(lines, name), name) == Seq::<Seq<u8>>::empty(),
        name_key(other) != name_key(name) ==> values_named(without_named(lines, name), other)
            == values_named(lines, other),
        without_named(lines, name).filter(|line: Line| line is Raw) == lines.filter(
            |line: Line| line is Raw,
        ),
        without_named(without_named(lines, name), name) == without_named(lines, name),
{
    lemma_filter_twice(lines, named(name), not_named(name));
    lemma_filter_twice(lines, named(other), not_named(name));
    lemma_filter_twice(lines, |line: Line| line is Raw, not_named(name));
    lemma_filter_twice(lines, not_named(name), not_named(name));
}

/// After `Content-Length` has been recomputed there is exactly one such header,
/// it states the length of the body in decimal, nothing else has changed, and
/// recomputing it again changes nothing at all.
pub proof fn law_fix_content_length(r: Request, other: Seq<u8>)
    ensures
        ({
            let fixed = with_content_length(r);
            let name = encode_utf8("Content-Length"@);
            &&& values_named(fixed.headers, name) == seq![
                seq![SPACE] + encode_utf8(decimal(r.body.len())),
            ]
            &&& name_key(other) != name_key(name) ==> values_named(fixed.headers, other)
                == values_named(r.headers, other)
            &&& fixed == Request { headers: fixed.headers, ..r }
            &&& with_content_length(fixed) == fixed
        }),
{
    let fixed = with_content_length(r);
    let name = encode_utf8("Content-Length"@);
    let kept = without_named(r.headers, name);
    let added = plain_header("Content-Length"@, decimal(r.body.len()));
    law_remove_headers(r.headers, name, other);
    assert(fixed.headers.drop_last() == kept);
    lemma_filter_step(fixed.headers, named(name));
    lemma_filter_step(fixed.headers, named(other));
    lemma_filter_step(fixed.headers, not_named(name));
    let none = kept.filter(named(name));
    assert(none.map_values(|line: Line| line_value(line)).len() == none.len());
    assert(none == Seq::<Line>::empty());
    assert(values_named(fixed.headers, name) == seq![line_value(added)]);
    assert(with_content_length(fixed).headers == fixed.headers);
}

/// Header lookup ignores ASCII whitespace around a name and the case of its
/// letters: a padded or recased name finds the same headers.
pub proof fn law_lookup_ignores_padding_and_case(
    lines: Seq<Line>,
    name: Seq<u8>,
    before: Seq<u8>,
    after: Seq<u8>,
)
    requires
        forall|i: int| 0 <= i < before.len() ==> is_ascii_space(#[trigger] before[i]),
        forall|i: int| 0 <= i < after.len() ==> is_ascii_space(#[trigger] after[i]),
    ensures
        values_named(lines, before + name + after) == values_named(lines, name),
        values_named(lines, lowered(name)) == values_named(lines, name),
        without_named(lines, before + name + after) == without_named(lines, name),
        without_named(lines, lowered(name)) == without_named(lines, name),
{
    lemma_name_key_padded(name, before, after);
    lemma_name_key_lowered(name);
    assert(named(before + name + after) =~= named(name));
    assert(not_named(before + name + after) =~= not_named(name));
    assert(named(lowered(name)) =~= named(name));
    assert(not_named(lowered(name)) =~= not_named(name));
}

/// Whitespace around a name does not change what it is looked up as.
proof fn lemma_name_key_padded(name: Seq<u8>, before: Seq<u8>, after: Seq<u8>)
    requires
        forall|i: int| 0 <= i < before.len() ==> is_ascii_space(#[trigger] before[i]),
        forall|i: int| 0 <= i < after.len() ==> is_ascii_space(#[trigger] after[i]),
    ensures
        name_key(before + name + after) == name_key(name),
{
    let p = non_ascii_space();
    let padded = before + name + after;
    let n = before.len() as int;
    lemma_first_where(name, p);
    lemma_after_last_where(name, p);
    let start = first_where(name, p);
    let end = after_last_where(name, p);
    assert forall|j: int| 0 <= j < padded.len() && !(n <= j < n + name.len()) implies !p(
        #[trigger] padded[j],
    ) by {
        if j < n {
            assert(padded[j] == before[j]);
        } else {
            assert(padded[j] == after[j - n - name.len()]);
        }
    }
    assert forall|j: int| n <= j < n + name.len() implies #[trigger] padded[j] == name[j - n] by {}
    if start < name.len() {
        lemma_first_where_is(padded, p, n + start);
        assert(start < end) by {
            if end <= start {
                assert(!p(name[start]));
            }
        }
        lemma_after_last_where_is(padded, p, n + end);
        assert(padded.subrange(n + start, n + end) == name.subrange(start, end));
    } else {
        assert forall|j: int| 0 <= j < padded.len() implies !p(#[trigger] padded[j]) by {
            if n <= j < n + name.len() {
                assert(!p(name[j - n]));
            }
        }
        lemma_first_where_is(padded, p, padded.len() as int);
        lemma_after_last_where_is(padded, p, 0);
        assert(end == 0) by {
            if end > 0 {
                assert(!p(name[end - 1]));
            }
        }
    }
}

/// The case of a name does not change what it is looked up as.
pub proof fn lemma_name_key_lowered(name: Seq<u8>)
    ensures
        name_key(lowered(name)) == name_key(name),
{
    let p = non_ascii_space();
    let low = lowered(name);
    lemma_first_where(name, p);
    lemma_after_last_where(name, p);
    assert forall|j: int| 0 <= j < name.len() implies p(#[trigger] low[j]) == p(name[j]) by {}
    lemma_first_where_is(low, p, first_where(name, p));
    lemma_after_last_where_is(low, p, after_last_where(name, p));
    assert(name_key(low) == name_key(name));
}

} // verus!
