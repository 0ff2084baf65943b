//! Laws of building, serializing and searching requests.

use super::words::{all_blank, is_bare, lemma_lowered, lemma_trimmed, same_letters};
use crate::numerals::{bytes_to_hex, decimal_text};
use crate::raw_http::request::{
    header_name_matches, is_named, line_bytes, line_value, lines_bytes, lines_view, named,
    not_named, values_named, without_named, HeaderEntry, Line, RawRequest,
};
use crate::text::lossy;
use vstd::prelude::*;
use vstd::utf8::{decode_utf8_encode_utf8, encode_utf8, valid_utf8};

verus! {

/// The line break `\r\n`.
pub open spec fn crlf() -> Seq<u8> {
    seq![13u8, 10u8]
}

/// Whether two requests agree in everything but the header lines.
pub open spec fn same_frame(a: RawRequest, b: RawRequest) -> bool {
    &&& a.request_line@ == b.request_line@
    &&& a.request_line_ending@ == b.request_line_ending@
    &&& a.headers_terminator@ == b.headers_terminator@
    &&& a.body@ == b.body@
}

/// Whether an entry is a header of these three pieces.
pub open spec fn is_header(
    entry: HeaderEntry,
    name: Seq<u8>,
    value: Seq<u8>,
    ending: Seq<u8>,
) -> bool {
    entry matches HeaderEntry::Header(h) && h.name@ == name && h.value@ == value && h.line_ending@
        == ending
}

/// Whether an entry is a line that is no header.
pub open spec fn is_raw(entry: HeaderEntry, bytes: Seq<u8>) -> bool {
    entry matches HeaderEntry::Raw(line) && line@ == bytes
}

/// Whether two entries hold the same bytes in the same places.
pub open spec fn same_entry(a: HeaderEntry, b: HeaderEntry) -> bool {
    match b {
        HeaderEntry::Header(h) => is_header(a, h.name@, h.value@, h.line_ending@),
        HeaderEntry::Raw(line) => is_raw(a, line@),
    }
}

/// Whether two lists of entries hold the same bytes in the same places.
pub open spec fn same_entries(a: Seq<HeaderEntry>, b: Seq<HeaderEntry>) -> bool {
    a.len() == b.len() && forall|i: int| 0 <= i < a.len() ==> same_entry(#[trigger] a[i], b[i])
}

/// Whether `longer` is `list` with one more entry behind it.
pub open spec fn is_followed_by(
    list: Seq<HeaderEntry>,
    entry: HeaderEntry,
    longer: Seq<HeaderEntry>,
) -> bool {
    longer.len() == list.len() + 1 && same_entries(longer.drop_last(), list) && same_entry(
        longer.last(),
        entry,
    )
}

/// Entries that hold the same bytes have the same view.
pub proof fn lemma_same_entries(a: Seq<HeaderEntry>, b: Seq<HeaderEntry>)
    ensures
        same_entries(a, b) == (lines_view(a) == lines_view(b)),
{
    if same_entries(a, b) {
        assert forall|i: int| 0 <= i < a.len() implies #[trigger] lines_view(a)[i] == lines_view(
            b,
        )[i] by {
            assert(same_entry(a[i], b[i]));
        }
        assert(lines_view(a) == lines_view(b));
    }
    if lines_view(a) == lines_view(b) {
        assert(lines_view(a).len() == a.len() && lines_view(b).len() == b.len());
        assert forall|i: int| 0 <= i < a.len() implies same_entry(#[trigger] a[i], b[i]) by {
            assert(lines_view(a)[i] == lines_view(b)[i]);
        }
    }
}

/// One more entry is one more line.
pub proof fn lemma_followed_by(
    list: Seq<HeaderEntry>,
    entry: HeaderEntry,
    longer: Seq<HeaderEntry>,
)
    ensures
        is_followed_by(list, entry, longer) == (lines_view(longer) == lines_view(list).push(
            entry@,
        )),
{
    assert(lines_view(longer).len() == longer.len());
    assert(lines_view(list).push(entry@).len() == list.len() + 1);
    if longer.len() == list.len() + 1 {
        lemma_same_entries(longer.drop_last(), list);
        assert(lines_view(longer).drop_last() == lines_view(longer.drop_last()));
        assert(lines_view(longer).last() == longer.last()@);
        assert(lines_view(list).push(entry@).drop_last() == lines_view(list));
        assert(lines_view(list).push(entry@).last() == entry@);
        if is_followed_by(list, entry, longer) {
            assert(lines_view(longer) == lines_view(longer).drop_last().push(
                lines_view(longer).last(),
            ));
        }
    }
}

/// A new request is its request line `method target version` and nothing else.
pub proof fn law_new_request(method: &str, target: &str, version: &str, r: RawRequest)
    requires
        call_ensures(RawRequest::new, (method, target, version), r),
    ensures
        r.request_line@ == encode_utf8(method@) + seq![32u8] + encode_utf8(target@) + seq![32u8]
            + encode_utf8(version@),
        r.request_line_ending@ == crlf(),
        r.headers@.len() == 0,
        r.headers_terminator@ == crlf(),
        r.body@.len() == 0,
{
    assert(lines_view(r.headers@).len() == r.headers@.len());
}

/// Adding a header puts the line `name: value` behind the others and changes
/// nothing else.
pub proof fn law_header(request: RawRequest, name: &str, value: &str, r: RawRequest)
    requires
        call_ensures(RawRequest::header, (request, name, value), r),
    ensures
        same_frame(r, request),
        r.headers@.len() == request.headers@.len() + 1,
        same_entries(r.headers@.drop_last(), request.headers@),
        is_header(
            r.headers@.last(),
            encode_utf8(name@),
            seq![32u8] + encode_utf8(value@),
            crlf(),
        ),
{
    lemma_followed_by(request.headers@, r.headers@.last(), r.headers@);
    assert(lines_view(r.headers@).len() == r.headers@.len());
    assert(lines_view(r.headers@).last() == r.headers@.last()@);
}

/// Adding raw pieces puts exactly these pieces behind the other lines and changes
/// nothing else.
pub proof fn law_header_raw(
    request: RawRequest,
    name: Vec<u8>,
    value: Vec<u8>,
    ending: Vec<u8>,
    r: RawRequest,
)
    requires
        call_ensures(
            RawRequest::header_raw::<Vec<u8>, Vec<u8>, Vec<u8>>,
            (request, name, value, ending),
            r,
        ),
    ensures
        same_frame(r, request),
        r.headers@.len() == request.headers@.len() + 1,
        same_entries(r.headers@.drop_last(), request.headers@),
        is_header(r.headers@.last(), name@, value@, ending@),
{
    lemma_followed_by(request.headers@, r.headers@.last(), r.headers@);
}

/// A raw line goes behind the other lines as it is; the other raw pieces replace
/// what was in their place. Nothing else changes.
pub proof fn law_raw_pieces(
    request: RawRequest,
    bytes: Vec<u8>,
    lined: RawRequest,
    terminated: RawRequest,
    begun: RawRequest,
    filled: RawRequest,
)
    requires
        call_ensures(RawRequest::raw_line::<Vec<u8>>, (request, bytes), lined),
        call_ensures(RawRequest::headers_terminator::<Vec<u8>>, (request, bytes), terminated),
        call_ensures(RawRequest::request_line_ending::<Vec<u8>>, (request, bytes), begun),
        call_ensures(RawRequest::body::<Vec<u8>>, (request, bytes), filled),
    ensures
        same_frame(lined, request),
        lined.headers@.len() == request.headers@.len() + 1,
        same_entries(lined.headers@.drop_last(), request.headers@),
        is_raw(lined.headers@.last(), bytes@),
        same_entries(terminated.headers@, request.headers@),
        same_entries(begun.headers@, request.headers@),
        same_entries(filled.headers@, request.headers@),
        terminated.headers_terminator@ == bytes@,
        terminated.request_line@ == request.request_line@,
        terminated.request_line_ending@ == request.request_line_ending@,
        terminated.body@ == request.body@,
        begun.request_line_ending@ == bytes@,
        begun.request_line@ == request.request_line@,
        begun.headers_terminator@ == request.headers_terminator@,
        begun.body@ == request.body@,
        filled.body@ == bytes@,
        filled.request_line@ == request.request_line@,
        filled.request_line_ending@ == request.request_line_ending@,
        filled.headers_terminator@ == request.headers_terminator@,
{
    lemma_followed_by(request.headers@, lined.headers@.last(), lined.headers@);
    lemma_same_entries(terminated.headers@, request.headers@);
    lemma_same_entries(begun.headers@, request.headers@);
    lemma_same_entries(filled.headers@, request.headers@);
}

/// A request without header lines is written as its four other pieces, one after
/// the other.
pub proof fn law_to_bytes_without_headers(request: &RawRequest, out: Vec<u8>)
    requires
        call_ensures(RawRequest::to_bytes, (request,), out),
        request.headers@.len() == 0,
    ensures
        out@ == request.request_line@ + request.request_line_ending@ + request.headers_terminator@
            + request.body@,
{
    assert(lines_view(request.headers@) == Seq::<Line>::empty());
    assert(lines_bytes(lines_view(request.headers@)) == Seq::<u8>::empty());
}

/// The bytes of one entry.
pub open spec fn entry_bytes(entry: HeaderEntry) -> Seq<u8> {
    match entry {
        HeaderEntry::Header(h) => h.name@ + seq![58u8] + h.value@ + h.line_ending@,
        HeaderEntry::Raw(line) => line@,
    }
}

/// One more header line is written right in front of the blank line, as its pieces
/// are, with a colon between name and value; all other bytes stay.
pub proof fn law_to_bytes_one_more(
    request: &RawRequest,
    entry: HeaderEntry,
    longer: &RawRequest,
    out: Vec<u8>,
    longer_out: Vec<u8>,
)
    requires
        same_frame(*longer, *request),
        is_followed_by(request.headers@, entry, longer.headers@),
        call_ensures(RawRequest::to_bytes, (request,), out),
        call_ensures(RawRequest::to_bytes, (longer,), longer_out),
    ensures
        ({
            let at = out@.len() - request.body@.len() - request.headers_terminator@.len();
            &&& 0 <= at <= out@.len()
            &&& out@.skip(at) == request.headers_terminator@ + request.body@
            &&& longer_out@ == out@.take(at) + entry_bytes(entry) + out@.skip(at)
        }),
{
    lemma_followed_by(request.headers@, entry, longer.headers@);
    let lines = lines_view(request.headers@);
    let more = lines_view(longer.headers@);
    assert(more.drop_last() == lines);
    assert(lines_bytes(more) == lines_bytes(lines) + line_bytes(entry@));
    let head = request.request_line@ + request.request_line_ending@ + lines_bytes(lines);
    let tail = request.headers_terminator@ + request.body@;
    assert(out@ == head + tail);
    assert(out@.take(head.len() as int) == head);
    assert(out@.skip(head.len() as int) == tail);
    assert(longer_out@ == head + entry_bytes(entry) + tail);
}

/// Two names are found under each other exactly if, without the ASCII whitespace
/// around them, they are equally long and agree in every byte up to the case of
/// ASCII letters.
pub proof fn law_names_match(
    name: &[u8],
    before: Seq<u8>,
    core: Seq<u8>,
    after: Seq<u8>,
    target: &[u8],
    target_before: Seq<u8>,
    target_core: Seq<u8>,
    target_after: Seq<u8>,
    r: bool,
)
    requires
        call_ensures(header_name_matches, (name, target), r),
        name@ == before + core + after,
        all_blank(before),
        is_bare(core),
        all_blank(after),
        target@ == target_before + target_core + target_after,
        all_blank(target_before),
        is_bare(target_core),
        all_blank(target_after),
    ensures
        r == same_letters(core, target_core),
{
    lemma_trimmed(before, core, after);
    lemma_trimmed(target_before, target_core, target_after);
    lemma_lowered(core, target_core);
}

/// Whether an entry is found under a name, as far as that is decided: some call of
/// `header_name_matches` on its name gave `found`.
pub open spec fn is_decided(entry: HeaderEntry, own: &[u8], name: &[u8], found: bool) -> bool {
    match entry {
        HeaderEntry::Header(h) => own@ == h.name@ && call_ensures(
            header_name_matches,
            (own, name),
            found,
        ),
        HeaderEntry::Raw(_) => !found,
    }
}

/// A request without header lines has no values; one more line adds its value,
/// behind the others, exactly if it is a header whose name matches.
pub proof fn law_header_values(
    request: &RawRequest,
    entry: HeaderEntry,
    longer: &RawRequest,
    name: &str,
    name_bytes: &[u8],
    own: &[u8],
    found: bool,
    values: Vec<&[u8]>,
    longer_values: Vec<&[u8]>,
)
    requires
        is_followed_by(request.headers@, entry, longer.headers@),
        name_bytes@ == encode_utf8(name@),
        is_decided(entry, own, name_bytes, found),
        call_ensures(RawRequest::header_values, (request, name), values),
        call_ensures(RawRequest::header_values, (longer, name), longer_values),
    ensures
        request.headers@.len() == 0 ==> values@.len() == 0,
        longer_values@.len() == values@.len() + if found { 1int } else { 0 },
        forall|i: int| 0 <= i < values@.len() ==> longer_values@[i]@ == #[trigger] values@[i]@,
        found ==> (entry matches HeaderEntry::Header(h) && longer_values@.last()@ == h.value@),
{
    reveal(Seq::filter);
    lemma_followed_by(request.headers@, entry, longer.headers@);
    let lines = lines_view(request.headers@);
    let more = lines_view(longer.headers@);
    let key = name_bytes@;
    assert(more.drop_last() == lines);
    assert(found == is_named(entry@, key));
    let old_views = values@.map_values(|v: &[u8]| v@);
    let new_views = longer_values@.map_values(|v: &[u8]| v@);
    assert(old_views == values_named(lines, key));
    assert(new_views == values_named(more, key));
    if found {
        assert(more.filter(named(key)) == lines.filter(named(key)).push(entry@));
        assert(new_views == old_views.push(line_value(entry@)));
    } else {
        assert(more.filter(named(key)) == lines.filter(named(key)));
        assert(new_views == old_views);
    }
    assert(old_views.len() == values@.len() && new_views.len() == longer_values@.len());
    assert forall|i: int| 0 <= i < values@.len() implies longer_values@[i]@ == #[trigger] values@[
    i]@ by {
        assert(old_views[i] == values@[i]@);
        assert(new_views[i] == longer_values@[i]@);
    }
    if found {
        assert(new_views.last() == longer_values@.last()@);
    }
}

/// Removing from a request without header lines leaves none; one more line stays,
/// behind the others, unless it is a header whose name matches. Nothing but header
/// lines is touched.
pub proof fn law_remove_one_more(
    request: RawRequest,
    entry: HeaderEntry,
    longer: RawRequest,
    name: &str,
    name_bytes: &[u8],
    own: &[u8],
    found: bool,
    r: RawRequest,
    longer_r: RawRequest,
)
    requires
        is_followed_by(request.headers@, entry, longer.headers@),
        name_bytes@ == encode_utf8(name@),
        is_decided(entry, own, name_bytes, found),
        call_ensures(RawRequest::remove_headers, (request, name), r),
        call_ensures(RawRequest::remove_headers, (longer, name), longer_r),
    ensures
        same_frame(r, request),
        request.headers@.len() == 0 ==> r.headers@.len() == 0,
        found ==> same_entries(longer_r.headers@, r.headers@),
        !found ==> is_followed_by(r.headers@, entry, longer_r.headers@),
{
    reveal(Seq::filter);
    lemma_followed_by(request.headers@, entry, longer.headers@);
    let lines = lines_view(request.headers@);
    let more = lines_view(longer.headers@);
    let key = name_bytes@;
    assert(more.drop_last() == lines);
    assert(found == is_named(entry@, key));
    assert(lines_view(r.headers@) == without_named(lines, key));
    assert(lines_view(longer_r.headers@) == without_named(more, key));
    assert(lines_view(r.headers@).len() == r.headers@.len());
    if found {
        assert(more.filter(not_named(key)) == lines.filter(not_named(key)));
        lemma_same_entries(longer_r.headers@, r.headers@);
    } else {
        assert(more.filter(not_named(key)) == lines.filter(not_named(key)).push(entry@));
        lemma_followed_by(r.headers@, entry, longer_r.headers@);
    }
}

/// Recomputing the length is removing all headers named `Content-Length` and adding
/// one, last, with the decimal length of the body.
pub proof fn law_fix_is_remove_and_add(
    request: RawRequest,
    name: &str,
    removed: RawRequest,
    length: usize,
    digits: String,
    r: RawRequest,
)
    requires
        name@ == "Content-Length"@,
        call_ensures(RawRequest::remove_headers, (request, name), removed),
        length == request.body@.len(),
        call_ensures(decimal_text, (length,), digits),
        call_ensures(RawRequest::fix_content_length, (request,), r),
    ensures
        same_frame(r, request),
        r.headers@.len() == removed.headers@.len() + 1,
        same_entries(r.headers@.drop_last(), removed.headers@),
        is_header(
            r.headers@.last(),
            encode_utf8("Content-Length"@),
            seq![32u8] + encode_utf8(digits@),
            crlf(),
        ),
{
    lemma_followed_by(removed.headers@, r.headers@.last(), r.headers@);
    assert(lines_view(r.headers@).len() == r.headers@.len());
    assert(lines_view(removed.headers@).len() == removed.headers@.len());
    assert(lines_view(r.headers@).last() == r.headers@.last()@);
}

/// The hexadecimal form of a request is that of its bytes, and its text is what the
/// replacement of all that is not UTF-8 leaves of them: where they are UTF-8, these very
/// bytes.
pub proof fn law_dumps(
    request: &RawRequest,
    bytes: Vec<u8>,
    slice: &[u8],
    digits: String,
    hex: String,
    text: String,
)
    requires
        call_ensures(RawRequest::to_bytes, (request,), bytes),
        slice@ == bytes@,
        call_ensures(bytes_to_hex, (slice,), digits),
        call_ensures(RawRequest::to_hex, (request,), hex),
        call_ensures(RawRequest::to_string_lossy, (request,), text),
    ensures
        hex@ == digits@,
        text@ == lossy(bytes@),
        valid_utf8(bytes@) ==> encode_utf8(text@) == bytes@,
{
    if valid_utf8(bytes@) {
        decode_utf8_encode_utf8(bytes@);
    }
}

} // verus!
