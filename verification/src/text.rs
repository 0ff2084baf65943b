//! Text as sequences of characters: Unicode whitespace, words, and the
//! passage between bytes and text.

use crate::scan::{first_where, lemma_after_last_where_is, lemma_first_where_is, stripped};
use vstd::prelude::*;
use vstd::utf8::{decode_utf8, encode_utf8, valid_utf8};

verus! {

/// Whether `c` has the Unicode property `White_Space`.
pub open spec fn is_space(c: char) -> bool {
    ||| '\u{9}' <= c && c <= '\u{d}'
    ||| c == '\u{20}' || c == '\u{85}' || c == '\u{a0}' || c == '\u{1680}'
    ||| '\u{2000}' <= c && c <= '\u{200a}'
    ||| c == '\u{2028}' || c == '\u{2029}' || c == '\u{202f}' || c == '\u{205f}' || c == '\u{3000}'
}

/// The predicate "is whitespace".
pub open spec fn space() -> spec_fn(char) -> bool {
    |c: char| is_space(c)
}

/// The predicate "is not whitespace".
pub open spec fn non_space() -> spec_fn(char) -> bool {
    |c: char| !is_space(c)
}

/// Text without leading and trailing whitespace.
pub open spec fn trimmed(s: Seq<char>) -> Seq<char> {
    stripped(s, non_space())
}

/// Text from its first word on.
pub open spec fn from_first_word(s: Seq<char>) -> Seq<char> {
    s.skip(first_where(s, non_space()))
}

/// The first maximal run of non-whitespace, empty if there is none.
pub open spec fn first_word(s: Seq<char>) -> Seq<char> {
    let t = from_first_word(s);
    t.take(first_where(t, space()))
}

/// What follows the first word.
pub open spec fn after_first_word(s: Seq<char>) -> Seq<char> {
    let t = from_first_word(s);
    t.skip(first_where(t, space()))
}

/// Whether `c` is Unicode whitespace.
pub fn char_is_space(c: char) -> (r: bool)
    ensures
        r == is_space(c),
{
    ('\u{9}' <= c && c <= '\u{d}') || c == '\u{20}' || c == '\u{85}' || c == '\u{a0}' || c
        == '\u{1680}' || ('\u{2000}' <= c && c <= '\u{200a}') || c == '\u{2028}' || c == '\u{2029}'
        || c == '\u{202f}' || c == '\u{205f}' || c == '\u{3000}'
}

/// The characters of a string.
pub fn chars_of(s: &str) -> (out: Vec<char>)
    ensures
        out@ == s@,
{
    let mut out: Vec<char> = Vec::new();
    for c in it: s.chars()
        invariant
            it.seq() == s@,
            out@ == s@.take(it.index()),
    {
        out.push(c);
        assert(out@ == s@.take(it.index() + 1));
    }
    assert(out@ == s@);
    out
}

/// The characters between whitespace at both ends.
pub fn trim_chars(s: &[char]) -> (out: &[char])
    ensures
        out@ == trimmed(s@),
{
    let mut start: usize = 0;
    while start < s.len() && char_is_space(s[start])
        invariant
            start <= s.len(),
            forall|j: int| 0 <= j < start ==> is_space(#[trigger] s@[j]),
        decreases s.len() - start,
    {
        start += 1;
    }
    let mut end: usize = s.len();
    while end > 0 && char_is_space(s[end - 1])
        invariant
            end <= s.len(),
            forall|j: int| end <= j < s.len() ==> is_space(#[trigger] s@[j]),
        decreases end,
    {
        end -= 1;
    }
    proof {
        lemma_first_where_is(s@, non_space(), start as int);
        lemma_after_last_where_is(s@, non_space(), end as int);
    }
    if start < end {
        vstd::slice::slice_subrange(s, start, end)
    } else {
        let none = vstd::slice::slice_subrange(s, 0, 0);
        assert(none@ == Seq::<char>::empty());
        none
    }
}

/// Bounds of the first word at or after `from`, both equal to the length if
/// there is none.
fn word_bounds(s: &[char], from: usize) -> (r: (usize, usize))
    requires
        from <= s@.len(),
    ensures
        from <= r.0 <= r.1 <= s@.len(),
        s@.subrange(r.0 as int, r.1 as int) == first_word(s@.skip(from as int)),
        s@.skip(r.1 as int) == after_first_word(s@.skip(from as int)),
{
    let ghost tail = s@.skip(from as int);
    let mut start: usize = from;
    while start < s.len() && char_is_space(s[start])
        invariant
            from <= start <= s.len(),
            tail == s@.skip(from as int),
            forall|j: int| 0 <= j < start - from ==> is_space(#[trigger] tail[j]),
        decreases s.len() - start,
    {
        assert(tail[start - from] == s@[start as int]);
        start += 1;
    }
    let mut end: usize = start;
    proof {
        if start < s.len() {
            assert(tail[start - from] == s@[start as int]);
        }
        lemma_first_where_is(tail, non_space(), start - from);
    }
    let ghost word = from_first_word(tail);
    assert(word == s@.skip(start as int));
    while end < s.len() && !char_is_space(s[end])
        invariant
            from <= start <= end <= s.len(),
            word == s@.skip(start as int),
            forall|j: int| 0 <= j < end - start ==> !is_space(#[trigger] word[j]),
        decreases s.len() - end,
    {
        assert(word[end - start] == s@[end as int]);
        end += 1;
    }
    proof {
        if end < s.len() {
            assert(word[end - start] == s@[end as int]);
        }
        lemma_first_where_is(word, space(), end - start);
        assert(word.take(end - start) == s@.subrange(start as int, end as int));
        assert(word.skip(end - start) == s@.skip(end as int));
    }
    (start, end)
}

/// The first two whitespace-separated words of `s`, each empty if missing.
pub fn first_two_words(s: &str) -> (r: (String, String))
    ensures
        r.0@ == first_word(s@),
        r.1@ == first_word(after_first_word(s@)),
{
    let chars = chars_of(s);
    assert(chars@.skip(0) == chars@);
    let (a, b) = word_bounds(chars.as_slice(), 0);
    let (c, d) = word_bounds(chars.as_slice(), b);
    (s.substring_char(a, b).to_owned(), s.substring_char(c, d).to_owned())
}

/// `std::str::from_utf8`: gives the text whose UTF-8 encoding `bytes` is, if
/// `bytes` is valid UTF-8, and an error otherwise.
#[verifier::external_body]
pub(crate) fn utf8_text(bytes: &[u8]) -> (r: Option<&str>)
    ensures
        r is Some <==> valid_utf8(bytes@),
        r matches Some(s) ==> encode_utf8(s@) == bytes@,
{
    std::str::from_utf8(bytes).ok()
}

/// The text that `String::from_utf8_lossy` makes of some bytes.
pub uninterp spec fn lossy(bytes: Seq<u8>) -> Seq<char>;

/// `String::from_utf8_lossy`: replaces what is not UTF-8 by U+FFFD, and so
/// leaves valid UTF-8 as it is. Where the replacement characters go is given by
/// the name `lossy` alone.
#[verifier::external_body]
pub(crate) fn utf8_lossy(bytes: &[u8]) -> (r: String)
    ensures
        r@ == lossy(bytes@),
        valid_utf8(bytes@) ==> r@ == decode_utf8(bytes@),
{
    String::from_utf8_lossy(bytes).into_owned()
}

} // verus!
