//! ASCII bytes by name, and what the byte-oriented protocols treat as
//! whitespace and as the same letter.

use crate::scan::{lemma_after_last_where_is, lemma_first_where_is, stripped};
use vstd::prelude::*;
use vstd::slice::slice_subrange;

verus! {

/// Horizontal tab.
pub const TAB: u8 = 0x09;

/// Line feed.
pub const LF: u8 = 0x0a;

/// Form feed.
pub const FF: u8 = 0x0c;

/// Carriage return.
pub const CR: u8 = 0x0d;

/// Space.
pub const SPACE: u8 = 0x20;

/// Digit zero.
pub const ZERO: u8 = 0x30;

/// Colon.
pub const COLON: u8 = 0x3a;

/// Whether `b` is ASCII whitespace.
pub open spec fn is_ascii_space(b: u8) -> bool {
    b == SPACE || b == TAB || b == LF || b == FF || b == CR
}

/// The predicate "is not ASCII whitespace".
pub open spec fn non_ascii_space() -> spec_fn(u8) -> bool {
    |b: u8| !is_ascii_space(b)
}

/// Bytes without leading and trailing ASCII whitespace.
pub open spec fn ascii_trimmed(s: Seq<u8>) -> Seq<u8> {
    stripped(s, non_ascii_space())
}

/// The lowercase form of an ASCII letter; any other byte unchanged.
pub open spec fn lower(b: u8) -> u8 {
    if 0x41 <= b && b <= 0x5a {
        (b + 0x20) as u8
    } else {
        b
    }
}

/// Bytes with every ASCII letter in lowercase.
pub open spec fn lowered(s: Seq<u8>) -> Seq<u8> {
    s.map_values(|b: u8| lower(b))
}

/// Whether `b` is ASCII whitespace.
fn byte_is_ascii_space(b: u8) -> (r: bool)
    ensures
        r == is_ascii_space(b),
{
    b == SPACE || b == TAB || b == LF || b == FF || b == CR
}

/// The lowercase form of `b`.
fn byte_lower(b: u8) -> (r: u8)
    ensures
        r == lower(b),
{
    if 0x41 <= b && b <= 0x5a {
        b + 0x20
    } else {
        b
    }
}

/// The bytes between ASCII whitespace at both ends.
pub fn trim_ascii_whitespace(s: &[u8]) -> (out: &[u8])
    ensures
        out@ == ascii_trimmed(s@),
{
    let mut start: usize = 0;
    while start < s.len() && byte_is_ascii_space(s[start])
        invariant
            start <= s.len(),
            forall|j: int| 0 <= j < start ==> is_ascii_space(#[trigger] s@[j]),
        decreases s.len() - start,
    {
        start += 1;
    }
    let mut end: usize = s.len();
    while end > 0 && byte_is_ascii_space(s[end - 1])
        invariant
            end <= s.len(),
            forall|j: int| end <= j < s.len() ==> is_ascii_space(#[trigger] s@[j]),
        decreases end,
    {
        end -= 1;
    }
    proof {
        lemma_first_where_is(s@, non_ascii_space(), start as int);
        lemma_after_last_where_is(s@, non_ascii_space(), end as int);
    }
    if start < end {
        slice_subrange(s, start, end)
    } else {
        let none = slice_subrange(s, 0, 0);
        assert(none@ == Seq::<u8>::empty());
        none
    }
}

/// Equality of bytes up to the case of ASCII letters.
pub fn eq_ignore_ascii_case(a: &[u8], b: &[u8]) -> (r: bool)
    ensures
        r == (lowered(a@) == lowered(b@)),
{
    if a.len() != b.len() {
        assert(lowered(a@).len() != lowered(b@).len());
        return false;
    }
    let mut i: usize = 0;
    while i < a.len()
        invariant
            i <= a.len(),
            a.len() == b.len(),
            forall|j: int| 0 <= j < i ==> lower(#[trigger] a@[j]) == lower(b@[j]),
        decreases a.len() - i,
    {
        if byte_lower(a[i]) != byte_lower(b[i]) {
            assert(lowered(a@)[i as int] != lowered(b@)[i as int]);
            return false;
        }
        i += 1;
    }
    assert(lowered(a@) == lowered(b@));
    true
}

} // verus!
