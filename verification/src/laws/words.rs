//! Laws of words, whitespace and numbers.

use crate::ascii::{
    ascii_trimmed, eq_ignore_ascii_case, is_ascii_space, lowered, non_ascii_space,
    trim_ascii_whitespace,
};
use crate::numerals::{
    bytes_to_hex, decimal, decimal_text, decimal_value, hex_bytes, hex_text, is_decimal,
    law_decimal_denotes, parse_unsigned, without_plus,
};
use crate::scan::{lemma_after_last_where_is, lemma_first_where, lemma_first_where_is};
use crate::text::{
    after_first_word, char_is_space, first_two_words, first_word, from_first_word, is_space,
    non_space, space, trim_chars,
};
use vstd::prelude::*;

verus! {

/// Whether a character separates words: the 25 characters with the Unicode
/// property `White_Space`.
pub open spec fn white(c: char) -> bool {
    c == '\t' || c == '\n' || c == '\u{b}' || c == '\u{c}' || c == '\r' || c == ' ' || c == '\u{85}'
        || c == '\u{a0}' || c == '\u{1680}' || ('\u{2000}' <= c && c <= '\u{200a}') || c
        == '\u{2028}' || c == '\u{2029}' || c == '\u{202f}' || c == '\u{205f}' || c == '\u{3000}'
}

/// Whether all characters separate words.
pub open spec fn all_white(s: Seq<char>) -> bool {
    forall|i: int| 0 <= i < s.len() ==> white(#[trigger] s[i])
}

/// Whether some text is one word.
pub open spec fn is_word(s: Seq<char>) -> bool {
    s.len() > 0 && forall|i: int| 0 <= i < s.len() ==> !white(#[trigger] s[i])
}

/// Whether text is empty or begins with a separator.
pub open spec fn starts_white(s: Seq<char>) -> bool {
    s.len() > 0 ==> white(s[0])
}

/// Exactly the characters with the property `White_Space` are whitespace.
pub proof fn law_whitespace(c: char, r: bool)
    requires
        call_ensures(char_is_space, (c,), r),
    ensures
        r == white(c),
{
}

/// The first word and what follows it, where text is taken apart around it.
pub proof fn lemma_first_word(lead: Seq<char>, word: Seq<char>, tail: Seq<char>)
    requires
        all_white(lead),
        is_word(word),
        starts_white(tail),
    ensures
        first_word(lead + word + tail) == word,
        after_first_word(lead + word + tail) == tail,
{
    let s = lead + word + tail;
    let n = lead.len() as int;
    assert forall|j: int| 0 <= j < n implies is_space(#[trigger] s[j]) by {
        assert(s[j] == lead[j]);
        assert(white(lead[j]));
    }
    assert(s[n] == word[0]);
    assert(!white(word[0]));
    lemma_first_where_is(s, non_space(), n);
    let t = from_first_word(s);
    assert(t == word + tail);
    assert forall|j: int| 0 <= j < word.len() implies !is_space(#[trigger] t[j]) by {
        assert(t[j] == word[j]);
        assert(!white(word[j]));
    }
    if tail.len() > 0 {
        assert(t[word.len() as int] == tail[0]);
    }
    lemma_first_where_is(t, space(), word.len() as int);
    assert(t.take(word.len() as int) == word);
    assert(t.skip(word.len() as int) == tail);
}

/// Text without any word has an empty first word.
pub proof fn lemma_no_word(s: Seq<char>)
    requires
        all_white(s),
    ensures
        first_word(s) == Seq::<char>::empty(),
        after_first_word(s) == Seq::<char>::empty(),
{
    assert forall|j: int| 0 <= j < s.len() implies is_space(#[trigger] s[j]) by {
        assert(white(s[j]));
    }
    lemma_first_where_is(s, non_space(), s.len() as int);
    let t = from_first_word(s);
    assert(t == Seq::<char>::empty());
    lemma_first_where(t, space());
    assert(first_word(s) == Seq::<char>::empty());
    assert(after_first_word(s) == Seq::<char>::empty());
}

/// The first two words of a text are the first two maximal runs of characters that
/// are not whitespace, whole and unchanged, whatever surrounds them.
pub proof fn law_first_two_words(
    line: &str,
    lead: Seq<char>,
    first: Seq<char>,
    gap: Seq<char>,
    second: Seq<char>,
    tail: Seq<char>,
    r: (String, String),
)
    requires
        call_ensures(first_two_words, (line,), r),
        line@ == lead + first + (gap + second + tail),
        all_white(lead),
        is_word(first),
        gap.len() > 0,
        all_white(gap),
        is_word(second),
        starts_white(tail),
    ensures
        r.0@ == first,
        r.1@ == second,
{
    assert(white(gap[0]));
    assert((gap + second + tail)[0] == gap[0]);
    lemma_first_word(lead, first, gap + second + tail);
    lemma_first_word(gap, second, tail);
}

/// A text with one word has no second one, and a text without words has none.
pub proof fn law_missing_words(
    line: &str,
    lead: Seq<char>,
    first: Seq<char>,
    tail: Seq<char>,
    r: (String, String),
)
    requires
        call_ensures(first_two_words, (line,), r),
        line@ == lead + first + tail,
        all_white(lead),
        first.len() == 0 || is_word(first),
        all_white(tail),
    ensures
        r.0@ == first,
        r.1@ == Seq::<char>::empty(),
{
    if first.len() > 0 {
        if tail.len() > 0 {
            assert(white(tail[0]));
        }
        lemma_first_word(lead, first, tail);
        lemma_no_word(tail);
    } else {
        assert forall|i: int| 0 <= i < line@.len() implies white(#[trigger] line@[i]) by {
            if i < lead.len() {
                assert(line@[i] == lead[i]);
            } else {
                assert(line@[i] == tail[i - lead.len()]);
            }
        }
        lemma_no_word(line@);
        lemma_no_word(Seq::<char>::empty());
        assert(first == Seq::<char>::empty());
    }
}

/// Trimming takes away the whitespace at both ends and nothing else.
pub proof fn law_trim(
    s: &[char],
    before: Seq<char>,
    core: Seq<char>,
    after: Seq<char>,
    r: &[char],
)
    requires
        call_ensures(trim_chars, (s,), r),
        s@ == before + core + after,
        all_white(before),
        core.len() > 0 ==> !white(core[0]) && !white(core.last()),
        all_white(after),
    ensures
        r@ == core,
{
    let t = s@;
    let n = before.len() as int;
    let m = n + core.len();
    assert forall|j: int| 0 <= j < t.len() && !(n <= j < m) implies is_space(#[trigger] t[j]) by {
        if j < n {
            assert(t[j] == before[j]);
            assert(white(before[j]));
        } else {
            assert(t[j] == after[j - m]);
            assert(white(after[j - m]));
        }
    }
    if core.len() > 0 {
        assert(t[n] == core[0]);
        assert(t[m - 1] == core.last());
        lemma_first_where_is(t, non_space(), n);
        lemma_after_last_where_is(t, non_space(), m);
        assert(t.subrange(n, m) == core);
    } else {
        lemma_first_where_is(t, non_space(), t.len() as int);
        lemma_after_last_where_is(t, non_space(), 0);
        assert(core == Seq::<char>::empty());
    }
}

/// Whether a character is a decimal digit.
pub open spec fn digit(c: char) -> bool {
    '0' <= c && c <= '9'
}

/// A number of one character: a digit stands for its value and no other character
/// is a number. Nothing is not a number either.
pub proof fn law_shortest_numbers(s: &[char], max: usize, r: Option<usize>)
    requires
        call_ensures(parse_unsigned, (s, max), r),
        s@.len() <= 1,
    ensures
        r matches Some(n) <==> s@.len() == 1 && digit(s@[0]) && s@[0] as int - '0' as int <= max,
        r matches Some(n) ==> n == s@[0] as int - '0' as int,
{
    lemma_value_grows(Seq::empty(), s@);
    if s@.len() == 1 {
        assert(s@.drop_last() == Seq::<char>::empty());
        assert(decimal_value(s@.drop_last()) == 0);
        assert(s@[0] == '+' ==> s@.skip(1).len() == 0);
    }
}

/// A plus sign in front of digits changes nothing.
pub proof fn law_plus_sign(
    s: &[char],
    signed: &[char],
    max: usize,
    r: Option<usize>,
    signed_r: Option<usize>,
)
    requires
        call_ensures(parse_unsigned, (s, max), r),
        call_ensures(parse_unsigned, (signed, max), signed_r),
        signed@ == seq!['+'] + s@,
    ensures
        s@.len() > 0 && digit(s@[0]) ==> signed_r == r,
        !(s@.len() > 0 && digit(s@[0])) ==> signed_r is None,
{
    assert(signed@.skip(1) == s@);
    assert(without_plus(signed@) == s@);
}

/// One more character makes a number ten times as large and adds the digit. It is
/// no number if the character is no digit, if the result is too large, or if what
/// stood there before was not one.
pub proof fn law_longer_numbers(
    s: &[char],
    c: char,
    longer: &[char],
    max: usize,
    r: Option<usize>,
    longer_r: Option<usize>,
)
    requires
        call_ensures(parse_unsigned, (s, max), r),
        call_ensures(parse_unsigned, (longer, max), longer_r),
        s@.len() > 0,
        s@ != seq!['+'],
        longer@ == s@.push(c),
    ensures
        r matches Some(n) ==> longer_r == if digit(c) && 10 * n + (c as int - '0' as int) <= max {
            Some((10 * n + (c as int - '0' as int)) as usize)
        } else {
            None
        },
        r is None ==> longer_r is None,
{
    let digits = without_plus(s@);
    let more = without_plus(longer@);
    assert(more == digits.push(c)) by {
        if s@[0] == '+' {
            assert(longer@.skip(1) == s@.skip(1).push(c));
        }
    }
    assert(digits.len() > 0) by {
        if s@[0] == '+' && s@.len() == 1 {
            assert(s@ == seq!['+']);
        }
    }
    lemma_value_grows(digits, seq![c]);
    assert(more.drop_last() == digits);
    assert(is_decimal(more) == (is_decimal(digits) && digit(c))) by {
        assert(more.last() == c);
        if is_decimal(more) {
            assert forall|i: int| 0 <= i < digits.len() implies digit(#[trigger] digits[i]) by {
                assert(digit(more[i]));
            }
        }
        if is_decimal(digits) && digit(c) {
            assert forall|i: int| 0 <= i < more.len() implies digit(#[trigger] more[i]) by {
                if i < digits.len() {
                    assert(more[i] == digits[i]);
                }
            }
        }
    }
    if is_decimal(more) {
        assert(decimal_value(more) == 10 * decimal_value(digits) + (c as int - '0' as int));
    }
}

/// What digits stand for does not shrink as they get more.
proof fn lemma_value_grows(s: Seq<char>, t: Seq<char>)
    ensures
        decimal_value(s + t) >= decimal_value(s),
    decreases t.len(),
{
    if t.len() > 0 {
        lemma_value_grows(s, t.drop_last());
        assert((s + t).drop_last() == s + t.drop_last());
    } else {
        assert(s + t == s);
    }
}

/// A number is written with decimal digits, without a needless zero in front, and
/// is read back as itself.
pub proof fn law_decimal_text(
    n: usize,
    text: String,
    s: &[char],
    max: usize,
    r: Option<usize>,
)
    requires
        call_ensures(decimal_text, (n,), text),
        s@ == text@,
        n <= max,
        call_ensures(parse_unsigned, (s, max), r),
    ensures
        r == Some(n),
        text@.len() > 0,
        forall|i: int| 0 <= i < text@.len() ==> digit(#[trigger] text@[i]),
        text@[0] == '0' ==> text@.len() == 1 && n == 0,
{
    law_decimal_denotes(n as nat);
    lemma_leading_digit(n as nat);
}

/// Only zero is written with a zero in front.
pub proof fn lemma_leading_digit(n: nat)
    ensures
        decimal(n).len() > 0,
        decimal(n)[0] == '0' ==> n == 0 && decimal(n).len() == 1,
    decreases n,
{
    if n >= 10 {
        lemma_leading_digit(n / 10);
        assert(decimal(n)[0] == decimal(n / 10)[0]);
    }
}

/// The code of a hexadecimal digit, in lowercase.
pub open spec fn nibble(d: int) -> int {
    if d < 10 {
        0x30 + d
    } else {
        0x61 + d - 10
    }
}

/// A number below sixteen is one lowercase hexadecimal digit; a larger one is its
/// sixteenth followed by the digit of the remainder.
pub proof fn law_hex(n: usize, quotient: usize, r: Vec<u8>, front: Vec<u8>)
    requires
        call_ensures(hex_bytes, (n,), r),
        quotient == n / 16,
        call_ensures(hex_bytes, (quotient,), front),
    ensures
        n < 16 ==> r@ == seq![nibble(n as int) as u8],
        n >= 16 ==> r@ == front@.push(nibble(n as int % 16) as u8),
{
}

/// Each byte becomes two lowercase hexadecimal digits, in order.
pub proof fn law_hex_text(bytes: &[u8], r: String)
    requires
        call_ensures(bytes_to_hex, (bytes,), r),
    ensures
        r@.len() == 2 * bytes@.len(),
        forall|i: int|
            0 <= i < bytes@.len() ==> r@[2 * i] as int == nibble(#[trigger] bytes@[i] as int / 16)
                && r@[2 * i + 1] as int == nibble(bytes@[i] as int % 16),
{
    lemma_hex_text(bytes@);
}

/// The digits of a text of hexadecimal bytes.
proof fn lemma_hex_text(bytes: Seq<u8>)
    ensures
        hex_text(bytes).len() == 2 * bytes.len(),
        forall|i: int|
            0 <= i < bytes.len() ==> hex_text(bytes)[2 * i] as int == nibble(
                #[trigger] bytes[i] as int / 16,
            ) && hex_text(bytes)[2 * i + 1] as int == nibble(bytes[i] as int % 16),
    decreases bytes.len(),
{
    if bytes.len() > 0 {
        let front = bytes.drop_last();
        lemma_hex_text(front);
        assert forall|i: int| 0 <= i < bytes.len() implies hex_text(bytes)[2 * i] as int == nibble(
            #[trigger] bytes[i] as int / 16,
        ) && hex_text(bytes)[2 * i + 1] as int == nibble(bytes[i] as int % 16) by {
            if i < front.len() {
                assert(front[i] == bytes[i]);
            }
        }
    }
}

/// Whether a byte is ASCII whitespace: tab, line feed, form feed, carriage return
/// or space.
pub open spec fn blank(b: u8) -> bool {
    b == 9 || b == 10 || b == 12 || b == 13 || b == 32
}

/// Whether all bytes are ASCII whitespace.
pub open spec fn all_blank(s: Seq<u8>) -> bool {
    forall|i: int| 0 <= i < s.len() ==> blank(#[trigger] s[i])
}

/// Whether bytes neither begin nor end with ASCII whitespace.
pub open spec fn is_bare(s: Seq<u8>) -> bool {
    s.len() > 0 ==> !blank(s[0]) && !blank(s.last())
}

/// Whether two bytes are the same up to the case of an ASCII letter.
pub open spec fn same_letter(a: u8, b: u8) -> bool {
    a == b || (65 <= a && a <= 90 && b == a + 32) || (65 <= b && b <= 90 && a == b + 32)
}

/// Whether bytes are the same up to the case of ASCII letters.
pub open spec fn same_letters(a: Seq<u8>, b: Seq<u8>) -> bool {
    a.len() == b.len() && forall|i: int| 0 <= i < a.len() ==> same_letter(#[trigger] a[i], b[i])
}

/// Trimming bytes takes away the ASCII whitespace at both ends and nothing else.
pub proof fn law_trim_ascii(
    s: &[u8],
    before: Seq<u8>,
    core: Seq<u8>,
    after: Seq<u8>,
    r: &[u8],
)
    requires
        call_ensures(trim_ascii_whitespace, (s,), r),
        s@ == before + core + after,
        all_blank(before),
        is_bare(core),
        all_blank(after),
    ensures
        r@ == core,
{
    lemma_trimmed(before, core, after);
}

/// What is left of bytes around which there is whitespace.
pub proof fn lemma_trimmed(before: Seq<u8>, core: Seq<u8>, after: Seq<u8>)
    requires
        all_blank(before),
        is_bare(core),
        all_blank(after),
    ensures
        ascii_trimmed(before + core + after) == core,
{
    let t = before + core + after;
    let n = before.len() as int;
    let m = n + core.len();
    assert forall|j: int| 0 <= j < t.len() && !(n <= j < m) implies is_ascii_space(
        #[trigger] t[j],
    ) by {
        if j < n {
            assert(t[j] == before[j]);
            assert(blank(before[j]));
        } else {
            assert(t[j] == after[j - m]);
            assert(blank(after[j - m]));
        }
    }
    if core.len() > 0 {
        assert(t[n] == core[0]);
        assert(t[m - 1] == core.last());
        lemma_first_where_is(t, non_ascii_space(), n);
        lemma_after_last_where_is(t, non_ascii_space(), m);
        assert(t.subrange(n, m) == core);
    } else {
        lemma_first_where_is(t, non_ascii_space(), t.len() as int);
        lemma_after_last_where_is(t, non_ascii_space(), 0);
        assert(core == Seq::<u8>::empty());
    }
}

/// Bytes are the same up to case exactly if they are equally long and each is, up
/// to the case of an ASCII letter, the same as its counterpart.
pub proof fn law_same_up_to_case(a: &[u8], b: &[u8], r: bool)
    requires
        call_ensures(eq_ignore_ascii_case, (a, b), r),
    ensures
        r == same_letters(a@, b@),
{
    lemma_lowered(a@, b@);
}

/// Lowercase forms agree exactly if bytes are the same up to case.
pub proof fn lemma_lowered(a: Seq<u8>, b: Seq<u8>)
    ensures
        (lowered(a) == lowered(b)) == same_letters(a, b),
{
    if lowered(a) == lowered(b) {
        assert(a.len() == lowered(a).len() && b.len() == lowered(b).len());
        assert forall|i: int| 0 <= i < a.len() implies same_letter(#[trigger] a[i], b[i]) by {
            assert(lowered(a)[i] == lowered(b)[i]);
        }
    }
    if same_letters(a, b) {
        assert forall|i: int| 0 <= i < a.len() implies #[trigger] lowered(a)[i] == lowered(
            b,
        )[i] by {
            assert(same_letter(a[i], b[i]));
        }
        assert(lowered(a) == lowered(b));
    }
}

} // verus!
