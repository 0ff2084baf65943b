//! Numbers as text: lowercase hexadecimal, decimal, and the decimal reading
//! that accepts what the standard integer parsers accept.

use vstd::prelude::*;

verus! {

/// The lowercase hexadecimal digit of a value below sixteen.
pub open spec fn hex_digit(d: nat) -> u8 {
    if d < 10 {
        (0x30 + d) as u8
    } else {
        (0x57 + d) as u8
    }
}

/// `n` in lowercase hexadecimal, without leading zeros.
pub open spec fn hex(n: nat) -> Seq<u8>
    decreases n,
{
    if n < 16 {
        seq![hex_digit(n)]
    } else {
        hex(n / 16).push(hex_digit(n % 16))
    }
}

/// The value of a lowercase hexadecimal digit.
pub open spec fn hex_digit_value(b: u8) -> nat {
    if b < 0x57 {
        (b - 0x30) as nat
    } else {
        (b - 0x57) as nat
    }
}

/// The number that a sequence of lowercase hexadecimal digits denotes.
pub open spec fn hex_value(s: Seq<u8>) -> nat
    decreases s.len(),
{
    if s.len() == 0 {
        0
    } else {
        16 * hex_value(s.drop_last()) + hex_digit_value(s.last())
    }
}

/// A number written in hexadecimal is read back as itself.
pub proof fn law_hex_denotes(n: nat)
    ensures
        hex_value(hex(n)) == n,
    decreases n,
{
    if n < 16 {
        assert(hex(n).drop_last() == Seq::<u8>::empty());
        assert(hex_value(hex(n).drop_last()) == 0);
    } else {
        law_hex_denotes(n / 16);
        assert(hex(n).drop_last() == hex(n / 16));
    }
}

/// Two lowercase hexadecimal digits for each byte.
pub open spec fn hex_text(bytes: Seq<u8>) -> Seq<char>
    decreases bytes.len(),
{
    if bytes.len() == 0 {
        Seq::empty()
    } else {
        hex_text(bytes.drop_last()).push(hex_digit(bytes.last() as nat / 16) as char).push(
            hex_digit(bytes.last() as nat % 16) as char,
        )
    }
}

/// `n` in lowercase hexadecimal.
pub fn hex_bytes(n: usize) -> (out: Vec<u8>)
    ensures
        out@ == hex(n as nat),
    decreases n,
{
    let low: u8 = (n % 16) as u8;
    let digit: u8 = if low < 10 {
        0x30 + low
    } else {
        0x57 + low
    };
    if n < 16 {
        let mut out: Vec<u8> = Vec::new();
        out.push(digit);
        assert(out@ == hex(n as nat));
        out
    } else {
        let mut out: Vec<u8> = hex_bytes(n / 16);
        out.push(digit);
        out
    }
}

/// One hexadecimal digit as text.
fn hex_digit_text(d: u8) -> (s: &'static str)
    requires
        d < 16,
    ensures
        s@ == seq![hex_digit(d as nat) as char],
{
    proof {
        reveal_strlit("0");
        reveal_strlit("1");
        reveal_strlit("2");
        reveal_strlit("3");
        reveal_strlit("4");
        reveal_strlit("5");
        reveal_strlit("6");
        reveal_strlit("7");
        reveal_strlit("8");
        reveal_strlit("9");
        reveal_strlit("a");
        reveal_strlit("b");
        reveal_strlit("c");
        reveal_strlit("d");
        reveal_strlit("e");
        reveal_strlit("f");
    }
    let s: &'static str = match d {
        0 => "0",
        1 => "1",
        2 => "2",
        3 => "3",
        4 => "4",
        5 => "5",
        6 => "6",
        7 => "7",
        8 => "8",
        9 => "9",
        10 => "a",
        11 => "b",
        12 => "c",
        13 => "d",
        14 => "e",
        _ => "f",
    };
    assert(s@ == seq![hex_digit(d as nat) as char]);
    s
}

/// Two hexadecimal digits for each byte.
pub fn bytes_to_hex(bytes: &[u8]) -> (out: String)
    ensures
        out@ == hex_text(bytes@),
{
    let mut out: String = String::new();
    let mut i: usize = 0;
    while i < bytes.len()
        invariant
            i <= bytes.len(),
            out@ == hex_text(bytes@.take(i as int)),
        decreases bytes.len() - i,
    {
        let ghost before = out@;
        let b: u8 = bytes[i];
        out.append(hex_digit_text(b / 16));
        out.append(hex_digit_text(b % 16));
        proof {
            let taken = bytes@.take(i as int + 1);
            assert(taken.drop_last() == bytes@.take(i as int));
            assert(taken.last() == b);
            assert(out@ == before.push(hex_digit(b as nat / 16) as char).push(
                hex_digit(b as nat % 16) as char,
            ));
        }
        i += 1;
    }
    assert(bytes@.take(i as int) == bytes@);
    out
}

/// The decimal digit of a value below ten.
pub open spec fn decimal_digit(d: nat) -> char {
    (0x30 + d) as char
}

/// `n` in decimal, without leading zeros.
pub open spec fn decimal(n: nat) -> Seq<char>
    decreases n,
{
    if n < 10 {
        seq![decimal_digit(n)]
    } else {
        decimal(n / 10).push(decimal_digit(n % 10))
    }
}

/// `n` in decimal.
pub fn decimal_text(n: usize) -> (out: String)
    ensures
        out@ == decimal(n as nat),
    decreases n,
{
    let digit = hex_digit_text((n % 10) as u8);
    if n < 10 {
        let out = digit.to_owned();
        assert(out@ == decimal(n as nat));
        out
    } else {
        let mut out: String = decimal_text(n / 10);
        out.append(digit);
        assert(out@ == decimal(n as nat));
        out
    }
}

/// Whether `c` is one of the ten ASCII digits.
pub open spec fn is_decimal_digit(c: char) -> bool {
    '0' <= c && c <= '9'
}

/// The number that a sequence of decimal digits denotes.
pub open spec fn decimal_value(s: Seq<char>) -> nat
    decreases s.len(),
{
    if s.len() == 0 {
        0
    } else {
        10 * decimal_value(s.drop_last()) + (s.last() as nat - 0x30) as nat
    }
}

/// Whether `s` is one or more decimal digits.
pub open spec fn is_decimal(s: Seq<char>) -> bool {
    &&& s.len() > 0
    &&& forall|i: int| 0 <= i < s.len() ==> is_decimal_digit(#[trigger] s[i])
}

/// `s` without a leading plus sign.
pub open spec fn without_plus(s: Seq<char>) -> Seq<char> {
    if s.len() > 0 && s[0] == '+' {
        s.skip(1)
    } else {
        s
    }
}

/// The unsigned number up to `max` that `s` denotes: decimal digits, with
/// leading zeros and one leading plus sign allowed, and nothing else.
pub open spec fn unsigned(s: Seq<char>, max: nat) -> Option<nat> {
    let digits = without_plus(s);
    if is_decimal(digits) && decimal_value(digits) <= max {
        Some(decimal_value(digits))
    } else {
        None
    }
}

/// A prefix of decimal digits denotes no more than the whole.
proof fn lemma_decimal_value_prefix(s: Seq<char>, i: int)
    requires
        0 <= i <= s.len(),
    ensures
        decimal_value(s.take(i)) <= decimal_value(s),
    decreases s.len(),
{
    if i < s.len() {
        lemma_decimal_value_prefix(s.drop_last(), i);
        assert(s.drop_last().take(i) == s.take(i));
    } else {
        assert(s.take(i) == s);
    }
}

/// Reads an unsigned number no larger than `max`.
pub fn parse_unsigned(s: &[char], max: usize) -> (r: Option<usize>)
    ensures
        r matches Some(n) ==> unsigned(s@, max as nat) == Some(n as nat),
        r is None ==> unsigned(s@, max as nat) is None,
{
    let start: usize = if s.len() > 0 && s[0] == '+' {
        1
    } else {
        0
    };
    let ghost digits = without_plus(s@);
    assert(s@.skip(0) == s@);
    assert(digits == s@.skip(start as int));
    if start == s.len() {
        return None;
    }
    let mut n: usize = 0;
    let mut i: usize = start;
    assert(digits.take(0) == Seq::<char>::empty());
    while i < s.len()
        invariant
            start <= i <= s.len(),
            digits == s@.skip(start as int),
            digits == without_plus(s@),
            forall|j: int| 0 <= j < i - start ==> is_decimal_digit(#[trigger] digits[j]),
            n == decimal_value(digits.take(i - start)),
            n <= max,
        decreases s.len() - i,
    {
        let c: char = s[i];
        assert(digits[i - start] == c);
        if c < '0' || c > '9' {
            assert(!is_decimal_digit(digits[i - start]));
            return None;
        }
        let d: usize = (c as u32 - 0x30) as usize;
        proof {
            let next = digits.take(i - start + 1);
            assert(next.drop_last() == digits.take(i - start));
            assert(next.last() == c);
            assert(decimal_value(next) == 10 * n + d);
            lemma_decimal_value_prefix(digits, i - start + 1);
        }
        if n > max / 10 || (n == max / 10 && d > max % 10) {
            return None;
        }
        n = n * 10 + d;
        i += 1;
    }
    assert(digits.take(i - start) == digits);
    Some(n)
}

/// A number written in decimal is read back as itself.
pub proof fn law_decimal_denotes(n: nat)
    ensures
        is_decimal(decimal(n)),
        decimal_value(decimal(n)) == n,
        forall|max: nat| n <= max ==> #[trigger] unsigned(decimal(n), max) == Some(n),
    decreases n,
{
    let s = decimal(n);
    if n < 10 {
        assert(s.drop_last() == Seq::<char>::empty());
        assert(decimal_value(s.drop_last()) == 0);
    } else {
        law_decimal_denotes(n / 10);
        assert(s.drop_last() == decimal(n / 10));
    }
    assert(is_decimal_digit(s[0]));
    assert(without_plus(s) == s);
}

} // verus!
