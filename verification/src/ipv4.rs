//! IPv4 addresses as 32-bit values, and their dotted-decimal notation.
//!
//! An address is a `u32` whose most significant byte is the first octet.
//! Its text is the four octets in decimal, without leading zeros, separated
//! by dots. No other text denotes an address.

use vstd::arithmetic::div_mod::lemma_fundamental_div_mod_converse;
use vstd::prelude::*;

verus! {

/// Whether `c` is one of the decimal digits `0` to `9`.
pub open spec fn is_digit(c: char) -> bool {
    48 <= c as u32 <= 57
}

/// The character of the decimal digit `d`.
pub open spec fn digit(d: int) -> char {
    (48 + d) as u8 as char
}

/// The octet of `ip` at `index`, counted from the left and from zero.
pub open spec fn octet(ip: u32, index: int) -> int {
    if index == 0 {
        ip as int / 0x100_0000
    } else if index == 1 {
        ip as int / 0x1_0000 % 256
    } else if index == 2 {
        ip as int / 0x100 % 256
    } else {
        ip as int % 256
    }
}

/// The address made of four octets, the first being the most significant.
pub open spec fn from_octets(a: int, b: int, c: int, d: int) -> int {
    a * 0x100_0000 + b * 0x1_0000 + c * 0x100 + d
}

/// How many digits the decimal notation of the octet `n` has.
pub open spec fn octet_len(n: int) -> int {
    if n < 10 {
        1
    } else if n < 100 {
        2
    } else {
        3
    }
}

/// The decimal notation of the octet `n`, without leading zeros.
pub open spec fn octet_text(n: int) -> Seq<char> {
    if n < 10 {
        seq![digit(n)]
    } else if n < 100 {
        seq![digit(n / 10), digit(n % 10)]
    } else {
        seq![digit(n / 100), digit(n / 10 % 10), digit(n % 10)]
    }
}

/// The dotted-decimal notation of `ip`.
pub open spec fn ipv4_text(ip: u32) -> Seq<char> {
    octet_text(octet(ip, 0)) + seq!['.'] + octet_text(octet(ip, 1)) + seq!['.'] + octet_text(
        octet(ip, 2),
    ) + seq!['.'] + octet_text(octet(ip, 3))
}

/// The address that `text` denotes, if it denotes one.
pub open spec fn ipv4_value(text: Seq<char>) -> Option<u32> {
    if exists|ip: u32| #[trigger] ipv4_text(ip) == text {
        Some(choose|ip: u32| #[trigger] ipv4_text(ip) == text)
    } else {
        None
    }
}

/// An octet's notation starts at `pos` in `s`, ends in front of `next`, and
/// no digit follows it.
pub open spec fn octet_at(s: Seq<char>, pos: int, n: int, next: int) -> bool {
    &&& 0 <= n < 256
    &&& 0 <= pos < next <= s.len()
    &&& s.subrange(pos, next) == octet_text(n)
    &&& (next == s.len() || !is_digit(s[next]))
}

/// The notation of an octet consists of `octet_len` digits, the first of
/// which is zero only where the octet is zero, and gives the octet back.
pub proof fn lemma_octet_text(n: int)
    requires
        0 <= n < 256,
    ensures
        octet_text(n).len() == octet_len(n),
        forall|i: int| 0 <= i < octet_len(n) ==> is_digit(#[trigger] octet_text(n)[i]),
        octet_text(n)[0] == digit(0) <==> n == 0,
        octet_len(n) == 1 ==> n == octet_text(n)[0] as u32 - 48,
        octet_len(n) == 2 ==> n == (octet_text(n)[0] as u32 - 48) * 10 + (octet_text(n)[1] as u32
            - 48),
        octet_len(n) == 3 ==> n == (octet_text(n)[0] as u32 - 48) * 100 + (octet_text(n)[1] as u32
            - 48) * 10 + (octet_text(n)[2] as u32 - 48),
{
}

/// An address is made of its four octets.
pub proof fn lemma_octets(ip: u32)
    ensures
        0 <= octet(ip, 0) < 256,
        0 <= octet(ip, 1) < 256,
        0 <= octet(ip, 2) < 256,
        0 <= octet(ip, 3) < 256,
        ip == from_octets(octet(ip, 0), octet(ip, 1), octet(ip, 2), octet(ip, 3)),
{
}

/// Four octets make an address that has those octets.
pub proof fn lemma_from_octets(a: int, b: int, c: int, d: int)
    requires
        0 <= a < 256,
        0 <= b < 256,
        0 <= c < 256,
        0 <= d < 256,
    ensures
        0 <= from_octets(a, b, c, d) <= u32::MAX,
        octet(from_octets(a, b, c, d) as u32, 0) == a,
        octet(from_octets(a, b, c, d) as u32, 1) == b,
        octet(from_octets(a, b, c, d) as u32, 2) == c,
        octet(from_octets(a, b, c, d) as u32, 3) == d,
{
    let x = from_octets(a, b, c, d);
    lemma_fundamental_div_mod_converse(x, 0x100_0000, a, b * 0x1_0000 + c * 0x100 + d);
    lemma_fundamental_div_mod_converse(x, 0x1_0000, a * 0x100 + b, c * 0x100 + d);
    lemma_fundamental_div_mod_converse(a * 0x100 + b, 0x100, a, b);
    lemma_fundamental_div_mod_converse(x, 0x100, a * 0x1_0000 + b * 0x100 + c, d);
    lemma_fundamental_div_mod_converse(a * 0x1_0000 + b * 0x100 + c, 0x100, a * 0x100 + b, c);
}

/// Where the octets and the dots of an address's notation stand.
pub proof fn lemma_ipv4_text_shape(ip: u32)
    ensures
        ({
            let t = ipv4_text(ip);
            let first_end = octet_len(octet(ip, 0));
            let second_end = first_end + 1 + octet_len(octet(ip, 1));
            let third_end = second_end + 1 + octet_len(octet(ip, 2));
            let fourth_end = third_end + 1 + octet_len(octet(ip, 3));
            &&& t.len() == fourth_end
            &&& t.subrange(0, first_end) == octet_text(octet(ip, 0))
            &&& t[first_end] == '.'
            &&& t.subrange(first_end + 1, second_end) == octet_text(octet(ip, 1))
            &&& t[second_end] == '.'
            &&& t.subrange(second_end + 1, third_end) == octet_text(octet(ip, 2))
            &&& t[third_end] == '.'
            &&& t.subrange(third_end + 1, fourth_end) == octet_text(octet(ip, 3))
        }),
{
    lemma_octets(ip);
    lemma_octet_text(octet(ip, 0));
    lemma_octet_text(octet(ip, 1));
    lemma_octet_text(octet(ip, 2));
    lemma_octet_text(octet(ip, 3));
}

/// A text with four octets and three dots in the right places is the
/// notation of the address made of those octets.
pub proof fn lemma_ipv4_text_assemble(s: Seq<char>, a: int, b: int, c: int, d: int)
    requires
        0 <= a < 256,
        0 <= b < 256,
        0 <= c < 256,
        0 <= d < 256,
        s == octet_text(a) + seq!['.'] + octet_text(b) + seq!['.'] + octet_text(c) + seq!['.']
            + octet_text(d),
    ensures
        s == ipv4_text(from_octets(a, b, c, d) as u32),
{
    lemma_from_octets(a, b, c, d);
}

/// What the characters of `s` are where an octet's notation starts at `pos`.
proof fn lemma_octet_at(s: Seq<char>, pos: int, n: int, next: int)
    requires
        octet_at(s, pos, n, next),
    ensures
        next == pos + octet_len(n),
        is_digit(s[pos]),
        s[pos] as u32 == 48 <==> n == 0,
        octet_len(n) == 1 ==> n == s[pos] as u32 - 48,
        octet_len(n) >= 2 ==> is_digit(s[pos + 1]),
        octet_len(n) == 2 ==> n == (s[pos] as u32 - 48) * 10 + (s[pos + 1] as u32 - 48),
        octet_len(n) == 3 ==> is_digit(s[pos + 2]),
        octet_len(n) == 3 ==> n == (s[pos] as u32 - 48) * 100 + (s[pos + 1] as u32 - 48) * 10 + (
        s[pos + 2] as u32 - 48),
{
    lemma_octet_text(n);
    let t = s.subrange(pos, next);
    assert(t.len() == next - pos);
    assert(t[0] == s[pos]);
    if octet_len(n) >= 2 {
        assert(t[1] == s[pos + 1]);
    }
    if octet_len(n) == 3 {
        assert(t[2] == s[pos + 2]);
    }
}

/// The value of `c` as a decimal digit.
fn digit_value(c: char) -> (d: Option<u8>)
    ensures
        d is Some <==> is_digit(c),
        d matches Some(v) ==> v < 10 && v == c as u32 - 48 && c == digit(v as int),
{
    let u: u32 = c as u32;
    if 48 <= u && u <= 57 {
        Some((u - 48) as u8)
    } else {
        None
    }
}

/// Reads the octet whose notation starts at `pos`, and says where it ends.
fn read_octet(text: &[char], pos: usize) -> (r: Option<(u8, usize)>)
    requires
        pos <= text@.len(),
    ensures
        r matches Some((n, next)) ==> pos < next <= text@.len() && text@.subrange(
            pos as int,
            next as int,
        ) == octet_text(n as int),
        forall|n: int, next: int| #[trigger]
            octet_at(text@, pos as int, n, next) ==> r == Some((n as u8, next as usize)),
{
    let len = text.len();
    if pos >= len {
        return None;
    }
    let d0 = match digit_value(text[pos]) {
        Some(d) => d,
        None => {
            assert forall|n: int, next: int| #[trigger]
                octet_at(text@, pos as int, n, next) implies false by {
                lemma_octet_at(text@, pos as int, n, next);
            }
            return None;
        },
    };
    if d0 == 0 || pos + 1 >= len {
        assert forall|n: int, next: int| #[trigger]
            octet_at(text@, pos as int, n, next) implies n == d0 && next == pos + 1 by {
            lemma_octet_at(text@, pos as int, n, next);
        }
        assert(text@.subrange(pos as int, pos + 1) == octet_text(d0 as int));
        return Some((d0, pos + 1));
    }
    let d1 = match digit_value(text[pos + 1]) {
        Some(d) => d,
        None => {
            assert forall|n: int, next: int| #[trigger]
                octet_at(text@, pos as int, n, next) implies n == d0 && next == pos + 1 by {
                lemma_octet_at(text@, pos as int, n, next);
            }
            assert(text@.subrange(pos as int, pos + 1) == octet_text(d0 as int));
            return Some((d0, pos + 1));
        },
    };
    let two: u8 = d0 * 10 + d1;
    if pos + 2 >= len {
        assert forall|n: int, next: int| #[trigger]
            octet_at(text@, pos as int, n, next) implies n == two && next == pos + 2 by {
            lemma_octet_at(text@, pos as int, n, next);
        }
        assert(text@.subrange(pos as int, pos + 2) == octet_text(two as int));
        return Some((two, pos + 2));
    }
    let d2 = match digit_value(text[pos + 2]) {
        Some(d) => d,
        None => {
            assert forall|n: int, next: int| #[trigger]
                octet_at(text@, pos as int, n, next) implies n == two && next == pos + 2 by {
                lemma_octet_at(text@, pos as int, n, next);
            }
            assert(text@.subrange(pos as int, pos + 2) == octet_text(two as int));
            return Some((two, pos + 2));
        },
    };
    let three: u16 = two as u16 * 10 + d2 as u16;
    if three > 255 {
        assert forall|n: int, next: int| #[trigger]
            octet_at(text@, pos as int, n, next) implies false by {
            lemma_octet_at(text@, pos as int, n, next);
        }
        return None;
    }
    assert forall|n: int, next: int| #[trigger]
        octet_at(text@, pos as int, n, next) implies n == three && next == pos + 3 by {
        lemma_octet_at(text@, pos as int, n, next);
    }
    assert(text@.subrange(pos as int, pos + 3) == octet_text(three as int));
    Some((three as u8, pos + 3))
}

/// Where the notation of the octet at `index` starts in the notation of
/// `ip`.
pub open spec fn octet_start(ip: u32, index: int) -> int {
    if index <= 0 {
        0
    } else if index == 1 {
        octet_len(octet(ip, 0)) + 1
    } else if index == 2 {
        octet_len(octet(ip, 0)) + octet_len(octet(ip, 1)) + 2
    } else {
        octet_len(octet(ip, 0)) + octet_len(octet(ip, 1)) + octet_len(octet(ip, 2)) + 3
    }
}

/// In the notation of an address each octet stands at its place, a dot
/// behind each but the last, which ends the text.
proof fn lemma_octet_positions(ip: u32, index: int)
    requires
        0 <= index <= 3,
    ensures
        octet_at(
            ipv4_text(ip),
            octet_start(ip, index),
            octet(ip, index),
            octet_start(ip, index) + octet_len(octet(ip, index)),
        ),
        index < 3 ==> ipv4_text(ip)[octet_start(ip, index) + octet_len(octet(ip, index))] == '.',
        index < 3 ==> octet_start(ip, index + 1) == octet_start(ip, index) + octet_len(
            octet(ip, index),
        ) + 1,
        index == 3 ==> ipv4_text(ip).len() == octet_start(ip, index) + octet_len(octet(ip, index)),
{
    lemma_octets(ip);
    lemma_ipv4_text_shape(ip);
}

/// A text in which four octets stand with a dot behind each but the last,
/// and nothing else, is the notation of the address made of those octets.
proof fn lemma_ipv4_text_join(
    s: Seq<char>,
    a: int,
    b: int,
    c: int,
    d: int,
    first_end: int,
    second_end: int,
    third_end: int,
)
    requires
        0 <= a < 256,
        0 <= b < 256,
        0 <= c < 256,
        0 <= d < 256,
        0 < first_end < second_end < third_end < s.len(),
        s.subrange(0, first_end) == octet_text(a),
        s[first_end] == '.',
        s.subrange(first_end + 1, second_end) == octet_text(b),
        s[second_end] == '.',
        s.subrange(second_end + 1, third_end) == octet_text(c),
        s[third_end] == '.',
        s.subrange(third_end + 1, s.len() as int) == octet_text(d),
    ensures
        s == ipv4_text(from_octets(a, b, c, d) as u32),
{
    lemma_octet_text(a);
    lemma_octet_text(b);
    lemma_octet_text(c);
    lemma_octet_text(d);
    let joined = octet_text(a) + seq!['.'] + octet_text(b) + seq!['.'] + octet_text(c) + seq!['.']
        + octet_text(d);
    assert(joined.len() == s.len());
    assert forall|i: int| 0 <= i < s.len() implies s[i] == joined[i] by {
        if i < first_end {
            assert(s.subrange(0, first_end)[i] == s[i]);
        } else if i == first_end {
        } else if i < second_end {
            assert(s.subrange(first_end + 1, second_end)[i - first_end - 1] == s[i]);
        } else if i == second_end {
        } else if i < third_end {
            assert(s.subrange(second_end + 1, third_end)[i - second_end - 1] == s[i]);
        } else if i == third_end {
        } else {
            assert(s.subrange(third_end + 1, s.len() as int)[i - third_end - 1] == s[i]);
        }
    }
    assert(s == joined);
    lemma_ipv4_text_assemble(s, a, b, c, d);
}

/// The address that `text` denotes in dotted-decimal notation, if it
/// denotes one: four octets from 0 to 255 in decimal, without leading zeros
/// and with a dot between two of them.
pub fn parse_ipv4(text: &[char]) -> (r: Option<u32>)
    ensures
        r == ipv4_value(text@),
        r matches Some(ip) ==> ipv4_text(ip) == text@,
        r is None ==> forall|ip: u32| #[trigger] ipv4_text(ip) != text@,
{
    let len = text.len();
    let ghost s = text@;

    let first = read_octet(text, 0);
    assert forall|ip: u32| #[trigger] ipv4_text(ip) == s implies first == Some(
        (octet(ip, 0) as u8, (octet_start(ip, 1) - 1) as usize),
    ) by {
        lemma_octet_positions(ip, 0);
    }
    let (a, first_end) = match first {
        Some(found) => found,
        None => {
            return None;
        },
    };
    if first_end >= len || text[first_end] != '.' {
        assert forall|ip: u32| #[trigger] ipv4_text(ip) == s implies false by {
            lemma_octet_positions(ip, 0);
            lemma_octet_positions(ip, 1);
        }
        return None;
    }
    let second = read_octet(text, first_end + 1);
    assert forall|ip: u32| #[trigger] ipv4_text(ip) == s implies second == Some(
        (octet(ip, 1) as u8, (octet_start(ip, 2) - 1) as usize),
    ) by {
        lemma_octet_positions(ip, 0);
        lemma_octet_positions(ip, 1);
    }
    let (b, second_end) = match second {
        Some(found) => found,
        None => {
            return None;
        },
    };
    if second_end >= len || text[second_end] != '.' {
        assert forall|ip: u32| #[trigger] ipv4_text(ip) == s implies false by {
            lemma_octet_positions(ip, 1);
            lemma_octet_positions(ip, 2);
        }
        return None;
    }
    let third = read_octet(text, second_end + 1);
    assert forall|ip: u32| #[trigger] ipv4_text(ip) == s implies third == Some(
        (octet(ip, 2) as u8, (octet_start(ip, 3) - 1) as usize),
    ) by {
        lemma_octet_positions(ip, 1);
        lemma_octet_positions(ip, 2);
    }
    let (c, third_end) = match third {
        Some(found) => found,
        None => {
            return None;
        },
    };
    if third_end >= len || text[third_end] != '.' {
        assert forall|ip: u32| #[trigger] ipv4_text(ip) == s implies false by {
            lemma_octet_positions(ip, 2);
            lemma_octet_positions(ip, 3);
        }
        return None;
    }
    let fourth = read_octet(text, third_end + 1);
    assert forall|ip: u32| #[trigger] ipv4_text(ip) == s implies fourth == Some(
        (octet(ip, 3) as u8, s.len() as usize),
    ) by {
        lemma_octet_positions(ip, 2);
        lemma_octet_positions(ip, 3);
    }
    let (d, fourth_end) = match fourth {
        Some(found) => found,
        None => {
            return None;
        },
    };
    if fourth_end != len {
        return None;
    }
    let ip: u32 = a as u32 * 0x100_0000 + b as u32 * 0x1_0000 + c as u32 * 0x100 + d as u32;
    proof {
        lemma_ipv4_text_join(
            s,
            a as int,
            b as int,
            c as int,
            d as int,
            first_end as int,
            second_end as int,
            third_end as int,
        );
        assert(ipv4_text(ip) == s);
        let chosen = choose|other: u32| #[trigger] ipv4_text(other) == s;
        lemma_octets(chosen);
    }
    Some(ip)
}

/// The character of the decimal digit `d`.
fn digit_char(d: u8) -> (c: char)
    requires
        d < 10,
    ensures
        c == digit(d as int),
{
    (48u8 + d) as char
}

/// Appends the decimal notation of the octet `n` to `text`.
fn push_octet(text: &mut String, n: u8)
    ensures
        final(text)@ == old(text)@ + octet_text(n as int),
{
    if n >= 100 {
        text.push(digit_char(n / 100));
    }
    if n >= 10 {
        text.push(digit_char(n / 10 % 10));
    }
    text.push(digit_char(n % 10));
}

/// The dotted-decimal notation of `ip`.
pub fn format_ipv4(ip: u32) -> (text: String)
    ensures
        text@ == ipv4_text(ip),
{
    let mut text = String::new();
    push_octet(&mut text, (ip / 0x100_0000) as u8);
    text.push('.');
    push_octet(&mut text, (ip / 0x1_0000 % 256) as u8);
    text.push('.');
    push_octet(&mut text, (ip / 0x100 % 256) as u8);
    text.push('.');
    push_octet(&mut text, (ip % 256) as u8);
    text
}

/// The notation of an address holds digits and dots, and nothing else.
pub proof fn lemma_ipv4_text_chars(ip: u32, i: int)
    requires
        0 <= i < ipv4_text(ip).len(),
    ensures
        is_digit(ipv4_text(ip)[i]) || ipv4_text(ip)[i] == '.',
{
    lemma_octets(ip);
    lemma_octet_text(octet(ip, 0));
    lemma_octet_text(octet(ip, 1));
    lemma_octet_text(octet(ip, 2));
    lemma_octet_text(octet(ip, 3));
}

/// Two addresses with the same notation are the same address.
pub proof fn lemma_ipv4_text_injective(a: u32, b: u32)
    requires
        ipv4_text(a) == ipv4_text(b),
    ensures
        a == b,
{
    let t = ipv4_text(a);
    lemma_octets(a);
    lemma_octets(b);
    lemma_same_octet_at(t, a, b, 0);
    lemma_same_octet_at(t, a, b, 1);
    lemma_same_octet_at(t, a, b, 2);
    lemma_same_octet_at(t, a, b, 3);
}

/// Two addresses with the same notation, whose octets at `index` start at
/// the same place, have the same octet there, and their next octets start
/// at the same place.
proof fn lemma_same_octet_at(t: Seq<char>, a: u32, b: u32, index: int)
    requires
        0 <= index <= 3,
        t == ipv4_text(a),
        t == ipv4_text(b),
        octet_start(a, index) == octet_start(b, index),
    ensures
        octet(a, index) == octet(b, index),
        index < 3 ==> octet_start(a, index + 1) == octet_start(b, index + 1),
{
    lemma_octet_positions(a, index);
    lemma_octet_positions(b, index);
    let start = octet_start(a, index);
    lemma_same_octet(
        t,
        start,
        octet(a, index),
        start + octet_len(octet(a, index)),
        octet(b, index),
        start + octet_len(octet(b, index)),
    );
}

/// At one place in a text stands the notation of at most one octet.
proof fn lemma_same_octet(s: Seq<char>, pos: int, m: int, m_next: int, n: int, n_next: int)
    requires
        octet_at(s, pos, m, m_next),
        octet_at(s, pos, n, n_next),
    ensures
        m == n,
        m_next == n_next,
{
    lemma_octet_at(s, pos, m, m_next);
    lemma_octet_at(s, pos, n, n_next);
}

/// `parse_ipv4` undoes `format_ipv4`: the notation of an address denotes
/// that address, and only a notation of an address denotes anything.
pub proof fn lemma_ipv4_round_trip(ip: u32, text: Seq<char>)
    ensures
        ipv4_value(ipv4_text(ip)) == Some(ip),
        ipv4_value(text) matches Some(found) ==> ipv4_text(found) == text,
{
    let chosen = choose|other: u32| #[trigger] ipv4_text(other) == ipv4_text(ip);
    lemma_ipv4_text_injective(chosen, ip);
}

} // verus!
