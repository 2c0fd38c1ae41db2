//! Hexadecimal color notation (`#rrggbb`).

use vstd::prelude::*;
use crate::lexer::byte_pos;
use crate::text::{chars_of, is_hex_digit};

verus! {

/// Value of a hexadecimal digit.
pub open spec fn hex_value(c: char) -> int {
    if '0' <= c && c <= '9' {
        c as int - '0' as int
    } else if 'a' <= c && c <= 'f' {
        c as int - 'a' as int + 10
    } else {
        c as int - 'A' as int + 10
    }
}

/// What `u8::from_str_radix(s, 16)` gives for a two-character `s = [a, b]`:
/// two hexadecimal digits, or a `+` sign and one digit.
pub open spec fn hex_pair(a: char, b: char) -> Option<u8> {
    if a == '+' && is_hex_digit(b) {
        Some(hex_value(b) as u8)
    } else if is_hex_digit(a) && is_hex_digit(b) {
        Some((16 * hex_value(a) + hex_value(b)) as u8)
    } else {
        None
    }
}

/// `s` with every leading `c` removed (what `trim_start_matches(c)` returns).
pub open spec fn strip_leading(s: Seq<char>, c: char) -> Seq<char>
    decreases s.len(),
{
    if s.len() > 0 && s[0] == c {
        strip_leading(s.drop_first(), c)
    } else {
        s
    }
}

/// Byte offset `b` falls between two characters of the UTF-8 encoding of `s`.
pub open spec fn char_boundary(s: Seq<char>, b: nat) -> bool {
    exists|i: int| 0 <= i <= s.len() && byte_pos(s, i) == b
}

/// Byte slicing at every second byte of `s`, up to `n` bytes, stays on
/// character boundaries whenever `s` is `n` bytes long.
pub open spec fn pairs_slice_cleanly(s: Seq<char>, n: nat) -> bool {
    byte_pos(s, s.len() as int) == n ==> forall|b: nat|
        0 < b < n && b % 2 == 0 ==> #[trigger] char_boundary(s, b)
}

/// The three bytes of a `#rrggbb` color; leading `#`s are optional.
pub open spec fn hex_rgb(s: Seq<char>) -> Option<(u8, u8, u8)> {
    let h = strip_leading(s, '#');
    if h.len() == 6 {
        match (hex_pair(h[0], h[1]), hex_pair(h[2], h[3]), hex_pair(h[4], h[5])) {
            (Some(r), Some(g), Some(b)) => Some((r, g, b)),
            _ => None,
        }
    } else {
        None
    }
}

/// The value of a hexadecimal digit, if `c` is one.
pub fn hex_digit_value(c: char) -> (r: Option<u8>)
    ensures
        r == (if is_hex_digit(c) {
            Some(hex_value(c) as u8)
        } else {
            None::<u8>
        }),
{
    if '0' <= c && c <= '9' {
        let v: u32 = (c as u32) - ('0' as u32);
        Some(v as u8)
    } else if 'a' <= c && c <= 'f' {
        let v: u32 = (c as u32) - ('a' as u32) + 10;
        Some(v as u8)
    } else if 'A' <= c && c <= 'F' {
        let v: u32 = (c as u32) - ('A' as u32) + 10;
        Some(v as u8)
    } else {
        None
    }
}

/// Parses two characters as a hexadecimal byte (see [`hex_pair`]).
pub fn parse_hex_pair(a: char, b: char) -> (r: Option<u8>)
    ensures
        r == hex_pair(a, b),
{
    let lo = match hex_digit_value(b) {
        Some(v) => v,
        None => {
            return None;
        },
    };
    if a == '+' {
        return Some(lo);
    }
    match hex_digit_value(a) {
        Some(hi) => {
            let v: u32 = 16 * (hi as u32) + (lo as u32);
            Some(v as u8)
        },
        None => None,
    }
}

/// Index of the first character of `v` that is not `c`.
pub fn skip_leading(v: &Vec<char>, c: char) -> (i: usize)
    ensures
        i <= v@.len(),
        v@.skip(i as int) == strip_leading(v@, c),
{
    let mut i: usize = 0;
    assert(v@.skip(0) =~= v@);
    while i < v.len() && v[i] == c
        invariant
            i <= v@.len(),
            strip_leading(v@.skip(i as int), c) == strip_leading(v@, c),
        decreases v.len() - i,
    {
        assert(v@.skip(i as int).drop_first() =~= v@.skip(i + 1));
        i = i + 1;
    }
    i
}

/// Parse a hex color (`#rrggbb`, the `#` optional) into its RGB bytes.
pub fn parse_hex_color(hex: &str) -> (r: Option<[u8; 3]>)
    requires
        pairs_slice_cleanly(strip_leading(hex@, '#'), 6),
    ensures
        match hex_rgb(hex@) {
            Some((red, green, blue)) => r matches Some(a) && a@ == seq![red, green, blue],
            None => r is None,
        },
{
    let v = chars_of(hex);
    let i = skip_leading(&v, '#');
    if v.len() - i != 6 {
        return None;
    }
    let ghost h = v@.skip(i as int);
    assert(h[0] == v@[i as int] && h[1] == v@[i + 1] && h[2] == v@[i + 2]);
    assert(h[3] == v@[i + 3] && h[4] == v@[i + 4] && h[5] == v@[i + 5]);
    let red = match parse_hex_pair(v[i], v[i + 1]) {
        Some(x) => x,
        None => {
            return None;
        },
    };
    let green = match parse_hex_pair(v[i + 2], v[i + 3]) {
        Some(x) => x,
        None => {
            return None;
        },
    };
    let blue = match parse_hex_pair(v[i + 4], v[i + 5]) {
        Some(x) => x,
        None => {
            return None;
        },
    };
    let a: [u8; 3] = [red, green, blue];
    assert(a@ =~= seq![red, green, blue]);
    Some(a)
}

} // verus!
