//! Colour values of the interface theme.
use vstd::prelude::*;
use crate::text::{chars_of, digit_char, trim_front, trimmed_front, CharClass};

verus! {

/// The colour used when a hex colour cannot be read: Adwaita blue.
pub const FALLBACK_RGB: u32 = 0x3584e4;

/// The value of a hexadecimal digit, if `c` is one.
pub open spec fn hex_digit_value(c: char) -> Option<nat> {
    if '0' <= c && c <= '9' {
        Some((c as nat - '0' as nat) as nat)
    } else if 'a' <= c && c <= 'f' {
        Some((c as nat - 'a' as nat + 10) as nat)
    } else if 'A' <= c && c <= 'F' {
        Some((c as nat - 'A' as nat + 10) as nat)
    } else {
        None
    }
}

/// The value of a non-empty run of hexadecimal digits, if every character
/// is one.
pub open spec fn hex_digits_value(d: Seq<char>) -> Option<nat>
    decreases d.len(),
{
    if d.len() == 0 {
        Some(0)
    } else {
        match (hex_digits_value(d.drop_last()), hex_digit_value(d.last())) {
            (Some(hi), Some(lo)) => Some(hi * 16 + lo),
            _ => None,
        }
    }
}

/// What `u32::from_str_radix(s, 16)` accepts: an optional `+`, then at
/// least one hexadecimal digit, with a value that fits in 32 bits.
pub open spec fn parse_hex_u32(s: Seq<char>) -> Option<u32> {
    let d = if s.len() > 0 && s[0] == '+' {
        s.drop_first()
    } else {
        s
    };
    if d.len() == 0 {
        None
    } else {
        match hex_digits_value(d) {
            Some(v) => if v <= u32::MAX {
                Some(v as u32)
            } else {
                None
            },
            None => None,
        }
    }
}

/// The hex digits of a colour: leading `#`s removed, and a three-digit
/// short form widened by doubling each character.
pub open spec fn colour_digits(hex: Seq<char>) -> Seq<char> {
    let h = trim_front(hex, CharClass::Exactly('#'));
    if h.len() == 3 {
        seq![h[0], h[0], h[1], h[1], h[2], h[2]]
    } else {
        h
    }
}

/// The colour's 24-bit value, or the fallback when its digits cannot be
/// read.
pub open spec fn colour_value(hex: Seq<char>) -> u32 {
    match parse_hex_u32(colour_digits(hex)) {
        Some(n) => n,
        None => FALLBACK_RGB,
    }
}

/// The red, green and blue bytes of a colour value.
pub open spec fn rgb_of(n: u32) -> (u8, u8, u8) {
    (((n / 65536) % 256) as u8, ((n / 256) % 256) as u8, (n % 256) as u8)
}

fn hex_digit(c: char) -> (r: Option<u32>)
    ensures
        match hex_digit_value(c) {
            Some(v) => r == Some(v as u32),
            None => r is None,
        },
{
    if '0' <= c && c <= '9' {
        Some((c as u32) - ('0' as u32))
    } else if 'a' <= c && c <= 'f' {
        Some((c as u32) - ('a' as u32) + 10)
    } else if 'A' <= c && c <= 'F' {
        Some((c as u32) - ('A' as u32) + 10)
    } else {
        None
    }
}

proof fn lemma_hex_digits_value_grows(d: Seq<char>, k: int)
    requires
        0 <= k <= d.len(),
        hex_digits_value(d) is Some,
    ensures
        hex_digits_value(d.take(k)) is Some,
        hex_digits_value(d.take(k))->0 <= hex_digits_value(d)->0,
    decreases d.len(),
{
    if k == d.len() {
        assert(d.take(k) =~= d);
    } else {
        assert(d.drop_last().take(k) =~= d.take(k));
        lemma_hex_digits_value_grows(d.drop_last(), k);
    }
}

/// `u32::from_str_radix(s, 16)`, written out.
pub fn parse_hex(s: &Vec<char>) -> (r: Option<u32>)
    ensures
        r == parse_hex_u32(s@),
{
    let n: usize = s.len();
    let start: usize = if n > 0 && s[0] == '+' {
        1
    } else {
        0
    };
    let ghost d = if s@.len() > 0 && s@[0] == '+' {
        s@.drop_first()
    } else {
        s@
    };
    proof {
        assert(d =~= s@.skip(start as int));
    }
    if start == n {
        return None;
    }
    let mut acc: u64 = 0;
    let mut i: usize = start;
    proof {
        assert(d.take(0) =~= Seq::<char>::empty());
    }
    while i < n
        invariant
            n == s@.len(),
            start <= i <= n,
            d =~= s@.skip(start as int),
            d == (if s@.len() > 0 && s@[0] == '+' {
                s@.drop_first()
            } else {
                s@
            }),
            d.len() > 0,
            hex_digits_value(d.take(i - start)) == Some(acc as nat),
            acc <= u32::MAX,
        decreases n - i,
    {
        let ghost k: int = i - start;
        proof {
            assert(d.take(k + 1).drop_last() =~= d.take(k));
            assert(d.take(k + 1).last() == s@[i as int]);
        }
        match hex_digit(s[i]) {
            None => {
                proof {
                    if hex_digits_value(d) is Some {
                        lemma_hex_digits_value_grows(d, k + 1);
                    }
                }
                return None;
            },
            Some(v) => {
                let next: u64 = acc * 16 + (v as u64);
                if next > 0xffff_ffff {
                    proof {
                        if hex_digits_value(d) is Some {
                            lemma_hex_digits_value_grows(d, k + 1);
                        }
                    }
                    return None;
                }
                acc = next;
            },
        }
        i = i + 1;
    }
    proof {
        assert(d.take(n - start) =~= d);
    }
    Some(acc as u32)
}

/// The red, green and blue bytes of a `#rrggbb` or `#rgb` colour. Leading
/// `#`s are ignored; a colour whose digits cannot be read gives Adwaita
/// blue. (The short form is recognised by its three characters; for any
/// text that can be read as hex digits, that is the same as three bytes.)
pub fn hex_to_rgb(hex: &str) -> (rgb: (u8, u8, u8))
    ensures
        rgb == rgb_of(colour_value(hex@)),
{
    let h = trimmed_front(&chars_of(hex), CharClass::Exactly('#'));
    let digits: Vec<char> = if h.len() == 3 {
        let mut d: Vec<char> = Vec::new();
        d.push(h[0]);
        d.push(h[0]);
        d.push(h[1]);
        d.push(h[1]);
        d.push(h[2]);
        d.push(h[2]);
        d
    } else {
        h
    };
    assert(digits@ =~= colour_digits(hex@));
    let n: u32 = match parse_hex(&digits) {
        Some(v) => v,
        None => FALLBACK_RGB,
    };
    (((n / 65536) % 256) as u8, ((n / 256) % 256) as u8, (n % 256) as u8)
}

/// A three-digit colour names the same colour as its six-digit form with
/// each digit doubled.
pub proof fn law_short_colour_form(a: char, b: char, c: char)
    requires
        a != '#',
    ensures
        colour_value(seq!['#', a, b, c]) == colour_value(seq!['#', a, a, b, b, c, c]),
{
    let s3 = seq!['#', a, b, c];
    let s6 = seq!['#', a, a, b, b, c, c];
    assert(s3.drop_first() =~= seq![a, b, c]);
    assert(s6.drop_first() =~= seq![a, a, b, b, c, c]);
    assert(trim_front(seq![a, b, c], CharClass::Exactly('#')) == seq![a, b, c]);
    assert(trim_front(seq![a, a, b, b, c, c], CharClass::Exactly('#')) == seq![a, a, b, b, c, c]);
    assert(colour_digits(s3) =~= colour_digits(s6));
}

/// The lowercase hexadecimal digit of a value below 16.
pub open spec fn hex_char(d: nat) -> char {
    if d < 10 {
        digit_char(d)
    } else if d == 10 {
        'a'
    } else if d == 11 {
        'b'
    } else if d == 12 {
        'c'
    } else if d == 13 {
        'd'
    } else if d == 14 {
        'e'
    } else {
        'f'
    }
}

/// A byte as two lowercase hexadecimal digits (`{:02x}`).
pub open spec fn byte_hex(b: u8) -> Seq<char> {
    seq![hex_char(b as nat / 16), hex_char(b as nat % 16)]
}

proof fn lemma_hex_char_value(d: nat)
    requires
        d < 16,
    ensures
        hex_digit_value(hex_char(d)) == Some(d),
        hex_char(d) != '#',
        hex_char(d) != '+',
{
}

proof fn lemma_take_step(d: Seq<char>, k: int)
    requires
        0 < k <= d.len(),
    ensures
        d.take(k).len() == k,
        d.take(k).drop_last() == d.take(k - 1),
        d.take(k).last() == d[k - 1],
{
    assert(d.take(k).drop_last() =~= d.take(k - 1));
}

proof fn lemma_six_digits_value(r: u8, g: u8, b: u8)
    ensures
        hex_digits_value(byte_hex(r) + byte_hex(g) + byte_hex(b)) == Some(
            r as nat * 65536 + g as nat * 256 + b as nat,
        ),
{
    let d = byte_hex(r) + byte_hex(g) + byte_hex(b);
    let (h1, l1, h2, l2, h3, l3) = (
        r as nat / 16,
        r as nat % 16,
        g as nat / 16,
        g as nat % 16,
        b as nat / 16,
        b as nat % 16,
    );
    lemma_hex_char_value(h1);
    lemma_hex_char_value(l1);
    lemma_hex_char_value(h2);
    lemma_hex_char_value(l2);
    lemma_hex_char_value(h3);
    lemma_hex_char_value(l3);
    assert(d =~= seq![hex_char(h1), hex_char(l1), hex_char(h2), hex_char(l2), hex_char(h3), hex_char(l3)]);
    assert(d.take(0) =~= Seq::<char>::empty());
    lemma_take_step(d, 1);
    lemma_take_step(d, 2);
    lemma_take_step(d, 3);
    lemma_take_step(d, 4);
    lemma_take_step(d, 5);
    lemma_take_step(d, 6);
    assert(hex_digits_value(d.take(0)) == Some(0nat));
    assert(d[0] == hex_char(h1));
    assert(hex_digits_value(d.take(1)) == Some(h1));
    assert(hex_digits_value(d.take(2)) == Some(h1 * 16 + l1));
    assert(hex_digits_value(d.take(3)) == Some((h1 * 16 + l1) * 16 + h2));
    assert(hex_digits_value(d.take(4)) == Some(((h1 * 16 + l1) * 16 + h2) * 16 + l2));
    assert(hex_digits_value(d.take(5)) == Some((((h1 * 16 + l1) * 16 + h2) * 16 + l2) * 16 + h3));
    assert(hex_digits_value(d.take(6)) == Some(
        ((((h1 * 16 + l1) * 16 + h2) * 16 + l2) * 16 + h3) * 16 + l3,
    ));
    assert(d.take(6) =~= d);
    assert(((((h1 * 16 + l1) * 16 + h2) * 16 + l2) * 16 + h3) * 16 + l3 == r as nat * 65536 + g
        as nat * 256 + b as nat) by (nonlinear_arith)
        requires
            h1 * 16 + l1 == r as nat,
            h2 * 16 + l2 == g as nat,
            h3 * 16 + l3 == b as nat,
    ;
}

/// A colour written as `#rrggbb` (or `rrggbb`) from its three bytes, each
/// as two lowercase hexadecimal digits, reads back as those bytes.
pub proof fn law_colour_round_trip(r: u8, g: u8, b: u8)
    ensures
        rgb_of(colour_value(seq!['#'] + byte_hex(r) + byte_hex(g) + byte_hex(b))) == (r, g, b),
        rgb_of(colour_value(byte_hex(r) + byte_hex(g) + byte_hex(b))) == (r, g, b),
{
    let d = byte_hex(r) + byte_hex(g) + byte_hex(b);
    let v = r as nat * 65536 + g as nat * 256 + b as nat;
    lemma_six_digits_value(r, g, b);
    lemma_hex_char_value(r as nat / 16);
    assert(d[0] == hex_char(r as nat / 16));
    let hd = seq!['#'] + d;
    assert(seq!['#'] + byte_hex(r) + byte_hex(g) + byte_hex(b) =~= hd);
    assert(hd.drop_first() =~= d);
    assert(trim_front(d, CharClass::Exactly('#')) == d);
    assert(trim_front(hd, CharClass::Exactly('#')) == d);
    assert(colour_digits(hd) == d);
    assert(colour_digits(d) == d);
    assert(v <= u32::MAX);
    assert(parse_hex_u32(d) == Some(v as u32));
    assert(v / 65536 == r as nat && (v / 256) % 256 == g as nat && v % 256 == b as nat
        && (v / 65536) % 256 == r as nat) by (nonlinear_arith)
        requires
            v == r as nat * 65536 + g as nat * 256 + b as nat,
            r < 256,
            g < 256,
            b < 256,
    ;
    assert(colour_value(hd) == v as u32);
    assert(colour_value(d) == v as u32);
    assert(rgb_of(v as u32) == (r, g, b));
}

} // verus!
