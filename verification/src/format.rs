//! Number and URL text formatting: decimals, clock times, fixed-point
//! coordinates, UTF-8 bytes and percent-encoding.

use vstd::prelude::*;
use crate::text::push_char;

verus! {

/// The ASCII digit for `d < 10`.
pub open spec fn digit(d: nat) -> char {
    (('0' as u32) + d) as char
}

/// The decimal text of `n`, without leading zeros.
pub open spec fn dec(n: nat) -> Seq<char>
    decreases n,
{
    if n < 10 {
        seq![digit(n)]
    } else {
        dec(n / 10) + seq![digit(n % 10)]
    }
}

/// `n` in at least two decimal digits (`{:02}`).
pub open spec fn two_digits(n: nat) -> Seq<char> {
    if n < 10 {
        seq!['0', digit(n)]
    } else {
        dec(n)
    }
}

fn digit_char(d: u64) -> (c: char)
    requires
        d < 10,
    ensures
        c == digit(d as nat),
{
    let b = (48 + d) as u8;
    b as char
}

/// Append the decimal text of `n`.
pub fn push_decimal(s: &mut String, n: u64)
    ensures
        final(s)@ == old(s)@ + dec(n as nat),
    decreases n,
{
    if n >= 10 {
        push_decimal(s, n / 10);
    }
    push_char(s, digit_char(n % 10));
}

/// Append `n` in at least two digits.
pub fn push_two_digits(s: &mut String, n: u64)
    ensures
        final(s)@ == old(s)@ + two_digits(n as nat),
{
    if n < 10 {
        push_char(s, '0');
    }
    push_decimal(s, n);
}

/// A time of day: `minutes` after midnight as `H:MM` on a 24-hour clock.
pub open spec fn clock_text(minutes: nat) -> Seq<char> {
    dec((minutes / 60) % 24) + seq![':'] + two_digits(minutes % 60)
}

/// `n` in exactly five digits (`n < 100000`), zero-padded.
pub open spec fn five_digits(n: nat) -> Seq<char> {
    seq![
        digit(n / 10000),
        digit((n / 1000) % 10),
        digit((n / 100) % 10),
        digit((n / 10) % 10),
        digit(n % 10),
    ]
}

/// The magnitude of an integer.
pub open spec fn magnitude(v: int) -> nat {
    if v < 0 {
        (-v) as nat
    } else {
        v as nat
    }
}

/// A coordinate held in hundred-thousandths of a degree, as decimal degrees with
/// five fraction digits (`{:.5}`): `3499490` is `34.99490`, `-939660` is `-9.39660`.
pub open spec fn coord_text(v: int) -> Seq<char> {
    let m = magnitude(v);
    (if v < 0 {
        seq!['-']
    } else {
        Seq::empty()
    }) + dec(m / 100000) + seq!['.'] + five_digits(m % 100000)
}

/// Append a coordinate given in hundred-thousandths of a degree.
pub fn push_coord(s: &mut String, v: i64)
    ensures
        final(s)@ == old(s)@ + coord_text(v as int),
{
    let ghost s0 = s@;
    let m: u64 = if v < 0 {
        if v == i64::MIN {
            9223372036854775808u64
        } else {
            (-v) as u64
        }
    } else {
        v as u64
    };
    assert(m == magnitude(v as int));
    if v < 0 {
        push_char(s, '-');
    }
    let ghost s1 = s@;
    push_decimal(s, m / 100000);
    push_char(s, '.');
    let f = m % 100000;
    push_char(s, digit_char(f / 10000));
    push_char(s, digit_char((f / 1000) % 10));
    push_char(s, digit_char((f / 100) % 10));
    push_char(s, digit_char((f / 10) % 10));
    push_char(s, digit_char(f % 10));
    assert(s@ == s1 + dec((m / 100000) as nat) + seq!['.'] + five_digits(f as nat));
}

/// The UTF-8 encoding of one character.
pub open spec fn utf8_bytes(c: char) -> Seq<u8> {
    let u = c as u32;
    if u < 0x80 {
        seq![u as u8]
    } else if u < 0x800 {
        seq![(0xC0 + u / 64) as u8, (0x80 + u % 64) as u8]
    } else if u < 0x10000 {
        seq![(0xE0 + u / 4096) as u8, (0x80 + (u / 64) % 64) as u8, (0x80 + u % 64) as u8]
    } else {
        seq![
            (0xF0 + u / 262144) as u8,
            (0x80 + (u / 4096) % 64) as u8,
            (0x80 + (u / 64) % 64) as u8,
            (0x80 + u % 64) as u8,
        ]
    }
}

/// A byte that a URL carries as itself: `A-Z a-z 0-9 - _ . ~`.
pub open spec fn is_unreserved(b: u8) -> bool {
    (0x41 <= b && b <= 0x5A) || (0x61 <= b && b <= 0x7A) || (0x30 <= b && b <= 0x39) || b == 0x2D
        || b == 0x5F || b == 0x2E || b == 0x7E
}

/// The upper-case hexadecimal digit for `d < 16`.
pub open spec fn hex_digit(d: nat) -> char {
    if d < 10 {
        digit(d)
    } else {
        (('A' as u32) + (d - 10)) as char
    }
}

/// One byte, percent-encoded: itself when unreserved, else `%XX`.
pub open spec fn pct_byte(b: u8) -> Seq<char> {
    if is_unreserved(b) {
        seq![b as char]
    } else {
        seq!['%', hex_digit((b / 16) as nat), hex_digit((b % 16) as nat)]
    }
}

/// Bytes, percent-encoded one by one.
pub open spec fn pct_bytes(bs: Seq<u8>) -> Seq<char>
    decreases bs.len(),
{
    if bs.len() == 0 {
        Seq::empty()
    } else {
        pct_bytes(bs.drop_last()) + pct_byte(bs.last())
    }
}

/// A text percent-encoded for a URL query value, byte by byte of its UTF-8 form.
pub open spec fn pct_text(s: Seq<char>) -> Seq<char>
    decreases s.len(),
{
    if s.len() == 0 {
        Seq::empty()
    } else {
        pct_text(s.drop_last()) + pct_bytes(utf8_bytes(s.last()))
    }
}

fn hex_char(d: u8) -> (c: char)
    requires
        d < 16,
    ensures
        c == hex_digit(d as nat),
{
    if d < 10 {
        (48 + d) as char
    } else {
        (55 + d) as char
    }
}

fn push_pct_byte(s: &mut String, b: u8)
    ensures
        final(s)@ == old(s)@ + pct_byte(b),
{
    if (0x41 <= b && b <= 0x5A) || (0x61 <= b && b <= 0x7A) || (0x30 <= b && b <= 0x39) || b
        == 0x2D || b == 0x5F || b == 0x2E || b == 0x7E {
        push_char(s, b as char);
    } else {
        push_char(s, '%');
        push_char(s, hex_char(b / 16));
        push_char(s, hex_char(b % 16));
    }
}

/// The UTF-8 bytes of one character.
fn char_bytes(c: char) -> (r: Vec<u8>)
    ensures
        r@ == utf8_bytes(c),
{
    let u = c as u32;
    proof {
        assert(u <= 0x10FFFF);
    }
    if u < 0x80 {
        vec![u as u8]
    } else if u < 0x800 {
        vec![(0xC0 + u / 64) as u8, (0x80 + u % 64) as u8]
    } else if u < 0x10000 {
        vec![(0xE0 + u / 4096) as u8, (0x80 + (u / 64) % 64) as u8, (0x80 + u % 64) as u8]
    } else {
        vec![
            (0xF0 + u / 262144) as u8,
            (0x80 + (u / 4096) % 64) as u8,
            (0x80 + (u / 64) % 64) as u8,
            (0x80 + u % 64) as u8,
        ]
    }
}

/// Append `t` percent-encoded for a URL query value.
pub fn push_pct(s: &mut String, t: &str)
    ensures
        final(s)@ == old(s)@ + pct_text(t@),
{
    let v = crate::text::to_chars(t);
    let ghost s0 = s@;
    let mut k: usize = 0;
    while k < v.len()
        invariant
            k <= v.len(),
            v@ == t@,
            s@ == s0 + pct_text(v@.take(k as int)),
        decreases v.len() - k,
    {
        let bs = char_bytes(v[k]);
        let ghost before = s@;
        let mut j: usize = 0;
        while j < bs.len()
            invariant
                j <= bs.len(),
                s@ == before + pct_bytes(bs@.take(j as int)),
            decreases bs.len() - j,
        {
            push_pct_byte(s, bs[j]);
            assert(bs@.take(j + 1).drop_last() == bs@.take(j as int));
            j += 1;
        }
        assert(bs@.take(bs.len() as int) == bs@);
        assert(v@.take(k + 1).drop_last() == v@.take(k as int));
        k += 1;
    }
    assert(v@.take(v.len() as int) == v@);
}

/// Percent-encode a string for use in a URL query value.
pub fn pct(t: &str) -> (r: String)
    ensures
        r@ == pct_text(t@),
{
    let mut r = String::new();
    push_pct(&mut r, t);
    r
}

} // verus!
