//! Byte (UTF-8) and UTF-16 offsets into character sequences.

use vstd::prelude::*;
use vstd::string::StringSliceAdditionalSpecFns;

verus! {

/// Bytes of `c` in UTF-8 (`char::len_utf8`).
pub open spec fn utf8_width(c: char) -> nat {
    let u = c as u32;
    if u <= 0x7F {
        1
    } else if u <= 0x7FF {
        2
    } else if u <= 0xFFFF {
        3
    } else {
        4
    }
}

/// Code units of `c` in UTF-16 (`char::len_utf16`).
pub open spec fn utf16_width(c: char) -> nat {
    if (c as u32) <= 0xFFFF {
        1
    } else {
        2
    }
}

/// Bytes of `s` in UTF-8.
pub open spec fn byte_len(s: Seq<char>) -> nat
    decreases s.len(),
{
    if s.len() == 0 {
        0
    } else {
        byte_len(s.drop_last()) + utf8_width(s.last())
    }
}

/// Code units of `s` in UTF-16.
pub open spec fn utf16_len(s: Seq<char>) -> nat
    decreases s.len(),
{
    if s.len() == 0 {
        0
    } else {
        utf16_len(s.drop_last()) + utf16_width(s.last())
    }
}

/// The byte offset at which character `k` starts.
pub open spec fn byte_at(s: Seq<char>, k: int) -> nat {
    byte_len(s.take(k))
}

/// The UTF-16 offset at which character `k` starts.
pub open spec fn utf16_at(s: Seq<char>, k: int) -> nat {
    utf16_len(s.take(k))
}

/// Is `b` the byte offset of a character boundary of `s` (its end included)?
pub open spec fn is_boundary(s: Seq<char>, b: int) -> bool {
    exists|k: int| 0 <= k <= s.len() && byte_at(s, k) == b
}

/// The character index at byte offset `b` (meaningful when `b` is a boundary).
pub open spec fn char_index(s: Seq<char>, b: int) -> int {
    choose|k: int| 0 <= k <= s.len() && byte_at(s, k) == b
}

pub proof fn lemma_utf8_width_bounds(c: char)
    ensures
        1 <= utf8_width(c) <= 4,
        1 <= utf16_width(c) <= utf8_width(c),
{
}

pub proof fn lemma_byte_len_concat(a: Seq<char>, b: Seq<char>)
    ensures
        byte_len(a + b) == byte_len(a) + byte_len(b),
        utf16_len(a + b) == utf16_len(a) + utf16_len(b),
    decreases b.len(),
{
    if b.len() == 0 {
        assert(a + b == a);
    } else {
        assert((a + b).drop_last() == a + b.drop_last());
        assert((a + b).last() == b.last());
        lemma_byte_len_concat(a, b.drop_last());
    }
}

pub proof fn lemma_byte_at_step(s: Seq<char>, k: int)
    requires
        0 <= k < s.len(),
    ensures
        byte_at(s, k + 1) == byte_at(s, k) + utf8_width(s[k]),
        utf16_at(s, k + 1) == utf16_at(s, k) + utf16_width(s[k]),
{
    assert(s.take(k + 1).drop_last() == s.take(k));
}

pub proof fn lemma_byte_at_mono(s: Seq<char>, i: int, j: int)
    requires
        0 <= i <= j <= s.len(),
    ensures
        byte_at(s, i) <= byte_at(s, j),
        i < j ==> byte_at(s, i) < byte_at(s, j),
        utf16_at(s, i) <= utf16_at(s, j),
        utf16_at(s, j) - utf16_at(s, i) <= byte_at(s, j) - byte_at(s, i),
    decreases j - i,
{
    if i < j {
        lemma_byte_at_mono(s, i, j - 1);
        lemma_byte_at_step(s, j - 1);
        lemma_utf8_width_bounds(s[j - 1]);
    }
}

pub proof fn lemma_utf16_at_strict(s: Seq<char>, i: int, j: int)
    requires
        0 <= i < j <= s.len(),
    ensures
        utf16_at(s, i) < utf16_at(s, j),
    decreases j - i,
{
    lemma_byte_at_step(s, j - 1);
    lemma_utf8_width_bounds(s[j - 1]);
    if i < j - 1 {
        lemma_utf16_at_strict(s, i, j - 1);
    }
}

/// The character index of a boundary is the unique one.
pub proof fn lemma_char_index(s: Seq<char>, k: int)
    requires
        0 <= k <= s.len(),
    ensures
        is_boundary(s, byte_at(s, k) as int),
        char_index(s, byte_at(s, k) as int) == k,
{
    let b = byte_at(s, k) as int;
    assert(0 <= k <= s.len() && byte_at(s, k) == b);
    let c = char_index(s, b);
    if c != k {
        if c < k {
            lemma_byte_at_mono(s, c, k);
        } else {
            lemma_byte_at_mono(s, k, c);
        }
    }
}

pub proof fn lemma_byte_at_len(s: Seq<char>)
    ensures
        byte_at(s, s.len() as int) == byte_len(s),
        utf16_at(s, s.len() as int) == utf16_len(s),
{
    assert(s.take(s.len() as int) == s);
}

pub proof fn lemma_encode_len(s: Seq<char>)
    ensures
        vstd::utf8::encode_utf8(s).len() == byte_len(s),
    decreases s.len(),
{
    if s.len() > 0 {
        lemma_encode_len(s.drop_first());
        assert(s == seq![s[0]] + s.drop_first());
        lemma_byte_len_concat(seq![s[0]], s.drop_first());
        assert(seq![s[0]].drop_last() == Seq::<char>::empty());
        assert(byte_len(Seq::<char>::empty()) == 0);
        assert(byte_len(seq![s[0]]) == utf8_width(s[0]));
        vstd::utf8::char_is_scalar(s[0]);
        let u = s[0] as u32;
        assert(vstd::utf8::encode_scalar(u).len() == utf8_width(s[0]));
        assert(vstd::utf8::encode_utf8(s) == vstd::utf8::encode_scalar(u) + vstd::utf8::encode_utf8(
            s.drop_first(),
        ));
    }
}

/// The UTF-8 byte length of a string slice.
pub fn str_byte_len(s: &str) -> (n: usize)
    ensures
        n == byte_len(s@),
{
    proof {
        lemma_encode_len(s@);
    }
    let bytes = s.as_bytes();
    assert(bytes@ == vstd::utf8::encode_utf8(s@));
    bytes.len()
}

/// `char::len_utf8`.
pub fn char_utf8_len(c: char) -> (n: usize)
    ensures
        n == utf8_width(c),
{
    let u = c as u32;
    if u <= 0x7F {
        1
    } else if u <= 0x7FF {
        2
    } else if u <= 0xFFFF {
        3
    } else {
        4
    }
}

/// `char::len_utf16`.
pub fn char_utf16_len(c: char) -> (n: usize)
    ensures
        n == utf16_width(c),
{
    if (c as u32) <= 0xFFFF {
        1
    } else {
        2
    }
}

/// The character index at a boundary byte offset.
pub fn index_of_offset(v: &Vec<char>, b: usize) -> (k: usize)
    requires
        is_boundary(v@, b as int),
    ensures
        k <= v.len(),
        byte_at(v@, k as int) == b,
        k == char_index(v@, b as int),
{
    let ghost target = char_index(v@, b as int);
    let mut k: usize = 0;
    let mut acc: usize = 0;
    proof {
        assert(v@.take(0) == Seq::<char>::empty());
    }
    while acc < b
        invariant
            0 <= target <= v.len(),
            byte_at(v@, target) == b,
            k <= target,
            acc == byte_at(v@, k as int),
        decreases b - acc,
    {
        proof {
            if k == target {
                assert(false);
            }
            lemma_byte_at_step(v@, k as int);
            lemma_byte_at_mono(v@, k + 1, target);
        }
        acc = acc + char_utf8_len(v[k]);
        k += 1;
    }
    proof {
        if k < target {
            lemma_byte_at_mono(v@, k as int, target);
        }
        lemma_char_index(v@, k as int);
    }
    k
}

/// Is byte offset `b` a character boundary of `v` (`str::is_char_boundary`)?
pub fn boundary_at(v: &Vec<char>, b: usize) -> (r: bool)
    requires
        byte_len(v@) <= usize::MAX,
    ensures
        r == is_boundary(v@, b as int),
{
    let mut k: usize = 0;
    let mut acc: usize = 0;
    proof {
        assert(v@.take(0) == Seq::<char>::empty());
    }
    while k < v.len() && acc < b
        invariant
            k <= v.len(),
            byte_len(v@) <= usize::MAX,
            acc == byte_at(v@, k as int),
            forall|j: int| 0 <= j < k ==> #[trigger] byte_at(v@, j) < b,
        decreases v.len() - k,
    {
        proof {
            lemma_byte_at_step(v@, k as int);
            lemma_byte_at_mono(v@, k + 1, v.len() as int);
            lemma_byte_at_len(v@);
        }
        acc = acc + char_utf8_len(v[k]);
        k += 1;
    }
    proof {
        if acc == b {
            assert(0 <= k <= v.len() && byte_at(v@, k as int) == b);
        } else if is_boundary(v@, b as int) {
            let j = choose|j: int| 0 <= j <= v.len() && byte_at(v@, j) == b;
            if j >= k {
                lemma_byte_at_mono(v@, k as int, j);
            }
        }
    }
    acc == b
}

} // verus!
