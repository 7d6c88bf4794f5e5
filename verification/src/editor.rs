//! The note-body text buffer: byte-offset selection, line navigation, grapheme
//! movement, editing and the UTF-16 bridge used by platform text input.

use vstd::prelude::*;
use core::ops::Range;
use crate::text::{string_of, to_chars};
use crate::utf::{
    byte_at, byte_len, char_index, char_utf16_len, char_utf8_len, index_of_offset, is_boundary,
    lemma_byte_at_len, lemma_byte_at_mono, lemma_byte_at_step, lemma_char_index, lemma_utf16_at_strict,
    str_byte_len,
    utf16_at, utf8_width,
};

verus! {

/// The byte offsets of the starts of the lines after each `'\n'` in `s[k..]`.
pub open spec fn newline_starts(s: Seq<char>, k: int) -> Seq<int>
    decreases s.len() - k,
{
    if k < 0 || k >= s.len() {
        Seq::empty()
    } else if s[k] == '\n' {
        seq![byte_at(s, k + 1) as int] + newline_starts(s, k + 1)
    } else {
        newline_starts(s, k + 1)
    }
}

/// Byte offset of the start of each logical line of `s` (split on `'\n'`).
pub open spec fn line_starts_of(s: Seq<char>) -> Seq<int> {
    seq![0int] + newline_starts(s, 0)
}

/// The integers behind a list of offsets.
pub open spec fn ints(v: Seq<usize>) -> Seq<int> {
    v.map_values(|x: usize| x as int)
}

/// Line starts begin at 0 and strictly increase.
pub open spec fn starts_sorted(starts: Seq<int>) -> bool {
    &&& starts.len() > 0
    &&& starts[0] == 0
    &&& forall|i: int, j: int| 0 <= i < j < starts.len() ==> starts[i] < starts[j]
}

/// Line starts fit a text of `total` bytes: sorted, the last within it.
pub open spec fn starts_ok(starts: Seq<int>, total: int) -> bool {
    &&& starts_sorted(starts)
    &&& starts.last() <= total
}

/// The line holding byte `offset`: the last `i` with `starts[i] <= offset`.
pub open spec fn line_of(starts: Seq<int>, offset: int) -> int
    decreases starts.len(),
{
    if starts.len() <= 1 {
        0
    } else if starts.last() <= offset {
        starts.len() - 1
    } else {
        line_of(starts.drop_last(), offset)
    }
}

/// Bytes in line `line` (its `'\n'` excluded) of a `total`-byte text.
pub open spec fn line_len_of(starts: Seq<int>, line: int, total: int) -> int {
    (if line + 1 < starts.len() {
        starts[line + 1] - 1
    } else {
        total
    }) - starts[line]
}

pub proof fn lemma_newline_starts(s: Seq<char>, k: int)
    requires
        0 <= k <= s.len(),
    ensures
        forall|i: int|
            0 <= i < newline_starts(s, k).len() ==> byte_at(s, k) < #[trigger] newline_starts(
                s,
                k,
            )[i] <= byte_len(s),
        forall|i: int, j: int|
            0 <= i < j < newline_starts(s, k).len() ==> newline_starts(s, k)[i] < newline_starts(
                s,
                k,
            )[j],
    decreases s.len() - k,
{
    if k < s.len() {
        lemma_newline_starts(s, k + 1);
        lemma_byte_at_step(s, k);
        lemma_utf8_pos(s[k]);
        lemma_byte_at_mono(s, k + 1, s.len() as int);
        lemma_byte_at_len(s);
        let rest = newline_starts(s, k + 1);
        if s[k] == '\n' {
            let all = seq![byte_at(s, k + 1) as int] + rest;
            assert forall|i: int| 0 <= i < all.len() implies byte_at(s, k) < #[trigger] all[i]
                <= byte_len(s) by {
                if i > 0 {
                    assert(all[i] == rest[i - 1]);
                }
            }
            assert forall|i: int, j: int| 0 <= i < j < all.len() implies all[i] < all[j] by {
                assert(all[j] == rest[j - 1]);
                if i > 0 {
                    assert(all[i] == rest[i - 1]);
                }
            }
        }
    }
}

proof fn lemma_utf8_pos(c: char)
    ensures
        utf8_width(c) >= 1,
{
}

pub proof fn lemma_line_starts_ok(s: Seq<char>)
    ensures
        starts_ok(line_starts_of(s), byte_len(s) as int),
{
    lemma_newline_starts(s, 0);
    assert(s.take(0) == Seq::<char>::empty());
    let rest = newline_starts(s, 0);
    let all = line_starts_of(s);
    assert forall|i: int, j: int| 0 <= i < j < all.len() implies all[i] < all[j] by {
        assert(all[j] == rest[j - 1]);
        if i > 0 {
            assert(all[i] == rest[i - 1]);
        }
    }
    if rest.len() > 0 {
        assert(all.last() == rest[rest.len() - 1]);
    }
}

pub proof fn lemma_line_of(starts: Seq<int>, offset: int)
    requires
        starts.len() > 0,
        starts[0] == 0,
        offset >= 0,
        forall|i: int, j: int| 0 <= i < j < starts.len() ==> starts[i] < starts[j],
    ensures
        0 <= line_of(starts, offset) < starts.len(),
        starts[line_of(starts, offset)] <= offset,
        line_of(starts, offset) + 1 < starts.len() ==> offset < starts[line_of(starts, offset) + 1],
    decreases starts.len(),
{
    if starts.len() > 1 && starts.last() > offset {
        lemma_line_of(starts.drop_last(), offset);
    }
}

/// Byte offset of the start of each logical line (split on `\n`).
pub fn line_starts(s: &str) -> (v: Vec<usize>)
    ensures
        ints(v@) == line_starts_of(s@),
        starts_ok(ints(v@), byte_len(s@) as int),
{
    let cs = to_chars(s);
    let total = str_byte_len(s);
    let mut v: Vec<usize> = Vec::new();
    v.push(0);
    let mut k: usize = 0;
    let mut at: usize = 0;
    proof {
        assert(cs@.take(0) == Seq::<char>::empty());
    }
    while k < cs.len()
        invariant
            cs@ == s@,
            total == byte_len(s@),
            k <= cs.len(),
            at == byte_at(s@, k as int),
            ints(v@) + newline_starts(s@, k as int) == line_starts_of(s@),
        decreases cs.len() - k,
    {
        proof {
            lemma_byte_at_step(s@, k as int);
            lemma_byte_at_mono(s@, k + 1, s@.len() as int);
            lemma_byte_at_len(s@);
        }
        let next = at + char_utf8_len(cs[k]);
        if cs[k] == '\n' {
            let ghost before = ints(v@);
            v.push(next);
            assert(ints(v@) == before.push(next as int));
            assert(before.push(next as int) + newline_starts(s@, k + 1) == before + newline_starts(
                s@,
                k as int,
            ));
        }
        at = next;
        k += 1;
    }
    proof {
        assert(ints(v@) + Seq::<int>::empty() == ints(v@));
        lemma_line_starts_ok(s@);
    }
    v
}

/// Map a byte offset to (line index, byte offset within that line).
pub fn offset_to_line_col(starts: &[usize], offset: usize) -> (r: (usize, usize))
    requires
        starts_sorted(ints(starts@)),
    ensures
        r.0 == line_of(ints(starts@), offset as int),
        r.0 < starts@.len(),
        r.1 == offset - starts@[r.0 as int],
{
    let ghost ss = ints(starts@);
    proof {
        lemma_line_of(ss, offset as int);
    }
    let ghost target = line_of(ss, offset as int);
    // Binary search for the last start <= offset.
    let mut lo: usize = 0;
    let mut hi: usize = starts.len();
    while hi - lo > 1
        invariant
            0 <= lo < hi <= starts@.len(),
            ss == ints(starts@),
            0 <= target < ss.len(),
            ss[target] <= offset,
            target + 1 < ss.len() ==> offset < ss[target + 1],
            starts_sorted(ss),
            starts@[lo as int] <= offset,
            lo <= target < hi,
        decreases hi - lo,
    {
        let mid = lo + (hi - lo) / 2;
        if starts[mid] <= offset {
            proof {
                if target < mid {
                    assert(ss[target + 1] <= ss[mid as int]);
                }
            }
            lo = mid;
        } else {
            proof {
                if mid <= target {
                    assert(ss[mid as int] <= ss[target]);
                }
            }
            hi = mid;
        }
    }
    (lo, offset - starts[lo])
}

/// The name for the byte offsets at which the extended grapheme clusters of a
/// text start (`unicode_segmentation`'s `grapheme_indices(true)`).
pub uninterp spec fn grapheme_starts(s: Seq<char>) -> Seq<usize>;

/// Calls `UnicodeSegmentation::grapheme_indices(s, true)` and keeps each cluster's
/// byte offset. Claims: the offsets are the named `grapheme_starts(s)`; as the
/// clusters cover the text in order, the offsets rise strictly, each is a
/// character boundary inside the text, and the first is 0 unless the text is
/// empty (which has no clusters).
#[verifier::external_body]
fn grapheme_offsets(s: &str) -> (r: Vec<usize>)
    ensures
        r@ == grapheme_starts(s@),
        forall|i: int| 0 <= i < r.len() ==> is_boundary(s@, #[trigger] r@[i] as int) && r@[i] < byte_len(s@),
        forall|i: int, j: int| 0 <= i < j < r.len() ==> #[trigger] r@[i] < #[trigger] r@[j],
        (s@.len() > 0) == (r.len() > 0),
        r.len() > 0 ==> r@[0] == 0,
{
    unicode_segmentation::UnicodeSegmentation::grapheme_indices(s, true).map(|(i, _)| i).collect()
}

/// The last cluster start among `gs[..n]` that is below `offset`, or 0.
pub open spec fn last_below(gs: Seq<usize>, n: int, offset: int) -> int
    decreases n,
{
    if n <= 0 || n > gs.len() {
        0
    } else if gs[n - 1] < offset {
        gs[n - 1] as int
    } else {
        last_below(gs, n - 1, offset)
    }
}

/// The first cluster start among `gs[k..]` that is above `offset`, or `total`.
pub open spec fn first_above(gs: Seq<usize>, k: int, offset: int, total: int) -> int
    decreases gs.len() - k,
{
    if k < 0 || k >= gs.len() {
        total
    } else if gs[k] > offset {
        gs[k] as int
    } else {
        first_above(gs, k + 1, offset, total)
    }
}

/// The first character index `>= k` whose UTF-16 offset reaches `u`, or the end.
pub open spec fn first_at_utf16(s: Seq<char>, u: int, k: int) -> int
    decreases s.len() - k,
{
    if k < 0 || k >= s.len() {
        s.len() as int
    } else if utf16_at(s, k) >= u {
        k
    } else {
        first_at_utf16(s, u, k + 1)
    }
}

/// The first character index `>= k` whose byte offset reaches `b`, or the end.
pub open spec fn first_at_byte(s: Seq<char>, b: int, k: int) -> int
    decreases s.len() - k,
{
    if k < 0 || k >= s.len() {
        s.len() as int
    } else if byte_at(s, k) >= b {
        k
    } else {
        first_at_byte(s, b, k + 1)
    }
}

/// The byte offset for a UTF-16 offset (`offset_from_utf16`).
pub open spec fn from_utf16(s: Seq<char>, u: int) -> int {
    byte_at(s, first_at_utf16(s, u, 0)) as int
}

/// The UTF-16 offset for a byte offset (`offset_to_utf16`).
pub open spec fn to_utf16(s: Seq<char>, b: int) -> int {
    utf16_at(s, first_at_byte(s, b, 0)) as int
}

pub proof fn lemma_first_at_utf16(s: Seq<char>, u: int, k: int)
    requires
        0 <= k <= s.len(),
    ensures
        k <= first_at_utf16(s, u, k) <= s.len(),
    decreases s.len() - k,
{
    if k < s.len() && utf16_at(s, k) < u {
        lemma_first_at_utf16(s, u, k + 1);
    }
}

pub proof fn lemma_first_at_byte(s: Seq<char>, b: int, k: int)
    requires
        0 <= k <= s.len(),
    ensures
        k <= first_at_byte(s, b, k) <= s.len(),
    decreases s.len() - k,
{
    if k < s.len() && byte_at(s, k) < b {
        lemma_first_at_byte(s, b, k + 1);
    }
}

/// A UTF-16 offset always maps to a character boundary.
pub proof fn lemma_from_utf16_boundary(s: Seq<char>, u: int)
    ensures
        is_boundary(s, from_utf16(s, u)),
        0 <= from_utf16(s, u) <= byte_len(s),
{
    lemma_first_at_utf16(s, u, 0);
    lemma_char_index(s, first_at_utf16(s, u, 0));
    lemma_byte_at_mono(s, first_at_utf16(s, u, 0), s.len() as int);
    lemma_byte_at_len(s);
}

pub proof fn lemma_first_at_byte_exact(s: Seq<char>, b: int, k: int, i: int)
    requires
        0 <= i <= k <= s.len(),
        byte_at(s, k) == b,
        forall|m: int| i <= m < k ==> byte_at(s, m) < b,
    ensures
        first_at_byte(s, b, i) == k,
    decreases k - i,
{
    if i < k {
        lemma_first_at_byte_exact(s, b, k, i + 1);
    } else if k == s.len() {
    }
}

pub proof fn lemma_first_at_utf16_exact(s: Seq<char>, u: int, k: int, i: int)
    requires
        0 <= i <= k <= s.len(),
        utf16_at(s, k) == u,
        forall|m: int| i <= m < k ==> utf16_at(s, m) < u,
    ensures
        first_at_utf16(s, u, i) == k,
    decreases k - i,
{
    if i < k {
        lemma_first_at_utf16_exact(s, u, k, i + 1);
    }
}

/// For every character boundary `b`, converting to UTF-16 and back gives `b`
/// (so `range_from_utf16(range_to_utf16(r)) == r` for ranges on boundaries).
pub proof fn lemma_utf16_roundtrip(s: Seq<char>, b: int)
    requires
        is_boundary(s, b),
    ensures
        from_utf16(s, to_utf16(s, b)) == b,
{
    let k = choose|k: int| 0 <= k <= s.len() && byte_at(s, k) == b;
    assert forall|m: int| 0 <= m < k implies byte_at(s, m) < b by {
        lemma_byte_at_mono(s, m, k);
    }
    lemma_first_at_byte_exact(s, b, k, 0);
    assert(to_utf16(s, b) == utf16_at(s, k));
    assert forall|m: int| 0 <= m < k implies utf16_at(s, m) < utf16_at(s, k) by {
        lemma_utf16_at_strict(s, m, k);
    }
    lemma_first_at_utf16_exact(s, utf16_at(s, k) as int, k, 0);
}

/// The text with bytes `a..b` replaced by `t` (`s[..a] + t + s[b..]`).
pub open spec fn splice(s: Seq<char>, a: int, b: int, t: Seq<char>) -> Seq<char> {
    s.take(char_index(s, a)) + t + s.skip(char_index(s, b))
}

/// The characters between two byte offsets (`&s[a..b]`).
pub open spec fn slice_bytes(s: Seq<char>, a: int, b: int) -> Seq<char> {
    s.subrange(char_index(s, a), char_index(s, b))
}

/// The text buffer behind the note editor: the content, the selection (byte
/// offsets, `reversed` when the cursor is at its start) and the IME-marked range.
pub struct EditorBuffer {
    pub content: String,
    pub selected_range: Range<usize>,
    pub selection_reversed: bool,
    pub marked_range: Option<Range<usize>>,
}

/// A byte range as a pair of integers.
pub open spec fn pair(r: Range<usize>) -> (int, int) {
    (r.start as int, r.end as int)
}

/// Both ends of `r` are character boundaries of `s`.
pub open spec fn range_on_boundaries(s: Seq<char>, r: Range<usize>) -> bool {
    is_boundary(s, r.start as int) && is_boundary(s, r.end as int)
}

impl EditorBuffer {
    /// A buffer holding `content`, cursor at the start.
    pub fn new(content: &str) -> (b: EditorBuffer)
        ensures
            b.content@ == content@,
            pair(b.selected_range) == (0int, 0int),
            !b.selection_reversed,
            b.marked_range is None,
    {
        EditorBuffer {
            content: content.to_owned(),
            selected_range: 0..0,
            selection_reversed: false,
            marked_range: None,
        }
    }

    /// The buffer's text.
    pub fn text(&self) -> (r: String)
        ensures
            r@ == self.content@,
    {
        self.content.clone()
    }

    /// Replace the whole buffer (used when the selected note changes); the cursor
    /// goes to the end.
    pub fn set_content(&mut self, content: &str)
        ensures
            final(self).content@ == content@,
            pair(final(self).selected_range) == (byte_len(content@) as int, byte_len(content@) as int),
            !final(self).selection_reversed,
            final(self).marked_range is None,
    {
        self.content = content.to_owned();
        let len = str_byte_len(content);
        self.selected_range = len..len;
        self.selection_reversed = false;
        self.marked_range = None;
    }

    /// The cursor: the selection's start when reversed, else its end.
    pub open spec fn cursor(&self) -> int {
        if self.selection_reversed {
            self.selected_range.start as int
        } else {
            self.selected_range.end as int
        }
    }

    pub fn cursor_offset(&self) -> (r: usize)
        ensures
            r == self.cursor(),
    {
        if self.selection_reversed {
            self.selected_range.start
        } else {
            self.selected_range.end
        }
    }

    /// Collapse the selection to `offset`.
    pub fn move_to(&mut self, offset: usize)
        ensures
            pair(final(self).selected_range) == (offset as int, offset as int),
            !final(self).selection_reversed,
            final(self).content == old(self).content,
            final(self).marked_range == old(self).marked_range,
    {
        self.selected_range = offset..offset;
        self.selection_reversed = false;
    }

    /// The selection after moving its cursor end to `offset` (flipping direction
    /// when it crosses the anchor).
    pub open spec fn selected_to(&self, offset: int) -> ((int, int), bool) {
        let (s, e) = if self.selection_reversed {
            (offset, self.selected_range.end as int)
        } else {
            (self.selected_range.start as int, offset)
        };
        if e < s {
            ((e, s), !self.selection_reversed)
        } else {
            ((s, e), self.selection_reversed)
        }
    }

    /// Extend the selection so its cursor end is at `offset`.
    pub fn select_to(&mut self, offset: usize)
        ensures
            (pair(final(self).selected_range), final(self).selection_reversed) == old(self).selected_to(
                offset as int,
            ),
            final(self).content == old(self).content,
            final(self).marked_range == old(self).marked_range,
    {
        if self.selection_reversed {
            self.selected_range.start = offset;
        } else {
            self.selected_range.end = offset;
        }
        if self.selected_range.end < self.selected_range.start {
            self.selection_reversed = !self.selection_reversed;
            self.selected_range = self.selected_range.end..self.selected_range.start;
        }
    }

    /// The grapheme boundary before `offset` (0 if none).
    pub fn previous_boundary(&self, offset: usize) -> (r: usize)
        ensures
            r == last_below(
                grapheme_starts(self.content@),
                grapheme_starts(self.content@).len() as int,
                offset as int,
            ),
            is_boundary(self.content@, r as int),
    {
        let gs = grapheme_offsets(self.content.as_str());
        proof {
            assert(byte_at(self.content@, 0) == 0) by {
                assert(self.content@.take(0) == Seq::<char>::empty());
            }
        }
        let mut n = gs.len();
        while n > 0
            invariant
                n <= gs.len(),
                gs@ == grapheme_starts(self.content@),
                forall|i: int| 0 <= i < gs.len() ==> is_boundary(self.content@, #[trigger] gs@[i] as int),
                is_boundary(self.content@, 0),
                last_below(gs@, gs@.len() as int, offset as int) == last_below(gs@, n as int, offset as int),
            decreases n,
        {
            if gs[n - 1] < offset {
                return gs[n - 1];
            }
            n -= 1;
        }
        0
    }

    /// The grapheme boundary after `offset` (the end of the text if none).
    pub fn next_boundary(&self, offset: usize) -> (r: usize)
        ensures
            r == first_above(grapheme_starts(self.content@), 0, offset as int, byte_len(self.content@) as int),
            is_boundary(self.content@, r as int),
    {
        let gs = grapheme_offsets(self.content.as_str());
        proof {
            let n = self.content@.len() as int;
            assert(byte_at(self.content@, n) == byte_len(self.content@)) by {
                assert(self.content@.take(n) == self.content@);
            }
        }
        let mut k: usize = 0;
        while k < gs.len()
            invariant
                k <= gs.len(),
                gs@ == grapheme_starts(self.content@),
                forall|i: int| 0 <= i < gs.len() ==> is_boundary(self.content@, #[trigger] gs@[i] as int),
                first_above(gs@, 0, offset as int, byte_len(self.content@) as int) == first_above(
                    gs@,
                    k as int,
                    offset as int,
                    byte_len(self.content@) as int,
                ),
            decreases gs.len() - k,
        {
            if gs[k] > offset {
                return gs[k];
            }
            k += 1;
        }
        str_byte_len(self.content.as_str())
    }

    /// Bytes in line `line`, its `'\n'` excluded.
    pub fn line_len(&self, starts: &[usize], line: usize) -> (r: usize)
        requires
            starts_ok(ints(starts@), byte_len(self.content@) as int),
            line < starts@.len(),
        ensures
            r == line_len_of(ints(starts@), line as int, byte_len(self.content@) as int),
    {
        let ghost ss = ints(starts@);
        let end = if line < starts.len() - 1 {
            assert(ss[line as int] < ss[line + 1]);
            starts[line + 1] - 1
        } else {
            if line > 0 {
                assert(ss[line as int] == ss.last());
            }
            str_byte_len(self.content.as_str())
        };
        end - starts[line]
    }

    /// Byte offset for a UTF-16 offset: the start of the first character whose UTF-16
    /// offset reaches it, or the end of the text.
    pub fn offset_from_utf16(&self, offset: usize) -> (r: usize)
        ensures
            r == from_utf16(self.content@, offset as int),
    {
        let v = to_chars(self.content.as_str());
        let total = str_byte_len(self.content.as_str());
        let ghost s = v@;
        let mut k: usize = 0;
        let mut utf8: usize = 0;
        let mut utf16: usize = 0;
        proof {
            assert(s.take(0) == Seq::<char>::empty());
        }
        while k < v.len() && utf16 < offset
            invariant
                s == v@,
                s == self.content@,
                total == byte_len(s),
                k <= v.len(),
                utf8 == byte_at(s, k as int),
                utf16 == utf16_at(s, k as int),
                first_at_utf16(s, offset as int, 0) == first_at_utf16(s, offset as int, k as int),
            decreases v.len() - k,
        {
            proof {
                lemma_byte_at_step(s, k as int);
                lemma_byte_at_mono(s, 0, k + 1);
                lemma_byte_at_mono(s, k + 1, s.len() as int);
                lemma_byte_at_len(s);
            }
            utf16 = utf16 + char_utf16_len(v[k]);
            utf8 = utf8 + char_utf8_len(v[k]);
            k += 1;
        }
        utf8
    }

    /// UTF-16 offset for a byte offset: that of the first character starting at or
    /// after it, or the end of the text.
    pub fn offset_to_utf16(&self, offset: usize) -> (r: usize)
        ensures
            r == to_utf16(self.content@, offset as int),
    {
        let v = to_chars(self.content.as_str());
        let total = str_byte_len(self.content.as_str());
        let ghost s = v@;
        let mut k: usize = 0;
        let mut utf8: usize = 0;
        let mut utf16: usize = 0;
        proof {
            assert(s.take(0) == Seq::<char>::empty());
        }
        while k < v.len() && utf8 < offset
            invariant
                s == v@,
                s == self.content@,
                total == byte_len(s),
                k <= v.len(),
                utf8 == byte_at(s, k as int),
                utf16 == utf16_at(s, k as int),
                first_at_byte(s, offset as int, 0) == first_at_byte(s, offset as int, k as int),
            decreases v.len() - k,
        {
            proof {
                lemma_byte_at_step(s, k as int);
                lemma_byte_at_mono(s, 0, k + 1);
                lemma_byte_at_mono(s, k + 1, s.len() as int);
                lemma_byte_at_len(s);
            }
            utf8 = utf8 + char_utf8_len(v[k]);
            utf16 = utf16 + char_utf16_len(v[k]);
            k += 1;
        }
        utf16
    }

    pub fn range_to_utf16(&self, range: &Range<usize>) -> (r: Range<usize>)
        ensures
            pair(r) == (to_utf16(self.content@, range.start as int), to_utf16(
                self.content@,
                range.end as int,
            )),
    {
        self.offset_to_utf16(range.start)..self.offset_to_utf16(range.end)
    }

    pub fn range_from_utf16(&self, range: &Range<usize>) -> (r: Range<usize>)
        ensures
            pair(r) == (from_utf16(self.content@, range.start as int), from_utf16(
                self.content@,
                range.end as int,
            )),
    {
        self.offset_from_utf16(range.start)..self.offset_from_utf16(range.end)
    }

    /// The byte range an edit applies to: the given UTF-16 range, else the marked
    /// range, else the selection.
    pub open spec fn edit_range(&self, range_utf16: Option<Range<usize>>) -> (int, int) {
        match range_utf16 {
            Some(u) => (
                from_utf16(self.content@, u.start as int),
                from_utf16(self.content@, u.end as int),
            ),
            None => match self.marked_range {
                Some(m) => pair(m),
                None => pair(self.selected_range),
            },
        }
    }

    /// The text with `text` put in place of the edit range.
    pub open spec fn edited(&self, range_utf16: Option<Range<usize>>, text: Seq<char>) -> Seq<char> {
        splice(self.content@, self.edit_range(range_utf16).0, self.edit_range(range_utf16).1, text)
    }

    /// The edit range lies on character boundaries and the offset after the new
    /// text fits in a `usize`.
    pub open spec fn can_edit(&self, range_utf16: Option<Range<usize>>, text: Seq<char>) -> bool {
        &&& is_boundary(self.content@, self.edit_range(range_utf16).0)
        &&& is_boundary(self.content@, self.edit_range(range_utf16).1)
        &&& self.edit_range(range_utf16).0 + byte_len(text) <= usize::MAX
    }

    /// May `range_utf16` be replaced by `text` (its ends fall on character
    /// boundaries)? Replacing otherwise would cut a character in two.
    pub fn edit_allowed(&self, range_utf16: Option<Range<usize>>, text: &str) -> (r: bool)
        ensures
            r == self.can_edit(range_utf16, text@),
    {
        let v = to_chars(self.content.as_str());
        let n = str_byte_len(self.content.as_str());
        let m = str_byte_len(text);
        proof {
            lemma_byte_at_len(v@);
        }
        let r = self.resolve_range(&range_utf16);
        crate::utf::boundary_at(&v, r.start) && crate::utf::boundary_at(&v, r.end) && r.start <= usize::MAX - m
    }

    /// May a deletion towards `target` go ahead (what it removes lies on character
    /// boundaries)?
    pub fn delete_allowed(&self, target: usize) -> (r: bool)
        ensures
            r == self.can_delete_toward(target as int),
    {
        let sel: (usize, usize) = if self.selected_range.start < self.selected_range.end {
            (self.selected_range.start, self.selected_range.end)
        } else if self.cursor_offset() == target {
            return true;
        } else {
            let (a, b) = if self.selection_reversed {
                (target, self.selected_range.end)
            } else {
                (self.selected_range.start, target)
            };
            if b < a { (b, a) } else { (a, b) }
        };
        let (x, y) = match &self.marked_range {
            Some(m) => (m.start, m.end),
            None => sel,
        };
        let v = to_chars(self.content.as_str());
        let n = str_byte_len(self.content.as_str());
        proof {
            lemma_byte_at_len(v@);
        }
        crate::utf::boundary_at(&v, x) && crate::utf::boundary_at(&v, y)
    }

    /// Compute the edit range as offsets.
    fn resolve_range(&self, range_utf16: &Option<Range<usize>>) -> (r: Range<usize>)
        ensures
            pair(r) == self.edit_range(*range_utf16),
    {
        match range_utf16 {
            Some(u) => self.range_from_utf16(u),
            None => match &self.marked_range {
                Some(m) => m.start..m.end,
                None => self.selected_range.start..self.selected_range.end,
            },
        }
    }

    /// `content[..a] + text + content[b..]`.
    fn spliced_content(&self, a: usize, b: usize, text: &str) -> (r: String)
        requires
            is_boundary(self.content@, a as int),
            is_boundary(self.content@, b as int),
        ensures
            r@ == splice(self.content@, a as int, b as int, text@),
    {
        let v = to_chars(self.content.as_str());
        let ka = index_of_offset(&v, a);
        let kb = index_of_offset(&v, b);
        let mut r = string_of(&v, 0, ka);
        r.append(text);
        let tail = string_of(&v, kb, v.len());
        r.append(tail.as_str());
        assert(v@.subrange(0, ka as int) == v@.take(ka as int));
        assert(v@.subrange(kb as int, v.len() as int) == v@.skip(kb as int));
        r
    }

    /// Replace the edit range with `new_text`; the cursor lands after it and the
    /// marked range is cleared.
    pub fn replace_text_in_range(&mut self, range_utf16: Option<Range<usize>>, new_text: &str)
        requires
            old(self).can_edit(range_utf16, new_text@),
        ensures
            final(self).content@ == old(self).edited(range_utf16, new_text@),
            pair(final(self).selected_range) == (
                old(self).edit_range(range_utf16).0 + byte_len(new_text@),
                old(self).edit_range(range_utf16).0 + byte_len(new_text@),
            ),
            final(self).selection_reversed == old(self).selection_reversed,
            final(self).marked_range is None,
    {
        let range = self.resolve_range(&range_utf16);
        let n = str_byte_len(new_text);
        self.content = self.spliced_content(range.start, range.end, new_text);
        self.selected_range = range.start + n..range.start + n;
        self.marked_range = None;
    }

    /// Replace the edit range with `new_text` and mark it (IME composition); the
    /// selection is the given UTF-16 range shifted into the edit, else after the text.
    pub fn replace_and_mark_text_in_range(
        &mut self,
        range_utf16: Option<Range<usize>>,
        new_text: &str,
        new_selected_range_utf16: Option<Range<usize>>,
    )
        requires
            old(self).can_edit(range_utf16, new_text@),
            new_selected_range_utf16 matches Some(r) ==> from_utf16(
                old(self).edited(range_utf16, new_text@),
                r.start as int,
            ) + old(self).edit_range(range_utf16).0 <= usize::MAX && from_utf16(
                old(self).edited(range_utf16, new_text@),
                r.end as int,
            ) + old(self).edit_range(range_utf16).1 <= usize::MAX,
        ensures
            final(self).content@ == old(self).edited(range_utf16, new_text@),
            match final(self).marked_range {
                Some(m) => byte_len(new_text@) > 0 && pair(m) == (
                    old(self).edit_range(range_utf16).0,
                    old(self).edit_range(range_utf16).0 + byte_len(new_text@),
                ),
                None => byte_len(new_text@) == 0,
            },
            pair(final(self).selected_range) == match new_selected_range_utf16 {
                Some(r) => (
                    from_utf16(old(self).edited(range_utf16, new_text@), r.start as int)
                        + old(self).edit_range(range_utf16).0,
                    from_utf16(old(self).edited(range_utf16, new_text@), r.end as int)
                        + old(self).edit_range(range_utf16).1,
                ),
                None => (
                    old(self).edit_range(range_utf16).0 + byte_len(new_text@),
                    old(self).edit_range(range_utf16).0 + byte_len(new_text@),
                ),
            },
            final(self).selection_reversed == old(self).selection_reversed,
    {
        let range = self.resolve_range(&range_utf16);
        let n = str_byte_len(new_text);
        self.content = self.spliced_content(range.start, range.end, new_text);
        self.marked_range = if n == 0 {
            None
        } else {
            Some(range.start..range.start + n)
        };
        self.selected_range = match &new_selected_range_utf16 {
            Some(r) => {
                let rr = self.range_from_utf16(r);
                rr.start + range.start..rr.end + range.end
            },
            None => range.start + n..range.start + n,
        };
    }

    /// The grapheme boundary before the cursor.
    pub open spec fn prev_grapheme(&self) -> int {
        last_below(
            grapheme_starts(self.content@),
            grapheme_starts(self.content@).len() as int,
            self.cursor(),
        )
    }

    /// The grapheme boundary after the cursor.
    pub open spec fn next_grapheme(&self) -> int {
        first_above(grapheme_starts(self.content@), 0, self.cursor(), byte_len(self.content@) as int)
    }

    /// Is the selection non-empty (`start < end`)?
    pub open spec fn has_selection(&self) -> bool {
        self.selected_range.start < self.selected_range.end
    }

    /// The selection a deletion towards `target` removes: the current one if it is
    /// non-empty, else the one from the cursor to `target`; `None` when the cursor is
    /// already at `target` (nothing to delete).
    pub open spec fn delete_plan(&self, target: int) -> Option<((int, int), bool)> {
        if self.has_selection() {
            Some((pair(self.selected_range), self.selection_reversed))
        } else if self.cursor() == target {
            None
        } else {
            Some(self.selected_to(target))
        }
    }

    /// The range a deletion with selection `sel` removes: the marked range if any.
    pub open spec fn removal_range(&self, sel: (int, int)) -> (int, int) {
        match self.marked_range {
            Some(m) => pair(m),
            None => sel,
        }
    }

    /// A deletion towards `target` only touches character boundaries.
    pub open spec fn can_delete_toward(&self, target: int) -> bool {
        self.delete_plan(target) matches Some((sel, _)) ==> is_boundary(
            self.content@,
            self.removal_range(sel).0,
        ) && is_boundary(self.content@, self.removal_range(sel).1)
    }

    /// What a deletion towards `target` leaves.
    pub open spec fn deleted_toward(&self, target: int, result: EditorBuffer) -> bool {
        match self.delete_plan(target) {
            None => result.content@ == self.content@ && result.selected_range == self.selected_range
                && result.selection_reversed == self.selection_reversed && result.marked_range
                == self.marked_range,
            Some((sel, rev)) => {
                let r = self.removal_range(sel);
                &&& result.content@ == splice(self.content@, r.0, r.1, Seq::empty())
                &&& pair(result.selected_range) == (r.0, r.0)
                &&& result.selection_reversed == rev
                &&& result.marked_range is None
            },
        }
    }

    fn delete_toward(&mut self, target: usize)
        requires
            old(self).can_delete_toward(target as int),
        ensures
            old(self).deleted_toward(target as int, *final(self)),
    {
        if !(self.selected_range.start < self.selected_range.end) {
            if self.cursor_offset() == target {
                return;
            }
            self.select_to(target);
        }
        proof {
            assert(byte_len(""@) == 0) by {
                reveal_strlit("");
                assert(""@ == Seq::<char>::empty());
            }
        }
        self.replace_text_in_range(None, "");
        proof {
            reveal_strlit("");
        }
    }

    /// Delete the selection, or the grapheme before the cursor.
    pub fn backspace(&mut self)
        requires
            old(self).can_delete_toward(old(self).prev_grapheme()),
        ensures
            old(self).deleted_toward(old(self).prev_grapheme(), *final(self)),
    {
        let prev = self.previous_boundary(self.cursor_offset());
        self.delete_toward(prev);
    }

    /// Delete the selection, or the grapheme after the cursor.
    pub fn delete(&mut self)
        requires
            old(self).can_delete_toward(old(self).next_grapheme()),
        ensures
            old(self).deleted_toward(old(self).next_grapheme(), *final(self)),
    {
        let next = self.next_boundary(self.cursor_offset());
        self.delete_toward(next);
    }

    /// Do the selection's ends and the marked range's ends fall on character
    /// boundaries?
    pub open spec fn well_placed(&self) -> bool {
        &&& is_boundary(self.content@, self.selected_range.start as int)
        &&& is_boundary(self.content@, self.selected_range.end as int)
        &&& self.marked_range matches Some(m) ==> is_boundary(self.content@, m.start as int) && is_boundary(
            self.content@,
            m.end as int,
        )
    }

    /// Backspace where what it removes lies on character boundaries; reports
    /// whether it did, leaving the buffer unchanged when not. On a buffer whose
    /// selection and marked text lie on boundaries it always goes ahead.
    pub fn try_backspace(&mut self) -> (r: bool)
        ensures
            r == old(self).can_delete_toward(old(self).prev_grapheme()),
            old(self).well_placed() ==> r,
            r ==> old(self).deleted_toward(old(self).prev_grapheme(), *final(self)),
            !r ==> *final(self) == *old(self),
    {
        let prev = self.previous_boundary(self.cursor_offset());
        if self.delete_allowed(prev) {
            self.backspace();
            true
        } else {
            false
        }
    }

    /// Delete forward where what it removes lies on character boundaries;
    /// reports whether it did, leaving the buffer unchanged when not. On a buffer
    /// whose selection and marked text lie on boundaries it always goes ahead.
    pub fn try_delete(&mut self) -> (r: bool)
        ensures
            r == old(self).can_delete_toward(old(self).next_grapheme()),
            old(self).well_placed() ==> r,
            r ==> old(self).deleted_toward(old(self).next_grapheme(), *final(self)),
            !r ==> *final(self) == *old(self),
    {
        let next = self.next_boundary(self.cursor_offset());
        if self.delete_allowed(next) {
            self.delete();
            true
        } else {
            false
        }
    }

    /// Insert a line break in place of the selection (or marked text).
    pub fn newline(&mut self)
        requires
            old(self).can_edit(None, seq!['\n']),
        ensures
            final(self).content@ == old(self).edited(None, seq!['\n']),
            pair(final(self).selected_range) == (
                old(self).edit_range(None).0 + 1,
                old(self).edit_range(None).0 + 1,
            ),
            final(self).marked_range is None,
    {
        proof {
            reveal_strlit("\n");
            assert("\n"@ == seq!['\n']);
            assert(seq!['\n'].drop_last() == Seq::<char>::empty());
            assert(seq!['\n'].last() == '\n');
            assert(byte_len(Seq::<char>::empty()) == 0);
            assert(('\n' as u32) == 10u32);
            assert(byte_len(seq!['\n']) == 1);
        }
        self.replace_text_in_range(None, "\n");
    }

    /// Insert pasted text in place of the selection (or marked text).
    pub fn paste(&mut self, text: &str)
        requires
            old(self).can_edit(None, text@),
        ensures
            final(self).content@ == old(self).edited(None, text@),
            pair(final(self).selected_range) == (
                old(self).edit_range(None).0 + byte_len(text@),
                old(self).edit_range(None).0 + byte_len(text@),
            ),
            final(self).marked_range is None,
    {
        self.replace_text_in_range(None, text);
    }

    /// The selected text, when the selection is non-empty.
    pub fn copy(&self) -> (r: Option<String>)
        requires
            self.has_selection() ==> range_on_boundaries(self.content@, self.selected_range),
        ensures
            match r {
                Some(t) => self.has_selection() && t@ == slice_bytes(
                    self.content@,
                    self.selected_range.start as int,
                    self.selected_range.end as int,
                ),
                None => !self.has_selection(),
            },
    {
        if self.selected_range.start < self.selected_range.end {
            Some(self.text_between(self.selected_range.start, self.selected_range.end))
        } else {
            None
        }
    }

    /// `&content[a..b]` as a fresh string.
    fn text_between(&self, a: usize, b: usize) -> (t: String)
        requires
            is_boundary(self.content@, a as int),
            is_boundary(self.content@, b as int),
            a <= b,
        ensures
            t@ == slice_bytes(self.content@, a as int, b as int),
    {
        let v = to_chars(self.content.as_str());
        let ka = index_of_offset(&v, a);
        let kb = index_of_offset(&v, b);
        proof {
            if kb < ka {
                lemma_byte_at_mono(v@, kb as int, ka as int);
            }
        }
        string_of(&v, ka, kb)
    }

    /// Remove the selected text (or the marked text, if any) and return the
    /// selected text, when the selection is non-empty.
    pub fn cut(&mut self) -> (r: Option<String>)
        requires
            old(self).has_selection() ==> range_on_boundaries(old(self).content@, old(self).selected_range)
                && is_boundary(old(self).content@, old(self).removal_range(pair(old(self).selected_range)).0)
                && is_boundary(old(self).content@, old(self).removal_range(pair(old(self).selected_range)).1),
        ensures
            match r {
                Some(t) => {
                    let rr = old(self).removal_range(pair(old(self).selected_range));
                    &&& old(self).has_selection()
                    &&& t@ == slice_bytes(
                        old(self).content@,
                        old(self).selected_range.start as int,
                        old(self).selected_range.end as int,
                    )
                    &&& final(self).content@ == splice(old(self).content@, rr.0, rr.1, Seq::empty())
                    &&& pair(final(self).selected_range) == (rr.0, rr.0)
                    &&& final(self).marked_range is None
                },
                None => !old(self).has_selection() && *final(self) == *old(self),
            },
    {
        if self.selected_range.start < self.selected_range.end {
            let t = self.text_between(self.selected_range.start, self.selected_range.end);
            proof {
                reveal_strlit("");
                assert(""@ == Seq::<char>::empty());
            }
            self.replace_text_in_range(None, "");
            Some(t)
        } else {
            None
        }
    }

    /// Move left: collapse a selection to its start, else to the previous grapheme.
    pub fn left(&mut self)
        ensures
            pair(final(self).selected_range) == if old(self).has_selection() {
                (old(self).selected_range.start as int, old(self).selected_range.start as int)
            } else {
                (old(self).prev_grapheme(), old(self).prev_grapheme())
            },
            !final(self).selection_reversed,
            final(self).content == old(self).content,
            final(self).marked_range == old(self).marked_range,
    {
        if !(self.selected_range.start < self.selected_range.end) {
            let p = self.previous_boundary(self.cursor_offset());
            self.move_to(p);
        } else {
            let s = self.selected_range.start;
            self.move_to(s);
        }
    }

    /// Move right: collapse a selection to its end, else to the next grapheme.
    pub fn right(&mut self)
        ensures
            pair(final(self).selected_range) == if old(self).has_selection() {
                (old(self).selected_range.end as int, old(self).selected_range.end as int)
            } else {
                (old(self).next_grapheme(), old(self).next_grapheme())
            },
            !final(self).selection_reversed,
            final(self).content == old(self).content,
            final(self).marked_range == old(self).marked_range,
    {
        if !(self.selected_range.start < self.selected_range.end) {
            let p = self.next_boundary(self.cursor_offset());
            self.move_to(p);
        } else {
            let e = self.selected_range.end;
            self.move_to(e);
        }
    }

    /// Extend the selection one grapheme to the left.
    pub fn select_left(&mut self)
        ensures
            (pair(final(self).selected_range), final(self).selection_reversed) == old(self).selected_to(
                old(self).prev_grapheme(),
            ),
            final(self).content == old(self).content,
            final(self).marked_range == old(self).marked_range,
    {
        let p = self.previous_boundary(self.cursor_offset());
        self.select_to(p);
    }

    /// Extend the selection one grapheme to the right.
    pub fn select_right(&mut self)
        ensures
            (pair(final(self).selected_range), final(self).selection_reversed) == old(self).selected_to(
                old(self).next_grapheme(),
            ),
            final(self).content == old(self).content,
            final(self).marked_range == old(self).marked_range,
    {
        let p = self.next_boundary(self.cursor_offset());
        self.select_to(p);
    }

    /// Select the whole text.
    pub fn select_all(&mut self)
        ensures
            pair(final(self).selected_range) == (0int, byte_len(old(self).content@) as int),
            !final(self).selection_reversed,
            final(self).content == old(self).content,
            final(self).marked_range == old(self).marked_range,
    {
        self.selection_reversed = false;
        let n = str_byte_len(self.content.as_str());
        self.selected_range = 0..n;
    }

    /// The line starts of the text, with their properties.
    pub fn starts(&self) -> (v: Vec<usize>)
        ensures
            ints(v@) == line_starts_of(self.content@),
            starts_ok(ints(v@), byte_len(self.content@) as int),
    {
        line_starts(self.content.as_str())
    }

    /// The selected columns of line `li`, for a selection `[a, b)` whose last line
    /// is `last`: from the selection start (or the line start) to the selection
    /// end on the last line (else the line end), clamped to the line.
    pub open spec fn segment_on(&self, a: int, b: int, li: int, last: int) -> (int, int) {
        let ss = line_starts_of(self.content@);
        let ll = line_len_of(ss, li, byte_len(self.content@) as int);
        let s = if a - ss[li] < 0 {
            0
        } else if a - ss[li] < ll {
            a - ss[li]
        } else {
            ll
        };
        let e = if li == last {
            if b - ss[li] < 0 {
                0
            } else if b - ss[li] < ll {
                b - ss[li]
            } else {
                ll
            }
        } else {
            ll
        };
        (s, e)
    }

    /// The non-empty selected segments `(line, start column, end column)` of
    /// lines `li..=last`.
    pub open spec fn segments_from(&self, a: int, b: int, li: int, last: int) -> Seq<(int, int, int)>
        decreases last + 1 - li,
    {
        if li > last || li < 0 {
            Seq::empty()
        } else {
            let (s, e) = self.segment_on(a, b, li, last);
            (if e > s {
                seq![(li, s, e)]
            } else {
                Seq::empty()
            }) + self.segments_from(a, b, li + 1, last)
        }
    }

    /// What the selection highlights, line by line.
    pub open spec fn selection_segments_spec(&self) -> Seq<(int, int, int)> {
        let ss = line_starts_of(self.content@);
        let a = self.selected_range.start as int;
        let b = self.selected_range.end as int;
        if a < b {
            self.segments_from(a, b, line_of(ss, a), line_of(ss, b))
        } else {
            Seq::empty()
        }
    }

    /// The selected columns of each line the selection covers, for painting:
    /// `(line, start column, end column)`, empty segments left out.
    pub fn selection_segments(&self) -> (r: Vec<(usize, usize, usize)>)
        ensures
            r@.map_values(|t: (usize, usize, usize)| (t.0 as int, t.1 as int, t.2 as int))
                == self.selection_segments_spec(),
    {
        let a = self.selected_range.start;
        let b = self.selected_range.end;
        let mut r: Vec<(usize, usize, usize)> = Vec::new();
        if a >= b {
            assert(r@.map_values(|t: (usize, usize, usize)| (t.0 as int, t.1 as int, t.2 as int))
                =~= Seq::<(int, int, int)>::empty());
            return r;
        }
        let starts = self.starts();
        let ghost ss = line_starts_of(self.content@);
        let (sl, _) = offset_to_line_col(starts.as_slice(), a);
        let (el, _) = offset_to_line_col(starts.as_slice(), b);
        let ghost all = self.segments_from(a as int, b as int, sl as int, el as int);
        let mut li = sl;
        while li <= el
            invariant
                sl <= li,
                li <= el + 1 || li == sl,
                el < starts@.len(),
                sl < starts@.len(),
                ints(starts@) == ss,
                ss == line_starts_of(self.content@),
                starts_ok(ints(starts@), byte_len(self.content@) as int),
                all == self.segments_from(a as int, b as int, sl as int, el as int),
                r@.map_values(|t: (usize, usize, usize)| (t.0 as int, t.1 as int, t.2 as int))
                    + self.segments_from(a as int, b as int, li as int, el as int) == all,
            decreases el + 1 - li,
        {
            let ls = starts[li];
            let ll = self.line_len(starts.as_slice(), li);
            let s = if a < ls { 0 } else if a - ls < ll { a - ls } else { ll };
            let e = if li == el {
                if b < ls { 0 } else if b - ls < ll { b - ls } else { ll }
            } else {
                ll
            };
            let ghost before = r@.map_values(|t: (usize, usize, usize)| (t.0 as int, t.1 as int, t.2 as int));
            assert((s as int, e as int) == self.segment_on(a as int, b as int, li as int, el as int));
            if e > s {
                r.push((li, s, e));
                assert(r@.map_values(|t: (usize, usize, usize)| (t.0 as int, t.1 as int, t.2 as int))
                    =~= before.push((li as int, s as int, e as int)));
            }
            assert(li < starts.len());
            li += 1;
        }
        proof {
            assert(self.segments_from(a as int, b as int, li as int, el as int) =~= Seq::<(int, int, int)>::empty());
        }
        r
    }

    /// The line the cursor is on.
    pub open spec fn cursor_line(&self) -> int {
        line_of(line_starts_of(self.content@), self.cursor())
    }

    /// Move to the start of the cursor's line.
    pub fn home(&mut self)
        ensures
            pair(final(self).selected_range) == (
                line_starts_of(old(self).content@)[old(self).cursor_line()],
                line_starts_of(old(self).content@)[old(self).cursor_line()],
            ),
            !final(self).selection_reversed,
            final(self).content == old(self).content,
            final(self).marked_range == old(self).marked_range,
    {
        let starts = self.starts();
        let (line, _) = offset_to_line_col(starts.as_slice(), self.cursor_offset());
        let o = starts[line];
        self.move_to(o);
    }

    /// Move to the end of the cursor's line (before its `'\n'`).
    pub fn end(&mut self)
        ensures
            ({
                let ss = line_starts_of(old(self).content@);
                let l = old(self).cursor_line();
                let o = ss[l] + line_len_of(ss, l, byte_len(old(self).content@) as int);
                pair(final(self).selected_range) == (o, o)
            }),
            !final(self).selection_reversed,
            final(self).content == old(self).content,
            final(self).marked_range == old(self).marked_range,
    {
        let starts = self.starts();
        let (line, _) = offset_to_line_col(starts.as_slice(), self.cursor_offset());
        let ll = self.line_len(starts.as_slice(), line);
        let _total = str_byte_len(self.content.as_str());
        proof {
            let ss = ints(starts@);
            if line < starts.len() - 1 {
                assert(ss[line as int] < ss[line + 1]);
                assert(ss[line + 1] <= ss.last());
            }
        }
        let o = starts[line] + ll;
        self.move_to(o);
    }

    /// Number of logical lines (one more than the number of `'\n'`).
    pub fn line_count(&self) -> (n: usize)
        ensures
            n == line_starts_of(self.content@).len(),
    {
        self.starts().len()
    }

    /// For vertical movement: the cursor's line and column, and the line to move to
    /// (one down, clamped to the last line, or one up, clamped to the first).
    pub fn vertical_target(&self, down: bool) -> (r: (usize, usize, usize))
        ensures
            r.0 == self.cursor_line(),
            r.1 == self.cursor() - line_starts_of(self.content@)[r.0 as int],
            r.2 == if down {
                if r.0 + 1 < line_starts_of(self.content@).len() {
                    r.0 + 1
                } else {
                    line_starts_of(self.content@).len() - 1
                }
            } else {
                if r.0 >= 1 {
                    r.0 - 1
                } else {
                    0
                }
            },
    {
        let starts = self.starts();
        let (line, col) = offset_to_line_col(starts.as_slice(), self.cursor_offset());
        let target = if down {
            if line < starts.len() - 1 {
                line + 1
            } else {
                starts.len() - 1
            }
        } else {
            if line >= 1 {
                line - 1
            } else {
                0
            }
        };
        (line, col, target)
    }

    /// The offset of column `col` on line `line`, clamped to the line's length.
    pub open spec fn at_line_col(&self, line: int, col: int) -> int {
        let ss = line_starts_of(self.content@);
        let ll = line_len_of(ss, line, byte_len(self.content@) as int);
        ss[line] + if col < ll {
            col
        } else {
            ll
        }
    }

    /// The offset at (line, column), the column clamped to the line.
    pub fn offset_in_line(&self, line: usize, col: usize) -> (r: usize)
        requires
            line < line_starts_of(self.content@).len(),
        ensures
            r == self.at_line_col(line as int, col as int),
    {
        let starts = self.starts();
        let ll = self.line_len(starts.as_slice(), line);
        let _total = str_byte_len(self.content.as_str());
        proof {
            let ss = ints(starts@);
            if line < starts.len() - 1 {
                assert(ss[line as int] < ss[line + 1]);
                assert(ss[line + 1] <= ss.last());
            }
        }
        let c = if col < ll {
            col
        } else {
            ll
        };
        starts[line] + c
    }

    /// Finish a vertical move onto `target` at the layout column `col`: move there,
    /// or extend the selection there.
    pub fn vertical_to(&mut self, target: usize, col: usize, extend: bool)
        requires
            target < line_starts_of(old(self).content@).len(),
        ensures
            extend ==> (pair(final(self).selected_range), final(self).selection_reversed) == old(
                self,
            ).selected_to(old(self).at_line_col(target as int, col as int)),
            !extend ==> pair(final(self).selected_range) == (
                old(self).at_line_col(target as int, col as int),
                old(self).at_line_col(target as int, col as int),
            ) && !final(self).selection_reversed,
            final(self).content == old(self).content,
            final(self).marked_range == old(self).marked_range,
    {
        let o = self.offset_in_line(target, col);
        if extend {
            self.select_to(o);
        } else {
            self.move_to(o);
        }
    }

    /// The text of a UTF-16 range, and the UTF-16 range it actually covers.
    pub fn text_for_range(&self, range_utf16: Range<usize>) -> (r: (String, Range<usize>))
        requires
            from_utf16(self.content@, range_utf16.start as int) <= from_utf16(
                self.content@,
                range_utf16.end as int,
            ),
        ensures
            ({
                let a = from_utf16(self.content@, range_utf16.start as int);
                let b = from_utf16(self.content@, range_utf16.end as int);
                &&& r.0@ == slice_bytes(self.content@, a, b)
                &&& pair(r.1) == (to_utf16(self.content@, a), to_utf16(self.content@, b))
            }),
    {
        let range = self.range_from_utf16(&range_utf16);
        proof {
            lemma_from_utf16_boundary(self.content@, range_utf16.start as int);
            lemma_from_utf16_boundary(self.content@, range_utf16.end as int);
        }
        let actual = self.range_to_utf16(&range);
        (self.text_between(range.start, range.end), actual)
    }

    /// The selection in UTF-16 offsets and its direction.
    pub fn selected_text_range(&self) -> (r: (Range<usize>, bool))
        ensures
            pair(r.0) == (
                to_utf16(self.content@, self.selected_range.start as int),
                to_utf16(self.content@, self.selected_range.end as int),
            ),
            r.1 == self.selection_reversed,
    {
        (self.range_to_utf16(&self.selected_range), self.selection_reversed)
    }

    /// The marked range in UTF-16 offsets.
    pub fn marked_text_range(&self) -> (r: Option<Range<usize>>)
        ensures
            match self.marked_range {
                Some(m) => r matches Some(u) && pair(u) == (
                    to_utf16(self.content@, m.start as int),
                    to_utf16(self.content@, m.end as int),
                ),
                None => r is None,
            },
    {
        match &self.marked_range {
            Some(m) => Some(self.range_to_utf16(m)),
            None => None,
        }
    }

    /// Forget the marked range.
    pub fn unmark_text(&mut self)
        ensures
            final(self).marked_range is None,
            final(self).content == old(self).content,
            final(self).selected_range == old(self).selected_range,
            final(self).selection_reversed == old(self).selection_reversed,
    {
        self.marked_range = None;
    }
}

/// Moving to column `col` of line `line` lands on that line (the line a byte
/// offset is found on, as `offset_to_line_col` finds it), `col` bytes past the
/// line's start when the line is that long, and at the line's end otherwise.
pub proof fn lemma_at_line_col(b: EditorBuffer, line: int, col: int)
    requires
        0 <= line < line_starts_of(b.content@).len(),
        0 <= col,
    ensures
        line_of(line_starts_of(b.content@), b.at_line_col(line, col)) == line,
        b.at_line_col(line, col) - line_starts_of(b.content@)[line] == if col <= line_len_of(
            line_starts_of(b.content@),
            line,
            byte_len(b.content@) as int,
        ) {
            col
        } else {
            line_len_of(line_starts_of(b.content@), line, byte_len(b.content@) as int)
        },
{
    let ss = line_starts_of(b.content@);
    let total = byte_len(b.content@) as int;
    lemma_line_starts_ok(b.content@);
    let ll = line_len_of(ss, line, total);
    if line + 1 < ss.len() {
        assert(ss[line] < ss[line + 1]);
    } else {
        assert(ss[line] <= ss.last());
    }
    assert(ll >= 0);
    let x = b.at_line_col(line, col);
    assert(ss[line] <= x <= ss[line] + ll);
    lemma_line_of(ss, x);
    let l = line_of(ss, x);
    if l < line {
        assert(ss[l + 1] <= ss[line]);
    }
    if l > line {
        assert(ss[line + 1] <= ss[l]);
    }
}

} // verus!
