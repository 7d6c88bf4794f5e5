//! Markdown text logic: frontmatter framing, titles, `[[wiki-links]]` and `#tags`.

use vstd::prelude::*;
use crate::note::string_views;
use crate::text::{
    is_alphanumeric, line_spans, lines_of, occurs_at, starts_with, string_of, to_chars, trim,
    trim_bounds, trim_start, trim_start_index, unicode_alphanumeric,
};

verus! {

/// The opening frontmatter delimiter `"---\n"`.
pub open spec fn fm_open() -> Seq<char> {
    seq!['-', '-', '-', '\n']
}

/// The closing frontmatter delimiter line `"\n---\n"`.
pub open spec fn fm_close() -> Seq<char> {
    seq!['\n', '-', '-', '-', '\n']
}

/// A closing delimiter that ends the input: `"\n---"`.
pub open spec fn fm_tail() -> Seq<char> {
    seq!['\n', '-', '-', '-']
}

/// The first position `>= k` where `p` occurs in `s`, or `-1`.
pub open spec fn find_first(s: Seq<char>, p: Seq<char>, k: int) -> int
    decreases s.len() + 1 - k,
{
    if k < 0 || k + p.len() > s.len() {
        -1
    } else if occurs_at(s, p, k) {
        k
    } else {
        find_first(s, p, k + 1)
    }
}

pub proof fn lemma_find_first(s: Seq<char>, p: Seq<char>, k: int)
    requires
        0 <= k,
    ensures
        find_first(s, p, k) == -1 || (k <= find_first(s, p, k) && occurs_at(s, p, find_first(s, p, k))),
        forall|m: int| k <= m && (find_first(s, p, k) == -1 || m < find_first(s, p, k)) ==> !occurs_at(s, p, m),
    decreases s.len() + 1 - k,
{
    if k + p.len() <= s.len() && !occurs_at(s, p, k) {
        lemma_find_first(s, p, k + 1);
    }
}

/// What `split_frontmatter` returns, over characters: the YAML block between a
/// leading `"---\n"` and the first `"\n---\n"` (its last newline kept) and the body
/// after it; a block closed by a final `"\n---"` with an empty body; otherwise no
/// block and the whole input.
pub open spec fn frontmatter_split(raw: Seq<char>) -> (Option<Seq<char>>, Seq<char>) {
    if !starts_with(raw, fm_open()) {
        (None, raw)
    } else {
        let rest = raw.skip(4);
        let e = find_first(rest, fm_close(), 0);
        if e >= 0 {
            (Some(rest.take(e + 1)), rest.skip(e + 5))
        } else if rest.len() >= 4 && rest.skip(rest.len() - 4) == fm_tail() {
            (Some(rest.take(rest.len() - 3)), Seq::empty())
        } else {
            (None, raw)
        }
    }
}

/// Split a leading `---\n ... \n---\n` YAML block from the body.
/// Returns `(Some(yaml_without_delimiters), body)` or `(None, whole_input)`.
pub fn split_frontmatter(raw: &str) -> (r: (Option<&str>, &str))
    ensures
        (match r.0 {
            Some(y) => Some(y@),
            None => None,
        }) == frontmatter_split(raw@).0,
        r.1@ == frontmatter_split(raw@).1,
{
    let v = to_chars(raw);
    let n = v.len();
    if !(n >= 4 && v[0] == '-' && v[1] == '-' && v[2] == '-' && v[3] == '\n') {
        proof {
            if starts_with(raw@, fm_open()) {
                assert(raw@.subrange(0, 4)[0] == raw@[0]);
                assert(raw@.subrange(0, 4)[1] == raw@[1]);
                assert(raw@.subrange(0, 4)[2] == raw@[2]);
                assert(raw@.subrange(0, 4)[3] == raw@[3]);
            }
        }
        return (None, raw);
    }
    assert(raw@.subrange(0, 4) == fm_open());
    let ghost rest = raw@.skip(4);
    // Search for "\n---\n" in the rest.
    let mut e: usize = 4;
    let mut found = false;
    while !found && e < n && n - e >= 5
        invariant
            4 <= e <= n,
            n == v.len(),
            v@ == raw@,
            rest == raw@.skip(4),
            found ==> n - e >= 5 && find_first(rest, fm_close(), 0) == e - 4,
            !found ==> find_first(rest, fm_close(), 0) == find_first(rest, fm_close(), e - 4),
        decreases n - e + (if found { 0int } else { 1int }),
    {
        if v[e] == '\n' && v[e + 1] == '-' && v[e + 2] == '-' && v[e + 3] == '-' && v[e + 4] == '\n' {
            found = true;
            assert(rest.subrange(e - 4, e - 4 + 5) == fm_close());
        } else {
            proof {
                if occurs_at(rest, fm_close(), e - 4) {
                    let w = rest.subrange(e - 4, e - 4 + 5);
                    assert(w[0] == v@[e as int] && w[1] == v@[e + 1] && w[2] == v@[e + 2]);
                    assert(w[3] == v@[e + 3] && w[4] == v@[e + 4]);
                }
            }
            e += 1;
        }
    }
    if found {
        let ghost k = (e - 4) as int;
        let yaml = raw.substring_char(4, e + 1);
        let body = raw.substring_char(e + 5, n);
        assert(yaml@ == rest.take(k + 1));
        assert(body@ == rest.skip(k + 5));
        return (Some(yaml), body);
    }
    assert(find_first(rest, fm_close(), 0) == -1);
    if n >= 8 && v[n - 4] == '\n' && v[n - 3] == '-' && v[n - 2] == '-' && v[n - 1] == '-' {
        assert(rest.skip(rest.len() - 4) == fm_tail());
        let yaml = raw.substring_char(4, n - 3);
        let body = raw.substring_char(n, n);
        assert(yaml@ == rest.take(rest.len() - 3));
        assert(body@ == Seq::<char>::empty());
        return (Some(yaml), body);
    }
    proof {
        if rest.len() >= 4 && rest.skip(rest.len() - 4) == fm_tail() {
            let t = rest.skip(rest.len() - 4);
            assert(t[0] == v@[n - 4] && t[1] == v@[n - 3] && t[2] == v@[n - 2] && t[3] == v@[n - 1]);
        }
    }
    (None, raw)
}


/// A `"# "` heading line with a non-blank heading text.
pub open spec fn is_h1_title(line: Seq<char>) -> bool {
    starts_with(line, seq!['#', ' ']) && trim(line.skip(2)).len() > 0
}

/// The first heading title among `ls[k..]`.
pub open spec fn first_h1(ls: Seq<Seq<char>>, k: int) -> Option<Seq<char>>
    decreases ls.len() - k,
{
    if k < 0 || k >= ls.len() {
        None
    } else if is_h1_title(ls[k]) {
        Some(trim(ls[k].skip(2)))
    } else {
        first_h1(ls, k + 1)
    }
}

/// The first non-blank line among `ls[k..]`, trimmed.
pub open spec fn first_nonblank(ls: Seq<Seq<char>>, k: int) -> Option<Seq<char>>
    decreases ls.len() - k,
{
    if k < 0 || k >= ls.len() {
        None
    } else if trim(ls[k]).len() > 0 {
        Some(trim(ls[k]))
    } else {
        first_nonblank(ls, k + 1)
    }
}

/// `"Untitled"`.
pub open spec fn untitled() -> Seq<char> {
    seq!['U', 'n', 't', 'i', 't', 'l', 'e', 'd']
}

/// The title of a note body: the first `# ` heading, else the first non-empty
/// line, else "Untitled" (each trimmed).
pub open spec fn title_of(body: Seq<char>) -> Seq<char> {
    match first_h1(lines_of(body), 0) {
        Some(t) => t,
        None => match first_nonblank(lines_of(body), 0) {
            Some(t) => t,
            None => untitled(),
        },
    }
}

/// A fresh `"Untitled"` string.
pub fn untitled_string() -> (r: String)
    ensures
        r@ == untitled(),
{
    let r = String::from_str("Untitled");
    proof {
        reveal_strlit("Untitled");
    }
    r
}

/// Title = first `# ` heading, else first non-empty line, else "Untitled".
pub fn derive_title(body: &str) -> (r: String)
    ensures
        r@ == title_of(body@),
{
    let v = to_chars(body);
    let spans = line_spans(&v);
    let ghost ls = lines_of(v@);
    let mut k: usize = 0;
    while k < spans.len()
        invariant
            v@ == body@,
            ls == lines_of(v@),
            spans.len() == ls.len(),
            k <= spans.len(),
            forall|j: int|
                #![trigger spans@[j]]
                0 <= j < spans.len() ==> spans@[j].0 <= spans@[j].1 <= v.len() && v@.subrange(
                    spans@[j].0 as int,
                    spans@[j].1 as int,
                ) == ls[j],
            first_h1(ls, 0) == first_h1(ls, k as int),
        decreases spans.len() - k,
    {
        let (a, b) = spans[k];
        let ghost line = ls[k as int];
        assert(v@.subrange(a as int, b as int) == line);
        if b - a >= 2 && v[a] == '#' && v[a + 1] == ' ' {
            assert(line.subrange(0, 2) == seq!['#', ' ']);
            assert(line.skip(2) == v@.subrange(a + 2, b as int));
            let (ta, tb) = trim_bounds(&v, a + 2, b);
            if ta < tb {
                return string_of(&v, ta, tb);
            }
        } else {
            proof {
                if starts_with(line, seq!['#', ' ']) {
                    assert(line.subrange(0, 2)[0] == line[0]);
                    assert(line.subrange(0, 2)[1] == line[1]);
                }
            }
        }
        k += 1;
    }
    let mut k: usize = 0;
    while k < spans.len()
        invariant
            v@ == body@,
            ls == lines_of(v@),
            spans.len() == ls.len(),
            k <= spans.len(),
            forall|j: int|
                #![trigger spans@[j]]
                0 <= j < spans.len() ==> spans@[j].0 <= spans@[j].1 <= v.len() && v@.subrange(
                    spans@[j].0 as int,
                    spans@[j].1 as int,
                ) == ls[j],
            first_h1(ls, 0) == None::<Seq<char>>,
            first_nonblank(ls, 0) == first_nonblank(ls, k as int),
        decreases spans.len() - k,
    {
        let (a, b) = spans[k];
        assert(v@.subrange(a as int, b as int) == ls[k as int]);
        let (ta, tb) = trim_bounds(&v, a, b);
        if ta < tb {
            return string_of(&v, ta, tb);
        }
        k += 1;
    }
    untitled_string()
}

/// The first position `>= k` where the two-character pattern `x y` starts, or `-1`.
pub open spec fn find_pair(s: Seq<char>, k: int, x: char, y: char) -> int
    decreases s.len() + 1 - k,
{
    if k < 0 || k + 2 > s.len() {
        -1
    } else if s[k] == x && s[k + 1] == y {
        k
    } else {
        find_pair(s, k + 1, x, y)
    }
}

pub proof fn lemma_find_pair(s: Seq<char>, k: int, x: char, y: char)
    requires
        0 <= k,
    ensures
        find_pair(s, k, x, y) == -1 || (k <= find_pair(s, k, x, y) && find_pair(s, k, x, y) + 2
            <= s.len()),
    decreases s.len() + 1 - k,
{
    if k + 2 <= s.len() && !(s[k] == x && s[k + 1] == y) {
        lemma_find_pair(s, k + 1, x, y);
    }
}

/// `acc` with `x` appended, unless `x` is empty or already present.
pub open spec fn add_unique(acc: Seq<Seq<char>>, x: Seq<char>) -> Seq<Seq<char>> {
    if x.len() > 0 && !acc.contains(x) {
        acc.push(x)
    } else {
        acc
    }
}

/// The `[[...]]` link texts of `s[i..]`, appended in order to `acc`, de-duplicated.
pub open spec fn links_from(s: Seq<char>, i: int, acc: Seq<Seq<char>>) -> Seq<Seq<char>>
    decreases s.len() - i,
{
    if i < 0 || i + 1 >= s.len() {
        acc
    } else if s[i] == '[' && s[i + 1] == '[' && find_pair(s, i + 2, ']', ']') >= 0 {
        let j = find_pair(s, i + 2, ']', ']');
        proof {
            lemma_find_pair(s, i + 2, ']', ']');
        }
        links_from(s, j + 2, add_unique(acc, trim(s.subrange(i + 2, j))))
    } else {
        links_from(s, i + 1, acc)
    }
}

/// No element is empty and none occurs twice.
pub open spec fn distinct_nonempty(xs: Seq<Seq<char>>) -> bool {
    &&& forall|k: int| 0 <= k < xs.len() ==> #[trigger] xs[k].len() > 0
    &&& forall|a: int, b: int| 0 <= a < b < xs.len() ==> xs[a] != xs[b]
}

pub proof fn lemma_add_unique(acc: Seq<Seq<char>>, x: Seq<char>)
    requires
        distinct_nonempty(acc),
    ensures
        distinct_nonempty(add_unique(acc, x)),
{
    if x.len() > 0 && !acc.contains(x) {
        let r = acc.push(x);
        assert forall|a: int, b: int| 0 <= a < b < r.len() implies r[a] != r[b] by {
            if b == acc.len() {
                assert(r[a] == acc[a]);
            }
        }
    }
}

/// Is there a string in `out` equal to `s`?
fn contains_string(out: &Vec<String>, s: &String) -> (r: bool)
    ensures
        r == string_views(out@).contains(s@),
{
    let mut k: usize = 0;
    while k < out.len()
        invariant
            k <= out.len(),
            forall|j: int| 0 <= j < k ==> out@[j]@ != s@,
        decreases out.len() - k,
    {
        if out[k] == *s {
            assert(string_views(out@)[k as int] == s@);
            return true;
        }
        k += 1;
    }
    proof {
        if string_views(out@).contains(s@) {
            let j = choose|j: int| 0 <= j < string_views(out@).len() && string_views(out@)[j] == s@;
            assert(out@[j]@ == s@);
        }
    }
    false
}

/// Push `x` onto `out` unless it is empty or already there.
fn push_unique(out: &mut Vec<String>, x: String)
    ensures
        string_views(final(out)@) == add_unique(string_views(old(out)@), x@),
{
    if !x.as_str().is_empty() && !contains_string(out, &x) {
        let ghost before = string_views(out@);
        out.push(x);
        assert(string_views(out@) == before.push(x@));
    }
}

/// Inner text of each `[[...]]`, in order, de-duplicated.
pub fn extract_links(body: &str) -> (out: Vec<String>)
    ensures
        string_views(out@) == links_from(body@, 0, Seq::empty()),
        distinct_nonempty(string_views(out@)),
{
    let v = to_chars(body);
    let n = v.len();
    let mut out: Vec<String> = Vec::new();
    let mut i: usize = 0;
    assert(string_views(out@) =~= Seq::<Seq<char>>::empty());
    while i < n && n - i > 1
        invariant
            v@ == body@,
            n == v.len(),
            i <= n,
            links_from(v@, 0, Seq::empty()) == links_from(v@, i as int, string_views(out@)),
            distinct_nonempty(string_views(out@)),
        decreases n - i,
    {
        if v[i] == '[' && v[i + 1] == '[' {
            let mut j = i + 2;
            while j < n && n - j > 1 && !(v[j] == ']' && v[j + 1] == ']')
                invariant
                    i + 2 <= j <= n,
                    n == v.len(),
                    find_pair(v@, i + 2, ']', ']') == find_pair(v@, j as int, ']', ']'),
                decreases n - j,
            {
                j += 1;
            }
            if j < n && n - j > 1 {
                let (ta, tb) = trim_bounds(&v, i + 2, j);
                let inner = string_of(&v, ta, tb);
                proof {
                    lemma_add_unique(string_views(out@), inner@);
                }
                push_unique(&mut out, inner);
                i = j + 2;
                continue;
            }
        }
        i += 1;
    }
    out
}


/// A character that may appear in a tag: alphanumeric, `-` or `_`.
pub open spec fn is_tag_char(c: char) -> bool {
    unicode_alphanumeric(c) || c == '-' || c == '_'
}

/// The end of the run of tag characters starting at `j`.
pub open spec fn tag_end(s: Seq<char>, j: int) -> int
    decreases s.len() - j,
{
    if j < 0 || j >= s.len() {
        s.len() as int
    } else if is_tag_char(s[j]) {
        tag_end(s, j + 1)
    } else {
        j
    }
}

pub proof fn lemma_tag_end(s: Seq<char>, j: int)
    requires
        0 <= j <= s.len(),
    ensures
        j <= tag_end(s, j) <= s.len(),
        forall|k: int| j <= k < tag_end(s, j) ==> is_tag_char(#[trigger] s[k]),
    decreases s.len() - j,
{
    if j < s.len() && is_tag_char(s[j]) {
        lemma_tag_end(s, j + 1);
    }
}

/// The `#tag`s of one line from position `i` on, appended to `acc`, de-duplicated.
pub open spec fn tags_in_line(s: Seq<char>, i: int, acc: Seq<Seq<char>>) -> Seq<Seq<char>>
    decreases s.len() - i,
{
    if i < 0 || i >= s.len() {
        acc
    } else if s[i] == '#' {
        let j = tag_end(s, i + 1);
        proof {
            lemma_tag_end(s, i + 1);
        }
        tags_in_line(
            s,
            j,
            if j > i + 1 {
                add_unique(acc, s.subrange(i + 1, j))
            } else {
                acc
            },
        )
    } else {
        tags_in_line(s, i + 1, acc)
    }
}

/// An ATX heading line (`"# "` after leading whitespace); its `#` is not a tag.
pub open spec fn is_heading_line(line: Seq<char>) -> bool {
    starts_with(trim_start(line), seq!['#', ' '])
}

/// The tags of the lines `ls[k..]`, appended to `acc`.
pub open spec fn tags_of_lines(ls: Seq<Seq<char>>, k: int, acc: Seq<Seq<char>>) -> Seq<Seq<char>>
    decreases ls.len() - k,
{
    if k < 0 || k >= ls.len() {
        acc
    } else if is_heading_line(ls[k]) {
        tags_of_lines(ls, k + 1, acc)
    } else {
        tags_of_lines(ls, k + 1, tags_in_line(ls[k], 0, acc))
    }
}

/// The tags of a note body, in order, de-duplicated, without the `#`.
pub open spec fn tags_of(body: Seq<char>) -> Seq<Seq<char>> {
    tags_of_lines(lines_of(body), 0, Seq::empty())
}

/// Scan the line `v[a..b]` for tags, appending new ones to `out`.
fn scan_tags_line(v: &Vec<char>, a: usize, b: usize, out: &mut Vec<String>)
    requires
        a <= b <= v.len(),
        distinct_nonempty(string_views(old(out)@)),
    ensures
        string_views(final(out)@) == tags_in_line(v@.subrange(a as int, b as int), 0, string_views(old(out)@)),
        distinct_nonempty(string_views(final(out)@)),
{
    let ghost line = v@.subrange(a as int, b as int);
    let mut i = a;
    while i < b
        invariant
            a <= i <= b <= v.len(),
            line == v@.subrange(a as int, b as int),
            tags_in_line(line, 0, string_views(old(out)@)) == tags_in_line(line, i - a, string_views(out@)),
            distinct_nonempty(string_views(out@)),
        decreases b - i,
    {
        if v[i] == '#' {
            let start = i + 1;
            let mut j = start;
            while j < b && (is_alphanumeric(v[j]) || v[j] == '-' || v[j] == '_')
                invariant
                    a < start <= j <= b <= v.len(),
                    line == v@.subrange(a as int, b as int),
                    tag_end(line, start - a) == tag_end(line, j - a),
                decreases b - j,
            {
                assert(line[j - a] == v@[j as int]);
                j += 1;
            }
            if j > start {
                let tag = string_of(v, start, j);
                assert(tag@ == line.subrange(start - a, j - a));
                proof {
                    lemma_add_unique(string_views(out@), tag@);
                }
                push_unique(out, tag);
            }
            i = j;
        } else {
            i += 1;
        }
    }
}

/// Each `#tag` (alphanumeric/`-`/`_`, not an ATX heading), de-duplicated, without the `#`.
pub fn extract_tags(body: &str) -> (out: Vec<String>)
    ensures
        string_views(out@) == tags_of(body@),
        distinct_nonempty(string_views(out@)),
{
    let v = to_chars(body);
    let spans = line_spans(&v);
    let ghost ls = lines_of(v@);
    let mut out: Vec<String> = Vec::new();
    assert(string_views(out@) =~= Seq::<Seq<char>>::empty());
    let mut k: usize = 0;
    while k < spans.len()
        invariant
            v@ == body@,
            ls == lines_of(v@),
            spans.len() == ls.len(),
            k <= spans.len(),
            forall|j: int|
                #![trigger spans@[j]]
                0 <= j < spans.len() ==> spans@[j].0 <= spans@[j].1 <= v.len() && v@.subrange(
                    spans@[j].0 as int,
                    spans@[j].1 as int,
                ) == ls[j],
            tags_of(body@) == tags_of_lines(ls, k as int, string_views(out@)),
            distinct_nonempty(string_views(out@)),
        decreases spans.len() - k,
    {
        let (a, b) = spans[k];
        let ghost line = ls[k as int];
        assert(v@.subrange(a as int, b as int) == line);
        let ts = trim_start_index(&v, a, b);
        let heading = b - ts >= 2 && v[ts] == '#' && v[ts + 1] == ' ';
        proof {
            let t = trim_start(line);
            assert(t == v@.subrange(ts as int, b as int));
            if heading {
                assert(t.subrange(0, 2) == seq!['#', ' ']);
            } else if starts_with(t, seq!['#', ' ']) {
                assert(t.subrange(0, 2)[0] == t[0]);
                assert(t.subrange(0, 2)[1] == t[1]);
            }
        }
        if !heading {
            scan_tags_line(&v, a, b, &mut out);
        }
        k += 1;
    }
    out
}


/// An ASCII letter or digit.
pub open spec fn is_ascii_alnum(c: char) -> bool {
    ('0' <= c && c <= '9') || ('a' <= c && c <= 'z') || ('A' <= c && c <= 'Z')
}

/// Among ASCII characters, the tag characters are exactly the letters, the
/// digits, `-` and `_`.
pub proof fn lemma_ascii_tag_chars(c: char)
    requires
        (c as u32) < 128,
    ensures
        is_tag_char(c) <==> (is_ascii_alnum(c) || c == '-' || c == '_'),
{
}

/// From `j` on, a text made only of tag characters runs to its end.
proof fn lemma_tag_end_all(s: Seq<char>, j: int)
    requires
        0 <= j <= s.len(),
        forall|k: int| j <= k < s.len() ==> is_tag_char(#[trigger] s[k]),
    ensures
        tag_end(s, j) == s.len(),
    decreases s.len() - j,
{
    if j < s.len() {
        lemma_tag_end_all(s, j + 1);
    }
}

/// A body that is one `#` and a run of ASCII letters and digits holds exactly
/// one tag: that run, digits included.
pub proof fn lemma_single_tag(t: Seq<char>)
    requires
        t.len() > 0,
        forall|i: int| 0 <= i < t.len() ==> is_ascii_alnum(#[trigger] t[i]),
    ensures
        tags_of(seq!['#'] + t) == seq![t],
{
    let s = seq!['#'] + t;
    assert forall|k: int| 0 <= k < s.len() implies #[trigger] s[k] != '\n' by {
        if k > 0 {
            assert(s[k] == t[k - 1]);
        }
    }
    crate::text::lemma_next_newline(s, 0);
    assert(crate::text::next_newline(s, 0) == s.len());
    assert(s.subrange(0, s.len() as int) == s);
    assert(lines_of(s) == seq![s]);
    assert(trim_start(s) == s);
    assert(!is_heading_line(s)) by {
        if starts_with(s, seq!['#', ' ']) {
            assert(s.subrange(0, 2)[1] == s[1]);
            assert(s[1] == t[0]);
        }
    }
    assert forall|k: int| 1 <= k < s.len() implies is_tag_char(#[trigger] s[k]) by {
        assert(s[k] == t[k - 1]);
    }
    lemma_tag_end_all(s, 1);
    assert(s.subrange(1, s.len() as int) == t);
    assert(add_unique(Seq::<Seq<char>>::empty(), t) == seq![t]);
    assert(tags_in_line(s, 0, Seq::empty()) == tags_in_line(s, s.len() as int, seq![t]));
    assert(tags_of_lines(seq![s], 0, Seq::empty()) == tags_of_lines(seq![s], 1, seq![t]));
}

} // verus!
