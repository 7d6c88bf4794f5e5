//! Vault logic: note files (frontmatter framing, reading parsed parts into notes),
//! file names and paths, and the ordering of a walked folder.

use vstd::prelude::*;
use crate::markdown::{derive_title, fm_close, fm_open, find_first, frontmatter_split, title_of};
use crate::note::{is_utc_stamp, now_rfc3339, string_views, Frontmatter, Note, NoteId, ulid_decode};
use crate::notebook::Notebook;
use crate::order::{char_key, is_stable_order};
use crate::text::{contains_pattern, occurs_at, starts_with};

verus! {

/// Why a vault operation failed. Paths are '/'-separated text.
#[derive(Clone, Debug)]
pub enum VaultError {
    /// Reading or writing `path` failed; `msg` is the system's message.
    Io { path: String, msg: String },
    /// Serialising the data for `path` failed.
    Serialize { path: String, msg: String },
}

impl VaultError {
    /// The error's message: `"io error reading {path}: {msg}"` or
    /// `"serialize error for {path}: {msg}"`.
    pub fn to_string(&self) -> (r: String)
        ensures
            r@ == (match self {
                VaultError::Io { path, msg } => "io error reading "@ + path@ + ": "@ + msg@,
                VaultError::Serialize { path, msg } => "serialize error for "@ + path@ + ": "@
                    + msg@,
            }),
    {
        match self {
            VaultError::Io { path, msg } => {
                let mut r = String::from_str("io error reading ");
                r.append(path.as_str());
                r.append(": ");
                r.append(msg.as_str());
                r
            },
            VaultError::Serialize { path, msg } => {
                let mut r = String::from_str("serialize error for ");
                r.append(path.as_str());
                r.append(": ");
                r.append(msg.as_str());
                r
            },
        }
    }
}

/// The frontmatter fields as parsed from a note's YAML block: every field may be
/// missing, so a partial or malformed block degrades gracefully.
#[derive(Clone, Debug)]
pub struct RawFrontmatter {
    pub id: Option<String>,
    pub created: Option<String>,
    pub updated: Option<String>,
    pub tags: Option<Vec<String>>,
    pub pinned: Option<bool>,
}

impl RawFrontmatter {
    /// A block with no fields (what an absent or unparsable block reads as).
    pub fn empty() -> (r: RawFrontmatter)
        ensures
            r.id is None,
            r.created is None,
            r.updated is None,
            r.tags is None,
            r.pinned is None,
    {
        RawFrontmatter { id: None, created: None, updated: None, tags: None, pinned: None }
    }
}

/// The id that a parsed `id` field decodes to, if any.
pub open spec fn parsed_id(id: Option<String>) -> Option<u128> {
    match id {
        Some(s) => ulid_decode(s@),
        None => None,
    }
}

/// A parsed text field, or a fresh clock stamp when it is missing.
pub open spec fn field_or_stamp(field: Option<String>, r: Seq<char>) -> bool {
    match field {
        Some(s) => r == s@,
        None => is_utc_stamp(r),
    }
}

/// The parsed tags, or none.
pub open spec fn parsed_tags(tags: Option<Vec<String>>) -> Seq<Seq<char>> {
    match tags {
        Some(v) => string_views(v@),
        None => Seq::empty(),
    }
}

/// The note that a file at `path` with body `body` and parsed frontmatter `parsed`
/// reads as. A missing or undecodable id gets a fresh one, missing stamps are
/// taken from the clock, missing tags are empty and `pinned` defaults to false.
pub fn note_from_parts(path: String, body: &str, parsed: RawFrontmatter) -> (r: Note)
    ensures
        r.path@ == path@,
        r.body@ == body@,
        r.title@ == title_of(body@),
        r.id == r.frontmatter.id,
        parsed_id(parsed.id) matches Some(v) ==> r.id.0 == v,
        field_or_stamp(parsed.created, r.frontmatter.created@),
        field_or_stamp(parsed.updated, r.frontmatter.updated@),
        string_views(r.frontmatter.tags@) == parsed_tags(parsed.tags),
        r.frontmatter.pinned == (match parsed.pinned {
            Some(b) => b,
            None => false,
        }),
{
    let id = match &parsed.id {
        Some(s) => match NoteId::from_str(s.as_str()) {
            Ok(id) => id,
            Err(_) => NoteId::new(),
        },
        None => NoteId::new(),
    };
    let created = match parsed.created {
        Some(c) => c,
        None => now_rfc3339(),
    };
    let updated = match parsed.updated {
        Some(u) => u,
        None => now_rfc3339(),
    };
    let tags = match parsed.tags {
        Some(t) => t,
        None => Vec::new(),
    };
    let pinned = match parsed.pinned {
        Some(b) => b,
        None => false,
    };
    let title = derive_title(body);
    let frontmatter = Frontmatter { id, created, updated, tags, pinned };
    proof {
        assert(string_views(Seq::<String>::empty()) == Seq::<Seq<char>>::empty());
    }
    Note { id, path, title, frontmatter, body: String::from_str(body) }
}

/// The frontmatter to write for `note`: its own, with `updated` stamped now.
pub fn stamped_frontmatter(note: &Note) -> (r: Frontmatter)
    ensures
        r.id == note.frontmatter.id,
        r.created@ == note.frontmatter.created@,
        is_utc_stamp(r.updated@),
        string_views(r.tags@) == string_views(note.frontmatter.tags@),
        r.pinned == note.frontmatter.pinned,
{
    let mut fm = note.frontmatter.copy();
    fm.updated = now_rfc3339();
    fm
}

/// The line `"---\n"` that closes a frontmatter block after its last newline.
pub open spec fn fm_rule() -> Seq<char> {
    seq!['-', '-', '-', '\n']
}

/// The text of a note file: the YAML block between `---` lines, then the body.
pub open spec fn file_text(yaml: Seq<char>, body: Seq<char>) -> Seq<char> {
    fm_open() + yaml + fm_rule() + body
}

/// `"---\n{yaml}---\n{body}"`: a note file with a leading YAML block.
pub fn note_file_contents(yaml: &str, body: &str) -> (r: String)
    ensures
        r@ == file_text(yaml@, body@),
{
    let mut r = String::from_str("---\n");
    r.append(yaml);
    r.append("---\n");
    r.append(body);
    proof {
        reveal_strlit("---\n");
        assert("---\n"@ == fm_open());
        assert("---\n"@ == fm_rule());
    }
    r
}

proof fn lemma_find_first_at(s: Seq<char>, p: Seq<char>, k: int, t: int)
    requires
        0 <= k <= t,
        occurs_at(s, p, t),
        forall|m: int| k <= m < t ==> !occurs_at(s, p, m),
    ensures
        find_first(s, p, k) == t,
    decreases t - k,
{
    if k < t {
        lemma_find_first_at(s, p, k + 1, t);
    }
}

/// Framing a YAML block with `file_text` and splitting the file again gives the
/// block and the body back, for every block that ends with a newline and holds no
/// `"\n---\n"` line of its own (as a serialised frontmatter does).
pub proof fn lemma_file_text_splits(yaml: Seq<char>, body: Seq<char>)
    requires
        yaml.len() > 0,
        yaml.last() == '\n',
        !contains_pattern(yaml, fm_close()),
    ensures
        frontmatter_split(file_text(yaml, body)) == (Some(yaml), body),
{
    let c = file_text(yaml, body);
    let rest = c.skip(4);
    let n = yaml.len() as int;
    assert(c.subrange(0, 4) == fm_open());
    assert(starts_with(c, fm_open()));
    assert(rest == yaml + fm_rule() + body);
    assert(rest.subrange(n - 1, n + 4) == fm_close());
    assert forall|m: int| 0 <= m < n - 1 implies !occurs_at(rest, fm_close(), m) by {
        if occurs_at(rest, fm_close(), m) {
            if m + 5 <= n {
                assert(yaml.subrange(m, m + 5) == rest.subrange(m, m + 5));
                assert(occurs_at(yaml, fm_close(), m));
            } else {
                let o = n - 1 - m;
                assert(rest.subrange(m, m + 5)[o] == rest[n - 1]);
                assert(rest[n - 1] == yaml[n - 1]);
            }
        }
    }
    lemma_find_first_at(rest, fm_close(), 0, n - 1);
    assert(rest.take(n) == yaml);
    assert(rest.skip(n + 4) == body);
}

/// The position of the last `c` in `s`, or `-1`.
pub open spec fn last_index(s: Seq<char>, c: char) -> int
    decreases s.len(),
{
    if s.len() == 0 {
        -1
    } else if s.last() == c {
        s.len() - 1
    } else {
        last_index(s.drop_last(), c)
    }
}

proof fn lemma_last_index(s: Seq<char>, c: char)
    ensures
        -1 <= last_index(s, c) < s.len(),
        last_index(s, c) >= 0 ==> s[last_index(s, c)] == c,
        forall|j: int| last_index(s, c) < j < s.len() ==> s[j] != c,
    decreases s.len(),
{
    if s.len() > 0 && s.last() != c {
        lemma_last_index(s.drop_last(), c);
        assert forall|j: int| last_index(s, c) < j < s.len() implies s[j] != c by {
            if j < s.len() - 1 {
                assert(s.drop_last()[j] == s[j]);
            }
        }
    }
}

/// Where the body of a path starts, as std's `Path` reads it on Unix: after a
/// leading root `/`, or after a leading `.` component; at 0 otherwise.
pub open spec fn body_start(p: Seq<char>) -> int {
    if p.len() > 0 && p[0] == '/' {
        1
    } else if p.len() > 0 && p[0] == '.' && (p.len() == 1 || p[1] == '/') {
        1
    } else {
        0
    }
}

/// A path text without its trailing separators and trailing `.` components,
/// never cut below its first `bs` characters (how `Path` trims the end).
pub open spec fn trim_path_end(q: Seq<char>, bs: int) -> Seq<char>
    decreases q.len(),
{
    if q.len() <= bs || q.len() == 0 {
        q
    } else if q.last() == '/' || (q.last() == '.' && (q.len() == 1 || q[q.len() - 2] == '/')) {
        trim_path_end(q.drop_last(), bs)
    } else {
        q
    }
}

/// The path without trailing separators and `.` components.
pub open spec fn path_trimmed(p: Seq<char>) -> Seq<char> {
    trim_path_end(p, body_start(p))
}

/// Where the last component of the trimmed path starts.
pub open spec fn last_comp_start(p: Seq<char>) -> int {
    last_index(path_trimmed(p), '/') + 1
}

/// `Path::file_name`: the last component when it is a normal one; none for an
/// empty path, a bare root or `.`, or a path ending in `..`. Repeated and
/// trailing separators and `.` components do not count.
pub open spec fn path_file_name(p: Seq<char>) -> Option<Seq<char>> {
    let q = path_trimmed(p);
    let name = q.skip(last_comp_start(p));
    if q.len() <= body_start(p) || name == seq!['.', '.'] {
        None
    } else {
        Some(name)
    }
}

/// `Path::parent` of a path that has a file name: the path without its last
/// component, trimmed the same way.
pub open spec fn path_parent(p: Seq<char>) -> Seq<char> {
    trim_path_end(path_trimmed(p).take(last_comp_start(p)), body_start(p))
}

/// `PathBuf::push` of a relative name: joined with a `/`, unless the path is
/// empty or already ends in one.
pub open spec fn path_push(base: Seq<char>, name: Seq<char>) -> Seq<char> {
    if base.len() > 0 && base.last() != '/' {
        base + seq!['/'] + name
    } else {
        base + name
    }
}

/// `Path::with_file_name`: the file name replaced by `name`, or `name` pushed
/// onto a path that has none.
pub open spec fn path_with_file_name(p: Seq<char>, name: Seq<char>) -> Seq<char> {
    match path_file_name(p) {
        Some(_) => path_push(path_parent(p), name),
        None => path_push(p, name),
    }
}

/// Where the first `/` of `s` is, or `s.len()` when it has none.
pub open spec fn first_slash(s: Seq<char>) -> int
    decreases s.len(),
{
    if s.len() == 0 {
        0
    } else if s[0] == '/' {
        0
    } else {
        1 + first_slash(s.drop_first())
    }
}

/// Where the first `/` lies: within the text, on a `/`, with none before it.
pub proof fn lemma_first_slash(s: Seq<char>)
    ensures
        0 <= first_slash(s) <= s.len(),
        first_slash(s) < s.len() ==> s[first_slash(s)] == '/',
        forall|i: int| 0 <= i < first_slash(s) ==> s[i] != '/',
    decreases s.len(),
{
    if s.len() > 0 && s[0] != '/' {
        lemma_first_slash(s.drop_first());
        assert forall|i: int| 0 <= i < first_slash(s) implies s[i] != '/' by {
            if i > 0 {
                assert(s.drop_first()[i - 1] == s[i]);
            }
        }
    }
}

/// The parts of a path text between separators, leaving out empty and `.`
/// parts (as `Path::components` does past its start).
pub open spec fn path_parts(s: Seq<char>) -> Seq<Seq<char>>
    decreases s.len(),
{
    if s.len() == 0 {
        Seq::empty()
    } else {
        proof {
            lemma_first_slash(s);
        }
        let i = first_slash(s);
        let piece = s.take(i);
        let head = if piece.len() == 0 || piece == seq!['.'] {
            Seq::<Seq<char>>::empty()
        } else {
            seq![piece]
        };
        if i >= s.len() {
            head
        } else {
            head + path_parts(s.skip(i + 1))
        }
    }
}

/// The components of a path as `Path::components` gives them on Unix: `/` for a
/// leading root, `.` for a leading current-directory component, then each part
/// between separators (`..` included), without empty and `.` parts. Two paths
/// are equal as `Path`s exactly when their components are.
pub open spec fn path_components(p: Seq<char>) -> Seq<Seq<char>> {
    let head = if p.len() > 0 && p[0] == '/' {
        seq![seq!['/']]
    } else if body_start(p) == 1 {
        seq![seq!['.']]
    } else {
        Seq::empty()
    };
    head + path_parts(p.skip(body_start(p)))
}

/// `Path::starts_with`: the components of `base` begin those of `p`.
pub open spec fn path_starts_with(p: Seq<char>, base: Seq<char>) -> bool {
    let a = path_components(p);
    let b = path_components(base);
    b.len() <= a.len() && a.take(b.len() as int) == b
}

/// The texts of a list of character vectors.
pub open spec fn char_vecs(v: Seq<Vec<char>>) -> Seq<Seq<char>> {
    v.map_values(|x: Vec<char>| x@)
}

/// The components of a path (exec form).
fn components_of(v: &Vec<char>) -> (r: Vec<Vec<char>>)
    ensures
        char_vecs(r@) == path_components(v@),
{
    let n = v.len();
    let bs = body_start_of(v);
    let mut out: Vec<Vec<char>> = Vec::new();
    if n > 0 && v[0] == '/' {
        let mut root: Vec<char> = Vec::new();
        root.push('/');
        out.push(root);
        assert(char_vecs(out@) == seq![seq!['/']]);
    } else if bs == 1 {
        let mut cur: Vec<char> = Vec::new();
        cur.push('.');
        out.push(cur);
        assert(char_vecs(out@) == seq![seq!['.']]);
    } else {
        assert(char_vecs(out@) == Seq::<Seq<char>>::empty());
    }
    let ghost head = char_vecs(out@);
    assert(path_components(v@) == head + path_parts(v@.skip(bs as int)));
    let mut k = bs;
    while k < n
        invariant
            bs <= k <= n == v.len(),
            char_vecs(out@) + path_parts(v@.skip(k as int)) == path_components(v@),
        decreases n - k,
    {
        let ghost rest = v@.skip(k as int);
        let mut j = k;
        while j < n && v[j] != '/'
            invariant
                k <= j <= n == v.len(),
                rest == v@.skip(k as int),
                forall|i: int| k <= i < j ==> v@[i] != '/',
            decreases n - j,
        {
            j += 1;
        }
        proof {
            lemma_first_slash(rest);
            assert forall|i: int| 0 <= i < j - k implies rest[i] != '/' by {
                assert(rest[i] == v@[k + i]);
            }
            if j < n {
                assert(rest[j - k] == '/');
            }
            assert(first_slash(rest) == j - k);
        }
        let mut piece: Vec<char> = Vec::new();
        let mut i = k;
        while i < j
            invariant
                k <= i <= j <= n == v.len(),
                piece@ == v@.subrange(k as int, i as int),
            decreases j - i,
        {
            piece.push(v[i]);
            i += 1;
        }
        assert(piece@ == rest.take(j - k));
        let skip = j == k || (j == k + 1 && v[k] == '.');
        proof {
            if piece@ == seq!['.'] {
                assert(piece@[0] == v@[k as int]);
            }
            if j == k + 1 && v@[k as int] == '.' {
                assert(piece@ == seq!['.']);
            }
        }
        let ghost before = char_vecs(out@);
        if !skip {
            out.push(piece);
            assert(char_vecs(out@) == before.push(rest.take(j - k)));
        }
        if j < n {
            assert(rest.skip(j - k + 1) == v@.skip(j + 1));
            k = j + 1;
        } else {
            k = n;
        }
    }
    assert(v@.skip(n as int) == Seq::<char>::empty());
    out
}

/// Equality of two character vectors.
fn same_char_vec(x: &Vec<char>, y: &Vec<char>) -> (r: bool)
    ensures
        r == (x@ == y@),
{
    if x.len() != y.len() {
        return false;
    }
    let mut k: usize = 0;
    while k < x.len()
        invariant
            k <= x.len() == y.len(),
            forall|j: int| 0 <= j < k ==> x@[j] == y@[j],
        decreases x.len() - k,
    {
        if x[k] != y[k] {
            return false;
        }
        k += 1;
    }
    assert(x@ =~= y@);
    true
}

/// Do the first `m` components of `a` and `b` agree?
fn same_prefix(a: &Vec<Vec<char>>, b: &Vec<Vec<char>>, m: usize) -> (r: bool)
    requires
        m <= a.len(),
        m <= b.len(),
    ensures
        r == (char_vecs(a@).take(m as int) == char_vecs(b@).take(m as int)),
{
    let mut k: usize = 0;
    while k < m
        invariant
            k <= m <= a.len(),
            m <= b.len(),
            char_vecs(a@).take(k as int) == char_vecs(b@).take(k as int),
        decreases m - k,
    {
        if !same_char_vec(&a[k], &b[k]) {
            proof {
                assert(char_vecs(a@).take(m as int)[k as int] == a@[k as int]@);
                assert(char_vecs(b@).take(m as int)[k as int] == b@[k as int]@);
            }
            return false;
        }
        assert(char_vecs(a@).take(k + 1) == char_vecs(a@).take(k as int).push(a@[k as int]@));
        assert(char_vecs(b@).take(k + 1) == char_vecs(b@).take(k as int).push(b@[k as int]@));
        k += 1;
    }
    true
}

/// Are two paths equal as `Path`s (component by component)?
pub fn same_path(a: &str, b: &str) -> (r: bool)
    ensures
        r == (path_components(a@) == path_components(b@)),
{
    let x = components_of(&crate::text::to_chars(a));
    let y = components_of(&crate::text::to_chars(b));
    if x.len() != y.len() {
        return false;
    }
    let r = same_prefix(&x, &y, x.len());
    assert(char_vecs(x@).take(x.len() as int) == char_vecs(x@));
    assert(char_vecs(y@).take(y.len() as int) == char_vecs(y@));
    r
}

/// Does `p` start with the components of `base` (`Path::starts_with`)?
pub fn starts_with_path(p: &str, base: &str) -> (r: bool)
    ensures
        r == path_starts_with(p@, base@),
{
    let x = components_of(&crate::text::to_chars(p));
    let y = components_of(&crate::text::to_chars(base));
    if y.len() > x.len() {
        return false;
    }
    let r = same_prefix(&x, &y, y.len());
    assert(char_vecs(y@).take(y.len() as int) == char_vecs(y@));
    r
}

/// The stem of a file name (`Path::file_stem`): the text before its last '.',
/// or the whole name when it has no '.' past its first character.
pub open spec fn stem_of(name: Seq<char>) -> Seq<char> {
    if last_index(name, '.') > 0 {
        name.take(last_index(name, '.'))
    } else {
        name
    }
}

/// `Path::file_stem`.
pub open spec fn path_file_stem(p: Seq<char>) -> Option<Seq<char>> {
    match path_file_name(p) {
        Some(n) => Some(stem_of(n)),
        None => None,
    }
}

/// Where a path's body starts (exec form).
fn body_start_of(v: &Vec<char>) -> (r: usize)
    ensures
        r == body_start(v@),
        r <= 1,
{
    if v.len() > 0 && v[0] == '/' {
        1
    } else if v.len() > 0 && v[0] == '.' && (v.len() == 1 || v[1] == '/') {
        1
    } else {
        0
    }
}

/// The length of `trim_path_end(v[..n], bs)` (exec form).
fn trim_end_len(v: &Vec<char>, bs: usize, n: usize) -> (m: usize)
    requires
        n <= v.len(),
    ensures
        m <= n,
        v@.take(m as int) == trim_path_end(v@.take(n as int), bs as int),
{
    let mut m = n;
    while m > bs && m > 0 && (v[m - 1] == '/' || (v[m - 1] == '.' && (m == 1 || v[m - 2] == '/')))
        invariant
            m <= n <= v.len(),
            trim_path_end(v@.take(n as int), bs as int) == trim_path_end(v@.take(m as int), bs as int),
        decreases m,
    {
        assert(v@.take(m as int).drop_last() == v@.take(m - 1));
        m -= 1;
    }
    m
}

/// The span `[a, b)` of a path's file name, if it has one: `a` starts the last
/// component and `b` ends the trimmed path.
fn file_name_span(v: &Vec<char>) -> (r: Option<(usize, usize)>)
    ensures
        match r {
            Some((a, b)) => {
                &&& a <= b <= v.len()
                &&& b == path_trimmed(v@).len()
                &&& a == last_comp_start(v@)
                &&& v@.take(b as int) == path_trimmed(v@)
                &&& path_file_name(v@) == Some(v@.subrange(a as int, b as int))
            },
            None => path_file_name(v@) is None,
        },
{
    let n = v.len();
    let bs = body_start_of(v);
    assert(v@.take(n as int) == v@);
    let b = trim_end_len(v, bs, n);
    let s = find_last(v, b, '/');
    let a = if s == b { 0 } else { s + 1 };
    let ghost q = v@.take(b as int);
    assert(a as int == last_comp_start(v@));
    assert(q.skip(a as int) == v@.subrange(a as int, b as int));
    if b <= bs || (b - a == 2 && v[a] == '.' && v[a + 1] == '.') {
        proof {
            if b > bs {
                assert(q.skip(a as int) == seq!['.', '.']);
            }
        }
        None
    } else {
        proof {
            if q.skip(a as int) == seq!['.', '.'] {
                assert(q.skip(a as int).len() == 2);
                assert(q.skip(a as int)[0] == v@[a as int]);
                assert(q.skip(a as int)[1] == v@[a + 1]);
            }
        }
        Some((a, b))
    }
}

/// Append `name` to `r` as `PathBuf::push` would (with a `/` between, unless `r`
/// is empty or ends in one).
fn push_component(r: &mut String, name: &str)
    ensures
        final(r)@ == path_push(old(r)@, name@),
{
    let v = crate::text::to_chars(r.as_str());
    if v.len() > 0 && v[v.len() - 1] != '/' {
        crate::text::push_char(r, '/');
    }
    r.append(name);
}

/// Last index of `c` in `v[0..n]`, or `n` when it does not occur (exec form).
fn find_last(v: &Vec<char>, n: usize, c: char) -> (r: usize)
    requires
        n <= v.len(),
    ensures
        r <= n,
        r == n ==> last_index(v@.take(n as int), c) == -1,
        r < n ==> last_index(v@.take(n as int), c) == r,
{
    let mut k = n;
    while k > 0 && v[k - 1] != c
        invariant
            k <= n <= v.len(),
            last_index(v@.take(n as int), c) == last_index(v@.take(k as int), c),
        decreases k,
    {
        assert(v@.take(k as int).drop_last() == v@.take(k - 1));
        k -= 1;
    }
    if k == 0 {
        assert(v@.take(0) == Seq::<char>::empty());
        n
    } else {
        k - 1
    }
}

/// The sibling path that keeps a conflicting version of a note: the file name
/// replaced by `<stem>.conflict-<stamp>.md` (`Path::with_file_name`), the stem
/// being the old file stem or `note` when the path has none. So `dir/inbox.md`
/// with stamp `S` gives `dir/inbox.conflict-S.md`.
pub open spec fn conflict_path_of(original: Seq<char>, stamp: Seq<char>) -> Seq<char> {
    let stem = match path_file_stem(original) {
        Some(s) => s,
        None => seq!['n', 'o', 't', 'e'],
    };
    path_with_file_name(original, stem + ".conflict-"@ + stamp + ".md"@)
}

/// The stem of a file name (exec form).
fn stem_text(name: &str) -> (r: String)
    ensures
        r@ == stem_of(name@),
{
    let nv = crate::text::to_chars(name);
    let m = nv.len();
    let d = find_last(&nv, m, '.');
    assert(nv@.take(m as int) == nv@);
    if d < m && d > 0 {
        crate::text::string_of(&nv, 0, d)
    } else {
        String::from_str(name)
    }
}

/// Sibling path for preserving a conflicting version, e.g.
/// `inbox.md` + `2026-...` → `inbox.conflict-2026-....md`.
pub fn conflict_path(original: &str, stamp: &str) -> (r: String)
    ensures
        r@ == conflict_path_of(original@, stamp@),
{
    let v = crate::text::to_chars(original);
    let n = v.len();
    assert(v@.take(n as int) == original@);
    let mut name = match file_name_span(&v) {
        Some((a, b)) => {
            let fname = crate::text::string_of(&v, a, b);
            stem_text(fname.as_str())
        },
        None => {
            proof {
                reveal_strlit("note");
            }
            String::from_str("note")
        },
    };
    assert(name@ == (match path_file_stem(original@) {
        Some(s) => s,
        None => seq!['n', 'o', 't', 'e'],
    }));
    name.append(".conflict-");
    name.append(stamp);
    name.append(".md");
    let mut r = match file_name_span(&v) {
        Some((a, b)) => {
            let bs = body_start_of(&v);
            let m = trim_end_len(&v, bs, a);
            assert(path_trimmed(original@).take(a as int) == v@.take(a as int));
            crate::text::string_of(&v, 0, m)
        },
        None => String::from_str(original),
    };
    push_component(&mut r, name.as_str());
    r
}

/// `c` in ASCII lower case (`char::to_ascii_lowercase`).
pub open spec fn ascii_lower(c: char) -> char {
    if 'A' <= c && c <= 'Z' {
        ((c as u32) + 32) as char
    } else {
        c
    }
}

fn to_ascii_lower(c: char) -> (r: char)
    ensures
        r == ascii_lower(c),
{
    if 'A' <= c && c <= 'Z' {
        let u = ((c as u32) + 32) as u8;
        u as char
    } else {
        c
    }
}

/// Each alphanumeric character lower-cased (ASCII), every other character `-`.
pub open spec fn slug_chars(s: Seq<char>) -> Seq<char> {
    s.map_values(|c: char| if crate::text::unicode_alphanumeric(c) { ascii_lower(c) } else { '-' })
}

/// The sequence without its leading `-`s.
pub open spec fn trim_dashes_start(s: Seq<char>) -> Seq<char>
    decreases s.len(),
{
    if s.len() > 0 && s[0] == '-' {
        trim_dashes_start(s.drop_first())
    } else {
        s
    }
}

/// The sequence without its trailing `-`s.
pub open spec fn trim_dashes_end(s: Seq<char>) -> Seq<char>
    decreases s.len(),
{
    if s.len() > 0 && s.last() == '-' {
        trim_dashes_end(s.drop_last())
    } else {
        s
    }
}

/// The file-name slug of a title: alphanumerics lower-cased, every other character
/// `-`, `-`s trimmed at both ends; `"untitled"` when nothing is left.
pub open spec fn slug_of(title: Seq<char>) -> Seq<char> {
    let t = trim_dashes_end(trim_dashes_start(slug_chars(title)));
    if t.len() == 0 {
        "untitled"@
    } else {
        t
    }
}

/// Turn a title into a filesystem-safe slug (alphanumerics, `-` for the rest).
pub fn slug(title: &str) -> (r: String)
    ensures
        r@ == slug_of(title@),
{
    let v = crate::text::to_chars(title);
    let mut w: Vec<char> = Vec::new();
    let mut k: usize = 0;
    while k < v.len()
        invariant
            k <= v.len(),
            w@ == slug_chars(v@.take(k as int)),
        decreases v.len() - k,
    {
        let c = v[k];
        let m = if crate::text::is_alphanumeric(c) { to_ascii_lower(c) } else { '-' };
        w.push(m);
        assert(slug_chars(v@.take(k + 1)) == slug_chars(v@.take(k as int)).push(m));
        k += 1;
    }
    assert(v@.take(v.len() as int) == v@);
    let n = w.len();
    let mut a: usize = 0;
    assert(w@.subrange(0, n as int) == w@);
    while a < n && w[a] == '-'
        invariant
            a <= n == w.len(),
            trim_dashes_start(w@) == trim_dashes_start(w@.subrange(a as int, n as int)),
        decreases n - a,
    {
        assert(w@.subrange(a as int, n as int).drop_first() == w@.subrange(a + 1, n as int));
        a += 1;
    }
    assert(w@.subrange(a as int, n as int) == trim_dashes_start(w@)) by {
        if a < n {
        }
    }
    let mut b: usize = n;
    while b > a && w[b - 1] == '-'
        invariant
            a <= b <= n == w.len(),
            trim_dashes_end(w@.subrange(a as int, n as int)) == trim_dashes_end(
                w@.subrange(a as int, b as int),
            ),
        decreases b - a,
    {
        assert(w@.subrange(a as int, b as int).drop_last() == w@.subrange(a as int, b - 1));
        b -= 1;
    }
    if a == b {
        proof {
            reveal_strlit("untitled");
        }
        String::from_str("untitled")
    } else {
        crate::text::string_of(&w, a, b)
    }
}

/// `name` inside the directory `dir` (`Path::join` for a relative name).
pub open spec fn join_path(dir: Seq<char>, name: Seq<char>) -> Seq<char> {
    if dir.len() == 0 || dir.last() == '/' {
        dir + name
    } else {
        dir + seq!['/'] + name
    }
}

/// Join a relative file name onto a directory path.
pub fn join(dir: &str, name: &str) -> (r: String)
    ensures
        r@ == join_path(dir@, name@),
{
    let v = crate::text::to_chars(dir);
    let mut r = String::from_str(dir);
    if v.len() > 0 && v[v.len() - 1] != '/' {
        crate::text::push_char(&mut r, '/');
    }
    r.append(name);
    r
}

/// The file a new note titled `title` is written to in `dir` when that name is free.
pub open spec fn primary_note_path_of(dir: Seq<char>, title: Seq<char>) -> Seq<char> {
    join_path(dir, slug_of(title) + ".md"@)
}

/// The file a new note titled `title` is written to when that name is taken: the
/// slug, a `-` and the note's id.
pub open spec fn fallback_note_path_of(dir: Seq<char>, title: Seq<char>, id: u128) -> Seq<char> {
    join_path(dir, slug_of(title) + seq!['-'] + crate::note::ulid_text(id) + ".md"@)
}

/// `dir/<slug>.md`, where a new note titled `title` goes when no file has that name.
pub fn primary_note_path(dir: &str, title: &str) -> (r: String)
    ensures
        r@ == primary_note_path_of(dir@, title@),
{
    let mut name = slug(title);
    name.append(".md");
    join(dir, name.as_str())
}

/// A new note titled `title` in `dir`, with a fresh id and creation time: its file
/// is `primary_note_path(dir, title)` unless a file of that name exists
/// (`primary_exists`), then `dir/<slug>-<id>.md`. Its body is `"# {title}\n"`.
pub fn create_note(dir: &str, title: &str, primary_exists: bool) -> (r: Note)
    ensures
        r.id == r.frontmatter.id,
        r.path@ == (if primary_exists {
            fallback_note_path_of(dir@, title@, r.id.0)
        } else {
            primary_note_path_of(dir@, title@)
        }),
        r.title@ == title@,
        r.body@ == "# "@ + title@ + "\n"@,
        is_utc_stamp(r.frontmatter.created@),
        r.frontmatter.updated@ == r.frontmatter.created@,
        r.frontmatter.tags@.len() == 0,
        !r.frontmatter.pinned,
{
    let id = NoteId::new();
    let now = now_rfc3339();
    let path = if primary_exists {
        let mut name = slug(title);
        name.append("-");
        let text = id.to_string();
        name.append(text.as_str());
        name.append(".md");
        proof {
            reveal_strlit("-");
        }
        join(dir, name.as_str())
    } else {
        primary_note_path(dir, title)
    };
    let mut body = String::from_str("# ");
    body.append(title);
    body.append("\n");
    let frontmatter = Frontmatter {
        id,
        created: now.clone(),
        updated: now,
        tags: Vec::new(),
        pinned: false,
    };
    Note { id, path, title: String::from_str(title), frontmatter, body }
}

/// What a directory entry of a vault is to the walk.
#[derive(Clone, Copy, Debug, PartialEq, Eq, Structural)]
pub enum EntryKind {
    /// A dotfile or dot-directory (such as `.silo`), or a file that is not Markdown.
    Skip,
    /// A sub-directory: walked in turn.
    Folder,
    /// A `.md` file: read as a note.
    NoteFile,
}

/// How the walk treats an entry named `name`.
pub open spec fn entry_kind_of(name: Seq<char>, is_dir: bool) -> EntryKind {
    if name.len() > 0 && name[0] == '.' {
        EntryKind::Skip
    } else if is_dir {
        EntryKind::Folder
    } else if name.len() >= 3 && name.skip(name.len() - 3) == ".md"@ {
        EntryKind::NoteFile
    } else {
        EntryKind::Skip
    }
}

/// Classify a directory entry: dotfiles (and the `.silo` directory) are skipped,
/// directories are walked, `.md` files are notes.
pub fn entry_kind(name: &str, is_dir: bool) -> (r: EntryKind)
    ensures
        r == entry_kind_of(name@, is_dir),
{
    let v = crate::text::to_chars(name);
    let n = v.len();
    proof {
        reveal_strlit(".md");
    }
    if n > 0 && v[0] == '.' {
        EntryKind::Skip
    } else if is_dir {
        EntryKind::Folder
    } else if n >= 3 && v[n - 3] == '.' && v[n - 2] == 'm' && v[n - 1] == 'd' {
        assert(name@.skip(n - 3) == ".md"@);
        EntryKind::NoteFile
    } else {
        proof {
            if n >= 3 && name@.skip(n - 3) == ".md"@ {
                assert(name@.skip(n - 3)[0] == name@[n - 3]);
                assert(name@.skip(n - 3)[1] == name@[n - 2]);
                assert(name@.skip(n - 3)[2] == name@[n - 1]);
            }
        }
        EntryKind::Skip
    }
}

/// The display name of a vault folder: its file name (`Path::file_name`), or
/// `"Vault"` when it has none.
pub open spec fn vault_name_of(root: Seq<char>) -> Seq<char> {
    match path_file_name(root) {
        Some(n) => n,
        None => "Vault"@,
    }
}

/// The display name of the vault at `root`.
pub fn vault_name(root: &str) -> (r: String)
    ensures
        r@ == vault_name_of(root@),
{
    let v = crate::text::to_chars(root);
    match file_name_span(&v) {
        Some((a, b)) => crate::text::string_of(&v, a, b),
        None => {
            proof {
                reveal_strlit("Vault");
            }
            String::from_str("Vault")
        },
    }
}

/// The Unicode lower case of a text (what `str::to_lowercase` returns).
pub uninterp spec fn unicode_lowercase(s: Seq<char>) -> Seq<char>;

/// Calls std `str::to_lowercase`; its result is the named `unicode_lowercase`.
#[verifier::external_body]
fn lowercase(s: &str) -> (r: String)
    ensures
        r@ == unicode_lowercase(s@),
{
    s.to_lowercase()
}

/// The folder that holds a note's children: its file path without `.md`.
pub open spec fn children_dir_of(p: Seq<char>) -> Seq<char> {
    if p.len() >= 3 && p.skip(p.len() - 3) == ".md"@ {
        p.take(p.len() - 3)
    } else {
        p
    }
}

/// The folder that holds the children of the note stored at `path`.
pub fn children_dir(path: &str) -> (r: String)
    ensures
        r@ == children_dir_of(path@),
{
    let v = crate::text::to_chars(path);
    let k = v.len();
    proof {
        reveal_strlit(".md");
    }
    assert(v@.subrange(0, k as int) == v@);
    if k >= 3 && v[k - 3] == '.' && v[k - 2] == 'm' && v[k - 1] == 'd' {
        assert(path@.skip(k - 3) == ".md"@);
        crate::text::string_of(&v, 0, k - 3)
    } else {
        proof {
            if k >= 3 && path@.skip(k - 3) == ".md"@ {
                assert(path@.skip(k - 3)[0] == path@[k - 3]);
                assert(path@.skip(k - 3)[1] == path@[k - 2]);
                assert(path@.skip(k - 3)[2] == path@[k - 1]);
            }
        }
        String::from_str(path)
    }
}

/// Sort keys of folders: their names.
pub open spec fn folder_keys(fs: Seq<Notebook>) -> Seq<Seq<u64>> {
    fs.map_values(|f: Notebook| char_key(f.name@))
}

/// Sort keys of notes: their lower-cased titles.
pub open spec fn note_keys(ns: Seq<Note>) -> Seq<Seq<u64>> {
    ns.map_values(|n: Note| char_key(unicode_lowercase(n.title@)))
}

/// The index of the first note whose children folder is `dir`, or -1: the note
/// that a walked folder at `dir` belongs to (`Foo.md` owns `Foo/`).
pub open spec fn owner_of(notes: Seq<Note>, dir: Seq<char>) -> int
    decreases notes.len(),
{
    if notes.len() == 0 {
        -1
    } else {
        let k = owner_of(notes.drop_last(), dir);
        if k >= 0 {
            k
        } else if children_dir_of(notes.last().path@) == dir {
            notes.len() - 1
        } else {
            -1
        }
    }
}

/// The children that walked folders bring to note `j`: those of every folder
/// that note `j` owns, in folder order.
pub open spec fn merged_children(folders: Seq<Notebook>, notes: Seq<Note>, j: int) -> Seq<Notebook>
    decreases folders.len(),
{
    if folders.len() == 0 {
        Seq::empty()
    } else {
        merged_children(folders.drop_last(), notes, j) + if owner_of(notes, folders.last().path@) == j {
            folders.last().children@
        } else {
            Seq::empty()
        }
    }
}

/// Which folders no note owns.
pub open spec fn unowned(folders: Seq<Notebook>, notes: Seq<Note>) -> Seq<bool> {
    Seq::new(folders.len(), |i: int| owner_of(notes, folders[i].path@) < 0)
}

/// The folders no note owns: each becomes a virtual node.
pub open spec fn virtual_folders(folders: Seq<Notebook>, notes: Seq<Note>) -> Seq<Notebook> {
    crate::order::kept(folders, unowned(folders, notes))
}

/// Is `node` the virtual node of folder `f`: named and placed as the folder,
/// with its children, and a placeholder note titled after it whose file would
/// be `<folder>.md`, with an empty body, stamped now, no tags, not pinned?
pub open spec fn is_virtual_node(node: Notebook, f: Notebook) -> bool {
    &&& node.name@ == f.name@
    &&& node.path@ == f.path@
    &&& node.is_virtual
    &&& node.children@ == f.children@
    &&& node.note matches Some(n) && {
        &&& n.title@ == f.name@
        &&& n.path@ == f.path@ + ".md"@
        &&& n.body@.len() == 0
        &&& n.id == n.frontmatter.id
        &&& is_utc_stamp(n.frontmatter.created@)
        &&& n.frontmatter.updated@ == n.frontmatter.created@
        &&& n.frontmatter.tags@.len() == 0
        &&& !n.frontmatter.pinned
    }
}

/// Is `node` the tree node of note `n` holding `children`?
pub open spec fn is_note_node_with(node: Notebook, n: Note, children: Seq<Notebook>) -> bool {
    &&& node.name@ == n.title@
    &&& node.path@ == children_dir_of(n.path@)
    &&& node.note == Some(n)
    &&& !node.is_virtual
    &&& node.children@ == children
}

/// The virtual node of a walked folder that has no note file of its own.
fn virtual_node(f: Notebook) -> (r: Notebook)
    ensures
        is_virtual_node(r, f),
{
    proof {
        reveal_strlit(".md");
    }
    let id = NoteId::new();
    let now = now_rfc3339();
    let mut path = f.path.clone();
    path.append(".md");
    let note = Note {
        id,
        path,
        title: f.name.clone(),
        frontmatter: Frontmatter { id, created: now.clone(), updated: now, tags: Vec::new(), pinned: false },
        body: String::new(),
    };
    Notebook { name: f.name, path: f.path, note: Some(note), is_virtual: true, children: f.children }
}

/// The tree node of a note holding `children`.
fn note_node_with(n: Note, children: Vec<Notebook>) -> (r: Notebook)
    ensures
        is_note_node_with(r, n, children@),
{
    let path = children_dir(n.path.as_str());
    Notebook { name: n.title.clone(), path, note: Some(n), is_virtual: false, children }
}


/// The note (by index) that owns the folder at `dir`, or `dirs.len()` when none
/// does; `dirs` holds the notes' children folders.
fn owner_index(dirs: &Vec<String>, dir: &str, notes: Ghost<Seq<Note>>) -> (r: usize)
    requires
        dirs.len() == notes@.len(),
        forall|j: int| 0 <= j < dirs.len() ==> #[trigger] dirs@[j]@ == children_dir_of(notes@[j].path@),
    ensures
        r <= dirs.len(),
        r == dirs.len() ==> owner_of(notes@, dir@) == -1,
        r < dirs.len() ==> owner_of(notes@, dir@) == r,
{
    let mut k: usize = 0;
    while k < dirs.len()
        invariant
            k <= dirs.len() == notes@.len(),
            forall|j: int| 0 <= j < dirs.len() ==> #[trigger] dirs@[j]@ == children_dir_of(notes@[j].path@),
            owner_of(notes@.take(k as int), dir@) == -1,
        decreases dirs.len() - k,
    {
        assert(notes@.take(k + 1).drop_last() == notes@.take(k as int));
        if crate::text::same_text(dirs[k].as_str(), dir) {
            proof {
                lemma_owner_prefix(notes@, dir@, k + 1);
            }
            return k;
        }
        k += 1;
    }
    assert(notes@.take(dirs.len() as int) =~= notes@);
    dirs.len()
}

/// Once a prefix of the notes has an owner, longer prefixes keep it.
proof fn lemma_owner_prefix(notes: Seq<Note>, dir: Seq<char>, k: int)
    requires
        0 <= k <= notes.len(),
        owner_of(notes.take(k), dir) >= 0,
    ensures
        owner_of(notes, dir) == owner_of(notes.take(k), dir),
    decreases notes.len() - k,
{
    if k < notes.len() {
        assert(notes.take(k + 1).drop_last() == notes.take(k));
        lemma_owner_prefix(notes, dir, k + 1);
    } else {
        assert(notes.take(k) == notes);
    }
}

/// A walked vault folder as a tree node: each `.md` file becomes a note node
/// that holds the children of its same-named folder (`Foo.md` with `Foo/`);
/// each sub-folder no note owns becomes a virtual node. The virtual nodes come
/// first, ordered by name, then the note nodes, ordered by lower-cased title;
/// equal keys keep the order the walk found them in.
pub fn assemble_vault(name: String, path: String, folders: Vec<Notebook>, notes: Vec<Note>) -> (r:
    Notebook)
    requires
        folders.len() + notes.len() <= usize::MAX,
    ensures
        r.name@ == name@,
        r.path@ == path@,
        r.note is None,
        !r.is_virtual,
        r.children.len() == virtual_folders(folders@, notes@).len() + notes.len(),
        exists|p: Seq<usize>|
            #![trigger is_stable_order(folder_keys(virtual_folders(folders@, notes@)), false, p)]
            is_stable_order(folder_keys(virtual_folders(folders@, notes@)), false, p) && forall|i: int|
                0 <= i < virtual_folders(folders@, notes@).len() ==> is_virtual_node(
                    r.children@[i],
                    virtual_folders(folders@, notes@)[#[trigger] p[i] as int],
                ),
        exists|q: Seq<usize>|
            #![trigger is_stable_order(note_keys(notes@), false, q)]
            is_stable_order(note_keys(notes@), false, q) && forall|i: int|
                0 <= i < notes.len() ==> is_note_node_with(
                    r.children@[virtual_folders(folders@, notes@).len() + i],
                    notes@[#[trigger] q[i] as int],
                    merged_children(folders@, notes@, q[i] as int),
                ),
{
    let ghost f0 = folders@;
    let ghost n0 = notes@;
    let nn = notes.len();
    // The children folder of each note.
    let mut dirs: Vec<String> = Vec::new();
    let mut k: usize = 0;
    while k < nn
        invariant
            k <= nn == notes.len(),
            notes@ == n0,
            dirs.len() == k,
            forall|j: int| 0 <= j < k ==> #[trigger] dirs@[j]@ == children_dir_of(n0[j].path@),
        decreases nn - k,
    {
        dirs.push(children_dir(notes[k].path.as_str()));
        k += 1;
    }
    // Hand each folder's children to the note that owns it; the rest become
    // virtual nodes.
    let mut acc: Vec<Vec<Notebook>> = Vec::new();
    let mut k: usize = 0;
    while k < nn
        invariant
            k <= nn,
            acc.len() == k,
            forall|j: int| 0 <= j < k ==> (#[trigger] acc@[j])@ == Seq::<Notebook>::empty(),
        decreases nn - k,
    {
        acc.push(Vec::new());
        k += 1;
    }
    let mut rf: Vec<Notebook> = Vec::new();
    let mut folders = folders;
    while folders.len() > 0
        invariant
            rf.len() + folders.len() == f0.len(),
            folders@ == f0.take(folders.len() as int),
            forall|j: int| 0 <= j < rf.len() ==> #[trigger] rf@[j] == f0[f0.len() - 1 - j],
        decreases folders.len(),
    {
        let f = folders.pop().unwrap();
        rf.push(f);
    }
    let ghost nf = f0.len();
    let mut vnodes: Vec<Notebook> = Vec::new();
    let mut i: usize = 0;
    while rf.len() > 0
        invariant
            i + rf.len() == nf == f0.len(),
            nf + nn <= usize::MAX,
            acc.len() == nn == n0.len() == dirs.len(),
            forall|j: int| 0 <= j < rf.len() ==> #[trigger] rf@[j] == f0[nf - 1 - j],
            forall|j: int| 0 <= j < nn ==> #[trigger] dirs@[j]@ == children_dir_of(n0[j].path@),
            forall|j: int| 0 <= j < nn ==> (#[trigger] acc@[j])@ == merged_children(f0.take(i as int), n0, j),
            vnodes.len() == virtual_folders(f0.take(i as int), n0).len(),
            forall|m: int|
                0 <= m < vnodes.len() ==> is_virtual_node(
                    #[trigger] vnodes@[m],
                    virtual_folders(f0.take(i as int), n0)[m],
                ),
        decreases rf.len(),
    {
        let f = rf.pop().unwrap();
        assert(f == f0[i as int]);
        let o = owner_index(&dirs, f.path.as_str(), Ghost(n0));
        let ghost pre = f0.take(i as int);
        let ghost post = f0.take(i + 1);
        assert(post.drop_last() == pre);
        assert(post.last() == f);
        assert(unowned(post, n0).drop_last() == unowned(pre, n0));
        if o < nn {
            let ghost before = acc@;
            let mut c = acc.remove(o);
            let mut fc = f.children;
            c.append(&mut fc);
            acc.insert(o, c);
            assert forall|j: int| 0 <= j < nn implies (#[trigger] acc@[j])@ == merged_children(post, n0, j) by {
                if j < o {
                    assert(acc@[j] == before[j]);
                } else if j > o {
                    assert(acc@[j] == before[j]);
                }
            }
            assert(virtual_folders(post, n0) == virtual_folders(pre, n0));
        } else {
            let ghost vbefore = vnodes@;
            vnodes.push(virtual_node(f));
            assert(virtual_folders(post, n0) == virtual_folders(pre, n0).push(f0[i as int]));
            assert forall|m: int|
                0 <= m < vnodes.len() implies is_virtual_node(
                #[trigger] vnodes@[m],
                virtual_folders(post, n0)[m],
            ) by {
                if m < vbefore.len() {
                    assert(vnodes@[m] == vbefore[m]);
                }
            }
        }
        i += 1;
    }
    assert(f0.take(nf as int) == f0);
    let ghost vf = virtual_folders(f0, n0);
    // Order the virtual nodes by name.
    let mut vkeys: Vec<Vec<u64>> = Vec::new();
    let mut k: usize = 0;
    while k < vnodes.len()
        invariant
            k <= vnodes.len() == vf.len(),
            vkeys.len() == k,
            forall|m: int| 0 <= m < vnodes.len() ==> is_virtual_node(#[trigger] vnodes@[m], vf[m]),
            forall|j: int| 0 <= j < k ==> #[trigger] vkeys@[j]@ == char_key(vf[j].name@),
        decreases vnodes.len() - k,
    {
        assert(is_virtual_node(vnodes@[k as int], vf[k as int]));
        vkeys.push(crate::order::key_of(vnodes[k].name.as_str()));
        k += 1;
    }
    assert(vkeys@.map_values(|x: Vec<u64>| x@) == folder_keys(vf));
    let vorder = crate::order::stable_order(&vkeys, false);
    // Order the notes by lower-cased title.
    let mut nkeys: Vec<Vec<u64>> = Vec::new();
    let mut k: usize = 0;
    while k < nn
        invariant
            k <= nn == notes.len(),
            notes@ == n0,
            nkeys.len() == k,
            forall|j: int| 0 <= j < k ==> #[trigger] nkeys@[j]@ == char_key(unicode_lowercase(n0[j].title@)),
        decreases nn - k,
    {
        let low = lowercase(notes[k].title.as_str());
        nkeys.push(crate::order::key_of(low.as_str()));
        k += 1;
    }
    assert(nkeys@.map_values(|x: Vec<u64>| x@) == note_keys(n0));
    let norder = crate::order::stable_order(&nkeys, false);
    proof {
        crate::order::lemma_stable_order_arrangement(folder_keys(vf), false, vorder@);
        crate::order::lemma_stable_order_arrangement(note_keys(n0), false, norder@);
    }
    let ghost vn0 = vnodes@;
    let mut children = crate::order::arrange(vnodes, &vorder);
    let ghost acc0 = acc@;
    let mut sorted_notes = crate::order::arrange(notes, &norder);
    let mut sorted_acc = crate::order::arrange(acc, &norder);
    let ghost fl = children.len();
    let mut rev: Vec<Notebook> = Vec::new();
    while sorted_notes.len() > 0
        invariant
            rev.len() + sorted_notes.len() == nn == n0.len(),
            sorted_acc.len() == sorted_notes.len(),
            norder.len() == nn,
            forall|i: int| 0 <= i < sorted_notes.len() ==> sorted_notes@[i] == n0[#[trigger] norder@[i] as int],
            forall|i: int| 0 <= i < sorted_acc.len() ==> sorted_acc@[i] == acc0[#[trigger] norder@[i] as int],
            forall|j: int| 0 <= j < rev.len() ==> is_note_node_with(
                #[trigger] rev@[j],
                n0[norder@[nn - 1 - j] as int],
                acc0[norder@[nn - 1 - j] as int]@,
            ),
        decreases sorted_notes.len(),
    {
        let n = sorted_notes.pop().unwrap();
        let c = sorted_acc.pop().unwrap();
        rev.push(note_node_with(n, c));
    }
    while rev.len() > 0
        invariant
            children.len() + rev.len() == fl + nn,
            fl == vf.len(),
            fl <= children.len(),
            vorder.len() == fl,
            norder.len() == nn,
            forall|i: int| 0 <= i < fl ==> children@[i] == vn0[#[trigger] vorder@[i] as int],
            forall|j: int| 0 <= j < rev.len() ==> is_note_node_with(
                #[trigger] rev@[j],
                n0[norder@[nn - 1 - j] as int],
                acc0[norder@[nn - 1 - j] as int]@,
            ),
            forall|i: int| fl <= i < children.len() ==> is_note_node_with(
                #[trigger] children@[i],
                n0[norder@[i - fl] as int],
                acc0[norder@[i - fl] as int]@,
            ),
        decreases rev.len(),
    {
        let node = rev.pop().unwrap();
        children.push(node);
    }
    let r = Notebook { name, path, note: None, is_virtual: false, children };
    assert(is_stable_order(folder_keys(vf), false, vorder@));
    assert(is_stable_order(note_keys(n0), false, norder@));
    assert forall|i: int| 0 <= i < fl implies is_virtual_node(r.children@[i], vf[#[trigger] vorder@[i] as int]) by {
        assert(r.children@[i] == vn0[vorder@[i] as int]);
    }
    assert forall|i: int| 0 <= i < nn implies is_note_node_with(
        r.children@[fl + i],
        n0[#[trigger] norder@[i] as int],
        merged_children(f0, n0, norder@[i] as int),
    ) by {
        assert(is_note_node_with(children@[fl + i], n0[norder@[fl + i - fl] as int], acc0[norder@[fl + i - fl] as int]@));
    }
    r
}

proof fn lemma_trim_dashes_start(s: Seq<char>)
    ensures
        trim_dashes_start(s).len() == 0 || trim_dashes_start(s)[0] != '-',
    decreases s.len(),
{
    if s.len() > 0 && s[0] == '-' {
        lemma_trim_dashes_start(s.drop_first());
    }
}

proof fn lemma_trim_dashes_end(s: Seq<char>)
    ensures
        trim_dashes_end(s).len() == 0 || trim_dashes_end(s).last() != '-',
        trim_dashes_end(s).len() <= s.len(),
        trim_dashes_end(s) == s.take(trim_dashes_end(s).len() as int),
    decreases s.len(),
{
    if s.len() > 0 && s.last() == '-' {
        lemma_trim_dashes_end(s.drop_last());
        let r = trim_dashes_end(s.drop_last());
        assert(s.drop_last().take(r.len() as int) == s.take(r.len() as int));
    } else {
        assert(s.take(s.len() as int) == s);
    }
}

/// A slug is never empty and neither starts nor ends with `-`.
pub proof fn lemma_slug_shape(title: Seq<char>)
    ensures
        slug_of(title).len() > 0,
        slug_of(title)[0] != '-',
        slug_of(title).last() != '-',
{
    let a = trim_dashes_start(slug_chars(title));
    lemma_trim_dashes_start(slug_chars(title));
    lemma_trim_dashes_end(a);
    let t = trim_dashes_end(a);
    if t.len() == 0 {
        reveal_strlit("untitled");
    } else {
        assert(t[0] == a[0]);
    }
}

/// An ASCII title that starts and ends with a letter or digit slugs character by
/// character: letters lower-cased, digits kept, every other character `-`.
pub proof fn lemma_ascii_slug(title: Seq<char>)
    requires
        title.len() > 0,
        forall|i: int| 0 <= i < title.len() ==> (#[trigger] title[i] as u32) < 128,
        crate::markdown::is_ascii_alnum(title[0]),
        crate::markdown::is_ascii_alnum(title.last()),
    ensures
        slug_of(title).len() == title.len(),
        forall|i: int|
            0 <= i < title.len() ==> #[trigger] slug_of(title)[i] == if 'A' <= title[i] && title[i] <= 'Z' {
                ((title[i] as u32) + 32) as char
            } else if crate::markdown::is_ascii_alnum(title[i]) {
                title[i]
            } else {
                '-'
            },
{
    let sc = slug_chars(title);
    assert(sc[0] != '-');
    assert(trim_dashes_start(sc) == sc);
    assert(sc.last() == sc[sc.len() - 1]);
    assert(sc[sc.len() - 1] != '-');
    assert(trim_dashes_end(sc) == sc);
}

} // verus!
