//! Note identity, frontmatter and notes.

use vstd::prelude::*;

verus! {

/// The library's version.
pub const VERSION: &'static str = "0.1.0";

/// Why a string is not a note id.
#[derive(Clone, Copy, Debug, PartialEq, Eq, Structural)]
pub enum IdError {
    /// The text is not 26 bytes long.
    InvalidLength,
    /// The text holds a character outside Crockford base32.
    InvalidChar,
}

/// The Crockford base32 digits, by value.
pub open spec fn ulid_alphabet() -> Seq<char> {
    seq![
        '0', '1', '2', '3', '4', '5', '6', '7', '8', '9', 'A', 'B', 'C', 'D', 'E', 'F',
        'G', 'H', 'J', 'K', 'M', 'N', 'P', 'Q', 'R', 'S', 'T', 'V', 'W', 'X', 'Y', 'Z',
    ]
}

/// The position of `c` among the first `n` characters of `s`, or -1.
pub open spec fn position_in(s: Seq<char>, n: int, c: char) -> int
    decreases n,
{
    if n <= 0 {
        -1
    } else if position_in(s, n - 1, c) >= 0 {
        position_in(s, n - 1, c)
    } else if s[n - 1] == c {
        n - 1
    } else {
        -1
    }
}

/// The value of a base32 digit, upper or lower case, or -1 for any other
/// character (`I`, `L`, `O` and `U` are no digits).
pub open spec fn ulid_digit_value(c: char) -> int {
    let u = if 'a' <= c && c <= 'z' {
        ((c as u32) - 32) as char
    } else {
        c
    };
    position_in(ulid_alphabet(), 32, u)
}

/// The number the digits of `s` write in base 32.
pub open spec fn ulid_number(s: Seq<char>) -> int
    decreases s.len(),
{
    if s.len() == 0 {
        0
    } else {
        ulid_number(s.drop_last()) * 32 + ulid_digit_value(s.last())
    }
}

/// The 26-character Crockford base32 text of a ULID value (`Ulid::to_string`):
/// its five-bit groups, most significant first.
pub open spec fn ulid_text(v: u128) -> Seq<char> {
    Seq::new(26, |i: int| ulid_alphabet()[(v as int / vstd::arithmetic::power::pow(32, (25 - i) as nat)) % 32])
}

/// The ULID value a text decodes to (`Ulid::from_string`): 26 base32 digits,
/// read most significant first, keeping the low 128 bits; none for any other
/// text.
pub open spec fn ulid_decode(s: Seq<char>) -> Option<u128> {
    if s.len() == 26 && forall|i: int| 0 <= i < 26 ==> ulid_digit_value(#[trigger] s[i]) >= 0 {
        Some((ulid_number(s) % 0x1_0000_0000_0000_0000_0000_0000_0000_0000int) as u128)
    } else {
        None
    }
}

/// Calls `ulid::Ulid::new`: a ULID from the current time and random bits. Nothing is
/// claimed of the value.
#[verifier::external_body]
fn fresh_ulid() -> (v: u128) {
    ulid::Ulid::new().0
}

/// Calls `ulid::Ulid::to_string` (base32 encoding of the 128-bit value). Claims: the
/// result is `ulid_text(v)` (`encode_to_array` writes the low five bits of the
/// value as the last digit, then shifts by five, 26 times), it is 26 characters
/// long, and decoding it gives `v` back (the decoder reads the digits in the same
/// order).
#[verifier::external_body]
fn ulid_to_string(v: u128) -> (r: String)
    ensures
        r@ == ulid_text(v),
        r@.len() == 26,
        ulid_decode(r@) == Some(v),
{
    ulid::Ulid(v).to_string()
}

/// Calls `ulid::Ulid::from_string`. Claims: it succeeds exactly when `ulid_decode`
/// has a value, with that value (`decode` looks each byte up in a table of the
/// digits in both cases and shifts the value left by five per digit, so bits past
/// 128 fall off); a text whose byte length is not 26 fails with `InvalidLength`.
/// Which error a 26-byte text gets is not stated.
#[verifier::external_body]
fn ulid_from_string(s: &str) -> (r: Result<u128, IdError>)
    ensures
        r.is_ok() == ulid_decode(s@).is_some(),
        r.is_ok() ==> ulid_decode(s@) == Some(r.unwrap()),
        s.len() != 26 ==> r.is_err() && r.unwrap_err() == IdError::InvalidLength,
{
    match ulid::Ulid::from_string(s) {
        Ok(u) => Ok(u.0),
        Err(ulid::DecodeError::InvalidLength) => Err(IdError::InvalidLength),
        Err(ulid::DecodeError::InvalidChar) => Err(IdError::InvalidChar),
    }
}

/// Stable, device-independent, time-sortable note identity (a ULID).
#[derive(Clone, Copy, PartialEq, Eq, Debug, Hash, Structural)]
pub struct NoteId(pub u128);

impl NoteId {
    /// A fresh id from the current time and randomness.
    pub fn new() -> (id: NoteId) {
        NoteId(fresh_ulid())
    }

    /// The canonical 26-character text of this id; parsing it gives the id back.
    pub fn to_string(&self) -> (r: String)
        ensures
            r@ == ulid_text(self.0),
            r@.len() == 26,
            ulid_decode(r@) == Some(self.0),
    {
        ulid_to_string(self.0)
    }

    /// Parse an id from its base32 text.
    pub fn from_str(s: &str) -> (r: Result<NoteId, IdError>)
        ensures
            r is Ok <==> ulid_decode(s@) is Some,
            r matches Ok(id) ==> ulid_decode(s@) == Some(id.0),
            s.len() != 26 ==> r == Err::<NoteId, IdError>(IdError::InvalidLength),
    {
        match ulid_from_string(s) {
            Ok(v) => Ok(NoteId(v)),
            Err(e) => Err(e),
        }
    }
}

/// An ASCII decimal digit.
pub open spec fn is_digit(c: char) -> bool {
    '0' <= c && c <= '9'
}

/// Two digits at `s[i]` and `s[i + 1]`, with their value between `lo` and `hi`.
pub open spec fn two_digits_at(s: Seq<char>, i: int, lo: int, hi: int) -> bool {
    &&& is_digit(s[i])
    &&& is_digit(s[i + 1])
    &&& lo <= (s[i] as int - '0' as int) * 10 + (s[i + 1] as int - '0' as int) <= hi
}

/// The year of an RFC 3339 stamp: four digits, or (outside 0 to 9999) a sign and at
/// least four digits.
pub open spec fn is_year_text(y: Seq<char>) -> bool {
    ||| y.len() == 4 && forall|i: int| 0 <= i < 4 ==> is_digit(#[trigger] y[i])
    ||| y.len() >= 5 && (y[0] == '+' || y[0] == '-') && forall|i: int| 1 <= i < y.len() ==> is_digit(#[trigger] y[i])
}

/// An RFC 3339 UTC time stamp in whole seconds, `YYYY-MM-DDTHH:MM:SSZ`: the year,
/// then month 01 to 12, day 01 to 31, hour 00 to 23, minute 00 to 59 and second
/// 00 to 60 (a leap second), and the `Z` of UTC.
pub open spec fn is_utc_stamp(s: Seq<char>) -> bool {
    let n = s.len() as int;
    &&& n >= 20
    &&& is_year_text(s.take(n - 16))
    &&& s[n - 16] == '-'
    &&& two_digits_at(s, n - 15, 1, 12)
    &&& s[n - 13] == '-'
    &&& two_digits_at(s, n - 12, 1, 31)
    &&& s[n - 10] == 'T'
    &&& two_digits_at(s, n - 9, 0, 23)
    &&& s[n - 7] == ':'
    &&& two_digits_at(s, n - 6, 0, 59)
    &&& s[n - 4] == ':'
    &&& two_digits_at(s, n - 3, 0, 60)
    &&& s[n - 1] == 'Z'
}

/// Calls `chrono::Utc::now().to_rfc3339_opts(SecondsFormat::Secs, true)`. The time is
/// the machine's, so which stamp comes back is not claimed; its shape is. chrono's
/// `write_rfc3339` writes the year (four digits for 0 to 9999, else signed with at
/// least four), then `-MM-DD`, `T`, `HH:MM:SS` (the second may be 60 in a leap
/// second), no fraction for `Secs`, and `Z` for a zero offset with `use_z`.
#[verifier::external_body]
pub fn now_rfc3339() -> (r: String)
    ensures
        is_utc_stamp(r@),
{
    chrono::Utc::now().to_rfc3339_opts(chrono::SecondsFormat::Secs, true)
}

/// The YAML frontmatter of a note.
#[derive(Clone, Debug)]
pub struct Frontmatter {
    pub id: NoteId,
    /// RFC3339 UTC.
    pub created: String,
    /// RFC3339 UTC.
    pub updated: String,
    pub tags: Vec<String>,
    pub pinned: bool,
}

/// A note: its file, title, frontmatter and Markdown body (frontmatter stripped).
#[derive(Clone, Debug)]
pub struct Note {
    pub id: NoteId,
    pub path: String,
    pub title: String,
    pub frontmatter: Frontmatter,
    pub body: String,
}

/// The mathematical value of a frontmatter block.
pub struct FrontmatterView {
    pub id: u128,
    pub created: Seq<char>,
    pub updated: Seq<char>,
    pub tags: Seq<Seq<char>>,
    pub pinned: bool,
}

/// The mathematical value of a note.
pub struct NoteView {
    pub id: u128,
    pub path: Seq<char>,
    pub title: Seq<char>,
    pub frontmatter: FrontmatterView,
    pub body: Seq<char>,
}

/// The views of a list of strings.
pub open spec fn string_views(v: Seq<String>) -> Seq<Seq<char>> {
    v.map_values(|x: String| x@)
}

impl View for Frontmatter {
    type V = FrontmatterView;

    open spec fn view(&self) -> FrontmatterView {
        FrontmatterView {
            id: self.id.0,
            created: self.created@,
            updated: self.updated@,
            tags: string_views(self.tags@),
            pinned: self.pinned,
        }
    }
}

impl View for Note {
    type V = NoteView;

    open spec fn view(&self) -> NoteView {
        NoteView {
            id: self.id.0,
            path: self.path@,
            title: self.title@,
            frontmatter: self.frontmatter@,
            body: self.body@,
        }
    }
}

/// A copy of a list of strings.
pub fn copy_strings(v: &Vec<String>) -> (r: Vec<String>)
    ensures
        r@ == v@,
{
    let mut r: Vec<String> = Vec::new();
    let mut k: usize = 0;
    while k < v.len()
        invariant
            k <= v.len(),
            r@ == v@.take(k as int),
        decreases v.len() - k,
    {
        r.push(v[k].clone());
        assert(v@.take(k + 1) == v@.take(k as int).push(v@[k as int]));
        k += 1;
    }
    assert(v@.take(v.len() as int) == v@);
    r
}

impl Frontmatter {
    /// A field-for-field copy.
    pub fn copy(&self) -> (r: Frontmatter)
        ensures
            r@ == self@,
    {
        Frontmatter {
            id: self.id,
            created: self.created.clone(),
            updated: self.updated.clone(),
            tags: copy_strings(&self.tags),
            pinned: self.pinned,
        }
    }
}

impl Note {
    /// A field-for-field copy.
    pub fn copy(&self) -> (r: Note)
        ensures
            r@ == self@,
    {
        Note {
            id: self.id,
            path: self.path.clone(),
            title: self.title.clone(),
            frontmatter: self.frontmatter.copy(),
            body: self.body.clone(),
        }
    }
}

} // verus!
