//! What the full-text index stores and how a search is phrased. The index itself
//! (an SQLite/FTS5 file under `.silo/`) is derived and disposable: the `.md` vault
//! is the source of truth.

use vstd::prelude::*;
use crate::markdown::{extract_links, extract_tags, links_from, tags_of};
use crate::note::{Note, NoteId, ulid_decode, ulid_text};
use crate::text::{is_alphanumeric, push_char, to_chars, trim, trim_bounds, unicode_alphanumeric};

verus! {

/// Why an index operation failed: the database's message.
#[derive(Clone, Debug)]
pub enum IndexError {
    Sqlite(String),
}

/// One search result.
#[derive(Clone, Debug)]
pub struct SearchHit {
    pub id: NoteId,
    pub title: String,
    pub snippet: String,
}

/// How a query is run against the index.
#[derive(Clone, Debug)]
pub enum SearchQuery {
    /// A blank query lists the most recently updated notes.
    Recent,
    /// A full-text prefix match on this FTS expression.
    Match(String),
}

/// A query character kept as is (alphanumeric or space); any other becomes a space.
pub open spec fn sanitize_char(c: char) -> char {
    if unicode_alphanumeric(c) || c == ' ' {
        c
    } else {
        ' '
    }
}

/// What a query asks the index: recent notes for a blank query; otherwise the
/// query with every character but alphanumerics and spaces made a space,
/// trimmed, and prefix-matched with a final `*`.
pub open spec fn search_query_of(query: Seq<char>) -> Option<Seq<char>> {
    let q = trim(query);
    if q.len() == 0 {
        None
    } else {
        Some(trim(q.map_values(|c: char| sanitize_char(c))) + seq!['*'])
    }
}

/// Phrase a user query for the index.
pub fn search_query(query: &str) -> (r: SearchQuery)
    ensures
        (match r {
            SearchQuery::Recent => None,
            SearchQuery::Match(m) => Some(m@),
        }) == search_query_of(query@),
{
    let v = to_chars(query);
    let (a, b) = trim_bounds(&v, 0, v.len());
    assert(v@.subrange(0, v.len() as int) == query@);
    if a == b {
        return SearchQuery::Recent;
    }
    let ghost q = v@.subrange(a as int, b as int);
    let mut safe: Vec<char> = Vec::new();
    let mut k = a;
    while k < b
        invariant
            a <= k <= b <= v.len(),
            q == v@.subrange(a as int, b as int),
            safe@ == q.take(k - a).map_values(|c: char| sanitize_char(c)),
        decreases b - k,
    {
        let c = v[k];
        let s = if is_alphanumeric(c) || c == ' ' { c } else { ' ' };
        safe.push(s);
        assert(q.take(k + 1 - a) == q.take(k - a).push(c));
        k += 1;
    }
    assert(q.take(b - a) == q);
    let (x, y) = trim_bounds(&safe, 0, safe.len());
    assert(safe@.subrange(0, safe.len() as int) == safe@);
    let mut m = crate::text::string_of(&safe, x, y);
    push_char(&mut m, '*');
    SearchQuery::Match(m)
}

/// The id stored for a note, or a fresh one when the stored text does not decode.
pub fn parse_id(s: &str) -> (id: NoteId)
    ensures
        ulid_decode(s@) matches Some(v) ==> id.0 == v,
{
    match NoteId::from_str(s) {
        Ok(id) => id,
        Err(_) => NoteId::new(),
    }
}

/// The rows the index holds for one note: its searchable text and metadata, its
/// outgoing `[[links]]` and its `#tags`.
#[derive(Clone, Debug)]
pub struct IndexRecord {
    pub id: String,
    pub path: String,
    pub title: String,
    pub body: String,
    pub updated: String,
    pub links: Vec<String>,
    pub tags: Vec<String>,
}

/// What the index stores for `note`.
pub fn index_record(note: &Note) -> (r: IndexRecord)
    ensures
        r.id@ == ulid_text(note.id.0),
        r.path@ == note.path@,
        r.title@ == note.title@,
        r.body@ == note.body@,
        r.updated@ == note.frontmatter.updated@,
        crate::note::string_views(r.links@) == links_from(note.body@, 0, Seq::empty()),
        crate::note::string_views(r.tags@) == tags_of(note.body@),
{
    IndexRecord {
        id: note.id.to_string(),
        path: note.path.clone(),
        title: note.title.clone(),
        body: note.body.clone(),
        updated: note.frontmatter.updated.clone(),
        links: extract_links(note.body.as_str()),
        tags: extract_tags(note.body.as_str()),
    }
}

} // verus!
