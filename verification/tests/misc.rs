use silo::format::pct;
use silo::index::{index_record, parse_id, search_query, SearchQuery};
use silo::note::{Frontmatter, Note, NoteId};
use silo::notebook::Notebook;
use silo::sidebar::sidebar_view;

fn note(title: &str, body: &str) -> Note {
    let id = NoteId::new();
    Note {
        id,
        path: format!("{title}.md"),
        title: title.into(),
        frontmatter: Frontmatter { id, created: "c".into(), updated: "u".into(), tags: vec![], pinned: false },
        body: body.into(),
    }
}

fn node(n: Note, children: Vec<Notebook>) -> Notebook {
    Notebook { name: n.title.clone(), path: n.title.clone(), note: Some(n), is_virtual: false, children }
}

#[test]
fn search_query_sanitizes_and_prefix_matches() {
    match search_query("  zettel-kasten: (x) ") {
        SearchQuery::Match(m) => assert_eq!(m, "zettel kasten   x*"),
        SearchQuery::Recent => panic!("expected a match query"),
    }
    assert!(matches!(search_query("   "), SearchQuery::Recent));
    match search_query("\"q\"") {
        SearchQuery::Match(m) => assert_eq!(m, "q*"),
        SearchQuery::Recent => panic!("expected a match query"),
    }
}

#[test]
fn index_record_holds_links_and_tags() {
    let n = note("A", "# A\nsee [[B]] #tag");
    let r = index_record(&n);
    assert_eq!(r.id, n.id.to_string());
    assert_eq!(r.title, "A");
    assert_eq!(r.links, vec!["B"]);
    assert_eq!(r.tags, vec!["tag"]);
    assert_eq!(r.updated, "u");
}

#[test]
fn parse_id_falls_back_to_a_fresh_id() {
    assert_eq!(parse_id("01ARZ3NDEKTSV4RRFFQ69G5FAV").to_string(), "01ARZ3NDEKTSV4RRFFQ69G5FAV");
    let a = parse_id("garbage");
    let b = parse_id("garbage");
    assert_ne!(a, b);
}

#[test]
fn percent_encoding_keeps_unreserved_bytes() {
    assert_eq!(pct("AZaz09-_.~"), "AZaz09-_.~");
    assert_eq!(pct("a b&c"), "a%20b%26c");
    assert_eq!(pct("é"), "%C3%A9");
    assert_eq!(pct("😀"), "%F0%9F%98%80");
}

#[test]
fn sidebar_window_reroots_deep_selection() {
    let d = note("D", "");
    let did = d.id;
    let c = node(note("C", ""), vec![node(d, vec![])]);
    let b = node(note("B", ""), vec![c]);
    let a = node(note("A", ""), vec![b]);
    let root = Notebook { name: "root".into(), path: ".".into(), note: None, is_virtual: false, children: vec![a, node(note("E", ""), vec![])] };
    let view = sidebar_view(&root, Some(did), &Vec::new());
    let crumbs: Vec<&str> = view.crumbs.iter().map(|n| n.name.as_str()).collect();
    assert_eq!(crumbs, vec!["A", "B"]);
    let rows: Vec<(usize, &str, bool, bool)> = view
        .rows
        .iter()
        .map(|r| (r.depth, r.node.name.as_str(), r.selected, r.on_path))
        .collect();
    assert_eq!(rows, vec![(0, "C", false, true), (1, "D", true, true)]);
}

#[test]
fn sidebar_rows_respect_collapse_and_depth() {
    let deep = node(note("Z", ""), vec![node(note("Y", ""), vec![node(note("X", ""), vec![node(note("W", ""), vec![])])])]);
    let root = Notebook { name: "root".into(), path: ".".into(), note: None, is_virtual: false, children: vec![deep] };
    let view = sidebar_view(&root, None, &Vec::new());
    let rows: Vec<(usize, &str, bool)> = view.rows.iter().map(|r| (r.depth, r.node.name.as_str(), r.drillable)).collect();
    assert_eq!(rows, vec![(0, "Z", false), (1, "Y", false), (2, "X", true)]);
    let zid = root.children[0].note.as_ref().unwrap().id;
    let view = sidebar_view(&root, None, &vec![zid]);
    assert_eq!(view.rows.len(), 1);
    assert!(!view.rows[0].expanded);
    assert!(view.crumbs.is_empty());
}
