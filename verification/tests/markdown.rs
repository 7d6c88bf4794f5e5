use silo::markdown::{derive_title, extract_links, extract_tags, split_frontmatter};

#[test]
fn splits_leading_frontmatter() {
    let raw = "---\nid: 01\n---\n# Hi\nbody";
    let (fm, body) = split_frontmatter(raw);
    assert_eq!(fm, Some("id: 01\n"));
    assert_eq!(body, "# Hi\nbody");
}

#[test]
fn no_frontmatter_returns_none_and_full_body() {
    let raw = "# Hi\nbody";
    let (fm, body) = split_frontmatter(raw);
    assert_eq!(fm, None);
    assert_eq!(body, "# Hi\nbody");
}

#[test]
fn title_prefers_first_h1() {
    assert_eq!(derive_title("intro\n# Real Title\nx"), "Real Title");
}

#[test]
fn title_falls_back_to_first_nonempty_line() {
    assert_eq!(
        derive_title("\n\nplain first line\nmore"),
        "plain first line"
    );
}

#[test]
fn title_defaults_when_empty() {
    assert_eq!(derive_title("   \n\n"), "Untitled");
}

#[test]
fn extracts_wiki_links_in_order_deduped() {
    let body = "see [[Alpha]] and [[Beta]] and [[Alpha]] again";
    assert_eq!(extract_links(body), vec!["Alpha", "Beta"]);
}

#[test]
fn extracts_tags_without_hash_deduped() {
    let body = "tagged #method and #research and #method";
    assert_eq!(extract_tags(body), vec!["method", "research"]);
}

#[test]
fn heading_hash_is_not_a_tag() {
    assert_eq!(extract_tags("# Heading\ntext"), Vec::<String>::new());
}

#[test]
fn frontmatter_closed_at_end_of_input_gives_empty_body() {
    let (fm, body) = split_frontmatter("---\na: 1\n---");
    assert_eq!(fm, Some("a: 1\n"));
    assert_eq!(body, "");
}

#[test]
fn unclosed_frontmatter_is_no_block() {
    let raw = "---\na: 1\nno close";
    let (fm, body) = split_frontmatter(raw);
    assert_eq!(fm, None);
    assert_eq!(body, raw);
}

#[test]
fn title_trims_heading_and_skips_blank_heading() {
    assert_eq!(derive_title("#  \n#   Spaced  \n"), "Spaced");
}

#[test]
fn blank_and_unclosed_links_are_ignored() {
    assert_eq!(extract_links("[[ ]] [[ Padded ]] [[open"), vec!["Padded"]);
}

#[test]
fn tags_stop_at_punctuation_and_keep_dashes() {
    assert_eq!(extract_tags("#a-b_c, #x.y"), vec!["a-b_c", "x"]);
}
