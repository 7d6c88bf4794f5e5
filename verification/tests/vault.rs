use silo::markdown::split_frontmatter;
use silo::note::{Frontmatter, Note, NoteId};
use silo::notebook::Notebook;
use silo::vault::{
    assemble_vault, conflict_path, create_note, entry_kind, join, note_file_contents, note_from_parts,
    primary_note_path, slug, stamped_frontmatter, vault_name, EntryKind, RawFrontmatter, VaultError,
};

#[test]
fn conflict_path_inserts_marker() {
    let p = conflict_path("/x/inbox.md", "2026-07-29T23-47-34Z");
    assert_eq!(
        std::path::PathBuf::from(p),
        std::path::PathBuf::from("/x/inbox.conflict-2026-07-29T23-47-34Z.md")
    );
}

#[test]
fn conflict_path_edge_names() {
    assert_eq!(conflict_path("notes/.hidden", "S"), "notes/.hidden.conflict-S.md");
    assert_eq!(conflict_path("a.b.md", "S"), "a.b.conflict-S.md");
}

#[test]
fn slugs_are_lowercase_dashed_and_trimmed() {
    assert_eq!(slug("My First Note"), "my-first-note");
    assert_eq!(slug("  --Hello, World!--  "), "hello--world");
    assert_eq!(slug("?!"), "untitled");
    assert_eq!(slug("Café"), "café");
}

#[test]
fn file_contents_split_back_into_block_and_body() {
    let yaml = "id: 01ARZ3NDEKTSV4RRFFQ69G5FAV\ntags: []\n";
    let contents = note_file_contents(yaml, "# T\nbody");
    assert_eq!(contents, "---\nid: 01ARZ3NDEKTSV4RRFFQ69G5FAV\ntags: []\n---\n# T\nbody");
    let (fm, body) = split_frontmatter(&contents);
    assert_eq!(fm, Some(yaml));
    assert_eq!(body, "# T\nbody");
}

#[test]
fn note_from_parts_uses_parsed_fields() {
    let parsed = RawFrontmatter {
        id: Some("01ARZ3NDEKTSV4RRFFQ69G5FAV".into()),
        created: Some("2026-01-01T00:00:00Z".into()),
        updated: Some("2026-01-02T00:00:00Z".into()),
        tags: Some(vec!["x".into(), "y".into()]),
        pinned: Some(true),
    };
    let note = note_from_parts("n.md".into(), "# Hello\nbody text", parsed);
    assert_eq!(note.title, "Hello");
    assert_eq!(note.frontmatter.tags, vec!["x", "y"]);
    assert!(note.frontmatter.pinned);
    assert_eq!(note.id.to_string(), "01ARZ3NDEKTSV4RRFFQ69G5FAV");
    assert_eq!(note.frontmatter.id, note.id);
    assert!(note.body.starts_with("# Hello"));
}

#[test]
fn note_from_parts_fills_missing_fields() {
    let note = note_from_parts("plain.md".into(), "# Just A Note\ncontent", RawFrontmatter::empty());
    assert_eq!(note.title, "Just A Note");
    assert!(!note.frontmatter.created.is_empty());
    assert!(note.frontmatter.tags.is_empty());
    assert!(!note.frontmatter.pinned);
    let bad = RawFrontmatter { id: Some("nope".into()), ..RawFrontmatter::empty() };
    let other = note_from_parts("b.md".into(), "", bad);
    assert_eq!(other.title, "Untitled");
}

#[test]
fn stamped_frontmatter_keeps_identity() {
    let id = NoteId::new();
    let note = Note {
        id,
        path: "a.md".into(),
        title: "A".into(),
        frontmatter: Frontmatter {
            id,
            created: "2026-01-01T00:00:00Z".into(),
            updated: "old".into(),
            tags: vec!["t".into()],
            pinned: true,
        },
        body: "# A".into(),
    };
    let fm = stamped_frontmatter(&note);
    assert_eq!(fm.id, id);
    assert_eq!(fm.created, "2026-01-01T00:00:00Z");
    assert!(fm.updated.ends_with('Z'));
    assert_eq!(fm.tags, vec!["t"]);
    assert!(fm.pinned);
}

#[test]
fn create_note_names_file_by_slug_or_id() {
    let n = create_note("/v", "My First Note", false);
    assert_eq!(n.path, "/v/my-first-note.md");
    assert_eq!(primary_note_path("/v", "My First Note"), "/v/my-first-note.md");
    assert_eq!(n.title, "My First Note");
    assert_eq!(n.body, "# My First Note\n");
    assert_eq!(n.frontmatter.id, n.id);
    assert_eq!(n.frontmatter.created, n.frontmatter.updated);
    let m = create_note("/v/", "My First Note", true);
    assert_eq!(m.path, format!("/v/my-first-note-{}.md", m.id.to_string()));
}

#[test]
fn join_adds_one_separator() {
    assert_eq!(join("/a", "b.md"), "/a/b.md");
    assert_eq!(join("/a/", "b.md"), "/a/b.md");
    assert_eq!(join("", "b.md"), "b.md");
}

#[test]
fn walk_skips_dotfiles_and_non_markdown() {
    assert_eq!(entry_kind(".silo", true), EntryKind::Skip);
    assert_eq!(entry_kind("research", true), EntryKind::Folder);
    assert_eq!(entry_kind("inbox.md", false), EntryKind::NoteFile);
    assert_eq!(entry_kind("image.png", false), EntryKind::Skip);
    assert_eq!(entry_kind(".md", false), EntryKind::Skip);
    assert_eq!(vault_name("/home/me/Vault2"), "Vault2");
    assert_eq!(vault_name("/"), "Vault");
}

fn folder(name: &str) -> Notebook {
    Notebook { name: name.into(), path: name.into(), note: None, is_virtual: false, children: vec![] }
}

fn plain(title: &str) -> Note {
    let id = NoteId::new();
    Note {
        id,
        path: format!("/v/{title}.md"),
        title: title.into(),
        frontmatter: Frontmatter { id, created: "".into(), updated: "".into(), tags: vec![], pinned: false },
        body: String::new(),
    }
}

#[test]
fn assembled_vault_lists_folders_then_notes_alphabetically() {
    let nb = assemble_vault(
        "v".into(),
        "/v".into(),
        vec![folder("zeta"), folder("alpha")],
        vec![plain("beta"), plain("Alpha"), plain("gamma")],
    );
    let names: Vec<&str> = nb.children.iter().map(|c| c.name.as_str()).collect();
    assert_eq!(names, vec!["alpha", "zeta", "Alpha", "beta", "gamma"]);
    assert!(nb.note.is_none());
    assert_eq!(nb.children[2].path, "/v/Alpha");
    assert_eq!(nb.note_count(), 3);
}

#[test]
fn vault_errors_read_as_messages() {
    let io = VaultError::Io { path: "/v/a.md".into(), msg: "denied".into() };
    assert_eq!(io.to_string(), "io error reading /v/a.md: denied");
    let ser = VaultError::Serialize { path: "/v/a.md".into(), msg: "bad".into() };
    assert_eq!(ser.to_string(), "serialize error for /v/a.md: bad");
}

#[test]
fn conflict_path_follows_path_components() {
    assert_eq!(conflict_path("x/dir/", "T"), "x/dir.conflict-T.md");
    assert_eq!(conflict_path("a/./b.md", "T"), "a/b.conflict-T.md");
    assert_eq!(conflict_path("a//b.md", "T"), "a/b.conflict-T.md");
    assert_eq!(conflict_path("inbox.md", "T"), "inbox.conflict-T.md");
    assert_eq!(conflict_path("x/..", "T"), "x/../note.conflict-T.md");
    assert_eq!(conflict_path("/", "T"), "/note.conflict-T.md");
    assert_eq!(conflict_path("", "T"), "note.conflict-T.md");
    assert_eq!(conflict_path("/x.md", "T"), "/x.conflict-T.md");
    assert_eq!(vault_name("/home/me/Vault2/"), "Vault2");
    assert_eq!(vault_name("/home/me/.."), "Vault");
}

fn walked(name: &str, path: &str, children: Vec<Notebook>) -> Notebook {
    Notebook { name: name.into(), path: path.into(), note: None, is_virtual: false, children }
}

#[test]
fn folders_merge_with_their_notes_or_become_virtual() {
    let inner = assemble_vault("Foo".into(), "/v/Foo".into(), vec![], vec![plain("Child")]);
    let loose = assemble_vault("Loose".into(), "/v/Loose".into(), vec![], vec![plain("Other")]);
    let nb = assemble_vault(
        "v".into(),
        "/v".into(),
        vec![walked("Foo", "/v/Foo", inner.children), walked("Loose", "/v/Loose", loose.children)],
        vec![plain("Foo")],
    );
    assert_eq!(nb.children.len(), 2);
    let virt = &nb.children[0];
    assert!(virt.is_virtual);
    assert_eq!(virt.name, "Loose");
    assert_eq!(virt.path, "/v/Loose");
    let vnote = virt.note.as_ref().unwrap();
    assert_eq!(vnote.path, "/v/Loose.md");
    assert_eq!(vnote.title, "Loose");
    assert_eq!(virt.children.len(), 1);
    let foo = &nb.children[1];
    assert!(!foo.is_virtual);
    assert_eq!(foo.name, "Foo");
    assert_eq!(foo.path, "/v/Foo");
    assert_eq!(foo.children.len(), 1);
    assert_eq!(foo.children[0].name, "Child");
    // Real notes: Foo, Child and Other; the virtual Loose is not one.
    assert_eq!(nb.note_count(), 3);
    assert_eq!(nb.every_note().len(), 4);
}
