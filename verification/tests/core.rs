use silo::note::{now_rfc3339, IdError, NoteId, VERSION};
use silo::notebook::Notebook;

#[test]
fn version_is_not_empty() {
    assert!(!VERSION.is_empty());
}

#[test]
fn note_id_roundtrips_through_string() {
    let id = NoteId::new();
    let s = id.to_string();
    assert_eq!(NoteId::from_str(&s).unwrap(), id);
}

#[test]
fn two_new_ids_differ() {
    assert_ne!(NoteId::new(), NoteId::new());
}

#[test]
fn now_rfc3339_parses_as_datetime() {
    let s = now_rfc3339();
    assert!(
        chrono::DateTime::parse_from_rfc3339(&s).is_ok(),
        "not rfc3339: {s}"
    );
}

#[test]
fn known_id_text_decodes_and_encodes() {
    let id = NoteId::from_str("01ARZ3NDEKTSV4RRFFQ69G5FAV").unwrap();
    assert_eq!(id.to_string(), "01ARZ3NDEKTSV4RRFFQ69G5FAV");
    assert_ne!(id.0, 0);
}

#[test]
fn short_id_text_is_invalid_length() {
    assert_eq!(NoteId::from_str("01ARZ"), Err(IdError::InvalidLength));
}

#[test]
fn id_text_with_bad_char_is_invalid_char() {
    assert_eq!(
        NoteId::from_str("01ARZ3NDEKTSV4RRFFQ69G5FA!"),
        Err(IdError::InvalidChar)
    );
}

fn leaf(name: &str) -> Notebook {
    Notebook {
        name: name.into(),
        path: name.into(),
        note: None,
        is_virtual: false,
        children: vec![],
    }
}

#[test]
fn note_count_ignores_nodes_without_notes() {
    let root = Notebook {
        children: vec![leaf("a")],
        ..leaf("root")
    };
    assert_eq!(root.note_count(), 0);
}

#[test]
fn clock_stamp_has_the_rfc3339_shape() {
    let s: Vec<char> = now_rfc3339().chars().collect();
    assert_eq!(s.len(), 20);
    for i in [0, 1, 2, 3, 5, 6, 8, 9, 11, 12, 14, 15, 17, 18] {
        assert!(s[i].is_ascii_digit(), "{i}");
    }
    assert_eq!((s[4], s[7], s[10], s[13], s[16], s[19]), ('-', '-', 'T', ':', ':', 'Z'));
}
