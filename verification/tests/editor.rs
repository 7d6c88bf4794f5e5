use silo::editor::{line_starts, offset_to_line_col, EditorBuffer};

#[test]
fn line_starts_and_line_col() {
    let starts = line_starts("ab\ncd\n");
    assert_eq!(starts, vec![0, 3, 6]);
    assert_eq!(offset_to_line_col(&starts, 4), (1, 1));
    assert_eq!(offset_to_line_col(&starts, 0), (0, 0));
    assert_eq!(offset_to_line_col(&starts, 6), (2, 0));
}

#[test]
fn cursor_moves_by_grapheme() {
    let mut b = EditorBuffer::new("e\u{301}x");
    b.right();
    assert_eq!(b.cursor_offset(), 3);
    b.right();
    assert_eq!(b.cursor_offset(), 4);
    b.left();
    assert_eq!(b.cursor_offset(), 3);
    b.left();
    assert_eq!(b.cursor_offset(), 0);
}

#[test]
fn typing_backspace_and_delete() {
    let mut b = EditorBuffer::new("héllo");
    b.move_to(5);
    b.paste("!");
    assert_eq!(b.text(), "héll!o");
    b.backspace();
    assert_eq!(b.text(), "héllo");
    b.move_to(1);
    b.delete();
    assert_eq!(b.text(), "hllo");
    b.newline();
    assert_eq!(b.text(), "h\nllo");
    assert_eq!(b.cursor_offset(), 2);
}

#[test]
fn select_copy_cut() {
    let mut b = EditorBuffer::new("one two");
    b.move_to(4);
    b.select_to(7);
    assert_eq!(b.copy(), Some("two".to_string()));
    assert_eq!(b.cut(), Some("two".to_string()));
    assert_eq!(b.text(), "one ");
    b.select_all();
    assert_eq!(b.copy(), Some("one ".to_string()));
    b.move_to(2);
    assert_eq!(b.copy(), None);
}

#[test]
fn selecting_backwards_flips_direction() {
    let mut b = EditorBuffer::new("abcdef");
    b.move_to(3);
    b.select_to(1);
    assert_eq!(b.selected_range, 1..3);
    assert!(b.selection_reversed);
    assert_eq!(b.cursor_offset(), 1);
}

#[test]
fn home_and_end_stay_on_the_line() {
    let mut b = EditorBuffer::new("ab\ncdef\ng");
    b.move_to(5);
    b.home();
    assert_eq!(b.cursor_offset(), 3);
    b.end();
    assert_eq!(b.cursor_offset(), 7);
}

#[test]
fn utf16_offsets_round_trip() {
    let b = EditorBuffer::new("a😀é");
    assert_eq!(b.offset_to_utf16(1), 1);
    assert_eq!(b.offset_to_utf16(5), 3);
    assert_eq!(b.offset_to_utf16(7), 4);
    assert_eq!(b.offset_from_utf16(3), 5);
    assert_eq!(b.offset_from_utf16(b.offset_to_utf16(5)), 5);
    assert_eq!(b.range_to_utf16(&(1..5)), 1..3);
}

#[test]
fn replace_text_in_utf16_range() {
    let mut b = EditorBuffer::new("a😀b");
    b.replace_text_in_range(Some(1..3), "X");
    assert_eq!(b.text(), "aXb");
    assert_eq!(b.cursor_offset(), 2);
}

#[test]
fn selection_segments_cover_each_selected_line() {
    let mut b = EditorBuffer::new("ab\ncdef\n\ngh");
    b.move_to(1);
    b.select_to(10);
    assert_eq!(b.selection_segments(), vec![(0, 1, 2), (1, 0, 4), (3, 0, 1)]);
    b.move_to(4);
    assert!(b.selection_segments().is_empty());
}

#[test]
fn try_backspace_and_try_delete_edit_on_boundaries() {
    let mut b = EditorBuffer::new("ab\u{e9}c");
    b.move_to(4);
    assert!(b.try_backspace());
    assert_eq!(b.text(), "abc");
    b.move_to(0);
    assert!(b.try_delete());
    assert_eq!(b.text(), "bc");
    b.move_to(2);
    assert!(b.try_delete());
    assert_eq!(b.text(), "bc");
}
