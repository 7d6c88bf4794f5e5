use silo::training::heat_cell;
use silo::palette::{clamped_selection, confirm, PaletteAction, PaletteState, COMMANDS, LIMIT};
use silo::theme::{Theme, RADIUS};

#[test]
fn light_theme_matches_modernist_tokens() {
    let t = Theme::light();
    assert_eq!(t.bg, 0xf7f6f5);
    assert_eq!(t.text, 0x201e1d);
    assert_eq!(t.accent, 0xec3013);
}

#[test]
fn dark_differs_from_light_bg() {
    assert_ne!(Theme::dark().bg, Theme::light().bg);
}

#[test]
fn radius_is_zero() {
    assert_eq!(RADIUS as f32, 0.0);
}

#[test]
fn palette_starts_closed_and_clamps_selection() {
    let p = PaletteState::new();
    assert!(!p.open);
    assert_eq!(p.query, "");
    assert_eq!(clamped_selection(7, 3), 2);
    assert_eq!(clamped_selection(1, 3), 1);
    assert_eq!(clamped_selection(4, 0), 0);
    assert_eq!(COMMANDS, ["New note"]);
    assert_eq!(LIMIT, 12);
    assert_eq!(confirm(2, 1), PaletteAction::OpenHit(1));
    assert_eq!(confirm(2, 2), PaletteAction::NewNote);
}

#[test]
fn training_heat_pattern() {
    assert_eq!(heat_cell(0, 0), (0, false));
    assert_eq!(heat_cell(1, 1), (0, false));
    assert_eq!(heat_cell(2, 17), (0, true));
    assert_eq!(heat_cell(6, 3), (4, false));
}
