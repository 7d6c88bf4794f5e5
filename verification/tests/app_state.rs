use silo::app_state::{external_changes, stamp_for_file, AppState, KeyAction, NavAnim, ReloadAction, ViewKind};
use silo::config::AppConfig;
use silo::note::{Frontmatter, Note, NoteId};
use silo::notebook::Notebook;
use silo::palette::{PaletteAction, PaletteState};
use silo::planner::Date;
use silo::planner_state::PlannerState;
use silo::theme::Theme;
use silo::travel::initial_trips;
use silo::travel_state::{TravelMode, TravelState};

fn note(title: &str) -> Note {
    let id = NoteId::new();
    Note {
        id,
        path: format!("{title}.md"),
        title: title.into(),
        frontmatter: Frontmatter {
            id,
            created: "".into(),
            updated: "".into(),
            tags: vec![],
            pinned: false,
        },
        body: format!("# {title}"),
    }
}

fn node(n: Note, children: Vec<Notebook>) -> Notebook {
    let path = n.path.trim_end_matches(".md").to_string();
    Notebook {
        name: n.title.clone(),
        path,
        note: Some(n),
        is_virtual: false,
        children,
    }
}

fn state(vault: Notebook, selected: Option<NoteId>) -> AppState {
    let today = Date::from_ymd(2026, 8, 2).unwrap();
    AppState {
        vault,
        selected,
        theme: Theme::light(),
        view: ViewKind::Note,
        config: AppConfig::default(),
        saved_text: None,
        palette: PaletteState::new(),
        animating: false,
        nav_seq: 0,
        nav_anim: NavAnim::Rise,
        collapsed: Vec::new(),
        travel: TravelState {
            trips: initial_trips(),
            trip: 0,
            trip_day: 0,
            travel_mode: TravelMode::Schedule,
            slot_min: 30,
            next_event_id: 1,
        },
        planner: PlannerState {
            today,
            planner_day: today,
            tasks: Vec::new(),
            next_task_id: 1,
            prompt_open: false,
            prompt_title: String::new(),
            prompt_text: String::new(),
            prompt_date: None,
        },
    }
}

fn root(children: Vec<Notebook>) -> Notebook {
    Notebook {
        name: "root".into(),
        path: ".".into(),
        note: None,
        is_virtual: false,
        children,
    }
}

#[test]
fn flat_notes_collects_across_children() {
    let a = node(note("A"), vec![node(note("B"), vec![])]);
    let st = state(root(vec![a]), None);
    let titles: Vec<_> = st
        .vault
        .every_note()
        .iter()
        .map(|n| n.title.clone())
        .collect();
    assert!(titles.contains(&"A".to_string()) && titles.contains(&"B".to_string()));
}

#[test]
fn selected_note_resolves_by_id() {
    let n = note("A");
    let id = n.id;
    let st = state(root(vec![node(n, vec![])]), Some(id));
    assert_eq!(st.selected_note().unwrap().title, "A");
}

#[test]
fn open_note_selects_loads_and_remembers() {
    let n = note("A");
    let id = n.id;
    let mut st = state(root(vec![node(n, vec![])]), None);
    st.view = ViewKind::Today;
    let body = st.open_note(id);
    assert_eq!(body, "# A");
    assert_eq!(st.view, ViewKind::Note);
    assert_eq!(st.selected, Some(id));
    assert_eq!(st.saved_text.as_deref(), Some("# A"));
    assert_eq!(st.config.last_note, Some(id.to_string()));
    assert_eq!(st.nav_anim, NavAnim::Drill);
    assert!(st.animating);
    assert_eq!(st.nav_seq, 1);
}

#[test]
fn navigation_animation_ends_only_for_its_own_number() {
    let mut st = state(root(vec![]), None);
    let first = st.begin_nav(NavAnim::Rise);
    let second = st.set_view(ViewKind::Travel);
    assert!(second);
    assert_eq!(st.nav_anim, NavAnim::BackUp);
    st.end_nav(first);
    assert!(st.animating);
    st.end_nav(st.nav_seq);
    assert!(!st.animating);
}

#[test]
fn nav_number_wraps_at_the_top() {
    let mut st = state(root(vec![]), None);
    st.nav_seq = u64::MAX;
    assert_eq!(st.begin_nav(NavAnim::Drill), 0);
}

#[test]
fn toggle_theme_flips_config_and_colours() {
    let mut st = state(root(vec![]), None);
    assert!(!st.is_dark());
    st.toggle_theme();
    assert!(st.is_dark());
    assert_eq!(st.config.theme, "dark");
    assert_eq!(st.theme, Theme::dark());
    st.toggle_theme();
    assert_eq!(st.config.theme, "light");
    assert_eq!(st.theme, Theme::light());
}

#[test]
fn new_state_restores_last_note_and_theme() {
    let n = note("A");
    let id = n.id;
    let cfg = AppConfig {
        vault_path: Some("/v".into()),
        last_note: Some(id.to_string()),
        theme: "dark".into(),
    };
    let st = AppState::new(root(vec![node(n, vec![])]), cfg, Date::from_ymd(2026, 8, 2).unwrap());
    assert_eq!(st.selected, Some(id));
    assert_eq!(st.view, ViewKind::Note);
    assert_eq!(st.saved_text.as_deref(), Some("# A"));
    assert_eq!(st.theme, Theme::dark());
    assert_eq!(st.travel.next_event_id, 29);
    assert_eq!(st.planner.next_task_id, 8);
}

#[test]
fn new_state_without_last_note_opens_today() {
    let st = AppState::new(root(vec![]), AppConfig::default(), Date::from_ymd(2026, 8, 2).unwrap());
    assert_eq!(st.selected, None);
    assert_eq!(st.view, ViewKind::Today);
    assert_eq!(st.saved_text.as_deref(), Some(""));
}

#[test]
fn toggle_collapsed_adds_then_removes() {
    let mut st = state(root(vec![]), None);
    let id = NoteId::new();
    st.toggle_collapsed(id);
    assert_eq!(st.collapsed, vec![id]);
    st.toggle_collapsed(id);
    assert!(st.collapsed.is_empty());
}

#[test]
fn deleting_a_folder_removes_the_open_note_inside_it() {
    let child = note("sub/B");
    let id = child.id;
    let st = state(root(vec![node(note("A"), vec![node(child, vec![])])]), Some(id));
    assert!(st.deletes_open_note("A.md", "sub"));
    assert!(!st.deletes_open_note("A.md", "su"));
    assert!(st.deletes_open_note("sub/B.md", "elsewhere"));
}

#[test]
fn palette_confirm_opens_hit_or_runs_command() {
    let mut st = state(root(vec![]), None);
    st.toggle_palette();
    assert!(st.palette.open);
    st.palette_down();
    st.palette_down();
    assert_eq!(st.palette_confirm(5), PaletteAction::OpenHit(2));
    assert!(!st.palette.open);
    st.palette.selected = 9;
    assert_eq!(st.palette_confirm(5), PaletteAction::NewNote);
    st.palette.selected = 0;
    st.palette_up();
    assert_eq!(st.palette.selected, 0);
    assert_eq!(st.palette_confirm(0), PaletteAction::NewNote);
}

#[test]
fn note_to_save_keeps_identity_with_new_body() {
    let n = note("A");
    let id = n.id;
    let st = state(root(vec![node(n, vec![])]), Some(id));
    let saved = st.note_to_save("# A\nmore").unwrap();
    assert_eq!(saved.id, id);
    assert_eq!(saved.path, "A.md");
    assert_eq!(saved.body, "# A\nmore");
    assert!(state(root(vec![]), None).note_to_save("x").is_none());
}

#[test]
fn reload_adopts_clean_note_and_preserves_conflicts() {
    let n = note("A");
    let id = n.id;
    let mut st = state(root(vec![node(n, vec![])]), Some(id));
    st.saved_text = Some("# A".into());
    let paths = vec!["A.md".to_string()];
    match st.reload_action(&paths, Some("# A"), "S") {
        ReloadAction::Adopt(b) => assert_eq!(b, "# A"),
        _ => panic!("expected adopt"),
    }
    match st.reload_action(&paths, Some("# A edited"), "S") {
        ReloadAction::Conflict(p) => assert_eq!(p, "A.conflict-S.md"),
        _ => panic!("expected conflict"),
    }
    let other = vec!["B.md".to_string()];
    assert!(matches!(st.reload_action(&other, Some("# A"), "S"), ReloadAction::Nothing));
}

#[test]
fn own_recent_write_is_filtered_out() {
    let paths = vec!["a.md".to_string(), "b.md".to_string()];
    assert_eq!(external_changes(paths.clone(), Some("a.md"), 200), vec!["b.md"]);
    assert_eq!(external_changes(paths.clone(), Some("a.md"), 1500), paths);
    assert_eq!(external_changes(paths.clone(), None, 0), paths);
}

#[test]
fn conflict_stamp_has_no_colons() {
    assert_eq!(stamp_for_file("2026-07-29T23:47:34Z"), "2026-07-29T23-47-34Z");
}

#[test]
fn map_cache_path_keys_trip_day_and_theme() {
    let mut st = state(root(vec![]), None);
    st.vault.path = "/v".into();
    st.travel.trip_day = 2;
    assert_eq!(st.map_cache_path(), "/v/.silo/mapcache/0-2-l.png");
    st.toggle_theme();
    assert_eq!(st.map_cache_path(), "/v/.silo/mapcache/0-2-d.png");
    assert!(st.map_request(None).is_none());
    let (url, path) = st.map_request(Some("K")).unwrap();
    assert!(url.ends_with("&key=K"));
    assert_eq!(path, "/v/.silo/mapcache/0-2-d.png");
}

#[test]
fn journal_entries_are_newest_first() {
    let journal = Notebook {
        name: "Journal".into(),
        path: "Journal".into(),
        note: None,
        is_virtual: false,
        children: vec![
            node(note("2026-08-01"), vec![]),
            node(note("2026-08-03"), vec![]),
            node(note("2026-08-02"), vec![]),
        ],
    };
    let st = state(root(vec![node(note("A"), vec![]), journal]), None);
    let titles: Vec<String> = st.journal_entries().iter().map(|n| n.title.clone()).collect();
    assert_eq!(titles, vec!["2026-08-03", "2026-08-02", "2026-08-01"]);
    assert!(state(root(vec![]), None).journal_entries().is_empty());
}

#[test]
fn set_trip_resets_day_and_rises() {
    let mut st = state(root(vec![]), None);
    st.travel.trip_day = 3;
    assert!(!st.set_trip(0));
    assert!(!st.set_trip(7));
    assert!(st.set_trip(1));
    assert_eq!(st.travel.trip, 1);
    assert_eq!(st.travel.trip_day, 0);
    assert_eq!(st.nav_anim, NavAnim::Rise);
}

#[test]
fn keys_route_to_the_prompt_then_the_palette() {
    let mut st = state(root(vec![]), None);
    assert_eq!(st.key_action("a", true, false), KeyAction::Ignore);
    st.toggle_palette();
    assert_eq!(st.key_action("a", true, false), KeyAction::PaletteType);
    assert_eq!(st.key_action("a", true, true), KeyAction::Ignore);
    assert_eq!(st.key_action("backspace", false, false), KeyAction::PalettePop);
    assert_eq!(st.key_action("enter", false, false), KeyAction::Ignore);
    st.planner.prompt_open = true;
    assert_eq!(st.key_action("enter", false, false), KeyAction::PromptConfirm);
    assert_eq!(st.key_action("escape", false, false), KeyAction::PromptCancel);
    assert_eq!(st.key_action("backspace", false, false), KeyAction::PromptBackspace);
    assert_eq!(st.key_action("x", true, false), KeyAction::PromptType);
    assert_eq!(st.key_action("up", false, false), KeyAction::Ignore);
}
