//! The application's state and its transitions: which note is open, the centre
//! view and its entrance animation, the theme, the sidebar's collapsed nodes, the
//! palette, and the decisions taken on saving and on external file changes. The
//! shell around it performs the effects (file I/O, timers, focus, the editor).

use vstd::prelude::*;
use crate::config::{is_dark_setting, AppConfig};
use crate::note::{ulid_decode, ulid_text, Note, NoteId};
use crate::notebook::{tree_find, Notebook};
use crate::order::{arranged, derefs, is_stable_order, keep_flagged, kept};
use crate::palette::{confirm, confirm_action, PaletteAction, PaletteState};
use crate::planner::{is_valid_date, Date};
use crate::planner_state::PlannerState;
use crate::text::{same_text, to_chars};
use crate::theme::{dark_theme, light_theme, Theme};
use crate::travel_state::TravelState;

verus! {

/// Which surface the centre pane shows.
#[derive(Clone, Copy, Debug, PartialEq, Eq, Structural)]
pub enum ViewKind {
    Note,
    Today,
    Week,
    Month,
    Training,
    Travel,
    Journal,
}

/// Direction of the content entrance animation for the current navigation.
#[derive(Clone, Copy, Debug, PartialEq, Eq, Structural)]
pub enum NavAnim {
    /// Drilling into a note: slide in from the right.
    Drill,
    /// Going back up to an overview: slide in from the left.
    BackUp,
    /// A gentle rise (fade and up).
    Rise,
}

/// What a key press does while the task prompt or the palette holds the
/// keyboard.
#[derive(Clone, Copy, Debug, PartialEq, Eq, Structural)]
pub enum KeyAction {
    /// Enter in the prompt: add the task.
    PromptConfirm,
    /// Escape in the prompt: close it.
    PromptCancel,
    /// Backspace in the prompt: drop its last character.
    PromptBackspace,
    /// A typed character in the prompt: append the key's text to it.
    PromptType,
    /// Backspace in the open palette: drop the query's last character.
    PalettePop,
    /// A typed character in the open palette: append the key's text to the query.
    PaletteType,
    /// Nothing to do here.
    Ignore,
}

/// Is the key a typed character: a one-character key name with text, and no
/// command or control modifier held?
pub open spec fn types_char(key: Seq<char>, has_text: bool, command: bool) -> bool {
    key.len() == 1 && has_text && !command
}

/// The action of a key press: the open prompt takes enter, escape, backspace and
/// typed characters; otherwise the open palette takes backspace and typed
/// characters; every other key is ignored here.
pub open spec fn key_action_of(
    prompt_open: bool,
    palette_open: bool,
    key: Seq<char>,
    has_text: bool,
    command: bool,
) -> KeyAction {
    if prompt_open {
        if key == "enter"@ {
            KeyAction::PromptConfirm
        } else if key == "escape"@ {
            KeyAction::PromptCancel
        } else if key == "backspace"@ {
            KeyAction::PromptBackspace
        } else if types_char(key, has_text, command) {
            KeyAction::PromptType
        } else {
            KeyAction::Ignore
        }
    } else if !palette_open {
        KeyAction::Ignore
    } else if key == "backspace"@ {
        KeyAction::PalettePop
    } else if types_char(key, has_text, command) {
        KeyAction::PaletteType
    } else {
        KeyAction::Ignore
    }
}

/// What to do with the open note when files changed on disk.
#[derive(Clone, Debug)]
pub enum ReloadAction {
    /// The open note is not among the changed files (or no note is open).
    Nothing,
    /// No unsaved edits: load this on-disk body into the editor.
    Adopt(String),
    /// Unsaved edits and an external change: keep the edits and preserve the
    /// incoming file at this conflict path.
    Conflict(String),
}

/// The application's state.
pub struct AppState {
    pub vault: Notebook,
    pub selected: Option<NoteId>,
    pub theme: Theme,
    /// Centre-pane view.
    pub view: ViewKind,
    /// Persisted app config (last vault, last note, theme).
    pub config: AppConfig,
    /// The editor's content as last read or written, to detect unsaved edits.
    pub saved_text: Option<String>,
    /// ⌘K command palette state.
    pub palette: PaletteState,
    /// True only briefly after a navigation, while the entrance animation runs.
    pub animating: bool,
    /// Increments (wrapping) on each navigation; keys the entrance animation.
    pub nav_seq: u64,
    /// Direction for the current entrance animation.
    pub nav_anim: NavAnim,
    /// Sidebar tree nodes the user has collapsed (everything else is expanded).
    pub collapsed: Vec<NoteId>,
    /// The Travel view.
    pub travel: TravelState,
    /// The planner views.
    pub planner: PlannerState,
}

/// The note a tree lookup finds, if the node has one.
pub open spec fn found_note(vault: Notebook, id: Option<NoteId>) -> Option<Note> {
    match id {
        Some(i) => match tree_find(vault, i) {
            Some(n) => n.note,
            None => None,
        },
        None => None,
    }
}

/// The next navigation number (wrapping at the top of `u64`).
pub open spec fn next_seq(s: u64) -> u64 {
    if s == u64::MAX {
        0
    } else {
        (s + 1) as u64
    }
}


impl AppState {
    /// The state a window opens with: the theme and last note from the config
    /// (the note view when that note id parses, else Today), the planner seeded
    /// around `today`, the demo trips, a closed palette, nothing collapsed.
    /// `saved_text` holds the body loaded into the editor.
    pub fn new(vault: Notebook, config: AppConfig, today: Date) -> (s: AppState)
        requires
            is_valid_date(today),
        ensures
            s.vault == vault,
            s.config == config,
            s.theme == (if is_dark_setting(config.theme@) {
                dark_theme()
            } else {
                light_theme()
            }),
            s.selected == (match config.last_note {
                Some(t) => match ulid_decode(t@) {
                    Some(v) => Some(NoteId(v)),
                    None => None,
                },
                None => None,
            }),
            s.view == (if s.selected is Some {
                ViewKind::Note
            } else {
                ViewKind::Today
            }),
            s.saved_text matches Some(b) && b@ == (match found_note(vault, s.selected) {
                Some(n) => n.body@,
                None => Seq::empty(),
            }),
            !s.palette.open,
            !s.animating,
            s.nav_seq == 0,
            s.nav_anim == NavAnim::Rise,
            s.collapsed@.len() == 0,
            s.travel.trip == 0 && s.travel.trip_day == 0 && s.travel.slot_min == 30,
            crate::travel::is_demo_trips(s.travel.trips@),
            s.travel.next_event_id == 29,
            s.travel.travel_mode == crate::travel_state::TravelMode::Schedule,
            s.planner.today == today && s.planner.planner_day == today,
            crate::planner::is_seed_tasks(s.planner.tasks@, today),
            s.planner.next_task_id == 8,
            !s.planner.prompt_open,
            s.planner.prompt_title@.len() == 0,
            s.planner.prompt_text@.len() == 0,
            s.planner.prompt_date is None,
    {
        let dark = config.is_dark();
        let theme = Theme::for_dark(dark);
        let selected = match &config.last_note {
            Some(t) => match NoteId::from_str(t.as_str()) {
                Ok(id) => Some(id),
                Err(_) => None,
            },
            None => None,
        };
        let view = if selected.is_some() { ViewKind::Note } else { ViewKind::Today };
        let body = match selected {
            Some(id) => match crate::notebook::find_note_body(&vault, id) {
                Some(b) => b,
                None => String::new(),
            },
            None => String::new(),
        };
        AppState {
            vault,
            selected,
            theme,
            view,
            config,
            saved_text: Some(body),
            palette: PaletteState::new(),
            animating: false,
            nav_seq: 0,
            nav_anim: NavAnim::Rise,
            collapsed: Vec::new(),
            travel: TravelState::new(),
            planner: PlannerState::new(today),
        }
    }

    /// Is the dark theme selected?
    pub fn is_dark(&self) -> (r: bool)
        ensures
            r == is_dark_setting(self.config.theme@),
    {
        self.config.is_dark()
    }

    /// Start a content entrance animation; returns its number, which the shell
    /// hands back to `end_nav` when the animation's time is up.
    pub fn begin_nav(&mut self, anim: NavAnim) -> (seq: u64)
        ensures
            *final(self) == (AppState {
                nav_anim: anim,
                nav_seq: next_seq(old(self).nav_seq),
                animating: true,
                ..*old(self)
            }),
            seq == final(self).nav_seq,
    {
        self.nav_anim = anim;
        self.nav_seq = if self.nav_seq == u64::MAX { 0 } else { self.nav_seq + 1 };
        self.animating = true;
        self.nav_seq
    }

    /// End the entrance animation numbered `seq`, unless a newer one started.
    pub fn end_nav(&mut self, seq: u64)
        ensures
            *final(self) == (if old(self).nav_seq == seq {
                AppState { animating: false, ..*old(self) }
            } else {
                *old(self)
            }),
    {
        if self.nav_seq == seq {
            self.animating = false;
        }
    }

    /// Switch to another existing trip (resets the day) with a rise animation;
    /// reports whether it changed.
    pub fn set_trip(&mut self, trip: usize) -> (changed: bool)
        ensures
            changed == (trip < old(self).travel.trips.len() && trip != old(self).travel.trip),
            !changed ==> *final(self) == *old(self),
            changed ==> *final(self) == (AppState {
                travel: final(self).travel,
                nav_anim: NavAnim::Rise,
                nav_seq: next_seq(old(self).nav_seq),
                animating: true,
                ..*old(self)
            }) && final(self).travel == (TravelState { trip, trip_day: 0, ..old(self).travel }),
    {
        let changed = self.travel.set_trip(trip);
        if changed {
            self.begin_nav(NavAnim::Rise);
        }
        changed
    }

    /// Switch the centre pane: leaving a note reads as going back up, any other
    /// switch rises. Reports whether the Travel view (with its map) is now shown.
    pub fn set_view(&mut self, view: ViewKind) -> (needs_map: bool)
        ensures
            needs_map == (view == ViewKind::Travel),
            *final(self) == (AppState {
                view,
                nav_anim: if old(self).view == ViewKind::Note {
                    NavAnim::BackUp
                } else {
                    NavAnim::Rise
                },
                nav_seq: next_seq(old(self).nav_seq),
                animating: true,
                ..*old(self)
            }),
    {
        let anim = if self.view == ViewKind::Note { NavAnim::BackUp } else { NavAnim::Rise };
        self.view = view;
        self.begin_nav(anim);
        view == ViewKind::Travel
    }

    /// Flip light/dark in the config and the colours. Reports whether the Travel
    /// view is shown (its map is styled to the theme). The shell persists the
    /// config.
    pub fn toggle_theme(&mut self) -> (needs_map: bool)
        ensures
            ({
                let dark = !is_dark_setting(old(self).config.theme@);
                &&& *final(self) == (AppState {
                    config: final(self).config,
                    theme: if dark {
                        dark_theme()
                    } else {
                        light_theme()
                    },
                    ..*old(self)
                })
                &&& final(self).config == (AppConfig { theme: final(self).config.theme, ..old(self).config })
                &&& final(self).config.theme@ == (if dark {
                    "dark"@
                } else {
                    "light"@
                })
                &&& is_dark_setting(final(self).config.theme@) == dark
            }),
            needs_map == (old(self).view == ViewKind::Travel),
    {
        let dark = !self.is_dark();
        proof {
            reveal_strlit("dark");
            reveal_strlit("light");
            assert("light"@.len() == 5);
            assert("dark"@.len() == 4);
        }
        self.config.theme = if dark { String::from_str("dark") } else { String::from_str("light") };
        self.theme = Theme::for_dark(dark);
        self.view == ViewKind::Travel
    }

    /// The open note, found in the vault by id.
    pub fn selected_note(&self) -> (r: Option<&Note>)
        ensures
            (match r {
                Some(n) => Some(*n),
                None => None,
            }) == found_note(self.vault, self.selected),
    {
        match self.selected {
            Some(id) => match self.vault.find(id) {
                Some(node) => node.note.as_ref(),
                None => None,
            },
            None => None,
        }
    }

    /// Open a note by id (drilling in): select it, remember it in the config and
    /// return the body to load into the editor (empty when it is not in the vault),
    /// which becomes the saved text.
    pub fn open_note(&mut self, id: NoteId) -> (body: String)
        ensures
            body@ == (match found_note(old(self).vault, Some(id)) {
                Some(n) => n.body@,
                None => Seq::empty(),
            }),
            *final(self) == (AppState {
                view: ViewKind::Note,
                selected: Some(id),
                saved_text: final(self).saved_text,
                config: final(self).config,
                nav_anim: NavAnim::Drill,
                nav_seq: next_seq(old(self).nav_seq),
                animating: true,
                ..*old(self)
            }),
            final(self).saved_text matches Some(t) && t@ == body@,
            final(self).config == (AppConfig { last_note: final(self).config.last_note, ..old(self).config }),
            final(self).config.last_note matches Some(t) && t@ == ulid_text(id.0),
    {
        self.begin_nav(NavAnim::Drill);
        self.view = ViewKind::Note;
        self.selected = Some(id);
        let body = match self.selected_note() {
            Some(n) => n.body.clone(),
            None => String::new(),
        };
        self.saved_text = Some(body.clone());
        self.config.last_note = Some(id.to_string());
        body
    }

    /// Journal entry notes, newest first (by title, which is the date); entries
    /// with equal titles keep their order.
    pub fn journal_entries(&self) -> (r: Vec<&Note>)
        ensures
            (match journal_folder(self.vault.children@) {
                None => r@.len() == 0,
                Some(f) => exists|p: Seq<usize>|
                    #[trigger] is_stable_order(title_keys(real_child_notes(f.children@)), true, p)
                        && derefs(r@) == arranged(real_child_notes(f.children@), p),
            }),
    {
        proof {
            reveal_strlit("Journal");
        }
        let mut k: usize = 0;
        let mut found = false;
        assert(self.vault.children@.skip(0) == self.vault.children@);
        while k < self.vault.children.len() && !found
            invariant
                k <= self.vault.children.len(),
                journal_folder(self.vault.children@) == journal_folder(self.vault.children@.skip(k as int)),
                found ==> k < self.vault.children.len() && self.vault.children@[k as int].name@ == "Journal"@,
            decreases self.vault.children.len() - k + (if found { 0int } else { 1int }),
        {
            if same_text(self.vault.children[k].name.as_str(), "Journal") {
                found = true;
            } else {
                assert(self.vault.children@.skip(k as int).drop_first() == self.vault.children@.skip(k + 1));
                k += 1;
            }
        }
        if !found {
            assert(self.vault.children@.skip(k as int).len() == 0);
            return Vec::new();
        }
        let folder = &self.vault.children[k];
        assert(self.vault.children@.skip(k as int)[0] == *folder);
        assert(journal_folder(self.vault.children@) == Some(*folder));
        let ghost notes_all = real_child_notes(folder.children@);
        let mut entries: Vec<&Note> = Vec::new();
        let mut j: usize = 0;
        while j < folder.children.len()
            invariant
                j <= folder.children.len(),
                derefs(entries@) == real_child_notes(folder.children@.take(j as int)),
            decreases folder.children.len() - j,
        {
            let c = &folder.children[j];
            assert(folder.children@.take(j + 1).drop_last() == folder.children@.take(j as int));
            if !c.is_virtual {
                match &c.note {
                    Some(n) => {
                        entries.push(n);
                    },
                    None => {},
                }
            }
            j += 1;
        }
        assert(folder.children@.take(folder.children.len() as int) == folder.children@);
        let ghost es = derefs(entries@);
        let mut keys: Vec<Vec<u64>> = Vec::new();
        let mut i: usize = 0;
        while i < entries.len()
            invariant
                i <= entries.len(),
                es == derefs(entries@),
                keys.len() == i,
                forall|a: int| 0 <= a < i ==> #[trigger] keys@[a]@ == title_keys(es)[a],
            decreases entries.len() - i,
        {
            keys.push(crate::order::key_of(entries[i].title.as_str()));
            i += 1;
        }
        assert(keys@.map_values(|x: Vec<u64>| x@) == title_keys(es));
        let order = crate::order::stable_order(&keys, true);
        let mut r: Vec<&Note> = Vec::new();
        let mut t: usize = 0;
        while t < order.len()
            invariant
                t <= order.len() == entries.len(),
                es == derefs(entries@),
                is_stable_order(title_keys(es), true, order@),
                r.len() == t,
                forall|a: int| 0 <= a < t ==> *r@[a] == es[#[trigger] order@[a] as int],
            decreases order.len() - t,
        {
            r.push(entries[order[t]]);
            t += 1;
        }
        assert(derefs(r@) =~= arranged(es, order@));
        r
    }

    /// The cache file of the selected trip day's static map under `<vault>/.silo`:
    /// `mapcache/<trip>-<day>-<l|d>.png`; the theme is part of the name because
    /// the light and dark map styles differ.
    pub fn map_cache_path(&self) -> (r: String)
        ensures
            r@ == map_cache_path_of(*self),
    {
        let silo = crate::vault::join(self.vault.path.as_str(), ".silo");
        let cache = crate::vault::join(silo.as_str(), "mapcache");
        let mut name = String::new();
        crate::format::push_decimal(&mut name, self.travel.trip as u64);
        crate::text::push_char(&mut name, '-');
        crate::format::push_decimal(&mut name, self.travel.trip_day as u64);
        crate::text::push_char(&mut name, '-');
        crate::text::push_char(&mut name, if self.is_dark() { 'd' } else { 'l' });
        name.append(".png");
        crate::vault::join(cache.as_str(), name.as_str())
    }

    /// The static map to fetch for the selected trip day, as (URL, cache file):
    /// only with a maps key and when the day exists and has stops.
    pub fn map_request(&self, key: Option<&str>) -> (r: Option<(String, String)>)
        ensures
            (key is None || !crate::travel_state::has_day(self.travel.trips@, self.travel.trip as int, self.travel.trip_day as int)) ==> r is None,
            key is Some && crate::travel_state::has_day(self.travel.trips@, self.travel.trip as int, self.travel.trip_day as int) ==> {
                let d = self.travel.trips@[self.travel.trip as int].days@[self.travel.trip_day as int];
                &&& (r is None <==> d.stops@.len() == 0)
                &&& r matches Some(p) ==> p.0@ == crate::travel::static_map_text(
                    d.stops@,
                    is_dark_setting(self.config.theme@),
                    key->0@,
                ) && p.1@ == map_cache_path_of(*self)
            },
    {
        let k = match key {
            Some(k) => k,
            None => return None,
        };
        let (_, day) = match self.travel.current_day() {
            Some(p) => p,
            None => return None,
        };
        match crate::travel::static_map_url(day.stops.as_slice(), self.is_dark(), k) {
            Some(url) => Some((url, self.map_cache_path())),
            None => None,
        }
    }

    /// Expand or collapse a tree node.
    pub fn toggle_collapsed(&mut self, id: NoteId)
        ensures
            *final(self) == (AppState { collapsed: final(self).collapsed, ..*old(self) }),
            final(self).collapsed@ == (if old(self).collapsed@.contains(id) {
                kept(old(self).collapsed@, Seq::new(old(self).collapsed@.len(), |i: int| old(self).collapsed@[i] != id))
            } else {
                old(self).collapsed@.push(id)
            }),
            final(self).collapsed@.contains(id) == !old(self).collapsed@.contains(id),
            old(self).collapsed@.no_duplicates() ==> final(self).collapsed@.no_duplicates(),
    {
        if crate::sidebar::contains_id(&self.collapsed, id) {
            let ghost c0 = self.collapsed@;
            let mut keep: Vec<bool> = Vec::new();
            let mut k: usize = 0;
            while k < self.collapsed.len()
                invariant
                    k <= self.collapsed.len(),
                    self.collapsed@ == c0,
                    keep@ == Seq::new(c0.len(), |i: int| c0[i] != id).take(k as int),
                decreases self.collapsed.len() - k,
            {
                keep.push(self.collapsed[k] != id);
                assert(Seq::new(c0.len(), |i: int| c0[i] != id).take(k + 1) == Seq::new(
                    c0.len(),
                    |i: int| c0[i] != id,
                ).take(k as int).push(c0[k as int] != id));
                k += 1;
            }
            assert(Seq::new(c0.len(), |i: int| c0[i] != id).take(c0.len() as int) == Seq::new(
                c0.len(),
                |i: int| c0[i] != id,
            ));
            let mut c: Vec<NoteId> = Vec::new();
            core::mem::swap(&mut c, &mut self.collapsed);
            self.collapsed = keep_flagged(c, &keep);
            proof {
                crate::order::lemma_kept_members(c0, Seq::new(c0.len(), |i: int| c0[i] != id));
            }
        } else {
            let ghost c0 = self.collapsed@;
            self.collapsed.push(id);
            proof {
                assert(self.collapsed@.last() == id);
                if c0.no_duplicates() {
                    assert forall|a: int, b: int| 0 <= a < b < self.collapsed@.len() implies self.collapsed@[a]
                        != self.collapsed@[b] by {
                        if b == c0.len() {
                            assert(c0.contains(c0[a]));
                        } else {
                            assert(c0[a] != c0[b]);
                        }
                    }
                }
            }
        }
    }

    /// Does deleting the note file `note_path` with its children folder
    /// `children_dir` remove the open note?
    pub fn deletes_open_note(&self, note_path: &str, children_dir: &str) -> (r: bool)
        ensures
            r == (match found_note(self.vault, self.selected) {
                Some(n) => crate::vault::path_components(n.path@) == crate::vault::path_components(note_path@)
                    || crate::vault::path_starts_with(n.path@, children_dir@),
                None => false,
            }),
    {
        match self.selected_note() {
            Some(n) => {
                let eq = crate::vault::same_path(n.path.as_str(), note_path);
                eq || crate::vault::starts_with_path(n.path.as_str(), children_dir)
            },
            None => false,
        }
    }

    /// Forget the open note (after it was deleted).
    pub fn clear_open_note(&mut self)
        ensures
            *final(self) == (AppState { selected: None, saved_text: None, ..*old(self) }),
    {
        self.selected = None;
        self.saved_text = None;
    }

    /// Open or close the palette, starting from an empty query on the first row.
    pub fn toggle_palette(&mut self)
        ensures
            *final(self) == (AppState { palette: final(self).palette, ..*old(self) }),
            final(self).palette.open == !old(self).palette.open,
            final(self).palette.query@.len() == 0,
            final(self).palette.selected == 0,
    {
        self.palette.open = !self.palette.open;
        self.palette.query = String::new();
        self.palette.selected = 0;
    }

    /// Type text into the palette query; the highlight returns to the first row.
    pub fn palette_push(&mut self, s: &str)
        ensures
            *final(self) == (AppState { palette: PaletteState {
                query: final(self).palette.query,
                selected: 0,
                ..old(self).palette
            }, ..*old(self) }),
            final(self).palette.query@ == old(self).palette.query@ + s@,
    {
        self.palette.query.append(s);
        self.palette.selected = 0;
    }

    /// Delete the query's last character, if any; the highlight returns to the
    /// first row.
    pub fn palette_pop(&mut self)
        ensures
            *final(self) == (AppState { palette: PaletteState {
                query: final(self).palette.query,
                selected: 0,
                ..old(self).palette
            }, ..*old(self) }),
            final(self).palette.query@ == (if old(self).palette.query@.len() == 0 {
                old(self).palette.query@
            } else {
                old(self).palette.query@.drop_last()
            }),
    {
        let v = to_chars(self.palette.query.as_str());
        if v.len() > 0 {
            self.palette.query = crate::text::string_of(&v, 0, v.len() - 1);
        }
        self.palette.selected = 0;
    }

    /// Move the palette highlight up (not past the first row).
    pub fn palette_up(&mut self)
        ensures
            *final(self) == (AppState { palette: PaletteState {
                selected: if old(self).palette.selected == 0 {
                    0
                } else {
                    (old(self).palette.selected - 1) as usize
                },
                ..old(self).palette
            }, ..*old(self) }),
    {
        self.palette.selected = if self.palette.selected == 0 { 0 } else { self.palette.selected - 1 };
    }

    /// Move the palette highlight down (rendering keeps it on the last row).
    pub fn palette_down(&mut self)
        requires
            old(self).palette.selected < usize::MAX,
        ensures
            *final(self) == (AppState { palette: PaletteState {
                selected: (old(self).palette.selected + 1) as usize,
                ..old(self).palette
            }, ..*old(self) }),
    {
        self.palette.selected = self.palette.selected + 1;
    }

    /// Close the palette.
    pub fn palette_close(&mut self)
        ensures
            *final(self) == (AppState { palette: PaletteState { open: false, ..old(self).palette }, ..*old(self) }),
    {
        self.palette.open = false;
    }

    /// Confirm the palette with `hits` search hits shown: it closes, and the
    /// highlighted row decides what runs (open a hit, or the new-note command).
    pub fn palette_confirm(&mut self, hits: usize) -> (r: PaletteAction)
        requires
            hits < usize::MAX,
        ensures
            *final(self) == (AppState { palette: PaletteState { open: false, ..old(self).palette }, ..*old(self) }),
            r == confirm_action(hits as int, old(self).palette.selected as int),
    {
        self.palette.open = false;
        confirm(hits, self.palette.selected)
    }

    /// What a key press does: `key` names the key, `has_text` tells whether it
    /// types text, `command` whether the command or control modifier is held.
    pub fn key_action(&self, key: &str, has_text: bool, command: bool) -> (r: KeyAction)
        ensures
            r == key_action_of(self.planner.prompt_open, self.palette.open, key@, has_text, command),
    {
        let typed = to_chars(key).len() == 1 && has_text && !command;
        if self.planner.prompt_open {
            if same_text(key, "enter") {
                KeyAction::PromptConfirm
            } else if same_text(key, "escape") {
                KeyAction::PromptCancel
            } else if same_text(key, "backspace") {
                KeyAction::PromptBackspace
            } else if typed {
                KeyAction::PromptType
            } else {
                KeyAction::Ignore
            }
        } else if !self.palette.open {
            KeyAction::Ignore
        } else if same_text(key, "backspace") {
            KeyAction::PalettePop
        } else if typed {
            KeyAction::PaletteType
        } else {
            KeyAction::Ignore
        }
    }

    /// The note to write when the editor holds `text`: the open note with that
    /// body (its title is derived again on read). `None` when no note is open.
    pub fn note_to_save(&self, text: &str) -> (r: Option<Note>)
        ensures
            (match found_note(self.vault, self.selected) {
                Some(n) => r matches Some(m) && m@ == (crate::note::NoteView { body: text@, ..n@ }),
                None => r is None,
            }),
    {
        match self.selected_note() {
            Some(n) => {
                let mut m = n.copy();
                m.body = String::from_str(text);
                Some(m)
            },
            None => None,
        }
    }

    /// Remember the text just written (or adopted) as the saved text.
    pub fn mark_saved(&mut self, text: String)
        ensures
            *final(self) == (AppState { saved_text: Some(text), ..*old(self) }),
    {
        self.saved_text = Some(text);
    }

    /// What to do with the open note after `paths` changed on disk, with the
    /// editor holding `current`: nothing if it is not among them; adopt the
    /// on-disk body when there are no unsaved edits; otherwise keep the edits and
    /// preserve the incoming file beside it, stamped with `stamp`.
    pub fn reload_action(&self, paths: &Vec<String>, current: Option<&str>, stamp: &str) -> (r:
        ReloadAction)
        ensures
            (match found_note(self.vault, self.selected) {
                None => r is Nothing,
                Some(n) => if !crate::app_state::paths_contain(paths@, n.path@) {
                    r is Nothing
                } else if opt_view(current) == opt_string_view(self.saved_text) {
                    r matches ReloadAction::Adopt(b) && b@ == n.body@
                } else {
                    r matches ReloadAction::Conflict(p) && p@ == crate::vault::conflict_path_of(
                        n.path@,
                        stamp@,
                    )
                },
            }),
    {
        let n = match self.selected_note() {
            Some(n) => n,
            None => return ReloadAction::Nothing,
        };
        let mut hit = false;
        let mut k: usize = 0;
        while k < paths.len()
            invariant
                k <= paths.len(),
                hit == exists|j: int|
                    0 <= j < k && crate::vault::path_components(#[trigger] paths@[j]@) == crate::vault::path_components(
                        n.path@,
                    ),
            decreases paths.len() - k,
        {
            if crate::vault::same_path(paths[k].as_str(), n.path.as_str()) {
                hit = true;
            }
            k += 1;
        }
        if !hit {
            return ReloadAction::Nothing;
        }
        let clean = match (current, &self.saved_text) {
            (Some(c), Some(s)) => same_text(c, s.as_str()),
            (None, None) => true,
            _ => false,
        };
        if clean {
            ReloadAction::Adopt(n.body.clone())
        } else {
            ReloadAction::Conflict(crate::vault::conflict_path(n.path.as_str(), stamp))
        }
    }
}

/// The static-map cache file of the selected trip day.
pub open spec fn map_cache_path_of(st: AppState) -> Seq<char> {
    crate::vault::join_path(
        crate::vault::join_path(crate::vault::join_path(st.vault.path@, ".silo"@), "mapcache"@),
        crate::format::dec(st.travel.trip as nat) + seq!['-'] + crate::format::dec(st.travel.trip_day as nat)
            + seq!['-'] + (if is_dark_setting(st.config.theme@) {
            seq!['d']
        } else {
            seq!['l']
        }) + ".png"@,
    )
}

/// The first child of the vault named `Journal`, where dated entries live.
pub open spec fn journal_folder(children: Seq<Notebook>) -> Option<Notebook>
    decreases children.len(),
{
    if children.len() == 0 {
        None
    } else if children[0].name@ == "Journal"@ {
        Some(children[0])
    } else {
        journal_folder(children.drop_first())
    }
}

/// The notes of the real (not virtual) nodes among `nodes`, in order.
pub open spec fn real_child_notes(nodes: Seq<Notebook>) -> Seq<Note>
    decreases nodes.len(),
{
    if nodes.len() == 0 {
        Seq::empty()
    } else {
        let rest = real_child_notes(nodes.drop_last());
        let c = nodes.last();
        if !c.is_virtual && c.note is Some {
            rest.push(c.note->0)
        } else {
            rest
        }
    }
}

/// Sort keys of notes: their titles.
pub open spec fn title_keys(ns: Seq<Note>) -> Seq<Seq<u64>> {
    ns.map_values(|n: Note| crate::order::char_key(n.title@))
}

/// Does the list hold a path equal to `p` (as a `Path`: component by component)?
pub open spec fn paths_contain(paths: Seq<String>, p: Seq<char>) -> bool {
    exists|j: int|
        0 <= j < paths.len() && crate::vault::path_components(#[trigger] paths[j]@) == crate::vault::path_components(p)
}

/// The text of an optional string slice.
pub open spec fn opt_view(s: Option<&str>) -> Option<Seq<char>> {
    match s {
        Some(x) => Some(x@),
        None => None,
    }
}

/// The text of an optional string.
pub open spec fn opt_string_view(s: Option<String>) -> Option<Seq<char>> {
    match s {
        Some(x) => Some(x@),
        None => None,
    }
}


/// Is a changed path our own recent write (the same path, written less than a
/// second ago)?
pub open spec fn is_self_write(p: Seq<char>, self_write: Option<Seq<char>>, elapsed_ms: u64) -> bool {
    self_write matches Some(w) && crate::vault::path_components(w) == crate::vault::path_components(p)
        && elapsed_ms < 1000
}

/// The changed paths that are not our own recent autosave, in order.
pub fn external_changes(paths: Vec<String>, self_write: Option<&str>, elapsed_ms: u64) -> (r: Vec<String>)
    ensures
        r@ == kept(paths@, Seq::new(paths@.len(), |i: int| !is_self_write(paths@[i]@, opt_view(self_write), elapsed_ms))),
{
    let ghost flags = Seq::new(paths@.len(), |i: int| !is_self_write(paths@[i]@, opt_view(self_write), elapsed_ms));
    let mut keep: Vec<bool> = Vec::new();
    let mut k: usize = 0;
    while k < paths.len()
        invariant
            k <= paths.len(),
            flags == Seq::new(paths@.len(), |i: int| !is_self_write(paths@[i]@, opt_view(self_write), elapsed_ms)),
            keep@ == flags.take(k as int),
        decreases paths.len() - k,
    {
        let mine = match self_write {
            Some(w) => crate::vault::same_path(w, paths[k].as_str()) && elapsed_ms < 1000,
            None => false,
        };
        keep.push(!mine);
        assert(flags.take(k + 1) == flags.take(k as int).push(flags[k as int]));
        k += 1;
    }
    assert(flags.take(paths.len() as int) == flags);
    keep_flagged(paths, &keep)
}

/// A clock stamp made safe for a file name: every `:` becomes `-`.
pub open spec fn file_stamp(now: Seq<char>) -> Seq<char> {
    now.map_values(|c: char| if c == ':' { '-' } else { c })
}

/// Replace the `:`s of a time stamp with `-`s.
pub fn stamp_for_file(now: &str) -> (r: String)
    ensures
        r@ == file_stamp(now@),
{
    let v = to_chars(now);
    let mut r = String::new();
    let mut k: usize = 0;
    while k < v.len()
        invariant
            k <= v.len(),
            v@ == now@,
            r@ == file_stamp(v@.take(k as int)),
        decreases v.len() - k,
    {
        let c = if v[k] == ':' { '-' } else { v[k] };
        crate::text::push_char(&mut r, c);
        assert(file_stamp(v@.take(k + 1)) == file_stamp(v@.take(k as int)).push(c));
        k += 1;
    }
    assert(v@.take(v.len() as int) == v@);
    r
}

/// Collapsing a node and expanding it again restores the collapsed set.
pub proof fn lemma_toggle_collapsed_twice(collapsed: Seq<NoteId>, id: NoteId)
    requires
        !collapsed.contains(id),
    ensures
        collapsed.push(id).contains(id),
        kept(
            collapsed.push(id),
            Seq::new(collapsed.push(id).len(), |i: int| collapsed.push(id)[i] != id),
        ) == collapsed,
{
    let all = collapsed.push(id);
    assert(all[all.len() - 1] == id);
    let flags = Seq::new(all.len(), |i: int| all[i] != id);
    let inner = Seq::new(collapsed.len(), |i: int| collapsed[i] != id);
    assert(flags.drop_last() == inner);
    assert(all.drop_last() == collapsed);
    assert forall|i: int| 0 <= i < inner.len() implies inner[i] by {
        assert(collapsed[i] != id);
    }
    crate::order::lemma_kept_all(collapsed, inner);
}

} // verus!
