//! ⌘K command palette state: a query, a highlighted row, and what confirming does.
//! The rows are the search hits followed by the commands.

use vstd::prelude::*;

verus! {

/// The commands shown after the search hits (their order decides confirm).
pub const COMMANDS: [&'static str; 1] = ["New note"];

/// How many search hits the palette requests and shows.
pub const LIMIT: usize = 12;

/// The palette's open state, query and highlighted row.
#[derive(Clone, Debug)]
pub struct PaletteState {
    pub open: bool,
    pub query: String,
    pub selected: usize,
}

impl PaletteState {
    /// A closed palette with an empty query and the first row highlighted.
    pub fn new() -> (p: PaletteState)
        ensures
            !p.open,
            p.query@.len() == 0,
            p.selected == 0,
    {
        PaletteState { open: false, query: String::new(), selected: 0 }
    }
}

/// The highlighted row among `total` rows: the selection, kept on the last row.
pub open spec fn clamped(selected: int, total: int) -> int {
    if total == 0 {
        0
    } else if selected < total - 1 {
        selected
    } else {
        total - 1
    }
}

/// The row to highlight among `total` rows.
pub fn clamped_selection(selected: usize, total: usize) -> (r: usize)
    ensures
        r == clamped(selected as int, total as int),
{
    if total == 0 {
        0
    } else if selected < total - 1 {
        selected
    } else {
        total - 1
    }
}

/// What confirming the palette does.
#[derive(Clone, Copy, Debug, PartialEq, Eq, Structural)]
pub enum PaletteAction {
    /// Nothing to run (no rows).
    Nothing,
    /// Open the search hit at this position.
    OpenHit(usize),
    /// Create a new note.
    NewNote,
}

/// What confirming with `hits` search hits and row `selected` highlighted does:
/// the highlighted hit is opened, the command row creates a note.
pub open spec fn confirm_action(hits: int, selected: int) -> PaletteAction {
    let total = hits + 1;
    let sel = clamped(selected, total);
    if sel < hits {
        PaletteAction::OpenHit(sel as usize)
    } else {
        PaletteAction::NewNote
    }
}

/// Resolve a confirm with `hits` search hits shown.
pub fn confirm(hits: usize, selected: usize) -> (r: PaletteAction)
    requires
        hits < usize::MAX,
    ensures
        r == confirm_action(hits as int, selected as int),
{
    let total = hits + COMMANDS.len();
    let sel = clamped_selection(selected, total);
    if sel < hits {
        PaletteAction::OpenHit(sel)
    } else {
        PaletteAction::NewNote
    }
}

} // verus!
