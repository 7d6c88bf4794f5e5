//! Silo: the domain logic of a local-first Markdown notes app.

pub mod app_state;
pub mod config;
pub mod editor;
pub mod format;
pub mod index;
pub mod markdown;
pub mod note;
pub mod notebook;
pub mod order;
pub mod palette;
pub mod planner;
pub mod planner_state;
pub mod sidebar;
pub mod text;
pub mod theme;
pub mod training;
pub mod travel;
pub mod travel_state;
pub mod utf;
pub mod vault;
