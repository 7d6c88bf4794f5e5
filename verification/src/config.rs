//! The app-global configuration record (which vault, the last open note, the
//! theme). It is stored outside any vault: the "which vault" pointer cannot live
//! inside the vault it names.

use vstd::prelude::*;

verus! {

/// App-global config.
#[derive(Clone, Debug, PartialEq)]
pub struct AppConfig {
    /// The vault folder last opened.
    pub vault_path: Option<String>,
    /// The id text of the note last opened.
    pub last_note: Option<String>,
    /// `"dark"` selects the dark theme; anything else is light.
    pub theme: String,
}

impl Default for AppConfig {
    /// No vault, no last note, the default (light) theme.
    fn default() -> (c: AppConfig)
        ensures
            c.vault_path is None,
            c.last_note is None,
            c.theme@.len() == 0,
    {
        AppConfig { vault_path: None, last_note: None, theme: String::new() }
    }
}

/// Does a theme setting select the dark theme?
pub open spec fn is_dark_setting(theme: Seq<char>) -> bool {
    theme == "dark"@
}

impl AppConfig {
    /// Does the config select the dark theme?
    pub fn is_dark(&self) -> (r: bool)
        ensures
            r == is_dark_setting(self.theme@),
    {
        proof {
            reveal_strlit("dark");
        }
        let v = crate::text::to_chars(self.theme.as_str());
        let r = v.len() == 4 && v[0] == 'd' && v[1] == 'a' && v[2] == 'r' && v[3] == 'k';
        proof {
            if self.theme@ == "dark"@ {
                assert(v@[0] == 'd' && v@[1] == 'a' && v@[2] == 'r' && v@[3] == 'k');
            }
            if r {
                assert(v@ =~= "dark"@);
            }
        }
        r
    }
}

} // verus!
