//! The user's settings.

use vstd::prelude::*;
use vstd::string::*;

verus! {

/// The account whose shortcut catalog is rewritten unless the user names another.
pub const DEFAULT_USER_ID: u32 = 86176907;

/// What the settings hold, as plain mathematical values.
pub struct ConfigModel {
    pub prism_main_path: Seq<char>,
    pub steam_shortcuts_path: Seq<char>,
    pub user_id: u32,
    pub include_hidden: bool,
}

/// Where the instance launcher and the shortcut catalog are, for which
/// account, and whether hidden groups are listed. Paths are kept as text:
/// they end up inside the shortcuts that are written.
#[derive(Debug)]
pub struct Config {
    pub prism_main_path: String,
    pub steam_shortcuts_path: String,
    pub user_id: u32,
    pub include_hidden: bool,
}

impl ConfigModel {
    /// The settings of a first start with the two paths as found: the
    /// default account, hidden groups left out.
    pub open spec fn first_start(
        prism_main_path: Seq<char>,
        steam_shortcuts_path: Seq<char>,
    ) -> ConfigModel {
        ConfigModel {
            prism_main_path,
            steam_shortcuts_path,
            user_id: DEFAULT_USER_ID,
            include_hidden: false,
        }
    }
}

impl View for Config {
    type V = ConfigModel;

    open spec fn view(&self) -> ConfigModel {
        ConfigModel {
            prism_main_path: self.prism_main_path@,
            steam_shortcuts_path: self.steam_shortcuts_path@,
            user_id: self.user_id,
            include_hidden: self.include_hidden,
        }
    }
}

impl Clone for Config {
    fn clone(&self) -> (copy: Self)
        ensures
            copy@ == self@,
    {
        Config {
            prism_main_path: self.prism_main_path.clone(),
            steam_shortcuts_path: self.steam_shortcuts_path.clone(),
            user_id: self.user_id,
            include_hidden: self.include_hidden,
        }
    }
}

impl Config {
    /// The settings of a first start with the two paths as found.
    pub fn with_paths(prism_main_path: String, steam_shortcuts_path: String) -> (config: Self)
        ensures
            config@ == ConfigModel::first_start(prism_main_path@, steam_shortcuts_path@),
    {
        Self { prism_main_path, steam_shortcuts_path, user_id: DEFAULT_USER_ID, include_hidden: false }
    }
}

impl Default for Config {
    /// The settings of a first start on which neither path was found.
    fn default() -> (config: Self)
        ensures
            config@ == ConfigModel::first_start(Seq::empty(), Seq::empty()),
    {
        Self::with_paths(String::new(), String::new())
    }
}

} // verus!
