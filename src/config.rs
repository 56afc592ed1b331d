//! The tool's settings: which action to run and where the registry lives.

use vstd::prelude::*;

verus! {

/// Settings of the action that adds a game of the Minus Games launcher.
#[derive(Debug, Clone)]
pub struct AddMinusGamesGameToSteam {
    /// Directory of the game; its last component is the game's name.
    pub game_path: String,
    pub is_flatpak: bool,
    pub steam_id: Option<u32>,
}

/// Settings of the action that adds an installed Flatpak application.
#[derive(Debug, Clone)]
pub struct AddFlatpak {
    pub flatpak_id: String,
}

/// What the tool is asked to do.
#[derive(Debug, Clone)]
pub enum Actions {
    PrintShortcuts,
    PrintOnlyShortcuts,
    AddMinusGamesGameToSteam(AddMinusGamesGameToSteam),
    FixFlatpak,
    AddFlatpak(AddFlatpak),
}

/// The tool's settings.
#[derive(Debug, Clone)]
pub struct Config {
    pub action: Option<Actions>,
    pub steam_user_id: Option<String>,
    /// Path of the registry file, where it is given explicitly.
    pub steam_shortcuts_file: Option<String>,
}

impl Config {
    /// The action asked for; printing the registry when none is.
    pub fn get_action(&self) -> (r: &Actions)
        ensures
            self.action is Some ==> r == &self.action->0,
            self.action is None ==> r is PrintShortcuts,
    {
        match &self.action {
            Some(a) => a,
            None => &Actions::PrintShortcuts,
        }
    }
}

} // verus!
