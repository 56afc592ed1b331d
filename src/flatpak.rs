//! Shortcuts for applications installed through Flatpak and for games of the
//! Minus Games launcher.

use vstd::prelude::*;

use crate::app_id::{app_id_of, generate_app_id};
use crate::desktop_file::{exec_from_run, find_chars, first_occurrence, DesktopFile};
use crate::launch_options::{fix_launch_options, normalized};
use crate::shortcut::{EntryView, ShortcutEntry};
use crate::text::{chars_of, push_str};

verus! {

/// Why no shortcut could be made for a Flatpak application.
#[derive(Debug)]
pub enum FlatPakCreationError {
    /// No desktop entry at the expected place; the message names it.
    DesktopFileNotFound(String),
    /// The desktop entry could not be read.
    CannotParseDesktopFile,
}

/// A shortcut that the launcher shows, allows desktop configuration and the
/// overlay for, and that has never been played.
pub open spec fn launcher_entry(
    appid: u32,
    app_name: Seq<char>,
    icon: Seq<char>,
    shortcut_path: Seq<char>,
    launch_options: Seq<char>,
    flatpak_app_id: Seq<char>,
) -> EntryView {
    EntryView {
        appid,
        app_name,
        exe: "/usr/bin/flatpak"@,
        start_dir: "/usr/bin"@,
        icon,
        shortcut_path,
        launch_options,
        is_hidden: 0,
        allow_desktop_config: 1,
        allow_overlay: 1,
        open_vr: 0,
        devkit: 0,
        devkit_game_id: Seq::empty(),
        devkit_override_app_id: 0,
        last_play_time: 0,
        flatpak_app_id,
        tags: Seq::empty(),
    }
}

fn launcher_shortcut(
    appid: u32,
    app_name: String,
    icon: String,
    shortcut_path: String,
    launch_options: String,
    flatpak_app_id: String,
) -> (r: ShortcutEntry)
    ensures
        r@ == launcher_entry(appid, app_name@, icon@, shortcut_path@, launch_options@, flatpak_app_id@),
{
    broadcast use vstd::string::group_string_axioms;

    let r = ShortcutEntry {
        appid,
        app_name,
        exe: "/usr/bin/flatpak".to_string(),
        start_dir: "/usr/bin".to_string(),
        icon,
        shortcut_path,
        launch_options,
        is_hidden: 0,
        allow_desktop_config: 1,
        allow_overlay: 1,
        open_vr: 0,
        devkit: 0,
        devkit_game_id: String::new(),
        devkit_override_app_id: 0,
        last_play_time: 0,
        flatpak_app_id,
        tags: Vec::new(),
    };
    assert(r.tags.deep_view() =~= Seq::<Seq<char>>::empty());
    r
}

/// The shortcut for the Flatpak application `flatpak_id`, from its desktop
/// entry (read from `desktop_file_path`) and the icon found for it. It
/// starts `flatpak` with the normalised command of the desktop entry.
pub fn create_flatpak_shortcut(
    flatpak_id: &str,
    desktop_file: DesktopFile,
    desktop_file_path: String,
    icon: String,
) -> (r: ShortcutEntry)
    ensures
        r@ == launcher_entry(
            app_id_of("/usr/bin/flatpak"@, flatpak_id@),
            desktop_file.name@,
            icon@,
            desktop_file_path@,
            normalized(exec_from_run(desktop_file.command@)),
            flatpak_id@,
        ),
{
    broadcast use vstd::string::group_string_axioms;

    let appid = generate_app_id("/usr/bin/flatpak", flatpak_id);
    let launch_options = fix_launch_options(desktop_file.to_exec());
    launcher_shortcut(
        appid,
        desktop_file.name,
        icon,
        desktop_file_path,
        launch_options,
        flatpak_id.to_string(),
    )
}

/// The command that makes the Minus Games client start `game_name`.
pub open spec fn minus_games_command(game_name: Seq<char>) -> Seq<char> {
    "run --branch=stable --arch=x86_64 --command=/app/bin/minus_games_gui io.github.accessory.minus_games_gui --mode Cli run-game-synced \""@
        + game_name + "\""@
}

/// The shortcut that starts `game_name` through the Minus Games client,
/// with `icon` as its picture (empty where none was fetched).
pub fn create_minus_games_shortcut_from_game_name(game_name: &str, icon: String) -> (r: ShortcutEntry)
    ensures
        r@ == launcher_entry(
            app_id_of("/usr/bin/flatpak"@, minus_games_command(game_name@)),
            game_name@,
            icon@,
            Seq::empty(),
            minus_games_command(game_name@),
            Seq::empty(),
        ),
{
    broadcast use vstd::string::group_string_axioms;

    let mut launch_options =
        "run --branch=stable --arch=x86_64 --command=/app/bin/minus_games_gui io.github.accessory.minus_games_gui --mode Cli run-game-synced \""
        .to_string();
    push_str(&mut launch_options, game_name);
    push_str(&mut launch_options, "\"");
    let appid = generate_app_id("/usr/bin/flatpak", launch_options.as_str());
    launcher_shortcut(
        appid,
        game_name.to_string(),
        icon,
        String::new(),
        launch_options,
        String::new(),
    )
}

/// Whether a shortcut is one to repair: every shortcut when `force`, else
/// one without an icon whose executable mentions `flatpak`.
pub open spec fn needs_fix(icon: Seq<char>, exe: Seq<char>, force: bool) -> bool {
    force || (icon.len() == 0 && first_occurrence(exe, seq!['f', 'l', 'a', 't', 'p', 'a', 'k']) is Some)
}

/// Whether `shortcut` is one that the Flatpak repair looks at.
pub fn needs_flatpak_fix(shortcut: &ShortcutEntry, force: bool) -> (r: bool)
    ensures
        r == needs_fix(shortcut.icon@, shortcut.exe@, force),
{
    if force {
        return true;
    }
    if !shortcut.icon.as_str().is_empty() {
        return false;
    }
    let exe = chars_of(shortcut.exe.as_str());
    let word = vec!['f', 'l', 'a', 't', 'p', 'a', 'k'];
    assert(word@ =~= seq!['f', 'l', 'a', 't', 'p', 'a', 'k']);
    find_chars(&exe, &word).is_some()
}

} // verus!
