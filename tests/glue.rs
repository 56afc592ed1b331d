use steam_shortcuts::app_id::{app_id_from_checksum, generate_app_id};
use steam_shortcuts::config::{Actions, AddFlatpak, Config};
use steam_shortcuts::desktop_file::DesktopFile;
use steam_shortcuts::flatpak::{create_flatpak_shortcut, create_minus_games_shortcut_from_game_name, needs_flatpak_fix, FlatPakCreationError};
use steam_shortcuts::steam::{nearest_index, to_ascii_lowercase, App, AppList, AppListResult, LoginUsers};
use steam_shortcuts::text::trim_lines;
use steam_shortcuts::text::decimal_string;

fn lines(ls: &[&str]) -> Vec<String> {
    ls.iter().map(|l| l.to_string()).collect()
}

#[test]
fn app_id_is_checksum_with_top_bit() {
    assert_eq!(generate_app_id("/usr/bin/flatpak", "org.example.App"), 3178292794);
    assert_eq!(generate_app_id("", ""), 0x8000_0000);
}

#[test]
fn to_exec_starts_at_quoted_run() {
    let d = DesktopFile {
        name: "X".to_string(),
        icon: "x".to_string(),
        command: r#"/usr/bin/flatpak "run" --branch=stable org.x.X"#.to_string(),
    };
    assert_eq!(d.to_exec(), r#""run" --branch=stable org.x.X"#);
}

#[test]
fn to_exec_starts_at_plain_run_or_keeps_all() {
    let d = DesktopFile {
        name: String::new(),
        icon: String::new(),
        command: "/usr/bin/flatpak run --branch=stable org.x.X @@u %U @@".to_string(),
    };
    assert_eq!(d.to_exec(), "run --branch=stable org.x.X @@u %U @@");
    let e = DesktopFile {
        name: String::new(),
        icon: String::new(),
        command: "gimp %f".to_string(),
    };
    assert_eq!(e.to_exec(), "gimp %f");
}

#[test]
fn desktop_lines_keep_first_nonempty_values() {
    let d = DesktopFile::from_lines(&lines(&[
        "[Desktop Entry]",
        "  Name=Boxy SVG  ",
        "Name=Other",
        "Icon=",
        "Icon=com.boxy_svg.BoxySVG",
        "Exec=/usr/bin/flatpak run --command=boxy-svg com.boxy_svg.BoxySVG @@ %f @@",
        "Comment=a=b",
    ]));
    assert_eq!(d.name, "Boxy SVG");
    assert_eq!(d.icon, "com.boxy_svg.BoxySVG");
    assert_eq!(d.command, "/usr/bin/flatpak run --command=boxy-svg com.boxy_svg.BoxySVG @@ %f @@");
}

#[test]
fn flatpak_shortcut_is_built_from_desktop_entry() {
    let d = DesktopFile {
        name: "Example".to_string(),
        icon: "org.example.App".to_string(),
        command: "/usr/bin/flatpak run --branch=stable org.example.App @@ %f @@".to_string(),
    };
    let e = create_flatpak_shortcut(
        "org.example.App",
        d,
        "/apps/org.example.App.desktop".to_string(),
        "/icons/org.example.App.png".to_string(),
    );
    assert_eq!(e.appid, 3178292794);
    assert_eq!(e.app_name, "Example");
    assert_eq!(e.exe, "/usr/bin/flatpak");
    assert_eq!(e.start_dir, "/usr/bin");
    assert_eq!(e.icon, "/icons/org.example.App.png");
    assert_eq!(e.shortcut_path, "/apps/org.example.App.desktop");
    assert_eq!(e.launch_options, r#""run" "--branch=stable" "org.example.App" "@@" "@@""#);
    assert_eq!(e.allow_desktop_config, 1);
    assert_eq!(e.allow_overlay, 1);
    assert_eq!(e.is_hidden, 0);
    assert_eq!(e.flatpak_app_id, "org.example.App");
    assert!(e.tags.is_empty());
}

#[test]
fn minus_games_shortcut_runs_the_game_by_name() {
    let e = create_minus_games_shortcut_from_game_name("Celeste", String::new());
    assert_eq!(
        e.launch_options,
        "run --branch=stable --arch=x86_64 --command=/app/bin/minus_games_gui io.github.accessory.minus_games_gui --mode Cli run-game-synced \"Celeste\""
    );
    assert_eq!(e.appid, 2784738416);
    assert_eq!(e.app_name, "Celeste");
    assert_eq!(e.shortcut_path, "");
    assert_eq!(e.flatpak_app_id, "");
}

#[test]
fn creation_error_carries_its_message() {
    let e = FlatPakCreationError::DesktopFileNotFound("missing".to_string());
    assert!(matches!(e, FlatPakCreationError::DesktopFileNotFound(ref m) if m == "missing"));
    assert!(matches!(FlatPakCreationError::CannotParseDesktopFile, FlatPakCreationError::CannotParseDesktopFile));
}

#[test]
fn action_defaults_to_printing() {
    let mut c = Config { action: None, steam_user_id: None, steam_shortcuts_file: None };
    assert!(matches!(c.get_action(), Actions::PrintShortcuts));
    c.action = Some(Actions::AddFlatpak(AddFlatpak { flatpak_id: "a.b".to_string() }));
    assert!(matches!(c.get_action(), Actions::AddFlatpak(a) if a.flatpak_id == "a.b"));
}

#[test]
fn lowercase_touches_only_ascii_letters() {
    assert_eq!(to_ascii_lowercase("House PARTY Ä"), "house party Ä");
}

#[test]
fn nearest_store_name_wins() {
    let list = AppListResult {
        app_list: AppList {
            apps: vec![
                App { app_id: 10, name: "Chaos Party".to_string() },
                App { app_id: 611790, name: "House Party".to_string() },
                App { app_id: 12, name: "Completely Different".to_string() },
            ],
        },
    };
    assert_eq!(list.best_steam_app_id("house party"), Some(611790));
    assert_eq!(AppListResult::default().best_steam_app_id("x"), None);
}

#[test]
fn first_user_id_is_read_after_the_brace() {
    let ls = lines(&[
        "\"users\"",
        "{",
        "\t\"76561198000000000\"",
        "\t{",
    ]);
    assert_eq!(LoginUsers::get_first_user_id(&ls), Some("39734272".to_string()));
}

#[test]
fn first_user_id_needs_a_key_of_nineteen_bytes() {
    let ls = lines(&["\"users\"", "{", "\t\"7656\"", "\"1234567890123456x\""]);
    assert_eq!(LoginUsers::get_first_user_id(&ls), None);
    let blank = lines(&["\"users\"", "", "{"]);
    assert_eq!(LoginUsers::get_first_user_id(&blank), None);
    let low = lines(&["{", "\"00000000000000001\""]);
    assert_eq!(LoginUsers::get_first_user_id(&low), None);
}

#[test]
fn login_users_start_empty() {
    assert!(LoginUsers::default().users.is_empty());
}

#[test]
fn decimal_strings() {
    assert_eq!(decimal_string(0), "0");
    assert_eq!(decimal_string(1234567), "1234567");
}

#[test]
fn flatpak_repair_selects_iconless_flatpak_shortcuts() {
    let mut e = create_minus_games_shortcut_from_game_name("Celeste", String::new());
    assert!(needs_flatpak_fix(&e, false));
    e.icon = "/x.png".to_string();
    assert!(!needs_flatpak_fix(&e, false));
    assert!(needs_flatpak_fix(&e, true));
    e.icon = String::new();
    e.exe = "/usr/bin/steam".to_string();
    assert!(!needs_flatpak_fix(&e, false));
}

#[test]
fn checksum_gets_top_bit() {
    assert_eq!(app_id_from_checksum(0x1234_5678), 0x9234_5678);
    assert_eq!(app_id_from_checksum(0xFFFF_FFFF), 0xFFFF_FFFF);
}

#[test]
fn nearest_index_takes_first_smallest() {
    assert_eq!(nearest_index(&vec![]), None);
    assert_eq!(nearest_index(&vec![5, 2, 7, 2]), Some(1));
    assert_eq!(nearest_index(&vec![0]), Some(0));
}

#[test]
fn trimmed_desktop_lines_are_not_trimmed_again() {
    let d = DesktopFile::from_trimmed_lines(&lines(&[" Name=A", "Name= B ", "Exec=run x"]));
    assert_eq!(d.name, " B ");
    assert_eq!(d.command, "run x");
    assert_eq!(d.icon, "");
}

#[test]
fn trimming_strips_both_ends() {
    let t = trim_lines(&lines(&["  a b\t", "", "\u{a0}x\u{a0}"]));
    assert_eq!(t, vec!["a b".to_string(), String::new(), "x".to_string()]);
}

#[test]
fn trimmed_login_lines_are_read_directly() {
    let ls = lines(&["{", "\"76561198000000000\""]);
    assert_eq!(LoginUsers::first_user_id_of_trimmed(&ls), Some("39734272".to_string()));
    let untrimmed = lines(&["{", "  \"76561198000000000\""]);
    assert_eq!(LoginUsers::first_user_id_of_trimmed(&untrimmed), Some("39734272".to_string()));
}
