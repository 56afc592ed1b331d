use steam_shortcuts::decode::{add_integer_to_shortcut, add_string_to_shortcut, try_read_integer, try_read_string};
use steam_shortcuts::encode::{insert_entry_string_integer, insert_entry_string_map, insert_entry_string_string};
use steam_shortcuts::parsing_error::ParsingError;
use steam_shortcuts::shortcut::{ShortcutEntry, Shortcuts};

fn entry(appid: u32, name: &str) -> ShortcutEntry {
    ShortcutEntry {
        appid,
        app_name: name.to_string(),
        exe: "/usr/bin/flatpak".to_string(),
        start_dir: "/usr/bin".to_string(),
        icon: "/icons/x.png".to_string(),
        shortcut_path: "/apps/x.desktop".to_string(),
        launch_options: "\"run\" \"x\"".to_string(),
        is_hidden: 0,
        allow_desktop_config: 1,
        allow_overlay: 1,
        open_vr: 0,
        devkit: 0,
        devkit_game_id: "".to_string(),
        devkit_override_app_id: 7,
        last_play_time: 1_700_000_000,
        flatpak_app_id: "org.example.X".to_string(),
        tags: vec![],
    }
}

fn same(a: &ShortcutEntry, b: &ShortcutEntry) -> bool {
    a.appid == b.appid
        && a.app_name == b.app_name
        && a.exe == b.exe
        && a.start_dir == b.start_dir
        && a.icon == b.icon
        && a.shortcut_path == b.shortcut_path
        && a.launch_options == b.launch_options
        && a.is_hidden == b.is_hidden
        && a.allow_desktop_config == b.allow_desktop_config
        && a.allow_overlay == b.allow_overlay
        && a.open_vr == b.open_vr
        && a.devkit == b.devkit
        && a.devkit_game_id == b.devkit_game_id
        && a.devkit_override_app_id == b.devkit_override_app_id
        && a.last_play_time == b.last_play_time
        && a.flatpak_app_id == b.flatpak_app_id
}

/// Bytes of a registry whose entries carry the given index strings and one
/// integer field each.
fn stream_with_indices(indices: &[&str]) -> Vec<u8> {
    let mut b = vec![0u8];
    b.extend_from_slice(b"shortcuts\0");
    for idx in indices {
        b.push(0);
        b.extend_from_slice(idx.as_bytes());
        b.push(0);
        b.push(2);
        b.extend_from_slice(b"appid\0");
        b.extend_from_slice(&[1, 0, 0, 0]);
        b.push(8);
    }
    b.push(8);
    b.push(8);
    b
}

#[test]
fn empty_collection_encodes_to_header_and_two_end_markers() {
    let bytes = Shortcuts::default().to_bytes();
    assert_eq!(bytes, b"\0shortcuts\0\x08\x08".to_vec());
    let back = Shortcuts::try_from_bytes(&bytes).unwrap();
    assert!(back.shortcuts.is_empty());
}

#[test]
fn round_trip_keeps_content_and_order() {
    let mut c = Shortcuts::default();
    c.shortcuts.push(entry(42, "First"));
    c.shortcuts.push(entry(0x8000_0001, "Second"));
    c.shortcuts.push(entry(3, "Third with spaces"));
    let bytes = c.to_bytes();
    let back = Shortcuts::try_from_bytes(&bytes).unwrap();
    assert_eq!(back.shortcuts.len(), 3);
    for i in 0..3 {
        assert!(same(&c.shortcuts[i], &back.shortcuts[i]));
        assert!(back.shortcuts[i].tags.is_empty());
    }
}

#[test]
fn encoding_writes_fields_in_fixed_order() {
    let mut c = Shortcuts::default();
    c.shortcuts.push(entry(0x0403_0201, "A"));
    let bytes = c.to_bytes();
    let mut expected = b"\0shortcuts\0\x000\0\x02appid\0\x01\x02\x03\x04\x01AppName\0A\0".to_vec();
    assert_eq!(&bytes[..expected.len()], &expected[..]);
    expected = b"\x00tags\0\x08\x08\x08\x08".to_vec();
    assert_eq!(&bytes[bytes.len() - expected.len()..], &expected[..]);
}

#[test]
fn second_index_out_of_line_is_rejected() {
    let ok = stream_with_indices(&["0", "1"]);
    assert_eq!(Shortcuts::try_from_bytes(&ok).unwrap().shortcuts.len(), 2);
    let bad = stream_with_indices(&["0", "5"]);
    assert!(matches!(
        Shortcuts::try_from_bytes(&bad),
        Err(ParsingError::ShortcutsEntriesDoNotAlign)
    ));
}

#[test]
fn unknown_string_key_is_rejected() {
    let mut b = b"\0shortcuts\0\x000\0".to_vec();
    b.extend_from_slice(b"\x01Bogus\0value\0\x08\x08\x08");
    match Shortcuts::try_from_bytes(&b) {
        Err(ParsingError::UnknownKey(k)) => assert_eq!(k, "Bogus"),
        other => panic!("unexpected: {:?}", other),
    }
}

#[test]
fn truncated_integer_is_rejected() {
    let mut b = b"\0shortcuts\0\x000\0".to_vec();
    b.extend_from_slice(b"\x02appid\0\x01\x02");
    assert!(matches!(
        Shortcuts::try_from_bytes(&b),
        Err(ParsingError::FailedToParseInteger)
    ));
}

#[test]
fn wrong_first_byte_is_rejected() {
    assert!(matches!(
        Shortcuts::try_from_bytes(b"\x01shortcuts\0\x08\x08"),
        Err(ParsingError::WrongStartingByte)
    ));
}

#[test]
fn missing_section_name_is_rejected() {
    assert!(matches!(
        Shortcuts::try_from_bytes(b"\0shortcutz\0\x08\x08"),
        Err(ParsingError::ShortcutsNotFound)
    ));
    assert!(matches!(
        Shortcuts::try_from_bytes(b"\0short"),
        Err(ParsingError::ShortcutsNotFound)
    ));
}

#[test]
fn unknown_field_type_is_rejected() {
    let b = b"\0shortcuts\0\x000\0\x05x\0\x08\x08\x08".to_vec();
    assert!(matches!(
        Shortcuts::try_from_bytes(&b),
        Err(ParsingError::InvalidMapType(5))
    ));
}

#[test]
fn unterminated_string_is_rejected() {
    let b = b"\0shortcuts\0\x000\0\x01AppName\0abc".to_vec();
    assert!(matches!(
        Shortcuts::try_from_bytes(&b),
        Err(ParsingError::FailedToParseString)
    ));
}

#[test]
fn unknown_integer_key_is_rejected() {
    let b = b"\0shortcuts\0\x000\0\x02Nope\0\x01\x00\x00\x00\x08\x08\x08".to_vec();
    match Shortcuts::try_from_bytes(&b) {
        Err(ParsingError::UnknownKey(k)) => assert_eq!(k, "Nope"),
        other => panic!("unexpected: {:?}", other),
    }
}

#[test]
fn map_fields_are_skipped() {
    let b = b"\0shortcuts\0\x000\0\x00tags\0\x010\0x\0\x08\x02appid\0\x09\x00\x00\x00\x08\x08\x08".to_vec();
    let c = Shortcuts::try_from_bytes(&b).unwrap();
    assert_eq!(c.shortcuts.len(), 1);
    assert_eq!(c.shortcuts[0].appid, 9);
}

#[test]
fn field_without_open_entry_is_rejected() {
    let mut none: Option<ShortcutEntry> = None;
    assert!(matches!(
        add_string_to_shortcut(&mut none, "AppName".to_string(), "x".to_string()),
        Err(ParsingError::CurrentShortcutEntryIsEmpty)
    ));
    assert!(matches!(
        add_integer_to_shortcut(&mut none, "appid".to_string(), 1),
        Err(ParsingError::CurrentShortcutEntryIsEmpty)
    ));
}

#[test]
fn known_keys_set_their_fields() {
    let mut cur = Some(ShortcutEntry::default());
    add_string_to_shortcut(&mut cur, "LaunchOptions".to_string(), "-x".to_string()).unwrap();
    add_integer_to_shortcut(&mut cur, "LastPlayTime".to_string(), 99).unwrap();
    let e = cur.unwrap();
    assert_eq!(e.launch_options, "-x");
    assert_eq!(e.last_play_time, 99);
}

#[test]
fn reading_helpers_move_the_position() {
    let bytes = b"ab\0\x01\x01\x00\x00\xff";
    let mut pos = 0usize;
    assert_eq!(try_read_string(&mut pos, bytes).unwrap(), "ab");
    assert_eq!(pos, 3);
    assert_eq!(try_read_integer(&mut pos, bytes).unwrap(), 257);
    assert_eq!(pos, 7);
    assert!(matches!(try_read_integer(&mut pos, bytes), Err(ParsingError::FailedToParseInteger)));
    let mut pos2 = 7usize;
    assert!(matches!(try_read_string(&mut pos2, bytes), Err(ParsingError::FailedToParseString)));
}

#[test]
fn field_writers_follow_the_grammar() {
    let mut b = Vec::new();
    insert_entry_string_integer(&mut b, "k", 0x0102_0304);
    insert_entry_string_string(&mut b, "s", "v");
    insert_entry_string_map(&mut b, "m");
    assert_eq!(b, b"\x02k\0\x04\x03\x02\x01\x01s\0v\0\x00m\0\x08".to_vec());
}

#[test]
fn insert_replaces_same_appid_and_moves_it_last() {
    let mut c = Shortcuts::default();
    c.insert_shortcut(entry(42, "Old"));
    c.insert_shortcut(entry(7, "Other"));
    c.insert_shortcut(entry(42, "New"));
    assert_eq!(c.shortcuts.len(), 2);
    assert_eq!(c.shortcuts[0].appid, 7);
    assert_eq!(c.shortcuts[1].appid, 42);
    assert_eq!(c.shortcuts[1].app_name, "New");
}

#[test]
fn insert_of_new_appid_appends() {
    let mut c = Shortcuts::default();
    c.insert_shortcut(entry(1, "A"));
    c.insert_shortcut(entry(2, "B"));
    assert_eq!(c.shortcuts.len(), 2);
    assert_eq!(c.shortcuts[1].app_name, "B");
}
