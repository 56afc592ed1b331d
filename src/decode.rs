//! Reading a registry from bytes: a cursor that walks the stream through a
//! fixed set of states.

use vstd::prelude::*;
use vstd::utf8::encode_utf8;

use crate::parsing_error::{ParsingError, ParsingErrorView};
use crate::shortcut::{EntryView, ShortcutEntry, Shortcuts};
use crate::text::{decimal, decimal_string, push_char, text_equals};

verus! {

/// What the cursor expects at its position.
pub enum ParseState {
    Start,
    Shortcuts,
    Shortcut,
    Entry,
    StringString,
    StringInteger,
    StringMap,
}

/// The reader's whole state: where it stands, the entry it is filling, the
/// entries it has closed, and the index that the next entry must carry.
pub struct Cursor {
    pub state: ParseState,
    pub pos: int,
    pub current: Option<EntryView>,
    pub done: Seq<EntryView>,
    pub counter: nat,
}

/// Bytes read as characters one for one.
pub open spec fn latin1(bs: Seq<u8>) -> Seq<char> {
    bs.map_values(|b: u8| b as char)
}

/// The first position at or after `pos` that holds `b`, or the length of
/// `bytes` where there is none.
pub open spec fn first_from(bytes: Seq<u8>, pos: int, b: u8) -> int
    decreases bytes.len() - pos,
{
    if pos >= bytes.len() {
        bytes.len() as int
    } else if bytes[pos] == b {
        pos
    } else {
        first_from(bytes, pos + 1, b)
    }
}

pub broadcast proof fn lemma_first_from_bounds(bytes: Seq<u8>, pos: int, b: u8)
    requires
        pos <= bytes.len(),
    ensures
        pos <= #[trigger] first_from(bytes, pos, b) <= bytes.len(),
    decreases bytes.len() - pos,
{
    if pos < bytes.len() && bytes[pos] != b {
        lemma_first_from_bounds(bytes, pos + 1, b);
    }
}

/// The NUL-terminated string at `pos` and the position after its NUL.
pub open spec fn read_string(bytes: Seq<u8>, pos: int) -> Option<(Seq<char>, int)> {
    let j = first_from(bytes, pos, 0u8);
    if j < bytes.len() {
        Some((latin1(bytes.subrange(pos, j)), j + 1))
    } else {
        None
    }
}

/// The little-endian value of four bytes.
pub open spec fn le_value(b: Seq<u8>) -> u32 {
    (b[0] + 256 * b[1] + 65536 * b[2] + 16777216 * b[3]) as u32
}

/// The integer at `pos` and the position after it.
pub open spec fn read_integer(bytes: Seq<u8>, pos: int) -> Option<(u32, int)> {
    if pos + 4 > bytes.len() {
        None
    } else {
        Some((le_value(bytes.subrange(pos, pos + 4)), pos + 4))
    }
}

/// The name of the section that holds the entries, as bytes.
pub open spec fn section_name() -> Seq<u8> {
    encode_utf8("shortcuts"@)
}

/// `e` with its string field named `key` set to `v`, if there is such a
/// field.
pub open spec fn with_text_field(e: EntryView, key: Seq<char>, v: Seq<char>) -> Option<EntryView> {
    if key == "AppName"@ {
        Some(EntryView { app_name: v, ..e })
    } else if key == "Exe"@ {
        Some(EntryView { exe: v, ..e })
    } else if key == "StartDir"@ {
        Some(EntryView { start_dir: v, ..e })
    } else if key == "icon"@ {
        Some(EntryView { icon: v, ..e })
    } else if key == "ShortcutPath"@ {
        Some(EntryView { shortcut_path: v, ..e })
    } else if key == "LaunchOptions"@ {
        Some(EntryView { launch_options: v, ..e })
    } else if key == "DevkitGameID"@ {
        Some(EntryView { devkit_game_id: v, ..e })
    } else if key == "FlatpakAppID"@ {
        Some(EntryView { flatpak_app_id: v, ..e })
    } else {
        None
    }
}

/// `e` with its integer field named `key` set to `v`, if there is such a
/// field.
pub open spec fn with_integer_field(e: EntryView, key: Seq<char>, v: u32) -> Option<EntryView> {
    if key == "appid"@ {
        Some(EntryView { appid: v, ..e })
    } else if key == "IsHidden"@ {
        Some(EntryView { is_hidden: v, ..e })
    } else if key == "AllowDesktopConfig"@ {
        Some(EntryView { allow_desktop_config: v, ..e })
    } else if key == "AllowOverlay"@ {
        Some(EntryView { allow_overlay: v, ..e })
    } else if key == "OpenVR"@ {
        Some(EntryView { open_vr: v, ..e })
    } else if key == "Devkit"@ {
        Some(EntryView { devkit: v, ..e })
    } else if key == "DevkitOverrideAppID"@ {
        Some(EntryView { devkit_override_app_id: v, ..e })
    } else if key == "LastPlayTime"@ {
        Some(EntryView { last_play_time: v, ..e })
    } else {
        None
    }
}

/// What adding a string field to the open entry gives.
pub open spec fn add_text(current: Option<EntryView>, key: Seq<char>, v: Seq<char>) -> Result<EntryView, ParsingErrorView> {
    match current {
        None => Err(ParsingErrorView::CurrentShortcutEntryIsEmpty),
        Some(e) => match with_text_field(e, key, v) {
            None => Err(ParsingErrorView::UnknownKey(key)),
            Some(e2) => Ok(e2),
        },
    }
}

/// What adding an integer field to the open entry gives.
pub open spec fn add_integer(current: Option<EntryView>, key: Seq<char>, v: u32) -> Result<EntryView, ParsingErrorView> {
    match current {
        None => Err(ParsingErrorView::CurrentShortcutEntryIsEmpty),
        Some(e) => match with_integer_field(e, key, v) {
            None => Err(ParsingErrorView::UnknownKey(key)),
            Some(e2) => Ok(e2),
        },
    }
}

/// One move of the cursor, which stands before the end of `bytes`.
///
/// - `Start`: the root marker `0x00`; the section name is then expected at
///   position 1.
/// - `Shortcuts`: the section name; the cursor then passes over its NUL and
///   the type tag of the first entry.
/// - `Shortcut`: an end marker `0x08` is passed over; anything else is the
///   entry's index string, which must be the next position, and opens an
///   empty entry.
/// - `Entry`: the type tag of the next field, or `0x08`, which closes the
///   entry and also passes over the byte after it (the next entry's type
///   tag, or the section's end marker).
/// - `StringString`, `StringInteger`: a key and its value, set on the open
///   entry; a key that the entry lacks is an error.
/// - `StringMap`: everything up to and including the next `0x08` is passed
///   over.
pub open spec fn step(bytes: Seq<u8>, c: Cursor) -> Result<Cursor, ParsingErrorView> {
    match c.state {
        ParseState::Start => {
            if bytes[c.pos] != 0 {
                Err(ParsingErrorView::WrongStartingByte)
            } else {
                Ok(Cursor { state: ParseState::Shortcuts, pos: 1, ..c })
            }
        },
        ParseState::Shortcuts => {
            let name = section_name();
            if c.pos + name.len() <= bytes.len() && bytes.subrange(c.pos, c.pos + name.len()) == name {
                Ok(Cursor { state: ParseState::Shortcut, pos: 3 + name.len() as int, ..c })
            } else {
                Err(ParsingErrorView::ShortcutsNotFound)
            }
        },
        ParseState::Shortcut => {
            if bytes[c.pos] == 8 {
                Ok(Cursor { pos: c.pos + 1, ..c })
            } else {
                match read_string(bytes, c.pos) {
                    None => Err(ParsingErrorView::FailedToParseString),
                    Some((s, p)) => if s != decimal(c.counter) {
                        Err(ParsingErrorView::ShortcutsEntriesDoNotAlign)
                    } else {
                        Ok(
                            Cursor {
                                state: ParseState::Entry,
                                pos: p,
                                current: Some(EntryView::blank()),
                                counter: c.counter + 1,
                                ..c
                            },
                        )
                    },
                }
            }
        },
        ParseState::Entry => {
            let b = bytes[c.pos];
            if b == 0 {
                Ok(Cursor { state: ParseState::StringMap, pos: c.pos + 1, ..c })
            } else if b == 1 {
                Ok(Cursor { state: ParseState::StringString, pos: c.pos + 1, ..c })
            } else if b == 2 {
                Ok(Cursor { state: ParseState::StringInteger, pos: c.pos + 1, ..c })
            } else if b == 8 {
                match c.current {
                    None => Err(ParsingErrorView::CurrentShortcutEntryIsEmpty),
                    Some(e) => Ok(
                        Cursor {
                            state: ParseState::Shortcut,
                            pos: c.pos + 2,
                            current: None,
                            done: c.done.push(e),
                            ..c
                        },
                    ),
                }
            } else {
                Err(ParsingErrorView::InvalidMapType(b))
            }
        },
        ParseState::StringString => match read_string(bytes, c.pos) {
            None => Err(ParsingErrorView::FailedToParseString),
            Some((k, key_end)) => match read_string(bytes, key_end) {
                None => Err(ParsingErrorView::FailedToParseString),
                Some((v, value_end)) => match add_text(c.current, k, v) {
                    Err(e) => Err(e),
                    Ok(e2) => Ok(
                        Cursor { state: ParseState::Entry, pos: value_end, current: Some(e2), ..c },
                    ),
                },
            },
        },
        ParseState::StringInteger => match read_string(bytes, c.pos) {
            None => Err(ParsingErrorView::FailedToParseString),
            Some((k, key_end)) => match read_integer(bytes, key_end) {
                None => Err(ParsingErrorView::FailedToParseInteger),
                Some((v, value_end)) => match add_integer(c.current, k, v) {
                    Err(e) => Err(e),
                    Ok(e2) => Ok(
                        Cursor { state: ParseState::Entry, pos: value_end, current: Some(e2), ..c },
                    ),
                },
            },
        },
        ParseState::StringMap => {
            let j = first_from(bytes, c.pos, 8u8);
            Ok(
                Cursor {
                    state: ParseState::Entry,
                    pos: if j < bytes.len() {
                        j + 1
                    } else {
                        bytes.len() as int
                    },
                    ..c
                },
            )
        },
    }
}

/// How many bytes lie at or after `pos`.
pub open spec fn distance_to_end(bytes: Seq<u8>, pos: int) -> nat {
    if pos >= bytes.len() {
        0
    } else {
        (bytes.len() - pos) as nat
    }
}

/// Runs the cursor to the end of `bytes`: the entries closed by then, or the
/// first error. From the start cursor every move goes forward (the reader
/// checks this at each move); the test on positions lets the definition
/// terminate.
pub open spec fn run(bytes: Seq<u8>, c: Cursor) -> Result<Seq<EntryView>, ParsingErrorView>
    decreases distance_to_end(bytes, c.pos),
{
    if c.pos >= bytes.len() {
        Ok(c.done)
    } else {
        match step(bytes, c) {
            Err(e) => Err(e),
            Ok(n) => if n.pos > c.pos {
                run(bytes, n)
            } else {
                Ok(n.done)
            },
        }
    }
}

/// The cursor before the first byte.
pub open spec fn start_cursor() -> Cursor {
    Cursor {
        state: ParseState::Start,
        pos: 0,
        current: None,
        done: Seq::empty(),
        counter: 0,
    }
}

/// What reading `bytes` as a registry gives.
pub open spec fn decoded(bytes: Seq<u8>) -> Result<Seq<EntryView>, ParsingErrorView> {
    run(bytes, start_cursor())
}

/// The view of the entry that may be open.
pub open spec fn entry_option_view(o: Option<ShortcutEntry>) -> Option<EntryView> {
    match o {
        Some(e) => Some(e@),
        None => None,
    }
}

/// The view of what reading returned.
pub open spec fn result_view(r: Result<Shortcuts, ParsingError>) -> Result<Seq<EntryView>, ParsingErrorView> {
    match r {
        Ok(s) => Ok(s@),
        Err(e) => Err(e@),
    }
}

proof fn lemma_section_name()
    ensures
        section_name().len() == 9,
{
    reveal_strlit("shortcuts");
    assert(vstd::string::is_ascii("shortcuts"));
    vstd::string::is_ascii_spec_bytes("shortcuts");
}

/// Reads the NUL-terminated string at `position` and moves past its NUL.
pub fn try_read_string(position: &mut usize, bytes: &[u8]) -> (r: Result<String, ParsingError>)
    requires
        *old(position) <= bytes@.len(),
    ensures
        match read_string(bytes@, *old(position) as int) {
            Some((s, p)) => r is Ok && r->Ok_0@ == s && *final(position) == p,
            None => r is Err && r->Err_0@ == ParsingErrorView::FailedToParseString,
        },
{
    let start = *position;
    let mut pos = start;
    let mut rtn = String::new();
    while pos < bytes.len()
        invariant
            start <= pos <= bytes@.len(),
            start == *old(position),
            first_from(bytes@, start as int, 0u8) == first_from(bytes@, pos as int, 0u8),
            rtn@ == latin1(bytes@.subrange(start as int, pos as int)),
        decreases bytes@.len() - pos,
    {
        if bytes[pos] == 0u8 {
            *position = pos + 1;
            return Ok(rtn);
        }
        push_char(&mut rtn, bytes[pos] as char);
        pos = pos + 1;
        assert(rtn@ =~= latin1(bytes@.subrange(start as int, pos as int)));
    }
    Err(ParsingError::FailedToParseString)
}

/// Reads the little-endian integer at `position` and moves past it.
pub fn try_read_integer(position: &mut usize, bytes: &[u8]) -> (r: Result<u32, ParsingError>)
    requires
        *old(position) <= bytes@.len(),
    ensures
        match read_integer(bytes@, *old(position) as int) {
            Some((v, p)) => r == Ok::<u32, ParsingError>(v) && *final(position) == p,
            None => r is Err && r->Err_0@ == ParsingErrorView::FailedToParseInteger,
        },
{
    if bytes.len() - *position < 4 {
        return Err(ParsingError::FailedToParseInteger);
    }
    let p = *position;
    let rtn: u32 = bytes[p] as u32 + 256 * (bytes[p + 1] as u32) + 65536 * (bytes[p + 2] as u32)
        + 16777216 * (bytes[p + 3] as u32);
    *position = p + 4;
    Ok(rtn)
}

/// Sets the string field named `key` of the open entry to `value`.
pub fn add_string_to_shortcut(current: &mut Option<ShortcutEntry>, key: String, value: String) -> (r: Result<(), ParsingError>)
    ensures
        match add_text(entry_option_view(*old(current)), key@, value@) {
            Ok(e) => r is Ok && entry_option_view(*final(current)) == Some(e),
            Err(e) => r is Err && r->Err_0@ == e,
        },
{
    match current {
        None => Err(ParsingError::CurrentShortcutEntryIsEmpty),
        Some(entry) => {
            if text_equals(&key, "AppName") {
                entry.app_name = value;
            } else if text_equals(&key, "Exe") {
                entry.exe = value;
            } else if text_equals(&key, "StartDir") {
                entry.start_dir = value;
            } else if text_equals(&key, "icon") {
                entry.icon = value;
            } else if text_equals(&key, "ShortcutPath") {
                entry.shortcut_path = value;
            } else if text_equals(&key, "LaunchOptions") {
                entry.launch_options = value;
            } else if text_equals(&key, "DevkitGameID") {
                entry.devkit_game_id = value;
            } else if text_equals(&key, "FlatpakAppID") {
                entry.flatpak_app_id = value;
            } else {
                return Err(ParsingError::UnknownKey(key));
            }
            Ok(())
        },
    }
}

/// Sets the integer field named `key` of the open entry to `value`.
pub fn add_integer_to_shortcut(current: &mut Option<ShortcutEntry>, key: String, value: u32) -> (r: Result<(), ParsingError>)
    ensures
        match add_integer(entry_option_view(*old(current)), key@, value) {
            Ok(e) => r is Ok && entry_option_view(*final(current)) == Some(e),
            Err(e) => r is Err && r->Err_0@ == e,
        },
{
    match current {
        None => Err(ParsingError::CurrentShortcutEntryIsEmpty),
        Some(entry) => {
            if text_equals(&key, "appid") {
                entry.appid = value;
            } else if text_equals(&key, "IsHidden") {
                entry.is_hidden = value;
            } else if text_equals(&key, "AllowDesktopConfig") {
                entry.allow_desktop_config = value;
            } else if text_equals(&key, "AllowOverlay") {
                entry.allow_overlay = value;
            } else if text_equals(&key, "OpenVR") {
                entry.open_vr = value;
            } else if text_equals(&key, "Devkit") {
                entry.devkit = value;
            } else if text_equals(&key, "DevkitOverrideAppID") {
                entry.devkit_override_app_id = value;
            } else if text_equals(&key, "LastPlayTime") {
                entry.last_play_time = value;
            } else {
                return Err(ParsingError::UnknownKey(key));
            }
            Ok(())
        },
    }
}

/// Whether `tag` stands in `bytes` at `pos`.
fn bytes_at(bytes: &[u8], pos: usize, tag: &[u8]) -> (r: bool)
    requires
        pos <= bytes@.len(),
    ensures
        r == (pos + tag@.len() <= bytes@.len() && bytes@.subrange(pos as int, pos + tag@.len()) == tag@),
{
    if tag.len() > bytes.len() - pos {
        return false;
    }
    let mut k: usize = 0;
    while k < tag.len()
        invariant
            k <= tag@.len(),
            pos + tag@.len() <= bytes@.len(),
            bytes@.len() <= usize::MAX,
            bytes@.subrange(pos as int, pos + k) == tag@.subrange(0, k as int),
        decreases tag@.len() - k,
    {
        if bytes[pos + k] != tag[k] {
            assert(bytes@.subrange(pos as int, pos + tag@.len())[k as int] != tag@[k as int]);
            return false;
        }
        k = k + 1;
        assert(bytes@.subrange(pos as int, pos + k) =~= tag@.subrange(0, k as int));
    }
    assert(tag@.subrange(0, k as int) =~= tag@);
    true
}

/// The cursor that the reader's variables stand for.
pub open spec fn cursor_of(
    state: ParseState,
    pos: usize,
    current: Option<ShortcutEntry>,
    done: Seq<EntryView>,
    counter: usize,
) -> Cursor {
    Cursor { state, pos: pos as int, current: entry_option_view(current), done, counter: counter as nat }
}

impl Shortcuts {
    /// Reads a registry from its bytes: the entries in the order in which
    /// they are stored, or the first error met.
    #[verifier::rlimit(30)]
    pub fn try_from_bytes(bytes: &[u8]) -> (r: Result<Shortcuts, ParsingError>)
        ensures
            result_view(r) == decoded(bytes@),
    {
        broadcast use lemma_first_from_bounds;

        let mut parsing_state = ParseState::Start;
        let mut rtn = Shortcuts::default();
        let mut current_shortcut: Option<ShortcutEntry> = None;
        let mut position: usize = 0;
        let mut shortcuts_position: usize = 0;
        while position < bytes.len()
            invariant
                run(bytes@, cursor_of(parsing_state, position, current_shortcut, rtn@, shortcuts_position))
                    == decoded(bytes@),
                shortcuts_position <= position,
                parsing_state is Start ==> position == 0,
                parsing_state is Shortcuts ==> position == 1,
            decreases distance_to_end(bytes@, position as int),
        {
            let ghost c = cursor_of(parsing_state, position, current_shortcut, rtn@, shortcuts_position);
            match parsing_state {
                ParseState::Start => {
                    if bytes[position] != 0u8 {
                        return Err(ParsingError::WrongStartingByte);
                    }
                    parsing_state = ParseState::Shortcuts;
                    position = 1;
                },
                ParseState::Shortcuts => {
                    let name = "shortcuts".as_bytes();
                    proof {
                        lemma_section_name();
                    }
                    if !bytes_at(bytes, position, name) {
                        return Err(ParsingError::ShortcutsNotFound);
                    }
                    position = 3 + name.len();
                    parsing_state = ParseState::Shortcut;
                },
                ParseState::Shortcut => {
                    if bytes[position] == 8u8 {
                        position = position + 1;
                    } else {
                        let result = match try_read_string(&mut position, bytes) {
                            Ok(s) => s,
                            Err(e) => {
                                return Err(e);
                            },
                        };
                        let expected = decimal_string(shortcuts_position as u64);
                        if !(result == expected) {
                            return Err(ParsingError::ShortcutsEntriesDoNotAlign);
                        }
                        shortcuts_position = shortcuts_position + 1;
                        parsing_state = ParseState::Entry;
                        current_shortcut = Some(ShortcutEntry::default());
                    }
                },
                ParseState::Entry => {
                    let b = bytes[position];
                    if b == 0u8 {
                        parsing_state = ParseState::StringMap;
                        position = position + 1;
                    } else if b == 1u8 {
                        parsing_state = ParseState::StringString;
                        position = position + 1;
                    } else if b == 2u8 {
                        parsing_state = ParseState::StringInteger;
                        position = position + 1;
                    } else if b == 8u8 {
                        match current_shortcut.take() {
                            None => {
                                return Err(ParsingError::CurrentShortcutEntryIsEmpty);
                            },
                            Some(shortcut_entry) => {
                                rtn.shortcuts.push(shortcut_entry);
                            },
                        }
                        assert(rtn@ =~= c.done.push(c.current->0));
                        parsing_state = ParseState::Shortcut;
                        position = position + 1;
                        if position < bytes.len() {
                            position = position + 1;
                        }
                    } else {
                        return Err(ParsingError::InvalidMapType(b));
                    }
                },
                ParseState::StringString => {
                    let key = match try_read_string(&mut position, bytes) {
                        Ok(s) => s,
                        Err(e) => {
                            return Err(e);
                        },
                    };
                    let value = match try_read_string(&mut position, bytes) {
                        Ok(s) => s,
                        Err(e) => {
                            return Err(e);
                        },
                    };
                    match add_string_to_shortcut(&mut current_shortcut, key, value) {
                        Ok(()) => {},
                        Err(e) => {
                            return Err(e);
                        },
                    }
                    parsing_state = ParseState::Entry;
                },
                ParseState::StringInteger => {
                    let key = match try_read_string(&mut position, bytes) {
                        Ok(s) => s,
                        Err(e) => {
                            return Err(e);
                        },
                    };
                    let value = match try_read_integer(&mut position, bytes) {
                        Ok(v) => v,
                        Err(e) => {
                            return Err(e);
                        },
                    };
                    match add_integer_to_shortcut(&mut current_shortcut, key, value) {
                        Ok(()) => {},
                        Err(e) => {
                            return Err(e);
                        },
                    }
                    parsing_state = ParseState::Entry;
                },
                ParseState::StringMap => {
                    let ghost from = position as int;
                    while position < bytes.len()
                        invariant_except_break
                            first_from(bytes@, from, 8u8) == first_from(bytes@, position as int, 8u8),
                        invariant
                            from <= position <= bytes@.len(),
                        ensures
                            position == if first_from(bytes@, from, 8u8) < bytes@.len() {
                                first_from(bytes@, from, 8u8) + 1
                            } else {
                                bytes@.len() as int
                            },
                        decreases bytes@.len() - position,
                    {
                        if bytes[position] == 8u8 {
                            position = position + 1;
                            break;
                        }
                        position = position + 1;
                    }
                    parsing_state = ParseState::Entry;
                },
            }
            proof {
                let n = cursor_of(parsing_state, position, current_shortcut, rtn@, shortcuts_position);
                if c.state is Entry && bytes@[c.pos] == 8 {
                    let m = Cursor { pos: c.pos + 2, ..n };
                    assert(step(bytes@, c) == Ok::<Cursor, ParsingErrorView>(m));
                    assert(run(bytes@, c) == run(bytes@, m));
                    assert(run(bytes@, m) == run(bytes@, n));
                } else {
                    assert(step(bytes@, c) == Ok::<Cursor, ParsingErrorView>(n));
                    lemma_first_from_bounds(bytes@, c.pos, 0u8);
                    lemma_first_from_bounds(bytes@, c.pos, 8u8);
                    let j = first_from(bytes@, c.pos, 0u8);
                    if j < bytes@.len() {
                        lemma_first_from_bounds(bytes@, j + 1, 0u8);
                    }
                    assert(n.pos > c.pos);
                }
                assert(run(bytes@, c) == run(bytes@, n));
            }
        }
        Ok(rtn)
    }
}

} // verus!
