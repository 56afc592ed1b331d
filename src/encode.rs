//! Writing a registry as bytes.

use vstd::prelude::*;
use vstd::utf8::encode_utf8;

use crate::shortcut::{EntryView, ShortcutEntry, Shortcuts};
use crate::text::{decimal, decimal_string};

verus! {

/// One field of an entry as it is written: a key and a value of one of the
/// three kinds that the format knows.
pub enum Field {
    Integer(Seq<char>, u32),
    Text(Seq<char>, Seq<char>),
    EmptyMap(Seq<char>),
}

/// A string as it is written: its UTF-8 bytes and a NUL.
pub open spec fn string_bytes(s: Seq<char>) -> Seq<u8> {
    encode_utf8(s).push(0u8)
}

/// The four bytes of `v`, least significant first.
pub open spec fn le_bytes(v: u32) -> Seq<u8> {
    seq![
        (v % 256) as u8,
        ((v / 256) % 256) as u8,
        ((v / 65536) % 256) as u8,
        (v / 16777216) as u8,
    ]
}

#[verifier::opaque]
/// A field as it is written: its kind tag, its key, and its value.
pub open spec fn field_bytes(f: Field) -> Seq<u8> {
    match f {
        Field::Integer(k, v) => seq![2u8] + string_bytes(k) + le_bytes(v),
        Field::Text(k, v) => seq![1u8] + string_bytes(k) + string_bytes(v),
        Field::EmptyMap(k) => seq![0u8] + string_bytes(k) + seq![8u8],
    }
}

#[verifier::opaque]
/// The fields written one after the other.
pub open spec fn fields_bytes(fs: Seq<Field>) -> Seq<u8>
    decreases fs.len(),
{
    if fs.len() == 0 {
        Seq::empty()
    } else {
        fields_bytes(fs.drop_last()) + field_bytes(fs.last())
    }
}

/// The fields of an entry in the order in which they are written. The tag
/// list is always written empty.
pub open spec fn entry_fields(e: EntryView) -> Seq<Field> {
    seq![
        Field::Integer("appid"@, e.appid),
        Field::Text("AppName"@, e.app_name),
        Field::Text("Exe"@, e.exe),
        Field::Text("StartDir"@, e.start_dir),
        Field::Text("icon"@, e.icon),
        Field::Text("ShortcutPath"@, e.shortcut_path),
        Field::Text("LaunchOptions"@, e.launch_options),
        Field::Integer("IsHidden"@, e.is_hidden),
        Field::Integer("AllowDesktopConfig"@, e.allow_desktop_config),
        Field::Integer("AllowOverlay"@, e.allow_overlay),
        Field::Integer("OpenVR"@, e.open_vr),
        Field::Integer("Devkit"@, e.devkit),
        Field::Text("DevkitGameID"@, e.devkit_game_id),
        Field::Integer("DevkitOverrideAppID"@, e.devkit_override_app_id),
        Field::Integer("LastPlayTime"@, e.last_play_time),
        Field::Text("FlatpakAppID"@, e.flatpak_app_id),
        Field::EmptyMap("tags"@),
    ]
}

/// The entry at position `index`: its index string, its fields, and the
/// closing marker.
pub open spec fn entry_bytes(index: nat, e: EntryView) -> Seq<u8> {
    seq![0u8] + string_bytes(decimal(index)) + fields_bytes(entry_fields(e)) + seq![8u8]
}

/// The entries written one after the other, each with its position as
/// index.
pub open spec fn entries_bytes(es: Seq<EntryView>) -> Seq<u8>
    decreases es.len(),
{
    if es.len() == 0 {
        Seq::empty()
    } else {
        entries_bytes(es.drop_last()) + entry_bytes((es.len() - 1) as nat, es.last())
    }
}

/// The opening of a registry: the root marker and the section name.
pub open spec fn header_bytes() -> Seq<u8> {
    seq![0u8] + string_bytes("shortcuts"@)
}

/// The whole registry holding `es`, in order.
pub open spec fn registry_bytes(es: Seq<EntryView>) -> Seq<u8> {
    header_bytes() + entries_bytes(es) + seq![8u8, 8u8]
}

proof fn lemma_append_field(base: Seq<u8>, fs: Seq<Field>, f: Field)
    ensures
        base + fields_bytes(fs) + field_bytes(f) == base + fields_bytes(fs.push(f)),
{
    reveal(fields_bytes);
    assert(fs.push(f).drop_last() =~= fs);
    assert(base + fields_bytes(fs) + field_bytes(f) =~= base + (fields_bytes(fs) + field_bytes(f)));
}

/// Appends the four bytes of `value`, least significant first.
pub fn insert_integer_into_bytes(bytes: &mut Vec<u8>, value: u32)
    ensures
        final(bytes)@ == old(bytes)@ + le_bytes(value),
{
    bytes.push((value % 256) as u8);
    bytes.push(((value / 256) % 256) as u8);
    bytes.push(((value / 65536) % 256) as u8);
    bytes.push((value / 16777216) as u8);
    assert(bytes@ =~= old(bytes)@ + le_bytes(value));
}

/// Appends the UTF-8 bytes of `value` and a NUL.
pub fn insert_str_into_bytes(bytes: &mut Vec<u8>, value: &str)
    ensures
        final(bytes)@ == old(bytes)@ + string_bytes(value@),
{
    let src = value.as_bytes();
    let mut i: usize = 0;
    while i < src.len()
        invariant
            0 <= i <= src@.len(),
            src@ == encode_utf8(value@),
            bytes@ == old(bytes)@ + src@.subrange(0, i as int),
        decreases src@.len() - i,
    {
        bytes.push(src[i]);
        i = i + 1;
        assert(bytes@ =~= old(bytes)@ + src@.subrange(0, i as int));
    }
    bytes.push(0u8);
    assert(bytes@ =~= old(bytes)@ + string_bytes(value@));
}

/// Appends the UTF-8 bytes of `value` and a NUL.
pub fn insert_string_into_bytes(bytes: &mut Vec<u8>, value: String)
    ensures
        final(bytes)@ == old(bytes)@ + string_bytes(value@),
{
    insert_str_into_bytes(bytes, value.as_str());
}

/// Appends an integer field.
pub fn insert_entry_string_integer(bytes: &mut Vec<u8>, key: &str, value: u32)
    ensures
        final(bytes)@ == old(bytes)@ + field_bytes(Field::Integer(key@, value)),
{
    bytes.push(2u8);
    insert_str_into_bytes(bytes, key);
    insert_integer_into_bytes(bytes, value);
    assert(bytes@ =~= old(bytes)@ + field_bytes(Field::Integer(key@, value))) by {
        reveal(field_bytes);
    }
}

/// Appends a string field.
pub fn insert_entry_string_string(bytes: &mut Vec<u8>, key: &str, value: &str)
    ensures
        final(bytes)@ == old(bytes)@ + field_bytes(Field::Text(key@, value@)),
{
    bytes.push(1u8);
    insert_str_into_bytes(bytes, key);
    insert_str_into_bytes(bytes, value);
    assert(bytes@ =~= old(bytes)@ + field_bytes(Field::Text(key@, value@))) by {
        reveal(field_bytes);
    }
}

/// Appends an empty map field.
pub fn insert_entry_string_map(bytes: &mut Vec<u8>, key: &str)
    ensures
        final(bytes)@ == old(bytes)@ + field_bytes(Field::EmptyMap(key@)),
{
    bytes.push(0u8);
    insert_str_into_bytes(bytes, key);
    bytes.push(8u8);
    assert(bytes@ =~= old(bytes)@ + field_bytes(Field::EmptyMap(key@))) by {
        reveal(field_bytes);
    }
}

/// Appends the entry at position `index`.
#[verifier::spinoff_prover]
fn insert_entry_into_bytes(bytes: &mut Vec<u8>, index: usize, shortcut: &ShortcutEntry)
    ensures
        final(bytes)@ == old(bytes)@ + entry_bytes(index as nat, shortcut@),
{
    let ghost e = shortcut@;
    let ghost start = old(bytes)@;
    bytes.push(0u8);
    insert_string_into_bytes(bytes, decimal_string(index as u64));
    let ghost base = bytes@;
    let ghost mut fs: Seq<Field> = Seq::empty();
    assert(bytes@ =~= base + fields_bytes(fs)) by {
        reveal(fields_bytes);
    }

    insert_entry_string_integer(bytes, "appid", shortcut.appid);
    proof {
        let f = Field::Integer("appid"@, e.appid);
        lemma_append_field(base, fs, f);
        fs = fs.push(f);
    }
    insert_entry_string_string(bytes, "AppName", shortcut.app_name.as_str());
    proof {
        let f = Field::Text("AppName"@, e.app_name);
        lemma_append_field(base, fs, f);
        fs = fs.push(f);
    }
    insert_entry_string_string(bytes, "Exe", shortcut.exe.as_str());
    proof {
        let f = Field::Text("Exe"@, e.exe);
        lemma_append_field(base, fs, f);
        fs = fs.push(f);
    }
    insert_entry_string_string(bytes, "StartDir", shortcut.start_dir.as_str());
    proof {
        let f = Field::Text("StartDir"@, e.start_dir);
        lemma_append_field(base, fs, f);
        fs = fs.push(f);
    }
    insert_entry_string_string(bytes, "icon", shortcut.icon.as_str());
    proof {
        let f = Field::Text("icon"@, e.icon);
        lemma_append_field(base, fs, f);
        fs = fs.push(f);
    }
    insert_entry_string_string(bytes, "ShortcutPath", shortcut.shortcut_path.as_str());
    proof {
        let f = Field::Text("ShortcutPath"@, e.shortcut_path);
        lemma_append_field(base, fs, f);
        fs = fs.push(f);
    }
    insert_entry_string_string(bytes, "LaunchOptions", shortcut.launch_options.as_str());
    proof {
        let f = Field::Text("LaunchOptions"@, e.launch_options);
        lemma_append_field(base, fs, f);
        fs = fs.push(f);
    }
    insert_entry_string_integer(bytes, "IsHidden", shortcut.is_hidden);
    proof {
        let f = Field::Integer("IsHidden"@, e.is_hidden);
        lemma_append_field(base, fs, f);
        fs = fs.push(f);
    }
    insert_entry_string_integer(bytes, "AllowDesktopConfig", shortcut.allow_desktop_config);
    proof {
        let f = Field::Integer("AllowDesktopConfig"@, e.allow_desktop_config);
        lemma_append_field(base, fs, f);
        fs = fs.push(f);
    }
    insert_entry_string_integer(bytes, "AllowOverlay", shortcut.allow_overlay);
    proof {
        let f = Field::Integer("AllowOverlay"@, e.allow_overlay);
        lemma_append_field(base, fs, f);
        fs = fs.push(f);
    }
    insert_entry_string_integer(bytes, "OpenVR", shortcut.open_vr);
    proof {
        let f = Field::Integer("OpenVR"@, e.open_vr);
        lemma_append_field(base, fs, f);
        fs = fs.push(f);
    }
    insert_entry_string_integer(bytes, "Devkit", shortcut.devkit);
    proof {
        let f = Field::Integer("Devkit"@, e.devkit);
        lemma_append_field(base, fs, f);
        fs = fs.push(f);
    }
    insert_entry_string_string(bytes, "DevkitGameID", shortcut.devkit_game_id.as_str());
    proof {
        let f = Field::Text("DevkitGameID"@, e.devkit_game_id);
        lemma_append_field(base, fs, f);
        fs = fs.push(f);
    }
    insert_entry_string_integer(bytes, "DevkitOverrideAppID", shortcut.devkit_override_app_id);
    proof {
        let f = Field::Integer("DevkitOverrideAppID"@, e.devkit_override_app_id);
        lemma_append_field(base, fs, f);
        fs = fs.push(f);
    }
    insert_entry_string_integer(bytes, "LastPlayTime", shortcut.last_play_time);
    proof {
        let f = Field::Integer("LastPlayTime"@, e.last_play_time);
        lemma_append_field(base, fs, f);
        fs = fs.push(f);
    }
    insert_entry_string_string(bytes, "FlatpakAppID", shortcut.flatpak_app_id.as_str());
    proof {
        let f = Field::Text("FlatpakAppID"@, e.flatpak_app_id);
        lemma_append_field(base, fs, f);
        fs = fs.push(f);
    }
    insert_entry_string_map(bytes, "tags");
    proof {
        let f = Field::EmptyMap("tags"@);
        lemma_append_field(base, fs, f);
        fs = fs.push(f);
    }
    bytes.push(8u8);
    assert(fs =~= entry_fields(e));
    assert(bytes@ =~= start + entry_bytes(index as nat, e)) by {
        assert(bytes@ =~= base + fields_bytes(fs) + seq![8u8]);
    }
}

impl Shortcuts {
    /// The registry bytes that hold these entries, in order.
    pub fn to_bytes(&self) -> (r: Vec<u8>)
        ensures
            r@ == registry_bytes(self@),
    {
        let mut rtn: Vec<u8> = Vec::new();
        rtn.push(0u8);
        insert_str_into_bytes(&mut rtn, "shortcuts");
        assert(rtn@ =~= header_bytes());

        let mut i: usize = 0;
        while i < self.shortcuts.len()
            invariant
                0 <= i <= self.shortcuts@.len(),
                rtn@ == header_bytes() + entries_bytes(self@.subrange(0, i as int)),
            decreases self.shortcuts@.len() - i,
        {
            let ghost start = rtn@;
            let ghost e = self.shortcuts@[i as int]@;
            insert_entry_into_bytes(&mut rtn, i, &self.shortcuts[i]);
            proof {
                let es = self@.subrange(0, i + 1);
                assert(es.drop_last() =~= self@.subrange(0, i as int));
                assert(es.last() == e);
            }
            i = i + 1;
        }
        assert(self@.subrange(0, i as int) =~= self@);
        rtn.push(8u8);
        rtn.push(8u8);
        assert(rtn@ =~= registry_bytes(self@));
        rtn
    }
}

} // verus!
