//! Reading back what was written gives the same entries.

use vstd::prelude::*;
use vstd::utf8::{encode_utf8, is_ascii_chars, is_ascii_chars_encode_utf8};

use crate::decode::{
    add_integer, add_text, decoded, first_from, latin1, le_value, read_integer, read_string, run,
    section_name, start_cursor, step, with_integer_field, with_text_field, Cursor, ParseState,
};
use crate::encode::{
    entries_bytes, entry_bytes, entry_fields, field_bytes, fields_bytes, header_bytes, le_bytes,
    registry_bytes, string_bytes, Field,
};
use crate::parsing_error::ParsingErrorView;
use crate::shortcut::EntryView;
use crate::text::{decimal, is_plain_char, is_plain_text, lemma_decimal_is_digits};

verus! {

/// Every string field of `e` is plain text, so that it reads back as written.
pub open spec fn entry_is_plain(e: EntryView) -> bool {
    &&& is_plain_text(e.app_name)
    &&& is_plain_text(e.exe)
    &&& is_plain_text(e.start_dir)
    &&& is_plain_text(e.icon)
    &&& is_plain_text(e.shortcut_path)
    &&& is_plain_text(e.launch_options)
    &&& is_plain_text(e.devkit_game_id)
    &&& is_plain_text(e.flatpak_app_id)
}

/// A field that reads back as written: plain text, a key that the entry
/// has, and a map key free of the map's end marker.
spec fn field_ok(f: Field) -> bool {
    match f {
        Field::Integer(k, v) => is_plain_text(k) && with_integer_field(EntryView::blank(), k, v) is Some,
        Field::Text(k, v) => is_plain_text(k) && is_plain_text(v) && with_text_field(
            EntryView::blank(),
            k,
            v,
        ) is Some,
        Field::EmptyMap(k) => is_plain_text(k) && forall|i: int|
            0 <= i < k.len() ==> #[trigger] k[i] != '\x08',
    }
}

spec fn apply_field(e: EntryView, f: Field) -> EntryView {
    match f {
        Field::Integer(k, v) => with_integer_field(e, k, v)->0,
        Field::Text(k, v) => with_text_field(e, k, v)->0,
        Field::EmptyMap(_) => e,
    }
}

spec fn apply_fields(e: EntryView, fs: Seq<Field>) -> EntryView
    decreases fs.len(),
{
    if fs.len() == 0 {
        e
    } else {
        apply_field(apply_fields(e, fs.drop_last()), fs.last())
    }
}

proof fn lemma_first_from_skip(bytes: Seq<u8>, p: int, n: int, b: u8)
    requires
        0 <= p,
        0 <= n,
        p + n <= bytes.len(),
        forall|i: int| p <= i < p + n ==> bytes[i] != b,
    ensures
        first_from(bytes, p, b) == first_from(bytes, p + n, b),
    decreases n,
{
    if n > 0 {
        lemma_first_from_skip(bytes, p + 1, n - 1, b);
    }
}

/// A piece of a piece of `bytes` is a piece of `bytes`.
proof fn lemma_piece(bytes: Seq<u8>, p: int, whole: Seq<u8>, off: int, part: Seq<u8>)
    requires
        0 <= p,
        p + whole.len() <= bytes.len(),
        bytes.subrange(p, p + whole.len()) == whole,
        0 <= off,
        off + part.len() <= whole.len(),
        whole.subrange(off, off + part.len()) == part,
    ensures
        bytes.subrange(p + off, p + off + part.len()) == part,
{
    assert forall|i: int| 0 <= i < part.len() implies bytes.subrange(p + off, p + off + part.len())[i] == part[i] by {
        assert(bytes[p + off + i] == bytes.subrange(p, p + whole.len())[off + i]);
        assert(part[i] == whole.subrange(off, off + part.len())[i]);
    }
    assert(bytes.subrange(p + off, p + off + part.len()) =~= part);
}

proof fn lemma_plain_encoding(s: Seq<char>)
    requires
        is_plain_text(s),
    ensures
        encode_utf8(s).len() == s.len(),
        forall|i: int| 0 <= i < s.len() ==> encode_utf8(s)[i] == s[i] as u8,
        forall|i: int| 0 <= i < s.len() ==> 0 < #[trigger] encode_utf8(s)[i] < 128,
        latin1(encode_utf8(s)) == s,
{
    assert(is_ascii_chars(s)) by {
        assert forall|i| 0 <= i < s.len() implies '\0' <= #[trigger] s[i] <= '\u{7f}' by {
            assert(is_plain_char(s[i]));
        }
    }
    is_ascii_chars_encode_utf8(s);
    assert forall|i: int| 0 <= i < s.len() implies 0 < #[trigger] encode_utf8(s)[i] < 128 by {
        assert(is_plain_char(s[i]));
        assert(encode_utf8(s)[i] == s[i] as u8);
    }
    assert(latin1(encode_utf8(s)) =~= s) by {
        assert forall|i: int| 0 <= i < s.len() implies latin1(encode_utf8(s))[i] == s[i] by {
            assert(is_plain_char(s[i]));
            assert(encode_utf8(s)[i] == s[i] as u8);
        }
    }
}

proof fn lemma_read_plain(bytes: Seq<u8>, p: int, s: Seq<char>)
    requires
        is_plain_text(s),
        0 <= p,
        p + string_bytes(s).len() <= bytes.len(),
        bytes.subrange(p, p + string_bytes(s).len()) == string_bytes(s),
    ensures
        string_bytes(s).len() == s.len() + 1,
        read_string(bytes, p) == Some((s, p + s.len() + 1)),
{
    lemma_plain_encoding(s);
    let n = s.len() as int;
    assert forall|i: int| p <= i < p + n implies bytes[i] != 0u8 by {
        assert(bytes[i] == bytes.subrange(p, p + n + 1)[i - p]);
        assert(encode_utf8(s)[i - p] > 0);
    }
    lemma_first_from_skip(bytes, p, n, 0u8);
    assert(bytes[p + n] == bytes.subrange(p, p + n + 1)[n]);
    assert(bytes.subrange(p, p + n) =~= encode_utf8(s));
}

proof fn lemma_le_round_trip(v: u32)
    ensures
        le_value(le_bytes(v)) == v,
{
    let a = v / 256;
    let b = a / 256;
    let c = b / 256;
    assert(v == a * 256 + v % 256);
    assert(a == b * 256 + a % 256);
    assert(b == c * 256 + b % 256);
    assert((v / 256) % 256 == a % 256);
    assert((v / 65536) % 256 == b % 256) by {
        assert(v / 65536 == b) by (nonlinear_arith)
            requires
                a == v / 256,
                b == a / 256,
        ;
    }
    assert(v / 16777216 == c) by (nonlinear_arith)
        requires
            a == v / 256,
            b == a / 256,
            c == b / 256,
    ;
}

proof fn lemma_run_field(bytes: Seq<u8>, c: Cursor, f: Field)
    requires
        c.state is Entry,
        c.current is Some,
        field_ok(f),
        0 <= c.pos,
        c.pos + field_bytes(f).len() < bytes.len(),
        bytes.subrange(c.pos, c.pos + field_bytes(f).len()) == field_bytes(f),
    ensures
        run(bytes, c) == run(
            bytes,
            Cursor { pos: c.pos + field_bytes(f).len(), current: Some(apply_field(c.current->0, f)), ..c },
        ),
{
    reveal(field_bytes);
    let fb = field_bytes(f);
    let p = c.pos;
    let e = c.current->0;
    assert(bytes[p] == fb[0]);
    match f {
        Field::Integer(k, v) => {
            let kb = string_bytes(k);
            let kn = kb.len() as int;
            lemma_plain_encoding(k);
            assert(fb.subrange(1, 1 + kn) =~= kb);
            lemma_piece(bytes, p, fb, 1, kb);
            lemma_read_plain(bytes, p + 1, k);
            let key_end = p + 1 + kb.len();
            assert(fb.subrange(1 + kn, 1 + kn + 4) =~= le_bytes(v));
            lemma_piece(bytes, p, fb, 1 + kn, le_bytes(v));
            lemma_le_round_trip(v);
            assert(read_integer(bytes, key_end) == Some((v, key_end + 4)));
            let c1 = Cursor { state: ParseState::StringInteger, pos: p + 1, ..c };
            assert(step(bytes, c) == Ok::<Cursor, ParsingErrorView>(c1));
            assert(add_integer(c.current, k, v) == Ok::<EntryView, ParsingErrorView>(apply_field(e, f)));
            let c2 = Cursor { pos: p + fb.len(), current: Some(apply_field(e, f)), ..c };
            assert(step(bytes, c1) == Ok::<Cursor, ParsingErrorView>(c2));
            assert(run(bytes, c) == run(bytes, c1));
            assert(run(bytes, c1) == run(bytes, c2));
        },
        Field::Text(k, v) => {
            let kb = string_bytes(k);
            let vb = string_bytes(v);
            let kn = kb.len() as int;
            lemma_plain_encoding(k);
            lemma_plain_encoding(v);
            assert(fb.subrange(1, 1 + kn) =~= kb);
            lemma_piece(bytes, p, fb, 1, kb);
            lemma_read_plain(bytes, p + 1, k);
            let key_end = p + 1 + kb.len();
            assert(fb.subrange(1 + kn, 1 + kn + vb.len()) =~= vb);
            lemma_piece(bytes, p, fb, 1 + kn, vb);
            lemma_read_plain(bytes, key_end, v);
            let c1 = Cursor { state: ParseState::StringString, pos: p + 1, ..c };
            assert(step(bytes, c) == Ok::<Cursor, ParsingErrorView>(c1));
            assert(add_text(c.current, k, v) == Ok::<EntryView, ParsingErrorView>(apply_field(e, f)));
            let c2 = Cursor { pos: p + fb.len(), current: Some(apply_field(e, f)), ..c };
            assert(step(bytes, c1) == Ok::<Cursor, ParsingErrorView>(c2));
            assert(run(bytes, c) == run(bytes, c1));
            assert(run(bytes, c1) == run(bytes, c2));
        },
        Field::EmptyMap(k) => {
            let kb = string_bytes(k);
            lemma_plain_encoding(k);
            let n = kb.len() as int;
            assert forall|i: int| p + 1 <= i < p + 1 + n implies bytes[i] != 8u8 by {
                assert(bytes[i] == fb[i - p]);
                assert(fb[i - p] == kb[i - p - 1]);
                if i - p - 1 < k.len() {
                    assert(kb[i - p - 1] == k[i - p - 1] as u8);
                    assert(k[i - p - 1] != '\x08');
                }
            }
            lemma_first_from_skip(bytes, p + 1, n, 8u8);
            assert(bytes[p + 1 + n] == fb[1 + n]);
            let c1 = Cursor { state: ParseState::StringMap, pos: p + 1, ..c };
            assert(step(bytes, c) == Ok::<Cursor, ParsingErrorView>(c1));
            let c2 = Cursor { pos: p + fb.len(), current: Some(apply_field(e, f)), ..c };
            assert(step(bytes, c1) == Ok::<Cursor, ParsingErrorView>(c2));
            assert(run(bytes, c) == run(bytes, c1));
            assert(run(bytes, c1) == run(bytes, c2));
        },
    }
}

proof fn lemma_run_fields(bytes: Seq<u8>, c: Cursor, fs: Seq<Field>)
    requires
        c.state is Entry,
        c.current is Some,
        forall|i: int| 0 <= i < fs.len() ==> field_ok(#[trigger] fs[i]),
        0 <= c.pos,
        c.pos + fields_bytes(fs).len() < bytes.len(),
        bytes.subrange(c.pos, c.pos + fields_bytes(fs).len()) == fields_bytes(fs),
    ensures
        run(bytes, c) == run(
            bytes,
            Cursor {
                pos: c.pos + fields_bytes(fs).len(),
                current: Some(apply_fields(c.current->0, fs)),
                ..c
            },
        ),
    decreases fs.len(),
{
    reveal(fields_bytes);
    if fs.len() == 0 {
        assert(Cursor { pos: c.pos + fields_bytes(fs).len(), current: Some(apply_fields(c.current->0, fs)), ..c } == c);
    } else {
        let init = fs.drop_last();
        let f = fs.last();
        let whole = fields_bytes(fs);
        let head = fields_bytes(init);
        let fb = field_bytes(f);
        assert(whole == head + fb);
        assert(whole.subrange(0, head.len() as int) =~= head);
        lemma_piece(bytes, c.pos, whole, 0, head);
        assert(forall|i: int| 0 <= i < init.len() ==> init[i] == fs[i]);
        lemma_run_fields(bytes, c, init);
        let mid = Cursor { pos: c.pos + head.len(), current: Some(apply_fields(c.current->0, init)), ..c };
        assert(whole.subrange(head.len() as int, (head.len() + fb.len()) as int) =~= fb);
        lemma_piece(bytes, c.pos, whole, head.len() as int, fb);
        assert(field_ok(fs[fs.len() - 1]));
        lemma_run_field(bytes, mid, f);
    }
}

/// The fields of an entry are all readable when its strings are plain.
proof fn lemma_entry_fields_ok(e: EntryView)
    requires
        entry_is_plain(e),
    ensures
        forall|i: int| 0 <= i < entry_fields(e).len() ==> field_ok(#[trigger] entry_fields(e)[i]),
        apply_fields(EntryView::blank(), entry_fields(e)) == e.without_tags(),
{
    reveal_strlit("appid");
    reveal_strlit("AppName");
    reveal_strlit("Exe");
    reveal_strlit("StartDir");
    reveal_strlit("icon");
    reveal_strlit("ShortcutPath");
    reveal_strlit("LaunchOptions");
    reveal_strlit("IsHidden");
    reveal_strlit("AllowDesktopConfig");
    reveal_strlit("AllowOverlay");
    reveal_strlit("OpenVR");
    reveal_strlit("Devkit");
    reveal_strlit("DevkitGameID");
    reveal_strlit("DevkitOverrideAppID");
    reveal_strlit("LastPlayTime");
    reveal_strlit("FlatpakAppID");
    reveal_strlit("tags");
    let fs = entry_fields(e);
    assert forall|i: int| 0 <= i < fs.len() implies field_ok(#[trigger] fs[i]) by {
        assert(is_plain_text("appid"@));
        assert(is_plain_text("AppName"@));
        assert(is_plain_text("Exe"@));
        assert(is_plain_text("StartDir"@));
        assert(is_plain_text("icon"@));
        assert(is_plain_text("ShortcutPath"@));
        assert(is_plain_text("LaunchOptions"@));
        assert(is_plain_text("IsHidden"@));
        assert(is_plain_text("AllowDesktopConfig"@));
        assert(is_plain_text("AllowOverlay"@));
        assert(is_plain_text("OpenVR"@));
        assert(is_plain_text("Devkit"@));
        assert(is_plain_text("DevkitGameID"@));
        assert(is_plain_text("DevkitOverrideAppID"@));
        assert(is_plain_text("LastPlayTime"@));
        assert(is_plain_text("FlatpakAppID"@));
        assert(is_plain_text("tags"@));
    }
    assert(fs.subrange(0, 1).drop_last() =~= fs.subrange(0, 0));
    assert(fs.subrange(0, 2).drop_last() =~= fs.subrange(0, 1));
    assert(fs.subrange(0, 3).drop_last() =~= fs.subrange(0, 2));
    assert(fs.subrange(0, 4).drop_last() =~= fs.subrange(0, 3));
    assert(fs.subrange(0, 5).drop_last() =~= fs.subrange(0, 4));
    assert(fs.subrange(0, 6).drop_last() =~= fs.subrange(0, 5));
    assert(fs.subrange(0, 7).drop_last() =~= fs.subrange(0, 6));
    assert(fs.subrange(0, 8).drop_last() =~= fs.subrange(0, 7));
    assert(fs.subrange(0, 9).drop_last() =~= fs.subrange(0, 8));
    assert(fs.subrange(0, 10).drop_last() =~= fs.subrange(0, 9));
    assert(fs.subrange(0, 11).drop_last() =~= fs.subrange(0, 10));
    assert(fs.subrange(0, 12).drop_last() =~= fs.subrange(0, 11));
    assert(fs.subrange(0, 13).drop_last() =~= fs.subrange(0, 12));
    assert(fs.subrange(0, 14).drop_last() =~= fs.subrange(0, 13));
    assert(fs.subrange(0, 15).drop_last() =~= fs.subrange(0, 14));
    assert(fs.subrange(0, 16).drop_last() =~= fs.subrange(0, 15));
    assert(fs.subrange(0, 17).drop_last() =~= fs.subrange(0, 16));
    assert(fs.subrange(0, 0) =~= Seq::<Field>::empty());
    assert(fs.subrange(0, 17) =~= fs);
    assert("Devkit"@[0] != "OpenVR"@[0]);
    assert("DevkitGameID"@[0] != "ShortcutPath"@[0]);
    assert("LastPlayTime"@[0] != "AllowOverlay"@[0]);
    assert("FlatpakAppID"@[0] != "ShortcutPath"@[0]);
    assert("FlatpakAppID"@[0] != "DevkitGameID"@[0]);
    let a0 = EntryView::blank();
    assert(apply_fields(a0, fs.subrange(0, 0)) == a0);
    let a1 = EntryView { appid: e.appid, ..a0 };
    assert(fs.subrange(0, 1).last() == fs[0]);
    assert(apply_field(a0, fs[0]) == a1);
    assert(apply_fields(a0, fs.subrange(0, 1)) == a1);
    let a2 = EntryView { app_name: e.app_name, ..a1 };
    assert(fs.subrange(0, 2).last() == fs[1]);
    assert(apply_field(a1, fs[1]) == a2);
    assert(apply_fields(a0, fs.subrange(0, 2)) == a2);
    let a3 = EntryView { exe: e.exe, ..a2 };
    assert(fs.subrange(0, 3).last() == fs[2]);
    assert(apply_field(a2, fs[2]) == a3);
    assert(apply_fields(a0, fs.subrange(0, 3)) == a3);
    let a4 = EntryView { start_dir: e.start_dir, ..a3 };
    assert(fs.subrange(0, 4).last() == fs[3]);
    assert(apply_field(a3, fs[3]) == a4);
    assert(apply_fields(a0, fs.subrange(0, 4)) == a4);
    let a5 = EntryView { icon: e.icon, ..a4 };
    assert(fs.subrange(0, 5).last() == fs[4]);
    assert(apply_field(a4, fs[4]) == a5);
    assert(apply_fields(a0, fs.subrange(0, 5)) == a5);
    let a6 = EntryView { shortcut_path: e.shortcut_path, ..a5 };
    assert(fs.subrange(0, 6).last() == fs[5]);
    assert(apply_field(a5, fs[5]) == a6);
    assert(apply_fields(a0, fs.subrange(0, 6)) == a6);
    let a7 = EntryView { launch_options: e.launch_options, ..a6 };
    assert(fs.subrange(0, 7).last() == fs[6]);
    assert(apply_field(a6, fs[6]) == a7);
    assert(apply_fields(a0, fs.subrange(0, 7)) == a7);
    let a8 = EntryView { is_hidden: e.is_hidden, ..a7 };
    assert(fs.subrange(0, 8).last() == fs[7]);
    assert(apply_field(a7, fs[7]) == a8);
    assert(apply_fields(a0, fs.subrange(0, 8)) == a8);
    let a9 = EntryView { allow_desktop_config: e.allow_desktop_config, ..a8 };
    assert(fs.subrange(0, 9).last() == fs[8]);
    assert(apply_field(a8, fs[8]) == a9);
    assert(apply_fields(a0, fs.subrange(0, 9)) == a9);
    let a10 = EntryView { allow_overlay: e.allow_overlay, ..a9 };
    assert(fs.subrange(0, 10).last() == fs[9]);
    assert(apply_field(a9, fs[9]) == a10);
    assert(apply_fields(a0, fs.subrange(0, 10)) == a10);
    let a11 = EntryView { open_vr: e.open_vr, ..a10 };
    assert(fs.subrange(0, 11).last() == fs[10]);
    assert(apply_field(a10, fs[10]) == a11);
    assert(apply_fields(a0, fs.subrange(0, 11)) == a11);
    let a12 = EntryView { devkit: e.devkit, ..a11 };
    assert(fs.subrange(0, 12).last() == fs[11]);
    assert(apply_field(a11, fs[11]) == a12);
    assert(apply_fields(a0, fs.subrange(0, 12)) == a12);
    let a13 = EntryView { devkit_game_id: e.devkit_game_id, ..a12 };
    assert(fs.subrange(0, 13).last() == fs[12]);
    assert(apply_field(a12, fs[12]) == a13);
    assert(apply_fields(a0, fs.subrange(0, 13)) == a13);
    let a14 = EntryView { devkit_override_app_id: e.devkit_override_app_id, ..a13 };
    assert(fs.subrange(0, 14).last() == fs[13]);
    assert(apply_field(a13, fs[13]) == a14);
    assert(apply_fields(a0, fs.subrange(0, 14)) == a14);
    let a15 = EntryView { last_play_time: e.last_play_time, ..a14 };
    assert(fs.subrange(0, 15).last() == fs[14]);
    assert(apply_field(a14, fs[14]) == a15);
    assert(apply_fields(a0, fs.subrange(0, 15)) == a15);
    let a16 = EntryView { flatpak_app_id: e.flatpak_app_id, ..a15 };
    assert(fs.subrange(0, 16).last() == fs[15]);
    assert(apply_field(a15, fs[15]) == a16);
    assert(apply_fields(a0, fs.subrange(0, 16)) == a16);
    let a17 = a16;
    assert(fs.subrange(0, 17).last() == fs[16]);
    assert(apply_field(a16, fs[16]) == a17);
    assert(apply_fields(a0, fs.subrange(0, 17)) == a17);
    assert(a17 == e.without_tags());

}

proof fn lemma_decimal_plain(n: nat)
    ensures
        is_plain_text(decimal(n)),
        decimal(n).len() > 0,
        '0' <= decimal(n)[0] <= '9',
{
    lemma_decimal_is_digits(n);
    assert forall|i: int| 0 <= i < decimal(n).len() implies is_plain_char(#[trigger] decimal(n)[i]) by {
        assert('0' <= decimal(n)[i] <= '9');
    }
}

proof fn lemma_run_entry(bytes: Seq<u8>, c: Cursor, e: EntryView)
    requires
        c.state is Shortcut,
        entry_is_plain(e),
        c.pos >= 1,
        c.pos - 1 + entry_bytes(c.counter, e).len() <= bytes.len(),
        bytes.subrange(c.pos - 1, c.pos - 1 + entry_bytes(c.counter, e).len()) == entry_bytes(c.counter, e),
    ensures
        run(bytes, c) == run(
            bytes,
            Cursor {
                state: ParseState::Shortcut,
                pos: c.pos + entry_bytes(c.counter, e).len(),
                current: None,
                done: c.done.push(e.without_tags()),
                counter: c.counter + 1,
            },
        ),
{
    let k = c.counter;
    let eb = entry_bytes(k, e);
    let o = c.pos - 1;
    let dec = decimal(k);
    let sb = string_bytes(dec);
    let fs = entry_fields(e);
    let fb = fields_bytes(fs);
    assert(eb == seq![0u8] + sb + fb + seq![8u8]);
    lemma_decimal_plain(k);
    lemma_plain_encoding(dec);
    assert(eb.subrange(1, 1 + sb.len() as int) =~= sb);
    lemma_piece(bytes, o, eb, 1, sb);
    lemma_read_plain(bytes, c.pos, dec);
    assert(bytes[c.pos] == eb[1]);
    assert(eb[1] == encode_utf8(dec)[0]);
    assert(bytes[c.pos] != 8u8);
    let q = c.pos + sb.len();
    let c1 = Cursor {
        state: ParseState::Entry,
        pos: q,
        current: Some(EntryView::blank()),
        counter: k + 1,
        ..c
    };
    assert(step(bytes, c) == Ok::<Cursor, ParsingErrorView>(c1));
    assert(run(bytes, c) == run(bytes, c1));
    assert(eb.subrange(1 + sb.len() as int, 1 + sb.len() as int + fb.len() as int) =~= fb);
    lemma_piece(bytes, o, eb, 1 + sb.len() as int, fb);
    lemma_entry_fields_ok(e);
    lemma_run_fields(bytes, c1, fs);
    let c2 = Cursor { pos: q + fb.len(), current: Some(e.without_tags()), ..c1 };
    assert(bytes[q + fb.len()] == eb[eb.len() - 1]);
    let c3 = Cursor {
        state: ParseState::Shortcut,
        pos: c.pos + eb.len(),
        current: None,
        done: c.done.push(e.without_tags()),
        counter: k + 1,
    };
    assert(step(bytes, c2) == Ok::<Cursor, ParsingErrorView>(c3));
    assert(run(bytes, c2) == run(bytes, c3));
}

proof fn lemma_entries_prefix(c: Seq<EntryView>, k: int)
    requires
        0 <= k <= c.len(),
    ensures
        entries_bytes(c.subrange(0, k)).len() <= entries_bytes(c).len(),
        entries_bytes(c).subrange(0, entries_bytes(c.subrange(0, k)).len() as int) == entries_bytes(
            c.subrange(0, k),
        ),
    decreases c.len() - k,
{
    if k == c.len() {
        assert(c.subrange(0, k) =~= c);
        assert(entries_bytes(c).subrange(0, entries_bytes(c).len() as int) =~= entries_bytes(c));
    } else {
        lemma_entries_prefix(c, k + 1);
        assert(c.subrange(0, k + 1).drop_last() =~= c.subrange(0, k));
        let short = entries_bytes(c.subrange(0, k));
        let long = entries_bytes(c.subrange(0, k + 1));
        assert(long == short + entry_bytes(k as nat, c[k]));
        assert(entries_bytes(c).subrange(0, short.len() as int) =~= long.subrange(0, short.len() as int));
        assert(long.subrange(0, short.len() as int) =~= short);
    }
}

/// What the registry keeps of entries: all but their tag lists.
pub open spec fn stored(c: Seq<EntryView>) -> Seq<EntryView> {
    c.map_values(|e: EntryView| e.without_tags())
}

spec fn entry_cursor(c: Seq<EntryView>, k: int) -> Cursor {
    Cursor {
        state: ParseState::Shortcut,
        pos: header_bytes().len() + entries_bytes(c.subrange(0, k)).len() + 1int,
        current: None,
        done: stored(c.subrange(0, k)),
        counter: k as nat,
    }
}

proof fn lemma_run_entries(c: Seq<EntryView>, k: int)
    requires
        0 <= k <= c.len(),
        forall|i: int| 0 <= i < c.len() ==> entry_is_plain(#[trigger] c[i]),
    ensures
        run(registry_bytes(c), entry_cursor(c, k)) == Ok::<Seq<EntryView>, ParsingErrorView>(stored(c)),
    decreases c.len() - k,
{
    let b = registry_bytes(c);
    let h = header_bytes();
    let all = entries_bytes(c);
    assert(b == h + all + seq![8u8, 8u8]);
    let cur = entry_cursor(c, k);
    if k == c.len() {
        assert(c.subrange(0, k) =~= c);
        assert(b[cur.pos] == 8u8);
        let end = Cursor { pos: cur.pos + 1, ..cur };
        assert(step(b, cur) == Ok::<Cursor, ParsingErrorView>(end));
        assert(run(b, cur) == run(b, end));
    } else {
        lemma_entries_prefix(c, k);
        lemma_entries_prefix(c, k + 1);
        assert(c.subrange(0, k + 1).drop_last() =~= c.subrange(0, k));
        let short = entries_bytes(c.subrange(0, k));
        let eb = entry_bytes(k as nat, c[k]);
        let long = entries_bytes(c.subrange(0, k + 1));
        assert(long == short + eb);
        assert(b.subrange(h.len() as int, h.len() as int + all.len() as int) =~= all);
        assert(all.subrange(short.len() as int, short.len() as int + eb.len() as int) =~= eb) by {
            assert(all.subrange(0, long.len() as int) == long);
            assert forall|i: int| 0 <= i < eb.len() implies all.subrange(
                short.len() as int,
                short.len() as int + eb.len() as int,
            )[i] == eb[i] by {
                assert(all[short.len() + i] == all.subrange(0, long.len() as int)[short.len() + i]);
                assert(long[short.len() + i] == eb[i]);
            }
        }
        lemma_piece(b, h.len() as int, all, short.len() as int, eb);
        lemma_run_entry(b, cur, c[k]);
        let next = entry_cursor(c, k + 1);
        assert(stored(c.subrange(0, k)).push(c[k].without_tags()) =~= stored(c.subrange(0, k + 1)));
        lemma_run_entries(c, k + 1);
    }
}

/// Writing entries whose strings are plain text (ASCII without NUL) and
/// reading the bytes back gives the same entries in the same order, with
/// their tag lists empty.
pub proof fn lemma_round_trip(c: Seq<EntryView>)
    requires
        forall|i: int| 0 <= i < c.len() ==> entry_is_plain(#[trigger] c[i]),
    ensures
        decoded(registry_bytes(c)) == Ok::<Seq<EntryView>, ParsingErrorView>(stored(c)),
{
    let b = registry_bytes(c);
    let h = header_bytes();
    let name = section_name();
    assert(b == h + entries_bytes(c) + seq![8u8, 8u8]);
    assert(h == seq![0u8] + name + seq![0u8]);
    let c0 = start_cursor();
    let c1 = Cursor { state: ParseState::Shortcuts, pos: 1, ..c0 };
    assert(b[0] == 0u8);
    assert(step(b, c0) == Ok::<Cursor, ParsingErrorView>(c1));
    assert(run(b, c0) == run(b, c1));
    assert(b.subrange(1, 1 + name.len() as int) =~= name) by {
        assert forall|i: int| 0 <= i < name.len() implies b.subrange(1, 1 + name.len() as int)[i] == name[i] by {
            assert(b[1 + i] == h[1 + i]);
        }
    }
    assert(c.subrange(0, 0) =~= Seq::<EntryView>::empty());
    assert(stored(c.subrange(0, 0)) =~= Seq::<EntryView>::empty());
    let c2 = entry_cursor(c, 0);
    assert(step(b, c1) == Ok::<Cursor, ParsingErrorView>(c2));
    assert(run(b, c1) == run(b, c2));
    lemma_run_entries(c, 0);
}

} // verus!
