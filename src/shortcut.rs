//! One registry entry and the ordered collection of them.

use vstd::prelude::*;

verus! {

/// One entry of the registry.
#[derive(Debug, Clone)]
pub struct ShortcutEntry {
    pub appid: u32,
    pub app_name: String,
    pub exe: String,
    pub start_dir: String,
    pub icon: String,
    pub shortcut_path: String,
    pub launch_options: String,
    pub is_hidden: u32,
    pub allow_desktop_config: u32,
    pub allow_overlay: u32,
    pub open_vr: u32,
    pub devkit: u32,
    pub devkit_game_id: String,
    pub devkit_override_app_id: u32,
    pub last_play_time: u32,
    pub flatpak_app_id: String,
    pub tags: Vec<String>,
}

/// The mathematical counterpart of [`ShortcutEntry`].
pub struct EntryView {
    pub appid: u32,
    pub app_name: Seq<char>,
    pub exe: Seq<char>,
    pub start_dir: Seq<char>,
    pub icon: Seq<char>,
    pub shortcut_path: Seq<char>,
    pub launch_options: Seq<char>,
    pub is_hidden: u32,
    pub allow_desktop_config: u32,
    pub allow_overlay: u32,
    pub open_vr: u32,
    pub devkit: u32,
    pub devkit_game_id: Seq<char>,
    pub devkit_override_app_id: u32,
    pub last_play_time: u32,
    pub flatpak_app_id: Seq<char>,
    pub tags: Seq<Seq<char>>,
}

impl EntryView {
    /// The entry with every integer zero and every string and list empty.
    pub open spec fn blank() -> EntryView {
        EntryView {
            appid: 0,
            app_name: Seq::empty(),
            exe: Seq::empty(),
            start_dir: Seq::empty(),
            icon: Seq::empty(),
            shortcut_path: Seq::empty(),
            launch_options: Seq::empty(),
            is_hidden: 0,
            allow_desktop_config: 0,
            allow_overlay: 0,
            open_vr: 0,
            devkit: 0,
            devkit_game_id: Seq::empty(),
            devkit_override_app_id: 0,
            last_play_time: 0,
            flatpak_app_id: Seq::empty(),
            tags: Seq::empty(),
        }
    }

    /// The same entry with an empty tag list: what the registry keeps of it.
    pub open spec fn without_tags(self) -> EntryView {
        EntryView { tags: Seq::empty(), ..self }
    }
}

impl View for ShortcutEntry {
    type V = EntryView;

    open spec fn view(&self) -> EntryView {
        EntryView {
            appid: self.appid,
            app_name: self.app_name@,
            exe: self.exe@,
            start_dir: self.start_dir@,
            icon: self.icon@,
            shortcut_path: self.shortcut_path@,
            launch_options: self.launch_options@,
            is_hidden: self.is_hidden,
            allow_desktop_config: self.allow_desktop_config,
            allow_overlay: self.allow_overlay,
            open_vr: self.open_vr,
            devkit: self.devkit,
            devkit_game_id: self.devkit_game_id@,
            devkit_override_app_id: self.devkit_override_app_id,
            last_play_time: self.last_play_time,
            flatpak_app_id: self.flatpak_app_id@,
            tags: self.tags.deep_view(),
        }
    }
}

impl Default for ShortcutEntry {
    fn default() -> (r: ShortcutEntry)
        ensures
            r@ == EntryView::blank(),
    {
        let r = ShortcutEntry {
            appid: 0,
            app_name: String::new(),
            exe: String::new(),
            start_dir: String::new(),
            icon: String::new(),
            shortcut_path: String::new(),
            launch_options: String::new(),
            is_hidden: 0,
            allow_desktop_config: 0,
            allow_overlay: 0,
            open_vr: 0,
            devkit: 0,
            devkit_game_id: String::new(),
            devkit_override_app_id: 0,
            last_play_time: 0,
            flatpak_app_id: String::new(),
            tags: Vec::new(),
        };
        assert(r.tags.deep_view() =~= Seq::<Seq<char>>::empty());
        r
    }
}

/// The registry's entries, in the order in which they are stored.
#[derive(Debug, Clone)]
pub struct Shortcuts {
    pub shortcuts: Vec<ShortcutEntry>,
}

impl View for Shortcuts {
    type V = Seq<EntryView>;

    open spec fn view(&self) -> Seq<EntryView> {
        self.shortcuts@.map_values(|e: ShortcutEntry| e@)
    }
}

/// No two entries share an appid.
pub open spec fn appids_unique(c: Seq<EntryView>) -> bool {
    forall|i: int, j: int|
        0 <= i < c.len() && 0 <= j < c.len() && i != j ==> #[trigger] c[i].appid != #[trigger] c[j].appid
}

/// The collection after inserting `e`: every entry with the same appid is
/// dropped and `e` goes to the end.
pub open spec fn inserted(c: Seq<EntryView>, e: EntryView) -> Seq<EntryView> {
    c.filter(appid_differs(e.appid)).push(e)
}

/// Holds of the entries whose appid is not `id`.
pub open spec fn appid_differs(id: u32) -> spec_fn(EntryView) -> bool {
    |x: EntryView| x.appid != id
}

impl Default for Shortcuts {
    fn default() -> (r: Shortcuts)
        ensures
            r@ == Seq::<EntryView>::empty(),
    {
        let r = Shortcuts { shortcuts: Vec::new() };
        assert(r@ =~= Seq::<EntryView>::empty());
        r
    }
}

impl Shortcuts {
    /// Removes every entry with the appid of `shortcut_entry`, then appends
    /// `shortcut_entry`.
    pub fn insert_shortcut(&mut self, shortcut_entry: ShortcutEntry)
        ensures
            final(self)@ == inserted(old(self)@, shortcut_entry@),
    {
        let ghost old_view = self@;
        let mut i: usize = 0;
        let ghost mut j: int = 0;
        while i < self.shortcuts.len()
            invariant
                0 <= i <= self.shortcuts.len(),
                0 <= j <= old_view.len(),
                self@.len() - i == old_view.len() - j,
                self@.subrange(0, i as int) == old_view.subrange(0, j).filter(appid_differs(shortcut_entry.appid)),
                self@.subrange(i as int, self@.len() as int) == old_view.subrange(j, old_view.len() as int),
            decreases self.shortcuts.len() - i,
        {
            let ghost before = self@;
            assert(old_view.subrange(0, j + 1).drop_last() =~= old_view.subrange(0, j));
            assert(before[i as int] == old_view[j]) by {
                assert(before.subrange(i as int, before.len() as int)[0] == before[i as int]);
            }
            assert(before.subrange(i + 1, before.len() as int) =~= before.subrange(i as int, before.len() as int).drop_first());
            assert(old_view.subrange(j + 1, old_view.len() as int) =~= old_view.subrange(j, old_view.len() as int).drop_first());
            reveal_with_fuel(Seq::filter, 1);
            assert(before[i as int] == self.shortcuts@[i as int]@);
            if self.shortcuts[i].appid == shortcut_entry.appid {
                assert(!appid_differs(shortcut_entry.appid)(old_view[j]));
                assert(old_view.subrange(0, j + 1).filter(appid_differs(shortcut_entry.appid)) == old_view.subrange(0, j).filter(appid_differs(shortcut_entry.appid)));
                self.shortcuts.remove(i);
                assert(self@ =~= before.remove(i as int));
                assert(self@.subrange(0, i as int) =~= before.subrange(0, i as int));
                assert(self@.subrange(i as int, self@.len() as int) =~= before.subrange(i + 1, before.len() as int));
            } else {
                assert(appid_differs(shortcut_entry.appid)(old_view[j]));
                assert(old_view.subrange(0, j + 1).filter(appid_differs(shortcut_entry.appid)) == old_view.subrange(0, j).filter(appid_differs(shortcut_entry.appid)).push(old_view[j]));
                i = i + 1;
                assert(self@.subrange(0, i as int) =~= before.subrange(0, i - 1).push(before[i - 1]));
                assert(self@.subrange(i as int, self@.len() as int) =~= before.subrange(i as int, before.len() as int));
            }
            proof {
                j = j + 1;
            }
        }
        assert(old_view.subrange(0, j) =~= old_view);
        assert(self@.subrange(0, i as int) =~= self@);
        self.shortcuts.push(shortcut_entry);
        assert(self@ =~= inserted(old_view, shortcut_entry@));
    }
}

proof fn lemma_filter_unique(c: Seq<EntryView>, id: u32)
    requires
        appids_unique(c),
    ensures
        appids_unique(c.filter(appid_differs(id))),
        forall|i: int|
            0 <= i < c.filter(appid_differs(id)).len() ==> c.contains(
                #[trigger] c.filter(appid_differs(id))[i],
            ),
    decreases c.len(),
{
    reveal_with_fuel(Seq::filter, 1);
    if c.len() > 0 {
        let init = c.drop_last();
        let last = c.last();
        assert(appids_unique(init)) by {
            assert forall|i: int, j: int|
                0 <= i < init.len() && 0 <= j < init.len() && i != j implies #[trigger] init[i].appid
                != #[trigger] init[j].appid by {
                assert(init[i] == c[i] && init[j] == c[j]);
            }
        }
        lemma_filter_unique(init, id);
        let f = init.filter(appid_differs(id));
        let out = c.filter(appid_differs(id));
        assert forall|i: int| 0 <= i < f.len() implies c.contains(#[trigger] f[i]) && f[i].appid
            != last.appid by {
            assert(init.contains(f[i]));
            let j = choose|j: int| 0 <= j < init.len() && init[j] == f[i];
            assert(c[j] == f[i]);
            assert(c[j].appid != c[c.len() - 1].appid);
        }
        if appid_differs(id)(last) {
            assert(out == f.push(last));
            assert forall|i: int| 0 <= i < out.len() implies c.contains(#[trigger] out[i]) by {
                if i < f.len() {
                    assert(out[i] == f[i]);
                } else {
                    assert(c[c.len() - 1] == out[i]);
                }
            }
            assert forall|i: int, j: int|
                0 <= i < out.len() && 0 <= j < out.len() && i != j implies #[trigger] out[i].appid
                != #[trigger] out[j].appid by {
                if i < f.len() && j < f.len() {
                    assert(out[i] == f[i] && out[j] == f[j]);
                } else if i < f.len() {
                    assert(out[i] == f[i]);
                } else {
                    assert(out[j] == f[j]);
                }
            }
        } else {
            assert(out == f);
        }
    }
}

proof fn lemma_filter_drops_one(c: Seq<EntryView>, id: u32, j: int)
    requires
        appids_unique(c),
        0 <= j < c.len(),
        c[j].appid == id,
    ensures
        c.filter(appid_differs(id)).len() == c.len() - 1,
    decreases c.len(),
{
    reveal_with_fuel(Seq::filter, 1);
    let init = c.drop_last();
    assert(appids_unique(init)) by {
        assert forall|a: int, b: int|
            0 <= a < init.len() && 0 <= b < init.len() && a != b implies #[trigger] init[a].appid
            != #[trigger] init[b].appid by {
            assert(init[a] == c[a] && init[b] == c[b]);
        }
    }
    if j == c.len() - 1 {
        assert forall|i: int| 0 <= i < init.len() implies (#[trigger] init[i]).appid != id by {
            assert(init[i] == c[i]);
        }
        lemma_filter_keeps_all(init, id);
    } else {
        assert(init[j] == c[j]);
        assert(c[c.len() - 1].appid != c[j].appid);
        lemma_filter_drops_one(init, id, j);
    }
}

proof fn lemma_filter_keeps_all(c: Seq<EntryView>, id: u32)
    requires
        forall|i: int| 0 <= i < c.len() ==> (#[trigger] c[i]).appid != id,
    ensures
        c.filter(appid_differs(id)).len() == c.len(),
    decreases c.len(),
{
    reveal_with_fuel(Seq::filter, 1);
    if c.len() > 0 {
        let init = c.drop_last();
        assert forall|i: int| 0 <= i < init.len() implies (#[trigger] init[i]).appid != id by {
            assert(init[i] == c[i]);
        }
        lemma_filter_keeps_all(init, id);
        assert(c[c.len() - 1].appid != id);
    }
}

/// Inserting keeps appids unique; and inserting an entry whose appid is
/// already present keeps the length and puts the new entry last.
pub proof fn lemma_insert_replaces(c: Seq<EntryView>, e: EntryView)
    requires
        appids_unique(c),
    ensures
        appids_unique(inserted(c, e)),
        inserted(c, e).last() == e,
        (exists|i: int| 0 <= i < c.len() && c[i].appid == e.appid) ==> inserted(c, e).len() == c.len(),
{
    broadcast use Seq::lemma_filter_pred;

    lemma_filter_unique(c, e.appid);
    let f = c.filter(appid_differs(e.appid));
    let out = inserted(c, e);
    assert forall|i: int, j: int|
        0 <= i < out.len() && 0 <= j < out.len() && i != j implies #[trigger] out[i].appid
        != #[trigger] out[j].appid by {
        if i < f.len() && j < f.len() {
            assert(out[i] == f[i] && out[j] == f[j]);
        } else if i < f.len() {
            assert(out[i] == f[i]);
            assert(appid_differs(e.appid)(f[i]));
        } else {
            assert(out[j] == f[j]);
            assert(appid_differs(e.appid)(f[j]));
        }
    }
    if exists|i: int| 0 <= i < c.len() && c[i].appid == e.appid {
        let j = choose|i: int| 0 <= i < c.len() && c[i].appid == e.appid;
        lemma_filter_drops_one(c, e.appid, j);
    }
}

} // verus!
