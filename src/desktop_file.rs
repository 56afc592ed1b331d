//! The parts of a desktop entry (an ini-like application descriptor) that
//! the tool reads.

use vstd::prelude::*;

use crate::text::{chars_of, push_char, text_equals, trim_lines, trimmed};

verus! {

/// The name, icon and command line of an application.
#[derive(Debug)]
pub struct DesktopFile {
    pub name: String,
    pub icon: String,
    /// The command line (the `Exec` key).
    pub command: String,
}

/// The first position at or after `i` where `pat` stands in `s`.
pub open spec fn occurrence_from(s: Seq<char>, pat: Seq<char>, i: int) -> Option<int>
    decreases s.len() + 1 - i,
{
    if i < 0 || i + pat.len() > s.len() {
        None
    } else if s.subrange(i, i + pat.len()) == pat {
        Some(i)
    } else {
        occurrence_from(s, pat, i + 1)
    }
}

/// The first position where `pat` stands in `s`.
pub open spec fn first_occurrence(s: Seq<char>, pat: Seq<char>) -> Option<int> {
    occurrence_from(s, pat, 0)
}

/// The command from the first `"run"` on, else from the first `run` on,
/// else the whole command.
pub open spec fn exec_from_run(command: Seq<char>) -> Seq<char> {
    match first_occurrence(command, seq!['"', 'r', 'u', 'n', '"']) {
        Some(i) => command.subrange(i, command.len() as int),
        None => match first_occurrence(command, seq!['r', 'u', 'n']) {
            Some(i) => command.subrange(i, command.len() as int),
            None => command,
        },
    }
}

/// What a line says: the key before its first `=` and the value after it.
pub open spec fn key_value(line: Seq<char>) -> Option<(Seq<char>, Seq<char>)> {
    match first_occurrence(line, seq!['=']) {
        Some(i) => Some((line.subrange(0, i), line.subrange(i + 1, line.len() as int))),
        None => None,
    }
}

/// Name, icon and command after reading the trimmed `lines`: the first
/// non-empty value of each of the keys `Name`, `Icon` and `Exec` wins.
pub open spec fn desktop_fields(lines: Seq<Seq<char>>) -> (Seq<char>, Seq<char>, Seq<char>)
    decreases lines.len(),
{
    if lines.len() == 0 {
        (Seq::empty(), Seq::empty(), Seq::empty())
    } else {
        let (name, icon, command) = desktop_fields(lines.drop_last());
        match key_value(lines.last()) {
            None => (name, icon, command),
            Some((k, v)) => if k == "Name"@ && name.len() == 0 {
                (v, icon, command)
            } else if k == "Icon"@ && icon.len() == 0 {
                (name, v, command)
            } else if k == "Exec"@ && command.len() == 0 {
                (name, icon, v)
            } else {
                (name, icon, command)
            },
        }
    }
}

/// The first position where `pat` stands in `hay`.
pub(crate) fn find_chars(hay: &Vec<char>, pat: &Vec<char>) -> (r: Option<usize>)
    ensures
        match first_occurrence(hay@, pat@) {
            Some(i) => r is Some && r->0 == i,
            None => r is None,
        },
        r is Some ==> r->0 + pat@.len() <= hay@.len(),
{
    if pat.len() > hay.len() {
        return None;
    }
    let last = hay.len() - pat.len();
    let mut i: usize = 0;
    while i <= last
        invariant
            last + pat@.len() == hay@.len(),
            hay@.len() <= usize::MAX,
            i <= last + 1,
            occurrence_from(hay@, pat@, 0) == occurrence_from(hay@, pat@, i as int),
        decreases last + 1 - i,
    {
        let mut k: usize = 0;
        let mut matched = true;
        while k < pat.len()
            invariant
                i <= last,
                last + pat@.len() == hay@.len(),
                hay@.len() <= usize::MAX,
                k <= pat@.len(),
                matched ==> hay@.subrange(i as int, i + k) == pat@.subrange(0, k as int),
                !matched ==> hay@.subrange(i as int, i + pat@.len()) != pat@,
            decreases pat@.len() - k,
        {
            if matched && hay[i + k] != pat[k] {
                matched = false;
                assert(hay@.subrange(i as int, i + pat@.len())[k as int] != pat@[k as int]);
            }
            k = k + 1;
            if matched {
                assert(hay@.subrange(i as int, i + k) =~= pat@.subrange(0, k as int));
            }
        }
        if matched {
            assert(pat@.subrange(0, k as int) =~= pat@);
            return Some(i);
        }
        proof {
            if pat@.len() == 0 {
                assert(hay@.subrange(i as int, i as int) =~= pat@);
            }
        }
        i = i + 1;
    }
    None
}

/// The characters `chars[from..]` as a string.
fn string_from(chars: &Vec<char>, from: usize) -> (r: String)
    requires
        from <= chars@.len(),
    ensures
        r@ == chars@.subrange(from as int, chars@.len() as int),
{
    let mut r = String::new();
    let mut i = from;
    while i < chars.len()
        invariant
            from <= i <= chars@.len(),
            r@ == chars@.subrange(from as int, i as int),
        decreases chars@.len() - i,
    {
        push_char(&mut r, chars[i]);
        i = i + 1;
        assert(r@ =~= chars@.subrange(from as int, i as int));
    }
    r
}

/// The characters `chars[from..to]` as a string.
fn string_between(chars: &Vec<char>, from: usize, to: usize) -> (r: String)
    requires
        from <= to <= chars@.len(),
    ensures
        r@ == chars@.subrange(from as int, to as int),
{
    let mut r = String::new();
    let mut i = from;
    while i < to
        invariant
            from <= i <= to <= chars@.len(),
            r@ == chars@.subrange(from as int, i as int),
        decreases to - i,
    {
        push_char(&mut r, chars[i]);
        i = i + 1;
        assert(r@ =~= chars@.subrange(from as int, i as int));
    }
    r
}

impl DesktopFile {
    /// The part of the command that a launcher runs: from the first `"run"`
    /// on, else from the first `run` on, else all of it.
    pub fn to_exec(&self) -> (r: String)
        ensures
            r@ == exec_from_run(self.command@),
    {
        let chars = chars_of(self.command.as_str());
        let quoted_run = vec!['"', 'r', 'u', 'n', '"'];
        assert(quoted_run@ =~= seq!['"', 'r', 'u', 'n', '"']);
        if let Some(at) = find_chars(&chars, &quoted_run) {
            return string_from(&chars, at);
        }
        let run = vec!['r', 'u', 'n'];
        assert(run@ =~= seq!['r', 'u', 'n']);
        match find_chars(&chars, &run) {
            None => string_from(&chars, 0),
            Some(at) => string_from(&chars, at),
        }
    }

    /// Reads name, icon and command from the lines of a desktop entry: each
    /// line is trimmed and split at its first `=`, and the first non-empty
    /// value of `Name`, `Icon` and `Exec` is kept.
    pub fn from_lines(lines: &Vec<String>) -> (r: DesktopFile)
        ensures
            (r.name@, r.icon@, r.command@) == desktop_fields(lines@.map_values(|l: String| trimmed(l@))),
    {
        let t = trim_lines(lines);
        assert(t@.map_values(|l: String| l@) =~= lines@.map_values(|l: String| trimmed(l@)));
        DesktopFile::from_trimmed_lines(&t)
    }

    /// Reads name, icon and command from lines that are already trimmed:
    /// each is split at its first `=`, and the first non-empty value of
    /// `Name`, `Icon` and `Exec` is kept.
    pub fn from_trimmed_lines(lines: &Vec<String>) -> (r: DesktopFile)
        ensures
            (r.name@, r.icon@, r.command@) == desktop_fields(lines@.map_values(|l: String| l@)),
    {
        let ghost views = lines@.map_values(|l: String| l@);
        let mut name = String::new();
        let mut icon = String::new();
        let mut command = String::new();
        let equals = vec!['='];
        assert(equals@ =~= seq!['=']);
        let mut n: usize = 0;
        while n < lines.len()
            invariant
                n <= lines@.len(),
                views == lines@.map_values(|l: String| l@),
                equals@ == seq!['='],
                (name@, icon@, command@) == desktop_fields(views.subrange(0, n as int)),
            decreases lines@.len() - n,
        {
            let chars = chars_of(lines[n].as_str());
            proof {
                assert(views.subrange(0, n + 1).drop_last() =~= views.subrange(0, n as int));
                assert(views.subrange(0, n + 1).last() == lines@[n as int]@);
            }
            if let Some(at) = find_chars(&chars, &equals) {
                let key = string_between(&chars, 0, at);
                let end = chars.len();
                let value = string_between(&chars, at + 1, end);
                if text_equals(&key, "Name") && name.as_str().is_empty() {
                    name = value;
                } else if text_equals(&key, "Icon") && icon.as_str().is_empty() {
                    icon = value;
                } else if text_equals(&key, "Exec") && command.as_str().is_empty() {
                    command = value;
                }
            }
            n = n + 1;
        }
        assert(views.subrange(0, n as int) =~= views);
        DesktopFile { name, icon, command }
    }
}

} // verus!
