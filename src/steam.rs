//! Data about the Steam installation: its public application list and the
//! accounts that logged in on this machine.

use std::collections::HashMap;
use vstd::prelude::*;
use vstd::string::StringSliceAdditionalSpecFns;
use vstd::utf8::encode_utf8;

use crate::text::{chars_of, decimal, decimal_string, push_char, trim_lines, trimmed};

verus! {

/// The answer of the store's application-list service.
#[derive(Default, Debug, Clone, PartialEq)]
pub struct AppListResult {
    pub app_list: AppList,
}

#[derive(Default, Debug, Clone, PartialEq)]
pub struct AppList {
    pub apps: Vec<App>,
}

/// One application of the store.
#[derive(Default, Debug, Clone, PartialEq)]
pub struct App {
    pub app_id: i64,
    pub name: String,
}

/// The accounts that logged in on this machine, by account id.
#[derive(Debug, Clone)]
pub struct LoginUsers {
    pub users: HashMap<String, HashMap<String, String>>,
}

impl Default for LoginUsers {
    fn default() -> (r: LoginUsers)
        ensures
            r.users@ == Map::<String, HashMap<String, String>>::empty(),
    {
        LoginUsers { users: HashMap::with_capacity(1) }
    }
}

/// `s` with `A` to `Z` turned into `a` to `z`.
pub open spec fn ascii_lower(s: Seq<char>) -> Seq<char> {
    s.map_values(|c: char| if 'A' <= c <= 'Z' { ((c as u8) + 32) as char } else { c })
}

/// `s` with `A` to `Z` turned into `a` to `z`.
pub fn to_ascii_lowercase(s: &str) -> (r: String)
    ensures
        r@ == ascii_lower(s@),
{
    let chars = chars_of(s);
    let mut r = String::new();
    let mut i: usize = 0;
    while i < chars.len()
        invariant
            i <= chars@.len(),
            chars@ == s@,
            r@ == ascii_lower(chars@.subrange(0, i as int)),
        decreases chars@.len() - i,
    {
        let c = chars[i];
        if 'A' <= c && c <= 'Z' {
            push_char(&mut r, ((c as u8) + 32) as char);
        } else {
            push_char(&mut r, c);
        }
        i = i + 1;
        assert(r@ =~= ascii_lower(chars@.subrange(0, i as int)));
    }
    assert(chars@.subrange(0, i as int) =~= chars@);
    r
}

pub uninterp spec fn sift4_distance(a: Seq<char>, b: Seq<char>) -> usize;

/// Relies on `textdistance::str::sift4_simple`: the distance depends on the
/// two texts alone.
#[verifier::external_body]
fn sift4(a: &str, b: &str) -> (r: usize)
    ensures
        r == sift4_distance(a@, b@),
{
    textdistance::str::sift4_simple(a, b)
}

/// How far the name of the store application is from `game_name`, case
/// set aside for `A` to `Z`.
pub open spec fn name_distance(game_name: Seq<char>, app_name: Seq<char>) -> usize {
    sift4_distance(ascii_lower(game_name), ascii_lower(app_name))
}

/// `k` is the first application whose name is nearest to `game_name`.
pub open spec fn is_nearest(apps: Seq<App>, game_name: Seq<char>, k: int) -> bool {
    &&& 0 <= k < apps.len()
    &&& forall|j: int| 0 <= j < apps.len() ==> name_distance(game_name, apps[j].name@) >= name_distance(game_name, apps[k].name@)
    &&& forall|j: int| 0 <= j < k ==> name_distance(game_name, apps[j].name@) > name_distance(game_name, apps[k].name@)
}

/// `k` is the first position of a smallest value of `d`.
pub open spec fn is_first_minimum(d: Seq<usize>, k: int) -> bool {
    &&& 0 <= k < d.len()
    &&& forall|j: int| 0 <= j < d.len() ==> d[j] >= d[k]
    &&& forall|j: int| 0 <= j < k ==> d[j] > d[k]
}

/// The first position of a smallest distance; none where there is none.
pub fn nearest_index(distances: &Vec<usize>) -> (r: Option<usize>)
    ensures
        distances@.len() == 0 <==> r is None,
        r is Some ==> is_first_minimum(distances@, r->0 as int),
{
    if distances.len() == 0 {
        return None;
    }
    let mut best: usize = 0;
    let mut i: usize = 1;
    while i < distances.len()
        invariant
            1 <= i <= distances@.len(),
            best < i,
            forall|j: int| 0 <= j < i ==> distances@[j] >= distances@[best as int],
            forall|j: int| 0 <= j < best ==> distances@[j] > distances@[best as int],
        decreases distances@.len() - i,
    {
        if distances[i] < distances[best] {
            best = i;
        }
        i = i + 1;
    }
    Some(best)
}

impl AppListResult {
    /// The store id of the application whose name is nearest to
    /// `game_name` (the first of them on a tie), cut to 32 bits; none where
    /// the list is empty.
    pub fn best_steam_app_id(&self, game_name: &str) -> (r: Option<u32>)
        ensures
            self.app_list.apps@.len() == 0 <==> r is None,
            r is Some ==> exists|k: int|
                is_nearest(self.app_list.apps@, game_name@, k) && r->0 == self.app_list.apps@[k].app_id as u32,
    {
        let apps = &self.app_list.apps;
        let wanted = to_ascii_lowercase(game_name);
        let mut distances: Vec<usize> = Vec::new();
        let mut i: usize = 0;
        while i < apps.len()
            invariant
                i <= apps@.len(),
                wanted@ == ascii_lower(game_name@),
                distances@.len() == i,
                forall|j: int| 0 <= j < i ==> #[trigger] distances@[j] == name_distance(game_name@, apps@[j].name@),
            decreases apps@.len() - i,
        {
            let name = to_ascii_lowercase(apps[i].name.as_str());
            distances.push(sift4(wanted.as_str(), name.as_str()));
            i = i + 1;
        }
        match nearest_index(&distances) {
            None => None,
            Some(k) => {
                assert(is_nearest(apps@, game_name@, k as int)) by {
                    assert forall|j: int| 0 <= j < apps@.len() implies name_distance(game_name@, apps@[j].name@)
                        >= name_distance(game_name@, apps@[k as int].name@) by {
                        assert(distances@[j] >= distances@[k as int]);
                    }
                    assert forall|j: int| 0 <= j < k implies name_distance(game_name@, apps@[j].name@)
                        > name_distance(game_name@, apps@[k as int].name@) by {
                        assert(distances@[j] > distances@[k as int]);
                    }
                }
                Some(apps[k].app_id as u32)
            },
        }
    }
}

/// The characters that split words: space, tab, line feed, form feed and
/// carriage return.
pub open spec fn is_ascii_space(c: char) -> bool {
    c == ' ' || c == '\t' || c == '\n' || c == '\x0C' || c == '\r'
}

/// The first position at or after `i` whose character is (when `space`) or
/// is not (otherwise) a word-splitting one; the length where there is none.
pub open spec fn next_kind(s: Seq<char>, i: int, space: bool) -> int
    decreases s.len() - i,
{
    if i < 0 || i >= s.len() {
        s.len() as int
    } else if is_ascii_space(s[i]) == space {
        i
    } else {
        next_kind(s, i + 1, space)
    }
}

/// The first word of `s`, where words are split by ASCII whitespace.
pub open spec fn first_word(s: Seq<char>) -> Option<Seq<char>> {
    let start = next_kind(s, 0, false);
    if start >= s.len() {
        None
    } else {
        Some(s.subrange(start, next_kind(s, start, true)))
    }
}

/// The value of the decimal digits `s`.
pub open spec fn digits_value(s: Seq<char>) -> nat
    decreases s.len(),
{
    if s.len() == 0 {
        0
    } else {
        digits_value(s.drop_last()) * 10 + ((s.last() as u32) - 48) as nat
    }
}

/// Every character of `s` is an ASCII digit.
pub open spec fn all_digits(s: Seq<char>) -> bool {
    forall|i: int| 0 <= i < s.len() ==> '0' <= #[trigger] s[i] <= '9'
}

/// An unsigned integer written as decimal digits, with an optional leading
/// `+`.
pub open spec fn unsigned_value(s: Seq<char>) -> Option<nat> {
    let digits = if s.len() > 0 && s[0] == '+' {
        s.subrange(1, s.len() as int)
    } else {
        s
    };
    if digits.len() > 0 && all_digits(digits) {
        Some(digits_value(digits))
    } else {
        None
    }
}

/// The offset between a 64-bit account id and the 32-bit id that names the
/// account's directory.
pub open spec fn account_base() -> nat {
    0x110000100000000
}

/// The 32-bit id written in a 19-character account key: the 17 characters
/// inside its quotes, less the offset; none where they are no number or the
/// number is below the offset.
pub open spec fn user_id_of_key(key: Seq<char>) -> Option<Seq<char>> {
    if !vstd::utf8::is_ascii_chars(key) {
        None
    } else {
        match unsigned_value(key.subrange(1, 18)) {
            None => None,
            Some(n) => if n < account_base() {
                None
            } else {
                Some(decimal((n - account_base()) as nat))
            },
        }
    }
}

/// The first account of the trimmed lines of the login-users file, reading
/// from line `i`, once the opening brace has been seen (`opened`) or not. A
/// blank line ends the search with nothing.
pub open spec fn first_user_from(lines: Seq<Seq<char>>, i: int, opened: bool) -> Option<Seq<char>>
    decreases lines.len() - i,
{
    if i < 0 || i >= lines.len() {
        None
    } else {
        match first_word(lines[i]) {
            None => None,
            Some(w) => if !opened {
                first_user_from(lines, i + 1, w == seq!['{'])
            } else if encode_utf8(w).len() == 19 {
                user_id_of_key(w)
            } else {
                first_user_from(lines, i + 1, true)
            },
        }
    }
}

fn is_space_char(c: char) -> (r: bool)
    ensures
        r == is_ascii_space(c),
{
    c == ' ' || c == '\t' || c == '\n' || c == '\x0C' || c == '\r'
}

/// Where the next character of the given kind stands, from `i` on.
fn find_kind(s: &Vec<char>, i: usize, space: bool) -> (r: usize)
    requires
        i <= s@.len(),
    ensures
        r == next_kind(s@, i as int, space),
        i <= r <= s@.len(),
{
    let mut k = i;
    while k < s.len()
        invariant
            i <= k <= s@.len(),
            next_kind(s@, i as int, space) == next_kind(s@, k as int, space),
        decreases s@.len() - k,
    {
        if is_space_char(s[k]) == space {
            return k;
        }
        k = k + 1;
    }
    k
}

/// The value of an unsigned decimal number with an optional leading `+`,
/// where it fits in 64 bits.
fn parse_unsigned(s: &Vec<char>, from: usize, to: usize) -> (r: Option<u64>)
    requires
        from <= to <= s@.len(),
        to - from <= 18,
    ensures
        match unsigned_value(s@.subrange(from as int, to as int)) {
            None => r is None,
            Some(n) => r is Some && r->0 == n,
        },
{
    let ghost t = s@.subrange(from as int, to as int);
    let mut i = from;
    if i < to && s[i] == '+' {
        i = i + 1;
    }
    let ghost digits = s@.subrange(i as int, to as int);
    assert(digits =~= if t.len() > 0 && t[0] == '+' { t.subrange(1, t.len() as int) } else { t });
    if i == to {
        return None;
    }
    let mut value: u64 = 0;
    let start = i;
    while i < to
        invariant
            from <= start <= i <= to <= s@.len(),
            to - start <= 18,
            t == s@.subrange(from as int, to as int),
            digits == s@.subrange(start as int, to as int),
            unsigned_value(t) == (if digits.len() > 0 && all_digits(digits) {
                Some(digits_value(digits))
            } else {
                None
            }),
            all_digits(s@.subrange(start as int, i as int)),
            value == digits_value(s@.subrange(start as int, i as int)),
            value < pow10((i - start) as nat),
        decreases to - i,
    {
        let c = s[i];
        if c < '0' || c > '9' {
            assert(digits[i - start] == c);
            return None;
        }
        proof {
            let a = s@.subrange(start as int, i as int);
            let b = s@.subrange(start as int, i + 1);
            assert(b.drop_last() =~= a);
            lemma_pow10_bound((i - start) as nat);
            assert(value * 10 + 9 < pow10((i + 1 - start) as nat)) by (nonlinear_arith)
                requires
                    value < pow10((i - start) as nat),
                    pow10((i + 1 - start) as nat) == 10 * pow10((i - start) as nat),
            ;
        }
        value = value * 10 + ((c as u32) - 48) as u64;
        i = i + 1;
        assert(all_digits(s@.subrange(start as int, i as int))) by {
            assert forall|j: int| 0 <= j < i - start implies '0' <= #[trigger] s@.subrange(start as int, i as int)[j] <= '9' by {
                if j < i - 1 - start {
                    assert(s@.subrange(start as int, i as int)[j] == s@.subrange(start as int, i - 1)[j]);
                }
            }
        }
    }
    assert(s@.subrange(start as int, i as int) =~= digits);
    Some(value)
}

/// Ten to the power `n`.
pub open spec fn pow10(n: nat) -> nat
    decreases n,
{
    if n == 0 {
        1
    } else {
        10 * pow10((n - 1) as nat)
    }
}

proof fn lemma_pow10_bound(n: nat)
    requires
        n <= 18,
    ensures
        pow10(n + 1) == 10 * pow10(n),
        pow10(n) <= 1_000_000_000_000_000_000,
    decreases 18 - n,
{
    if n < 18 {
        lemma_pow10_bound(n + 1);
        lemma_pow10_positive(n);
    } else {
        reveal_with_fuel(pow10, 19);
    }
}

proof fn lemma_pow10_positive(n: nat)
    ensures
        pow10(n) >= 1,
    decreases n,
{
    if n > 0 {
        lemma_pow10_positive((n - 1) as nat);
    }
}

impl LoginUsers {
    /// The directory id of the first account listed in the lines of the
    /// login-users file: the first word of the first line after the opening
    /// brace that is 19 bytes long, read as in [`user_id_of_key`].
    pub fn get_first_user_id(lines: &Vec<String>) -> (r: Option<String>)
        ensures
            match first_user_from(lines@.map_values(|l: String| trimmed(l@)), 0, false) {
                None => r is None,
                Some(id) => r is Some && r->0@ == id,
            },
    {
        let t = trim_lines(lines);
        assert(t@.map_values(|l: String| l@) =~= lines@.map_values(|l: String| trimmed(l@)));
        LoginUsers::first_user_id_of_trimmed(&t)
    }

    /// As [`LoginUsers::get_first_user_id`], on lines that are already
    /// trimmed.
    pub fn first_user_id_of_trimmed(lines: &Vec<String>) -> (r: Option<String>)
        ensures
            match first_user_from(lines@.map_values(|l: String| l@), 0, false) {
                None => r is None,
                Some(id) => r is Some && r->0@ == id,
            },
    {
        let ghost views = lines@.map_values(|l: String| l@);
        let mut opened = false;
        let mut n: usize = 0;
        while n < lines.len()
            invariant
                n <= lines@.len(),
                views == lines@.map_values(|l: String| l@),
                first_user_from(views, 0, false) == first_user_from(views, n as int, opened),
            decreases lines@.len() - n,
        {
            let chars = chars_of(lines[n].as_str());
            assert(views[n as int] == lines@[n as int]@);
            let start = find_kind(&chars, 0, false);
            if start >= chars.len() {
                return None;
            }
            let end = find_kind(&chars, start, true);
            let ghost w = chars@.subrange(start as int, end as int);
            assert(chars@ == views[n as int]);
            assert(first_word(chars@) == Some(w));
            if !opened {
                opened = end == start + 1 && chars[start] == '{';
                assert(opened == (w == seq!['{'])) by {
                    if end == start + 1 && chars@[start as int] == '{' {
                        assert(w =~= seq!['{']);
                    }
                    if w == seq!['{'] {
                        assert(w.len() == 1 && w[0] == chars@[start as int]);
                    }
                }
            } else {
                assert(first_user_from(views, n as int, true) == (if encode_utf8(w).len() == 19 {
                    user_id_of_key(w)
                } else {
                    first_user_from(views, n + 1, true)
                }));
                let mut word = String::new();
                let mut k = start;
                while k < end
                    invariant
                        start <= k <= end <= chars@.len(),
                        word@ == chars@.subrange(start as int, k as int),
                    decreases end - k,
                {
                    push_char(&mut word, chars[k]);
                    k = k + 1;
                    assert(word@ =~= chars@.subrange(start as int, k as int));
                }
                let ws = word.as_str();
                assert(ws@ == w);
                assert(ws.spec_bytes() == encode_utf8(w));
                if ws.as_bytes().len() == 19 {
                    if !ws.is_ascii() {
                        assert(!vstd::utf8::is_ascii_chars(w));
                        return None;
                    }
                    proof {
                        vstd::string::is_ascii_spec_bytes(ws);
                    }
                    assert(chars@.subrange(start + 1, start + 18) =~= w.subrange(1, 18));
                    return match parse_unsigned(&chars, start + 1, start + 18) {
                        None => None,
                        Some(number) => {
                            if number < 0x110000100000000u64 {
                                None
                            } else {
                                Some(decimal_string(number - 0x110000100000000u64))
                            }
                        },
                    };
                }
            }
            n = n + 1;
        }
        None
    }
}

} // verus!
