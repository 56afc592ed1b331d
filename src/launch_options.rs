//! Normalising a raw launch command into a list of double-quoted arguments.

use vstd::prelude::*;

use crate::text::{chars_of, push_char};

verus! {

/// The characters of `t` without its escapes: a backslash and the character
/// after it are both dropped.
pub open spec fn unescape(t: Seq<char>) -> Seq<char>
    decreases t.len(),
{
    if t.len() == 0 {
        t
    } else if t[0] == '\\' {
        if t.len() >= 2 {
            unescape(t.subrange(2, t.len() as int))
        } else {
            Seq::empty()
        }
    } else {
        seq![t[0]] + unescape(t.subrange(1, t.len() as int))
    }
}

/// The position after an escape that starts at `pos`.
pub open spec fn after_escape(s: Seq<char>, pos: int) -> int {
    if pos + 1 < s.len() {
        pos + 2
    } else {
        s.len() as int
    }
}

/// How many characters lie at or after `pos`.
pub open spec fn chars_left(s: Seq<char>, pos: int) -> nat {
    if pos >= s.len() {
        0
    } else {
        (s.len() - pos) as nat
    }
}

/// The tokens of `s`, scanning from `pos` with a token (quoted or not) open
/// from `start` or none open, after `tokens` were found. At the end of the
/// input whatever lies from the last start onward is one more token.
pub open spec fn scan(
    s: Seq<char>,
    pos: int,
    start: int,
    in_token: bool,
    in_quotation: bool,
    tokens: Seq<Seq<char>>,
) -> Seq<Seq<char>>
    decreases chars_left(s, pos),
{
    if pos >= s.len() {
        tokens.push(unescape(s.subrange(start, s.len() as int)))
    } else if s[pos] == '\\' {
        scan(s, after_escape(s, pos), start, in_token, in_quotation, tokens)
    } else if in_token {
        if in_quotation {
            if s[pos] == '"' {
                scan(s, pos + 1, start, false, false, tokens.push(unescape(s.subrange(start, pos))))
            } else {
                scan(s, pos + 1, start, true, true, tokens)
            }
        } else if s[pos] == ' ' {
            scan(s, pos + 1, start, false, false, tokens.push(unescape(s.subrange(start, pos))))
        } else {
            scan(s, pos + 1, start, true, false, tokens)
        }
    } else if s[pos] == '"' {
        scan(s, pos + 1, pos + 1, true, true, tokens)
    } else if s[pos] != ' ' {
        scan(s, pos + 1, pos, true, false, tokens)
    } else {
        scan(s, pos + 1, start, false, false, tokens)
    }
}

/// The tokens of a whole launch command.
pub open spec fn tokens_of(s: Seq<char>) -> Seq<Seq<char>> {
    scan(s, 0, 0, false, false, Seq::empty())
}

/// The tokens that are kept: neither empty nor the file placeholder `%f`.
pub open spec fn is_kept(t: Seq<char>) -> bool {
    t.len() > 0 && t != seq!['%', 'f']
}

/// `t` between double quotes.
pub open spec fn quote(t: Seq<char>) -> Seq<char> {
    seq!['"'] + t + seq!['"']
}

/// The tokens, each in double quotes, joined by single spaces.
pub open spec fn quoted_join(ts: Seq<Seq<char>>) -> Seq<char>
    decreases ts.len(),
{
    if ts.len() == 0 {
        Seq::empty()
    } else if ts.len() == 1 {
        quote(ts[0])
    } else {
        quoted_join(ts.drop_last()) + seq![' '] + quote(ts.last())
    }
}

/// The normalised form of a launch command.
pub open spec fn normalized(s: Seq<char>) -> Seq<char> {
    quoted_join(tokens_of(s).filter(|t: Seq<char>| is_kept(t)))
}

/// The characters of `chars` from `start` to `end` without their escapes.
fn unescaped(chars: &Vec<char>, start: usize, end: usize) -> (r: Vec<char>)
    requires
        start <= end <= chars@.len(),
    ensures
        r@ == unescape(chars@.subrange(start as int, end as int)),
{
    let mut r: Vec<char> = Vec::new();
    let mut i = start;
    while i < end
        invariant
            start <= i <= end <= chars@.len(),
            r@ + unescape(chars@.subrange(i as int, end as int)) == unescape(
                chars@.subrange(start as int, end as int),
            ),
        decreases end - i,
    {
        let ghost rest = chars@.subrange(i as int, end as int);
        if chars[i] == '\\' {
            if i + 1 < end {
                assert(rest.subrange(2, rest.len() as int) =~= chars@.subrange(i + 2, end as int));
                i = i + 2;
            } else {
                assert(chars@.subrange(end as int, end as int) =~= Seq::<char>::empty());
                i = end;
            }
        } else {
            r.push(chars[i]);
            assert(rest.subrange(1, rest.len() as int) =~= chars@.subrange(i + 1, end as int));
            assert(r@ + unescape(chars@.subrange(i + 1, end as int)) =~= r@.drop_last() + (seq![
                chars@[i as int],
            ] + unescape(chars@.subrange(i + 1, end as int))));
            i = i + 1;
        }
    }
    assert(chars@.subrange(end as int, end as int) =~= Seq::<char>::empty());
    assert(r@ =~= r@ + unescape(Seq::<char>::empty()));
    r
}

/// Rewrites a raw launch command into its arguments, each in double quotes
/// and separated by single spaces.
///
/// Outside a token, spaces are skipped, a `"` opens a quoted token and any
/// other character opens a plain one. A quoted token ends at the next `"`, a
/// plain one at the next space. A backslash escapes the character after it:
/// that character neither opens nor closes a token, and neither of the two
/// is kept. At the end of the input whatever lies from the last token start
/// onward is one more token. Empty tokens and `%f` are dropped.
pub fn fix_launch_options(launch_options: String) -> (r: String)
    ensures
        r@ == normalized(launch_options@),
{
    let chars = chars_of(launch_options.as_str());
    let ghost s = chars@;
    let mut tokens: Vec<Vec<char>> = Vec::new();
    let ghost mut found: Seq<Seq<char>> = Seq::empty();

    let mut pos: usize = 0;
    let mut start: usize = 0;
    let mut in_token = false;
    let mut in_quotation = false;

    while pos < chars.len()
        invariant
            s == chars@,
            s == launch_options@,
            start <= pos <= s.len(),
            in_quotation ==> in_token,
            tokens@.len() == found.len(),
            forall|i: int| 0 <= i < found.len() ==> #[trigger] tokens@[i]@ == found[i],
            scan(s, pos as int, start as int, in_token, in_quotation, found) == tokens_of(s),
        decreases s.len() - pos,
    {
        let c = chars[pos];
        let ghost (pos0, start0, token0, quote0, found0) = (pos as int, start as int, in_token, in_quotation, found);
        if c == '\\' {
            if pos + 1 < chars.len() {
                pos = pos + 2;
            } else {
                pos = chars.len();
            }
        } else {
            if in_token {
                if in_quotation {
                    if c == '"' {
                        in_token = false;
                        in_quotation = false;
                        let t = unescaped(&chars, start, pos);
                        proof {
                            found = found.push(t@);
                        }
                        tokens.push(t);
                    }
                } else if c == ' ' {
                    in_token = false;
                    let t = unescaped(&chars, start, pos);
                    proof {
                        found = found.push(t@);
                    }
                    tokens.push(t);
                }
            } else if c == '"' {
                in_token = true;
                in_quotation = true;
                start = pos + 1;
            } else if c != ' ' {
                in_token = true;
                start = pos;
            }
            pos = pos + 1;
        }
        assert(scan(s, pos0, start0, token0, quote0, found0) == scan(s, pos as int, start as int, in_token, in_quotation, found));
    }
    let t = unescaped(&chars, start, chars.len());
    proof {
        found = found.push(t@);
    }
    tokens.push(t);
    assert(found == tokens_of(s));

    let mut rtn = String::new();
    let mut is_first = true;
    let mut k: usize = 0;
    while k < tokens.len()
        invariant
            k <= tokens@.len() == found.len(),
            forall|i: int| 0 <= i < found.len() ==> #[trigger] tokens@[i]@ == found[i],
            rtn@ == quoted_join(found.subrange(0, k as int).filter(|t: Seq<char>| is_kept(t))),
            is_first == (found.subrange(0, k as int).filter(|t: Seq<char>| is_kept(t)).len() == 0),
        decreases tokens@.len() - k,
    {
        let token = &tokens[k];
        let ghost before = found.subrange(0, k as int).filter(|t: Seq<char>| is_kept(t));
        let ghost after = found.subrange(0, k + 1).filter(|t: Seq<char>| is_kept(t));
        proof {
            reveal_with_fuel(Seq::filter, 1);
            assert(found.subrange(0, k + 1).drop_last() =~= found.subrange(0, k as int));
        }
        let is_placeholder = token.len() == 2 && token[0] == '%' && token[1] == 'f';
        assert(is_placeholder == (token@ == seq!['%', 'f'])) by {
            if token@.len() == 2 && token@[0] == '%' && token@[1] == 'f' {
                assert(token@ =~= seq!['%', 'f']);
            }
        }
        if token.len() == 0 || is_placeholder {
            assert(after == before);
        } else {
            assert(after == before.push(token@));
            assert(after.drop_last() =~= before);
            if is_first {
                is_first = false;
            } else {
                push_char(&mut rtn, ' ');
            }
            push_char(&mut rtn, '"');
            let mut m: usize = 0;
            let ghost base = rtn@;
            while m < token.len()
                invariant
                    m <= token@.len(),
                    rtn@ == base + token@.subrange(0, m as int),
                decreases token@.len() - m,
            {
                push_char(&mut rtn, token[m]);
                m = m + 1;
                assert(rtn@ =~= base + token@.subrange(0, m as int));
            }
            push_char(&mut rtn, '"');
            assert(token@.subrange(0, m as int) =~= token@);
            assert(rtn@ =~= quoted_join(after));
        }
        k = k + 1;
    }
    assert(found.subrange(0, k as int) =~= found);
    rtn
}

} // verus!
