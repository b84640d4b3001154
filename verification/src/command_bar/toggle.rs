//! Adding and removing `--option` words of the command line.
use vstd::prelude::*;
use crate::command_bar::suggest::{find_token_span, lemma_token_from_bound, token_span};
use crate::text::{chars_of, extend_chars, is_white_space, is_whitespace, slice_vec};

verus! {

/// `s` without the first whole word equal to `token` and one whitespace
/// character beside it (the one after it, else the one before it), or
/// nothing when no word equals `token`.
pub open spec fn remove_token(s: Seq<char>, token: Seq<char>) -> Option<Seq<char>> {
    match token_span(s, token) {
        None => None,
        Some((a, b)) => if b < s.len() && is_white_space(s[b]) {
            Some(s.take(a) + s.skip(b + 1))
        } else if a > 0 && is_white_space(s[a - 1]) {
            Some(s.take(a - 1) + s.skip(b))
        } else {
            Some(s.take(a) + s.skip(b))
        },
    }
}

/// `s` with the word `token` removed when it has one.
pub open spec fn without_token(s: Seq<char>, token: Seq<char>) -> Seq<char> {
    match remove_token(s, token) {
        Some(r) => r,
        None => s,
    }
}

/// Index of the last whitespace character of `s`.
pub open spec fn last_ws(s: Seq<char>) -> Option<int>
    decreases s.len(),
{
    if s.len() == 0 {
        None
    } else if is_white_space(s.last()) {
        Some(s.len() - 1)
    } else {
        last_ws(s.drop_last())
    }
}

/// `s` without its last word when that word starts with `--` and follows
/// some whitespace.
pub open spec fn without_partial_option(s: Seq<char>) -> Seq<char> {
    match last_ws(s) {
        None => s,
        Some(w) => {
            let word = s.skip(w + 1);
            if word.len() >= 2 && word[0] == '-' && word[1] == '-' {
                s.take(w + 1)
            } else {
                s
            }
        },
    }
}

pub open spec fn is_case_option(o: Seq<char>) -> bool {
    o == "--case-sensitive"@ || o == "--ignore-case"@ || o == "--regex"@
}

/// The command line after choosing option `o`: a present `o` is removed;
/// otherwise a partly typed option and the options that exclude `o` are
/// removed and `o` is added at the end.
pub open spec fn toggled(s: Seq<char>, o: Seq<char>) -> Seq<char> {
    match remove_token(s, o) {
        Some(r) => r,
        None => {
            let s1 = without_partial_option(s);
            let s2 = if is_case_option(o) {
                without_token(without_token(without_token(s1, "--case-sensitive"@), "--ignore-case"@), "--regex"@)
            } else if o == "--abs"@ {
                without_token(s1, "--rel"@)
            } else if o == "--rel"@ {
                without_token(s1, "--abs"@)
            } else {
                s1
            };
            let s3 = if s2.len() > 0 && is_white_space(s2.last()) { s2 } else { s2.push(' ') };
            s3 + o + seq![' ']
        },
    }
}

/// Removes the word `token` (see `remove_token`); whether it was there.
pub fn remove_token_exec(s: &mut Vec<char>, token: &[char]) -> (r: bool)
    ensures
        r == remove_token(old(s)@, token@) is Some,
        final(s)@ == without_token(old(s)@, token@),
{
    match find_token_span(s.as_slice(), token) {
        None => false,
        Some((a, b)) => {
            proof {
                lemma_token_from_bound(s@, token@, 0);
            }
            let (start, end) = if b < s.len() && is_whitespace(s[b]) {
                (a, b + 1)
            } else if a > 0 && is_whitespace(s[a - 1]) {
                (a - 1, b)
            } else {
                (a, b)
            };
            let mut r = slice_vec(s.as_slice(), 0, start);
            let rest = slice_vec(s.as_slice(), end, s.len());
            extend_chars(&mut r, rest.as_slice());
            assert(s@.subrange(0, start as int) =~= s@.take(start as int));
            assert(s@.subrange(end as int, s.len() as int) =~= s@.skip(end as int));
            *s = r;
            true
        },
    }
}

fn last_ws_exec(s: &[char]) -> (r: Option<usize>)
    ensures
        match last_ws(s@) {
            Some(w) => r == Some(w as usize),
            None => r is None,
        },
{
    let mut i = s.len();
    assert(s@.take(i as int) =~= s@);
    while i > 0 && !is_whitespace(s[i - 1])
        invariant
            0 <= i <= s.len(),
            last_ws(s@) == last_ws(s@.take(i as int)),
        decreases i,
    {
        assert(s@.take(i as int).drop_last() =~= s@.take(i - 1));
        i = i - 1;
    }
    if i == 0 {
        None
    } else {
        Some(i - 1)
    }
}

fn remove_partial_option(s: &mut Vec<char>)
    ensures
        final(s)@ == without_partial_option(old(s)@),
{
    match last_ws_exec(s.as_slice()) {
        None => {},
        Some(w) => {
            proof {
                lemma_last_ws_bound(s@);
            }
            let n = s.len() - (w + 1);
            if n >= 2 && s[w + 1] == '-' && s[w + 2] == '-' {
                let r = slice_vec(s.as_slice(), 0, w + 1);
                assert(s@.subrange(0, w + 1) =~= s@.take(w + 1));
                *s = r;
            }
        },
    }
}

proof fn lemma_last_ws_bound(s: Seq<char>)
    ensures
        last_ws(s) matches Some(w) ==> 0 <= w < s.len() && is_white_space(s[w]),
    decreases s.len(),
{
    if s.len() > 0 && !is_white_space(s.last()) {
        lemma_last_ws_bound(s.drop_last());
    }
}

/// Applies option `o` to the command line `s` (see `toggled`).
pub fn toggle_option(s: &mut Vec<char>, o: &str)
    ensures
        final(s)@ == toggled(old(s)@, o@),
{
    let ov = chars_of(o);
    if remove_token_exec(s, ov.as_slice()) {
        return;
    }
    remove_partial_option(s);
    let case_sensitive = chars_of("--case-sensitive");
    let ignore_case = chars_of("--ignore-case");
    let regex = chars_of("--regex");
    let abs = chars_of("--abs");
    let rel = chars_of("--rel");
    if crate::text::chars_eq(ov.as_slice(), case_sensitive.as_slice())
        || crate::text::chars_eq(ov.as_slice(), ignore_case.as_slice())
        || crate::text::chars_eq(ov.as_slice(), regex.as_slice()) {
        remove_token_exec(s, case_sensitive.as_slice());
        remove_token_exec(s, ignore_case.as_slice());
        remove_token_exec(s, regex.as_slice());
    } else if crate::text::chars_eq(ov.as_slice(), abs.as_slice()) {
        remove_token_exec(s, rel.as_slice());
    } else if crate::text::chars_eq(ov.as_slice(), rel.as_slice()) {
        remove_token_exec(s, abs.as_slice());
    }
    if !(s.len() > 0 && is_whitespace(s[s.len() - 1])) {
        s.push(' ');
    }
    extend_chars(s, ov.as_slice());
    s.push(' ');
}

proof fn lemma_remove_token_keeps_colon(s: Seq<char>, t: Seq<char>)
    requires
        s.len() > 0,
        s[0] == ':',
        t.len() > 0,
        t[0] != ':',
    ensures
        without_token(s, t).len() > 0,
        without_token(s, t)[0] == ':',
        remove_token(s, t) matches Some(r) ==> r.len() > 0 && r[0] == ':',
{
    lemma_token_from_bound(s, t, 0);
    if let Some((a, b)) = token_span(s, t) {
        assert(s[a] == s.subrange(a, b)[0]);
        assert(a >= 1);
    }
}

/// Applying an option keeps the `:` that starts the command line.
pub proof fn lemma_toggled_keeps_colon(s: Seq<char>, o: Seq<char>)
    requires
        s.len() > 0,
        s[0] == ':',
        o.len() > 0,
        o[0] == '-',
    ensures
        toggled(s, o).len() > 0,
        toggled(s, o)[0] == ':',
{
    lemma_remove_token_keeps_colon(s, o);
    if remove_token(s, o) is None {
        let s1 = without_partial_option(s);
        lemma_last_ws_bound(s);
        if let Some(w) = last_ws(s) {
            assert(w + 1 >= 1);
        }
        assert(s1.len() > 0 && s1[0] == ':');
        reveal_strlit("--case-sensitive");
        reveal_strlit("--ignore-case");
        reveal_strlit("--regex");
        reveal_strlit("--abs");
        reveal_strlit("--rel");
        let a = without_token(s1, "--case-sensitive"@);
        lemma_remove_token_keeps_colon(s1, "--case-sensitive"@);
        let b = without_token(a, "--ignore-case"@);
        lemma_remove_token_keeps_colon(a, "--ignore-case"@);
        lemma_remove_token_keeps_colon(b, "--regex"@);
        lemma_remove_token_keeps_colon(s1, "--rel"@);
        lemma_remove_token_keeps_colon(s1, "--abs"@);
    }
}

} // verus!
