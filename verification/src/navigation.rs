//! Moving by line: `:goto` targets and `path:line:column` locations.
use vstd::prelude::*;
use crate::command_bar::GotoMode;
use crate::config::LineNumberMode;
use crate::document::{line_col, lines_in, Document};
use crate::line_numbers::shown_number;
use crate::numbers::{decimal, parse_unsigned, spec_decimal, spec_parse_unsigned};
use crate::text::{chars_of, extend_chars, push_str, slice_vec, string_from, string_of};

verus! {

/// Whether zero-based line `d`, of `count` lines, carries `label` in the
/// gutter when the cursor is on line `current`.
pub open spec fn labelled(mode: LineNumberMode, current: int, count: int, label: int, d: int) -> bool {
    0 <= d < count && shown_number(mode, d, current) == label
}

/// The line a `:goto` to `line` names when it is not a gutter label:
/// relative to the cursor's line, or one-based.
pub open spec fn goto_destination(current: int, line: int, mode: GotoMode) -> Result<int, Seq<char>> {
    if mode == GotoMode::Relative {
        if line >= 0 {
            if current + line > usize::MAX {
                Err("Relative line is out of range"@)
            } else {
                Ok(current + line)
            }
        } else if current + line < 0 {
            Err("Relative line is before the start of the document"@)
        } else {
            Ok(current + line)
        }
    } else if line >= 1 {
        Ok(line - 1)
    } else {
        Err("line numbers start at 1"@)
    }
}

/// Whether a `:goto` reads its number as a gutter label: in automatic mode,
/// when the gutter is not numbered absolutely.
pub open spec fn goes_by_label(line: int, mode: GotoMode, configured: LineNumberMode) -> bool {
    mode == GotoMode::Automatic && configured != LineNumberMode::Normal && line >= 0
}

pub open spec fn no_label_message(label: nat) -> Seq<char> {
    "No line is labelled "@ + spec_decimal(label) + "."@
}

pub open spec fn many_labels_message(label: nat) -> Seq<char> {
    "Label "@ + spec_decimal(label) + " matches multiple lines. Use :goto -"@ + spec_decimal(label)
        + " (up), :goto +"@ + spec_decimal(label) + " (down), or --abs."@
}

pub open spec fn past_end_message(destination: nat, count: nat) -> Seq<char> {
    "Line "@ + spec_decimal(destination + 1) + " is past the last line ("@ + spec_decimal(count) + ")."@
}

proof fn lemma_label_candidates(mode: LineNumberMode, current: int, label: int, d: int)
    requires
        mode != LineNumberMode::Normal,
        shown_number(mode, d, current) == label,
    ensures
        d == current || d == current - label || d == current + label,
{
}

fn shows_label(mode: LineNumberMode, candidate: usize, current: usize, label: usize) -> (r: bool)
    ensures
        r == (shown_number(mode, candidate as int, current as int) == label),
{
    let distance = if candidate >= current { candidate - current } else { current - candidate };
    match mode {
        LineNumberMode::Normal => label >= 1 && candidate == label - 1,
        LineNumberMode::Relative => distance == label,
        LineNumberMode::Dynamic => if candidate == current {
            label >= 1 && candidate == label - 1
        } else {
            distance == label
        },
    }
}

fn number_text(n: usize) -> (r: Vec<char>)
    ensures
        r@ == spec_decimal(n as nat),
{
    decimal(n as u64)
}

/// The zero-based line a `:goto` reaches. In automatic mode with a
/// relative or dynamic gutter, a non-negative number is a gutter label and
/// must name exactly one line; otherwise it counts from the cursor's line
/// (relative mode) or from one. The line must exist.
pub fn goto_line_index(document: &Document, line: isize, mode: GotoMode, configured: LineNumberMode) -> (r: Result<usize, String>)
    requires
        document@.text.len() <= isize::MAX,
        document.wf(),
    ensures
        goes_by_label(line as int, mode, configured) && (forall|d: int| !labelled(configured, document@.cursor.line as int,
            lines_in(document@.text) as int, line as int, d)) ==> (r matches Err(m) && m@ == no_label_message(line as nat)),
        goes_by_label(line as int, mode, configured) && (exists|a: int, b: int| a != b
            && labelled(configured, document@.cursor.line as int, lines_in(document@.text) as int, line as int, a)
            && labelled(configured, document@.cursor.line as int, lines_in(document@.text) as int, line as int, b))
            ==> (r matches Err(m) && m@ == many_labels_message(line as nat)),
        goes_by_label(line as int, mode, configured) && r is Ok ==> (r matches Ok(d)
            && labelled(configured, document@.cursor.line as int, lines_in(document@.text) as int, line as int, d as int)
            && forall|e: int| labelled(configured, document@.cursor.line as int, lines_in(document@.text) as int, line as int, e) ==> e == d),
        goes_by_label(line as int, mode, configured) && (exists|d: int|
            labelled(configured, document@.cursor.line as int, lines_in(document@.text) as int, line as int, d)
            && forall|e: int| labelled(configured, document@.cursor.line as int, lines_in(document@.text) as int, line as int, e) ==> e == d)
            ==> r is Ok,
        !goes_by_label(line as int, mode, configured) ==> match goto_destination(document@.cursor.line as int, line as int, mode) {
            Err(m) => r matches Err(e) && e@ == m,
            Ok(d) => if d < lines_in(document@.text) {
                r matches Ok(x) && x == d
            } else {
                r matches Err(e) && e@ == past_end_message(d as nat, lines_in(document@.text))
            },
        },
{
    let current = document.cursor().line;
    proof {
        crate::document::lemma_line_col_bound(document@.text);
        crate::document::lemma_line_col_bound(document@.text.take(document@.cursor.position as int));
    }
    assert(current <= document@.text.len());
    let count = document.line_count();
    let ghost gcount = count as int;
    if mode == GotoMode::Automatic && !(configured == LineNumberMode::Normal) && line >= 0 {
        let label = line as usize;
        let ok1 = current < count && shows_label(configured, current, current, label);
        let has2 = label <= current;
        let c2: usize = if has2 { current - label } else { 0 };
        let ok2 = has2 && c2 < count && shows_label(configured, c2, current, label);
        let has3 = label <= usize::MAX - current;
        let c3: usize = if has3 { current + label } else { 0 };
        let ok3 = has3 && c3 < count && shows_label(configured, c3, current, label);
        proof {
            assert forall|d: int| labelled(configured, current as int, gcount, label as int, d) implies
                (ok1 && d == current) || (ok2 && d == c2) || (ok3 && d == c3) by {
                lemma_label_candidates(configured, current as int, label as int, d);
            }
            assert(ok1 ==> labelled(configured, current as int, gcount, label as int, current as int));
            assert(ok2 ==> labelled(configured, current as int, gcount, label as int, c2 as int));
            assert(ok3 ==> labelled(configured, current as int, gcount, label as int, c3 as int));
        }
        let found: Option<usize> = if ok1 { Some(current) } else if ok2 { Some(c2) } else if ok3 { Some(c3) } else { None };
        match found {
            None => {
                let mut m = chars_of("No line is labelled ");
                let digits = number_text(label);
                extend_chars(&mut m, digits.as_slice());
                push_str(&mut m, ".");
                assert(m@ =~= no_label_message(label as nat));
                Err(string_of(m.as_slice()))
            },
            Some(d) => {
                if (ok1 && current != d) || (ok2 && c2 != d) || (ok3 && c3 != d) {
                    let digits = number_text(label);
                    let mut m = chars_of("Label ");
                    extend_chars(&mut m, digits.as_slice());
                    push_str(&mut m, " matches multiple lines. Use :goto -");
                    extend_chars(&mut m, digits.as_slice());
                    push_str(&mut m, " (up), :goto +");
                    extend_chars(&mut m, digits.as_slice());
                    push_str(&mut m, " (down), or --abs.");
                    assert(m@ =~= many_labels_message(label as nat));
                    Err(string_of(m.as_slice()))
                } else {
                    Ok(d)
                }
            },
        }
    } else {
        let destination: usize = if mode == GotoMode::Relative {
            if line >= 0 {
                if line as usize > usize::MAX - current {
                    return Err(string_from("Relative line is out of range"));
                }
                current + line as usize
            } else {
                let back: usize = if line == isize::MIN { isize::MAX as usize + 1 } else { (-line) as usize };
                if back > current {
                    return Err(string_from("Relative line is before the start of the document"));
                }
                current - back
            }
        } else if line >= 1 {
            (line - 1) as usize
        } else {
            return Err(string_from("line numbers start at 1"));
        };
        if destination >= count {
            let mut m = chars_of("Line ");
            let shown = number_text(destination + 1);
            extend_chars(&mut m, shown.as_slice());
            push_str(&mut m, " is past the last line (");
            let total = number_text(count);
            extend_chars(&mut m, total.as_slice());
            push_str(&mut m, ").");
            assert(m@ =~= past_end_message(destination as nat, count as nat));
            return Err(string_of(m.as_slice()));
        }
        Ok(destination)
    }
}

/// Index of the last `:` before `k`, if any.
pub open spec fn last_colon(s: Seq<char>, k: int) -> Option<int>
    decreases k,
{
    if k <= 0 || k > s.len() {
        None
    } else if s[k - 1] == ':' {
        Some(k - 1)
    } else {
        last_colon(s, k - 1)
    }
}

/// A `path:line` or `path:line:column` location, as terminal tools print
/// them.
pub open spec fn location_of(s: Seq<char>) -> Option<(Seq<char>, nat, Option<nat>)> {
    match last_colon(s, s.len() as int) {
        None => None,
        Some(i) => {
            let before = s.take(i);
            match spec_parse_unsigned(s.skip(i + 1), usize::MAX as nat) {
                None => None,
                Some(n) => match last_colon(before, before.len() as int) {
                    Some(j) => match spec_parse_unsigned(before.skip(j + 1), usize::MAX as nat) {
                        Some(l) => Some((before.take(j), l, Some(n))),
                        None => Some((before, n, None)),
                    },
                    None => Some((before, n, None)),
                },
            }
        },
    }
}

fn find_last_colon(s: &[char], k: usize) -> (r: Option<usize>)
    requires
        k <= s.len(),
    ensures
        match r {
            Some(i) => last_colon(s@, k as int) == Some(i as int) && i < k,
            None => last_colon(s@, k as int) is None,
        },
{
    let mut j: usize = k;
    while j > 0 && s[j - 1] != ':'
        invariant
            0 <= j <= k <= s.len(),
            last_colon(s@, k as int) == last_colon(s@, j as int),
        decreases j,
    {
        j = j - 1;
    }
    if j > 0 {
        Some(j - 1)
    } else {
        None
    }
}

/// Reads `path:line` or `path:line:column` (numbers as `str::parse`
/// reads a `usize`).
pub fn parse_location(arg: &str) -> (r: Option<(String, usize, Option<usize>)>)
    ensures
        match location_of(arg@) {
            None => r is None,
            Some((path, line, column)) => r matches Some((p, l, c)) && p@ == path && l == line && match column {
                Some(n) => c == Some(n as usize),
                None => c is None,
            },
        },
{
    let s = chars_of(arg);
    let i = match find_last_colon(s.as_slice(), s.len()) {
        None => {
            return None;
        },
        Some(i) => i,
    };
    let before = slice_vec(s.as_slice(), 0, i);
    let last = slice_vec(s.as_slice(), i + 1, s.len());
    assert(before@ =~= arg@.take(i as int));
    assert(last@ =~= arg@.skip(i + 1));
    let n = match parse_unsigned(last.as_slice(), usize::MAX as u64) {
        None => {
            return None;
        },
        Some(n) => n,
    };
    match find_last_colon(before.as_slice(), before.len()) {
        Some(j) => {
            let tail = slice_vec(before.as_slice(), j + 1, before.len());
            assert(tail@ =~= before@.skip(j + 1));
            match parse_unsigned(tail.as_slice(), usize::MAX as u64) {
                Some(l) => {
                    let path = slice_vec(before.as_slice(), 0, j);
                    assert(path@ =~= before@.take(j as int));
                    Some((string_of(path.as_slice()), l as usize, Some(n as usize)))
                },
                None => Some((string_of(before.as_slice()), n as usize, None)),
            }
        },
        None => Some((string_of(before.as_slice()), n as usize, None)),
    }
}

} // verus!
