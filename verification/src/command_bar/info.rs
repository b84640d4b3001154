//! Laying out informational text (results and documentation) as rows of the
//! command bar.
use vstd::prelude::*;
use crate::text::{byte_len, char_width, is_control, is_control_char, is_white_space, is_whitespace};

verus! {

/// At most this many characters of one source line are kept.
pub const MAX_LINE_CHARS: usize = 4096;

/// Rows are at most this many characters wide.
pub const ROW_CHARS: usize = 64;

/// At most this many rows are kept.
pub const MAX_ROWS: usize = 256;

/// Length of the first line of `s`, its `\n` included.
pub open spec fn line_len(s: Seq<char>) -> nat
    decreases s.len(),
{
    if s.len() == 0 {
        0
    } else if s[0] == '\n' {
        1
    } else {
        1 + line_len(s.drop_first())
    }
}

pub proof fn lemma_line_len(s: Seq<char>)
    ensures
        s.len() > 0 ==> 1 <= line_len(s) <= s.len(),
        line_len(s) <= s.len(),
        forall|i: int| 0 <= i < line_len(s) - 1 ==> s[i] != '\n',
        0 < line_len(s) < s.len() ==> s[line_len(s) - 1] == '\n',
    decreases s.len(),
{
    if s.len() > 0 && s[0] != '\n' {
        lemma_line_len(s.drop_first());
        assert forall|i: int| 0 <= i < line_len(s) - 1 implies s[i] != '\n' by {
            if i > 0 {
                assert(s[i] == s.drop_first()[i - 1]);
            }
        }
        if 0 < line_len(s) < s.len() {
            assert(s[line_len(s) - 1] == s.drop_first()[line_len(s) - 2]);
        }
    }
}

/// `s` without its trailing `\r` and `\n` characters.
pub open spec fn strip_line_end(s: Seq<char>) -> Seq<char>
    decreases s.len(),
{
    if s.len() > 0 && (s.last() == '\r' || s.last() == '\n') {
        strip_line_end(s.drop_last())
    } else {
        s
    }
}

/// A tab shown as four spaces; control characters dropped.
pub open spec fn visible_chars(s: Seq<char>) -> Seq<char>
    decreases s.len(),
{
    if s.len() == 0 {
        seq![]
    } else {
        let c = s.last();
        let tail = if c == '\t' {
            seq![' ', ' ', ' ', ' ']
        } else if is_control_char(c) {
            seq![]
        } else {
            seq![c]
        };
        visible_chars(s.drop_last()) + tail
    }
}

pub open spec fn all_white(s: Seq<char>) -> bool {
    forall|i: int| 0 <= i < s.len() ==> is_white_space(#[trigger] s[i])
}

/// Whether the byte range `[start, end)` overlaps one of the documentation ranges.
pub open spec fn overlaps(doc: Seq<(usize, usize)>, start: int, end: int) -> bool {
    exists|k: int| 0 <= k < doc.len() && (#[trigger] doc[k]).0 < end && doc[k].1 > start
}

/// Rows laid out so far, and whether each one is documentation.
pub struct Layout {
    pub rows: Seq<Seq<char>>,
    pub docs: Seq<bool>,
}

/// `chars` cut into rows of `ROW_CHARS`, appended to the layout.
pub open spec fn push_chunks(l: Layout, chars: Seq<char>, doc: bool) -> Layout
    decreases chars.len(),
{
    if chars.len() == 0 {
        l
    } else if chars.len() <= ROW_CHARS {
        Layout { rows: l.rows.push(chars), docs: l.docs.push(doc) }
    } else {
        push_chunks(
            Layout { rows: l.rows.push(chars.take(ROW_CHARS as int)), docs: l.docs.push(doc) },
            chars.skip(ROW_CHARS as int),
            doc,
        )
    }
}

proof fn lemma_push_chunks_len(l: Layout, chars: Seq<char>, doc: bool)
    requires
        l.rows.len() == l.docs.len(),
    ensures
        push_chunks(l, chars, doc).rows.len() == push_chunks(l, chars, doc).docs.len(),
    decreases chars.len(),
{
    if chars.len() > ROW_CHARS {
        lemma_push_chunks_len(
            Layout { rows: l.rows.push(chars.take(ROW_CHARS as int)), docs: l.docs.push(doc) },
            chars.skip(ROW_CHARS as int),
            doc,
        );
    }
}

/// One source line added: a blank line becomes one empty separator row
/// (never two in a row, never first), other lines become rows.
pub open spec fn add_line(l: Layout, line: Seq<char>, doc: bool) -> Layout {
    let chars = visible_chars(strip_line_end(line));
    let kept = if chars.len() > MAX_LINE_CHARS { chars.take(MAX_LINE_CHARS as int) } else { chars };
    if all_white(kept) {
        if l.rows.len() > 0 && l.rows.last().len() > 0 {
            Layout { rows: l.rows.push(seq![]), docs: l.docs.push(false) }
        } else {
            l
        }
    } else {
        push_chunks(l, kept, doc)
    }
}

/// Lays out `text` (starting at byte `offset` of the original) line by line,
/// stopping once `MAX_ROWS` rows are reached.
pub open spec fn layout_lines(text: Seq<char>, offset: int, doc: Seq<(usize, usize)>, l: Layout) -> Layout
    decreases text.len(),
{
    if text.len() == 0 {
        l
    } else {
        let n = line_len(text);
        let line = text.take(n as int);
        let end = offset + byte_len(line);
        let next = add_line(l, line, overlaps(doc, offset, end));
        if next.rows.len() >= MAX_ROWS {
            Layout { rows: next.rows.take(MAX_ROWS as int), docs: next.docs.take(MAX_ROWS as int) }
        } else {
            proof {
                lemma_line_len(text);
            }
            layout_lines(text.skip(n as int), end, doc, next)
        }
    }
}

/// The rows for `text`: laid out, without a final separator row.
pub open spec fn spec_layout(text: Seq<char>, doc: Seq<(usize, usize)>) -> Layout {
    let l = layout_lines(text, 0, doc, Layout { rows: seq![], docs: seq![] });
    if l.rows.len() > 0 && l.rows.last().len() == 0 {
        Layout { rows: l.rows.drop_last(), docs: l.docs.drop_last() }
    } else {
        l
    }
}


fn strip_line_end_exec(line: &[char]) -> (r: Vec<char>)
    ensures
        r@ == strip_line_end(line@),
{
    let mut n = line.len();
    assert(line@.take(n as int) =~= line@);
    while n > 0 && (line[n - 1] == '\r' || line[n - 1] == '\n')
        invariant
            0 <= n <= line.len(),
            strip_line_end(line@) == strip_line_end(line@.take(n as int)),
        decreases n,
    {
        assert(line@.take(n as int).drop_last() =~= line@.take(n - 1));
        n = n - 1;
    }
    crate::text::slice_vec(line, 0, n)
}

fn visible_chars_exec(s: &[char]) -> (r: Vec<char>)
    ensures
        r@ == visible_chars(s@),
{
    let mut r: Vec<char> = Vec::new();
    let mut i: usize = 0;
    assert(s@.take(0) =~= Seq::<char>::empty());
    while i < s.len()
        invariant
            0 <= i <= s.len(),
            r@ == visible_chars(s@.take(i as int)),
        decreases s.len() - i,
    {
        let c = s[i];
        assert(s@.take(i + 1).drop_last() =~= s@.take(i as int));
        let ghost before = r@;
        if c == '\t' {
            r.push(' ');
            r.push(' ');
            r.push(' ');
            r.push(' ');
        } else if !is_control(c) {
            r.push(c);
        }
        i = i + 1;
        assert(r@ =~= visible_chars(s@.take(i as int)));
    }
    assert(s@.take(i as int) =~= s@);
    r
}

fn all_white_exec(s: &[char]) -> (r: bool)
    ensures
        r == all_white(s@),
{
    let mut i: usize = 0;
    while i < s.len()
        invariant
            0 <= i <= s.len(),
            forall|j: int| 0 <= j < i ==> is_white_space(#[trigger] s@[j]),
        decreases s.len() - i,
    {
        if !is_whitespace(s[i]) {
            return false;
        }
        i = i + 1;
    }
    true
}

pub open spec fn rows_view(rows: Seq<Vec<char>>) -> Seq<Seq<char>> {
    rows.map_values(|r: Vec<char>| r@)
}

fn push_chunks_exec(rows: &mut Vec<Vec<char>>, docs: &mut Vec<bool>, chars: &[char], doc: bool)
    ensures
        ({
            let l = push_chunks(Layout { rows: rows_view(old(rows)@), docs: old(docs)@ }, chars@, doc);
            rows_view(final(rows)@) == l.rows && final(docs)@ == l.docs
        }),
{
    let mut i: usize = 0;
    assert(chars@.skip(0) =~= chars@);
    while i < chars.len()
        invariant
            0 <= i <= chars.len(),
            push_chunks(Layout { rows: rows_view(old(rows)@), docs: old(docs)@ }, chars@, doc)
                == push_chunks(Layout { rows: rows_view(rows@), docs: docs@ }, chars@.skip(i as int), doc),
        decreases chars.len() - i,
    {
        let ghost l = Layout { rows: rows_view(rows@), docs: docs@ };
        let rest = chars.len() - i;
        let take = if rest <= ROW_CHARS { rest } else { ROW_CHARS };
        let chunk = crate::text::slice_vec(chars, i, i + take);
        let ghost before = rows_view(rows@);
        rows.push(chunk);
        docs.push(doc);
        assert(rows_view(rows@) =~= before.push(chunk@));
        proof {
            let r = chars@.skip(i as int);
            if rest > ROW_CHARS {
                assert(chunk@ =~= r.take(ROW_CHARS as int));
                assert(r.skip(ROW_CHARS as int) =~= chars@.skip(i + take));
            } else {
                assert(chunk@ =~= r);
                assert(chars@.skip(i + take) =~= Seq::<char>::empty());
            }
        }
        i = i + take;
    }
    assert(chars@.skip(i as int) =~= Seq::<char>::empty());
}

fn add_line_exec(rows: &mut Vec<Vec<char>>, docs: &mut Vec<bool>, line: &[char], doc: bool)
    requires
        old(rows).len() == old(docs).len(),
    ensures
        ({
            let l = add_line(Layout { rows: rows_view(old(rows)@), docs: old(docs)@ }, line@, doc);
            rows_view(final(rows)@) == l.rows && final(docs)@ == l.docs
        }),
        final(rows).len() == final(docs).len(),
{
    let stripped = strip_line_end_exec(line);
    let chars = visible_chars_exec(stripped.as_slice());
    let kept = if chars.len() > MAX_LINE_CHARS {
        crate::text::slice_vec(chars.as_slice(), 0, MAX_LINE_CHARS)
    } else {
        chars
    };
    if all_white_exec(kept.as_slice()) {
        if rows.len() > 0 && rows[rows.len() - 1].len() > 0 {
            let ghost before = rows_view(rows@);
            assert(before.last() == rows@[rows@.len() - 1]@);
            rows.push(Vec::new());
            docs.push(false);
            assert(rows_view(rows@) =~= before.push(Seq::<char>::empty()));
        } else {
            proof {
                if rows@.len() > 0 {
                    assert(rows_view(rows@).last() == rows@[rows@.len() - 1]@);
                }
            }
        }
    } else {
        proof {
            lemma_push_chunks_len(Layout { rows: rows_view(rows@), docs: docs@ }, kept@, doc);
        }
        push_chunks_exec(rows, docs, kept.as_slice(), doc);
    }
}

/// Whether `[start, end)` overlaps a documentation range, where `None`
/// stands for a position past `usize::MAX`.
fn overlaps_exec(doc: &[(usize, usize)], start: Option<usize>, end: Option<usize>, ghost_start: Ghost<int>, ghost_end: Ghost<int>) -> (r: bool)
    requires
        match start {
            Some(v) => v == ghost_start@,
            None => ghost_start@ > usize::MAX,
        },
        match end {
            Some(v) => v == ghost_end@,
            None => ghost_end@ > usize::MAX,
        },
    ensures
        r == overlaps(doc@, ghost_start@, ghost_end@),
{
    let mut k: usize = 0;
    while k < doc.len()
        invariant
            0 <= k <= doc.len(),
            match start {
                Some(v) => v == ghost_start@,
                None => ghost_start@ > usize::MAX,
            },
            match end {
                Some(v) => v == ghost_end@,
                None => ghost_end@ > usize::MAX,
            },
            forall|j: int| 0 <= j < k ==> !((#[trigger] doc@[j]).0 < ghost_end@ && doc@[j].1 > ghost_start@),
        decreases doc.len() - k,
    {
        let (a, b) = doc[k];
        assert(doc@[k as int] == (a, b));
        let before_end = match end {
            Some(e) => a < e,
            None => true,
        };
        let after_start = match start {
            Some(s) => b > s,
            None => false,
        };
        if before_end && after_start {
            assert(doc@[k as int].0 < ghost_end@ && doc@[k as int].1 > ghost_start@);
            return true;
        }
        k = k + 1;
    }
    false
}

fn add_offset(a: Option<usize>, b: Option<usize>, ga: Ghost<int>, gb: Ghost<int>) -> (r: Option<usize>)
    requires
        ga@ >= 0,
        gb@ >= 0,
        match a {
            Some(v) => v == ga@,
            None => ga@ > usize::MAX,
        },
        match b {
            Some(v) => v == gb@,
            None => gb@ > usize::MAX,
        },
    ensures
        match r {
            Some(v) => v == ga@ + gb@,
            None => ga@ + gb@ > usize::MAX,
        },
{
    match (a, b) {
        (Some(x), Some(y)) => x.checked_add(y),
        _ => None,
    }
}

/// Lays out `text` as command bar rows (see `spec_layout`).
pub fn layout_info(text: &[char], doc: &[(usize, usize)]) -> (r: (Vec<Vec<char>>, Vec<bool>))
    ensures
        rows_view(r.0@) == spec_layout(text@, doc@).rows,
        r.1@ == spec_layout(text@, doc@).docs,
{
    let mut rows: Vec<Vec<char>> = Vec::new();
    let mut docs: Vec<bool> = Vec::new();
    let ghost init = Layout { rows: seq![], docs: seq![] };
    assert(rows_view(rows@) =~= Seq::<Seq<char>>::empty());
    let mut offset: Option<usize> = Some(0);
    let ghost mut off: int = 0;
    let mut i: usize = 0;
    let mut done = false;
    assert(text@.skip(0) =~= text@);
    while !done && i < text.len()
        invariant
            0 <= i <= text.len(),
            off >= 0,
            rows.len() == docs.len(),
            match offset {
                Some(v) => v == off,
                None => off > usize::MAX,
            },
            !done ==> rows.len() < MAX_ROWS,
            !done ==> layout_lines(text@, 0, doc@, init) == layout_lines(
                text@.skip(i as int),
                off,
                doc@,
                (Layout { rows: rows_view(rows@), docs: docs@ }),
            ),
            done ==> layout_lines(text@, 0, doc@, init) == (Layout { rows: rows_view(rows@), docs: docs@ }),
        decreases text.len() - i, if done { 0int } else { 1int },
    {
        let ghost t = text@.skip(i as int);
        let ghost cur = Layout { rows: rows_view(rows@), docs: docs@ };
        let mut j = i;
        assert(text@.skip(j as int) =~= t);
        while j < text.len() && text[j] != '\n'
            invariant
                i <= j <= text.len(),
                t == text@.skip(i as int),
                line_len(t) == (j - i) + line_len(text@.skip(j as int)),
            decreases text.len() - j,
        {
            assert(text@.skip(j as int).drop_first() =~= text@.skip(j + 1));
            j = j + 1;
        }
        if j < text.len() {
            assert(text@.skip(j as int).drop_first() =~= text@.skip(j + 1));
            j = j + 1;
        }
        proof {
            lemma_line_len(t);
        }
        let line = crate::text::slice_vec(text, i, j);
        assert(line@ =~= t.take(line_len(t) as int));
        let width = crate::text::byte_len_checked(line.as_slice());
        let end = add_offset(offset, width, Ghost(off), Ghost(byte_len(line@) as int));
        let ghost gend = off + byte_len(line@);
        let is_doc = overlaps_exec(doc, offset, end, Ghost(off), Ghost(gend));
        add_line_exec(&mut rows, &mut docs, line.as_slice(), is_doc);
        if rows.len() >= MAX_ROWS {
            let ghost next = Layout { rows: rows_view(rows@), docs: docs@ };
            rows.truncate(MAX_ROWS);
            docs.truncate(MAX_ROWS);
            assert(rows_view(rows@) =~= next.rows.take(MAX_ROWS as int));
            assert(docs@ =~= next.docs.take(MAX_ROWS as int));
            done = true;
        } else {
            assert(t.skip(line_len(t) as int) =~= text@.skip(j as int));
            offset = end;
            proof {
                off = gend;
            }
            i = j;
        }
    }
    proof {
        if !done {
            assert(text@.skip(i as int) =~= Seq::<char>::empty());
        }
    }
    if rows.len() > 0 && rows[rows.len() - 1].len() == 0 {
        let ghost before = rows_view(rows@);
        assert(before.last() == rows@[rows@.len() - 1]@);
        rows.pop();
        docs.pop();
        assert(rows_view(rows@) =~= before.drop_last());
    } else {
        proof {
            if rows@.len() > 0 {
                assert(rows_view(rows@).last() == rows@[rows@.len() - 1]@);
            }
        }
    }
    (rows, docs)
}

} // verus!
