//! The text of a hover reply, and which parts of it are documentation
//! rather than code.
use vstd::prelude::*;
use crate::text::{
    byte_len, char_width, chars_of, count_leading_ws, is_control, is_control_char, is_prefix, leading_ws,
    lemma_leading_ws_bound, lemma_trailing_ws_bound, slice_vec, starts_with_str, string_from, string_of, trim,
    trim_end, trim_start, utf8_width,
};

verus! {

/// Output at which further parts of a reply are ignored, in bytes.
pub const MAX_HOVER_BYTES: usize = 16384;
/// Characters taken from one part of a reply.
pub const MAX_PART_CHARS: usize = 4096;
/// Bytes the text can reach: the limit, a separator and one more part.
pub const HOVER_BOUND: usize = 32769;

/// A part of a hover reply's `contents`.
pub enum HoverPart {
    /// A string, or an object whose `value` is a string: the text, whether
    /// the object says its kind is `plaintext`, and whether it names a
    /// language (its text is then code).
    Text { text: String, plaintext: bool, language: bool },
    /// An array of parts.
    List(Vec<HoverPart>),
    /// Anything else, which shows nothing.
    Other,
}

/// The hover text, and the byte ranges of it that are documentation.
pub struct HoverContent {
    pub text: String,
    pub documentation: Vec<(usize, usize)>,
}

pub open spec fn spans_view(v: Seq<(usize, usize)>) -> Seq<(nat, nat)> {
    v.map_values(|p: (usize, usize)| (p.0 as nat, p.1 as nat))
}

/// Whether a character of a reply is shown: control characters are not,
/// except line feeds and tabs.
pub open spec fn shown(c: char) -> bool {
    !is_control_char(c) || c == '\n' || c == '\t'
}

/// The characters of `s` that are shown.
pub open spec fn shown_only(s: Seq<char>) -> Seq<char> {
    s.filter(|c: char| shown(c))
}

/// What a part shows of its text: its first 4096 characters, those shown.
pub open spec fn rendered(text: Seq<char>) -> Seq<char> {
    let n = if text.len() < MAX_PART_CHARS { text.len() as int } else { MAX_PART_CHARS as int };
    shown_only(text.take(n))
}

proof fn lemma_shown_push(s: Seq<char>, c: char)
    ensures
        shown_only(s.push(c)) == if shown(c) { shown_only(s).push(c) } else { shown_only(s) },
{
    reveal(Seq::filter);
    assert(s.push(c).drop_last() =~= s);
    assert(s.push(c).last() == c);
}

pub proof fn lemma_first_line_len(r: Seq<char>)
    ensures
        first_line_len(r) <= r.len(),
        r.len() > 0 ==> first_line_len(r) >= 1,
    decreases r.len(),
{
    if r.len() > 0 && r[0] != '\n' {
        lemma_first_line_len(r.drop_first());
    }
}

/// Characters of the first line of `r`, its line feed included.
pub open spec fn first_line_len(r: Seq<char>) -> nat
    decreases r.len(),
{
    if r.len() == 0 {
        0
    } else if r[0] == '\n' {
        1
    } else {
        1 + first_line_len(r.drop_first())
    }
}

/// Whether a line opens or closes a fenced code block.
pub open spec fn fence_line(line: Seq<char>) -> bool {
    is_prefix("```"@, trim_start(line)) || is_prefix("~~~"@, trim_start(line))
}

/// The documentation ranges of Markdown text `r` placed at byte `offset`:
/// every line outside fenced code, a line that continues the last range
/// extending it.
pub open spec fn prose_spans(r: Seq<char>, offset: nat, fenced: bool, docs: Seq<(nat, nat)>) -> Seq<(nat, nat)>
    decreases r.len(),
{
    if r.len() == 0 {
        docs
    } else {
        proof {
            lemma_first_line_len(r);
        }
        let n = first_line_len(r);
        let line = r.take(n as int);
        let end = offset + byte_len(line);
        if fence_line(line) {
            prose_spans(r.skip(n as int), end, !fenced, docs)
        } else if fenced {
            prose_spans(r.skip(n as int), end, fenced, docs)
        } else if docs.len() > 0 && docs.last().1 == offset {
            prose_spans(r.skip(n as int), end, fenced, docs.update(docs.len() - 1, (docs.last().0, end)))
        } else {
            prose_spans(r.skip(n as int), end, fenced, docs.push((offset, end)))
        }
    }
}

pub open spec fn triple_newline(r: Seq<char>, i: int) -> bool {
    r[i] == '\n' && r[i + 1] == '\n' && r[i + 2] == '\n'
}

/// Where the first run of three line feeds in `r` starts, from `i` on.
pub open spec fn first_triple(r: Seq<char>, i: int) -> Option<int>
    decreases r.len() - i,
{
    if i < 0 || i + 3 > r.len() {
        None
    } else if triple_newline(r, i) {
        Some(i)
    } else {
        first_triple(r, i + 1)
    }
}

/// The text and documentation after adding a text part: a line feed
/// before it when there is text already, then what it shows. Plain text is
/// documentation after its first three line feeds; Markdown prose outside
/// fenced code is documentation; text in a language is code.
pub open spec fn append_text(text: Seq<char>, plaintext: bool, language: bool, out: Seq<char>, docs: Seq<(nat, nat)>) -> (
    Seq<char>,
    Seq<(nat, nat)>,
) {
    let out1 = if out.len() > 0 { out.push('\n') } else { out };
    let start = byte_len(out1);
    let r = rendered(text);
    let out2 = out1 + r;
    let docs2 = if plaintext {
        match first_triple(r, 0) {
            Some(i) => docs.push((start + byte_len(r.take(i)) + 3, byte_len(out2))),
            None => docs,
        }
    } else if !language {
        prose_spans(r, start, false, docs)
    } else {
        docs
    };
    (out2, docs2)
}

/// The text and documentation after adding `part`; nothing is added once
/// the text reaches 16 KiB.
pub open spec fn append_part(part: HoverPart, out: Seq<char>, docs: Seq<(nat, nat)>) -> (Seq<char>, Seq<(nat, nat)>)
    decreases part, 0int,
{
    if byte_len(out) >= MAX_HOVER_BYTES {
        (out, docs)
    } else {
        match part {
            HoverPart::Text { text, plaintext, language } => append_text(text@, plaintext, language, out, docs),
            HoverPart::List(items) => append_all(items@, 0, out, docs),
            HoverPart::Other => (out, docs),
        }
    }
}

/// The text and documentation after adding `items[i..]` in order.
pub open spec fn append_all(items: Seq<HoverPart>, i: int, out: Seq<char>, docs: Seq<(nat, nat)>) -> (
    Seq<char>,
    Seq<(nat, nat)>,
)
    decreases items, items.len() - i,
{
    if 0 <= i < items.len() {
        let (o, d) = append_part(items[i], out, docs);
        append_all(items, i + 1, o, d)
    } else {
        (out, docs)
    }
}

/// What a hover shows for `contents`: its text and documentation, or a
/// notice when there is no text but whitespace.
pub open spec fn hover_result(contents: HoverPart) -> (Seq<char>, Seq<(nat, nat)>) {
    let (out, docs) = append_part(contents, seq![], seq![]);
    if trim(out).len() == 0 {
        ("No hover information at the cursor"@, seq![])
    } else {
        (out, docs)
    }
}

pub proof fn lemma_byte_len_concat(a: Seq<char>, b: Seq<char>)
    ensures
        byte_len(a + b) == byte_len(a) + byte_len(b),
    decreases b.len(),
{
    if b.len() == 0 {
        assert(a + b =~= a);
    } else {
        lemma_byte_len_concat(a, b.drop_last());
        assert((a + b).drop_last() =~= a + b.drop_last());
    }
}

proof fn lemma_byte_len_le(s: Seq<char>)
    ensures
        byte_len(s) <= 4 * s.len(),
    decreases s.len(),
{
    if s.len() > 0 {
        lemma_byte_len_le(s.drop_last());
    }
}

/// Bytes of `s[from..to]`.
fn bytes_of(s: &[char], from: usize, to: usize) -> (n: usize)
    requires
        from <= to <= s.len(),
        byte_len(s@.subrange(from as int, to as int)) <= HOVER_BOUND,
    ensures
        n == byte_len(s@.subrange(from as int, to as int)),
{
    let mut n: usize = 0;
    let mut k: usize = from;
    assert(s@.subrange(from as int, from as int) =~= Seq::<char>::empty());
    while k < to
        invariant
            from <= k <= to <= s.len(),
            n == byte_len(s@.subrange(from as int, k as int)),
            byte_len(s@.subrange(from as int, to as int)) <= HOVER_BOUND,
        decreases to - k,
    {
        assert(s@.subrange(from as int, k + 1).drop_last() =~= s@.subrange(from as int, k as int));
        proof {
            crate::text::lemma_byte_len_prefix(s@.subrange(from as int, to as int), k + 1 - from);
            assert(s@.subrange(from as int, to as int).take(k + 1 - from) =~= s@.subrange(from as int, k + 1));
        }
        n = n + char_width(s[k]);
        k = k + 1;
    }
    n
}

/// What a part shows of `text` (see `rendered`).
fn render(text: &str) -> (r: Vec<char>)
    ensures
        r@ == rendered(text@),
        r.len() <= MAX_PART_CHARS,
{
    let chars = chars_of(text);
    let n = if chars.len() < MAX_PART_CHARS { chars.len() } else { MAX_PART_CHARS };
    let ghost t = text@.take(n as int);
    let mut r: Vec<char> = Vec::new();
    let mut i: usize = 0;
    assert(t.take(0) =~= Seq::<char>::empty());
    assert(shown_only(Seq::<char>::empty()) =~= Seq::<char>::empty());
    while i < n
        invariant
            0 <= i <= n <= chars.len(),
            n <= MAX_PART_CHARS,
            chars@ == text@,
            t == text@.take(n as int),
            r@ == shown_only(t.take(i as int)),
            r.len() <= i,
        decreases n - i,
    {
        let c = chars[i];
        proof {
            assert(t.take(i + 1) =~= t.take(i as int).push(c));
            lemma_shown_push(t.take(i as int), c);
        }
        if !is_control(c) || c == '\n' || c == '\t' {
            r.push(c);
        }
        i = i + 1;
    }
    assert(t.take(n as int) =~= t);
    r
}

/// Where the first line of `r[from..]` ends, its line feed included.
fn line_end(r: &[char], from: usize) -> (j: usize)
    requires
        from < r.len(),
    ensures
        from < j <= r.len(),
        j - from == first_line_len(r@.skip(from as int)),
{
    let mut j = from;
    while j < r.len() && r[j] != '\n'
        invariant
            from <= j <= r.len(),
            first_line_len(r@.skip(from as int)) == (j - from) + first_line_len(r@.skip(j as int)),
        decreases r.len() - j,
    {
        assert(r@.skip(j as int).drop_first() =~= r@.skip(j + 1));
        j = j + 1;
    }
    if j < r.len() {
        j + 1
    } else {
        j
    }
}

/// Whether `line` opens or closes a fenced code block.
fn is_fence(line: &[char]) -> (b: bool)
    ensures
        b == fence_line(line@),
{
    let k = count_leading_ws(line, 0);
    assert(line@.skip(0) =~= line@);
    let rest = slice_vec(line, k, line.len());
    assert(rest@ =~= trim_start(line@));
    starts_with_str(rest.as_slice(), "```") || starts_with_str(rest.as_slice(), "~~~")
}

/// Adds the documentation ranges of Markdown text `r` placed at `offset`
/// (see `prose_spans`).
fn add_prose_spans(r: &[char], offset: usize, docs: &mut Vec<(usize, usize)>)
    requires
        offset + byte_len(r@) <= HOVER_BOUND,
    ensures
        spans_view(final(docs)@) == prose_spans(r@, offset as nat, false, spans_view(old(docs)@)),
{
    let ghost goal = prose_spans(r@, offset as nat, false, spans_view(docs@));
    let mut i: usize = 0;
    let mut at = offset;
    let mut fenced = false;
    assert(r@.skip(0) =~= r@);
    assert(r@.take(0) =~= Seq::<char>::empty());
    while i < r.len()
        invariant
            0 <= i <= r.len(),
            at == offset + byte_len(r@.take(i as int)),
            offset + byte_len(r@) <= HOVER_BOUND,
            prose_spans(r@.skip(i as int), at as nat, fenced, spans_view(docs@)) == goal,
        decreases r.len() - i,
    {
        let j = line_end(r, i);
        let ghost rest = r@.skip(i as int);
        let ghost line = rest.take((j - i) as int);
        assert(line =~= r@.subrange(i as int, j as int));
        proof {
            assert(r@.take(j as int) =~= r@.take(i as int) + line);
            lemma_byte_len_concat(r@.take(i as int), line);
            crate::text::lemma_byte_len_prefix(r@, j as int);
        }
        let w = bytes_of(r, i, j);
        let end = at + w;
        let text = slice_vec(r, i, j);
        assert(rest.skip((j - i) as int) =~= r@.skip(j as int));
        if is_fence(text.as_slice()) {
            fenced = !fenced;
        } else if !fenced {
            let n = docs.len();
            if n > 0 && docs[n - 1].1 == at {
                let first = docs[n - 1].0;
                let ghost before = docs@;
                docs.set(n - 1, (first, end));
                assert(spans_view(docs@) =~= spans_view(before).update(n - 1, (first as nat, end as nat)));
            } else {
                let ghost before = docs@;
                docs.push((at, end));
                assert(spans_view(docs@) =~= spans_view(before).push((at as nat, end as nat)));
            }
        }
        at = end;
        i = j;
    }
    assert(r@.skip(r.len() as int) =~= Seq::<char>::empty());
}

/// Where the first run of three line feeds in `r` starts.
fn find_triple(r: &[char]) -> (k: Option<usize>)
    ensures
        first_triple(r@, 0) == match k {
            Some(i) => Some(i as int),
            None => None::<int>,
        },
        k matches Some(i) ==> i + 3 <= r.len(),
{
    if r.len() < 3 {
        return None;
    }
    let mut i: usize = 0;
    while i <= r.len() - 3
        invariant
            r.len() >= 3,
            0 <= i <= r.len() - 2,
            first_triple(r@, 0) == first_triple(r@, i as int),
        decreases r.len() - i,
    {
        if r[i] == '\n' && r[i + 1] == '\n' && r[i + 2] == '\n' {
            return Some(i);
        }
        i = i + 1;
    }
    None
}

/// Adds a text part (see `append_text`).
fn add_text(text: &str, plaintext: bool, language: bool, out: &mut Vec<char>, out_bytes: &mut usize,
    docs: &mut Vec<(usize, usize)>)
    requires
        *old(out_bytes) == byte_len(old(out)@),
        *old(out_bytes) < MAX_HOVER_BYTES,
    ensures
        *final(out_bytes) == byte_len(final(out)@),
        *final(out_bytes) <= HOVER_BOUND,
        (final(out)@, spans_view(final(docs)@)) == append_text(text@, plaintext, language, old(out)@,
            spans_view(old(docs)@)),
{
    if out.len() > 0 {
        let ghost before = out@;
        out.push('\n');
        *out_bytes = *out_bytes + 1;
        assert(out@.drop_last() =~= before);
    }
    let ghost out1 = out@;
    let start = *out_bytes;
    let r = render(text);
    proof {
        lemma_byte_len_le(r@);
        lemma_byte_len_concat(out1, r@);
    }
    let mut k: usize = 0;
    while k < r.len()
        invariant
            0 <= k <= r.len(),
            out@ == out1 + r@.take(k as int),
        decreases r.len() - k,
    {
        out.push(r[k]);
        assert(out@ =~= out1 + r@.take(k + 1));
        k = k + 1;
    }
    assert(r@.take(r.len() as int) =~= r@);
    let total = bytes_of(r.as_slice(), 0, r.len());
    assert(r@.subrange(0, r.len() as int) =~= r@);
    *out_bytes = start + total;
    let ghost docs0 = spans_view(docs@);
    let ghost expected = append_text(text@, plaintext, language, old(out)@, docs0);
    assert(out1 == if old(out)@.len() > 0 { old(out)@.push('\n') } else { old(out)@ });
    assert(start == byte_len(out1));
    assert(*out_bytes == byte_len(out1 + r@));
    if plaintext {
        match find_triple(r.as_slice()) {
            Some(i) => {
                proof {
                    crate::text::lemma_byte_len_prefix(r@, i as int);
                }
                assert(first_triple(r@, 0) == Some(i as int));
                let pre = bytes_of(r.as_slice(), 0, i);
                assert(r@.subrange(0, i as int) =~= r@.take(i as int));
                let ghost before = docs@;
                docs.push((start + pre + 3, *out_bytes));
                assert(spans_view(docs@) =~= spans_view(before).push(((start + pre + 3) as nat, *out_bytes as nat)));
                assert(spans_view(docs@) == docs0.push((byte_len(out1) + byte_len(r@.take(i as int)) + 3, byte_len(out1 + r@))));
                assert(spans_view(docs@) == expected.1);
            },
            None => {
                assert(spans_view(docs@) == expected.1);
            },
        }
    } else if !language {
        add_prose_spans(r.as_slice(), start, docs);
        assert(spans_view(docs@) == prose_spans(r@, byte_len(out1), false, docs0));
        assert(spans_view(docs@) == expected.1);
    } else {
        assert(spans_view(docs@) == expected.1);
    }
    assert(out@ == append_text(text@, plaintext, language, old(out)@, spans_view(old(docs)@)).0);
    assert(spans_view(docs@) == append_text(text@, plaintext, language, old(out)@, spans_view(old(docs)@)).1);
}

/// Adds `part` (see `append_part`).
fn add_part(part: &HoverPart, out: &mut Vec<char>, out_bytes: &mut usize, docs: &mut Vec<(usize, usize)>)
    requires
        *old(out_bytes) == byte_len(old(out)@),
        *old(out_bytes) <= HOVER_BOUND,
    ensures
        *final(out_bytes) == byte_len(final(out)@),
        *final(out_bytes) <= HOVER_BOUND,
        (final(out)@, spans_view(final(docs)@)) == append_part(*part, old(out)@, spans_view(old(docs)@)),
    decreases part,
{
    if *out_bytes >= MAX_HOVER_BYTES {
        return;
    }
    match part {
        HoverPart::Text { text, plaintext, language } => {
            add_text(text.as_str(), *plaintext, *language, out, out_bytes, docs);
        },
        HoverPart::List(items) => {
            let ghost goal = append_all(items@, 0, out@, spans_view(docs@));
            let mut i: usize = 0;
            while i < items.len()
                invariant
                    0 <= i <= items.len(),
                    *out_bytes == byte_len(out@),
                    *out_bytes <= HOVER_BOUND,
                    append_all(items@, i as int, out@, spans_view(docs@)) == goal,
                    *part is List,
                    (*part)->List_0 == *items,
                decreases items.len() - i,
            {
                proof {
                    lemma_item_decreases(*part, i as int);
                }
                add_part(&items[i], out, out_bytes, docs);
                i = i + 1;
            }
        },
        HoverPart::Other => {},
    }
}

/// A list part is larger than each of its items.
proof fn lemma_item_decreases(p: HoverPart, i: int)
    requires
        p is List,
        0 <= i < p->List_0.len(),
    ensures
        decreases_to!(p => p->List_0[i]),
{
    assert(decreases_to!(p => p->List_0));
    assert(decreases_to!(p->List_0 => p->List_0[i]));
}

/// What a hover shows for `contents` (see `hover_result`).
pub fn hover_content(contents: &HoverPart) -> (r: HoverContent)
    ensures
        (r.text@, spans_view(r.documentation@)) == hover_result(*contents),
{
    let mut out: Vec<char> = Vec::new();
    let mut out_bytes: usize = 0;
    let mut docs: Vec<(usize, usize)> = Vec::new();
    assert(spans_view(docs@) =~= Seq::<(nat, nat)>::empty());
    add_part(contents, &mut out, &mut out_bytes, &mut docs);
    let lead = count_leading_ws(out.as_slice(), 0);
    assert(out@.skip(0) =~= out@);
    proof {
        lemma_leading_ws_bound(out@);
        let t = trim_start(out@);
        lemma_trailing_ws_bound(t);
        if lead < out.len() {
            assert(t[0] == out@[lead as int]);
            assert(crate::text::trailing_ws(t) < t.len());
        }
    }
    if lead == out.len() {
        let empty: Vec<(usize, usize)> = Vec::new();
        assert(spans_view(empty@) =~= Seq::<(nat, nat)>::empty());
        HoverContent { text: string_from("No hover information at the cursor"), documentation: empty }
    } else {
        HoverContent { text: string_of(out.as_slice()), documentation: docs }
    }
}

} // verus!
