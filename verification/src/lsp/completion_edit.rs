//! The change that accepting a completion makes: its main edit and any
//! additional edits (such as an import), checked and applied at once.
use vstd::prelude::*;
use vstd::utf8::*;
use crate::lsp::changes::{byte_position, char_boundary, first_offset, lemma_first_offset, lemma_valid_between, LspPosition};
use crate::text::string_from;

verus! {

/// Largest document a completion may produce.
pub const MAX_DOCUMENT_BYTES: usize = 2097152;
/// Most additional edits a completion may bring.
pub const MAX_ADDITIONAL_EDITS: usize = 128;

/// A range as a server sent it: each end a position, or none where it is
/// not one.
pub struct RawRange {
    pub start: Option<LspPosition>,
    pub end: Option<LspPosition>,
}

/// An edit as a server sent it: its range (none where it is missing) and
/// its new text (none where it is not a string).
pub struct RawTextEdit {
    pub range: Option<RawRange>,
    pub new_text: Option<String>,
}

/// A completion item, as far as accepting it needs: whether it is a
/// snippet, whether it carries a command, its text edit (with the `range`
/// or else the `insert` range), its `insertText` and label where they are
/// strings, and its additional edits (none when absent; an inner none when
/// they are not a list).
pub struct CompletionChoice {
    pub snippet: bool,
    pub has_command: bool,
    pub text_edit: Option<RawTextEdit>,
    pub insert_text: Option<String>,
    pub label: Option<String>,
    pub additional: Option<Option<Vec<RawTextEdit>>>,
}

/// The document after accepting a completion, and where the cursor goes.
pub struct CompletionEdit {
    pub text: String,
    pub cursor: usize,
}

/// An edit: the byte range it replaces and the new text.
pub type EditV = (int, int, Seq<char>);

/// The byte offset of a position (see `first_offset`), or why there is
/// none.
pub open spec fn offset_of(t: Seq<u8>, p: Option<LspPosition>) -> Result<int, Seq<char>> {
    match p {
        None => Err("Invalid position"@),
        Some(q) => match first_offset(t, (q.line as nat, q.character as nat), 0) {
            Some(k) => Ok(k),
            None => Err("Position is outside the document"@),
        },
    }
}

/// The byte range of a range, which must not end before it starts.
pub open spec fn range_of(t: Seq<u8>, r: RawRange) -> Result<(int, int), Seq<char>> {
    match offset_of(t, r.start) {
        Err(e) => Err(e),
        Ok(s) => match offset_of(t, r.end) {
            Err(e) => Err(e),
            Ok(e) => if s > e {
                Err("Invalid completion edit range"@)
            } else {
                Ok((s, e))
            },
        },
    }
}

/// The main edit: the text edit, which must contain the cursor, or else
/// the insert text (or the label) at the cursor.
pub open spec fn primary_edit(t: Seq<u8>, cursor: int, c: CompletionChoice) -> Result<EditV, Seq<char>> {
    match c.text_edit {
        Some(te) => match te.range {
            None => Err("Missing completion range"@),
            Some(r) => match range_of(t, r) {
                Err(e) => Err(e),
                Ok((s, e)) => if s > cursor || e < cursor {
                    Err("Completion edit does not contain the cursor"@)
                } else {
                    match te.new_text {
                        None => Err("Missing completion text"@),
                        Some(x) => Ok((s, e, x@)),
                    }
                },
            },
        },
        None => match c.insert_text {
            Some(x) => Ok((cursor, cursor, x@)),
            None => match c.label {
                Some(x) => Ok((cursor, cursor, x@)),
                None => Err("Missing completion text"@),
            },
        },
    }
}

/// `acc` followed by the additional edits from `i` on, or the first
/// problem with one.
pub open spec fn additional_edits(t: Seq<u8>, es: Seq<RawTextEdit>, i: int, acc: Seq<EditV>) -> Result<Seq<EditV>, Seq<char>>
    decreases es.len() - i,
{
    if i < 0 || i >= es.len() {
        Ok(acc)
    } else {
        let r = match es[i].range {
            Some(r) => range_of(t, r),
            None => Err("Invalid position"@),
        };
        match r {
            Err(m) => Err(m),
            Ok((s, f)) => match es[i].new_text {
                None => Err("Missing completion text"@),
                Some(x) => additional_edits(t, es, i + 1, acc.push((s, f, x@))),
            },
        }
    }
}

/// All edits of a completion, the main one first, or why it is refused.
pub open spec fn all_edits(t: Seq<u8>, cursor: int, c: CompletionChoice) -> Result<Seq<EditV>, Seq<char>> {
    if c.snippet {
        Err("Snippet completions are not supported yet"@)
    } else if c.has_command {
        Err("This completion requires a server command; choose a plain member completion"@)
    } else {
        match primary_edit(t, cursor, c) {
            Err(e) => Err(e),
            Ok(p) => match c.additional {
                None => Ok(seq![p]),
                Some(None) => Err("Invalid additional completion edits"@),
                Some(Some(v)) => if v.len() > MAX_ADDITIONAL_EDITS {
                    Err("Too many completion edits"@)
                } else {
                    additional_edits(t, v@, 0, seq![p])
                },
            },
        }
    }
}

/// Whether edit `a` sorts before edit `b`: by start, then by end.
pub open spec fn edit_lt(a: EditV, b: EditV) -> bool {
    a.0 < b.0 || (a.0 == b.0 && a.1 < b.1)
}

/// Where edit `i` goes in `order`: before the first edit from `j` on that
/// sorts after it.
pub open spec fn edit_pos(order: Seq<nat>, es: Seq<EditV>, i: nat, j: int) -> int
    decreases order.len() - j,
{
    if j < 0 || j >= order.len() {
        order.len() as int
    } else if edit_lt(es[i as int], es[order[j] as int]) {
        j
    } else {
        edit_pos(order, es, i, j + 1)
    }
}

/// The first `n` edits sorted by start and end, equal ones in their
/// order.
pub open spec fn edit_order(es: Seq<EditV>, n: nat) -> Seq<nat>
    decreases n,
{
    if n == 0 {
        seq![]
    } else {
        let o = edit_order(es, (n - 1) as nat);
        o.insert(edit_pos(o, es, (n - 1) as nat, 0), (n - 1) as nat)
    }
}

pub open spec fn sorted_edits(es: Seq<EditV>) -> Seq<EditV> {
    edit_order(es, es.len()).map_values(|k: nat| es[k as int])
}

/// Whether sorted edit `j` overlaps the next or starts where it starts.
pub open spec fn clash(s: Seq<EditV>, j: int) -> bool {
    s[j].1 > s[j + 1].0 || s[j].0 == s[j + 1].0
}

/// Whether two neighbouring sorted edits clash.
pub open spec fn overlapping(s: Seq<EditV>) -> bool {
    exists|j: int| 0 <= j < s.len() - 1 && #[trigger] clash(s, j)
}

/// The document with sorted edits `s[k..]` applied after `out`, which
/// holds the text up to `offset`, and the cursor after the main edit
/// (which starts at `primary`); refused past 2 MiB.
pub open spec fn assemble(t: Seq<u8>, s: Seq<EditV>, k: int, offset: int, out: Seq<u8>, primary: int,
    cursor: Option<int>) -> Result<(Seq<u8>, Option<int>), Seq<char>>
    decreases s.len() - k,
{
    if k < 0 || k >= s.len() {
        if out.len() + t.len() - offset > MAX_DOCUMENT_BYTES {
            Err("Completion exceeds the 2 MiB limit"@)
        } else {
            Ok((out + t.subrange(offset, t.len() as int), cursor))
        }
    } else {
        let rep = encode_utf8(s[k].2);
        if out.len() + s[k].0 - offset + rep.len() > MAX_DOCUMENT_BYTES {
            Err("Completion exceeds the 2 MiB limit"@)
        } else {
            let out2 = out + t.subrange(offset, s[k].0) + rep;
            assemble(t, s, k + 1, s[k].1, out2, primary, if s[k].0 == primary { Some(out2.len() as int) } else { cursor })
        }
    }
}

/// The document after accepting completion `c` at `cursor`, and where the
/// cursor goes, or why it is refused.
pub open spec fn accepted(t: Seq<u8>, cursor: int, c: CompletionChoice) -> Result<(Seq<u8>, int), Seq<char>> {
    match all_edits(t, cursor, c) {
        Err(e) => Err(e),
        Ok(es) => {
            let s = sorted_edits(es);
            if overlapping(s) {
                Err("Overlapping completion edits"@)
            } else {
                match assemble(t, s, 0, 0, seq![], es[0].0, None) {
                    Err(e) => Err(e),
                    Ok((out, None)) => Err("Missing primary completion edit"@),
                    Ok((out, Some(c))) => Ok((out, c)),
                }
            }
        },
    }
}

pub open spec fn edits_view<'a>(v: Seq<(usize, usize, &'a str)>) -> Seq<EditV> {
    v.map_values(|e: (usize, usize, &'a str)| (e.0 as int, e.1 as int, e.2@))
}

/// An edit's ends are character boundaries of `t`, in order.
pub open spec fn edit_ok(t: Seq<u8>, e: EditV) -> bool {
    0 <= e.0 <= e.1 <= t.len() && char_boundary(t, e.0) && char_boundary(t, e.1)
}

/// The byte offset of a position (see `offset_of`).
fn offset_in(text: &str, p: &Option<LspPosition>) -> (r: Result<usize, String>)
    ensures
        match r {
            Ok(k) => offset_of(encode_utf8(text@), *p) == Ok::<int, Seq<char>>(k as int) && k <= encode_utf8(text@).len()
                && char_boundary(encode_utf8(text@), k as int),
            Err(m) => offset_of(encode_utf8(text@), *p) == Err::<int, Seq<char>>(m@),
        },
{
    match p {
        None => Err(string_from("Invalid position")),
        Some(q) => {
            let r = byte_position(text, *q);
            match r {
                Some(k) => {
                    proof {
                        lemma_first_offset(encode_utf8(text@), (q.line as nat, q.character as nat), 0);
                    }
                    Ok(k)
                },
                None => Err(string_from("Position is outside the document")),
            }
        },
    }
}

/// The byte range of a range (see `range_of`).
fn range_in(text: &str, r: &RawRange) -> (out: Result<(usize, usize), String>)
    ensures
        match out {
            Ok((s, e)) => range_of(encode_utf8(text@), *r) == Ok::<(int, int), Seq<char>>((s as int, e as int))
                && edit_ok(encode_utf8(text@), (s as int, e as int, seq![])),
            Err(m) => range_of(encode_utf8(text@), *r) == Err::<(int, int), Seq<char>>(m@),
        },
{
    let s = match offset_in(text, &r.start) {
        Ok(k) => k,
        Err(e) => return Err(e),
    };
    let e = match offset_in(text, &r.end) {
        Ok(k) => k,
        Err(e) => return Err(e),
    };
    if s > e {
        return Err(string_from("Invalid completion edit range"));
    }
    Ok((s, e))
}

/// The main edit (see `primary_edit`).
fn primary_in<'a>(text: &str, cursor: usize, c: &'a CompletionChoice) -> (r: Result<(usize, usize, &'a str), String>)
    ensures
        match r {
            Ok(e) => primary_edit(encode_utf8(text@), cursor as int, *c) == Ok::<EditV, Seq<char>>((e.0 as int, e.1 as int, e.2@)),
            Err(m) => primary_edit(encode_utf8(text@), cursor as int, *c) == Err::<EditV, Seq<char>>(m@),
        },
        r matches Ok(e) ==> edit_ok(encode_utf8(text@), (e.0 as int, e.1 as int, e.2@))
            || (e.0 == cursor && e.1 == cursor && c.text_edit is None),
{
    match &c.text_edit {
        Some(te) => match &te.range {
            None => Err(string_from("Missing completion range")),
            Some(range) => {
                let (s, e) = match range_in(text, range) {
                    Ok(v) => v,
                    Err(m) => return Err(m),
                };
                if s > cursor || e < cursor {
                    return Err(string_from("Completion edit does not contain the cursor"));
                }
                match &te.new_text {
                    None => Err(string_from("Missing completion text")),
                    Some(x) => Ok((s, e, x.as_str())),
                }
            },
        },
        None => match &c.insert_text {
            Some(x) => Ok((cursor, cursor, x.as_str())),
            None => match &c.label {
                Some(x) => Ok((cursor, cursor, x.as_str())),
                None => Err(string_from("Missing completion text")),
            },
        },
    }
}

/// All edits (see `all_edits`).
fn edits_in<'a>(text: &str, cursor: usize, c: &'a CompletionChoice) -> (r: Result<Vec<(usize, usize, &'a str)>, String>)
    ensures
        match r {
            Ok(v) => all_edits(encode_utf8(text@), cursor as int, *c) == Ok::<Seq<EditV>, Seq<char>>(edits_view(v@)),
            Err(m) => all_edits(encode_utf8(text@), cursor as int, *c) == Err::<Seq<EditV>, Seq<char>>(m@),
        },
        r matches Ok(v) ==> v.len() >= 1 && v.len() <= MAX_ADDITIONAL_EDITS + 1
            && forall|i: int| 1 <= i < v.len() ==> #[trigger] edit_ok(encode_utf8(text@), edits_view(v@)[i]),
        r matches Ok(v) ==> edit_ok(encode_utf8(text@), edits_view(v@)[0]) || (v@[0].0 == cursor && v@[0].1 == cursor),
{
    if c.snippet {
        return Err(string_from("Snippet completions are not supported yet"));
    }
    if c.has_command {
        return Err(string_from("This completion requires a server command; choose a plain member completion"));
    }
    let p = match primary_in(text, cursor, c) {
        Ok(p) => p,
        Err(e) => return Err(e),
    };
    let mut edits: Vec<(usize, usize, &'a str)> = Vec::new();
    edits.push(p);
    assert(edits_view(edits@) =~= seq![(p.0 as int, p.1 as int, p.2@)]);
    match &c.additional {
        None => Ok(edits),
        Some(None) => Err(string_from("Invalid additional completion edits")),
        Some(Some(v)) => {
            if v.len() > MAX_ADDITIONAL_EDITS {
                return Err(string_from("Too many completion edits"));
            }
            let ghost t = encode_utf8(text@);
            let ghost goal = additional_edits(t, v@, 0, edits_view(edits@));
            assert(all_edits(t, cursor as int, *c) == goal);
            let mut i: usize = 0;
            while i < v.len()
                invariant
                    0 <= i <= v.len() <= MAX_ADDITIONAL_EDITS,
                    t == encode_utf8(text@),
                    edits.len() == i + 1,
                    additional_edits(t, v@, i as int, edits_view(edits@)) == goal,
                    all_edits(t, cursor as int, *c) == goal,
                    edits@[0] == p,
                    edit_ok(t, (p.0 as int, p.1 as int, p.2@)) || (p.0 == cursor && p.1 == cursor),
                    forall|j: int| 1 <= j < edits.len() ==> #[trigger] edit_ok(t, edits_view(edits@)[j]),
                decreases v.len() - i,
            {
                let e = &v[i];
                let (s, f) = match &e.range {
                    Some(range) => match range_in(text, range) {
                        Ok(x) => x,
                        Err(m) => return Err(m),
                    },
                    None => return Err(string_from("Invalid position")),
                };
                match &e.new_text {
                    None => return Err(string_from("Missing completion text")),
                    Some(x) => {
                        let ghost before = edits@;
                        edits.push((s, f, x.as_str()));
                        assert(edits_view(edits@) =~= edits_view(before).push((s as int, f as int, x@)));
                        assert(edits_view(edits@)[i + 1] == (s as int, f as int, x@));
                    },
                }
                i = i + 1;
            }
            Ok(edits)
        },
    }
}

/// The order of `es` (see `edit_order`).
fn order_edits(es: &Vec<(usize, usize, &str)>) -> (r: Vec<usize>)
    ensures
        r@.map_values(|i: usize| i as nat) == edit_order(edits_view(es@), es.len() as nat),
        r.len() == es.len(),
        forall|j: int| 0 <= j < r.len() ==> r@[j] < es.len(),
{
    let ghost ev = edits_view(es@);
    let mut order: Vec<usize> = Vec::new();
    let mut i: usize = 0;
    assert(order@.map_values(|i: usize| i as nat) =~= edit_order(ev, 0));
    while i < es.len()
        invariant
            0 <= i <= es.len(),
            ev == edits_view(es@),
            order@.map_values(|i: usize| i as nat) == edit_order(ev, i as nat),
            order.len() == i,
            forall|j: int| 0 <= j < order.len() ==> order@[j] < i,
        decreases es.len() - i,
    {
        let ghost o = order@.map_values(|i: usize| i as nat);
        let mut p: usize = 0;
        while p < order.len() && !(es[i].0 < es[order[p]].0 || (es[i].0 == es[order[p]].0 && es[i].1 < es[order[p]].1))
            invariant
                0 <= p <= order.len(),
                order.len() == i,
                i < es.len(),
                o == order@.map_values(|i: usize| i as nat),
                ev == edits_view(es@),
                forall|j: int| 0 <= j < order.len() ==> order@[j] < i,
                edit_pos(o, ev, i as nat, 0) == edit_pos(o, ev, i as nat, p as int),
            decreases order.len() - p,
        {
            p = p + 1;
        }
        assert(edit_pos(o, ev, i as nat, 0) == p as int);
        order.insert(p, i);
        assert(order@.map_values(|i: usize| i as nat) =~= o.insert(p as int, i as nat));
        i = i + 1;
    }
    order
}

/// Appends `b[from..to]` to `out`.
fn push_bytes(out: &mut Vec<u8>, b: &[u8], from: usize, to: usize)
    requires
        from <= to <= b.len(),
    ensures
        final(out)@ == old(out)@ + b@.subrange(from as int, to as int),
{
    let mut k = from;
    while k < to
        invariant
            from <= k <= to <= b.len(),
            out@ == old(out)@ + b@.subrange(from as int, k as int),
        decreases to - k,
    {
        out.push(b[k]);
        assert(out@ =~= old(out)@ + b@.subrange(from as int, k + 1));
        k = k + 1;
    }
}

/// The document after accepting completion `c` at byte `cursor` of
/// `text`, and where the cursor goes (see `accepted`).
pub fn prepare(text: &str, cursor: usize, c: &CompletionChoice) -> (r: Result<CompletionEdit, String>)
    requires
        char_boundary(encode_utf8(text@), cursor as int),
    ensures
        match r {
            Ok(e) => accepted(encode_utf8(text@), cursor as int, *c) == Ok::<(Seq<u8>, int), Seq<char>>(
                (encode_utf8(e.text@), e.cursor as int)),
            Err(m) => accepted(encode_utf8(text@), cursor as int, *c) == Err::<(Seq<u8>, int), Seq<char>>(m@),
        },
{
    let b = text.as_bytes();
    let ghost t = b@;
    proof {
        encode_utf8_valid_utf8(text@);
    }
    let es = match edits_in(text, cursor, c) {
        Ok(v) => v,
        Err(m) => return Err(m),
    };
    let ghost ev = edits_view(es@);
    assert(forall|i: int| 0 <= i < es.len() ==> #[trigger] edit_ok(t, ev[i])) by {
        assert forall|i: int| 0 <= i < es.len() implies #[trigger] edit_ok(t, ev[i]) by {
            if i == 0 {
                assert(ev[0] == (es@[0].0 as int, es@[0].1 as int, es@[0].2@));
            }
        }
    }
    let order = order_edits(&es);
    let mut sorted: Vec<(usize, usize, &str)> = Vec::new();
    let mut j: usize = 0;
    while j < order.len()
        invariant
            0 <= j <= order.len(),
            order.len() == es.len(),
            forall|k: int| 0 <= k < order.len() ==> order@[k] < es.len(),
            ev == edits_view(es@),
            sorted.len() == j,
            forall|k: int| 0 <= k < j ==> #[trigger] edits_view(sorted@)[k] == ev[order@[k] as int],
        decreases order.len() - j,
    {
        let ghost before = sorted@;
        sorted.push(es[order[j]]);
        assert(edits_view(sorted@)[j as int] == ev[order@[j as int] as int]);
        assert forall|k: int| 0 <= k < j + 1 implies #[trigger] edits_view(sorted@)[k] == ev[order@[k] as int] by {
            if k < j {
                assert(sorted@[k] == before[k]);
                assert(edits_view(before)[k] == ev[order@[k] as int]);
            }
        }
        j = j + 1;
    }
    let ghost sv = edits_view(sorted@);
    assert(sv =~= sorted_edits(ev)) by {
        assert(edit_order(ev, ev.len()) == order@.map_values(|i: usize| i as nat));
        assert forall|k: int| 0 <= k < sv.len() implies #[trigger] sv[k] == sorted_edits(ev)[k] by {
            assert(sv[k] == ev[order@[k] as int]);
        }
    }
    assert(forall|k: int| 0 <= k < sorted.len() ==> #[trigger] edit_ok(t, sv[k])) by {
        assert forall|k: int| 0 <= k < sorted.len() implies #[trigger] edit_ok(t, sv[k]) by {
            assert(sv[k] == ev[order@[k] as int]);
        }
    }
    let mut k: usize = 0;
    while k < sorted.len() - 1
        invariant
            sorted.len() >= 1,
            0 <= k <= sorted.len(),
            sv == edits_view(sorted@),
            t == encode_utf8(text@),
            all_edits(t, cursor as int, *c) == Ok::<Seq<EditV>, Seq<char>>(ev),
            sv == sorted_edits(ev),
            forall|i: int| 0 <= i < k && i + 1 < sv.len() ==> !#[trigger] clash(sv, i),
        decreases sorted.len() - k,
    {
        if sorted[k].1 > sorted[k + 1].0 || sorted[k].0 == sorted[k + 1].0 {
            assert(clash(sv, k as int));
            return Err(string_from("Overlapping completion edits"));
        }
        k = k + 1;
    }
    assert(!overlapping(sv));
    let primary = es[0].0;
    let ghost goal = assemble(t, sv, 0, 0, seq![], primary as int, None);
    let mut out: Vec<u8> = Vec::new();
    let mut offset: usize = 0;
    let mut placed: Option<usize> = None;
    let mut n: usize = 0;
    proof {
        vstd::utf8::is_char_boundary_start_end_of_seq(t);
    }
    while n < sorted.len()
        invariant
            0 <= n <= sorted.len(),
            b@ == t,
            valid_utf8(t),
            sv == edits_view(sorted@),
            t == encode_utf8(text@),
            all_edits(t, cursor as int, *c) == Ok::<Seq<EditV>, Seq<char>>(ev),
            sv == sorted_edits(ev),
            ev[0].0 == primary as int,
            goal == assemble(t, sv, 0, 0, seq![], primary as int, None),
            forall|i: int| 0 <= i < sorted.len() ==> #[trigger] edit_ok(t, sv[i]),
            !overlapping(sv),
            n < sorted.len() ==> offset <= sorted@[n as int].0,
            offset <= t.len(),
            char_boundary(t, offset as int),
            out.len() <= MAX_DOCUMENT_BYTES,
            valid_utf8(out@),
            assemble(t, sv, n as int, offset as int, out@, primary as int,
                match placed { Some(p) => Some(p as int), None => None::<int> }) == goal,
        decreases sorted.len() - n,
    {
        let (from, to, x) = sorted[n];
        assert(edit_ok(t, sv[n as int]));
        let rep = x.as_bytes();
        let gap = from - offset;
        if gap > MAX_DOCUMENT_BYTES - out.len() || rep.len() > MAX_DOCUMENT_BYTES - out.len() - gap {
            return Err(string_from("Completion exceeds the 2 MiB limit"));
        }
        proof {
            lemma_valid_between(t, offset as int, from as int);
            encode_utf8_valid_utf8(x@);
            valid_utf8_concat(out@, t.subrange(offset as int, from as int));
            valid_utf8_concat(out@ + t.subrange(offset as int, from as int), rep@);
        }
        push_bytes(&mut out, b, offset, from);
        push_bytes(&mut out, rep, 0, rep.len());
        assert(rep@.subrange(0, rep.len() as int) =~= rep@);
        if from == primary {
            placed = Some(out.len());
        }
        offset = to;
        proof {
            if n + 1 < sorted.len() {
                assert(!clash(sv, n as int));
            }
        }
        n = n + 1;
    }
    if b.len() - offset > MAX_DOCUMENT_BYTES - out.len() {
        return Err(string_from("Completion exceeds the 2 MiB limit"));
    }
    proof {
        lemma_valid_between(t, offset as int, t.len() as int);
        valid_utf8_concat(out@, t.subrange(offset as int, t.len() as int));
    }
    push_bytes(&mut out, b, offset, b.len());
    let at = match placed {
        Some(p) => p,
        None => {
            return Err(string_from("Missing primary completion edit"));
        },
    };
    match crate::text::string_from_utf8(out) {
        Ok(text) => Ok(CompletionEdit { text, cursor: at }),
        Err(e) => Err(e),
    }
}

} // verus!
