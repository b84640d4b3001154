//! Undo history: the steps that an edit made, and what undoing and redoing
//! them does to the text.
use vstd::prelude::*;
use crate::document::{Cursor, copy_bytes, spliced};

verus! {

/// One recorded change of the text.
pub enum HistoryStep {
    /// At `position`, `deleted` was replaced by `inserted`.
    Change { position: usize, deleted: Vec<u8>, inserted: Vec<u8> },
    /// The whole text went from `before` to `after`.
    Snapshot { before: Vec<u8>, after: Vec<u8> },
}

pub enum StepV {
    Change { position: int, deleted: Seq<u8>, inserted: Seq<u8> },
    Snapshot { before: Seq<u8>, after: Seq<u8> },
}

impl View for HistoryStep {
    type V = StepV;

    open spec fn view(&self) -> StepV {
        match self {
            HistoryStep::Change { position, deleted, inserted } => StepV::Change {
                position: *position as int,
                deleted: deleted@,
                inserted: inserted@,
            },
            HistoryStep::Snapshot { before, after } => StepV::Snapshot { before: before@, after: after@ },
        }
    }
}

/// One undo step: its changes and the cursor before and after them.
pub struct HistoryEntry {
    pub steps: Vec<HistoryStep>,
    pub before: Cursor,
    pub after: Cursor,
}

pub open spec fn steps_view(s: Seq<HistoryStep>) -> Seq<StepV> {
    s.map_values(|x: HistoryStep| x@)
}

/// The changes of each entry of a stack, bottom first.
pub open spec fn stack_steps(e: Seq<HistoryEntry>) -> Seq<Seq<StepV>> {
    e.map_values(|x: HistoryEntry| steps_view(x.steps@))
}

/// `t` with one step undone, if the step fits in `t`.
pub open spec fn undo_step(s: StepV, t: Seq<u8>) -> Option<Seq<u8>> {
    match s {
        StepV::Change { position, deleted, inserted } => if 0 <= position && position + inserted.len() <= t.len() {
            Some(spliced(t, position, position + inserted.len(), deleted))
        } else {
            None
        },
        StepV::Snapshot { before, .. } => Some(before),
    }
}

/// `t` with one step redone, if the step fits in `t`.
pub open spec fn redo_step(s: StepV, t: Seq<u8>) -> Option<Seq<u8>> {
    match s {
        StepV::Change { position, deleted, inserted } => if 0 <= position && position + deleted.len() <= t.len() {
            Some(spliced(t, position, position + deleted.len(), inserted))
        } else {
            None
        },
        StepV::Snapshot { after, .. } => Some(after),
    }
}

/// `t` with all steps undone, the last one first.
pub open spec fn undo_steps(ss: Seq<StepV>, t: Seq<u8>) -> Option<Seq<u8>>
    decreases ss.len(),
{
    if ss.len() == 0 {
        Some(t)
    } else {
        match undo_steps(ss.skip(1), t) {
            Some(v) => undo_step(ss[0], v),
            None => None,
        }
    }
}

/// `t` with all steps redone, the first one first.
pub open spec fn redo_steps(ss: Seq<StepV>, t: Seq<u8>) -> Option<Seq<u8>>
    decreases ss.len(),
{
    if ss.len() == 0 {
        Some(t)
    } else {
        match redo_step(ss[0], t) {
            Some(v) => redo_steps(ss.skip(1), v),
            None => None,
        }
    }
}

/// `t` is a text that step `s` produced.
pub open spec fn step_done(s: StepV, t: Seq<u8>) -> bool {
    match s {
        StepV::Change { position, inserted, .. } => 0 <= position && position + inserted.len() <= t.len()
            && t.subrange(position, position + inserted.len()) == inserted,
        StepV::Snapshot { after, .. } => t == after,
    }
}

/// `u` is a text that step `s` can be redone on.
pub open spec fn step_undone(s: StepV, u: Seq<u8>) -> bool {
    match s {
        StepV::Change { position, deleted, .. } => 0 <= position && position + deleted.len() <= u.len()
            && u.subrange(position, position + deleted.len()) == deleted,
        StepV::Snapshot { before, .. } => u == before,
    }
}

/// `t` is a text that the steps produced, in order.
pub open spec fn steps_done(ss: Seq<StepV>, t: Seq<u8>) -> bool
    decreases ss.len(),
{
    if ss.len() == 0 {
        true
    } else {
        steps_done(ss.skip(1), t) && step_done(ss[0], undo_steps(ss.skip(1), t).unwrap())
    }
}

/// `u` is a text that the steps can be redone on, in order.
pub open spec fn steps_undone(ss: Seq<StepV>, u: Seq<u8>) -> bool
    decreases ss.len(),
{
    if ss.len() == 0 {
        true
    } else {
        step_undone(ss[0], u) && steps_undone(ss.skip(1), redo_step(ss[0], u).unwrap())
    }
}

/// An undo stack that matches text `t`: undoing its entries, the top one
/// first, walks back through the texts they were made on.
pub open spec fn history_ok(t: Seq<u8>, undo: Seq<Seq<StepV>>) -> bool
    decreases undo.len(),
{
    if undo.len() == 0 {
        true
    } else {
        steps_done(undo.last(), t) && history_ok(undo_steps(undo.last(), t).unwrap(), undo.drop_last())
    }
}

/// A redo stack that matches text `t`: redoing its entries, the top one
/// first, walks forward through the texts they were undone from.
pub open spec fn future_ok(t: Seq<u8>, redo: Seq<Seq<StepV>>) -> bool
    decreases redo.len(),
{
    if redo.len() == 0 {
        true
    } else {
        steps_undone(redo.last(), t) && future_ok(redo_steps(redo.last(), t).unwrap(), redo.drop_last())
    }
}

proof fn lemma_step_done(s: StepV, t: Seq<u8>)
    requires
        step_done(s, t),
    ensures
        undo_step(s, t) is Some,
        step_undone(s, undo_step(s, t).unwrap()),
        redo_step(s, undo_step(s, t).unwrap()) == Some(t),
{
    if let StepV::Change { position, deleted, inserted } = s {
        let u = spliced(t, position, position + inserted.len(), deleted);
        assert(u.subrange(position, position + deleted.len()) =~= deleted);
        assert(spliced(u, position, position + deleted.len(), inserted) =~= t);
    }
}

proof fn lemma_step_undone(s: StepV, u: Seq<u8>)
    requires
        step_undone(s, u),
    ensures
        redo_step(s, u) is Some,
        step_done(s, redo_step(s, u).unwrap()),
        undo_step(s, redo_step(s, u).unwrap()) == Some(u),
{
    if let StepV::Change { position, deleted, inserted } = s {
        let t = spliced(u, position, position + deleted.len(), inserted);
        assert(t.subrange(position, position + inserted.len()) =~= inserted);
        assert(spliced(t, position, position + inserted.len(), deleted) =~= u);
    }
}

/// Steps that produced `t` can be undone, and redoing them gives `t` back.
pub proof fn lemma_steps_done(ss: Seq<StepV>, t: Seq<u8>)
    requires
        steps_done(ss, t),
    ensures
        undo_steps(ss, t) is Some,
        steps_undone(ss, undo_steps(ss, t).unwrap()),
        redo_steps(ss, undo_steps(ss, t).unwrap()) == Some(t),
    decreases ss.len(),
{
    if ss.len() > 0 {
        lemma_steps_done(ss.skip(1), t);
        let v = undo_steps(ss.skip(1), t).unwrap();
        lemma_step_done(ss[0], v);
    }
}

/// Steps that can be redone on `u` can be undone again, giving `u` back.
pub proof fn lemma_steps_undone(ss: Seq<StepV>, u: Seq<u8>)
    requires
        steps_undone(ss, u),
    ensures
        redo_steps(ss, u) is Some,
        steps_done(ss, redo_steps(ss, u).unwrap()),
        undo_steps(ss, redo_steps(ss, u).unwrap()) == Some(u),
    decreases ss.len(),
{
    if ss.len() > 0 {
        lemma_step_undone(ss[0], u);
        let v = redo_step(ss[0], u).unwrap();
        lemma_steps_undone(ss.skip(1), v);
    }
}

proof fn lemma_undo_concat(a: Seq<StepV>, b: Seq<StepV>, t: Seq<u8>)
    ensures
        undo_steps(a + b, t) == match undo_steps(b, t) {
            Some(v) => undo_steps(a, v),
            None => None,
        },
        steps_done(b, t) ==> steps_done(a + b, t) == steps_done(a, undo_steps(b, t).unwrap()),
        !steps_done(b, t) ==> !steps_done(a + b, t),
    decreases a.len(),
{
    if steps_done(b, t) {
        lemma_steps_done(b, t);
    }
    if a.len() == 0 {
        assert(a + b =~= b);
    } else {
        assert((a + b).skip(1) =~= a.skip(1) + b);
        assert((a + b)[0] == a[0]);
        lemma_undo_concat(a.skip(1), b, t);
    }
}

/// Two adjacent entries of a matching undo stack can be merged into one.
pub proof fn lemma_merge_top(t: Seq<u8>, undo: Seq<Seq<StepV>>)
    requires
        undo.len() >= 2,
        history_ok(t, undo),
    ensures
        history_ok(t, undo.drop_last().drop_last().push(undo[undo.len() - 2] + undo.last())),
{
    let a = undo[undo.len() - 2];
    let b = undo.last();
    let rest = undo.drop_last().drop_last();
    let merged = rest.push(a + b);
    lemma_steps_done(b, t);
    let v = undo_steps(b, t).unwrap();
    assert(undo.drop_last().last() == a);
    assert(undo.drop_last().drop_last() == rest);
    assert(history_ok(v, undo.drop_last()));
    assert(steps_done(a, v));
    lemma_steps_done(a, v);
    let w = undo_steps(a, v).unwrap();
    assert(history_ok(w, rest));
    lemma_undo_concat(a, b, t);
    assert(merged.last() == a + b);
    assert(merged.drop_last() =~= rest);
    assert(steps_done(a + b, t));
    assert(undo_steps(a + b, t) == Some(w));
}

/// A copy of a step.
pub fn clone_step(s: &HistoryStep) -> (r: HistoryStep)
    ensures
        r@ == s@,
{
    match s {
        HistoryStep::Change { position, deleted, inserted } => HistoryStep::Change {
            position: *position,
            deleted: copy_bytes(deleted.as_slice()),
            inserted: copy_bytes(inserted.as_slice()),
        },
        HistoryStep::Snapshot { before, after } => HistoryStep::Snapshot {
            before: copy_bytes(before.as_slice()),
            after: copy_bytes(after.as_slice()),
        },
    }
}

/// A copy of an entry.
pub fn clone_entry(e: &HistoryEntry) -> (r: HistoryEntry)
    ensures
        steps_view(r.steps@) == steps_view(e.steps@),
        r.before == e.before,
        r.after == e.after,
{
    let mut steps: Vec<HistoryStep> = Vec::new();
    let mut i: usize = 0;
    while i < e.steps.len()
        invariant
            0 <= i <= e.steps.len(),
            steps@.len() == i,
            forall|j: int| 0 <= j < i ==> (#[trigger] steps@[j])@ == e.steps@[j]@,
        decreases e.steps.len() - i,
    {
        steps.push(clone_step(&e.steps[i]));
        i = i + 1;
    }
    assert(steps_view(steps@) =~= steps_view(e.steps@));
    HistoryEntry { steps, before: e.before, after: e.after }
}

/// A copy of a stack.
pub fn clone_stack(s: &Vec<HistoryEntry>) -> (r: Vec<HistoryEntry>)
    ensures
        stack_steps(r@) == stack_steps(s@),
        r@.len() == s@.len(),
        forall|i: int| 0 <= i < s@.len() ==> (#[trigger] r@[i]).before == s@[i].before && r@[i].after == s@[i].after,
{
    let mut r: Vec<HistoryEntry> = Vec::new();
    let mut i: usize = 0;
    while i < s.len()
        invariant
            0 <= i <= s.len(),
            stack_steps(r@) == stack_steps(s@).take(i as int),
            r@.len() == i,
            forall|j: int| 0 <= j < i ==> (#[trigger] r@[j]).before == s@[j].before && r@[j].after == s@[j].after,
        decreases s.len() - i,
    {
        r.push(clone_entry(&s[i]));
        i = i + 1;
        assert(stack_steps(r@) =~= stack_steps(s@).take(i as int));
    }
    assert(stack_steps(s@).take(i as int) =~= stack_steps(s@));
    r
}

/// The text with the entry's steps undone, the last one first.
pub fn undo_entry_text(steps: &Vec<HistoryStep>, text: &[u8]) -> (r: Option<Vec<u8>>)
    ensures
        match undo_steps(steps_view(steps@), text@) {
            Some(u) => r matches Some(v) && v@ == u,
            None => r is None,
        },
{
    let ghost ss = steps_view(steps@);
    let mut cur = copy_bytes(text);
    let mut i = steps.len();
    assert(ss.take(i as int) =~= ss);
    while i > 0
        invariant
            0 <= i <= steps.len(),
            ss == steps_view(steps@),
            undo_steps(ss, text@) == undo_steps(ss.take(i as int), cur@),
        decreases i,
    {
        proof {
            lemma_undo_split(ss, i as int, text@);
        }
        match &steps[i - 1] {
            HistoryStep::Change { position, deleted, inserted } => {
                if *position > cur.len() || inserted.len() > cur.len() - *position {
                    return None;
                }
                cur = splice_bytes(cur.as_slice(), *position, *position + inserted.len(), deleted.as_slice());
            },
            HistoryStep::Snapshot { before, .. } => {
                cur = copy_bytes(before.as_slice());
            },
        }
        i = i - 1;
    }
    assert(ss.take(0) =~= Seq::<StepV>::empty());
    Some(cur)
}

/// The text with the entry's steps redone, the first one first.
pub fn redo_entry_text(steps: &Vec<HistoryStep>, text: &[u8]) -> (r: Option<Vec<u8>>)
    ensures
        match redo_steps(steps_view(steps@), text@) {
            Some(u) => r matches Some(v) && v@ == u,
            None => r is None,
        },
{
    let ghost ss = steps_view(steps@);
    let mut cur = copy_bytes(text);
    let mut i: usize = 0;
    assert(ss.skip(0) =~= ss);
    while i < steps.len()
        invariant
            0 <= i <= steps.len(),
            ss == steps_view(steps@),
            redo_steps(ss, text@) == redo_steps(ss.skip(i as int), cur@),
        decreases steps.len() - i,
    {
        assert(ss.skip(i as int)[0] == ss[i as int]);
        assert(ss.skip(i as int).skip(1) =~= ss.skip(i + 1));
        match &steps[i] {
            HistoryStep::Change { position, deleted, inserted } => {
                if *position > cur.len() || deleted.len() > cur.len() - *position {
                    return None;
                }
                cur = splice_bytes(cur.as_slice(), *position, *position + deleted.len(), inserted.as_slice());
            },
            HistoryStep::Snapshot { after, .. } => {
                cur = copy_bytes(after.as_slice());
            },
        }
        i = i + 1;
    }
    Some(cur)
}

proof fn lemma_undo_split(ss: Seq<StepV>, i: int, t: Seq<u8>)
    requires
        0 < i <= ss.len(),
    ensures
        forall|c: Seq<u8>| #[trigger] undo_steps(ss.take(i), c) == match undo_step(ss[i - 1], c) {
            Some(v) => undo_steps(ss.take(i - 1), v),
            None => None,
        },
{
    assert forall|c: Seq<u8>| #[trigger] undo_steps(ss.take(i), c) == match undo_step(ss[i - 1], c) {
        Some(v) => undo_steps(ss.take(i - 1), v),
        None => None,
    } by {
        assert(ss.take(i) =~= ss.take(i - 1) + seq![ss[i - 1]]);
        lemma_undo_concat(ss.take(i - 1), seq![ss[i - 1]], c);
        assert(seq![ss[i - 1]].skip(1) =~= Seq::<StepV>::empty());
    }
}

/// `t` with `[start, end)` replaced by `bytes`.
pub fn splice_bytes(t: &[u8], start: usize, end: usize, bytes: &[u8]) -> (r: Vec<u8>)
    requires
        start <= end <= t.len(),
    ensures
        r@ == spliced(t@, start as int, end as int, bytes@),
{
    let mut v: Vec<u8> = Vec::new();
    let mut i: usize = 0;
    while i < start
        invariant
            0 <= i <= start <= end <= t.len(),
            v@ == t@.take(i as int),
        decreases start - i,
    {
        v.push(t[i]);
        i = i + 1;
        assert(v@ =~= t@.take(i as int));
    }
    let mut k: usize = 0;
    while k < bytes.len()
        invariant
            0 <= k <= bytes.len(),
            v@ == t@.take(start as int) + bytes@.take(k as int),
        decreases bytes.len() - k,
    {
        v.push(bytes[k]);
        k = k + 1;
        assert(v@ =~= t@.take(start as int) + bytes@.take(k as int));
    }
    assert(bytes@.take(bytes.len() as int) =~= bytes@);
    let mut j = end;
    while j < t.len()
        invariant
            end <= j <= t.len(),
            v@ == t@.take(start as int) + bytes@ + t@.subrange(end as int, j as int),
        decreases t.len() - j,
    {
        v.push(t[j]);
        j = j + 1;
        assert(v@ =~= t@.take(start as int) + bytes@ + t@.subrange(end as int, j as int));
    }
    assert(t@.subrange(end as int, j as int) =~= t@.skip(end as int));
    v
}

} // verus!
