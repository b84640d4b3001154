//! A view of a document with its undo history, and the edits that record
//! history: replacing a range, typing, deleting, undo and redo.
use vstd::prelude::*;
use vstd::utf8::encode_utf8;
use crate::config::EditorConfig;
use crate::document::{Cursor, DocV, Document, cursor_at, next_boundary, previous_boundary, spliced};
use crate::emacs::{State, initial_state};
use crate::history::{
    steps_done, steps_undone, HistoryEntry, HistoryStep, StepV, clone_stack, future_ok, history_ok, lemma_merge_top,
    lemma_steps_done, lemma_steps_undone, redo_entry_text, redo_steps, stack_steps, steps_view,
    undo_entry_text, undo_steps,
};
use crate::search::SearchResult;
use crate::keybindings::Command;
use crate::document::{down_target, line_end, line_start, up_target};
use crate::formatting::positions::{
    Position, lemma_map_progress, map_bytes, map_positions, map_result, map_start,
};

verus! {

/// `c` moved inside text `t`: positions past the end are brought back to it.
pub open spec fn restored(t: Seq<u8>, c: Cursor) -> Cursor {
    cursor_at(
        t,
        if c.position <= t.len() { c.position as int } else { t.len() as int },
        if c.anchor <= t.len() { c.anchor as int } else { t.len() as int },
        c.desired_column,
    )
}

/// The single step that replacing `[start, end)` of `t` by `r` records.
pub open spec fn change_step(t: Seq<u8>, start: int, end: int, r: Seq<u8>) -> StepV {
    StepV::Change { position: start, deleted: t.subrange(start, end), inserted: r }
}

/// An editor: a document view, its history, and the settings and flags
/// that go with it.
pub struct Editor {
    pub document: Document,
    pub emacs: State,
    pub path: Option<String>,
    pub config: EditorConfig,
    pub undo_stack: Vec<HistoryEntry>,
    pub redo_stack: Vec<HistoryEntry>,
    pub dirty: bool,
    pub read_only: bool,
}

proof fn lemma_stack_pop(s: Seq<HistoryEntry>)
    requires
        s.len() > 0,
    ensures
        stack_steps(s.drop_last()) == stack_steps(s).drop_last(),
        stack_steps(s).last() == steps_view(s.last().steps@),
        stack_steps(s).len() == s.len(),
{
    assert(stack_steps(s.drop_last()) =~= stack_steps(s).drop_last());
}

proof fn lemma_stack_push(s: Seq<HistoryEntry>, e: HistoryEntry)
    ensures
        stack_steps(s.push(e)) == stack_steps(s).push(steps_view(e.steps@)),
{
    assert(stack_steps(s.push(e)) =~= stack_steps(s).push(steps_view(e.steps@)));
}

impl Editor {
    /// The editor's invariant: a well-formed document, and undo and redo
    /// stacks that match its text.
    pub open spec fn wf(&self) -> bool {
        &&& self.document.wf()
        &&& history_ok(self.document@.text, stack_steps(self.undo_stack@))
        &&& future_ok(self.document@.text, stack_steps(self.redo_stack@))
    }

    /// An editor on an empty, unnamed document.
    pub fn new(config: EditorConfig) -> (r: Result<Self, String>)
        ensures
            r matches Ok(e) && e.wf() && e.document@.text.len() == 0 && e.undo_stack@.len() == 0
                && e.redo_stack@.len() == 0 && e.config == config && !e.dirty && !e.read_only
                && e.path is None && e.emacs == initial_state(),
    {
        let e = Editor {
            document: Document::empty(),
            emacs: State::new(),
            path: None,
            config,
            undo_stack: Vec::new(),
            redo_stack: Vec::new(),
            dirty: false,
            read_only: false,
        };
        assert(stack_steps(e.undo_stack@) =~= seq![]);
        assert(stack_steps(e.redo_stack@) =~= seq![]);
        Ok(e)
    }

    /// Another view of the same document: same text, cursor and history,
    /// with its own Emacs state.
    pub fn duplicate_view(&self) -> (r: Self)
        requires
            self.wf(),
        ensures
            r.wf(),
            r.document@ == self.document@,
            stack_steps(r.undo_stack@) == stack_steps(self.undo_stack@),
            stack_steps(r.redo_stack@) == stack_steps(self.redo_stack@),
            r.path == self.path,
            r.config == self.config,
            r.dirty == self.dirty,
            r.read_only == self.read_only,
            r.emacs == initial_state(),
    {
        let path = match &self.path {
            Some(p) => Some(p.clone()),
            None => None,
        };
        Editor {
            document: self.document.duplicate_view(),
            emacs: State::new(),
            path,
            config: self.config,
            undo_stack: clone_stack(&self.undo_stack),
            redo_stack: clone_stack(&self.redo_stack),
            dirty: self.dirty,
            read_only: self.read_only,
        }
    }

    /// Whether both views show the same document.
    pub fn shares_document_with(&self, other: &Self) -> (r: bool)
        ensures
            r == (self.document@.storage == other.document@.storage),
    {
        self.document.storage() == other.document.storage()
    }

    /// Takes the text and history of `source` when they moved on; this view
    /// keeps its cursor where it was in the text.
    pub fn refresh_view_from(&mut self, source: &Self)
        requires
            old(self).wf(),
            source.wf(),
        ensures
            final(self).wf(),
            final(self).path == source.path,
            final(self).dirty == source.dirty,
            final(self).read_only == source.read_only,
            final(self).emacs == old(self).emacs,
            final(self).config == old(self).config,
            if old(self).document@.revision != source.document@.revision
                || old(self).undo_stack@.len() != source.undo_stack@.len()
                || old(self).redo_stack@.len() != source.redo_stack@.len() {
                &&& final(self).document@ == view_refreshed(old(self).document@, source.document@)
                &&& final(self).document@.text == source.document@.text
                &&& final(self).document@.revision == source.document@.revision
                &&& stack_steps(final(self).undo_stack@) == stack_steps(source.undo_stack@)
                &&& stack_steps(final(self).redo_stack@) == stack_steps(source.redo_stack@)
            } else {
                &&& final(self).document@ == old(self).document@
                &&& final(self).undo_stack@ == old(self).undo_stack@
                &&& final(self).redo_stack@ == old(self).redo_stack@
            },
    {
        if self.document.revision() != source.document.revision()
            || self.undo_stack.len() != source.undo_stack.len()
            || self.redo_stack.len() != source.redo_stack.len() {
            self.document.refresh_view_from(&source.document);
            self.undo_stack = clone_stack(&source.undo_stack);
            self.redo_stack = clone_stack(&source.redo_stack);
        }
        self.path = match &source.path {
            Some(p) => Some(p.clone()),
            None => None,
        };
        self.dirty = source.dirty;
        self.read_only = source.read_only;
    }

    /// Brings two views of one document to its newest revision; views of
    /// different documents are left alone.
    pub fn synchronize_views(active: &mut Self, other: &mut Self) -> (r: Result<(), String>)
        requires
            old(active).wf(),
            old(other).wf(),
        ensures
            r is Ok,
            final(active).wf(),
            final(other).wf(),
            old(active).document@.storage == old(other).document@.storage ==> if old(other).document@.revision > old(active).document@.revision {
                &&& final(active).document@ == view_refreshed(old(active).document@, old(other).document@)
                &&& stack_steps(final(active).undo_stack@) == stack_steps(old(other).undo_stack@)
                &&& stack_steps(final(active).redo_stack@) == stack_steps(old(other).redo_stack@)
                &&& *final(other) == *old(other)
            } else {
                &&& *final(active) == *old(active)
                &&& if old(active).document@.revision != old(other).document@.revision
                    || old(active).undo_stack@.len() != old(other).undo_stack@.len()
                    || old(active).redo_stack@.len() != old(other).redo_stack@.len() {
                    &&& final(other).document@ == view_refreshed(old(other).document@, old(active).document@)
                    &&& stack_steps(final(other).undo_stack@) == stack_steps(old(active).undo_stack@)
                    &&& stack_steps(final(other).redo_stack@) == stack_steps(old(active).redo_stack@)
                } else {
                    &&& final(other).document@ == old(other).document@
                    &&& final(other).undo_stack@ == old(other).undo_stack@
                    &&& final(other).redo_stack@ == old(other).redo_stack@
                }
            },
            old(active).document@.storage != old(other).document@.storage ==> *final(active) == *old(active) && *final(other) == *old(other),
    {
        if !active.shares_document_with(other) {
            return Ok(());
        }
        if other.document.revision() > active.document.revision() {
            active.refresh_view_from(other);
        } else {
            other.refresh_view_from(active);
        }
        Ok(())
    }

    /// The cursor, to be recorded in history.
    pub fn cursor_state(&self) -> (r: Cursor)
        ensures
            r == self.document@.cursor,
    {
        self.document.cursor()
    }

    /// Puts the cursor back where `state` had it, inside the text.
    pub fn restore_cursor(&mut self, state: Cursor)
        requires
            old(self).document.wf(),
        ensures
            final(self).document.wf(),
            final(self).document@ == (DocV { cursor: restored(old(self).document@.text, state), ..old(self).document@ }),
            final(self).undo_stack == old(self).undo_stack,
            final(self).redo_stack == old(self).redo_stack,
            final(self).dirty == old(self).dirty,
            final(self).read_only == old(self).read_only,
            final(self).path == old(self).path,
            final(self).emacs == old(self).emacs,
            final(self).config == old(self).config,
    {
        let len = self.document.len();
        let position = if state.position <= len { state.position } else { len };
        let anchor = if state.anchor <= len { state.anchor } else { len };
        let _ = self.document.set_cursor_desired(position, anchor, state.desired_column);
    }
}


/// Recording a change on top of a matching history keeps it matching.
pub proof fn lemma_change_recorded(t: Seq<u8>, start: int, end: int, r: Seq<u8>, undo: Seq<Seq<StepV>>)
    requires
        0 <= start <= end <= t.len(),
        history_ok(t, undo),
    ensures
        history_ok(spliced(t, start, end, r), undo.push(seq![change_step(t, start, end, r)])),
        undo_steps(seq![change_step(t, start, end, r)], spliced(t, start, end, r)) == Some(t),
{
    let t2 = spliced(t, start, end, r);
    let ss = seq![change_step(t, start, end, r)];
    assert(ss.skip(1) =~= Seq::<StepV>::empty());
    assert(t2.subrange(start, start + r.len()) =~= r);
    assert(spliced(t2, start, start + r.len(), t.subrange(start, end)) =~= t);
    let u = undo.push(ss);
    assert(u.drop_last() =~= undo);
    assert(u.last() == ss);
    assert(undo_steps(ss.skip(1), t2) == Some(t2));
    assert(undo_steps(ss, t2) == Some(t));
    assert(steps_done(ss.skip(1), t2));
    assert(steps_done(ss, t2));
}

/// The texts before and after replacing `[start, end)` of `t` by `r`.
pub open spec fn replaced(t: Seq<u8>, start: int, end: int, r: Seq<u8>) -> Seq<u8> {
    if t.subrange(start, end) != r {
        spliced(t, start, end, r)
    } else {
        t
    }
}

/// Whether a replacement of `[start, end)` by `r` fits text `t`.
pub open spec fn replacement_fits(t: Seq<u8>, start: int, end: int, r: Seq<u8>) -> bool {
    start <= end <= t.len() && t.len() - (end - start) + r.len() <= usize::MAX
}

impl Editor {
    /// Puts caret and anchor at byte positions of the text.
    pub fn set_cursor_and_anchor(&mut self, position: usize, anchor: usize) -> (r: Result<(), String>)
        requires
            old(self).wf(),
        ensures
            final(self).wf(),
            final(self).path == old(self).path,
            final(self).config == old(self).config,
            final(self).read_only == old(self).read_only,
            position <= old(self).document@.text.len() && anchor <= old(self).document@.text.len() ==> r is Ok
                && final(self).document@ == (DocV { cursor: cursor_at(old(self).document@.text, position as int, anchor as int, None), ..old(self).document@ }),
            !(position <= old(self).document@.text.len() && anchor <= old(self).document@.text.len()) ==> r is Err
                && final(self).document@ == old(self).document@,
            final(self).undo_stack == old(self).undo_stack,
            final(self).redo_stack == old(self).redo_stack,
            final(self).dirty == old(self).dirty,
            final(self).read_only == old(self).read_only,
            final(self).emacs == old(self).emacs,
    {
        self.document.set_cursor(position, anchor)
    }

    /// Replaces one byte range by `replacement` as a single undo step, and
    /// puts the cursor after the replacement. Whether the text changed:
    /// replacing bytes by the same bytes moves the cursor but records
    /// nothing. A read-only view changes nothing.
    pub fn replace_range(&mut self, range: SearchResult, replacement: &str) -> (r: Result<bool, String>)
        requires
            old(self).wf(),
        ensures
            final(self).wf(),
            final(self).emacs == old(self).emacs,
            final(self).read_only == old(self).read_only,
            final(self).path == old(self).path,
            final(self).config == old(self).config,
            ({
                let t = old(self).document@.text;
                let rb = encode_utf8(replacement@);
                let start = range.start as int;
                let end = range.end as int;
                if old(self).read_only || !replacement_fits(t, start, end, rb) {
                    &&& (old(self).read_only ==> r == Ok::<bool, String>(false))
                    &&& (!old(self).read_only ==> r is Err)
                    &&& final(self).document@ == old(self).document@
                    &&& final(self).undo_stack@ == old(self).undo_stack@
                    &&& final(self).redo_stack@ == old(self).redo_stack@
                    &&& final(self).dirty == old(self).dirty
                } else {
                    let changed = t.subrange(start, end) != rb;
                    let t2 = replaced(t, start, end, rb);
                    &&& r == Ok::<bool, String>(changed)
                    &&& final(self).document@.text == t2
                    &&& final(self).document@.cursor == cursor_at(t2, start + rb.len(), start + rb.len(), None)
                    &&& if changed {
                        &&& one_change(*old(self), *final(self), start, end, rb)
                        &&& stack_steps(final(self).undo_stack@) == stack_steps(old(self).undo_stack@).push(seq![change_step(t, start, end, rb)])
                        &&& final(self).undo_stack@.last().before == old(self).document@.cursor
                        &&& final(self).undo_stack@.last().after == final(self).document@.cursor
                        &&& final(self).redo_stack@.len() == 0
                        &&& final(self).dirty
                    } else {
                        &&& final(self).undo_stack@ == old(self).undo_stack@
                        &&& final(self).redo_stack@ == old(self).redo_stack@
                        &&& final(self).dirty == old(self).dirty
                    }
                }
            }),
    {
        if self.read_only {
            return Ok(false);
        }
        let len = self.document.len();
        if range.end < range.start || range.end > len {
            return Err(crate::text::string_from("replacement range is outside document"));
        }
        let rb = replacement.as_bytes();
        assert(rb@.len() == rb.len());
        let deleted_length = range.end - range.start;
        if rb.len() > usize::MAX - (len - deleted_length) {
            return Err(crate::text::string_from("replacement would overflow document length"));
        }
        let ghost t = self.document@.text;
        let before = self.cursor_state();
        let same = deleted_length == rb.len() && self.document.range_equals(range.start, rb);
        assert(same == (t.subrange(range.start as int, range.end as int) == rb@)) by {
            if deleted_length == rb.len() {
                assert(range.start + rb.len() == range.end);
            } else {
                assert(t.subrange(range.start as int, range.end as int).len() != rb@.len());
            }
        }
        let new_position = range.start + rb.len();
        if same {
            let _ = self.document.set_cursor(new_position, new_position);
            return Ok(false);
        }
        let deleted = match self.document.read_range(range.start, deleted_length) {
            Ok(v) => v,
            Err(e) => {
                return Err(e);
            },
        };
        let _ = self.document.splice(range.start, range.end, rb);
        let _ = self.document.set_cursor(new_position, new_position);
        let after = self.cursor_state();
        let mut steps: Vec<HistoryStep> = Vec::new();
        steps.push(HistoryStep::Change { position: range.start, deleted, inserted: crate::document::copy_bytes(rb) });
        let entry = HistoryEntry { steps, before, after };
        proof {
            lemma_change_recorded(t, range.start as int, range.end as int, rb@, stack_steps(self.undo_stack@));
            lemma_stack_push(self.undo_stack@, entry);
            assert(steps_view(entry.steps@) =~= seq![change_step(t, range.start as int, range.end as int, rb@)]);
        }
        self.undo_stack.push(entry);
        self.redo_stack.clear();
        assert(stack_steps(self.redo_stack@) =~= seq![]);
        self.dirty = true;
        Ok(true)
    }

    /// Types `text` over the selection, or at the cursor.
    pub fn insert_text(&mut self, text: &str) -> (r: Result<(), String>)
        requires
            old(self).wf(),
        ensures
            final(self).wf(),
            final(self).path == old(self).path,
            final(self).config == old(self).config,
            final(self).read_only == old(self).read_only,
            text@.len() == 0 || old(self).read_only ==> r is Ok && *final(self) == *old(self),
            text@.len() > 0 && !old(self).read_only ==> {
                let c = old(self).document@.cursor;
                let start = if c.position < c.anchor { c.position } else { c.anchor };
                let end = if c.position < c.anchor { c.anchor } else { c.position };
                let t = old(self).document@.text;
                let rb = encode_utf8(text@);
                &&& (replacement_fits(t, start as int, end as int, rb) ==> r is Ok
                    && final(self).document@.text == replaced(t, start as int, end as int, rb))
                &&& (replacement_fits(t, start as int, end as int, rb) && t.subrange(start as int, end as int) != rb
                    ==> one_change(*old(self), *final(self), start as int, end as int, rb))
                &&& (replacement_fits(t, start as int, end as int, rb) && t.subrange(start as int, end as int) == rb
                    ==> final(self).undo_stack@ == old(self).undo_stack@)
                &&& (!replacement_fits(t, start as int, end as int, rb) ==> r is Err
                    && final(self).document@ == old(self).document@)
            },
    {
        if text.is_empty() {
            return Ok(());
        }
        if self.read_only {
            return Ok(());
        }
        let start = self.document.selection_start();
        let end = self.document.selection_end();
        match self.replace_range(SearchResult { start, end }, text) {
            Ok(_) => Ok(()),
            Err(e) => Err(e),
        }
    }

    /// Types `text` (see `insert_text`).
    pub fn insert(&mut self, text: &str) -> (r: Result<(), String>)
        requires
            old(self).wf(),
        ensures
            final(self).wf(),
            final(self).path == old(self).path,
            final(self).config == old(self).config,
            final(self).read_only == old(self).read_only,
            text@.len() == 0 || old(self).read_only ==> r is Ok && *final(self) == *old(self),
            text@.len() > 0 && !old(self).read_only ==> {
                let c = old(self).document@.cursor;
                let start = if c.position < c.anchor { c.position } else { c.anchor };
                let end = if c.position < c.anchor { c.anchor } else { c.position };
                let t = old(self).document@.text;
                let rb = encode_utf8(text@);
                &&& (replacement_fits(t, start as int, end as int, rb) ==> r is Ok
                    && final(self).document@.text == replaced(t, start as int, end as int, rb))
                &&& (replacement_fits(t, start as int, end as int, rb) && t.subrange(start as int, end as int) != rb
                    ==> one_change(*old(self), *final(self), start as int, end as int, rb))
                &&& (replacement_fits(t, start as int, end as int, rb) && t.subrange(start as int, end as int) == rb
                    ==> final(self).undo_stack@ == old(self).undo_stack@)
                &&& (!replacement_fits(t, start as int, end as int, rb) ==> r is Err
                    && final(self).document@ == old(self).document@)
            },
    {
        self.insert_text(text)
    }

    /// Deletes `length` bytes from `position` as one undo step.
    pub fn delete_range(&mut self, position: usize, length: usize) -> (r: Result<(), String>)
        requires
            old(self).wf(),
        ensures
            final(self).wf(),
            final(self).path == old(self).path,
            final(self).config == old(self).config,
            final(self).read_only == old(self).read_only,
            length == 0 || old(self).read_only ==> r is Ok && final(self).document@ == old(self).document@,
            length > 0 && !old(self).read_only ==> {
                let t = old(self).document@.text;
                &&& (position + length <= t.len() ==> r is Ok
                    && final(self).document@.text == spliced(t, position as int, position + length, seq![])
                    && one_change(*old(self), *final(self), position as int, position + length, seq![]))
                &&& (position + length > t.len() ==> r is Err && final(self).document@ == old(self).document@)
            },
    {
        if length == 0 {
            return Ok(());
        }
        let len = self.document.len();
        if position > usize::MAX - length {
            if self.read_only {
                return Ok(());
            }
            return Err(crate::text::string_from("delete range overflow"));
        }
        proof {
            reveal_strlit("");
        }
        assert(encode_utf8(""@) =~= Seq::<u8>::empty());
        let ghost t = self.document@.text;
        proof {
            if position + length <= t.len() {
                assert(t.subrange(position as int, position + length).len() > 0);
                assert(t.subrange(position as int, position + length) != Seq::<u8>::empty());
            }
        }
        match self.replace_range(SearchResult { start: position, end: position + length }, "") {
            Ok(_) => Ok(()),
            Err(e) => Err(e),
        }
    }

    /// Deletes the selection, if there is one.
    pub fn delete_selection(&mut self) -> (r: Result<(), String>)
        requires
            old(self).wf(),
        ensures
            final(self).wf(),
            final(self).path == old(self).path,
            final(self).config == old(self).config,
            final(self).read_only == old(self).read_only,
            r is Ok,
            ({
                let c = old(self).document@.cursor;
                let start = if c.position < c.anchor { c.position } else { c.anchor };
                let end = if c.position < c.anchor { c.anchor } else { c.position };
                &&& final(self).document@.text == if start == end || old(self).read_only {
                    old(self).document@.text
                } else {
                    spliced(old(self).document@.text, start as int, end as int, seq![])
                }
                &&& start != end && !old(self).read_only ==> one_change(*old(self), *final(self), start as int, end as int, seq![])
            }),
    {
        if !self.document.has_selection() {
            return Ok(());
        }
        let start = self.document.selection_start();
        let end = self.document.selection_end();
        self.delete_range(start, end - start)
    }

    /// Deletes the selection, or the character after the cursor.
    pub fn delete(&mut self) -> (r: Result<(), String>)
        requires
            old(self).wf(),
        ensures
            final(self).wf(),
            final(self).path == old(self).path,
            final(self).config == old(self).config,
            final(self).read_only == old(self).read_only,
            r is Ok,
            ({
                let c = old(self).document@.cursor;
                let t = old(self).document@.text;
                final(self).document@.text == if old(self).read_only {
                    t
                } else if c.position != c.anchor {
                    let start = if c.position < c.anchor { c.position } else { c.anchor };
                    let end = if c.position < c.anchor { c.anchor } else { c.position };
                    spliced(t, start as int, end as int, seq![])
                } else if c.position >= t.len() {
                    t
                } else {
                    spliced(t, c.position as int, next_boundary(t, c.position as int), seq![])
                }
            }),
    {
        if self.document.has_selection() {
            return self.delete_selection();
        }
        let position = self.document.cursor().position;
        if position >= self.document.len() {
            return Ok(());
        }
        let next = self.document.next_char_boundary(position);
        self.delete_range(position, next - position)
    }

    /// Deletes the selection, or the character before the cursor.
    pub fn backspace(&mut self) -> (r: Result<(), String>)
        requires
            old(self).wf(),
        ensures
            final(self).wf(),
            final(self).path == old(self).path,
            final(self).config == old(self).config,
            final(self).read_only == old(self).read_only,
            r is Ok,
            ({
                let c = old(self).document@.cursor;
                let t = old(self).document@.text;
                final(self).document@.text == if old(self).read_only {
                    t
                } else if c.position != c.anchor {
                    let start = if c.position < c.anchor { c.position } else { c.anchor };
                    let end = if c.position < c.anchor { c.anchor } else { c.position };
                    spliced(t, start as int, end as int, seq![])
                } else if c.position == 0 {
                    t
                } else {
                    spliced(t, previous_boundary(t, c.position as int), c.position as int, seq![])
                }
            }),
    {
        if self.document.has_selection() {
            return self.delete_selection();
        }
        let position = self.document.cursor().position;
        if position == 0 {
            return Ok(());
        }
        let previous = self.document.previous_char_boundary(position);
        self.delete_range(previous, position - previous)
    }

    /// Undoes the newest undo step: its changes are undone, last first, and
    /// the cursor goes back to where it was before them. A view that is
    /// read-only, or has nothing to undo, stays as it is; a step that no
    /// longer fits the text is refused.
    pub fn undo(&mut self) -> (r: Result<(), String>)
        requires
            old(self).document.wf(),
        ensures
            final(self).document.wf(),
            old(self).wf() ==> r is Ok && final(self).wf(),
            final(self).emacs == old(self).emacs,
            final(self).read_only == old(self).read_only,
            final(self).path == old(self).path,
            final(self).config == old(self).config,
            if old(self).read_only || old(self).undo_stack@.len() == 0 {
                r is Ok && *final(self) == *old(self)
            } else {
                let top = old(self).undo_stack@.last();
                match undo_steps(steps_view(top.steps@), old(self).document@.text) {
                    Some(u) => {
                        &&& r is Ok
                        &&& final(self).document@.text == u
                        &&& final(self).document@.cursor == restored(u, top.before)
                        &&& final(self).undo_stack@ == old(self).undo_stack@.drop_last()
                        &&& final(self).redo_stack@ == old(self).redo_stack@.push(top)
                        &&& final(self).dirty
                    },
                    None => r is Err && *final(self) == *old(self),
                }
            },
    {
        if self.read_only || self.undo_stack.len() == 0 {
            return Ok(());
        }
        let n = self.undo_stack.len();
        proof {
            lemma_stack_pop(self.undo_stack@);
            if self.wf() {
                lemma_steps_done(stack_steps(self.undo_stack@).last(), self.document@.text);
            }
        }
        let text = match undo_entry_text(&self.undo_stack[n - 1].steps, self.document.bytes()) {
            Some(v) => v,
            None => {
                return Err(crate::text::string_from("The undo history no longer matches the document"));
            },
        };
        let ghost t = self.document@.text;
        let ghost undo = stack_steps(self.undo_stack@);
        let ghost redo = stack_steps(self.redo_stack@);
        let entry = self.undo_stack.pop().unwrap();
        self.document.replace_text(text);
        self.restore_cursor(entry.before);
        proof {
            lemma_stack_pop(old(self).undo_stack@);
            lemma_stack_push(old(self).redo_stack@, entry);
            if history_ok(t, undo) && future_ok(t, redo) {
                lemma_steps_done(undo.last(), t);
                let u = undo_steps(undo.last(), t).unwrap();
                assert(history_ok(u, undo.drop_last()));
                let nr = redo.push(undo.last());
                assert(nr.drop_last() =~= redo);
                assert(nr.last() == undo.last());
                assert(future_ok(u, nr));
            }
        }
        self.redo_stack.push(entry);
        self.dirty = true;
        Ok(())
    }

    /// Redoes the newest undone step and puts the cursor where it was after it.
    pub fn redo(&mut self) -> (r: Result<(), String>)
        requires
            old(self).document.wf(),
        ensures
            final(self).document.wf(),
            old(self).wf() ==> r is Ok && final(self).wf(),
            final(self).emacs == old(self).emacs,
            final(self).read_only == old(self).read_only,
            final(self).path == old(self).path,
            final(self).config == old(self).config,
            if old(self).read_only || old(self).redo_stack@.len() == 0 {
                r is Ok && *final(self) == *old(self)
            } else {
                let top = old(self).redo_stack@.last();
                match redo_steps(steps_view(top.steps@), old(self).document@.text) {
                    Some(u) => {
                        &&& r is Ok
                        &&& final(self).document@.text == u
                        &&& final(self).document@.cursor == restored(u, top.after)
                        &&& final(self).redo_stack@ == old(self).redo_stack@.drop_last()
                        &&& final(self).undo_stack@ == old(self).undo_stack@.push(top)
                        &&& final(self).dirty
                    },
                    None => r is Err && *final(self) == *old(self),
                }
            },
    {
        if self.read_only || self.redo_stack.len() == 0 {
            return Ok(());
        }
        let n = self.redo_stack.len();
        proof {
            lemma_stack_pop(self.redo_stack@);
            if self.wf() {
                lemma_steps_undone(stack_steps(self.redo_stack@).last(), self.document@.text);
            }
        }
        let text = match redo_entry_text(&self.redo_stack[n - 1].steps, self.document.bytes()) {
            Some(v) => v,
            None => {
                return Err(crate::text::string_from("The redo history no longer matches the document"));
            },
        };
        let ghost t = self.document@.text;
        let ghost undo = stack_steps(self.undo_stack@);
        let ghost redo = stack_steps(self.redo_stack@);
        let entry = self.redo_stack.pop().unwrap();
        self.document.replace_text(text);
        self.restore_cursor(entry.after);
        proof {
            lemma_stack_pop(old(self).redo_stack@);
            lemma_stack_push(old(self).undo_stack@, entry);
            if history_ok(t, undo) && future_ok(t, redo) {
                lemma_steps_undone(redo.last(), t);
                let u = redo_steps(redo.last(), t).unwrap();
                assert(future_ok(u, redo.drop_last()));
                let nu = undo.push(redo.last());
                assert(nu.drop_last() =~= undo);
                assert(nu.last() == redo.last());
                assert(history_ok(u, nu));
            }
        }
        self.undo_stack.push(entry);
        self.dirty = true;
        Ok(())
    }
}


/// The steps of several entries as one: the first entry's steps first.
pub open spec fn joined(es: Seq<Seq<StepV>>) -> Seq<StepV>
    decreases es.len(),
{
    if es.len() == 0 {
        seq![]
    } else {
        es[0] + joined(es.skip(1))
    }
}

impl Editor {
    /// Marks the start of a group of edits that should undo as one step.
    pub fn begin_history_group(&self) -> (r: usize)
        ensures
            r == self.undo_stack@.len(),
    {
        self.undo_stack.len()
    }

    /// Merges the undo entries recorded since `start` into one entry, which
    /// undoes them all, the newest first.
    pub fn end_history_group(&mut self, start: usize)
        requires
            old(self).wf(),
        ensures
            final(self).wf(),
            final(self).path == old(self).path,
            final(self).config == old(self).config,
            final(self).read_only == old(self).read_only,
            final(self).document@ == old(self).document@,
            final(self).redo_stack@ == old(self).redo_stack@,
            final(self).dirty == old(self).dirty,
            final(self).read_only == old(self).read_only,
            final(self).emacs == old(self).emacs,
            if start + 1 < old(self).undo_stack@.len() {
                &&& final(self).undo_stack@.len() == start + 1
                &&& stack_steps(final(self).undo_stack@) == stack_steps(old(self).undo_stack@).take(start as int).push(
                    joined(stack_steps(old(self).undo_stack@).skip(start as int)))
                &&& final(self).undo_stack@.last().before == old(self).undo_stack@[start as int].before
                &&& final(self).undo_stack@.last().after == old(self).undo_stack@.last().after
            } else {
                final(self).undo_stack@ == old(self).undo_stack@
            },
    {
        let n = self.undo_stack.len();
        if start >= n || n - start == 1 {
            return;
        }
        let ghost t = self.document@.text;
        let ghost all = stack_steps(self.undo_stack@);
        let ghost last_after = self.undo_stack@.last().after;
        proof {
            lemma_stack_pop(self.undo_stack@);
        }
        let mut merged = self.undo_stack.pop().unwrap();
        proof {
            assert(all.skip(n - 1) =~= seq![all[n - 1]]);
            assert(seq![all[n - 1]].skip(1) =~= Seq::<Seq<StepV>>::empty());
            assert(joined(Seq::<Seq<StepV>>::empty()) == Seq::<StepV>::empty());
            assert(joined(seq![all[n - 1]]) == all[n - 1] + joined(Seq::<Seq<StepV>>::empty()));
            assert(all[n - 1] + Seq::<StepV>::empty() =~= all[n - 1]);
            assert(stack_steps(self.undo_stack@).push(steps_view(merged.steps@)) =~= all);
        }
        while self.undo_stack.len() > start
            invariant
                start < n,
                start <= self.undo_stack@.len() < n,
                all == stack_steps(old(self).undo_stack@),
                all.len() == n,
                t == self.document@.text,
                stack_steps(self.undo_stack@) == all.take(self.undo_stack@.len() as int),
                self.undo_stack@ == old(self).undo_stack@.take(self.undo_stack@.len() as int),
                steps_view(merged.steps@) == joined(all.skip(self.undo_stack@.len() as int)),
                merged.before == old(self).undo_stack@[self.undo_stack@.len() as int].before,
                merged.after == last_after,
                history_ok(t, stack_steps(self.undo_stack@).push(steps_view(merged.steps@))),
                self.document@ == old(self).document@,
                self.redo_stack@ == old(self).redo_stack@,
                self.dirty == old(self).dirty,
                self.read_only == old(self).read_only,
                self.emacs == old(self).emacs,
                self.path == old(self).path,
                self.config == old(self).config,
                self.document.wf(),
                future_ok(t, stack_steps(self.redo_stack@)),
            decreases self.undo_stack@.len(),
        {
            let k = self.undo_stack.len();
            proof {
                lemma_stack_pop(self.undo_stack@);
                let below = stack_steps(self.undo_stack@).last();
                let top = steps_view(merged.steps@);
                let st = stack_steps(self.undo_stack@).drop_last().push(below).push(top);
                assert(st =~= stack_steps(self.undo_stack@).push(top));
                lemma_merge_top(t, st);
                assert(st.drop_last().drop_last() =~= stack_steps(self.undo_stack@).drop_last());
                assert(st[st.len() - 2] == below);
            }
            let mut below = self.undo_stack.pop().unwrap();
            let ghost below_steps = steps_view(below.steps@);
            let ghost merged_steps = steps_view(merged.steps@);
            below.steps.append(&mut merged.steps);
            assert(steps_view(below.steps@) =~= below_steps + merged_steps);
            merged = HistoryEntry { steps: below.steps, before: below.before, after: merged.after };
            proof {
                assert(all.skip(k - 1)[0] == all[k - 1]);
                assert(all.skip(k - 1).skip(1) =~= all.skip(k as int));
                assert(all.take(k as int)[k - 1] == all[k - 1]);
                assert(stack_steps(self.undo_stack@) =~= all.take(k - 1));
                assert(self.undo_stack@ =~= old(self).undo_stack@.take(k - 1));
            }
        }
        proof {
            lemma_stack_push(self.undo_stack@, merged);
            assert(self.undo_stack@.len() == start);
        }
        self.undo_stack.push(merged);
    }
}


/// Recording a whole-text change on top of a matching history keeps it matching.
pub proof fn lemma_snapshot_recorded(t: Seq<u8>, n: Seq<u8>, undo: Seq<Seq<StepV>>)
    requires
        history_ok(t, undo),
    ensures
        history_ok(n, undo.push(seq![StepV::Snapshot { before: t, after: n }])),
{
    let ss = seq![StepV::Snapshot { before: t, after: n }];
    assert(ss.skip(1) =~= Seq::<StepV>::empty());
    let u = undo.push(ss);
    assert(u.drop_last() =~= undo);
    assert(u.last() == ss);
    assert(undo_steps(ss.skip(1), n) == Some(n));
    assert(undo_steps(ss, n) == Some(t));
    assert(steps_done(ss.skip(1), n));
    assert(steps_done(ss, n));
}

/// The targets that formatting maps: the cursor's and the anchor's line and column.
pub open spec fn cursor_targets(c: Cursor) -> ((usize, usize), (usize, usize)) {
    ((c.line, c.column), (c.anchor_line, c.anchor_column))
}

/// Matches that lie in a text of `len` bytes, in order, none overlapping.
pub open spec fn matches_ok(ms: Seq<SearchResult>, len: int) -> bool {
    &&& forall|i: int| 0 <= i < ms.len() ==> (#[trigger] ms[i]).start <= ms[i].end <= len
    &&& forall|i: int| 0 <= i < ms.len() - 1 ==> (#[trigger] ms[i]).end <= ms[i + 1].start
}

/// `t` from byte `from` on, with the matches replaced by `r`.
pub open spec fn rebuilt(t: Seq<u8>, ms: Seq<SearchResult>, r: Seq<u8>, from: int) -> Seq<u8>
    decreases ms.len(),
{
    if ms.len() == 0 {
        t.subrange(from, t.len() as int)
    } else {
        t.subrange(from, ms[0].start as int) + r + rebuilt(t, ms.skip(1), r, ms[0].end as int)
    }
}

/// Bytes that the matches cover.
pub open spec fn covered(ms: Seq<SearchResult>) -> int
    decreases ms.len(),
{
    if ms.len() == 0 {
        0
    } else {
        covered(ms.drop_last()) + (ms.last().end - ms.last().start)
    }
}

/// Length of a text of `len` bytes once the matches are replaced by `r` bytes each.
pub open spec fn new_length(len: int, ms: Seq<SearchResult>, r: int) -> int {
    len - covered(ms) + ms.len() * r
}

proof fn lemma_covered(ms: Seq<SearchResult>, len: int)
    requires
        0 <= len,
        matches_ok(ms, len),
    ensures
        0 <= covered(ms),
        ms.len() > 0 ==> covered(ms) <= ms.last().end,
        covered(ms) <= len,
    decreases ms.len(),
{
    if ms.len() > 0 {
        let rest = ms.drop_last();
        assert(matches_ok(rest, len)) by {
            assert forall|i: int| 0 <= i < rest.len() - 1 implies (#[trigger] rest[i]).end <= rest[i + 1].start by {
                assert(rest[i] == ms[i] && rest[i + 1] == ms[i + 1]);
            }
        }
        lemma_covered(rest, len);
        if rest.len() > 0 {
            assert(rest.last() == ms[ms.len() - 2]);
            assert(ms[ms.len() - 2].end <= ms[ms.len() - 1].start);
        }
        assert(ms.last() == ms[ms.len() - 1]);
    }
}

/// Where position `p` goes when the matches are replaced by a text of `r`
/// bytes: before a match it shifts by what earlier matches changed, inside
/// or at the end of a match it goes after that match's replacement.
pub open spec fn mapped_through(p: int, ms: Seq<SearchResult>, r: int, shift: int) -> int
    decreases ms.len(),
{
    if ms.len() == 0 {
        p + shift
    } else if p < ms[0].start {
        p + shift
    } else if p <= ms[0].end {
        ms[0].start + r + shift
    } else {
        mapped_through(p, ms.skip(1), r, shift + r - (ms[0].end - ms[0].start))
    }
}

impl Editor {
    /// Replaces the text by a formatter's `output` as one undo step, keeping
    /// the cursor and the anchor on their lines and columns. Whether the
    /// text changed.
    pub fn apply_formatted(&mut self, output: &[u8]) -> (r: Result<bool, String>)
        requires
            old(self).wf(),
        ensures
            final(self).wf(),
            final(self).read_only == old(self).read_only,
            final(self).emacs == old(self).emacs,
            ({
                let t = old(self).document@.text;
                let s = map_bytes(map_start(), cursor_targets(old(self).document@.cursor), output@);
                if old(self).read_only {
                    r matches Err(e) && e@ == "This file is open for viewing"@ && *final(self) == *old(self)
                } else if s.error is Some {
                    r matches Err(e) && Some(e@) == s.error && *final(self) == *old(self)
                } else if output@.len() == 0 && t.len() != 0 {
                    r matches Err(e) && e@ == "Formatter returned empty output; document preserved"@
                        && *final(self) == *old(self)
                } else if output@ == t {
                    r == Ok::<bool, String>(false) && *final(self) == *old(self)
                } else {
                    &&& r == Ok::<bool, String>(true)
                    &&& final(self).document@.text == output@
                    &&& final(self).document@.cursor == cursor_at(output@, map_result(s).0.byte as int,
                        map_result(s).1.byte as int, None)
                    &&& stack_steps(final(self).undo_stack@) == stack_steps(old(self).undo_stack@).push(
                        seq![StepV::Snapshot { before: t, after: output@ }])
                    &&& one_snapshot(*old(self), *final(self))
                    &&& final(self).redo_stack@.len() == 0
                    &&& final(self).dirty
                }
            }),
    {
        if self.read_only {
            return Err(crate::text::string_from("This file is open for viewing"));
        }
        let before = self.cursor_state();
        let targets = [(before.line, before.column), (before.anchor_line, before.anchor_column)];
        let mapped = match map_positions(output, targets) {
            Ok(m) => m,
            Err(e) => {
                return Err(e);
            },
        };
        if output.len() == 0 && self.document.len() != 0 {
            return Err(crate::text::string_from("Formatter returned empty output; document preserved"));
        }
        let ghost t = self.document@.text;
        let doc_len = self.document.len();
        let same = doc_len == output.len() && self.document.range_equals(0, output);
        assert(same == (output@ == t)) by {
            if doc_len == output.len() {
                assert(t.subrange(0, output@.len() as int) =~= t);
            }
        }
        if same {
            return Ok(false);
        }
        proof {
            lemma_map_progress(cursor_targets(before), output@);
        }
        let old_bytes = crate::document::copy_bytes(self.document.bytes());
        let bytes = crate::document::copy_bytes(output);
        self.document.replace_text(bytes);
        let _ = self.document.set_cursor(mapped[0].byte, mapped[1].byte);
        let after = self.cursor_state();
        let mut steps: Vec<HistoryStep> = Vec::new();
        steps.push(HistoryStep::Snapshot { before: old_bytes, after: crate::document::copy_bytes(output) });
        let entry = HistoryEntry { steps, before, after };
        proof {
            lemma_snapshot_recorded(t, output@, stack_steps(self.undo_stack@));
            lemma_stack_push(self.undo_stack@, entry);
            assert(steps_view(entry.steps@) =~= seq![StepV::Snapshot { before: t, after: output@ }]);
        }
        self.undo_stack.push(entry);
        self.redo_stack.clear();
        assert(stack_steps(self.redo_stack@) =~= seq![]);
        self.dirty = true;
        Ok(true)
    }
}


/// Whether the matches lie in a text of `len` bytes, in order, none overlapping.
fn matches_valid(matches: &[SearchResult], len: usize) -> (r: bool)
    ensures
        r == matches_ok(matches@, len as int),
{
    let mut k: usize = 0;
    while k < matches.len()
        invariant
            0 <= k <= matches.len(),
            forall|i: int| 0 <= i < k ==> (#[trigger] matches@[i]).start <= matches@[i].end <= len,
            forall|i: int| 0 <= i < k - 1 ==> (#[trigger] matches@[i]).end <= matches@[i + 1].start,
        decreases matches.len() - k,
    {
        let m = matches[k];
        if m.start > m.end || m.end > len || (k > 0 && matches[k - 1].end > m.start) {
            proof {
                if k > 0 && matches@[k - 1].end > m.start {
                    assert(matches@[k - 1].end > matches@[(k - 1) + 1].start);
                } else {
                    assert(!(matches@[k as int].start <= matches@[k as int].end <= len));
                }
            }
            return false;
        }
        k = k + 1;
    }
    true
}

/// Bytes that the matches cover.
#[verifier::spinoff_prover]
#[verifier::rlimit(40)]
fn covered_len(matches: &[SearchResult], len: usize) -> (r: usize)
    requires
        matches_ok(matches@, len as int),
    ensures
        r == covered(matches@),
        r <= len,
{
    let ghost ms = matches@;
    proof {
        lemma_covered(ms, len as int);
    }
    let mut dels: usize = 0;
    let mut j: usize = 0;
    assert(ms.take(0) =~= Seq::<SearchResult>::empty());
    while j < matches.len()
        invariant
            0 <= j <= matches.len(),
            ms == matches@,
            matches_ok(ms, len as int),
            dels == covered(ms.take(j as int)),
            dels <= len,
        decreases matches.len() - j,
    {
        proof {
            assert(ms.take(j + 1).drop_last() =~= ms.take(j as int));
            assert(matches_ok(ms.take(j + 1), len as int)) by {
                let q = ms.take(j + 1);
                assert forall|i: int| 0 <= i < q.len() - 1 implies (#[trigger] q[i]).end <= q[i + 1].start by {
                    assert(q[i] == ms[i] && q[i + 1] == ms[i + 1]);
                }
            }
            lemma_covered(ms.take(j + 1), len as int);
            assert(ms.take(j + 1).last() == ms[j as int]);
        }
        dels = dels + (matches[j].end - matches[j].start);
        j = j + 1;
    }
    assert(ms.take(j as int) =~= ms);
    dels
}

/// The text with the matches replaced by `rb`, and where positions `p` and `a` go.
#[verifier::rlimit(80)]
#[verifier::spinoff_prover]
fn rebuild(bytes: &[u8], matches: &[SearchResult], rb: &[u8], p: usize, a: usize) -> (r: (Vec<u8>, usize, usize))
    requires
        matches_ok(matches@, bytes@.len() as int),
        p <= bytes@.len(),
        a <= bytes@.len(),
    ensures
        r.0@ == rebuilt(bytes@, matches@, rb@, 0),
        r.1 == mapped_through(p as int, matches@, rb@.len() as int, 0),
        r.2 == mapped_through(a as int, matches@, rb@.len() as int, 0),
        r.1 <= r.0@.len(),
        r.2 <= r.0@.len(),
{
    let ghost ms = matches@;
    let ghost t = bytes@;
    let len = bytes.len();
    let rl = rb.len();
    let before_position = p;
    let before_anchor = a;
    let mut out: Vec<u8> = Vec::new();
    let mut prev: usize = 0;
    let mut i: usize = 0;
    let mut position: Option<usize> = None;
    let mut anchor: Option<usize> = None;
    assert(ms.skip(0) =~= ms);
    assert(out@ + rebuilt(t, ms.skip(0), rb@, 0) =~= rebuilt(t, ms, rb@, 0));
    while i < matches.len()
        invariant
            0 <= i <= matches.len(),
            ms == matches@,
            t == bytes@,
            len == t.len(),
            rb@.len() == rl,
            matches_ok(ms, len as int),
            prev <= len,
            i > 0 ==> prev == ms[i - 1].end,
            i == 0 ==> prev == 0,
            i < ms.len() ==> prev <= ms[i as int].start,
            out@ + rebuilt(t, ms.skip(i as int), rb@, prev as int) == rebuilt(t, ms, rb@, 0),
            position is None ==> before_position >= prev && (i > 0 ==> before_position > prev)
                && mapped_through(before_position as int, ms, rl as int, 0)
                    == mapped_through(before_position as int, ms.skip(i as int), rl as int, out@.len() - prev),
            position matches Some(v) ==> v == mapped_through(before_position as int, ms, rl as int, 0) && v <= out@.len(),
            anchor is None ==> before_anchor >= prev && (i > 0 ==> before_anchor > prev)
                && mapped_through(before_anchor as int, ms, rl as int, 0)
                    == mapped_through(before_anchor as int, ms.skip(i as int), rl as int, out@.len() - prev),
            anchor matches Some(v) ==> v == mapped_through(before_anchor as int, ms, rl as int, 0) && v <= out@.len(),
            before_position <= len,
            before_anchor <= len,
        decreases matches.len() - i,
    {
        let m = matches[i];
        assert(ms.skip(i as int)[0] == m);
        assert(ms.skip(i as int).skip(1) =~= ms.skip(i + 1));
        let ghost out0 = out@;
        extend_range(&mut out, bytes, prev, m.start);
        if position.is_none() && before_position < m.start {
            position = Some(out.len() - (m.start - before_position));
        }
        if anchor.is_none() && before_anchor < m.start {
            anchor = Some(out.len() - (m.start - before_anchor));
        }
        let ghost out1 = out@;
        extend_range(&mut out, rb, 0, rl);
        assert(rb@.subrange(0, rl as int) =~= rb@);
        if position.is_none() && before_position <= m.end {
            position = Some(out.len());
        }
        if anchor.is_none() && before_anchor <= m.end {
            anchor = Some(out.len());
        }
        proof {
            assert(out@ + rebuilt(t, ms.skip(i + 1), rb@, m.end as int) =~= rebuilt(t, ms, rb@, 0)) by {
                assert(rebuilt(t, ms.skip(i as int), rb@, prev as int) == t.subrange(prev as int, m.start as int) + rb@
                    + rebuilt(t, ms.skip(i + 1), rb@, m.end as int));
            }
            if i + 1 < ms.len() {
                assert(ms[i as int].end <= ms[i + 1].start);
            }
        }
        prev = m.end;
        i = i + 1;
    }
    let ghost out2 = out@;
    extend_range(&mut out, bytes, prev, len);
    assert(ms.skip(i as int) =~= Seq::<SearchResult>::empty());
    assert(out@ =~= rebuilt(t, ms, rb@, 0));
    let position = match position {
        Some(v) => v,
        None => out.len() - (len - before_position),
    };
    let anchor = match anchor {
        Some(v) => v,
        None => out.len() - (len - before_anchor),
    };
    (out, position, anchor)
}

/// Appends `bytes[from..to]` to `out`.
fn extend_range(out: &mut Vec<u8>, bytes: &[u8], from: usize, to: usize)
    requires
        from <= to <= bytes.len(),
    ensures
        final(out)@ == old(out)@ + bytes@.subrange(from as int, to as int),
{
    let mut q = from;
    while q < to
        invariant
            from <= q <= to <= bytes.len(),
            out@ == old(out)@ + bytes@.subrange(from as int, q as int),
        decreases to - q,
    {
        out.push(bytes[q]);
        q = q + 1;
        assert(out@ =~= old(out)@ + bytes@.subrange(from as int, q as int));
    }
}

impl Editor {
    /// Replaces every match by `replacement` as one undo step; how many were
    /// replaced. `matches` are the search's matches: in order, none
    /// overlapping. The cursor and the anchor move with the text around them
    /// (see `mapped_through`).
    pub fn replace_all(&mut self, matches: &[SearchResult], replacement: &str) -> (r: Result<usize, String>)
        requires
            old(self).wf(),
        ensures
            final(self).wf(),
            final(self).read_only == old(self).read_only,
            final(self).emacs == old(self).emacs,
            ({
                let t = old(self).document@.text;
                let ms = matches@;
                let rb = encode_utf8(replacement@);
                let c = old(self).document@.cursor;
                if old(self).read_only {
                    r == Ok::<usize, String>(0) && *final(self) == *old(self)
                } else if !matches_ok(ms, t.len() as int) {
                    r matches Err(e) && e@ == "search returned an invalid replacement range"@ && *final(self) == *old(self)
                } else if ms.len() == 0 {
                    r == Ok::<usize, String>(0) && *final(self) == *old(self)
                } else if new_length(t.len() as int, ms, rb.len() as int) > usize::MAX {
                    r matches Err(e) && e@ == "replacement position overflow"@ && *final(self) == *old(self)
                } else {
                    let n = rebuilt(t, ms, rb, 0);
                    &&& r == Ok::<usize, String>(ms.len() as usize)
                    &&& final(self).document@.text == n
                    &&& final(self).document@.cursor == cursor_at(n, mapped_through(c.position as int, ms, rb.len() as int, 0),
                        mapped_through(c.anchor as int, ms, rb.len() as int, 0), None)
                    &&& stack_steps(final(self).undo_stack@) == stack_steps(old(self).undo_stack@).push(
                        seq![StepV::Snapshot { before: t, after: n }])
                    &&& one_snapshot(*old(self), *final(self))
                    &&& final(self).redo_stack@.len() == 0
                    &&& final(self).dirty
                }
            }),
    {
        if self.read_only {
            return Ok(0);
        }
        let len = self.document.len();
        if !matches_valid(matches, len) {
            return Err(crate::text::string_from("search returned an invalid replacement range"));
        }
        let ghost ms = matches@;
        if matches.len() == 0 {
            return Ok(0);
        }
        let rb = replacement.as_bytes();
        assert(rb@.len() == rb.len());
        let rl = rb.len();
        let dels = covered_len(matches, len);
        let inserted = match matches.len().checked_mul(rl) {
            Some(x) => x,
            None => {
                return Err(crate::text::string_from("replacement position overflow"));
            },
        };
        if inserted > usize::MAX - (len - dels) {
            return Err(crate::text::string_from("replacement position overflow"));
        }
        let ghost t = self.document@.text;
        let before = self.cursor_state();
        let bytes = self.document.bytes();
        let (out, position, anchor) = rebuild(bytes, matches, rb, before.position, before.anchor);
        let ghost n = out@;
        let old_bytes = crate::document::copy_bytes(bytes);
        let after_bytes = crate::document::copy_bytes(out.as_slice());
        self.document.replace_text(out);
        let _ = self.document.set_cursor(position, anchor);
        let after = self.cursor_state();
        let mut steps: Vec<HistoryStep> = Vec::new();
        steps.push(HistoryStep::Snapshot { before: old_bytes, after: after_bytes });
        let entry = HistoryEntry { steps, before, after };
        proof {
            lemma_snapshot_recorded(t, n, stack_steps(self.undo_stack@));
            lemma_stack_push(self.undo_stack@, entry);
            assert(steps_view(entry.steps@) =~= seq![StepV::Snapshot { before: t, after: n }]);
        }
        self.undo_stack.push(entry);
        self.redo_stack.clear();
        assert(stack_steps(self.redo_stack@) =~= seq![]);
        self.dirty = true;
        Ok(matches.len())
    }
}


/// Undoing the step recorded by replacing `[start, end)` of `t` by `r`
/// gives `t` back.
pub proof fn undo_of_replacement_restores(t: Seq<u8>, start: int, end: int, r: Seq<u8>)
    requires
        0 <= start <= end <= t.len(),
    ensures
        undo_steps(seq![change_step(t, start, end, r)], spliced(t, start, end, r)) == Some(t),
{
    lemma_change_recorded(t, start, end, r, seq![]);
}

/// A view of `source`'s text and revision whose caret and anchor keep
/// their places in the text (see `carried_position`).
pub open spec fn view_refreshed(view: DocV, source: DocV) -> DocV {
    DocV {
        text: source.text,
        cursor: cursor_at(
            source.text,
            crate::document::carried_position(view.text, source.text, view.cursor.position as int),
            crate::document::carried_position(view.text, source.text, view.cursor.anchor as int),
            view.cursor.desired_column,
        ),
        revision: source.revision,
        storage: view.storage,
    }
}

/// `e1` is `e0` with `[start, end)` of its text replaced by `r`, recorded as
/// one new undo entry that remembers `e0`'s cursor.
pub open spec fn one_change(e0: Editor, e1: Editor, start: int, end: int, r: Seq<u8>) -> bool {
    &&& 0 <= start <= end <= e0.document@.text.len()
    &&& e1.document@.text == spliced(e0.document@.text, start, end, r)
    &&& stack_steps(e1.undo_stack@) == stack_steps(e0.undo_stack@).push(seq![change_step(e0.document@.text, start, end, r)])
    &&& e1.undo_stack@.last().before == e0.document@.cursor
}

/// After any edit recorded as one change (as every edit of the editor
/// states), undo takes back exactly that entry: the newest entry undone on
/// the new text gives the old text, and the cursor it restores is the old
/// cursor (see `Editor::undo`).
pub proof fn undo_after_one_change(e0: Editor, e1: Editor, start: int, end: int, r: Seq<u8>)
    requires
        e0.wf(),
        one_change(e0, e1, start, end, r),
    ensures
        e1.undo_stack@.len() == e0.undo_stack@.len() + 1,
        undo_steps(steps_view(e1.undo_stack@.last().steps@), e1.document@.text) == Some(e0.document@.text),
        restored(e0.document@.text, e1.undo_stack@.last().before) == e0.document@.cursor,
{
    let s0 = stack_steps(e0.undo_stack@);
    let s1 = stack_steps(e1.undo_stack@);
    assert(s1.len() == s0.len() + 1);
    assert(s1[s1.len() - 1] == steps_view(e1.undo_stack@.last().steps@));
    undo_of_replacement_restores(e0.document@.text, start, end, r);
}

/// `e1` is `e0` with its whole text replaced, recorded as one new undo
/// entry holding both texts and `e0`'s cursor.
pub open spec fn one_snapshot(e0: Editor, e1: Editor) -> bool {
    &&& stack_steps(e1.undo_stack@) == stack_steps(e0.undo_stack@).push(
        seq![StepV::Snapshot { before: e0.document@.text, after: e1.document@.text }],
    )
    &&& e1.undo_stack@.last().before == e0.document@.cursor
}

/// After an edit recorded as one snapshot (formatting, replacing every
/// match), undo takes back exactly that entry: it gives the old text back,
/// and the cursor it restores is the old cursor (see `Editor::undo`).
pub proof fn undo_after_one_snapshot(e0: Editor, e1: Editor)
    requires
        e0.wf(),
        one_snapshot(e0, e1),
    ensures
        e1.undo_stack@.len() == e0.undo_stack@.len() + 1,
        undo_steps(steps_view(e1.undo_stack@.last().steps@), e1.document@.text) == Some(e0.document@.text),
        restored(e0.document@.text, e1.undo_stack@.last().before) == e0.document@.cursor,
{
    let s0 = stack_steps(e0.undo_stack@);
    let s1 = stack_steps(e1.undo_stack@);
    let step = seq![StepV::Snapshot { before: e0.document@.text, after: e1.document@.text }];
    assert(s1.len() == s0.len() + 1);
    assert(s1[s1.len() - 1] == steps_view(e1.undo_stack@.last().steps@));
    assert(s1[s1.len() - 1] == step);
    assert(step.skip(1) =~= Seq::<StepV>::empty());
    assert(undo_steps(step.skip(1), e1.document@.text) == Some(e1.document@.text));
    assert(undo_steps(step, e1.document@.text) == Some(e0.document@.text));
}

/// Undoing the newest entry of a history that matches `t`, then redoing
/// it, gives `t` back; what remains of the history matches the undone text.
pub proof fn undo_then_redo_restores(t: Seq<u8>, undo: Seq<Seq<StepV>>)
    requires
        history_ok(t, undo),
        undo.len() > 0,
    ensures
        undo_steps(undo.last(), t) is Some,
        redo_steps(undo.last(), undo_steps(undo.last(), t).unwrap()) == Some(t),
        history_ok(undo_steps(undo.last(), t).unwrap(), undo.drop_last()),
        future_ok(undo_steps(undo.last(), t).unwrap(), seq![undo.last()]),
{
    lemma_steps_done(undo.last(), t);
    let u = undo_steps(undo.last(), t).unwrap();
    let one = seq![undo.last()];
    assert(one.drop_last() =~= Seq::<Seq<StepV>>::empty());
    assert(one.last() == undo.last());
    assert(redo_steps(one.last(), u) == Some(t));
    assert(future_ok(t, one.drop_last()));
}

/// Redoing the newest undone entry of a redo stack that matches `t`, then
/// undoing it, gives `t` back.
pub proof fn redo_then_undo_restores(t: Seq<u8>, redo: Seq<Seq<StepV>>)
    requires
        future_ok(t, redo),
        redo.len() > 0,
    ensures
        redo_steps(redo.last(), t) is Some,
        undo_steps(redo.last(), redo_steps(redo.last(), t).unwrap()) == Some(t),
        future_ok(redo_steps(redo.last(), t).unwrap(), redo.drop_last()),
{
    lemma_steps_undone(redo.last(), t);
}


/// The document after moving left: to the start of the selection, or one
/// character left.
pub open spec fn moved_left(d: DocV) -> DocV {
    let c = d.cursor;
    let p = if c.position != c.anchor {
        if c.position < c.anchor { c.position as int } else { c.anchor as int }
    } else if c.position > 0 {
        previous_boundary(d.text, c.position as int)
    } else {
        0
    };
    DocV { cursor: cursor_at(d.text, p, p, None), ..d }
}

/// The document after moving right: to the end of the selection, or one
/// character right.
pub open spec fn moved_right(d: DocV) -> DocV {
    let c = d.cursor;
    let p = if c.position != c.anchor {
        if c.position < c.anchor { c.anchor as int } else { c.position as int }
    } else if c.position < d.text.len() {
        next_boundary(d.text, c.position as int)
    } else {
        d.text.len() as int
    };
    DocV { cursor: cursor_at(d.text, p, p, None), ..d }
}

/// The document after moving up (or down) a line, keeping the column;
/// `select` keeps the anchor.
pub open spec fn moved_vertically(d: DocV, down: bool, select: bool) -> DocV {
    let (p, col) = if down { down_target(d.text, d.cursor) } else { up_target(d.text, d.cursor) };
    DocV { cursor: cursor_at(d.text, p, if select { d.cursor.anchor as int } else { p }, Some(col as usize)), ..d }
}

/// The document after Home (or End): to the start (end) of the line, from
/// the start (end) of the selection.
pub open spec fn moved_to_edge(d: DocV, end: bool) -> DocV {
    let c = d.cursor;
    let from = if c.position != c.anchor {
        if end {
            if c.position < c.anchor { c.anchor as int } else { c.position as int }
        } else {
            if c.position < c.anchor { c.position as int } else { c.anchor as int }
        }
    } else {
        c.position as int
    };
    let p = if end { line_end(d.text, from) } else { line_start(d.text, from) };
    DocV { cursor: cursor_at(d.text, p, p, None), ..d }
}

/// The document after extending the selection one character.
pub open spec fn selected_by_one(d: DocV, right: bool) -> DocV {
    let c = d.cursor;
    if right && c.position < d.text.len() {
        DocV { cursor: cursor_at(d.text, next_boundary(d.text, c.position as int), c.anchor as int, None), ..d }
    } else if !right && c.position > 0 {
        DocV { cursor: cursor_at(d.text, previous_boundary(d.text, c.position as int), c.anchor as int, None), ..d }
    } else {
        d
    }
}

/// Tab types exactly `tab_width` space characters when the configuration
/// asks for spaces, and exactly one tab character when it does not.
pub proof fn tab_types_spaces_or_one_tab(config: EditorConfig)
    ensures
        config.insert_spaces ==> tab_text(config).len() == config.tab_width && forall|i: int|
            0 <= i < config.tab_width ==> #[trigger] tab_text(config)[i] == ' ',
        !config.insert_spaces ==> tab_text(config).len() == 1 && tab_text(config)[0] == '\t',
{
}

/// Left and Right with a selection collapse it to its start and its end;
/// without one they move one character (not past the ends of the text).
/// The text stays as it is.
pub proof fn left_and_right_collapse_the_selection(d: DocV)
    requires
        crate::document::cursor_ok(d.text, d.cursor),
        d.text.len() <= usize::MAX,
    ensures
        moved_left(d).text == d.text,
        moved_right(d).text == d.text,
        moved_left(d).cursor.position == moved_left(d).cursor.anchor,
        moved_right(d).cursor.position == moved_right(d).cursor.anchor,
        d.cursor.position != d.cursor.anchor ==> moved_left(d).cursor.position == if d.cursor.position
            < d.cursor.anchor {
            d.cursor.position
        } else {
            d.cursor.anchor
        },
        d.cursor.position != d.cursor.anchor ==> moved_right(d).cursor.position == if d.cursor.position
            < d.cursor.anchor {
            d.cursor.anchor
        } else {
            d.cursor.position
        },
        d.cursor.position == d.cursor.anchor && d.cursor.position > 0 ==> moved_left(d).cursor.position
            < d.cursor.position,
        d.cursor.position == d.cursor.anchor && d.cursor.position == 0 ==> moved_left(d).cursor.position == 0,
        d.cursor.position == d.cursor.anchor && d.cursor.position < d.text.len() ==> d.cursor.position
            < moved_right(d).cursor.position <= d.text.len(),
        d.cursor.position == d.cursor.anchor && d.cursor.position == d.text.len()
            ==> moved_right(d).cursor.position == d.text.len(),
{
    let c = d.cursor;
    if c.position == c.anchor && c.position > 0 {
        crate::document::lemma_previous_boundary(d.text, c.position as int);
    }
    if c.position == c.anchor && c.position < d.text.len() {
        crate::document::lemma_next_boundary(d.text, c.position as int);
    }
}

/// What Tab types: `tab_width` spaces, or a tab character.
pub open spec fn tab_text(config: EditorConfig) -> Seq<char> {
    if config.insert_spaces {
        Seq::new(config.tab_width as nat, |i: int| ' ')
    } else {
        seq!['\t']
    }
}

impl Editor {
    /// Moves the caret only: the text, history and flags stay.
    pub open spec fn only_cursor_moved(&self, old: &Self) -> bool {
        &&& self.document@.text == old.document@.text
        &&& self.document@.revision == old.document@.revision
        &&& self.document@.storage == old.document@.storage
        &&& self.undo_stack@ == old.undo_stack@
        &&& self.redo_stack@ == old.redo_stack@
        &&& self.dirty == old.dirty
        &&& self.read_only == old.read_only
        &&& self.emacs == old.emacs
        &&& self.path == old.path
        &&& self.config == old.config
    }

    pub fn move_left(&mut self) -> (r: Result<(), String>)
        requires
            old(self).wf(),
        ensures
            r is Ok,
            final(self).wf(),
            final(self).only_cursor_moved(old(self)),
            final(self).document@ == moved_left(old(self).document@),
    {
        if self.document.has_selection() {
            let start = self.document.selection_start();
            return self.document.move_cursor(start);
        }
        self.document.cursor_left()
    }

    pub fn move_right(&mut self) -> (r: Result<(), String>)
        requires
            old(self).wf(),
        ensures
            r is Ok,
            final(self).wf(),
            final(self).only_cursor_moved(old(self)),
            final(self).document@ == moved_right(old(self).document@),
    {
        if self.document.has_selection() {
            let end = self.document.selection_end();
            return self.document.move_cursor(end);
        }
        self.document.cursor_right()
    }

    pub fn move_up(&mut self) -> (r: Result<(), String>)
        requires
            old(self).wf(),
        ensures
            r is Ok,
            final(self).wf(),
            final(self).only_cursor_moved(old(self)),
            final(self).document@ == moved_vertically(old(self).document@, false, false),
    {
        self.document.move_up(false);
        Ok(())
    }

    pub fn move_down(&mut self) -> (r: Result<(), String>)
        requires
            old(self).wf(),
        ensures
            r is Ok,
            final(self).wf(),
            final(self).only_cursor_moved(old(self)),
            final(self).document@ == moved_vertically(old(self).document@, true, false),
    {
        self.document.move_down(false);
        Ok(())
    }

    pub fn select_up(&mut self) -> (r: Result<(), String>)
        requires
            old(self).wf(),
        ensures
            r is Ok,
            final(self).wf(),
            final(self).only_cursor_moved(old(self)),
            final(self).document@ == moved_vertically(old(self).document@, false, true),
    {
        self.document.move_up(true);
        Ok(())
    }

    pub fn select_down(&mut self) -> (r: Result<(), String>)
        requires
            old(self).wf(),
        ensures
            r is Ok,
            final(self).wf(),
            final(self).only_cursor_moved(old(self)),
            final(self).document@ == moved_vertically(old(self).document@, true, true),
    {
        self.document.move_down(true);
        Ok(())
    }

    pub fn select_left(&mut self) -> (r: Result<(), String>)
        requires
            old(self).wf(),
        ensures
            r is Ok,
            final(self).wf(),
            final(self).only_cursor_moved(old(self)),
            final(self).document@ == selected_by_one(old(self).document@, false),
    {
        self.document.select_left()
    }

    pub fn select_right(&mut self) -> (r: Result<(), String>)
        requires
            old(self).wf(),
        ensures
            r is Ok,
            final(self).wf(),
            final(self).only_cursor_moved(old(self)),
            final(self).document@ == selected_by_one(old(self).document@, true),
    {
        self.document.select_right()
    }

    /// Home: the start of the line (from the start of a selection).
    pub fn home(&mut self) -> (r: Result<(), String>)
        requires
            old(self).wf(),
        ensures
            r is Ok,
            final(self).wf(),
            final(self).only_cursor_moved(old(self)),
            final(self).document@ == moved_to_edge(old(self).document@, false),
    {
        if self.document.has_selection() {
            let start = self.document.selection_start();
            let _ = self.document.move_cursor(start);
        }
        self.document.move_home(false);
        Ok(())
    }

    /// End: the end of the line (from the end of a selection).
    pub fn end(&mut self) -> (r: Result<(), String>)
        requires
            old(self).wf(),
        ensures
            r is Ok,
            final(self).wf(),
            final(self).only_cursor_moved(old(self)),
            final(self).document@ == moved_to_edge(old(self).document@, true),
    {
        if self.document.has_selection() {
            let end = self.document.selection_end();
            let _ = self.document.move_cursor(end);
        }
        self.document.move_end(false);
        Ok(())
    }

    /// Types a line break.
    pub fn newline(&mut self) -> (r: Result<(), String>)
        requires
            old(self).wf(),
        ensures
            final(self).wf(),
            final(self).path == old(self).path,
            final(self).config == old(self).config,
            final(self).read_only == old(self).read_only,
            old(self).read_only ==> r is Ok && *final(self) == *old(self),
            !old(self).read_only ==> {
                let c = old(self).document@.cursor;
                let start = if c.position < c.anchor { c.position } else { c.anchor };
                let end = if c.position < c.anchor { c.anchor } else { c.position };
                let t = old(self).document@.text;
                &&& (replacement_fits(t, start as int, end as int, seq![10u8]) ==> r is Ok
                    && final(self).document@.text == replaced(t, start as int, end as int, seq![10u8]))
                &&& (!replacement_fits(t, start as int, end as int, seq![10u8]) ==> r is Err)
            },
    {
        proof {
            reveal_strlit("\n");
            assert(encode_utf8("\n"@) =~= seq![10u8]) by {
                assert(encode_utf8("\n"@) == vstd::utf8::encode_scalar('\n' as u32) + encode_utf8("\n"@.drop_first()));
                assert("\n"@.drop_first() =~= Seq::<char>::empty());
                assert((10u32 & 0x7F) as u8 == 10u8) by (bit_vector);
            }
        }
        self.insert_text("\n")
    }

    /// Types a tab: `tab_width` spaces, or a tab character.
    pub fn insert_tab(&mut self) -> (r: Result<(), String>)
        requires
            old(self).wf(),
        ensures
            final(self).wf(),
            final(self).path == old(self).path,
            final(self).config == old(self).config,
            final(self).read_only == old(self).read_only,
            tab_text(old(self).config).len() == 0 || old(self).read_only ==> r is Ok && *final(self) == *old(self),
            tab_text(old(self).config).len() > 0 && !old(self).read_only ==> {
                let c = old(self).document@.cursor;
                let start = if c.position < c.anchor { c.position } else { c.anchor };
                let end = if c.position < c.anchor { c.anchor } else { c.position };
                let t = old(self).document@.text;
                let rb = encode_utf8(tab_text(old(self).config));
                &&& (replacement_fits(t, start as int, end as int, rb) ==> r is Ok
                    && final(self).document@.text == replaced(t, start as int, end as int, rb))
                &&& (!replacement_fits(t, start as int, end as int, rb) ==> r is Err)
            },
    {
        if self.config.insert_spaces {
            let mut spaces: Vec<char> = Vec::new();
            let mut i: usize = 0;
            while i < self.config.tab_width
                invariant
                    0 <= i <= self.config.tab_width,
                    spaces@ == Seq::new(i as nat, |k: int| ' '),
                decreases self.config.tab_width - i,
            {
                spaces.push(' ');
                i = i + 1;
                assert(spaces@ =~= Seq::new(i as nat, |k: int| ' '));
            }
            let text = crate::text::string_of(spaces.as_slice());
            self.insert_text(text.as_str())
        } else {
            proof {
                reveal_strlit("\t");
            }
            assert("\t"@ =~= seq!['\t']);
            self.insert_text("\t")
        }
    }

    /// Runs an editing or movement command. Save, Quit and the clipboard
    /// commands are carried out by the caller and change nothing here.
    pub fn execute(&mut self, command: Command) -> (r: Result<(), String>)
        requires
            old(self).wf(),
        ensures
            final(self).wf(),
            final(self).path == old(self).path,
            final(self).config == old(self).config,
            final(self).read_only == old(self).read_only,
            command is Quit || command is Save || command is Copy || command is Cut || command is Paste
                ==> r is Ok && *final(self) == *old(self),
            command is MoveLeft ==> final(self).document@ == moved_left(old(self).document@),
            command is MoveRight ==> final(self).document@ == moved_right(old(self).document@),
            command is MoveUp ==> final(self).document@ == moved_vertically(old(self).document@, false, false),
            command is MoveDown ==> final(self).document@ == moved_vertically(old(self).document@, true, false),
            command is SelectUp ==> final(self).document@ == moved_vertically(old(self).document@, false, true),
            command is SelectDown ==> final(self).document@ == moved_vertically(old(self).document@, true, true),
            command is SelectLeft ==> final(self).document@ == selected_by_one(old(self).document@, false),
            command is SelectRight ==> final(self).document@ == selected_by_one(old(self).document@, true),
            command is Home ==> final(self).document@ == moved_to_edge(old(self).document@, false),
            command is End ==> final(self).document@ == moved_to_edge(old(self).document@, true),
            command is Undo && old(self).undo_stack@.len() > 0 && !old(self).read_only ==> r is Ok
                && final(self).document@.text == undo_steps(steps_view(old(self).undo_stack@.last().steps@),
                    old(self).document@.text).unwrap(),
            command is Redo && old(self).redo_stack@.len() > 0 && !old(self).read_only ==> r is Ok
                && final(self).document@.text == redo_steps(steps_view(old(self).redo_stack@.last().steps@),
                    old(self).document@.text).unwrap(),
    {
        match command {
            Command::MoveLeft => self.move_left(),
            Command::MoveRight => self.move_right(),
            Command::MoveUp => self.move_up(),
            Command::MoveDown => self.move_down(),
            Command::SelectLeft => self.select_left(),
            Command::SelectRight => self.select_right(),
            Command::SelectUp => self.select_up(),
            Command::SelectDown => self.select_down(),
            Command::Home => self.home(),
            Command::End => self.end(),
            Command::Delete => self.delete(),
            Command::Backspace => self.backspace(),
            Command::Newline => self.newline(),
            Command::InsertTab => self.insert_tab(),
            Command::Undo => {
                proof {
                    if self.undo_stack@.len() > 0 {
                        lemma_stack_pop(self.undo_stack@);
                        lemma_steps_done(stack_steps(self.undo_stack@).last(), self.document@.text);
                    }
                }
                self.undo()
            },
            Command::Redo => {
                proof {
                    if self.redo_stack@.len() > 0 {
                        lemma_stack_pop(self.redo_stack@);
                        lemma_steps_undone(stack_steps(self.redo_stack@).last(), self.document@.text);
                    }
                }
                self.redo()
            },
            Command::Quit | Command::Save | Command::Copy | Command::Cut | Command::Paste => Ok(()),
        }
    }
}

/// How a document is to be formatted: by the built-in indenter or by
/// configured provider `k`.
#[derive(Clone, Copy, Debug, PartialEq, Eq, Structural)]
pub enum FormatPlan {
    Builtin,
    Provider(usize),
}

impl Editor {
    /// Puts a freshly opened or created document in the editor, named
    /// `path`: no history, nothing pending, clean and editable.
    pub fn load(&mut self, document: Document, path: Option<String>)
        requires
            document.wf(),
        ensures
            final(self).wf(),
            final(self).document@ == document@,
            final(self).path == path,
            final(self).config == old(self).config,
            final(self).emacs == initial_state(),
            final(self).undo_stack@.len() == 0,
            final(self).redo_stack@.len() == 0,
            !final(self).dirty,
            !final(self).read_only,
    {
        self.document = document;
        self.emacs = State::new();
        self.path = path;
        self.undo_stack = Vec::new();
        self.redo_stack = Vec::new();
        self.dirty = false;
        self.read_only = false;
        assert(stack_steps(self.undo_stack@) =~= seq![]);
        assert(stack_steps(self.redo_stack@) =~= seq![]);
    }

    /// Why a new document cannot replace this one: unsaved changes, or an
    /// empty path.
    pub fn new_document_allowed(&self, path: Option<&str>) -> (r: Result<(), String>)
        ensures
            self.dirty ==> (r matches Err(e) && e@ == "Save the current document before creating a new file"@),
            !self.dirty && (path matches Some(p) && p@.len() == 0) ==> (r matches Err(e) && e@ == "Enter a file path"@),
            !self.dirty && !(path matches Some(p) && p@.len() == 0) ==> r is Ok,
    {
        if self.dirty {
            return Err(crate::text::string_from("Save the current document before creating a new file"));
        }
        match path {
            Some(p) => if crate::text::chars_of(p).len() == 0 {
                return Err(crate::text::string_from("Enter a file path"));
            },
            None => {},
        }
        Ok(())
    }

    /// Replaces the document by a new, empty one named `path` (which the
    /// caller has created), when `new_document_allowed` allows it.
    pub fn new_document(&mut self, path: Option<&str>) -> (r: Result<(), String>)
        requires
            old(self).wf(),
        ensures
            final(self).wf(),
            new_document_ok(old(self).dirty, path) ==> r is Ok && final(self).document@.text.len() == 0
                && crate::formatting::positions::opt_chars(final(self).path) == str_option(path)
                && final(self).undo_stack@.len() == 0 && final(self).redo_stack@.len() == 0
                && !final(self).dirty && !final(self).read_only && final(self).emacs == initial_state()
                && final(self).config == old(self).config,
            !new_document_ok(old(self).dirty, path) ==> r is Err && *final(self) == *old(self),
    {
        match self.new_document_allowed(path) {
            Err(e) => Err(e),
            Ok(()) => {
                let name = match path {
                    Some(p) => Some(crate::text::string_from(p)),
                    None => None,
                };
                self.load(Document::empty(), name);
                Ok(())
            },
        }
    }

    /// Why the document cannot be saved: a read-only view.
    pub fn save_allowed(&self) -> (r: Result<(), String>)
        ensures
            self.read_only <==> (r matches Err(e) && e@ == "This file is open for viewing"@),
            !self.read_only <==> r is Ok,
    {
        if self.read_only {
            return Err(crate::text::string_from("This file is open for viewing"));
        }
        Ok(())
    }

    /// Why the document cannot be saved under `path`: a read-only view, or
    /// an empty path.
    pub fn save_as_allowed(&self, path: &str) -> (r: Result<(), String>)
        ensures
            self.read_only ==> (r matches Err(e) && e@ == "This file is open for viewing"@),
            !self.read_only && path@.len() == 0 ==> (r matches Err(e) && e@ == "Enter a destination path"@),
            !self.read_only && path@.len() > 0 ==> r is Ok,
    {
        if self.read_only {
            return Err(crate::text::string_from("This file is open for viewing"));
        }
        if crate::text::chars_of(path).len() == 0 {
            return Err(crate::text::string_from("Enter a destination path"));
        }
        Ok(())
    }

    /// The document was written to `path`: it is named so and clean.
    pub fn saved_as(&mut self, path: String)
        requires
            old(self).wf(),
        ensures
            final(self).wf(),
            final(self).path == Some(path),
            !final(self).dirty,
            final(self).document@ == old(self).document@,
            final(self).read_only == old(self).read_only,
            final(self).config == old(self).config,
    {
        self.path = Some(path);
        self.dirty = false;
    }

    /// Why recovered work cannot replace this document: unsaved changes.
    pub fn recover_allowed(&self) -> (r: Result<(), String>)
        ensures
            self.dirty <==> (r matches Err(e)
                && e@ == "Save the current document before opening recovered work, or switch to an empty pane"@),
            !self.dirty <==> r is Ok,
    {
        if self.dirty {
            return Err(crate::text::string_from(
                "Save the current document before opening recovered work, or switch to an empty pane",
            ));
        }
        Ok(())
    }

    /// Why the document cannot be formatted: a read-only view, or more
    /// than 2 MiB.
    pub fn format_allowed(&self) -> (r: Result<(), String>)
        ensures
            self.read_only ==> (r matches Err(e) && e@ == "This file is open for viewing"@),
            !self.read_only && self.document@.text.len() > crate::formatting::builtin::MAX_INPUT_BYTES
                ==> (r matches Err(e) && e@ == "Formatting is limited to documents up to 2 MiB"@),
            !self.read_only && self.document@.text.len() <= crate::formatting::builtin::MAX_INPUT_BYTES ==> r is Ok,
    {
        if self.read_only {
            return Err(crate::text::string_from("This file is open for viewing"));
        }
        if self.document.len() > crate::formatting::builtin::MAX_INPUT_BYTES {
            return Err(crate::text::string_from("Formatting is limited to documents up to 2 MiB"));
        }
        Ok(())
    }

    /// Whether the built-in indenter is asked for without consulting the
    /// configuration: by name, or for an unnamed document with no name
    /// given.
    pub fn formats_builtin(&self, name: Option<&str>) -> (r: bool)
        ensures
            r == ((name matches Some(n) && n@ == "builtin"@) || (name is None && self.path is None)),
    {
        match name {
            Some(n) => crate::text::eq_str(crate::text::chars_of(n).as_slice(), "builtin"),
            None => self.path.is_none(),
        }
    }
}

/// Whether a new document may replace one (see `new_document_allowed`).
pub open spec fn new_document_ok(dirty: bool, path: Option<&str>) -> bool {
    !dirty && !(path matches Some(p) && p@.len() == 0)
}

pub open spec fn str_option(s: Option<&str>) -> Option<Seq<char>> {
    match s {
        Some(v) => Some(v@),
        None => None,
    }
}

/// Which formatter a document gets once the configuration is read: the
/// provider selected (see `Formatters::select`), or, when none was named
/// and none could be selected, the built-in indenter.
pub fn choose_formatter(formatters: &crate::formatting::providers::Formatters, file: Option<&crate::formatting::providers::FileInfo>,
    name: Option<&str>, available: &[bool]) -> (r: Result<FormatPlan, String>)
    ensures
        match crate::formatting::providers::selection(formatters@, available@, crate::formatting::providers::file_view(file), str_option(name)) {
            Ok(k) => r == Ok::<FormatPlan, String>(FormatPlan::Provider(k as usize)),
            Err(m) => if name is None {
                r == Ok::<FormatPlan, String>(FormatPlan::Builtin)
            } else {
                r matches Err(e) && e@ == m
            },
        },
{
    match formatters.select(file, name, available) {
        Ok(k) => Ok(FormatPlan::Provider(k)),
        Err(e) => if name.is_none() {
            Ok(FormatPlan::Builtin)
        } else {
            Err(e)
        },
    }
}

/// Where a position of the text before a replacement pass lands, watched
/// while the passes over matches run: unmapped so far, a position before
/// the current match stays (shifted by what earlier matches added and
/// removed); one inside the match moves to the end of its replacement;
/// one after it waits for a later match.
pub open spec fn observed(position: int, mapped: Option<usize>, range: SearchResult, added_before: int,
    removed_before: int, replacement_length: int) -> Result<Option<int>, ()> {
    match mapped {
        Some(m) => Ok(Some(m as int)),
        None => {
            let base = if position < range.start {
                Some(position)
            } else if position <= range.end {
                Some(range.start + replacement_length)
            } else {
                None
            };
            match base {
                None => Ok(None),
                Some(b) => if b > usize::MAX || b + added_before > usize::MAX || b + added_before - removed_before < 0 {
                    Err(())
                } else {
                    Ok(Some(b + added_before - removed_before))
                },
            }
        },
    }
}

impl Editor {
    /// One step of mapping a position through a replacement pass (see
    /// `observed`); overflow is refused.
    pub fn observe_position_change(position: usize, mapped: &mut Option<usize>, range: SearchResult, added_before: usize,
        removed_before: usize, replacement_length: usize) -> (r: Result<(), String>)
        ensures
            match observed(position as int, *old(mapped), range, added_before as int, removed_before as int, replacement_length as int) {
                Ok(Some(p)) => r is Ok && *final(mapped) == Some(p as usize),
                Ok(None) => r is Ok && *final(mapped) is None,
                Err(()) => r matches Err(e) && e@ == "mapped replacement position overflow"@,
            },
    {
        if mapped.is_some() {
            return Ok(());
        }
        let base = if position < range.start {
            position
        } else if position <= range.end {
            if replacement_length > usize::MAX - range.start {
                return Err(crate::text::string_from("mapped replacement position overflow"));
            }
            range.start + replacement_length
        } else {
            return Ok(());
        };
        if added_before > usize::MAX - base || base + added_before < removed_before {
            return Err(crate::text::string_from("mapped replacement position overflow"));
        }
        *mapped = Some(base + added_before - removed_before);
        Ok(())
    }

    /// Where a position lands after all passes: where it was mapped, or
    /// shifted by what all matches before it added and removed.
    pub fn finish_position_mapping(position: usize, mapped: Option<usize>, added_before: usize, removed_before: usize) -> (r: Result<usize, String>)
        ensures
            match mapped {
                Some(m) => r == Ok::<usize, String>(m),
                None => if position + added_before > usize::MAX || position + added_before < removed_before {
                    r matches Err(e) && e@ == "mapped replacement position overflow"@
                } else {
                    r == Ok::<usize, String>((position + added_before - removed_before) as usize)
                },
            },
    {
        match mapped {
            Some(m) => Ok(m),
            None => {
                if added_before > usize::MAX - position || position + added_before < removed_before {
                    return Err(crate::text::string_from("mapped replacement position overflow"));
                }
                Ok(position + added_before - removed_before)
            },
        }
    }
}

/// The status line after formatting with `name`.
pub fn format_status(name: &str, changed: bool) -> (r: String)
    ensures
        r@ == if changed {
            "Formatted with "@ + name@ + "; Ctrl+Z undoes the change"@
        } else {
            "Already formatted ("@ + name@ + ")"@
        },
{
    let mut m = if changed { crate::text::chars_of("Formatted with ") } else { crate::text::chars_of("Already formatted (") };
    crate::text::extend_chars(&mut m, crate::text::chars_of(name).as_slice());
    if changed {
        crate::text::push_str(&mut m, "; Ctrl+Z undoes the change");
    } else {
        crate::text::push_str(&mut m, ")");
    }
    crate::text::string_of(m.as_slice())
}

impl Editor {
    /// Switches keyboard scheme: the Emacs state is dropped, and for Vim the
    /// selection collapses onto the cursor.
    pub fn apply_keybinding_mode(&mut self, mode: crate::config::KeybindingMode)
        requires
            old(self).wf(),
        ensures
            final(self).wf(),
            final(self).emacs == initial_state(),
            final(self).document@ == if mode == crate::config::KeybindingMode::Vim {
                DocV {
                    cursor: cursor_at(old(self).document@.text, old(self).document@.cursor.position as int,
                        old(self).document@.cursor.position as int, old(self).document@.cursor.desired_column),
                    ..old(self).document@
                }
            } else {
                old(self).document@
            },
            final(self).undo_stack@ == old(self).undo_stack@,
            final(self).redo_stack@ == old(self).redo_stack@,
            final(self).path == old(self).path,
            final(self).config == old(self).config,
            final(self).dirty == old(self).dirty,
            final(self).read_only == old(self).read_only,
    {
        self.emacs = State::new();
        match mode {
            crate::config::KeybindingMode::Vim => {
                let c = self.document.cursor();
                let _ = self.document.set_cursor_desired(c.position, c.position, c.desired_column);
            },
            _ => {},
        }
    }
}

} // verus!
