//! The edited text: UTF-8 bytes with a cursor and a selection anchor, each
//! at a byte position together with its line and column.
use vstd::prelude::*;
use vstd::utf8::{encode_utf8, is_continuation_byte, valid_utf8};

verus! {

/// A caret and the anchor of its selection, as byte positions with their
/// zero-based lines and columns (columns count characters).
#[derive(Clone, Copy, Debug, PartialEq, Eq)]
pub struct Cursor {
    pub position: usize,
    pub line: usize,
    pub column: usize,
    pub desired_column: Option<usize>,
    pub anchor: usize,
    pub anchor_line: usize,
    pub anchor_column: usize,
}

/// Line and column reached after the bytes of `t`: a newline starts a new
/// line, every byte that starts a character advances the column.
pub open spec fn line_col(t: Seq<u8>) -> (nat, nat)
    decreases t.len(),
{
    if t.len() == 0 {
        (0, 0)
    } else {
        let (l, c) = line_col(t.drop_last());
        if t.last() == 10 {
            (l + 1, 0)
        } else if is_continuation_byte(t.last()) {
            (l, c)
        } else {
            (l, c + 1)
        }
    }
}

pub proof fn lemma_line_col_bound(t: Seq<u8>)
    ensures
        line_col(t).0 <= t.len(),
        line_col(t).1 <= t.len(),
    decreases t.len(),
{
    if t.len() > 0 {
        lemma_line_col_bound(t.drop_last());
    }
}

/// Number of lines of `t`: one more than its newlines.
pub open spec fn lines_in(t: Seq<u8>) -> nat {
    line_col(t).0 + 1
}

/// Whether `p` is where zero-based line `n` of `t` starts.
pub open spec fn is_line_start(t: Seq<u8>, p: int, n: nat) -> bool {
    &&& 0 <= p <= t.len()
    &&& (p == 0 || t[p - 1] == 10)
    &&& line_col(t.take(p)).0 == n
}

/// A line that starts in the text is one of its lines.
pub proof fn lemma_line_start_in_text(t: Seq<u8>, p: int, n: nat)
    requires
        is_line_start(t, p, n),
    ensures
        n <= line_col(t).0,
{
    lemma_line_count_grows(t, p, t.len() as int);
    assert(t.take(t.len() as int) =~= t);
}

proof fn lemma_line_count_grows(t: Seq<u8>, a: int, b: int)
    requires
        0 <= a <= b <= t.len(),
    ensures
        line_col(t.take(a)).0 <= line_col(t.take(b)).0,
    decreases b - a,
{
    if a < b {
        lemma_line_count_grows(t, a, b - 1);
        assert(t.take(b).drop_last() =~= t.take(b - 1));
    }
}

/// The cursor with caret at `position` and anchor at `anchor` in text `t`.
pub open spec fn cursor_at(t: Seq<u8>, position: int, anchor: int, desired: Option<usize>) -> Cursor {
    Cursor {
        position: position as usize,
        line: line_col(t.take(position)).0 as usize,
        column: line_col(t.take(position)).1 as usize,
        desired_column: desired,
        anchor: anchor as usize,
        anchor_line: line_col(t.take(anchor)).0 as usize,
        anchor_column: line_col(t.take(anchor)).1 as usize,
    }
}

/// Whether `c` lies in text `t` with lines and columns that match its positions.
pub open spec fn cursor_ok(t: Seq<u8>, c: Cursor) -> bool {
    &&& c.position <= t.len()
    &&& c.anchor <= t.len()
    &&& c == cursor_at(t, c.position as int, c.anchor as int, c.desired_column)
}

/// The first character boundary after `p` (the end of the character at `p`).
pub open spec fn next_boundary(t: Seq<u8>, p: int) -> int
    decreases t.len() - p,
{
    if p + 1 >= t.len() || p + 1 < 0 || !is_continuation_byte(t[p + 1]) {
        if p + 1 < t.len() { p + 1 } else { t.len() as int }
    } else {
        next_boundary(t, p + 1)
    }
}

/// The last character boundary before `p` (the start of the character before `p`).
pub open spec fn previous_boundary(t: Seq<u8>, p: int) -> int
    decreases p,
{
    if p <= 1 || !is_continuation_byte(t[p - 1]) {
        if p >= 1 { p - 1 } else { 0 }
    } else {
        previous_boundary(t, p - 1)
    }
}

pub proof fn lemma_next_boundary(t: Seq<u8>, p: int)
    requires
        0 <= p < t.len(),
    ensures
        p < next_boundary(t, p) <= t.len(),
    decreases t.len() - p,
{
    if !(p + 1 >= t.len() || !is_continuation_byte(t[p + 1])) {
        lemma_next_boundary(t, p + 1);
    }
}

pub proof fn lemma_previous_boundary(t: Seq<u8>, p: int)
    requires
        0 < p <= t.len(),
    ensures
        0 <= previous_boundary(t, p) < p,
    decreases p,
{
    if !(p <= 1 || !is_continuation_byte(t[p - 1])) {
        lemma_previous_boundary(t, p - 1);
    }
}

/// Start of the line that holds position `p`.
pub open spec fn line_start(t: Seq<u8>, p: int) -> int
    decreases p,
{
    if p <= 0 || p > t.len() || t[p - 1] == 10 {
        if p < 0 { 0 } else { p }
    } else {
        line_start(t, p - 1)
    }
}

/// End of the line that holds position `p` (the position of its newline,
/// or the end of the text).
pub open spec fn line_end(t: Seq<u8>, p: int) -> int
    decreases t.len() - p,
{
    if p >= t.len() || p < 0 || t[p] == 10 {
        p
    } else {
        line_end(t, p + 1)
    }
}

/// The position `col` characters after `q`, stopping at the end of its line.
pub open spec fn column_offset(t: Seq<u8>, q: int, col: nat) -> int
    decreases t.len() - q,
{
    if col == 0 || q >= t.len() || q < 0 || t[q] == 10 {
        q
    } else {
        proof {
            lemma_next_boundary(t, q);
        }
        column_offset(t, next_boundary(t, q), (col - 1) as nat)
    }
}

pub proof fn lemma_line_start(t: Seq<u8>, p: int)
    requires
        0 <= p <= t.len(),
    ensures
        0 <= line_start(t, p) <= p,
    decreases p,
{
    if !(p <= 0 || t[p - 1] == 10) {
        lemma_line_start(t, p - 1);
    }
}

pub proof fn lemma_line_end(t: Seq<u8>, p: int)
    requires
        0 <= p <= t.len(),
    ensures
        p <= line_end(t, p) <= t.len(),
        line_end(t, p) < t.len() ==> t[line_end(t, p)] == 10,
    decreases t.len() - p,
{
    if !(p >= t.len() || t[p] == 10) {
        lemma_line_end(t, p + 1);
    }
}

pub proof fn lemma_column_offset(t: Seq<u8>, q: int, col: nat)
    requires
        0 <= q <= t.len(),
    ensures
        q <= column_offset(t, q, col) <= t.len(),
    decreases t.len() - q,
{
    if !(col == 0 || q >= t.len() || t[q] == 10) {
        lemma_next_boundary(t, q);
        lemma_column_offset(t, next_boundary(t, q), (col - 1) as nat);
    }
}

/// Where moving up a line from `c` puts the caret, and the column it keeps.
pub open spec fn up_target(t: Seq<u8>, c: Cursor) -> (int, nat) {
    let desired = match c.desired_column { Some(d) => d as nat, None => c.column as nat };
    let start = line_start(t, c.position as int);
    if start == 0 {
        (0, desired)
    } else {
        (column_offset(t, line_start(t, start - 1), desired), desired)
    }
}

/// Where moving down a line from `c` puts the caret, and the column it keeps.
pub open spec fn down_target(t: Seq<u8>, c: Cursor) -> (int, nat) {
    let desired = match c.desired_column { Some(d) => d as nat, None => c.column as nat };
    let end = line_end(t, c.position as int);
    if end >= t.len() {
        (t.len() as int, desired)
    } else {
        (column_offset(t, end + 1, desired), desired)
    }
}

/// Where position `p` of the old text lies in a new text that shares the
/// first `prefix` bytes and everything from `old_end` (old) / `new_end` (new)
/// on: before the changed part it stays, after it it shifts, inside it it
/// moves to the start of the change.
pub open spec fn map_position(p: int, prefix: int, old_end: int, new_end: int) -> int {
    if p <= prefix {
        p
    } else if p >= old_end {
        p - old_end + new_end
    } else {
        prefix
    }
}

/// `t` with `[start, end)` replaced by `bytes`.
pub open spec fn spliced(t: Seq<u8>, start: int, end: int, bytes: Seq<u8>) -> Seq<u8> {
    t.take(start) + bytes + t.skip(end)
}

/// Length of the longest common prefix of `a` and `b`.
pub open spec fn common_prefix(a: Seq<u8>, b: Seq<u8>) -> nat
    decreases a.len(),
{
    if a.len() == 0 || b.len() == 0 || a[0] != b[0] {
        0
    } else {
        1 + common_prefix(a.drop_first(), b.drop_first())
    }
}

/// Length of the longest common suffix of `a` and `b`, at most `limit`.
pub open spec fn common_suffix(a: Seq<u8>, b: Seq<u8>, limit: nat) -> nat
    decreases limit,
{
    if limit == 0 || a.len() == 0 || b.len() == 0 || a.last() != b.last() {
        0
    } else {
        1 + common_suffix(a.drop_last(), b.drop_last(), (limit - 1) as nat)
    }
}

proof fn lemma_common_prefix(a: Seq<u8>, b: Seq<u8>)
    ensures
        common_prefix(a, b) <= a.len(),
        common_prefix(a, b) <= b.len(),
    decreases a.len(),
{
    if !(a.len() == 0 || b.len() == 0 || a[0] != b[0]) {
        lemma_common_prefix(a.drop_first(), b.drop_first());
    }
}

proof fn lemma_common_suffix(a: Seq<u8>, b: Seq<u8>, limit: nat)
    ensures
        common_suffix(a, b, limit) <= limit,
        common_suffix(a, b, limit) <= a.len(),
        common_suffix(a, b, limit) <= b.len(),
    decreases limit,
{
    if !(limit == 0 || a.len() == 0 || b.len() == 0 || a.last() != b.last()) {
        lemma_common_suffix(a.drop_last(), b.drop_last(), (limit - 1) as nat);
    }
}

/// The text after `old` became `new`: where a position of `old` lies in `new`.
pub open spec fn carried_position(old: Seq<u8>, new: Seq<u8>, p: int) -> int {
    let prefix = common_prefix(old, new) as int;
    let limit = if old.len() < new.len() { old.len() - prefix } else { new.len() - prefix };
    let suffix = common_suffix(old, new, limit as nat) as int;
    map_position(p, prefix, old.len() - suffix, new.len() - suffix)
}

/// A document: its bytes, its cursor, and a revision counter that grows with
/// every change.
pub struct Document {
    bytes: Vec<u8>,
    cursor: Cursor,
    revision: u64,
    storage: u64,
}

/// A document as values. Views made by `duplicate_view` share `storage`.
pub struct DocV {
    pub text: Seq<u8>,
    pub cursor: Cursor,
    pub revision: u64,
    pub storage: u64,
}

impl View for Document {
    type V = DocV;

    closed spec fn view(&self) -> DocV {
        DocV { text: self.bytes@, cursor: self.cursor, revision: self.revision, storage: self.storage }
    }
}

pub open spec fn next_revision(r: u64) -> u64 {
    if r < u64::MAX {
        (r + 1) as u64
    } else {
        r
    }
}

/// Whether byte `b` continues a character rather than starting one.
pub fn is_continuation(b: u8) -> (r: bool)
    ensures
        r == is_continuation_byte(b),
{
    0x80 <= b && b <= 0xbf
}

/// A copy of `b`.
pub fn copy_bytes(b: &[u8]) -> (v: Vec<u8>)
    ensures
        v@ == b@,
{
    let mut v: Vec<u8> = Vec::new();
    let mut i: usize = 0;
    while i < b.len()
        invariant
            0 <= i <= b.len(),
            v@ == b@.take(i as int),
        decreases b.len() - i,
    {
        v.push(b[i]);
        i = i + 1;
        assert(v@ =~= b@.take(i as int));
    }
    assert(b@.take(i as int) =~= b@);
    v
}

/// Line and column reached after `bytes[..end]`.
pub fn line_column(bytes: &[u8], end: usize) -> (r: (usize, usize))
    requires
        end <= bytes.len(),
    ensures
        r.0 == line_col(bytes@.take(end as int)).0,
        r.1 == line_col(bytes@.take(end as int)).1,
{
    let mut line: usize = 0;
    let mut column: usize = 0;
    let mut i: usize = 0;
    assert(bytes@.take(0) =~= Seq::<u8>::empty());
    while i < end
        invariant
            0 <= i <= end <= bytes.len(),
            line == line_col(bytes@.take(i as int)).0,
            column == line_col(bytes@.take(i as int)).1,
        decreases end - i,
    {
        proof {
            lemma_line_col_bound(bytes@.take(i as int));
        }
        assert(bytes@.take(i + 1).drop_last() =~= bytes@.take(i as int));
        let b = bytes[i];
        if b == 10 {
            line = line + 1;
            column = 0;
        } else if !is_continuation(b) {
            column = column + 1;
        }
        i = i + 1;
    }
    (line, column)
}

impl Document {
    /// The document's invariant: its cursor lies in the text with matching
    /// lines and columns.
    pub open spec fn wf(&self) -> bool {
        cursor_ok(self@.text, self@.cursor)
    }

    fn place(bytes: &[u8], position: usize, anchor: usize, desired: Option<usize>) -> (r: Cursor)
        requires
            position <= bytes.len(),
            anchor <= bytes.len(),
        ensures
            r == cursor_at(bytes@, position as int, anchor as int, desired),
    {
        let (line, column) = line_column(bytes, position);
        let (anchor_line, anchor_column) = line_column(bytes, anchor);
        Cursor { position, line, column, desired_column: desired, anchor, anchor_line, anchor_column }
    }

    /// An empty document with the cursor at its start.
    pub fn empty() -> (r: Self)
        ensures
            r.wf(),
            r@.text == Seq::<u8>::empty(),
            r@.cursor == cursor_at(Seq::<u8>::empty(), 0, 0, None),
            r@.revision == 0,
            r@.storage == 0,
    {
        let bytes: Vec<u8> = Vec::new();
        let cursor = Self::place(bytes.as_slice(), 0, 0, None);
        Document { bytes, cursor, revision: 0, storage: 0 }
    }

    /// A document holding `text`, with the cursor at its start.
    pub fn from_text(text: &str) -> (r: Self)
        ensures
            r.wf(),
            r@.text == encode_utf8(text@),
            r@.cursor == cursor_at(encode_utf8(text@), 0, 0, None),
            r@.revision == 0,
            r@.storage == 0,
    {
        let bytes = copy_bytes(text.as_bytes());
        let cursor = Self::place(bytes.as_slice(), 0, 0, None);
        Document { bytes, cursor, revision: 0, storage: 0 }
    }

    /// Length in bytes.
    pub fn len(&self) -> (r: usize)
        ensures
            r == self@.text.len(),
    {
        self.bytes.len()
    }

    pub fn cursor(&self) -> (r: Cursor)
        ensures
            r == self@.cursor,
    {
        self.cursor
    }

    pub fn revision(&self) -> (r: u64)
        ensures
            r == self@.revision,
    {
        self.revision
    }

    /// Identity of the text that views share.
    pub fn storage(&self) -> (r: u64)
        ensures
            r == self@.storage,
    {
        self.storage
    }

    /// Marks this document as a text of its own, identified by `id`.
    pub fn set_storage(&mut self, id: u64)
        ensures
            final(self)@ == (DocV { storage: id, ..old(self)@ }),
    {
        self.storage = id;
    }

    pub fn bytes(&self) -> (r: &[u8])
        ensures
            r@ == self@.text,
    {
        self.bytes.as_slice()
    }

    /// The whole text, or an error when it is not valid UTF-8.
    pub fn text(&self) -> (r: Result<String, String>)
        ensures
            r is Ok <==> valid_utf8(self@.text),
            r matches Ok(s) ==> encode_utf8(s@) == self@.text,
    {
        match crate::text::string_from_utf8(copy_bytes(self.bytes.as_slice())) {
            Ok(s) => Ok(s),
            Err(_) => Err(crate::text::string_from("document is not valid UTF-8")),
        }
    }

    /// `length` bytes from `start`, or an error when they are not all in the text.
    pub fn read_range(&self, start: usize, length: usize) -> (r: Result<Vec<u8>, String>)
        ensures
            start + length <= self@.text.len() ==> (r matches Ok(v) && v@ == self@.text.subrange(start as int, start + length)),
            start + length > self@.text.len() ==> r is Err,
    {
        if start > self.bytes.len() || length > self.bytes.len() - start {
            return Err(crate::text::string_from("range is outside the document"));
        }
        let mut v: Vec<u8> = Vec::new();
        let mut i = start;
        while i < start + length
            invariant
                start <= i <= start + length <= self.bytes.len(),
                v@ == self.bytes@.subrange(start as int, i as int),
            decreases start + length - i,
        {
            v.push(self.bytes[i]);
            i = i + 1;
            assert(v@ =~= self.bytes@.subrange(start as int, i as int));
        }
        Ok(v)
    }

    /// Whether `bytes` equals the text at `[start, start + bytes.len())`.
    pub fn range_equals(&self, start: usize, bytes: &[u8]) -> (r: bool)
        requires
            start <= self@.text.len(),
        ensures
            r == (start + bytes.len() <= self@.text.len()
                && self@.text.subrange(start as int, start + bytes.len()) == bytes@),
    {
        if bytes.len() > self.bytes.len() - start {
            return false;
        }
        let mut i: usize = 0;
        while i < bytes.len()
            invariant
                start + bytes.len() <= self.bytes.len(),
                0 <= i <= bytes.len(),
                forall|j: int| 0 <= j < i ==> self.bytes@[start + j] == bytes@[j],
            decreases bytes.len() - i,
        {
            if self.bytes[start + i] != bytes[i] {
                assert(self.bytes@.subrange(start as int, start + bytes.len())[i as int] != bytes@[i as int]);
                return false;
            }
            i = i + 1;
        }
        assert(self.bytes@.subrange(start as int, start + bytes.len()) =~= bytes@);
        true
    }

    /// The boundary after the character at `position`.
    pub fn next_char_boundary(&self, position: usize) -> (r: usize)
        requires
            position < self@.text.len(),
        ensures
            r == next_boundary(self@.text, position as int),
            position < r <= self@.text.len(),
    {
        proof {
            lemma_next_boundary(self.bytes@, position as int);
        }
        assert(self.bytes@.len() == self.bytes.len());
        let mut q = position + 1;
        while q < self.bytes.len() && is_continuation(self.bytes[q])
            invariant
                position < q <= self.bytes.len(),
                next_boundary(self.bytes@, position as int) == next_boundary(self.bytes@, q - 1),
            decreases self.bytes.len() - q,
        {
            q = q + 1;
        }
        q
    }

    /// The boundary before the character that ends at `position`.
    pub fn previous_char_boundary(&self, position: usize) -> (r: usize)
        requires
            0 < position <= self@.text.len(),
        ensures
            r == previous_boundary(self@.text, position as int),
            r < position,
    {
        proof {
            lemma_previous_boundary(self.bytes@, position as int);
        }
        let mut q = position - 1;
        while q > 0 && is_continuation(self.bytes[q])
            invariant
                0 <= q < position <= self.bytes.len(),
                previous_boundary(self.bytes@, position as int) == previous_boundary(self.bytes@, q + 1),
            decreases q,
        {
            q = q - 1;
        }
        q
    }

    /// Line and column of byte `position`.
    pub fn line_column_at(&self, position: usize) -> (r: Result<(usize, usize), String>)
        ensures
            position <= self@.text.len() ==> (r matches Ok(lc) && lc.0 == line_col(self@.text.take(position as int)).0
                && lc.1 == line_col(self@.text.take(position as int)).1),
            position > self@.text.len() ==> r is Err,
    {
        if position > self.bytes.len() {
            return Err(crate::text::string_from("position is outside the document"));
        }
        Ok(line_column(self.bytes.as_slice(), position))
    }

    pub fn has_selection(&self) -> (r: bool)
        ensures
            r == (self@.cursor.position != self@.cursor.anchor),
    {
        self.cursor.position != self.cursor.anchor
    }

    pub fn selection_start(&self) -> (r: usize)
        ensures
            r == if self@.cursor.position < self@.cursor.anchor { self@.cursor.position } else { self@.cursor.anchor },
    {
        if self.cursor.position < self.cursor.anchor { self.cursor.position } else { self.cursor.anchor }
    }

    pub fn selection_end(&self) -> (r: usize)
        ensures
            r == if self@.cursor.position < self@.cursor.anchor { self@.cursor.anchor } else { self@.cursor.position },
    {
        if self.cursor.position < self.cursor.anchor { self.cursor.anchor } else { self.cursor.position }
    }

    /// Puts caret and anchor at the given positions.
    pub fn set_cursor(&mut self, position: usize, anchor: usize) -> (r: Result<(), String>)
        ensures
            position <= old(self)@.text.len() && anchor <= old(self)@.text.len() ==> r is Ok
                && final(self)@ == (DocV { cursor: cursor_at(old(self)@.text, position as int, anchor as int, None), ..old(self)@ }),
            !(position <= old(self)@.text.len() && anchor <= old(self)@.text.len()) ==> r is Err && final(self)@ == old(self)@,
    {
        if position > self.bytes.len() || anchor > self.bytes.len() {
            return Err(crate::text::string_from("position is outside the document"));
        }
        self.cursor = Self::place(self.bytes.as_slice(), position, anchor, None);
        Ok(())
    }

    /// Puts caret and anchor at the given positions, with a remembered column.
    pub fn set_cursor_desired(&mut self, position: usize, anchor: usize, desired: Option<usize>) -> (r: Result<(), String>)
        ensures
            position <= old(self)@.text.len() && anchor <= old(self)@.text.len() ==> r is Ok
                && final(self)@ == (DocV { cursor: cursor_at(old(self)@.text, position as int, anchor as int, desired), ..old(self)@ }),
            !(position <= old(self)@.text.len() && anchor <= old(self)@.text.len()) ==> r is Err && final(self)@ == old(self)@,
    {
        if position > self.bytes.len() || anchor > self.bytes.len() {
            return Err(crate::text::string_from("position is outside the document"));
        }
        self.cursor = Self::place(self.bytes.as_slice(), position, anchor, desired);
        Ok(())
    }

    /// Moves the caret, and the anchor with it, to `position`.
    pub fn move_cursor(&mut self, position: usize) -> (r: Result<(), String>)
        ensures
            position <= old(self)@.text.len() ==> r is Ok
                && final(self)@ == (DocV { cursor: cursor_at(old(self)@.text, position as int, position as int, None), ..old(self)@ }),
            position > old(self)@.text.len() ==> r is Err && final(self)@ == old(self)@,
    {
        self.set_cursor(position, position)
    }

    /// Sets the anchor, keeping the caret.
    pub fn set_anchor(&mut self, anchor: usize) -> (r: Result<(), String>)
        requires
            old(self).wf(),
        ensures
            anchor <= old(self)@.text.len() ==> r is Ok
                && final(self)@ == (DocV { cursor: cursor_at(old(self)@.text, old(self)@.cursor.position as int, anchor as int, old(self)@.cursor.desired_column), ..old(self)@ }),
            anchor > old(self)@.text.len() ==> r is Err && final(self)@ == old(self)@,
    {
        if anchor > self.bytes.len() {
            return Err(crate::text::string_from("position is outside the document"));
        }
        let desired = self.cursor.desired_column;
        self.cursor = Self::place(self.bytes.as_slice(), self.cursor.position, anchor, desired);
        Ok(())
    }

    /// Extends the selection by one character to the right.
    pub fn select_right(&mut self) -> (r: Result<(), String>)
        requires
            old(self).wf(),
        ensures
            r is Ok,
            final(self).wf(),
            final(self)@ == if old(self)@.cursor.position < old(self)@.text.len() {
                DocV {
                    cursor: cursor_at(old(self)@.text, next_boundary(old(self)@.text, old(self)@.cursor.position as int),
                        old(self)@.cursor.anchor as int, None),
                    ..old(self)@
                }
            } else {
                old(self)@
            },
    {
        if self.cursor.position < self.bytes.len() {
            let next = self.next_char_boundary(self.cursor.position);
            self.cursor = Self::place(self.bytes.as_slice(), next, self.cursor.anchor, None);
        }
        Ok(())
    }

    /// Extends the selection by one character to the left.
    pub fn select_left(&mut self) -> (r: Result<(), String>)
        requires
            old(self).wf(),
        ensures
            r is Ok,
            final(self).wf(),
            final(self)@ == if old(self)@.cursor.position > 0 {
                DocV {
                    cursor: cursor_at(old(self)@.text, previous_boundary(old(self)@.text, old(self)@.cursor.position as int),
                        old(self)@.cursor.anchor as int, None),
                    ..old(self)@
                }
            } else {
                old(self)@
            },
    {
        if self.cursor.position > 0 {
            let previous = self.previous_char_boundary(self.cursor.position);
            self.cursor = Self::place(self.bytes.as_slice(), previous, self.cursor.anchor, None);
        }
        Ok(())
    }

    /// Moves the caret one character left, dropping the selection.
    pub fn cursor_left(&mut self) -> (r: Result<(), String>)
        requires
            old(self).wf(),
        ensures
            r is Ok,
            final(self).wf(),
            final(self)@ == if old(self)@.cursor.position > 0 {
                let p = previous_boundary(old(self)@.text, old(self)@.cursor.position as int);
                DocV { cursor: cursor_at(old(self)@.text, p, p, None), ..old(self)@ }
            } else {
                DocV { cursor: cursor_at(old(self)@.text, 0, 0, None), ..old(self)@ }
            },
    {
        let p = if self.cursor.position > 0 { self.previous_char_boundary(self.cursor.position) } else { 0 };
        self.cursor = Self::place(self.bytes.as_slice(), p, p, None);
        Ok(())
    }

    /// Moves the caret one character right, dropping the selection.
    pub fn cursor_right(&mut self) -> (r: Result<(), String>)
        requires
            old(self).wf(),
        ensures
            r is Ok,
            final(self).wf(),
            final(self)@ == if old(self)@.cursor.position < old(self)@.text.len() {
                let p = next_boundary(old(self)@.text, old(self)@.cursor.position as int);
                DocV { cursor: cursor_at(old(self)@.text, p, p, None), ..old(self)@ }
            } else {
                let p = old(self)@.text.len() as int;
                DocV { cursor: cursor_at(old(self)@.text, p, p, None), ..old(self)@ }
            },
    {
        let p = if self.cursor.position < self.bytes.len() {
            self.next_char_boundary(self.cursor.position)
        } else {
            self.bytes.len()
        };
        self.cursor = Self::place(self.bytes.as_slice(), p, p, None);
        Ok(())
    }

    /// Selects the whole text, the caret at its end.
    pub fn select_all(&mut self) -> (r: Result<(), String>)
        ensures
            r is Ok,
            final(self)@ == (DocV {
                cursor: cursor_at(old(self)@.text, old(self)@.text.len() as int, 0, None),
                ..old(self)@
            }),
    {
        self.cursor = Self::place(self.bytes.as_slice(), self.bytes.len(), 0, None);
        Ok(())
    }

    pub fn line_start_exec(&self, p: usize) -> (r: usize)
        requires
            p <= self@.text.len(),
        ensures
            r == line_start(self@.text, p as int),
    {
        proof {
            lemma_line_start(self.bytes@, p as int);
        }
        let mut q = p;
        while q > 0 && self.bytes[q - 1] != 10
            invariant
                0 <= q <= p <= self.bytes.len(),
                line_start(self.bytes@, p as int) == line_start(self.bytes@, q as int),
            decreases q,
        {
            q = q - 1;
        }
        q
    }

    pub fn line_end_exec(&self, p: usize) -> (r: usize)
        requires
            p <= self@.text.len(),
        ensures
            r == line_end(self@.text, p as int),
    {
        proof {
            lemma_line_end(self.bytes@, p as int);
        }
        let mut q = p;
        while q < self.bytes.len() && self.bytes[q] != 10
            invariant
                p <= q <= self.bytes.len(),
                line_end(self.bytes@, p as int) == line_end(self.bytes@, q as int),
            decreases self.bytes.len() - q,
        {
            q = q + 1;
        }
        q
    }

    fn column_offset_exec(&self, q: usize, col: usize) -> (r: usize)
        requires
            q <= self@.text.len(),
        ensures
            r == column_offset(self@.text, q as int, col as nat),
    {
        proof {
            lemma_column_offset(self.bytes@, q as int, col as nat);
        }
        let mut at = q;
        let mut left = col;
        while left > 0 && at < self.bytes.len() && self.bytes[at] != 10
            invariant
                q <= at <= self.bytes.len(),
                left <= col,
                column_offset(self.bytes@, q as int, col as nat) == column_offset(self.bytes@, at as int, left as nat),
            decreases self.bytes.len() - at,
        {
            let next = self.next_char_boundary(at);
            at = next;
            left = left - 1;
        }
        at
    }

    /// Number of lines: one more than the number of newlines.
    pub fn line_count(&self) -> (r: usize)
        requires
            self@.text.len() < usize::MAX,
        ensures
            r == lines_in(self@.text),
    {
        proof {
            lemma_line_col_bound(self.bytes@);
        }
        assert(self.bytes@.take(self.bytes.len() as int) =~= self.bytes@);
        line_column(self.bytes.as_slice(), self.bytes.len()).0 + 1
    }

    /// Start of zero-based line `line`, if the text has that many lines.
    pub fn line_start_of(&self, line: usize) -> (r: Option<usize>)
        ensures
            match r {
                Some(p) => is_line_start(self@.text, p as int, line as nat),
                None => line_col(self@.text).0 < line,
            },
    {
        if line == 0 {
            assert(self.bytes@.take(0) =~= Seq::<u8>::empty());
            return Some(0);
        }
        let mut seen: usize = 0;
        let mut i: usize = 0;
        assert(self.bytes@.take(0) =~= Seq::<u8>::empty());
        while i < self.bytes.len()
            invariant
                0 <= i <= self.bytes.len(),
                seen == line_col(self.bytes@.take(i as int)).0,
                seen < line,
            decreases self.bytes.len() - i,
        {
            assert(self.bytes@.take(i + 1).drop_last() =~= self.bytes@.take(i as int));
            if self.bytes[i] == 10 {
                seen = seen + 1;
                if seen == line {
                    return Some(i + 1);
                }
            }
            i = i + 1;
        }
        assert(self.bytes@.take(i as int) =~= self.bytes@);
        None
    }

    /// Moves the caret (and the anchor with it) to column `column` of
    /// zero-based line `line`, stopping at the end of a shorter line.
    pub fn move_to_line_column(&mut self, line: usize, column: usize) -> (r: Result<(), String>)
        requires
            old(self).wf(),
        ensures
            final(self).wf(),
            line_col(old(self)@.text).0 < line ==> r is Err && final(self)@ == old(self)@,
            line <= line_col(old(self)@.text).0 ==> r is Ok && exists|p: int| #![trigger is_line_start(old(self)@.text, p, line as nat)]
                is_line_start(old(self)@.text, p, line as nat) && final(self)@ == (DocV {
                    cursor: cursor_at(old(self)@.text, column_offset(old(self)@.text, p, column as nat),
                        column_offset(old(self)@.text, p, column as nat), None),
                    ..old(self)@
                }),
    {
        match self.line_start_of(line) {
            None => Err(crate::text::string_from("Line is past the last line")),
            Some(p) => {
                proof {
                    lemma_line_start_in_text(self.bytes@, p as int, line as nat);
                }
                let q = self.column_offset_exec(p, column);
                proof {
                    lemma_column_offset(self.bytes@, p as int, column as nat);
                }
                self.set_cursor(q, q)
            },
        }
    }

    /// Start of the line holding the caret.
    pub fn current_line_start(&self) -> (r: usize)
        requires
            self.wf(),
        ensures
            r == line_start(self@.text, self@.cursor.position as int),
    {
        self.line_start_exec(self.cursor.position)
    }

    /// End of the line holding the caret.
    pub fn current_line_end(&self) -> (r: usize)
        requires
            self.wf(),
        ensures
            r == line_end(self@.text, self@.cursor.position as int),
    {
        self.line_end_exec(self.cursor.position)
    }

    /// Moves the caret to the start of its line; `select` keeps the anchor.
    pub fn move_home(&mut self, select: bool)
        requires
            old(self).wf(),
        ensures
            final(self).wf(),
            ({
                let t = old(self)@.text;
                let c = old(self)@.cursor;
                let p = line_start(t, c.position as int);
                final(self)@ == (DocV { cursor: cursor_at(t, p, if select { c.anchor as int } else { p }, None), ..old(self)@ })
            }),
    {
        proof {
            lemma_line_start(self.bytes@, self.cursor.position as int);
        }
        let p = self.line_start_exec(self.cursor.position);
        let a = if select { self.cursor.anchor } else { p };
        self.cursor = Self::place(self.bytes.as_slice(), p, a, None);
    }

    /// Moves the caret to the end of its line; `select` keeps the anchor.
    pub fn move_end(&mut self, select: bool)
        requires
            old(self).wf(),
        ensures
            final(self).wf(),
            ({
                let t = old(self)@.text;
                let c = old(self)@.cursor;
                let p = line_end(t, c.position as int);
                final(self)@ == (DocV { cursor: cursor_at(t, p, if select { c.anchor as int } else { p }, None), ..old(self)@ })
            }),
    {
        proof {
            lemma_line_end(self.bytes@, self.cursor.position as int);
        }
        let p = self.line_end_exec(self.cursor.position);
        let a = if select { self.cursor.anchor } else { p };
        self.cursor = Self::place(self.bytes.as_slice(), p, a, None);
    }

    /// Moves the caret up a line, keeping its column; `select` keeps the anchor.
    pub fn move_up(&mut self, select: bool)
        requires
            old(self).wf(),
        ensures
            final(self).wf(),
            ({
                let t = old(self)@.text;
                let c = old(self)@.cursor;
                let (p, d) = up_target(t, c);
                final(self)@ == (DocV {
                    cursor: cursor_at(t, p, if select { c.anchor as int } else { p }, Some(d as usize)),
                    ..old(self)@
                })
            }),
    {
        let desired = match self.cursor.desired_column {
            Some(d) => d,
            None => self.cursor.column,
        };
        proof {
            lemma_line_start(self.bytes@, self.cursor.position as int);
        }
        let start = self.line_start_exec(self.cursor.position);
        let p = if start == 0 {
            0
        } else {
            proof {
                lemma_line_start(self.bytes@, start - 1);
                lemma_column_offset(self.bytes@, line_start(self.bytes@, start - 1), desired as nat);
            }
            let previous = self.line_start_exec(start - 1);
            self.column_offset_exec(previous, desired)
        };
        let a = if select { self.cursor.anchor } else { p };
        self.cursor = Self::place(self.bytes.as_slice(), p, a, Some(desired));
    }

    /// Moves the caret down a line, keeping its column; `select` keeps the anchor.
    pub fn move_down(&mut self, select: bool)
        requires
            old(self).wf(),
        ensures
            final(self).wf(),
            ({
                let t = old(self)@.text;
                let c = old(self)@.cursor;
                let (p, d) = down_target(t, c);
                final(self)@ == (DocV {
                    cursor: cursor_at(t, p, if select { c.anchor as int } else { p }, Some(d as usize)),
                    ..old(self)@
                })
            }),
    {
        let desired = match self.cursor.desired_column {
            Some(d) => d,
            None => self.cursor.column,
        };
        proof {
            lemma_line_end(self.bytes@, self.cursor.position as int);
        }
        let end = self.line_end_exec(self.cursor.position);
        let p = if end >= self.bytes.len() {
            self.bytes.len()
        } else {
            proof {
                lemma_column_offset(self.bytes@, end + 1, desired as nat);
            }
            self.column_offset_exec(end + 1, desired)
        };
        let a = if select { self.cursor.anchor } else { p };
        self.cursor = Self::place(self.bytes.as_slice(), p, a, Some(desired));
    }

    /// Replaces the whole text by `bytes`; caret and anchor keep their
    /// places relative to the unchanged start and end of the text.
    pub fn replace_text(&mut self, bytes: Vec<u8>)
        requires
            old(self).wf(),
        ensures
            final(self).wf(),
            final(self)@ == (DocV {
                text: bytes@,
                cursor: cursor_at(bytes@,
                    carried_position(old(self)@.text, bytes@, old(self)@.cursor.position as int),
                    carried_position(old(self)@.text, bytes@, old(self)@.cursor.anchor as int),
                    old(self)@.cursor.desired_column),
                revision: next_revision(old(self)@.revision),
                storage: old(self)@.storage,
            }),
    {
        let position = carry(self.bytes.as_slice(), bytes.as_slice(), self.cursor.position);
        let anchor = carry(self.bytes.as_slice(), bytes.as_slice(), self.cursor.anchor);
        let desired = self.cursor.desired_column;
        self.cursor = Self::place(bytes.as_slice(), position, anchor, desired);
        self.bytes = bytes;
        self.revision = if self.revision < u64::MAX { self.revision + 1 } else { self.revision };
    }

    /// Replaces `[start, end)` by `bytes`.
    pub fn splice(&mut self, start: usize, end: usize, bytes: &[u8]) -> (r: Result<(), String>)
        requires
            old(self).wf(),
        ensures
            final(self).wf(),
            start <= end <= old(self)@.text.len() ==> r is Ok && final(self)@.text == spliced(old(self)@.text, start as int, end as int, bytes@)
                && final(self)@.revision == next_revision(old(self)@.revision),
            final(self)@.storage == old(self)@.storage,
            !(start <= end <= old(self)@.text.len()) ==> r is Err && final(self)@ == old(self)@,
    {
        if start > end || end > self.bytes.len() {
            return Err(crate::text::string_from("range is outside the document"));
        }
        let mut v: Vec<u8> = Vec::new();
        let mut i: usize = 0;
        while i < start
            invariant
                0 <= i <= start <= end <= self.bytes.len(),
                v@ == self.bytes@.take(i as int),
            decreases start - i,
        {
            v.push(self.bytes[i]);
            i = i + 1;
            assert(v@ =~= self.bytes@.take(i as int));
        }
        let mut k: usize = 0;
        while k < bytes.len()
            invariant
                0 <= k <= bytes.len(),
                v@ == self.bytes@.take(start as int) + bytes@.take(k as int),
            decreases bytes.len() - k,
        {
            v.push(bytes[k]);
            k = k + 1;
            assert(v@ =~= self.bytes@.take(start as int) + bytes@.take(k as int));
        }
        let mut j = end;
        assert(bytes@.take(bytes.len() as int) =~= bytes@);
        while j < self.bytes.len()
            invariant
                end <= j <= self.bytes.len(),
                v@ == self.bytes@.take(start as int) + bytes@ + self.bytes@.subrange(end as int, j as int),
            decreases self.bytes.len() - j,
        {
            v.push(self.bytes[j]);
            j = j + 1;
            assert(v@ =~= self.bytes@.take(start as int) + bytes@ + self.bytes@.subrange(end as int, j as int));
        }
        assert(self.bytes@.subrange(end as int, j as int) =~= self.bytes@.skip(end as int));
        self.replace_text(v);
        Ok(())
    }

    /// Inserts `text` at byte `position`.
    pub fn insert(&mut self, position: usize, text: &str) -> (r: Result<(), String>)
        requires
            old(self).wf(),
        ensures
            final(self).wf(),
            position <= old(self)@.text.len() ==> r is Ok
                && final(self)@.text == spliced(old(self)@.text, position as int, position as int, encode_utf8(text@)),
            position > old(self)@.text.len() ==> r is Err && final(self)@ == old(self)@,
    {
        self.splice(position, position, text.as_bytes())
    }

    /// Deletes `length` bytes from `position`.
    pub fn delete(&mut self, position: usize, length: usize) -> (r: Result<(), String>)
        requires
            old(self).wf(),
        ensures
            final(self).wf(),
            position + length <= old(self)@.text.len() ==> r is Ok
                && final(self)@.text == spliced(old(self)@.text, position as int, position + length, seq![]),
            position + length > old(self)@.text.len() ==> r is Err && final(self)@ == old(self)@,
    {
        if position > self.bytes.len() || length > self.bytes.len() - position {
            return Err(crate::text::string_from("range is outside the document"));
        }
        let none: Vec<u8> = Vec::new();
        self.splice(position, position + length, none.as_slice())
    }

    /// Another view of the same text: same bytes, cursor and revision.
    pub fn duplicate_view(&self) -> (r: Self)
        ensures
            r@ == self@,
    {
        Document { bytes: copy_bytes(self.bytes.as_slice()), cursor: self.cursor, revision: self.revision, storage: self.storage }
    }

    /// Takes the text and revision of `source`; this view's caret and anchor
    /// keep their places (see `carried_position`).
    pub fn refresh_view_from(&mut self, source: &Document)
        requires
            old(self).wf(),
        ensures
            final(self).wf(),
            final(self)@ == (DocV {
                text: source@.text,
                cursor: cursor_at(source@.text,
                    carried_position(old(self)@.text, source@.text, old(self)@.cursor.position as int),
                    carried_position(old(self)@.text, source@.text, old(self)@.cursor.anchor as int),
                    old(self)@.cursor.desired_column),
                revision: source@.revision,
                storage: old(self)@.storage,
            }),
    {
        let bytes = copy_bytes(source.bytes.as_slice());
        let position = carry(self.bytes.as_slice(), bytes.as_slice(), self.cursor.position);
        let anchor = carry(self.bytes.as_slice(), bytes.as_slice(), self.cursor.anchor);
        let desired = self.cursor.desired_column;
        self.cursor = Self::place(bytes.as_slice(), position, anchor, desired);
        self.bytes = bytes;
        self.revision = source.revision;
    }
}

/// Where position `p` of `old` lies in `new` (see `carried_position`).
fn carry(old: &[u8], new: &[u8], p: usize) -> (r: usize)
    requires
        p <= old.len(),
    ensures
        r == carried_position(old@, new@, p as int),
        r <= new.len(),
{
    proof {
        lemma_common_prefix(old@, new@);
    }
    let mut prefix: usize = 0;
    assert(old@.skip(0) =~= old@);
    assert(new@.skip(0) =~= new@);
    while prefix < old.len() && prefix < new.len() && old[prefix] == new[prefix]
        invariant
            0 <= prefix <= old.len(),
            prefix <= new.len(),
            common_prefix(old@, new@) == prefix + common_prefix(old@.skip(prefix as int), new@.skip(prefix as int)),
        decreases old.len() - prefix,
    {
        assert(old@.skip(prefix as int).drop_first() =~= old@.skip(prefix + 1));
        assert(new@.skip(prefix as int).drop_first() =~= new@.skip(prefix + 1));
        prefix = prefix + 1;
    }
    let limit = if old.len() < new.len() { old.len() - prefix } else { new.len() - prefix };
    proof {
        lemma_common_suffix(old@, new@, limit as nat);
    }
    let mut suffix: usize = 0;
    assert(old@.take(old.len() as int) =~= old@);
    assert(new@.take(new.len() as int) =~= new@);
    while suffix < limit && old[old.len() - 1 - suffix] == new[new.len() - 1 - suffix]
        invariant
            0 <= suffix <= limit,
            limit <= old.len() - prefix,
            limit <= new.len() - prefix,
            common_suffix(old@, new@, limit as nat) == suffix + common_suffix(
                old@.take(old.len() - suffix), new@.take(new.len() - suffix), (limit - suffix) as nat),
        decreases limit - suffix,
    {
        assert(old@.take(old.len() - suffix).drop_last() =~= old@.take(old.len() - suffix - 1));
        assert(new@.take(new.len() - suffix).drop_last() =~= new@.take(new.len() - suffix - 1));
        suffix = suffix + 1;
    }
    let old_end = old.len() - suffix;
    let new_end = new.len() - suffix;
    if p <= prefix {
        p
    } else if p >= old_end {
        p - old_end + new_end
    } else {
        prefix
    }
}

} // verus!
