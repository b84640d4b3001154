//! Emacs keys over the editor: motions, the mark, kills and yanks with a
//! bounded kill ring, numeric arguments, and the `C-x` prefix.
use vstd::prelude::*;
use vstd::utf8::{decode_utf8, encode_utf8, valid_utf8};
use crate::clipboard::TextClipboard;
use crate::document::{cursor_at, line_end, line_start, next_boundary, previous_boundary, DocV};
use crate::editor::{replaced, replacement_fits, Editor};
use crate::emacs::{State, MAX_COUNT, RING_BYTES, RING_ENTRIES};
use crate::keys::{alt_pressed, ctrl_pressed, gui_pressed, shift_pressed, has_alt, has_ctrl, has_gui, has_shift, KEY_0, KEY_9, KEY_BACKSPACE, KEY_DELETE, KEY_DOWN, KEY_END,
    KEY_ESCAPE, KEY_HOME, KEY_KP_ENTER, KEY_LALT, KEY_LCTRL, KEY_LEFT, KEY_LGUI, KEY_LSHIFT, KEY_MINUS, KEY_PAGE_DOWN,
    KEY_PAGE_UP, KEY_RALT, KEY_RCTRL, KEY_RETURN, KEY_RGUI, KEY_RIGHT, KEY_RSHIFT, KEY_SLASH, KEY_TAB, KEY_UNDERSCORE,
    KEY_UP, KEY_LESS, KEY_COMMA, KEY_GREATER, KEY_PERIOD, KEY_SPACE};
use crate::document::Document;
use crate::keybindings::Command;
use crate::text::{alphanumeric, chars_of, is_alphanumeric, string_from, string_from_utf8};

verus! {

/// Bytes a string takes.
pub open spec fn size(s: Seq<char>) -> nat {
    encode_utf8(s).len()
}

/// Bytes the entries of a ring take together.
pub open spec fn ring_size(ring: Seq<Seq<char>>) -> nat
    decreases ring.len(),
{
    if ring.len() == 0 {
        0
    } else {
        ring_size(ring.drop_last()) + size(ring.last())
    }
}

/// The ring with its oldest entries dropped until `extra` more bytes and
/// one more entry fit.
pub open spec fn trimmed(ring: Seq<Seq<char>>, extra: nat) -> Seq<Seq<char>>
    decreases ring.len(),
{
    if ring.len() > 0 && (ring.len() >= RING_ENTRIES || ring_size(ring) + extra > RING_BYTES) {
        trimmed(ring.drop_last(), extra)
    } else {
        ring
    }
}

/// The kill ring after remembering `text`, newest first: a text larger
/// than the whole ring empties it.
pub open spec fn remembered(ring: Seq<Seq<char>>, text: Seq<char>) -> Seq<Seq<char>> {
    if size(text) > RING_BYTES {
        Seq::empty()
    } else {
        seq![text] + trimmed(ring, size(text))
    }
}

/// The Emacs controller shared by both panes: the kill ring (newest
/// first), its size, whether the text event after the last key is
/// swallowed, and where an incremental search started.
pub struct Controller {
    ring: Vec<String>,
    bytes: usize,
    suppress_text: bool,
    search_origin: Option<usize>,
}

pub open spec fn strings(v: Seq<String>) -> Seq<Seq<char>> {
    v.map_values(|s: String| s@)
}

impl Controller {
    /// The kill ring, newest first.
    pub closed spec fn ring(&self) -> Seq<Seq<char>> {
        strings(self.ring@)
    }

    /// Number of entries in the kill ring.
    pub fn ring_len(&self) -> (r: usize)
        ensures
            r == self.ring().len(),
    {
        self.ring.len()
    }

    /// Bytes the kill ring holds.
    pub fn ring_bytes(&self) -> (r: usize)
        requires
            self.wf(),
        ensures
            r == ring_size(self.ring()),
    {
        self.bytes
    }

    /// Where the incremental search started.
    pub closed spec fn origin(&self) -> Option<usize> {
        self.search_origin
    }

    /// Where the incremental search started.
    pub fn search_origin(&self) -> (r: Option<usize>)
        ensures
            r == self.origin(),
    {
        self.search_origin
    }

    /// Records where an incremental search starts (or that none runs).
    pub fn set_search_origin(&mut self, origin: Option<usize>)
        ensures
            final(self).origin() == origin,
            final(self).ring() == old(self).ring(),
            final(self).wf() == old(self).wf(),
            final(self).suppressing() == old(self).suppressing(),
    {
        self.search_origin = origin;
    }

    /// Whether the text event after the current key is swallowed.
    pub closed spec fn suppressing(&self) -> bool {
        self.suppress_text
    }

    /// The ring's invariant: at most 32 entries and 256 KiB, its size kept
    /// exactly.
    pub closed spec fn wf(&self) -> bool {
        &&& self.ring@.len() <= RING_ENTRIES
        &&& self.bytes == ring_size(strings(self.ring@))
        &&& self.bytes <= RING_BYTES
    }

    pub fn new() -> (r: Self)
        ensures
            r.wf(),
            r.ring() == Seq::<Seq<char>>::empty(),
            !r.suppressing(),
            r.origin() is None,
    {
        let r = Controller { ring: Vec::new(), bytes: 0, suppress_text: false, search_origin: None };
        assert(strings(r.ring@) =~= Seq::<Seq<char>>::empty());
        r
    }

    /// A key arrives: the text event of the previous key is no longer
    /// swallowed.
    pub fn begin_key(&mut self)
        ensures
            final(self).ring() == old(self).ring(),
            final(self).wf() == old(self).wf(),
            !final(self).suppressing(),
            final(self).origin() == old(self).origin(),
    {
        self.suppress_text = false;
    }

    /// Whether to swallow the text event of the current key; asking clears
    /// it.
    pub fn consume_text(&mut self) -> (r: bool)
        ensures
            r == old(self).suppressing(),
            !final(self).suppressing(),
            final(self).ring() == old(self).ring(),
            final(self).wf() == old(self).wf(),
            final(self).origin() == old(self).origin(),
    {
        let r = self.suppress_text;
        self.suppress_text = false;
        r
    }

    /// Remembers `text` as the newest kill (see `remembered`).
    pub fn remember(&mut self, text: String)
        requires
            old(self).wf(),
        ensures
            final(self).wf(),
            final(self).ring() == remembered(old(self).ring(), text@),
            final(self).suppressing() == old(self).suppressing(),
            final(self).origin() == old(self).origin(),
    {
        let view = text.as_str();
        let length = view.as_bytes().len();
        assert(length == size(text@));
        if length > RING_BYTES {
            self.ring.clear();
            self.bytes = 0;
            assert(strings(self.ring@) =~= Seq::<Seq<char>>::empty());
            return;
        }
        while self.ring.len() > 0 && (self.ring.len() >= RING_ENTRIES || self.bytes + length > RING_BYTES)
            invariant
                self.ring@.len() <= RING_ENTRIES,
                self.bytes == ring_size(strings(self.ring@)),
                self.bytes <= RING_BYTES,
                length == size(text@),
                length <= RING_BYTES,
                self.search_origin == old(self).search_origin,
                self.suppress_text == old(self).suppress_text,
                trimmed(strings(self.ring@), length as nat) == trimmed(strings(old(self).ring@), length as nat),
            decreases self.ring.len(),
        {
            let ghost before = strings(self.ring@);
            let old_entry = self.ring.pop().unwrap();
            let entry_view = old_entry.as_str();
            assert(strings(self.ring@) =~= before.drop_last());
            proof {
                lemma_ring_size_last(before);
            }
            self.bytes = self.bytes - entry_view.as_bytes().len();
        }
        let ghost kept = strings(self.ring@);
        assert(trimmed(kept, length as nat) == kept);
        self.ring.insert(0, text);
        self.bytes = self.bytes + length;
        assert(strings(self.ring@) =~= seq![text@] + kept);
        proof {
            lemma_ring_size_front(text@, kept);
        }
    }
}

proof fn lemma_ring_size_last(ring: Seq<Seq<char>>)
    requires
        ring.len() > 0,
    ensures
        ring_size(ring) == ring_size(ring.drop_last()) + size(ring.last()),
{
}

/// The size of a ring with an entry put in front.
proof fn lemma_trimmed(ring: Seq<Seq<char>>, extra: nat)
    requires
        extra <= RING_BYTES,
    ensures
        trimmed(ring, extra).len() <= ring.len(),
        trimmed(ring, extra) == ring.take(trimmed(ring, extra).len() as int),
        trimmed(ring, extra).len() < RING_ENTRIES,
        ring_size(trimmed(ring, extra)) + extra <= RING_BYTES,
    decreases ring.len(),
{
    if ring.len() > 0 && (ring.len() >= RING_ENTRIES || ring_size(ring) + extra > RING_BYTES) {
        lemma_trimmed(ring.drop_last(), extra);
        let k = trimmed(ring, extra).len() as int;
        assert(ring.drop_last().take(k) =~= ring.take(k));
    } else {
        assert(ring.take(ring.len() as int) =~= ring);
    }
}

/// Remembering a kill larger than the whole ring empties it; any other
/// kill becomes the newest entry, the older entries stay in their order
/// with only the oldest dropped, and the ring keeps within 32 entries and
/// 256 KiB.
pub proof fn remember_keeps_order(ring: Seq<Seq<char>>, text: Seq<char>)
    ensures
        size(text) > RING_BYTES ==> remembered(ring, text).len() == 0,
        size(text) <= RING_BYTES ==> {
            let r = remembered(ring, text);
            &&& r.len() >= 1
            &&& r[0] == text
            &&& r.drop_first() == ring.take(r.len() - 1)
            &&& r.len() <= RING_ENTRIES
            &&& ring_size(r) <= RING_BYTES
        },
{
    if size(text) <= RING_BYTES {
        let t = trimmed(ring, size(text));
        lemma_trimmed(ring, size(text));
        lemma_ring_size_front(text, t);
        assert((seq![text] + t).drop_first() =~= t);
    }
}

proof fn lemma_ring_size_front(text: Seq<char>, ring: Seq<Seq<char>>)
    ensures
        ring_size(seq![text] + ring) == size(text) + ring_size(ring),
    decreases ring.len(),
{
    if ring.len() > 0 {
        lemma_ring_size_front(text, ring.drop_last());
        assert((seq![text] + ring).drop_last() =~= seq![text] + ring.drop_last());
        assert((seq![text] + ring).last() == ring.last());
    } else {
        assert((seq![text] + ring).drop_last() =~= Seq::<Seq<char>>::empty());
        assert(ring_size(Seq::<Seq<char>>::empty()) == 0);
    }
}

/// Most bytes one repeated insertion may add.
pub const MAX_REPEATED_BYTES: usize = 1048576;

/// `s` written `n` times.
pub open spec fn repeated(s: Seq<char>, n: nat) -> Seq<char>
    decreases n,
{
    if n == 0 {
        Seq::empty()
    } else {
        repeated(s, (n - 1) as nat) + s
    }
}

/// How many times a numeric argument repeats an insertion: negative
/// arguments insert nothing.
pub open spec fn repeat_count(s: State) -> nat {
    match s.count {
        Some(c) => if c > 0 { c as nat } else { 0 },
        None => 1,
    }
}

fn repeat_text(text: &str, n: usize) -> (r: String)
    requires
        size(text@) * n <= MAX_REPEATED_BYTES,
    ensures
        r@ == repeated(text@, n as nat),
{
    let piece = crate::text::chars_of(text);
    let mut all: Vec<char> = Vec::new();
    let mut k: usize = 0;
    while k < n
        invariant
            0 <= k <= n,
            piece@ == text@,
            all@ == repeated(text@, k as nat),
        decreases n - k,
    {
        crate::text::extend_chars(&mut all, piece.as_slice());
        k = k + 1;
    }
    crate::text::string_of(all.as_slice())
}

impl Controller {
    /// Types `text` as often as the numeric argument says (negative: not at
    /// all), over the selection; the mark is left where the text starts.
    /// Refused when the repeated text would exceed 1 MiB.
    pub fn insert(&self, editor: &mut Editor, text: &str) -> (r: Result<(), String>)
        requires
            old(editor).wf(),
        ensures
            final(editor).wf(),
            ({
                let s = old(editor).emacs;
                let n = repeat_count(s);
                let c = old(editor).document@.cursor;
                let start = if c.position < c.anchor { c.position } else { c.anchor };
                let end = if c.position < c.anchor { c.anchor } else { c.position };
                let t = old(editor).document@.text;
                let rb = encode_utf8(repeated(text@, n));
                let cleared = State { count: None, digits: false, last_kill: false, yank: None, ..s };
                if size(text@) * n > MAX_REPEATED_BYTES {
                    &&& r matches Err(e) && e@ == "Repeated insertion is limited to 1 MiB"@
                    &&& final(editor).emacs == cleared
                    &&& final(editor).document@ == old(editor).document@
                } else if rb.len() == 0 || old(editor).read_only {
                    &&& r is Ok
                    &&& final(editor).document@ == old(editor).document@
                    &&& final(editor).emacs == (State { mark: Some(start), active_mark: false, ..cleared })
                } else if replacement_fits(t, start as int, end as int, rb) {
                    &&& r is Ok
                    &&& final(editor).document@.text == replaced(t, start as int, end as int, rb)
                    &&& final(editor).emacs == (State { mark: Some(start), active_mark: false, ..cleared })
                    &&& t.subrange(start as int, end as int) != rb ==> crate::editor::one_change(
                        *old(editor),
                        *final(editor),
                        start as int,
                        end as int,
                        rb,
                    )
                } else {
                    &&& r is Err
                    &&& final(editor).document@ == old(editor).document@
                }
            }),
    {
        let count = editor.emacs.take_count();
        let n: usize = if count > 0 { count as usize } else { 0 };
        editor.emacs.last_kill = false;
        editor.emacs.yank = None;
        let length = text.as_bytes().len();
        if n > 0 && length > MAX_REPEATED_BYTES / n {
            assert(length * n > MAX_REPEATED_BYTES) by (nonlinear_arith)
                requires
                    n > 0,
                    length > MAX_REPEATED_BYTES / n,
            ;
            return Err(string_from("Repeated insertion is limited to 1 MiB"));
        }
        assert(length * n <= MAX_REPEATED_BYTES) by (nonlinear_arith)
            requires
                n == 0 || length <= MAX_REPEATED_BYTES / n,
        ;
        let start = editor.document.selection_start();
        let all = repeat_text(text, n);
        proof {
            if n == 0 {
                assert(all@ =~= Seq::<char>::empty());
            }
        }
        let state = editor.emacs;
        let result = editor.insert(all.as_str());
        match result {
            Ok(()) => {
                editor.emacs = State { mark: Some(start), active_mark: false, ..state };
                Ok(())
            },
            Err(e) => Err(e),
        }
    }
}

/// What a key asks of the user interface around the editor.
#[derive(Clone, Debug, PartialEq, Eq)]
pub enum Ui {
    Nothing,
    /// Open the command bar with this text; whether to run it at once.
    Command(String, bool),
    /// Start an incremental search; whether backwards.
    Search(bool),
    /// Undo (or redo, when true) this many steps.
    History(bool, usize),
    OtherPane,
    Help,
    Split,
    OnlyPane,
    Cancel,
}

pub enum UiV {
    Nothing,
    Command(Seq<char>, bool),
    Search(bool),
    History(bool, nat),
    OtherPane,
    Help,
    Split,
    OnlyPane,
    Cancel,
}

impl View for Ui {
    type V = UiV;

    open spec fn view(&self) -> UiV {
        match self {
            Ui::Nothing => UiV::Nothing,
            Ui::Command(text, run) => UiV::Command(text@, *run),
            Ui::Search(backward) => UiV::Search(*backward),
            Ui::History(redo, n) => UiV::History(*redo, *n as nat),
            Ui::OtherPane => UiV::OtherPane,
            Ui::Help => UiV::Help,
            Ui::Split => UiV::Split,
            Ui::OnlyPane => UiV::OnlyPane,
            Ui::Cancel => UiV::Cancel,
        }
    }
}

/// What a key did: whether it was used, whether the text changed, and
/// what it asks of the user interface.
pub struct Outcome {
    pub consumed: bool,
    pub changed: bool,
    pub ui: Ui,
}

pub struct OutcomeV {
    pub consumed: bool,
    pub changed: bool,
    pub ui: UiV,
}

impl View for Outcome {
    type V = OutcomeV;

    open spec fn view(&self) -> OutcomeV {
        OutcomeV { consumed: self.consumed, changed: self.changed, ui: self.ui@ }
    }
}

pub open spec fn handled_v(ui: UiV) -> OutcomeV {
    OutcomeV { consumed: true, changed: false, ui }
}

pub open spec fn passed_v() -> OutcomeV {
    OutcomeV { consumed: false, changed: false, ui: UiV::Nothing }
}

impl Outcome {
    /// A key used without changing the text.
    pub fn handled(ui: Ui) -> (r: Self)
        ensures
            r@ == handled_v(ui@),
    {
        Outcome { consumed: true, changed: false, ui }
    }
}

/// Numeric arguments stay within ±1000.
pub open spec fn count_ok(s: State) -> bool {
    match s.count {
        Some(c) => -MAX_COUNT <= c <= MAX_COUNT,
        None => true,
    }
}

pub open spec fn is_modifier_key(key: u32) -> bool {
    key == KEY_LCTRL || key == KEY_RCTRL || key == KEY_LALT || key == KEY_RALT || key == KEY_LSHIFT
        || key == KEY_RSHIFT || key == KEY_LGUI || key == KEY_RGUI
}

/// Keys that edit or move even without Ctrl or Alt.
pub open spec fn is_editing_key(key: u32) -> bool {
    key == KEY_LEFT || key == KEY_RIGHT || key == KEY_UP || key == KEY_DOWN || key == KEY_HOME || key == KEY_END
        || key == KEY_PAGE_UP || key == KEY_PAGE_DOWN || key == KEY_BACKSPACE || key == KEY_DELETE
        || key == KEY_RETURN || key == KEY_KP_ENTER || key == KEY_TAB
}

/// The digit a key types, if any.
pub open spec fn digit_of(key: u32) -> Option<i32> {
    if KEY_0 <= key <= KEY_9 {
        Some((key - KEY_0) as i32)
    } else {
        None
    }
}

pub open spec fn clamp_count(v: int) -> i32 {
    if v > MAX_COUNT {
        MAX_COUNT
    } else if v < -MAX_COUNT {
        (-MAX_COUNT) as i32
    } else {
        v as i32
    }
}

/// The argument after typing digit `d`: digits append to an argument
/// being typed, else start a new one; the sign is kept and the size
/// capped at 1000.
pub open spec fn with_digit(s: State, d: i32) -> i32 {
    let old = match s.count {
        Some(c) => c,
        None => 1,
    };
    let magnitude: int = if old < 0 { -old } else { old as int };
    let value = if s.digits { magnitude * 10 + d } else { d as int };
    let capped = if value > MAX_COUNT { MAX_COUNT as int } else { value };
    (if old < 0 { -capped } else { capped }) as i32
}

pub open spec fn letter_key(c: char) -> u32 {
    c as u32
}

/// How a key is handled, as far as that depends on the Emacs state alone.
pub enum Step {
    /// Answered without touching the document: the new state, whether the
    /// key's text event is swallowed (`None`: as before), and the outcome.
    Done(State, Option<bool>, OutcomeV),
    /// Refused without touching the document.
    Fail(State, bool, Seq<char>),
    /// `C-g`: everything pending is dropped and the selection collapses.
    Cancel,
    /// `C-x h`: select the whole document.
    SelectAll(State, bool),
    /// `C-x C-x`: exchange point and mark.
    Exchange(State, bool),
    /// An editing key (see `edit_result`): the state after its argument was
    /// taken, whether text is swallowed, the key, its modifiers, the
    /// argument, whether it was given, whether the key before killed, and
    /// the last yank.
    Edit {
        state: State,
        swallow: bool,
        key: u32,
        ctrl: bool,
        meta: bool,
        shift: bool,
        count: i32,
        explicit: bool,
        was_kill: bool,
        old_yank: Option<(usize, usize, usize, usize)>,
    },
}

/// The prefix `C-x` sequences that only ask something of the user
/// interface.
pub open spec fn prefix_ui(key: u32, ctrl: bool, n: nat) -> Option<UiV> {
    if ctrl && key == letter_key('s') {
        Some(UiV::Command(":save"@, true))
    } else if ctrl && key == letter_key('f') {
        Some(UiV::Command(":open "@, false))
    } else if ctrl && key == letter_key('w') {
        Some(UiV::Command(":save-as "@, false))
    } else if ctrl && key == letter_key('c') {
        Some(UiV::Command(":quit"@, true))
    } else if !ctrl && key == letter_key('o') {
        Some(UiV::OtherPane)
    } else if !ctrl && (key == KEY_0 + 2 || key == KEY_0 + 3) {
        Some(UiV::Split)
    } else if !ctrl && key == KEY_0 + 1 {
        Some(UiV::OnlyPane)
    } else if !ctrl && key == letter_key('u') {
        Some(UiV::History(false, n))
    } else {
        None
    }
}

pub open spec fn magnitude(c: i32) -> nat {
    if c < 0 {
        (-c) as nat
    } else {
        c as nat
    }
}

/// How a key is handled after a `C-x` prefix; `s1` is the state with the
/// prefix and Meta taken.
pub open spec fn prefix_step(s1: State, key: u32, ctrl: bool, swallow: bool) -> Step {
    let count = match s1.count {
        Some(c) => c,
        None => 1,
    };
    let s2 = State { last_kill: false, yank: None, count: None, digits: false, ..s1 };
    match prefix_ui(key, ctrl, magnitude(count)) {
        Some(ui) => Step::Done(s2, Some(swallow), handled_v(ui)),
        None => if !ctrl && key == letter_key('h') {
            Step::SelectAll(s2, swallow)
        } else if ctrl && key == letter_key('x') {
            Step::Exchange(s2, swallow)
        } else {
            Step::Fail(s2, swallow, "Unsupported Emacs C-x sequence; Ctrl+G cancels"@)
        },
    }
}

/// How a key is handled without a prefix; `s1` is the state with Meta
/// taken, `meta` whether Meta applies.
pub open spec fn plain_step(s1: State, key: u32, mods: u16, meta: bool, swallow: bool) -> Step {
    let ctrl = has_ctrl(mods);
    let shift = has_shift(mods);
    let count = match s1.count {
        Some(c) => c,
        None => 1,
    };
    if ctrl && key == letter_key('x') {
        Step::Done(State { prefix: true, ..s1 }, Some(swallow), handled_v(UiV::Nothing))
    } else if ctrl && key == letter_key('u') {
        Step::Done(State { count: Some(clamp_count(count * 4)), digits: false, ..s1 }, Some(swallow), handled_v(UiV::Nothing))
    } else if (meta || s1.count is Some) && key == KEY_MINUS && !ctrl {
        Step::Done(State { count: Some(-count as i32), ..s1 }, Some(swallow), handled_v(UiV::Nothing))
    } else if (meta || s1.count is Some) && digit_of(key) is Some {
        Step::Done(State { count: Some(with_digit(s1, digit_of(key)->0)), digits: true, ..s1 }, Some(true), handled_v(UiV::Nothing))
    } else if !ctrl && !meta && !is_editing_key(key) {
        Step::Done(State { last_kill: false, yank: None, ..s1 }, Some(swallow), passed_v())
    } else {
        editing_step(s1, key, mods, meta, swallow)
    }
}

/// How a key that edits or moves is handled: its argument is taken first.
pub open spec fn editing_step(s1: State, key: u32, mods: u16, meta: bool, swallow: bool) -> Step {
    let ctrl = has_ctrl(mods);
    let shift = has_shift(mods);
    let count = match s1.count {
        Some(c) => c,
        None => 1,
    };
    let s2 = State { count: None, digits: false, last_kill: false, yank: None, ..s1 };
    let n = magnitude(count);
    if meta && key == letter_key('x') {
        Step::Done(s2, Some(swallow), handled_v(UiV::Command(":"@, false)))
    } else if ctrl && (key == letter_key('s') || key == letter_key('r')) {
        Step::Done(s2, Some(swallow), handled_v(UiV::Search(key == letter_key('r'))))
    } else if ctrl && key == letter_key('h') {
        Step::Done(s2, Some(swallow), handled_v(UiV::Help))
    } else if ctrl && (key == KEY_SLASH || key == KEY_UNDERSCORE || (shift && key == KEY_MINUS)) {
        Step::Done(s2, Some(swallow), handled_v(UiV::History(shift && key == KEY_SLASH, n)))
    } else {
        Step::Edit {
            state: s2,
            swallow,
            key,
            ctrl,
            meta,
            shift,
            count,
            explicit: s1.count is Some,
            was_kill: s1.last_kill,
            old_yank: s1.yank,
        }
    }
}

/// How a key that is neither a modifier, nor held with GUI, nor `C-g` or
/// Escape is handled: a pending Meta and prefix are taken first.
pub open spec fn sequence_step(s: State, key: u32, mods: u16) -> Step {
    let meta = s.meta || has_alt(mods);
    let s1 = State { meta: false, prefix: false, ..s };
    let swallow = meta || s.prefix;
    if s.prefix {
        prefix_step(s1, key, has_ctrl(mods), swallow)
    } else {
        plain_step(s1, key, mods, meta, swallow)
    }
}

/// How the key `key` with modifiers `mods` is handled in state `s`.
pub open spec fn key_step(s: State, key: u32, mods: u16) -> Step {
    if is_modifier_key(key) {
        Step::Done(s, None, handled_v(UiV::Nothing))
    } else if has_gui(mods) {
        Step::Done(State { last_kill: false, yank: None, mark: None, active_mark: false, ..s }, None, passed_v())
    } else if has_ctrl(mods) && key == letter_key('g') {
        Step::Cancel
    } else if key == KEY_ESCAPE {
        Step::Done(State { meta: true, ..s }, None, handled_v(UiV::Nothing))
    } else {
        sequence_step(s, key, mods)
    }
}

/// What handling a key did to the editor, the controller and the Emacs
/// state, for each way of handling it.
pub open spec fn step_effect(e0: Editor, e1: Editor, k0: Controller, k1: Controller, s1: State,
    r: Result<Outcome, String>, step: Step, page: usize) -> bool {
    let t = e0.document@.text;
    let c = e0.document@.cursor;
    match step {
        Step::Done(s2, swallow, o) => {
            &&& r matches Ok(out) && out@ == o
            &&& s1 == s2
            &&& e1.document@ == e0.document@
            &&& k1.ring() == k0.ring()
            &&& k1.suppressing() == match swallow {
                Some(b) => b,
                None => k0.suppressing(),
            }
        },
        Step::Fail(s2, swallow, m) => {
            &&& r matches Err(e) && e@ == m
            &&& s1 == s2
            &&& e1.document@ == e0.document@
            &&& k1.ring() == k0.ring()
            &&& k1.suppressing() == swallow
        },
        Step::Cancel => {
            &&& r matches Ok(out) && out@ == handled_v(UiV::Cancel)
            &&& s1 == crate::emacs::initial_state()
            &&& e1.document@ == (DocV { cursor: cursor_at(t, c.position as int, c.position as int, None), ..e0.document@ })
        },
        Step::SelectAll(s2, swallow) => {
            &&& r matches Ok(out) && out@ == handled_v(UiV::Nothing)
            &&& e1.document@ == (DocV { cursor: cursor_at(t, t.len() as int, 0, None), ..e0.document@ })
            &&& s1 == (State { mark: Some(0), active_mark: true, ..s2 })
            &&& k1.suppressing() == swallow
        },
        Step::Exchange(s2, swallow) => match s2.mark {
            None => {
                &&& r matches Err(e) && e@ == "No mark set; use Ctrl+Space"@
                &&& s1 == s2
                &&& e1.document@ == e0.document@
            },
            Some(m) => {
                let target = if m <= t.len() { m as int } else { t.len() as int };
                &&& r matches Ok(out) && out@ == handled_v(UiV::Nothing)
                &&& e1.document@ == (DocV { cursor: cursor_at(t, target, c.position as int, None), ..e0.document@ })
                &&& s1 == (State { mark: Some(c.position), active_mark: true, ..s2 })
            },
        },
        Step::Edit { state, swallow, key, ctrl, meta, shift, count, explicit, was_kill, old_yank } => edit_result(
            e0,
            e1,
            k0,
            k1,
            state,
            s1,
            r,
            key,
            ctrl,
            meta,
            shift,
            count,
            explicit,
            was_kill,
            old_yank,
            page,
        ),
    }
}

/// What handling any key keeps: the invariants, the editor's settings, a
/// read-only text, and the text whenever the key reports no change.
pub open spec fn key_kept(e0: Editor, e1: Editor, k0: Controller, k1: Controller, s1: State, r: Result<Outcome, String>) -> bool {
    &&& e1.wf()
    &&& k1.wf()
    &&& count_ok(s1)
    &&& e1.read_only == e0.read_only
    &&& e1.path == e0.path
    &&& e1.config == e0.config
    &&& (e0.read_only ==> e1.document@.text == e0.document@.text)
    &&& (r matches Ok(o) && !o.changed ==> e1.document@.text == e0.document@.text)
    &&& k1.origin() == k0.origin()
}

fn is_modifier_key_exec(key: u32) -> (r: bool)
    ensures
        r == is_modifier_key(key),
{
    key == KEY_LCTRL || key == KEY_RCTRL || key == KEY_LALT || key == KEY_RALT || key == KEY_LSHIFT
        || key == KEY_RSHIFT || key == KEY_LGUI || key == KEY_RGUI
}

fn is_editing_key_exec(key: u32) -> (r: bool)
    ensures
        r == is_editing_key(key),
{
    key == KEY_LEFT || key == KEY_RIGHT || key == KEY_UP || key == KEY_DOWN || key == KEY_HOME || key == KEY_END
        || key == KEY_PAGE_UP || key == KEY_PAGE_DOWN || key == KEY_BACKSPACE || key == KEY_DELETE
        || key == KEY_RETURN || key == KEY_KP_ENTER || key == KEY_TAB
}

fn digit(key: u32) -> (r: Option<i32>)
    ensures
        r == digit_of(key),
{
    if KEY_0 <= key && key <= KEY_9 {
        Some((key - KEY_0) as i32)
    } else {
        None
    }
}

fn prefix_command(key: u32, ctrl: bool, n: usize) -> (r: Option<Ui>)
    ensures
        match prefix_ui(key, ctrl, n as nat) {
            Some(ui) => r matches Some(u) && u@ == ui,
            None => r is None,
        },
{
    if ctrl && key == 's' as u32 {
        Some(Ui::Command(string_from(":save"), true))
    } else if ctrl && key == 'f' as u32 {
        Some(Ui::Command(string_from(":open "), false))
    } else if ctrl && key == 'w' as u32 {
        Some(Ui::Command(string_from(":save-as "), false))
    } else if ctrl && key == 'c' as u32 {
        Some(Ui::Command(string_from(":quit"), true))
    } else if !ctrl && key == 'o' as u32 {
        Some(Ui::OtherPane)
    } else if !ctrl && (key == KEY_0 + 2 || key == KEY_0 + 3) {
        Some(Ui::Split)
    } else if !ctrl && key == KEY_0 + 1 {
        Some(Ui::OnlyPane)
    } else if !ctrl && key == 'u' as u32 {
        Some(Ui::History(false, n))
    } else {
        None
    }
}

fn magnitude_exec(c: i32) -> (r: usize)
    requires
        -MAX_COUNT <= c <= MAX_COUNT,
    ensures
        r == magnitude(c),
        r <= MAX_COUNT,
{
    if c < 0 {
        (-c) as usize
    } else {
        c as usize
    }
}

/// What a key did depends on the editors' documents, histories and
/// read-only flags and the controllers' rings alone.
proof fn lemma_step_effect_same(e0: Editor, f0: Editor, e1: Editor, f1: Editor, k0: Controller, l0: Controller,
    k1: Controller, l1: Controller, s1: State, r: Result<Outcome, String>, step: Step, page: usize)
    requires
        e0.document@ == f0.document@,
        e0.undo_stack@ == f0.undo_stack@,
        e0.read_only == f0.read_only,
        e1.document@ == f1.document@,
        e1.undo_stack@ == f1.undo_stack@,
        k0.ring() == l0.ring(),
        k1.ring() == l1.ring(),
        k0.suppressing() == l0.suppressing() || step is Edit,
        step_effect(e0, e1, k0, k1, s1, r, step, page),
        k1.suppressing() == l1.suppressing(),
    ensures
        step_effect(f0, f1, l0, l1, s1, r, step, page),
{
    reveal(edit_result);
}

impl Controller {
    /// Handles a key in Emacs mode (see `key_step`); `page` is how many
    /// lines a page moves. The Emacs state is the editor's own.
    pub fn key<C: TextClipboard>(&mut self, editor: &mut Editor, clipboard: &C, key: u32, mods: u16, page: usize) -> (r: Result<Outcome, String>)
        requires
            old(editor).wf(),
            old(self).wf(),
            count_ok(old(editor).emacs),
        ensures
            key_kept(*old(editor), *final(editor), *old(self), *final(self), final(editor).emacs, r),
            step_effect(*old(editor), *final(editor), *old(self), *final(self), final(editor).emacs, r,
                key_step(old(editor).emacs, key, mods), page),
    {
        let mut s = editor.emacs;
        let r = self.step(editor, &mut s, clipboard, key, mods, page);
        let ghost stepped = *editor;
        editor.emacs = s;
        proof {
            lemma_step_effect_same(*old(editor), *old(editor), stepped, *editor, *old(self), *old(self), *self, *self, s,
                r, key_step(old(editor).emacs, key, mods), page);
        }
        r
    }

    fn step<C: TextClipboard>(&mut self, editor: &mut Editor, s: &mut State, clipboard: &C, key: u32, mods: u16, page: usize) -> (r: Result<Outcome, String>)
        requires
            old(editor).wf(),
            old(self).wf(),
            count_ok(*old(s)),
        ensures
            key_kept(*old(editor), *final(editor), *old(self), *final(self), *final(s), r),
            step_effect(*old(editor), *final(editor), *old(self), *final(self), *final(s), r, key_step(*old(s), key, mods), page),
    {
        if is_modifier_key_exec(key) {
            return Ok(Outcome::handled(Ui::Nothing));
        }
        if gui_pressed(mods) {
            s.last_kill = false;
            s.yank = None;
            s.mark = None;
            s.active_mark = false;
            return Ok(Outcome { consumed: false, changed: false, ui: Ui::Nothing });
        }
        if ctrl_pressed(mods) && key == 'g' as u32 {
            s.reset();
            let position = editor.document.cursor().position;
            let _ = editor.set_cursor_and_anchor(position, position);
            return Ok(Outcome::handled(Ui::Cancel));
        }
        if key == KEY_ESCAPE {
            s.meta = true;
            return Ok(Outcome::handled(Ui::Nothing));
        }
        let meta = s.meta || alt_pressed(mods);
        let swallow = meta || s.prefix;
        let prefixed = s.prefix;
        s.meta = false;
        s.prefix = false;
        self.suppress_text = swallow;
        let ghost started = *self;
        let r = if prefixed {
            self.prefixed(editor, s, key, ctrl_pressed(mods), swallow)
        } else {
            self.plain(editor, s, clipboard, key, mods, meta, swallow, page)
        };
        proof {
            if key_step(*old(s), key, mods) is Edit {
                lemma_step_effect_same(*old(editor), *old(editor), *editor, *editor, started, *old(self), *self, *self, *s,
                    r, key_step(*old(s), key, mods), page);
            }
        }
        r
    }

    fn prefixed(&mut self, editor: &mut Editor, s: &mut State, key: u32, ctrl: bool, swallow: bool) -> (r: Result<Outcome, String>)
        requires
            old(editor).wf(),
            old(self).wf(),
            count_ok(*old(s)),
            old(self).suppressing() == swallow,
        ensures
            key_kept(*old(editor), *final(editor), *old(self), *final(self), *final(s), r),
            step_effect(*old(editor), *final(editor), *old(self), *final(self), *final(s), r, prefix_step(*old(s), key, ctrl, swallow), 0),
            final(self).suppressing() == swallow,
    {
        s.last_kill = false;
        s.yank = None;
        let count = s.take_count();
        let n = magnitude_exec(count);
        match prefix_command(key, ctrl, n) {
            Some(ui) => {
                return Ok(Outcome::handled(ui));
            },
            None => {},
        }
        if !ctrl && key == 'h' as u32 {
            let length = editor.document.len();
            let _ = editor.set_cursor_and_anchor(length, 0);
            s.mark = Some(editor.document.cursor().anchor);
            s.active_mark = true;
            return Ok(Outcome::handled(Ui::Nothing));
        }
        if ctrl && key == 'x' as u32 {
            let mark = match s.mark {
                Some(m) => m,
                None => {
                    return Err(string_from("No mark set; use Ctrl+Space"));
                },
            };
            let length = editor.document.len();
            let target = if mark <= length { mark } else { length };
            let point = editor.document.cursor().position;
            let _ = editor.set_cursor_and_anchor(target, point);
            s.mark = Some(point);
            s.active_mark = true;
            return Ok(Outcome::handled(Ui::Nothing));
        }
        Err(string_from("Unsupported Emacs C-x sequence; Ctrl+G cancels"))
    }

    #[verifier::rlimit(40)]
    fn plain<C: TextClipboard>(&mut self, editor: &mut Editor, s: &mut State, clipboard: &C, key: u32, mods: u16,
        meta: bool, swallow: bool, page: usize) -> (r: Result<Outcome, String>)
        requires
            old(editor).wf(),
            old(self).wf(),
            count_ok(*old(s)),
            old(self).suppressing() == swallow,
        ensures
            key_kept(*old(editor), *final(editor), *old(self), *final(self), *final(s), r),
            step_effect(*old(editor), *final(editor), *old(self), *final(self), *final(s), r,
                plain_step(*old(s), key, mods, meta, swallow), page),
    {
        let ctrl = ctrl_pressed(mods);
        let shift = shift_pressed(mods);
        if ctrl && key == 'x' as u32 {
            s.prefix = true;
            return Ok(Outcome::handled(Ui::Nothing));
        }
        let current: i32 = match s.count {
            Some(c) => c,
            None => 1,
        };
        if ctrl && key == 'u' as u32 {
            let v = current * 4;
            s.count = Some(if v > MAX_COUNT { MAX_COUNT } else if v < -MAX_COUNT { -MAX_COUNT } else { v });
            s.digits = false;
            return Ok(Outcome::handled(Ui::Nothing));
        }
        if meta || s.count.is_some() {
            if key == KEY_MINUS && !ctrl {
                s.count = Some(-current);
                return Ok(Outcome::handled(Ui::Nothing));
            }
            match digit(key) {
                Some(d) => {
                    let magnitude: i32 = if current < 0 { -current } else { current };
                    let value: i32 = if s.digits { magnitude * 10 + d } else { d };
                    let capped: i32 = if value > MAX_COUNT { MAX_COUNT } else { value };
                    s.count = Some(if current < 0 { -capped } else { capped });
                    s.digits = true;
                    self.suppress_text = true;
                    return Ok(Outcome::handled(Ui::Nothing));
                },
                None => {},
            }
        }
        if !ctrl && !meta && !is_editing_key_exec(key) {
            s.last_kill = false;
            s.yank = None;
            return Ok(Outcome { consumed: false, changed: false, ui: Ui::Nothing });
        }
        self.editing(editor, s, clipboard, key, mods, meta, swallow, page)
    }

    fn editing<C: TextClipboard>(&mut self, editor: &mut Editor, s: &mut State, clipboard: &C, key: u32, mods: u16,
        meta: bool, swallow: bool, page: usize) -> (r: Result<Outcome, String>)
        requires
            old(editor).wf(),
            old(self).wf(),
            count_ok(*old(s)),
            old(self).suppressing() == swallow,
        ensures
            key_kept(*old(editor), *final(editor), *old(self), *final(self), *final(s), r),
            step_effect(*old(editor), *final(editor), *old(self), *final(self), *final(s), r,
                editing_step(*old(s), key, mods, meta, swallow), page),
    {
        let ctrl = ctrl_pressed(mods);
        let shift = shift_pressed(mods);
        let explicit = s.count.is_some();
        let was_kill = s.last_kill;
        let old_yank = s.yank;
        let count = s.take_count();
        s.last_kill = false;
        s.yank = None;
        let n = magnitude_exec(count);
        if meta && key == 'x' as u32 {
            return Ok(Outcome::handled(Ui::Command(string_from(":"), false)));
        }
        if ctrl && (key == 's' as u32 || key == 'r' as u32) {
            return Ok(Outcome::handled(Ui::Search(key == 'r' as u32)));
        }
        if ctrl && key == 'h' as u32 {
            return Ok(Outcome::handled(Ui::Help));
        }
        if ctrl && (key == KEY_SLASH || key == KEY_UNDERSCORE || (shift && key == KEY_MINUS)) {
            return Ok(Outcome::handled(Ui::History(shift && key == KEY_SLASH, n)));
        }
        let context = EditContext { ctrl, meta, shift, count, explicit, was_kill, old_yank, page };
        self.edit(editor, s, clipboard, key, context)
    }
}

/// Ways the point moves.
#[derive(Clone, Copy, Debug, PartialEq, Eq, Structural)]
pub enum Motion {
    Char(bool),
    Word(bool),
    Line(bool),
    Edge(bool),
    Page(bool),
    Buffer(bool),
}

/// The motion a key makes, if it is one.
pub open spec fn motion_of(ctrl: bool, meta: bool, shift: bool, key: u32) -> Option<Motion> {
    let c = ctrl && !meta;
    let bare = !ctrl && !meta;
    let m = !ctrl && meta;
    if (c && key == letter_key('f')) || (bare && key == KEY_RIGHT) {
        Some(Motion::Char(true))
    } else if (c && key == letter_key('b')) || (bare && key == KEY_LEFT) {
        Some(Motion::Char(false))
    } else if (c && key == letter_key('n')) || (bare && key == KEY_DOWN) {
        Some(Motion::Line(true))
    } else if (c && key == letter_key('p')) || (bare && key == KEY_UP) {
        Some(Motion::Line(false))
    } else if (c && key == letter_key('a')) || (bare && key == KEY_HOME) {
        Some(Motion::Edge(false))
    } else if (c && key == letter_key('e')) || (bare && key == KEY_END) {
        Some(Motion::Edge(true))
    } else if m && key == letter_key('f') {
        Some(Motion::Word(true))
    } else if m && key == letter_key('b') {
        Some(Motion::Word(false))
    } else if (c && key == letter_key('v')) || (bare && key == KEY_PAGE_DOWN) {
        Some(Motion::Page(true))
    } else if (m && key == letter_key('v')) || (bare && key == KEY_PAGE_UP) {
        Some(Motion::Page(false))
    } else if m && (key == KEY_LESS || (shift && key == KEY_COMMA)) {
        Some(Motion::Buffer(false))
    } else if m && (key == KEY_GREATER || (shift && key == KEY_PERIOD)) {
        Some(Motion::Buffer(true))
    } else {
        None
    }
}

fn motion(ctrl: bool, meta: bool, shift: bool, key: u32) -> (r: Option<Motion>)
    ensures
        r == motion_of(ctrl, meta, shift, key),
{
    let c = ctrl && !meta;
    let bare = !ctrl && !meta;
    let m = !ctrl && meta;
    if (c && key == 'f' as u32) || (bare && key == KEY_RIGHT) {
        Some(Motion::Char(true))
    } else if (c && key == 'b' as u32) || (bare && key == KEY_LEFT) {
        Some(Motion::Char(false))
    } else if (c && key == 'n' as u32) || (bare && key == KEY_DOWN) {
        Some(Motion::Line(true))
    } else if (c && key == 'p' as u32) || (bare && key == KEY_UP) {
        Some(Motion::Line(false))
    } else if (c && key == 'a' as u32) || (bare && key == KEY_HOME) {
        Some(Motion::Edge(false))
    } else if (c && key == 'e' as u32) || (bare && key == KEY_END) {
        Some(Motion::Edge(true))
    } else if m && key == 'f' as u32 {
        Some(Motion::Word(true))
    } else if m && key == 'b' as u32 {
        Some(Motion::Word(false))
    } else if (c && key == 'v' as u32) || (bare && key == KEY_PAGE_DOWN) {
        Some(Motion::Page(true))
    } else if (m && key == 'v' as u32) || (bare && key == KEY_PAGE_UP) {
        Some(Motion::Page(false))
    } else if m && (key == KEY_LESS || (shift && key == KEY_COMMA)) {
        Some(Motion::Buffer(false))
    } else if m && (key == KEY_GREATER || (shift && key == KEY_PERIOD)) {
        Some(Motion::Buffer(true))
    } else {
        None
    }
}

/// The bytes of the character that starts at `p`.
pub open spec fn char_bytes(t: Seq<u8>, p: int) -> Seq<u8> {
    t.subrange(p, next_boundary(t, p))
}

/// Whether a text starts with a word character: alphanumeric or `_`.
pub open spec fn starts_word(s: Seq<char>) -> bool {
    s.len() > 0 && (alphanumeric(s[0]) || s[0] == '_')
}

/// Whether the character at `p` belongs to a word; `None` where its bytes
/// are not UTF-8.
pub open spec fn word_char(t: Seq<u8>, p: int) -> Option<bool> {
    if valid_utf8(char_bytes(t, p)) {
        Some(starts_word(decode_utf8(char_bytes(t, p))))
    } else {
        None
    }
}

/// Where the point stops moving forward from `p` over characters whose
/// word-ness is `word`: at the end of the text or at the first other
/// character; `None` where a character on the way is not UTF-8.
pub open spec fn forward_while(t: Seq<u8>, p: nat, word: bool) -> Option<nat>
    decreases t.len() - p,
{
    if p >= t.len() {
        Some(p)
    } else {
        match word_char(t, p as int) {
            None => None,
            Some(w) => if w == word {
                proof {
                    crate::document::lemma_next_boundary(t, p as int);
                }
                forward_while(t, next_boundary(t, p as int) as nat, word)
            } else {
                Some(p)
            },
        }
    }
}

/// Where the point stops moving backward from `p` over characters whose
/// word-ness is `word`: at the start of the text or after the first other
/// character; `None` where a character on the way is not UTF-8.
pub open spec fn backward_while(t: Seq<u8>, p: nat, word: bool) -> Option<nat>
    decreases p,
{
    if p == 0 || p > t.len() {
        Some(p)
    } else {
        let q = previous_boundary(t, p as int);
        match word_char(t, q) {
            None => None,
            Some(w) => if w == word {
                proof {
                    crate::document::lemma_previous_boundary(t, p as int);
                }
                backward_while(t, q as nat, word)
            } else {
                Some(p)
            },
        }
    }
}

/// Where the next word ends (forward) or the previous one starts: past the
/// characters outside words, then past those of the word.
pub open spec fn word_boundary_of(t: Seq<u8>, p: nat, forward: bool) -> Option<nat> {
    if forward {
        match forward_while(t, p, false) {
            Some(q) => forward_while(t, q, true),
            None => None,
        }
    } else {
        match backward_while(t, p, false) {
            Some(q) => backward_while(t, q, true),
            None => None,
        }
    }
}

/// Whether the character at `p` belongs to a word: alphanumeric or `_`.
fn word_at(document: &Document, p: usize) -> (r: Result<bool, String>)
    requires
        document.wf(),
        p < document@.text.len(),
    ensures
        match word_char(document@.text, p as int) {
            Some(w) => r == Ok::<bool, String>(w),
            None => r is Err,
        },
{
    let end = document.next_char_boundary(p);
    let bytes = match document.read_range(p, end - p) {
        Ok(b) => b,
        Err(e) => {
            return Err(e);
        },
    };
    let text = match string_from_utf8(bytes) {
        Ok(t) => t,
        Err(e) => {
            return Err(e);
        },
    };
    proof {
        vstd::utf8::encode_utf8_decode_utf8(text@);
    }
    let chars = chars_of(text.as_str());
    if chars.len() == 0 {
        return Ok(false);
    }
    let c = chars[0];
    Ok(is_alphanumeric(c) || c == '_')
}

/// Where the next word ends (forward) or the previous one starts.
fn word_boundary(document: &Document, point: usize, forward: bool) -> (r: Result<usize, String>)
    requires
        document.wf(),
        point <= document@.text.len(),
    ensures
        match word_boundary_of(document@.text, point as nat, forward) {
            Some(q) => r matches Ok(v) && v == q && q <= document@.text.len(),
            None => r is Err,
        },
{
    let ghost t = document@.text;
    let length = document.len();
    let mut p = point;
    if forward {
        loop
            invariant
                document.wf(),
                t == document@.text,
                forward,
                length == t.len(),
                p <= length,
                forward_while(t, p as nat, false) == forward_while(t, point as nat, false),
            ensures
                p <= length,
                forward_while(t, point as nat, false) == Some(p as nat),
            decreases length - p,
        {
            if p >= length {
                break;
            }
            match word_at(document, p) {
                Err(e) => {
                    return Err(e);
                },
                Ok(true) => {
                    break;
                },
                Ok(false) => {},
            }
            p = document.next_char_boundary(p);
        }
        let ghost q = p;
        loop
            invariant
                document.wf(),
                t == document@.text,
                forward,
                length == t.len(),
                q <= p <= length,
                forward_while(t, point as nat, false) == Some(q as nat),
                forward_while(t, p as nat, true) == forward_while(t, q as nat, true),
            ensures
                p <= length,
                forward_while(t, q as nat, true) == Some(p as nat),
            decreases length - p,
        {
            if p >= length {
                break;
            }
            match word_at(document, p) {
                Err(e) => {
                    return Err(e);
                },
                Ok(false) => {
                    break;
                },
                Ok(true) => {},
            }
            p = document.next_char_boundary(p);
        }
    } else {
        loop
            invariant
                document.wf(),
                t == document@.text,
                !forward,
                length == t.len(),
                p <= length,
                backward_while(t, p as nat, false) == backward_while(t, point as nat, false),
            ensures
                p <= length,
                backward_while(t, point as nat, false) == Some(p as nat),
            decreases p,
        {
            if p == 0 {
                break;
            }
            let previous = document.previous_char_boundary(p);
            match word_at(document, previous) {
                Err(e) => {
                    return Err(e);
                },
                Ok(true) => {
                    break;
                },
                Ok(false) => {},
            }
            p = previous;
        }
        let ghost q = p;
        loop
            invariant
                document.wf(),
                t == document@.text,
                !forward,
                length == t.len(),
                p <= length,
                backward_while(t, point as nat, false) == Some(q as nat),
                backward_while(t, p as nat, true) == backward_while(t, q as nat, true),
            ensures
                p <= length,
                backward_while(t, q as nat, true) == Some(p as nat),
            decreases p,
        {
            if p == 0 {
                break;
            }
            let previous = document.previous_char_boundary(p);
            match word_at(document, previous) {
                Err(e) => {
                    return Err(e);
                },
                Ok(false) => {
                    break;
                },
                Ok(true) => {},
            }
            p = previous;
        }
    }
    Ok(p)
}

/// The document after the point moves `lines` lines down (or up).
pub open spec fn moved_lines(d: DocV, down: bool, lines: nat, selecting: bool) -> DocV
    decreases lines,
{
    if lines == 0 {
        d
    } else {
        moved_lines(crate::editor::moved_vertically(d, down, selecting), down, (lines - 1) as nat, selecting)
    }
}

/// Where the point lands after one motion other than by lines; `None` where
/// a word motion meets bytes that are not UTF-8.
pub open spec fn motion_target(t: Seq<u8>, point: int, motion: Motion, reverse: bool) -> Option<int> {
    match motion {
        Motion::Char(forward) => if forward != reverse {
            Some(if point < t.len() { next_boundary(t, point) } else { t.len() as int })
        } else {
            Some(if point > 0 { previous_boundary(t, point) } else { 0 })
        },
        Motion::Word(forward) => match word_boundary_of(t, point as nat, forward != reverse) {
            Some(q) => Some(q as int),
            None => None,
        },
        Motion::Edge(end) => Some(if end != reverse { line_end(t, point) } else { line_start(t, point) }),
        Motion::Buffer(end) => Some(if end != reverse { t.len() as int } else { 0 }),
        _ => None,
    }
}

/// The document after the point moves once by `motion` (backwards when
/// `reverse`), the anchor kept when selecting; `None` where the motion
/// fails.
pub open spec fn point_moved(d: DocV, motion: Motion, reverse: bool, selecting: bool, page: nat) -> Option<DocV> {
    match motion {
        Motion::Line(forward) => Some(moved_lines(d, forward != reverse, 1, selecting)),
        Motion::Page(forward) => Some(moved_lines(d, forward != reverse, page, selecting)),
        _ => match motion_target(d.text, d.cursor.position as int, motion, reverse) {
            Some(q) => Some(
                DocV { cursor: cursor_at(d.text, q, if selecting { d.cursor.anchor as int } else { q }, None), ..d },
            ),
            None => None,
        },
    }
}

/// `C-a` and `C-e` move the point to the start and the end of its line,
/// as Home and End do, in every document: the end is the first line break
/// at or after the point (or the end of the text), the start is just after
/// the last line break before it (or the start of the text).
pub proof fn ctrl_a_and_e_move_to_line_edges(d: DocV, shift: bool, selecting: bool, page: nat)
    requires
        crate::document::cursor_ok(d.text, d.cursor),
        d.text.len() <= usize::MAX,
    ensures
        motion_of(true, false, shift, letter_key('e')) == motion_of(false, false, shift, KEY_END),
        motion_of(true, false, shift, letter_key('a')) == motion_of(false, false, shift, KEY_HOME),
        motion_of(true, false, shift, letter_key('e')) matches Some(m) && point_moved(d, m, false, selecting, page)
            matches Some(d2) && d2.text == d.text && {
            let p = d2.cursor.position as int;
            &&& d.cursor.position <= p <= d.text.len()
            &&& (p < d.text.len() ==> d.text[p] == 10)
            &&& forall|k: int| d.cursor.position <= k < p ==> d.text[k] != 10
        },
        motion_of(true, false, shift, letter_key('a')) matches Some(m) && point_moved(d, m, false, selecting, page)
            matches Some(d2) && d2.text == d.text && {
            let p = d2.cursor.position as int;
            &&& 0 <= p <= d.cursor.position
            &&& (p > 0 ==> d.text[p - 1] == 10)
            &&& forall|k: int| p <= k < d.cursor.position ==> d.text[k] != 10
        },
{
    let t = d.text;
    let q = d.cursor.position as int;
    crate::document::lemma_line_end(t, q);
    crate::document::lemma_line_start(t, q);
    lemma_line_end_clear(t, q);
    lemma_line_start_clear(t, q);
}

proof fn lemma_line_end_clear(t: Seq<u8>, p: int)
    requires
        0 <= p <= t.len(),
    ensures
        forall|k: int| p <= k < line_end(t, p) ==> t[k] != 10,
    decreases t.len() - p,
{
    if !(p >= t.len() || t[p] == 10) {
        lemma_line_end_clear(t, p + 1);
    }
}

proof fn lemma_line_start_clear(t: Seq<u8>, p: int)
    requires
        0 <= p <= t.len(),
    ensures
        forall|k: int| line_start(t, p) <= k < p ==> t[k] != 10,
        line_start(t, p) > 0 ==> t[line_start(t, p) - 1] == 10,
    decreases p,
{
    if !(p <= 0 || t[p - 1] == 10) {
        lemma_line_start_clear(t, p - 1);
    }
}

/// Moves the point `lines` lines down (or up), keeping the anchor when
/// selecting.
fn move_lines(editor: &mut Editor, down: bool, lines: usize, selecting: bool)
    requires
        old(editor).wf(),
    ensures
        final(editor).wf(),
        final(editor).only_cursor_moved(old(editor)),
        final(editor).document@ == moved_lines(old(editor).document@, down, lines as nat, selecting),
{
    let mut k: usize = 0;
    while k < lines
        invariant
            editor.wf(),
            editor.only_cursor_moved(old(editor)),
            k <= lines,
            moved_lines(editor.document@, down, (lines - k) as nat, selecting)
                == moved_lines(old(editor).document@, down, lines as nat, selecting),
        decreases lines - k,
    {
        let _ = if down {
            if selecting { editor.select_down() } else { editor.move_down() }
        } else {
            if selecting { editor.select_up() } else { editor.move_up() }
        };
        k = k + 1;
    }
}

/// Moves the point once by `motion` (backwards when `reverse`).
fn move_point(editor: &mut Editor, motion: Motion, reverse: bool, selecting: bool, page: usize) -> (r: Result<(), String>)
    requires
        old(editor).wf(),
    ensures
        final(editor).wf(),
        final(editor).only_cursor_moved(old(editor)),
        match point_moved(old(editor).document@, motion, reverse, selecting, page as nat) {
            Some(d) => r is Ok && final(editor).document@ == d,
            None => r is Err && *final(editor) == *old(editor),
        },
{
    let c = editor.document.cursor();
    let anchor = if selecting { c.anchor } else { c.position };
    let point = c.position;
    let length = editor.document.len();
    let target = match motion {
        Motion::Line(forward) => {
            move_lines(editor, forward != reverse, 1, selecting);
            return Ok(());
        },
        Motion::Page(forward) => {
            move_lines(editor, forward != reverse, page, selecting);
            return Ok(());
        },
        Motion::Char(forward) => if forward != reverse {
            if point < length { editor.document.next_char_boundary(point) } else { length }
        } else {
            if point > 0 { editor.document.previous_char_boundary(point) } else { 0 }
        },
        Motion::Word(forward) => match word_boundary(&editor.document, point, forward != reverse) {
            Ok(p) => p,
            Err(e) => {
                return Err(e);
            },
        },
        Motion::Edge(end) => if end != reverse {
            editor.document.line_end_exec(point)
        } else {
            editor.document.line_start_exec(point)
        },
        Motion::Buffer(end) => if end != reverse { length } else { 0 },
    };
    proof {
        crate::document::lemma_line_end(editor.document@.text, point as int);
        crate::document::lemma_line_start(editor.document@.text, point as int);
    }
    editor.set_cursor_and_anchor(target, if selecting { anchor } else { target })
}

/// What an editing key works with besides the key itself.
struct EditContext {
    ctrl: bool,
    meta: bool,
    shift: bool,
    count: i32,
    explicit: bool,
    was_kill: bool,
    old_yank: Option<(usize, usize, usize, usize)>,
    page: usize,
}

/// The command an editing key runs, if it is one.
pub open spec fn command_of(ctrl: bool, meta: bool, key: u32) -> Option<Command> {
    let c = ctrl && !meta;
    let bare = !ctrl && !meta;
    if (c && key == letter_key('d')) || (bare && key == KEY_DELETE) {
        Some(Command::Delete)
    } else if bare && key == KEY_BACKSPACE {
        Some(Command::Backspace)
    } else if (c && (key == letter_key('j') || key == letter_key('m'))) || (bare && (key == KEY_RETURN || key == KEY_KP_ENTER)) {
        Some(Command::Newline)
    } else if bare && key == KEY_TAB {
        Some(Command::InsertTab)
    } else {
        None
    }
}

fn command(ctrl: bool, meta: bool, key: u32) -> (r: Option<Command>)
    ensures
        r == command_of(ctrl, meta, key),
{
    let c = ctrl && !meta;
    let bare = !ctrl && !meta;
    if (c && key == 'd' as u32) || (bare && key == KEY_DELETE) {
        Some(Command::Delete)
    } else if bare && key == KEY_BACKSPACE {
        Some(Command::Backspace)
    } else if (c && (key == 'j' as u32 || key == 'm' as u32)) || (bare && (key == KEY_RETURN || key == KEY_KP_ENTER)) {
        Some(Command::Newline)
    } else if bare && key == KEY_TAB {
        Some(Command::InsertTab)
    } else {
        None
    }
}

/// Where a line kill that starts at `from` ends after one step: forward
/// to the end of the line, taking the newline too at an empty rest or with
/// an explicit argument; backward to the start of the line, or over the
/// newline before it when already there.
pub open spec fn line_kill_step(t: Seq<u8>, from: int, point: int, forward: bool, explicit: bool) -> int {
    if forward {
        let end = line_end(t, from);
        if (explicit || end == point) && end < t.len() { next_boundary(t, end) } else { end }
    } else {
        let start = line_start(t, from);
        if start == from && start > 0 { previous_boundary(t, start) } else { start }
    }
}

/// Where a line kill that starts at `from` ends after one step: forward
/// to the end of the line, taking the newline too at an empty rest or with
/// an explicit argument; backward to the start of the line, or over the
/// newline before it when already there.
fn kill_line_step(document: &Document, from: usize, point: usize, forward: bool, explicit: bool) -> (r: usize)
    requires
        document.wf(),
        from <= document@.text.len(),
    ensures
        r <= document@.text.len(),
        r == line_kill_step(document@.text, from as int, point as int, forward, explicit),
{
    proof {
        crate::document::lemma_line_end(document@.text, from as int);
        crate::document::lemma_line_start(document@.text, from as int);
    }
    if forward {
        let end = document.line_end_exec(from);
        if (explicit || end == point) && end < document.len() {
            document.next_char_boundary(end)
        } else {
            end
        }
    } else {
        let start = document.line_start_exec(from);
        if start == from && start > 0 {
            document.previous_char_boundary(start)
        } else {
            start
        }
    }
}

/// The document after `n` motions; `None` where one fails.
pub open spec fn moved_times(d: DocV, motion: Motion, reverse: bool, selecting: bool, page: nat, n: nat) -> Option<DocV>
    decreases n,
{
    if n == 0 {
        Some(d)
    } else {
        match point_moved(d, motion, reverse, selecting, page) {
            Some(d2) => moved_times(d2, motion, reverse, selecting, page, (n - 1) as nat),
            None => None,
        }
    }
}

/// `n` line breaks.
pub open spec fn newlines(n: nat) -> Seq<char> {
    Seq::new(n, |i: int| '\n')
}

/// What an editing key did, by the first of these that it is: `C-SPC` sets
/// the mark at the point; a motion moves `n` times (see `moved_times`);
/// kill and copy keys kill (see `kill_result`); `C-y` and `M-y` yank (see
/// `yank_result`); an editing command runs `n` times as one undo step;
/// `C-o` opens `n` lines after the point; any other key is refused without
/// a change.
#[verifier::opaque]
pub open spec fn edit_result(e0: Editor, e1: Editor, k0: Controller, k1: Controller, s0: State, s1: State,
    r: Result<Outcome, String>, key: u32, ctrl: bool, meta: bool, shift: bool, count: i32, explicit: bool,
    was_kill: bool, old_yank: Option<(usize, usize, usize, usize)>, page: usize) -> bool {
    let d = e0.document@;
    let c = d.cursor;
    let n = magnitude(count);
    let reverse = count < 0;
    let unchanged = e1.document@ == e0.document@ && e1.undo_stack@ == e0.undo_stack@ && k1.ring() == k0.ring()
        && s1 == s0;
    let copy = meta && key == letter_key('w');
    let kill_region = ctrl && key == letter_key('w');
    let kill_line = ctrl && key == letter_key('k');
    let kill_word = meta && (key == letter_key('d') || key == KEY_BACKSPACE || key == KEY_DELETE);
    if ctrl && key == KEY_SPACE {
        &&& r matches Ok(o) && o@ == handled_v(UiV::Nothing)
        &&& e1.document@ == (DocV { cursor: cursor_at(d.text, c.position as int, c.position as int, None), ..d })
        &&& s1.mark == Some(c.position)
        &&& s1.active_mark
        &&& k1.ring() == k0.ring()
    } else if motion_of(ctrl, meta, shift, key) is Some {
        let m = motion_of(ctrl, meta, shift, key)->0;
        let selecting = s0.active_mark || c.position != c.anchor || (shift && !meta);
        &&& e1.document@.text == d.text
        &&& e1.undo_stack@ == e0.undo_stack@
        &&& k1.ring() == k0.ring()
        &&& match moved_times(d, m, reverse, selecting, page as nat, n) {
            Some(d2) => {
                &&& r matches Ok(o) && o@ == handled_v(UiV::Nothing)
                &&& e1.document@ == d2
                &&& s1.active_mark == selecting
                &&& (selecting && !s0.active_mark ==> s1.mark == Some(c.anchor))
            },
            None => r is Err,
        }
    } else if copy || kill_region || kill_line || kill_word {
        kill_result(e0, e1, k0, k1, s0, s1, r, key, copy, kill_region, kill_word, n, reverse, explicit, was_kill)
    } else if (ctrl || meta) && key == letter_key('y') {
        yank_result(e0, e1, k0, k1, s0, s1, r, meta, n, old_yank)
    } else if command_of(ctrl, meta, key) is Some {
        &&& e0.read_only ==> (r matches Err(m) && m@ == "This file is open for viewing"@) && unchanged
        &&& !e0.read_only && r is Ok ==> {
            &&& r matches Ok(o) && o@ == (OutcomeV { consumed: true, changed: true, ui: UiV::Nothing })
            &&& s1.mark == Some(e1.document@.cursor.position)
            &&& !s1.active_mark
        }
    } else if ctrl && key == letter_key('o') {
        let start = if c.position < c.anchor { c.position as int } else { c.anchor as int };
        let end = if c.position < c.anchor { c.anchor as int } else { c.position as int };
        let rb = encode_utf8(newlines(n));
        let t2 = if n > 0 { replaced(d.text, start, end, rb) } else { d.text };
        if e0.read_only {
            (r matches Err(m) && m@ == "This file is open for viewing"@) && unchanged
        } else if n > 0 && !replacement_fits(d.text, start, end, rb) {
            r is Err && e1.document@ == d
        } else if c.position > t2.len() {
            r is Err && e1.document@.text == t2
        } else {
            &&& r matches Ok(o) && o@ == (OutcomeV { consumed: true, changed: true, ui: UiV::Nothing })
            &&& e1.document@.text == t2
            &&& e1.document@.cursor == cursor_at(t2, c.position as int, c.position as int, None)
            &&& !s1.active_mark
        }
    } else {
        (r matches Err(m) && m@ == "Emacs key sequence is not supported; Alt+X opens commands, Ctrl+G cancels"@)
            && unchanged
    }
}

/// Runs an editing command `n` times as one undo step.
fn run_command(editor: &mut Editor, cmd: Command, n: usize) -> (r: Result<(), String>)
    requires
        old(editor).wf(),
        !old(editor).read_only,
    ensures
        final(editor).wf(),
        final(editor).path == old(editor).path,
        final(editor).config == old(editor).config,
        final(editor).read_only == old(editor).read_only,
{
    let history = editor.begin_history_group();
    let mut k: usize = 0;
    while k < n
        invariant
            editor.wf(),
            !editor.read_only,
            editor.path == old(editor).path,
            editor.config == old(editor).config,
            editor.read_only == old(editor).read_only,
        decreases n - k,
    {
        match editor.execute(cmd) {
            Ok(()) => {},
            Err(e) => {
                return Err(e);
            },
        }
        k = k + 1;
    }
    editor.end_history_group(history);
    Ok(())
}

/// Opens `n` lines after the point: types `n` line breaks over the
/// selection, the point staying where it was.
fn open_lines(editor: &mut Editor, n: usize) -> (r: Result<(), String>)
    requires
        old(editor).wf(),
        !old(editor).read_only,
    ensures
        final(editor).wf(),
        final(editor).path == old(editor).path,
        final(editor).config == old(editor).config,
        final(editor).read_only == old(editor).read_only,
        ({
            let d = old(editor).document@;
            let c = d.cursor;
            let start = if c.position < c.anchor { c.position as int } else { c.anchor as int };
            let end = if c.position < c.anchor { c.anchor as int } else { c.position as int };
            let rb = encode_utf8(newlines(n as nat));
            let t2 = if n > 0 { replaced(d.text, start, end, rb) } else { d.text };
            if n > 0 && !replacement_fits(d.text, start, end, rb) {
                r is Err && final(editor).document@ == d
            } else {
                &&& final(editor).document@.text == t2
                &&& c.position <= t2.len() ==> r is Ok && final(editor).document@.cursor == cursor_at(
                    t2,
                    c.position as int,
                    c.position as int,
                    None,
                )
                &&& c.position > t2.len() ==> r is Err
            }
        }),
{
    let point = editor.document.cursor().position;
    let mut breaks: Vec<char> = Vec::new();
    let mut k: usize = 0;
    while k < n
        invariant
            k <= n,
            breaks@ =~= newlines(k as nat),
        decreases n - k,
    {
        breaks.push('\n');
        k = k + 1;
    }
    let lines = crate::text::string_of(breaks.as_slice());
    match editor.insert_text(lines.as_str()) {
        Ok(()) => {},
        Err(e) => {
            return Err(e);
        },
    }
    editor.set_cursor_and_anchor(point, point)
}

/// Moves the point `n` times by `motion` (see `moved_times`).
fn move_times(editor: &mut Editor, motion: Motion, reverse: bool, selecting: bool, page: usize, n: usize) -> (r: Result<(), String>)
    requires
        old(editor).wf(),
    ensures
        final(editor).wf(),
        final(editor).only_cursor_moved(old(editor)),
        match moved_times(old(editor).document@, motion, reverse, selecting, page as nat, n as nat) {
            Some(d) => r is Ok && final(editor).document@ == d,
            None => r is Err,
        },
{
    let mut k: usize = 0;
    while k < n
        invariant
            k <= n,
            editor.wf(),
            editor.only_cursor_moved(old(editor)),
            moved_times(editor.document@, motion, reverse, selecting, page as nat, (n - k) as nat)
                == moved_times(old(editor).document@, motion, reverse, selecting, page as nat, n as nat),
        decreases n - k,
    {
        let ghost before = editor.document@;
        match move_point(editor, motion, reverse, selecting, page) {
            Ok(()) => {},
            Err(e) => {
                return Err(e);
            },
        }
        assert(moved_times(before, motion, reverse, selecting, page as nat, (n - k) as nat) == moved_times(
            editor.document@,
            motion,
            reverse,
            selecting,
            page as nat,
            (n - k - 1) as nat,
        ));
        k = k + 1;
    }
    Ok(())
}

impl Controller {
    #[verifier::rlimit(50)]
    fn edit<C: TextClipboard>(&mut self, editor: &mut Editor, s: &mut State, clipboard: &C, key: u32, x: EditContext) -> (r: Result<Outcome, String>)
        requires
            old(editor).wf(),
            old(self).wf(),
            count_ok(*old(s)),
            -MAX_COUNT <= x.count <= MAX_COUNT,
        ensures
            key_kept(*old(editor), *final(editor), *old(self), *final(self), *final(s), r),
            edit_result(*old(editor), *final(editor), *old(self), *final(self), *old(s), *final(s), r, key, x.ctrl,
                x.meta, x.shift, x.count, x.explicit, x.was_kill, x.old_yank, x.page),
    {
        proof {
            reveal(edit_result);
        }
        let n = magnitude_exec(x.count);
        let reverse = x.count < 0;
        let ctrl = x.ctrl;
        let meta = x.meta;
        if ctrl && key == KEY_SPACE {
            let point = editor.document.cursor().position;
            s.mark = Some(point);
            s.active_mark = true;
            let _ = editor.set_cursor_and_anchor(point, point);
            return Ok(Outcome::handled(Ui::Nothing));
        }
        match motion(ctrl, meta, x.shift, key) {
            Some(m) => {
                let c = editor.document.cursor();
                let selecting = s.active_mark || c.position != c.anchor || (x.shift && !meta);
                if selecting && !s.active_mark {
                    s.mark = Some(c.anchor);
                }
                match move_times(editor, m, reverse, selecting, x.page, n) {
                    Ok(()) => {},
                    Err(e) => {
                        return Err(e);
                    },
                }
                s.active_mark = selecting;
                return Ok(Outcome::handled(Ui::Nothing));
            },
            None => {},
        }
        let copy = meta && key == 'w' as u32;
        let kill_region = ctrl && key == 'w' as u32;
        let kill_line = ctrl && key == 'k' as u32;
        let kill_word = meta && (key == 'd' as u32 || key == KEY_BACKSPACE || key == KEY_DELETE);
        if copy || kill_region || kill_line || kill_word {
            return self.kill(editor, s, clipboard, key, copy, kill_region, kill_word, n, reverse, x.explicit, x.was_kill);
        }
        if (ctrl || meta) && key == 'y' as u32 {
            return self.yank(editor, s, clipboard, meta, n, x.old_yank);
        }
        match command(ctrl, meta, key) {
            Some(cmd) => {
                if editor.read_only {
                    return Err(string_from("This file is open for viewing"));
                }
                match run_command(editor, cmd, n) {
                    Ok(()) => {},
                    Err(e) => {
                        return Err(e);
                    },
                }
                s.mark = Some(editor.document.cursor().position);
                s.active_mark = false;
                return Ok(Outcome { consumed: true, changed: true, ui: Ui::Nothing });
            },
            None => {},
        }
        if ctrl && key == 'o' as u32 {
            if editor.read_only {
                return Err(string_from("This file is open for viewing"));
            }
            match open_lines(editor, n) {
                Ok(()) => {},
                Err(e) => {
                    return Err(e);
                },
            }
            s.active_mark = false;
            return Ok(Outcome { consumed: true, changed: true, ui: Ui::Nothing });
        }
        Err(string_from("Emacs key sequence is not supported; Alt+X opens commands, Ctrl+G cancels"))
    }
}

fn joined_text(first: &str, second: &str) -> (r: String)
    ensures
        r@ == first@ + second@,
{
    let mut v = chars_of(first);
    let w = chars_of(second);
    crate::text::extend_chars(&mut v, w.as_slice());
    crate::text::string_of(v.as_slice())
}

/// Where `n` word motions from `p` end; `None` where one fails.
pub open spec fn words_from(t: Seq<u8>, p: nat, forward: bool, n: nat) -> Option<nat>
    decreases n,
{
    if n == 0 {
        Some(p)
    } else {
        match word_boundary_of(t, p, forward) {
            Some(q) => words_from(t, q, forward, (n - 1) as nat),
            None => None,
        }
    }
}

/// Where `n` line-kill steps from `p` end (see `line_kill_step`).
pub open spec fn lines_from(t: Seq<u8>, p: int, point: int, forward: bool, explicit: bool, n: nat) -> int
    decreases n,
{
    if n == 0 {
        p
    } else {
        lines_from(t, line_kill_step(t, p, point, forward, explicit), point, forward, explicit, (n - 1) as nat)
    }
}

/// The bytes `[start, end)` that a kill takes, and whether it runs
/// backward: the region, `n` words, or `n` lines from the point; `None`
/// where a word motion fails.
pub open spec fn kill_span(d: DocV, key: u32, copy: bool, region: bool, word: bool, n: nat, reverse: bool,
    explicit: bool) -> Option<(int, int, bool)> {
    let point = d.cursor.position as int;
    let anchor = d.cursor.anchor as int;
    if copy || region {
        Some((if point < anchor { point } else { anchor }, if point < anchor { anchor } else { point }, point < anchor))
    } else if word {
        let backward = (key != letter_key('d')) != reverse;
        match words_from(d.text, point as nat, !backward, n) {
            Some(e) => Some((if point < e { point } else { e as int }, if point < e { e as int } else { point }, backward)),
            None => None,
        }
    } else {
        let e = lines_from(d.text, point, point, !reverse, explicit, n);
        Some((if point < e { point } else { e }, if point < e { e } else { point }, reverse))
    }
}

/// Whether a kill of `text` joins the newest ring entry: the key before
/// killed too, and both fit in the ring.
pub open spec fn joins(ring: Seq<Seq<char>>, text: Seq<char>, copy: bool, was_kill: bool) -> bool {
    !copy && was_kill && ring.len() > 0 && size(text) + size(ring[0]) <= RING_BYTES
}

/// The newest ring entry grown by `text`: before it for a backward kill.
pub open spec fn joined(ring: Seq<Seq<char>>, text: Seq<char>, backward: bool) -> Seq<char> {
    if backward { text + ring[0] } else { ring[0] + text }
}

/// The kill ring after a kill of `text`: joined to the newest entry (see
/// `joins`), else remembered anew.
pub open spec fn ring_after_kill(ring: Seq<Seq<char>>, text: Seq<char>, copy: bool, was_kill: bool, backward: bool) -> Seq<
    Seq<char>,
> {
    if joins(ring, text, copy, was_kill) {
        remembered(ring.drop_first(), joined(ring, text, backward))
    } else {
        remembered(ring, text)
    }
}

/// What a kill (or copy) key did: refused on a read-only file, without a
/// region, where a word motion fails, or where the text taken is not
/// UTF-8 or holds NUL, all without a change; nothing to do on an empty
/// span; else, unless the clipboard refused the text (and nothing
/// changed), the span left the text (for a kill) and went to the ring.
pub open spec fn kill_result(e0: Editor, e1: Editor, k0: Controller, k1: Controller, s0: State, s1: State,
    r: Result<Outcome, String>, key: u32, copy: bool, region: bool, word: bool, n: nat, reverse: bool,
    explicit: bool, was_kill: bool) -> bool {
    let d = e0.document@;
    let t = d.text;
    let unchanged = e1.document@ == e0.document@ && e1.undo_stack@ == e0.undo_stack@ && k1.ring() == k0.ring()
        && s1 == s0;
    if !copy && e0.read_only {
        (r matches Err(m) && m@ == "This file is open for viewing"@) && unchanged
    } else if (copy || region) && d.cursor.position == d.cursor.anchor {
        (r matches Err(m) && m@ == "No selected region; use Ctrl+Space and move"@) && unchanged
    } else {
        match kill_span(d, key, copy, region, word, n, reverse, explicit) {
            None => r is Err && unchanged,
            Some((start, end, backward)) => {
                let bytes = t.subrange(start, end);
                if start == end {
                    (r matches Ok(o) && o@ == handled_v(UiV::Nothing)) && unchanged
                } else if !valid_utf8(bytes) {
                    r is Err && unchanged
                } else if decode_utf8(bytes).contains('\0') {
                    (r matches Err(m) && m@ == "Selection contains NUL and cannot be copied as text"@) && unchanged
                } else {
                    &&& r is Err ==> unchanged
                    &&& r matches Ok(o) ==> {
                        &&& o@ == (OutcomeV { consumed: true, changed: !copy, ui: UiV::Nothing })
                        &&& e1.document@.text == if copy { t } else { crate::document::spliced(t, start, end, seq![]) }
                        &&& k1.ring() == ring_after_kill(k0.ring(), decode_utf8(bytes), copy, was_kill, backward)
                        &&& s1.last_kill == !copy
                        &&& !s1.active_mark
                    }
                }
            },
        }
    }
}

/// The span a kill takes (see `kill_span`).
fn kill_span_exec(document: &Document, key: u32, copy: bool, region: bool, word: bool, n: usize, reverse: bool,
    explicit: bool) -> (r: Result<(usize, usize, bool), String>)
    requires
        document.wf(),
    ensures
        match kill_span(document@, key, copy, region, word, n as nat, reverse, explicit) {
            Some((a, b, back)) => r matches Ok((x, y, z)) && x == a && y == b && z == back && a <= b
                <= document@.text.len(),
            None => r is Err,
        },
{
    let c = document.cursor();
    let point = c.position;
    let ghost t = document@.text;
    if copy || region {
        Ok((document.selection_start(), document.selection_end(), point < c.anchor))
    } else if word {
        let backward = (key != 'd' as u32) != reverse;
        let mut end = point;
        let mut k: usize = 0;
        while k < n
            invariant
                k <= n,
                document.wf(),
                document@.text == t,
                point == document@.cursor.position,
                end <= t.len(),
                words_from(t, end as nat, !backward, (n - k) as nat) == words_from(t, point as nat, !backward, n as nat),
                !copy && !region && word,
                backward == ((key != letter_key('d')) != reverse),
            decreases n - k,
        {
            let ghost before = end;
            end = match word_boundary(document, end, !backward) {
                Ok(p) => p,
                Err(e) => {
                    return Err(e);
                },
            };
            assert(word_boundary_of(t, before as nat, !backward) == Some(end as nat));
            assert(words_from(t, before as nat, !backward, (n - k) as nat) == words_from(
                t,
                end as nat,
                !backward,
                (n - k - 1) as nat,
            ));
            k = k + 1;
        }
        Ok((if point < end { point } else { end }, if point < end { end } else { point }, backward))
    } else {
        let mut end = point;
        let mut k: usize = 0;
        while k < n
            invariant
                k <= n,
                document.wf(),
                document@.text == t,
                end <= t.len(),
                point <= t.len(),
                lines_from(t, end as int, point as int, !reverse, explicit, (n - k) as nat)
                    == lines_from(t, point as int, point as int, !reverse, explicit, n as nat),
            decreases n - k,
        {
            let ghost before = end;
            end = kill_line_step(document, end, point, !reverse, explicit);
            assert(lines_from(t, before as int, point as int, !reverse, explicit, (n - k) as nat) == lines_from(
                t,
                end as int,
                point as int,
                !reverse,
                explicit,
                (n - k - 1) as nat,
            ));
            k = k + 1;
        }
        Ok((if point < end { point } else { end }, if point < end { end } else { point }, reverse))
    }
}

/// What a yank over the selection of `e0` with `text` did: the text joins
/// the ring unless it is already the newest entry, then replaces the
/// selection where the result fits, and is refused where it does not.
pub open spec fn yanked(e0: Editor, e1: Editor, k0: Controller, k1: Controller, s1: State, r: Result<Outcome, String>,
    text: Seq<char>) -> bool {
    let d = e0.document@;
    let c = d.cursor;
    let start = if c.position < c.anchor { c.position as int } else { c.anchor as int };
    let end = if c.position < c.anchor { c.anchor as int } else { c.position as int };
    let rb = encode_utf8(text);
    &&& k1.ring() == if k0.ring().len() > 0 && k0.ring()[0] == text { k0.ring() } else { remembered(k0.ring(), text) }
    &&& replacement_fits(d.text, start, end, rb) ==> {
        &&& r matches Ok(o) && o@ == (OutcomeV { consumed: true, changed: true, ui: UiV::Nothing })
        &&& e1.document@.text == replaced(d.text, start, end, rb)
        &&& s1.mark == Some(start as usize)
        &&& !s1.active_mark
    }
    &&& !replacement_fits(d.text, start, end, rb) ==> r is Err && e1.document@ == d
}

/// What a yank key did: refused on a read-only file; with Meta, refused
/// unless it follows a yank that is still current, else the yanked span is
/// replaced by the ring entry `n` places older (where the result fits);
/// without Meta, the clipboard's text is yanked (see `yanked`) unless the
/// clipboard refused, with nothing changed.
pub open spec fn yank_result(e0: Editor, e1: Editor, k0: Controller, k1: Controller, s0: State, s1: State,
    r: Result<Outcome, String>, meta: bool, n: nat, old_yank: Option<(usize, usize, usize, usize)>) -> bool {
    let d = e0.document@;
    let unchanged = e1.document@ == e0.document@ && e1.undo_stack@ == e0.undo_stack@ && k1.ring() == k0.ring()
        && s1 == s0;
    if e0.read_only {
        (r matches Err(m) && m@ == "This file is open for viewing"@) && unchanged
    } else if meta {
        match old_yank {
            None => (r matches Err(m) && m@ == "Alt+Y must immediately follow a yank"@) && unchanged,
            Some((first, last, previous, history)) => if e0.undo_stack@.len() != history || k0.ring().len() == 0 {
                (r matches Err(m) && m@ == "The previous yank is no longer current"@) && unchanged
            } else {
                let size = k0.ring().len() as int;
                let step = if n > 1 { n as int } else { 1int };
                let index = (previous as int % size + step % size) % size;
                let rb = encode_utf8(k0.ring()[index]);
                &&& k1.ring() == k0.ring()
                &&& replacement_fits(d.text, first as int, last as int, rb) ==> {
                    &&& r matches Ok(o) && o@ == (OutcomeV { consumed: true, changed: true, ui: UiV::Nothing })
                    &&& e1.document@.text == replaced(d.text, first as int, last as int, rb)
                    &&& s1.mark == Some(first)
                    &&& !s1.active_mark
                }
                &&& !replacement_fits(d.text, first as int, last as int, rb) ==> r is Err && e1.document@ == d
            },
        }
    } else {
        ||| r is Err && unchanged
        ||| exists|s: Seq<char>| yanked(e0, e1, k0, k1, s1, r, #[trigger] crate::clipboard::normalized(s))
    }
}

impl Controller {
    /// The grown newest entry when a kill of `text` joins it (see `joins`).
    fn kill_entry(&self, text: &str, copy: bool, was_kill: bool, backward: bool) -> (r: Option<String>)
        requires
            self.wf(),
        ensures
            joins(self.ring(), text@, copy, was_kill) ==> (r matches Some(v) && v@ == joined(self.ring(), text@, backward)),
            !joins(self.ring(), text@, copy, was_kill) ==> r is None,
    {
        let length = text.as_bytes().len();
        if !copy && was_kill && self.ring.len() > 0 {
            let front_length = self.ring[0].as_str().as_bytes().len();
            proof {
                lemma_front_size(strings(self.ring@));
            }
            if length <= RING_BYTES - front_length {
                if backward {
                    Some(joined_text(text, self.ring[0].as_str()))
                } else {
                    Some(joined_text(self.ring[0].as_str(), text))
                }
            } else {
                None
            }
        } else {
            None
        }
    }

    /// Puts a kill in the ring: `combined` in place of the newest entry, or
    /// `text` as a new one.
    fn store_kill(&mut self, combined: Option<String>, text: String)
        requires
            old(self).wf(),
            combined is Some ==> old(self).ring().len() > 0,
        ensures
            final(self).wf(),
            final(self).origin() == old(self).origin(),
            final(self).suppressing() == old(self).suppressing(),
            combined matches Some(v) ==> final(self).ring() == remembered(old(self).ring().drop_first(), v@),
            combined is None ==> final(self).ring() == remembered(old(self).ring(), text@),
    {
        match combined {
            Some(v) => {
                let ghost before = strings(self.ring@);
                let front = self.ring.remove(0);
                proof {
                    assert(before =~= seq![front@] + strings(self.ring@));
                    assert(strings(self.ring@) =~= before.drop_first());
                    lemma_ring_size_front(front@, strings(self.ring@));
                }
                self.bytes = self.bytes - front.as_str().as_bytes().len();
                self.remember(v);
            },
            None => {
                self.remember(text);
            },
        }
    }
}

impl Controller {
    /// Kills (or, for `copy`, copies) the region, `n` words, or `n` lines,
    /// hands the text to the clipboard and the kill ring; consecutive kills
    /// grow one ring entry.
    #[verifier::rlimit(50)]
    fn kill<C: TextClipboard>(&mut self, editor: &mut Editor, s: &mut State, clipboard: &C, key: u32, copy: bool,
        region: bool, word: bool, n: usize, reverse: bool, explicit: bool, was_kill: bool) -> (r: Result<Outcome, String>)
        requires
            old(editor).wf(),
            old(self).wf(),
            count_ok(*old(s)),
        ensures
            key_kept(*old(editor), *final(editor), *old(self), *final(self), *final(s), r),
            ({
                let t = old(editor).document@.text;
                let c = old(editor).document@.cursor;
                let start = if c.position < c.anchor { c.position } else { c.anchor };
                let end = if c.position < c.anchor { c.anchor } else { c.position };
                (region || copy) && r is Ok ==> start != end && final(editor).document@.text == if copy {
                    t
                } else {
                    crate::document::spliced(t, start as int, end as int, seq![])
                }
            }),
            kill_result(*old(editor), *final(editor), *old(self), *final(self), *old(s), *final(s), r, key, copy,
                region, word, n as nat, reverse, explicit, was_kill),
    {
        if !copy && editor.read_only {
            return Err(string_from("This file is open for viewing"));
        }
        let c = editor.document.cursor();
        let point = c.position;
        let ghost t = editor.document@.text;
        proof {
            crate::document::lemma_line_col_bound(t);
        }
        if (copy || region) && c.position == c.anchor {
            return Err(string_from("No selected region; use Ctrl+Space and move"));
        }
        let (start, end, backward) = match kill_span_exec(&editor.document, key, copy, region, word, n, reverse, explicit) {
            Ok(v) => v,
            Err(e) => {
                return Err(e);
            },
        };
        if start == end {
            return Ok(Outcome::handled(Ui::Nothing));
        }
        let bytes = match editor.document.read_range(start, end - start) {
            Ok(b) => b,
            Err(e) => {
                return Err(e);
            },
        };
        let text = match string_from_utf8(bytes) {
            Ok(v) => v,
            Err(e) => {
                return Err(e);
            },
        };
        proof {
            vstd::utf8::encode_utf8_decode_utf8(text@);
        }
        if crate::text::contains_nul(text.as_str()) {
            return Err(string_from("Selection contains NUL and cannot be copied as text"));
        }
        self.hand_over(editor, s, clipboard, text, start, end, point, copy, was_kill, backward)
    }

    /// Hands the killed (or copied) `text`, the bytes `[start, end)`, to
    /// the clipboard; unless it refused, deletes them for a kill and puts
    /// the text in the ring.
    fn hand_over<C: TextClipboard>(&mut self, editor: &mut Editor, s: &mut State, clipboard: &C, text: String,
        start: usize, end: usize, point: usize, copy: bool, was_kill: bool, backward: bool) -> (r: Result<Outcome, String>)
        requires
            old(editor).wf(),
            old(self).wf(),
            count_ok(*old(s)),
            start < end <= old(editor).document@.text.len(),
            point == old(editor).document@.cursor.position,
            !copy ==> !old(editor).read_only,
        ensures
            key_kept(*old(editor), *final(editor), *old(self), *final(self), *final(s), r),
            r is Err ==> final(editor).document@ == old(editor).document@ && final(editor).undo_stack@
                == old(editor).undo_stack@ && final(self).ring() == old(self).ring() && *final(s) == *old(s),
            r matches Ok(o) ==> {
                let t = old(editor).document@.text;
                &&& o@ == (OutcomeV { consumed: true, changed: !copy, ui: UiV::Nothing })
                &&& final(editor).document@.text == if copy {
                    t
                } else {
                    crate::document::spliced(t, start as int, end as int, seq![])
                }
                &&& final(self).ring() == ring_after_kill(old(self).ring(), text@, copy, was_kill, backward)
                &&& final(s).last_kill == !copy
                &&& !final(s).active_mark
            },
    {
        proof {
            crate::document::lemma_line_col_bound(old(editor).document@.text);
        }
        let combined = self.kill_entry(text.as_str(), copy, was_kill, backward);
        let handed = match &combined {
            Some(v) => clipboard.set_text(v.as_str()),
            None => clipboard.set_text(text.as_str()),
        };
        match handed {
            Ok(()) => {},
            Err(e) => {
                return Err(e);
            },
        }
        if !copy {
            match editor.delete_range(start, end - start) {
                Ok(()) => {},
                Err(e) => {
                    return Err(e);
                },
            }
        }
        self.store_kill(combined, text);
        s.active_mark = false;
        s.mark = Some(editor.document.cursor().position);
        s.last_kill = !copy;
        if copy {
            let _ = editor.set_cursor_and_anchor(point, point);
        }
        Ok(Outcome { consumed: true, changed: !copy, ui: Ui::Nothing })
    }

    /// Yanks the clipboard over the selection (remembering it in the kill
    /// ring), or, with Meta right after a yank, replaces the yanked text by
    /// an older kill.
    fn yank<C: TextClipboard>(&mut self, editor: &mut Editor, s: &mut State, clipboard: &C, meta: bool, n: usize,
        old_yank: Option<(usize, usize, usize, usize)>) -> (r: Result<Outcome, String>)
        requires
            old(editor).wf(),
            old(self).wf(),
            count_ok(*old(s)),
        ensures
            key_kept(*old(editor), *final(editor), *old(self), *final(self), *final(s), r),
            yank_result(*old(editor), *final(editor), *old(self), *final(self), *old(s), *final(s), r, meta, n as nat,
                old_yank),
    {
        if editor.read_only {
            return Err(string_from("This file is open for viewing"));
        }
        let ghost clip: Seq<char> = Seq::empty();
        let (start, end, index, text) = if meta {
            match old_yank {
                None => {
                    return Err(string_from("Alt+Y must immediately follow a yank"));
                },
                Some((first, last, previous, history)) => {
                    if editor.undo_stack.len() != history || self.ring.len() == 0 {
                        return Err(string_from("The previous yank is no longer current"));
                    }
                    let size = self.ring.len();
                    let step = if n > 1 { n } else { 1 };
                    let index = (previous % size + step % size) % size;
                    (first, last, index, self.ring[index].clone())
                },
            }
        } else {
            let text = match crate::clipboard::read_text(clipboard) {
                Ok(v) => v,
                Err(e) => {
                    return Err(e);
                },
            };
            proof {
                clip = choose|c: Seq<char>| #[trigger] crate::clipboard::normalized(c) == text@;
            }
            let known = self.ring.len() > 0 && self.ring[0] == text;
            if !known {
                self.remember(text.clone());
            }
            (editor.document.selection_start(), editor.document.selection_end(), 0, text)
        };
        let ghost t = editor.document@.text;
        let length = text.as_str().as_bytes().len();
        match editor.replace_range(crate::search::SearchResult { start, end }, text.as_str()) {
            Ok(_) => {},
            Err(e) => {
                let r = Err(e);
                proof {
                    if !meta {
                        assert(yanked(*old(editor), *editor, *old(self), *self, *s, r, crate::clipboard::normalized(clip)));
                    }
                }
                return r;
            },
        }
        s.mark = Some(start);
        s.active_mark = false;
        if index < self.ring.len() && self.ring[index] == text {
            s.yank = Some((start, start + length, index, editor.undo_stack.len()));
        }
        let r = Ok(Outcome { consumed: true, changed: true, ui: Ui::Nothing });
        proof {
            if !meta {
                assert(yanked(*old(editor), *editor, *old(self), *self, *s, r, crate::clipboard::normalized(clip)));
            }
        }
        r
    }
}

proof fn lemma_front_size(ring: Seq<Seq<char>>)
    requires
        ring.len() > 0,
    ensures
        size(ring[0]) <= ring_size(ring),
{
    assert(ring =~= seq![ring[0]] + ring.drop_first());
    lemma_ring_size_front(ring[0], ring.drop_first());
}

} // verus!
