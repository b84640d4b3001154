//! The command bar's state: its input line, cursor, suggestion selection,
//! and the informational, review and formatter lists it can show instead.
use vstd::prelude::*;
use crate::command_bar::info::{MAX_ROWS, layout_info, rows_view};
use crate::command_bar::suggest::{
    ActionV, CommandSuggestion, SuggestionAction, SuggestionV, input_suggestion,
    input_suggestion_bound, input_suggestion_exec, lemma_input_suggestion_bound,
    opt_suggestion_view, suggestion,
};
use crate::numbers::{decimal, spec_decimal};
use crate::command_bar::parse::{Command, ParsedCommand, parse_chars, spec_parse_command};
use crate::command_bar::suggest::{action_ok, lemma_input_suggestion_actions};
use crate::command_bar::toggle::{lemma_toggled_keeps_colon, toggle_option, toggled};
use crate::lsp_catalog::{recipes, recipes_view, spec_recipes};
use crate::text::{
    push_str,
    byte_len, chars_of, count_leading_ws, count_trailing_ws, eq_str, leading_ws, slice_vec,
    string_from, string_of, trailing_ws, trim, utf8_width, lemma_leading_ws_bound,
    lemma_trailing_ws_bound,
};

verus! {

/// Gap between the command bar and the window edges, in pixels.
pub const COMMAND_BAR_MARGIN: i32 = 8;
/// Height of the input row.
pub const COMMAND_INPUT_HEIGHT: i32 = 36;
/// Height of one suggestion row.
pub const COMMAND_SUGGESTION_HEIGHT: i32 = 28;
/// Height of one informational row.
pub const INFO_LINE_HEIGHT: i32 = 20;
/// Height of the empty row between informational paragraphs.
pub const INFO_PARAGRAPH_GAP: i32 = 6;
/// Rows shown at once.
pub const MAX_VISIBLE_SUGGESTIONS: usize = 9;
/// Width of the run button at the right of the input row.
pub const COMMAND_RUN_WIDTH: i32 = 86;

/// Where a point of the window falls relative to the command bar.
#[derive(Clone, Copy, Debug, PartialEq, Eq)]
pub enum CommandBarHit {
    Outside,
    Input,
    Execute,
    Suggestion(usize),
}

/// The command bar.
pub struct CommandBar {
    active: bool,
    input: Vec<char>,
    cursor: usize,
    selected: usize,
    selection_explicit: bool,
    status: Option<String>,
    formatter_choices: Vec<(String, bool)>,
    review_choices: Vec<String>,
    info_lines: Vec<Vec<char>>,
    info_documentation: Vec<bool>,
    info_offset: usize,
    epoch: u64,
}

/// The command bar's state as values. `cursor` counts characters of `input`;
/// the byte offset that the bar reports is `byte_len(input.take(cursor))`.
pub struct BarV {
    pub active: bool,
    pub input: Seq<char>,
    pub cursor: nat,
    pub selected: nat,
    pub selection_explicit: bool,
    pub status: Option<Seq<char>>,
    pub formatters: Seq<(Seq<char>, bool)>,
    pub reviews: Seq<Seq<char>>,
    pub info: Seq<Seq<char>>,
    pub info_docs: Seq<bool>,
    pub info_offset: nat,
    pub epoch: u64,
}

pub open spec fn opt_string_view(s: Option<String>) -> Option<Seq<char>> {
    match s {
        Some(v) => Some(v@),
        None => None,
    }
}

pub open spec fn formatters_view(f: Seq<(String, bool)>) -> Seq<(Seq<char>, bool)> {
    f.map_values(|p: (String, bool)| (p.0@, p.1))
}

pub open spec fn strings_view(f: Seq<String>) -> Seq<Seq<char>> {
    f.map_values(|s: String| s@)
}

impl View for CommandBar {
    type V = BarV;

    closed spec fn view(&self) -> BarV {
        BarV {
            active: self.active,
            input: self.input@,
            cursor: self.cursor as nat,
            selected: self.selected as nat,
            selection_explicit: self.selection_explicit,
            status: opt_string_view(self.status),
            formatters: formatters_view(self.formatter_choices@),
            reviews: strings_view(self.review_choices@),
            info: rows_view(self.info_lines@),
            info_docs: self.info_documentation@,
            info_offset: self.info_offset as nat,
            epoch: self.epoch,
        }
    }
}

/// What every command bar keeps: the cursor inside the input, an input that
/// is empty or starts with `:`, and counters that fit their machine types.
pub open spec fn bar_wf(b: BarV) -> bool {
    &&& b.cursor <= b.input.len()
    &&& (b.input.len() == 0 || b.input[0] == ':')
    &&& (b.input.len() > 0 ==> b.cursor >= 1)
    &&& (b.active ==> b.input.len() > 0)
    &&& b.input.len() <= usize::MAX
    &&& b.selected < usize::MAX
    &&& b.info_offset < usize::MAX
    &&& b.info.len() <= usize::MAX
    &&& b.reviews.len() <= usize::MAX
    &&& b.formatters.len() <= usize::MAX
}

/// The epoch after a change (`u64::wrapping_add(1)`).
pub open spec fn next_epoch(e: u64) -> u64 {
    if e == u64::MAX {
        0
    } else {
        (e + 1) as u64
    }
}

pub open spec fn is_info(b: BarV) -> bool {
    b.info.len() > 0
}

/// Whether the formatter list replaces the command completions.
pub open spec fn formatters_shown(b: BarV) -> bool {
    trim(b.input) == ":formatters"@ && b.formatters.len() > 0
}

pub open spec fn formatter_description(available: bool) -> Seq<char> {
    if available {
        "Available; select to format"@
    } else {
        "Missing; install or configure executable"@
    }
}

/// Row `i` of everything the bar can list, before paging.
pub open spec fn raw_suggestion(b: BarV, i: int) -> Option<SuggestionV> {
    if i < 0 {
        None
    } else if is_info(b) {
        if b.info_offset + i < b.info.len() {
            Some(suggestion(b.info[b.info_offset + i], seq![], false, ActionV::NoAction))
        } else {
            None
        }
    } else if b.reviews.len() > 0 {
        if i < b.reviews.len() {
            Some(suggestion(b.reviews[i], seq![], false, ActionV::Review(i as nat)))
        } else {
            None
        }
    } else if formatters_shown(b) {
        if i < b.formatters.len() {
            Some(suggestion(b.formatters[i].0, formatter_description(b.formatters[i].1), false,
                ActionV::FormatProvider(i as nat)))
        } else {
            None
        }
    } else {
        input_suggestion(b.input, i)
    }
}

/// No row exists at or beyond this index.
pub open spec fn suggestion_bound(b: BarV) -> int {
    let a = if b.info.len() > b.reviews.len() { b.info.len() as int } else { b.reviews.len() as int };
    let c = if a > b.formatters.len() { a } else { b.formatters.len() as int };
    if c > input_suggestion_bound() { c } else { input_suggestion_bound() }
}

/// The index of the first missing row at or after `i`.
pub open spec fn first_missing_from(b: BarV, i: int) -> int
    decreases suggestion_bound(b) - i,
{
    if i < 0 || i >= suggestion_bound(b) || raw_suggestion(b, i) is None {
        i
    } else {
        first_missing_from(b, i + 1)
    }
}

/// How many rows there are: the rows before the first missing one.
pub open spec fn total_count(b: BarV) -> int {
    first_missing_from(b, 0)
}

/// Index of the first row of the page that holds the selection.
pub open spec fn page_offset(b: BarV) -> int {
    if is_info(b) {
        0
    } else {
        (b.selected as int / MAX_VISIBLE_SUGGESTIONS as int) * MAX_VISIBLE_SUGGESTIONS as int
    }
}

/// Row `v` of the visible page.
pub open spec fn visible_suggestion(b: BarV, v: int) -> Option<SuggestionV> {
    if v < 0 || v >= MAX_VISIBLE_SUGGESTIONS {
        None
    } else {
        raw_suggestion(b, page_offset(b) + v)
    }
}

pub open spec fn first_invisible_from(b: BarV, v: int) -> int
    decreases MAX_VISIBLE_SUGGESTIONS - v,
{
    if v < 0 || v >= MAX_VISIBLE_SUGGESTIONS || visible_suggestion(b, v) is None {
        v
    } else {
        first_invisible_from(b, v + 1)
    }
}

/// How many rows the visible page shows.
pub open spec fn visible_count(b: BarV) -> int {
    first_invisible_from(b, 0)
}

/// The selection, relative to the visible page.
pub open spec fn selected_row(b: BarV) -> int {
    b.selected - page_offset(b)
}

pub proof fn lemma_raw_suggestion_bound(b: BarV, i: int)
    requires
        i >= suggestion_bound(b),
    ensures
        raw_suggestion(b, i) is None,
{
    if !is_info(b) && b.reviews.len() == 0 && !formatters_shown(b) {
        lemma_input_suggestion_bound(b.input, i);
    }
}

proof fn lemma_first_missing(b: BarV, i: int)
    requires
        0 <= i,
    ensures
        i <= first_missing_from(b, i),
        first_missing_from(b, i) <= if i > suggestion_bound(b) { i } else { suggestion_bound(b) },
        forall|j: int| i <= j < first_missing_from(b, i) ==> raw_suggestion(b, j) is Some,
        raw_suggestion(b, first_missing_from(b, i)) is None,
    decreases suggestion_bound(b) - i,
{
    if i >= suggestion_bound(b) {
        lemma_raw_suggestion_bound(b, i);
    } else if raw_suggestion(b, i) is Some {
        lemma_first_missing(b, i + 1);
    }
}

proof fn lemma_first_invisible(b: BarV, v: int)
    requires
        0 <= v,
    ensures
        v <= first_invisible_from(b, v),
        first_invisible_from(b, v) <= if v > MAX_VISIBLE_SUGGESTIONS { v } else { MAX_VISIBLE_SUGGESTIONS as int },
        forall|j: int| v <= j < first_invisible_from(b, v) ==> visible_suggestion(b, j) is Some,
        first_invisible_from(b, v) < MAX_VISIBLE_SUGGESTIONS ==> visible_suggestion(b, first_invisible_from(b, v)) is None,
    decreases MAX_VISIBLE_SUGGESTIONS - v,
{
    if v < MAX_VISIBLE_SUGGESTIONS && visible_suggestion(b, v) is Some {
        lemma_first_invisible(b, v + 1);
    }
}

/// The counts and offsets stay inside their machine types.
pub proof fn lemma_counts(b: BarV)
    requires
        bar_wf(b),
    ensures
        0 <= total_count(b) <= suggestion_bound(b) <= usize::MAX,
        0 <= visible_count(b) <= MAX_VISIBLE_SUGGESTIONS,
        0 <= page_offset(b) <= b.selected,
        visible_count(b) > 0 ==> page_offset(b) + visible_count(b) <= suggestion_bound(b),
        forall|j: int| 0 <= j < total_count(b) ==> raw_suggestion(b, j) is Some,
        raw_suggestion(b, total_count(b)) is None,
        forall|j: int| 0 <= j < visible_count(b) ==> visible_suggestion(b, j) is Some,
        visible_count(b) < MAX_VISIBLE_SUGGESTIONS ==> visible_suggestion(b, visible_count(b)) is None,
{
    lemma_first_missing(b, 0);
    lemma_first_invisible(b, 0);
    if visible_count(b) > 0 {
        let k = page_offset(b) + visible_count(b) - 1;
        assert(visible_suggestion(b, visible_count(b) - 1) is Some);
        if k >= suggestion_bound(b) {
            lemma_raw_suggestion_bound(b, k);
        }
    }
}

impl CommandBar {
    /// The command bar's invariant.
    pub open spec fn wf(&self) -> bool {
        bar_wf(self@)
    }

    /// An inactive bar with empty input and nothing listed.
    pub fn new() -> (r: Self)
        ensures
            r.wf(),
            r@ == (BarV {
                active: false,
                input: seq![],
                cursor: 0,
                selected: 0,
                selection_explicit: false,
                status: None,
                formatters: seq![],
                reviews: seq![],
                info: seq![],
                info_docs: seq![],
                info_offset: 0,
                epoch: 0,
            }),
    {
        let r = CommandBar {
            active: false,
            input: Vec::new(),
            cursor: 0,
            selected: 0,
            selection_explicit: false,
            status: None,
            formatter_choices: Vec::new(),
            review_choices: Vec::new(),
            info_lines: Vec::new(),
            info_documentation: Vec::new(),
            info_offset: 0,
            epoch: 0,
        };
        assert(formatters_view(r.formatter_choices@) =~= seq![]);
        assert(strings_view(r.review_choices@) =~= seq![]);
        assert(rows_view(r.info_lines@) =~= seq![]);
        r
    }

    pub fn is_active(&self) -> (r: bool)
        ensures
            r == self@.active,
    {
        self.active
    }

    /// Whether informational rows are shown.
    pub fn is_info(&self) -> (r: bool)
        ensures
            r == is_info(self@),
    {
        self.info_lines.len() > 0
    }

    /// Counter that changes whenever the input or the listing is reset.
    pub fn epoch(&self) -> (r: u64)
        ensures
            r == self@.epoch,
    {
        self.epoch
    }

    /// How many formatter choices are held.
    pub fn formatter_count(&self) -> (r: usize)
        ensures
            r == self@.formatters.len(),
    {
        self.formatter_choices.len()
    }

    /// The command line.
    pub fn input(&self) -> (r: String)
        ensures
            r@ == self@.input,
    {
        string_of(self.input.as_slice())
    }
}


/// The byte offset of character index `c` of `s`, saturated at `usize::MAX`.
pub open spec fn byte_offset(s: Seq<char>, c: int) -> int {
    if byte_len(s.take(c)) <= usize::MAX {
        byte_len(s.take(c)) as int
    } else {
        usize::MAX as int
    }
}

/// The paging hint shown when there are more rows than fit on one page.
pub open spec fn navigation_hint_text(b: BarV) -> Option<Seq<char>> {
    if total_count(b) > MAX_VISIBLE_SUGGESTIONS && !is_info(b) {
        Some(spec_decimal((page_offset(b) + 1) as nat) + "\u{2013}"@
            + spec_decimal((page_offset(b) + visible_count(b)) as nat) + " of "@
            + spec_decimal(total_count(b) as nat)
            + " \u{b7} \u{2191}\u{2193}/wheel \u{b7} Enter selects"@)
    } else {
        None
    }
}

impl CommandBar {
    fn formatters_shown_exec(&self) -> (r: bool)
        ensures
            r == formatters_shown(self@),
    {
        if self.formatter_choices.len() == 0 {
            return false;
        }
        let lead = count_leading_ws(self.input.as_slice(), 0);
        let t = slice_vec(self.input.as_slice(), lead, self.input.len());
        assert(self.input@.skip(0) =~= self.input@);
        assert(t@ =~= crate::text::trim_start(self.input@));
        let trail = count_trailing_ws(t.as_slice(), t.len());
        assert(t@.take(t.len() as int) =~= t@);
        let u = slice_vec(t.as_slice(), 0, t.len() - trail);
        assert(u@ =~= trim(self.input@));
        eq_str(u.as_slice(), ":formatters")
    }

    fn raw_suggestion_exec(&self, i: usize) -> (r: Option<CommandSuggestion>)
        ensures
            opt_suggestion_view(r) == raw_suggestion(self@, i as int),
    {
        if self.info_lines.len() > 0 {
            match self.info_offset.checked_add(i) {
                Some(k) => {
                    if k < self.info_lines.len() {
                        assert(rows_view(self.info_lines@)[k as int] == self.info_lines@[k as int]@);
                        Some(CommandSuggestion {
                            label: string_of(self.info_lines[k].as_slice()),
                            description: String::new(),
                            active: false,
                            action: SuggestionAction::NoAction,
                        })
                    } else {
                        None
                    }
                },
                None => None,
            }
        } else if self.review_choices.len() > 0 {
            if i < self.review_choices.len() {
                assert(strings_view(self.review_choices@)[i as int] == self.review_choices@[i as int]@);
                Some(CommandSuggestion {
                    label: self.review_choices[i].clone(),
                    description: String::new(),
                    active: false,
                    action: SuggestionAction::Review(i),
                })
            } else {
                None
            }
        } else if self.formatters_shown_exec() {
            if i < self.formatter_choices.len() {
                assert(formatters_view(self.formatter_choices@)[i as int] == (
                    self.formatter_choices@[i as int].0@,
                    self.formatter_choices@[i as int].1,
                ));
                let description = if self.formatter_choices[i].1 {
                    string_from("Available; select to format")
                } else {
                    string_from("Missing; install or configure executable")
                };
                Some(CommandSuggestion {
                    label: self.formatter_choices[i].0.clone(),
                    description,
                    active: false,
                    action: SuggestionAction::FormatProvider(i),
                })
            } else {
                None
            }
        } else {
            input_suggestion_exec(self.input.as_slice(), i)
        }
    }

    fn suggestion_bound_exec(&self) -> (r: usize)
        ensures
            r == suggestion_bound(self@),
    {
        let a = if self.info_lines.len() > self.review_choices.len() {
            self.info_lines.len()
        } else {
            self.review_choices.len()
        };
        let c = if a > self.formatter_choices.len() { a } else { self.formatter_choices.len() };
        if c > 64 { c } else { 64 }
    }

    /// How many rows there are in all, before paging.
    pub fn total_suggestion_count(&self) -> (r: usize)
        requires
            self.wf(),
        ensures
            r == total_count(self@),
    {
        let bound = self.suggestion_bound_exec();
        let mut i: usize = 0;
        while i < bound && self.raw_suggestion_exec(i).is_some()
            invariant
                0 <= i <= bound,
                bound == suggestion_bound(self@),
                total_count(self@) == first_missing_from(self@, i as int),
            decreases bound - i,
        {
            i = i + 1;
        }
        i
    }

    fn page_offset_exec(&self) -> (r: usize)
        requires
            self.wf(),
        ensures
            r == page_offset(self@),
    {
        if self.info_lines.len() > 0 {
            0
        } else {
            self.selected / MAX_VISIBLE_SUGGESTIONS * MAX_VISIBLE_SUGGESTIONS
        }
    }

    /// Row `visible_index` of the visible page.
    pub fn suggestion(&self, visible_index: usize) -> (r: Option<CommandSuggestion>)
        requires
            self.wf(),
        ensures
            opt_suggestion_view(r) == visible_suggestion(self@, visible_index as int),
    {
        if visible_index >= MAX_VISIBLE_SUGGESTIONS {
            return None;
        }
        let offset = self.page_offset_exec();
        match offset.checked_add(visible_index) {
            Some(k) => self.raw_suggestion_exec(k),
            None => {
                proof {
                    lemma_counts(self@);
                    lemma_raw_suggestion_bound(self@, offset + visible_index);
                }
                None
            },
        }
    }

    /// How many rows the visible page shows.
    pub fn suggestion_count(&self) -> (r: usize)
        requires
            self.wf(),
        ensures
            r == visible_count(self@),
    {
        let mut v: usize = 0;
        while v < MAX_VISIBLE_SUGGESTIONS && self.suggestion(v).is_some()
            invariant
                0 <= v <= MAX_VISIBLE_SUGGESTIONS,
                self.wf(),
                visible_count(self@) == first_invisible_from(self@, v as int),
            decreases MAX_VISIBLE_SUGGESTIONS - v,
        {
            v = v + 1;
        }
        v
    }

    /// The selection, relative to the visible page.
    pub fn selected(&self) -> (r: usize)
        requires
            self.wf(),
        ensures
            r == selected_row(self@),
    {
        proof {
            lemma_counts(self@);
        }
        self.selected - self.page_offset_exec()
    }

    /// The cursor as a byte offset into the input.
    pub fn cursor(&self) -> (r: usize)
        requires
            self.wf(),
        ensures
            r == byte_offset(self@.input, self@.cursor as int),
    {
        let mut total: usize = 0;
        let mut i: usize = 0;
        assert(self.input@.take(0) =~= Seq::<char>::empty());
        while i < self.cursor
            invariant
                0 <= i <= self.cursor <= self.input.len(),
                total == byte_len(self.input@.take(i as int)),
            decreases self.cursor - i,
        {
            assert(self.input@.take(i + 1).drop_last() =~= self.input@.take(i as int));
            let w = crate::text::char_width(self.input[i]);
            if total > usize::MAX - w {
                proof {
                    crate::text::lemma_byte_len_prefix(self.input@.take(self.cursor as int), i + 1);
                    assert(self.input@.take(self.cursor as int).take(i + 1) =~= self.input@.take(i + 1));
                }
                return usize::MAX;
            }
            total = total + w;
            i = i + 1;
        }
        total
    }

    /// Which rows are shown, out of how many, when they do not fit on one page.
    pub fn navigation_hint(&self) -> (r: Option<String>)
        requires
            self.wf(),
        ensures
            opt_string_view(r) == navigation_hint_text(self@),
    {
        let total = self.total_suggestion_count();
        if total > MAX_VISIBLE_SUGGESTIONS && self.info_lines.len() == 0 {
            proof {
                lemma_counts(self@);
            }
            let offset = self.page_offset_exec();
            let count = self.suggestion_count();
            let mut text = decimal((offset + 1) as u64);
            push_str(&mut text, "\u{2013}");
            let last = decimal((offset + count) as u64);
            crate::text::extend_chars(&mut text, last.as_slice());
            push_str(&mut text, " of ");
            let all = decimal(total as u64);
            crate::text::extend_chars(&mut text, all.as_slice());
            push_str(&mut text, " \u{b7} \u{2191}\u{2193}/wheel \u{b7} Enter selects");
            Some(string_of(text.as_slice()))
        } else {
            None
        }
    }

    /// The status message, if any.
    pub fn status(&self) -> (r: Option<String>)
        ensures
            opt_string_view(r) == self@.status,
    {
        match &self.status {
            Some(s) => Some(s.clone()),
            None => None,
        }
    }

    /// Shows `status` as the status message.
    pub fn set_status(&mut self, status: &str)
        ensures
            final(self)@ == (BarV { status: Some(status@), ..old(self)@ }),
    {
        self.status = Some(string_from(status));
    }
}


/// `c` as shown in the command line: `\n`, `\r` and `\t` as escapes.
pub open spec fn quote_control_char(c: char) -> Seq<char> {
    if c == '\n' {
        seq!['\\', 'n']
    } else if c == '\r' {
        seq!['\\', 'r']
    } else if c == '\t' {
        seq!['\\', 't']
    } else {
        seq![c]
    }
}

/// `s` with its line breaks and tabs written as escapes.
pub open spec fn quote_controls(s: Seq<char>) -> Seq<char>
    decreases s.len(),
{
    if s.len() == 0 {
        seq![]
    } else {
        quote_controls(s.drop_last()) + quote_control_char(s.last())
    }
}

fn quote_control_characters(text: &[char]) -> (r: Vec<char>)
    ensures
        r@ == quote_controls(text@),
{
    let mut r: Vec<char> = Vec::new();
    let mut i: usize = 0;
    assert(text@.take(0) =~= Seq::<char>::empty());
    while i < text.len()
        invariant
            0 <= i <= text.len(),
            r@ == quote_controls(text@.take(i as int)),
        decreases text.len() - i,
    {
        let c = text[i];
        assert(text@.take(i + 1).drop_last() =~= text@.take(i as int));
        if c == '\n' {
            r.push('\\');
            r.push('n');
        } else if c == '\r' {
            r.push('\\');
            r.push('r');
        } else if c == '\t' {
            r.push('\\');
            r.push('t');
        } else {
            r.push(c);
        }
        i = i + 1;
        assert(r@ =~= quote_controls(text@.take(i as int)));
    }
    assert(text@.take(i as int) =~= text@);
    r
}

/// How many leading characters of `s` fit in `p` bytes.
pub open spec fn chars_within(s: Seq<char>, p: int) -> nat
    decreases s.len(),
{
    if s.len() == 0 || utf8_width(s[0]) > p {
        0
    } else {
        1 + chars_within(s.drop_first(), p - utf8_width(s[0]))
    }
}

proof fn lemma_chars_within(s: Seq<char>, p: int)
    ensures
        chars_within(s, p) <= s.len(),
        s.len() > 0 && utf8_width(s[0]) <= p ==> chars_within(s, p) >= 1,
        p >= byte_len(s) ==> chars_within(s, p) == s.len(),
    decreases s.len(),
{
    if s.len() > 0 {
        lemma_chars_within(s.drop_first(), p - utf8_width(s[0]));
        if p >= byte_len(s) {
            lemma_byte_len_first(s);
        }
    }
}

proof fn lemma_byte_len_first(s: Seq<char>)
    requires
        s.len() > 0,
    ensures
        byte_len(s) == utf8_width(s[0]) + byte_len(s.drop_first()),
    decreases s.len(),
{
    if s.len() > 1 {
        lemma_byte_len_first(s.drop_last());
        assert(s.drop_last().drop_first() =~= s.drop_first().drop_last());
    } else {
        assert(s.drop_first() =~= Seq::<char>::empty());
        assert(s.drop_last() =~= Seq::<char>::empty());
    }
}

/// The byte position that `set_cursor` moves to: at least the start of the
/// text after `:`, at most the end.
pub open spec fn clamp_position(s: Seq<char>, position: int) -> int {
    let len = byte_len(s) as int;
    let lo = if len < 1 { len } else { 1 };
    let p = if position > lo { position } else { lo };
    if p < len { p } else { len }
}

/// The state after the command line was edited: the selection, status and
/// listings are reset and the epoch moves on.
pub open spec fn after_edit(b: BarV, input: Seq<char>, cursor: nat) -> BarV {
    BarV {
        input,
        cursor,
        selected: 0,
        selection_explicit: false,
        status: None,
        info: seq![],
        reviews: seq![],
        epoch: next_epoch(b.epoch),
        ..b
    }
}

/// The command line that `open` starts from.
pub open spec fn opened_input(initial: Seq<char>) -> Seq<char> {
    if initial.len() > 0 && initial[0] == ':' {
        initial
    } else {
        seq![':'] + initial
    }
}

pub open spec fn formatters_status(empty: bool) -> Seq<char> {
    if empty {
        "No matching formatters configured"@
    } else {
        "Up/Down or wheel to choose a formatter; Enter runs"@
    }
}

impl CommandBar {
    fn bump_epoch(&mut self)
        ensures
            final(self)@ == (BarV { epoch: next_epoch(old(self)@.epoch), ..old(self)@ }),
    {
        self.epoch = if self.epoch == u64::MAX { 0 } else { self.epoch + 1 };
    }

    fn clear_listings(&mut self)
        ensures
            final(self)@ == (BarV { info: seq![], reviews: seq![], ..old(self)@ }),
    {
        self.info_lines.clear();
        self.review_choices.clear();
        assert(rows_view(self.info_lines@) =~= seq![]);
        assert(strings_view(self.review_choices@) =~= seq![]);
    }

    /// Lists `choices` (a formatter's name and whether it is available) for
    /// the `:formatters` command.
    pub fn show_formatters(&mut self, choices: Vec<(String, bool)>)
        requires
            old(self).wf(),
        ensures
            final(self).wf(),
            final(self)@ == (BarV {
                selected: 0,
                selection_explicit: false,
                status: Some(formatters_status(choices@.len() == 0)),
                formatters: formatters_view(choices@),
                ..old(self)@
            }),
    {
        self.selected = 0;
        self.selection_explicit = false;
        self.status = Some(if choices.len() == 0 {
            string_from("No matching formatters configured")
        } else {
            string_from("Up/Down or wheel to choose a formatter; Enter runs")
        });
        self.formatter_choices = choices;
    }

    /// Opens the bar with `initial` as its command line (a `:` is put in front
    /// when missing) and the cursor at the end.
    pub fn open(&mut self, initial: &str)
        requires
            old(self).wf(),
        ensures
            final(self).wf(),
            final(self)@ == (BarV {
                active: true,
                formatters: seq![],
                input: opened_input(initial@),
                cursor: opened_input(initial@).len(),
                selected: 0,
                selection_explicit: false,
                status: None,
                info: seq![],
                reviews: seq![],
                epoch: next_epoch(old(self)@.epoch),
                ..old(self)@
            }),
    {
        self.active = true;
        self.formatter_choices = Vec::new();
        let chars = chars_of(initial);
        let mut input: Vec<char> = Vec::new();
        if !(chars.len() > 0 && chars[0] == ':') {
            input.push(':');
        }
        crate::text::extend_chars(&mut input, chars.as_slice());
        assert(input@ =~= opened_input(initial@));
        self.input = input;
        self.cursor = self.input.len();
        self.selected = 0;
        self.selection_explicit = false;
        self.status = None;
        self.clear_listings();
        self.bump_epoch();
        assert(formatters_view(self.formatter_choices@) =~= seq![]);
    }

    /// Closes the bar, keeping its command line.
    pub fn close(&mut self)
        requires
            old(self).wf(),
        ensures
            final(self).wf(),
            final(self)@ == (BarV {
                active: false,
                formatters: seq![],
                status: None,
                info: seq![],
                reviews: seq![],
                epoch: next_epoch(old(self)@.epoch),
                ..old(self)@
            }),
    {
        self.active = false;
        self.formatter_choices = Vec::new();
        self.status = None;
        self.clear_listings();
        self.bump_epoch();
        assert(formatters_view(self.formatter_choices@) =~= seq![]);
    }

    /// Types `text` at the cursor; line breaks and tabs are written as the
    /// escapes `\n`, `\r` and `\t`, which `:find` and `:replace` read back.
    pub fn insert_text(&mut self, text: &str)
        requires
            old(self).wf(),
        ensures
            final(self).wf(),
            final(self)@ == if !old(self)@.active || text@.len() == 0 {
                old(self)@
            } else {
                let c = old(self)@.cursor as int;
                let q = quote_controls(text@);
                after_edit(
                    old(self)@,
                    old(self)@.input.take(c) + q + old(self)@.input.skip(c),
                    (c + q.len()) as nat,
                )
            },
    {
        if !self.active || text.is_empty() {
            return;
        }
        let chars = chars_of(text);
        let visible = quote_control_characters(chars.as_slice());
        let mut input = slice_vec(self.input.as_slice(), 0, self.cursor);
        crate::text::extend_chars(&mut input, visible.as_slice());
        let rest = slice_vec(self.input.as_slice(), self.cursor, self.input.len());
        crate::text::extend_chars(&mut input, rest.as_slice());
        assert(self.input@.subrange(0, self.cursor as int) =~= self.input@.take(self.cursor as int));
        assert(self.input@.subrange(self.cursor as int, self.input.len() as int) =~= self.input@.skip(self.cursor as int));
        assert(input@.len() == input.len());
        assert(input@[0] == self.input@[0]);
        self.cursor = self.cursor + visible.len();
        self.input = input;
        self.selected = 0;
        self.selection_explicit = false;
        self.status = None;
        self.clear_listings();
        self.bump_epoch();
    }

    /// Deletes the character before the cursor; the leading `:` stays.
    pub fn backspace(&mut self)
        requires
            old(self).wf(),
        ensures
            final(self).wf(),
            final(self)@ == if !old(self)@.active || old(self)@.cursor <= 1 {
                old(self)@
            } else {
                let c = old(self)@.cursor as int;
                after_edit(old(self)@, old(self)@.input.remove(c - 1), (c - 1) as nat)
            },
    {
        if !self.active || self.cursor <= 1 {
            return;
        }
        let ghost before = self.input@;
        self.input.remove(self.cursor - 1);
        self.cursor = self.cursor - 1;
        self.selected = 0;
        self.selection_explicit = false;
        self.status = None;
        self.clear_listings();
        self.bump_epoch();
        assert(self.input@[0] == before[0]);
    }

    /// Deletes the character at the cursor.
    pub fn delete(&mut self)
        requires
            old(self).wf(),
        ensures
            final(self).wf(),
            final(self)@ == if !old(self)@.active || old(self)@.cursor >= old(self)@.input.len() {
                old(self)@
            } else {
                let c = old(self)@.cursor;
                after_edit(old(self)@, old(self)@.input.remove(c as int), c)
            },
    {
        if !self.active || self.cursor >= self.input.len() {
            return;
        }
        let ghost before = self.input@;
        self.input.remove(self.cursor);
        self.selected = 0;
        self.selection_explicit = false;
        self.status = None;
        self.clear_listings();
        self.bump_epoch();
        assert(self.input@[0] == before[0]);
    }

    /// Moves the cursor one character left, not before the leading `:`.
    pub fn move_left(&mut self)
        requires
            old(self).wf(),
        ensures
            final(self).wf(),
            final(self)@ == if old(self)@.active && old(self)@.cursor > 1 {
                BarV { cursor: (old(self)@.cursor - 1) as nat, ..old(self)@ }
            } else {
                old(self)@
            },
    {
        if self.active && self.cursor > 1 {
            self.cursor = self.cursor - 1;
        }
    }

    /// Moves the cursor one character right.
    pub fn move_right(&mut self)
        requires
            old(self).wf(),
        ensures
            final(self).wf(),
            final(self)@ == if old(self)@.active && old(self)@.cursor < old(self)@.input.len() {
                BarV { cursor: old(self)@.cursor + 1, ..old(self)@ }
            } else {
                old(self)@
            },
    {
        if self.active && self.cursor < self.input.len() {
            self.cursor = self.cursor + 1;
        }
    }

    /// Moves the cursor just after the leading `:`.
    pub fn move_home(&mut self)
        requires
            old(self).wf(),
        ensures
            final(self).wf(),
            final(self)@ == if old(self)@.active {
                BarV { cursor: if old(self)@.input.len() < 1 { old(self)@.input.len() } else { 1 }, ..old(self)@ }
            } else {
                old(self)@
            },
    {
        if self.active {
            self.cursor = if self.input.len() < 1 { self.input.len() } else { 1 };
        }
    }

    /// Moves the cursor to the end of the command line.
    pub fn move_end(&mut self)
        requires
            old(self).wf(),
        ensures
            final(self).wf(),
            final(self)@ == if old(self)@.active {
                BarV { cursor: old(self)@.input.len(), ..old(self)@ }
            } else {
                old(self)@
            },
    {
        if self.active {
            self.cursor = self.input.len();
        }
    }

    /// Puts the cursor at byte `position`, kept after the leading `:` and
    /// inside the command line, and moved back to a character boundary.
    pub fn set_cursor(&mut self, position: usize)
        requires
            old(self).wf(),
        ensures
            final(self).wf(),
            final(self)@ == if old(self)@.active {
                BarV {
                    cursor: chars_within(old(self)@.input, clamp_position(old(self)@.input, position as int)),
                    ..old(self)@
                }
            } else {
                old(self)@
            },
    {
        if !self.active {
            return;
        }
        proof {
            crate::text::lemma_byte_len_ge_len(self.input@);
        }
        let lo: usize = if self.input.len() > 0 { 1 } else { 0 };
        let mut p = if position > lo { position } else { lo };
        match crate::text::byte_len_checked(self.input.as_slice()) {
            Some(len) => {
                if p > len {
                    p = len;
                }
            },
            None => {},
        }
        assert(p == clamp_position(self.input@, position as int));
        let mut i: usize = 0;
        let mut used: usize = 0;
        assert(self.input@.skip(0) =~= self.input@);
        while i < self.input.len() && crate::text::char_width(self.input[i]) <= p - used
            invariant
                0 <= i <= self.input.len(),
                used <= p,
                chars_within(self.input@, p as int) == i + chars_within(self.input@.skip(i as int), p - used),
            decreases self.input.len() - i,
        {
            assert(self.input@.skip(i as int).drop_first() =~= self.input@.skip(i + 1));
            used = used + crate::text::char_width(self.input[i]);
            i = i + 1;
        }
        proof {
            lemma_chars_within(self.input@, p as int);
            if self.input.len() > 0 {
                assert(utf8_width(self.input@[0]) == 1);
            }
        }
        self.cursor = i;
    }

    /// Shows `choices` (files with pending changes) for review.
    pub fn show_review(&mut self, choices: Vec<String>)
        requires
            old(self).wf(),
        ensures
            final(self).wf(),
            final(self)@ == (BarV {
                info: seq![],
                info_docs: seq![],
                selected: 0,
                selection_explicit: false,
                reviews: strings_view(choices@),
                status: Some("Select a file to review; Apply changes commits; Escape cancels"@),
                ..old(self)@
            }),
    {
        self.info_lines.clear();
        self.info_documentation.clear();
        assert(rows_view(self.info_lines@) =~= seq![]);
        self.selected = 0;
        self.selection_explicit = false;
        self.review_choices = choices;
        assert(self.review_choices@.len() == self.review_choices.len());
        self.status = Some(string_from("Select a file to review; Apply changes commits; Escape cancels"));
    }

    /// Shows `text` as informational rows (see `spec_layout`); the rows that
    /// overlap a byte range of `documentation` are marked as documentation.
    pub fn show_info_styled(&mut self, text: &str, documentation: &[(usize, usize)])
        requires
            old(self).wf(),
        ensures
            final(self).wf(),
            final(self)@ == (BarV {
                reviews: seq![],
                info: crate::command_bar::info::spec_layout(text@, documentation@).rows,
                info_docs: crate::command_bar::info::spec_layout(text@, documentation@).docs,
                info_offset: 0,
                selected: 0,
                selection_explicit: false,
                status: Some("Up/Down scroll; Escape closes"@),
                ..old(self)@
            }),
    {
        self.review_choices.clear();
        assert(strings_view(self.review_choices@) =~= seq![]);
        let chars = chars_of(text);
        let (rows, docs) = layout_info(chars.as_slice(), documentation);
        self.info_lines = rows;
        self.info_documentation = docs;
        assert(self.info_lines@.len() == self.info_lines.len());
        self.info_offset = 0;
        self.selected = 0;
        self.selection_explicit = false;
        self.status = Some(string_from("Up/Down scroll; Escape closes"));
    }

    /// Shows `text` as informational rows.
    pub fn show_info(&mut self, text: &str)
        requires
            old(self).wf(),
        ensures
            final(self).wf(),
            final(self)@ == (BarV {
                reviews: seq![],
                info: crate::command_bar::info::spec_layout(text@, seq![]).rows,
                info_docs: crate::command_bar::info::spec_layout(text@, seq![]).docs,
                info_offset: 0,
                selected: 0,
                selection_explicit: false,
                status: Some("Up/Down scroll; Escape closes"@),
                ..old(self)@
            }),
    {
        let none: Vec<(usize, usize)> = Vec::new();
        self.show_info_styled(text, none.as_slice());
    }

    /// Shows a hover's text, its documentation ranges styled.
    pub fn show_hover(&mut self, hover: &crate::lsp::hover::HoverContent)
        requires
            old(self).wf(),
        ensures
            final(self).wf(),
            final(self)@ == (BarV {
                reviews: seq![],
                info: crate::command_bar::info::spec_layout(hover.text@, hover.documentation@).rows,
                info_docs: crate::command_bar::info::spec_layout(hover.text@, hover.documentation@).docs,
                info_offset: 0,
                selected: 0,
                selection_explicit: false,
                status: Some("Up/Down scroll; Escape closes"@),
                ..old(self)@
            }),
    {
        self.show_info_styled(hover.text.as_str(), hover.documentation.as_slice());
    }

    /// Whether visible informational row `index` is documentation.
    pub fn info_is_documentation(&self, index: usize) -> (r: bool)
        requires
            self.wf(),
        ensures
            r == (is_info(self@) && self@.info_offset + index < self@.info_docs.len()
                && self@.info_docs[self@.info_offset + index]),
    {
        if self.info_lines.len() == 0 {
            return false;
        }
        assert(self.info_documentation@.len() == self.info_documentation.len());
        match self.info_offset.checked_add(index) {
            Some(k) => k < self.info_documentation.len() && self.info_documentation[k],
            None => false,
        }
    }
}


/// What the rows the bar lists carry: actions as `action_ok` says, and
/// formatter indices that exist.
pub proof fn lemma_visible_actions(b: BarV, v: int)
    requires
        bar_wf(b),
    ensures
        visible_suggestion(b, v) matches Some(s) ==> action_ok(s.action),
        visible_suggestion(b, v) matches Some(s) ==> (s.action matches ActionV::FormatProvider(k) ==> k < b.formatters.len()),
        visible_suggestion(b, v) matches Some(s) ==> (s.action is ToggleOption ==> b.input.len() > 0),
{
    if 0 <= v < MAX_VISIBLE_SUGGESTIONS {
        lemma_counts(b);
        lemma_input_suggestion_actions(b.input, page_offset(b) + v);
    }
}

/// The new selection after moving it by `direction` (up when negative),
/// wrapping around; informational rows scroll instead.
pub open spec fn moved_selection(b: BarV, direction: int) -> BarV {
    if is_info(b) {
        let last_start = if b.info.len() >= MAX_VISIBLE_SUGGESTIONS { b.info.len() - MAX_VISIBLE_SUGGESTIONS } else { 0 };
        BarV {
            info_offset: if direction < 0 {
                if b.info_offset > 0 { (b.info_offset - 1) as nat } else { 0 }
            } else {
                if b.info_offset + 1 < last_start { b.info_offset + 1 } else { last_start as nat }
            },
            ..b
        }
    } else {
        let count = total_count(b);
        if count == 0 {
            BarV { selected: 0, selection_explicit: false, ..b }
        } else {
            BarV {
                selected: if direction < 0 {
                    if b.selected == 0 { (count - 1) as nat } else { (b.selected - 1) as nat }
                } else {
                    ((b.selected + 1) as int % count) as nat
                },
                selection_explicit: true,
                ..b
            }
        }
    }
}

proof fn lemma_raw_suggestion_earlier(b: BarV, j: int)
    requires
        j >= 0,
        raw_suggestion(b, j + 1) is Some,
    ensures
        raw_suggestion(b, j) is Some,
{
    if !is_info(b) && b.reviews.len() == 0 && !formatters_shown(b) {
        crate::command_bar::suggest::lemma_input_suggestion_earlier(b.input, j);
    }
}

proof fn lemma_raw_suggestion_gone(b: BarV, k: int, j: int)
    requires
        0 <= k <= j,
        raw_suggestion(b, k) is None,
    ensures
        raw_suggestion(b, j) is None,
    decreases j - k,
{
    if j > k {
        lemma_raw_suggestion_gone(b, k, j - 1);
        if raw_suggestion(b, j) is Some {
            lemma_raw_suggestion_earlier(b, j - 1);
        }
    }
}

/// The shown rows have no gaps: row `i` exists exactly when it is one of
/// the first `visible_count` rows, of which there are at most nine.
pub proof fn suggestion_rows_contiguous(b: BarV)
    requires
        bar_wf(b),
    ensures
        visible_count(b) <= MAX_VISIBLE_SUGGESTIONS,
        forall|i: int| #[trigger] visible_suggestion(b, i) is Some <==> 0 <= i < visible_count(b),
{
    lemma_counts(b);
    assert forall|i: int| #[trigger] visible_suggestion(b, i) is Some implies 0 <= i < visible_count(b) by {
        if i >= visible_count(b) && i < MAX_VISIBLE_SUGGESTIONS {
            lemma_first_invisible(b, 0);
            lemma_raw_suggestion_gone(b, page_offset(b) + visible_count(b), page_offset(b) + i);
        }
    }
}

/// The bar after `n` moves of the selection in `direction`.
pub open spec fn moved_selection_times(b: BarV, direction: int, n: nat) -> BarV
    decreases n,
{
    if n == 0 {
        b
    } else {
        moved_selection_times(moved_selection(b, direction), direction, (n - 1) as nat)
    }
}

/// The rows and their count depend on the listings and the command line,
/// not on the selection.
proof fn lemma_rows_ignore_selection(b: BarV, c: BarV, i: int)
    requires
        b.info == c.info,
        b.info_offset == c.info_offset,
        b.reviews == c.reviews,
        b.formatters == c.formatters,
        b.input == c.input,
        0 <= i,
    ensures
        first_missing_from(b, i) == first_missing_from(c, i),
        forall|j: int| raw_suggestion(b, j) == raw_suggestion(c, j),
    decreases suggestion_bound(b) - i,
{
    assert forall|j: int| raw_suggestion(b, j) == raw_suggestion(c, j) by {}
    if !(i >= suggestion_bound(b) || raw_suggestion(b, i) is None) {
        lemma_rows_ignore_selection(b, c, i + 1);
    }
}

proof fn lemma_moved_down(b: BarV, k: nat)
    requires
        !is_info(b),
        total_count(b) > 0,
        b.selected < total_count(b),
        k >= 1,
    ensures
        moved_selection_times(b, 1, k) == (BarV {
            selected: ((b.selected as int + k as int) % total_count(b)) as nat,
            selection_explicit: true,
            ..b
        }),
    decreases k,
{
    let c = total_count(b);
    let b1 = moved_selection(b, 1);
    lemma_rows_ignore_selection(b, b1, 0);
    if k > 1 {
        lemma_moved_down(b1, (k - 1) as nat);
        let sel = b.selected as int;
        let m = k as int - 1;
        assert(((sel + 1) % c + m) % c == (sel + k as int) % c) by {
            vstd::arithmetic::div_mod::lemma_add_mod_noop(sel + 1, m, c);
            vstd::arithmetic::div_mod::lemma_mod_twice(m, c);
            vstd::arithmetic::div_mod::lemma_add_mod_noop((sel + 1) % c, m, c);
            vstd::arithmetic::div_mod::lemma_mod_twice(sel + 1, c);
        }
    } else {
        assert(moved_selection_times(b1, 1, 0) == b1);
    }
}

/// Moving the selection down once per row comes back to the row it started
/// on, which shows the same suggestion.
pub proof fn selection_wraps_around(b: BarV)
    requires
        !is_info(b),
        total_count(b) > 0,
        b.selected < total_count(b),
    ensures
        moved_selection_times(b, 1, total_count(b) as nat) == (BarV { selection_explicit: true, ..b }),
        visible_suggestion(moved_selection_times(b, 1, total_count(b) as nat), selected_row(b))
            == visible_suggestion(b, selected_row(b)),
{
    let c = total_count(b);
    lemma_moved_down(b, c as nat);
    vstd::arithmetic::div_mod::lemma_mod_self_0(c);
    vstd::arithmetic::div_mod::lemma_add_mod_noop(b.selected as int, c, c);
    vstd::arithmetic::div_mod::lemma_small_mod(b.selected as nat, c as nat);
    assert((b.selected as int + c) % c == b.selected as int);
    lemma_rows_ignore_selection(b, BarV { selection_explicit: true, ..b }, 0);
}

/// `x` saturated into the range of `usize`.
pub open spec fn saturate_usize(x: int) -> nat {
    if x < 0 {
        0
    } else if x > usize::MAX {
        usize::MAX as nat
    } else {
        x as nat
    }
}

/// The selection after the wheel moved it by `direction` rows, kept on a row
/// that exists; informational rows scroll instead.
pub open spec fn scrolled_selection(b: BarV, direction: int) -> BarV {
    if is_info(b) {
        moved_selection(b, direction)
    } else {
        let last = if total_count(b) > 0 { total_count(b) - 1 } else { 0 };
        let to = saturate_usize(b.selected + direction);
        BarV { selected: if to < last { to } else { last as nat }, selection_explicit: true, ..b }
    }
}

pub open spec fn recipe_command(install: bool, k: nat) -> Seq<char> {
    ":lsp "@ + (if install { "install"@ } else { "doctor"@ }) + " "@ + spec_recipes()[k as int].id
}

/// The command line that choosing an action gives, if it gives one.
pub open spec fn applied_input(b: BarV, a: ActionV) -> Option<Seq<char>> {
    match a {
        ActionV::CompleteCommand(name) => Some(":"@ + name + " "@),
        ActionV::SetInput(t) => Some(t),
        ActionV::ToggleOption(o) => Some(toggled(b.input, o)),
        ActionV::LspRecipe { install, index } => Some(recipe_command(install, index)),
        ActionV::FormatProvider(k) => Some(":format "@ + b.formatters[k as int].0),
        _ => None,
    }
}

/// The state after choosing a row: its command line, cursor at the end,
/// selection, status and listings reset.
pub open spec fn apply_result(b: BarV, index: int) -> (BarV, bool) {
    match visible_suggestion(b, index) {
        Some(s) => match applied_input(b, s.action) {
            Some(t) => (BarV { formatters: seq![], ..after_edit(b, t, t.len()) }, true),
            None => (b, false),
        },
        None => (b, false),
    }
}

/// Results that Enter may run again while their output is shown.
pub open spec fn repeatable(r: Result<Command, Seq<char>>) -> bool {
    match r {
        Ok(Command::Hover) | Ok(Command::Definition) | Ok(Command::Rename { .. })
        | Ok(Command::Actions { .. }) | Ok(Command::LspStart) | Ok(Command::LspRestart)
        | Ok(Command::LspStatus) => true,
        Ok(Command::Recover { number }) => number is None,
        _ => false,
    }
}

/// What Enter does before the command runs: a highlighted completion is
/// applied, and the result says whether to run the command line.
pub open spec fn prepare_result(b: BarV) -> (BarV, bool) {
    if is_info(b) {
        (b, repeatable(spec_parse_command(b.input)))
    } else {
        let row = selected_row(b);
        match visible_suggestion(b, row) {
            Some(s) => match s.action {
                ActionV::CompleteCommand(_) | ActionV::SetInput(_) | ActionV::FormatProvider(_)
                | ActionV::LspRecipe { .. } => {
                    let a = apply_result(b, row).0;
                    (a, spec_parse_command(a.input) is Ok)
                },
                ActionV::ToggleOption(_) => if b.selection_explicit {
                    (apply_result(b, row).0, false)
                } else {
                    (b, true)
                },
                _ => (b, true),
            },
            None => (b, true),
        }
    }
}

pub open spec fn row_height(b: BarV, index: int) -> int {
    if is_info(b) {
        if visible_suggestion(b, index) matches Some(s) && s.label.len() == 0 {
            INFO_PARAGRAPH_GAP as int
        } else {
            INFO_LINE_HEIGHT as int
        }
    } else {
        COMMAND_SUGGESTION_HEIGHT as int
    }
}

/// Height of the first `n` rows.
pub open spec fn rows_height(b: BarV, n: int) -> int
    decreases n,
{
    if n <= 0 {
        0
    } else {
        rows_height(b, n - 1) + row_height(b, n - 1)
    }
}

/// Top of row `index`, relative to the first row.
pub open spec fn row_offset(b: BarV, index: int) -> int {
    rows_height(b, if index < visible_count(b) { index } else { visible_count(b) })
}

pub open spec fn suggestions_height(b: BarV) -> int {
    rows_height(b, visible_count(b))
}

pub open spec fn panel_height(b: BarV) -> int {
    if b.active {
        COMMAND_INPUT_HEIGHT + suggestions_height(b)
    } else {
        0
    }
}

pub open spec fn reserved_height(b: BarV) -> int {
    if b.active {
        panel_height(b) + COMMAND_BAR_MARGIN
    } else {
        0
    }
}

proof fn lemma_rows_height(b: BarV, n: int)
    requires
        0 <= n,
    ensures
        0 <= rows_height(b, n) <= COMMAND_SUGGESTION_HEIGHT * n,
        forall|m: int| 0 <= m <= n ==> rows_height(b, m) <= rows_height(b, n),
    decreases n,
{
    if n > 0 {
        lemma_rows_height(b, n - 1);
    }
}

/// The first row, from `i` on, whose bottom lies below `dy`.
pub open spec fn row_at(b: BarV, dy: int, i: int) -> Option<int>
    decreases visible_count(b) - i,
{
    if i < 0 || i >= visible_count(b) {
        None
    } else if dy < rows_height(b, i + 1) {
        Some(i)
    } else {
        row_at(b, dy, i + 1)
    }
}

/// What lies at `(x, y)` in a window of the given size.
pub open spec fn hit(b: BarV, window_width: int, window_height: int, x: int, y: int) -> CommandBarHit {
    let right = window_width - COMMAND_BAR_MARGIN;
    let top = window_height - COMMAND_BAR_MARGIN - panel_height(b);
    let suggestion_bottom = top + suggestions_height(b);
    let bottom = suggestion_bottom + COMMAND_INPUT_HEIGHT;
    if !b.active || x < COMMAND_BAR_MARGIN || x >= right || y < top || y >= bottom {
        CommandBarHit::Outside
    } else if y >= suggestion_bottom {
        if x >= right - COMMAND_RUN_WIDTH {
            CommandBarHit::Execute
        } else {
            CommandBarHit::Input
        }
    } else {
        match row_at(b, y - top, 0) {
            Some(i) => CommandBarHit::Suggestion(i as usize),
            None => CommandBarHit::Outside,
        }
    }
}

/// The bar after `delete`: the character at the cursor removed.
pub open spec fn deleted_at_cursor(b: BarV) -> BarV {
    if !b.active || b.cursor >= b.input.len() {
        b
    } else {
        after_edit(b, b.input.remove(b.cursor as int), b.cursor)
    }
}

/// How many characters an active bar holds after its cursor.
pub open spec fn chars_after(b: BarV) -> nat {
    if b.active && b.cursor < b.input.len() {
        (b.input.len() - b.cursor) as nat
    } else {
        0
    }
}

/// The bar after `k` presses of Delete.
pub open spec fn deleted_times(b: BarV, k: nat) -> BarV
    decreases k,
{
    if k == 0 {
        b
    } else {
        deleted_times(deleted_at_cursor(b), (k - 1) as nat)
    }
}

impl CommandBar {
    /// The command line after the cursor.
    pub fn rest(&self) -> (r: String)
        requires
            self.wf(),
        ensures
            r@ == self@.input.skip(self@.cursor as int),
    {
        let v = slice_vec(self.input.as_slice(), self.cursor, self.input.len());
        assert(self.input@.subrange(self.cursor as int, self.input.len() as int) =~= self.input@.skip(
            self.cursor as int,
        ));
        string_of(v.as_slice())
    }

    /// Deletes everything after the cursor, one character at a time.
    pub fn delete_to_end(&mut self)
        requires
            old(self).wf(),
        ensures
            final(self).wf(),
            final(self)@ == deleted_times(old(self)@, chars_after(old(self)@)),
    {
        while self.active && self.cursor < self.input.len()
            invariant
                self.wf(),
                deleted_times(self@, chars_after(self@)) == deleted_times(old(self)@, chars_after(old(self)@)),
            decreases self.input.len() - self.cursor,
        {
            let ghost before = self@;
            self.delete();
            assert(deleted_times(before, chars_after(before)) == deleted_times(
                self@,
                (chars_after(before) - 1) as nat,
            ));
        }
    }
}

impl CommandBar {
    /// Moves the selection by one row (up when `direction` is negative),
    /// wrapping around; informational rows scroll by one instead.
    pub fn move_selection(&mut self, direction: isize)
        requires
            old(self).wf(),
        ensures
            final(self).wf(),
            final(self)@ == moved_selection(old(self)@, direction as int),
    {
        if self.info_lines.len() > 0 {
            let last_start = if self.info_lines.len() >= MAX_VISIBLE_SUGGESTIONS {
                self.info_lines.len() - MAX_VISIBLE_SUGGESTIONS
            } else {
                0
            };
            self.info_offset = if direction < 0 {
                if self.info_offset > 0 { self.info_offset - 1 } else { 0 }
            } else {
                if self.info_offset + 1 < last_start { self.info_offset + 1 } else { last_start }
            };
            return;
        }
        let count = self.total_suggestion_count();
        proof {
            lemma_counts(self@);
        }
        if count == 0 {
            self.selected = 0;
            self.selection_explicit = false;
            return;
        }
        self.selected = if direction < 0 {
            if self.selected == 0 { count - 1 } else { self.selected - 1 }
        } else {
            (self.selected + 1) % count
        };
        self.selection_explicit = true;
    }

    /// Moves the selection by `direction` rows without wrapping (the wheel);
    /// informational rows scroll instead.
    pub fn scroll_suggestions(&mut self, direction: isize)
        requires
            old(self).wf(),
        ensures
            final(self).wf(),
            final(self)@ == scrolled_selection(old(self)@, direction as int),
    {
        if self.info_lines.len() > 0 {
            self.move_selection(direction);
            return;
        }
        let to: usize = if direction < 0 {
            let magnitude = ((-(direction + 1)) as usize) + 1;
            if self.selected >= magnitude { self.selected - magnitude } else { 0 }
        } else {
            let magnitude = direction as usize;
            if self.selected > usize::MAX - magnitude { usize::MAX } else { self.selected + magnitude }
        };
        let total = self.total_suggestion_count();
        proof {
            lemma_counts(self@);
        }
        let last = if total > 0 { total - 1 } else { 0 };
        self.selected = if to < last { to } else { last };
        self.selection_explicit = true;
    }

    /// Selects visible row `index`; whether the selection changed. Rows that
    /// are not shown are not selected.
    pub fn select_suggestion(&mut self, index: usize) -> (r: bool)
        requires
            old(self).wf(),
        ensures
            final(self).wf(),
            if index < visible_count(old(self)@) {
                let k = page_offset(old(self)@) + index;
                &&& final(self)@ == (BarV { selected: k as nat, selection_explicit: true, ..old(self)@ })
                &&& r == (old(self)@.selected != k)
            } else {
                final(self)@ == old(self)@ && !r
            },
    {
        proof {
            lemma_counts(self@);
        }
        if index < self.suggestion_count() {
            let offset = self.page_offset_exec();
            proof {
                assert(visible_suggestion(self@, index as int) is Some);
                if offset + index >= suggestion_bound(self@) {
                    lemma_raw_suggestion_bound(self@, offset + index);
                }
            }
            let k = offset + index;
            let changed = self.selected != k;
            self.selected = k;
            self.selection_explicit = true;
            changed
        } else {
            false
        }
    }

    /// Chooses visible row `index`: completes the command, sets the input,
    /// adds or removes the option, or fills in the recipe or formatter.
    /// Whether the row had such an action.
    pub fn apply_suggestion(&mut self, index: usize) -> (r: bool)
        requires
            old(self).wf(),
        ensures
            final(self).wf(),
            (final(self)@, r) == apply_result(old(self)@, index as int),
    {
        let suggestion = match self.suggestion(index) {
            Some(s) => s,
            None => {
                return false;
            },
        };
        proof {
            lemma_visible_actions(self@, index as int);
        }
        let input: Vec<char> = match suggestion.action {
            SuggestionAction::CompleteCommand(name) => {
                let mut v: Vec<char> = Vec::new();
                v.push(':');
                push_str(&mut v, name);
                v.push(' ');
                proof {
                    reveal_strlit(":");
                    reveal_strlit(" ");
                }
                assert(v@ =~= ":"@ + name@ + " "@);
                v
            },
            SuggestionAction::SetInput(t) => chars_of(t),
            SuggestionAction::ToggleOption(o) => {
                let mut v = slice_vec(self.input.as_slice(), 0, self.input.len());
                assert(v@ =~= self.input@);
                toggle_option(&mut v, o);
                proof {
                    lemma_toggled_keeps_colon(self.input@, o@);
                }
                v
            },
            SuggestionAction::LspRecipe { install, index } => {
                let all = recipes();
                assert(recipes_view(all@)[index as int] == all@[index as int]@);
                let mut v = chars_of(":lsp ");
                push_str(&mut v, if install { "install" } else { "doctor" });
                push_str(&mut v, " ");
                push_str(&mut v, all[index].id);
                proof {
                    reveal_strlit(":lsp ");
                }
                v
            },
            SuggestionAction::FormatProvider(k) => {
                assert(formatters_view(self.formatter_choices@)[k as int].0 == self.formatter_choices@[k as int].0@);
                let mut v = chars_of(":format ");
                let name = chars_of(self.formatter_choices[k].0.as_str());
                crate::text::extend_chars(&mut v, name.as_slice());
                proof {
                    reveal_strlit(":format ");
                }
                v
            },
            _ => {
                return false;
            },
        };
        assert(input@.len() == input.len());
        self.input = input;
        self.cursor = self.input.len();
        self.selected = 0;
        self.selection_explicit = false;
        self.status = None;
        self.clear_listings();
        self.bump_epoch();
        self.formatter_choices = Vec::new();
        assert(formatters_view(self.formatter_choices@) =~= seq![]);
        true
    }

    /// Chooses the selected row (see `apply_suggestion`).
    pub fn apply_selected(&mut self) -> (r: bool)
        requires
            old(self).wf(),
        ensures
            final(self).wf(),
            (final(self)@, r) == apply_result(old(self)@, selected_row(old(self)@)),
    {
        let row = self.selected();
        self.apply_suggestion(row)
    }

    /// Whether Enter picks the highlighted option rather than running.
    pub fn selects_option_on_enter(&self) -> (r: bool)
        requires
            self.wf(),
        ensures
            r == (self@.selection_explicit && (visible_suggestion(self@, selected_row(self@)) matches Some(s)
                && s.action is ToggleOption)),
    {
        if !self.selection_explicit {
            return false;
        }
        match self.suggestion(self.selected()) {
            Some(s) => match s.action {
                SuggestionAction::ToggleOption(_) => true,
                _ => false,
            },
            None => false,
        }
    }

    /// The command named by the command line, or why there is none.
    pub fn parse(&self) -> (r: Result<ParsedCommand, String>)
        ensures
            match spec_parse_command(self@.input) {
                Ok(c) => r is Ok && r->Ok_0@ == c,
                Err(e) => r is Err && r->Err_0@ == e,
            },
    {
        match parse_chars(self.input.as_slice()) {
            Ok(c) => Ok(c),
            Err(e) => Err(string_of(e.as_slice())),
        }
    }

    /// Prepares Enter: applies a highlighted completion, recipe, formatter or
    /// chosen option; whether the command line should then run.
    pub fn prepare_execute(&mut self) -> (r: bool)
        requires
            old(self).wf(),
        ensures
            final(self).wf(),
            (final(self)@, r) == prepare_result(old(self)@),
    {
        if self.info_lines.len() > 0 {
            return match self.parse() {
                Ok(ParsedCommand::Hover) | Ok(ParsedCommand::Definition) | Ok(ParsedCommand::Rename { .. })
                | Ok(ParsedCommand::Actions { .. }) | Ok(ParsedCommand::LspStart)
                | Ok(ParsedCommand::LspRestart) | Ok(ParsedCommand::LspStatus) => true,
                Ok(ParsedCommand::Recover { number }) => number.is_none(),
                _ => false,
            };
        }
        let action = match self.suggestion(self.selected()) {
            Some(s) => Some(s.action),
            None => None,
        };
        match action {
            Some(SuggestionAction::CompleteCommand(_)) | Some(SuggestionAction::SetInput(_))
            | Some(SuggestionAction::FormatProvider(_)) | Some(SuggestionAction::LspRecipe { .. }) => {
                self.apply_selected();
                self.parse().is_ok()
            },
            Some(SuggestionAction::ToggleOption(_)) => {
                if self.selection_explicit {
                    self.apply_selected();
                    false
                } else {
                    true
                }
            },
            _ => true,
        }
    }

    /// The file index of the selected review row, if one is selected.
    pub fn review_selection(&self) -> (r: Option<usize>)
        requires
            self.wf(),
        ensures
            match visible_suggestion(self@, selected_row(self@)) {
                Some(s) => match s.action {
                    ActionV::Review(i) => r == Some(i as usize),
                    _ => r is None,
                },
                None => r is None,
            },
    {
        match self.suggestion(self.selected()) {
            Some(s) => match s.action {
                SuggestionAction::Review(i) => Some(i),
                _ => None,
            },
            None => None,
        }
    }

    /// Height of visible row `index`.
    pub fn suggestion_row_height(&self, index: usize) -> (r: i32)
        requires
            self.wf(),
        ensures
            r == row_height(self@, index as int),
    {
        if self.info_lines.len() > 0 {
            match self.suggestion(index) {
                Some(s) => if s.label.as_str().is_empty() { INFO_PARAGRAPH_GAP } else { INFO_LINE_HEIGHT },
                None => INFO_LINE_HEIGHT,
            }
        } else {
            COMMAND_SUGGESTION_HEIGHT
        }
    }

    /// Top of visible row `index`, relative to the first row.
    pub fn suggestion_row_offset(&self, index: usize) -> (r: i32)
        requires
            self.wf(),
        ensures
            r == row_offset(self@, index as int),
            0 <= r <= suggestions_height(self@),
    {
        let count = self.suggestion_count();
        let n = if index < count { index } else { count };
        proof {
            lemma_counts(self@);
            lemma_rows_height(self@, n as int);
            lemma_rows_height(self@, count as int);
        }
        let mut total: i32 = 0;
        let mut i: usize = 0;
        while i < n
            invariant
                0 <= i <= n <= MAX_VISIBLE_SUGGESTIONS,
                self.wf(),
                total == rows_height(self@, i as int),
                forall|m: int| 0 <= m <= n ==> rows_height(self@, m) <= rows_height(self@, n as int),
                rows_height(self@, n as int) <= COMMAND_SUGGESTION_HEIGHT * MAX_VISIBLE_SUGGESTIONS,
            decreases n - i,
        {
            proof {
                lemma_rows_height(self@, i + 1);
            }
            total = total + self.suggestion_row_height(i);
            i = i + 1;
        }
        total
    }

    /// Height of the rows shown.
    pub fn suggestions_height(&self) -> (r: i32)
        requires
            self.wf(),
        ensures
            r == suggestions_height(self@),
            0 <= r <= COMMAND_SUGGESTION_HEIGHT * MAX_VISIBLE_SUGGESTIONS,
    {
        proof {
            lemma_counts(self@);
            lemma_rows_height(self@, visible_count(self@));
        }
        self.suggestion_row_offset(self.suggestion_count())
    }

    /// Height of the bar: the input row and the rows shown, or nothing when closed.
    pub fn panel_height(&self) -> (r: i32)
        requires
            self.wf(),
        ensures
            r == panel_height(self@),
            0 <= r <= COMMAND_INPUT_HEIGHT + COMMAND_SUGGESTION_HEIGHT * MAX_VISIBLE_SUGGESTIONS,
    {
        if !self.active {
            return 0;
        }
        COMMAND_INPUT_HEIGHT + self.suggestions_height()
    }

    /// Height the editor leaves free for the bar.
    pub fn reserved_height(&self) -> (r: i32)
        requires
            self.wf(),
        ensures
            r == reserved_height(self@),
    {
        if self.active {
            self.panel_height() + COMMAND_BAR_MARGIN
        } else {
            0
        }
    }

    /// What lies at `(x, y)` in a window of the given size: the run button,
    /// the input row, a shown row, or nothing of the bar.
    pub fn hit_test(&self, window_width: i32, window_height: i32, x: i32, y: i32) -> (r: CommandBarHit)
        requires
            self.wf(),
            window_width >= i32::MIN + COMMAND_BAR_MARGIN + COMMAND_RUN_WIDTH,
            window_height >= i32::MIN + COMMAND_BAR_MARGIN + COMMAND_INPUT_HEIGHT
                + COMMAND_SUGGESTION_HEIGHT * MAX_VISIBLE_SUGGESTIONS,
        ensures
            r == hit(self@, window_width as int, window_height as int, x as int, y as int),
    {
        if !self.active {
            return CommandBarHit::Outside;
        }
        let left = COMMAND_BAR_MARGIN;
        let right = window_width - COMMAND_BAR_MARGIN;
        let heights = self.suggestions_height();
        let top = window_height - COMMAND_BAR_MARGIN - self.panel_height();
        let suggestion_bottom = top + heights;
        let bottom = suggestion_bottom + COMMAND_INPUT_HEIGHT;
        if x < left || x >= right || y < top || y >= bottom {
            return CommandBarHit::Outside;
        }
        if y >= suggestion_bottom {
            return if x >= right - COMMAND_RUN_WIDTH { CommandBarHit::Execute } else { CommandBarHit::Input };
        }
        let count = self.suggestion_count();
        proof {
            lemma_counts(self@);
        }
        let mut index: usize = 0;
        while index < count
            invariant
                0 <= index <= count,
                count == visible_count(self@),
                count <= MAX_VISIBLE_SUGGESTIONS,
                self.wf(),
                top == window_height - COMMAND_BAR_MARGIN - panel_height(self@),
                row_at(self@, y - top, 0) == row_at(self@, y - top, index as int),
                top <= y,
                top + suggestions_height(self@) <= i32::MAX,
                hit(self@, window_width as int, window_height as int, x as int, y as int) == match row_at(self@, y - top, 0) {
                    Some(i) => CommandBarHit::Suggestion(i as usize),
                    None => CommandBarHit::Outside,
                },
            decreases count - index,
        {
            proof {
                lemma_rows_height(self@, count as int);
            }
            let offset = self.suggestion_row_offset(index + 1);
            if y < top + offset {
                return CommandBarHit::Suggestion(index);
            }
            index = index + 1;
        }
        CommandBarHit::Outside
    }
}

} // verus!
