//! Completion suggestions computed from the command line alone.
use vstd::prelude::*;
use crate::command_bar::tables::{
    Entry, EntryV, commands, entries_view, find_options, font_size_choices, goto_options,
    keybinding_choices, line_number_choices, lsp_commands, replace_options, settings,
    spec_commands, spec_find_options, spec_font_size_choices, spec_goto_options,
    spec_keybinding_choices, spec_line_number_choices, spec_lsp_commands, spec_replace_options,
    spec_settings,
};
use crate::lsp_catalog::{Recipe, RecipeV, recipes, recipes_view, spec_recipes};
use crate::text::{
    chars_eq, chars_of, count_leading_ws, count_trailing_ws, eq_str, find_ws, first_ws,
    is_prefix, is_white_space, is_whitespace, lemma_first_ws_bound, lemma_leading_ws_bound,
    lemma_trailing_ws_bound, leading_ws, slice_vec, starts_with, string_from, string_of,
    trailing_ws, trim, trim_end, trim_start,
};

verus! {

/// What choosing a suggestion does.
#[derive(Clone, Copy, Debug, PartialEq, Eq)]
pub enum SuggestionAction {
    /// Replace the input by `:name `.
    CompleteCommand(&'static str),
    /// Replace the input by this text.
    SetInput(&'static str),
    /// Add or remove this option.
    ToggleOption(&'static str),
    /// Format with the formatter at this index.
    FormatProvider(usize),
    /// Install or check the language server recipe at this index.
    LspRecipe { install: bool, index: usize },
    /// Review the file at this index.
    Review(usize),
    NoAction,
}

pub enum ActionV {
    CompleteCommand(Seq<char>),
    SetInput(Seq<char>),
    ToggleOption(Seq<char>),
    FormatProvider(nat),
    LspRecipe { install: bool, index: nat },
    Review(nat),
    NoAction,
}

impl View for SuggestionAction {
    type V = ActionV;

    open spec fn view(&self) -> ActionV {
        match *self {
            SuggestionAction::CompleteCommand(s) => ActionV::CompleteCommand(s@),
            SuggestionAction::SetInput(s) => ActionV::SetInput(s@),
            SuggestionAction::ToggleOption(s) => ActionV::ToggleOption(s@),
            SuggestionAction::FormatProvider(i) => ActionV::FormatProvider(i as nat),
            SuggestionAction::LspRecipe { install, index } => ActionV::LspRecipe {
                install,
                index: index as nat,
            },
            SuggestionAction::Review(i) => ActionV::Review(i as nat),
            SuggestionAction::NoAction => ActionV::NoAction,
        }
    }
}

/// One suggestion row.
#[derive(Clone, Debug, PartialEq, Eq)]
pub struct CommandSuggestion {
    pub label: String,
    pub description: String,
    pub active: bool,
    pub action: SuggestionAction,
}

pub struct SuggestionV {
    pub label: Seq<char>,
    pub description: Seq<char>,
    pub active: bool,
    pub action: ActionV,
}

impl View for CommandSuggestion {
    type V = SuggestionV;

    open spec fn view(&self) -> SuggestionV {
        SuggestionV {
            label: self.label@,
            description: self.description@,
            active: self.active,
            action: self.action@,
        }
    }
}

pub open spec fn opt_suggestion_view(s: Option<CommandSuggestion>) -> Option<SuggestionV> {
    match s {
        Some(v) => Some(v@),
        None => None,
    }
}

/// Index of the `n`-th entry at or after `i` whose name begins with `p`.
pub open spec fn nth_prefix(es: Seq<EntryV>, p: Seq<char>, n: int, i: int) -> Option<int>
    decreases es.len() - i,
{
    if i < 0 || i >= es.len() {
        None
    } else if is_prefix(p, es[i].name) {
        if n == 0 {
            Some(i)
        } else {
            nth_prefix(es, p, n - 1, i + 1)
        }
    } else {
        nth_prefix(es, p, n, i + 1)
    }
}

/// Index of the first entry at or after `i` named `name`.
pub open spec fn find_name(es: Seq<EntryV>, name: Seq<char>, i: int) -> Option<int>
    decreases es.len() - i,
{
    if i < 0 || i >= es.len() {
        None
    } else if es[i].name == name {
        Some(i)
    } else {
        find_name(es, name, i + 1)
    }
}

proof fn lemma_nth_prefix_bound(es: Seq<EntryV>, p: Seq<char>, n: int, i: int)
    requires
        n >= 0,
    ensures
        nth_prefix(es, p, n, i) matches Some(k) ==> 0 <= i + n <= k < es.len(),
    decreases es.len() - i,
{
    if 0 <= i < es.len() {
        if is_prefix(p, es[i].name) {
            if n != 0 {
                lemma_nth_prefix_bound(es, p, n - 1, i + 1);
            }
        } else {
            lemma_nth_prefix_bound(es, p, n, i + 1);
        }
    }
}

proof fn lemma_find_name_bound(es: Seq<EntryV>, name: Seq<char>, i: int)
    ensures
        find_name(es, name, i) matches Some(k) ==> 0 <= i <= k < es.len(),
    decreases es.len() - i,
{
    if 0 <= i < es.len() && es[i].name != name {
        lemma_find_name_bound(es, name, i + 1);
    }
}

fn nth_prefix_exec(es: &Vec<Entry>, p: &[char], n: usize) -> (r: Option<usize>)
    ensures
        r matches Some(k) ==> nth_prefix(entries_view(es@), p@, n as int, 0) == Some(k as int) && k < es.len(),
        r is None ==> nth_prefix(entries_view(es@), p@, n as int, 0) is None,
{
    let ghost ev = entries_view(es@);
    let mut remaining = n;
    let mut i: usize = 0;
    while i < es.len()
        invariant
            0 <= i <= es.len(),
            ev == entries_view(es@),
            remaining <= n,
            nth_prefix(ev, p@, n as int, 0) == nth_prefix(ev, p@, remaining as int, i as int),
        decreases es.len() - i,
    {
        let name = chars_of(es[i].name);
        assert(ev[i as int].name == es@[i as int].name@);
        if starts_with(name.as_slice(), p) {
            if remaining == 0 {
                return Some(i);
            }
            remaining = remaining - 1;
        }
        i = i + 1;
    }
    None
}

fn find_name_exec(es: &Vec<Entry>, name: &[char]) -> (r: Option<usize>)
    ensures
        r matches Some(k) ==> find_name(entries_view(es@), name@, 0) == Some(k as int) && k < es.len(),
        r is None ==> find_name(entries_view(es@), name@, 0) is None,
{
    let ghost ev = entries_view(es@);
    let mut i: usize = 0;
    while i < es.len()
        invariant
            0 <= i <= es.len(),
            ev == entries_view(es@),
            find_name(ev, name@, 0) == find_name(ev, name@, i as int),
        decreases es.len() - i,
    {
        let candidate = chars_of(es[i].name);
        assert(ev[i as int].name == es@[i as int].name@);
        if chars_eq(candidate.as_slice(), name) {
            return Some(i);
        }
        i = i + 1;
    }
    None
}

/// The input without its leading `:`, if it has one.
pub open spec fn strip_colon(s: Seq<char>) -> Seq<char> {
    if s.len() > 0 && s[0] == ':' {
        s.drop_first()
    } else {
        s
    }
}

/// The number of trailing non-whitespace characters of `s`.
pub open spec fn trailing_word(s: Seq<char>) -> nat
    decreases s.len(),
{
    if s.len() > 0 && !is_white_space(s.last()) {
        1 + trailing_word(s.drop_last())
    } else {
        0
    }
}

/// The last whitespace-separated word of `s`, when it begins with `--`;
/// otherwise nothing (the empty prefix).
pub open spec fn option_prefix(s: Seq<char>) -> Seq<char> {
    let t = trim_end(s);
    let w = t.skip(t.len() - trailing_word(t));
    if w.len() >= 2 && w[0] == '-' && w[1] == '-' {
        w
    } else {
        seq![]
    }
}

proof fn lemma_trailing_word_bound(s: Seq<char>)
    ensures
        trailing_word(s) <= s.len(),
    decreases s.len(),
{
    if s.len() > 0 && !is_white_space(s.last()) {
        lemma_trailing_word_bound(s.drop_last());
    }
}

/// Whether the word of `s` starting at `i` begins there.
pub open spec fn word_starts_at(s: Seq<char>, i: int) -> bool {
    0 <= i < s.len() && !is_white_space(s[i]) && (i == 0 || is_white_space(s[i - 1]))
}

/// The end of the word of `s` that starts at `i`.
pub open spec fn word_end(s: Seq<char>, i: int) -> int {
    i + first_ws(s.skip(i))
}

/// The first word of `s`, at or after `i`, that equals `token`, as a range.
pub open spec fn token_from(s: Seq<char>, token: Seq<char>, i: int) -> Option<(int, int)>
    decreases s.len() - i,
{
    if i < 0 || i >= s.len() {
        None
    } else if word_starts_at(s, i) && s.subrange(i, word_end(s, i)) == token {
        Some((i, word_end(s, i)))
    } else {
        token_from(s, token, i + 1)
    }
}

/// The first whitespace-separated word of `s` that equals `token`.
pub open spec fn token_span(s: Seq<char>, token: Seq<char>) -> Option<(int, int)> {
    token_from(s, token, 0)
}

pub open spec fn has_token(s: Seq<char>, token: Seq<char>) -> bool {
    token_span(s, token) is Some
}

pub proof fn lemma_token_from_bound(s: Seq<char>, token: Seq<char>, i: int)
    ensures
        token_from(s, token, i) matches Some((a, b)) ==> 0 <= i <= a < b <= s.len()
            && word_starts_at(s, a) && b == word_end(s, a) && s.subrange(a, b) == token,
    decreases s.len() - i,
{
    if 0 <= i < s.len() {
        if word_starts_at(s, i) && s.subrange(i, word_end(s, i)) == token {
            lemma_first_ws_bound(s.skip(i));
            assert(s.skip(i)[0] == s[i]);
        } else {
            lemma_token_from_bound(s, token, i + 1);
        }
    }
}

/// Finds `token` as a whole word of `s` (see `token_span`).
pub fn find_token_span(s: &[char], token: &[char]) -> (r: Option<(usize, usize)>)
    ensures
        match token_span(s@, token@) {
            Some((a, b)) => r == Some((a as usize, b as usize)),
            None => r is None,
        },
        r matches Some((a, b)) ==> a < b <= s.len(),
{
    let mut i: usize = 0;
    while i < s.len()
        invariant
            0 <= i <= s.len(),
            token_span(s@, token@) == token_from(s@, token@, i as int),
        decreases s.len() - i,
    {
        if !is_whitespace(s[i]) && (i == 0 || is_whitespace(s[i - 1])) {
            let len = find_ws(s, i);
            let word = slice_vec(s, i, i + len);
            if chars_eq(word.as_slice(), token) {
                proof {
                    lemma_token_from_bound(s@, token@, i as int);
                }
                return Some((i, i + len));
            }
        }
        i = i + 1;
    }
    None
}

/// Index of the `n`-th recipe whose id or one of whose aliases begins with `q`.
pub open spec fn recipe_matches(r: RecipeV, q: Seq<char>) -> bool {
    is_prefix(q, r.id) || exists|j: int| 0 <= j < r.aliases.len() && is_prefix(q, #[trigger] r.aliases[j])
}

pub open spec fn nth_recipe(rs: Seq<RecipeV>, q: Seq<char>, n: int, i: int) -> Option<int>
    decreases rs.len() - i,
{
    if i < 0 || i >= rs.len() {
        None
    } else if recipe_matches(rs[i], q) {
        if n == 0 {
            Some(i)
        } else {
            nth_recipe(rs, q, n - 1, i + 1)
        }
    } else {
        nth_recipe(rs, q, n, i + 1)
    }
}

proof fn lemma_nth_recipe_bound(rs: Seq<RecipeV>, q: Seq<char>, n: int, i: int)
    requires
        n >= 0,
    ensures
        nth_recipe(rs, q, n, i) matches Some(k) ==> 0 <= i + n <= k < rs.len(),
    decreases rs.len() - i,
{
    if 0 <= i < rs.len() {
        if recipe_matches(rs[i], q) {
            if n != 0 {
                lemma_nth_recipe_bound(rs, q, n - 1, i + 1);
            }
        } else {
            lemma_nth_recipe_bound(rs, q, n, i + 1);
        }
    }
}

fn recipe_matches_exec(r: &Recipe, q: &[char]) -> (b: bool)
    ensures
        b == recipe_matches(r@, q@),
{
    let id = chars_of(r.id);
    if starts_with(id.as_slice(), q) {
        return true;
    }
    let ghost aliases = r@.aliases;
    let mut j: usize = 0;
    while j < r.aliases.len()
        invariant
            0 <= j <= r.aliases.len(),
            aliases == r@.aliases,
            aliases.len() == r.aliases.len(),
            forall|k: int| 0 <= k < j ==> !is_prefix(q@, #[trigger] aliases[k]),
        decreases r.aliases.len() - j,
    {
        let alias = chars_of(r.aliases[j]);
        assert(aliases[j as int] == r.aliases@[j as int]@);
        if starts_with(alias.as_slice(), q) {
            return true;
        }
        j = j + 1;
    }
    false
}

fn nth_recipe_exec(rs: &Vec<Recipe>, q: &[char], n: usize) -> (r: Option<usize>)
    ensures
        r matches Some(k) ==> nth_recipe(recipes_view(rs@), q@, n as int, 0) == Some(k as int) && k < rs.len(),
        r is None ==> nth_recipe(recipes_view(rs@), q@, n as int, 0) is None,
{
    let ghost rv = recipes_view(rs@);
    let mut remaining = n;
    let mut i: usize = 0;
    while i < rs.len()
        invariant
            0 <= i <= rs.len(),
            rv == recipes_view(rs@),
            remaining <= n,
            nth_recipe(rv, q@, n as int, 0) == nth_recipe(rv, q@, remaining as int, i as int),
        decreases rs.len() - i,
    {
        if recipe_matches_exec(&rs[i], q) {
            if remaining == 0 {
                return Some(i);
            }
            remaining = remaining - 1;
        }
        i = i + 1;
    }
    None
}

/// ASCII letters folded to lower case (`str::to_ascii_lowercase`).
pub open spec fn ascii_lower(s: Seq<char>) -> Seq<char> {
    s.map_values(|c: char| if 'A' <= c <= 'Z' { ((c as u32) + 32) as char } else { c })
}

pub fn ascii_lower_exec(s: &[char]) -> (r: Vec<char>)
    ensures
        r@ == ascii_lower(s@),
{
    let mut r: Vec<char> = Vec::new();
    let mut i: usize = 0;
    while i < s.len()
        invariant
            0 <= i <= s.len(),
            r@ == ascii_lower(s@.take(i as int)),
        decreases s.len() - i,
    {
        let c = s[i];
        let lower = if 'A' <= c && c <= 'Z' { ((c as u32) + 32) as u8 as char } else { c };
        assert(lower == (if 'A' <= c <= 'Z' { ((c as u32) + 32) as char } else { c }));
        r.push(lower);
        i = i + 1;
        assert(r@ =~= ascii_lower(s@.take(i as int)));
    }
    assert(s@.take(i as int) =~= s@);
    r
}

pub open spec fn suggestion(label: Seq<char>, description: Seq<char>, active: bool, action: ActionV) -> SuggestionV {
    SuggestionV { label, description, active, action }
}

/// Recipe suggestions for `:lsp install` or `:lsp doctor` with a (lower-cased) query.
pub open spec fn recipe_suggestion(install: bool, query: Seq<char>, index: int) -> Option<SuggestionV> {
    match nth_recipe(spec_recipes(), query, index, 0) {
        Some(k) => Some(suggestion(spec_recipes()[k].id, spec_recipes()[k].title, false,
            ActionV::LspRecipe { install, index: k as nat })),
        None => None,
    }
}

/// Suggestions for an `:lsp` subcommand: completions while it is being typed,
/// its usage once it is followed by an argument.
pub open spec fn lsp_command_suggestion(sub: Seq<char>, typing: bool, index: int) -> Option<SuggestionV> {
    if typing {
        match nth_prefix(spec_lsp_commands(), "lsp "@ + sub, index, 0) {
            Some(k) => Some(suggestion(spec_lsp_commands()[k].name, spec_lsp_commands()[k].description, false,
                ActionV::CompleteCommand(spec_lsp_commands()[k].name))),
            None => None,
        }
    } else if index == 0 {
        match find_name(spec_lsp_commands(), "lsp "@ + sub, 0) {
            Some(k) => Some(suggestion(spec_lsp_commands()[k].extra, "Press Enter to run"@, false, ActionV::NoAction)),
            None => None,
        }
    } else {
        None
    }
}

/// Suggestions after `:lsp`.
pub open spec fn lsp_suggestion(tail0: Seq<char>, index: int) -> Option<SuggestionV> {
    let tail = trim_start(tail0);
    let end = first_ws(tail) as int;
    let sub = tail.take(end);
    if end < tail.len() && (sub == "install"@ || sub == "doctor"@) {
        let query = ascii_lower(trim(tail.skip(end)));
        if sub == "doctor"@ && query.len() == 0 {
            if index == 0 {
                Some(suggestion(":lsp doctor [server]"@, "Check this file, or type a server name"@, false, ActionV::NoAction))
            } else {
                None
            }
        } else {
            recipe_suggestion(sub == "install"@, query, index)
        }
    } else {
        lsp_command_suggestion(sub, end == tail.len(), index)
    }
}

/// The choices of a `:set` setting.
pub open spec fn setting_choices(name: Seq<char>) -> Option<Seq<EntryV>> {
    if name == "font-size"@ {
        Some(spec_font_size_choices())
    } else if name == "line-numbers"@ {
        Some(spec_line_number_choices())
    } else if name == "keybindings"@ {
        Some(spec_keybinding_choices())
    } else {
        None
    }
}

/// Suggestions for a `:set` setting name being typed.
pub open spec fn setting_name_suggestion(name: Seq<char>, index: int) -> Option<SuggestionV> {
    match nth_prefix(spec_settings(), name, index, 0) {
        Some(k) => Some(suggestion(spec_settings()[k].name, spec_settings()[k].description, false,
            ActionV::SetInput(spec_settings()[k].extra))),
        None => None,
    }
}

/// Suggestions for the value of setting `name`.
pub open spec fn setting_value_suggestion(name: Seq<char>, value: Seq<char>, index: int) -> Option<SuggestionV> {
    match setting_choices(name) {
        None => None,
        Some(choices) => match nth_prefix(choices, value, index, 0) {
            Some(k) => Some(suggestion(choices[k].name, choices[k].description, value == choices[k].name,
                ActionV::SetInput(choices[k].extra))),
            None => None,
        },
    }
}

/// Suggestions after `:set`, given the command body starting with `set`.
pub open spec fn setting_suggestion(body: Seq<char>, index: int) -> Option<SuggestionV> {
    let setting = trim_start(body.skip(3));
    let name_end = first_ws(setting) as int;
    let name = setting.take(name_end);
    if name_end == setting.len() {
        setting_name_suggestion(name, index)
    } else {
        setting_value_suggestion(name, trim_start(setting.skip(name_end)), index)
    }
}

/// The command an alias of `:save-as`, `:saveas` or `:save` completes as.
pub open spec fn canonical_command(command: Seq<char>) -> Seq<char> {
    if command == "save-as!"@ {
        "save-as"@
    } else if command == "sav"@ || command == "savea"@ || command == "sav!"@ || command == "savea!"@
        || command == "saveas!"@ {
        "saveas"@
    } else if command == "w"@ || command == "write"@ {
        "save"@
    } else {
        command
    }
}

pub open spec fn command_options(command: Seq<char>) -> Option<Seq<EntryV>> {
    if command == "find"@ {
        Some(spec_find_options())
    } else if command == "replace"@ {
        Some(spec_replace_options())
    } else if command == "goto"@ {
        Some(spec_goto_options())
    } else {
        None
    }
}

/// Completions of a command name being typed.
pub open spec fn command_name_suggestion(command: Seq<char>, index: int) -> Option<SuggestionV> {
    match nth_prefix(spec_commands(), command, index, 0) {
        Some(k) => Some(suggestion(spec_commands()[k].name, spec_commands()[k].description, false,
            ActionV::CompleteCommand(spec_commands()[k].name))),
        None => None,
    }
}

/// Suggestions once a command has arguments: its options, or its usage.
pub open spec fn argument_suggestion(input: Seq<char>, body: Seq<char>, command: Seq<char>, index: int) -> Option<SuggestionV> {
    match command_options(command) {
        None => if index == 0 {
            match find_name(spec_commands(), command, 0) {
                Some(k) => Some(suggestion(spec_commands()[k].extra, "Press Enter to run"@, false, ActionV::NoAction)),
                None => None,
            }
        } else {
            None
        },
        Some(options) => match nth_prefix(options, option_prefix(body), index, 0) {
            Some(k) => Some(suggestion(options[k].name, options[k].description,
                has_token(input, options[k].name), ActionV::ToggleOption(options[k].name))),
            None => None,
        },
    }
}

/// The `index`-th suggestion for command line `input`, whose body (after
/// the `:` and leading whitespace) is `body`.
pub open spec fn body_suggestion(input: Seq<char>, body: Seq<char>, index: int) -> Option<SuggestionV> {
    let first_end = first_ws(body) as int;
    let command = body.take(first_end);
    if first_end == body.len() {
        command_name_suggestion(command, index)
    } else if command == "lsp"@ {
        lsp_suggestion(body.skip(first_end), index)
    } else if command == "set"@ {
        setting_suggestion(body, index)
    } else {
        argument_suggestion(input, body, canonical_command(command), index)
    }
}

/// The `index`-th suggestion for command line `input`.
pub open spec fn input_suggestion(input: Seq<char>, index: int) -> Option<SuggestionV> {
    body_suggestion(input, trim_start(strip_colon(input)), index)
}

/// Beyond this many rows, the command line alone suggests nothing.
pub open spec fn input_suggestion_bound() -> int {
    64
}

proof fn lemma_table_lengths()
    ensures
        spec_commands().len() <= 64,
        spec_lsp_commands().len() <= 64,
        spec_settings().len() <= 64,
        spec_find_options().len() <= 64,
        spec_replace_options().len() <= 64,
        spec_goto_options().len() <= 64,
        spec_font_size_choices().len() <= 64,
        spec_line_number_choices().len() <= 64,
        spec_keybinding_choices().len() <= 64,
        spec_recipes().len() <= 64,
{
}

/// The command line suggests nothing past `input_suggestion_bound`.
pub proof fn lemma_input_suggestion_bound(input: Seq<char>, index: int)
    requires
        index >= input_suggestion_bound(),
    ensures
        input_suggestion(input, index) is None,
{
    lemma_table_lengths();
    let body = trim_start(strip_colon(input));
    let first_end = first_ws(body) as int;
    let command = body.take(first_end);
    lemma_nth_prefix_bound(spec_commands(), command, index, 0);
    let tail = trim_start(body.skip(first_end));
    let end = first_ws(tail) as int;
    let sub = tail.take(end);
    lemma_nth_recipe_bound(spec_recipes(), ascii_lower(trim(tail.skip(end))), index, 0);
    lemma_nth_prefix_bound(spec_lsp_commands(), "lsp "@ + sub, index, 0);
    let setting = trim_start(body.skip(3));
    let name_end = first_ws(setting) as int;
    let name = setting.take(name_end);
    lemma_nth_prefix_bound(spec_settings(), name, index, 0);
    let value = trim_start(setting.skip(name_end));
    lemma_nth_prefix_bound(spec_font_size_choices(), value, index, 0);
    lemma_nth_prefix_bound(spec_line_number_choices(), value, index, 0);
    lemma_nth_prefix_bound(spec_keybinding_choices(), value, index, 0);
    let canonical = canonical_command(command);
    lemma_nth_prefix_bound(spec_find_options(), option_prefix(body), index, 0);
    lemma_nth_prefix_bound(spec_replace_options(), option_prefix(body), index, 0);
    lemma_nth_prefix_bound(spec_goto_options(), option_prefix(body), index, 0);
}


/// What the actions of command-line suggestions hold: options start with
/// `-`, replacement lines start with `:`, recipe indices are in range.
pub open spec fn action_ok(a: ActionV) -> bool {
    match a {
        ActionV::ToggleOption(o) => o.len() > 0 && o[0] == '-',
        ActionV::SetInput(t) => t.len() > 0 && t[0] == ':',
        ActionV::LspRecipe { index, .. } => index < spec_recipes().len(),
        _ => true,
    }
}

proof fn lemma_table_texts()
    ensures
        forall|k: int| 0 <= k < spec_find_options().len() ==> action_ok(ActionV::ToggleOption(#[trigger] spec_find_options()[k].name)),
        forall|k: int| 0 <= k < spec_replace_options().len() ==> action_ok(ActionV::ToggleOption(#[trigger] spec_replace_options()[k].name)),
        forall|k: int| 0 <= k < spec_goto_options().len() ==> action_ok(ActionV::ToggleOption(#[trigger] spec_goto_options()[k].name)),
        forall|k: int| 0 <= k < spec_settings().len() ==> action_ok(ActionV::SetInput(#[trigger] spec_settings()[k].extra)),
        forall|k: int| 0 <= k < spec_font_size_choices().len() ==> action_ok(ActionV::SetInput(#[trigger] spec_font_size_choices()[k].extra)),
        forall|k: int| 0 <= k < spec_line_number_choices().len() ==> action_ok(ActionV::SetInput(#[trigger] spec_line_number_choices()[k].extra)),
        forall|k: int| 0 <= k < spec_keybinding_choices().len() ==> action_ok(ActionV::SetInput(#[trigger] spec_keybinding_choices()[k].extra)),
{
    reveal_strlit("--case-sensitive");
    reveal_strlit("--ignore-case");
    reveal_strlit("--regex");
    reveal_strlit("--backward");
    reveal_strlit("--all");
    reveal_strlit("--abs");
    reveal_strlit("--rel");
    reveal_strlit(":set font-size ");
    reveal_strlit(":set line-numbers ");
    reveal_strlit(":set keybindings ");
    reveal_strlit(":set font-size 12");
    reveal_strlit(":set font-size 14");
    reveal_strlit(":set font-size 16");
    reveal_strlit(":set font-size 18");
    reveal_strlit(":set font-size 20");
    reveal_strlit(":set font-size 24");
    reveal_strlit(":set font-size 32");
    reveal_strlit(":set line-numbers normal");
    reveal_strlit(":set line-numbers relative");
    reveal_strlit(":set line-numbers dynamic");
    reveal_strlit(":set keybindings conventional");
    reveal_strlit(":set keybindings vim");
}

/// Every suggestion the command line makes carries an action as `action_ok` says.
pub proof fn lemma_input_suggestion_actions(input: Seq<char>, index: int)
    requires
        index >= 0,
    ensures
        input_suggestion(input, index) matches Some(s) ==> action_ok(s.action),
        input_suggestion(input, index) matches Some(s) ==> (s.action is ToggleOption ==> input.len() > 0),
{
    lemma_table_texts();
    if input.len() == 0 {
        assert(strip_colon(input) =~= input);
        assert(trim_start(strip_colon(input)) =~= input);
    }
    let body = trim_start(strip_colon(input));
    let first_end = first_ws(body) as int;
    let command = body.take(first_end);
    let tail = trim_start(body.skip(first_end));
    let end = first_ws(tail) as int;
    lemma_nth_recipe_bound(spec_recipes(), ascii_lower(trim(tail.skip(end))), index, 0);
    let setting = trim_start(body.skip(3));
    let name_end = first_ws(setting) as int;
    let name = setting.take(name_end);
    lemma_nth_prefix_bound(spec_settings(), name, index, 0);
    let value = trim_start(setting.skip(name_end));
    lemma_nth_prefix_bound(spec_font_size_choices(), value, index, 0);
    lemma_nth_prefix_bound(spec_line_number_choices(), value, index, 0);
    lemma_nth_prefix_bound(spec_keybinding_choices(), value, index, 0);
    lemma_nth_prefix_bound(spec_find_options(), option_prefix(body), index, 0);
    lemma_nth_prefix_bound(spec_replace_options(), option_prefix(body), index, 0);
    lemma_nth_prefix_bound(spec_goto_options(), option_prefix(body), index, 0);
}

fn entry_suggestion(e: &Entry, active: bool, action: SuggestionAction) -> (r: CommandSuggestion)
    ensures
        r@ == suggestion(e.name@, e.description@, active, action@),
{
    CommandSuggestion {
        label: string_from(e.name),
        description: string_from(e.description),
        active,
        action,
    }
}

fn plain_suggestion(label: &str, description: &str) -> (r: CommandSuggestion)
    ensures
        r@ == suggestion(label@, description@, false, ActionV::NoAction),
{
    CommandSuggestion {
        label: string_from(label),
        description: string_from(description),
        active: false,
        action: SuggestionAction::NoAction,
    }
}

/// `s[from..]` with whitespace trimmed from both ends.
pub fn trimmed(s: &[char], from: usize) -> (r: Vec<char>)
    requires
        from <= s.len(),
    ensures
        r@ == trim(s@.skip(from as int)),
{
    let lead = count_leading_ws(s, from);
    let rest = slice_vec(s, from + lead, s.len());
    assert(rest@ =~= trim_start(s@.skip(from as int)));
    let tail = count_trailing_ws(rest.as_slice(), rest.len());
    assert(rest@.take(rest@.len() as int) =~= rest@);
    let r = slice_vec(rest.as_slice(), 0, rest.len() - tail);
    assert(r@ =~= trim_end(rest@));
    r
}

fn recipe_suggestion_exec(install: bool, query: &[char], index: usize) -> (r: Option<CommandSuggestion>)
    ensures
        opt_suggestion_view(r) == recipe_suggestion(install, query@, index as int),
{
    let rs = recipes();
    match nth_recipe_exec(&rs, query, index) {
        Some(k) => {
            assert(recipes_view(rs@)[k as int] == rs@[k as int]@);
            Some(CommandSuggestion {
                label: string_from(rs[k].id),
                description: string_from(rs[k].title),
                active: false,
                action: SuggestionAction::LspRecipe { install, index: k },
            })
        },
        None => None,
    }
}

fn lsp_command_suggestion_exec(sub: &[char], typing: bool, index: usize) -> (r: Option<CommandSuggestion>)
    ensures
        opt_suggestion_view(r) == lsp_command_suggestion(sub@, typing, index as int),
{
    let table = lsp_commands();
    let mut full = chars_of("lsp ");
    crate::text::extend_chars(&mut full, sub);
    if typing {
        match nth_prefix_exec(&table, full.as_slice(), index) {
            Some(k) => {
                assert(entries_view(table@)[k as int] == table@[k as int]@);
                Some(entry_suggestion(&table[k], false, SuggestionAction::CompleteCommand(table[k].name)))
            },
            None => None,
        }
    } else if index == 0 {
        match find_name_exec(&table, full.as_slice()) {
            Some(k) => {
                assert(entries_view(table@)[k as int] == table@[k as int]@);
                Some(CommandSuggestion {
                    label: string_from(table[k].extra),
                    description: string_from("Press Enter to run"),
                    active: false,
                    action: SuggestionAction::NoAction,
                })
            },
            None => None,
        }
    } else {
        None
    }
}

fn lsp_suggestion_exec(body: &[char], from: usize, index: usize) -> (r: Option<CommandSuggestion>)
    requires
        from <= body.len(),
    ensures
        opt_suggestion_view(r) == lsp_suggestion(body@.skip(from as int), index as int),
{
    let ghost tail0 = body@.skip(from as int);
    let lead = count_leading_ws(body, from);
    let ts = from + lead;
    let ghost tail = trim_start(tail0);
    assert(tail =~= body@.skip(ts as int));
    let end = find_ws(body, ts);
    let sub = slice_vec(body, ts, ts + end);
    assert(sub@ =~= tail.take(end as int));
    let install = eq_str(sub.as_slice(), "install");
    let doctor = eq_str(sub.as_slice(), "doctor");
    if ts + end < body.len() && (install || doctor) {
        let q = trimmed(body, ts + end);
        assert(body@.skip((ts + end) as int) =~= tail.skip(end as int));
        let query = ascii_lower_exec(q.as_slice());
        if doctor && query.len() == 0 {
            if index == 0 {
                return Some(plain_suggestion(":lsp doctor [server]", "Check this file, or type a server name"));
            }
            return None;
        }
        recipe_suggestion_exec(install, query.as_slice(), index)
    } else {
        lsp_command_suggestion_exec(sub.as_slice(), ts + end == body.len(), index)
    }
}

fn setting_choices_exec(name: &[char]) -> (r: Option<Vec<Entry>>)
    ensures
        match setting_choices(name@) {
            Some(c) => r is Some && entries_view(r->Some_0@) == c,
            None => r is None,
        },
{
    if eq_str(name, "font-size") {
        Some(font_size_choices())
    } else if eq_str(name, "line-numbers") {
        Some(line_number_choices())
    } else if eq_str(name, "keybindings") {
        Some(keybinding_choices())
    } else {
        None
    }
}

fn setting_name_suggestion_exec(name: &[char], index: usize) -> (r: Option<CommandSuggestion>)
    ensures
        opt_suggestion_view(r) == setting_name_suggestion(name@, index as int),
{
    let table = settings();
    match nth_prefix_exec(&table, name, index) {
        Some(k) => {
            assert(entries_view(table@)[k as int] == table@[k as int]@);
            let r = entry_suggestion(&table[k], false, SuggestionAction::SetInput(table[k].extra));
            Some(r)
        },
        None => None,
    }
}

fn setting_value_suggestion_exec(name: &[char], value: &[char], index: usize) -> (r: Option<CommandSuggestion>)
    ensures
        opt_suggestion_view(r) == setting_value_suggestion(name@, value@, index as int),
{
    match setting_choices_exec(name) {
        None => None,
        Some(choices) => match nth_prefix_exec(&choices, value, index) {
            Some(k) => {
                assert(entries_view(choices@)[k as int] == choices@[k as int]@);
                let label = chars_of(choices[k].name);
                let active = chars_eq(value, label.as_slice());
                Some(entry_suggestion(&choices[k], active, SuggestionAction::SetInput(choices[k].extra)))
            },
            None => None,
        },
    }
}

fn setting_suggestion_exec(body: &[char], index: usize) -> (r: Option<CommandSuggestion>)
    requires
        body.len() >= 3,
    ensures
        opt_suggestion_view(r) == setting_suggestion(body@, index as int),
{
    let lead = count_leading_ws(body, 3);
    let ss = 3 + lead;
    let ghost setting = trim_start(body@.skip(3));
    assert(setting =~= body@.skip(ss as int));
    let name_end = find_ws(body, ss);
    let name = slice_vec(body, ss, ss + name_end);
    assert(name@ =~= setting.take(name_end as int));
    if ss + name_end == body.len() {
        setting_name_suggestion_exec(name.as_slice(), index)
    } else {
        let vlead = count_leading_ws(body, ss + name_end);
        let value = slice_vec(body, ss + name_end + vlead, body.len());
        assert(body@.skip((ss + name_end) as int) =~= setting.skip(name_end as int));
        assert(value@ =~= trim_start(setting.skip(name_end as int)));
        setting_value_suggestion_exec(name.as_slice(), value.as_slice(), index)
    }
}

fn canonical_command_exec(command: &[char]) -> (r: Vec<char>)
    ensures
        r@ == canonical_command(command@),
{
    if eq_str(command, "save-as!") {
        chars_of("save-as")
    } else if eq_str(command, "sav") || eq_str(command, "savea") || eq_str(command, "sav!")
        || eq_str(command, "savea!") || eq_str(command, "saveas!") {
        chars_of("saveas")
    } else if eq_str(command, "w") || eq_str(command, "write") {
        chars_of("save")
    } else {
        slice_vec(command, 0, command.len())
    }
}

fn command_options_exec(command: &[char]) -> (r: Option<Vec<Entry>>)
    ensures
        match command_options(command@) {
            Some(c) => r is Some && entries_view(r->Some_0@) == c,
            None => r is None,
        },
{
    if eq_str(command, "find") {
        Some(find_options())
    } else if eq_str(command, "replace") {
        Some(replace_options())
    } else if eq_str(command, "goto") {
        Some(goto_options())
    } else {
        None
    }
}

/// Number of trailing non-whitespace characters of `t`.
fn count_trailing_word(t: &[char]) -> (n: usize)
    ensures
        n == trailing_word(t@),
        n <= t.len(),
{
    let mut w = t.len();
    assert(t@.take(w as int) =~= t@);
    while w > 0 && !is_whitespace(t[w - 1])
        invariant
            0 <= w <= t.len(),
            trailing_word(t@) == (t.len() - w) + trailing_word(t@.take(w as int)),
        decreases w,
    {
        assert(t@.take(w as int).drop_last() =~= t@.take(w - 1));
        assert(t@.take(w as int).last() == t@[w - 1]);
        w = w - 1;
    }
    proof {
        if w > 0 {
            assert(t@.take(w as int).last() == t@[w - 1]);
        } else {
            assert(t@.take(0) =~= Seq::<char>::empty());
        }
    }
    t.len() - w
}

fn option_prefix_exec(body: &[char]) -> (r: Vec<char>)
    ensures
        r@ == option_prefix(body@),
{
    let tail = count_trailing_ws(body, body.len());
    assert(body@.take(body@.len() as int) =~= body@);
    let t = slice_vec(body, 0, body.len() - tail);
    assert(t@ =~= trim_end(body@));
    let n = count_trailing_word(t.as_slice());
    let word = slice_vec(t.as_slice(), t.len() - n, t.len());
    assert(word@ =~= t@.skip(t@.len() - trailing_word(t@)));
    if word.len() >= 2 && word[0] == '-' && word[1] == '-' {
        word
    } else {
        Vec::new()
    }
}

fn command_name_suggestion_exec(command: &[char], index: usize) -> (r: Option<CommandSuggestion>)
    ensures
        opt_suggestion_view(r) == command_name_suggestion(command@, index as int),
{
    let table = commands();
    match nth_prefix_exec(&table, command, index) {
        Some(k) => {
            assert(entries_view(table@)[k as int] == table@[k as int]@);
            Some(entry_suggestion(&table[k], false, SuggestionAction::CompleteCommand(table[k].name)))
        },
        None => None,
    }
}

fn argument_suggestion_exec(input: &[char], body: &[char], command: &[char], index: usize) -> (r: Option<CommandSuggestion>)
    ensures
        opt_suggestion_view(r) == argument_suggestion(input@, body@, command@, index as int),
{
    match command_options_exec(command) {
        None => {
            if index != 0 {
                return None;
            }
            let table = commands();
            match find_name_exec(&table, command) {
                Some(k) => {
                    assert(entries_view(table@)[k as int] == table@[k as int]@);
                    Some(CommandSuggestion {
                        label: string_from(table[k].extra),
                        description: string_from("Press Enter to run"),
                        active: false,
                        action: SuggestionAction::NoAction,
                    })
                },
                None => None,
            }
        },
        Some(options) => {
            let prefix = option_prefix_exec(body);
            match nth_prefix_exec(&options, prefix.as_slice(), index) {
                Some(k) => {
                    assert(entries_view(options@)[k as int] == options@[k as int]@);
                    let name = chars_of(options[k].name);
                    let active = find_token_span(input, name.as_slice()).is_some();
                    Some(entry_suggestion(&options[k], active, SuggestionAction::ToggleOption(options[k].name)))
                },
                None => None,
            }
        },
    }
}

/// The `index`-th suggestion for the command line `input` (see `input_suggestion`).
pub fn input_suggestion_exec(input: &[char], index: usize) -> (r: Option<CommandSuggestion>)
    ensures
        opt_suggestion_view(r) == input_suggestion(input@, index as int),
{
    let start: usize = if input.len() > 0 && input[0] == ':' { 1 } else { 0 };
    assert(strip_colon(input@) =~= input@.skip(start as int));
    let lead = count_leading_ws(input, start);
    let body = slice_vec(input, start + lead, input.len());
    assert(body@ =~= trim_start(strip_colon(input@)));
    assert(body@.skip(0) =~= body@);
    let first_end = find_ws(body.as_slice(), 0);
    let command = slice_vec(body.as_slice(), 0, first_end);
    assert(command@ =~= body@.take(first_end as int));
    if first_end == body.len() {
        return command_name_suggestion_exec(command.as_slice(), index);
    }
    if eq_str(command.as_slice(), "lsp") {
        return lsp_suggestion_exec(body.as_slice(), first_end, index);
    }
    if eq_str(command.as_slice(), "set") {
        proof {
            assert(command@.len() == 3) by {
                reveal_strlit("set");
            }
        }
        return setting_suggestion_exec(body.as_slice(), index);
    }
    let canonical = canonical_command_exec(command.as_slice());
    argument_suggestion_exec(input, body.as_slice(), canonical.as_slice(), index)
}

proof fn lemma_nth_prefix_earlier(es: Seq<EntryV>, p: Seq<char>, n: int, i: int)
    requires
        n >= 0,
    ensures
        nth_prefix(es, p, n + 1, i) is Some ==> nth_prefix(es, p, n, i) is Some,
    decreases es.len() - i,
{
    if !(i < 0 || i >= es.len()) {
        if is_prefix(p, es[i].name) {
            if n > 0 {
                lemma_nth_prefix_earlier(es, p, n - 1, i + 1);
            }
        } else {
            lemma_nth_prefix_earlier(es, p, n, i + 1);
        }
    }
}

proof fn lemma_nth_recipe_earlier(rs: Seq<RecipeV>, q: Seq<char>, n: int, i: int)
    requires
        n >= 0,
    ensures
        nth_recipe(rs, q, n + 1, i) is Some ==> nth_recipe(rs, q, n, i) is Some,
    decreases rs.len() - i,
{
    if !(i < 0 || i >= rs.len()) {
        if recipe_matches(rs[i], q) {
            if n > 0 {
                lemma_nth_recipe_earlier(rs, q, n - 1, i + 1);
            }
        } else {
            lemma_nth_recipe_earlier(rs, q, n, i + 1);
        }
    }
}

/// The command line's rows have no gaps: where row `n + 1` exists, row `n`
/// does too.
pub proof fn lemma_input_suggestion_earlier(input: Seq<char>, n: int)
    requires
        n >= 0,
        input_suggestion(input, n + 1) is Some,
    ensures
        input_suggestion(input, n) is Some,
{
    let body = trim_start(strip_colon(input));
    let first_end = first_ws(body) as int;
    let command = body.take(first_end);
    lemma_nth_prefix_earlier(spec_commands(), command, n, 0);
    let tail = trim_start(body.skip(first_end));
    let end = first_ws(tail) as int;
    let sub = tail.take(end);
    lemma_nth_recipe_earlier(spec_recipes(), ascii_lower(trim(tail.skip(end))), n, 0);
    lemma_nth_prefix_earlier(spec_lsp_commands(), "lsp "@ + sub, n, 0);
    let setting = trim_start(body.skip(3));
    let name_end = first_ws(setting) as int;
    let name = setting.take(name_end);
    lemma_nth_prefix_earlier(spec_settings(), name, n, 0);
    let value = trim_start(setting.skip(name_end));
    match setting_choices(name) {
        Some(choices) => lemma_nth_prefix_earlier(choices, value, n, 0),
        None => {},
    }
    match command_options(canonical_command(command)) {
        Some(options) => lemma_nth_prefix_earlier(options, option_prefix(body), n, 0),
        None => {},
    }
}

} // verus!
