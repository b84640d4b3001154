//! Search settings, the search panel's keys, replacing the current match,
//! and the command text that reproduces a search.
use vstd::prelude::*;
use vstd::utf8::encode_utf8;
use crate::command_bar::words::{quote_argument, spec_quote_argument};
use crate::command_bar::ParsedCommand;
use crate::document::next_boundary;
use crate::editor::{replacement_fits, Editor};
use crate::keys::{
    alt_pressed, ctrl_pressed, has_alt, has_ctrl, has_shift, shift_pressed, KEY_BACKSPACE, KEY_DELETE, KEY_END,
    KEY_ESCAPE, KEY_HOME, KEY_KP_ENTER, KEY_LEFT, KEY_RETURN, KEY_RIGHT, KEY_TAB,
};
use crate::text::{chars_of, extend_chars, push_str, string_from, string_of};

verus! {

/// How a query is matched.
#[derive(Clone, Copy, Debug, PartialEq, Eq, Structural)]
pub enum SearchMode {
    CaseSensitive,
    CaseInsensitive,
    Regex,
}

/// A match, or any byte range of the document: `[start, end)`.
#[derive(Clone, Copy, Debug, PartialEq, Eq, Structural)]
pub struct SearchResult {
    pub start: usize,
    pub end: usize,
}

/// What the search panel reports a key did.
#[derive(Clone, Copy, Debug, PartialEq, Eq, Structural)]
pub enum SearchKeyResult {
    Consumed,
    Closed,
    Ignored,
    ReplaceCurrent,
    ReplaceAll,
}

/// What a key asks of the search panel.
#[derive(Clone, Copy, Debug, PartialEq, Eq, Structural)]
pub enum SearchKeyAction {
    /// Nothing more to do; the key is used.
    Consumed,
    ReplaceCurrent,
    ReplaceAll,
    /// Switch to the next (or previous) search mode.
    CycleMode(bool),
    /// Move focus to the next (or previous) field.
    FocusNextField(bool),
    Close,
    /// Find the previous match and put the cursor there.
    Previous,
    /// Find the next match and put the cursor there.
    Next,
    Backspace,
    Delete,
    Left,
    Right,
    Home,
    End,
    /// Not a search key.
    Ignored,
}

pub const KEY_F: u32 = 0x66;
pub const KEY_H: u32 = 0x68;
pub const KEY_R: u32 = 0x72;
pub const KEY_A: u32 = 0x61;
pub const KEY_M: u32 = 0x6d;

/// What `key` with modifiers `mods` does in the search panel; `repeat` is
/// the key-repeat flag, `replace_mode` whether the panel also replaces.
pub open spec fn search_key(key: u32, mods: u16, repeat: bool, replace_mode: bool) -> SearchKeyAction {
    let enter = key == KEY_RETURN || key == KEY_KP_ENTER;
    if (key == KEY_F || key == KEY_H) && has_ctrl(mods) {
        SearchKeyAction::Consumed
    } else if replace_mode && !repeat && ((key == KEY_R && has_alt(mods)) || (enter && has_ctrl(mods) && !has_shift(mods))) {
        SearchKeyAction::ReplaceCurrent
    } else if replace_mode && !repeat && ((key == KEY_A && has_alt(mods)) || (enter && has_ctrl(mods) && has_shift(mods))) {
        SearchKeyAction::ReplaceAll
    } else if replace_mode && !repeat && key == KEY_M && has_alt(mods) {
        SearchKeyAction::CycleMode(has_shift(mods))
    } else if key == KEY_ESCAPE {
        SearchKeyAction::Close
    } else if key == KEY_TAB {
        if repeat {
            SearchKeyAction::Consumed
        } else if replace_mode {
            SearchKeyAction::FocusNextField(has_shift(mods))
        } else {
            SearchKeyAction::CycleMode(has_shift(mods))
        }
    } else if enter {
        if has_shift(mods) {
            SearchKeyAction::Previous
        } else {
            SearchKeyAction::Next
        }
    } else if key == KEY_BACKSPACE {
        SearchKeyAction::Backspace
    } else if key == KEY_DELETE {
        SearchKeyAction::Delete
    } else if key == KEY_LEFT {
        SearchKeyAction::Left
    } else if key == KEY_RIGHT {
        SearchKeyAction::Right
    } else if key == KEY_HOME {
        SearchKeyAction::Home
    } else if key == KEY_END {
        SearchKeyAction::End
    } else {
        SearchKeyAction::Ignored
    }
}

/// What a key does in the search panel (see `search_key`).
pub fn search_key_action(key: u32, mods: u16, repeat: bool, replace_mode: bool) -> (r: SearchKeyAction)
    ensures
        r == search_key(key, mods, repeat, replace_mode),
{
    let ctrl = ctrl_pressed(mods);
    let alt = alt_pressed(mods);
    let shift = shift_pressed(mods);
    let enter = key == KEY_RETURN || key == KEY_KP_ENTER;
    if (key == KEY_F || key == KEY_H) && ctrl {
        return SearchKeyAction::Consumed;
    }
    if replace_mode && !repeat {
        if (key == KEY_R && alt) || (enter && ctrl && !shift) {
            return SearchKeyAction::ReplaceCurrent;
        }
        if (key == KEY_A && alt) || (enter && ctrl && shift) {
            return SearchKeyAction::ReplaceAll;
        }
        if key == KEY_M && alt {
            return SearchKeyAction::CycleMode(shift);
        }
    }
    if key == KEY_ESCAPE {
        SearchKeyAction::Close
    } else if key == KEY_TAB {
        if repeat {
            SearchKeyAction::Consumed
        } else if replace_mode {
            SearchKeyAction::FocusNextField(shift)
        } else {
            SearchKeyAction::CycleMode(shift)
        }
    } else if enter {
        if shift {
            SearchKeyAction::Previous
        } else {
            SearchKeyAction::Next
        }
    } else if key == KEY_BACKSPACE {
        SearchKeyAction::Backspace
    } else if key == KEY_DELETE {
        SearchKeyAction::Delete
    } else if key == KEY_LEFT {
        SearchKeyAction::Left
    } else if key == KEY_RIGHT {
        SearchKeyAction::Right
    } else if key == KEY_HOME {
        SearchKeyAction::Home
    } else if key == KEY_END {
        SearchKeyAction::End
    } else {
        SearchKeyAction::Ignored
    }
}

/// Whether a replacement key found no current match, so the cursor must be
/// refreshed from the document instead.
pub fn replacement_requires_cursor_refresh(result: SearchKeyResult, has_current_match: bool) -> (r: bool)
    ensures
        r == (!has_current_match && (result == SearchKeyResult::ReplaceCurrent || result == SearchKeyResult::ReplaceAll)),
{
    !has_current_match && match result {
        SearchKeyResult::ReplaceCurrent | SearchKeyResult::ReplaceAll => true,
        _ => false,
    }
}

/// The option that reproduces a search mode on the command line.
pub open spec fn mode_option(mode: SearchMode) -> Seq<char> {
    match mode {
        SearchMode::CaseSensitive => ""@,
        SearchMode::CaseInsensitive => " --ignore-case"@,
        SearchMode::Regex => " --regex"@,
    }
}

/// The option that reproduces a search mode (see `mode_option`).
pub fn search_mode_option(mode: SearchMode) -> (r: &'static str)
    ensures
        r@ == mode_option(mode),
{
    match mode {
        SearchMode::CaseSensitive => "",
        SearchMode::CaseInsensitive => " --ignore-case",
        SearchMode::Regex => " --regex",
    }
}

/// The `:find` command for a search: the bare command while the query is
/// empty.
pub fn find_command_text(query: &str, mode: SearchMode) -> (r: String)
    ensures
        r@ == if query@.len() == 0 {
            ":find "@
        } else {
            ":find "@ + spec_quote_argument(query@) + mode_option(mode)
        },
{
    let q = chars_of(query);
    if q.len() == 0 {
        return string_from(":find ");
    }
    let mut m = chars_of(":find ");
    let quoted = quote_argument(query);
    extend_chars(&mut m, chars_of(quoted.as_str()).as_slice());
    push_str(&mut m, search_mode_option(mode));
    string_of(m.as_slice())
}

/// The `:replace` command for a search and its replacement.
pub fn replace_command_text(query: &str, replacement: &str, mode: SearchMode) -> (r: String)
    ensures
        r@ == ":replace "@ + spec_quote_argument(query@) + " "@ + spec_quote_argument(replacement@) + mode_option(mode),
{
    let mut m = chars_of(":replace ");
    let quoted = quote_argument(query);
    extend_chars(&mut m, chars_of(quoted.as_str()).as_slice());
    push_str(&mut m, " ");
    let with = quote_argument(replacement);
    extend_chars(&mut m, chars_of(with.as_str()).as_slice());
    push_str(&mut m, search_mode_option(mode));
    string_of(m.as_slice())
}

/// Where searching resumes after replacing `current` by `length` bytes in
/// text `t`: after the replacement, or, for an empty match, one character
/// further than the match reached, so that an empty match is not found
/// again in the same place.
pub open spec fn resume_after(t: Seq<u8>, current: SearchResult, length: nat) -> Option<int> {
    if current.start == current.end {
        if current.end < t.len() {
            Some(next_boundary(t, current.end as int) + length)
        } else {
            None
        }
    } else {
        Some(current.start + length)
    }
}

/// Replaces the current match. Returns how many matches were replaced (one
/// when the text changed, else none) and where the search resumes (see
/// `resume_after`, measured in the text before the replacement).
pub fn replace_current_match(editor: &mut Editor, current: SearchResult, replacement: &str) -> (r: Result<(usize, Option<usize>), String>)
    requires
        old(editor).wf(),
    ensures
        final(editor).wf(),
        ({
            let t = old(editor).document@.text;
            let rb = encode_utf8(replacement@);
            let resume = resume_after(t, current, rb.len());
            &&& (r matches Ok((count, at)) ==> {
                &&& count == if final(editor).document@.text != t { 1usize } else { 0usize }
                &&& match resume {
                    Some(p) => at == Some(p as usize),
                    None => at is None,
                }
            })
            &&& (!old(editor).read_only && replacement_fits(t, current.start as int, current.end as int, rb)
                && (resume matches Some(p) ==> p <= usize::MAX) ==> r is Ok
                && final(editor).document@.text == crate::editor::replaced(t, current.start as int, current.end as int, rb))
            &&& (old(editor).read_only ==> final(editor).document@ == old(editor).document@)
        }),
{
    let ghost t = editor.document@.text;
    let length = editor.document.len();
    let original_resume: Option<usize> = if current.start == current.end {
        if current.end < length {
            Some(editor.document.next_char_boundary(current.end))
        } else {
            None
        }
    } else {
        Some(current.end)
    };
    let changed = match editor.replace_range(current, replacement) {
        Ok(c) => c,
        Err(e) => {
            return Err(e);
        },
    };
    let added = replacement.as_bytes().len();
    let resume: Option<usize> = if current.start == current.end {
        match original_resume {
            Some(position) => {
                if added > usize::MAX - position {
                    return Err(string_from("replacement search position overflow"));
                }
                Some(position + added)
            },
            None => None,
        }
    } else {
        if added > usize::MAX - current.start {
            return Err(string_from("replacement search position overflow"));
        }
        Some(current.start + added)
    };
    Ok((if changed { 1 } else { 0 }, resume))
}

/// What the search panel does while a `:find` or `:replace` command is
/// typed: follow it, or close.
#[derive(Clone, Debug, PartialEq, Eq)]
pub enum SearchSync {
    /// Search for `query` from `origin` (backwards when asked).
    Find { query: String, mode: SearchMode, origin: usize, backward: bool },
    /// Search for `query`, to be replaced by `replacement`.
    Replace { query: String, replacement: String, mode: SearchMode },
    Close,
}

/// How the search panel follows the command being typed: a find starts
/// from `origin`, or from the cursor when there is none; anything else
/// closes the panel.
pub fn sync_command_search(parsed: &Result<ParsedCommand, String>, origin: Option<usize>, cursor: usize) -> (r: SearchSync)
    ensures
        match parsed {
            Ok(ParsedCommand::Find { query, mode, backward }) => r matches SearchSync::Find { query: q, mode: m, origin: o, backward: b }
                && q@ == query@ && m == mode && b == backward && o == match origin {
                    Some(v) => v,
                    None => cursor,
                },
            Ok(ParsedCommand::Replace { query, replacement, mode, .. }) => r matches SearchSync::Replace { query: q, replacement: w, mode: m }
                && q@ == query@ && w@ == replacement@ && m == mode,
            _ => r is Close,
        },
{
    match parsed {
        Ok(ParsedCommand::Find { query, mode, backward }) => SearchSync::Find {
            query: string_of(chars_of(query.as_str()).as_slice()),
            mode: *mode,
            origin: match origin {
                Some(v) => v,
                None => cursor,
            },
            backward: *backward,
        },
        Ok(ParsedCommand::Replace { query, replacement, mode, .. }) => SearchSync::Replace {
            query: string_of(chars_of(query.as_str()).as_slice()),
            replacement: string_of(chars_of(replacement.as_str()).as_slice()),
            mode: *mode,
        },
        _ => SearchSync::Close,
    }
}

} // verus!
