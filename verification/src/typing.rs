//! Where typed text goes: the terminal, the command bar or the document.
use vstd::prelude::*;
use crate::text::{chars_of, eq_str};

verus! {

/// Where a piece of typed text goes.
#[derive(Clone, Copy, Debug, PartialEq, Eq, Structural)]
pub enum TextRoute {
    /// Nowhere: its key was handled already, or nothing takes text now.
    Ignore,
    /// Into the terminal's command line.
    Terminal,
    /// Into the command bar.
    Bar,
    /// A second `:` typed on an empty command line: the bar closes and the
    /// document gets the `:`.
    ColonIntoDocument,
    /// A `:` typed on an empty line opens the command bar.
    OpenBar,
    /// Into the document.
    Document,
}

/// What decides where text goes, besides the text itself.
#[derive(Clone, Copy, Debug, PartialEq, Eq, Structural)]
pub struct TextContext {
    /// The text belongs to a key that a pane shortcut or Emacs handled.
    pub consumed: bool,
    pub terminal_focused: bool,
    /// The terminal's output, not its command line, has the focus.
    pub terminal_output_focused: bool,
    pub vim: bool,
    /// Vim swallows the text of the key it just handled.
    pub vim_suppressed: bool,
    pub vim_insert: bool,
    pub emacs: bool,
    pub bar_active: bool,
    /// The document has one cursor.
    pub single_cursor: bool,
    /// The cursor's line is empty.
    pub empty_line: bool,
}

/// Where `text` goes, given the command line `bar_input`.
pub open spec fn route(cx: TextContext, bar_input: Seq<char>, text: Seq<char>) -> TextRoute {
    if cx.consumed {
        TextRoute::Ignore
    } else if cx.terminal_focused {
        if cx.terminal_output_focused { TextRoute::Ignore } else { TextRoute::Terminal }
    } else if cx.vim && cx.vim_suppressed {
        TextRoute::Ignore
    } else if cx.bar_active {
        if text.len() == 0 {
            TextRoute::Ignore
        } else if !cx.emacs && bar_input == ":"@ && text == ":"@ {
            TextRoute::ColonIntoDocument
        } else {
            TextRoute::Bar
        }
    } else if cx.vim && !cx.vim_insert {
        TextRoute::Ignore
    } else if !cx.vim && !cx.emacs && text == ":"@ && cx.single_cursor && cx.empty_line {
        TextRoute::OpenBar
    } else if text.len() == 0 {
        TextRoute::Ignore
    } else {
        TextRoute::Document
    }
}

fn is_colon(s: &str) -> (r: bool)
    ensures
        r == (s@ == ":"@),
{
    let c = chars_of(s);
    proof {
        reveal_strlit(":");
    }
    let r = eq_str(c.as_slice(), ":");
    r
}

/// Where `text` goes (see `route`).
pub fn text_route(cx: TextContext, bar_input: &str, text: &str) -> (r: TextRoute)
    ensures
        r == route(cx, bar_input@, text@),
{
    if cx.consumed {
        return TextRoute::Ignore;
    }
    if cx.terminal_focused {
        return if cx.terminal_output_focused { TextRoute::Ignore } else { TextRoute::Terminal };
    }
    if cx.vim && cx.vim_suppressed {
        return TextRoute::Ignore;
    }
    let empty = chars_of(text).len() == 0;
    if cx.bar_active {
        if empty {
            return TextRoute::Ignore;
        }
        if !cx.emacs && is_colon(bar_input) && is_colon(text) {
            return TextRoute::ColonIntoDocument;
        }
        return TextRoute::Bar;
    }
    if cx.vim && !cx.vim_insert {
        return TextRoute::Ignore;
    }
    if !cx.vim && !cx.emacs && is_colon(text) && cx.single_cursor && cx.empty_line {
        return TextRoute::OpenBar;
    }
    if empty {
        TextRoute::Ignore
    } else {
        TextRoute::Document
    }
}

} // verus!
