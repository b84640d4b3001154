//! What the window does for an Emacs key: the user-interface request of a
//! key in the document (`ui_action`), and the Emacs keys of the command bar
//! (`bar_key`). The window carries out the returned action.
use vstd::prelude::*;
use crate::command_bar::bar::{
    after_edit, moved_selection, next_epoch, BarV, CommandBar,
};
use crate::command_bar::parse::{Command, ParsedCommand, spec_parse_command};
use crate::emacs::controller::{letter_key, Controller, Ui, UiV};
use crate::keys::{ctrl_pressed, has_ctrl, KEY_ESCAPE, KEY_KP_ENTER, KEY_RETURN};
use crate::text::{eq_str, chars_of, string_from};

verus! {

/// The Emacs help that `C-h` shows.
pub const HELP: &'static str = "Emacs keys · C = Ctrl; M = Alt (or Escape, then key)\n\
C-f/b/n/p: move; M-f/b: words; C-a/e: line edges; M-</>: document edges\n\
C-v / M-v: page down/up; C-Space: set mark; C-x C-x: exchange point and mark\n\
C-w: kill region; M-w: copy region; C-k: kill line; M-d / M-Backspace: kill word\n\
C-y: yank; M-y: cycle kills; C-/ or C-_: undo; C-Shift-/: redo\n\
C-u: argument ×4; M-digits: repeat count (up to 1000); C-g: cancel\n\
C-s/r: search forward/backward; Enter accepts search; C-g restores its start\n\
C-x C-f: open; C-x C-s: save; C-x C-w: Save As; C-x C-c: quit if saved\n\
C-x 2/3: show the two panes; C-x o: switch pane; C-x 1: show only this pane\n\
C-x h: select document; C-x u: undo; C-o: open line; M-x: Potyi commands\n\
Backspace/C-d: delete backward/forward; C-j or C-m: newline; C-h: this help\n\
Kill ring: at most 32 entries / 256 KiB. Larger kills use the system clipboard.";

/// What the window does after a key in the document asked something of it.
pub enum EmacsAction {
    /// Nothing beyond redrawing.
    Nothing,
    /// Close the search.
    CloseSearch,
    /// Open the command bar on this command line.
    Open(String),
    /// Open the command bar on this command line and run it.
    Run(String),
    /// Open the command bar on `:quit` and show this message instead of
    /// quitting.
    RefuseQuit(String),
    /// Open the command bar on this search line, the cursor at this byte.
    Search(String, usize),
    /// Undo (or redo, when true) this many steps.
    History(bool, usize),
    /// Show the Emacs help.
    Help,
    /// Focus the other pane.
    FocusOther,
    /// Split the window (true) or keep one pane.
    SetSplit(bool),
}

pub enum EmacsActionV {
    Nothing,
    CloseSearch,
    Open(Seq<char>),
    Run(Seq<char>),
    RefuseQuit(Seq<char>),
    Search(Seq<char>, nat),
    History(bool, nat),
    Help,
    FocusOther,
    SetSplit(bool),
}

impl View for EmacsAction {
    type V = EmacsActionV;

    open spec fn view(&self) -> EmacsActionV {
        match self {
            EmacsAction::Nothing => EmacsActionV::Nothing,
            EmacsAction::CloseSearch => EmacsActionV::CloseSearch,
            EmacsAction::Open(t) => EmacsActionV::Open(t@),
            EmacsAction::Run(t) => EmacsActionV::Run(t@),
            EmacsAction::RefuseQuit(m) => EmacsActionV::RefuseQuit(m@),
            EmacsAction::Search(t, c) => EmacsActionV::Search(t@, *c as nat),
            EmacsAction::History(redo, n) => EmacsActionV::History(*redo, *n as nat),
            EmacsAction::Help => EmacsActionV::Help,
            EmacsAction::FocusOther => EmacsActionV::FocusOther,
            EmacsAction::SetSplit(b) => EmacsActionV::SetSplit(*b),
        }
    }
}

/// The message shown in place of quitting with unsaved documents.
pub open spec fn quit_refused_message() -> Seq<char> {
    "Save modified documents before quitting with Ctrl+X Ctrl+C."@
}

/// The command line a search starts from.
pub open spec fn search_line(backward: bool) -> Seq<char> {
    if backward {
        ":find  --backward"@
    } else {
        ":find "@
    }
}

/// What the window does for a key's request `ui`: `:quit` from `C-x C-c`
/// is refused while either document is modified; `C-x o` focuses the other
/// pane only when the window is split; a search starts with the cursor
/// after `:find `.
pub open spec fn ui_action_of(ui: UiV, dirty: bool, other_dirty: bool, split: bool) -> EmacsActionV {
    match ui {
        UiV::Nothing => EmacsActionV::Nothing,
        UiV::Cancel => EmacsActionV::CloseSearch,
        UiV::Command(text, run) => if text == ":quit"@ && (dirty || other_dirty) {
            EmacsActionV::RefuseQuit(quit_refused_message())
        } else if run {
            EmacsActionV::Run(text)
        } else {
            EmacsActionV::Open(text)
        },
        UiV::Search(backward) => EmacsActionV::Search(search_line(backward), 6),
        UiV::History(redo, n) => EmacsActionV::History(redo, n),
        UiV::Help => EmacsActionV::Help,
        UiV::OtherPane => if split {
            EmacsActionV::FocusOther
        } else {
            EmacsActionV::Nothing
        },
        UiV::Split => EmacsActionV::SetSplit(true),
        UiV::OnlyPane => EmacsActionV::SetSplit(false),
    }
}

/// Where the incremental search started after `ui`: a search starts at the
/// cursor, a command or a cancel ends it.
pub open spec fn origin_after_ui(ui: UiV, origin: Option<usize>, cursor: usize) -> Option<usize> {
    match ui {
        UiV::Cancel => None,
        UiV::Command(..) => None,
        UiV::Search(_) => Some(cursor),
        _ => origin,
    }
}

/// What an Emacs key in the command bar asks of the window.
pub enum BarKeyAction {
    /// Not an Emacs key of the bar.
    NotHandled,
    /// The bar closed; the document's cursor goes back here (to where the
    /// search started), and the Emacs state and the search are reset.
    Cancel(Option<usize>),
    /// The search ended where it is: the bar closed.
    EndSearch,
    /// Step to the next match (or the previous, when true).
    SearchStep(bool),
    /// The command line was edited in place.
    Edited,
    /// Hand this text (the line after the cursor) to the clipboard, then
    /// delete it from the bar (`CommandBar::delete_to_end`).
    Kill(String),
    /// Type the clipboard's text into the bar.
    Yank,
}

pub enum BarKeyActionV {
    NotHandled,
    Cancel(Option<usize>),
    EndSearch,
    SearchStep(bool),
    Edited,
    Kill(Seq<char>),
    Yank,
}

impl View for BarKeyAction {
    type V = BarKeyActionV;

    open spec fn view(&self) -> BarKeyActionV {
        match self {
            BarKeyAction::NotHandled => BarKeyActionV::NotHandled,
            BarKeyAction::Cancel(t) => BarKeyActionV::Cancel(*t),
            BarKeyAction::EndSearch => BarKeyActionV::EndSearch,
            BarKeyAction::SearchStep(b) => BarKeyActionV::SearchStep(*b),
            BarKeyAction::Edited => BarKeyActionV::Edited,
            BarKeyAction::Kill(t) => BarKeyActionV::Kill(t@),
            BarKeyAction::Yank => BarKeyActionV::Yank,
        }
    }
}

/// The bar after `close`.
pub open spec fn bar_closed(b: BarV) -> BarV {
    BarV {
        active: false,
        formatters: seq![],
        status: None,
        info: seq![],
        reviews: seq![],
        epoch: next_epoch(b.epoch),
        ..b
    }
}

/// The bar after `move_home`.
pub open spec fn bar_home(b: BarV) -> BarV {
    if b.active {
        BarV { cursor: if b.input.len() < 1 { b.input.len() } else { 1 }, ..b }
    } else {
        b
    }
}

/// The bar after `move_end`.
pub open spec fn bar_end(b: BarV) -> BarV {
    if b.active {
        BarV { cursor: b.input.len(), ..b }
    } else {
        b
    }
}

/// The bar after `move_left`.
pub open spec fn bar_left(b: BarV) -> BarV {
    if b.active && b.cursor > 1 {
        BarV { cursor: (b.cursor - 1) as nat, ..b }
    } else {
        b
    }
}

/// The bar after `move_right`.
pub open spec fn bar_right(b: BarV) -> BarV {
    if b.active && b.cursor < b.input.len() {
        BarV { cursor: b.cursor + 1, ..b }
    } else {
        b
    }
}

/// The bar after `backspace`.
pub open spec fn bar_backspace(b: BarV) -> BarV {
    if !b.active || b.cursor <= 1 {
        b
    } else {
        after_edit(b, b.input.remove(b.cursor - 1), (b.cursor - 1) as nat)
    }
}

/// The bar after `delete`.
pub open spec fn bar_delete(b: BarV) -> BarV {
    if !b.active || b.cursor >= b.input.len() {
        b
    } else {
        after_edit(b, b.input.remove(b.cursor as int), b.cursor)
    }
}

/// Whether an incremental search runs: it started, and the command line
/// is a `:find`.
pub open spec fn searching(b: BarV, origin: Option<usize>) -> bool {
    origin is Some && spec_parse_command(b.input) matches Ok(Command::Find { .. })
}

/// An Emacs key in the command bar: the bar after it, where the search
/// started after it, and what the window does. `C-g` or Escape closes the
/// bar and returns to where a search started (within the document's
/// `doc_len` bytes); during a search Enter ends it and `C-s`/`C-r` step
/// through matches; `C-a e b f h d` move and delete as Home, End, Left,
/// Right, Backspace and Delete, `C-n`/`C-p` move the selection, `C-k` kills
/// the rest of the line to the clipboard and `C-y` yanks it.
pub open spec fn bar_key_step(b: BarV, origin: Option<usize>, key: u32, mods: u16, doc_len: usize) -> (
    BarV,
    Option<usize>,
    BarKeyActionV,
) {
    let control = has_ctrl(mods);
    if (control && key == letter_key('g')) || key == KEY_ESCAPE {
        let target = match origin {
            Some(o) => Some(if o < doc_len { o } else { doc_len }),
            None => None,
        };
        (bar_closed(b), None, BarKeyActionV::Cancel(target))
    } else if searching(b, origin) && (key == KEY_RETURN || key == KEY_KP_ENTER) {
        (bar_closed(b), None, BarKeyActionV::EndSearch)
    } else if searching(b, origin) && control && (key == letter_key('s') || key == letter_key('r')) {
        (b, origin, BarKeyActionV::SearchStep(key == letter_key('r')))
    } else if control && key == letter_key('a') {
        (bar_home(b), origin, BarKeyActionV::Edited)
    } else if control && key == letter_key('e') {
        (bar_end(b), origin, BarKeyActionV::Edited)
    } else if control && key == letter_key('b') {
        (bar_left(b), origin, BarKeyActionV::Edited)
    } else if control && key == letter_key('f') {
        (bar_right(b), origin, BarKeyActionV::Edited)
    } else if control && key == letter_key('h') {
        (bar_backspace(b), origin, BarKeyActionV::Edited)
    } else if control && key == letter_key('d') {
        (bar_delete(b), origin, BarKeyActionV::Edited)
    } else if control && key == letter_key('n') {
        (moved_selection(b, 1), origin, BarKeyActionV::Edited)
    } else if control && key == letter_key('p') {
        (moved_selection(b, -1), origin, BarKeyActionV::Edited)
    } else if control && key == letter_key('k') {
        let rest = b.input.skip(b.cursor as int);
        (b, origin, if rest.len() > 0 { BarKeyActionV::Kill(rest) } else { BarKeyActionV::Edited })
    } else if control && key == letter_key('y') {
        (b, origin, BarKeyActionV::Yank)
    } else {
        (b, origin, BarKeyActionV::NotHandled)
    }
}

impl Controller {
    /// What the window does for the request `ui` of a key in the document
    /// (see `ui_action_of`); `cursor` is the document's cursor, `dirty`
    /// and `other_dirty` whether the two documents are modified, `split`
    /// whether the window is split.
    pub fn ui_action(&mut self, ui: &Ui, cursor: usize, dirty: bool, other_dirty: bool, split: bool) -> (r: EmacsAction)
        ensures
            r@ == ui_action_of(ui@, dirty, other_dirty, split),
            final(self).origin() == origin_after_ui(ui@, old(self).origin(), cursor),
            final(self).ring() == old(self).ring(),
            final(self).wf() == old(self).wf(),
            final(self).suppressing() == old(self).suppressing(),
    {
        match ui {
            Ui::Nothing => EmacsAction::Nothing,
            Ui::Cancel => {
                self.set_search_origin(None);
                EmacsAction::CloseSearch
            },
            Ui::Command(text, run) => {
                self.set_search_origin(None);
                let chars = chars_of(text.as_str());
                if eq_str(chars.as_slice(), ":quit") && (dirty || other_dirty) {
                    proof {
                        reveal_strlit(":quit");
                    }
                    EmacsAction::RefuseQuit(string_from("Save modified documents before quitting with Ctrl+X Ctrl+C."))
                } else if *run {
                    EmacsAction::Run(string_from(text.as_str()))
                } else {
                    EmacsAction::Open(string_from(text.as_str()))
                }
            },
            Ui::Search(backward) => {
                self.set_search_origin(Some(cursor));
                if *backward {
                    EmacsAction::Search(string_from(":find  --backward"), 6)
                } else {
                    EmacsAction::Search(string_from(":find "), 6)
                }
            },
            Ui::History(redo, n) => EmacsAction::History(*redo, *n),
            Ui::Help => EmacsAction::Help,
            Ui::OtherPane => if split {
                EmacsAction::FocusOther
            } else {
                EmacsAction::Nothing
            },
            Ui::Split => EmacsAction::SetSplit(true),
            Ui::OnlyPane => EmacsAction::SetSplit(false),
        }
    }

    /// An Emacs key while the command bar has the focus (see `bar_key_step`);
    /// `doc_len` is the document's length in bytes.
    pub fn bar_key(&mut self, bar: &mut CommandBar, key: u32, mods: u16, doc_len: usize) -> (r: BarKeyAction)
        requires
            old(bar).wf(),
        ensures
            final(bar).wf(),
            (final(bar)@, final(self).origin(), r@) == bar_key_step(old(bar)@, old(self).origin(), key, mods, doc_len),
            final(self).ring() == old(self).ring(),
            final(self).wf() == old(self).wf(),
            final(self).suppressing() == old(self).suppressing(),
    {
        let control = ctrl_pressed(mods);
        let origin = self.search_origin();
        if (control && key == 'g' as u32) || key == KEY_ESCAPE {
            self.set_search_origin(None);
            bar.close();
            let target = match origin {
                Some(o) => Some(if o < doc_len { o } else { doc_len }),
                None => None,
            };
            return BarKeyAction::Cancel(target);
        }
        let finding = match bar.parse() {
            Ok(ParsedCommand::Find { .. }) => true,
            _ => false,
        };
        let searching = origin.is_some() && finding;
        if searching && (key == KEY_RETURN || key == KEY_KP_ENTER) {
            self.set_search_origin(None);
            bar.close();
            return BarKeyAction::EndSearch;
        }
        if searching && control && (key == 's' as u32 || key == 'r' as u32) {
            return BarKeyAction::SearchStep(key == 'r' as u32);
        }
        if !control {
            return BarKeyAction::NotHandled;
        }
        if key == 'a' as u32 {
            bar.move_home();
        } else if key == 'e' as u32 {
            bar.move_end();
        } else if key == 'b' as u32 {
            bar.move_left();
        } else if key == 'f' as u32 {
            bar.move_right();
        } else if key == 'h' as u32 {
            bar.backspace();
        } else if key == 'd' as u32 {
            bar.delete();
        } else if key == 'n' as u32 {
            bar.move_selection(1);
        } else if key == 'p' as u32 {
            bar.move_selection(-1);
        } else if key == 'k' as u32 {
            let rest = bar.rest();
            if rest.as_str().is_empty() {
                return BarKeyAction::Edited;
            }
            return BarKeyAction::Kill(rest);
        } else if key == 'y' as u32 {
            return BarKeyAction::Yank;
        } else {
            return BarKeyAction::NotHandled;
        }
        BarKeyAction::Edited
    }
}

} // verus!
