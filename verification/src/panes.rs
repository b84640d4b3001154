//! Two-key pane shortcuts (Vim's `Ctrl+W` and, in a terminal pane, Emacs's
//! `C-x o`): the pending prefix, and swallowing the keys' repeats and text.
use vstd::prelude::*;
use crate::keys::{ctrl_pressed, has_ctrl, KEY_LALT, KEY_LCTRL, KEY_LEFT, KEY_LGUI, KEY_LSHIFT, KEY_RALT, KEY_RCTRL, KEY_RGUI,
    KEY_RIGHT, KEY_RSHIFT};

verus! {

/// Which two-key shortcut has begun.
#[derive(Clone, Copy, Debug, PartialEq, Eq, Structural)]
pub enum Prefix {
    Vim,
    EmacsTerminal,
}

/// The pane-shortcut state: a pending prefix, the key whose repeats are
/// swallowed, and whether the text event of the last key is swallowed.
#[derive(Clone, Copy, Debug, PartialEq, Eq, Structural)]
pub struct PaneKeys {
    pub pending: Option<Prefix>,
    pub consumed_key: Option<u32>,
    pub suppress_text: bool,
}

/// What the keyboard handler knows when a key arrives.
#[derive(Clone, Copy, Debug, PartialEq, Eq, Structural)]
pub struct PaneContext {
    pub command_bar_active: bool,
    pub vim: bool,
    pub emacs: bool,
    pub terminal_focused: bool,
    pub vim_insert: bool,
    pub active_pane: usize,
    pub split_mode: bool,
}

/// What a key asks of the panes: whether it is used, which pane to focus,
/// and whether a pending Vim command is dropped.
#[derive(Clone, Copy, Debug, PartialEq, Eq, Structural)]
pub struct PaneAction {
    pub handled: bool,
    pub focus: Option<usize>,
    pub cancel_vim_pending: bool,
}

pub open spec fn idle() -> PaneKeys {
    PaneKeys { pending: None, consumed_key: None, suppress_text: false }
}

pub open spec fn action(handled: bool, focus: Option<usize>, cancel_vim_pending: bool) -> PaneAction {
    PaneAction { handled, focus, cancel_vim_pending }
}

pub open spec fn modifier_key(key: u32) -> bool {
    key == KEY_LCTRL || key == KEY_RCTRL || key == KEY_LSHIFT || key == KEY_RSHIFT || key == KEY_LALT || key == KEY_RALT
        || key == KEY_LGUI || key == KEY_RGUI
}

/// No modifier but Ctrl is held (Alt, GUI and Shift are not).
pub open spec fn plain_or_ctrl(mods: u16) -> bool {
    mods & 0x0f03 == 0
}

/// The pane the second key of a shortcut focuses, if any.
pub open spec fn pane_target(prefix: Prefix, key: u32, mods: u16, cx: PaneContext) -> Option<usize> {
    match prefix {
        Prefix::Vim => if cx.vim && plain_or_ctrl(mods) {
            if key == 'w' as u32 {
                Some((1 - cx.active_pane) as usize)
            } else if key == 'h' as u32 || key == KEY_LEFT {
                Some(0)
            } else if key == 'l' as u32 || key == KEY_RIGHT {
                Some(1)
            } else {
                None
            }
        } else {
            None
        },
        Prefix::EmacsTerminal => if cx.emacs && plain_or_ctrl(mods) && !has_ctrl(mods) && key == 'o' as u32 {
            Some((1 - cx.active_pane) as usize)
        } else {
            None
        },
    }
}

/// The state after a key and what it asks of the panes.
pub open spec fn pane_step(s: PaneKeys, key: u32, mods: u16, repeat: bool, cx: PaneContext) -> (PaneKeys, PaneAction) {
    let s0 = PaneKeys { suppress_text: false, ..s };
    let swallowed = PaneKeys { consumed_key: Some(key), suppress_text: true, ..s0 };
    if cx.command_bar_active {
        (idle(), action(false, None, false))
    } else if modifier_key(key) {
        (s0, action(s.pending is Some, None, false))
    } else if repeat && s.consumed_key == Some(key) {
        (swallowed, action(true, None, false))
    } else {
        match s.pending {
            Some(prefix) => {
                let target = pane_target(prefix, key, mods, cx);
                (PaneKeys { pending: None, consumed_key: Some(key), suppress_text: true },
                    action(true, if cx.split_mode { target } else { None }, false))
            },
            None => {
                let ctrl = has_ctrl(mods);
                if ctrl && plain_or_ctrl(mods) && !repeat && cx.vim && key == 'w' as u32 && (cx.terminal_focused || !cx.vim_insert) {
                    (PaneKeys { pending: Some(Prefix::Vim), consumed_key: Some(key), suppress_text: true }, action(true, None, true))
                } else if ctrl && plain_or_ctrl(mods) && !repeat && !cx.vim && cx.emacs && key == 'x' as u32 && cx.terminal_focused {
                    (PaneKeys { pending: Some(Prefix::EmacsTerminal), consumed_key: Some(key), suppress_text: true }, action(true, None, false))
                } else {
                    (PaneKeys { consumed_key: None, ..s0 }, action(false, None, false))
                }
            },
        }
    }
}

impl PaneKeys {
    pub fn new() -> (r: Self)
        ensures
            r == idle(),
    {
        PaneKeys { pending: None, consumed_key: None, suppress_text: false }
    }

    /// Drops a pending shortcut and everything swallowed.
    pub fn cancel(&mut self)
        ensures
            *final(self) == idle(),
    {
        *self = PaneKeys::new();
    }

    /// Whether to swallow the text event of the last key; asking clears it.
    pub fn consume_text(&mut self) -> (r: bool)
        ensures
            r == old(self).suppress_text,
            *final(self) == (PaneKeys { suppress_text: false, ..*old(self) }),
    {
        let r = self.suppress_text;
        self.suppress_text = false;
        r
    }

    /// Swallows `key`: its repeats and its text.
    pub fn consume(&mut self, key: u32)
        ensures
            *final(self) == (PaneKeys { consumed_key: Some(key), suppress_text: true, ..*old(self) }),
    {
        self.consumed_key = Some(key);
        self.suppress_text = true;
    }

    /// Handles a key (see `pane_step`); the active pane is 0 or 1.
    pub fn handle(&mut self, key: u32, mods: u16, repeat: bool, cx: PaneContext) -> (r: PaneAction)
        requires
            cx.active_pane <= 1,
        ensures
            (*final(self), r) == pane_step(*old(self), key, mods, repeat, cx),
    {
        self.suppress_text = false;
        if cx.command_bar_active {
            self.cancel();
            return PaneAction { handled: false, focus: None, cancel_vim_pending: false };
        }
        if key == KEY_LCTRL || key == KEY_RCTRL || key == KEY_LSHIFT || key == KEY_RSHIFT || key == KEY_LALT
            || key == KEY_RALT || key == KEY_LGUI || key == KEY_RGUI {
            return PaneAction { handled: self.pending.is_some(), focus: None, cancel_vim_pending: false };
        }
        if repeat && self.consumed_key == Some(key) {
            self.consume(key);
            return PaneAction { handled: true, focus: None, cancel_vim_pending: false };
        }
        self.consumed_key = None;
        let ctrl = ctrl_pressed(mods);
        let plain = mods & 0x0f03 == 0;
        match self.pending {
            Some(prefix) => {
                self.pending = None;
                self.consume(key);
                let other = 1 - cx.active_pane;
                let target = match prefix {
                    Prefix::Vim => if cx.vim && plain {
                        if key == 'w' as u32 {
                            Some(other)
                        } else if key == 'h' as u32 || key == KEY_LEFT {
                            Some(0)
                        } else if key == 'l' as u32 || key == KEY_RIGHT {
                            Some(1)
                        } else {
                            None
                        }
                    } else {
                        None
                    },
                    Prefix::EmacsTerminal => if cx.emacs && plain && !ctrl && key == 'o' as u32 {
                        Some(other)
                    } else {
                        None
                    },
                };
                PaneAction { handled: true, focus: if cx.split_mode { target } else { None }, cancel_vim_pending: false }
            },
            None => {
                if ctrl && plain && !repeat {
                    if cx.vim && key == 'w' as u32 && (cx.terminal_focused || !cx.vim_insert) {
                        self.pending = Some(Prefix::Vim);
                        self.consume(key);
                        return PaneAction { handled: true, focus: None, cancel_vim_pending: true };
                    }
                    if !cx.vim && cx.emacs && key == 'x' as u32 && cx.terminal_focused {
                        self.pending = Some(Prefix::EmacsTerminal);
                        self.consume(key);
                        return PaneAction { handled: true, focus: None, cancel_vim_pending: false };
                    }
                }
                PaneAction { handled: false, focus: None, cancel_vim_pending: false }
            },
        }
    }
}

} // verus!
