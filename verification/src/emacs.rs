//! Emacs-style editing state: the mark, `C-x` and `Esc` prefixes, numeric
//! arguments, and the kill ring.
pub mod controller;
pub mod actions;

use vstd::prelude::*;

verus! {

/// Largest numeric argument.
pub const MAX_COUNT: i32 = 1000;
/// Most bytes the kill ring holds.
pub const RING_BYTES: usize = 262144;
/// Most entries the kill ring holds.
pub const RING_ENTRIES: usize = 32;

/// Per-view Emacs state.
#[derive(Clone, Copy, Debug, PartialEq, Eq)]
pub struct State {
    pub mark: Option<usize>,
    pub active_mark: bool,
    pub prefix: bool,
    pub meta: bool,
    pub count: Option<i32>,
    pub digits: bool,
    pub last_kill: bool,
    /// Start, end, ring index and undo depth of the last yank.
    pub yank: Option<(usize, usize, usize, usize)>,
}

/// The state with nothing pending.
pub open spec fn initial_state() -> State {
    State {
        mark: None,
        active_mark: false,
        prefix: false,
        meta: false,
        count: None,
        digits: false,
        last_kill: false,
        yank: None,
    }
}

/// The status line label for a state.
pub open spec fn state_label(s: State) -> Seq<char> {
    if s.prefix {
        "Emacs \u{b7} C-x"@
    } else if s.meta {
        "Emacs \u{b7} Esc"@
    } else if s.count is Some {
        "Emacs \u{b7} argument"@
    } else if s.active_mark {
        "Emacs \u{b7} mark"@
    } else {
        "Emacs"@
    }
}

impl State {
    pub fn new() -> (r: Self)
        ensures
            r == initial_state(),
    {
        State {
            mark: None,
            active_mark: false,
            prefix: false,
            meta: false,
            count: None,
            digits: false,
            last_kill: false,
            yank: None,
        }
    }

    /// Forgets everything, the mark included.
    pub fn reset(&mut self)
        ensures
            *final(self) == initial_state(),
    {
        *self = State::new();
    }

    /// Drops a pending prefix, argument, kill chain and yank; keeps the mark.
    pub fn cancel_sequence(&mut self)
        ensures
            *final(self) == (State {
                prefix: false,
                meta: false,
                count: None,
                digits: false,
                last_kill: false,
                yank: None,
                ..*old(self)
            }),
    {
        self.prefix = false;
        self.meta = false;
        self.count = None;
        self.digits = false;
        self.last_kill = false;
        self.yank = None;
    }

    /// The status line label.
    pub fn label(&self) -> (r: &'static str)
        ensures
            r@ == state_label(*self),
    {
        if self.prefix {
            "Emacs \u{b7} C-x"
        } else if self.meta {
            "Emacs \u{b7} Esc"
        } else if self.count.is_some() {
            "Emacs \u{b7} argument"
        } else if self.active_mark {
            "Emacs \u{b7} mark"
        } else {
            "Emacs"
        }
    }

    /// Takes the numeric argument (1 when none is pending).
    pub fn take_count(&mut self) -> (r: i32)
        ensures
            r == match old(self).count {
                Some(c) => c,
                None => 1,
            },
            *final(self) == (State { digits: false, count: None, ..*old(self) }),
    {
        self.digits = false;
        let c = self.count;
        self.count = None;
        match c {
            Some(c) => c,
            None => 1,
        }
    }
}

} // verus!
