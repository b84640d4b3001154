//! Offering crash recovery once the window is up: the background scan's
//! result waits until the command bar is free, and is acknowledged once the
//! user has seen it.
use vstd::prelude::*;
use crate::command_bar::bar::{next_epoch, opened_input, BarV};
use crate::command_bar::info::spec_layout;
use crate::command_bar::CommandBar;

verus! {

/// What the background scan delivered since the last look.
pub enum Arrival {
    /// Nothing yet.
    Nothing,
    /// The scan finished, with a notice to show or none.
    Notice(Option<String>),
    /// The scan ended without a result.
    Closed,
}

/// The prompt: whether the scan was started, whether its result is still
/// awaited, a notice waiting for the command bar, and the command bar epoch
/// at which a notice was shown.
pub struct RecoveryPrompt {
    started: bool,
    waiting: bool,
    pending: Option<String>,
    shown: Option<u64>,
}

pub struct PromptV {
    pub started: bool,
    pub waiting: bool,
    pub pending: Option<Seq<char>>,
    pub shown: Option<u64>,
}

impl View for RecoveryPrompt {
    type V = PromptV;

    closed spec fn view(&self) -> PromptV {
        PromptV {
            started: self.started,
            waiting: self.waiting,
            pending: match self.pending {
                Some(t) => Some(t@),
                None => None,
            },
            shown: self.shown,
        }
    }
}

/// The command bar opened on `:recover` with the notice as its
/// information.
pub open spec fn notice_shown(b0: BarV, b1: BarV, text: Seq<char>) -> bool {
    let opened = BarV {
        active: true,
        formatters: seq![],
        input: opened_input(":recover"@),
        cursor: opened_input(":recover"@).len(),
        selected: 0,
        selection_explicit: false,
        status: None,
        info: seq![],
        reviews: seq![],
        epoch: next_epoch(b0.epoch),
        ..b0
    };
    b1 == (BarV {
        reviews: seq![],
        info: spec_layout(text, seq![]).rows,
        info_docs: spec_layout(text, seq![]).docs,
        info_offset: 0,
        selected: 0,
        selection_explicit: false,
        status: Some("Up/Down scroll; Escape closes"@),
        ..opened
    })
}

/// Whether a shown notice is done with: the command bar was closed or
/// replaced since.
pub open spec fn dismissed(p: PromptV, bar: BarV) -> bool {
    p.shown matches Some(epoch) && (!bar.active || bar.epoch != epoch)
}

/// The prompt after looking at what arrived (after a dismissed notice is
/// acknowledged).
pub open spec fn received(p: PromptV, arrival: Option<Option<Seq<char>>>, closed: bool) -> PromptV {
    if !p.waiting {
        p
    } else {
        match arrival {
            Some(notice) => PromptV { pending: notice, waiting: false, ..p },
            None => if closed { PromptV { waiting: false, ..p } } else { p },
        }
    }
}

pub open spec fn arrival_view(a: Arrival) -> (Option<Option<Seq<char>>>, bool) {
    match a {
        Arrival::Nothing => (None, false),
        Arrival::Notice(n) => (Some(match n {
            Some(t) => Some(t@),
            None => None,
        }), false),
        Arrival::Closed => (None, true),
    }
}

impl RecoveryPrompt {
    pub fn new() -> (r: Self)
        ensures
            r@ == (PromptV { started: false, waiting: false, pending: None, shown: None }),
    {
        RecoveryPrompt { started: false, waiting: false, pending: None, shown: None }
    }

    /// Whether the scan is to be started now: only the first time.
    pub fn begin(&mut self) -> (r: bool)
        ensures
            r == !old(self)@.started,
            final(self)@ == (PromptV { started: true, ..old(self)@ }),
    {
        if self.started {
            return false;
        }
        self.started = true;
        true
    }

    /// Records whether the scan runs, so that its result is awaited.
    pub fn set_waiting(&mut self, waiting: bool)
        ensures
            final(self)@ == (PromptV { waiting, ..old(self)@ }),
    {
        self.waiting = waiting;
    }

    /// How long the event loop may sleep, in milliseconds: briefly while
    /// the scan's result is awaited.
    pub fn wait_timeout(&self) -> (r: u64)
        ensures
            r == if self@.waiting { 100u64 } else { 1000u64 },
    {
        if self.waiting { 100 } else { 1000 }
    }

    /// Lets go of a shown notice; whether there was one, which the caller
    /// then marks as seen.
    pub fn acknowledge(&mut self) -> (r: bool)
        ensures
            r == old(self)@.shown is Some,
            final(self)@ == (PromptV { shown: None, ..old(self)@ }),
    {
        let r = self.shown.is_some();
        self.shown = None;
        r
    }

    /// One look per frame: acknowledges a notice whose command bar was
    /// closed or replaced, takes what the scan delivered, and shows a
    /// waiting notice once the command bar is free. Returns whether a
    /// notice was shown now, and whether one was acknowledged.
    pub fn update(&mut self, bar: &mut CommandBar, arrival: Arrival) -> (r: (bool, bool))
        requires
            old(bar).wf(),
        ensures
            final(bar).wf(),
            ({
                let p0 = old(self)@;
                let acknowledged = dismissed(p0, old(bar)@);
                let p1 = if acknowledged { PromptV { shown: None, ..p0 } } else { p0 };
                let p2 = received(p1, arrival_view(arrival).0, arrival_view(arrival).1);
                &&& r.1 == acknowledged
                &&& if !old(bar)@.active && p2.pending is Some {
                    &&& r.0
                    &&& notice_shown(old(bar)@, final(bar)@, p2.pending->0)
                    &&& final(self)@ == (PromptV { pending: None, shown: Some(final(bar)@.epoch), ..p2 })
                } else {
                    &&& !r.0
                    &&& final(bar)@ == old(bar)@
                    &&& final(self)@ == p2
                }
            }),
    {
        let mut acknowledged = false;
        match self.shown {
            Some(epoch) => {
                if !bar.is_active() || bar.epoch() != epoch {
                    self.shown = None;
                    acknowledged = true;
                }
            },
            None => {},
        }
        if self.waiting {
            match arrival {
                Arrival::Notice(notice) => {
                    self.pending = notice;
                    self.waiting = false;
                },
                Arrival::Closed => {
                    self.waiting = false;
                },
                Arrival::Nothing => {},
            }
        }
        if !bar.is_active() {
            match self.pending.take() {
                Some(text) => {
                    bar.open(":recover");
                    bar.show_info(text.as_str());
                    self.shown = Some(bar.epoch());
                    return (true, acknowledged);
                },
                None => {},
            }
        }
        (false, acknowledged)
    }
}

} // verus!
