//! What the window manager asks of the desktop, and what the desktop answers.
//!
//! The window manager decides; the program around it acts. A [`Desk`] records
//! the requests in order. Two of them have an answer that the rest of a command
//! depends on: whether a batch of positions was accepted, and where a window
//! is. The answers are handed in before the command runs. An answer that was
//! not handed in is taken to be the usual one (accepted; unknown), so that a
//! program can run a command, carry out the requests up to the first answer
//! that turns out otherwise, hand that answer in and run the command again from
//! the same state. The laws in [`crate::model::replay`] say that the requests are
//! the same up to there.

use crate::bar::{BarColors, BarSegments};
use crate::ids::WindowId;
use crate::rect::Rect;
use crate::toast::{ToastConfig, ToastLevel};
use vstd::prelude::*;

verus! {

/// The place of one monitor's status bar.
#[derive(Debug, Clone)]
pub struct BarSpec {
    pub monitor_id: String,
    pub bounds: Rect,
}

/// A window that the overview can highlight.
#[derive(Debug, Clone)]
pub struct PeekSource {
    pub window_id: WindowId,
    pub source_hwnd: isize,
    pub title: String,
}

/// The monitor that the overview opens on.
#[derive(Debug, Clone, Copy, PartialEq, Eq, Structural)]
pub struct PeekMonitor {
    pub bounds: Rect,
}

/// The looks of the focus frame, the status bars and the notifications.
#[derive(Debug, Clone, Copy, PartialEq, Eq, Structural)]
pub struct Theme {
    pub border_color: u32,
    pub border_width: i32,
    pub corner_radius: i32,
    pub bar_colors: BarColors,
    pub bar_segments: BarSegments,
    pub toasts: ToastConfig,
}

/// A request to the desktop.
#[derive(Debug, Clone)]
pub enum Effect {
    /// Show a window without giving it the focus.
    Show(WindowId),
    /// Hide a window.
    Hide(WindowId),
    /// Bring a window to the foreground.
    Focus(WindowId),
    /// Ask a window to close.
    Close(WindowId),
    /// Switch off the system's animations for a window.
    DisableTransitions(WindowId),
    /// Put the focus frame around a window, or hide it where the window's frame
    /// is not known.
    Frame(WindowId),
    /// Move the focus frame to a window, where the window's frame is known.
    Reframe(WindowId),
    /// Hide the focus frame.
    Unframe,
    /// Take the foreground away from the window that has it.
    SinkFocus,
    /// Move windows, all at once.
    Place(Vec<(WindowId, Rect)>),
    /// Find out where a window is.
    Measure(WindowId),
    /// Show a notification.
    Notify(ToastLevel, String),
    /// Create, move and destroy status bars so that there is one for each
    /// monitor.
    SyncBars(Vec<BarSpec>),
    /// Tell the keyboard listener and the tray icon whether tiling is paused.
    PauseChanged(bool),
    /// Take on other looks.
    Restyle(Theme),
    /// Close the overview.
    PeekDismiss,
    /// Move the highlight of the overview.
    PeekCycle(i32),
    /// Open the overview.
    PeekOpen(PeekMonitor, Vec<PeekSource>, Option<WindowId>),
}

/// A request in the model: sequences for vectors.
pub enum Act {
    Show(WindowId),
    Hide(WindowId),
    Focus(WindowId),
    Close(WindowId),
    DisableTransitions(WindowId),
    Frame(WindowId),
    Reframe(WindowId),
    Unframe,
    SinkFocus,
    Place(Seq<(WindowId, Rect)>),
    Measure(WindowId),
    Notify(ToastLevel, Seq<char>),
    SyncBars(Seq<BarSpec>),
    PauseChanged(bool),
    Restyle(Theme),
    PeekDismiss,
    PeekCycle(i32),
    PeekOpen(PeekMonitor, Seq<PeekSource>, Option<WindowId>),
}

impl View for Effect {
    type V = Act;

    open spec fn view(&self) -> Act {
        match *self {
            Effect::Show(id) => Act::Show(id),
            Effect::Hide(id) => Act::Hide(id),
            Effect::Focus(id) => Act::Focus(id),
            Effect::Close(id) => Act::Close(id),
            Effect::DisableTransitions(id) => Act::DisableTransitions(id),
            Effect::Frame(id) => Act::Frame(id),
            Effect::Reframe(id) => Act::Reframe(id),
            Effect::Unframe => Act::Unframe,
            Effect::SinkFocus => Act::SinkFocus,
            Effect::Place(moves) => Act::Place(moves@),
            Effect::Measure(id) => Act::Measure(id),
            Effect::Notify(level, text) => Act::Notify(level, text@),
            Effect::SyncBars(specs) => Act::SyncBars(specs@),
            Effect::PauseChanged(paused) => Act::PauseChanged(paused),
            Effect::Restyle(theme) => Act::Restyle(theme),
            Effect::PeekDismiss => Act::PeekDismiss,
            Effect::PeekCycle(delta) => Act::PeekCycle(delta),
            Effect::PeekOpen(monitor, sources, focused) => Act::PeekOpen(
                monitor,
                sources@,
                focused,
            ),
        }
    }
}

/// The desktop's side of a command in the model.
pub struct DeskModel {
    /// Whether each batch of positions is accepted.
    pub accepted: Seq<bool>,
    /// Where the windows are that are asked for.
    pub measured: Seq<Option<Rect>>,
    /// The number of batches so far.
    pub batches: nat,
    /// The number of windows that were asked for so far.
    pub measures: nat,
    /// The requests so far.
    pub log: Seq<Act>,
}

impl DeskModel {
    /// After one more request.
    pub open spec fn said(self, act: Act) -> DeskModel {
        DeskModel { log: self.log.push(act), ..self }
    }

    /// Whether the next batch of positions is accepted. One that moves no
    /// window always is, and is not handed on.
    pub open spec fn accepts(self, moves: Seq<(WindowId, Rect)>) -> bool {
        moves.len() == 0 || self.batches >= self.accepted.len()
            || self.accepted[self.batches as int]
    }

    /// After a batch of positions.
    pub open spec fn placed(self, moves: Seq<(WindowId, Rect)>) -> DeskModel {
        if moves.len() == 0 {
            self
        } else {
            DeskModel {
                log: self.log.push(Act::Place(moves)),
                batches: self.batches + 1,
                ..self
            }
        }
    }

    /// Where the next window that is asked for is.
    pub open spec fn answer(self) -> Option<Rect> {
        if self.measures < self.measured.len() {
            self.measured[self.measures as int]
        } else {
            None
        }
    }

    /// After asking where a window is.
    pub open spec fn asked(self, id: WindowId) -> DeskModel {
        DeskModel {
            log: self.log.push(Act::Measure(id)),
            measures: self.measures + 1,
            ..self
        }
    }
}

/// The requests of a command, and the answers it runs on.
#[derive(Debug, Clone)]
pub struct Desk {
    pub accepted: Vec<bool>,
    pub measured: Vec<Option<Rect>>,
    pub batches: usize,
    pub measures: usize,
    pub effects: Vec<Effect>,
}

impl View for Desk {
    type V = DeskModel;

    open spec fn view(&self) -> DeskModel {
        DeskModel {
            accepted: self.accepted@,
            measured: self.measured@,
            batches: self.batches as nat,
            measures: self.measures as nat,
            log: Seq::new(self.effects@.len(), |i: int| self.effects@[i]@),
        }
    }
}

impl Desk {
    /// Whether no counter has run ahead of the log that it counts in.
    pub open spec fn wf(&self) -> bool {
        &&& self.batches <= self.effects@.len()
        &&& self.measures <= self.effects@.len()
    }

    /// A desk without requests, for a command that runs on the given answers.
    pub fn new(accepted: Vec<bool>, measured: Vec<Option<Rect>>) -> (r: Self)
        ensures
            r.wf(),
            r@ == (DeskModel {
                accepted: accepted@,
                measured: measured@,
                batches: 0,
                measures: 0,
                log: Seq::empty(),
            }),
    {
        let r = Desk { accepted, measured, batches: 0, measures: 0, effects: Vec::new() };
        assert(r@.log =~= Seq::<Act>::empty());
        r
    }

    /// Record a request.
    pub fn say(&mut self, effect: Effect)
        requires
            old(self).wf(),
        ensures
            final(self).wf(),
            final(self)@ == old(self)@.said(effect@),
    {
        let ghost before = self@;
        self.effects.push(effect);
        assert(self@.log =~= before.log.push(effect@));
    }

    /// Record a batch of positions and return whether it is accepted.
    pub fn place(&mut self, moves: Vec<(WindowId, Rect)>) -> (ok: bool)
        requires
            old(self).wf(),
        ensures
            final(self).wf(),
            ok == old(self)@.accepts(moves@),
            final(self)@ == old(self)@.placed(moves@),
    {
        if moves.len() == 0 {
            return true;
        }
        let ghost before = self@;
        let ok = self.batches >= self.accepted.len() || self.accepted[self.batches];
        self.effects.push(Effect::Place(moves));
        let count: usize = self.effects.len();
        assert(self.batches < count);
        self.batches = self.batches + 1;
        assert(self@.log =~= before.log.push(Act::Place(moves@)));
        ok
    }

    /// Record the question where a window is, and return the answer.
    pub fn measure(&mut self, id: WindowId) -> (r: Option<Rect>)
        requires
            old(self).wf(),
        ensures
            final(self).wf(),
            r == old(self)@.answer(),
            final(self)@ == old(self)@.asked(id),
    {
        let ghost before = self@;
        let r = if self.measures < self.measured.len() {
            self.measured[self.measures]
        } else {
            None
        };
        self.effects.push(Effect::Measure(id));
        let count: usize = self.effects.len();
        assert(self.measures < count);
        self.measures = self.measures + 1;
        assert(self@.log =~= before.log.push(Act::Measure(id)));
        r
    }
}

} // verus!
