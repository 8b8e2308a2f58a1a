//! What events and commands do.

use crate::bar::{BarContents, WorkspaceState};
use crate::command::Command;
use crate::desk::{Act, PeekMonitor, PeekSource};
use crate::filter;
use crate::filter::WindowFacts;
use crate::ids::{WindowId, WorkspaceId};
use crate::model::commands;
use crate::model::{Outcome, World};
use crate::rect::Direction;
use crate::rules;
use crate::rules::{Rule, RuleAction};
use crate::text;
use crate::toast::ToastLevel;
use crate::tree::Tree;
use crate::window::{ManagedWindow, WindowMode};
use crate::winevent::WinEvent;
use vstd::prelude::*;

verus! {

/// By how much a direction moves the picker's highlight.
pub open spec fn peek_step(dir: Direction) -> i32 {
    match dir {
        Direction::Left | Direction::Down => -1i32,
        Direction::Right | Direction::Up => 1i32,
    }
}

/// Whether the picker stays open for a command.
pub open spec fn keeps_peek(cmd: Command) -> bool {
    cmd is FocusDirection || cmd is PeekToggle || cmd is PeekConfirm
}

impl World {
    // ---- new windows ------------------------------------------------------

    /// With what a rule says done to a new window that has the focus.
    pub open spec fn rule_followed(self, id: WindowId, action: Option<RuleAction>) -> World {
        match action {
            Some(RuleAction::Float) => if self.focused_window == Some(id) {
                self.float_toggled().0
            } else {
                self
            },
            Some(RuleAction::Tile) => if self.windows.contains_key(id) && self.windows[id].mode
                == WindowMode::Floating && self.focused_window == Some(id) {
                self.float_toggled().0
            } else {
                self
            },
            _ => self,
        }
    }

    /// With a window that can be managed, on the workspace that a rule names
    /// where there is one, and whether it is managed.
    pub open spec fn admitted(self, id: WindowId, f: WindowFacts, all: Seq<Rule>) -> (World, bool) {
        if !filter::manageable(f, all) {
            (self, false)
        } else {
            let action = rules::action_for(all, f.exe@, f.class@, f.title@);
            let outcome = match action {
                Some(RuleAction::Workspace(n)) => if self.knows(WorkspaceId(n)) {
                    self.managed_on(id, f.title, f.class, f.exe, WorkspaceId(n))
                } else {
                    self.managed(id, f.title, f.class, f.exe)
                },
                _ => self.managed(id, f.title, f.class, f.exe),
            };
            match outcome {
                (w, Err(_)) => (w, false),
                (w, Ok(())) => (w.rule_followed(id, action), true),
            }
        }
    }

    // ---- events -----------------------------------------------------------

    /// Whether a window is managed, and hidden by the window manager itself.
    pub open spec fn hid(self, id: WindowId) -> bool {
        self.windows.contains_key(id) && self.windows[id].hidden_by_us
    }

    /// With a managed window out of the layout.
    pub open spec fn yielded(self, id: WindowId) -> (World, bool) {
        if self.windows.contains_key(id) {
            (self.soft_removed(id).0, true)
        } else {
            (self, false)
        }
    }

    /// With another title of a managed window.
    pub open spec fn retitled(self, id: WindowId, title: String) -> World {
        if self.windows.contains_key(id) {
            World {
                windows: self.windows.insert(id, ManagedWindow { title, ..self.windows[id] }),
                ..self
            }
        } else {
            self
        }
    }

    /// After an event, and whether the status bars may show something else. While
    /// the window manager is paused it only follows the foreground.
    pub open spec fn handled(self, all: Seq<Rule>, event: WinEvent, f: WindowFacts) -> (
        World,
        bool,
    ) {
        let id = WindowId(event.window());
        if self.paused {
            match event {
                WinEvent::Foreground(_) => (self.foregrounded(id), true),
                _ => (self, false),
            }
        } else {
            match event {
                WinEvent::Shown(_) => if self.hid(id) {
                    (self, false)
                } else if self.windows.contains_key(id) {
                    (self.soft_restored(id).0, true)
                } else {
                    (self.admitted(id, f, all).0, true)
                },
                WinEvent::Destroyed(_) => (self.unmanaged(id).0, true),
                WinEvent::Hidden(_) => if self.hid(id) {
                    (self, false)
                } else {
                    self.yielded(id)
                },
                WinEvent::Cloaked(_) => self.yielded(id),
                WinEvent::Minimized(_) => self.yielded(id),
                WinEvent::Uncloaked(_) => if self.windows.contains_key(id) {
                    (self.soft_restored(id).0, true)
                } else {
                    (self.admitted(id, f, all).0, true)
                },
                WinEvent::Restored(_) => if self.windows.contains_key(id) {
                    (self.soft_restored(id).0, true)
                } else {
                    (self, false)
                },
                WinEvent::Foreground(_) => (self.foregrounded(id), true),
                WinEvent::MoveSizeStart(_) => (self, false),
                WinEvent::MoveSizeEnd(_) => if self.windows.contains_key(id) && self.shown_on(
                    self.windows[id].workspace,
                ) is Some {
                    (self.retiled(self.windows[id].workspace).0, false)
                } else {
                    (self, false)
                },
                WinEvent::LocationChanged(_) => (self, false),
                WinEvent::NameChanged(_) => (
                    if f.title_known {
                        self.retitled(id, f.title)
                    } else {
                        self
                    },
                    self.focused_window == Some(id),
                ),
            }
        }
    }

    // ---- the picker -------------------------------------------------------

    /// Whether a window is managed.
    pub open spec fn is_managed(self) -> spec_fn(WindowId) -> bool {
        |id: WindowId| self.windows.contains_key(id)
    }

    /// What the picker offers: the managed windows of a workspace.
    pub open spec fn peek_sources(self, ws: WorkspaceId) -> Seq<PeekSource> {
        self.windows_on(ws).filter(self.is_managed()).map_values(
            |id: WindowId|
                PeekSource { window_id: id, source_hwnd: id.0, title: self.windows[id].title },
        )
    }

    /// With the picker closed where it was open, and opened where it was not.
    pub open spec fn peek_toggled(self, open: bool) -> Outcome {
        if open {
            (self.say(Act::PeekDismiss), Ok(()))
        } else {
            match self.focused_monitor {
                None => (self, Err(crate::model::WmError::NoFocusedWorkspace)),
                Some(m) => match self.monitor(m) {
                    None => (self, Err(crate::model::WmError::NoFocusedWorkspace)),
                    Some(mon) => (
                        self.say(
                            Act::PeekOpen(
                                PeekMonitor { bounds: mon.info.bounds },
                                self.peek_sources(mon.current_workspace),
                                self.focused_window,
                            ),
                        ),
                        Ok(()),
                    ),
                },
            }
        }
    }

    /// With the picker closed and the window that was picked in the foreground.
    /// Where no picker was open, nothing happens.
    pub open spec fn peek_confirmed(self, pick: Option<WindowId>) -> Outcome {
        match pick {
            None => (self, Ok(())),
            Some(id) => {
                let closed = self.say(Act::PeekDismiss);
                if !closed.windows.contains_key(id) {
                    (closed, Ok(()))
                } else {
                    match closed.foregrounded(id).retiled(closed.windows[id].workspace) {
                        (w, Err(e)) => (w, Err(e)),
                        (w, Ok(())) => (w.say(Act::Focus(id)), Ok(())),
                    }
                }
            },
        }
    }

    // ---- commands ---------------------------------------------------------

    /// Paused where it was not, and the other way round.
    pub open spec fn pause_toggled(self) -> World {
        let paused = !self.paused;
        World { paused, ..self }.say(Act::PauseChanged(paused)).say(
            Act::Notify(
                ToastLevel::Info,
                if paused {
                    "Paused"@
                } else {
                    "Resumed"@
                },
            ),
        )
    }

    /// After a command. An open picker takes the focus commands, and makes way
    /// for any other command first.
    pub open spec fn dispatched(
        self,
        cmd: Command,
        peek_open: bool,
        pick: Option<WindowId>,
    ) -> Outcome {
        let w = if peek_open && !keeps_peek(cmd) {
            self.say(Act::PeekDismiss)
        } else {
            self
        };
        match cmd {
            Command::FocusDirection(d) => if peek_open {
                (w.say(Act::PeekCycle(peek_step(d))), Ok(()))
            } else {
                w.focused_toward(d)
            },
            Command::MoveDirection(d) => w.moved_toward(d),
            Command::Resize { dir, delta_px } => w.resized_toward(dir, delta_px as int),
            Command::ToggleFloat => w.float_toggled(),
            Command::ToggleMonocle => w.monocle_toggled(),
            Command::ToggleStack => w.stack_toggled(),
            Command::ToggleLayoutMode => w.mode_toggled(),
            Command::StackSwallow(d) => w.neighbour_swallowed(d),
            Command::StackPop => w.member_popped(),
            Command::FocusStackNext => w.stack_cycled(true),
            Command::FocusStackPrev => w.stack_cycled(false),
            Command::CloseFocused => (
                match w.focused_window {
                    Some(id) => w.say(Act::Close(id)),
                    None => w,
                },
                Ok(()),
            ),
            Command::SwitchWorkspace(ws) => w.switched(ws),
            Command::SwitchWorkspaceOnMonitor(ws, m) => w.switched_on(ws, m),
            Command::MoveFocusedToWorkspace(ws) => w.sent_to(ws),
            Command::FocusMonitor(d) => (w.monitor_focused_toward(d), Ok(())),
            Command::TogglePause => (w.pause_toggled(), Ok(())),
            Command::Notify(level, said) => (w.say(Act::Notify(level, said@)), Ok(())),
            Command::PeekToggle => w.peek_toggled(peek_open),
            Command::PeekConfirm => w.peek_confirmed(pick),
            Command::ReloadConfig | Command::Reap | Command::Quit | Command::ConfigChanged => (
                w,
                Ok(()),
            ),
        }
    }

    /// Whether the place of a floating window after a command is a number that
    /// can be counted.
    pub open spec fn can_run(self, cmd: Command) -> bool {
        match cmd {
            Command::MoveDirection(d) => self.focused_float() matches Some(r)
                ==> commands::can_shift(r, d),
            Command::Resize { dir, delta_px } => self.focused_float() matches Some(r)
                ==> commands::can_stretch(r, dir, delta_px as int),
            _ => true,
        }
    }

    // ---- the status bars --------------------------------------------------

    /// Whether a workspace has a managed window.
    pub open spec fn is_occupied(self, ws: WorkspaceId) -> bool {
        exists|id: WindowId| #[trigger]
            self.windows.contains_key(id) && self.windows[id].workspace == ws
    }

    /// Where a window is in its stack, in words; empty where it is in none.
    pub open spec fn stack_marker(self, id: WindowId) -> Seq<char> {
        let ws = self.windows[id].workspace;
        if self.knows(ws) && self.ws(ws).tree.holds(id) {
            match self.ws(ws).tree.tree->0.node_of(id) {
                Tree::Stack { children, focused } => " ["@ + text::decimal(
                    (children.index_of(id) + 1) as nat,
                ) + "/"@ + text::decimal(children.len()) + "]"@,
                _ => Seq::empty(),
            }
        } else {
            Seq::empty()
        }
    }

    /// The title of the focused window, and where it is in its stack.
    pub open spec fn bar_title(self) -> Seq<char> {
        match self.focused_window {
            Some(id) => if self.windows.contains_key(id) {
                self.windows[id].title@ + self.stack_marker(id)
            } else {
                Seq::empty()
            },
            None => Seq::empty(),
        }
    }

    /// What the bar of the monitor at `i` shows.
    pub open spec fn bar_contents(self, i: int) -> BarContents {
        BarContents {
            workspaces: Seq::new(
                self.workspaces.len(),
                |k: int|
                    WorkspaceState {
                        id: (k + 1) as u32,
                        is_active: self.monitors[i].current_workspace.0 == k + 1,
                        is_visible: self.workspaces[k].active_monitor is Some,
                        has_windows: self.is_occupied(WorkspaceId((k + 1) as u32)),
                    },
            ),
            focused_title: self.bar_title(),
            right_label: if self.paused {
                Some("PAUSED"@)
            } else {
                None
            },
        }
    }
}

} // verus!
