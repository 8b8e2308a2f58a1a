//! Commands and events.

use crate::bar::{BarSnapshot, WorkspaceState};
use crate::command::Command;
use crate::desk::{Effect, PeekMonitor, PeekSource};
use crate::filter::{is_manageable, WindowFacts};
use crate::ids::{WindowId, WorkspaceId};
use crate::model::commands;
use crate::model::events;
use crate::model::{WmError, MIN_DIM, STEP};
use crate::monitor::find_monitor;
use crate::rect::{Direction, Rect};
use crate::rules;
use crate::rules::{first_matching_action, Rule, RuleAction};
use crate::state::WindowManager;
use crate::text::decimal_of;
use crate::toast::ToastLevel;
use crate::window::WindowMode;
use crate::winevent::WinEvent;
use vstd::prelude::*;
use vstd::string::StringExecFns;

verus! {

fn peek_step_of(dir: Direction) -> (r: i32)
    ensures
        r == events::peek_step(dir),
{
    match dir {
        Direction::Left | Direction::Down => -1,
        Direction::Right | Direction::Up => 1,
    }
}

fn keeps_peek_open(cmd: &Command) -> (r: bool)
    ensures
        r == events::keeps_peek(*cmd),
{
    match cmd {
        Command::FocusDirection(_) | Command::PeekToggle | Command::PeekConfirm => true,
        _ => false,
    }
}

impl WindowManager {
    /// Do what a rule says to a new window that has the focus.
    fn follow_rule(&mut self, id: WindowId, action: Option<RuleAction>)
        requires
            old(self).inv(),
        ensures
            final(self).inv(),
            final(self)@ == old(self)@.rule_followed(id, action),
    {
        match action {
            Some(RuleAction::Float) => {
                if self.focused_window == Some(id) {
                    let _ = self.toggle_float();
                }
            },
            Some(RuleAction::Tile) => {
                let floating = match self.windows.get(id) {
                    Some(mw) => mw.mode == WindowMode::Floating,
                    None => false,
                };
                if floating && self.focused_window == Some(id) {
                    let _ = self.toggle_float();
                }
            },
            _ => {},
        }
    }

    /// Manage a window that can be managed, as the rules say. Whether it is
    /// managed.
    ///
    /// A rule can name the workspace for the window; where there is no such
    /// workspace, the window is placed like any other.
    pub fn admit_window(&mut self, rules: &Vec<Rule>, id: WindowId, win: &WindowFacts) -> (r: bool)
        requires
            old(self).inv(),
        ensures
            final(self).inv(),
            (final(self)@, r) == old(self)@.admitted(id, *win, rules@),
    {
        if !is_manageable(win, rules) {
            return false;
        }
        let action = first_matching_action(
            rules,
            win.exe.as_str(),
            win.class.as_str(),
            win.title.as_str(),
        );
        let routed = match action {
            Some(RuleAction::Workspace(n)) => self.index_of(WorkspaceId(n)).is_some(),
            _ => false,
        };
        let done = match action {
            Some(RuleAction::Workspace(n)) if routed => self.manage_routed(
                id,
                win.title.clone(),
                win.class.clone(),
                win.exe.clone(),
                WorkspaceId(n),
            ),
            _ => self.manage(id, win.title.clone(), win.class.clone(), win.exe.clone()),
        };
        if done.is_err() {
            return false;
        }
        self.follow_rule(id, action);
        true
    }

    /// Whether a window is managed, and hidden by the window manager itself.
    fn has_hidden(&self, id: WindowId) -> (r: bool)
        requires
            self.inv(),
        ensures
            r == self@.hid(id),
    {
        match self.windows.get(id) {
            Some(mw) => mw.hidden_by_us,
            None => false,
        }
    }

    /// Take a managed window out of the layout.
    fn yield_slot(&mut self, id: WindowId) -> (r: bool)
        requires
            old(self).inv(),
        ensures
            final(self).inv(),
            (final(self)@, r) == old(self)@.yielded(id),
    {
        if self.windows.contains_key(id) {
            let _ = self.soft_remove(id);
            true
        } else {
            false
        }
    }

    /// Put a managed window back into the layout.
    fn take_back(&mut self, id: WindowId) -> (r: bool)
        requires
            old(self).inv(),
            old(self)@.windows.contains_key(id),
        ensures
            final(self).inv(),
            r,
            final(self)@ == old(self)@.soft_restored(id).0,
    {
        let _ = self.soft_restore(id);
        true
    }

    /// Follow an event of the desktop. Whether the status bars may show
    /// something else.
    pub fn handle(&mut self, rules: &Vec<Rule>, event: WinEvent, win: &WindowFacts) -> (r: bool)
        requires
            old(self).inv(),
        ensures
            final(self).inv(),
            (final(self)@, r) == old(self)@.handled(rules@, event, *win),
    {
        let id = WindowId(event.hwnd());
        if self.paused {
            return match event {
                WinEvent::Foreground(_) => {
                    self.set_foreground(id);
                    true
                },
                _ => false,
            };
        }
        match event {
            WinEvent::Shown(_) => {
                if self.has_hidden(id) {
                    return false;
                }
                if self.windows.contains_key(id) {
                    return self.take_back(id);
                }
                let _ = self.admit_window(rules, id, win);
                true
            },
            WinEvent::Destroyed(_) => {
                let _ = self.unmanage(id);
                true
            },
            WinEvent::Hidden(_) => {
                if self.has_hidden(id) {
                    return false;
                }
                self.yield_slot(id)
            },
            WinEvent::Cloaked(_) => self.yield_slot(id),
            WinEvent::Minimized(_) => self.yield_slot(id),
            WinEvent::Uncloaked(_) => {
                if self.windows.contains_key(id) {
                    return self.take_back(id);
                }
                let _ = self.admit_window(rules, id, win);
                true
            },
            WinEvent::Restored(_) => {
                if self.windows.contains_key(id) {
                    return self.take_back(id);
                }
                false
            },
            WinEvent::Foreground(_) => {
                self.set_foreground(id);
                true
            },
            WinEvent::MoveSizeStart(_) => false,
            WinEvent::MoveSizeEnd(_) => {
                match self.workspace_of_window(id) {
                    Some(ws) => {
                        if self.monitor_of_workspace(ws).is_some() {
                            let _ = self.retile_workspace(ws);
                        }
                    },
                    None => {},
                }
                false
            },
            WinEvent::LocationChanged(_) => false,
            WinEvent::NameChanged(_) => {
                let focused = self.focused_window == Some(id);
                if win.title_known {
                    let ghost before = self@;
                    self.windows.set_title(id, win.title.clone());
                    assert(self@ == before.retitled(id, win.title));
                }
                focused
            },
        }
    }

    // ---- the picker -------------------------------------------------------

    /// What the picker offers: the managed windows of a workspace.
    fn peek_sources_on(&self, ws: WorkspaceId) -> (r: Vec<PeekSource>)
        requires
            self.inv(),
        ensures
            r@ == self@.peek_sources(ws),
    {
        let ids = self.windows_on(ws);
        let ghost keep = self@.is_managed();
        let ghost make = |id: WindowId|
            PeekSource { window_id: id, source_hwnd: id.0, title: self@.windows[id].title };
        let mut out: Vec<PeekSource> = Vec::new();
        let mut i: usize = 0;
        proof {
            reveal(Seq::filter);
            assert(ids@.take(0).filter(keep) =~= Seq::<WindowId>::empty());
            assert(out@ =~= ids@.take(0).filter(keep).map_values(make));
        }
        while i < ids.len()
            invariant
                i <= ids@.len(),
                self.inv(),
                keep == self@.is_managed(),
                make == (|id: WindowId|
                    PeekSource { window_id: id, source_hwnd: id.0, title: self@.windows[id].title }),
                out@ == ids@.take(i as int).filter(keep).map_values(make),
            decreases ids@.len() - i,
        {
            proof {
                reveal(Seq::filter);
                assert(ids@.take(i + 1).drop_last() =~= ids@.take(i as int));
                assert(ids@.take(i + 1).last() == ids@[i as int]);
            }
            let id = ids[i];
            match self.windows.get(id) {
                Some(mw) => {
                    out.push(
                        PeekSource { window_id: id, source_hwnd: id.0, title: mw.title.clone() },
                    );
                    assert(out@ =~= ids@.take(i + 1).filter(keep).map_values(make));
                },
                None => {},
            }
            i = i + 1;
        }
        assert(ids@.take(i as int) =~= ids@);
        out
    }

    /// Close the picker where it is open; open it where it is not, with the
    /// windows of the focused workspace.
    pub fn peek_toggle(&mut self, open: bool) -> (r: Result<(), WmError>)
        requires
            old(self).inv(),
        ensures
            final(self).inv(),
            (final(self)@, r) == old(self)@.peek_toggled(open),
    {
        if open {
            self.say(Effect::PeekDismiss);
            return Ok(());
        }
        let at = match &self.focused_monitor {
            Some(m) => find_monitor(&self.monitors, m),
            None => None,
        };
        match at {
            None => Err(WmError::NoFocusedWorkspace),
            Some(i) => {
                let bounds = self.monitors[i].info.bounds;
                let ws = self.monitors[i].current_workspace;
                let sources = self.peek_sources_on(ws);
                let focused = self.focused_window;
                self.say(Effect::PeekOpen(PeekMonitor { bounds }, sources, focused));
                Ok(())
            },
        }
    }

    /// Close the picker and bring the window that was picked to the foreground.
    pub fn peek_confirm(&mut self, pick: Option<WindowId>) -> (r: Result<(), WmError>)
        requires
            old(self).inv(),
        ensures
            final(self).inv(),
            (final(self)@, r) == old(self)@.peek_confirmed(pick),
    {
        let id = match pick {
            Some(id) => id,
            None => {
                return Ok(());
            },
        };
        self.say(Effect::PeekDismiss);
        let ws = match self.workspace_of_window(id) {
            Some(ws) => ws,
            None => {
                return Ok(());
            },
        };
        self.set_foreground(id);
        match self.retile_workspace(ws) {
            Err(e) => Err(e),
            Ok(()) => {
                self.say(Effect::Focus(id));
                Ok(())
            },
        }
    }

    // ---- commands ---------------------------------------------------------

    /// Pause, or go on.
    pub fn toggle_pause(&mut self)
        requires
            old(self).inv(),
        ensures
            final(self).inv(),
            final(self)@ == old(self)@.pause_toggled(),
    {
        let paused = !self.paused;
        self.paused = paused;
        self.say(Effect::PauseChanged(paused));
        let said = if paused {
            String::from_str("Paused")
        } else {
            String::from_str("Resumed")
        };
        self.say(Effect::Notify(ToastLevel::Info, said));
    }

    /// Whether the place of a floating window after a command is a number that
    /// can be counted.
    pub fn can_dispatch(&self, cmd: &Command) -> (r: bool)
        requires
            self.inv(),
        ensures
            r == self@.can_run(*cmd),
    {
        match cmd {
            Command::MoveDirection(d) => match self.focused_float_place() {
                Some(place) => can_shift_by(place, *d),
                None => true,
            },
            Command::Resize { dir, delta_px } => match self.focused_float_place() {
                Some(place) => can_stretch_by(place, *dir, *delta_px),
                None => true,
            },
            _ => true,
        }
    }

    /// Where the focused window floats, where it does.
    fn focused_float_place(&self) -> (r: Option<Rect>)
        requires
            self.inv(),
        ensures
            r == self@.focused_float(),
    {
        let ws = match self.focused_workspace_id() {
            Some(ws) => ws,
            None => {
                return None;
            },
        };
        let f = match self.focused_window {
            Some(f) => f,
            None => {
                return None;
            },
        };
        let floating = match self.windows.get(f) {
            Some(mw) => mw.mode == WindowMode::Floating,
            None => false,
        };
        if !floating {
            return None;
        }
        match self.index_of(ws) {
            Some(i) => match self.focused_float_at(ws, i, f) {
                Some(k) => Some(self.workspaces[i].floating[k].1),
                None => None,
            },
            None => None,
        }
    }

    /// Run a command. An open picker takes the focus commands, and makes way for
    /// any other command first.
    pub fn dispatch(&mut self, cmd: Command, peek_open: bool, pick: Option<WindowId>) -> (r: Result<
        (),
        WmError,
    >)
        requires
            old(self).inv(),
            old(self)@.can_run(cmd),
        ensures
            final(self).inv(),
            (final(self)@, r) == old(self)@.dispatched(cmd, peek_open, pick),
    {
        if peek_open && !keeps_peek_open(&cmd) {
            self.say(Effect::PeekDismiss);
        }
        match cmd {
            Command::FocusDirection(d) => {
                if peek_open {
                    self.say(Effect::PeekCycle(peek_step_of(d)));
                    Ok(())
                } else {
                    self.focus_direction(d)
                }
            },
            Command::MoveDirection(d) => self.move_focused_direction(d),
            Command::Resize { dir, delta_px } => self.resize_focused(dir, delta_px),
            Command::ToggleFloat => self.toggle_float(),
            Command::ToggleMonocle => self.toggle_monocle(),
            Command::ToggleStack => self.toggle_stack(),
            Command::ToggleLayoutMode => self.toggle_layout_mode(),
            Command::StackSwallow(d) => self.stack_swallow(d),
            Command::StackPop => self.stack_pop(),
            Command::FocusStackNext => self.focus_stack_next(),
            Command::FocusStackPrev => self.focus_stack_prev(),
            Command::CloseFocused => {
                self.close_focused();
                Ok(())
            },
            Command::SwitchWorkspace(ws) => self.switch_workspace(ws),
            Command::SwitchWorkspaceOnMonitor(ws, m) => self.switch_workspace_on_monitor(ws, m),
            Command::MoveFocusedToWorkspace(ws) => self.move_focused_to_workspace(ws),
            Command::FocusMonitor(d) => {
                self.focus_monitor_direction(d);
                Ok(())
            },
            Command::TogglePause => {
                self.toggle_pause();
                Ok(())
            },
            Command::Notify(level, said) => {
                self.say(Effect::Notify(level, said));
                Ok(())
            },
            Command::PeekToggle => self.peek_toggle(peek_open),
            Command::PeekConfirm => self.peek_confirm(pick),
            Command::ReloadConfig | Command::Reap | Command::Quit | Command::ConfigChanged => Ok(
                (),
            ),
        }
    }
}

impl WindowManager {
    // ---- the status bars --------------------------------------------------

    /// Whether a workspace has a managed window.
    fn has_windows(&self, ws: WorkspaceId) -> (r: bool)
        requires
            self.inv(),
        ensures
            r == self@.is_occupied(ws),
    {
        let mut i: usize = 0;
        while i < self.windows.items.len()
            invariant
                i <= self.windows.items@.len(),
                self.inv(),
                forall|k: int| 0 <= k < i ==> (#[trigger] self.windows.items@[k]).workspace != ws,
            decreases self.windows.items@.len() - i,
        {
            if self.windows.items[i].workspace == ws {
                proof {
                    self.windows.lemma_at(i as int);
                }
                return true;
            }
            i = i + 1;
        }
        proof {
            assert forall|id: WindowId| #[trigger]
                self@.windows.contains_key(id) implies self@.windows[id].workspace != ws by {
                self.windows.lemma_found(id);
            }
        }
        false
    }

    /// Where a window is in its stack, in words.
    fn stack_marker_of(&self, id: WindowId, ws: WorkspaceId) -> (r: String)
        requires
            self.inv(),
            self@.windows.contains_key(id),
            self@.windows[id].workspace == ws,
        ensures
            r@ == self@.stack_marker(id),
    {
        let mut r = String::new();
        assert(r@ =~= Seq::<char>::empty());
        match self.index_of(ws) {
            Some(i) => {
                assert(self@.workspaces[i as int].tree.wf());
                assert(self@.ws(ws).tree == self.workspaces@[i as int].tree@);
                match self.workspaces[i].tree.stack_position(id) {
                    Some((at, size)) => {
                        r.append(" [");
                        let place = decimal_of(at as u64 + 1);
                        r.append(place.as_str());
                        r.append("/");
                        let all = decimal_of(size as u64);
                        r.append(all.as_str());
                        r.append("]");
                        assert(r@ =~= self@.stack_marker(id));
                    },
                    None => {},
                }
            },
            None => {},
        }
        r
    }

    /// The title of the focused window, and where it is in its stack.
    fn title_for_bar(&self) -> (r: String)
        requires
            self.inv(),
        ensures
            r@ == self@.bar_title(),
    {
        match self.focused_window {
            Some(id) => match self.windows.get(id) {
                Some(mw) => {
                    let mut r = mw.title.clone();
                    let marker = self.stack_marker_of(id, mw.workspace);
                    r.append(marker.as_str());
                    r
                },
                None => {
                    let none = String::new();
                    assert(none@ =~= Seq::<char>::empty());
                    none
                },
            },
            None => {
                let none = String::new();
                assert(none@ =~= Seq::<char>::empty());
                none
            },
        }
    }

    /// What the status bar of the monitor at `i` says of the workspaces.
    fn workspace_states(&self, i: usize) -> (r: Vec<WorkspaceState>)
        requires
            self.inv(),
            i < self.monitors@.len(),
        ensures
            r@ == self@.bar_contents(i as int).workspaces,
    {
        let shown = self.monitors[i].current_workspace;
        let mut out: Vec<WorkspaceState> = Vec::new();
        let mut k: usize = 0;
        while k < self.workspaces.len()
            invariant
                k <= self.workspaces@.len(),
                self.inv(),
                i < self.monitors@.len(),
                shown == self.monitors@[i as int].current_workspace,
                out@.len() == k,
                forall|j: int|
                    0 <= j < k ==> #[trigger] out@[j] == self@.bar_contents(
                        i as int,
                    ).workspaces[j],
            decreases self.workspaces@.len() - k,
        {
            assert(self@.workspaces.len() <= u32::MAX);
            let number: u32 = k as u32 + 1;
            assert(self@.workspaces[k as int] == self.workspaces@[k as int]@);
            let visible = self.workspaces[k].active_monitor.is_some();
            out.push(
                WorkspaceState {
                    id: number,
                    is_active: shown.0 == number,
                    is_visible: visible,
                    has_windows: self.has_windows(WorkspaceId(number)),
                },
            );
            k = k + 1;
        }
        assert(out@ =~= self@.bar_contents(i as int).workspaces);
        out
    }

    /// What every status bar shows, with the monitor that it is on.
    pub fn publish_bar_state(&self) -> (r: Vec<(String, BarSnapshot)>)
        requires
            self.inv(),
        ensures
            r@.len() == self@.monitors.len(),
            forall|i: int|
                0 <= i < r@.len() ==> {
                    &&& (#[trigger] r@[i]).0@ == self@.monitors[i].id@
                    &&& r@[i].1@ == self@.bar_contents(i)
                },
    {
        let mut out: Vec<(String, BarSnapshot)> = Vec::new();
        let mut i: usize = 0;
        while i < self.monitors.len()
            invariant
                i <= self.monitors@.len(),
                self.inv(),
                out@.len() == i,
                forall|k: int|
                    0 <= k < i ==> {
                        &&& (#[trigger] out@[k]).0@ == self@.monitors[k].id@
                        &&& out@[k].1@ == self@.bar_contents(k)
                    },
            decreases self.monitors@.len() - i,
        {
            let workspaces = self.workspace_states(i);
            let focused_title = self.title_for_bar();
            let right_label = if self.paused {
                Some(String::from_str("PAUSED"))
            } else {
                None
            };
            out.push(
                (
                    self.monitors[i].id.0.clone(),
                    BarSnapshot { workspaces, focused_title, right_label },
                ),
            );
            i = i + 1;
        }
        out
    }
}

fn can_shift_by(r: Rect, dir: Direction) -> (ok: bool)
    ensures
        ok == commands::can_shift(r, dir),
{
    match dir {
        Direction::Left => r.x >= i32::MIN + STEP,
        Direction::Right => r.x <= i32::MAX - STEP,
        Direction::Up => r.y >= i32::MIN + STEP,
        Direction::Down => r.y <= i32::MAX - STEP,
    }
}

fn countable(n: i64) -> (ok: bool)
    ensures
        ok == crate::rect::fits(n as int),
{
    i32::MIN as i64 <= n && n <= i32::MAX as i64
}

fn can_stretch_by(r: Rect, dir: Direction, delta: i32) -> (ok: bool)
    ensures
        ok == commands::can_stretch(r, dir, delta as int),
{
    let w: i64 = r.w as i64 + delta as i64;
    let h: i64 = r.h as i64 + delta as i64;
    let wide: i64 = if w >= MIN_DIM as i64 {
        w
    } else {
        MIN_DIM as i64
    };
    let high: i64 = if h >= MIN_DIM as i64 {
        h
    } else {
        MIN_DIM as i64
    };
    match dir {
        Direction::Right => countable(w),
        Direction::Down => countable(h),
        Direction::Left => countable(w) && countable(wide - r.w as i64) && countable(
            r.x as i64 - (wide - r.w as i64),
        ),
        Direction::Up => countable(h) && countable(high - r.h as i64) && countable(
            r.y as i64 - (high - r.h as i64),
        ),
    }
}

} // verus!
