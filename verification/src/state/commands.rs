//! Commands inside a workspace.

use crate::desk::Effect;
use crate::ids::{WindowId, WorkspaceId};
use crate::model;
use crate::model::commands;
use crate::model::{WmError, MIN_DIM, STEP};
use crate::rect::{max_of, Direction, Rect};
use crate::state::WindowManager;
use crate::text::decimal_of;
use crate::toast::ToastLevel;
use crate::tree;
use crate::tree::LayoutMode;
use crate::window::WindowMode;
use crate::workspace::WorkspaceModel;
use vstd::prelude::*;
use vstd::string::StringExecFns;

verus! {

/// A floating window's place after a move command.
fn shift(r: Rect, dir: Direction) -> (s: Rect)
    requires
        commands::can_shift(r, dir),
    ensures
        s == commands::shifted(r, dir),
{
    match dir {
        Direction::Left => Rect { x: r.x - STEP, y: r.y, w: r.w, h: r.h },
        Direction::Right => Rect { x: r.x + STEP, y: r.y, w: r.w, h: r.h },
        Direction::Up => Rect { x: r.x, y: r.y - STEP, w: r.w, h: r.h },
        Direction::Down => Rect { x: r.x, y: r.y + STEP, w: r.w, h: r.h },
    }
}

/// A floating window's place after a resize command.
fn stretch(r: Rect, dir: Direction, delta: i32) -> (s: Rect)
    requires
        commands::can_stretch(r, dir, delta as int),
    ensures
        s == commands::stretched(r, dir, delta as int),
{
    match dir {
        Direction::Right => Rect { x: r.x, y: r.y, w: max_of(r.w + delta, MIN_DIM), h: r.h },
        Direction::Down => Rect { x: r.x, y: r.y, w: r.w, h: max_of(r.h + delta, MIN_DIM) },
        Direction::Left => {
            let w: i32 = max_of(r.w + delta, MIN_DIM);
            Rect { x: r.x - (w - r.w), y: r.y, w, h: r.h }
        },
        Direction::Up => {
            let h: i32 = max_of(r.h + delta, MIN_DIM);
            Rect { x: r.x, y: r.y - (h - r.h), w: r.w, h }
        },
    }
}

/// The announcement of a layout mode.
fn notice(mode: LayoutMode, ws: WorkspaceId) -> (s: String)
    ensures
        s@ == commands::mode_notice(mode, ws),
{
    let mut s = String::from_str("Layout: ");
    match mode {
        LayoutMode::Dwindle => {
            s.append("dwindle");
        },
        LayoutMode::Spiral => {
            s.append("spiral");
        },
    }
    s.append(" (ws ");
    let number = decimal_of(ws.0 as u64);
    s.append(number.as_str());
    s.append(")");
    s
}

impl WindowManager {
    fn area_of(&self, ws: WorkspaceId) -> (r: Rect)
        requires
            self.inv(),
        ensures
            r == self@.work_area_or(ws, model::nowhere()),
            r.valid(),
    {
        match self.workspace_work_area(ws) {
            Some(area) => area,
            None => Rect { x: 0, y: 0, w: 0, h: 0 },
        }
    }

    /// Focus the neighbour of the focused tile in direction `dir`.
    pub fn focus_direction(&mut self, dir: Direction) -> (r: Result<(), WmError>)
        requires
            old(self).inv(),
        ensures
            final(self).inv(),
            (final(self)@, r) == old(self)@.focused_toward(dir),
    {
        let ws = match self.focused_workspace_id() {
            Some(ws) => ws,
            None => {
                return Err(WmError::NoFocusedWorkspace);
            },
        };
        let area = self.area_of(ws);
        let ghost before = self@;
        match self.index_of(ws) {
            Some(i) => {
                assert(before.workspaces[i as int].tree.wf());
                proof {
                    model::lemma_tiles_can_inset(before.ws(ws).tree, area, 0);
                }
                let next = self.workspaces[i].tree.focus_in_direction(dir, area);
                match next {
                    Some(t) => {
                        assert(self@.workspaces =~= before.set_tree(
                            ws,
                            before.ws(ws).tree.focused_on(t),
                        ).workspaces);
                        self.raise_window(Some(t));
                    },
                    None => {
                        assert(self@.workspaces =~= before.workspaces);
                    },
                }
            },
            None => {},
        }
        Ok(())
    }

    /// The position of the focused window among the floating ones of the
    /// focused workspace, at position `i`.
    pub(crate) fn focused_float_at(&self, ws: WorkspaceId, i: usize, f: WindowId) -> (r: Option<usize>)
        requires
            self.inv(),
            self@.knows(ws),
            i == ws.0 - 1,
        ensures
            match r {
                Some(k) => k < self.workspaces@[i as int].floating@.len()
                    && self.workspaces@[i as int].floating@[k as int].0 == f && self@.ws(ws).floats(
                    f,
                ) && k == commands::float_of(self@.ws(ws), f),
                None => !self@.ws(ws).floats(f),
            },
    {
        let r = self.workspaces[i].floating_at(f);
        proof {
            let m = self@.ws(ws);
            assert(m == self.workspaces@[i as int]@);
            if r is Some {
                let k = r->0 as int;
                assert(m.floating[k].0 == f);
                assert(commands::is_float(m, k, f));
                let c = commands::float_of(m, f);
                assert(commands::is_float(m, c, f));
                assert(c == k);
            }
        }
        r
    }

    /// Move the focused window in direction `dir`: a floating one by
    /// [`STEP`] pixels, a tiled one into its neighbour's tile.
    pub fn move_focused_direction(&mut self, dir: Direction) -> (r: Result<(), WmError>)
        requires
            old(self).inv(),
            old(self)@.focused_float() matches Some(r) ==> commands::can_shift(r, dir),
        ensures
            final(self).inv(),
            (final(self)@, r) == old(self)@.moved_toward(dir),
    {
        let ws = match self.focused_workspace_id() {
            Some(ws) => ws,
            None => {
                return Err(WmError::NoFocusedWorkspace);
            },
        };
        let f = match self.focused_window {
            Some(f) => f,
            None => {
                return Ok(());
            },
        };
        let ghost before = self@;
        let floating = match self.windows.get(f) {
            Some(mw) => mw.mode == WindowMode::Floating,
            None => false,
        };
        if floating {
            match self.index_of(ws) {
                Some(i) => match self.focused_float_at(ws, i, f) {
                    Some(k) => {
                        let (id, place) = self.workspaces[i].floating[k];
                        let moved = shift(place, dir);
                        self.workspaces[i].floating.set(k, (f, moved));
                        assert(self@.workspaces =~= before.set_ws(
                            ws,
                            commands::refloated(before.ws(ws), f, moved),
                        ).workspaces);
                        return self.retile_workspace(ws);
                    },
                    None => {},
                },
                None => {},
            }
            return Ok(());
        }
        let area = self.area_of(ws);
        match self.index_of(ws) {
            Some(i) => {
                assert(before.workspaces[i as int].tree.wf());
                proof {
                    model::lemma_tiles_can_inset(before.ws(ws).tree, area, 0);
                }
                let moved = self.workspaces[i].tree.move_in_direction(f, dir, area);
                if moved {
                    proof {
                        let other = before.ws(ws).tree.neighbour(f, dir, area)->0;
                        assert(self@.workspaces =~= before.set_tree(
                            ws,
                            before.ws(ws).tree.swapped(f, other),
                        ).workspaces);
                    }
                    return self.retile_workspace(ws);
                }
                assert(self@.workspaces =~= before.workspaces);
            },
            None => {},
        }
        Ok(())
    }

    /// Resize the focused window by `delta_px` pixels: a floating one at the edge
    /// in direction `dir`, a tiled one by pushing a split that way.
    pub fn resize_focused(&mut self, dir: Direction, delta_px: i32) -> (r: Result<(), WmError>)
        requires
            old(self).inv(),
            old(self)@.focused_float() matches Some(r) ==> commands::can_stretch(
                r,
                dir,
                delta_px as int,
            ),
        ensures
            final(self).inv(),
            (final(self)@, r) == old(self)@.resized_toward(dir, delta_px as int),
    {
        let ws = match self.focused_workspace_id() {
            Some(ws) => ws,
            None => {
                return Err(WmError::NoFocusedWorkspace);
            },
        };
        let f = match self.focused_window {
            Some(f) => f,
            None => {
                return Ok(());
            },
        };
        let ghost before = self@;
        let floating = match self.windows.get(f) {
            Some(mw) => mw.mode == WindowMode::Floating,
            None => false,
        };
        if floating {
            match self.index_of(ws) {
                Some(i) => match self.focused_float_at(ws, i, f) {
                    Some(k) => {
                        let (id, place) = self.workspaces[i].floating[k];
                        let sized = stretch(place, dir, delta_px);
                        self.workspaces[i].floating.set(k, (f, sized));
                        assert(self@.workspaces =~= before.set_ws(
                            ws,
                            commands::refloated(before.ws(ws), f, sized),
                        ).workspaces);
                        return self.retile_workspace(ws);
                    },
                    None => {},
                },
                None => {},
            }
            return Ok(());
        }
        let area = self.area_of(ws);
        match self.index_of(ws) {
            Some(i) => {
                assert(before.workspaces[i as int].tree.wf());
                proof {
                    model::lemma_tiles_can_inset(before.ws(ws).tree, area, 0);
                }
                self.workspaces[i].tree.resize(f, dir, delta_px, area);
                assert(self@.workspaces =~= before.set_tree(
                    ws,
                    before.ws(ws).tree.resized(f, dir, delta_px as int, area),
                ).workspaces);
            },
            None => {},
        }
        self.retile_workspace(ws)
    }

    /// Switch monocle mode on the focused workspace.
    pub fn toggle_monocle(&mut self) -> (r: Result<(), WmError>)
        requires
            old(self).inv(),
        ensures
            final(self).inv(),
            (final(self)@, r) == old(self)@.monocle_toggled(),
    {
        let ws = match self.focused_workspace_id() {
            Some(ws) => ws,
            None => {
                return Err(WmError::NoFocusedWorkspace);
            },
        };
        let ghost before = self@;
        match self.index_of(ws) {
            Some(i) => {
                let on = self.workspaces[i].monocle;
                self.workspaces[i].monocle = !on;
                assert(self@.workspaces =~= before.set_ws(
                    ws,
                    WorkspaceModel { monocle: !before.ws(ws).monocle, ..before.ws(ws) },
                ).workspaces);
            },
            None => {},
        }
        self.retile_workspace(ws)
    }

    /// Use the other layout mode on the focused workspace from the next window
    /// on, and announce it. The tiles stay as they are.
    pub fn toggle_layout_mode(&mut self) -> (r: Result<(), WmError>)
        requires
            old(self).inv(),
        ensures
            final(self).inv(),
            (final(self)@, r) == old(self)@.mode_toggled(),
    {
        let ws = match self.focused_workspace_id() {
            Some(ws) => ws,
            None => {
                return Err(WmError::NoFocusedWorkspace);
            },
        };
        let ghost before = self@;
        match self.index_of(ws) {
            Some(i) => {
                let mode = match self.workspaces[i].tree.layout_mode() {
                    LayoutMode::Dwindle => LayoutMode::Spiral,
                    LayoutMode::Spiral => LayoutMode::Dwindle,
                };
                assert(before.workspaces[i as int].tree.wf());
                self.workspaces[i].tree.set_layout_mode(mode);
                assert(self@.workspaces =~= before.set_tree(
                    ws,
                    tree::Layout { mode, ..before.ws(ws).tree },
                ).workspaces);
                self.say(Effect::Notify(ToastLevel::Info, notice(mode, ws)));
            },
            None => {},
        }
        Ok(())
    }

    /// Toggle stack mode on the focused tile.
    pub fn toggle_stack(&mut self) -> (r: Result<(), WmError>)
        requires
            old(self).inv(),
        ensures
            final(self).inv(),
            (final(self)@, r) == old(self)@.stack_toggled(),
    {
        let ws = match self.focused_workspace_id() {
            Some(ws) => ws,
            None => {
                return Err(WmError::NoFocusedWorkspace);
            },
        };
        let ghost before = self@;
        match self.index_of(ws) {
            Some(i) => {
                assert(before.workspaces[i as int].tree.wf());
                let changed = self.workspaces[i].tree.toggle_stack_focused();
                if changed {
                    assert(self@.workspaces =~= before.set_tree(
                        ws,
                        before.ws(ws).tree.toggled(),
                    ).workspaces);
                    self.focused_window = self.tree_focus(ws);
                } else {
                    assert(self@.workspaces =~= before.workspaces);
                }
            },
            None => {},
        }
        self.retile_workspace(ws)
    }

    /// Focus the window that the tree of `ws` has the focus on, bring it to the
    /// foreground, and retile.
    fn settle(&mut self, ws: WorkspaceId) -> (r: Result<(), WmError>)
        requires
            old(self).inv(),
            old(self)@.tree_focus(ws) is Some,
        ensures
            final(self).inv(),
            (final(self)@, r) == old(self)@.settled(ws),
    {
        match self.tree_focus(ws) {
            Some(w) => {
                self.focused_window = Some(w);
                self.desk.say(Effect::Focus(w));
            },
            None => {},
        }
        self.retile_workspace(ws)
    }

    /// Pull the neighbour in direction `dir` into the focused tile.
    pub fn stack_swallow(&mut self, dir: Direction) -> (r: Result<(), WmError>)
        requires
            old(self).inv(),
        ensures
            final(self).inv(),
            (final(self)@, r) == old(self)@.neighbour_swallowed(dir),
    {
        let ws = match self.focused_workspace_id() {
            Some(ws) => ws,
            None => {
                return Err(WmError::NoFocusedWorkspace);
            },
        };
        let area = self.area_of(ws);
        let ghost before = self@;
        match self.index_of(ws) {
            Some(i) => {
                assert(before.workspaces[i as int].tree.wf());
                proof {
                    model::lemma_tiles_can_inset(before.ws(ws).tree, area, 0);
                }
                let swallowed = self.workspaces[i].tree.stack_swallow_dir(dir, area);
                if swallowed {
                    assert(self@.workspaces =~= before.set_tree(
                        ws,
                        before.ws(ws).tree.swallowed(dir, area),
                    ).workspaces);
                    return self.settle(ws);
                }
                assert(self@.workspaces =~= before.workspaces);
            },
            None => {},
        }
        Ok(())
    }

    /// Give the focused stack member a tile of its own.
    pub fn stack_pop(&mut self) -> (r: Result<(), WmError>)
        requires
            old(self).inv(),
        ensures
            final(self).inv(),
            (final(self)@, r) == old(self)@.member_popped(),
    {
        let ws = match self.focused_workspace_id() {
            Some(ws) => ws,
            None => {
                return Err(WmError::NoFocusedWorkspace);
            },
        };
        let ghost before = self@;
        match self.index_of(ws) {
            Some(i) => {
                assert(before.workspaces[i as int].tree.wf());
                let popped = self.workspaces[i].tree.stack_pop_focused();
                if popped {
                    assert(self@.workspaces =~= before.set_tree(
                        ws,
                        before.ws(ws).tree.popped(),
                    ).workspaces);
                    return self.settle(ws);
                }
                assert(self@.workspaces =~= before.workspaces);
            },
            None => {},
        }
        Ok(())
    }

    /// Show the next member of the focused stack.
    pub fn focus_stack_next(&mut self) -> (r: Result<(), WmError>)
        requires
            old(self).inv(),
        ensures
            final(self).inv(),
            (final(self)@, r) == old(self)@.stack_cycled(true),
    {
        self.cycle_stack(true)
    }

    /// Show the previous member of the focused stack.
    pub fn focus_stack_prev(&mut self) -> (r: Result<(), WmError>)
        requires
            old(self).inv(),
        ensures
            final(self).inv(),
            (final(self)@, r) == old(self)@.stack_cycled(false),
    {
        self.cycle_stack(false)
    }

    fn cycle_stack(&mut self, forward: bool) -> (r: Result<(), WmError>)
        requires
            old(self).inv(),
        ensures
            final(self).inv(),
            (final(self)@, r) == old(self)@.stack_cycled(forward),
    {
        let ws = match self.focused_workspace_id() {
            Some(ws) => ws,
            None => {
                return Err(WmError::NoFocusedWorkspace);
            },
        };
        let ghost before = self@;
        match self.index_of(ws) {
            Some(i) => {
                assert(before.workspaces[i as int].tree.wf());
                let next = if forward {
                    self.workspaces[i].tree.focus_stack_next()
                } else {
                    self.workspaces[i].tree.focus_stack_prev()
                };
                match next {
                    Some(w) => {
                        assert(self@.workspaces =~= before.set_tree(
                            ws,
                            before.ws(ws).tree.cycled(forward),
                        ).workspaces);
                        self.focused_window = Some(w);
                        match self.retile_workspace(ws) {
                            Ok(()) => {},
                            Err(e) => {
                                return Err(e);
                            },
                        }
                        self.desk.say(Effect::Focus(w));
                    },
                    None => {
                        assert(self@.workspaces =~= before.workspaces);
                    },
                }
            },
            None => {},
        }
        Ok(())
    }

    /// Let the focused window float where it is, or tile it again.
    pub fn toggle_float(&mut self) -> (r: Result<(), WmError>)
        requires
            old(self).inv(),
        ensures
            final(self).inv(),
            (final(self)@, r) == old(self)@.float_toggled(),
    {
        let id = match self.focused_window {
            Some(id) => id,
            None => {
                return Ok(());
            },
        };
        let (ws, mode) = match self.windows.get(id) {
            Some(mw) => (mw.workspace, mw.mode),
            None => {
                return Ok(());
            },
        };
        match mode {
            WindowMode::Tiled => {
                self.windows.set_mode(id, WindowMode::Floating);
                let place = match self.desk.measure(id) {
                    Some(r) => r,
                    None => Rect { x: 100, y: 100, w: 800, h: 600 },
                };
                let ghost asked = self@;
                match self.index_of(ws) {
                    Some(i) => {
                        assert(asked.workspaces[i as int].tree.wf());
                        self.workspaces[i].tree.remove(id);
                        self.workspaces[i].floating.push((id, place));
                        assert(self@.workspaces =~= asked.set_ws(
                            ws,
                            WorkspaceModel {
                                tree: asked.ws(ws).tree.removed(id),
                                floating: asked.ws(ws).floating.push((id, place)),
                                ..asked.ws(ws)
                            },
                        ).workspaces);
                    },
                    None => {},
                }
            },
            WindowMode::Floating => {
                let area = self.area_of(ws);
                self.windows.set_mode(id, WindowMode::Tiled);
                let ghost marked = self@;
                match self.index_of(ws) {
                    Some(i) => {
                        assert(marked.workspaces[i as int].tree.wf());
                        proof {
                            model::lemma_tiles_can_inset(marked.ws(ws).tree, area, 0);
                        }
                        self.workspaces[i].unfloat(id);
                        self.workspaces[i].tree.insert(id, area);
                        assert(self@.workspaces =~= marked.set_ws(
                            ws,
                            WorkspaceModel {
                                tree: marked.ws(ws).tree.inserted(id, area),
                                floating: crate::workspace::unfloated(marked.ws(ws).floating, id),
                                ..marked.ws(ws)
                            },
                        ).workspaces);
                    },
                    None => {},
                }
            },
        }
        self.retile_workspace(ws)
    }

    /// Ask the focused window to close.
    pub fn close_focused(&mut self)
        requires
            old(self).inv(),
        ensures
            final(self).inv(),
            final(self)@ == (match old(self)@.focused_window {
                Some(id) => old(self)@.say(crate::desk::Act::Close(id)),
                None => old(self)@,
            }),
    {
        match self.focused_window {
            Some(id) => {
                self.say(Effect::Close(id));
            },
            None => {},
        }
    }
}

} // verus!
