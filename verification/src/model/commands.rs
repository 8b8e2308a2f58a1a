//! Commands inside a workspace.

use crate::desk::Act;
use crate::ids::{WindowId, WorkspaceId};
use crate::model;
use crate::model::{Outcome, WmError, World, MIN_DIM, STEP};
use crate::rect;
use crate::rect::{Direction, Rect};
use crate::text;
use crate::toast::ToastLevel;
use crate::tree::{Layout, LayoutMode};
use crate::window::{ManagedWindow, WindowMode};
use crate::workspace;
use crate::workspace::WorkspaceModel;
use vstd::prelude::*;

verus! {

/// How far a move command shifts a floating window.
pub open spec fn step_of(dir: Direction) -> (int, int) {
    match dir {
        Direction::Left => (-STEP as int, 0),
        Direction::Right => (STEP as int, 0),
        Direction::Up => (0, -STEP as int),
        Direction::Down => (0, STEP as int),
    }
}

/// A floating window's place after a move command.
pub open spec fn shifted(r: Rect, dir: Direction) -> Rect {
    let (dx, dy) = step_of(dir);
    Rect { x: (r.x + dx) as i32, y: (r.y + dy) as i32, ..r }
}

/// Whether a floating window can be moved without leaving the coordinates.
pub open spec fn can_shift(r: Rect, dir: Direction) -> bool {
    let (dx, dy) = step_of(dir);
    rect::fits(r.x + dx) && rect::fits(r.y + dy)
}

/// A floating window's place after a resize command. The edge in direction
/// `dir` moves; a side never becomes shorter than [`MIN_DIM`].
pub open spec fn stretched(r: Rect, dir: Direction, delta: int) -> Rect {
    let w = rect::larger(r.w + delta, MIN_DIM as int);
    let h = rect::larger(r.h + delta, MIN_DIM as int);
    match dir {
        Direction::Right => Rect { w: w as i32, ..r },
        Direction::Down => Rect { h: h as i32, ..r },
        Direction::Left => Rect { x: (r.x - (w - r.w)) as i32, w: w as i32, ..r },
        Direction::Up => Rect { y: (r.y - (h - r.h)) as i32, h: h as i32, ..r },
    }
}

/// Whether a floating window can be resized without leaving the coordinates.
pub open spec fn can_stretch(r: Rect, dir: Direction, delta: int) -> bool {
    let w = rect::larger(r.w + delta, MIN_DIM as int);
    let h = rect::larger(r.h + delta, MIN_DIM as int);
    match dir {
        Direction::Right => rect::fits(r.w + delta),
        Direction::Down => rect::fits(r.h + delta),
        Direction::Left => {
            &&& rect::fits(r.w + delta)
            &&& rect::fits(w - r.w)
            &&& rect::fits(r.x - (w - r.w))
        },
        Direction::Up => {
            &&& rect::fits(r.h + delta)
            &&& rect::fits(h - r.h)
            &&& rect::fits(r.y - (h - r.h))
        },
    }
}

/// Whether the floating window at `i` is the first entry of `id`.
pub open spec fn is_float(m: WorkspaceModel, i: int, id: WindowId) -> bool {
    &&& 0 <= i < m.floating.len()
    &&& m.floating[i].0 == id
    &&& forall|j: int| 0 <= j < i ==> (#[trigger] m.floating[j]).0 != id
}

/// Where `id` floats.
pub open spec fn float_of(m: WorkspaceModel, id: WindowId) -> int {
    choose|i: int| is_float(m, i, id)
}

/// With a floating window somewhere else.
pub open spec fn refloated(m: WorkspaceModel, id: WindowId, place: Rect) -> WorkspaceModel {
    WorkspaceModel { floating: m.floating.update(float_of(m, id), (id, place)), ..m }
}

/// The name of a layout mode.
pub open spec fn mode_name(mode: LayoutMode) -> Seq<char> {
    match mode {
        LayoutMode::Dwindle => "dwindle"@,
        LayoutMode::Spiral => "spiral"@,
    }
}

/// The other layout mode.
pub open spec fn other_mode(mode: LayoutMode) -> LayoutMode {
    match mode {
        LayoutMode::Dwindle => LayoutMode::Spiral,
        LayoutMode::Spiral => LayoutMode::Dwindle,
    }
}

/// What is announced when a workspace changes its layout mode.
pub open spec fn mode_notice(mode: LayoutMode, ws: WorkspaceId) -> Seq<char> {
    "Layout: "@ + mode_name(mode) + " (ws "@ + text::decimal(ws.0 as nat) + ")"@
}

impl World {
    /// Whether a window is managed as a floating one.
    pub open spec fn is_floating(self, id: WindowId) -> bool {
        self.windows.contains_key(id) && self.windows[id].mode == WindowMode::Floating
    }

    /// The place of the focused window, where it floats on the focused
    /// workspace.
    pub open spec fn focused_float(self) -> Option<Rect> {
        match (self.focused_workspace(), self.focused_window) {
            (Some(ws), Some(f)) => if self.is_floating(f) && self.knows(ws) && self.ws(ws).floats(
                f,
            ) {
                Some(self.ws(ws).floating[float_of(self.ws(ws), f)].1)
            } else {
                None
            },
            _ => None,
        }
    }

    /// With the focus on the neighbour in direction `dir`.
    pub open spec fn focused_toward(self, dir: Direction) -> Outcome {
        match self.focused_workspace() {
            None => (self, Err(WmError::NoFocusedWorkspace)),
            Some(ws) => {
                let area = self.work_area_or(ws, model::nowhere());
                let next = match self.tree_focus(ws) {
                    Some(f) => self.ws(ws).tree.neighbour(f, dir, area),
                    None => None,
                };
                match next {
                    Some(t) => (
                        self.set_tree(ws, self.ws(ws).tree.focused_on(t)).raising(Some(t)),
                        Ok(()),
                    ),
                    None => (self, Ok(())),
                }
            },
        }
    }

    /// With the focused window moved: a floating one by a step, a tiled one into
    /// its neighbour's tile.
    pub open spec fn moved_toward(self, dir: Direction) -> Outcome {
        match (self.focused_workspace(), self.focused_window) {
            (None, _) => (self, Err(WmError::NoFocusedWorkspace)),
            (Some(_), None) => (self, Ok(())),
            (Some(ws), Some(f)) => if self.is_floating(f) {
                match self.focused_float() {
                    Some(r) => self.set_ws(
                        ws,
                        refloated(self.ws(ws), f, shifted(r, dir)),
                    ).retiled(ws),
                    None => (self, Ok(())),
                }
            } else {
                let area = self.work_area_or(ws, model::nowhere());
                let target = if self.knows(ws) {
                    self.ws(ws).tree.neighbour(f, dir, area)
                } else {
                    None
                };
                match target {
                    Some(other) => self.set_tree(
                        ws,
                        self.ws(ws).tree.swapped(f, other),
                    ).retiled(ws),
                    None => (self, Ok(())),
                }
            },
        }
    }

    /// With the focused window resized: a floating one at the edge in direction
    /// `dir`, a tiled one by pushing a split that way.
    pub open spec fn resized_toward(self, dir: Direction, delta: int) -> Outcome {
        match (self.focused_workspace(), self.focused_window) {
            (None, _) => (self, Err(WmError::NoFocusedWorkspace)),
            (Some(_), None) => (self, Ok(())),
            (Some(ws), Some(f)) => if self.is_floating(f) {
                match self.focused_float() {
                    Some(r) => self.set_ws(
                        ws,
                        refloated(self.ws(ws), f, stretched(r, dir, delta)),
                    ).retiled(ws),
                    None => (self, Ok(())),
                }
            } else {
                let area = self.work_area_or(ws, model::nowhere());
                let pushed = if self.knows(ws) {
                    self.set_tree(ws, self.ws(ws).tree.resized(f, dir, delta, area))
                } else {
                    self
                };
                pushed.retiled(ws)
            },
        }
    }

    /// With monocle mode switched on the focused workspace.
    pub open spec fn monocle_toggled(self) -> Outcome {
        match self.focused_workspace() {
            None => (self, Err(WmError::NoFocusedWorkspace)),
            Some(ws) => {
                let switched = if self.knows(ws) {
                    self.set_ws(
                        ws,
                        WorkspaceModel { monocle: !self.ws(ws).monocle, ..self.ws(ws) },
                    )
                } else {
                    self
                };
                switched.retiled(ws)
            },
        }
    }

    /// With the other layout mode on the focused workspace, which is announced.
    pub open spec fn mode_toggled(self) -> Outcome {
        match self.focused_workspace() {
            None => (self, Err(WmError::NoFocusedWorkspace)),
            Some(ws) => if self.knows(ws) {
                let mode = other_mode(self.ws(ws).tree.mode);
                (
                    self.set_tree(ws, Layout { mode, ..self.ws(ws).tree }).say(
                        Act::Notify(ToastLevel::Info, mode_notice(mode, ws)),
                    ),
                    Ok(()),
                )
            } else {
                (self, Ok(()))
            },
        }
    }

    /// With stack mode toggled on the focused tile.
    pub open spec fn stack_toggled(self) -> Outcome {
        match self.focused_workspace() {
            None => (self, Err(WmError::NoFocusedWorkspace)),
            Some(ws) => if self.knows(ws) && self.ws(ws).tree.tree is Some {
                let toggled = self.set_tree(ws, self.ws(ws).tree.toggled());
                World { focused_window: toggled.tree_focus(ws), ..toggled }.retiled(ws)
            } else {
                self.retiled(ws)
            },
        }
    }

    /// With the tree's focused window focused and in the foreground, and the
    /// workspace retiled.
    pub open spec fn settled(self, ws: WorkspaceId) -> Outcome {
        let f = self.tree_focus(ws)->0;
        World { focused_window: Some(f), ..self }.say(Act::Focus(f)).retiled(ws)
    }

    /// With the neighbour in direction `dir` stacked onto the focused tile.
    pub open spec fn neighbour_swallowed(self, dir: Direction) -> Outcome {
        match self.focused_workspace() {
            None => (self, Err(WmError::NoFocusedWorkspace)),
            Some(ws) => {
                let area = self.work_area_or(ws, model::nowhere());
                let next = match self.tree_focus(ws) {
                    Some(f) => self.ws(ws).tree.neighbour(f, dir, area),
                    None => None,
                };
                if next is Some {
                    self.set_tree(ws, self.ws(ws).tree.swallowed(dir, area)).settled(ws)
                } else {
                    (self, Ok(()))
                }
            },
        }
    }

    /// With the focused stack member in a tile of its own.
    pub open spec fn member_popped(self) -> Outcome {
        match self.focused_workspace() {
            None => (self, Err(WmError::NoFocusedWorkspace)),
            Some(ws) => if self.knows(ws) && self.ws(ws).tree.can_pop() {
                self.set_tree(ws, self.ws(ws).tree.popped()).settled(ws)
            } else {
                (self, Ok(()))
            },
        }
    }

    /// With the next or the previous member of the focused stack visible.
    pub open spec fn stack_cycled(self, forward: bool) -> Outcome {
        match self.focused_workspace() {
            None => (self, Err(WmError::NoFocusedWorkspace)),
            Some(ws) => if self.knows(ws) && self.ws(ws).tree.tree is Some && self.ws(
                ws,
            ).tree.focused_node() is Stack {
                let cycled = self.set_tree(ws, self.ws(ws).tree.cycled(forward));
                let f = cycled.tree_focus(ws)->0;
                match (World { focused_window: Some(f), ..cycled }).retiled(ws) {
                    (w, Ok(())) => (w.say(Act::Focus(f)), Ok(())),
                    (w, Err(e)) => (w, Err(e)),
                }
            } else {
                (self, Ok(()))
            },
        }
    }

    /// With the focused window floating where it is, or tiled again.
    pub open spec fn float_toggled(self) -> Outcome {
        match self.focused_window {
            None => (self, Ok(())),
            Some(id) => if !self.windows.contains_key(id) {
                (self, Ok(()))
            } else {
                let ws = self.windows[id].workspace;
                match self.windows[id].mode {
                    WindowMode::Tiled => {
                        let place = match self.desk.answer() {
                            Some(r) => r,
                            None => model::fallback_place(),
                        };
                        let asked = World {
                            windows: self.windows.insert(
                                id,
                                ManagedWindow { mode: WindowMode::Floating, ..self.windows[id] },
                            ),
                            desk: self.desk.asked(id),
                            ..self
                        };
                        let out = if asked.knows(ws) {
                            asked.set_ws(
                                ws,
                                WorkspaceModel {
                                    tree: asked.ws(ws).tree.removed(id),
                                    floating: asked.ws(ws).floating.push((id, place)),
                                    ..asked.ws(ws)
                                },
                            )
                        } else {
                            asked
                        };
                        out.retiled(ws)
                    },
                    WindowMode::Floating => {
                        let area = self.work_area_or(ws, model::nowhere());
                        let marked = World {
                            windows: self.windows.insert(
                                id,
                                ManagedWindow { mode: WindowMode::Tiled, ..self.windows[id] },
                            ),
                            ..self
                        };
                        let back = if marked.knows(ws) {
                            marked.set_ws(
                                ws,
                                WorkspaceModel {
                                    tree: marked.ws(ws).tree.inserted(id, area),
                                    floating: workspace::unfloated(marked.ws(ws).floating, id),
                                    ..marked.ws(ws)
                                },
                            )
                        } else {
                            marked
                        };
                        back.retiled(ws)
                    },
                }
            },
        }
    }
}

} // verus!
