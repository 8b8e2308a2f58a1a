//! The commands that the window manager accepts, from hotkeys, scripts and
//! clicks.

use crate::ids::{MonitorId, WorkspaceId};
use crate::rect::Direction;
use crate::toast::ToastLevel;
use vstd::prelude::*;

verus! {

#[derive(Debug, Clone)]
pub enum Command {
    FocusDirection(Direction),
    MoveDirection(Direction),
    Resize { dir: Direction, delta_px: i32 },
    ToggleFloat,
    ToggleMonocle,
    ToggleStack,
    /// The other layout mode for the focused workspace.
    ToggleLayoutMode,
    StackSwallow(Direction),
    StackPop,
    FocusStackNext,
    FocusStackPrev,
    CloseFocused,
    SwitchWorkspace(WorkspaceId),
    /// Another workspace for a given monitor: a click on its bar.
    SwitchWorkspaceOnMonitor(WorkspaceId, MonitorId),
    MoveFocusedToWorkspace(WorkspaceId),
    FocusMonitor(Direction),
    TogglePause,
    ReloadConfig,
    /// Show a notification.
    Notify(ToastLevel, String),
    /// Open the window picker, or close it.
    PeekToggle,
    /// Focus the window that the picker has highlighted.
    PeekConfirm,
    /// Forget windows that are no longer there.
    Reap,
    Quit,
    /// The configuration file has changed.
    ConfigChanged,
}

/// What a command says, whatever the string that it holds.
pub enum Meaning {
    Plain(Command),
    Notify(ToastLevel, Seq<char>),
}

impl Command {
    pub open spec fn meaning(self) -> Meaning {
        match self {
            Command::Notify(level, text) => Meaning::Notify(level, text@),
            other => Meaning::Plain(other),
        }
    }

    /// The same command once more.
    pub fn copied(&self) -> (r: Command)
        ensures
            r == *self,
    {
        match self {
            Command::FocusDirection(d) => Command::FocusDirection(*d),
            Command::MoveDirection(d) => Command::MoveDirection(*d),
            Command::Resize { dir, delta_px } => Command::Resize {
                dir: *dir,
                delta_px: *delta_px,
            },
            Command::ToggleFloat => Command::ToggleFloat,
            Command::ToggleMonocle => Command::ToggleMonocle,
            Command::ToggleStack => Command::ToggleStack,
            Command::ToggleLayoutMode => Command::ToggleLayoutMode,
            Command::StackSwallow(d) => Command::StackSwallow(*d),
            Command::StackPop => Command::StackPop,
            Command::FocusStackNext => Command::FocusStackNext,
            Command::FocusStackPrev => Command::FocusStackPrev,
            Command::CloseFocused => Command::CloseFocused,
            Command::SwitchWorkspace(ws) => Command::SwitchWorkspace(*ws),
            Command::SwitchWorkspaceOnMonitor(ws, m) => Command::SwitchWorkspaceOnMonitor(
                *ws,
                m.copied(),
            ),
            Command::MoveFocusedToWorkspace(ws) => Command::MoveFocusedToWorkspace(*ws),
            Command::FocusMonitor(d) => Command::FocusMonitor(*d),
            Command::TogglePause => Command::TogglePause,
            Command::ReloadConfig => Command::ReloadConfig,
            Command::Notify(level, text) => Command::Notify(*level, text.clone()),
            Command::PeekToggle => Command::PeekToggle,
            Command::PeekConfirm => Command::PeekConfirm,
            Command::Reap => Command::Reap,
            Command::Quit => Command::Quit,
            Command::ConfigChanged => Command::ConfigChanged,
        }
    }
}

} // verus!
