//! The menu of the tray icon.

use crate::command::Command;
use vstd::prelude::*;

verus! {

/// What a menu entry asks of the window manager.
#[derive(Debug, Clone, Copy, PartialEq, Eq, Structural)]
pub enum TrayAction {
    TogglePause,
    ReloadConfig,
    Quit,
}

/// The paths that menu entries open.
#[derive(Debug, Clone)]
pub struct TrayConfig {
    pub config_path: String,
    pub log_dir: String,
}

pub const MENU_ID_PAUSE: usize = 100;

pub const MENU_ID_RELOAD: usize = 101;

pub const MENU_ID_OPEN_CONFIG: usize = 102;

pub const MENU_ID_OPEN_LOG_DIR: usize = 103;

pub const MENU_ID_QUIT: usize = 199;

/// The message of a mouse button that was pressed twice.
pub const WM_LBUTTONDBLCLK: u32 = 0x203;

/// The message of the other mouse button that was let go.
pub const WM_RBUTTONUP: u32 = 0x205;

/// A line of the menu.
#[derive(Debug, Clone, Copy)]
pub enum MenuLine {
    /// An entry with its number and its label.
    Entry(usize, &'static str),
    Separator,
}

/// A line of the menu, whatever the string that it holds.
pub enum MenuText {
    Entry(usize, Seq<char>),
    Separator,
}

impl MenuLine {
    pub open spec fn text(self) -> MenuText {
        match self {
            MenuLine::Entry(id, label) => MenuText::Entry(id, label@),
            MenuLine::Separator => MenuText::Separator,
        }
    }
}

/// What a chosen entry leads to.
#[derive(Debug, Clone)]
pub enum Chosen {
    /// Something for the window manager to do.
    Act(TrayAction),
    /// A file or a folder to open.
    Open(String),
    /// The menu was left without a choice, or the number is none of an entry.
    Nothing,
}

/// What a chosen entry leads to, by its number.
pub open spec fn choice(cfg: TrayConfig, id: usize) -> Chosen {
    if id == MENU_ID_PAUSE {
        Chosen::Act(TrayAction::TogglePause)
    } else if id == MENU_ID_RELOAD {
        Chosen::Act(TrayAction::ReloadConfig)
    } else if id == MENU_ID_OPEN_CONFIG {
        Chosen::Open(cfg.config_path)
    } else if id == MENU_ID_OPEN_LOG_DIR {
        Chosen::Open(cfg.log_dir)
    } else if id == MENU_ID_QUIT {
        Chosen::Act(TrayAction::Quit)
    } else {
        Chosen::Nothing
    }
}

/// The tray icon.
#[derive(Debug, Clone)]
pub struct Tray {
    pub config: TrayConfig,
    /// Whether the first entry offers to resume.
    pub paused: bool,
}

impl Tray {
    pub fn new(config: TrayConfig) -> (r: Tray)
        ensures
            r.config == config,
            !r.paused,
    {
        Tray { config, paused: false }
    }

    /// Let the first entry offer to pause or to resume.
    pub fn set_paused(&mut self, p: bool)
        ensures
            *final(self) == (Tray { paused: p, ..*old(self) }),
    {
        self.paused = p;
    }

    /// The lines of the menu.
    pub open spec fn lines(self) -> Seq<MenuText> {
        seq![
            MenuText::Entry(
                MENU_ID_PAUSE,
                if self.paused {
                    "Resume"@
                } else {
                    "Pause"@
                },
            ),
            MenuText::Entry(MENU_ID_RELOAD, "Reload Config"@),
            MenuText::Separator,
            MenuText::Entry(MENU_ID_OPEN_CONFIG, "Open Config File"@),
            MenuText::Entry(MENU_ID_OPEN_LOG_DIR, "Open Log Folder"@),
            MenuText::Separator,
            MenuText::Entry(MENU_ID_QUIT, "Quit"@),
        ]
    }

    /// The lines of the menu.
    pub fn menu(&self) -> (r: Vec<MenuLine>)
        ensures
            r@.map_values(|l: MenuLine| l.text()) == self.lines(),
    {
        let mut r: Vec<MenuLine> = Vec::new();
        if self.paused {
            r.push(MenuLine::Entry(MENU_ID_PAUSE, "Resume"));
        } else {
            r.push(MenuLine::Entry(MENU_ID_PAUSE, "Pause"));
        }
        r.push(MenuLine::Entry(MENU_ID_RELOAD, "Reload Config"));
        r.push(MenuLine::Separator);
        r.push(MenuLine::Entry(MENU_ID_OPEN_CONFIG, "Open Config File"));
        r.push(MenuLine::Entry(MENU_ID_OPEN_LOG_DIR, "Open Log Folder"));
        r.push(MenuLine::Separator);
        r.push(MenuLine::Entry(MENU_ID_QUIT, "Quit"));
        assert(r@.map_values(|l: MenuLine| l.text()) =~= self.lines());
        r
    }

    /// What a chosen entry leads to.
    pub fn chosen(&self, id: usize) -> (r: Chosen)
        ensures
            r == choice(self.config, id),
    {
        if id == MENU_ID_PAUSE {
            Chosen::Act(TrayAction::TogglePause)
        } else if id == MENU_ID_RELOAD {
            Chosen::Act(TrayAction::ReloadConfig)
        } else if id == MENU_ID_OPEN_CONFIG {
            Chosen::Open(self.config.config_path.clone())
        } else if id == MENU_ID_OPEN_LOG_DIR {
            Chosen::Open(self.config.log_dir.clone())
        } else if id == MENU_ID_QUIT {
            Chosen::Act(TrayAction::Quit)
        } else {
            Chosen::Nothing
        }
    }
}

/// Whether the menu opens on what the mouse did to the icon: its low word tells.
pub fn opens_menu(what: u32) -> (r: bool)
    ensures
        r == (what % 0x1_0000 == WM_RBUTTONUP || what % 0x1_0000 == WM_LBUTTONDBLCLK),
        r <==> what % 0x1_0000 == 0x205 || what % 0x1_0000 == 0x203,
{
    let low: u32 = what % 0x1_0000;
    low == WM_RBUTTONUP || low == WM_LBUTTONDBLCLK
}

/// The command of a menu entry.
pub open spec fn command(action: TrayAction) -> Command {
    match action {
        TrayAction::TogglePause => Command::TogglePause,
        TrayAction::ReloadConfig => Command::ReloadConfig,
        TrayAction::Quit => Command::Quit,
    }
}

/// The command of a menu entry.
pub fn command_of(action: TrayAction) -> (r: Command)
    ensures
        r == command(action),
{
    match action {
        TrayAction::TogglePause => Command::TogglePause,
        TrayAction::ReloadConfig => Command::ReloadConfig,
        TrayAction::Quit => Command::Quit,
    }
}

/// Each entry of the menu does what its label says: the first offers what is not the
/// case and switches it, and the last ends the program.
pub proof fn law_entries_do_what_they_say(t: Tray)
    ensures
        ({
            let l = t.lines();
            &&& l.len() == 7
            &&& l[2] is Separator && l[5] is Separator
            &&& l[0]->Entry_1 == if t.paused {
                "Resume"@
            } else {
                "Pause"@
            }
            &&& choice(t.config, l[0]->Entry_0) matches Chosen::Act(a) && command(a) is TogglePause
            &&& l[1]->Entry_1 == "Reload Config"@
            &&& choice(t.config, l[1]->Entry_0) matches Chosen::Act(a) && command(a) is ReloadConfig
            &&& l[3]->Entry_1 == "Open Config File"@
            &&& choice(t.config, l[3]->Entry_0) == Chosen::Open(t.config.config_path)
            &&& l[4]->Entry_1 == "Open Log Folder"@
            &&& choice(t.config, l[4]->Entry_0) == Chosen::Open(t.config.log_dir)
            &&& l[6]->Entry_1 == "Quit"@
            &&& choice(t.config, l[6]->Entry_0) matches Chosen::Act(a) && command(a) is Quit
        }),
{
}

/// A number that is none of an entry leads to nothing, and no two entries have the same
/// number.
pub proof fn law_entries_have_their_own_numbers(t: Tray, id: usize)
    ensures
        choice(t.config, id) is Nothing <==> forall|i: int|
            0 <= i < t.lines().len() ==> (#[trigger] t.lines()[i] is Separator
                || t.lines()[i]->Entry_0 != id),
        forall|i: int, j: int|
            0 <= i < j < t.lines().len() && #[trigger] t.lines()[i] is Entry
                && #[trigger] t.lines()[j] is Entry ==> t.lines()[i]->Entry_0
                != t.lines()[j]->Entry_0,
{
    let l = t.lines();
    if choice(t.config, id) is Nothing {
        assert forall|i: int| 0 <= i < l.len() implies (#[trigger] l[i] is Separator
            || l[i]->Entry_0 != id) by {}
    } else {
        assert(l[0]->Entry_0 == 100 && l[1]->Entry_0 == 101 && l[3]->Entry_0 == 102);
        assert(l[4]->Entry_0 == 103 && l[6]->Entry_0 == 199);
        assert(!(l[0] is Separator) && !(l[1] is Separator) && !(l[3] is Separator));
        assert(!(l[4] is Separator) && !(l[6] is Separator));
    }
}

} // verus!
