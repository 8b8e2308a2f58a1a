//! Events of the desktop.

use vstd::prelude::*;

verus! {

/// Something that has happened to a window.
#[derive(Debug, Clone, Copy, PartialEq, Eq, Hash, Structural)]
pub enum WinEvent {
    /// It can be seen.
    Shown(isize),
    /// It is going away.
    Destroyed(isize),
    /// It was hidden.
    Hidden(isize),
    /// It was cloaked.
    Cloaked(isize),
    /// It is no longer cloaked.
    Uncloaked(isize),
    /// It is in the foreground.
    Foreground(isize),
    /// The user has begun to move or resize it.
    MoveSizeStart(isize),
    /// The user has moved or resized it.
    MoveSizeEnd(isize),
    /// It was minimised.
    Minimized(isize),
    /// It is no longer minimised.
    Restored(isize),
    /// It has another place.
    LocationChanged(isize),
    /// It has another title.
    NameChanged(isize),
}

pub const EVENT_SYSTEM_FOREGROUND: u32 = 0x0003;

pub const EVENT_SYSTEM_MOVESIZESTART: u32 = 0x000a;

pub const EVENT_SYSTEM_MOVESIZEEND: u32 = 0x000b;

pub const EVENT_SYSTEM_MINIMIZESTART: u32 = 0x0016;

pub const EVENT_SYSTEM_MINIMIZEEND: u32 = 0x0017;

pub const EVENT_OBJECT_CREATE: u32 = 0x8000;

pub const EVENT_OBJECT_DESTROY: u32 = 0x8001;

pub const EVENT_OBJECT_SHOW: u32 = 0x8002;

pub const EVENT_OBJECT_HIDE: u32 = 0x8003;

pub const EVENT_OBJECT_NAMECHANGE: u32 = 0x800c;

pub const EVENT_OBJECT_CLOAKED: u32 = 0x8017;

pub const EVENT_OBJECT_UNCLOAKED: u32 = 0x8018;

/// What an event number of the operating system says of a window. Changes of
/// place are too many to be passed on.
pub open spec fn meaning(event: u32, hwnd: isize) -> Option<WinEvent> {
    if event == EVENT_OBJECT_SHOW || event == EVENT_OBJECT_CREATE {
        Some(WinEvent::Shown(hwnd))
    } else if event == EVENT_OBJECT_DESTROY {
        Some(WinEvent::Destroyed(hwnd))
    } else if event == EVENT_OBJECT_HIDE {
        Some(WinEvent::Hidden(hwnd))
    } else if event == EVENT_OBJECT_CLOAKED {
        Some(WinEvent::Cloaked(hwnd))
    } else if event == EVENT_OBJECT_UNCLOAKED {
        Some(WinEvent::Uncloaked(hwnd))
    } else if event == EVENT_SYSTEM_FOREGROUND {
        Some(WinEvent::Foreground(hwnd))
    } else if event == EVENT_SYSTEM_MOVESIZESTART {
        Some(WinEvent::MoveSizeStart(hwnd))
    } else if event == EVENT_SYSTEM_MOVESIZEEND {
        Some(WinEvent::MoveSizeEnd(hwnd))
    } else if event == EVENT_SYSTEM_MINIMIZESTART {
        Some(WinEvent::Minimized(hwnd))
    } else if event == EVENT_SYSTEM_MINIMIZEEND {
        Some(WinEvent::Restored(hwnd))
    } else if event == EVENT_OBJECT_NAMECHANGE {
        Some(WinEvent::NameChanged(hwnd))
    } else {
        None
    }
}

/// What an event of the operating system says. Only events of windows count, and
/// a window has a handle other than 0 and -1.
pub fn event_for(event: u32, hwnd: isize, id_object: i32) -> (r: Option<WinEvent>)
    ensures
        r == (if id_object == 0 && hwnd != 0 && hwnd != -1 {
            meaning(event, hwnd)
        } else {
            None
        }),
        id_object != 0 || hwnd == 0 || hwnd == -1 ==> r is None,
        id_object == 0 && hwnd != 0 && hwnd != -1 ==> {
            &&& event == 0x0003 ==> r == Some(WinEvent::Foreground(hwnd))
            &&& event == 0x000a ==> r == Some(WinEvent::MoveSizeStart(hwnd))
            &&& event == 0x000b ==> r == Some(WinEvent::MoveSizeEnd(hwnd))
            &&& event == 0x0016 ==> r == Some(WinEvent::Minimized(hwnd))
            &&& event == 0x0017 ==> r == Some(WinEvent::Restored(hwnd))
            &&& event == 0x8000 || event == 0x8002 ==> r == Some(WinEvent::Shown(hwnd))
            &&& event == 0x8001 ==> r == Some(WinEvent::Destroyed(hwnd))
            &&& event == 0x8003 ==> r == Some(WinEvent::Hidden(hwnd))
            &&& event == 0x800c ==> r == Some(WinEvent::NameChanged(hwnd))
            &&& event == 0x8017 ==> r == Some(WinEvent::Cloaked(hwnd))
            &&& event == 0x8018 ==> r == Some(WinEvent::Uncloaked(hwnd))
        },
{
    if id_object != 0 || hwnd == 0 || hwnd == -1 {
        return None;
    }
    if event == EVENT_OBJECT_SHOW || event == EVENT_OBJECT_CREATE {
        Some(WinEvent::Shown(hwnd))
    } else if event == EVENT_OBJECT_DESTROY {
        Some(WinEvent::Destroyed(hwnd))
    } else if event == EVENT_OBJECT_HIDE {
        Some(WinEvent::Hidden(hwnd))
    } else if event == EVENT_OBJECT_CLOAKED {
        Some(WinEvent::Cloaked(hwnd))
    } else if event == EVENT_OBJECT_UNCLOAKED {
        Some(WinEvent::Uncloaked(hwnd))
    } else if event == EVENT_SYSTEM_FOREGROUND {
        Some(WinEvent::Foreground(hwnd))
    } else if event == EVENT_SYSTEM_MOVESIZESTART {
        Some(WinEvent::MoveSizeStart(hwnd))
    } else if event == EVENT_SYSTEM_MOVESIZEEND {
        Some(WinEvent::MoveSizeEnd(hwnd))
    } else if event == EVENT_SYSTEM_MINIMIZESTART {
        Some(WinEvent::Minimized(hwnd))
    } else if event == EVENT_SYSTEM_MINIMIZEEND {
        Some(WinEvent::Restored(hwnd))
    } else if event == EVENT_OBJECT_NAMECHANGE {
        Some(WinEvent::NameChanged(hwnd))
    } else {
        None
    }
}

/// What the numbers of the operating system say: the start of minimising takes a
/// window away and its end brings it back, and so do hiding and showing, cloaking
/// and uncloaking. No two numbers say the same, but for a window that was created
/// and one that is shown, and no other number says anything.
pub proof fn law_numbers_say_what_happened(event: u32, other: u32, hwnd: isize)
    ensures
        meaning(0x0003, hwnd) == Some(WinEvent::Foreground(hwnd)),
        meaning(0x000a, hwnd) == Some(WinEvent::MoveSizeStart(hwnd)),
        meaning(0x000b, hwnd) == Some(WinEvent::MoveSizeEnd(hwnd)),
        meaning(0x0016, hwnd) == Some(WinEvent::Minimized(hwnd)),
        meaning(0x0017, hwnd) == Some(WinEvent::Restored(hwnd)),
        meaning(0x8000, hwnd) == Some(WinEvent::Shown(hwnd)),
        meaning(0x8001, hwnd) == Some(WinEvent::Destroyed(hwnd)),
        meaning(0x8002, hwnd) == Some(WinEvent::Shown(hwnd)),
        meaning(0x8003, hwnd) == Some(WinEvent::Hidden(hwnd)),
        meaning(0x800c, hwnd) == Some(WinEvent::NameChanged(hwnd)),
        meaning(0x8017, hwnd) == Some(WinEvent::Cloaked(hwnd)),
        meaning(0x8018, hwnd) == Some(WinEvent::Uncloaked(hwnd)),
        meaning(event, hwnd) is Some ==> event <= 0x8018 && meaning(event, hwnd)->0.window()
            == hwnd,
        meaning(event, hwnd) is Some && meaning(event, hwnd) == meaning(other, hwnd) ==> event
            == other || (meaning(event, hwnd) == Some(WinEvent::Shown(hwnd))),
        meaning(event, hwnd) is Some <==> (event == 0x0003 || event == 0x000a || event == 0x000b
            || event == 0x0016 || event == 0x0017 || 0x8000 <= event <= 0x8003 || event == 0x800c
            || event == 0x8017 || event == 0x8018),
{
}

impl WinEvent {
    pub open spec fn window(self) -> isize {
        match self {
            WinEvent::Shown(h) => h,
            WinEvent::Destroyed(h) => h,
            WinEvent::Hidden(h) => h,
            WinEvent::Cloaked(h) => h,
            WinEvent::Uncloaked(h) => h,
            WinEvent::Foreground(h) => h,
            WinEvent::MoveSizeStart(h) => h,
            WinEvent::MoveSizeEnd(h) => h,
            WinEvent::Minimized(h) => h,
            WinEvent::Restored(h) => h,
            WinEvent::LocationChanged(h) => h,
            WinEvent::NameChanged(h) => h,
        }
    }

    /// The window that it has happened to.
    pub fn hwnd(&self) -> (r: isize)
        ensures
            r == self.window(),
    {
        match *self {
            WinEvent::Shown(h) => h,
            WinEvent::Destroyed(h) => h,
            WinEvent::Hidden(h) => h,
            WinEvent::Cloaked(h) => h,
            WinEvent::Uncloaked(h) => h,
            WinEvent::Foreground(h) => h,
            WinEvent::MoveSizeStart(h) => h,
            WinEvent::MoveSizeEnd(h) => h,
            WinEvent::Minimized(h) => h,
            WinEvent::Restored(h) => h,
            WinEvent::LocationChanged(h) => h,
            WinEvent::NameChanged(h) => h,
        }
    }
}

/// A change of the monitors.
#[derive(Debug, Clone, Copy, PartialEq, Eq, Structural)]
pub enum DisplayEvent {
    TopologyChanged,
}

pub const WM_SETTINGCHANGE: u32 = 0x001a;

pub const WM_DISPLAYCHANGE: u32 = 0x007e;

pub const WM_DPICHANGED: u32 = 0x02e0;

/// The setting that a change of the work area is announced by.
pub const SPI_SETWORKAREA: u32 = 0x002f;

/// What a message of the operating system says of the monitors. Of changed
/// settings only the work area counts.
pub fn display_event_for(msg: u32, setting: u32) -> (r: Option<DisplayEvent>)
    ensures
        r == (if msg == WM_DISPLAYCHANGE || msg == WM_DPICHANGED || (msg == WM_SETTINGCHANGE
            && setting == SPI_SETWORKAREA) {
            Some(DisplayEvent::TopologyChanged)
        } else {
            None
        }),
        r is Some <==> msg == 0x007e || msg == 0x02e0 || (msg == 0x001a && setting == 0x002f),
{
    if msg == WM_DISPLAYCHANGE || msg == WM_DPICHANGED || (msg == WM_SETTINGCHANGE && setting
        == SPI_SETWORKAREA) {
        Some(DisplayEvent::TopologyChanged)
    } else {
        None
    }
}

/// Why a listener cannot be started.
#[derive(Debug, Clone, Copy, PartialEq, Eq, Structural)]
pub enum ListenerError {
    StartedTwice,
    NotStarted,
    StillAlive,
}

/// A thread that listens to the operating system. It is started once, and
/// started again where it has died.
#[derive(Debug, Clone, Copy, PartialEq, Eq, Structural)]
pub struct Listener {
    pub started: bool,
    pub alive: bool,
}

impl Listener {
    pub fn new() -> (r: Listener)
        ensures
            r == (Listener { started: false, alive: false }),
    {
        Listener { started: false, alive: false }
    }

    /// Whether it is running.
    pub fn is_alive(&self) -> (r: bool)
        ensures
            r == self.alive,
    {
        self.alive
    }

    /// Start it.
    pub fn start(&mut self) -> (r: Result<(), ListenerError>)
        ensures
            match r {
                Ok(()) => !old(self).started && *final(self) == (Listener {
                    started: true,
                    alive: true,
                }),
                Err(e) => old(self).started && e == ListenerError::StartedTwice && *final(self)
                    == *old(self),
            },
    {
        if self.started {
            return Err(ListenerError::StartedTwice);
        }
        self.started = true;
        self.alive = true;
        Ok(())
    }

    /// Start it again. It must have been started, and it must have died.
    pub fn restart(&mut self) -> (r: Result<(), ListenerError>)
        ensures
            match r {
                Ok(()) => {
                    &&& old(self).started && !old(self).alive
                    &&& *final(self) == (Listener { started: true, alive: true })
                },
                Err(e) => {
                    &&& *final(self) == *old(self)
                    &&& !old(self).started || old(self).alive
                    &&& e == (if !old(self).started {
                        ListenerError::NotStarted
                    } else {
                        ListenerError::StillAlive
                    })
                },
            },
    {
        if !self.started {
            return Err(ListenerError::NotStarted);
        }
        if self.alive {
            return Err(ListenerError::StillAlive);
        }
        self.alive = true;
        Ok(())
    }

    /// Note that it has died.
    pub fn died(&mut self)
        ensures
            *final(self) == (Listener { alive: false, ..*old(self) }),
    {
        self.alive = false;
    }
}

} // verus!
