//! Requests from scripts, and what is answered.
//!
//! A request is a command, in the words of the key bindings, or a question about
//! the state. How requests and answers are written down is up to the program
//! around the library.

use crate::command::Command;
use crate::hotkey;
use crate::hotkey::parse_action;
use crate::ids::{WindowId, WorkspaceId};
use crate::model::World;
use crate::monitor::{find_monitor, Monitor};
use crate::rect::Rect;
use crate::state::WindowManager;
use crate::text;
use crate::text::{chars_of, reads, trimmed};
use crate::window::{ManagedWindow, WindowMode};
use vstd::prelude::*;
use vstd::string::StringExecFns;

verus! {

/// A request.
#[derive(Debug, Clone)]
pub enum Request {
    /// Run a command, in the words of the key bindings.
    Cmd { action: String },
    /// Tell something of the state.
    Query { topic: String },
}

// ---- what is told of the state --------------------------------------------

/// What is told of a monitor.
#[derive(Debug, Clone)]
pub struct MonitorView {
    pub id: String,
    pub primary: bool,
    pub dpi: u32,
    pub bounds: Rect,
    pub work_area: Rect,
    pub current_workspace: u32,
}

/// What is told of a window.
#[derive(Debug, Clone)]
pub struct WindowView {
    pub hwnd: isize,
    pub title: String,
    pub class: String,
    pub exe: String,
    /// Whether it is a tile; otherwise it floats.
    pub tiled: bool,
}

/// What is told of a workspace.
#[derive(Debug, Clone)]
pub struct WorkspaceView {
    pub id: u32,
    pub monitor_id: Option<String>,
    pub monocle: bool,
    pub window_count: usize,
    pub windows: Vec<WindowView>,
}

/// What is told of the focus.
#[derive(Debug, Clone)]
pub struct FocusedView {
    pub monitor_id: String,
    pub workspace: u32,
    pub hwnd: Option<isize>,
    pub title: Option<String>,
}

/// What is told of everything.
#[derive(Debug, Clone)]
pub struct StateView {
    pub paused: bool,
    pub monitors: Vec<MonitorView>,
    pub workspaces: Vec<WorkspaceView>,
    pub focused: Option<FocusedView>,
}

/// The word for how a window takes part in its workspace.
pub fn mode_word(tiled: bool) -> (r: &'static str)
    ensures
        r@ == (if tiled {
            "tiled"@
        } else {
            "floating"@
        }),
{
    if tiled {
        "tiled"
    } else {
        "floating"
    }
}

/// Whether this is told of a monitor.
pub open spec fn tells_monitor(v: MonitorView, m: Monitor) -> bool {
    &&& v.id == m.id.0
    &&& v.primary == m.info.primary
    &&& v.dpi == m.info.dpi
    &&& v.bounds == m.info.bounds
    &&& v.work_area == m.info.work_area
    &&& v.current_workspace == m.current_workspace.0
}

/// Whether this is told of a window.
pub open spec fn tells_window(v: WindowView, mw: ManagedWindow) -> bool {
    &&& v.hwnd == mw.id.0
    &&& v.title == mw.title
    &&& v.class == mw.class
    &&& v.exe == mw.exe_name
    &&& v.tiled == (mw.mode == WindowMode::Tiled)
}

/// Whether exactly the windows of a workspace are told of, each once.
pub open spec fn tells_windows(vs: Seq<WindowView>, w: World, ws: WorkspaceId) -> bool {
    &&& forall|i: int|
        0 <= i < vs.len() ==> {
            let id = WindowId((#[trigger] vs[i]).hwnd);
            &&& w.windows.contains_key(id)
            &&& w.windows[id].workspace == ws
            &&& tells_window(vs[i], w.windows[id])
        }
    &&& forall|i: int, j: int|
        0 <= i < j < vs.len() ==> #[trigger] vs[i].hwnd != #[trigger] vs[j].hwnd
    &&& forall|id: WindowId| #[trigger]
        w.windows.contains_key(id) && w.windows[id].workspace == ws ==> exists|i: int|
            0 <= i < vs.len() && (#[trigger] vs[i]).hwnd == id.0
}

/// Whether this is told of the workspace at `i`.
pub open spec fn tells_workspace(v: WorkspaceView, w: World, i: int) -> bool {
    let m = w.workspaces[i];
    &&& v.id == m.id.0
    &&& v.monitor_id == (match m.active_monitor {
        Some(id) => Some(id.0),
        None => None,
    })
    &&& v.monocle == m.monocle
    &&& v.window_count == v.windows@.len()
    &&& tells_windows(v.windows@, w, m.id)
}

/// Whether this is told of all monitors.
pub open spec fn tells_monitors(vs: Seq<MonitorView>, w: World) -> bool {
    &&& vs.len() == w.monitors.len()
    &&& forall|i: int| 0 <= i < vs.len() ==> tells_monitor(#[trigger] vs[i], w.monitors[i])
}

/// Whether this is told of all workspaces.
pub open spec fn tells_workspaces(vs: Seq<WorkspaceView>, w: World) -> bool {
    &&& vs.len() == w.workspaces.len()
    &&& forall|i: int| 0 <= i < vs.len() ==> tells_workspace(#[trigger] vs[i], w, i)
}

/// The focused window, where it is managed.
pub open spec fn focused_managed(w: World) -> Option<ManagedWindow> {
    match w.focused_window {
        Some(id) => if w.windows.contains_key(id) {
            Some(w.windows[id])
        } else {
            None
        },
        None => None,
    }
}

/// Whether this is told of the focus.
pub open spec fn tells_focus(v: Option<FocusedView>, w: World) -> bool {
    match w.focused_monitor {
        None => v is None,
        Some(id) => match w.monitor(id) {
            None => v is None,
            Some(m) => v matches Some(f) && {
                &&& f.monitor_id == id.0
                &&& f.workspace == m.current_workspace.0
                &&& f.hwnd == (match focused_managed(w) {
                    Some(mw) => Some(mw.id.0),
                    None => None,
                })
                &&& f.title == (match focused_managed(w) {
                    Some(mw) => Some(mw.title),
                    None => None,
                })
            },
        },
    }
}

/// Tell of all monitors.
pub fn monitors_view(wm: &WindowManager) -> (r: Vec<MonitorView>)
    requires
        wm.inv(),
    ensures
        tells_monitors(r@, wm@),
{
    let mut out: Vec<MonitorView> = Vec::new();
    let mut i: usize = 0;
    while i < wm.monitors.len()
        invariant
            i <= wm.monitors@.len(),
            out@.len() == i,
            forall|k: int|
                0 <= k < i ==> tells_monitor(#[trigger] out@[k], wm.monitors@[k]),
        decreases wm.monitors@.len() - i,
    {
        let m = &wm.monitors[i];
        out.push(
            MonitorView {
                id: m.id.0.clone(),
                primary: m.info.primary,
                dpi: m.info.dpi,
                bounds: m.info.bounds,
                work_area: m.info.work_area,
                current_workspace: m.current_workspace.0,
            },
        );
        i = i + 1;
    }
    out
}

fn view_window(mw: &ManagedWindow) -> (r: WindowView)
    ensures
        tells_window(r, *mw),
{
    WindowView {
        hwnd: mw.id.0,
        title: mw.title.clone(),
        class: mw.class.clone(),
        exe: mw.exe_name.clone(),
        tiled: match mw.mode {
            WindowMode::Tiled => true,
            WindowMode::Floating => false,
        },
    }
}

/// Tell of the windows of a workspace.
fn windows_view(wm: &WindowManager, ws: WorkspaceId) -> (r: Vec<WindowView>)
    requires
        wm.inv(),
    ensures
        tells_windows(r@, wm@, ws),
{
    let mut out: Vec<WindowView> = Vec::new();
    let ghost mut from: Seq<int> = Seq::empty();
    let mut i: usize = 0;
    while i < wm.windows.items.len()
        invariant
            i <= wm.windows.items@.len(),
            wm.inv(),
            from.len() == out@.len(),
            forall|k: int|
                0 <= k < out@.len() ==> {
                    let mw = wm.windows.items@[#[trigger] from[k]];
                    &&& 0 <= from[k] < i
                    &&& mw.workspace == ws
                    &&& tells_window(out@[k], mw)
                },
            forall|k: int, l: int|
                0 <= k < l < out@.len() ==> #[trigger] from[k] < #[trigger] from[l],
            forall|p: int|
                0 <= p < i && (#[trigger] wm.windows.items@[p]).workspace == ws ==> exists|k: int|
                    0 <= k < out@.len() && #[trigger] from[k] == p,
        decreases wm.windows.items@.len() - i,
    {
        let mw = &wm.windows.items[i];
        if mw.workspace == ws {
            let ghost before = from;
            out.push(view_window(mw));
            proof {
                from = from.push(i as int);
                assert forall|p: int|
                    0 <= p < i + 1 && (#[trigger] wm.windows.items@[p]).workspace
                        == ws implies exists|k: int|
                    0 <= k < out@.len() && #[trigger] from[k] == p by {
                    if p < i {
                        let k = choose|k: int| 0 <= k < before.len() && #[trigger] before[k] == p;
                        assert(from[k] == p);
                    } else {
                        assert(from[before.len() as int] == p);
                    }
                }
                assert forall|k: int, l: int| 0 <= k < l < out@.len() implies #[trigger] from[k]
                    < #[trigger] from[l] by {
                    if l == before.len() {
                        assert(before[k] < i);
                    } else {
                        assert(before[k] < before[l]);
                    }
                }
                assert forall|k: int| 0 <= k < out@.len() implies {
                    let mw = wm.windows.items@[#[trigger] from[k]];
                    &&& 0 <= from[k] < i + 1
                    &&& mw.workspace == ws
                    &&& tells_window(out@[k], mw)
                } by {
                    if k < before.len() {
                        assert(before[k] == from[k]);
                    }
                }
            }
        }
        i = i + 1;
    }
    proof {
        assert forall|k: int| 0 <= k < out@.len() implies {
            let id = WindowId((#[trigger] out@[k]).hwnd);
            &&& wm@.windows.contains_key(id)
            &&& wm@.windows[id].workspace == ws
            &&& tells_window(out@[k], wm@.windows[id])
        } by {
            assert(0 <= from[k] < i);
            wm.windows.lemma_at(from[k]);
            assert(wm.windows.items@[from[k]].id == WindowId(out@[k].hwnd));
        }
        assert forall|k: int, l: int| 0 <= k < l < out@.len() implies #[trigger] out@[k].hwnd
            != #[trigger] out@[l].hwnd by {
            assert(from[k] < from[l]);
            assert(wm.windows.items@[from[k]].id != wm.windows.items@[from[l]].id);
        }
        assert forall|id: WindowId| #[trigger]
            wm@.windows.contains_key(id) && wm@.windows[id].workspace == ws implies exists|k: int|
            0 <= k < out@.len() && (#[trigger] out@[k]).hwnd == id.0 by {
            wm.windows.lemma_found(id);
            let p = choose|p: int|
                0 <= p < wm.windows.items@.len() && #[trigger] wm.windows.items@[p]
                    == wm@.windows[id] && wm.windows.items@[p].id == id;
            let k = choose|k: int| 0 <= k < out@.len() && #[trigger] from[k] == p;
            assert(out@[k].hwnd == id.0);
        }
    }
    out
}

/// Tell of all workspaces.
pub fn workspaces_view(wm: &WindowManager) -> (r: Vec<WorkspaceView>)
    requires
        wm.inv(),
    ensures
        tells_workspaces(r@, wm@),
{
    let mut out: Vec<WorkspaceView> = Vec::new();
    let mut i: usize = 0;
    while i < wm.workspaces.len()
        invariant
            i <= wm.workspaces@.len(),
            wm.inv(),
            out@.len() == i,
            forall|k: int| 0 <= k < i ==> tells_workspace(#[trigger] out@[k], wm@, k),
        decreases wm.workspaces@.len() - i,
    {
        let ws = &wm.workspaces[i];
        assert(wm@.workspaces[i as int] == wm.workspaces@[i as int]@);
        let windows = windows_view(wm, ws.id);
        out.push(
            WorkspaceView {
                id: ws.id.0,
                monitor_id: match &ws.active_monitor {
                    Some(m) => Some(m.0.clone()),
                    None => None,
                },
                monocle: ws.monocle,
                window_count: windows.len(),
                windows,
            },
        );
        i = i + 1;
    }
    out
}

/// Tell of the focus.
pub fn focused_view(wm: &WindowManager) -> (r: Option<FocusedView>)
    requires
        wm.inv(),
    ensures
        tells_focus(r, wm@),
{
    let id = match &wm.focused_monitor {
        Some(id) => id,
        None => {
            return None;
        },
    };
    match find_monitor(&wm.monitors, id) {
        None => None,
        Some(i) => {
            let (hwnd, title) = match wm.focused_window {
                Some(w) => match wm.windows.get(w) {
                    Some(mw) => (Some(mw.id.0), Some(mw.title.clone())),
                    None => (None, None),
                },
                None => (None, None),
            };
            Some(
                FocusedView {
                    monitor_id: id.0.clone(),
                    workspace: wm.monitors[i].current_workspace.0,
                    hwnd,
                    title,
                },
            )
        },
    }
}

/// Tell of everything.
pub fn state_view(wm: &WindowManager) -> (r: StateView)
    requires
        wm.inv(),
    ensures
        r.paused == wm@.paused,
        tells_monitors(r.monitors@, wm@),
        tells_workspaces(r.workspaces@, wm@),
        tells_focus(r.focused, wm@),
{
    StateView {
        paused: wm.paused,
        monitors: monitors_view(wm),
        workspaces: workspaces_view(wm),
        focused: focused_view(wm),
    }
}

// ---- what is answered -----------------------------------------------------

/// What a request leads to.
#[derive(Debug, Clone)]
pub enum Answer {
    /// A command to queue; what is answered depends on whether that works.
    Queue(Command),
    Pong,
    State(StateView),
    Monitors(Vec<MonitorView>),
    Workspaces(Vec<WorkspaceView>),
    Focused(Option<FocusedView>),
    /// What is wrong with the request.
    Wrong(String),
}

/// Whether this is what a request leads to.
pub open spec fn answers(a: Answer, req: Request, w: World) -> bool {
    match req {
        Request::Cmd { action } => match hotkey::action(action@) {
            Ok(meaning) => a matches Answer::Queue(c) && c.meaning() == meaning,
            Err(e) => a matches Answer::Wrong(t) && t@ == "action: "@ + e,
        },
        Request::Query { topic } => if topic@ == "ping"@ {
            a is Pong
        } else if topic@ == "state"@ {
            a matches Answer::State(v) && {
                &&& v.paused == w.paused
                &&& tells_monitors(v.monitors@, w)
                &&& tells_workspaces(v.workspaces@, w)
                &&& tells_focus(v.focused, w)
            }
        } else if topic@ == "monitors"@ {
            a matches Answer::Monitors(v) && tells_monitors(v@, w)
        } else if topic@ == "workspaces"@ {
            a matches Answer::Workspaces(v) && tells_workspaces(v@, w)
        } else if topic@ == "focused"@ {
            a matches Answer::Focused(v) && tells_focus(v, w)
        } else {
            a matches Answer::Wrong(t) && t@ == "unknown topic `"@ + topic@ + "`"@
        },
    }
}

/// Find out what a request leads to. The state is only looked at.
pub fn process(wm: &WindowManager, req: Request) -> (a: Answer)
    requires
        wm.inv(),
    ensures
        answers(a, req, wm@),
{
    match req {
        Request::Cmd { action } => match parse_action(action.as_str()) {
            Ok(cmd) => Answer::Queue(cmd),
            Err(e) => Answer::Wrong(prefixed("action: ", &e)),
        },
        Request::Query { topic } => {
            let word = chars_of(topic.as_str());
            if reads(&word, "ping") {
                Answer::Pong
            } else if reads(&word, "state") {
                Answer::State(state_view(wm))
            } else if reads(&word, "monitors") {
                Answer::Monitors(monitors_view(wm))
            } else if reads(&word, "workspaces") {
                Answer::Workspaces(workspaces_view(wm))
            } else if reads(&word, "focused") {
                Answer::Focused(focused_view(wm))
            } else {
                let mut t = prefixed("unknown topic `", &topic);
                t.append("`");
                Answer::Wrong(t)
            }
        },
    }
}

fn prefixed(what: &str, e: &String) -> (r: String)
    ensures
        r@ == what@ + e@,
{
    let mut r = String::from_str(what);
    r.append(e.as_str());
    r
}

/// The part of a line that is read as a request, without the white space around;
/// what is wrong where there is none.
pub fn request_text(line: &str) -> (r: Result<String, &'static str>)
    ensures
        match r {
            Ok(s) => s@ == text::trim(line@) && s@.len() > 0,
            Err(e) => text::trim(line@).len() == 0 && e@ == "empty request"@,
        },
{
    let t = trimmed(&chars_of(line));
    if t.len() == 0 {
        Err("empty request")
    } else {
        Ok(text::string_of(&t))
    }
}

/// What is wrong with a text that is no request.
pub fn unreadable(e: &String) -> (r: String)
    ensures
        r@ == "parse: "@ + e@,
{
    prefixed("parse: ", e)
}

/// What is wrong where a command could not be queued.
pub fn unsent(e: &String) -> (r: String)
    ensures
        r@ == "send: "@ + e@,
{
    prefixed("send: ", e)
}

/// Each topic is answered with what it names, and any other one with what is wrong.
pub proof fn law_topics_are_answered(a: Answer, topic: String, w: World)
    requires
        answers(a, Request::Query { topic }, w),
    ensures
        topic@ == "ping"@ <==> a is Pong,
        topic@ == "state"@ <==> a is State,
        topic@ == "monitors"@ <==> a is Monitors,
        topic@ == "workspaces"@ <==> a is Workspaces,
        topic@ == "focused"@ <==> a is Focused,
        !(a is Queue),
        a matches Answer::State(v) ==> v.paused == w.paused,
        a matches Answer::Wrong(t) ==> t@ == "unknown topic `"@ + topic@ + "`"@,
{
    reveal_strlit("ping");
    reveal_strlit("state");
    reveal_strlit("monitors");
    reveal_strlit("workspaces");
    reveal_strlit("focused");
    assert("ping"@.len() == 4 && "state"@.len() == 5 && "monitors"@.len() == 8);
    assert("workspaces"@.len() == 10 && "focused"@.len() == 7);
    assert("state"@ != "ping"@);
    assert("monitors"@ != "ping"@ && "monitors"@ != "state"@);
    assert("workspaces"@ != "ping"@ && "workspaces"@ != "state"@ && "workspaces"@ != "monitors"@);
    assert("focused"@ != "ping"@ && "focused"@ != "state"@ && "focused"@ != "monitors"@
        && "focused"@ != "workspaces"@);
}

/// Of each monitor its own rectangles and its own workspace are told.
pub proof fn law_monitors_are_told(a: Answer, topic: String, w: World, i: int)
    requires
        answers(a, Request::Query { topic }, w),
        a is Monitors,
        0 <= i < w.monitors.len(),
    ensures
        a matches Answer::Monitors(all) && all@.len() == w.monitors.len() && {
            let v = all@[i];
            let m = w.monitors[i];
            &&& v.id@ == m.id@
            &&& v.primary == m.info.primary
            &&& v.bounds == m.info.bounds
            &&& v.work_area == m.info.work_area
            &&& v.current_workspace == m.current_workspace.0
            &&& v.dpi == m.info.dpi
        },
{
    if let Answer::Monitors(all) = a {
        assert(tells_monitor(all@[i], w.monitors[i]));
    }
}

/// Every managed window is told of with its workspace, as a tile or as floating.
pub proof fn law_windows_are_told(a: Answer, topic: String, w: World, i: int, id: WindowId)
    requires
        answers(a, Request::Query { topic }, w),
        a is Workspaces,
        w.wf(),
        0 <= i < w.workspaces.len(),
        w.windows.contains_key(id),
        w.windows[id].workspace.0 == i + 1,
    ensures
        a matches Answer::Workspaces(all) && all@.len() == w.workspaces.len() && {
            let v = all@[i];
            &&& v.id == i + 1
            &&& v.monocle == w.workspaces[i].monocle
            &&& v.monitor_id is Some <==> w.workspaces[i].active_monitor is Some
            &&& v.window_count == v.windows@.len()
            &&& exists|k: int|
                0 <= k < v.windows@.len() && (#[trigger] v.windows@[k]).hwnd == id.0
                    && v.windows@[k].title == w.windows[id].title && v.windows@[k].class
                    == w.windows[id].class && v.windows@[k].exe == w.windows[id].exe_name
                    && v.windows@[k].tiled == (w.windows[id].mode == WindowMode::Tiled)
        },
{
    if let Answer::Workspaces(all) = a {
        let v = all@[i];
        assert(tells_workspace(v, w, i));
        assert(w.workspaces[i].id.0 == i + 1);
        assert(w.windows[id].workspace == w.workspaces[i].id);
        assert(w.windows[id].id == id);
        let vs = v.windows@;
        let k = choose|k: int| 0 <= k < vs.len() && (#[trigger] vs[k]).hwnd == id.0;
        assert(vs[k].hwnd == id.0);
        assert(WindowId(vs[k].hwnd) == id);
    }
}

/// Of the focus its monitor is told, the workspace there, and the focused window where it
/// is managed.
pub proof fn law_focus_is_told(a: Answer, topic: String, w: World, i: int)
    requires
        answers(a, Request::Query { topic }, w),
        a is Focused,
        w.wf(),
        0 <= i < w.monitors.len(),
        w.focused_monitor matches Some(id) && id@ == w.monitors[i].id@,
    ensures
        a matches Answer::Focused(Some(v)) && {
            &&& v.monitor_id@ == w.monitors[i].id@
            &&& v.workspace == w.monitors[i].current_workspace.0
            &&& w.focused_window matches Some(id) ==> {
                &&& w.windows.contains_key(id) ==> v.hwnd == Some(id.0) && v.title == Some(
                    w.windows[id].title,
                )
                &&& !w.windows.contains_key(id) ==> v.hwnd is None && v.title is None
            }
            &&& w.focused_window is None ==> v.hwnd is None && v.title is None
        },
{
    let id = w.focused_monitor->0;
    crate::monitor::lemma_monitor_index(w.monitors, i);
    assert(w.monitor(id) == Some(w.monitors[i]));
}

} // verus!
