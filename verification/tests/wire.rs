use dwmend::autostart::{entry, quote_path, registered_path};
use dwmend::command::Command;
use dwmend::filter::{WindowFacts, WS_CAPTION};
use dwmend::frame::{FocusBorder, Ring, Rounded};
use dwmend::ids::{Window, WindowId, WorkspaceId};
use dwmend::ipc::{
    focused_view, mode_word, process, request_text, state_view, unreadable, unsent, Answer, Request,
};
use dwmend::model::{AlreadyVisibleBehaviour, Gaps};
use dwmend::monitor::{compose_stable_id, is_primary, pick_friendly_name, MonitorInfo};
use dwmend::rect::Rect;
use dwmend::state::WindowManager;
use dwmend::wide::{bytes_to_wide, decode, utf16, utf16_to_string, wide, wide_no_terminator, wide_to_bytes};
use dwmend::winevent::{
    display_event_for, event_for, DisplayEvent, Listener, ListenerError, WinEvent,
};
use dwmend::wire::{
    frame_request, frame_response, timeout_response, Fed, LineReader, LONGEST_LINE, PIPE_NAME,
};

// ---- lines ----------------------------------------------------------------

fn read(bytes: &[u8]) -> (Fed, LineReader) {
    let mut reader = LineReader::new();
    let mut last = Fed::More;
    for b in bytes {
        last = reader.feed(*b);
        if last != Fed::More {
            break;
        }
    }
    (last, reader)
}

#[test]
fn a_request_arrives_as_it_was_sent() {
    let request = "{\"kind\":\"cmd\",\"action\":\"notify info 'äöü €'\"}";
    let (fed, reader) = read(frame_request(request.to_string()).as_bytes());
    assert_eq!(fed, Fed::Done);
    assert_eq!(reader.line(), Some(request.to_string()));
}

#[test]
fn only_the_first_line_is_read() {
    let (fed, reader) = read(b"one\r\ntwo\n");
    assert_eq!(fed, Fed::Done);
    assert_eq!(reader.line(), Some("one".to_string()));
}

#[test]
fn lines_that_are_too_long() {
    let mut bytes = vec![b'x'; LONGEST_LINE];
    assert_eq!(read(&bytes).0, Fed::More);
    bytes.push(b'x');
    assert_eq!(read(&bytes).0, Fed::TooLong);
}

#[test]
fn bytes_that_are_no_text() {
    assert_eq!(read(b"\xff\xfe").1.line(), None);
    assert_eq!(read("é".as_bytes()).1.line(), Some("é".to_string()));
}

#[test]
fn frames_end_with_one_newline() {
    assert_eq!(frame_request("a".to_string()), "a\n");
    assert_eq!(frame_request("a\n".to_string()), "a\n");
    assert_eq!(frame_response("a".to_string()), "a\n");
    assert_eq!(timeout_response(), r#"{"ok":false,"error":"timeout"}"#);
    assert_eq!(PIPE_NAME, r"\\.\pipe\DwmendDaemon-v1");
}

// ---- UTF-16 ---------------------------------------------------------------

#[test]
fn texts_in_utf16() {
    for s in ["", "abc", "Füße", "日本", "a😀b"] {
        let expected: Vec<u16> = s.encode_utf16().collect();
        assert_eq!(wide_no_terminator(s), expected);
        assert_eq!(decode(&expected), s);
        let mut terminated = expected.clone();
        terminated.push(0);
        assert_eq!(wide(s), terminated);
        terminated.extend([0x41, 0x42, 0]);
        assert_eq!(utf16_to_string(&terminated), s);
    }
}

#[test]
fn lone_surrogates_stand_for_nothing() {
    for u in [
        vec![0xd800],
        vec![0xdc00, 0x41],
        vec![0xd83d, 0xd83d, 0xde00],
        vec![0x41, 0xd800, 0x42],
    ] {
        assert_eq!(decode(&u), String::from_utf16_lossy(&u));
    }
}

#[test]
fn units_as_bytes() {
    let u = vec![0x0041, 0xd83d, 0xde00, 0xffff];
    let b = wide_to_bytes(&u);
    assert_eq!(b, vec![0x41, 0x00, 0x3d, 0xd8, 0x00, 0xde, 0xff, 0xff]);
    assert_eq!(bytes_to_wide(&b), u);
    assert_eq!(bytes_to_wide(&vec![1, 2, 3]), vec![0x0201]);
    assert_eq!(utf16(&b"Quit\0".to_vec()), vec![0x51, 0x75, 0x69, 0x74, 0]);
}

#[test]
fn the_registered_path_is_read_back() {
    let path = r"C:\Program Files\dwmend\dwmend.exe";
    assert_eq!(quote_path(path), format!("\"{path}\""));
    assert_eq!(quote_path("\"x\""), "\"x\"");
    assert_eq!(registered_path(&entry(path)), path);
    let mut with_zero = entry(path);
    with_zero.extend([0, 0]);
    assert_eq!(registered_path(&with_zero), path);
    assert_eq!(registered_path(&wide_to_bytes(&wide("plain"))), "plain");
}

// ---- requests -------------------------------------------------------------

fn manager() -> WindowManager {
    let info = MonitorInfo {
        hmonitor: 1,
        stable_id: "m".to_string(),
        friendly_name: String::new(),
        bounds: Rect::new(0, 0, 800, 600),
        work_area: Rect::new(0, 0, 800, 560),
        dpi: 144,
        primary: true,
    };
    let gaps = Gaps::default();
    let mut wm =
        WindowManager::new(vec![info], 2, gaps, AlreadyVisibleBehaviour::Swap).unwrap();
    let facts = WindowFacts {
        alive: true,
        visible: true,
        minimized: false,
        cloaked_by_shell: false,
        has_owner: false,
        style: WS_CAPTION,
        ex_style: 0,
        class: "C".to_string(),
        title: "T".to_string(),
        title_known: true,
        exe: "e.exe".to_string(),
    };
    assert!(wm.admit_window(&Vec::new(), WindowId(5), &facts));
    wm
}

fn query(wm: &WindowManager, topic: &str) -> Answer {
    process(wm, Request::Query { topic: topic.to_string() })
}

#[test]
fn the_state_is_told() {
    let wm = manager();
    let v = state_view(&wm);
    assert!(!v.paused);
    assert_eq!(v.monitors.len(), 1);
    assert_eq!(v.monitors[0].id, "m");
    assert_eq!(v.monitors[0].dpi, 144);
    assert_eq!(v.monitors[0].work_area, Rect::new(0, 0, 800, 560));
    assert_eq!(v.monitors[0].current_workspace, 1);
    assert_eq!(v.workspaces.len(), 2);
    assert_eq!(v.workspaces[0].monitor_id, Some("m".to_string()));
    assert_eq!(v.workspaces[0].window_count, 1);
    assert_eq!(v.workspaces[0].windows[0].hwnd, 5);
    assert_eq!(v.workspaces[0].windows[0].exe, "e.exe");
    assert_eq!(mode_word(v.workspaces[0].windows[0].tiled), "tiled");
    assert_eq!(mode_word(false), "floating");
    assert_eq!(v.workspaces[1].monitor_id, None);
    assert_eq!(v.workspaces[1].window_count, 0);
    let f = focused_view(&wm).unwrap();
    assert_eq!(f.monitor_id, "m");
    assert_eq!(f.workspace, 1);
    assert_eq!(f.hwnd, Some(5));
    assert_eq!(f.title, Some("T".to_string()));
}

#[test]
fn topics() {
    let wm = manager();
    assert!(matches!(query(&wm, "ping"), Answer::Pong));
    assert!(matches!(query(&wm, "state"), Answer::State(_)));
    assert!(matches!(query(&wm, "monitors"), Answer::Monitors(_)));
    assert!(matches!(query(&wm, "workspaces"), Answer::Workspaces(_)));
    assert!(matches!(query(&wm, "focused"), Answer::Focused(Some(_))));
    match query(&wm, "weather") {
        Answer::Wrong(e) => assert_eq!(e, "unknown topic `weather`"),
        other => panic!("got {other:?}"),
    }
}

#[test]
fn requested_commands() {
    let wm = manager();
    match process(&wm, Request::Cmd { action: "workspace 2".to_string() }) {
        Answer::Queue(Command::SwitchWorkspace(WorkspaceId(2))) => {}
        other => panic!("got {other:?}"),
    }
    match process(&wm, Request::Cmd { action: "jump".to_string() }) {
        Answer::Wrong(e) => assert_eq!(e, "action: unknown action `jump`"),
        other => panic!("got {other:?}"),
    }
    assert_eq!(request_text("  x \n"), Ok("x".to_string()));
    assert_eq!(request_text(" \t "), Err("empty request"));
    assert_eq!(unreadable(&"e".to_string()), "parse: e");
    assert_eq!(unsent(&"e".to_string()), "send: e");
}

// ---- the system -----------------------------------------------------------

#[test]
fn names_of_programs_and_monitors() {
    assert_eq!(Window::exe_name(r"C:\Program Files\App\App.exe"), "App.exe");
    assert_eq!(Window::exe_name("C:/a/b.exe"), "b.exe");
    assert_eq!(Window::exe_name(r"C:\a\"), "a");
    assert_eq!(Window::exe_name(""), "");
    assert_eq!(Window::exe_name(r"C:\a\.."), "");
    assert_eq!(compose_stable_id(&"D".to_string(), &"P".to_string()), "D|P");
    assert_eq!(compose_stable_id(&"D".to_string(), &String::new()), "D");
    assert_eq!(pick_friendly_name("card".to_string(), "DELL".to_string()), "DELL");
    assert_eq!(pick_friendly_name("card".to_string(), String::new()), "card");
    assert!(is_primary(1));
    assert!(!is_primary(2));
}

#[test]
fn what_is_seen_of_a_window() {
    let frame = Rect::new(1, 1, 10, 10);
    let whole = Rect::new(0, 0, 12, 12);
    assert_eq!(Window::visual_rect(Some(frame), Some(whole)), Some(frame));
    assert_eq!(Window::visual_rect(None, Some(whole)), Some(whole));
    assert_eq!(Window::visual_rect(None, None), None);
    assert!(Window::is_cloaked_by_shell(Some(2)));
    assert!(Window::is_cloaked_by_shell(Some(4)));
    assert!(!Window::is_cloaked_by_shell(Some(1)));
    assert!(!Window::is_cloaked_by_shell(None));
}

#[test]
fn events_of_the_system() {
    assert_eq!(event_for(0x8002, 7, 0), Some(WinEvent::Shown(7)));
    assert_eq!(event_for(0x8000, 7, 0), Some(WinEvent::Shown(7)));
    assert_eq!(event_for(0x8001, 7, 0), Some(WinEvent::Destroyed(7)));
    assert_eq!(event_for(0x0003, 7, 0), Some(WinEvent::Foreground(7)));
    assert_eq!(event_for(0x8002, 7, -4), None);
    assert_eq!(event_for(0x8002, 0, 0), None);
    assert_eq!(event_for(0x800b, 7, 0), None);
    assert_eq!(display_event_for(0x7e, 0), Some(DisplayEvent::TopologyChanged));
    assert_eq!(display_event_for(0x1a, 0x2f), Some(DisplayEvent::TopologyChanged));
    assert_eq!(display_event_for(0x1a, 0x30), None);
}

#[test]
fn listeners_are_started_once() {
    let mut l = Listener::new();
    assert_eq!(l.restart(), Err(ListenerError::NotStarted));
    assert_eq!(l.start(), Ok(()));
    assert!(l.is_alive());
    assert_eq!(l.start(), Err(ListenerError::StartedTwice));
    assert_eq!(l.restart(), Err(ListenerError::StillAlive));
    l.died();
    assert!(!l.is_alive());
    assert_eq!(l.restart(), Ok(()));
    assert!(l.is_alive());
}

// ---- the frame ------------------------------------------------------------

#[test]
fn the_frame_is_cut_once_per_size() {
    let mut frame = FocusBorder::new(0, -3);
    assert_eq!((frame.width, frame.radius), (0, 0));
    frame.set_width(4);
    frame.set_radius(8);
    let target = Rect::new(100, 50, 300, 200);
    assert!(frame.can_show_around(target));
    let p = frame.show_around(target).unwrap();
    assert!(p.appears);
    assert_eq!(p.bounds, Rect::new(96, 46, 308, 208));
    assert_eq!(
        p.ring,
        Some(Ring {
            outer: Rounded { left: 0, top: 0, right: 308, bottom: 208, ellipse: 24 },
            inner: Rounded { left: 4, top: 4, right: 304, bottom: 204, ellipse: 16 },
        })
    );
    let p = frame.show_around(Rect::new(400, 50, 300, 200)).unwrap();
    assert!(!p.appears);
    assert_eq!(p.ring, None);
    assert!(frame.show_around(Rect::new(400, 50, 301, 200)).unwrap().ring.is_some());
    frame.set_radius(9);
    assert!(frame.show_around(Rect::new(400, 50, 301, 200)).unwrap().ring.is_some());
    assert!(frame.hide_frame());
    assert!(!frame.hide_frame());
    assert!(!frame.can_show_around(Rect::new(i32::MIN, 0, 1, 1)));
}

#[test]
fn a_width_of_nothing_is_no_frame() {
    let target = Rect::new(100, 50, 300, 200);
    for width in [0, -3] {
        let mut frame = FocusBorder::new(width, 8);
        assert!(!frame.is_on());
        assert_eq!(frame.show_around(target), None);
        assert!(!frame.visible);
        frame.set_width(2);
        assert!(frame.is_on());
        assert!(frame.show_around(target).unwrap().appears);
        // Switched off again, the frame goes away.
        frame.set_width(width);
        assert_eq!(frame.show_around(target), None);
        assert!(!frame.visible);
    }
}
