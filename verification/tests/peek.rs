use dwmend::bar::Stroke;
use dwmend::desk::{PeekMonitor, PeekSource};
use dwmend::ids::WindowId;
use dwmend::peek::{
    can_open, cell_width_for, draw_peek, footer, is_drawable, is_peek_fit, lay_out, open_session,
    Cell, Peek, PeekStyle, Session,
};
use dwmend::rect::{Edges, Rect};

fn nowhere() -> Edges {
    Edges { left: 0, top: 0, right: 0, bottom: 0 }
}

fn cell(id: isize, title: &str) -> Cell {
    Cell { window_id: WindowId(id), title: title.to_string(), rect: nowhere(), thumb: 0 }
}

#[test]
fn cycle_wraps_at_both_ends() {
    let mut peek = Peek {
        session: Some(Session {
            cells: vec![cell(1, "a"), cell(2, "b"), cell(3, "c")],
            highlight_idx: 0,
        }),
        enabled: true,
    };

    peek.cycle(1);
    assert_eq!(peek.session.as_ref().unwrap().highlight_idx, 1);
    peek.cycle(1);
    assert_eq!(peek.session.as_ref().unwrap().highlight_idx, 2);
    // Forward off the end wraps to 0.
    peek.cycle(1);
    assert_eq!(peek.session.as_ref().unwrap().highlight_idx, 0);
    // Backward off 0 wraps to last.
    peek.cycle(-1);
    assert_eq!(peek.session.as_ref().unwrap().highlight_idx, 2);
}

#[test]
fn confirm_returns_highlighted_window() {
    let peek = Peek {
        session: Some(Session { cells: vec![cell(42, "x")], highlight_idx: 0 }),
        enabled: true,
    };
    let pick = peek.confirm();
    assert_eq!(pick, Some(WindowId(42)));
}

#[test]
fn is_open_tracks_session() {
    let mut peek = Peek::closed();
    assert!(!peek.is_open());
    peek.session = Some(Session { cells: vec![], highlight_idx: 0 });
    assert!(peek.is_open());
    peek.session = None;
    assert!(!peek.is_open());
}

#[test]
fn config_round_trip() {
    let cfg = PeekStyle::default();
    assert!(cfg.enabled);
    assert!(cfg.cell_min_w < cfg.cell_max_w);
}

#[test]
fn a_picker_that_is_switched_off_does_nothing() {
    let mut peek = Peek {
        session: Some(Session { cells: vec![cell(1, "a"), cell(2, "b")], highlight_idx: 1 }),
        enabled: false,
    };
    assert!(!peek.cycle(1));
    assert_eq!(peek.session.as_ref().unwrap().highlight_idx, 1);
    assert_eq!(peek.confirm(), None);
    // It can still be closed, and goes on once it is switched on again.
    assert_eq!(peek.dismiss(), Some(WindowId(2)));
    peek.enabled = true;
    assert!(peek.cycle(1));
    assert_eq!(peek.confirm(), Some(WindowId(1)));
}

#[test]
fn style_defaults() {
    let style = PeekStyle::default();
    assert_eq!(style.highlight, 0x00F7C34F);
}

#[test]
fn cycling_forth_and_back_changes_nothing() {
    let mut peek = Peek {
        session: Some(Session {
            cells: vec![cell(1, "a"), cell(2, "b"), cell(3, "c")],
            highlight_idx: 1,
        }),
        enabled: true,
    };
    peek.cycle(7);
    peek.cycle(-7);
    assert_eq!(peek.session.as_ref().unwrap().highlight_idx, 1);
}

#[test]
fn closing_hands_back_the_pictures() {
    let mut a = cell(1, "a");
    a.thumb = 77;
    let mut peek =
        Peek { session: Some(Session { cells: vec![a], highlight_idx: 0 }), enabled: true };
    assert_eq!(peek.dismiss(), Some(WindowId(1)));
    assert_eq!(peek.close(), vec![77]);
    assert!(!peek.is_open());
    assert_eq!(peek.confirm(), None);
}

fn source(id: isize, title: &str) -> PeekSource {
    PeekSource { window_id: WindowId(id), source_hwnd: id, title: title.to_string() }
}

#[test]
fn the_picker_is_laid_out_in_the_middle() {
    let monitor = PeekMonitor { bounds: Rect::new(0, 0, 1920, 1080) };
    let sources = vec![source(1, "a"), source(2, "b")];
    let style = PeekStyle::default();
    assert!(can_open(&style, &sources));
    assert!(!can_open(&style, &Vec::new()));
    let cell_w = cell_width_for(1536, 2, &style);
    assert_eq!(cell_w, 280);
    assert_eq!(cell_width_for(1536, 20, &style), 140);
    assert!(is_peek_fit(monitor, 2, 1536, cell_w, 175, true));
    let layout = lay_out(monitor, &sources, Some(WindowId(2)), 1536, cell_w, 175, true);
    assert_eq!(layout.overlay, Rect::new(192, 416, 1536, 247));
    assert_eq!(layout.cells[0], Edges { left: 16, top: 16, right: 296, bottom: 191 });
    assert_eq!(layout.cells[1], Edges { left: 308, top: 16, right: 588, bottom: 191 });
    assert_eq!(layout.highlight_idx, 1);
    let session = open_session(&sources, layout, &vec![10, 20]);
    assert_eq!(session.cells[1].title, "b");
    assert_eq!(session.cells[1].thumb, 20);
    assert_eq!(footer(&session), "[2/2]  H/L cycle  Enter focus  Esc dismiss");

    let client = Edges { left: 0, top: 0, right: 1536, bottom: 247 };
    let peek = Peek { session: Some(session), enabled: true };
    assert!(is_drawable(&peek, &style, client));
    let strokes = draw_peek(&peek, &style, client);
    assert_eq!(strokes.len(), 5);
    match &strokes[1] {
        Stroke::Outline(e, c) => {
            assert_eq!(*e, Edges { left: 306, top: 14, right: 590, bottom: 193 });
            assert_eq!(*c, style.highlight);
        }
        other => panic!("got {other:?}"),
    }
    match &strokes[3] {
        Stroke::Write(e, s, c, _) => {
            assert_eq!(*e, Edges { left: 308, top: 195, right: 588, bottom: 217 });
            assert_eq!(s, "b");
            assert_eq!(*c, style.highlight);
        }
        other => panic!("got {other:?}"),
    }
    match &strokes[4] {
        Stroke::Write(e, _, c, cut) => {
            assert_eq!(*e, Edges { left: 0, top: 225, right: 1536, bottom: 243 });
            assert_eq!(*c, style.foreground);
            assert!(!cut);
        }
        other => panic!("got {other:?}"),
    }
    assert_eq!(draw_peek(&Peek::closed(), &style, client).len(), 1);
}

#[test]
fn a_row_of_cells_can_only_be_so_long() {
    let monitor = PeekMonitor { bounds: Rect::new(i32::MAX - 1920, 0, 1920, 1080) };
    assert!(is_peek_fit(monitor, 2, 1536, 280, 175, true));
    assert!(is_peek_fit(monitor, 7_354_396, 1536, 280, 175, true));
    assert!(!is_peek_fit(monitor, 7_354_397, 1536, 280, 175, true));
    assert!(!is_peek_fit(monitor, usize::MAX, 1536, 280, 175, true));
    assert!(is_peek_fit(monitor, 2, 1536, 280, i32::MAX - 50, false));
    assert!(!is_peek_fit(monitor, 2, 1536, 280, i32::MAX - 50, true));
    assert_eq!(cell_width_for(1536, usize::MAX, &PeekStyle::default()), 140);
}
