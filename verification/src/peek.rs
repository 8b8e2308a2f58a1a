//! The window picker: an overview of a workspace's windows with a highlight.

use crate::bar;
use crate::bar::{Drawn, Stroke};
use crate::color;
use crate::color::rgb;
use crate::desk::{PeekMonitor, PeekSource};
use crate::ids::WindowId;
use crate::rect;
use crate::rect::{does_fit, Edges, Rect};
use crate::text;
use crate::text::decimal_of;
use vstd::prelude::*;
use vstd::string::StringExecFns;

verus! {

pub const HIGHLIGHT_THICKNESS: i32 = 3;

pub const CELL_GAP: i32 = 12;

pub const TITLE_BAND_H: i32 = 22;

pub const FOOTER_BAND_H: i32 = 18;

pub const OUTER_PAD: i32 = 16;

/// The settings of the picker that are whole numbers.
#[derive(Debug, Clone, Copy, PartialEq, Eq, Structural)]
pub struct PeekStyle {
    pub enabled: bool,
    pub cell_min_w: i32,
    pub cell_max_w: i32,
    pub show_titles: bool,
    pub background: u32,
    pub foreground: u32,
    pub highlight: u32,
}

impl Default for PeekStyle {
    fn default() -> (r: Self)
        ensures
            r.enabled,
            r.cell_min_w == 140,
            r.cell_max_w == 280,
            r.show_titles,
            r.background == color::packed(0x1e, 0x1e, 0x2e),
            r.foreground == color::packed(0xc0, 0xc0, 0xc0),
            r.highlight == color::packed(0x4f, 0xc3, 0xf7),
    {
        PeekStyle {
            enabled: true,
            cell_min_w: 140,
            cell_max_w: 280,
            show_titles: true,
            background: rgb(0x1e, 0x1e, 0x2e),
            foreground: rgb(0xc0, 0xc0, 0xc0),
            highlight: rgb(0x4f, 0xc3, 0xf7),
        }
    }
}

/// A window in the picker.
#[derive(Debug, Clone)]
pub struct Cell {
    pub window_id: WindowId,
    pub title: String,
    /// Where it is on the picker.
    pub rect: Edges,
    /// The live picture of the window; 0 for none.
    pub thumb: isize,
}

/// The picker while it is open.
#[derive(Debug, Clone)]
pub struct Session {
    pub cells: Vec<Cell>,
    pub highlight_idx: usize,
}

/// The picker, open or not.
#[derive(Debug, Clone)]
pub struct Peek {
    pub session: Option<Session>,
    /// Whether the picker is switched on. While it is not, its highlight does not
    /// move and nothing is chosen.
    pub enabled: bool,
}

impl Session {
    /// The highlight is on a cell, where there are any.
    pub open spec fn wf(&self) -> bool {
        self.cells@.len() > 0 ==> self.highlight_idx < self.cells@.len()
    }

    /// The highlighted window.
    pub open spec fn picked(&self) -> Option<WindowId> {
        if self.highlight_idx < self.cells@.len() {
            Some(self.cells@[self.highlight_idx as int].window_id)
        } else {
            None
        }
    }

    fn pick(&self) -> (r: Option<WindowId>)
        ensures
            r == self.picked(),
    {
        if self.highlight_idx < self.cells.len() {
            Some(self.cells[self.highlight_idx].window_id)
        } else {
            None
        }
    }
}

/// The place that is `delta` places on in a round of `len`.
pub open spec fn on_round(at: int, delta: int, len: int) -> int {
    (at + delta) % len
}

impl Peek {
    pub open spec fn wf(&self) -> bool {
        self.session matches Some(s) ==> s.wf()
    }

    pub open spec fn picked(&self) -> Option<WindowId> {
        match self.session {
            Some(s) => s.picked(),
            None => None,
        }
    }

    /// A picker that is switched on and not open.
    pub fn closed() -> (r: Peek)
        ensures
            r.session is None,
            r.enabled,
            r.wf(),
    {
        Peek { session: None, enabled: true }
    }

    pub fn is_open(&self) -> (r: bool)
        ensures
            r == self.session is Some,
    {
        self.session.is_some()
    }

    /// Move the highlight, round at both ends. Whether it has moved. Nothing moves
    /// while the picker is switched off.
    pub fn cycle(&mut self, delta: i32) -> (moved: bool)
        requires
            old(self).wf(),
            old(self).session matches Some(s) ==> s.cells@.len() <= i32::MAX,
        ensures
            final(self).wf(),
            final(self).enabled == old(self).enabled,
            match old(self).session {
                None => !moved && final(self).session is None,
                Some(s) => {
                    &&& final(self).session is Some
                    &&& final(self).session->0.cells == s.cells
                    &&& final(self).session->0.highlight_idx == (if old(self).enabled
                        && s.cells@.len() > 0 {
                        on_round(s.highlight_idx as int, delta as int, s.cells@.len() as int)
                    } else {
                        s.highlight_idx as int
                    })
                    &&& moved == (final(self).session->0.highlight_idx != s.highlight_idx)
                },
            },
    {
        if !self.enabled {
            return false;
        }
        match &mut self.session {
            None => false,
            Some(s) => {
                let len: i64 = s.cells.len() as i64;
                if len == 0 {
                    return false;
                }
                let at: i64 = s.highlight_idx as i64 + delta as i64;
                let ghost n = s.cells@.len() as int;
                let turned: i64 = if at >= 0 {
                    at % len
                } else {
                    let back: i64 = (-at) % len;
                    proof {
                        let q = (-at) / (len as int);
                        assert(-at == len * q + back) by (nonlinear_arith)
                            requires
                                q == (-at) / (len as int),
                                back == (-at) % (len as int),
                                len > 0,
                        ;
                        lemma_turned_back(at as int, len as int, back as int, q);
                    }
                    if back == 0 {
                        0
                    } else {
                        len - back
                    }
                };
                let next: usize = turned as usize;
                let moved = next != s.highlight_idx;
                s.highlight_idx = next;
                moved
            },
        }
    }

    /// The window that the highlight is on when the picker is closed without a
    /// choice.
    pub fn dismiss(&self) -> (r: Option<WindowId>)
        ensures
            r == self.picked(),
    {
        match &self.session {
            Some(s) => s.pick(),
            None => None,
        }
    }

    /// The window that was chosen; none while the picker is switched off.
    pub fn confirm(&self) -> (r: Option<WindowId>)
        ensures
            r == (if self.enabled {
                self.picked()
            } else {
                None
            }),
    {
        match &self.session {
            Some(s) => if self.enabled {
                s.pick()
            } else {
                None
            },
            None => None,
        }
    }

    /// Close the picker. The pictures that are no longer needed.
    pub fn close(&mut self) -> (thumbs: Vec<isize>)
        ensures
            final(self).session is None,
            final(self).enabled == old(self).enabled,
            match old(self).session {
                None => thumbs@.len() == 0,
                Some(s) => thumbs@ == s.cells@.map_values(|c: Cell| c.thumb),
            },
    {
        let mut thumbs: Vec<isize> = Vec::new();
        match &self.session {
            None => {},
            Some(s) => {
                let mut i: usize = 0;
                while i < s.cells.len()
                    invariant
                        i <= s.cells@.len(),
                        thumbs@.len() == i,
                        forall|k: int| 0 <= k < i ==> #[trigger] thumbs@[k] == s.cells@[k].thumb,
                    decreases s.cells@.len() - i,
                {
                    thumbs.push(s.cells[i].thumb);
                    i = i + 1;
                }
                assert(thumbs@ =~= s.cells@.map_values(|c: Cell| c.thumb));
            },
        }
        self.session = None;
        thumbs
    }
}

/// The remainder of a number below 0.
proof fn lemma_turned_back(at: int, len: int, back: int, q: int)
    requires
        len > 0,
        at < 0,
        -at == len * q + back,
        0 <= back < len,
    ensures
        at % len == (if back == 0 {
            0
        } else {
            len - back
        }),
{
    if back == 0 {
        assert(at == len * (-q)) by (nonlinear_arith)
            requires
                -at == len * q,
        ;
        vstd::arithmetic::div_mod::lemma_fundamental_div_mod_converse(at, len, -q, 0);
    } else {
        assert(at == len * (-q - 1) + (len - back)) by (nonlinear_arith)
            requires
                -at == len * q + back,
        ;
        vstd::arithmetic::div_mod::lemma_fundamental_div_mod_converse(
            at,
            len,
            -q - 1,
            len - back,
        );
    }
}

/// Going on and back by as much leaves the highlight where it was.
pub proof fn law_cycle_undoes_itself(at: int, delta: int, len: int)
    requires
        len > 0,
        0 <= at < len,
    ensures
        0 <= on_round(at, delta, len) < len,
        on_round(on_round(at, delta, len), -delta, len) == at,
{
    let q = (at + delta) / len;
    let r = (at + delta) % len;
    assert(at + delta == len * q + r && 0 <= r < len) by (nonlinear_arith)
        requires
            q == (at + delta) / len,
            r == (at + delta) % len,
            len > 0,
    ;
    assert(r - delta == (-q) * len + at) by (nonlinear_arith)
        requires
            at + delta == len * q + r,
    ;
    vstd::arithmetic::div_mod::lemma_fundamental_div_mod_converse(r - delta, len, -q, at);
}

// ---- geometry -------------------------------------------------------------

/// Division of whole numbers, rounded towards 0.
pub open spec fn quotient(a: int, b: int) -> int {
    if a >= 0 {
        a / b
    } else {
        -((-a) / b)
    }
}

/// The width of a cell: what is left for each of `n` in one row, kept between
/// the limits.
pub open spec fn cell_width(overlay_w: int, n: int, least: int, most: int) -> int {
    let ideal = if n == 0 {
        least
    } else {
        quotient(overlay_w - 2 * OUTER_PAD - (n - 1) * CELL_GAP, n)
    };
    if ideal < least {
        least
    } else if ideal > most {
        most
    } else {
        ideal
    }
}

/// The width of a cell.
pub fn cell_width_for(overlay_w: i32, n: usize, style: &PeekStyle) -> (r: i32)
    requires
        style.cell_min_w <= style.cell_max_w,
    ensures
        r == cell_width(
            overlay_w as int,
            n as int,
            style.cell_min_w as int,
            style.cell_max_w as int,
        ),
{
    let least: i128 = style.cell_min_w as i128;
    let most: i128 = style.cell_max_w as i128;
    let ideal: i128 = if n == 0 {
        least
    } else {
        let gaps: i128 = (n as i128 - 1) * 12;
        let room: i128 = overlay_w as i128 - 2 * OUTER_PAD as i128 - gaps;
        if room >= 0 {
            room / n as i128
        } else {
            -((-room) / n as i128)
        }
    };
    if ideal < least {
        style.cell_min_w
    } else if ideal > most {
        style.cell_max_w
    } else {
        ideal as i32
    }
}

/// The place of the picker and of its cells.
pub struct PeekLayout {
    pub overlay: Rect,
    pub cells: Vec<Edges>,
    pub highlight_idx: usize,
}

/// The height of the picker.
pub open spec fn overlay_height(cell_h: int, show_titles: bool) -> int {
    OUTER_PAD + cell_h + (if show_titles {
        TITLE_BAND_H as int
    } else {
        0
    }) + FOOTER_BAND_H + OUTER_PAD
}

/// The place of a cell on the picker.
pub open spec fn cell_place(i: int, cell_w: int, cell_h: int) -> Edges {
    let x = OUTER_PAD + i * (cell_w + CELL_GAP);
    Edges {
        left: x as i32,
        top: OUTER_PAD,
        right: (x + cell_w) as i32,
        bottom: (OUTER_PAD + cell_h) as i32,
    }
}

/// Whether the source at `i` is the first of a window.
pub open spec fn is_source(sources: Seq<PeekSource>, i: int, id: WindowId) -> bool {
    &&& 0 <= i < sources.len()
    &&& sources[i].window_id == id
    &&& forall|j: int| 0 <= j < i ==> (#[trigger] sources[j]).window_id != id
}

/// The first cell of a window, or the first of all.
pub open spec fn source_of(sources: Seq<PeekSource>, id: WindowId) -> int {
    if exists|i: int| is_source(sources, i, id) {
        choose|i: int| is_source(sources, i, id)
    } else {
        0
    }
}

/// The cell that is highlighted first: that of a window, or the first one.
pub open spec fn first_highlight(sources: Seq<PeekSource>, id: Option<WindowId>) -> int {
    match id {
        Some(w) => source_of(sources, w),
        None => 0,
    }
}

proof fn lemma_source(sources: Seq<PeekSource>, i: int, w: WindowId)
    requires
        is_source(sources, i, w),
    ensures
        first_highlight(sources, Some(w)) == i,
{
    let k = choose|k: int| is_source(sources, k, w);
    assert(is_source(sources, k, w));
    if k < i {
        assert(sources[k].window_id != w);
    } else if i < k {
        assert(sources[i].window_id != w);
    }
}

fn first_highlight_of(sources: &Vec<PeekSource>, id: Option<WindowId>) -> (r: usize)
    ensures
        r == first_highlight(sources@, id),
        sources@.len() > 0 ==> r < sources@.len(),
{
    match id {
        None => 0,
        Some(w) => {
            let mut i: usize = 0;
            while i < sources.len()
                invariant
                    i <= sources@.len(),
                    id == Some(w),
                    forall|j: int| 0 <= j < i ==> (#[trigger] sources@[j]).window_id != w,
                decreases sources@.len() - i,
            {
                if sources[i].window_id == w {
                    proof {
                        lemma_source(sources@, i as int, w);
                    }
                    return i;
                }
                i = i + 1;
            }
            0
        },
    }
}

/// Whether the cells of a row can be counted: the first and the last can.
pub open spec fn row_fits(n: nat, cell_w: int) -> bool {
    let last = OUTER_PAD + (n - 1) * (cell_w + CELL_GAP);
    n > 0 ==> {
        &&& rect::fits(OUTER_PAD + cell_w)
        &&& rect::fits(last)
        &&& rect::fits(last + cell_w)
    }
}

/// Whether the place of the picker and of its cells can be counted.
pub open spec fn peek_fits(
    monitor: PeekMonitor,
    n: nat,
    overlay_w: int,
    cell_w: int,
    cell_h: int,
    show_titles: bool,
) -> bool {
    let b = monitor.bounds;
    let h = overlay_height(cell_h, show_titles);
    &&& rect::fits(h)
    &&& rect::fits(b.x + quotient(b.w - overlay_w, 2))
    &&& rect::fits(b.y + quotient(b.h - h, 2))
    &&& row_fits(n, cell_w)
}

/// The height of the picker.
fn overlay_height_of(cell_h: i32, show_titles: bool) -> (r: i64)
    ensures
        r == overlay_height(cell_h as int, show_titles),
{
    let title_h: i64 = if show_titles {
        TITLE_BAND_H as i64
    } else {
        0
    };
    OUTER_PAD as i64 + cell_h as i64 + title_h + FOOTER_BAND_H as i64 + OUTER_PAD as i64
}

/// Whether the place of the picker and of its cells can be counted.
pub fn is_peek_fit(
    monitor: PeekMonitor,
    n: usize,
    overlay_w: i32,
    cell_w: i32,
    cell_h: i32,
    show_titles: bool,
) -> (r: bool)
    ensures
        r == peek_fits(
            monitor,
            n as nat,
            overlay_w as int,
            cell_w as int,
            cell_h as int,
            show_titles,
        ),
{
    let b = monitor.bounds;
    let h: i64 = overlay_height_of(cell_h, show_titles);
    let x: i64 = b.x as i64 + halved(b.w as i64 - overlay_w as i64);
    let y: i64 = b.y as i64 + halved(b.h as i64 - h);
    if !(does_fit(h as i128) && does_fit(x as i128) && does_fit(y as i128)) {
        return false;
    }
    if n == 0 {
        return true;
    }
    let w: i128 = cell_w as i128;
    let steps: i128 = n as i128 - 1;
    let step: i128 = w + CELL_GAP as i128;
    assert(-0x1_0000_0000 * 0x1_0000_0000_0000_0000 <= steps * step <= 0x1_0000_0000
        * 0x1_0000_0000_0000_0000) by (nonlinear_arith)
        requires
            0 <= steps <= 0x1_0000_0000_0000_0000,
            -0x1_0000_0000 <= step <= 0x1_0000_0000,
    ;
    let last: i128 = OUTER_PAD as i128 + steps * step;
    does_fit(OUTER_PAD as i128 + w) && does_fit(last) && does_fit(last + w)
}

/// Lay out the picker in the middle of a monitor, with its cells in one row. A
/// row that is too long goes on beyond the edge.
pub fn lay_out(
    monitor: PeekMonitor,
    sources: &Vec<PeekSource>,
    initial_focused: Option<WindowId>,
    overlay_w: i32,
    cell_w: i32,
    cell_h: i32,
    show_titles: bool,
) -> (r: PeekLayout)
    requires
        peek_fits(
            monitor,
            sources@.len(),
            overlay_w as int,
            cell_w as int,
            cell_h as int,
            show_titles,
        ),
    ensures
        ({
            let h = overlay_height(cell_h as int, show_titles);
            let b = monitor.bounds;
            &&& r.overlay.w == overlay_w
            &&& r.overlay.h == h
            &&& r.overlay.x == b.x + quotient(b.w - overlay_w, 2)
            &&& r.overlay.y == b.y + quotient(b.h - h, 2)
        }),
        r.cells@.len() == sources@.len(),
        forall|i: int|
            0 <= i < r.cells@.len() ==> #[trigger] r.cells@[i] == cell_place(
                i,
                cell_w as int,
                cell_h as int,
            ),
        r.highlight_idx == first_highlight(sources@, initial_focused),
        sources@.len() > 0 ==> r.highlight_idx < sources@.len(),
{
    let h: i64 = overlay_height_of(cell_h, show_titles);
    let b = monitor.bounds;
    let left: i64 = b.x as i64 + halved(b.w as i64 - overlay_w as i64);
    let top: i64 = b.y as i64 + halved(b.h as i64 - h);
    let overlay = Rect { x: left as i32, y: top as i32, w: overlay_w, h: h as i32 };
    let ghost n = sources@.len() as int;
    let mut cells: Vec<Edges> = Vec::new();
    let mut x: i64 = OUTER_PAD as i64;
    let mut i: usize = 0;
    while i < sources.len()
        invariant
            i <= sources@.len(),
            n == sources@.len(),
            row_fits(n as nat, cell_w as int),
            rect::fits(overlay_height(cell_h as int, show_titles)),
            x == OUTER_PAD + i * (cell_w + CELL_GAP),
            cells@.len() == i,
            forall|k: int|
                0 <= k < i ==> #[trigger] cells@[k] == cell_place(
                    k,
                    cell_w as int,
                    cell_h as int,
                ),
        decreases sources@.len() - i,
    {
        proof {
            let step = cell_w + CELL_GAP;
            bar::lemma_between(i as int, n - 1, step);
            assert((i + 1) * step == i * step + step) by (nonlinear_arith);
        }
        cells.push(
            Edges {
                left: x as i32,
                top: OUTER_PAD,
                right: (x + cell_w as i64) as i32,
                bottom: OUTER_PAD + cell_h,
            },
        );
        x = x + (cell_w as i64 + CELL_GAP as i64);
        i = i + 1;
    }
    PeekLayout { overlay, cells, highlight_idx: first_highlight_of(sources, initial_focused) }
}

/// Half of a number, rounded towards 0.
fn halved(n: i64) -> (r: i64)
    requires
        n > i64::MIN,
    ensures
        r == quotient(n as int, 2),
{
    if n >= 0 {
        n / 2
    } else {
        -((-n) / 2)
    }
}

/// Open the picker with its cells and their pictures.
pub fn open_session(
    sources: &Vec<PeekSource>,
    layout: PeekLayout,
    thumbs: &Vec<isize>,
) -> (r: Session)
    requires
        layout.cells@.len() == sources@.len(),
        thumbs@.len() == sources@.len(),
        sources@.len() > 0 ==> layout.highlight_idx < sources@.len(),
    ensures
        r.wf(),
        r.highlight_idx == layout.highlight_idx,
        r.cells@.len() == sources@.len(),
        forall|i: int|
            0 <= i < r.cells@.len() ==> {
                &&& (#[trigger] r.cells@[i]).window_id == sources@[i].window_id
                &&& r.cells@[i].title == sources@[i].title
                &&& r.cells@[i].rect == layout.cells@[i]
                &&& r.cells@[i].thumb == thumbs@[i]
            },
{
    let mut cells: Vec<Cell> = Vec::new();
    let mut i: usize = 0;
    while i < sources.len()
        invariant
            i <= sources@.len(),
            layout.cells@.len() == sources@.len(),
            thumbs@.len() == sources@.len(),
            cells@.len() == i,
            forall|k: int|
                0 <= k < i ==> {
                    &&& (#[trigger] cells@[k]).window_id == sources@[k].window_id
                    &&& cells@[k].title == sources@[k].title
                    &&& cells@[k].rect == layout.cells@[k]
                    &&& cells@[k].thumb == thumbs@[k]
                },
        decreases sources@.len() - i,
    {
        cells.push(
            Cell {
                window_id: sources[i].window_id,
                title: sources[i].title.clone(),
                rect: layout.cells[i],
                thumb: thumbs[i],
            },
        );
        i = i + 1;
    }
    Session { cells, highlight_idx: layout.highlight_idx }
}

/// The line at the bottom of the picker.
pub open spec fn footer_text(at: nat, len: nat) -> Seq<char> {
    "["@ + text::decimal(at + 1) + "/"@ + text::decimal(len)
        + "]  H/L cycle  Enter focus  Esc dismiss"@
}

/// The line at the bottom of the picker.
pub fn footer(s: &Session) -> (r: String)
    requires
        s.highlight_idx < u64::MAX,
    ensures
        r@ == footer_text(s.highlight_idx as nat, s.cells@.len()),
{
    let mut r = String::from_str("[");
    let at = decimal_of(s.highlight_idx as u64 + 1);
    r.append(at.as_str());
    r.append("/");
    let len = decimal_of(s.cells.len() as u64);
    r.append(len.as_str());
    r.append("]  H/L cycle  Enter focus  Esc dismiss");
    r
}

/// Whether the picker can be opened: it is switched on, and there is something
/// to pick.
pub fn can_open(style: &PeekStyle, sources: &Vec<PeekSource>) -> (r: bool)
    ensures
        r == (style.enabled && sources@.len() > 0),
{
    style.enabled && sources.len() > 0
}

// ---- drawing --------------------------------------------------------------

/// The ring around a cell: just outside of its picture.
pub open spec fn ring_around(e: Edges) -> Edges {
    Edges {
        left: (e.left - 2) as i32,
        top: (e.top - 2) as i32,
        right: (e.right + 2) as i32,
        bottom: (e.bottom + 2) as i32,
    }
}

/// The place of a cell's title: below its picture.
pub open spec fn title_place(e: Edges) -> Edges {
    Edges {
        left: e.left,
        top: (e.bottom + 4) as i32,
        right: e.right,
        bottom: (e.bottom + 4 + TITLE_BAND_H) as i32,
    }
}

/// The place of the line at the bottom.
pub open spec fn footer_place(client: Edges) -> Edges {
    Edges {
        left: client.left,
        top: (client.bottom - FOOTER_BAND_H - 4) as i32,
        right: client.right,
        bottom: (client.bottom - 4) as i32,
    }
}

/// The title of a cell. That of the highlighted one has the highlight's colour.
pub open spec fn title_drawn(s: Session, style: PeekStyle, i: int) -> Drawn {
    Drawn::Write(
        title_place(s.cells@[i].rect),
        s.cells@[i].title@,
        if i == s.highlight_idx {
            style.highlight
        } else {
            style.foreground
        },
        true,
    )
}

/// The titles of the first `n` cells.
pub open spec fn titles_drawn(s: Session, style: PeekStyle, n: int) -> Seq<Drawn> {
    if style.show_titles {
        Seq::new(n as nat, |i: int| title_drawn(s, style, i))
    } else {
        Seq::empty()
    }
}

/// The ring around the highlighted cell.
pub open spec fn highlight_drawn(s: Session, style: PeekStyle) -> Seq<Drawn> {
    if s.highlight_idx < s.cells@.len() {
        seq![Drawn::Outline(ring_around(s.cells@[s.highlight_idx as int].rect), style.highlight)]
    } else {
        Seq::empty()
    }
}

/// Whether the ring around a cell can be counted.
pub open spec fn ring_fits(e: Edges) -> bool {
    &&& rect::fits(e.left - 2)
    &&& rect::fits(e.top - 2)
    &&& rect::fits(e.right + 2)
    &&& rect::fits(e.bottom + 2)
}

/// Whether the place of a cell's title can be counted.
pub open spec fn title_fits(e: Edges) -> bool {
    rect::fits(e.bottom + 4 + TITLE_BAND_H)
}

/// Whether all positions that are drawn at on the picker can be counted.
pub open spec fn drawable(p: Peek, style: PeekStyle, client: Edges) -> bool {
    p.session matches Some(s) ==> {
        &&& s.highlight_idx < u64::MAX
        &&& s.highlight_idx < s.cells@.len() ==> ring_fits(s.cells@[s.highlight_idx as int].rect)
        &&& style.show_titles ==> forall|i: int|
            0 <= i < s.cells@.len() ==> title_fits((#[trigger] s.cells@[i]).rect)
        &&& rect::fits(client.bottom - FOOTER_BAND_H - 4)
    }
}

/// Whether all positions that are drawn at on the picker can be counted.
pub fn is_drawable(p: &Peek, style: &PeekStyle, client: Edges) -> (r: bool)
    ensures
        r == drawable(*p, *style, client),
{
    match &p.session {
        None => true,
        Some(s) => {
            if s.highlight_idx as u64 == u64::MAX || !does_fit(
                client.bottom as i128 - FOOTER_BAND_H as i128 - 4,
            ) {
                return false;
            }
            if s.highlight_idx < s.cells.len() {
                let e = s.cells[s.highlight_idx].rect;
                if !(does_fit(e.left as i128 - 2) && does_fit(e.top as i128 - 2)
                    && does_fit(e.right as i128 + 2) && does_fit(e.bottom as i128 + 2)) {
                    return false;
                }
            }
            if style.show_titles {
                let mut i: usize = 0;
                while i < s.cells.len()
                    invariant
                        i <= s.cells@.len(),
                        style.show_titles,
                        p.session == Some(*s),
                        forall|k: int| 0 <= k < i ==> title_fits((#[trigger] s.cells@[k]).rect),
                    decreases s.cells@.len() - i,
                {
                    let bottom: i32 = s.cells[i].rect.bottom;
                    if !does_fit(bottom as i128 + 4 + TITLE_BAND_H as i128) {
                        assert(!title_fits(s.cells@[i as int].rect));
                        return false;
                    }
                    i = i + 1;
                }
            }
            true
        },
    }
}

/// What is drawn of the picker: the background; then the ring, the titles over
/// it, and the line at the bottom.
pub open spec fn peek_drawn(p: Peek, style: PeekStyle, client: Edges) -> Seq<Drawn> {
    let back = seq![Drawn::Fill(client, style.background)];
    match p.session {
        None => back,
        Some(s) => (back + highlight_drawn(s, style) + titles_drawn(
            s,
            style,
            s.cells@.len() as int,
        )).push(
            Drawn::Write(
                footer_place(client),
                footer_text(s.highlight_idx as nat, s.cells@.len()),
                style.foreground,
                false,
            ),
        ),
    }
}

/// Draw the picker.
pub fn draw_peek(p: &Peek, style: &PeekStyle, client: Edges) -> (r: Vec<Stroke>)
    requires
        drawable(*p, *style, client),
    ensures
        bar::all_drawn(r@) == peek_drawn(*p, *style, client),
{
    let mut r: Vec<Stroke> = Vec::new();
    r.push(Stroke::Fill(client, style.background));
    let ghost back = seq![Drawn::Fill(client, style.background)];
    assert(bar::all_drawn(r@) =~= back);
    match &p.session {
        None => r,
        Some(s) => {
            if s.highlight_idx < s.cells.len() {
                let e = s.cells[s.highlight_idx].rect;
                assert(ring_fits(s.cells@[s.highlight_idx as int].rect));
                let inset: i32 = HIGHLIGHT_THICKNESS / 2 + 1;
                r.push(
                    Stroke::Outline(
                        Edges {
                            left: e.left - inset,
                            top: e.top - inset,
                            right: e.right + inset,
                            bottom: e.bottom + inset,
                        },
                        style.highlight,
                    ),
                );
            }
            let ghost framed = back + highlight_drawn(*s, *style);
            assert(bar::all_drawn(r@) =~= framed);
            if style.show_titles {
                let mut i: usize = 0;
                assert(framed + titles_drawn(*s, *style, 0) =~= framed);
                while i < s.cells.len()
                    invariant
                        i <= s.cells@.len(),
                        style.show_titles,
                        forall|k: int|
                            0 <= k < s.cells@.len() ==> title_fits(
                                (#[trigger] s.cells@[k]).rect,
                            ),
                        bar::all_drawn(r@) == framed + titles_drawn(*s, *style, i as int),
                    decreases s.cells@.len() - i,
                {
                    assert(title_fits(s.cells@[i as int].rect));
                    let e = s.cells[i].rect;
                    let color: u32 = if i == s.highlight_idx {
                        style.highlight
                    } else {
                        style.foreground
                    };
                    let ghost before = bar::all_drawn(r@);
                    r.push(
                        Stroke::Write(
                            Edges {
                                left: e.left,
                                top: e.bottom + 4,
                                right: e.right,
                                bottom: e.bottom + 4 + TITLE_BAND_H,
                            },
                            s.cells[i].title.clone(),
                            color,
                            true,
                        ),
                    );
                    proof {
                        assert(bar::all_drawn(r@) =~= before.push(
                            title_drawn(*s, *style, i as int),
                        ));
                        assert(bar::all_drawn(r@) =~= framed + titles_drawn(*s, *style, i + 1));
                    }
                    i = i + 1;
                }
            } else {
                assert(framed + titles_drawn(*s, *style, s.cells@.len() as int) =~= framed);
            }
            let ghost before = bar::all_drawn(r@);
            r.push(
                Stroke::Write(
                    Edges {
                        left: client.left,
                        top: client.bottom - FOOTER_BAND_H - 4,
                        right: client.right,
                        bottom: client.bottom - 4,
                    },
                    footer(s),
                    style.foreground,
                    false,
                ),
            );
            assert(bar::all_drawn(r@) =~= before.push(
                Drawn::Write(
                    footer_place(client),
                    footer_text(s.highlight_idx as nat, s.cells@.len()),
                    style.foreground,
                    false,
                ),
            ));
            r
        },
    }
}

// ---- what all of this adds up to --------------------------------------------

/// Going on by one comes to the next cell, and behind the last one to the first; going
/// back by one comes to the cell before.
pub proof fn law_cycle_goes_to_the_next(at: int, len: int)
    requires
        0 <= at < len,
    ensures
        at + 1 < len ==> on_round(at, 1, len) == at + 1,
        at + 1 == len ==> on_round(at, 1, len) == 0,
        at > 0 ==> on_round(at, -1, len) == at - 1,
        at == 0 ==> on_round(at, -1, len) == len - 1,
{
    assert(at + 1 < len ==> (at + 1) % len == at + 1) by (nonlinear_arith)
        requires
            0 <= at < len,
    ;
    assert(at + 1 == len ==> (at + 1) % len == 0) by (nonlinear_arith)
        requires
            0 <= at < len,
    ;
    assert(at > 0 ==> (at - 1) % len == at - 1) by (nonlinear_arith)
        requires
            0 <= at < len,
    ;
    if at == 0 {
        vstd::arithmetic::div_mod::lemma_fundamental_div_mod_converse(-1, len, -1, len - 1);
    }
}

/// The cells stand side by side, 12 pixels apart and 16 pixels from the corner, all of
/// the same size.
pub proof fn law_cells_stand_in_a_row(i: int, cell_w: int, cell_h: int)
    requires
        i >= 0,
        cell_w >= 0,
        cell_h >= 0,
        rect::fits(16 + cell_h),
        rect::fits(16 + (i + 1) * (cell_w + 12) + cell_w),
    ensures
        ({
            let a = cell_place(i, cell_w, cell_h);
            let b = cell_place(i + 1, cell_w, cell_h);
            &&& cell_place(0, cell_w, cell_h).left == 16
            &&& b.left == a.right + 12
            &&& a.top == 16 && b.top == 16
            &&& a.right - a.left == cell_w && a.bottom - a.top == cell_h
            &&& b.right - b.left == cell_w && b.bottom - b.top == cell_h
        }),
{
    let step = cell_w + 12;
    assert((i + 1) * step == i * step + step) by (nonlinear_arith);
    assert(i * step >= 0) by (nonlinear_arith)
        requires
            i >= 0,
            step >= 0,
    ;
    assert(0 * step == 0) by (nonlinear_arith);
}

/// The cells of a row fill the width as far as they can: they fit with their gaps and
/// margins, and would not if each were a pixel wider; but they are never narrower or
/// wider than they may be.
pub proof fn law_cells_share_the_width(overlay_w: int, n: int, least: int, most: int)
    requires
        n >= 1,
        least <= most,
        overlay_w >= 32 + (n - 1) * 12,
    ensures
        ({
            let w = cell_width(overlay_w, n, least, most);
            &&& least <= w <= most
            &&& w > least ==> 32 + n * w + (n - 1) * 12 <= overlay_w
            &&& w < most ==> 32 + n * (w + 1) + (n - 1) * 12 > overlay_w
        }),
{
    let room = overlay_w - 32 - (n - 1) * 12;
    let ideal = room / n;
    assert(n * ideal <= room < n * (ideal + 1)) by (nonlinear_arith)
        requires
            n >= 1,
            ideal == room / n,
    ;
    let w = cell_width(overlay_w, n, least, most);
    if w > least {
        assert(w <= ideal);
        assert(n * w <= n * ideal) by (nonlinear_arith)
            requires
                n >= 1,
                w <= ideal,
        ;
    }
    if w < most {
        assert(w >= ideal);
        assert(n * (w + 1) >= n * (ideal + 1)) by (nonlinear_arith)
            requires
                n >= 1,
                w >= ideal,
        ;
    }
}

/// The picker is as high as its cells with the titles below them, the line at the
/// bottom, and the margins; without titles it is 22 pixels lower.
pub proof fn law_picker_is_as_high_as_its_parts(cell_h: int)
    ensures
        overlay_height(cell_h, false) == 16 + cell_h + 18 + 16,
        overlay_height(cell_h, true) == overlay_height(cell_h, false) + 22,
{
}

/// The cell that is highlighted first is that of the focused window, or the first one.
pub proof fn law_focused_window_is_highlighted(sources: Seq<PeekSource>, i: int)
    requires
        0 <= i < sources.len(),
        forall|a: int, b: int|
            0 <= a < b < sources.len() ==> (#[trigger] sources[a]).window_id != (
            #[trigger] sources[b]).window_id,
    ensures
        first_highlight(sources, Some(sources[i].window_id)) == i,
        first_highlight(sources, None) == 0,
{
    assert(is_source(sources, i, sources[i].window_id));
    lemma_source(sources, i, sources[i].window_id);
}

/// The highlighted cell, and no other, has a ring of 2 pixels around it and its title in
/// the highlight's colour; the titles stand below their cells.
pub proof fn law_highlight_is_seen(p: Peek, style: PeekStyle, client: Edges, i: int)
    requires
        p.session is Some,
        p.wf(),
        drawable(p, style, client),
        style.show_titles,
        0 <= i < p.session->0.cells@.len(),
    ensures
        ({
            let s = p.session->0;
            let drawn = peek_drawn(p, style, client);
            let at = s.cells@[s.highlight_idx as int].rect;
            let cell = s.cells@[i].rect;
            &&& drawn.len() == s.cells@.len() + 3
            &&& drawn[0] == Drawn::Fill(client, style.background)
            &&& drawn[1] matches Drawn::Outline(ring, color) && color == style.highlight && ring.left
                == at.left - 2 && ring.top == at.top - 2 && ring.right == at.right + 2
                && ring.bottom == at.bottom + 2
            &&& drawn[i + 2] matches Drawn::Write(place, said, color, _) && said
                == s.cells@[i].title@ && place.left == cell.left && place.right == cell.right
                && place.top == cell.bottom + 4 && place.bottom == cell.bottom + 26 && color == (
            if i == s.highlight_idx {
                style.highlight
            } else {
                style.foreground
            })
            &&& drawn.last() matches Drawn::Write(place, said, color, _) && color
                == style.foreground && place.bottom <= client.bottom && said == "["@
                + text::decimal((s.highlight_idx + 1) as nat) + "/"@ + text::decimal(
                s.cells@.len(),
            ) + "]  H/L cycle  Enter focus  Esc dismiss"@
        }),
{
    let s = p.session->0;
    assert(title_fits(s.cells@[i].rect));
    let drawn = peek_drawn(p, style, client);
    assert(drawn[i + 2] == title_drawn(s, style, i));
}

} // verus!
