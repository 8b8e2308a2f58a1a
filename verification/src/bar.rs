//! The status bar.
//!
//! A bar shows the workspaces, the title of the focused window, and indicators.
//! What is drawn is decided here; the widths of the texts come from whoever
//! draws them.

use crate::color;
use crate::color::rgb;
use crate::desk::BarSpec;
use crate::rect;
use crate::rect::{does_fit, Edges};
use crate::text;
use crate::text::decimal_of;
use vstd::prelude::*;
use vstd::string::StringExecFns;

verus! {

pub const DEFAULT_HEIGHT: i32 = 28;

/// The least height of a bar, so that its text can be read.
pub const LEAST_HEIGHT: i32 = 16;

/// What a bar says of one workspace.
#[derive(Debug, Clone, Copy, PartialEq, Eq, Structural)]
pub struct WorkspaceState {
    pub id: u32,
    /// It is on the bar's own monitor.
    pub is_active: bool,
    /// It is on some monitor.
    pub is_visible: bool,
    pub has_windows: bool,
}

/// What a bar shows.
#[derive(Debug, Clone)]
pub struct BarSnapshot {
    pub workspaces: Vec<WorkspaceState>,
    pub focused_title: String,
    pub right_label: Option<String>,
}

/// The contents of a bar.
pub struct BarContents {
    pub workspaces: Seq<WorkspaceState>,
    pub focused_title: Seq<char>,
    pub right_label: Option<Seq<char>>,
}

impl View for BarSnapshot {
    type V = BarContents;

    open spec fn view(&self) -> BarContents {
        BarContents {
            workspaces: self.workspaces@,
            focused_title: self.focused_title@,
            right_label: match self.right_label {
                Some(s) => Some(s@),
                None => None,
            },
        }
    }
}

fn same_label(a: &Option<String>, b: &Option<String>) -> (r: bool)
    ensures
        r == ((match *a {
            Some(s) => Some(s@),
            None => None,
        }) == (match *b {
            Some(s) => Some(s@),
            None => None,
        })),
{
    match (a, b) {
        (Some(x), Some(y)) => *x == *y,
        (None, None) => true,
        _ => false,
    }
}

impl BarSnapshot {
    /// Whether two bars show the same, so that nothing is to be drawn again.
    pub fn shows_same(&self, other: &BarSnapshot) -> (r: bool)
        ensures
            r == (self@ == other@),
    {
        if self.workspaces.len() != other.workspaces.len() {
            return false;
        }
        let mut i: usize = 0;
        while i < self.workspaces.len()
            invariant
                i <= self.workspaces@.len(),
                self.workspaces@.len() == other.workspaces@.len(),
                forall|k: int|
                    0 <= k < i ==> #[trigger] self.workspaces@[k] == other.workspaces@[k],
            decreases self.workspaces@.len() - i,
        {
            if self.workspaces[i] != other.workspaces[i] {
                return false;
            }
            i = i + 1;
        }
        assert(self.workspaces@ =~= other.workspaces@);
        self.focused_title == other.focused_title && same_label(
            &self.right_label,
            &other.right_label,
        )
    }
}

/// A bar that shows nothing.
pub fn empty_snapshot() -> (r: BarSnapshot)
    ensures
        r@ == (BarContents {
            workspaces: Seq::empty(),
            focused_title: Seq::empty(),
            right_label: None,
        }),
{
    let title = String::new();
    assert(title@ =~= Seq::<char>::empty());
    let workspaces: Vec<WorkspaceState> = Vec::new();
    assert(workspaces@ =~= Seq::<WorkspaceState>::empty());
    BarSnapshot { workspaces, focused_title: title, right_label: None }
}

/// The colours of a bar.
#[derive(Debug, Clone, Copy, PartialEq, Eq, Structural)]
pub struct BarColors {
    pub background: u32,
    pub foreground: u32,
    pub active_bg: u32,
    pub active_fg: u32,
    pub visible_outline: u32,
    pub dim_fg: u32,
}

impl BarColors {
    /// The colours where none are written down.
    pub open spec fn usual(self) -> bool {
        &&& self.background == color::packed(0x1e, 0x1e, 0x2e)
        &&& self.foreground == color::packed(0xc0, 0xc0, 0xc0)
        &&& self.active_bg == color::packed(0x4f, 0xc3, 0xf7)
        &&& self.active_fg == color::packed(0x10, 0x10, 0x18)
        &&& self.visible_outline == color::packed(0x80, 0x80, 0x80)
        &&& self.dim_fg == color::packed(0x60, 0x60, 0x60)
    }
}

impl Default for BarColors {
    fn default() -> (r: Self)
        ensures
            r.usual(),
    {
        BarColors {
            background: rgb(0x1e, 0x1e, 0x2e),
            foreground: rgb(0xc0, 0xc0, 0xc0),
            active_bg: rgb(0x4f, 0xc3, 0xf7),
            active_fg: rgb(0x10, 0x10, 0x18),
            visible_outline: rgb(0x80, 0x80, 0x80),
            dim_fg: rgb(0x60, 0x60, 0x60),
        }
    }
}

/// Which parts of a bar are shown.
#[derive(Debug, Clone, Copy, PartialEq, Eq, Structural)]
pub struct BarSegments {
    pub icon: bool,
    pub workspaces: bool,
    pub focused_title: bool,
    pub clock: bool,
    pub battery: bool,
    pub network: bool,
    pub pause_indicator: bool,
}

// ---- indicators -----------------------------------------------------------

/// The state of the battery.
#[derive(Debug, Clone, Copy, PartialEq, Eq, Structural)]
pub struct BatteryStatus {
    /// How full it is, or 255 where that is not known.
    pub percent: u8,
    pub on_ac: bool,
}

/// The state of the battery, from the numbers of the operating system; none
/// where there is no battery.
pub fn battery_from(flag: u8, percent: u8, ac_line: u8) -> (r: Option<BatteryStatus>)
    ensures
        r == (if flag & 0x80 != 0 {
            None
        } else {
            Some(BatteryStatus { percent, on_ac: ac_line == 1 })
        }),
{
    if (flag & 0x80) != 0 {
        None
    } else {
        Some(BatteryStatus { percent, on_ac: ac_line == 1 })
    }
}

/// The battery in words.
pub open spec fn battery_text(b: BatteryStatus) -> Seq<char> {
    let sign = if b.on_ac {
        "\u{26A1} "@
    } else {
        "\u{1F50B} "@
    };
    if b.percent == 255 {
        sign + "\u{2014}"@
    } else {
        sign + text::decimal(b.percent as nat) + "%"@
    }
}

/// The battery in words.
pub fn format_battery(b: BatteryStatus) -> (r: String)
    ensures
        r@ == battery_text(b),
{
    let mut r = if b.on_ac {
        String::from_str("\u{26A1} ")
    } else {
        String::from_str("\u{1F50B} ")
    };
    if b.percent == 255 {
        r.append("\u{2014}");
    } else {
        let n = decimal_of(b.percent as u64);
        r.append(n.as_str());
        r.append("%");
    }
    r
}

/// The kind of the network in use.
#[derive(Debug, Clone, Copy, PartialEq, Eq, Structural)]
pub enum NetworkKind {
    Ethernet,
    WiFi,
}

/// The number of the operating system for an Ethernet adapter.
pub const IF_TYPE_ETHERNET: u32 = 6;

/// The number of the operating system for a wireless adapter.
pub const IF_TYPE_WIFI: u32 = 71;

/// A network adapter.
#[derive(Debug, Clone, Copy, PartialEq, Eq, Structural)]
pub struct Adapter {
    pub up: bool,
    pub if_type: u32,
}

/// Whether an adapter of a type is up.
pub open spec fn has_up(adapters: Seq<Adapter>, if_type: u32) -> bool {
    exists|i: int|
        0 <= i < adapters.len() && (#[trigger] adapters[i]).up && adapters[i].if_type == if_type
}

/// The kind of the network in use: Ethernet before wireless.
pub open spec fn network(adapters: Seq<Adapter>) -> Option<NetworkKind> {
    if has_up(adapters, IF_TYPE_ETHERNET) {
        Some(NetworkKind::Ethernet)
    } else if has_up(adapters, IF_TYPE_WIFI) {
        Some(NetworkKind::WiFi)
    } else {
        None
    }
}

/// The kind of the network in use.
pub fn current_network(adapters: &Vec<Adapter>) -> (r: Option<NetworkKind>)
    ensures
        r == network(adapters@),
{
    let mut ethernet = false;
    let mut wifi = false;
    let mut i: usize = 0;
    while i < adapters.len()
        invariant
            i <= adapters@.len(),
            ethernet ==> has_up(adapters@, IF_TYPE_ETHERNET),
            wifi ==> has_up(adapters@, IF_TYPE_WIFI),
            forall|k: int|
                0 <= k < i && (#[trigger] adapters@[k]).up ==> {
                    &&& adapters@[k].if_type == IF_TYPE_ETHERNET ==> ethernet
                    &&& adapters@[k].if_type == IF_TYPE_WIFI ==> wifi
                },
        decreases adapters@.len() - i,
    {
        let a = adapters[i];
        if a.up {
            assert(adapters@[i as int].up);
            if a.if_type == IF_TYPE_ETHERNET {
                ethernet = true;
            } else if a.if_type == IF_TYPE_WIFI {
                wifi = true;
            }
        }
        i = i + 1;
    }
    if ethernet {
        Some(NetworkKind::Ethernet)
    } else if wifi {
        Some(NetworkKind::WiFi)
    } else {
        None
    }
}

/// The network in a sign.
pub open spec fn network_text(kind: NetworkKind) -> Seq<char> {
    match kind {
        NetworkKind::Ethernet => "\u{1F310}"@,
        NetworkKind::WiFi => "\u{1F4F6}"@,
    }
}

/// The network in a sign.
pub fn format_network(kind: NetworkKind) -> (r: String)
    ensures
        r@ == network_text(kind),
{
    match kind {
        NetworkKind::Ethernet => String::from_str("\u{1F310}"),
        NetworkKind::WiFi => String::from_str("\u{1F4F6}"),
    }
}

/// How long the kind of the network is taken to be the same, in milliseconds.
pub const NETWORK_CACHE_TTL_MS: u64 = 5000;

/// The kind of the network when it was last looked up, in milliseconds.
#[derive(Debug, Clone, Copy)]
pub struct NetworkCache {
    pub seen: Option<(u64, Option<NetworkKind>)>,
}

impl NetworkCache {
    pub fn new() -> (r: NetworkCache)
        ensures
            r.seen is None,
    {
        NetworkCache { seen: None }
    }

    /// The kind of the network where it was looked up a short while ago.
    pub fn current_network_cached(&self, now: u64) -> (r: Option<Option<NetworkKind>>)
        ensures
            r == (match self.seen {
                Some((at, kind)) => if now < at || now - at < NETWORK_CACHE_TTL_MS {
                    Some(kind)
                } else {
                    None
                },
                None => None,
            }),
    {
        match self.seen {
            Some((at, kind)) => if now < at || now - at < NETWORK_CACHE_TTL_MS {
                Some(kind)
            } else {
                None
            },
            None => None,
        }
    }

    /// Note what was looked up.
    pub fn store(&mut self, now: u64, kind: Option<NetworkKind>)
        ensures
            final(self).seen == Some((now, kind)),
    {
        self.seen = Some((now, kind));
    }
}

/// The time of day in words, with twelve hours.
pub open spec fn clock_text(hour: u16, minute: u16) -> Seq<char> {
    let h: int = if hour == 0 {
        12
    } else if hour <= 12 {
        hour as int
    } else {
        hour - 12
    };
    let zero = if minute < 10 {
        ":0"@
    } else {
        ":"@
    };
    let half = if hour < 12 {
        " AM"@
    } else {
        " PM"@
    };
    text::decimal(h as nat) + zero + text::decimal(minute as nat) + half
}

/// The time of day in words, with twelve hours.
pub fn format_clock(hour: u16, minute: u16) -> (r: String)
    ensures
        r@ == clock_text(hour, minute),
{
    let h: u16 = if hour == 0 {
        12
    } else if hour <= 12 {
        hour
    } else {
        hour - 12
    };
    let mut r = decimal_of(h as u64);
    if minute < 10 {
        r.append(":0");
    } else {
        r.append(":");
    }
    let m = decimal_of(minute as u64);
    r.append(m.as_str());
    if hour < 12 {
        r.append(" AM");
    } else {
        r.append(" PM");
    }
    r
}

/// What is shown on a bar. Parts that are switched off have none.
#[derive(Debug, Clone)]
pub struct BarTexts {
    pub workspaces: Vec<WorkspaceState>,
    pub clock: Option<String>,
    pub battery: Option<String>,
    pub network: Option<String>,
    pub label: Option<String>,
    pub title: String,
}

/// A text that is shown only where its part is switched on.
pub open spec fn shown(on: bool, t: Option<Seq<char>>) -> Option<Seq<char>> {
    if on {
        t
    } else {
        None
    }
}

pub open spec fn text_view(t: Option<String>) -> Option<Seq<char>> {
    match t {
        Some(s) => Some(s@),
        None => None,
    }
}

/// What is shown on a bar.
pub fn bar_texts(
    segments: BarSegments,
    snap: &BarSnapshot,
    hour: u16,
    minute: u16,
    battery: Option<BatteryStatus>,
    network: Option<NetworkKind>,
) -> (r: BarTexts)
    ensures
        r.workspaces@ == (if segments.workspaces {
            snap.workspaces@
        } else {
            Seq::empty()
        }),
        text_view(r.clock) == shown(segments.clock, Some(clock_text(hour, minute))),
        text_view(r.battery) == shown(
            segments.battery,
            match battery {
                Some(b) => Some(battery_text(b)),
                None => None,
            },
        ),
        text_view(r.network) == shown(
            segments.network,
            match network {
                Some(kind) => Some(network_text(kind)),
                None => None,
            },
        ),
        text_view(r.label) == shown(segments.pause_indicator, snap@.right_label),
        r.title@ == (if segments.focused_title {
            snap.focused_title@
        } else {
            Seq::empty()
        }),
{
    let mut workspaces: Vec<WorkspaceState> = Vec::new();
    if segments.workspaces {
        let mut i: usize = 0;
        while i < snap.workspaces.len()
            invariant
                i <= snap.workspaces@.len(),
                workspaces@ == snap.workspaces@.take(i as int),
            decreases snap.workspaces@.len() - i,
        {
            workspaces.push(snap.workspaces[i]);
            i = i + 1;
        }
    }
    let clock = if segments.clock {
        Some(format_clock(hour, minute))
    } else {
        None
    };
    let battery = match battery {
        Some(b) => if segments.battery {
            Some(format_battery(b))
        } else {
            None
        },
        None => None,
    };
    let network = match network {
        Some(kind) => if segments.network {
            Some(format_network(kind))
        } else {
            None
        },
        None => None,
    };
    let label = match &snap.right_label {
        Some(s) => if segments.pause_indicator {
            Some(s.clone())
        } else {
            None
        },
        None => None,
    };
    let title = if segments.focused_title {
        snap.focused_title.clone()
    } else {
        let none = String::new();
        assert(none@ =~= Seq::<char>::empty());
        none
    };
    BarTexts { workspaces, clock, battery, network, label, title }
}

// ---- drawing --------------------------------------------------------------

/// One thing to draw.
#[derive(Debug, Clone)]
pub enum Stroke {
    /// Fill a rectangle.
    Fill(Edges, u32),
    /// Draw the outline of a rectangle.
    Outline(Edges, u32),
    /// Draw the icon with its corner at a point, this large.
    Icon(i32, i32, i32),
    /// Write a line of text in a rectangle, halfway up; the last field tells whether
    /// it is cut off at the end where there is no room.
    Write(Edges, String, u32, bool),
}

/// One thing to draw, with the text that is written.
pub enum Drawn {
    Fill(Edges, u32),
    Outline(Edges, u32),
    Icon(int, int, int),
    Write(Edges, Seq<char>, u32, bool),
}

impl Stroke {
    pub open spec fn drawn(self) -> Drawn {
        match self {
            Stroke::Fill(e, c) => Drawn::Fill(e, c),
            Stroke::Outline(e, c) => Drawn::Outline(e, c),
            Stroke::Icon(x, y, size) => Drawn::Icon(x as int, y as int, size as int),
            Stroke::Write(e, s, c, cut) => Drawn::Write(e, s@, c, cut),
        }
    }
}

pub open spec fn all_drawn(all: Seq<Stroke>) -> Seq<Drawn> {
    all.map_values(|s: Stroke| s.drawn())
}

/// The texts on the right side of a bar, and their widths. A part without a
/// text takes no room.
#[derive(Debug, Clone)]
pub struct RightSide {
    pub clock: Option<(String, i32)>,
    pub battery: Option<(String, i32)>,
    pub network: Option<(String, i32)>,
    pub label: Option<(String, i32)>,
}

/// The size of the icon on a bar of this height.
pub open spec fn icon_size(height: int) -> int {
    if height - 8 < 16 {
        16
    } else if height - 8 > 32 {
        32
    } else {
        height - 8
    }
}

/// Where the workspaces start: behind the icon, where there is one.
pub open spec fn pills_from(rc: Edges, icon: bool) -> int {
    if icon {
        rc.left + 6 + icon_size(rc.bottom - rc.top) + 6
    } else {
        rc.left as int
    }
}

/// The field of the workspace at a place.
pub open spec fn pill(rc: Edges, icon: bool, i: int) -> Edges {
    let w = rc.bottom - rc.top - 6;
    let x = pills_from(rc, icon) + i * (w + 4);
    Edges { left: x as i32, top: rc.top, right: (x + w) as i32, bottom: rc.bottom }
}

/// Whether the fields of `n` workspaces can be counted: those of the first and of
/// the last can.
pub open spec fn pills_fit(rc: Edges, icon: bool, n: nat) -> bool {
    let w = rc.bottom - rc.top - 6;
    let first = pills_from(rc, icon);
    let last = first + (n - 1) * (w + 4);
    n > 0 ==> {
        &&& rect::fits(first)
        &&& rect::fits(first + w)
        &&& rect::fits(last)
        &&& rect::fits(last + w)
    }
}

/// A part of a whole is between nothing and the whole.
pub proof fn lemma_between(i: int, n: int, step: int)
    requires
        0 <= i <= n,
    ensures
        0 <= i * step <= n * step || n * step <= i * step <= 0,
{
    assert(0 <= i * step <= n * step || n * step <= i * step <= 0) by (nonlinear_arith)
        requires
            0 <= i <= n,
    ;
}

/// Where the first and the last field can be counted, all can.
proof fn lemma_pill_fits(rc: Edges, icon: bool, n: nat, i: int)
    requires
        pills_fit(rc, icon, n),
        0 <= i < n,
    ensures
        ({
            let w = rc.bottom - rc.top - 6;
            let x = pills_from(rc, icon) + i * (w + 4);
            rect::fits(x) && rect::fits(x + w)
        }),
{
    lemma_between(i, n - 1, rc.bottom - rc.top - 6 + 4);
}

/// Whether the fields of `n` workspaces can be counted.
pub fn are_pills_fit(rc: Edges, icon: bool, n: usize) -> (r: bool)
    ensures
        r == pills_fit(rc, icon, n as nat),
{
    if n == 0 {
        return true;
    }
    let w: i128 = rc.bottom as i128 - rc.top as i128 - 6;
    let first: i128 = pills_start(rc, icon) as i128;
    let steps: i128 = n as i128 - 1;
    assert(-0x2_0000_0000 * 0x1_0000_0000_0000_0000 <= steps * (w + 4) <= 0x2_0000_0000
        * 0x1_0000_0000_0000_0000) by (nonlinear_arith)
        requires
            0 <= steps <= 0x1_0000_0000_0000_0000,
            -0x2_0000_0000 <= w + 4 <= 0x2_0000_0000,
    ;
    let last: i128 = first + steps * (w + 4);
    does_fit(first) && does_fit(first + w) && does_fit(last) && does_fit(last + w)
}

/// The size of the icon on a bar of this height.
fn icon_size_of(height: i64) -> (r: i64)
    requires
        -0x1_0000_0000 <= height <= 0x1_0000_0000,
    ensures
        r == icon_size(height as int),
        16 <= r <= 32,
{
    if height - 8 < 16 {
        16
    } else if height - 8 > 32 {
        32
    } else {
        height - 8
    }
}

/// Where the workspaces start.
fn pills_start(rc: Edges, icon: bool) -> (r: i64)
    ensures
        r == pills_from(rc, icon),
        rc.left <= r <= rc.left + 44,
{
    if icon {
        rc.left as i64 + 6 + icon_size_of(rc.bottom as i64 - rc.top as i64) + 6
    } else {
        rc.left as i64
    }
}

/// How one workspace is drawn: filled where it is on this monitor, outlined
/// where it is on another, and dim where it is empty.
pub open spec fn pill_drawn(
    rc: Edges,
    icon: bool,
    i: int,
    ws: WorkspaceState,
    colors: BarColors,
) -> Seq<Drawn> {
    let field = pill(rc, icon, i);
    let name = text::decimal(ws.id as nat);
    if ws.is_active {
        seq![
            Drawn::Fill(field, colors.active_bg),
            Drawn::Write(field, name, colors.active_fg, false),
        ]
    } else if ws.is_visible {
        seq![
            Drawn::Outline(field, colors.visible_outline),
            Drawn::Write(field, name, colors.foreground, false),
        ]
    } else if ws.has_windows {
        seq![Drawn::Write(field, name, colors.foreground, false)]
    } else {
        seq![Drawn::Write(field, name, colors.dim_fg, false)]
    }
}

/// How the first `n` workspaces are drawn.
pub open spec fn pills_drawn(
    rc: Edges,
    icon: bool,
    all: Seq<WorkspaceState>,
    n: int,
    colors: BarColors,
) -> Seq<Drawn>
    decreases n,
{
    if n <= 0 {
        Seq::empty()
    } else {
        pills_drawn(rc, icon, all, n - 1, colors) + pill_drawn(
            rc,
            icon,
            n - 1,
            all[n - 1],
            colors,
        )
    }
}

/// The left edge of a text that ends some way in front of `edge`; without a text
/// there is nothing in front of it.
pub open spec fn slot(edge: int, space: int, t: Option<(String, i32)>) -> int {
    match t {
        Some(p) => edge - space - p.1,
        None => edge,
    }
}

/// The left edges of the clock, the battery, the network and the label: each is
/// to the left of the one before.
pub open spec fn right_slots(rc: Edges, right: RightSide) -> (int, int, int, int) {
    let clock = match right.clock {
        Some(p) => rc.right - 10 - p.1,
        None => rc.right as int,
    };
    let battery = slot(clock, 12, right.battery);
    let network = slot(battery, 10, right.network);
    let label = slot(network, 10, right.label);
    (clock, battery, network, label)
}

/// The left and right edges of the title, between the workspaces and the right
/// side: in the middle of the bar, or as much of it as there is room for.
pub open spec fn title_span(rc: Edges, from: int, to: int, width: int) -> Option<(int, int)> {
    let left = from + 10;
    let right = to - 10;
    if right - left <= 0 {
        None
    } else if width >= right - left {
        Some((left, right))
    } else {
        let ideal = halved(rc.left + rc.right) - halved(width);
        Some((rect::larger(ideal, left), rect::smaller(ideal + width, right)))
    }
}

/// The field between two edges, as high as the bar.
pub open spec fn field_between(rc: Edges, span: (int, int)) -> Edges {
    Edges { left: span.0 as i32, top: rc.top, right: span.1 as i32, bottom: rc.bottom }
}

/// Half of a number, rounded towards 0.
pub open spec fn halved(n: int) -> int {
    if n >= 0 {
        n / 2
    } else {
        -((-n) / 2)
    }
}

/// The title keeps clear of the workspaces and of the right side.
pub proof fn law_title_keeps_clear(rc: Edges, from: int, to: int, width: int)
    ensures
        title_span(rc, from, to, width) matches Some(f) ==> from + 10 <= f.0 && f.1 <= to - 10,
        title_span(rc, from, to, width) is Some <==> from + 20 < to,
{
}

/// The fields of two workspaces keep clear of each other.
pub proof fn law_workspaces_keep_clear(rc: Edges, icon: bool, n: nat, i: int, j: int)
    requires
        pills_fit(rc, icon, n),
        rc.bottom - rc.top >= 2,
        0 <= i < j < n,
    ensures
        pill(rc, icon, i).right + 4 <= pill(rc, icon, j).left,
{
    let step = rc.bottom - rc.top - 2;
    lemma_pill_fits(rc, icon, n, i);
    lemma_pill_fits(rc, icon, n, j);
    assert(i * step + step <= j * step) by (nonlinear_arith)
        requires
            0 <= i < j,
            step >= 0,
    ;
    assert(rc.bottom - rc.top - 6 + 4 == step);
}

/// A text of the right side, where there is one.
pub open spec fn right_drawn(
    rc: Edges,
    left: int,
    t: Option<(String, i32)>,
    color: u32,
) -> Seq<Drawn> {
    match t {
        Some(p) => seq![
            Drawn::Write(
                Edges {
                    left: left as i32,
                    top: rc.top,
                    right: (left + p.1) as i32,
                    bottom: rc.bottom,
                },
                p.0@,
                color,
                false,
            ),
        ],
        None => Seq::empty(),
    }
}

/// How a bar is drawn.
pub open spec fn bar_drawn(
    rc: Edges,
    workspaces: Seq<WorkspaceState>,
    title: Seq<char>,
    title_width: int,
    right: RightSide,
    icon: bool,
    colors: BarColors,
) -> Seq<Drawn> {
    let height = rc.bottom - rc.top;
    let (clock, battery, network, label) = right_slots(rc, right);
    let pills_to = pills_from(rc, icon) + workspaces.len() * (height - 6 + 4);
    let back = seq![Drawn::Fill(rc, colors.background)];
    let sign = if icon {
        seq![
            Drawn::Icon(
                rc.left + 6,
                rc.top + halved(height - icon_size(height)),
                icon_size(height),
            ),
        ]
    } else {
        Seq::empty()
    };
    let pills = pills_drawn(rc, icon, workspaces, workspaces.len() as int, colors);
    let middle = match title_span(rc, pills_to, label, title_width) {
        Some(span) => if title.len() > 0 {
            seq![Drawn::Write(field_between(rc, span), title, colors.foreground, true)]
        } else {
            Seq::empty()
        },
        None => Seq::empty(),
    };
    back + sign + pills + middle + right_drawn(rc, label, right.label, colors.active_bg)
        + right_drawn(rc, clock, right.clock, colors.foreground) + right_drawn(
        rc,
        battery,
        right.battery,
        colors.foreground,
    ) + right_drawn(rc, network, right.network, colors.foreground)
}

fn push_stroke(out: &mut Vec<Stroke>, s: Stroke)
    ensures
        all_drawn(final(out)@) == all_drawn(old(out)@).push(s.drawn()),
{
    let ghost before = all_drawn(out@);
    out.push(s);
    assert(all_drawn(out@) =~= before.push(s.drawn()));
}

/// Whether the edges of a text of the right side can be counted, where there is
/// one.
pub open spec fn text_fits(left: int, t: Option<(String, i32)>) -> bool {
    t matches Some(p) ==> rect::fits(left) && rect::fits(left + p.1)
}

/// Whether the place of the icon can be counted.
pub open spec fn icon_fits(rc: Edges) -> bool {
    let height = rc.bottom - rc.top;
    &&& rect::fits(rc.left + 6)
    &&& rect::fits(rc.top + halved(height - icon_size(height)))
}

/// Whether all positions that are drawn at on a bar can be counted.
pub open spec fn bar_fits(
    rc: Edges,
    workspaces: nat,
    title: Seq<char>,
    title_width: int,
    right: RightSide,
    icon: bool,
) -> bool {
    let pills_to = pills_from(rc, icon) + workspaces * (rc.bottom - rc.top - 6 + 4);
    let (clock, battery, network, label) = right_slots(rc, right);
    &&& icon ==> icon_fits(rc)
    &&& pills_fit(rc, icon, workspaces)
    &&& text_fits(clock, right.clock)
    &&& text_fits(battery, right.battery)
    &&& text_fits(network, right.network)
    &&& text_fits(label, right.label)
    &&& title.len() > 0 ==> (title_span(rc, pills_to, label, title_width) matches Some(span)
        ==> rect::fits(span.0) && rect::fits(span.1))
}

fn is_text_fit(left: i64, t: &Option<(String, i32)>) -> (r: bool)
    requires
        -0x10_0000_0000 <= left <= 0x10_0000_0000,
    ensures
        r == text_fits(left as int, *t),
{
    match t {
        Some(p) => does_fit(left as i128) && does_fit(left as i128 + p.1 as i128),
        None => true,
    }
}

/// Whether all positions that are drawn at on a bar can be counted.
pub fn is_bar_fit(
    rc: Edges,
    workspaces: usize,
    title: &String,
    title_width: i32,
    right: &RightSide,
    icon: bool,
) -> (r: bool)
    ensures
        r == bar_fits(rc, workspaces as nat, title@, title_width as int, *right, icon),
{
    let height: i64 = rc.bottom as i64 - rc.top as i64;
    if icon {
        let y: i64 = rc.top as i64 + halved_of(height - icon_size_of(height));
        if !(does_fit(rc.left as i128 + 6) && does_fit(y as i128)) {
            return false;
        }
    }
    if !are_pills_fit(rc, icon, workspaces) {
        return false;
    }
    let (clock, battery, network, label) = slots_of(rc, right);
    if !(is_text_fit(clock, &right.clock) && is_text_fit(battery, &right.battery) && is_text_fit(
        network,
        &right.network,
    ) && is_text_fit(label, &right.label)) {
        return false;
    }
    if title.as_str().unicode_len() == 0 {
        return true;
    }
    proof {
        lemma_pills_to(rc, icon, workspaces as nat);
    }
    let pills_to: i64 = (pills_start(rc, icon) as i128 + workspaces as i128 * (height as i128 - 6
        + 4)) as i64;
    match title_place(rc, pills_to, label, title_width) {
        Some(span) => does_fit(span.0 as i128) && does_fit(span.1 as i128),
        None => true,
    }
}

/// The position behind the last workspace is not far behind a field.
proof fn lemma_pills_to(rc: Edges, icon: bool, n: nat)
    requires
        pills_fit(rc, icon, n),
    ensures
        ({
            let step = rc.bottom - rc.top - 6 + 4;
            &&& -0x2_0000_0000 <= pills_from(rc, icon) + n * step <= 0x2_0000_0000
            &&& -0x4_0000_0000 <= n * step <= 0x4_0000_0000
        }),
{
    let step = rc.bottom - rc.top - 6 + 4;
    if n > 0 {
        assert(n * step == (n - 1) * step + step) by (nonlinear_arith);
    }
}

/// Draw the workspaces. The position behind the last one.
fn draw_pills(
    out: &mut Vec<Stroke>,
    rc: Edges,
    icon: bool,
    workspaces: &Vec<WorkspaceState>,
    colors: &BarColors,
) -> (x: i64)
    requires
        pills_fit(rc, icon, workspaces@.len()),
    ensures
        all_drawn(final(out)@) == all_drawn(old(out)@) + pills_drawn(
            rc,
            icon,
            workspaces@,
            workspaces@.len() as int,
            *colors,
        ),
        x == pills_from(rc, icon) + workspaces@.len() * (rc.bottom - rc.top - 6 + 4),
        -0x2_0000_0000 <= x <= 0x2_0000_0000,
{
    let ghost before = all_drawn(out@);
    let ghost all = workspaces@;
    let w: i64 = rc.bottom as i64 - rc.top as i64 - 6;
    let start: i64 = pills_start(rc, icon);
    let mut x: i64 = start;
    let mut i: usize = 0;
    assert(before =~= before + pills_drawn(rc, icon, all, 0, *colors));
    while i < workspaces.len()
        invariant
            i <= workspaces@.len(),
            all == workspaces@,
            pills_fit(rc, icon, all.len()),
            w == rc.bottom - rc.top - 6,
            start == pills_from(rc, icon),
            x == start + i * (w + 4),
            all_drawn(out@) == before + pills_drawn(rc, icon, all, i as int, *colors),
        decreases workspaces@.len() - i,
    {
        proof {
            lemma_pill_fits(rc, icon, all.len(), i as int);
            let step = w + 4;
            assert((i + 1) * step == i * step + step) by (nonlinear_arith);
        }
        let ghost drawn = pills_drawn(rc, icon, all, i as int, *colors);
        let ghost more = pill_drawn(rc, icon, i as int, all[i as int], *colors);
        let ws = workspaces[i];
        let field = Edges {
            left: x as i32,
            top: rc.top,
            right: (x + w) as i32,
            bottom: rc.bottom,
        };
        assert(field == pill(rc, icon, i as int));
        let shade = if ws.is_active {
            push_stroke(out, Stroke::Fill(field, colors.active_bg));
            colors.active_fg
        } else if ws.is_visible {
            push_stroke(out, Stroke::Outline(field, colors.visible_outline));
            colors.foreground
        } else if ws.has_windows {
            colors.foreground
        } else {
            colors.dim_fg
        };
        let name = decimal_of(ws.id as u64);
        push_stroke(out, Stroke::Write(field, name, shade, false));
        assert(all_drawn(out@) =~= before + (drawn + more));
        x = x + (w + 4);
        i = i + 1;
    }
    proof {
        lemma_pills_to(rc, icon, all.len());
    }
    x
}

/// Write a text of the right side, where there is one.
fn draw_right(out: &mut Vec<Stroke>, rc: Edges, left: i64, t: &Option<(String, i32)>, color: u32)
    requires
        text_fits(left as int, *t),
    ensures
        all_drawn(final(out)@) == all_drawn(old(out)@) + right_drawn(rc, left as int, *t, color),
{
    let ghost before = all_drawn(out@);
    match t {
        Some(p) => {
            let field = Edges {
                left: left as i32,
                top: rc.top,
                right: left as i32 + p.1,
                bottom: rc.bottom,
            };
            push_stroke(out, Stroke::Write(field, p.0.clone(), color, false));
            assert(all_drawn(out@) =~= before + right_drawn(rc, left as int, *t, color));
        },
        None => {
            assert(all_drawn(out@) =~= before + right_drawn(rc, left as int, *t, color));
        },
    }
}

fn slot_of(edge: i64, space: i64, t: &Option<(String, i32)>) -> (r: i64)
    requires
        -0x7_0000_0000 <= edge <= 0x7_0000_0000,
        0 <= space <= 12,
    ensures
        r == slot(edge as int, space as int, *t),
        edge - 0x1_0000_0000 <= r <= edge + 0x1_0000_0000,
{
    match t {
        Some(p) => edge - space - p.1 as i64,
        None => edge,
    }
}

/// The left edges of the clock, the battery, the network and the label.
fn slots_of(rc: Edges, right: &RightSide) -> (r: (i64, i64, i64, i64))
    ensures
        (r.0 as int, r.1 as int, r.2 as int, r.3 as int) == right_slots(rc, *right),
        -0x8_0000_0000 <= r.0 <= 0x8_0000_0000,
        -0x8_0000_0000 <= r.1 <= 0x8_0000_0000,
        -0x8_0000_0000 <= r.2 <= 0x8_0000_0000,
        -0x8_0000_0000 <= r.3 <= 0x8_0000_0000,
{
    let clock = slot_of(rc.right as i64, 10, &right.clock);
    let battery = slot_of(clock, 12, &right.battery);
    let network = slot_of(battery, 10, &right.network);
    let label = slot_of(network, 10, &right.label);
    (clock, battery, network, label)
}

/// Half of a number, rounded towards 0.
fn halved_of(n: i64) -> (r: i64)
    requires
        n > i64::MIN,
    ensures
        r == halved(n as int),
{
    if n >= 0 {
        n / 2
    } else {
        -((-n) / 2)
    }
}

/// The left and right edges of the title.
fn title_place(rc: Edges, from: i64, to: i64, width: i32) -> (r: Option<(i64, i64)>)
    requires
        -0x8_0000_0000 <= from <= 0x8_0000_0000,
        -0x8_0000_0000 <= to <= 0x8_0000_0000,
    ensures
        match r {
            Some(span) => title_span(rc, from as int, to as int, width as int) == Some(
                (span.0 as int, span.1 as int),
            ),
            None => title_span(rc, from as int, to as int, width as int) is None,
        },
{
    let left: i64 = from + 10;
    let right: i64 = to - 10;
    let room: i64 = right - left;
    if room <= 0 {
        None
    } else if width as i64 >= room {
        Some((left, right))
    } else {
        let ideal: i64 = halved_of(rc.left as i64 + rc.right as i64) - halved_of(width as i64);
        let l: i64 = if ideal >= left {
            ideal
        } else {
            left
        };
        let r: i64 = if ideal + width as i64 <= right {
            ideal + width as i64
        } else {
            right
        };
        Some((l, r))
    }
}

/// Draw a bar.
pub fn draw_bar(
    rc: Edges,
    workspaces: &Vec<WorkspaceState>,
    title: &String,
    title_width: i32,
    right: &RightSide,
    icon: bool,
    colors: &BarColors,
) -> (r: Vec<Stroke>)
    requires
        bar_fits(rc, workspaces@.len(), title@, title_width as int, *right, icon),
    ensures
        all_drawn(r@) == bar_drawn(
            rc,
            workspaces@,
            title@,
            title_width as int,
            *right,
            icon,
            *colors,
        ),
{
    let mut out: Vec<Stroke> = Vec::new();
    let height: i64 = rc.bottom as i64 - rc.top as i64;
    assert(all_drawn(out@) =~= Seq::<Drawn>::empty());
    push_stroke(&mut out, Stroke::Fill(rc, colors.background));
    let ghost back = seq![Drawn::Fill(rc, colors.background)];
    assert(all_drawn(out@) =~= back);
    let ghost sign = if icon {
        seq![
            Drawn::Icon(
                rc.left + 6,
                rc.top + halved(height - icon_size(height as int)),
                icon_size(height as int),
            ),
        ]
    } else {
        Seq::empty()
    };
    if icon {
        let size: i64 = icon_size_of(height);
        let y: i64 = rc.top as i64 + halved_of(height - size);
        push_stroke(&mut out, Stroke::Icon(rc.left + 6, y as i32, size as i32));
    }
    assert(all_drawn(out@) =~= back + sign);
    let pills_to = draw_pills(&mut out, rc, icon, workspaces, colors);
    let ghost pills = pills_drawn(rc, icon, workspaces@, workspaces@.len() as int, *colors);
    let (clock, battery, network, label) = slots_of(rc, right);
    let span = title_place(rc, pills_to, label, title_width);
    let ghost middle = match title_span(rc, pills_to as int, label as int, title_width as int) {
        Some(f) => if title@.len() > 0 {
            seq![Drawn::Write(field_between(rc, f), title@, colors.foreground, true)]
        } else {
            Seq::empty()
        },
        None => Seq::empty(),
    };
    match span {
        Some((l, r)) => {
            if title.as_str().unicode_len() > 0 {
                let f = Edges {
                    left: l as i32,
                    top: rc.top,
                    right: r as i32,
                    bottom: rc.bottom,
                };
                push_stroke(&mut out, Stroke::Write(f, title.clone(), colors.foreground, true));
            }
        },
        None => {},
    }
    assert(all_drawn(out@) =~= back + sign + pills + middle);
    draw_right(&mut out, rc, label, &right.label, colors.active_bg);
    draw_right(&mut out, rc, clock, &right.clock, colors.foreground);
    draw_right(&mut out, rc, battery, &right.battery, colors.foreground);
    draw_right(&mut out, rc, network, &right.network, colors.foreground);
    out
}

/// The workspace whose field holds a position on the bar.
pub open spec fn hit(rc: Edges, icon: bool, all: Seq<WorkspaceState>, x: int) -> Option<u32> {
    if exists|i: int| is_hit(rc, icon, all, x, i) {
        Some(all[choose|i: int| is_hit(rc, icon, all, x, i)].id)
    } else {
        None
    }
}

/// Whether the field at `i` is the first that holds a position on the bar.
pub open spec fn is_hit(
    rc: Edges,
    icon: bool,
    all: Seq<WorkspaceState>,
    x: int,
    i: int,
) -> bool {
    &&& 0 <= i < all.len()
    &&& pill(rc, icon, i).left <= x < pill(rc, icon, i).right
    &&& forall|j: int|
        0 <= j < i ==> !((#[trigger] pill(rc, icon, j)).left <= x < pill(rc, icon, j).right)
}

/// The workspace that a click on the bar asks for.
pub fn workspace_clicked(
    rc: Edges,
    icon: bool,
    workspaces: &Vec<WorkspaceState>,
    x: i32,
) -> (r: Option<u32>)
    requires
        pills_fit(rc, icon, workspaces@.len()),
    ensures
        r == hit(rc, icon, workspaces@, x as int),
{
    let ghost all = workspaces@;
    let w: i64 = rc.bottom as i64 - rc.top as i64 - 6;
    let start: i64 = pills_start(rc, icon);
    let mut left: i64 = start;
    let mut i: usize = 0;
    while i < workspaces.len()
        invariant
            i <= workspaces@.len(),
            all == workspaces@,
            pills_fit(rc, icon, all.len()),
            w == rc.bottom - rc.top - 6,
            start == pills_from(rc, icon),
            left == start + i * (w + 4),
            forall|j: int|
                0 <= j < i ==> !((#[trigger] pill(rc, icon, j)).left <= x < pill(
                    rc,
                    icon,
                    j,
                ).right),
        decreases workspaces@.len() - i,
    {
        proof {
            lemma_pill_fits(rc, icon, all.len(), i as int);
            let step = w + 4;
            assert((i + 1) * step == i * step + step) by (nonlinear_arith);
            assert(pill(rc, icon, i as int).left == left);
        }
        if left <= x as i64 && (x as i64) < left + w {
            proof {
                assert(is_hit(rc, icon, all, x as int, i as int));
                let k = choose|k: int| is_hit(rc, icon, all, x as int, k);
                assert(is_hit(rc, icon, all, x as int, k));
                if k < i {
                    assert(!(pill(rc, icon, k).left <= x < pill(rc, icon, k).right));
                } else if i < k {
                    assert(!(pill(rc, icon, i as int).left <= x < pill(
                        rc,
                        icon,
                        i as int,
                    ).right));
                }
            }
            return Some(workspaces[i].id);
        }
        left = left + (w + 4);
        i = i + 1;
    }
    None
}

// ---- what a bar tells -----------------------------------------------------

/// A bar tells workspaces apart. The number is written in the field, and its colour
/// says whether there is something: an empty workspace that no monitor shows is dim,
/// an occupied one is not. Only the workspace of the bar's own monitor is filled, and
/// only one that another monitor shows has an outline.
pub proof fn law_workspaces_are_told_apart(
    rc: Edges,
    icon: bool,
    i: int,
    ws: WorkspaceState,
    colors: BarColors,
)
    ensures
        ({
            let drawn = pill_drawn(rc, icon, i, ws, colors);
            let field = pill(rc, icon, i);
            let name = text::decimal(ws.id as nat);
            let filled = exists|k: int| 0 <= k < drawn.len() && #[trigger] drawn[k] is Fill;
            let outlined = exists|k: int| 0 <= k < drawn.len() && #[trigger] drawn[k] is Outline;
            &&& drawn.len() >= 1
            &&& filled <==> ws.is_active
            &&& outlined <==> !ws.is_active && ws.is_visible
            &&& ws.is_active ==> drawn[0] == Drawn::Fill(field, colors.active_bg) && drawn.last()
                == Drawn::Write(field, name, colors.active_fg, false)
            &&& !ws.is_active && ws.is_visible ==> drawn[0] == Drawn::Outline(
                field,
                colors.visible_outline,
            ) && drawn.last() == Drawn::Write(field, name, colors.foreground, false)
            &&& !ws.is_active && !ws.is_visible && ws.has_windows ==> drawn == seq![
                Drawn::Write(field, name, colors.foreground, false),
            ]
            &&& !ws.is_active && !ws.is_visible && !ws.has_windows ==> drawn == seq![
                Drawn::Write(field, name, colors.dim_fg, false),
            ]
        }),
{
    let drawn = pill_drawn(rc, icon, i, ws, colors);
    assert(drawn[0] is Fill || drawn[0] is Outline || drawn[0] is Write);
}

/// With colours that differ, an occupied workspace that no monitor shows does not
/// look like an empty one, and one that a monitor shows looks like neither.
pub proof fn law_occupied_is_seen(
    rc: Edges,
    icon: bool,
    i: int,
    a: WorkspaceState,
    b: WorkspaceState,
    colors: BarColors,
)
    requires
        colors.foreground != colors.dim_fg,
        a.is_active != b.is_active || (!a.is_active && a.is_visible != b.is_visible) || (
        !a.is_active && !a.is_visible && a.has_windows != b.has_windows),
    ensures
        pill_drawn(rc, icon, i, a, colors) != pill_drawn(rc, icon, i, b, colors),
{
    law_workspaces_are_told_apart(rc, icon, i, a, colors);
    law_workspaces_are_told_apart(rc, icon, i, b, colors);
    let x = pill_drawn(rc, icon, i, a, colors);
    let y = pill_drawn(rc, icon, i, b, colors);
    if x == y {
        assert(x[0] == y[0]);
        assert(x.last() == y.last());
    }
}

/// Every workspace has its own drawing on the bar, in the order of the list.
pub proof fn law_every_workspace_is_drawn(
    rc: Edges,
    icon: bool,
    all: Seq<WorkspaceState>,
    n: int,
    colors: BarColors,
)
    requires
        0 <= n < all.len(),
    ensures
        pills_drawn(rc, icon, all, n + 1, colors) == pills_drawn(rc, icon, all, n, colors)
            + pill_drawn(rc, icon, n, all[n], colors),
        pills_drawn(rc, icon, all, 0, colors).len() == 0,
{
}

/// The fields of the workspaces stand in a row, as high as the bar and four pixels
/// apart; each is six pixels narrower than the bar is high. The row begins at the left
/// edge, or behind an icon that has six pixels on either side.
pub proof fn law_row_of_workspaces(rc: Edges, icon: bool, n: nat, i: int)
    requires
        pills_fit(rc, icon, n),
        0 <= i < n,
    ensures
        ({
            let field = pill(rc, icon, i);
            let height = rc.bottom - rc.top;
            &&& field.top == rc.top && field.bottom == rc.bottom
            &&& field.right - field.left == height - 6
            &&& i + 1 < n ==> pill(rc, icon, i + 1).left == field.right + 4
            &&& i == 0 && !icon ==> field.left == rc.left
            &&& i == 0 && icon && 24 <= height <= 40 ==> field.left == rc.left + height + 4
            &&& i == 0 && icon && height < 24 ==> field.left == rc.left + 28
            &&& i == 0 && icon && height > 40 ==> field.left == rc.left + 44
        }),
{
    lemma_pill_fits(rc, icon, n, i);
    let step = rc.bottom - rc.top - 6 + 4;
    if i + 1 < n {
        lemma_pill_fits(rc, icon, n, i + 1);
        assert((i + 1) * step == i * step + step) by (nonlinear_arith);
    }
    if i == 0 {
        assert(0 * step == 0);
    }
}

/// A click on a workspace's field asks for that workspace, and a click beside all
/// fields for none.
pub proof fn law_click_asks_for_the_workspace(
    rc: Edges,
    icon: bool,
    all: Seq<WorkspaceState>,
    x: int,
    i: int,
)
    requires
        pills_fit(rc, icon, all.len()),
        rc.bottom - rc.top >= 6,
    ensures
        0 <= i < all.len() && pill(rc, icon, i).left <= x < pill(rc, icon, i).right ==> hit(
            rc,
            icon,
            all,
            x,
        ) == Some(all[i].id),
        (forall|k: int|
            0 <= k < all.len() ==> !((#[trigger] pill(rc, icon, k)).left <= x < pill(
                rc,
                icon,
                k,
            ).right)) ==> hit(rc, icon, all, x) is None,
{
    if 0 <= i < all.len() && pill(rc, icon, i).left <= x < pill(rc, icon, i).right {
        assert forall|j: int| 0 <= j < i implies !((#[trigger] pill(rc, icon, j)).left <= x < pill(
            rc,
            icon,
            j,
        ).right) by {
            law_workspaces_keep_clear(rc, icon, all.len(), j, i);
        }
        assert(is_hit(rc, icon, all, x, i));
        let k = choose|k: int| is_hit(rc, icon, all, x, k);
        assert(is_hit(rc, icon, all, x, k));
        if k < i {
            assert(!(pill(rc, icon, k).left <= x < pill(rc, icon, k).right));
        } else if i < k {
            assert(!(pill(rc, icon, i).left <= x < pill(rc, icon, i).right));
        }
    }
    if forall|k: int|
        0 <= k < all.len() ==> !((#[trigger] pill(rc, icon, k)).left <= x < pill(
            rc,
            icon,
            k,
        ).right) {
        assert forall|k: int| !is_hit(rc, icon, all, x, k) by {
            if 0 <= k < all.len() {
                assert(!(pill(rc, icon, k).left <= x < pill(rc, icon, k).right));
            }
        }
    }
}

/// From the right edge to the left stand the clock, the battery, the network and the
/// label, each with its own room and clear of the next; one that is missing leaves no
/// room.
pub proof fn law_right_side_stands_in_order(rc: Edges, right: RightSide)
    ensures
        ({
            let (clock, battery, network, label) = right_slots(rc, right);
            &&& right.clock matches Some(t) ==> clock + t.1 + 10 == rc.right
            &&& right.clock is None ==> clock == rc.right
            &&& right.battery matches Some(t) ==> battery + t.1 + 12 == clock
            &&& right.battery is None ==> battery == clock
            &&& right.network matches Some(t) ==> network + t.1 + 10 == battery
            &&& right.network is None ==> network == battery
            &&& right.label matches Some(t) ==> label + t.1 + 10 == network
            &&& right.label is None ==> label == network
        }),
{
}

/// A title that has room stands in the middle of the bar.
pub proof fn law_title_stands_in_the_middle(rc: Edges, from: int, to: int, width: int)
    requires
        width >= 0,
        rc.left + rc.right >= 0,
        from + 10 <= (rc.left + rc.right) / 2 - width / 2,
        (rc.left + rc.right) / 2 - width / 2 + width <= to - 10,
        from + 20 < to,
    ensures
        title_span(rc, from, to, width) == Some(
            (
                (rc.left + rc.right) / 2 - width / 2,
                (rc.left + rc.right) / 2 - width / 2 + width,
            ),
        ),
{
}

/// The clock counts twelve hours: midnight and noon are twelve, the hours before noon
/// are in the morning, and the minutes have two digits.
pub proof fn law_clock_counts_twelve_hours(hour: u16, minute: u16)
    requires
        hour < 24,
        minute < 60,
    ensures
        ({
            let h: nat = if hour % 12 == 0 {
                12
            } else {
                (hour % 12) as nat
            };
            let half = if hour >= 12 {
                " PM"@
            } else {
                " AM"@
            };
            clock_text(hour, minute) == text::decimal(h) + seq![
                ':',
                text::digit((minute / 10) as nat),
                text::digit((minute % 10) as nat),
            ] + half
        }),
{
    reveal_strlit(":0");
    reveal_strlit(":");
    reveal_with_fuel(text::decimal, 2);
    let h: nat = if hour % 12 == 0 {
        12
    } else {
        (hour % 12) as nat
    };
    let digits = seq![
        ':',
        text::digit((minute / 10) as nat),
        text::digit((minute % 10) as nat),
    ];
    let zero = if minute < 10 {
        ":0"@
    } else {
        ":"@
    };
    assert(zero + text::decimal(minute as nat) =~= digits);
    assert(text::decimal(h) + zero + text::decimal(minute as nat) =~= text::decimal(h) + digits);
}

/// The battery says how full it is, unless that is not known, and whether the power
/// comes from the line.
pub proof fn law_battery_says_how_full_it_is(a: BatteryStatus)
    ensures
        a.percent != 255 ==> battery_text(a).last() == '%' && battery_text(a).drop_last().skip(2)
            == text::decimal(a.percent as nat),
        a.percent == 255 ==> battery_text(a).skip(2) == seq!['\u{2014}'],
        battery_text(a)[0] == (if a.on_ac {
            '\u{26A1}'
        } else {
            '\u{1F50B}'
        }),
        battery_text(a)[1] == ' ',
{
    reveal_strlit("\u{26A1} ");
    reveal_strlit("\u{1F50B} ");
    reveal_strlit("\u{2014}");
    reveal_strlit("%");
    if a.percent != 255 {
        assert(battery_text(a).drop_last().skip(2) =~= text::decimal(a.percent as nat));
    } else {
        assert(battery_text(a).skip(2) =~= seq!['\u{2014}']);
    }
}

/// A cable is preferred to a wireless network, and an adapter that is down counts for
/// nothing.
pub proof fn law_cable_is_preferred(adapters: Seq<Adapter>)
    ensures
        network(adapters) == Some(NetworkKind::Ethernet) <==> exists|i: int|
            0 <= i < adapters.len() && (#[trigger] adapters[i]).up && adapters[i].if_type == 6,
        network(adapters) == Some(NetworkKind::WiFi) <==> (exists|i: int|
            0 <= i < adapters.len() && (#[trigger] adapters[i]).up && adapters[i].if_type == 71)
            && !(exists|i: int|
            0 <= i < adapters.len() && (#[trigger] adapters[i]).up && adapters[i].if_type == 6),
        network_text(NetworkKind::Ethernet) == seq!['\u{1F310}'],
        network_text(NetworkKind::WiFi) == seq!['\u{1F4F6}'],
{
    reveal_strlit("\u{1F310}");
    reveal_strlit("\u{1F4F6}");
    assert(network_text(NetworkKind::Ethernet) =~= seq!['\u{1F310}']);
    assert(network_text(NetworkKind::WiFi) =~= seq!['\u{1F4F6}']);
}

// ---- bars and monitors ----------------------------------------------------

/// What is done with the bar of a monitor.
#[derive(Debug, Clone, Copy, PartialEq, Eq, Structural)]
pub enum BarStep {
    Create,
    Move,
}

/// Whether a list has a text.
pub open spec fn lists_text(all: Seq<String>, s: Seq<char>) -> bool {
    exists|i: int| 0 <= i < all.len() && (#[trigger] all[i])@ == s
}

fn is_listed(all: &Vec<String>, s: &String) -> (r: bool)
    ensures
        r == lists_text(all@, s@),
{
    let mut i: usize = 0;
    while i < all.len()
        invariant
            i <= all@.len(),
            forall|k: int| 0 <= k < i ==> (#[trigger] all@[k])@ != s@,
        decreases all@.len() - i,
    {
        if all[i] == *s {
            return true;
        }
        i = i + 1;
    }
    false
}

/// Whether a monitor is wanted.
pub open spec fn wanted(specs: Seq<BarSpec>, s: Seq<char>) -> bool {
    exists|i: int| 0 <= i < specs.len() && (#[trigger] specs[i]).monitor_id@ == s
}

fn is_wanted(specs: &Vec<BarSpec>, s: &String) -> (r: bool)
    ensures
        r == wanted(specs@, s@),
{
    let mut i: usize = 0;
    while i < specs.len()
        invariant
            i <= specs@.len(),
            forall|k: int| 0 <= k < i ==> (#[trigger] specs@[k]).monitor_id@ != s@,
        decreases specs@.len() - i,
    {
        if specs[i].monitor_id == *s {
            return true;
        }
        i = i + 1;
    }
    false
}

/// What is to be done so that there is a bar for each monitor: for each bar
/// whether it goes, and for each monitor whether its bar is created or moved.
pub fn plan_bars(bars: &Vec<String>, specs: &Vec<BarSpec>) -> (r: (Vec<bool>, Vec<BarStep>))
    ensures
        r.0@.len() == bars@.len(),
        forall|i: int|
            0 <= i < bars@.len() ==> #[trigger] r.0@[i] == !wanted(specs@, bars@[i]@),
        r.1@.len() == specs@.len(),
        forall|i: int|
            0 <= i < specs@.len() ==> #[trigger] r.1@[i] == (if lists_text(
                bars@,
                specs@[i].monitor_id@,
            ) {
                BarStep::Move
            } else {
                BarStep::Create
            }),
{
    let mut go: Vec<bool> = Vec::new();
    let mut i: usize = 0;
    while i < bars.len()
        invariant
            i <= bars@.len(),
            go@.len() == i,
            forall|k: int| 0 <= k < i ==> #[trigger] go@[k] == !wanted(specs@, bars@[k]@),
        decreases bars@.len() - i,
    {
        go.push(!is_wanted(specs, &bars[i]));
        i = i + 1;
    }
    let mut steps: Vec<BarStep> = Vec::new();
    let mut j: usize = 0;
    while j < specs.len()
        invariant
            j <= specs@.len(),
            steps@.len() == j,
            forall|k: int|
                0 <= k < j ==> #[trigger] steps@[k] == (if lists_text(
                    bars@,
                    specs@[k].monitor_id@,
                ) {
                    BarStep::Move
                } else {
                    BarStep::Create
                }),
        decreases specs@.len() - j,
    {
        steps.push(
            if is_listed(bars, &specs[j].monitor_id) {
                BarStep::Move
            } else {
                BarStep::Create
            },
        );
        j = j + 1;
    }
    (go, steps)
}

/// A bar is drawn on its background, with its texts in the colour for texts and the
/// label in that of the active workspace; each text of the right side stands at its
/// place.
pub proof fn law_bar_has_its_parts(
    rc: Edges,
    workspaces: Seq<WorkspaceState>,
    title: Seq<char>,
    title_width: int,
    right: RightSide,
    icon: bool,
    colors: BarColors,
)
    requires
        rect::fits(right_slots(rc, right).0) && rect::fits(right_slots(rc, right).1),
        rect::fits(right_slots(rc, right).2) && rect::fits(right_slots(rc, right).3),
        right.clock matches Some(t) ==> t.1 >= 0,
        right.battery matches Some(t) ==> t.1 >= 0,
        right.network matches Some(t) ==> t.1 >= 0,
        right.label matches Some(t) ==> t.1 >= 0,
    ensures
        ({
            let drawn = bar_drawn(rc, workspaces, title, title_width, right, icon, colors);
            let (clock, battery, network, label) = right_slots(rc, right);
            &&& drawn[0] == Drawn::Fill(rc, colors.background)
            &&& right.clock matches Some(t) ==> exists|i: int|
                0 <= i < drawn.len() && is_text_at(
                    #[trigger] drawn[i],
                    clock,
                    clock + t.1,
                    t.0@,
                    colors.foreground,
                )
            &&& right.battery matches Some(t) ==> exists|i: int|
                0 <= i < drawn.len() && is_text_at(
                    #[trigger] drawn[i],
                    battery,
                    battery + t.1,
                    t.0@,
                    colors.foreground,
                )
            &&& right.network matches Some(t) ==> exists|i: int|
                0 <= i < drawn.len() && is_text_at(
                    #[trigger] drawn[i],
                    network,
                    network + t.1,
                    t.0@,
                    colors.foreground,
                )
            &&& right.label matches Some(t) ==> exists|i: int|
                0 <= i < drawn.len() && is_text_at(
                    #[trigger] drawn[i],
                    label,
                    label + t.1,
                    t.0@,
                    colors.active_bg,
                )
            &&& drawn.len() == 1 + pills_drawn(
                rc,
                icon,
                workspaces,
                workspaces.len() as int,
                colors,
            ).len() + (if icon {
                1int
            } else {
                0
            }) + (if title.len() > 0 && pills_from(rc, icon) + workspaces.len() * (rc.bottom
                - rc.top - 2) + 20 < label {
                1int
            } else {
                0
            }) + (if right.clock is Some {
                1int
            } else {
                0
            }) + (if right.battery is Some {
                1int
            } else {
                0
            }) + (if right.network is Some {
                1int
            } else {
                0
            }) + (if right.label is Some {
                1int
            } else {
                0
            })
        }),
{
    let drawn = bar_drawn(rc, workspaces, title, title_width, right, icon, colors);
    let (clock, battery, network, label) = right_slots(rc, right);
    let a = right_drawn(rc, label, right.label, colors.active_bg);
    let b = right_drawn(rc, clock, right.clock, colors.foreground);
    let c = right_drawn(rc, battery, right.battery, colors.foreground);
    let d = right_drawn(rc, network, right.network, colors.foreground);
    let k = drawn.len() - a.len() - b.len() - c.len() - d.len();
    assert(rc.bottom - rc.top - 6 + 4 == rc.bottom - rc.top - 2);
    if right.label is Some {
        assert(drawn[k] == a[0]);
    }
    if right.clock is Some {
        assert(drawn[k + a.len()] == b[0]);
    }
    if right.battery is Some {
        assert(drawn[k + a.len() + b.len()] == c[0]);
    }
    if right.network is Some {
        assert(drawn[k + a.len() + b.len() + c.len()] == d[0]);
    }
}

/// Whether a text is written between two edges in a colour.
pub open spec fn is_text_at(d: Drawn, left: int, right: int, said: Seq<char>, color: u32) -> bool {
    d matches Drawn::Write(place, s, c, _) && place.left == left && place.right == right && s == said
        && c == color
}

/// The title, where there is room for it, is written in the colour for texts.
pub proof fn law_title_is_written(
    rc: Edges,
    workspaces: Seq<WorkspaceState>,
    title: Seq<char>,
    title_width: int,
    right: RightSide,
    icon: bool,
    colors: BarColors,
)
    requires
        title.len() > 0,
        pills_from(rc, icon) + workspaces.len() * (rc.bottom - rc.top - 2) + 20 < right_slots(
            rc,
            right,
        ).3,
    ensures
        exists|i: int|
            0 <= i < bar_drawn(
                rc,
                workspaces,
                title,
                title_width,
                right,
                icon,
                colors,
            ).len() && (#[trigger] bar_drawn(
                rc,
                workspaces,
                title,
                title_width,
                right,
                icon,
                colors,
            )[i] matches Drawn::Write(_, s, c, _) && s == title && c == colors.foreground),
{
    let drawn = bar_drawn(rc, workspaces, title, title_width, right, icon, colors);
    let pills = pills_drawn(rc, icon, workspaces, workspaces.len() as int, colors);
    assert(rc.bottom - rc.top - 6 + 4 == rc.bottom - rc.top - 2);
    let k = 1 + pills.len() + (if icon {
        1int
    } else {
        0
    });
    let d = drawn[k];
    assert(d matches Drawn::Write(_, s, c, _) && s == title && c == colors.foreground);
}

/// The icon is a square between 16 and 32 pixels, 8 less than the bar is high where that
/// is between; the workspaces begin behind it, with 6 pixels on either side.
pub proof fn law_icon_stands_in_front(rc: Edges)
    ensures
        16 <= icon_size(rc.bottom - rc.top) <= 32,
        24 <= rc.bottom - rc.top <= 40 ==> icon_size(rc.bottom - rc.top) == rc.bottom - rc.top - 8,
        pills_from(rc, true) == rc.left + 12 + icon_size(rc.bottom - rc.top),
        pills_from(rc, false) == rc.left,
{
}

} // verus!
