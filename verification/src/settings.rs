//! What the configuration means to the parts of the window manager.

use crate::bar::{BarColors, BarSegments, LEAST_HEIGHT};
use crate::color;
use crate::color::{parse_color_or, rgb};
use crate::config::{Bar, Config, LayoutKind, NotificationAnchor, Notifications};
use crate::desk::Theme;
use crate::ids::{MonitorId, WorkspaceId};
use crate::model;
use crate::model::{Gaps, World};
use crate::monitor::MonitorInfo;
use crate::rect;
use crate::rect::Rect;
use crate::toast::{ToastAnchor, ToastColors, ToastConfig, ToastSpec};
use crate::tree::LayoutMode;
use vstd::prelude::*;

verus! {

/// The height that the status bars take at the top of every monitor.
pub open spec fn bar_room(cfg: Config) -> i32 {
    if !cfg.general.bar_enabled {
        0
    } else if cfg.bar.height >= LEAST_HEIGHT {
        cfg.bar.height
    } else {
        LEAST_HEIGHT
    }
}

/// The height that the status bars take at the top of every monitor.
pub fn bar_height(cfg: &Config) -> (h: i32)
    ensures
        h == bar_room(*cfg),
        h == 0 || h >= LEAST_HEIGHT,
{
    if !cfg.general.bar_enabled {
        0
    } else if cfg.bar.height >= LEAST_HEIGHT {
        cfg.bar.height
    } else {
        LEAST_HEIGHT
    }
}

/// The configured gaps, with room for a status bar at the top.
pub open spec fn gaps_of(cfg: Config, bar_height: int) -> Gaps {
    Gaps {
        inner: cfg.general.gap,
        top: (cfg.general.outer_gap_top + bar_height) as i32,
        right: cfg.general.outer_gap_right,
        bottom: cfg.general.outer_gap_bottom,
        left: cfg.general.outer_gap_left,
    }
}

/// Whether the gap at the top, with the room for a status bar, can be counted.
pub open spec fn gaps_fit(cfg: Config, bar_height: int) -> bool {
    rect::fits(cfg.general.outer_gap_top + bar_height)
}

/// The configured gaps, with room for a status bar at the top.
pub fn compose_gaps(cfg: &Config, bar_height: i32) -> (r: Gaps)
    requires
        gaps_fit(*cfg, bar_height as int),
    ensures
        r == gaps_of(*cfg, bar_height as int),
{
    Gaps {
        inner: cfg.general.gap,
        top: cfg.general.outer_gap_top + bar_height,
        right: cfg.general.outer_gap_right,
        bottom: cfg.general.outer_gap_bottom,
        left: cfg.general.outer_gap_left,
    }
}

/// Whether the gap at the top, with the room for a status bar, can be counted.
pub fn has_fitting_gaps(cfg: &Config, bar_height: i32) -> (r: bool)
    ensures
        r == gaps_fit(*cfg, bar_height as int),
{
    let top: i64 = cfg.general.outer_gap_top as i64 + bar_height as i64;
    i32::MIN as i64 <= top && top <= i32::MAX as i64
}

/// The colour of the focus frame; sky blue where the configured one is no
/// colour.
pub open spec fn focus_color(cfg: Config) -> u32 {
    color::color_or(
        cfg.general.focused_border_color@,
        color::packed(0x4f, 0xc3, 0xf7) as u32,
    )
}

/// The colour of the focus frame.
pub fn parse_focus_color(cfg: &Config) -> (c: u32)
    ensures
        c == focus_color(*cfg),
{
    parse_color_or(cfg.general.focused_border_color.as_str(), rgb(0x4f, 0xc3, 0xf7))
}

/// Whether these are the configured colours of the status bars, each with the
/// usual one where the configured one is no colour.
pub open spec fn are_bar_colors(c: BarColors, cfg: Bar) -> bool {
    &&& c.background == color::color_or(
        cfg.colors.background@,
        color::packed(0x1e, 0x1e, 0x2e) as u32,
    )
    &&& c.foreground == color::color_or(
        cfg.colors.foreground@,
        color::packed(0xc0, 0xc0, 0xc0) as u32,
    )
    &&& c.active_bg == color::color_or(
        cfg.colors.active_bg@,
        color::packed(0x4f, 0xc3, 0xf7) as u32,
    )
    &&& c.active_fg == color::color_or(
        cfg.colors.active_fg@,
        color::packed(0x10, 0x10, 0x18) as u32,
    )
    &&& c.visible_outline == color::color_or(
        cfg.colors.visible_outline@,
        color::packed(0x80, 0x80, 0x80) as u32,
    )
    &&& c.dim_fg == color::color_or(cfg.colors.dim_fg@, color::packed(0x60, 0x60, 0x60) as u32)
}

/// The colours of the status bars. A text that is no colour only spoils its own
/// place.
pub fn parse_bar_colors(cfg: &Bar) -> (r: BarColors)
    ensures
        are_bar_colors(r, *cfg),
{
    let usual = BarColors::default();
    BarColors {
        background: parse_color_or(cfg.colors.background.as_str(), usual.background),
        foreground: parse_color_or(cfg.colors.foreground.as_str(), usual.foreground),
        active_bg: parse_color_or(cfg.colors.active_bg.as_str(), usual.active_bg),
        active_fg: parse_color_or(cfg.colors.active_fg.as_str(), usual.active_fg),
        visible_outline: parse_color_or(
            cfg.colors.visible_outline.as_str(),
            usual.visible_outline,
        ),
        dim_fg: parse_color_or(cfg.colors.dim_fg.as_str(), usual.dim_fg),
    }
}

/// The parts that the status bars show.
pub open spec fn segments(cfg: Bar) -> BarSegments {
    BarSegments {
        icon: cfg.show_icon,
        workspaces: cfg.show_workspaces,
        focused_title: cfg.show_focused_title,
        clock: cfg.show_clock,
        battery: cfg.show_battery,
        network: cfg.show_network,
        pause_indicator: cfg.show_pause_indicator,
    }
}

/// The parts that the status bars show.
pub fn bar_segments_from_cfg(cfg: &Bar) -> (r: BarSegments)
    ensures
        r == segments(*cfg),
{
    BarSegments {
        icon: cfg.show_icon,
        workspaces: cfg.show_workspaces,
        focused_title: cfg.show_focused_title,
        clock: cfg.show_clock,
        battery: cfg.show_battery,
        network: cfg.show_network,
        pause_indicator: cfg.show_pause_indicator,
    }
}

/// The layout mode of a configured layout.
pub open spec fn layout_mode(k: LayoutKind) -> LayoutMode {
    match k {
        LayoutKind::Dwindle => LayoutMode::Dwindle,
        LayoutKind::Spiral => LayoutMode::Spiral,
    }
}

/// The layout mode of a configured layout.
pub fn map_layout(k: LayoutKind) -> (r: LayoutMode)
    ensures
        r == layout_mode(k),
{
    match k {
        LayoutKind::Dwindle => LayoutMode::Dwindle,
        LayoutKind::Spiral => LayoutMode::Spiral,
    }
}

/// Whether these are the configured colours of the notifications, each with the
/// usual one where the configured one is no colour.
pub open spec fn are_toast_colors(c: ToastColors, cfg: Notifications) -> bool {
    &&& c.info_bg == color::color_or(cfg.colors.info_bg@, color::packed(0x4f, 0xc3, 0xf7) as u32)
    &&& c.info_fg == color::color_or(cfg.colors.info_fg@, color::packed(0x10, 0x10, 0x18) as u32)
    &&& c.warn_bg == color::color_or(cfg.colors.warn_bg@, color::packed(0xf9, 0xa8, 0x25) as u32)
    &&& c.warn_fg == color::color_or(cfg.colors.warn_fg@, color::packed(0x10, 0x10, 0x18) as u32)
    &&& c.error_bg == color::color_or(cfg.colors.error_bg@, color::packed(0xe5, 0x39, 0x35) as u32)
    &&& c.error_fg == color::color_or(cfg.colors.error_fg@, color::packed(0xff, 0xff, 0xff) as u32)
}

/// Whether these are the configured settings of the notifications. A monitor
/// shows at least one.
pub open spec fn is_toast_config(c: ToastConfig, cfg: Notifications) -> bool {
    &&& c.enabled == cfg.enabled
    &&& c.ttl_ms == cfg.ttl_ms
    &&& c.max_concurrent == (if cfg.max_concurrent >= 1 {
        cfg.max_concurrent
    } else {
        1
    })
    &&& c.anchor == ToastAnchor::TopRight
    &&& are_toast_colors(c.colors, cfg)
}

/// The settings of the notifications.
pub fn parse_toast_config(cfg: &Notifications) -> (r: ToastConfig)
    ensures
        is_toast_config(r, *cfg),
{
    let usual = ToastColors::default();
    ToastConfig {
        enabled: cfg.enabled,
        ttl_ms: cfg.ttl_ms,
        max_concurrent: if cfg.max_concurrent >= 1 {
            cfg.max_concurrent
        } else {
            1
        },
        anchor: match cfg.anchor {
            NotificationAnchor::TopRight => ToastAnchor::TopRight,
        },
        colors: ToastColors {
            info_bg: parse_color_or(cfg.colors.info_bg.as_str(), usual.info_bg),
            info_fg: parse_color_or(cfg.colors.info_fg.as_str(), usual.info_fg),
            warn_bg: parse_color_or(cfg.colors.warn_bg.as_str(), usual.warn_bg),
            warn_fg: parse_color_or(cfg.colors.warn_fg.as_str(), usual.warn_fg),
            error_bg: parse_color_or(cfg.colors.error_bg.as_str(), usual.error_bg),
            error_fg: parse_color_or(cfg.colors.error_fg.as_str(), usual.error_fg),
        },
    }
}

/// A monitor's work area below its status bar, where there is room below it.
pub open spec fn below_bar(area: Rect, bar_height: int) -> Rect {
    if 0 < bar_height < area.h {
        Rect {
            x: area.x,
            y: (area.y + bar_height) as i32,
            w: area.w,
            h: (area.h - bar_height) as i32,
        }
    } else {
        area
    }
}

/// Whether the edge below a status bar can be counted, where the area has room
/// for one.
pub open spec fn can_leave_room(area: Rect, bar_height: int) -> bool {
    bar_height > 0 && area.h > bar_height ==> rect::fits(area.y + bar_height)
}

/// The areas that the monitors' notifications are stacked in: below the status
/// bars.
pub fn build_toast_specs(infos: &Vec<MonitorInfo>, bar_height: i32) -> (r: Vec<ToastSpec>)
    requires
        forall|i: int|
            0 <= i < infos@.len() ==> can_leave_room(
                (#[trigger] infos@[i]).work_area,
                bar_height as int,
            ),
    ensures
        r@.len() == infos@.len(),
        forall|i: int|
            0 <= i < r@.len() ==> {
                &&& (#[trigger] r@[i]).monitor_id == infos@[i].stable_id
                &&& r@[i].work_area == below_bar(infos@[i].work_area, bar_height as int)
            },
{
    let mut out: Vec<ToastSpec> = Vec::new();
    let mut i: usize = 0;
    while i < infos.len()
        invariant
            i <= infos@.len(),
            forall|k: int|
                0 <= k < infos@.len() ==> can_leave_room(
                    (#[trigger] infos@[k]).work_area,
                    bar_height as int,
                ),
            out@.len() == i,
            forall|k: int|
                0 <= k < i ==> {
                    &&& (#[trigger] out@[k]).monitor_id == infos@[k].stable_id
                    &&& out@[k].work_area == below_bar(infos@[k].work_area, bar_height as int)
                },
        decreases infos@.len() - i,
    {
        assert(can_leave_room(infos@[i as int].work_area, bar_height as int));
        let area = infos[i].work_area;
        let work_area = if bar_height > 0 && area.h > bar_height {
            Rect { x: area.x, y: area.y + bar_height, w: area.w, h: area.h - bar_height }
        } else {
            area
        };
        out.push(ToastSpec { monitor_id: infos[i].stable_id.clone(), work_area });
        i = i + 1;
    }
    out
}

/// Whether these are the configured looks.
pub open spec fn is_theme(t: Theme, cfg: Config) -> bool {
    &&& t.border_color == focus_color(cfg)
    &&& t.border_width == cfg.general.border_width
    &&& t.corner_radius == cfg.general.corner_radius
    &&& are_bar_colors(t.bar_colors, cfg.bar)
    &&& t.bar_segments == segments(cfg.bar)
    &&& is_toast_config(t.toasts, cfg.notifications)
}

/// The configured looks.
pub fn theme_of(cfg: &Config) -> (r: Theme)
    ensures
        is_theme(r, *cfg),
{
    Theme {
        border_color: parse_focus_color(cfg),
        border_width: cfg.general.border_width,
        corner_radius: cfg.general.corner_radius,
        bar_colors: parse_bar_colors(&cfg.bar),
        bar_segments: bar_segments_from_cfg(&cfg.bar),
        toasts: parse_toast_config(&cfg.notifications),
    }
}

// ---- what the configuration leads to --------------------------------------

/// The configured gaps stay free at their own sides: the area that a workspace's
/// tiles fill begins the left gap inside the monitor's work area and the top gap and
/// the status bar below its top, and ends the right gap before its right edge and the
/// bottom gap above its bottom, as far as there is room.
pub proof fn law_gaps_stay_free_at_their_sides(
    w: World,
    cfg: Config,
    bar_height: int,
    ws: WorkspaceId,
    id: MonitorId,
)
    requires
        gaps_fit(cfg, bar_height),
        w.gaps == gaps_of(cfg, bar_height),
        w.shown_on(ws) == Some(id),
        w.monitor(id) is Some,
        w.gaps.suit(w.monitor(id)->0.info),
    ensures
        w.work_area(ws) is Some,
        ({
            let outer = w.monitor(id)->0.info.work_area;
            let area = w.work_area(ws)->0;
            let gaps = cfg.general;
            &&& area.x == outer.x + gaps.outer_gap_left
            &&& area.y == outer.y + gaps.outer_gap_top + bar_height
            &&& outer.w >= gaps.outer_gap_left + gaps.outer_gap_right ==> area.x + area.w == outer.x
                + outer.w - gaps.outer_gap_right
            &&& outer.h >= gaps.outer_gap_top + bar_height + gaps.outer_gap_bottom ==> area.y
                + area.h == outer.y + outer.h - gaps.outer_gap_bottom
            &&& outer.w < gaps.outer_gap_left + gaps.outer_gap_right ==> area.w == 0
            &&& outer.h < gaps.outer_gap_top + bar_height + gaps.outer_gap_bottom ==> area.h == 0
        }),
{
}

/// The configured gap is taken off every side of every tile, as far as there is room.
pub proof fn law_gap_is_taken_off_the_tiles(
    w: World,
    cfg: Config,
    bar_height: int,
    ws: WorkspaceId,
    area: Rect,
    i: int,
)
    requires
        w.wf(),
        w.knows(ws),
        w.gaps == gaps_of(cfg, bar_height),
        model::is_work_area(area, cfg.general.gap as int),
        !w.ws(ws).monocle,
        0 <= i < w.ws(ws).tree.tiles(area).len(),
    ensures
        ({
            let (id, tile) = w.ws(ws).tree.tiles(area)[i];
            let (moved, to) = w.plan(ws, area).moves[i];
            let gap = cfg.general.gap;
            &&& moved == id
            &&& to.x == tile.x + gap
            &&& to.y == tile.y + gap
            &&& tile.w >= 2 * gap ==> to.x + to.w == tile.x + tile.w - gap
            &&& tile.h >= 2 * gap ==> to.y + to.h == tile.y + tile.h - gap
            &&& tile.w < 2 * gap ==> to.w == 0
            &&& tile.h < 2 * gap ==> to.h == 0
        }),
{
    let l = w.ws(ws).tree;
    assert(w.workspaces[ws.0 - 1].tree.wf());
    model::lemma_tiles_can_inset(l, area, cfg.general.gap as int);
    assert(l.tiles(area)[i].1.can_inset(cfg.general.gap as int));
    assert(w.plan(ws, area).moves[i] == l.laid_out(area, cfg.general.gap as int)[i]);
}

/// Status bars take their configured height, but never less than sixteen pixels, and
/// nothing where they are switched off.
pub proof fn law_bars_take_room(cfg: Config)
    ensures
        !cfg.general.bar_enabled ==> bar_room(cfg) == 0,
        cfg.general.bar_enabled ==> bar_room(cfg) >= 16 && bar_room(cfg) >= cfg.bar.height,
        cfg.general.bar_enabled && cfg.bar.height >= 16 ==> bar_room(cfg) == cfg.bar.height,
        cfg.general.bar_enabled && cfg.bar.height < 16 ==> bar_room(cfg) == 16,
{
}

/// Each colour of the status bars comes from its own setting, and where that is no
/// colour, only this one is the usual one.
pub proof fn law_bar_colors_have_their_own_settings(c: BarColors, cfg: Bar, usual: BarColors)
    requires
        are_bar_colors(c, cfg),
        usual.usual(),
    ensures
        color::color(cfg.colors.background@) matches Ok(x) ==> c.background == x,
        color::color(cfg.colors.background@) is Err ==> c.background == usual.background,
        color::color(cfg.colors.foreground@) matches Ok(x) ==> c.foreground == x,
        color::color(cfg.colors.foreground@) is Err ==> c.foreground == usual.foreground,
        color::color(cfg.colors.active_bg@) matches Ok(x) ==> c.active_bg == x,
        color::color(cfg.colors.active_bg@) is Err ==> c.active_bg == usual.active_bg,
        color::color(cfg.colors.active_fg@) matches Ok(x) ==> c.active_fg == x,
        color::color(cfg.colors.active_fg@) is Err ==> c.active_fg == usual.active_fg,
        color::color(cfg.colors.visible_outline@) matches Ok(x) ==> c.visible_outline == x,
        color::color(cfg.colors.visible_outline@) is Err ==> c.visible_outline
            == usual.visible_outline,
        color::color(cfg.colors.dim_fg@) matches Ok(x) ==> c.dim_fg == x,
        color::color(cfg.colors.dim_fg@) is Err ==> c.dim_fg == usual.dim_fg,
{
}

/// Each colour of the notifications comes from its own setting.
pub proof fn law_toast_colors_have_their_own_settings(
    c: ToastColors,
    cfg: Notifications,
    usual: ToastColors,
)
    requires
        are_toast_colors(c, cfg),
        usual.usual(),
    ensures
        color::color(cfg.colors.info_bg@) matches Ok(x) ==> c.info_bg == x,
        color::color(cfg.colors.info_bg@) is Err ==> c.info_bg == usual.info_bg,
        color::color(cfg.colors.info_fg@) matches Ok(x) ==> c.info_fg == x,
        color::color(cfg.colors.info_fg@) is Err ==> c.info_fg == usual.info_fg,
        color::color(cfg.colors.warn_bg@) matches Ok(x) ==> c.warn_bg == x,
        color::color(cfg.colors.warn_bg@) is Err ==> c.warn_bg == usual.warn_bg,
        color::color(cfg.colors.warn_fg@) matches Ok(x) ==> c.warn_fg == x,
        color::color(cfg.colors.warn_fg@) is Err ==> c.warn_fg == usual.warn_fg,
        color::color(cfg.colors.error_bg@) matches Ok(x) ==> c.error_bg == x,
        color::color(cfg.colors.error_bg@) is Err ==> c.error_bg == usual.error_bg,
        color::color(cfg.colors.error_fg@) matches Ok(x) ==> c.error_fg == x,
        color::color(cfg.colors.error_fg@) is Err ==> c.error_fg == usual.error_fg,
{
}

/// A colour that is written down with its mark.
proof fn lemma_written_color(s: Seq<char>)
    requires
        s.len() == 7,
        s[0] == '#',
        forall|i: int| 1 <= i < 7 ==> color::hex_digit(#[trigger] s[i]) is Some,
    ensures
        color::color(s) == Ok::<u32, color::ColorError>(
            color::packed(
                16 * color::hex_digit(s[1])->0 + color::hex_digit(s[2])->0,
                16 * color::hex_digit(s[3])->0 + color::hex_digit(s[4])->0,
                16 * color::hex_digit(s[5])->0 + color::hex_digit(s[6])->0,
            ) as u32,
        ),
{
    let h = s.drop_first();
    assert forall|i: int| 0 <= i < 6 implies color::hex_digit(#[trigger] h[i]) is Some by {
        assert(color::hex_digit(s[i + 1]) is Some);
    }
    assert(color::is_six_digits(h));
    assert(seq!['#'] + h =~= s);
    color::law_colors_have_their_parts(h);
    color::law_colors_have_their_parts(s);
}

/// The settings that are written down where there are none give the usual looks.
pub proof fn law_usual_settings_give_the_usual_looks(cfg: Config, t: Theme)
    requires
        cfg.general.usual(),
        cfg.bar.usual(),
        cfg.notifications.usual(),
        is_theme(t, cfg),
    ensures
        t.bar_colors.usual(),
        t.toasts.colors.usual(),
        t.border_color == color::packed(0x4f, 0xc3, 0xf7),
        t.border_width == 3 && t.corner_radius == 8,
        t.toasts.enabled && t.toasts.ttl_ms == 2200 && t.toasts.max_concurrent == 3,
        bar_room(cfg) == 28,
        gaps_of(cfg, 28) == (Gaps { inner: 8, top: 28, right: 0, bottom: 0, left: 0 }),
        layout_mode(cfg.general.layout) == LayoutMode::Dwindle,
        cfg.general.workspace_count == 5,
{
    reveal_strlit("#1E1E2E");
    reveal_strlit("#C0C0C0");
    reveal_strlit("#4FC3F7");
    reveal_strlit("#101018");
    reveal_strlit("#808080");
    reveal_strlit("#606060");
    reveal_strlit("#F9A825");
    reveal_strlit("#E53935");
    reveal_strlit("#FFFFFF");
    lemma_written_color("#1E1E2E"@);
    lemma_written_color("#C0C0C0"@);
    lemma_written_color("#4FC3F7"@);
    lemma_written_color("#101018"@);
    lemma_written_color("#808080"@);
    lemma_written_color("#606060"@);
    lemma_written_color("#F9A825"@);
    lemma_written_color("#E53935"@);
    lemma_written_color("#FFFFFF"@);
}

/// Each part of the status bars has its own switch.
pub proof fn law_parts_have_their_own_switches(cfg: Bar)
    ensures
        segments(cfg).icon == cfg.show_icon,
        segments(cfg).workspaces == cfg.show_workspaces,
        segments(cfg).focused_title == cfg.show_focused_title,
        segments(cfg).clock == cfg.show_clock,
        segments(cfg).battery == cfg.show_battery,
        segments(cfg).network == cfg.show_network,
        segments(cfg).pause_indicator == cfg.show_pause_indicator,
{
}

/// The configured layout is the one that new windows are placed by.
pub proof fn law_layouts_are_told_apart()
    ensures
        layout_mode(LayoutKind::Dwindle) == LayoutMode::Dwindle,
        layout_mode(LayoutKind::Spiral) == LayoutMode::Spiral,
{
}

/// Notifications are as they are configured, and a monitor shows at least one.
pub proof fn law_notifications_are_as_configured(c: ToastConfig, cfg: Notifications)
    requires
        is_toast_config(c, cfg),
    ensures
        c.enabled == cfg.enabled,
        c.ttl_ms == cfg.ttl_ms,
        c.max_concurrent >= 1 && c.max_concurrent >= cfg.max_concurrent,
        cfg.max_concurrent >= 1 ==> c.max_concurrent == cfg.max_concurrent,
{
}

/// Notifications stay below the status bar: their area has the other edges of the
/// work area, and begins as far below its top as the bar is high, where that leaves
/// something.
pub proof fn law_notifications_stay_below_the_bar(area: Rect, bar_height: int)
    requires
        area.valid(),
    ensures
        ({
            let rest = below_bar(area, bar_height);
            &&& rest.x == area.x && rest.w == area.w
            &&& rest.y + rest.h == area.y + area.h
            &&& 0 < bar_height < area.h ==> rest.y == area.y + bar_height
            &&& bar_height <= 0 || bar_height >= area.h ==> rest == area
        }),
{
}

} // verus!
