//! Notifications.
//!
//! Every monitor has a stack of notifications. A notification fades in, is fully
//! visible for a while, and fades out. Where a monitor has as many as it may
//! have, the oldest fade out early.
//!
//! Moments are counted in nanoseconds.

use crate::bar;
use crate::bar::{Drawn, Stroke};
use crate::color;
use crate::color::rgb;
use crate::rect::{Edges, Rect};
use vstd::prelude::*;
use vstd::string::StringExecFns;

verus! {

/// How serious a notification is.
#[derive(Debug, Clone, Copy, PartialEq, Eq, Hash, Structural)]
pub enum ToastLevel {
    Info,
    Warn,
    Error,
}

/// The corner that notifications are stacked in.
#[derive(Debug, Clone, Copy, PartialEq, Eq, Structural)]
pub enum ToastAnchor {
    TopRight,
}

impl Default for ToastAnchor {
    fn default() -> (r: Self)
        ensures
            r == ToastAnchor::TopRight,
    {
        ToastAnchor::TopRight
    }
}

/// The background and the text colour for each level.
#[derive(Debug, Clone, Copy, PartialEq, Eq, Structural)]
pub struct ToastColors {
    pub info_bg: u32,
    pub info_fg: u32,
    pub warn_bg: u32,
    pub warn_fg: u32,
    pub error_bg: u32,
    pub error_fg: u32,
}

impl ToastColors {
    /// The colours where none are written down.
    pub open spec fn usual(self) -> bool {
        &&& self.info_bg == color::packed(0x4f, 0xc3, 0xf7)
        &&& self.info_fg == color::packed(0x10, 0x10, 0x18)
        &&& self.warn_bg == color::packed(0xf9, 0xa8, 0x25)
        &&& self.warn_fg == color::packed(0x10, 0x10, 0x18)
        &&& self.error_bg == color::packed(0xe5, 0x39, 0x35)
        &&& self.error_fg == color::packed(0xff, 0xff, 0xff)
    }

    /// The background and the text colour for a level.
    pub open spec fn of(self, level: ToastLevel) -> (u32, u32) {
        match level {
            ToastLevel::Info => (self.info_bg, self.info_fg),
            ToastLevel::Warn => (self.warn_bg, self.warn_fg),
            ToastLevel::Error => (self.error_bg, self.error_fg),
        }
    }

    /// The background and the text colour for a level.
    pub fn pair(&self, level: ToastLevel) -> (r: (u32, u32))
        ensures
            r == self.of(level),
    {
        match level {
            ToastLevel::Info => (self.info_bg, self.info_fg),
            ToastLevel::Warn => (self.warn_bg, self.warn_fg),
            ToastLevel::Error => (self.error_bg, self.error_fg),
        }
    }
}

impl Default for ToastColors {
    fn default() -> (r: Self)
        ensures
            r.usual(),
    {
        ToastColors {
            info_bg: rgb(0x4f, 0xc3, 0xf7),
            info_fg: rgb(0x10, 0x10, 0x18),
            warn_bg: rgb(0xf9, 0xa8, 0x25),
            warn_fg: rgb(0x10, 0x10, 0x18),
            error_bg: rgb(0xe5, 0x39, 0x35),
            error_fg: rgb(0xff, 0xff, 0xff),
        }
    }
}

/// The settings of notifications.
#[derive(Debug, Clone, Copy, PartialEq, Eq, Structural)]
pub struct ToastConfig {
    pub enabled: bool,
    /// How long a notification is fully visible, in milliseconds.
    pub ttl_ms: u32,
    /// How many notifications a monitor shows at most.
    pub max_concurrent: u32,
    pub anchor: ToastAnchor,
    pub colors: ToastColors,
}

impl ToastConfig {
    /// How many notifications a monitor shows at most; at least one.
    pub open spec fn cap(self) -> int {
        if self.max_concurrent >= 1 {
            self.max_concurrent as int
        } else {
            1
        }
    }
}

impl Default for ToastConfig {
    fn default() -> (r: Self)
        ensures
            r.enabled,
            r.ttl_ms == 2200,
            r.max_concurrent == 3,
            r.anchor == ToastAnchor::TopRight,
            r.colors.usual(),
    {
        ToastConfig {
            enabled: true,
            ttl_ms: 2200,
            max_concurrent: 3,
            anchor: ToastAnchor::TopRight,
            colors: ToastColors::default(),
        }
    }
}

/// The area that a monitor's notifications are stacked in.
#[derive(Debug, Clone)]
pub struct ToastSpec {
    pub monitor_id: String,
    pub work_area: Rect,
}

pub const TOAST_W: i32 = 320;

pub const TOAST_H: i32 = 40;

pub const TOAST_MARGIN: i32 = 12;

pub const TOAST_GAP: i32 = 6;

pub const TOAST_RADIUS: i32 = 8;

/// How long a notification takes to fade in, in milliseconds.
pub const FADE_IN_MS: u64 = 150;

/// How long a notification takes to fade out, in milliseconds.
pub const FADE_OUT_MS: u64 = 200;

/// Nanoseconds in a millisecond.
pub const MS: u64 = 1_000_000;

/// A notification on the screen.
#[derive(Debug, Clone)]
pub struct ToastWindow {
    pub hwnd: isize,
    pub monitor_id: String,
    pub level: ToastLevel,
    pub text: String,
    /// When it appeared.
    pub born: u64,
    /// How long it is fully visible, in milliseconds.
    pub ttl_ms: u32,
    /// Whether it was made to fade out early.
    pub forced_dismiss: bool,
    /// When it was made to fade out.
    pub fade_out_start: Option<u64>,
    pub colors: ToastColors,
}

/// What a notification looks like at a moment.
#[derive(Debug, Clone, Copy, PartialEq, Eq, Structural)]
pub enum AlphaState {
    /// This opaque, of 255.
    Alpha(u8),
    /// It is gone.
    Done,
}

/// The smaller of two numbers.
pub open spec fn least(a: int, b: int) -> int {
    if a <= b {
        a
    } else {
        b
    }
}

impl ToastWindow {
    /// When it starts to fade out.
    pub open spec fn fading_from(self) -> int {
        match self.fade_out_start {
            Some(at) => at as int,
            None => self.born + FADE_IN_MS * MS + self.ttl_ms * MS,
        }
    }

    /// How opaque it would be at a moment without fading out: it fades in from
    /// nothing in whole milliseconds.
    pub open spec fn rising(self, at: int) -> int {
        if at < self.born {
            0
        } else if at < self.born + FADE_IN_MS * MS {
            ((at - self.born) / (MS as int)) * 255 / (FADE_IN_MS as int)
        } else {
            255
        }
    }

    /// What it looks like at a moment. From where it starts to fade out it
    /// falls from what it had reached, also where it was still fading in.
    pub open spec fn look(self, now: int) -> AlphaState {
        let from = self.fading_from();
        if now >= from {
            if now - from >= FADE_OUT_MS * MS {
                AlphaState::Done
            } else {
                let start = self.rising(from);
                AlphaState::Alpha(
                    (start - ((now - from) / (MS as int)) * start / (FADE_OUT_MS as int)) as u8,
                )
            }
        } else {
            AlphaState::Alpha(self.rising(now) as u8)
        }
    }

    /// When it starts to fade out.
    fn fade_start(&self) -> (r: u128)
        ensures
            r == self.fading_from(),
    {
        match self.fade_out_start {
            Some(at) => at as u128,
            None => self.born as u128 + (FADE_IN_MS * MS + self.ttl_ms as u64 * MS) as u128,
        }
    }

    /// Whether it is still fading in or holding.
    fn stands(&self, now: u64) -> (r: bool)
        ensures
            r == (!self.forced_dismiss && now < self.fading_from()),
    {
        !self.forced_dismiss && (now as u128) < self.fade_start()
    }

    /// Made to fade out from a moment on.
    pub open spec fn dismissed(self, now: u64) -> ToastWindow {
        ToastWindow { forced_dismiss: true, fade_out_start: Some(now), ..self }
    }

    proof fn lemma_rising(self, at: int)
        ensures
            0 <= self.rising(at) <= 255,
            self.born <= at < self.born + FADE_IN_MS * MS ==> 0 <= (at - self.born) / (MS as int)
                < FADE_IN_MS,
    {
        if self.born <= at < self.born + FADE_IN_MS * MS {
            let ms = (at - self.born) / (MS as int);
            assert(0 <= ms < 150) by (nonlinear_arith)
                requires
                    ms == (at - self.born) / 1_000_000,
                    0 <= at - self.born < 150_000_000,
            ;
            assert(0 <= ms * 255 / 150 <= 255) by (nonlinear_arith)
                requires
                    0 <= ms < 150,
            ;
        }
    }
}

/// How opaque a notification would be at a moment without fading out.
pub fn alpha_at(t: &ToastWindow, instant: u64) -> (a: u8)
    ensures
        a == t.rising(instant as int),
{
    proof {
        t.lemma_rising(instant as int);
    }
    if instant < t.born {
        0
    } else if instant - t.born < FADE_IN_MS * MS {
        let ms: u64 = (instant - t.born) / MS;
        (ms * 255 / FADE_IN_MS) as u8
    } else {
        255
    }
}

/// What a notification looks like at a moment.
pub fn compute_alpha(t: &ToastWindow, now: u64) -> (r: AlphaState)
    ensures
        r == t.look(now as int),
{
    let start_at: u128 = t.fade_start();
    if now as u128 >= start_at {
        let from: u64 = start_at as u64;
        let into: u64 = now - from;
        if into >= FADE_OUT_MS * MS {
            AlphaState::Done
        } else {
            let start: u64 = alpha_at(t, from) as u64;
            let ms: u64 = into / MS;
            proof {
                assert(0 <= ms < 200) by (nonlinear_arith)
                    requires
                        ms == into / 1_000_000,
                        into < 200_000_000,
                ;
                assert(0 <= ms * start <= 200 * 255) by (nonlinear_arith)
                    requires
                        0 <= ms < 200,
                        0 <= start <= 255,
                ;
                assert(0 <= ms * start / 200 <= start) by (nonlinear_arith)
                    requires
                        0 <= ms < 200,
                        0 <= start <= 255,
                ;
            }
            AlphaState::Alpha((start - ms * start / FADE_OUT_MS) as u8)
        }
    } else {
        AlphaState::Alpha(alpha_at(t, now))
    }
}

/// A notification is gone once it has faded out, and never before.
pub proof fn law_gone_after_fading(t: ToastWindow, now: int)
    ensures
        t.look(now) == AlphaState::Done <==> now >= t.fading_from() + FADE_OUT_MS * MS,
{
}

/// A notification that nobody dismissed is fully visible between fading in and
/// fading out.
pub proof fn law_hold_is_opaque(t: ToastWindow, now: int)
    requires
        t.fade_out_start is None,
        t.born + FADE_IN_MS * MS <= now < t.born + FADE_IN_MS * MS + t.ttl_ms * MS,
    ensures
        t.look(now) == AlphaState::Alpha(255),
{
}

/// While a notification fades out it never gets more opaque.
pub proof fn law_fading_falls(t: ToastWindow, a: int, b: int)
    requires
        t.fading_from() <= a <= b < t.fading_from() + FADE_OUT_MS * MS,
    ensures
        match (t.look(a), t.look(b)) {
            (AlphaState::Alpha(x), AlphaState::Alpha(y)) => y <= x,
            _ => false,
        },
{
    let from = t.fading_from();
    let start = t.rising(from);
    t.lemma_rising(from);
    let m = (a - from) / (MS as int);
    let n = (b - from) / (MS as int);
    assert(0 <= m <= n < 200) by (nonlinear_arith)
        requires
            m == (a - from) / 1_000_000,
            n == (b - from) / 1_000_000,
            0 <= a - from <= b - from < 200_000_000,
    ;
    assert(0 <= m * start / 200 <= n * start / 200 <= start) by (nonlinear_arith)
        requires
            0 <= m <= n < 200,
            0 <= start <= 255,
    ;
}

// ---- the stacks -----------------------------------------------------------

/// A notification that is to be shown.
#[derive(Debug, Clone)]
pub struct ShowRequest {
    pub level: ToastLevel,
    pub text: String,
    pub monitor_id: String,
}

/// All notifications: those to be shown and those on the screen, the oldest
/// first.
pub struct Toasts {
    /// Whether the windows can be created.
    pub started: bool,
    pub config: ToastConfig,
    pub monitors: Vec<ToastSpec>,
    /// The monitor for notifications that name none.
    pub default_monitor: Option<String>,
    pub queue: Vec<ShowRequest>,
    pub live: Vec<ToastWindow>,
}

/// Whether notifications are in the order in which they appeared.
pub open spec fn by_age(live: Seq<ToastWindow>) -> bool {
    forall|i: int, j: int|
        0 <= i < j < live.len() ==> (#[trigger] live[i]).born <= (#[trigger] live[j]).born
}

/// Whether the area at `i` is that of a monitor.
pub open spec fn is_spec(all: Seq<ToastSpec>, i: int, id: Seq<char>) -> bool {
    &&& 0 <= i < all.len()
    &&& all[i].monitor_id@ == id
    &&& forall|j: int| 0 <= j < i ==> (#[trigger] all[j]).monitor_id@ != id
}

/// The area for a monitor's notifications.
pub open spec fn area_of(all: Seq<ToastSpec>, id: Seq<char>) -> Option<Rect> {
    if exists|i: int| is_spec(all, i, id) {
        Some(all[choose|i: int| is_spec(all, i, id)].work_area)
    } else {
        None
    }
}

proof fn lemma_area(all: Seq<ToastSpec>, i: int, id: Seq<char>)
    requires
        is_spec(all, i, id),
    ensures
        area_of(all, id) == Some(all[i].work_area),
{
    let k = choose|k: int| is_spec(all, k, id);
    assert(is_spec(all, k, id));
    if k < i {
        assert(all[k].monitor_id@ != id);
    } else if i < k {
        assert(all[i].monitor_id@ != id);
    }
}

/// The area for a monitor's notifications.
fn find_area(all: &Vec<ToastSpec>, id: &String) -> (r: Option<Rect>)
    ensures
        r == area_of(all@, id@),
{
    let mut i: usize = 0;
    while i < all.len()
        invariant
            i <= all@.len(),
            forall|j: int| 0 <= j < i ==> (#[trigger] all@[j]).monitor_id@ != id@,
        decreases all@.len() - i,
    {
        if all[i].monitor_id == *id {
            proof {
                lemma_area(all@, i as int, id@);
            }
            return Some(all[i].work_area);
        }
        i = i + 1;
    }
    None
}

/// On a monitor, and still fading in or holding: neither made to fade out, nor
/// fading out by itself.
pub open spec fn stands_on(id: Seq<char>, now: u64) -> spec_fn(ToastWindow) -> bool {
    |t: ToastWindow| t.monitor_id@ == id && !t.forced_dismiss && now < t.fading_from()
}

/// How many of the first `n` notifications stand on a monitor.
pub open spec fn standing(live: Seq<ToastWindow>, id: Seq<char>, now: u64, n: int) -> int {
    live.take(n).filter(stands_on(id, now)).len() as int
}

/// With the oldest `n` notifications on a monitor made to fade out.
pub open spec fn evicted(
    live: Seq<ToastWindow>,
    id: Seq<char>,
    n: int,
    now: u64,
) -> Seq<ToastWindow> {
    Seq::new(
        live.len(),
        |i: int|
            if stands_on(id, now)(live[i]) && standing(live, id, now, i) < n {
                live[i].dismissed(now)
            } else {
                live[i]
            },
    )
}

/// With room for one more notification on a monitor.
pub open spec fn roomy(
    live: Seq<ToastWindow>,
    id: Seq<char>,
    cap: int,
    now: u64,
) -> Seq<ToastWindow> {
    let count = standing(live, id, now, live.len() as int);
    if count >= cap {
        evicted(live, id, count + 1 - cap, now)
    } else {
        live
    }
}

/// How many notifications stand on a monitor grows by one with each that does.
proof fn lemma_standing(live: Seq<ToastWindow>, id: Seq<char>, now: u64, i: int)
    requires
        0 <= i < live.len(),
    ensures
        standing(live, id, now, i + 1) == standing(live, id, now, i) + (if stands_on(id, now)(live[i]) {
            1int
        } else {
            0int
        }),
        0 <= standing(live, id, now, i) <= i,
    decreases i,
{
    reveal(Seq::filter);
    assert(live.take(i + 1).drop_last() =~= live.take(i));
    assert(live.take(i + 1).last() == live[i]);
    if i > 0 {
        lemma_standing(live, id, now, i - 1);
    } else {
        assert(live.take(0) =~= Seq::<ToastWindow>::empty());
    }
}

/// What is left standing after an eviction.
proof fn lemma_evicted(live: Seq<ToastWindow>, id: Seq<char>, n: int, now: u64, k: int)
    requires
        0 <= k <= live.len(),
        0 <= n,
    ensures
        standing(evicted(live, id, n, now), id, now, k) == (if standing(live, id, now, k) <= n {
            0
        } else {
            standing(live, id, now, k) - n
        }),
    decreases k,
{
    let after = evicted(live, id, n, now);
    if k > 0 {
        lemma_evicted(live, id, n, now, k - 1);
        lemma_standing(live, id, now, k - 1);
        lemma_standing(after, id, now, k - 1);
    } else {
        reveal(Seq::filter);
        assert(live.take(0) =~= Seq::<ToastWindow>::empty());
        assert(after.take(0) =~= Seq::<ToastWindow>::empty());
    }
}

/// After making room, a monitor has fewer notifications standing than it may
/// have, so that one more is not too many.
pub proof fn law_stack_stays_bounded(
    live: Seq<ToastWindow>,
    id: Seq<char>,
    cap: int,
    now: u64,
)
    requires
        cap >= 1,
    ensures
        standing(roomy(live, id, cap, now), id, now, live.len() as int) < cap,
        roomy(live, id, cap, now).len() == live.len(),
{
    let count = standing(live, id, now, live.len() as int);
    if count >= cap {
        lemma_evicted(live, id, count + 1 - cap, now, live.len() as int);
    }
}

/// Making room for a notification touches no other monitor.
pub proof fn law_eviction_stays_on_its_monitor(
    live: Seq<ToastWindow>,
    id: Seq<char>,
    cap: int,
    now: u64,
    i: int,
)
    requires
        0 <= i < live.len(),
        live[i].monitor_id@ != id,
    ensures
        roomy(live, id, cap, now)[i] == live[i],
{
}

/// Making room for a notification leaves alone what is fading out already.
pub proof fn law_eviction_spares_the_fading(
    live: Seq<ToastWindow>,
    id: Seq<char>,
    cap: int,
    now: u64,
    i: int,
)
    requires
        0 <= i < live.len(),
        now >= live[i].fading_from(),
    ensures
        roomy(live, id, cap, now)[i] == live[i],
{
}

/// On a monitor.
pub open spec fn is_on(id: Seq<char>) -> spec_fn(ToastWindow) -> bool {
    |t: ToastWindow| t.monitor_id@ == id
}

/// The places of a monitor's notifications: the oldest in the corner, the others
/// below.
pub open spec fn stacked(live: Seq<ToastWindow>, area: Rect, id: Seq<char>) -> Seq<
    (isize, int, int),
> {
    let mine = live.filter(is_on(id));
    Seq::new(
        mine.len(),
        |i: int|
            (
                mine[i].hwnd,
                area.x + area.w - TOAST_W - TOAST_MARGIN,
                area.y + TOAST_MARGIN + i * (TOAST_H + TOAST_GAP),
            ),
    )
}

/// Whether all places of a monitor's notifications are numbers that the
/// operating system can count.
pub open spec fn can_stack(live: Seq<ToastWindow>, area: Rect) -> bool {
    &&& i32::MIN <= area.x + area.w - TOAST_W - TOAST_MARGIN
    &&& i32::MIN <= area.x + area.w - TOAST_W
    &&& area.x + area.w <= i32::MAX
    &&& i32::MIN <= area.x + area.w
    &&& area.y + TOAST_MARGIN + (live.len() + 1) * (TOAST_H + TOAST_GAP) <= i32::MAX
}

impl Toasts {
    /// The notifications on the screen are in the order of their age.
    pub open spec fn wf(&self) -> bool {
        by_age(self.live@)
    }

    /// The same but for the queue.
    pub open spec fn queueing(&self, before: &Toasts) -> bool {
        &&& self.started == before.started
        &&& self.config == before.config
        &&& self.monitors == before.monitors
        &&& self.default_monitor == before.default_monitor
        &&& self.live == before.live
    }

    /// The same but for the notifications on the screen.
    pub open spec fn changing(&self, before: &Toasts) -> bool {
        &&& self.started == before.started
        &&& self.config == before.config
        &&& self.monitors == before.monitors
        &&& self.default_monitor == before.default_monitor
        &&& self.queue == before.queue
    }

    pub fn new(specs: Vec<ToastSpec>, config: ToastConfig) -> (r: Toasts)
        ensures
            r.wf(),
            !r.started,
            r.config == config,
            r.monitors == specs,
            r.default_monitor is None,
            r.queue@.len() == 0,
            r.live@.len() == 0,
    {
        Toasts {
            started: false,
            config,
            monitors: specs,
            default_monitor: None,
            queue: Vec::new(),
            live: Vec::new(),
        }
    }

    /// Take over other settings. Notifications on the screen keep theirs.
    pub fn set_config(&mut self, new_cfg: ToastConfig)
        ensures
            *final(self) == (Toasts { config: new_cfg, ..*old(self) }),
    {
        self.config = new_cfg;
    }

    /// Take over another monitor for notifications that name none.
    pub fn set_default_monitor(&mut self, monitor_id: String)
        ensures
            *final(self) == (Toasts { default_monitor: Some(monitor_id), ..*old(self) }),
    {
        self.default_monitor = Some(monitor_id);
    }

    /// The monitor for notifications that name none.
    pub open spec fn target(&self) -> Option<Seq<char>> {
        match self.default_monitor {
            Some(id) => Some(id@),
            None => if self.monitors@.len() > 0 {
                Some(self.monitors@[0].monitor_id@)
            } else {
                None
            },
        }
    }

    /// Queue a notification for a monitor. Nothing happens while notifications
    /// are switched off or cannot be shown. Whether it was queued.
    pub fn show_on(&mut self, level: ToastLevel, text: String, monitor_id: String) -> (r: bool)
        ensures
            r == (old(self).config.enabled && old(self).started),
            final(self).queueing(old(self)),
            final(self).queue@ == (if r {
                old(self).queue@.push(ShowRequest { level, text, monitor_id })
            } else {
                old(self).queue@
            }),
    {
        if !self.config.enabled || !self.started {
            return false;
        }
        self.queue.push(ShowRequest { level, text, monitor_id });
        true
    }

    /// Queue a notification for the default monitor, or for the first one where
    /// there is no default. Whether it was queued.
    pub fn show(&mut self, level: ToastLevel, text: String) -> (r: bool)
        ensures
            r == (old(self).config.enabled && old(self).started && old(self).target() is Some),
            final(self).queueing(old(self)),
            !r ==> final(self).queue@ == old(self).queue@,
            r ==> {
                &&& final(self).queue@.len() == old(self).queue@.len() + 1
                &&& final(self).queue@.drop_last() == old(self).queue@
                &&& final(self).queue@.last().level == level
                &&& final(self).queue@.last().text == text
                &&& final(self).queue@.last().monitor_id@ == old(self).target()->0
            },
    {
        let target = match &self.default_monitor {
            Some(id) => id.clone(),
            None => {
                if self.monitors.len() == 0 {
                    return false;
                }
                self.monitors[0].monitor_id.clone()
            },
        };
        let ghost before = self.queue@;
        let queued = self.show_on(level, text, target);
        proof {
            if queued {
                assert(self.queue@.drop_last() =~= before);
            }
        }
        queued
    }

    /// Take the first notification out of the queue.
    pub fn next_request(&mut self) -> (r: Option<ShowRequest>)
        ensures
            final(self).queueing(old(self)),
            match r {
                Some(req) => {
                    &&& old(self).queue@.len() > 0
                    &&& req == old(self).queue@[0]
                    &&& final(self).queue@ == old(self).queue@.drop_first()
                },
                None => old(self).queue@.len() == 0 && final(self).queue@ == old(self).queue@,
            },
    {
        if self.queue.len() == 0 {
            return None;
        }
        let ghost before = self.queue@;
        let req = self.queue.remove(0);
        assert(self.queue@ =~= before.drop_first());
        Some(req)
    }

    /// How many notifications stand on a monitor.
    fn count_standing(&self, id: &String, now: u64) -> (r: usize)
        ensures
            r == standing(self.live@, id@, now, self.live@.len() as int),
    {
        let mut n: usize = 0;
        let mut i: usize = 0;
        proof {
            reveal(Seq::filter);
            assert(self.live@.take(0) =~= Seq::<ToastWindow>::empty());
        }
        while i < self.live.len()
            invariant
                i <= self.live@.len(),
                n <= i,
                n == standing(self.live@, id@, now, i as int),
            decreases self.live@.len() - i,
        {
            proof {
                lemma_standing(self.live@, id@, now, i as int);
            }
            if self.live[i].monitor_id == *id && self.live[i].stands(now) {
                n = n + 1;
            }
            i = i + 1;
        }
        n
    }

    /// Make the oldest `n` notifications on a monitor fade out.
    fn evict(&mut self, id: &String, n: usize, now: u64)
        requires
            old(self).wf(),
        ensures
            final(self).wf(),
            final(self).changing(old(self)),
            final(self).live@ == evicted(old(self).live@, id@, n as int, now),
    {
        let ghost before = self.live@;
        let ghost whole = *self;
        let mut seen: usize = 0;
        let mut i: usize = 0;
        proof {
            reveal(Seq::filter);
            assert(before.take(0) =~= Seq::<ToastWindow>::empty());
        }
        while i < self.live.len()
            invariant
                i <= self.live@.len(),
                self.live@.len() == before.len(),
                self.changing(&whole),
                seen <= i,
                seen == standing(before, id@, now, i as int),
                forall|k: int|
                    0 <= k < i ==> #[trigger] self.live@[k] == evicted(
                        before,
                        id@,
                        n as int,
                        now,
                    )[k],
                forall|k: int| i <= k < before.len() ==> #[trigger] self.live@[k] == before[k],
            decreases before.len() - i,
        {
            proof {
                lemma_standing(before, id@, now, i as int);
                assert(self.live@[i as int] == before[i as int]);
            }
            if self.live[i].monitor_id == *id && self.live[i].stands(now) {
                if seen < n {
                    self.live[i].forced_dismiss = true;
                    self.live[i].fade_out_start = Some(now);
                }
                seen = seen + 1;
            }
            i = i + 1;
        }
        assert(self.live@ =~= evicted(before, id@, n as int, now));
        proof {
            assert forall|a: int, b: int| 0 <= a < b < self.live@.len() implies (
            #[trigger] self.live@[a]).born <= (#[trigger] self.live@[b]).born by {
                assert(before[a].born <= before[b].born);
            }
        }
    }

    /// The area that a notification can be shown in, and with room for it. There
    /// is none while notifications are switched off, or for a monitor that is
    /// not there.
    pub fn make_room(&mut self, monitor_id: &String, now: u64) -> (r: Option<Rect>)
        requires
            old(self).wf(),
        ensures
            final(self).wf(),
            final(self).changing(old(self)),
            r == (if old(self).config.enabled {
                area_of(old(self).monitors@, monitor_id@)
            } else {
                None
            }),
            final(self).live@ == (if r is Some {
                roomy(old(self).live@, monitor_id@, old(self).config.cap(), now)
            } else {
                old(self).live@
            }),
    {
        if !self.config.enabled {
            return None;
        }
        match find_area(&self.monitors, monitor_id) {
            None => None,
            Some(area) => {
                let cap: usize = if self.config.max_concurrent >= 1 {
                    self.config.max_concurrent as usize
                } else {
                    1
                };
                let count = self.count_standing(monitor_id, now);
                if count >= cap {
                    proof {
                        let n = self.live@.len() as int;
                        if n > 0 {
                            lemma_standing(self.live@, monitor_id@, now, n - 1);
                        } else {
                            reveal(Seq::filter);
                            assert(self.live@.take(0) =~= Seq::<ToastWindow>::empty());
                        }
                    }
                    self.evict(monitor_id, count - cap + 1, now);
                }
                Some(area)
            },
        }
    }

    /// Note a notification whose window was created.
    pub fn add(&mut self, hwnd: isize, req: ShowRequest, now: u64)
        requires
            old(self).wf(),
        ensures
            final(self).wf(),
            final(self).changing(old(self)),
            exists|p: int|
                0 <= p <= old(self).live@.len() && (forall|i: int|
                    0 <= i < p ==> (#[trigger] old(self).live@[i]).born <= now) && (forall|i: int|
                    p <= i < old(self).live@.len() ==> (#[trigger] old(self).live@[i]).born > now)
                    && final(self).live@ == #[trigger] old(self).live@.insert(
                    p,
                    ToastWindow {
                        hwnd,
                        monitor_id: req.monitor_id,
                        level: req.level,
                        text: req.text,
                        born: now,
                        ttl_ms: old(self).config.ttl_ms,
                        forced_dismiss: false,
                        fade_out_start: None,
                        colors: old(self).config.colors,
                    },
                ),
    {
        let t = ToastWindow {
            hwnd,
            monitor_id: req.monitor_id,
            level: req.level,
            text: req.text,
            born: now,
            ttl_ms: self.config.ttl_ms,
            forced_dismiss: false,
            fade_out_start: None,
            colors: self.config.colors,
        };
        let ghost before = self.live@;
        let mut p: usize = self.live.len();
        while p > 0 && self.live[p - 1].born > now
            invariant
                p <= self.live@.len(),
                self.live@ == before,
                forall|i: int| p <= i < before.len() ==> (#[trigger] before[i]).born > now,
            decreases p,
        {
            p = p - 1;
        }
        self.live.insert(p, t);
        proof {
            assert forall|i: int| 0 <= i < p implies (#[trigger] before[i]).born <= now by {
                assert(before[p - 1].born <= now);
                if i < p - 1 {
                    assert(before[i].born <= before[p - 1].born);
                }
            }
            assert(self.live@ == before.insert(p as int, t));
            assert forall|a: int, b: int| 0 <= a < b < self.live@.len() implies (
            #[trigger] self.live@[a]).born <= (#[trigger] self.live@[b]).born by {
                let x = if a < p {
                    a
                } else {
                    a - 1
                };
                let y = if b < p {
                    b
                } else {
                    b - 1
                };
                if a != p && b != p {
                    assert(before[x].born <= before[y].born);
                } else if a == p {
                    assert(before[y].born > now);
                } else {
                    assert(before[x].born <= now);
                }
            }
        }
    }

    /// Whether all places of a monitor's notifications can be counted.
    fn is_stackable(&self, area: Rect) -> (r: bool)
        ensures
            r == can_stack(self.live@, area),
    {
        let right: i64 = area.x as i64 + area.w as i64;
        let n: usize = self.live.len();
        if n > 0x1000_0000 {
            assert(area.y + TOAST_MARGIN + (n + 1) * (TOAST_H + TOAST_GAP) > i32::MAX);
            return false;
        }
        let low: i64 = area.y as i64 + TOAST_MARGIN as i64 + (n as i64 + 1) * (TOAST_H
            + TOAST_GAP) as i64;
        right - TOAST_W as i64 - TOAST_MARGIN as i64 >= i32::MIN as i64 && right
            <= i32::MAX as i64 && low <= i32::MAX as i64
    }

    /// The places of a monitor's notifications. There are none where the monitor
    /// is not there, or is too far out.
    pub fn reflow_stack(&self, monitor_id: &String) -> (r: Vec<(isize, i32, i32)>)
        ensures
            match area_of(self.monitors@, monitor_id@) {
                Some(area) => if can_stack(self.live@, area) {
                    &&& r@.len() == stacked(self.live@, area, monitor_id@).len()
                    &&& forall|i: int|
                        0 <= i < r@.len() ==> {
                            let place = stacked(self.live@, area, monitor_id@)[i];
                            &&& (#[trigger] r@[i]).0 == place.0
                            &&& r@[i].1 == place.1
                            &&& r@[i].2 == place.2
                        }
                } else {
                    r@.len() == 0
                },
                None => r@.len() == 0,
            },
    {
        let mut out: Vec<(isize, i32, i32)> = Vec::new();
        let area = match find_area(&self.monitors, monitor_id) {
            Some(area) => area,
            None => {
                return out;
            },
        };
        if !self.is_stackable(area) {
            return out;
        }
        let x: i32 = area.x + area.w - TOAST_W - TOAST_MARGIN;
        let mut y: i32 = area.y + TOAST_MARGIN;
        let ghost live = self.live@;
        let ghost p = is_on(monitor_id@);
        let mut i: usize = 0;
        proof {
            reveal(Seq::filter);
            assert(live.take(0).filter(p) =~= Seq::<ToastWindow>::empty());
        }
        while i < self.live.len()
            invariant
                i <= self.live@.len(),
                live == self.live@,
                p == is_on(monitor_id@),
                can_stack(live, area),
                out@.len() <= i,
                out@.len() == live.take(i as int).filter(p).len(),
                x == area.x + area.w - TOAST_W - TOAST_MARGIN,
                y == area.y + TOAST_MARGIN + out@.len() * (TOAST_H + TOAST_GAP),
                forall|k: int|
                    0 <= k < out@.len() ==> {
                        &&& (#[trigger] out@[k]).0 == live.take(i as int).filter(p)[k].hwnd
                        &&& out@[k].1 == x
                        &&& out@[k].2 == area.y + TOAST_MARGIN + k * (TOAST_H + TOAST_GAP)
                    },
            decreases self.live@.len() - i,
        {
            proof {
                reveal(Seq::filter);
                assert(live.take(i + 1).drop_last() =~= live.take(i as int));
                assert(live.take(i + 1).last() == live[i as int]);
            }
            if self.live[i].monitor_id == *monitor_id {
                proof {
                    let n = out@.len() as int;
                    let all = live.len() as int;
                    let step = (TOAST_H + TOAST_GAP) as int;
                    assert((n + 1) * step == n * step + step && (n + 1) * step <= (all + 1) * step)
                        by (nonlinear_arith)
                        requires
                            0 <= n <= all,
                            step == 46,
                    ;
                }
                out.push((self.live[i].hwnd, x, y));
                y = y + (TOAST_H + TOAST_GAP);
            }
            i = i + 1;
        }
        assert(live.take(i as int) =~= live);
        out
    }

    /// With the notifications of monitors that are gone made to fade out.
    pub open spec fn abandoned(
        live: Seq<ToastWindow>,
        specs: Seq<ToastSpec>,
        now: u64,
    ) -> Seq<ToastWindow> {
        live.map_values(
            |t: ToastWindow|
                if area_of(specs, t.monitor_id@) is None && !t.forced_dismiss {
                    t.dismissed(now)
                } else {
                    t
                },
        )
    }

    /// Take over the monitors that are there. Notifications on monitors that are
    /// gone fade out.
    pub fn apply_sync(&mut self, specs: Vec<ToastSpec>, now: u64)
        requires
            old(self).wf(),
        ensures
            final(self).wf(),
            final(self).started == old(self).started,
            final(self).config == old(self).config,
            final(self).default_monitor == old(self).default_monitor,
            final(self).queue == old(self).queue,
            final(self).monitors == specs,
            final(self).live@ == Toasts::abandoned(old(self).live@, specs@, now),
    {
        let ghost before = self.live@;
        let ghost whole = *self;
        let mut i: usize = 0;
        while i < self.live.len()
            invariant
                i <= self.live@.len(),
                self.live@.len() == before.len(),
                self.changing(&whole),
                forall|k: int|
                    0 <= k < i ==> #[trigger] self.live@[k] == Toasts::abandoned(
                        before,
                        specs@,
                        now,
                    )[k],
                forall|k: int| i <= k < before.len() ==> #[trigger] self.live@[k] == before[k],
            decreases before.len() - i,
        {
            assert(self.live@[i as int] == before[i as int]);
            if find_area(&specs, &self.live[i].monitor_id).is_none()
                && !self.live[i].forced_dismiss {
                self.live[i].forced_dismiss = true;
                self.live[i].fade_out_start = Some(now);
            }
            i = i + 1;
        }
        assert(self.live@ =~= Toasts::abandoned(before, specs@, now));
        self.monitors = specs;
        proof {
            assert forall|a: int, b: int| 0 <= a < b < self.live@.len() implies (
            #[trigger] self.live@[a]).born <= (#[trigger] self.live@[b]).born by {
                assert(before[a].born <= before[b].born);
            }
        }
    }

    /// The places of all notifications, one monitor after the other.
    pub fn reflow_all_stacks(&self) -> (r: Vec<Vec<(isize, i32, i32)>>)
        ensures
            r@.len() == self.monitors@.len(),
            forall|m: int|
                0 <= m < r@.len() ==> ({
                    let id = self.monitors@[m].monitor_id@;
                    match area_of(self.monitors@, id) {
                        Some(area) => if can_stack(self.live@, area) {
                            &&& (#[trigger] r@[m])@.len() == stacked(self.live@, area, id).len()
                            &&& forall|i: int|
                                0 <= i < r@[m]@.len() ==> {
                                    let place = stacked(self.live@, area, id)[i];
                                    &&& (#[trigger] r@[m]@[i]).0 == place.0
                                    &&& r@[m]@[i].1 == place.1
                                    &&& r@[m]@[i].2 == place.2
                                }
                        } else {
                            r@[m]@.len() == 0
                        },
                        None => r@[m]@.len() == 0,
                    }
                }),
    {
        let mut out: Vec<Vec<(isize, i32, i32)>> = Vec::new();
        let mut m: usize = 0;
        while m < self.monitors.len()
            invariant
                m <= self.monitors@.len(),
                out@.len() == m,
                forall|k: int|
                    0 <= k < m ==> ({
                        let id = self.monitors@[k].monitor_id@;
                        match area_of(self.monitors@, id) {
                            Some(area) => if can_stack(self.live@, area) {
                                &&& (#[trigger] out@[k])@.len() == stacked(
                                    self.live@,
                                    area,
                                    id,
                                ).len()
                                &&& forall|i: int|
                                    0 <= i < out@[k]@.len() ==> {
                                        let place = stacked(self.live@, area, id)[i];
                                        &&& (#[trigger] out@[k]@[i]).0 == place.0
                                        &&& out@[k]@[i].1 == place.1
                                        &&& out@[k]@[i].2 == place.2
                                    }
                            } else {
                                out@[k]@.len() == 0
                            },
                            None => out@[k]@.len() == 0,
                        }
                    }),
            decreases self.monitors@.len() - m,
        {
            out.push(self.reflow_stack(&self.monitors[m].monitor_id));
            m = m + 1;
        }
        out
    }

    /// Whether the notification at `i` is the first with a window.
    pub open spec fn is_window(&self, i: int, hwnd: isize) -> bool {
        &&& 0 <= i < self.live@.len()
        &&& self.live@[i].hwnd == hwnd
        &&& forall|j: int| 0 <= j < i ==> (#[trigger] self.live@[j]).hwnd != hwnd
    }

    /// The notification with a window.
    pub fn find(&self, hwnd: isize) -> (r: Option<usize>)
        ensures
            match r {
                Some(i) => self.is_window(i as int, hwnd),
                None => forall|j: int|
                    0 <= j < self.live@.len() ==> (#[trigger] self.live@[j]).hwnd != hwnd,
            },
    {
        let mut i: usize = 0;
        while i < self.live.len()
            invariant
                i <= self.live@.len(),
                forall|j: int| 0 <= j < i ==> (#[trigger] self.live@[j]).hwnd != hwnd,
            decreases self.live@.len() - i,
        {
            if self.live[i].hwnd == hwnd {
                return Some(i);
            }
            i = i + 1;
        }
        None
    }

    /// What the window of a notification is to look like now, where it is one.
    pub fn tick(&self, hwnd: isize, now: u64) -> (r: Option<AlphaState>)
        ensures
            match r {
                Some(look) => exists|i: int| #[trigger]
                    self.is_window(i, hwnd) && look == self.live@[i].look(now as int),
                None => forall|j: int|
                    0 <= j < self.live@.len() ==> (#[trigger] self.live@[j]).hwnd != hwnd,
            },
    {
        match self.find(hwnd) {
            Some(i) => Some(compute_alpha(&self.live[i], now)),
            None => None,
        }
    }

    /// Forget the notification with a window. The monitor that it was on.
    pub fn retire(&mut self, hwnd: isize) -> (r: Option<String>)
        requires
            old(self).wf(),
        ensures
            final(self).wf(),
            final(self).changing(old(self)),
            match r {
                Some(id) => exists|i: int| #[trigger]
                    old(self).is_window(i, hwnd) && id@ == old(self).live@[i].monitor_id@
                        && final(self).live@ == old(self).live@.remove(i),
                None => final(self).live@ == old(self).live@ && forall|j: int|
                    0 <= j < old(self).live@.len() ==> (#[trigger] old(self).live@[j]).hwnd
                        != hwnd,
            },
    {
        match self.find(hwnd) {
            None => None,
            Some(i) => {
                let ghost before = self.live@;
                let t = self.live.remove(i);
                proof {
                    assert forall|a: int, b: int| 0 <= a < b < self.live@.len() implies (
                    #[trigger] self.live@[a]).born <= (#[trigger] self.live@[b]).born by {
                        let x = if a < i {
                            a
                        } else {
                            a + 1
                        };
                        let y = if b < i {
                            b
                        } else {
                            b + 1
                        };
                        assert(before[x].born <= before[y].born);
                    }
                    assert(old(self).is_window(i as int, hwnd));
                }
                Some(t.monitor_id)
            },
        }
    }
}

/// The sign in front of a notification.
pub open spec fn sign(level: ToastLevel) -> Seq<char> {
    match level {
        ToastLevel::Info => "\u{2713}"@,
        ToastLevel::Warn => "\u{26A0}"@,
        ToastLevel::Error => "\u{2715}"@,
    }
}

/// The sign in front of a notification.
pub fn glyph(level: ToastLevel) -> (r: &'static str)
    ensures
        r@ == sign(level),
{
    match level {
        ToastLevel::Info => "\u{2713}",
        ToastLevel::Warn => "\u{26A0}",
        ToastLevel::Error => "\u{2715}",
    }
}

/// What is drawn of a notification: its background, its sign and its text.
pub open spec fn toast_drawn(t: ToastWindow) -> Seq<Drawn> {
    let (bg, fg) = t.colors.of(t.level);
    seq![
        Drawn::Fill(Edges { left: 0, top: 0, right: TOAST_W, bottom: TOAST_H }, bg),
        Drawn::Write(
            Edges { left: 12, top: 0, right: 36, bottom: TOAST_H },
            sign(t.level),
            fg,
            false,
        ),
        Drawn::Write(
            Edges { left: 42, top: 0, right: (TOAST_W - 12) as i32, bottom: TOAST_H },
            t.text@,
            fg,
            true,
        ),
    ]
}

/// Draw a notification.
pub fn draw_toast(t: &ToastWindow) -> (r: Vec<Stroke>)
    ensures
        bar::all_drawn(r@) == toast_drawn(*t),
{
    let (bg, fg) = t.colors.pair(t.level);
    let mut r: Vec<Stroke> = Vec::new();
    r.push(Stroke::Fill(Edges { left: 0, top: 0, right: TOAST_W, bottom: TOAST_H }, bg));
    r.push(
        Stroke::Write(
            Edges { left: 12, top: 0, right: 36, bottom: TOAST_H },
            String::from_str(glyph(t.level)),
            fg,
            false,
        ),
    );
    r.push(
        Stroke::Write(
            Edges { left: 42, top: 0, right: TOAST_W - 12, bottom: TOAST_H },
            t.text.clone(),
            fg,
            true,
        ),
    );
    assert(bar::all_drawn(r@) =~= toast_drawn(*t));
    r
}

// ---- what all of this adds up to --------------------------------------------

/// Each level has its own two colours, and its own sign.
pub proof fn law_levels_are_told_apart(t: ToastWindow)
    ensures
        ({
            let drawn = toast_drawn(t);
            let (bg, fg, mark) = match t.level {
                ToastLevel::Info => (t.colors.info_bg, t.colors.info_fg, '\u{2713}'),
                ToastLevel::Warn => (t.colors.warn_bg, t.colors.warn_fg, '\u{26A0}'),
                ToastLevel::Error => (t.colors.error_bg, t.colors.error_fg, '\u{2715}'),
            };
            &&& drawn.len() == 3
            &&& drawn[0] matches Drawn::Fill(place, color) && color == bg && place.left == 0
                && place.top == 0 && place.right == 320 && place.bottom == 40
            &&& drawn[1] matches Drawn::Write(place, said, color, _) && color == fg && said
                == seq![mark] && place.right < 42
            &&& drawn[2] matches Drawn::Write(place, said, color, _) && color == fg && said
                == t.text@ && place.left == 42 && place.right == 308
        }),
{
    reveal_strlit("\u{2713}");
    reveal_strlit("\u{26A0}");
    reveal_strlit("\u{2715}");
    assert("\u{2713}"@ =~= seq!['\u{2713}']);
    assert("\u{26A0}"@ =~= seq!['\u{26A0}']);
    assert("\u{2715}"@ =~= seq!['\u{2715}']);
}

/// The notifications of a monitor stand below each other at its right edge, 12 pixels
/// from the corner and 6 pixels apart, the oldest at the top.
pub proof fn law_notifications_stand_below_each_other(
    live: Seq<ToastWindow>,
    area: Rect,
    id: Seq<char>,
    i: int,
    j: int,
)
    requires
        0 <= i < j < stacked(live, area, id).len(),
    ensures
        ({
            let all = stacked(live, area, id);
            &&& all[i].1 + 320 + 12 == area.x + area.w && all[j].1 == all[i].1
            &&& all[0].2 == area.y + 12
            &&& all[i + 1].2 == all[i].2 + 40 + 6
            &&& all[j].2 > all[i].2
            &&& exists|a: int, b: int|
                0 <= a < b < live.len() && (#[trigger] live[a]).hwnd == all[i].0
                    && live[a].monitor_id@ == id && (#[trigger] live[b]).hwnd == all[j].0
                    && live[b].monitor_id@ == id
        }),
{
    let mine = live.filter(is_on(id));
    let (a, b) = lemma_filter_order(live, is_on(id), i, j);
    assert(live[a] == mine[i] && live[b] == mine[j]);
    lemma_mine(live, id, i);
    lemma_mine(live, id, j);
}

proof fn lemma_mine(live: Seq<ToastWindow>, id: Seq<char>, i: int)
    requires
        0 <= i < live.filter(is_on(id)).len(),
    ensures
        live.filter(is_on(id))[i].monitor_id@ == id,
{
    live.lemma_filter_pred(is_on(id), i);
}

/// What is picked out of a list keeps its order.
proof fn lemma_filter_order(
    live: Seq<ToastWindow>,
    p: spec_fn(ToastWindow) -> bool,
    i: int,
    j: int,
) -> (at: (int, int))
    requires
        0 <= i < j < live.filter(p).len(),
    ensures
        0 <= at.0 < at.1 < live.len(),
        live[at.0] == live.filter(p)[i],
        live[at.1] == live.filter(p)[j],
    decreases live.len(),
{
    reveal(Seq::filter);
    let front = live.drop_last();
    if p(live.last()) && j == front.filter(p).len() {
        let a = lemma_filter_at(front, p, i);
        (a, live.len() - 1)
    } else {
        lemma_filter_order(front, p, i, j)
    }
}

proof fn lemma_filter_at(live: Seq<ToastWindow>, p: spec_fn(ToastWindow) -> bool, i: int) -> (at:
    int)
    requires
        0 <= i < live.filter(p).len(),
    ensures
        0 <= at < live.len(),
        live[at] == live.filter(p)[i],
    decreases live.len(),
{
    reveal(Seq::filter);
    let front = live.drop_last();
    if p(live.last()) && i == front.filter(p).len() {
        live.len() - 1
    } else {
        lemma_filter_at(front, p, i)
    }
}

/// A notification fades in for 150 milliseconds, stays for its time, and fades out for
/// 200 milliseconds; at the beginning it is not to be seen.
pub proof fn law_notification_has_its_time(t: ToastWindow, now: int, k: int)
    requires
        t.fade_out_start is None,
        0 <= k < 150,
    ensures
        now <= t.born ==> t.look(now) == AlphaState::Alpha(0),
        t.look(t.born + k * 1_000_000) == AlphaState::Alpha((k * 255 / 150) as u8),
        t.born + 150_000_000 <= now < t.born + 150_000_000 + t.ttl_ms * 1_000_000 ==> t.look(now)
            == AlphaState::Alpha(255),
        now < t.born + 350_000_000 + t.ttl_ms * 1_000_000 <==> t.look(now) is Alpha,
{
    if now == t.born {
        assert((now - t.born) / 1_000_000 == 0);
    }
    let at = t.born + k * 1_000_000;
    assert((at - t.born) / 1_000_000 == k);
}

/// One that is dismissed is gone 200 milliseconds later, and is as opaque as before at
/// the moment when it is dismissed.
pub proof fn law_dismissed_notification_fades(t: ToastWindow, now: u64)
    requires
        t.fade_out_start is None,
        now < t.fading_from(),
    ensures
        t.dismissed(now).look(now as int) == t.look(now as int),
        t.dismissed(now).look(now + 200_000_000) is Done,
        t.dismissed(now).look(now + 199_999_999) is Alpha,
{
    let d = t.dismissed(now);
    let start = t.rising(now as int);
    assert(d.rising(now as int) == start);
    assert((now - now) / 1_000_000 == 0);
    assert(0int * start == 0) by (nonlinear_arith);
}

/// Room is made by the oldest notifications of a monitor, and by no more of them than
/// have to go.
pub proof fn law_oldest_make_room(
    live: Seq<ToastWindow>,
    id: Seq<char>,
    cap: int,
    now: u64,
    i: int,
    j: int,
)
    requires
        cap >= 1,
        0 <= i < j < live.len(),
        live[i].monitor_id@ == id && !live[i].forced_dismiss && now < live[i].fading_from(),
        !live[j].forced_dismiss,
    ensures
        roomy(live, id, cap, now)[j].forced_dismiss ==> roomy(live, id, cap, now)[i].forced_dismiss,
        standing(live, id, now, live.len() as int) < cap ==> roomy(live, id, cap, now) == live,
        standing(live, id, now, live.len() as int) >= cap ==> standing(
            roomy(live, id, cap, now),
            id,
            now,
            live.len() as int,
        ) == cap - 1,
{
    let count = standing(live, id, now, live.len() as int);
    if count >= cap {
        lemma_evicted(live, id, count + 1 - cap, now, live.len() as int);
    }
    lemma_standing_grows(live, id, now, i, j);
}

proof fn lemma_standing_grows(live: Seq<ToastWindow>, id: Seq<char>, now: u64, i: int, j: int)
    requires
        0 <= i <= j < live.len(),
    ensures
        standing(live, id, now, i) <= standing(live, id, now, j),
    decreases j - i,
{
    if i < j {
        lemma_standing(live, id, now, i);
        lemma_standing_grows(live, id, now, i + 1, j);
    }
}

/// Where a monitor is gone its notifications fade out from now on, and all others stay as
/// they are.
pub proof fn law_gone_monitor_loses_its_notifications(
    live: Seq<ToastWindow>,
    specs: Seq<ToastSpec>,
    now: u64,
    i: int,
)
    requires
        0 <= i < live.len(),
    ensures
        ({
            let after = Toasts::abandoned(live, specs, now);
            let there = exists|k: int|
                0 <= k < specs.len() && (#[trigger] specs[k]).monitor_id@ == live[i].monitor_id@;
            &&& after.len() == live.len()
            &&& there ==> after[i] == live[i]
            &&& !there && !live[i].forced_dismiss ==> after[i].forced_dismiss
                && after[i].fade_out_start == Some(now)
            &&& !there && live[i].forced_dismiss ==> after[i] == live[i]
        }),
{
    let id = live[i].monitor_id@;
    if exists|k: int| 0 <= k < specs.len() && (#[trigger] specs[k]).monitor_id@ == id {
        let k = choose|k: int| 0 <= k < specs.len() && (#[trigger] specs[k]).monitor_id@ == id;
        lemma_some_spec(specs, id, k);
    }
}

proof fn lemma_some_spec(specs: Seq<ToastSpec>, id: Seq<char>, k: int)
    requires
        0 <= k < specs.len(),
        specs[k].monitor_id@ == id,
    ensures
        exists|i: int| is_spec(specs, i, id),
    decreases k,
{
    if exists|j: int| 0 <= j < k && (#[trigger] specs[j]).monitor_id@ == id {
        let j = choose|j: int| 0 <= j < k && (#[trigger] specs[j]).monitor_id@ == id;
        lemma_some_spec(specs, id, j);
    } else {
        assert(is_spec(specs, k, id));
    }
}

/// Notifications stand in the area of their own monitor.
pub proof fn law_notifications_stand_on_their_monitor(specs: Seq<ToastSpec>, k: int)
    requires
        0 <= k < specs.len(),
        forall|i: int, j: int|
            0 <= i < j < specs.len() ==> (#[trigger] specs[i]).monitor_id@ != (
            #[trigger] specs[j]).monitor_id@,
    ensures
        area_of(specs, specs[k].monitor_id@) == Some(specs[k].work_area),
{
    assert(is_spec(specs, k, specs[k].monitor_id@));
    lemma_area(specs, k, specs[k].monitor_id@);
}

} // verus!
