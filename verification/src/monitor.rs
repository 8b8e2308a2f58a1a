//! Monitors.

use crate::ids;
use crate::ids::{MonitorId, WorkspaceId};
use crate::rect;
use crate::rect::Rect;
use vstd::prelude::*;
use vstd::string::StringExecFns;

verus! {

/// A physical or virtual display.
#[derive(Debug, Clone)]
pub struct MonitorInfo {
    /// The system's handle. It does not survive a change of displays.
    pub hmonitor: isize,
    /// The identifier that survives mode changes and, mostly, unplugging.
    pub stable_id: String,
    /// A name for people. May be empty.
    pub friendly_name: String,
    /// The whole display.
    pub bounds: Rect,
    /// The display without the taskbar and docked toolbars.
    pub work_area: Rect,
    /// 96 is 100%.
    pub dpi: u32,
    /// Whether this is the primary display.
    pub primary: bool,
}

impl MonitorInfo {
    /// Whether the display's rectangles have edges on all sides.
    pub open spec fn plausible(self) -> bool {
        self.bounds.valid() && self.work_area.valid()
    }

    /// The same description once more.
    pub fn copied(&self) -> (r: MonitorInfo)
        ensures
            r == *self,
    {
        MonitorInfo {
            hmonitor: self.hmonitor,
            stable_id: self.stable_id.clone(),
            friendly_name: self.friendly_name.clone(),
            bounds: self.bounds,
            work_area: self.work_area,
            dpi: self.dpi,
            primary: self.primary,
        }
    }

    /// Whether the display's rectangles have edges on all sides.
    pub fn is_plausible(&self) -> (b: bool)
        ensures
            b == self.plausible(),
    {
        self.bounds.is_valid() && self.work_area.is_valid()
    }
}

/// A monitor and the workspace that it shows.
#[derive(Debug, Clone)]
pub struct Monitor {
    pub id: MonitorId,
    pub info: MonitorInfo,
    /// The workspace that is visible on this monitor.
    pub current_workspace: WorkspaceId,
}

/// A work area without the outer gaps.
pub open spec fn area_without_gaps(
    area: Rect,
    top: int,
    right: int,
    bottom: int,
    left: int,
) -> Rect {
    Rect {
        x: (area.x + left) as i32,
        y: (area.y + top) as i32,
        w: rect::larger(area.w - left - right, 0) as i32,
        h: rect::larger(area.h - top - bottom, 0) as i32,
    }
}

/// The same gap on every side is an inset by that gap.
pub proof fn law_even_gaps_are_an_inset(area: Rect, gap: int)
    ensures
        area_without_gaps(area, gap, gap, gap, gap) == area.inset_spec(gap),
{
}

impl Monitor {
    /// The same monitor once more.
    pub fn copied(&self) -> (r: Self)
        ensures
            r == *self,
    {
        Monitor {
            id: self.id.copied(),
            info: self.info.copied(),
            current_workspace: self.current_workspace,
        }
    }

    pub fn new(info: MonitorInfo, current_workspace: WorkspaceId) -> (r: Self)
        ensures
            r == (Monitor { id: MonitorId(info.stable_id), info, current_workspace }),
    {
        let id = MonitorId(info.stable_id.clone());
        Monitor { id, info, current_workspace }
    }

    /// The work area without the outer gaps.
    pub fn work_area_with_gap(
        &self,
        outer_top: i32,
        outer_right: i32,
        outer_bottom: i32,
        outer_left: i32,
    ) -> (r: Rect)
        requires
            rect::fits(self.info.work_area.x + outer_left),
            rect::fits(self.info.work_area.y + outer_top),
            self.info.work_area.w - outer_left - outer_right <= i32::MAX,
            self.info.work_area.h - outer_top - outer_bottom <= i32::MAX,
        ensures
            r == area_without_gaps(
                self.info.work_area,
                outer_top as int,
                outer_right as int,
                outer_bottom as int,
                outer_left as int,
            ),
    {
        self.info.work_area.inset_each(outer_left, outer_top, outer_right, outer_bottom)
    }
}

/// Whether the monitors are in the order of their identifiers, each once.
pub open spec fn in_order(monitors: Seq<Monitor>) -> bool {
    forall|i: int, j: int|
        0 <= i < j < monitors.len() ==> ids::precedes(
            #[trigger] monitors[i].id@,
            #[trigger] monitors[j].id@,
        )
}

/// Whether the monitor at `i` has the identifier `id`.
pub open spec fn is_monitor(monitors: Seq<Monitor>, i: int, id: Seq<char>) -> bool {
    0 <= i < monitors.len() && monitors[i].id@ == id
}

/// The position of a monitor.
pub open spec fn monitor_index(monitors: Seq<Monitor>, id: Seq<char>) -> Option<int> {
    if exists|i: int| is_monitor(monitors, i, id) {
        Some(choose|i: int| is_monitor(monitors, i, id))
    } else {
        None
    }
}

/// Monitors in order have distinct identifiers.
pub proof fn lemma_in_order_distinct(monitors: Seq<Monitor>, i: int, j: int)
    requires
        in_order(monitors),
        0 <= i < monitors.len(),
        0 <= j < monitors.len(),
        monitors[i].id@ == monitors[j].id@,
    ensures
        i == j,
{
    ids::lemma_precedes_total(monitors[i].id@, monitors[j].id@);
    if i < j {
        assert(ids::precedes(monitors[i].id@, monitors[j].id@));
    } else if j < i {
        assert(ids::precedes(monitors[j].id@, monitors[i].id@));
    }
}

/// The position of the monitor at `i`.
pub proof fn lemma_monitor_index(monitors: Seq<Monitor>, i: int)
    requires
        in_order(monitors),
        0 <= i < monitors.len(),
    ensures
        monitor_index(monitors, monitors[i].id@) == Some(i),
{
    let id = monitors[i].id@;
    assert(is_monitor(monitors, i, id));
    let k = choose|k: int| is_monitor(monitors, k, id);
    assert(is_monitor(monitors, k, id));
    lemma_in_order_distinct(monitors, i, k);
}

/// Removing a monitor keeps the order of the others.
pub proof fn lemma_removed_in_order(monitors: Seq<Monitor>, at: int)
    requires
        in_order(monitors),
        0 <= at < monitors.len(),
    ensures
        in_order(monitors.remove(at)),
{
    let after = monitors.remove(at);
    assert forall|i: int, j: int| 0 <= i < j < after.len() implies ids::precedes(
        #[trigger] after[i].id@,
        #[trigger] after[j].id@,
    ) by {
        let a = if i < at {
            i
        } else {
            i + 1
        };
        let b = if j < at {
            j
        } else {
            j + 1
        };
        assert(ids::precedes(monitors[a].id@, monitors[b].id@));
    }
}

/// Whether two lists have the same monitors, in whatever state.
pub open spec fn same_ids(a: Seq<Monitor>, b: Seq<Monitor>) -> bool {
    &&& a.len() == b.len()
    &&& forall|i: int| 0 <= i < a.len() ==> (#[trigger] a[i]).id == b[i].id
}

/// A monitor that is not in one list is not in another with the same ones.
pub proof fn lemma_still_absent(a: Seq<Monitor>, b: Seq<Monitor>, id: Seq<char>)
    requires
        same_ids(a, b),
        monitor_index(a, id) is None,
    ensures
        monitor_index(b, id) is None,
{
    if exists|i: int| is_monitor(b, i, id) {
        let i = choose|i: int| is_monitor(b, i, id);
        assert(is_monitor(b, i, id));
        assert(a[i].id == b[i].id);
        assert(is_monitor(a, i, id));
    }
}

/// The order depends on the identifiers alone.
pub proof fn lemma_same_ids_in_order(before: Seq<Monitor>, after: Seq<Monitor>)
    requires
        in_order(before),
        before.len() == after.len(),
        forall|i: int| 0 <= i < before.len() ==> (#[trigger] after[i]).id == before[i].id,
    ensures
        in_order(after),
{
    assert forall|i: int, j: int| 0 <= i < j < after.len() implies ids::precedes(
        #[trigger] after[i].id@,
        #[trigger] after[j].id@,
    ) by {
        assert(ids::precedes(before[i].id@, before[j].id@));
    }
}

/// Find a monitor by its identifier.
pub fn find_monitor(monitors: &Vec<Monitor>, id: &MonitorId) -> (r: Option<usize>)
    requires
        in_order(monitors@),
    ensures
        match r {
            Some(i) => is_monitor(monitors@, i as int, id@) && monitor_index(monitors@, id@)
                == Some(i as int),
            None => monitor_index(monitors@, id@) is None,
        },
{
    let mut i: usize = 0;
    while i < monitors.len()
        invariant
            i <= monitors.len(),
            in_order(monitors@),
            forall|j: int| 0 <= j < i ==> (#[trigger] monitors@[j]).id@ != id@,
        decreases monitors.len() - i,
    {
        if monitors[i].id.same(id) {
            proof {
                lemma_monitor_index(monitors@, i as int);
            }
            return Some(i);
        }
        i = i + 1;
    }
    None
}

/// The monitors with one more, at its place in the order.
pub open spec fn with_monitor(monitors: Seq<Monitor>, m: Monitor) -> Seq<Monitor> {
    monitors.insert(place_for(monitors, m.id@), m)
}

/// How many monitors come before the identifier.
pub open spec fn place_for(monitors: Seq<Monitor>, id: Seq<char>) -> int
    decreases monitors.len(),
{
    if monitors.len() == 0 {
        0
    } else if ids::precedes(monitors.last().id@, id) {
        monitors.len() as int
    } else {
        place_for(monitors.drop_last(), id)
    }
}

/// The place for an identifier is after all that come before it.
proof fn lemma_place_for(monitors: Seq<Monitor>, id: Seq<char>)
    ensures
        0 <= place_for(monitors, id) <= monitors.len(),
        place_for(monitors, id) > 0 ==> ids::precedes(
            monitors[place_for(monitors, id) - 1].id@,
            id,
        ),
        forall|i: int|
            place_for(monitors, id) <= i < monitors.len() ==> !ids::precedes(
                (#[trigger] monitors[i]).id@,
                id,
            ),
    decreases monitors.len(),
{
    if monitors.len() > 0 && !ids::precedes(monitors.last().id@, id) {
        lemma_place_for(monitors.drop_last(), id);
        assert forall|i: int|
            place_for(monitors, id) <= i < monitors.len() implies !ids::precedes(
            (#[trigger] monitors[i]).id@,
            id,
        ) by {
            if i < monitors.len() - 1 {
                assert(monitors[i] == monitors.drop_last()[i]);
            }
        }
        if place_for(monitors, id) > 0 {
            assert(monitors[place_for(monitors, id) - 1] == monitors.drop_last()[place_for(
                monitors,
                id,
            ) - 1]);
        }
    }
}

/// A new monitor at its place keeps the order.
pub proof fn lemma_with_monitor(monitors: Seq<Monitor>, m: Monitor)
    requires
        in_order(monitors),
        monitor_index(monitors, m.id@) is None,
    ensures
        in_order(with_monitor(monitors, m)),
        0 <= place_for(monitors, m.id@) <= monitors.len(),
{
    let p = place_for(monitors, m.id@);
    let after = with_monitor(monitors, m);
    lemma_place_for(monitors, m.id@);
    assert forall|i: int| 0 <= i < monitors.len() implies (i < p <==> ids::precedes(
        (#[trigger] monitors[i]).id@,
        m.id@,
    )) && (i >= p ==> ids::precedes(m.id@, monitors[i].id@)) by {
        if i < p - 1 {
            assert(ids::precedes(monitors[i].id@, monitors[p - 1].id@));
            ids::lemma_precedes_transitive(monitors[i].id@, monitors[p - 1].id@, m.id@);
        }
        if i >= p {
            if monitors[i].id@ == m.id@ {
                assert(is_monitor(monitors, i, m.id@));
            }
            ids::lemma_precedes_total(monitors[i].id@, m.id@);
        }
    }
    assert forall|i: int, j: int| 0 <= i < j < after.len() implies ids::precedes(
        #[trigger] after[i].id@,
        #[trigger] after[j].id@,
    ) by {
        if i < p && j > p {
            assert(ids::precedes(monitors[i].id@, monitors[j - 1].id@));
        } else if i < p && j < p {
            assert(ids::precedes(monitors[i].id@, monitors[j].id@));
        } else if i > p && j > p {
            assert(ids::precedes(monitors[i - 1].id@, monitors[j - 1].id@));
        }
    }
}

/// Add a monitor at its place in the order.
pub fn add_monitor(monitors: &mut Vec<Monitor>, m: Monitor)
    requires
        in_order(old(monitors)@),
        monitor_index(old(monitors)@, m.id@) is None,
    ensures
        final(monitors)@ == with_monitor(old(monitors)@, m),
        in_order(final(monitors)@),
{
    proof {
        lemma_with_monitor(monitors@, m);
    }
    let mut p: usize = monitors.len();
    assert(monitors@.take(p as int) =~= monitors@);
    while p > 0 && !ids::comes_before(&monitors[p - 1].id.0, &m.id.0)
        invariant
            p <= monitors@.len(),
            place_for(monitors@, m.id@) == place_for(monitors@.take(p as int), m.id@),
        decreases p,
    {
        assert(monitors@.take(p as int).drop_last() =~= monitors@.take(p - 1));
        assert(monitors@.take(p as int).last() == monitors@[p - 1]);
        p = p - 1;
    }
    proof {
        if p > 0 {
            assert(monitors@.take(p as int).last() == monitors@[p - 1]);
        }
        assert(place_for(monitors@, m.id@) == p);
    }
    monitors.insert(p, m);
}

// ---- names ----------------------------------------------------------------

/// The identifier of a display: the name of its output, and the identifier of
/// the device where there is one.
pub open spec fn stable_id(device: Seq<char>, pnp: Seq<char>) -> Seq<char> {
    if pnp.len() == 0 {
        device
    } else {
        device + "|"@ + pnp
    }
}

/// The identifier of a display.
pub fn compose_stable_id(device: &String, pnp: &String) -> (r: String)
    ensures
        r@ == stable_id(device@, pnp@),
{
    let mut r = device.clone();
    if !pnp.as_str().is_empty() {
        r.append("|");
        r.append(pnp.as_str());
    }
    r
}

/// The name of a display for people: that of the monitor, or that of the
/// adapter where the monitor has none.
pub fn pick_friendly_name(adapter: String, monitor: String) -> (r: String)
    ensures
        r@ == (if monitor@.len() > 0 {
            monitor@
        } else {
            adapter@
        }),
{
    if monitor.as_str().is_empty() {
        adapter
    } else {
        monitor
    }
}

/// Whether the flags of a display mark the primary one.
pub fn is_primary(flags: u32) -> (r: bool)
    ensures
        r == (flags % 2 == 1),
{
    flags % 2 == 1
}

/// The identifier of a display begins with its device. Displays of one device are told
/// apart by what is plugged in, and displays of two devices by these, as long as no
/// device has the separator in its name.
pub proof fn law_displays_are_told_apart(
    a: Seq<char>,
    p: Seq<char>,
    b: Seq<char>,
    q: Seq<char>,
)
    requires
        !a.contains('|') && !b.contains('|'),
    ensures
        stable_id(a, p) == stable_id(b, q) <==> a == b && p == q,
        stable_id(a, p).take(a.len() as int) == a,
        p.len() == 0 ==> stable_id(a, p) == a,
        p.len() > 0 ==> stable_id(a, p)[a.len() as int] == '|',
{
    reveal_strlit("|");
    let s = stable_id(a, p);
    let t = stable_id(b, q);
    assert("|"@.len() == 1);
    assert(s.len() == if p.len() == 0 {
        a.len()
    } else {
        a.len() + 1 + p.len()
    });
    assert(t.len() == if q.len() == 0 {
        b.len()
    } else {
        b.len() + 1 + q.len()
    });
    assert(s.take(a.len() as int) =~= a);
    if p.len() > 0 {
        assert(s[a.len() as int] == '|');
    }
    if q.len() > 0 {
        assert(t[b.len() as int] == '|');
    }
    if s == t {
        if a.len() < b.len() {
            if p.len() > 0 {
                assert(b[a.len() as int] == t[a.len() as int]);
                assert(b.contains('|'));
            }
        }
        if b.len() < a.len() {
            if q.len() > 0 {
                assert(a[b.len() as int] == s[b.len() as int]);
                assert(a.contains('|'));
            }
        }
        assert(a.len() == b.len());
        assert(a =~= s.take(a.len() as int));
        assert(b =~= t.take(b.len() as int));
        assert(p =~= q) by {
            assert(p.len() == q.len());
            assert forall|i: int| 0 <= i < p.len() implies p[i] == q[i] by {
                assert(s[a.len() + 1 + i] == p[i]);
                assert(t[b.len() + 1 + i] == q[i]);
            }
        }
    }
}

} // verus!
