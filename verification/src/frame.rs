//! The frame around the focused window.
//!
//! The frame is a window of its own around the focused one, cut to a ring with
//! round corners. Cutting the ring is the costly step, so it is left out where
//! the ring is the one that was cut last: a ring moves with its window.

use crate::rect;
use crate::rect::Rect;
use vstd::prelude::*;

verus! {

/// A rectangle with round corners, from its left and top edge up to its right
/// and bottom edge; `ellipse` is the diameter of the corners.
#[derive(Debug, Clone, Copy, PartialEq, Eq, Structural)]
pub struct Rounded {
    pub left: i32,
    pub top: i32,
    pub right: i32,
    pub bottom: i32,
    pub ellipse: i32,
}

/// What is inside `outer` and not inside `inner`.
#[derive(Debug, Clone, Copy, PartialEq, Eq, Structural)]
pub struct Ring {
    pub outer: Rounded,
    pub inner: Rounded,
}

/// Where the frame goes, and the ring to cut where the last one does not fit.
#[derive(Debug, Clone, Copy, PartialEq, Eq, Structural)]
pub struct Placement {
    pub bounds: Rect,
    pub ring: Option<Ring>,
    /// Whether the frame was hidden before.
    pub appears: bool,
}

/// What a ring is cut from.
#[derive(Debug, Clone, Copy, PartialEq, Eq, Structural)]
pub struct RingKey {
    pub outer_w: i32,
    pub outer_h: i32,
    pub width: i32,
    pub radius: i32,
}

/// The frame.
#[derive(Debug, Clone, Copy, PartialEq, Eq, Structural)]
pub struct FocusBorder {
    /// The thickness; not negative. Where it is 0 there is no frame.
    pub width: i32,
    /// The radius of the inner corners; not negative.
    pub radius: i32,
    pub visible: bool,
    /// What the ring was cut from last.
    pub cut: Option<RingKey>,
}

pub open spec fn at_least(n: i32, least: i32) -> i32 {
    if n >= least {
        n
    } else {
        least
    }
}

/// The outer bounds of the frame: `width` pixels around the window.
pub open spec fn around(target: Rect, width: int) -> Rect {
    Rect {
        x: (target.x - width) as i32,
        y: (target.y - width) as i32,
        w: (target.w + 2 * width) as i32,
        h: (target.h + 2 * width) as i32,
    }
}

/// Whether all of the frame's coordinates can be counted.
pub open spec fn frame_fits(target: Rect, width: int, radius: int) -> bool {
    &&& rect::fits(target.x - width)
    &&& rect::fits(target.y - width)
    &&& rect::fits(2 * width)
    &&& rect::fits(target.w + width)
    &&& rect::fits(target.w + 2 * width)
    &&& rect::fits(target.h + width)
    &&& rect::fits(target.h + 2 * width)
    &&& rect::fits(2 * (radius + width))
}

/// The ring, relative to the frame's own corner. Its corners are concentric.
pub open spec fn ring_of(target: Rect, width: int, radius: int) -> Ring {
    Ring {
        outer: Rounded {
            left: 0,
            top: 0,
            right: (target.w + 2 * width) as i32,
            bottom: (target.h + 2 * width) as i32,
            ellipse: (2 * (radius + width)) as i32,
        },
        inner: Rounded {
            left: width as i32,
            top: width as i32,
            right: (width + target.w) as i32,
            bottom: (width + target.h) as i32,
            ellipse: (2 * radius) as i32,
        },
    }
}

pub open spec fn key_of(target: Rect, width: int, radius: int) -> RingKey {
    RingKey {
        outer_w: (target.w + 2 * width) as i32,
        outer_h: (target.h + 2 * width) as i32,
        width: width as i32,
        radius: radius as i32,
    }
}

impl FocusBorder {
    pub open spec fn wf(&self) -> bool {
        self.width >= 0 && self.radius >= 0
    }

    /// Whether there is a frame: it is thicker than nothing.
    pub fn is_on(&self) -> (r: bool)
        ensures
            r == (self.width > 0),
    {
        self.width > 0
    }

    /// A frame that is not shown yet.
    pub fn new(width: i32, radius: i32) -> (r: FocusBorder)
        ensures
            r.wf(),
            r == (FocusBorder {
                width: at_least(width, 0),
                radius: at_least(radius, 0),
                visible: false,
                cut: None,
            }),
    {
        let mut r = FocusBorder { width: 0, radius: 0, visible: false, cut: None };
        r.set_width(width);
        r.set_radius(radius);
        r
    }

    /// Change the thickness, from the next time that the frame is placed.
    pub fn set_width(&mut self, width: i32)
        ensures
            *final(self) == (FocusBorder { width: at_least(width, 0), ..*old(self) }),
    {
        self.width = if width >= 0 {
            width
        } else {
            0
        };
    }

    /// Change the corners, from the next time that the frame is placed.
    pub fn set_radius(&mut self, radius: i32)
        ensures
            *final(self) == (FocusBorder { radius: at_least(radius, 0), ..*old(self) }),
    {
        self.radius = if radius >= 0 {
            radius
        } else {
            0
        };
    }

    /// Whether the frame fits around a window.
    pub fn can_show_around(&self, target: Rect) -> (r: bool)
        ensures
            r == frame_fits(target, self.width as int, self.radius as int),
    {
        let w: i64 = self.width as i64;
        let x: i64 = target.x as i64 - w;
        let y: i64 = target.y as i64 - w;
        let inner_w: i64 = target.w as i64 + w;
        let inner_h: i64 = target.h as i64 + w;
        let outer_w: i64 = inner_w + w;
        let outer_h: i64 = inner_h + w;
        let ellipse: i64 = 2 * (self.radius as i64 + w);
        countable(x) && countable(y) && countable(2 * w) && countable(inner_w) && countable(
            outer_w,
        ) && countable(inner_h) && countable(outer_h) && countable(ellipse)
    }

    /// Place the frame around a window and show it. `None` where there is no
    /// frame: none is shown then.
    pub fn show_around(&mut self, target: Rect) -> (r: Option<Placement>)
        requires
            old(self).wf(),
            frame_fits(target, old(self).width as int, old(self).radius as int),
        ensures
            final(self).wf(),
            r is Some <==> old(self).width > 0,
            match r {
                None => *final(self) == (FocusBorder { visible: false, ..*old(self) }),
                Some(p) => {
                    let w = old(self).width as int;
                    let rad = old(self).radius as int;
                    let key = key_of(target, w, rad);
                    &&& p.bounds == around(target, w)
                    &&& p.ring == (if old(self).cut == Some(key) {
                        None
                    } else {
                        Some(ring_of(target, w, rad))
                    })
                    &&& p.appears == !old(self).visible
                    &&& *final(self) == (FocusBorder {
                        visible: true,
                        cut: Some(key),
                        ..*old(self)
                    })
                },
            },
    {
        if !self.is_on() {
            self.visible = false;
            return None;
        }
        let w: i32 = self.width;
        let outer_w: i32 = target.w + 2 * w;
        let outer_h: i32 = target.h + 2 * w;
        let bounds = Rect { x: target.x - w, y: target.y - w, w: outer_w, h: outer_h };
        let key = RingKey { outer_w, outer_h, width: w, radius: self.radius };
        let known = match self.cut {
            Some(last) => last == key,
            None => false,
        };
        let ring = if known {
            None
        } else {
            Some(
                Ring {
                    outer: Rounded {
                        left: 0,
                        top: 0,
                        right: outer_w,
                        bottom: outer_h,
                        ellipse: (self.radius + w) * 2,
                    },
                    inner: Rounded {
                        left: w,
                        top: w,
                        right: w + target.w,
                        bottom: w + target.h,
                        ellipse: self.radius * 2,
                    },
                },
            )
        };
        let appears = !self.visible;
        self.visible = true;
        self.cut = Some(key);
        Some(Placement { bounds, ring, appears })
    }

    /// Hide the frame. Whether it was shown.
    pub fn hide_frame(&mut self) -> (disappears: bool)
        ensures
            disappears == old(self).visible,
            *final(self) == (FocusBorder { visible: false, ..*old(self) }),
    {
        let shown = self.visible;
        self.visible = false;
        shown
    }
}

fn countable(n: i64) -> (ok: bool)
    ensures
        ok == rect::fits(n as int),
{
    i32::MIN as i64 <= n && n <= i32::MAX as i64
}

/// The ring has the same thickness on all four sides, leaves exactly the window
/// open, and its corners have the same centres.
pub proof fn law_ring_is_even(target: Rect, width: int, radius: int)
    requires
        width >= 1,
        radius >= 0,
        frame_fits(target, width, radius),
    ensures
        ({
            let ring = ring_of(target, width, radius);
            let bounds = around(target, width);
            &&& ring.inner.left - ring.outer.left == width
            &&& ring.inner.top - ring.outer.top == width
            &&& ring.outer.right - ring.inner.right == width
            &&& ring.outer.bottom - ring.inner.bottom == width
            &&& bounds.x + ring.inner.left == target.x
            &&& bounds.y + ring.inner.top == target.y
            &&& ring.inner.right - ring.inner.left == target.w
            &&& ring.inner.bottom - ring.inner.top == target.h
            &&& ring.outer.ellipse == ring.inner.ellipse + 2 * width
        }),
{
}

/// A frame that moves between windows of the same size is not cut again: the
/// last ring is the right one.
pub proof fn law_same_size_keeps_the_ring(a: Rect, b: Rect, width: int, radius: int)
    requires
        width >= 1,
        radius >= 0,
        frame_fits(a, width, radius),
        frame_fits(b, width, radius),
    ensures
        a.w == b.w && a.h == b.h ==> key_of(a, width, radius) == key_of(b, width, radius),
        key_of(a, width, radius) == key_of(b, width, radius) ==> ring_of(a, width, radius)
            == ring_of(b, width, radius),
{
}

/// The frame is never thinner than nothing, nor its corners sharper, and what is not
/// negative is kept.
pub proof fn law_width_is_never_negative(n: i32)
    ensures
        at_least(n, 0) >= 0,
        n >= 0 ==> at_least(n, 0) == n,
        n < 0 ==> at_least(n, 0) == 0,
{
}

} // verus!
