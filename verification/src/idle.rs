//! The idle-repaint rule: whether a presented frame owes the world a fresh render or may
//! present the last converged frame again.
//!
//! The frame token the rule compares holds the camera as floating-point numbers, so the
//! caller keeps the token and answers one question of it: is it the token last recorded?
//! The rule keeps the sun's tick and the repaint cadence.

use vstd::prelude::*;

verus! {

/// The cadence a live field caps an idle run at: with the sea or the wind moving, at most
/// every second presented frame may be a repaint.
pub const LIVE_ANIM_EVERY: u32 = 2;

#[derive(Clone, Copy, Debug, PartialEq, Eq)]
pub enum FrameKind {
    /// Encode every pass: the presented image is new work.
    Render,
    /// Present the last converged frame again.
    Repaint,
}

/// The idle-repaint driver: the sun tick of the last recorded token, if one is recorded,
/// and how many repaints followed the last render.
#[derive(Clone, Copy, Debug)]
pub struct IdleRepaint {
    pub last_sun: Option<u32>,
    pub repaints: u32,
}

impl IdleRepaint {
    /// What a frame owes, and the driver after it, for a frame whose token is or is not
    /// the one last recorded (`same_frame`), with the authored fields live or not, in sun
    /// tick `sun`.
    pub open spec fn classified(self, same_frame: bool, animated: bool, sun: u32) -> (
        IdleRepaint,
        FrameKind,
    ) {
        let stale = match self.last_sun {
            None => true,
            Some(t) => !same_frame || t != sun,
        };
        if stale {
            (IdleRepaint { last_sun: Some(sun), repaints: 0 }, FrameKind::Render)
        } else if animated && self.repaints + 1 >= LIVE_ANIM_EVERY {
            (IdleRepaint { last_sun: self.last_sun, repaints: 0 }, FrameKind::Render)
        } else {
            (IdleRepaint { last_sun: self.last_sun, repaints: (self.repaints + 1) as u32 }, FrameKind::Repaint)
        }
    }

    pub fn new() -> (r: IdleRepaint)
        ensures
            r.last_sun is None,
            r.repaints == 0,
    {
        IdleRepaint { last_sun: None, repaints: 0 }
    }

    /// Forget the recorded token, so the next frame renders.
    pub fn invalidate(&mut self)
        ensures
            final(self).last_sun is None,
            final(self).repaints == 0,
    {
        self.last_sun = None;
        self.repaints = 0;
    }

    /// What this frame owes. A token the last render did not see, or a new sun tick,
    /// forces a render and is recorded; with the authored fields live a render comes at
    /// least every [`LIVE_ANIM_EVERY`] frames; otherwise the frame repaints.
    pub fn classify(&mut self, same_frame: bool, animated: bool, sun: u32) -> (k: FrameKind)
        requires
            old(self).last_sun == Some(sun) && same_frame ==> old(self).repaints < u32::MAX,
        ensures
            (*final(self), k) == old(self).classified(same_frame, animated, sun),
    {
        let stale = match self.last_sun {
            None => true,
            Some(t) => !same_frame || t != sun,
        };
        if stale {
            self.last_sun = Some(sun);
            self.repaints = 0;
            return FrameKind::Render;
        }
        if animated && self.repaints + 1 >= LIVE_ANIM_EVERY {
            self.repaints = 0;
            return FrameKind::Render;
        }
        self.repaints += 1;
        FrameKind::Repaint
    }
}

/// A frame with no recorded token, a changed token or a new sun tick renders, and records
/// the tick.
pub proof fn law_change_renders(d: IdleRepaint, same_frame: bool, animated: bool, sun: u32)
    requires
        d.last_sun is None || !same_frame || d.last_sun != Some(sun),
    ensures
        d.classified(same_frame, animated, sun).1 == FrameKind::Render,
        d.classified(same_frame, animated, sun).0.last_sun == Some(sun),
{
}

/// With the authored fields live, no two frames in a row repaint.
pub proof fn law_live_never_repaints_twice(
    d: IdleRepaint,
    s1: bool,
    t1: u32,
    s2: bool,
    t2: u32,
)
    requires
        d.classified(s1, true, t1).1 == FrameKind::Repaint,
    ensures
        d.classified(s1, true, t1).0.classified(s2, true, t2).1 == FrameKind::Render,
{
}

/// A still world with the authored fields frozen repaints, frame after frame, until its
/// token or the sun changes.
pub proof fn law_still_frozen_world_repaints(d: IdleRepaint, sun: u32)
    requires
        d.last_sun == Some(sun),
    ensures
        d.classified(true, false, sun).1 == FrameKind::Repaint,
        d.classified(true, false, sun).0.last_sun == Some(sun),
{
}

/// Whatever a frame in sun tick `sun` was classified as, the next frame with the same token,
/// the authored fields frozen and the same tick repaints.
pub proof fn law_same_frame_after_any_repaints(
    d: IdleRepaint,
    same_frame: bool,
    animated: bool,
    sun: u32,
)
    ensures
        d.classified(same_frame, animated, sun).0.classified(true, false, sun).1 == FrameKind::Repaint,
{
}

} // verus!
