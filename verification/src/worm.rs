//! The worm: a chain of joints grown head-ward, a roam target, and the
//! follow-the-leader relaxation that drags the chain behind the head.
//!
//! Relaxation is a single head-to-tail pass of the follow rule: a child
//! farther from its (already relaxed) parent than the parent's control
//! radius is pulled straight toward the parent onto that radius, and is
//! otherwise left alone. Roaming picks bounded random targets, clamps them
//! to the viewport, and advances the head a fixed distance per frame.
use vstd::prelude::*;

use crate::point::{
    abs_m, add_m, dist_sq, dot_m, fits, lemma_scale_dist, lemma_scale_within, lemma_sq_nonneg,
    lemma_sqrt_floor_bounds, lemma_sqrt_le, lemma_div_ordered, lemma_mul_bounds,
    lemma_mul_div_cancel, scale_m, sqrt_floor, sub_m, Point,
};
use crate::{COORD_MAX, RADIUS_MAX, ROAM_RADIUS, SPEED};

verus! {

/// An RGBA color; render-only data carried by the worm.
#[derive(Clone, Copy, PartialEq, Eq, Structural, Debug)]
pub struct Color {
    pub r: u8,
    pub g: u8,
    pub b: u8,
    pub a: u8,
}

/// One bone of the chain: a position, the leash length to its parent, and
/// the body radius used for rendering thickness.
#[derive(Clone, Copy, PartialEq, Eq, Structural, Debug)]
pub struct Joint {
    pub pos: Point,
    pub control_radius: i64,
    pub body_radius: i64,
}

/// An independently animated creature: a color, a head-first chain of
/// joints, and the roam target, if one is live.
pub struct Worm {
    pub color: Color,
    pub joints: Vec<Joint>,
    pub target: Option<Point>,
}

/// Structural bounds on one joint: position in range, radii in `[0, RADIUS_MAX]`.
pub open spec fn joint_ok(j: Joint) -> bool {
    &&& fits(j.pos@, COORD_MAX as int)
    &&& 0 <= j.control_radius <= RADIUS_MAX
    &&& 0 <= j.body_radius <= RADIUS_MAX
}

/// The follow rule: leave `b` alone if it is within `r` of `a`, else pull
/// it onto the segment from `a` to `b`, `r` units out from `a`.
pub open spec fn follow_m(a: (int, int), b: (int, int), r: int) -> (int, int) {
    let v = sub_m(b, a);
    if dot_m(v, v) <= r * r {
        b
    } else {
        add_m(a, scale_m(v, r))
    }
}

/// Position of joint `i` after one relaxation pass that put the head at `p`:
/// joint 0 sits at `p`, and each later joint follows its relaxed parent.
pub open spec fn relaxed_pos(s: Seq<Joint>, p: (int, int), i: int) -> (int, int)
    decreases i,
{
    if i <= 0 {
        p
    } else {
        follow_m(relaxed_pos(s, p, i - 1), s[i].pos@, s[i - 1].control_radius as int)
    }
}

/// One roam step: snap to `t` when closer than `SPEED`, else advance
/// `SPEED` units straight toward `t`.
pub open spec fn move_toward_m(p: (int, int), t: (int, int)) -> (int, int) {
    let v = sub_m(t, p);
    if dot_m(v, v) < (SPEED as int) * (SPEED as int) {
        t
    } else {
        add_m(p, scale_m(v, SPEED as int))
    }
}

/// `p` clamped componentwise into `[0, w] x [0, h]`.
pub open spec fn clamp_m(p: (int, int), w: int, h: int) -> (int, int) {
    (
        if p.0 < 0 {
            0
        } else if p.0 > w {
            w
        } else {
            p.0
        },
        if p.1 < 0 {
            0
        } else if p.1 > h {
            h
        } else {
            p.1
        },
    )
}

/// Within the viewport `[0, w] x [0, h]`.
pub open spec fn in_view(p: (int, int), w: int, h: int) -> bool {
    &&& 0 <= p.0 <= w
    &&& 0 <= p.1 <= h
}

/// The roam offset derived from two uniform scalars: a point of the square
/// `[-ROAM_RADIUS, ROAM_RADIUS]^2`, pulled back onto the disc of radius
/// `ROAM_RADIUS` when it falls outside it.
pub open spec fn pick_off_m(u1: int, u2: int) -> (int, int) {
    let span = 2 * (ROAM_RADIUS as int) + 1;
    let dx = u1 % span - (ROAM_RADIUS as int);
    let dy = u2 % span - (ROAM_RADIUS as int);
    if dx * dx + dy * dy <= (ROAM_RADIUS as int) * (ROAM_RADIUS as int) {
        (dx, dy)
    } else {
        scale_m((dx, dy), ROAM_RADIUS as int)
    }
}

/// The target sampled from head position and two uniform scalars, clamped
/// to the current viewport.
pub open spec fn target_m(head: (int, int), u1: int, u2: int, w: int, h: int) -> (int, int) {
    clamp_m(add_m(head, pick_off_m(u1, u2)), w, h)
}

/// The head position after `n` roam steps toward a fixed target `t`.
pub open spec fn iterate_move(p: (int, int), t: (int, int), n: nat) -> (int, int)
    decreases n,
{
    if n == 0 {
        p
    } else {
        iterate_move(move_toward_m(p, t), t, (n - 1) as nat)
    }
}

/// A child already within its parent's control radius is not moved by the
/// relaxation step: the follow rule never pulls closer.
pub proof fn lemma_follow_no_pull(a: (int, int), b: (int, int), r: int)
    ensures
        dist_sq(a, b) <= r * r ==> follow_m(a, b, r) == b,
{
}

/// After the follow rule, the child is within `r + 1` of the parent: its
/// squared distance is at most `(r + 1)^2`. The one extra unit absorbs the
/// rounding of the integer rescale.
pub proof fn lemma_follow_leash(a: (int, int), b: (int, int), r: int)
    requires
        0 <= r,
    ensures
        dist_sq(a, follow_m(a, b, r)) <= (r + 1) * (r + 1),
{
    let v = sub_m(b, a);
    let d = dot_m(v, v);
    if d <= r * r {
        assert(r * r <= (r + 1) * (r + 1)) by (nonlinear_arith)
            requires
                r >= 0,
        ;
    } else {
        lemma_sq_nonneg(v.0);
        lemma_sq_nonneg(v.1);
        lemma_sqrt_le(d, r);
        lemma_scale_dist(v, r);
        let m = scale_m(v, r);
        assert(sub_m(add_m(a, m), a) == m);
    }
}

/// The follow rule moves the child along the segment toward the parent:
/// the result lies between the old child and the parent, componentwise.
pub proof fn lemma_follow_between(a: (int, int), b: (int, int), r: int)
    requires
        0 <= r,
    ensures
        a.0 <= b.0 ==> a.0 <= follow_m(a, b, r).0 <= b.0,
        b.0 <= a.0 ==> b.0 <= follow_m(a, b, r).0 <= a.0,
        a.1 <= b.1 ==> a.1 <= follow_m(a, b, r).1 <= b.1,
        b.1 <= a.1 ==> b.1 <= follow_m(a, b, r).1 <= a.1,
{
    let v = sub_m(b, a);
    let d = dot_m(v, v);
    if d <= r * r {
    } else {
        lemma_sq_nonneg(v.0);
        lemma_sq_nonneg(v.1);
        lemma_sqrt_le(d, r);
        lemma_scale_within(v, r);
    }
}

/// The executable follow rule.
pub fn follow(a: Point, b: Point, cr: i64) -> (r: Point)
    requires
        fits(a@, COORD_MAX as int),
        fits(b@, COORD_MAX as int),
        0 <= cr <= RADIUS_MAX,
    ensures
        r@ == follow_m(a@, b@, cr as int),
        dist_sq(a@, b@) <= (cr as int) * (cr as int) ==> r == b,
        dist_sq(a@, r@) <= (cr as int + 1) * (cr as int + 1),
        a.x <= b.x ==> a.x <= r.x <= b.x,
        b.x <= a.x ==> b.x <= r.x <= a.x,
        a.y <= b.y ==> a.y <= r.y <= b.y,
        b.y <= a.y ==> b.y <= r.y <= a.y,
{
    proof {
        lemma_follow_leash(a@, b@, cr as int);
        lemma_follow_between(a@, b@, cr as int);
        lemma_mul_bounds(cr as int, cr as int, RADIUS_MAX as int, RADIUS_MAX as int);
    }
    let v = b.sub(a);
    let d = v.dot(v);
    if d <= cr * cr {
        b
    } else {
        a.add(v.scale_toward(cr))
    }
}

/// The executable roam step toward a fixed target.
pub fn move_toward(p: Point, t: Point) -> (r: Point)
    requires
        fits(p@, COORD_MAX as int),
        fits(t@, COORD_MAX as int),
    ensures
        r@ == move_toward_m(p@, t@),
        dist_sq(p@, t@) < (SPEED as int) * (SPEED as int) ==> r == t,
        p.x <= t.x ==> p.x <= r.x <= t.x,
        t.x <= p.x ==> t.x <= r.x <= p.x,
        p.y <= t.y ==> p.y <= r.y <= t.y,
        t.y <= p.y ==> t.y <= r.y <= p.y,
{
    let v = t.sub(p);
    let d = v.dot(v);
    if d < SPEED * SPEED {
        t
    } else {
        proof {
            lemma_sq_nonneg(v@.0);
            lemma_sq_nonneg(v@.1);
            lemma_sqrt_le(d as int, SPEED as int);
            lemma_scale_within(v@, SPEED as int);
        }
        p.add(v.scale_toward(SPEED))
    }
}

/// Relies on `rand::random`: draws an arbitrary `u64` from the
/// thread-local generator. Nothing is promised of the value.
#[verifier::external_body]
fn random_u64() -> u64 {
    rand::random::<u64>()
}

impl Worm {
    /// Every joint within structural bounds, and the live target, if any,
    /// inside the coordinate range.
    pub open spec fn wf(&self) -> bool {
        &&& forall|i: int| 0 <= i < self.joints@.len() ==> joint_ok(#[trigger] self.joints@[i])
        &&& match self.target {
            Some(t) => 0 <= t.x <= COORD_MAX && 0 <= t.y <= COORD_MAX,
            None => true,
        }
    }

    pub open spec fn joints_view(&self) -> Seq<Joint> {
        self.joints@
    }

    pub open spec fn target_view(&self) -> Option<Point> {
        self.target
    }

    /// A fresh worm: no joints, no target, the default magenta color.
    pub fn new() -> (w: Worm)
        ensures
            w.wf(),
            w.joints_view().len() == 0,
            w.target_view() == None::<Point>,
            w.color == (Color { r: 255, g: 0, b: 255, a: 255 }),
    {
        Worm { color: Color { r: 255, g: 0, b: 255, a: 255 }, joints: Vec::new(), target: None }
    }

    /// The number of joints in the chain.
    pub fn len(&self) -> (n: usize)
        ensures
            n == self.joints_view().len(),
    {
        self.joints.len()
    }

    /// The live roam target, if any.
    pub fn current_target(&self) -> (t: Option<Point>)
        ensures
            t == self.target_view(),
    {
        self.target
    }

    /// The joints' positions and body radii, for diagnostic circle
    /// rendering: entry `i` is joint `i`'s position and body radius.
    pub fn debug_joints(&self) -> (out: Vec<(Point, i64)>)
        ensures
            out@.len() == self.joints_view().len(),
            forall|i: int|
                0 <= i < out@.len() ==> (#[trigger] out@[i]).0 == self.joints_view()[i].pos
                    && out@[i].1 == self.joints_view()[i].body_radius,
    {
        let mut out: Vec<(Point, i64)> = Vec::new();
        let mut i: usize = 0;
        while i < self.joints.len()
            invariant
                i <= self.joints@.len(),
                out@.len() == i,
                forall|k: int|
                    0 <= k < i ==> (#[trigger] out@[k]).0 == self.joints@[k].pos && out@[k].1
                        == self.joints@[k].body_radius,
            decreases self.joints@.len() - i,
        {
            let j = self.joints[i];
            out.push((j.pos, j.body_radius));
            i = i + 1;
        }
        out
    }

    /// Prepend a new head joint at the current head's position (at the
    /// origin for an empty chain); the old head becomes its child. The
    /// radii are structural invariants: a negative one is a caller
    /// contract violation and is excluded by precondition.
    pub fn grow(&mut self, cr: i64, r: i64)
        requires
            old(self).wf(),
            0 <= cr <= RADIUS_MAX,
            0 <= r <= RADIUS_MAX,
        ensures
            final(self).wf(),
            final(self).color == old(self).color,
            final(self).target_view() == old(self).target_view(),
            final(self).joints_view().len() == old(self).joints_view().len() + 1,
            final(self).joints_view()[0].control_radius == cr,
            final(self).joints_view()[0].body_radius == r,
            final(self).joints_view()[0].pos@ == if old(self).joints_view().len() == 0 {
                (0int, 0int)
            } else {
                old(self).joints_view()[0].pos@
            },
            forall|i: int|
                1 <= i < final(self).joints_view().len() ==> #[trigger] final(self).joints_view()[i]
                    == old(self).joints_view()[i - 1],
    {
        let pos = if self.joints.len() == 0 {
            Point::zero()
        } else {
            self.joints[0].pos
        };
        self.joints.insert(0, Joint { pos, control_radius: cr, body_radius: r });
    }

    /// Relax the chain in place: the head takes `p`, then each child in
    /// turn follows its already-relaxed parent under the follow rule, in
    /// one head-to-tail pass. Afterwards every adjacent pair sits within
    /// the parent's control radius plus one rounding unit, whatever the
    /// sequence of head inputs.
    pub fn update(&mut self, p: Point)
        requires
            old(self).wf(),
            fits(p@, COORD_MAX as int),
        ensures
            final(self).wf(),
            final(self).color == old(self).color,
            final(self).target_view() == old(self).target_view(),
            final(self).joints_view().len() == old(self).joints_view().len(),
            forall|i: int|
                0 <= i < final(self).joints_view().len() ==> (#[trigger] final(self).joints_view()[i]).control_radius
                    == old(self).joints_view()[i].control_radius && final(self).joints_view()[i].body_radius
                    == old(self).joints_view()[i].body_radius,
            forall|i: int|
                0 <= i < final(self).joints_view().len() ==> (#[trigger] final(self).joints_view()[i]).pos@
                    == relaxed_pos(old(self).joints_view(), p@, i),
            forall|i: int|
                0 <= i < final(self).joints_view().len() - 1 ==> dist_sq(
                    (#[trigger] final(self).joints_view()[i]).pos@,
                    final(self).joints_view()[i + 1].pos@,
                ) <= (final(self).joints_view()[i].control_radius + 1) * (
                final(self).joints_view()[i].control_radius + 1),
    {
        let ghost orig = self.joints@;
        let n = self.joints.len();
        if n == 0 {
            return ;
        }
        let j0 = self.joints[0];
        let mut out: Vec<Joint> = Vec::new();
        out.push(Joint { pos: p, control_radius: j0.control_radius, body_radius: j0.body_radius });
        let mut i: usize = 1;
        while i < n
            invariant
                n == orig.len(),
                self.joints@ == orig,
                self.color == old(self).color,
                self.target == old(self).target,
                fits(p@, COORD_MAX as int),
                forall|k: int| 0 <= k < n ==> joint_ok(#[trigger] orig[k]),
                1 <= i <= n,
                out@.len() == i,
                forall|k: int|
                    0 <= k < i ==> (#[trigger] out@[k]).control_radius == orig[k].control_radius
                        && out@[k].body_radius == orig[k].body_radius && out@[k].pos@
                        == relaxed_pos(orig, p@, k) && joint_ok(out@[k]),
                forall|k: int|
                    0 <= k < i - 1 ==> dist_sq((#[trigger] out@[k]).pos@, out@[k + 1].pos@) <= (
                    out@[k].control_radius + 1) * (out@[k].control_radius + 1),
            decreases n - i,
        {
            let prev = out[i - 1];
            let cur = self.joints[i];
            let np = follow(prev.pos, cur.pos, prev.control_radius);
            out.push(Joint { pos: np, control_radius: cur.control_radius, body_radius: cur.body_radius });
            i = i + 1;
        }
        self.joints = out;
    }

    /// Sample the roam target determined by the two uniform scalars `u1`,
    /// `u2`: an offset within the roam disc is added to the head and the
    /// result clamped to the viewport.
    pub fn find_target(&mut self, u1: u64, u2: u64, w: i64, h: i64)
        requires
            old(self).wf(),
            old(self).joints_view().len() >= 1,
            0 <= w <= COORD_MAX,
            0 <= h <= COORD_MAX,
        ensures
            final(self).wf(),
            final(self).color == old(self).color,
            final(self).joints_view() == old(self).joints_view(),
            match final(self).target_view() {
                Some(t) => {
                    &&& t@ == target_m(
                        old(self).joints_view()[0].pos@,
                        u1 as int,
                        u2 as int,
                        w as int,
                        h as int,
                    )
                    &&& in_view(t@, w as int, h as int)
                },
                None => false,
            },
    {
        let head = self.joints[0].pos;
        let span: u64 = (2 * ROAM_RADIUS + 1) as u64;
        let dx = (u1 % span) as i64 - ROAM_RADIUS;
        let dy = (u2 % span) as i64 - ROAM_RADIUS;
        let off = Point { x: dx, y: dy };
        let d = off.dot(off);
        let within = d <= ROAM_RADIUS * ROAM_RADIUS;
        let off = if within {
            off
        } else {
            off.scale_toward(ROAM_RADIUS)
        };
        let t = head.add(off);
        let tx = if t.x < 0 {
            0
        } else if t.x > w {
            w
        } else {
            t.x
        };
        let ty = if t.y < 0 {
            0
        } else if t.y > h {
            h
        } else {
            t.y
        };
        self.target = Some(Point { x: tx, y: ty });
    }

    /// Sample a fresh random roam target: two uniform scalars are drawn
    /// and handed to `find_target`.
    pub fn find_target_random(&mut self, w: i64, h: i64)
        requires
            old(self).wf(),
            old(self).joints_view().len() >= 1,
            0 <= w <= COORD_MAX,
            0 <= h <= COORD_MAX,
        ensures
            final(self).wf(),
            final(self).color == old(self).color,
            final(self).joints_view() == old(self).joints_view(),
            match final(self).target_view() {
                Some(t) => {
                    &&& in_view(t@, w as int, h as int)
                    &&& exists|u1: int, u2: int|
                        t@ == #[trigger] target_m(
                            old(self).joints_view()[0].pos@,
                            u1,
                            u2,
                            w as int,
                            h as int,
                        )
                },
                None => false,
            },
    {
        let u1 = random_u64();
        let u2 = random_u64();
        self.find_target(u1, u2, w, h);
        proof {
            let head = old(self).joints_view()[0].pos@;
            let t = self.target_view().unwrap();
            assert(t@ == target_m(head, u1 as int, u2 as int, w as int, h as int));
        }
    }

    /// One frame of roaming: make sure a live target exists (drawing a
    /// fresh one when there is none or the head sits on it), then return
    /// the next head position, one roam step toward the target. The chain
    /// itself is not touched.
    pub fn roam(&mut self, w: i64, h: i64) -> (r: Point)
        requires
            old(self).wf(),
            old(self).joints_view().len() >= 1,
            0 <= w <= COORD_MAX,
            0 <= h <= COORD_MAX,
        ensures
            final(self).wf(),
            final(self).color == old(self).color,
            final(self).joints_view() == old(self).joints_view(),
            match final(self).target_view() {
                Some(t) => {
                    &&& r@ == move_toward_m(old(self).joints_view()[0].pos@, t@)
                    &&& fits(r@, COORD_MAX as int)
                    &&& (dist_sq(old(self).joints_view()[0].pos@, t@) < (SPEED as int) * (
                    SPEED as int) ==> r == t)
                    &&& (match old(self).target_view() {
                        Some(t0) => t0@ != old(self).joints_view()[0].pos@ ==> t == t0,
                        None => true,
                    })
                    &&& ((old(self).target_view() is None || (old(self).target_view()
                        matches Some(t0) && t0@ == old(self).joints_view()[0].pos@)) ==> in_view(
                        t@,
                        w as int,
                        h as int,
                    ))
                },
                None => false,
            },
    {
        let head = self.joints[0].pos;
        let need_new = match &self.target {
            None => true,
            Some(t) => t.x == head.x && t.y == head.y,
        };
        if need_new {
            self.find_target_random(w, h);
        }
        let t = match &self.target {
            Some(t) => *t,
            None => {
                proof {
                    assert(false);
                }
                head
            },
        };
        move_toward(head, t)
    }
}

/// One roam step toward a distinct target makes strict progress: either it
/// snaps onto the target, or it strictly decreases the squared distance.
pub proof fn lemma_move_progress(p: (int, int), t: (int, int))
    requires
        fits(p, COORD_MAX as int),
        fits(t, COORD_MAX as int),
        p != t,
    ensures
        move_toward_m(p, t) == t || dist_sq(move_toward_m(p, t), t) < dist_sq(p, t),
        fits(move_toward_m(p, t), COORD_MAX as int),
{
    let v = sub_m(t, p);
    let d = dot_m(v, v);
    let vel = SPEED as int;
    lemma_sq_nonneg(v.0);
    lemma_sq_nonneg(v.1);
    if d < vel * vel {
    } else {
        lemma_sqrt_floor_bounds(d);
        let s = sqrt_floor(d);
        lemma_sqrt_le(d, vel);
        lemma_scale_within(v, vel);
        let m = scale_m(v, vel);
        let q = add_m(p, m);
        // componentwise: moving toward the target keeps q between p and t
        assert(fits(q, COORD_MAX as int));
        let w2 = sub_m(t, q);
        assert(w2 == (v.0 - m.0, v.1 - m.1));
        // (v_i - m_i)^2 <= v_i^2 - v_i * m_i, and v_i * m_i >= 0
        assert((v.0 - m.0) * (v.0 - m.0) <= v.0 * v.0 - v.0 * m.0 && v.0 * m.0 >= 0)
            by (nonlinear_arith)
            requires
                (0 <= m.0 <= v.0) || (v.0 <= m.0 <= 0),
        ;
        assert((v.1 - m.1) * (v.1 - m.1) <= v.1 * v.1 - v.1 * m.1 && v.1 * m.1 >= 0)
            by (nonlinear_arith)
            requires
                (0 <= m.1 <= v.1) || (v.1 <= m.1 <= 0),
        ;
        // the dominant component moves by at least one unit
        let a0 = abs_m(v.0);
        let a1 = abs_m(v.1);
        assert(a0 * a0 == v.0 * v.0 && a1 * a1 == v.1 * v.1) by (nonlinear_arith)
            requires
                (a0 == v.0 || a0 == -v.0) && (a1 == v.1 || a1 == -v.1),
        ;
        let big = if a0 >= a1 {
            a0
        } else {
            a1
        };
        assert(2 * (big * big) >= d) by (nonlinear_arith)
            requires
                d == a0 * a0 + a1 * a1,
                (big == a0 && a1 <= a0) || (big == a1 && a0 <= a1),
                0 <= a0,
                0 <= a1,
        ;
        assert(2 * big >= s) by (nonlinear_arith)
            requires
                2 * (big * big) >= s * s,
                0 <= big,
                0 <= s,
        ;
        assert(big * vel >= s) by (nonlinear_arith)
            requires
                2 * big >= s,
                vel >= 2,
                big >= 0,
        ;
        lemma_div_ordered(s, big * vel, s);
        lemma_mul_div_cancel(1, s);
        assert((big * vel) / s >= 1);
        // hence that component's contribution v_i * m_i is at least one
        let mb = (big * vel) / s;
        if a0 >= a1 {
            assert(v.0 * m.0 == a0 * mb) by (nonlinear_arith)
                requires
                    (v.0 >= 0 && m.0 == (v.0 * vel) / s && a0 == v.0 && mb == (a0 * vel) / s) || (
                    v.0 < 0 && m.0 == -(((-v.0) * vel) / s) && a0 == -v.0 && mb == (a0 * vel) / s),
            ;
            assert(a0 * mb >= 1) by (nonlinear_arith)
                requires
                    a0 >= 1,
                    mb >= 1,
            ;
        } else {
            assert(v.1 * m.1 == a1 * mb) by (nonlinear_arith)
                requires
                    (v.1 >= 0 && m.1 == (v.1 * vel) / s && a1 == v.1 && mb == (a1 * vel) / s) || (
                    v.1 < 0 && m.1 == -(((-v.1) * vel) / s) && a1 == -v.1 && mb == (a1 * vel) / s),
            ;
            assert(a1 * mb >= 1) by (nonlinear_arith)
                requires
                    a1 >= 1,
                    mb >= 1,
            ;
        }
        assert(dot_m(w2, w2) < d);
        assert(dist_sq(q, t) == dot_m(w2, w2));
    }
}

/// Feeding each roam step's result back as the head eventually reaches the
/// target exactly: some number of steps lands on it.
pub proof fn lemma_roam_reaches(p: (int, int), t: (int, int))
    requires
        fits(p, COORD_MAX as int),
        fits(t, COORD_MAX as int),
    ensures
        exists|n: nat| iterate_move(p, t, n) == t,
    decreases dist_sq(p, t),
{
    lemma_sq_nonneg(t.0 - p.0);
    lemma_sq_nonneg(t.1 - p.1);
    if p == t {
        assert(iterate_move(p, t, 0) == t);
    } else {
        lemma_move_progress(p, t);
        let m = move_toward_m(p, t);
        if m == t {
            assert(iterate_move(m, t, 0) == m);
            assert(iterate_move(p, t, 1) == iterate_move(m, t, 0));
        } else {
            lemma_sq_nonneg(t.0 - m.0);
            lemma_sq_nonneg(t.1 - m.1);
            lemma_roam_reaches(m, t);
            let n = choose|n: nat| iterate_move(m, t, n) == t;
            assert(iterate_move(p, t, n + 1) == iterate_move(m, t, n));
        }
    }
}

} // verus!
