//! Outline and mesh generation over a relaxed chain.
//!
//! Both output modes share the same cap and joint mitering geometry. A cap
//! at an end joint traces a semicircle of its body radius in six samples
//! (steps of 36 degrees, from a fixed-point rotation table). An interior
//! joint gets a beveled convex corner (incoming-edge offset, bisector
//! offset, outgoing-edge offset) and a single pinched concave corner, the
//! side chosen by the sign of `dot(ab, n)` against the bisector normal.
use vstd::prelude::*;

use crate::point::{add_m, dot_m, neg_m, perp_m, rot_m, scale_m, sub_m, Point};
use crate::worm::{joint_ok, Joint, Worm};
use crate::{FIX_ONE, RADIUS_MAX};

verus! {

/// A filled triangle of the body mesh.
#[derive(Clone, Copy, PartialEq, Eq, Structural, Debug)]
pub struct Triangle {
    pub a: Point,
    pub b: Point,
    pub c: Point,
}

impl View for Triangle {
    type V = ((int, int), (int, int), (int, int));

    open spec fn view(&self) -> ((int, int), (int, int), (int, int)) {
        (self.a@, self.b@, self.c@)
    }
}

/// Cosine and sine of `i * 36` degrees, scaled by `FIX_ONE`.
pub open spec fn cap_dir_m(i: int) -> (int, int) {
    if i == 0 {
        (65536, 0)
    } else if i == 1 {
        (53024, 38521)
    } else if i == 2 {
        (20252, 62328)
    } else if i == 3 {
        (-20252, 62328)
    } else if i == 4 {
        (-53024, 38521)
    } else {
        (-65536, 0)
    }
}

fn cap_dir(i: usize) -> (r: (i64, i64))
    requires
        i <= 5,
    ensures
        r.0 as int == cap_dir_m(i as int).0,
        r.1 as int == cap_dir_m(i as int).1,
        -FIX_ONE <= r.0 <= FIX_ONE,
        -FIX_ONE <= r.1 <= FIX_ONE,
{
    match i {
        0 => (65536, 0),
        1 => (53024, 38521),
        2 => (20252, 62328),
        3 => (-20252, 62328),
        4 => (-53024, 38521),
        _ => (-65536, 0),
    }
}

/// The cap normal at end joint `ex` with neighbor `p`: the perpendicular
/// of `ex - p`, rescaled to the body radius and flipped outward.
pub open spec fn cap_n_m(ex: Joint, p: Joint) -> (int, int) {
    neg_m(scale_m(perp_m(sub_m(ex.pos@, p.pos@)), ex.body_radius as int))
}

/// Sample `i` of the semicircular cap at `ex`.
pub open spec fn cap_pt_m(ex: Joint, p: Joint, i: int) -> (int, int) {
    add_m(ex.pos@, rot_m(cap_n_m(ex, p), cap_dir_m(i).0, cap_dir_m(i).1))
}

/// Fan triangle `i` (of 5) of the cap at `ex`.
pub open spec fn cap_tri_m(ex: Joint, p: Joint, i: int) -> ((int, int), (int, int), (int, int)) {
    (ex.pos@, cap_pt_m(ex, p, i + 1), cap_pt_m(ex, p, i))
}

/// The bisector normal at interior joint `b`: the perpendicular of
/// `ab + bc`, rescaled to `b`'s body radius.
pub open spec fn bone_n_m(a: Joint, b: Joint, c: Joint) -> (int, int) {
    scale_m(
        perp_m(add_m(sub_m(b.pos@, a.pos@), sub_m(c.pos@, b.pos@))),
        b.body_radius as int,
    )
}

/// Which side the path turns at `b`: true when the bisector normal lies on
/// the incoming direction's side.
pub open spec fn bone_convex_m(a: Joint, b: Joint, c: Joint) -> bool {
    dot_m(sub_m(b.pos@, a.pos@), bone_n_m(a, b, c)) >= 0
}

/// Bisector offset point on the normal's side.
pub open spec fn bone_sl_m(a: Joint, b: Joint, c: Joint) -> (int, int) {
    add_m(b.pos@, bone_n_m(a, b, c))
}

/// Bisector offset point opposite the normal.
pub open spec fn bone_sr_m(a: Joint, b: Joint, c: Joint) -> (int, int) {
    sub_m(b.pos@, bone_n_m(a, b, c))
}

/// Incoming-edge offset point at `b`, on the convex side.
pub open spec fn bone_sa_m(a: Joint, b: Joint, c: Joint) -> (int, int) {
    let e = scale_m(perp_m(sub_m(b.pos@, a.pos@)), b.body_radius as int);
    if bone_convex_m(a, b, c) {
        add_m(b.pos@, e)
    } else {
        add_m(b.pos@, neg_m(e))
    }
}

/// Outgoing-edge offset point at `b`, on the convex side.
pub open spec fn bone_sc_m(a: Joint, b: Joint, c: Joint) -> (int, int) {
    let e = scale_m(perp_m(sub_m(c.pos@, b.pos@)), b.body_radius as int);
    if bone_convex_m(a, b, c) {
        add_m(b.pos@, e)
    } else {
        add_m(b.pos@, neg_m(e))
    }
}

/// Corner triangle `j` (of 2) bridging the bevel at `b`.
pub open spec fn bone_tri_m(a: Joint, b: Joint, c: Joint, j: int) -> (
    (int, int),
    (int, int),
    (int, int),
) {
    if j == 0 {
        (bone_sl_m(a, b, c), bone_sr_m(a, b, c), bone_sa_m(a, b, c))
    } else {
        (bone_sr_m(a, b, c), bone_sl_m(a, b, c), bone_sc_m(a, b, c))
    }
}

/// Rail point `j` (of 4) pushed for the side panels at `b`: a pair for the
/// incoming edge and a pair for the outgoing edge, ordered by turn side.
pub open spec fn bone_quad_m(a: Joint, b: Joint, c: Joint, j: int) -> (int, int) {
    if bone_convex_m(a, b, c) {
        if j == 0 {
            bone_sa_m(a, b, c)
        } else if j == 1 {
            bone_sr_m(a, b, c)
        } else if j == 2 {
            bone_sr_m(a, b, c)
        } else {
            bone_sc_m(a, b, c)
        }
    } else {
        if j == 0 {
            bone_sl_m(a, b, c)
        } else if j == 1 {
            bone_sa_m(a, b, c)
        } else if j == 2 {
            bone_sc_m(a, b, c)
        } else {
            bone_sl_m(a, b, c)
        }
    }
}

/// Triangles of the cap at end joint `ex` (neighbor `p`): a fan of five
/// around `ex`, plus the two rail seed points appended to `quad`.
pub fn tri_extrema(ex: &Joint, p: &Joint, tri: &mut Vec<Triangle>, quad: &mut Vec<Point>)
    requires
        joint_ok(*ex),
        joint_ok(*p),
    ensures
        final(tri)@.len() == old(tri)@.len() + 5,
        forall|j: int| 0 <= j < old(tri)@.len() ==> final(tri)@[j] == old(tri)@[j],
        forall|j: int|
            old(tri)@.len() <= j < final(tri)@.len() ==> (#[trigger] final(tri)@[j])@
                == cap_tri_m(*ex, *p, j - old(tri)@.len()),
        final(quad)@.len() == old(quad)@.len() + 2,
        forall|j: int| 0 <= j < old(quad)@.len() ==> final(quad)@[j] == old(quad)@[j],
        final(quad)@[old(quad)@.len() as int]@ == sub_m(ex.pos@, cap_n_m(*ex, *p)),
        final(quad)@[old(quad)@.len() + 1int]@ == add_m(ex.pos@, cap_n_m(*ex, *p)),
{
    let n0 = ex.pos.sub(p.pos).normal();
    let nn = n0.scale_toward(ex.body_radius).neg();
    assert(nn@ == cap_n_m(*ex, *p));
    let ghost t0 = tri@;
    let mut i: usize = 0;
    while i < 5
        invariant
            joint_ok(*ex),
            joint_ok(*p),
            nn@ == cap_n_m(*ex, *p),
            -RADIUS_MAX <= nn.x <= RADIUS_MAX,
            -RADIUS_MAX <= nn.y <= RADIUS_MAX,
            i <= 5,
            tri@.len() == t0.len() + i,
            forall|j: int| 0 <= j < t0.len() ==> tri@[j] == t0[j],
            forall|j: int|
                t0.len() <= j < tri@.len() ==> (#[trigger] tri@[j])@ == cap_tri_m(
                    *ex,
                    *p,
                    j - t0.len(),
                ),
        decreases 5 - i,
    {
        let d1 = cap_dir(i + 1);
        let d0 = cap_dir(i);
        let pa = ex.pos.add(nn.rotate(d1.0, d1.1));
        let pb = ex.pos.add(nn.rotate(d0.0, d0.1));
        tri.push(Triangle { a: ex.pos, b: pa, c: pb });
        i = i + 1;
    }
    quad.push(ex.pos.sub(nn));
    quad.push(ex.pos.add(nn));
}

/// The shared mitering points at interior joint `b` with neighbors `a`
/// (head-ward) and `c` (tail-ward): bisector offsets on both sides, the
/// two edge offsets on the convex side, and the turn side itself.
pub fn joint_offsets(a: &Joint, b: &Joint, c: &Joint) -> (r: (Point, Point, Point, Point, bool))
    requires
        joint_ok(*a),
        joint_ok(*b),
        joint_ok(*c),
    ensures
        r.0@ == bone_sl_m(*a, *b, *c),
        r.1@ == bone_sr_m(*a, *b, *c),
        r.2@ == bone_sa_m(*a, *b, *c),
        r.3@ == bone_sc_m(*a, *b, *c),
        r.4 == bone_convex_m(*a, *b, *c),
{
    let ab = b.pos.sub(a.pos);
    let bc = c.pos.sub(b.pos);
    let n = ab.add(bc).normal().scale_toward(b.body_radius);
    let sl = b.pos.add(n);
    let sr = b.pos.sub(n);
    let convex = ab.dot(n) >= 0;
    let ea = ab.normal().scale_toward(b.body_radius);
    let ec = bc.normal().scale_toward(b.body_radius);
    let sa = if convex {
        b.pos.add(ea)
    } else {
        b.pos.add(ea.neg())
    };
    let sc = if convex {
        b.pos.add(ec)
    } else {
        b.pos.add(ec.neg())
    };
    (sl, sr, sa, sc, convex)
}

/// Triangles and rail points of one interior joint: the two corner
/// triangles, then the four rail points for the side panels.
pub fn tri_bone(a: &Joint, b: &Joint, c: &Joint, tri: &mut Vec<Triangle>, quad: &mut Vec<Point>)
    requires
        joint_ok(*a),
        joint_ok(*b),
        joint_ok(*c),
    ensures
        final(tri)@.len() == old(tri)@.len() + 2,
        forall|j: int| 0 <= j < old(tri)@.len() ==> final(tri)@[j] == old(tri)@[j],
        forall|j: int|
            old(tri)@.len() <= j < final(tri)@.len() ==> (#[trigger] final(tri)@[j])@
                == bone_tri_m(*a, *b, *c, j - old(tri)@.len()),
        final(quad)@.len() == old(quad)@.len() + 4,
        forall|j: int| 0 <= j < old(quad)@.len() ==> final(quad)@[j] == old(quad)@[j],
        forall|j: int|
            old(quad)@.len() <= j < final(quad)@.len() ==> (#[trigger] final(quad)@[j])@
                == bone_quad_m(*a, *b, *c, j - old(quad)@.len()),
{
    let r = joint_offsets(a, b, c);
    let (sl, sr, sa, sc, convex) = r;
    tri.push(Triangle { a: sl, b: sr, c: sa });
    tri.push(Triangle { a: sr, b: sl, c: sc });
    if convex {
        quad.push(sa);
        quad.push(sr);
        quad.push(sr);
        quad.push(sc);
    } else {
        quad.push(sl);
        quad.push(sa);
        quad.push(sc);
        quad.push(sl);
    }
}

/// The five fan triangles of one cap, in emission order.
pub open spec fn cap_tris_list_m(ex: Joint, p: Joint) -> Seq<((int, int), (int, int), (int, int))> {
    Seq::new(5, |i: int| cap_tri_m(ex, p, i))
}

/// The two rail seed points of one cap, in emission order.
pub open spec fn cap_quads_list_m(ex: Joint, p: Joint) -> Seq<(int, int)> {
    seq![sub_m(ex.pos@, cap_n_m(ex, p)), add_m(ex.pos@, cap_n_m(ex, p))]
}

/// Corner triangles of all interior joints up to (excluding) index `m`.
pub open spec fn bones_tris_m(js: Seq<Joint>, m: int) -> Seq<((int, int), (int, int), (int, int))>
    decreases m,
{
    if m <= 1 {
        Seq::empty()
    } else {
        bones_tris_m(js, m - 1) + Seq::new(2, |j: int| bone_tri_m(js[m - 2], js[m - 1], js[m], j))
    }
}

/// Rail points of all interior joints up to (excluding) index `m`.
pub open spec fn bones_quads_m(js: Seq<Joint>, m: int) -> Seq<(int, int)>
    decreases m,
{
    if m <= 1 {
        Seq::empty()
    } else {
        bones_quads_m(js, m - 1) + Seq::new(4, |j: int| bone_quad_m(js[m - 2], js[m - 1], js[m], j))
    }
}

/// All corner and cap triangles of the chain, in emission order: head cap,
/// interior joints head-to-tail, tail cap.
pub open spec fn tri_list_m(js: Seq<Joint>) -> Seq<((int, int), (int, int), (int, int))> {
    if js.len() < 2 {
        Seq::empty()
    } else {
        cap_tris_list_m(js[0], js[1]) + bones_tris_m(js, js.len() - 1) + cap_tris_list_m(
            js[js.len() - 1],
            js[js.len() - 2],
        )
    }
}

/// All rail points of the chain, in emission order.
pub open spec fn quad_list_m(js: Seq<Joint>) -> Seq<(int, int)> {
    if js.len() < 2 {
        Seq::empty()
    } else {
        cap_quads_list_m(js[0], js[1]) + bones_quads_m(js, js.len() - 1) + cap_quads_list_m(
            js[js.len() - 1],
            js[js.len() - 2],
        )
    }
}

/// Number of triangles the mesh holds: every emitted triangle, plus two
/// panel triangles for every four rail points.
pub open spec fn mesh_len_m(js: Seq<Joint>) -> int {
    tri_list_m(js).len() + (quad_list_m(js).len() as int) / 2
}

/// Triangle `i` of the mesh, in draw order: the emitted triangles in
/// reverse order of emission, then the side panels, built four rail
/// points at a time from the tail of the rail list, each four split into
/// two triangles.
pub open spec fn mesh_at_m(js: Seq<Joint>, i: int) -> ((int, int), (int, int), (int, int)) {
    let tris = tri_list_m(js);
    let quads = quad_list_m(js);
    let k = tris.len() as int;
    if i < k {
        tris[k - 1 - i]
    } else {
        let g = (i - k) / 2;
        let m = quads.len() - 4 * g;
        if (i - k) % 2 == 0 {
            (quads[m - 4], quads[m - 3], quads[m - 2])
        } else {
            (quads[m - 4], quads[m - 2], quads[m - 1])
        }
    }
}

/// The six boundary samples of one cap, in emission order.
pub open spec fn cap_pts_m(ex: Joint, p: Joint) -> Seq<(int, int)> {
    Seq::new(6, |i: int| cap_pt_m(ex, p, i))
}

/// Outline points joint `b` contributes to the bevel-side rail.
pub open spec fn bone_left_m(a: Joint, b: Joint, c: Joint) -> Seq<(int, int)> {
    if bone_convex_m(a, b, c) {
        seq![bone_sa_m(a, b, c), bone_sl_m(a, b, c), bone_sc_m(a, b, c)]
    } else {
        seq![bone_sl_m(a, b, c)]
    }
}

/// Outline points joint `b` contributes to the cap-side rail.
pub open spec fn bone_right_m(a: Joint, b: Joint, c: Joint) -> Seq<(int, int)> {
    if bone_convex_m(a, b, c) {
        seq![bone_sr_m(a, b, c)]
    } else {
        seq![bone_sa_m(a, b, c), bone_sr_m(a, b, c), bone_sc_m(a, b, c)]
    }
}

/// Bevel-side rail points of all interior joints up to (excluding) `m`.
pub open spec fn lefts_m(js: Seq<Joint>, m: int) -> Seq<(int, int)>
    decreases m,
{
    if m <= 1 {
        Seq::empty()
    } else {
        lefts_m(js, m - 1) + bone_left_m(js[m - 2], js[m - 1], js[m])
    }
}

/// Cap-side rail points of all interior joints up to (excluding) `m`.
pub open spec fn rights_m(js: Seq<Joint>, m: int) -> Seq<(int, int)>
    decreases m,
{
    if m <= 1 {
        Seq::empty()
    } else {
        rights_m(js, m - 1) + bone_right_m(js[m - 2], js[m - 1], js[m])
    }
}

/// The forward rail of the outline: head cap, cap-side joint points, tail
/// cap.
pub open spec fn outline_right_m(js: Seq<Joint>) -> Seq<(int, int)> {
    cap_pts_m(js[0], js[1]) + rights_m(js, js.len() - 1) + cap_pts_m(
        js[js.len() - 1],
        js[js.len() - 2],
    )
}

/// The return rail of the outline: the bevel-side joint points.
pub open spec fn outline_left_m(js: Seq<Joint>) -> Seq<(int, int)> {
    lefts_m(js, js.len() - 1)
}

/// Number of points of the closed outline.
pub open spec fn outline_len_m(js: Seq<Joint>) -> int {
    if js.len() < 2 {
        0
    } else {
        outline_right_m(js).len() + outline_left_m(js).len() as int
    }
}

/// Point `i` of the closed outline: the forward rail, then the return
/// rail reversed; the polygon closes back to point 0.
pub open spec fn outline_at_m(js: Seq<Joint>, i: int) -> (int, int) {
    let right = outline_right_m(js);
    let left = outline_left_m(js);
    if i < right.len() {
        right[i]
    } else {
        left[left.len() - 1 - (i - right.len())]
    }
}

/// Push the six boundary samples of the cap at `ex` onto `out`.
fn cap_rail(ex: &Joint, p: &Joint, out: &mut Vec<Point>)
    requires
        joint_ok(*ex),
        joint_ok(*p),
    ensures
        final(out)@.len() == old(out)@.len() + 6,
        forall|j: int| 0 <= j < old(out)@.len() ==> final(out)@[j] == old(out)@[j],
        forall|j: int|
            old(out)@.len() <= j < final(out)@.len() ==> (#[trigger] final(out)@[j])@ == cap_pt_m(
                *ex,
                *p,
                j - old(out)@.len(),
            ),
{
    let n0 = ex.pos.sub(p.pos).normal();
    let nn = n0.scale_toward(ex.body_radius).neg();
    assert(nn@ == cap_n_m(*ex, *p));
    let ghost o0 = out@;
    let mut i: usize = 0;
    while i < 6
        invariant
            joint_ok(*ex),
            joint_ok(*p),
            nn@ == cap_n_m(*ex, *p),
            -RADIUS_MAX <= nn.x <= RADIUS_MAX,
            -RADIUS_MAX <= nn.y <= RADIUS_MAX,
            i <= 6,
            out@.len() == o0.len() + i,
            forall|j: int| 0 <= j < o0.len() ==> out@[j] == o0[j],
            forall|j: int|
                o0.len() <= j < out@.len() ==> (#[trigger] out@[j])@ == cap_pt_m(
                    *ex,
                    *p,
                    j - o0.len(),
                ),
        decreases 6 - i,
    {
        let d = cap_dir(i);
        out.push(ex.pos.add(nn.rotate(d.0, d.1)));
        i = i + 1;
    }
}

impl Worm {
    /// The triangulated body mesh of the current chain, in draw order:
    /// back-to-front, panel quads after the reversed corner and cap fans.
    /// A chain of fewer than two joints yields no geometry.
    pub fn generate_mesh(&self) -> (out: Vec<Triangle>)
        requires
            self.wf(),
        ensures
            out@.len() == mesh_len_m(self.joints@),
            forall|i: int| 0 <= i < out@.len() ==> (#[trigger] out@[i])@ == mesh_at_m(self.joints@, i),
            self.joints@.len() < 2 ==> out@.len() == 0,
    {
        let ghost js = self.joints@;
        let n = self.joints.len();
        let mut tri: Vec<Triangle> = Vec::new();
        let mut quad: Vec<Point> = Vec::new();
        if n >= 2 {
            tri_extrema(&self.joints[0], &self.joints[1], &mut tri, &mut quad);
            let mut b: usize = 1;
            while b < n - 1
                invariant
                    self.wf(),
                    js == self.joints@,
                    2 <= n == js.len(),
                    1 <= b <= n - 1,
                    tri@.len() == 5 + 2 * (b - 1),
                    quad@.len() == 2 + 4 * (b - 1),
                    tri@.len() == (cap_tris_list_m(js[0], js[1]) + bones_tris_m(js, b as int)).len(),
                    quad@.len() == (cap_quads_list_m(js[0], js[1]) + bones_quads_m(
                        js,
                        b as int,
                    )).len(),
                    forall|j: int|
                        0 <= j < tri@.len() ==> (#[trigger] tri@[j])@ == (cap_tris_list_m(
                            js[0],
                            js[1],
                        ) + bones_tris_m(js, b as int))[j],
                    forall|j: int|
                        0 <= j < quad@.len() ==> (#[trigger] quad@[j])@ == (cap_quads_list_m(
                            js[0],
                            js[1],
                        ) + bones_quads_m(js, b as int))[j],
                decreases n - b,
            {
                tri_bone(&self.joints[b - 1], &self.joints[b], &self.joints[b + 1], &mut tri, &mut quad);
                proof {
                    let bi = b as int;
                    assert(bones_tris_m(js, bi + 1) == bones_tris_m(js, bi) + Seq::new(
                        2,
                        |j: int| bone_tri_m(js[bi - 1], js[bi], js[bi + 1], j),
                    ));
                    assert(bones_quads_m(js, bi + 1) == bones_quads_m(js, bi) + Seq::new(
                        4,
                        |j: int| bone_quad_m(js[bi - 1], js[bi], js[bi + 1], j),
                    ));
                }
                b = b + 1;
            }
            tri_extrema(&self.joints[n - 1], &self.joints[n - 2], &mut tri, &mut quad);
        }
        proof {
            assert(tri@.len() == tri_list_m(js).len());
            assert(quad@.len() == quad_list_m(js).len());
            assert(forall|j: int|
                0 <= j < tri@.len() ==> (#[trigger] tri@[j])@ == tri_list_m(js)[j]);
            assert(forall|j: int|
                0 <= j < quad@.len() ==> (#[trigger] quad@[j])@ == quad_list_m(js)[j]);
            if n >= 2 {
                assert(quad@.len() == 4 * (n - 1));
            }
        }
        let ghost klen = tri_list_m(js).len() as int;
        let ghost qlen = quad_list_m(js).len() as int;
        let mut out: Vec<Triangle> = Vec::new();
        while tri.len() > 0
            invariant
                klen == tri_list_m(js).len(),
                qlen == quad_list_m(js).len(),
                out@.len() + tri@.len() == klen,
                forall|j: int| 0 <= j < tri@.len() ==> (#[trigger] tri@[j])@ == tri_list_m(js)[j],
                forall|j: int| 0 <= j < out@.len() ==> (#[trigger] out@[j])@ == mesh_at_m(js, j),
                quad@.len() == qlen,
                forall|j: int| 0 <= j < quad@.len() ==> (#[trigger] quad@[j])@ == quad_list_m(js)[j],
            decreases tri@.len(),
        {
            let ghost out0 = out@;
            let ghost tri0 = tri@;
            let t = tri.pop().unwrap();
            out.push(t);
            proof {
                let j0 = out0.len() as int;
                assert(t@ == tri_list_m(js)[tri0.len() - 1]);
                assert(mesh_at_m(js, j0) == tri_list_m(js)[klen - 1 - j0]);
                assert forall|j: int| 0 <= j < out@.len() implies (#[trigger] out@[j])@
                    == mesh_at_m(js, j) by {
                    if j < j0 {
                        assert(out@[j] == out0[j]);
                    } else {
                        assert(out@[j] == t);
                    }
                }
                assert forall|j: int| 0 <= j < tri@.len() implies (#[trigger] tri@[j])@
                    == tri_list_m(js)[j] by {
                    assert(tri@[j] == tri0[j]);
                }
            }
        }
        let ghost mut groups: int = 0;
        proof {
            if n >= 2 {
                assert(qlen == 4 * (n - 1));
            } else {
                assert(qlen == 0);
            }
        }
        while quad.len() > 0
            invariant
                klen == tri_list_m(js).len(),
                qlen == quad_list_m(js).len(),
                0 <= groups,
                out@.len() == klen + 2 * groups,
                quad@.len() == qlen - 4 * groups,
                quad@.len() % 4 == 0,
                forall|j: int| 0 <= j < quad@.len() ==> (#[trigger] quad@[j])@ == quad_list_m(js)[j],
                forall|j: int| 0 <= j < out@.len() ==> (#[trigger] out@[j])@ == mesh_at_m(js, j),
            decreases quad@.len(),
        {
            let ghost out0 = out@;
            let ghost quad0 = quad@;
            let p3 = quad.pop().unwrap();
            let p2 = quad.pop().unwrap();
            let p1 = quad.pop().unwrap();
            let p0 = quad.pop().unwrap();
            out.push(Triangle { a: p0, b: p1, c: p2 });
            out.push(Triangle { a: p0, b: p2, c: p3 });
            proof {
                let m = quad0.len() as int;
                let j0 = out0.len() as int;
                assert(p0@ == quad_list_m(js)[m - 4]);
                assert(p1@ == quad_list_m(js)[m - 3]);
                assert(p2@ == quad_list_m(js)[m - 2]);
                assert(p3@ == quad_list_m(js)[m - 1]);
                assert(j0 == klen + 2 * groups);
                assert((j0 - klen) / 2 == groups);
                assert((j0 - klen) % 2 == 0);
                assert((j0 + 1 - klen) / 2 == groups);
                assert((j0 + 1 - klen) % 2 == 1);
                assert(m == qlen - 4 * groups);
                assert(mesh_at_m(js, j0) == (
                    quad_list_m(js)[m - 4],
                    quad_list_m(js)[m - 3],
                    quad_list_m(js)[m - 2],
                ));
                assert(mesh_at_m(js, j0 + 1) == (
                    quad_list_m(js)[m - 4],
                    quad_list_m(js)[m - 2],
                    quad_list_m(js)[m - 1],
                ));
                groups = groups + 1;
                assert forall|j: int| 0 <= j < out@.len() implies (#[trigger] out@[j])@
                    == mesh_at_m(js, j) by {
                    if j < j0 {
                        assert(out@[j] == out0[j]);
                    } else if j == j0 {
                        assert(out@[j] == (Triangle { a: p0, b: p1, c: p2 }));
                    } else {
                        assert(out@[j] == (Triangle { a: p0, b: p2, c: p3 }));
                    }
                }
                assert forall|j: int| 0 <= j < quad@.len() implies (#[trigger] quad@[j])@
                    == quad_list_m(js)[j] by {
                    assert(quad@[j] == quad0[j]);
                }
            }
        }
        proof {
            assert(out@.len() == klen + qlen / 2);
        }
        out
    }

    /// The closed silhouette polygon of the current chain: the forward
    /// rail (head cap, cap-side joint points, tail cap), then the return
    /// rail reversed; the implicit closing edge runs from the last point
    /// back to the first. A chain of fewer than two joints yields no
    /// geometry.
    pub fn generate_outline(&self) -> (out: Vec<Point>)
        requires
            self.wf(),
        ensures
            out@.len() == outline_len_m(self.joints@),
            forall|i: int|
                0 <= i < out@.len() ==> (#[trigger] out@[i])@ == outline_at_m(self.joints@, i),
            self.joints@.len() < 2 ==> out@.len() == 0,
    {
        let ghost js = self.joints@;
        let n = self.joints.len();
        let mut right: Vec<Point> = Vec::new();
        let mut left: Vec<Point> = Vec::new();
        if n < 2 {
            return right;
        }
        cap_rail(&self.joints[0], &self.joints[1], &mut right);
        let mut b: usize = 1;
        while b < n - 1
            invariant
                self.wf(),
                js == self.joints@,
                2 <= n == js.len(),
                1 <= b <= n - 1,
                right@.len() == (cap_pts_m(js[0], js[1]) + rights_m(js, b as int)).len(),
                left@.len() == lefts_m(js, b as int).len(),
                forall|j: int|
                    0 <= j < right@.len() ==> (#[trigger] right@[j])@ == (cap_pts_m(js[0], js[1])
                        + rights_m(js, b as int))[j],
                forall|j: int|
                    0 <= j < left@.len() ==> (#[trigger] left@[j])@ == lefts_m(js, b as int)[j],
            decreases n - b,
        {
            let r = joint_offsets(&self.joints[b - 1], &self.joints[b], &self.joints[b + 1]);
            let (sl, sr, sa, sc, convex) = r;
            if convex {
                left.push(sa);
                left.push(sl);
                left.push(sc);
                right.push(sr);
            } else {
                left.push(sl);
                right.push(sa);
                right.push(sr);
                right.push(sc);
            }
            proof {
                let bi = b as int;
                assert(rights_m(js, bi + 1) == rights_m(js, bi) + bone_right_m(
                    js[bi - 1],
                    js[bi],
                    js[bi + 1],
                ));
                assert(lefts_m(js, bi + 1) == lefts_m(js, bi) + bone_left_m(
                    js[bi - 1],
                    js[bi],
                    js[bi + 1],
                ));
            }
            b = b + 1;
        }
        cap_rail(&self.joints[n - 1], &self.joints[n - 2], &mut right);
        proof {
            assert(right@.len() == outline_right_m(js).len());
            assert(forall|j: int|
                0 <= j < right@.len() ==> (#[trigger] right@[j])@ == outline_right_m(js)[j]);
        }
        let ghost rlen = outline_right_m(js).len() as int;
        let ghost llen = outline_left_m(js).len() as int;
        let mut out = right;
        let mut k: usize = left.len();
        while k > 0
            invariant
                rlen == outline_right_m(js).len(),
                llen == outline_left_m(js).len(),
                0 <= k <= llen,
                left@.len() == llen,
                forall|j: int| 0 <= j < llen ==> (#[trigger] left@[j])@ == outline_left_m(js)[j],
                out@.len() == rlen + (llen - k),
                forall|j: int| 0 <= j < rlen ==> (#[trigger] out@[j])@ == outline_right_m(js)[j],
                forall|j: int|
                    rlen <= j < out@.len() ==> (#[trigger] out@[j])@ == outline_left_m(js)[llen - 1
                        - (j - rlen)],
            decreases k,
        {
            let ghost out0 = out@;
            let ghost k0 = k as int;
            k = k - 1;
            out.push(left[k]);
            proof {
                let j0 = out0.len() as int;
                assert(out@[j0] == left@[k0 - 1]);
                assert(llen - 1 - (j0 - rlen) == k0 - 1);
                assert forall|j: int| rlen <= j < out@.len() implies (#[trigger] out@[j])@
                    == outline_left_m(js)[llen - 1 - (j - rlen)] by {
                    if j < j0 {
                        assert(out@[j] == out0[j]);
                    } else {
                        assert(out@[j] == left@[k0 - 1]);
                    }
                }
                assert forall|j: int| 0 <= j < rlen implies (#[trigger] out@[j])@
                    == outline_right_m(js)[j] by {
                    assert(out@[j] == out0[j]);
                }
            }
        }
        out
    }
}

/// Geometry queries are pure: any two outline sequences generated from
/// the same chain state, with no relaxation in between, are identical.
pub proof fn lemma_outline_deterministic(
    js: Seq<Joint>,
    o1: Seq<(int, int)>,
    o2: Seq<(int, int)>,
)
    requires
        o1.len() == outline_len_m(js),
        forall|i: int| 0 <= i < o1.len() ==> #[trigger] o1[i] == outline_at_m(js, i),
        o2.len() == outline_len_m(js),
        forall|i: int| 0 <= i < o2.len() ==> #[trigger] o2[i] == outline_at_m(js, i),
    ensures
        o1 == o2,
{
    assert(o1 =~= o2);
}

} // verus!
