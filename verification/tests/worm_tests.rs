use worms::point::Point;
use worms::worm::{follow, move_toward, Worm};

fn pt(x: i64, y: i64) -> Point {
    Point { x, y }
}

#[test]
fn follow_leaves_close_child_unchanged() {
    // child within the control radius: the follow rule never pulls closer
    let r = follow(pt(0, 0), pt(5, 5), 10);
    assert_eq!(r, pt(5, 5));
    let r = follow(pt(100, 100), pt(100, 110), 10);
    assert_eq!(r, pt(100, 110));
}

#[test]
fn follow_pulls_far_child_onto_radius() {
    // |(30, 40)| = 50, pulled onto the 3-4-5 direction at length 10
    let r = follow(pt(0, 0), pt(30, 40), 10);
    assert_eq!(r, pt(6, 8));
    // and from a shifted parent
    let r = follow(pt(10, 0), pt(40, 40), 10);
    assert_eq!(r, pt(16, 8));
}

#[test]
fn update_relaxes_head_to_tail() {
    let mut w = Worm::new();
    for _ in 0..3 {
        w.grow(10, 5);
    }
    w.update(pt(100, 0));
    let js = w.debug_joints();
    assert_eq!(js.len(), 3);
    assert_eq!(js[0].0, pt(100, 0));
    assert_eq!(js[1].0, pt(90, 0));
    assert_eq!(js[2].0, pt(80, 0));
}

#[test]
fn update_keeps_pairs_within_leash() {
    // arbitrary head inputs: every adjacent pair ends within cr + 1
    let mut w = Worm::new();
    for _ in 0..8 {
        w.grow(25, 5);
    }
    let heads = [
        pt(0, 0),
        pt(500, -300),
        pt(-200, 800),
        pt(123, 456),
        pt(-1000, -1000),
        pt(7, 9),
    ];
    for h in heads.iter() {
        w.update(*h);
        let js = w.debug_joints();
        for k in 0..js.len() - 1 {
            let dx = (js[k].0.x - js[k + 1].0.x) as f64;
            let dy = (js[k].0.y - js[k + 1].0.y) as f64;
            let d = (dx * dx + dy * dy).sqrt();
            assert!(d <= 26.0 + 1e-9, "pair {} too far: {}", k, d);
        }
        assert_eq!(js[0].0, *h);
    }
}

#[test]
fn grow_prepends_at_head_position() {
    let mut w = Worm::new();
    w.grow(10, 5);
    w.update(pt(7, 9));
    w.grow(12, 6);
    let js = w.debug_joints();
    assert_eq!(js.len(), 2);
    assert_eq!(js[0].0, pt(7, 9));
    assert_eq!(js[0].1, 6);
    assert_eq!(js[1].0, pt(7, 9));
    assert_eq!(js[1].1, 5);
}

#[test]
fn move_toward_snaps_when_close() {
    // distance below the per-frame speed: the target itself comes back
    assert_eq!(move_toward(pt(0, 0), pt(3, 0)), pt(3, 0));
    assert_eq!(move_toward(pt(10, 10), pt(11, 9)), pt(11, 9));
    assert_eq!(move_toward(pt(4, 4), pt(4, 4)), pt(4, 4));
}

#[test]
fn move_toward_advances_at_fixed_speed() {
    assert_eq!(move_toward(pt(0, 0), pt(100, 0)), pt(5, 0));
    // |(30, 40)| = 50: one step of length 5 along the 3-4-5 direction
    assert_eq!(move_toward(pt(0, 0), pt(30, 40)), pt(3, 4));
    assert_eq!(move_toward(pt(100, 0), pt(0, 0)), pt(95, 0));
}

#[test]
fn find_target_simple_offsets() {
    let mut w = Worm::new();
    w.grow(10, 5);
    // u1 % 40001 = 21000 -> dx = 1000; u2 % 40001 = 22000 -> dy = 2000
    w.find_target(21000, 22000, 5000, 5000);
    assert_eq!(w.current_target(), Some(pt(1000, 2000)));
}

#[test]
fn find_target_clamps_to_viewport() {
    let mut w = Worm::new();
    w.grow(10, 5);
    // both scalars 0: raw offset (-20000, -20000), capped to the roam
    // radius then clamped to the viewport corner
    w.find_target(0, 0, 1000, 1000);
    assert_eq!(w.current_target(), Some(pt(0, 0)));
    // offset (20000, 0) from u1 % 40001 = 40000; head at origin, clamped to w
    w.find_target(40000, 20000, 1000, 1000);
    assert_eq!(w.current_target(), Some(pt(1000, 0)));
}

#[test]
fn random_targets_stay_in_viewport() {
    let mut w = Worm::new();
    w.grow(10, 5);
    for _ in 0..200 {
        w.find_target_random(800, 450);
        let t = w.current_target().unwrap();
        assert!(t.x >= 0 && t.x <= 800, "x out of viewport: {}", t.x);
        assert!(t.y >= 0 && t.y <= 450, "y out of viewport: {}", t.y);
    }
}

#[test]
fn roam_feedback_reaches_target_then_retargets() {
    let mut w = Worm::new();
    w.grow(10, 5);
    let mut reached = false;
    for _ in 0..100000 {
        let p = w.roam(1000, 1000);
        let t = w.current_target().unwrap();
        w.update(p);
        let head = w.debug_joints()[0].0;
        assert_eq!(head, p);
        if head == t {
            reached = true;
            break;
        }
    }
    assert!(reached, "head never reached its target");
    // the head sits on the target: the next roam call draws a fresh one
    let _ = w.roam(1000, 1000);
    let t = w.current_target().unwrap();
    assert!(t.x >= 0 && t.x <= 1000);
    assert!(t.y >= 0 && t.y <= 1000);
}

#[test]
fn empty_worm_generates_no_geometry() {
    let w = Worm::new();
    assert_eq!(w.generate_outline().len(), 0);
    assert_eq!(w.generate_mesh().len(), 0);
    assert_eq!(w.debug_joints().len(), 0);
}

#[test]
fn single_joint_generates_no_geometry() {
    let mut w = Worm::new();
    w.grow(10, 5);
    assert_eq!(w.generate_outline().len(), 0);
    assert_eq!(w.generate_mesh().len(), 0);
    assert_eq!(w.debug_joints().len(), 1);
}

#[test]
fn outline_is_idempotent() {
    let mut w = Worm::new();
    for _ in 0..5 {
        w.grow(50, 20);
    }
    w.update(pt(300, 120));
    let o1 = w.generate_outline();
    let o2 = w.generate_outline();
    assert_eq!(o1, o2);
    let m1 = w.generate_mesh();
    let m2 = w.generate_mesh();
    assert_eq!(m1, m2);
}

#[test]
fn straight_chain_outline_shape() {
    // three colinear joints, equal body radius: 6 + 6 cap samples, one
    // concave rail point, three bevel rail points
    let mut w = Worm::new();
    for _ in 0..3 {
        w.grow(10000, 5000);
    }
    w.update(pt(20000, 0));
    let o = w.generate_outline();
    assert_eq!(o.len(), 16);
    // the first cap sample is the unrotated cap normal off the head
    assert_eq!(o[0], pt(20000, -5000));
}

#[test]
fn straight_chain_mesh_area_approximates_capsule() {
    // three colinear joints of body radius 5000: the mesh should cover a
    // capsule of width 10000 along the 20000-long spine
    let mut w = Worm::new();
    for _ in 0..3 {
        w.grow(10000, 5000);
    }
    w.update(pt(20000, 0));
    let js = w.debug_joints();
    assert_eq!(js[0].0, pt(20000, 0));
    assert_eq!(js[1].0, pt(10000, 0));
    assert_eq!(js[2].0, pt(0, 0));
    let mesh = w.generate_mesh();
    let mut area = 0.0f64;
    for t in mesh.iter() {
        let (ax, ay) = (t.a.x as f64, t.a.y as f64);
        let (bx, by) = (t.b.x as f64, t.b.y as f64);
        let (cx, cy) = (t.c.x as f64, t.c.y as f64);
        area += ((bx - ax) * (cy - ay) - (cx - ax) * (by - ay)).abs() / 2.0;
    }
    let r = 5000.0f64;
    let expected = 20000.0 * 2.0 * r + std::f64::consts::PI * r * r;
    let rel = (area - expected).abs() / expected;
    assert!(rel < 0.05, "mesh area {} vs capsule {} (rel {})", area, expected, rel);
}

fn proper_crossing(p1: Point, p2: Point, q1: Point, q2: Point) -> bool {
    // strict segment intersection (shared endpoints do not count)
    fn orient(a: Point, b: Point, c: Point) -> f64 {
        let (ax, ay) = (a.x as f64, a.y as f64);
        let (bx, by) = (b.x as f64, b.y as f64);
        let (cx, cy) = (c.x as f64, c.y as f64);
        (bx - ax) * (cy - ay) - (by - ay) * (cx - ax)
    }
    let d1 = orient(p1, p2, q1);
    let d2 = orient(p1, p2, q2);
    let d3 = orient(q1, q2, p1);
    let d4 = orient(q1, q2, p2);
    d1 * d2 < 0.0 && d3 * d4 < 0.0
}

#[test]
fn convex_chain_closing_edge_does_not_cross() {
    // a gently curving convex chain: the outline's implicit closing edge
    // (last point back to first) crosses no other outline edge
    let mut w = Worm::new();
    for _ in 0..4 {
        w.grow(110, 20);
    }
    w.joints[0].pos = pt(300, 90);
    w.joints[1].pos = pt(200, 40);
    w.joints[2].pos = pt(100, 10);
    w.joints[3].pos = pt(0, 0);
    let o = w.generate_outline();
    assert!(o.len() >= 4);
    let close_a = o[o.len() - 1];
    let close_b = o[0];
    for i in 0..o.len() - 1 {
        let (e1, e2) = (o[i], o[i + 1]);
        assert!(
            !proper_crossing(close_a, close_b, e1, e2),
            "closing edge crosses edge {}",
            i
        );
    }
}

#[test]
fn extreme_coordinates_are_accepted() {
    let mut w = Worm::new();
    w.grow(worms::RADIUS_MAX, worms::RADIUS_MAX);
    w.grow(worms::RADIUS_MAX, worms::RADIUS_MAX);
    w.update(pt(worms::COORD_MAX, worms::COORD_MAX));
    let js = w.debug_joints();
    assert_eq!(js[0].0, pt(worms::COORD_MAX, worms::COORD_MAX));
    let _ = w.generate_outline();
    let _ = w.generate_mesh();
}

#[test]
fn point_algebra_basics() {
    let a = pt(3, 4);
    assert_eq!(a.norm(), 5);
    assert_eq!(pt(0, 0).norm(), 0);
    assert_eq!(pt(1, 1).norm(), 1);
    assert_eq!(a.normal(), pt(-4, 3));
    assert_eq!(a.dot(pt(2, -1)), 2);
    assert_eq!(a.add(pt(1, 1)), pt(4, 5));
    assert_eq!(a.sub(pt(1, 1)), pt(2, 3));
    assert_eq!(a.neg(), pt(-3, -4));
    assert_eq!(a.scale(3), pt(9, 12));
    assert_eq!(a.scale(-2), pt(-6, -8));
    // quarter turn from the rotation convention: cosine 0, sine FIX_ONE
    assert_eq!(pt(1000, 0).rotate(0, worms::FIX_ONE), pt(0, 1000));
    assert_eq!(pt(30, 40).scale_toward(5), pt(3, 4));
    assert_eq!(pt(0, 0).scale_toward(5), pt(0, 0));
}
