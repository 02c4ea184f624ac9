//! Immutable 2D point/vector algebra over integer coordinates.
//!
//! Every operation is pure. Directions are scaled with an exact integer
//! square root (`isqrt`), so "move `len` units toward `v`" is the integer
//! vector `(v.x*len/|v|, v.y*len/|v|)` with each component rounded toward
//! zero; the rounding never lengthens the vector by more than one unit.
use vstd::prelude::*;

use crate::{FIX_ONE, OP_MAX, RADIUS_MAX};

verus! {

/// A 2D point or vector with integer coordinates.
#[derive(Clone, Copy, PartialEq, Eq, Structural, Debug)]
pub struct Point {
    pub x: i64,
    pub y: i64,
}

impl View for Point {
    type V = (int, int);

    open spec fn view(&self) -> (int, int) {
        (self.x as int, self.y as int)
    }
}

pub open spec fn add_m(a: (int, int), b: (int, int)) -> (int, int) {
    (a.0 + b.0, a.1 + b.1)
}

pub open spec fn sub_m(a: (int, int), b: (int, int)) -> (int, int) {
    (a.0 - b.0, a.1 - b.1)
}

pub open spec fn neg_m(a: (int, int)) -> (int, int) {
    (-a.0, -a.1)
}

/// The 90-degree counter-clockwise rotation `(-y, x)`; not normalized.
pub open spec fn perp_m(a: (int, int)) -> (int, int) {
    (-a.1, a.0)
}

pub open spec fn dot_m(a: (int, int), b: (int, int)) -> int {
    a.0 * b.0 + a.1 * b.1
}

pub open spec fn abs_m(a: int) -> int {
    if a < 0 {
        -a
    } else {
        a
    }
}

/// Squared euclidean distance between two points.
pub open spec fn dist_sq(a: (int, int), b: (int, int)) -> int {
    dot_m(sub_m(b, a), sub_m(b, a))
}

/// Both coordinates within `[-b, b]`.
pub open spec fn fits(p: (int, int), b: int) -> bool {
    &&& -b <= p.0 <= b
    &&& -b <= p.1 <= b
}

/// The floor of the square root of `n` (0 for negative `n`).
pub open spec fn sqrt_floor(n: int) -> int
    decreases n,
{
    if n <= 0 {
        0
    } else {
        let s = sqrt_floor(n - 1);
        if (s + 1) * (s + 1) <= n {
            s + 1
        } else {
            s
        }
    }
}

/// Division rounding toward zero, for a positive divisor.
pub open spec fn tdiv(a: int, d: int) -> int {
    if a >= 0 {
        a / d
    } else {
        -((-a) / d)
    }
}

/// One component of `v` scaled to length `len`: `|a|*len/s` rounded down,
/// with the sign of `a` restored; zero when the vector was zero.
pub open spec fn scaled1(a: int, len: int, s: int) -> int {
    if s <= 0 {
        0
    } else if a >= 0 {
        (a * len) / s
    } else {
        -(((-a) * len) / s)
    }
}

/// `v` rescaled to length `len` (componentwise, rounded toward zero);
/// the zero vector stays zero.
pub open spec fn scale_m(v: (int, int), len: int) -> (int, int) {
    let s = sqrt_floor(dot_m(v, v));
    (scaled1(v.0, len, s), scaled1(v.1, len, s))
}

/// Fixed-point rotation of `v` by the angle whose cosine and sine are
/// `c / FIX_ONE` and `s / FIX_ONE`.
pub open spec fn rot_m(v: (int, int), c: int, s: int) -> (int, int) {
    (tdiv(c * v.0 - s * v.1, FIX_ONE as int), tdiv(s * v.0 + c * v.1, FIX_ONE as int))
}

pub(crate) proof fn lemma_mul_bounds(a: int, b: int, ma: int, mb: int)
    by (nonlinear_arith)
    requires
        -ma <= a <= ma,
        -mb <= b <= mb,
        0 <= ma,
        0 <= mb,
    ensures
        -(ma * mb) <= a * b <= ma * mb,
{
}

pub(crate) proof fn lemma_sq_nonneg(a: int)
    by (nonlinear_arith)
    ensures
        a * a >= 0,
        a != 0 ==> a * a >= 1,
{
}

pub(crate) proof fn lemma_div_basic(x: int, s: int)
    by (nonlinear_arith)
    requires
        s >= 1,
        x >= 0,
    ensures
        0 <= x / s,
        (x / s) * s <= x,
        x / s <= x,
{
}

pub(crate) proof fn lemma_div_ordered(x: int, y: int, s: int)
    by (nonlinear_arith)
    requires
        s >= 1,
        0 <= x <= y,
    ensures
        x / s <= y / s,
{
}

/// Truncating division by `d` of a value within `d * m` stays within `m`.
pub(crate) proof fn lemma_tdiv_bound(a: int, d: int, m: int)
    requires
        d >= 1,
        0 <= m,
        abs_m(a) <= d * m,
    ensures
        abs_m(tdiv(a, d)) <= m,
{
    let w = abs_m(a);
    lemma_div_basic(w, d);
    lemma_div_ordered(w, d * m, d);
    assert(d * m == m * d) by (nonlinear_arith);
    lemma_mul_div_cancel(m, d);
}

pub(crate) proof fn lemma_mul_div_cancel(a: int, s: int)
    by (nonlinear_arith)
    requires
        s >= 1,
        a >= 0,
    ensures
        (a * s) / s == a,
{
}

#[verifier::rlimit(50)]
pub proof fn lemma_sqrt_floor_bounds(n: int)
    requires
        n >= 0,
    ensures
        0 <= sqrt_floor(n),
        sqrt_floor(n) * sqrt_floor(n) <= n,
        n < (sqrt_floor(n) + 1) * (sqrt_floor(n) + 1),
    decreases n,
{
    if n == 0 {
        assert(sqrt_floor(0) == 0);
    } else {
        lemma_sqrt_floor_bounds(n - 1);
        let s = sqrt_floor(n - 1);
        let r = sqrt_floor(n);
        if (s + 1) * (s + 1) <= n {
            assert(r == s + 1);
            assert(n - 1 < (s + 1) * (s + 1));
            assert(n == (s + 1) * (s + 1));
            assert(n < (r + 1) * (r + 1)) by (nonlinear_arith)
                requires
                    n == (s + 1) * (s + 1),
                    r == s + 1,
                    s >= 0,
            ;
            assert(r * r <= n);
        } else {
            assert(r == s);
            assert(n < (r + 1) * (r + 1));
            assert(r * r <= n);
        }
        assert(0 <= r);
    }
}

/// A value whose square brackets `n` is exactly `sqrt_floor(n)`.
pub proof fn lemma_sqrt_is(n: int, r: int)
    requires
        0 <= r,
        r * r <= n,
        n < (r + 1) * (r + 1),
    ensures
        sqrt_floor(n) == r,
{
    lemma_sqrt_floor_bounds(n);
    let s = sqrt_floor(n);
    assert(r <= s) by (nonlinear_arith)
        requires
            r * r <= n,
            n < (s + 1) * (s + 1),
            r >= 0,
            s >= 0,
    ;
    assert(s <= r) by (nonlinear_arith)
        requires
            s * s <= n,
            n < (r + 1) * (r + 1),
            r >= 0,
            s >= 0,
    ;
}

/// Anything whose square is at most `n` is at most `sqrt_floor(n)`.
pub proof fn lemma_sqrt_le(n: int, r: int)
    requires
        0 <= r,
        r * r <= n,
    ensures
        r <= sqrt_floor(n),
{
    lemma_sqrt_floor_bounds(n);
    let s = sqrt_floor(n);
    assert(r <= s) by (nonlinear_arith)
        requires
            r * r <= n,
            n < (s + 1) * (s + 1),
            r >= 0,
            s >= 0,
    ;
}

proof fn lemma_scaled1_small(a: int, len: int, s: int, d: int)
    requires
        0 <= len,
        s >= 1,
        a * a <= d,
        d < (s + 1) * (s + 1),
    ensures
        abs_m(scaled1(a, len, s)) <= len,
{
    let m = abs_m(a);
    assert(m * m == a * a) by (nonlinear_arith)
        requires
            m == a || m == -a,
    ;
    assert(m <= s) by (nonlinear_arith)
        requires
            m * m <= d,
            d < (s + 1) * (s + 1),
            m >= 0,
            s >= 0,
    ;
    assert(m * len <= s * len) by (nonlinear_arith)
        requires
            0 <= m <= s,
            0 <= len,
    ;
    lemma_mul_bounds(m, len, s, len);
    lemma_div_basic(m * len, s);
    lemma_div_ordered(m * len, s * len, s);
    assert(s * len == len * s) by (nonlinear_arith);
    lemma_mul_div_cancel(len, s);
}

/// Rescaling to length `len` never yields a component beyond `len`.
pub proof fn lemma_scale_small(v: (int, int), len: int)
    requires
        0 <= len,
    ensures
        abs_m(scale_m(v, len).0) <= len,
        abs_m(scale_m(v, len).1) <= len,
{
    let d = dot_m(v, v);
    lemma_sq_nonneg(v.0);
    lemma_sq_nonneg(v.1);
    lemma_sqrt_floor_bounds(d);
    let s = sqrt_floor(d);
    if s >= 1 {
        lemma_scaled1_small(v.0, len, s, d);
        lemma_scaled1_small(v.1, len, s, d);
    }
}

/// When `len` does not exceed the vector's length, rescaling moves each
/// component toward zero and keeps its sign: the result lies between the
/// origin and `v`, componentwise.
pub proof fn lemma_scale_within(v: (int, int), len: int)
    requires
        0 <= len <= sqrt_floor(dot_m(v, v)),
    ensures
        v.0 >= 0 ==> 0 <= scale_m(v, len).0 <= v.0,
        v.0 <= 0 ==> v.0 <= scale_m(v, len).0 <= 0,
        v.1 >= 0 ==> 0 <= scale_m(v, len).1 <= v.1,
        v.1 <= 0 ==> v.1 <= scale_m(v, len).1 <= 0,
{
    let d = dot_m(v, v);
    lemma_sq_nonneg(v.0);
    lemma_sq_nonneg(v.1);
    let s = sqrt_floor(d);
    if s >= 1 {
        lemma_scaled1_within(v.0, len, s);
        lemma_scaled1_within(v.1, len, s);
    }
}

proof fn lemma_scaled1_within(a: int, len: int, s: int)
    requires
        s >= 1,
        0 <= len <= s,
    ensures
        a >= 0 ==> 0 <= scaled1(a, len, s) <= a,
        a <= 0 ==> a <= scaled1(a, len, s) <= 0,
{
    let m = abs_m(a);
    assert(m * len <= m * s) by (nonlinear_arith)
        requires
            0 <= m,
            0 <= len <= s,
    ;
    lemma_div_basic(m * len, s);
    lemma_div_ordered(m * len, m * s, s);
    lemma_mul_div_cancel(m, s);
}

/// Rescaling to length `len` yields a vector of length at most `len + 1`:
/// the squared length of the result is at most `(len + 1)^2`.
pub proof fn lemma_scale_dist(v: (int, int), len: int)
    requires
        0 <= len <= sqrt_floor(dot_m(v, v)),
    ensures
        dot_m(scale_m(v, len), scale_m(v, len)) <= (len + 1) * (len + 1),
{
    let d = dot_m(v, v);
    lemma_sq_nonneg(v.0);
    lemma_sq_nonneg(v.1);
    lemma_sqrt_floor_bounds(d);
    let s = sqrt_floor(d);
    if s == 0 {
        assert((len + 1) * (len + 1) >= 0) by (nonlinear_arith);
    } else {
        let a0 = abs_m(v.0);
        let a1 = abs_m(v.1);
        assert(a0 * a0 == v.0 * v.0) by (nonlinear_arith)
            requires
                a0 == v.0 || a0 == -v.0,
        ;
        assert(a1 * a1 == v.1 * v.1) by (nonlinear_arith)
            requires
                a1 == v.1 || a1 == -v.1,
        ;
        let m0 = (a0 * len) / s;
        let m1 = (a1 * len) / s;
        assert(scale_m(v, len).0 == m0 || scale_m(v, len).0 == -m0);
        assert(scale_m(v, len).1 == m1 || scale_m(v, len).1 == -m1);
        lemma_mul_bounds(a0, len, a0, len);
        lemma_mul_bounds(a1, len, a1, len);
        lemma_div_basic(a0 * len, s);
        lemma_div_basic(a1 * len, s);
        // componentwise: (m_i * s)^2 <= (a_i * len)^2
        assert((m0 * m0) * (s * s) <= (a0 * a0) * (len * len)) by (nonlinear_arith)
            requires
                0 <= m0 * s <= a0 * len,
        ;
        assert((m1 * m1) * (s * s) <= (a1 * a1) * (len * len)) by (nonlinear_arith)
            requires
                0 <= m1 * s <= a1 * len,
        ;
        // sum and factor: (m0^2 + m1^2) * s^2 <= d * len^2
        assert((m0 * m0 + m1 * m1) * (s * s) == (m0 * m0) * (s * s) + (m1 * m1) * (s * s))
            by (nonlinear_arith);
        assert((a0 * a0 + a1 * a1) * (len * len) == (a0 * a0) * (len * len) + (a1 * a1) * (len
            * len)) by (nonlinear_arith);
        // d <= s^2 + 2s, hence the bound len^2 + 2*len after cancelling s^2
        assert(a0 * a0 + a1 * a1 <= s * s + 2 * s) by (nonlinear_arith)
            requires
                a0 * a0 + a1 * a1 < (s + 1) * (s + 1),
        ;
        assert((a0 * a0 + a1 * a1) * (len * len) <= (s * s + 2 * s) * (len * len))
            by (nonlinear_arith)
            requires
                a0 * a0 + a1 * a1 <= s * s + 2 * s,
                len * len >= 0,
        ;
        assert((s * s + 2 * s) * (len * len) <= (len * len + 2 * len) * (s * s))
            by (nonlinear_arith)
            requires
                0 <= len <= s,
        ;
        assert(m0 * m0 + m1 * m1 <= len * len + 2 * len) by (nonlinear_arith)
            requires
                (m0 * m0 + m1 * m1) * (s * s) <= (len * len + 2 * len) * (s * s),
                s >= 1,
        ;
        assert(m0 * m0 + m1 * m1 <= (len + 1) * (len + 1)) by (nonlinear_arith)
            requires
                m0 * m0 + m1 * m1 <= len * len + 2 * len,
        ;
        assert((-m0) * (-m0) == m0 * m0) by (nonlinear_arith);
        assert((-m1) * (-m1) == m1 * m1) by (nonlinear_arith);
    }
}

/// Exact integer square root: the greatest `r` with `r*r <= n`.
pub fn isqrt(n: u64) -> (r: u64)
    requires
        n <= 0x3FFF_FFFF_FFFF_FFFF,
    ensures
        (r as int) * (r as int) <= n as int,
        (n as int) < (r as int + 1) * (r as int + 1),
        r <= 0x8000_0000,
{
    let mut lo: u64 = 0;
    let mut hi: u64 = 0x8000_0000;
    proof {
        assert((0x8000_0000 as int) * (0x8000_0000 as int) > 0x3FFF_FFFF_FFFF_FFFF as int)
            by (nonlinear_arith);
    }
    while lo + 1 < hi
        invariant
            lo < hi <= 0x8000_0000,
            (lo as int) * (lo as int) <= n as int,
            (n as int) < (hi as int) * (hi as int),
        decreases hi - lo,
    {
        let mid = lo + (hi - lo) / 2;
        proof {
            assert((mid as int) * (mid as int) < 0x4000_0000_0000_0000) by (nonlinear_arith)
                requires
                    mid < 0x8000_0000,
            ;
        }
        if mid * mid <= n {
            lo = mid;
        } else {
            hi = mid;
        }
    }
    lo
}

impl Point {
    /// The origin.
    pub fn zero() -> (r: Point)
        ensures
            r@ == (0int, 0int),
    {
        Point { x: 0, y: 0 }
    }

    pub fn add(self, o: Point) -> (r: Point)
        requires
            fits(self@, OP_MAX as int),
            fits(o@, OP_MAX as int),
        ensures
            r@ == add_m(self@, o@),
    {
        Point { x: self.x + o.x, y: self.y + o.y }
    }

    pub fn sub(self, o: Point) -> (r: Point)
        requires
            fits(self@, OP_MAX as int),
            fits(o@, OP_MAX as int),
        ensures
            r@ == sub_m(self@, o@),
    {
        Point { x: self.x - o.x, y: self.y - o.y }
    }

    pub fn neg(self) -> (r: Point)
        requires
            fits(self@, OP_MAX as int),
        ensures
            r@ == neg_m(self@),
    {
        Point { x: -self.x, y: -self.y }
    }

    /// The 90-degree counter-clockwise rotation `(-y, x)`; not normalized.
    pub fn normal(self) -> (r: Point)
        requires
            fits(self@, OP_MAX as int),
        ensures
            r@ == perp_m(self@),
    {
        Point { x: -self.y, y: self.x }
    }

    /// Scalar multiplication.
    pub fn scale(self, k: i64) -> (r: Point)
        requires
            fits(self@, OP_MAX as int),
            -OP_MAX <= k <= OP_MAX,
        ensures
            r@ == (k * self@.0, k * self@.1),
    {
        proof {
            lemma_mul_bounds(k as int, self@.0, OP_MAX as int, OP_MAX as int);
            lemma_mul_bounds(k as int, self@.1, OP_MAX as int, OP_MAX as int);
        }
        Point { x: k * self.x, y: k * self.y }
    }

    pub fn dot(self, o: Point) -> (r: i64)
        requires
            fits(self@, OP_MAX as int),
            fits(o@, OP_MAX as int),
        ensures
            r == dot_m(self@, o@),
    {
        proof {
            lemma_mul_bounds(self.x as int, o.x as int, OP_MAX as int, OP_MAX as int);
            lemma_mul_bounds(self.y as int, o.y as int, OP_MAX as int, OP_MAX as int);
        }
        self.x * o.x + self.y * o.y
    }

    /// The euclidean length, rounded down to an integer.
    pub fn norm(self) -> (r: i64)
        requires
            fits(self@, OP_MAX as int),
        ensures
            r == sqrt_floor(dot_m(self@, self@)),
            0 <= r <= 0x8000_0000,
    {
        let d = self.dot(self);
        proof {
            lemma_sq_nonneg(self@.0);
            lemma_sq_nonneg(self@.1);
            lemma_mul_bounds(self@.0, self@.0, OP_MAX as int, OP_MAX as int);
            lemma_mul_bounds(self@.1, self@.1, OP_MAX as int, OP_MAX as int);
        }
        let r = isqrt(d as u64);
        proof {
            lemma_sqrt_is(d as int, r as int);
        }
        r as i64
    }

    /// Fixed-point rotation by the angle whose cosine and sine are
    /// `c / FIX_ONE` and `s / FIX_ONE`.
    pub fn rotate(self, c: i64, s: i64) -> (r: Point)
        requires
            fits(self@, OP_MAX as int),
            -FIX_ONE <= c <= FIX_ONE,
            -FIX_ONE <= s <= FIX_ONE,
        ensures
            r@ == rot_m(self@, c as int, s as int),
            abs_m(r@.0) <= abs_m(self@.0) + abs_m(self@.1),
            abs_m(r@.1) <= abs_m(self@.0) + abs_m(self@.1),
    {
        let ghost ax = abs_m(self@.0);
        let ghost ay = abs_m(self@.1);
        proof {
            lemma_mul_bounds(c as int, self@.0, FIX_ONE as int, OP_MAX as int);
            lemma_mul_bounds(s as int, self@.1, FIX_ONE as int, OP_MAX as int);
            lemma_mul_bounds(s as int, self@.0, FIX_ONE as int, OP_MAX as int);
            lemma_mul_bounds(c as int, self@.1, FIX_ONE as int, OP_MAX as int);
            lemma_mul_bounds(c as int, self@.0, FIX_ONE as int, ax);
            lemma_mul_bounds(s as int, self@.1, FIX_ONE as int, ay);
            lemma_mul_bounds(s as int, self@.0, FIX_ONE as int, ax);
            lemma_mul_bounds(c as int, self@.1, FIX_ONE as int, ay);
            assert((FIX_ONE as int) * ax + (FIX_ONE as int) * ay == (FIX_ONE as int) * (ax + ay))
                by (nonlinear_arith);
            lemma_tdiv_bound(c as int * self@.0 - s as int * self@.1, FIX_ONE as int, ax + ay);
            lemma_tdiv_bound(s as int * self@.0 + c as int * self@.1, FIX_ONE as int, ax + ay);
        }
        let nx = c * self.x - s * self.y;
        let ny = s * self.x + c * self.y;
        let rx: i64 = if nx >= 0 {
            ((nx as u64) / (FIX_ONE as u64)) as i64
        } else {
            -((((-nx) as u64) / (FIX_ONE as u64)) as i64)
        };
        let ry: i64 = if ny >= 0 {
            ((ny as u64) / (FIX_ONE as u64)) as i64
        } else {
            -((((-ny) as u64) / (FIX_ONE as u64)) as i64)
        };
        Point { x: rx, y: ry }
    }

    /// `self` rescaled to euclidean length `len` (componentwise, rounded
    /// toward zero); the zero vector stays zero.
    pub fn scale_toward(self, len: i64) -> (r: Point)
        requires
            fits(self@, OP_MAX as int),
            0 <= len <= RADIUS_MAX,
        ensures
            r@ == scale_m(self@, len as int),
            -len <= r.x <= len,
            -len <= r.y <= len,
    {
        let d = self.dot(self);
        proof {
            lemma_sq_nonneg(self@.0);
            lemma_sq_nonneg(self@.1);
            lemma_mul_bounds(self@.0, self@.0, OP_MAX as int, OP_MAX as int);
            lemma_mul_bounds(self@.1, self@.1, OP_MAX as int, OP_MAX as int);
        }
        let s = isqrt(d as u64);
        proof {
            lemma_sqrt_is(d as int, s as int);
            lemma_scale_small(self@, len as int);
        }
        if s == 0 {
            Point { x: 0, y: 0 }
        } else {
            let ax: u64 = if self.x >= 0 {
                self.x as u64
            } else {
                (-self.x) as u64
            };
            let ay: u64 = if self.y >= 0 {
                self.y as u64
            } else {
                (-self.y) as u64
            };
            proof {
                lemma_mul_bounds(ax as int, len as int, OP_MAX as int, RADIUS_MAX as int);
                lemma_mul_bounds(ay as int, len as int, OP_MAX as int, RADIUS_MAX as int);
                lemma_div_basic(ax as int * len as int, s as int);
                lemma_div_basic(ay as int * len as int, s as int);
            }
            let qx = (ax * (len as u64)) / s;
            let qy = (ay * (len as u64)) / s;
            let rx: i64 = if self.x >= 0 {
                qx as i64
            } else {
                -(qx as i64)
            };
            let ry: i64 = if self.y >= 0 {
                qy as i64
            } else {
                -(qy as i64)
            };
            Point { x: rx, y: ry }
        }
    }
}

} // verus!
