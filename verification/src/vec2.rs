//! Vectors of the plane over fixed-point coordinates.

use crate::scalar::{
    int_sqrt, lemma_int_sqrt_bounds, lemma_square_monotonic, saturate, sqrt_floor, trunc_div, Scalar,
    SCALE,
};
use vstd::prelude::*;

verus! {

/// A point or a direction of the plane.
#[derive(Clone, Copy, Debug, PartialEq, Eq, Structural)]
pub struct Vec2 {
    pub x: Scalar,
    pub y: Scalar,
}

/// The length, in raw units, of the vector with raw coordinates `x` and `y`:
/// the floor of the square root of `x * x + y * y`.
pub open spec fn raw_length(x: int, y: int) -> int {
    int_sqrt((x * x + y * y) as nat) as int
}

fn square(a: i64) -> (r: u128)
    ensures
        r == a * a,
        r <= 0x4000_0000_0000_0000_0000_0000_0000_0000,
{
    let w: i128 = a as i128;
    assert(0 <= w * w <= 0x4000_0000_0000_0000_0000_0000_0000_0000) by (nonlinear_arith)
        requires
            -0x8000_0000_0000_0000 <= w <= 0x8000_0000_0000_0000,
    ;
    (w * w) as u128
}

impl Vec2 {
    pub open spec fn spec_new(x: Scalar, y: Scalar) -> Vec2 {
        Vec2 { x, y }
    }

    /// The vector with the coordinates `x` and `y`.
    #[verifier::when_used_as_spec(spec_new)]
    pub fn new(x: Scalar, y: Scalar) -> (r: Vec2)
        ensures
            r == Vec2::spec_new(x, y),
    {
        Vec2 { x, y }
    }

    pub open spec fn spec_zero() -> Vec2 {
        Vec2 { x: Scalar::zero(), y: Scalar::zero() }
    }

    /// The origin.
    #[verifier::when_used_as_spec(spec_zero)]
    pub fn zero() -> (r: Vec2)
        ensures
            r == Vec2::spec_zero(),
    {
        Vec2 { x: Scalar::zero(), y: Scalar::zero() }
    }

    pub open spec fn spec_unit_x() -> Vec2 {
        Vec2 { x: Scalar::one(), y: Scalar::zero() }
    }

    /// The unit vector along the first axis.
    #[verifier::when_used_as_spec(spec_unit_x)]
    pub fn unit_x() -> (r: Vec2)
        ensures
            r == Vec2::spec_unit_x(),
    {
        Vec2 { x: Scalar::one(), y: Scalar::zero() }
    }

    pub open spec fn spec_unit_y() -> Vec2 {
        Vec2 { x: Scalar::zero(), y: Scalar::one() }
    }

    /// The unit vector along the second axis.
    #[verifier::when_used_as_spec(spec_unit_y)]
    pub fn unit_y() -> (r: Vec2)
        ensures
            r == Vec2::spec_unit_y(),
    {
        Vec2 { x: Scalar::zero(), y: Scalar::one() }
    }

    pub open spec fn spec_is_zero(self) -> bool {
        self.x.raw == 0 && self.y.raw == 0
    }

    /// Whether both coordinates are zero.
    #[verifier::when_used_as_spec(spec_is_zero)]
    pub fn is_zero(self) -> (r: bool)
        ensures
            r == self.spec_is_zero(),
    {
        self.x.raw == 0 && self.y.raw == 0
    }

    pub open spec fn spec_add(self, rhs: Vec2) -> Vec2 {
        Vec2 { x: self.x.add(rhs.x), y: self.y.add(rhs.y) }
    }

    /// The sum, coordinate by coordinate.
    #[verifier::when_used_as_spec(spec_add)]
    pub fn add(self, rhs: Vec2) -> (r: Vec2)
        ensures
            r == self.spec_add(rhs),
    {
        Vec2 { x: self.x.add(rhs.x), y: self.y.add(rhs.y) }
    }

    pub open spec fn spec_sub(self, rhs: Vec2) -> Vec2 {
        Vec2 { x: self.x.sub(rhs.x), y: self.y.sub(rhs.y) }
    }

    /// The difference, coordinate by coordinate.
    #[verifier::when_used_as_spec(spec_sub)]
    pub fn sub(self, rhs: Vec2) -> (r: Vec2)
        ensures
            r == self.spec_sub(rhs),
    {
        Vec2 { x: self.x.sub(rhs.x), y: self.y.sub(rhs.y) }
    }

    pub open spec fn spec_neg(self) -> Vec2 {
        Vec2 { x: self.x.neg(), y: self.y.neg() }
    }

    /// The opposite vector.
    #[verifier::when_used_as_spec(spec_neg)]
    pub fn neg(self) -> (r: Vec2)
        ensures
            r == self.spec_neg(),
    {
        Vec2 { x: self.x.neg(), y: self.y.neg() }
    }

    pub open spec fn spec_scale(self, k: Scalar) -> Vec2 {
        Vec2 { x: self.x.mul(k), y: self.y.mul(k) }
    }

    /// The vector stretched by the factor `k`.
    #[verifier::when_used_as_spec(spec_scale)]
    pub fn scale(self, k: Scalar) -> (r: Vec2)
        ensures
            r == self.spec_scale(k),
    {
        Vec2 { x: self.x.mul(k), y: self.y.mul(k) }
    }

    pub open spec fn spec_div(self, k: Scalar) -> Vec2 {
        Vec2 { x: self.x.div(k), y: self.y.div(k) }
    }

    /// The vector with each coordinate divided by `k`.
    #[verifier::when_used_as_spec(spec_div)]
    pub fn div(self, k: Scalar) -> (r: Vec2)
        ensures
            r == self.spec_div(k),
    {
        Vec2 { x: self.x.div(k), y: self.y.div(k) }
    }

    pub open spec fn spec_dot(self, rhs: Vec2) -> Scalar {
        self.x.mul(rhs.x).add(self.y.mul(rhs.y))
    }

    /// The scalar product: the sum of the two rounded products.
    #[verifier::when_used_as_spec(spec_dot)]
    pub fn dot(self, rhs: Vec2) -> (r: Scalar)
        ensures
            r == self.spec_dot(rhs),
    {
        self.x.mul(rhs.x).add(self.y.mul(rhs.y))
    }

    pub open spec fn spec_perp(self) -> Vec2 {
        Vec2 { x: self.y.neg(), y: self.x }
    }

    /// The vector turned by a quarter turn, from the first axis toward the
    /// second.
    #[verifier::when_used_as_spec(spec_perp)]
    pub fn perp(self) -> (r: Vec2)
        ensures
            r == self.spec_perp(),
    {
        Vec2 { x: self.y.neg(), y: self.x }
    }

    pub open spec fn spec_length(self) -> Scalar {
        Scalar { raw: saturate(raw_length(self.x.raw as int, self.y.raw as int)) as i64 }
    }

    /// The Euclidean length, rounded down to a millionth and clamped.
    #[verifier::when_used_as_spec(spec_length)]
    pub fn length(self) -> (r: Scalar)
        ensures
            r == self.spec_length(),
    {
        let n: u128 = square(self.x.raw) + square(self.y.raw);
        let root: u64 = sqrt_floor(n);
        if root > i64::MAX as u64 {
            Scalar { raw: i64::MAX }
        } else {
            Scalar { raw: root as i64 }
        }
    }

    pub open spec fn spec_distance(self, rhs: Vec2) -> Scalar {
        self.sub(rhs).length()
    }

    /// The length of the difference of the two.
    #[verifier::when_used_as_spec(spec_distance)]
    pub fn distance(self, rhs: Vec2) -> (r: Scalar)
        ensures
            r == self.spec_distance(rhs),
    {
        self.sub(rhs).length()
    }

    #[verifier::opaque]
    pub open spec fn spec_normalize(self) -> Vec2 {
        let x = self.x@ * magnification(self);
        let y = self.y@ * magnification(self);
        let len = raw_length(x, y);
        if len == 0 {
            Vec2::zero()
        } else {
            Vec2 {
                x: Scalar { raw: trunc_div(x * SCALE, len) as i64 },
                y: Scalar { raw: trunc_div(y * SCALE, len) as i64 },
            }
        }
    }

    /// The unit vector that points the way of `self`; the origin stays the
    /// origin.
    ///
    /// A short vector is first enlarged by its `magnification`, so that the
    /// length by which the coordinates are divided is known to better than
    /// one part in a million millions. The result is a unit vector as far as
    /// a millionth can tell, whatever the length of `self`.
    #[verifier::when_used_as_spec(spec_normalize)]
    pub fn normalize(self) -> (r: Vec2)
        ensures
            r == self.spec_normalize(),
            !self.is_zero() ==> nearly_unit(r) && points_along(r, self),
    {
        proof {
            reveal(Vec2::spec_normalize);
        }
        if self.x.raw == 0 && self.y.raw == 0 {
            assert(raw_length(0, 0) == 0) by {
                assert(0int * 0int + 0int * 0int == 0);
            }
            assert(self.x@ * magnification(self) == 0 && self.y@ * magnification(self) == 0)
                by (nonlinear_arith)
                requires
                    self.x@ == 0,
                    self.y@ == 0,
            ;
            return Vec2::zero();
        }
        let reach = larger(size(self.x.raw), size(self.y.raw));
        let factor: i128 = if reach < 0x20_0000 {
            0x200_0000_0000
        } else if reach < 0x200_0000_0000 {
            0x10_0000
        } else {
            1
        };
        assert(factor == magnification(self));
        let a: i128 = self.x.raw as i128;
        let b: i128 = self.y.raw as i128;
        assert(-0x8000_0000_0000_0000 <= a * factor <= 0x8000_0000_0000_0000
            && -0x8000_0000_0000_0000 <= b * factor <= 0x8000_0000_0000_0000) by (nonlinear_arith)
            requires
                factor == 0x200_0000_0000 && -0x20_0000 < a < 0x20_0000 && -0x20_0000 < b
                    < 0x20_0000 || factor == 0x10_0000 && -0x200_0000_0000 < a < 0x200_0000_0000
                    && -0x200_0000_0000 < b < 0x200_0000_0000 || factor == 1
                    && -0x8000_0000_0000_0000 <= a <= 0x8000_0000_0000_0000
                    && -0x8000_0000_0000_0000 <= b <= 0x8000_0000_0000_0000,
        ;
        let x: i128 = a * factor;
        let y: i128 = b * factor;
        assert(0 <= x * x <= 0x4000_0000_0000_0000_0000_0000_0000_0000 && 0 <= y * y
            <= 0x4000_0000_0000_0000_0000_0000_0000_0000) by (nonlinear_arith)
            requires
                -0x8000_0000_0000_0000 <= x <= 0x8000_0000_0000_0000,
                -0x8000_0000_0000_0000 <= y <= 0x8000_0000_0000_0000,
        ;
        let n: u128 = (x * x) as u128 + (y * y) as u128;
        let root: u64 = sqrt_floor(n);
        proof {
            lemma_normalize_nearly_unit(self);
            assert(root == raw_length(x as int, y as int));
        }
        let len: i128 = root as i128;
        assert(-0x8000_0000_0000_0000 * 1_000_000 <= x * 1_000_000 <= 0x8000_0000_0000_0000
            * 1_000_000 && -0x8000_0000_0000_0000 * 1_000_000 <= y * 1_000_000
            <= 0x8000_0000_0000_0000 * 1_000_000);
        let qx: i128 = (x * 1_000_000) / len;
        let qy: i128 = (y * 1_000_000) / len;
        assert(SCALE == 1_000_000);
        assert(qx == trunc_div(x * SCALE, len as int));
        assert(qy == trunc_div(y * SCALE, len as int));
        Vec2 { x: Scalar { raw: qx as i64 }, y: Scalar { raw: qy as i64 } }
    }
}

/// The size of `a`.
fn size(a: i64) -> (r: u64)
    ensures
        r == if a < 0 { -a } else { a as int },
{
    if a == i64::MIN {
        0x8000_0000_0000_0000
    } else if a < 0 {
        (-a) as u64
    } else {
        a as u64
    }
}

fn larger(a: u64, b: u64) -> (r: u64)
    ensures
        r == if a >= b { a } else { b },
{
    if a >= b {
        a
    } else {
        b
    }
}

/// The size of the larger coordinate of `v`.
pub open spec fn reach(v: Vec2) -> int {
    let size_x = if v.x@ < 0 { -v.x@ } else { v.x@ };
    let size_y = if v.y@ < 0 { -v.y@ } else { v.y@ };
    if size_x >= size_y {
        size_x
    } else {
        size_y
    }
}

/// The factor by which `normalize` enlarges `v` before it takes the length:
/// a power of two that brings the larger coordinate of a vector other than
/// the origin to two to the power of 41 millionths at least, and leaves it
/// within the range of `i64`.
pub open spec fn magnification(v: Vec2) -> int {
    if reach(v) < 0x20_0000 {
        0x200_0000_0000
    } else if reach(v) < 0x200_0000_0000 {
        0x10_0000
    } else {
        1
    }
}

/// A bound on coordinates, two to the power of 61 millionths, within which
/// sums and differences of two numbers never clamp.
pub const WORKING_RANGE: i64 = 0x2000_0000_0000_0000;

/// The square of the length of `v`, in raw units.
pub open spec fn raw_sq_norm(v: Vec2) -> int {
    v.x@ * v.x@ + v.y@ * v.y@
}

/// Whether `n` is a unit vector as far as a millionth can tell: no
/// coordinate is beyond one, and the square of the length falls short of one
/// by less than five millionths and exceeds it by no more than a millionth
/// of a millionth.
pub open spec fn nearly_unit(n: Vec2) -> bool {
    &&& -SCALE <= n.x@ <= SCALE
    &&& -SCALE <= n.y@ <= SCALE
    &&& SCALE * SCALE - 4 * SCALE - 1 <= raw_sq_norm(n) <= SCALE * SCALE + 1
}

/// Whether `n` points along `v`, coordinate by coordinate, and not across
/// it.
pub open spec fn points_along(n: Vec2, v: Vec2) -> bool {
    &&& v.x@ >= 0 ==> n.x@ >= 0
    &&& v.x@ <= 0 ==> n.x@ <= 0
    &&& v.y@ >= 0 ==> n.y@ >= 0
    &&& v.y@ <= 0 ==> n.y@ <= 0
    &&& n.x@ * v.x@ + n.y@ * v.y@ > 0
}

proof fn lemma_quotient_bounds(a: int, b: int)
    requires
        a >= 0,
        b > 0,
    ensures
        0 <= a / b,
        (a / b) * b <= a,
        a < (a / b + 1) * b,
{
    vstd::arithmetic::div_mod::lemma_fundamental_div_mod(a, b);
    vstd::arithmetic::div_mod::lemma_mod_bound(a, b);
    vstd::arithmetic::div_mod::lemma_div_pos_is_pos(a, b);
    assert((a / b) * b == b * (a / b)) by (nonlinear_arith);
    assert((a / b + 1) * b == b * (a / b) + b) by (nonlinear_arith);
}

proof fn lemma_square_strictly_monotonic(a: int, b: int)
    requires
        0 <= a < b,
    ensures
        a * a < b * b,
{
    assert(a * a < b * b) by (nonlinear_arith)
        requires
            0 <= a < b,
    ;
}

/// What holds of the quotients `qx` and `qy` of `ax * s` and `ay * s` by the
/// rounded length `len` of the vector `(ax, ay)`.
proof fn lemma_unit_quotients(ax: int, ay: int, len: int, s: int, qx: int, qy: int)
    requires
        0 <= ax,
        0 <= ay,
        1 <= len,
        2 <= s,
        len * len <= ax * ax + ay * ay < (len + 1) * (len + 1),
        0 <= qx,
        0 <= qy,
        qx * len <= ax * s < (qx + 1) * len,
        qy * len <= ay * s < (qy + 1) * len,
    ensures
        ax <= len,
        ay <= len,
        qx <= s,
        qy <= s,
        s * s - 4 * s - 1 <= qx * qx + qy * qy,
        (qx * qx + qy * qy) * len <= (len + 2) * s * s,
        qx * ax + qy * ay > 0,
{
    let n = ax * ax + ay * ay;
    assert(ax * ax <= n && ay * ay <= n) by (nonlinear_arith)
        requires
            n == ax * ax + ay * ay,
    ;
    if ax > len {
        lemma_square_monotonic(len + 1, ax);
    }
    if ay > len {
        lemma_square_monotonic(len + 1, ay);
    }
    assert(ax * s <= len * s) by (nonlinear_arith)
        requires
            0 <= ax <= len,
            0 <= s,
    ;
    assert(ay * s <= len * s) by (nonlinear_arith)
        requires
            0 <= ay <= len,
            0 <= s,
    ;
    assert(qx <= s) by (nonlinear_arith)
        requires
            qx * len <= len * s,
            len >= 1,
    ;
    assert(qy <= s) by (nonlinear_arith)
        requires
            qy * len <= len * s,
            len >= 1,
    ;
    // The squares of the quotients, times the square of the length.
    let lx = qx * len;
    let ly = qy * len;
    let ux = (qx + 1) * len;
    let uy = (qy + 1) * len;
    let px = ax * s;
    let py = ay * s;
    assert(0 <= lx && 0 <= ly) by (nonlinear_arith)
        requires
            lx == qx * len,
            ly == qy * len,
            0 <= qx,
            0 <= qy,
            1 <= len,
    ;
    assert(0 <= px && 0 <= py) by (nonlinear_arith)
        requires
            px == ax * s,
            py == ay * s,
            0 <= ax,
            0 <= ay,
            0 <= s,
    ;
    lemma_square_monotonic(lx, px);
    lemma_square_monotonic(ly, py);
    lemma_square_strictly_monotonic(px, ux);
    lemma_square_strictly_monotonic(py, uy);
    let ll = len * len;
    let ss = s * s;
    assert(ll >= 1 && ss >= 0) by (nonlinear_arith)
        requires
            ll == len * len,
            ss == s * s,
            len >= 1,
    ;
    assert(px * px + py * py == n * ss) by (nonlinear_arith)
        requires
            px == ax * s,
            py == ay * s,
            n == ax * ax + ay * ay,
            ss == s * s,
    ;
    assert(lx * lx + ly * ly == (qx * qx + qy * qy) * ll) by (nonlinear_arith)
        requires
            lx == qx * len,
            ly == qy * len,
            ll == len * len,
    ;
    assert(ux * ux + uy * uy == ((qx + 1) * (qx + 1) + (qy + 1) * (qy + 1)) * ll)
        by (nonlinear_arith)
        requires
            ux == (qx + 1) * len,
            uy == (qy + 1) * len,
            ll == len * len,
    ;
    let q = qx * qx + qy * qy;
    let r = (qx + 1) * (qx + 1) + (qy + 1) * (qy + 1);
    assert(r == q + 2 * qx + 2 * qy + 2) by (nonlinear_arith)
        requires
            q == qx * qx + qy * qy,
            r == (qx + 1) * (qx + 1) + (qy + 1) * (qy + 1),
    ;
    // From below: r * ll > n * ss >= ll * ss, so r > ss.
    assert(n * ss >= ll * ss) by (nonlinear_arith)
        requires
            n >= ll,
            ss >= 0,
    ;
    assert(r > ss) by (nonlinear_arith)
        requires
            r * ll > ll * ss,
            ll >= 1,
    ;
    // From above: q * ll <= n * ss <= (ll + 2 * len) * ss.
    assert((len + 1) * (len + 1) == ll + 2 * len + 1) by (nonlinear_arith)
        requires
            ll == len * len,
    ;
    assert(n * ss <= (ll + 2 * len) * ss) by (nonlinear_arith)
        requires
            n <= ll + 2 * len,
            ss >= 0,
    ;
    assert((ll + 2 * len) * ss == ((len + 2) * ss) * len) by (nonlinear_arith)
        requires
            ll == len * len,
    ;
    assert(q * ll == (q * len) * len) by (nonlinear_arith)
        requires
            ll == len * len,
    ;
    assert(q * len <= (len + 2) * ss) by (nonlinear_arith)
        requires
            (q * len) * len <= ((len + 2) * ss) * len,
            len >= 1,
    ;
    assert((len + 2) * ss == (len + 2) * s * s) by (nonlinear_arith)
        requires
            ss == s * s,
    ;
    // The longer coordinate gives a quotient of at least one.
    if ax >= ay {
        lemma_larger_coordinate(ax, ay, len, s, qx);
        assert(qx * ax > 0 && qy * ay >= 0) by (nonlinear_arith)
            requires
                qx >= 1,
                ax >= 1,
                qy >= 0,
                ay >= 0,
        ;
    } else {
        lemma_larger_coordinate(ay, ax, len, s, qy);
        assert(qy * ay > 0 && qx * ax >= 0) by (nonlinear_arith)
            requires
                qy >= 1,
                ay >= 1,
                qx >= 0,
                ax >= 0,
        ;
    }
}

proof fn lemma_larger_coordinate(a: int, b: int, len: int, s: int, q: int)
    requires
        0 <= b <= a,
        1 <= len,
        2 <= s,
        len * len <= a * a + b * b,
        0 <= q,
        a * s < (q + 1) * len,
    ensures
        a >= 1,
        q >= 1,
{
    assert(b * b <= a * a) by (nonlinear_arith)
        requires
            0 <= b <= a,
    ;
    assert(len * len >= 1) by (nonlinear_arith)
        requires
            len >= 1,
    ;
    assert(a >= 1) by (nonlinear_arith)
        requires
            a >= 0,
            1 <= 2 * (a * a),
    ;
    // len * len <= 2 a^2 <= (a s)^2, so len <= a s.
    let e = a * s;
    assert(e * e >= 4 * (a * a)) by (nonlinear_arith)
        requires
            e == a * s,
            s >= 2,
            a >= 0,
    ;
    assert(e >= 0) by (nonlinear_arith)
        requires
            e == a * s,
            s >= 2,
            a >= 0,
    ;
    if e < len {
        lemma_square_strictly_monotonic(e, len);
    }
    assert(q >= 1) by (nonlinear_arith)
        requires
            len <= e,
            e < (q + 1) * len,
            q >= 0,
            len >= 1,
    ;
}

/// The unit vector of any vector but the origin is a unit vector as far as
/// a millionth can tell, and points the same way.
pub proof fn lemma_normalize_nearly_unit(v: Vec2)
    requires
        !v.is_zero(),
    ensures
        raw_length(v.x@ * magnification(v), v.y@ * magnification(v)) >= 0x200_0000_0000,
        nearly_unit(v.normalize()),
        points_along(v.normalize(), v),
{
    reveal(Vec2::spec_normalize);
    let f = magnification(v);
    let m = reach(v);
    let dx = v.x@ * f;
    let dy = v.y@ * f;
    let ax = if dx < 0 { -dx } else { dx };
    let ay = if dy < 0 { -dy } else { dy };
    let vx = if v.x@ < 0 { -v.x@ } else { v.x@ };
    let vy = if v.y@ < 0 { -v.y@ } else { v.y@ };
    let s = SCALE as int;
    assert(ax == vx * f && ay == vy * f) by (nonlinear_arith)
        requires
            dx == v.x@ * f,
            dy == v.y@ * f,
            f > 0,
            ax == if dx < 0 { -dx } else { dx },
            ay == if dy < 0 { -dy } else { dy },
            vx == if v.x@ < 0 { -v.x@ } else { v.x@ },
            vy == if v.y@ < 0 { -v.y@ } else { v.y@ },
    ;
    let big = if ax >= ay { ax } else { ay };
    assert(big >= 0x200_0000_0000) by (nonlinear_arith)
        requires
            big == if vx >= vy { vx * f } else { vy * f } || big == if ax >= ay { ax } else { ay },
            ax == vx * f,
            ay == vy * f,
            m == if vx >= vy { vx } else { vy },
            m >= 1,
            f == 0x200_0000_0000 || f == 0x10_0000 && m >= 0x20_0000 || f == 1 && m
                >= 0x200_0000_0000,
            big == if ax >= ay { ax } else { ay },
    ;
    let n = (dx * dx + dy * dy) as nat;
    assert(dx * dx == ax * ax && dy * dy == ay * ay) by (nonlinear_arith)
        requires
            ax == if dx < 0 { -dx } else { dx },
            ay == if dy < 0 { -dy } else { dy },
    ;
    assert(ax * ax + ay * ay >= big * big && big * big >= 1) by (nonlinear_arith)
        requires
            ax >= 0,
            ay >= 0,
            big == if ax >= ay { ax } else { ay },
            big >= 1,
    ;
    let len = int_sqrt(n) as int;
    lemma_int_sqrt_bounds(n);
    assert(len >= big) by {
        if len < big {
            lemma_square_monotonic(len + 1, big);
        }
    }
    let qx = (ax * s) / len;
    let qy = (ay * s) / len;
    assert(ax * s >= 0 && ay * s >= 0) by (nonlinear_arith)
        requires
            ax >= 0,
            ay >= 0,
            s >= 0,
    ;
    lemma_quotient_bounds(ax * s, len);
    lemma_quotient_bounds(ay * s, len);
    lemma_unit_quotients(ax, ay, len, s, qx, qy);
    assert(dx * s == if dx < 0 { -(ax * s) } else { ax * s }) by (nonlinear_arith)
        requires
            ax == if dx < 0 { -dx } else { dx },
    ;
    assert(dy * s == if dy < 0 { -(ay * s) } else { ay * s }) by (nonlinear_arith)
        requires
            ay == if dy < 0 { -dy } else { dy },
    ;
    let tx = trunc_div(dx * s, len);
    let ty = trunc_div(dy * s, len);
    assert(tx == if dx < 0 { -qx } else { qx });
    assert(ty == if dy < 0 { -qy } else { qy });
    let unit = v.normalize();
    assert(unit.x@ == tx && unit.y@ == ty);
    let q = qx * qx + qy * qy;
    assert(unit.x@ * unit.x@ + unit.y@ * unit.y@ == q) by (nonlinear_arith)
        requires
            unit.x@ == if dx < 0 { -qx } else { qx },
            unit.y@ == if dy < 0 { -qy } else { qy },
            q == qx * qx + qy * qy,
    ;
    // The length is large enough for the excess to stay below two.
    let ss = s * s;
    assert(ss == 1_000_000_000_000);
    assert(q * len <= (len + 2) * ss) by (nonlinear_arith)
        requires
            q * len <= (len + 2) * s * s,
            ss == s * s,
    ;
    assert((len + 2) * ss == len * ss + 2 * ss) by (nonlinear_arith);
    assert(q * len <= (ss + 1) * len) by (nonlinear_arith)
        requires
            q * len <= len * ss + 2 * ss,
            2 * ss <= len,
    ;
    assert(q <= ss + 1) by (nonlinear_arith)
        requires
            q * len <= (ss + 1) * len,
            len >= 1,
    ;
    assert(unit.x@ * v.x@ == qx * vx && unit.y@ * v.y@ == qy * vy) by (nonlinear_arith)
        requires
            unit.x@ == if dx < 0 { -qx } else { qx },
            unit.y@ == if dy < 0 { -qy } else { qy },
            dx == v.x@ * f,
            dy == v.y@ * f,
            f > 0,
            vx == if v.x@ < 0 { -v.x@ } else { v.x@ },
            vy == if v.y@ < 0 { -v.y@ } else { v.y@ },
            qx >= 0,
            qy >= 0,
            dx < 0 ==> qx >= 0,
    ;
    assert(qx * vx + qy * vy > 0) by (nonlinear_arith)
        requires
            qx * ax + qy * ay > 0,
            ax == vx * f,
            ay == vy * f,
            f > 0,
            qx >= 0,
            qy >= 0,
            vx >= 0,
            vy >= 0,
    ;
    assert((v.x@ > 0 ==> dx > 0) && (v.x@ < 0 ==> dx < 0) && (v.y@ > 0 ==> dy > 0) && (v.y@ < 0
        ==> dy < 0) && (v.x@ == 0 ==> dx == 0) && (v.y@ == 0 ==> dy == 0)) by (nonlinear_arith)
        requires
            dx == v.x@ * f,
            dy == v.y@ * f,
            f > 0,
    ;
    assert(qx == 0 <== ax == 0) by (nonlinear_arith)
        requires
            qx * len <= ax * s,
            qx >= 0,
            len >= 1,
    ;
    assert(qy == 0 <== ay == 0) by (nonlinear_arith)
        requires
            qy * len <= ay * s,
            qy >= 0,
            len >= 1,
    ;
}

/// The opposite of a nearly unit vector is nearly unit.
pub proof fn lemma_neg_nearly_unit(n: Vec2)
    requires
        nearly_unit(n),
    ensures
        nearly_unit(n.neg()),
{
    assert(n.neg().x@ == -n.x@ && n.neg().y@ == -n.y@);
    assert((-n.x@) * (-n.x@) == n.x@ * n.x@ && (-n.y@) * (-n.y@) == n.y@ * n.y@)
        by (nonlinear_arith);
}

/// The unit vectors along the axes, and their opposites, are nearly unit.
pub proof fn lemma_axes_nearly_unit()
    ensures
        nearly_unit(Vec2::unit_x()),
        nearly_unit(Vec2::unit_y()),
        nearly_unit(Vec2::unit_x().neg()),
        nearly_unit(Vec2::unit_y().neg()),
{
    assert(SCALE * SCALE == 1_000_000_000_000);
    assert(raw_sq_norm(Vec2::unit_x()) == SCALE * SCALE + 0 * 0);
    assert(raw_sq_norm(Vec2::unit_y()) == 0 * 0 + SCALE * SCALE);
    lemma_neg_nearly_unit(Vec2::unit_x());
    lemma_neg_nearly_unit(Vec2::unit_y());
}

} // verus!
