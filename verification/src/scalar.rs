//! Fixed-point numbers.
//!
//! A [`Scalar`] holds a signed count of millionths. Every operation is total:
//! it computes the exact integer result, rounds a quotient toward zero, and
//! clamps what does not fit into the range of `i64`.

use vstd::prelude::*;

verus! {

/// Raw units in one whole: the scalar with `raw == SCALE` is the number one.
pub const SCALE: i64 = 1_000_000;

/// The value of `i64` nearest to `x`.
pub open spec fn saturate(x: int) -> int {
    if x < i64::MIN {
        i64::MIN as int
    } else if x > i64::MAX {
        i64::MAX as int
    } else {
        x
    }
}

/// The quotient of `a` by `b`, rounded toward zero. Meaningful for `b != 0`.
pub open spec fn trunc_div(a: int, b: int) -> int {
    if b > 0 {
        if a >= 0 {
            a / b
        } else {
            -((-a) / b)
        }
    } else {
        if a >= 0 {
            -(a / (-b))
        } else {
            (-a) / (-b)
        }
    }
}

/// The quotient of `a` by `b`, rounded up. Meaningful for `a >= 0` and
/// `b > 0`.
pub open spec fn ceil_div(a: int, b: int) -> int {
    (a + b - 1) / b
}

/// The quotient rounded up is the least number whose multiple of the
/// divisor reaches the dividend.
pub proof fn lemma_ceil_div_bounds(a: int, b: int)
    requires
        a >= 0,
        b > 0,
    ensures
        (ceil_div(a, b) - 1) * b < a <= ceil_div(a, b) * b,
        ceil_div(a, b) >= 0,
        ceil_div(a, b) == 0 <==> a == 0,
{
    let q = ceil_div(a, b);
    vstd::arithmetic::div_mod::lemma_fundamental_div_mod(a + b - 1, b);
    vstd::arithmetic::div_mod::lemma_mod_bound(a + b - 1, b);
    assert(q * b == b * q && (q - 1) * b == b * q - b) by (nonlinear_arith);
    if q < 0 {
        assert(b * q <= -b) by (nonlinear_arith)
            requires
                q <= -1,
                b > 0,
        ;
    }
    if q == 0 {
        assert(b * q == 0);
    }
    if q >= 1 {
        assert(b * q >= b) by (nonlinear_arith)
            requires
                q >= 1,
                b > 0,
        ;
    }
}

/// The largest `r` with `r * r <= n`.
pub open spec fn int_sqrt(n: nat) -> nat
    decreases n,
{
    if n == 0 {
        0
    } else {
        let r = int_sqrt((n - 1) as nat);
        if (r + 1) * (r + 1) <= n {
            r + 1
        } else {
            r
        }
    }
}

/// `int_sqrt(n)` is the floor of the square root of `n`.
pub proof fn lemma_int_sqrt_bounds(n: nat)
    ensures
        int_sqrt(n) * int_sqrt(n) <= n,
        n < (int_sqrt(n) + 1) * (int_sqrt(n) + 1),
    decreases n,
{
    let s = int_sqrt(n);
    if n == 0 {
        assert(s == 0);
        assert(s * s == 0 && (s + 1) * (s + 1) == 1) by (nonlinear_arith)
            requires
                s == 0,
        ;
    } else {
        lemma_int_sqrt_bounds((n - 1) as nat);
        let r = int_sqrt((n - 1) as nat);
        if (r + 1) * (r + 1) <= n {
            assert(s == r + 1);
            assert(s * s == (r + 1) * (r + 1));
            assert((s + 1) * (s + 1) > s * s) by (nonlinear_arith)
                requires
                    s >= 0,
            ;
        } else {
            assert(s == r);
            assert(s * s == r * r);
            assert((s + 1) * (s + 1) == (r + 1) * (r + 1));
        }
    }
}

/// Squaring keeps the order of natural numbers.
pub proof fn lemma_square_monotonic(a: int, b: int)
    requires
        0 <= a <= b,
    ensures
        a * a <= b * b,
{
    assert(a * a <= b * b) by (nonlinear_arith)
        requires
            0 <= a <= b,
    ;
}

/// Only one number lies between the bounds that `lemma_int_sqrt_bounds` gives.
pub proof fn lemma_int_sqrt_unique(n: nat, r: nat)
    requires
        r * r <= n,
        n < (r + 1) * (r + 1),
    ensures
        r == int_sqrt(n),
{
    let s = int_sqrt(n);
    lemma_int_sqrt_bounds(n);
    if r < s {
        lemma_square_monotonic((r + 1) as int, s as int);
    } else if s < r {
        lemma_square_monotonic((s + 1) as int, r as int);
    }
}

/// The floor of the square root of `n`, found by bisection.
pub fn sqrt_floor(n: u128) -> (r: u64)
    ensures
        r == int_sqrt(n as nat),
{
    let mut lo: u128 = 0;
    let mut hi: u128 = 0x1_0000_0000_0000_0000;
    assert(0x1_0000_0000_0000_0000int * 0x1_0000_0000_0000_0000int > u128::MAX);
    while hi - lo > 1
        invariant
            lo < hi <= 0x1_0000_0000_0000_0000,
            lo * lo <= n < hi * hi,
        decreases hi - lo,
    {
        let mid: u128 = lo + (hi - lo) / 2;
        assert(mid * mid <= 0xffff_ffff_ffff_ffff * 0xffff_ffff_ffff_ffff) by (nonlinear_arith)
            requires
                0 <= mid <= 0xffff_ffff_ffff_ffff,
        ;
        assert(0xffff_ffff_ffff_ffffint * 0xffff_ffff_ffff_ffffint <= u128::MAX);
        if mid * mid <= n {
            lo = mid;
        } else {
            hi = mid;
        }
    }
    proof {
        lemma_int_sqrt_unique(n as nat, lo as nat);
    }
    lo as u64
}

/// A fixed-point number: `raw` millionths.
#[derive(Clone, Copy, Debug, PartialEq, Eq, Structural)]
pub struct Scalar {
    pub raw: i64,
}

impl View for Scalar {
    type V = int;

    open spec fn view(&self) -> int {
        self.raw as int
    }
}

fn narrow(x: i128) -> (r: i64)
    ensures
        r == saturate(x as int),
{
    if x < i64::MIN as i128 {
        i64::MIN
    } else if x > i64::MAX as i128 {
        i64::MAX
    } else {
        x as i64
    }
}

impl Scalar {
    pub open spec fn spec_zero() -> Scalar {
        Scalar { raw: 0 }
    }

    /// The number zero.
    #[verifier::when_used_as_spec(spec_zero)]
    pub fn zero() -> (r: Scalar)
        ensures
            r == Scalar::spec_zero(),
    {
        Scalar { raw: 0 }
    }

    pub open spec fn spec_one() -> Scalar {
        Scalar { raw: SCALE }
    }

    /// The number one.
    #[verifier::when_used_as_spec(spec_one)]
    pub fn one() -> (r: Scalar)
        ensures
            r == Scalar::spec_one(),
    {
        Scalar { raw: SCALE }
    }

    pub open spec fn spec_from_raw(raw: i64) -> Scalar {
        Scalar { raw }
    }

    /// The scalar of `raw` millionths.
    #[verifier::when_used_as_spec(spec_from_raw)]
    pub fn from_raw(raw: i64) -> (r: Scalar)
        ensures
            r == Scalar::spec_from_raw(raw),
    {
        Scalar { raw }
    }

    pub open spec fn spec_from_int(n: i32) -> Scalar {
        Scalar { raw: (n * SCALE) as i64 }
    }

    /// The whole number `n`, which always fits.
    #[verifier::when_used_as_spec(spec_from_int)]
    pub fn from_int(n: i32) -> (r: Scalar)
        ensures
            r == Scalar::spec_from_int(n),
            r@ == n * SCALE,
    {
        Scalar { raw: (n as i64) * SCALE }
    }

    pub open spec fn spec_add(self, rhs: Scalar) -> Scalar {
        Scalar { raw: saturate(self.raw + rhs.raw) as i64 }
    }

    /// The clamped sum.
    #[verifier::when_used_as_spec(spec_add)]
    pub fn add(self, rhs: Scalar) -> (r: Scalar)
        ensures
            r == self.spec_add(rhs),
    {
        Scalar { raw: narrow(self.raw as i128 + rhs.raw as i128) }
    }

    pub open spec fn spec_sub(self, rhs: Scalar) -> Scalar {
        Scalar { raw: saturate(self.raw - rhs.raw) as i64 }
    }

    /// The clamped difference.
    #[verifier::when_used_as_spec(spec_sub)]
    pub fn sub(self, rhs: Scalar) -> (r: Scalar)
        ensures
            r == self.spec_sub(rhs),
    {
        Scalar { raw: narrow(self.raw as i128 - rhs.raw as i128) }
    }

    pub open spec fn spec_neg(self) -> Scalar {
        Scalar { raw: saturate(-self.raw) as i64 }
    }

    /// The clamped negation: the least value turns into the greatest.
    #[verifier::when_used_as_spec(spec_neg)]
    pub fn neg(self) -> (r: Scalar)
        ensures
            r == self.spec_neg(),
    {
        Scalar { raw: narrow(-(self.raw as i128)) }
    }

    pub open spec fn spec_abs(self) -> Scalar {
        if self.raw < 0 {
            self.spec_neg()
        } else {
            self
        }
    }

    /// The clamped absolute value.
    #[verifier::when_used_as_spec(spec_abs)]
    pub fn abs(self) -> (r: Scalar)
        ensures
            r == self.spec_abs(),
    {
        if self.raw < 0 {
            self.neg()
        } else {
            self
        }
    }

    pub open spec fn spec_mul(self, rhs: Scalar) -> Scalar {
        Scalar { raw: saturate(trunc_div(self.raw * rhs.raw, SCALE as int)) as i64 }
    }

    /// The product, rounded toward zero to a millionth and clamped.
    #[verifier::when_used_as_spec(spec_mul)]
    pub fn mul(self, rhs: Scalar) -> (r: Scalar)
        ensures
            r == self.spec_mul(rhs),
    {
        let a: i128 = self.raw as i128;
        let b: i128 = rhs.raw as i128;
        assert(-0x4000_0000_0000_0000_0000_0000_0000_0000 <= a * b
            <= 0x4000_0000_0000_0000_0000_0000_0000_0000) by (nonlinear_arith)
            requires
                -0x8000_0000_0000_0000 <= a <= 0x8000_0000_0000_0000,
                -0x8000_0000_0000_0000 <= b <= 0x8000_0000_0000_0000,
        ;
        let p: i128 = a * b;
        Scalar { raw: narrow(p / (SCALE as i128)) }
    }

    pub open spec fn spec_div(self, rhs: Scalar) -> Scalar {
        if rhs.raw == 0 {
            if self.raw > 0 {
                Scalar { raw: i64::MAX }
            } else if self.raw < 0 {
                Scalar { raw: i64::MIN }
            } else {
                Scalar { raw: 0 }
            }
        } else {
            Scalar { raw: saturate(trunc_div(self.raw * SCALE, rhs.raw as int)) as i64 }
        }
    }

    /// The quotient, rounded toward zero to a millionth and clamped. A
    /// division by zero gives the extreme value with the sign of `self`, and
    /// zero for zero by zero.
    #[verifier::when_used_as_spec(spec_div)]
    pub fn div(self, rhs: Scalar) -> (r: Scalar)
        ensures
            r == self.spec_div(rhs),
    {
        if rhs.raw == 0 {
            if self.raw > 0 {
                Scalar { raw: i64::MAX }
            } else if self.raw < 0 {
                Scalar { raw: i64::MIN }
            } else {
                Scalar { raw: 0 }
            }
        } else {
            let a: i128 = self.raw as i128;
            let s: i128 = SCALE as i128;
            assert(-0x8000_0000_0000_0000 * 1_000_000 <= a * s <= 0x8000_0000_0000_0000 * 1_000_000)
                by (nonlinear_arith)
                requires
                    -0x8000_0000_0000_0000 <= a <= 0x8000_0000_0000_0000,
                    s == 1_000_000,
            ;
            let p: i128 = a * s;
            let d: i128 = rhs.raw as i128;
            if d > 0 {
                Scalar { raw: narrow(p / d) }
            } else {
                Scalar { raw: narrow(-(p / (-d))) }
            }
        }
    }

    pub open spec fn spec_mul_div(self, num: Scalar, den: Scalar) -> Scalar {
        if den.raw == 0 {
            if self.raw * num.raw > 0 {
                Scalar { raw: i64::MAX }
            } else if self.raw * num.raw < 0 {
                Scalar { raw: i64::MIN }
            } else {
                Scalar { raw: 0 }
            }
        } else {
            Scalar { raw: saturate(trunc_div(self.raw * num.raw, den.raw as int)) as i64 }
        }
    }

    /// The share `num / den` of `self`: the product with `num` divided by
    /// `den`, rounded toward zero only once, and clamped. A division by zero
    /// gives the extreme value with the sign of the product, and zero for
    /// zero by zero.
    #[verifier::when_used_as_spec(spec_mul_div)]
    pub fn mul_div(self, num: Scalar, den: Scalar) -> (r: Scalar)
        ensures
            r == self.spec_mul_div(num, den),
    {
        let a: i128 = self.raw as i128;
        let b: i128 = num.raw as i128;
        assert(-0x4000_0000_0000_0000_0000_0000_0000_0000 <= a * b
            <= 0x4000_0000_0000_0000_0000_0000_0000_0000) by (nonlinear_arith)
            requires
                -0x8000_0000_0000_0000 <= a <= 0x8000_0000_0000_0000,
                -0x8000_0000_0000_0000 <= b <= 0x8000_0000_0000_0000,
        ;
        let p: i128 = a * b;
        let d: i128 = den.raw as i128;
        if d == 0 {
            if p > 0 {
                Scalar { raw: i64::MAX }
            } else if p < 0 {
                Scalar { raw: i64::MIN }
            } else {
                Scalar { raw: 0 }
            }
        } else if d > 0 {
            Scalar { raw: narrow(p / d) }
        } else {
            Scalar { raw: narrow(-(p / (-d))) }
        }
    }

    pub open spec fn spec_min(self, rhs: Scalar) -> Scalar {
        if rhs.raw < self.raw {
            rhs
        } else {
            self
        }
    }

    /// The smaller of the two.
    #[verifier::when_used_as_spec(spec_min)]
    pub fn min(self, rhs: Scalar) -> (r: Scalar)
        ensures
            r == self.spec_min(rhs),
    {
        if rhs.raw < self.raw {
            rhs
        } else {
            self
        }
    }

    pub open spec fn spec_max(self, rhs: Scalar) -> Scalar {
        if rhs.raw > self.raw {
            rhs
        } else {
            self
        }
    }

    /// The larger of the two.
    #[verifier::when_used_as_spec(spec_max)]
    pub fn max(self, rhs: Scalar) -> (r: Scalar)
        ensures
            r == self.spec_max(rhs),
    {
        if rhs.raw > self.raw {
            rhs
        } else {
            self
        }
    }

    pub open spec fn spec_clamp(self, lo: Scalar, hi: Scalar) -> Scalar {
        if self.raw < lo.raw {
            lo
        } else if self.raw > hi.raw {
            hi
        } else {
            self
        }
    }

    /// `self` held between `lo` and `hi`; where `lo > hi`, a value below `lo`
    /// still gives `lo`.
    #[verifier::when_used_as_spec(spec_clamp)]
    pub fn clamp(self, lo: Scalar, hi: Scalar) -> (r: Scalar)
        ensures
            r == self.spec_clamp(lo, hi),
    {
        if self.raw < lo.raw {
            lo
        } else if self.raw > hi.raw {
            hi
        } else {
            self
        }
    }
}

/// A product with zero is zero.
pub proof fn lemma_mul_zero(a: Scalar)
    ensures
        a.mul(Scalar::zero()) == Scalar::zero(),
        Scalar::zero().mul(a) == Scalar::zero(),
{
    assert(a.raw * 0 == 0 && 0 * a.raw == 0) by (nonlinear_arith);
    assert(trunc_div(0, SCALE as int) == 0);
}

/// The product of two numbers of one sign is not negative, and the product
/// of two numbers of opposite signs is not positive.
pub proof fn lemma_mul_sign(a: Scalar, b: Scalar)
    ensures
        a@ >= 0 && b@ >= 0 ==> a.mul(b)@ >= 0,
        a@ <= 0 && b@ <= 0 ==> a.mul(b)@ >= 0,
        a@ >= 0 && b@ <= 0 ==> a.mul(b)@ <= 0,
        a@ <= 0 && b@ >= 0 ==> a.mul(b)@ <= 0,
{
    let p = a.raw * b.raw;
    assert((a@ >= 0 && b@ >= 0) || (a@ <= 0 && b@ <= 0) ==> p >= 0) by (nonlinear_arith)
        requires
            p == a.raw * b.raw,
    ;
    assert((a@ >= 0 && b@ <= 0) || (a@ <= 0 && b@ >= 0) ==> p <= 0) by (nonlinear_arith)
        requires
            p == a.raw * b.raw,
    ;
    lemma_trunc_div_sign(p, SCALE as int);
}

/// A quotient by a positive number has the sign of the dividend or is zero.
pub proof fn lemma_trunc_div_sign(a: int, b: int)
    requires
        b > 0,
    ensures
        a >= 0 ==> trunc_div(a, b) >= 0,
        a <= 0 ==> trunc_div(a, b) <= 0,
{
    if a >= 0 {
        vstd::arithmetic::div_mod::lemma_div_pos_is_pos(a, b);
    } else {
        vstd::arithmetic::div_mod::lemma_div_pos_is_pos(-a, b);
    }
}

/// A quotient by a number that is not negative has the sign of the dividend
/// or is zero; this holds of the division by zero too.
pub proof fn lemma_div_sign(a: Scalar, b: Scalar)
    requires
        b@ >= 0,
    ensures
        a@ >= 0 ==> a.div(b)@ >= 0,
        a@ <= 0 ==> a.div(b)@ <= 0,
{
    if b.raw != 0 {
        let p = a.raw * SCALE;
        assert((a.raw >= 0 ==> p >= 0) && (a.raw <= 0 ==> p <= 0)) by (nonlinear_arith)
            requires
                p == a.raw * SCALE,
                SCALE == 1_000_000,
        ;
        lemma_trunc_div_sign(p, b.raw as int);
    }
}

/// The quotient is rounded toward zero: what is left over has the sign of
/// the dividend and is smaller in size than the divisor.
pub proof fn lemma_trunc_div_remainder(a: int, b: int)
    requires
        b != 0,
    ensures
        ({
            let rest = a - trunc_div(a, b) * b;
            &&& a >= 0 ==> 0 <= rest
            &&& a <= 0 ==> rest <= 0
            &&& b > 0 ==> -b < rest < b
            &&& b < 0 ==> b < rest < -b
        }),
{
    let size_a = if a >= 0 { a } else { -a };
    let size_b = if b > 0 { b } else { -b };
    let q = size_a / size_b;
    vstd::arithmetic::div_mod::lemma_fundamental_div_mod(size_a, size_b);
    vstd::arithmetic::div_mod::lemma_mod_bound(size_a, size_b);
    let rest = size_a % size_b;
    assert(size_a == size_b * q + rest);
    let signed = trunc_div(a, b);
    assert(signed == if (a >= 0) == (b > 0) { q } else { -q });
    assert(signed * b == if a >= 0 { size_b * q } else { -(size_b * q) }) by (nonlinear_arith)
        requires
            signed == if (a >= 0) == (b > 0) { q } else { -q },
            size_b == if b > 0 { b } else { -b },
    ;
}

/// Multiplying by one changes nothing.
pub proof fn lemma_mul_one(a: Scalar)
    ensures
        a.mul(Scalar::one()) == a,
        Scalar::one().mul(a) == a,
{
    let p = a.raw * SCALE;
    assert(p == SCALE * a.raw) by (nonlinear_arith)
        requires
            p == a.raw * SCALE,
    ;
    lemma_trunc_div_exact(a.raw as int, SCALE as int);
}

/// A multiple of the divisor is divided without rounding.
pub proof fn lemma_trunc_div_exact(q: int, b: int)
    requires
        b > 0,
    ensures
        trunc_div(q * b, b) == q,
{
    let size = if q >= 0 { q } else { -q };
    vstd::arithmetic::div_mod::lemma_div_multiples_vanish(size, b);
    assert(q * b == if q >= 0 { b * size } else { -(b * size) }) by (nonlinear_arith)
        requires
            size == if q >= 0 { q } else { -q },
    ;
    assert(b * size >= 0) by (nonlinear_arith)
        requires
            size >= 0,
            b > 0,
    ;
    if q < 0 {
        assert(b * size > 0) by (nonlinear_arith)
            requires
                size > 0,
                b > 0,
        ;
    }
}

/// A share of zero is zero, and so is the share zero of any number.
pub proof fn lemma_mul_div_zero(a: Scalar, b: Scalar)
    ensures
        Scalar::zero().mul_div(a, b) == Scalar::zero(),
        a.mul_div(Scalar::zero(), b) == Scalar::zero(),
{
    assert(0 * a.raw == 0 && a.raw * 0 == 0) by (nonlinear_arith);
    if b.raw != 0 {
        assert(trunc_div(0, b.raw as int) == 0);
    }
}

/// A share `num / den` of a number that is not negative, with `num` between
/// zero and a positive `den`, is the exact share rounded down by less than a
/// millionth. It is not negative and not larger than the number, so it never
/// clamps.
pub proof fn lemma_mul_div_bounds(a: Scalar, num: Scalar, den: Scalar)
    requires
        a@ >= 0,
        0 <= num@ <= den@,
        den@ > 0,
    ensures
        0 <= a.mul_div(num, den)@ <= a@,
        a.mul_div(num, den)@ * den@ <= a@ * num@ < (a.mul_div(num, den)@ + 1) * den@,
{
    let p = a.raw * num.raw;
    let d = den.raw as int;
    let q = trunc_div(p, d);
    assert(0 <= p <= a.raw * d) by (nonlinear_arith)
        requires
            p == a.raw * num.raw,
            a.raw >= 0,
            0 <= num.raw <= d,
    ;
    lemma_trunc_div_remainder(p, d);
    lemma_trunc_div_sign(p, d);
    assert(q <= a.raw) by (nonlinear_arith)
        requires
            q * d <= p,
            p <= a.raw * d,
            d > 0,
    ;
    assert((q + 1) * d == q * d + d) by (nonlinear_arith);
}

} // verus!
