//! Decimal fixed-point scalars.
//!
//! A [`Scalar`] stores a signed number as `raw` ten-thousandths, so one unit
//! of `raw` is `1/10_000` and the representable resolution is `0.0001`.
//! Every operation's result is pinned exactly by its contract, phrased over
//! truncating integer division ([`tdiv`]), which is what Rust's `/` computes
//! on machine integers.

use vstd::prelude::*;

verus! {

use vstd::arithmetic::div_mod::{
    lemma_div_is_ordered, lemma_div_is_ordered_by_denominator, lemma_div_multiples_vanish,
    lemma_div_nonincreasing, lemma_div_pos_is_pos,
};

/// Number of `raw` units in one; the fixed-point scale.
pub const SCALE: i64 = 10_000;

/// Largest `raw` magnitude the multiplying kernel operations accept
/// (`RAW_LIMIT * RAW_LIMIT` still fits in an `i64`).
pub const RAW_LIMIT: i64 = 3_000_000_000;

/// Largest `raw` magnitude a parsed model coordinate may have
/// (a value magnitude of `100_000.0`), chosen so that sums and centered
/// differences of coordinates stay within [`RAW_LIMIT`].
pub const INPUT_LIMIT: i64 = 1_000_000_000;

/// Truncating (round-toward-zero) division, the semantics of `/` on `i64`.
/// Spec-level `/` is Euclidean, so the negative cases are spelled out.
pub open spec fn tdiv(a: int, b: int) -> int {
    if a >= 0 && b > 0 {
        a / b
    } else if a < 0 && b > 0 {
        -((-a) / b)
    } else if a >= 0 && b < 0 {
        -(a / (-b))
    } else {
        (-a) / (-b)
    }
}

/// The `raw` value of the fixed-point product of two `raw` values.
pub open spec fn scaled_mul(a: int, b: int) -> int {
    tdiv(a * b, SCALE as int)
}

/// The `raw` value of the fixed-point quotient of two `raw` values.
pub open spec fn scaled_div(a: int, b: int) -> int {
    tdiv(a * (SCALE as int), b)
}

/// Truncating division never grows the magnitude, and the result's sign
/// follows the signs of the operands.
pub proof fn lemma_tdiv_bounds(a: int, b: int)
    requires
        b != 0,
    ensures
        a >= 0 && b > 0 ==> 0 <= tdiv(a, b) <= a,
        a <= 0 && b > 0 ==> a <= tdiv(a, b) <= 0,
        a >= 0 && b < 0 ==> -a <= tdiv(a, b) <= 0,
        a <= 0 && b < 0 ==> 0 <= tdiv(a, b) <= -a,
{
    let m = if a >= 0 {
        a
    } else {
        -a
    };
    let d = if b > 0 {
        b
    } else {
        -b
    };
    lemma_div_pos_is_pos(m, d);
    lemma_div_nonincreasing(m, d);
    if d > 1 {
        lemma_div_is_ordered_by_denominator(m, 1, d);
        assert(m / 1 == m) by {
            lemma_div_multiples_vanish(m, 1);
        }
    }
}

/// A magnitude bound on the dividend yields a magnitude bound on the
/// truncating quotient.
pub proof fn lemma_tdiv_mag(a: int, m: int, b: int)
    requires
        b > 0,
        -m <= a <= m,
    ensures
        -(m / b) <= tdiv(a, b) <= m / b,
{
    lemma_div_pos_is_pos(m, b);
    if a >= 0 {
        lemma_div_is_ordered(a, m, b);
        lemma_div_pos_is_pos(a, b);
    } else {
        lemma_div_is_ordered(-a, m, b);
        lemma_div_pos_is_pos(-a, b);
    }
}

/// `tdiv(c * x, c) == x` for positive `c`: multiplying and dividing by the
/// same positive constant is exact.
pub proof fn lemma_tdiv_cancel(x: int, c: int)
    requires
        c > 0,
    ensures
        tdiv(c * x, c) == x,
        tdiv(x * c, c) == x,
{
    if x >= 0 {
        lemma_div_multiples_vanish(x, c);
    } else {
        lemma_div_multiples_vanish(-x, c);
        assert(-(c * x) == c * (-x)) by (nonlinear_arith);
    }
    assert(x * c == c * x) by (nonlinear_arith);
}

/// Truncating division of `a` by `b`, computed through `checked_div`.
fn div_trunc(a: i64, b: i64) -> (r: i64)
    requires
        b != 0,
        !(a == i64::MIN && b == -1),
    ensures
        r == tdiv(a as int, b as int),
{
    proof {
        lemma_tdiv_bounds(a as int, b as int);
        if a == i64::MIN {
            if b > 0 {
                lemma_div_is_ordered_by_denominator(-(a as int), 1, b as int);
            } else {
                lemma_div_is_ordered_by_denominator(-(a as int), 2, -(b as int));
            }
        }
    }
    a.checked_div(b).unwrap()
}

/// The scalar with the given raw value; spec-level constructor.
pub open spec fn sc(v: int) -> Scalar {
    Scalar { raw: v as i64 }
}

/// A decimal fixed-point number worth `raw / 10_000`.
#[derive(Clone, Copy, Debug, PartialEq, Eq, Hash)]
pub struct Scalar {
    pub raw: i64,
}

impl Scalar {
    /// The raw magnitude stays within `b`.
    pub open spec fn bounded(self, b: int) -> bool {
        -b <= self.raw <= b
    }

    pub fn zero() -> (r: Self)
        ensures
            r.raw == 0,
    {
        Scalar { raw: 0 }
    }

    pub fn one() -> (r: Self)
        ensures
            r.raw == SCALE,
    {
        Scalar { raw: SCALE }
    }

    pub fn from_raw(raw: i64) -> (r: Self)
        ensures
            r.raw == raw,
    {
        Scalar { raw }
    }

    /// The fixed-point number worth exactly the integer `v`.
    pub fn from_int(v: i64) -> (r: Self)
        requires
            -922_337_203_685_477 <= v <= 922_337_203_685_477,
        ensures
            r.raw == v * (SCALE as int),
    {
        Scalar { raw: v * SCALE }
    }

    pub fn add(self, rhs: Self) -> (r: Self)
        requires
            i64::MIN <= self.raw + rhs.raw <= i64::MAX,
        ensures
            r.raw == self.raw + rhs.raw,
    {
        Scalar { raw: self.raw + rhs.raw }
    }

    pub fn sub(self, rhs: Self) -> (r: Self)
        requires
            i64::MIN <= self.raw - rhs.raw <= i64::MAX,
        ensures
            r.raw == self.raw - rhs.raw,
    {
        Scalar { raw: self.raw - rhs.raw }
    }

    pub fn neg(self) -> (r: Self)
        requires
            self.raw != i64::MIN,
        ensures
            r.raw == -self.raw,
    {
        Scalar { raw: -self.raw }
    }

    /// Fixed-point multiplication; truncates toward zero at the last digit.
    pub fn mul(self, rhs: Self) -> (r: Self)
        requires
            -i64::MAX <= self.raw * rhs.raw <= i64::MAX,
        ensures
            r.raw == scaled_mul(self.raw as int, rhs.raw as int),
    {
        proof {
            lemma_tdiv_bounds(self.raw * rhs.raw, SCALE as int);
        }
        let p = self.raw * rhs.raw;
        Scalar { raw: div_trunc(p, SCALE) }
    }

    /// Fixed-point division; truncates toward zero at the last digit.
    pub fn div(self, rhs: Self) -> (r: Self)
        requires
            rhs.raw != 0,
            -i64::MAX <= self.raw * (SCALE as int) <= i64::MAX,
        ensures
            r.raw == scaled_div(self.raw as int, rhs.raw as int),
    {
        proof {
            lemma_tdiv_bounds(self.raw * (SCALE as int), rhs.raw as int);
        }
        let p = self.raw * SCALE;
        Scalar { raw: div_trunc(p, rhs.raw) }
    }

    /// The smaller of the two numbers (by value, i.e. by `raw`).
    pub fn min(self, rhs: Self) -> (r: Self)
        ensures
            r == (if self.raw <= rhs.raw {
                self
            } else {
                rhs
            }),
    {
        if self.raw <= rhs.raw {
            self
        } else {
            rhs
        }
    }

    /// The larger of the two numbers (by value, i.e. by `raw`).
    pub fn max(self, rhs: Self) -> (r: Self)
        ensures
            r == (if self.raw >= rhs.raw {
                self
            } else {
                rhs
            }),
    {
        if self.raw >= rhs.raw {
            self
        } else {
            rhs
        }
    }

    /// The number clamped to `[-1, 1]`; used before [`Scalar::acos`], whose
    /// mathematical domain that interval is.
    pub fn clamp_unit(self) -> (r: Self)
        ensures
            r.raw == clamp_unit_raw(self.raw as int),
    {
        if self.raw > SCALE {
            Scalar { raw: SCALE }
        } else if self.raw < -SCALE {
            Scalar { raw: -SCALE }
        } else {
            self
        }
    }

    /// Truncated Maclaurin approximation of the arccosine,
    /// `pi/2 - x - x^3/6`, exact in fixed point as stated by [`acos_raw`].
    pub fn acos(self) -> (r: Self)
        requires
            -TRIG_LIMIT <= self.raw <= TRIG_LIMIT,
        ensures
            r.raw == acos_raw(self.raw as int),
    {
        let x = self.raw;
        proof {
            assert(0 <= x * x <= 10_000_000_000) by (nonlinear_arith)
                requires -100_000 <= x <= 100_000;
            lemma_tdiv_bounds(x * x, SCALE as int);
        }
        let x2 = div_trunc(x * x, SCALE);
        proof {
            assert(-1_000_000_000_000 <= x2 * x <= 1_000_000_000_000) by (nonlinear_arith)
                requires 0 <= x2 <= 1_000_000 && -100_000 <= x <= 100_000;
            lemma_tdiv_bounds(x2 * x, SCALE as int);
        }
        let x3 = div_trunc(x2 * x, SCALE);
        proof {
            lemma_tdiv_bounds(x3 as int, 6);
        }
        Scalar { raw: HALF_PI_RAW - x - div_trunc(x3, 6) }
    }
}

/// Raw value of one half of pi at the fixed-point scale.
pub const HALF_PI_RAW: i64 = 15_708;

/// Raw value of pi at the fixed-point scale.
pub const PI_RAW: i64 = 31_416;

/// Largest raw magnitude (ten radians) the trigonometric approximations
/// accept; keeps every intermediate product inside an `i64`.
pub const TRIG_LIMIT: i64 = 100_000;

/// `x` clamped to the raw interval `[-SCALE, SCALE]`, i.e. to `[-1, 1]`.
pub open spec fn clamp_unit_raw(x: int) -> int {
    if x > SCALE as int {
        SCALE as int
    } else if x < -(SCALE as int) {
        -(SCALE as int)
    } else {
        x
    }
}

/// Raw value of the truncated cosine series `1 - x^2/2 + x^4/24`.
pub open spec fn cos_raw(x: int) -> int {
    let x2 = scaled_mul(x, x);
    let x4 = scaled_mul(x2, x2);
    (SCALE as int) - tdiv(x2, 2) + tdiv(x4, 24)
}

/// Raw value of the truncated sine series `x - x^3/6`.
pub open spec fn sin_raw(x: int) -> int {
    let x2 = scaled_mul(x, x);
    let x3 = scaled_mul(x2, x);
    x - tdiv(x3, 6)
}

/// Raw value of the truncated arccosine series `pi/2 - x - x^3/6`.
pub open spec fn acos_raw(x: int) -> int {
    let x2 = scaled_mul(x, x);
    let x3 = scaled_mul(x2, x);
    (HALF_PI_RAW as int) - x - tdiv(x3, 6)
}

/// Raw value of `x` degrees converted to radians, `x * pi / 180`.
pub open spec fn to_radians_raw(x: int) -> int {
    tdiv(x * (PI_RAW as int), 1_800_000)
}

/// Floor of the square root of `n`, defined by counting upward.
pub open spec fn sqrt_floor(n: int) -> int
    decreases n,
{
    if n <= 0 {
        0
    } else {
        let p = sqrt_floor(n - 1);
        if (p + 1) * (p + 1) <= n {
            p + 1
        } else {
            p
        }
    }
}

/// [`sqrt_floor`] is the unique nonnegative root with
/// `r * r <= n < (r + 1) * (r + 1)`.
pub proof fn lemma_sqrt_floor(n: int)
    requires
        n >= 0,
    ensures
        sqrt_floor(n) >= 0,
        sqrt_floor(n) * sqrt_floor(n) <= n,
        n < (sqrt_floor(n) + 1) * (sqrt_floor(n) + 1),
    decreases n,
{
    if n > 0 {
        lemma_sqrt_floor(n - 1);
        let p = sqrt_floor(n - 1);
        if (p + 1) * (p + 1) <= n {
            assert((p + 1) * (p + 1) < (p + 2) * (p + 2)) by (nonlinear_arith)
                requires p >= 0;
        }
    }
}

/// Any nonnegative `r` with `r * r <= n < (r + 1) * (r + 1)` equals
/// [`sqrt_floor`] of `n`.
pub proof fn lemma_sqrt_floor_unique(n: int, r: int)
    requires
        n >= 0,
        r >= 0,
        r * r <= n,
        n < (r + 1) * (r + 1),
    ensures
        r == sqrt_floor(n),
{
    lemma_sqrt_floor(n);
    let s = sqrt_floor(n);
    if r < s {
        assert((r + 1) * (r + 1) <= s * s) by (nonlinear_arith)
            requires 0 <= r < s;
    }
    if s < r {
        assert((s + 1) * (s + 1) <= r * r) by (nonlinear_arith)
            requires 0 <= s < r;
    }
}

/// Binary search for the integer square root.
fn isqrt64(n: u64) -> (r: u64)
    requires
        n <= 0x7fff_ffff_ffff_ffff,
    ensures
        r == sqrt_floor(n as int),
        r <= 3_037_000_499,
{
    let mut lo: u64 = 0;
    let mut hi: u64 = 3_037_000_500;
    while lo + 1 < hi
        invariant
            lo < hi <= 3_037_000_500,
            lo * lo <= n,
            n < hi * hi,
        decreases hi - lo,
    {
        let mid = lo + (hi - lo) / 2;
        proof {
            assert(mid * mid <= 3_037_000_499 * 3_037_000_499) by (nonlinear_arith)
                requires 0 <= mid <= 3_037_000_499;
        }
        if mid * mid <= n {
            lo = mid;
        } else {
            hi = mid;
        }
    }
    proof {
        lemma_sqrt_floor_unique(n as int, lo as int);
    }
    lo
}

/// Square-root capability, for scalar types that can take one.
pub trait Sqrt: Sized {
    /// Inputs the square root accepts.
    spec fn sqrt_req(self) -> bool;

    /// The exact value the square root returns.
    spec fn sqrt_spec(self) -> Self;

    fn sqrt(self) -> (r: Self)
        requires
            self.sqrt_req(),
        ensures
            r == self.sqrt_spec(),
    ;
}

impl Sqrt for Scalar {
    open spec fn sqrt_req(self) -> bool {
        0 <= self.raw <= 922_337_203_685_477
    }

    /// Floor square root at the fixed-point scale:
    /// `sqrt(raw / SCALE) * SCALE == sqrt(raw * SCALE)`.
    open spec fn sqrt_spec(self) -> Self {
        Scalar { raw: sqrt_floor(self.raw * (SCALE as int)) as i64 }
    }

    fn sqrt(self) -> (r: Self) {
        let n = self.raw * SCALE;
        let s = isqrt64(n as u64);
        Scalar { raw: s as i64 }
    }
}

/// Cosine capability.
pub trait Cos: Sized {
    /// Inputs the cosine accepts.
    spec fn cos_req(self) -> bool;

    /// The exact value the cosine returns.
    spec fn cos_spec(self) -> Self;

    fn cos(self) -> (r: Self)
        requires
            self.cos_req(),
        ensures
            r == self.cos_spec(),
    ;
}

impl Cos for Scalar {
    open spec fn cos_req(self) -> bool {
        -TRIG_LIMIT <= self.raw <= TRIG_LIMIT
    }

    open spec fn cos_spec(self) -> Self {
        Scalar { raw: cos_raw(self.raw as int) as i64 }
    }

    /// Truncated Maclaurin series `1 - x^2/2 + x^4/24`, exact in fixed
    /// point as stated by [`cos_raw`]; the argument is in radians.
    fn cos(self) -> (r: Self) {
        let x = self.raw;
        proof {
            assert(0 <= x * x <= 10_000_000_000) by (nonlinear_arith)
                requires -100_000 <= x <= 100_000;
            lemma_tdiv_bounds(x * x, SCALE as int);
        }
        let x2 = div_trunc(x * x, SCALE);
        proof {
            assert(0 <= x2 * x2 <= 1_000_000_000_000) by (nonlinear_arith)
                requires 0 <= x2 <= 1_000_000;
            lemma_tdiv_bounds(x2 * x2, SCALE as int);
        }
        let x4 = div_trunc(x2 * x2, SCALE);
        proof {
            lemma_tdiv_bounds(x2 as int, 2);
            lemma_tdiv_bounds(x4 as int, 24);
        }
        Scalar { raw: SCALE - div_trunc(x2, 2) + div_trunc(x4, 24) }
    }
}

/// Sine capability.
pub trait Sin: Sized {
    /// Inputs the sine accepts.
    spec fn sin_req(self) -> bool;

    /// The exact value the sine returns.
    spec fn sin_spec(self) -> Self;

    fn sin(self) -> (r: Self)
        requires
            self.sin_req(),
        ensures
            r == self.sin_spec(),
    ;
}

impl Sin for Scalar {
    open spec fn sin_req(self) -> bool {
        -TRIG_LIMIT <= self.raw <= TRIG_LIMIT
    }

    open spec fn sin_spec(self) -> Self {
        Scalar { raw: sin_raw(self.raw as int) as i64 }
    }

    /// Truncated Maclaurin series `x - x^3/6`, exact in fixed point as
    /// stated by [`sin_raw`]; the argument is in radians.
    fn sin(self) -> (r: Self) {
        let x = self.raw;
        proof {
            assert(0 <= x * x <= 10_000_000_000) by (nonlinear_arith)
                requires -100_000 <= x <= 100_000;
            lemma_tdiv_bounds(x * x, SCALE as int);
        }
        let x2 = div_trunc(x * x, SCALE);
        proof {
            assert(-1_000_000_000_000 <= x2 * x <= 1_000_000_000_000) by (nonlinear_arith)
                requires 0 <= x2 <= 1_000_000 && -100_000 <= x <= 100_000;
            lemma_tdiv_bounds(x2 * x, SCALE as int);
        }
        let x3 = div_trunc(x2 * x, SCALE);
        proof {
            lemma_tdiv_bounds(x3 as int, 6);
        }
        Scalar { raw: x - div_trunc(x3, 6) }
    }
}

/// Tangent capability.
pub trait Tan: Sized {
    /// Inputs the tangent accepts.
    spec fn tan_req(self) -> bool;

    /// The exact value the tangent returns.
    spec fn tan_spec(self) -> Self;

    fn tan(self) -> (r: Self)
        requires
            self.tan_req(),
        ensures
            r == self.tan_spec(),
    ;
}

impl Tan for Scalar {
    open spec fn tan_req(self) -> bool {
        -TRIG_LIMIT <= self.raw <= TRIG_LIMIT && cos_raw(self.raw as int) != 0
    }

    /// The quotient of the truncated sine and cosine series.
    open spec fn tan_spec(self) -> Self {
        Scalar { raw: scaled_div(sin_raw(self.raw as int), cos_raw(self.raw as int)) as i64 }
    }

    fn tan(self) -> (r: Self) {
        proof {
            lemma_trig_raw_bounds(self.raw as int);
        }
        let s = self.sin();
        let c = self.cos();
        proof {
            lemma_tdiv_bounds(s.raw * (SCALE as int), c.raw as int);
        }
        s.div(c)
    }
}

/// Bounds of the truncated series on the accepted input range, used to show
/// the quotient in the tangent stays inside an `i64`.
pub proof fn lemma_trig_raw_bounds(x: int)
    requires
        -TRIG_LIMIT <= x <= TRIG_LIMIT,
    ensures
        -5_000_000 <= sin_raw(x) <= 5_000_000,
        -5_000_000 <= cos_raw(x) <= 5_000_000,
{
    assert(0 <= x * x <= 10_000_000_000) by (nonlinear_arith)
        requires -100_000 <= x <= 100_000;
    lemma_tdiv_bounds(x * x, SCALE as int);
    lemma_tdiv_mag(x * x, 10_000_000_000, SCALE as int);
    let x2 = scaled_mul(x, x);
    assert(0 <= x2 <= 1_000_000);
    assert(0 <= x2 * x2 <= 1_000_000_000_000) by (nonlinear_arith)
        requires 0 <= x2 <= 1_000_000;
    assert(-100_000_000_000 <= x2 * x <= 100_000_000_000) by (nonlinear_arith)
        requires 0 <= x2 <= 1_000_000 && -100_000 <= x <= 100_000;
    lemma_tdiv_mag(x2 * x2, 1_000_000_000_000, SCALE as int);
    lemma_tdiv_mag(x2 * x, 100_000_000_000, SCALE as int);
    let x4 = scaled_mul(x2, x2);
    let x3 = scaled_mul(x2, x);
    lemma_tdiv_mag(x2, 1_000_000, 2);
    lemma_tdiv_mag(x4, 100_000_000, 24);
    lemma_tdiv_mag(x3, 10_000_000, 6);
}

/// Degrees-to-radians capability.
pub trait ToRadians: Sized {
    /// Inputs the conversion accepts.
    spec fn to_radians_req(self) -> bool;

    /// The exact value the conversion returns.
    spec fn to_radians_spec(self) -> Self;

    fn to_radians(self) -> (r: Self)
        requires
            self.to_radians_req(),
        ensures
            r == self.to_radians_spec(),
    ;
}

impl ToRadians for Scalar {
    open spec fn to_radians_req(self) -> bool {
        -200_000_000_000_000 <= self.raw <= 200_000_000_000_000
    }

    /// Multiplication by the fixed-point value of `pi / 180`.
    open spec fn to_radians_spec(self) -> Self {
        Scalar { raw: to_radians_raw(self.raw as int) as i64 }
    }

    fn to_radians(self) -> (r: Self) {
        proof {
            lemma_tdiv_bounds(self.raw * (PI_RAW as int), 1_800_000);
        }
        Scalar { raw: div_trunc(self.raw * PI_RAW, 1_800_000) }
    }
}

} // verus!
