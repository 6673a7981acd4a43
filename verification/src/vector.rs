//! Fixed-point 2-, 3- and 4-component vectors.
//!
//! Every operation's result is stated exactly, component by component, in
//! terms of the raw fixed-point arithmetic of [`crate::scalar`].

use vstd::prelude::*;

verus! {

use crate::scalar::{
    sc, scaled_div, scaled_mul, sqrt_floor, Scalar, Sqrt, lemma_tdiv_bounds, lemma_tdiv_mag,
    SCALE, RAW_LIMIT,
};
use vstd::arithmetic::div_mod::{
    lemma_div_multiples_vanish, lemma_fundamental_div_mod, lemma_mod_bound,
};

/// A two-component vector; the loader projects positions to the horizontal
/// plane with it when it synthesizes texture coordinates.
#[derive(Clone, Copy, Debug, PartialEq, Eq)]
pub struct Vector2 {
    pub x: Scalar,
    pub y: Scalar,
}

/// A three-component vector: positions, colors, normals.
#[derive(Clone, Copy, Debug, PartialEq, Eq)]
pub struct Vector3 {
    pub x: Scalar,
    pub y: Scalar,
    pub z: Scalar,
}

/// A four-component vector, the companion of [`crate::matrix::Mat4`].
#[derive(Clone, Copy, Debug, PartialEq, Eq)]
pub struct Vector4 {
    pub x: Scalar,
    pub y: Scalar,
    pub z: Scalar,
    pub w: Scalar,
}

/// Spec-level constructor of a three-component vector from raw values.
pub open spec fn v3(x: int, y: int, z: int) -> Vector3 {
    Vector3 { x: sc(x), y: sc(y), z: sc(z) }
}

/// Spec-level constructor of a four-component vector from raw values.
pub open spec fn v4(x: int, y: int, z: int, w: int) -> Vector4 {
    Vector4 { x: sc(x), y: sc(y), z: sc(z), w: sc(w) }
}

/// The raw value of component `i` (0 through 2) of a three-component
/// vector.
pub open spec fn v3c(v: Vector3, i: int) -> int {
    if i == 0 {
        v.x.raw as int
    } else if i == 1 {
        v.y.raw as int
    } else {
        v.z.raw as int
    }
}

/// Spec-level component-wise difference.
pub open spec fn spec_sub3(a: Vector3, b: Vector3) -> Vector3 {
    v3(a.x.raw - b.x.raw, a.y.raw - b.y.raw, a.z.raw - b.z.raw)
}

/// Spec-level component-wise negation.
pub open spec fn spec_neg3(a: Vector3) -> Vector3 {
    v3(-a.x.raw, -a.y.raw, -a.z.raw)
}

/// Spec-level cross product.
pub open spec fn spec_cross3(a: Vector3, b: Vector3) -> Vector3 {
    v3(
        scaled_mul(a.y.raw as int, b.z.raw as int) - scaled_mul(a.z.raw as int, b.y.raw as int),
        scaled_mul(a.z.raw as int, b.x.raw as int) - scaled_mul(a.x.raw as int, b.z.raw as int),
        scaled_mul(a.x.raw as int, b.y.raw as int) - scaled_mul(a.y.raw as int, b.x.raw as int),
    )
}

/// Spec-level normalization (division by the fixed-point norm).
pub open spec fn spec_normalized3(a: Vector3) -> Vector3 {
    let n = norm_raw3(a.x.raw as int, a.y.raw as int, a.z.raw as int);
    v3(
        scaled_div(a.x.raw as int, n),
        scaled_div(a.y.raw as int, n),
        scaled_div(a.z.raw as int, n),
    )
}

/// Raw value of the squared norm of a two-component vector.
pub open spec fn norm2_raw2(x: int, y: int) -> int {
    scaled_mul(x, x) + scaled_mul(y, y)
}

/// Raw value of the norm of a two-component vector.
pub open spec fn norm_raw2(x: int, y: int) -> int {
    sqrt_floor(norm2_raw2(x, y) * (SCALE as int))
}

/// Raw value of the squared norm of a three-component vector.
pub open spec fn norm2_raw3(x: int, y: int, z: int) -> int {
    scaled_mul(x, x) + scaled_mul(y, y) + scaled_mul(z, z)
}

/// Raw value of the norm of a three-component vector.
pub open spec fn norm_raw3(x: int, y: int, z: int) -> int {
    sqrt_floor(norm2_raw3(x, y, z) * (SCALE as int))
}

/// Raw value of the squared norm of a four-component vector.
pub open spec fn norm2_raw4(x: int, y: int, z: int, w: int) -> int {
    scaled_mul(x, x) + scaled_mul(y, y) + scaled_mul(z, z) + scaled_mul(w, w)
}

/// Raw value of the norm of a four-component vector.
pub open spec fn norm_raw4(x: int, y: int, z: int, w: int) -> int {
    sqrt_floor(norm2_raw4(x, y, z, w) * (SCALE as int))
}

/// An upper bound on [`sqrt_floor`] from an upper bound on its argument,
/// enough to keep every norm inside an `i64`.
pub proof fn lemma_sqrt_floor_bound(n: int)
    requires
        0 <= n <= 9_000_000_000_000_000_000,
    ensures
        0 <= sqrt_floor(n) <= 3_000_000_000,
{
    crate::scalar::lemma_sqrt_floor(n);
    let s = sqrt_floor(n);
    assert(s <= 3_000_000_000) by (nonlinear_arith)
        requires s >= 0 && s * s <= 9_000_000_000_000_000_000;
}

/// A square at the fixed-point scale is nonnegative and bounded by the
/// square of the magnitude bound.
proof fn lemma_square_term(a: int, m: int)
    requires
        -m <= a <= m,
        0 <= m,
        m * m <= i64::MAX,
    ensures
        0 <= scaled_mul(a, a) <= (m * m) / (SCALE as int),
{
    assert(0 <= a * a <= m * m) by (nonlinear_arith)
        requires -m <= a <= m;
    lemma_tdiv_bounds(a * a, SCALE as int);
    lemma_tdiv_mag(a * a, m * m, SCALE as int);
}

/// A nonzero fixed-point norm is at least `0.01`, and dividing any
/// component of the vector by its own norm stays within `2.0`: the
/// building block for showing normalized vectors are small.
pub proof fn lemma_unit_comp_bound(x: int, y: int, z: int)
    requires
        -1_700_000_000 <= x <= 1_700_000_000,
        -1_700_000_000 <= y <= 1_700_000_000,
        -1_700_000_000 <= z <= 1_700_000_000,
        norm_raw3(x, y, z) != 0,
    ensures
        100 <= norm_raw3(x, y, z) <= 3_000_000_000,
        -20_000 <= scaled_div(x, norm_raw3(x, y, z)) <= 20_000,
        -20_000 <= scaled_div(y, norm_raw3(x, y, z)) <= 20_000,
        -20_000 <= scaled_div(z, norm_raw3(x, y, z)) <= 20_000,
{
    lemma_square_term(x, 1_700_000_000);
    lemma_square_term(y, 1_700_000_000);
    lemma_square_term(z, 1_700_000_000);
    let n2 = norm2_raw3(x, y, z);
    let bign = n2 * (SCALE as int);
    crate::scalar::lemma_sqrt_floor(bign);
    let n = norm_raw3(x, y, z);
    assert(n >= 1);
    assert(n * n >= 1) by (nonlinear_arith)
        requires n >= 1;
    assert(n2 >= 1);
    assert(bign >= 10_000);
    assert(n >= 100) by (nonlinear_arith)
        requires n >= 1 && (n + 1) * (n + 1) > bign && bign >= 10_000;
    assert(n <= 3_000_000_000) by (nonlinear_arith)
        requires n >= 0 && n * n <= 9_000_000_000_000_000_000;
    lemma_unit_comp_one(x, n2, n, bign);
    lemma_unit_comp_one(y, n2, n, bign);
    lemma_unit_comp_one(z, n2, n, bign);
}

/// One component of the previous bound: if the component's scaled square is
/// part of `n2` and `n` is the floor root of `n2 * SCALE`, the component is
/// at most `2 * n` and its quotient by `n` at most `2.0`.
proof fn lemma_unit_comp_one(x: int, n2: int, n: int, bign: int)
    requires
        100 <= n,
        bign == n2 * (SCALE as int),
        bign < (n + 1) * (n + 1),
        scaled_mul(x, x) <= n2,
        -i64::MAX <= x * x <= i64::MAX,
    ensures
        -20_000 <= scaled_div(x, n) <= 20_000,
{
    assert(x * x >= 0) by (nonlinear_arith);
    lemma_fundamental_div_mod(x * x, SCALE as int);
    lemma_mod_bound(x * x, SCALE as int);
    assert(x * x <= (SCALE as int) * scaled_mul(x, x) + 9_999);
    assert((SCALE as int) * scaled_mul(x, x) <= (SCALE as int) * n2) by (nonlinear_arith)
        requires scaled_mul(x, x) <= n2;
    assert(bign == (SCALE as int) * n2) by (nonlinear_arith)
        requires bign == n2 * (SCALE as int);
    assert(x * x <= bign + 9_999);
    assert((n + 1) * (n + 1) >= 10_201) by (nonlinear_arith)
        requires n >= 100;
    assert(x * x < 2 * ((n + 1) * (n + 1)));
    assert(-2 * n <= x <= 2 * n) by (nonlinear_arith)
        requires n >= 100 && x * x < 2 * ((n + 1) * (n + 1));
    assert(-(20_000 * n) <= x * (SCALE as int) <= 20_000 * n) by (nonlinear_arith)
        requires -2 * n <= x <= 2 * n && n >= 1;
    lemma_tdiv_mag(x * (SCALE as int), 20_000 * n, n);
    assert((20_000 * n) / n == 20_000) by {
        lemma_div_multiples_vanish(20_000, n);
        assert(20_000 * n == n * 20_000) by (nonlinear_arith);
    }
}

impl Vector2 {
    /// Both raw components stay within `b` in magnitude.
    pub open spec fn bounded(self, b: int) -> bool {
        -b <= self.x.raw <= b && -b <= self.y.raw <= b
    }

    pub fn sub(self, rhs: Self) -> (r: Self)
        requires
            i64::MIN <= self.x.raw - rhs.x.raw <= i64::MAX,
            i64::MIN <= self.y.raw - rhs.y.raw <= i64::MAX,
        ensures
            r.x.raw == self.x.raw - rhs.x.raw,
            r.y.raw == self.y.raw - rhs.y.raw,
    {
        Vector2 { x: self.x.sub(rhs.x), y: self.y.sub(rhs.y) }
    }

    /// The fixed-point dot product.
    pub fn dot(self, rhs: Self) -> (r: Scalar)
        requires
            self.bounded(RAW_LIMIT as int),
            rhs.bounded(RAW_LIMIT as int),
        ensures
            r.raw == scaled_mul(self.x.raw as int, rhs.x.raw as int) + scaled_mul(
                self.y.raw as int,
                rhs.y.raw as int,
            ),
    {
        proof {
            lemma_mul_fit(self.x.raw as int, rhs.x.raw as int);
            lemma_mul_fit(self.y.raw as int, rhs.y.raw as int);
        }
        self.x.mul(rhs.x).add(self.y.mul(rhs.y))
    }

    /// The fixed-point squared norm.
    pub fn norm2(self) -> (r: Scalar)
        requires
            self.bounded(RAW_LIMIT as int),
        ensures
            r.raw == norm2_raw2(self.x.raw as int, self.y.raw as int),
            r.raw >= 0,
    {
        proof {
            lemma_square_term(self.x.raw as int, RAW_LIMIT as int);
            lemma_square_term(self.y.raw as int, RAW_LIMIT as int);
        }
        self.x.mul(self.x).add(self.y.mul(self.y))
    }

    /// The fixed-point norm, a floor square root.
    pub fn norm(self) -> (r: Scalar)
        requires
            self.bounded(2_100_000_000),
        ensures
            r.raw == norm_raw2(self.x.raw as int, self.y.raw as int),
            r.raw >= 0,
    {
        proof {
            lemma_square_term(self.x.raw as int, 2_100_000_000);
            lemma_square_term(self.y.raw as int, 2_100_000_000);
            lemma_sqrt_floor_bound(
                norm2_raw2(self.x.raw as int, self.y.raw as int) * (SCALE as int),
            );
        }
        self.norm2().sqrt()
    }
}

/// Products of two kernel-bounded raw values fit in an `i64`.
pub proof fn lemma_mul_fit(a: int, b: int)
    requires
        -(RAW_LIMIT as int) <= a <= RAW_LIMIT as int,
        -(RAW_LIMIT as int) <= b <= RAW_LIMIT as int,
    ensures
        -i64::MAX <= a * b <= i64::MAX,
        -900_000_000_000_000 <= scaled_mul(a, b) <= 900_000_000_000_000,
{
    assert(-9_000_000_000_000_000_000 <= a * b <= 9_000_000_000_000_000_000) by (nonlinear_arith)
        requires -3_000_000_000 <= a <= 3_000_000_000 && -3_000_000_000 <= b <= 3_000_000_000;
    lemma_tdiv_mag(a * b, 9_000_000_000_000_000_000, SCALE as int);
}

impl Vector3 {
    /// All three raw components stay within `b` in magnitude.
    pub open spec fn bounded(self, b: int) -> bool {
        -b <= self.x.raw <= b && -b <= self.y.raw <= b && -b <= self.z.raw <= b
    }

    pub fn zero() -> (r: Self)
        ensures
            r.x.raw == 0 && r.y.raw == 0 && r.z.raw == 0,
    {
        Vector3 { x: Scalar::zero(), y: Scalar::zero(), z: Scalar::zero() }
    }

    pub fn add(self, rhs: Self) -> (r: Self)
        requires
            i64::MIN <= self.x.raw + rhs.x.raw <= i64::MAX,
            i64::MIN <= self.y.raw + rhs.y.raw <= i64::MAX,
            i64::MIN <= self.z.raw + rhs.z.raw <= i64::MAX,
        ensures
            r.x.raw == self.x.raw + rhs.x.raw,
            r.y.raw == self.y.raw + rhs.y.raw,
            r.z.raw == self.z.raw + rhs.z.raw,
    {
        Vector3 { x: self.x.add(rhs.x), y: self.y.add(rhs.y), z: self.z.add(rhs.z) }
    }

    pub fn sub(self, rhs: Self) -> (r: Self)
        requires
            i64::MIN <= self.x.raw - rhs.x.raw <= i64::MAX,
            i64::MIN <= self.y.raw - rhs.y.raw <= i64::MAX,
            i64::MIN <= self.z.raw - rhs.z.raw <= i64::MAX,
        ensures
            r.x.raw == self.x.raw - rhs.x.raw,
            r.y.raw == self.y.raw - rhs.y.raw,
            r.z.raw == self.z.raw - rhs.z.raw,
    {
        Vector3 { x: self.x.sub(rhs.x), y: self.y.sub(rhs.y), z: self.z.sub(rhs.z) }
    }

    pub fn neg(self) -> (r: Self)
        requires
            self.bounded(i64::MAX as int),
        ensures
            r.x.raw == -self.x.raw,
            r.y.raw == -self.y.raw,
            r.z.raw == -self.z.raw,
    {
        Vector3 { x: self.x.neg(), y: self.y.neg(), z: self.z.neg() }
    }

    /// Component-wise multiplication by a scalar.
    pub fn mul(self, rhs: Scalar) -> (r: Self)
        requires
            self.bounded(RAW_LIMIT as int),
            -(RAW_LIMIT as int) <= rhs.raw <= RAW_LIMIT as int,
        ensures
            r.x.raw == scaled_mul(self.x.raw as int, rhs.raw as int),
            r.y.raw == scaled_mul(self.y.raw as int, rhs.raw as int),
            r.z.raw == scaled_mul(self.z.raw as int, rhs.raw as int),
    {
        proof {
            lemma_mul_fit(self.x.raw as int, rhs.raw as int);
            lemma_mul_fit(self.y.raw as int, rhs.raw as int);
            lemma_mul_fit(self.z.raw as int, rhs.raw as int);
        }
        Vector3 { x: self.x.mul(rhs), y: self.y.mul(rhs), z: self.z.mul(rhs) }
    }

    /// Component-wise division by a scalar.
    pub fn div(self, rhs: Scalar) -> (r: Self)
        requires
            rhs.raw != 0,
            self.bounded(922_337_203_685_477),
        ensures
            r.x.raw == scaled_div(self.x.raw as int, rhs.raw as int),
            r.y.raw == scaled_div(self.y.raw as int, rhs.raw as int),
            r.z.raw == scaled_div(self.z.raw as int, rhs.raw as int),
    {
        Vector3 { x: self.x.div(rhs), y: self.y.div(rhs), z: self.z.div(rhs) }
    }

    /// The fixed-point squared norm.
    pub fn norm2(self) -> (r: Scalar)
        requires
            self.bounded(RAW_LIMIT as int),
        ensures
            r.raw == norm2_raw3(self.x.raw as int, self.y.raw as int, self.z.raw as int),
            r.raw >= 0,
    {
        proof {
            lemma_square_term(self.x.raw as int, RAW_LIMIT as int);
            lemma_square_term(self.y.raw as int, RAW_LIMIT as int);
            lemma_square_term(self.z.raw as int, RAW_LIMIT as int);
        }
        self.x.mul(self.x).add(self.y.mul(self.y)).add(self.z.mul(self.z))
    }

    /// The fixed-point norm, a floor square root.
    pub fn norm(self) -> (r: Scalar)
        requires
            self.bounded(1_700_000_000),
        ensures
            r.raw == norm_raw3(self.x.raw as int, self.y.raw as int, self.z.raw as int),
            r.raw >= 0,
    {
        proof {
            lemma_square_term(self.x.raw as int, 1_700_000_000);
            lemma_square_term(self.y.raw as int, 1_700_000_000);
            lemma_square_term(self.z.raw as int, 1_700_000_000);
            lemma_sqrt_floor_bound(
                norm2_raw3(self.x.raw as int, self.y.raw as int, self.z.raw as int)
                    * (SCALE as int),
            );
        }
        self.norm2().sqrt()
    }

    /// The vector scaled to (fixed-point) unit length.  The caller excludes
    /// vectors whose computed norm is zero.
    pub fn normalized(self) -> (r: Self)
        requires
            self.bounded(1_700_000_000),
            norm_raw3(self.x.raw as int, self.y.raw as int, self.z.raw as int) != 0,
        ensures
            ({
                let n = norm_raw3(self.x.raw as int, self.y.raw as int, self.z.raw as int);
                r.x.raw == scaled_div(self.x.raw as int, n) && r.y.raw == scaled_div(
                    self.y.raw as int,
                    n,
                ) && r.z.raw == scaled_div(self.z.raw as int, n)
            }),
    {
        let n = self.norm();
        self.div(n)
    }

    /// The fixed-point cross product.
    pub fn cross(self, rhs: Self) -> (r: Self)
        requires
            self.bounded(RAW_LIMIT as int),
            rhs.bounded(RAW_LIMIT as int),
        ensures
            r.x.raw == scaled_mul(self.y.raw as int, rhs.z.raw as int) - scaled_mul(
                self.z.raw as int,
                rhs.y.raw as int,
            ),
            r.y.raw == scaled_mul(self.z.raw as int, rhs.x.raw as int) - scaled_mul(
                self.x.raw as int,
                rhs.z.raw as int,
            ),
            r.z.raw == scaled_mul(self.x.raw as int, rhs.y.raw as int) - scaled_mul(
                self.y.raw as int,
                rhs.x.raw as int,
            ),
    {
        proof {
            lemma_mul_fit(self.y.raw as int, rhs.z.raw as int);
            lemma_mul_fit(self.z.raw as int, rhs.y.raw as int);
            lemma_mul_fit(self.z.raw as int, rhs.x.raw as int);
            lemma_mul_fit(self.x.raw as int, rhs.z.raw as int);
            lemma_mul_fit(self.x.raw as int, rhs.y.raw as int);
            lemma_mul_fit(self.y.raw as int, rhs.x.raw as int);
        }
        Vector3 {
            x: self.y.mul(rhs.z).sub(self.z.mul(rhs.y)),
            y: self.z.mul(rhs.x).sub(self.x.mul(rhs.z)),
            z: self.x.mul(rhs.y).sub(self.y.mul(rhs.x)),
        }
    }

    /// Builds a vector from three consecutive entries of a parsed field
    /// list, starting at `at`.
    pub fn from_iterator(fields: &Vec<Scalar>, at: usize) -> (r: Self)
        requires
            at + 3 <= fields@.len(),
        ensures
            r.x == fields@[at as int],
            r.y == fields@[at as int + 1],
            r.z == fields@[at as int + 2],
    {
        let n = fields.len();
        assert(at + 3 <= n);
        Vector3 { x: fields[at], y: fields[at + 1], z: fields[at + 2] }
    }
}

impl Vector4 {
    /// All four raw components stay within `b` in magnitude.
    pub open spec fn bounded(self, b: int) -> bool {
        -b <= self.x.raw <= b && -b <= self.y.raw <= b && -b <= self.z.raw <= b && -b
            <= self.w.raw <= b
    }

    /// The raw value of the component with index `j` (0 through 3).
    pub open spec fn c(self, j: int) -> int {
        if j == 0 {
            self.x.raw as int
        } else if j == 1 {
            self.y.raw as int
        } else if j == 2 {
            self.z.raw as int
        } else {
            self.w.raw as int
        }
    }

    pub fn zero() -> (r: Self)
        ensures
            r.x.raw == 0 && r.y.raw == 0 && r.z.raw == 0 && r.w.raw == 0,
    {
        Vector4 { x: Scalar::zero(), y: Scalar::zero(), z: Scalar::zero(), w: Scalar::zero() }
    }

    /// The component with index `j` (0 through 3).
    pub fn get(self, j: usize) -> (r: Scalar)
        requires
            j < 4,
        ensures
            r.raw == self.c(j as int),
    {
        if j == 0 {
            self.x
        } else if j == 1 {
            self.y
        } else if j == 2 {
            self.z
        } else {
            self.w
        }
    }

    /// The fixed-point squared norm.
    pub fn norm2(self) -> (r: Scalar)
        requires
            self.bounded(RAW_LIMIT as int),
        ensures
            r.raw == norm2_raw4(
                self.x.raw as int,
                self.y.raw as int,
                self.z.raw as int,
                self.w.raw as int,
            ),
            r.raw >= 0,
    {
        proof {
            lemma_square_term(self.x.raw as int, RAW_LIMIT as int);
            lemma_square_term(self.y.raw as int, RAW_LIMIT as int);
            lemma_square_term(self.z.raw as int, RAW_LIMIT as int);
            lemma_square_term(self.w.raw as int, RAW_LIMIT as int);
        }
        self.x.mul(self.x).add(self.y.mul(self.y)).add(self.z.mul(self.z)).add(self.w.mul(self.w))
    }

    /// The fixed-point norm, a floor square root.
    pub fn norm(self) -> (r: Scalar)
        requires
            self.bounded(1_500_000_000),
        ensures
            r.raw == norm_raw4(
                self.x.raw as int,
                self.y.raw as int,
                self.z.raw as int,
                self.w.raw as int,
            ),
            r.raw >= 0,
    {
        proof {
            lemma_square_term(self.x.raw as int, 1_500_000_000);
            lemma_square_term(self.y.raw as int, 1_500_000_000);
            lemma_square_term(self.z.raw as int, 1_500_000_000);
            lemma_square_term(self.w.raw as int, 1_500_000_000);
            lemma_sqrt_floor_bound(
                norm2_raw4(
                    self.x.raw as int,
                    self.y.raw as int,
                    self.z.raw as int,
                    self.w.raw as int,
                ) * (SCALE as int),
            );
        }
        self.norm2().sqrt()
    }

    /// The vector scaled to (fixed-point) unit length.  The caller excludes
    /// vectors whose computed norm is zero.
    pub fn normalized(self) -> (r: Self)
        requires
            self.bounded(1_500_000_000),
            norm_raw4(self.x.raw as int, self.y.raw as int, self.z.raw as int, self.w.raw as int)
                != 0,
        ensures
            ({
                let n = norm_raw4(
                    self.x.raw as int,
                    self.y.raw as int,
                    self.z.raw as int,
                    self.w.raw as int,
                );
                r.x.raw == scaled_div(self.x.raw as int, n) && r.y.raw == scaled_div(
                    self.y.raw as int,
                    n,
                ) && r.z.raw == scaled_div(self.z.raw as int, n) && r.w.raw == scaled_div(
                    self.w.raw as int,
                    n,
                )
            }),
    {
        let n = self.norm();
        Vector4 { x: self.x.div(n), y: self.y.div(n), z: self.z.div(n), w: self.w.div(n) }
    }

    /// Builds a vector from four consecutive entries of a parsed field
    /// list, starting at `at`.
    pub fn from_iterator(fields: &Vec<Scalar>, at: usize) -> (r: Self)
        requires
            at + 4 <= fields@.len(),
        ensures
            r.x == fields@[at as int],
            r.y == fields@[at as int + 1],
            r.z == fields@[at as int + 2],
            r.w == fields@[at as int + 3],
    {
        let n = fields.len();
        assert(at + 4 <= n);
        Vector4 { x: fields[at], y: fields[at + 1], z: fields[at + 2], w: fields[at + 3] }
    }
}

} // verus!
