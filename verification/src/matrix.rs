//! Fixed-point 4-by-4 matrices: arithmetic and the camera and projection
//! constructors of the loader's kernel.
//!
//! Storage is row-major (`r0` is the top row).  A matrix is applied to a
//! column vector by multiplying from the left, as `mul_vec` does.

use vstd::prelude::*;

verus! {

use crate::scalar::{
    cos_raw, sc, scaled_div, scaled_mul, sin_raw, to_radians_raw, Scalar, Cos, Sin, Tan,
    ToRadians, lemma_tdiv_bounds, lemma_tdiv_cancel, lemma_tdiv_mag, lemma_trig_raw_bounds,
    SCALE, PI_RAW, RAW_LIMIT, TRIG_LIMIT,
};
use crate::vector::{
    lemma_mul_fit, lemma_unit_comp_bound, norm_raw3, spec_cross3, spec_neg3, spec_normalized3,
    spec_sub3, v3c, v4, Vector3, Vector4,
};

/// A row-major 4-by-4 matrix of fixed-point scalars.
#[derive(Clone, Copy, Debug, PartialEq, Eq)]
pub struct Mat4 {
    pub r0: Vector4,
    pub r1: Vector4,
    pub r2: Vector4,
    pub r3: Vector4,
}

/// The raw value of one entry of the 4-by-4 product: the dot product of a
/// row of `a` with a column of `b`, summed left to right.
pub open spec fn mul_entry(a: Mat4, b: Mat4, i: int, j: int) -> int {
    scaled_mul(a.at(i, 0), b.at(0, j)) + scaled_mul(a.at(i, 1), b.at(1, j)) + scaled_mul(
        a.at(i, 2),
        b.at(2, j),
    ) + scaled_mul(a.at(i, 3), b.at(3, j))
}

/// The raw value of one entry of a matrix-vector product.
pub open spec fn mul_vec_entry(m: Mat4, v: Vector4, i: int) -> int {
    scaled_mul(m.at(i, 0), v.c(0)) + scaled_mul(m.at(i, 1), v.c(1)) + scaled_mul(
        m.at(i, 2),
        v.c(2),
    ) + scaled_mul(m.at(i, 3), v.c(3))
}

/// Spec-level matrix product.
pub open spec fn spec_mul(a: Mat4, b: Mat4) -> Mat4 {
    Mat4 {
        r0: v4(mul_entry(a, b, 0, 0), mul_entry(a, b, 0, 1), mul_entry(a, b, 0, 2), mul_entry(a, b, 0, 3)),
        r1: v4(mul_entry(a, b, 1, 0), mul_entry(a, b, 1, 1), mul_entry(a, b, 1, 2), mul_entry(a, b, 1, 3)),
        r2: v4(mul_entry(a, b, 2, 0), mul_entry(a, b, 2, 1), mul_entry(a, b, 2, 2), mul_entry(a, b, 2, 3)),
        r3: v4(mul_entry(a, b, 3, 0), mul_entry(a, b, 3, 1), mul_entry(a, b, 3, 2), mul_entry(a, b, 3, 3)),
    }
}

/// The all-zero matrix.
pub open spec fn spec_empty() -> Mat4 {
    Mat4 { r0: v4(0, 0, 0, 0), r1: v4(0, 0, 0, 0), r2: v4(0, 0, 0, 0), r3: v4(0, 0, 0, 0) }
}

/// The identity matrix (ones on the diagonal).
pub open spec fn spec_identity() -> Mat4 {
    Mat4 {
        r0: v4(SCALE as int, 0, 0, 0),
        r1: v4(0, SCALE as int, 0, 0),
        r2: v4(0, 0, SCALE as int, 0),
        r3: v4(0, 0, 0, SCALE as int),
    }
}

/// The translation matrix: identity with `t` in the last column.
pub open spec fn spec_translate(t: Vector3) -> Mat4 {
    Mat4 {
        r0: v4(SCALE as int, 0, 0, t.x.raw as int),
        r1: v4(0, SCALE as int, 0, t.y.raw as int),
        r2: v4(0, 0, SCALE as int, t.z.raw as int),
        r3: v4(0, 0, 0, SCALE as int),
    }
}

/// The scaling matrix: `t` on the diagonal.
pub open spec fn spec_scale(t: Vector3) -> Mat4 {
    Mat4 {
        r0: v4(t.x.raw as int, 0, 0, 0),
        r1: v4(0, t.y.raw as int, 0, 0),
        r2: v4(0, 0, t.z.raw as int, 0),
        r3: v4(0, 0, 0, SCALE as int),
    }
}

/// One entry of the rotation matrix about the axis `v` by `angle` radians:
/// Rodrigues' formula over the truncated series of the angle, written
/// exactly as the constructor computes it.
pub open spec fn rotate_at(v: Vector3, angle: int, i: int, j: int) -> int {
    let c = cos_raw(angle);
    let s = sin_raw(angle);
    if 0 <= i < 3 && 0 <= j < 3 {
        let base = scaled_mul(scaled_mul((SCALE as int) - c, v3c(v, i)), v3c(v, j));
        let diag: int = if i == j {
            c
        } else {
            0
        };
        let sin_term: int = if i == 1 && j == 0 {
            scaled_mul(v.z.raw as int, s)
        } else if i == 2 && j == 0 {
            scaled_mul(-(v.y.raw as int), s)
        } else if i == 0 && j == 1 {
            scaled_mul(-(v.z.raw as int), s)
        } else if i == 2 && j == 1 {
            scaled_mul(v.x.raw as int, s)
        } else if i == 0 && j == 2 {
            scaled_mul(v.y.raw as int, s)
        } else if i == 1 && j == 2 {
            scaled_mul(-(v.x.raw as int), s)
        } else {
            0
        };
        base + diag + sin_term
    } else if i == j {
        SCALE as int
    } else {
        0
    }
}

/// The first three rows of a view matrix from the camera basis.
pub open spec fn lookat_rows(right: Vector3, cam_up: Vector3, direction: Vector3) -> Mat4 {
    Mat4 {
        r0: v4(right.x.raw as int, right.y.raw as int, right.z.raw as int, 0),
        r1: v4(cam_up.x.raw as int, cam_up.y.raw as int, cam_up.z.raw as int, 0),
        r2: v4(direction.x.raw as int, direction.y.raw as int, direction.z.raw as int, 0),
        r3: v4(0, 0, 0, SCALE as int),
    }
}

/// The right-handed view matrix: Gram-Schmidt basis from eye, target and
/// up, times a translation by the negated eye position.
pub open spec fn spec_lookat(position: Vector3, target: Vector3, up: Vector3) -> Mat4 {
    let direction = spec_normalized3(spec_sub3(position, target));
    let right = spec_normalized3(spec_cross3(up, direction));
    let cam_up = spec_cross3(direction, right);
    spec_mul(lookat_rows(right, cam_up, direction), spec_translate(spec_neg3(position)))
}

/// Raw value of half the field-of-view angle (division by the fixed-point
/// two).
pub open spec fn persp_half(angle: int) -> int {
    scaled_div(angle, 2 * (SCALE as int))
}

/// Raw value of half the field-of-view angle in radians.
pub open spec fn persp_rad(angle: int) -> int {
    to_radians_raw(persp_half(angle))
}

/// Raw value of the tangent of half the field-of-view angle.
pub open spec fn persp_tan(angle: int) -> int {
    scaled_div(sin_raw(persp_rad(angle)), cos_raw(persp_rad(angle)))
}

impl Mat4 {
    /// The row with index `i` (0 through 3).
    pub open spec fn row(self, i: int) -> Vector4 {
        if i == 0 {
            self.r0
        } else if i == 1 {
            self.r1
        } else if i == 2 {
            self.r2
        } else {
            self.r3
        }
    }

    /// The raw value of the entry in row `i`, column `j`.
    pub open spec fn at(self, i: int, j: int) -> int {
        self.row(i).c(j)
    }

    /// Every raw entry stays within `b` in magnitude.
    pub open spec fn bounded(self, b: int) -> bool {
        self.r0.bounded(b) && self.r1.bounded(b) && self.r2.bounded(b) && self.r3.bounded(b)
    }

    /// The entry in row `y`, column `x`.
    pub fn entry(&self, y: usize, x: usize) -> (r: Scalar)
        requires
            y < 4,
            x < 4,
        ensures
            r.raw == self.at(y as int, x as int),
    {
        let row = if y == 0 {
            self.r0
        } else if y == 1 {
            self.r1
        } else if y == 2 {
            self.r2
        } else {
            self.r3
        };
        row.get(x)
    }

    /// The column with index `j`, as a vector.
    fn col(&self, j: usize) -> (r: Vector4)
        requires
            j < 4,
        ensures
            r.c(0) == self.at(0, j as int),
            r.c(1) == self.at(1, j as int),
            r.c(2) == self.at(2, j as int),
            r.c(3) == self.at(3, j as int),
    {
        Vector4 {
            x: self.r0.get(j),
            y: self.r1.get(j),
            z: self.r2.get(j),
            w: self.r3.get(j),
        }
    }

    /// The all-zero matrix.
    pub fn empty() -> (r: Self)
        ensures
            r == spec_empty(),
    {
        Mat4 {
            r0: Vector4::zero(),
            r1: Vector4::zero(),
            r2: Vector4::zero(),
            r3: Vector4::zero(),
        }
    }

    /// The identity matrix.
    pub fn identity() -> (r: Self)
        ensures
            r == spec_identity(),
    {
        let o = Scalar::one();
        let z = Scalar::zero();
        Mat4 {
            r0: Vector4 { x: o, y: z, z: z, w: z },
            r1: Vector4 { x: z, y: o, z: z, w: z },
            r2: Vector4 { x: z, y: z, z: o, w: z },
            r3: Vector4 { x: z, y: z, z: z, w: o },
        }
    }

    /// The translation matrix moving by `vec`.
    pub fn translate(vec: &Vector3) -> (r: Self)
        ensures
            r == spec_translate(*vec),
    {
        let o = Scalar::one();
        let z = Scalar::zero();
        Mat4 {
            r0: Vector4 { x: o, y: z, z: z, w: vec.x },
            r1: Vector4 { x: z, y: o, z: z, w: vec.y },
            r2: Vector4 { x: z, y: z, z: o, w: vec.z },
            r3: Vector4 { x: z, y: z, z: z, w: o },
        }
    }

    /// The scaling matrix stretching by `vec` along the axes.
    pub fn scale(vec: &Vector3) -> (r: Self)
        ensures
            r == spec_scale(*vec),
    {
        let o = Scalar::one();
        let z = Scalar::zero();
        Mat4 {
            r0: Vector4 { x: vec.x, y: z, z: z, w: z },
            r1: Vector4 { x: z, y: vec.y, z: z, w: z },
            r2: Vector4 { x: z, y: z, z: vec.z, w: z },
            r3: Vector4 { x: z, y: z, z: z, w: o },
        }
    }

    /// The transposed matrix.
    pub fn transpose(self) -> (r: Self)
        ensures
            forall|i: int, j: int| 0 <= i < 4 && 0 <= j < 4 ==> r.at(i, j) == self.at(j, i),
    {
        Mat4 {
            r0: Vector4 { x: self.r0.x, y: self.r1.x, z: self.r2.x, w: self.r3.x },
            r1: Vector4 { x: self.r0.y, y: self.r1.y, z: self.r2.y, w: self.r3.y },
            r2: Vector4 { x: self.r0.z, y: self.r1.z, z: self.r2.z, w: self.r3.z },
            r3: Vector4 { x: self.r0.w, y: self.r1.w, z: self.r2.w, w: self.r3.w },
        }
    }

    /// The matrix product `self * rhs`.
    pub fn mul(&self, rhs: &Self) -> (r: Self)
        requires
            self.bounded(RAW_LIMIT as int),
            rhs.bounded(RAW_LIMIT as int),
        ensures
            forall|i: int, j: int|
                0 <= i < 4 && 0 <= j < 4 ==> r.at(i, j) == mul_entry(*self, *rhs, i, j),
    {
        let c0 = rhs.col(0);
        let c1 = rhs.col(1);
        let c2 = rhs.col(2);
        let c3 = rhs.col(3);
        proof {
            assert(c0.bounded(RAW_LIMIT as int));
            assert(c1.bounded(RAW_LIMIT as int));
            assert(c2.bounded(RAW_LIMIT as int));
            assert(c3.bounded(RAW_LIMIT as int));
        }
        Mat4 {
            r0: Vector4 {
                x: dot4(self.r0, c0),
                y: dot4(self.r0, c1),
                z: dot4(self.r0, c2),
                w: dot4(self.r0, c3),
            },
            r1: Vector4 {
                x: dot4(self.r1, c0),
                y: dot4(self.r1, c1),
                z: dot4(self.r1, c2),
                w: dot4(self.r1, c3),
            },
            r2: Vector4 {
                x: dot4(self.r2, c0),
                y: dot4(self.r2, c1),
                z: dot4(self.r2, c2),
                w: dot4(self.r2, c3),
            },
            r3: Vector4 {
                x: dot4(self.r3, c0),
                y: dot4(self.r3, c1),
                z: dot4(self.r3, c2),
                w: dot4(self.r3, c3),
            },
        }
    }

    /// The product of the matrix with a column vector.
    pub fn mul_vec(&self, rhs: &Vector4) -> (r: Vector4)
        requires
            self.bounded(RAW_LIMIT as int),
            rhs.bounded(RAW_LIMIT as int),
        ensures
            forall|i: int| 0 <= i < 4 ==> r.c(i) == mul_vec_entry(*self, *rhs, i),
    {
        Vector4 {
            x: dot4(self.r0, *rhs),
            y: dot4(self.r1, *rhs),
            z: dot4(self.r2, *rhs),
            w: dot4(self.r3, *rhs),
        }
    }

    /// The entry-wise sum of two matrices.
    pub fn add(&self, rhs: &Self) -> (r: Self)
        requires
            self.bounded(4_000_000_000_000_000_000),
            rhs.bounded(4_000_000_000_000_000_000),
        ensures
            forall|i: int, j: int|
                #![trigger r.at(i, j)]
                0 <= i < 4 && 0 <= j < 4 ==> r.at(i, j) == self.at(i, j) + rhs.at(i, j),
    {
        Mat4 {
            r0: add4(self.r0, rhs.r0),
            r1: add4(self.r1, rhs.r1),
            r2: add4(self.r2, rhs.r2),
            r3: add4(self.r3, rhs.r3),
        }
    }

    /// The matrix with every entry multiplied by `rhs`.
    pub fn mul_scalar(&self, rhs: Scalar) -> (r: Self)
        requires
            self.bounded(RAW_LIMIT as int),
            -(RAW_LIMIT as int) <= rhs.raw <= RAW_LIMIT as int,
        ensures
            forall|i: int, j: int|
                0 <= i < 4 && 0 <= j < 4 ==> r.at(i, j) == scaled_mul(self.at(i, j), rhs.raw as int),
    {
        Mat4 {
            r0: scale4(self.r0, rhs),
            r1: scale4(self.r1, rhs),
            r2: scale4(self.r2, rhs),
            r3: scale4(self.r3, rhs),
        }
    }
}

impl Mat4 {
    /// The rotation matrix about the (nominally unit) axis `vec` by
    /// `angle` radians, Rodrigues' formula over the truncated series of
    /// the angle.
    pub fn rotate(vec: &Vector3, angle: Scalar) -> (r: Self)
        requires
            vec.bounded(TRIG_LIMIT as int),
            -TRIG_LIMIT <= angle.raw <= TRIG_LIMIT,
        ensures
            forall|i: int, j: int|
                0 <= i < 4 && 0 <= j < 4 ==> r.at(i, j) == rotate_at(
                    *vec,
                    angle.raw as int,
                    i,
                    j,
                ),
    {
        proof {
            lemma_trig_raw_bounds(angle.raw as int);
        }
        let c = angle.cos();
        let s = angle.sin();
        let omc = Scalar::one().sub(c);
        let z = Scalar::zero();
        let o = Scalar::one();
        let e00 = rot_base(omc, vec.x, vec.x).add(c);
        let e01 = rot_base(omc, vec.x, vec.y).add(rot_sin(vec.z.neg(), s));
        let e02 = rot_base(omc, vec.x, vec.z).add(rot_sin(vec.y, s));
        let e10 = rot_base(omc, vec.y, vec.x).add(rot_sin(vec.z, s));
        let e11 = rot_base(omc, vec.y, vec.y).add(c);
        let e12 = rot_base(omc, vec.y, vec.z).add(rot_sin(vec.x.neg(), s));
        let e20 = rot_base(omc, vec.z, vec.x).add(rot_sin(vec.y.neg(), s));
        let e21 = rot_base(omc, vec.z, vec.y).add(rot_sin(vec.x, s));
        let e22 = rot_base(omc, vec.z, vec.z).add(c);
        Mat4 {
            r0: Vector4 { x: e00, y: e01, z: e02, w: z },
            r1: Vector4 { x: e10, y: e11, z: e12, w: z },
            r2: Vector4 { x: e20, y: e21, z: e22, w: z },
            r3: Vector4 { x: z, y: z, z: z, w: o },
        }
    }

    /// The right-handed view matrix looking from `position` toward
    /// `target` with the given up direction.  The caller excludes the
    /// degenerate inputs: a zero view direction and an up vector parallel
    /// to it.
    pub fn lookat(position: Vector3, target: Vector3, up: Vector3) -> (r: Self)
        requires
            position.bounded(850_000_000),
            target.bounded(850_000_000),
            up.bounded(TRIG_LIMIT as int),
            ({
                let d = spec_sub3(position, target);
                norm_raw3(d.x.raw as int, d.y.raw as int, d.z.raw as int) != 0
            }),
            ({
                let dir = spec_normalized3(spec_sub3(position, target));
                let rg = spec_cross3(up, dir);
                norm_raw3(rg.x.raw as int, rg.y.raw as int, rg.z.raw as int) != 0
            }),
        ensures
            r == spec_lookat(position, target, up),
    {
        let diff = position.sub(target);
        proof {
            assert(diff == spec_sub3(position, target));
            lemma_unit_comp_bound(diff.x.raw as int, diff.y.raw as int, diff.z.raw as int);
            lemma_tdiv_bounds(
                diff.x.raw * (SCALE as int),
                norm_raw3(diff.x.raw as int, diff.y.raw as int, diff.z.raw as int),
            );
        }
        let direction = diff.normalized();
        proof {
            assert(direction == spec_normalized3(spec_sub3(position, target)));
        }
        let right_full = up.cross(direction);
        proof {
            assert(right_full == spec_cross3(up, direction));
            lemma_cross_small(up, direction, TRIG_LIMIT as int, 20_000);
            lemma_unit_comp_bound(
                right_full.x.raw as int,
                right_full.y.raw as int,
                right_full.z.raw as int,
            );
        }
        let right = right_full.normalized();
        proof {
            assert(right == spec_normalized3(spec_cross3(up, direction)));
        }
        let cam_up = direction.cross(right);
        proof {
            assert(cam_up == spec_cross3(direction, right));
            lemma_cross_small(direction, right, 20_000, 20_000);
        }
        let z = Scalar::zero();
        let o = Scalar::one();
        let rows = Mat4 {
            r0: Vector4 { x: right.x, y: right.y, z: right.z, w: z },
            r1: Vector4 { x: cam_up.x, y: cam_up.y, z: cam_up.z, w: z },
            r2: Vector4 { x: direction.x, y: direction.y, z: direction.z, w: z },
            r3: Vector4 { x: z, y: z, z: z, w: o },
        };
        proof {
            assert(rows == lookat_rows(right, cam_up, direction));
        }
        let trans = Mat4::translate(&position.neg());
        proof {
            assert(trans == spec_translate(spec_neg3(position)));
        }
        let m = rows.mul(&trans);
        proof {
            lemma_mul_value(rows, trans, m);
        }
        m
    }

    /// The right-handed perspective projection with the given vertical
    /// field of view (in degrees), aspect ratio and near and far planes.
    /// Depth follows the zero-to-one convention: the center of the near
    /// plane projects to depth zero after the perspective divide.  The
    /// caller excludes the degenerate inputs: equal planes and a zero or
    /// undefined tangent of the half angle.
    pub fn perspective(angle: Scalar, aspect_ratio: Scalar, near: Scalar, far: Scalar) -> (r:
        Self)
        requires
            -(RAW_LIMIT as int) <= angle.raw <= RAW_LIMIT as int,
            -TRIG_LIMIT <= persp_rad(angle.raw as int) <= TRIG_LIMIT,
            cos_raw(persp_rad(angle.raw as int)) != 0,
            persp_tan(angle.raw as int) != 0,
            -i64::MAX <= persp_tan(angle.raw as int) * (aspect_ratio.raw as int) <= i64::MAX,
            scaled_mul(persp_tan(angle.raw as int), aspect_ratio.raw as int) != 0,
            -(RAW_LIMIT as int) <= near.raw <= RAW_LIMIT as int,
            -(RAW_LIMIT as int) <= far.raw <= RAW_LIMIT as int,
            far.raw != near.raw,
        ensures
            r.at(0, 0) == scaled_div(
                SCALE as int,
                scaled_mul(persp_tan(angle.raw as int), aspect_ratio.raw as int),
            ),
            r.at(1, 1) == scaled_div(SCALE as int, persp_tan(angle.raw as int)),
            r.at(2, 2) == -scaled_div(far.raw as int, far.raw - near.raw),
            r.at(2, 3) == -scaled_div(
                scaled_mul(far.raw as int, near.raw as int),
                far.raw - near.raw,
            ),
            r.at(3, 2) == -(SCALE as int),
            forall|i: int, j: int|
                0 <= i < 4 && 0 <= j < 4 && !(i == j && i < 3) && !(i == 2 && j == 3) && !(i
                    == 3 && j == 2) ==> r.at(i, j) == 0,
    {
        proof {
            lemma_tdiv_bounds(angle.raw * (SCALE as int), 2 * (SCALE as int));
        }
        let half = angle.div(Scalar::from_int(2));
        proof {
            lemma_tdiv_bounds(half.raw * (PI_RAW as int), 1_800_000);
        }
        let rad = half.to_radians();
        proof {
            lemma_trig_raw_bounds(rad.raw as int);
            lemma_tdiv_bounds(
                sin_raw(rad.raw as int) * (SCALE as int),
                cos_raw(rad.raw as int),
            );
        }
        let tan_half = rad.tan();
        proof {
            lemma_tdiv_bounds(
                tan_half.raw * (aspect_ratio.raw as int),
                SCALE as int,
            );
        }
        let sx = Scalar::one().div(tan_half.mul(aspect_ratio));
        let sy = Scalar::one().div(tan_half);
        let fmn = far.sub(near);
        proof {
            lemma_tdiv_bounds(far.raw * (SCALE as int), fmn.raw as int);
            lemma_mul_fit(far.raw as int, near.raw as int);
            lemma_tdiv_bounds(
                scaled_mul(far.raw as int, near.raw as int) * (SCALE as int),
                fmn.raw as int,
            );
            lemma_tdiv_bounds(SCALE as int * (SCALE as int), tan_half.raw as int);
            lemma_tdiv_bounds(
                SCALE as int * (SCALE as int),
                scaled_mul(tan_half.raw as int, aspect_ratio.raw as int),
            );
        }
        let c22 = far.div(fmn).neg();
        let c23 = far.mul(near).div(fmn).neg();
        let z = Scalar::zero();
        Mat4 {
            r0: Vector4 { x: sx, y: z, z: z, w: z },
            r1: Vector4 { x: z, y: sy, z: z, w: z },
            r2: Vector4 { x: z, y: z, z: c22, w: c23 },
            r3: Vector4 { x: z, y: z, z: Scalar::one().neg(), w: z },
        }
    }
}

/// A cross product of small vectors is small: each entry is a difference
/// of two scaled products.
proof fn lemma_cross_small(a: Vector3, b: Vector3, ba: int, bb: int)
    requires
        0 <= ba <= RAW_LIMIT as int,
        0 <= bb <= RAW_LIMIT as int,
        a.bounded(ba),
        b.bounded(bb),
    ensures
        spec_cross3(a, b).bounded(2 * ((ba * bb) / (SCALE as int)) + 2),
{
    assert(ba * bb <= i64::MAX) by (nonlinear_arith)
        requires 0 <= ba <= 3_000_000_000 && 0 <= bb <= 3_000_000_000;
    lemma_cross_term(a.y.raw as int, b.z.raw as int, ba, bb);
    lemma_cross_term(a.z.raw as int, b.y.raw as int, ba, bb);
    lemma_cross_term(a.z.raw as int, b.x.raw as int, ba, bb);
    lemma_cross_term(a.x.raw as int, b.z.raw as int, ba, bb);
    lemma_cross_term(a.x.raw as int, b.y.raw as int, ba, bb);
    lemma_cross_term(a.y.raw as int, b.x.raw as int, ba, bb);
}

/// One scaled product within the previous bound.
proof fn lemma_cross_term(x: int, y: int, ba: int, bb: int)
    requires
        0 <= ba,
        0 <= bb,
        ba * bb <= i64::MAX,
        -ba <= x <= ba,
        -bb <= y <= bb,
    ensures
        -((ba * bb) / (SCALE as int)) <= scaled_mul(x, y) <= (ba * bb) / (SCALE as int),
{
    assert(-(ba * bb) <= x * y <= ba * bb) by (nonlinear_arith)
        requires -ba <= x <= ba && -bb <= y <= bb && 0 <= ba && 0 <= bb;
    lemma_tdiv_mag(x * y, ba * bb, SCALE as int);
}

/// An exec product whose entries match the entry formula equals the
/// spec-level product value.
proof fn lemma_mul_value(a: Mat4, b: Mat4, m: Mat4)
    requires
        a.bounded(RAW_LIMIT as int),
        b.bounded(RAW_LIMIT as int),
        forall|i: int, j: int|
            0 <= i < 4 && 0 <= j < 4 ==> m.at(i, j) == mul_entry(a, b, i, j),
    ensures
        m == spec_mul(a, b),
{
    assert forall|i: int, j: int|
        #![trigger mul_entry(a, b, i, j)]
        0 <= i < 4 && 0 <= j < 4 implies -i64::MAX <= mul_entry(a, b, i, j) <= i64::MAX by {
        lemma_mul_fit(a.at(i, 0), b.at(0, j));
        lemma_mul_fit(a.at(i, 1), b.at(1, j));
        lemma_mul_fit(a.at(i, 2), b.at(2, j));
        lemma_mul_fit(a.at(i, 3), b.at(3, j));
    }
    assert(m.at(0, 0) == mul_entry(a, b, 0, 0));
    assert(m.at(0, 1) == mul_entry(a, b, 0, 1));
    assert(m.at(0, 2) == mul_entry(a, b, 0, 2));
    assert(m.at(0, 3) == mul_entry(a, b, 0, 3));
    assert(m.at(1, 0) == mul_entry(a, b, 1, 0));
    assert(m.at(1, 1) == mul_entry(a, b, 1, 1));
    assert(m.at(1, 2) == mul_entry(a, b, 1, 2));
    assert(m.at(1, 3) == mul_entry(a, b, 1, 3));
    assert(m.at(2, 0) == mul_entry(a, b, 2, 0));
    assert(m.at(2, 1) == mul_entry(a, b, 2, 1));
    assert(m.at(2, 2) == mul_entry(a, b, 2, 2));
    assert(m.at(2, 3) == mul_entry(a, b, 2, 3));
    assert(m.at(3, 0) == mul_entry(a, b, 3, 0));
    assert(m.at(3, 1) == mul_entry(a, b, 3, 1));
    assert(m.at(3, 2) == mul_entry(a, b, 3, 2));
    assert(m.at(3, 3) == mul_entry(a, b, 3, 3));
    assert(m.r0 == spec_mul(a, b).r0);
    assert(m.r1 == spec_mul(a, b).r1);
    assert(m.r2 == spec_mul(a, b).r2);
    assert(m.r3 == spec_mul(a, b).r3);
}

/// The first two factors of a Rodrigues entry: `(1 - cos) * a * b`, with
/// the axis components bounded by the trig limit.
fn rot_base(omc: Scalar, a: Scalar, b: Scalar) -> (r: Scalar)
    requires
        -6_000_000 <= omc.raw <= 6_000_000,
        -TRIG_LIMIT <= a.raw <= TRIG_LIMIT,
        -TRIG_LIMIT <= b.raw <= TRIG_LIMIT,
    ensures
        r.raw == scaled_mul(scaled_mul(omc.raw as int, a.raw as int), b.raw as int),
        -7_000_000_000_000 <= r.raw <= 7_000_000_000_000,
{
    proof {
        assert(-600_000_000_000 <= omc.raw * a.raw <= 600_000_000_000) by (nonlinear_arith)
            requires -6_000_000 <= omc.raw <= 6_000_000 && -100_000 <= a.raw <= 100_000;
        lemma_tdiv_mag(omc.raw * a.raw, 600_000_000_000, SCALE as int);
        let p = scaled_mul(omc.raw as int, a.raw as int);
        assert(-6_000_000_000_000 <= p * b.raw <= 6_000_000_000_000) by (nonlinear_arith)
            requires -60_000_000 <= p <= 60_000_000 && -100_000 <= b.raw <= 100_000;
        lemma_tdiv_mag(p * b.raw, 6_000_000_000_000, SCALE as int);
    }
    omc.mul(a).mul(b)
}

/// A sine term of a Rodrigues entry: an axis component times the sine.
fn rot_sin(a: Scalar, s: Scalar) -> (r: Scalar)
    requires
        -TRIG_LIMIT <= a.raw <= TRIG_LIMIT,
        -6_000_000 <= s.raw <= 6_000_000,
    ensures
        r.raw == scaled_mul(a.raw as int, s.raw as int),
        -1_000_000_000_000 <= r.raw <= 1_000_000_000_000,
{
    proof {
        assert(-600_000_000_000 <= a.raw * s.raw <= 600_000_000_000) by (nonlinear_arith)
            requires -100_000 <= a.raw <= 100_000 && -6_000_000 <= s.raw <= 6_000_000;
        lemma_tdiv_mag(a.raw * s.raw, 600_000_000_000, SCALE as int);
    }
    a.mul(s)
}

/// Fixed-point dot product of two four-component vectors, summed left to
/// right as the matrix product does.
fn dot4(a: Vector4, b: Vector4) -> (r: Scalar)
    requires
        a.bounded(RAW_LIMIT as int),
        b.bounded(RAW_LIMIT as int),
    ensures
        r.raw == scaled_mul(a.c(0), b.c(0)) + scaled_mul(a.c(1), b.c(1)) + scaled_mul(
            a.c(2),
            b.c(2),
        ) + scaled_mul(a.c(3), b.c(3)),
{
    proof {
        lemma_mul_fit(a.x.raw as int, b.x.raw as int);
        lemma_mul_fit(a.y.raw as int, b.y.raw as int);
        lemma_mul_fit(a.z.raw as int, b.z.raw as int);
        lemma_mul_fit(a.w.raw as int, b.w.raw as int);
    }
    a.x.mul(b.x).add(a.y.mul(b.y)).add(a.z.mul(b.z)).add(a.w.mul(b.w))
}

/// Component-wise sum of two four-component vectors.
fn add4(a: Vector4, b: Vector4) -> (r: Vector4)
    requires
        a.bounded(4_000_000_000_000_000_000),
        b.bounded(4_000_000_000_000_000_000),
    ensures
        forall|i: int| 0 <= i < 4 ==> r.c(i) == a.c(i) + b.c(i),
{
    Vector4 { x: a.x.add(b.x), y: a.y.add(b.y), z: a.z.add(b.z), w: a.w.add(b.w) }
}

/// Component-wise product of a four-component vector with a scalar.
fn scale4(a: Vector4, s: Scalar) -> (r: Vector4)
    requires
        a.bounded(RAW_LIMIT as int),
        -(RAW_LIMIT as int) <= s.raw <= RAW_LIMIT as int,
    ensures
        forall|i: int| 0 <= i < 4 ==> r.c(i) == scaled_mul(a.c(i), s.raw as int),
{
    proof {
        lemma_mul_fit(a.x.raw as int, s.raw as int);
        lemma_mul_fit(a.y.raw as int, s.raw as int);
        lemma_mul_fit(a.z.raw as int, s.raw as int);
        lemma_mul_fit(a.w.raw as int, s.raw as int);
    }
    Vector4 { x: a.x.mul(s), y: a.y.mul(s), z: a.z.mul(s), w: a.w.mul(s) }
}

/// Multiplying by one and by zero at the fixed-point scale is exact.
pub proof fn lemma_sm_units(x: int)
    ensures
        scaled_mul(SCALE as int, x) == x,
        scaled_mul(x, SCALE as int) == x,
        scaled_mul(0, x) == 0,
        scaled_mul(x, 0) == 0,
{
    lemma_tdiv_cancel(x, SCALE as int);
    assert(0int / (SCALE as int) == 0) by (nonlinear_arith);
}

/// Law: the identity matrix maps every vector to itself, exactly, with no
/// rounding: `identity * v == v` component by component.
pub proof fn lemma_identity_mul_vec(v: Vector4)
    ensures
        forall|i: int| 0 <= i < 4 ==> mul_vec_entry(spec_identity(), v, i) == v.c(i),
{
    assert forall|i: int| 0 <= i < 4 implies mul_vec_entry(spec_identity(), v, i) == v.c(i) by {
        lemma_sm_units(v.c(0));
        lemma_sm_units(v.c(1));
        lemma_sm_units(v.c(2));
        lemma_sm_units(v.c(3));
    }
}

/// Law: translating by `t` and then by `-t` composes to the identity,
/// exactly: `translate(t) * translate(-t) == identity`.
pub proof fn lemma_translate_inverse(t: Vector3)
    requires
        t.bounded(RAW_LIMIT as int),
    ensures
        spec_mul(spec_translate(t), spec_translate(spec_neg3(t))) == spec_identity(),
{
    let a = spec_translate(t);
    let b = spec_translate(spec_neg3(t));
    assert forall|i: int, j: int| 0 <= i < 4 && 0 <= j < 4 implies mul_entry(a, b, i, j)
        == spec_identity().at(i, j) by {
        lemma_sm_units(t.x.raw as int);
        lemma_sm_units(t.y.raw as int);
        lemma_sm_units(t.z.raw as int);
        lemma_sm_units(-(t.x.raw as int));
        lemma_sm_units(-(t.y.raw as int));
        lemma_sm_units(-(t.z.raw as int));
        lemma_sm_units(SCALE as int);
        lemma_sm_units(0);
    }
    assert(spec_mul(a, b) == spec_identity());
}

} // verus!
