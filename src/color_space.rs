//! RGB color spaces: the transform between linear RGB and XYZ derived from three
//! primaries and a white point, and its inverse.
use vstd::prelude::*;
use crate::rational::Rational;
use crate::linalg::{
    det3, lemma_cramer_rows, lemma_det_ones_row, lemma_det_scale_columns, lemma_inverse_applied, lemma_inverse_is_right_inverse,
    lemma_inverse_is_left_inverse, lemma_inverse_undoes, lemma_scaled_inverse,
    lemma_scaled_left_inverse, lemma_solved_row, pick, Matrix3, MatrixError,
};
use crate::model::{Rgb, Xyz};
use crate::color::Color;
use crate::encoding::{
    spec_decode_rgb, spec_encode_rgb, ColorEncoding, EncodedColor, LinearColor, LinearEncoding,
};

verus! {

/// The chromaticity `(x, y)` of one display primary.
#[derive(Clone, Copy, Debug, PartialEq, Eq, Structural)]
pub struct RgbPrimary {
    pub x: Rational,
    pub y: Rational,
}

impl RgbPrimary {
    pub fn new(x: Rational, y: Rational) -> (r: RgbPrimary)
        ensures
            r == (RgbPrimary { x, y }),
    {
        RgbPrimary { x, y }
    }

    pub fn to_tuple(&self) -> (r: (Rational, Rational))
        ensures
            r == (self.x, self.y),
    {
        (self.x, self.y)
    }

    /// The `X` of the tristimulus direction of this primary, scaled to `Y = 1`.
    pub open spec fn dir_x(self) -> real {
        self.x.value() / self.y.value()
    }

    /// The `Z` of the tristimulus direction of this primary, scaled to `Y = 1`.
    pub open spec fn dir_z(self) -> real {
        (1real - self.x.value() - self.y.value()) / self.y.value()
    }
}

/// Why a color space could not be built.
#[derive(Clone, Copy, Debug, PartialEq, Eq, Structural)]
pub enum ColorSpaceError {
    /// A primary has chromaticity `y = 0`, so it has no tristimulus direction.
    DegeneratePrimary,
    /// The primaries are linearly dependent, or the white point lies in the plane
    /// of two of them: the transform has no inverse.
    Singular,
    /// An intermediate value does not fit in a `Rational`.
    Overflow,
}

/// Entry (`i`, `j`) of the matrix whose columns are the tristimulus directions of
/// the red, green and blue primaries.
pub open spec fn primary_entry(r: RgbPrimary, g: RgbPrimary, b: RgbPrimary, i: int, j: int) -> real {
    let p = if j == 0 {
        r
    } else if j == 1 {
        g
    } else {
        b
    };
    if i == 0 {
        p.dir_x()
    } else if i == 1 {
        1real
    } else {
        p.dir_z()
    }
}

/// The determinant of the primaries' direction matrix.
pub open spec fn primary_det(r: RgbPrimary, g: RgbPrimary, b: RgbPrimary) -> real {
    det3(
        r.dir_x(),
        g.dir_x(),
        b.dir_x(),
        1real,
        1real,
        1real,
        r.dir_z(),
        g.dir_z(),
        b.dir_z(),
    )
}

/// The scale `S_j` of primary `j`: the solution of `P * S = W` for the direction
/// matrix `P` and white point `W`, by Cramer's rule.
pub open spec fn primary_scale(r: RgbPrimary, g: RgbPrimary, b: RgbPrimary, w: Xyz, j: int) -> real {
    let (u, v, t) = (w.x.value(), w.y.value(), w.z.value());
    let num = if j == 0 {
        det3(u, g.dir_x(), b.dir_x(), v, 1real, 1real, t, g.dir_z(), b.dir_z())
    } else if j == 1 {
        det3(r.dir_x(), u, b.dir_x(), 1real, v, 1real, r.dir_z(), t, b.dir_z())
    } else {
        det3(r.dir_x(), g.dir_x(), u, 1real, 1real, v, r.dir_z(), g.dir_z(), t)
    };
    num / primary_det(r, g, b)
}

/// Entry (`i`, `j`) of the RGB-to-XYZ transform: column `j` of the direction
/// matrix scaled by `S_j`.
pub open spec fn forward_entry(
    r: RgbPrimary,
    g: RgbPrimary,
    b: RgbPrimary,
    w: Xyz,
    i: int,
    j: int,
) -> real {
    primary_entry(r, g, b, i, j) * primary_scale(r, g, b, w, j)
}

/// Whether the primaries and white point give an invertible transform.
pub open spec fn is_nonsingular(r: RgbPrimary, g: RgbPrimary, b: RgbPrimary, w: Xyz) -> bool {
    &&& r.y.value() != 0real
    &&& g.y.value() != 0real
    &&& b.y.value() != 0real
    &&& primary_det(r, g, b) != 0real
    &&& primary_scale(r, g, b, w, 0) != 0real
    &&& primary_scale(r, g, b, w, 1) != 0real
    &&& primary_scale(r, g, b, w, 2) != 0real
}

/// A color space given by primaries and a white point, on linear values.
#[derive(Clone, Copy, Debug)]
pub struct LinearColorSpace {
    red_primary: RgbPrimary,
    green_primary: RgbPrimary,
    blue_primary: RgbPrimary,
    white_point: Xyz,
    xyz_transform: Matrix3,
    inv_transform: Matrix3,
}

/// A linear color space together with the encoding its colors are stored in.
#[derive(Clone, Copy, Debug)]
pub struct EncodedColorSpace<E> {
    linear_space: LinearColorSpace,
    encoding: E,
}

/// The tristimulus direction of a primary as computed:
/// `(x / y, 1, ((1 - x) - y) / y)`, or `None` when a step does not fit.
pub open spec fn spec_direction(p: RgbPrimary) -> Option<(Rational, Rational, Rational)> {
    let x = Rational::spec_div(p.x, p.y);
    let z = match Rational::spec_sub(Rational::spec_one(), p.x) {
        Some(a) => match Rational::spec_sub(a, p.y) {
            Some(b) => Rational::spec_div(b, p.y),
            None => None,
        },
        None => None,
    };
    if x is Some && z is Some {
        Some((x->0, Rational::spec_one(), z->0))
    } else {
        None
    }
}

/// The primaries' direction matrix as computed (meaningful when every
/// `spec_direction` is `Some`).
pub open spec fn direction_matrix(r: RgbPrimary, g: RgbPrimary, b: RgbPrimary) -> Matrix3 {
    let (dr, dg, db) = (spec_direction(r)->0, spec_direction(g)->0, spec_direction(b)->0);
    Matrix3 { entries: [dr.0, dg.0, db.0, dr.1, dg.1, db.1, dr.2, dg.2, db.2] }
}

/// The scale of primary `j` as computed: row `j` of the inverse direction matrix
/// applied to the white point.
pub open spec fn spec_scale(p: Matrix3, d: Rational, w: Xyz, j: int) -> Option<Rational> {
    match (p.spec_inverse_entry(d, 3 * j), p.spec_inverse_entry(d, 3 * j + 1), p.spec_inverse_entry(d, 3 * j + 2)) {
        (Some(a), Some(b), Some(c)) => crate::linalg::spec_dot3(a, b, c, w.x, w.y, w.z),
        _ => None,
    }
}

/// Whether every step of the derivation yields a representable value and no
/// divisor is zero; when it holds, the derivation succeeds.
pub open spec fn derivation_fits(r: RgbPrimary, g: RgbPrimary, b: RgbPrimary, w: Xyz) -> bool {
    &&& !any_degenerate(r, g, b)
    &&& spec_direction(r) is Some
    &&& spec_direction(g) is Some
    &&& spec_direction(b) is Some
    &&& match direction_matrix(r, g, b).spec_det() {
        Some(d) => {
            let p = direction_matrix(r, g, b);
            &&& d.value() != 0real
            &&& forall|k: int| 0 <= k < 9 ==> #[trigger] p.spec_inverse_entry(d, k) is Some
            &&& forall|j: int|
                0 <= j < 3 ==> #[trigger] spec_scale(p, d, w, j) is Some && spec_scale(p, d, w, j)->0.value()
                    != 0real
            &&& forall|i: int, j: int|
                0 <= i < 3 && 0 <= j < 3 ==> #[trigger] Rational::spec_mul(
                    p.entries@[3 * i + j],
                    spec_scale(p, d, w, j)->0,
                ) is Some
            &&& forall|j: int, k: int|
                0 <= j < 3 && 0 <= k < 3 ==> #[trigger] Rational::spec_div(
                    p.spec_inverse_entry(d, 3 * j + k)->0,
                    spec_scale(p, d, w, j)->0,
                ) is Some
        },
        None => false,
    }
}



/// Whether `m` holds, entry by entry, the RGB-to-XYZ transform of the primaries
/// and white point.
pub open spec fn is_forward_transform(
    m: Matrix3,
    r: RgbPrimary,
    g: RgbPrimary,
    b: RgbPrimary,
    w: Xyz,
) -> bool {
    forall|i: int, j: int|
        0 <= i < 3 && 0 <= j < 3 ==> #[trigger] m.get(i, j) == forward_entry(r, g, b, w, i, j)
}

pub open spec fn any_degenerate(r: RgbPrimary, g: RgbPrimary, b: RgbPrimary) -> bool {
    r.y.value() == 0real || g.y.value() == 0real || b.y.value() == 0real
}

fn matrix_error(e: MatrixError) -> (r: ColorSpaceError)
    ensures
        e == MatrixError::Singular ==> r == ColorSpaceError::Singular,
        e == MatrixError::Overflow ==> r == ColorSpaceError::Overflow,
{
    match e {
        MatrixError::Singular => ColorSpaceError::Singular,
        MatrixError::Overflow => ColorSpaceError::Overflow,
    }
}

/// Column `j` of `p` times `s`.
fn scale_column(p: &Matrix3, s: &Rational, j: usize, out: &mut [Rational; 9]) -> (ok: bool)
    requires
        j < 3,
    ensures
        forall|k: int|
            0 <= k < 9 && k % 3 != j ==> #[trigger] final(out)@[k] == old(out)@[k],
        ok ==> forall|i: int|
            0 <= i < 3 ==> #[trigger] final(out)@[3 * i + j].value() == p.get(i, j as int) * s.value(),
        !ok ==> exists|i: int|
            0 <= i < 3 && #[trigger] Rational::spec_mul(p.entries@[3 * i + j], *s) is None,
{
    let mut i: usize = 0;
    while i < 3
        invariant
            i <= 3,
            j < 3,
            forall|k: int| 0 <= k < 9 && k % 3 != j ==> #[trigger] out@[k] == old(out)@[k],
            forall|q: int| 0 <= q < i ==> #[trigger] out@[3 * q + j].value() == p.get(q, j as int) * s.value(),
        decreases 3 - i,
    {
        match p.entries[3 * i + j].checked_mul(s) {
            Some(v) => {
                out[3 * i + j] = v;
            },
            None => {
                assert(Rational::spec_mul(p.entries@[3 * i + j], *s) is None);
                return false;
            },
        }
        i = i + 1;
    }
    true
}

/// Row `j` of `q` divided by `s`.
fn scale_row(q: &Matrix3, s: &Rational, j: usize, out: &mut [Rational; 9]) -> (ok: bool)
    requires
        j < 3,
        s.value() != 0real,
    ensures
        forall|k: int|
            0 <= k < 9 && k / 3 != j ==> #[trigger] final(out)@[k] == old(out)@[k],
        ok ==> forall|k: int|
            0 <= k < 3 ==> #[trigger] final(out)@[3 * j + k].value() == q.get(j as int, k) / s.value(),
        !ok ==> exists|k: int|
            0 <= k < 3 && #[trigger] Rational::spec_div(q.entries@[3 * j + k], *s) is None,
{
    let mut k: usize = 0;
    while k < 3
        invariant
            k <= 3,
            j < 3,
            s.value() != 0real,
            forall|q2: int| 0 <= q2 < 9 && q2 / 3 != j ==> #[trigger] out@[q2] == old(out)@[q2],
            forall|c: int| 0 <= c < k ==> #[trigger] out@[3 * j + c].value() == q.get(j as int, c) / s.value(),
        decreases 3 - k,
    {
        match q.entries[3 * j + k].checked_div(s) {
            Some(v) => {
                out[3 * j + k] = v;
            },
            None => {
                assert(Rational::spec_div(q.entries@[3 * j + k], *s) is None);
                return false;
            },
        }
        k = k + 1;
    }
    true
}


/// The RGB-to-XYZ transform applied to `(x, y, z)`, exactly.
pub open spec fn transform_value(m: Matrix3, x: real, y: real, z: real) -> (real, real, real) {
    (m.row_times(0, x, y, z), m.row_times(1, x, y, z), m.row_times(2, x, y, z))
}

/// Whether `c` has the channel values `v`.
pub open spec fn xyz_has_values(c: Xyz, v: (real, real, real)) -> bool {
    c.x.value() == v.0 && c.y.value() == v.1 && c.z.value() == v.2
}

impl LinearColorSpace {
    pub closed spec fn spec_red_primary(self) -> RgbPrimary {
        self.red_primary
    }

    pub closed spec fn spec_green_primary(self) -> RgbPrimary {
        self.green_primary
    }

    pub closed spec fn spec_blue_primary(self) -> RgbPrimary {
        self.blue_primary
    }

    pub closed spec fn spec_white_point(self) -> Xyz {
        self.white_point
    }

    /// The RGB-to-XYZ matrix.
    pub closed spec fn spec_xyz_transform(self) -> Matrix3 {
        self.xyz_transform
    }

    /// The XYZ-to-RGB matrix.
    pub closed spec fn spec_inverse_xyz_transform(self) -> Matrix3 {
        self.inv_transform
    }

    /// The tristimulus direction `(x / y, 1, (1 - x - y) / y)` of a primary.
    fn calc_transform_vector(p: &RgbPrimary) -> (r: Result<(Rational, Rational, Rational), ColorSpaceError>)
        ensures
            r is Err && r->Err_0 == ColorSpaceError::DegeneratePrimary <==> p.y.value() == 0real,
            r is Err ==> r->Err_0 != ColorSpaceError::Singular,
            r matches Ok(v) ==> v.0.value() == p.dir_x() && v.1.value() == 1real && v.2.value()
                == p.dir_z(),
            p.y.value() != 0real ==> (r is Ok <==> spec_direction(*p) is Some),
            r matches Ok(v) ==> v == spec_direction(*p)->0,
    {
        let (ix, iy) = p.to_tuple();
        if iy.is_zero() {
            return Err(ColorSpaceError::DegeneratePrimary);
        }
        let one = Rational::one();
        let x = match ix.checked_div(&iy) {
            Some(x) => x,
            None => return Err(ColorSpaceError::Overflow),
        };
        let one_minus_x = match one.checked_sub(&ix) {
            Some(v) => v,
            None => return Err(ColorSpaceError::Overflow),
        };
        let rest = match one_minus_x.checked_sub(&iy) {
            Some(v) => v,
            None => return Err(ColorSpaceError::Overflow),
        };
        let z = match rest.checked_div(&iy) {
            Some(z) => z,
            None => return Err(ColorSpaceError::Overflow),
        };
        Ok((x, one, z))
    }

    /// The RGB-to-XYZ transform, the primaries' direction matrix `P` with column
    /// `j` scaled by entry `S_j` of `S = P⁻¹ * W`, together with its inverse, `P⁻¹`
    /// with row `j` divided by `S_j`. Building the inverse from `P⁻¹` rather than
    /// by inverting the transform keeps the intermediate values small.
    fn build_transform(
        red_primary: &RgbPrimary,
        green_primary: &RgbPrimary,
        blue_primary: &RgbPrimary,
        white_point: &Xyz,
    ) -> (r: Result<(Matrix3, Matrix3), ColorSpaceError>)
        ensures
            r is Err && r->Err_0 == ColorSpaceError::DegeneratePrimary <==> any_degenerate(
                *red_primary,
                *green_primary,
                *blue_primary,
            ),
            r is Err && r->Err_0 == ColorSpaceError::Singular ==> !is_nonsingular(
                *red_primary,
                *green_primary,
                *blue_primary,
                *white_point,
            ),
            r is Ok ==> is_nonsingular(*red_primary, *green_primary, *blue_primary, *white_point),
            derivation_fits(*red_primary, *green_primary, *blue_primary, *white_point) ==> r is Ok,
            r matches Ok(mn) ==> is_forward_transform(
                mn.0,
                *red_primary,
                *green_primary,
                *blue_primary,
                *white_point,
            ) && mn.0.is_inverse_of(mn.1) && mn.1.is_inverse_of(mn.0),
    {
        let (rr, gg, bb, ww) = (*red_primary, *green_primary, *blue_primary, *white_point);
        if red_primary.y.is_zero() || green_primary.y.is_zero() || blue_primary.y.is_zero() {
            return Err(ColorSpaceError::DegeneratePrimary);
        }
        let (rx, ry, rz) = match LinearColorSpace::calc_transform_vector(red_primary) {
            Ok(v) => v,
            Err(_) => return Err(ColorSpaceError::Overflow),
        };
        let (gx, gy, gz) = match LinearColorSpace::calc_transform_vector(green_primary) {
            Ok(v) => v,
            Err(_) => return Err(ColorSpaceError::Overflow),
        };
        let (bx, by, bz) = match LinearColorSpace::calc_transform_vector(blue_primary) {
            Ok(v) => v,
            Err(_) => return Err(ColorSpaceError::Overflow),
        };
        let primary_transform = Matrix3::new([rx, gx, bx, ry, gy, by, rz, gz, bz]);
        proof {
            assert(primary_transform.entries@ =~= direction_matrix(rr, gg, bb).entries@);
            assert(primary_transform == direction_matrix(rr, gg, bb));
            assert(primary_transform.det_value() == primary_det(rr, gg, bb));
        }
        let inv_transform = match primary_transform.inverse() {
            Ok(m) => m,
            Err(e) => return Err(matrix_error(e)),
        };
        let ghost d = primary_transform.spec_det()->0;
        proof {
            assert(spec_scale(primary_transform, d, ww, 0) == crate::linalg::spec_dot3(
                inv_transform.entries@[0],
                inv_transform.entries@[1],
                inv_transform.entries@[2],
                ww.x,
                ww.y,
                ww.z,
            ));
            assert(spec_scale(primary_transform, d, ww, 1) == crate::linalg::spec_dot3(
                inv_transform.entries@[3],
                inv_transform.entries@[4],
                inv_transform.entries@[5],
                ww.x,
                ww.y,
                ww.z,
            ));
            assert(spec_scale(primary_transform, d, ww, 2) == crate::linalg::spec_dot3(
                inv_transform.entries@[6],
                inv_transform.entries@[7],
                inv_transform.entries@[8],
                ww.x,
                ww.y,
                ww.z,
            ));
        }
        let (sr, sg, sb) = match inv_transform.transform_vector(white_point.to_tuple_exec()) {
            Some(s) => s,
            None => {
                proof {
                    if derivation_fits(rr, gg, bb, ww) {
                        assert(spec_scale(primary_transform, d, ww, 0) is Some);
                        assert(spec_scale(primary_transform, d, ww, 1) is Some);
                        assert(spec_scale(primary_transform, d, ww, 2) is Some);
                    }
                }
                return Err(ColorSpaceError::Overflow);
            },
        };
        proof {
            assert(spec_scale(primary_transform, d, ww, 0) == Some(sr));
            assert(spec_scale(primary_transform, d, ww, 1) == Some(sg));
            assert(spec_scale(primary_transform, d, ww, 2) == Some(sb));
            if derivation_fits(rr, gg, bb, ww) {
                assert(spec_scale(primary_transform, d, ww, 0)->0.value() != 0real);
                assert(spec_scale(primary_transform, d, ww, 1)->0.value() != 0real);
                assert(spec_scale(primary_transform, d, ww, 2)->0.value() != 0real);
            }
        }
        proof {
            let (u, v, t) = (ww.x.value(), ww.y.value(), ww.z.value());
            lemma_inverse_applied(primary_transform, inv_transform, u, v, t, 0);
            lemma_inverse_applied(primary_transform, inv_transform, u, v, t, 1);
            lemma_inverse_applied(primary_transform, inv_transform, u, v, t, 2);
            assert(sr.value() == primary_scale(rr, gg, bb, ww, 0));
            assert(sg.value() == primary_scale(rr, gg, bb, ww, 1));
            assert(sb.value() == primary_scale(rr, gg, bb, ww, 2));
        }
        if sr.is_zero() || sg.is_zero() || sb.is_zero() {
            return Err(ColorSpaceError::Singular);
        }
        let mut out = primary_transform.entries;
        if !scale_column(&primary_transform, &sr, 0, &mut out) {
            proof {
                if derivation_fits(rr, gg, bb, ww) {
                    let i = choose|i: int|
                        0 <= i < 3 && #[trigger] Rational::spec_mul(primary_transform.entries@[3 * i + 0], sr) is None;
                    assert(Rational::spec_mul(primary_transform.entries@[3 * i + 0], spec_scale(primary_transform, d, ww, 0)->0) is Some);
                }
            }
            return Err(ColorSpaceError::Overflow);
        }
        if !scale_column(&primary_transform, &sg, 1, &mut out) {
            proof {
                if derivation_fits(rr, gg, bb, ww) {
                    let i = choose|i: int|
                        0 <= i < 3 && #[trigger] Rational::spec_mul(primary_transform.entries@[3 * i + 1], sg) is None;
                    assert(Rational::spec_mul(primary_transform.entries@[3 * i + 1], spec_scale(primary_transform, d, ww, 1)->0) is Some);
                }
            }
            return Err(ColorSpaceError::Overflow);
        }
        if !scale_column(&primary_transform, &sb, 2, &mut out) {
            proof {
                if derivation_fits(rr, gg, bb, ww) {
                    let i = choose|i: int|
                        0 <= i < 3 && #[trigger] Rational::spec_mul(primary_transform.entries@[3 * i + 2], sb) is None;
                    assert(Rational::spec_mul(primary_transform.entries@[3 * i + 2], spec_scale(primary_transform, d, ww, 2)->0) is Some);
                }
            }
            return Err(ColorSpaceError::Overflow);
        }
        let m = Matrix3::new(out);
        proof {
            assert forall|i: int, j: int| 0 <= i < 3 && 0 <= j < 3 implies #[trigger] m.get(i, j) == forward_entry(rr, gg, bb, ww, i, j) by {
                assert(primary_transform.get(i, j) == primary_entry(rr, gg, bb, i, j));
                if j == 0 {
                    assert(m.get(i, 0) == primary_transform.get(i, 0) * sr.value());
                } else if j == 1 {
                    assert((3 * i + 1) % 3 != 0);
                    assert(m.get(i, 1) == primary_transform.get(i, 1) * sg.value());
                } else {
                    assert((3 * i + 2) % 3 != 0);
                    assert((3 * i + 2) % 3 != 1);
                    assert(m.get(i, 2) == primary_transform.get(i, 2) * sb.value());
                }
            }
        }
        let mut inv = inv_transform.entries;
        if !scale_row(&inv_transform, &sr, 0, &mut inv) {
            proof {
                if derivation_fits(rr, gg, bb, ww) {
                    let k = choose|k: int|
                        0 <= k < 3 && #[trigger] Rational::spec_div(inv_transform.entries@[3 * 0 + k], sr) is None;
                    assert(primary_transform.spec_inverse_entry(d, 3 * 0 + k) == Some(inv_transform.entries@[3 * 0 + k]));
                    assert(Rational::spec_div(primary_transform.spec_inverse_entry(d, 3 * 0 + k)->0, spec_scale(primary_transform, d, ww, 0)->0) is Some);
                }
            }
            return Err(ColorSpaceError::Overflow);
        }
        if !scale_row(&inv_transform, &sg, 1, &mut inv) {
            proof {
                if derivation_fits(rr, gg, bb, ww) {
                    let k = choose|k: int|
                        0 <= k < 3 && #[trigger] Rational::spec_div(inv_transform.entries@[3 * 1 + k], sg) is None;
                    assert(primary_transform.spec_inverse_entry(d, 3 * 1 + k) == Some(inv_transform.entries@[3 * 1 + k]));
                    assert(Rational::spec_div(primary_transform.spec_inverse_entry(d, 3 * 1 + k)->0, spec_scale(primary_transform, d, ww, 1)->0) is Some);
                }
            }
            return Err(ColorSpaceError::Overflow);
        }
        if !scale_row(&inv_transform, &sb, 2, &mut inv) {
            proof {
                if derivation_fits(rr, gg, bb, ww) {
                    let k = choose|k: int|
                        0 <= k < 3 && #[trigger] Rational::spec_div(inv_transform.entries@[3 * 2 + k], sb) is None;
                    assert(primary_transform.spec_inverse_entry(d, 3 * 2 + k) == Some(inv_transform.entries@[3 * 2 + k]));
                    assert(Rational::spec_div(primary_transform.spec_inverse_entry(d, 3 * 2 + k)->0, spec_scale(primary_transform, d, ww, 2)->0) is Some);
                }
            }
            return Err(ColorSpaceError::Overflow);
        }
        let n = Matrix3::new(inv);
        proof {
            lemma_inverse_is_right_inverse(primary_transform, inv_transform);
            let (s0, s1, s2) = (sr.value(), sg.value(), sb.value());
            assert forall|i: int, j: int| 0 <= i < 3 && 0 <= j < 3 implies #[trigger] m.get(i, j) == primary_transform.get(i, j) * pick(s0, s1, s2, j) by {
                if j == 0 {
                    assert(m.get(i, 0) == primary_transform.get(i, 0) * sr.value());
                } else if j == 1 {
                    assert((3 * i + 1) % 3 != 0);
                    assert(m.get(i, 1) == primary_transform.get(i, 1) * sg.value());
                } else {
                    assert((3 * i + 2) % 3 != 0);
                    assert((3 * i + 2) % 3 != 1);
                    assert(m.get(i, 2) == primary_transform.get(i, 2) * sb.value());
                }
            }
            assert forall|j: int, k: int| 0 <= j < 3 && 0 <= k < 3 implies #[trigger] n.get(j, k) == inv_transform.get(j, k) / pick(s0, s1, s2, j) by {
                if j == 0 {
                    assert(n.get(0, k) == inv_transform.get(0, k) / sr.value());
                } else if j == 1 {
                    assert((3 + k) / 3 != 0);
                    assert(n.get(1, k) == inv_transform.get(1, k) / sg.value());
                } else {
                    assert((6 + k) / 3 != 0);
                    assert((6 + k) / 3 != 1);
                    assert(n.get(2, k) == inv_transform.get(2, k) / sb.value());
                }
            }
            lemma_scaled_inverse(primary_transform, inv_transform, m, n, s0, s1, s2);
            lemma_inverse_is_left_inverse(primary_transform, inv_transform);
            lemma_scaled_left_inverse(primary_transform, inv_transform, m, n, s0, s1, s2);
        }
        Ok((m, n))
    }

    /// Derives the color space of the given primaries and white point.
    ///
    /// Fails with `DegeneratePrimary` exactly when a primary has `y = 0`; with
    /// `Singular` only when the transform would not be invertible (dependent
    /// primaries, or a white point in the plane of two of them); otherwise with
    /// `Overflow` only when an intermediate value does not fit. On success the
    /// transform is the exact derivation and the stored inverse its exact inverse.
    pub fn new(red: RgbPrimary, green: RgbPrimary, blue: RgbPrimary, white_point: Xyz) -> (r: Result<
        LinearColorSpace,
        ColorSpaceError,
    >)
        ensures
            r is Err && r->Err_0 == ColorSpaceError::DegeneratePrimary <==> any_degenerate(
                red,
                green,
                blue,
            ),
            r is Err && r->Err_0 == ColorSpaceError::Singular ==> !is_nonsingular(
                red,
                green,
                blue,
                white_point,
            ),
            !is_nonsingular(red, green, blue, white_point) ==> r is Err,
            primary_det(red, green, blue) == 0real ==> r is Err,
            derivation_fits(red, green, blue, white_point) ==> r is Ok,
            r matches Ok(s) ==> s.spec_red_primary() == red && s.spec_green_primary() == green
                && s.spec_blue_primary() == blue && s.spec_white_point() == white_point,
            r matches Ok(s) ==> is_forward_transform(
                s.spec_xyz_transform(),
                red,
                green,
                blue,
                white_point,
            ),
            r matches Ok(s) ==> s.spec_xyz_transform().is_inverse_of(
                s.spec_inverse_xyz_transform(),
            ) && s.spec_inverse_xyz_transform().is_inverse_of(s.spec_xyz_transform()),
    {
        let (forward_transform, inv_transform) = match LinearColorSpace::build_transform(
            &red,
            &green,
            &blue,
            &white_point,
        ) {
            Ok(mn) => mn,
            Err(e) => return Err(e),
        };
        Ok(
            LinearColorSpace {
                red_primary: red,
                green_primary: green,
                blue_primary: blue,
                white_point,
                xyz_transform: forward_transform,
                inv_transform,
            },
        )
    }

    /// Builds a color space from transforms computed elsewhere; nothing relates
    /// them to the primaries.
    pub fn new_with_transforms(
        red: RgbPrimary,
        green: RgbPrimary,
        blue: RgbPrimary,
        white_point: Xyz,
        xyz_transform: Matrix3,
        inv_transform: Matrix3,
    ) -> (r: LinearColorSpace)
        ensures
            r.spec_red_primary() == red,
            r.spec_green_primary() == green,
            r.spec_blue_primary() == blue,
            r.spec_white_point() == white_point,
            r.spec_xyz_transform() == xyz_transform,
            r.spec_inverse_xyz_transform() == inv_transform,
    {
        LinearColorSpace {
            red_primary: red,
            green_primary: green,
            blue_primary: blue,
            white_point,
            xyz_transform,
            inv_transform,
        }
    }
}

/// The channel values of an RGB color as a real triple.
pub open spec fn rgb_values(c: Rgb) -> (real, real, real) {
    (c.red.value(), c.green.value(), c.blue.value())
}

/// What every RGB color space offers: its defining data and its transforms.
pub trait ColorSpace {
    spec fn primaries(&self) -> (RgbPrimary, RgbPrimary, RgbPrimary);

    spec fn white(&self) -> Xyz;

    /// The RGB-to-XYZ matrix.
    spec fn xyz_matrix(&self) -> Matrix3;

    /// The XYZ-to-RGB matrix.
    spec fn inverse_xyz_matrix(&self) -> Matrix3;

    fn red_primary(&self) -> (r: RgbPrimary)
        ensures
            r == self.primaries().0,
    ;

    fn green_primary(&self) -> (r: RgbPrimary)
        ensures
            r == self.primaries().1,
    ;

    fn blue_primary(&self) -> (r: RgbPrimary)
        ensures
            r == self.primaries().2,
    ;

    fn white_point(&self) -> (r: Xyz)
        ensures
            r == self.white(),
    ;

    fn get_xyz_transform(&self) -> (r: &Matrix3)
        ensures
            *r == self.xyz_matrix(),
    ;

    fn get_inverse_xyz_transform(&self) -> (r: &Matrix3)
        ensures
            *r == self.inverse_xyz_matrix(),
    ;

    /// The RGB-to-XYZ matrix applied to `vec`; `None` when a value overflows.
    fn apply_transform(&self, vec: (Rational, Rational, Rational)) -> (r: Option<
        (Rational, Rational, Rational),
    >)
        ensures
            r == self.xyz_matrix().spec_transform(vec),
            r matches Some(w) ==> (w.0.value(), w.1.value(), w.2.value()) == transform_value(
                self.xyz_matrix(),
                vec.0.value(),
                vec.1.value(),
                vec.2.value(),
            ),
    ;
}

/// How a color space turns a color into linear values.
pub trait ColorSpaceEncoding {
    spec fn spec_decode_color(&self, color: Rgb) -> Rgb;

    /// `color`, read in this space's encoding, as linear values.
    fn decode_color(&self, color: Rgb) -> (r: LinearColor<Rgb>)
        ensures
            r.color == self.spec_decode_color(color),
    ;
}

/// Conversion of colors of type `C` to XYZ in a color space.
pub trait ColorSpaceConversion<C>: ColorSpace {
    /// The linear RGB values `color` stands for in this space.
    spec fn linear_rgb(&self, color: C) -> Rgb;

    /// The XYZ value of `color`; `None` when a value overflows.
    fn color_to_xyz(&self, color: &C) -> (r: Option<Xyz>)
        ensures
            r is Some <==> self.xyz_matrix().spec_transform(
                self.linear_rgb(*color).spec_to_tuple(),
            ) is Some,
            r matches Some(x) ==> xyz_has_values(
                x,
                transform_value(
                    self.xyz_matrix(),
                    rgb_values(self.linear_rgb(*color)).0,
                    rgb_values(self.linear_rgb(*color)).1,
                    rgb_values(self.linear_rgb(*color)).2,
                ),
            ),
    ;
}

/// Linear values that a color space can take to XYZ.
pub trait ToXyz {
    spec fn linear_values(&self) -> Rgb;

    fn convert_to_xyz<S: ColorSpace>(&self, space: &S) -> (r: Option<Xyz>)
        ensures
            r is Some <==> space.xyz_matrix().spec_transform(self.linear_values().spec_to_tuple())
                is Some,
            r matches Some(x) ==> xyz_has_values(
                x,
                transform_value(
                    space.xyz_matrix(),
                    rgb_values(self.linear_values()).0,
                    rgb_values(self.linear_values()).1,
                    rgb_values(self.linear_values()).2,
                ),
            ),
    ;
}

impl ToXyz for LinearColor<Rgb> {
    open spec fn linear_values(&self) -> Rgb {
        self.color
    }

    fn convert_to_xyz<S: ColorSpace>(&self, space: &S) -> (r: Option<Xyz>) {
        let transform = space.get_xyz_transform();
        match transform.transform_vector(self.color.to_tuple()) {
            Some((x, y, z)) => Some(Xyz::from_channels(x, y, z)),
            None => None,
        }
    }
}

impl LinearColorSpace {
    /// The linear RGB color of `xyz`: the XYZ-to-RGB matrix applied to it; `None`
    /// when a value overflows.
    pub fn xyz_to_color(&self, xyz: &Xyz) -> (r: Option<LinearColor<Rgb>>)
        ensures
            r is Some <==> self.spec_inverse_xyz_transform().spec_transform(xyz.spec_to_tuple())
                is Some,
            r matches Some(c) ==> rgb_values(c.color) == transform_value(
                self.spec_inverse_xyz_transform(),
                xyz.x.value(),
                xyz.y.value(),
                xyz.z.value(),
            ),
    {
        match self.inv_transform.transform_vector(xyz.to_tuple()) {
            Some((red, green, blue)) => Some(
                EncodedColor::new(Rgb::from_channels(red, green, blue), LinearEncoding::new()),
            ),
            None => None,
        }
    }
}

impl ColorSpace for LinearColorSpace {
    open spec fn primaries(&self) -> (RgbPrimary, RgbPrimary, RgbPrimary) {
        (self.spec_red_primary(), self.spec_green_primary(), self.spec_blue_primary())
    }

    open spec fn white(&self) -> Xyz {
        self.spec_white_point()
    }

    open spec fn xyz_matrix(&self) -> Matrix3 {
        self.spec_xyz_transform()
    }

    open spec fn inverse_xyz_matrix(&self) -> Matrix3 {
        self.spec_inverse_xyz_transform()
    }

    fn red_primary(&self) -> (r: RgbPrimary) {
        self.red_primary
    }

    fn green_primary(&self) -> (r: RgbPrimary) {
        self.green_primary
    }

    fn blue_primary(&self) -> (r: RgbPrimary) {
        self.blue_primary
    }

    fn white_point(&self) -> (r: Xyz) {
        self.white_point
    }

    fn get_xyz_transform(&self) -> (r: &Matrix3) {
        &self.xyz_transform
    }

    fn get_inverse_xyz_transform(&self) -> (r: &Matrix3) {
        &self.inv_transform
    }

    fn apply_transform(&self, vec: (Rational, Rational, Rational)) -> (r: Option<
        (Rational, Rational, Rational),
    >) {
        self.xyz_transform.transform_vector(vec)
    }
}

impl ColorSpaceEncoding for LinearColorSpace {
    open spec fn spec_decode_color(&self, color: Rgb) -> Rgb {
        color
    }

    fn decode_color(&self, color: Rgb) -> (r: LinearColor<Rgb>) {
        EncodedColor::new(color, LinearEncoding::new())
    }
}

impl ColorSpaceConversion<LinearColor<Rgb>> for LinearColorSpace {
    open spec fn linear_rgb(&self, color: LinearColor<Rgb>) -> Rgb {
        color.color
    }

    fn color_to_xyz(&self, color: &LinearColor<Rgb>) -> (r: Option<Xyz>) {
        color.convert_to_xyz(self)
    }
}

impl<E: ColorEncoding> EncodedColorSpace<E> {
    pub closed spec fn spec_linear_space(self) -> LinearColorSpace {
        self.linear_space
    }

    pub closed spec fn spec_encoding(self) -> E {
        self.encoding
    }

    /// The color space of the given primaries and white point, with colors stored
    /// in `encoding`. Fails exactly as `LinearColorSpace::new` does.
    pub fn new(
        red_primary: RgbPrimary,
        green_primary: RgbPrimary,
        blue_primary: RgbPrimary,
        white_point: Xyz,
        encoding: E,
    ) -> (r: Result<EncodedColorSpace<E>, ColorSpaceError>)
        ensures
            r is Err && r->Err_0 == ColorSpaceError::DegeneratePrimary <==> any_degenerate(
                red_primary,
                green_primary,
                blue_primary,
            ),
            r is Err && r->Err_0 == ColorSpaceError::Singular ==> !is_nonsingular(
                red_primary,
                green_primary,
                blue_primary,
                white_point,
            ),
            !is_nonsingular(red_primary, green_primary, blue_primary, white_point) ==> r is Err,
            derivation_fits(red_primary, green_primary, blue_primary, white_point) ==> r is Ok,
            r matches Ok(s) ==> s.spec_encoding() == encoding && s.primaries() == (
                red_primary,
                green_primary,
                blue_primary,
            ) && s.white() == white_point,
            r matches Ok(s) ==> is_forward_transform(
                s.xyz_matrix(),
                red_primary,
                green_primary,
                blue_primary,
                white_point,
            ),
            r matches Ok(s) ==> s.xyz_matrix().is_inverse_of(s.inverse_xyz_matrix())
                && s.inverse_xyz_matrix().is_inverse_of(s.xyz_matrix()),
    {
        match LinearColorSpace::new(red_primary, green_primary, blue_primary, white_point) {
            Ok(linear_space) => Ok(EncodedColorSpace { linear_space, encoding }),
            Err(e) => Err(e),
        }
    }

    pub fn linear_color_space(&self) -> (r: &LinearColorSpace)
        ensures
            *r == self.spec_linear_space(),
    {
        &self.linear_space
    }

    pub fn encoding(&self) -> (r: &E)
        ensures
            *r == self.spec_encoding(),
    {
        &self.encoding
    }

    /// The color of `xyz` in this space, encoded with its encoding; `None` when a
    /// value overflows.
    pub fn xyz_to_color(&self, xyz: &Xyz) -> (r: Option<EncodedColor<Rgb, E>>)
        ensures
            r is Some <==> self.inverse_xyz_matrix().spec_transform(xyz.spec_to_tuple()) is Some,
            r matches Some(c) ==> c.encoding == self.spec_encoding() && exists|lin: Rgb|
                rgb_values(lin) == transform_value(
                    self.inverse_xyz_matrix(),
                    xyz.x.value(),
                    xyz.y.value(),
                    xyz.z.value(),
                ) && #[trigger] spec_encode_rgb(self.spec_encoding(), lin) == c.color,
    {
        match self.linear_space.xyz_to_color(xyz) {
            Some(lin) => {
                let c = lin.encode(self.encoding);
                proof {
                    assert(spec_encode_rgb(self.spec_encoding(), lin.color) == c.color);
                }
                Some(c)
            },
            None => None,
        }
    }

    /// Encodes one linear channel value with this space's encoding.
    pub fn encode_channel(&self, val: Rational) -> (r: Rational)
        ensures
            r == self.spec_encoding().spec_encode_channel(val),
    {
        self.encoding.encode_channel(val)
    }

    /// Decodes one stored channel value with this space's encoding.
    pub fn decode_channel(&self, val: Rational) -> (r: Rational)
        ensures
            r == self.spec_encoding().spec_decode_channel(val),
    {
        self.encoding.decode_channel(val)
    }
}

impl<E: ColorEncoding> ColorSpace for EncodedColorSpace<E> {
    open spec fn primaries(&self) -> (RgbPrimary, RgbPrimary, RgbPrimary) {
        self.spec_linear_space().primaries()
    }

    open spec fn white(&self) -> Xyz {
        self.spec_linear_space().white()
    }

    open spec fn xyz_matrix(&self) -> Matrix3 {
        self.spec_linear_space().xyz_matrix()
    }

    open spec fn inverse_xyz_matrix(&self) -> Matrix3 {
        self.spec_linear_space().inverse_xyz_matrix()
    }

    fn red_primary(&self) -> (r: RgbPrimary) {
        self.linear_space.red_primary()
    }

    fn green_primary(&self) -> (r: RgbPrimary) {
        self.linear_space.green_primary()
    }

    fn blue_primary(&self) -> (r: RgbPrimary) {
        self.linear_space.blue_primary()
    }

    fn white_point(&self) -> (r: Xyz) {
        self.linear_space.white_point()
    }

    fn get_xyz_transform(&self) -> (r: &Matrix3) {
        self.linear_space.get_xyz_transform()
    }

    fn get_inverse_xyz_transform(&self) -> (r: &Matrix3) {
        self.linear_space.get_inverse_xyz_transform()
    }

    fn apply_transform(&self, vec: (Rational, Rational, Rational)) -> (r: Option<
        (Rational, Rational, Rational),
    >) {
        self.get_xyz_transform().transform_vector(vec)
    }
}

impl<E: ColorEncoding> ColorSpaceEncoding for EncodedColorSpace<E> {
    open spec fn spec_decode_color(&self, color: Rgb) -> Rgb {
        spec_decode_rgb(self.spec_encoding(), color)
    }

    fn decode_color(&self, color: Rgb) -> (r: LinearColor<Rgb>) {
        let encoded_color = EncodedColor::new(color, self.encoding);
        encoded_color.decode()
    }
}

impl<E: ColorEncoding, EIn: ColorEncoding> ColorSpaceConversion<EncodedColor<Rgb, EIn>> for EncodedColorSpace<E> {
    open spec fn linear_rgb(&self, color: EncodedColor<Rgb, EIn>) -> Rgb {
        spec_decode_rgb(color.encoding, color.color)
    }

    fn color_to_xyz(&self, color: &EncodedColor<Rgb, EIn>) -> (r: Option<Xyz>) {
        color.decode().convert_to_xyz(self)
    }
}

impl<E: ColorEncoding> ColorSpaceConversion<Rgb> for EncodedColorSpace<E> {
    open spec fn linear_rgb(&self, color: Rgb) -> Rgb {
        spec_decode_rgb(self.spec_encoding(), color)
    }

    fn color_to_xyz(&self, color: &Rgb) -> (r: Option<Xyz>) {
        EncodedColor::new(*color, self.encoding).decode().convert_to_xyz(self)
    }
}

proof fn lemma_white_row(r: RgbPrimary, g: RgbPrimary, b: RgbPrimary, w: Xyz, m: Matrix3, i: int)
    requires
        0 <= i < 3,
        is_nonsingular(r, g, b, w),
        is_forward_transform(m, r, g, b, w),
    ensures
        m.row_times(i, 1real, 1real, 1real) == (if i == 0 {
            w.x.value()
        } else if i == 1 {
            w.y.value()
        } else {
            w.z.value()
        }),
{
    let (u, v, t) = (w.x.value(), w.y.value(), w.z.value());
    lemma_cramer_rows(
        r.dir_x(),
        g.dir_x(),
        b.dir_x(),
        1real,
        1real,
        1real,
        r.dir_z(),
        g.dir_z(),
        b.dir_z(),
        u,
        v,
        t,
    );
    let den = primary_det(r, g, b);
    let n0 = det3(u, g.dir_x(), b.dir_x(), v, 1real, 1real, t, g.dir_z(), b.dir_z());
    let n1 = det3(r.dir_x(), u, b.dir_x(), 1real, v, 1real, r.dir_z(), t, b.dir_z());
    let n2 = det3(r.dir_x(), g.dir_x(), u, 1real, 1real, v, r.dir_z(), g.dir_z(), t);
    assert(m.get(i, 0) == forward_entry(r, g, b, w, i, 0));
    assert(m.get(i, 1) == forward_entry(r, g, b, w, i, 1));
    assert(m.get(i, 2) == forward_entry(r, g, b, w, i, 2));
    let (x0, x1, x2) = (primary_entry(r, g, b, i, 0), primary_entry(r, g, b, i, 1), primary_entry(r, g, b, i, 2));
    let wi = if i == 0 { u } else if i == 1 { v } else { t };
    assert(x0 * n0 + x1 * n1 + x2 * n2 == wi * den);
    lemma_solved_row(x0, x1, x2, n0, n1, n2, wi, den);
}

/// In every color space, linear RGB black maps to XYZ zero and linear RGB white
/// `(1, 1, 1)` maps to exactly the white point.
pub proof fn law_black_and_white(r: RgbPrimary, g: RgbPrimary, b: RgbPrimary, w: Xyz, m: Matrix3)
    requires
        is_nonsingular(r, g, b, w),
        is_forward_transform(m, r, g, b, w),
    ensures
        transform_value(m, 0real, 0real, 0real) == (0real, 0real, 0real),
        transform_value(m, 1real, 1real, 1real) == (w.x.value(), w.y.value(), w.z.value()),
{
    lemma_white_row(r, g, b, w, m, 0);
    lemma_white_row(r, g, b, w, m, 1);
    lemma_white_row(r, g, b, w, m, 2);
}

/// Whether the primaries' chromaticities lie on one line of the xy plane.
pub open spec fn chromaticities_collinear(r: RgbPrimary, g: RgbPrimary, b: RgbPrimary) -> bool {
    det3(
        r.x.value(),
        g.x.value(),
        b.x.value(),
        r.y.value(),
        g.y.value(),
        b.y.value(),
        1real,
        1real,
        1real,
    ) == 0real
}

proof fn lemma_direction_parts(p: RgbPrimary)
    requires
        p.y.value() != 0real,
    ensures
        p.x.value() == p.dir_x() * p.y.value(),
        1real == (p.dir_z() + p.dir_x() + 1real) * p.y.value(),
{
    let (x, y) = (p.x.value(), p.y.value());
    assert(x == (x / y) * y) by (nonlinear_arith)
        requires
            y != 0real,
    ;
    assert(1real == ((1real - x - y) / y + x / y + 1real) * y) by (nonlinear_arith)
        requires
            y != 0real,
    ;
}

/// Primaries whose chromaticities are collinear give no color space: their
/// tristimulus directions are linearly dependent.
pub proof fn law_collinear_primaries_rejected(r: RgbPrimary, g: RgbPrimary, b: RgbPrimary, w: Xyz)
    requires
        chromaticities_collinear(r, g, b),
    ensures
        !is_nonsingular(r, g, b, w),
        !any_degenerate(r, g, b) ==> primary_det(r, g, b) == 0real,
{
    if !any_degenerate(r, g, b) {
        lemma_direction_parts(r);
        lemma_direction_parts(g);
        lemma_direction_parts(b);
        let (xr, xg, xb) = (r.dir_x(), g.dir_x(), b.dir_x());
        let (yr, yg, yb) = (r.y.value(), g.y.value(), b.y.value());
        let (wr, wg, wb) = (r.dir_z() + xr + 1real, g.dir_z() + xg + 1real, b.dir_z() + xb + 1real);
        assert(yr == 1real * yr && yg == 1real * yg && yb == 1real * yb);
        lemma_det_scale_columns(xr, xg * yg, xb * yb, 1real, 1real * yg, 1real * yb, wr, wg * yg, wb * yb, yr);
        lemma_det_scale_columns(xr, xg, xb * yb, 1real, 1real, 1real * yb, wr, wg, wb * yb, yg);
        lemma_det_scale_columns(xr, xg, xb, 1real, 1real, 1real, wr, wg, wb, yb);
        lemma_det_ones_row(xr, xg, xb, r.dir_z(), g.dir_z(), b.dir_z());
        let pd = primary_det(r, g, b);
        assert(yr * (yg * (yb * pd)) == 0real);
        assert(pd == 0real) by (nonlinear_arith)
            requires
                yr * (yg * (yb * pd)) == 0real,
                yr != 0real,
                yg != 0real,
                yb != 0real,
        ;
    }
}

/// In a color space whose inverse transform undoes its forward transform, as
/// `LinearColorSpace::new` guarantees, converting linear RGB to XYZ and back gives
/// the same values.
pub proof fn law_rgb_xyz_round_trip(space: LinearColorSpace, red: real, green: real, blue: real)
    requires
        space.spec_inverse_xyz_transform().is_inverse_of(space.spec_xyz_transform()),
    ensures
        ({
            let xyz = transform_value(space.spec_xyz_transform(), red, green, blue);
            transform_value(space.spec_inverse_xyz_transform(), xyz.0, xyz.1, xyz.2) == (red, green, blue)
        }),
{
    lemma_inverse_undoes(
        space.spec_xyz_transform(),
        space.spec_inverse_xyz_transform(),
        red,
        green,
        blue,
    );
}
} // verus!
