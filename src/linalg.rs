//! A 3×3 matrix of exact rationals, with product, vector transform, determinant
//! and inverse.
use vstd::prelude::*;
use crate::rational::Rational;

verus! {

/// `a + b` when both operands exist and the sum is representable.
pub open spec fn opt_add(a: Option<Rational>, b: Option<Rational>) -> Option<Rational> {
    match (a, b) {
        (Some(x), Some(y)) => Rational::spec_add(x, y),
        _ => None,
    }
}

/// `a - b` when both operands exist and the difference is representable.
pub open spec fn opt_sub(a: Option<Rational>, b: Option<Rational>) -> Option<Rational> {
    match (a, b) {
        (Some(x), Some(y)) => Rational::spec_sub(x, y),
        _ => None,
    }
}

/// `a0 * b0 + a1 * b1 + a2 * b2`, evaluated left to right.
pub open spec fn spec_dot3(
    a0: Rational,
    a1: Rational,
    a2: Rational,
    b0: Rational,
    b1: Rational,
    b2: Rational,
) -> Option<Rational> {
    opt_add(
        opt_add(Rational::spec_mul(a0, b0), Rational::spec_mul(a1, b1)),
        Rational::spec_mul(a2, b2),
    )
}

/// `p * q - r * s`.
pub open spec fn spec_det2(p: Rational, q: Rational, r: Rational, s: Rational) -> Option<Rational> {
    opt_sub(Rational::spec_mul(p, q), Rational::spec_mul(r, s))
}

pub fn dot3(
    a0: &Rational,
    a1: &Rational,
    a2: &Rational,
    b0: &Rational,
    b1: &Rational,
    b2: &Rational,
) -> (r: Option<Rational>)
    ensures
        r == spec_dot3(*a0, *a1, *a2, *b0, *b1, *b2),
        r matches Some(x) ==> x.value() == a0.value() * b0.value() + a1.value() * b1.value()
            + a2.value() * b2.value(),
{
    let p0 = match a0.checked_mul(b0) {
        Some(p) => p,
        None => return None,
    };
    let p1 = match a1.checked_mul(b1) {
        Some(p) => p,
        None => return None,
    };
    let p2 = match a2.checked_mul(b2) {
        Some(p) => p,
        None => return None,
    };
    let s = match p0.checked_add(&p1) {
        Some(s) => s,
        None => return None,
    };
    s.checked_add(&p2)
}

fn det2(p: &Rational, q: &Rational, r: &Rational, s: &Rational) -> (out: Option<Rational>)
    ensures
        out == spec_det2(*p, *q, *r, *s),
        out matches Some(x) ==> x.value() == p.value() * q.value() - r.value() * s.value(),
{
    let a = match p.checked_mul(q) {
        Some(a) => a,
        None => return None,
    };
    let b = match r.checked_mul(s) {
        Some(b) => b,
        None => return None,
    };
    a.checked_sub(&b)
}

/// Why a matrix could not be inverted.
#[derive(Clone, Copy, Debug, PartialEq, Eq, Structural)]
pub enum MatrixError {
    /// The determinant is zero.
    Singular,
    /// An intermediate value does not fit in a `Rational`.
    Overflow,
}

/// A 3×3 matrix, entries in row-major order.
#[derive(Clone, Copy, Debug)]
pub struct Matrix3 {
    pub entries: [Rational; 9],
}

/// The determinant of the matrix with rows `(a, b, c)`, `(d, e, f)`, `(g, h, i)`, by
/// cofactor expansion along the first row.
pub open spec fn det3(
    a: real,
    b: real,
    c: real,
    d: real,
    e: real,
    f: real,
    g: real,
    h: real,
    i: real,
) -> real {
    a * (e * i - f * h) + b * (f * g - d * i) + c * (d * h - e * g)
}

/// For entry `k` of the adjugate, the row-major indices `(p, q, r, s)` of the
/// entries whose products `p * q - r * s` it is.
pub open spec fn adjugate_index(k: int) -> (int, int, int, int) {
    if k == 0 {
        (4, 8, 5, 7)
    } else if k == 1 {
        (2, 7, 1, 8)
    } else if k == 2 {
        (1, 5, 2, 4)
    } else if k == 3 {
        (5, 6, 3, 8)
    } else if k == 4 {
        (0, 8, 2, 6)
    } else if k == 5 {
        (2, 3, 0, 5)
    } else if k == 6 {
        (3, 7, 4, 6)
    } else if k == 7 {
        (1, 6, 0, 7)
    } else {
        (0, 4, 1, 3)
    }
}

fn adjugate_index_exec(k: usize) -> (r: (usize, usize, usize, usize))
    requires
        k < 9,
    ensures
        r.0 as int == adjugate_index(k as int).0,
        r.1 as int == adjugate_index(k as int).1,
        r.2 as int == adjugate_index(k as int).2,
        r.3 as int == adjugate_index(k as int).3,
        r.0 < 9 && r.1 < 9 && r.2 < 9 && r.3 < 9,
{
    if k == 0 {
        (4, 8, 5, 7)
    } else if k == 1 {
        (2, 7, 1, 8)
    } else if k == 2 {
        (1, 5, 2, 4)
    } else if k == 3 {
        (5, 6, 3, 8)
    } else if k == 4 {
        (0, 8, 2, 6)
    } else if k == 5 {
        (2, 3, 0, 5)
    } else if k == 6 {
        (3, 7, 4, 6)
    } else if k == 7 {
        (1, 6, 0, 7)
    } else {
        (0, 4, 1, 3)
    }
}

impl Matrix3 {
    /// The value of entry `k` in row-major order.
    pub open spec fn at(self, k: int) -> real {
        self.entries@[k].value()
    }

    /// The value of entry (`i`, `j`).
    pub open spec fn get(self, i: int, j: int) -> real {
        self.at(3 * i + j)
    }

    /// Entry `k` (row-major) of the adjugate, the transposed matrix of cofactors:
    /// `at(p) * at(q) - at(r) * at(s)` for `(p, q, r, s) == adjugate_index(k)`.
    pub open spec fn adjugate_at(self, k: int) -> real {
        let (p, q, r, s) = adjugate_index(k);
        self.at(p) * self.at(q) - self.at(r) * self.at(s)
    }

    /// The determinant, by cofactor expansion along the first row.
    pub open spec fn det_value(self) -> real {
        self.at(0) * self.adjugate_at(0) + self.at(1) * self.adjugate_at(3) + self.at(2)
            * self.adjugate_at(6)
    }

    pub open spec fn spec_adjugate_entry(self, k: int) -> Option<Rational> {
        let (p, q, r, s) = adjugate_index(k);
        spec_det2(self.entries@[p], self.entries@[q], self.entries@[r], self.entries@[s])
    }

    /// The determinant as computed: the first row dotted with the first column of the
    /// adjugate.
    pub open spec fn spec_det(self) -> Option<Rational> {
        match (self.spec_adjugate_entry(0), self.spec_adjugate_entry(3), self.spec_adjugate_entry(6)) {
            (Some(c0), Some(c1), Some(c2)) => spec_dot3(
                self.entries@[0],
                self.entries@[1],
                self.entries@[2],
                c0,
                c1,
                c2,
            ),
            _ => None,
        }
    }

    /// Entry `k` of the inverse as computed from the determinant `d`.
    pub open spec fn spec_inverse_entry(self, d: Rational, k: int) -> Option<Rational> {
        match self.spec_adjugate_entry(k) {
            Some(c) => Rational::spec_div(c, d),
            None => None,
        }
    }

    /// Entry (`i`, `j`) of the product `self × o`, exactly.
    pub open spec fn product_at(self, o: Matrix3, i: int, j: int) -> real {
        self.get(i, 0) * o.get(0, j) + self.get(i, 1) * o.get(1, j) + self.get(i, 2) * o.get(2, j)
    }

    /// Row `i` of `self` applied to the vector `(x, y, z)`, exactly.
    pub open spec fn row_times(self, i: int, x: real, y: real, z: real) -> real {
        self.get(i, 0) * x + self.get(i, 1) * y + self.get(i, 2) * z
    }

    /// Whether `self × o` is the identity matrix.
    pub open spec fn is_inverse_of(self, o: Matrix3) -> bool {
        forall|i: int, j: int|
            0 <= i < 3 && 0 <= j < 3 ==> #[trigger] self.product_at(o, i, j) == (if i == j {
                1real
            } else {
                0real
            })
    }

    pub open spec fn spec_entry_product(self, o: Matrix3, i: int, j: int) -> Option<Rational> {
        spec_dot3(
            self.entries@[3 * i],
            self.entries@[3 * i + 1],
            self.entries@[3 * i + 2],
            o.entries@[j],
            o.entries@[3 + j],
            o.entries@[6 + j],
        )
    }

    pub open spec fn spec_transform(self, v: (Rational, Rational, Rational)) -> Option<
        (Rational, Rational, Rational),
    > {
        let x = spec_dot3(self.entries@[0], self.entries@[1], self.entries@[2], v.0, v.1, v.2);
        let y = spec_dot3(self.entries@[3], self.entries@[4], self.entries@[5], v.0, v.1, v.2);
        let z = spec_dot3(self.entries@[6], self.entries@[7], self.entries@[8], v.0, v.1, v.2);
        if x is Some && y is Some && z is Some {
            Some((x->0, y->0, z->0))
        } else {
            None
        }
    }

    /// Builds the matrix from nine entries in row-major order.
    pub fn new(entries: [Rational; 9]) -> (r: Matrix3)
        ensures
            r.entries == entries,
    {
        Matrix3 { entries }
    }

    /// Entry (`i`, `j`).
    pub fn entry(&self, i: usize, j: usize) -> (r: Rational)
        requires
            i < 3,
            j < 3,
        ensures
            r == self.entries@[3 * i + j],
    {
        self.entries[3 * i + j]
    }

    /// The product `self × o`; `None` when an entry's evaluation overflows.
    pub fn mul(&self, o: &Matrix3) -> (r: Option<Matrix3>)
        ensures
            r is Some <==> forall|q: int|
                0 <= q < 9 ==> #[trigger] self.spec_entry_product(*o, q / 3, q % 3) is Some,
            r matches Some(p) ==> forall|q: int|
                0 <= q < 9 ==> #[trigger] self.spec_entry_product(*o, q / 3, q % 3) == Some(
                    p.entries@[q],
                ),
            r matches Some(p) ==> forall|i: int, j: int|
                0 <= i < 3 && 0 <= j < 3 ==> #[trigger] p.get(i, j) == self.product_at(*o, i, j),
    {
        let mut out = [Rational::zero();9];
        let mut k: usize = 0;
        while k < 9
            invariant
                k <= 9,
                forall|q: int|
                    0 <= q < k ==> #[trigger] self.spec_entry_product(*o, q / 3, q % 3) == Some(
                        out@[q],
                    ),
                forall|q: int|
                    0 <= q < k ==> (#[trigger] out@[q]).value() == self.product_at(*o, q / 3, q % 3),
            decreases 9 - k,
        {
            let i = k / 3;
            let j = k % 3;
            let e = dot3(
                &self.entries[3 * i],
                &self.entries[3 * i + 1],
                &self.entries[3 * i + 2],
                &o.entries[j],
                &o.entries[3 + j],
                &o.entries[6 + j],
            );
            match e {
                Some(x) => {
                    out[k] = x;
                },
                None => {
                    assert(!(self.spec_entry_product(*o, k as int / 3, k as int % 3) is Some));
                    return None;
                },
            }
            k = k + 1;
        }
        let p = Matrix3 { entries: out };
        proof {
            assert forall|i: int, j: int| 0 <= i < 3 && 0 <= j < 3 implies #[trigger] p.get(i, j) == self.product_at(*o, i, j) by {
                let q = 3 * i + j;
                assert(q / 3 == i && q % 3 == j);
                assert(out@[q].value() == self.product_at(*o, q / 3, q % 3));
            }
        }
        Some(p)
    }

    /// Applies the matrix to the column vector `v`.
    pub fn transform_vector(&self, v: (Rational, Rational, Rational)) -> (r: Option<
        (Rational, Rational, Rational),
    >)
        ensures
            r == self.spec_transform(v),
            r matches Some(w) ==> w.0.value() == self.row_times(0, v.0.value(), v.1.value(), v.2.value())
                && w.1.value() == self.row_times(1, v.0.value(), v.1.value(), v.2.value())
                && w.2.value() == self.row_times(2, v.0.value(), v.1.value(), v.2.value()),
    {
        let x = match dot3(&self.entries[0], &self.entries[1], &self.entries[2], &v.0, &v.1, &v.2) {
            Some(x) => x,
            None => return None,
        };
        let y = match dot3(&self.entries[3], &self.entries[4], &self.entries[5], &v.0, &v.1, &v.2) {
            Some(y) => y,
            None => return None,
        };
        let z = match dot3(&self.entries[6], &self.entries[7], &self.entries[8], &v.0, &v.1, &v.2) {
            Some(z) => z,
            None => return None,
        };
        Some((x, y, z))
    }

    fn adjugate_entry(&self, k: usize) -> (r: Option<Rational>)
        requires
            k < 9,
        ensures
            r == self.spec_adjugate_entry(k as int),
            r matches Some(x) ==> x.value() == self.adjugate_at(k as int),
    {
        let (p, q, r, s) = adjugate_index_exec(k);
        det2(&self.entries[p], &self.entries[q], &self.entries[r], &self.entries[s])
    }

    /// The determinant; `None` when an intermediate value does not fit.
    pub fn determinant(&self) -> (r: Option<Rational>)
        ensures
            r == self.spec_det(),
            r matches Some(d) ==> d.value() == self.det_value(),
    {
        let c0 = match self.adjugate_entry(0) {
            Some(c) => c,
            None => return None,
        };
        let c1 = match self.adjugate_entry(3) {
            Some(c) => c,
            None => return None,
        };
        let c2 = match self.adjugate_entry(6) {
            Some(c) => c,
            None => return None,
        };
        dot3(&self.entries[0], &self.entries[1], &self.entries[2], &c0, &c1, &c2)
    }

    /// The inverse: the adjugate divided by the determinant.
    ///
    /// Fails with `Singular` exactly when the determinant is zero, and with
    /// `Overflow` when an intermediate value does not fit.
    pub fn inverse(&self) -> (r: Result<Matrix3, MatrixError>)
        ensures
            r is Err && r->Err_0 == MatrixError::Singular <==> (self.spec_det() matches Some(d)
                && d.value() == 0real),
            r is Err && r->Err_0 == MatrixError::Singular ==> self.det_value() == 0real,
            r is Err && r->Err_0 == MatrixError::Overflow <==> (self.spec_det() is None || (
            self.spec_det() matches Some(d) && d.value() != 0real && exists|k: int|
                0 <= k < 9 && #[trigger] self.spec_inverse_entry(d, k) is None)),
            r matches Ok(inv) ==> self.det_value() != 0real && (self.spec_det() matches Some(d)
                && forall|k: int|
                0 <= k < 9 ==> #[trigger] self.spec_inverse_entry(d, k) == Some(inv.entries@[k])),
            r matches Ok(inv) ==> forall|k: int|
                0 <= k < 9 ==> #[trigger] inv.at(k) == self.adjugate_at(k) / self.det_value(),
    {
        let d = match self.determinant() {
            Some(d) => d,
            None => return Err(MatrixError::Overflow),
        };
        if d.is_zero() {
            return Err(MatrixError::Singular);
        }
        let mut out = [Rational::zero();9];
        let mut k: usize = 0;
        while k < 9
            invariant
                k <= 9,
                self.spec_det() == Some(d),
                d.value() == self.det_value(),
                d.value() != 0real,
                forall|q: int| 0 <= q < k ==> #[trigger] self.spec_inverse_entry(d, q) == Some(out@[q]),
                forall|q: int|
                    0 <= q < k ==> (#[trigger] out@[q]).value() == self.adjugate_at(q) / self.det_value(),
            decreases 9 - k,
        {
            let c = match self.adjugate_entry(k) {
                Some(c) => c,
                None => {
                    assert(self.spec_inverse_entry(d, k as int) is None);
                    return Err(MatrixError::Overflow);
                },
            };
            match c.checked_div(&d) {
                Some(x) => {
                    out[k] = x;
                },
                None => {
                    assert(self.spec_inverse_entry(d, k as int) is None);
                    return Err(MatrixError::Overflow);
                },
            }
            k = k + 1;
        }
        let inv = Matrix3 { entries: out };
        proof {
            assert forall|q: int| 0 <= q < 9 implies #[trigger] inv.at(q) == self.adjugate_at(q) / self.det_value() by {
                assert(out@[q].value() == self.adjugate_at(q) / self.det_value());
            }
            assert(forall|q: int| 0 <= q < 9 ==> #[trigger] self.spec_inverse_entry(d, q) is Some);
        }
        Ok(inv)
    }
}



pub proof fn mul_div(x: real, y: real, den: real)
    requires
        den != 0real,
    ensures
        x * (y / den) == (x * y) / den,
{
    assert(x * (y / den) == (x * y) / den) by (nonlinear_arith)
        requires
            den != 0real,
    ;
}

pub proof fn add_div(p: real, q: real, r: real, den: real)
    requires
        den != 0real,
    ensures
        p / den + q / den + r / den == (p + q + r) / den,
        den / den == 1real,
        0real / den == 0real,
{
    assert(p / den + q / den == (p + q) / den) by (nonlinear_arith)
        requires
            den != 0real,
    ;
    assert((p + q) / den + r / den == (p + q + r) / den) by (nonlinear_arith)
        requires
            den != 0real,
    ;
    assert(den / den == 1real) by (nonlinear_arith)
        requires
            den != 0real,
    ;
    assert(0real / den == 0real) by (nonlinear_arith)
        requires
            den != 0real,
    ;
}
proof fn distr(x: real, y: real, z: real)
    ensures
        x * (y - z) == x * y - x * z,
{
    assert(x * (y - z) == x * y - x * z) by (nonlinear_arith);
}

/// The three ways a product of three factors appears here are equal.
proof fn mono(u: real, v: real, w: real)
    ensures
        u * (v * w) == v * (u * w),
        u * (v * w) == w * (u * v),
{
    assert(u * (v * w) == v * (u * w)) by (nonlinear_arith);
    assert(u * (v * w) == w * (u * v)) by (nonlinear_arith);
}

/// Each row of a matrix dotted with each column of its adjugate gives the
/// determinant on the diagonal and zero elsewhere.
proof fn lemma_adjugate_rows(a: real, b: real, c: real, d: real, e: real, f: real, g: real, h: real, i: real)
    ensures
        a * (e * i - f * h) + b * (f * g - d * i) + c * (d * h - e * g) == (a * (e * i - f * h) + b * (f * g - d * i) + c * (d * h - e * g)),
        a * (c * h - b * i) + b * (a * i - c * g) + c * (b * g - a * h) == 0real,
        a * (b * f - c * e) + b * (c * d - a * f) + c * (a * e - b * d) == 0real,
        d * (e * i - f * h) + e * (f * g - d * i) + f * (d * h - e * g) == 0real,
        d * (c * h - b * i) + e * (a * i - c * g) + f * (b * g - a * h) == (a * (e * i - f * h) + b * (f * g - d * i) + c * (d * h - e * g)),
        d * (b * f - c * e) + e * (c * d - a * f) + f * (a * e - b * d) == 0real,
        g * (e * i - f * h) + h * (f * g - d * i) + i * (d * h - e * g) == 0real,
        g * (c * h - b * i) + h * (a * i - c * g) + i * (b * g - a * h) == 0real,
        g * (b * f - c * e) + h * (c * d - a * f) + i * (a * e - b * d) == (a * (e * i - f * h) + b * (f * g - d * i) + c * (d * h - e * g)),
{
    distr(a, b * f, c * e);
    distr(a, c * h, b * i);
    distr(a, e * i, f * h);
    distr(b, a * i, c * g);
    distr(b, c * d, a * f);
    distr(b, f * g, d * i);
    distr(c, a * e, b * d);
    distr(c, b * g, a * h);
    distr(c, d * h, e * g);
    distr(d, b * f, c * e);
    distr(d, c * h, b * i);
    distr(d, e * i, f * h);
    distr(e, a * i, c * g);
    distr(e, c * d, a * f);
    distr(e, f * g, d * i);
    distr(f, a * e, b * d);
    distr(f, b * g, a * h);
    distr(f, d * h, e * g);
    distr(g, b * f, c * e);
    distr(g, c * h, b * i);
    distr(g, e * i, f * h);
    distr(h, a * i, c * g);
    distr(h, c * d, a * f);
    distr(h, f * g, d * i);
    distr(i, a * e, b * d);
    distr(i, b * g, a * h);
    distr(i, d * h, e * g);
    mono(a, b, f);
    mono(a, b, i);
    mono(a, c, e);
    mono(a, c, h);
    mono(a, e, f);
    mono(a, e, i);
    mono(a, f, h);
    mono(a, h, i);
    mono(b, c, d);
    mono(b, c, g);
    mono(b, d, f);
    mono(b, d, i);
    mono(b, f, g);
    mono(b, g, i);
    mono(c, d, e);
    mono(c, d, h);
    mono(c, e, g);
    mono(c, g, h);
    mono(d, e, i);
    mono(d, f, h);
    mono(d, h, i);
    mono(e, f, g);
    mono(e, g, i);
    mono(f, g, h);
}

/// Entry (`r`, `s`) of a matrix times its adjugate over its determinant.
proof fn lemma_inverse_entry(m: Matrix3, inv: Matrix3, r: int, s: int)
    requires
        0 <= r < 3,
        0 <= s < 3,
        m.det_value() != 0real,
        forall|k: int| 0 <= k < 9 ==> #[trigger] inv.at(k) == m.adjugate_at(k) / m.det_value(),
    ensures
        m.product_at(inv, r, s) == (if r == s { 1real } else { 0real }),
{
    let den = m.det_value();
    lemma_adjugate_rows(m.at(0), m.at(1), m.at(2), m.at(3), m.at(4), m.at(5), m.at(6), m.at(7), m.at(8));
    assert(inv.get(0, s) == m.adjugate_at(s) / den);
    assert(inv.get(1, s) == m.adjugate_at(3 + s) / den);
    assert(inv.get(2, s) == m.adjugate_at(6 + s) / den);
    mul_div(m.get(r, 0), m.adjugate_at(s), den);
    mul_div(m.get(r, 1), m.adjugate_at(3 + s), den);
    mul_div(m.get(r, 2), m.adjugate_at(6 + s), den);
    let (x0, x1, x2) = (m.get(r, 0) * m.adjugate_at(s), m.get(r, 1) * m.adjugate_at(3 + s), m.get(r, 2) * m.adjugate_at(6 + s));
    add_div(x0, x1, x2, den);
    assert(x0 + x1 + x2 == (if r == s { den } else { 0real }));
}

/// A matrix times its adjugate divided by its nonzero determinant is the identity.
pub proof fn lemma_inverse_is_right_inverse(m: Matrix3, inv: Matrix3)
    requires
        m.det_value() != 0real,
        forall|k: int| 0 <= k < 9 ==> #[trigger] inv.at(k) == m.adjugate_at(k) / m.det_value(),
    ensures
        m.is_inverse_of(inv),
{
    assert forall|r: int, s: int| 0 <= r < 3 && 0 <= s < 3 implies #[trigger] m.product_at(inv, r, s) == (if r == s { 1real } else { 0real }) by {
        lemma_inverse_entry(m, inv, r, s);
    }
}


/// Row `j` of the adjugate applied to `(u, v, t)` is the determinant of the matrix
/// with column `j` replaced by `(u, v, t)`.
proof fn lemma_adjugate_cramer(a: real, b: real, c: real, d: real, e: real, f: real, g: real, h: real, i: real, u: real, v: real, t: real)
    ensures
        u * (e * i - f * h) + v * (c * h - b * i) + t * (b * f - c * e) == u * (e * i - f * h) + b * (f * t - v * i) + c * (v * h - e * t),
        u * (f * g - d * i) + v * (a * i - c * g) + t * (c * d - a * f) == a * (v * i - f * t) + u * (f * g - d * i) + c * (d * t - v * g),
        u * (d * h - e * g) + v * (b * g - a * h) + t * (a * e - b * d) == a * (e * t - v * h) + b * (v * g - d * t) + u * (d * h - e * g),
{
    distr(a, e * t, v * h);
    distr(a, v * i, f * t);
    distr(b, f * t, v * i);
    distr(b, v * g, d * t);
    distr(c, d * t, v * g);
    distr(c, v * h, e * t);
    distr(t, a * e, b * d);
    distr(t, b * f, c * e);
    distr(t, c * d, a * f);
    distr(u, d * h, e * g);
    distr(u, e * i, f * h);
    distr(u, f * g, d * i);
    distr(v, a * i, c * g);
    distr(v, b * g, a * h);
    distr(v, c * h, b * i);
    mono(a, e, t);
    mono(a, f, t);
    mono(a, h, v);
    mono(a, i, v);
    mono(b, d, t);
    mono(b, f, t);
    mono(b, g, v);
    mono(b, i, v);
    mono(c, d, t);
    mono(c, e, t);
    mono(c, g, v);
    mono(c, h, v);
    mono(d, h, u);
    mono(d, i, u);
    mono(e, g, u);
    mono(e, i, u);
    mono(f, g, u);
    mono(f, h, u);
}

/// `(x0 / den) * u + (x1 / den) * v + (x2 / den) * t == (u * x0 + v * x1 + t * x2) / den`.
pub proof fn lemma_scaled_dot(x0: real, x1: real, x2: real, u: real, v: real, t: real, den: real)
    requires
        den != 0real,
    ensures
        (x0 / den) * u + (x1 / den) * v + (x2 / den) * t == (u * x0 + v * x1 + t * x2) / den,
{
    mul_div(u, x0, den);
    mul_div(v, x1, den);
    mul_div(t, x2, den);
    add_div(u * x0, v * x1, t * x2, den);
    assert((x0 / den) * u == u * (x0 / den)) by (nonlinear_arith);
    assert((x1 / den) * v == v * (x1 / den)) by (nonlinear_arith);
    assert((x2 / den) * t == t * (x2 / den)) by (nonlinear_arith);
}

/// The inverse applied to `w` solves `m * s = w`: entry `j` of the result is the
/// determinant with column `j` replaced by `w`, over the determinant.
pub proof fn lemma_inverse_applied(m: Matrix3, inv: Matrix3, u: real, v: real, t: real, j: int)
    requires
        0 <= j < 3,
        m.det_value() != 0real,
        forall|k: int| 0 <= k < 9 ==> #[trigger] inv.at(k) == m.adjugate_at(k) / m.det_value(),
    ensures
        inv.row_times(j, u, v, t) == (if j == 0 {
            det3(u, m.at(1), m.at(2), v, m.at(4), m.at(5), t, m.at(7), m.at(8))
        } else if j == 1 {
            det3(m.at(0), u, m.at(2), m.at(3), v, m.at(5), m.at(6), t, m.at(8))
        } else {
            det3(m.at(0), m.at(1), u, m.at(3), m.at(4), v, m.at(6), m.at(7), t)
        }) / m.det_value(),
{
    lemma_adjugate_cramer(m.at(0), m.at(1), m.at(2), m.at(3), m.at(4), m.at(5), m.at(6), m.at(7), m.at(8), u, v, t);
    assert(inv.get(j, 0) == m.adjugate_at(3 * j) / m.det_value());
    assert(inv.get(j, 1) == m.adjugate_at(3 * j + 1) / m.det_value());
    assert(inv.get(j, 2) == m.adjugate_at(3 * j + 2) / m.det_value());
    lemma_scaled_dot(m.adjugate_at(3 * j), m.adjugate_at(3 * j + 1), m.adjugate_at(3 * j + 2), u, v, t, m.det_value());
}

/// `s0`, `s1` or `s2` by index.
pub open spec fn pick(s0: real, s1: real, s2: real, j: int) -> real {
    if j == 0 {
        s0
    } else if j == 1 {
        s1
    } else {
        s2
    }
}

proof fn lemma_cancel(x: real, y: real, s: real)
    requires
        s != 0real,
    ensures
        (x * s) * (y / s) == x * y,
{
    assert((x * s) * (y / s) == x * y) by (nonlinear_arith)
        requires
            s != 0real,
    ;
}

/// If `p × q = I`, scaling column `j` of `p` by `s_j` and row `j` of `q` by
/// `1 / s_j` keeps the product the identity.
pub proof fn lemma_scaled_inverse(p: Matrix3, q: Matrix3, m: Matrix3, n: Matrix3, s0: real, s1: real, s2: real)
    requires
        p.is_inverse_of(q),
        s0 != 0real,
        s1 != 0real,
        s2 != 0real,
        forall|i: int, j: int|
            0 <= i < 3 && 0 <= j < 3 ==> #[trigger] m.get(i, j) == p.get(i, j) * pick(s0, s1, s2, j),
        forall|j: int, k: int|
            0 <= j < 3 && 0 <= k < 3 ==> #[trigger] n.get(j, k) == q.get(j, k) / pick(s0, s1, s2, j),
    ensures
        m.is_inverse_of(n),
{
    assert forall|i: int, k: int| 0 <= i < 3 && 0 <= k < 3 implies #[trigger] m.product_at(n, i, k) == (if i == k { 1real } else { 0real }) by {
        assert(p.product_at(q, i, k) == (if i == k { 1real } else { 0real }));
        assert(m.get(i, 0) == p.get(i, 0) * s0);
        assert(m.get(i, 1) == p.get(i, 1) * s1);
        assert(m.get(i, 2) == p.get(i, 2) * s2);
        assert(n.get(0, k) == q.get(0, k) / s0);
        assert(n.get(1, k) == q.get(1, k) / s1);
        assert(n.get(2, k) == q.get(2, k) / s2);
        lemma_cancel(p.get(i, 0), q.get(0, k), s0);
        lemma_cancel(p.get(i, 1), q.get(1, k), s1);
        lemma_cancel(p.get(i, 2), q.get(2, k), s2);
    }
}

proof fn distr3(o: real, x: real, y: real, z: real)
    ensures
        o * (x + y + z) == o * x + o * y + o * z,
{
    assert(o * (x + y + z) == o * x + o * y + o * z) by (nonlinear_arith);
}

proof fn distr_outer(o: real, x: real, y: real, z: real)
    ensures
        o * (x * (y - z)) == o * (x * y) - o * (x * z),
{
    assert(o * (x * (y - z)) == o * (x * y) - o * (x * z)) by (nonlinear_arith);
}

/// Cramer's rule, multiplied out: row `r` of the matrix dotted with the
/// determinants obtained by replacing each column with `(u, v, t)` is the `r`-th
/// entry of `(u, v, t)` times the determinant.
pub proof fn lemma_cramer_rows(a: real, b: real, c: real, d: real, e: real, f: real, g: real, h: real, i: real, u: real, v: real, t: real)
    ensures
        a * (u * (e * i - f * h) + b * (f * t - v * i) + c * (v * h - e * t)) + b * (a * (v * i - f * t) + u * (f * g - d * i) + c * (d * t - v * g)) + c * (a * (e * t - v * h) + b * (v * g - d * t) + u * (d * h - e * g)) == u * (a * (e * i - f * h) + b * (f * g - d * i) + c * (d * h - e * g)),
        d * (u * (e * i - f * h) + b * (f * t - v * i) + c * (v * h - e * t)) + e * (a * (v * i - f * t) + u * (f * g - d * i) + c * (d * t - v * g)) + f * (a * (e * t - v * h) + b * (v * g - d * t) + u * (d * h - e * g)) == v * (a * (e * i - f * h) + b * (f * g - d * i) + c * (d * h - e * g)),
        g * (u * (e * i - f * h) + b * (f * t - v * i) + c * (v * h - e * t)) + h * (a * (v * i - f * t) + u * (f * g - d * i) + c * (d * t - v * g)) + i * (a * (e * t - v * h) + b * (v * g - d * t) + u * (d * h - e * g)) == t * (a * (e * i - f * h) + b * (f * g - d * i) + c * (d * h - e * g)),
{
    distr3(a, u * (e * i - f * h) , b * (f * t - v * i) , c * (v * h - e * t));
    distr_outer(a, u, e * i, f * h);
    assert(a * (u * (e * i)) == ((a * e) * i) * u) by (nonlinear_arith);
    assert(a * (u * (f * h)) == ((a * f) * h) * u) by (nonlinear_arith);
    distr_outer(a, b, f * t, v * i);
    assert(a * (b * (f * t)) == ((a * b) * f) * t) by (nonlinear_arith);
    assert(a * (b * (v * i)) == ((a * b) * i) * v) by (nonlinear_arith);
    distr_outer(a, c, v * h, e * t);
    assert(a * (c * (v * h)) == ((a * c) * h) * v) by (nonlinear_arith);
    assert(a * (c * (e * t)) == ((a * c) * e) * t) by (nonlinear_arith);
    distr3(b, a * (v * i - f * t) , u * (f * g - d * i) , c * (d * t - v * g));
    distr_outer(b, a, v * i, f * t);
    assert(b * (a * (v * i)) == ((a * b) * i) * v) by (nonlinear_arith);
    assert(b * (a * (f * t)) == ((a * b) * f) * t) by (nonlinear_arith);
    distr_outer(b, u, f * g, d * i);
    assert(b * (u * (f * g)) == ((b * f) * g) * u) by (nonlinear_arith);
    assert(b * (u * (d * i)) == ((b * d) * i) * u) by (nonlinear_arith);
    distr_outer(b, c, d * t, v * g);
    assert(b * (c * (d * t)) == ((b * c) * d) * t) by (nonlinear_arith);
    assert(b * (c * (v * g)) == ((b * c) * g) * v) by (nonlinear_arith);
    distr3(c, a * (e * t - v * h) , b * (v * g - d * t) , u * (d * h - e * g));
    distr_outer(c, a, e * t, v * h);
    assert(c * (a * (e * t)) == ((a * c) * e) * t) by (nonlinear_arith);
    assert(c * (a * (v * h)) == ((a * c) * h) * v) by (nonlinear_arith);
    distr_outer(c, b, v * g, d * t);
    assert(c * (b * (v * g)) == ((b * c) * g) * v) by (nonlinear_arith);
    assert(c * (b * (d * t)) == ((b * c) * d) * t) by (nonlinear_arith);
    distr_outer(c, u, d * h, e * g);
    assert(c * (u * (d * h)) == ((c * d) * h) * u) by (nonlinear_arith);
    assert(c * (u * (e * g)) == ((c * e) * g) * u) by (nonlinear_arith);
    distr3(u, a * (e * i - f * h) , b * (f * g - d * i) , c * (d * h - e * g));
    distr_outer(u, a, e * i, f * h);
    assert(u * (a * (e * i)) == ((a * e) * i) * u) by (nonlinear_arith);
    assert(u * (a * (f * h)) == ((a * f) * h) * u) by (nonlinear_arith);
    distr_outer(u, b, f * g, d * i);
    assert(u * (b * (f * g)) == ((b * f) * g) * u) by (nonlinear_arith);
    assert(u * (b * (d * i)) == ((b * d) * i) * u) by (nonlinear_arith);
    distr_outer(u, c, d * h, e * g);
    assert(u * (c * (d * h)) == ((c * d) * h) * u) by (nonlinear_arith);
    assert(u * (c * (e * g)) == ((c * e) * g) * u) by (nonlinear_arith);
    distr3(d, u * (e * i - f * h) , b * (f * t - v * i) , c * (v * h - e * t));
    distr_outer(d, u, e * i, f * h);
    assert(d * (u * (e * i)) == ((d * e) * i) * u) by (nonlinear_arith);
    assert(d * (u * (f * h)) == ((d * f) * h) * u) by (nonlinear_arith);
    distr_outer(d, b, f * t, v * i);
    assert(d * (b * (f * t)) == ((b * d) * f) * t) by (nonlinear_arith);
    assert(d * (b * (v * i)) == ((b * d) * i) * v) by (nonlinear_arith);
    distr_outer(d, c, v * h, e * t);
    assert(d * (c * (v * h)) == ((c * d) * h) * v) by (nonlinear_arith);
    assert(d * (c * (e * t)) == ((c * d) * e) * t) by (nonlinear_arith);
    distr3(e, a * (v * i - f * t) , u * (f * g - d * i) , c * (d * t - v * g));
    distr_outer(e, a, v * i, f * t);
    assert(e * (a * (v * i)) == ((a * e) * i) * v) by (nonlinear_arith);
    assert(e * (a * (f * t)) == ((a * e) * f) * t) by (nonlinear_arith);
    distr_outer(e, u, f * g, d * i);
    assert(e * (u * (f * g)) == ((e * f) * g) * u) by (nonlinear_arith);
    assert(e * (u * (d * i)) == ((d * e) * i) * u) by (nonlinear_arith);
    distr_outer(e, c, d * t, v * g);
    assert(e * (c * (d * t)) == ((c * d) * e) * t) by (nonlinear_arith);
    assert(e * (c * (v * g)) == ((c * e) * g) * v) by (nonlinear_arith);
    distr3(f, a * (e * t - v * h) , b * (v * g - d * t) , u * (d * h - e * g));
    distr_outer(f, a, e * t, v * h);
    assert(f * (a * (e * t)) == ((a * e) * f) * t) by (nonlinear_arith);
    assert(f * (a * (v * h)) == ((a * f) * h) * v) by (nonlinear_arith);
    distr_outer(f, b, v * g, d * t);
    assert(f * (b * (v * g)) == ((b * f) * g) * v) by (nonlinear_arith);
    assert(f * (b * (d * t)) == ((b * d) * f) * t) by (nonlinear_arith);
    distr_outer(f, u, d * h, e * g);
    assert(f * (u * (d * h)) == ((d * f) * h) * u) by (nonlinear_arith);
    assert(f * (u * (e * g)) == ((e * f) * g) * u) by (nonlinear_arith);
    distr3(v, a * (e * i - f * h) , b * (f * g - d * i) , c * (d * h - e * g));
    distr_outer(v, a, e * i, f * h);
    assert(v * (a * (e * i)) == ((a * e) * i) * v) by (nonlinear_arith);
    assert(v * (a * (f * h)) == ((a * f) * h) * v) by (nonlinear_arith);
    distr_outer(v, b, f * g, d * i);
    assert(v * (b * (f * g)) == ((b * f) * g) * v) by (nonlinear_arith);
    assert(v * (b * (d * i)) == ((b * d) * i) * v) by (nonlinear_arith);
    distr_outer(v, c, d * h, e * g);
    assert(v * (c * (d * h)) == ((c * d) * h) * v) by (nonlinear_arith);
    assert(v * (c * (e * g)) == ((c * e) * g) * v) by (nonlinear_arith);
    distr3(g, u * (e * i - f * h) , b * (f * t - v * i) , c * (v * h - e * t));
    distr_outer(g, u, e * i, f * h);
    assert(g * (u * (e * i)) == ((e * g) * i) * u) by (nonlinear_arith);
    assert(g * (u * (f * h)) == ((f * g) * h) * u) by (nonlinear_arith);
    distr_outer(g, b, f * t, v * i);
    assert(g * (b * (f * t)) == ((b * f) * g) * t) by (nonlinear_arith);
    assert(g * (b * (v * i)) == ((b * g) * i) * v) by (nonlinear_arith);
    distr_outer(g, c, v * h, e * t);
    assert(g * (c * (v * h)) == ((c * g) * h) * v) by (nonlinear_arith);
    assert(g * (c * (e * t)) == ((c * e) * g) * t) by (nonlinear_arith);
    distr3(h, a * (v * i - f * t) , u * (f * g - d * i) , c * (d * t - v * g));
    distr_outer(h, a, v * i, f * t);
    assert(h * (a * (v * i)) == ((a * h) * i) * v) by (nonlinear_arith);
    assert(h * (a * (f * t)) == ((a * f) * h) * t) by (nonlinear_arith);
    distr_outer(h, u, f * g, d * i);
    assert(h * (u * (f * g)) == ((f * g) * h) * u) by (nonlinear_arith);
    assert(h * (u * (d * i)) == ((d * h) * i) * u) by (nonlinear_arith);
    distr_outer(h, c, d * t, v * g);
    assert(h * (c * (d * t)) == ((c * d) * h) * t) by (nonlinear_arith);
    assert(h * (c * (v * g)) == ((c * g) * h) * v) by (nonlinear_arith);
    distr3(i, a * (e * t - v * h) , b * (v * g - d * t) , u * (d * h - e * g));
    distr_outer(i, a, e * t, v * h);
    assert(i * (a * (e * t)) == ((a * e) * i) * t) by (nonlinear_arith);
    assert(i * (a * (v * h)) == ((a * h) * i) * v) by (nonlinear_arith);
    distr_outer(i, b, v * g, d * t);
    assert(i * (b * (v * g)) == ((b * g) * i) * v) by (nonlinear_arith);
    assert(i * (b * (d * t)) == ((b * d) * i) * t) by (nonlinear_arith);
    distr_outer(i, u, d * h, e * g);
    assert(i * (u * (d * h)) == ((d * h) * i) * u) by (nonlinear_arith);
    assert(i * (u * (e * g)) == ((e * g) * i) * u) by (nonlinear_arith);
    distr3(t, a * (e * i - f * h) , b * (f * g - d * i) , c * (d * h - e * g));
    distr_outer(t, a, e * i, f * h);
    assert(t * (a * (e * i)) == ((a * e) * i) * t) by (nonlinear_arith);
    assert(t * (a * (f * h)) == ((a * f) * h) * t) by (nonlinear_arith);
    distr_outer(t, b, f * g, d * i);
    assert(t * (b * (f * g)) == ((b * f) * g) * t) by (nonlinear_arith);
    assert(t * (b * (d * i)) == ((b * d) * i) * t) by (nonlinear_arith);
    distr_outer(t, c, d * h, e * g);
    assert(t * (c * (d * h)) == ((c * d) * h) * t) by (nonlinear_arith);
    assert(t * (c * (e * g)) == ((c * e) * g) * t) by (nonlinear_arith);
}

proof fn lemma_div_cancel(x: real, den: real)
    requires
        den != 0real,
    ensures
        (x * den) / den == x,
{
    assert((x * den) / den == x) by (nonlinear_arith)
        requires
            den != 0real,
    ;
}

/// `x0 * (n0 / den) + x1 * (n1 / den) + x2 * (n2 / den)` is `w` whenever
/// `x0 * n0 + x1 * n1 + x2 * n2 == w * den`.
pub proof fn lemma_solved_row(x0: real, x1: real, x2: real, n0: real, n1: real, n2: real, w: real, den: real)
    requires
        den != 0real,
        x0 * n0 + x1 * n1 + x2 * n2 == w * den,
    ensures
        x0 * (n0 / den) + x1 * (n1 / den) + x2 * (n2 / den) == w,
{
    mul_div(x0, n0, den);
    mul_div(x1, n1, den);
    mul_div(x2, n2, den);
    add_div(x0 * n0, x1 * n1, x2 * n2, den);
    lemma_div_cancel(w, den);
}

/// Scaling one column of a matrix by `s` scales its determinant by `s`.
pub proof fn lemma_det_scale_columns(a: real, b: real, c: real, d: real, e: real, f: real, g: real, h: real, i: real, s: real)
    ensures
        (a * s) * (e * i - f * h) + b * (f * (g * s) - (d * s) * i) + c * ((d * s) * h - e * (g * s)) == s * (a * (e * i - f * h) + b * (f * g - d * i) + c * (d * h - e * g)),
        a * ((e * s) * i - f * (h * s)) + (b * s) * (f * g - d * i) + c * (d * (h * s) - (e * s) * g) == s * (a * (e * i - f * h) + b * (f * g - d * i) + c * (d * h - e * g)),
        a * (e * (i * s) - (f * s) * h) + b * ((f * s) * g - d * (i * s)) + (c * s) * (d * h - e * g) == s * (a * (e * i - f * h) + b * (f * g - d * i) + c * (d * h - e * g)),
{
    distr((a * s), e * i, f * h);
    assert((a * s) * (e * i) == (((a * e) * i) * s)) by (nonlinear_arith);
    assert((a * s) * (f * h) == (((a * f) * h) * s)) by (nonlinear_arith);
    distr(b, f * (g * s), (d * s) * i);
    assert(b * (f * (g * s)) == (((b * f) * g) * s)) by (nonlinear_arith);
    assert(b * ((d * s) * i) == (((b * d) * i) * s)) by (nonlinear_arith);
    distr(c, (d * s) * h, e * (g * s));
    assert(c * ((d * s) * h) == (((c * d) * h) * s)) by (nonlinear_arith);
    assert(c * (e * (g * s)) == (((c * e) * g) * s)) by (nonlinear_arith);
    distr3(s, a * (e * i - f * h), b * (f * g - d * i), c * (d * h - e * g));
    distr_outer(s, a, e * i, f * h);
    assert(s * (a * (e * i)) == (((a * e) * i) * s)) by (nonlinear_arith);
    assert(s * (a * (f * h)) == (((a * f) * h) * s)) by (nonlinear_arith);
    distr_outer(s, b, f * g, d * i);
    assert(s * (b * (f * g)) == (((b * f) * g) * s)) by (nonlinear_arith);
    assert(s * (b * (d * i)) == (((b * d) * i) * s)) by (nonlinear_arith);
    distr_outer(s, c, d * h, e * g);
    assert(s * (c * (d * h)) == (((c * d) * h) * s)) by (nonlinear_arith);
    assert(s * (c * (e * g)) == (((c * e) * g) * s)) by (nonlinear_arith);
    distr(a, (e * s) * i, f * (h * s));
    assert(a * ((e * s) * i) == (((a * e) * i) * s)) by (nonlinear_arith);
    assert(a * (f * (h * s)) == (((a * f) * h) * s)) by (nonlinear_arith);
    distr((b * s), f * g, d * i);
    assert((b * s) * (f * g) == (((b * f) * g) * s)) by (nonlinear_arith);
    assert((b * s) * (d * i) == (((b * d) * i) * s)) by (nonlinear_arith);
    distr(c, d * (h * s), (e * s) * g);
    assert(c * (d * (h * s)) == (((c * d) * h) * s)) by (nonlinear_arith);
    assert(c * ((e * s) * g) == (((c * e) * g) * s)) by (nonlinear_arith);
    distr3(s, a * (e * i - f * h), b * (f * g - d * i), c * (d * h - e * g));
    distr_outer(s, a, e * i, f * h);
    distr_outer(s, b, f * g, d * i);
    distr_outer(s, c, d * h, e * g);
    distr(a, e * (i * s), (f * s) * h);
    assert(a * (e * (i * s)) == (((a * e) * i) * s)) by (nonlinear_arith);
    assert(a * ((f * s) * h) == (((a * f) * h) * s)) by (nonlinear_arith);
    distr(b, (f * s) * g, d * (i * s));
    assert(b * ((f * s) * g) == (((b * f) * g) * s)) by (nonlinear_arith);
    assert(b * (d * (i * s)) == (((b * d) * i) * s)) by (nonlinear_arith);
    distr((c * s), d * h, e * g);
    assert((c * s) * (d * h) == (((c * d) * h) * s)) by (nonlinear_arith);
    assert((c * s) * (e * g) == (((c * e) * g) * s)) by (nonlinear_arith);
    distr3(s, a * (e * i - f * h), b * (f * g - d * i), c * (d * h - e * g));
    distr_outer(s, a, e * i, f * h);
    distr_outer(s, b, f * g, d * i);
    distr_outer(s, c, d * h, e * g);
}

/// With a middle row of ones, the determinant does not change when the first row
/// plus ones is added to the last row.
pub proof fn lemma_det_ones_row(a: real, b: real, c: real, g: real, h: real, i: real)
    ensures
        det3(a, b, c, 1real, 1real, 1real, g + a + 1real, h + b + 1real, i + c + 1real) == det3(
            a,
            b,
            c,
            1real,
            1real,
            1real,
            g,
            h,
            i,
        ),
{
    distr(a, 1real * (i + c + 1real), 1real * (h + b + 1real));
    distr(b, 1real * (g + a + 1real), 1real * (i + c + 1real));
    distr(c, 1real * (h + b + 1real), 1real * (g + a + 1real));
    distr(a, 1real * i, 1real * h);
    distr(b, 1real * g, 1real * i);
    distr(c, 1real * h, 1real * g);
    assert(a * (c + 1real) == a * c + a) by (nonlinear_arith);
    assert(a * (b + 1real) == a * b + a) by (nonlinear_arith);
    assert(b * (a + 1real) == a * b + b) by (nonlinear_arith);
    assert(b * (c + 1real) == b * c + b) by (nonlinear_arith);
    assert(c * (b + 1real) == b * c + c) by (nonlinear_arith);
    assert(c * (a + 1real) == a * c + c) by (nonlinear_arith);
    assert(a * (i + c + 1real) == a * i + a * (c + 1real)) by (nonlinear_arith);
    assert(a * (h + b + 1real) == a * h + a * (b + 1real)) by (nonlinear_arith);
    assert(b * (g + a + 1real) == b * g + b * (a + 1real)) by (nonlinear_arith);
    assert(b * (i + c + 1real) == b * i + b * (c + 1real)) by (nonlinear_arith);
    assert(c * (h + b + 1real) == c * h + c * (b + 1real)) by (nonlinear_arith);
    assert(c * (g + a + 1real) == c * g + c * (a + 1real)) by (nonlinear_arith);
}

/// Each row of the adjugate dotted with each column of the matrix gives the
/// determinant on the diagonal and zero elsewhere.
proof fn lemma_adjugate_columns(a: real, b: real, c: real, d: real, e: real, f: real, g: real, h: real, i: real)
    ensures
        a * (e * i - f * h) + d * (c * h - b * i) + g * (b * f - c * e) == (a * (e * i - f * h) + b * (f * g - d * i) + c * (d * h - e * g)),
        b * (e * i - f * h) + e * (c * h - b * i) + h * (b * f - c * e) == 0real,
        c * (e * i - f * h) + f * (c * h - b * i) + i * (b * f - c * e) == 0real,
        a * (f * g - d * i) + d * (a * i - c * g) + g * (c * d - a * f) == 0real,
        b * (f * g - d * i) + e * (a * i - c * g) + h * (c * d - a * f) == (a * (e * i - f * h) + b * (f * g - d * i) + c * (d * h - e * g)),
        c * (f * g - d * i) + f * (a * i - c * g) + i * (c * d - a * f) == 0real,
        a * (d * h - e * g) + d * (b * g - a * h) + g * (a * e - b * d) == 0real,
        b * (d * h - e * g) + e * (b * g - a * h) + h * (a * e - b * d) == 0real,
        c * (d * h - e * g) + f * (b * g - a * h) + i * (a * e - b * d) == (a * (e * i - f * h) + b * (f * g - d * i) + c * (d * h - e * g)),
{
    distr(a, d * h, e * g);
    distr(a, e * i, f * h);
    distr(a, f * g, d * i);
    distr(b, d * h, e * g);
    distr(b, e * i, f * h);
    distr(b, f * g, d * i);
    distr(c, d * h, e * g);
    distr(c, e * i, f * h);
    distr(c, f * g, d * i);
    distr(d, a * i, c * g);
    distr(d, b * g, a * h);
    distr(d, c * h, b * i);
    distr(e, a * i, c * g);
    distr(e, b * g, a * h);
    distr(e, c * h, b * i);
    distr(f, a * i, c * g);
    distr(f, b * g, a * h);
    distr(f, c * h, b * i);
    distr(g, a * e, b * d);
    distr(g, b * f, c * e);
    distr(g, c * d, a * f);
    distr(h, a * e, b * d);
    distr(h, b * f, c * e);
    distr(h, c * d, a * f);
    distr(i, a * e, b * d);
    distr(i, b * f, c * e);
    distr(i, c * d, a * f);
    mono(a, d, h);
    mono(a, d, i);
    mono(a, e, g);
    mono(a, e, h);
    mono(a, e, i);
    mono(a, f, g);
    mono(a, f, h);
    mono(a, f, i);
    mono(b, d, g);
    mono(b, d, h);
    mono(b, d, i);
    mono(b, e, g);
    mono(b, e, i);
    mono(b, f, g);
    mono(b, f, h);
    mono(b, f, i);
    mono(c, d, g);
    mono(c, d, h);
    mono(c, d, i);
    mono(c, e, g);
    mono(c, e, h);
    mono(c, e, i);
    mono(c, f, g);
    mono(c, f, h);
}

proof fn lemma_left_inverse_entry(m: Matrix3, inv: Matrix3, r: int, s: int)
    requires
        0 <= r < 3,
        0 <= s < 3,
        m.det_value() != 0real,
        forall|k: int| 0 <= k < 9 ==> #[trigger] inv.at(k) == m.adjugate_at(k) / m.det_value(),
    ensures
        inv.product_at(m, r, s) == (if r == s { 1real } else { 0real }),
{
    let den = m.det_value();
    lemma_adjugate_columns(m.at(0), m.at(1), m.at(2), m.at(3), m.at(4), m.at(5), m.at(6), m.at(7), m.at(8));
    assert(inv.get(r, 0) == m.adjugate_at(3 * r) / den);
    assert(inv.get(r, 1) == m.adjugate_at(3 * r + 1) / den);
    assert(inv.get(r, 2) == m.adjugate_at(3 * r + 2) / den);
    let (y0, y1, y2) = (m.adjugate_at(3 * r), m.adjugate_at(3 * r + 1), m.adjugate_at(3 * r + 2));
    let (x0, x1, x2) = (m.get(0, s), m.get(1, s), m.get(2, s));
    assert((y0 / den) * x0 == x0 * (y0 / den)) by (nonlinear_arith);
    assert((y1 / den) * x1 == x1 * (y1 / den)) by (nonlinear_arith);
    assert((y2 / den) * x2 == x2 * (y2 / den)) by (nonlinear_arith);
    mul_div(x0, y0, den);
    mul_div(x1, y1, den);
    mul_div(x2, y2, den);
    add_div(x0 * y0, x1 * y1, x2 * y2, den);
    assert(x0 * y0 + x1 * y1 + x2 * y2 == (if r == s { den } else { 0real }));
}

/// The adjugate divided by the nonzero determinant is also a left inverse.
pub proof fn lemma_inverse_is_left_inverse(m: Matrix3, inv: Matrix3)
    requires
        m.det_value() != 0real,
        forall|k: int| 0 <= k < 9 ==> #[trigger] inv.at(k) == m.adjugate_at(k) / m.det_value(),
    ensures
        inv.is_inverse_of(m),
{
    assert forall|r: int, s: int| 0 <= r < 3 && 0 <= s < 3 implies #[trigger] inv.product_at(m, r, s) == (if r == s { 1real } else { 0real }) by {
        lemma_left_inverse_entry(m, inv, r, s);
    }
}

proof fn lemma_cancel_left(x: real, y: real, s: real, t: real)
    requires
        s != 0real,
    ensures
        (x / s) * (y * t) == (x * y) * (t / s),
{
    assert((x / s) * (y * t) == (x * y) * (t / s)) by (nonlinear_arith)
        requires
            s != 0real,
    ;
}

/// If `q × p = I`, then with column `j` of `p` scaled by `s_j` and row `j` of
/// `q` by `1 / s_j`, the product `n × m` is still the identity.
pub proof fn lemma_scaled_left_inverse(p: Matrix3, q: Matrix3, m: Matrix3, n: Matrix3, s0: real, s1: real, s2: real)
    requires
        q.is_inverse_of(p),
        s0 != 0real,
        s1 != 0real,
        s2 != 0real,
        forall|i: int, j: int|
            0 <= i < 3 && 0 <= j < 3 ==> #[trigger] m.get(i, j) == p.get(i, j) * pick(s0, s1, s2, j),
        forall|j: int, k: int|
            0 <= j < 3 && 0 <= k < 3 ==> #[trigger] n.get(j, k) == q.get(j, k) / pick(s0, s1, s2, j),
    ensures
        n.is_inverse_of(m),
{
    assert forall|j: int, k: int| 0 <= j < 3 && 0 <= k < 3 implies #[trigger] n.product_at(m, j, k) == (if j == k { 1real } else { 0real }) by {
        let sj = pick(s0, s1, s2, j);
        let sk = pick(s0, s1, s2, k);
        assert(q.product_at(p, j, k) == (if j == k { 1real } else { 0real }));
        assert(n.get(j, 0) == q.get(j, 0) / sj);
        assert(n.get(j, 1) == q.get(j, 1) / sj);
        assert(n.get(j, 2) == q.get(j, 2) / sj);
        assert(m.get(0, k) == p.get(0, k) * sk);
        assert(m.get(1, k) == p.get(1, k) * sk);
        assert(m.get(2, k) == p.get(2, k) * sk);
        lemma_cancel_left(q.get(j, 0), p.get(0, k), sj, sk);
        lemma_cancel_left(q.get(j, 1), p.get(1, k), sj, sk);
        lemma_cancel_left(q.get(j, 2), p.get(2, k), sj, sk);
        let t = sk / sj;
        assert(q.get(j, 0) * p.get(0, k) * t + q.get(j, 1) * p.get(1, k) * t + q.get(j, 2) * p.get(2, k) * t == (q.get(j, 0) * p.get(0, k) + q.get(j, 1) * p.get(1, k) + q.get(j, 2) * p.get(2, k)) * t) by (nonlinear_arith);
        if j == k {
            assert(sk / sj == 1real) by (nonlinear_arith)
                requires
                    sj == sk,
                    sj != 0real,
            ;
        }
    }
}

proof fn distr3_right(x: real, y: real, z: real, v: real)
    ensures
        (x + y + z) * v == x * v + y * v + z * v,
{
    assert((x + y + z) * v == x * v + y * v + z * v) by (nonlinear_arith);
}

proof fn assoc(x: real, y: real, v: real)
    ensures
        x * (y * v) == (x * y) * v,
{
    assert(x * (y * v) == (x * y) * v) by (nonlinear_arith);
}

proof fn lemma_undo_row(m: Matrix3, n: Matrix3, v0: real, v1: real, v2: real, i: int)
    requires
        0 <= i < 3,
        n.is_inverse_of(m),
    ensures
        n.row_times(i, m.row_times(0, v0, v1, v2), m.row_times(1, v0, v1, v2), m.row_times(2, v0, v1, v2))
            == (if i == 0 {
            v0
        } else if i == 1 {
            v1
        } else {
            v2
        }),
{
    let (w0, w1, w2) = (m.row_times(0, v0, v1, v2), m.row_times(1, v0, v1, v2), m.row_times(2, v0, v1, v2));
    distr3(n.get(i, 0), m.get(0, 0) * v0, m.get(0, 1) * v1, m.get(0, 2) * v2);
    distr3(n.get(i, 1), m.get(1, 0) * v0, m.get(1, 1) * v1, m.get(1, 2) * v2);
    distr3(n.get(i, 2), m.get(2, 0) * v0, m.get(2, 1) * v1, m.get(2, 2) * v2);
    assoc(n.get(i, 0), m.get(0, 0), v0);
    assoc(n.get(i, 0), m.get(0, 1), v1);
    assoc(n.get(i, 0), m.get(0, 2), v2);
    assoc(n.get(i, 1), m.get(1, 0), v0);
    assoc(n.get(i, 1), m.get(1, 1), v1);
    assoc(n.get(i, 1), m.get(1, 2), v2);
    assoc(n.get(i, 2), m.get(2, 0), v0);
    assoc(n.get(i, 2), m.get(2, 1), v1);
    assoc(n.get(i, 2), m.get(2, 2), v2);
    distr3_right(n.get(i, 0) * m.get(0, 0), n.get(i, 1) * m.get(1, 0), n.get(i, 2) * m.get(2, 0), v0);
    distr3_right(n.get(i, 0) * m.get(0, 1), n.get(i, 1) * m.get(1, 1), n.get(i, 2) * m.get(2, 1), v1);
    distr3_right(n.get(i, 0) * m.get(0, 2), n.get(i, 1) * m.get(1, 2), n.get(i, 2) * m.get(2, 2), v2);
    assert(n.product_at(m, i, 0) == (if i == 0 { 1real } else { 0real }));
    assert(n.product_at(m, i, 1) == (if i == 1 { 1real } else { 0real }));
    assert(n.product_at(m, i, 2) == (if i == 2 { 1real } else { 0real }));
}

/// Applying `m` and then a left inverse `n` of it gives back the vector.
pub proof fn lemma_inverse_undoes(m: Matrix3, n: Matrix3, v0: real, v1: real, v2: real)
    requires
        n.is_inverse_of(m),
    ensures
        n.row_times(0, m.row_times(0, v0, v1, v2), m.row_times(1, v0, v1, v2), m.row_times(2, v0, v1, v2)) == v0,
        n.row_times(1, m.row_times(0, v0, v1, v2), m.row_times(1, v0, v1, v2), m.row_times(2, v0, v1, v2)) == v1,
        n.row_times(2, m.row_times(0, v0, v1, v2), m.row_times(1, v0, v1, v2), m.row_times(2, v0, v1, v2)) == v2,
{
    lemma_undo_row(m, n, v0, v1, v2, 0);
    lemma_undo_row(m, n, v0, v1, v2, 1);
    lemma_undo_row(m, n, v0, v1, v2, 2);
}
} // verus!
