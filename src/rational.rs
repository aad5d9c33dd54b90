//! Exact rational scalars.
//!
//! A `Rational` is a fraction of two 64-bit integers, kept in lowest terms with a
//! positive denominator. Every arithmetic operation is exact: it either returns the
//! reduced result or reports, with `None`, that the reduced result does not fit.
use vstd::prelude::*;
use vstd::arithmetic::div_mod::{
    lemma_fundamental_div_mod, lemma_fundamental_div_mod_converse, lemma_mod_multiples_basic,
};

verus! {

/// The real number `n / d`.
pub open spec fn frac(n: int, d: int) -> real {
    n as real / d as real
}

/// `k * m` as a real number.
pub open spec fn multiple(k: int, m: int) -> real {
    (k * m) as real
}

/// Greatest common divisor of two naturals, by Euclid's algorithm.
pub open spec fn gcd(a: nat, b: nat) -> nat
    decreases b,
{
    if b == 0 {
        a
    } else {
        gcd(b, a % b)
    }
}

pub open spec fn abs(n: int) -> nat {
    if n < 0 {
        (-n) as nat
    } else {
        n as nat
    }
}

/// The gcd is positive unless both arguments are zero, and divides both.
pub proof fn lemma_gcd_divides(a: nat, b: nat)
    requires
        a > 0 || b > 0,
    ensures
        gcd(a, b) > 0,
        a % gcd(a, b) == 0,
        b % gcd(a, b) == 0,
    decreases b,
{
    if b == 0 {
        lemma_mod_multiples_basic(1, a as int);
        lemma_mod_multiples_basic(0, a as int);
    } else {
        let r = a % b;
        lemma_gcd_divides(b, r);
        let g = gcd(b, r) as int;
        lemma_fundamental_div_mod(a as int, b as int);
        lemma_fundamental_div_mod(b as int, g);
        lemma_fundamental_div_mod(r as int, g);
        let q = a as int / b as int;
        let x = b as int / g;
        let y = r as int / g;
        assert(a == (x * q + y) * g) by (nonlinear_arith)
            requires
                a == b * q + r,
                b == g * x + 0,
                r == g * y + 0,
        ;
        lemma_mod_multiples_basic(x * q + y, g);
    }
}

proof fn lemma_cast_mul(a: int, b: int)
    ensures
        (a * b) as real == a as real * b as real,
{
    assert((a * b) as real == a as real * b as real) by (nonlinear_arith);
}

/// Scaling numerator and denominator by the same positive factor keeps the value.
proof fn lemma_frac_scale(n: int, d: int, g: int)
    requires
        d > 0,
        g > 0,
    ensures
        frac(n * g, d * g) == frac(n, d),
{
    lemma_cast_mul(n, g);
    lemma_cast_mul(d, g);
    let (a, b, c) = (n as real, d as real, g as real);
    assert((a * c) / (b * c) == a / b) by (nonlinear_arith)
        requires
            b > 0real,
            c > 0real,
    ;
}

proof fn lemma_frac_add(an: int, ad: int, bn: int, bd: int)
    requires
        ad > 0,
        bd > 0,
    ensures
        frac(an, ad) + frac(bn, bd) == frac(an * bd + bn * ad, ad * bd),
{
    lemma_cast_mul(an, bd);
    lemma_cast_mul(bn, ad);
    lemma_cast_mul(ad, bd);
    let (a, b, c, d) = (an as real, ad as real, bn as real, bd as real);
    assert(a / b + c / d == (a * d + c * b) / (b * d)) by (nonlinear_arith)
        requires
            b > 0real,
            d > 0real,
    ;
}

proof fn lemma_frac_sub(an: int, ad: int, bn: int, bd: int)
    requires
        ad > 0,
        bd > 0,
    ensures
        frac(an, ad) - frac(bn, bd) == frac(an * bd - bn * ad, ad * bd),
{
    lemma_cast_mul(an, bd);
    lemma_cast_mul(bn, ad);
    lemma_cast_mul(ad, bd);
    let (a, b, c, d) = (an as real, ad as real, bn as real, bd as real);
    assert(a / b - c / d == (a * d - c * b) / (b * d)) by (nonlinear_arith)
        requires
            b > 0real,
            d > 0real,
    ;
}

proof fn lemma_frac_mul(an: int, ad: int, bn: int, bd: int)
    requires
        ad > 0,
        bd > 0,
    ensures
        frac(an, ad) * frac(bn, bd) == frac(an * bn, ad * bd),
{
    lemma_cast_mul(an, bn);
    lemma_cast_mul(ad, bd);
    let (a, b, c, d) = (an as real, ad as real, bn as real, bd as real);
    assert((a / b) * (c / d) == (a * c) / (b * d)) by (nonlinear_arith)
        requires
            b > 0real,
            d > 0real,
    ;
}

proof fn lemma_frac_div(an: int, ad: int, bn: int, bd: int)
    requires
        ad > 0,
        bd > 0,
        bn != 0,
    ensures
        frac(an, ad) / frac(bn, bd) == frac(an * bd, ad * bn),
        frac(an * bd, ad * bn) == frac(-(an * bd), -(ad * bn)),
{
    lemma_cast_mul(an, bd);
    lemma_cast_mul(ad, bn);
    let (a, b, c, d) = (an as real, ad as real, bn as real, bd as real);
    assert((a / b) / (c / d) == (a * d) / (b * c)) by (nonlinear_arith)
        requires
            b > 0real,
            d > 0real,
            c != 0real,
    ;
    assert((a * d) / (b * c) == (-(a * d)) / (-(b * c))) by (nonlinear_arith)
        requires
            b > 0real,
            c != 0real,
    ;
}

proof fn lemma_frac_le(an: int, ad: int, bn: int, bd: int)
    requires
        ad > 0,
        bd > 0,
    ensures
        (frac(an, ad) <= frac(bn, bd)) == (an * bd <= bn * ad),
        (frac(an, ad) == frac(bn, bd)) == (an * bd == bn * ad),
{
    lemma_cast_mul(an, bd);
    lemma_cast_mul(bn, ad);
    let (a, b, c, d) = (an as real, ad as real, bn as real, bd as real);
    assert((a / b <= c / d) == (a * d <= c * b)) by (nonlinear_arith)
        requires
            b > 0real,
            d > 0real,
    ;
    assert((a / b == c / d) == (a * d == c * b)) by (nonlinear_arith)
        requires
            b > 0real,
            d > 0real,
    ;
}

proof fn lemma_frac_int(n: int)
    ensures
        frac(n, 1) == n as real,
{
    assert(n as real / 1int as real == n as real) by (nonlinear_arith);
}

proof fn lemma_pos_mul(x: int, y: int)
    requires
        x > 0,
        y > 0,
    ensures
        x * y > 0,
{
    assert(x * y > 0) by (nonlinear_arith)
        requires
            x > 0,
            y > 0,
    ;
}

/// A product of two values within `i64` (and above `i64::MIN`) is at most
/// `i64::MAX * i64::MAX` in magnitude.
proof fn lemma_prod_bound(x: int, y: int)
    requires
        -i64::MAX <= x <= i64::MAX,
        -i64::MAX <= y <= i64::MAX,
    ensures
        -(i64::MAX * i64::MAX) <= x * y <= i64::MAX * i64::MAX,
{
    assert(-(i64::MAX * i64::MAX) <= x * y <= i64::MAX * i64::MAX) by (nonlinear_arith)
        requires
            -i64::MAX <= x <= i64::MAX,
            -i64::MAX <= y <= i64::MAX,
    ;
}

/// With `n == m * d * k + rem` and `0 <= rem < m * d`: `rem / d` lies in `[0, m)`
/// and differs from `n / d` by `k * m`.
proof fn lemma_rem_value(n: int, d: int, m: int, k: int, rem: int)
    requires
        d > 0,
        m > 0,
        n == (m * d) * k + rem,
        0 <= rem < m * d,
    ensures
        0real <= frac(rem, d),
        frac(rem, d) < m as real,
        frac(n, d) - frac(rem, d) == (k * m) as real,
{
    lemma_cast_mul(m, d);
    lemma_cast_mul(m * d, k);
    lemma_cast_mul(k, m);
    let (nr, dr, mr, kr, rr) = (n as real, d as real, m as real, k as real, rem as real);
    assert(nr == (mr * dr) * kr + rr);
    assert(rr < mr * dr);
    assert(0real <= rr / dr && rr / dr < mr) by (nonlinear_arith)
        requires
            dr > 0real,
            0real <= rr,
            rr < mr * dr,
    ;
    assert(nr / dr - rr / dr == kr * mr) by (nonlinear_arith)
        requires
            dr > 0real,
            nr == (mr * dr) * kr + rr,
    ;
}

/// With `2 n s + d == 2 d q + rem` and `0 <= rem < 2 d`: `q` is the floor of
/// `(n / d) * s + 1/2`.
proof fn lemma_round_value(n: int, d: int, s: int, q: int, rem: int)
    requires
        d > 0,
        2 * n * s + d == (2 * d) * q + rem,
        0 <= rem < 2 * d,
    ensures
        q == (frac(n, d) * s as real + 1real / 2real).floor(),
{
    lemma_cast_mul(2 * n, s);
    lemma_cast_mul(2, n);
    lemma_cast_mul(2 * d, q);
    lemma_cast_mul(2, d);
    let (nr, dr, sr, qr, rr) = (n as real, d as real, s as real, q as real, rem as real);
    assert(2real * nr * sr + dr == (2real * dr) * qr + rr);
    let x = (nr / dr) * sr + 1real / 2real;
    assert(qr <= x && x < qr + 1real) by (nonlinear_arith)
        requires
            dr > 0real,
            2real * nr * sr + dr == (2real * dr) * qr + rr,
            0real <= rr,
            rr < 2real * dr,
            x == (nr / dr) * sr + 1real / 2real,
    ;
}

/// Relies on num::integer::gcd: for unsigned integers it returns their greatest
/// common divisor (zero when both are zero).
#[verifier::external_body]
fn gcd_u128(a: u128, b: u128) -> (r: u128)
    ensures
        r == gcd(a as nat, b as nat),
{
    num::integer::gcd(a, b)
}

/// An exact fraction `num / den` in lowest terms, with `den > 0`.
#[derive(Clone, Copy, Debug, PartialEq, Eq, Structural, Hash)]
pub struct Rational {
    num: i64,
    den: i64,
}

impl Rational {
    #[verifier::type_invariant]
    spec fn inv(self) -> bool {
        self.den > 0 && self.num > i64::MIN
    }

    pub closed spec fn spec_numer(self) -> int {
        self.num as int
    }

    pub closed spec fn spec_denom(self) -> int {
        self.den as int
    }

    /// The real number this rational stands for.
    pub open spec fn value(self) -> real {
        frac(self.spec_numer(), self.spec_denom())
    }

    /// Whether `n / d` reduced to lowest terms has both parts within `i64`
    /// (the numerator's magnitude at most `i64::MAX`).
    pub open spec fn representable(n: int, d: int) -> bool {
        let g = gcd(abs(n), abs(d));
        &&& abs(n) / g <= i64::MAX
        &&& abs(d) / g <= i64::MAX
    }

    /// `n / d` in lowest terms, or `None` when it is not representable.
    pub closed spec fn spec_make(n: int, d: int) -> Option<Rational> {
        let g = gcd(abs(n), abs(d));
        let m = abs(n) / g;
        let e = abs(d) / g;
        if m <= i64::MAX && e <= i64::MAX {
            Some(Rational { num: (if n < 0 { -(m as int) } else { m as int }) as i64, den: e as i64 })
        } else {
            None
        }
    }

    /// `a` modulo the positive integer `m`, in `[0, m)`.
    pub open spec fn spec_rem_euclid(a: Rational, m: int) -> Option<Rational> {
        Rational::spec_make(a.spec_numer() % (m * a.spec_denom()), a.spec_denom())
    }

    /// Every `Rational` value satisfies this: a positive denominator, and a
    /// numerator above `i64::MIN`.
    pub closed spec fn wf(self) -> bool {
        self.den > 0 && self.num > i64::MIN
    }

    pub proof fn lemma_one()
        ensures
            Rational::spec_one().wf(),
            Rational::spec_one().value() == 1real,
            Rational::spec_zero().wf(),
            Rational::spec_zero().value() == 0real,
    {
        lemma_frac_int(1);
        lemma_frac_int(0);
    }

    /// What `spec_rem_euclid` returns lies in `[0, m)` and differs from `a` by a
    /// whole multiple of `m`.
    pub proof fn lemma_rem_euclid_value(a: Rational, m: int)
        requires
            a.wf(),
            m > 0,
        ensures
            Rational::spec_rem_euclid(a, m) matches Some(x) ==> x.wf() && 0real <= x.value()
                && x.value() < m as real && exists|k: int|
                a.value() - x.value() == #[trigger] multiple(k, m),
    {
        let (n, d) = (a.num as int, a.den as int);
        lemma_pos_mul(m, d);
        let md = m * d;
        lemma_fundamental_div_mod(n, md);
        let k = n / md;
        let rem = n % md;
        assert(n == (m * d) * k + rem) by (nonlinear_arith)
            requires
                n == md * (n / md) + (n % md),
                md == m * d,
                k == n / md,
                rem == n % md,
        ;
        Rational::lemma_make(rem, d);
        lemma_rem_value(n, d, m, k, rem);
        assert(a.value() - frac(rem, d) == multiple(k, m));
    }

    /// `t / 2` for a positive `t` that fits: representable, with value `t / 2`.
    pub proof fn lemma_half(t: int)
        requires
            0 < t <= i64::MAX,
        ensures
            Rational::spec_make(t, 2) is Some,
            Rational::spec_make(t, 2)->0.wf(),
            Rational::spec_make(t, 2)->0.value() == t as real / 2real,
    {
        let g = gcd(abs(t), abs(2));
        lemma_gcd_divides(abs(t), abs(2));
        assert(abs(t) / g <= abs(t)) by (nonlinear_arith)
            requires
                g > 0,
        ;
        assert(abs(2) / g <= 2) by (nonlinear_arith)
            requires
                g > 0,
        ;
        Rational::lemma_make(t, 2);
    }

    /// The value of a sum that is representable.
    pub proof fn lemma_add_value(a: Rational, b: Rational)
        requires
            a.wf(),
            b.wf(),
        ensures
            Rational::spec_add(a, b) matches Some(x) ==> x.wf() && x.value() == a.value()
                + b.value(),
    {
        lemma_pos_mul(a.den as int, b.den as int);
        Rational::lemma_make(a.num * b.den + b.num * a.den, a.den * b.den);
        lemma_frac_add(a.num as int, a.den as int, b.num as int, b.den as int);
    }

    /// The value of a product that is representable.
    pub proof fn lemma_mul_value(a: Rational, b: Rational)
        requires
            a.wf(),
            b.wf(),
        ensures
            Rational::spec_mul(a, b) matches Some(x) ==> x.wf() && x.value() == a.value()
                * b.value(),
    {
        lemma_pos_mul(a.den as int, b.den as int);
        Rational::lemma_make(a.num * b.num, a.den * b.den);
        lemma_frac_mul(a.num as int, a.den as int, b.num as int, b.den as int);
    }

    /// The value of a difference that is representable.
    pub proof fn lemma_sub_value(a: Rational, b: Rational)
        requires
            a.wf(),
            b.wf(),
        ensures
            Rational::spec_sub(a, b) matches Some(x) ==> x.wf() && x.value() == a.value()
                - b.value(),
    {
        lemma_pos_mul(a.den as int, b.den as int);
        Rational::lemma_make(a.num * b.den - b.num * a.den, a.den * b.den);
        lemma_frac_sub(a.num as int, a.den as int, b.num as int, b.den as int);
    }

    pub open spec fn spec_add(a: Rational, b: Rational) -> Option<Rational> {
        Rational::spec_make(
            a.spec_numer() * b.spec_denom() + b.spec_numer() * a.spec_denom(),
            a.spec_denom() * b.spec_denom(),
        )
    }

    pub open spec fn spec_sub(a: Rational, b: Rational) -> Option<Rational> {
        Rational::spec_make(
            a.spec_numer() * b.spec_denom() - b.spec_numer() * a.spec_denom(),
            a.spec_denom() * b.spec_denom(),
        )
    }

    pub open spec fn spec_mul(a: Rational, b: Rational) -> Option<Rational> {
        Rational::spec_make(a.spec_numer() * b.spec_numer(), a.spec_denom() * b.spec_denom())
    }

    pub open spec fn spec_div(a: Rational, b: Rational) -> Option<Rational> {
        if b.spec_numer() < 0 {
            Rational::spec_make(
                -(a.spec_numer() * b.spec_denom()),
                -(a.spec_denom() * b.spec_numer()),
            )
        } else {
            Rational::spec_make(a.spec_numer() * b.spec_denom(), a.spec_denom() * b.spec_numer())
        }
    }

    /// What `spec_make` returns is exactly `n / d`, and it returns something exactly
    /// when `n / d` is representable.
    pub proof fn lemma_make(n: int, d: int)
        requires
            d > 0,
        ensures
            Rational::spec_make(n, d) is Some <==> Rational::representable(n, d),
            Rational::spec_make(n, d) matches Some(r) ==> r.value() == frac(n, d)
                && r.spec_denom() > 0 && r.wf(),
    {
        let g = gcd(abs(n), abs(d));
        lemma_gcd_divides(abs(n), abs(d));
        let m = abs(n) / g;
        let e = abs(d) / g;
        lemma_fundamental_div_mod(abs(n) as int, g as int);
        lemma_fundamental_div_mod(abs(d) as int, g as int);
        assert(e > 0) by (nonlinear_arith)
            requires
                d == g * e + 0,
                d > 0,
                g > 0,
        ;
        if let Some(r) = Rational::spec_make(n, d) {
            let sm: int = if n < 0 { -(m as int) } else { m as int };
            assert(n == sm * g) by (nonlinear_arith)
                requires
                    abs(n) == g * m + 0,
                    sm == (if n < 0 { -(m as int) } else { m as int }),
                    abs(n) == (if n < 0 { -n } else { n }),
            ;
            assert(d == e * g) by (nonlinear_arith)
                requires
                    d == g * e + 0,
            ;
            lemma_frac_scale(sm, e as int, g as int);
        }
    }

    /// The reduced fraction `n / d`.
    fn make(n: i128, d: i128) -> (r: Option<Rational>)
        requires
            d > 0,
            n > i128::MIN,
        ensures
            r == Rational::spec_make(n as int, d as int),
    {
        let mag: u128 = if n < 0 {
            (-n) as u128
        } else {
            n as u128
        };
        let g = gcd_u128(mag, d as u128);
        proof {
            lemma_gcd_divides(mag as nat, d as nat);
        }
        let m = mag / g;
        let e = (d as u128) / g;
        proof {
            lemma_fundamental_div_mod(d as int, g as int);
            assert(e > 0) by (nonlinear_arith)
                requires
                    d == g * e + 0,
                    d > 0,
                    g > 0,
            ;
        }
        if m <= i64::MAX as u128 && e <= i64::MAX as u128 {
            let sm: i64 = if n < 0 {
                -(m as i64)
            } else {
                m as i64
            };
            Some(Rational { num: sm, den: e as i64 })
        } else {
            None
        }
    }

    /// The rational `num / den`, reduced to lowest terms.
    pub fn new(num: i64, den: i64) -> (r: Rational)
        requires
            den > 0,
            num > i64::MIN,
        ensures
            r.value() == frac(num as int, den as int),
            Some(r) == Rational::spec_make(num as int, den as int),
    {
        proof {
            Rational::lemma_make(num as int, den as int);
            let g = gcd(abs(num as int), abs(den as int));
            lemma_gcd_divides(abs(num as int), abs(den as int));
            assert(abs(num as int) / g <= abs(num as int)) by (nonlinear_arith)
                requires
                    g > 0,
            ;
            assert(abs(den as int) / g <= abs(den as int)) by (nonlinear_arith)
                requires
                    g > 0,
            ;
        }
        Rational::make(num as i128, den as i128).unwrap()
    }

    /// The integer `n` as a rational.
    pub fn from_integer(n: i64) -> (r: Rational)
        requires
            n > i64::MIN,
        ensures
            r.value() == n as real,
            r.spec_numer() == n,
            r.spec_denom() == 1,
    {
        proof {
            lemma_frac_int(n as int);
        }
        Rational { num: n, den: 1 }
    }

    pub closed spec fn spec_zero() -> Rational {
        Rational { num: 0, den: 1 }
    }

    pub fn zero() -> (r: Rational)
        ensures
            r == Rational::spec_zero(),
            r.value() == 0real,
            r.spec_numer() == 0,
            r.spec_denom() == 1,
    {
        Rational::from_integer(0)
    }

    pub closed spec fn spec_one() -> Rational {
        Rational { num: 1, den: 1 }
    }

    pub fn one() -> (r: Rational)
        ensures
            r.value() == 1real,
            r.spec_numer() == 1,
            r.spec_denom() == 1,
            r == Rational::spec_one(),
    {
        Rational::from_integer(1)
    }

    /// The numerator in lowest terms.
    pub fn numer(&self) -> (r: i64)
        ensures
            r == self.spec_numer(),
    {
        self.num
    }

    /// The denominator in lowest terms; always positive.
    pub fn denom(&self) -> (r: i64)
        ensures
            r == self.spec_denom(),
            r > 0,
    {
        proof {
            use_type_invariant(self);
        }
        self.den
    }

    pub fn is_zero(&self) -> (r: bool)
        ensures
            r == (self.value() == 0real),
    {
        proof {
            use_type_invariant(self);
            lemma_frac_le(self.num as int, self.den as int, 0, 1);
            lemma_frac_int(0);
        }
        self.num == 0
    }

    pub fn checked_add(&self, o: &Rational) -> (r: Option<Rational>)
        ensures
            r == Rational::spec_add(*self, *o),
            r matches Some(x) ==> x.value() == self.value() + o.value(),
    {
        proof {
            use_type_invariant(self);
            use_type_invariant(o);
        }
        let (an, ad, bn, bd) = (self.num as i128, self.den as i128, o.num as i128, o.den as i128);
        proof {
            lemma_prod_bound(an as int, bd as int);
            lemma_prod_bound(bn as int, ad as int);
            lemma_prod_bound(ad as int, bd as int);
            lemma_pos_mul(ad as int, bd as int);
            Rational::lemma_make(an * bd + bn * ad, ad * bd);
            lemma_frac_add(an as int, ad as int, bn as int, bd as int);
        }
        Rational::make(an * bd + bn * ad, ad * bd)
    }

    pub fn checked_sub(&self, o: &Rational) -> (r: Option<Rational>)
        ensures
            r == Rational::spec_sub(*self, *o),
            r matches Some(x) ==> x.value() == self.value() - o.value(),
    {
        proof {
            use_type_invariant(self);
            use_type_invariant(o);
        }
        let (an, ad, bn, bd) = (self.num as i128, self.den as i128, o.num as i128, o.den as i128);
        proof {
            lemma_prod_bound(an as int, bd as int);
            lemma_prod_bound(bn as int, ad as int);
            lemma_prod_bound(ad as int, bd as int);
            lemma_pos_mul(ad as int, bd as int);
            Rational::lemma_make(an * bd - bn * ad, ad * bd);
            lemma_frac_sub(an as int, ad as int, bn as int, bd as int);
        }
        Rational::make(an * bd - bn * ad, ad * bd)
    }

    pub fn checked_mul(&self, o: &Rational) -> (r: Option<Rational>)
        ensures
            r == Rational::spec_mul(*self, *o),
            r matches Some(x) ==> x.value() == self.value() * o.value(),
    {
        proof {
            use_type_invariant(self);
            use_type_invariant(o);
        }
        let (an, ad, bn, bd) = (self.num as i128, self.den as i128, o.num as i128, o.den as i128);
        proof {
            lemma_prod_bound(an as int, bn as int);
            lemma_prod_bound(ad as int, bd as int);
            lemma_pos_mul(ad as int, bd as int);
            Rational::lemma_make(an * bn, ad * bd);
            lemma_frac_mul(an as int, ad as int, bn as int, bd as int);
        }
        Rational::make(an * bn, ad * bd)
    }

    /// `self / o`; the divisor must not be zero.
    pub fn checked_div(&self, o: &Rational) -> (r: Option<Rational>)
        requires
            o.value() != 0real,
        ensures
            r == Rational::spec_div(*self, *o),
            r matches Some(x) ==> x.value() == self.value() / o.value(),
    {
        proof {
            use_type_invariant(self);
            use_type_invariant(o);
            lemma_frac_int(0);
        }
        let (an, ad, bn, bd) = (self.num as i128, self.den as i128, o.num as i128, o.den as i128);
        proof {
            lemma_prod_bound(an as int, bd as int);
            lemma_prod_bound(ad as int, bn as int);
            lemma_frac_le(bn as int, bd as int, 0, 1);
            assert(bn != 0);
            if bn > 0 {
                lemma_pos_mul(ad as int, bn as int);
                Rational::lemma_make(an * bd, ad * bn);
            } else {
                assert(-(ad * bn) > 0) by (nonlinear_arith)
                    requires
                        ad > 0,
                        bn < 0,
                ;
                Rational::lemma_make(-(an * bd), -(ad * bn));
            }
            lemma_frac_div(an as int, ad as int, bn as int, bd as int);
        }
        if bn < 0 {
            Rational::make(-(an * bd), -(ad * bn))
        } else {
            Rational::make(an * bd, ad * bn)
        }
    }

    /// `-self`; always representable.
    pub fn neg(&self) -> (r: Rational)
        ensures
            r.value() == -self.value(),
            r.spec_numer() == -self.spec_numer(),
            r.spec_denom() == self.spec_denom(),
    {
        proof {
            use_type_invariant(self);
            let (a, b) = (self.num as real, self.den as real);
            assert((-self.num) as real == -a);
            assert((-a) / b == -(a / b)) by (nonlinear_arith)
                requires
                    b > 0real,
            ;
        }
        Rational { num: -self.num, den: self.den }
    }

    /// Whether `self <= o` as numbers.
    pub fn le(&self, o: &Rational) -> (r: bool)
        ensures
            r == (self.value() <= o.value()),
    {
        proof {
            use_type_invariant(self);
            use_type_invariant(o);
            lemma_prod_bound(self.num as int, o.den as int);
            lemma_prod_bound(o.num as int, self.den as int);
            lemma_frac_le(self.num as int, self.den as int, o.num as int, o.den as int);
        }
        (self.num as i128) * (o.den as i128) <= (o.num as i128) * (self.den as i128)
    }

    /// Whether `self < o` as numbers.
    pub fn lt(&self, o: &Rational) -> (r: bool)
        ensures
            r == (self.value() < o.value()),
    {
        !o.le(self)
    }

    /// Whether `self` and `o` stand for the same number.
    pub fn same_value(&self, o: &Rational) -> (r: bool)
        ensures
            r == (self.value() == o.value()),
    {
        proof {
            use_type_invariant(self);
            use_type_invariant(o);
            lemma_prod_bound(self.num as int, o.den as int);
            lemma_prod_bound(o.num as int, self.den as int);
            lemma_frac_le(self.num as int, self.den as int, o.num as int, o.den as int);
        }
        (self.num as i128) * (o.den as i128) == (o.num as i128) * (self.den as i128)
    }

    /// The remainder of `self` modulo the positive integer `m`: the value in
    /// `[0, m)` that differs from `self` by a whole multiple of `m`.
    pub fn checked_rem_euclid(&self, m: i64) -> (r: Option<Rational>)
        requires
            m > 0,
        ensures
            r == Rational::spec_rem_euclid(*self, m as int),
            r matches Some(x) ==> 0real <= x.value() && x.value() < m as real && exists|k: int|
                self.value() - x.value() == #[trigger] multiple(k, m as int),
    {
        proof {
            use_type_invariant(self);
        }
        let n = self.num as i128;
        let d = self.den as i128;
        proof {
            lemma_prod_bound(m as int, d as int);
            lemma_pos_mul(m as int, d as int);
        }
        let md = (m as i128) * d;
        let rem: i128;
        let ghost k: int;
        if n >= 0 {
            let t = ((n as u128) % (md as u128)) as i128;
            proof {
                lemma_fundamental_div_mod(n as int, md as int);
                k = n as int / md as int;
                assert(n == md * k + t);
            }
            rem = t;
        } else {
            let t = (((-n) as u128) % (md as u128)) as i128;
            proof {
                lemma_fundamental_div_mod(-n as int, md as int);
            }
            if t == 0 {
                proof {
                    k = -((-n) as int / md as int);
                    assert(n == md * k + 0) by (nonlinear_arith)
                        requires
                            -n == md * ((-n) as int / md as int) + 0,
                            k == -((-n) as int / md as int),
                    ;
                }
                rem = 0;
            } else {
                proof {
                    k = -((-n) as int / md as int) - 1;
                    assert(n == md * k + (md - t)) by (nonlinear_arith)
                        requires
                            -n == md * ((-n) as int / md as int) + t,
                            k == -((-n) as int / md as int) - 1,
                    ;
                }
                rem = md - t;
            }
        }
        proof {
            assert(0 <= rem < md);
            assert(n == k * md + rem) by (nonlinear_arith)
                requires
                    n == md * k + rem,
            ;
            lemma_fundamental_div_mod_converse(n as int, md as int, k, rem as int);
            Rational::lemma_make(rem as int, d as int);
            lemma_rem_value(n as int, d as int, m as int, k, rem as int);
            assert(self.value() - frac(rem as int, d as int) == multiple(k, m as int));
        }
        Rational::make(rem, d)
    }

    /// For a value in `[0, 1]`: `floor(self * scale + 1/2)`, the nearest integer
    /// to `self * scale` with halves rounded up.
    pub fn round_scaled(&self, scale: u32) -> (r: u64)
        requires
            0real <= self.value() <= 1real,
        ensures
            r as int == (self.value() * scale as real + 1real / 2real).floor(),
            r <= scale,
    {
        proof {
            use_type_invariant(self);
            lemma_frac_le(self.num as int, self.den as int, 0, 1);
            lemma_frac_le(self.num as int, self.den as int, 1, 1);
            lemma_frac_int(0);
            lemma_frac_int(1);
        }
        let n = self.num as u128;
        let d = self.den as u128;
        proof {
            assert(0 <= n <= d);
            assert(n * (scale as int) <= d * (scale as int)) by (nonlinear_arith)
                requires
                    n <= d,
            ;
            assert(d * (scale as int) < 0x1_0000_0000_0000_0000_0000_0000) by (nonlinear_arith)
                requires
                    d < 0x8000_0000_0000_0000,
                    scale < 0x1_0000_0000,
            ;
            assert((2 * n) * (scale as int) <= 2 * (d * (scale as int))) by (nonlinear_arith)
                requires
                    n <= d,
            ;
        }
        let t = 2 * n * (scale as u128) + d;
        let q = t / (2 * d);
        proof {
            lemma_fundamental_div_mod(t as int, 2 * d as int);
            let rem = t as int % (2 * d as int);
            assert(q <= scale) by (nonlinear_arith)
                requires
                    t == 2 * n * scale + d,
                    t == (2 * d) * q + rem,
                    0 <= rem,
                    n <= d,
                    d > 0,
            ;
            lemma_round_value(n as int, d as int, scale as int, q as int, rem);
        }
        q as u64
    }
}

} // verus!
