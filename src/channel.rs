//! The three kinds of channel: bounded to `[0, 1]`, free, and angular.
use vstd::prelude::*;
use crate::rational::{multiple, Rational};
use crate::color::{Bounded, Invert, Lerp};

verus! {

/// `a + (b - a) * pos`, evaluated in that order.
pub open spec fn lerp_spec(a: Rational, b: Rational, pos: Rational) -> Option<Rational> {
    match Rational::spec_sub(b, a) {
        Some(d) => match Rational::spec_mul(d, pos) {
            Some(p) => Rational::spec_add(a, p),
            None => None,
        },
        None => None,
    }
}

/// Linear interpolation `a + (b - a) * pos`; `pos = 0` gives `a`, `pos = 1` gives `b`.
pub fn lerp_scalar(a: &Rational, b: &Rational, pos: &Rational) -> (r: Option<Rational>)
    ensures
        r == lerp_spec(*a, *b, *pos),
        r matches Some(x) ==> x.value() == a.value() + (b.value() - a.value()) * pos.value(),
{
    let d = match b.checked_sub(a) {
        Some(d) => d,
        None => return None,
    };
    let p = match d.checked_mul(pos) {
        Some(p) => p,
        None => return None,
    };
    a.checked_add(&p)
}

/// The value of a representable interpolation is `a + (b - a) * pos`: `a` at
/// `pos = 0` and `b` at `pos = 1`.
pub proof fn law_lerp_value(a: Rational, b: Rational, pos: Rational)
    requires
        a.wf(),
        b.wf(),
        pos.wf(),
    ensures
        lerp_spec(a, b, pos) matches Some(x) ==> x.value() == a.value() + (b.value() - a.value())
            * pos.value(),
        pos.value() == 0real ==> (lerp_spec(a, b, pos) matches Some(x) ==> x.value() == a.value()),
        pos.value() == 1real ==> (lerp_spec(a, b, pos) matches Some(x) ==> x.value() == b.value()),
{
    Rational::lemma_sub_value(b, a);
    if let Some(d) = Rational::spec_sub(b, a) {
        Rational::lemma_mul_value(d, pos);
        if let Some(p) = Rational::spec_mul(d, pos) {
            Rational::lemma_add_value(a, p);
        }
    }
}

/// Marks channels without bounds.
pub struct FreeChannelTag {}

/// A channel whose value is not constrained.
#[derive(Clone, Copy, Debug, PartialEq, Eq, Structural)]
pub struct FreeChannel(pub Rational);

impl FreeChannel {
    pub fn new(value: Rational) -> (r: FreeChannel)
        ensures
            r.0 == value,
    {
        FreeChannel(value)
    }

    /// The smallest representable value, `-i64::MAX`.
    pub fn min_bound() -> (r: Rational)
        ensures
            r.value() == -(i64::MAX as real),
    {
        Rational::from_integer(-i64::MAX)
    }

    /// The largest representable value, `i64::MAX`.
    pub fn max_bound() -> (r: Rational)
        ensures
            r.value() == i64::MAX as real,
    {
        Rational::from_integer(i64::MAX)
    }

    pub fn scalar(&self) -> (r: Rational)
        ensures
            r == self.0,
    {
        self.0
    }

    pub fn from_scalar(value: Rational) -> (r: FreeChannel)
        ensures
            r.0 == value,
    {
        FreeChannel(value)
    }

    pub fn value(&self) -> (r: Rational)
        ensures
            r == self.0,
    {
        self.0
    }
}

impl Default for FreeChannel {
    /// The channel at zero.
    fn default() -> (r: FreeChannel)
        ensures
            r.0.value() == 0real,
    {
        FreeChannel(Rational::zero())
    }
}

impl Lerp for FreeChannel {
    open spec fn can_lerp(&self, right: &Self, pos: Rational) -> bool {
        lerp_spec(self.0, right.0, pos) is Some
    }

    open spec fn spec_lerp(&self, right: &Self, pos: Rational) -> Self {
        FreeChannel(lerp_spec(self.0, right.0, pos)->0)
    }

    fn lerp(&self, right: &Self, pos: Rational) -> (r: Self) {
        match lerp_scalar(&self.0, &right.0, &pos) {
            Some(v) => FreeChannel(v),
            None => *self,
        }
    }
}

impl Bounded for FreeChannel {
    open spec fn spec_is_normalized(&self) -> bool {
        true
    }

    open spec fn spec_normalize(self) -> Self {
        self
    }

    open spec fn can_normalize(&self) -> bool {
        true
    }

    fn normalize(self) -> (r: Self) {
        self
    }

    fn is_normalized(&self) -> (r: bool) {
        true
    }
}

/// The 8-bit form of a value of a bounded channel.
pub open spec fn unit_to_u8(v: real) -> int {
    if v <= 0real {
        0
    } else if 1real <= v {
        255
    } else {
        (v * 255real + 1real / 2real).floor()
    }
}

/// A channel whose normal range is `[0, 1]`.
#[derive(Clone, Copy, Debug, PartialEq, Eq, Structural)]
pub struct PosNormalBoundedChannel(pub Rational);

impl PosNormalBoundedChannel {
    pub fn new(value: Rational) -> (r: PosNormalBoundedChannel)
        ensures
            r.0 == value,
    {
        PosNormalBoundedChannel(value)
    }

    pub fn value(&self) -> (r: Rational)
        ensures
            r == self.0,
    {
        self.0
    }

    /// The channel in 8-bit form: clamped into `[0, 1]`, scaled to `[0, 255]` and
    /// rounded to the nearest integer, halves up.
    pub fn to_u8(&self) -> (r: u8)
        ensures
            r as int == unit_to_u8(self.0.value()),
    {
        let zero = Rational::zero();
        let one = Rational::one();
        if self.0.le(&zero) {
            0
        } else if one.le(&self.0) {
            255
        } else {
            self.0.round_scaled(255) as u8
        }
    }

    /// The channel whose 8-bit form is `b`: the value `b / 255`.
    pub fn from_u8(b: u8) -> (r: PosNormalBoundedChannel)
        ensures
            r.0.value() == b as real / 255real,
    {
        PosNormalBoundedChannel(Rational::new(b as i64, 255))
    }

    /// `1 - value`, with its exact value.
    pub fn complement(&self) -> (r: PosNormalBoundedChannel)
        requires
            self.can_invert(),
        ensures
            r == self.spec_invert(),
            r.0.value() == 1real - self.0.value(),
    {
        let one = Rational::one();
        match one.checked_sub(&self.0) {
            Some(v) => PosNormalBoundedChannel(v),
            None => *self,
        }
    }
}

impl Invert for PosNormalBoundedChannel {
    open spec fn can_invert(&self) -> bool {
        Rational::spec_sub(Rational::spec_one(), self.0) is Some
    }

    open spec fn spec_invert(self) -> Self {
        PosNormalBoundedChannel(Rational::spec_sub(Rational::spec_one(), self.0)->0)
    }

    fn invert(self) -> (r: Self) {
        self.complement()
    }
}

/// Inverting a bounded channel twice gives back its value.
pub proof fn law_bounded_double_invert(c: PosNormalBoundedChannel)
    requires
        c.0.wf(),
        c.can_invert(),
        c.spec_invert().can_invert(),
    ensures
        c.spec_invert().spec_invert().0.value() == c.0.value(),
        c.spec_invert().0.value() == 1real - c.0.value(),
{
    Rational::lemma_one();
    Rational::lemma_sub_value(Rational::spec_one(), c.0);
    Rational::lemma_sub_value(Rational::spec_one(), c.spec_invert().0);
}

impl Lerp for PosNormalBoundedChannel {
    open spec fn can_lerp(&self, right: &Self, pos: Rational) -> bool {
        lerp_spec(self.0, right.0, pos) is Some
    }

    open spec fn spec_lerp(&self, right: &Self, pos: Rational) -> Self {
        PosNormalBoundedChannel(lerp_spec(self.0, right.0, pos)->0)
    }

    fn lerp(&self, right: &Self, pos: Rational) -> (r: Self) {
        match lerp_scalar(&self.0, &right.0, &pos) {
            Some(v) => PosNormalBoundedChannel(v),
            None => *self,
        }
    }
}

/// `v` clamped into `[0, 1]`.
pub open spec fn clamp_unit(v: Rational) -> Rational {
    if v.value() < 0real {
        Rational::spec_zero()
    } else if 1real < v.value() {
        Rational::spec_one()
    } else {
        v
    }
}

impl Bounded for PosNormalBoundedChannel {
    open spec fn spec_is_normalized(&self) -> bool {
        0real <= self.0.value() && self.0.value() <= 1real
    }

    open spec fn spec_normalize(self) -> Self {
        PosNormalBoundedChannel(clamp_unit(self.0))
    }

    open spec fn can_normalize(&self) -> bool {
        true
    }

    fn normalize(self) -> (r: Self) {
        let zero = Rational::zero();
        let one = Rational::one();
        if self.0.lt(&zero) {
            PosNormalBoundedChannel(zero)
        } else if one.lt(&self.0) {
            PosNormalBoundedChannel(one)
        } else {
            self
        }
    }

    fn is_normalized(&self) -> (r: bool) {
        let zero = Rational::zero();
        let one = Rational::one();
        zero.le(&self.0) && self.0.le(&one)
    }
}

/// A unit of angle: how many units make a full turn.
pub trait AngleUnit: Sized + Copy {
    spec fn spec_full_turn() -> int;

    fn unit() -> Self;

    fn full_turn() -> (r: i64)
        ensures
            r == Self::spec_full_turn(),
            0 < r < 0x1_0000_0000,
    ;
}

/// Degrees: 360 to the turn.
#[derive(Clone, Copy, Debug)]
pub struct Degrees {}

/// Turns: 1 to the turn.
#[derive(Clone, Copy, Debug)]
pub struct Turns {}

impl AngleUnit for Degrees {
    open spec fn spec_full_turn() -> int {
        360
    }

    fn unit() -> Self {
        Degrees {  }
    }

    fn full_turn() -> (r: i64) {
        360
    }
}

impl AngleUnit for Turns {
    open spec fn spec_full_turn() -> int {
        1
    }

    fn unit() -> Self {
        Turns {  }
    }

    fn full_turn() -> (r: i64) {
        1
    }
}

/// `a` brought into `[0, t)`, when representable.
pub open spec fn opt_wrap(a: Option<Rational>, t: int) -> Option<Rational> {
    match a {
        Some(x) => Rational::spec_rem_euclid(x, t),
        None => None,
    }
}

/// Half a turn of `t` units, as computed.
pub open spec fn half_turn(t: int) -> Rational {
    Rational::spec_make(t, 2)->0
}

/// The signed shortest arc from `a` to `b`, `half - ((half - (b - a)) mod t)`,
/// which lies in `(-t/2, t/2]`: the antipodal case goes the positive way.
pub open spec fn arc_spec(a: Rational, b: Rational, t: int) -> Option<Rational> {
    match Rational::spec_sub(b, a) {
        Some(d) => match Rational::spec_sub(half_turn(t), d) {
            Some(u) => match Rational::spec_rem_euclid(u, t) {
                Some(m) => Rational::spec_sub(half_turn(t), m),
                None => None,
            },
            None => None,
        },
        None => None,
    }
}

/// The arc from `a` to `b` is the shorter one: it lies in `(-t/2, t/2]` and
/// reaches `b` from `a` up to whole turns.
pub proof fn law_shortest_arc(a: Rational, b: Rational, t: int)
    requires
        a.wf(),
        b.wf(),
        0 < t < 0x1_0000_0000,
    ensures
        arc_spec(a, b, t) matches Some(arc) ==> -(t as real) / 2real < arc.value() && arc.value()
            <= t as real / 2real && exists|k: int|
            b.value() - a.value() - arc.value() == #[trigger] multiple(k, t),
{
    Rational::lemma_half(t);
    let h = half_turn(t);
    Rational::lemma_sub_value(b, a);
    if let Some(d) = Rational::spec_sub(b, a) {
        Rational::lemma_sub_value(h, d);
        if let Some(u) = Rational::spec_sub(h, d) {
            Rational::lemma_rem_euclid_value(u, t);
            if let Some(m) = Rational::spec_rem_euclid(u, t) {
                Rational::lemma_sub_value(h, m);
                if let Some(arc) = Rational::spec_sub(h, m) {
                    let k = choose|k: int| u.value() - m.value() == #[trigger] multiple(k, t);
                    assert((-k) * t == -(k * t)) by (nonlinear_arith);
                    assert(multiple(-k, t) == -multiple(k, t));
                    assert(b.value() - a.value() - arc.value() == multiple(-k, t));
                }
            }
        }
    }
}

/// `a + arc * pos`, wrapped into `[0, t)`.
pub open spec fn angular_lerp_spec(a: Rational, b: Rational, pos: Rational, t: int) -> Option<
    Rational,
> {
    match arc_spec(a, b, t) {
        Some(arc) => match Rational::spec_mul(arc, pos) {
            Some(step) => opt_wrap(Rational::spec_add(a, step), t),
            None => None,
        },
        None => None,
    }
}

/// An angle on a circle measured in the unit `U`.
#[derive(Clone, Copy, Debug)]
pub struct AngularChannel<U> {
    pub angle: Rational,
    pub unit: U,
}

impl<U: AngleUnit> AngularChannel<U> {
    pub fn new(angle: Rational) -> (r: AngularChannel<U>)
        ensures
            r.angle == angle,
    {
        AngularChannel { angle, unit: U::unit() }
    }

    pub fn value(&self) -> (r: Rational)
        ensures
            r == self.angle,
    {
        self.angle
    }

    fn half(t: i64) -> (r: Rational)
        requires
            0 < t < 0x1_0000_0000,
        ensures
            r == half_turn(t as int),
    {
        let h = Rational::new(t, 2);
        h
    }

    fn shortest_arc(a: &Rational, b: &Rational, t: i64) -> (r: Option<Rational>)
        requires
            0 < t < 0x1_0000_0000,
        ensures
            r == arc_spec(*a, *b, t as int),
    {
        let half = Self::half(t);
        let d = match b.checked_sub(a) {
            Some(d) => d,
            None => return None,
        };
        let u = match half.checked_sub(&d) {
            Some(u) => u,
            None => return None,
        };
        let m = match u.checked_rem_euclid(t) {
            Some(m) => m,
            None => return None,
        };
        half.checked_sub(&m)
    }
}

impl<U: AngleUnit> Bounded for AngularChannel<U> {
    open spec fn spec_is_normalized(&self) -> bool {
        0real <= self.angle.value() && self.angle.value() < U::spec_full_turn() as real
    }

    open spec fn spec_normalize(self) -> Self {
        AngularChannel {
            angle: Rational::spec_rem_euclid(self.angle, U::spec_full_turn())->0,
            unit: self.unit,
        }
    }

    open spec fn can_normalize(&self) -> bool {
        Rational::spec_rem_euclid(self.angle, U::spec_full_turn()) is Some
    }

    fn normalize(self) -> (r: Self) {
        match self.angle.checked_rem_euclid(U::full_turn()) {
            Some(v) => AngularChannel { angle: v, unit: self.unit },
            None => self,
        }
    }

    fn is_normalized(&self) -> (r: bool) {
        let zero = Rational::zero();
        let turn = Rational::from_integer(U::full_turn());
        zero.le(&self.angle) && self.angle.lt(&turn)
    }
}

impl<U: AngleUnit> Invert for AngularChannel<U> {
    open spec fn can_invert(&self) -> bool {
        opt_wrap(
            Rational::spec_add(self.angle, half_turn(U::spec_full_turn())),
            U::spec_full_turn(),
        ) is Some
    }

    /// The angle half a turn away, in `[0, full turn)`.
    open spec fn spec_invert(self) -> Self {
        AngularChannel {
            angle: opt_wrap(
                Rational::spec_add(self.angle, half_turn(U::spec_full_turn())),
                U::spec_full_turn(),
            )->0,
            unit: self.unit,
        }
    }

    fn invert(self) -> (r: Self) {
        let t = U::full_turn();
        let half = Self::half(t);
        match self.angle.checked_add(&half) {
            Some(s) => match s.checked_rem_euclid(t) {
                Some(v) => AngularChannel { angle: v, unit: self.unit },
                None => self,
            },
            None => self,
        }
    }
}

impl<U: AngleUnit> Lerp for AngularChannel<U> {
    open spec fn can_lerp(&self, right: &Self, pos: Rational) -> bool {
        angular_lerp_spec(self.angle, right.angle, pos, U::spec_full_turn()) is Some
    }

    /// Moves from `self` along the shorter arc towards `right`.
    open spec fn spec_lerp(&self, right: &Self, pos: Rational) -> Self {
        AngularChannel {
            angle: angular_lerp_spec(self.angle, right.angle, pos, U::spec_full_turn())->0,
            unit: self.unit,
        }
    }

    fn lerp(&self, right: &Self, pos: Rational) -> (r: Self) {
        let t = U::full_turn();
        let arc = match Self::shortest_arc(&self.angle, &right.angle, t) {
            Some(a) => a,
            None => return *self,
        };
        let step = match arc.checked_mul(&pos) {
            Some(s) => s,
            None => return *self,
        };
        let sum = match self.angle.checked_add(&step) {
            Some(s) => s,
            None => return *self,
        };
        match sum.checked_rem_euclid(t) {
            Some(v) => AngularChannel { angle: v, unit: self.unit },
            None => *self,
        }
    }
}

} // verus!
