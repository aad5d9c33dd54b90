//! The two color models the color-space transform works between: device RGB and
//! CIE XYZ tristimulus values.
use vstd::prelude::*;
use crate::rational::Rational;
use crate::color::{
    clamp_scalar, clamped_value, Color, Color3, DeviceDependentColor, Flatten, FromTuple,
    HomogeneousColor,
};

verus! {

/// An RGB color; its meaning depends on the color space it is interpreted in.
#[derive(Clone, Copy, Debug, PartialEq, Eq, Structural)]
pub struct Rgb {
    pub red: Rational,
    pub green: Rational,
    pub blue: Rational,
}

/// A CIE XYZ tristimulus value.
#[derive(Clone, Copy, Debug, PartialEq, Eq, Structural)]
pub struct Xyz {
    pub x: Rational,
    pub y: Rational,
    pub z: Rational,
}

impl Rgb {
    pub fn from_channels(red: Rational, green: Rational, blue: Rational) -> (r: Rgb)
        ensures
            r == (Rgb { red, green, blue }),
    {
        Rgb { red, green, blue }
    }
}

impl Xyz {
    pub fn from_channels(x: Rational, y: Rational, z: Rational) -> (r: Xyz)
        ensures
            r == (Xyz { x, y, z }),
    {
        Xyz { x, y, z }
    }

    /// The channels `(x, y, z)` as a tuple.
    pub fn to_tuple_exec(&self) -> (r: (Rational, Rational, Rational))
        ensures
            r == (self.x, self.y, self.z),
    {
        (self.x, self.y, self.z)
    }
}

impl Color for Rgb {
    type ChannelsTuple = (Rational, Rational, Rational);

    open spec fn spec_num_channels() -> nat {
        3
    }

    open spec fn spec_to_tuple(self) -> (Rational, Rational, Rational) {
        (self.red, self.green, self.blue)
    }

    fn num_channels() -> (r: u32) {
        3
    }

    fn to_tuple(self) -> (r: (Rational, Rational, Rational)) {
        (self.red, self.green, self.blue)
    }
}

impl FromTuple for Rgb {
    open spec fn spec_from_tuple(values: (Rational, Rational, Rational)) -> Rgb {
        Rgb { red: values.0, green: values.1, blue: values.2 }
    }

    fn from_tuple(values: (Rational, Rational, Rational)) -> (r: Rgb) {
        Rgb { red: values.0, green: values.1, blue: values.2 }
    }

    proof fn lemma_from_to_tuple(c: Rgb) {
    }
}

impl Color3 for Rgb {

}

impl DeviceDependentColor for Rgb {

}

impl HomogeneousColor for Rgb {
    type ChannelFormat = Rational;

    open spec fn spec_broadcast(value: Rational) -> Rgb {
        Rgb { red: value, green: value, blue: value }
    }

    open spec fn spec_channels(self) -> Seq<Rational> {
        seq![self.red, self.green, self.blue]
    }

    open spec fn spec_clamp(self, min: Rational, max: Rational) -> Rgb {
        Rgb {
            red: clamped_value(self.red, min, max),
            green: clamped_value(self.green, min, max),
            blue: clamped_value(self.blue, min, max),
        }
    }

    fn broadcast(value: Rational) -> (r: Rgb) {
        Rgb { red: value, green: value, blue: value }
    }

    fn clamp(self, min: Rational, max: Rational) -> (r: Rgb) {
        Rgb {
            red: clamp_scalar(self.red, min, max),
            green: clamp_scalar(self.green, min, max),
            blue: clamp_scalar(self.blue, min, max),
        }
    }
}

impl Color for Xyz {
    type ChannelsTuple = (Rational, Rational, Rational);

    open spec fn spec_num_channels() -> nat {
        3
    }

    open spec fn spec_to_tuple(self) -> (Rational, Rational, Rational) {
        (self.x, self.y, self.z)
    }

    fn num_channels() -> (r: u32) {
        3
    }

    fn to_tuple(self) -> (r: (Rational, Rational, Rational)) {
        (self.x, self.y, self.z)
    }
}

impl FromTuple for Xyz {
    open spec fn spec_from_tuple(values: (Rational, Rational, Rational)) -> Xyz {
        Xyz { x: values.0, y: values.1, z: values.2 }
    }

    fn from_tuple(values: (Rational, Rational, Rational)) -> (r: Xyz) {
        Xyz { x: values.0, y: values.1, z: values.2 }
    }

    proof fn lemma_from_to_tuple(c: Xyz) {
    }
}

impl Color3 for Xyz {

}

impl HomogeneousColor for Xyz {
    type ChannelFormat = Rational;

    open spec fn spec_broadcast(value: Rational) -> Xyz {
        Xyz { x: value, y: value, z: value }
    }

    open spec fn spec_channels(self) -> Seq<Rational> {
        seq![self.x, self.y, self.z]
    }

    open spec fn spec_clamp(self, min: Rational, max: Rational) -> Xyz {
        Xyz {
            x: clamped_value(self.x, min, max),
            y: clamped_value(self.y, min, max),
            z: clamped_value(self.z, min, max),
        }
    }

    fn broadcast(value: Rational) -> (r: Xyz) {
        Xyz { x: value, y: value, z: value }
    }

    fn clamp(self, min: Rational, max: Rational) -> (r: Xyz) {
        Xyz {
            x: clamp_scalar(self.x, min, max),
            y: clamp_scalar(self.y, min, max),
            z: clamp_scalar(self.z, min, max),
        }
    }
}

impl Flatten for Rgb {
    type ScalarFormat = Rational;

    open spec fn spec_flatten(self) -> Seq<Rational> {
        seq![self.red, self.green, self.blue]
    }

    /// Channels in the order red, green, blue.
    fn from_slice(values: &[Rational]) -> (r: Rgb) {
        let r = Rgb { red: values[0], green: values[1], blue: values[2] };
        proof {
            assert(r.spec_flatten() =~= values@);
        }
        r
    }

    fn to_vec(&self) -> (r: Vec<Rational>) {
        let mut v: Vec<Rational> = Vec::new();
        v.push(self.red);
        v.push(self.green);
        v.push(self.blue);
        proof {
            assert(v@ =~= self.spec_flatten());
        }
        v
    }
}

impl Flatten for Xyz {
    type ScalarFormat = Rational;

    open spec fn spec_flatten(self) -> Seq<Rational> {
        seq![self.x, self.y, self.z]
    }

    /// Channels in the order x, y, z.
    fn from_slice(values: &[Rational]) -> (r: Xyz) {
        let r = Xyz { x: values[0], y: values[1], z: values[2] };
        proof {
            assert(r.spec_flatten() =~= values@);
        }
        r
    }

    fn to_vec(&self) -> (r: Vec<Rational>) {
        let mut v: Vec<Rational> = Vec::new();
        v.push(self.x);
        v.push(self.y);
        v.push(self.z);
        proof {
            assert(v@ =~= self.spec_flatten());
        }
        v
    }
}

} // verus!
