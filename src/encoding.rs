//! Transfer functions, and colors tagged with the encoding their values are in.
use vstd::prelude::*;
use crate::rational::Rational;
use crate::model::Rgb;

verus! {

/// A transfer function between linear light values and stored values.
///
/// Implementations prove that encoding and decoding undo each other.
pub trait ColorEncoding: Sized + Copy {
    spec fn spec_encode_channel(&self, v: Rational) -> Rational;

    spec fn spec_decode_channel(&self, v: Rational) -> Rational;

    /// Linear value to encoded value.
    fn encode_channel(&self, v: Rational) -> (r: Rational)
        ensures
            r == self.spec_encode_channel(v),
    ;

    /// Encoded value to linear value.
    fn decode_channel(&self, v: Rational) -> (r: Rational)
        ensures
            r == self.spec_decode_channel(v),
    ;

    /// Decoding an encoded value, and encoding a decoded one, give the value back.
    proof fn lemma_round_trip(&self, v: Rational)
        ensures
            self.spec_decode_channel(self.spec_encode_channel(v)).value() == v.value(),
            self.spec_encode_channel(self.spec_decode_channel(v)).value() == v.value(),
    ;
}

/// The identity transfer function: values are stored linearly.
#[derive(Clone, Copy, Debug, PartialEq, Eq, Structural)]
pub struct LinearEncoding {}

impl LinearEncoding {
    pub fn new() -> (r: LinearEncoding) {
        LinearEncoding {  }
    }
}

impl ColorEncoding for LinearEncoding {
    open spec fn spec_encode_channel(&self, v: Rational) -> Rational {
        v
    }

    open spec fn spec_decode_channel(&self, v: Rational) -> Rational {
        v
    }

    fn encode_channel(&self, v: Rational) -> (r: Rational) {
        v
    }

    fn decode_channel(&self, v: Rational) -> (r: Rational) {
        v
    }

    proof fn lemma_round_trip(&self, v: Rational) {
    }
}

/// A color together with the encoding its channel values are stored in.
#[derive(Clone, Copy, Debug)]
pub struct EncodedColor<C, E> {
    pub color: C,
    pub encoding: E,
}

/// A color whose channel values are linear light.
pub type LinearColor<C> = EncodedColor<C, LinearEncoding>;

/// `c` with every channel encoded by `e`.
pub open spec fn spec_encode_rgb<E: ColorEncoding>(e: E, c: Rgb) -> Rgb {
    Rgb {
        red: e.spec_encode_channel(c.red),
        green: e.spec_encode_channel(c.green),
        blue: e.spec_encode_channel(c.blue),
    }
}

/// `c` with every channel decoded by `e`.
pub open spec fn spec_decode_rgb<E: ColorEncoding>(e: E, c: Rgb) -> Rgb {
    Rgb {
        red: e.spec_decode_channel(c.red),
        green: e.spec_decode_channel(c.green),
        blue: e.spec_decode_channel(c.blue),
    }
}

/// Whether two RGB colors have the same channel values.
pub open spec fn same_rgb_values(a: Rgb, b: Rgb) -> bool {
    &&& a.red.value() == b.red.value()
    &&& a.green.value() == b.green.value()
    &&& a.blue.value() == b.blue.value()
}

impl<C, E> EncodedColor<C, E> {
    /// Tags `color` as stored in `encoding`.
    pub fn new(color: C, encoding: E) -> (r: EncodedColor<C, E>)
        ensures
            r.color == color,
            r.encoding == encoding,
    {
        EncodedColor { color, encoding }
    }
}

impl<E: ColorEncoding> EncodedColor<Rgb, E> {
    /// The same color with linear channel values.
    pub fn decode(&self) -> (r: LinearColor<Rgb>)
        ensures
            r.color == spec_decode_rgb(self.encoding, self.color),
    {
        let c = Rgb {
            red: self.encoding.decode_channel(self.color.red),
            green: self.encoding.decode_channel(self.color.green),
            blue: self.encoding.decode_channel(self.color.blue),
        };
        EncodedColor { color: c, encoding: LinearEncoding::new() }
    }
}

impl EncodedColor<Rgb, LinearEncoding> {
    /// The same color with its channel values encoded by `encoding`.
    pub fn encode<E: ColorEncoding>(&self, encoding: E) -> (r: EncodedColor<Rgb, E>)
        ensures
            r.color == spec_encode_rgb(encoding, self.color),
            r.encoding == encoding,
    {
        let c = Rgb {
            red: encoding.encode_channel(self.color.red),
            green: encoding.encode_channel(self.color.green),
            blue: encoding.encode_channel(self.color.blue),
        };
        EncodedColor { color: c, encoding }
    }
}

/// For every encoding, decoding an encoded color and encoding a decoded color give
/// back the channel values.
pub proof fn law_encode_decode_round_trip<E: ColorEncoding>(e: E, c: Rgb)
    ensures
        same_rgb_values(spec_decode_rgb(e, spec_encode_rgb(e, c)), c),
        same_rgb_values(spec_encode_rgb(e, spec_decode_rgb(e, c)), c),
{
    e.lemma_round_trip(c.red);
    e.lemma_round_trip(c.green);
    e.lemma_round_trip(c.blue);
}

} // verus!
