//! Capabilities a color model can have. A model implements whichever of these
//! apply to it; generic code asks only for the ones it needs.
use vstd::prelude::*;
use crate::rational::Rational;

verus! {

/// Any color: a fixed number of channels, convertible to a tuple of them.
pub trait Color: Sized {
    /// A tuple with one element per channel.
    type ChannelsTuple;

    spec fn spec_num_channels() -> nat;

    spec fn spec_to_tuple(self) -> Self::ChannelsTuple;

    /// How many channels the color has.
    fn num_channels() -> (r: u32)
        ensures
            r == Self::spec_num_channels(),
    ;

    /// The channels as a tuple.
    fn to_tuple(self) -> (r: Self::ChannelsTuple)
        ensures
            r == self.spec_to_tuple(),
    ;
}

/// A color that can be rebuilt from its tuple of channels.
pub trait FromTuple: Color {
    spec fn spec_from_tuple(values: Self::ChannelsTuple) -> Self;

    fn from_tuple(values: Self::ChannelsTuple) -> (r: Self)
        ensures
            r == Self::spec_from_tuple(values),
    ;

    /// Rebuilding from the tuple gives back the color.
    proof fn lemma_from_to_tuple(c: Self)
        ensures
            Self::spec_from_tuple(c.spec_to_tuple()) == c,
    ;
}

/// For every color model, converting to a tuple and back is the identity.
pub proof fn law_tuple_round_trip<C: FromTuple>(c: C)
    ensures
        C::spec_from_tuple(c.spec_to_tuple()) == c,
{
    C::lemma_from_to_tuple(c);
}

/// A color with one angular (hue) channel and otherwise cartesian channels.
pub trait PolarColor: Color {
    /// The angular channel's type.
    type Angular;
    /// The other channels' scalar type.
    type Cartesian;
}

/// A color whose channels share one scalar type and can be listed in a fixed order.
pub trait Flatten: Color {
    /// The scalar type of each channel.
    type ScalarFormat;

    spec fn spec_flatten(self) -> Seq<Self::ScalarFormat>;

    /// Builds the color from its channels in order; `values` has one per channel.
    fn from_slice(values: &[Self::ScalarFormat]) -> (r: Self)
        requires
            values@.len() == Self::spec_num_channels(),
        ensures
            r.spec_flatten() == values@,
    ;

    /// The channels in order.
    fn to_vec(&self) -> (r: Vec<Self::ScalarFormat>)
        ensures
            r@ == self.spec_flatten(),
            r@.len() == Self::spec_num_channels(),
    ;
}

/// The value `v` clamped into `[min, max]` (to `min` when the bounds cross).
pub open spec fn clamped_value(v: Rational, min: Rational, max: Rational) -> Rational {
    if v.value() < min.value() {
        min
    } else if max.value() < v.value() {
        max
    } else {
        v
    }
}

/// `v` clamped into `[min, max]`.
pub fn clamp_scalar(v: Rational, min: Rational, max: Rational) -> (r: Rational)
    ensures
        r == clamped_value(v, min, max),
{
    if v.lt(&min) {
        min
    } else if max.lt(&v) {
        max
    } else {
        v
    }
}

/// A color whose channels all have one type.
pub trait HomogeneousColor: Color {
    /// The type of each channel.
    type ChannelFormat;

    spec fn spec_broadcast(value: Self::ChannelFormat) -> Self;

    /// The channels in order.
    spec fn spec_channels(self) -> Seq<Self::ChannelFormat>;

    spec fn spec_clamp(self, min: Self::ChannelFormat, max: Self::ChannelFormat) -> Self;

    /// The color with every channel set to `value`.
    fn broadcast(value: Self::ChannelFormat) -> (r: Self)
        ensures
            r == Self::spec_broadcast(value),
            forall|i: int|
                0 <= i < r.spec_channels().len() ==> #[trigger] r.spec_channels()[i] == value,
    ;

    /// Each channel clamped into `[min, max]`.
    fn clamp(self, min: Self::ChannelFormat, max: Self::ChannelFormat) -> (r: Self)
        ensures
            r == self.spec_clamp(min, max),
    ;
}

/// A color with three channels.
pub trait Color3: Color {

}

/// A color with four channels.
pub trait Color4: Color {

}

/// A value that can be interpolated linearly between two others.
pub trait Lerp: Sized {
    /// Whether interpolating from `self` to `right` at `pos` stays representable.
    spec fn can_lerp(&self, right: &Self, pos: Rational) -> bool;

    spec fn spec_lerp(&self, right: &Self, pos: Rational) -> Self;

    /// `pos = 0` gives `self`, `pos = 1` gives `right`.
    fn lerp(&self, right: &Self, pos: Rational) -> (r: Self)
        requires
            self.can_lerp(right, pos),
        ensures
            r == self.spec_lerp(right, pos),
    ;
}

/// A value that has an opposite.
pub trait Invert: Sized {
    /// Whether the opposite is representable.
    spec fn can_invert(&self) -> bool;

    spec fn spec_invert(self) -> Self;

    fn invert(self) -> (r: Self)
        requires
            self.can_invert(),
        ensures
            r == self.spec_invert(),
    ;
}

/// A value with a normal range.
pub trait Bounded: Sized {
    spec fn spec_is_normalized(&self) -> bool;

    spec fn spec_normalize(self) -> Self;

    /// Whether normalizing stays representable.
    spec fn can_normalize(&self) -> bool;

    /// The value brought into its normal range.
    fn normalize(self) -> (r: Self)
        requires
            self.can_normalize(),
        ensures
            r == self.spec_normalize(),
            r.spec_is_normalized(),
    ;

    fn is_normalized(&self) -> (r: bool)
        ensures
            r == self.spec_is_normalized(),
    ;
}

/// A color that needs a color space to identify a stimulus.
pub trait DeviceDependentColor: Color {

}

} // verus!
