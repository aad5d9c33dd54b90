//! Exact color-space mathematics: channels, color capabilities, 3×3 matrices and
//! the derivation of RGB-to-XYZ transforms from primaries and a white point.
//!
//! Every scalar is an exact rational, so the derived transforms and their
//! inverses are exact, and the laws relating them are proved rather than
//! approximated.
pub mod rational;
pub mod linalg;
pub mod color;
pub mod model;
pub mod channel;
pub mod encoding;
pub mod color_space;

pub use color::{
    Bounded, Color, Color3, Color4, DeviceDependentColor, Flatten, FromTuple, HomogeneousColor,
    Invert, Lerp, PolarColor,
};
pub use channel::{AngularChannel, FreeChannel, FreeChannelTag, PosNormalBoundedChannel};
pub use color_space::{
    ColorSpace, ColorSpaceConversion, ColorSpaceEncoding, ColorSpaceError, EncodedColorSpace,
    LinearColorSpace, RgbPrimary, ToXyz,
};
pub use linalg::{Matrix3, MatrixError};
pub use model::{Rgb, Xyz};
pub use rational::Rational;
