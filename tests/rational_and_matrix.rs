use prisma_core::encoding::{EncodedColor, LinearEncoding};
use prisma_core::{
    Color, ColorSpaceEncoding, Flatten, FreeChannel, FromTuple, HomogeneousColor,
    LinearColorSpace, Matrix3, MatrixError, Rational, Rgb, RgbPrimary, Xyz,
};

fn q(n: i64, d: i64) -> Rational {
    Rational::new(n, d)
}

#[test]
fn rational_reduces() {
    let r = q(6400, 10000);
    assert_eq!(r.numer(), 16);
    assert_eq!(r.denom(), 25);
    assert_eq!(q(-6, 4), q(-3, 2));
    assert!(q(0, 5).is_zero());
}

#[test]
fn rational_arithmetic() {
    assert_eq!(q(1, 3).checked_add(&q(1, 6)).unwrap(), q(1, 2));
    assert_eq!(q(1, 3).checked_sub(&q(1, 2)).unwrap(), q(-1, 6));
    assert_eq!(q(2, 3).checked_mul(&q(9, 4)).unwrap(), q(3, 2));
    assert_eq!(q(2, 3).checked_div(&q(-4, 9)).unwrap(), q(-3, 2));
    assert_eq!(q(5, 7).neg(), q(-5, 7));
    assert!(q(1, 3).lt(&q(1, 2)));
    assert!(q(1, 2).le(&q(2, 4)));
    assert!(q(1, 2).same_value(&q(2, 4)));
    assert_eq!(q(-1, 3).checked_rem_euclid(2).unwrap(), q(5, 3));
}

#[test]
fn rational_overflow_is_none() {
    let big = Rational::new(i64::MAX, 1);
    assert!(big.checked_add(&big).is_none());
    assert!(big.checked_mul(&q(2, 1)).is_none());
    assert!(Rational::new(1, i64::MAX).checked_div(&q(i64::MAX, 1)).is_none());
}

#[test]
fn matrix_inverse_and_product() {
    let m = Matrix3::new([
        q(2, 1), q(0, 1), q(1, 1),
        q(1, 1), q(3, 1), q(0, 1),
        q(0, 1), q(1, 1), q(1, 1),
    ]);
    assert_eq!(m.determinant().unwrap(), q(7, 1));
    let inv = m.inverse().unwrap();
    assert_eq!(inv.entry(0, 0), q(3, 7));
    let p = m.mul(&inv).unwrap();
    for i in 0..3 {
        for j in 0..3 {
            assert_eq!(p.entry(i, j), if i == j { q(1, 1) } else { q(0, 1) });
        }
    }
    let (x, y, z) = m.transform_vector((q(1, 1), q(2, 1), q(3, 1))).unwrap();
    assert_eq!((x, y, z), (q(5, 1), q(7, 1), q(5, 1)));
}

#[test]
fn singular_matrix_has_no_inverse() {
    let m = Matrix3::new([
        q(1, 1), q(2, 1), q(3, 1),
        q(2, 1), q(4, 1), q(6, 1),
        q(0, 1), q(1, 1), q(1, 1),
    ]);
    assert!(m.determinant().unwrap().is_zero());
    assert!(matches!(m.inverse(), Err(MatrixError::Singular)));
}

#[test]
fn matrix_overflow_is_reported() {
    let big = Rational::new(i64::MAX, 1);
    let m = Matrix3::new([big, big, q(0, 1), q(0, 1), big, big, big, q(0, 1), big]);
    assert!(matches!(m.inverse(), Err(MatrixError::Overflow)));
}

#[test]
fn tuple_round_trip() {
    let c = Rgb::from_channels(q(1, 2), q(1, 3), q(1, 4));
    assert_eq!(Rgb::from_tuple(c.to_tuple()), c);
    let x = Xyz::from_channels(q(1, 5), q(2, 5), q(3, 5));
    assert_eq!(Xyz::from_tuple(x.to_tuple()), x);
    assert_eq!(Rgb::num_channels(), 3);
}

#[test]
fn broadcast_and_clamp() {
    let c = Rgb::broadcast(q(1, 2));
    assert_eq!(c, Rgb::from_channels(q(1, 2), q(1, 2), q(1, 2)));
    let d = Rgb::from_channels(q(-1, 2), q(1, 2), q(3, 2)).clamp(q(0, 1), q(1, 1));
    assert_eq!(d, Rgb::from_channels(q(0, 1), q(1, 2), q(1, 1)));
}

#[test]
fn linear_encoding_round_trip() {
    let c = Rgb::from_channels(q(1, 2), q(1, 3), q(1, 4));
    let lin = EncodedColor::new(c, LinearEncoding::new());
    let enc = lin.encode(LinearEncoding::new());
    assert_eq!(enc.decode().color, c);
    assert_eq!(enc.color, c);
}

#[test]
fn flatten_round_trip() {
    let c = Rgb::from_channels(q(1, 2), q(1, 3), q(1, 4));
    let v = c.to_vec();
    assert_eq!(v, vec![q(1, 2), q(1, 3), q(1, 4)]);
    assert_eq!(Rgb::from_slice(&v), c);
    let x = Xyz::from_channels(q(1, 5), q(2, 5), q(3, 5));
    assert_eq!(Xyz::from_slice(&x.to_vec()), x);
}

#[test]
fn free_channel_bounds_and_default() {
    assert_eq!(FreeChannel::max_bound(), Rational::new(i64::MAX, 1));
    assert_eq!(FreeChannel::min_bound(), Rational::new(-i64::MAX, 1));
    assert_eq!(FreeChannel::default().value(), q(0, 1));
    assert_eq!(FreeChannel::from_scalar(q(3, 2)).scalar(), q(3, 2));
}

#[test]
fn decoding_linear_color_space_is_identity() {
    let space = LinearColorSpace::new(
        RgbPrimary::new(q(64, 100), q(33, 100)),
        RgbPrimary::new(q(3, 10), q(6, 10)),
        RgbPrimary::new(q(15, 100), q(6, 100)),
        Xyz::from_channels(q(95047, 100000), q(1, 1), q(108883, 100000)),
    )
    .unwrap();
    let c = Rgb::from_channels(q(1, 2), q(1, 3), q(1, 4));
    assert_eq!(space.decode_color(c).color, c);
}
