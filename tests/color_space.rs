use prisma_core::channel::Degrees;
use prisma_core::encoding::{EncodedColor, LinearEncoding};
use prisma_core::{
    AngularChannel, ColorSpace, ColorSpaceConversion, ColorSpaceEncoding, ColorSpaceError,
    EncodedColorSpace, LinearColorSpace, Matrix3, Rational, Rgb, RgbPrimary, Xyz,
};

fn q(n: i64, d: i64) -> Rational {
    Rational::new(n, d)
}

fn to_f64(r: &Rational) -> f64 {
    r.numer() as f64 / r.denom() as f64
}

fn d65() -> Xyz {
    Xyz::from_channels(q(95047, 100000), q(1, 1), q(108883, 100000))
}

fn srgb_primaries() -> (RgbPrimary, RgbPrimary, RgbPrimary) {
    (
        RgbPrimary::new(q(6400, 10000), q(3300, 10000)),
        RgbPrimary::new(q(300, 1000), q(600, 1000)),
        RgbPrimary::new(q(150, 1000), q(60, 1000)),
    )
}

fn srgb() -> LinearColorSpace {
    let (r, g, b) = srgb_primaries();
    LinearColorSpace::new(r, g, b, d65()).unwrap()
}

fn assert_matrix_close(m: &Matrix3, expected: [f64; 9], eps: f64) {
    for i in 0..3 {
        for j in 0..3 {
            let v = to_f64(&m.entry(i, j));
            assert!((v - expected[3 * i + j]).abs() < eps, "entry ({}, {}) is {}", i, j, v);
        }
    }
}

fn assert_xyz_close(c: &Xyz, expected: (f64, f64, f64), eps: f64) {
    assert!((to_f64(&c.x) - expected.0).abs() < eps);
    assert!((to_f64(&c.y) - expected.1).abs() < eps);
    assert!((to_f64(&c.z) - expected.2).abs() < eps);
}

#[test]
fn test_build_transform() {
    let space = srgb();
    let m = space.get_xyz_transform();
    assert_matrix_close(
        m,
        [0.4124564, 0.3575761, 0.1804375, 0.2126729, 0.7151522, 0.0721750, 0.0193339, 0.1191920,
            0.9503041],
        1e-4,
    );
}

#[test]
fn test_to_xyz() {
    let srgb = srgb();
    let c1 = srgb
        .color_to_xyz(&EncodedColor::new(
            Rgb::from_channels(q(0, 1), q(0, 1), q(0, 1)),
            LinearEncoding::new(),
        ))
        .unwrap();
    assert_xyz_close(&c1, (0.0, 0.0, 0.0), 1e-5);
    let c2 = srgb
        .color_to_xyz(&EncodedColor::new(
            Rgb::from_channels(q(1, 1), q(1, 1), q(1, 1)),
            LinearEncoding::new(),
        ))
        .unwrap();
    assert_xyz_close(&c2, (0.95047, 1.0, 1.08883), 1e-5);
    let c3 = srgb
        .color_to_xyz(&EncodedColor::new(
            Rgb::from_channels(q(1, 2), q(1, 2), q(1, 2)),
            LinearEncoding::new(),
        ))
        .unwrap();
    assert_xyz_close(&c3, (0.475235, 0.5000, 0.544415), 1e-5);
}

#[test]
fn white_and_black_are_exact() {
    let space = srgb();
    let white = space
        .color_to_xyz(&EncodedColor::new(
            Rgb::from_channels(q(1, 1), q(1, 1), q(1, 1)),
            LinearEncoding::new(),
        ))
        .unwrap();
    assert_eq!(white, d65());
    let black = space
        .color_to_xyz(&EncodedColor::new(
            Rgb::from_channels(q(0, 1), q(0, 1), q(0, 1)),
            LinearEncoding::new(),
        ))
        .unwrap();
    assert_eq!(black, Xyz::from_channels(q(0, 1), q(0, 1), q(0, 1)));
}

#[test]
fn forward_times_inverse_is_identity() {
    let space = srgb();
    let p = space.get_xyz_transform().mul(space.get_inverse_xyz_transform()).unwrap();
    for i in 0..3 {
        for j in 0..3 {
            let expected = if i == j { q(1, 1) } else { q(0, 1) };
            assert_eq!(p.entry(i, j), expected);
        }
    }
}

#[test]
fn srgb_top_left_entry() {
    let space = srgb();
    let top_left = space.get_xyz_transform().entry(0, 0);
    assert_eq!(top_left, q(962828, 2334375));
    assert!((to_f64(&top_left) - 0.4124564).abs() < 1e-6);
}

#[test]
fn collinear_primaries_are_singular() {
    let r = RgbPrimary::new(q(2, 10), q(2, 10));
    let g = RgbPrimary::new(q(3, 10), q(3, 10));
    let b = RgbPrimary::new(q(4, 10), q(4, 10));
    let res = LinearColorSpace::new(r, g, b, d65());
    assert!(matches!(res, Err(ColorSpaceError::Singular)));
}

#[test]
fn zero_y_primary_is_degenerate() {
    let (r, g, _) = srgb_primaries();
    let b = RgbPrimary::new(q(15, 100), q(0, 1));
    let res = LinearColorSpace::new(r, g, b, d65());
    assert!(matches!(res, Err(ColorSpaceError::DegeneratePrimary)));
}

#[test]
fn white_in_plane_of_two_primaries_is_singular() {
    let (r, g, b) = srgb_primaries();
    // the white point lies on the red primary's direction: the green and blue
    // scales are zero
    let white = Xyz::from_channels(q(64, 33), q(1, 1), q(1, 11));
    let res = LinearColorSpace::new(r, g, b, white);
    assert!(matches!(res, Err(ColorSpaceError::Singular)));
}

#[test]
fn encoded_space_matches_linear_space() {
    let (r, g, b) = srgb_primaries();
    let space = EncodedColorSpace::new(r, g, b, d65(), LinearEncoding::new()).unwrap();
    let c = Rgb::from_channels(q(1, 2), q(1, 4), q(3, 4));
    let via_encoded: Option<Xyz> = space.color_to_xyz(&c);
    let linear = srgb()
        .color_to_xyz(&EncodedColor::new(c, LinearEncoding::new()))
        .unwrap();
    assert_eq!(via_encoded.unwrap(), linear);
    assert_eq!(space.red_primary(), r);
    assert_eq!(space.white_point(), d65());
    assert_eq!(space.decode_color(c).color, c);
    assert_eq!(space.linear_color_space().white_point(), d65());
}

#[test]
fn apply_transform_of_ones_is_white() {
    let space = srgb();
    let (x, y, z) = space.apply_transform((q(1, 1), q(1, 1), q(1, 1))).unwrap();
    assert_eq!(Xyz::from_channels(x, y, z), d65());
}

#[test]
fn new_with_transforms_keeps_its_arguments() {
    let base = srgb();
    let (r, g, b) = srgb_primaries();
    let space = LinearColorSpace::new_with_transforms(
        r,
        g,
        b,
        d65(),
        *base.get_xyz_transform(),
        *base.get_inverse_xyz_transform(),
    );
    assert_eq!(space.green_primary(), g);
    assert_eq!(space.get_xyz_transform().entry(1, 1), base.get_xyz_transform().entry(1, 1));
}

#[test]
fn angular_channel_keeps_its_value() {
    let a: AngularChannel<Degrees> = AngularChannel::new(q(10, 1));
    assert_eq!(a.value(), q(10, 1));
}

#[test]
fn rgb_to_xyz_and_back_is_exact() {
    let space = srgb();
    let c = Rgb::from_channels(q(1, 5), q(2, 3), q(7, 10));
    let xyz = space
        .color_to_xyz(&EncodedColor::new(c, LinearEncoding::new()))
        .unwrap();
    let back = space.xyz_to_color(&xyz).unwrap();
    assert_eq!(back.color, c);
}

#[test]
fn encoded_space_xyz_to_color() {
    let (r, g, b) = srgb_primaries();
    let space = EncodedColorSpace::new(r, g, b, d65(), LinearEncoding::new()).unwrap();
    let c = space.xyz_to_color(&d65()).unwrap();
    assert_eq!(c.color, Rgb::from_channels(q(1, 1), q(1, 1), q(1, 1)));
    assert_eq!(space.encode_channel(q(1, 3)), q(1, 3));
    assert_eq!(space.decode_channel(q(1, 3)), q(1, 3));
}
