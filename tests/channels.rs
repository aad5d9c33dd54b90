use prisma_core::channel::{lerp_scalar, Degrees, Turns};
use prisma_core::{
    AngularChannel, Bounded, FreeChannel, Invert, Lerp, PosNormalBoundedChannel, Rational,
};

fn q(n: i64, d: i64) -> Rational {
    Rational::new(n, d)
}

#[test]
fn angular_lerp_takes_the_short_arc() {
    let a: AngularChannel<Degrees> = AngularChannel::new(q(350, 1));
    let b: AngularChannel<Degrees> = AngularChannel::new(q(10, 1));
    assert_eq!(a.lerp(&b, q(1, 2)).value(), q(0, 1));
    assert_eq!(b.lerp(&a, q(1, 2)).value(), q(0, 1));
}

#[test]
fn angular_lerp_endpoints() {
    let a: AngularChannel<Degrees> = AngularChannel::new(q(350, 1));
    let b: AngularChannel<Degrees> = AngularChannel::new(q(10, 1));
    assert_eq!(a.lerp(&b, q(0, 1)).value(), q(350, 1));
    assert_eq!(a.lerp(&b, q(1, 1)).value(), q(10, 1));
    assert_eq!(a.lerp(&b, q(1, 4)).value(), q(355, 1));
}

#[test]
fn angular_lerp_antipodal_goes_positive() {
    let a: AngularChannel<Degrees> = AngularChannel::new(q(0, 1));
    let b: AngularChannel<Degrees> = AngularChannel::new(q(180, 1));
    assert_eq!(a.lerp(&b, q(1, 2)).value(), q(90, 1));
    assert_eq!(b.lerp(&a, q(1, 2)).value(), q(270, 1));
}

#[test]
fn angular_invert_and_normalize() {
    let a: AngularChannel<Degrees> = AngularChannel::new(q(270, 1));
    assert_eq!(a.invert().value(), q(90, 1));
    let b: AngularChannel<Degrees> = AngularChannel::new(q(-30, 1));
    assert!(!b.is_normalized());
    assert_eq!(b.normalize().value(), q(330, 1));
    let c: AngularChannel<Degrees> = AngularChannel::new(q(725, 1));
    assert_eq!(c.normalize().value(), q(5, 1));
    assert!(c.normalize().is_normalized());
    let t: AngularChannel<Turns> = AngularChannel::new(q(7, 4));
    assert_eq!(t.normalize().value(), q(3, 4));
    assert_eq!(t.invert().value(), q(1, 4));
}

#[test]
fn bounded_invert() {
    let c = PosNormalBoundedChannel::new(q(3, 10));
    let once = c.invert();
    assert_eq!(once.value(), q(7, 10));
    assert_eq!(once.invert(), c);
}

#[test]
fn bounded_normalize() {
    assert_eq!(PosNormalBoundedChannel::new(q(3, 2)).normalize().value(), q(1, 1));
    assert_eq!(PosNormalBoundedChannel::new(q(-1, 2)).normalize().value(), q(0, 1));
    assert_eq!(PosNormalBoundedChannel::new(q(1, 2)).normalize().value(), q(1, 2));
    assert!(PosNormalBoundedChannel::new(q(1, 1)).is_normalized());
    assert!(!PosNormalBoundedChannel::new(q(11, 10)).is_normalized());
}

#[test]
fn free_channel_lerp_and_normalize() {
    let a = FreeChannel::new(q(2, 1));
    let b = FreeChannel::new(q(5, 1));
    assert_eq!(a.lerp(&b, q(1, 3)).value(), q(3, 1));
    assert_eq!(a.lerp(&b, q(2, 1)).value(), q(8, 1));
    let big = FreeChannel::new(q(1000, 1));
    assert!(big.is_normalized());
    assert_eq!(big.normalize(), big);
}

#[test]
fn bounded_lerp() {
    let a = PosNormalBoundedChannel::new(q(0, 1));
    let b = PosNormalBoundedChannel::new(q(1, 1));
    assert_eq!(a.lerp(&b, q(1, 4)).value(), q(1, 4));
}

#[test]
fn lerp_scalar_overflow_is_none() {
    let big = Rational::new(i64::MAX, 1);
    let small = Rational::new(-i64::MAX, 1);
    assert!(lerp_scalar(&small, &big, &q(1, 2)).is_none());
}

#[test]
fn bounded_channel_to_u8_rounds_and_clamps() {
    assert_eq!(PosNormalBoundedChannel::new(q(1, 2)).to_u8(), 128);
    assert_eq!(PosNormalBoundedChannel::new(q(1, 3)).to_u8(), 85);
    assert_eq!(PosNormalBoundedChannel::new(q(-1, 2)).to_u8(), 0);
    assert_eq!(PosNormalBoundedChannel::new(q(3, 2)).to_u8(), 255);
    assert_eq!(PosNormalBoundedChannel::new(q(1, 1)).to_u8(), 255);
    assert_eq!(PosNormalBoundedChannel::new(q(1, 510)).to_u8(), 1);
    for b in [0u8, 1, 77, 128, 254, 255] {
        assert_eq!(PosNormalBoundedChannel::from_u8(b).to_u8(), b);
    }
    assert_eq!(PosNormalBoundedChannel::from_u8(51).value(), q(1, 5));
}
