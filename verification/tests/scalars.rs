use svgnotes::colors::Color;
use svgnotes::scalar::Scalar;

fn scalar(x: f32) -> Scalar {
    Scalar::from_bits(x.to_bits())
}

#[test]
fn bits_are_kept() {
    assert_eq!(Scalar::from_bits(0x3F80_0000).to_bits(), 0x3F80_0000);
    assert_eq!(scalar(1.0), Scalar { bits: 0x3F80_0000 });
}

#[test]
fn opacity_is_the_nearest_scalar() {
    for a in 0..=255u8 {
        let expected = (a as f32 / 255.0).to_bits();
        assert_eq!(Color::rgba(1, 2, 3, a).opacity().to_bits(), expected);
        assert_eq!(Scalar::from_channel(a).to_bits(), expected);
    }
    assert_eq!(Scalar::from_channel(85).to_bits(), 0x3EAA_AAAB);
    assert_eq!(Scalar::from_channel(255).to_bits(), 0x3F80_0000);
    assert_eq!(Scalar::from_channel(0).to_bits(), 0);
}

#[test]
fn alpha_of_own_opacity() {
    for a in 0..=255u8 {
        let c = Color::rgba(9, 8, 7, a);
        assert_eq!(c.with_opacity(c.opacity()), c);
        assert_eq!(Scalar::from_channel(a).to_channel(), a);
    }
}

#[test]
fn channel_rounds_to_nearest() {
    assert_eq!(scalar(0.0).to_channel(), 0);
    assert_eq!(scalar(1.0).to_channel(), 255);
    assert_eq!(scalar(0.5).to_channel(), 128);
    assert_eq!(scalar(0.3333333333).to_channel(), 85);
    assert_eq!(scalar(0.001).to_channel(), 0);
    assert_eq!(scalar(0.002).to_channel(), 1);
    assert_eq!(scalar(0.998).to_channel(), 254);
    assert_eq!(scalar(0.999).to_channel(), 255);
    assert_eq!(scalar(1.0e-30).to_channel(), 0);
    assert_eq!(scalar(f32::MIN_POSITIVE / 4.0).to_channel(), 0);
}

#[test]
fn channel_stays_in_range() {
    assert_eq!(scalar(2.0).to_channel(), 255);
    assert_eq!(scalar(1.0e30).to_channel(), 255);
    assert_eq!(scalar(f32::INFINITY).to_channel(), 255);
    assert_eq!(scalar(-0.0).to_channel(), 0);
    assert_eq!(scalar(-0.5).to_channel(), 0);
    assert_eq!(scalar(f32::NEG_INFINITY).to_channel(), 0);
    assert_eq!(scalar(f32::NAN).to_channel(), 0);
}

#[test]
fn channel_agrees_with_rounding() {
    let mut x = 0.0f32;
    while x <= 1.0 {
        let expected = (255.0f64 * x as f64 + 0.5).floor() as u8;
        assert_eq!(scalar(x).to_channel(), expected, "at {}", x);
        x += 0.000_37;
    }
}

#[test]
fn with_opacity_sets_alpha_only() {
    let c = Color::rgba(1, 2, 3, 4).with_opacity(scalar(1.0));
    assert_eq!(c, Color::rgba(1, 2, 3, 255));
    let c = Color::rgba(1, 2, 3, 4).with_opacity(scalar(0.0));
    assert_eq!(c, Color::rgba(1, 2, 3, 0));
}

#[test]
fn rgbaf_converts_each_channel() {
    assert_eq!(
        Color::rgbaf(scalar(1.0), scalar(0.0), scalar(0.5), scalar(0.2)),
        Color::rgba(255, 0, 128, 51)
    );
}
