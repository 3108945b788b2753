use fractal_renderer::color::Color;
use fractal_renderer::scalar::Scalar;
use fractal_renderer::shading::{is_unlit, shade, specular_angle};

fn s(x: f32) -> Scalar {
    Scalar::from_bits(x.to_bits())
}

fn bits(c: Color) -> [u32; 3] {
    [c.r.to_bits(), c.g.to_bits(), c.b.to_bits()]
}

fn white() -> Color {
    Color { r: s(255.0), g: s(255.0), b: s(255.0) }
}

#[test]
fn surface_facing_away_is_unlit() {
    assert!(is_unlit(s(-1.0)));
    assert!(is_unlit(s(-1.0e-30)));
    assert!(is_unlit(s(0.0)));
    assert!(is_unlit(s(-0.0)));
    assert!(is_unlit(s(f32::NEG_INFINITY)));
    assert!(!is_unlit(s(1.0e-30)));
    assert!(!is_unlit(s(0.5)));
    assert!(!is_unlit(s(1.0)));
    assert!(!is_unlit(s(f32::NAN)));
}

#[test]
fn shade_is_black_when_the_light_is_behind() {
    for lambertian in [-1.0f32, -0.5, -1.0e-20, -0.0, 0.0, f32::NEG_INFINITY] {
        let c = shade(s(lambertian), white);
        assert_eq!(bits(c), [0, 0, 0], "{lambertian}");
        assert_eq!(c.to_rgba(), [0, 0, 0, 255]);
    }
}

#[test]
fn shade_does_not_light_an_unlit_surface() {
    let called = std::cell::Cell::new(false);
    let c = shade(s(-0.25), || {
        called.set(true);
        white()
    });
    assert!(!called.get());
    assert_eq!(bits(c), bits(Color::black()));
}

#[test]
fn shade_is_the_lit_colour_when_the_light_is_in_front() {
    for lambertian in [1.0e-20f32, 0.25, 1.0, f32::NAN] {
        let c = shade(s(lambertian), || Color { r: s(12.0), g: s(34.5), b: s(-1.0) });
        assert_eq!(bits(c), [12.0f32.to_bits(), 34.5f32.to_bits(), (-1.0f32).to_bits()]);
    }
}

#[test]
fn black_is_positive_zero() {
    assert_eq!(bits(Color::black()), [0.0f32.to_bits(); 3]);
}

#[test]
fn specular_angle_is_clamped_at_zero() {
    for x in [1.0f32, 0.5, 1.0e-30, 0.0, -0.0, -0.5, -1.0, f32::NAN, f32::INFINITY] {
        let ours = f32::from_bits(specular_angle(s(x)).to_bits());
        assert_eq!(ours, x.max(0.0), "{x}");
        assert_eq!(ours, 0.0f32.max(x), "{x}");
    }
    assert_eq!(specular_angle(s(0.75)).to_bits(), 0.75f32.to_bits());
    assert_eq!(specular_angle(s(-0.75)).to_bits(), 0);
}
