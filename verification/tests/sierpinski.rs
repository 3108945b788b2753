use fractal_renderer::scalar::Scalar;
use fractal_renderer::sierpinski::{
    attractor, nearest, ATTRACTORS, ITERATIONS, SCALE, SHRINK_BITS,
};

fn s(x: f32) -> Scalar {
    Scalar::from_bits(x.to_bits())
}

fn four(a: f32, b: f32, c: f32, d: f32) -> [Scalar; 4] {
    [s(a), s(b), s(c), s(d)]
}

#[test]
fn constants_of_the_fold() {
    assert_eq!(ITERATIONS, 10);
    assert_eq!(SCALE, 2);
    assert_eq!(ATTRACTORS, 4);
}

#[test]
fn shrink_factor_is_scale_to_the_minus_iterations() {
    assert_eq!(SHRINK_BITS, (2.0f32).powi(-10).to_bits());
    assert_eq!(f32::from_bits(SHRINK_BITS), 1.0 / 1024.0);
    assert_eq!(f32::from_bits(SHRINK_BITS) * (SCALE as f32).powi(ITERATIONS as i32), 1.0);
}

#[test]
fn attractors_are_the_tetrahedron() {
    assert_eq!(attractor(0), (1, 1, 1));
    assert_eq!(attractor(1), (-1, -1, 1));
    assert_eq!(attractor(2), (1, -1, -1));
    assert_eq!(attractor(3), (-1, 1, -1));
}

#[test]
fn attractors_have_an_even_number_of_sign_flips() {
    for k in 0..ATTRACTORS {
        let (x, y, z) = attractor(k);
        assert!(x.abs() == 1 && y.abs() == 1 && z.abs() == 1);
        let flips = [x, y, z].iter().filter(|c| **c < 0).count();
        assert_eq!(flips % 2, 0);
        for j in 0..k {
            assert_ne!(attractor(j), attractor(k));
        }
    }
}

#[test]
fn nearest_is_the_least_distance() {
    assert_eq!(nearest(&four(1.0, 2.0, 3.0, 4.0)), 0);
    assert_eq!(nearest(&four(2.0, 1.0, 3.0, 4.0)), 1);
    assert_eq!(nearest(&four(4.0, 3.0, 0.5, 1.0)), 2);
    assert_eq!(nearest(&four(4.0, 3.0, 2.0, 1.0)), 3);
    assert_eq!(nearest(&four(0.0, -1.0, -2.0, -1.5)), 2);
}

#[test]
fn nearest_takes_the_first_of_equals() {
    assert_eq!(nearest(&four(1.0, 1.0, 1.0, 1.0)), 0);
    assert_eq!(nearest(&four(2.0, 1.0, 1.0, 3.0)), 1);
    assert_eq!(nearest(&four(3.0, 2.0, 1.0, 1.0)), 2);
    assert_eq!(nearest(&four(0.0, -0.0, 0.0, -0.0)), 0);
}

#[test]
fn nearest_passes_over_a_nan() {
    assert_eq!(nearest(&four(2.0, f32::NAN, 1.0, 3.0)), 2);
    assert_eq!(nearest(&four(f32::NAN, 1.0, 2.0, 3.0)), 0);
}

#[test]
fn nearest_attractor_of_a_point() {
    let p = [0.9f32, -0.8, -0.7];
    let mut d = [s(0.0); 4];
    for k in 0..ATTRACTORS {
        let (x, y, z) = attractor(k);
        let dx = p[0] - x as f32;
        let dy = p[1] - y as f32;
        let dz = p[2] - z as f32;
        d[k] = s((dx * dx + dy * dy + dz * dz).sqrt());
    }
    assert_eq!(nearest(&d), 2);
}
