use fractal_renderer::color::Color;
use fractal_renderer::frame::{pixel_offset, render};
use fractal_renderer::params::{ImageParameters, Vec3 as Triple};
use fractal_renderer::scalar::Scalar;
use fractal_renderer::shading::shade;
use fractal_renderer::tracer::{Probe, Tracer};
use glam::Vec3;

const MAX_DISTANCE: f32 = 100.0;
const RADIUS: f32 = 0.5;

fn s(x: f32) -> Scalar {
    Scalar::from_bits(x.to_bits())
}

fn f(x: Scalar) -> f32 {
    f32::from_bits(x.to_bits())
}

fn triple(v: Vec3) -> Triple {
    Triple { x: s(v.x), y: s(v.y), z: s(v.z) }
}

fn vector(t: Triple) -> Vec3 {
    Vec3::new(f(t.x), f(t.y), f(t.z))
}

fn sphere(p: Vec3) -> f32 {
    p.length() - RADIUS
}

fn normal_at(p: Vec3, epsilon: f32) -> Vec3 {
    Vec3::new(
        sphere(p + epsilon * Vec3::X) - sphere(p - epsilon * Vec3::X),
        sphere(p + epsilon * Vec3::Y) - sphere(p - epsilon * Vec3::Y),
        sphere(p + epsilon * Vec3::Z) - sphere(p - epsilon * Vec3::Z),
    )
    .normalize()
}

/// A camera that looks down the z axis: the pixel offsets the ray in x and y.
fn ray_direction(params: &ImageParameters, i: u32, j: u32) -> Vec3 {
    let width = params.image_width as f32;
    let height = params.image_height as f32;
    let aspect_ratio = width / height;
    let x = (i as f32 / width - 0.5) * aspect_ratio;
    let y = j as f32 / height - 0.5;
    vector(params.camera_direction) + x * Vec3::X + y * Vec3::Y
}

fn pixel(params: &ImageParameters, i: u32, j: u32) -> Option<Color> {
    let origin = vector(params.camera_position);
    let direction = ray_direction(params, i, j);
    let mut tracer = Tracer::new(params.trace_limits(s(MAX_DISTANCE)));
    let mut total = 0.0f32;
    let mut point = origin;
    while tracer.is_marching() {
        point = origin + total * direction;
        let distance = sphere(point);
        if tracer.observe(s(distance)) != Probe::Escaped {
            total += distance;
        }
    }
    let result = tracer.finish(s(total));
    if !result.hit {
        return None;
    }
    let light = Vec3::new(1.0, 1.0, 3.0);
    let normal = normal_at(point, f(params.min_distance) / 10.0);
    let to_light = light - point;
    let light_direction = to_light.normalize();
    let lambertian = normal.dot(light_direction);
    Some(shade(s(lambertian), || {
        let half = (light_direction - direction.normalize()).normalize();
        let specular = half.dot(normal).max(0.0).powi(40) * 2.0;
        let diffuse = lambertian * 8.0;
        let fog = -(result.step as f32) / params.max_steps as f32;
        let value = (fog + (diffuse + specular) / to_light.length_squared()) * 255.0;
        Color { r: s(value), g: s(value), b: s(value) }
    }))
}

fn scene() -> ImageParameters {
    ImageParameters {
        image_width: 4,
        image_height: 4,
        camera_position: triple(Vec3::new(0.0, 0.0, 3.0)),
        camera_direction: triple(Vec3::new(0.0, 0.0, -1.0)),
        max_steps: 100,
        min_distance: s(1.0e-4),
    }
}

fn brightness(buffer: &[u8], at: usize) -> u32 {
    buffer[at] as u32 + buffer[at + 1] as u32 + buffer[at + 2] as u32
}

#[test]
fn sphere_render_has_the_right_length_and_opaque_alpha() {
    let params = scene();
    assert!(params.is_valid());
    let buffer = render(&params, |i, j| pixel(&params, i, j));
    assert_eq!(buffer.len(), 64);
    for px in buffer.chunks(4) {
        assert_eq!(px[3], 255);
    }
}

#[test]
fn sphere_render_is_brighter_at_the_centre_than_at_the_corners() {
    let params = scene();
    let buffer = render(&params, |i, j| pixel(&params, i, j));
    let centre = brightness(&buffer, pixel_offset(&params, 2, 2));
    assert!(centre > 0);
    for (i, j) in [(0, 0), (3, 0), (0, 3), (3, 3)] {
        let corner = brightness(&buffer, pixel_offset(&params, i, j));
        assert!(centre > corner, "corner ({i}, {j}): {corner} against {centre}");
    }
}

#[test]
fn a_scene_out_of_reach_renders_as_background() {
    let mut params = scene();
    params.camera_position = triple(Vec3::new(0.0, 0.0, 500.0));
    let buffer = render(&params, |i, j| pixel(&params, i, j));
    assert_eq!(buffer.len(), 64);
    for px in buffer.chunks(4) {
        assert_eq!(px, &[0, 0, 0, 255]);
    }
}

#[test]
fn light_behind_the_surface_leaves_it_black() {
    let params = scene();
    let below = ImageParameters {
        camera_position: triple(Vec3::new(0.0, 0.0, -3.0)),
        camera_direction: triple(Vec3::new(0.0, 0.0, 1.0)),
        ..params
    };
    let buffer = render(&below, |i, j| pixel(&below, i, j));
    let at = pixel_offset(&below, 2, 2);
    assert_eq!(&buffer[at..at + 4], &[0, 0, 0, 255]);
}
