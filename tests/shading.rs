use image::{DynamicImage, RgbImage};
use raytracer::color::Rgba;
use raytracer::fixed::SCALE;
use raytracer::{
    raycast, wrap, Color, DirectionalLight, Element, Light, Material, Point, PointLight, Ray,
    Scene, Sphere, Texture, Texture_thing, Vector3, surface_type,
};

const S: i64 = SCALE;

fn ball(z: i64, texture: Texture, surface: surface_type) -> Element {
    Element::Sphere(Sphere {
        center: Point { x: 0, y: 0, z },
        radius: S,
        material: Material { color: texture, albedo: S, surface },
    })
}

fn green() -> Texture {
    Texture::color(Color { red: 200_000, green: 800_000, blue: 200_000 })
}

fn light_toward_camera() -> Light {
    Light::Directional(DirectionalLight {
        direction: Vector3 { x: 0, y: 0, z: -S },
        color: Color { red: S, green: S, blue: S },
        intensity: S,
    })
}

fn forward() -> Ray {
    Ray { origin: Point::zero(), direction: Vector3 { x: 0, y: 0, z: -S } }
}

fn scene(elements: Vec<Element>, lights: Vec<Light>, max_rec: u32) -> Scene {
    Scene { width: 4, height: 3, fov: 90 * S, elements, lights, bias: S / 10, max_rec }
}

#[test]
fn unoccluded_light_gives_full_lambert_term() {
    // cos = 1, intensity 1, albedo / pi = 0.318309: the texture times that.
    let s = scene(vec![ball(-5 * S, green(), surface_type::Diffuse)], vec![light_toward_camera()], 1);
    assert_eq!(raycast(&s, &forward(), 0), Color { red: 63_661, green: 254_647, blue: 63_661 });
}

#[test]
fn occluded_light_gives_nothing() {
    // The light travels toward -z; a ball behind the camera blocks it.
    let s = scene(
        vec![ball(-5 * S, green(), surface_type::Diffuse), ball(3 * S, green(), surface_type::Diffuse)],
        vec![light_toward_camera()],
        1,
    );
    assert_eq!(raycast(&s, &forward(), 0), Color { red: 0, green: 0, blue: 0 });
}

#[test]
fn miss_and_exhausted_depth_are_black() {
    let s = scene(vec![ball(-5 * S, green(), surface_type::Diffuse)], vec![light_toward_camera()], 1);
    let up = Ray { origin: Point::zero(), direction: Vector3 { x: 0, y: S, z: 0 } };
    assert_eq!(raycast(&s, &up, 0), Color { red: 0, green: 0, blue: 0 });
    assert_eq!(raycast(&s, &forward(), 1), Color { red: 0, green: 0, blue: 0 });
}

fn mirror_scene(max_rec: u32) -> Scene {
    // A mirror ball in front; the reflected ray goes back toward +z, where a
    // green ball sits behind the camera, lit by a point light between them.
    let elements = vec![
        ball(-5 * S, green(), surface_type::Reflective { reflectivity: S }),
        ball(5 * S, green(), surface_type::Diffuse),
    ];
    let light = Light::Point(PointLight {
        pos: Point { x: 0, y: 0, z: 2 * S },
        color: Color { red: S, green: S, blue: S },
        intensity: 100 * S,
    });
    scene(elements, vec![light], max_rec)
}

#[test]
fn perfect_mirror_shows_what_it_reflects() {
    // One level: the mirror shows nothing of itself, and may not recurse.
    assert_eq!(raycast(&mirror_scene(1), &forward(), 0), Color { red: 0, green: 0, blue: 0 });
    // Two levels: the green ball appears in the mirror.
    let seen = raycast(&mirror_scene(2), &forward(), 0);
    let behind = Ray { origin: Point::zero(), direction: Vector3 { x: 0, y: 0, z: S } };
    let direct = raycast(&mirror_scene(1), &behind, 0);
    // Both rays meet the green ball at the same point: a perfect mirror
    // shows exactly what a direct view does.
    assert!(direct.green > direct.red);
    assert_eq!(seen, direct);
}

#[test]
fn point_light_falls_off_with_squared_distance() {
    let l = Light::Point(PointLight { pos: Point { x: S, y: 0, z: 0 }, color: Color { red: S, green: 0, blue: 0 }, intensity: 10 * S });
    let at = Point::zero();
    assert_eq!(l.intensity(&at), 795_774);
    assert_eq!(l.direction(&at), Some(Vector3 { x: S, y: 0, z: 0 }));
    assert_eq!(l.distance(&at), Some(S));
    assert_eq!(*l.color(), Color { red: S, green: 0, blue: 0 });
    let far = Point { x: -S, y: 0, z: 0 };
    assert_eq!(l.intensity(&far), 198_943);
    assert_eq!(l.intensity(&Point { x: S, y: 0, z: 0 }), 0);
    assert_eq!(l.direction(&Point { x: S, y: 0, z: 0 }), None);
}

#[test]
fn directional_light_is_infinitely_far() {
    let l = light_toward_camera();
    assert_eq!(l.intensity(&Point::zero()), S);
    assert_eq!(l.direction(&Point::zero()), Some(Vector3 { x: 0, y: 0, z: S }));
    assert_eq!(l.distance(&Point::zero()), None);
}

#[test]
fn wrap_tiles_coordinates() {
    assert_eq!(wrap(1_500_000, 100), 50);
    assert_eq!(wrap(500_000, 100), 50);
    assert_eq!(wrap(-250_000, 100), 75);
    assert_eq!(wrap(-1_000_000, 100), 0);
    assert_eq!(wrap(0, 7), 0);
    assert_eq!(wrap(999_999, 4), 3);
}

fn checkerboard() -> DynamicImage {
    // 2 x 2: red, green / blue, white.
    let bytes = vec![255, 0, 0, 0, 255, 0, 0, 0, 255, 255, 255, 255];
    DynamicImage::ImageRgb8(RgbImage::from_raw(2, 2, bytes).unwrap())
}

#[test]
fn image_texture_samples_wrapped_texels() {
    let t = Texture::image(checkerboard());
    let red = Color { red: S, green: 0, blue: 0 };
    let blue = Color { red: 0, green: 0, blue: S };
    let white = Color { red: S, green: S, blue: S };
    assert_eq!(t.get_color(&Texture_thing { x: 0, y: 0 }), red);
    assert_eq!(t.get_color(&Texture_thing { x: 0, y: 600_000 }), blue);
    assert_eq!(t.get_color(&Texture_thing { x: 1_600_000, y: 1_700_000 }), white);
    // -0.75 * 2 truncates to -1, which wraps to column 1.
    assert_eq!(t.get_color(&Texture_thing { x: -750_000, y: 0 }), Color { red: 0, green: S, blue: 0 });
    // -0.25 * 2 truncates to 0.
    assert_eq!(t.get_color(&Texture_thing { x: -250_000, y: 0 }), red);
}

#[test]
fn solid_texture_ignores_coordinates() {
    let t = green();
    assert_eq!(t.get_color(&Texture_thing { x: 123, y: -456 }), Color { red: 200_000, green: 800_000, blue: 200_000 });
}

#[test]
fn textured_ball_is_shaded_with_its_texel() {
    let s = scene(vec![ball(-5 * S, Texture::image(checkerboard()), surface_type::Diffuse)], vec![light_toward_camera()], 1);
    // Hit (0, 0, -4): coordinates (0.75, 0.5), texel (1, 1), white.
    assert_eq!(raycast(&s, &forward(), 0), Color { red: 318_309, green: 318_309, blue: 318_309 });
}

#[test]
fn display_bytes_are_gamma_encoded() {
    let full = Color { red: S, green: 0, blue: S / 2 };
    let p: Rgba = full.to_rgba();
    assert_eq!(p, (255, 0, 161, 255));
    let over = Color { red: 2 * S, green: -S, blue: 0 };
    assert_eq!(over.to_rgba(), (255, 0, 0, 255));
}

#[test]
fn display_bytes_decode_linearly() {
    assert_eq!(Color::from_rgba((255, 0, 128, 7)), Color { red: S, green: 0, blue: 501_960 });
}

#[test]
fn display_round_trip_at_the_ends() {
    for b in [0u8, 251, 252, 253, 254, 255] {
        let back = Color::from_rgba((b, b, b, 255)).to_rgba();
        assert!((back.0 as i32 - b as i32).abs() <= 1);
    }
    // Without an inverse gamma on decoding, mid-tones come back brighter.
    assert_eq!(Color::from_rgba((128, 128, 128, 255)).to_rgba().0, 161);
}

#[test]
fn color_arithmetic() {
    let a = Color { red: 500_000, green: 250_000, blue: S };
    let b = Color { red: 500_000, green: S, blue: 0 };
    assert_eq!(a.add(&b), Color { red: S, green: 1_250_000, blue: S });
    assert_eq!(a.mul(&b), Color { red: 250_000, green: 250_000, blue: 0 });
    assert_eq!(a.scale(2 * S), Color { red: S, green: 500_000, blue: 2 * S });
    assert_eq!(a.add(&b).clamp(), Color { red: S, green: S, blue: S });
    assert_eq!(Color { red: -5, green: 3, blue: 2 * S }.clamp(), Color { red: 0, green: 3, blue: S });
}

#[test]
fn vector_algebra() {
    let v = Vector3 { x: 3 * S, y: 4 * S, z: 0 };
    assert_eq!(v.length(), 5 * S);
    assert_eq!(v.norm(), 25 * S);
    assert_eq!(v.normalize(), Some(Vector3 { x: 600_000, y: 800_000, z: 0 }));
    let unit = Vector3 { x: 0, y: S, z: 0 };
    assert_eq!(unit.normalize(), Some(unit));
    assert_eq!(Vector3::zero().normalize(), None);
    let x = Vector3 { x: S, y: 0, z: 0 };
    assert_eq!(x.cross(&unit), Vector3 { x: 0, y: 0, z: S });
    assert_eq!(x.dot(&unit), 0);
    assert_eq!(v.neg(), Vector3 { x: -3 * S, y: -4 * S, z: 0 });
    assert_eq!(v.sub(&x), Vector3 { x: 2 * S, y: 4 * S, z: 0 });
    assert_eq!(v.add(&x), Vector3 { x: 4 * S, y: 4 * S, z: 0 });
    assert_eq!(v.scale(S / 2), Vector3 { x: 1_500_000, y: 2 * S, z: 0 });
    let p = Point { x: S, y: S, z: S };
    assert_eq!(p.offset(&x), Point { x: 2 * S, y: S, z: S });
    assert_eq!(p.sub(&Point::zero()), Vector3 { x: S, y: S, z: S });
}

#[test]
fn normalized_vectors_have_unit_length() {
    for v in [
        Vector3 { x: S, y: 2 * S, z: 3 * S },
        Vector3 { x: -7, y: 3, z: 1 },
        Vector3 { x: 123_456_789, y: -987_654, z: 42 },
    ] {
        let n = v.normalize().unwrap();
        let l = n.length();
        // Never short by more than four millionths; long by less than one
        // part in the length of `v`, which matters only for tiny vectors.
        assert!(S - 4 <= l, "length {}", l);
        assert!((l - S) * v.length() < S, "length {}", l);
    }
    // (-7, 3, 1) millionths: length 7 after rounding, so the unit vector
    // comes out nearly a tenth too long.
    assert_eq!(Vector3 { x: -7, y: 3, z: 1 }.normalize().unwrap().length(), 1_097_306);
}

#[test]
fn empty_scene_is_black() {
    let s = scene(vec![], vec![light_toward_camera()], 3);
    assert_eq!(raycast(&s, &forward(), 0), Color { red: 0, green: 0, blue: 0 });
}
