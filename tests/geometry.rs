use raytracer::fixed::SCALE;
use raytracer::{
    Color, Element, Intersectable, Intersection, Material, Plane, Point, Ray, Scene, Sphere,
    Texture, Texture_thing, Vector3, surface_type,
};

const S: i64 = SCALE;

fn solid() -> Material {
    Material {
        color: Texture::color(Color { red: S, green: S, blue: S }),
        albedo: S,
        surface: surface_type::Diffuse,
    }
}

fn sphere(x: i64, y: i64, z: i64, r: i64) -> Sphere {
    Sphere { center: Point { x, y, z }, radius: r, material: solid() }
}

fn ray(dx: i64, dy: i64, dz: i64) -> Ray {
    Ray { origin: Point::zero(), direction: Vector3 { x: dx, y: dy, z: dz } }
}

#[test]
fn sphere_hit_straight_on_is_distance_less_radius() {
    let s = sphere(0, 0, -5 * S, S);
    assert_eq!(s.intersect(&ray(0, 0, -S)), Some(4 * S));
    let s = sphere(0, 0, -10 * S, 3 * S);
    assert_eq!(s.intersect(&ray(0, 0, -S)), Some(7 * S));
}

#[test]
fn sphere_behind_or_beside_the_ray_is_missed() {
    let s = sphere(0, 0, 5 * S, S);
    assert_eq!(s.intersect(&ray(0, 0, -S)), None);
    let s = sphere(3 * S, 0, -5 * S, S);
    assert_eq!(s.intersect(&ray(0, 0, -S)), None);
}

#[test]
fn sphere_seen_from_inside_gives_the_smaller_root() {
    let s = sphere(0, 0, 0, 2 * S);
    assert_eq!(s.intersect(&ray(0, 0, -S)), Some(-2 * S));
}

#[test]
fn plane_in_front_is_hit() {
    let p = Plane { center: Point { x: 0, y: 0, z: -5 * S }, normal: Vector3 { x: 0, y: 0, z: -S }, material: solid() };
    assert_eq!(p.intersect(&ray(0, 0, -S)), Some(5 * S));
}

#[test]
fn plane_back_faces_are_culled() {
    let p = Plane { center: Point { x: 0, y: 0, z: -5 * S }, normal: Vector3 { x: 0, y: 0, z: -S }, material: solid() };
    assert_eq!(p.intersect(&ray(0, 0, S)), None);
    // Parallel, and facing by no more than the threshold.
    assert_eq!(p.intersect(&ray(S, 0, 0)), None);
    assert_eq!(p.intersect(&ray(S, 0, -1)), None);
    let behind = Ray { origin: Point { x: 0, y: 0, z: -9 * S }, direction: Vector3 { x: 0, y: 0, z: S } };
    assert_eq!(p.intersect(&behind), None);
}

#[test]
fn plane_behind_the_origin_is_missed() {
    let p = Plane { center: Point { x: 0, y: 0, z: 5 * S }, normal: Vector3 { x: 0, y: 0, z: -S }, material: solid() };
    assert_eq!(p.intersect(&ray(0, 0, -S)), None);
}

#[test]
fn normals_face_the_viewer() {
    let s = sphere(0, 0, -5 * S, S);
    assert_eq!(s.surface_normal(&Point { x: 0, y: 0, z: -4 * S }), Some(Vector3 { x: 0, y: 0, z: S }));
    assert_eq!(s.surface_normal(&Point { x: 0, y: 0, z: -5 * S }), None);
    let p = Plane { center: Point::zero(), normal: Vector3 { x: 0, y: -S, z: 0 }, material: solid() };
    assert_eq!(p.surface_normal(&Point::zero()), Some(Vector3 { x: 0, y: S, z: 0 }));
}

#[test]
fn sphere_texture_coordinates() {
    let s = sphere(0, 0, -5 * S, S);
    assert_eq!(s.texture_coords(&Point { x: 0, y: 0, z: -4 * S }), Texture_thing { x: 750_000, y: 500_000 });
    assert_eq!(s.texture_coords(&Point { x: S, y: 0, z: -5 * S }), Texture_thing { x: 500_000, y: 500_000 });
    assert_eq!(s.texture_coords(&Point { x: 0, y: S, z: -5 * S }), Texture_thing { x: 500_000, y: 0 });
    assert_eq!(s.texture_coords(&Point { x: 0, y: -S, z: -5 * S }), Texture_thing { x: 500_000, y: S });
    assert_eq!(s.texture_coords(&Point { x: -S, y: 0, z: -5 * S }), Texture_thing { x: S, y: 500_000 });
}

#[test]
fn plane_texture_coordinates() {
    // Normal (0, -1, 0): the axes are normal x z = (-1, 0, 0) and
    // normal x (-1, 0, 0) = (0, 0, -1).
    let p = Plane { center: Point::zero(), normal: Vector3 { x: 0, y: -S, z: 0 }, material: solid() };
    assert_eq!(p.texture_coords(&Point { x: 2 * S, y: 0, z: 3 * S }), Texture_thing { x: -2 * S, y: -3 * S });
    // Normal (0, 0, -1) falls back to normal x y = (1, 0, 0); the second
    // axis is (0, -1, 0).
    let q = Plane { center: Point::zero(), normal: Vector3 { x: 0, y: 0, z: -S }, material: solid() };
    assert_eq!(q.texture_coords(&Point { x: 2 * S, y: 3 * S, z: 0 }), Texture_thing { x: 2 * S, y: -3 * S });
}

#[test]
fn trace_picks_the_nearest_element() {
    let scene = Scene {
        width: 4,
        height: 3,
        fov: 90 * S,
        elements: vec![
            Element::Sphere(sphere(0, 0, -10 * S, S)),
            Element::Sphere(sphere(0, 0, -5 * S, S)),
            Element::Sphere(sphere(0, 0, -5 * S, S)),
        ],
        lights: vec![],
        bias: S / 10,
        max_rec: 1,
    };
    assert_eq!(scene.trace(&ray(0, 0, -S)), Some(Intersection::new(4 * S, 1)));
    assert_eq!(scene.trace(&ray(0, 0, S)), None);
    assert_eq!(scene.elements[1].material().albedo, S);
}

#[test]
fn elements_dispatch_to_their_shape() {
    let e = Element::Plane(Plane { center: Point { x: 0, y: 0, z: -5 * S }, normal: Vector3 { x: 0, y: 0, z: -S }, material: solid() });
    assert_eq!(e.intersect(&ray(0, 0, -S)), Some(5 * S));
    assert_eq!(e.surface_normal(&Point::zero()), Some(Vector3 { x: 0, y: 0, z: S }));
}

#[test]
fn prime_rays_cross_the_sensor() {
    let scene = Scene { width: 4, height: 2, fov: 90 * S, elements: vec![], lights: vec![], bias: S / 10, max_rec: 1 };
    // Pixel (1, 0): sensor (-0.5, 0.5, -1), length 1.224744.
    let r = Ray::create_prime(1, 0, &scene);
    assert_eq!(r.origin, Point::zero());
    assert_eq!(r.direction, Vector3 { x: -408_248, y: 408_248, z: -816_497 });
}

#[test]
fn reflection_mirrors_about_the_normal() {
    let r = Ray::create_reflection(
        Vector3 { x: 0, y: S, z: 0 },
        Vector3 { x: 600_000, y: -800_000, z: 0 },
        Point { x: S, y: 0, z: 0 },
        S / 10,
    );
    assert_eq!(r.origin, Point { x: S, y: S / 10, z: 0 });
    assert_eq!(r.direction, Vector3 { x: 600_000, y: 800_000, z: 0 });
}
