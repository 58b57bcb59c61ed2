use image::{DynamicImage, GenericImageView};
use raytracer::fixed::SCALE;
use raytracer::scene::ConfigError;
use raytracer::{
    render_scene, Color, DirectionalLight, Element, Light, Material, Plane, Point, PointLight,
    Scene, Sphere, Texture, Vector3, surface_type,
};

fn fx(v: f64) -> i64 {
    (v * SCALE as f64).round() as i64
}

fn point(x: f64, y: f64, z: f64) -> Point {
    Point { x: fx(x), y: fx(y), z: fx(z) }
}

fn vector(x: f64, y: f64, z: f64) -> Vector3 {
    Vector3 { x: fx(x), y: fx(y), z: fx(z) }
}

fn color(r: f64, g: f64, b: f64) -> Color {
    Color { red: fx(r), green: fx(g), blue: fx(b) }
}

fn diffuse(c: Color) -> Material {
    Material { color: Texture::color(c), albedo: fx(1.0), surface: surface_type::Diffuse }
}

fn demo_scene() -> Scene {
    Scene {
        width: 800,
        height: 600,
        fov: fx(90.0),
        elements: vec![
            Element::Sphere(Sphere {
                center: point(0.0, 0.0, -5.0),
                radius: fx(1.0),
                material: diffuse(color(0.2, 0.8, 0.2)),
            }),
            Element::Sphere(Sphere {
                center: point(2.0, 1.0, -5.0),
                radius: fx(0.5),
                material: diffuse(color(0.8, 0.8, 0.2)),
            }),
            Element::Sphere(Sphere {
                center: point(-2.0, 2.0, -5.0),
                radius: fx(2.0),
                material: diffuse(color(0.8, 0.2, 0.2)),
            }),
            Element::Plane(Plane {
                center: point(0.0, 5.0, -6.0),
                normal: vector(1.0, 1.0, 0.0),
                material: diffuse(color(0.2, 0.2, 0.2)),
            }),
        ],
        lights: vec![
            Light::Directional(DirectionalLight {
                direction: vector(1.0, -0.25, -0.5),
                color: color(0.8, 0.8, 0.8),
                intensity: fx(1.0),
            }),
            Light::Directional(DirectionalLight {
                direction: vector(0.0, 0.1, 0.0),
                color: color(0.1, 0.8, 0.1),
                intensity: fx(0.1),
            }),
            Light::Point(PointLight {
                pos: point(1.0, 2.0, -5.0),
                color: color(0.9, 0.2, 0.1),
                intensity: fx(10.0),
            }),
        ],
        bias: fx(0.1),
        max_rec: 10,
    }
}

#[test]
fn lib_test_can_renderScene_scene() {
    let scene = demo_scene();
    let img: DynamicImage = render_scene(&scene);
    assert_eq!(scene.width, img.width());
    assert_eq!(scene.height, img.height());
    assert_eq!(scene.lights.len(), 3);
}

#[test]
fn main_test_can_renderScene_scene() {
    let mut scene = demo_scene();
    scene.max_rec = 1;
    let img: DynamicImage = render_scene(&scene);
    assert_eq!(scene.width, img.width());
    assert_eq!(scene.height, img.height());
    assert_eq!(scene.lights.len(), 3);
}

fn green_ball_scene(max_rec: u32) -> Scene {
    Scene {
        width: 800,
        height: 600,
        fov: fx(90.0),
        elements: vec![Element::Sphere(Sphere {
            center: point(0.0, 0.0, -5.0),
            radius: fx(1.0),
            material: diffuse(color(0.2, 0.8, 0.2)),
        })],
        lights: vec![Light::Directional(DirectionalLight {
            direction: vector(0.0, -1.0, 0.0),
            color: color(1.0, 1.0, 1.0),
            intensity: fx(1.0),
        })],
        bias: fx(0.1),
        max_rec,
    }
}

fn is_black(img: &DynamicImage, x: u32, y: u32) -> bool {
    let p = img.get_pixel(x, y);
    p[0] == 0 && p[1] == 0 && p[2] == 0
}

#[test]
fn green_ball_without_depth_renders_black() {
    // A depth bound of zero stops every raycast before it traces.
    let img = render_scene(&green_ball_scene(0));
    assert_eq!((img.width(), img.height()), (800, 600));
    assert!(is_black(&img, 400, 300));
    for (x, y) in [(0, 0), (799, 0), (0, 599), (799, 599)] {
        assert!(is_black(&img, x, y));
    }
}

#[test]
fn green_ball_lit_from_above() {
    let img = render_scene(&green_ball_scene(1));
    for (x, y) in [(0, 0), (799, 0), (0, 599), (799, 599)] {
        assert!(is_black(&img, x, y));
    }
    // The upper half of the ball faces the light.
    let p = img.get_pixel(400, 250);
    assert!(p[1] > 0);
    assert!(p[1] > p[0]);
    assert_eq!(p[3], 255);
    // The center of the ball sits on the terminator, just below it.
    assert!(is_black(&img, 400, 300));
    // The lower half is dark.
    assert!(is_black(&img, 400, 340));
}

#[test]
fn mirrors_facing_each_other_terminate() {
    let mirror = |z: f64, nz: f64| {
        Element::Plane(Plane {
            center: point(0.0, 0.0, z),
            normal: vector(0.0, 0.0, nz),
            material: Material {
                color: Texture::color(color(0.5, 0.5, 0.5)),
                albedo: fx(1.0),
                surface: surface_type::Reflective { reflectivity: fx(0.9) },
            },
        })
    };
    let scene = Scene {
        width: 4,
        height: 3,
        fov: fx(90.0),
        elements: vec![mirror(-5.0, -1.0), mirror(5.0, 1.0)],
        lights: vec![Light::Point(PointLight {
            pos: point(0.0, 0.0, 0.0),
            color: color(1.0, 1.0, 1.0),
            intensity: fx(100.0),
        })],
        bias: fx(0.1),
        max_rec: 50,
    };
    let img = render_scene(&scene);
    assert_eq!((img.width(), img.height()), (4, 3));
}

#[test]
fn validate_reports_configuration_errors() {
    let mut scene = demo_scene();
    assert_eq!(scene.validate(), Ok(()));
    scene.width = 600;
    scene.height = 800;
    assert_eq!(scene.validate(), Err(ConfigError::BadDimensions));
    scene.width = 800;
    scene.height = 0;
    assert_eq!(scene.validate(), Err(ConfigError::BadDimensions));
    scene.width = u32::MAX;
    scene.height = u32::MAX - 1;
    assert_eq!(scene.validate(), Err(ConfigError::TooLarge));
    scene.width = 800;
    scene.height = 600;
    scene.elements.push(Element::Sphere(Sphere {
        center: point(0.0, 0.0, -3.0),
        radius: fx(1.0),
        material: Material {
            color: Texture::image(DynamicImage::new_rgb8(0, 0)),
            albedo: fx(1.0),
            surface: surface_type::Diffuse,
        },
    }));
    assert_eq!(scene.validate(), Err(ConfigError::EmptyTexture { element: 4 }));
}
