//! Shading, the recursive raycast, the camera, and the frame driver.
use vstd::prelude::*;
use image::DynamicImage;
use crate::color::{
    Color, Rgba, black, in_unit_range, color_add_spec, color_clamp_spec, color_mul_spec, color_scale_spec,
    to_rgba_spec,
};
use crate::fixed::{
    add_fixed, div_fixed, div_toward_zero, mul_fixed, saturate, sub_fixed, add_spec, div_spec,
    div_trunc, fit, mul_spec, sub_spec, SCALE,
};
use crate::geometry::{
    Intersectable, Intersection, Material, Ray, element_material, surface_type,
};
use crate::light::{
    Light, light_color_spec, light_direction_spec, light_distance_spec, light_intensity_spec,
};
use crate::scene::{Scene, nearest};
use crate::texture::{Texture_thing, image_height, image_texels, image_width, rgb_image, sample_spec};
use crate::vector::{
    Point, Vector3, dot_spec, length_spec, normalize_spec, point_offset_spec, scale_spec,
    square_sum, sqrt_floor, vec3, vsub_spec,
};

verus! {

/// Raw value of pi.
pub const PI: i64 = 3_141_593;

pub open spec fn hit_point_spec(ray: Ray, distance: int) -> Point {
    point_offset_spec(ray.origin, scale_spec(ray.direction, distance))
}

/// A ray leaving `hit` toward `dir`, its origin moved off the surface by
/// `bias` along the normal.
pub open spec fn shadow_ray_spec(hit: Point, normal: Vector3, bias: int, dir: Vector3) -> Ray {
    Ray { origin: point_offset_spec(hit, scale_spec(normal, bias)), direction: dir }
}

/// The light reaches the point: nothing is hit along the shadow ray, or
/// the first thing hit lies beyond the light.
pub open spec fn lit_by(scene: Scene, light: Light, hit: Point, shadow: Ray) -> bool {
    match nearest(scene.elements@, shadow) {
        None => true,
        Some(b) => match light_distance_spec(light, hit) {
            None => false,
            Some(d) => b.distance > d,
        },
    }
}

/// Lambertian light from one source: light color times
/// `max(0, normal.dir) * intensity` times `albedo / pi`, tinted by the
/// texture; a source in shadow, or at the point itself, gives nothing.
pub open spec fn light_contribution(
    scene: Scene,
    m: Material,
    hit: Point,
    normal: Vector3,
    coords: Texture_thing,
    light: Light,
) -> Color {
    match light_direction_spec(light, hit) {
        None => black(),
        Some(dir) => {
            let shadow = shadow_ray_spec(hit, normal, scene.bias as int, dir);
            let intensity = if lit_by(scene, light, hit, shadow) {
                light_intensity_spec(light, hit)
            } else {
                0
            };
            let cos = dot_spec(normal, dir);
            let power = mul_spec(if cos > 0 { cos } else { 0 }, intensity);
            let reflected = div_spec(m.albedo as int, PI as int);
            let c = color_scale_spec(color_scale_spec(light_color_spec(light), power), reflected);
            color_mul_spec(sample_spec(m.color, coords), c)
        },
    }
}

/// Sum of the contributions of the first `n` lights, in list order.
pub open spec fn diffuse_upto(
    scene: Scene,
    m: Material,
    hit: Point,
    normal: Vector3,
    coords: Texture_thing,
    n: nat,
) -> Color
    decreases n,
{
    if n == 0 {
        black()
    } else {
        color_add_spec(
            diffuse_upto(scene, m, hit, normal, coords, (n - 1) as nat),
            light_contribution(scene, m, hit, normal, coords, scene.lights@[n - 1]),
        )
    }
}

/// Direct lighting at a point, clamped to `[0, 1]` per channel.
pub open spec fn diffuse_spec(
    scene: Scene,
    m: Material,
    hit: Point,
    normal: Vector3,
    coords: Texture_thing,
) -> Color {
    color_clamp_spec(diffuse_upto(scene, m, hit, normal, coords, scene.lights@.len()))
}

/// Mirror ray: `d - 2 (d.n) n` from the hit point moved off by the bias.
pub open spec fn reflection_spec(normal: Vector3, collision: Vector3, col_point: Point, bias: int) -> Ray {
    let k = dot_spec(collision, normal);
    Ray {
        origin: point_offset_spec(col_point, scale_spec(normal, bias)),
        direction: vsub_spec(collision, scale_spec(normal, add_spec(k, k))),
    }
}

/// Color seen along a ray at a recursion depth: black once the depth
/// reaches the bound or when nothing is hit.
pub open spec fn raycast_spec(scene: Scene, ray: Ray, depth: int) -> Color
    decreases scene.max_rec - depth, 1int,
{
    if depth >= scene.max_rec {
        black()
    } else {
        match nearest(scene.elements@, ray) {
            None => black(),
            Some(it) => shade_spec(scene, ray, it, depth),
        }
    }
}

/// Color of a hit: direct lighting, blended for a reflective surface with
/// the color seen along the mirror ray one level deeper. A hit where the
/// normal is undefined is black.
pub open spec fn shade_spec(scene: Scene, ray: Ray, it: Intersection, depth: int) -> Color
    decreases scene.max_rec - depth, 0int,
{
    let e = scene.elements@[it.element as int];
    let hit = hit_point_spec(ray, it.distance as int);
    match e.normal_spec(hit) {
        None => black(),
        Some(n) => {
            let m = element_material(e);
            let local = diffuse_spec(scene, m, hit, n, e.coords_spec(hit));
            match m.surface {
                surface_type::Diffuse => local,
                surface_type::Reflective { reflectivity } => {
                    if depth < scene.max_rec {
                        let mirror = reflection_spec(n, ray.direction, hit, scene.bias as int);
                        color_add_spec(
                            color_scale_spec(local, sub_spec(SCALE as int, reflectivity as int)),
                            color_scale_spec(
                                raycast_spec(scene, mirror, depth + 1),
                                reflectivity as int,
                            ),
                        )
                    } else {
                        local
                    }
                },
            }
        },
    }
}

/// Number of nested raycasts that do work (trace a ray) when the color
/// along `ray` is computed at `depth`.
pub open spec fn nested_casts(scene: Scene, ray: Ray, depth: int) -> int
    decreases scene.max_rec - depth,
{
    if depth >= scene.max_rec {
        0
    } else {
        match nearest(scene.elements@, ray) {
            None => 1,
            Some(it) => {
                let e = scene.elements@[it.element as int];
                let hit = hit_point_spec(ray, it.distance as int);
                match (e.normal_spec(hit), element_material(e).surface) {
                    (Some(n), surface_type::Reflective { .. }) => 1 + nested_casts(
                        scene,
                        reflection_spec(n, ray.direction, hit, scene.bias as int),
                        depth + 1,
                    ),
                    _ => 1,
                }
            },
        }
    }
}

/// However the mirrors are arranged, a raycast started at `depth` nests at
/// most `max_rec - depth` raycasts that trace a ray.
pub proof fn lemma_recursion_bounded(scene: Scene, ray: Ray, depth: int)
    requires
        0 <= depth <= scene.max_rec,
    ensures
        0 <= nested_casts(scene, ray, depth) <= scene.max_rec - depth,
    decreases scene.max_rec - depth,
{
    if depth < scene.max_rec {
        match nearest(scene.elements@, ray) {
            None => {},
            Some(it) => {
                let e = scene.elements@[it.element as int];
                let hit = hit_point_spec(ray, it.distance as int);
                match (e.normal_spec(hit), element_material(e).surface) {
                    (Some(n), surface_type::Reflective { .. }) => {
                        lemma_recursion_bounded(
                            scene,
                            reflection_spec(n, ray.direction, hit, scene.bias as int),
                            depth + 1,
                        );
                    },
                    _ => {},
                }
            },
        }
    }
}

/// Every reflectivity of the scene lies in `[0, SCALE]`.
pub open spec fn reflectivities_in_range(scene: Scene) -> bool {
    forall|i: int|
        0 <= i < scene.elements@.len() ==> match (#[trigger] element_material(
            scene.elements@[i],
        )).surface {
            surface_type::Reflective { reflectivity } => 0 <= reflectivity <= SCALE,
            surface_type::Diffuse => true,
        }
}

proof fn lemma_blend_channel(a: int, m: int, r: int)
    requires
        0 <= a <= SCALE,
        0 <= m <= SCALE,
        0 <= r <= SCALE,
    ensures
        0 <= add_spec(mul_spec(a, sub_spec(SCALE as int, r)), mul_spec(m, r)) <= SCALE,
{
    let p = a * (SCALE - r);
    let q = m * r;
    assert(0 <= p <= SCALE * (SCALE - r)) by (nonlinear_arith)
        requires
            0 <= a <= SCALE,
            0 <= r <= SCALE,
            p == a * (SCALE - r),
    ;
    assert(0 <= q <= SCALE * r) by (nonlinear_arith)
        requires
            0 <= m <= SCALE,
            0 <= r <= SCALE,
            q == m * r,
    ;
    vstd::arithmetic::div_mod::lemma_div_is_ordered(p, SCALE * (SCALE - r), SCALE as int);
    vstd::arithmetic::div_mod::lemma_div_is_ordered(q, SCALE * r, SCALE as int);
    vstd::arithmetic::div_mod::lemma_div_pos_is_pos(p, SCALE as int);
    vstd::arithmetic::div_mod::lemma_div_pos_is_pos(q, SCALE as int);
    vstd::arithmetic::div_mod::lemma_div_multiples_vanish(SCALE - r, SCALE as int);
    vstd::arithmetic::div_mod::lemma_div_multiples_vanish(r, SCALE as int);
}

/// With reflectivities in `[0, SCALE]`, every color a raycast returns lies
/// in `[0, 1]` per channel: it is finite and displayable as it stands.
pub proof fn lemma_raycast_in_unit_range(scene: Scene, ray: Ray, depth: int)
    requires
        reflectivities_in_range(scene),
        scene.elements@.len() <= usize::MAX,
    ensures
        in_unit_range(raycast_spec(scene, ray, depth)),
    decreases scene.max_rec - depth,
{
    if depth < scene.max_rec {
        match nearest(scene.elements@, ray) {
            None => {},
            Some(it) => {
                crate::scene::lemma_nearest_is_minimum(scene.elements@, ray, scene.elements@.len());
                let e = scene.elements@[it.element as int];
                let hit = hit_point_spec(ray, it.distance as int);
                match e.normal_spec(hit) {
                    None => {},
                    Some(n) => {
                        let m = element_material(e);
                        assert(m == element_material(scene.elements@[it.element as int]));
                        match m.surface {
                            surface_type::Diffuse => {},
                            surface_type::Reflective { reflectivity } => {
                                let local = diffuse_spec(scene, m, hit, n, e.coords_spec(hit));
                                let mirror = reflection_spec(n, ray.direction, hit, scene.bias as int);
                                lemma_raycast_in_unit_range(scene, mirror, depth + 1);
                                let far = raycast_spec(scene, mirror, depth + 1);
                                let r = reflectivity as int;
                                lemma_blend_channel(local.red as int, far.red as int, r);
                                lemma_blend_channel(local.green as int, far.green as int, r);
                                lemma_blend_channel(local.blue as int, far.blue as int, r);
                            },
                        }
                    },
                }
            },
        }
    }
}

/// A light whose shadow ray hits nothing reaches the point with its full
/// intensity, weighted only by the cosine term.
pub proof fn lemma_unoccluded_light(
    scene: Scene,
    m: Material,
    hit: Point,
    normal: Vector3,
    coords: Texture_thing,
    light: Light,
    dir: Vector3,
)
    requires
        light_direction_spec(light, hit) == Some(dir),
        nearest(scene.elements@, shadow_ray_spec(hit, normal, scene.bias as int, dir)) is None,
    ensures
        light_contribution(scene, m, hit, normal, coords, light) == color_mul_spec(
            sample_spec(m.color, coords),
            color_scale_spec(
                color_scale_spec(
                    light_color_spec(light),
                    mul_spec(
                        if dot_spec(normal, dir) > 0 { dot_spec(normal, dir) } else { 0 },
                        light_intensity_spec(light, hit),
                    ),
                ),
                div_spec(m.albedo as int, PI as int),
            ),
        ),
{
}

/// Sensor direction of pixel `(x, y)` before normalization: the sensor
/// spans `[-1, 1]` vertically and `width / height` times that horizontally,
/// one unit in front of the camera.
pub open spec fn sensor_spec(x: int, y: int, w: int, h: int) -> Vector3 {
    vec3(
        fit(div_trunc((2 * x + 1 - w) * SCALE, h)),
        fit(div_trunc((h - 2 * y - 1) * SCALE, h)),
        -SCALE,
    )
}

/// Primary ray through the center of pixel `(x, y)`, from the origin.
pub open spec fn prime_ray_spec(x: int, y: int, w: int, h: int) -> Ray {
    Ray {
        origin: Point { x: 0, y: 0, z: 0 },
        direction: match normalize_spec(sensor_spec(x, y, w, h)) {
            Some(d) => d,
            None => vec3(0, 0, 0),
        },
    }
}

#[verifier::opaque]
pub open spec fn pixel_spec(scene: Scene, x: int, y: int) -> Rgba {
    to_rgba_spec(
        raycast_spec(scene, prime_ray_spec(x, y, scene.width as int, scene.height as int), 0),
    )
}

/// RGB bytes of the first `n` pixels of the frame, row by row.
pub open spec fn frame_bytes(scene: Scene, n: nat) -> Seq<u8>
    decreases n,
{
    if n == 0 {
        seq![]
    } else {
        let j = n - 1;
        let p = pixel_spec(scene, j % (scene.width as int), j / (scene.width as int));
        frame_bytes(scene, (n - 1) as nat).push(p.0).push(p.1).push(p.2)
    }
}

proof fn lemma_frame_bytes(scene: Scene, n: nat)
    ensures
        frame_bytes(scene, n).len() == 3 * n,
        forall|j: int|
            0 <= j < n ==> {
                let p = pixel_spec(scene, j % (scene.width as int), j / (scene.width as int));
                &&& #[trigger] frame_bytes(scene, n)[3 * j] == p.0
                &&& frame_bytes(scene, n)[3 * j + 1] == p.1
                &&& frame_bytes(scene, n)[3 * j + 2] == p.2
            },
    decreases n,
{
    if n > 0 {
        let m = (n - 1) as nat;
        lemma_frame_bytes(scene, m);
        let prev = frame_bytes(scene, m);
        let cur = frame_bytes(scene, n);
        assert(cur.len() == 3 * n);
        assert forall|j: int| 0 <= j < n implies {
            let p = pixel_spec(scene, j % (scene.width as int), j / (scene.width as int));
            &&& #[trigger] cur[3 * j] == p.0
            &&& cur[3 * j + 1] == p.1
            &&& cur[3 * j + 2] == p.2
        } by {
            if j < m {
                assert(cur[3 * j] == prev[3 * j]);
                assert(cur[3 * j + 1] == prev[3 * j + 1]);
                assert(cur[3 * j + 2] == prev[3 * j + 2]);
            }
        }
    }
}

impl Ray {
    /// The primary ray through the center of pixel `(x, y)`.
    pub fn create_prime(x: u32, y: u32, scene: &Scene) -> (r: Ray)
        requires
            scene.width > scene.height > 0,
        ensures
            r == prime_ray_spec(x as int, y as int, scene.width as int, scene.height as int),
            normalize_spec(sensor_spec(x as int, y as int, scene.width as int, scene.height as int)) is Some,
    {
        let w = scene.width as i128;
        let h = scene.height as i128;
        assert(-0x1_0000_0000_0000_0000 <= (2 * x + 1 - w) * SCALE <= 0x1_0000_0000_0000_0000)
            by (nonlinear_arith)
            requires
                0 <= x <= 0xffff_ffff,
                0 <= w <= 0xffff_ffff,
        ;
        assert(-0x1_0000_0000_0000_0000 <= (h - 2 * y - 1) * SCALE <= 0x1_0000_0000_0000_0000)
            by (nonlinear_arith)
            requires
                0 <= y <= 0xffff_ffff,
                0 <= h <= 0xffff_ffff,
        ;
        let sx = saturate(div_toward_zero((2 * (x as i128) + 1 - w) * (SCALE as i128), h));
        let sy = saturate(div_toward_zero((h - 2 * (y as i128) - 1) * (SCALE as i128), h));
        let sensor = Vector3 { x: sx, y: sy, z: -SCALE };
        proof {
            lemma_length_positive(sensor);
        }
        match sensor.normalize() {
            Some(d) => Ray { origin: Point::zero(), direction: d },
            None => Ray { origin: Point::zero(), direction: Vector3::zero() },
        }
    }

    /// The mirror image of `collision` about `normal`, leaving from
    /// `col_point` moved off the surface by `bias`.
    pub fn create_reflection(normal: Vector3, collision: Vector3, col_point: Point, bias: i64) -> (r: Ray)
        ensures
            r == reflection_spec(normal, collision, col_point, bias as int),
    {
        let k = collision.dot(&normal);
        Ray {
            origin: col_point.offset(&normal.scale(bias)),
            direction: collision.sub(&normal.scale(add_fixed(k, k))),
        }
    }
}

proof fn lemma_length_positive(v: Vector3)
    requires
        v.z == -SCALE,
    ensures
        length_spec(v) > 0,
{
    let n = square_sum(v);
    let r = sqrt_floor(n);
    let a = fit(v.x as int);
    let b = fit(v.y as int);
    let c = fit(v.z as int);
    assert(c == -SCALE);
    assert(n >= SCALE * SCALE) by (nonlinear_arith)
        requires
            n == a * a + b * b + c * c,
            c == -SCALE,
    ;
    crate::vector::lemma_sqrt_floor_is_isqrt(n);
    if r < SCALE {
        crate::vector::lemma_square_monotone(r + 1, SCALE as int);
    }
}

/// Direct lighting at `hit_point` on the intersected element.
pub fn diffuse_shading(
    scene: &Scene,
    ray: &Ray,
    intersection: &Intersection,
    hit_point: Point,
    surface_normal: Vector3,
) -> (r: Color)
    requires
        scene.wf(),
        intersection.element < scene.elements@.len(),
    ensures
        r == diffuse_spec(
            *scene,
            element_material(scene.elements@[intersection.element as int]),
            hit_point,
            surface_normal,
            scene.elements@[intersection.element as int].coords_spec(hit_point),
        ),
{
    let element = &scene.elements[intersection.element];
    let texture_coords = element.texture_coords(&hit_point);
    let material = element.material();
    let mut combined_color = Color::black();
    let mut i: usize = 0;
    proof {
        assert(scene.elements@[intersection.element as int].wf());
    }
    while i < scene.lights.len()
        invariant
            scene.wf(),
            intersection.element < scene.elements@.len(),
            *element == scene.elements@[intersection.element as int],
            *material == element_material(*element),
            texture_coords == element.coords_spec(hit_point),
            material.color.wf(),
            i <= scene.lights@.len(),
            combined_color == diffuse_upto(
                *scene,
                *material,
                hit_point,
                surface_normal,
                texture_coords,
                i as nat,
            ),
        decreases scene.lights@.len() - i,
    {
        let light = &scene.lights[i];
        let contribution = match light.direction(&hit_point) {
            None => Color::black(),
            Some(direction_light) => {
                let shadow_ray = Ray {
                    origin: hit_point.offset(&surface_normal.scale(scene.bias)),
                    direction: direction_light,
                };
                let shadow_intersection = scene.trace(&shadow_ray);
                let is_not_shadow = match shadow_intersection {
                    None => true,
                    Some(b) => match light.distance(&hit_point) {
                        None => false,
                        Some(d) => b.distance > d,
                    },
                };
                let new_light_intensity = if is_not_shadow {
                    light.intensity(&hit_point)
                } else {
                    0
                };
                let cos = surface_normal.dot(&direction_light);
                let light_power = mul_fixed(if cos > 0 { cos } else { 0 }, new_light_intensity);
                let reflected_light = div_fixed(material.albedo, PI);
                let color = light.color().scale(light_power).scale(reflected_light);
                material.color.get_color(&texture_coords).mul(&color)
            },
        };
        combined_color = combined_color.add(&contribution);
        i = i + 1;
    }
    combined_color.clamp()
}

/// Color of a hit at the given depth.
pub fn get_color(scene: &Scene, ray: &Ray, intersection: &Intersection, depth: u32) -> (r: Color)
    requires
        scene.wf(),
        intersection.element < scene.elements@.len(),
        depth < scene.max_rec,
    ensures
        r == shade_spec(*scene, *ray, *intersection, depth as int),
    decreases scene.max_rec - depth, 0int,
{
    let element = &scene.elements[intersection.element];
    let hit_point = ray.origin.offset(&ray.direction.scale(intersection.distance));
    match element.surface_normal(&hit_point) {
        None => Color::black(),
        Some(surface_normal) => {
            let mut combined_color = diffuse_shading(
                scene,
                ray,
                intersection,
                hit_point,
                surface_normal,
            );
            if let surface_type::Reflective { reflectivity } = element.material().surface {
                let reflection = Ray::create_reflection(
                    surface_normal,
                    ray.direction,
                    hit_point,
                    scene.bias,
                );
                combined_color = combined_color.scale(sub_fixed(SCALE, reflectivity));
                let mirrored = raycast(scene, &reflection, depth + 1);
                combined_color = combined_color.add(&mirrored.scale(reflectivity));
            }
            combined_color
        },
    }
}

/// Color seen along `ray` at recursion depth `depth`.
pub fn raycast(scene: &Scene, ray: &Ray, depth: u32) -> (r: Color)
    requires
        scene.wf(),
    ensures
        r == raycast_spec(*scene, *ray, depth as int),
    decreases scene.max_rec - depth, 1int,
{
    if depth >= scene.max_rec {
        return Color::black();
    }
    match scene.trace(ray) {
        None => Color::black(),
        Some(intersection) => get_color(scene, ray, &intersection, depth),
    }
}

/// Renders every pixel: the primary ray through it, cast at depth zero,
/// converted to display bytes.
pub fn render_scene(scene: &Scene) -> (r: DynamicImage)
    requires
        scene.wf(),
        scene.width > scene.height > 0,
        3 * (scene.width as int) * (scene.height as int) <= usize::MAX,
    ensures
        image_width(r) == scene.width,
        image_height(r) == scene.height,
        forall|i: int|
            0 <= i < scene.width * scene.height ==> {
                let p = pixel_spec(*scene, i % (scene.width as int), i / (scene.width as int));
                let t = #[trigger] image_texels(r)[i];
                t.0 == p.0 && t.1 == p.1 && t.2 == p.2
            },
{
    let w = scene.width as usize;
    assert(3 * (w * scene.height) == 3 * (scene.width as int) * (scene.height as int)) by (nonlinear_arith)
        requires
            w == scene.width,
    ;
    let n = w * (scene.height as usize);
    let mut bytes: Vec<u8> = Vec::with_capacity(3 * n);
    let mut i: usize = 0;
    while i < n
        invariant
            scene.wf(),
            scene.width > scene.height > 0,
            w == scene.width,
            n == scene.width * scene.height,
            3 * n <= usize::MAX,
            i <= n,
            bytes@ == frame_bytes(*scene, i as nat),
        decreases n - i,
    {
        let x = (i % w) as u32;
        let y = (i / w) as u32;
        proof {
            assert(n as int == w * scene.height) by (nonlinear_arith)
                requires
                    n == scene.width * scene.height,
                    w == scene.width,
            ;
            vstd::arithmetic::div_mod::lemma_multiply_divide_lt(i as int, w as int, scene.height as int);
            vstd::arithmetic::div_mod::lemma_mod_bound(i as int, w as int);
        }
        let ray = Ray::create_prime(x, y, scene);
        let p = raycast(scene, &ray, 0).to_rgba();
        proof {
            reveal(pixel_spec);
        }
        bytes.push(p.0);
        bytes.push(p.1);
        bytes.push(p.2);
        i = i + 1;
    }
    proof {
        lemma_frame_bytes(*scene, n as nat);
    }
    rgb_image(scene.width, scene.height, bytes)
}

} // verus!
