//! Rays, materials, and the two kinds of scene element: spheres and planes.
use vstd::prelude::*;
use crate::angle::{acos, atan2, acos_spec, atan2_spec};
use crate::fixed::{div_trunc, fit, isqrt, is_isqrt, saturate, div_fixed, div_spec, LIMIT, SCALE};
use crate::texture::{Texture, Texture_thing, texture_wf};
use crate::vector::{
    Point, Vector3, cross_spec, dot_spec, length_spec, neg_spec, normalize_spec, point_sub_spec,
    square_sum, sqrt_floor, lemma_sqrt_floor, vec3,
};

verus! {

/// A half-line: an origin and a direction, unit length by convention.
#[derive(Clone, Copy, Debug, PartialEq, Eq, Structural)]
pub struct Ray {
    pub origin: Point,
    pub direction: Vector3,
}

#[allow(non_camel_case_types)]
#[derive(Clone, Copy, Debug, PartialEq, Eq, Structural)]
pub enum surface_type {
    Diffuse,
    /// Blend weight of the mirrored color, fixed-point in `[0, SCALE]`:
    /// zero is fully diffuse, `SCALE` a perfect mirror.
    Reflective { reflectivity: i64 },
}

#[derive(Debug)]
pub struct Material {
    pub color: Texture,
    /// Diffuse reflectance, fixed-point.
    pub albedo: i64,
    pub surface: surface_type,
}

#[derive(Debug)]
pub struct Sphere {
    pub center: Point,
    pub radius: i64,
    pub material: Material,
}

#[derive(Debug)]
pub struct Plane {
    pub center: Point,
    /// Unit normal; the plane is seen from the side it points away from.
    pub normal: Vector3,
    pub material: Material,
}

#[derive(Debug)]
pub enum Element {
    Sphere(Sphere),
    Plane(Plane),
}

/// A hit: the distance along the ray and the index of the element hit in
/// the scene's element list. Distances are fixed-point, hence always finite.
#[derive(Clone, Copy, Debug, PartialEq, Eq, Structural)]
pub struct Intersection {
    pub distance: i64,
    pub element: usize,
}

impl Intersection {
    pub fn new(distance: i64, element: usize) -> (r: Intersection)
        ensures
            r.distance == distance,
            r.element == element,
    {
        Intersection { distance, element }
    }
}

/// Raw value of the plane facing threshold, 1e-6.
pub const PLANE_EPSILON: i64 = 1;

/// Nearest forward hit of a sphere: with `L` from the origin to the center,
/// `tca = L.d`, `d2 = L.L - tca^2`; a miss when `d2 > r^2`, else the
/// smaller of `tca -+ sqrt(r^2 - d2)`, unless both are negative.
pub open spec fn sphere_intersect_spec(s: Sphere, ray: Ray) -> Option<i64> {
    let l = point_sub_spec(s.center, ray.origin);
    let tca = dot_spec(l, ray.direction);
    let d2 = square_sum(l) - tca * tca;
    let r = fit(s.radius as int);
    if d2 > r * r {
        None
    } else {
        let thc = sqrt_floor(r * r - d2);
        let t0 = tca - thc;
        let t1 = tca + thc;
        if t0 < 0 && t1 < 0 {
            None
        } else {
            Some(fit(if t0 < t1 { t0 } else { t1 }) as i64)
        }
    }
}

/// Hit of a plane seen from its front: a miss unless `normal.d` exceeds the
/// threshold; the distance `(center - origin).normal / normal.d`, if not
/// negative.
pub open spec fn plane_intersect_spec(p: Plane, ray: Ray) -> Option<i64> {
    let denom = dot_spec(p.normal, ray.direction);
    if denom > PLANE_EPSILON {
        let v = point_sub_spec(p.center, ray.origin);
        let distance = div_spec(dot_spec(v, p.normal), denom);
        if distance >= 0 {
            Some(distance as i64)
        } else {
            None
        }
    } else {
        None
    }
}

pub open spec fn sphere_normal_spec(s: Sphere, hit: Point) -> Option<Vector3> {
    normalize_spec(point_sub_spec(hit, s.center))
}

pub open spec fn plane_normal_spec(p: Plane) -> Option<Vector3> {
    Some(neg_spec(p.normal))
}

/// Height of a hit point over the center, as a fraction of the radius in
/// `[-SCALE, SCALE]`; zero for a sphere without radius.
pub open spec fn latitude_ratio(dy: int, r: int) -> int {
    if r <= 0 {
        0
    } else {
        let c = div_trunc(dy * SCALE, r);
        if c > SCALE {
            SCALE as int
        } else if c < -SCALE {
            -SCALE
        } else {
            c
        }
    }
}

/// Spherical coordinates: `x = (1 + atan2(dz, dx) / pi) / 2`,
/// `y = acos(dy / r) / pi`, with `(dx, dy, dz)` from the center to the hit.
pub open spec fn sphere_coords_spec(s: Sphere, hit: Point) -> Texture_thing {
    let d = point_sub_spec(hit, s.center);
    Texture_thing {
        x: ((SCALE + atan2_spec(d.z as int, d.x as int)) / 2) as i64,
        y: acos_spec(latitude_ratio(d.y as int, fit(s.radius as int))) as i64,
    }
}

/// First tangent axis of a plane: `normal x (0, 0, 1)`, or `normal x (0, 1, 0)`
/// when the first is zero.
pub open spec fn plane_x_axis(n: Vector3) -> Vector3 {
    let a = cross_spec(n, vec3(0, 0, SCALE as int));
    if length_spec(a) == 0 {
        cross_spec(n, vec3(0, SCALE as int, 0))
    } else {
        a
    }
}

/// Planar coordinates: the offset from the center projected on the two
/// tangent axes, without dividing by their lengths.
pub open spec fn plane_coords_spec(p: Plane, hit: Point) -> Texture_thing {
    let x_axis = plane_x_axis(p.normal);
    let y_axis = cross_spec(p.normal, x_axis);
    let d = point_sub_spec(hit, p.center);
    Texture_thing { x: dot_spec(d, x_axis) as i64, y: dot_spec(d, y_axis) as i64 }
}

/// What a ray hits, where, and how the surface is oriented and textured.
pub trait Intersectable {
    spec fn intersect_spec(&self, ray: Ray) -> Option<i64>;

    spec fn normal_spec(&self, hit_point: Point) -> Option<Vector3>;

    spec fn coords_spec(&self, hit_point: Point) -> Texture_thing;

    /// Distance along the ray to the nearest forward hit, if any.
    fn intersect(&self, ray: &Ray) -> (r: Option<i64>)
        ensures
            r == self.intersect_spec(*ray),
    ;

    /// Unit normal on the side the surface is seen from; none where it is
    /// undefined (the center of a sphere).
    fn surface_normal(&self, hit_point: &Point) -> (r: Option<Vector3>)
        ensures
            r == self.normal_spec(*hit_point),
    ;

    fn texture_coords(&self, hit_point: &Point) -> (r: Texture_thing)
        ensures
            r == self.coords_spec(*hit_point),
    ;
}

impl Intersectable for Sphere {
    open spec fn intersect_spec(&self, ray: Ray) -> Option<i64> {
        sphere_intersect_spec(*self, ray)
    }

    open spec fn normal_spec(&self, hit_point: Point) -> Option<Vector3> {
        sphere_normal_spec(*self, hit_point)
    }

    open spec fn coords_spec(&self, hit_point: Point) -> Texture_thing {
        sphere_coords_spec(*self, hit_point)
    }

    fn intersect(&self, ray: &Ray) -> (r: Option<i64>) {
        let l = self.center.sub(&ray.origin);
        let tca = l.dot(&ray.direction);
        let lx = l.x as i128;
        let ly = l.y as i128;
        let lz = l.z as i128;
        let t = tca as i128;
        let r = saturate(self.radius as i128) as i128;
        proof {
            assert(0 <= lx * lx <= LIMIT * LIMIT) by (nonlinear_arith)
                requires
                    -LIMIT <= lx <= LIMIT,
            ;
            assert(0 <= ly * ly <= LIMIT * LIMIT) by (nonlinear_arith)
                requires
                    -LIMIT <= ly <= LIMIT,
            ;
            assert(0 <= lz * lz <= LIMIT * LIMIT) by (nonlinear_arith)
                requires
                    -LIMIT <= lz <= LIMIT,
            ;
            assert(0 <= t * t <= LIMIT * LIMIT) by (nonlinear_arith)
                requires
                    -LIMIT <= t <= LIMIT,
            ;
            assert(0 <= r * r <= LIMIT * LIMIT) by (nonlinear_arith)
                requires
                    -LIMIT <= r <= LIMIT,
            ;
        }
        let d2 = lx * lx + ly * ly + lz * lz - t * t;
        let r2 = r * r;
        if d2 > r2 {
            return None;
        }
        let thc = isqrt((r2 - d2) as u128);
        proof {
            lemma_sqrt_floor((r2 - d2) as int, thc as int);
            if thc > 2 * LIMIT {
                crate::vector::lemma_square_monotone(2 * LIMIT, thc as int);
            }
        }
        let thc = thc as i128;
        let t0 = t - thc;
        let t1 = t + thc;
        if t0 < 0 && t1 < 0 {
            return None;
        }
        let distance = if t0 < t1 { t0 } else { t1 };
        Some(saturate(distance))
    }

    fn surface_normal(&self, hit_point: &Point) -> (r: Option<Vector3>) {
        hit_point.sub(&self.center).normalize()
    }

    fn texture_coords(&self, hit_point: &Point) -> (r: Texture_thing) {
        let d = hit_point.sub(&self.center);
        let r = saturate(self.radius as i128);
        let ratio = if r <= 0 {
            0
        } else {
            proof {
                assert(-LIMIT * SCALE <= d.y * SCALE <= LIMIT * SCALE) by (nonlinear_arith)
                    requires
                        -LIMIT <= d.y <= LIMIT,
                ;
            }
            let c = crate::fixed::div_toward_zero(d.y as i128 * SCALE as i128, r as i128);
            proof {
                if d.y >= 0 {
                    vstd::arithmetic::div_mod::lemma_div_is_ordered(d.y * SCALE, LIMIT * SCALE, r as int);
                    vstd::arithmetic::div_mod::lemma_div_pos_is_pos(d.y * SCALE, r as int);
                } else {
                    vstd::arithmetic::div_mod::lemma_div_is_ordered(-(d.y * SCALE), LIMIT * SCALE, r as int);
                    vstd::arithmetic::div_mod::lemma_div_pos_is_pos(-(d.y * SCALE), r as int);
                }
                vstd::arithmetic::div_mod::lemma_div_is_ordered_by_denominator(LIMIT * SCALE, 1, r as int);
            }
            if c > SCALE as i128 {
                SCALE
            } else if c < -(SCALE as i128) {
                -SCALE
            } else {
                c as i64
            }
        };
        let a = atan2(d.z, d.x);
        Texture_thing { x: (SCALE + a) / 2, y: acos(ratio) }
    }
}

impl Intersectable for Plane {
    open spec fn intersect_spec(&self, ray: Ray) -> Option<i64> {
        plane_intersect_spec(*self, ray)
    }

    open spec fn normal_spec(&self, hit_point: Point) -> Option<Vector3> {
        plane_normal_spec(*self)
    }

    open spec fn coords_spec(&self, hit_point: Point) -> Texture_thing {
        plane_coords_spec(*self, hit_point)
    }

    fn intersect(&self, ray: &Ray) -> (r: Option<i64>) {
        let denom = self.normal.dot(&ray.direction);
        if denom > PLANE_EPSILON {
            let v = self.center.sub(&ray.origin);
            let distance = div_fixed(v.dot(&self.normal), denom);
            if distance >= 0 {
                return Some(distance);
            }
        }
        None
    }

    fn surface_normal(&self, hit_point: &Point) -> (r: Option<Vector3>) {
        Some(self.normal.neg())
    }

    fn texture_coords(&self, hit_point: &Point) -> (r: Texture_thing) {
        let mut x_axis = self.normal.cross(&Vector3 { x: 0, y: 0, z: SCALE });
        if x_axis.length() == 0 {
            x_axis = self.normal.cross(&Vector3 { x: 0, y: SCALE, z: 0 });
        }
        let y_axis = self.normal.cross(&x_axis);
        let d = hit_point.sub(&self.center);
        Texture_thing { x: d.dot(&x_axis), y: d.dot(&y_axis) }
    }
}

pub open spec fn element_material(e: Element) -> Material {
    match e {
        Element::Sphere(s) => s.material,
        Element::Plane(p) => p.material,
    }
}

impl Element {
    pub fn material(&self) -> (r: &Material)
        ensures
            *r == element_material(*self),
    {
        match self {
            Element::Sphere(s) => &s.material,
            Element::Plane(p) => &p.material,
        }
    }

    /// The element's texture can be sampled everywhere.
    pub open spec fn wf(&self) -> bool {
        texture_wf(element_material(*self).color)
    }
}

impl Intersectable for Element {
    open spec fn intersect_spec(&self, ray: Ray) -> Option<i64> {
        match *self {
            Element::Sphere(s) => sphere_intersect_spec(s, ray),
            Element::Plane(p) => plane_intersect_spec(p, ray),
        }
    }

    open spec fn normal_spec(&self, hit_point: Point) -> Option<Vector3> {
        match *self {
            Element::Sphere(s) => sphere_normal_spec(s, hit_point),
            Element::Plane(p) => plane_normal_spec(p),
        }
    }

    open spec fn coords_spec(&self, hit_point: Point) -> Texture_thing {
        match *self {
            Element::Sphere(s) => sphere_coords_spec(s, hit_point),
            Element::Plane(p) => plane_coords_spec(p, hit_point),
        }
    }

    fn intersect(&self, ray: &Ray) -> (r: Option<i64>) {
        match self {
            Element::Sphere(s) => s.intersect(ray),
            Element::Plane(p) => p.intersect(ray),
        }
    }

    fn surface_normal(&self, hit_point: &Point) -> (r: Option<Vector3>) {
        match self {
            Element::Sphere(s) => s.surface_normal(hit_point),
            Element::Plane(p) => p.surface_normal(hit_point),
        }
    }

    fn texture_coords(&self, hit_point: &Point) -> (r: Texture_thing) {
        match self {
            Element::Sphere(s) => s.texture_coords(hit_point),
            Element::Plane(p) => p.texture_coords(hit_point),
        }
    }
}

/// A ray aimed straight at the center of a sphere from outside it (its
/// projection on the direction is the whole distance to the center, and
/// exceeds the radius) first meets the sphere at that distance less the
/// radius.
pub proof fn lemma_sphere_hit_through_center(s: Sphere, ray: Ray)
    requires
        0 < s.radius,
        dot_spec(point_sub_spec(s.center, ray.origin), ray.direction) > s.radius,
        dot_spec(point_sub_spec(s.center, ray.origin), ray.direction) * dot_spec(
            point_sub_spec(s.center, ray.origin),
            ray.direction,
        ) == square_sum(point_sub_spec(s.center, ray.origin)),
    ensures
        sphere_intersect_spec(s, ray) == Some(
            (length_spec(point_sub_spec(s.center, ray.origin)) - s.radius) as i64,
        ),
{
    let l = point_sub_spec(s.center, ray.origin);
    let tca = dot_spec(l, ray.direction);
    let r = s.radius as int;
    assert(is_isqrt(tca * tca, tca)) by (nonlinear_arith)
        requires
            tca > 0,
    ;
    lemma_sqrt_floor(tca * tca, tca);
    assert(is_isqrt(r * r, r)) by (nonlinear_arith)
        requires
            r > 0,
    ;
    lemma_sqrt_floor(r * r, r);
}

/// A plane is never hit by a ray that does not face its front: when
/// `normal.direction` is at most the threshold, whatever the origin.
pub proof fn lemma_plane_culls_back_faces(p: Plane, ray: Ray)
    requires
        dot_spec(p.normal, ray.direction) <= PLANE_EPSILON,
    ensures
        plane_intersect_spec(p, ray) is None,
{
}

} // verus!
