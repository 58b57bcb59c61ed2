//! Directional and point lights.
use vstd::prelude::*;
use crate::color::Color;
use crate::fixed::{div_fixed, mul_fixed, div_spec, mul_spec};
use crate::vector::{Point, Vector3, dot_spec, length_spec, neg_spec, normalize_spec, point_sub_spec};

verus! {

/// Raw value of 4 pi.
pub const FOUR_PI: i64 = 12_566_371;

/// Light arriving from everywhere along one direction, with no falloff.
#[derive(Clone, Copy, Debug, PartialEq, Eq, Structural)]
pub struct DirectionalLight {
    /// The direction the light travels in.
    pub direction: Vector3,
    pub color: Color,
    pub intensity: i64,
}

/// Light radiating from a position, falling off with the squared distance.
#[derive(Clone, Copy, Debug, PartialEq, Eq, Structural)]
pub struct PointLight {
    pub pos: Point,
    pub color: Color,
    pub intensity: i64,
}

#[derive(Clone, Copy, Debug, PartialEq, Eq, Structural)]
pub enum Light {
    Directional(DirectionalLight),
    Point(PointLight),
}

pub open spec fn light_color_spec(l: Light) -> Color {
    match l {
        Light::Directional(d) => d.color,
        Light::Point(p) => p.color,
    }
}

/// Intensity arriving at a point: constant for a directional light,
/// `intensity / (4 pi r^2)` for a point light. A point light at the point
/// itself is not physical and lights nothing.
pub open spec fn light_intensity_spec(l: Light, hit: Point) -> int {
    match l {
        Light::Directional(d) => d.intensity as int,
        Light::Point(p) => {
            let v = point_sub_spec(p.pos, hit);
            let denom = mul_spec(FOUR_PI as int, dot_spec(v, v));
            if denom > 0 {
                div_spec(p.intensity as int, denom)
            } else {
                0
            }
        },
    }
}

/// Unit direction from the point toward the light; none for a point light
/// at the point itself or a directional light without direction.
pub open spec fn light_direction_spec(l: Light, hit: Point) -> Option<Vector3> {
    match l {
        Light::Directional(d) => normalize_spec(neg_spec(d.direction)),
        Light::Point(p) => normalize_spec(point_sub_spec(p.pos, hit)),
    }
}

/// Distance from the point to the light; none for a directional light,
/// which is infinitely far away.
pub open spec fn light_distance_spec(l: Light, hit: Point) -> Option<int> {
    match l {
        Light::Directional(_) => None,
        Light::Point(p) => Some(length_spec(point_sub_spec(p.pos, hit))),
    }
}

impl Light {
    pub fn color(&self) -> (r: &Color)
        ensures
            *r == light_color_spec(*self),
    {
        match self {
            Light::Directional(d) => &d.color,
            Light::Point(p) => &p.color,
        }
    }

    pub fn intensity(&self, hit_point: &Point) -> (r: i64)
        ensures
            r == light_intensity_spec(*self, *hit_point),
    {
        match self {
            Light::Directional(d) => d.intensity,
            Light::Point(p) => {
                let r2 = p.pos.sub(hit_point).norm();
                let denom = mul_fixed(FOUR_PI, r2);
                if denom > 0 {
                    div_fixed(p.intensity, denom)
                } else {
                    0
                }
            },
        }
    }

    pub fn direction(&self, hit_point: &Point) -> (r: Option<Vector3>)
        ensures
            r == light_direction_spec(*self, *hit_point),
    {
        match self {
            Light::Directional(d) => d.direction.neg().normalize(),
            Light::Point(p) => p.pos.sub(hit_point).normalize(),
        }
    }

    pub fn distance(&self, hit_point: &Point) -> (r: Option<i64>)
        ensures
            r matches Some(d) ==> light_distance_spec(*self, *hit_point) == Some(d as int),
            r is None <==> light_distance_spec(*self, *hit_point) is None,
    {
        match self {
            Light::Directional(_) => None,
            Light::Point(p) => Some(p.pos.sub(hit_point).length()),
        }
    }
}

} // verus!
