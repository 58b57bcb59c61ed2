//! A recursive ray tracer over fixed-point arithmetic: spheres and planes,
//! point and directional lights, diffuse and mirror materials, solid and
//! image textures.
pub mod fixed;
pub mod vector;
pub mod color;
pub mod texture;
pub mod angle;
pub mod geometry;
pub mod light;
pub mod scene;
pub mod render;
pub mod description;

pub use crate::color::Color;
pub use crate::geometry::{
    Element, Intersectable, Intersection, Material, Plane, Ray, Sphere, surface_type,
};
pub use crate::light::{DirectionalLight, Light, PointLight};
pub use crate::render::{raycast, render_scene};
pub use crate::scene::Scene;
pub use crate::texture::{Texture, Texture_thing, wrap};
pub use crate::vector::{Point, Vector3};
