//! A Monte Carlo path tracer over fixed-point arithmetic.
//!
//! Geometry and radiance are carried as signed 64-bit fixed-point numbers
//! with 16 fractional bits, so every arithmetic step has an exact,
//! machine-checked meaning: the quadratic ray-sphere intersection, the
//! closest-hit reduction over the scene, the scattering models and the
//! recursive light-transport function are all specified and verified over
//! that integer model. Randomness enters only through a trusted wrapper
//! around the `rand` crate, and the contracts state what holds of every
//! draw.

pub mod color;
pub mod common;
pub mod fixed;
pub mod hittable;
pub mod material;
pub mod ray;
pub mod sphere;
pub mod tracer;
pub mod vector;

pub use crate::fixed::FX_ONE;
pub use crate::vector::Vec3;
pub use crate::vector::Color;
pub use crate::vector::Point3;
pub use crate::ray::Ray;
pub use crate::hittable::HitRecord;
pub use crate::hittable::Hittable;
pub use crate::hittable::HittableList;
pub use crate::material::Material;
pub use crate::material::Lambertian;
pub use crate::material::Metal;
pub use crate::material::Dielectric;
pub use crate::sphere::Sphere;

pub use crate::color::color_to_rgb;
pub use crate::common::random_scalar;
pub use crate::common::random_scene;
pub use crate::tracer::ray_color;
pub use crate::tracer::pixel_color;
