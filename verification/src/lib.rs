//! The shading core of a path tracer: rays are tested against the objects of a scene, the
//! nearest hit is scattered by the material of the surface, and the colour seen along a ray
//! is gathered bounce by bounce.
//!
//! All numbers are decimal fixed-point numbers with six fractional digits. Every operation
//! on them is total, saturates in place of overflowing, and rounds toward zero, so that
//! what each function returns is stated exactly, over the integers.

pub mod color;
pub mod fixed;
pub mod hittable;
pub mod material;
pub mod ray;
pub mod sampling;
pub mod scene;
pub mod sphere;
pub mod vec3;
