//! Ray casting against simple solids in saturating fixed-point arithmetic.
//!
//! A [`ray::Ray`] is a line of points `origin + dir * t`; the parameters
//! from zero to one make up the segment that the queries with points as
//! their answer look at. The solids are the sphere, the box with its edges
//! along the axes, the plane, the triangle, the cylinder in three kinds and
//! the capsule. An [`interval::IntersectionResult`] holds the parameters
//! between which a ray is inside a solid.
//!
//! All numbers are [`scalar::Scalar`]s: fixed-point numbers with 24
//! fractional bits whose arithmetic rounds toward zero and saturates at the
//! ends of the 64-bit range, which stand for the infinities. No operation
//! fails or wraps around, and every query gives the same answer for the
//! same input. The module [`fixed`] states that arithmetic over the
//! integers, and [`ray_lemmas`] states what holds of the queries for every
//! input.
pub mod fixed;
pub mod interval;
pub mod plane;
pub mod quadratic;
pub mod ray;
pub mod ray_lemmas;
pub mod scalar;
pub mod triangle;
pub mod vec3;
