//! A small path tracer: spheres, three surface materials (diffuse, metal,
//! glass), a thin-lens camera, and a depth-bounded color integrator with a
//! sky-gradient background.
//!
//! All quantities live in a fixed-point representation: a raw `i64` value
//! `n` stands for the real number `n / SCALE`, with `SCALE` one million.
//! Every operation's contract states its exact integer result, so the
//! geometric claims - where a ray meets a sphere, which hit across the scene
//! is nearest, what color a pixel accumulates - are precise statements about
//! integers rather than approximations. Wider intermediates are carried in
//! 128 bits, and every narrowing is proved in range.
//!
//! Randomness enters only through the samplers in `math`; a contract about a
//! randomized function states what holds of every possible outcome.

pub mod math;
pub mod vec3;
pub mod ray;
pub mod material;
pub mod lambertian;
pub mod metal;
pub mod dielectric;
pub mod hittable;
pub mod sphere;
pub mod camera;
pub mod renderer;
pub mod print;
