//! A recursive Monte Carlo path tracer over fixed-point arithmetic: spheres,
//! diffuse / reflective / refractive materials, a thin-lens camera, and a
//! per-pixel sampling loop, each with a proved contract. A scalar `q: i64`
//! stands for the real number `q / fixed::SCALE`.

pub mod fixed;
pub mod rng;
pub mod vec3;
pub mod ray;
pub mod hitable;
pub mod material;
pub mod integrator;
pub mod camera;
pub mod render;
