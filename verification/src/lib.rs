//! Boids: the logic of a GPU flocking simulation, verified.
//!
//! Real numbers do not occur here. Where one passes through, it is the bit pattern of a single; the
//! arithmetic on it belongs to whoever runs the simulation.

pub mod args;
pub mod bindings;
pub mod bytes;
pub mod config;
pub mod frame;
pub mod grid;
pub mod hash;
pub mod input;
pub mod layout;
pub mod model;
pub mod modes;
pub mod paths;
pub mod pipelines;
pub mod png;
pub mod post;
pub mod profile;
pub mod readback;
pub mod rng;
pub mod separation;
pub mod session;
pub mod sim;
pub mod singles;
pub mod sort;
pub mod strategy;
pub mod surface;
pub mod text;
pub mod transfer;
pub mod uniforms;
pub mod validation;
pub mod wgsl;
pub mod world;
