//! A flocking ("boids") simulation core over fixed-point integer vectors.
//!
//! Every coordinate, velocity and force is a whole number of sub-units
//! ([`vector::UNIT`] of them make one world unit). Results are computed
//! exactly in wider integers and clamped into the component range where a
//! vector is formed, so the rules are total and each contract states the
//! exact result. Coefficients are held in parts of `1 / UNIT` too, so that
//! a rule can be given a factor of a half. A planar world is a world in
//! space with `z == 0` throughout; the same rules serve both.
//!
//! The rules read nothing but plain values, so a host is free in how it
//! keeps its agents: it can hand the whole simulation to
//! [`simulation::Simulation`], or keep the agents itself and call the rules
//! of [`systems`], [`integrator`] and [`boundary`] for each.

pub mod accumulator;
pub mod arith;
pub mod boid;
pub mod boundary;
mod chance;
pub mod forces;
pub mod integrator;
pub mod kdtree;
pub mod neighbors;
pub mod settings;
pub mod simulation;
pub mod spatial;
pub mod store;
pub mod systems;
pub mod vector;
