//! Contact physics for circular bodies on a plane: a uniform spatial grid,
//! a grid-driven broad phase, an inelastic pairwise resolver, boundary
//! containment and an explicit-Euler integrator, all in integer units.

pub mod arith;
pub mod body;
pub mod config;
pub mod layout;
pub mod motion;
pub mod grid;
pub mod broad;
pub mod contact;
pub mod pipeline;
pub mod query;
pub mod laws;
