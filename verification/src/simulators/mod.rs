//! Simulation of sound propagation.
pub mod direct;
