//! Audio effects.
pub mod direct;
pub mod overlap_add_convolution;
pub mod reverb;
