//! Verified building blocks of a spatial audio engine: audio buffer layout,
//! delay lines, direct-path decision logic and scene bookkeeping.
pub mod dsp;
pub mod effects;
pub mod hrtf_map;
pub mod scene;
pub mod simulators;
pub mod speaker_layout;
