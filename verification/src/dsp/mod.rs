//! Digital signal processing primitives.
pub mod audio_buffer;
pub mod delay;
