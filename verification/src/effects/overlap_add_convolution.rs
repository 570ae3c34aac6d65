use vstd::prelude::*;

verus! {

/// Settings of an overlap-add convolution effect.
pub struct OverlapAddConvolutionEffectSettings {
    pub num_channels: u8,
    /// Length of the impulse response, in samples.
    pub ir_size: usize,
}

/// Buffer sizes of an overlap-add convolution effect.
#[derive(Debug, Clone, Copy, PartialEq, Eq, Structural)]
pub struct ConvolutionBufferSizes {
    /// A frame plus a quarter frame of the previous input, to which the Tukey window applies.
    pub window_size: usize,
    /// Length of the FFT: the window plus the impulse response, minus one.
    pub fft_size: usize,
    /// Samples of the convolved signal that spill into the next frame.
    pub overlap_size: usize,
}

impl OverlapAddConvolutionEffectSettings {
    /// The buffer sizes of an effect that processes frames of `frame_size` samples with these
    /// settings. The Tukey window's overlap is a quarter frame, so frames must be at least
    /// four samples long.
    pub fn buffer_sizes(&self, frame_size: usize) -> (sizes: ConvolutionBufferSizes)
        requires
            frame_size >= 4,
            frame_size + frame_size / 4 + self.ir_size <= usize::MAX,
        ensures
            sizes.window_size == frame_size + frame_size / 4,
            sizes.fft_size == frame_size + frame_size / 4 + self.ir_size - 1,
            sizes.overlap_size == frame_size / 4 + self.ir_size - 1,
    {
        let window_size = frame_size + (frame_size / 4);
        let fft_size = window_size + self.ir_size - 1;
        let overlap_size = fft_size - frame_size;
        ConvolutionBufferSizes { window_size, fft_size, overlap_size }
    }
}

} // verus!
