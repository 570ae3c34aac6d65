# phonon

Verified building blocks of a spatial audio engine, written in Verus.

`src/` is the verified library:

- `dsp::audio_buffer`: audio settings, deinterleaved scratch buffers and
  interleaving, generic over the sample type;
- `dsp::delay`: delay lines (ring buffers) with read-after-write laws;
- `effects`: which parts of a direct sound path the direct effect applies,
  overlap-add convolution buffer sizes, random reverb delay offsets;
- `simulators::direct`: what a direct simulation step does with occlusion and
  transmission;
- `scene`: scene bookkeeping (pending and committed meshes, change version),
  the digit reversal behind Halton sampling, back-face index mapping;
- `speaker_layout`, `hrtf_map`: speaker counts and HRTF format versions.

`app/` holds the floating-point signal processing and geometry (filters,
effects, ray casting, the direct simulator) built on the library.
