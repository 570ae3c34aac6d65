use phonon::effects::overlap_add_convolution::OverlapAddConvolutionEffectSettings;
use phonon::dsp::audio_buffer::AudioEffectState;
use phonon::effects::reverb::{delay_offsets_from_draws, random_delay_offsets, tail_frame_step, tail_state};
use phonon::hrtf_map::is_supported_version;
use phonon::speaker_layout::{num_speakers_for_layout, SpeakerLayoutType};

#[test]
fn overlap_add_buffer_sizes() {
    let settings = OverlapAddConvolutionEffectSettings { num_channels: 1, ir_size: 1024 };
    let sizes = settings.buffer_sizes(1024);
    assert_eq!(1280, sizes.window_size);
    assert_eq!(2303, sizes.fft_size);
    assert_eq!(1279, sizes.overlap_size);

    let settings = OverlapAddConvolutionEffectSettings { num_channels: 2, ir_size: 0 };
    let sizes = settings.buffer_sizes(4);
    assert_eq!(5, sizes.window_size);
    assert_eq!(4, sizes.fft_size);
    assert_eq!(0, sizes.overlap_size);
}

#[test]
fn speaker_counts() {
    assert_eq!(1, num_speakers_for_layout(SpeakerLayoutType::Mono));
    assert_eq!(2, num_speakers_for_layout(SpeakerLayoutType::Stereo));
    assert_eq!(4, num_speakers_for_layout(SpeakerLayoutType::Quadraphonic));
    assert_eq!(6, num_speakers_for_layout(SpeakerLayoutType::FivePointOne));
    assert_eq!(8, num_speakers_for_layout(SpeakerLayoutType::SevenPointOne));
}

#[test]
fn hrtf_versions() {
    assert!(!is_supported_version(-1));
    assert!(is_supported_version(0));
    assert!(is_supported_version(1));
    assert!(!is_supported_version(2));
}

#[test]
fn random_delay_offsets_are_in_range_and_vary() {
    let offsets = random_delay_offsets().unwrap();
    for offset in offsets {
        assert!((0..=100).contains(&offset));
    }
    let again = random_delay_offsets().unwrap();
    let first = offsets[0];
    assert!(offsets.iter().chain(again.iter()).any(|&o| o != first));
}

#[test]
fn delay_offsets_reduce_draws_modulo_101() {
    let mut draws = [0u16; 16];
    draws[0] = 100;
    draws[1] = 101;
    draws[2] = 202;
    draws[3] = 65535;
    draws[4] = 250;
    let offsets = delay_offsets_from_draws(draws);
    assert_eq!(100, offsets[0]);
    assert_eq!(0, offsets[1]);
    assert_eq!(0, offsets[2]);
    assert_eq!(87, offsets[3]);
    assert_eq!(48, offsets[4]);
    assert_eq!(0, offsets[15]);
}

#[test]
fn reverb_tail_counts_down() {
    assert!(matches!(tail_state(3), AudioEffectState::TailRemaining));
    assert!(matches!(tail_state(0), AudioEffectState::TailComplete));
    assert!(matches!(tail_state(-2), AudioEffectState::TailComplete));
    let (remaining, state) = tail_frame_step(2);
    assert_eq!(1, remaining);
    assert!(matches!(state, AudioEffectState::TailRemaining));
    let (remaining, state) = tail_frame_step(1);
    assert_eq!(0, remaining);
    assert!(matches!(state, AudioEffectState::TailComplete));
}
