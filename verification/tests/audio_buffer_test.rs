use phonon::dsp::audio_buffer::{write_interleaved, ScratchBuffer};

#[test]
fn audio_buffer_test_deinterleave() {
    let interleaved: &[f32] = &[1.0, 2.0, 1.0, 2.0, 1.0, 2.0];

    let mut deinterleaved = ScratchBuffer::new(2, 3, 0.0f32);

    deinterleaved.read_interleaved(&[interleaved]);

    assert_eq!(1.0, deinterleaved.sample(0, 0));
    assert_eq!(1.0, deinterleaved.sample(0, 1));
    assert_eq!(1.0, deinterleaved.sample(0, 2));
    assert_eq!(2.0, deinterleaved.sample(1, 0));
    assert_eq!(2.0, deinterleaved.sample(1, 1));
    assert_eq!(2.0, deinterleaved.sample(1, 2));
}

#[test]
fn audio_buffer_test_interleave() {
    let deinterleaved: &[&[f32]] = &[&[1.0, 1.0], &[2.0, 2.0]];

    let interleaved: &mut [f32] = &mut [0.0; 4];

    write_interleaved(deinterleaved, interleaved);

    assert_eq!(1.0, interleaved[0]);
    assert_eq!(2.0, interleaved[1]);
    assert_eq!(1.0, interleaved[2]);
    assert_eq!(2.0, interleaved[3]);
}

use phonon::dsp::audio_buffer::{num_channels, num_samples, AudioSettings};

#[test]
fn audio_settings_new() {
    let settings = AudioSettings::new(48_000, 1024);
    assert_eq!(48_000, settings.sampling_rate);
    assert_eq!(1024, settings.frame_size);
}

#[test]
fn scratch_buffer_shape_and_silence() {
    let mut buffer = ScratchBuffer::new(3, 4, 0.5f32);
    assert_eq!(3, buffer.num_channels());
    assert_eq!(4, buffer.num_samples());
    buffer.set_sample(2, 3, 1.0);
    assert_eq!(1.0, buffer.sample(2, 3));
    assert_eq!(0.5, buffer.sample(2, 2));
    buffer.make_silent(0.0);
    for j in 0..3 {
        assert_eq!(&[0.0f32; 4][..], buffer.channel(j));
    }
    let slices = buffer.as_ref();
    assert_eq!(3, num_channels(&slices));
    assert_eq!(4, num_samples(&slices));
}

#[test]
fn interleave_round_trip() {
    let mut source = ScratchBuffer::new(3, 2, 0i32);
    let mut value = 0;
    for j in 0..3 {
        for i in 0..2 {
            source.set_sample(j, i, value);
            value += 1;
        }
    }
    let mut interleaved = vec![-1i32; 7];
    write_interleaved(&source.as_ref(), &mut interleaved);
    assert_eq!(vec![0, 2, 4, 1, 3, 5, -1], interleaved);

    let mut restored = ScratchBuffer::new(3, 2, 0i32);
    restored.read_interleaved(&[&interleaved[..]]);
    for j in 0..3 {
        assert_eq!(source.channel(j), restored.channel(j));
    }
}

#[test]
fn deinterleave_then_interleave_gives_back_data() {
    let data: Vec<i32> = (0..6).collect();
    let mut buffer = ScratchBuffer::new(2, 3, 0i32);
    buffer.read_interleaved(&[&data[..]]);
    let mut back = vec![0i32; 6];
    write_interleaved(&buffer.as_ref(), &mut back);
    assert_eq!(data, back);
}
