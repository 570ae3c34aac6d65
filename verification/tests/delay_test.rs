use phonon::dsp::delay::Delay;

#[test]
fn delay_buffer() {
    let delay = Delay::from_ring_buffer(vec![1.0f32, 2.0, 3.0]);

    assert_eq!(2.0, delay.sample(1));
    assert_eq!(3, delay.len());
}

#[test]
fn delay_buffer_get() {
    let mut delay = Delay::from_ring_buffer(vec![1.0f32, 2.0, 3.0]);

    let mut out_buffer = vec![0.0; 3];
    delay.get(3, &mut out_buffer);
    assert_eq!(vec![1.0, 2.0, 3.0], out_buffer);

    delay.get(2, &mut out_buffer[1..]);
    assert_eq!(vec![1.0, 1.0, 2.0], out_buffer);

    delay.get(2, &mut out_buffer[1..]);
    assert_eq!(vec![1.0, 3.0, 1.0], out_buffer);
}

#[test]
fn delay_buffer_put() {
    let mut delay = Delay::from_ring_buffer(vec![1.0f32, 2.0, 3.0]);

    delay.put(2, &[4.0, 5.0]);
    let ring: Vec<f32> = (0..delay.len()).map(|i| delay.sample(i)).collect();
    assert_eq!([4.0, 5.0, 3.0], ring[..]);

    delay.put(2, &[6.0, 7.0]);
    let ring: Vec<f32> = (0..delay.len()).map(|i| delay.sample(i)).collect();
    assert_eq!([7.0, 5.0, 6.0], ring[..]);
}

#[test]
fn delay_new_is_silent() {
    let delay = Delay::new(2, 3, 0.0f32);
    assert_eq!(5, delay.len());
    for i in 0..5 {
        assert_eq!(0.0, delay.sample(i));
    }
}

#[test]
fn delay_reads_back_what_was_put() {
    let mut delay = Delay::new(3, 2, 0.0f32);
    let mut out = vec![0.0f32; 4];

    delay.put(4, &[1.0, 2.0, 3.0, 4.0]);
    delay.get(4, &mut out);
    assert_eq!(vec![1.0, 2.0, 3.0, 4.0], out);

    // The next frame wraps around the end of the five-sample ring.
    delay.put(4, &[5.0, 6.0, 7.0, 8.0]);
    delay.get(4, &mut out);
    assert_eq!(vec![5.0, 6.0, 7.0, 8.0], out);
}

#[test]
fn delay_put_longer_than_ring_keeps_last_writes() {
    let mut delay = Delay::from_ring_buffer(vec![0i32, 0, 0]);
    delay.put(5, &[1, 2, 3, 4, 5]);
    let ring: Vec<i32> = (0..delay.len()).map(|i| delay.sample(i)).collect();
    assert_eq!(vec![4, 5, 3], ring);
}

#[test]
fn delay_get4_and_put4_wrap() {
    let mut delay = Delay::from_ring_buffer(vec![1i32, 2, 3, 4, 5, 6]);
    assert_eq!([1, 2, 3, 4], delay.get4());
    assert_eq!([5, 6, 1, 2], delay.get4());
    assert_eq!([3, 4, 5, 6], delay.get4());

    delay.put4(&[10, 11, 12, 13]);
    delay.put4(&[14, 15, 16, 17]);
    let ring: Vec<i32> = (0..delay.len()).map(|i| delay.sample(i)).collect();
    assert_eq!(vec![16, 17, 12, 13, 14, 15], ring);
}

#[test]
fn delay_get4_on_short_ring_repeats() {
    let mut delay = Delay::from_ring_buffer(vec![7i32, 8, 9]);
    assert_eq!([7, 8, 9, 7], delay.get4());
    assert_eq!([8, 9, 7, 8], delay.get4());

    let mut short = Delay::from_ring_buffer(vec![0i32, 0]);
    short.put4(&[1, 2, 3, 4]);
    assert_eq!(3, short.sample(0));
    assert_eq!(4, short.sample(1));
}

#[test]
fn delay_reset_keeps_positions() {
    let mut delay = Delay::from_ring_buffer(vec![1.0f32, 2.0, 3.0, 4.0]);
    let mut out = vec![0.0f32; 2];
    delay.get(2, &mut out);
    delay.reset(0.0);
    for i in 0..4 {
        assert_eq!(0.0, delay.sample(i));
    }
    delay.put(2, &[9.0, 8.0]);
    // The read position stayed at 2, the write position at 0.
    delay.get(2, &mut out);
    assert_eq!(vec![0.0, 0.0], out);
    delay.get(2, &mut out);
    assert_eq!(vec![9.0, 8.0], out);
}

#[test]
fn delay_read_ending_at_ring_end() {
    let mut delay = Delay::from_ring_buffer(vec![1i32, 2, 3, 4]);
    let mut out = vec![0i32; 4];
    delay.get(4, &mut out);
    assert_eq!(vec![1, 2, 3, 4], out);
    // The read position now equals the ring's length; the next read starts over.
    let mut two = vec![0i32; 2];
    delay.get(2, &mut two);
    assert_eq!(vec![1, 2], two);
}
