use crate::dsp::audio_buffer::AudioEffectState;
use rand::TryRngCore;
use vstd::prelude::*;

verus! {

/// Number of feedback delay lines of the reverb.
pub const NUM_DELAYS: usize = 16;

/// Draws a `u32` from the operating system's random source.
///
/// Wraps `TryRngCore::try_next_u32` of `rand::rngs::OsRng`, which reports a failure of the
/// source as an error instead of panicking; the error becomes `None`. Nothing is claimed of
/// the value drawn.
#[verifier::external_body]
fn os_random_u32() -> (value: Option<u32>) {
    match rand::rngs::OsRng.try_next_u32() {
        Ok(value) => Some(value),
        Err(_) => None,
    }
}

/// The random part of the length of each feedback delay line from sixteen random draws:
/// each draw reduced modulo `101`.
pub fn delay_offsets_from_draws(draws: [u16; 16]) -> (offsets: [i32; 16])
    ensures
        forall|i: int| 0 <= i < NUM_DELAYS ==> #[trigger] offsets[i] == draws[i] as i32 % 101,
{
    let mut offsets: [i32; 16] = [0; 16];
    let mut i: usize = 0;
    while i < NUM_DELAYS
        invariant
            i <= NUM_DELAYS,
            forall|j: int| 0 <= j < i ==> #[trigger] offsets[j] == draws[j] as i32 % 101,
        decreases NUM_DELAYS - i,
    {
        offsets[i] = (draws[i] as i32) % 101;
        i += 1;
    }
    offsets
}

/// Draws the random part of the length of each feedback delay line from `draw`, a source
/// of random `u32`s that may fail: one call of `draw` per line, in line order, each value
/// cut to its low half (a random `u16`) and reduced modulo `101`. Gives `None` as soon as a
/// call fails.
pub fn draw_delay_offsets<F: Fn() -> Option<u32>>(draw: F) -> (offsets: Option<[i32; 16]>)
    requires
        call_requires(draw, ()),
    ensures
        offsets matches Some(o) ==> exists|drawn: Seq<u32>|
            #![trigger drawn.len()]
            drawn.len() == NUM_DELAYS && forall|i: int|
                0 <= i < NUM_DELAYS ==> call_ensures(draw, (), Some(#[trigger] drawn[i])) && o[i]
                    == (drawn[i] as u16) as i32 % 101,
        offsets matches Some(o) ==> forall|i: int| 0 <= i < NUM_DELAYS ==> 0 <= #[trigger] o[i]
            <= 100,
{
    let mut draws: [u16; 16] = [0; 16];
    let ghost mut drawn: Seq<u32> = Seq::empty();
    let mut i: usize = 0;
    while i < NUM_DELAYS
        invariant
            i <= NUM_DELAYS,
            call_requires(draw, ()),
            drawn.len() == i,
            forall|j: int| 0 <= j < i ==> call_ensures(draw, (), Some(#[trigger] drawn[j])),
            forall|j: int| 0 <= j < i ==> #[trigger] draws[j] == drawn[j] as u16,
        decreases NUM_DELAYS - i,
    {
        match draw() {
            Some(value) => {
                draws[i] = #[verifier::truncate] (value as u16);
                proof {
                    drawn = drawn.push(value);
                }
            },
            None => {
                return None;
            },
        }
        i += 1;
    }
    let offsets = delay_offsets_from_draws(draws);
    assert(drawn.len() == NUM_DELAYS && forall|k: int|
        0 <= k < NUM_DELAYS ==> call_ensures(draw, (), Some(#[trigger] drawn[k])) && offsets[k]
            == (drawn[k] as u16) as i32 % 101);
    Some(offsets)
}

/// `value` is a value that a successful draw from the operating system's random source can
/// give back.
pub closed spec fn drawn_from_os(value: u32) -> bool {
    call_ensures(os_random_u32, (), Some(value))
}

/// Draws the random part of the length of each feedback delay line from the operating
/// system's random source: `draw_delay_offsets` with that source, so every line gets a draw
/// of its own. Gives `None` when the random source fails.
pub fn random_delay_offsets() -> (offsets: Option<[i32; 16]>)
    ensures
        offsets matches Some(o) ==> exists|drawn: Seq<u32>|
            #![trigger drawn.len()]
            drawn.len() == NUM_DELAYS && forall|i: int|
                0 <= i < NUM_DELAYS ==> drawn_from_os(#[trigger] drawn[i]) && o[i] == (drawn[i] as u16) as i32 % 101,
        offsets matches Some(o) ==> forall|i: int| 0 <= i < NUM_DELAYS ==> 0 <= #[trigger] o[i]
            <= 100,
{
    draw_delay_offsets(os_random_u32)
}

/// Whether an effect with `num_tail_frames_remaining` frames of tail left still has a tail.
pub fn tail_state(num_tail_frames_remaining: i32) -> (state: AudioEffectState)
    ensures
        (state == AudioEffectState::TailRemaining) == (num_tail_frames_remaining > 0),
        (state == AudioEffectState::TailComplete) == (num_tail_frames_remaining <= 0),
{
    if num_tail_frames_remaining > 0 {
        AudioEffectState::TailRemaining
    } else {
        AudioEffectState::TailComplete
    }
}

/// One frame of tail output: one frame fewer remains, and the tail goes on while frames
/// remain.
pub fn tail_frame_step(num_tail_frames_remaining: i32) -> (step: (i32, AudioEffectState))
    requires
        num_tail_frames_remaining > i32::MIN,
    ensures
        step.0 == num_tail_frames_remaining - 1,
        (step.1 == AudioEffectState::TailRemaining) == (step.0 > 0),
        (step.1 == AudioEffectState::TailComplete) == (step.0 <= 0),
{
    let remaining = num_tail_frames_remaining - 1;
    (remaining, tail_state(remaining))
}

} // verus!
