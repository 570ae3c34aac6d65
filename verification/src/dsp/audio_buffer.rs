use vstd::arithmetic::div_mod::lemma_fundamental_div_mod;
use vstd::prelude::*;

verus! {

/// Whether an effect still has tail samples to emit after its input stopped.
pub enum AudioEffectState {
    TailRemaining,
    TailComplete,
}

/// Sampling rate and frame size shared by all effects of a pipeline.
#[derive(Debug, Copy, Clone, PartialEq, Eq, Structural)]
pub struct AudioSettings {
    pub sampling_rate: u32,
    pub frame_size: usize,
}

impl AudioSettings {
    /// Creates settings from a sampling rate (in Hz) and a frame size (in samples).
    pub fn new(sampling_rate: u32, frame_size: usize) -> (settings: Self)
        ensures
            settings.sampling_rate == sampling_rate,
            settings.frame_size == frame_size,
    {
        Self { sampling_rate, frame_size }
    }
}

/// Position of sample `sample` of channel `channel` in an interleaved layout of
/// `num_channels` channels: all channels' samples of a frame are stored together.
pub open spec fn interleaved_index(sample: int, channel: int, num_channels: int) -> int {
    sample * num_channels + channel
}

/// `data` starts with the interleaving of the first `num_samples` samples of each of the
/// `channels`: sample `i` of channel `j` sits at `data[i * channels.len() + j]`.
pub open spec fn interleaves<T>(data: Seq<T>, channels: Seq<Seq<T>>, num_samples: int) -> bool {
    forall|i: int, j: int|
        0 <= i < num_samples && 0 <= j < channels.len() ==> data[interleaved_index(
            i,
            j,
            channels.len() as int,
        )] == #[trigger] channels[j][i]
}

/// Deinterleaving undoes interleaving: two deinterleaved buffers of the same shape, `num_samples`
/// samples per channel, whose interleaving is the same data, are equal. In particular,
/// `read_interleaved` applied to what `write_interleaved` wrote gives back the channels.
pub proof fn lemma_interleaving_determines_channels<T>(
    data: Seq<T>,
    channels: Seq<Seq<T>>,
    other: Seq<Seq<T>>,
    num_samples: int,
)
    requires
        channels.len() == other.len(),
        forall|j: int| 0 <= j < channels.len() ==> #[trigger] channels[j].len() == num_samples,
        forall|j: int| 0 <= j < other.len() ==> #[trigger] other[j].len() == num_samples,
        interleaves(data, channels, num_samples),
        interleaves(data, other, num_samples),
    ensures
        channels == other,
{
    assert forall|j: int| 0 <= j < channels.len() implies #[trigger] channels[j] == other[j] by {
        assert forall|i: int| 0 <= i < num_samples implies channels[j][i] == other[j][i] by {
            assert(data[interleaved_index(i, j, channels.len() as int)] == channels[j][i]);
            assert(data[interleaved_index(i, j, other.len() as int)] == other[j][i]);
        }
        assert(channels[j] =~= other[j]);
    }
    assert(channels =~= other);
}

/// Interleaving undoes deinterleaving: two sequences that both interleave the same channels,
/// `num_samples` samples each, agree on their first `num_samples * channels.len()` positions.
/// In particular, `write_interleaved` applied to what `read_interleaved` filled from some data
/// gives back that data's first frames.
pub proof fn lemma_channels_determine_interleaving<T>(
    data: Seq<T>,
    other: Seq<T>,
    channels: Seq<Seq<T>>,
    num_samples: int,
)
    requires
        num_samples >= 0,
        interleaves(data, channels, num_samples),
        interleaves(other, channels, num_samples),
    ensures
        forall|p: int| 0 <= p < num_samples * channels.len() ==> #[trigger] data[p] == other[p],
{
    let c = channels.len() as int;
    assert forall|p: int| 0 <= p < num_samples * c implies #[trigger] data[p] == other[p] by {
        assert(c > 0) by (nonlinear_arith)
            requires
                0 <= p < num_samples * c,
                num_samples >= 0,
                c >= 0,
        ;
        lemma_fundamental_div_mod(p, c);
        let i = p / c;
        let j = p % c;
        assert(i < num_samples) by (nonlinear_arith)
            requires
                p == c * i + j,
                0 <= j < c,
                p < num_samples * c,
        ;
        assert(0 <= i) by (nonlinear_arith)
            requires
                p == c * i + j,
                j < c,
                p >= 0,
                c > 0,
        ;
        assert(i * c + j == p) by (nonlinear_arith)
            requires
                p == c * i + j,
        ;
        assert(interleaved_index(i, j, c) == p);
        assert(data[interleaved_index(i, j, c)] == channels[j][i]);
        assert(other[interleaved_index(i, j, c)] == channels[j][i]);
    }
}

proof fn lemma_interleaved_index_bounds(sample: int, channel: int, num_channels: int, num_samples: int)
    requires
        0 <= sample < num_samples,
        0 <= channel < num_channels,
    ensures
        0 <= interleaved_index(sample, channel, num_channels) < num_samples * num_channels,
        interleaved_index(sample, channel, num_channels) + 1 == if channel + 1 < num_channels {
            interleaved_index(sample, channel + 1, num_channels)
        } else {
            interleaved_index(sample + 1, 0, num_channels)
        },
{
    assert(0 <= sample * num_channels + channel < num_samples * num_channels) by (nonlinear_arith)
        requires
            0 <= sample < num_samples,
            0 <= channel < num_channels,
    ;
    assert((sample + 1) * num_channels == sample * num_channels + num_channels)
        by (nonlinear_arith);
}

/// Distinct (sample, channel) pairs occupy distinct interleaved positions.
proof fn lemma_interleaved_index_injective(s1: int, c1: int, s2: int, c2: int, num_channels: int)
    requires
        0 <= c1 < num_channels,
        0 <= c2 < num_channels,
        0 <= s1,
        0 <= s2,
        interleaved_index(s1, c1, num_channels) == interleaved_index(s2, c2, num_channels),
    ensures
        s1 == s2,
        c1 == c2,
{
    if s1 < s2 {
        assert(s1 * num_channels + num_channels <= s2 * num_channels) by (nonlinear_arith)
            requires
                s1 < s2,
                num_channels > 0,
        ;
    } else if s2 < s1 {
        assert(s2 * num_channels + num_channels <= s1 * num_channels) by (nonlinear_arith)
            requires
                s2 < s1,
                num_channels > 0,
        ;
    }
}

/// Number of channels of a deinterleaved buffer given as one slice per channel.
pub fn num_channels<T>(buffer: &[&[T]]) -> (n: usize)
    ensures
        n == buffer@.len(),
{
    buffer.len()
}

/// Number of samples of a deinterleaved buffer, read from its first channel.
pub fn num_samples<T>(buffer: &[&[T]]) -> (n: usize)
    requires
        buffer@.len() > 0,
    ensures
        n == buffer@[0]@.len(),
{
    buffer[0].len()
}

/// Writes a deinterleaved buffer into `target` in interleaved order: sample `i` of channel
/// `j` goes to `target[i * num_channels + j]`; the positions after the last frame are left
/// as they were.
pub fn write_interleaved<T: Copy>(buffer: &[&[T]], target: &mut [T])
    requires
        buffer@.len() > 0,
        forall|j: int| 0 <= j < buffer@.len() ==> #[trigger] buffer@[j]@.len() >= buffer@[0]@.len(),
        buffer@[0]@.len() * buffer@.len() <= old(target)@.len(),
    ensures
        final(target)@.len() == old(target)@.len(),
        interleaves(
            final(target)@,
            buffer@.map_values(|channel: &[T]| channel@),
            buffer@[0]@.len() as int,
        ),
        forall|p: int|
            buffer@[0]@.len() * buffer@.len() <= p < old(target)@.len() ==> final(target)@[p]
                == old(target)@[p],
{
    let num_channels = buffer.len();
    let num_samples = buffer[0].len();
    let ghost nc = num_channels as int;
    let ghost ns = num_samples as int;
    let mut index: usize = 0;
    let mut i: usize = 0;
    while i < num_samples
        invariant
            i <= num_samples,
            num_channels == buffer@.len(),
            num_samples == buffer@[0]@.len(),
            nc == num_channels,
            ns == num_samples,
            num_channels > 0,
            forall|j: int| 0 <= j < buffer@.len() ==> #[trigger] buffer@[j]@.len() >= num_samples,
            ns * nc <= old(target)@.len(),
            target@.len() == old(target)@.len(),
            index == interleaved_index(i as int, 0, nc),
            forall|a: int, b: int|
                0 <= a < i && 0 <= b < nc ==> target@[interleaved_index(a, b, nc)]
                    == #[trigger] buffer@[b]@[a],
            forall|p: int| index <= p < target@.len() ==> target@[p] == old(target)@[p],
        decreases num_samples - i,
    {
        let mut j: usize = 0;
        while j < num_channels
            invariant
                i < num_samples,
                j <= num_channels,
                num_channels == buffer@.len(),
                num_samples == buffer@[0]@.len(),
                nc == num_channels,
                ns == num_samples,
                num_channels > 0,
                forall|b: int| 0 <= b < buffer@.len() ==> #[trigger] buffer@[b]@.len() >= num_samples,
                ns * nc <= old(target)@.len(),
                target@.len() == old(target)@.len(),
                index == interleaved_index(i as int, j as int, nc),
                forall|a: int, b: int|
                    0 <= a < i && 0 <= b < nc ==> target@[interleaved_index(a, b, nc)]
                        == #[trigger] buffer@[b]@[a],
                forall|b: int|
                    0 <= b < j ==> target@[interleaved_index(i as int, b, nc)]
                        == #[trigger] buffer@[b]@[i as int],
                forall|p: int| index <= p < target@.len() ==> target@[p] == old(target)@[p],
            decreases num_channels - j,
        {
            proof {
                lemma_interleaved_index_bounds(i as int, j as int, nc, ns);
            }
            let ghost before = target@;
            target[index] = buffer[j][i];
            assert forall|a: int, b: int|
                0 <= a < i && 0 <= b < nc implies target@[interleaved_index(a, b, nc)]
                    == #[trigger] buffer@[b]@[a] by {
                lemma_interleaved_index_bounds(a, b, nc, ns);
                if interleaved_index(a, b, nc) == index {
                    lemma_interleaved_index_injective(a, b, i as int, j as int, nc);
                }
                assert(before[interleaved_index(a, b, nc)] == buffer@[b]@[a]);
            }
            assert forall|b: int|
                0 <= b < j implies target@[interleaved_index(i as int, b, nc)]
                    == #[trigger] buffer@[b]@[i as int] by {
                lemma_interleaved_index_bounds(i as int, b, nc, ns);
                if b < j {
                    assert(before[interleaved_index(i as int, b, nc)] == buffer@[b]@[i as int]);
                }
            }
            index += 1;
            j += 1;
        }
        proof {
            assert(interleaved_index(i as int, nc, nc) == interleaved_index(i as int + 1, 0, nc))
                by (nonlinear_arith);
        }
        i += 1;
    }
}

/// Owned deinterleaved audio buffer: one vector of samples per channel, every channel
/// holding the same number of samples.
pub struct ScratchBuffer<T> {
    channels: Vec<Vec<T>>,
}

impl<T> View for ScratchBuffer<T> {
    type V = Seq<Seq<T>>;

    /// The samples of each channel.
    closed spec fn view(&self) -> Seq<Seq<T>> {
        self.channels@.map_values(|channel: Vec<T>| channel@)
    }
}

impl<T> ScratchBuffer<T> {
    /// Every channel holds as many samples as the first: every buffer keeps this.
    #[verifier::type_invariant]
    spec fn channels_equal_length(self) -> bool {
        forall|j: int|
            0 <= j < self.channels@.len() ==> #[trigger] self.channels@[j]@.len()
                == self.channels@[0]@.len()
    }
}

impl<T: Copy> ScratchBuffer<T> {
    /// Every channel holds the same number of samples. Every buffer keeps this as its type
    /// invariant; the constructor, the accessors and every operation state it for callers.
    pub open spec fn wf(&self) -> bool {
        forall|j: int| 0 <= j < self@.len() ==> #[trigger] self@[j].len() == self@[0].len()
    }

    /// Creates a buffer of `num_channels` channels of `num_samples` samples, all equal to
    /// `silence`.
    pub fn new(num_channels: usize, num_samples: usize, silence: T) -> (buffer: Self)
        ensures
            buffer.wf(),
            buffer@ == Seq::new(
                num_channels as nat,
                |j: int| Seq::new(num_samples as nat, |i: int| silence),
            ),
    {
        let mut channels: Vec<Vec<T>> = Vec::new();
        let mut j: usize = 0;
        while j < num_channels
            invariant
                j <= num_channels,
                channels@.len() == j,
                forall|c: int|
                    0 <= c < j ==> (#[trigger] channels@[c])@ == Seq::new(
                        num_samples as nat,
                        |i: int| silence,
                    ),
            decreases num_channels - j,
        {
            let mut channel: Vec<T> = Vec::new();
            let mut i: usize = 0;
            while i < num_samples
                invariant
                    i <= num_samples,
                    channel@ == Seq::new(i as nat, |k: int| silence),
                decreases num_samples - i,
            {
                channel.push(silence);
                i += 1;
            }
            channels.push(channel);
            j += 1;
        }
        let buffer = Self { channels };
        assert(buffer@ =~= Seq::new(
            num_channels as nat,
            |j: int| Seq::new(num_samples as nat, |i: int| silence),
        ));
        buffer
    }

    /// Number of channels.
    pub fn num_channels(&self) -> (n: usize)
        ensures
            n == self@.len(),
            self.wf(),
    {
        proof {
            use_type_invariant(self);
            assert(forall|j: int| 0 <= j < self@.len() ==> #[trigger] self@[j] == self.channels@[j]@);
        }
        self.channels.len()
    }

    /// Number of samples of each channel, read from the first channel.
    pub fn num_samples(&self) -> (n: usize)
        requires
            self@.len() > 0,
        ensures
            n == self@[0].len(),
            self.wf(),
    {
        proof {
            use_type_invariant(self);
            assert(forall|j: int| 0 <= j < self@.len() ==> #[trigger] self@[j] == self.channels@[j]@);
        }
        self.channels[0].len()
    }

    /// The samples of channel `channel`.
    pub fn channel(&self, channel: usize) -> (samples: &[T])
        requires
            channel < self@.len(),
        ensures
            samples@ == self@[channel as int],
    {
        self.channels[channel].as_slice()
    }

    /// One slice per channel, in channel order.
    pub fn as_ref(&self) -> (slices: Vec<&[T]>)
        ensures
            slices@.len() == self@.len(),
            forall|j: int| 0 <= j < self@.len() ==> (#[trigger] slices@[j])@ == self@[j],
    {
        let mut slices: Vec<&[T]> = Vec::new();
        let mut j: usize = 0;
        while j < self.channels.len()
            invariant
                j <= self@.len(),
                self@.len() == self.channels@.len(),
                slices@.len() == j,
                forall|c: int| 0 <= c < j ==> (#[trigger] slices@[c])@ == self@[c],
            decreases self.channels@.len() - j,
        {
            slices.push(self.channels[j].as_slice());
            j += 1;
        }
        slices
    }

    /// Sample `index` of channel `channel`.
    pub fn sample(&self, channel: usize, index: usize) -> (s: T)
        requires
            channel < self@.len(),
            index < self@[channel as int].len(),
        ensures
            s == self@[channel as int][index as int],
    {
        self.channels[channel][index]
    }

    /// Sets sample `index` of channel `channel` to `value`; every other sample is kept.
    pub fn set_sample(&mut self, channel: usize, index: usize, value: T)
        requires
            channel < old(self)@.len(),
            index < old(self)@[channel as int].len(),
        ensures
            final(self).wf(),
            final(self)@ == old(self)@.update(
                channel as int,
                old(self)@[channel as int].update(index as int, value),
            ),
    {
        proof {
            use_type_invariant(&*self);
        }
        // The channels are written while out of the buffer, which meanwhile holds none.
        let mut channels: Vec<Vec<T>> = Vec::new();
        std::mem::swap(&mut channels, &mut self.channels);
        let ghost old_channels = channels@;
        channels[channel][index] = value;
        assert forall|j: int| 0 <= j < channels@.len() implies #[trigger] channels@[j]@.len()
            == channels@[0]@.len() by {
            assert(old_channels[j]@.len() == old_channels[0]@.len());
        }
        self.channels = channels;
        assert(self@ =~= old(self)@.update(
            channel as int,
            old(self)@[channel as int].update(index as int, value),
        ));
    }

    /// Sets every sample of every channel to `silence`.
    pub fn make_silent(&mut self, silence: T)
        ensures
            final(self).wf(),
            final(self)@.len() == old(self)@.len(),
            forall|j: int|
                0 <= j < old(self)@.len() ==> (#[trigger] final(self)@[j]) == Seq::new(
                    old(self)@[j].len(),
                    |i: int| silence,
                ),
    {
        proof {
            use_type_invariant(&*self);
        }
        // The channels are written while out of the buffer, which meanwhile holds none.
        let mut channels: Vec<Vec<T>> = Vec::new();
        std::mem::swap(&mut channels, &mut self.channels);
        let num_channels = channels.len();
        let ghost old_channels = channels@;
        let mut j: usize = 0;
        while j < num_channels
            invariant
                j <= num_channels,
                num_channels == old_channels.len(),
                channels@.len() == old_channels.len(),
                forall|c: int|
                    0 <= c < j ==> (#[trigger] channels@[c])@ == Seq::new(
                        old_channels[c]@.len(),
                        |i: int| silence,
                    ),
                forall|c: int| j <= c < num_channels ==> #[trigger] channels@[c] == old_channels[c],
            decreases num_channels - j,
        {
            let len = channels[j].len();
            let mut i: usize = 0;
            while i < len
                invariant
                    j < num_channels,
                    num_channels == old_channels.len(),
                    channels@.len() == old_channels.len(),
                    i <= len,
                    len == old_channels[j as int]@.len(),
                    channels@[j as int]@.len() == len,
                    forall|k: int| 0 <= k < i ==> channels@[j as int]@[k] == silence,
                    forall|c: int|
                        0 <= c < j ==> (#[trigger] channels@[c])@ == Seq::new(
                            old_channels[c]@.len(),
                            |i: int| silence,
                        ),
                    forall|c: int|
                        j < c < num_channels ==> #[trigger] channels@[c] == old_channels[c],
                decreases len - i,
            {
                channels[j][i] = silence;
                i += 1;
            }
            assert(channels@[j as int]@ =~= Seq::new(
                old_channels[j as int]@.len(),
                |i: int| silence,
            ));
            j += 1;
        }
        assert forall|c: int| 0 <= c < channels@.len() implies #[trigger] channels@[c]@.len()
            == channels@[0]@.len() by {
            assert(old_channels[c]@.len() == old_channels[0]@.len());
        }
        self.channels = channels;
        assert(forall|c: int| 0 <= c < num_channels ==> #[trigger] self@[c] == self.channels@[c]@);
        assert(forall|c: int| 0 <= c < num_channels ==> #[trigger] old(self)@[c] == old_channels[c]@);
        assert(forall|c: int| 0 <= c < num_channels ==> (#[trigger] self@[c]).len() == old(self)@[c].len());
    }

    /// Fills the buffer from the interleaved samples of `source[0]`: sample `i` of channel
    /// `j` becomes `source[0][i * num_channels + j]`.
    pub fn read_interleaved(&mut self, source: &[&[T]])
        requires
            old(self)@.len() > 0,
            old(self)@[0].len() > 0 ==> source@.len() > 0 && old(self)@[0].len() * old(
                self,
            )@.len() <= source@[0]@.len(),
        ensures
            final(self).wf(),
            final(self)@.len() == old(self)@.len(),
            forall|j: int| 0 <= j < old(self)@.len() ==> (#[trigger] final(self)@[j]).len() == old(self)@[0].len(),
            old(self)@[0].len() > 0 ==> interleaves(
                source@[0]@,
                final(self)@,
                old(self)@[0].len() as int,
            ),
    {
        proof {
            use_type_invariant(&*self);
        }
        // The channels are written while out of the buffer, which meanwhile holds none.
        let mut channels: Vec<Vec<T>> = Vec::new();
        std::mem::swap(&mut channels, &mut self.channels);
        let num_channels = channels.len();
        let num_samples = channels[0].len();
        let ghost nc = num_channels as int;
        let ghost ns = num_samples as int;
        let ghost old_channels = channels@;
        assert(forall|c: int| 0 <= c < nc ==> #[trigger] old(self)@[c] == old_channels[c]@);
        assert forall|c: int| 0 <= c < nc implies (#[trigger] channels@[c])@.len() == ns by {
            assert(old(self)@[c].len() == old(self)@[0].len());
        }
        let mut index: usize = 0;
        let mut i: usize = 0;
        while i < num_samples
            invariant
                i <= num_samples,
                nc == num_channels,
                ns == num_samples,
                num_channels == old_channels.len(),
                num_channels > 0,
                num_samples > 0 ==> source@.len() > 0 && ns * nc <= source@[0]@.len(),
                channels@.len() == num_channels,
                forall|c: int| 0 <= c < nc ==> (#[trigger] channels@[c])@.len() == ns,
                index == interleaved_index(i as int, 0, nc),
                forall|a: int, b: int|
                    0 <= a < i && 0 <= b < nc ==> #[trigger] channels@[b]@[a]
                        == source@[0]@[interleaved_index(a, b, nc)],
            decreases num_samples - i,
        {
            let mut j: usize = 0;
            while j < num_channels
                invariant
                    i < num_samples,
                    j <= num_channels,
                    nc == num_channels,
                    ns == num_samples,
                    num_channels > 0,
                    source@.len() > 0,
                    ns * nc <= source@[0]@.len(),
                    channels@.len() == num_channels,
                    forall|c: int| 0 <= c < nc ==> (#[trigger] channels@[c])@.len() == ns,
                    index == interleaved_index(i as int, j as int, nc),
                    forall|a: int, b: int|
                        0 <= a < i && 0 <= b < nc ==> #[trigger] channels@[b]@[a]
                            == source@[0]@[interleaved_index(a, b, nc)],
                    forall|b: int|
                        0 <= b < j ==> #[trigger] channels@[b]@[i as int]
                            == source@[0]@[interleaved_index(i as int, b, nc)],
                decreases num_channels - j,
            {
                proof {
                    lemma_interleaved_index_bounds(i as int, j as int, nc, ns);
                }
                let value = source[0][index];
                channels[j][i] = value;
                index += 1;
                j += 1;
            }
            proof {
                assert(interleaved_index(i as int, nc, nc) == interleaved_index(i as int + 1, 0, nc))
                    by (nonlinear_arith);
            }
            i += 1;
        }
        self.channels = channels;
        assert(forall|c: int| 0 <= c < nc ==> #[trigger] self@[c] == self.channels@[c]@);
    }
}

} // verus!
