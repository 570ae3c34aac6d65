use vstd::arithmetic::div_mod::{
    lemma_add_mod_noop, lemma_fundamental_div_mod, lemma_mod_add_multiples_vanish, lemma_small_mod,
};
use vstd::prelude::*;

verus! {

/// The `n` samples read from the ring `buf` starting at position `start`:
/// the `k`-th one is the sample at `(start + k) mod buf.len()`.
pub open spec fn ring_read<T>(buf: Seq<T>, start: int, n: int) -> Seq<T> {
    Seq::new(n as nat, |k: int| buf[(start + k) % (buf.len() as int)])
}

/// The ring `buf` after writing the samples of `input` one by one, the `k`-th at position
/// `(start + k) mod buf.len()`; a later write to a position overrides an earlier one.
pub open spec fn ring_write<T>(buf: Seq<T>, start: int, input: Seq<T>) -> Seq<T>
    decreases input.len(),
{
    if input.len() == 0 {
        buf
    } else {
        ring_write(buf, start, input.drop_last()).update(
            (start + input.len() - 1) % (buf.len() as int),
            input.last(),
        )
    }
}

/// Read position after a `get` of `n` samples from position `position` of a ring of length
/// `len`: a read ending exactly at the end of the ring leaves the position at `len`.
pub open spec fn next_read_position(position: int, n: int, len: int) -> int {
    if position + n <= len {
        position + n
    } else {
        position + n - len
    }
}

/// Write position after a `put` of `n` samples at position `position` of a ring of length
/// `len`: a write ending exactly at the end of the ring moves the position back to `0`.
pub open spec fn next_write_position(position: int, n: int, len: int) -> int {
    if position + n < len {
        position + n
    } else if position + n == len {
        0
    } else {
        position + n - len
    }
}

/// For `0 <= x < 2 * m`, reducing `x` modulo `m` subtracts `m` at most once.
proof fn lemma_mod_once(x: int, m: int)
    requires
        m > 0,
        0 <= x < 2 * m,
    ensures
        x % m == (if x < m { x } else { x - m }),
{
    if x < m {
        lemma_small_mod(x as nat, m as nat);
    } else {
        lemma_mod_add_multiples_vanish(x - m, m);
        lemma_small_mod((x - m) as nat, m as nat);
    }
}

/// Advancing a position by one and wrapping at `m` tracks `(x + 1) mod m`.
proof fn lemma_mod_step(x: int, m: int)
    requires
        m > 0,
        x >= 0,
    ensures
        (x + 1) % m == (if x % m + 1 < m { x % m + 1 } else { 0 }),
{
    lemma_add_mod_noop(x, 1, m);
    let r = x % m;
    assert(0 <= r < m);
    if m == 1 {
        assert(r == 0);
        assert(1int % 1int == 0) by {
            lemma_mod_add_multiples_vanish(0, 1);
            lemma_small_mod(0, 1);
        }
    } else {
        lemma_small_mod(1, m as nat);
        lemma_mod_once(r + 1, m);
    }
}

/// One step of `ring_write`: writing one more sample updates one position.
proof fn lemma_ring_write_step<T>(buf: Seq<T>, start: int, input: Seq<T>, k: int)
    requires
        0 <= k < input.len(),
    ensures
        ring_write(buf, start, input.take(k + 1)) == ring_write(buf, start, input.take(k)).update(
            (start + k) % (buf.len() as int),
            input[k],
        ),
{
    assert(input.take(k + 1).drop_last() =~= input.take(k));
}

/// Writing into the ring never changes its length.
pub proof fn lemma_ring_write_len<T>(buf: Seq<T>, start: int, input: Seq<T>)
    requires
        buf.len() > 0,
    ensures
        ring_write(buf, start, input).len() == buf.len(),
    decreases input.len(),
{
    if input.len() > 0 {
        lemma_ring_write_len(buf, start, input.drop_last());
    }
}

/// Two positions less than `m` apart but distinct fall on distinct ring slots.
proof fn lemma_mod_distinct(a: int, b: int, m: int)
    requires
        m > 0,
        0 <= a < b < a + m,
    ensures
        a % m != b % m,
{
    lemma_fundamental_div_mod(a, m);
    lemma_fundamental_div_mod(b, m);
    if a % m == b % m {
        let q = b / m - a / m;
        assert(b - a == m * q) by (nonlinear_arith)
            requires
                a == m * (a / m) + a % m,
                b == m * (b / m) + b % m,
                a % m == b % m,
                q == b / m - a / m,
        ;
        assert(false) by (nonlinear_arith)
            requires
                b - a == m * q,
                0 < b - a < m,
                m > 0,
        ;
    }
}

/// Positions that agree modulo `m` stay in agreement after moving both by `k`.
proof fn lemma_mod_shift(a: int, b: int, k: int, m: int)
    requires
        m > 0,
        a % m == b % m,
    ensures
        (a + k) % m == (b + k) % m,
{
    lemma_add_mod_noop(a, k, m);
    lemma_add_mod_noop(b, k, m);
}

/// Read-after-write: reading `input.len()` samples (at most the ring's length) from a read
/// position that agrees, modulo the ring's length, with the position at which `input` was
/// written yields exactly `input`.
pub proof fn lemma_get_returns_put<T>(buf: Seq<T>, write_position: int, read_position: int, input: Seq<T>)
    requires
        buf.len() > 0,
        0 <= write_position,
        0 <= read_position,
        read_position % (buf.len() as int) == write_position % (buf.len() as int),
        input.len() <= buf.len(),
    ensures
        ring_write(buf, write_position, input).len() == buf.len(),
        ring_read(ring_write(buf, write_position, input), read_position, input.len() as int)
            == input,
    decreases input.len(),
{
    let m = buf.len() as int;
    let n = input.len() as int;
    if n > 0 {
        let init = input.drop_last();
        lemma_get_returns_put(buf, write_position, read_position, init);
        lemma_ring_write_len(buf, write_position, init);
        let written = ring_write(buf, write_position, input);
        assert forall|k: int| 0 <= k < n implies #[trigger] written[(read_position + k) % m]
            == input[k] by {
            lemma_mod_shift(read_position, write_position, k, m);
            if k < n - 1 {
                lemma_mod_distinct(write_position + k, write_position + n - 1, m);
                assert(ring_read(ring_write(buf, write_position, init), read_position, n - 1)[k]
                    == init[k]);
            }
        }
        assert(ring_read(written, read_position, n) =~= input);
    }
    lemma_ring_write_len(buf, write_position, input);
}

/// After a `put` and a `get` of the same number of samples, a write position and a read
/// position that agreed modulo the ring's length still agree.
pub proof fn lemma_positions_stay_aligned(write_position: int, read_position: int, n: int, len: int)
    requires
        len > 0,
        0 <= write_position <= len,
        0 <= read_position <= len,
        write_position % len == read_position % len,
        1 <= n,
        write_position + n <= 2 * len,
        read_position + n <= 2 * len,
    ensures
        next_write_position(write_position, n, len) % len == next_read_position(
            read_position,
            n,
            len,
        ) % len,
{
    lemma_mod_shift(write_position, read_position, n, len);
    lemma_mod_shift(write_position + n, read_position + n, -len, len);
    lemma_mod_add_multiples_vanish(write_position + n - len, len);
    lemma_mod_add_multiples_vanish(read_position + n - len, len);
    if write_position + n == len {
        lemma_mod_add_multiples_vanish(0, len);
        lemma_small_mod(0, len as nat);
    }
}

/// A delay line: a ring buffer of samples with independent write (`put`) and read
/// (`get`) positions.
pub struct Delay<T> {
    ring_buffer: Vec<T>,
    cursor: usize,
    read_cursor: usize,
}

impl<T> Delay<T> {
    /// Both positions lie within the ring (a position may equal its length): every delay
    /// line keeps this.
    #[verifier::type_invariant]
    spec fn positions_in_ring(self) -> bool {
        &&& self.cursor <= self.ring_buffer@.len()
        &&& self.read_cursor <= self.ring_buffer@.len()
    }
}

impl<T: Copy> Delay<T> {
    /// The samples held by the ring, in storage order.
    pub closed spec fn buffer(&self) -> Seq<T> {
        self.ring_buffer@
    }

    /// Position of the next write.
    pub closed spec fn write_position(&self) -> nat {
        self.cursor as nat
    }

    /// Position of the next read.
    pub closed spec fn read_position(&self) -> nat {
        self.read_cursor as nat
    }

    /// Both positions lie within the ring (a position may equal its length). Every delay line
    /// keeps this as its type invariant; the constructors, the accessors and every operation
    /// state it for callers.
    pub open spec fn wf(&self) -> bool {
        &&& self.write_position() <= self.buffer().len()
        &&& self.read_position() <= self.buffer().len()
    }

    /// Creates a delay line of `delay + frame_size` samples, all equal to `silence`, with
    /// both positions at the start.
    pub fn new(delay: usize, frame_size: usize, silence: T) -> (result: Self)
        requires
            delay + frame_size <= usize::MAX,
        ensures
            result.wf(),
            result.buffer() == Seq::new((delay + frame_size) as nat, |i: int| silence),
            result.write_position() == 0,
            result.read_position() == 0,
    {
        let size = delay + frame_size;
        let mut ring_buffer: Vec<T> = Vec::new();
        let mut i: usize = 0;
        while i < size
            invariant
                i <= size,
                ring_buffer@ == Seq::new(i as nat, |j: int| silence),
            decreases size - i,
        {
            ring_buffer.push(silence);
            i += 1;
        }
        Self { ring_buffer, cursor: 0, read_cursor: 0 }
    }

    /// Creates a delay line that holds `ring_buffer`, with both positions at the start.
    pub fn from_ring_buffer(ring_buffer: Vec<T>) -> (result: Self)
        ensures
            result.wf(),
            result.buffer() == ring_buffer@,
            result.write_position() == 0,
            result.read_position() == 0,
    {
        Self { ring_buffer, cursor: 0, read_cursor: 0 }
    }

    /// Number of samples the ring holds.
    pub fn len(&self) -> (n: usize)
        ensures
            n == self.buffer().len(),
            self.wf(),
    {
        proof {
            use_type_invariant(self);
        }
        self.ring_buffer.len()
    }

    /// Position of the next read.
    pub fn read_cursor(&self) -> (position: usize)
        ensures
            position == self.read_position(),
            self.wf(),
    {
        proof {
            use_type_invariant(self);
        }
        self.read_cursor
    }

    /// Position of the next write.
    pub fn write_cursor(&self) -> (position: usize)
        ensures
            position == self.write_position(),
            self.wf(),
    {
        proof {
            use_type_invariant(self);
        }
        self.cursor
    }

    /// The sample stored at position `index` of the ring.
    pub fn sample(&self, index: usize) -> (s: T)
        requires
            index < self.buffer().len(),
        ensures
            s == self.buffer()[index as int],
    {
        self.ring_buffer[index]
    }

    /// Sets every sample of the ring to `silence`; the positions stay where they are.
    pub fn reset(&mut self, silence: T)
        ensures
            final(self).wf(),
            final(self).buffer() == Seq::new(old(self).buffer().len(), |i: int| silence),
            final(self).write_position() == old(self).write_position(),
            final(self).read_position() == old(self).read_position(),
    {
        proof {
            use_type_invariant(&*self);
        }
        let len = self.ring_buffer.len();
        let mut i: usize = 0;
        while i < len
            invariant
                i <= len,
                len == self.ring_buffer@.len(),
                self.cursor <= len,
                self.read_cursor <= len,
                self.cursor as nat == old(self).write_position(),
                self.read_cursor as nat == old(self).read_position(),
                self.ring_buffer@.len() == old(self).buffer().len(),
                forall|j: int| 0 <= j < i ==> self.ring_buffer@[j] == silence,
            decreases len - i,
        {
            self.ring_buffer[i] = silence;
            i += 1;
        }
        assert(self.ring_buffer@ =~= Seq::new(old(self).buffer().len(), |i: int| silence));
    }

    /// Reads `num_samples` samples into `out`, starting at the read position, wrapping around
    /// the end of the ring, and advances the read position by `num_samples`. A read that ends
    /// exactly at the end of the ring leaves the read position equal to the ring's length.
    pub fn get(&mut self, num_samples: usize, out: &mut [T])
        requires
            old(self).buffer().len() > 0,
            num_samples >= 1,
            old(out)@.len() == num_samples,
            old(self).read_position() + num_samples <= 2 * old(self).buffer().len(),
            old(self).read_position() + num_samples - 1 <= usize::MAX,
        ensures
            final(self).wf(),
            final(out)@ == ring_read(
                old(self).buffer(),
                old(self).read_position() as int,
                num_samples as int,
            ),
            final(self).buffer() == old(self).buffer(),
            final(self).write_position() == old(self).write_position(),
            final(self).read_position() == next_read_position(
                old(self).read_position() as int,
                num_samples as int,
                old(self).buffer().len() as int,
            ),
    {
        proof {
            use_type_invariant(&*self);
        }
        let len = self.ring_buffer.len();
        let start = self.read_cursor;
        let ghost buf = self.ring_buffer@;
        if start + (num_samples - 1) < len {
            let mut k: usize = 0;
            while k < num_samples
                invariant
                    k <= num_samples,
                    start + num_samples <= len,
                    len == buf.len(),
                    self.cursor <= len,
                    self.read_cursor <= len,
                    self.ring_buffer@.len() == len,
                    self.ring_buffer@ == buf,
                    out@.len() == num_samples,
                    forall|j: int| 0 <= j < k ==> out@[j] == buf[(start + j) % (len as int)],
                decreases num_samples - k,
            {
                proof {
                    lemma_small_mod((start + k) as nat, len as nat);
                }
                out[k] = self.ring_buffer[start + k];
                k += 1;
            }
            let mut next = start + num_samples;
            if next > len {
                next -= len;
            }
            self.read_cursor = next;
        } else {
            let size1 = len - start;
            let size2 = num_samples - size1;
            let mut k: usize = 0;
            while k < size1
                invariant
                    k <= size1,
                    size1 == len - start,
                    size1 <= num_samples,
                    len == buf.len(),
                    self.cursor <= len,
                    self.read_cursor <= len,
                    self.ring_buffer@.len() == len,
                    self.ring_buffer@ == buf,
                    out@.len() == num_samples,
                    forall|j: int| 0 <= j < k ==> out@[j] == buf[(start + j) % (len as int)],
                decreases size1 - k,
            {
                proof {
                    lemma_small_mod((start + k) as nat, len as nat);
                }
                out[k] = self.ring_buffer[start + k];
                k += 1;
            }
            let mut k: usize = 0;
            while k < size2
                invariant
                    k <= size2,
                    size1 == len - start,
                    size2 == num_samples - size1,
                    size2 <= len,
                    len > 0,
                    len == buf.len(),
                    self.cursor <= len,
                    self.read_cursor <= len,
                    self.ring_buffer@.len() == len,
                    self.ring_buffer@ == buf,
                    out@.len() == num_samples,
                    forall|j: int| 0 <= j < size1 + k ==> out@[j] == buf[(start + j) % (len as int)],
                decreases size2 - k,
            {
                proof {
                    lemma_mod_once(start + size1 + k, len as int);
                }
                out[size1 + k] = self.ring_buffer[k];
                k += 1;
            }
            self.read_cursor = size2;
        }
        assert(out@ =~= ring_read(buf, start as int, num_samples as int));
    }

    /// Writes the `num_samples` samples of `input` into the ring, starting at the write
    /// position and wrapping around the end of the ring, and advances the write position by
    /// `num_samples`, back to the start when it reaches the ring's length exactly.
    pub fn put(&mut self, num_samples: usize, input: &[T])
        requires
            old(self).buffer().len() > 0,
            num_samples >= 1,
            input@.len() == num_samples,
            old(self).write_position() + num_samples <= 2 * old(self).buffer().len(),
            old(self).write_position() + num_samples - 1 <= usize::MAX,
        ensures
            final(self).buffer().len() == old(self).buffer().len(),
            final(self).wf(),
            final(self).buffer() == ring_write(
                old(self).buffer(),
                old(self).write_position() as int,
                input@,
            ),
            final(self).read_position() == old(self).read_position(),
            final(self).write_position() == next_write_position(
                old(self).write_position() as int,
                num_samples as int,
                old(self).buffer().len() as int,
            ),
    {
        proof {
            use_type_invariant(&*self);
        }
        let len = self.ring_buffer.len();
        let start = self.cursor;
        let ghost buf = self.ring_buffer@;
        if start + (num_samples - 1) < len {
            let mut k: usize = 0;
            while k < num_samples
                invariant
                    k <= num_samples,
                    start + num_samples <= len,
                    len == buf.len(),
                    self.cursor <= len,
                    self.read_cursor <= len,
                    self.ring_buffer@.len() == len,
                    input@.len() == num_samples,
                    self.ring_buffer@ == ring_write(buf, start as int, input@.take(k as int)),
                    self.read_cursor == old(self).read_position(),
                decreases num_samples - k,
            {
                proof {
                    lemma_small_mod((start + k) as nat, len as nat);
                    lemma_ring_write_step(buf, start as int, input@, k as int);
                    lemma_ring_write_len(buf, start as int, input@.take(k as int));
                }
                self.ring_buffer[start + k] = input[k];
                k += 1;
            }
            let mut next = start + num_samples;
            if next >= len {
                next -= len;
            }
            self.cursor = next;
        } else {
            let size1 = len - start;
            let size2 = num_samples - size1;
            let mut k: usize = 0;
            while k < size1
                invariant
                    k <= size1,
                    size1 == len - start,
                    size1 <= num_samples,
                    len == buf.len(),
                    self.cursor <= len,
                    self.read_cursor <= len,
                    self.ring_buffer@.len() == len,
                    input@.len() == num_samples,
                    self.ring_buffer@ == ring_write(buf, start as int, input@.take(k as int)),
                    self.read_cursor == old(self).read_position(),
                decreases size1 - k,
            {
                proof {
                    lemma_small_mod((start + k) as nat, len as nat);
                    lemma_ring_write_step(buf, start as int, input@, k as int);
                    lemma_ring_write_len(buf, start as int, input@.take(k as int));
                }
                self.ring_buffer[start + k] = input[k];
                k += 1;
            }
            let mut k: usize = 0;
            while k < size2
                invariant
                    k <= size2,
                    size1 == len - start,
                    size2 == num_samples - size1,
                    size2 <= len,
                    len > 0,
                    len == buf.len(),
                    self.cursor <= len,
                    self.read_cursor <= len,
                    self.ring_buffer@.len() == len,
                    input@.len() == num_samples,
                    self.ring_buffer@ == ring_write(
                        buf,
                        start as int,
                        input@.take(size1 + k as int),
                    ),
                    self.read_cursor == old(self).read_position(),
                decreases size2 - k,
            {
                proof {
                    lemma_mod_once(start + size1 + k, len as int);
                    lemma_ring_write_step(buf, start as int, input@, size1 + k as int);
                    lemma_ring_write_len(buf, start as int, input@.take(size1 + k as int));
                }
                self.ring_buffer[k] = input[size1 + k];
                k += 1;
            }
            self.cursor = size2;
        }
        assert(input@.take(num_samples as int) =~= input@);
        proof {
            lemma_ring_write_len(buf, start as int, input@);
        }
    }

    /// Reads the four samples at the read position and the three positions after it
    /// (wrapping around the end of the ring), and advances the read position by four
    /// modulo the ring's length.
    pub fn get4(&mut self) -> (values: [T; 4])
        requires
            old(self).read_position() < old(self).buffer().len(),
            old(self).read_position() + 3 <= usize::MAX,
        ensures
            final(self).wf(),
            values@ == ring_read(old(self).buffer(), old(self).read_position() as int, 4),
            final(self).buffer() == old(self).buffer(),
            final(self).write_position() == old(self).write_position(),
            final(self).read_position() == (old(self).read_position() + 4) % old(
                self,
            ).buffer().len(),
    {
        proof {
            use_type_invariant(&*self);
        }
        let len = self.ring_buffer.len();
        let start = self.read_cursor;
        let ghost buf = self.ring_buffer@;
        let mut values: [T; 4] = [self.ring_buffer[start]; 4];
        if start + 3 < len {
            let mut k: usize = 0;
            while k < 4
                invariant
                    k <= 4,
                    start + 4 <= len,
                    len == buf.len(),
                    self.cursor <= len,
                    self.read_cursor <= len,
                    self.ring_buffer@.len() == len,
                    self.ring_buffer@ == buf,
                    forall|j: int| 0 <= j < k ==> values@[j] == buf[(start + j) % (len as int)],
                decreases 4 - k,
            {
                proof {
                    lemma_small_mod((start + k) as nat, len as nat);
                }
                values[k] = self.ring_buffer[start + k];
                k += 1;
            }
            let mut next = start + 4;
            if next >= len {
                next -= len;
            }
            proof {
                lemma_mod_once(start + 4, len as int);
            }
            self.read_cursor = next;
        } else {
            let mut position = start;
            let mut k: usize = 0;
            proof {
                lemma_small_mod(start as nat, len as nat);
            }
            while k < 4
                invariant
                    k <= 4,
                    len > 0,
                    len == buf.len(),
                    self.cursor <= len,
                    self.read_cursor <= len,
                    self.ring_buffer@.len() == len,
                    self.ring_buffer@ == buf,
                    position < len,
                    position as int == (start + k) % (len as int),
                    forall|j: int| 0 <= j < k ==> values@[j] == buf[(start + j) % (len as int)],
                decreases 4 - k,
            {
                values[k] = self.ring_buffer[position];
                proof {
                    lemma_mod_step(start + k, len as int);
                }
                position += 1;
                if position >= len {
                    position = 0;
                }
                k += 1;
            }
            self.read_cursor = position;
        }
        assert(values@ =~= ring_read(buf, start as int, 4));
        values
    }

    /// Writes the four samples of `input` at the write position and the three positions after
    /// it (wrapping around the end of the ring), and advances the write position by four
    /// modulo the ring's length.
    pub fn put4(&mut self, input: &[T; 4])
        requires
            old(self).write_position() < old(self).buffer().len(),
            old(self).write_position() + 3 <= usize::MAX,
        ensures
            final(self).buffer().len() == old(self).buffer().len(),
            final(self).wf(),
            final(self).buffer() == ring_write(
                old(self).buffer(),
                old(self).write_position() as int,
                input@,
            ),
            final(self).read_position() == old(self).read_position(),
            final(self).write_position() == (old(self).write_position() + 4) % old(
                self,
            ).buffer().len(),
    {
        proof {
            use_type_invariant(&*self);
        }
        let len = self.ring_buffer.len();
        let start = self.cursor;
        let ghost buf = self.ring_buffer@;
        if start + 3 < len {
            let mut k: usize = 0;
            while k < 4
                invariant
                    k <= 4,
                    start + 4 <= len,
                    len == buf.len(),
                    self.cursor <= len,
                    self.read_cursor <= len,
                    self.ring_buffer@.len() == len,
                    self.ring_buffer@ == ring_write(buf, start as int, input@.take(k as int)),
                    self.read_cursor == old(self).read_position(),
                decreases 4 - k,
            {
                proof {
                    lemma_small_mod((start + k) as nat, len as nat);
                    lemma_ring_write_step(buf, start as int, input@, k as int);
                    lemma_ring_write_len(buf, start as int, input@.take(k as int));
                }
                self.ring_buffer[start + k] = input[k];
                k += 1;
            }
            let mut next = start + 4;
            if next >= len {
                next -= len;
            }
            proof {
                lemma_mod_once(start + 4, len as int);
            }
            self.cursor = next;
        } else {
            let mut position = start;
            let mut k: usize = 0;
            proof {
                lemma_small_mod(start as nat, len as nat);
            }
            while k < 4
                invariant
                    k <= 4,
                    len > 0,
                    len == buf.len(),
                    self.cursor <= len,
                    self.read_cursor <= len,
                    self.ring_buffer@.len() == len,
                    position < len,
                    position as int == (start + k) % (len as int),
                    self.ring_buffer@ == ring_write(buf, start as int, input@.take(k as int)),
                    self.read_cursor == old(self).read_position(),
                decreases 4 - k,
            {
                proof {
                    lemma_ring_write_step(buf, start as int, input@, k as int);
                    lemma_ring_write_len(buf, start as int, input@.take(k as int));
                    lemma_mod_step(start + k, len as int);
                }
                self.ring_buffer[position] = input[k];
                position += 1;
                if position >= len {
                    position = 0;
                }
                k += 1;
            }
            self.cursor = position;
        }
        assert(input@.take(4) =~= input@);
        proof {
            lemma_ring_write_len(buf, start as int, input@);
        }
    }
}

} // verus!
