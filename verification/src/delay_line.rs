//! A fixed-capacity circular sample buffer whose read position trails its
//! write position by a settable number of samples.
use vstd::prelude::*;

verus! {

/// The slot that follows `index` in a ring of `capacity` slots.
pub open spec fn ring_next(index: nat, capacity: nat) -> nat {
    if index + 1 == capacity {
        0
    } else {
        index + 1
    }
}

/// The slot that lies `distance` slots behind `index` in a ring of `capacity`
/// slots, for `distance <= capacity`.
pub open spec fn ring_back(index: nat, distance: nat, capacity: nat) -> nat {
    if index >= distance {
        (index - distance) as nat
    } else {
        (index + capacity - distance) as nat
    }
}

/// The mathematical state of a delay line: its memory and its three counters.
pub struct DelayLineView<T> {
    pub memory: Seq<T>,
    pub duration: nat,
    pub read_index: nat,
    pub write_index: nat,
}

impl<T> DelayLineView<T> {
    pub open spec fn capacity(self) -> nat {
        self.memory.len()
    }

    /// There is at least one slot, both indices point into the memory and the
    /// delay is shorter than the memory.
    pub open spec fn wf(self) -> bool {
        &&& self.memory.len() >= 1
        &&& self.duration < self.memory.len()
        &&& self.read_index < self.memory.len()
        &&& self.write_index < self.memory.len()
    }

    /// The read position lags the write position by exactly `duration` slots.
    pub open spec fn aligned(self) -> bool {
        self.read_index == ring_back(self.write_index, self.duration, self.capacity())
    }

    /// The sample that was written `age` writes ago (`age == 1` is the latest).
    pub open spec fn tap(self, age: nat) -> T {
        self.memory[ring_back(self.write_index, age, self.capacity()) as int]
    }

    /// The state after `sample` is stored at the write position.
    pub open spec fn write(self, sample: T) -> Self {
        DelayLineView {
            memory: self.memory.update(self.write_index as int, sample),
            write_index: ring_next(self.write_index, self.capacity()),
            ..self
        }
    }

    /// The sample under the read position.
    pub open spec fn peek(self) -> T {
        self.memory[self.read_index as int]
    }

    /// The state after one sample was read.
    pub open spec fn advance(self) -> Self {
        DelayLineView { read_index: ring_next(self.read_index, self.capacity()), ..self }
    }

    /// The state after one write followed by one read.
    pub open spec fn process(self, sample: T) -> Self {
        self.write(sample).advance()
    }

    /// What one write followed by one read hands back.
    pub open spec fn output(self, sample: T) -> T {
        self.write(sample).peek()
    }

    /// The state after the delay is set to `duration`, clamped to the memory.
    pub open spec fn set_duration(self, duration: nat) -> Self {
        let d = if duration >= self.capacity() {
            (self.capacity() - 1) as nat
        } else {
            duration
        };
        DelayLineView {
            duration: d,
            read_index: ring_back(self.write_index, d, self.capacity()),
            ..self
        }
    }

    /// The state after every sample of `samples` went through `process`, first
    /// to last.
    pub open spec fn run(self, samples: Seq<T>) -> Self
        decreases samples.len(),
    {
        if samples.len() == 0 {
            self
        } else {
            self.run(samples.drop_last()).process(samples.last())
        }
    }

    /// What `process` hands back for each sample of `samples`, first to last.
    pub open spec fn outputs(self, samples: Seq<T>) -> Seq<T>
        decreases samples.len(),
    {
        if samples.len() == 0 {
            Seq::empty()
        } else {
            self.outputs(samples.drop_last()).push(
                self.run(samples.drop_last()).output(samples.last()),
            )
        }
    }
}

impl<T> DelayLineView<T> {
    /// A write makes its sample the latest tap and ages every other tap by one.
    pub proof fn lemma_write_taps(self, sample: T)
        requires
            self.wf(),
        ensures
            self.write(sample).capacity() == self.capacity(),
            self.write(sample).write_index < self.capacity(),
            self.write(sample).tap(1) == sample,
            forall|age: nat|
                2 <= age <= self.capacity() ==> #[trigger] self.write(sample).tap(age) == self.tap(
                    (age - 1) as nat,
                ),
    {
    }

    /// On an aligned line one `process` hands back its own input when the
    /// delay is zero, and otherwise the sample written `duration` writes ago.
    pub proof fn lemma_output(self, sample: T)
        requires
            self.wf(),
            self.aligned(),
        ensures
            self.output(sample) == (if self.duration == 0 {
                sample
            } else {
                self.tap(self.duration)
            }),
            self.process(sample).wf(),
            self.process(sample).aligned(),
            self.process(sample).duration == self.duration,
            self.process(sample).capacity() == self.capacity(),
            self.process(sample).write_index == self.write(sample).write_index,
            self.process(sample).memory == self.write(sample).memory,
    {
    }

    /// Writing and reading touch different parts of the state: either order
    /// leads to the same state, which is well formed and keeps the delay.
    pub proof fn lemma_process_commutes(self, sample: T)
        requires
            self.wf(),
        ensures
            self.advance().write(sample) == self.process(sample),
            self.process(sample).wf(),
            self.process(sample).capacity() == self.capacity(),
            self.process(sample).duration == self.duration,
    {
    }

    /// A run leaves a line well formed, with its capacity and its delay.
    pub proof fn lemma_run_wf(self, samples: Seq<T>)
        requires
            self.wf(),
        ensures
            self.run(samples).wf(),
            self.run(samples).capacity() == self.capacity(),
            self.run(samples).duration == self.duration,
        decreases samples.len(),
    {
        if samples.len() > 0 {
            self.lemma_run_wf(samples.drop_last());
            self.run(samples.drop_last()).lemma_process_commutes(samples.last());
        }
    }

    /// After a run of `process` calls on an aligned line, the newest taps are
    /// the samples of the run, latest first, and the taps beyond them are the
    /// ones the line held before, aged by the length of the run.
    pub proof fn lemma_run(self, samples: Seq<T>)
        requires
            self.wf(),
            self.aligned(),
        ensures
            self.run(samples).wf(),
            self.run(samples).aligned(),
            self.run(samples).duration == self.duration,
            self.run(samples).capacity() == self.capacity(),
            forall|age: nat|
                1 <= age <= samples.len() && age <= self.capacity() ==> #[trigger] self.run(
                    samples,
                ).tap(age) == samples[samples.len() - age],
            forall|age: nat|
                samples.len() < age <= self.capacity() ==> #[trigger] self.run(samples).tap(age)
                    == self.tap((age - samples.len()) as nat),
        decreases samples.len(),
    {
        if samples.len() > 0 {
            let before = self.run(samples.drop_last());
            self.lemma_run(samples.drop_last());
            before.lemma_output(samples.last());
            before.lemma_write_taps(samples.last());
            let after = self.run(samples);
            let written = before.write(samples.last());
            assert forall|age: nat|
                1 <= age <= samples.len() && age <= self.capacity() implies #[trigger] after.tap(
                age,
            ) == samples[samples.len() - age] by {
                if age >= 2 {
                    assert(written.tap(age) == before.tap((age - 1) as nat));
                }
            }
            assert forall|age: nat| samples.len() < age <= self.capacity() implies #[trigger] after.tap(
                age,
            ) == self.tap((age - samples.len()) as nat) by {
                assert(written.tap(age) == before.tap((age - 1) as nat));
            }
        }
    }

    /// What a run of `process` calls on an aligned line hands back: call `k`
    /// yields the input of call `k - duration`, and before that many calls
    /// were made, what the line held when the run began.
    pub proof fn lemma_outputs(self, samples: Seq<T>)
        requires
            self.wf(),
            self.aligned(),
        ensures
            self.outputs(samples).len() == samples.len(),
            forall|k: int|
                0 <= k < samples.len() ==> #[trigger] self.outputs(samples)[k] == (if k
                    >= self.duration {
                    samples[k - self.duration]
                } else {
                    self.tap((self.duration - k) as nat)
                }),
        decreases samples.len(),
    {
        if samples.len() > 0 {
            let prefix = samples.drop_last();
            let before = self.run(prefix);
            self.lemma_outputs(prefix);
            self.lemma_run(prefix);
            before.lemma_output(samples.last());
            assert forall|k: int| 0 <= k < samples.len() implies #[trigger] self.outputs(
                samples,
            )[k] == (if k >= self.duration {
                samples[k - self.duration]
            } else {
                self.tap((self.duration - k) as nat)
            }) by {
                if k < prefix.len() {
                    assert(self.outputs(samples)[k] == self.outputs(prefix)[k]);
                } else if self.duration > 0 {
                    assert(self.outputs(samples)[k] == before.tap(self.duration));
                }
            }
        }
    }

    /// Round trip: on an aligned line with delay `d`, the sample that goes in
    /// at call `n` comes out at call `n + d`.
    pub proof fn lemma_round_trip(self, samples: Seq<T>, n: int)
        requires
            self.wf(),
            self.aligned(),
            0 <= n,
            n + self.duration < samples.len(),
        ensures
            self.outputs(samples).len() == samples.len(),
            self.outputs(samples)[n + self.duration] == samples[n],
    {
        self.lemma_outputs(samples);
    }

    /// A line with a delay of zero is transparent: every output of a run is
    /// the input of the same call.
    pub proof fn lemma_transparent(self, samples: Seq<T>)
        requires
            self.wf(),
            self.aligned(),
            self.duration == 0,
        ensures
            self.outputs(samples) == samples,
    {
        self.lemma_outputs(samples);
        assert(self.outputs(samples) =~= samples);
    }

    /// Setting the delay aligns the line and keeps its memory and its write
    /// position, so that every tap the new delay reaches is still there.
    pub proof fn lemma_set_duration(self, duration: nat)
        requires
            self.wf(),
        ensures
            self.set_duration(duration).wf(),
            self.set_duration(duration).aligned(),
            self.set_duration(duration).duration == (if duration >= self.capacity() {
                (self.capacity() - 1) as nat
            } else {
                duration
            }),
            forall|age: nat| #[trigger] self.set_duration(duration).tap(age) == self.tap(age),
    {
    }
}

/// `ring_next` and `ring_back` are the successor and the difference modulo
/// the capacity.
pub proof fn lemma_ring_is_modular(index: nat, distance: nat, capacity: nat)
    requires
        index < capacity,
        distance <= capacity,
    ensures
        ring_next(index, capacity) == (index + 1) % capacity,
        ring_back(index, distance, capacity) == (index - distance) % (capacity as int),
{
    vstd::arithmetic::div_mod::lemma_small_mod(ring_next(index, capacity), capacity);
    vstd::arithmetic::div_mod::lemma_small_mod(ring_back(index, distance, capacity), capacity);
    vstd::arithmetic::div_mod::lemma_mod_self_0(capacity as int);
    vstd::arithmetic::div_mod::lemma_mod_add_multiples_vanish(index - distance, capacity as int);
}

/// A circular buffer of samples of a fixed capacity, with a write position
/// and a read position that trails it by the delay.
pub struct DelayLine<T> {
    memory: Vec<T>,
    duration: usize,
    read_index: usize,
    write_index: usize,
}

impl<T: Copy> View for DelayLine<T> {
    type V = DelayLineView<T>;

    closed spec fn view(&self) -> DelayLineView<T> {
        DelayLineView {
            memory: self.memory@,
            duration: self.duration as nat,
            read_index: self.read_index as nat,
            write_index: self.write_index as nat,
        }
    }
}

impl<T: Copy> DelayLine<T> {
    /// A line of `max_duration` slots, each holding `silence`, with the longest
    /// delay the memory allows.
    pub fn new(max_duration: usize, silence: T) -> (line: DelayLine<T>)
        requires
            max_duration >= 1,
        ensures
            line@.wf(),
            line@.aligned(),
            line@.memory == Seq::new(max_duration as nat, |i: int| silence),
            line@.duration == max_duration - 1,
            line@.write_index == 0,
    {
        let mut memory: Vec<T> = Vec::with_capacity(max_duration);
        while memory.len() < max_duration
            invariant
                memory.len() <= max_duration,
                forall|i: int| 0 <= i < memory.len() ==> memory[i] == silence,
            decreases max_duration - memory.len(),
        {
            memory.push(silence);
        }
        let mut line = DelayLine { memory, duration: 0, read_index: 0, write_index: 0 };
        assert(line@.memory =~= Seq::new(max_duration as nat, |i: int| silence));
        line.set_duration(max_duration);
        line
    }

    /// The memory has no more slots than a `usize` can count.
    pub proof fn lemma_capacity_fits(&self)
        ensures
            self@.capacity() <= usize::MAX,
    {
        assert(self.memory@.len() == self.memory.len());
    }

    /// The number of slots of the memory.
    pub fn capacity(&self) -> (capacity: usize)
        ensures
            capacity == self@.capacity(),
    {
        self.memory.len()
    }

    /// The delay, in samples.
    pub fn duration(&self) -> (duration: usize)
        ensures
            duration == self@.duration,
    {
        self.duration
    }

    /// Sets the delay to `duration`, or to the longest the memory allows if
    /// that is less, and moves the read position to lag the write position by
    /// it. The memory and the write position stay as they are.
    pub fn set_duration(&mut self, duration: usize)
        requires
            old(self)@.wf(),
        ensures
            final(self)@ == old(self)@.set_duration(duration as nat),
            final(self)@.wf(),
            final(self)@.aligned(),
    {
        let capacity = self.memory.len();
        let d = if duration > capacity - 1 {
            capacity - 1
        } else {
            duration
        };
        self.duration = d;
        self.read_index = if self.write_index >= d {
            self.write_index - d
        } else {
            self.write_index + (capacity - d)
        };
    }

    /// Stores `input` at the write position and advances it by one slot.
    pub fn write(&mut self, input: T)
        requires
            old(self)@.wf(),
        ensures
            final(self)@ == old(self)@.write(input),
            final(self)@.wf(),
    {
        let capacity = self.memory.len();
        let w = self.write_index;
        self.memory[w] = input;
        self.write_index = if w + 1 == capacity {
            0
        } else {
            w + 1
        };
    }

    /// Hands back the sample under the read position and advances it by one
    /// slot.
    pub fn read(&mut self) -> (output: T)
        requires
            old(self)@.wf(),
        ensures
            output == old(self)@.peek(),
            final(self)@ == old(self)@.advance(),
            final(self)@.wf(),
    {
        let capacity = self.memory.len();
        let r = self.read_index;
        let output = self.memory[r];
        self.read_index = if r + 1 == capacity {
            0
        } else {
            r + 1
        };
        output
    }

    /// One write followed by one read. On an aligned line the result is the
    /// sample that went in `duration` calls earlier; with a delay of zero it is
    /// `input` itself.
    pub fn process(&mut self, input: T) -> (output: T)
        requires
            old(self)@.wf(),
        ensures
            output == old(self)@.output(input),
            final(self)@ == old(self)@.process(input),
            final(self)@.wf(),
            old(self)@.aligned() ==> final(self)@.aligned(),
            old(self)@.aligned() && old(self)@.duration == 0 ==> output == input,
    {
        self.write(input);
        self.read()
    }
    /// Runs `process` over `input`, first sample to last, and stores what
    /// comes out in `output`. On an aligned line with delay `d`, `output[n + d]`
    /// is `input[n]`.
    pub fn process_block(&mut self, input: &[T], output: &mut [T])
        requires
            old(self)@.wf(),
            old(output)@.len() == input@.len(),
        ensures
            final(self)@ == old(self)@.run(input@),
            final(output)@ == old(self)@.outputs(input@),
            final(self)@.wf(),
            old(self)@.aligned() ==> final(self)@.aligned(),
            old(self)@.aligned() ==> forall|n: int|
                0 <= n && n + old(self)@.duration < input@.len() ==> #[trigger] input@[n]
                    == final(output)@[n + old(self)@.duration],
    {
        let len = input.len();
        let mut i: usize = 0;
        while i < len
            invariant
                i <= len,
                len == input@.len(),
                output@.len() == len,
                self@.wf(),
                self@ == old(self)@.run(input@.take(i as int)),
                output@.take(i as int) == old(self)@.outputs(input@.take(i as int)),
            decreases len - i,
        {
            proof {
                assert(input@.take(i + 1).drop_last() == input@.take(i as int));
            }
            let ghost before = output@;
            output[i] = self.process(input[i]);
            proof {
                assert(output@.take(i + 1) == before.take(i as int).push(output@[i as int]));
            }
            i += 1;
        }
        proof {
            assert(input@.take(len as int) == input@);
            assert(output@.take(len as int) == output@);
            if old(self)@.aligned() {
                old(self)@.lemma_run(input@);
                old(self)@.lemma_outputs(input@);
            }
        }
    }
}

} // verus!
