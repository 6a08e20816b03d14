//! The memory of a Schroeder allpass section: one delay line for the samples
//! that went in and one for the samples that came out, both of one length,
//! and a gain that is kept in the range in which the section is stable.
//! The section's arithmetic on the samples is left to the caller, who takes
//! the two delayed samples, combines them with the input, and hands the
//! result back to be stored.
use crate::delay_line::{DelayLine, DelayLineView};
use crate::utils::{clamp, is_clamped, Bounds};
use vstd::prelude::*;

verus! {

/// The mathematical state of an allpass section.
pub struct AllpassView<T> {
    pub gain: T,
    pub bounds: Bounds<T>,
    pub input: DelayLineView<T>,
    pub output: DelayLineView<T>,
}

impl<T> AllpassView<T> {
    /// Both lines are well formed and have one capacity and one delay.
    pub open spec fn wf(self) -> bool {
        &&& self.input.wf()
        &&& self.output.wf()
        &&& self.input.capacity() == self.output.capacity()
        &&& self.input.duration == self.output.duration
    }

    /// Both lines are aligned: the section is between two samples.
    pub open spec fn settled(self) -> bool {
        self.input.aligned() && self.output.aligned()
    }

    /// The delay of the section, in samples.
    pub open spec fn duration(self) -> nat {
        self.input.duration
    }

    /// The delayed input and the delayed output that `fetch` hands back for
    /// `input`.
    pub open spec fn taps(self, input: T) -> (T, T) {
        (self.input.output(input), self.output.peek())
    }

    /// The state after `fetch`.
    pub open spec fn fetch(self, input: T) -> Self {
        AllpassView { input: self.input.process(input), output: self.output.advance(), ..self }
    }

    /// The state after `store`.
    pub open spec fn store(self, output: T) -> Self {
        AllpassView { output: self.output.write(output), ..self }
    }

    /// The state after the delay is set to `frames`.
    pub open spec fn set_delay(self, frames: nat) -> Self {
        AllpassView {
            input: self.input.set_duration(frames),
            output: self.output.set_duration(frames),
            ..self
        }
    }

    /// The state after one sample went through: `fetch`, then `store`.
    pub open spec fn step(self, input: T, output: T) -> Self {
        self.fetch(input).store(output)
    }

    /// The state after a run of samples, `inputs[k]` going in and `outputs[k]`
    /// being stored for each `k`, first to last.
    pub open spec fn run(self, inputs: Seq<T>, outputs: Seq<T>) -> Self
        recommends
            inputs.len() == outputs.len(),
        decreases inputs.len(),
    {
        if inputs.len() == 0 {
            self
        } else {
            self.run(inputs.drop_last(), outputs.drop_last()).step(inputs.last(), outputs.last())
        }
    }

    /// A run leaves each line as if it had processed its own samples alone.
    pub proof fn lemma_run_lines(self, inputs: Seq<T>, outputs: Seq<T>)
        requires
            self.wf(),
            inputs.len() == outputs.len(),
        ensures
            self.run(inputs, outputs).input == self.input.run(inputs),
            self.run(inputs, outputs).output == self.output.run(outputs),
            self.run(inputs, outputs).gain == self.gain,
            self.run(inputs, outputs).bounds == self.bounds,
            self.run(inputs, outputs).wf(),
        decreases inputs.len(),
    {
        if inputs.len() > 0 {
            self.lemma_run_lines(inputs.drop_last(), outputs.drop_last());
            self.input.lemma_run_wf(inputs.drop_last());
            self.output.lemma_run_wf(outputs.drop_last());
            self.input.run(inputs.drop_last()).lemma_process_commutes(inputs.last());
            self.output.run(outputs.drop_last()).lemma_process_commutes(outputs.last());
        }
    }

    /// A run on a settled section leaves it settled, with its delay unchanged.
    pub proof fn lemma_run_settled(self, inputs: Seq<T>, outputs: Seq<T>)
        requires
            self.wf(),
            self.settled(),
            inputs.len() == outputs.len(),
        ensures
            self.run(inputs, outputs).wf(),
            self.run(inputs, outputs).settled(),
            self.run(inputs, outputs).duration() == self.duration(),
    {
        self.lemma_run_lines(inputs, outputs);
        self.input.lemma_run(inputs);
        self.output.lemma_run(outputs);
    }

    /// The allpass structure: on a settled section with a delay of `d >= 1`,
    /// once `d` samples went through, `fetch` hands back the input and the
    /// stored output of `d` samples earlier.
    pub proof fn lemma_taps(self, inputs: Seq<T>, outputs: Seq<T>, input: T)
        requires
            self.wf(),
            self.settled(),
            inputs.len() == outputs.len(),
            1 <= self.duration() <= inputs.len(),
        ensures
            self.run(inputs, outputs).taps(input) == (
                inputs[inputs.len() - self.duration()],
                outputs[outputs.len() - self.duration()],
            ),
    {
        self.lemma_run_lines(inputs, outputs);
        self.input.lemma_run(inputs);
        self.output.lemma_run(outputs);
        self.input.run(inputs).lemma_output(input);
        assert(self.output.run(outputs).peek() == self.output.run(outputs).tap(self.duration()));
    }
}

/// The memory of an allpass section, its gain and the range that the gain is
/// kept in.
pub struct Allpass<T> {
    gain: T,
    bounds: Bounds<T>,
    delay_input: DelayLine<T>,
    delay_output: DelayLine<T>,
}

impl<T: Copy> View for Allpass<T> {
    type V = AllpassView<T>;

    closed spec fn view(&self) -> AllpassView<T> {
        AllpassView {
            gain: self.gain,
            bounds: self.bounds,
            input: self.delay_input@,
            output: self.delay_output@,
        }
    }
}

impl<T: Copy + PartialOrd> Allpass<T> {
    /// A section with a delay of `frames` samples and room for twice as many,
    /// its memory filled with `silence`. Its gain is `gain` brought into
    /// `bounds`, the range that every later gain is brought into too.
    pub fn new(frames: usize, gain: T, bounds: Bounds<T>, silence: T) -> (section: Allpass<T>)
        requires
            1 <= frames <= usize::MAX / 2,
        ensures
            section@.wf(),
            section@.settled(),
            section@.bounds == bounds,
            is_clamped(section@.gain, gain, bounds),
            section@.duration() == frames,
            section@.input.memory == Seq::new((2 * frames) as nat, |i: int| silence),
            section@.output.memory == Seq::new((2 * frames) as nat, |i: int| silence),
            section@.input.write_index == 0,
            section@.output.write_index == 0,
    {
        let mut delay_input = DelayLine::new(frames * 2, silence);
        let mut delay_output = DelayLine::new(frames * 2, silence);
        delay_input.set_duration(frames);
        delay_output.set_duration(frames);
        Allpass {
            gain: clamp(gain, bounds.lowest, bounds.highest),
            bounds,
            delay_input,
            delay_output,
        }
    }

    /// Sets the gain to `gain` brought into the range of the section, and
    /// leaves the range and the memory as they are.
    pub fn set_gain(&mut self, gain: T)
        ensures
            is_clamped(final(self)@.gain, gain, old(self)@.bounds),
            final(self)@ == (AllpassView { gain: final(self)@.gain, ..old(self)@ }),
    {
        self.gain = clamp(gain, self.bounds.lowest, self.bounds.highest);
    }
}

impl<T: Copy> Allpass<T> {
    /// The gain of the section, which lies in its range.
    pub fn gain(&self) -> (gain: T)
        ensures
            gain == self@.gain,
    {
        self.gain
    }

    /// The range that the gain is kept in.
    pub fn bounds(&self) -> (bounds: Bounds<T>)
        ensures
            bounds == self@.bounds,
    {
        self.bounds
    }

    /// The delay of the section, in samples.
    pub fn duration(&self) -> (duration: usize)
        ensures
            duration == self@.duration(),
    {
        self.delay_input.duration()
    }

    /// Neither line has more slots than a `usize` can count.
    pub proof fn lemma_capacity_fits(&self)
        ensures
            self@.input.capacity() <= usize::MAX,
            self@.output.capacity() <= usize::MAX,
    {
        self.delay_input.lemma_capacity_fits();
        self.delay_output.lemma_capacity_fits();
    }

    /// The number of slots of each of the two lines.
    pub fn capacity(&self) -> (capacity: usize)
        ensures
            capacity == self@.input.capacity(),
    {
        self.delay_input.capacity()
    }

    /// Sets the delay of both lines to `frames` samples, or to the longest
    /// their memory allows if that is less.
    pub fn set_delay(&mut self, frames: usize)
        requires
            old(self)@.wf(),
        ensures
            final(self)@ == old(self)@.set_delay(frames as nat),
            final(self)@.wf(),
            final(self)@.settled(),
    {
        self.delay_input.set_duration(frames);
        self.delay_output.set_duration(frames);
    }

    /// Takes `input` into the section and hands back the delayed input and the
    /// delayed output, in that order. `store` must follow.
    pub fn fetch(&mut self, input: T) -> (taps: (T, T))
        requires
            old(self)@.wf(),
        ensures
            taps == old(self)@.taps(input),
            final(self)@ == old(self)@.fetch(input),
            final(self)@.wf(),
    {
        let delayed_in = self.delay_input.process(input);
        let delayed_out = self.delay_output.read();
        (delayed_in, delayed_out)
    }

    /// Stores `output`, the sample that the section gives for the input last
    /// fetched. A settled section is settled again after `fetch` and `store`.
    pub fn store(&mut self, output: T)
        requires
            old(self)@.wf(),
        ensures
            final(self)@ == old(self)@.store(output),
            final(self)@.wf(),
    {
        self.delay_output.write(output);
    }
}

} // verus!
