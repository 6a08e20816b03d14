//! The memory and the geometry of a feedback delay network of four channels:
//! a pre-delay, and for each channel an allpass section and a delay line whose
//! lengths are pairwise coprime numbers along a geometric progression; and
//! the decay, held as the feedback amount and as the gain of the allpass
//! sections, each kept in its range. The arithmetic on the samples is left to
//! the caller, who moves each sample through the parts in turn.
use crate::allpass::{Allpass, AllpassView};
use crate::delay_line::{DelayLine, DelayLineView};
use crate::utils::{clamp, coprime_with_progression, is_clamped, is_progression, Bounds, Ratio};
use vstd::prelude::*;

verus! {

/// The number of channels of the network.
pub const CHANNELS: usize = 4;

/// The size, in millimetres, that a new network is given.
pub const INITIAL_SIZE: u32 = 300_000;

/// The smallest size, in millimetres, that the lengths are derived from.
pub const SMALLEST_SIZE: u32 = 1_000;

/// The greatest progression that the lengths are derived with. The smallest
/// is one: below it the lengths would not grow from channel to channel.
pub const HIGHEST_PROGRESSION: u64 = 4;

/// The progression of a new network: 1.16.
pub open spec fn initial_progression() -> Ratio {
    Ratio { numer: 29, denom: 25 }
}

/// The progression that the lengths are derived with for `progression`: one
/// if it is below one, `HIGHEST_PROGRESSION` if it is above that or has a
/// denominator of zero, else `progression` itself.
pub open spec fn effective_progression(progression: Ratio) -> Ratio {
    if progression.numer < progression.denom {
        Ratio { numer: 1, denom: 1 }
    } else if progression.denom == 0 || progression.numer > HIGHEST_PROGRESSION
        * progression.denom {
        Ratio { numer: HIGHEST_PROGRESSION, denom: 1 }
    } else {
        progression
    }
}

/// The number of frames that last `millis` milliseconds at `sample_rate`
/// frames a second, cut down to a whole number.
pub open spec fn frames_of_millis(millis: u32, sample_rate: u32) -> nat {
    (millis * sample_rate / 1000) as nat
}

/// The number of frames that last `micros` microseconds at `sample_rate`
/// frames a second, cut down to a whole number.
pub open spec fn frames_of_micros(micros: u32, sample_rate: u32) -> nat {
    (micros * sample_rate / 1_000_000) as nat
}

/// The size that the lengths are derived from: `size`, and no less than one
/// metre.
pub open spec fn effective_size(size: u32) -> u32 {
    if size < SMALLEST_SIZE {
        SMALLEST_SIZE
    } else {
        size
    }
}

/// The first delay length for a room of `size` millimetres: the frames that
/// sound takes for a fifth of the way to the wall, at 330 metres a second.
pub open spec fn delay_base(size: u32, sample_rate: u32) -> nat {
    (effective_size(size) * sample_rate / 1_650_000) as nat
}

/// The first allpass length for a room of `size` millimetres: a seventh of
/// the first delay length.
pub open spec fn allpass_base(size: u32, sample_rate: u32) -> nat {
    (effective_size(size) * sample_rate / 11_550_000) as nat
}

/// `lengths` holds one length for each channel, along the progression from
/// `base` by `progression`.
pub open spec fn is_plan(base: nat, progression: Ratio, lengths: Seq<u64>) -> bool {
    &&& base <= u64::MAX
    &&& lengths.len() == CHANNELS
    &&& is_progression(base as u64, progression, lengths)
}

/// The mathematical state of the network.
pub struct FDNReverbView<T> {
    pub pre_delay: DelayLineView<T>,
    pub all_passes: Seq<AllpassView<T>>,
    pub delays: Seq<DelayLineView<T>>,
    pub sample_rate: u32,
    pub size: u32,
    pub progression: Ratio,
    pub feedback_amount: T,
    pub feedback_bounds: Bounds<T>,
}

impl<T> FDNReverbView<T> {
    /// Every part is well formed, and there is one allpass section and one
    /// delay line for each channel.
    pub open spec fn wf(self) -> bool {
        &&& self.pre_delay.wf()
        &&& self.all_passes.len() == CHANNELS
        &&& self.delays.len() == CHANNELS
        &&& forall|i: int| 0 <= i < CHANNELS ==> (#[trigger] self.all_passes[i]).wf()
        &&& forall|i: int| 0 <= i < CHANNELS ==> (#[trigger] self.delays[i]).wf()
    }

    /// Every part is between two samples.
    pub open spec fn settled(self) -> bool {
        &&& self.pre_delay.aligned()
        &&& forall|i: int| 0 <= i < CHANNELS ==> (#[trigger] self.all_passes[i]).settled()
        &&& forall|i: int| 0 <= i < CHANNELS ==> (#[trigger] self.delays[i]).aligned()
    }

    /// The state after the delay of each channel is set to its length of
    /// `delay_lengths` and that of each allpass section to its length of
    /// `allpass_lengths`, each as far as the memory of the part allows.
    pub open spec fn with_lengths(self, delay_lengths: Seq<u64>, allpass_lengths: Seq<u64>) -> Self {
        FDNReverbView {
            all_passes: Seq::new(
                CHANNELS as nat,
                |i: int| self.all_passes[i].set_delay(allpass_lengths[i] as nat),
            ),
            delays: Seq::new(
                CHANNELS as nat,
                |i: int| self.delays[i].set_duration(delay_lengths[i] as nat),
            ),
            ..self
        }
    }
}

impl<T: PartialOrd> FDNReverbView<T> {
    /// `self` is what `before` becomes when the decay is set to `decay`: the
    /// feedback amount and the gain of every allpass section are `decay`, each
    /// brought into its range, and nothing else has changed.
    pub open spec fn is_decay_of(self, before: Self, decay: T) -> bool {
        &&& is_clamped(self.feedback_amount, decay, before.feedback_bounds)
        &&& self.all_passes.len() == before.all_passes.len()
        &&& forall|i: int|
            0 <= i < self.all_passes.len() ==> {
                &&& is_clamped((#[trigger] self.all_passes[i]).gain, decay, before.all_passes[i].bounds)
                &&& self.all_passes[i] == (AllpassView {
                    gain: self.all_passes[i].gain,
                    ..before.all_passes[i]
                })
            }
        &&& self == (FDNReverbView {
            feedback_amount: self.feedback_amount,
            all_passes: self.all_passes,
            ..before
        })
    }

    /// A new network for `sample_rate`: a silent pre-delay of 150 milliseconds
    /// set to no delay; allpass sections of the lengths of `lengths`, with room
    /// for twice as many samples; delay lines of one second, set to the same
    /// lengths as far as a second allows; and the feedback amount and the gain
    /// of every section at `decay`, each brought into its range.
    pub open spec fn is_initial(
        self,
        sample_rate: u32,
        silence: T,
        decay: T,
        gain_bounds: Bounds<T>,
        feedback_bounds: Bounds<T>,
        lengths: Seq<u64>,
    ) -> bool {
        &&& self.sample_rate == sample_rate
        &&& self.size == INITIAL_SIZE
        &&& self.progression == initial_progression()
        &&& self.feedback_bounds == feedback_bounds
        &&& is_clamped(self.feedback_amount, decay, feedback_bounds)
        &&& self.pre_delay.memory == Seq::new(
            frames_of_millis(150, sample_rate),
            |i: int| silence,
        )
        &&& self.pre_delay.duration == 0
        &&& forall|i: int|
            0 <= i < CHANNELS ==> {
                &&& (#[trigger] self.all_passes[i]).bounds == gain_bounds
                &&& is_clamped(self.all_passes[i].gain, decay, gain_bounds)
                &&& self.all_passes[i].duration() == lengths[i]
                &&& self.all_passes[i].input.memory == Seq::new(
                    (2 * lengths[i]) as nat,
                    |k: int| silence,
                )
                &&& self.all_passes[i].output.memory == Seq::new(
                    (2 * lengths[i]) as nat,
                    |k: int| silence,
                )
            }
        &&& forall|i: int|
            0 <= i < CHANNELS ==> {
                &&& (#[trigger] self.delays[i]).memory == Seq::new(
                    sample_rate as nat,
                    |k: int| silence,
                )
                &&& self.delays[i].duration == (if lengths[i] >= sample_rate {
                    (sample_rate - 1) as nat
                } else {
                    lengths[i] as nat
                })
            }
    }
}

/// A network can be built for `sample_rate` with the lengths `lengths`: the
/// pre-delay has a frame at least, and the lengths are the plan from 300
/// milliseconds on, none of them zero, and twice each fits a `usize`.
pub open spec fn can_build(sample_rate: u32, lengths: Seq<u64>) -> bool {
    &&& frames_of_millis(150, sample_rate) >= 1
    &&& is_plan(frames_of_millis(300, sample_rate), initial_progression(), lengths)
    &&& forall|i: int| 0 <= i < CHANNELS ==> 1 <= #[trigger] lengths[i] <= usize::MAX / 2
}

/// The memory of a feedback delay network of four channels, with the sample
/// rate, the size of the room and the progression that its delay lengths are
/// derived from, and the feedback amount with the range it is kept in.
pub struct FDNReverb<T> {
    pre_delay: DelayLine<T>,
    all_passes: [Allpass<T>; 4],
    delays: [DelayLine<T>; 4],
    sample_rate: u32,
    size: u32,
    progression: Ratio,
    feedback_amount: T,
    feedback_bounds: Bounds<T>,
}

impl<T: Copy> View for FDNReverb<T> {
    type V = FDNReverbView<T>;

    closed spec fn view(&self) -> FDNReverbView<T> {
        FDNReverbView {
            pre_delay: self.pre_delay@,
            all_passes: Seq::new(CHANNELS as nat, |i: int| self.all_passes@[i]@),
            delays: Seq::new(CHANNELS as nat, |i: int| self.delays@[i]@),
            sample_rate: self.sample_rate,
            size: self.size,
            progression: self.progression,
            feedback_amount: self.feedback_amount,
            feedback_bounds: self.feedback_bounds,
        }
    }
}

/// `length` as a number of frames, or the greatest such number if it is
/// greater.
fn frames_of(length: u64) -> (frames: usize)
    ensures
        frames == (if length > usize::MAX {
            usize::MAX as int
        } else {
            length as int
        }),
{
    if length > usize::MAX as u64 {
        usize::MAX
    } else {
        length as usize
    }
}

/// `amount` times `sample_rate`, divided by `per` and cut down to a whole
/// number.
fn frames_for(amount: u32, sample_rate: u32, per: u64) -> (frames: u64)
    requires
        per > 0,
    ensures
        frames == amount * sample_rate / (per as int),
{
    assert(amount * sample_rate <= u64::MAX) by (nonlinear_arith)
        requires
            amount <= u32::MAX,
            sample_rate <= u32::MAX,
    ;
    (amount as u64) * (sample_rate as u64) / per
}

/// `progression`, kept between one and `HIGHEST_PROGRESSION`.
fn bounded_progression(progression: Ratio) -> (effective: Ratio)
    ensures
        effective == effective_progression(progression),
        effective.denom > 0,
        effective.numer >= effective.denom,
{
    if progression.numer < progression.denom {
        Ratio { numer: 1, denom: 1 }
    } else if progression.denom == 0 || progression.numer / HIGHEST_PROGRESSION > progression.denom
        || (progression.numer / HIGHEST_PROGRESSION == progression.denom && progression.numer
        % HIGHEST_PROGRESSION != 0) {
        Ratio { numer: HIGHEST_PROGRESSION, denom: 1 }
    } else {
        progression
    }
}

impl<T: Copy + PartialOrd> FDNReverb<T> {
    /// A network for `sample_rate` frames a second, its memory filled with
    /// `silence`. The gain of its allpass sections is kept in `gain_bounds`
    /// and its feedback amount in `feedback_bounds`; both begin at `decay`,
    /// brought into their ranges. The lengths of the four channels are the
    /// plan from 300 milliseconds on by a progression of 1.16, which is handed
    /// back beside the network. `None` where the sample rate leaves the
    /// pre-delay without a frame or there is no such plan that fits.
    pub fn new(
        sample_rate: u32,
        silence: T,
        decay: T,
        gain_bounds: Bounds<T>,
        feedback_bounds: Bounds<T>,
    ) -> (r: Option<(FDNReverb<T>, Vec<u64>)>)
        ensures
            match r {
                Some((reverb, lengths)) => {
                    &&& can_build(sample_rate, lengths@)
                    &&& reverb@.wf()
                    &&& reverb@.settled()
                    &&& reverb@.is_initial(
                        sample_rate,
                        silence,
                        decay,
                        gain_bounds,
                        feedback_bounds,
                        lengths@,
                    )
                },
                None => forall|lengths: Seq<u64>| !#[trigger] can_build(sample_rate, lengths),
            },
    {
        let pre_delay_frames: u64 = frames_for(150, sample_rate, 1000);
        let base: u64 = frames_for(300, sample_rate, 1000);
        if pre_delay_frames == 0 {
            return None;
        }
        let progression = Ratio { numer: 29, denom: 25 };
        let lengths: Vec<u64> = match coprime_with_progression(base, progression, CHANNELS) {
            Some(lengths) => lengths,
            None => {
                return None;
            },
        };
        let l0: u64 = lengths[0];
        let l1: u64 = lengths[1];
        let l2: u64 = lengths[2];
        let l3: u64 = lengths[3];
        let most: u64 = (usize::MAX / 2) as u64;
        if l0 == 0 || l1 == 0 || l2 == 0 || l3 == 0 || l0 > most || l1 > most || l2 > most || l3
            > most {
            proof {
                assert forall|other: Seq<u64>| !#[trigger] can_build(sample_rate, other) by {
                    if can_build(sample_rate, other) {
                        crate::utils::lemma_progression_unique(
                            base,
                            progression,
                            other,
                            lengths@,
                        );
                        assert(other[0] == l0 && other[1] == l1 && other[2] == l2 && other[3]
                            == l3);
                    }
                }
            }
            return None;
        }
        let mut pre_delay = DelayLine::new(pre_delay_frames as usize, silence);
        pre_delay.set_duration(0);
        let all_passes = [
            Allpass::new(l0 as usize, decay, gain_bounds, silence),
            Allpass::new(l1 as usize, decay, gain_bounds, silence),
            Allpass::new(l2 as usize, decay, gain_bounds, silence),
            Allpass::new(l3 as usize, decay, gain_bounds, silence),
        ];
        let mut delays = [
            DelayLine::new(sample_rate as usize, silence),
            DelayLine::new(sample_rate as usize, silence),
            DelayLine::new(sample_rate as usize, silence),
            DelayLine::new(sample_rate as usize, silence),
        ];
        delays[0].set_duration(l0 as usize);
        delays[1].set_duration(l1 as usize);
        delays[2].set_duration(l2 as usize);
        delays[3].set_duration(l3 as usize);
        let reverb = FDNReverb {
            pre_delay,
            all_passes,
            delays,
            sample_rate,
            size: INITIAL_SIZE,
            progression,
            feedback_amount: clamp(decay, feedback_bounds.lowest, feedback_bounds.highest),
            feedback_bounds,
        };
        Some((reverb, lengths))
    }

    /// Sets the decay: the feedback amount and the gain of every allpass
    /// section take `decay`, each brought into the range it is kept in. The
    /// memory and the lengths stay as they are.
    pub fn set_decay(&mut self, decay: T)
        requires
            old(self)@.wf(),
        ensures
            final(self)@.is_decay_of(old(self)@, decay),
            final(self)@.wf(),
    {
        self.feedback_amount = clamp(decay, self.feedback_bounds.lowest, self.feedback_bounds.highest);
        let mut i: usize = 0;
        while i < CHANNELS
            invariant
                i <= CHANNELS,
                self.pre_delay == old(self).pre_delay,
                self.delays == old(self).delays,
                self.sample_rate == old(self).sample_rate,
                self.size == old(self).size,
                self.progression == old(self).progression,
                self.feedback_bounds == old(self).feedback_bounds,
                is_clamped(self.feedback_amount, decay, old(self).feedback_bounds),
                forall|j: int|
                    0 <= j < i ==> {
                        &&& is_clamped(
                            (#[trigger] self.all_passes@[j])@.gain,
                            decay,
                            old(self).all_passes@[j]@.bounds,
                        )
                        &&& self.all_passes@[j]@ == (AllpassView {
                            gain: self.all_passes@[j]@.gain,
                            ..old(self).all_passes@[j]@
                        })
                    },
                forall|j: int|
                    i <= j < CHANNELS ==> #[trigger] self.all_passes@[j] == old(
                        self,
                    ).all_passes@[j],
            decreases CHANNELS - i,
        {
            let ghost before = self.all_passes@;
            self.all_passes[i].set_gain(decay);
            proof {
                assert forall|j: int| 0 <= j < CHANNELS && j != i implies (
                #[trigger] self.all_passes@[j]) == before[j] by {}
            }
            i += 1;
        }
        proof {
            assert(self@.delays =~= old(self)@.delays);
            assert forall|j: int| 0 <= j < CHANNELS implies (#[trigger] self@.all_passes[j]).wf() by {
                assert(old(self)@.all_passes[j].wf());
            }
            assert forall|j: int| 0 <= j < CHANNELS implies (#[trigger] self@.delays[j]).wf() by {
                assert(old(self)@.delays[j].wf());
            }
        }
    }
}

impl<T: Copy> FDNReverb<T> {
    /// The feedback amount, which lies in its range.
    pub fn feedback_amount(&self) -> (feedback_amount: T)
        ensures
            feedback_amount == self@.feedback_amount,
    {
        self.feedback_amount
    }

    /// The sample rate that the network was built for.
    pub fn sample_rate(&self) -> (sample_rate: u32)
        ensures
            sample_rate == self@.sample_rate,
    {
        self.sample_rate
    }
    /// Sets the size of the room, in millimetres, and derives the lengths of
    /// the four channels from it anew: the delays along the progression from a
    /// fifth of the way to the wall, the allpass sections from a seventh of
    /// that. Each part takes its length as far as its memory allows, and keeps
    /// what it holds. Hands back the two plans, the delays first. `None`, and
    /// nothing changed, where one of the plans does not exist.
    pub fn set_size(&mut self, size: u32) -> (r: Option<(Vec<u64>, Vec<u64>)>)
        requires
            old(self)@.wf(),
        ensures
            final(self)@.wf(),
            match r {
                Some((delays, all_passes)) => {
                    &&& is_plan(
                        delay_base(size, old(self)@.sample_rate),
                        old(self)@.progression,
                        delays@,
                    )
                    &&& is_plan(
                        allpass_base(size, old(self)@.sample_rate),
                        old(self)@.progression,
                        all_passes@,
                    )
                    &&& final(self)@ == (FDNReverbView {
                        size,
                        ..old(self)@.with_lengths(delays@, all_passes@)
                    })
                    &&& old(self)@.pre_delay.aligned() ==> final(self)@.settled()
                },
                None => {
                    &&& final(self)@ == old(self)@
                    &&& (forall|plan: Seq<u64>|
                        !#[trigger] is_plan(
                            delay_base(size, old(self)@.sample_rate),
                            old(self)@.progression,
                            plan,
                        )) || (forall|plan: Seq<u64>|
                        !#[trigger] is_plan(
                            allpass_base(size, old(self)@.sample_rate),
                            old(self)@.progression,
                            plan,
                        ))
                },
            },
    {
        let s: u32 = if size < SMALLEST_SIZE {
            SMALLEST_SIZE
        } else {
            size
        };
        let delay_frames: u64 = frames_for(s, self.sample_rate, 1_650_000);
        let allpass_frames: u64 = frames_for(s, self.sample_rate, 11_550_000);
        let delays: Vec<u64> = match coprime_with_progression(
            delay_frames,
            self.progression,
            CHANNELS,
        ) {
            Some(plan) => plan,
            None => {
                return None;
            },
        };
        let all_passes: Vec<u64> = match coprime_with_progression(
            allpass_frames,
            self.progression,
            CHANNELS,
        ) {
            Some(plan) => plan,
            None => {
                return None;
            },
        };
        let mut i: usize = 0;
        while i < CHANNELS
            invariant
                i <= CHANNELS,
                delays@.len() == CHANNELS,
                all_passes@.len() == CHANNELS,
                self.pre_delay == old(self).pre_delay,
                self.sample_rate == old(self).sample_rate,
                self.size == old(self).size,
                self.progression == old(self).progression,
                self.feedback_amount == old(self).feedback_amount,
                self.feedback_bounds == old(self).feedback_bounds,
                old(self)@.wf(),
                forall|j: int|
                    0 <= j < i ==> (#[trigger] self.all_passes@[j])@ == old(
                        self,
                    ).all_passes@[j]@.set_delay(all_passes@[j] as nat),
                forall|j: int|
                    0 <= j < i ==> (#[trigger] self.delays@[j])@ == old(
                        self,
                    ).delays@[j]@.set_duration(delays@[j] as nat),
                forall|j: int|
                    0 <= j < i ==> (#[trigger] self.all_passes@[j])@.wf()
                        && self.all_passes@[j]@.settled(),
                forall|j: int|
                    0 <= j < i ==> (#[trigger] self.delays@[j])@.wf() && self.delays@[j]@.aligned(),
                forall|j: int|
                    i <= j < CHANNELS ==> #[trigger] self.all_passes@[j] == old(
                        self,
                    ).all_passes@[j],
                forall|j: int|
                    i <= j < CHANNELS ==> #[trigger] self.delays@[j] == old(self).delays@[j],
            decreases CHANNELS - i,
        {
            proof {
                assert(old(self)@.all_passes[i as int].wf());
                assert(old(self)@.delays[i as int].wf());
            }
            let ghost before_passes = self.all_passes@;
            let ghost before_delays = self.delays@;
            proof {
                self.all_passes[i as int].lemma_capacity_fits();
                self.delays[i as int].lemma_capacity_fits();
            }
            self.all_passes[i].set_delay(frames_of(all_passes[i]));
            self.delays[i].set_duration(frames_of(delays[i]));
            proof {
                assert forall|j: int| 0 <= j < i implies (#[trigger] self.all_passes@[j])
                    == before_passes[j] by {}
                assert forall|j: int| 0 <= j < i implies (#[trigger] self.delays@[j])
                    == before_delays[j] by {}
                assert forall|j: int| i < j < CHANNELS implies (#[trigger] self.all_passes@[j])
                    == before_passes[j] by {}
                assert forall|j: int| i < j < CHANNELS implies (#[trigger] self.delays@[j])
                    == before_delays[j] by {}
            }
            i += 1;
        }
        self.size = size;
        proof {
            let goal = FDNReverbView { size, ..old(self)@.with_lengths(delays@, all_passes@) };
            assert(self@.all_passes =~= goal.all_passes);
            assert(self@.delays =~= goal.delays);
        }
        Some((delays, all_passes))
    }

    /// Sets the progression, kept between one and `HIGHEST_PROGRESSION`, and
    /// derives the lengths of the four channels anew, as `set_size` does for
    /// the size in force. A progression with a denominator of zero counts as
    /// the highest. `None`, and nothing changed, where one of the plans does
    /// not exist.
    pub fn set_progression(&mut self, progression: Ratio) -> (r: Option<(Vec<u64>, Vec<u64>)>)
        requires
            old(self)@.wf(),
        ensures
            final(self)@.wf(),
            match r {
                Some((delays, all_passes)) => {
                    &&& is_plan(
                        delay_base(old(self)@.size, old(self)@.sample_rate),
                        effective_progression(progression),
                        delays@,
                    )
                    &&& is_plan(
                        allpass_base(old(self)@.size, old(self)@.sample_rate),
                        effective_progression(progression),
                        all_passes@,
                    )
                    &&& final(self)@ == (FDNReverbView {
                        progression: effective_progression(progression),
                        ..old(self)@.with_lengths(delays@, all_passes@)
                    })
                    &&& old(self)@.pre_delay.aligned() ==> final(self)@.settled()
                },
                None => {
                    &&& final(self)@ == old(self)@
                    &&& (forall|plan: Seq<u64>|
                        !#[trigger] is_plan(
                            delay_base(old(self)@.size, old(self)@.sample_rate),
                            effective_progression(progression),
                            plan,
                        )) || (forall|plan: Seq<u64>|
                        !#[trigger] is_plan(
                            allpass_base(old(self)@.size, old(self)@.sample_rate),
                            effective_progression(progression),
                            plan,
                        ))
                },
            },
    {
        let previous = self.progression;
        let size: u32 = self.size;
        self.progression = bounded_progression(progression);
        let r = self.set_size(size);
        if r.is_none() {
            self.progression = previous;
        }
        r
    }

    /// Sets the pre-delay to `micros` microseconds, as far as its memory
    /// allows.
    pub fn set_pre_delay(&mut self, micros: u32)
        requires
            old(self)@.wf(),
        ensures
            final(self)@ == (FDNReverbView {
                pre_delay: old(self)@.pre_delay.set_duration(
                    frames_of_micros(micros, old(self)@.sample_rate),
                ),
                ..old(self)@
            }),
            final(self)@.wf(),
            final(self)@.pre_delay.aligned(),
    {
        let frames: u64 = frames_for(micros, self.sample_rate, 1_000_000);
        proof {
            self.pre_delay.lemma_capacity_fits();
        }
        self.pre_delay.set_duration(frames_of(frames));
    }

    /// The gain of the allpass section of `channel`.
    pub fn gain(&self, channel: usize) -> (gain: T)
        requires
            channel < CHANNELS,
        ensures
            gain == self@.all_passes[channel as int].gain,
    {
        self.all_passes[channel].gain()
    }

    /// Moves `input` through the pre-delay and hands back what comes out.
    pub fn pre_delay(&mut self, input: T) -> (output: T)
        requires
            old(self)@.wf(),
        ensures
            output == old(self)@.pre_delay.output(input),
            final(self)@ == (FDNReverbView {
                pre_delay: old(self)@.pre_delay.process(input),
                ..old(self)@
            }),
            final(self)@.wf(),
    {
        self.pre_delay.process(input)
    }

    /// Takes `input` into the allpass section of `channel` and hands back its
    /// delayed input and its delayed output. `allpass_store` must follow.
    pub fn allpass_fetch(&mut self, channel: usize, input: T) -> (taps: (T, T))
        requires
            old(self)@.wf(),
            channel < CHANNELS,
        ensures
            taps == old(self)@.all_passes[channel as int].taps(input),
            final(self)@ == (FDNReverbView {
                all_passes: old(self)@.all_passes.update(
                    channel as int,
                    old(self)@.all_passes[channel as int].fetch(input),
                ),
                ..old(self)@
            }),
            final(self)@.wf(),
    {
        proof {
            assert(old(self)@.all_passes[channel as int].wf());
        }
        let taps = self.all_passes[channel].fetch(input);
        proof {
            let goal = old(self)@.all_passes.update(
                channel as int,
                old(self)@.all_passes[channel as int].fetch(input),
            );
            assert(self@.all_passes =~= goal);
            assert(self@.delays =~= old(self)@.delays);
            assert forall|j: int| 0 <= j < CHANNELS implies (#[trigger] self@.all_passes[j]).wf() by {
                assert(old(self)@.all_passes[j].wf());
            }
        }
        taps
    }

    /// Stores `output`, the sample that the allpass section of `channel` gives
    /// for the input last fetched.
    pub fn allpass_store(&mut self, channel: usize, output: T)
        requires
            old(self)@.wf(),
            channel < CHANNELS,
        ensures
            final(self)@ == (FDNReverbView {
                all_passes: old(self)@.all_passes.update(
                    channel as int,
                    old(self)@.all_passes[channel as int].store(output),
                ),
                ..old(self)@
            }),
            final(self)@.wf(),
    {
        proof {
            assert(old(self)@.all_passes[channel as int].wf());
        }
        self.all_passes[channel].store(output);
        proof {
            let goal = old(self)@.all_passes.update(
                channel as int,
                old(self)@.all_passes[channel as int].store(output),
            );
            assert(self@.all_passes =~= goal);
            assert(self@.delays =~= old(self)@.delays);
            assert forall|j: int| 0 <= j < CHANNELS implies (#[trigger] self@.all_passes[j]).wf() by {
                assert(old(self)@.all_passes[j].wf());
            }
        }
    }

    /// Moves `input` through the delay line of `channel` and hands back what
    /// comes out.
    pub fn delay(&mut self, channel: usize, input: T) -> (output: T)
        requires
            old(self)@.wf(),
            channel < CHANNELS,
        ensures
            output == old(self)@.delays[channel as int].output(input),
            final(self)@ == (FDNReverbView {
                delays: old(self)@.delays.update(
                    channel as int,
                    old(self)@.delays[channel as int].process(input),
                ),
                ..old(self)@
            }),
            final(self)@.wf(),
    {
        proof {
            assert(old(self)@.delays[channel as int].wf());
        }
        let output = self.delays[channel].process(input);
        proof {
            let goal = old(self)@.delays.update(
                channel as int,
                old(self)@.delays[channel as int].process(input),
            );
            assert(self@.delays =~= goal);
            assert(self@.all_passes =~= old(self)@.all_passes);
            assert forall|j: int| 0 <= j < CHANNELS implies (#[trigger] self@.delays[j]).wf() by {
                assert(old(self)@.delays[j].wf());
            }
        }
        output
    }
}

} // verus!
