//! A recording held in memory, and a player that loops over it.
use vstd::arithmetic::div_mod::{lemma_add_mod_noop, lemma_small_mod};
use vstd::prelude::*;

verus! {

/// What a recording holds: its name, its channel count, its sample rate and
/// its samples, interleaved by channel.
pub struct SampleView<T> {
    pub name: Seq<char>,
    pub channels: u32,
    pub rate: u32,
    pub data: Seq<T>,
}

impl<T> SampleView<T> {
    /// The number of frames: the samples divided among the channels.
    pub open spec fn frames(self) -> nat {
        self.data.len() / (self.channels as nat)
    }
}

/// A recording held in memory.
pub struct Sample<T> {
    name: String,
    channels: u32,
    rate: u32,
    data: Vec<T>,
}

impl<T> View for Sample<T> {
    type V = SampleView<T>;

    closed spec fn view(&self) -> SampleView<T> {
        SampleView {
            name: self.name@,
            channels: self.channels,
            rate: self.rate,
            data: self.data@,
        }
    }
}

impl<T: Copy> Sample<T> {
    /// A recording of the given name, channel count, sample rate and samples.
    pub fn new(name: String, channels: u32, rate: u32, data: Vec<T>) -> (sample: Sample<T>)
        ensures
            sample@ == (SampleView { name: name@, channels, rate, data: data@ }),
    {
        Sample { name, channels, rate, data }
    }

    /// The number of channels.
    pub fn channels(&self) -> (channels: u32)
        ensures
            channels == self@.channels,
    {
        self.channels
    }

    /// The number of frames. A recording without a channel has none to count.
    pub fn frames(&self) -> (frames: usize)
        requires
            self@.channels > 0,
        ensures
            frames == self@.frames(),
    {
        self.data.len() / (self.channels as usize)
    }

    /// The number of frames a second.
    pub fn rate(&self) -> (rate: u32)
        ensures
            rate == self@.rate,
    {
        self.rate
    }

    /// The name of the recording.
    pub fn name(&self) -> (name: &str)
        ensures
            name@ == self@.name,
    {
        self.name.as_str()
    }

    /// The samples from `start` on, `size` of them or as many as are left.
    pub fn slice(&self, start: usize, size: usize) -> (part: &[T])
        requires
            start <= self@.data.len(),
        ensures
            part@ == self@.data.subrange(
                start as int,
                if start + size >= self@.data.len() {
                    self@.data.len() as int
                } else {
                    start + size
                },
            ),
    {
        let left: usize = self.data.len() - start;
        let real_size: usize = if size >= left {
            left
        } else {
            size
        };
        vstd::slice::slice_subrange(self.data.as_slice(), start, start + real_size)
    }

    /// The sample at `index`.
    pub fn index(&self, index: usize) -> (sample: &T)
        requires
            index < self@.data.len(),
        ensures
            *sample == self@.data[index as int],
    {
        &self.data[index]
    }
}

/// What a player holds: its recording and the place of the next sample.
pub struct LoopPlayerView<T> {
    pub sample: SampleView<T>,
    pub idx: nat,
}

impl<T> LoopPlayerView<T> {
    /// The recording has a channel and a frame, and the place lies among its
    /// frames.
    pub open spec fn playable(self) -> bool {
        &&& self.sample.channels > 0
        &&& self.sample.frames() > 0
        &&& self.idx < self.sample.frames()
    }
}

/// A player that hands out the samples of a recording, over and over.
pub struct LoopPlayer<T> {
    sample: Sample<T>,
    idx: usize,
}

impl<T> View for LoopPlayer<T> {
    type V = LoopPlayerView<T>;

    closed spec fn view(&self) -> LoopPlayerView<T> {
        LoopPlayerView { sample: self.sample@, idx: self.idx as nat }
    }
}

/// The place `steps` steps after `start` in a loop of `n` places.
pub open spec fn looped(start: nat, steps: nat, n: nat) -> nat {
    (start + steps) % n
}

/// As many samples as there are frames are no more than there are samples.
proof fn lemma_frames_fit(len: nat, channels: nat)
    requires
        channels > 0,
    ensures
        len / channels <= len,
{
    vstd::arithmetic::div_mod::lemma_div_is_ordered_by_denominator(len as int, 1, channels as int);
}

/// Stepping a place inside `0..n` by one and wrapping at `n` is adding one
/// modulo `n`.
proof fn lemma_wrapping_step(base: nat, k: nat, n: nat)
    requires
        n > 0,
    ensures
        looped(base, k + 1, n) == (if looped(base, k, n) + 1 == n {
            0
        } else {
            looped(base, k, n) + 1
        }),
{
    let at = looped(base, k, n);
    lemma_add_mod_noop((base + k) as int, 1, n as int);
    if n > 1 {
        lemma_small_mod(1, n);
        if at + 1 == n {
            vstd::arithmetic::div_mod::lemma_mod_self_0(n as int);
        } else {
            lemma_small_mod((at + 1) as nat, n);
        }
    }
}

impl<T: Copy> LoopPlayer<T> {
    /// A player at the beginning of `sample`.
    pub fn new(sample: Sample<T>) -> (player: LoopPlayer<T>)
        ensures
            player@ == (LoopPlayerView { sample: sample@, idx: 0 }),
    {
        LoopPlayer { sample, idx: 0 }
    }

    /// Fills `frames` with the next samples of the recording, beginning again
    /// at its first sample each time as many samples as it has frames were
    /// taken.
    pub fn extract(&mut self, frames: &mut [T])
        requires
            old(self)@.playable(),
        ensures
            final(self)@.sample == old(self)@.sample,
            final(self)@.idx == looped(
                old(self)@.idx,
                old(frames)@.len(),
                old(self)@.sample.frames(),
            ),
            final(self)@.playable(),
            final(frames)@.len() == old(frames)@.len(),
            forall|k: int|
                0 <= k < old(frames)@.len() ==> #[trigger] final(frames)@[k] == old(
                    self,
                )@.sample.data[looped(old(self)@.idx, k as nat, old(self)@.sample.frames()) as int],
    {
        let count: usize = self.sample.frames();
        let len: usize = frames.len();
        let ghost base = self.idx as nat;
        proof {
            lemma_frames_fit(self@.sample.data.len(), self@.sample.channels as nat);
            lemma_small_mod(base, count as nat);
        }
        let mut k: usize = 0;
        while k < len
            invariant
                k <= len,
                len == frames@.len(),
                count == self@.sample.frames(),
                count > 0,
                count <= self@.sample.data.len(),
                self@.sample == old(self)@.sample,
                base == old(self)@.idx,
                self@.idx == looped(base, k as nat, count as nat),
                self@.idx < count,
                forall|j: int|
                    0 <= j < k ==> #[trigger] frames@[j] == self@.sample.data[looped(
                        base,
                        j as nat,
                        count as nat,
                    ) as int],
            decreases len - k,
        {
            frames[k] = *self.sample.index(self.idx);
            proof {
                lemma_wrapping_step(base, k as nat, count as nat);
            }
            self.idx = if self.idx + 1 == count {
                0
            } else {
                self.idx + 1
            };
            k += 1;
        }
    }
}

} // verus!
