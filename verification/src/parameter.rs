//! Parameter changes and the bounded queue that carries them from the side
//! that controls the reverb to the side that renders it. The queue comes in
//! two forms. `ParameterChannel` has one owner, and its contracts say exactly
//! what it holds after each call. `SharedParameterChannel` is held by several
//! threads at once and never locks; what a call finds in it depends on what
//! the other threads did, so its contracts say only what holds whatever they
//! did.
use crossbeam::queue::ArrayQueue;
use std::sync::Arc;
use vstd::prelude::*;

verus! {

/// A change of one parameter of the reverb. The value is carried as 32 bits
/// whose reading the two ends of the queue agree on.
#[derive(Clone, Copy, Debug, PartialEq, Eq, Structural)]
pub enum Parameter {
    Absorbtion(u32),
    Size(u32),
    Decay(u32),
    SaturationHardness(u32),
    Progression(u32),
    DryWet(u32),
    Width(u32),
    PreDelay(u32),
}

/// The most messages a channel can be made to hold: the most slots, of 16
/// bytes each, that fit the greatest allocation the machine allows.
pub const MAX_CAPACITY: usize = usize::MAX / 32;

impl Parameter {
    /// The number of the parameter: 0 for the absorbtion, then the size, the
    /// decay, the hardness of the saturation, the progression, the balance of
    /// dry and wet signal, the width, and 7 for the pre-delay.
    pub open spec fn spec_index(self) -> u32 {
        match self {
            Parameter::Absorbtion(_) => 0,
            Parameter::Size(_) => 1,
            Parameter::Decay(_) => 2,
            Parameter::SaturationHardness(_) => 3,
            Parameter::Progression(_) => 4,
            Parameter::DryWet(_) => 5,
            Parameter::Width(_) => 6,
            Parameter::PreDelay(_) => 7,
        }
    }

    /// The value that the change carries.
    pub open spec fn spec_value(self) -> u32 {
        match self {
            Parameter::Absorbtion(v) => v,
            Parameter::Size(v) => v,
            Parameter::Decay(v) => v,
            Parameter::SaturationHardness(v) => v,
            Parameter::Progression(v) => v,
            Parameter::DryWet(v) => v,
            Parameter::Width(v) => v,
            Parameter::PreDelay(v) => v,
        }
    }

    /// The change of the parameter numbered `index` to `value`, if there is
    /// such a parameter.
    pub open spec fn spec_from_index(index: u32, value: u32) -> Option<Parameter> {
        if index == 0 {
            Some(Parameter::Absorbtion(value))
        } else if index == 1 {
            Some(Parameter::Size(value))
        } else if index == 2 {
            Some(Parameter::Decay(value))
        } else if index == 3 {
            Some(Parameter::SaturationHardness(value))
        } else if index == 4 {
            Some(Parameter::Progression(value))
        } else if index == 5 {
            Some(Parameter::DryWet(value))
        } else if index == 6 {
            Some(Parameter::Width(value))
        } else if index == 7 {
            Some(Parameter::PreDelay(value))
        } else {
            None
        }
    }

    /// The word that stands for the change in the queue: the number of the
    /// parameter in the upper 32 bits, the value in the lower.
    pub open spec fn spec_encode(self) -> u64 {
        (self.spec_index() * 0x1_0000_0000 + self.spec_value()) as u64
    }

    /// The change that `word` stands for, if it stands for one.
    pub open spec fn spec_decode(word: u64) -> Option<Parameter> {
        Parameter::spec_from_index((word / 0x1_0000_0000) as u32, (word % 0x1_0000_0000) as u32)
    }

    /// Every change can be had again from its number and its value, and from
    /// the word that stands for it.
    pub proof fn lemma_round_trip(self)
        ensures
            Parameter::spec_from_index(self.spec_index(), self.spec_value()) == Some(self),
            Parameter::spec_decode(self.spec_encode()) == Some(self),
    {
    }

    /// The number of the parameter.
    pub fn index(&self) -> (index: u32)
        ensures
            index == self.spec_index(),
    {
        match self {
            Parameter::Absorbtion(_) => 0,
            Parameter::Size(_) => 1,
            Parameter::Decay(_) => 2,
            Parameter::SaturationHardness(_) => 3,
            Parameter::Progression(_) => 4,
            Parameter::DryWet(_) => 5,
            Parameter::Width(_) => 6,
            Parameter::PreDelay(_) => 7,
        }
    }

    /// The value that the change carries.
    pub fn value(&self) -> (value: u32)
        ensures
            value == self.spec_value(),
    {
        match self {
            Parameter::Absorbtion(v) => *v,
            Parameter::Size(v) => *v,
            Parameter::Decay(v) => *v,
            Parameter::SaturationHardness(v) => *v,
            Parameter::Progression(v) => *v,
            Parameter::DryWet(v) => *v,
            Parameter::Width(v) => *v,
            Parameter::PreDelay(v) => *v,
        }
    }

    /// The change of the parameter numbered `index` to `value`; `None` where
    /// no parameter has that number.
    pub fn from_index(index: u32, value: u32) -> (r: Option<Parameter>)
        ensures
            r == Parameter::spec_from_index(index, value),
            r is Some <==> index <= 7,
    {
        match index {
            0 => Some(Parameter::Absorbtion(value)),
            1 => Some(Parameter::Size(value)),
            2 => Some(Parameter::Decay(value)),
            3 => Some(Parameter::SaturationHardness(value)),
            4 => Some(Parameter::Progression(value)),
            5 => Some(Parameter::DryWet(value)),
            6 => Some(Parameter::Width(value)),
            7 => Some(Parameter::PreDelay(value)),
            _ => None,
        }
    }

    /// The word that stands for the change in the queue.
    pub fn encode(&self) -> (word: u64)
        ensures
            word == self.spec_encode(),
            Parameter::spec_decode(word) == Some(*self),
    {
        (self.index() as u64) * 0x1_0000_0000 + (self.value() as u64)
    }

    /// What a queue handed out: the change that the word stands for, and
    /// `None` where the queue was empty or the word stands for no change.
    pub open spec fn spec_received(word: Option<u64>) -> Option<Parameter> {
        match word {
            Some(w) => Parameter::spec_decode(w),
            None => None,
        }
    }

    /// What a queue handed out: the change that the word stands for, and
    /// `None` where the queue was empty or the word stands for no change.
    pub fn received(word: Option<u64>) -> (r: Option<Parameter>)
        ensures
            r == Parameter::spec_received(word),
    {
        match word {
            Some(w) => Parameter::decode(w),
            None => None,
        }
    }

    /// The change that `word` stands for; `None` where the upper 32 bits
    /// number no parameter.
    pub fn decode(word: u64) -> (r: Option<Parameter>)
        ensures
            r == Parameter::spec_decode(word),
            r is Some <==> word / 0x1_0000_0000 <= 7,
            r matches Some(p) ==> p.spec_encode() == word,
    {
        Parameter::from_index((word / 0x1_0000_0000) as u32, (word % 0x1_0000_0000) as u32)
    }
}

/// crossbeam's `ArrayQueue`, a bounded queue in an array of fixed size.
/// Nothing is known of a value of it but what the functions below state.
#[verifier::external_type_specification]
#[verifier::external_body]
#[verifier::reject_recursive_types(T)]
pub struct ExArrayQueue<T>(ArrayQueue<T>);

/// The words that a queue holds, the one that leaves first at the front.
pub uninterp spec fn queue_contents(queue: ArrayQueue<u64>) -> Seq<u64>;

/// The number of words that a queue was made to hold.
pub uninterp spec fn queue_capacity(queue: ArrayQueue<u64>) -> nat;

/// crossbeam's `ArrayQueue::new`: an empty queue for `capacity` words. It
/// panics on a capacity of zero and on one whose slots are more than can be
/// allocated; both are left out here.
#[verifier::external_body]
fn queue_new(capacity: usize) -> (queue: ArrayQueue<u64>)
    requires
        0 < capacity <= MAX_CAPACITY,
    ensures
        queue_contents(queue) == Seq::<u64>::empty(),
        queue_capacity(queue) == capacity,
{
    ArrayQueue::new(capacity)
}

/// crossbeam's `ArrayQueue::push` on a queue that nothing else holds: where
/// the queue has room, `word` is put behind the words in it; where it is full,
/// the queue stays as it is and the word comes back as an error.
#[verifier::external_body]
fn queue_push(queue: &mut ArrayQueue<u64>, word: u64) -> (accepted: bool)
    ensures
        accepted == (queue_contents(*old(queue)).len() < queue_capacity(*old(queue))),
        queue_contents(*final(queue)) == (if accepted {
            queue_contents(*old(queue)).push(word)
        } else {
            queue_contents(*old(queue))
        }),
        queue_capacity(*final(queue)) == queue_capacity(*old(queue)),
{
    queue.push(word).is_ok()
}

/// crossbeam's `ArrayQueue::pop` on a queue that nothing else holds: the word
/// at the front leaves the queue; an empty queue stays empty and gives an
/// error.
#[verifier::external_body]
fn queue_pop(queue: &mut ArrayQueue<u64>) -> (word: Option<u64>)
    ensures
        word == (if queue_contents(*old(queue)).len() > 0 {
            Some(queue_contents(*old(queue))[0])
        } else {
            None
        }),
        queue_contents(*final(queue)) == (if queue_contents(*old(queue)).len() > 0 {
            queue_contents(*old(queue)).drop_first()
        } else {
            queue_contents(*old(queue))
        }),
        queue_capacity(*final(queue)) == queue_capacity(*old(queue)),
{
    queue.pop().ok()
}

/// A queue of parameter changes with a fixed capacity. Neither end ever
/// waits: a change offered to a full queue is refused, and an empty queue
/// hands out nothing.
pub struct ParameterChannel {
    queue: ArrayQueue<u64>,
}

impl ParameterChannel {
    /// The changes in the queue, the one that leaves first at the front.
    pub closed spec fn view(&self) -> Seq<Parameter> {
        queue_contents(self.queue).map_values(|word: u64| Parameter::spec_decode(word).unwrap())
    }

    /// The number of changes that the queue can hold.
    pub closed spec fn capacity(&self) -> nat {
        queue_capacity(self.queue)
    }

    /// The queue holds no more than its capacity, and every word in it stands
    /// for a change.
    pub closed spec fn wf(&self) -> bool {
        &&& 0 < queue_capacity(self.queue) <= MAX_CAPACITY
        &&& queue_contents(self.queue).len() <= queue_capacity(self.queue)
        &&& forall|i: int|
            0 <= i < queue_contents(self.queue).len() ==> Parameter::spec_decode(
                #[trigger] queue_contents(self.queue)[i],
            ) is Some
    }

    /// A well formed queue holds no more changes than its capacity.
    pub proof fn lemma_bounded(&self)
        requires
            self.wf(),
        ensures
            self@.len() <= self.capacity(),
            0 < self.capacity() <= MAX_CAPACITY,
    {
    }

    /// An empty queue for `capacity` changes; `None` where `capacity` is zero
    /// or more than `MAX_CAPACITY`.
    pub fn new(capacity: usize) -> (r: Option<ParameterChannel>)
        ensures
            r is Some <==> 0 < capacity <= MAX_CAPACITY,
            r matches Some(channel) ==> channel.wf() && channel@ == Seq::<Parameter>::empty()
                && channel.capacity() == capacity,
    {
        if capacity == 0 || capacity > MAX_CAPACITY {
            return None;
        }
        let channel = ParameterChannel { queue: queue_new(capacity) };
        assert(channel@ =~= Seq::<Parameter>::empty());
        Some(channel)
    }

    /// Offers `msg` to the queue. Where the queue has room, the change is put
    /// behind those in it and the result is `true`; where it is full, the
    /// change is dropped, the queue stays as it is and the result is `false`.
    pub fn try_enqueue(&mut self, msg: Parameter) -> (accepted: bool)
        requires
            old(self).wf(),
        ensures
            final(self).wf(),
            final(self).capacity() == old(self).capacity(),
            accepted == (old(self)@.len() < old(self).capacity()),
            final(self)@ == (if accepted {
                old(self)@.push(msg)
            } else {
                old(self)@
            }),
    {
        let word: u64 = msg.encode();
        let accepted: bool = queue_push(&mut self.queue, word);
        proof {
            if accepted {
                assert(self@ =~= old(self)@.push(msg));
            }
        }
        accepted
    }

    /// Takes the change at the front out of the queue; `None` where the queue
    /// is empty.
    pub fn try_dequeue(&mut self) -> (msg: Option<Parameter>)
        requires
            old(self).wf(),
        ensures
            final(self).wf(),
            final(self).capacity() == old(self).capacity(),
            msg == (if old(self)@.len() > 0 {
                Some(old(self)@[0])
            } else {
                None
            }),
            final(self)@ == (if old(self)@.len() > 0 {
                old(self)@.drop_first()
            } else {
                old(self)@
            }),
    {
        match queue_pop(&mut self.queue) {
            Some(word) => {
                proof {
                    assert(self@ =~= old(self)@.drop_first());
                    assert(word == queue_contents(old(self).queue)[0]);
                }
                Parameter::decode(word)
            },
            None => None,
        }
    }
}

/// crossbeam's `ArrayQueue::push` on a queue that other threads hold too.
/// Whether the word is taken depends on what they have put in and taken out,
/// so nothing is stated of the result.
#[verifier::external_body]
fn shared_push(queue: &ArrayQueue<u64>, word: u64) -> (accepted: bool) {
    queue.push(word).is_ok()
}

/// crossbeam's `ArrayQueue::pop` on a queue that other threads hold too. What
/// comes out depends on what they have put in and taken out, so nothing is
/// stated of the result.
#[verifier::external_body]
fn shared_pop(queue: &ArrayQueue<u64>) -> (word: Option<u64>) {
    queue.pop().ok()
}

/// A queue of parameter changes that several threads hold at once: each
/// takes a handle by `clone`. No call ever waits or locks.
#[derive(Clone)]
pub struct SharedParameterChannel {
    queue: Arc<ArrayQueue<u64>>,
}

impl ParameterChannel {
    /// Gives the queue up to be shared among threads, with what it holds.
    pub fn share(self) -> (shared: SharedParameterChannel) {
        SharedParameterChannel { queue: Arc::new(self.queue) }
    }
}

impl SharedParameterChannel {
    /// Offers `msg` to the queue. Where the queue is full at that moment the
    /// change is dropped and handed back as the error.
    pub fn try_enqueue(&self, msg: Parameter) -> (r: Result<(), Parameter>)
        ensures
            r matches Err(dropped) ==> dropped == msg,
    {
        if shared_push(&self.queue, msg.encode()) {
            Ok(())
        } else {
            Err(msg)
        }
    }

    /// Takes the change at the front out of the queue; `None` where the queue
    /// is empty at that moment. The result is what `Parameter::received`
    /// gives for what the queue handed out.
    pub fn try_dequeue(&self) -> (msg: Option<Parameter>)
        ensures
            exists|word: Option<u64>| msg == #[trigger] Parameter::spec_received(word),
    {
        let word = shared_pop(&self.queue);
        Parameter::received(word)
    }
}

} // verus!
