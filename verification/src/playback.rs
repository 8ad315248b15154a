//! Playback buffers: the ring buffer between the network and the audio output.
//!
//! A ring buffer is split into a producer and a consumer, which usually live on different threads.
//! The samples that pass through one buffer are numbered from 0 in the order in which they are
//! pushed. `stream` of a producer and `source` of its consumer name one and the same numbered
//! sequence; `pushed` and `popped` count how far along it each half has come. What the consumer has
//! popped makes room; `freed` is how much of that the producer has seen. What the producer has
//! pushed is there to pop; `seen` is how much of that the consumer has seen.

use ringbuf::Consumer;
use ringbuf::Producer;
use ringbuf::RingBuffer;
use vstd::prelude::*;

verus! {

/// The number of samples that a peer's playback buffer holds.
pub const PLAYBACK_CAPACITY: usize = 2048;

/// Declares `ringbuf::RingBuffer`, a buffer that is not split yet.
#[verifier::external_type_specification]
#[verifier::external_body]
#[verifier::reject_recursive_types(T)]
pub struct ExRingBuffer<T: Sized>(RingBuffer<T>);

/// Declares `ringbuf::Producer`, the half of a buffer that takes samples.
#[verifier::external_type_specification]
#[verifier::external_body]
#[verifier::reject_recursive_types(T)]
pub struct ExProducer<T>(Producer<T>);

/// Declares `ringbuf::Consumer`, the half of a buffer that gives samples.
#[verifier::external_type_specification]
#[verifier::external_body]
#[verifier::reject_recursive_types(T)]
pub struct ExConsumer<T>(Consumer<T>);

/// The number of samples that a buffer was made to hold.
pub uninterp spec fn ring_capacity(ring: RingBuffer<u16>) -> nat;

/// The number of samples that the buffer of a producer was made to hold.
pub uninterp spec fn capacity(producer: Producer<u16>) -> nat;

/// The samples that pass through the buffer of a producer, by number. Those that are not pushed
/// yet are whatever will be pushed.
pub uninterp spec fn stream(producer: Producer<u16>) -> Map<nat, u16>;

/// How many samples a producer has pushed.
pub uninterp spec fn pushed(producer: Producer<u16>) -> nat;

/// How many samples the consumer had popped when the producer last looked.
pub uninterp spec fn freed(producer: Producer<u16>) -> nat;

/// The samples that pass through the buffer of a consumer, by number.
pub uninterp spec fn source(consumer: Consumer<u16>) -> Map<nat, u16>;

/// How many samples a consumer has popped.
pub uninterp spec fn popped(consumer: Consumer<u16>) -> nat;

/// How many samples the producer had pushed when the consumer last looked.
pub uninterp spec fn seen(consumer: Consumer<u16>) -> nat;

/// Calls `ringbuf::RingBuffer::new`: a buffer with room for `size` samples. The call allocates one
/// slot more than that; the bound on `size` keeps the slots within what a `Vec` can hold.
#[verifier::external_body]
fn new_ring(size: usize) -> (ring: RingBuffer<u16>)
    requires
        size < 0x1000_0000,
    ensures
        ring_capacity(ring) == size,
{
    RingBuffer::new(size)
}

/// Calls `ringbuf::RingBuffer::split`: the two halves of a new buffer share its samples, and
/// neither has pushed or popped any.
#[verifier::external_body]
fn split_ring(ring: RingBuffer<u16>) -> (halves: (Producer<u16>, Consumer<u16>))
    ensures
        capacity(halves.0) == ring_capacity(ring),
        stream(halves.0) == source(halves.1),
        pushed(halves.0) == 0,
        freed(halves.0) == 0,
        popped(halves.1) == 0,
        seen(halves.1) == 0,
{
    ring.split()
}

/// What a push of `samples` does: as many of them as there is room for go in, from the first on. How
/// much room there is depends on what the consumer has popped when the push looks, which is no less
/// than at the look before.
pub open spec fn pushes(
    before: Producer<u16>,
    samples: Seq<u16>,
    count: nat,
    after: Producer<u16>,
) -> bool {
    let room = capacity(before) - (pushed(before) - freed(after));
    &&& freed(before) <= freed(after) <= pushed(before) <= freed(after) + capacity(before)
    &&& count == if samples.len() <= room {
        samples.len() as int
    } else {
        room
    }
    &&& capacity(after) == capacity(before)
    &&& stream(after) == stream(before)
    &&& pushed(after) == pushed(before) + count
    &&& forall|i: int|
        0 <= i < count ==> #[trigger] samples[i] == stream(before)[(pushed(before) + i) as nat]
}

/// Calls `ringbuf::Producer::push_iter`: the samples go in, in order, until they or the room are
/// used up, and the call returns how many went in. The call looks once at what the consumer has
/// popped; how much that is by then is left open.
#[verifier::external_body]
pub(crate) fn push_samples(producer: &mut Producer<u16>, samples: &Vec<u16>) -> (count: usize)
    ensures
        pushes(*old(producer), samples@, count as nat, *final(producer)),
{
    producer.push_iter(&mut samples.iter().copied())
}

/// What a pop does: it gives the oldest sample in the buffer, and `None` just where the buffer is
/// empty. What is in the buffer depends on what the producer has pushed when the pop looks, which is
/// no less than at the look before.
pub open spec fn pops(before: Consumer<u16>, sample: Option<u16>, after: Consumer<u16>) -> bool {
    &&& seen(before) <= seen(after)
    &&& popped(before) <= seen(after)
    &&& source(after) == source(before)
    &&& if popped(before) < seen(after) {
        &&& sample == Some(source(before)[popped(before)])
        &&& popped(after) == popped(before) + 1
    } else {
        &&& sample is None
        &&& popped(after) == popped(before)
    }
}

/// Calls `ringbuf::Consumer::pop`: the oldest sample in the buffer, or `None` where it is empty. The
/// call looks once at what the producer has pushed; how much that is by then is left open.
#[verifier::external_body]
fn pop_sample(consumer: &mut Consumer<u16>) -> (sample: Option<u16>)
    ensures
        pops(*old(consumer), sample, *final(consumer)),
{
    consumer.pop()
}

/// Reads `dasp::Frame::EQUILIBRIUM` of a mono frame of unsigned 16-bit samples: the middle of
/// their range.
#[verifier::external_body]
fn equilibrium() -> (frame: [u16; 1])
    ensures
        frame@ == seq![0x8000u16],
{
    <dasp::frame::Mono<u16> as dasp::Frame>::EQUILIBRIUM
}

/// Makes a playback buffer for one peer: the half that takes received samples, and the half that
/// gives them to the audio output.
pub fn playback_buffer() -> (halves: (Producer<u16>, Consumer<u16>))
    ensures
        capacity(halves.0) == PLAYBACK_CAPACITY,
        stream(halves.0) == source(halves.1),
        pushed(halves.0) == 0,
        freed(halves.0) == 0,
        popped(halves.1) == 0,
        seen(halves.1) == 0,
{
    split_ring(new_ring(PLAYBACK_CAPACITY))
}

/// The frame that a signal yields when a pop gave `sample`: that sample, or silence.
pub open spec fn frame_of(sample: Option<u16>) -> Seq<u16> {
    match sample {
        Some(s) => seq![s],
        None => seq![0x8000u16],
    }
}

/// The mono frame to play when a pop gave `sample`.
pub fn frame_or_silence(sample: Option<u16>) -> (frame: [u16; 1])
    ensures
        frame@ == frame_of(sample),
{
    match sample {
        Some(s) => {
            let frame = [s];
            assert(frame@ =~= seq![s]);
            frame
        },
        None => equilibrium(),
    }
}

/// A signal that reads samples from the consumer half of a playback buffer.
///
/// When `next` is called, it tries to pop a sample off the buffer. If there are no more samples,
/// the signal yields silent frames. Every frame is mono.
pub struct ConsumerSignal {
    consumer: Consumer<u16>,
}

impl ConsumerSignal {
    /// The consumer that the signal reads.
    pub closed spec fn consumer(&self) -> Consumer<u16> {
        self.consumer
    }

    /// A signal that reads `consumer`.
    pub fn new(consumer: Consumer<u16>) -> (signal: Self)
        ensures
            signal.consumer() == consumer,
    {
        ConsumerSignal { consumer }
    }

    /// The next frame: the oldest sample in the buffer where there is one, and silence where the
    /// buffer is empty. A silent frame takes no sample.
    pub fn next(&mut self) -> (frame: [u16; 1])
        ensures
            yields(old(self).consumer(), frame@, final(self).consumer()),
    {
        let sample = pop_sample(&mut self.consumer);
        frame_or_silence(sample)
    }
}

/// What the next frame of a signal is: a sample where there is one by then, and silence otherwise.
pub open spec fn yields(before: Consumer<u16>, frame: Seq<u16>, after: Consumer<u16>) -> bool {
    &&& seen(before) <= seen(after)
    &&& popped(before) <= seen(after)
    &&& source(after) == source(before)
    &&& if popped(before) < seen(after) {
        &&& frame == frame_of(Some(source(before)[popped(before)]))
        &&& popped(after) == popped(before) + 1
    } else {
        &&& frame == frame_of(None)
        &&& popped(after) == popped(before)
    }
}

/// The frames come from calls of `next` one after another, with the consumer in the states
/// `consumers` before, between and after them.
pub open spec fn yields_in_turn(consumers: Seq<Consumer<u16>>, frames: Seq<Seq<u16>>) -> bool {
    &&& consumers.len() == frames.len() + 1
    &&& forall|i: int|
        #![trigger frames[i]]
        0 <= i < frames.len() ==> yields(consumers[i], frames[i], consumers[i + 1])
}

/// Over any number of calls the stream stays the same, and neither what is popped nor what is seen
/// goes back.
proof fn lemma_yields_in_turn(
    consumers: Seq<Consumer<u16>>,
    frames: Seq<Seq<u16>>,
    from: int,
    to: int,
)
    requires
        yields_in_turn(consumers, frames),
        0 <= from <= to <= frames.len(),
    ensures
        source(consumers[to]) == source(consumers[from]),
        popped(consumers[from]) <= popped(consumers[to]) <= popped(consumers[from]) + (to - from),
        seen(consumers[from]) <= seen(consumers[to]),
    decreases to - from,
{
    if from < to {
        lemma_yields_in_turn(consumers, frames, from, to - 1);
        assert(yields(consumers[to - 1], frames[to - 1], consumers[to - 1 + 1]));
    }
}

/// Samples that the consumer has seen come out at the next calls, one each, in order: as many calls
/// as samples are seen and not popped yet give a sample every time, without a silent frame.
pub proof fn law_seen_samples_come_out(consumers: Seq<Consumer<u16>>, frames: Seq<Seq<u16>>)
    requires
        yields_in_turn(consumers, frames),
        popped(consumers[0]) + frames.len() <= seen(consumers[0]),
    ensures
        popped(consumers.last()) == popped(consumers[0]) + frames.len(),
        forall|i: int|
            0 <= i < frames.len() ==> #[trigger] frames[i] == frame_of(
                Some(source(consumers[0])[(popped(consumers[0]) + i) as nat]),
            ),
    decreases frames.len(),
{
    if frames.len() > 0 {
        let n = frames.len() - 1;
        let earlier = consumers.drop_last();
        let init = frames.drop_last();
        assert forall|i: int|
            #![trigger init[i]]
            0 <= i < init.len() implies yields(earlier[i], init[i], earlier[i + 1]) by {
            assert(yields(consumers[i], frames[i], consumers[i + 1]));
        }
        law_seen_samples_come_out(earlier, init);
        lemma_yields_in_turn(consumers, frames, 0, n);
        assert(yields(consumers[n], frames[n], consumers[n + 1]));
        assert forall|i: int| 0 <= i < frames.len() implies #[trigger] frames[i] == frame_of(
            Some(source(consumers[0])[(popped(consumers[0]) + i) as nat]),
        ) by {
            if i < n {
                assert(init[i] == frames[i]);
            }
        }
    }
}

/// No sample is lost or repeated, however many silent frames come between: every sample that was
/// popped over some calls came out at exactly one of them, and the samples came out in order.
pub proof fn law_no_sample_is_lost(
    consumers: Seq<Consumer<u16>>,
    frames: Seq<Seq<u16>>,
    number: nat,
)
    requires
        yields_in_turn(consumers, frames),
        popped(consumers[0]) <= number < popped(consumers.last()),
    ensures
        exists|i: int| #[trigger] gives(consumers, frames, i, number),
        forall|i: int, j: int, later: nat| #[trigger]
            gives(consumers, frames, i, number) && #[trigger] gives(consumers, frames, j, later)
                && number <= later ==> i <= j && (number == later ==> i == j),
{
    let n = frames.len() as int;
    lemma_yields_in_turn(consumers, frames, 0, n);
    lemma_given(consumers, frames, number, n);
    assert forall|i: int, j: int, later: nat| #[trigger]
        gives(consumers, frames, i, number) && #[trigger] gives(consumers, frames, j, later)
            && number <= later implies i <= j && (number == later ==> i == j) by {
        if j < i {
            lemma_yields_in_turn(consumers, frames, j + 1, i);
        }
        if i < j {
            lemma_yields_in_turn(consumers, frames, i + 1, j);
        }
    }
}

/// The call with the index `i` gives the sample with the given number.
pub open spec fn gives(
    consumers: Seq<Consumer<u16>>,
    frames: Seq<Seq<u16>>,
    i: int,
    number: nat,
) -> bool {
    &&& 0 <= i < frames.len()
    &&& popped(consumers[i]) == number
    &&& popped(consumers[i + 1]) == number + 1
    &&& frames[i] == frame_of(Some(source(consumers[0])[number]))
}

/// A sample that was popped by the first `to` calls was given by one of them.
proof fn lemma_given(
    consumers: Seq<Consumer<u16>>,
    frames: Seq<Seq<u16>>,
    number: nat,
    to: int,
)
    requires
        yields_in_turn(consumers, frames),
        0 <= to <= frames.len(),
        popped(consumers[0]) <= number < popped(consumers[to]),
    ensures
        exists|i: int| #[trigger] gives(consumers, frames, i, number),
    decreases to,
{
    if to > 0 {
        let i = to - 1;
        assert(yields(consumers[i], frames[i], consumers[i + 1]));
        if number < popped(consumers[i]) {
            lemma_given(consumers, frames, number, i);
        } else {
            lemma_yields_in_turn(consumers, frames, 0, i);
            assert(gives(consumers, frames, i, number));
        }
    }
}

/// Samples come out of a playback buffer in the order in which they went in: where a push took
/// `count` of `samples`, the consumer of the same buffer pops the `i`-th of them once it has popped
/// everything that was pushed before it.
pub proof fn law_first_in_first_out(
    before: Producer<u16>,
    samples: Seq<u16>,
    count: nat,
    after: Producer<u16>,
    consumer: Consumer<u16>,
    i: int,
)
    requires
        pushes(before, samples, count, after),
        source(consumer) == stream(after),
        0 <= i < count,
        popped(consumer) == pushed(before) + i,
    ensures
        source(consumer)[popped(consumer)] == samples[i],
{
}

/// What a push took is played: of the calls that pop past the `i`-th of its samples, exactly one has
/// that sample as its frame.
pub proof fn law_pushed_samples_are_played(
    before: Producer<u16>,
    samples: Seq<u16>,
    count: nat,
    after: Producer<u16>,
    consumers: Seq<Consumer<u16>>,
    frames: Seq<Seq<u16>>,
    i: int,
)
    requires
        pushes(before, samples, count, after),
        yields_in_turn(consumers, frames),
        source(consumers[0]) == stream(after),
        0 <= i < count,
        popped(consumers[0]) <= pushed(before) + i < popped(consumers.last()),
    ensures
        exists|k: int|
            {
                &&& #[trigger] gives(consumers, frames, k, (pushed(before) + i) as nat)
                &&& frames[k] == seq![samples[i]]
                &&& forall|other: int| #[trigger]
                    gives(consumers, frames, other, (pushed(before) + i) as nat) ==> other == k
            },
{
    let number = (pushed(before) + i) as nat;
    law_no_sample_is_lost(consumers, frames, number);
    let k = choose|k: int| gives(consumers, frames, k, number);
    assert(gives(consumers, frames, k, number));
    assert(samples[i] == stream(before)[number]);
}

/// A push takes every sample if and only if there is room for all, and otherwise fills the buffer.
/// Room that was there after one push is there at the next.
pub proof fn law_push_takes_what_fits(
    before: Producer<u16>,
    samples: Seq<u16>,
    count: nat,
    after: Producer<u16>,
)
    requires
        pushes(before, samples, count, after),
    ensures
        count == samples.len() <==> pushed(before) - freed(after) + samples.len() <= capacity(
            before,
        ),
        count < samples.len() ==> pushed(after) - freed(after) == capacity(after),
        pushed(after) - freed(after) <= capacity(after),
        pushed(before) - freed(before) + samples.len() <= capacity(before) ==> count
            == samples.len(),
{
}

/// A sample is played as it is, and silence is the middle of the range of samples.
pub proof fn law_frames_are_samples_or_silence(sample: u16)
    ensures
        frame_of(Some(sample)) == seq![sample],
        frame_of(None) == seq![32768u16],
{
}

/// Where a push leaves its samples: the `k`-th goes to the place in the stream that is `k` behind
/// everything pushed before. What was pushed before stays, as many go in as there are samples or free
/// slots, whichever is less, and the buffer stays as large.
pub proof fn law_push_appends_in_order(
    before: Producer<u16>,
    samples: Seq<u16>,
    count: nat,
    after: Producer<u16>,
    k: int,
)
    requires
        pushes(before, samples, count, after),
    ensures
        stream(after) == stream(before),
        capacity(after) == capacity(before),
        pushed(after) == pushed(before) + count,
        0 <= k < count ==> stream(after)[(pushed(before) + k) as nat] == samples[k],
        count <= samples.len(),
        pushed(after) - freed(after) <= capacity(after),
        count == samples.len() || pushed(after) - freed(after) == capacity(after),
        freed(before) <= freed(after) <= pushed(before),
{
}

/// A frame is the next sample of the stream where one is there, which is popped by that, and the
/// value 32768 where the buffer is empty.
pub proof fn law_frame_is_next_of_stream(
    before: Consumer<u16>,
    frame: Seq<u16>,
    after: Consumer<u16>,
)
    requires
        yields(before, frame, after),
    ensures
        frame.len() == 1,
        source(after) == source(before),
        seen(before) <= seen(after),
        popped(after) == popped(before) + 1 || popped(after) == popped(before),
        popped(before) < seen(after) <==> popped(after) == popped(before) + 1,
        popped(after) == popped(before) + 1 ==> frame[0] == source(before)[popped(before)],
        popped(after) == popped(before) ==> frame[0] == 32768,
        popped(after) <= seen(after),
{
}

/// A pop gives the next sample of the stream where one is there, and nothing where the buffer is
/// empty.
pub proof fn law_pop_takes_next_of_stream(
    before: Consumer<u16>,
    sample: Option<u16>,
    after: Consumer<u16>,
)
    requires
        pops(before, sample, after),
    ensures
        sample is Some <==> popped(before) < seen(after),
        sample matches Some(s) ==> s == source(before)[popped(before)] && popped(after) == popped(
            before,
        ) + 1,
        sample is None ==> popped(after) == popped(before),
        source(after) == source(before),
        seen(before) <= seen(after),
{
}

/// What a call of `next` returns: the oldest sample in the buffer, which is taken out by that, and
/// 32768 where there is none.
pub proof fn law_next_gives_oldest_or_silence(signal: &mut ConsumerSignal, frame: [u16; 1])
    requires
        call_ensures(ConsumerSignal::next, (signal,), frame),
    ensures
        ({
            let before = old(signal).consumer();
            let after = final(signal).consumer();
            let at = popped(before);
            &&& source(after) == source(before)
            &&& at < seen(before) ==> popped(after) == at + 1
            &&& popped(after) == at + 1 && frame@[0] == source(before)[at] || popped(after) == at
                && frame@[0] == 32768 && at >= seen(before)
        }),
{
}

} // verus!
