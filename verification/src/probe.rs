//! The latency probe: a sender that streams numbered packets of samples, and a receiver that plays
//! them and returns their numbers.
//!
//! Samples are 32-bit floating-point numbers, and are handled here by their bits.

use crate::le;
use crate::output::BufferSize;
use crate::output::StreamConfig;
use crate::output::SupportedStreamConfigRange;
use std::collections::HashMap;
use std::collections::VecDeque;
use vstd::prelude::*;
use vstd::slice::slice_subrange;

verus! {

broadcast use vstd::std_specs::hash::group_hash_axioms;

/// The buffer size of the probe's streams, in frames.
pub const BUFFER_SIZE: u32 = 64;

/// The number of bytes of a series number.
pub const SERIES_SIZE: usize = 4;

/// The size of the sender's buffer for returned series numbers.
pub const REPLY_CAPACITY: usize = 10;

/// The size of the receiver's buffer for packets.
pub const PACKET_CAPACITY: usize = 8192;

/// The number of samples that the receiver takes from a packet.
pub const BLOCK_LEN: usize = 1024;

/// The configuration to ask a device for: its first range, at the highest sample rate.
pub fn probe_config(ranges: &Vec<SupportedStreamConfigRange>) -> (config: Option<StreamConfig>)
    ensures
        config == if ranges@.len() > 0 {
            Some(
                StreamConfig {
                    channels: ranges@[0].channels,
                    sample_rate: ranges@[0].max_sample_rate,
                    buffer_size: BufferSize::Fixed(BUFFER_SIZE),
                },
            )
        } else {
            None
        },
{
    if ranges.len() > 0 {
        Some(
            StreamConfig {
                channels: ranges[0].channels,
                sample_rate: ranges[0].max_sample_rate,
                buffer_size: BufferSize::Fixed(BUFFER_SIZE),
            },
        )
    } else {
        None
    }
}

/// Samples as bytes: each as four bytes, least significant first.
pub open spec fn bytes_of_words(words: Seq<u32>) -> Seq<u8> {
    Seq::new(4 * words.len(), |i: int| le::le_bytes(words[i / 4] as nat, 4)[i % 4])
}

/// The packet with the number `series`.
pub open spec fn packet_of(series: u32, samples: Seq<u32>) -> Seq<u8> {
    le::le_bytes(series as nat, 4) + bytes_of_words(samples)
}

/// The series number that a reply begins with. Bytes that are missing count as zero.
pub open spec fn series_of(reply: Seq<u8>) -> nat {
    le::le_value(reply.take(if reply.len() < 4 { reply.len() as int } else { 4 }))
}

/// The sending half of the probe: the number of the next packet, and when each packet was sent, in
/// nanoseconds.
pub struct Sender {
    series: u32,
    sent: HashMap<u32, u128>,
}

impl Sender {
    /// The number of the next packet.
    pub closed spec fn series(&self) -> u32 {
        self.series
    }

    /// When each packet was sent.
    pub closed spec fn sent(&self) -> Map<u32, u128> {
        self.sent@
    }

    /// A sender that has sent nothing. Packets are numbered from one.
    pub fn new() -> (sender: Self)
        ensures
            sender.series() == 1,
            sender.sent() == Map::<u32, u128>::empty(),
    {
        Sender { series: 1, sent: HashMap::new() }
    }

    /// Builds the next packet, to be sent `now`.
    pub fn send(&mut self, samples: &[u32], now: u128) -> (packet: Vec<u8>)
        requires
            old(self).series() < u32::MAX,
        ensures
            packet@ == packet_of(old(self).series(), samples@),
            final(self).series() == old(self).series() + 1,
            final(self).sent() == old(self).sent().insert(old(self).series(), now),
    {
        self.sent.insert(self.series, now);
        let mut packet: Vec<u8> = le::encode_le(self.series as u128, SERIES_SIZE);
        let ghost head = packet@;
        assert(samples@.take(0) =~= Seq::empty());
        assert(head + bytes_of_words(samples@.take(0)) =~= head);
        let mut i: usize = 0;
        while i < samples.len()
            invariant
                i <= samples@.len(),
                packet@ =~= head + bytes_of_words(samples@.take(i as int)),
            decreases samples@.len() - i,
        {
            let ghost before = packet@;
            let mut word: Vec<u8> = le::encode_le(samples[i] as u128, 4);
            let ghost added = word@;
            proof {
                le::lemma_le_bytes_len(samples@[i as int] as nat, 4);
            }
            packet.append(&mut word);
            i = i + 1;
            assert(packet@ =~= head + bytes_of_words(samples@.take(i as int))) by {
                assert(packet@ == before + added);
            }
        }
        assert(samples@.take(samples@.len() as int) =~= samples@);
        self.series = self.series + 1;
        packet
    }

    /// Handles a returned series number: the number, and how long ago, in nanoseconds, that packet
    /// was sent, if it was.
    pub fn receive(&self, reply: &[u8], now: u128) -> (answer: (u32, Option<u128>))
        ensures
            answer.0 == series_of(reply@),
            answer.1 == if self.sent().contains_key(answer.0) {
                let start = self.sent()[answer.0];
                Some(
                    if start <= now {
                        (now - start) as u128
                    } else {
                        0
                    },
                )
            } else {
                None
            },
    {
        let width: usize = if reply.len() < SERIES_SIZE {
            reply.len()
        } else {
            SERIES_SIZE
        };
        let head: &[u8] = slice_subrange(reply, 0, width);
        let value: u128 = le::decode_le(head);
        proof {
            assert(head@ =~= reply@.take(width as int));
            le::lemma_le_value_bound(head@);
            le::lemma_widths();
            vstd::arithmetic::power::lemma_pow_increases(256, head@.len(), 4);
        }
        let series: u32 = value as u32;
        match self.sent.get(&series) {
            Some(start) => {
                let elapsed: u128 = if *start <= now {
                    now - *start
                } else {
                    0
                };
                (series, Some(elapsed))
            },
            None => (series, None),
        }
    }
}

/// A packet in the receiver's buffer, which is zero behind it.
pub open spec fn in_buffer(packet: Seq<u8>) -> Seq<u8> {
    Seq::new(
        PACKET_CAPACITY as nat,
        |i: int|
            if i < packet.len() {
                packet[i]
            } else {
                0
            },
    )
}

/// The samples that the receiver takes from a packet: as many as a block holds, with zeros where
/// the packet has no more.
pub open spec fn block_of(packet: Seq<u8>) -> Seq<u32> {
    Seq::new(
        BLOCK_LEN as nat,
        |i: int| le::le_value(in_buffer(packet).subrange(4 + 4 * i, 8 + 4 * i)) as u32,
    )
}

/// The receiving half of the probe: blocks of samples to play.
pub struct Receiver {
    blocks: VecDeque<Vec<u32>>,
}

impl Receiver {
    /// The blocks to play, next one first.
    pub closed spec fn blocks(&self) -> Seq<Seq<u32>> {
        self.blocks@.map_values(|block: Vec<u32>| block@)
    }

    /// Every block is full.
    pub open spec fn wf(&self) -> bool {
        forall|i: int| 0 <= i < self.blocks().len() ==> #[trigger] self.blocks()[i].len()
            == BLOCK_LEN
    }

    /// A receiver with nothing to play.
    pub fn new() -> (receiver: Self)
        ensures
            receiver.wf(),
            receiver.blocks() == Seq::<Seq<u32>>::empty(),
    {
        let receiver = Receiver { blocks: VecDeque::new() };
        assert(receiver.blocks() =~= Seq::<Seq<u32>>::empty());
        receiver
    }

    /// Handles a packet: queues its samples, and returns the series number to send back.
    pub fn receive(&mut self, packet: &[u8]) -> (reply: Vec<u8>)
        requires
            old(self).wf(),
            packet@.len() <= PACKET_CAPACITY,
        ensures
            final(self).wf(),
            final(self).blocks() == old(self).blocks().push(block_of(packet@)),
            reply@ == in_buffer(packet@).take(SERIES_SIZE as int),
    {
        let mut buffer: Vec<u8> = Vec::new();
        while buffer.len() < PACKET_CAPACITY
            invariant
                packet@.len() <= PACKET_CAPACITY,
                buffer@.len() <= PACKET_CAPACITY,
                buffer@ =~= in_buffer(packet@).take(buffer@.len() as int),
            decreases PACKET_CAPACITY - buffer@.len(),
        {
            let at: usize = buffer.len();
            if at < packet.len() {
                buffer.push(packet[at]);
            } else {
                buffer.push(0);
            }
        }
        assert(buffer@ =~= in_buffer(packet@));

        let mut block: Vec<u32> = Vec::new();
        while block.len() < BLOCK_LEN
            invariant
                buffer@ == in_buffer(packet@),
                block@.len() <= BLOCK_LEN,
                forall|j: int| 0 <= j < block@.len() ==> #[trigger] block@[j] == block_of(
                    packet@,
                )[j],
            decreases BLOCK_LEN - block@.len(),
        {
            let at: usize = SERIES_SIZE + 4 * block.len();
            let word: &[u8] = slice_subrange(buffer.as_slice(), at, at + 4);
            let value: u128 = le::decode_le(word);
            proof {
                le::lemma_le_value_bound(word@);
                le::lemma_widths();
            }
            block.push(value as u32);
        }
        let ghost before = self.blocks();
        let ghost samples = block@;
        assert(samples =~= block_of(packet@));
        self.blocks.push_back(block);
        assert(self.blocks() =~= before.push(samples));

        let mut reply: Vec<u8> = Vec::new();
        while reply.len() < SERIES_SIZE
            invariant
                buffer@ == in_buffer(packet@),
                reply@.len() <= SERIES_SIZE,
                reply@ =~= in_buffer(packet@).take(reply@.len() as int),
            decreases SERIES_SIZE - reply@.len(),
        {
            reply.push(buffer[reply.len()]);
        }
        reply
    }

    /// Whether there is a block to play.
    pub fn has_block(&self) -> (yes: bool)
        ensures
            yes <==> self.blocks().len() > 0,
    {
        self.blocks.len() > 0
    }

    /// The next `len` samples to play: the start of the next block, the rest of which is dropped,
    /// or silence where there is none.
    pub fn play(&mut self, len: usize) -> (samples: Vec<u32>)
        requires
            old(self).wf(),
            old(self).blocks().len() > 0 ==> len <= BLOCK_LEN,
        ensures
            final(self).wf(),
            if old(self).blocks().len() > 0 {
                &&& samples@ == old(self).blocks()[0].take(len as int)
                &&& final(self).blocks() == old(self).blocks().drop_first()
            } else {
                &&& samples@ == Seq::new(len as nat, |i: int| 0u32)
                &&& final(self).blocks() == old(self).blocks()
            },
    {
        let ghost before = self.blocks();
        let mut samples: Vec<u32> = Vec::new();
        match self.blocks.pop_front() {
            Some(block) => {
                proof {
                    assert(before[0] == block@);
                    assert(self.blocks() =~= before.drop_first());
                    assert forall|i: int| 0 <= i < self.blocks().len() implies #[trigger]
                        self.blocks()[i].len() == BLOCK_LEN by {
                        assert(before[i + 1].len() == BLOCK_LEN);
                    }
                }
                let mut i: usize = 0;
                while i < len
                    invariant
                        i <= len <= block@.len(),
                        samples@ =~= block@.take(i as int),
                    decreases len - i,
                {
                    samples.push(block[i]);
                    i = i + 1;
                }
            },
            None => {
                assert(before.len() == 0);
                let mut i: usize = 0;
                while i < len
                    invariant
                        i <= len,
                        samples@ =~= Seq::new(i as nat, |j: int| 0u32),
                    decreases len - i,
                {
                    samples.push(0);
                    i = i + 1;
                }
            },
        }
        samples
    }
}

/// The receiver takes from a packet what the sender put in: as many of the samples as a block
/// holds, with silence behind them, and the series number, which the sender reads back from the
/// reply.
pub proof fn law_packet_round_trip(series: u32, samples: Seq<u32>)
    ensures
        packet_of(series, samples).len() == SERIES_SIZE + 4 * samples.len(),
        block_of(packet_of(series, samples)) == Seq::new(
            BLOCK_LEN as nat,
            |i: int|
                if i < samples.len() {
                    samples[i]
                } else {
                    0u32
                },
        ),
        series_of(in_buffer(packet_of(series, samples)).take(SERIES_SIZE as int)) == series,
{
    let packet = packet_of(series, samples);
    let buffer = in_buffer(packet);
    le::lemma_widths();
    le::lemma_le_bytes_len(series as nat, 4);
    le::lemma_le_round_trip(series as nat, 4);
    assert(buffer.take(4) =~= le::le_bytes(series as nat, 4));
    assert(buffer.take(4).take(4) =~= buffer.take(4));
    assert forall|i: int| 0 <= i < BLOCK_LEN implies #[trigger] block_of(packet)[i] == if i
        < samples.len() {
        samples[i]
    } else {
        0
    } by {
        let word = buffer.subrange(4 + 4 * i, 8 + 4 * i);
        if i < samples.len() {
            le::lemma_le_bytes_len(samples[i] as nat, 4);
            le::lemma_le_round_trip(samples[i] as nat, 4);
            assert(word =~= le::le_bytes(samples[i] as nat, 4));
        } else {
            assert(forall|j: int| 0 <= j < word.len() ==> #[trigger] word[j] == 0);
            le::lemma_le_value_padding(Seq::empty(), word);
            assert(Seq::<u8>::empty() + word =~= word);
        }
    }
    assert(block_of(packet) =~= Seq::new(
        BLOCK_LEN as nat,
        |i: int|
            if i < samples.len() {
                samples[i]
            } else {
                0u32
            },
    ));
}

/// A packet, byte by byte: the series number, and then the samples in order, each as four bytes, the
/// lowest first.
pub proof fn law_packet_bytes(series: u32, samples: Seq<u32>, k: int)
    ensures
        ({
            let p = packet_of(series, samples);
            &&& p.len() == 4 + 4 * samples.len()
            &&& p[0] + 0x100 * p[1] + 0x1_0000 * p[2] + 0x100_0000 * p[3] == series
            &&& 0 <= k < samples.len() ==> p[4 + 4 * k] + 0x100 * p[5 + 4 * k] + 0x1_0000 * p[6 + 4
                * k] + 0x100_0000 * p[7 + 4 * k] == samples[k]
        }),
{
    le::lemma_widths();
    le::lemma_le_bytes_len(series as nat, 4);
    le::lemma_le_round_trip(series as nat, 4);
    le::law_small_numbers(le::le_bytes(series as nat, 4));
    if 0 <= k < samples.len() {
        le::lemma_le_bytes_len(samples[k] as nat, 4);
        le::lemma_le_round_trip(samples[k] as nat, 4);
        le::law_small_numbers(le::le_bytes(samples[k] as nat, 4));
    }
}

/// What is read from a packet, byte by byte: 1024 samples behind the first four bytes, where bytes
/// that are missing count as zero, and the first four bytes to be returned.
pub proof fn law_block_samples(packet: Seq<u8>, k: int)
    requires
        0 <= k < 1024,
    ensures
        ({
            let b = |i: int|
                if i < packet.len() {
                    packet[i] as int
                } else {
                    0
                };
            let reply = in_buffer(packet).take(SERIES_SIZE as int);
            &&& in_buffer(packet).len() == 8192
            &&& block_of(packet).len() == 1024
            &&& block_of(packet)[k] == b(4 + 4 * k) + 0x100 * b(5 + 4 * k) + 0x1_0000 * b(6 + 4 * k)
                + 0x100_0000 * b(7 + 4 * k)
            &&& reply.len() == 4
            &&& reply[0] == b(0) && reply[1] == b(1) && reply[2] == b(2) && reply[3] == b(3)
        }),
{
    let word = in_buffer(packet).subrange(4 + 4 * k, 8 + 4 * k);
    le::law_small_numbers(word);
    le::lemma_le_value_bound(word);
    le::lemma_widths();
}

/// The series number of a reply, byte by byte: its first four bytes, the lowest first, of which
/// missing ones count as zero.
pub proof fn law_series_bytes(reply: Seq<u8>)
    ensures
        ({
            let b = |i: int|
                if i < reply.len() {
                    reply[i] as int
                } else {
                    0
                };
            series_of(reply) == b(0) + 0x100 * b(1) + 0x1_0000 * b(2) + 0x100_0000 * b(3)
        }),
{
    let n = if reply.len() < 4 {
        reply.len() as int
    } else {
        4
    };
    let head = reply.take(n);
    let zeros = Seq::new((4 - n) as nat, |i: int| 0u8);
    le::lemma_le_value_padding(head, zeros);
    le::law_small_numbers(head + zeros);
}

/// What a call of `probe_config` returns: the first range at its highest rate, with buffers of 64
/// frames.
pub proof fn law_probe_takes_first_range(
    ranges: &Vec<SupportedStreamConfigRange>,
    config: Option<StreamConfig>,
)
    requires
        call_ensures(probe_config, (ranges,), config),
    ensures
        ranges@.len() == 0 <==> config is None,
        config matches Some(c) ==> c.channels == ranges@[0].channels && c.sample_rate
            == ranges@[0].max_sample_rate && c.buffer_size == BufferSize::Fixed(64),
{
}

/// What a call of `send` returns and keeps: the packet holds the number of the sender and then the
/// samples, the next packet has the next number, and when this one was sent can be looked up.
pub proof fn law_sent_packet(
    sender: &mut Sender,
    samples: &[u32],
    now: u128,
    packet: Vec<u8>,
    k: int,
)
    requires
        call_ensures(Sender::send, (sender, samples, now), packet),
    ensures
        ({
            let p = packet@;
            let series = old(sender).series();
            &&& p.len() == 4 + 4 * samples@.len()
            &&& p[0] + 0x100 * p[1] + 0x1_0000 * p[2] + 0x100_0000 * p[3] == series
            &&& 0 <= k < samples@.len() ==> p[4 + 4 * k] + 0x100 * p[5 + 4 * k] + 0x1_0000 * p[6 + 4
                * k] + 0x100_0000 * p[7 + 4 * k] == samples@[k]
            &&& final(sender).series() == series + 1
            &&& final(sender).sent().contains_key(series)
            &&& final(sender).sent()[series] == now
        }),
{
    law_packet_bytes(old(sender).series(), samples@, k);
}

/// What a call of `receive` measures: the time from when the packet with the returned number was sent
/// until now.
pub proof fn law_measured_time(
    sender: Sender,
    reply: &[u8],
    now: u128,
    answer: (u32, Option<u128>),
)
    requires
        call_ensures(Sender::receive, (&sender, reply, now), answer),
    ensures
        reply@.len() >= 4 ==> answer.0 == reply@[0] + 0x100 * reply@[1] + 0x1_0000 * reply@[2]
            + 0x100_0000 * reply@[3],
        answer.1 is Some <==> sender.sent().contains_key(answer.0),
        answer.1 matches Some(elapsed) ==> (sender.sent()[answer.0] <= now ==> sender.sent()[answer.0]
            + elapsed == now) && (sender.sent()[answer.0] > now ==> elapsed == 0),
{
    law_series_bytes(reply@);
}

/// What a call of `play` returns: the first samples of the oldest block, which is gone after that, or
/// silence where there is none.
pub proof fn law_played_samples(receiver: &mut Receiver, len: usize, samples: Vec<u32>, k: int)
    requires
        call_ensures(Receiver::play, (receiver, len), samples),
        old(receiver).wf(),
        old(receiver).blocks().len() > 0 ==> len <= 1024,
    ensures
        samples@.len() == len,
        old(receiver).blocks().len() > 0 ==> final(receiver).blocks() == old(receiver).blocks().skip(
            1,
        ) && (0 <= k < len ==> samples@[k] == old(receiver).blocks()[0][k]),
        old(receiver).blocks().len() == 0 ==> final(receiver).blocks() == old(receiver).blocks() && (
        0 <= k < len ==> samples@[k] == 0),
{
    if old(receiver).blocks().len() > 0 {
        assert(old(receiver).blocks()[0].len() == BLOCK_LEN);
        assert(old(receiver).blocks().drop_first() =~= old(receiver).blocks().skip(1));
    }
}

/// What a call of `receive` keeps and returns: the samples of the packet, behind those that wait, and
/// the four bytes that the packet begins with.
pub proof fn law_received_packet(
    receiver: &mut Receiver,
    packet: &[u8],
    reply: Vec<u8>,
    k: int,
)
    requires
        call_ensures(Receiver::receive, (receiver, packet), reply),
        0 <= k < 1024,
    ensures
        ({
            let b = |i: int|
                if i < packet@.len() {
                    packet@[i] as int
                } else {
                    0
                };
            let before = old(receiver).blocks();
            let after = final(receiver).blocks();
            &&& after.len() == before.len() + 1
            &&& after.drop_last() == before
            &&& after.last().len() == 1024
            &&& after.last()[k] == b(4 + 4 * k) + 0x100 * b(5 + 4 * k) + 0x1_0000 * b(6 + 4 * k)
                + 0x100_0000 * b(7 + 4 * k)
            &&& reply@.len() == 4
            &&& reply@[0] == b(0) && reply@[1] == b(1) && reply@[2] == b(2) && reply@[3] == b(3)
        }),
{
    law_block_samples(packet@, k);
    assert(final(receiver).blocks().drop_last() =~= old(receiver).blocks());
}

} // verus!
