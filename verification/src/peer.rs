//! The exchange of audio with the connected peers.

use crate::addr;
use crate::addr::SocketAddr;
use crate::le;
use crate::playback;
use crate::table;
use crate::table::Table;
use crate::wire;
use crate::wire::PeerMessage;
use crate::wire::PeerMessageKind;
use ringbuf::Consumer;
use ringbuf::Producer;
use vstd::prelude::*;

verus! {

/// One datagram for several peers.
#[derive(Debug, PartialEq, Eq)]
pub struct Broadcast {
    pub datagram: Vec<u8>,
    pub destinations: Vec<SocketAddr>,
}

/// What came of a received datagram.
#[derive(Debug, PartialEq, Eq)]
pub enum Received {
    /// It was not from a connected peer.
    Ignored,
    /// It was audio; `count` of its samples went into the peer's playback buffer.
    Played { count: usize },
    /// It was a ping, to be answered with `datagram`.
    Answer { datagram: Vec<u8> },
    /// It was the answer to a ping that was sent at `time`, in microseconds.
    Returned { time: u64 },
    /// It was no message.
    Refused { reason: &'static str },
}

/// A peer communicator.
///
/// The peer communicator is responsible for sending/receiving audio packets to/from connected
/// peers. Received audio is pushed onto a peer's associated playback buffer.
pub struct PeerCommunicator {
    /// The number of input audio channels.
    channels: u16,
    /// All currently connected peers. The key is the audio address of the peer, and the value is
    /// the producer half of its playback buffer.
    peers: Table<SocketAddr, Producer<u16>>,
    /// The address of the socket used for peer communication.
    local_addr: SocketAddr,
}

impl PeerCommunicator {
    /// The number of input audio channels.
    pub closed spec fn channels(&self) -> nat {
        self.channels as nat
    }

    /// The connected peers with their playback buffers, in the order in which they came.
    pub closed spec fn peers(&self) -> Seq<(SocketAddr, Producer<u16>)> {
        self.peers.entries()
    }

    /// The address of the socket used for peer communication.
    pub closed spec fn local(&self) -> SocketAddr {
        self.local_addr
    }

    /// No peer occurs twice.
    pub open spec fn wf(&self) -> bool {
        table::keys_distinct(self.peers())
    }

    /// Initializes a new peer communicator, with no peers, for the socket at `local_addr`.
    pub fn initialize(local_addr: SocketAddr, channels: u16) -> (communicator: Self)
        ensures
            communicator.wf(),
            communicator.channels() == channels,
            communicator.local() == local_addr,
            communicator.peers() == Seq::<(SocketAddr, Producer<u16>)>::empty(),
    {
        PeerCommunicator { channels, peers: Table::new(), local_addr }
    }

    /// Returns the local address of the socket used for peer communication.
    pub fn local_addr(&self) -> (addr: SocketAddr)
        ensures
            addr == self.local(),
    {
        self.local_addr
    }

    /// The addresses of the connected peers, to be pinged.
    pub fn addrs(&self) -> (addrs: Vec<SocketAddr>)
        ensures
            addrs@ == table::keys_of(self.peers()),
    {
        self.peers.keys()
    }

    /// Builds the datagram that sends audio samples to all connected peers: interleaved samples,
    /// downmixed to mono.
    pub fn send_samples(&self, samples: &[u16]) -> (broadcast: Broadcast)
        requires
            self.channels() > 0,
        ensures
            broadcast.datagram@ == wire::datagram_of(
                PeerMessageKind::Audio,
                wire::bytes_of_samples(wire::first_channel(samples@, self.channels())),
            ),
            broadcast.destinations@ == table::keys_of(self.peers()),
    {
        let mono: Vec<u16> = wire::downmix(samples, self.channels as usize);
        let content: Vec<u8> = wire::encode_samples(mono.as_slice());
        let datagram: Vec<u8> = wire::datagram(PeerMessageKind::Audio, content.as_slice());
        Broadcast { datagram, destinations: self.peers.keys() }
    }

    /// Adds a new peer by address.
    ///
    /// This will start accepting datagrams from the given address and push received audio data to
    /// its associated buffer.
    pub fn add(&mut self, addr: SocketAddr, producer: Producer<u16>)
        requires
            old(self).wf(),
        ensures
            final(self).wf(),
            final(self).peers() == table::with_entry(old(self).peers(), addr, producer),
            final(self).channels() == old(self).channels(),
            final(self).local() == old(self).local(),
    {
        proof {
            addr::lemma_addr_eq();
        }
        self.peers.insert(addr, producer);
    }

    /// Removes a peer by address.
    ///
    /// Incoming data from the associated address will no longer be accepted.
    pub fn remove(&mut self, addr: &SocketAddr)
        requires
            old(self).wf(),
        ensures
            final(self).wf(),
            final(self).peers() == table::without_key(old(self).peers(), *addr),
            final(self).channels() == old(self).channels(),
            final(self).local() == old(self).local(),
    {
        proof {
            addr::lemma_addr_eq();
        }
        let _ = self.peers.remove(addr);
    }

    /// Connects a peer: makes its playback buffer, starts accepting its datagrams, and returns the
    /// half of the buffer that belongs to the audio output.
    pub fn connect(&mut self, addr: SocketAddr) -> (consumer: Consumer<u16>)
        requires
            old(self).wf(),
        ensures
            final(self).wf(),
            final(self).channels() == old(self).channels(),
            final(self).local() == old(self).local(),
            playback::popped(consumer) == 0,
            playback::seen(consumer) == 0,
            exists|producer: Producer<u16>|
                {
                    &&& #[trigger] playback::stream(producer) == playback::source(consumer)
                    &&& playback::capacity(producer) == playback::PLAYBACK_CAPACITY
                    &&& playback::pushed(producer) == 0
                    &&& playback::freed(producer) == 0
                    &&& final(self).peers() == table::with_entry(old(self).peers(), addr, producer)
                },
    {
        let (producer, consumer) = playback::playback_buffer();
        assert(playback::stream(producer) == playback::source(consumer));
        self.add(addr, producer);
        consumer
    }

    /// Handles a datagram received from `src`. Datagrams that are not from one of the connected
    /// peers are skipped. Of a datagram that is longer than the buffer for them, the rest is not
    /// looked at.
    pub fn receive(&mut self, src: SocketAddr, datagram: &[u8]) -> (received: Received)
        requires
            old(self).wf(),
            table::has_key(old(self).peers(), src) ==> datagram@.len() >= 1,
        ensures
            final(self).wf(),
            final(self).channels() == old(self).channels(),
            final(self).local() == old(self).local(),
            handled(old(self).peers(), src, datagram@, received, final(self).peers()),
    {
        let ghost before = self.peers();
        proof {
            addr::lemma_addr_eq();
        }
        match self.peers.find(&src) {
            None => Received::Ignored,
            Some(i) => {
                let kept: &[u8] = wire::cut_datagram(datagram);
                match wire::parse_datagram(kept) {
                    Ok(PeerMessage::Audio { samples }) => {
                        let producer: &mut Producer<u16> = self.peers.value_at_mut(i);
                        let count: usize = playback::push_samples(producer, &samples);
                        let received = Received::Played { count };
                        proof {
                            let after = self.peers();
                            let arrived = wire::samples_of_bytes(kept@.drop_first());
                            assert(after =~= before.update(i as int, (src, after[i as int].1)));
                            assert(fed(before, src, arrived, i as int, received->count, after));
                        }
                        received
                    },
                    Ok(PeerMessage::Ping { content }) => Received::Answer {
                        datagram: wire::datagram(PeerMessageKind::Pong, content.as_slice()),
                    },
                    Ok(PeerMessage::Pong { time }) => Received::Returned { time },
                    Err(reason) => Received::Refused { reason },
                }
            },
        }
    }
}

/// Of `samples`, `count` go into the playback buffer of the peer `src`, which is the `i`-th. The
/// other peers stay as they are.
pub open spec fn fed(
    before: Seq<(SocketAddr, Producer<u16>)>,
    src: SocketAddr,
    samples: Seq<u16>,
    i: int,
    count: usize,
    after: Seq<(SocketAddr, Producer<u16>)>,
) -> bool {
    &&& 0 <= i < before.len()
    &&& before[i].0 == src
    &&& after == before.update(i, (src, after[i].1))
    &&& playback::pushes(before[i].1, samples, count as nat, after[i].1)
}

/// How a datagram from `src` is handled, given the peers before and after.
pub open spec fn handled(
    before: Seq<(SocketAddr, Producer<u16>)>,
    src: SocketAddr,
    datagram: Seq<u8>,
    received: Received,
    after: Seq<(SocketAddr, Producer<u16>)>,
) -> bool {
    let kept = wire::kept_of(datagram);
    let content = kept.drop_first();
    if !table::has_key(before, src) {
        received == Received::Ignored && after == before
    } else {
        match wire::kind_of(kept[0]) {
            Ok(PeerMessageKind::Audio) => received matches Received::Played { count }
                && exists|i: int|
                fed(before, src, wire::samples_of_bytes(content), i, count, after),
            Ok(PeerMessageKind::Ping) => received matches Received::Answer { datagram: d } && d@
                == wire::datagram_of(PeerMessageKind::Pong, content) && after == before,
            Ok(PeerMessageKind::Pong) => received matches Received::Returned { time } && time
                == wire::pong_time(content) && after == before,
            Err(reason) => received == (Received::Refused { reason }) && after == before,
        }
    }
}

/// Datagrams are accepted from a peer once it is added, and no longer once it is removed.
pub proof fn law_only_added_peers_are_heard(
    peers: Seq<(SocketAddr, Producer<u16>)>,
    addr: SocketAddr,
    producer: Producer<u16>,
    datagram: Seq<u8>,
    received: Received,
    after: Seq<(SocketAddr, Producer<u16>)>,
)
    requires
        table::keys_distinct(peers),
    ensures
        handled(table::with_entry(peers, addr, producer), addr, datagram, received, after)
            ==> received != Received::Ignored,
        handled(table::without_key(peers, addr), addr, datagram, received, after) ==> received
            == Received::Ignored && after == table::without_key(peers, addr),
{
    table::lemma_with_entry(peers, addr, producer);
    table::lemma_without_key(peers, addr);
}

/// What a peer sends does not decide how much is taken from it: one datagram, however long, adds at
/// most 512 samples to one playback buffer. Audio that fills the buffer for datagrams adds just 512
/// where so many slots are free.
pub proof fn law_datagram_adds_at_most_512_samples(
    before: Seq<(SocketAddr, Producer<u16>)>,
    src: SocketAddr,
    datagram: Seq<u8>,
    received: Received,
    after: Seq<(SocketAddr, Producer<u16>)>,
    i: int,
)
    requires
        table::keys_distinct(before),
        table::has_key(before, src) ==> datagram.len() >= 1,
        handled(before, src, datagram, received, after),
        0 <= i < before.len(),
    ensures
        received matches Received::Played { count } ==> count <= 512,
        after.len() == before.len(),
        playback::pushed(before[i].1) <= playback::pushed(after[i].1) <= playback::pushed(
            before[i].1,
        ) + 512,
        before[i].0 == src && datagram.len() >= wire::DATAGRAM_CAPACITY && wire::kind_of(
            datagram[0],
        ) == Ok::<PeerMessageKind, &'static str>(PeerMessageKind::Audio) && playback::pushed(
            before[i].1,
        ) - playback::freed(before[i].1) + 512 <= playback::capacity(before[i].1) ==> received == (
        Received::Played { count: 512 }) && playback::pushed(after[i].1) == playback::pushed(
            before[i].1,
        ) + 512,
{
    let arrived = wire::samples_of_bytes(wire::kept_of(datagram).drop_first());
    if before[i].0 == src {
        assert(table::has_key(before, src));
    }
    if let Received::Played { count } = received {
        assert(table::has_key(before, src));
        assert(arrived.len() <= 512);
        let k = choose|k: int| fed(before, src, arrived, k, count, after);
        assert(fed(before, src, arrived, k, count, after));
        if before[i].0 == src {
            assert(i == k);
        }
    }
}

/// The audio that one peer sends goes into the playback buffer that another keeps for it: the first
/// channel of the samples, as far as the datagram arrived, which may have been cut short after
/// `kept` bytes, no more than the receiver's buffer holds.
pub proof fn law_sent_audio_is_played(
    samples: Seq<u16>,
    channels: nat,
    kept: int,
    before: Seq<(SocketAddr, Producer<u16>)>,
    src: SocketAddr,
    received: Received,
    after: Seq<(SocketAddr, Producer<u16>)>,
)
    requires
        channels > 0,
        table::has_key(before, src),
        1 <= kept <= 1 + 2 * wire::first_channel(samples, channels).len(),
        kept <= wire::DATAGRAM_CAPACITY,
        handled(
            before,
            src,
            wire::datagram_of(
                PeerMessageKind::Audio,
                wire::bytes_of_samples(wire::first_channel(samples, channels)),
            ).take(kept),
            received,
            after,
        ),
    ensures
        ({
            let arrived = wire::first_channel(samples, channels).take((kept - 1) / 2);
            received matches Received::Played { count } && exists|i: int|
                fed(before, src, arrived, i, count, after)
        }),
{
    let mono = wire::first_channel(samples, channels);
    let bytes = wire::bytes_of_samples(mono);
    let sent = wire::datagram_of(PeerMessageKind::Audio, bytes);
    wire::law_samples_round_trip(mono, kept - 1);
    assert(sent.take(kept).drop_first() =~= bytes.take(kept - 1));
    assert(sent.take(kept)[0] == PeerMessageKind::Audio.byte());
    let arrived = mono.take((kept - 1) / 2);
    assert(wire::samples_of_bytes(sent.take(kept).drop_first()) == arrived);
}

/// A ping is answered with its own content, and the answer tells the pinging peer when it sent the
/// ping.
pub proof fn law_ping_is_answered(
    time: u64,
    theirs: Seq<(SocketAddr, Producer<u16>)>,
    us: SocketAddr,
    answer: Received,
    theirs_after: Seq<(SocketAddr, Producer<u16>)>,
    ours: Seq<(SocketAddr, Producer<u16>)>,
    them: SocketAddr,
    returned: Received,
    ours_after: Seq<(SocketAddr, Producer<u16>)>,
)
    requires
        table::has_key(theirs, us),
        table::has_key(ours, them),
        handled(
            theirs,
            us,
            wire::datagram_of(PeerMessageKind::Ping, le::le_bytes(time as nat, 16)),
            answer,
            theirs_after,
        ),
        answer matches Received::Answer { datagram } ==> handled(
            ours,
            them,
            datagram@,
            returned,
            ours_after,
        ),
    ensures
        answer is Answer,
        returned == (Received::Returned { time }),
        theirs_after == theirs,
        ours_after == ours,
{
    let content = le::le_bytes(time as nat, 16);
    le::lemma_le_bytes_len(time as nat, 16);
    assert(wire::datagram_of(PeerMessageKind::Ping, content).drop_first() =~= content);
    assert(wire::datagram_of(PeerMessageKind::Pong, content).drop_first() =~= content);
    le::lemma_le_bytes_take(time as nat, 16, 8);
    le::lemma_widths();
    le::lemma_le_round_trip(time as nat, 8);
}

/// What becomes of received audio, byte by byte: the `k`-th sample that goes into the sender's
/// playback buffer is the low byte at `1 + 2 * k` and the high byte at `2 + 2 * k` of the datagram.
/// As many go in as the first 1025 bytes hold, or as there are free slots, whichever is less. The
/// buffers of the other peers stay as they are.
pub proof fn law_received_audio_is_queued_in_order(
    before: Seq<(SocketAddr, Producer<u16>)>,
    src: SocketAddr,
    datagram: Seq<u8>,
    received: Received,
    after: Seq<(SocketAddr, Producer<u16>)>,
    i: int,
    j: int,
    k: int,
)
    requires
        table::keys_distinct(before),
        0 <= i < before.len(),
        before[i].0 == src,
        datagram.len() >= 1,
        datagram[0] == 0,
        handled(before, src, datagram, received, after),
    ensures
        ({
            let held = (if datagram.len() <= 1025 {
                datagram.len() - 1
            } else {
                1024
            }) / 2;
            let was = playback::pushed(before[i].1);
            let now = playback::pushed(after[i].1);
            let full = now - playback::freed(after[i].1) == playback::capacity(before[i].1);
            &&& received matches Received::Played { count }
            &&& now == was + count
            &&& count <= held
            &&& count < held ==> full
            &&& 0 <= k < count ==> playback::stream(after[i].1)[(was + k) as nat] == datagram[1 + 2
                * k] + 0x100 * datagram[2 + 2 * k]
        }),
        playback::stream(after[i].1) == playback::stream(before[i].1),
        playback::capacity(after[i].1) == playback::capacity(before[i].1),
        after.len() == before.len(),
        after[i].0 == src,
        0 <= j < before.len() && j != i ==> after[j] == before[j],
{
    assert(table::has_key(before, src));
    let kept = wire::kept_of(datagram);
    let arrived = wire::samples_of_bytes(kept.drop_first());
    wire::law_sample_bytes(Seq::empty(), kept.drop_first(), k);
    if let Received::Played { count } = received {
        let at = choose|at: int| fed(before, src, arrived, at, count, after);
        assert(fed(before, src, arrived, at, count, after));
        assert(at == i);
    }
}

/// What becomes of a received datagram that is no audio, byte by byte: a ping comes back with its
/// content unchanged, behind the byte of a pong; a pong tells the number in its eight bytes; anything
/// else is refused. A datagram from somebody who is not connected is ignored. No buffer changes.
pub proof fn law_other_datagrams_change_no_buffer(
    before: Seq<(SocketAddr, Producer<u16>)>,
    src: SocketAddr,
    bytes: Seq<u8>,
    received: Received,
    after: Seq<(SocketAddr, Producer<u16>)>,
    i: int,
    k: int,
)
    requires
        bytes.len() >= 1,
        handled(before, src, bytes, received, after),
    ensures
        (forall|j: int| 0 <= j < before.len() ==> (#[trigger] before[j]).0 != src) ==> received
            == Received::Ignored && after == before,
        0 <= i < before.len() && before[i].0 == src && bytes[0] == 1 ==> (received matches
            Received::Answer { datagram } && after == before && datagram@[0] == 2
            && datagram@.len() == (if bytes.len() <= 1025 {
            bytes.len() as int
        } else {
            1025
        }) && (1 <= k < datagram@.len() ==> datagram@[k] == bytes[k])),
        0 <= i < before.len() && before[i].0 == src && bytes[0] == 2 ==> (received matches
            Received::Returned { time } && after == before && time == ({
            let b = |i: int|
                if i < bytes.len() {
                    bytes[i] as int
                } else {
                    0
                };
            b(1) + 0x100 * b(2) + 0x1_0000 * b(3) + 0x100_0000 * b(4) + 0x1_0000_0000 * b(5)
                + 0x100_0000_0000 * b(6) + 0x1_0000_0000_0000 * b(7) + 0x100_0000_0000_0000 * b(8)
        })),
        0 <= i < before.len() && before[i].0 == src && bytes[0] > 2 ==> received == (
        Received::Refused { reason: "unknown peer message kind" }) && after == before,
{
    if 0 <= i < before.len() && before[i].0 == src {
        assert(table::has_key(before, src));
        wire::law_pong_time(wire::kept_of(bytes));
    }
}

/// Received audio is heard as it was sent: once the consumer has seen what a datagram added, the next
/// calls give its samples one after another, from the first on, each the number that two bytes of
/// the datagram denote.
pub proof fn law_received_audio_is_heard_in_order(
    before: Seq<(SocketAddr, Producer<u16>)>,
    src: SocketAddr,
    datagram: Seq<u8>,
    received: Received,
    after: Seq<(SocketAddr, Producer<u16>)>,
    i: int,
    consumers: Seq<Consumer<u16>>,
    frames: Seq<Seq<u16>>,
    k: int,
)
    requires
        table::keys_distinct(before),
        0 <= i < before.len(),
        before[i].0 == src,
        datagram.len() >= 1,
        datagram[0] == 0,
        handled(before, src, datagram, received, after),
        playback::yields_in_turn(consumers, frames),
        playback::source(consumers[0]) == playback::stream(before[i].1),
        playback::popped(consumers[0]) == playback::pushed(before[i].1),
        playback::seen(consumers[0]) >= playback::pushed(after[i].1),
        received matches Received::Played { count } ==> frames.len() <= count,
        0 <= k < frames.len(),
    ensures
        frames[k].len() == 1,
        frames[k][0] == datagram[1 + 2 * k] + 0x100 * datagram[2 + 2 * k],
{
    law_received_audio_is_queued_in_order(before, src, datagram, received, after, i, i, k);
    playback::law_seen_samples_come_out(consumers, frames);
}

/// What is sent of samples, byte by byte: a zero, and then of every frame the first sample, low byte
/// first, in order.
pub proof fn law_sent_bytes(samples: Seq<u16>, channels: nat, k: int)
    requires
        channels > 0,
    ensures
        ({
            let sent = wire::datagram_of(
                PeerMessageKind::Audio,
                wire::bytes_of_samples(wire::first_channel(samples, channels)),
            );
            let n = (sent.len() - 1) / 2;
            &&& sent.len() == 1 + 2 * n
            &&& sent[0] == 0
            &&& samples.len() <= n * channels
            &&& samples.len() == 0 ==> n == 0
            &&& samples.len() > 0 ==> (n - 1) * channels < samples.len()
            &&& 0 <= k < n ==> sent[1 + 2 * k] + 0x100 * sent[2 + 2 * k] == samples[k * channels]
        }),
{
    let mono = wire::first_channel(samples, channels);
    wire::law_downmix_keeps_first_of_frame(samples, channels, k);
    wire::law_sample_bytes(mono, Seq::empty(), k);
}

/// The audio that one peer sends goes into the playback buffer that another keeps for it, in order:
/// the `k`-th place behind what was there gets the first sample of the `k`-th frame.
pub proof fn law_sent_audio_is_queued_in_order(
    samples: Seq<u16>,
    channels: nat,
    kept: int,
    before: Seq<(SocketAddr, Producer<u16>)>,
    src: SocketAddr,
    received: Received,
    after: Seq<(SocketAddr, Producer<u16>)>,
    i: int,
    k: int,
)
    requires
        channels > 0,
        table::keys_distinct(before),
        0 <= i < before.len(),
        before[i].0 == src,
        1 <= kept <= 1 + 2 * wire::first_channel(samples, channels).len(),
        kept <= 1025,
        handled(
            before,
            src,
            wire::datagram_of(
                PeerMessageKind::Audio,
                wire::bytes_of_samples(wire::first_channel(samples, channels)),
            ).take(kept),
            received,
            after,
        ),
    ensures
        ({
            let was = playback::pushed(before[i].1);
            &&& received matches Received::Played { count }
            &&& playback::pushed(after[i].1) == was + count
            &&& count <= (kept - 1) / 2
            &&& count < (kept - 1) / 2 ==> playback::pushed(after[i].1) - playback::freed(
                after[i].1,
            ) == playback::capacity(after[i].1)
            &&& 0 <= k < count ==> playback::stream(after[i].1)[(was + k) as nat] == samples[k
                * channels]
        }),
{
    let sent = wire::datagram_of(
        PeerMessageKind::Audio,
        wire::bytes_of_samples(wire::first_channel(samples, channels)),
    );
    law_sent_bytes(samples, channels, k);
    wire::law_sample_bytes(wire::first_channel(samples, channels), Seq::empty(), k);
    law_received_audio_is_queued_in_order(before, src, sent.take(kept), received, after, i, i, k);
}

/// What a call of `receive` does with audio of the peer that is the `i`-th: the `k`-th sample that
/// goes into its playback buffer is the number in the bytes `1 + 2 * k` and `2 + 2 * k`.
pub proof fn law_receive_queues_samples_in_order(
    communicator: &mut PeerCommunicator,
    src: SocketAddr,
    datagram: &[u8],
    received: Received,
    i: int,
    k: int,
)
    requires
        call_ensures(PeerCommunicator::receive, (communicator, src, datagram), received),
        old(communicator).wf(),
        0 <= i < old(communicator).peers().len(),
        old(communicator).peers()[i].0 == src,
        datagram@.len() >= 1,
        datagram@[0] == 0,
    ensures
        ({
            let before = old(communicator).peers()[i].1;
            let after = final(communicator).peers()[i].1;
            let was = playback::pushed(before);
            &&& final(communicator).peers()[i].0 == src
            &&& received matches Received::Played { count }
            &&& playback::pushed(after) == was + count
            &&& 0 <= k < count ==> playback::stream(after)[(was + k) as nat] == datagram@[1 + 2 * k]
                + 0x100 * datagram@[2 + 2 * k]
            &&& 2 * count + 1 <= datagram@.len()
            &&& datagram@.len() <= 1025 && was - playback::freed(before) + (datagram@.len() - 1) / 2
                <= playback::capacity(before) ==> count == (datagram@.len() - 1) / 2
        }),
{
    law_received_audio_is_queued_in_order(
        old(communicator).peers(),
        src,
        datagram@,
        received,
        final(communicator).peers(),
        i,
        i,
        k,
    );
}

/// What a call of `send_samples` returns: a zero byte and the first sample of every frame, in order,
/// low byte first, for every connected peer.
pub proof fn law_send_samples_keeps_first_of_frame(
    communicator: PeerCommunicator,
    samples: &[u16],
    broadcast: Broadcast,
    k: int,
    i: int,
)
    requires
        call_ensures(PeerCommunicator::send_samples, (&communicator, samples), broadcast),
        communicator.channels() > 0,
    ensures
        ({
            let sent = broadcast.datagram@;
            let n = (sent.len() - 1) / 2;
            &&& sent.len() == 1 + 2 * n
            &&& sent[0] == 0
            &&& samples@.len() <= n * communicator.channels()
            &&& samples@.len() == 0 ==> n == 0
            &&& samples@.len() > 0 ==> (n - 1) * communicator.channels() < samples@.len()
            &&& 0 <= k < n ==> sent[1 + 2 * k] + 0x100 * sent[2 + 2 * k] == samples@[k
                * communicator.channels()]
        }),
        broadcast.destinations@.len() == communicator.peers().len(),
        0 <= i < communicator.peers().len() ==> broadcast.destinations@[i]
            == communicator.peers()[i].0,
{
    law_sent_bytes(samples@, communicator.channels(), k);
}

/// A communicator is well-formed just where no peer occurs twice.
pub proof fn law_no_peer_occurs_twice(communicator: PeerCommunicator)
    ensures
        communicator.wf() <==> (forall|i: int, j: int|
            0 <= i < communicator.peers().len() && 0 <= j < communicator.peers().len() && i != j
                ==> (#[trigger] communicator.peers()[i]).0 != (
            #[trigger] communicator.peers()[j]).0),
{
    table::law_distinct_keys(communicator.peers());
}

/// What calls of `add` and `remove` do: a new peer comes last, one that is removed is gone, and the
/// others stay as they are.
pub proof fn law_peers_are_added_and_removed(
    communicator: &mut PeerCommunicator,
    addr: SocketAddr,
    producer: Producer<u16>,
    other: &mut PeerCommunicator,
    i: int,
)
    requires
        call_ensures(PeerCommunicator::add, (communicator, addr, producer), ()),
        call_ensures(PeerCommunicator::remove, (other, &addr), ()),
        old(communicator).wf(),
        old(other).wf(),
    ensures
        (forall|k: int| 0 <= k < old(communicator).peers().len() ==> (#[trigger] old(communicator).peers()[k]).0 != addr) ==> final(communicator).peers() == old(communicator).peers().push(
            (addr, producer),
        ),
        0 <= i < old(communicator).peers().len() && old(communicator).peers()[i].0 == addr ==> final(communicator).peers() == old(communicator).peers().update(i, (addr, producer)),
        0 <= i < old(other).peers().len() && old(other).peers()[i].0 == addr ==> final(other).peers() == old(other).peers().remove(i),
        (forall|k: int| 0 <= k < old(other).peers().len() ==> (#[trigger] old(other).peers()[k]).0
            != addr) ==> final(other).peers() == old(other).peers(),
{
    let entries = old(communicator).peers();
    table::law_leaving_out_removes_one_entry(old(other).peers(), addr, i);
    if 0 <= i < entries.len() && entries[i].0 == addr {
        assert(table::has_key(entries, addr));
        assert(table::with_entry(entries, addr, producer) =~= entries.update(i, (addr, producer)));
    }
}

} // verus!
