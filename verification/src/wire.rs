//! The datagrams that peers exchange: one byte for the kind of message, then its content.

use crate::le;
use vstd::prelude::*;
use vstd::slice::slice_subrange;
use vstd::slice::slice_to_vec;

verus! {

/// The size of the buffer for received datagrams: two channels of 256 samples of two bytes each,
/// and one byte for the message kind.
pub const DATAGRAM_CAPACITY: usize = 1025;

/// What the buffer for received datagrams keeps of a datagram, however long it is.
pub open spec fn kept_of(bytes: Seq<u8>) -> Seq<u8> {
    if bytes.len() <= DATAGRAM_CAPACITY {
        bytes
    } else {
        bytes.take(DATAGRAM_CAPACITY as int)
    }
}

/// Cuts a datagram to what the buffer for received datagrams keeps of it.
pub fn cut_datagram(bytes: &[u8]) -> (kept: &[u8])
    ensures
        kept@ == kept_of(bytes@),
{
    if bytes.len() <= DATAGRAM_CAPACITY {
        bytes
    } else {
        let kept: &[u8] = slice_subrange(bytes, 0, DATAGRAM_CAPACITY);
        assert(kept@ =~= bytes@.take(DATAGRAM_CAPACITY as int));
        kept
    }
}

/// The kind of a message between peers.
#[derive(Clone, Copy, Debug, PartialEq, Eq, Structural)]
pub enum PeerMessageKind {
    Audio,
    Ping,
    Pong,
}

impl PeerMessageKind {
    /// The byte that stands for the kind.
    pub open spec fn byte(self) -> u8 {
        match self {
            PeerMessageKind::Audio => 0,
            PeerMessageKind::Ping => 1,
            PeerMessageKind::Pong => 2,
        }
    }

    /// The byte that stands for the kind.
    pub fn to_byte(self) -> (byte: u8)
        ensures
            byte == self.byte(),
    {
        match self {
            PeerMessageKind::Audio => 0,
            PeerMessageKind::Ping => 1,
            PeerMessageKind::Pong => 2,
        }
    }
}

/// What a byte says about the kind of a message.
pub open spec fn kind_of(value: u8) -> Result<PeerMessageKind, &'static str> {
    if value == 0 {
        Ok(PeerMessageKind::Audio)
    } else if value == 1 {
        Ok(PeerMessageKind::Ping)
    } else if value == 2 {
        Ok(PeerMessageKind::Pong)
    } else {
        Err("unknown peer message kind")
    }
}

impl TryFrom<u8> for PeerMessageKind {
    type Error = &'static str;

    fn try_from(value: u8) -> (kind: Result<Self, Self::Error>) {
        match value {
            0 => Ok(PeerMessageKind::Audio),
            1 => Ok(PeerMessageKind::Ping),
            2 => Ok(PeerMessageKind::Pong),
            _ => Err("unknown peer message kind"),
        }
    }
}

impl vstd::std_specs::convert::TryFromSpecImpl<u8> for PeerMessageKind {
    open spec fn obeys_try_from_spec() -> bool {
        true
    }

    open spec fn try_from_spec(value: u8) -> Result<Self, Self::Error> {
        kind_of(value)
    }
}

/// Every kind is read back from its byte, and every other byte is refused.
pub proof fn law_kind_round_trip(kind: PeerMessageKind, value: u8)
    ensures
        kind_of(kind.byte()) == Ok::<PeerMessageKind, &'static str>(kind),
        kind_of(value) matches Ok(k) ==> k.byte() == value,
        kind_of(value) is Err <==> value > 2,
{
}

/// The datagram that carries a message.
pub open spec fn datagram_of(kind: PeerMessageKind, content: Seq<u8>) -> Seq<u8> {
    seq![kind.byte()] + content
}

/// Builds the datagram that carries a message.
pub fn datagram(kind: PeerMessageKind, content: &[u8]) -> (bytes: Vec<u8>)
    ensures
        bytes@ == datagram_of(kind, content@),
{
    let mut bytes: Vec<u8> = Vec::new();
    bytes.push(kind.to_byte());
    let mut tail: Vec<u8> = slice_to_vec(content);
    bytes.append(&mut tail);
    assert(bytes@ =~= datagram_of(kind, content@));
    bytes
}

/// Samples as bytes: each as two bytes, least significant first.
pub open spec fn bytes_of_samples(samples: Seq<u16>) -> Seq<u8> {
    Seq::new(
        2 * samples.len(),
        |i: int| le::le_bytes(samples[i / 2] as nat, 2)[i % 2],
    )
}

/// Bytes as samples, two bytes each. A single byte at the end is left out.
pub open spec fn samples_of_bytes(bytes: Seq<u8>) -> Seq<u16> {
    Seq::new(
        bytes.len() / 2,
        |i: int| le::le_value(bytes.subrange(2 * i, 2 * i + 2)) as u16,
    )
}

/// Encodes samples.
pub fn encode_samples(samples: &[u16]) -> (bytes: Vec<u8>)
    ensures
        bytes@ == bytes_of_samples(samples@),
{
    let mut bytes: Vec<u8> = Vec::new();
    let mut i: usize = 0;
    while i < samples.len()
        invariant
            i <= samples@.len(),
            bytes@ =~= bytes_of_samples(samples@.take(i as int)),
        decreases samples@.len() - i,
    {
        let ghost before = bytes@;
        let mut sample: Vec<u8> = le::encode_le(samples[i] as u128, 2);
        let ghost added = sample@;
        proof {
            le::lemma_le_bytes_len(samples@[i as int] as nat, 2);
        }
        bytes.append(&mut sample);
        i = i + 1;
        assert(bytes@ =~= bytes_of_samples(samples@.take(i as int))) by {
            assert(bytes@ == before + added);
        }
    }
    assert(samples@.take(samples@.len() as int) =~= samples@);
    bytes
}

/// Decodes samples.
pub fn decode_samples(bytes: &[u8]) -> (samples: Vec<u16>)
    ensures
        samples@ == samples_of_bytes(bytes@),
{
    let mut samples: Vec<u16> = Vec::new();
    let len: usize = bytes.len();
    let count: usize = len / 2;
    let mut i: usize = 0;
    while i < count
        invariant
            i <= count,
            len == bytes@.len(),
            count == len / 2,
            samples@.len() == i,
            forall|j: int| 0 <= j < i ==> #[trigger] samples@[j] == samples_of_bytes(bytes@)[j],
        decreases count - i,
    {
        let pair: &[u8] = slice_subrange(bytes, 2 * i, 2 * i + 2);
        let value: u128 = le::decode_le(pair);
        proof {
            le::lemma_le_value_bound(pair@);
            le::lemma_widths();
        }
        samples.push(value as u16);
        i = i + 1;
    }
    samples
}

/// The number of frames of `channels` samples in `len` samples; the last may be incomplete.
pub open spec fn frame_count(len: nat, channels: nat) -> nat {
    (len + channels - 1) as nat / channels
}

/// The first sample of every frame.
pub open spec fn first_channel<T>(samples: Seq<T>, channels: nat) -> Seq<T> {
    Seq::new(frame_count(samples.len(), channels), |i: int| samples[i * channels])
}

/// Downmixes interleaved samples to mono: of every frame the first sample stays.
pub fn downmix<T: Copy>(samples: &[T], channels: usize) -> (mono: Vec<T>)
    requires
        channels > 0,
    ensures
        mono@ == first_channel(samples@, channels as nat),
{
    let mut mono: Vec<T> = Vec::new();
    let mut rest: usize = samples.len();
    proof {
        let c = channels as int;
        assert(0 * c == 0) by (nonlinear_arith);
        vstd::arithmetic::div_mod::lemma_fundamental_div_mod_converse(c - 1, c, 0, c - 1);
    }
    while rest > 0
        invariant
            channels > 0,
            rest <= samples@.len(),
            rest > 0 ==> mono@.len() * channels == samples@.len() - rest,
            rest == 0 ==> mono@.len() == frame_count(samples@.len(), channels as nat),
            forall|j: int| 0 <= j < mono@.len() ==> #[trigger] mono@[j] == samples@[j * channels],
        decreases rest,
    {
        mono.push(samples[samples.len() - rest]);
        let ghost n = mono@.len() as int;
        proof {
            let c = channels as int;
            assert(n * c == (n - 1) * c + c) by (nonlinear_arith);
            if rest <= channels {
                let len = samples@.len() as int;
                vstd::arithmetic::div_mod::lemma_fundamental_div_mod_converse(
                    len + c - 1,
                    c,
                    n,
                    len + c - 1 - n * c,
                );
            }
        }
        if rest <= channels {
            rest = 0;
        } else {
            rest = rest - channels;
        }
    }
    assert(mono@ =~= first_channel(samples@, channels as nat));
    mono
}

/// A message between peers.
#[derive(Debug, PartialEq, Eq)]
pub enum PeerMessage {
    /// Samples to play.
    Audio { samples: Vec<u16> },
    /// Content to be sent back.
    Ping { content: Vec<u8> },
    /// The time in a returned ping, in microseconds.
    Pong { time: u64 },
}

/// The time that the content of a returned ping begins with: eight bytes, of which those that are
/// missing count as zero.
pub open spec fn pong_time(content: Seq<u8>) -> nat {
    le::le_value(content.take(if content.len() < 8 { content.len() as int } else { 8 }))
}

/// A received datagram stands for a message.
pub open spec fn message_matches(bytes: Seq<u8>, message: Result<PeerMessage, &'static str>) -> bool {
    let content = bytes.drop_first();
    match kind_of(bytes[0]) {
        Ok(PeerMessageKind::Audio) => message matches Ok(PeerMessage::Audio { samples })
            && samples@ == samples_of_bytes(content),
        Ok(PeerMessageKind::Ping) => message matches Ok(PeerMessage::Ping { content: c }) && c@
            == content,
        Ok(PeerMessageKind::Pong) => message matches Ok(PeerMessage::Pong { time }) && time
            == pong_time(content),
        Err(reason) => message matches Err(r) && r == reason,
    }
}

/// Reads a received datagram.
pub fn parse_datagram(bytes: &[u8]) -> (message: Result<PeerMessage, &'static str>)
    requires
        bytes@.len() >= 1,
    ensures
        message_matches(bytes@, message),
{
    let content: &[u8] = slice_subrange(bytes, 1, bytes.len());
    assert(content@ =~= bytes@.drop_first());
    match PeerMessageKind::try_from(bytes[0]) {
        Ok(PeerMessageKind::Audio) => Ok(PeerMessage::Audio { samples: decode_samples(content) }),
        Ok(PeerMessageKind::Ping) => Ok(PeerMessage::Ping { content: slice_to_vec(content) }),
        Ok(PeerMessageKind::Pong) => {
            let width: usize = if content.len() < 8 {
                content.len()
            } else {
                8
            };
            let head: &[u8] = slice_subrange(content, 0, width);
            let value: u128 = le::decode_le(head);
            proof {
                assert(head@ =~= content@.take(width as int));
                le::lemma_le_value_bound(head@);
                le::lemma_widths();
                vstd::arithmetic::power::lemma_pow_increases(256, head@.len(), 8);
            }
            Ok(PeerMessage::Pong { time: value as u64 })
        },
        Err(reason) => Err(reason),
    }
}

/// Builds the ping that is sent at `time`, in microseconds.
pub fn ping_datagram(time: u128) -> (bytes: Vec<u8>)
    ensures
        bytes@ == datagram_of(PeerMessageKind::Ping, le::le_bytes(time as nat, 16)),
{
    let content: Vec<u8> = le::encode_le(time, 16);
    datagram(PeerMessageKind::Ping, content.as_slice())
}

/// The round-trip time, in nanoseconds, of a ping that was sent at `time` microseconds and came
/// back at `now` nanoseconds.
pub fn round_trip_time(now: u128, time: u64) -> (nanos: u128)
    requires
        time * 1000 <= now,
    ensures
        nanos == now - time * 1000,
{
    now - time as u128 * 1000
}

/// Decoding the first bytes of encoded samples gives the samples that are complete there.
pub proof fn law_samples_round_trip(samples: Seq<u16>, kept: int)
    requires
        0 <= kept <= 2 * samples.len(),
    ensures
        samples_of_bytes(bytes_of_samples(samples).take(kept)) == samples.take(kept / 2),
        samples_of_bytes(bytes_of_samples(samples)) == samples,
{
    let bytes = bytes_of_samples(samples);
    assert forall|i: int| 0 <= i < samples.len() implies #[trigger] le::le_value(
        bytes.subrange(2 * i, 2 * i + 2),
    ) == samples[i] by {
        le::lemma_le_bytes_len(samples[i] as nat, 2);
        le::lemma_widths();
        le::lemma_le_round_trip(samples[i] as nat, 2);
        assert(bytes.subrange(2 * i, 2 * i + 2) =~= le::le_bytes(samples[i] as nat, 2));
    }
    let part = bytes.take(kept);
    assert forall|i: int| 0 <= i < kept / 2 implies #[trigger] samples_of_bytes(part)[i]
        == samples[i] by {
        assert(part.subrange(2 * i, 2 * i + 2) =~= bytes.subrange(2 * i, 2 * i + 2));
    }
    assert(samples_of_bytes(part) =~= samples.take(kept / 2));
    assert(samples_of_bytes(bytes) =~= samples);
}

/// A peer reads back the audio that another sent. Where its buffer cut the datagram short after
/// `kept` bytes, it reads the samples that are complete there.
pub proof fn law_audio_round_trip(
    samples: Seq<u16>,
    kept: int,
    message: Result<PeerMessage, &'static str>,
)
    requires
        1 <= kept <= 1 + 2 * samples.len(),
        message_matches(
            datagram_of(PeerMessageKind::Audio, bytes_of_samples(samples)).take(kept),
            message,
        ),
    ensures
        message matches Ok(PeerMessage::Audio { samples: s }) && s@ == samples.take(
            (kept - 1) / 2,
        ),
{
    let sent = datagram_of(PeerMessageKind::Audio, bytes_of_samples(samples));
    law_samples_round_trip(samples, kept - 1);
    assert(sent.take(kept).drop_first() =~= bytes_of_samples(samples).take(kept - 1));
}

/// The answer to a ping, which returns its content, tells the time at which the ping was sent.
pub proof fn law_ping_round_trip(
    time: u64,
    ping: Result<PeerMessage, &'static str>,
    pong: Result<PeerMessage, &'static str>,
)
    requires
        message_matches(
            datagram_of(PeerMessageKind::Ping, le::le_bytes(time as nat, 16)),
            ping,
        ),
        ping matches Ok(PeerMessage::Ping { content }) ==> message_matches(
            datagram_of(PeerMessageKind::Pong, content@),
            pong,
        ),
    ensures
        ping is Ok,
        pong == Ok::<PeerMessage, &'static str>(PeerMessage::Pong { time }),
{
    let content = le::le_bytes(time as nat, 16);
    le::lemma_le_bytes_len(time as nat, 16);
    assert(datagram_of(PeerMessageKind::Ping, content).drop_first() =~= content);
    assert(datagram_of(PeerMessageKind::Pong, content).drop_first() =~= content);
    le::lemma_le_bytes_take(time as nat, 16, 8);
    le::lemma_widths();
    le::lemma_le_round_trip(time as nat, 8);
}

/// Audio is 0, a ping 1 and a pong 2; no other byte is a kind.
pub proof fn law_kind_bytes(value: u8)
    ensures
        PeerMessageKind::Audio.byte() == 0,
        PeerMessageKind::Ping.byte() == 1,
        PeerMessageKind::Pong.byte() == 2,
        kind_of(0) == Ok::<PeerMessageKind, &'static str>(PeerMessageKind::Audio),
        kind_of(1) == Ok::<PeerMessageKind, &'static str>(PeerMessageKind::Ping),
        kind_of(2) == Ok::<PeerMessageKind, &'static str>(PeerMessageKind::Pong),
        value > 2 ==> kind_of(value) == Err::<PeerMessageKind, &'static str>(
            "unknown peer message kind",
        ),
{
}

/// A datagram is the byte of its kind and then its content, unchanged.
pub proof fn law_datagram_bytes(kind: PeerMessageKind, content: Seq<u8>, i: int)
    requires
        0 <= i < content.len(),
    ensures
        datagram_of(kind, content).len() == 1 + content.len(),
        datagram_of(kind, content)[0] == match kind {
            PeerMessageKind::Audio => 0u8,
            PeerMessageKind::Ping => 1u8,
            PeerMessageKind::Pong => 2u8,
        },
        datagram_of(kind, content)[1 + i] == content[i],
        datagram_of(kind, Seq::empty()) == seq![kind.byte()],
{
    assert(datagram_of(kind, Seq::empty()) =~= seq![kind.byte()]);
}

/// At most 1025 bytes of a datagram are kept, from the first on.
pub proof fn law_kept_bytes(bytes: Seq<u8>, i: int)
    ensures
        kept_of(bytes).len() == if bytes.len() <= 1025 {
            bytes.len()
        } else {
            1025
        },
        0 <= i < kept_of(bytes).len() ==> kept_of(bytes)[i] == bytes[i],
{
}

/// Two bytes stand for one sample, the low byte first, and the samples follow one another in order,
/// both ways.
pub proof fn law_sample_bytes(samples: Seq<u16>, bytes: Seq<u8>, k: int)
    ensures
        bytes_of_samples(samples).len() == 2 * samples.len(),
        0 <= k < samples.len() ==> bytes_of_samples(samples)[2 * k] + 0x100 * bytes_of_samples(
            samples,
        )[2 * k + 1] == samples[k],
        samples_of_bytes(bytes).len() == bytes.len() / 2,
        0 <= k < bytes.len() / 2 ==> samples_of_bytes(bytes)[k] == bytes[2 * k] + 0x100 * bytes[2
            * k + 1],
{
    if 0 <= k < samples.len() {
        let pair = le::le_bytes(samples[k] as nat, 2);
        le::lemma_le_bytes_len(samples[k] as nat, 2);
        le::lemma_widths();
        le::lemma_le_round_trip(samples[k] as nat, 2);
        le::law_small_numbers(pair);
    }
    if 0 <= k < bytes.len() / 2 {
        let pair = bytes.subrange(2 * k, 2 * k + 2);
        le::law_small_numbers(pair);
        le::lemma_le_value_bound(pair);
        le::lemma_widths();
    }
}

/// Downmixing keeps the first sample of every frame, in order, and every sample belongs to a frame.
pub proof fn law_downmix_keeps_first_of_frame(samples: Seq<u16>, channels: nat, i: int)
    requires
        channels > 0,
    ensures
        first_channel(samples, channels).len() == frame_count(samples.len(), channels),
        samples.len() == 0 <==> frame_count(samples.len(), channels) == 0,
        samples.len() <= frame_count(samples.len(), channels) * channels,
        samples.len() > 0 ==> (frame_count(samples.len(), channels) - 1) * channels < samples.len(),
        0 <= i < first_channel(samples, channels).len() ==> first_channel(samples, channels)[i]
            == samples[i * channels],
{
    let len = samples.len() as int;
    let c = channels as int;
    let n = frame_count(samples.len(), channels) as int;
    vstd::arithmetic::div_mod::lemma_fundamental_div_mod(len + c - 1, c);
    vstd::arithmetic::div_mod::lemma_mod_bound(len + c - 1, c);
    assert(len <= n * c && (n - 1) * c < len && (len > 0 ==> n > 0) && (len == 0 ==> n == 0))
        by (nonlinear_arith)
        requires
            len + c - 1 == c * n + (len + c - 1) % c,
            0 <= (len + c - 1) % c < c,
            c > 0,
            len >= 0,
            n >= 0,
    ;
}

/// What a received datagram says, byte by byte: the samples of audio, the content of a ping, and the
/// time in a pong, of which missing bytes count as zero.
pub proof fn law_parsed_datagram(
    bytes: Seq<u8>,
    message: Result<PeerMessage, &'static str>,
    k: int,
)
    requires
        bytes.len() >= 1,
        message_matches(bytes, message),
    ensures
        bytes[0] == 0 ==> (message matches Ok(PeerMessage::Audio { samples }) && samples@.len() == (
        bytes.len() - 1) / 2 && (0 <= k < samples@.len() ==> samples@[k] == bytes[1 + 2 * k] + 0x100
            * bytes[2 + 2 * k])),
        bytes[0] == 1 ==> (message matches Ok(PeerMessage::Ping { content }) && content@.len()
            == bytes.len() - 1 && (0 <= k < content@.len() ==> content@[k] == bytes[1 + k])),
        bytes[0] == 2 ==> (message matches Ok(PeerMessage::Pong { time }) && time == ({
            let b = |i: int|
                if i < bytes.len() {
                    bytes[i] as int
                } else {
                    0
                };
            b(1) + 0x100 * b(2) + 0x1_0000 * b(3) + 0x100_0000 * b(4) + 0x1_0000_0000 * b(5)
                + 0x100_0000_0000 * b(6) + 0x1_0000_0000_0000 * b(7) + 0x100_0000_0000_0000 * b(8)
        })),
        bytes[0] > 2 ==> message == Err::<PeerMessage, &'static str>("unknown peer message kind"),
{
    let content = bytes.drop_first();
    law_sample_bytes(Seq::empty(), content, k);
    law_pong_time(bytes);
}

/// The time in a pong, byte by byte: eight bytes behind the first, of which missing ones count as
/// zero.
pub proof fn law_pong_time(bytes: Seq<u8>)
    requires
        bytes.len() >= 1,
    ensures
        pong_time(bytes.drop_first()) == ({
            let b = |i: int|
                if i < bytes.len() {
                    bytes[i] as int
                } else {
                    0
                };
            b(1) + 0x100 * b(2) + 0x1_0000 * b(3) + 0x100_0000 * b(4) + 0x1_0000_0000 * b(5)
                + 0x100_0000_0000 * b(6) + 0x1_0000_0000_0000 * b(7) + 0x100_0000_0000_0000 * b(8)
        }),
{
    let content = bytes.drop_first();
    let n = if content.len() < 8 {
        content.len() as int
    } else {
        8
    };
    let head = content.take(n);
    let zeros = Seq::new((8 - n) as nat, |i: int| 0u8);
    le::lemma_le_value_padding(head, zeros);
    le::law_small_numbers(head + zeros);
}

/// A round trip ends as much after its start as it took: microseconds at the start, nanoseconds at
/// the end.
pub proof fn law_round_trip_time(now: u128, time: u64, nanos: u128)
    requires
        call_ensures(round_trip_time, (now, time), nanos),
        time * 1000 <= now,
    ensures
        time * 1000 + nanos == now,
{
}

} // verus!
