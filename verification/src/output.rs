//! Audio streams: their configuration, and what is played on them.

use crate::table;
use crate::table::Table;
use crate::wire;
use vstd::laws_eq::obeys_concrete_eq;
use vstd::prelude::*;

verus! {

/// The sample rate to prefer, in hertz.
pub const PREFERRED_SAMPLE_RATE: u32 = 48000;

/// The buffer size to prefer, in frames.
pub const PREFERRED_BUFFER_SIZE: u32 = 64;

/// How a device represents samples.
#[derive(Clone, Copy, Debug, PartialEq, Eq, Structural)]
pub enum SampleFormat {
    I16,
    U16,
    F32,
}

/// The buffer sizes that a device supports.
#[derive(Clone, Copy, Debug, PartialEq, Eq, Structural)]
pub enum SupportedBufferSize {
    Range { min: u32, max: u32 },
    Unknown,
}

/// The buffer size to ask for.
#[derive(Clone, Copy, Debug, PartialEq, Eq, Structural)]
pub enum BufferSize {
    Default,
    Fixed(u32),
}

/// A range of stream configurations that a device supports.
#[derive(Clone, Copy, Debug, PartialEq, Eq, Structural)]
pub struct SupportedStreamConfigRange {
    pub channels: u16,
    pub min_sample_rate: u32,
    pub max_sample_rate: u32,
    pub buffer_size: SupportedBufferSize,
    pub sample_format: SampleFormat,
}

/// A stream configuration that a device supports.
#[derive(Clone, Copy, Debug, PartialEq, Eq, Structural)]
pub struct SupportedStreamConfig {
    pub channels: u16,
    pub sample_rate: u32,
    pub buffer_size: SupportedBufferSize,
    pub sample_format: SampleFormat,
}

/// The stream configuration to ask for.
#[derive(Clone, Copy, Debug, PartialEq, Eq, Structural)]
pub struct StreamConfig {
    pub channels: u16,
    pub sample_rate: u32,
    pub buffer_size: BufferSize,
}

impl SupportedStreamConfigRange {
    /// The range holds the sample rate.
    pub open spec fn supports(self, sample_rate: u32) -> bool {
        self.min_sample_rate <= sample_rate <= self.max_sample_rate
    }

    /// The configuration of the range at one sample rate.
    pub open spec fn at_rate(self, sample_rate: u32) -> SupportedStreamConfig {
        SupportedStreamConfig {
            channels: self.channels,
            sample_rate,
            buffer_size: self.buffer_size,
            sample_format: self.sample_format,
        }
    }

    /// The configuration of the range at one of its sample rates.
    pub fn with_sample_rate(&self, sample_rate: u32) -> (config: SupportedStreamConfig)
        requires
            self.supports(sample_rate),
        ensures
            config == self.at_rate(sample_rate),
            config.channels == self.channels,
            config.sample_rate == sample_rate,
            config.buffer_size == self.buffer_size,
            config.sample_format == self.sample_format,
    {
        SupportedStreamConfig {
            channels: self.channels,
            sample_rate,
            buffer_size: self.buffer_size,
            sample_format: self.sample_format,
        }
    }
}

/// The `i`-th of `ranges` is the first that holds the preferred sample rate.
pub open spec fn is_first_preferred(ranges: Seq<SupportedStreamConfigRange>, i: int) -> bool {
    &&& 0 <= i < ranges.len()
    &&& ranges[i].supports(PREFERRED_SAMPLE_RATE)
    &&& forall|j: int| 0 <= j < i ==> !(#[trigger] ranges[j]).supports(PREFERRED_SAMPLE_RATE)
}

/// The configuration to choose: the first range that holds the preferred sample rate, at that rate,
/// and the device's default where there is none.
pub open spec fn chosen_config(
    ranges: Seq<SupportedStreamConfigRange>,
    default: Option<SupportedStreamConfig>,
) -> Option<SupportedStreamConfig> {
    if exists|i: int| is_first_preferred(ranges, i) {
        let i = choose|i: int| is_first_preferred(ranges, i);
        Some(ranges[i].at_rate(PREFERRED_SAMPLE_RATE))
    } else {
        default
    }
}

/// Chooses a stream configuration: the first range that holds the preferred sample rate, at that
/// rate, and the device's default where there is none.
pub fn choose_config(
    ranges: &Vec<SupportedStreamConfigRange>,
    default: Option<SupportedStreamConfig>,
) -> (config: Option<SupportedStreamConfig>)
    ensures
        forall|i: int| #[trigger]
            is_first_preferred(ranges@, i) ==> config == Some(
                ranges@[i].at_rate(PREFERRED_SAMPLE_RATE),
            ),
        (forall|i: int|
            0 <= i < ranges@.len() ==> !(#[trigger] ranges@[i]).supports(PREFERRED_SAMPLE_RATE))
            ==> config == default,
        config == chosen_config(ranges@, default),
        forall|i: int|
            0 <= i < ranges@.len() && (#[trigger] ranges@[i]).min_sample_rate <= 48000
                <= ranges@[i].max_sample_rate && (forall|j: int|
                0 <= j < i ==> !((#[trigger] ranges@[j]).min_sample_rate <= 48000
                    <= ranges@[j].max_sample_rate)) ==> (config matches Some(c) && c.channels
                == ranges@[i].channels && c.sample_rate == 48000 && c.buffer_size
                == ranges@[i].buffer_size && c.sample_format == ranges@[i].sample_format),
        (forall|i: int|
            0 <= i < ranges@.len() ==> !((#[trigger] ranges@[i]).min_sample_rate <= 48000
                <= ranges@[i].max_sample_rate)) ==> config == default,
{
    let mut i: usize = 0;
    while i < ranges.len()
        invariant
            i <= ranges@.len(),
            forall|j: int|
                0 <= j < i ==> !(#[trigger] ranges@[j]).supports(PREFERRED_SAMPLE_RATE),
        decreases ranges@.len() - i,
    {
        let range: SupportedStreamConfigRange = ranges[i];
        if range.min_sample_rate <= PREFERRED_SAMPLE_RATE && range.max_sample_rate
            >= PREFERRED_SAMPLE_RATE {
            assert(is_first_preferred(ranges@, i as int));
            assert forall|k: int| #[trigger] is_first_preferred(ranges@, k) implies k == i by {
                assert(ranges@[i as int].supports(PREFERRED_SAMPLE_RATE));
            }
            return Some(range.with_sample_rate(PREFERRED_SAMPLE_RATE));
        }
        i = i + 1;
    }
    default
}

/// The buffer size to ask for, given those that are supported: the preferred size, or what is
/// nearest to it.
pub open spec fn buffer_size_for(supported: SupportedBufferSize) -> BufferSize {
    match supported {
        SupportedBufferSize::Range { min, max } => BufferSize::Fixed(
            if PREFERRED_BUFFER_SIZE < min {
                min
            } else if PREFERRED_BUFFER_SIZE > max {
                max
            } else {
                PREFERRED_BUFFER_SIZE
            },
        ),
        SupportedBufferSize::Unknown => BufferSize::Default,
    }
}

/// The range of buffer sizes, where it is known, is not empty.
pub open spec fn has_buffer_size(supported: SupportedStreamConfig) -> bool {
    supported.buffer_size matches SupportedBufferSize::Range { min, max } ==> min <= max
}

/// The configuration to ask a device for, given the supported one that was chosen.
pub open spec fn config_for(supported: SupportedStreamConfig) -> StreamConfig {
    StreamConfig {
        channels: supported.channels,
        sample_rate: supported.sample_rate,
        buffer_size: buffer_size_for(supported.buffer_size),
    }
}

/// The configuration to ask a device for, given the supported one that was chosen. A range of
/// buffer sizes must not be empty.
pub fn get_stream_config(supported: &SupportedStreamConfig) -> (config: (
    StreamConfig,
    SampleFormat,
))
    requires
        has_buffer_size(*supported),
    ensures
        config == (config_for(*supported), supported.sample_format),
        config.0.channels == supported.channels,
        config.0.sample_rate == supported.sample_rate,
        config.1 == supported.sample_format,
        supported.buffer_size is Unknown ==> config.0.buffer_size is Default,
        supported.buffer_size matches SupportedBufferSize::Range { min, max } ==> (
        config.0.buffer_size matches BufferSize::Fixed(size) && min <= size <= max && (min <= 64
            <= max ==> size == 64) && (64 < min ==> size == min) && (max < 64 ==> size == max)),
{
    let buffer_size: BufferSize = match supported.buffer_size {
        SupportedBufferSize::Range { min, max } => {
            if PREFERRED_BUFFER_SIZE < min {
                BufferSize::Fixed(min)
            } else if PREFERRED_BUFFER_SIZE > max {
                BufferSize::Fixed(max)
            } else {
                BufferSize::Fixed(PREFERRED_BUFFER_SIZE)
            }
        },
        SupportedBufferSize::Unknown => BufferSize::Default,
    };
    (
        StreamConfig {
            channels: supported.channels,
            sample_rate: supported.sample_rate,
            buffer_size,
        },
        supported.sample_format,
    )
}

/// The configuration to ask an output device for, and the format of its samples, given what the
/// device supports and its default. For an input device the choice is the same. `None` where the
/// device supports nothing that fits and has no default.
pub fn get_output_stream_config(
    ranges: &Vec<SupportedStreamConfigRange>,
    default: Option<SupportedStreamConfig>,
) -> (config: Option<(StreamConfig, SampleFormat)>)
    requires
        chosen_config(ranges@, default) matches Some(chosen) ==> has_buffer_size(chosen),
    ensures
        config == match chosen_config(ranges@, default) {
            Some(chosen) => Some((config_for(chosen), chosen.sample_format)),
            None => None,
        },
        forall|i: int|
            0 <= i < ranges@.len() && (#[trigger] ranges@[i]).min_sample_rate <= 48000
                <= ranges@[i].max_sample_rate && (forall|j: int|
                0 <= j < i ==> !((#[trigger] ranges@[j]).min_sample_rate <= 48000
                    <= ranges@[j].max_sample_rate)) ==> (config matches Some((c, format))
                && c.channels == ranges@[i].channels && c.sample_rate == 48000 && format
                == ranges@[i].sample_format),
        (forall|i: int|
            0 <= i < ranges@.len() ==> !((#[trigger] ranges@[i]).min_sample_rate <= 48000
                <= ranges@[i].max_sample_rate)) ==> match default {
            Some(d) => config matches Some((c, format)) && c.channels == d.channels && c.sample_rate
                == d.sample_rate && format == d.sample_format,
            None => config is None,
        },
{
    match choose_config(ranges, default) {
        Some(chosen) => Some(get_stream_config(&chosen)),
        None => None,
    }
}

/// A chosen configuration is one that the device supports: its buffer size lies in the supported
/// range, and no size of that range is nearer to the preferred one.
pub proof fn law_buffer_size_supported(min: u32, max: u32, other: u32)
    requires
        min <= max,
        min <= other <= max,
    ensures
        buffer_size_for(SupportedBufferSize::Range { min, max }) matches BufferSize::Fixed(size)
            && min <= size <= max && (size == PREFERRED_BUFFER_SIZE || (size
            < PREFERRED_BUFFER_SIZE && other <= size) || (size > PREFERRED_BUFFER_SIZE && other
            >= size)),
{
}

/// The number of frames of `channels` samples in `len` samples; the last may be incomplete.
pub fn count_frames(len: usize, channels: usize) -> (count: usize)
    requires
        channels > 0,
    ensures
        count == wire::frame_count(len as nat, channels as nat),
{
    proof {
        let c = channels as int;
        let l = len as int;
        if l == 0 {
            vstd::arithmetic::div_mod::lemma_fundamental_div_mod_converse(c - 1, c, 0, c - 1);
        } else {
            let q = (l - 1) / c;
            vstd::arithmetic::div_mod::lemma_fundamental_div_mod(l - 1, c);
            vstd::arithmetic::div_mod::lemma_mod_bound(l - 1, c);
            assert(c * q + c == (q + 1) * c) by (nonlinear_arith);
            vstd::arithmetic::div_mod::lemma_fundamental_div_mod_converse(
                l + c - 1,
                c,
                q + 1,
                (l - 1) % c,
            );
            vstd::arithmetic::div_mod::lemma_div_is_ordered_by_denominator(l - 1, 1, c);
            assert(q <= l - 1);
        }
    }
    if len == 0 {
        0
    } else {
        (len - 1) / channels + 1
    }
}

/// Plays one sample per frame on every channel of the frame.
pub fn fill_frames<T: Copy>(data: &mut [T], channels: usize, samples: &[T])
    requires
        channels > 0,
        samples@.len() == wire::frame_count(old(data)@.len(), channels as nat),
    ensures
        final(data)@ == Seq::new(old(data)@.len(), |i: int| samples@[i / channels as int]),
{
    let len: usize = data.len();
    let mut i: usize = 0;
    let mut frame: usize = 0;
    let mut column: usize = 0;
    proof {
        let c = channels as int;
        assert(0 * c == 0) by (nonlinear_arith);
    }
    while i < len
        invariant
            channels > 0,
            i <= len,
            data@.len() == len,
            samples@.len() == wire::frame_count(len as nat, channels as nat),
            i == frame * channels + column,
            column < channels,
            forall|j: int| 0 <= j < i ==> #[trigger] data@[j] == samples@[j / channels as int],
        decreases len - i,
    {
        proof {
            let c = channels as int;
            let f = frame as int;
            vstd::arithmetic::div_mod::lemma_fundamental_div_mod_converse(
                i as int,
                c,
                f,
                column as int,
            );
            let n = samples@.len() as int;
            vstd::arithmetic::div_mod::lemma_fundamental_div_mod(len + c - 1, c);
            vstd::arithmetic::div_mod::lemma_mod_bound(len + c - 1, c);
            assert(f < n) by (nonlinear_arith)
                requires
                    f * c <= i < len,
                    len + c - 1 < c * n + c,
                    c > 0,
            ;
            assert((f + 1) * c == f * c + c) by (nonlinear_arith);
        }
        data[i] = samples[frame];
        i = i + 1;
        column = column + 1;
        if column == channels {
            column = 0;
            frame = frame + 1;
        }
    }
    assert(data@ =~= Seq::new(len as nat, |i: int| samples@[i / channels as int]));
}

/// How the stream of one source is to be built.
#[derive(Clone, Copy, Debug, PartialEq, Eq, Structural)]
pub struct StreamPlan {
    /// The number of channels on which every sample is played.
    pub channels: u16,
    /// The sample rate of the source.
    pub source_sample_rate: u32,
    /// The sample rate of the device, to which the source is interpolated.
    pub target_sample_rate: u32,
    /// The format of the samples that the device takes.
    pub sample_format: SampleFormat,
}

/// Manages output streams.
///
/// Every stream belongs to one source, which has an identifier. Using multiple output streams
/// assumes that the underlying sound driver supports mixing.
pub struct OutputManager<T, S> {
    config: StreamConfig,
    sample_format: SampleFormat,
    streams: Table<T, S>,
}

impl<T, S> OutputManager<T, S> {
    /// The configuration of the streams.
    pub closed spec fn config(&self) -> StreamConfig {
        self.config
    }

    /// The format of the samples.
    pub closed spec fn sample_format(&self) -> SampleFormat {
        self.sample_format
    }

    /// The streams that are playing, by source.
    pub closed spec fn streams(&self) -> Seq<(T, S)> {
        self.streams.entries()
    }

    /// No source has two streams.
    pub open spec fn wf(&self) -> bool {
        table::keys_distinct(self.streams())
    }

    /// Creates a new output manager, without streams, for a device that was configured so.
    pub fn new(config: StreamConfig, sample_format: SampleFormat) -> (manager: Self)
        ensures
            manager.wf(),
            manager.config() == config,
            manager.sample_format() == sample_format,
            manager.streams() == Seq::<(T, S)>::empty(),
    {
        OutputManager { config, sample_format, streams: Table::new() }
    }

    /// How to build the stream for a source with the given sample rate.
    pub fn plan(&self, sample_rate: u32) -> (plan: StreamPlan)
        ensures
            plan.channels == self.config().channels,
            plan.source_sample_rate == sample_rate,
            plan.target_sample_rate == self.config().sample_rate,
            plan.sample_format == self.sample_format(),
    {
        StreamPlan {
            channels: self.config.channels,
            source_sample_rate: sample_rate,
            target_sample_rate: self.config.sample_rate,
            sample_format: self.sample_format,
        }
    }
}

/// Identifiers are compared with `==`, which has to be identity.
impl<T: PartialEq, S> OutputManager<T, S> {
    /// Keeps the stream of the given source, in place of an earlier one of the same source.
    pub fn add(&mut self, ident: T, stream: S)
        requires
            obeys_concrete_eq::<T>(),
            old(self).wf(),
        ensures
            final(self).wf(),
            final(self).streams() == table::with_entry(old(self).streams(), ident, stream),
            final(self).config() == old(self).config(),
            final(self).sample_format() == old(self).sample_format(),
    {
        self.streams.insert(ident, stream);
    }

    /// Drops the stream associated with the given source.
    pub fn remove(&mut self, ident: T)
        requires
            obeys_concrete_eq::<T>(),
            old(self).wf(),
        ensures
            final(self).wf(),
            final(self).streams() == table::without_key(old(self).streams(), ident),
            final(self).config() == old(self).config(),
            final(self).sample_format() == old(self).sample_format(),
    {
        let _ = self.streams.remove(&ident);
    }
}

/// The peers that are heard are the peers that are connected: where every peer that connects is
/// also given a stream, and every peer that disconnects loses it, the two tables have the same
/// addresses at all times.
pub proof fn law_peers_and_streams_agree<T, P, S>(
    peers: Seq<(T, P)>,
    streams: Seq<(T, S)>,
    addr: T,
    peer: P,
    stream: S,
)
    requires
        table::keys_distinct(peers),
        table::keys_distinct(streams),
        forall|a: T| table::has_key(peers, a) <==> table::has_key(streams, a),
    ensures
        forall|a: T|
            table::has_key(table::with_entry(peers, addr, peer), a) <==> table::has_key(
                table::with_entry(streams, addr, stream),
                a,
            ),
        forall|a: T|
            table::has_key(table::without_key(peers, addr), a) <==> table::has_key(
                table::without_key(streams, addr),
                a,
            ),
{
    table::lemma_with_entry(peers, addr, peer);
    table::lemma_with_entry(streams, addr, stream);
    table::lemma_without_key(peers, addr);
    table::lemma_without_key(streams, addr);
    let peers_with = table::with_entry(peers, addr, peer);
    let streams_with = table::with_entry(streams, addr, stream);
    assert forall|a: T|
        table::has_key(peers_with, a) <==> table::has_key(streams_with, a) by {
        if a != addr {
            assert(table::has_key(peers_with, a) <==> table::has_key(peers, a));
            assert(table::has_key(streams_with, a) <==> table::has_key(streams, a));
        }
    }
    let peers_without = table::without_key(peers, addr);
    let streams_without = table::without_key(streams, addr);
    assert forall|a: T|
        table::has_key(peers_without, a) <==> table::has_key(streams_without, a) by {
        if a != addr {
            assert(table::has_key(peers_without, a) <==> table::has_key(peers, a));
            assert(table::has_key(streams_without, a) <==> table::has_key(streams, a));
        }
    }
}

/// A range at one of its sample rates has the channels, the buffer sizes and the sample format of the
/// range, and that rate.
pub proof fn law_rate_is_all_that_is_chosen(range: SupportedStreamConfigRange, sample_rate: u32)
    ensures
        range.at_rate(sample_rate).channels == range.channels,
        range.at_rate(sample_rate).sample_rate == sample_rate,
        range.at_rate(sample_rate).buffer_size == range.buffer_size,
        range.at_rate(sample_rate).sample_format == range.sample_format,
        range.supports(sample_rate) <==> range.min_sample_rate <= sample_rate
            && sample_rate <= range.max_sample_rate,
{
}

/// The first range that holds 48 kHz is chosen, at that rate and otherwise as it is; where there is
/// none, the default is.
pub proof fn law_first_range_with_preferred_rate(
    ranges: Seq<SupportedStreamConfigRange>,
    default: Option<SupportedStreamConfig>,
    i: int,
)
    ensures
        0 <= i < ranges.len() && ranges[i].min_sample_rate <= 48000 <= ranges[i].max_sample_rate && (
        forall|j: int|
            0 <= j < i ==> !((#[trigger] ranges[j]).min_sample_rate <= 48000
                <= ranges[j].max_sample_rate)) ==> (chosen_config(ranges, default) matches Some(c)
            && c.channels == ranges[i].channels && c.sample_rate == 48000 && c.buffer_size
            == ranges[i].buffer_size && c.sample_format == ranges[i].sample_format),
        (forall|j: int|
            0 <= j < ranges.len() ==> !((#[trigger] ranges[j]).min_sample_rate <= 48000
                <= ranges[j].max_sample_rate)) ==> chosen_config(ranges, default) == default,
{
    if 0 <= i < ranges.len() && ranges[i].min_sample_rate <= 48000 <= ranges[i].max_sample_rate && (
    forall|j: int|
        0 <= j < i ==> !((#[trigger] ranges[j]).min_sample_rate <= 48000
            <= ranges[j].max_sample_rate)) {
        assert forall|j: int| 0 <= j < i implies !(#[trigger] ranges[j]).supports(
            PREFERRED_SAMPLE_RATE,
        ) by {}
        assert(is_first_preferred(ranges, i));
        let k = choose|k: int| is_first_preferred(ranges, k);
        assert(is_first_preferred(ranges, k));
        assert(ranges[i].supports(PREFERRED_SAMPLE_RATE));
        assert(k == i);
    }
    if forall|j: int|
        0 <= j < ranges.len() ==> !((#[trigger] ranges[j]).min_sample_rate <= 48000
            <= ranges[j].max_sample_rate) {
        assert forall|k: int| !is_first_preferred(ranges, k) by {
            if 0 <= k < ranges.len() {
                assert(!(ranges[k].min_sample_rate <= 48000 <= ranges[k].max_sample_rate));
            }
        }
    }
}

/// What a device is asked for is what was chosen: the same channels and rate, and a buffer of 64
/// frames, or the nearest supported size, or the default where the sizes are unknown.
pub proof fn law_device_is_asked_for_what_was_chosen(supported: SupportedStreamConfig)
    requires
        has_buffer_size(supported),
    ensures
        config_for(supported).channels == supported.channels,
        config_for(supported).sample_rate == supported.sample_rate,
        supported.buffer_size is Unknown ==> config_for(supported).buffer_size is Default,
        supported.buffer_size matches SupportedBufferSize::Range { min, max } ==> min <= max && (
        config_for(supported).buffer_size matches BufferSize::Fixed(size) && min <= size <= max && (
        min <= 64 <= max ==> size == 64) && (64 < min ==> size == min) && (max < 64 ==> size
            == max)),
{
}

/// The stream of a source is built from its own sample rate to that of the device, on all channels of
/// the device and in its format.
pub proof fn law_stream_goes_from_source_to_device<T, S>(
    manager: OutputManager<T, S>,
    sample_rate: u32,
    plan: StreamPlan,
)
    requires
        call_ensures(OutputManager::<T, S>::plan, (&manager, sample_rate), plan),
    ensures
        plan.source_sample_rate == sample_rate,
        plan.target_sample_rate == manager.config().sample_rate,
        plan.channels == manager.config().channels,
        plan.sample_format == manager.sample_format(),
{
}

/// Every sample of a frame is the one that was given for the frame.
pub proof fn law_frames_are_filled_evenly(
    data: &mut [u16],
    channels: usize,
    samples: &[u16],
    frame: int,
    channel: int,
)
    requires
        call_ensures(fill_frames::<u16>, (data, channels, samples), ()),
        0 <= channel < channels,
        0 <= frame,
        0 <= frame * channels + channel < old(data)@.len(),
    ensures
        final(data)@.len() == old(data)@.len(),
        final(data)@[frame * channels + channel] == samples@[frame],
{
    vstd::arithmetic::div_mod::lemma_fundamental_div_mod_converse(
        frame * channels + channel,
        channels as int,
        frame,
        channel,
    );
}

/// What a call of `with_sample_rate` returns.
pub proof fn law_with_sample_rate(
    range: SupportedStreamConfigRange,
    sample_rate: u32,
    config: SupportedStreamConfig,
)
    requires
        call_ensures(SupportedStreamConfigRange::with_sample_rate, (&range, sample_rate), config),
    ensures
        config.channels == range.channels,
        config.sample_rate == sample_rate,
        config.buffer_size == range.buffer_size,
        config.sample_format == range.sample_format,
{
}

/// What a call of `get_output_stream_config` returns: the channels and the format of the first range
/// that holds 48 kHz, at that rate, with a buffer of 64 frames or the nearest size; and the same of
/// the default where no range does.
pub proof fn law_get_output_stream_config(
    ranges: &Vec<SupportedStreamConfigRange>,
    default: Option<SupportedStreamConfig>,
    config: Option<(StreamConfig, SampleFormat)>,
    i: int,
)
    requires
        call_ensures(get_output_stream_config, (ranges, default), config),
    ensures
        0 <= i < ranges@.len() && ranges@[i].min_sample_rate <= 48000 <= ranges@[i].max_sample_rate
            && (forall|j: int|
            0 <= j < i ==> !((#[trigger] ranges@[j]).min_sample_rate <= 48000
                <= ranges@[j].max_sample_rate)) ==> (config matches Some((c, format)) && c.channels
            == ranges@[i].channels && c.sample_rate == 48000 && format == ranges@[i].sample_format
            && (ranges@[i].buffer_size is Unknown ==> c.buffer_size is Default) && (
        ranges@[i].buffer_size matches SupportedBufferSize::Range { min, max } ==> (
        c.buffer_size matches BufferSize::Fixed(size) && (min <= 64 <= max ==> size == 64) && (64
            < min ==> size == min) && (max < 64 && min <= max ==> size == max)))),
        (forall|j: int|
            0 <= j < ranges@.len() ==> !((#[trigger] ranges@[j]).min_sample_rate <= 48000
                <= ranges@[j].max_sample_rate)) ==> match default {
            Some(d) => config matches Some((c, format)) && c.channels == d.channels && c.sample_rate
                == d.sample_rate && format == d.sample_format,
            None => config is None,
        },
{
    law_first_range_with_preferred_rate(ranges@, default, i);
}

/// A configuration can be asked for unless its range of buffer sizes is empty.
pub proof fn law_empty_ranges_cannot_be_asked_for(supported: SupportedStreamConfig)
    ensures
        supported.buffer_size is Unknown ==> has_buffer_size(supported),
        supported.buffer_size matches SupportedBufferSize::Range { min, max } ==> (has_buffer_size(
            supported,
        ) <==> min <= max),
{
}

/// What calls of `add` and `remove` do: a stream that is added to a new source comes last, one that is
/// removed is gone, and the others stay as they are.
pub proof fn law_streams_are_added_and_removed<T: PartialEq, S>(
    manager: &mut OutputManager<T, S>,
    ident: T,
    stream: S,
    other: &mut OutputManager<T, S>,
    i: int,
)
    requires
        call_ensures(OutputManager::<T, S>::add, (manager, ident, stream), ()),
        call_ensures(OutputManager::<T, S>::remove, (other, ident), ()),
        old(manager).wf(),
        old(other).wf(),
    ensures
        (forall|k: int| 0 <= k < old(manager).streams().len() ==> (#[trigger] old(manager).streams()[k]).0 != ident) ==> final(manager).streams() == old(manager).streams().push(
            (ident, stream),
        ),
        0 <= i < old(manager).streams().len() && old(manager).streams()[i].0 == ident ==> final(manager).streams() == old(manager).streams().update(i, (ident, stream)),
        0 <= i < old(other).streams().len() && old(other).streams()[i].0 == ident ==> final(other).streams() == old(other).streams().remove(i),
        (forall|k: int| 0 <= k < old(other).streams().len() ==> (#[trigger] old(other).streams()[k]).0 != ident) ==> final(other).streams() == old(other).streams(),
{
    let entries = old(manager).streams();
    table::law_leaving_out_removes_one_entry(old(other).streams(), ident, i);
    if 0 <= i < entries.len() && entries[i].0 == ident {
        assert(table::has_key(entries, ident));
        assert(table::with_entry(entries, ident, stream) =~= entries.update(i, (ident, stream)));
    }
}

} // verus!
