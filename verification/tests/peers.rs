use iomust::addr::SocketAddr;
use iomust::le::{decode_le, encode_le};
use iomust::output::{
    choose_config, count_frames, fill_frames, get_output_stream_config, get_stream_config,
    BufferSize, OutputManager,
    SampleFormat, StreamConfig, SupportedBufferSize, SupportedStreamConfig,
    SupportedStreamConfigRange,
};
use iomust::peer::{PeerCommunicator, Received};
use iomust::playback::{frame_or_silence, playback_buffer, ConsumerSignal};
use iomust::wire::{
    cut_datagram, datagram, decode_samples, downmix, encode_samples, parse_datagram, ping_datagram,
    round_trip_time, PeerMessage, PeerMessageKind, DATAGRAM_CAPACITY,
};

fn v4(last: u32, port: u16) -> SocketAddr {
    SocketAddr::V4 { ip: 0xc0a8_0000 + last, port }
}

#[test]
fn little_endian_numbers() {
    assert_eq!(encode_le(0x0102, 2), vec![2, 1]);
    assert_eq!(encode_le(0x0102_0304_0506_0708, 8), vec![8, 7, 6, 5, 4, 3, 2, 1]);
    assert_eq!(encode_le(0x1_0203, 2), vec![3, 2]);
    assert_eq!(encode_le(u128::MAX, 16), vec![0xff; 16]);
    assert_eq!(encode_le(7, 0), Vec::<u8>::new());
    assert_eq!(decode_le(&[]), 0);
    assert_eq!(decode_le(&[0x34, 0x12]), 0x1234);
    assert_eq!(decode_le(&[0xff; 16]), u128::MAX);
    assert_eq!(decode_le(&[0, 0, 0, 0, 0, 0, 0, 0x80]), 0x8000_0000_0000_0000);
    for value in [0u128, 1, 255, 256, 65535, 1 << 63, u64::MAX as u128] {
        assert_eq!(decode_le(&encode_le(value, 8)), value);
    }
}

#[test]
fn port_of_an_address() {
    let mut addr = v4(1, 80);
    addr.set_port(9000);
    assert_eq!(addr, v4(1, 9000));
    let mut addr = SocketAddr::V6 { ip: 1, port: 2, flowinfo: 3, scope_id: 4 };
    addr.set_port(5);
    assert_eq!(addr, SocketAddr::V6 { ip: 1, port: 5, flowinfo: 3, scope_id: 4 });
}

#[test]
fn message_kinds() {
    assert_eq!(PeerMessageKind::try_from(0), Ok(PeerMessageKind::Audio));
    assert_eq!(PeerMessageKind::try_from(1), Ok(PeerMessageKind::Ping));
    assert_eq!(PeerMessageKind::try_from(2), Ok(PeerMessageKind::Pong));
    assert_eq!(PeerMessageKind::try_from(3), Err("unknown peer message kind"));
    assert_eq!(PeerMessageKind::try_from(255), Err("unknown peer message kind"));
    for kind in [PeerMessageKind::Audio, PeerMessageKind::Ping, PeerMessageKind::Pong] {
        assert_eq!(PeerMessageKind::try_from(kind.to_byte()), Ok(kind));
    }
}

#[test]
fn samples_on_the_wire() {
    assert_eq!(encode_samples(&[0x0102, 0xfffe]), vec![2, 1, 0xfe, 0xff]);
    assert_eq!(decode_samples(&[2, 1, 0xfe, 0xff]), vec![0x0102, 0xfffe]);
    // A single byte at the end is left out.
    assert_eq!(decode_samples(&[2, 1, 9]), vec![0x0102]);
    assert_eq!(decode_samples(&[9]), Vec::<u16>::new());
}

#[test]
fn downmix_keeps_the_first_channel() {
    assert_eq!(downmix(&[1, 2, 3, 4, 5, 6], 2), vec![1, 3, 5]);
    assert_eq!(downmix(&[1, 2, 3, 4, 5], 2), vec![1, 3, 5]);
    assert_eq!(downmix(&[1, 2, 3], 1), vec![1, 2, 3]);
    assert_eq!(downmix(&[1, 2, 3], 7), vec![1]);
    assert_eq!(downmix::<u16>(&[], 2), Vec::<u16>::new());
}

#[test]
fn datagrams() {
    assert_eq!(datagram(PeerMessageKind::Pong, &[5, 6]), vec![2, 5, 6]);
    assert_eq!(
        parse_datagram(&[0, 1, 0, 2, 0]),
        Ok(PeerMessage::Audio { samples: vec![1, 2] })
    );
    assert_eq!(parse_datagram(&[1, 7, 8]), Ok(PeerMessage::Ping { content: vec![7, 8] }));
    assert_eq!(parse_datagram(&[2, 0, 1]), Ok(PeerMessage::Pong { time: 256 }));
    assert_eq!(
        parse_datagram(&[2, 1, 0, 0, 0, 0, 0, 0, 1, 99]),
        Ok(PeerMessage::Pong { time: (1 << 56) + 1 })
    );
    assert_eq!(parse_datagram(&[2]), Ok(PeerMessage::Pong { time: 0 }));
    assert_eq!(parse_datagram(&[3, 1]), Err("unknown peer message kind"));
}

#[test]
fn ping_and_round_trip_time() {
    let ping = ping_datagram(1_000_000);
    assert_eq!(ping.len(), 17);
    assert_eq!(&ping[..5], &[1, 0x40, 0x42, 0x0f, 0]);
    let content = match parse_datagram(&ping) {
        Ok(PeerMessage::Ping { content }) => content,
        other => panic!("{:?}", other),
    };
    let pong = datagram(PeerMessageKind::Pong, &content);
    assert_eq!(parse_datagram(&pong), Ok(PeerMessage::Pong { time: 1_000_000 }));
    assert_eq!(round_trip_time(1_000_250_500, 1_000_000), 250_500);
}

#[test]
fn playback_is_first_in_first_out() {
    let mut comm = PeerCommunicator::initialize(v4(1, 1000), 2);
    let peer = v4(2, 2000);
    let mut signal = ConsumerSignal::new(comm.connect(peer));
    assert_eq!(signal.next(), [32768]);
    assert_eq!(
        comm.receive(peer, &[0, 10, 0, 20, 0, 30, 0]),
        Received::Played { count: 3 }
    );
    assert_eq!(signal.next(), [10]);
    assert_eq!(comm.receive(peer, &[0, 40, 0]), Received::Played { count: 1 });
    assert_eq!(signal.next(), [20]);
    assert_eq!(signal.next(), [30]);
    assert_eq!(signal.next(), [40]);
    assert_eq!(signal.next(), [32768]);
}

#[test]
fn full_playback_buffer_takes_no_more() {
    let mut comm = PeerCommunicator::initialize(v4(1, 1000), 1);
    let peer = v4(2, 2000);
    let mut consumer = comm.connect(peer);
    let block = [0u8; DATAGRAM_CAPACITY];
    for _ in 0..4 {
        assert_eq!(comm.receive(peer, &block), Received::Played { count: 512 });
    }
    assert_eq!(comm.receive(peer, &block), Received::Played { count: 0 });
    assert_eq!(consumer.pop(), Some(0));
    assert_eq!(comm.receive(peer, &block), Received::Played { count: 1 });
}

#[test]
fn silence_is_the_middle_of_the_range() {
    assert_eq!(frame_or_silence(None), [0x8000]);
    assert_eq!(frame_or_silence(Some(7)), [7]);
    let (producer, consumer) = playback_buffer();
    assert_eq!(producer.capacity(), 2048);
    assert_eq!(consumer.len(), 0);
}

#[test]
fn sending_samples() {
    let mut comm = PeerCommunicator::initialize(v4(1, 1000), 2);
    assert_eq!(comm.local_addr(), v4(1, 1000));
    comm.connect(v4(2, 2000));
    comm.connect(v4(3, 3000));
    let broadcast = comm.send_samples(&[1, 9, 0x0203, 9]);
    assert_eq!(broadcast.datagram, vec![0, 1, 0, 3, 2]);
    assert_eq!(broadcast.destinations, vec![v4(2, 2000), v4(3, 3000)]);
    comm.remove(&v4(2, 2000));
    assert_eq!(comm.send_samples(&[]).destinations, vec![v4(3, 3000)]);
    assert_eq!(comm.send_samples(&[]).datagram, vec![0]);
    assert_eq!(comm.addrs(), vec![v4(3, 3000)]);
}

#[test]
fn sent_audio_is_played_by_the_other_peer() {
    let here = v4(1, 1000);
    let there = v4(2, 2000);
    let mut sender = PeerCommunicator::initialize(here, 2);
    sender.connect(there);
    let mut receiver = PeerCommunicator::initialize(there, 1);
    let mut signal = ConsumerSignal::new(receiver.connect(here));
    let sent = sender.send_samples(&[100, 0, 65535, 0]);
    assert_eq!(receiver.receive(here, &sent.datagram), Received::Played { count: 2 });
    assert_eq!(signal.next(), [100]);
    assert_eq!(signal.next(), [65535]);
}

#[test]
fn only_connected_peers_are_heard() {
    let mut comm = PeerCommunicator::initialize(v4(1, 1000), 1);
    let peer = v4(2, 2000);
    assert_eq!(comm.receive(peer, &[1, 2]), Received::Ignored);
    assert_eq!(comm.receive(peer, &[]), Received::Ignored);
    let (producer, _consumer) = playback_buffer();
    comm.add(peer, producer);
    assert_eq!(comm.receive(peer, &[1, 2]), Received::Answer { datagram: vec![2, 2] });
    assert_eq!(comm.receive(peer, &[2, 5]), Received::Returned { time: 5 });
    assert_eq!(
        comm.receive(peer, &[7]),
        Received::Refused { reason: "unknown peer message kind" }
    );
    // Another port is another peer.
    assert_eq!(comm.receive(v4(2, 2001), &[1, 2]), Received::Ignored);
    comm.remove(&peer);
    assert_eq!(comm.receive(peer, &[1, 2]), Received::Ignored);
}

fn range(min: u32, max: u32, channels: u16) -> SupportedStreamConfigRange {
    SupportedStreamConfigRange {
        channels,
        min_sample_rate: min,
        max_sample_rate: max,
        buffer_size: SupportedBufferSize::Range { min: 16, max: 4096 },
        sample_format: SampleFormat::F32,
    }
}

#[test]
fn preferred_sample_rate() {
    let default = SupportedStreamConfig {
        channels: 1,
        sample_rate: 44100,
        buffer_size: SupportedBufferSize::Unknown,
        sample_format: SampleFormat::I16,
    };
    let ranges = vec![range(8000, 44100, 1), range(48000, 96000, 2), range(8000, 96000, 3)];
    let chosen = choose_config(&ranges, Some(default)).unwrap();
    assert_eq!(chosen, ranges[1].with_sample_rate(48000));
    assert_eq!((chosen.channels, chosen.sample_rate), (2, 48000));
    assert_eq!(choose_config(&vec![range(8000, 48000, 4)], None).unwrap().channels, 4);
    assert_eq!(choose_config(&vec![range(8000, 47999, 1)], Some(default)), Some(default));
    assert_eq!(choose_config(&vec![range(48001, 96000, 1)], None), None);
    assert_eq!(choose_config(&vec![], Some(default)), Some(default));
}

#[test]
fn preferred_buffer_size() {
    let with = |buffer_size| {
        let supported = SupportedStreamConfig {
            channels: 2,
            sample_rate: 48000,
            buffer_size,
            sample_format: SampleFormat::U16,
        };
        let (config, format) = get_stream_config(&supported);
        assert_eq!((config.channels, config.sample_rate, format), (2, 48000, SampleFormat::U16));
        config.buffer_size
    };
    assert_eq!(with(SupportedBufferSize::Range { min: 16, max: 4096 }), BufferSize::Fixed(64));
    assert_eq!(with(SupportedBufferSize::Range { min: 128, max: 4096 }), BufferSize::Fixed(128));
    assert_eq!(with(SupportedBufferSize::Range { min: 1, max: 32 }), BufferSize::Fixed(32));
    assert_eq!(with(SupportedBufferSize::Range { min: 64, max: 64 }), BufferSize::Fixed(64));
    assert_eq!(with(SupportedBufferSize::Unknown), BufferSize::Default);
}

#[test]
fn stream_config_of_a_device() {
    let ranges = vec![range(8000, 44100, 1), range(8000, 96000, 2)];
    assert_eq!(
        get_output_stream_config(&ranges, None),
        Some((
            StreamConfig { channels: 2, sample_rate: 48000, buffer_size: BufferSize::Fixed(64) },
            SampleFormat::F32
        ))
    );
    let default = SupportedStreamConfig {
        channels: 1,
        sample_rate: 44100,
        buffer_size: SupportedBufferSize::Unknown,
        sample_format: SampleFormat::I16,
    };
    assert_eq!(
        get_output_stream_config(&vec![range(8000, 44100, 1)], Some(default)),
        Some((
            StreamConfig { channels: 1, sample_rate: 44100, buffer_size: BufferSize::Default },
            SampleFormat::I16
        ))
    );
    assert_eq!(get_output_stream_config(&vec![], None), None);
}

#[test]
fn long_datagrams_are_cut() {
    let mut comm = PeerCommunicator::initialize(v4(1, 1000), 1);
    let peer = v4(2, 2000);
    let _consumer = comm.connect(peer);
    assert_eq!(comm.receive(peer, &[0; DATAGRAM_CAPACITY]), Received::Played { count: 512 });
    assert_eq!(comm.receive(peer, &[0; 5000]), Received::Played { count: 512 });
    assert_eq!(
        comm.receive(peer, &[1; 5000]),
        Received::Answer { datagram: [vec![2], vec![1; 1024]].concat() }
    );
    assert_eq!(cut_datagram(&[7; 1026]).len(), 1025);
    assert_eq!(cut_datagram(&[7, 8]), &[7, 8]);
}

#[test]
fn silence_takes_no_sample() {
    let mut comm = PeerCommunicator::initialize(v4(1, 1000), 1);
    let peer = v4(2, 2000);
    let mut signal = ConsumerSignal::new(comm.connect(peer));
    let mut heard = Vec::new();
    for n in 0..6000u16 {
        if n % 3 == 0 {
            let sent = datagram(PeerMessageKind::Audio, &encode_samples(&[n, n + 1]));
            assert_eq!(comm.receive(peer, &sent), Received::Played { count: 2 });
        }
        heard.push(signal.next()[0]);
    }
    // Of every three frames the first two are samples and the third is silent.
    for (n, frame) in heard.iter().enumerate() {
        assert_eq!(*frame, if n % 3 == 2 { 32768 } else { n as u16 });
    }
}

#[test]
fn frames_are_filled_on_every_channel() {
    assert_eq!(count_frames(0, 2), 0);
    assert_eq!(count_frames(6, 2), 3);
    assert_eq!(count_frames(7, 2), 4);
    assert_eq!(count_frames(usize::MAX, 1), usize::MAX);
    let mut data = [0u16; 6];
    fill_frames(&mut data, 2, &[7, 8, 9]);
    assert_eq!(data, [7, 7, 8, 8, 9, 9]);
    let mut data = [0i16; 5];
    fill_frames(&mut data, 3, &[-1, 4]);
    assert_eq!(data, [-1, -1, -1, 4, 4]);
}

#[test]
fn output_streams() {
    let config =
        StreamConfig { channels: 2, sample_rate: 48000, buffer_size: BufferSize::Fixed(64) };
    let mut manager = OutputManager::new(config, SampleFormat::F32);
    let plan = manager.plan(44100);
    assert_eq!(plan.channels, 2);
    assert_eq!(plan.source_sample_rate, 44100);
    assert_eq!(plan.target_sample_rate, 48000);
    assert_eq!(plan.sample_format, SampleFormat::F32);
    // A stream lives exactly as long as the manager keeps it.
    let first = std::rc::Rc::new(());
    let second = std::rc::Rc::new(());
    manager.add(v4(1, 1), first.clone());
    assert_eq!(std::rc::Rc::strong_count(&first), 2);
    manager.add(v4(1, 1), second.clone());
    assert_eq!(std::rc::Rc::strong_count(&first), 1);
    manager.remove(v4(1, 2));
    assert_eq!(std::rc::Rc::strong_count(&second), 2);
    manager.remove(v4(1, 1));
    assert_eq!(std::rc::Rc::strong_count(&second), 1);
    // Any identifiers will do.
    let mut manager = OutputManager::new(config, SampleFormat::F32);
    manager.add(7u64, first.clone());
    manager.remove(8);
    assert_eq!(std::rc::Rc::strong_count(&first), 2);
    manager.remove(7);
    assert_eq!(std::rc::Rc::strong_count(&first), 1);
}
