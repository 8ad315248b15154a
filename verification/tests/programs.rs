use iomust::args::{parse_args, parse_decimal, parse_peer, PeerMode};
use iomust::output::{BufferSize, SampleFormat, SupportedBufferSize, SupportedStreamConfigRange};
use iomust::probe::{probe_config, Receiver, Sender, BLOCK_LEN, PACKET_CAPACITY};

fn args(list: &[&str]) -> Vec<Vec<u8>> {
    list.iter().map(|arg| arg.as_bytes().to_vec()).collect()
}

#[test]
fn server_argument() {
    assert_eq!(
        parse_args(&args(&["-s", "10.0.0.1:9000"])),
        Some(PeerMode::Server { addr: b"10.0.0.1:9000".to_vec() })
    );
    assert_eq!(parse_args(&args(&["-s"])), None);
    assert_eq!(parse_args(&args(&["-s", "a", "-s", "b"])), None);
}

#[test]
fn manual_arguments() {
    assert_eq!(
        parse_args(&args(&[
            "-a",
            "10.0.0.1:9000",
            "-p",
            "10.0.0.2:9001,48000",
            "-p",
            "[::1]:9002,44100"
        ])),
        Some(PeerMode::Manual {
            addr: b"10.0.0.1:9000".to_vec(),
            peers: vec![
                (b"10.0.0.2:9001".to_vec(), 48000),
                (b"[::1]:9002".to_vec(), 44100)
            ],
        })
    );
    assert_eq!(
        parse_args(&args(&["-p", "x,1", "-a", "y"])),
        Some(PeerMode::Manual { addr: b"y".to_vec(), peers: vec![(b"x".to_vec(), 1)] })
    );
    assert_eq!(
        parse_args(&args(&["-a", "y"])),
        Some(PeerMode::Manual { addr: b"y".to_vec(), peers: vec![] })
    );
    assert_eq!(parse_args(&args(&["-p", "x,1"])), None);
    assert_eq!(parse_args(&args(&["-a", "y", "-p"])), None);
    assert_eq!(parse_args(&args(&["-a", "y", "-p", "x"])), None);
    assert_eq!(parse_args(&args(&["-a", "y", "-a", "z"])), None);
    assert_eq!(parse_args(&args(&["-a", "y", "-q", "z"])), None);
    assert_eq!(parse_args(&args(&[])), None);
}

#[test]
fn signaling_argument() {
    assert_eq!(
        parse_args(&args(&["localhost:9000"])),
        Some(PeerMode::Signaling { addr: b"localhost:9000".to_vec() })
    );
    // What follows a bare address is ignored.
    assert_eq!(
        parse_args(&args(&["localhost:9000", "more"])),
        Some(PeerMode::Signaling { addr: b"localhost:9000".to_vec() })
    );
    assert_eq!(
        parse_args(&args(&["localhost:9000", "-s", "x"])),
        Some(PeerMode::Signaling { addr: b"localhost:9000".to_vec() })
    );
    assert_eq!(parse_args(&args(&["-h"])), None);
}

#[test]
fn decimal_numbers() {
    assert_eq!(parse_decimal(b"48000"), Some(48000));
    assert_eq!(parse_decimal(b"0"), Some(0));
    assert_eq!(parse_decimal(b"4294967295"), Some(u32::MAX));
    assert_eq!(parse_decimal(b"4294967296"), None);
    assert_eq!(parse_decimal(b"99999999999999999999999"), None);
    assert_eq!(parse_decimal(b""), None);
    assert_eq!(parse_decimal(b"4x"), None);
    assert_eq!(parse_decimal(b"-4"), None);
}

#[test]
fn peer_arguments() {
    assert_eq!(parse_peer(b"a:1,2"), Some((b"a:1".to_vec(), 2)));
    assert_eq!(parse_peer(b",2"), Some((b"".to_vec(), 2)));
    assert_eq!(parse_peer(b"a:1"), None);
    assert_eq!(parse_peer(b"a:1,"), None);
    assert_eq!(parse_peer(b"a,1,2"), None);
}

#[test]
fn probe_stream_config() {
    let range = SupportedStreamConfigRange {
        channels: 2,
        min_sample_rate: 8000,
        max_sample_rate: 192000,
        buffer_size: SupportedBufferSize::Unknown,
        sample_format: SampleFormat::F32,
    };
    let config = probe_config(&vec![range]).unwrap();
    assert_eq!((config.channels, config.sample_rate), (2, 192000));
    assert_eq!(config.buffer_size, BufferSize::Fixed(64));
    assert_eq!(probe_config(&vec![]), None);
}

#[test]
fn probe_packets_and_replies() {
    let mut sender = Sender::new();
    let samples = [1.0f32.to_bits(), (-0.5f32).to_bits()];
    let packet = sender.send(&samples, 1000);
    assert_eq!(packet, vec![1, 0, 0, 0, 0, 0, 0x80, 0x3f, 0, 0, 0, 0xbf]);
    let second = sender.send(&[], 2000);
    assert_eq!(second, vec![2, 0, 0, 0]);

    let mut receiver = Receiver::new();
    let reply = receiver.receive(&packet);
    assert_eq!(reply, vec![1, 0, 0, 0]);
    assert_eq!(sender.receive(&reply, 1750), (1, Some(750)));
    assert_eq!(sender.receive(&[2], 2001), (2, Some(1)));
    assert_eq!(sender.receive(&[3, 0, 0, 0], 2001), (3, None));
    assert_eq!(sender.receive(&[1, 0, 0, 0, 9, 9], 999), (1, Some(0)));

    assert!(receiver.has_block());
    let played = receiver.play(3);
    assert_eq!(played, vec![1.0f32.to_bits(), (-0.5f32).to_bits(), 0]);
    assert!(!receiver.has_block());
    assert_eq!(receiver.play(2), vec![0, 0]);
}

#[test]
fn probe_blocks_are_played_in_order() {
    let mut sender = Sender::new();
    let mut receiver = Receiver::new();
    let long: Vec<u32> = (0..1500).collect();
    let packet = sender.send(&long, 0);
    assert!(packet.len() <= PACKET_CAPACITY);
    receiver.receive(&packet);
    receiver.receive(&sender.send(&[7], 0));
    let block = receiver.play(BLOCK_LEN);
    assert_eq!(block, (0..1024).collect::<Vec<u32>>());
    assert_eq!(receiver.play(1), vec![7]);
    // Silence may be as long as it takes.
    assert_eq!(receiver.play(5000), vec![0; 5000]);
    // An empty packet is one of zeros.
    assert_eq!(receiver.receive(&[]), vec![0, 0, 0, 0]);
    assert_eq!(receiver.play(2), vec![0, 0]);
}
