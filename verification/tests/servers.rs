use iomust::addr::SocketAddr;
use iomust::le::encode_le;
use iomust::messages::{ClientMessage, ServerMessage};
use iomust::outbox::Outbox;
use iomust::server::{process, Action, Event, Phase, ReadOutcome, Recipient, State};
use iomust::server_connection as client;
use iomust::signaling_connection as signaling;
use iomust::signaling_messages as sm;
use std::collections::BTreeMap;
use iomust::signaling_server::{ReadOutcome as Read, SignalingServer};
use iomust::table::Table;

fn v4(last: u32, port: u16) -> SocketAddr {
    SocketAddr::V4 { ip: 0x0a00_0000 + last, port }
}

#[test]
fn tables_keep_order_and_replace() {
    let mut table = Table::new();
    table.insert(v4(1, 1), 'a');
    table.insert(v4(2, 2), 'b');
    table.insert(v4(1, 1), 'c');
    assert_eq!(table.keys(), vec![v4(1, 1), v4(2, 2)]);
    assert_eq!(table.get(&v4(1, 1)), Some(&'c'));
    assert_eq!(table.get(&v4(3, 3)), None);
    assert_eq!(table.find(&v4(2, 2)), Some(1));
    *table.value_at_mut(1) = 'd';
    assert_eq!(*table.value_at(1), 'd');
    assert_eq!(table.remove(&v4(1, 1)), Some('c'));
    assert_eq!(table.remove(&v4(1, 1)), None);
    assert_eq!(table.len(), 1);
    assert_eq!(table.key_at(0), v4(2, 2));
    assert!(table.contains_key(&v4(2, 2)));
    assert!(!table.contains_key(&v4(1, 1)));
}

#[test]
fn audio_address_requests() {
    let mut state: State<(), &str> = State::new();
    assert_eq!(state.insert_request(0x0102_0304, "first"), Ok(()));
    assert_eq!(state.insert_request(0x0102_0304, "second"), Err("second"));
    assert_eq!(state.insert_request(5, "second"), Ok(()));
    // Fewer than eight bytes are no key.
    assert_eq!(state.take_request(&[4, 3, 2, 1]), None);
    assert_eq!(state.take_request(&[4, 3, 2, 1, 0, 0, 0]), None);
    assert_eq!(state.take_request(&[4, 3, 2, 1, 0, 0, 0, 1]), None);
    assert_eq!(state.take_request(&[4, 3, 2, 1, 0, 0, 0, 0]), Some("first"));
    assert_eq!(state.take_request(&[4, 3, 2, 1, 0, 0, 0, 0]), None);
    // What is behind the key is not looked at.
    assert_eq!(state.take_request(&[5, 0, 0, 0, 0, 0, 0, 0, 9, 9]), Some("second"));
}

#[test]
fn first_free_key() {
    let mut state: State<(), &str> = State::new();
    assert_eq!(state.request_with_keys(&vec![], "a"), Err("a"));
    assert_eq!(state.request_with_keys(&vec![7, 8], "a"), Ok(7));
    assert_eq!(state.request_with_keys(&vec![7, 7, 9, 8], "b"), Ok(9));
    assert_eq!(state.request_with_keys(&vec![9, 7], "c"), Err("c"));
    assert_eq!(state.take_request(&encode_le(9, 8)), Some("b"));
    assert_eq!(state.request_with_keys(&vec![7, 9], "c"), Ok(9));
}

#[test]
fn steps_and_present_peers() {
    let mut state: State<u8, ()> = State::new();
    state.enter(v4(2, 1), 2, v4(2, 11), 1);
    let (conn, audio_addr, sample_rate) = (v4(1, 1), v4(1, 11), 48000);
    // A peer that could not be announced does not enter.
    let mut phase = Phase::Announcing { audio_addr, sample_rate };
    assert_eq!(
        state.advance(conn, &mut phase, Event::Sent { ok: false }, Some(1)),
        (Action::Abandon, vec![])
    );
    assert_eq!(state.tx(&conn), None);
    let mut phase = Phase::Announcing { audio_addr, sample_rate };
    assert_eq!(
        state.advance(conn, &mut phase, Event::Sent { ok: true }, Some(1)),
        (Action::Enter { audio_addr, sample_rate }, vec![])
    );
    assert_eq!(phase, Phase::Present { audio_addr, sample_rate });
    assert_eq!(state.tx(&conn), Some(&1));
    assert_eq!(
        state.advance(conn, &mut phase, Event::Read(ReadOutcome::Bytes(3)), None),
        (Action::Skip, vec![])
    );
    assert_eq!(state.tx(&conn), Some(&1));
    assert_eq!(
        state.advance(conn, &mut phase, Event::Read(ReadOutcome::Failed), None),
        (
            Action::Leave { audio_addr },
            vec![(v4(2, 1), ServerMessage::Left { addr: audio_addr })]
        )
    );
    assert_eq!(phase, Phase::Closed);
    assert_eq!(state.tx(&conn), None);
}

#[test]
fn random_keys_are_unique() {
    let mut state: State<(), u32> = State::new();
    let mut keys = Vec::new();
    for waiter in 0..100 {
        let key = state.request_audio_address(waiter);
        assert!(!keys.contains(&key));
        keys.push(key);
    }
    assert!(keys.iter().any(|key| *key > u32::MAX as u64));
    for (waiter, key) in keys.iter().enumerate() {
        assert_eq!(state.take_request(&encode_le(*key as u128, 8)), Some(waiter as u32));
    }
}

#[test]
fn connection_phases() {
    let mut phase = Phase::AwaitHey;
    let hey = ClientMessage::Hey { sample_rate: 44100 };
    assert_eq!(process(&mut phase, Event::Message(hey)), Action::Request);
    assert_eq!(
        process(&mut phase, Event::Requested { key: 9 }),
        Action::Send(ServerMessage::RequestAudioAddress { key: 9 })
    );
    assert_eq!(process(&mut phase, Event::Sent { ok: true }), Action::Skip);
    assert_eq!(
        process(&mut phase, Event::AudioAddr(v4(1, 7))),
        Action::Send(ServerMessage::SuccessfullyEntered)
    );
    assert_eq!(phase, Phase::Confirmed { audio_addr: v4(1, 7), sample_rate: 44100 });
    assert_eq!(
        process(&mut phase, Event::Sent { ok: true }),
        Action::Announce { audio_addr: v4(1, 7), sample_rate: 44100 }
    );
    assert_eq!(phase, Phase::Announcing { audio_addr: v4(1, 7), sample_rate: 44100 });
    assert_eq!(
        process(&mut phase, Event::Sent { ok: true }),
        Action::Enter { audio_addr: v4(1, 7), sample_rate: 44100 }
    );
    assert_eq!(phase, Phase::Present { audio_addr: v4(1, 7), sample_rate: 44100 });
    let message = ServerMessage::Left { addr: v4(2, 2) };
    assert_eq!(process(&mut phase, Event::Queued(message)), Action::Send(message));
    assert_eq!(process(&mut phase, Event::Read(ReadOutcome::Bytes(12))), Action::Skip);
    assert_eq!(
        process(&mut phase, Event::Read(ReadOutcome::Bytes(0))),
        Action::Leave { audio_addr: v4(1, 7) }
    );
    assert_eq!(phase, Phase::Closed);

    let mut phase = Phase::Present { audio_addr: v4(1, 8), sample_rate: 1 };
    assert_eq!(
        process(&mut phase, Event::Read(ReadOutcome::Failed)),
        Action::Leave { audio_addr: v4(1, 8) }
    );
}

#[test]
fn what_cannot_be_sent_ends_a_connection() {
    let (audio_addr, sample_rate) = (v4(1, 8), 1);
    for start in [
        Phase::AwaitAudioAddr { sample_rate },
        Phase::Confirmed { audio_addr, sample_rate },
        Phase::Announcing { audio_addr, sample_rate },
        Phase::Present { audio_addr, sample_rate },
    ] {
        let mut phase = start;
        assert_eq!(process(&mut phase, Event::Sent { ok: false }), Action::Abandon);
        assert_eq!(phase, Phase::Closed);
    }
}

#[test]
fn sending_stops_at_the_first_failure() {
    let mut outbox = Outbox::new(vec!['a', 'b', 'c']);
    assert_eq!(outbox.current(), Some(&'a'));
    outbox.report(true);
    assert_eq!(outbox.current(), Some(&'b'));
    assert!(!outbox.is_complete());
    outbox.report(false);
    assert_eq!(outbox.current(), None);
    assert!(!outbox.is_complete());

    let mut outbox = Outbox::new(vec!['a']);
    outbox.report(true);
    assert_eq!(outbox.current(), None);
    assert!(outbox.is_complete());
    assert!(Outbox::<char>::new(vec![]).is_complete());
}

#[test]
fn first_message_must_be_hey() {
    for message in [ClientMessage::Alive, ClientMessage::Bye] {
        let mut phase = Phase::AwaitHey;
        assert_eq!(
            process(&mut phase, Event::Message(message)),
            Action::Refuse { reason: "expected hey first" }
        );
        assert_eq!(phase, Phase::Closed);
    }
}

#[test]
fn entering_and_leaving() {
    let mut state: State<u8, ()> = State::new();
    assert_eq!(state.announce(v4(1, 11), 48000), vec![]);
    state.enter(v4(1, 1), 1, v4(1, 11), 48000);
    state.enter(v4(2, 1), 2, v4(2, 11), 44100);
    let about_new = ServerMessage::Entered { addr: v4(3, 11), sample_rate: 96000 };
    assert_eq!(
        state.announce(v4(3, 11), 96000),
        vec![
            (Recipient::Present(v4(1, 1)), about_new),
            (
                Recipient::Newcomer,
                ServerMessage::Entered { addr: v4(1, 11), sample_rate: 48000 }
            ),
            (Recipient::Present(v4(2, 1)), about_new),
            (
                Recipient::Newcomer,
                ServerMessage::Entered { addr: v4(2, 11), sample_rate: 44100 }
            ),
        ]
    );
    state.enter(v4(3, 1), 3, v4(3, 11), 96000);
    assert_eq!(state.tx(&v4(3, 1)), Some(&3));
    let gone = ServerMessage::Left { addr: v4(1, 11) };
    assert_eq!(
        state.leave(&v4(1, 1), v4(1, 11)),
        vec![(v4(2, 1), gone), (v4(3, 1), gone)]
    );
    assert_eq!(state.tx(&v4(1, 1)), None);
    // Leaving a second time tells the others once more.
    assert_eq!(state.leave(&v4(1, 1), v4(1, 11)).len(), 2);
}

#[test]
fn every_present_peer_knows_the_others() {
    let mut state: State<(), ()> = State::new();
    let mut rosters: Vec<(SocketAddr, BTreeMap<u16, u32>)> = Vec::new();
    let port_of = |addr| match addr {
        SocketAddr::V4 { port, .. } => port,
        SocketAddr::V6 { port, .. } => port,
    };
    let hear = |rosters: &mut Vec<(SocketAddr, BTreeMap<u16, u32>)>, to, message| {
        let roster = &mut rosters.iter_mut().find(|(conn, _)| *conn == to).unwrap().1;
        match message {
            ServerMessage::Entered { addr, sample_rate } => {
                roster.insert(port_of(addr), sample_rate);
            }
            ServerMessage::Left { addr } => {
                roster.remove(&port_of(addr));
            }
            _ => panic!(),
        }
    };
    for n in 1..6u32 {
        let conn = v4(n, 1);
        let audio = v4(n, 100 + n as u16);
        rosters.push((conn, BTreeMap::new()));
        for (recipient, message) in state.announce(audio, 1000 * n) {
            let to = match recipient {
                Recipient::Present(addr) => addr,
                Recipient::Newcomer => conn,
            };
            hear(&mut rosters, to, message);
        }
        state.enter(conn, (), audio, 1000 * n);
    }
    for (to, message) in state.leave(&v4(3, 1), v4(3, 103)) {
        hear(&mut rosters, to, message);
    }
    rosters.retain(|(conn, _)| *conn != v4(3, 1));
    for (conn, roster) in &rosters {
        let expected: BTreeMap<u16, u32> = [1u32, 2, 4, 5]
            .into_iter()
            .filter(|n| v4(*n, 1) != *conn)
            .map(|n| (100 + n as u16, 1000 * n))
            .collect();
        assert_eq!(*roster, expected);
    }
}

type Builder = client::ServerConnectionBuilder<u8, char, char>;

#[test]
fn entering_as_a_client() {
    let builder = Builder::new(7).entered_callback('e').left_callback('l');
    assert_eq!(builder.addr, 7);
    let (mut conn, hey) = builder.connect_and_enter(48000);
    assert_eq!(hey, ClientMessage::Hey { sample_rate: 48000 });
    assert_eq!(conn.entered_callback, Some('e'));
    assert_eq!(conn.left_callback, Some('l'));
    assert_eq!(
        conn.receive(client::Incoming::Message(ServerMessage::RequestAudioAddress {
            key: 0x0102
        })),
        client::Action::SendDatagram { datagram: vec![2, 1, 0, 0, 0, 0, 0, 0] }
    );
    assert_eq!(
        conn.receive(client::Incoming::Message(ServerMessage::SuccessfullyEntered)),
        client::Action::Entered
    );
    let entered = ServerMessage::Entered { addr: v4(1, 2), sample_rate: 3 };
    let left = ServerMessage::Left { addr: v4(1, 2) };
    assert_eq!(
        conn.receive(client::Incoming::Message(entered)),
        client::Action::CallEntered { addr: v4(1, 2), sample_rate: 3 }
    );
    assert_eq!(
        conn.receive(client::Incoming::Message(left)),
        client::Action::CallLeft { addr: v4(1, 2) }
    );
    assert_eq!(
        conn.receive(client::Incoming::Message(ServerMessage::SuccessfullyEntered)),
        client::Action::Unexpected
    );
    assert_eq!(conn.receive(client::Incoming::Malformed), client::Action::Undecodable);
    assert_eq!(
        conn.receive(client::Incoming::Eof),
        client::Action::Fail { reason: "lost server connection" }
    );
}

#[test]
fn callbacks_are_optional() {
    let (mut conn, _) = Builder::new(7).connect_and_enter(1);
    conn.phase = client::Phase::Entered;
    let entered = ServerMessage::Entered { addr: v4(1, 2), sample_rate: 3 };
    assert_eq!(conn.receive(client::Incoming::Message(entered)), client::Action::Skip);
    let left = ServerMessage::Left { addr: v4(1, 2) };
    assert_eq!(conn.receive(client::Incoming::Message(left)), client::Action::Skip);
}

#[test]
fn failing_to_enter() {
    let (mut conn, _) = Builder::new(7).connect_and_enter(1);
    assert_eq!(
        conn.receive(client::Incoming::Message(ServerMessage::SuccessfullyEntered)),
        client::Action::Fail { reason: "expected audio address request" }
    );
    assert_eq!(
        conn.receive(client::Incoming::Eof),
        client::Action::Fail { reason: "deserializing server message failed" }
    );
    conn.phase = client::Phase::AwaitEntered;
    assert_eq!(
        conn.receive(client::Incoming::Message(ServerMessage::RequestAudioAddress { key: 1 })),
        client::Action::Fail { reason: "expected successfully entered message" }
    );
    assert_eq!(
        conn.receive(client::Incoming::Malformed),
        client::Action::Fail { reason: "deserializing server message failed" }
    );
}

#[test]
fn handshake_between_client_and_server() {
    let mut state: State<(), &str> = State::new();
    let key = state.request_audio_address("waiting");
    let (mut conn, _) = Builder::new(7).connect_and_enter(1);
    let request = ServerMessage::RequestAudioAddress { key };
    match conn.receive(client::Incoming::Message(request)) {
        client::Action::SendDatagram { datagram } => {
            assert_eq!(state.take_request(&datagram), Some("waiting"));
        }
        other => panic!("{:?}", other),
    }
}

#[test]
fn signaling_callback() {
    let mut conn: signaling::SignalingConnection<u8> = signaling::SignalingConnection::connect();
    let message = sm::ServerMessage::Disconnected { addr: v4(1, 1) };
    assert_eq!(conn.receive(signaling::Incoming::Message(message)), signaling::Action::Skip);
    assert_eq!(conn.callback_mut(), None);
    conn.set_callback(1);
    conn.set_callback(2);
    assert_eq!(
        conn.receive(signaling::Incoming::Message(message)),
        signaling::Action::Call { message }
    );
    assert_eq!(conn.callback_mut(), Some(&mut 2));
    assert_eq!(conn.receive(signaling::Incoming::Undecodable), signaling::Action::Report);
}

fn hey(port: u16, sample_rate: u32) -> Read {
    Read::Message(sm::ClientMessage::Hey { name: String::from("peer"), port, sample_rate })
}

const SILENT: Read = Read::Failed { io: true, would_block: true };

#[test]
fn signaling_round() {
    let mut server = SignalingServer::new();
    server.accept(v4(1, 1), 'a');
    server.accept(v4(2, 1), 'b');
    server.accept(v4(3, 1), 'c');
    assert_eq!(server.addrs(), vec![v4(1, 1), v4(2, 1), v4(3, 1)]);
    assert_eq!(server.stream(&v4(2, 1)), Some(&'b'));
    // The first to say hey has nobody to hear about.
    let reads = vec![(v4(1, 1), hey(11, 100)), (v4(2, 1), SILENT), (v4(3, 1), SILENT)];
    assert_eq!(server.tick(&reads), vec![]);
    let connected = |addr, sample_rate| sm::ServerMessage::Connected { addr, sample_rate };
    let reads = vec![(v4(2, 1), hey(22, 200)), (v4(3, 1), hey(33, 300))];
    assert_eq!(
        server.tick(&reads),
        vec![
            (v4(2, 1), connected(v4(1, 11), 100)),
            (v4(1, 1), connected(v4(2, 22), 200)),
            (v4(3, 1), connected(v4(1, 11), 100)),
            (v4(1, 1), connected(v4(3, 33), 300)),
            (v4(3, 1), connected(v4(2, 22), 200)),
            (v4(2, 1), connected(v4(3, 33), 300)),
        ]
    );
    // Nothing there to read does not end a connection.
    let reads = vec![(v4(1, 1), SILENT), (v4(2, 1), SILENT), (v4(3, 1), SILENT)];
    assert_eq!(server.tick(&reads), vec![]);
    // What is no message does, and any other failure of the connection does.
    let reads = vec![
        (v4(1, 1), Read::Failed { io: false, would_block: false }),
        (v4(2, 1), Read::Failed { io: true, would_block: false }),
    ];
    let gone = |addr| sm::ServerMessage::Disconnected { addr };
    assert_eq!(
        server.tick(&reads),
        vec![(v4(3, 1), gone(v4(1, 11))), (v4(3, 1), gone(v4(2, 22)))]
    );
    assert_eq!(server.addrs(), vec![v4(3, 1)]);
    assert_eq!(server.stream(&v4(1, 1)), None);
}

#[test]
fn signaling_peers_without_audio_hear_nothing() {
    let mut server = SignalingServer::new();
    server.accept(v4(1, 1), ());
    server.accept(v4(2, 1), ());
    assert_eq!(server.hey(v4(1, 1), 11, 1), vec![]);
    assert_eq!(server.close(&v4(1, 1)), vec![]);
    server.hey(v4(2, 1), 22, 1);
    // A peer without audio leaves unnoticed.
    server.accept(v4(3, 1), ());
    assert_eq!(server.close(&v4(3, 1)), vec![]);
    assert_eq!(server.close(&v4(9, 9)), vec![]);
}

#[test]
fn signaling_second_hey_is_heard_by_its_sender() {
    let mut server = SignalingServer::new();
    server.accept(v4(1, 1), ());
    server.hey(v4(1, 1), 11, 100);
    let connected = |addr, sample_rate| sm::ServerMessage::Connected { addr, sample_rate };
    assert_eq!(
        server.hey(v4(1, 1), 12, 200),
        vec![
            (v4(1, 1), connected(v4(1, 11), 100)),
            (v4(1, 1), connected(v4(1, 12), 200)),
        ]
    );
    // A hey from nowhere is announced, and its sender gets nothing.
    assert_eq!(
        server.tick(&vec![(v4(5, 1), hey(55, 500))]),
        vec![(v4(1, 1), connected(v4(5, 55), 500))]
    );
}
