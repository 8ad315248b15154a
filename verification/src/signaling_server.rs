//! The signaling server, which tells peers about the audio addresses of one another.

use crate::addr;
use crate::addr::SocketAddr;
use crate::roster;
use crate::roster::Notice;
use crate::signaling_messages::ClientMessage;
use crate::signaling_messages::ServerMessage;
use crate::table;
use crate::table::Table;
use vstd::prelude::*;

verus! {

/// A peer that has a connection.
pub struct Peer<S> {
    /// The audio address of the peer. The existence of this address is equivalent to the peer
    /// being connected with audio.
    pub addr: Option<SocketAddr>,
    pub sample_rate: Option<u32>,
    pub stream: S,
}

/// What a read from the connection of a peer gave.
#[derive(Debug, PartialEq, Eq)]
pub enum ReadOutcome {
    Message(ClientMessage),
    /// The read failed: `io` with the connection itself, and then perhaps only because nothing was
    /// there; otherwise because there was something that is no message.
    Failed { io: bool, would_block: bool },
}

/// The read ends the connection. That nothing was there does not.
pub open spec fn is_closing(outcome: ReadOutcome) -> bool {
    outcome matches ReadOutcome::Failed { io, would_block } && !(io && would_block)
}

/// What others need to know about a peer that is connected with audio.
pub open spec fn about<S>(entry: (SocketAddr, Peer<S>)) -> (SocketAddr, (SocketAddr, u32)) {
    (entry.0, (entry.1.addr->0, entry.1.sample_rate->0))
}

/// The peers that are connected with audio, by connection.
pub open spec fn connected<S>(peers: Seq<(SocketAddr, Peer<S>)>) -> Seq<
    (SocketAddr, (SocketAddr, u32)),
> {
    peers.filter(|entry: (SocketAddr, Peer<S>)| entry.1.addr is Some).map_values(
        |entry: (SocketAddr, Peer<S>)| about(entry),
    )
}

/// No connection has two peers, and a peer has a sample rate if and only if it is connected with
/// audio.
pub open spec fn peers_wf<S>(peers: Seq<(SocketAddr, Peer<S>)>) -> bool {
    &&& table::keys_distinct(peers)
    &&& forall|i: int|
        0 <= i < peers.len() ==> (#[trigger] peers[i].1.addr is Some <==> peers[i].1.sample_rate
            is Some)
}

/// What tells the others, of those connected with audio, that the peer at `conn` is gone.
pub open spec fn close_messages<S>(peers: Seq<(SocketAddr, Peer<S>)>, conn: SocketAddr) -> Seq<
    (SocketAddr, ServerMessage),
> {
    match table::lookup(peers, conn) {
        Some(Peer { addr: Some(audio), .. }) => disconnections(
            connected(table::without_key(peers, conn)),
            audio,
        ),
        _ => Seq::empty(),
    }
}

/// One message to every member that somebody is gone.
pub open spec fn disconnections(
    members: Seq<(SocketAddr, (SocketAddr, u32))>,
    audio: SocketAddr,
) -> Seq<(SocketAddr, ServerMessage)> {
    members.map_values(
        |m: (SocketAddr, (SocketAddr, u32))| (m.0, ServerMessage::Disconnected { addr: audio }),
    )
}

/// One message to the newcomer at `source` about every member, and one to every member about the
/// newcomer.
pub open spec fn connections(
    members: Seq<(SocketAddr, (SocketAddr, u32))>,
    source: SocketAddr,
    audio: SocketAddr,
    sample_rate: u32,
) -> Seq<(SocketAddr, ServerMessage)> {
    Seq::new(
        2 * members.len(),
        |i: int|
            {
                let m = members[i / 2];
                if i % 2 == 0 {
                    (source, ServerMessage::Connected { addr: m.1.0, sample_rate: m.1.1 })
                } else {
                    (m.0, ServerMessage::Connected { addr: audio, sample_rate })
                }
            },
    )
}

/// The peers after a hey from `source`: it is connected with audio, at the port that it named and
/// the host that it is connected from.
pub open spec fn after_hey<S>(
    peers: Seq<(SocketAddr, Peer<S>)>,
    source: SocketAddr,
    port: u16,
    sample_rate: u32,
) -> Seq<(SocketAddr, Peer<S>)> {
    peers.map_values(
        |entry: (SocketAddr, Peer<S>)|
            if entry.0 == source {
                (
                    entry.0,
                    Peer {
                        addr: Some(source.with_port(port)),
                        sample_rate: Some(sample_rate),
                        stream: entry.1.stream,
                    },
                )
            } else {
                entry
            },
    )
}

/// The peers, and the messages to send, once the connections are closed that the reads end.
pub open spec fn after_closings<S>(
    peers: Seq<(SocketAddr, Peer<S>)>,
    reads: Seq<(SocketAddr, ReadOutcome)>,
) -> (Seq<(SocketAddr, Peer<S>)>, Seq<(SocketAddr, ServerMessage)>)
    decreases reads.len(),
{
    if reads.len() == 0 {
        (peers, Seq::empty())
    } else {
        let (rest, messages) = after_closings(peers, reads.drop_last());
        let (conn, outcome) = reads.last();
        if is_closing(outcome) {
            (table::without_key(rest, conn), messages + close_messages(rest, conn))
        } else {
            (rest, messages)
        }
    }
}

/// The peers, and the messages to send, once the heys among the reads are handled.
pub open spec fn after_heys<S>(
    peers: Seq<(SocketAddr, Peer<S>)>,
    reads: Seq<(SocketAddr, ReadOutcome)>,
) -> (Seq<(SocketAddr, Peer<S>)>, Seq<(SocketAddr, ServerMessage)>)
    decreases reads.len(),
{
    if reads.len() == 0 {
        (peers, Seq::empty())
    } else {
        let (rest, messages) = after_heys(peers, reads.drop_last());
        match reads.last() {
            (source, ReadOutcome::Message(ClientMessage::Hey { port, sample_rate, .. })) => (
                after_hey(rest, source, port, sample_rate),
                messages + connections(
                    connected(rest),
                    source,
                    source.with_port(port),
                    sample_rate,
                ),
            ),
            _ => (rest, messages),
        }
    }
}

/// The messages whose addressees are there.
pub open spec fn deliverable<S>(
    messages: Seq<(SocketAddr, ServerMessage)>,
    peers: Seq<(SocketAddr, Peer<S>)>,
) -> Seq<(SocketAddr, ServerMessage)> {
    messages.filter(|m: (SocketAddr, ServerMessage)| table::has_key(peers, m.0))
}

/// One more entry adds itself to the connected peers, if it is one.
proof fn lemma_connected_step<S>(peers: Seq<(SocketAddr, Peer<S>)>, i: int)
    requires
        0 <= i < peers.len(),
    ensures
        connected(peers.take(i + 1)) == if peers[i].1.addr is Some {
            connected(peers.take(i)).push(about(peers[i]))
        } else {
            connected(peers.take(i))
        },
{
    reveal(Seq::filter);
    assert(peers.take(i + 1).drop_last() =~= peers.take(i));
    assert(connected(peers.take(i + 1)) =~= if peers[i].1.addr is Some {
        connected(peers.take(i)).push(about(peers[i]))
    } else {
        connected(peers.take(i))
    });
}

/// The signaling server: the peers that have a connection, by the address that they are connected
/// from.
pub struct SignalingServer<S> {
    peers: Table<SocketAddr, Peer<S>>,
}

impl<S> SignalingServer<S> {
    /// The peers that have a connection.
    pub closed spec fn peers(&self) -> Seq<(SocketAddr, Peer<S>)> {
        self.peers.entries()
    }

    /// The peers are as they should be.
    pub open spec fn wf(&self) -> bool {
        peers_wf(self.peers())
    }

    /// A server without peers.
    pub fn new() -> (server: Self)
        ensures
            server.wf(),
            server.peers() == Seq::<(SocketAddr, Peer<S>)>::empty(),
    {
        SignalingServer { peers: Table::new() }
    }

    /// The addresses that peers are connected from.
    pub fn addrs(&self) -> (addrs: Vec<SocketAddr>)
        ensures
            addrs@ == table::keys_of(self.peers()),
    {
        self.peers.keys()
    }

    /// The stream of the peer that is connected from `addr`.
    pub fn stream(&self, addr: &SocketAddr) -> (stream: Option<&S>)
        requires
            self.wf(),
        ensures
            match stream {
                Some(s) => table::lookup(self.peers(), *addr) matches Some(peer) && peer.stream
                    == *s,
                None => table::lookup(self.peers(), *addr) is None,
            },
    {
        proof {
            addr::lemma_addr_eq();
        }
        match self.peers.get(addr) {
            Some(peer) => Some(&peer.stream),
            None => None,
        }
    }

    /// Stores a peer that made a connection. It is not connected with audio.
    pub fn accept(&mut self, addr: SocketAddr, stream: S)
        requires
            old(self).wf(),
        ensures
            final(self).wf(),
            final(self).peers() == table::with_entry(
                old(self).peers(),
                addr,
                Peer { addr: None, sample_rate: None, stream },
            ),
    {
        proof {
            addr::lemma_addr_eq();
        }
        self.peers.insert(addr, Peer { addr: None, sample_rate: None, stream });
    }

    /// Removes a peer, and returns the messages that tell the others.
    pub fn close(&mut self, conn: &SocketAddr) -> (messages: Vec<(SocketAddr, ServerMessage)>)
        requires
            old(self).wf(),
        ensures
            final(self).wf(),
            final(self).peers() == table::without_key(old(self).peers(), *conn),
            messages@ == close_messages(old(self).peers(), *conn),
    {
        let ghost before = self.peers();
        proof {
            addr::lemma_addr_eq();
        }
        let removed: Option<Peer<S>> = self.peers.remove(conn);
        proof {
            lemma_without_key_wf(before, *conn);
        }
        let mut messages: Vec<(SocketAddr, ServerMessage)> = Vec::new();
        if let Some(peer) = removed {
            if let Some(audio) = peer.addr {
                let ghost rest = self.peers();
                assert(connected(rest.take(0)) =~= Seq::empty()) by {
                    reveal(Seq::filter);
                }
                let mut i: usize = 0;
                while i < self.peers.len()
                    invariant
                        rest == self.peers(),
                        i <= rest.len(),
                        messages@ =~= disconnections(connected(rest.take(i as int)), audio),
                    decreases rest.len() - i,
                {
                    proof {
                        lemma_connected_step(rest, i as int);
                    }
                    if self.peers.value_at(i).addr.is_some() {
                        messages.push(
                            (self.peers.key_at(i), ServerMessage::Disconnected { addr: audio }),
                        );
                    }
                    i = i + 1;
                }
                assert(rest.take(rest.len() as int) =~= rest);
            }
        }
        messages
    }

    /// Handles a hey: the peer at `source` listens for audio at `port`. Stores that, and returns
    /// the messages that tell it and those already connected with audio about each other.
    pub fn hey(&mut self, source: SocketAddr, port: u16, sample_rate: u32) -> (messages: Vec<
        (SocketAddr, ServerMessage),
    >)
        requires
            old(self).wf(),
        ensures
            final(self).wf(),
            final(self).peers() == after_hey(old(self).peers(), source, port, sample_rate),
            messages@ == connections(
                connected(old(self).peers()),
                source,
                source.with_port(port),
                sample_rate,
            ),
    {
        // The audio address of the peer is its source address and the provided port number.
        let mut audio: SocketAddr = source;
        audio.set_port(port);

        let ghost before = self.peers();
        let mut messages: Vec<(SocketAddr, ServerMessage)> = Vec::new();
        assert(connected(before.take(0)) =~= Seq::empty()) by {
            reveal(Seq::filter);
        }
        let mut i: usize = 0;
        while i < self.peers.len()
            invariant
                before == self.peers(),
                peers_wf(before),
                i <= before.len(),
                messages@ =~= connections(
                    connected(before.take(i as int)),
                    source,
                    audio,
                    sample_rate,
                ),
            decreases before.len() - i,
        {
            proof {
                lemma_connected_step(before, i as int);
                assert(before[i as int].1.addr is Some <==> before[i as int].1.sample_rate
                    is Some);
            }
            let peer: &Peer<S> = self.peers.value_at(i);
            if let Some(peer_audio) = peer.addr {
                let peer_rate: u32 = peer.sample_rate.unwrap();
                messages.push(
                    (
                        source,
                        ServerMessage::Connected { addr: peer_audio, sample_rate: peer_rate },
                    ),
                );
                messages.push(
                    (self.peers.key_at(i), ServerMessage::Connected { addr: audio, sample_rate }),
                );
            }
            i = i + 1;
        }
        assert(before.take(before.len() as int) =~= before);

        proof {
            addr::lemma_addr_eq();
        }
        if let Some(at) = self.peers.find(&source) {
            let peer: &mut Peer<S> = self.peers.value_at_mut(at);
            peer.addr = Some(audio);
            peer.sample_rate = Some(sample_rate);
        }
        proof {
            assert(self.peers() =~= after_hey(before, source, port, sample_rate)) by {
                assert forall|j: int| 0 <= j < before.len() implies #[trigger] self.peers()[j]
                    == after_hey(before, source, port, sample_rate)[j] by {
                    if before[j].0 == source {
                        assert(table::has_key(before, source));
                    }
                }
            }
            lemma_after_hey_wf(before, source, port, sample_rate);
        }
        messages
    }

    /// Handles one round of reads, at most one from every peer: first closes the connections that
    /// they end, then handles the heys among them. Returns the messages to send, in order, to
    /// peers that are still there. Messages other than heys have no meaning yet.
    pub fn tick(&mut self, reads: &Vec<(SocketAddr, ReadOutcome)>) -> (messages: Vec<
        (SocketAddr, ServerMessage),
    >)
        requires
            old(self).wf(),
            forall|i: int|
                0 <= i < reads@.len() ==> (#[trigger] reads@[i].1 matches ReadOutcome::Message(m)
                    ==> m is Hey),
        ensures
            final(self).wf(),
            ({
                let (remaining, closing) = after_closings(old(self).peers(), reads@);
                let (peers, connecting) = after_heys(remaining, reads@);
                &&& final(self).peers() == peers
                &&& messages@ == deliverable(closing + connecting, peers)
            }),
    {
        let ghost start = self.peers();
        let mut outgoing: Vec<(SocketAddr, ServerMessage)> = Vec::new();

        let mut i: usize = 0;
        while i < reads.len()
            invariant
                self.wf(),
                i <= reads@.len(),
                after_closings(start, reads@.take(i as int)) == (self.peers(), outgoing@),
            decreases reads@.len() - i,
        {
            proof {
                assert(reads@.take(i + 1).drop_last() =~= reads@.take(i as int));
                assert(reads@.take(i + 1).last() == reads@[i as int]);
            }
            let closing: bool = match &reads[i].1 {
                ReadOutcome::Message(_) => false,
                ReadOutcome::Failed { io, would_block } => !(*io && *would_block),
            };
            if closing {
                let mut messages: Vec<(SocketAddr, ServerMessage)> = self.close(&reads[i].0);
                outgoing.append(&mut messages);
            }
            i = i + 1;
        }
        assert(reads@.take(reads@.len() as int) =~= reads@);

        let ghost remaining = self.peers();
        let ghost closing = outgoing@;
        assert(closing + Seq::<(SocketAddr, ServerMessage)>::empty() =~= closing);
        i = 0;
        while i < reads.len()
            invariant
                self.wf(),
                i <= reads@.len(),
                after_heys(remaining, reads@.take(i as int)).0 == self.peers(),
                closing + after_heys(remaining, reads@.take(i as int)).1 == outgoing@,
            decreases reads@.len() - i,
        {
            proof {
                assert(reads@.take(i + 1).drop_last() =~= reads@.take(i as int));
                assert(reads@.take(i + 1).last() == reads@[i as int]);
            }
            if let ReadOutcome::Message(ClientMessage::Hey { port, sample_rate, .. }) =
                &reads[i].1 {
                let ghost so_far = after_heys(remaining, reads@.take(i as int)).1;
                let mut messages: Vec<(SocketAddr, ServerMessage)> = self.hey(
                    reads[i].0,
                    *port,
                    *sample_rate,
                );
                assert(closing + so_far + messages@ =~= closing + (so_far + messages@));
                outgoing.append(&mut messages);
            }
            i = i + 1;
        }

        let ghost peers = self.peers();
        let mut messages: Vec<(SocketAddr, ServerMessage)> = Vec::new();
        assert(deliverable(outgoing@.take(0), peers) =~= Seq::empty()) by {
            reveal(Seq::filter);
        }
        i = 0;
        while i < outgoing.len()
            invariant
                peers == self.peers(),
                i <= outgoing@.len(),
                messages@ == deliverable(outgoing@.take(i as int), peers),
            decreases outgoing@.len() - i,
        {
            proof {
                addr::lemma_addr_eq();
                reveal(Seq::filter);
                assert(outgoing@.take(i + 1).drop_last() =~= outgoing@.take(i as int));
            }
            if self.peers.contains_key(&outgoing[i].0) {
                messages.push(outgoing[i]);
            }
            i = i + 1;
        }
        assert(outgoing@.take(outgoing@.len() as int) =~= outgoing@);
        messages
    }
}

/// Removing a peer keeps the others as they should be.
proof fn lemma_without_key_wf<S>(peers: Seq<(SocketAddr, Peer<S>)>, conn: SocketAddr)
    requires
        peers_wf(peers),
    ensures
        peers_wf(table::without_key(peers, conn)),
{
    table::lemma_without_key(peers, conn);
    let rest = table::without_key(peers, conn);
    if table::has_key(peers, conn) {
        let k = choose|k: int| 0 <= k < peers.len() && #[trigger] peers[k].0 == conn;
        table::lemma_without_key_at(peers, k);
        assert forall|i: int| 0 <= i < rest.len() implies (#[trigger] rest[i].1.addr is Some
            <==> rest[i].1.sample_rate is Some) by {
            let i0 = if i < k { i } else { i + 1 };
            assert(rest[i] == peers[i0]);
            assert(peers[i0].1.addr is Some <==> peers[i0].1.sample_rate is Some);
        }
    } else {
        table::lemma_without_absent_key(peers, conn);
    }
}

/// A hey keeps the peers as they should be.
proof fn lemma_after_hey_wf<S>(
    peers: Seq<(SocketAddr, Peer<S>)>,
    source: SocketAddr,
    port: u16,
    sample_rate: u32,
)
    requires
        peers_wf(peers),
    ensures
        peers_wf(after_hey(peers, source, port, sample_rate)),
{
    let after = after_hey(peers, source, port, sample_rate);
    assert forall|i: int, j: int| 0 <= i < j < after.len() implies #[trigger] after[i].0
        != #[trigger] after[j].0 by {
        assert(peers[i].0 != peers[j].0);
    }
    assert forall|i: int| 0 <= i < after.len() implies (#[trigger] after[i].1.addr is Some
        <==> after[i].1.sample_rate is Some) by {
        assert(peers[i].1.addr is Some <==> peers[i].1.sample_rate is Some);
    }
}

/// The peers connected with audio are just those peers that have an audio address, each once.
proof fn lemma_connected<S>(peers: Seq<(SocketAddr, Peer<S>)>)
    requires
        table::keys_distinct(peers),
    ensures
        table::keys_distinct(connected(peers)),
        forall|i: int|
            0 <= i < peers.len() && #[trigger] peers[i].1.addr is Some ==> table::has_key(
                connected(peers),
                peers[i].0,
            ) && table::map_of(connected(peers))[peers[i].0] == about(peers[i]).1,
        forall|conn: SocketAddr| #[trigger]
            table::has_key(connected(peers), conn) ==> exists|i: int|
                0 <= i < peers.len() && peers[i].0 == conn && #[trigger] peers[i].1.addr is Some,
    decreases peers.len(),
{
    let members = connected(peers);
    if peers.len() == 0 {
        reveal(Seq::filter);
        assert(members.len() == 0);
    } else {
        let n = peers.len() - 1;
        let init = peers.take(n);
        assert(peers.take(n + 1) =~= peers);
        lemma_connected_step(peers, n);
        assert forall|i: int, j: int| 0 <= i < j < init.len() implies #[trigger] init[i].0
            != #[trigger] init[j].0 by {
            assert(peers[i].0 != peers[j].0);
        }
        lemma_connected(init);
        let prior = connected(init);
        assert(!table::has_key(prior, peers[n].0)) by {
            if table::has_key(prior, peers[n].0) {
                let i = choose|i: int|
                    0 <= i < init.len() && init[i].0 == peers[n].0 && #[trigger] init[i].1.addr
                        is Some;
                assert(peers[i].0 != peers[n].0);
            }
        }
        if peers[n].1.addr is Some {
            table::lemma_with_entry(prior, peers[n].0, about(peers[n]).1);
            assert(members =~= table::with_entry(prior, peers[n].0, about(peers[n]).1));
        }
        assert forall|i: int| 0 <= i < peers.len() && #[trigger] peers[i].1.addr is Some implies
            table::has_key(members, peers[i].0) && table::map_of(members)[peers[i].0] == about(
            peers[i],
        ).1 by {
            if i < n {
                assert(init[i] == peers[i]);
                assert(init[i].1.addr is Some);
                assert(peers[i].0 != peers[n].0);
                assert(table::has_key(prior, peers[i].0));
                assert(table::map_of(prior).contains_key(peers[i].0));
            }
        }
        assert forall|conn: SocketAddr| #[trigger] table::has_key(members, conn) implies exists|
            i: int,
        |
            0 <= i < peers.len() && peers[i].0 == conn && #[trigger] peers[i].1.addr is Some by {
            if table::has_key(prior, conn) {
                let i = choose|i: int|
                    0 <= i < init.len() && init[i].0 == conn && #[trigger] init[i].1.addr is Some;
                assert(peers[i] == init[i]);
                assert(peers[i].1.addr is Some);
            } else {
                assert(peers[n].1.addr is Some);
                assert(conn == peers[n].0);
            }
        }
    }
}

/// Whether a peer is connected with audio, and how, can be read off its entry.
proof fn lemma_connected_at<S>(peers: Seq<(SocketAddr, Peer<S>)>, i: int)
    requires
        table::keys_distinct(peers),
        0 <= i < peers.len(),
    ensures
        table::has_key(connected(peers), peers[i].0) <==> peers[i].1.addr is Some,
        peers[i].1.addr is Some ==> table::map_of(connected(peers))[peers[i].0] == about(
            peers[i],
        ).1,
{
    lemma_connected(peers);
    if table::has_key(connected(peers), peers[i].0) {
        let j = choose|j: int|
            0 <= j < peers.len() && peers[j].0 == peers[i].0 && #[trigger] peers[j].1.addr is Some;
        assert(i == j);
    }
}

/// Closing a connection takes its peer out of those connected with audio.
proof fn lemma_connected_after_close<S>(peers: Seq<(SocketAddr, Peer<S>)>, conn: SocketAddr)
    requires
        table::keys_distinct(peers),
    ensures
        table::map_of(connected(table::without_key(peers, conn))) == table::map_of(
            connected(peers),
        ).remove(conn),
{
    let rest = table::without_key(peers, conn);
    table::lemma_without_key(peers, conn);
    lemma_connected(peers);
    lemma_connected(rest);
    let before = table::map_of(connected(peers));
    let after = table::map_of(connected(rest));
    assert forall|c: SocketAddr| #[trigger] after.contains_key(c) implies c != conn
        && before.contains_key(c) && after[c] == before[c] by {
        assert(table::has_key(connected(rest), c));
        let i = choose|i: int|
            0 <= i < rest.len() && rest[i].0 == c && #[trigger] rest[i].1.addr is Some;
        assert(table::has_key(rest, c));
        lemma_connected_at(rest, i);
        lemma_in_both(peers, conn, i);
        let j = choose|j: int| 0 <= j < peers.len() && #[trigger] peers[j] == rest[i];
        lemma_connected_at(peers, j);
    }
    assert forall|c: SocketAddr| #[trigger] before.contains_key(c) && c != conn implies
        after.contains_key(c) by {
        assert(table::has_key(connected(peers), c));
        let j = choose|j: int|
            0 <= j < peers.len() && peers[j].0 == c && #[trigger] peers[j].1.addr is Some;
        assert(table::has_key(peers, c));
        assert(table::has_key(rest, c));
        let i = choose|i: int| 0 <= i < rest.len() && #[trigger] rest[i].0 == c;
        lemma_in_both(peers, conn, i);
        let k = choose|k: int| 0 <= k < peers.len() && #[trigger] peers[k] == rest[i];
        assert(k == j);
        lemma_connected_at(rest, i);
    }
    assert(after =~= before.remove(conn));
}

/// What remains when an address is left out was there before.
proof fn lemma_in_both<S>(peers: Seq<(SocketAddr, Peer<S>)>, conn: SocketAddr, i: int)
    requires
        table::keys_distinct(peers),
        0 <= i < table::without_key(peers, conn).len(),
    ensures
        exists|j: int|
            0 <= j < peers.len() && #[trigger] peers[j] == table::without_key(peers, conn)[i],
{
    let rest = table::without_key(peers, conn);
    if table::has_key(peers, conn) {
        let k = choose|k: int| 0 <= k < peers.len() && #[trigger] peers[k].0 == conn;
        table::lemma_without_key_at(peers, k);
        let j = if i < k { i } else { i + 1 };
        assert(peers[j] == rest[i]);
    } else {
        table::lemma_without_absent_key(peers, conn);
        assert(peers[i] == rest[i]);
    }
}

/// A hey adds the peer to those connected with audio.
proof fn lemma_connected_after_hey<S>(
    peers: Seq<(SocketAddr, Peer<S>)>,
    source: SocketAddr,
    port: u16,
    sample_rate: u32,
)
    requires
        peers_wf(peers),
        table::has_key(peers, source),
    ensures
        table::map_of(connected(after_hey(peers, source, port, sample_rate))) == table::map_of(
            connected(peers),
        ).insert(source, (source.with_port(port), sample_rate)),
        forall|c: SocketAddr|
            table::has_key(after_hey(peers, source, port, sample_rate), c) <==> table::has_key(
                peers,
                c,
            ),
{
    let rest = after_hey(peers, source, port, sample_rate);
    lemma_after_hey_wf(peers, source, port, sample_rate);
    lemma_connected(peers);
    lemma_connected(rest);
    let before = table::map_of(connected(peers));
    let after = table::map_of(connected(rest));
    let audio = source.with_port(port);
    assert forall|c: SocketAddr| table::has_key(rest, c) <==> table::has_key(peers, c) by {
        if table::has_key(peers, c) {
            let i = choose|i: int| 0 <= i < peers.len() && #[trigger] peers[i].0 == c;
            assert(rest[i].0 == c);
        }
        if table::has_key(rest, c) {
            let i = choose|i: int| 0 <= i < rest.len() && #[trigger] rest[i].0 == c;
            assert(peers[i].0 == c);
        }
    }
    assert forall|c: SocketAddr| #[trigger] after.contains_key(c) implies if c == source {
        after[c] == (audio, sample_rate)
    } else {
        before.contains_key(c) && after[c] == before[c]
    } by {
        assert(table::has_key(connected(rest), c));
        let i = choose|i: int|
            0 <= i < rest.len() && rest[i].0 == c && #[trigger] rest[i].1.addr is Some;
        lemma_connected_at(rest, i);
        lemma_connected_at(peers, i);
    }
    assert forall|c: SocketAddr| #[trigger] before.contains_key(c) implies after.contains_key(c) by {
        assert(table::has_key(connected(peers), c));
        let i = choose|i: int|
            0 <= i < peers.len() && peers[i].0 == c && #[trigger] peers[i].1.addr is Some;
        lemma_connected_at(rest, i);
    }
    let k = choose|k: int| 0 <= k < peers.len() && #[trigger] peers[k].0 == source;
    lemma_connected_at(rest, k);
    assert(after.contains_key(source));
    assert(after =~= before.insert(source, (audio, sample_rate)));
}

/// What a message says about other peers.
pub open spec fn notice_of(message: ServerMessage) -> Notice {
    match message {
        ServerMessage::Connected { addr, sample_rate } => Notice::Joined { addr, sample_rate },
        ServerMessage::Disconnected { addr } => Notice::Gone { addr },
    }
}

/// Messages as notices.
pub open spec fn notified(messages: Seq<(SocketAddr, ServerMessage)>) -> Seq<
    (SocketAddr, Notice),
> {
    messages.map_values(|m: (SocketAddr, ServerMessage)| (m.0, notice_of(m.1)))
}

/// Every peer that is connected with audio knows exactly the others that are, and a peer that is
/// not knows nobody.
pub open spec fn settled<S>(
    peers: Seq<(SocketAddr, Peer<S>)>,
    rosters: Map<SocketAddr, roster::Roster>,
) -> bool {
    forall|me: SocketAddr| #[trigger]
        table::has_key(peers, me) ==> rosters.contains_key(me) && rosters[me] == if table::has_key(
            connected(peers),
            me,
        ) {
            roster::known_to(table::map_of(connected(peers)), me)
        } else {
            Map::empty()
        }
}

/// When a connection is closed, those that remain learn about it: where every peer connected with
/// audio knew exactly the others, then so it is after the messages are delivered.
pub proof fn law_close_keeps_rosters_settled<S>(
    peers: Seq<(SocketAddr, Peer<S>)>,
    rosters: Map<SocketAddr, roster::Roster>,
    conn: SocketAddr,
)
    requires
        peers_wf(peers),
        roster::audio_distinct(table::map_of(connected(peers))),
        settled(peers, rosters),
    ensures
        settled(
            table::without_key(peers, conn),
            roster::deliver(rosters, notified(close_messages(peers, conn))),
        ),
        roster::audio_distinct(table::map_of(connected(table::without_key(peers, conn)))),
{
    let rest = table::without_key(peers, conn);
    let notices = notified(close_messages(peers, conn));
    let told = roster::deliver(rosters, notices);
    let before = table::map_of(connected(peers));
    let after = table::map_of(connected(rest));
    table::lemma_without_key(peers, conn);
    lemma_connected(peers);
    lemma_connected(rest);
    lemma_connected_after_close(peers, conn);
    assert(roster::audio_distinct(after)) by {
        assert forall|a: SocketAddr, b: SocketAddr|
            #![trigger after.contains_key(a), after.contains_key(b)]
            after.contains_key(a) && after.contains_key(b) && a != b implies after[a].0
            != after[b].0 by {
            assert(before.contains_key(a) && before.contains_key(b));
        }
    }
    if before.contains_key(conn) {
        let i = choose|i: int|
            0 <= i < peers.len() && peers[i].0 == conn && #[trigger] peers[i].1.addr is Some;
        table::lemma_lookup(peers, i);
        lemma_connected_at(peers, i);
        let audio = peers[i].1.addr->0;
        assert(notices =~= roster::dismissal(connected(rest), audio));
        assert forall|me: SocketAddr| #[trigger] table::has_key(rest, me) implies
            told.contains_key(me) && told[me] == if table::has_key(connected(rest), me) {
            roster::known_to(after, me)
        } else {
            Map::empty()
        } by {
            assert(me != conn && table::has_key(peers, me));
            roster::lemma_dismissal_to_member(connected(rest), audio, me, rosters[me]);
            assert(told[me] == roster::heard(rosters[me], notices, me));
            if table::has_key(connected(rest), me) {
                assert(after.contains_key(me));
                assert(before.contains_key(me));
                roster::lemma_known_after_part(before, conn, me);
            } else {
                assert(!before.contains_key(me)) by {
                    if before.contains_key(me) {
                        assert(after.contains_key(me));
                    }
                }
            }
        }
    } else {
        assert(close_messages(peers, conn) =~= Seq::empty()) by {
            if table::has_key(peers, conn) {
                let i = choose|i: int| 0 <= i < peers.len() && #[trigger] peers[i].0 == conn;
                table::lemma_lookup(peers, i);
                lemma_connected_at(peers, i);
            }
        }
        assert(after =~= before);
        assert forall|me: SocketAddr| #[trigger] table::has_key(rest, me) implies
            told.contains_key(me) && told[me] == if table::has_key(connected(rest), me) {
            roster::known_to(after, me)
        } else {
            Map::empty()
        } by {
            assert(table::has_key(peers, me));
            assert(notices =~= Seq::empty());
            assert(told[me] == roster::heard(rosters[me], notices, me));
            assert(before.contains_key(me) <==> after.contains_key(me));
        }
    }
}

/// A hey may be said by a peer that has a connection and is not yet connected with audio, with an
/// audio address that nobody else has.
pub open spec fn may_say_hey<S>(
    peers: Seq<(SocketAddr, Peer<S>)>,
    source: SocketAddr,
    port: u16,
    sample_rate: u32,
) -> bool {
    &&& table::has_key(peers, source)
    &&& !table::has_key(connected(peers), source)
    &&& roster::audio_distinct(
        table::map_of(connected(peers)).insert(source, (source.with_port(port), sample_rate)),
    )
}

/// When a peer says hey, it and those connected with audio learn about each other: where every one
/// of them knew exactly the others, then so it is, the newcomer included, after the messages are
/// delivered.
pub proof fn law_hey_keeps_rosters_settled<S>(
    peers: Seq<(SocketAddr, Peer<S>)>,
    rosters: Map<SocketAddr, roster::Roster>,
    source: SocketAddr,
    port: u16,
    sample_rate: u32,
)
    requires
        peers_wf(peers),
        settled(peers, rosters),
        may_say_hey(peers, source, port, sample_rate),
    ensures
        settled(
            after_hey(peers, source, port, sample_rate),
            roster::deliver(
                rosters,
                notified(
                    connections(connected(peers), source, source.with_port(port), sample_rate),
                ),
            ),
        ),
        roster::audio_distinct(
            table::map_of(connected(after_hey(peers, source, port, sample_rate))),
        ),
{
    let members = connected(peers);
    let audio = source.with_port(port);
    let rest = after_hey(peers, source, port, sample_rate);
    let notices = notified(connections(members, source, audio, sample_rate));
    let told = roster::deliver(rosters, notices);
    let before = table::map_of(members);
    let after = table::map_of(connected(rest));
    lemma_connected(peers);
    lemma_connected_after_hey(peers, source, port, sample_rate);
    assert(roster::audio_distinct(before)) by {
        assert forall|a: SocketAddr, b: SocketAddr|
            #![trigger before.contains_key(a), before.contains_key(b)]
            before.contains_key(a) && before.contains_key(b) && a != b implies before[a].0
            != before[b].0 by {
            assert(after.contains_key(a) && after.contains_key(b));
        }
    }
    assert(notices =~= roster::introduction(members, source, audio, sample_rate, true));
    roster::lemma_introduction(members, source, audio, sample_rate, true);
    assert forall|me: SocketAddr| #[trigger] table::has_key(rest, me) implies told.contains_key(me)
        && told[me] == if table::has_key(connected(rest), me) {
        roster::known_to(after, me)
    } else {
        Map::empty()
    } by {
        assert(table::has_key(peers, me));
        assert(told[me] == roster::heard(rosters[me], notices, me));
        assert(after.contains_key(me) <==> me == source || before.contains_key(me));
        roster::lemma_known_after_join(before, source, audio, sample_rate, me);
        if me != source {
            roster::lemma_introduction_to_member(
                members,
                source,
                audio,
                sample_rate,
                true,
                me,
                rosters[me],
            );
        }
    }
}

/// Every hey among the reads may be said when its turn comes.
pub open spec fn heys_in_order<S>(
    peers: Seq<(SocketAddr, Peer<S>)>,
    reads: Seq<(SocketAddr, ReadOutcome)>,
) -> bool
    decreases reads.len(),
{
    reads.len() == 0 || {
        &&& heys_in_order(peers, reads.drop_last())
        &&& reads.last() matches (
            source,
            ReadOutcome::Message(ClientMessage::Hey { port, sample_rate, .. }),
        ) ==> may_say_hey(
            after_heys(peers, reads.drop_last()).0,
            source,
            port,
            sample_rate,
        )
    }
}

/// The closings of a round keep the rosters settled.
proof fn lemma_closings_settled<S>(
    peers: Seq<(SocketAddr, Peer<S>)>,
    rosters: Map<SocketAddr, roster::Roster>,
    reads: Seq<(SocketAddr, ReadOutcome)>,
)
    requires
        peers_wf(peers),
        roster::audio_distinct(table::map_of(connected(peers))),
        settled(peers, rosters),
    ensures
        ({
            let (rest, messages) = after_closings(peers, reads);
            &&& peers_wf(rest)
            &&& roster::audio_distinct(table::map_of(connected(rest)))
            &&& settled(rest, roster::deliver(rosters, notified(messages)))
        }),
    decreases reads.len(),
{
    if reads.len() == 0 {
        assert(notified(Seq::empty()) =~= Seq::empty());
        assert(roster::deliver(rosters, Seq::empty()) =~= rosters);
    } else {
        lemma_closings_settled(peers, rosters, reads.drop_last());
        let (rest, messages) = after_closings(peers, reads.drop_last());
        let (conn, outcome) = reads.last();
        if is_closing(outcome) {
            let told = roster::deliver(rosters, notified(messages));
            lemma_without_key_wf(rest, conn);
            law_close_keeps_rosters_settled(rest, told, conn);
            let more = close_messages(rest, conn);
            assert(notified(messages + more) =~= notified(messages) + notified(more));
            roster::lemma_deliver_concat(rosters, notified(messages), notified(more));
        }
    }
}

/// The heys of a round keep the rosters settled.
proof fn lemma_heys_settled<S>(
    peers: Seq<(SocketAddr, Peer<S>)>,
    rosters: Map<SocketAddr, roster::Roster>,
    reads: Seq<(SocketAddr, ReadOutcome)>,
)
    requires
        peers_wf(peers),
        roster::audio_distinct(table::map_of(connected(peers))),
        settled(peers, rosters),
        heys_in_order(peers, reads),
    ensures
        ({
            let (rest, messages) = after_heys(peers, reads);
            &&& peers_wf(rest)
            &&& roster::audio_distinct(table::map_of(connected(rest)))
            &&& settled(rest, roster::deliver(rosters, notified(messages)))
        }),
    decreases reads.len(),
{
    if reads.len() == 0 {
        assert(notified(Seq::empty()) =~= Seq::empty());
        assert(roster::deliver(rosters, Seq::empty()) =~= rosters);
    } else {
        lemma_heys_settled(peers, rosters, reads.drop_last());
        let (rest, messages) = after_heys(peers, reads.drop_last());
        match reads.last() {
            (source, ReadOutcome::Message(ClientMessage::Hey { port, sample_rate, .. })) => {
                let told = roster::deliver(rosters, notified(messages));
                lemma_after_hey_wf(rest, source, port, sample_rate);
                law_hey_keeps_rosters_settled(rest, told, source, port, sample_rate);
                let more = connections(
                    connected(rest),
                    source,
                    source.with_port(port),
                    sample_rate,
                );
                assert(notified(messages + more) =~= notified(messages) + notified(more));
                roster::lemma_deliver_concat(rosters, notified(messages), notified(more));
            },
            _ => {},
        }
    }
}

/// Dropping messages to those who are not there changes nothing for those who are.
proof fn lemma_heard_deliverable<S>(
    peers: Seq<(SocketAddr, Peer<S>)>,
    messages: Seq<(SocketAddr, ServerMessage)>,
    me: SocketAddr,
    roster: roster::Roster,
)
    requires
        table::has_key(peers, me),
    ensures
        roster::heard(roster, notified(deliverable(messages, peers)), me) == roster::heard(
            roster,
            notified(messages),
            me,
        ),
    decreases messages.len(),
{
    reveal(Seq::filter);
    if messages.len() != 0 {
        let init = messages.drop_last();
        lemma_heard_deliverable(peers, init, me, roster);
        assert(notified(messages).drop_last() =~= notified(init));
        let kept = deliverable(init, peers);
        assert(notified(kept.push(messages.last())).drop_last() =~= notified(kept));
    } else {
        assert(deliverable(messages, peers) =~= messages);
    }
}

/// A round of reads keeps the peers informed: where every peer connected with audio knew exactly
/// the others, then so it is after the round, once its messages are delivered. Every hey must be
/// said by a peer that is not connected with audio yet, with an audio address of its own.
pub proof fn law_tick_keeps_rosters_settled<S>(
    peers: Seq<(SocketAddr, Peer<S>)>,
    rosters: Map<SocketAddr, roster::Roster>,
    reads: Seq<(SocketAddr, ReadOutcome)>,
)
    requires
        peers_wf(peers),
        roster::audio_distinct(table::map_of(connected(peers))),
        settled(peers, rosters),
        heys_in_order(after_closings(peers, reads).0, reads),
    ensures
        ({
            let (remaining, closing) = after_closings(peers, reads);
            let (after, connecting) = after_heys(remaining, reads);
            &&& peers_wf(after)
            &&& roster::audio_distinct(table::map_of(connected(after)))
            &&& settled(
                after,
                roster::deliver(rosters, notified(deliverable(closing + connecting, after))),
            )
        }),
{
    let (remaining, closing) = after_closings(peers, reads);
    let (after, connecting) = after_heys(remaining, reads);
    lemma_closings_settled(peers, rosters, reads);
    let told = roster::deliver(rosters, notified(closing));
    lemma_heys_settled(remaining, told, reads);
    roster::lemma_deliver_concat(rosters, notified(closing), notified(connecting));
    let messages = closing + connecting;
    assert(notified(messages) =~= notified(closing) + notified(connecting));
    let all = roster::deliver(rosters, notified(messages));
    let sent = roster::deliver(rosters, notified(deliverable(messages, after)));
    assert forall|me: SocketAddr| #[trigger] table::has_key(after, me) implies sent.contains_key(me)
        && sent[me] == all[me] by {
        assert(all.contains_key(me));
        lemma_heard_deliverable(after, messages, me, rosters[me]);
    }
}

/// A peer that made a connection knows nobody and is known to nobody: who is connected with audio
/// stays as it was.
pub proof fn law_accept_keeps_rosters_settled<S>(
    peers: Seq<(SocketAddr, Peer<S>)>,
    rosters: Map<SocketAddr, roster::Roster>,
    conn: SocketAddr,
    stream: S,
)
    requires
        peers_wf(peers),
        !table::has_key(peers, conn),
        settled(peers, rosters),
    ensures
        settled(
            table::with_entry(peers, conn, Peer { addr: None, sample_rate: None, stream }),
            rosters.insert(conn, Map::empty()),
        ),
        connected(table::with_entry(peers, conn, Peer { addr: None, sample_rate: None, stream }))
            == connected(peers),
{
    let peer = Peer { addr: None, sample_rate: None, stream };
    let after = table::with_entry(peers, conn, peer);
    let n = peers.len() as int;
    table::lemma_with_entry(peers, conn, peer);
    lemma_connected_step(after, n);
    assert(after.take(n) =~= peers);
    assert(after.take(n + 1) =~= after);
    lemma_connected(peers);
    assert forall|me: SocketAddr| #[trigger] table::has_key(after, me) && me != conn implies
        table::has_key(peers, me) by {}
}

/// Silent peers are left alone: a round in which nothing was there to read changes nothing and
/// sends nothing.
pub proof fn law_silence_changes_nothing<S>(
    peers: Seq<(SocketAddr, Peer<S>)>,
    reads: Seq<(SocketAddr, ReadOutcome)>,
)
    requires
        forall|i: int|
            0 <= i < reads.len() ==> #[trigger] reads[i].1 == (ReadOutcome::Failed {
                io: true,
                would_block: true,
            }),
    ensures
        after_closings(peers, reads) == (peers, Seq::<(SocketAddr, ServerMessage)>::empty()),
        after_heys(peers, reads) == (peers, Seq::<(SocketAddr, ServerMessage)>::empty()),
    decreases reads.len(),
{
    if reads.len() != 0 {
        let init = reads.drop_last();
        assert forall|i: int| 0 <= i < init.len() implies #[trigger] init[i].1 == (
        ReadOutcome::Failed { io: true, would_block: true }) by {
            assert(reads[i].1 == init[i].1);
        }
        law_silence_changes_nothing(peers, init);
        assert(reads[reads.len() - 1].1 == reads.last().1);
    }
}

/// Who is connected with audio: just those with an audio address, in order, each with that address
/// and its sample rate.
pub proof fn law_connected_are_those_with_audio<S>(
    peers: Seq<(SocketAddr, Peer<S>)>,
    conn: SocketAddr,
    peer: Peer<S>,
)
    ensures
        connected(Seq::<(SocketAddr, Peer<S>)>::empty()) == Seq::<
            (SocketAddr, (SocketAddr, u32)),
        >::empty(),
        peer.addr is None ==> connected(peers.push((conn, peer))) == connected(peers),
        peer.addr matches Some(audio) ==> (peer.sample_rate matches Some(rate) ==> connected(
            peers.push((conn, peer)),
        ) == connected(peers).push((conn, (audio, rate)))),
{
    reveal(Seq::filter);
    let n = peers.len() as int;
    let all = peers.push((conn, peer));
    assert(connected(Seq::<(SocketAddr, Peer<S>)>::empty()) =~= Seq::empty());
    lemma_connected_step(all, n);
    assert(all.take(n + 1) =~= all);
    assert(all.take(n) =~= peers);
}

/// Who is told what about a newcomer: the newcomer the audio address and the sample rate of every
/// member, and every member those of the newcomer, one after another.
pub proof fn law_connections_name_everybody(
    members: Seq<(SocketAddr, (SocketAddr, u32))>,
    source: SocketAddr,
    audio: SocketAddr,
    sample_rate: u32,
    m: int,
)
    ensures
        connections(members, source, audio, sample_rate).len() == 2 * members.len(),
        0 <= m < members.len() ==> connections(members, source, audio, sample_rate)[2 * m] == (
            source,
            ServerMessage::Connected { addr: members[m].1.0, sample_rate: members[m].1.1 },
        ) && connections(members, source, audio, sample_rate)[2 * m + 1] == (
            members[m].0,
            ServerMessage::Connected { addr: audio, sample_rate },
        ),
{
}

/// Who is told what when a connection is closed: where its peer had an audio address, everybody else
/// who is connected with audio is told that address; otherwise nobody is told anything.
pub proof fn law_closing_is_told_to_those_with_audio<S>(
    peers: Seq<(SocketAddr, Peer<S>)>,
    conn: SocketAddr,
    i: int,
    m: int,
)
    requires
        peers_wf(peers),
    ensures
        (forall|k: int| 0 <= k < peers.len() ==> (#[trigger] peers[k]).0 != conn) ==> close_messages(
            peers,
            conn,
        ) == Seq::<(SocketAddr, ServerMessage)>::empty(),
        0 <= i < peers.len() && peers[i].0 == conn && peers[i].1.addr is None ==> close_messages(
            peers,
            conn,
        ) == Seq::<(SocketAddr, ServerMessage)>::empty(),
        0 <= i < peers.len() && peers[i].0 == conn ==> (peers[i].1.addr matches Some(audio) ==> {
            let others = connected(peers.remove(i));
            &&& close_messages(peers, conn).len() == others.len()
            &&& 0 <= m < others.len() ==> close_messages(peers, conn)[m] == (
                others[m].0,
                ServerMessage::Disconnected { addr: audio },
            )
        }),
{
    table::law_lookup_finds_the_entry(peers, conn, i);
    table::law_leaving_out_removes_one_entry(peers, conn, i);
}

/// What a hey stores: the peer that said it gets its own host, at the port that it named, and the
/// sample rate that it named. Its stream stays, and so does everybody else.
pub proof fn law_hey_stores_port_and_rate<S>(
    peers: Seq<(SocketAddr, Peer<S>)>,
    source: SocketAddr,
    port: u16,
    sample_rate: u32,
    i: int,
)
    requires
        0 <= i < peers.len(),
    ensures
        ({
            let after = after_hey(peers, source, port, sample_rate);
            &&& after.len() == peers.len()
            &&& after[i].0 == peers[i].0
            &&& after[i].1.stream == peers[i].1.stream
            &&& peers[i].0 != source ==> after[i] == peers[i]
            &&& peers[i].0 == source ==> after[i].1.sample_rate == Some(sample_rate)
            &&& peers[i].0 == source && source is V4 ==> after[i].1.addr == Some(
                SocketAddr::V4 { ip: source->V4_ip, port },
            )
            &&& peers[i].0 == source && source is V6 ==> after[i].1.addr == Some(
                SocketAddr::V6 {
                    ip: source->V6_ip,
                    port,
                    flowinfo: source->flowinfo,
                    scope_id: source->scope_id,
                },
            )
        }),
{
}

/// One more read does what it calls for, after all before it. Only a failure closes the connection,
/// and not where it is that nothing was there; only a hey connects a peer.
pub proof fn law_one_more_read<S>(
    peers: Seq<(SocketAddr, Peer<S>)>,
    reads: Seq<(SocketAddr, ReadOutcome)>,
    conn: SocketAddr,
    outcome: ReadOutcome,
)
    ensures
        after_closings(peers, Seq::empty()) == (
            peers,
            Seq::<(SocketAddr, ServerMessage)>::empty(),
        ),
        after_heys(peers, Seq::empty()) == (peers, Seq::<(SocketAddr, ServerMessage)>::empty()),
        ({
            let (rest, messages) = after_closings(peers, reads);
            let (after, sent) = after_closings(peers, reads.push((conn, outcome)));
            match outcome {
                ReadOutcome::Message(_) => after == rest && sent == messages,
                ReadOutcome::Failed { io, would_block } => if io && would_block {
                    after == rest && sent == messages
                } else {
                    after == table::without_key(rest, conn) && sent == messages + close_messages(
                        rest,
                        conn,
                    )
                },
            }
        }),
        ({
            let (rest, messages) = after_heys(peers, reads);
            let (after, sent) = after_heys(peers, reads.push((conn, outcome)));
            match outcome {
                ReadOutcome::Message(ClientMessage::Hey { port, sample_rate, .. }) => {
                    &&& after == after_hey(rest, conn, port, sample_rate)
                    &&& sent == messages + connections(
                        connected(rest),
                        conn,
                        conn.with_port(port),
                        sample_rate,
                    )
                },
                _ => after == rest && sent == messages,
            }
        }),
{
    assert(reads.push((conn, outcome)).drop_last() =~= reads);
}

/// A message is sent if and only if its addressee is still there, and the messages keep their order.
pub proof fn law_messages_go_to_those_who_are_there<S>(
    messages: Seq<(SocketAddr, ServerMessage)>,
    message: (SocketAddr, ServerMessage),
    peers: Seq<(SocketAddr, Peer<S>)>,
)
    ensures
        deliverable(Seq::empty(), peers) == Seq::<(SocketAddr, ServerMessage)>::empty(),
        deliverable(messages.push(message), peers) == if exists|k: int|
            0 <= k < peers.len() && (#[trigger] peers[k]).0 == message.0 {
            deliverable(messages, peers).push(message)
        } else {
            deliverable(messages, peers)
        },
{
    reveal(Seq::filter);
    assert(messages.push(message).drop_last() =~= messages);
}

/// A peer after the closings of a round: gone where one of the reads from it failed for another
/// reason than that nothing was there, and otherwise as it was.
proof fn lemma_closings_entry<S>(
    peers: Seq<(SocketAddr, Peer<S>)>,
    reads: Seq<(SocketAddr, ReadOutcome)>,
    conn: SocketAddr,
)
    requires
        table::keys_distinct(peers),
    ensures
        table::keys_distinct(after_closings(peers, reads).0),
        table::lookup(after_closings(peers, reads).0, conn) == if exists|j: int|
            0 <= j < reads.len() && #[trigger] reads[j].0 == conn && (
            reads[j].1 matches ReadOutcome::Failed { io, would_block } && !(io && would_block)) {
            None
        } else {
            table::lookup(peers, conn)
        },
    decreases reads.len(),
{
    if reads.len() > 0 {
        let init = reads.drop_last();
        lemma_closings_entry(peers, init, conn);
        let rest = after_closings(peers, init).0;
        let last = reads.len() - 1;
        assert forall|j: int| 0 <= j < last implies #[trigger] init[j] == reads[j] by {}
        if is_closing(reads[last].1) {
            let key = reads[last].0;
            table::lemma_without_key(rest, key);
            let after = table::without_key(rest, key);
            if key == conn {
                assert(reads[last].0 == conn);
            } else {
                assert(table::has_key(after, conn) <==> table::has_key(rest, conn));
                if table::has_key(rest, conn) {
                    assert(table::map_of(after).contains_key(conn));
                    assert(table::map_of(after)[conn] == table::map_of(rest)[conn]);
                }
            }
        }
        if exists|j: int|
            0 <= j < init.len() && #[trigger] init[j].0 == conn && (
            init[j].1 matches ReadOutcome::Failed { io, would_block } && !(io && would_block)) {
            let j = choose|j: int|
                0 <= j < init.len() && #[trigger] init[j].0 == conn && (
                init[j].1 matches ReadOutcome::Failed { io, would_block } && !(io && would_block));
            assert(reads[j].0 == conn);
        }
        if exists|j: int|
            0 <= j < reads.len() && #[trigger] reads[j].0 == conn && (
            reads[j].1 matches ReadOutcome::Failed { io, would_block } && !(io && would_block)) {
            let j = choose|j: int|
                0 <= j < reads.len() && #[trigger] reads[j].0 == conn && (
                reads[j].1 matches ReadOutcome::Failed { io, would_block } && !(io && would_block));
            if j < last {
                assert(init[j].0 == conn);
            }
        }
    }
}

/// A peer after a hey.
proof fn lemma_hey_entry<S>(
    peers: Seq<(SocketAddr, Peer<S>)>,
    source: SocketAddr,
    port: u16,
    sample_rate: u32,
    conn: SocketAddr,
)
    requires
        table::keys_distinct(peers),
    ensures
        table::keys_distinct(after_hey(peers, source, port, sample_rate)),
        table::lookup(after_hey(peers, source, port, sample_rate), conn) == match table::lookup(
            peers,
            conn,
        ) {
            Some(peer) => Some(
                if conn == source {
                    Peer {
                        addr: Some(source.with_port(port)),
                        sample_rate: Some(sample_rate),
                        stream: peer.stream,
                    }
                } else {
                    peer
                },
            ),
            None => None,
        },
{
    let after = after_hey(peers, source, port, sample_rate);
    assert forall|i: int, j: int| 0 <= i < j < after.len() implies #[trigger] after[i].0
        != #[trigger] after[j].0 by {
        assert(peers[i].0 != peers[j].0);
    }
    if table::has_key(peers, conn) {
        let i = choose|i: int| 0 <= i < peers.len() && #[trigger] peers[i].0 == conn;
        assert(after[i].0 == conn);
        table::lemma_lookup(peers, i);
        table::lemma_lookup(after, i);
    } else if table::has_key(after, conn) {
        let i = choose|i: int| 0 <= i < after.len() && #[trigger] after[i].0 == conn;
        assert(peers[i].0 == conn);
    }
}

/// A peer after the heys of a round: there if and only if it was, with its stream; as it was where no
/// read from it was a message; and with the values of its hey where that was the one read from it.
proof fn lemma_heys_entry<S>(
    peers: Seq<(SocketAddr, Peer<S>)>,
    reads: Seq<(SocketAddr, ReadOutcome)>,
    conn: SocketAddr,
)
    requires
        table::keys_distinct(peers),
    ensures
        ({
            let after = after_heys(peers, reads).0;
            &&& table::keys_distinct(after)
            &&& table::lookup(after, conn) is Some <==> table::lookup(peers, conn) is Some
            &&& table::lookup(peers, conn) is Some ==> table::lookup(after, conn)->0.stream
                == table::lookup(peers, conn)->0.stream
            &&& (forall|j: int|
                0 <= j < reads.len() && #[trigger] reads[j].0 == conn ==> !(reads[j].1 is Message))
                ==> table::lookup(after, conn) == table::lookup(peers, conn)
            &&& forall|j: int|
                0 <= j < reads.len() && #[trigger] reads[j].0 == conn && reads[j].1 is Message && (
                forall|k: int|
                    0 <= k < reads.len() && k != j ==> #[trigger] reads[k].0 != conn)
                    && table::lookup(peers, conn) is Some ==> (
                reads[j].1->0 matches ClientMessage::Hey { name: _, port, sample_rate } ==> {
                    &&& table::lookup(after, conn)->0.addr == Some(conn.with_port(port))
                    &&& table::lookup(after, conn)->0.sample_rate == Some(sample_rate)
                })
        }),
    decreases reads.len(),
{
    let after = after_heys(peers, reads).0;
    if reads.len() > 0 {
        let init = reads.drop_last();
        let last = reads.len() - 1;
        lemma_heys_entry(peers, init, conn);
        let rest = after_heys(peers, init).0;
        assert forall|j: int| 0 <= j < last implies #[trigger] init[j] == reads[j] by {}
        if let ReadOutcome::Message(ClientMessage::Hey { port, sample_rate, .. }) = reads[last].1 {
            lemma_hey_entry(rest, reads[last].0, port, sample_rate, conn);
        }
        assert forall|j: int|
            0 <= j < reads.len() && #[trigger] reads[j].0 == conn && reads[j].1 is Message && (
            forall|k: int| 0 <= k < reads.len() && k != j ==> #[trigger] reads[k].0 != conn)
                && table::lookup(peers, conn) is Some implies (
        reads[j].1->0 matches ClientMessage::Hey { name: _, port, sample_rate } ==> {
            &&& table::lookup(after, conn)->0.addr == Some(conn.with_port(port))
            &&& table::lookup(after, conn)->0.sample_rate == Some(sample_rate)
        }) by {
            if j < last {
                assert(init[j].0 == conn);
                assert(reads[last].0 != conn);
                assert forall|k: int| 0 <= k < init.len() && k != j implies #[trigger] init[k].0
                    != conn by {
                    assert(reads[k].0 != conn);
                }
            }
        }
        if forall|j: int|
            0 <= j < reads.len() && #[trigger] reads[j].0 == conn ==> !(reads[j].1 is Message) {
            assert forall|j: int| 0 <= j < init.len() && #[trigger] init[j].0 == conn implies !(
            init[j].1 is Message) by {
                assert(reads[j].0 == conn);
            }
            assert(reads[last].0 == conn ==> !(reads[last].1 is Message));
        }
    }
}

/// What a round of reads makes of a peer. It is gone if and only if a read from it failed for another
/// reason than that nothing was there: a message ends no connection. Where no read from it was a
/// message, it is as it was. Where the one read from it was a hey, it is connected with audio at its
/// own host, at the port and with the sample rate that it named. Nobody else comes in.
pub proof fn law_round_keeps_whoever_can_be_read<S>(
    peers: Seq<(SocketAddr, Peer<S>)>,
    reads: Seq<(SocketAddr, ReadOutcome)>,
    conn: SocketAddr,
    i: int,
    j: int,
)
    requires
        table::keys_distinct(peers),
    ensures
        ({
            let after = after_heys(after_closings(peers, reads).0, reads).0;
            let lost = exists|l: int|
                0 <= l < reads.len() && #[trigger] reads[l].0 == conn && (
                reads[l].1 matches ReadOutcome::Failed { io, would_block } && !(io && would_block));
            &&& lost ==> forall|k: int| 0 <= k < after.len() ==> (#[trigger] after[k]).0 != conn
            &&& (forall|k: int| 0 <= k < peers.len() ==> (#[trigger] peers[k]).0 != conn) ==> forall|
                k: int,
            |
                0 <= k < after.len() ==> (#[trigger] after[k]).0 != conn
            &&& 0 <= i < peers.len() && peers[i].0 == conn && !lost ==> exists|k: int|
                0 <= k < after.len() && (#[trigger] after[k]).0 == conn && after[k].1.stream
                    == peers[i].1.stream
            &&& 0 <= i < peers.len() && peers[i].0 == conn && !lost && (forall|l: int|
                0 <= l < reads.len() && #[trigger] reads[l].0 == conn ==> !(reads[l].1 is Message))
                ==> exists|k: int| 0 <= k < after.len() && (#[trigger] after[k]) == peers[i]
            &&& 0 <= i < peers.len() && peers[i].0 == conn && 0 <= j < reads.len() && reads[j].0
                == conn && (forall|l: int|
                0 <= l < reads.len() && l != j ==> #[trigger] reads[l].0 != conn)
                && reads[j].1 is Message ==> (
            reads[j].1->0 matches ClientMessage::Hey { name: _, port, sample_rate } ==> exists|
                k: int,
            |
                0 <= k < after.len() && (#[trigger] after[k]).0 == conn && after[k].1.stream
                    == peers[i].1.stream && after[k].1.sample_rate == Some(sample_rate)
                    && after[k].1.addr == Some(
                    match conn {
                        SocketAddr::V4 { ip, .. } => SocketAddr::V4 { ip, port },
                        SocketAddr::V6 { ip, flowinfo, scope_id, .. } => SocketAddr::V6 {
                            ip,
                            port,
                            flowinfo,
                            scope_id,
                        },
                    },
                ))
        }),
{
    let rest = after_closings(peers, reads).0;
    let after = after_heys(rest, reads).0;
    lemma_closings_entry(peers, reads, conn);
    lemma_heys_entry(rest, reads, conn);
    table::law_lookup_finds_the_entry(peers, conn, i);
    if table::has_key(after, conn) {
        let k = choose|k: int| 0 <= k < after.len() && #[trigger] after[k].0 == conn;
        table::lemma_lookup(after, k);
    }
    if 0 <= j < reads.len() && reads[j].0 == conn && reads[j].1 is Message && (forall|l: int|
        0 <= l < reads.len() && l != j ==> #[trigger] reads[l].0 != conn) {
        assert forall|l: int| 0 <= l < reads.len() && #[trigger] reads[l].0 == conn implies l == j by {
        }
    }
}

/// Where every addressee is there, every message is sent.
proof fn lemma_all_deliverable<S>(
    messages: Seq<(SocketAddr, ServerMessage)>,
    peers: Seq<(SocketAddr, Peer<S>)>,
)
    requires
        forall|m: int|
            0 <= m < messages.len() ==> table::has_key(peers, (#[trigger] messages[m]).0),
    ensures
        deliverable(messages, peers) == messages,
    decreases messages.len(),
{
    reveal(Seq::filter);
    if messages.len() > 0 {
        let init = messages.drop_last();
        assert forall|m: int| 0 <= m < init.len() implies table::has_key(
            peers,
            (#[trigger] init[m]).0,
        ) by {
            assert(messages[m] == init[m]);
        }
        lemma_all_deliverable(init, peers);
        assert(table::has_key(peers, messages[messages.len() - 1].0));
        assert(init.push(messages.last()) =~= messages);
    } else {
        assert(deliverable(messages, peers) =~= messages);
    }
}

/// A round with one hey introduces its sender to everybody who is connected with audio, and nobody
/// else hears anything: the sender, at `s`, is told the audio address and the sample rate of the peer
/// at `p`, and that peer is told those of the sender. There are two messages for each of them.
#[verifier::rlimit(80)]
#[verifier::spinoff_prover]
pub proof fn law_hey_introduces_everybody<S>(
    peers: Seq<(SocketAddr, Peer<S>)>,
    s: int,
    name: String,
    port: u16,
    sample_rate: u32,
    p: int,
    m: int,
)
    requires
        peers_wf(peers),
        0 <= s < peers.len(),
        peers[s].1.addr is None,
        0 <= p < peers.len(),
    ensures
        ({
            let source = peers[s].0;
            let reads = seq![
                (source, ReadOutcome::Message(ClientMessage::Hey { name, port, sample_rate })),
            ];
            let (remaining, closing) = after_closings(peers, reads);
            let (after, connecting) = after_heys(remaining, reads);
            let sent = deliverable(closing + connecting, after);
            let audio = match source {
                SocketAddr::V4 { ip, .. } => SocketAddr::V4 { ip, port },
                SocketAddr::V6 { ip, flowinfo, scope_id, .. } => SocketAddr::V6 {
                    ip,
                    port,
                    flowinfo,
                    scope_id,
                },
            };
            &&& peers[p].1.addr matches Some(theirs) ==> {
                &&& sent.contains(
                    (
                        source,
                        ServerMessage::Connected {
                            addr: theirs,
                            sample_rate: peers[p].1.sample_rate->0,
                        },
                    ),
                )
                &&& sent.contains(
                    (peers[p].0, ServerMessage::Connected { addr: audio, sample_rate }),
                )
            }
            &&& sent.len() == 2 * connected(peers).len()
            &&& 0 <= m < sent.len() ==> sent[m].1 is Connected && (sent[m].0 == source || exists|
                k: int,
            |
                0 <= k < peers.len() && (#[trigger] peers[k]).0 == sent[m].0
                    && peers[k].1.addr is Some)
            &&& after == peers.update(
                s,
                (
                    source,
                    Peer {
                        addr: Some(audio),
                        sample_rate: Some(sample_rate),
                        stream: peers[s].1.stream,
                    },
                ),
            )
        }),
{
    let source = peers[s].0;
    let outcome = ReadOutcome::Message(ClientMessage::Hey { name, port, sample_rate });
    let reads = seq![(source, outcome)];
    let none = Seq::<(SocketAddr, ReadOutcome)>::empty();
    assert(reads =~= none.push((source, outcome)));
    law_one_more_read(peers, none, source, outcome);
    let (remaining, closing) = after_closings(peers, reads);
    let (after, connecting) = after_heys(remaining, reads);
    let members = connected(peers);
    assert(closing + connecting =~= connections(
        members,
        source,
        source.with_port(port),
        sample_rate,
    ));
    let all = closing + connecting;
    lemma_connected(peers);
    assert forall|k: int| 0 <= k < all.len() implies table::has_key(after, (#[trigger] all[k]).0)
        && all[k].1 is Connected && (all[k].0 == source || exists|q: int|
        0 <= q < peers.len() && (#[trigger] peers[q]).0 == all[k].0 && peers[q].1.addr is Some) by {
        assert(after[s].0 == source);
        if k % 2 == 1 {
            let member = members[k / 2];
            assert(table::has_key(members, member.0));
            let q = choose|q: int|
                0 <= q < peers.len() && peers[q].0 == member.0 && #[trigger] peers[q].1.addr
                    is Some;
            assert(after[q].0 == member.0);
            assert(peers[q].0 == all[k].0);
        }
    }
    lemma_all_deliverable(all, after);
    if peers[p].1.addr is Some {
        lemma_connected_at(peers, p);
        let k = choose|k: int| 0 <= k < members.len() && #[trigger] members[k].0 == peers[p].0;
        table::lemma_lookup(members, k);
        law_connections_name_everybody(
            members,
            source,
            source.with_port(port),
            sample_rate,
            k,
        );
        assert(members[k].1 == about(peers[p]).1);
        assert(all[2 * k].0 == source);
        assert(all[2 * k + 1].0 == peers[p].0);
    }
    assert(after =~= peers.update(s, after[s])) by {
        assert forall|q: int| 0 <= q < peers.len() && q != s implies #[trigger] after[q]
            == peers[q] by {
            assert(peers[q].0 != source);
        }
    }
}

/// A round with one lost connection tells everybody who is connected with audio, if its peer was: the
/// peer at `p` is told the audio address of the one at `s`, which is gone. Nobody else changes.
#[verifier::rlimit(80)]
#[verifier::spinoff_prover]
pub proof fn law_loss_is_told_to_everybody<S>(
    peers: Seq<(SocketAddr, Peer<S>)>,
    s: int,
    io: bool,
    p: int,
    m: int,
)
    requires
        peers_wf(peers),
        0 <= s < peers.len(),
        0 <= p < peers.len(),
        p != s,
    ensures
        ({
            let reads = seq![(peers[s].0, ReadOutcome::Failed { io, would_block: false })];
            let (remaining, closing) = after_closings(peers, reads);
            let (after, connecting) = after_heys(remaining, reads);
            let sent = deliverable(closing + connecting, after);
            &&& after == peers.remove(s)
            &&& peers[s].1.addr is None ==> sent.len() == 0
            &&& peers[s].1.addr matches Some(audio) ==> {
                &&& peers[p].1.addr is Some ==> sent.contains(
                    (peers[p].0, ServerMessage::Disconnected { addr: audio }),
                )
                &&& sent.len() == connected(peers.remove(s)).len()
                &&& 0 <= m < sent.len() ==> sent[m].1 == (ServerMessage::Disconnected {
                    addr: audio,
                }) && exists|k: int|
                    0 <= k < peers.len() && k != s && (#[trigger] peers[k]).0 == sent[m].0
                        && peers[k].1.addr is Some
            }
        }),
{
    let conn = peers[s].0;
    let outcome = ReadOutcome::Failed { io, would_block: false };
    let reads = seq![(conn, outcome)];
    let none = Seq::<(SocketAddr, ReadOutcome)>::empty();
    assert(reads =~= none.push((conn, outcome)));
    law_one_more_read(peers, none, conn, outcome);
    let rest = peers.remove(s);
    table::law_leaving_out_removes_one_entry(peers, conn, s);
    table::lemma_without_key(peers, conn);
    law_one_more_read(rest, none, conn, outcome);
    law_closing_is_told_to_those_with_audio(peers, conn, s, 0);
    let (remaining, closing) = after_closings(peers, reads);
    let (after, connecting) = after_heys(remaining, reads);
    let all = closing + connecting;
    assert(all =~= close_messages(peers, conn));
    let members = connected(rest);
    lemma_connected(rest);
    if peers[s].1.addr is Some {
        let audio = peers[s].1.addr->0;
        assert forall|k: int| 0 <= k < all.len() implies table::has_key(
            after,
            (#[trigger] all[k]).0,
        ) && all[k].1 == (ServerMessage::Disconnected { addr: audio }) && exists|q: int|
            0 <= q < peers.len() && q != s && (#[trigger] peers[q]).0 == all[k].0
                && peers[q].1.addr is Some by {
            law_closing_is_told_to_those_with_audio(peers, conn, s, k);
            assert(table::has_key(members, members[k].0));
            let q = choose|q: int|
                0 <= q < rest.len() && rest[q].0 == members[k].0 && #[trigger] rest[q].1.addr
                    is Some;
            let q0 = if q < s {
                q
            } else {
                q + 1
            };
            assert(peers[q0] == rest[q]);
            assert(peers[q0].0 == all[k].0);
            assert(after[q].0 == all[k].0);
        }
        lemma_all_deliverable(all, after);
        if peers[p].1.addr is Some {
            let p1 = if p < s {
                p
            } else {
                p - 1
            };
            assert(rest[p1] == peers[p]);
            assert(rest[p1].1.addr is Some);
            lemma_connected_at(rest, p1);
            let k = choose|k: int| 0 <= k < members.len() && #[trigger] members[k].0 == peers[p].0;
            law_closing_is_told_to_those_with_audio(peers, conn, s, k);
            assert(all[k] == (peers[p].0, ServerMessage::Disconnected { addr: audio }));
        }
    } else {
        lemma_all_deliverable(all, after);
    }
}

/// What a call of `tick` makes of a peer: it is gone if and only if a read from it failed for another
/// reason than that nothing was there, and where the one read from it was a hey, it is connected with
/// audio at its own host, at the port and with the sample rate that it named.
pub proof fn law_tick_keeps_whoever_can_be_read<S>(
    server: &mut SignalingServer<S>,
    reads: &Vec<(SocketAddr, ReadOutcome)>,
    messages: Vec<(SocketAddr, ServerMessage)>,
    i: int,
    j: int,
)
    requires
        call_ensures(SignalingServer::<S>::tick, (server, reads), messages),
        old(server).wf(),
        0 <= i < old(server).peers().len(),
    ensures
        ({
            let peer = old(server).peers()[i];
            let after = final(server).peers();
            let lost = exists|l: int|
                0 <= l < reads@.len() && #[trigger] reads@[l].0 == peer.0 && (
                reads@[l].1 matches ReadOutcome::Failed { io, would_block } && !(io
                    && would_block));
            &&& lost <==> forall|k: int|
                0 <= k < after.len() ==> (#[trigger] after[k]).0 != peer.0
            &&& 0 <= j < reads@.len() && reads@[j].0 == peer.0 && (forall|l: int|
                0 <= l < reads@.len() && l != j ==> #[trigger] reads@[l].0 != peer.0)
                && reads@[j].1 is Message ==> (
            reads@[j].1->0 matches ClientMessage::Hey { name: _, port, sample_rate } ==> exists|
                k: int,
            |
                0 <= k < after.len() && (#[trigger] after[k]).0 == peer.0
                    && after[k].1.sample_rate == Some(sample_rate) && after[k].1.addr == Some(
                    match peer.0 {
                        SocketAddr::V4 { ip, .. } => SocketAddr::V4 { ip, port },
                        SocketAddr::V6 { ip, flowinfo, scope_id, .. } => SocketAddr::V6 {
                            ip,
                            port,
                            flowinfo,
                            scope_id,
                        },
                    },
                ))
        }),
{
    law_round_keeps_whoever_can_be_read(
        old(server).peers(),
        reads@,
        old(server).peers()[i].0,
        i,
        j,
    );
}

/// What a call of `tick` returns for one hey: everybody who is connected with audio, such as the peer
/// that is the `p`-th, and the one that said it, the `s`-th, are told about each other.
pub proof fn law_tick_introduces_everybody<S>(
    server: &mut SignalingServer<S>,
    reads: &Vec<(SocketAddr, ReadOutcome)>,
    messages: Vec<(SocketAddr, ServerMessage)>,
    s: int,
    name: String,
    port: u16,
    sample_rate: u32,
    p: int,
)
    requires
        call_ensures(SignalingServer::<S>::tick, (server, reads), messages),
        old(server).wf(),
        0 <= s < old(server).peers().len(),
        0 <= p < old(server).peers().len(),
        old(server).peers()[s].1.addr is None,
        reads@ == seq![
            (
                old(server).peers()[s].0,
                ReadOutcome::Message(ClientMessage::Hey { name, port, sample_rate }),
            ),
        ],
    ensures
        ({
            let source = old(server).peers()[s].0;
            let other = old(server).peers()[p];
            let audio = match source {
                SocketAddr::V4 { ip, .. } => SocketAddr::V4 { ip, port },
                SocketAddr::V6 { ip, flowinfo, scope_id, .. } => SocketAddr::V6 {
                    ip,
                    port,
                    flowinfo,
                    scope_id,
                },
            };
            &&& final(server).peers().len() == old(server).peers().len()
            &&& final(server).peers()[s].1.addr == Some(audio)
            &&& final(server).peers()[s].1.sample_rate == Some(sample_rate)
            &&& other.1.addr matches Some(theirs) ==> {
                &&& messages@.contains(
                    (
                        source,
                        ServerMessage::Connected {
                            addr: theirs,
                            sample_rate: other.1.sample_rate->0,
                        },
                    ),
                )
                &&& messages@.contains(
                    (other.0, ServerMessage::Connected { addr: audio, sample_rate }),
                )
            }
        }),
{
    law_hey_introduces_everybody(old(server).peers(), s, name, port, sample_rate, p, 0);
}

/// The peers are as they should be just where no connection has two and where a sample rate goes with
/// every audio address.
pub proof fn law_rates_go_with_audio<S>(peers: Seq<(SocketAddr, Peer<S>)>)
    ensures
        peers_wf(peers) <==> (forall|i: int, j: int|
            0 <= i < peers.len() && 0 <= j < peers.len() && i != j ==> (#[trigger] peers[i]).0 != (
            #[trigger] peers[j]).0) && (forall|i: int|
            0 <= i < peers.len() ==> ((#[trigger] peers[i]).1.addr is Some
                <==> peers[i].1.sample_rate is Some)),
{
    table::law_distinct_keys(peers);
    if peers_wf(peers) {
        assert forall|i: int| 0 <= i < peers.len() implies ((#[trigger] peers[i]).1.addr is Some
            <==> peers[i].1.sample_rate is Some) by {
            assert(peers[i].1.addr is Some <==> peers[i].1.sample_rate is Some);
        }
    }
}

} // verus!
