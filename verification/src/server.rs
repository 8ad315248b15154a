//! The server that lets peers enter and tells them about one another.

use crate::addr;
use crate::addr::SocketAddr;
use crate::le;
use crate::messages::ClientMessage;
use crate::messages::ServerMessage;
use crate::roster;
use crate::roster::Notice;
use crate::table;
use crate::table::Table;
use std::collections::HashMap;
use vstd::prelude::*;
use vstd::set_lib::lemma_int_range;
use vstd::set_lib::lemma_map_size;
use vstd::set_lib::set_int_range;
use vstd::slice::slice_subrange;

verus! {

broadcast use vstd::std_specs::hash::group_hash_axioms;

/// The size of the buffer for messages of a client. No longer messages are expected.
pub const MESSAGE_CAPACITY: usize = 1024;

/// The size of a datagram that answers an audio address request.
pub const KEY_SIZE: usize = 8;

/// A present peer: where messages for it go, and what the others need to know about it.
pub struct PresentPeer<T> {
    pub tx: T,
    pub audio_addr: SocketAddr,
    pub sample_rate: u32,
}

/// For whom a message is that announces an entering peer.
#[derive(Clone, Copy, Debug, PartialEq, Eq)]
pub enum Recipient {
    /// The present peer whose connection is from this address.
    Present(SocketAddr),
    /// The entering peer.
    Newcomer,
}

/// What a read from the connection of a present peer gave.
#[derive(Clone, Copy, Debug, PartialEq, Eq, Structural)]
pub enum ReadOutcome {
    Bytes(usize),
    Failed,
}

/// The shared state of the server: the present peers, by the address of their connection, and
/// whoever waits for an audio address, by the key of the request.
pub struct State<T, W> {
    present_peers: Table<SocketAddr, PresentPeer<T>>,
    audio_addr_requests: HashMap<u64, W>,
}

/// Calls `rand::random` for an unsigned 64-bit number. It may be any such number.
#[verifier::external_body]
fn random_key() -> (key: u64) {
    rand::random()
}

/// How far the connection of a peer has come.
#[derive(Clone, Copy, Debug, PartialEq, Eq)]
pub enum Phase {
    /// The peer has to send a hey.
    AwaitHey,
    /// A key is to be found for the peer's audio address request.
    AwaitKey { sample_rate: u32 },
    /// The peer was asked for its audio address.
    AwaitAudioAddr { sample_rate: u32 },
    /// The peer was told that it entered.
    Confirmed { audio_addr: SocketAddr, sample_rate: u32 },
    /// The peer and those that are present are told about each other.
    Announcing { audio_addr: SocketAddr, sample_rate: u32 },
    /// The peer is present.
    Present { audio_addr: SocketAddr, sample_rate: u32 },
    /// The connection is over.
    Closed,
}

/// What happens on the connection of a peer.
#[derive(Clone, Copy, Debug, PartialEq, Eq)]
pub enum Event {
    /// The first message of the peer came.
    Message(ClientMessage),
    /// The audio address request was made, under this key.
    Requested { key: u64 },
    /// The audio address request was answered from this address.
    AudioAddr(SocketAddr),
    /// What was to be sent was sent, all of it if `ok`; otherwise something could not be sent.
    Sent { ok: bool },
    /// There is a message for the peer.
    Queued(ServerMessage),
    /// The connection was read.
    Read(ReadOutcome),
}

/// What is to be done on the connection of a peer.
#[derive(Clone, Copy, Debug, PartialEq, Eq)]
pub enum Action {
    /// Make an audio address request.
    Request,
    /// Send a message to the peer.
    Send(ServerMessage),
    /// Send the announcements.
    Announce { audio_addr: SocketAddr, sample_rate: u32 },
    /// Let the peer enter.
    Enter { audio_addr: SocketAddr, sample_rate: u32 },
    /// Nothing.
    Skip,
    /// Let the peer leave.
    Leave { audio_addr: SocketAddr },
    /// Give the connection up, because of what the peer sent.
    Refuse { reason: &'static str },
    /// Give the connection up, because something could not be sent.
    Abandon,
}

/// The events that a phase waits for.
pub open spec fn awaits(phase: Phase, event: Event) -> bool {
    match phase {
        Phase::AwaitHey => event is Message,
        Phase::AwaitKey { .. } => event is Requested,
        Phase::AwaitAudioAddr { .. } => event is AudioAddr || event is Sent,
        Phase::Confirmed { .. } => event is Sent,
        Phase::Announcing { .. } => event is Sent,
        Phase::Present { .. } => event is Queued || event is Read || event is Sent,
        Phase::Closed => false,
    }
}

/// The read shows that the connection is lost, or was closed by the peer.
pub open spec fn is_lost(outcome: ReadOutcome) -> bool {
    match outcome {
        ReadOutcome::Bytes(count) => count == 0,
        ReadOutcome::Failed => true,
    }
}

/// The phase after an event.
pub open spec fn next_phase(phase: Phase, event: Event) -> Phase {
    match (phase, event) {
        (Phase::AwaitHey, Event::Message(ClientMessage::Hey { sample_rate })) => Phase::AwaitKey {
            sample_rate,
        },
        (Phase::AwaitHey, _) => Phase::Closed,
        (Phase::AwaitKey { sample_rate }, _) => Phase::AwaitAudioAddr { sample_rate },
        (_, Event::Sent { ok }) => if !ok {
            Phase::Closed
        } else {
            match phase {
                Phase::Confirmed { audio_addr, sample_rate } => Phase::Announcing {
                    audio_addr,
                    sample_rate,
                },
                Phase::Announcing { audio_addr, sample_rate } => Phase::Present {
                    audio_addr,
                    sample_rate,
                },
                _ => phase,
            }
        },
        (Phase::AwaitAudioAddr { sample_rate }, Event::AudioAddr(audio_addr)) => Phase::Confirmed {
            audio_addr,
            sample_rate,
        },
        (Phase::Present { .. }, Event::Read(outcome)) => if is_lost(outcome) {
            Phase::Closed
        } else {
            phase
        },
        _ => phase,
    }
}

/// What an event calls for.
pub open spec fn action_for(phase: Phase, event: Event) -> Action {
    match (phase, event) {
        (Phase::AwaitHey, Event::Message(ClientMessage::Hey { .. })) => Action::Request,
        (Phase::AwaitHey, _) => Action::Refuse { reason: "expected hey first" },
        (Phase::AwaitKey { .. }, Event::Requested { key }) => Action::Send(
            ServerMessage::RequestAudioAddress { key },
        ),
        (_, Event::Sent { ok }) => if !ok {
            Action::Abandon
        } else {
            match phase {
                Phase::Confirmed { audio_addr, sample_rate } => Action::Announce {
                    audio_addr,
                    sample_rate,
                },
                Phase::Announcing { audio_addr, sample_rate } => Action::Enter {
                    audio_addr,
                    sample_rate,
                },
                _ => Action::Skip,
            }
        },
        (Phase::AwaitAudioAddr { .. }, Event::AudioAddr(_)) => Action::Send(
            ServerMessage::SuccessfullyEntered,
        ),
        (Phase::Present { .. }, Event::Queued(message)) => Action::Send(message),
        (Phase::Present { audio_addr, .. }, Event::Read(outcome)) => if is_lost(outcome) {
            Action::Leave { audio_addr }
        } else {
            Action::Skip
        },
        _ => Action::Skip,
    }
}

/// Takes the connection of a peer one step further: from its first message to the moment when it
/// is lost. A present peer is not expected to send anything more.
pub fn process(phase: &mut Phase, event: Event) -> (action: Action)
    requires
        awaits(*old(phase), event),
    ensures
        *final(phase) == next_phase(*old(phase), event),
        action == action_for(*old(phase), event),
{
    let current: Phase = *phase;
    match (current, event) {
        (Phase::AwaitHey, Event::Message(ClientMessage::Hey { sample_rate })) => {
            *phase = Phase::AwaitKey { sample_rate };
            Action::Request
        },
        (Phase::AwaitHey, _) => {
            *phase = Phase::Closed;
            Action::Refuse { reason: "expected hey first" }
        },
        (Phase::AwaitKey { sample_rate }, Event::Requested { key }) => {
            *phase = Phase::AwaitAudioAddr { sample_rate };
            Action::Send(ServerMessage::RequestAudioAddress { key })
        },
        (Phase::AwaitAudioAddr { sample_rate }, Event::AudioAddr(audio_addr)) => {
            *phase = Phase::Confirmed { audio_addr, sample_rate };
            Action::Send(ServerMessage::SuccessfullyEntered)
        },
        (Phase::Confirmed { audio_addr, sample_rate }, Event::Sent { ok: true }) => {
            *phase = Phase::Announcing { audio_addr, sample_rate };
            Action::Announce { audio_addr, sample_rate }
        },
        (Phase::Announcing { audio_addr, sample_rate }, Event::Sent { ok: true }) => {
            *phase = Phase::Present { audio_addr, sample_rate };
            Action::Enter { audio_addr, sample_rate }
        },
        (_, Event::Sent { ok: false }) => {
            *phase = Phase::Closed;
            Action::Abandon
        },
        (Phase::Present { .. }, Event::Queued(message)) => Action::Send(message),
        (Phase::Present { audio_addr, .. }, Event::Read(outcome)) => {
            let lost: bool = match outcome {
                ReadOutcome::Bytes(count) => count == 0,
                ReadOutcome::Failed => true,
            };
            if lost {
                *phase = Phase::Closed;
                Action::Leave { audio_addr }
            } else {
                Action::Skip
            }
        },
        _ => Action::Skip,
    }
}

/// What tells the present peers and an entering one about each other.
pub open spec fn announcements<T>(
    present: Seq<(SocketAddr, PresentPeer<T>)>,
    audio_addr: SocketAddr,
    sample_rate: u32,
) -> Seq<(Recipient, ServerMessage)> {
    Seq::new(
        2 * present.len(),
        |i: int|
            if i % 2 == 0 {
                (
                    Recipient::Present(present[i / 2].0),
                    ServerMessage::Entered { addr: audio_addr, sample_rate },
                )
            } else {
                (
                    Recipient::Newcomer,
                    ServerMessage::Entered {
                        addr: present[i / 2].1.audio_addr,
                        sample_rate: present[i / 2].1.sample_rate,
                    },
                )
            },
    )
}

/// What tells the remaining peers that one has left.
pub open spec fn farewells<T>(
    remaining: Seq<(SocketAddr, PresentPeer<T>)>,
    audio_addr: SocketAddr,
) -> Seq<(SocketAddr, ServerMessage)> {
    remaining.map_values(
        |entry: (SocketAddr, PresentPeer<T>)|
            (entry.0, ServerMessage::Left { addr: audio_addr }),
    )
}

/// The key that a datagram on the audio address service begins with. A shorter datagram has none.
pub open spec fn key_in(datagram: Seq<u8>) -> Option<u64> {
    if datagram.len() >= KEY_SIZE {
        Some(le::le_value(datagram.take(KEY_SIZE as int)) as u64)
    } else {
        None
    }
}

/// The `i`-th of `keys` is the first that no request has.
pub open spec fn is_first_free<W>(requests: Map<u64, W>, keys: Seq<u64>, i: int) -> bool {
    &&& 0 <= i < keys.len()
    &&& !requests.contains_key(keys[i])
    &&& forall|j: int| 0 <= j < i ==> requests.contains_key(#[trigger] keys[j])
}

/// Of `keys`, `key` is the first that no request has.
pub open spec fn first_free<W>(requests: Map<u64, W>, keys: Seq<u64>, key: u64) -> bool {
    exists|i: int| #[trigger] is_first_free(requests, keys, i) && keys[i] == key
}

/// There are more keys than a table can hold.
proof fn lemma_some_key_is_free<W>(requests: &HashMap<u64, W>)
    ensures
        exists|key: u64| !#[trigger] requests@.contains_key(key),
{
    if forall|key: u64| #[trigger] requests@.contains_key(key) {
        let taken = requests@.dom();
        let numbers = set_int_range(0, u64::MAX + 1);
        assert(requests.len() == taken.len());
        lemma_int_range(0, u64::MAX + 1);
        let value = |key: u64| key as int;
        assert(taken.map(value) =~= numbers) by {
            assert forall|n: int| numbers.contains(n) implies taken.map(value).contains(n) by {
                assert(taken.contains(n as u64) && value(n as u64) == n);
            }
        }
        lemma_map_size(taken, numbers, value);
    }
}

impl<T, W> State<T, W> {
    /// The present peers, by the address of their connection, in the order in which they entered.
    pub closed spec fn present(&self) -> Seq<(SocketAddr, PresentPeer<T>)> {
        self.present_peers.entries()
    }

    /// Whoever waits for an audio address, by the key of the request.
    pub closed spec fn requests(&self) -> Map<u64, W> {
        self.audio_addr_requests@
    }

    /// No connection has two peers.
    pub open spec fn wf(&self) -> bool {
        table::keys_distinct(self.present())
    }

    /// Nobody is present, and nobody waits.
    pub fn new() -> (state: Self)
        ensures
            state.wf(),
            state.present() == Seq::<(SocketAddr, PresentPeer<T>)>::empty(),
            state.requests() == Map::<u64, W>::empty(),
    {
        State { present_peers: Table::new(), audio_addr_requests: HashMap::new() }
    }

    /// Makes an audio address request under `key`, where no other has that key. Otherwise `waiter`
    /// comes back.
    pub fn insert_request(&mut self, key: u64, waiter: W) -> (result: Result<(), W>)
        ensures
            final(self).present() == old(self).present(),
            match result {
                Ok(()) => !old(self).requests().contains_key(key) && final(self).requests() == old(self).requests().insert(key, waiter),
                Err(w) => old(self).requests().contains_key(key) && w == waiter
                    && final(self).requests() == old(self).requests(),
            },
    {
        if self.audio_addr_requests.contains_key(&key) {
            Err(waiter)
        } else {
            self.audio_addr_requests.insert(key, waiter);
            Ok(())
        }
    }

    /// Makes an audio address request under the first of `keys` that no other request has, and
    /// returns that key. Where all of them are taken, `waiter` comes back.
    pub fn request_with_keys(&mut self, keys: &Vec<u64>, waiter: W) -> (result: Result<u64, W>)
        ensures
            final(self).present() == old(self).present(),
            match result {
                Ok(key) => {
                    &&& first_free(old(self).requests(), keys@, key)
                    &&& final(self).requests() == old(self).requests().insert(key, waiter)
                },
                Err(w) => {
                    &&& forall|i: int|
                        0 <= i < keys@.len() ==> old(self).requests().contains_key(
                            #[trigger] keys@[i],
                        )
                    &&& w == waiter
                    &&& final(self).requests() == old(self).requests()
                },
            },
    {
        let mut pending: W = waiter;
        let mut i: usize = 0;
        while i < keys.len()
            invariant
                self.present() == old(self).present(),
                self.requests() == old(self).requests(),
                pending == waiter,
                i <= keys@.len(),
                forall|j: int|
                    0 <= j < i ==> old(self).requests().contains_key(#[trigger] keys@[j]),
            decreases keys@.len() - i,
        {
            let key: u64 = keys[i];
            match self.insert_request(key, pending) {
                Ok(()) => {
                    assert(is_first_free(old(self).requests(), keys@, i as int));
                    return Ok(key);
                },
                Err(w) => {
                    pending = w;
                },
            }
            i = i + 1;
        }
        Err(pending)
    }

    /// Makes an audio address request under a key that no other request has, and returns the key.
    /// Keys are drawn at random until one is free. Should `u64::MAX` draws not find one, the lowest
    /// free key is taken; there always is one, since no table holds all keys.
    pub fn request_audio_address(&mut self, waiter: W) -> (key: u64)
        ensures
            final(self).present() == old(self).present(),
            !old(self).requests().contains_key(key),
            final(self).requests() == old(self).requests().insert(key, waiter),
    {
        let mut pending: W = waiter;
        let mut draws: u64 = u64::MAX;
        while draws > 0
            invariant
                self.present() == old(self).present(),
                self.requests() == old(self).requests(),
                pending == waiter,
            decreases draws,
        {
            let drawn: Vec<u64> = vec![random_key()];
            match self.request_with_keys(&drawn, pending) {
                Ok(key) => {
                    return key;
                },
                Err(w) => {
                    pending = w;
                },
            }
            draws = draws - 1;
        }
        let key: u64 = self.lowest_free_key();
        self.audio_addr_requests.insert(key, pending);
        key
    }

    /// The lowest key that no request has.
    fn lowest_free_key(&self) -> (key: u64)
        ensures
            !self.requests().contains_key(key),
            forall|k: u64| k < key ==> self.requests().contains_key(k),
    {
        let mut key: u64 = 0;
        while self.audio_addr_requests.contains_key(&key)
            invariant
                forall|k: u64| k < key ==> self.requests().contains_key(k),
            decreases u64::MAX - key,
        {
            proof {
                lemma_some_key_is_free(&self.audio_addr_requests);
                let free = choose|k: u64| !#[trigger] self.requests().contains_key(k);
                assert(free > key);
            }
            key = key + 1;
        }
        key
    }

    /// Handles a datagram on the audio address service: where it begins with the key of a request,
    /// returns whoever waits for the address that it came from. What is behind the key is not looked
    /// at. Every request is answered once.
    pub fn take_request(&mut self, datagram: &[u8]) -> (waiter: Option<W>)
        ensures
            final(self).present() == old(self).present(),
            match key_in(datagram@) {
                Some(key) => if old(self).requests().contains_key(key) {
                    &&& waiter == Some(old(self).requests()[key])
                    &&& final(self).requests() == old(self).requests().remove(key)
                } else {
                    &&& waiter is None
                    &&& final(self).requests() == old(self).requests()
                },
                None => {
                    &&& waiter is None
                    &&& final(self).requests() == old(self).requests()
                },
            },
    {
        if datagram.len() < KEY_SIZE {
            return None;
        }
        let head: &[u8] = slice_subrange(datagram, 0, KEY_SIZE);
        let value: u128 = le::decode_le(head);
        proof {
            assert(head@ =~= datagram@.take(KEY_SIZE as int));
            le::lemma_le_value_bound(head@);
            le::lemma_widths();
        }
        let key: u64 = value as u64;
        let waiter: Option<W> = self.audio_addr_requests.remove(&key);
        assert(waiter is None ==> self.requests() =~= old(self).requests());
        waiter
    }

    /// The messages that tell the present peers and an entering one about each other. They are to
    /// be sent in order, and the peer enters when all were sent.
    pub fn announce(&self, audio_addr: SocketAddr, sample_rate: u32) -> (messages: Vec<
        (Recipient, ServerMessage),
    >)
        ensures
            messages@ == announcements(self.present(), audio_addr, sample_rate),
    {
        let mut messages: Vec<(Recipient, ServerMessage)> = Vec::new();
        let mut i: usize = 0;
        while i < self.present_peers.len()
            invariant
                i <= self.present().len(),
                messages@.len() == 2 * i,
                forall|j: int|
                    0 <= j < 2 * i ==> #[trigger] messages@[j] == announcements(
                        self.present(),
                        audio_addr,
                        sample_rate,
                    )[j],
            decreases self.present().len() - i,
        {
            let peer: &PresentPeer<T> = self.present_peers.value_at(i);
            messages.push(
                (
                    Recipient::Present(self.present_peers.key_at(i)),
                    ServerMessage::Entered { addr: audio_addr, sample_rate },
                ),
            );
            messages.push(
                (
                    Recipient::Newcomer,
                    ServerMessage::Entered {
                        addr: peer.audio_addr,
                        sample_rate: peer.sample_rate,
                    },
                ),
            );
            i = i + 1;
        }
        assert(messages@ =~= announcements(self.present(), audio_addr, sample_rate));
        messages
    }

    /// Stores a newly entered peer.
    pub fn enter(&mut self, addr: SocketAddr, tx: T, audio_addr: SocketAddr, sample_rate: u32)
        requires
            old(self).wf(),
        ensures
            final(self).wf(),
            final(self).present() == table::with_entry(
                old(self).present(),
                addr,
                PresentPeer { tx, audio_addr, sample_rate },
            ),
            final(self).requests() == old(self).requests(),
    {
        proof {
            addr::lemma_addr_eq();
        }
        self.present_peers.insert(addr, PresentPeer { tx, audio_addr, sample_rate });
    }

    /// Removes a peer, and returns the messages that tell the remaining peers about it.
    pub fn leave(&mut self, addr: &SocketAddr, audio_addr: SocketAddr) -> (messages: Vec<
        (SocketAddr, ServerMessage),
    >)
        requires
            old(self).wf(),
        ensures
            final(self).wf(),
            final(self).present() == table::without_key(old(self).present(), *addr),
            final(self).requests() == old(self).requests(),
            messages@ == farewells(final(self).present(), audio_addr),
    {
        proof {
            addr::lemma_addr_eq();
        }
        let _ = self.present_peers.remove(addr);
        let mut messages: Vec<(SocketAddr, ServerMessage)> = Vec::new();
        let mut i: usize = 0;
        while i < self.present_peers.len()
            invariant
                self.wf(),
                self.present() == table::without_key(old(self).present(), *addr),
                self.requests() == old(self).requests(),
                i <= self.present().len(),
                messages@ =~= farewells(self.present(), audio_addr).take(i as int),
            decreases self.present().len() - i,
        {
            messages.push(
                (self.present_peers.key_at(i), ServerMessage::Left { addr: audio_addr }),
            );
            i = i + 1;
        }
        messages
    }

    /// Takes the connection from `conn` one step further, and does what the step calls for in the
    /// table of present peers: an entering peer is stored, with `tx`, and a leaving one is removed.
    /// Returns the action, and the messages that tell the remaining peers about one that left.
    pub fn advance(
        &mut self,
        conn: SocketAddr,
        phase: &mut Phase,
        event: Event,
        tx: Option<T>,
    ) -> (step: (Action, Vec<(SocketAddr, ServerMessage)>))
        requires
            old(self).wf(),
            awaits(*old(phase), event),
            action_for(*old(phase), event) is Enter ==> tx is Some,
        ensures
            final(self).wf(),
            *final(phase) == next_phase(*old(phase), event),
            step.0 == action_for(*old(phase), event),
            final(self).present() == acted(old(self).present(), conn, step.0, tx),
            final(self).requests() == old(self).requests(),
            step.1@ == match step.0 {
                Action::Leave { audio_addr } => farewells(final(self).present(), audio_addr),
                _ => Seq::empty(),
            },
    {
        let action: Action = process(phase, event);
        let mut messages: Vec<(SocketAddr, ServerMessage)> = Vec::new();
        match action {
            Action::Enter { audio_addr, sample_rate } => {
                if let Some(tx) = tx {
                    self.enter(conn, tx, audio_addr, sample_rate);
                }
            },
            Action::Leave { audio_addr } => {
                messages = self.leave(&conn, audio_addr);
            },
            _ => {},
        }
        (action, messages)
    }

    /// Where messages for a present peer go.
    pub fn tx(&self, addr: &SocketAddr) -> (tx: Option<&T>)
        requires
            self.wf(),
        ensures
            match tx {
                Some(tx) => table::lookup(self.present(), *addr) matches Some(peer) && peer.tx
                    == *tx,
                None => table::lookup(self.present(), *addr) is None,
            },
    {
        proof {
            addr::lemma_addr_eq();
        }
        match self.present_peers.get(addr) {
            Some(peer) => Some(&peer.tx),
            None => None,
        }
    }
}

/// The present peers when the action on the connection `conn` is done.
pub open spec fn acted<T>(
    present: Seq<(SocketAddr, PresentPeer<T>)>,
    conn: SocketAddr,
    action: Action,
    tx: Option<T>,
) -> Seq<(SocketAddr, PresentPeer<T>)> {
    match action {
        Action::Enter { audio_addr, sample_rate } => table::with_entry(
            present,
            conn,
            PresentPeer { tx: tx->0, audio_addr, sample_rate },
        ),
        Action::Leave { .. } => table::without_key(present, conn),
        _ => present,
    }
}

/// A connection is in the phase `Present` if and only if its peer is present, with the audio address
/// and the sample rate of that phase.
pub open spec fn in_step<T>(
    present: Seq<(SocketAddr, PresentPeer<T>)>,
    conn: SocketAddr,
    phase: Phase,
) -> bool {
    match phase {
        Phase::Present { audio_addr, sample_rate } => table::lookup(present, conn) matches Some(peer)
            && peer.audio_addr == audio_addr && peer.sample_rate == sample_rate,
        _ => table::lookup(present, conn) is None,
    }
}

/// Connections stay in step with the present peers: where a connection is in the phase `Present` if
/// and only if its peer is present with the values of that phase, then so it is after a step, its
/// action done, and so it is of every other connection. The one step that is left out is that of a
/// present peer to which something could not be sent, which closes the connection and removes nobody.
pub proof fn law_connections_stay_in_step<T>(
    present: Seq<(SocketAddr, PresentPeer<T>)>,
    conn: SocketAddr,
    phase: Phase,
    event: Event,
    tx: Option<T>,
    other: SocketAddr,
    other_phase: Phase,
)
    requires
        table::keys_distinct(present),
        awaits(phase, event),
        in_step(present, conn, phase),
        other != conn,
        in_step(present, other, other_phase),
        !(phase is Present && event == (Event::Sent { ok: false })),
    ensures
        ({
            let after = acted(present, conn, action_for(phase, event), tx);
            &&& table::keys_distinct(after)
            &&& in_step(after, conn, next_phase(phase, event))
            &&& in_step(after, other, other_phase)
        }),
{
    let after = acted(present, conn, action_for(phase, event), tx);
    let before_map = table::map_of(present);
    let after_map = table::map_of(after);
    match action_for(phase, event) {
        Action::Enter { audio_addr, sample_rate } => {
            table::lemma_with_entry(
                present,
                conn,
                PresentPeer { tx: tx->0, audio_addr, sample_rate },
            );
            assert(after_map.contains_key(conn));
        },
        Action::Leave { .. } => {
            table::lemma_without_key(present, conn);
        },
        _ => {},
    }
    assert(before_map.contains_key(other) <==> table::has_key(present, other));
    assert(after_map.contains_key(other) <==> table::has_key(after, other));
    assert(table::lookup(after, other) == table::lookup(present, other)) by {
        if table::has_key(present, other) {
            assert(after_map[other] == before_map[other]);
        }
    }
}

/// What the others need to know about the present peers, by connection.
pub open spec fn members_of<T>(present: Seq<(SocketAddr, PresentPeer<T>)>) -> Seq<
    (SocketAddr, (SocketAddr, u32)),
> {
    present.map_values(
        |entry: (SocketAddr, PresentPeer<T>)|
            (entry.0, (entry.1.audio_addr, entry.1.sample_rate)),
    )
}

/// What a message says about other peers.
pub open spec fn notice_of(message: ServerMessage) -> Notice {
    match message {
        ServerMessage::Entered { addr, sample_rate } => Notice::Joined { addr, sample_rate },
        ServerMessage::Left { addr } => Notice::Gone { addr },
        _ => Notice::Other,
    }
}

/// The announcements of a peer that enters at the connection `newcomer`, as notices.
pub open spec fn announced(
    messages: Seq<(Recipient, ServerMessage)>,
    newcomer: SocketAddr,
) -> Seq<(SocketAddr, Notice)> {
    messages.map_values(
        |m: (Recipient, ServerMessage)|
            (
                match m.0 {
                    Recipient::Present(conn) => conn,
                    Recipient::Newcomer => newcomer,
                },
                notice_of(m.1),
            ),
    )
}

/// Messages to present peers, as notices.
pub open spec fn notified(messages: Seq<(SocketAddr, ServerMessage)>) -> Seq<
    (SocketAddr, Notice),
> {
    messages.map_values(|m: (SocketAddr, ServerMessage)| (m.0, notice_of(m.1)))
}

/// The members are at the connections of the present peers.
proof fn lemma_members<T>(present: Seq<(SocketAddr, PresentPeer<T>)>)
    requires
        table::keys_distinct(present),
    ensures
        table::keys_distinct(members_of(present)),
        forall|conn: SocketAddr|
            table::has_key(members_of(present), conn) <==> table::has_key(present, conn),
{
    let members = members_of(present);
    assert forall|i: int, j: int| 0 <= i < j < members.len() implies #[trigger] members[i].0
        != #[trigger] members[j].0 by {
        assert(present[i].0 != present[j].0);
    }
    assert forall|conn: SocketAddr|
        table::has_key(members_of(present), conn) <==> table::has_key(present, conn) by {
        if table::has_key(present, conn) {
            let i = choose|i: int| 0 <= i < present.len() && #[trigger] present[i].0 == conn;
            assert(members[i].0 == conn);
        }
        if table::has_key(members, conn) {
            let i = choose|i: int| 0 <= i < members.len() && #[trigger] members[i].0 == conn;
            assert(present[i].0 == conn);
        }
    }
}

/// Entering peers and those that are present learn about each other: where every present peer knew
/// exactly the other present peers, then so it is, the newcomer included, after the announcements
/// are delivered and the newcomer has entered. No two of them may share an audio address.
pub proof fn law_enter_keeps_rosters_consistent<T>(
    present: Seq<(SocketAddr, PresentPeer<T>)>,
    rosters: Map<SocketAddr, roster::Roster>,
    conn: SocketAddr,
    peer: PresentPeer<T>,
)
    requires
        table::keys_distinct(present),
        !table::has_key(present, conn),
        roster::audio_distinct(
            table::map_of(members_of(table::with_entry(present, conn, peer))),
        ),
        roster::consistent(table::map_of(members_of(present)), rosters),
    ensures
        roster::consistent(
            table::map_of(members_of(table::with_entry(present, conn, peer))),
            roster::deliver(
                rosters.insert(conn, Map::empty()),
                announced(announcements(present, peer.audio_addr, peer.sample_rate), conn),
            ),
        ),
{
    let members = members_of(present);
    lemma_members(present);
    let about = (peer.audio_addr, peer.sample_rate);
    let after = members_of(table::with_entry(present, conn, peer));
    assert(after =~= table::with_entry(members, conn, about));
    table::lemma_with_entry(members, conn, about);
    let before = table::map_of(members);
    assert(roster::audio_distinct(before)) by {
        let all = table::map_of(after);
        assert forall|a: SocketAddr, b: SocketAddr|
            #![trigger before.contains_key(a), before.contains_key(b)]
            before.contains_key(a) && before.contains_key(b) && a != b implies before[a].0
            != before[b].0 by {
            assert(all.contains_key(a) && all.contains_key(b));
        }
    }
    roster::lemma_introduction(members, conn, about.0, about.1, false);
    let notices = announced(announcements(present, about.0, about.1), conn);
    assert(notices =~= roster::introduction(members, conn, about.0, about.1, false));
    roster::lemma_join(before, rosters, conn, about.0, about.1, notices);
}

/// The remaining peers learn that one has left: where every present peer knew exactly the other
/// present peers, then so it is after the farewells are delivered.
pub proof fn law_leave_keeps_rosters_consistent<T>(
    present: Seq<(SocketAddr, PresentPeer<T>)>,
    rosters: Map<SocketAddr, roster::Roster>,
    i: int,
)
    requires
        table::keys_distinct(present),
        0 <= i < present.len(),
        roster::audio_distinct(table::map_of(members_of(present))),
        roster::consistent(table::map_of(members_of(present)), rosters),
    ensures
        ({
            let remaining = table::without_key(present, present[i].0);
            roster::consistent(
                table::map_of(members_of(remaining)),
                roster::deliver(
                    rosters,
                    notified(farewells(remaining, present[i].1.audio_addr)),
                ),
            )
        }),
{
    let conn = present[i].0;
    let audio = present[i].1.audio_addr;
    let members = members_of(present);
    let remaining = table::without_key(present, conn);
    lemma_members(present);
    table::lemma_without_key(present, conn);
    table::lemma_without_key_at(present, i);
    assert(members[i].0 == conn);
    table::lemma_without_key_at(members, i);
    table::lemma_without_key(members, conn);
    table::lemma_lookup(members, i);
    assert(members_of(remaining) =~= table::without_key(members, conn));
    lemma_members(remaining);
    roster::lemma_dismissal(members_of(remaining), audio);
    let notices = notified(farewells(remaining, audio));
    assert(notices =~= roster::dismissal(members_of(remaining), audio));
    roster::lemma_part(table::map_of(members), rosters, conn, notices);
}

/// A peer that leaves undoes its entering: the others are present as before.
pub proof fn law_leave_undoes_enter<T>(
    present: Seq<(SocketAddr, PresentPeer<T>)>,
    conn: SocketAddr,
    peer: PresentPeer<T>,
)
    requires
        table::keys_distinct(present),
        !table::has_key(present, conn),
    ensures
        table::without_key(table::with_entry(present, conn, peer), conn) == present,
{
    table::lemma_with_entry(present, conn, peer);
    let after = table::with_entry(present, conn, peer);
    assert(after[present.len() as int].0 == conn);
    table::lemma_without_key_at(after, present.len() as int);
    assert(after.remove(present.len() as int) =~= present);
}

/// A datagram answers the request under a key if and only if it begins with the eight bytes of that
/// key.
pub proof fn law_key_answers_its_request(key: u64, datagram: Seq<u8>)
    ensures
        key_in(datagram) == Some(key) <==> le::le_bytes(key as nat, 8).is_prefix_of(datagram),
        key_in(le::le_bytes(key as nat, 8)) == Some(key),
{
    let bytes = le::le_bytes(key as nat, 8);
    le::lemma_widths();
    le::lemma_le_bytes_len(key as nat, 8);
    le::lemma_le_round_trip(key as nat, 8);
    assert(bytes.take(8) =~= bytes);
    if datagram.len() >= KEY_SIZE {
        let head = datagram.take(KEY_SIZE as int);
        le::lemma_le_value_bound(head);
        le::lemma_le_bytes_of_value(head);
        assert(datagram.subrange(0, 8) =~= head);
        if key_in(datagram) == Some(key) {
            assert(head == bytes);
        }
    }
}

/// A connection goes through its phases in order: the audio address is asked for first, the peer is
/// told that it entered, then the announcements are sent, then it enters, and then it may leave. What it enters with is
/// what it sent and where its answer came from. A peer that does not say hey first does not enter.
pub proof fn law_connection_protocol(
    message: ClientMessage,
    key: u64,
    audio_addr: SocketAddr,
    queued: ServerMessage,
    outcome: ReadOutcome,
)
    ensures
        ({
            let asked = next_phase(Phase::AwaitHey, Event::Message(message));
            match message {
                ClientMessage::Hey { sample_rate } => {
                    let requested = next_phase(asked, Event::Requested { key });
                    let confirmed = next_phase(requested, Event::AudioAddr(audio_addr));
                    let announcing = next_phase(confirmed, Event::Sent { ok: true });
                    let entered = next_phase(announcing, Event::Sent { ok: true });
                    &&& awaits(asked, Event::Requested { key })
                    &&& action_for(asked, Event::Requested { key }) == Action::Send(
                        ServerMessage::RequestAudioAddress { key },
                    )
                    &&& awaits(requested, Event::AudioAddr(audio_addr))
                    &&& action_for(requested, Event::AudioAddr(audio_addr)) == Action::Send(
                        ServerMessage::SuccessfullyEntered,
                    )
                    &&& awaits(confirmed, Event::Sent { ok: true })
                    &&& action_for(confirmed, Event::Sent { ok: true }) == (Action::Announce {
                        audio_addr,
                        sample_rate,
                    })
                    &&& awaits(announcing, Event::Sent { ok: true })
                    &&& action_for(announcing, Event::Sent { ok: true }) == (Action::Enter {
                        audio_addr,
                        sample_rate,
                    })
                    &&& next_phase(entered, Event::Queued(queued)) == entered
                    &&& action_for(entered, Event::Queued(queued)) == Action::Send(queued)
                    &&& if is_lost(outcome) {
                        &&& next_phase(entered, Event::Read(outcome)) == Phase::Closed
                        &&& action_for(entered, Event::Read(outcome)) == (Action::Leave {
                            audio_addr,
                        })
                    } else {
                        next_phase(entered, Event::Read(outcome)) == entered
                    }
                },
                _ => asked == Phase::Closed,
            }
        }),
{
}

/// A peer enters only once all announcements were sent, and only a peer that entered leaves. What
/// cannot be sent ends a connection wherever it stands: the peer does not enter after that.
pub proof fn law_failed_announcement_keeps_out(phase: Phase, event: Event)
    requires
        awaits(phase, event),
    ensures
        action_for(phase, event) is Enter <==> phase is Announcing && event == (Event::Sent {
            ok: true,
        }),
        next_phase(phase, event) is Present && !(phase is Present) ==> action_for(
            phase,
            event,
        ) is Enter,
        action_for(phase, event) is Leave ==> phase is Present,
        event == (Event::Sent { ok: false }) ==> next_phase(phase, event) == Phase::Closed
            && action_for(phase, event) == Action::Abandon,
        forall|later: Event| !awaits(Phase::Closed, later),
{
}

/// What each phase waits for.
pub proof fn law_awaited_events(phase: Phase, event: Event)
    ensures
        phase is AwaitHey ==> (awaits(phase, event) <==> event is Message),
        phase is AwaitKey ==> (awaits(phase, event) <==> event is Requested),
        phase is AwaitAudioAddr ==> (awaits(phase, event) <==> event is AudioAddr || event is Sent),
        phase is Confirmed || phase is Announcing ==> (awaits(phase, event) <==> event is Sent),
        phase is Present ==> (awaits(phase, event) <==> event is Queued || event is Read
            || event is Sent),
        phase is Closed ==> !awaits(phase, event),
{
}

/// What was sent as it should moves a connection on only where the next thing is to be sent: while an
/// audio address is awaited, and while the peer is present, it changes nothing at all. So do messages
/// for a present peer, which are passed on as they are, and whatever the peer sends.
pub proof fn law_sending_changes_no_waiting_phase(phase: Phase, message: ServerMessage, count: usize)
    requires
        phase is AwaitAudioAddr || phase is Present,
    ensures
        next_phase(phase, Event::Sent { ok: true }) == phase,
        action_for(phase, Event::Sent { ok: true }) == Action::Skip,
        phase is Present ==> next_phase(phase, Event::Queued(message)) == phase && action_for(
            phase,
            Event::Queued(message),
        ) == Action::Send(message),
        phase is Present && count > 0 ==> next_phase(
            phase,
            Event::Read(ReadOutcome::Bytes(count)),
        ) == phase && action_for(phase, Event::Read(ReadOutcome::Bytes(count))) == Action::Skip,
{
}

/// A present peer leaves, with the audio address that it entered with, when a read gives nothing or
/// fails, and at no other event.
pub proof fn law_only_loss_makes_a_peer_leave(
    audio_addr: SocketAddr,
    sample_rate: u32,
    event: Event,
    other: Phase,
)
    requires
        awaits(other, event),
    ensures
        ({
            let phase = Phase::Present { audio_addr, sample_rate };
            let lost = event == Event::Read(ReadOutcome::Failed) || event == Event::Read(
                ReadOutcome::Bytes(0),
            );
            &&& awaits(phase, event) && lost ==> action_for(phase, event) == (Action::Leave {
                audio_addr,
            }) && next_phase(phase, event) == Phase::Closed
            &&& awaits(phase, event) && !lost ==> !(action_for(phase, event) is Leave)
            &&& action_for(other, event) is Leave ==> other is Present && lost
        }),
{
}

/// The first message decides: a hey is followed by an audio address request, under the key that was
/// found, and then by a confirmation, announcements and entering, each once what comes before was
/// sent. Anything else is refused.
pub proof fn law_entering_in_order(
    message: ClientMessage,
    key: u64,
    audio_addr: SocketAddr,
    sample_rate: u32,
)
    ensures
        message == (ClientMessage::Hey { sample_rate }) ==> next_phase(
            Phase::AwaitHey,
            Event::Message(message),
        ) == (Phase::AwaitKey { sample_rate }) && action_for(
            Phase::AwaitHey,
            Event::Message(message),
        ) == Action::Request,
        !(message is Hey) ==> next_phase(Phase::AwaitHey, Event::Message(message)) == Phase::Closed
            && action_for(Phase::AwaitHey, Event::Message(message)) == (Action::Refuse {
            reason: "expected hey first",
        }),
        next_phase(Phase::AwaitKey { sample_rate }, Event::Requested { key }) == (
        Phase::AwaitAudioAddr { sample_rate }),
        action_for(Phase::AwaitKey { sample_rate }, Event::Requested { key }) == Action::Send(
            ServerMessage::RequestAudioAddress { key },
        ),
        next_phase(Phase::AwaitAudioAddr { sample_rate }, Event::AudioAddr(audio_addr)) == (
        Phase::Confirmed { audio_addr, sample_rate }),
        action_for(Phase::AwaitAudioAddr { sample_rate }, Event::AudioAddr(audio_addr))
            == Action::Send(ServerMessage::SuccessfullyEntered),
        next_phase(Phase::Confirmed { audio_addr, sample_rate }, Event::Sent { ok: true }) == (
        Phase::Announcing { audio_addr, sample_rate }),
        action_for(Phase::Confirmed { audio_addr, sample_rate }, Event::Sent { ok: true }) == (
        Action::Announce { audio_addr, sample_rate }),
        next_phase(Phase::Announcing { audio_addr, sample_rate }, Event::Sent { ok: true }) == (
        Phase::Present { audio_addr, sample_rate }),
        action_for(Phase::Announcing { audio_addr, sample_rate }, Event::Sent { ok: true }) == (
        Action::Enter { audio_addr, sample_rate }),
{
}

/// A peer is announced, enters and leaves with what it sent: in every run of a connection that begins
/// with a hey, the sample rate of every phase, announcement and entering is the one in the hey, and
/// the audio address is one that the request was answered from before, whatever else happens in
/// between.
pub proof fn law_peer_enters_with_what_it_sent(
    phases: Seq<Phase>,
    events: Seq<Event>,
    sample_rate: u32,
    n: int,
)
    requires
        phases.len() == events.len() + 1,
        phases[0] == Phase::AwaitHey,
        1 <= n <= events.len(),
        events[0] == Event::Message(ClientMessage::Hey { sample_rate }),
        forall|i: int|
            #![trigger events[i]]
            0 <= i < events.len() ==> awaits(phases[i], events[i]) && phases[i + 1] == next_phase(
                phases[i],
                events[i],
            ),
    ensures
        match phases[n] {
            Phase::AwaitHey => false,
            Phase::AwaitKey { sample_rate: rate } => rate == sample_rate,
            Phase::AwaitAudioAddr { sample_rate: rate } => rate == sample_rate,
            Phase::Confirmed { audio_addr, sample_rate: rate } => rate == sample_rate && exists|
                j: int,
            |
                0 < j < n && #[trigger] events[j] == Event::AudioAddr(audio_addr),
            Phase::Announcing { audio_addr, sample_rate: rate } => rate == sample_rate && exists|
                j: int,
            |
                0 < j < n && #[trigger] events[j] == Event::AudioAddr(audio_addr),
            Phase::Present { audio_addr, sample_rate: rate } => rate == sample_rate && exists|
                j: int,
            |
                0 < j < n && #[trigger] events[j] == Event::AudioAddr(audio_addr),
            Phase::Closed => true,
        },
        n < events.len() ==> match action_for(phases[n], events[n]) {
            Action::Announce { audio_addr, sample_rate: rate } => rate == sample_rate && exists|
                j: int,
            |
                0 < j < n && #[trigger] events[j] == Event::AudioAddr(audio_addr),
            Action::Enter { audio_addr, sample_rate: rate } => rate == sample_rate && exists|j: int|
                0 < j < n && #[trigger] events[j] == Event::AudioAddr(audio_addr),
            Action::Leave { audio_addr } => exists|j: int|
                0 < j < n && #[trigger] events[j] == Event::AudioAddr(audio_addr),
            _ => true,
        },
    decreases n,
{
    let last = events[n - 1];
    assert(awaits(phases[n - 1], last) && phases[n - 1 + 1] == next_phase(phases[n - 1], last));
    if n > 1 {
        law_peer_enters_with_what_it_sent(phases, events, sample_rate, n - 1);
    }
}

/// Who is told what about a newcomer: every present peer the newcomer's audio address and sample
/// rate, and the newcomer those of every present peer, one after another.
pub proof fn law_announcements_name_everybody<T>(
    present: Seq<(SocketAddr, PresentPeer<T>)>,
    audio_addr: SocketAddr,
    sample_rate: u32,
    i: int,
)
    ensures
        announcements(present, audio_addr, sample_rate).len() == 2 * present.len(),
        0 <= i < present.len() ==> announcements(present, audio_addr, sample_rate)[2 * i] == (
            Recipient::Present(present[i].0),
            ServerMessage::Entered { addr: audio_addr, sample_rate },
        ) && announcements(present, audio_addr, sample_rate)[2 * i + 1] == (
            Recipient::Newcomer,
            ServerMessage::Entered {
                addr: present[i].1.audio_addr,
                sample_rate: present[i].1.sample_rate,
            },
        ),
{
}

/// Who is told what about a peer that left: everybody who remains, its audio address.
pub proof fn law_farewells_reach_everybody<T>(
    remaining: Seq<(SocketAddr, PresentPeer<T>)>,
    audio_addr: SocketAddr,
    i: int,
)
    ensures
        farewells(remaining, audio_addr).len() == remaining.len(),
        0 <= i < remaining.len() ==> farewells(remaining, audio_addr)[i] == (
            remaining[i].0,
            ServerMessage::Left { addr: audio_addr },
        ),
{
}

/// What entering and leaving do to the present peers: one that was not there is added with its values,
/// one that is there is taken out, nobody else changes, and no other action changes anything.
pub proof fn law_entering_and_leaving_change_one_peer<T>(
    present: Seq<(SocketAddr, PresentPeer<T>)>,
    conn: SocketAddr,
    tx: T,
    audio_addr: SocketAddr,
    sample_rate: u32,
    action: Action,
    i: int,
)
    requires
        table::keys_distinct(present),
    ensures
        (forall|k: int| 0 <= k < present.len() ==> (#[trigger] present[k]).0 != conn) ==> acted(
            present,
            conn,
            Action::Enter { audio_addr, sample_rate },
            Some(tx),
        ) == present.push((conn, PresentPeer { tx, audio_addr, sample_rate })) && acted(
            present,
            conn,
            Action::Leave { audio_addr },
            None,
        ) == present,
        0 <= i < present.len() && present[i].0 == conn ==> acted(
            present,
            conn,
            Action::Leave { audio_addr },
            None,
        ) == present.remove(i) && acted(
            present,
            conn,
            Action::Enter { audio_addr, sample_rate },
            Some(tx),
        ) == present.update(i, (conn, PresentPeer { tx, audio_addr, sample_rate })),
        !(action is Enter) && !(action is Leave) ==> acted(present, conn, action, Some(tx))
            == present && acted(present, conn, action, None) == present,
{
    table::law_leaving_out_removes_one_entry(present, conn, i);
    if 0 <= i < present.len() && present[i].0 == conn {
        assert(table::has_key(present, conn));
        let peer = PresentPeer { tx, audio_addr, sample_rate };
        assert(table::with_entry(present, conn, peer) =~= present.update(i, (conn, peer)));
    }
}

/// The key in a datagram, byte by byte: its first eight bytes, the lowest first. Fewer bytes are no
/// key.
pub proof fn law_key_bytes(datagram: Seq<u8>)
    ensures
        datagram.len() < 8 ==> key_in(datagram) is None,
        datagram.len() >= 8 ==> (key_in(datagram) matches Some(key) && key == datagram[0] + 0x100
            * datagram[1] + 0x1_0000 * datagram[2] + 0x100_0000 * datagram[3] + 0x1_0000_0000
            * datagram[4] + 0x100_0000_0000 * datagram[5] + 0x1_0000_0000_0000 * datagram[6]
            + 0x100_0000_0000_0000 * datagram[7]),
{
    if datagram.len() >= 8 {
        let head = datagram.take(8);
        le::law_small_numbers(head);
        le::lemma_le_value_bound(head);
        le::lemma_widths();
    }
}

/// A request is made under a key that is free, and no key before it is.
pub proof fn law_first_free_key<W>(requests: Map<u64, W>, keys: Seq<u64>, key: u64)
    ensures
        first_free(requests, keys, key) ==> !requests.contains_key(key) && exists|i: int|
            0 <= i < keys.len() && #[trigger] keys[i] == key && forall|j: int|
                0 <= j < i ==> requests.contains_key(#[trigger] keys[j]),
{
}

/// What a call of `process` keeps: a sample rate and an audio address that a connection has stay what
/// they are, through every step, and are what the peer is announced, enters and leaves with.
pub proof fn law_process_keeps_what_the_peer_sent(phase: &mut Phase, event: Event, action: Action)
    requires
        call_ensures(process, (phase, event), action),
        awaits(*old(phase), event),
    ensures
        *old(phase) is AwaitHey && event is Message ==> (event->Message_0 matches ClientMessage::Hey {
            sample_rate,
        } ==> *final(phase) == (Phase::AwaitKey { sample_rate }) && action == Action::Request),
        *old(phase) matches Phase::AwaitKey { sample_rate } ==> *final(phase) == (
        Phase::AwaitAudioAddr { sample_rate }),
        *old(phase) matches Phase::AwaitAudioAddr { sample_rate } ==> {
            ||| *final(phase) == Phase::Closed && event == (Event::Sent { ok: false })
            ||| *final(phase) == *old(phase) && event == (Event::Sent { ok: true })
            ||| event is AudioAddr && *final(phase) == (Phase::Confirmed {
                audio_addr: event->AudioAddr_0,
                sample_rate,
            })
        },
        *old(phase) matches Phase::Confirmed { audio_addr, sample_rate } ==> {
            ||| *final(phase) == Phase::Closed && event == (Event::Sent { ok: false })
            ||| *final(phase) == (Phase::Announcing { audio_addr, sample_rate }) && action == (
            Action::Announce { audio_addr, sample_rate })
        },
        *old(phase) matches Phase::Announcing { audio_addr, sample_rate } ==> {
            ||| *final(phase) == Phase::Closed && event == (Event::Sent { ok: false })
            ||| *final(phase) == (Phase::Present { audio_addr, sample_rate }) && action == (
            Action::Enter { audio_addr, sample_rate })
        },
        *old(phase) matches Phase::Present { audio_addr, .. } ==> {
            ||| *final(phase) == Phase::Closed && (action == (Action::Leave { audio_addr }) || event
                == (Event::Sent { ok: false }))
            ||| *final(phase) == *old(phase)
        },
{
}

/// What a call of `take_request` does: the waiter under the number in the first eight bytes is given,
/// and no longer waits; all others do. Nobody is given where nobody waits under it, nor for fewer
/// bytes.
pub proof fn law_take_request_answers_one<T, W>(
    state: &mut State<T, W>,
    datagram: &[u8],
    waiter: Option<W>,
    key: u64,
)
    requires
        call_ensures(State::<T, W>::take_request, (state, datagram), waiter),
        datagram@.len() >= 8 ==> key == datagram@[0] + 0x100 * datagram@[1] + 0x1_0000 * datagram@[2]
            + 0x100_0000 * datagram@[3] + 0x1_0000_0000 * datagram@[4] + 0x100_0000_0000
            * datagram@[5] + 0x1_0000_0000_0000 * datagram@[6] + 0x100_0000_0000_0000
            * datagram@[7],
    ensures
        datagram@.len() >= 8 && old(state).requests().contains_key(key) ==> waiter == Some(
            old(state).requests()[key],
        ) && final(state).requests() == old(state).requests().remove(key),
        datagram@.len() < 8 || !old(state).requests().contains_key(key) ==> waiter is None
            && final(state).requests() == old(state).requests(),
        final(state).present() == old(state).present(),
{
    law_key_bytes(datagram@);
}

/// What a call of `advance` does when a peer enters and when it leaves: the peer is added with what
/// it entered with, or taken out, and the others are told its audio address.
pub proof fn law_advance_enters_and_leaves<T, W>(
    state: &mut State<T, W>,
    conn: SocketAddr,
    phase: &mut Phase,
    event: Event,
    tx: Option<T>,
    step: (Action, Vec<(SocketAddr, ServerMessage)>),
    i: int,
    m: int,
)
    requires
        call_ensures(State::<T, W>::advance, (state, conn, phase, event, tx), step),
        old(state).wf(),
    ensures
        step.0 matches Action::Enter { audio_addr, sample_rate } ==> ((forall|k: int|
            0 <= k < old(state).present().len() ==> (#[trigger] old(state).present()[k]).0 != conn)
            ==> final(state).present() == old(state).present().push(
            (conn, PresentPeer { tx: tx->0, audio_addr, sample_rate }),
        )),
        step.0 matches Action::Leave { audio_addr } ==> (0 <= i < old(state).present().len() && old(state).present()[i].0 == conn ==> {
            &&& final(state).present() == old(state).present().remove(i)
            &&& step.1@.len() == old(state).present().len() - 1
            &&& 0 <= m < step.1@.len() ==> step.1@[m] == (
                final(state).present()[m].0,
                ServerMessage::Left { addr: audio_addr },
            )
        }),
        !(step.0 is Enter) && !(step.0 is Leave) ==> final(state).present() == old(state).present()
            && step.1@.len() == 0,
{
    law_entering_and_leaving_change_one_peer(
        old(state).present(),
        conn,
        tx->0,
        conn,
        0,
        step.0,
        i,
    );
    table::law_leaving_out_removes_one_entry(old(state).present(), conn, i);
}

/// What a call of `announce` returns: two messages for every present peer, one to it about the
/// newcomer and one to the newcomer about it.
pub proof fn law_announce_names_everybody<T, W>(
    state: State<T, W>,
    audio_addr: SocketAddr,
    sample_rate: u32,
    messages: Vec<(Recipient, ServerMessage)>,
    i: int,
)
    requires
        call_ensures(State::<T, W>::announce, (&state, audio_addr, sample_rate), messages),
    ensures
        messages@.len() == 2 * state.present().len(),
        0 <= i < state.present().len() ==> messages@[2 * i] == (
            Recipient::Present(state.present()[i].0),
            ServerMessage::Entered { addr: audio_addr, sample_rate },
        ) && messages@[2 * i + 1] == (
            Recipient::Newcomer,
            ServerMessage::Entered {
                addr: state.present()[i].1.audio_addr,
                sample_rate: state.present()[i].1.sample_rate,
            },
        ),
{
    law_announcements_name_everybody(state.present(), audio_addr, sample_rate, i);
}

/// A state is well-formed just where no connection has two peers.
pub proof fn law_no_connection_has_two_peers<T, W>(state: State<T, W>)
    ensures
        state.wf() <==> (forall|i: int, j: int|
            0 <= i < state.present().len() && 0 <= j < state.present().len() && i != j ==> (
            #[trigger] state.present()[i]).0 != (#[trigger] state.present()[j]).0),
{
    table::law_distinct_keys(state.present());
}

/// What a call of `request_audio_address` does: a key that no request had now has one, for the waiter,
/// and nothing else changes.
pub proof fn law_request_takes_a_free_key<T, W>(
    state: &mut State<T, W>,
    waiter: W,
    key: u64,
    other: u64,
)
    requires
        call_ensures(State::<T, W>::request_audio_address, (state, waiter), key),
    ensures
        !old(state).requests().contains_key(key),
        final(state).requests().contains_key(key),
        final(state).requests()[key] == waiter,
        other != key ==> (final(state).requests().contains_key(other) <==> old(state).requests().contains_key(other)) && final(state).requests()[other] == old(state).requests()[other],
        final(state).present() == old(state).present(),
{
}

} // verus!
