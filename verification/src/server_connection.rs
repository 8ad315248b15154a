//! A peer's connection to the server: how it enters, and how it learns about others.

use crate::addr::SocketAddr;
use crate::le;
use crate::messages::ClientMessage;
use crate::messages::ServerMessage;
use crate::server;
use vstd::arithmetic::power::pow;
use vstd::prelude::*;

verus! {

/// Builds a connection to the server at `addr`. The callbacks are kept for whoever runs the
/// connection.
pub struct ServerConnectionBuilder<A, E, L> {
    pub addr: A,
    pub entered_callback: Option<E>,
    pub left_callback: Option<L>,
}

impl<A, E, L> ServerConnectionBuilder<A, E, L> {
    /// A builder without callbacks.
    pub fn new(addr: A) -> (builder: Self)
        ensures
            builder.addr == addr,
            builder.entered_callback is None,
            builder.left_callback is None,
    {
        ServerConnectionBuilder { addr, entered_callback: None, left_callback: None }
    }

    /// Sets the callback which will be called when a new peer enters.
    pub fn entered_callback(self, entered_callback: E) -> (builder: Self)
        ensures
            builder.addr == self.addr,
            builder.entered_callback == Some(entered_callback),
            builder.left_callback == self.left_callback,
    {
        ServerConnectionBuilder {
            addr: self.addr,
            entered_callback: Some(entered_callback),
            left_callback: self.left_callback,
        }
    }

    /// Sets the callback which will be called when a peer leaves.
    pub fn left_callback(self, left_callback: L) -> (builder: Self)
        ensures
            builder.addr == self.addr,
            builder.entered_callback == self.entered_callback,
            builder.left_callback == Some(left_callback),
    {
        ServerConnectionBuilder {
            addr: self.addr,
            entered_callback: self.entered_callback,
            left_callback: Some(left_callback),
        }
    }

    /// Starts to enter with the given sample rate: returns the connection, and the message to send
    /// to the server first.
    pub fn connect_and_enter(self, sample_rate: u32) -> (start: (
        ServerConnection<A, E, L>,
        ClientMessage,
    ))
        ensures
            start.0.phase == Phase::AwaitRequest,
            start.0.addr == self.addr,
            start.0.entered_callback == self.entered_callback,
            start.0.left_callback == self.left_callback,
            start.1 == (ClientMessage::Hey { sample_rate }),
    {
        (
            ServerConnection {
                phase: Phase::AwaitRequest,
                addr: self.addr,
                entered_callback: self.entered_callback,
                left_callback: self.left_callback,
            },
            ClientMessage::Hey { sample_rate },
        )
    }
}

/// How far a connection to the server has come.
#[derive(Clone, Copy, Debug, PartialEq, Eq, Structural)]
pub enum Phase {
    /// The server has to ask for the audio address.
    AwaitRequest,
    /// The server has to confirm that we entered.
    AwaitEntered,
    /// We are present.
    Entered,
}

/// What came from the server.
#[derive(Clone, Copy, Debug, PartialEq, Eq)]
pub enum Incoming {
    Message(ServerMessage),
    /// The connection was closed.
    Eof,
    /// Something that is no message.
    Malformed,
}

/// What is to be done about it.
#[derive(Debug, PartialEq, Eq)]
pub enum Action {
    /// Send this datagram from the audio socket to the server.
    SendDatagram { datagram: Vec<u8> },
    /// We have entered: from now on, handle messages in the background.
    Entered,
    /// Call the callback for entering peers.
    CallEntered { addr: SocketAddr, sample_rate: u32 },
    /// Call the callback for leaving peers.
    CallLeft { addr: SocketAddr },
    /// Nothing: no callback is set for the message.
    Skip,
    /// The message was not expected. Go on.
    Unexpected,
    /// Something was no message. Go on.
    Undecodable,
    /// Give up.
    Fail { reason: &'static str },
}

/// A connection to the server.
pub struct ServerConnection<A, E, L> {
    pub phase: Phase,
    pub addr: A,
    pub entered_callback: Option<E>,
    pub left_callback: Option<L>,
}

/// What is to be done about what came, in each phase; `entered` and `left` say whether the
/// callbacks are set.
pub open spec fn responds(
    phase: Phase,
    entered: bool,
    left: bool,
    incoming: Incoming,
    action: Action,
) -> bool {
    match (phase, incoming) {
        (Phase::AwaitRequest, Incoming::Message(ServerMessage::RequestAudioAddress { key })) => {
            action matches Action::SendDatagram { datagram } && datagram@ == le::le_bytes(
                key as nat,
                8,
            )
        },
        (Phase::AwaitRequest, Incoming::Message(_)) => action == (Action::Fail {
            reason: "expected audio address request",
        }),
        (Phase::AwaitEntered, Incoming::Message(ServerMessage::SuccessfullyEntered)) => action
            == Action::Entered,
        (Phase::AwaitEntered, Incoming::Message(_)) => action == (Action::Fail {
            reason: "expected successfully entered message",
        }),
        (Phase::Entered, Incoming::Message(ServerMessage::Entered { addr, sample_rate })) => action
            == if entered {
            Action::CallEntered { addr, sample_rate }
        } else {
            Action::Skip
        },
        (Phase::Entered, Incoming::Message(ServerMessage::Left { addr })) => action == if left {
            Action::CallLeft { addr }
        } else {
            Action::Skip
        },
        (Phase::Entered, Incoming::Message(_)) => action == Action::Unexpected,
        (Phase::Entered, Incoming::Eof) => action == (Action::Fail {
            reason: "lost server connection",
        }),
        (Phase::Entered, Incoming::Malformed) => action == Action::Undecodable,
        (_, _) => action == (Action::Fail { reason: "deserializing server message failed" }),
    }
}

/// The phase after something came. One that failed is not left.
pub open spec fn next_phase(phase: Phase, incoming: Incoming) -> Phase {
    match (phase, incoming) {
        (Phase::AwaitRequest, Incoming::Message(ServerMessage::RequestAudioAddress { .. })) => {
            Phase::AwaitEntered
        },
        (Phase::AwaitEntered, Incoming::Message(ServerMessage::SuccessfullyEntered)) => {
            Phase::Entered
        },
        _ => phase,
    }
}

impl<A, E, L> ServerConnection<A, E, L> {
    /// Handles what came from the server.
    pub fn receive(&mut self, incoming: Incoming) -> (action: Action)
        ensures
            responds(
                old(self).phase,
                old(self).entered_callback is Some,
                old(self).left_callback is Some,
                incoming,
                action,
            ),
            final(self).phase == next_phase(old(self).phase, incoming),
            final(self).addr == old(self).addr,
            final(self).entered_callback == old(self).entered_callback,
            final(self).left_callback == old(self).left_callback,
    {
        match (self.phase, incoming) {
            (
                Phase::AwaitRequest,
                Incoming::Message(ServerMessage::RequestAudioAddress { key }),
            ) => {
                self.phase = Phase::AwaitEntered;
                Action::SendDatagram { datagram: le::encode_le(key as u128, 8) }
            },
            (Phase::AwaitRequest, Incoming::Message(_)) => Action::Fail {
                reason: "expected audio address request",
            },
            (Phase::AwaitEntered, Incoming::Message(ServerMessage::SuccessfullyEntered)) => {
                self.phase = Phase::Entered;
                Action::Entered
            },
            (Phase::AwaitEntered, Incoming::Message(_)) => Action::Fail {
                reason: "expected successfully entered message",
            },
            (Phase::Entered, Incoming::Message(ServerMessage::Entered { addr, sample_rate })) => {
                if self.entered_callback.is_some() {
                    Action::CallEntered { addr, sample_rate }
                } else {
                    Action::Skip
                }
            },
            (Phase::Entered, Incoming::Message(ServerMessage::Left { addr })) => {
                if self.left_callback.is_some() {
                    Action::CallLeft { addr }
                } else {
                    Action::Skip
                }
            },
            (Phase::Entered, Incoming::Message(_)) => Action::Unexpected,
            (Phase::Entered, Incoming::Eof) => Action::Fail { reason: "lost server connection" },
            (Phase::Entered, Incoming::Malformed) => Action::Undecodable,
            (_, _) => Action::Fail { reason: "deserializing server message failed" },
        }
    }
}

/// A peer and the server bring the entering to its end together: the peer answers the request with
/// the datagram that the server takes for the key of that request, and then takes the server's
/// confirmation.
pub proof fn law_handshake(key: u64, entered: bool, left: bool, answer: Action, confirmed: Action)
    requires
        responds(
            Phase::AwaitRequest,
            entered,
            left,
            Incoming::Message(ServerMessage::RequestAudioAddress { key }),
            answer,
        ),
        responds(
            next_phase(
                Phase::AwaitRequest,
                Incoming::Message(ServerMessage::RequestAudioAddress { key }),
            ),
            entered,
            left,
            Incoming::Message(ServerMessage::SuccessfullyEntered),
            confirmed,
        ),
    ensures
        answer matches Action::SendDatagram { datagram } && server::key_in(datagram@) == Some(key),
        confirmed == Action::Entered,
{
    server::law_key_answers_its_request(key, le::le_bytes(key as nat, 8));
}

/// Once we have entered, only the loss of the connection ends it: no message and nothing
/// undecodable does, and we stay present throughout.
pub proof fn law_only_loss_ends_presence(
    entered: bool,
    left: bool,
    incoming: Incoming,
    action: Action,
)
    requires
        responds(Phase::Entered, entered, left, incoming, action),
    ensures
        next_phase(Phase::Entered, incoming) == Phase::Entered,
        action is Fail <==> incoming == Incoming::Eof,
{
}

/// How a connection is brought about: the request is answered with the eight bytes of its key, lowest
/// first, the confirmation completes the entering, and anything else fails it.
pub proof fn law_entering(
    entered: bool,
    left: bool,
    incoming: Incoming,
    first: Action,
    second: Action,
    i: nat,
)
    requires
        responds(Phase::AwaitRequest, entered, left, incoming, first),
        responds(Phase::AwaitEntered, entered, left, incoming, second),
        i < 8,
    ensures
        incoming matches Incoming::Message(ServerMessage::RequestAudioAddress { key }) ==> (
        first matches Action::SendDatagram { datagram } && datagram@.len() == 8 && datagram@[i as int]
            == (key as int / pow(256, i)) % 256),
        next_phase(Phase::AwaitRequest, incoming) == if incoming is Message
            && incoming->0 is RequestAudioAddress {
            Phase::AwaitEntered
        } else {
            Phase::AwaitRequest
        },
        incoming is Message && !(incoming->0 is RequestAudioAddress) ==> first == (Action::Fail {
            reason: "expected audio address request",
        }),
        incoming == Incoming::Message(ServerMessage::SuccessfullyEntered) ==> second
            == Action::Entered,
        next_phase(Phase::AwaitEntered, incoming) == if incoming == Incoming::Message(
            ServerMessage::SuccessfullyEntered,
        ) {
            Phase::Entered
        } else {
            Phase::AwaitEntered
        },
        incoming is Message && incoming->0 != ServerMessage::SuccessfullyEntered ==> second == (
        Action::Fail { reason: "expected successfully entered message" }),
        !(incoming is Message) ==> first == (Action::Fail {
            reason: "deserializing server message failed",
        }) && second == first,
{
    if let Incoming::Message(ServerMessage::RequestAudioAddress { key }) = incoming {
        le::law_encoded_digits(key as nat, 8, i);
    }
}

/// Once we have entered, every peer that enters or leaves is passed on as the server told it, to the
/// callback for that, if it is set. Nothing else is passed on.
pub proof fn law_news_reach_the_callbacks(
    entered: bool,
    left: bool,
    incoming: Incoming,
    action: Action,
    addr: SocketAddr,
    sample_rate: u32,
)
    requires
        responds(Phase::Entered, entered, left, incoming, action),
    ensures
        next_phase(Phase::Entered, incoming) == Phase::Entered,
        action == (Action::CallEntered { addr, sample_rate }) <==> entered && incoming
            == Incoming::Message(ServerMessage::Entered { addr, sample_rate }),
        action == (Action::CallLeft { addr }) <==> left && incoming == Incoming::Message(
            ServerMessage::Left { addr },
        ),
        incoming is Message && incoming->0 is Entered && !entered ==> action == Action::Skip,
        incoming is Message && incoming->0 is Left && !left ==> action == Action::Skip,
        incoming is Message && (incoming->0 is RequestAudioAddress
            || incoming->0 is SuccessfullyEntered) ==> action == Action::Unexpected,
        incoming == Incoming::Malformed ==> action == Action::Undecodable,
        incoming == Incoming::Eof ==> action == (Action::Fail { reason: "lost server connection" }),
{
}

/// What a call of `receive` returns once we have entered: a peer that enters or leaves, as the server
/// told it, for the callback that is set for that. We stay present.
pub proof fn law_receive_passes_news_on<A, E, L>(
    connection: &mut ServerConnection<A, E, L>,
    incoming: Incoming,
    action: Action,
    addr: SocketAddr,
    sample_rate: u32,
)
    requires
        call_ensures(ServerConnection::<A, E, L>::receive, (connection, incoming), action),
        old(connection).phase == Phase::Entered,
    ensures
        action == (Action::CallEntered { addr, sample_rate }) <==> old(connection).entered_callback is Some && incoming == Incoming::Message(
            ServerMessage::Entered { addr, sample_rate },
        ),
        action == (Action::CallLeft { addr }) <==> old(connection).left_callback is Some && incoming
            == Incoming::Message(ServerMessage::Left { addr }),
        action is Fail <==> incoming == Incoming::Eof,
        final(connection).phase == Phase::Entered,
        final(connection).entered_callback == old(connection).entered_callback,
        final(connection).left_callback == old(connection).left_callback,
{
    law_news_reach_the_callbacks(
        old(connection).entered_callback is Some,
        old(connection).left_callback is Some,
        incoming,
        action,
        addr,
        sample_rate,
    );
}

} // verus!
