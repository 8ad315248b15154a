//! A peer's connection to the signaling server.

use crate::signaling_messages::ServerMessage;
use vstd::prelude::*;

verus! {

/// What came from the signaling server.
#[derive(Clone, Copy, Debug, PartialEq, Eq)]
pub enum Incoming {
    Message(ServerMessage),
    /// Something that is no message, or a failure to read.
    Undecodable,
}

/// What is to be done about it.
#[derive(Clone, Copy, Debug, PartialEq, Eq)]
pub enum Action {
    /// Hand the message to the callback.
    Call { message: ServerMessage },
    /// Nothing: there is no callback.
    Skip,
    /// Report the failure. Go on.
    Report,
}

/// A connection to the signaling server, with the callback for its messages.
pub struct SignalingConnection<C> {
    callback: Option<C>,
}

impl<C> SignalingConnection<C> {
    /// The callback that is set.
    pub closed spec fn callback(&self) -> Option<C> {
        self.callback
    }

    /// A new connection, without a callback.
    pub fn connect() -> (connection: Self)
        ensures
            connection.callback() is None,
    {
        SignalingConnection { callback: None }
    }

    /// Sets the callback which will be called with messages from the signaling server.
    ///
    /// This removes any previously set callback.
    pub fn set_callback(&mut self, callback: C)
        ensures
            final(self).callback() == Some(callback),
    {
        self.callback = Some(callback);
    }

    /// The callback, to be called.
    pub fn callback_mut(&mut self) -> (callback: Option<&mut C>)
        ensures
            match callback {
                Some(c) => old(self).callback() == Some(*c) && final(self).callback() == Some(
                    *final(c),
                ),
                None => old(self).callback() is None && final(self).callback() is None,
            },
    {
        self.callback.as_mut()
    }

    /// Handles what came from the signaling server: messages go to the callback if it is set.
    pub fn receive(&self, incoming: Incoming) -> (action: Action)
        ensures
            action == match incoming {
                Incoming::Message(message) => if self.callback() is Some {
                    Action::Call { message }
                } else {
                    Action::Skip
                },
                Incoming::Undecodable => Action::Report,
            },
    {
        match incoming {
            Incoming::Message(message) => {
                if self.callback.is_some() {
                    Action::Call { message }
                } else {
                    Action::Skip
                }
            },
            Incoming::Undecodable => Action::Report,
        }
    }
}

/// What a call of `receive` returns: every message goes to the callback as it is, if one is set.
pub proof fn law_messages_reach_the_callback<C>(
    connection: SignalingConnection<C>,
    incoming: Incoming,
    action: Action,
    message: ServerMessage,
)
    requires
        call_ensures(SignalingConnection::<C>::receive, (&connection, incoming), action),
    ensures
        action == (Action::Call { message }) <==> incoming == Incoming::Message(message)
            && connection.callback() is Some,
        incoming is Message && connection.callback() is None ==> action == Action::Skip,
        incoming is Undecodable ==> action == Action::Report,
{
}

} // verus!
