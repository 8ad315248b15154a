//! The messages between a peer and the server.

use crate::addr::SocketAddr;
use vstd::prelude::*;

verus! {

/// Messages sent from the clients to the server.
#[derive(Clone, Copy, Debug, PartialEq, Eq, Structural)]
pub enum ClientMessage {
    Alive,
    Bye,
    Hey { sample_rate: u32 },
}

/// Messages sent from the server to the clients.
#[derive(Clone, Copy, Debug, PartialEq, Eq)]
pub enum ServerMessage {
    Entered { addr: SocketAddr, sample_rate: u32 },
    Left { addr: SocketAddr },
    RequestAudioAddress { key: u64 },
    SuccessfullyEntered,
}

} // verus!
