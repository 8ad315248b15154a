//! The messages between a peer and the signaling server.

use crate::addr::SocketAddr;
use vstd::prelude::*;

verus! {

/// Messages sent from the clients to the signaling server.
#[derive(Debug, PartialEq, Eq)]
pub enum ClientMessage {
    Alive,
    Bye,
    Hey { name: String, port: u16, sample_rate: u32 },
}

/// Messages sent from the signaling server to the clients.
#[derive(Clone, Copy, Debug, PartialEq, Eq)]
pub enum ServerMessage {
    Connected { addr: SocketAddr, sample_rate: u32 },
    Disconnected { addr: SocketAddr },
}

} // verus!
