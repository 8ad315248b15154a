//! The rules of a networked music ensemble: peers exchange audio directly over UDP, and a server
//! tells them about one another.

pub mod addr;
pub mod args;
pub mod le;
pub mod messages;
pub mod outbox;
pub mod output;
pub mod peer;
pub mod playback;
pub mod probe;
pub mod roster;
pub mod server;
pub mod server_connection;
pub mod signaling_connection;
pub mod signaling_messages;
pub mod signaling_server;
pub mod table;
pub mod wire;
