//! The packets exchanged over UDP. Single-precision values travel as their
//! IEEE-754 bit patterns.
use vstd::prelude::*;

use crate::player::PlayerState;

verus! {

/// Client to server.
#[derive(Debug, Clone)]
pub enum ClientPacket {
    /// First packet sent after connecting. The server replies with `JoinAck`.
    Join { username: String },
    /// Per-frame movement intent: `dx`/`dy` in tiles per second, `da` in
    /// radians per second. `seq` lets the server discard out-of-order packets.
    Input { seq: u32, dx: u32, dy: u32, da: u32 },
    Ping { seq: u32 },
    Disconnect,
}

/// Server to client.
#[derive(Debug, Clone)]
pub enum ServerPacket {
    /// Sent in response to `Join`: the assigned id and the level to load.
    JoinAck { client_id: u8, map_id: u8 },
    /// Broadcast every tick with all active players.
    WorldState { seq: u32, players: Vec<PlayerState> },
    Pong { seq: u32 },
    Kicked { reason: String },
}

} // verus!
