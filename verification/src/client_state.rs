//! The client's view of the game, shared between the render loop and the
//! network thread, and what each server packet does to it.
use vstd::prelude::*;

use crate::map::{is_level, level, MazeMap, LEVEL_COUNT};
use crate::player::PlayerState;
use crate::protocol::ServerPacket;

verus! {

/// Game state shared between the render loop and the network thread.
pub struct SharedState {
    pub local_id: u8,
    /// Every player, the local one included.
    pub players: Vec<PlayerState>,
    pub map: MazeMap,
    pub connected: bool,
}

/// What the network thread does after a server packet.
#[derive(Debug)]
pub enum NetEvent {
    /// The join was acknowledged: the client is now connected.
    Joined,
    /// A world snapshot replaced the player list.
    WorldUpdated,
    /// The packet does not apply in the current phase and was dropped.
    Ignored,
    /// The server refused the join; the client gives up.
    Refused { reason: String },
    /// The server kicked the connected client; the client gives up.
    Kicked { reason: String },
}

/// Position of the first player with id `id`, or the length when none has it.
pub open spec fn first_with_id(players: Seq<PlayerState>, id: u8) -> int
    decreases players.len(),
{
    if players.len() == 0 {
        0
    } else if players[0].id == id {
        0
    } else {
        1 + first_with_id(players.drop_first(), id)
    }
}

/// `first_with_id` is the first position holding the id, or the length.
pub proof fn lemma_first_with_id(players: Seq<PlayerState>, id: u8)
    ensures
        0 <= first_with_id(players, id) <= players.len(),
        first_with_id(players, id) < players.len() ==> players[first_with_id(players, id)].id == id,
        forall|j: int| 0 <= j < first_with_id(players, id) ==> players[j].id != id,
    decreases players.len(),
{
    if players.len() > 0 && players[0].id != id {
        lemma_first_with_id(players.drop_first(), id);
        assert forall|j: int| 0 <= j < first_with_id(players, id) implies players[j].id != id by {
            if j > 0 {
                assert(players[j] == players.drop_first()[j - 1]);
            }
        }
    }
}

/// A server packet that the client can act on without failing: an
/// acknowledgement received while connecting names a known level.
pub open spec fn acceptable(connected: bool, pkt: ServerPacket) -> bool {
    !connected ==> (pkt matches ServerPacket::JoinAck { map_id, .. } ==> map_id < LEVEL_COUNT)
}

impl SharedState {
    /// Not yet connected: id 0, no players, level 0.
    pub fn new() -> (s: SharedState)
        ensures
            s.local_id == 0,
            s.players@.len() == 0,
            is_level(s.map, 0),
            s.map.valid(),
            !s.connected,
    {
        SharedState { local_id: 0, players: Vec::new(), map: level(0), connected: false }
    }

    /// The first player whose id is the local id, if any.
    pub fn local_player(&self) -> (p: Option<&PlayerState>)
        ensures
            first_with_id(self.players@, self.local_id) < self.players@.len() ==> p == Some(
                &self.players@[first_with_id(self.players@, self.local_id)],
            ),
            first_with_id(self.players@, self.local_id) == self.players@.len() ==> p is None,
    {
        proof {
            lemma_first_with_id(self.players@, self.local_id);
        }
        let mut i: usize = 0;
        while i < self.players.len()
            invariant
                i <= self.players@.len(),
                i <= first_with_id(self.players@, self.local_id),
                0 <= first_with_id(self.players@, self.local_id) <= self.players@.len(),
                first_with_id(self.players@, self.local_id) < self.players@.len() ==> self.players@[first_with_id(self.players@, self.local_id)].id == self.local_id,
                forall|j: int| 0 <= j < first_with_id(self.players@, self.local_id) ==> self.players@[j].id != self.local_id,
            decreases self.players@.len() - i,
        {
            if self.players[i].id == self.local_id {
                return Some(&self.players[i]);
            }
            i += 1;
        }
        None
    }

    /// Applies a server packet. While connecting, an acknowledgement sets the
    /// local id, loads the level and connects, and a kick is a refusal; once
    /// connected, a world snapshot replaces the player list and a kick ends
    /// the game. Every other packet is ignored.
    pub fn on_server_packet(&mut self, pkt: ServerPacket) -> (ev: NetEvent)
        requires
            acceptable(old(self).connected, pkt),
        ensures
            match pkt {
                ServerPacket::JoinAck { client_id, map_id } => if !old(self).connected {
                    &&& ev is Joined
                    &&& final(self).local_id == client_id
                    &&& is_level(final(self).map, map_id)
                    &&& final(self).map.valid()
                    &&& final(self).connected
                    &&& final(self).players@ == old(self).players@
                } else {
                    ev is Ignored && *final(self) == *old(self)
                },
                ServerPacket::WorldState { seq, players } => if old(self).connected {
                    &&& ev is WorldUpdated
                    &&& final(self).players@ == players@
                    &&& final(self).local_id == old(self).local_id
                    &&& final(self).map == old(self).map
                    &&& final(self).connected
                } else {
                    ev is Ignored && *final(self) == *old(self)
                },
                ServerPacket::Kicked { reason } => {
                    &&& *final(self) == *old(self)
                    &&& if old(self).connected {
                        ev matches NetEvent::Kicked { reason: r } && r@ == reason@
                    } else {
                        ev matches NetEvent::Refused { reason: r } && r@ == reason@
                    }
                },
                ServerPacket::Pong { .. } => ev is Ignored && *final(self) == *old(self),
            },
    {
        match pkt {
            ServerPacket::JoinAck { client_id, map_id } => {
                if self.connected {
                    NetEvent::Ignored
                } else {
                    self.local_id = client_id;
                    self.map = level(map_id);
                    self.connected = true;
                    NetEvent::Joined
                }
            },
            ServerPacket::WorldState { seq: _, players } => {
                if self.connected {
                    self.players = players;
                    NetEvent::WorldUpdated
                } else {
                    NetEvent::Ignored
                }
            },
            ServerPacket::Kicked { reason } => {
                if self.connected {
                    NetEvent::Kicked { reason }
                } else {
                    NetEvent::Refused { reason }
                }
            },
            ServerPacket::Pong { .. } => NetEvent::Ignored,
        }
    }
}

} // verus!
