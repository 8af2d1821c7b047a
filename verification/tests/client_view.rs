use multiplayer_fps::client_state::{NetEvent, SharedState};
use multiplayer_fps::input::{KeyState, MoveKey};
use multiplayer_fps::player::PlayerState;
use multiplayer_fps::protocol::{ClientPacket, ServerPacket};
use multiplayer_fps::server_state::{GameState, PeerAddr};

#[test]
fn new_state_is_disconnected_on_level_0() {
    let s = SharedState::new();
    assert!(!s.connected);
    assert_eq!(s.local_id, 0);
    assert!(s.players.is_empty());
    assert_eq!(s.map.id, 0);
    assert!(s.local_player().is_none());
}

#[test]
fn join_ack_connects_and_loads_level() {
    let mut s = SharedState::new();
    // a snapshot before the acknowledgement is dropped
    let ev = s.on_server_packet(ServerPacket::WorldState { seq: 1, players: vec![PlayerState::new(0, "x", 0, 0)] });
    assert!(matches!(ev, NetEvent::Ignored));
    assert!(s.players.is_empty());
    let ev = s.on_server_packet(ServerPacket::JoinAck { client_id: 4, map_id: 2 });
    assert!(matches!(ev, NetEvent::Joined));
    assert!(s.connected);
    assert_eq!(s.local_id, 4);
    assert_eq!(s.map.id, 2);
    assert_eq!(s.map.width, 32);
    // a second acknowledgement is ignored
    let ev = s.on_server_packet(ServerPacket::JoinAck { client_id: 7, map_id: 1 });
    assert!(matches!(ev, NetEvent::Ignored));
    assert_eq!(s.local_id, 4);
    assert_eq!(s.map.id, 2);
}

#[test]
fn world_state_replaces_players_and_finds_local() {
    let mut s = SharedState::new();
    s.on_server_packet(ServerPacket::JoinAck { client_id: 1, map_id: 0 });
    let players = vec![PlayerState::new(0, "a", 10, 11), PlayerState::new(1, "b", 12, 13), PlayerState::new(1, "c", 14, 15)];
    let ev = s.on_server_packet(ServerPacket::WorldState { seq: 9, players });
    assert!(matches!(ev, NetEvent::WorldUpdated));
    assert_eq!(s.players.len(), 3);
    let me = s.local_player().expect("local player present");
    assert_eq!(me.name_str(), "b");
    assert_eq!(me.x, 12);
    s.on_server_packet(ServerPacket::WorldState { seq: 10, players: vec![] });
    assert!(s.local_player().is_none());
}

#[test]
fn kicked_while_connecting_is_a_refusal() {
    let mut s = SharedState::new();
    match s.on_server_packet(ServerPacket::Kicked { reason: "server full".into() }) {
        NetEvent::Refused { reason } => assert_eq!(reason, "server full"),
        other => panic!("expected Refused, got {other:?}"),
    }
    assert!(!s.connected);
}

#[test]
fn kicked_while_connected() {
    let mut s = SharedState::new();
    s.on_server_packet(ServerPacket::JoinAck { client_id: 0, map_id: 0 });
    match s.on_server_packet(ServerPacket::Kicked { reason: "bye".into() }) {
        NetEvent::Kicked { reason } => assert_eq!(reason, "bye"),
        other => panic!("expected Kicked, got {other:?}"),
    }
    assert!(matches!(s.on_server_packet(ServerPacket::Pong { seq: 1 }), NetEvent::Ignored));
}

#[test]
fn keys_give_thrust_and_turn() {
    let mut k = KeyState::default();
    assert_eq!((k.thrust(), k.turn()), (0, 0));
    k.update(MoveKey::Forward, true);
    assert_eq!(k.thrust(), 1);
    k.update(MoveKey::Backward, true);
    assert_eq!(k.thrust(), 0);
    k.update(MoveKey::Forward, false);
    assert_eq!(k.thrust(), -1);
    k.update(MoveKey::TurnLeft, true);
    assert_eq!(k.turn(), -1);
    k.update(MoveKey::TurnRight, true);
    assert_eq!(k.turn(), 0);
    k.update(MoveKey::TurnLeft, false);
    assert_eq!(k.turn(), 1);
    assert!(k.backward && k.turn_right && !k.forward && !k.turn_left);
}

#[test]
fn server_ack_drives_the_client() {
    let mut gs = GameState::new(1);
    let addr = PeerAddr { ip: 1, port: 2, v6: true, flowinfo: 3, scope_id: 4 };
    let reply = gs.handle_packet(addr, 0, ClientPacket::Join { username: "Dora".into() }).unwrap();
    let mut s = SharedState::new();
    assert!(matches!(s.on_server_packet(reply), NetEvent::Joined));
    assert_eq!(s.map.id, 1);
    assert_eq!(s.map.width, 24);
    let snapshot = gs.world_state();
    assert!(matches!(s.on_server_packet(snapshot), NetEvent::WorldUpdated));
    assert_eq!(s.local_player().unwrap().name_str(), "Dora");
}
