use multiplayer_fps::constants::{MAX_CLIENTS, NANOS_PER_SEC};
use multiplayer_fps::map::level;
use multiplayer_fps::protocol::{ClientPacket, ServerPacket};
use multiplayer_fps::server_state::{GameState, PeerAddr};

fn peer(port: u16) -> PeerAddr {
    // 127.0.0.1
    PeerAddr { ip: 0x7f00_0001, port, v6: false, flowinfo: 0, scope_id: 0 }
}

fn join(gs: &mut GameState, port: u16, name: &str, now: u64) -> ServerPacket {
    gs.handle_packet(peer(port), now, ClientPacket::Join { username: name.into() }).expect("join gets a reply")
}

#[test]
fn join_receives_ack() {
    let mut gs = GameState::new(0);
    let reply = join(&mut gs, 5000, "Alice", 0);
    match reply {
        ServerPacket::JoinAck { client_id, map_id } => {
            assert_eq!(map_id, 0, "should start on level 0");
            println!("joined as client_id={client_id}");
        }
        other => panic!("expected JoinAck, got {other:?}"),
    }
}

#[test]
fn ping_receives_pong() {
    let mut gs = GameState::new(0);
    // Join first so the server knows us
    join(&mut gs, 5001, "Bob", 0);
    let reply = gs.handle_packet(peer(5001), 1, ClientPacket::Ping { seq: 42 });
    match reply {
        Some(ServerPacket::Pong { seq }) => assert_eq!(seq, 42),
        other => panic!("expected Pong, got {other:?}"),
    }
}

#[test]
fn two_clients_both_appear_in_world_state() {
    let mut gs = GameState::new(0);
    join(&mut gs, 5002, "Alice", 0);
    join(&mut gs, 5003, "Bob", 0);
    gs.tick(NANOS_PER_SEC / 60);
    match gs.world_state() {
        ServerPacket::WorldState { players, .. } => {
            assert_eq!(players.len(), 2, "expected 2 players, got {}", players.len());
            let names: Vec<&str> = players.iter().map(|p| p.name_str()).collect();
            println!("players in world: {names:?}");
            assert!(names.contains(&"Alice"));
            assert!(names.contains(&"Bob"));
        }
        other => panic!("expected WorldState, got {other:?}"),
    }
}

#[test]
fn server_rejects_when_full() {
    let mut gs = GameState::new(0);
    for i in 0..MAX_CLIENTS {
        let reply = join(&mut gs, 6000 + i as u16, &format!("player{i}"), 0);
        assert!(matches!(reply, ServerPacket::JoinAck { .. }));
    }
    // One more — should be kicked
    let reply = join(&mut gs, 7000, "overflow", 0);
    match reply {
        ServerPacket::Kicked { reason } => {
            println!("correctly kicked: {reason}");
            assert_eq!(reason, "server full");
        }
        other => panic!("expected Kicked, got {other:?}"),
    }
    assert_eq!(gs.sessions().len(), MAX_CLIENTS);
}

#[test]
fn ids_are_assigned_in_order_and_spawns_round_robin() {
    let mut gs = GameState::new(0);
    let spawns = level(0).spawn_points;
    for i in 0..6u16 {
        assert_eq!(gs.add_client(peer(100 + i), "p", 0), Some((i as u8, 0)));
    }
    for (i, s) in gs.sessions().iter().enumerate() {
        assert_eq!(s.player.id, i as u8);
        assert_eq!((s.player.x, s.player.y), spawns[i % spawns.len()]);
        assert_eq!(s.player.angle, 0);
    }
}

#[test]
fn rejoin_keeps_id_and_session() {
    let mut gs = GameState::new(1);
    assert_eq!(gs.add_client(peer(1), "Alice", 10), Some((0, 1)));
    assert_eq!(gs.add_client(peer(2), "Bob", 10), Some((1, 1)));
    assert_eq!(gs.add_client(peer(1), "Alice again", 20), Some((0, 1)));
    assert_eq!(gs.sessions().len(), 2);
    assert_eq!(gs.sessions()[0].last_seen, 20);
    assert_eq!(gs.sessions()[0].player.name_str(), "Alice");
    // the next new client still gets the next id
    assert_eq!(gs.add_client(peer(3), "Carol", 30), Some((2, 1)));
}

#[test]
fn full_server_still_accepts_known_client() {
    let mut gs = GameState::new(0);
    for i in 0..MAX_CLIENTS as u16 {
        gs.add_client(peer(i), "x", 0);
    }
    assert_eq!(gs.add_client(peer(999), "late", 0), None);
    assert_eq!(gs.add_client(peer(3), "x", 5), Some((3, 0)));
}

#[test]
fn ids_wrap_after_255() {
    let mut gs = GameState::new(0);
    for i in 0..256u32 {
        let addr = peer(i as u16);
        assert_eq!(gs.add_client(addr, "x", 0), Some((i as u8, 0)));
        gs.remove_client(addr);
    }
    assert_eq!(gs.add_client(peer(4000), "x", 0), Some((0, 0)));
}

#[test]
fn stale_input_is_ignored() {
    let mut gs = GameState::new(0);
    gs.add_client(peer(1), "a", 0);
    gs.update_input(peer(1), 5, 1.0f32.to_bits(), 2.0f32.to_bits(), 3.0f32.to_bits(), 100);
    let p = gs.sessions()[0].pending;
    assert_eq!((p.seq, p.dx, p.dy, p.da), (5, 1.0f32.to_bits(), 2.0f32.to_bits(), 3.0f32.to_bits()));
    // older sequence: pending kept, but the client is marked seen
    gs.update_input(peer(1), 4, 0, 0, 0, 200);
    let s = gs.sessions()[0];
    assert_eq!(s.pending.seq, 5);
    assert_eq!(s.pending.dx, 1.0f32.to_bits());
    assert_eq!(s.last_seen, 200);
    // same sequence is accepted
    gs.update_input(peer(1), 5, 7, 8, 9, 300);
    assert_eq!(gs.sessions()[0].pending.dx, 7);
    // unknown client: nothing happens
    gs.handle_packet(peer(2), 400, ClientPacket::Input { seq: 9, dx: 1, dy: 1, da: 1 });
    assert_eq!(gs.sessions().len(), 1);
    assert_eq!(gs.sessions()[0].last_seen, 300);
}

#[test]
fn disconnect_removes_only_that_client() {
    let mut gs = GameState::new(0);
    join(&mut gs, 1, "a", 0);
    join(&mut gs, 2, "b", 0);
    join(&mut gs, 3, "c", 0);
    assert!(gs.handle_packet(peer(2), 1, ClientPacket::Disconnect).is_none());
    let names: Vec<&str> = gs.sessions().iter().map(|s| s.player.name_str()).collect();
    assert_eq!(names, vec!["a", "c"]);
    // disconnecting an unknown client changes nothing
    gs.remove_client(peer(77));
    assert_eq!(gs.sessions().len(), 2);
}

#[test]
fn tick_drops_silent_clients_and_counts() {
    let mut gs = GameState::new(0);
    gs.add_client(peer(1), "old", 0);
    gs.add_client(peer(2), "new", 3 * NANOS_PER_SEC);
    // 4.999 s after the first join: both stay
    gs.tick(5 * NANOS_PER_SEC - 1);
    assert_eq!(gs.sessions().len(), 2);
    // silent for exactly 5 s: still kept
    gs.tick(5 * NANOS_PER_SEC);
    assert_eq!(gs.sessions().len(), 2);
    // silent for more than 5 s: the first is dropped
    gs.tick(5 * NANOS_PER_SEC + 1);
    assert_eq!(gs.sessions().len(), 1);
    assert_eq!(gs.sessions()[0].player.name_str(), "new");
    match gs.world_state() {
        ServerPacket::WorldState { seq, players } => {
            assert_eq!(seq, 3);
            assert_eq!(players.len(), 1);
        }
        other => panic!("expected WorldState, got {other:?}"),
    }
    // a clock that went backwards counts as no time at all
    gs.tick(0);
    assert_eq!(gs.sessions().len(), 1);
}

#[test]
fn move_player_sets_pose() {
    let mut gs = GameState::new(0);
    gs.add_client(peer(1), "a", 0);
    gs.move_player(0, 2.5f32.to_bits(), 3.5f32.to_bits(), 0.25f32.to_bits());
    let p = gs.sessions()[0].player;
    assert_eq!((f32::from_bits(p.x), f32::from_bits(p.y), f32::from_bits(p.angle)), (2.5, 3.5, 0.25));
    assert_eq!(p.name_str(), "a");
}

#[test]
fn map_is_the_requested_level() {
    let gs = GameState::new(2);
    assert_eq!(gs.map().id, 2);
    assert_eq!(gs.map().width, 32);
}

#[test]
fn ids_stay_distinct_and_are_not_reused() {
    let mut gs = GameState::new(0);
    for port in 1..=5u16 {
        gs.add_client(peer(port), "p", 0);
    }
    // two clients leave
    gs.remove_client(peer(2));
    gs.remove_client(peer(4));
    gs.add_client(peer(6), "q", 0);
    gs.add_client(peer(7), "r", 0);
    let ids: Vec<u8> = gs.sessions().iter().map(|s| s.player.id).collect();
    assert_eq!(ids, vec![0, 2, 4, 5, 6]);
    let mut sorted = ids.clone();
    sorted.dedup();
    assert_eq!(sorted.len(), ids.len());
    // a returning address after leaving is a new client with a new id
    let r = gs.add_client(peer(2), "p", 0);
    assert_eq!(r, Some((7, 0)));
}
