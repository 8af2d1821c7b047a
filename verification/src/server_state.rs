//! The server's authoritative game state: the table of client sessions, their
//! last inputs, and the tick that drops silent clients.
use vstd::prelude::*;
use vstd::string::StringSliceAdditionalSpecFns;
use vstd::utf8::encode_utf8;

use crate::constants::{CLIENT_TIMEOUT_SECS, MAX_CLIENTS, NANOS_PER_SEC};
use crate::map::{is_level, level, MazeMap, LEVEL_COUNT};
use crate::player::{packed_name, PlayerState};
use crate::client_state::acceptable;
use crate::protocol::{ClientPacket, ServerPacket};

verus! {

/// A client's UDP address as plain values: the IP address as a 128-bit number
/// (an IPv4 address in its low 32 bits when `v6` is false), the port, and for
/// IPv6 the flow information and scope id.
#[derive(Debug, Clone, Copy, PartialEq, Eq, Hash, Structural)]
pub struct PeerAddr {
    pub ip: u128,
    pub port: u16,
    pub v6: bool,
    pub flowinfo: u32,
    pub scope_id: u32,
}

/// Last movement intent received from a client, kept between ticks so the
/// player keeps moving under packet loss. The client sends zero velocities
/// when no key is held. Velocities are single-precision bit patterns.
#[derive(Debug, Clone, Copy)]
pub struct PendingInput {
    pub seq: u32,
    pub dx: u32,
    pub dy: u32,
    pub da: u32,
}

/// The input of a client that has sent none yet: sequence 0, no movement.
pub open spec fn no_input() -> PendingInput {
    PendingInput { seq: 0, dx: 0, dy: 0, da: 0 }
}

impl Default for PendingInput {
    fn default() -> (p: PendingInput)
        ensures
            p == no_input(),
    {
        PendingInput { seq: 0, dx: 0, dy: 0, da: 0 }
    }
}

/// One connected client. `last_seen` is the time, in nanoseconds on the
/// server's clock, of the client's last join or input.
#[derive(Debug, Clone, Copy)]
pub struct Session {
    pub addr: PeerAddr,
    pub player: PlayerState,
    pub last_seen: u64,
    pub pending: PendingInput,
}

/// The abstract state of the server: its sessions in order of arrival, the
/// id the next new client gets, the tick counter, the level played, and how
/// many ids have been handed out so far.
pub struct ServerView {
    pub sessions: Seq<Session>,
    pub next_id: u8,
    pub seq: u32,
    pub map: MazeMap,
    pub issued: nat,
}

/// Some session belongs to `addr`.
pub open spec fn has_addr(s: Seq<Session>, addr: PeerAddr) -> bool {
    exists|i: int| 0 <= i < s.len() && #[trigger] s[i].addr == addr
}

/// The position of the session of `addr` (meaningful when there is one).
pub open spec fn addr_index(s: Seq<Session>, addr: PeerAddr) -> int {
    choose|i: int| 0 <= i < s.len() && #[trigger] s[i].addr == addr
}

/// No two sessions share an address.
pub open spec fn unique_addrs(s: Seq<Session>) -> bool {
    forall|i: int, j: int|
        0 <= i < s.len() && 0 <= j < s.len() && i != j ==> #[trigger] s[i].addr != #[trigger] s[j].addr
}

/// No two sessions' players share an id.
pub open spec fn distinct_ids(s: Seq<Session>) -> bool {
    forall|i: int, j: int|
        0 <= i < s.len() && 0 <= j < s.len() && i != j ==> #[trigger] s[i].player.id
            != #[trigger] s[j].player.id
}

/// Every session's player id is below `n`.
pub open spec fn ids_below(s: Seq<Session>, n: nat) -> bool {
    forall|i: int| 0 <= i < s.len() ==> (#[trigger] s[i]).player.id < n
}

/// The session table of a server that has handed out `issued` ids: one
/// session per address, and, as long as the id counter has not wrapped
/// (at most 256 ids handed out), distinct ids, all among those handed out.
pub open spec fn table_ok(s: Seq<Session>, issued: nat) -> bool {
    &&& unique_addrs(s)
    &&& issued <= 256 ==> distinct_ids(s) && ids_below(s, issued)
}

/// What the server always keeps: the session table is in order, there are
/// never more than `MAX_CLIENTS` sessions, and the next id is the number of
/// ids handed out, modulo 256.
pub open spec fn server_inv(v: ServerView) -> bool {
    &&& table_ok(v.sessions, v.issued)
    &&& v.sessions.len() <= MAX_CLIENTS
    &&& v.next_id == v.issued % 256
}

/// Changing a session without changing its address or its player's id keeps
/// the table in order.
pub proof fn lemma_update_keeps(s: Seq<Session>, i: int, x: Session, issued: nat)
    requires
        table_ok(s, issued),
        0 <= i < s.len(),
        x.addr == s[i].addr,
        x.player.id == s[i].player.id,
    ensures
        table_ok(s.update(i, x), issued),
{
    let t = s.update(i, x);
    assert forall|a: int, b: int| 0 <= a < t.len() && 0 <= b < t.len() && a != b implies #[trigger] t[a].addr
        != #[trigger] t[b].addr by {
        assert(t[a].addr == s[a].addr && t[b].addr == s[b].addr);
    }
    if issued <= 256 {
        assert forall|a: int, b: int|
            0 <= a < t.len() && 0 <= b < t.len() && a != b implies #[trigger] t[a].player.id
            != #[trigger] t[b].player.id by {
            assert(t[a].player.id == s[a].player.id && t[b].player.id == s[b].player.id);
        }
        assert forall|a: int| 0 <= a < t.len() implies (#[trigger] t[a]).player.id < issued by {
            assert(t[a].player.id == s[a].player.id);
        }
    }
}

/// Removing a session keeps the table in order.
pub proof fn lemma_remove_keeps(s: Seq<Session>, i: int, issued: nat)
    requires
        table_ok(s, issued),
        0 <= i < s.len(),
    ensures
        table_ok(s.remove(i), issued),
{
    let t = s.remove(i);
    assert forall|a: int, b: int| 0 <= a < t.len() && 0 <= b < t.len() && a != b implies #[trigger] t[a].addr
        != #[trigger] t[b].addr by {
        let pa = if a < i { a } else { a + 1 };
        let pb = if b < i { b } else { b + 1 };
        assert(t[a] == s[pa] && t[b] == s[pb]);
    }
    if issued <= 256 {
        assert forall|a: int, b: int|
            0 <= a < t.len() && 0 <= b < t.len() && a != b implies #[trigger] t[a].player.id
            != #[trigger] t[b].player.id by {
            let pa = if a < i { a } else { a + 1 };
            let pb = if b < i { b } else { b + 1 };
            assert(t[a] == s[pa] && t[b] == s[pb]);
        }
        assert forall|a: int| 0 <= a < t.len() implies (#[trigger] t[a]).player.id < issued by {
            let pa = if a < i { a } else { a + 1 };
            assert(t[a] == s[pa]);
        }
    }
}

/// Appending the session of a new address whose player gets the next id
/// keeps the table in order, with one more id handed out.
pub proof fn lemma_push_keeps(s: Seq<Session>, x: Session, issued: nat)
    requires
        table_ok(s, issued),
        !has_addr(s, x.addr),
        issued < 256 ==> x.player.id == issued,
    ensures
        table_ok(s.push(x), issued + 1),
{
    let t = s.push(x);
    let n = s.len() as int;
    assert forall|a: int, b: int| 0 <= a < t.len() && 0 <= b < t.len() && a != b implies #[trigger] t[a].addr
        != #[trigger] t[b].addr by {
        if a == n {
            assert(s[b].addr == t[b].addr);
        } else if b == n {
            assert(s[a].addr == t[a].addr);
        } else {
            assert(t[a] == s[a] && t[b] == s[b]);
        }
    }
    if issued + 1 <= 256 {
        assert forall|a: int, b: int|
            0 <= a < t.len() && 0 <= b < t.len() && a != b implies #[trigger] t[a].player.id
            != #[trigger] t[b].player.id by {
            if a == n {
                assert(s[b].player.id < issued);
            } else if b == n {
                assert(s[a].player.id < issued);
            } else {
                assert(t[a] == s[a] && t[b] == s[b]);
            }
        }
        assert forall|a: int| 0 <= a < t.len() implies (#[trigger] t[a]).player.id < issued + 1 by {
            if a < n {
                assert(t[a] == s[a]);
            }
        }
    }
}

/// The session with its last-seen time set to `now`.
pub open spec fn touched(s: Session, now: u64) -> Session {
    Session { last_seen: now, ..s }
}

/// Nanoseconds since the session was last seen (zero if `now` is earlier).
pub open spec fn silent_nanos(s: Session, now: u64) -> int {
    if now >= s.last_seen {
        now - s.last_seen
    } else {
        0
    }
}

/// A session heard from within the timeout: silent for at most
/// `CLIENT_TIMEOUT_SECS` seconds.
pub open spec fn is_fresh(s: Session, now: u64) -> bool {
    silent_nanos(s, now) <= CLIENT_TIMEOUT_SECS * NANOS_PER_SEC
}

/// The fresh sessions, in their order.
pub open spec fn live(s: Seq<Session>, now: u64) -> Seq<Session>
    decreases s.len(),
{
    if s.len() == 0 {
        Seq::empty()
    } else {
        let rest = live(s.drop_last(), now);
        if is_fresh(s.last(), now) {
            rest.push(s.last())
        } else {
            rest
        }
    }
}

/// The id after `id`, wrapping from 255 to 0.
pub open spec fn next_id_after(id: u8) -> u8 {
    if id == 255 {
        0
    } else {
        (id + 1) as u8
    }
}

/// The counter after `seq`, wrapping from `u32::MAX` to 0.
pub open spec fn next_seq_after(seq: u32) -> u32 {
    if seq == u32::MAX {
        0
    } else {
        (seq + 1) as u32
    }
}

/// `s` is the session of a newly joined client: player `id` named by the
/// UTF-8 bytes `name`, standing at `spawn` facing angle 0, seen at `now`, with
/// no input yet.
pub open spec fn spawned(
    s: Session,
    addr: PeerAddr,
    id: u8,
    name: Seq<u8>,
    spawn: (u32, u32),
    now: u64,
) -> bool {
    &&& s.addr == addr
    &&& s.player.id == id
    &&& s.player.name@ == packed_name(name)
    &&& s.player.x == spawn.0
    &&& s.player.y == spawn.1
    &&& s.player.angle == 0
    &&& s.last_seen == now
    &&& s.pending == no_input()
}

/// A join request of `addr` named `name` at `now` takes the server from `pre`
/// to `post` and answers `res` (the client's id and the map id, or `None`).
/// A known address keeps its session and id and is marked seen; a full
/// server refuses and stays as it was; otherwise a session is appended with
/// the next id, at the spawn point chosen round-robin by the number of
/// sessions.
pub open spec fn join_step(
    pre: ServerView,
    post: ServerView,
    res: Option<(u8, u8)>,
    map_id: u8,
    spawns: Seq<(u32, u32)>,
    addr: PeerAddr,
    name: Seq<u8>,
    now: u64,
) -> bool {
    if has_addr(pre.sessions, addr) {
        let i = addr_index(pre.sessions, addr);
        &&& post.sessions == pre.sessions.update(i, touched(pre.sessions[i], now))
        &&& post.next_id == pre.next_id
        &&& post.seq == pre.seq
        &&& post.map == pre.map
        &&& post.issued == pre.issued
        &&& res == Some((pre.sessions[i].player.id, map_id))
    } else if pre.sessions.len() >= MAX_CLIENTS {
        &&& post == pre
        &&& res is None
    } else {
        let n = pre.sessions.len();
        &&& post.sessions.len() == n + 1
        &&& post.sessions.drop_last() == pre.sessions
        &&& spawned(post.sessions.last(), addr, pre.next_id, name, spawns[(n % spawns.len()) as int], now)
        &&& post.next_id == next_id_after(pre.next_id)
        &&& post.seq == pre.seq
        &&& post.map == pre.map
        &&& post.issued == pre.issued + 1
        &&& res == Some((pre.next_id, map_id))
    }
}

/// The session after an input packet `(seq, dx, dy, da)` at `now`: it is
/// marked seen, and the input replaces the pending one unless it is older.
pub open spec fn with_input(s: Session, seq: u32, dx: u32, dy: u32, da: u32, now: u64) -> Session {
    if seq >= s.pending.seq {
        Session { last_seen: now, pending: PendingInput { seq, dx, dy, da }, ..s }
    } else {
        touched(s, now)
    }
}

/// The server after an input packet from `addr`; unknown addresses are ignored.
pub open spec fn after_input(
    pre: ServerView,
    addr: PeerAddr,
    seq: u32,
    dx: u32,
    dy: u32,
    da: u32,
    now: u64,
) -> ServerView {
    if has_addr(pre.sessions, addr) {
        let i = addr_index(pre.sessions, addr);
        ServerView {
            sessions: pre.sessions.update(i, with_input(pre.sessions[i], seq, dx, dy, da, now)),
            ..pre
        }
    } else {
        pre
    }
}

/// The server after `addr` leaves: its session is removed, the others keep
/// their order.
pub open spec fn after_leave(pre: ServerView, addr: PeerAddr) -> ServerView {
    if has_addr(pre.sessions, addr) {
        ServerView { sessions: pre.sessions.remove(addr_index(pre.sessions, addr)), ..pre }
    } else {
        pre
    }
}

/// The server after a tick at `now`: silent clients are dropped and the tick
/// counter advances.
pub open spec fn after_tick(pre: ServerView, now: u64) -> ServerView {
    ServerView { sessions: live(pre.sessions, now), seq: next_seq_after(pre.seq), ..pre }
}

/// The players of the sessions, in order.
pub open spec fn players_of(s: Seq<Session>) -> Seq<PlayerState> {
    s.map_values(|x: Session| x.player)
}

/// The join result that a reply to a join request stands for.
pub open spec fn join_result(reply: Option<ServerPacket>) -> Option<(u8, u8)> {
    match reply {
        Some(ServerPacket::JoinAck { client_id, map_id }) => Some((client_id, map_id)),
        _ => None,
    }
}

/// The authoritative game state.
pub struct GameState {
    sessions: Vec<Session>,
    map: MazeMap,
    next_id: u8,
    seq: u32,
    issued: Ghost<nat>,
}

impl View for GameState {
    type V = ServerView;

    closed spec fn view(&self) -> ServerView {
        ServerView {
            sessions: self.sessions@,
            next_id: self.next_id,
            seq: self.seq,
            map: self.map,
            issued: self.issued@,
        }
    }
}

/// A tick keeps the table in order.
proof fn lemma_live_keeps(s: Seq<Session>, now: u64, issued: nat)
    requires
        table_ok(s, issued),
    ensures
        table_ok(live(s, now), issued),
{
    lemma_live(s, now);
    let t = live(s, now);
    if issued <= 256 {
        assert forall|a: int| 0 <= a < t.len() implies (#[trigger] t[a]).player.id < issued by {
            assert(t.contains(t[a]));
            let k = choose|k: int| 0 <= k < s.len() && s[k] == t[a];
            assert(s[k].player.id < issued);
        }
    }
}

/// Facts about the fresh sessions: they are exactly the sessions that are
/// fresh, there are no more of them, and they keep addresses distinct.
proof fn lemma_live(s: Seq<Session>, now: u64)
    ensures
        live(s, now).len() <= s.len(),
        forall|x: Session| #[trigger] live(s, now).contains(x) <==> s.contains(x) && is_fresh(x, now),
        unique_addrs(s) ==> unique_addrs(live(s, now)),
        distinct_ids(s) ==> distinct_ids(live(s, now)),
    decreases s.len(),
{
    if s.len() > 0 {
        let init = s.drop_last();
        lemma_live(init, now);
        let rest = live(init, now);
        let out = live(s, now);
        assert forall|x: Session| #[trigger] out.contains(x) implies s.contains(x) && is_fresh(x, now) by {
            let j = choose|j: int| 0 <= j < out.len() && out[j] == x;
            if j < rest.len() {
                assert(out[j] == rest[j]);
                assert(rest.contains(x));
                let k = choose|k: int| 0 <= k < init.len() && init[k] == x;
                assert(s[k] == x);
            } else {
                assert(s[s.len() - 1] == x);
            }
        }
        assert forall|x: Session| s.contains(x) && is_fresh(x, now) implies #[trigger] out.contains(x) by {
            let k = choose|k: int| 0 <= k < s.len() && s[k] == x;
            if k < s.len() - 1 {
                assert(init[k] == x);
                assert(init.contains(x));
                assert(rest.contains(x));
                let j = choose|j: int| 0 <= j < rest.len() && rest[j] == x;
                assert(out[j] == x);
            } else {
                assert(out[out.len() - 1] == x);
            }
        }
        if unique_addrs(s) {
            assert(unique_addrs(init)) by {
                assert forall|i: int, j: int|
                    0 <= i < init.len() && 0 <= j < init.len() && i != j implies #[trigger] init[i].addr
                    != #[trigger] init[j].addr by {
                    assert(init[i] == s[i] && init[j] == s[j]);
                }
            }
            if is_fresh(s.last(), now) {
                let out = live(s, now);
                assert forall|i: int, j: int|
                    0 <= i < out.len() && 0 <= j < out.len() && i != j implies #[trigger] out[i].addr
                    != #[trigger] out[j].addr by {
                    if i < rest.len() && j < rest.len() {
                    } else {
                        let k = if i < rest.len() {
                            i
                        } else {
                            j
                        };
                        if k < rest.len() {
                            assert(rest.contains(rest[k]));
                            let m = choose|m: int| 0 <= m < init.len() && init[m] == rest[k];
                            assert(s[m] == rest[k]);
                            assert(s[s.len() - 1] == s.last());
                        }
                    }
                }
            }
        }
        if distinct_ids(s) {
            assert(distinct_ids(init)) by {
                assert forall|i: int, j: int|
                    0 <= i < init.len() && 0 <= j < init.len() && i != j implies #[trigger] init[i].player.id
                    != #[trigger] init[j].player.id by {
                    assert(init[i] == s[i] && init[j] == s[j]);
                }
            }
            if is_fresh(s.last(), now) {
                let out = live(s, now);
                assert forall|i: int, j: int|
                    0 <= i < out.len() && 0 <= j < out.len() && i != j implies #[trigger] out[i].player.id
                    != #[trigger] out[j].player.id by {
                    if i < rest.len() && j < rest.len() {
                    } else {
                        let k = if i < rest.len() {
                            i
                        } else {
                            j
                        };
                        if k < rest.len() {
                            assert(rest.contains(rest[k]));
                            let m = choose|m: int| 0 <= m < init.len() && init[m] == rest[k];
                            assert(s[m] == rest[k]);
                            assert(s[s.len() - 1] == s.last());
                        }
                    }
                }
            }
        }
    }
}


/// A join keeps the server invariant.
pub proof fn lemma_join_keeps_inv(
    pre: ServerView,
    post: ServerView,
    res: Option<(u8, u8)>,
    map_id: u8,
    spawns: Seq<(u32, u32)>,
    addr: PeerAddr,
    name: Seq<u8>,
    now: u64,
)
    requires
        server_inv(pre),
        join_step(pre, post, res, map_id, spawns, addr, name, now),
    ensures
        server_inv(post),
        has_addr(post.sessions, addr) == (res is Some),
{
    let s = post.sessions;
    if has_addr(pre.sessions, addr) {
        let i = addr_index(pre.sessions, addr);
        lemma_update_keeps(pre.sessions, i, touched(pre.sessions[i], now), pre.issued);
        assert(s[i].addr == addr);
    } else if pre.sessions.len() < MAX_CLIENTS {
        let n = pre.sessions.len() as int;
        assert(s =~= pre.sessions.push(s.last()));
        lemma_push_keeps(pre.sessions, s.last(), pre.issued);
        assert(s[n].addr == addr);
    }
}

/// Reconnecting keeps the id: once a client has joined, joining again from
/// the same address answers the same id and map and adds no session.
pub proof fn lemma_rejoin_same_id(
    v0: ServerView,
    v1: ServerView,
    v2: ServerView,
    r1: Option<(u8, u8)>,
    r2: Option<(u8, u8)>,
    map_id: u8,
    spawns: Seq<(u32, u32)>,
    addr: PeerAddr,
    name1: Seq<u8>,
    name2: Seq<u8>,
    now1: u64,
    now2: u64,
)
    requires
        server_inv(v0),
        join_step(v0, v1, r1, map_id, spawns, addr, name1, now1),
        r1 is Some,
        join_step(v1, v2, r2, map_id, spawns, addr, name2, now2),
    ensures
        r2 == r1,
        v2.sessions.len() == v1.sessions.len(),
        v2.next_id == v1.next_id,
{
    lemma_join_keeps_inv(v0, v1, r1, map_id, spawns, addr, name1, now1);
    let s1 = v1.sessions;
    let i = addr_index(s1, addr);
    if has_addr(v0.sessions, addr) {
        let k = addr_index(v0.sessions, addr);
        assert(s1[k].addr == addr);
        assert(i == k);
    } else {
        let n = v0.sessions.len() as int;
        assert(s1[n].addr == addr);
        assert(i == n);
    }
}

/// A full server refuses a new address and stays as it was.
pub proof fn lemma_full_server_refuses(
    pre: ServerView,
    post: ServerView,
    res: Option<(u8, u8)>,
    map_id: u8,
    spawns: Seq<(u32, u32)>,
    addr: PeerAddr,
    name: Seq<u8>,
    now: u64,
)
    requires
        server_inv(pre),
        pre.sessions.len() == MAX_CLIENTS,
        !has_addr(pre.sessions, addr),
        join_step(pre, post, res, map_id, spawns, addr, name, now),
    ensures
        res is None,
        post == pre,
{
}

/// Leaving removes exactly the leaving client: afterwards no session has its
/// address, and every other address is present exactly when it was before.
pub proof fn lemma_leave_removes(pre: ServerView, addr: PeerAddr, other: PeerAddr)
    requires
        server_inv(pre),
    ensures
        server_inv(after_leave(pre, addr)),
        !has_addr(after_leave(pre, addr).sessions, addr),
        other != addr ==> (has_addr(after_leave(pre, addr).sessions, other) == has_addr(
            pre.sessions,
            other,
        )),
{
    let post = after_leave(pre, addr).sessions;
    if has_addr(pre.sessions, addr) {
        let i = addr_index(pre.sessions, addr);
        assert(pre.sessions[i].addr == addr);
        lemma_remove_keeps(pre.sessions, i, pre.issued);
        assert forall|a: int, b: int|
            0 <= a < post.len() && 0 <= b < post.len() && a != b implies #[trigger] post[a].addr
            != #[trigger] post[b].addr by {
            let pa = if a < i {
                a
            } else {
                a + 1
            };
            let pb = if b < i {
                b
            } else {
                b + 1
            };
            assert(post[a] == pre.sessions[pa] && post[b] == pre.sessions[pb]);
        }
        if has_addr(post, addr) {
            let j = choose|j: int| 0 <= j < post.len() && #[trigger] post[j].addr == addr;
            let pj = if j < i {
                j
            } else {
                j + 1
            };
            assert(post[j] == pre.sessions[pj]);
        }
        if other != addr {
            if has_addr(pre.sessions, other) {
                let j = choose|j: int| 0 <= j < pre.sessions.len() && #[trigger] pre.sessions[j].addr == other;
                if j < i {
                    assert(post[j] == pre.sessions[j]);
                } else {
                    assert(j != i);
                    assert(post[j - 1] == pre.sessions[j]);
                }
            }
            if has_addr(post, other) {
                let j = choose|j: int| 0 <= j < post.len() && #[trigger] post[j].addr == other;
                let pj = if j < i {
                    j
                } else {
                    j + 1
                };
                assert(post[j] == pre.sessions[pj]);
            }
        }
    }
}

/// Inputs never go back: after an input packet every session's pending
/// sequence number is at least what it was, and an input older than the
/// pending one leaves the pending input unchanged.
pub proof fn lemma_input_monotone(
    pre: ServerView,
    addr: PeerAddr,
    seq: u32,
    dx: u32,
    dy: u32,
    da: u32,
    now: u64,
)
    requires
        server_inv(pre),
    ensures
        server_inv(after_input(pre, addr, seq, dx, dy, da, now)),
        after_input(pre, addr, seq, dx, dy, da, now).sessions.len() == pre.sessions.len(),
        forall|i: int|
            0 <= i < pre.sessions.len() ==> {
                let post = #[trigger] after_input(pre, addr, seq, dx, dy, da, now).sessions[i];
                &&& post.addr == pre.sessions[i].addr
                &&& post.player == pre.sessions[i].player
                &&& post.pending.seq >= pre.sessions[i].pending.seq
                &&& (seq < pre.sessions[i].pending.seq ==> post.pending == pre.sessions[i].pending)
                &&& (pre.sessions[i].addr == addr ==> post.last_seen == now)
                &&& (pre.sessions[i].addr == addr && seq >= pre.sessions[i].pending.seq ==> post.pending
                    == PendingInput { seq, dx, dy, da })
                &&& (pre.sessions[i].addr != addr ==> post == pre.sessions[i])
            },
{
    if has_addr(pre.sessions, addr) {
        let i = addr_index(pre.sessions, addr);
        lemma_update_keeps(
            pre.sessions,
            i,
            with_input(pre.sessions[i], seq, dx, dy, da, now),
            pre.issued,
        );
    }
}

/// A tick keeps exactly the fresh sessions: a session remains if and only if
/// it was there and has been heard from within the timeout.
pub proof fn lemma_tick_keeps_fresh(pre: ServerView, now: u64)
    requires
        server_inv(pre),
    ensures
        server_inv(after_tick(pre, now)),
        forall|x: Session| #[trigger] after_tick(pre, now).sessions.contains(x) <==> pre.sessions.contains(x)
            && is_fresh(x, now),
{
    lemma_live(pre.sessions, now);
    lemma_live_keeps(pre.sessions, now, pre.issued);
}

/// A server playing a built-in level only acknowledges joins with that
/// level's id, which every client, connected or not, can act on.
pub proof fn lemma_ack_is_acceptable(
    pre: ServerView,
    post: ServerView,
    res: Option<(u8, u8)>,
    spawns: Seq<(u32, u32)>,
    addr: PeerAddr,
    name: Seq<u8>,
    now: u64,
    connected: bool,
)
    requires
        pre.map.id < LEVEL_COUNT,
        join_step(pre, post, res, pre.map.id, spawns, addr, name, now),
        res is Some,
    ensures
        res matches Some((cid, mid)) && mid == pre.map.id && acceptable(
            connected,
            ServerPacket::JoinAck { client_id: cid, map_id: mid },
        ),
{
}

/// Player ids are unique: while at most 256 ids have been handed out, no two
/// sessions share an id, and every id is one of those handed out.
pub proof fn lemma_ids_distinct(v: ServerView)
    requires
        server_inv(v),
        v.issued <= 256,
    ensures
        distinct_ids(v.sessions),
        ids_below(v.sessions, v.issued),
{
}

/// Ids are not reused: a new client gets the number of ids handed out before
/// it, which no session present then holds, even of clients that have since
/// left or timed out.
pub proof fn lemma_new_id_fresh(
    pre: ServerView,
    post: ServerView,
    res: Option<(u8, u8)>,
    map_id: u8,
    spawns: Seq<(u32, u32)>,
    addr: PeerAddr,
    name: Seq<u8>,
    now: u64,
)
    requires
        server_inv(pre),
        pre.issued < 256,
        !has_addr(pre.sessions, addr),
        pre.sessions.len() < MAX_CLIENTS,
        join_step(pre, post, res, map_id, spawns, addr, name, now),
    ensures
        res matches Some((id, _)) && id == pre.issued && forall|i: int|
            0 <= i < pre.sessions.len() ==> (#[trigger] pre.sessions[i]).player.id != id,
        distinct_ids(post.sessions),
{
    lemma_join_keeps_inv(pre, post, res, map_id, spawns, addr, name, now);
    assert forall|i: int| 0 <= i < pre.sessions.len() implies (#[trigger] pre.sessions[i]).player.id
        != pre.issued by {
        assert(pre.sessions[i].player.id < pre.issued);
    }
}

impl GameState {
    /// What every game state keeps: the server invariant, on a valid map.
    pub open spec fn inv(&self) -> bool {
        &&& server_inv(self@)
        &&& self@.map.valid()
    }

    /// An empty server on level `map_id`.
    pub fn new(map_id: u8) -> (g: GameState)
        requires
            map_id < LEVEL_COUNT,
        ensures
            g.inv(),
            is_level(g@.map, map_id),
            g@.sessions == Seq::<Session>::empty(),
            g@.next_id == 0,
            g@.seq == 0,
            g@.issued == 0,
    {
        let g = GameState {
            sessions: Vec::new(),
            map: level(map_id),
            next_id: 0,
            seq: 0,
            issued: Ghost(0),
        };
        assert(g@.sessions =~= Seq::<Session>::empty());
        g
    }

    /// The level being played.
    pub fn map(&self) -> (m: &MazeMap)
        ensures
            *m == self@.map,
    {
        &self.map
    }

    /// The sessions, in order of arrival.
    pub fn sessions(&self) -> (s: &Vec<Session>)
        ensures
            s@ == self@.sessions,
    {
        &self.sessions
    }

    /// Position of the session of `addr`, if any.
    fn find(&self, addr: PeerAddr) -> (r: Option<usize>)
        requires
            unique_addrs(self@.sessions),
        ensures
            match r {
                Some(i) => i < self@.sessions.len() && has_addr(self@.sessions, addr) && addr_index(
                    self@.sessions,
                    addr,
                ) == i,
                None => !has_addr(self@.sessions, addr),
            },
    {
        let mut i: usize = 0;
        while i < self.sessions.len()
            invariant
                i <= self.sessions@.len(),
                unique_addrs(self@.sessions),
                forall|j: int| 0 <= j < i ==> (#[trigger] self.sessions@[j]).addr != addr,
            decreases self.sessions@.len() - i,
        {
            if self.sessions[i].addr == addr {
                proof {
                    let ss = self@.sessions;
                    assert(ss[i as int].addr == addr);
                    assert(has_addr(ss, addr));
                    let k = addr_index(ss, addr);
                    assert(ss[k].addr == addr);
                    assert(k == i as int);
                }
                return Some(i);
            }
            i += 1;
        }
        None
    }

    /// Registers a client. Returns `(client_id, map_id)`; a client that is
    /// already known (reconnect) keeps its id. Returns `None` when the server
    /// is full.
    pub fn add_client(&mut self, addr: PeerAddr, username: &str, now: u64) -> (r: Option<(u8, u8)>)
        requires
            old(self).inv(),
        ensures
            final(self).inv(),
            final(self)@.map == old(self)@.map,
            join_step(
                old(self)@,
                final(self)@,
                r,
                old(self)@.map.id,
                old(self)@.map.spawn_points@,
                addr,
                username.spec_bytes(),
                now,
            ),
    {
        match self.find(addr) {
            Some(i) => {
                let mut s = self.sessions[i];
                s.last_seen = now;
                self.sessions[i] = s;
                proof {
                    lemma_update_keeps(old(self)@.sessions, i as int, s, old(self)@.issued);
                }
                return Some((s.player.id, self.map.id));
            },
            None => {},
        }
        if self.sessions.len() >= MAX_CLIENTS {
            return None;
        }
        let id = self.next_id;
        self.next_id = self.next_id.wrapping_add(1);
        self.issued = Ghost(self.issued@ + 1);
        let spawn_idx = self.sessions.len() % self.map.spawn_points.len();
        let (sx, sy) = self.map.spawn_points[spawn_idx];
        let pending = PendingInput::default();
        let s = Session { addr, player: PlayerState::new(id, username, sx, sy), last_seen: now, pending };
        self.sessions.push(s);
        proof {
            let pre = old(self)@.sessions;
            assert(self@.sessions.drop_last() =~= pre);
            lemma_push_keeps(pre, s, old(self)@.issued);
        }
        Some((id, self.map.id))
    }

    /// Updates the pending input of a client and marks it seen; an input
    /// older than the pending one (by sequence number) is discarded. Unknown
    /// clients are ignored.
    pub fn update_input(&mut self, addr: PeerAddr, seq: u32, dx: u32, dy: u32, da: u32, now: u64)
        requires
            old(self).inv(),
        ensures
            final(self).inv(),
            final(self)@.map == old(self)@.map,
            final(self)@ == after_input(old(self)@, addr, seq, dx, dy, da, now),
    {
        match self.find(addr) {
            Some(i) => {
                let mut s = self.sessions[i];
                s.last_seen = now;
                if seq >= s.pending.seq {
                    s.pending = PendingInput { seq, dx, dy, da };
                }
                self.sessions[i] = s;
                proof {
                    assert(self@.sessions =~= old(self)@.sessions.update(
                        i as int,
                        with_input(old(self)@.sessions[i as int], seq, dx, dy, da, now),
                    ));
                    lemma_update_keeps(old(self)@.sessions, i as int, s, old(self)@.issued);
                }
            },
            None => {},
        }
    }

    /// Removes the session of `addr`, if any.
    pub fn remove_client(&mut self, addr: PeerAddr)
        requires
            old(self).inv(),
        ensures
            final(self).inv(),
            final(self)@.map == old(self)@.map,
            final(self)@ == after_leave(old(self)@, addr),
    {
        match self.find(addr) {
            Some(i) => {
                self.sessions.remove(i);
                proof {
                    lemma_remove_keeps(old(self)@.sessions, i as int, old(self)@.issued);
                }
            },
            None => {},
        }
    }

    /// Advances the simulation by one tick at `now`: drops every client
    /// silent for more than `CLIENT_TIMEOUT_SECS` seconds and advances the
    /// tick counter. Moving the players by their pending input is done by the
    /// caller, through `move_player`.
    pub fn tick(&mut self, now: u64)
        requires
            old(self).inv(),
        ensures
            final(self).inv(),
            final(self)@.map == old(self)@.map,
            final(self)@ == after_tick(old(self)@, now),
            final(self)@.seq == (old(self)@.seq + 1) % 0x1_0000_0000,
    {
        let mut kept: Vec<Session> = Vec::new();
        let n = self.sessions.len();
        for i in 0..n
            invariant
                n == self.sessions@.len(),
                kept@ == live(self.sessions@.take(i as int), now),
        {
            let s = self.sessions[i];
            let elapsed = if now >= s.last_seen {
                now - s.last_seen
            } else {
                0
            };
            if elapsed <= CLIENT_TIMEOUT_SECS * NANOS_PER_SEC {
                kept.push(s);
            }
            assert(self.sessions@.take(i + 1).drop_last() =~= self.sessions@.take(i as int));
        }
        proof {
            assert(self.sessions@.take(n as int) =~= self.sessions@);
            lemma_live(self.sessions@, now);
            lemma_live_keeps(self.sessions@, now, self@.issued);
        }
        self.sessions = kept;
        self.seq = self.seq.wrapping_add(1);
    }

    /// Sets the position and facing of the player of session `i`.
    pub fn move_player(&mut self, i: usize, x: u32, y: u32, angle: u32)
        requires
            old(self).inv(),
            i < old(self)@.sessions.len(),
        ensures
            final(self).inv(),
            final(self)@.map == old(self)@.map,
            final(self)@.sessions == old(self)@.sessions.update(
                i as int,
                Session {
                    player: PlayerState { x, y, angle, ..old(self)@.sessions[i as int].player },
                    ..old(self)@.sessions[i as int]
                },
            ),
            final(self)@.next_id == old(self)@.next_id,
            final(self)@.seq == old(self)@.seq,
            final(self)@.map == old(self)@.map,
            final(self)@.issued == old(self)@.issued,
    {
        let mut s = self.sessions[i];
        s.player.x = x;
        s.player.y = y;
        s.player.angle = angle;
        self.sessions[i] = s;
        proof {
            lemma_update_keeps(old(self)@.sessions, i as int, s, old(self)@.issued);
        }
    }

    /// Snapshot of the world as a ready-to-send packet: the tick counter and
    /// every player, one per session, in session order.
    pub fn world_state(&self) -> (p: ServerPacket)
        ensures
            p matches ServerPacket::WorldState { seq, players } && seq == self@.seq && players@
                == players_of(self@.sessions) && (self.inv() ==> players@.len() <= MAX_CLIENTS),
            p matches ServerPacket::WorldState { players, .. } && players@.len() == self@.sessions.len()
                && forall|i: int| 0 <= i < players@.len() ==> #[trigger] players@[i] == self@.sessions[i].player,
    {
        let mut players: Vec<PlayerState> = Vec::new();
        let n = self.sessions.len();
        for i in 0..n
            invariant
                n == self.sessions@.len(),
                players@ == players_of(self.sessions@.take(i as int)),
        {
            players.push(self.sessions[i].player);
            assert(players_of(self.sessions@.take(i + 1)) =~= players_of(
                self.sessions@.take(i as int),
            ).push(self.sessions@[i as int].player));
        }
        assert(self.sessions@.take(n as int) =~= self.sessions@);
        ServerPacket::WorldState { seq: self.seq, players }
    }

    /// Handles one packet from `addr` received at `now`, and returns the reply
    /// to send back, if any: a join is answered with `JoinAck` or, when the
    /// server is full, `Kicked` with reason "server full"; an input updates
    /// the pending input; a ping is answered with a pong of the same sequence
    /// number; a disconnect removes the client.
    pub fn handle_packet(&mut self, addr: PeerAddr, now: u64, packet: ClientPacket) -> (reply: Option<
        ServerPacket,
    >)
        requires
            old(self).inv(),
        ensures
            final(self).inv(),
            final(self)@.map == old(self)@.map,
            match packet {
                ClientPacket::Join { username } => {
                    &&& join_step(
                        old(self)@,
                        final(self)@,
                        join_result(reply),
                        old(self)@.map.id,
                        old(self)@.map.spawn_points@,
                        addr,
                        encode_utf8(username@),
                        now,
                    )
                    &&& reply is Some
                    &&& (reply matches Some(ServerPacket::Kicked { reason }) ==> reason@ == "server full"@)
                    &&& (reply matches Some(p) ==> p is JoinAck || p is Kicked)
                },
                ClientPacket::Input { seq, dx, dy, da } => {
                    &&& final(self)@ == after_input(old(self)@, addr, seq, dx, dy, da, now)
                    &&& reply is None
                },
                ClientPacket::Ping { seq } => {
                    &&& final(self)@ == old(self)@
                    &&& reply matches Some(ServerPacket::Pong { seq: s }) && s == seq
                },
                ClientPacket::Disconnect => {
                    &&& final(self)@ == after_leave(old(self)@, addr)
                    &&& reply is None
                },
            },
    {
        match packet {
            ClientPacket::Join { username } => {
                match self.add_client(addr, username.as_str(), now) {
                    Some((id, map_id)) => Some(ServerPacket::JoinAck { client_id: id, map_id }),
                    None => Some(ServerPacket::Kicked { reason: "server full".to_owned() }),
                }
            },
            ClientPacket::Input { seq, dx, dy, da } => {
                self.update_input(addr, seq, dx, dy, da, now);
                None
            },
            ClientPacket::Ping { seq } => Some(ServerPacket::Pong { seq }),
            ClientPacket::Disconnect => {
                self.remove_client(addr);
                None
            },
        }
    }
}

} // verus!
