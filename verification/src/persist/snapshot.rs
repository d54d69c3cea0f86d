//! Snapshot records for persisting room state. The domain types stay
//! serialisation-free; these mirror the wire model.

use vstd::prelude::*;

use crate::domain::ids::{PlayerId, RoomCode};
use crate::domain::nudges::NudgeTimes;
use crate::domain::player::{ConnEpoch, Player, PlayerView};
use crate::domain::room::{Room, RoomState, RoomView, opt_id, player_views};
use crate::time::Instant;

verus! {

/// Persisted room lifecycle state.
#[derive(Debug, Clone, Copy, PartialEq, Eq, Structural)]
pub enum SnapshotState {
    Lobby,
    Active,
}

/// One persisted player. `token` IS persisted: it is the reconnection
/// credential. `connected` is not: nobody is connected after a restart.
#[derive(Debug, Clone)]
pub struct PlayerSnapshot {
    pub id: PlayerId,
    pub name: String,
    pub token: String,
    pub is_host: bool,
    pub skip_next: bool,
}

/// One persisted room. Excludes every clock reading, the nudge log and the
/// connection bookkeeping.
#[derive(Debug, Clone)]
pub struct RoomSnapshot {
    pub code: String,
    pub state: SnapshotState,
    pub locked: bool,
    pub players: Vec<PlayerSnapshot>,
    pub current_player_id: Option<PlayerId>,
    pub previous_player_id: Option<PlayerId>,
}

/// The full persisted registry: every live room.
#[derive(Debug, Clone)]
pub struct RegistrySnapshot {
    pub rooms: Vec<RoomSnapshot>,
}

impl Default for RegistrySnapshot {
    fn default() -> (s: Self)
        ensures
            s.rooms@.len() == 0,
    {
        RegistrySnapshot { rooms: Vec::new() }
    }
}

pub struct PlayerSnapshotView {
    pub id: Seq<char>,
    pub name: Seq<char>,
    pub token: Seq<char>,
    pub is_host: bool,
    pub skip_next: bool,
}

pub struct RoomSnapshotView {
    pub code: Seq<char>,
    pub state: SnapshotState,
    pub locked: bool,
    pub players: Seq<PlayerSnapshotView>,
    pub current: Option<Seq<char>>,
    pub previous: Option<Seq<char>>,
}

impl View for PlayerSnapshot {
    type V = PlayerSnapshotView;

    open spec fn view(&self) -> PlayerSnapshotView {
        PlayerSnapshotView {
            id: self.id@,
            name: self.name@,
            token: self.token@,
            is_host: self.is_host,
            skip_next: self.skip_next,
        }
    }
}

pub open spec fn player_snapshot_views(ps: Seq<PlayerSnapshot>) -> Seq<PlayerSnapshotView> {
    ps.map_values(|p: PlayerSnapshot| p@)
}

impl View for RoomSnapshot {
    type V = RoomSnapshotView;

    open spec fn view(&self) -> RoomSnapshotView {
        RoomSnapshotView {
            code: self.code@,
            state: self.state,
            locked: self.locked,
            players: player_snapshot_views(self.players@),
            current: opt_id(self.current_player_id),
            previous: opt_id(self.previous_player_id),
        }
    }
}

pub open spec fn snapshot_state_of(s: RoomState) -> SnapshotState {
    match s {
        RoomState::Lobby => SnapshotState::Lobby,
        RoomState::Active => SnapshotState::Active,
    }
}

pub open spec fn room_state_of(s: SnapshotState) -> RoomState {
    match s {
        SnapshotState::Lobby => RoomState::Lobby,
        SnapshotState::Active => RoomState::Active,
    }
}

pub open spec fn player_snapshot_of(p: PlayerView) -> PlayerSnapshotView {
    PlayerSnapshotView { id: p.id, name: p.name, token: p.token, is_host: p.is_host, skip_next: p.skip_next }
}

/// What is persisted of a room.
pub open spec fn snapshot_of(r: RoomView) -> RoomSnapshotView {
    RoomSnapshotView {
        code: r.code,
        state: snapshot_state_of(r.state),
        locked: r.locked,
        players: r.players.map_values(|p: PlayerView| player_snapshot_of(p)),
        current: r.current,
        previous: r.previous,
    }
}

/// A persisted player as restored: disconnected, owned by no connection.
pub open spec fn restored_player(p: PlayerSnapshotView) -> PlayerView {
    PlayerView {
        id: p.id,
        name: p.name,
        token: p.token,
        is_host: p.is_host,
        connected: false,
        skip_next: p.skip_next,
        conn_epoch: 0,
    }
}

/// A persisted room as restored at `now` (the load-time policy): clocks restart
/// at `now` (a turn in progress restarts its clock), nudge cooldowns are
/// cleared, every player is disconnected, epochs start afresh.
pub open spec fn restored(s: RoomSnapshotView, now: Instant) -> RoomView {
    RoomView {
        code: s.code,
        created_at: now,
        last_active: now,
        state: room_state_of(s.state),
        locked: s.locked,
        players: s.players.map_values(|p: PlayerSnapshotView| restored_player(p)),
        current: s.current,
        previous: s.previous,
        turn_started_at: if s.state == SnapshotState::Active && s.current is Some {
            Some(now)
        } else {
            None
        },
        nudges: Map::empty(),
        next_conn_epoch: 1,
    }
}

fn snapshot_state(s: RoomState) -> (r: SnapshotState)
    ensures
        r == snapshot_state_of(s),
{
    match s {
        RoomState::Lobby => SnapshotState::Lobby,
        RoomState::Active => SnapshotState::Active,
    }
}

fn room_state(s: SnapshotState) -> (r: RoomState)
    ensures
        r == room_state_of(s),
{
    match s {
        SnapshotState::Lobby => RoomState::Lobby,
        SnapshotState::Active => RoomState::Active,
    }
}

fn copy_opt_id(o: &Option<PlayerId>) -> (r: Option<PlayerId>)
    ensures
        opt_id(r) == opt_id(*o),
{
    match o {
        Some(p) => Some(p.clone()),
        None => None,
    }
}

impl RoomSnapshot {
    /// What is persisted of `room`.
    pub fn from(room: &Room) -> (s: RoomSnapshot)
        ensures
            s@ == snapshot_of(room@),
    {
        let mut players: Vec<PlayerSnapshot> = Vec::new();
        let mut i: usize = 0;
        while i < room.players.len()
            invariant
                i <= room.players@.len(),
                player_snapshot_views(players@) == player_views(room.players@).take(i as int).map_values(
                    |p: PlayerView| player_snapshot_of(p),
                ),
            decreases room.players@.len() - i,
        {
            let p = &room.players[i];
            let ghost before = players@;
            let ps = PlayerSnapshot {
                id: p.id.clone(),
                name: p.name.clone(),
                token: p.token.clone(),
                is_host: p.is_host,
                skip_next: p.skip_next,
            };
            players.push(ps);
            proof {
                let pv = player_views(room.players@);
                assert(pv.take(i + 1) =~= pv.take(i as int).push(pv[i as int]));
                assert(pv[i as int] == room.players@[i as int]@);
                assert(player_snapshot_views(players@) =~= player_snapshot_views(before).push(ps@));
                assert(player_snapshot_views(players@) =~= pv.take(i + 1).map_values(
                    |p: PlayerView| player_snapshot_of(p),
                ));
            }
            i = i + 1;
        }
        assert(player_views(room.players@).take(room.players@.len() as int) =~= player_views(room.players@));
        let s = RoomSnapshot {
            code: room.code.0.clone(),
            state: snapshot_state(room.state),
            locked: room.locked,
            players,
            current_player_id: copy_opt_id(&room.current_player_id),
            previous_player_id: copy_opt_id(&room.previous_player_id),
        };
        assert(s@.players =~= snapshot_of(room@).players);
        s
    }

    /// Rebuild a domain `Room` at `now`, applying the load-time policy.
    pub fn into_room(self, now: Instant) -> (r: Room)
        ensures
            r@ == restored(self@, now),
    {
        let ghost sv = self@;
        let state = room_state(self.state);
        let turn_started_at = if state == RoomState::Active && self.current_player_id.is_some() {
            Some(now)
        } else {
            None
        };
        let mut players: Vec<Player> = Vec::new();
        let mut rest = self.players;
        let ghost all = player_snapshot_views(rest@);
        // `rest` is consumed from the back, then the result is reversed into place.
        let mut back: Vec<Player> = Vec::new();
        while rest.len() > 0
            invariant
                all.len() == rest@.len() + back@.len(),
                player_snapshot_views(rest@) == all.take(rest@.len() as int),
                forall|j: int| 0 <= j < back@.len() ==> #[trigger] back@[j]@ == restored_player(all[all.len() - 1 - j]),
            decreases rest@.len(),
        {
            let ghost old_rest = rest@;
            let p = rest.pop().unwrap();
            let ghost k = rest@.len() as int;
            assert(player_snapshot_views(old_rest)[k] == old_rest[k]@);
            assert(all.take(k + 1)[k] == all[k]);
            assert(p@ == all[k]);
            back.push(Player {
                id: p.id,
                name: p.name,
                token: p.token,
                is_host: p.is_host,
                connected: false,
                skip_next: p.skip_next,
                conn_epoch: ConnEpoch::none(),
            });
            assert(player_snapshot_views(rest@) =~= all.take(k));
        }
        while back.len() > 0
            invariant
                all.len() == players@.len() + back@.len(),
                forall|j: int| 0 <= j < back@.len() ==> #[trigger] back@[j]@ == restored_player(all[all.len() - 1 - j]),
                forall|j: int| 0 <= j < players@.len() ==> #[trigger] players@[j]@ == restored_player(all[j]),
            decreases back@.len(),
        {
            let p = back.pop().unwrap();
            players.push(p);
        }
        let r = Room {
            code: RoomCode(self.code),
            created_at: now,
            last_active: now,
            state,
            locked: self.locked,
            players,
            current_player_id: self.current_player_id,
            previous_player_id: self.previous_player_id,
            turn_started_at,
            last_nudge_at: NudgeTimes::new(),
            next_conn_epoch: 1,
        };
        assert(r@.players =~= restored(sv, now).players);
        r
    }
}

/// A snapshot restores the room it was taken of, under the load-time policy:
/// code, state, lock, turn order, names, tokens, pending skips and the turn
/// pointers survive; connections, cooldowns and clocks start afresh.
pub proof fn lemma_snapshot_round_trip(r: RoomView, now: Instant)
    ensures
        restored(snapshot_of(r), now) == (RoomView {
            created_at: now,
            last_active: now,
            players: r.players.map_values(|p: PlayerView| PlayerView { connected: false, conn_epoch: 0, ..p }),
            turn_started_at: if r.state == RoomState::Active && r.current is Some {
                Some(now)
            } else {
                None
            },
            nudges: Map::empty(),
            next_conn_epoch: 1,
            ..r
        }),
{
    let a = restored(snapshot_of(r), now);
    assert(a.players =~= r.players.map_values(|p: PlayerView| PlayerView { connected: false, conn_epoch: 0, ..p }));
    assert(a.state == r.state);
}

} // verus!
