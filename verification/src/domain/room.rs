//! The Room aggregate and all turn-coordination logic. Pure: no sockets, no
//! serialisation, no clock reads (callers pass the current instant).

use vstd::multiset::Multiset;
use vstd::prelude::*;

use crate::domain::ids::{PlayerId, RoomCode, generate_token, is_token};
use crate::domain::nudges::NudgeTimes;
use crate::domain::player::{ConnEpoch, Player, PlayerView, new_player_view};
use crate::time::{Duration, Instant};

verus! {

/// Minimum interval between nudges from the same sender, in nanoseconds.
pub const NUDGE_COOLDOWN_NS: u64 = 10_000_000_000;

/// Minimum interval between nudges from the same sender.
pub fn nudge_cooldown() -> (d: Duration)
    ensures
        d.ns() == NUDGE_COOLDOWN_NS,
{
    Duration::from_nanos(NUDGE_COOLDOWN_NS)
}

/// Maximum number of players allowed in a single room.
pub const MAX_PLAYERS: usize = 16;

#[derive(Debug, Clone, Copy, PartialEq, Eq, Structural)]
pub enum RoomState {
    Lobby,
    Active,
}

/// Errors returned by turn-coordination operations.
#[derive(Debug, Clone, Copy, PartialEq, Eq, Structural)]
pub enum TurnError {
    NotAuthorized,
    NotFound,
    WrongState,
    NotYourTurn,
    NudgeOnCooldown,
    RoomFull,
    RoomLocked,
}

#[derive(Debug)]
pub struct Room {
    pub code: RoomCode,
    pub created_at: Instant,
    pub last_active: Instant,
    pub state: RoomState,
    /// When true, only existing players (rejoin-by-token) may connect; brand-new
    /// players are turned away. Host-toggled; survives restarts.
    pub locked: bool,
    /// Order is significant: this Vec IS the turn order.
    pub players: Vec<Player>,
    pub current_player_id: Option<PlayerId>,
    pub previous_player_id: Option<PlayerId>,
    /// When the CURRENT player's turn began. `None` in Lobby (no turn is in
    /// progress).
    pub turn_started_at: Option<Instant>,
    pub last_nudge_at: NudgeTimes,
    /// Hands out the next [`ConnEpoch`]. Starts at 1 so the never-issued epoch 0
    /// cannot match a live connection. Not persisted.
    pub next_conn_epoch: u64,
}

/// The mathematical content of a [`Room`].
pub struct RoomView {
    pub code: Seq<char>,
    pub created_at: Instant,
    pub last_active: Instant,
    pub state: RoomState,
    pub locked: bool,
    pub players: Seq<PlayerView>,
    pub current: Option<Seq<char>>,
    pub previous: Option<Seq<char>>,
    pub turn_started_at: Option<Instant>,
    pub nudges: Map<Seq<char>, Instant>,
    pub next_conn_epoch: u64,
}

pub open spec fn opt_id(o: Option<PlayerId>) -> Option<Seq<char>> {
    match o {
        Some(p) => Some(p@),
        None => None,
    }
}

pub open spec fn player_views(ps: Seq<Player>) -> Seq<PlayerView> {
    ps.map_values(|p: Player| p@)
}

impl View for Room {
    type V = RoomView;

    open spec fn view(&self) -> RoomView {
        RoomView {
            code: self.code@,
            created_at: self.created_at,
            last_active: self.last_active,
            state: self.state,
            locked: self.locked,
            players: player_views(self.players@),
            current: opt_id(self.current_player_id),
            previous: opt_id(self.previous_player_id),
            turn_started_at: self.turn_started_at,
            nudges: self.last_nudge_at.view(),
            next_conn_epoch: self.next_conn_epoch,
        }
    }
}

// ---------------------------------------------------------------------------
// Player lookup

/// The ids of `ps`, in turn order.
pub open spec fn ids(ps: Seq<PlayerView>) -> Seq<Seq<char>> {
    ps.map_values(|p: PlayerView| p.id)
}

/// `i` is the first index of a player with id `id`.
pub open spec fn first_index(ps: Seq<PlayerView>, id: Seq<char>, i: int) -> bool {
    &&& 0 <= i < ps.len()
    &&& ps[i].id == id
    &&& forall|j: int| 0 <= j < i ==> ps[j].id != id
}

/// Index of the first player with id `id`, if any.
pub open spec fn position(ps: Seq<PlayerView>, id: Seq<char>) -> Option<int> {
    if exists|i: int| first_index(ps, id, i) {
        Some(choose|i: int| first_index(ps, id, i))
    } else {
        None
    }
}

pub open spec fn has_id(ps: Seq<PlayerView>, id: Seq<char>) -> bool {
    exists|i: int| 0 <= i < ps.len() && ps[i].id == id
}

pub proof fn lemma_position_some(ps: Seq<PlayerView>, id: Seq<char>, i: int)
    requires
        first_index(ps, id, i),
    ensures
        position(ps, id) == Some(i),
{
    let c = choose|c: int| first_index(ps, id, c);
    assert(first_index(ps, id, c));
    if c < i {
        assert(ps[c].id != id);
    }
    if i < c {
        assert(ps[i].id != id);
    }
}

pub proof fn lemma_position_none(ps: Seq<PlayerView>, id: Seq<char>)
    requires
        !has_id(ps, id),
    ensures
        position(ps, id) == None::<int>,
{
    if exists|i: int| first_index(ps, id, i) {
        let i = choose|i: int| first_index(ps, id, i);
        assert(ps[i].id == id);
    }
}

/// Whether `id` names a host of the room.
pub open spec fn is_host_in(ps: Seq<PlayerView>, id: Seq<char>) -> bool {
    exists|i: int| 0 <= i < ps.len() && ps[i].id == id && #[trigger] ps[i].is_host
}

// ---------------------------------------------------------------------------
// Turn rotation

/// A player who may receive the turn: connected and not flagged to be skipped.
pub open spec fn eligible(p: PlayerView) -> bool {
    p.connected && !p.skip_next
}

/// The index `o` steps after `from` in a rotation of `n` players (1 <= o <= n).
pub open spec fn index_at(n: int, from: int, o: int) -> int {
    if from + o < n {
        from + o
    } else {
        from + o - n
    }
}

/// How many steps after `from` the index `j` comes, in `1..=n` (`from` itself is `n`).
pub open spec fn offset_of(n: int, from: int, j: int) -> int {
    if j > from {
        j - from
    } else {
        j - from + n
    }
}

/// Walking forward from `from`, `o` is the first step that lands on an eligible player.
pub open spec fn first_eligible_step(ps: Seq<PlayerView>, from: int, o: int) -> bool {
    &&& 1 <= o <= ps.len()
    &&& eligible(ps[index_at(ps.len() as int, from, o)])
    &&& forall|o2: int| 1 <= o2 < o ==> !eligible(#[trigger] ps[index_at(ps.len() as int, from, o2)])
}

/// The step at which the forward walk from `from` stops: the first eligible
/// step, or `n + 1` when it goes all the way round without finding anyone.
pub open spec fn stop_step(ps: Seq<PlayerView>, from: int) -> int {
    if exists|o: int| first_eligible_step(ps, from, o) {
        choose|o: int| first_eligible_step(ps, from, o)
    } else {
        ps.len() + 1int
    }
}

/// Index of the next eligible player after `from`, wrapping, possibly `from` itself.
pub open spec fn next_eligible(ps: Seq<PlayerView>, from: int) -> Option<int> {
    if exists|o: int| first_eligible_step(ps, from, o) {
        Some(index_at(ps.len() as int, from, stop_step(ps, from)))
    } else {
        None
    }
}

/// The players after a forward walk from `from` that has passed every step
/// below `upto`: each connected player passed over has its one-turn skip consumed.
pub open spec fn walked(ps: Seq<PlayerView>, from: int, upto: int) -> Seq<PlayerView> {
    let n = ps.len() as int;
    Seq::new(
        ps.len(),
        |j: int|
            if ps[j].connected && offset_of(n, from, j) < upto {
                PlayerView { skip_next: false, ..ps[j] }
            } else {
                ps[j]
            },
    )
}

/// The players after the forward walk from `from` has stopped.
pub open spec fn consume_skips(ps: Seq<PlayerView>, from: int) -> Seq<PlayerView> {
    walked(ps, from, stop_step(ps, from))
}

pub proof fn lemma_offsets(n: int, from: int)
    requires
        0 <= from < n,
    ensures
        forall|o: int| 1 <= o <= n ==> 0 <= #[trigger] index_at(n, from, o) < n && offset_of(n, from, index_at(n, from, o)) == o,
        forall|j: int| 0 <= j < n ==> 1 <= #[trigger] offset_of(n, from, j) <= n && index_at(n, from, offset_of(n, from, j)) == j,
{
}

/// The walk stops inside the rotation, and it changes nobody's id.
pub proof fn lemma_stop_in_range(ps: Seq<PlayerView>, from: int)
    requires
        0 <= from < ps.len(),
    ensures
        next_eligible(ps, from) matches Some(i) ==> 0 <= i < ps.len(),
        consume_skips(ps, from).len() == ps.len(),
        forall|j: int| 0 <= j < ps.len() ==> #[trigger] consume_skips(ps, from)[j].id == ps[j].id,
{
    lemma_offsets(ps.len() as int, from);
    if exists|o: int| first_eligible_step(ps, from, o) {
        let o = choose|o: int| first_eligible_step(ps, from, o);
        assert(first_eligible_step(ps, from, o));
    }
}

pub proof fn lemma_no_eligible_step(ps: Seq<PlayerView>, from: int)
    requires
        0 <= from < ps.len(),
        forall|o: int| 1 <= o <= ps.len() ==> !eligible(#[trigger] ps[index_at(ps.len() as int, from, o)]),
    ensures
        stop_step(ps, from) == ps.len() + 1,
        next_eligible(ps, from) == None::<int>,
{
    if exists|o: int| first_eligible_step(ps, from, o) {
        let o = choose|o: int| first_eligible_step(ps, from, o);
        assert(!eligible(ps[index_at(ps.len() as int, from, o)]));
    }
}

pub proof fn lemma_first_step_unique(ps: Seq<PlayerView>, from: int, o: int)
    requires
        first_eligible_step(ps, from, o),
    ensures
        stop_step(ps, from) == o,
        next_eligible(ps, from) == Some(index_at(ps.len() as int, from, o)),
{
    let c = choose|c: int| first_eligible_step(ps, from, c);
    assert(first_eligible_step(ps, from, c));
    if c < o {
        assert(!eligible(ps[index_at(ps.len() as int, from, c)]));
    }
    if o < c {
        assert(!eligible(ps[index_at(ps.len() as int, from, o)]));
    }
}

// ---------------------------------------------------------------------------
// Transitions

/// The room as a fresh lobby with the host as its only player.
pub open spec fn created_view(code: Seq<char>, host: PlayerView, now: Instant) -> RoomView {
    RoomView {
        code,
        created_at: now,
        last_active: now,
        state: RoomState::Lobby,
        locked: false,
        players: seq![host],
        current: None,
        previous: None,
        turn_started_at: None,
        nudges: Map::empty(),
        next_conn_epoch: 1,
    }
}

pub open spec fn start_game_spec(r: RoomView, actor: Seq<char>, now: Instant) -> (RoomView, Result<(), TurnError>) {
    if !is_host_in(r.players, actor) {
        (r, Err(TurnError::NotAuthorized))
    } else if r.state != RoomState::Lobby {
        (r, Err(TurnError::WrongState))
    } else {
        (
            RoomView {
                state: RoomState::Active,
                current: if r.players.len() > 0 { Some(r.players[0].id) } else { None },
                previous: None,
                turn_started_at: Some(now),
                last_active: now,
                ..r
            },
            Ok(()),
        )
    }
}

/// Index of the current player, if there is one and they are still in the room.
pub open spec fn current_index(r: RoomView) -> Option<int> {
    match r.current {
        Some(c) => position(r.players, c),
        None => None,
    }
}

/// Move the turn from the current player to the next eligible one.
pub open spec fn advance_turn_spec(r: RoomView, now: Instant) -> (RoomView, Result<(), TurnError>) {
    match current_index(r) {
        None => (r, Err(TurnError::WrongState)),
        Some(ci) => {
            let ps = consume_skips(r.players, ci);
            match next_eligible(r.players, ci) {
                None => (r, Err(TurnError::NotFound)),
                Some(ni) => (
                    RoomView {
                        players: ps,
                        previous: r.current,
                        current: Some(r.players[ni].id),
                        turn_started_at: Some(now),
                        last_active: now,
                        ..r
                    },
                    Ok(()),
                ),
            }
        },
    }
}

pub open spec fn end_turn_spec(r: RoomView, actor: Seq<char>, now: Instant) -> (RoomView, Result<(), TurnError>) {
    if r.state != RoomState::Active {
        (r, Err(TurnError::WrongState))
    } else if r.current != Some(actor) && !is_host_in(r.players, actor) {
        (r, Err(TurnError::NotAuthorized))
    } else {
        advance_turn_spec(r, now)
    }
}

pub open spec fn claim_turn_spec(r: RoomView, actor: Seq<char>, now: Instant) -> (RoomView, Result<(), TurnError>) {
    if r.state != RoomState::Active {
        (r, Err(TurnError::WrongState))
    } else {
        match current_index(r) {
            None => (r, Err(TurnError::WrongState)),
            Some(ci) => match next_eligible(r.players, ci) {
                None => (r, Err(TurnError::NotYourTurn)),
                Some(ni) => if r.players[ni].id != actor {
                    (r, Err(TurnError::NotYourTurn))
                } else {
                    advance_turn_spec(r, now)
                },
            },
        }
    }
}

pub open spec fn undo_turn_spec(r: RoomView, actor: Seq<char>, now: Instant) -> (RoomView, Result<(), TurnError>) {
    if !is_host_in(r.players, actor) {
        (r, Err(TurnError::NotAuthorized))
    } else if r.state != RoomState::Active {
        (r, Err(TurnError::WrongState))
    } else {
        match r.previous {
            None => (r, Err(TurnError::WrongState)),
            Some(p) => if !has_id(r.players, p) {
                (r, Err(TurnError::NotFound))
            } else {
                (
                    RoomView {
                        current: Some(p),
                        previous: None,
                        turn_started_at: Some(now),
                        last_active: now,
                        ..r
                    },
                    Ok(()),
                )
            },
        }
    }
}

pub open spec fn skip_player_spec(r: RoomView, actor: Seq<char>, target: Seq<char>, now: Instant) -> (RoomView, Result<(), TurnError>) {
    if !is_host_in(r.players, actor) {
        (r, Err(TurnError::NotAuthorized))
    } else {
        match position(r.players, target) {
            None => (r, Err(TurnError::NotFound)),
            Some(i) => {
                let flagged = r.players.update(i, PlayerView { skip_next: true, ..r.players[i] });
                if r.state == RoomState::Active && r.current == Some(target) {
                    let ps = consume_skips(flagged, i);
                    match next_eligible(flagged, i) {
                        None => (r, Err(TurnError::NotFound)),
                        Some(ni) => (
                            RoomView {
                                players: ps,
                                previous: r.current,
                                current: Some(flagged[ni].id),
                                turn_started_at: Some(now),
                                last_active: now,
                                ..r
                            },
                            Ok(()),
                        ),
                    }
                } else {
                    (RoomView { players: flagged, last_active: now, ..r }, Ok(()))
                }
            },
        }
    }
}

pub open spec fn remove_player_spec(r: RoomView, actor: Seq<char>, target: Seq<char>, now: Instant) -> (RoomView, Result<(), TurnError>) {
    if !is_host_in(r.players, actor) {
        (r, Err(TurnError::NotAuthorized))
    } else {
        match position(r.players, target) {
            None => (r, Err(TurnError::NotFound)),
            Some(i) => {
                let removing_current = r.state == RoomState::Active && r.current == Some(target);
                let ps = if removing_current { consume_skips(r.players, i) } else { r.players };
                // The walk may come round to the removed player only when
                // nobody else is eligible: then there is no successor.
                let cur = if removing_current {
                    match next_eligible(r.players, i) {
                        Some(ni) => if ni != i { Some(r.players[ni].id) } else { None },
                        None => None,
                    }
                } else {
                    r.current
                };
                let started = if removing_current {
                    match cur {
                        Some(_) => Some(now),
                        None => None,
                    }
                } else {
                    r.turn_started_at
                };
                (
                    RoomView {
                        players: ps.remove(i),
                        current: cur,
                        previous: if r.previous == Some(target) { None } else { r.previous },
                        turn_started_at: started,
                        nudges: r.nudges.remove(target),
                        last_active: now,
                        ..r
                    },
                    Ok(()),
                )
            },
        }
    }
}

/// `order` names every player exactly as often as the room does.
pub open spec fn is_reordering(ps: Seq<PlayerView>, order: Seq<Seq<char>>) -> bool {
    order.len() == ps.len() && order.to_multiset() == ids(ps).to_multiset()
}

/// What [`Room::set_order`] answers.
pub open spec fn set_order_result(r: RoomView, actor: Seq<char>, order: Seq<Seq<char>>) -> Result<(), TurnError> {
    if !is_host_in(r.players, actor) {
        Err(TurnError::NotAuthorized)
    } else if !is_reordering(r.players, order) {
        Err(TurnError::NotFound)
    } else {
        Ok(())
    }
}

/// How [`Room::set_order`] leaves the room: unchanged when refused; otherwise
/// the same players (as a multiset) in the requested order of ids.
pub open spec fn set_order_post(r: RoomView, actor: Seq<char>, order: Seq<Seq<char>>, now: Instant, r2: RoomView) -> bool {
    match set_order_result(r, actor, order) {
        Err(_) => r2 == r,
        Ok(_) => {
            &&& r2 == (RoomView { players: r2.players, last_active: now, ..r })
            &&& ids(r2.players) == order
            &&& r2.players.to_multiset() == r.players.to_multiset()
        },
    }
}

pub open spec fn set_locked_spec(r: RoomView, actor: Seq<char>, locked: bool, now: Instant) -> (RoomView, Result<(), TurnError>) {
    if !is_host_in(r.players, actor) {
        (r, Err(TurnError::NotAuthorized))
    } else {
        (RoomView { locked, last_active: now, ..r }, Ok(()))
    }
}

pub open spec fn nudge_spec(r: RoomView, sender: Seq<char>, now: Instant) -> (RoomView, Result<Seq<char>, TurnError>) {
    match r.current {
        None => (r, Err(TurnError::WrongState)),
        Some(c) => if c == sender {
            (r, Err(TurnError::NotAuthorized))
        } else if r.nudges.contains_key(sender) && now.elapsed_since(r.nudges[sender]) < NUDGE_COOLDOWN_NS {
            (r, Err(TurnError::NudgeOnCooldown))
        } else {
            (RoomView { nudges: r.nudges.insert(sender, now), ..r }, Ok(c))
        },
    }
}

pub open spec fn attach_spec(r: RoomView, id: Seq<char>) -> (RoomView, u64) {
    let e = r.next_conn_epoch;
    let ps = match position(r.players, id) {
        Some(i) => r.players.update(i, PlayerView { connected: true, conn_epoch: e, ..r.players[i] }),
        None => r.players,
    };
    (RoomView { players: ps, next_conn_epoch: (e + 1) as u64, ..r }, e)
}

pub open spec fn detach_spec(r: RoomView, id: Seq<char>, epoch: u64) -> (RoomView, bool) {
    match position(r.players, id) {
        None => (r, false),
        Some(i) => if r.players[i].conn_epoch == epoch {
            (RoomView { players: r.players.update(i, PlayerView { connected: false, ..r.players[i] }), ..r }, true)
        } else {
            (r, false)
        },
    }
}


pub open spec fn id_result(r: Result<PlayerId, TurnError>) -> Result<Seq<char>, TurnError> {
    match r {
        Ok(p) => Ok(p@),
        Err(e) => Err(e),
    }
}

pub open spec fn id_views(ids: Seq<PlayerId>) -> Seq<Seq<char>> {
    ids.map_values(|p: PlayerId| p@)
}

pub open spec fn string_views(ss: Seq<String>) -> Seq<Seq<char>> {
    ss.map_values(|s: String| s@)
}

/// If `rest` plus the first `k` items of `order` make up `all`, and `order`
/// makes up `all` on its own, then `rest` is exactly the tail of `order`.
pub proof fn lemma_multiset_cancel_prefix(rest: Seq<Seq<char>>, order: Seq<Seq<char>>, all: Seq<Seq<char>>, k: int)
    requires
        0 <= k <= order.len(),
        rest.to_multiset().add(order.take(k).to_multiset()) == all.to_multiset(),
        order.to_multiset() == all.to_multiset(),
    ensures
        rest.to_multiset() == order.skip(k).to_multiset(),
{
    broadcast use vstd::seq_lib::group_to_multiset_ensures;

    assert(order =~= order.take(k) + order.skip(k));
    vstd::seq_lib::lemma_multiset_commutative(order.take(k), order.skip(k));
    let a = rest.to_multiset();
    let t = order.take(k).to_multiset();
    let b = order.skip(k).to_multiset();
    assert forall|x: Seq<char>| a.count(x) == b.count(x) by {
        assert(a.add(t).count(x) == a.count(x) + t.count(x));
        assert(t.add(b).count(x) == t.count(x) + b.count(x));
    }
    assert(a =~= b);
}

/// Moving one copy of `x` from `a` to `t` leaves the sum unchanged.
pub proof fn lemma_multiset_move<A>(a: Multiset<A>, t: Multiset<A>, x: A)
    requires
        a.count(x) > 0,
    ensures
        a.remove(x).add(t.insert(x)) == a.add(t),
{
    assert(a.remove(x).add(t.insert(x)) =~= a.add(t));
}

pub open spec fn opt_index(r: Option<usize>) -> Option<int> {
    match r {
        Some(i) => Some(i as int),
        None => None,
    }
}

/// `i` is the first index of a player holding `token`.
pub open spec fn first_token_index(ps: Seq<PlayerView>, token: Seq<char>, i: int) -> bool {
    &&& 0 <= i < ps.len()
    &&& ps[i].token == token
    &&& forall|j: int| 0 <= j < i ==> ps[j].token != token
}

/// Is the room at capacity?
pub open spec fn is_full_spec(r: RoomView) -> bool {
    r.players.len() >= MAX_PLAYERS
}

/// Has the room been idle for at least `ttl`?
pub open spec fn is_expired_spec(r: RoomView, now: Instant, ttl: Duration) -> bool {
    now.elapsed_since(r.last_active) >= ttl.ns()
}

/// Index of the first player in `players` with id `id`.
fn position_in(players: &Vec<Player>, id: &PlayerId) -> (r: Option<usize>)
    ensures
        opt_index(r) == position(player_views(players@), id@),
        match r {
            Some(i) => first_index(player_views(players@), id@, i as int),
            None => !has_id(player_views(players@), id@),
        },
{
    let ghost ps = player_views(players@);
    let mut i: usize = 0;
    while i < players.len()
        invariant
            ps == player_views(players@),
            i <= players@.len(),
            forall|j: int| 0 <= j < i ==> ps[j].id != id@,
        decreases players@.len() - i,
    {
        if players[i].id == *id {
            proof {
                lemma_position_some(ps, id@, i as int);
            }
            return Some(i);
        }
        i = i + 1;
    }
    proof {
        lemma_position_none(ps, id@);
    }
    None
}

/// Index of the first string in `pool` equal to `s`.
fn position_of_string(pool: &Vec<String>, s: &String) -> (r: Option<usize>)
    ensures
        match r {
            Some(i) => i < pool@.len() && pool@[i as int]@ == s@,
            None => forall|j: int| 0 <= j < pool@.len() ==> pool@[j]@ != s@,
        },
{
    let mut i: usize = 0;
    while i < pool.len()
        invariant
            i <= pool@.len(),
            forall|j: int| 0 <= j < i ==> pool@[j]@ != s@,
        decreases pool@.len() - i,
    {
        if pool[i] == *s {
            return Some(i);
        }
        i = i + 1;
    }
    None
}

impl Room {
    fn find_player(&self, id: &PlayerId) -> (r: Option<usize>)
        ensures
            opt_index(r) == position(self@.players, id@),
            match r {
                Some(i) => first_index(self@.players, id@, i as int),
                None => !has_id(self@.players, id@),
            },
    {
        position_in(&self.players, id)
    }

    /// Create a new room in the Lobby state with the host as its first player.
    /// Returns the room plus the host's player id and secret token.
    pub fn create(code: RoomCode, host_name: String, now: Instant) -> (r: (Self, PlayerId, String))
        ensures
            is_token(r.1@),
            is_token(r.2@),
            r.0@ == created_view(code@, new_player_view(r.1@, host_name@, r.2@, true), now),
    {
        let host_id = PlayerId(generate_token());
        let token = generate_token();
        let host = Player::new(host_id.clone(), host_name, token.clone(), true);
        let mut players: Vec<Player> = Vec::new();
        players.push(host);
        let room = Room {
            code,
            created_at: now,
            last_active: now,
            state: RoomState::Lobby,
            locked: false,
            players,
            current_player_id: None,
            previous_player_id: None,
            turn_started_at: None,
            last_nudge_at: NudgeTimes::new(),
            next_conn_epoch: 1,
        };
        assert(room@.players =~= seq![new_player_view(host_id@, host_name@, token@, true)]);
        (room, host_id, token)
    }

    /// Add a new (non-host) player at the end of the turn order. Returns the new
    /// player's id and token.
    pub fn add_player(&mut self, name: String, now: Instant) -> (r: (PlayerId, String))
        ensures
            is_token(r.0@),
            is_token(r.1@),
            final(self)@ == (RoomView {
                players: old(self)@.players.push(new_player_view(r.0@, name@, r.1@, false)),
                last_active: now,
                ..old(self)@
            }),
    {
        let id = PlayerId(generate_token());
        let token = generate_token();
        let ghost nv = new_player_view(id@, name@, token@, false);
        self.players.push(Player::new(id.clone(), name, token.clone(), false));
        self.last_active = now;
        assert(self@.players =~= old(self)@.players.push(nv));
        (id, token)
    }

    /// True once the room holds [`MAX_PLAYERS`] players (no more may join).
    pub fn is_full(&self) -> (b: bool)
        ensures
            b == is_full_spec(self@),
    {
        self.players.len() >= MAX_PLAYERS
    }

    /// Find a player by their secret token.
    pub fn player_by_token(&self, token: &str) -> (r: Option<&Player>)
        ensures
            match r {
                Some(p) => exists|i: int| first_token_index(self@.players, token@, i) && p@ == self@.players[i],
                None => forall|i: int| 0 <= i < self@.players.len() ==> self@.players[i].token != token@,
            },
    {
        let t = token.to_owned();
        let mut i: usize = 0;
        while i < self.players.len()
            invariant
                t@ == token@,
                i <= self.players@.len(),
                forall|j: int| 0 <= j < i ==> self@.players[j].token != token@,
            decreases self.players@.len() - i,
        {
            if self.players[i].token == t {
                assert(first_token_index(self@.players, token@, i as int));
                return Some(&self.players[i]);
            }
            i = i + 1;
        }
        None
    }

    /// Whether `id` is one of the room's hosts.
    pub fn is_host(&self, id: &PlayerId) -> (b: bool)
        ensures
            b == is_host_in(self@.players, id@),
    {
        let mut i: usize = 0;
        while i < self.players.len()
            invariant
                i <= self.players@.len(),
                forall|j: int| 0 <= j < i ==> !(self@.players[j].id == id@ && self@.players[j].is_host),
            decreases self.players@.len() - i,
        {
            if self.players[i].id == *id && self.players[i].is_host {
                assert(self@.players[i as int].is_host);
                return true;
            }
            i = i + 1;
        }
        proof {
            if is_host_in(self@.players, id@) {
                let j = choose|j: int| 0 <= j < self@.players.len() && self@.players[j].id == id@ && #[trigger] self@.players[j].is_host;
                assert(!(self@.players[j].id == id@ && self@.players[j].is_host));
            }
        }
        false
    }

    /// Attach a live connection to `id`: mark the player connected and return
    /// the epoch identifying this connection as the player's current owner.
    /// A later attach supersedes an earlier one. The epoch is burned even when
    /// `id` is unknown, so a stale caller is never handed an epoch that matches
    /// some other player.
    pub fn attach_connection(&mut self, id: &PlayerId) -> (e: ConnEpoch)
        requires
            old(self).next_conn_epoch < u64::MAX,
        ensures
            (final(self)@, e.0) == attach_spec(old(self)@, id@),
    {
        let epoch = ConnEpoch(self.next_conn_epoch);
        self.next_conn_epoch = self.next_conn_epoch + 1;
        let found = self.find_player(id);
        match found {
            Some(i) => {
                self.players[i].connected = true;
                self.players[i].conn_epoch = epoch;
                assert(self@.players =~= old(self)@.players.update(
                    i as int,
                    PlayerView { connected: true, conn_epoch: epoch.0, ..old(self)@.players[i as int] },
                ));
            },
            None => {
                assert(self@.players =~= old(self)@.players);
            },
        }
        epoch
    }

    /// Detach a departing connection: clear `connected` only if `epoch` is
    /// still the player's owner. Returns true if the flag was actually cleared;
    /// false means a newer connection has taken over (or the id is unknown) and
    /// nothing changed.
    pub fn detach_connection(&mut self, id: &PlayerId, epoch: ConnEpoch) -> (b: bool)
        ensures
            (final(self)@, b) == detach_spec(old(self)@, id@, epoch.0),
    {
        match self.find_player(id) {
            Some(i) => {
                if self.players[i].conn_epoch == epoch {
                    self.players[i].connected = false;
                    assert(self@.players =~= old(self)@.players.update(
                        i as int,
                        PlayerView { connected: false, ..old(self)@.players[i as int] },
                    ));
                    true
                } else {
                    false
                }
            },
            None => false,
        }
    }

    /// Transition Lobby -> Active. Host-only. The first player in order becomes current.
    /// `NotAuthorized` if `actor` is not the host; `WrongState` if not in Lobby.
    pub fn start_game(&mut self, actor: &PlayerId, now: Instant) -> (r: Result<(), TurnError>)
        ensures
            (final(self)@, r) == start_game_spec(old(self)@, actor@, now),
    {
        if !self.is_host(actor) {
            return Err(TurnError::NotAuthorized);
        }
        if self.state != RoomState::Lobby {
            return Err(TurnError::WrongState);
        }
        self.state = RoomState::Active;
        self.current_player_id = if self.players.len() > 0 {
            Some(self.players[0].id.clone())
        } else {
            None
        };
        self.previous_player_id = None;
        self.turn_started_at = Some(now);
        self.last_active = now;
        Ok(())
    }

    /// Index of `current_player_id` in `players`, if present.
    fn current_index(&self) -> (r: Option<usize>)
        ensures
            opt_index(r) == current_index(self@),
    {
        match &self.current_player_id {
            Some(cur) => self.find_player(cur),
            None => None,
        }
    }

    /// Compute the next eligible player's index, walking forward (wrapping)
    /// from `from_index`, skipping disconnected players and consuming one
    /// `skip_next` flag per skipped player. Returns None if nobody is eligible.
    /// The walk mutates `skip_next` flags, so call it only when actually advancing.
    pub fn advance_from(&mut self, from_index: usize) -> (r: Option<usize>)
        ensures
            old(self)@.players.len() == 0 ==> r is None && final(self)@ == old(self)@,
            old(self)@.players.len() > 0 ==> {
                let from = from_index as int % old(self)@.players.len() as int;
                &&& final(self)@ == (RoomView {
                    players: consume_skips(old(self)@.players, from),
                    ..old(self)@
                })
                &&& opt_index(r) == next_eligible(old(self)@.players, from)
            },
    {
        let n = self.players.len();
        if n == 0 {
            return None;
        }
        let start = from_index % n;
        let ghost ps = old(self)@.players;
        let ghost nn = n as int;
        assert(ps.len() == n);
        proof {
            lemma_offsets(nn, start as int);
            assert(walked(ps, start as int, 1) =~= ps);
        }
        let mut k: usize = 0;
        while k < n
            invariant
                n == ps.len(),
                ps == old(self)@.players,
                self.players@.len() == n,
                nn == n,
                0 <= start < n,
                start as int == from_index as int % nn,
                k <= n,
                self@ == (RoomView { players: walked(ps, start as int, k + 1), ..old(self)@ }),
                forall|o: int| 1 <= o <= k ==> !eligible(#[trigger] ps[index_at(nn, start as int, o)]),
                forall|o: int| 1 <= o <= nn ==> 0 <= #[trigger] index_at(nn, start as int, o) < nn && offset_of(nn, start as int, index_at(nn, start as int, o)) == o,
                forall|j: int| 0 <= j < nn ==> 1 <= #[trigger] offset_of(nn, start as int, j) <= nn && index_at(nn, start as int, offset_of(nn, start as int, j)) == j,
            decreases n - k,
        {
            let offset = k + 1;
            let idx = if offset < n - start {
                start + offset
            } else {
                offset - (n - start)
            };
            assert(idx as int == index_at(nn, start as int, offset as int));
            assert(self@.players[idx as int] == ps[idx as int]);
            if !self.players[idx].connected {
                proof {
                    assert(walked(ps, start as int, offset + 1) =~= walked(ps, start as int, offset as int));
                }
                k = k + 1;
                continue;
            }
            if self.players[idx].skip_next {
                let ghost before = self.players@;
                let ghost wk = walked(ps, start as int, offset as int);
                assert(player_views(before) == wk);
                self.players[idx].skip_next = false;
                proof {
                    assert(self.players@ == before.update(idx as int, self.players@[idx as int]));
                    assert(self.players@[idx as int]@ == PlayerView { skip_next: false, ..before[idx as int]@ });
                    let w1 = walked(ps, start as int, offset + 1);
                    assert forall|j: int| 0 <= j < nn implies #[trigger] self@.players[j] == w1[j] by {
                        if j == idx as int {
                            assert(offset_of(nn, start as int, j) == offset);
                            assert(wk[j] == ps[j]);
                            assert(before[j]@ == ps[j]);
                            assert(w1[j] == PlayerView { skip_next: false, ..ps[j] });
                            assert(self@.players[j] == self.players@[j]@);
                        } else {
                            assert(index_at(nn, start as int, offset_of(nn, start as int, j)) == j);
                            assert(offset_of(nn, start as int, j) != offset);
                            assert(self.players@[j] == before[j]);
                            assert(w1[j] == wk[j]);
                            assert(self@.players[j] == before[j]@);
                        }
                    }
                    assert(self@.players =~= w1);
                }
                k = k + 1;
                continue;
            }
            proof {
                assert(first_eligible_step(ps, start as int, offset as int));
                lemma_first_step_unique(ps, start as int, offset as int);
                assert(start as int == from_index as int % nn);
                assert(next_eligible(ps, start as int) == Some(idx as int));
                assert(stop_step(ps, start as int) == offset);
                assert(consume_skips(ps, start as int) == walked(ps, start as int, offset as int));
            }
            return Some(idx);
        }
        proof {
            lemma_no_eligible_step(ps, start as int);
        }
        None
    }

    /// Like `advance_from` but does NOT consume skip flags (read-only peek).
    pub fn peek_next(&self, from_index: usize) -> (r: Option<usize>)
        ensures
            self@.players.len() == 0 ==> r is None,
            self@.players.len() > 0 ==> opt_index(r) == next_eligible(self@.players, from_index as int % self@.players.len() as int),
    {
        let n = self.players.len();
        if n == 0 {
            return None;
        }
        let start = from_index % n;
        let ghost ps = self@.players;
        let ghost nn = n as int;
        assert(ps.len() == n);
        proof {
            lemma_offsets(nn, start as int);
        }
        let mut k: usize = 0;
        while k < n
            invariant
                n == ps.len(),
                self.players@.len() == n,
                ps == self@.players,
                nn == n,
                0 <= start < n,
                start as int == from_index as int % nn,
                k <= n,
                forall|o: int| 1 <= o <= k ==> !eligible(#[trigger] ps[index_at(nn, start as int, o)]),
                forall|o: int| 1 <= o <= nn ==> 0 <= #[trigger] index_at(nn, start as int, o) < nn && offset_of(nn, start as int, index_at(nn, start as int, o)) == o,
            decreases n - k,
        {
            let offset = k + 1;
            let idx = if offset < n - start {
                start + offset
            } else {
                offset - (n - start)
            };
            assert(idx as int == index_at(nn, start as int, offset as int));
            assert(self@.players[idx as int] == self.players@[idx as int]@);
            if self.players[idx].connected && !self.players[idx].skip_next {
                proof {
                    assert(first_eligible_step(ps, start as int, offset as int));
                    lemma_first_step_unique(ps, start as int, offset as int);
                    assert(start as int == from_index as int % nn);
                    assert(next_eligible(ps, start as int) == Some(idx as int));
                }
                return Some(idx);
            }
            k = k + 1;
        }
        proof {
            lemma_no_eligible_step(ps, start as int);
        }
        None
    }

    /// Shared advance: move current -> next eligible, recording previous.
    fn advance_turn(&mut self, now: Instant) -> (r: Result<(), TurnError>)
        ensures
            (final(self)@, r) == advance_turn_spec(old(self)@, now),
    {
        let cur_idx = match self.current_index() {
            Some(i) => i,
            None => return Err(TurnError::WrongState),
        };
        let ghost n = self@.players.len() as int;
        proof {
            vstd::arithmetic::div_mod::lemma_small_mod(cur_idx as nat, n as nat);
        }
        if self.peek_next(cur_idx).is_none() {
            return Err(TurnError::NotFound);
        }
        let next_idx = match self.advance_from(cur_idx) {
            Some(i) => i,
            None => return Err(TurnError::NotFound),
        };
        proof {
            lemma_offsets(n, cur_idx as int);
            lemma_stop_in_range(old(self)@.players, cur_idx as int);
        }
        assert(self@.players[next_idx as int].id == old(self)@.players[next_idx as int].id);
        let mut cur = Some(self.players[next_idx].id.clone());
        std::mem::swap(&mut cur, &mut self.current_player_id);
        self.previous_player_id = cur;
        self.turn_started_at = Some(now);
        self.last_active = now;
        Ok(())
    }

    /// Advance the turn. Authorized for the current player OR the host.
    /// `WrongState` if not Active; `NotAuthorized` if `actor` is neither the
    /// current player nor the host.
    pub fn end_turn(&mut self, actor: &PlayerId, now: Instant) -> (r: Result<(), TurnError>)
        ensures
            (final(self)@, r) == end_turn_spec(old(self)@, actor@, now),
    {
        if self.state != RoomState::Active {
            return Err(TurnError::WrongState);
        }
        let is_current = match &self.current_player_id {
            Some(c) => *c == *actor,
            None => false,
        };
        if !is_current && !self.is_host(actor) {
            return Err(TurnError::NotAuthorized);
        }
        self.advance_turn(now)
    }

    /// "Pull" the turn: the NEXT eligible player claims it early.
    /// `WrongState` if not Active; `NotYourTurn` if `actor` is not the next
    /// eligible player.
    pub fn claim_turn(&mut self, actor: &PlayerId, now: Instant) -> (r: Result<(), TurnError>)
        ensures
            (final(self)@, r) == claim_turn_spec(old(self)@, actor@, now),
    {
        if self.state != RoomState::Active {
            return Err(TurnError::WrongState);
        }
        let cur_idx = match self.current_index() {
            Some(i) => i,
            None => return Err(TurnError::WrongState),
        };
        proof {
            vstd::arithmetic::div_mod::lemma_small_mod(cur_idx as nat, self@.players.len());
        }
        let next_idx = match self.peek_next(cur_idx) {
            Some(i) => i,
            None => return Err(TurnError::NotYourTurn),
        };
        proof {
            lemma_offsets(self@.players.len() as int, cur_idx as int);
            lemma_stop_in_range(self@.players, cur_idx as int);
        }
        if self.players[next_idx].id != *actor {
            return Err(TurnError::NotYourTurn);
        }
        self.advance_turn(now)
    }

    /// Single-level undo: move the turn back to the immediately previous holder.
    /// Host-only. Does NOT restore any skip flags consumed by the advance.
    /// `NotAuthorized` if `actor` is not the host; `WrongState` if not Active or
    /// there is no previous holder; `NotFound` if the previous player no longer
    /// exists (a refused undo changes nothing).
    pub fn undo_turn(&mut self, actor: &PlayerId, now: Instant) -> (r: Result<(), TurnError>)
        ensures
            (final(self)@, r) == undo_turn_spec(old(self)@, actor@, now),
    {
        if !self.is_host(actor) {
            return Err(TurnError::NotAuthorized);
        }
        if self.state != RoomState::Active {
            return Err(TurnError::WrongState);
        }
        let prev = match &self.previous_player_id {
            Some(p) => p.clone(),
            None => return Err(TurnError::WrongState),
        };
        if self.find_player(&prev).is_none() {
            return Err(TurnError::NotFound);
        }
        self.current_player_id = Some(prev);
        self.previous_player_id = None;
        self.turn_started_at = Some(now);
        self.last_active = now;
        Ok(())
    }

    /// Host flags a player to be skipped on their next turn. If that player is
    /// currently active, the turn advances immediately past them.
    /// `NotAuthorized` if `actor` is not the host; `NotFound` if `target` is
    /// not in the room (or, when advancing, nobody is eligible).
    pub fn skip_player(&mut self, actor: &PlayerId, target: &PlayerId, now: Instant) -> (r: Result<(), TurnError>)
        ensures
            (final(self)@, r) == skip_player_spec(old(self)@, actor@, target@, now),
    {
        if !self.is_host(actor) {
            return Err(TurnError::NotAuthorized);
        }
        let idx = match self.find_player(target) {
            Some(i) => i,
            None => return Err(TurnError::NotFound),
        };
        let target_is_current = match &self.current_player_id {
            Some(c) => *c == *target,
            None => false,
        };
        let old_flag = self.players[idx].skip_next;
        self.players[idx].skip_next = true;
        let ghost flagged = old(self)@.players.update(
            idx as int,
            PlayerView { skip_next: true, ..old(self)@.players[idx as int] },
        );
        assert(self@.players =~= flagged);
        if self.state == RoomState::Active && target_is_current {
            let ghost n = flagged.len() as int;
            proof {
                vstd::arithmetic::div_mod::lemma_small_mod(idx as nat, n as nat);
            }
            if self.peek_next(idx).is_none() {
                // Nobody can take the turn: refuse and put the flag back.
                self.players[idx].skip_next = old_flag;
                assert(self@.players =~= old(self)@.players);
                return Err(TurnError::NotFound);
            }
            let next = match self.advance_from(idx) {
                Some(i) => i,
                None => return Err(TurnError::NotFound),
            };
            proof {
                lemma_offsets(n, idx as int);
                lemma_stop_in_range(flagged, idx as int);
            }
            assert(self@.players[next as int].id == flagged[next as int].id);
            let mut cur = Some(self.players[next].id.clone());
            std::mem::swap(&mut cur, &mut self.current_player_id);
            self.previous_player_id = cur;
            self.turn_started_at = Some(now);
        }
        self.last_active = now;
        Ok(())
    }

    /// Host removes a player from the room and the rotation. If the removed
    /// player was current, the turn advances to the next eligible player first
    /// (computed before removal so order is preserved); with no successor there
    /// is no current player and no turn clock.
    /// `NotAuthorized` if `actor` is not the host; `NotFound` if `target` is
    /// not present.
    pub fn remove_player(&mut self, actor: &PlayerId, target: &PlayerId, now: Instant) -> (r: Result<(), TurnError>)
        ensures
            (final(self)@, r) == remove_player_spec(old(self)@, actor@, target@, now),
    {
        if !self.is_host(actor) {
            return Err(TurnError::NotAuthorized);
        }
        let idx = match self.find_player(target) {
            Some(i) => i,
            None => return Err(TurnError::NotFound),
        };
        let removing_current = self.state == RoomState::Active && match &self.current_player_id {
            Some(c) => *c == *target,
            None => false,
        };
        let ghost ps = old(self)@.players;
        if removing_current {
            let ghost n = ps.len() as int;
            proof {
                vstd::arithmetic::div_mod::lemma_small_mod(idx as nat, n as nat);
            }
            let next = self.advance_from(idx);
            proof {
                lemma_offsets(n, idx as int);
                lemma_stop_in_range(ps, idx as int);
            }
            match next {
                Some(i) if i != idx => {
                    assert(self@.players[i as int].id == ps[i as int].id);
                    self.current_player_id = Some(self.players[i].id.clone());
                    self.turn_started_at = Some(now);
                },
                _ => {
                    self.current_player_id = None;
                    self.turn_started_at = None;
                },
            }
        }
        let clear_previous = match &self.previous_player_id {
            Some(p) => *p == *target,
            None => false,
        };
        if clear_previous {
            self.previous_player_id = None;
        }
        let ghost before = self.players@;
        self.players.remove(idx);
        assert(self@.players =~= player_views(before).remove(idx as int));
        self.last_nudge_at.remove(target);
        self.last_active = now;
        Ok(())
    }

    /// Host toggles whether brand-new players may join. Allowed in any state;
    /// does not affect reconnection by token. Setting the current value is a
    /// successful no-op (apart from the activity stamp).
    /// `NotAuthorized` if `actor` is not the host.
    pub fn set_locked(&mut self, actor: &PlayerId, locked: bool, now: Instant) -> (r: Result<(), TurnError>)
        ensures
            (final(self)@, r) == set_locked_spec(old(self)@, actor@, locked, now),
    {
        if !self.is_host(actor) {
            return Err(TurnError::NotAuthorized);
        }
        self.locked = locked;
        self.last_active = now;
        Ok(())
    }

    /// A non-current player nudges the current player. Enforces a per-sender
    /// cooldown. Returns the current player's id (the nudge target) on success.
    /// `WrongState` if no turn is in progress; `NotAuthorized` if the sender IS
    /// the current player; `NudgeOnCooldown` if the sender nudged within
    /// the cooldown.
    pub fn nudge(&mut self, sender: &PlayerId, now: Instant) -> (r: Result<PlayerId, TurnError>)
        ensures
            (final(self)@, id_result(r)) == nudge_spec(old(self)@, sender@, now),
    {
        let current = match &self.current_player_id {
            Some(c) => c.clone(),
            None => return Err(TurnError::WrongState),
        };
        if current == *sender {
            return Err(TurnError::NotAuthorized);
        }
        match self.last_nudge_at.get(sender) {
            Some(last) => {
                if now.duration_since(last).as_nanos() < NUDGE_COOLDOWN_NS {
                    return Err(TurnError::NudgeOnCooldown);
                }
            },
            None => {},
        }
        self.last_nudge_at.insert(sender.clone(), now);
        Ok(current)
    }

    /// True if the room has been inactive for at least `ttl`.
    pub fn is_expired(&self, now: Instant, ttl: Duration) -> (b: bool)
        ensures
            b == is_expired_spec(self@, now, ttl),
    {
        now.duration_since(self.last_active).as_nanos() >= ttl.as_nanos()
    }

    /// Host reorders the rotation. `order` must be a permutation of exactly the
    /// current player ids (same multiset, no additions/removals). The current
    /// player pointer is preserved (it tracks by id, not position).
    /// `NotAuthorized` if not host; `NotFound` if `order` is not a permutation
    /// of the existing ids.
    pub fn set_order(&mut self, actor: &PlayerId, order: &[PlayerId], now: Instant) -> (r: Result<(), TurnError>)
        ensures
            r == set_order_result(old(self)@, actor@, id_views(order@)),
            set_order_post(old(self)@, actor@, id_views(order@), now, final(self)@),
    {
        broadcast use vstd::seq_lib::group_to_multiset_ensures;

        if !self.is_host(actor) {
            return Err(TurnError::NotAuthorized);
        }
        let ghost ps = old(self)@.players;
        let ghost want = id_views(order@);
        if order.len() != self.players.len() {
            return Err(TurnError::NotFound);
        }
        if !self.is_reordering(order) {
            return Err(TurnError::NotFound);
        }
        // Move each player into place, taking the first remaining holder of each id.
        let mut remaining: Vec<Player> = Vec::new();
        std::mem::swap(&mut remaining, &mut self.players);
        let mut reordered: Vec<Player> = Vec::new();
        assert(player_views(remaining@) == ps);
        assert(want.take(0) =~= Seq::<Seq<char>>::empty());
        assert(player_views(reordered@) =~= Seq::<PlayerView>::empty());
        let mut k: usize = 0;
        while k < order.len()
            invariant
                k <= order@.len(),
                order@.len() == ps.len(),
                want == id_views(order@),
                ps == old(self)@.players,
                is_reordering(ps, want),
                ids(player_views(reordered@)) == want.take(k as int),
                ids(player_views(remaining@)).to_multiset().add(want.take(k as int).to_multiset()) == ids(ps).to_multiset(),
                player_views(remaining@).to_multiset().add(player_views(reordered@).to_multiset()) == ps.to_multiset(),
                self@ == (RoomView { players: player_views(self.players@), ..old(self)@ }),
            decreases order@.len() - k,
        {
            let ghost rv = player_views(remaining@);
            proof {
                lemma_multiset_cancel_prefix(ids(rv), want, ids(ps), k as int);
                assert(want.skip(k as int)[0] == want[k as int]);
                assert(want.skip(k as int).contains(want[k as int]));
                want.skip(k as int).to_multiset_ensures();
                ids(rv).to_multiset_ensures();
                assert(ids(rv).to_multiset().count(want[k as int]) > 0);
                assert(ids(rv).contains(want[k as int]));
            }
            let j = match position_in(&remaining, &order[k]) {
                Some(j) => j,
                None => {
                    proof {
                        let x = choose|x: int| 0 <= x < ids(rv).len() && ids(rv)[x] == want[k as int];
                        assert(rv[x].id == want[k as int]);
                    }
                    return Err(TurnError::NotFound);
                },
            };
            let ghost before_re = reordered@;
            let p = remaining.remove(j);
            reordered.push(p);
            proof {
                let x = p@;
                assert(rv[j as int] == x);
                assert(player_views(remaining@) =~= rv.remove(j as int));
                assert(ids(player_views(remaining@)) =~= ids(rv).remove(j as int));
                assert(player_views(reordered@) =~= player_views(before_re).push(x));
                assert(want.take(k + 1) =~= want.take(k as int).push(want[k as int]));
                assert(ids(player_views(reordered@)) =~= want.take(k + 1));
                assert(ids(rv)[j as int] == want[k as int]);
                ids(rv).to_multiset_ensures();
                rv.to_multiset_ensures();
                want.take(k as int).to_multiset_ensures();
                player_views(before_re).to_multiset_ensures();
                assert(ids(rv).remove(j as int).to_multiset() =~= ids(rv).to_multiset().remove(want[k as int]));
                assert(rv.remove(j as int).to_multiset() =~= rv.to_multiset().remove(x));
                assert(ids(rv).contains(want[k as int]));
                assert(rv.contains(x));
                lemma_multiset_move(ids(rv).to_multiset(), want.take(k as int).to_multiset(), want[k as int]);
                lemma_multiset_move(rv.to_multiset(), player_views(before_re).to_multiset(), x);
                assert(ids(player_views(remaining@)).to_multiset().add(want.take(k + 1).to_multiset()) =~= ids(ps).to_multiset());
                assert(player_views(remaining@).to_multiset().add(player_views(reordered@).to_multiset()) =~= ps.to_multiset());
            }
            k = k + 1;
        }
        proof {
            assert(want.take(order@.len() as int) =~= want);
            let rv = player_views(remaining@);
            assert(ids(rv).to_multiset().add(want.to_multiset()).len() == ids(ps).to_multiset().len());
            assert(rv.len() == ids(rv).len());
            assert(rv =~= Seq::<PlayerView>::empty());
            assert(rv.to_multiset() =~= Multiset::<PlayerView>::empty());
            assert(player_views(reordered@).to_multiset() =~= ps.to_multiset());
        }
        self.players = reordered;
        self.last_active = now;
        Ok(())
    }

    /// Whether `order` names every player exactly as often as the room does.
    fn is_reordering(&self, order: &[PlayerId]) -> (b: bool)
        requires
            order@.len() == self@.players.len(),
        ensures
            b == is_reordering(self@.players, id_views(order@)),
    {
        broadcast use vstd::seq_lib::group_to_multiset_ensures;

        let ghost ps = self@.players;
        let ghost want = id_views(order@);
        let mut pool: Vec<String> = Vec::new();
        let mut i: usize = 0;
        assert(ids(ps).take(0) =~= Seq::<Seq<char>>::empty());
        while i < self.players.len()
            invariant
                ps == self@.players,
                ps.len() == self.players@.len(),
                i <= self.players@.len(),
                string_views(pool@) == ids(ps).take(i as int),
            decreases self.players@.len() - i,
        {
            pool.push(self.players[i].id.0.clone());
            assert(ids(ps).take(i + 1) =~= ids(ps).take(i as int).push(ps[i as int].id));
            assert(string_views(pool@) =~= ids(ps).take(i + 1));
            i = i + 1;
        }
        assert(ids(ps).take(ps.len() as int) =~= ids(ps));
        assert(want.take(0) =~= Seq::<Seq<char>>::empty());
        assert(string_views(pool@).to_multiset().add(want.take(0).to_multiset()) =~= ids(ps).to_multiset());
        let mut k: usize = 0;
        while k < order.len()
            invariant
                k <= order@.len(),
                order@.len() == ps.len(),
                want == id_views(order@),
                ps == self@.players,
                pool@.len() + k == ps.len(),
                string_views(pool@).to_multiset().add(want.take(k as int).to_multiset()) == ids(ps).to_multiset(),
            decreases order@.len() - k,
        {
            let ghost pv = string_views(pool@);
            let j = match position_of_string(&pool, &order[k].0) {
                Some(j) => j,
                None => {
                    proof {
                        assert(!pv.contains(want[k as int])) by {
                            if pv.contains(want[k as int]) {
                                let x = choose|x: int| 0 <= x < pv.len() && pv[x] == want[k as int];
                                assert(pool@[x]@ == want[k as int]);
                            }
                        }
                        if is_reordering(ps, want) {
                            lemma_multiset_cancel_prefix(pv, want, ids(ps), k as int);
                            assert(want.skip(k as int)[0] == want[k as int]);
                            assert(want.skip(k as int).contains(want[k as int]));
                            want.skip(k as int).to_multiset_ensures();
                            pv.to_multiset_ensures();
                            assert(pv.to_multiset().count(want[k as int]) > 0);
                            assert(false);
                        }
                    }
                    return false;
                },
            };
            pool.remove(j);
            proof {
                assert(pv[j as int] == want[k as int]);
                assert(string_views(pool@) =~= pv.remove(j as int));
                assert(want.take(k + 1) =~= want.take(k as int).push(want[k as int]));
                pv.to_multiset_ensures();
                want.take(k as int).to_multiset_ensures();
                assert(pv.remove(j as int).to_multiset() =~= pv.to_multiset().remove(pv[j as int]));
                assert(pv.contains(pv[j as int]));
                lemma_multiset_move(pv.to_multiset(), want.take(k as int).to_multiset(), pv[j as int]);
                assert(string_views(pool@).to_multiset().add(want.take(k + 1).to_multiset()) =~= ids(ps).to_multiset());
            }
            k = k + 1;
        }
        proof {
            assert(want.take(order@.len() as int) =~= want);
            assert(string_views(pool@) =~= Seq::<Seq<char>>::empty());
            assert(string_views(pool@).to_multiset() =~= Multiset::<Seq<char>>::empty());
            assert(want.to_multiset() =~= ids(ps).to_multiset());
        }
        true
    }
}

} // verus!
