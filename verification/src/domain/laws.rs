//! What holds of the turn engine across operations: the rules that a table of
//! players relies on, stated over the room's transition functions and proved.

use vstd::prelude::*;

use crate::domain::room::{
    NUDGE_COOLDOWN_NS, RoomState, RoomView, TurnError, advance_turn_spec, attach_spec,
    claim_turn_spec, consume_skips, current_index, detach_spec, eligible, end_turn_spec,
    first_eligible_step, first_index, has_id, is_host_in, lemma_offsets, lemma_position_some,
    lemma_stop_in_range, next_eligible, nudge_spec, position, remove_player_spec,
    set_locked_spec, skip_player_spec, start_game_spec, stop_step, undo_turn_spec,
    created_view, ids, set_order_post, index_at, offset_of,
};
use crate::domain::player::PlayerView;
use crate::time::Instant;
use crate::wire::public_room_of;

verus! {

/// The current player's index, when the turn can be advanced.
proof fn lemma_current_index(r: RoomView) -> (ci: int)
    requires
        current_index(r) is Some,
    ensures
        current_index(r) == Some(ci),
        r.current == Some(r.players[ci].id),
        first_index(r.players, r.players[ci].id, ci),
{
    let c = r.current->0;
    let ci = choose|i: int| first_index(r.players, c, i);
    ci
}

/// A player holding `id` at `i` means there is a first one.
proof fn lemma_first_index_exists(ps: Seq<PlayerView>, id: Seq<char>, i: int)
    requires
        0 <= i < ps.len(),
        ps[i].id == id,
    ensures
        exists|k: int| first_index(ps, id, k),
    decreases i,
{
    if exists|j: int| 0 <= j < i && ps[j].id == id {
        let j = choose|j: int| 0 <= j < i && ps[j].id == id;
        lemma_first_index_exists(ps, id, j);
    } else {
        assert(first_index(ps, id, i));
    }
}

/// The forward walk only clears one-turn skip flags: everyone keeps their
/// place, id, host flag and connection.
proof fn lemma_walk_keeps_players(r: RoomView, ci: int)
    requires
        0 <= ci < r.players.len(),
    ensures
        consume_skips(r.players, ci).len() == r.players.len(),
        forall|j: int| 0 <= j < r.players.len() ==> {
            let q = #[trigger] consume_skips(r.players, ci)[j];
            &&& q.id == r.players[j].id
            &&& q.is_host == r.players[j].is_host
            &&& q.connected == r.players[j].connected
        },
{
    lemma_stop_in_range(r.players, ci);
}

/// After a successful advance the turn is with a connected player of the room,
/// and the player who had it is remembered for an undo.
proof fn lemma_advance_ok(r: RoomView, now: Instant)
    requires
        advance_turn_spec(r, now).1 is Ok,
    ensures ({
        let r1 = advance_turn_spec(r, now).0;
        &&& r1.previous == r.current
        &&& r1.state == r.state
        &&& r.current matches Some(c) && has_id(r1.players, c)
        &&& r1.current matches Some(n) && exists|i: int| 0 <= i < r1.players.len()
            && r1.players[i].id == n && #[trigger] r1.players[i].connected
        &&& forall|h: Seq<char>| is_host_in(r.players, h) ==> #[trigger] is_host_in(r1.players, h)
    }),
{
    let ci = lemma_current_index(r);
    let ps = r.players;
    lemma_walk_keeps_players(r, ci);
    lemma_stop_in_range(ps, ci);
    lemma_offsets(ps.len() as int, ci);
    let r1 = advance_turn_spec(r, now).0;
    let ni = next_eligible(ps, ci)->0;
    let o = stop_step(ps, ci);
    assert(first_eligible_step(ps, ci, o));
    assert(eligible(ps[ni]));
    assert(r1.players[ni].connected);
    assert(r1.players[ci].id == ps[ci].id);
    assert forall|h: Seq<char>| is_host_in(r.players, h) implies #[trigger] is_host_in(r1.players, h) by {
        let i = choose|i: int| 0 <= i < ps.len() && ps[i].id == h && #[trigger] ps[i].is_host;
        assert(r1.players[i].is_host);
    }
}

/// A successful claim hands the turn to the claimant, with a fresh clock, and
/// remembers the player it was taken from as the one an undo returns to.
pub proof fn law_claim_hands_turn_to_claimant(r: RoomView, actor: Seq<char>, now: Instant)
    requires
        claim_turn_spec(r, actor, now).1 is Ok,
    ensures
        claim_turn_spec(r, actor, now).0.current == Some(actor),
        claim_turn_spec(r, actor, now).0.previous == r.current,
        claim_turn_spec(r, actor, now).0.turn_started_at == Some(now),
{
}

/// Whoever ends a turn, the turn goes to a connected player of the room.
pub proof fn law_turn_goes_to_a_connected_player(r: RoomView, actor: Seq<char>, now: Instant)
    requires
        end_turn_spec(r, actor, now).1 is Ok,
    ensures
        end_turn_spec(r, actor, now).0.current matches Some(n) && exists|i: int|
            0 <= i < end_turn_spec(r, actor, now).0.players.len()
            && end_turn_spec(r, actor, now).0.players[i].id == n
            && #[trigger] end_turn_spec(r, actor, now).0.players[i].connected,
{
    lemma_advance_ok(r, now);
}

/// Undo reverts an ended turn: the host's undo right after a successful
/// `end_turn` succeeds and gives the turn back to the player who had it.
pub proof fn law_undo_reverts_end_turn(r: RoomView, actor: Seq<char>, host: Seq<char>, t1: Instant, t2: Instant)
    requires
        end_turn_spec(r, actor, t1).1 is Ok,
        is_host_in(r.players, host),
    ensures ({
        let r1 = end_turn_spec(r, actor, t1).0;
        let (r2, res) = undo_turn_spec(r1, host, t2);
        &&& res is Ok
        &&& r2.current == r.current
        &&& r2.previous == None::<Seq<char>>
        &&& r2.players == r1.players
        &&& r2.turn_started_at == Some(t2)
    }),
{
    lemma_advance_ok(r, t1);
}

/// Undo reverts a claimed turn just as it reverts an ended one.
pub proof fn law_undo_reverts_claim_turn(r: RoomView, actor: Seq<char>, host: Seq<char>, t1: Instant, t2: Instant)
    requires
        claim_turn_spec(r, actor, t1).1 is Ok,
        is_host_in(r.players, host),
    ensures ({
        let r1 = claim_turn_spec(r, actor, t1).0;
        let (r2, res) = undo_turn_spec(r1, host, t2);
        &&& res is Ok
        &&& r2.current == r.current
        &&& r2.previous == None::<Seq<char>>
        &&& r2.players == r1.players
    }),
{
    lemma_advance_ok(r, t1);
}

/// A refused action changes nothing: whatever the refusal, the room is left
/// exactly as it was.
pub proof fn law_refusals_change_nothing(
    r: RoomView,
    actor: Seq<char>,
    target: Seq<char>,
    locked: bool,
    now: Instant,
)
    ensures
        start_game_spec(r, actor, now).1 is Err ==> start_game_spec(r, actor, now).0 == r,
        end_turn_spec(r, actor, now).1 is Err ==> end_turn_spec(r, actor, now).0 == r,
        claim_turn_spec(r, actor, now).1 is Err ==> claim_turn_spec(r, actor, now).0 == r,
        undo_turn_spec(r, actor, now).1 is Err ==> undo_turn_spec(r, actor, now).0 == r,
        skip_player_spec(r, actor, target, now).1 is Err
            ==> skip_player_spec(r, actor, target, now).0 == r,
        remove_player_spec(r, actor, target, now).1 is Err
            ==> remove_player_spec(r, actor, target, now).0 == r,
        set_locked_spec(r, actor, locked, now).1 is Err ==> set_locked_spec(r, actor, locked, now).0 == r,
        nudge_spec(r, actor, now).1 is Err ==> nudge_spec(r, actor, now).0 == r,
{
}

/// Attaching a connection issues the room's next epoch and marks the player
/// connected; detaching with that same epoch marks them disconnected again.
pub proof fn law_attach_then_detach(r: RoomView, id: Seq<char>)
    requires
        has_id(r.players, id),
        r.next_conn_epoch < u64::MAX,
    ensures ({
        let (r1, e) = attach_spec(r, id);
        let (r2, b) = detach_spec(r1, id, e);
        &&& e == r.next_conn_epoch
        &&& r1.next_conn_epoch == e + 1
        &&& position(r.players, id) matches Some(i) && {
            &&& r1.players[i].connected
            &&& b
            &&& r2.players == r.players.update(i, PlayerView { connected: false, conn_epoch: e, ..r.players[i] })
        }
    }),
{
    let i = choose|i: int| 0 <= i < r.players.len() && r.players[i].id == id;
    lemma_first_index_exists(r.players, id, i);
    let (r1, e) = attach_spec(r, id);
    let k = position(r.players, id)->0;
    assert(first_index(r.players, id, k));
    assert(first_index(r1.players, id, k));
    lemma_position_some(r1.players, id, k);
    assert(r1.players.update(k, PlayerView { connected: false, ..r1.players[k] })
        =~= r.players.update(k, PlayerView { connected: false, conn_epoch: e, ..r.players[k] }));
}

/// Once a player has re-attached, the connection it replaced cannot detach it:
/// the older epoch no longer matches, detach reports no change, and the player
/// stays connected.
pub proof fn law_superseded_connection_cannot_detach(r: RoomView, id: Seq<char>)
    requires
        has_id(r.players, id),
        r.next_conn_epoch + 1 < u64::MAX,
    ensures ({
        let (r1, e1) = attach_spec(r, id);
        let (r2, e2) = attach_spec(r1, id);
        let (r3, b) = detach_spec(r2, id, e1);
        &&& e1 != e2
        &&& !b
        &&& r3 == r2
        &&& position(r2.players, id) matches Some(i) && r3.players[i].connected
    }),
{
    let i = choose|i: int| 0 <= i < r.players.len() && r.players[i].id == id;
    lemma_first_index_exists(r.players, id, i);
    let (r1, e1) = attach_spec(r, id);
    let (r2, e2) = attach_spec(r1, id);
    let k = position(r.players, id)->0;
    assert(first_index(r.players, id, k));
    assert(first_index(r1.players, id, k));
    lemma_position_some(r1.players, id, k);
    assert(first_index(r2.players, id, k));
    lemma_position_some(r2.players, id, k);
}

/// Epoch 0 is never issued: a room starts handing out epochs at 1, and every
/// attach moves the counter forward. So a player who never attached (epoch 0)
/// cannot be detached by any live connection.
pub proof fn law_never_attached_player_cannot_be_detached(r: RoomView, id: Seq<char>, epoch: u64)
    requires
        epoch != 0,
        position(r.players, id) matches Some(i) && r.players[i].conn_epoch == 0,
    ensures
        detach_spec(r, id, epoch) == (r, false),
        1 <= r.next_conn_epoch < u64::MAX ==> attach_spec(r, id).1 != 0
            && attach_spec(r, id).0.next_conn_epoch >= 1,
{
}

/// The nudge cooldown: after a successful nudge, the same sender's next nudge
/// is refused until the cooldown has elapsed, and accepted once it has (the
/// nudge itself does not move the turn).
pub proof fn law_nudge_cooldown(r: RoomView, sender: Seq<char>, t1: Instant, t2: Instant)
    requires
        nudge_spec(r, sender, t1).1 is Ok,
    ensures ({
        let r1 = nudge_spec(r, sender, t1).0;
        &&& r1.current == r.current
        &&& t2.elapsed_since(t1) < NUDGE_COOLDOWN_NS
            ==> nudge_spec(r1, sender, t2).1 == Err::<Seq<char>, TurnError>(TurnError::NudgeOnCooldown)
        &&& t2.elapsed_since(t1) >= NUDGE_COOLDOWN_NS
            ==> nudge_spec(r1, sender, t2).1 == Ok::<Seq<char>, TurnError>(r.current->0)
    }),
{
}

/// Removing a player takes exactly one player out of the turn order and out
/// of the undo slot. Removing the player whose turn it is hands the turn to a
/// connected player who is still in the room, or, when nobody else is
/// eligible, leaves no turn in progress (no current player, no clock).
pub proof fn law_removal_keeps_the_turn_in_the_room(r: RoomView, actor: Seq<char>, target: Seq<char>, now: Instant)
    requires
        remove_player_spec(r, actor, target, now).1 is Ok,
    ensures ({
        let r2 = remove_player_spec(r, actor, target, now).0;
        &&& r2.players.len() + 1 == r.players.len()
        &&& r2.previous != Some(target)
        &&& r.state == RoomState::Active && r.current == Some(target) ==> match r2.current {
            Some(c) => exists|j: int| 0 <= j < r2.players.len() && r2.players[j].id == c
                && #[trigger] r2.players[j].connected,
            None => r2.turn_started_at is None,
        }
        &&& r.state == RoomState::Active && r.current == Some(target)
            && !(exists|j: int| 0 <= j < r.players.len() && j != position(r.players, target)->0
                && #[trigger] eligible(r.players[j]))
            ==> r2.current is None && r2.turn_started_at is None
        &&& !(r.state == RoomState::Active && r.current == Some(target)) ==> r2.current == r.current
    }),
{
    let ps = r.players;
    let n = ps.len() as int;
    let i = position(ps, target)->0;
    assert(first_index(ps, target, i));
    lemma_stop_in_range(ps, i);
    lemma_offsets(n, i);
    let r2 = remove_player_spec(r, actor, target, now).0;
    if r.state == RoomState::Active && r.current == Some(target) {
        let qs = consume_skips(ps, i);
        assert(qs.len() == n);
        if next_eligible(ps, i) is Some {
            let ni = next_eligible(ps, i)->0;
            let o = stop_step(ps, i);
            assert(first_eligible_step(ps, i, o));
            assert(eligible(ps[ni]));
            if ni != i {
                assert(qs[ni].connected && qs[ni].id == ps[ni].id);
                let j = if ni < i { ni } else { ni - 1 };
                assert(r2.players[j] == qs[ni]);
            }
        }
    }
}

/// Skipping the player whose turn it is moves the turn on at once, to a
/// connected player in another seat (the skipped player's own flag keeps the
/// walk from coming round to them).
pub proof fn law_skipping_the_current_player_moves_the_turn(r: RoomView, actor: Seq<char>, target: Seq<char>, now: Instant)
    requires
        skip_player_spec(r, actor, target, now).1 is Ok,
        r.state == RoomState::Active,
        r.current == Some(target),
    ensures ({
        let r2 = skip_player_spec(r, actor, target, now).0;
        let i = position(r.players, target)->0;
        &&& r2.previous == Some(target)
        &&& r2.turn_started_at == Some(now)
        &&& r2.current matches Some(c) && exists|j: int| 0 <= j < r2.players.len() && j != i
            && r2.players[j].id == c && #[trigger] r2.players[j].connected
    }),
{
    let ps = r.players;
    let n = ps.len() as int;
    let i = position(ps, target)->0;
    assert(first_index(ps, target, i));
    let flagged = ps.update(i, PlayerView { skip_next: true, ..ps[i] });
    lemma_stop_in_range(flagged, i);
    lemma_offsets(n, i);
    let ni = next_eligible(flagged, i)->0;
    let o = stop_step(flagged, i);
    assert(first_eligible_step(flagged, i, o));
    assert(eligible(flagged[ni]));
    assert(ni != i);
    let r2 = skip_player_spec(r, actor, target, now).0;
    assert(r2.players[ni].connected && r2.players[ni].id == flagged[ni].id);
}

/// The turn is held by a member of the room: a lobby has no current player,
/// and the current player of an active room, if any, is one of its players.
pub open spec fn turn_held_in_room(r: RoomView) -> bool {
    match r.current {
        None => true,
        Some(c) => r.state == RoomState::Active && has_id(r.players, c),
    }
}

/// Players whose ids, in place, are those of `ps` keep every member.
proof fn lemma_same_ids_keep_members(ps: Seq<PlayerView>, qs: Seq<PlayerView>, c: Seq<char>)
    requires
        has_id(ps, c),
        qs.len() == ps.len(),
        forall|j: int| 0 <= j < ps.len() ==> #[trigger] qs[j].id == ps[j].id,
    ensures
        has_id(qs, c),
{
    let j = choose|j: int| 0 <= j < ps.len() && ps[j].id == c;
    assert(qs[j].id == c);
}

/// The turn stays with a member of the room across every operation: creating
/// a room, adding a player, starting, ending, claiming, undoing and skipping
/// turns, removing a player, reordering, locking, nudging, and attaching or
/// detaching a connection.
pub proof fn law_turn_stays_with_a_member(
    r: RoomView,
    actor: Seq<char>,
    target: Seq<char>,
    order: Seq<Seq<char>>,
    r2: RoomView,
    locked: bool,
    epoch: u64,
    newcomer: PlayerView,
    code: Seq<char>,
    now: Instant,
)
    requires
        turn_held_in_room(r),
    ensures
        turn_held_in_room(created_view(code, newcomer, now)),
        turn_held_in_room(RoomView { players: r.players.push(newcomer), last_active: now, ..r }),
        turn_held_in_room(start_game_spec(r, actor, now).0),
        turn_held_in_room(end_turn_spec(r, actor, now).0),
        turn_held_in_room(claim_turn_spec(r, actor, now).0),
        turn_held_in_room(undo_turn_spec(r, actor, now).0),
        turn_held_in_room(skip_player_spec(r, actor, target, now).0),
        turn_held_in_room(remove_player_spec(r, actor, target, now).0),
        set_order_post(r, actor, order, now, r2) ==> turn_held_in_room(r2),
        turn_held_in_room(set_locked_spec(r, actor, locked, now).0),
        turn_held_in_room(nudge_spec(r, actor, now).0),
        turn_held_in_room(attach_spec(r, target).0),
        turn_held_in_room(detach_spec(r, target, epoch).0),
{
    broadcast use vstd::seq_lib::group_to_multiset_ensures;

    let ps = r.players;
    // Adding a player.
    if r.current is Some {
        let c = r.current->0;
        let j = choose|j: int| 0 <= j < ps.len() && ps[j].id == c;
        assert(ps.push(newcomer)[j].id == c);
    }
    // Starting.
    if start_game_spec(r, actor, now).1 is Ok && ps.len() > 0 {
        assert(start_game_spec(r, actor, now).0.players[0].id == ps[0].id);
    }
    // Ending and claiming.
    if end_turn_spec(r, actor, now).1 is Ok {
        lemma_advance_ok(r, now);
        let r1 = end_turn_spec(r, actor, now).0;
        let n = r1.current->0;
        let i = choose|i: int| 0 <= i < r1.players.len() && r1.players[i].id == n && #[trigger] r1.players[i].connected;
        assert(has_id(r1.players, n));
    }
    if claim_turn_spec(r, actor, now).1 is Ok {
        lemma_advance_ok(r, now);
        let r1 = claim_turn_spec(r, actor, now).0;
        let n = r1.current->0;
        let i = choose|i: int| 0 <= i < r1.players.len() && r1.players[i].id == n && #[trigger] r1.players[i].connected;
        assert(has_id(r1.players, n));
    }
    // Skipping.
    if skip_player_spec(r, actor, target, now).1 is Ok {
        let r1 = skip_player_spec(r, actor, target, now).0;
        if r.state == RoomState::Active && r.current == Some(target) {
            law_skipping_the_current_player_moves_the_turn(r, actor, target, now);
            let n = r1.current->0;
            let j = choose|j: int| 0 <= j < r1.players.len() && j != position(ps, target)->0
                && r1.players[j].id == n && #[trigger] r1.players[j].connected;
            assert(has_id(r1.players, n));
        } else if r.current is Some {
            let i = position(ps, target)->0;
            assert(first_index(ps, target, i));
            lemma_same_ids_keep_members(ps, r1.players, r.current->0);
        }
    }
    // Removing.
    if remove_player_spec(r, actor, target, now).1 is Ok {
        let r1 = remove_player_spec(r, actor, target, now).0;
        let i = position(ps, target)->0;
        assert(first_index(ps, target, i));
        if r.state == RoomState::Active && r.current == Some(target) {
            law_removal_keeps_the_turn_in_the_room(r, actor, target, now);
            if r1.current is Some {
                let n = r1.current->0;
                let j = choose|j: int| 0 <= j < r1.players.len() && r1.players[j].id == n
                    && #[trigger] r1.players[j].connected;
                assert(has_id(r1.players, n));
            }
        } else if r.current is Some {
            let c = r.current->0;
            let j = choose|j: int| 0 <= j < ps.len() && ps[j].id == c;
            assert(j != i);
            let k = if j < i { j } else { j - 1 };
            assert(r1.players[k] == ps[j]);
        }
    }
    // Reordering.
    if set_order_post(r, actor, order, now, r2) && r.current is Some && r2.players != ps {
        let c = r.current->0;
        let j = choose|j: int| 0 <= j < ps.len() && ps[j].id == c;
        assert(ids(ps)[j] == c);
        assert(ids(ps).contains(c));
        assert(ids(ps).to_multiset().count(c) > 0);
        assert(ids(r2.players).contains(c));
        let k = choose|k: int| 0 <= k < ids(r2.players).len() && ids(r2.players)[k] == c;
        assert(r2.players[k].id == c);
    }
    // Connections.
    if r.current is Some {
        let c = r.current->0;
        lemma_same_ids_keep_members(ps, attach_spec(r, target).0.players, c);
        lemma_same_ids_keep_members(ps, detach_spec(r, target, epoch).0.players, c);
    }
}

/// The rotation step `o` after `from` is the seat `(from + o) % n`.
proof fn lemma_index_at_is_mod(n: int, from: int, o: int)
    requires
        0 <= from < n,
        1 <= o <= n,
    ensures
        index_at(n, from, o) == (from + o) % n,
{
    if from + o < n {
        vstd::arithmetic::div_mod::lemma_small_mod((from + o) as nat, n as nat);
    } else {
        vstd::arithmetic::div_mod::lemma_small_mod((from + o - n) as nat, n as nat);
        vstd::arithmetic::div_mod::lemma_mod_add_multiples_vanish(from + o - n, n);
    }
}

/// The seat `k` steps after seat `from` in a rotation of `n` seats.
pub open spec fn seat_after(n: int, from: int, k: int) -> int {
    (from + k) % n
}

/// The turn walk, in the words of its documentation: walking forward from
/// seat `from` (wrapping), the next player is the one at the least offset `k`
/// in `1..=n` who is connected and not flagged to skip, or nobody when there
/// is none; the walk clears the skip flag of each connected player it passes
/// over and changes nothing else. The peek gives the same seat without the
/// clearing.
pub proof fn law_next_eligible_is_the_least_offset(ps: Seq<PlayerView>, from: int)
    requires
        0 <= from < ps.len(),
    ensures
        next_eligible(ps, from) matches Some(j) ==> exists|k: int| 1 <= k <= ps.len()
            && j == #[trigger] seat_after(ps.len() as int, from, k)
            && eligible(ps[j])
            && forall|k2: int| 1 <= k2 < k ==> !eligible(#[trigger] ps[seat_after(ps.len() as int, from, k2)]),
        next_eligible(ps, from) is None ==> forall|k: int| 1 <= k <= ps.len()
            ==> !eligible(#[trigger] ps[seat_after(ps.len() as int, from, k)]),
        consume_skips(ps, from).len() == ps.len(),
        forall|j: int| 0 <= j < ps.len() ==> #[trigger] consume_skips(ps, from)[j] == (
            if ps[j].connected && offset_of(ps.len() as int, from, j) < stop_step(ps, from) {
                PlayerView { skip_next: false, ..ps[j] }
            } else {
                ps[j]
            }),
        next_eligible(ps, from) matches Some(j) ==> forall|j2: int| 0 <= j2 < ps.len()
            && offset_of(ps.len() as int, from, j2) < offset_of(ps.len() as int, from, j)
            ==> !eligible(#[trigger] ps[j2]),
{
    let n = ps.len() as int;
    lemma_offsets(n, from);
    assert forall|k: int| 1 <= k <= n implies #[trigger] index_at(n, from, k) == seat_after(n, from, k) by {
        lemma_index_at_is_mod(n, from, k);
    }
    if next_eligible(ps, from) is Some {
        let o = stop_step(ps, from);
        assert(first_eligible_step(ps, from, o));
        let j = index_at(n, from, o);
        assert(j == seat_after(n, from, o));
        assert forall|k2: int| 1 <= k2 < o implies !eligible(#[trigger] ps[seat_after(n, from, k2)]) by {
            assert(index_at(n, from, k2) == seat_after(n, from, k2));
            assert(!eligible(ps[index_at(n, from, k2)]));
        }
        assert forall|j2: int| 0 <= j2 < n && offset_of(n, from, j2) < offset_of(n, from, j)
            implies !eligible(#[trigger] ps[j2]) by {
            let k2 = offset_of(n, from, j2);
            assert(index_at(n, from, k2) == j2);
            assert(!eligible(ps[index_at(n, from, k2)]));
        }
    } else {
        assert forall|k: int| 1 <= k <= n implies !eligible(#[trigger] ps[seat_after(n, from, k)]) by {
            assert(index_at(n, from, k) == seat_after(n, from, k));
            if eligible(ps[index_at(n, from, k)]) {
                // the least such step would be a first eligible step
                lemma_least_eligible_step(ps, from, k);
            }
        }
    }
}

/// An eligible step `k` means there is a first one.
proof fn lemma_least_eligible_step(ps: Seq<PlayerView>, from: int, k: int)
    requires
        0 <= from < ps.len(),
        1 <= k <= ps.len(),
        eligible(ps[index_at(ps.len() as int, from, k)]),
    ensures
        exists|o: int| first_eligible_step(ps, from, o),
    decreases k,
{
    let n = ps.len() as int;
    if exists|k2: int| 1 <= k2 < k && eligible(#[trigger] ps[index_at(n, from, k2)]) {
        let k2 = choose|k2: int| 1 <= k2 < k && eligible(#[trigger] ps[index_at(n, from, k2)]);
        lemma_least_eligible_step(ps, from, k2);
    } else {
        assert(first_eligible_step(ps, from, k));
    }
}

/// A turn passed from seat `from` to seat `to` (`from` itself when `to` is
/// `n` steps on): every seat the walk went past was not ready to play (away,
/// or flagged to sit one turn out), each connected one of them has used up its
/// one-turn skip, and every other seat is untouched. `bound` is how many
/// steps the walk took (`n` or more when it came round without stopping).
pub open spec fn turn_passed(before: Seq<PlayerView>, after: Seq<PlayerView>, from: int, bound: int) -> bool {
    let n = before.len() as int;
    &&& after.len() == n
    &&& forall|j: int| 0 <= j < n ==> #[trigger] after[j] == (
        if offset_of(n, from, j) < bound && before[j].connected {
            PlayerView { skip_next: false, ..before[j] }
        } else {
            before[j]
        })
    &&& forall|j: int| 0 <= j < n && offset_of(n, from, j) < bound
        ==> !(before[j].connected && !before[j].skip_next)
}

/// What the forward walk from `from` does, in plain terms: it stops at seat
/// `ni` (the first ready seat) after `offset_of(from, ni)` steps, or, when
/// nobody is ready, goes all the way round.
proof fn lemma_walk_in_plain_terms(ps: Seq<PlayerView>, from: int)
    requires
        0 <= from < ps.len(),
    ensures
        next_eligible(ps, from) matches Some(ni) ==> {
            &&& 0 <= ni < ps.len()
            &&& ps[ni].connected && !ps[ni].skip_next
            &&& turn_passed(ps, consume_skips(ps, from), from, offset_of(ps.len() as int, from, ni))
        },
        next_eligible(ps, from) is None ==> turn_passed(ps, consume_skips(ps, from), from, ps.len() + 1int),
{
    let n = ps.len() as int;
    lemma_offsets(n, from);
    lemma_stop_in_range(ps, from);
    let qs = consume_skips(ps, from);
    let o = stop_step(ps, from);
    if next_eligible(ps, from) is Some {
        assert(first_eligible_step(ps, from, o));
        let ni = index_at(n, from, o);
        assert(offset_of(n, from, ni) == o);
        assert forall|j: int| 0 <= j < n && offset_of(n, from, j) < o
            implies !(ps[j].connected && !ps[j].skip_next) by {
            let k = offset_of(n, from, j);
            assert(index_at(n, from, k) == j);
            assert(!eligible(ps[index_at(n, from, k)]));
        }
    } else {
        lemma_no_first_step(ps, from);
    }
}

/// With no first ready step, no step at all is ready.
proof fn lemma_no_first_step(ps: Seq<PlayerView>, from: int)
    requires
        0 <= from < ps.len(),
        !(exists|o: int| first_eligible_step(ps, from, o)),
    ensures
        forall|j: int| 0 <= j < ps.len() ==> !(#[trigger] ps[j].connected && !ps[j].skip_next),
{
    let n = ps.len() as int;
    lemma_offsets(n, from);
    assert forall|j: int| 0 <= j < n implies !(#[trigger] ps[j].connected && !ps[j].skip_next) by {
        let k = offset_of(n, from, j);
        assert(index_at(n, from, k) == j);
        if eligible(ps[j]) {
            lemma_least_eligible_step(ps, from, k);
        }
    }
}

/// Ending a turn hands it to the first ready player after the current one,
/// and every connected player it passes over uses up their one-turn skip
/// (so a flagged player sits out exactly one turn); nobody else changes.
pub proof fn law_end_turn_uses_up_passed_skips(r: RoomView, actor: Seq<char>, now: Instant)
    requires
        end_turn_spec(r, actor, now).1 is Ok,
    ensures
        exists|ci: int, ni: int| #![trigger r.players[ci], r.players[ni]] {
            let r2 = end_turn_spec(r, actor, now).0;
            &&& 0 <= ci < r.players.len() && 0 <= ni < r.players.len()
            &&& first_index(r.players, r.players[ci].id, ci)
            &&& r.current == Some(r.players[ci].id)
            &&& r2.current == Some(r.players[ni].id)
            &&& r.players[ni].connected && !r.players[ni].skip_next
            &&& turn_passed(r.players, r2.players, ci, offset_of(r.players.len() as int, ci, ni))
        },
{
    let ci = lemma_current_index(r);
    lemma_walk_in_plain_terms(r.players, ci);
    let ni = next_eligible(r.players, ci)->0;
    assert(end_turn_spec(r, actor, now).0.current == Some(r.players[ni].id));
}

/// Claiming a turn passes it exactly as ending it does: the players passed
/// over use up their one-turn skips.
pub proof fn law_claim_turn_uses_up_passed_skips(r: RoomView, actor: Seq<char>, now: Instant)
    requires
        claim_turn_spec(r, actor, now).1 is Ok,
    ensures
        exists|ci: int, ni: int| #![trigger r.players[ci], r.players[ni]] {
            let r2 = claim_turn_spec(r, actor, now).0;
            &&& 0 <= ci < r.players.len() && 0 <= ni < r.players.len()
            &&& r.current == Some(r.players[ci].id)
            &&& r2.current == Some(r.players[ni].id)
            &&& r.players[ni].id == actor
            &&& r.players[ni].connected && !r.players[ni].skip_next
            &&& turn_passed(r.players, r2.players, ci, offset_of(r.players.len() as int, ci, ni))
        },
{
    let ci = lemma_current_index(r);
    lemma_walk_in_plain_terms(r.players, ci);
    let ni = next_eligible(r.players, ci)->0;
    assert(claim_turn_spec(r, actor, now).0.current == Some(r.players[ni].id));
}

/// Skipping the player whose turn it is flags them and moves the turn on as
/// ending it would: every connected player passed over on the way uses up
/// their own pending skip; the skipped player keeps the new flag.
pub proof fn law_skipping_the_current_player_uses_up_passed_skips(
    r: RoomView,
    actor: Seq<char>,
    target: Seq<char>,
    now: Instant,
)
    requires
        skip_player_spec(r, actor, target, now).1 is Ok,
        r.state == RoomState::Active,
        r.current == Some(target),
    ensures
        exists|i: int, ni: int| #![trigger r.players[i], r.players[ni]] {
            let r2 = skip_player_spec(r, actor, target, now).0;
            let flagged = r.players.update(i, PlayerView { skip_next: true, ..r.players[i] });
            &&& first_index(r.players, target, i)
            &&& 0 <= ni < r.players.len() && ni != i
            &&& r2.current == Some(r.players[ni].id)
            &&& r.players[ni].connected && !r.players[ni].skip_next
            &&& r2.players[i] == (PlayerView { skip_next: true, ..r.players[i] })
            &&& turn_passed(flagged, r2.players, i, offset_of(r.players.len() as int, i, ni))
        },
{
    let ps = r.players;
    let i = position(ps, target)->0;
    assert(first_index(ps, target, i));
    let flagged = ps.update(i, PlayerView { skip_next: true, ..ps[i] });
    lemma_walk_in_plain_terms(flagged, i);
    lemma_offsets(ps.len() as int, i);
    let ni = next_eligible(flagged, i)->0;
    assert(ni != i);
    assert(flagged[ni] == ps[ni]);
    let r2 = skip_player_spec(r, actor, target, now).0;
    assert(offset_of(ps.len() as int, i, i) == ps.len());
    assert(r2.players[i] == flagged[i]);
    assert(r2.current == Some(ps[ni].id));
}

/// The seats of `before` without seat `i`, after a walk from seat `i` that
/// took `bound` steps: each connected seat passed over has used up its
/// one-turn skip (and was not ready to play); every other seat is untouched.
pub open spec fn seat_removed_after_walk(before: Seq<PlayerView>, after: Seq<PlayerView>, i: int, bound: int) -> bool {
    let n = before.len() as int;
    &&& after.len() == n - 1
    &&& forall|j: int| #![trigger before[j]] 0 <= j < n && j != i ==> after[if j < i { j } else { j - 1 }] == (
        if offset_of(n, i, j) < bound && before[j].connected {
            PlayerView { skip_next: false, ..before[j] }
        } else {
            before[j]
        })
    &&& forall|j: int| 0 <= j < n && j != i && offset_of(n, i, j) < bound
        ==> !(before[j].connected && !before[j].skip_next)
}

/// Removing the player whose turn it is walks on from their seat exactly as
/// ending their turn would, using up the pending skips of the connected
/// players passed over, and then takes the seat out; when nobody else is
/// ready there is no current player and every other seat was passed over.
pub proof fn law_removing_the_current_player_uses_up_passed_skips(
    r: RoomView,
    actor: Seq<char>,
    target: Seq<char>,
    now: Instant,
)
    requires
        remove_player_spec(r, actor, target, now).1 is Ok,
        r.state == RoomState::Active,
        r.current == Some(target),
    ensures
        exists|i: int| #![trigger r.players[i]] {
            let r2 = remove_player_spec(r, actor, target, now).0;
            let n = r.players.len() as int;
            &&& first_index(r.players, target, i)
            &&& match r2.current {
                Some(c) => exists|ni: int| #![trigger r.players[ni]] 0 <= ni < n && ni != i
                    && c == r.players[ni].id
                    && r.players[ni].connected && !r.players[ni].skip_next
                    && seat_removed_after_walk(r.players, r2.players, i, offset_of(n, i, ni)),
                None => r2.turn_started_at is None && seat_removed_after_walk(r.players, r2.players, i, n),
            }
        },
{
    let ps = r.players;
    let n = ps.len() as int;
    let i = position(ps, target)->0;
    assert(first_index(ps, target, i));
    lemma_walk_in_plain_terms(ps, i);
    lemma_offsets(n, i);
    let qs = consume_skips(ps, i);
    let r2 = remove_player_spec(r, actor, target, now).0;
    assert(r2.players == qs.remove(i));
    let bound = if r2.current is Some { offset_of(n, i, next_eligible(ps, i)->0) } else { n };
    if r2.current is None && next_eligible(ps, i) is Some {
        // The walk came round to the removed seat: every other seat was passed.
        let ni = next_eligible(ps, i)->0;
        assert(ni == i);
        assert(offset_of(n, i, i) == n);
    }
    assert forall|j: int| #![trigger ps[j]] 0 <= j < n && j != i implies r2.players[if j < i { j } else { j - 1 }] == (
        if offset_of(n, i, j) < bound && ps[j].connected {
            PlayerView { skip_next: false, ..ps[j] }
        } else {
            ps[j]
        }) by {
        assert(r2.players[if j < i { j } else { j - 1 }] == qs[j]);
    }
    assert forall|j: int| 0 <= j < n && j != i && offset_of(n, i, j) < bound
        implies !(ps[j].connected && !ps[j].skip_next) by {
        if next_eligible(ps, i) is None {
            lemma_no_first_step(ps, i);
        }
    }
    assert(seat_removed_after_walk(ps, r2.players, i, bound));
    if r2.current is Some {
        let ni = next_eligible(ps, i)->0;
        assert(ps[ni].id == r2.current->0);
    }
}

/// Locking or unlocking leaves the room in exactly the requested state, so
/// asking for the state it is already in changes nothing but the activity
/// stamp, and asking twice is the same as asking once.
pub proof fn law_set_locked_sets_the_requested_state(r: RoomView, actor: Seq<char>, locked: bool, t1: Instant, t2: Instant)
    requires
        set_locked_spec(r, actor, locked, t1).1 is Ok,
    ensures
        set_locked_spec(r, actor, locked, t1).0.locked == locked,
        set_locked_spec(r, actor, r.locked, t1).0 == (RoomView { last_active: t1, ..r }),
        ({
            let r1 = set_locked_spec(r, actor, locked, t1).0;
            let (r2, res) = set_locked_spec(r1, actor, locked, t2);
            &&& res is Ok
            &&& r2.locked == locked
            &&& r2 == (RoomView { last_active: t2, ..r1 })
        }),
{
}

/// The public view of a room shows every player in turn order with their own
/// id, name, host flag and connection: a player who has dropped off shows as
/// disconnected, a connected one as connected.
pub proof fn law_public_view_shows_each_players_connection(r: RoomView)
    ensures
        public_room_of(r).players.len() == r.players.len(),
        forall|i: int| 0 <= i < r.players.len() ==> {
            &&& #[trigger] public_room_of(r).players[i].connected == r.players[i].connected
            &&& public_room_of(r).players[i].id == r.players[i].id
            &&& public_room_of(r).players[i].name == r.players[i].name
            &&& public_room_of(r).players[i].is_host == r.players[i].is_host
        },
        public_room_of(r).code == r.code,
        public_room_of(r).locked == r.locked,
        public_room_of(r).current == r.current,
{
}

/// After a connection that owns a player detaches, the public view shows that
/// player as disconnected and everyone else as before.
pub proof fn law_a_detached_player_shows_as_disconnected(r: RoomView, id: Seq<char>, epoch: u64)
    requires
        detach_spec(r, id, epoch).1,
    ensures
        exists|i: int| #![trigger public_room_of(detach_spec(r, id, epoch).0).players[i]] {
            let p = public_room_of(detach_spec(r, id, epoch).0).players[i];
            &&& 0 <= i < r.players.len()
            &&& p.id == id
            &&& !p.connected
        },
        forall|j: int| 0 <= j < r.players.len() && j != position(r.players, id)->0
            ==> #[trigger] public_room_of(detach_spec(r, id, epoch).0).players[j].connected == r.players[j].connected,
{
    let i = position(r.players, id)->0;
    assert(first_index(r.players, id, i));
    let p = public_room_of(detach_spec(r, id, epoch).0).players[i];
    assert(p.id == id && !p.connected);
}

} // verus!
