use turn_tracker::domain::ids::{PlayerId, RoomCode};
use turn_tracker::domain::player::ConnEpoch;
use turn_tracker::domain::room::{MAX_PLAYERS, Room, RoomState, TurnError};
use turn_tracker::time::{Duration, Instant};

fn t0() -> Instant {
    Instant::from_millis(1_000_000)
}

/// An Active two-player room (host is current) with the turn clock running.
fn clock_room() -> (Room, PlayerId, PlayerId) {
    let (mut room, host, _t) = Room::create(RoomCode("ABC123".into()), "Host".into(), t0());
    let (bob, _bt) = room.add_player("Bob".into(), t0());
    room.attach_connection(&host);
    room.attach_connection(&bob);
    room.start_game(&host, t0()).unwrap();
    (room, host, bob)
}

#[test]
fn test_create_starts_in_lobby_with_host_as_only_player() {
    let (room, host_id, _tok) = Room::create(RoomCode("ABC123".into()), "Host".into(), t0());
    assert_eq!(room.state, RoomState::Lobby);
    assert_eq!(room.players.len(), 1);
    assert!(room.players[0].is_host);
    assert_eq!(room.players[0].id, host_id);
    assert!(room.current_player_id.is_none());
}

#[test]
fn test_is_full_at_max_players() {
    let (mut room, _h, _t) = Room::create(RoomCode("ABC123".into()), "Host".into(), t0());
    // Host counts as player #1; add up to MAX_PLAYERS.
    while room.players.len() < MAX_PLAYERS {
        room.add_player("P".into(), t0());
    }
    assert!(room.is_full());
    assert_eq!(room.players.len(), MAX_PLAYERS);
}

#[test]
fn test_not_full_below_max_players() {
    let (room, _h, _t) = Room::create(RoomCode("ABC123".into()), "Host".into(), t0());
    assert!(!room.is_full());
}

#[test]
fn test_add_player_appends_non_host_to_order() {
    let (mut room, _h, _t) = Room::create(RoomCode("ABC123".into()), "Host".into(), t0());
    let (pid, _tok) = room.add_player("Bob".into(), t0());
    assert_eq!(room.players.len(), 2);
    assert_eq!(room.players[1].id, pid);
    assert!(!room.players[1].is_host);
}

#[test]
fn test_player_by_token_finds_correct_player() {
    let (room, host_id, tok) = Room::create(RoomCode("ABC123".into()), "Host".into(), t0());
    assert_eq!(room.player_by_token(&tok).map(|p| &p.id), Some(&host_id));
    assert!(room.player_by_token("nope").is_none());
}

#[test]
fn test_start_game_activates_and_sets_first_player_current() {
    let (mut room, host_id, _t) = Room::create(RoomCode("ABC123".into()), "Host".into(), t0());
    room.add_player("Bob".into(), t0());
    assert!(room.start_game(&host_id, t0()).is_ok());
    assert_eq!(room.state, RoomState::Active);
    assert_eq!(room.current_player_id, Some(host_id));
}

#[test]
fn test_start_game_twice_returns_wrong_state() {
    let (mut room, host_id, _t) = Room::create(RoomCode("ABC123".into()), "Host".into(), t0());
    room.start_game(&host_id, t0()).unwrap();
    assert_eq!(room.start_game(&host_id, t0()), Err(TurnError::WrongState));
}

#[test]
fn test_start_game_by_non_host_is_unauthorized() {
    let (mut room, _host, _t) = Room::create(RoomCode("ABC123".into()), "Host".into(), t0());
    let (bob, _bt) = room.add_player("Bob".into(), t0());
    assert_eq!(room.start_game(&bob, t0()), Err(TurnError::NotAuthorized));
}

#[test]
fn test_advance_from_skips_disconnected_player() {
    let (mut room, _h, _t) = Room::create(RoomCode("ABC123".into()), "Host".into(), t0());
    room.add_player("Bob".into(), t0()); // index 1
    room.add_player("Cara".into(), t0()); // index 2
    room.players[1].connected = false;
    assert_eq!(room.advance_from(0), Some(2));
}

#[test]
fn test_advance_from_consumes_skip_next_flag() {
    let (mut room, _h, _t) = Room::create(RoomCode("ABC123".into()), "Host".into(), t0());
    room.add_player("Bob".into(), t0()); // index 1
    room.add_player("Cara".into(), t0()); // index 2
    room.players[1].skip_next = true;
    assert_eq!(room.advance_from(0), Some(2)); // Bob skipped
    assert!(!room.players[1].skip_next); // flag consumed
}

#[test]
fn test_advance_from_wraps_around() {
    let (mut room, host_id, _t) = Room::create(RoomCode("ABC123".into()), "Host".into(), t0());
    room.add_player("Bob".into(), t0());
    let host_idx = room.players.iter().position(|p| p.id == host_id).unwrap();
    assert_eq!(room.advance_from(1), Some(host_idx));
}

#[test]
fn test_attach_connection_marks_connected_and_issues_a_fresh_epoch() {
    let (mut room, host_id, _t) = Room::create(RoomCode("ABC123".into()), "Host".into(), t0());
    room.players[0].connected = false;
    let first = room.attach_connection(&host_id);
    assert!(room.players[0].connected);
    assert_ne!(first, ConnEpoch::none(), "NONE must never be issued");
    let second = room.attach_connection(&host_id);
    assert_ne!(first, second, "each attach gets a distinct epoch");
}

#[test]
fn test_detach_by_the_owning_connection_clears_connected() {
    let (mut room, host_id, _t) = Room::create(RoomCode("ABC123".into()), "Host".into(), t0());
    let epoch = room.attach_connection(&host_id);
    assert!(room.detach_connection(&host_id, epoch));
    assert!(!room.players[0].connected);
}

#[test]
fn test_detach_by_a_superseded_connection_leaves_the_player_connected() {
    // The exact heartbeat race: connection A is half-open, the player
    // re-attaches on connection B, then A's cleanup finally fires.
    let (mut room, host_id, _t) = Room::create(RoomCode("ABC123".into()), "Host".into(), t0());
    let conn_a = room.attach_connection(&host_id);
    let conn_b = room.attach_connection(&host_id);
    assert!(
        !room.detach_connection(&host_id, conn_a),
        "a superseded connection must report that it changed nothing"
    );
    assert!(
        room.players[0].connected,
        "the live connection B still owns the player"
    );
    assert!(room.detach_connection(&host_id, conn_b));
    assert!(!room.players[0].connected);
}

#[test]
fn test_detach_of_an_unknown_player_is_a_no_op() {
    let (mut room, host_id, _t) = Room::create(RoomCode("ABC123".into()), "Host".into(), t0());
    let epoch = room.attach_connection(&host_id);
    assert!(!room.detach_connection(&PlayerId("ghost".into()), epoch));
}

#[test]
fn test_a_never_attached_player_cannot_be_detached_by_a_live_epoch() {
    let (mut room, _h, _t) = Room::create(RoomCode("ABC123".into()), "Host".into(), t0());
    let (bob, _bt) = room.add_player("Bob".into(), t0());
    let host_epoch = room.attach_connection(&room.players[0].id.clone());
    assert!(
        !room.detach_connection(&bob, host_epoch),
        "Bob carries ConnEpoch::NONE and matches no issued epoch"
    );
}

#[test]
fn test_end_turn_by_current_player_advances() {
    let (mut room, host_id, _t) = Room::create(RoomCode("ABC123".into()), "Host".into(), t0());
    let (bob, _bt) = room.add_player("Bob".into(), t0());
    room.start_game(&host_id, t0()).unwrap();
    assert!(room.end_turn(&host_id, t0()).is_ok());
    assert_eq!(room.current_player_id, Some(bob));
    assert_eq!(room.previous_player_id, Some(host_id));
}

#[test]
fn test_end_turn_by_non_current_non_host_is_unauthorized() {
    let (mut room, host_id, _t) = Room::create(RoomCode("ABC123".into()), "Host".into(), t0());
    let (bob, _bt) = room.add_player("Bob".into(), t0());
    room.add_player("Cara".into(), t0());
    room.start_game(&host_id, t0()).unwrap();
    assert_eq!(room.end_turn(&bob, t0()), Err(TurnError::NotAuthorized));
}

#[test]
fn test_end_turn_in_lobby_is_wrong_state() {
    let (mut room, host_id, _t) = Room::create(RoomCode("ABC123".into()), "Host".into(), t0());
    assert_eq!(room.end_turn(&host_id, t0()), Err(TurnError::WrongState));
}

#[test]
fn test_claim_turn_by_next_player_succeeds() {
    let (mut room, host_id, _t) = Room::create(RoomCode("ABC123".into()), "Host".into(), t0());
    let (bob, _bt) = room.add_player("Bob".into(), t0());
    room.start_game(&host_id, t0()).unwrap();
    assert!(room.claim_turn(&bob, t0()).is_ok());
    assert_eq!(room.current_player_id, Some(bob));
    assert_eq!(room.previous_player_id, Some(host_id));
}

#[test]
fn test_claim_turn_by_non_next_player_is_not_your_turn() {
    let (mut room, host_id, _t) = Room::create(RoomCode("ABC123".into()), "Host".into(), t0());
    room.add_player("Bob".into(), t0());
    let (cara, _ct) = room.add_player("Cara".into(), t0());
    room.start_game(&host_id, t0()).unwrap();
    assert_eq!(room.claim_turn(&cara, t0()), Err(TurnError::NotYourTurn));
}

#[test]
fn test_undo_turn_reverts_to_previous_player() {
    let (mut room, host_id, _t) = Room::create(RoomCode("ABC123".into()), "Host".into(), t0());
    let (bob, _bt) = room.add_player("Bob".into(), t0());
    room.start_game(&host_id, t0()).unwrap();
    room.end_turn(&host_id, t0()).unwrap();
    assert_eq!(room.current_player_id, Some(bob));
    room.undo_turn(&host_id, t0()).unwrap();
    assert_eq!(room.current_player_id, Some(host_id));
}

#[test]
fn test_undo_turn_by_non_host_is_unauthorized() {
    let (mut room, host_id, _t) = Room::create(RoomCode("ABC123".into()), "Host".into(), t0());
    let (bob, _bt) = room.add_player("Bob".into(), t0());
    room.start_game(&host_id, t0()).unwrap();
    room.end_turn(&host_id, t0()).unwrap();
    assert_eq!(room.undo_turn(&bob, t0()), Err(TurnError::NotAuthorized));
}

#[test]
fn test_undo_turn_with_no_previous_is_wrong_state() {
    let (mut room, host_id, _t) = Room::create(RoomCode("ABC123".into()), "Host".into(), t0());
    room.add_player("Bob".into(), t0());
    room.start_game(&host_id, t0()).unwrap();
    assert_eq!(room.undo_turn(&host_id, t0()), Err(TurnError::WrongState));
}

#[test]
fn test_skip_player_flags_future_skip() {
    let (mut room, host_id, _t) = Room::create(RoomCode("ABC123".into()), "Host".into(), t0());
    let (bob, _bt) = room.add_player("Bob".into(), t0());
    room.start_game(&host_id, t0()).unwrap();
    room.skip_player(&host_id, &bob, t0()).unwrap();
    let bob_idx = room.players.iter().position(|p| p.id == bob).unwrap();
    assert!(room.players[bob_idx].skip_next);
}

#[test]
fn test_skip_current_player_advances_immediately() {
    let (mut room, host_id, _t) = Room::create(RoomCode("ABC123".into()), "Host".into(), t0());
    let (bob, _bt) = room.add_player("Bob".into(), t0());
    room.start_game(&host_id, t0()).unwrap();
    room.skip_player(&host_id, &host_id, t0()).unwrap();
    assert_eq!(room.current_player_id, Some(bob));
}

#[test]
fn test_skip_player_by_non_host_is_unauthorized() {
    let (mut room, _h, _t) = Room::create(RoomCode("ABC123".into()), "Host".into(), t0());
    let (bob, _bt) = room.add_player("Bob".into(), t0());
    assert_eq!(
        room.skip_player(&bob, &bob, t0()),
        Err(TurnError::NotAuthorized)
    );
}

#[test]
fn test_remove_player_drops_from_order() {
    let (mut room, host_id, _t) = Room::create(RoomCode("ABC123".into()), "Host".into(), t0());
    let (bob, _bt) = room.add_player("Bob".into(), t0());
    room.remove_player(&host_id, &bob, t0()).unwrap();
    assert_eq!(room.players.len(), 1);
    assert!(!room.players.iter().any(|p| p.id == bob));
}

#[test]
fn test_remove_current_player_advances_turn() {
    let (mut room, host_id, _t) = Room::create(RoomCode("ABC123".into()), "Host".into(), t0());
    let (bob, _bt) = room.add_player("Bob".into(), t0());
    room.start_game(&host_id, t0()).unwrap();
    room.remove_player(&host_id, &host_id, t0()).unwrap();
    assert_eq!(room.current_player_id, Some(bob));
    assert_eq!(room.players.len(), 1);
}

#[test]
fn test_remove_unknown_player_is_not_found() {
    let (mut room, host_id, _t) = Room::create(RoomCode("ABC123".into()), "Host".into(), t0());
    assert_eq!(
        room.remove_player(&host_id, &PlayerId("ghost".into()), t0()),
        Err(TurnError::NotFound)
    );
}

#[test]
fn test_set_order_reorders_players() {
    let (mut room, host_id, _t) = Room::create(RoomCode("ABC123".into()), "Host".into(), t0());
    let (bob, _bt) = room.add_player("Bob".into(), t0());
    room.set_order(&host_id, &[bob.clone(), host_id.clone()], t0())
        .unwrap();
    assert_eq!(room.players[0].id, bob);
    assert_eq!(room.players[1].id, host_id);
}

#[test]
fn test_set_order_preserves_current_player_by_id() {
    let (mut room, host_id, _t) = Room::create(RoomCode("ABC123".into()), "Host".into(), t0());
    let (bob, _bt) = room.add_player("Bob".into(), t0());
    room.start_game(&host_id, t0()).unwrap();
    room.set_order(&host_id, &[bob, host_id.clone()], t0())
        .unwrap();
    assert_eq!(room.current_player_id, Some(host_id));
}

#[test]
fn test_set_order_with_wrong_set_is_rejected() {
    let (mut room, host_id, _t) = Room::create(RoomCode("ABC123".into()), "Host".into(), t0());
    room.add_player("Bob".into(), t0());
    assert_eq!(
        room.set_order(&host_id, std::slice::from_ref(&host_id), t0()),
        Err(TurnError::NotFound)
    );
}

#[test]
fn test_set_locked_by_host_toggles_flag() {
    let (mut room, host_id, _t) = Room::create(RoomCode("ABC123".into()), "Host".into(), t0());
    assert!(!room.locked, "rooms start unlocked");
    room.set_locked(&host_id, true, t0()).unwrap();
    assert!(room.locked);
    room.set_locked(&host_id, false, t0()).unwrap();
    assert!(!room.locked);
}

#[test]
fn test_set_locked_by_non_host_is_unauthorized() {
    let (mut room, _h, _t) = Room::create(RoomCode("ABC123".into()), "Host".into(), t0());
    let (bob, _bt) = room.add_player("Bob".into(), t0());
    assert_eq!(
        room.set_locked(&bob, true, t0()),
        Err(TurnError::NotAuthorized)
    );
    assert!(!room.locked, "a rejected toggle must not change the flag");
}

#[test]
fn test_nudge_returns_current_player_as_target() {
    let now = t0();
    let (mut room, host_id, _t) = Room::create(RoomCode("ABC123".into()), "Host".into(), now);
    let (bob, _bt) = room.add_player("Bob".into(), now);
    room.start_game(&host_id, now).unwrap();
    assert_eq!(room.nudge(&bob, now), Ok(host_id));
}

#[test]
fn test_current_player_cannot_nudge_self() {
    let now = t0();
    let (mut room, host_id, _t) = Room::create(RoomCode("ABC123".into()), "Host".into(), now);
    room.add_player("Bob".into(), now);
    room.start_game(&host_id, now).unwrap();
    assert_eq!(room.nudge(&host_id, now), Err(TurnError::NotAuthorized));
}

#[test]
fn test_nudge_within_cooldown_is_rejected() {
    let now = t0();
    let (mut room, host_id, _t) = Room::create(RoomCode("ABC123".into()), "Host".into(), now);
    let (bob, _bt) = room.add_player("Bob".into(), now);
    room.start_game(&host_id, now).unwrap();
    room.nudge(&bob, now).unwrap();
    let soon = now.plus(Duration::from_secs(5));
    assert_eq!(room.nudge(&bob, soon), Err(TurnError::NudgeOnCooldown));
}

#[test]
fn test_nudge_after_cooldown_is_allowed() {
    let now = t0();
    let (mut room, host_id, _t) = Room::create(RoomCode("ABC123".into()), "Host".into(), now);
    let (bob, _bt) = room.add_player("Bob".into(), now);
    room.start_game(&host_id, now).unwrap();
    room.nudge(&bob, now).unwrap();
    let later = now.plus(Duration::from_secs(11));
    assert!(room.nudge(&bob, later).is_ok());
}

#[test]
fn test_is_expired_after_ttl() {
    let now = t0();
    let (room, _h, _t) = Room::create(RoomCode("ABC123".into()), "Host".into(), now);
    assert!(!room.is_expired(now, Duration::from_mins(1)));
    let later = now.plus(Duration::from_secs(61));
    assert!(room.is_expired(later, Duration::from_mins(1)));
}

#[test]
fn test_lobby_room_has_no_turn_start() {
    let (room, _h, _t) = Room::create(RoomCode("ABC123".into()), "Host".into(), t0());
    assert!(
        room.turn_started_at.is_none(),
        "a lobby room has no turn in progress, so no clock"
    );
}

#[test]
fn test_start_game_stamps_turn_start() {
    let (mut room, host, _t) = Room::create(RoomCode("ABC123".into()), "Host".into(), t0());
    room.add_player("Bob".into(), t0());
    let start = t0();
    room.start_game(&host, start).unwrap();
    assert_eq!(room.turn_started_at, Some(start));
}

#[test]
fn test_end_turn_restamps_turn_start() {
    let (mut room, host, bob) = clock_room();
    let later = room.turn_started_at.unwrap().plus(Duration::from_secs(45));
    room.end_turn(&host, later).unwrap();
    assert_eq!(room.current_player_id, Some(bob));
    assert_eq!(
        room.turn_started_at,
        Some(later),
        "the clock restarts for the player who just received the turn"
    );
}

#[test]
fn test_claim_turn_restamps_turn_start() {
    let (mut room, _host, bob) = clock_room();
    let later = room.turn_started_at.unwrap().plus(Duration::from_secs(12));
    room.claim_turn(&bob, later).unwrap();
    assert_eq!(room.turn_started_at, Some(later));
}

#[test]
fn test_skipping_the_current_player_restamps_turn_start() {
    let (mut room, host, bob) = clock_room();
    let later = room.turn_started_at.unwrap().plus(Duration::from_secs(30));
    room.skip_player(&host, &host, later).unwrap();
    assert_eq!(room.current_player_id, Some(bob));
    assert_eq!(room.turn_started_at, Some(later));
}

#[test]
fn test_skipping_a_future_player_leaves_turn_start_alone() {
    let (mut room, host, bob) = clock_room();
    let started = room.turn_started_at.unwrap();
    room.skip_player(&host, &bob, started.plus(Duration::from_secs(5)))
        .unwrap();
    assert_eq!(
        room.turn_started_at,
        Some(started),
        "flagging a future skip does not change whose turn it is, so the clock runs on"
    );
}

#[test]
fn test_undo_turn_restamps_turn_start() {
    let (mut room, host, _bob) = clock_room();
    let ended = room.turn_started_at.unwrap().plus(Duration::from_secs(20));
    room.end_turn(&host, ended).unwrap();
    let undone = ended.plus(Duration::from_secs(3));
    room.undo_turn(&host, undone).unwrap();
    assert_eq!(room.current_player_id, Some(host));
    assert_eq!(
        room.turn_started_at,
        Some(undone),
        "undo hands the turn back and the clock starts fresh"
    );
}

#[test]
fn test_set_order_leaves_turn_start_alone() {
    let (mut room, host, bob) = clock_room();
    let started = room.turn_started_at.unwrap();
    let order = [bob, host.clone()];
    room.set_order(&host, &order, started.plus(Duration::from_secs(9)))
        .unwrap();
    assert_eq!(
        room.turn_started_at,
        Some(started),
        "reordering (and so shuffling) must not hand the current player a fresh clock"
    );
}

#[test]
fn test_rejected_end_turn_leaves_turn_start_alone() {
    let (mut room, _host, bob) = clock_room();
    let started = room.turn_started_at.unwrap();
    // Bob is neither current nor host: rejected, and a rejection changes nothing.
    room.end_turn(&bob, started.plus(Duration::from_secs(4)))
        .unwrap_err();
    assert_eq!(room.turn_started_at, Some(started));
}

#[test]
fn test_removing_the_current_player_restamps_turn_start() {
    let (mut room, host, bob) = clock_room();
    let later = room.turn_started_at.unwrap().plus(Duration::from_secs(8));
    room.remove_player(&host, &host, later).unwrap();
    assert_eq!(room.current_player_id, Some(bob));
    assert_eq!(room.turn_started_at, Some(later));
}

#[test]
fn test_removing_the_current_player_with_nobody_eligible_clears_turn_start() {
    let (mut room, host, bob) = clock_room();
    // Everyone has dropped off: `advance_from` finds no successor at all.
    let host_epoch = room.players[0].conn_epoch;
    room.detach_connection(&host, host_epoch);
    let bob_epoch = room.players[1].conn_epoch;
    room.detach_connection(&bob, bob_epoch);
    let later = room.turn_started_at.unwrap().plus(Duration::from_secs(8));
    room.remove_player(&host, &host, later).unwrap();
    assert!(room.current_player_id.is_none());
    assert!(
        room.turn_started_at.is_none(),
        "no current player means no turn to be clocking"
    );
}
