use turn_tracker::domain::ids::RoomCode;
use turn_tracker::domain::room::Room;
use turn_tracker::error::AppError;
use turn_tracker::persist::file::{FileStore, LoadDecision, ReadOutcome, load_decision, with_suffix};
use turn_tracker::persist::lock::lock_path_for;
use turn_tracker::persist::snapshot::{RegistrySnapshot, RoomSnapshot, SnapshotState};
use turn_tracker::registry::{MAX_ROOMS, Registry};
use turn_tracker::time::{Duration, Instant};
use turn_tracker::wire::PublicRoom;
use turn_tracker::persist::lock::lock_path_in;

fn now() -> Instant {
    Instant::from_millis(3_000_000)
}

#[test]
fn lock_path_sits_beside_the_snapshot() {
    assert_eq!(lock_path_for("/var/data/rooms.json"), "/var/data/.lock");
    // A bare filename (no parent dir) locks in the current directory.
    assert_eq!(lock_path_for("rooms.json"), ".lock");
}

#[test]
fn with_suffix_appends_to_the_file_name() {
    assert_eq!(with_suffix("rooms.json", ".tmp"), "rooms.json.tmp");
    assert_eq!(with_suffix("/var/data/rooms.json", ".corrupt"), "/var/data/rooms.json.corrupt");
    assert_eq!(with_suffix("", ""), "");
}

#[test]
fn file_store_derives_its_temporary_and_backup_files() {
    let store = FileStore::new("/var/data/rooms.json".to_owned());
    assert_eq!(store.path(), "/var/data/rooms.json");
    assert_eq!(store.tmp_path(), "/var/data/rooms.json.tmp");
    assert_eq!(store.corrupt_path(), "/var/data/rooms.json.corrupt");
}

#[test]
fn round_trip_preserves_turn_state_order_and_tokens() {
    let (mut room, host_id, _t) = Room::create(RoomCode("ABC123".into()), "Host".into(), now());
    let (bob, _bt) = room.add_player("Bob".into(), now());
    room.start_game(&host_id, now()).unwrap();
    room.end_turn(&host_id, now()).unwrap(); // current=Bob, previous=Host

    let snap = RoomSnapshot::from(&room);
    let rebuilt = snap.into_room(now());

    assert_eq!(rebuilt.code.0, "ABC123");
    assert_eq!(rebuilt.players.len(), 2);
    assert_eq!(rebuilt.players[0].id, host_id);
    assert_eq!(rebuilt.players[1].id, bob);
    assert_eq!(rebuilt.current_player_id, Some(bob));
    assert_eq!(rebuilt.previous_player_id, Some(host_id));
    // tokens survive (reconnection credential)
    assert!(rebuilt.players.iter().all(|p| !p.token.is_empty()));
}

#[test]
fn into_room_applies_load_policy() {
    let (mut room, host_id, _t) = Room::create(RoomCode("ABC123".into()), "Host".into(), now());
    room.players[0].connected = true;
    room.last_nudge_at.insert(host_id, now());

    let rebuilt = RoomSnapshot::from(&room).into_room(now());

    assert!(
        rebuilt.players.iter().all(|p| !p.connected),
        "connected must reset to false"
    );
    assert!(
        rebuilt.last_nudge_at.is_empty(),
        "nudge cooldowns must clear"
    );
}

#[test]
fn locked_flag_survives_round_trip() {
    let (mut room, host_id, _t) = Room::create(RoomCode("ABC123".into()), "Host".into(), now());
    room.set_locked(&host_id, true, now()).unwrap();

    let rebuilt = RoomSnapshot::from(&room).into_room(now());
    assert!(rebuilt.locked, "locked flag must persist across reload");
}

#[test]
fn skip_next_flag_survives_round_trip() {
    let (mut room, _h, _t) = Room::create(RoomCode("ABC123".into()), "Host".into(), now());
    let (bob, _bt) = room.add_player("Bob".into(), now());
    let idx = room.players.iter().position(|p| p.id == bob).unwrap();
    room.players[idx].skip_next = true;

    let rebuilt = RoomSnapshot::from(&room).into_room(now());
    let idx = rebuilt.players.iter().position(|p| p.id == bob).unwrap();
    assert!(rebuilt.players[idx].skip_next);
}

#[test]
fn a_restored_active_room_restarts_its_turn_clock_and_epochs() {
    let (mut room, host_id, _t) = Room::create(RoomCode("ABC123".into()), "Host".into(), now());
    room.start_game(&host_id, now()).unwrap();
    room.attach_connection(&host_id);
    let load = now().plus(Duration::from_secs(600));
    let rebuilt = RoomSnapshot::from(&room).into_room(load);
    assert_eq!(rebuilt.turn_started_at, Some(load));
    assert_eq!(rebuilt.created_at, load);
    assert_eq!(rebuilt.last_active, load);
    assert_eq!(rebuilt.next_conn_epoch, 1);
    assert_eq!(rebuilt.players[0].conn_epoch.0, 0);
    let snap = RoomSnapshot::from(&room);
    assert_eq!(snap.state, SnapshotState::Active);
    // A lobby room has no clock after a reload either.
    let (lobby, _h, _t) = Room::create(RoomCode("XYZ789".into()), "Host".into(), now());
    assert_eq!(RoomSnapshot::from(&lobby).into_room(load).turn_started_at, None);
}

#[test]
fn test_public_room_omits_player_tokens() {
    let (room, _host, token) = Room::create(RoomCode("ABC123".into()), "Host".into(), now());
    let public = PublicRoom::from(&room);
    let shown = format!("{public:?}");
    assert!(!shown.contains(&token), "PublicRoom leaked a token field: {shown}");
    assert!(!shown.contains("token"), "PublicRoom leaked a token field: {shown}");
    assert_eq!(public.players.len(), 1);
    assert_eq!(public.players[0].name, "Host");
}

// --- registry ---

#[test]
fn test_dirty_flag_set_on_create_and_cleared_on_take() {
    let mut reg = Registry::new();
    assert!(!reg.take_dirty(), "fresh registry is clean");
    reg.create_room("Host".into(), now()).unwrap();
    assert!(reg.take_dirty(), "create_room marks dirty");
    assert!(!reg.take_dirty(), "take_dirty clears the flag");
}

#[test]
fn test_snapshot_round_trip_preserves_room_and_token() {
    let mut reg = Registry::new();
    let (code, host_id, token) = reg.create_room("Host".into(), now()).unwrap();

    let mut rebuilt = Registry::from_snapshot(reg.snapshot(), now());

    assert!(rebuilt.contains(&code.0), "room survives snapshot");
    // Host is reconnectable by token, and starts disconnected.
    rebuilt
        .with_room_mut(&code.0, |room| {
            {
                let p = room.player_by_token(&token).expect("token preserved");
                assert_eq!(p.id, host_id);
                assert!(!p.connected, "player starts disconnected after load");
            }
            (room, (), vec![], false)
        })
        .unwrap();
}

#[test]
fn test_create_room_inserts_and_is_findable() {
    let mut reg = Registry::new();
    let (code, _host, _tok) = reg.create_room("Host".into(), now()).unwrap();
    assert!(reg.contains(&code.0));
}

#[test]
fn test_create_room_rejects_when_at_capacity() {
    let mut reg = Registry::new();
    for _ in 0..MAX_ROOMS {
        reg.create_room("Host".into(), now()).unwrap();
    }
    assert_eq!(reg.len(), MAX_ROOMS);
    match reg.create_room("Host".into(), now()) {
        Err(AppError::RoomCapacityReached) => {}
        other => panic!("expected RoomCapacityReached, got {other:?}"),
    }
}

#[test]
fn test_with_room_mut_marks_dirty_only_when_flag_is_set() {
    let mut reg = Registry::new();
    let (code, _h, _t) = reg.create_room("Host".into(), now()).unwrap();
    assert!(reg.take_dirty(), "create marked dirty");

    // dirty = false → no snapshot churn (e.g. a rejected action or nudge).
    reg.with_room_mut(&code.0, |room| (room, (), vec![], false))
        .unwrap();
    assert!(
        !reg.take_dirty(),
        "closure returning dirty=false must not mark dirty"
    );

    // dirty = true → a real persisted-state change.
    reg.with_room_mut(&code.0, |room| (room, (), vec![], true))
        .unwrap();
    assert!(
        reg.take_dirty(),
        "closure returning dirty=true must mark dirty"
    );
}

#[test]
fn with_room_mut_on_an_unknown_room_is_room_not_found() {
    let mut reg = Registry::new();
    let r = reg.with_room_mut("NOPE12", |room| (room, (), vec![], true));
    assert!(matches!(r, Err(AppError::RoomNotFound)));
    assert!(!reg.take_dirty());
}

#[test]
fn test_public_room_reads_state_without_marking_dirty() {
    let mut reg = Registry::new();
    let (code, _h, _t) = reg.create_room("Host".into(), now()).unwrap();
    assert!(reg.take_dirty(), "create marked dirty");
    let public = reg.public_room(&code.0).expect("room exists");
    assert_eq!(public.code, code.0);
    assert!(
        !reg.take_dirty(),
        "public_room is a read: must not mark dirty"
    );
    assert!(reg.public_room("NOPE12").is_none());
}

#[test]
fn test_sweep_removes_expired_rooms() {
    let mut reg = Registry::new();
    let (code, _h, _t) = reg.create_room("Host".into(), now()).unwrap();
    let later = now().plus(Duration::from_hours(25)); // > 24h
    assert_eq!(reg.sweep_expired(later, Duration::from_hours(24)), 1);
    assert!(!reg.contains(&code.0));
}

#[test]
fn sweep_keeps_live_rooms_and_stays_clean_when_nothing_expires() {
    let mut reg = Registry::new();
    let (code, _h, _t) = reg.create_room("Host".into(), now()).unwrap();
    reg.take_dirty();
    let later = now().plus(Duration::from_hours(23));
    assert_eq!(reg.sweep_expired(later, Duration::from_hours(24)), 0);
    assert!(reg.contains(&code.0));
    assert!(!reg.take_dirty());
}

#[test]
fn room_survives_save_and_reload_and_is_reconnectable() {
    let mut original = Registry::new();
    let (code, host_id, host_token) = original.create_room("Host".into(), now()).unwrap();
    original
        .with_room_mut(&code.0, |mut room| {
            room.add_player("Bob".into(), now());
            room.start_game(&host_id, now()).unwrap();
            (room, (), vec![], true)
        })
        .unwrap();

    let snap: RegistrySnapshot = original.snapshot();
    assert_eq!(snap.rooms.len(), 1);
    let mut restored = Registry::from_snapshot(snap, now());

    assert!(restored.contains(&code.0), "room must survive reload");
    restored
        .with_room_mut(&code.0, |room| {
            {
                assert_eq!(room.players.len(), 2, "both players persisted");
                assert_eq!(
                    room.current_player_id,
                    Some(host_id.clone()),
                    "turn pointer persisted"
                );
                let host = room
                    .player_by_token(&host_token)
                    .expect("host reconnectable by token");
                assert!(!host.connected, "players start disconnected after reload");
            }
            (room, (), vec![], false)
        })
        .unwrap();
}

#[test]
fn an_empty_snapshot_restores_an_empty_clean_registry() {
    let mut reg = Registry::from_snapshot(RegistrySnapshot::default(), now());
    assert_eq!(reg.len(), 0);
    assert!(!reg.take_dirty());
}

#[test]
fn load_missing_file_returns_empty() {
    assert!(matches!(load_decision(ReadOutcome::Missing, None), LoadDecision::StartEmpty));
}

#[test]
fn load_corrupt_file_backs_up_and_returns_empty() {
    assert!(matches!(load_decision(ReadOutcome::Read, None), LoadDecision::BackUpAndStartEmpty));
}

#[test]
fn load_decision_restores_a_parsed_snapshot_and_reports_read_failures() {
    let (room, _h, _t) = Room::create(RoomCode("ABC123".into()), "Host".into(), now());
    let snap = RegistrySnapshot { rooms: vec![RoomSnapshot::from(&room)] };
    match load_decision(ReadOutcome::Read, Some(snap)) {
        LoadDecision::Restore(s) => assert_eq!(s.rooms[0].code, "ABC123"),
        other => panic!("expected a restore, got {other:?}"),
    }
    assert!(matches!(load_decision(ReadOutcome::Failed, None), LoadDecision::Fail));
}

#[test]
fn an_absolute_lock_name_or_a_trailing_slash_joins_as_path_join_does() {
    assert_eq!(lock_path_in(Some("/var/data/")), "/var/data/.lock");
    assert_eq!(lock_path_in(Some("data")), "data/.lock");
    assert_eq!(lock_path_in(Some("")), ".lock");
    assert_eq!(lock_path_in(None), ".lock");
}
