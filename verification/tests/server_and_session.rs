use turn_tracker::cleanup::{room_ttl, sweep_interval};
use turn_tracker::domain::ids::{PlayerId, RoomCode};
use turn_tracker::domain::room::Room;
use turn_tracker::error::AppError;
use turn_tracker::gate::CreateToken;
use turn_tracker::persist::writer::snapshot_once;
use turn_tracker::registry::{Outbound, Registry};
use turn_tracker::server::{CreateRoomRequest, create_room};
use turn_tracker::time::Instant;
use turn_tracker::wire::{ClientMessage, ServerMessage};
use turn_tracker::ws::session::{FrameAction, disconnect, is_for, on_frame};
use turn_tracker::server::create_room_with;
use turn_tracker::domain::player::ConnEpoch;
use turn_tracker::ws::join::{JoinOutcome, JoinRefusal};
use turn_tracker::ws::session::after_join;

fn now() -> Instant {
    Instant::from_millis(4_000_000)
}

fn request(name: &str) -> CreateRoomRequest {
    CreateRoomRequest { host_name: name.to_owned() }
}

#[test]
fn create_room_accepts_name_at_max_len() {
    let mut reg = Registry::new();
    let r = create_room(&mut reg, request(&"a".repeat(40)), None, &CreateToken::default(), now());
    assert!(r.is_ok(), "40-char name should be accepted");
}

#[test]
fn create_room_rejects_name_one_over_max_len() {
    let mut reg = Registry::new();
    let r = create_room(&mut reg, request(&"a".repeat(41)), None, &CreateToken::default(), now());
    assert!(matches!(r, Err(AppError::NameTooLong)), "41-char name should be rejected");
    assert_eq!(AppError::NameTooLong.status_code(), 400);
    assert_eq!(reg.len(), 0);
}

#[test]
fn create_room_rejects_empty_name() {
    let mut reg = Registry::new();
    let r = create_room(&mut reg, request("   "), None, &CreateToken::default(), now());
    assert!(matches!(r, Err(AppError::InvalidRequest)));
    assert_eq!(AppError::InvalidRequest.status_code(), 400);
}

#[test]
fn test_create_room_is_open_when_no_token_configured() {
    let mut reg = Registry::new();
    assert!(create_room(&mut reg, request("Host"), None, &CreateToken::new(None), now()).is_ok());
}

#[test]
fn test_stray_create_token_header_does_not_break_an_ungated_server() {
    let mut reg = Registry::new();
    let r = create_room(&mut reg, request("Host"), Some("irrelevant"), &CreateToken::new(None), now());
    assert!(r.is_ok(), "with TT_CREATE_TOKEN unset, a stray header must be ignored");
}

#[test]
fn test_gated_create_room_accepts_the_correct_token() {
    let mut reg = Registry::new();
    let gate = CreateToken::new(Some("s3cret-token".into()));
    let (code, _host, _token) = create_room(&mut reg, request("Host"), Some("s3cret-token"), &gate, now())
        .expect("a matching X-Create-Token must be accepted");
    assert!(reg.contains(&code.0));
}

#[test]
fn test_gated_create_room_rejects_a_wrong_token() {
    let mut reg = Registry::new();
    let gate = CreateToken::new(Some("s3cret-token".into()));
    let r = create_room(&mut reg, request("Host"), Some("wrong-token"), &gate, now());
    assert!(matches!(r, Err(AppError::CreateForbidden)), "a wrong X-Create-Token must be rejected");
    assert_eq!(AppError::CreateForbidden.status_code(), 403);
    assert_eq!(reg.len(), 0);
}

#[test]
fn test_gated_create_room_rejects_a_missing_token() {
    let mut reg = Registry::new();
    let gate = CreateToken::new(Some("s3cret-token".into()));
    let r = create_room(&mut reg, request("Host"), None, &gate, now());
    assert!(
        matches!(r, Err(AppError::CreateForbidden)),
        "an absent X-Create-Token must be rejected when a creation token is configured"
    );
}

#[test]
fn a_wrong_token_is_refused_before_the_name_is_looked_at() {
    let mut reg = Registry::new();
    let gate = CreateToken::new(Some("s3cret-token".into()));
    let r = create_room(&mut reg, request(""), Some("nope"), &gate, now());
    assert!(matches!(r, Err(AppError::CreateForbidden)));
}

#[test]
fn created_host_name_is_trimmed() {
    let mut reg = Registry::new();
    let (code, host, _token) = create_room(&mut reg, request("  Host  "), None, &CreateToken::default(), now()).unwrap();
    let public = reg.public_room(&code.0).unwrap();
    assert_eq!(public.players[0].name, "Host");
    assert_eq!(public.players[0].id, host);
}

// --- connection decisions ---

#[test]
fn an_unparseable_frame_is_answered_with_bad_message() {
    match on_frame(&None, None) {
        FrameAction::Reply(ServerMessage::Error { code, .. }) => assert_eq!(code, "bad_message"),
        other => panic!("expected a bad_message reply, got {other:?}"),
    }
}

#[test]
fn an_action_before_joining_is_answered_with_not_joined() {
    match on_frame(&None, Some(ClientMessage::EndTurn)) {
        FrameAction::Reply(ServerMessage::Error { code, .. }) => assert_eq!(code, "not_joined"),
        other => panic!("expected a not_joined reply, got {other:?}"),
    }
}

#[test]
fn a_join_frame_is_resolved_as_a_join() {
    let msg = ClientMessage::Join { player_token: Some("t".into()), player_name: None };
    match on_frame(&Some(PlayerId("me".into())), Some(msg)) {
        FrameAction::Join { player_token, player_name } => {
            assert_eq!(player_token.as_deref(), Some("t"));
            assert!(player_name.is_none());
        }
        other => panic!("expected a join, got {other:?}"),
    }
}

#[test]
fn an_action_after_joining_is_dispatched_as_the_joined_player() {
    match on_frame(&Some(PlayerId("me".into())), Some(ClientMessage::Nudge)) {
        FrameAction::Dispatch { actor, msg } => {
            assert_eq!(actor, PlayerId("me".into()));
            assert!(matches!(msg, ClientMessage::Nudge));
        }
        other => panic!("expected a dispatch, got {other:?}"),
    }
}

#[test]
fn targeted_messages_reach_only_their_player() {
    let me = Some(PlayerId("me".into()));
    assert!(is_for(&Outbound::All(ServerMessage::Nudged), &me));
    assert!(is_for(&Outbound::All(ServerMessage::Nudged), &None));
    assert!(is_for(&Outbound::Player(PlayerId("me".into()), ServerMessage::Nudged), &me));
    assert!(!is_for(&Outbound::Player(PlayerId("you".into()), ServerMessage::Nudged), &me));
    assert!(!is_for(&Outbound::Player(PlayerId("me".into()), ServerMessage::Nudged), &None));
}

#[test]
fn test_stale_connection_cleanup_does_not_disconnect_a_reattached_player() {
    let (mut room, host, _t) = Room::create(RoomCode("ABC123".into()), "Host".into(), now());
    let first = room.attach_connection(&host);
    let second = room.attach_connection(&host);
    let (out, dirty) = disconnect(&mut room, &host, first);
    assert!(out.is_empty());
    assert!(!dirty);
    assert!(room.players[0].connected, "the re-attached player must stay connected");
    let (out, dirty) = disconnect(&mut room, &host, second);
    assert!(matches!(out.as_slice(), [Outbound::All(ServerMessage::RoomState { .. })]));
    assert!(!dirty);
    assert!(!room.players[0].connected);
}

// --- periodic snapshot ---

#[test]
fn snapshot_once_writes_only_when_dirty() {
    let mut reg = Registry::new();
    assert!(snapshot_once(&mut reg).is_none(), "clean registry: no save");
    let (code, _h, _t) = reg.create_room("Host".into(), now()).unwrap();
    let snap = snapshot_once(&mut reg).expect("dirty registry: one save");
    assert_eq!(snap.rooms.len(), 1);
    assert_eq!(snap.rooms[0].code, code.0);
    assert!(snapshot_once(&mut reg).is_none(), "flag cleared: no further save");
}

#[test]
fn rooms_live_a_day_and_are_swept_every_ten_minutes() {
    assert_eq!(room_ttl().as_millis(), 24 * 60 * 60 * 1000);
    assert_eq!(sweep_interval().as_millis(), 10 * 60 * 1000);
}

#[test]
fn room_creation_uses_the_first_unused_candidate() {
    let mut reg = Registry::new();
    let taken = vec![RoomCode("AAAAAA".into())];
    let (first, _, _) = reg.create_room_from(&taken, "Ann".into(), now()).unwrap();
    assert_eq!(first.0, "AAAAAA");
    let cands = vec![RoomCode("AAAAAA".into()), RoomCode("BBBBBB".into()), RoomCode("CCCCCC".into())];
    assert_eq!(reg.first_fresh(&cands), Some(1));
    let (code, _, _) = create_room_with(&mut reg, request("Ben"), None, &CreateToken::default(), &cands, now()).unwrap();
    assert_eq!(code.0, "BBBBBB");
    let all_taken = vec![RoomCode("AAAAAA".into()), RoomCode("BBBBBB".into())];
    assert_eq!(reg.first_fresh(&all_taken), None);
    assert!(matches!(reg.create_room_from(&all_taken, "Cy".into(), now()), Err(AppError::CodeExhausted)));
    assert_eq!(reg.len(), 2);
}

#[test]
fn an_emptied_room_is_dropped_once_closed() {
    let mut reg = Registry::new();
    let (code, host, _) = reg.create_room("Host".into(), now()).unwrap();
    assert!(!reg.remove_if_empty(&code.0), "a room with a player stays");
    reg.take_dirty();
    reg.with_room_mut(&code.0, |mut room| {
        room.remove_player(&host, &host, now()).unwrap();
        (room, (), vec![], true)
    })
    .unwrap();
    reg.take_dirty();
    assert!(reg.remove_if_empty(&code.0));
    assert!(!reg.contains(&code.0));
    assert!(reg.take_dirty(), "dropping a room changes persisted state");
    assert!(!reg.remove_if_empty(&code.0));
}

#[test]
fn a_refused_join_keeps_the_connection_as_it_was() {
    let me = Some((PlayerId("me".into()), ConnEpoch(3)));
    let kept = after_join(me, &JoinOutcome::Refused(JoinRefusal::AlreadyJoined));
    assert_eq!(kept.map(|(p, e)| (p.0, e.0)), Some(("me".to_owned(), 3)));
    assert!(after_join(None, &JoinOutcome::Refused(JoinRefusal::UnknownToken)).is_none());
    let joined = JoinOutcome::Joined { player_id: PlayerId("p".into()), token: "t".into(), epoch: ConnEpoch(7), rejoined: false };
    let now_me = after_join(None, &joined);
    assert_eq!(now_me.map(|(p, e)| (p.0, e.0)), Some(("p".to_owned(), 7)));
}
