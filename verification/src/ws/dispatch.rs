//! Translate an authenticated `ClientMessage` into a room mutation plus the
//! resulting outbound messages. Pure orchestration over the domain layer.

use vstd::prelude::*;

use crate::domain::ids::PlayerId;
use crate::domain::room::{
    Room, RoomView, TurnError, claim_turn_spec, end_turn_spec, id_result, nudge_spec,
    remove_player_spec, set_locked_spec, set_order_post, set_order_result, skip_player_spec,
    start_game_spec, undo_turn_spec,
};
use crate::registry::{Outbound, OutboundView, outbound_views};
use crate::time::Instant;
use crate::wire::{ClientMessage, ClientMessageView, PublicRoom, ServerMessage, ServerMessageView, public_room_of};

verus! {

/// The error frame a rejected action is answered with.
pub open spec fn error_view(e: TurnError) -> ServerMessageView {
    match e {
        TurnError::NotAuthorized => ServerMessageView::Error {
            code: "not_authorized"@,
            message: "You are not allowed to do that"@,
        },
        TurnError::NotFound => ServerMessageView::Error { code: "not_found"@, message: "Target not found"@ },
        TurnError::WrongState => ServerMessageView::Error {
            code: "wrong_state"@,
            message: "Action not valid in the current state"@,
        },
        TurnError::NotYourTurn => ServerMessageView::Error {
            code: "not_your_turn"@,
            message: "It is not your turn to claim"@,
        },
        TurnError::NudgeOnCooldown => ServerMessageView::Error {
            code: "nudge_cooldown"@,
            message: "Nudge is on cooldown"@,
        },
        TurnError::RoomFull => ServerMessageView::Error { code: "room_full"@, message: "Room is full"@ },
        TurnError::RoomLocked => ServerMessageView::Error { code: "room_locked"@, message: "Room is locked"@ },
    }
}

/// The full room-state broadcast as of `r`, or, when nobody is left, the
/// closure announcement instead (a player-less room state never reaches a
/// client).
pub open spec fn state_broadcast_spec(r: RoomView) -> Seq<OutboundView> {
    if r.players.len() == 0 {
        seq![OutboundView::All(ServerMessageView::RoomClosed)]
    } else {
        seq![OutboundView::All(ServerMessageView::RoomState { room: public_room_of(r) })]
    }
}

/// What a mutating action produces: the new state for everyone on success, a
/// targeted error to the actor on rejection.
pub open spec fn reply_spec(after: RoomView, res: Result<(), TurnError>, actor: Seq<char>) -> Seq<OutboundView> {
    match res {
        Ok(_) => state_broadcast_spec(after),
        Err(e) => seq![OutboundView::Player(actor, error_view(e))],
    }
}

/// The room, messages and dirty flag after one ordinary transition.
pub open spec fn mutation_holds(
    step: (RoomView, Result<(), TurnError>),
    actor: Seq<char>,
    after: RoomView,
    out: Seq<OutboundView>,
    dirty: bool,
) -> bool {
    &&& after == step.0
    &&& out == reply_spec(step.0, step.1, actor)
    &&& dirty == step.1 is Ok
}

/// What [`dispatch`] does with `msg` from `actor`: `dirty` is true iff
/// persisted state changed; nudges and rejected actions are never dirty, and
/// `Join` is a plain refresh here (joining is resolved by the connection).
pub open spec fn dispatch_holds(
    before: RoomView,
    actor: Seq<char>,
    msg: ClientMessageView,
    now: Instant,
    after: RoomView,
    out: Seq<OutboundView>,
    dirty: bool,
) -> bool {
    match msg {
        ClientMessageView::StartGame => mutation_holds(start_game_spec(before, actor, now), actor, after, out, dirty),
        ClientMessageView::EndTurn => mutation_holds(end_turn_spec(before, actor, now), actor, after, out, dirty),
        ClientMessageView::ClaimTurn => mutation_holds(claim_turn_spec(before, actor, now), actor, after, out, dirty),
        ClientMessageView::UndoTurn => mutation_holds(undo_turn_spec(before, actor, now), actor, after, out, dirty),
        ClientMessageView::SkipPlayer { player_id } => mutation_holds(
            skip_player_spec(before, actor, player_id, now),
            actor,
            after,
            out,
            dirty,
        ),
        ClientMessageView::RemovePlayer { player_id } => mutation_holds(
            remove_player_spec(before, actor, player_id, now),
            actor,
            after,
            out,
            dirty,
        ),
        ClientMessageView::SetLocked { locked } => mutation_holds(
            set_locked_spec(before, actor, locked, now),
            actor,
            after,
            out,
            dirty,
        ),
        ClientMessageView::SetOrder { player_ids } => {
            let res = set_order_result(before, actor, player_ids);
            &&& set_order_post(before, actor, player_ids, now, after)
            &&& out == reply_spec(after, res, actor)
            &&& dirty == res is Ok
        },
        ClientMessageView::Nudge => {
            let (r2, res) = nudge_spec(before, actor, now);
            &&& after == r2
            &&& out == match res {
                Ok(target) => seq![OutboundView::Player(target, ServerMessageView::Nudged)],
                Err(e) => seq![OutboundView::Player(actor, error_view(e))],
            }
            &&& !dirty
        },
        ClientMessageView::Join { .. } => {
            &&& after == before
            &&& out == state_broadcast_spec(before)
            &&& !dirty
        },
    }
}

/// Apply `msg` from `actor` to `room`, returning `(broadcasts, dirty)`.
pub fn dispatch(room: &mut Room, actor: &PlayerId, msg: ClientMessage, now: Instant) -> (r: (Vec<Outbound>, bool))
    ensures
        dispatch_holds(old(room)@, actor@, msg@, now, final(room)@, outbound_views(r.0@), r.1),
{
    match msg {
        ClientMessage::StartGame => {
            let res = room.start_game(actor, now);
            (reply(room, res, actor), res.is_ok())
        },
        ClientMessage::EndTurn => {
            let res = room.end_turn(actor, now);
            (reply(room, res, actor), res.is_ok())
        },
        ClientMessage::ClaimTurn => {
            let res = room.claim_turn(actor, now);
            (reply(room, res, actor), res.is_ok())
        },
        ClientMessage::UndoTurn => {
            let res = room.undo_turn(actor, now);
            (reply(room, res, actor), res.is_ok())
        },
        ClientMessage::SkipPlayer { player_id } => {
            let res = room.skip_player(actor, &player_id, now);
            (reply(room, res, actor), res.is_ok())
        },
        ClientMessage::RemovePlayer { player_id } => {
            let res = room.remove_player(actor, &player_id, now);
            (reply(room, res, actor), res.is_ok())
        },
        ClientMessage::SetOrder { player_ids } => {
            let res = room.set_order(actor, player_ids.as_slice(), now);
            (reply(room, res, actor), res.is_ok())
        },
        ClientMessage::SetLocked { locked } => {
            let res = room.set_locked(actor, locked, now);
            (reply(room, res, actor), res.is_ok())
        },
        ClientMessage::Nudge => {
            let res = room.nudge(actor, now);
            let mut out: Vec<Outbound> = Vec::new();
            match res {
                Ok(target) => out.push(Outbound::Player(target, ServerMessage::Nudged)),
                Err(e) => out.push(Outbound::Player(actor.clone(), error_message(&e))),
            }
            proof {
                assert(outbound_views(out@) =~= match id_result(res) {
                    Ok(target) => seq![OutboundView::Player(target, ServerMessageView::Nudged)],
                    Err(e) => seq![OutboundView::Player(actor@, error_view(e))],
                });
            }
            (out, false)
        },
        ClientMessage::Join { .. } => (state_broadcast(room), false),
    }
}

/// The messages a mutating action sends.
fn reply(room: &Room, res: Result<(), TurnError>, actor: &PlayerId) -> (out: Vec<Outbound>)
    ensures
        outbound_views(out@) == reply_spec(room@, res, actor@),
{
    match res {
        Ok(()) => state_broadcast(room),
        Err(e) => {
            let mut out: Vec<Outbound> = Vec::new();
            out.push(Outbound::Player(actor.clone(), error_message(&e)));
            assert(outbound_views(out@) =~= seq![OutboundView::Player(actor@, error_view(e))]);
            out
        },
    }
}

/// A full room-state broadcast to all connections, or, when nobody is left,
/// the closure announcement instead.
pub fn state_broadcast(room: &Room) -> (out: Vec<Outbound>)
    ensures
        outbound_views(out@) == state_broadcast_spec(room@),
{
    let mut out: Vec<Outbound> = Vec::new();
    if room.players.len() == 0 {
        out.push(Outbound::All(ServerMessage::RoomClosed));
    } else {
        out.push(Outbound::All(ServerMessage::RoomState { room: PublicRoom::from(room) }));
    }
    assert(outbound_views(out@) =~= state_broadcast_spec(room@));
    out
}

fn error_frame(code: &str, message: &str) -> (m: ServerMessage)
    ensures
        m@ == (ServerMessageView::Error { code: code@, message: message@ }),
{
    ServerMessage::Error { code: code.to_owned(), message: message.to_owned() }
}

/// The error frame for a rejected action.
pub fn error_message(e: &TurnError) -> (m: ServerMessage)
    ensures
        m@ == error_view(*e),
{
    match e {
        TurnError::NotAuthorized => error_frame("not_authorized", "You are not allowed to do that"),
        TurnError::NotFound => error_frame("not_found", "Target not found"),
        TurnError::WrongState => error_frame("wrong_state", "Action not valid in the current state"),
        TurnError::NotYourTurn => error_frame("not_your_turn", "It is not your turn to claim"),
        TurnError::NudgeOnCooldown => error_frame("nudge_cooldown", "Nudge is on cooldown"),
        TurnError::RoomFull => error_frame("room_full", "Room is full"),
        TurnError::RoomLocked => error_frame("room_locked", "Room is locked"),
    }
}

} // verus!
