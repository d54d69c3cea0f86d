//! The decisions a WebSocket connection takes between its I/O steps: what to
//! do with an inbound frame, which outbound messages are its to deliver, and
//! what its departure does to the room. The connection task performs the I/O
//! and feeds each event back here.

use vstd::prelude::*;

use crate::domain::ids::PlayerId;
use crate::domain::player::ConnEpoch;
use crate::domain::room::{Room, detach_spec};
use crate::registry::{Outbound, OutboundView, outbound_views};
use crate::wire::{ClientMessage, ClientMessageView, ServerMessage, ServerMessageView, opt_string};
use crate::ws::dispatch::{state_broadcast, state_broadcast_spec};
use crate::ws::join::JoinOutcome;

verus! {

/// What a connection does with one inbound text frame.
#[derive(Debug)]
pub enum FrameAction {
    /// Answer this connection alone.
    Reply(ServerMessage),
    /// Resolve a join for this connection.
    Join { player_token: Option<String>, player_name: Option<String> },
    /// Apply `msg` to the room on behalf of `actor`.
    Dispatch { actor: PlayerId, msg: ClientMessage },
}

/// The answer to a frame that does not parse as a client message.
pub open spec fn bad_message_view() -> ServerMessageView {
    ServerMessageView::Error { code: "bad_message"@, message: "Could not parse message"@ }
}

/// The answer to an action sent before the connection has joined.
pub open spec fn not_joined_view() -> ServerMessageView {
    ServerMessageView::Error { code: "not_joined"@, message: "Send join first"@ }
}

pub open spec fn opt_player(o: Option<PlayerId>) -> Option<Seq<char>> {
    match o {
        Some(p) => Some(p@),
        None => None,
    }
}

/// How a connection speaking for `me` (if it has joined) handles a frame that
/// parsed as `parsed` (`None` when it did not parse): an unparseable frame and
/// an action before joining are answered on this connection only; a join is
/// resolved against the room; anything else is applied on behalf of `me`.
pub open spec fn frame_action_holds(me: Option<Seq<char>>, parsed: Option<ClientMessageView>, a: FrameAction) -> bool {
    match parsed {
        None => a matches FrameAction::Reply(m) && m@ == bad_message_view(),
        Some(ClientMessageView::Join { player_token, player_name }) => a matches FrameAction::Join {
            player_token: t,
            player_name: n,
        } && opt_string(t) == player_token && opt_string(n) == player_name,
        Some(msg) => match me {
            None => a matches FrameAction::Reply(m) && m@ == not_joined_view(),
            Some(id) => a matches FrameAction::Dispatch { actor, msg: m } && actor@ == id && m@ == msg,
        },
    }
}

pub open spec fn opt_client_view(o: Option<ClientMessage>) -> Option<ClientMessageView> {
    match o {
        Some(m) => Some(m@),
        None => None,
    }
}

/// Decide what to do with one inbound frame.
pub fn on_frame(me: &Option<PlayerId>, parsed: Option<ClientMessage>) -> (a: FrameAction)
    ensures
        frame_action_holds(opt_player(*me), opt_client_view(parsed), a),
{
    match parsed {
        None => FrameAction::Reply(
            ServerMessage::Error { code: "bad_message".to_owned(), message: "Could not parse message".to_owned() },
        ),
        Some(ClientMessage::Join { player_token, player_name }) => FrameAction::Join { player_token, player_name },
        Some(msg) => match me {
            None => FrameAction::Reply(
                ServerMessage::Error { code: "not_joined".to_owned(), message: "Send join first".to_owned() },
            ),
            Some(id) => FrameAction::Dispatch { actor: id.clone(), msg },
        },
    }
}

/// Whether an outbound message is for the connection speaking for `me`: a
/// room-wide message is for everyone, a targeted one only for its player.
pub open spec fn is_for_spec(out: OutboundView, me: Option<Seq<char>>) -> bool {
    match out {
        OutboundView::All(_) => true,
        OutboundView::Player(target, _) => me == Some(target),
    }
}

/// Whether this connection delivers `out`.
pub fn is_for(out: &Outbound, me: &Option<PlayerId>) -> (b: bool)
    ensures
        b == is_for_spec(out@, opt_player(*me)),
{
    match out {
        Outbound::All(_) => true,
        Outbound::Player(target, _) => match me {
            Some(id) => *id == *target,
            None => false,
        },
    }
}

/// A connection that spoke for `id` under `epoch` has gone: the player is
/// marked disconnected only if this connection still owns them (a player who
/// re-attached elsewhere stays connected), and only then is the new state
/// broadcast. Connectedness is not persisted, so nothing is dirty.
pub fn disconnect(room: &mut Room, id: &PlayerId, epoch: ConnEpoch) -> (r: (Vec<Outbound>, bool))
    ensures
        (final(room)@, r.0@.len() > 0) == detach_spec(old(room)@, id@, epoch.0),
        r.0@.len() > 0 ==> outbound_views(r.0@) == state_broadcast_spec(final(room)@),
        !r.1,
{
    if room.detach_connection(id, epoch) {
        let out = state_broadcast(room);
        assert(outbound_views(out@).len() == 1);
        (out, false)
    } else {
        (Vec::new(), false)
    }
}

/// Whom a connection speaks for after a join resolved as `outcome`: the
/// joined player under the epoch it now owns; after a refusal, whoever it
/// spoke for before (nobody, if it had not joined), so a later join can still
/// succeed.
pub fn after_join(me: Option<(PlayerId, ConnEpoch)>, outcome: &JoinOutcome) -> (r: Option<(PlayerId, ConnEpoch)>)
    ensures
        match *outcome {
            JoinOutcome::Joined { player_id, epoch, .. } => r matches Some((p, e)) && p@ == player_id@ && e == epoch,
            JoinOutcome::Refused(_) => r == me,
        },
{
    match outcome {
        JoinOutcome::Joined { player_id, epoch, .. } => Some((player_id.clone(), *epoch)),
        JoinOutcome::Refused(_) => me,
    }
}

} // verus!
