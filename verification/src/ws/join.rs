//! Resolving a `join` frame: re-attach an existing player by token, or admit a
//! brand-new one.

use vstd::prelude::*;

use crate::domain::ids::{PlayerId, is_token};
use crate::domain::player::{ConnEpoch, NameError, name_verdict, new_player_view, validate_name};
use crate::domain::room::{MAX_PLAYERS, Room, RoomView, attach_spec, first_token_index, is_full_spec};
use crate::registry::{Outbound, outbound_views};
use crate::text::trim_owned;
use crate::time::Instant;
use crate::wire::{ServerMessage, ServerMessageView, opt_string};
use crate::ws::dispatch::{state_broadcast, state_broadcast_spec};

verus! {

/// Why a join was turned away.
#[derive(Debug, Clone, Copy, PartialEq, Eq, Structural)]
pub enum JoinRefusal {
    /// This connection has already joined as some player.
    AlreadyJoined,
    /// The presented token belongs to nobody in the room.
    UnknownToken,
    /// The requested name is too long.
    BadName,
    /// The room accepts no new players.
    RoomLocked,
    /// The room holds the maximum number of players.
    RoomFull,
}

/// The result of resolving a join.
#[derive(Debug)]
pub enum JoinOutcome {
    /// The connection now speaks for `player_id`; it owns the player under
    /// `epoch`. `rejoined` tells a token re-attach from a new player.
    Joined { player_id: PlayerId, token: String, epoch: ConnEpoch, rejoined: bool },
    Refused(JoinRefusal),
}

/// The name a brand-new player gets: an absent or blank name falls back to
/// "Player"; anything else must pass name validation.
pub open spec fn new_name_verdict(name: Option<Seq<char>>) -> Result<Seq<char>, NameError> {
    match name {
        Some(raw) => if crate::text::trim(raw).len() > 0 {
            name_verdict(raw)
        } else {
            Ok("Player"@)
        },
        None => Ok("Player"@),
    }
}

/// Resolve the name for a brand-new player.
pub fn new_player_name(player_name: Option<&str>) -> (r: Result<String, NameError>)
    ensures
        match r {
            Ok(s) => new_name_verdict(crate::gate::opt_str_ref(player_name)) == Ok::<Seq<char>, NameError>(s@),
            Err(e) => new_name_verdict(crate::gate::opt_str_ref(player_name)) == Err::<Seq<char>, NameError>(e),
        },
{
    match player_name {
        Some(raw) => {
            let t = trim_owned(raw);
            if t.as_str().is_empty() {
                Ok("Player".to_owned())
            } else {
                validate_name(raw)
            }
        },
        None => Ok("Player".to_owned()),
    }
}

/// The error frame a refused join is answered with, on that connection only.
pub open spec fn refusal_view(r: JoinRefusal) -> ServerMessageView {
    match r {
        JoinRefusal::AlreadyJoined => ServerMessageView::Error {
            code: "wrong_state"@,
            message: "Action not valid in the current state"@,
        },
        JoinRefusal::UnknownToken => ServerMessageView::Error { code: "not_found"@, message: "Target not found"@ },
        JoinRefusal::BadName => ServerMessageView::Error {
            code: "bad_name"@,
            message: "Name must be between 1 and 40 characters"@,
        },
        JoinRefusal::RoomLocked => ServerMessageView::Error { code: "room_locked"@, message: "Room is locked"@ },
        JoinRefusal::RoomFull => ServerMessageView::Error { code: "room_full"@, message: "Room is full"@ },
    }
}

/// The error frame a refused join is answered with.
pub fn refusal_message(r: JoinRefusal) -> (m: ServerMessage)
    ensures
        m@ == refusal_view(r),
{
    let (code, message) = match r {
        JoinRefusal::AlreadyJoined => ("wrong_state", "Action not valid in the current state"),
        JoinRefusal::UnknownToken => ("not_found", "Target not found"),
        JoinRefusal::BadName => ("bad_name", "Name must be between 1 and 40 characters"),
        JoinRefusal::RoomLocked => ("room_locked", "Room is locked"),
        JoinRefusal::RoomFull => ("room_full", "Room is full"),
    };
    ServerMessage::Error { code: code.to_owned(), message: message.to_owned() }
}

/// A presented token that asks to re-attach (an empty token does not).
pub open spec fn is_rejoin(token: Option<Seq<char>>) -> bool {
    token matches Some(t) && t.len() > 0
}

/// A join that was turned away, changing nothing and telling no one else.
pub open spec fn refused_with(
    r: (JoinOutcome, Vec<Outbound>, bool),
    why: JoinRefusal,
    before: RoomView,
    after: RoomView,
) -> bool {
    &&& r.0 matches JoinOutcome::Refused(w) && w == why
    &&& r.1@.len() == 0
    &&& !r.2
    &&& after == before
}

/// Resolve a `join` on a connection (`already_joined` when it already speaks
/// for a player). A known token re-attaches its player, even in a locked room;
/// an unknown one is refused as `UnknownToken`. Without a token a new player is
/// admitted unless the name is bad, the room is locked, or it is full (checked
/// in that order). A successful join broadcasts the new room state; only a new
/// player changes persisted state.
pub fn join(
    room: &mut Room,
    already_joined: bool,
    player_token: Option<String>,
    player_name: Option<String>,
    now: Instant,
) -> (r: (JoinOutcome, Vec<Outbound>, bool))
    requires
        old(room).next_conn_epoch < u64::MAX,
    ensures
        already_joined ==> refused_with(r, JoinRefusal::AlreadyJoined, old(room)@, final(room)@),
        !already_joined && is_rejoin(opt_string(player_token)) ==> {
            let t = opt_string(player_token)->Some_0;
            if exists|i: int| first_token_index(old(room)@.players, t, i) {
                let i = choose|i: int| first_token_index(old(room)@.players, t, i);
                let id = old(room)@.players[i].id;
                &&& r.0 matches JoinOutcome::Joined { player_id, token, epoch, rejoined }
                    && player_id@ == id && token@ == t && rejoined
                    && (final(room)@, epoch.0) == attach_spec(old(room)@, id)
                &&& outbound_views(r.1@) == state_broadcast_spec(final(room)@)
                &&& !r.2
            } else {
                refused_with(r, JoinRefusal::UnknownToken, old(room)@, final(room)@)
            }
        },
        !already_joined && !is_rejoin(opt_string(player_token)) ==> match new_name_verdict(opt_string(player_name)) {
            Err(_) => refused_with(r, JoinRefusal::BadName, old(room)@, final(room)@),
            Ok(name) => if old(room)@.locked {
                refused_with(r, JoinRefusal::RoomLocked, old(room)@, final(room)@)
            } else if is_full_spec(old(room)@) {
                refused_with(r, JoinRefusal::RoomFull, old(room)@, final(room)@)
            } else {
                &&& r.0 matches JoinOutcome::Joined { player_id, token, epoch, rejoined }
                    && !rejoined && is_token(player_id@) && is_token(token@)
                    && (final(room)@, epoch.0) == attach_spec(
                        RoomView {
                            players: old(room)@.players.push(new_player_view(player_id@, name, token@, false)),
                            last_active: now,
                            ..old(room)@
                        },
                        player_id@,
                    )
                &&& outbound_views(r.1@) == state_broadcast_spec(final(room)@)
                &&& r.2
            },
        },
        old(room)@.players.len() <= MAX_PLAYERS ==> final(room)@.players.len() <= MAX_PLAYERS,
{
    if already_joined {
        return (JoinOutcome::Refused(JoinRefusal::AlreadyJoined), Vec::new(), false);
    }
    let rejoin_token: Option<String> = match player_token {
        Some(t) => if t.as_str().is_empty() {
            None
        } else {
            Some(t)
        },
        None => None,
    };
    match rejoin_token {
        Some(t) => {
            let found = match room.player_by_token(t.as_str()) {
                Some(p) => Some((p.id.clone(), p.token.clone())),
                None => None,
            };
            match found {
                Some((id, token)) => {
                    proof {
                        let i = choose|i: int| first_token_index(old(room)@.players, t@, i);
                        let j = choose|j: int| first_token_index(old(room)@.players, t@, j)
                            && id@ == old(room)@.players[j].id;
                        if i < j {
                            assert(old(room)@.players[i].token != t@);
                        }
                        if j < i {
                            assert(old(room)@.players[j].token != t@);
                        }
                    }
                    let epoch = room.attach_connection(&id);
                    let out = state_broadcast(room);
                    (JoinOutcome::Joined { player_id: id, token, epoch, rejoined: true }, out, false)
                },
                None => (JoinOutcome::Refused(JoinRefusal::UnknownToken), Vec::new(), false),
            }
        },
        None => {
            let name = match player_name {
                Some(raw) => new_player_name(Some(raw.as_str())),
                None => new_player_name(None),
            };
            let name = match name {
                Ok(n) => n,
                Err(_) => return (JoinOutcome::Refused(JoinRefusal::BadName), Vec::new(), false),
            };
            if room.locked {
                return (JoinOutcome::Refused(JoinRefusal::RoomLocked), Vec::new(), false);
            }
            if room.is_full() {
                return (JoinOutcome::Refused(JoinRefusal::RoomFull), Vec::new(), false);
            }
            let (id, token) = room.add_player(name, now);
            let epoch = room.attach_connection(&id);
            let out = state_broadcast(room);
            (JoinOutcome::Joined { player_id: id, token, epoch, rejoined: false }, out, true)
        },
    }
}

} // verus!
