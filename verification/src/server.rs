//! Room creation over HTTP: the decision behind `POST /api/rooms`, taken on
//! plain values (the presented creation token and the request body).

use vstd::prelude::*;

use crate::domain::ids::{PlayerId, RoomCode, is_room_code, is_token};
use crate::domain::player::{NameError, name_verdict, new_player_view, validate_name};
use crate::domain::room::created_view;
use crate::error::AppError;
use crate::gate::{CreateToken, create_allowed, gate_allows, opt_str_ref};
use crate::registry::{MAX_ROOMS, Registry, first_fresh_spec, room_code_views};
use crate::time::Instant;

verus! {

/// Body of a room-creation request.
#[derive(Debug, Clone)]
pub struct CreateRoomRequest {
    pub host_name: String,
}

/// Which refusal room creation gives before it touches the registry, if any:
/// the creation token is checked first (so it runs behind the rate limiter
/// only), then the host's name.
pub open spec fn create_precheck(
    provided: Option<Seq<char>>,
    expected: Option<Seq<char>>,
    host_name: Seq<char>,
) -> Result<Seq<char>, AppError> {
    if !gate_allows(provided, expected) {
        Err(AppError::CreateForbidden)
    } else {
        match name_verdict(host_name) {
            Err(NameError::Empty) => Err(AppError::InvalidRequest),
            Err(NameError::TooLong) => Err(AppError::NameTooLong),
            Ok(name) => Ok(name),
        }
    }
}

/// Create a room for `request`, presenting the creation token `provided`
/// against the configured `create_token`. Returns the room code and the host's
/// id and token. `CreateForbidden` for a missing or wrong token while one is
/// configured; `InvalidRequest` for an empty host name; `NameTooLong` for an
/// over-long one; otherwise whatever [`Registry::create_room`] answers for the
/// trimmed name.
pub fn create_room(
    registry: &mut Registry,
    request: CreateRoomRequest,
    provided: Option<&str>,
    create_token: &CreateToken,
    now: Instant,
) -> (r: Result<(RoomCode, PlayerId, String), AppError>)
    requires
        old(registry).wf(),
    ensures
        final(registry).wf(),
        match create_precheck(opt_str_ref(provided), create_token.view(), request.host_name@) {
            Err(e) => r == Err::<(RoomCode, PlayerId, String), AppError>(e)
                && final(registry).rooms() == old(registry).rooms()
                && final(registry).is_dirty() == old(registry).is_dirty(),
            Ok(name) => {
                &&& old(registry).rooms().len() >= MAX_ROOMS
                    ==> r == Err::<(RoomCode, PlayerId, String), AppError>(AppError::RoomCapacityReached)
                &&& old(registry).rooms().len() < MAX_ROOMS
                    ==> r != Err::<(RoomCode, PlayerId, String), AppError>(AppError::RoomCapacityReached)
                &&& r matches Err(e) ==> e == AppError::RoomCapacityReached || e == AppError::CodeExhausted
                &&& old(registry).rooms().len() == 0 ==> r is Ok
                &&& match r {
                    Ok((code, host_id, token)) => {
                        &&& is_room_code(code@)
                        &&& is_token(host_id@)
                        &&& is_token(token@)
                        &&& !old(registry).rooms().contains_key(code@)
                        &&& final(registry).rooms()[code@]@ == created_view(
                            code@,
                            new_player_view(host_id@, name, token@, true),
                            now,
                        )
                        &&& final(registry).rooms() == old(registry).rooms().insert(
                            code@,
                            final(registry).rooms()[code@],
                        )
                        &&& final(registry).is_dirty()
                    },
                    Err(_) => final(registry).rooms() == old(registry).rooms()
                        && final(registry).is_dirty() == old(registry).is_dirty(),
                }
            },
        },
{
    if !create_allowed(provided, create_token.expected()) {
        return Err(AppError::CreateForbidden);
    }
    let name = match validate_name(request.host_name.as_str()) {
        Ok(name) => name,
        Err(NameError::Empty) => return Err(AppError::InvalidRequest),
        Err(NameError::TooLong) => return Err(AppError::NameTooLong),
    };
    registry.create_room(name, now)
}

/// Room creation as [`create_room`] decides it when the random code
/// candidates are `cands`: the same refusals first, then the room goes under
/// the first candidate no room uses yet (`CodeExhausted` when all are taken).
pub fn create_room_with(
    registry: &mut Registry,
    request: CreateRoomRequest,
    provided: Option<&str>,
    create_token: &CreateToken,
    cands: &Vec<RoomCode>,
    now: Instant,
) -> (r: Result<(RoomCode, PlayerId, String), AppError>)
    requires
        old(registry).wf(),
    ensures
        final(registry).wf(),
        match create_precheck(opt_str_ref(provided), create_token.view(), request.host_name@) {
            Err(e) => r == Err::<(RoomCode, PlayerId, String), AppError>(e)
                && final(registry).rooms() == old(registry).rooms()
                && final(registry).is_dirty() == old(registry).is_dirty(),
            Ok(name) => {
                &&& old(registry).rooms().len() >= MAX_ROOMS
                    ==> r == Err::<(RoomCode, PlayerId, String), AppError>(AppError::RoomCapacityReached)
                &&& old(registry).rooms().len() < MAX_ROOMS ==> match first_fresh_spec(
                    old(registry).rooms(),
                    room_code_views(cands@),
                ) {
                    None => r == Err::<(RoomCode, PlayerId, String), AppError>(AppError::CodeExhausted),
                    Some(i) => r matches Ok((code, host_id, token)) && code@ == cands@[i]@ && {
                        &&& is_token(host_id@)
                        &&& is_token(token@)
                        &&& final(registry).rooms()[code@]@ == created_view(
                            code@,
                            new_player_view(host_id@, name, token@, true),
                            now,
                        )
                        &&& final(registry).rooms() == old(registry).rooms().insert(
                            code@,
                            final(registry).rooms()[code@],
                        )
                        &&& final(registry).is_dirty()
                    },
                }
                &&& r is Err ==> final(registry).rooms() == old(registry).rooms()
                    && final(registry).is_dirty() == old(registry).is_dirty()
            },
        },
{
    if !create_allowed(provided, create_token.expected()) {
        return Err(AppError::CreateForbidden);
    }
    let name = match validate_name(request.host_name.as_str()) {
        Ok(name) => name,
        Err(NameError::Empty) => return Err(AppError::InvalidRequest),
        Err(NameError::TooLong) => return Err(AppError::NameTooLong),
    };
    registry.create_room_from(cands, name, now)
}

} // verus!
