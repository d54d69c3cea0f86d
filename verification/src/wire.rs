//! The on-the-wire message model. `PublicRoom`/`PublicPlayer` deliberately
//! have no token field, so broadcasts never carry credentials.

use vstd::prelude::*;

use crate::domain::ids::PlayerId;
use crate::domain::player::PlayerView;
use crate::domain::room::{Room, RoomState, RoomView, opt_id, player_views};

verus! {

/// Messages a client sends to the server.
#[derive(Debug, Clone)]
pub enum ClientMessage {
    Join { player_token: Option<String>, player_name: Option<String> },
    StartGame,
    SetOrder { player_ids: Vec<PlayerId> },
    EndTurn,
    ClaimTurn,
    UndoTurn,
    SkipPlayer { player_id: PlayerId },
    RemovePlayer { player_id: PlayerId },
    SetLocked { locked: bool },
    Nudge,
}

/// Messages the server sends to clients.
#[derive(Debug, Clone)]
pub enum ServerMessage {
    Welcome { player_id: PlayerId, token: String },
    RoomState { room: PublicRoom },
    Nudged,
    Error { code: String, message: String },
    /// The room has nobody left in it and is gone.
    RoomClosed,
}

#[derive(Debug, Clone, Copy, PartialEq, Eq, Structural)]
pub enum PublicState {
    Lobby,
    Active,
}

#[derive(Debug, Clone)]
pub struct PublicPlayer {
    pub id: PlayerId,
    pub name: String,
    pub is_host: bool,
    pub connected: bool,
}

#[derive(Debug, Clone)]
pub struct PublicRoom {
    pub code: String,
    pub state: PublicState,
    pub locked: bool,
    pub players: Vec<PublicPlayer>,
    pub current_player_id: Option<PlayerId>,
}

/// The mathematical content of a [`PublicPlayer`].
pub struct PublicPlayerView {
    pub id: Seq<char>,
    pub name: Seq<char>,
    pub is_host: bool,
    pub connected: bool,
}

/// The mathematical content of a [`PublicRoom`].
pub struct PublicRoomView {
    pub code: Seq<char>,
    pub state: PublicState,
    pub locked: bool,
    pub players: Seq<PublicPlayerView>,
    pub current: Option<Seq<char>>,
}

/// The mathematical content of a [`ServerMessage`].
pub enum ServerMessageView {
    Welcome { player_id: Seq<char>, token: Seq<char> },
    RoomState { room: PublicRoomView },
    Nudged,
    Error { code: Seq<char>, message: Seq<char> },
    RoomClosed,
}

/// The mathematical content of a [`ClientMessage`].
pub enum ClientMessageView {
    Join { player_token: Option<Seq<char>>, player_name: Option<Seq<char>> },
    StartGame,
    SetOrder { player_ids: Seq<Seq<char>> },
    EndTurn,
    ClaimTurn,
    UndoTurn,
    SkipPlayer { player_id: Seq<char> },
    RemovePlayer { player_id: Seq<char> },
    SetLocked { locked: bool },
    Nudge,
}

impl View for PublicPlayer {
    type V = PublicPlayerView;

    open spec fn view(&self) -> PublicPlayerView {
        PublicPlayerView { id: self.id@, name: self.name@, is_host: self.is_host, connected: self.connected }
    }
}

pub open spec fn public_player_views(ps: Seq<PublicPlayer>) -> Seq<PublicPlayerView> {
    ps.map_values(|p: PublicPlayer| p@)
}

impl View for PublicRoom {
    type V = PublicRoomView;

    open spec fn view(&self) -> PublicRoomView {
        PublicRoomView {
            code: self.code@,
            state: self.state,
            locked: self.locked,
            players: public_player_views(self.players@),
            current: opt_id(self.current_player_id),
        }
    }
}

impl View for ServerMessage {
    type V = ServerMessageView;

    open spec fn view(&self) -> ServerMessageView {
        match self {
            ServerMessage::Welcome { player_id, token } => ServerMessageView::Welcome {
                player_id: player_id@,
                token: token@,
            },
            ServerMessage::RoomState { room } => ServerMessageView::RoomState { room: room@ },
            ServerMessage::Nudged => ServerMessageView::Nudged,
            ServerMessage::Error { code, message } => ServerMessageView::Error {
                code: code@,
                message: message@,
            },
            ServerMessage::RoomClosed => ServerMessageView::RoomClosed,
        }
    }
}

pub open spec fn opt_string(o: Option<String>) -> Option<Seq<char>> {
    match o {
        Some(s) => Some(s@),
        None => None,
    }
}

impl View for ClientMessage {
    type V = ClientMessageView;

    open spec fn view(&self) -> ClientMessageView {
        match self {
            ClientMessage::Join { player_token, player_name } => ClientMessageView::Join {
                player_token: opt_string(*player_token),
                player_name: opt_string(*player_name),
            },
            ClientMessage::StartGame => ClientMessageView::StartGame,
            ClientMessage::SetOrder { player_ids } => ClientMessageView::SetOrder {
                player_ids: player_ids@.map_values(|p: PlayerId| p@),
            },
            ClientMessage::EndTurn => ClientMessageView::EndTurn,
            ClientMessage::ClaimTurn => ClientMessageView::ClaimTurn,
            ClientMessage::UndoTurn => ClientMessageView::UndoTurn,
            ClientMessage::SkipPlayer { player_id } => ClientMessageView::SkipPlayer { player_id: player_id@ },
            ClientMessage::RemovePlayer { player_id } => ClientMessageView::RemovePlayer { player_id: player_id@ },
            ClientMessage::SetLocked { locked } => ClientMessageView::SetLocked { locked: *locked },
            ClientMessage::Nudge => ClientMessageView::Nudge,
        }
    }
}

/// The public face of a player: everything but the secret token, the pending
/// skip and the connection bookkeeping.
pub open spec fn public_player_of(p: PlayerView) -> PublicPlayerView {
    PublicPlayerView { id: p.id, name: p.name, is_host: p.is_host, connected: p.connected }
}

pub open spec fn public_state_of(s: RoomState) -> PublicState {
    match s {
        RoomState::Lobby => PublicState::Lobby,
        RoomState::Active => PublicState::Active,
    }
}

/// What clients are shown of a room.
pub open spec fn public_room_of(r: RoomView) -> PublicRoomView {
    PublicRoomView {
        code: r.code,
        state: public_state_of(r.state),
        locked: r.locked,
        players: r.players.map_values(|p: PlayerView| public_player_of(p)),
        current: r.current,
    }
}

/// Rooms that agree on everything except their players' secrets (tokens),
/// pending skips, connection epochs, nudge log, clocks and previous holder.
pub open spec fn same_public_content(a: RoomView, b: RoomView) -> bool {
    &&& a.code == b.code
    &&& a.state == b.state
    &&& a.locked == b.locked
    &&& a.current == b.current
    &&& a.players.len() == b.players.len()
    &&& forall|i: int| 0 <= i < a.players.len() ==> {
        &&& #[trigger] a.players[i].id == b.players[i].id
        &&& a.players[i].name == b.players[i].name
        &&& a.players[i].is_host == b.players[i].is_host
        &&& a.players[i].connected == b.players[i].connected
    }
}

/// Tokens never reach clients: rooms that differ only in what is kept private
/// (tokens included) show clients exactly the same public room.
pub proof fn lemma_public_room_hides_tokens(a: RoomView, b: RoomView)
    requires
        same_public_content(a, b),
    ensures
        public_room_of(a) == public_room_of(b),
{
    assert(public_room_of(a).players =~= public_room_of(b).players);
}

fn public_state(s: RoomState) -> (p: PublicState)
    ensures
        p == public_state_of(s),
{
    match s {
        RoomState::Lobby => PublicState::Lobby,
        RoomState::Active => PublicState::Active,
    }
}

impl PublicRoom {
    /// What clients are shown of `room`.
    pub fn from(room: &Room) -> (p: PublicRoom)
        ensures
            p@ == public_room_of(room@),
    {
        let mut players: Vec<PublicPlayer> = Vec::new();
        let mut i: usize = 0;
        while i < room.players.len()
            invariant
                i <= room.players@.len(),
                public_player_views(players@) == player_views(room.players@).take(i as int).map_values(
                    |p: PlayerView| public_player_of(p),
                ),
            decreases room.players@.len() - i,
        {
            let p = &room.players[i];
            let ghost before = players@;
            let pp = PublicPlayer {
                id: p.id.clone(),
                name: p.name.clone(),
                is_host: p.is_host,
                connected: p.connected,
            };
            assert(pp@ == public_player_of(p@));
            players.push(pp);
            assert(public_player_views(players@) =~= public_player_views(before).push(pp@));
            proof {
                let pv = player_views(room.players@);
                assert(pv.take(i + 1) =~= pv.take(i as int).push(pv[i as int]));
                assert(pv[i as int] == room.players@[i as int]@);
                assert(public_player_views(players@) =~= pv.take(i + 1).map_values(
                    |p: PlayerView| public_player_of(p),
                ));
            }
            i = i + 1;
        }
        assert(player_views(room.players@).take(room.players@.len() as int) =~= player_views(room.players@));
        let current_player_id = match &room.current_player_id {
            Some(c) => Some(c.clone()),
            None => None,
        };
        let r = PublicRoom {
            code: room.code.0.clone(),
            state: public_state(room.state),
            locked: room.locked,
            players,
            current_player_id,
        };
        assert(r@.players =~= public_room_of(room@).players);
        r
    }
}

} // verus!
