//! A participant in a room.

use vstd::prelude::*;

use crate::domain::ids::PlayerId;
use crate::text::{chars_of, lemma_trim_bounds_unique, string_from_chars, trim, trim_range};

verus! {

/// Maximum accepted length (in characters) for a player/host name after trim.
pub const MAX_NAME_LEN: usize = 40;

/// Reasons a candidate name is rejected.
#[derive(Debug, Clone, Copy, PartialEq, Eq, Structural)]
pub enum NameError {
    Empty,
    TooLong,
}

/// What [`validate_name`] answers for the raw text `raw`.
pub open spec fn name_verdict(raw: Seq<char>) -> Result<Seq<char>, NameError> {
    let t = trim(raw);
    if t.len() == 0 {
        Err(NameError::Empty)
    } else if t.len() > MAX_NAME_LEN {
        Err(NameError::TooLong)
    } else {
        Ok(t)
    }
}

/// Trim and validate a candidate player/host name.
///
/// Returns the trimmed name on success; `NameError::Empty` if the trimmed name
/// is empty; `NameError::TooLong` if it exceeds [`MAX_NAME_LEN`] characters.
pub fn validate_name(raw: &str) -> (r: Result<String, NameError>)
    ensures
        match r {
            Ok(s) => name_verdict(raw@) == Ok::<Seq<char>, NameError>(s@),
            Err(e) => name_verdict(raw@) == Err::<Seq<char>, NameError>(e),
        },
{
    let chars = chars_of(raw);
    let n = chars.len();
    let (a, b) = trim_range(&chars, 0, n);
    proof {
        assert(chars@.subrange(0, n as int) =~= raw@);
        lemma_trim_bounds_unique(raw@, a as int, b as int);
    }
    if a == b {
        return Err(NameError::Empty);
    }
    if b - a > MAX_NAME_LEN {
        return Err(NameError::TooLong);
    }
    Ok(string_from_chars(&chars, a, b))
}

/// A valid name is its own validation: validating it again gives it back.
pub proof fn lemma_validated_name_is_fixed_point(raw: Seq<char>)
    requires
        name_verdict(raw) is Ok,
    ensures
        name_verdict(name_verdict(raw)->Ok_0) == name_verdict(raw),
{
    crate::text::lemma_trim_idempotent(raw);
}

/// Identifies WHICH live connection currently owns a player.
///
/// Each attach is handed a distinct epoch, so a departing connection can tell
/// whether it is still the owner before it clears `connected`.
/// [`ConnEpoch::none`] is carried before any socket has attached (and after a
/// snapshot reload); it is never issued.
#[derive(Debug, Clone, Copy, PartialEq, Eq, Structural)]
pub struct ConnEpoch(pub u64);

impl ConnEpoch {
    /// The epoch of a player no connection has ever attached to.
    pub fn none() -> (e: ConnEpoch)
        ensures
            e.0 == 0,
    {
        ConnEpoch(0)
    }
}

/// A single player in a room. `token` is a secret session credential and is
/// never part of the public room view.
#[derive(Debug)]
pub struct Player {
    pub id: PlayerId,
    pub name: String,
    pub token: String,
    pub is_host: bool,
    pub connected: bool,
    /// When true, this player is skipped exactly once, then the flag clears.
    pub skip_next: bool,
    /// Which connection last attached to this player. Process-local liveness
    /// bookkeeping, deliberately not persisted.
    pub conn_epoch: ConnEpoch,
}

/// The mathematical content of a [`Player`].
pub struct PlayerView {
    pub id: Seq<char>,
    pub name: Seq<char>,
    pub token: Seq<char>,
    pub is_host: bool,
    pub connected: bool,
    pub skip_next: bool,
    pub conn_epoch: u64,
}

impl View for Player {
    type V = PlayerView;

    open spec fn view(&self) -> PlayerView {
        PlayerView {
            id: self.id@,
            name: self.name@,
            token: self.token@,
            is_host: self.is_host,
            connected: self.connected,
            skip_next: self.skip_next,
            conn_epoch: self.conn_epoch.0,
        }
    }
}

/// A freshly created player: connected, no pending skip, no owning connection.
pub open spec fn new_player_view(id: Seq<char>, name: Seq<char>, token: Seq<char>, is_host: bool) -> PlayerView {
    PlayerView {
        id,
        name,
        token,
        is_host,
        connected: true,
        skip_next: false,
        conn_epoch: 0,
    }
}

impl Player {
    pub fn new(id: PlayerId, name: String, token: String, is_host: bool) -> (p: Self)
        ensures
            p@ == new_player_view(id@, name@, token@, is_host),
    {
        Player {
            id,
            name,
            token,
            is_host,
            connected: true,
            skip_next: false,
            conn_epoch: ConnEpoch::none(),
        }
    }
}

} // verus!
