//! The set of live rooms, and the messages produced for their connections.

use vstd::prelude::*;

use dashmap::DashMap;

use crate::domain::ids::{PlayerId, RoomCode, is_room_code, is_token};
use crate::domain::player::new_player_view;
use crate::domain::room::{Room, RoomView, created_view, is_expired_spec, opt_index, string_views};
use crate::error::AppError;
use crate::persist::snapshot::{RegistrySnapshot, RoomSnapshot, RoomSnapshotView, restored, snapshot_of};
use crate::time::{Duration, Instant};
use crate::wire::{PublicRoom, ServerMessage, ServerMessageView, public_room_of};

verus! {

/// A server message plus its delivery target.
#[derive(Debug, Clone)]
pub enum Outbound {
    /// Deliver to every connection in the room.
    All(ServerMessage),
    /// Deliver only to the connection(s) authenticated as this player.
    Player(PlayerId, ServerMessage),
}

/// The mathematical content of an [`Outbound`].
pub enum OutboundView {
    All(ServerMessageView),
    Player(Seq<char>, ServerMessageView),
}

impl View for Outbound {
    type V = OutboundView;

    open spec fn view(&self) -> OutboundView {
        match self {
            Outbound::All(m) => OutboundView::All(m@),
            Outbound::Player(p, m) => OutboundView::Player(p@, m@),
        }
    }
}

pub open spec fn outbound_views(s: Seq<Outbound>) -> Seq<OutboundView> {
    s.map_values(|o: Outbound| o@)
}


#[verifier::external_type_specification]
#[verifier::external_body]
#[verifier::reject_recursive_types(K)]
#[verifier::reject_recursive_types(V)]
#[verifier::reject_recursive_types(S)]
pub struct ExDashMap<K, V, S>(DashMap<K, V, S>);

/// The concurrent map the rooms live in, keyed by room code.
pub type RoomTable = DashMap<String, Room>;

/// The rooms a `DashMap` holds, by room code.
pub uninterp spec fn room_table(m: DashMap<String, Room>) -> Map<Seq<char>, Room>;

/// `t` is finite and has `n` entries.
pub open spec fn counts(t: Map<Seq<char>, Room>, n: usize) -> bool {
    t.dom().finite() && t.len() == n
}

/// `DashMap::new`: an empty map.
#[verifier::external_body]
fn table_new() -> (r: RoomTable)
    ensures
        room_table(r).dom().len() == 0 && room_table(r).dom().finite(),
{
    DashMap::new()
}

/// `DashMap::len`: the number of entries (the map is finite).
#[verifier::external_body]
fn table_len(m: &DashMap<String, Room>) -> (n: usize)
    ensures
        counts(room_table(*m), n),
{
    m.len()
}

/// `DashMap::contains_key`: whether an entry has key `k`.
#[verifier::external_body]
fn table_contains(m: &DashMap<String, Room>, k: &str) -> (b: bool)
    ensures
        b == room_table(*m).contains_key(k@),
{
    m.contains_key(k)
}

/// `DashMap::insert`: the entry for `k` becomes `v` (replacing any old one).
#[verifier::external_body]
fn table_insert(m: &mut DashMap<String, Room>, k: String, v: Room)
    ensures
        room_table(*final(m)) == room_table(*old(m)).insert(k@, v),
{
    m.insert(k, v);
}

/// `DashMap::remove`: takes out the entry for `k`, if there is one.
#[verifier::external_body]
fn table_remove(m: &mut DashMap<String, Room>, k: &str) -> (r: Option<Room>)
    ensures
        room_table(*final(m)) == room_table(*old(m)).remove(k@),
        r == (if room_table(*old(m)).contains_key(k@) {
            Some(room_table(*old(m))[k@])
        } else {
            None::<Room>
        }),
{
    m.remove(k).map(|(_, v)| v)
}

/// `DashMap::iter`, keeping each entry's key: every key exactly once, in the
/// map's own (unspecified) order.
#[verifier::external_body]
fn table_keys(m: &DashMap<String, Room>) -> (ks: Vec<String>)
    ensures
        string_views(ks@).no_duplicates(),
        string_views(ks@).to_set() == room_table(*m).dom(),
{
    m.iter().map(|e| e.key().clone()).collect()
}

/// `v` holds one snapshot per room of `t`, in some order.
pub open spec fn snapshots_of(t: Map<Seq<char>, Room>, v: Seq<RoomSnapshot>) -> bool {
    &&& v.len() == t.len()
    &&& forall|i: int| #![trigger v[i]] 0 <= i < v.len() ==> exists|k: Seq<char>| #[trigger] t.contains_key(k)
        && v[i]@ == snapshot_of(t[k]@)
    &&& forall|k: Seq<char>| #[trigger] t.contains_key(k) ==> exists|i: int| 0 <= i < v.len()
        && v[i]@ == snapshot_of(t[k]@)
}

/// `DashMap::iter`, snapshotting each room with [`RoomSnapshot::from`]: one
/// record per entry, in the map's own (unspecified) order.
#[verifier::external_body]
fn table_snapshots(m: &DashMap<String, Room>) -> (v: Vec<RoomSnapshot>)
    ensures
        snapshots_of(room_table(*m), v@),
{
    m.iter().map(|e| RoomSnapshot::from(e.value())).collect()
}

/// `DashMap::get`, showing the room with [`PublicRoom::from`].
#[verifier::external_body]
fn table_public_room(m: &DashMap<String, Room>, k: &str) -> (r: Option<PublicRoom>)
    ensures
        match r {
            Some(p) => room_table(*m).contains_key(k@) && p@ == public_room_of(room_table(*m)[k@]@),
            None => !room_table(*m).contains_key(k@),
        },
{
    m.get(k).map(|e| PublicRoom::from(e.value()))
}

/// The rooms of `t` that are still live at `now` under `ttl`.
pub open spec fn live_rooms(t: Map<Seq<char>, Room>, now: Instant, ttl: Duration) -> Map<Seq<char>, Room> {
    t.filter_keys(|k: Seq<char>| !is_expired_spec(t[k]@, now, ttl))
}

/// The rooms a snapshot restores at `now`, by code; a later record for the
/// same code replaces an earlier one.
pub open spec fn restore_all(snaps: Seq<RoomSnapshotView>, now: Instant) -> Map<Seq<char>, RoomView>
    decreases snaps.len(),
{
    if snaps.len() == 0 {
        Map::empty()
    } else {
        restore_all(snaps.drop_last(), now).insert(snaps.last().code, restored(snaps.last(), now))
    }
}

/// The views of the rooms of `t`.
pub open spec fn room_views(t: Map<Seq<char>, Room>) -> Map<Seq<char>, RoomView> {
    t.map_values(|r: Room| r@)
}

pub open spec fn snapshot_views(v: Seq<RoomSnapshot>) -> Seq<RoomSnapshotView> {
    v.map_values(|s: RoomSnapshot| s@)
}

/// Restoring a snapshot files every room under its own code.
proof fn lemma_restore_all_codes(s: Seq<RoomSnapshotView>, now: Instant)
    ensures
        forall|k: Seq<char>| #[trigger] restore_all(s, now).contains_key(k) ==> restore_all(s, now)[k].code == k,
    decreases s.len(),
{
    if s.len() > 0 {
        lemma_restore_all_codes(s.drop_last(), now);
    }
}

/// When every record of `s` is the snapshot of the room of `t` under its own
/// code, restoring `s` gives one room per code in `s`, each restored from the
/// snapshot of that room.
proof fn lemma_restore_all_of_snapshots(t: Map<Seq<char>, Room>, s: Seq<RoomSnapshotView>, now: Instant)
    requires
        forall|i: int| 0 <= i < s.len() ==> t.contains_key(#[trigger] s[i].code)
            && s[i] == snapshot_of(t[s[i].code]@),
    ensures
        forall|k: Seq<char>| #[trigger] restore_all(s, now).contains_key(k)
            <==> exists|i: int| 0 <= i < s.len() && s[i].code == k,
        forall|k: Seq<char>| #[trigger] restore_all(s, now).contains_key(k)
            ==> restore_all(s, now)[k] == restored(snapshot_of(t[k]@), now),
    decreases s.len(),
{
    if s.len() > 0 {
        let p = s.drop_last();
        assert forall|i: int| 0 <= i < p.len() implies t.contains_key(#[trigger] p[i].code)
            && p[i] == snapshot_of(t[p[i].code]@) by {
            assert(p[i] == s[i]);
        }
        lemma_restore_all_of_snapshots(t, p, now);
        let last = s.last();
        assert(s[s.len() - 1] == last);
        assert forall|k: Seq<char>| #[trigger] restore_all(s, now).contains_key(k)
            <==> exists|i: int| 0 <= i < s.len() && s[i].code == k by {
            if exists|i: int| 0 <= i < s.len() && s[i].code == k {
                let i = choose|i: int| 0 <= i < s.len() && s[i].code == k;
                if i < s.len() - 1 {
                    assert(p[i].code == k);
                }
            }
            if exists|i: int| 0 <= i < p.len() && p[i].code == k {
                let i = choose|i: int| 0 <= i < p.len() && p[i].code == k;
                assert(s[i].code == k);
            }
        }
    }
}

/// Restoring a snapshot of rooms stored under their own codes brings back
/// exactly those rooms, each restored from its own snapshot.
proof fn lemma_snapshot_restores_every_room(t: Map<Seq<char>, Room>, v: Seq<RoomSnapshot>, now: Instant)
    requires
        snapshots_of(t, v),
        forall|k: Seq<char>| #[trigger] t.contains_key(k) ==> t[k]@.code == k,
    ensures
        restore_all(snapshot_views(v), now).dom() == t.dom(),
        forall|k: Seq<char>| #[trigger] t.contains_key(k)
            ==> restore_all(snapshot_views(v), now)[k] == restored(snapshot_of(t[k]@), now),
{
    let s = snapshot_views(v);
    assert forall|i: int| 0 <= i < s.len() implies t.contains_key(#[trigger] s[i].code)
        && s[i] == snapshot_of(t[s[i].code]@) by {
        assert(s[i] == v[i]@);
        let k = choose|k: Seq<char>| #[trigger] t.contains_key(k) && v[i]@ == snapshot_of(t[k]@);
        assert(s[i].code == k);
    }
    lemma_restore_all_of_snapshots(t, s, now);
    assert forall|k: Seq<char>| #[trigger] t.contains_key(k) implies restore_all(s, now).contains_key(k) by {
        let i = choose|i: int| 0 <= i < v.len() && v[i]@ == snapshot_of(t[k]@);
        assert(s[i] == v[i]@);
        assert(s[i].code == k);
    }
    assert(restore_all(s, now).dom() =~= t.dom());
}

/// The codes of `cs`.
pub open spec fn room_code_views(cs: Seq<RoomCode>) -> Seq<Seq<char>> {
    cs.map_values(|c: RoomCode| c@)
}

/// `i` is the first candidate code that no room of `t` uses.
pub open spec fn fresh_at(t: Map<Seq<char>, Room>, cands: Seq<Seq<char>>, i: int) -> bool {
    &&& 0 <= i < cands.len()
    &&& !t.contains_key(cands[i])
    &&& forall|j: int| 0 <= j < i ==> t.contains_key(#[trigger] cands[j])
}

/// Index of the first candidate code that no room of `t` uses, if any.
pub open spec fn first_fresh_spec(t: Map<Seq<char>, Room>, cands: Seq<Seq<char>>) -> Option<int> {
    if exists|i: int| fresh_at(t, cands, i) {
        Some(choose|i: int| fresh_at(t, cands, i))
    } else {
        None
    }
}

proof fn lemma_fresh_at_unique(t: Map<Seq<char>, Room>, cands: Seq<Seq<char>>, i: int)
    requires
        fresh_at(t, cands, i),
    ensures
        first_fresh_spec(t, cands) == Some(i),
{
    let c = choose|c: int| fresh_at(t, cands, c);
    assert(fresh_at(t, cands, c));
    if c < i {
        assert(t.contains_key(cands[c]));
    }
    if i < c {
        assert(t.contains_key(cands[i]));
    }
}

/// [`MAX_CODE_ATTEMPTS`] random room codes, the candidates room creation tries.
pub fn draw_candidates() -> (v: Vec<RoomCode>)
    ensures
        v@.len() == MAX_CODE_ATTEMPTS,
        forall|i: int| 0 <= i < v@.len() ==> is_room_code(#[trigger] v@[i]@),
{
    let mut v: Vec<RoomCode> = Vec::new();
    while v.len() < MAX_CODE_ATTEMPTS
        invariant
            v@.len() <= MAX_CODE_ATTEMPTS,
            forall|i: int| 0 <= i < v@.len() ==> is_room_code(#[trigger] v@[i]@),
        decreases MAX_CODE_ATTEMPTS - v@.len(),
    {
        v.push(RoomCode::generate());
    }
    v
}

/// Maximum number of concurrently live rooms the server will hold.
pub const MAX_ROOMS: usize = 10_000;

/// How many fresh codes room creation tries before giving up.
pub const MAX_CODE_ATTEMPTS: usize = 10;

/// In-memory room storage, keyed by room code, plus a flag recording whether
/// persisted state changed since the last snapshot.
pub struct Registry {
    rooms: DashMap<String, Room>,
    dirty: bool,
}

impl Registry {
    /// The rooms, by code.
    pub closed spec fn rooms(self) -> Map<Seq<char>, Room> {
        room_table(self.rooms)
    }

    /// Whether state changed since the last snapshot.
    pub closed spec fn is_dirty(self) -> bool {
        self.dirty
    }

    /// The registry holds finitely many rooms, each under its own code.
    pub closed spec fn wf(self) -> bool {
        &&& self.rooms().dom().finite()
        &&& forall|k: Seq<char>| #[trigger] self.rooms().contains_key(k) ==> self.rooms()[k]@.code == k
    }

    pub fn new() -> (r: Self)
        ensures
            r.wf(),
            r.rooms() == Map::<Seq<char>, Room>::empty(),
            !r.is_dirty(),
    {
        let r = Registry { rooms: table_new(), dirty: false };
        assert(r.rooms() =~= Map::<Seq<char>, Room>::empty());
        r
    }

    /// Return whether state changed since the last call, clearing the flag.
    pub fn take_dirty(&mut self) -> (b: bool)
        ensures
            final(self).wf() == old(self).wf(),
            b == old(self).is_dirty(),
            !final(self).is_dirty(),
            final(self).rooms() == old(self).rooms(),
    {
        let b = self.dirty;
        self.dirty = false;
        b
    }

    /// Number of live rooms.
    pub fn len(&self) -> (n: usize)
        ensures
            counts(self.rooms(), n),
    {
        table_len(&self.rooms)
    }

    pub fn contains(&self, code: &str) -> (b: bool)
        ensures
            b == self.rooms().contains_key(code@),
    {
        table_contains(&self.rooms, code)
    }

    /// Build a snapshot of every live room (in no particular order).
    pub fn snapshot(&self) -> (s: RegistrySnapshot)
        ensures
            snapshots_of(self.rooms(), s.rooms@),
    {
        RegistrySnapshot { rooms: table_snapshots(&self.rooms) }
    }

    /// Read-only public view of a room's current state. Does not mark the
    /// registry dirty.
    pub fn public_room(&self, code: &str) -> (r: Option<PublicRoom>)
        ensures
            match r {
                Some(p) => self.rooms().contains_key(code@) && p@ == public_room_of(self.rooms()[code@]@),
                None => !self.rooms().contains_key(code@),
            },
    {
        table_public_room(&self.rooms, code)
    }

    /// Index of the first candidate whose code no room uses yet, or `None`
    /// when every candidate is taken.
    pub fn first_fresh(&self, cands: &Vec<RoomCode>) -> (r: Option<usize>)
        ensures
            opt_index(r) == first_fresh_spec(self.rooms(), room_code_views(cands@)),
    {
        let ghost cv = room_code_views(cands@);
        let mut i: usize = 0;
        while i < cands.len()
            invariant
                i <= cands@.len(),
                cv == room_code_views(cands@),
                forall|j: int| 0 <= j < i ==> self.rooms().contains_key(#[trigger] cv[j]),
            decreases cands@.len() - i,
        {
            if !table_contains(&self.rooms, cands[i].0.as_str()) {
                proof {
                    assert(cv[i as int] == cands@[i as int]@);
                    lemma_fresh_at_unique(self.rooms(), cv, i as int);
                }
                return Some(i);
            }
            assert(cv[i as int] == cands@[i as int]@);
            i = i + 1;
        }
        proof {
            if exists|k: int| fresh_at(self.rooms(), cv, k) {
                let k = choose|k: int| fresh_at(self.rooms(), cv, k);
                assert(self.rooms().contains_key(cv[k]));
            }
        }
        None
    }

    /// Create a room under the first of `cands` that no room uses yet.
    /// Returns `(code, host_id, host_token)`. `RoomCapacityReached` if the
    /// server already holds [`MAX_ROOMS`] rooms; otherwise `CodeExhausted` if
    /// every candidate is taken.
    pub fn create_room_from(
        &mut self,
        cands: &Vec<RoomCode>,
        host_name: String,
        now: Instant,
    ) -> (r: Result<(RoomCode, PlayerId, String), AppError>)
        requires
            old(self).wf(),
        ensures
            final(self).wf(),
            old(self).rooms().len() >= MAX_ROOMS ==> r == Err::<(RoomCode, PlayerId, String), AppError>(AppError::RoomCapacityReached),
            old(self).rooms().len() < MAX_ROOMS ==> match first_fresh_spec(old(self).rooms(), room_code_views(cands@)) {
                None => r == Err::<(RoomCode, PlayerId, String), AppError>(AppError::CodeExhausted),
                Some(i) => r matches Ok((code, host_id, token)) && code@ == cands@[i]@ && {
                    &&& is_token(host_id@)
                    &&& is_token(token@)
                    &&& final(self).rooms()[code@]@ == created_view(code@, new_player_view(host_id@, host_name@, token@, true), now)
                    &&& final(self).rooms() == old(self).rooms().insert(code@, final(self).rooms()[code@])
                    &&& final(self).is_dirty()
                },
            },
            r is Err ==> final(self).rooms() == old(self).rooms() && final(self).is_dirty() == old(self).is_dirty(),
            old(self).rooms().len() <= MAX_ROOMS ==> final(self).rooms().len() <= MAX_ROOMS,
    {
        let n = table_len(&self.rooms);
        if n >= MAX_ROOMS {
            return Err(AppError::RoomCapacityReached);
        }
        let i = match self.first_fresh(cands) {
            Some(i) => i,
            None => return Err(AppError::CodeExhausted),
        };
        let code = cands[i].clone();
        proof {
            let cv = room_code_views(cands@);
            assert(cv[i as int] == cands@[i as int]@);
            assert(fresh_at(old(self).rooms(), cv, i as int));
        }
        let (room, host_id, token) = Room::create(code.clone(), host_name, now);
        let ghost made = room;
        table_insert(&mut self.rooms, code.0.clone(), room);
        self.dirty = true;
        assert(self.rooms()[code@] == made);
        assert(self.rooms().dom() =~= old(self).rooms().dom().insert(code@));
        Ok((code, host_id, token))
    }

    /// Create a room with a fresh code. Returns `(code, host_id, host_token)`.
    /// `RoomCapacityReached` if the server already holds [`MAX_ROOMS`] rooms;
    /// `CodeExhausted` if none of [`MAX_CODE_ATTEMPTS`] random codes is unused.
    /// Which codes are drawn is chance; what is done with them is
    /// [`Registry::create_room_from`].
    pub fn create_room(&mut self, host_name: String, now: Instant) -> (r: Result<(RoomCode, PlayerId, String), AppError>)
        requires
            old(self).wf(),
        ensures
            final(self).wf(),
            old(self).rooms().len() >= MAX_ROOMS ==> r == Err::<(RoomCode, PlayerId, String), AppError>(AppError::RoomCapacityReached),
            old(self).rooms().len() < MAX_ROOMS ==> r != Err::<(RoomCode, PlayerId, String), AppError>(AppError::RoomCapacityReached),
            old(self).rooms().len() == 0 ==> r is Ok,
            old(self).rooms().len() <= MAX_ROOMS ==> final(self).rooms().len() <= MAX_ROOMS,
            r matches Err(e) ==> e == AppError::RoomCapacityReached || e == AppError::CodeExhausted,
            match r {
                Ok((code, host_id, token)) => {
                    &&& is_room_code(code@)
                    &&& is_token(host_id@)
                    &&& is_token(token@)
                    &&& !old(self).rooms().contains_key(code@)
                    &&& final(self).rooms().contains_key(code@)
                    &&& final(self).rooms()[code@]@ == created_view(code@, new_player_view(host_id@, host_name@, token@, true), now)
                    &&& final(self).rooms() == old(self).rooms().insert(code@, final(self).rooms()[code@])
                    &&& final(self).is_dirty()
                },
                Err(_) => final(self).rooms() == old(self).rooms() && final(self).is_dirty() == old(self).is_dirty(),
            },
    {
        let cands = draw_candidates();
        let r = self.create_room_from(&cands, host_name, now);
        proof {
            let cv = room_code_views(cands@);
            if old(self).rooms().len() == 0 {
                assert(cv[0] == cands@[0]@);
                assert(fresh_at(old(self).rooms(), cv, 0));
            }
            if old(self).rooms().len() < MAX_ROOMS && first_fresh_spec(old(self).rooms(), cv) is Some {
                let i = first_fresh_spec(old(self).rooms(), cv)->0;
                assert(fresh_at(old(self).rooms(), cv, i));
                assert(cv[i] == cands@[i]@);
            }
        }
        r
    }

    /// Run `f` on the room `code`: `f` gets the room and hands it back along
    /// with its result, the messages it produced for the room's connections, and
    /// whether it changed persisted state (only then is the registry marked
    /// dirty). `RoomNotFound` if the code is unknown.
    pub fn with_room_mut<F, T>(&mut self, code: &str, f: F) -> (r: Result<(T, Vec<Outbound>), AppError>)
        where
            F: FnOnce(Room) -> (Room, T, Vec<Outbound>, bool),
        requires
            old(self).wf(),
            old(self).rooms().contains_key(code@) ==> f.requires((old(self).rooms()[code@],)),
            forall|room: Room, out: (Room, T, Vec<Outbound>, bool)|
                #[trigger] f.ensures((room,), out) ==> out.0@.code == room@.code,
        ensures
            final(self).wf(),
            !old(self).rooms().contains_key(code@) ==> r == Err::<(T, Vec<Outbound>), AppError>(AppError::RoomNotFound)
                && final(self).rooms() == old(self).rooms() && final(self).is_dirty() == old(self).is_dirty(),
            old(self).rooms().contains_key(code@) ==> exists|out: (Room, T, Vec<Outbound>, bool)| {
                &&& #[trigger] f.ensures((old(self).rooms()[code@],), out)
                &&& r == Ok::<(T, Vec<Outbound>), AppError>((out.1, out.2))
                &&& final(self).rooms() == old(self).rooms().insert(code@, out.0)
                &&& final(self).is_dirty() == (old(self).is_dirty() || out.3)
            },
    {
        let room = match table_remove(&mut self.rooms, code) {
            Some(room) => room,
            None => return Err(AppError::RoomNotFound),
        };
        let out = f(room);
        let (room, result, outbound, dirty) = out;
        table_insert(&mut self.rooms, code.to_owned(), room);
        proof {
            assert(self.rooms() =~= old(self).rooms().insert(code@, out.0));
        }
        if dirty {
            self.dirty = true;
        }
        Ok((result, outbound))
    }

    /// Drop the room `code` if nobody is left in it; returns whether it was
    /// dropped. Called once the room's closure has been announced, so an
    /// emptied room is neither kept nor persisted.
    pub fn remove_if_empty(&mut self, code: &str) -> (b: bool)
        requires
            old(self).wf(),
        ensures
            final(self).wf(),
            b == (old(self).rooms().contains_key(code@) && old(self).rooms()[code@]@.players.len() == 0),
            b ==> final(self).rooms() == old(self).rooms().remove(code@) && final(self).is_dirty(),
            !b ==> final(self).rooms() == old(self).rooms() && final(self).is_dirty() == old(self).is_dirty(),
    {
        match table_remove(&mut self.rooms, code) {
            None => {
                assert(self.rooms() =~= old(self).rooms());
                false
            },
            Some(room) => {
                if room.players.len() == 0 {
                    self.dirty = true;
                    true
                } else {
                    table_insert(&mut self.rooms, code.to_owned(), room);
                    assert(self.rooms() =~= old(self).rooms());
                    false
                }
            },
        }
    }

    /// Remove rooms idle for at least `ttl`. Returns the number removed.
    pub fn sweep_expired(&mut self, now: Instant, ttl: Duration) -> (removed: usize)
        requires
            old(self).wf(),
        ensures
            final(self).wf(),
            final(self).rooms() == live_rooms(old(self).rooms(), now, ttl),
            final(self).rooms().len() + removed == old(self).rooms().len(),
            final(self).is_dirty() == (old(self).is_dirty() || removed > 0),
    {
        let ghost t0 = self.rooms();
        let n = table_len(&self.rooms);
        let keys = table_keys(&self.rooms);
        let ghost kv = string_views(keys@);
        proof {
            kv.unique_seq_to_set();
            assert(kv.len() == t0.len());
        }
        let mut removed: usize = 0;
        let mut i: usize = 0;
        while i < keys.len()
            invariant
                kv == string_views(keys@),
                kv.no_duplicates(),
                kv.to_set() == t0.dom(),
                t0 == old(self).rooms(),
                t0.dom().finite(),
                n == t0.len(),
                kv.len() == t0.len(),
                i <= keys@.len(),
                self.is_dirty() == old(self).is_dirty(),
                self.rooms().dom().finite(),
                self.rooms().len() + removed == t0.len(),
                forall|k: Seq<char>| #[trigger] self.rooms().contains_key(k) <==> (t0.contains_key(k) && !(
                    kv.take(i as int).contains(k) && is_expired_spec(t0[k]@, now, ttl))),
                forall|k: Seq<char>| #[trigger] self.rooms().contains_key(k) ==> self.rooms()[k] == t0[k],
            decreases keys@.len() - i,
        {
            let ghost k = kv[i as int];
            proof {
                assert(kv.to_set().contains(k));
                assert(!kv.take(i as int).contains(k)) by {
                    if kv.take(i as int).contains(k) {
                        let j = choose|j: int| 0 <= j < i && kv.take(i as int)[j] == k;
                        assert(kv[j] == kv[i as int]);
                    }
                }
                assert(self.rooms().contains_key(k));
                assert(kv.take(i + 1) =~= kv.take(i as int).push(k));
            }
            let ghost before = self.rooms();
            let room = table_remove(&mut self.rooms, keys[i].as_str());
            let room = match room {
                Some(r) => r,
                None => {
                    proof {
                        assert(false);
                    }
                    return removed;
                },
            };
            proof {
                before.lemma_remove_key_len(k);
            }
            assert(room == t0[k]);
            if room.is_expired(now, ttl) {
                removed = removed + 1;
            } else {
                table_insert(&mut self.rooms, keys[i].clone(), room);
                assert(self.rooms() =~= before);
            }
            proof {
                assert forall|k2: Seq<char>| #[trigger] self.rooms().contains_key(k2) <==> (t0.contains_key(k2) && !(
                    kv.take(i + 1).contains(k2) && is_expired_spec(t0[k2]@, now, ttl))) by {
                    if k2 != k {
                        assert(kv.take(i + 1).contains(k2) <==> kv.take(i as int).contains(k2)) by {
                            let t1 = kv.take(i + 1);
                            let t0s = kv.take(i as int);
                            if t1.contains(k2) {
                                let j = choose|j: int| 0 <= j < t1.len() && t1[j] == k2;
                                assert(j < i);
                                assert(t0s[j] == k2);
                            }
                            if t0s.contains(k2) {
                                let j = choose|j: int| 0 <= j < t0s.len() && t0s[j] == k2;
                                assert(t1[j] == k2);
                            }
                        }
                    } else {
                        assert(kv.take(i + 1)[i as int] == k);
                    }
                }
            }
            i = i + 1;
        }
        proof {
            assert(kv.take(keys@.len() as int) =~= kv);
            assert(self.rooms() =~= live_rooms(t0, now, ttl));
        }
        if removed > 0 {
            self.dirty = true;
        }
        removed
    }

    /// What a save gives back on load: restoring the records that
    /// [`Registry::snapshot`] produced brings back every room of the registry,
    /// and only those, each as the load-time policy restores its own snapshot
    /// (see `lemma_snapshot_round_trip` for what that keeps).
    pub proof fn law_snapshot_restores_every_room(self, v: Seq<RoomSnapshot>, now: Instant)
        requires
            self.wf(),
            snapshots_of(self.rooms(), v),
        ensures
            restore_all(snapshot_views(v), now).dom() == self.rooms().dom(),
            forall|k: Seq<char>| #[trigger] self.rooms().contains_key(k)
                ==> restore_all(snapshot_views(v), now)[k] == restored(snapshot_of(self.rooms()[k]@), now),
    {
        lemma_snapshot_restores_every_room(self.rooms(), v, now);
    }

    /// Rebuild a registry from a snapshot at `now`. The dirty flag starts clear.
    pub fn from_snapshot(snap: RegistrySnapshot, now: Instant) -> (r: Self)
        ensures
            r.wf(),
            !r.is_dirty(),
            room_views(r.rooms()) == restore_all(snapshot_views(snap.rooms@), now),
    {
        let ghost all = snapshot_views(snap.rooms@);
        let mut rest = snap.rooms;
        let total = rest.len();
        let mut back: Vec<RoomSnapshot> = Vec::new();
        while rest.len() > 0
            invariant
                all.len() == total,
                all.len() == rest@.len() + back@.len(),
                snapshot_views(rest@) == all.take(rest@.len() as int),
                forall|j: int| 0 <= j < back@.len() ==> #[trigger] back@[j]@ == all[all.len() - 1 - j],
            decreases rest@.len(),
        {
            let ghost old_rest = rest@;
            let s = rest.pop().unwrap();
            let ghost k = rest@.len() as int;
            assert(snapshot_views(old_rest)[k] == old_rest[k]@);
            assert(all.take(k + 1)[k] == all[k]);
            back.push(s);
            assert(snapshot_views(rest@) =~= all.take(k));
        }
        let mut rooms = table_new();
        let mut done: usize = 0;
        assert(all.take(0) =~= Seq::<RoomSnapshotView>::empty());
        assert(room_views(room_table(rooms)) =~= restore_all(all.take(0), now));
        while back.len() > 0
            invariant
                all.len() == total,
                all.len() == done + back@.len(),
                forall|j: int| 0 <= j < back@.len() ==> #[trigger] back@[j]@ == all[all.len() - 1 - j],
                room_table(rooms).dom().finite(),
                room_views(room_table(rooms)) == restore_all(all.take(done as int), now),
            decreases back@.len(),
        {
            let ghost prev = room_table(rooms);
            let s = back.pop().unwrap();
            assert(s@ == all[done as int]);
            let code = s.code.clone();
            let room = s.into_room(now);
            table_insert(&mut rooms, code, room);
            proof {
                let pre = all.take(done as int);
                let post = all.take(done + 1);
                assert(post.drop_last() =~= pre);
                assert(post.last() == all[done as int]);
                assert(room_views(room_table(rooms)) =~= restore_all(post, now));
            }
            done = done + 1;
        }
        assert(all.take(all.len() as int) =~= all);
        proof {
            lemma_restore_all_codes(all, now);
            assert forall|k: Seq<char>| #[trigger] room_table(rooms).contains_key(k)
                implies room_table(rooms)[k]@.code == k by {
                assert(room_views(room_table(rooms)).contains_key(k));
                assert(room_views(room_table(rooms))[k] == room_table(rooms)[k]@);
            }
        }
        Registry { rooms, dirty: false }
    }
}

} // verus!
