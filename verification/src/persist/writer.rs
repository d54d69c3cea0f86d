//! The periodic snapshot's decision: write only when the registry changed.

use vstd::prelude::*;

use crate::persist::snapshot::RegistrySnapshot;
use crate::registry::{Registry, snapshots_of};

verus! {

/// The snapshot to write this round: one iff the registry changed since the
/// last one (the change flag is cleared either way), capturing every room.
/// The caller writes it; a failed write is logged and retried next round only
/// if the registry changes again.
pub fn snapshot_once(registry: &mut Registry) -> (s: Option<RegistrySnapshot>)
    ensures
        final(registry).wf() == old(registry).wf(),
        final(registry).rooms() == old(registry).rooms(),
        !final(registry).is_dirty(),
        s is Some <==> old(registry).is_dirty(),
        s matches Some(snap) ==> snapshots_of(old(registry).rooms(), snap.rooms@),
{
    if !registry.take_dirty() {
        return None;
    }
    Some(registry.snapshot())
}

} // verus!
