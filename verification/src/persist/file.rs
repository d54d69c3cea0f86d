//! Where the file-backed snapshot lives: the snapshot file itself, the
//! temporary file a save writes before renaming it over the target, and the
//! backup a corrupt snapshot is moved to.

use vstd::prelude::*;
use crate::domain::ids::push_char;
use crate::persist::snapshot::RegistrySnapshot;
use crate::text::chars_of;

verus! {

/// `path` with `suffix` appended to its file name
/// (e.g. `rooms.json` -> `rooms.json.tmp`).
pub fn with_suffix(path: &str, suffix: &str) -> (r: String)
    ensures
        r@ == path@ + suffix@,
{
    let mut r = path.to_owned();
    let chars = chars_of(suffix);
    let mut i: usize = 0;
    while i < chars.len()
        invariant
            0 <= i <= chars@.len(),
            chars@ == suffix@,
            r@ == path@ + chars@.take(i as int),
        decreases chars@.len() - i,
    {
        push_char(&mut r, chars[i]);
        assert(chars@.take(i + 1) =~= chars@.take(i as int).push(chars@[i as int]));
        i = i + 1;
    }
    assert(chars@.take(chars@.len() as int) =~= chars@);
    r
}

/// Snapshot persisted as a single JSON file. Saves go to a temporary file that
/// is synced and then renamed over the target, so a reader never sees a torn
/// file.
#[derive(Debug, Clone)]
pub struct FileStore {
    path: String,
}

impl FileStore {
    /// The snapshot file.
    pub closed spec fn path_view(self) -> Seq<char> {
        self.path@
    }

    /// Create a store backed by the file at `path`.
    pub fn new(path: String) -> (s: Self)
        ensures
            s.path_view() == path@,
    {
        FileStore { path }
    }

    /// The snapshot file.
    pub fn path(&self) -> (r: &str)
        ensures
            r@ == self.path_view(),
    {
        self.path.as_str()
    }

    /// The temporary file a save writes before renaming it over the snapshot.
    pub fn tmp_path(&self) -> (r: String)
        ensures
            r@ == self.path_view() + ".tmp"@,
    {
        with_suffix(self.path.as_str(), ".tmp")
    }

    /// Where an unparseable snapshot is moved before starting fresh.
    pub fn corrupt_path(&self) -> (r: String)
        ensures
            r@ == self.path_view() + ".corrupt"@,
    {
        with_suffix(self.path.as_str(), ".corrupt")
    }
}

/// How reading the snapshot file went.
#[derive(Debug, Clone, Copy, PartialEq, Eq, Structural)]
pub enum ReadOutcome {
    /// There is no snapshot file yet.
    Missing,
    /// The file exists but could not be read.
    Failed,
    /// The file's bytes were read.
    Read,
}

/// What loading does with the outcome of the read and of the parse.
#[derive(Debug)]
pub enum LoadDecision {
    /// Start with no rooms.
    StartEmpty,
    /// Report the read failure.
    Fail,
    /// Restore this snapshot.
    Restore(RegistrySnapshot),
    /// Move the unparseable file aside, then start with no rooms: a bad
    /// snapshot never keeps the server from booting.
    BackUpAndStartEmpty,
}

/// Decide how a load ends, given how the read went and, when the bytes were
/// read, whether they parsed (`parsed`; ignored otherwise). Only an unreadable
/// file is an error; a missing one means a first start.
pub fn load_decision(read: ReadOutcome, parsed: Option<RegistrySnapshot>) -> (d: LoadDecision)
    ensures
        read == ReadOutcome::Missing ==> d is StartEmpty,
        read == ReadOutcome::Failed ==> d is Fail,
        read == ReadOutcome::Read ==> match parsed {
            Some(snap) => d matches LoadDecision::Restore(s) && s == snap,
            None => d is BackUpAndStartEmpty,
        },
{
    match read {
        ReadOutcome::Missing => LoadDecision::StartEmpty,
        ReadOutcome::Failed => LoadDecision::Fail,
        ReadOutcome::Read => match parsed {
            Some(snap) => LoadDecision::Restore(snap),
            None => LoadDecision::BackUpAndStartEmpty,
        },
    }
}

} // verus!
