//! When each player last sent a nudge: a small map from player id to instant.

use vstd::prelude::*;

use crate::domain::ids::PlayerId;
use crate::time::Instant;

verus! {

/// The last nudge time of each sender, keyed by player id. No id occurs twice.
#[derive(Debug)]
pub struct NudgeTimes {
    entries: Vec<(PlayerId, Instant)>,
}

spec fn has_key_in(entries: Seq<(PlayerId, Instant)>, k: Seq<char>, i: int) -> bool {
    0 <= i < entries.len() && entries[i].0@ == k
}

spec fn keys_unique_in(entries: Seq<(PlayerId, Instant)>) -> bool {
    forall|i: int, j: int|
        0 <= i < entries.len() && 0 <= j < entries.len() && #[trigger] entries[i].0@
            == #[trigger] entries[j].0@ ==> i == j
}

spec fn view_of(entries: Seq<(PlayerId, Instant)>) -> Map<Seq<char>, Instant> {
    Map::new(
        |k: Seq<char>| exists|i: int| has_key_in(entries, k, i),
        |k: Seq<char>| entries[choose|i: int| has_key_in(entries, k, i)].1,
    )
}

proof fn lemma_lookup(e: Seq<(PlayerId, Instant)>, i: int)
    requires
        keys_unique_in(e),
        0 <= i < e.len(),
    ensures
        view_of(e).contains_key(e[i].0@),
        view_of(e)[e[i].0@] == e[i].1,
{
    let k = e[i].0@;
    assert(has_key_in(e, k, i));
    let c = choose|c: int| has_key_in(e, k, c);
    assert(e[c].0@ == e[i].0@);
}

proof fn lemma_set(e: Seq<(PlayerId, Instant)>, i: int, x: (PlayerId, Instant))
    requires
        keys_unique_in(e),
        0 <= i < e.len(),
        e[i].0@ == x.0@,
    ensures
        keys_unique_in(e.update(i, x)),
        view_of(e.update(i, x)) == view_of(e).insert(x.0@, x.1),
{
    let f = e.update(i, x);
    let k = x.0@;
    assert forall|a: int, b: int| 0 <= a < f.len() && 0 <= b < f.len() && #[trigger] f[a].0@ == #[trigger] f[b].0@ implies a == b by {
        if a != i && b != i {
            assert(e[a].0@ == e[b].0@);
        } else if a == i && b != i {
            assert(e[b].0@ == e[i].0@);
        } else if a != i {
            assert(e[a].0@ == e[i].0@);
        }
    }
    let o = view_of(e);
    let m = view_of(f);
    assert forall|key: Seq<char>| m.contains_key(key) == o.insert(k, x.1).contains_key(key) by {
        if key == k {
            assert(has_key_in(f, k, i));
        } else {
            if m.contains_key(key) {
                let j = choose|j: int| has_key_in(f, key, j);
                assert(has_key_in(e, key, j));
            }
            if o.contains_key(key) {
                let j = choose|j: int| has_key_in(e, key, j);
                assert(has_key_in(f, key, j));
            }
        }
    }
    assert forall|key: Seq<char>| #[trigger] m.contains_key(key) implies m[key] == o.insert(k, x.1)[key] by {
        let j = choose|j: int| has_key_in(f, key, j);
        if key == k {
            assert(f[j].0@ == f[i].0@);
        } else {
            assert(has_key_in(e, key, j));
            let c = choose|c: int| has_key_in(e, key, c);
            assert(e[c].0@ == e[j].0@);
        }
    }
    assert(m =~= o.insert(k, x.1));
}

proof fn lemma_push(e: Seq<(PlayerId, Instant)>, x: (PlayerId, Instant))
    requires
        keys_unique_in(e),
        !view_of(e).contains_key(x.0@),
    ensures
        keys_unique_in(e.push(x)),
        view_of(e.push(x)) == view_of(e).insert(x.0@, x.1),
{
    let f = e.push(x);
    let k = x.0@;
    let n = e.len() as int;
    assert forall|a: int, b: int| 0 <= a < f.len() && 0 <= b < f.len() && #[trigger] f[a].0@ == #[trigger] f[b].0@ implies a == b by {
        if a < n && b < n {
            assert(e[a].0@ == e[b].0@);
        } else if a < n {
            assert(has_key_in(e, k, a));
        } else if b < n {
            assert(has_key_in(e, k, b));
        }
    }
    let o = view_of(e);
    let m = view_of(f);
    assert forall|key: Seq<char>| m.contains_key(key) == o.insert(k, x.1).contains_key(key) by {
        if key == k {
            assert(has_key_in(f, k, n));
        } else {
            if m.contains_key(key) {
                let j = choose|j: int| has_key_in(f, key, j);
                assert(has_key_in(e, key, j));
            }
            if o.contains_key(key) {
                let j = choose|j: int| has_key_in(e, key, j);
                assert(has_key_in(f, key, j));
            }
        }
    }
    assert forall|key: Seq<char>| #[trigger] m.contains_key(key) implies m[key] == o.insert(k, x.1)[key] by {
        let j = choose|j: int| has_key_in(f, key, j);
        if key == k {
            if j < n {
                assert(has_key_in(e, k, j));
            }
        } else {
            assert(has_key_in(e, key, j));
            let c = choose|c: int| has_key_in(e, key, c);
            assert(e[c].0@ == e[j].0@);
        }
    }
    assert(m =~= o.insert(k, x.1));
}

proof fn lemma_remove(e: Seq<(PlayerId, Instant)>, i: int)
    requires
        keys_unique_in(e),
        0 <= i < e.len(),
    ensures
        keys_unique_in(e.remove(i)),
        view_of(e.remove(i)) == view_of(e).remove(e[i].0@),
{
    let f = e.remove(i);
    let k = e[i].0@;
    assert forall|a: int| 0 <= a < f.len() implies #[trigger] f[a] == e[if a < i { a } else { a + 1 }] by {}
    assert forall|a: int, b: int| 0 <= a < f.len() && 0 <= b < f.len() && #[trigger] f[a].0@ == #[trigger] f[b].0@ implies a == b by {
        let a2 = if a < i { a } else { a + 1 };
        let b2 = if b < i { b } else { b + 1 };
        assert(e[a2].0@ == e[b2].0@);
    }
    let o = view_of(e);
    let m = view_of(f);
    assert forall|key: Seq<char>| m.contains_key(key) == o.remove(k).contains_key(key) by {
        if m.contains_key(key) {
            let j = choose|j: int| has_key_in(f, key, j);
            let j2 = if j < i { j } else { j + 1 };
            assert(has_key_in(e, key, j2));
            if key == k {
                assert(e[j2].0@ == e[i].0@);
            }
        }
        if o.remove(k).contains_key(key) {
            let j = choose|j: int| has_key_in(e, key, j);
            assert(j != i);
            let j2 = if j < i { j } else { j - 1 };
            assert(f[j2] == e[j]);
            assert(has_key_in(f, key, j2));
        }
    }
    assert forall|key: Seq<char>| #[trigger] m.contains_key(key) implies m[key] == o.remove(k)[key] by {
        let j = choose|j: int| has_key_in(f, key, j);
        let j2 = if j < i { j } else { j + 1 };
        assert(has_key_in(e, key, j2));
        let c = choose|c: int| has_key_in(e, key, c);
        assert(e[c].0@ == e[j2].0@);
    }
    assert(m =~= o.remove(k));
}

fn find_in(entries: &Vec<(PlayerId, Instant)>, id: &PlayerId) -> (r: Option<usize>)
    ensures
        match r {
            Some(i) => has_key_in(entries@, id@, i as int),
            None => !view_of(entries@).contains_key(id@),
        },
{
    let mut i: usize = 0;
    while i < entries.len()
        invariant
            i <= entries@.len(),
            forall|j: int| 0 <= j < i ==> entries@[j].0@ != id@,
        decreases entries@.len() - i,
    {
        if entries[i].0 == *id {
            return Some(i);
        }
        i = i + 1;
    }
    None
}

impl NudgeTimes {
    /// No id is listed twice.
    #[verifier::type_invariant]
    closed spec fn keys_unique(self) -> bool {
        keys_unique_in(self.entries@)
    }

    /// The map from sender id to the instant of its last nudge.
    pub closed spec fn view(self) -> Map<Seq<char>, Instant> {
        view_of(self.entries@)
    }

    pub fn new() -> (m: Self)
        ensures
            m.view() == Map::<Seq<char>, Instant>::empty(),
    {
        let m = NudgeTimes { entries: Vec::new() };
        assert(m.view() =~= Map::<Seq<char>, Instant>::empty());
        m
    }

    /// Number of senders recorded.
    pub fn len(&self) -> (n: usize)
        ensures
            self.view().dom().finite(),
            n == self.view().len(),
    {
        proof {
            use_type_invariant(self);
            let e = self.entries@;
            let keys = e.map_values(|x: (PlayerId, Instant)| x.0@);
            assert(keys.no_duplicates()) by {
                assert forall|i: int, j: int| 0 <= i < keys.len() && 0 <= j < keys.len() && i != j implies keys[i] != keys[j] by {
                    assert(keys[i] == e[i].0@);
                    assert(keys[j] == e[j].0@);
                }
            }
            assert(self.view().dom() =~= keys.to_set()) by {
                assert forall|k: Seq<char>| self.view().dom().contains(k) implies keys.to_set().contains(k) by {
                    let i = choose|i: int| has_key_in(e, k, i);
                    assert(keys[i] == k);
                }
                assert forall|k: Seq<char>| keys.to_set().contains(k) implies self.view().dom().contains(k) by {
                    let i = choose|i: int| 0 <= i < keys.len() && keys[i] == k;
                    assert(has_key_in(e, k, i));
                }
            }
            keys.unique_seq_to_set();
        }
        self.entries.len()
    }

    pub fn is_empty(&self) -> (b: bool)
        ensures
            self.view().dom().finite(),
            b == (self.view().len() == 0),
    {
        self.len() == 0
    }

    /// When `id` last nudged, if ever.
    pub fn get(&self, id: &PlayerId) -> (r: Option<Instant>)
        ensures
            r == (if self.view().contains_key(id@) {
                Some(self.view()[id@])
            } else {
                None::<Instant>
            }),
    {
        proof {
            use_type_invariant(self);
        }
        match find_in(&self.entries, id) {
            Some(i) => {
                proof {
                    lemma_lookup(self.entries@, i as int);
                }
                Some(self.entries[i].1)
            },
            None => None,
        }
    }

    /// Record that `id` nudged at `t`.
    pub fn insert(&mut self, id: PlayerId, t: Instant)
        ensures
            final(self).view() == old(self).view().insert(id@, t),
    {
        proof {
            use_type_invariant(&*self);
        }
        let mut v: Vec<(PlayerId, Instant)> = Vec::new();
        std::mem::swap(&mut v, &mut self.entries);
        let ghost e = v@;
        match find_in(&v, &id) {
            Some(i) => {
                let ghost x = (id, t);
                v.set(i, (id, t));
                proof {
                    lemma_set(e, i as int, x);
                    assert(v@ == e.update(i as int, x));
                }
            },
            None => {
                let ghost x = (id, t);
                v.push((id, t));
                proof {
                    lemma_push(e, x);
                    assert(v@ == e.push(x));
                }
            },
        }
        self.entries = v;
    }

    /// Forget `id`'s last nudge.
    pub fn remove(&mut self, id: &PlayerId)
        ensures
            final(self).view() == old(self).view().remove(id@),
    {
        proof {
            use_type_invariant(&*self);
        }
        let mut v: Vec<(PlayerId, Instant)> = Vec::new();
        std::mem::swap(&mut v, &mut self.entries);
        let ghost e = v@;
        match find_in(&v, id) {
            Some(i) => {
                v.remove(i);
                proof {
                    lemma_remove(e, i as int);
                }
            },
            None => {
                assert(view_of(e).remove(id@) =~= view_of(e));
            },
        }
        self.entries = v;
    }
}

} // verus!
