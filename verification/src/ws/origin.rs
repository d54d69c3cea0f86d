//! WebSocket Origin allowlist.
//!
//! Configured as a comma-separated list. When the allowlist is empty, all
//! origins are permitted (dev-safe default).

use vstd::prelude::*;

use crate::domain::room::string_views;
use crate::gate::opt_str_ref;
use crate::text::{chars_of, lemma_trim_bounds_unique, string_from_chars, trim, trim_range};

verus! {

/// Name of the setting holding the comma-separated allowed Origin values.
pub const ALLOWED_ORIGINS_ENV: &'static str = "ALLOWED_ORIGINS";

/// The comma-separated fields of `s`, as `str::split(',')` yields them: one
/// more field than there are commas, each possibly empty.
pub open spec fn split_commas(s: Seq<char>) -> Seq<Seq<char>>
    decreases s.len(),
{
    if s.len() == 0 {
        seq![Seq::<char>::empty()]
    } else if s.last() == ',' {
        split_commas(s.drop_last()).push(Seq::<char>::empty())
    } else {
        let p = split_commas(s.drop_last());
        p.update(p.len() - 1, p.last().push(s.last()))
    }
}

/// Fields trimmed, with the ones that end up empty dropped.
pub open spec fn clean_fields(fields: Seq<Seq<char>>) -> Seq<Seq<char>>
    decreases fields.len(),
{
    if fields.len() == 0 {
        Seq::<Seq<char>>::empty()
    } else {
        let rest = clean_fields(fields.drop_last());
        let t = trim(fields.last());
        if t.len() > 0 {
            rest.push(t)
        } else {
            rest
        }
    }
}

/// The allowlist parsed from `raw`.
pub open spec fn parse_allowed_spec(raw: Seq<char>) -> Seq<Seq<char>> {
    clean_fields(split_commas(raw))
}

pub proof fn lemma_split_commas_nonempty(s: Seq<char>)
    ensures
        split_commas(s).len() >= 1,
    decreases s.len(),
{
    if s.len() > 0 {
        lemma_split_commas_nonempty(s.drop_last());
    }
}

proof fn lemma_clean_push(fields: Seq<Seq<char>>, x: Seq<char>)
    ensures
        clean_fields(fields.push(x)) == if trim(x).len() > 0 {
            clean_fields(fields).push(trim(x))
        } else {
            clean_fields(fields)
        },
{
    assert(fields.push(x).drop_last() =~= fields);
}

/// Parse a raw comma-separated origin list into trimmed, non-empty entries.
pub fn parse_allowed(raw: &str) -> (v: Vec<String>)
    ensures
        string_views(v@) == parse_allowed_spec(raw@),
{
    let chars = chars_of(raw);
    let n = chars.len();
    let mut out: Vec<String> = Vec::new();
    let mut start: usize = 0;
    let mut i: usize = 0;
    assert(chars@.take(0) =~= Seq::<char>::empty());
    assert(split_commas(chars@.take(0)).drop_last() =~= Seq::<Seq<char>>::empty());
    assert(chars@.subrange(0, 0) =~= Seq::<char>::empty());
    while i < n
        invariant
            n == chars@.len(),
            chars@ == raw@,
            start <= i <= n,
            split_commas(chars@.take(i as int)).len() >= 1,
            split_commas(chars@.take(i as int)).last() == chars@.subrange(start as int, i as int),
            string_views(out@) == clean_fields(split_commas(chars@.take(i as int)).drop_last()),
        decreases n - i,
    {
        let c = chars[i];
        let ghost pre = chars@.take(i as int);
        let ghost post = chars@.take(i + 1);
        assert(post.drop_last() =~= pre);
        assert(post.last() == c);
        proof {
            lemma_split_commas_nonempty(pre);
        }
        if c == ',' {
            let (a, b) = trim_range(&chars, start, i);
            proof {
                let piece = chars@.subrange(start as int, i as int);
                lemma_trim_bounds_unique(piece, a - start, b - start);
                assert(piece.subrange(a - start, b - start) =~= chars@.subrange(a as int, b as int));
                let sp = split_commas(pre);
                assert(split_commas(post) == sp.push(Seq::<char>::empty()));
                assert(split_commas(post).drop_last() =~= sp);
                assert(sp =~= sp.drop_last().push(piece));
                lemma_clean_push(sp.drop_last(), piece);
                assert(chars@.subrange(i + 1, i + 1) =~= Seq::<char>::empty());
            }
            if a < b {
                let t = string_from_chars(&chars, a, b);
                out.push(t);
                assert(string_views(out@) =~= clean_fields(split_commas(post).drop_last()));
            }
            start = i + 1;
        } else {
            proof {
                let sp = split_commas(pre);
                assert(split_commas(post) == sp.update(sp.len() - 1, sp.last().push(c)));
                assert(split_commas(post).drop_last() =~= sp.drop_last());
                assert(chars@.subrange(start as int, i + 1) =~= chars@.subrange(start as int, i as int).push(c));
            }
        }
        i = i + 1;
    }
    let (a, b) = trim_range(&chars, start, n);
    proof {
        assert(chars@.take(n as int) =~= chars@);
        let piece = chars@.subrange(start as int, n as int);
        lemma_trim_bounds_unique(piece, a - start, b - start);
        assert(piece.subrange(a - start, b - start) =~= chars@.subrange(a as int, b as int));
        let sp = split_commas(chars@);
        lemma_split_commas_nonempty(chars@);
        assert(sp =~= sp.drop_last().push(piece));
        lemma_clean_push(sp.drop_last(), piece);
    }
    if a < b {
        let t = string_from_chars(&chars, a, b);
        out.push(t);
    }
    proof {
        assert(string_views(out@) =~= parse_allowed_spec(raw@));
    }
    out
}

/// Whether a request whose `Origin` header is `origin` is acceptable: an empty
/// allowlist allows everything; otherwise the header must be present and match
/// one entry exactly (byte-for-byte, case-sensitive).
pub open spec fn origin_allowed_spec(origin: Option<Seq<char>>, allowed: Seq<Seq<char>>) -> bool {
    allowed.len() == 0 || (origin matches Some(o) && allowed.contains(o))
}

/// Decide whether a request's `Origin` header is acceptable.
pub fn origin_allowed(origin: Option<&str>, allowed: &[String]) -> (b: bool)
    ensures
        b == origin_allowed_spec(opt_str_ref(origin), string_views(allowed@)),
{
    if allowed.len() == 0 {
        return true;
    }
    let o = match origin {
        Some(o) => o.to_owned(),
        None => return false,
    };
    let mut i: usize = 0;
    while i < allowed.len()
        invariant
            i <= allowed@.len(),
            o@ == origin->0@,
            origin is Some,
            forall|j: int| 0 <= j < i ==> allowed@[j]@ != o@,
        decreases allowed@.len() - i,
    {
        if allowed[i] == o {
            assert(string_views(allowed@)[i as int] == o@);
            return true;
        }
        i = i + 1;
    }
    proof {
        if string_views(allowed@).contains(o@) {
            let j = choose|j: int| 0 <= j < string_views(allowed@).len() && string_views(allowed@)[j] == o@;
            assert(allowed@[j]@ == o@);
        }
    }
    false
}

} // verus!
