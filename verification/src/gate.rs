//! Optional shared-secret gate on room creation, used during a closed beta.
//!
//! Unset means creation is open, so local development needs no configuration.
//! When set, room creation requires a matching token. Joining a room is
//! deliberately NOT gated.
//!
//! TRUST BOUNDARY: this is a shared secret distributed to a handful of hosts,
//! not an authentication system; it is guarded by the per-IP rate limiter on
//! the same endpoint, which runs first.

use vstd::prelude::*;

verus! {

pub open spec fn opt_str(o: Option<String>) -> Option<Seq<char>> {
    match o {
        Some(s) => Some(s@),
        None => None,
    }
}

pub open spec fn opt_str_ref(o: Option<&str>) -> Option<Seq<char>> {
    match o {
        Some(s) => Some(s@),
        None => None,
    }
}

/// A configured value, with an empty one treated as unset.
pub open spec fn non_empty(o: Option<Seq<char>>) -> Option<Seq<char>> {
    match o {
        Some(s) => if s.len() == 0 { None } else { Some(s) },
        None => None,
    }
}

/// The resolved creation gate. `None` means creation is open.
#[derive(Debug, Clone)]
pub struct CreateToken(Option<String>);

impl CreateToken {
    /// The token a request must present, or `None` when creation is open.
    pub closed spec fn view(self) -> Option<Seq<char>> {
        opt_str(self.0)
    }

    /// Wrap an already-resolved token.
    pub fn new(token: Option<String>) -> (t: Self)
        ensures
            t.view() == opt_str(token),
    {
        CreateToken(token)
    }

    /// Resolve the creation token from the raw configured value, treating unset or empty
    /// as "creation is open".
    pub fn from_env(raw: Option<String>) -> (t: Self)
        ensures
            t.view() == non_empty(opt_str(raw)),
    {
        match raw {
            Some(s) => if s.as_str().is_empty() {
                CreateToken(None)
            } else {
                CreateToken(Some(s))
            },
            None => CreateToken(None),
        }
    }

    /// The token a request must present, or `None` when creation is open.
    pub fn expected(&self) -> (r: Option<&str>)
        ensures
            opt_str_ref(r) == self.view(),
    {
        match &self.0 {
            Some(s) => Some(s.as_str()),
            None => None,
        }
    }
}

impl Default for CreateToken {
    fn default() -> (t: Self)
        ensures
            t.view() == None::<Seq<char>>,
    {
        CreateToken(None)
    }
}

/// Whether a room-creation request presenting `provided` may proceed when the
/// gate expects `expected`: an absent or empty expectation lets everything in;
/// otherwise the presented token must match exactly.
pub open spec fn gate_allows(provided: Option<Seq<char>>, expected: Option<Seq<char>>) -> bool {
    match expected {
        None => true,
        Some(want) => want.len() == 0 || provided == Some(want),
    }
}

/// Whether a room-creation request may proceed. `expected` of `None` or
/// `Some("")` means creation is open and everything is allowed.
pub fn create_allowed(provided: Option<&str>, expected: Option<&str>) -> (b: bool)
    ensures
        b == gate_allows(opt_str_ref(provided), opt_str_ref(expected)),
{
    match expected {
        None => true,
        Some(want) => {
            if want.is_empty() {
                true
            } else {
                match provided {
                    Some(p) => p.to_owned() == want.to_owned(),
                    None => false,
                }
            }
        },
    }
}

} // verus!
