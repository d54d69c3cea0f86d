//! Per-client rate-limit keying for abuse-prone endpoints (room creation).
//!
//! The app runs behind a TLS-terminating reverse proxy, so the socket peer is
//! always the proxy; the key is the real client IP that the proxy (or the
//! platform) forwards.
//!
//! TRUST BOUNDARY: `X-Forwarded-For` is client-spoofable. Keying on it is only
//! sound where the proxy overwrites the header and the app is reachable only
//! through the proxy.

use vstd::prelude::*;

use crate::gate::{non_empty, opt_str, opt_str_ref};

verus! {

/// Room creations allowed per minute per client once the burst is spent.
pub const ROOM_CREATE_PER_MINUTE: u64 = 20;

/// Burst of room creations a client may make back-to-back before throttling.
pub const ROOM_CREATE_BURST: u32 = 10;

/// Key shared by every request whose client cannot be determined.
pub open spec fn unknown_key() -> Seq<char> {
    seq!['u', 'n', 'k', 'n', 'o', 'w', 'n']
}

/// Keys requests on the real client IP behind a reverse proxy, falling back to
/// one shared `"unknown"` bucket when no address can be determined.
#[derive(Debug, Clone)]
pub struct RealIpKeyExtractor {
    /// Name of a header the platform guarantees is unforgeable, e.g.
    /// `Fly-Client-IP`. `None` means use the proxy-forwarded address.
    trusted_header: Option<String>,
}

/// Which key a request gets: with a trusted header configured, that header's
/// value is the ONLY source (absent means "unknown", never the spoofable
/// forwarded address); without one, the forwarded client address, or "unknown".
pub open spec fn key_spec(
    trusted_configured: bool,
    trusted_value: Option<Seq<char>>,
    forwarded: Option<Seq<char>>,
) -> Seq<char> {
    if trusted_configured {
        match trusted_value {
            Some(v) => v,
            None => unknown_key(),
        }
    } else {
        match forwarded {
            Some(v) => v,
            None => unknown_key(),
        }
    }
}

impl RealIpKeyExtractor {
    /// The configured trusted header name, if any.
    pub closed spec fn header_view(self) -> Option<Seq<char>> {
        opt_str(self.trusted_header)
    }

    /// Build an extractor. Pass `Some(name)` ONLY where the platform sets that
    /// header from the real connection and strips any client-supplied value.
    pub fn new(trusted_header: Option<String>) -> (e: Self)
        ensures
            e.header_view() == opt_str(trusted_header),
    {
        RealIpKeyExtractor { trusted_header }
    }

    /// Build an extractor from the raw configured header name, treating unset
    /// or empty as "not configured".
    pub fn from_env(raw: Option<String>) -> (e: Self)
        ensures
            e.header_view() == non_empty(opt_str(raw)),
    {
        match raw {
            Some(h) => if h.as_str().is_empty() {
                RealIpKeyExtractor { trusted_header: None }
            } else {
                RealIpKeyExtractor { trusted_header: Some(h) }
            },
            None => RealIpKeyExtractor { trusted_header: None },
        }
    }

    /// The header the key must come from, if one is configured.
    pub fn trusted_header(&self) -> (r: Option<&str>)
        ensures
            opt_str_ref(r) == self.header_view(),
    {
        match &self.trusted_header {
            Some(h) => Some(h.as_str()),
            None => None,
        }
    }

    /// The rate-limit key for a request, given the value of the trusted header
    /// (when one is configured and present) and the proxy-forwarded client
    /// address (when one could be determined).
    pub fn key_for(&self, trusted_value: Option<&str>, forwarded: Option<&str>) -> (k: String)
        ensures
            k@ == key_spec(self.header_view() is Some, opt_str_ref(trusted_value), opt_str_ref(forwarded)),
    {
        let chosen = if self.trusted_header.is_some() {
            trusted_value
        } else {
            forwarded
        };
        match chosen {
            Some(v) => v.to_owned(),
            None => {
                let u = "unknown";
                proof {
                    reveal_strlit("unknown");
                }
                assert(u@ =~= unknown_key());
                u.to_owned()
            },
        }
    }
}

} // verus!
