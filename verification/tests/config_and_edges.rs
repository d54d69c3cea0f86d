use turn_tracker::error::AppError;
use turn_tracker::gate::{CreateToken, create_allowed};
use turn_tracker::ratelimit::RealIpKeyExtractor;
use turn_tracker::time::{Duration, Instant};
use turn_tracker::ws::heartbeat::{Heartbeat, client_timeout, heartbeat_interval};
use turn_tracker::ws::origin::{origin_allowed, parse_allowed};

// --- creation gate ---

#[test]
fn gate_is_open_when_no_token_is_configured() {
    assert!(create_allowed(None, None));
    assert!(
        create_allowed(Some("anything"), None),
        "a stray header must not break an ungated server"
    );
}

#[test]
fn matching_token_is_allowed() {
    assert!(create_allowed(Some("s3cret"), Some("s3cret")));
}

#[test]
fn missing_token_is_rejected_when_gated() {
    assert!(!create_allowed(None, Some("s3cret")));
}

#[test]
fn wrong_token_is_rejected() {
    assert!(!create_allowed(Some("nope"), Some("s3cret")));
}

#[test]
fn create_token_wraps_and_exposes_the_expected_value() {
    assert_eq!(CreateToken::new(None).expected(), None);
    assert_eq!(
        CreateToken::new(Some("s3cret".into())).expected(),
        Some("s3cret")
    );
    assert_eq!(
        CreateToken::default().expected(),
        None,
        "the default gate is off"
    );
}

#[test]
fn empty_configured_token_means_the_gate_is_off() {
    assert!(create_allowed(None, Some("")));
}

#[test]
fn an_empty_or_unset_setting_turns_the_gate_off() {
    assert_eq!(CreateToken::from_env(None).expected(), None);
    assert_eq!(CreateToken::from_env(Some(String::new())).expected(), None);
    assert_eq!(
        CreateToken::from_env(Some("s3cret".into())).expected(),
        Some("s3cret")
    );
    // A token must match exactly, not as a prefix.
    assert!(!create_allowed(Some("s3cre"), Some("s3cret")));
    assert!(!create_allowed(Some("s3cretx"), Some("s3cret")));
}

// --- heartbeat ---

fn start() -> Instant {
    Instant::from_millis(5_000)
}

#[test]
fn fresh_connection_is_not_stale() {
    let now = start();
    let hb = Heartbeat::new(Duration::from_millis(50), now);
    assert!(!hb.is_stale(now));
}

#[test]
fn connection_is_stale_once_the_timeout_elapses() {
    let now = start();
    let hb = Heartbeat::new(Duration::from_millis(50), now);
    assert!(
        hb.is_stale(now.plus(Duration::from_millis(51))),
        "must be stale strictly after the timeout"
    );
}

#[test]
fn connection_is_not_stale_exactly_at_the_timeout() {
    let now = start();
    let hb = Heartbeat::new(Duration::from_millis(50), now);
    assert!(!hb.is_stale(now.plus(Duration::from_millis(50))));
}

#[test]
fn recording_a_pong_resets_staleness() {
    let now = start();
    let mut hb = Heartbeat::new(Duration::from_millis(50), now);
    let later = now.plus(Duration::from_millis(40));
    hb.record_pong(later);
    assert!(!hb.is_stale(later.plus(Duration::from_millis(40))));
    assert!(hb.is_stale(later.plus(Duration::from_millis(51))));
}

#[test]
fn timeout_is_a_multiple_of_the_interval_so_a_single_lost_pong_is_tolerated() {
    assert!(
        client_timeout() >= heartbeat_interval().times(2),
        "one dropped pong must not close a healthy connection"
    );
}

#[test]
fn heartbeat_settings_are_thirty_and_ninety_seconds() {
    assert_eq!(heartbeat_interval().as_millis(), 30_000);
    assert_eq!(client_timeout().as_millis(), 90_000);
}

#[test]
fn a_clock_that_reads_earlier_than_the_last_pong_is_not_stale() {
    let now = start();
    let hb = Heartbeat::new(Duration::from_millis(50), now);
    assert!(!hb.is_stale(Instant::from_millis(0)));
}

// --- origin allow-list ---

#[test]
fn empty_allowlist_permits_everything() {
    assert!(origin_allowed(None, &[]));
    assert!(origin_allowed(Some("https://anything.example"), &[]));
}

#[test]
fn missing_origin_rejected_when_allowlist_set() {
    let allowed = vec!["https://app.example".to_owned()];
    assert!(!origin_allowed(None, &allowed));
}

#[test]
fn exact_match_allowed() {
    let allowed = vec![
        "https://app.example".to_owned(),
        "http://localhost:5173".to_owned(),
    ];
    assert!(origin_allowed(Some("https://app.example"), &allowed));
    assert!(origin_allowed(Some("http://localhost:5173"), &allowed));
}

#[test]
fn non_match_rejected_when_allowlist_set() {
    let allowed = vec!["https://app.example".to_owned()];
    assert!(!origin_allowed(Some("https://evil.example"), &allowed));
    // Substring / prefix must NOT match.
    assert!(!origin_allowed(
        Some("https://app.example.evil.com"),
        &allowed
    ));
    assert!(!origin_allowed(Some("https://app.exampl"), &allowed));
}

#[test]
fn match_is_case_sensitive_and_exact() {
    let allowed = vec!["https://App.Example".to_owned()];
    assert!(!origin_allowed(Some("https://app.example"), &allowed));
    assert!(origin_allowed(Some("https://App.Example"), &allowed));
}

#[test]
fn parse_allowed_trims_and_drops_empties() {
    let parsed = parse_allowed(" https://a.example , ,http://b.example, ");
    assert_eq!(parsed, vec!["https://a.example", "http://b.example"]);
}

#[test]
fn parse_allowed_blank_yields_empty() {
    assert!(parse_allowed("").is_empty());
    assert!(parse_allowed("   ").is_empty());
    assert!(parse_allowed(",,").is_empty());
}

#[test]
fn parse_allowed_keeps_a_single_entry_and_inner_spaces() {
    assert_eq!(parse_allowed("https://a.example"), vec!["https://a.example"]);
    assert_eq!(parse_allowed("\ta b\n"), vec!["a b"]);
}

// --- errors ---

#[test]
fn every_error_has_its_status_and_message() {
    let cases = [
        (AppError::InvalidRequest, 400, "Invalid request"),
        (AppError::NameTooLong, 400, "Name is too long"),
        (AppError::CreateForbidden, 403, "Room creation is not allowed"),
        (AppError::RoomNotFound, 404, "Room not found"),
        (AppError::CodeExhausted, 503, "Could not allocate a unique room code"),
        (AppError::RoomCapacityReached, 503, "Server is at room capacity"),
    ];
    for (e, status, message) in cases {
        assert_eq!(e.status_code(), status);
        assert_eq!(e.message(), message);
    }
}

// --- rate-limit keys ---

/// The value of header `name` among `headers`, matched case-insensitively.
fn header<'a>(headers: &[(&str, &'a str)], name: &str) -> Option<&'a str> {
    headers
        .iter()
        .find(|(n, _)| n.eq_ignore_ascii_case(name))
        .map(|(_, v)| *v)
}

/// The client address a reverse proxy forwarded: the leftmost XFF entry.
fn forwarded<'a>(headers: &[(&str, &'a str)]) -> Option<&'a str> {
    header(headers, "x-forwarded-for").and_then(|v| v.split(',').next()).map(str::trim)
}

fn key(extractor: &RealIpKeyExtractor, headers: &[(&str, &str)]) -> String {
    let trusted = extractor.trusted_header().and_then(|name| header(headers, name));
    extractor.key_for(trusted, forwarded(headers))
}

#[test]
fn trusted_header_is_preferred_when_configured() {
    let headers = [("fly-client-ip", "203.0.113.7"), ("x-forwarded-for", "198.51.100.1")];
    let k = key(&RealIpKeyExtractor::new(Some("fly-client-ip".into())), &headers);
    assert_eq!(
        k, "203.0.113.7",
        "the configured trusted header must win over XFF"
    );
}

#[test]
fn a_spoofed_xff_cannot_override_the_trusted_header() {
    let headers = [("fly-client-ip", "203.0.113.7"), ("x-forwarded-for", "1.2.3.4, 5.6.7.8")];
    let k = key(&RealIpKeyExtractor::new(Some("fly-client-ip".into())), &headers);
    assert_eq!(k, "203.0.113.7");
}

#[test]
fn a_configured_header_that_is_absent_falls_back_to_the_shared_bucket() {
    let headers = [("x-forwarded-for", "1.2.3.4")];
    let k = key(&RealIpKeyExtractor::new(Some("fly-client-ip".into())), &headers);
    assert_eq!(
        k, "unknown",
        "a missing trusted header must NOT silently fall back to spoofable XFF"
    );
}

#[test]
fn unconfigured_extractor_keeps_the_reverse_proxy_xff_behaviour() {
    let headers = [("x-forwarded-for", "203.0.113.7, 70.41.3.18")];
    let k = key(&RealIpKeyExtractor::new(None), &headers);
    assert_eq!(k, "203.0.113.7");
}

#[test]
fn unconfigured_extractor_ignores_a_client_supplied_platform_header() {
    let headers = [("fly-client-ip", "6.6.6.6"), ("x-forwarded-for", "203.0.113.7")];
    let k = key(&RealIpKeyExtractor::new(None), &headers);
    assert_eq!(
        k, "203.0.113.7",
        "an unconfigured platform header must never be trusted"
    );
}

#[test]
fn extractor_prefers_forwarded_client_ip_over_peer() {
    let headers = [("x-forwarded-for", "203.0.113.7, 70.41.3.18")];
    let k = key(&RealIpKeyExtractor::new(None), &headers);
    assert_eq!(
        k, "203.0.113.7",
        "must key on the leftmost (client) XFF entry"
    );
}

#[test]
fn extractor_falls_back_to_shared_key_when_unattributable() {
    let k = key(&RealIpKeyExtractor::new(None), &[]);
    assert_eq!(k, "unknown");
}

#[test]
fn an_empty_header_setting_means_no_trusted_header() {
    assert_eq!(RealIpKeyExtractor::from_env(Some(String::new())).trusted_header(), None);
    assert_eq!(RealIpKeyExtractor::from_env(None).trusted_header(), None);
    assert_eq!(
        RealIpKeyExtractor::from_env(Some("fly-client-ip".into())).trusted_header(),
        Some("fly-client-ip")
    );
}
