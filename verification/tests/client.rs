//! Requests to the API, and what its answers mean.
use pkgradar::client::{
    gate_verdict, scan_verdict, AuthRejected, CallError, Client, TokenError, Verdict,
    DEFAULT_BASE_URL,
};
use pkgradar::json::pretty_json;

#[test]
fn token_with_trailing_newline_is_trimmed() {
    // The exact bug: a token pasted into a CI secret with a trailing
    // newline must be cleaned, not break header construction.
    let c = Client::new("https://x".into(), "  pkr_abc123\n".into(), 1000).unwrap();
    assert_eq!(c.token_for_test(), "pkr_abc123");
}

#[test]
fn whitespace_only_token_is_rejected() {
    assert!(Client::new("https://x".into(), "\n   \t".into(), 1000).is_err());
}

#[test]
fn structurally_invalid_token_is_rejected_not_failed_open() {
    // Internal space and non-ASCII can't go in a header — must error at
    // construction (hard fail), never reach the fail-open path.
    assert!(Client::new("https://x".into(), "pkr_ab cd".into(), 1000).is_err());
    assert!(Client::new("https://x".into(), "pkr_\u{00e9}".into(), 1000).is_err());
}

#[test]
fn each_token_error_comes_where_it_should() {
    let missing = Client::new("https://x".into(), " ".into(), 1).err().unwrap();
    assert_eq!(missing, TokenError::Missing);
    assert!(missing.message().starts_with("no API token. Set PKGRADAR_TOKEN or pass --token."));
    let malformed = Client::new("https://x".into(), "a\u{7f}".into(), 1).err().unwrap();
    assert_eq!(malformed, TokenError::Malformed);
    assert!(malformed.message().starts_with("API token contains characters that aren't valid"));
    assert_eq!(missing.exit_code(), 2);
    assert_eq!(malformed.exit_code(), 2);
    let kept = Client::new("https://x".into(), "!~".into(), 1).ok().unwrap();
    assert_eq!(kept.token_for_test(), "!~");
}

fn client() -> Client {
    Client::new("https://host/api//".into(), "tok".into(), 1234).unwrap()
}

#[test]
fn gate_request_has_address_header_and_body() {
    let specs = vec!["lodash@4.17.21".to_string(), "a\"b@1".to_string()];
    let r = client().gate("npm", &specs, "high", None);
    assert_eq!(r.url, "https://host/api/gate/npm");
    assert_eq!(r.authorization, "Bearer tok");
    assert_eq!(r.timeout_ms, 1234);
    assert_eq!(
        pretty_json(&r.body).unwrap(),
        "{\n  \"ecosystem\": \"npm\",\n  \"fail_on\": \"high\",\n  \"specs\": [\n    \"lodash@4.17.21\",\n    \"a\\\"b@1\"\n  ]\n}"
    );
}

#[test]
fn severity_is_sent_only_where_it_is_set() {
    let r = client().gate("pypi", &[], "low", Some("critical"));
    assert_eq!(
        pretty_json(&r.body).unwrap(),
        "{\n  \"ecosystem\": \"pypi\",\n  \"fail_on\": \"low\",\n  \"fail_on_cve\": \"critical\",\n  \"specs\": []\n}"
    );
    let without = client().gate("pypi", &[], "low", None);
    assert!(without.body.get("fail_on_cve").is_none());
}

#[test]
fn scan_request_has_the_specs_only() {
    let r = client().scan("cargo", &["serde@1.0.0".to_string()]);
    assert_eq!(r.url, "https://host/api/scan/cargo");
    assert_eq!(r.authorization, "Bearer tok");
    assert_eq!(r.timeout_ms, 1234);
    assert_eq!(pretty_json(&r.body).unwrap(), "{\n  \"specs\": [\n    \"serde@1.0.0\"\n  ]\n}");
}

#[test]
fn default_address() {
    assert_eq!(DEFAULT_BASE_URL, "https://pkgradar.com");
}

#[test]
fn verdicts_by_status() {
    for status in [200, 204, 299] {
        assert_eq!(gate_verdict(status), Verdict::Read);
        assert_eq!(scan_verdict(status), Verdict::Read);
    }
    assert_eq!(gate_verdict(422), Verdict::Read);
    assert_eq!(scan_verdict(422), Verdict::Unexpected);
    for status in [199, 300, 400, 403, 413, 500, 503] {
        assert_eq!(gate_verdict(status), Verdict::Unexpected);
        assert_eq!(scan_verdict(status), Verdict::Unexpected);
    }
    assert_eq!(gate_verdict(401), Verdict::Rejected);
    assert_eq!(scan_verdict(401), Verdict::Rejected);
}

#[test]
fn only_a_rejected_token_cannot_be_skipped() {
    let auth = CallError::Auth(AuthRejected);
    let transport = CallError::Transport("timed out".to_string());
    let server = CallError::Status(503, "503 Service Unavailable".to_string(), "later".to_string());
    let large = CallError::Status(413, "413 Payload Too Large".to_string(), "".to_string());
    let malformed = CallError::Malformed("expected value".to_string());
    assert!(!auth.skippable());
    assert!(transport.skippable() && server.skippable() && large.skippable() && malformed.skippable());
    assert_eq!(auth.exit_code(), 2);
    for e in [&transport, &server, &large, &malformed] {
        assert_eq!(e.exit_code(), 3);
    }
    assert_eq!(auth.message(), "authentication failed (401): the server rejected this API token");
    assert_eq!(transport.message(), "timed out");
    assert_eq!(server.message(), "unexpected response 503 Service Unavailable: later");
    assert_eq!(malformed.message(), "expected value");
}
