use alt_ime_rs::update::{
    body_outcome, parse_and_compare, parse_tag_name, read_request_len, response_accepted, take_chunk,
    CheckGuard, CheckResult, Outcome, Trigger, MAX_BODY_BYTES,
};

const BODY: &str = r#"{"url":"https://api.github.com/x","tag_name":"v2026.07.04","name":"release"}"#;

#[test]
fn tag_name_from_release_json() {
    assert_eq!(parse_tag_name(BODY), Some("v2026.07.04".to_string()));
}

#[test]
fn tag_name_with_white_space() {
    assert_eq!(parse_tag_name("{\"tag_name\" \n:\t \u{3000}\"v1\"}"), Some("v1".to_string()));
    assert_eq!(parse_tag_name("\"tag_name\":\"\""), Some(String::new()));
    assert_eq!(parse_tag_name("\"tag_name\":\"日本\""), Some("日本".to_string()));
}

#[test]
fn tag_name_first_occurrence_wins() {
    assert_eq!(parse_tag_name("\"tag_name\":\"a\",\"tag_name\":\"b\""), Some("a".to_string()));
}

#[test]
fn tag_name_missing_parts() {
    assert_eq!(parse_tag_name("{}"), None);
    assert_eq!(parse_tag_name("\"tag_name\""), None);
    assert_eq!(parse_tag_name("\"tag_name\" \"v1\""), None);
    assert_eq!(parse_tag_name("\"tag_name\": v1"), None);
    assert_eq!(parse_tag_name("\"tag_name\":\"v1"), None);
    assert_eq!(parse_tag_name("tag_name:\"v1\""), None);
}

#[test]
fn compare_newer_same_older() {
    assert_eq!(parse_and_compare(BODY, "2026.07.03"), Outcome::UpdateAvailable("v2026.07.04".to_string()));
    assert_eq!(parse_and_compare(BODY, "2026.07.04"), Outcome::UpToDate("v2026.07.04".to_string()));
    assert_eq!(parse_and_compare(BODY, "2026.08.01"), Outcome::UpToDate("v2026.07.04".to_string()));
    assert_eq!(parse_and_compare(BODY, "0.1.0"), Outcome::UpdateAvailable("v2026.07.04".to_string()));
}

#[test]
fn compare_same_day_rerelease() {
    let body = "{\"tag_name\":\"v2026.07.04.1\"}";
    assert_eq!(parse_and_compare(body, "2026.07.04"), Outcome::UpdateAvailable("v2026.07.04.1".to_string()));
}

#[test]
fn compare_rerelease_counters_as_numbers() {
    let body = r#"{"tag_name":"v2026.07.04.10"}"#;
    assert_eq!(parse_and_compare(body, "2026.07.04.9"), Outcome::UpdateAvailable("v2026.07.04.10".to_string()));
    assert_eq!(parse_and_compare(body, "2026.07.04.10"), Outcome::UpToDate("v2026.07.04.10".to_string()));
    assert_eq!(parse_and_compare(body, "2026.07.04.011"), Outcome::UpToDate("v2026.07.04.10".to_string()));
    assert_eq!(parse_and_compare(body, "2026.07.05"), Outcome::UpToDate("v2026.07.04.10".to_string()));
    let plain = r#"{"tag_name":"v2026.07.04"}"#;
    assert_eq!(parse_and_compare(plain, "2026.07.04.2"), Outcome::UpToDate("v2026.07.04".to_string()));
    let zero = r#"{"tag_name":"v2026.07.04.0"}"#;
    assert_eq!(parse_and_compare(zero, "2026.07.04"), Outcome::UpdateAvailable("v2026.07.04.0".to_string()));
}

#[test]
fn compare_other_versions_by_string_order() {
    let body = r#"{"tag_name":"v0.10.0"}"#;
    assert_eq!(parse_and_compare(body, "0.9.0"), Outcome::UpToDate("v0.10.0".to_string()));
    assert_eq!(parse_and_compare(body, "0.1.0"), Outcome::UpdateAvailable("v0.10.0".to_string()));
    let odd = r#"{"tag_name":"v2026.07.04.x"}"#;
    assert_eq!(parse_and_compare(odd, "2026.07.04.9"), Outcome::UpdateAvailable("v2026.07.04.x".to_string()));
}

#[test]
fn compare_tag_without_v() {
    let body = "{\"tag_name\":\"2026.07.04\"}";
    assert_eq!(parse_and_compare(body, "2026.07.04"), Outcome::UpToDate("2026.07.04".to_string()));
}

#[test]
fn compare_without_tag_fails() {
    assert_eq!(parse_and_compare("{\"message\":\"rate limit\"}", "0.1.0"), Outcome::Failed);
}

#[test]
fn body_bytes_must_be_utf8() {
    assert_eq!(body_outcome(vec![0xFF, 0xFE], "0.1.0"), Outcome::Failed);
    assert_eq!(body_outcome(BODY.as_bytes().to_vec(), "0.1.0"), Outcome::UpdateAvailable("v2026.07.04".to_string()));
}

#[test]
fn status_must_be_200() {
    assert!(response_accepted(true, 200));
    assert!(!response_accepted(true, 403));
    assert!(!response_accepted(true, 429));
    assert!(!response_accepted(false, 200));
}

#[test]
fn read_requests_fit_buffer() {
    assert_eq!(read_request_len(10), 10);
    assert_eq!(read_request_len(8192), 8192);
    assert_eq!(read_request_len(100_000), 8192);
}

#[test]
fn chunks_accumulate_until_limit() {
    let mut body = Vec::new();
    let buf = [1u8, 2, 3, 4];
    assert!(take_chunk(&mut body, &buf, 2));
    assert_eq!(body, vec![1, 2]);
    assert!(take_chunk(&mut body, &buf, 9));
    assert_eq!(body, vec![1, 2, 1, 2, 3, 4]);
    assert!(!take_chunk(&mut body, &buf, 0));
    assert_eq!(body.len(), 6);
    let mut big = vec![0u8; MAX_BODY_BYTES - 1];
    assert!(!take_chunk(&mut big, &buf, 1));
    assert_eq!(big.len(), MAX_BODY_BYTES);
}

#[test]
fn guard_allows_one_check_at_a_time() {
    let mut g = CheckGuard::new();
    assert!(g.try_begin());
    assert!(!g.try_begin());
    g.finish();
    assert!(g.try_begin());
}

#[test]
fn check_result_carries_trigger() {
    let r = CheckResult { trigger: Trigger::Startup, outcome: Outcome::Failed };
    assert_eq!(r.trigger, Trigger::Startup);
    assert_eq!(r.outcome, Outcome::Failed);
}
