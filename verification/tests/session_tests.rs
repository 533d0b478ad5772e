use chat_bridge::executor::{is_session_expired, session_expired_at};
use chrono::Utc;

#[test]
fn session_expired_old_timestamp() {
    // A timestamp from 2020 should be expired with any reasonable window
    assert!(is_session_expired("2020-01-01 00:00:00", 60));
}

#[test]
fn session_not_expired_recent() {
    // Current timestamp should not be expired with a 60 minute window
    let now = Utc::now().naive_utc();
    let ts = now.format("%Y-%m-%d %H:%M:%S").to_string();
    assert!(!is_session_expired(&ts, 60));
}

#[test]
fn session_expired_with_zero_window() {
    // Even a current timestamp should be expired with 0 minute window
    // (since the elapsed whole minutes are 0, and 0 > 0 is false)
    let now = Utc::now().naive_utc();
    let ts = now.format("%Y-%m-%d %H:%M:%S").to_string();
    // 0 > 0 is false, so "not expired"
    assert!(!is_session_expired(&ts, 0));
}

#[test]
fn session_expired_invalid_format() {
    // Invalid format should be treated as expired
    assert!(is_session_expired("not-a-date", 60));
    assert!(is_session_expired("", 60));
    assert!(is_session_expired("2024-13-01 00:00:00", 60)); // invalid month
}

#[test]
fn session_expired_iso8601_format_not_supported() {
    // Only "%Y-%m-%d %H:%M:%S" is supported, not ISO 8601 with T
    assert!(is_session_expired("2024-01-01T00:00:00", 60));
}

#[test]
fn session_expired_max_window() {
    // Very old timestamp with max u64 window should not expire
    assert!(!is_session_expired("2020-01-01 00:00:00", u64::MAX));
}

#[test]
fn session_expired_future_timestamp() {
    // A future timestamp should not be expired
    assert!(!is_session_expired("2099-01-01 00:00:00", 60));
}

#[test]
fn session_expired_at_boundaries() {
    // exactly at the window boundary: 60 whole minutes is not "older than"
    assert!(!session_expired_at(Some(0), 60 * 60, 60));
    // 3659 seconds is still only 60 whole minutes
    assert!(!session_expired_at(Some(0), 60 * 60 + 59, 60));
    // 61 whole minutes is older than a 60-minute window
    assert!(session_expired_at(Some(0), 61 * 60, 60));
    // an unreadable time counts as expired
    assert!(session_expired_at(None, 0, 60));
}
