use chat_bridge::store::Database;

fn test_db() -> Database {
    Database::new()
}

const NOW: i64 = 1_700_000_000;

#[test]
fn friend_upsert_and_get() {
    let mut db = test_db();
    db.friend_upsert("wx_001", Some("Alice"), None, Some("admin"), None, None, NOW)
        .unwrap();
    let f = db.friend_get("wx_001").unwrap();
    assert_eq!(f.wxid, "wx_001");
    assert_eq!(f.nickname.as_deref(), Some("Alice"));
    assert_eq!(f.permission, "admin");
}

#[test]
fn friend_permission() {
    let mut db = test_db();
    db.friend_upsert("wx_002", Some("Bob"), None, None, None, None, NOW)
        .unwrap();
    assert_eq!(db.friend_get_permission("wx_002").as_deref(), Some("normal"));
    db.friend_set_permission("wx_002", "blocked").unwrap();
    assert_eq!(db.friend_get_permission("wx_002").as_deref(), Some("blocked"));
}

#[test]
fn friend_list_and_remove() {
    let mut db = test_db();
    db.friend_upsert("wx_a", Some("A"), None, Some("admin"), None, None, NOW)
        .unwrap();
    db.friend_upsert("wx_b", Some("B"), None, Some("normal"), None, None, NOW)
        .unwrap();
    assert_eq!(db.friend_list_all().len(), 2);
    assert_eq!(db.friend_list_by_permission("admin").len(), 1);
    db.friend_remove("wx_a");
    assert_eq!(db.friend_list_all().len(), 1);
}

#[test]
fn friend_find_by_nickname() {
    let mut db = test_db();
    db.friend_upsert("wx_c", Some("Charlie"), Some("Chuck"), None, None, None, NOW)
        .unwrap();
    assert_eq!(db.friend_find_by_nickname("charl").len(), 1);
    assert_eq!(db.friend_find_by_nickname("Chuck").len(), 1);
    assert_eq!(db.friend_find_by_nickname("zzz").len(), 0);
}

#[test]
fn session_lifecycle() {
    let mut db = test_db();
    db.friend_upsert("wx_s", Some("Sess"), None, None, None, None, NOW)
        .unwrap();
    db.session_create("sess_1", "wx_s", None, NOW).unwrap();
    let s = db.session_get_active("wx_s").unwrap();
    assert_eq!(s.id, "sess_1");
    assert_eq!(s.message_count, 0);

    db.session_touch("sess_1", NOW + 1);
    let s = db.session_get_active("wx_s").unwrap();
    assert_eq!(s.message_count, 1);

    db.session_set_agent_session("sess_1", "agent_abc");
    let s = db.session_get_active("wx_s").unwrap();
    assert_eq!(s.agent_session.as_deref(), Some("agent_abc"));

    db.session_clear_user("wx_s");
    assert!(db.session_get_active("wx_s").is_none());
}

#[test]
fn audit_log_and_query() {
    let mut db = test_db();
    db.audit_log("wx_a1", Some("Alice"), "in", Some("hello"), None, NOW)
        .unwrap();
    db.audit_log("wx_a1", Some("Alice"), "out", Some("hi"), Some("cs_1"), NOW)
        .unwrap();
    db.audit_log("wx_b1", Some("Bob"), "in", Some("hey"), None, NOW)
        .unwrap();

    let user_logs = db.audit_get_by_user("wx_a1", 50);
    assert_eq!(user_logs.len(), 2);

    let recent = db.audit_get_recent(10);
    assert_eq!(recent.len(), 3);
}

#[test]
fn rate_limiting() {
    let mut db = test_db();
    // First request should be allowed
    let r = db.rate_limit_check_and_increment("wx_r", 2, 100, NOW);
    assert!(r.allowed);

    // Second should also be allowed
    let r = db.rate_limit_check_and_increment("wx_r", 2, 100, NOW);
    assert!(r.allowed);

    // Third should be blocked (per-minute = 2)
    let r = db.rate_limit_check_and_increment("wx_r", 2, 100, NOW);
    assert!(!r.allowed);
    assert!(r.reason.is_some());
}

#[test]
fn rate_limit_daily_boundary() {
    let mut db = test_db();
    // Daily limit of 3, per-minute limit of 100 (high so we don't hit it)
    for _ in 0..3 {
        let r = db.rate_limit_check_and_increment("wx_day", 100, 3, NOW);
        assert!(r.allowed);
    }
    // 4th should be blocked by daily limit
    let r = db.rate_limit_check_and_increment("wx_day", 100, 3, NOW);
    assert!(!r.allowed);
    assert!(r.reason.as_deref().unwrap().contains("Daily"));
}

#[test]
fn rate_limit_per_minute_reason_message() {
    let mut db = test_db();
    // Hit the per-minute limit
    let _ = db.rate_limit_check_and_increment("wx_pm", 1, 100, NOW);
    let r = db.rate_limit_check_and_increment("wx_pm", 1, 100, NOW);
    assert!(!r.allowed);
    assert!(r.reason.as_deref().unwrap().contains("Too many"));
}

#[test]
fn rate_limit_independent_users() {
    let mut db = test_db();
    // User A hits limit
    let _ = db.rate_limit_check_and_increment("wx_aa", 1, 100, NOW);
    let r = db.rate_limit_check_and_increment("wx_aa", 1, 100, NOW);
    assert!(!r.allowed);

    // User B should still be allowed
    let r = db.rate_limit_check_and_increment("wx_bb", 1, 100, NOW);
    assert!(r.allowed);
}

#[test]
fn rate_limit_zero_limits() {
    let mut db = test_db();
    // Zero per-minute: the first check finds no existing counter and only
    // compares against the existing count, so the first request is allowed.
    let r = db.rate_limit_check_and_increment("wx_zero", 0, 100, NOW);
    assert!(r.allowed);
    // Second request: now the counter is 1, and 1 >= 0 -> blocked
    let r = db.rate_limit_check_and_increment("wx_zero", 0, 100, NOW);
    assert!(!r.allowed);
}

#[test]
fn rate_limit_cleanup_runs() {
    let mut db = test_db();
    let _ = db.rate_limit_check_and_increment("wx_cl", 10, 100, NOW);
    // cleanup should not remove fresh entries
    let deleted = db.rate_limit_cleanup(NOW);
    assert_eq!(deleted, 0);
}

#[test]
fn rate_limit_cleanup_drops_old_windows() {
    let mut db = test_db();
    let _ = db.rate_limit_check_and_increment("wx_old", 10, 100, NOW);
    // two days later the window is older than one day
    let deleted = db.rate_limit_cleanup(NOW + 2 * 86400);
    assert_eq!(deleted, 1);
}

#[test]
fn rate_limit_new_minute_resets_counter() {
    let mut db = test_db();
    let _ = db.rate_limit_check_and_increment("wx_min", 1, 100, NOW);
    let r = db.rate_limit_check_and_increment("wx_min", 1, 100, NOW);
    assert!(!r.allowed);
    // the next minute opens a fresh window
    let r = db.rate_limit_check_and_increment("wx_min", 1, 100, NOW + 60);
    assert!(r.allowed);
}

#[test]
fn friend_unicode_wxid() {
    let mut db = test_db();
    db.friend_upsert("wxid_中文", Some("中文用户"), None, Some("normal"), None, None, NOW)
        .unwrap();
    let f = db.friend_get("wxid_中文").unwrap();
    assert_eq!(f.wxid, "wxid_中文");
    assert_eq!(f.nickname.as_deref(), Some("中文用户"));
}

#[test]
fn friend_emoji_nickname() {
    let mut db = test_db();
    db.friend_upsert("wx_emoji", Some("🎉🎊🎈"), None, None, None, None, NOW)
        .unwrap();
    let f = db.friend_get("wx_emoji").unwrap();
    assert_eq!(f.nickname.as_deref(), Some("🎉🎊🎈"));
}

#[test]
fn friend_special_chars_in_notes() {
    let mut db = test_db();
    let notes = "Line1\nLine2\tTab\r\nCRLF\0Null'Quote\"Double";
    db.friend_upsert("wx_special", Some("Test"), None, None, None, Some(notes), NOW)
        .unwrap();
    let f = db.friend_get("wx_special").unwrap();
    assert_eq!(f.notes.as_deref(), Some(notes));
}

#[test]
fn friend_empty_wxid() {
    let mut db = test_db();
    // An empty identity is technically a valid key
    db.friend_upsert("", Some("Empty"), None, None, None, None, NOW)
        .unwrap();
    let f = db.friend_get("").unwrap();
    assert_eq!(f.wxid, "");
}

#[test]
fn friend_very_long_nickname() {
    let mut db = test_db();
    let long_name = "A".repeat(10000);
    db.friend_upsert("wx_long", Some(&long_name), None, None, None, None, NOW)
        .unwrap();
    let f = db.friend_get("wx_long").unwrap();
    assert_eq!(f.nickname.as_deref(), Some(long_name.as_str()));
}

#[test]
fn friend_upsert_preserves_fields_on_conflict() {
    let mut db = test_db();
    // First insert with all fields
    db.friend_upsert(
        "wx_up",
        Some("Original"),
        Some("Remark"),
        Some("trusted"),
        Some("admin_wx"),
        Some("initial notes"),
        NOW,
    )
    .unwrap();

    // Upsert with only the nickname given
    db.friend_upsert("wx_up", Some("Updated"), None, None, None, None, NOW)
        .unwrap();

    let f = db.friend_get("wx_up").unwrap();
    assert_eq!(f.nickname.as_deref(), Some("Updated"));
    // the omitted remark keeps its prior value
    assert_eq!(f.remark_name.as_deref(), Some("Remark"));
}

#[test]
fn friend_upsert_overwrites_with_explicit_values() {
    let mut db = test_db();
    db.friend_upsert("wx_ow", Some("Original"), Some("OldRemark"), Some("normal"), None, None, NOW)
        .unwrap();
    db.friend_upsert("wx_ow", Some("New"), Some("NewRemark"), Some("admin"), None, None, NOW)
        .unwrap();

    let f = db.friend_get("wx_ow").unwrap();
    assert_eq!(f.nickname.as_deref(), Some("New"));
    assert_eq!(f.remark_name.as_deref(), Some("NewRemark"));
    assert_eq!(f.permission, "admin");
}

#[test]
fn friend_invalid_permission_rejected() {
    let mut db = test_db();
    // Only admin/trusted/normal/blocked are accepted
    let result = db.friend_upsert("wx_bad", Some("Bad"), None, Some("superuser"), None, None, NOW);
    assert!(result.is_err());
}

#[test]
fn session_multiple_sessions_returns_latest() {
    let mut db = test_db();
    db.friend_upsert("wx_multi", Some("Multi"), None, None, None, None, NOW)
        .unwrap();
    db.session_create("sess_old", "wx_multi", None, NOW).unwrap();
    // Touch the old session so it has an earlier last_active
    db.session_touch("sess_old", NOW + 1);

    db.session_create("sess_new", "wx_multi", Some("agent_xyz"), NOW + 2).unwrap();

    // session_get_active returns the one with the latest last_active
    let s = db.session_get_active("wx_multi").unwrap();
    assert_eq!(s.id, "sess_new");
}

#[test]
fn session_get_active_nonexistent_user() {
    let db = test_db();
    let s = db.session_get_active("wx_nonexistent");
    assert!(s.is_none());
}

#[test]
fn session_clean_expired_zero_minutes() {
    let mut db = test_db();
    db.friend_upsert("wx_exp", Some("Exp"), None, None, None, None, NOW)
        .unwrap();
    db.session_create("sess_exp", "wx_exp", None, NOW).unwrap();

    // With 0 minutes expiry, everything should be expired
    let deleted = db.session_clean_expired(0, NOW);
    assert_eq!(deleted, 1);

    // Verify it's gone
    let s = db.session_get_active("wx_exp");
    assert!(s.is_none());
}

#[test]
fn session_clean_expired_large_window_keeps_sessions() {
    let mut db = test_db();
    db.friend_upsert("wx_keep", Some("Keep"), None, None, None, None, NOW)
        .unwrap();
    db.session_create("sess_keep", "wx_keep", None, NOW).unwrap();

    // With a huge window, nothing should expire
    let deleted = db.session_clean_expired(999999, NOW);
    assert_eq!(deleted, 0);
}

#[test]
fn session_touch_increments_count_multiple_times() {
    let mut db = test_db();
    db.friend_upsert("wx_touch", Some("Touch"), None, None, None, None, NOW)
        .unwrap();
    db.session_create("sess_t", "wx_touch", None, NOW).unwrap();

    for _ in 0..5 {
        db.session_touch("sess_t", NOW);
    }

    let s = db.session_get_active("wx_touch").unwrap();
    assert_eq!(s.message_count, 5);
}

#[test]
fn audit_log_with_null_message() {
    let mut db = test_db();
    db.audit_log("wx_null", Some("Test"), "in", None, None, NOW)
        .unwrap();
    let logs = db.audit_get_by_user("wx_null", 10);
    assert_eq!(logs.len(), 1);
    assert!(logs[0].message.is_none());
}

#[test]
fn audit_log_with_very_long_message() {
    let mut db = test_db();
    let long_msg = "x".repeat(100_000);
    db.audit_log("wx_long", Some("Test"), "in", Some(&long_msg), None, NOW)
        .unwrap();
    let logs = db.audit_get_by_user("wx_long", 10);
    assert_eq!(logs[0].message.as_ref().unwrap().len(), 100_000);
}

#[test]
fn audit_get_recent_with_limit() {
    let mut db = test_db();
    for i in 0..10 {
        db.audit_log("wx_lim", Some("Test"), "in", Some(&format!("msg_{}", i)), None, NOW)
            .unwrap();
    }
    let logs = db.audit_get_recent(3);
    assert_eq!(logs.len(), 3);
}

#[test]
fn audit_direction_constraint() {
    let mut db = test_db();
    // Valid directions: 'in' and 'out'
    db.audit_log("wx_dir", None, "in", None, None, NOW).unwrap();
    db.audit_log("wx_dir", None, "out", None, None, NOW).unwrap();

    // An invalid direction is refused
    let result = db.audit_log("wx_dir", None, "invalid", None, None, NOW);
    assert!(result.is_err());
}

#[test]
fn friend_find_by_nickname_sql_wildcard() {
    let mut db = test_db();
    db.friend_upsert("wx_wild", Some("100%_complete"), None, None, None, None, NOW)
        .unwrap();
    db.friend_upsert("wx_other", Some("nothing special"), None, None, None, None, NOW)
        .unwrap();

    // a percent sign is matched literally by the substring search
    let matches = db.friend_find_by_nickname("100%");
    assert!(!matches.is_empty());
}

#[test]
fn friend_find_by_nickname_empty_search() {
    let mut db = test_db();
    db.friend_upsert("wx_e1", Some("Alice"), None, None, None, None, NOW)
        .unwrap();
    db.friend_upsert("wx_e2", Some("Bob"), None, None, None, None, NOW)
        .unwrap();

    // an empty search text matches everything
    let matches = db.friend_find_by_nickname("");
    assert_eq!(matches.len(), 2);
}

#[test]
fn friend_find_by_nickname_matches_remark_name() {
    let mut db = test_db();
    db.friend_upsert("wx_rn", Some("RealName"), Some("SearchableRemark"), None, None, None, NOW)
        .unwrap();
    let matches = db.friend_find_by_nickname("SearchableRemark");
    assert_eq!(matches.len(), 1);
    assert_eq!(matches[0].wxid, "wx_rn");
}
