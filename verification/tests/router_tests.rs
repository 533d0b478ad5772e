use chat_bridge::config::Config;
use chat_bridge::executor::{
    extract_session_token, interpret_exec_outcome, truncate_response, AgentExecutor,
    EngineExecOutcome, ExecAgentResult, MAX_RESPONSE_LEN,
};
use chat_bridge::router::{Contact, MessageRouter, RouteOutcome};
use chat_bridge::store::Database;
use chat_bridge::text::format_bytes;

const NOW: i64 = 1_700_000_000;

fn contact(wxid: &str, nickname: &str) -> Contact {
    Contact { wxid: wxid.to_string(), nickname: nickname.to_string(), remark_name: String::new() }
}

fn router_with(admin: &str, config: Config) -> MessageRouter {
    let executor = AgentExecutor::new(Database::new(), config.session.expire_minutes, 120);
    MessageRouter::new(executor, admin.to_string(), &config)
}

// ============================================
// Concurrency guard
// ============================================

#[test]
fn second_concurrent_request_is_refused() {
    let mut ex = AgentExecutor::new(Database::new(), 60, 120);
    assert!(ex.begin_execute("u1").is_none());
    // while busy, a second request gets the still-processing reply
    let busy = ex.begin_execute("u1").unwrap();
    assert!(busy.contains("still being processed"));
    // a different identity is unaffected
    assert!(ex.begin_execute("u2").is_none());
    // completing the attempt releases the identity
    let result = ExecAgentResult { ok: true, output: "done".to_string(), stderr: String::new() };
    let _ = ex.finish_execute("u1", "sess", &result);
    assert!(ex.begin_execute("u1").is_none());
}

#[test]
fn failed_setup_releases_the_guard() {
    let mut ex = AgentExecutor::new(Database::new(), 60, 120);
    assert!(ex.begin_execute("u1").is_none());
    let msg = ex.fail_setup("u1");
    assert!(msg.contains("Container setup failed"));
    assert!(ex.begin_execute("u1").is_none());
}

// ============================================
// Session resolution (expiry window)
// ============================================

#[test]
fn expired_session_is_superseded_not_reused() {
    let mut ex = AgentExecutor::new(Database::new(), 60, 120);
    let s1 = ex.get_or_create_session("u1", NOW).unwrap();
    ex.db.session_set_agent_session(&s1.id, "tok1");

    // within the window the same session (with its token) is reused
    let s2 = ex.get_or_create_session("u1", NOW + 30 * 60).unwrap();
    assert_eq!(s2.id, s1.id);
    assert_eq!(s2.agent_session.as_deref(), Some("tok1"));

    // past the window a fresh session with a different id and no token
    let s3 = ex.get_or_create_session("u1", NOW + 61 * 60).unwrap();
    assert_ne!(s3.id, s1.id);
    assert!(s3.agent_session.is_none());
    // the expired session is gone for good
    let active = ex.db.session_get_active("u1").unwrap();
    assert_eq!(active.id, s3.id);
}

// ============================================
// Response bounding
// ============================================

#[test]
fn truncation_is_idempotent_on_short_responses() {
    let short = "a short answer";
    assert_eq!(truncate_response(short), short);
    let exactly = "x".repeat(MAX_RESPONSE_LEN);
    assert_eq!(truncate_response(&exactly), exactly);
}

#[test]
fn truncation_cuts_at_cap_and_appends_notice() {
    let long = "y".repeat(MAX_RESPONSE_LEN + 500);
    let out = truncate_response(&long);
    assert!(out.starts_with(&"y".repeat(MAX_RESPONSE_LEN)));
    assert!(out.ends_with("... (response truncated)"));
    assert_eq!(out.len(), MAX_RESPONSE_LEN + "\n\n... (response truncated)".len());
}

#[test]
fn truncation_never_splits_a_character() {
    // 3-byte characters that straddle the cap
    let long: String = std::iter::repeat('中').take(2000).collect();
    let out = truncate_response(&long);
    // still valid UTF-8 by construction; the kept prefix is whole characters
    let body = out.strip_suffix("\n\n... (response truncated)").unwrap();
    assert!(body.len() <= MAX_RESPONSE_LEN);
    assert!(body.chars().all(|c| c == '中'));
}

// ============================================
// Continuation-token capture
// ============================================

#[test]
fn token_is_captured_from_diagnostics() {
    assert_eq!(extract_session_token("Session: abc123").as_deref(), Some("abc123"));
    assert_eq!(extract_session_token("SESSION  deadbeef-12 trailing").as_deref(), Some("deadbeef-12"));
    assert_eq!(extract_session_token("no token here"), None);
    assert_eq!(extract_session_token("session:"), None);
    // the match is found mid-text too
    assert_eq!(extract_session_token("warn: reusing session 0f-3c done").as_deref(), Some("0f-3c"));
}

#[test]
fn captured_token_rides_on_the_session() {
    let mut ex = AgentExecutor::new(Database::new(), 60, 120);
    let s = ex.get_or_create_session("u1", NOW).unwrap();
    let result = ExecAgentResult {
        ok: true,
        output: "fine".to_string(),
        stderr: "Session: feed42".to_string(),
    };
    let reply = ex.finish_execute("u1", &s.id, &result);
    assert_eq!(reply, "fine");
    let active = ex.db.session_get_active("u1").unwrap();
    assert_eq!(active.agent_session.as_deref(), Some("feed42"));
}

// ============================================
// Authorization gates
// ============================================

#[test]
fn blocked_identity_is_refused_silently() {
    let mut r = router_with("boss", Config::default());
    r.executor.db.friend_upsert("u1", Some("U"), None, Some("blocked"), None, None, NOW).unwrap();
    let out = r.handle_message(&contact("u1", "U"), "hello", NOW);
    assert!(matches!(out, RouteOutcome::NoReply));
    // refused before any other processing: nothing audited, no charge
    assert!(r.executor.db.audit_get_recent(10).is_empty());
    let verdict = r.executor.db.rate_limit_check_and_increment("u1", 1, 100, NOW);
    assert!(verdict.allowed);
}

#[test]
fn outgoing_replies_are_audited_clipped() {
    let mut r = router_with("boss", Config::default());
    let long = "y".repeat(600);
    r.record_outgoing("u1", "U", &long, NOW);
    let logs = r.executor.db.audit_get_by_user("u1", 10);
    assert_eq!(logs.len(), 1);
    assert_eq!(logs[0].direction, "out");
    assert_eq!(logs[0].message.as_deref(), Some("y".repeat(500).as_str()));
}

#[test]
fn exec_outcomes_map_to_fixed_replies() {
    let r = interpret_exec_outcome(EngineExecOutcome::TimedOut);
    assert!(!r.ok);
    assert_eq!(r.output, "Request timed out");
    let r = interpret_exec_outcome(EngineExecOutcome::Failed("socket closed".to_string()));
    assert!(!r.ok);
    assert_eq!(r.output, "Processing error, please try again later");
    assert_eq!(r.stderr, "socket closed");
    let r = interpret_exec_outcome(EngineExecOutcome::Completed(
        "  hi there 
".to_string(),
        "diag".to_string(),
    ));
    assert!(r.ok);
    assert_eq!(r.output, "hi there");
    assert_eq!(r.stderr, "diag");
    // empty output after trimming is replaced with the placeholder
    let r = interpret_exec_outcome(EngineExecOutcome::Completed(" 
 ".to_string(), String::new()));
    assert!(r.ok);
    assert_eq!(r.output, "(the agent returned no content)");
}

#[test]
fn unknown_identity_is_registered_at_default_tier() {
    let mut r = router_with("boss", Config::default());
    let out = r.handle_message(&contact("u1", "Newbie"), "hello", NOW);
    assert!(matches!(out, RouteOutcome::Execute(_)));
    let f = r.executor.db.friend_get("u1").unwrap();
    assert_eq!(f.permission, "normal");
    assert_eq!(f.nickname.as_deref(), Some("Newbie"));
}

#[test]
fn admin_identity_is_registered_as_admin() {
    let mut r = router_with("boss", Config::default());
    let _ = r.handle_message(&contact("boss", "The Boss"), "hello", NOW);
    let f = r.executor.db.friend_get("boss").unwrap();
    assert_eq!(f.permission, "admin");
}

#[test]
fn rate_limit_rejects_the_third_rapid_request() {
    let mut config = Config::default();
    config.rate_limit.max_per_minute = 2;
    let mut r = router_with("boss", config);
    let c = contact("u1", "U");
    assert!(matches!(r.handle_message(&c, "one", NOW), RouteOutcome::Execute(_)));
    assert!(matches!(r.handle_message(&c, "two", NOW), RouteOutcome::Execute(_)));
    match r.handle_message(&c, "three", NOW) {
        RouteOutcome::Reply(msg) => assert!(msg.contains("Too many requests")),
        _ => panic!("expected a rate-limit reply"),
    }
    // a different identity is unaffected by the first identity's counter
    let other = contact("u2", "V");
    assert!(matches!(r.handle_message(&other, "hello", NOW), RouteOutcome::Execute(_)));
}

#[test]
fn security_filter_blocks_normal_and_passes_admin() {
    let mut config = Config::default();
    config.security.blocked_patterns = vec!["rm\\s+-rf".to_string()];
    let r = router_with("boss", config);
    let hit = r.security_check("please rm  -rf /", "normal");
    assert!(hit.is_some());
    assert!(r.security_check("please rm  -rf /", "admin").is_none());
    assert!(r.security_check("harmless text", "normal").is_none());
    // the filter is case-insensitive
    assert!(r.security_check("RM -RF /tmp", "trusted").is_some());
}

#[test]
fn security_filter_reply_reaches_the_sender() {
    let mut config = Config::default();
    config.security.blocked_patterns = vec!["rm\\s+-rf".to_string()];
    let mut r = router_with("boss", config);
    let out = r.handle_message(&contact("u1", "U"), "rm -rf /", NOW);
    match out {
        RouteOutcome::Reply(msg) => assert!(msg.contains("disallowed operation")),
        _ => panic!("expected the filter reply"),
    }
}

// ============================================
// End-to-end: first contact
// ============================================

#[test]
fn first_contact_flows_to_execution_with_bounded_reply() {
    let mut config = Config::default();
    config.rate_limit.max_per_minute = 1;
    let mut r = router_with("boss", config);
    let c = contact("u1", "U One");

    // unregistered identity sends "hello": auto-registered, budget charged,
    // and the message heads for execution
    let out = r.handle_message(&c, "hello", NOW);
    let req = match out {
        RouteOutcome::Execute(req) => req,
        _ => panic!("expected an execution request"),
    };
    assert_eq!(req.wxid, "u1");
    assert_eq!(req.message, "hello");
    assert_eq!(r.executor.db.friend_get("u1").unwrap().permission, "normal");

    // the budget now stands at 1/1: another message this minute is refused
    match r.handle_message(&c, "again", NOW) {
        RouteOutcome::Reply(msg) => assert!(msg.contains("Too many requests")),
        _ => panic!("expected a rate-limit reply"),
    }

    // drive the dispatcher around the fabricated engine result
    assert!(r.executor.begin_execute("u1").is_none());
    let plan = r.executor.prepare_execute("u1", &req.friend, NOW).unwrap();
    assert!(plan.options.agent_session.is_none());
    assert!(plan.system_prompt.contains("u1"));
    let result = ExecAgentResult {
        ok: true,
        output: "z".repeat(5000),
        stderr: String::new(),
    };
    let reply = r.executor.finish_execute("u1", &plan.session_id, &result);
    assert!(reply.ends_with("... (response truncated)"));
    assert!(reply.len() < 5000);
    // a session now exists for the identity
    assert!(r.executor.db.session_get_active("u1").is_some());
}

// ============================================
// Commands
// ============================================

#[test]
fn allow_command_changes_exactly_one_matching_friend() {
    let mut r = router_with("boss", Config::default());
    r.executor.db.friend_upsert("a1", Some("Alice"), None, Some("normal"), None, None, NOW)
        .unwrap();
    r.executor.db.friend_upsert("b1", Some("Bob"), None, Some("normal"), None, None, NOW)
        .unwrap();
    let out = r.handle_message(&contact("boss", "Boss"), "/allow alice trusted", NOW);
    match out {
        RouteOutcome::Reply(msg) => {
            assert!(msg.contains("Alice"));
            assert!(msg.contains("trusted"));
        },
        _ => panic!("expected a confirmation reply"),
    }
    assert_eq!(r.executor.db.friend_get_permission("a1").as_deref(), Some("trusted"));
    assert_eq!(r.executor.db.friend_get_permission("b1").as_deref(), Some("normal"));
}

#[test]
fn allow_command_refuses_zero_and_multiple_matches() {
    let mut r = router_with("boss", Config::default());
    r.executor.db.friend_upsert("a1", Some("Alice"), None, Some("normal"), None, None, NOW)
        .unwrap();
    r.executor.db.friend_upsert("a2", Some("Alicia"), None, Some("normal"), None, None, NOW)
        .unwrap();

    // zero matches: nothing changes
    match r.handle_message(&contact("boss", "Boss"), "/allow zzz trusted", NOW) {
        RouteOutcome::Reply(msg) => assert!(msg.contains("Not found")),
        _ => panic!("expected a not-found reply"),
    }
    // several matches: nothing changes either
    match r.handle_message(&contact("boss", "Boss"), "/allow ali trusted", NOW) {
        RouteOutcome::Reply(msg) => assert!(msg.contains("Multiple matches")),
        _ => panic!("expected a multiple-matches reply"),
    }
    assert_eq!(r.executor.db.friend_get_permission("a1").as_deref(), Some("normal"));
    assert_eq!(r.executor.db.friend_get_permission("a2").as_deref(), Some("normal"));
}

#[test]
fn commands_are_gated_by_tier() {
    let mut r = router_with("boss", Config::default());
    r.executor.db.friend_upsert("u1", Some("U"), None, Some("normal"), None, None, NOW).unwrap();
    match r.handle_message(&contact("u1", "U"), "/allow u2 trusted", NOW) {
        RouteOutcome::Reply(msg) => assert!(msg.contains("Insufficient permission")),
        _ => panic!("expected a permission refusal"),
    }
}

#[test]
fn help_command_lists_by_tier() {
    let mut r = router_with("boss", Config::default());
    match r.handle_message(&contact("boss", "Boss"), "/help", NOW) {
        RouteOutcome::Reply(msg) => {
            assert!(msg.contains("/allow"));
            assert!(msg.contains("/status"));
        },
        _ => panic!("expected the help text"),
    }
    match r.handle_message(&contact("u9", "U"), "/help", NOW) {
        RouteOutcome::Reply(msg) => {
            assert!(!msg.contains("/allow"));
            assert!(msg.contains("/status"));
        },
        _ => panic!("expected the help text"),
    }
}

#[test]
fn clear_command_clears_the_session() {
    let mut r = router_with("boss", Config::default());
    let _ = r.handle_message(&contact("u1", "U"), "hello", NOW);
    let _ = r.executor.get_or_create_session("u1", NOW).unwrap();
    assert!(r.executor.db.session_get_active("u1").is_some());
    match r.handle_message(&contact("u1", "U"), "/clear", NOW) {
        RouteOutcome::Reply(msg) => assert!(msg.contains("Session cleared")),
        _ => panic!("expected the clear confirmation"),
    }
    assert!(r.executor.db.session_get_active("u1").is_none());
}

#[test]
fn unknown_command_is_treated_as_text() {
    let mut r = router_with("boss", Config::default());
    let out = r.handle_message(&contact("u1", "U"), "/frobnicate now", NOW);
    assert!(matches!(out, RouteOutcome::Execute(_)));
}

#[test]
fn block_command_blocks_and_destroys() {
    let mut r = router_with("boss", Config::default());
    r.executor.db.friend_upsert("a1", Some("Alice"), None, Some("trusted"), None, None, NOW)
        .unwrap();
    match r.handle_message(&contact("boss", "Boss"), "/block alice", NOW) {
        RouteOutcome::ReplyWithAction(msg, _action) => assert!(msg.contains("Blocked")),
        _ => panic!("expected a reply with an engine action"),
    }
    assert_eq!(r.executor.db.friend_get_permission("a1").as_deref(), Some("blocked"));
    // a blocked identity is now refused before anything else
    let out = r.handle_message(&contact("a1", "Alice"), "hello", NOW);
    assert!(matches!(out, RouteOutcome::NoReply));
}

#[test]
fn logs_command_formats_recent_entries() {
    let mut r = router_with("boss", Config::default());
    let _ = r.handle_message(&contact("u1", "U"), "first message", NOW);
    match r.handle_message(&contact("boss", "Boss"), "/logs", NOW) {
        RouteOutcome::Reply(msg) => assert!(msg.contains("first message")),
        _ => panic!("expected the log text"),
    }
}

// ============================================
// Renderers
// ============================================

#[test]
fn kill_and_stopall_replies() {
    let r = router_with("boss", Config::default());
    assert_eq!(r.render_kill_reply("Alice", true), "✅ Killed Alice's process");
    assert_eq!(r.render_kill_reply("Alice", false), "No running process");
    assert_eq!(r.render_stopall_reply(3), "⏹ Stopped all 3 containers");
}

#[test]
fn status_reply_shows_store_and_engine_state() {
    let mut r = router_with("boss", Config::default());
    r.executor.db.friend_upsert("u1", Some("Uli"), None, Some("trusted"), None, None, NOW)
        .unwrap();
    r.executor.db.session_create("s1", "u1", None, NOW).unwrap();
    let status = chat_bridge::executor::ContainerStatus {
        name: "agent-friend-u1".to_string(),
        running: true,
        stats: Some(chat_bridge::docker::ContainerStats {
            cpu_percent_tenths: 123,
            memory_usage: 512 * 1024 * 1024,
            memory_limit: 2 * 1024 * 1024 * 1024,
            pids: 7,
        }),
        disk: Some("123M\t/home/sandbox/workspace".to_string()),
    };
    let text = r.render_status_reply("u1", &status);
    assert!(text.contains("Uli"));
    assert!(text.contains("trusted"));
    assert!(text.contains("Active (0 messages)"));
    assert!(text.contains("agent-friend-u1"));
    assert!(text.contains("Running"));
    assert!(text.contains("12.3%"));
    assert!(text.contains("512.0MB / 2.0GB"));
    assert!(text.contains("Processes: 7"));
    assert!(text.contains("123M"));
}

#[test]
fn format_bytes_uses_binary_units() {
    assert_eq!(format_bytes(512), "512B");
    assert_eq!(format_bytes(1024), "1.0KB");
    assert_eq!(format_bytes(1536), "1.5KB");
    assert_eq!(format_bytes(512 * 1024 * 1024), "512.0MB");
    assert_eq!(format_bytes(3 * 1024 * 1024 * 1024 / 2), "1.5GB");
}

#[test]
fn list_command_groups_by_tier() {
    let mut r = router_with("boss", Config::default());
    r.executor.db.friend_upsert("a1", Some("Alice"), None, Some("trusted"), None, None, NOW)
        .unwrap();
    r.executor.db.friend_upsert("b1", Some("Bob"), None, Some("blocked"), None, None, NOW)
        .unwrap();
    match r.handle_message(&contact("boss", "The Boss"), "/list", NOW) {
        RouteOutcome::Reply(msg) => {
            assert!(msg.contains("ADMIN:"));
            assert!(msg.contains("The Boss"));
            assert!(msg.contains("TRUSTED:"));
            assert!(msg.contains("Alice"));
            assert!(msg.contains("BLOCKED:"));
            assert!(msg.contains("Bob"));
            // no one holds the normal tier, so its heading is absent
            assert!(!msg.contains("NORMAL:"));
        }
        _ => panic!("expected the friend list"),
    }
}
