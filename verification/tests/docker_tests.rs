use chat_bridge::docker::{
    build_agent_cmd, build_exec_env, container_name_with, cpus_to_nanocpus, parse_memory,
    DockerConfig,
};
use chat_bridge::permission::Permission;

#[test]
fn test_container_name_sanitization() {
    let config = DockerConfig::default_with_home("/root");
    let name = config.container_name("wxid_abc123");
    assert_eq!(name, "agent-friend-wxid_abc123");
}

#[test]
fn test_container_name_special_chars() {
    let name = container_name_with("agent-friend-", "user@foo/bar");
    assert_eq!(name, "agent-friend-user_foo_bar");
}

#[test]
fn container_name_replaces_every_non_alphanumeric() {
    // dots and hyphens in the identity are disallowed characters too
    let name = container_name_with("agent-friend-", "a.b-c");
    assert_eq!(name, "agent-friend-a_b_c");
}

#[test]
fn container_name_is_deterministic_and_length_preserving() {
    let a = container_name_with("agent-friend-", "user@foo/bar");
    let b = container_name_with("agent-friend-", "user@foo/bar");
    assert_eq!(a, b);
    // disallowed characters are replaced, never dropped
    assert_eq!(
        a.chars().count(),
        "agent-friend-".chars().count() + "user@foo/bar".chars().count()
    );
    let uni = container_name_with("agent-friend-", "用户@x");
    assert_eq!(uni, "agent-friend-___x");
}

#[test]
fn test_default_config() {
    let config = DockerConfig::default_with_home("/home/u");
    assert_eq!(config.image, "agent-sandbox:latest");
    assert_eq!(config.container_prefix, "agent-friend-");
    assert_eq!(config.limits.memory, 512 * 1024 * 1024);
    assert_eq!(config.limits.admin_memory, 2 * 1024 * 1024 * 1024);
    assert_eq!(config.limits.pids, 100);
    assert_eq!(config.network.normal, "none");
    assert_eq!(config.network.trusted, "agent-limited");
    assert_eq!(config.network.admin, "bridge");
}

#[test]
fn test_parse_memory() {
    assert_eq!(parse_memory("512m"), 512 * 1024 * 1024);
    assert_eq!(parse_memory("2g"), 2 * 1024 * 1024 * 1024);
    assert_eq!(parse_memory("1024k"), 1024 * 1024);
    assert_eq!(parse_memory("1048576"), 1048576);
    assert_eq!(parse_memory("0"), 0);
}

#[test]
fn test_cpus_to_nanocpus() {
    assert_eq!(cpus_to_nanocpus(1), 1_000_000_000);
    assert_eq!(cpus_to_nanocpus(2), 2_000_000_000);
}

#[test]
fn test_parse_memory_empty_string() {
    assert_eq!(parse_memory(""), 0);
}

#[test]
fn test_parse_memory_whitespace() {
    assert_eq!(parse_memory("  512m  "), 512 * 1024 * 1024);
}

#[test]
fn test_parse_memory_uppercase() {
    // The function folds case, so "2G" works
    assert_eq!(parse_memory("2G"), 2 * 1024 * 1024 * 1024);
    assert_eq!(parse_memory("512M"), 512 * 1024 * 1024);
    assert_eq!(parse_memory("1024K"), 1024 * 1024);
}

#[test]
fn test_parse_memory_invalid_number() {
    // "abcm" -> strip suffix "m", parsing "abc" fails, gives 0
    assert_eq!(parse_memory("abcm"), 0);
}

#[test]
fn test_parse_memory_negative() {
    // Negative numbers parse fine as i64
    assert_eq!(parse_memory("-1m"), -1 * 1024 * 1024);
}

#[test]
fn test_parse_memory_just_suffix() {
    // "m" -> strip suffix "m", parsing "" fails, gives 0
    assert_eq!(parse_memory("m"), 0);
    assert_eq!(parse_memory("g"), 0);
    assert_eq!(parse_memory("k"), 0);
}

#[test]
fn test_cpus_to_nanocpus_zero() {
    assert_eq!(cpus_to_nanocpus(0), 0);
}

#[test]
fn test_cpus_to_nanocpus_large() {
    // 128 cores
    assert_eq!(cpus_to_nanocpus(128), 128_000_000_000);
}

#[test]
fn agent_cmd_shape() {
    let cmd = build_agent_cmd("sys", "hi there", &None, &Some(Permission::Trusted));
    assert_eq!(
        cmd,
        vec!["agent", "--print", "--output-format", "text", "--system-prompt", "sys", "hi there"]
    );
    // a held continuation token is passed to resume
    let cmd = build_agent_cmd("sys", "m", &Some("tok9".to_string()), &Some(Permission::Admin));
    assert!(cmd.contains(&"--resume".to_string()));
    assert!(cmd.contains(&"tok9".to_string()));
    // the Q&A-only tier runs with all tools disabled
    let cmd = build_agent_cmd("sys", "m", &None, &Some(Permission::Normal));
    assert!(cmd.contains(&"--allowedTools".to_string()));
    assert!(cmd.contains(&"".to_string()));
}

#[test]
fn exec_env_never_passes_empty_credential() {
    let env = build_exec_env("u1", &None);
    assert_eq!(env, vec!["WXID=u1"]);
    let env = build_exec_env("u1", &Some("".to_string()));
    assert_eq!(env, vec!["WXID=u1"]);
    let env = build_exec_env("u1", &Some("k".to_string()));
    assert_eq!(env, vec!["WXID=u1", "AGENT_API_KEY=k"]);
}

#[test]
fn build_docker_config_converts_units() {
    let cfg = chat_bridge::config::Config::default();
    let dc = chat_bridge::docker::build_docker_config(&cfg);
    assert_eq!(dc.limits.memory, 512 * 1024 * 1024);
    assert_eq!(dc.limits.admin_memory, 2 * 1024 * 1024 * 1024);
    assert_eq!(dc.limits.cpus, 1_000_000_000);
    assert_eq!(dc.limits.admin_cpus, 2_000_000_000);
    assert_eq!(dc.limits.pids, 100);
}
