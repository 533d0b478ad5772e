use chat_bridge::config::{
    AgentConfig, Config, DockerLimits, DockerNetwork, LoggingConfig, PermissionsConfig,
    RateLimitConfig, SecurityConfig, SessionConfig,
};

#[test]
fn config_default_admin_wxid_empty() {
    let config = Config::default();
    assert!(config.admin_wxid.is_empty());
}

#[test]
fn config_default_claude_cli_path() {
    let config = AgentConfig::default();
    assert_eq!(config.cli_path, "agent");
}

#[test]
fn config_default_claude_timeout() {
    let config = AgentConfig::default();
    assert_eq!(config.timeout, 120);
}

#[test]
fn config_default_session_expire_minutes() {
    let config = SessionConfig::default();
    assert_eq!(config.expire_minutes, 60);
}

#[test]
fn config_default_session_max_history() {
    let config = SessionConfig::default();
    assert_eq!(config.max_history, 50);
}

#[test]
fn config_default_rate_limits() {
    let config = RateLimitConfig::default();
    assert_eq!(config.max_per_minute, 10);
    assert_eq!(config.max_per_day, 200);
}

#[test]
fn config_default_security_no_blocked_patterns() {
    let config = SecurityConfig::default();
    assert!(config.blocked_patterns.is_empty());
    assert!(config.trusted_file_access);
}

#[test]
fn config_default_permissions() {
    let config = PermissionsConfig::default();
    assert!(config.notify_unauthorized);
    assert_eq!(config.default_level, "normal");
    // Unauthorized message should be non-empty text
    assert!(!config.unauthorized_message.is_empty());
}

#[test]
fn config_default_logging() {
    let config = LoggingConfig::default();
    assert_eq!(config.level, "info");
    assert_eq!(config.file, "logs/bridge.log");
    assert!(config.log_message_content);
}

#[test]
fn config_default_docker_image() {
    let config = chat_bridge::config::DockerConfig::default();
    assert_eq!(config.image, "agent-sandbox:latest");
    assert_eq!(config.container_prefix, "agent-friend-");
}

#[test]
fn config_default_docker_limits() {
    let config = chat_bridge::config::DockerLimits::default();
    assert_eq!(config.memory, "512m");
    assert_eq!(config.admin_memory, "2g");
    assert_eq!(config.cpus, 1);
    assert_eq!(config.admin_cpus, 2);
    assert_eq!(config.pids, 100);
    assert_eq!(config.tmp_size, "100m");
}

#[test]
fn config_default_docker_network() {
    let config = DockerNetwork::default();
    assert_eq!(config.admin, "bridge");
    assert_eq!(config.trusted, "agent-limited");
    assert_eq!(config.normal, "none");
}

#[test]
fn expanded_data_dir_tilde_prefix() {
    let config = chat_bridge::config::DockerConfig {
        data_dir: "~/my-data".into(),
        ..Default::default()
    };
    let expanded = config.expanded_data_dir();
    // Should not start with ~ after expansion
    assert!(!expanded.starts_with('~'));
    // Should end with my-data
    assert!(expanded.ends_with("my-data"));
}

#[test]
fn expanded_data_dir_absolute_path() {
    let config = chat_bridge::config::DockerConfig {
        data_dir: "/absolute/path".into(),
        ..Default::default()
    };
    let expanded = config.expanded_data_dir();
    assert_eq!(expanded, "/absolute/path");
}

#[test]
fn expanded_data_dir_relative_path() {
    let config = chat_bridge::config::DockerConfig {
        data_dir: "relative/path".into(),
        ..Default::default()
    };
    let expanded = config.expanded_data_dir();
    assert_eq!(expanded, "relative/path");
}

#[test]
fn expanded_data_dir_tilde_only() {
    let config = chat_bridge::config::DockerConfig { data_dir: "~".into(), ..Default::default() };
    let expanded = config.expanded_data_dir();
    assert!(!expanded.contains('~'));
}

#[test]
fn expanded_data_dir_tilde_slash() {
    let config = chat_bridge::config::DockerConfig { data_dir: "~/".into(), ..Default::default() };
    let expanded = config.expanded_data_dir();
    assert!(!expanded.starts_with('~'));
}

#[test]
fn expanded_dir_with_explicit_home() {
    let out = chat_bridge::config::expanded_dir_with("~/data", Some("/home/u"));
    assert_eq!(out, "/home/u/data");
    let kept = chat_bridge::config::expanded_dir_with("~/data", None);
    assert_eq!(kept, "~/data");
}

#[test]
fn docker_limits_default_value() {
    let limits: DockerLimits = Default::default();
    assert_eq!(limits.pids, 100);
}
