//! The configuration model. A configuration value is constructed once
//! at startup and passed by reference into each component; there is no
//! ambient global lookup. Loading it from disk is the embedding
//! program's affair.

use vstd::prelude::*;
use vstd::string::StringExecFns;
use crate::text::{chars_vec, push_char};

verus! {

/// Top-level configuration.
pub struct Config {
    pub admin_wxid: String,
    pub agent: AgentConfig,
    pub docker: DockerConfig,
    pub telegram: TelegramConfig,
    pub permissions: PermissionsConfig,
    pub session: SessionConfig,
    pub rate_limit: RateLimitConfig,
    pub security: SecurityConfig,
    pub logging: LoggingConfig,
}

pub struct AgentConfig {
    pub cli_path: String,
    pub timeout: u64,
}

pub struct DockerConfig {
    pub image: String,
    pub container_prefix: String,
    pub data_dir: String,
    pub limits: DockerLimits,
    pub network: DockerNetwork,
}

pub struct DockerLimits {
    pub memory: String,
    pub admin_memory: String,
    pub cpus: u32,
    pub admin_cpus: u32,
    pub pids: u32,
    pub tmp_size: String,
}

pub struct DockerNetwork {
    pub admin: String,
    pub trusted: String,
    pub normal: String,
}

pub struct TelegramConfig {
    /// Use the long-poll bot transport instead of the line-oriented one.
    pub enabled: bool,
    /// Bot token for the long-poll transport.
    pub bot_token: String,
}

pub struct PermissionsConfig {
    pub notify_unauthorized: bool,
    pub unauthorized_message: String,
    pub default_level: String,
}

pub struct SessionConfig {
    pub expire_minutes: u64,
    pub max_history: usize,
}

pub struct RateLimitConfig {
    pub max_per_minute: u32,
    pub max_per_day: u32,
}

pub struct SecurityConfig {
    pub blocked_patterns: Vec<String>,
    pub trusted_file_access: bool,
}

pub struct LoggingConfig {
    pub level: String,
    pub file: String,
    pub log_message_content: bool,
}

impl Default for AgentConfig {
    fn default() -> (r: AgentConfig)
        ensures
            r.cli_path@ == "agent"@,
            r.timeout == 120,
    {
        AgentConfig { cli_path: String::from_str("agent"), timeout: 120 }
    }
}

impl Default for DockerConfig {
    fn default() -> (r: DockerConfig)
        ensures
            r.image@ == "agent-sandbox:latest"@,
            r.container_prefix@ == "agent-friend-"@,
            r.data_dir@ == "~/agent-bridge-data"@,
            r.limits.memory@ == "512m"@,
            r.limits.admin_memory@ == "2g"@,
            r.limits.cpus == 1,
            r.limits.admin_cpus == 2,
            r.limits.pids == 100,
            r.limits.tmp_size@ == "100m"@,
            r.network.admin@ == "bridge"@,
            r.network.trusted@ == "agent-limited"@,
            r.network.normal@ == "none"@,
    {
        DockerConfig {
            image: String::from_str("agent-sandbox:latest"),
            container_prefix: String::from_str("agent-friend-"),
            data_dir: String::from_str("~/agent-bridge-data"),
            limits: Default::default(),
            network: Default::default(),
        }
    }
}

impl Default for DockerLimits {
    fn default() -> (r: DockerLimits)
        ensures
            r.memory@ == "512m"@,
            r.admin_memory@ == "2g"@,
            r.cpus == 1,
            r.admin_cpus == 2,
            r.pids == 100,
            r.tmp_size@ == "100m"@,
    {
        DockerLimits {
            memory: String::from_str("512m"),
            admin_memory: String::from_str("2g"),
            cpus: 1,
            admin_cpus: 2,
            pids: 100,
            tmp_size: String::from_str("100m"),
        }
    }
}

impl Default for DockerNetwork {
    fn default() -> (r: DockerNetwork)
        ensures
            r.admin@ == "bridge"@,
            r.trusted@ == "agent-limited"@,
            r.normal@ == "none"@,
    {
        DockerNetwork {
            admin: String::from_str("bridge"),
            trusted: String::from_str("agent-limited"),
            normal: String::from_str("none"),
        }
    }
}

impl Default for TelegramConfig {
    fn default() -> (r: TelegramConfig)
        ensures
            r.enabled == false,
            r.bot_token@ == Seq::<char>::empty(),
    {
        TelegramConfig { enabled: false, bot_token: String::new() }
    }
}

impl Default for PermissionsConfig {
    fn default() -> (r: PermissionsConfig)
        ensures
            r.notify_unauthorized == true,
            r.unauthorized_message@ == "Sorry, you are not authorized to use this service."@,
            r.default_level@ == "normal"@,
    {
        PermissionsConfig {
            notify_unauthorized: true,
            unauthorized_message: String::from_str(
                "Sorry, you are not authorized to use this service.",
            ),
            default_level: String::from_str("normal"),
        }
    }
}

impl Default for SessionConfig {
    fn default() -> (r: SessionConfig)
        ensures
            r.expire_minutes == 60,
            r.max_history == 50,
    {
        SessionConfig { expire_minutes: 60, max_history: 50 }
    }
}

impl Default for RateLimitConfig {
    fn default() -> (r: RateLimitConfig)
        ensures
            r.max_per_minute == 10,
            r.max_per_day == 200,
    {
        RateLimitConfig { max_per_minute: 10, max_per_day: 200 }
    }
}

impl Default for SecurityConfig {
    fn default() -> (r: SecurityConfig)
        ensures
            r.blocked_patterns@ =~= Seq::<String>::empty(),
            r.trusted_file_access == true,
    {
        SecurityConfig { blocked_patterns: Vec::new(), trusted_file_access: true }
    }
}

impl Default for LoggingConfig {
    fn default() -> (r: LoggingConfig)
        ensures
            r.level@ == "info"@,
            r.file@ == "logs/bridge.log"@,
            r.log_message_content == true,
    {
        LoggingConfig {
            level: String::from_str("info"),
            file: String::from_str("logs/bridge.log"),
            log_message_content: true,
        }
    }
}

impl Default for Config {
    fn default() -> (r: Config)
        ensures
            r.admin_wxid@ == Seq::<char>::empty(),
    {
        Config {
            admin_wxid: String::new(),
            agent: Default::default(),
            docker: Default::default(),
            telegram: Default::default(),
            permissions: Default::default(),
            session: Default::default(),
            rate_limit: Default::default(),
            security: Default::default(),
            logging: Default::default(),
        }
    }
}

/// Relies on dirs::home_dir: the user's home directory, if the platform
/// reports one. The value depends on the environment, so nothing is
/// promised of it.
#[verifier::external_body]
fn home_dir_string() -> Option<String> {
    dirs::home_dir().map(|p| p.to_string_lossy().into_owned())
}

/// Tilde expansion: a directory written with a leading `~` is resolved
/// under the given home directory; anything else is kept as written.
/// With no home directory known, the text is also kept as written.
pub open spec fn spec_expanded_dir(data_dir: Seq<char>, home: Option<Seq<char>>) -> Seq<char> {
    match home {
        Some(h) => if data_dir.len() >= 1 && data_dir[0] == '~' {
            if data_dir.len() >= 2 && data_dir[1] == '/' {
                h + "/"@ + data_dir.skip(2)
            } else {
                h + "/"@ + data_dir.skip(1)
            }
        } else {
            data_dir
        },
        None => data_dir,
    }
}

/// Expand a leading `~` in a directory against a home directory.
pub fn expanded_dir_with(data_dir: &str, home: Option<&str>) -> (r: String)
    ensures
        r@ == spec_expanded_dir(
            data_dir@,
            match home {
                Some(h) => Some(h@),
                None => None,
            },
        ),
{
    match home {
        Some(h) => {
            let v = chars_vec(data_dir);
            let n = v.len();
            if n >= 1 && v[0] == '~' {
                let from: usize = if n >= 2 && v[1] == '/' {
                    2
                } else {
                    1
                };
                let mut out = String::from_str(h);
                out.append("/");
                let mut k = from;
                while k < n
                    invariant
                        from <= k <= n,
                        n == v@.len(),
                        v@ == data_dir@,
                        out@ =~= h@ + "/"@ + data_dir@.subrange(from as int, k as int),
                    decreases n - k,
                {
                    push_char(&mut out, v[k]);
                    k += 1;
                }
                proof {
                    assert(data_dir@.subrange(from as int, n as int) =~= data_dir@.skip(
                        from as int,
                    ));
                    assert(out@ =~= h@ + "/"@ + data_dir@.skip(from as int));
                }
                out
            } else {
                String::from_str(data_dir)
            }
        },
        None => String::from_str(data_dir),
    }
}

impl DockerConfig {
    /// Returns data_dir with ~ expanded to the user's home directory.
    /// The home directory itself comes from the platform, so only the
    /// expansion rule is promised: the result is the configured
    /// directory resolved against whatever home was reported.
    pub fn expanded_data_dir(&self) -> (r: String)
        ensures
            exists|home: Option<Seq<char>>|
                r@ == #[trigger] spec_expanded_dir(self.data_dir@, home),
    {
        let home = home_dir_string();
        let r = match &home {
            Some(h) => expanded_dir_with(self.data_dir.as_str(), Some(h.as_str())),
            None => expanded_dir_with(self.data_dir.as_str(), None),
        };
        proof {
            match home {
                Some(h) => {
                    assert(r@ == spec_expanded_dir(self.data_dir@, Some(h@)));
                },
                None => {
                    assert(r@ == spec_expanded_dir(self.data_dir@, None::<Seq<char>>));
                },
            }
        }
        r
    }
}

} // verus!
