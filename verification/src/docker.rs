//! Container lifecycle decisions: deterministic naming, per-tier
//! resource and network profiles, and the exact command and environment
//! an execution runs with. The engine calls themselves live outside the
//! crate; everything here computes plain values the engine consumer maps
//! onto its API.

use vstd::prelude::*;
use vstd::string::StringExecFns;
use crate::permission::Permission;
use crate::text::push_char;

verus! {

/// Docker configuration for container limits, network, and naming.
pub struct DockerConfig {
    pub image: String,
    pub container_prefix: String,
    pub data_dir: String,
    pub limits: DockerLimits,
    pub network: DockerNetworkConfig,
}

/// Resource ceilings, in the engine's units.
pub struct DockerLimits {
    /// Memory in bytes.
    pub memory: i64,
    /// Memory in bytes for the elevated (admin) ceiling.
    pub admin_memory: i64,
    /// CPU share in nano-CPUs.
    pub cpus: i64,
    /// CPU share in nano-CPUs for the elevated ceiling.
    pub admin_cpus: i64,
    /// Process-count cap.
    pub pids: i64,
    /// Size of the scratch mount, in the engine's notation.
    pub tmp_size: String,
}

/// Network profile name per tier.
pub struct DockerNetworkConfig {
    pub admin: String,
    pub trusted: String,
    pub normal: String,
}

impl DockerLimits {
    pub fn default() -> (r: DockerLimits)
        ensures
            r.memory == 536870912,
            r.admin_memory == 2147483648i64,
            r.cpus == 1000000000,
            r.admin_cpus == 2000000000,
            r.pids == 100,
            r.tmp_size@ == "100m"@,
    {
        DockerLimits {
            memory: 512 * 1024 * 1024,
            admin_memory: 2 * 1024 * 1024 * 1024,
            cpus: 1000000000,
            admin_cpus: 2000000000,
            pids: 100,
            tmp_size: String::from_str("100m"),
        }
    }
}

impl DockerNetworkConfig {
    pub fn default() -> (r: DockerNetworkConfig)
        ensures
            r.admin@ == "bridge"@,
            r.trusted@ == "agent-limited"@,
            r.normal@ == "none"@,
    {
        DockerNetworkConfig {
            admin: String::from_str("bridge"),
            trusted: String::from_str("agent-limited"),
            normal: String::from_str("none"),
        }
    }
}

impl DockerConfig {
    /// Defaults matching the stock sandbox deployment; the data
    /// directory is the `agent-bridge-data` folder under the given
    /// home directory.
    pub fn default_with_home(home: &str) -> (r: DockerConfig)
        ensures
            r.image@ == "agent-sandbox:latest"@,
            r.container_prefix@ == "agent-friend-"@,
            r.data_dir@ == home@ + "/agent-bridge-data"@,
            r.limits.memory == 536870912,
            r.limits.admin_memory == 2147483648i64,
            r.limits.pids == 100,
            r.network.normal@ == "none"@,
            r.network.trusted@ == "agent-limited"@,
            r.network.admin@ == "bridge"@,
    {
        let mut data_dir = String::from_str(home);
        data_dir.append("/agent-bridge-data");
        DockerConfig {
            image: String::from_str("agent-sandbox:latest"),
            container_prefix: String::from_str("agent-friend-"),
            data_dir,
            limits: DockerLimits::default(),
            network: DockerNetworkConfig::default(),
        }
    }

    /// Convert an identity to the engine-safe container name. A pure
    /// function of the identity: disallowed characters are each
    /// replaced, never dropped.
    pub fn container_name(&self, wxid: &str) -> (r: String)
        ensures
            r@ == spec_container_name(self.container_prefix@, wxid@),
            r@.len() == self.container_prefix@.len() + wxid@.len(),
    {
        container_name_with(self.container_prefix.as_str(), wxid)
    }

    /// The network profile for a permission tier.
    pub fn get_network(&self, permission: Permission) -> (r: String)
        ensures
            r@ == spec_network_for(self, permission),
    {
        match permission {
            Permission::Admin => self.network.admin.clone(),
            Permission::Trusted => self.network.trusted.clone(),
            Permission::Normal => self.network.normal.clone(),
        }
    }

    /// The memory and CPU ceiling for a permission tier: the elevated
    /// ceiling for Admin, the standard one otherwise.
    pub fn resource_limits(&self, permission: Permission) -> (r: (i64, i64))
        ensures
            permission is Admin ==> r == (self.limits.admin_memory, self.limits.admin_cpus),
            !(permission is Admin) ==> r == (self.limits.memory, self.limits.cpus),
    {
        match permission {
            Permission::Admin => (self.limits.admin_memory, self.limits.admin_cpus),
            _ => (self.limits.memory, self.limits.cpus),
        }
    }
}

/// A character an identity may keep in a container name: the ASCII
/// alphanumerics; every other character is disallowed.
pub open spec fn spec_name_safe_char(c: char) -> bool {
    let u = c as u32;
    ||| (48 <= u && u <= 57)
    ||| (65 <= u && u <= 90)
    ||| (97 <= u && u <= 122)
}

/// Replace a disallowed character with the filler character.
pub open spec fn spec_sanitize_char(c: char) -> char {
    if spec_name_safe_char(c) {
        c
    } else {
        '_'
    }
}

/// The container name of an identity: the namespace prefix followed by
/// the identity with each disallowed character replaced. Length is
/// preserved.
pub open spec fn spec_container_name(prefix: Seq<char>, wxid: Seq<char>) -> Seq<char> {
    prefix + wxid.map_values(|c: char| spec_sanitize_char(c))
}

fn sanitize_char(c: char) -> (r: char)
    ensures
        r == spec_sanitize_char(c),
{
    let u = c as u32;
    if (48 <= u && u <= 57) || (65 <= u && u <= 90) || (97 <= u && u <= 122) {
        c
    } else {
        '_'
    }
}

/// Build a container name from a prefix and an identity.
pub fn container_name_with(prefix: &str, wxid: &str) -> (r: String)
    ensures
        r@ == spec_container_name(prefix@, wxid@),
        r@.len() == prefix@.len() + wxid@.len(),
{
    let v = crate::text::chars_vec(wxid);
    let n = v.len();
    let mut out = String::from_str(prefix);
    let mut k: usize = 0;
    while k < n
        invariant
            n == v@.len(),
            v@ == wxid@,
            k <= n,
            out@ =~= prefix@ + wxid@.map_values(|c: char| spec_sanitize_char(c)).take(k as int),
        decreases n - k,
    {
        push_char(&mut out, sanitize_char(v[k]));
        k += 1;
        proof {
            let mapped = wxid@.map_values(|c: char| spec_sanitize_char(c));
            assert(mapped.take(k as int) =~= mapped.take(k - 1).push(mapped[k - 1]));
            assert(out@ =~= prefix@ + mapped.take(k as int));
        }
    }
    proof {
        let mapped = wxid@.map_values(|c: char| spec_sanitize_char(c));
        assert(mapped.take(n as int) =~= mapped);
    }
    out
}

/// The network name a tier is provisioned with.
pub open spec fn spec_network_for(cfg: &DockerConfig, permission: Permission) -> Seq<char> {
    match permission {
        Permission::Admin => cfg.network.admin@,
        Permission::Trusted => cfg.network.trusted@,
        Permission::Normal => cfg.network.normal@,
    }
}

/// Container stats snapshot; the CPU share is carried in tenths of a
/// percent so the reading stays in integers.
pub struct ContainerStats {
    pub cpu_percent_tenths: u64,
    pub memory_usage: u64,
    pub memory_limit: u64,
    pub pids: u64,
}

/// Container info returned by a listing.
pub struct ContainerInfo {
    pub name: String,
    pub status: String,
    pub wxid: Option<String>,
    pub permission: Option<String>,
}

/// The argument vector an execution runs: the agent in print mode, the
/// system prompt, the continuation token when one is held, the tool
/// lockout for the Q&A-only tier, and the message last.
pub open spec fn spec_agent_cmd(
    system_prompt: Seq<char>,
    message: Seq<char>,
    agent_session: Option<Seq<char>>,
    permission: Option<Permission>,
) -> Seq<Seq<char>> {
    let base = seq![
        "agent"@,
        "--print"@,
        "--output-format"@,
        "text"@,
        "--system-prompt"@,
        system_prompt,
    ];
    let with_resume = match agent_session {
        Some(tok) => base + seq!["--resume"@, tok],
        None => base,
    };
    let with_tools = if permission == Some(Permission::Normal) {
        with_resume + seq!["--allowedTools"@, Seq::<char>::empty()]
    } else {
        with_resume
    };
    with_tools.push(message)
}

/// Build the engine command for one execution.
pub fn build_agent_cmd(
    system_prompt: &str,
    message: &str,
    agent_session: &Option<String>,
    permission: &Option<Permission>,
) -> (r: Vec<String>)
    ensures
        r@.map_values(|s: String| s@) =~= spec_agent_cmd(
            system_prompt@,
            message@,
            crate::store::ovs(*agent_session),
            *permission,
        ),
{
    let mut cmd: Vec<String> = Vec::new();
    cmd.push(String::from_str("agent"));
    cmd.push(String::from_str("--print"));
    cmd.push(String::from_str("--output-format"));
    cmd.push(String::from_str("text"));
    cmd.push(String::from_str("--system-prompt"));
    cmd.push(String::from_str(system_prompt));
    match agent_session {
        Some(tok) => {
            cmd.push(String::from_str("--resume"));
            cmd.push(tok.clone());
        },
        None => {},
    }
    let normal_only = match permission {
        Some(p) => matches!(p, Permission::Normal),
        None => false,
    };
    if normal_only {
        cmd.push(String::from_str("--allowedTools"));
        cmd.push(String::new());
    }
    cmd.push(String::from_str(message));
    proof {
        assert(cmd@.map_values(|s: String| s@) =~= spec_agent_cmd(
            system_prompt@,
            message@,
            crate::store::ovs(*agent_session),
            *permission,
        ));
    }
    cmd
}

/// The environment an execution runs with: the identity marker, and the
/// engine credential only when the host holds a non-empty one — an
/// empty credential is never passed.
pub open spec fn spec_exec_env(wxid: Seq<char>, api_key: Option<Seq<char>>) -> Seq<Seq<char>> {
    let base = seq!["WXID="@ + wxid];
    match api_key {
        Some(k) => if k.len() == 0 {
            base
        } else {
            base.push("AGENT_API_KEY="@ + k)
        },
        None => base,
    }
}

/// Build the container environment from the identity and the
/// credential the host handed over (if any).
pub fn build_exec_env(wxid: &str, api_key: &Option<String>) -> (r: Vec<String>)
    ensures
        r@.map_values(|s: String| s@) =~= spec_exec_env(wxid@, crate::store::ovs(*api_key)),
{
    let mut env: Vec<String> = Vec::new();
    let mut marker = String::from_str("WXID=");
    marker.append(wxid);
    env.push(marker);
    match api_key {
        Some(k) => {
            if !k.as_str().is_empty() {
                let mut kv = String::from_str("AGENT_API_KEY=");
                kv.append(k.as_str());
                env.push(kv);
            }
        },
        None => {},
    }
    proof {
        assert(env@.map_values(|s: String| s@) =~= spec_exec_env(
            wxid@,
            crate::store::ovs(*api_key),
        ));
    }
    env
}

/// Convert whole cores to the engine's nano-CPU unit.
pub fn cpus_to_nanocpus(cpus: u32) -> (r: i64)
    ensures
        r == cpus * 1000000000,
{
    (cpus as i64) * 1000000000
}

/// The value of a decimal digit run, most significant first.
pub open spec fn spec_digits_val(s: Seq<char>) -> int
    decreases s.len(),
{
    if s.len() == 0 {
        0
    } else {
        spec_digits_val(s.drop_last()) * 10 + (s.last() as u32 - 48)
    }
}

/// Every character is a decimal digit.
pub open spec fn spec_digits_ok(s: Seq<char>) -> bool {
    forall|i: int| 0 <= i < s.len() ==> 48 <= (#[trigger] s[i]) as u32 <= 57
}

proof fn lemma_digits_val_nonneg(s: Seq<char>)
    requires
        spec_digits_ok(s),
    ensures
        spec_digits_val(s) >= 0,
    decreases s.len(),
{
    if s.len() > 0 {
        assert forall|i: int|
            0 <= i < s.drop_last().len() implies 48 <= (#[trigger] s.drop_last()[i]) as u32
            <= 57 by {
            assert(s.drop_last()[i] == s[i]);
        }
        lemma_digits_val_nonneg(s.drop_last());
    }
}

/// The number a string names under the integer grammar: an optional
/// sign, then digits. Unparsable text, and values outside the i64
/// range, give zero.
pub open spec fn spec_parse_i64(s: Seq<char>) -> int {
    if s.len() >= 1 && (s[0] == '+' || s[0] == '-') {
        let mag = s.skip(1);
        if mag.len() > 0 && spec_digits_ok(mag) {
            let v = spec_digits_val(mag);
            if s[0] == '-' {
                if v <= 0x8000000000000000 {
                    -v
                } else {
                    0
                }
            } else {
                if v <= 0x7fffffffffffffff {
                    v
                } else {
                    0
                }
            }
        } else {
            0
        }
    } else if s.len() > 0 && spec_digits_ok(s) {
        let v = spec_digits_val(s);
        if v <= 0x7fffffffffffffff {
            v
        } else {
            0
        }
    } else {
        0
    }
}

/// Clamp a mathematical integer into the i64 range.
pub open spec fn spec_clamp_i64(v: int) -> int {
    if v > 0x7fffffffffffffff {
        0x7fffffffffffffff
    } else if v < -0x8000000000000000 {
        -0x8000000000000000
    } else {
        v
    }
}

/// The text trimmed of whitespace on both ends and lower-cased.
pub open spec fn spec_trim_lower(s: Seq<char>) -> Seq<char> {
    let t = s.skip(crate::text::spec_space_end(s, 0));
    let u = t.take(crate::text::spec_rstrip_idx(t, t.len() as int));
    crate::text::spec_lower_seq(u)
}

/// What a memory string names in bytes: a number with an optional g/m/k
/// suffix (after trimming and case folding), the product clamped to the
/// i64 range.
pub open spec fn spec_parse_memory(s: Seq<char>) -> int {
    let t = spec_trim_lower(s);
    if t.len() == 0 {
        0
    } else if t.last() == 'g' {
        spec_clamp_i64(spec_parse_i64(t.drop_last()) * 0x40000000)
    } else if t.last() == 'm' {
        spec_clamp_i64(spec_parse_i64(t.drop_last()) * 0x100000)
    } else if t.last() == 'k' {
        spec_clamp_i64(spec_parse_i64(t.drop_last()) * 0x400)
    } else {
        spec_parse_i64(t)
    }
}

/// Parse the digit run `v[from..to]` with an optional leading sign.
fn parse_i64_range(v: &Vec<char>, from: usize, to: usize) -> (r: i64)
    requires
        from <= to <= v@.len(),
    ensures
        r as int == spec_parse_i64(v@.subrange(from as int, to as int)),
{
    let ghost s = v@.subrange(from as int, to as int);
    if from == to {
        return 0;
    }
    let first = v[from];
    let (neg, start): (bool, usize) = if first == '-' {
        (true, from + 1)
    } else if first == '+' {
        (false, from + 1)
    } else {
        (false, from)
    };
    if start == to {
        proof {
            assert(s[0] == v@[from as int]);
            assert(s.skip(1).len() == 0);
        }
        return 0;
    }
    let ghost mag = v@.subrange(start as int, to as int);
    let mut acc: u128 = 0;
    let mut k = start;
    while k < to
        invariant
            start <= k <= to <= v@.len(),
            mag == v@.subrange(start as int, to as int),
            s == v@.subrange(from as int, to as int),
            from <= start <= from + 1,
            start > from ==> (s[0] == '+' || s[0] == '-'),
            start == from ==> !(s[0] == '+' || s[0] == '-'),
            neg ==> start > from && s[0] == '-',
            !neg && start > from ==> s[0] == '+',
            s.len() > 0,
            spec_digits_ok(mag.take(k - start)),
            (if spec_digits_val(mag.take(k - start)) <= 0x8000000000000000 {
                acc == spec_digits_val(mag.take(k - start))
            } else {
                acc == 0x8000000000000001
            }),
            acc <= 0x8000000000000001,
        decreases to - k,
    {
        let c = v[k];
        let u = c as u32;
        if !(48 <= u && u <= 57) {
            proof {
                assert(mag[k - start] == v@[k as int]);
                assert(!spec_digits_ok(mag));
                if start > from {
                    assert(s.skip(1) =~= mag);
                } else {
                    assert(s =~= mag);
                }
            }
            return 0;
        }
        let d = (u - 48) as u128;
        if acc > 0x8000000000000000 {
            // already beyond the i64 range; stay capped
        } else {
            acc = acc * 10 + d;
            if acc > 0x8000000000000000 {
                acc = 0x8000000000000001;
            }
        }
        k += 1;
        proof {
            let p = mag.take(k - start);
            assert(p.drop_last() =~= mag.take(k - start - 1));
            assert(p.last() == mag[k - start - 1] == v@[k - 1]);
            if spec_digits_ok(p) {
                assert forall|i: int|
                    0 <= i < p.drop_last().len() implies 48 <= (#[trigger] p.drop_last()[i]) as u32
                    <= 57 by {
                    assert(p.drop_last()[i] == p[i]);
                }
                lemma_digits_val_nonneg(p.drop_last());
                assert(spec_digits_val(p) == spec_digits_val(p.drop_last()) * 10 + (u - 48));
            }
        }
    }
    proof {
        assert(mag.take(to - start) =~= mag);
        if start > from {
            assert(s.skip(1) =~= mag);
        } else {
            assert(s =~= mag);
        }
    }
    if !(acc <= 0x8000000000000000) {
        return 0;
    }
    if neg {
        proof {
            assert(s.skip(1) =~= mag);
        }
        if acc == 0x8000000000000000 {
            i64::MIN
        } else {
            -(acc as i64)
        }
    } else {
        proof {
            if start > from {
                assert(s.skip(1) =~= mag);
            } else {
                assert(s =~= mag);
            }
        }
        if acc == 0x8000000000000000 {
            0
        } else {
            acc as i64
        }
    }
}

/// Multiply a parsed value by a unit, clamped to the i64 range.
fn scale_clamped(value: i64, unit: i64) -> (r: i64)
    requires
        1 <= unit <= 0x40000000,
    ensures
        r as int == spec_clamp_i64(value * unit),
{
    proof {
        assert(value * unit <= 0x7fffffffffffffff * 0x40000000 && value * unit
            >= -0x8000000000000000 * 0x40000000) by (nonlinear_arith)
            requires
                -0x8000000000000000 <= value <= 0x7fffffffffffffff,
                1 <= unit <= 0x40000000,
        ;
    }
    let prod: i128 = (value as i128) * (unit as i128);
    if prod > i64::MAX as i128 {
        i64::MAX
    } else if prod < i64::MIN as i128 {
        i64::MIN
    } else {
        prod as i64
    }
}

/// Parse a memory string like "512m", "2g", "1024k" into bytes.
pub fn parse_memory(s: &str) -> (r: i64)
    ensures
        r as int == spec_parse_memory(s@),
{
    let v0 = crate::text::chars_vec(s);
    let n0 = v0.len();
    // trim both ends, then fold case
    let mut a: usize = 0;
    while a < n0 && crate::text::is_space(v0[a])
        invariant
            a <= n0,
            n0 == v0@.len(),
            crate::text::spec_space_end(v0@, 0) == crate::text::spec_space_end(v0@, a as int),
        decreases n0 - a,
    {
        a += 1;
    }
    proof {
        assert(crate::text::spec_space_end(v0@, a as int) == a as int);
    }
    let mut b: usize = n0;
    while b > a && crate::text::is_space(v0[b - 1])
        invariant
            a <= b <= n0,
            n0 == v0@.len(),
            crate::text::spec_space_end(v0@, 0) == a as int,
            crate::text::spec_rstrip_idx(v0@.skip(a as int), (n0 - a) as int) == crate::text::spec_rstrip_idx(
                v0@.skip(a as int),
                (b - a) as int,
            ),
        decreases b,
    {
        proof {
            assert(v0@.skip(a as int)[b - a - 1] == v0@[b - 1]);
        }
        b -= 1;
    }
    proof {
        if b > a {
            assert(v0@.skip(a as int)[b - a - 1] == v0@[b - 1]);
        }
        assert(crate::text::spec_rstrip_idx(v0@.skip(a as int), (b - a) as int) == (b - a) as int);
    }
    let mut t: Vec<char> = Vec::new();
    let mut k = a;
    while k < b
        invariant
            a <= k <= b <= n0,
            n0 == v0@.len(),
            t@ =~= crate::text::spec_lower_seq(
                v0@.skip(a as int).take((b - a) as int),
            ).take((k - a) as int),
        decreases b - k,
    {
        t.push(crate::text::lower_char(v0[k]));
        k += 1;
        proof {
            let base = crate::text::spec_lower_seq(v0@.skip(a as int).take((b - a) as int));
            assert(v0@.skip(a as int).take((b - a) as int)[k - a - 1] == v0@[k - 1]);
            assert(t@ =~= base.take((k - a) as int));
        }
    }
    proof {
        let base = crate::text::spec_lower_seq(v0@.skip(a as int).take((b - a) as int));
        assert(t@ =~= base);
        assert(t@ == spec_trim_lower(s@));
    }
    let n = t.len();
    if n == 0 {
        return 0;
    }
    let last = t[n - 1];
    let lu = last as u32;
    proof {
        assert(t@.last() == t@[n - 1]);
        assert(t@.drop_last() =~= t@.subrange(0, n - 1));
        assert(t@ =~= t@.subrange(0, n as int));
    }
    if lu == 103 {
        proof {
            vstd::utf8::char_u32_cast(last, 103);
            vstd::utf8::char_u32_cast('g', 'g' as u32);
            assert(last == 'g');
        }
        let value = parse_i64_range(&t, 0, n - 1);
        scale_clamped(value, 0x40000000)
    } else if lu == 109 {
        proof {
            vstd::utf8::char_u32_cast(last, 109);
            vstd::utf8::char_u32_cast('m', 'm' as u32);
            assert(last == 'm');
        }
        let value = parse_i64_range(&t, 0, n - 1);
        scale_clamped(value, 0x100000)
    } else if lu == 107 {
        proof {
            vstd::utf8::char_u32_cast(last, 107);
            vstd::utf8::char_u32_cast('k', 'k' as u32);
            assert(last == 'k');
        }
        let value = parse_i64_range(&t, 0, n - 1);
        scale_clamped(value, 0x400)
    } else {
        parse_i64_range(&t, 0, n)
    }
}

/// Build the engine-facing configuration from the loaded configuration:
/// memory strings become bytes, whole cores become nano-CPUs, and the
/// data directory is the configured one with `~` expanded.
pub fn build_docker_config(cfg: &crate::config::Config) -> (r: DockerConfig)
    ensures
        r.image@ == cfg.docker.image@,
        r.container_prefix@ == cfg.docker.container_prefix@,
        r.limits.memory as int == spec_parse_memory(cfg.docker.limits.memory@),
        r.limits.admin_memory as int == spec_parse_memory(cfg.docker.limits.admin_memory@),
        r.limits.cpus == cfg.docker.limits.cpus * 1000000000,
        r.limits.admin_cpus == cfg.docker.limits.admin_cpus * 1000000000,
        r.limits.pids == cfg.docker.limits.pids,
        r.limits.tmp_size@ == cfg.docker.limits.tmp_size@,
        r.network.admin@ == cfg.docker.network.admin@,
        r.network.trusted@ == cfg.docker.network.trusted@,
        r.network.normal@ == cfg.docker.network.normal@,
{
    let data_dir = cfg.docker.expanded_data_dir();
    DockerConfig {
        image: cfg.docker.image.clone(),
        container_prefix: cfg.docker.container_prefix.clone(),
        data_dir,
        limits: DockerLimits {
            memory: parse_memory(cfg.docker.limits.memory.as_str()),
            admin_memory: parse_memory(cfg.docker.limits.admin_memory.as_str()),
            cpus: cpus_to_nanocpus(cfg.docker.limits.cpus),
            admin_cpus: cpus_to_nanocpus(cfg.docker.limits.admin_cpus),
            pids: cfg.docker.limits.pids as i64,
            tmp_size: cfg.docker.limits.tmp_size.clone(),
        },
        network: DockerNetworkConfig {
            admin: cfg.docker.network.admin.clone(),
            trusted: cfg.docker.network.trusted.clone(),
            normal: cfg.docker.network.normal.clone(),
        },
    }
}

} // verus!
