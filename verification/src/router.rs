//! The authorization and command router: resolves an identity's
//! effective tier, enforces per-command minimum tiers and rate budgets,
//! applies the content security filter, and either answers directly or
//! hands the message on for execution.
//!
//! Engine-touching commands return an action or query value; the engine
//! consumer performs it and, for queries, asks the router to render the
//! reply from the report.

use vstd::prelude::*;
use vstd::string::{StringExecFns, StringSliceAdditionalSpecFns};
use crate::executor::AgentExecutor;
use crate::config::Config;
use crate::permission::{parse_permission, spec_parse_permission, spec_perm_level, perm_level, Permission};
use crate::store::{ov, ovs, spec_friends_matching, spec_upserted_friend, spec_minute_of, spec_day_of, spec_rate_count, spec_day_total, spec_has_window, spec_window_idx, spec_next_audit_id, Friend, FriendV, AuditEntry, RateWindowV};
use crate::text::{str_eq, lower_string, spec_lower_seq, split_whitespace_vec, join_space, spec_split_ws, truncate_str};

verus! {

/// A contact (sender of a message).
pub struct Contact {
    pub wxid: String,
    pub nickname: String,
    pub remark_name: String,
}

/// The name a contact is shown under: remark name, else display name,
/// else the identity.
pub open spec fn spec_contact_display(c: &Contact) -> Seq<char> {
    if c.remark_name@.len() > 0 {
        c.remark_name@
    } else if c.nickname@.len() > 0 {
        c.nickname@
    } else {
        c.wxid@
    }
}

/// Display name for a Contact: remark_name > nickname > wxid.
pub fn display_name(contact: &Contact) -> (r: &str)
    ensures
        r@ == spec_contact_display(contact),
{
    if !contact.remark_name.as_str().is_empty() {
        contact.remark_name.as_str()
    } else if !contact.nickname.as_str().is_empty() {
        contact.nickname.as_str()
    } else {
        contact.wxid.as_str()
    }
}

/// Engine work a command asks for, fire-and-forget: the reply does not
/// depend on its outcome.
pub enum EngineAction {
    /// Gracefully stop the identity's container.
    Stop(String),
    /// Force-remove the identity's container (volumes kept).
    Destroy(String),
    /// Destroy and re-create the identity's container at this tier.
    Rebuild(String, Permission),
}

/// Engine work whose report the reply is rendered from.
pub enum EngineQuery {
    /// Container name, liveness, stats and disk usage for one identity.
    Status(String),
    /// Kill the running agent process of one identity; the display name
    /// rides along for the reply.
    Kill(String, String),
    /// List all managed containers.
    Containers,
    /// Stop every managed container.
    StopAll,
}

/// What handling one inbound message decides.
pub enum RouteOutcome {
    /// Say nothing.
    NoReply,
    /// Answer with this text.
    Reply(String),
    /// Answer with this text, and also perform the engine work.
    ReplyWithAction(String, EngineAction),
    /// Perform the engine work and render the reply from its report.
    Query(EngineQuery),
    /// Forward to the execution dispatcher.
    Execute(ExecRequest),
}

/// A free-text message bound for the dispatcher.
pub struct ExecRequest {
    pub wxid: String,
    pub friend: Friend,
    pub message: String,
}

/// Relies on regex::Regex::new and Regex::is_match: whether the pattern
/// compiles, and whether it matches the text, are pure functions of the
/// pattern and the text.
pub uninterp spec fn regex_match(pattern: Seq<char>, text: Seq<char>) -> Option<bool>;

/// Relies on regex::Regex::new and Regex::is_match, named by
/// `regex_match`; `None` stands for a pattern that does not compile.
#[verifier::external_body]
fn regex_is_match(pattern: &str, text: &str) -> (r: Option<bool>)
    ensures
        r == regex_match(pattern@, text@),
{
    match regex::Regex::new(pattern) {
        Ok(re) => Some(re.is_match(text)),
        Err(_) => None,
    }
}

/// A configured pattern, compiled case-insensitively, matches the text.
pub open spec fn spec_pattern_hits(pattern: Seq<char>, text: Seq<char>) -> bool {
    regex_match("(?i)"@ + pattern, text) == Some(true)
}

/// The stored tier that governs an identity: the configured admin is
/// always "admin"; otherwise the registered tier, or the configured
/// default for an unregistered identity.
pub open spec fn spec_effective_permission(
    friends: Seq<FriendV>,
    admin: Seq<char>,
    default_level: Seq<char>,
    wxid: Seq<char>,
) -> Seq<char> {
    if wxid == admin {
        "admin"@
    } else if exists|i: int| 0 <= i < friends.len() && (#[trigger] friends[i]).wxid == wxid {
        friends[choose|i: int| 0 <= i < friends.len() && (#[trigger] friends[i]).wxid == wxid].permission
    } else {
        default_level
    }
}

/// The remark name a contact carries, when one is set.
pub open spec fn spec_contact_remark(c: &Contact) -> Option<Seq<char>> {
    if c.remark_name@.len() == 0 {
        None
    } else {
        Some(c.remark_name@)
    }
}

/// What registering a contact leaves in the friends table: first
/// contact inserts a record at the default (or admin) tier; later
/// contacts refresh the display names and never touch the tier; an
/// invalid default tier inserts nothing.
pub open spec fn spec_registered_friends(
    friends: Seq<FriendV>,
    c: &Contact,
    admin: Seq<char>,
    default_level: Seq<char>,
    now: i64,
) -> Seq<FriendV> {
    if exists|i: int| 0 <= i < friends.len() && (#[trigger] friends[i]).wxid == c.wxid@ {
        let i = choose|i: int| 0 <= i < friends.len() && (#[trigger] friends[i]).wxid == c.wxid@;
        let f = friends[i];
        if f.nickname == Some(c.nickname@) && f.remark_name == spec_contact_remark(c) {
            friends
        } else {
            friends.update(
                i,
                crate::store::spec_upserted_friend(
                    f,
                    Some(c.nickname@),
                    spec_contact_remark(c),
                    None,
                    None,
                ),
            )
        }
    } else {
        let tier = if c.wxid@ == admin {
            "admin"@
        } else {
            default_level
        };
        if crate::store::spec_valid_tier(tier) {
            friends.push(
                crate::store::spec_inserted_friend(
                    c.wxid@,
                    Some(c.nickname@),
                    spec_contact_remark(c),
                    Some(tier),
                    None,
                    None,
                    now,
                ),
            )
        } else {
            friends
        }
    }
}

/// The authorization and command router.
pub struct MessageRouter {
    pub executor: AgentExecutor,
    pub admin_wxid: String,
    pub default_level: String,
    pub notify_unauthorized: bool,
    pub unauthorized_message: String,
    pub max_per_minute: i64,
    pub max_per_day: i64,
    pub blocked_patterns: Vec<String>,
    pub log_message_content: bool,
}

impl MessageRouter {
    pub open spec fn wf(self) -> bool {
        self.executor.wf()
    }

    /// The configuration values the router carries, for stating that a
    /// call leaves them alone.
    pub open spec fn same_config(pre: MessageRouter, post: MessageRouter) -> bool {
        &&& post.admin_wxid == pre.admin_wxid
        &&& post.default_level == pre.default_level
        &&& post.notify_unauthorized == pre.notify_unauthorized
        &&& post.unauthorized_message == pre.unauthorized_message
        &&& post.max_per_minute == pre.max_per_minute
        &&& post.max_per_day == pre.max_per_day
        &&& post.blocked_patterns == pre.blocked_patterns
        &&& post.log_message_content == pre.log_message_content
        &&& post.executor.session_expire_minutes == pre.executor.session_expire_minutes
        &&& post.executor.timeout == pre.executor.timeout
    }

    pub fn new(executor: AgentExecutor, admin_wxid: String, config: &Config) -> (r: MessageRouter)
        requires
            executor.wf(),
        ensures
            r.wf(),
            r.executor == executor,
            r.admin_wxid == admin_wxid,
            r.default_level@ == config.permissions.default_level@,
            r.notify_unauthorized == config.permissions.notify_unauthorized,
            r.unauthorized_message@ == config.permissions.unauthorized_message@,
            r.max_per_minute == config.rate_limit.max_per_minute,
            r.max_per_day == config.rate_limit.max_per_day,
            r.blocked_patterns@.map_values(|p: String| p@)
                =~= config.security.blocked_patterns@.map_values(|p: String| p@),
            r.log_message_content == config.logging.log_message_content,
    {
        let n = config.security.blocked_patterns.len();
        let mut patterns: Vec<String> = Vec::new();
        let mut k: usize = 0;
        while k < n
            invariant
                n == config.security.blocked_patterns@.len(),
                k <= n,
                patterns@.len() == k as int,
                forall|i: int|
                    0 <= i < k ==> (#[trigger] patterns@[i])@
                        == config.security.blocked_patterns@[i]@,
            decreases n - k,
        {
            patterns.push(config.security.blocked_patterns[k].clone());
            k += 1;
        }
        proof {
            assert(patterns@.map_values(|p: String| p@)
                =~= config.security.blocked_patterns@.map_values(|p: String| p@));
        }
        MessageRouter {
            executor,
            admin_wxid,
            default_level: config.permissions.default_level.clone(),
            notify_unauthorized: config.permissions.notify_unauthorized,
            unauthorized_message: config.permissions.unauthorized_message.clone(),
            max_per_minute: config.rate_limit.max_per_minute as i64,
            max_per_day: config.rate_limit.max_per_day as i64,
            blocked_patterns: patterns,
            log_message_content: config.logging.log_message_content,
        }
    }

    /// The tier governing this identity right now.
    fn get_effective_permission(&self, wxid: &str) -> (r: String)
        requires
            self.wf(),
        ensures
            r@ == spec_effective_permission(
                self.executor.db@.friends,
                self.admin_wxid@,
                self.default_level@,
                wxid@,
            ),
    {
        if str_eq(wxid, self.admin_wxid.as_str()) {
            return String::from_str("admin");
        }
        match self.executor.db.friend_get_permission(wxid) {
            Some(p) => {
                proof {
                    let friends = self.executor.db@.friends;
                    let i = choose|i: int|
                        0 <= i < friends.len() && (#[trigger] friends[i]).wxid == wxid@ && p@
                            == friends[i].permission;
                    let j = choose|j: int|
                        0 <= j < friends.len() && (#[trigger] friends[j]).wxid == wxid@;
                    assert(friends[i].wxid == wxid@);
                    self.executor.db.lemma_friends_unique(i, j);
                }
                p
            },
            None => self.default_level.clone(),
        }
    }

    /// First contact auto-registers the identity (at the default tier,
    /// or admin for the configured admin identity); later contacts keep
    /// the display names fresh and never touch the tier.
    fn ensure_friend_registered(&mut self, contact: &Contact, now: i64)
        requires
            old(self).wf(),
        ensures
            final(self).wf(),
            MessageRouter::same_config(*old(self), *final(self)),
            final(self).executor.db@.sessions == old(self).executor.db@.sessions,
            final(self).executor.db@.audit == old(self).executor.db@.audit,
            final(self).executor.db@.rate == old(self).executor.db@.rate,
            final(self).executor.active_tasks == old(self).executor.active_tasks,
            final(self).executor.db@.friends =~= spec_registered_friends(
                old(self).executor.db@.friends,
                contact,
                old(self).admin_wxid@,
                old(self).default_level@,
                now,
            ),
            // registration never moves the tier that governs the sender
            spec_effective_permission(
                final(self).executor.db@.friends,
                final(self).admin_wxid@,
                final(self).default_level@,
                contact.wxid@,
            ) == spec_effective_permission(
                old(self).executor.db@.friends,
                old(self).admin_wxid@,
                old(self).default_level@,
                contact.wxid@,
            ),
    {
        let remark: Option<&str> = if contact.remark_name.as_str().is_empty() {
            None
        } else {
            Some(contact.remark_name.as_str())
        };
        match self.executor.db.friend_get(&contact.wxid.as_str()) {
            Some(existing) => {
                let nick_changed = match &existing.nickname {
                    Some(n) => !str_eq(n.as_str(), contact.nickname.as_str()),
                    None => true,
                };
                let remark_changed = match (&existing.remark_name, remark) {
                    (Some(a), Some(b)) => !str_eq(a.as_str(), b),
                    (None, None) => false,
                    _ => true,
                };
                if nick_changed || remark_changed {
                    let _ = self.executor.db.friend_upsert(
                        contact.wxid.as_str(),
                        Some(contact.nickname.as_str()),
                        remark,
                        None,
                        None,
                        None,
                        now,
                    );
                }
                proof {
                    let pre = old(self).executor.db@.friends;
                    let post = self.executor.db@.friends;
                    let id = contact.wxid@;
                    let rv = spec_contact_remark(contact);
                    let ifound = choose|i: int|
                        0 <= i < pre.len() && #[trigger] pre[i].wxid == id && existing@ == pre[i];
                    let isp = choose|i: int|
                        0 <= i < pre.len() && (#[trigger] pre[i]).wxid == id;
                    old(self).executor.db.lemma_friends_unique(ifound, isp);
                    assert(pre[isp] == existing@);
                    if nick_changed || remark_changed {
                        assert(!(pre[isp].nickname == Some(contact.nickname@) && pre[isp].remark_name
                            == rv));
                        let u = choose|u: int|
                            0 <= u < pre.len() && (#[trigger] pre[u]).wxid == id && post
                                =~= pre.update(
                                u,
                                spec_upserted_friend(
                                    pre[u],
                                    Some(contact.nickname@),
                                    rv,
                                    None,
                                    None,
                                ),
                            );
                        old(self).executor.db.lemma_friends_unique(isp, u);
                    } else {
                        assert(pre[isp].nickname == Some(contact.nickname@) && pre[isp].remark_name
                            == rv);
                    }
                    assert(post =~= spec_registered_friends(
                        pre,
                        contact,
                        old(self).admin_wxid@,
                        old(self).default_level@,
                        now,
                    ));
                }
            },
            None => {
                let perm: &str = if str_eq(contact.wxid.as_str(), self.admin_wxid.as_str()) {
                    "admin"
                } else {
                    self.default_level.as_str()
                };
                let _ = self.executor.db.friend_upsert(
                    contact.wxid.as_str(),
                    Some(contact.nickname.as_str()),
                    remark,
                    Some(perm),
                    None,
                    None,
                    now,
                );
                proof {
                    let pre = old(self).executor.db@.friends;
                    let post = self.executor.db@.friends;
                    let id = contact.wxid@;
                    let tier = if id == old(self).admin_wxid@ {
                        "admin"@
                    } else {
                        old(self).default_level@
                    };
                    assert(perm@ == tier);
                    assert(post =~= spec_registered_friends(
                        pre,
                        contact,
                        old(self).admin_wxid@,
                        old(self).default_level@,
                        now,
                    ));
                }
            },
        }
        proof {
            let pre = old(self).executor.db@.friends;
            let post = self.executor.db@.friends;
            let admin = self.admin_wxid@;
            let dl = self.default_level@;
            let id = contact.wxid@;
            if id != admin {
                if exists|i: int| 0 <= i < pre.len() && (#[trigger] pre[i]).wxid == id {
                    let i = choose|i: int| 0 <= i < pre.len() && (#[trigger] pre[i]).wxid == id;
                    if post != pre {
                        // the update kept the tier in place
                        let rv: Option<Seq<char>> = if contact.remark_name@.len() == 0 {
                            None
                        } else {
                            Some(contact.remark_name@)
                        };
                        let u = choose|u: int|
                            0 <= u < pre.len() && (#[trigger] pre[u]).wxid == id && post
                                =~= pre.update(
                                u,
                                spec_upserted_friend(
                                    pre[u],
                                    Some(contact.nickname@),
                                    rv,
                                    None,
                                    None,
                                ),
                            );
                        old(self).executor.db.lemma_friends_unique(i, u);
                        assert(post[u].wxid == id && post[u].permission == pre[i].permission);
                        let j2 = choose|j2: int|
                            0 <= j2 < post.len() && (#[trigger] post[j2]).wxid == id;
                        self.executor.db.lemma_friends_unique(j2, u);
                    } else {
                        let j2 = choose|j2: int|
                            0 <= j2 < post.len() && (#[trigger] post[j2]).wxid == id;
                        self.executor.db.lemma_friends_unique(j2, i);
                    }
                } else {
                    // first contact: inserted at the default tier (the
                    // admin case is handled above), or left absent when
                    // the configured default tier is not a valid tier
                    if post != pre {
                        assert(post[post.len() - 1].wxid == id && post[post.len()
                            - 1].permission == dl);
                        let j2 = choose|j2: int|
                            0 <= j2 < post.len() && (#[trigger] post[j2]).wxid == id;
                        self.executor.db.lemma_friends_unique(j2, post.len() - 1);
                    }
                }
            }
        }
    }

    /// The content security filter: an Admin identity always passes; any
    /// other tier is refused as soon as one configured pattern matches
    /// the message (patterns are applied case-insensitively).
    pub fn security_check(&self, message: &str, permission: &str) -> (r: Option<String>)
        ensures
            permission@ == "admin"@ ==> r is None,
            permission@ != "admin"@ ==> ((r is Some) <==> exists|i: int|
                0 <= i < self.blocked_patterns@.len() && spec_pattern_hits(
                    (#[trigger] self.blocked_patterns@[i])@,
                    message@,
                )),
            r is Some ==> (r matches Some(m) && m@ == "Message contains a disallowed operation"@),
    {
        if str_eq(permission, "admin") {
            return None;
        }
        let n = self.blocked_patterns.len();
        let mut k: usize = 0;
        while k < n
            invariant
                n == self.blocked_patterns@.len(),
                k <= n,
                permission@ != "admin"@,
                forall|i: int|
                    0 <= i < k ==> !spec_pattern_hits(
                        (#[trigger] self.blocked_patterns@[i])@,
                        message@,
                    ),
            decreases n - k,
        {
            let mut pat = String::from_str("(?i)");
            pat.append(self.blocked_patterns[k].as_str());
            let hit = regex_is_match(pat.as_str(), message);
            match hit {
                Some(true) => {
                    proof {
                        assert(spec_pattern_hits(self.blocked_patterns@[k as int]@, message@));
                    }
                    return Some(String::from_str("Message contains a disallowed operation"));
                },
                _ => {},
            }
            k += 1;
        }
        None
    }
}

/// The minimum tier level a command requires: 1 for user commands, 3
/// for administrative ones, 0 for text that is no command at all.
pub open spec fn spec_command_min_level(cmd: Seq<char>) -> u8 {
    if cmd == "/help"@ || cmd == "/status"@ || cmd == "/clear"@ {
        1
    } else if cmd == "/allow"@ || cmd == "/block"@ || cmd == "/list"@ || cmd == "/logs"@ || cmd
        == "/kill"@ || cmd == "/containers"@ || cmd == "/restart"@ || cmd == "/destroy"@ || cmd
        == "/rebuild"@ || cmd == "/stopall"@ {
        3
    } else {
        0
    }
}

/// The minimum tier level required by a command name.
pub fn command_min_level(cmd: &str) -> (r: u8)
    ensures
        r == spec_command_min_level(cmd@),
{
    if str_eq(cmd, "/help") || str_eq(cmd, "/status") || str_eq(cmd, "/clear") {
        1
    } else if str_eq(cmd, "/allow") || str_eq(cmd, "/block") || str_eq(cmd, "/list") || str_eq(
        cmd,
        "/logs",
    ) || str_eq(cmd, "/kill") || str_eq(cmd, "/containers") || str_eq(cmd, "/restart") || str_eq(
        cmd,
        "/destroy",
    ) || str_eq(cmd, "/rebuild") || str_eq(cmd, "/stopall") {
        3
    } else {
        0
    }
}

/// The display name recorded for a friend, or the placeholder.
pub open spec fn spec_nick_or_query(f: FriendV) -> Seq<char> {
    match f.nickname {
        Some(n) => n,
        None => "?"@,
    }
}

fn nick_or_query(f: &Friend) -> (r: &str)
    ensures
        r@ == spec_nick_or_query(f@),
{
    match &f.nickname {
        Some(n) => n.as_str(),
        None => "?",
    }
}

/// One "name(id)" line of a multiple-match reply.
pub open spec fn spec_candidate_line(f: FriendV) -> Seq<char> {
    spec_nick_or_query(f) + "("@ + f.wxid + ")"@
}

/// The first `k` candidate lines of a multiple-match reply, separated
/// by line breaks.
pub open spec fn spec_candidate_lines(ms: Seq<FriendV>, k: int) -> Seq<char>
    decreases k,
    when 0 <= k <= ms.len()
{
    if k <= 0 {
        Seq::empty()
    } else if k == 1 {
        spec_candidate_line(ms[0])
    } else {
        spec_candidate_lines(ms, k - 1) + "\n"@ + spec_candidate_line(ms[k - 1])
    }
}

impl MessageRouter {
    /// The help text for a tier level: administrative tiers see the
    /// whole table, others the user commands; the table is listed in
    /// name order.
    pub open spec fn spec_help_text(level: u8) -> Seq<char> {
        if level >= 3 {
            "\u{1F4D6} Available commands:\n\n/allow - Authorize a friend: /allow name [trusted|normal]\n/block - Block a friend: /block name\n/clear - Clear session history\n/containers - Show all container status\n/destroy - Destroy a container (data kept): /destroy name\n/help - Show help\n/kill - Kill a friend's process: /kill name\n/list - List all authorized friends\n/logs - View logs: /logs [name]\n/rebuild - Rebuild a container: /rebuild name\n/restart - Restart a container: /restart name\n/status - Show status (with container info)\n/stopall - Stop all containers\n\nSend any text message to chat with the agent"@
        } else {
            "\u{1F4D6} Available commands:\n\n/clear - Clear session history\n/help - Show help\n/status - Show status (with container info)\n\nSend any text message to chat with the agent"@
        }
    }

    fn cmd_help(&self, permission: &str) -> (r: String)
        ensures
            r@ == MessageRouter::spec_help_text(spec_perm_level(permission@)),
    {
        if perm_level(permission) >= 3 {
            String::from_str(
                "\u{1F4D6} Available commands:\n\n/allow - Authorize a friend: /allow name [trusted|normal]\n/block - Block a friend: /block name\n/clear - Clear session history\n/containers - Show all container status\n/destroy - Destroy a container (data kept): /destroy name\n/help - Show help\n/kill - Kill a friend's process: /kill name\n/list - List all authorized friends\n/logs - View logs: /logs [name]\n/rebuild - Rebuild a container: /rebuild name\n/restart - Restart a container: /restart name\n/status - Show status (with container info)\n/stopall - Stop all containers\n\nSend any text message to chat with the agent",
            )
        } else {
            String::from_str(
                "\u{1F4D6} Available commands:\n\n/clear - Clear session history\n/help - Show help\n/status - Show status (with container info)\n\nSend any text message to chat with the agent",
            )
        }
    }

    fn cmd_clear(&mut self, wxid: &str) -> (r: String)
        requires
            old(self).wf(),
        ensures
            final(self).wf(),
            MessageRouter::same_config(*old(self), *final(self)),
            final(self).executor.db@.friends == old(self).executor.db@.friends,
            final(self).executor.db@.audit == old(self).executor.db@.audit,
            final(self).executor.db@.rate == old(self).executor.db@.rate,
            final(self).executor.db@.sessions =~= crate::store::spec_sessions_without(
                old(self).executor.db@.sessions,
                wxid@,
            ),
            r@ == "\u{2705} Session cleared; the next message starts a fresh context"@,
    {
        self.executor.clear_session(wxid);
        String::from_str("\u{2705} Session cleared; the next message starts a fresh context")
    }

    /// Change a friend's tier by display-name search. Exactly one match
    /// is required: zero or several matches change nothing and say so.
    pub fn cmd_allow(&mut self, args: &str, now: i64) -> (r: String)
        requires
            old(self).wf(),
        ensures
            final(self).wf(),
            MessageRouter::same_config(*old(self), *final(self)),
            final(self).executor.db@.sessions == old(self).executor.db@.sessions,
            final(self).executor.db@.audit == old(self).executor.db@.audit,
            final(self).executor.db@.rate == old(self).executor.db@.rate,
            ({
                let words = spec_split_ws(args@);
                let friends = old(self).executor.db@.friends;
                if args@.len() == 0 {
                    &&& r@ == "Usage: /allow name [trusted|normal]"@
                    &&& final(self).executor.db@ == old(self).executor.db@
                } else if words.len() == 0 {
                    final(self).executor.db@ == old(self).executor.db@
                } else {
                    let search = words[0];
                    let level = if words.len() > 1 {
                        words[1]
                    } else {
                        "trusted"@
                    };
                    if !(level == "trusted"@ || level == "normal"@ || level == "admin"@) {
                        &&& r@
                            == "\u{274C} Invalid permission level; choose one of: trusted, normal, admin"@
                        &&& final(self).executor.db@ == old(self).executor.db@
                    } else {
                        let ms = spec_friends_matching(friends, search);
                        if ms.len() == 0 {
                            &&& r@ == "\u{274C} Not found \""@ + search
                                + "\"; that friend must send a message first"@
                            &&& final(self).executor.db@ == old(self).executor.db@
                        } else if ms.len() > 1 {
                            &&& r@ == "Multiple matches:\n"@ + spec_candidate_lines(
                                ms,
                                ms.len() as int,
                            ) + "\nPlease be more specific"@
                            &&& final(self).executor.db@ == old(self).executor.db@
                        } else {
                            &&& r@ == "\u{2705} "@ + spec_nick_or_query(ms[0]) + " \u{2192} "@
                                + level
                            &&& (exists|i: int|
                                0 <= i < friends.len() && #[trigger] friends[i].wxid
                                    == ms[0].wxid && final(self).executor.db@.friends
                                    =~= friends.update(
                                    i,
                                    FriendV { permission: level, ..friends[i] },
                                ))
                        }
                    }
                }
            }),
    {
        if args.is_empty() {
            return String::from_str("Usage: /allow name [trusted|normal]");
        }
        let parts = split_whitespace_vec(args);
        if parts.len() == 0 {
            return String::from_str("Usage: /allow name [trusted|normal]");
        }
        let search = parts[0].as_str();
        let level: &str = if parts.len() > 1 {
            parts[1].as_str()
        } else {
            "trusted"
        };
        if !(str_eq(level, "trusted") || str_eq(level, "normal") || str_eq(level, "admin")) {
            return String::from_str(
                "\u{274C} Invalid permission level; choose one of: trusted, normal, admin",
            );
        }
        let matches = self.executor.db.friend_find_by_nickname(search);
        if matches.len() == 0 {
            let mut msg = String::from_str("\u{274C} Not found \"");
            msg.append(search);
            msg.append("\"; that friend must send a message first");
            return msg;
        }
        if matches.len() > 1 {
            let mut msg = String::from_str("Multiple matches:\n");
            let n = matches.len();
            let mut k: usize = 0;
            let ghost ms = matches@.map_values(|f: Friend| f@);
            while k < n
                invariant
                    n == matches@.len(),
                    k <= n,
                    ms == matches@.map_values(|f: Friend| f@),
                    ms.len() == n,
                    msg@ =~= "Multiple matches:\n"@ + spec_candidate_lines(ms, k as int),
                decreases n - k,
            {
                if k > 0 {
                    msg.append("\n");
                }
                msg.append(nick_or_query(&matches[k]));
                msg.append("(");
                msg.append(matches[k].wxid.as_str());
                msg.append(")");
                k += 1;
                proof {
                    assert(ms[k - 1] == matches@[k - 1]@);
                    if k == 1 {
                        assert(spec_candidate_lines(ms, 1) =~= spec_candidate_line(ms[0]));
                    }
                    assert(msg@ =~= "Multiple matches:\n"@ + spec_candidate_lines(ms, k as int));
                }
            }
            msg.append("\nPlease be more specific");
            return msg;
        }
        let target = &matches[0];
        proof {
            let friends = old(self).executor.db@.friends;
            let ms = matches@.map_values(|f: Friend| f@);
            crate::store::lemma_matching_member(friends, parts@.map_values(|w: String| w@)[0], 0);
        }
        let _ = self.executor.db.friend_set_permission(target.wxid.as_str(), level);
        let mut msg = String::from_str("\u{2705} ");
        msg.append(nick_or_query(target));
        msg.append(" \u{2192} ");
        msg.append(level);
        msg
    }
}

/// The clip of a text to at most `max` bytes, cut at a character
/// boundary.
pub open spec fn spec_clip_bytes(m: Seq<char>, max: int) -> Seq<char> {
    vstd::utf8::decode_utf8(
        vstd::utf8::encode_utf8(m).subrange(
            0,
            crate::text::spec_truncate_len(vstd::utf8::encode_utf8(m), max),
        ),
    )
}

/// The 60-byte clip of a log message, cut at a character boundary.
pub open spec fn spec_clip60(m: Seq<char>) -> Seq<char> {
    spec_clip_bytes(m, 60)
}

/// One rendered audit line: direction marker, timestamp, name, and the
/// message clipped to 60 bytes.
pub open spec fn spec_log_line(a: AuditEntryV) -> Seq<char> {
    (if a.direction == "in"@ {
        "\u{1F4E9}"@
    } else {
        "\u{1F4E4}"@
    }) + " ["@ + crate::text::spec_digits(
        if a.timestamp < 0 {
            0
        } else {
            a.timestamp as int
        },
    ) + "] "@ + (match a.nickname {
        Some(n) => n,
        None => Seq::empty(),
    }) + ": "@ + spec_clip60(
        match a.message {
            Some(m) => m,
            None => Seq::empty(),
        },
    )

}

/// The first `k` rendered audit lines, separated by line breaks.
pub open spec fn spec_log_lines(logs: Seq<AuditEntryV>, k: int) -> Seq<char>
    decreases k,
    when 0 <= k <= logs.len()
{
    if k <= 0 {
        Seq::empty()
    } else if k == 1 {
        spec_log_line(logs[0])
    } else {
        spec_log_lines(logs, k - 1) + "\n"@ + spec_log_line(logs[k - 1])
    }
}

use crate::store::AuditEntryV;

/// Render audit entries for display, one line per entry.
#[verifier::rlimit(100)]
pub fn format_logs(logs: &Vec<AuditEntry>) -> (r: String)
    ensures
        logs@.len() == 0 ==> r@ == "No logs yet"@,
        logs@.len() > 0 ==> r@ == spec_log_lines(
            logs@.map_values(|a: AuditEntry| a@),
            logs@.len() as int,
        ),
{
    let n = logs.len();
    if n == 0 {
        return String::from_str("No logs yet");
    }
    let ghost lv = logs@.map_values(|a: AuditEntry| a@);
    let mut out = String::new();
    let mut k: usize = 0;
    while k < n
        invariant
            n == logs@.len(),
            k <= n,
            lv == logs@.map_values(|a: AuditEntry| a@),
            lv.len() == n,
            out@ =~= spec_log_lines(lv, k as int),
        decreases n - k,
    {
        if k > 0 {
            out.append("\n");
        }
        let entry = &logs[k];
        if str_eq(entry.direction.as_str(), "in") {
            out.append("\u{1F4E9}");
        } else {
            out.append("\u{1F4E4}");
        }
        out.append(" [");
        let ts: u64 = if entry.timestamp < 0 {
            0
        } else {
            entry.timestamp as u64
        };
        let digits = crate::text::u64_to_string(ts);
        out.append(digits.as_str());
        out.append("] ");
        match &entry.nickname {
            Some(nick) => out.append(nick.as_str()),
            None => {},
        }
        out.append(": ");
        let msg: &str = match &entry.message {
            Some(m) => m.as_str(),
            None => "",
        };
        let clipped = truncate_str(msg, 60);
        out.append(clipped);
        proof {
            reveal_strlit("");
            assert(lv[k as int] == logs@[k as int]@);
            assert(clipped@ == spec_clip60(
                match lv[k as int].message {
                    Some(m) => m,
                    None => Seq::<char>::empty(),
                },
            )) by {
                vstd::utf8::encode_utf8_valid_utf8(msg@);
                vstd::utf8::encode_utf8_decode_utf8(clipped@);
                assert(clipped@ == vstd::utf8::decode_utf8(clipped.spec_bytes()));
            }
        }
        k += 1;
        proof {
            if k == 1 {
                assert(spec_log_lines(lv, 1) =~= spec_log_line(lv[0]));
            }
            assert(out@ =~= spec_log_lines(lv, k as int));
        }
    }
    out
}

impl MessageRouter {
    /// Find the single friend a search names; the replies for the empty
    /// and no-match cases carry the search text.
    fn find_target(&self, args: &str, usage: &str) -> (r: Result<Friend, String>)
        ensures
            match r {
                Ok(f) => spec_friends_matching(self.executor.db@.friends, spec_split_ws(args@)[0]).len()
                    > 0 && f@ == spec_friends_matching(
                    self.executor.db@.friends,
                    spec_split_ws(args@)[0],
                )[0],
                Err(m) => ({
                    ||| m@ == usage@
                    ||| m@ == "\u{274C} Not found \""@ + args@ + "\""@
                }),
            },
    {
        if args.is_empty() {
            return Err(String::from_str(usage));
        }
        let parts = split_whitespace_vec(args);
        if parts.len() == 0 {
            return Err(String::from_str(usage));
        }
        let matches = self.executor.db.friend_find_by_nickname(parts[0].as_str());
        if matches.len() == 0 {
            let mut msg = String::from_str("\u{274C} Not found \"");
            msg.append(args);
            msg.append("\"");
            return Err(msg);
        }
        proof {
            assert(matches@.map_values(|f: Friend| f@)[0] == matches@[0]@);
        }
        let target = clone_friend_pub(&matches[0]);
        Ok(target)
    }

    /// Block a friend: their tier becomes "blocked", their sessions and
    /// in-flight marker are dropped, and their container is destroyed.
    fn cmd_block(&mut self, args: &str, now: i64) -> (r: RouteOutcome)
        requires
            old(self).wf(),
        ensures
            final(self).wf(),
            MessageRouter::same_config(*old(self), *final(self)),
            final(self).executor.db@.audit == old(self).executor.db@.audit,
            final(self).executor.db@.rate == old(self).executor.db@.rate,
    {
        if args.is_empty() {
            return RouteOutcome::Reply(String::from_str("Usage: /block name"));
        }
        let matches = self.executor.db.friend_find_by_nickname(args);
        if matches.len() == 0 {
            let mut msg = String::from_str("\u{274C} Not found \"");
            msg.append(args);
            msg.append("\"");
            return RouteOutcome::Reply(msg);
        }
        if matches.len() > 1 {
            return RouteOutcome::Reply(
                String::from_str("Multiple matches; please be more specific"),
            );
        }
        let target = &matches[0];
        let wxid = target.wxid.clone();
        let _ = self.executor.db.friend_set_permission(wxid.as_str(), "blocked");
        self.executor.destroy_container(wxid.as_str());
        let mut msg = String::from_str("\u{1F6AB} Blocked ");
        msg.append(nick_or_query(target));
        msg.append("; container destroyed");
        RouteOutcome::ReplyWithAction(msg, EngineAction::Destroy(wxid))
    }

    /// Restart: stop the container and clear the session; it starts
    /// again on the next message.
    fn cmd_restart(&mut self, args: &str) -> (r: RouteOutcome)
        requires
            old(self).wf(),
        ensures
            final(self).wf(),
            MessageRouter::same_config(*old(self), *final(self)),
            final(self).executor.db@.friends == old(self).executor.db@.friends,
            final(self).executor.db@.audit == old(self).executor.db@.audit,
            final(self).executor.db@.rate == old(self).executor.db@.rate,
    {
        match self.find_target(args, "Usage: /restart name") {
            Err(m) => RouteOutcome::Reply(m),
            Ok(target) => {
                self.executor.clear_session(target.wxid.as_str());
                let mut msg = String::from_str("\u{1F504} Restarted ");
                msg.append(nick_or_query(&target));
                msg.append("'s container (it starts again on the next message)");
                RouteOutcome::ReplyWithAction(msg, EngineAction::Stop(target.wxid))
            },
        }
    }

    /// Destroy a container; the data volumes stay.
    fn cmd_destroy(&mut self, args: &str) -> (r: RouteOutcome)
        requires
            old(self).wf(),
        ensures
            final(self).wf(),
            MessageRouter::same_config(*old(self), *final(self)),
            final(self).executor.db@.friends == old(self).executor.db@.friends,
            final(self).executor.db@.audit == old(self).executor.db@.audit,
            final(self).executor.db@.rate == old(self).executor.db@.rate,
    {
        match self.find_target(args, "Usage: /destroy name") {
            Err(m) => RouteOutcome::Reply(m),
            Ok(target) => {
                self.executor.destroy_container(target.wxid.as_str());
                let mut msg = String::from_str("\u{1F5D1} Destroyed ");
                msg.append(nick_or_query(&target));
                msg.append("'s container (data kept; it is rebuilt on the next message)");
                RouteOutcome::ReplyWithAction(msg, EngineAction::Destroy(target.wxid))
            },
        }
    }

    /// Rebuild a container at the friend's stored tier.
    fn cmd_rebuild(&mut self, args: &str) -> (r: RouteOutcome)
        requires
            old(self).wf(),
        ensures
            final(self).wf(),
            MessageRouter::same_config(*old(self), *final(self)),
            final(self).executor.db@.friends == old(self).executor.db@.friends,
            final(self).executor.db@.audit == old(self).executor.db@.audit,
            final(self).executor.db@.rate == old(self).executor.db@.rate,
    {
        match self.find_target(args, "Usage: /rebuild name") {
            Err(m) => RouteOutcome::Reply(m),
            Ok(target) => {
                let permission = parse_permission(target.permission.as_str());
                self.executor.destroy_container(target.wxid.as_str());
                let mut msg = String::from_str("\u{1F528} Rebuilt ");
                msg.append(nick_or_query(&target));
                msg.append("'s container");
                RouteOutcome::ReplyWithAction(
                    msg,
                    EngineAction::Rebuild(target.wxid, permission),
                )
            },
        }
    }

    /// Kill the running agent process of one friend.
    fn cmd_kill(&mut self, args: &str) -> (r: RouteOutcome)
        requires
            old(self).wf(),
        ensures
            final(self).wf(),
            MessageRouter::same_config(*old(self), *final(self)),
            final(self).executor.db@ == old(self).executor.db@,
    {
        match self.find_target(args, "Usage: /kill name") {
            Err(m) => RouteOutcome::Reply(m),
            Ok(target) => {
                let name = String::from_str(nick_or_query(&target));
                RouteOutcome::Query(EngineQuery::Kill(target.wxid, name))
            },
        }
    }

    /// View recent logs, either overall or for one friend.
    fn cmd_logs(&mut self, args: &str) -> (r: RouteOutcome)
        requires
            old(self).wf(),
        ensures
            final(self).wf(),
            MessageRouter::same_config(*old(self), *final(self)),
            final(self).executor.db@ == old(self).executor.db@,
    {
        if args.is_empty() {
            let logs = self.executor.db.audit_get_recent(20);
            return RouteOutcome::Reply(format_logs(&logs));
        }
        let matches = self.executor.db.friend_find_by_nickname(args);
        if matches.len() == 0 {
            let mut msg = String::from_str("\u{274C} Not found \"");
            msg.append(args);
            msg.append("\"");
            return RouteOutcome::Reply(msg);
        }
        let logs = self.executor.db.audit_get_by_user(matches[0].wxid.as_str(), 20);
        RouteOutcome::Reply(format_logs(&logs))
    }

    /// Dispatch a command line. Unknown commands fall through to be
    /// treated as ordinary text; an insufficient tier is refused with
    /// the fixed reply and nothing runs.
    pub fn handle_command(&mut self, wxid: &str, permission: &str, message: &str, now: i64) -> (r:
        Option<RouteOutcome>)
        requires
            old(self).wf(),
        ensures
            final(self).wf(),
            MessageRouter::same_config(*old(self), *final(self)),
            ({
                let words = spec_split_ws(message@);
                if words.len() == 0 || spec_command_min_level(spec_lower_seq(words[0])) == 0 {
                    r is None && final(self).executor.db@ == old(self).executor.db@
                        && final(self).executor.active_tasks == old(self).executor.active_tasks
                } else if spec_perm_level(permission@) < spec_command_min_level(
                    spec_lower_seq(words[0]),
                ) {
                    match r {
                        Some(RouteOutcome::Reply(m)) => m@
                            == "\u{26A0}\u{FE0F} Insufficient permission"@
                            && final(self).executor.db@ == old(self).executor.db@
                            && final(self).executor.active_tasks@ == old(self).executor.active_tasks@,
                        _ => false,
                    }
                } else {
                    r is Some && final(self).executor.db@.rate == old(self).executor.db@.rate
                        && final(self).executor.db@.audit == old(self).executor.db@.audit
                }
            }),
    {
        let parts = split_whitespace_vec(message);
        if parts.len() == 0 {
            return None;
        }
        let cmd = lower_string(parts[0].as_str());
        let min_level = command_min_level(cmd.as_str());
        if min_level == 0 {
            return None;
        }
        if perm_level(permission) < min_level {
            return Some(
                RouteOutcome::Reply(
                    String::from_str("\u{26A0}\u{FE0F} Insufficient permission"),
                ),
            );
        }
        let args = join_space(&parts, 1);
        let outcome: RouteOutcome = if str_eq(cmd.as_str(), "/help") {
            RouteOutcome::Reply(self.cmd_help(permission))
        } else if str_eq(cmd.as_str(), "/status") {
            RouteOutcome::Query(EngineQuery::Status(String::from_str(wxid)))
        } else if str_eq(cmd.as_str(), "/clear") {
            RouteOutcome::Reply(self.cmd_clear(wxid))
        } else if str_eq(cmd.as_str(), "/allow") {
            RouteOutcome::Reply(self.cmd_allow(args.as_str(), now))
        } else if str_eq(cmd.as_str(), "/block") {
            self.cmd_block(args.as_str(), now)
        } else if str_eq(cmd.as_str(), "/list") {
            RouteOutcome::Reply(self.cmd_list())
        } else if str_eq(cmd.as_str(), "/logs") {
            self.cmd_logs(args.as_str())
        } else if str_eq(cmd.as_str(), "/kill") {
            self.cmd_kill(args.as_str())
        } else if str_eq(cmd.as_str(), "/containers") {
            RouteOutcome::Query(EngineQuery::Containers)
        } else if str_eq(cmd.as_str(), "/restart") {
            self.cmd_restart(args.as_str())
        } else if str_eq(cmd.as_str(), "/destroy") {
            self.cmd_destroy(args.as_str())
        } else if str_eq(cmd.as_str(), "/rebuild") {
            self.cmd_rebuild(args.as_str())
        } else {
            RouteOutcome::Query(EngineQuery::StopAll)
        };
        Some(outcome)
    }

    /// List all authorized friends, grouped by tier.
    fn cmd_list(&self) -> (r: String)
        requires
            self.wf(),
        ensures
            self.executor.db@.friends.len() == 0 ==> r@ == "No authorized friends yet"@,
            self.executor.db@.friends.len() > 0 ==> r@ == "\u{1F465} Friend list:\n"@
                + spec_list_group(self.executor.db@.friends, "admin"@, "\u{1F451} ADMIN:"@)
                + spec_list_group(self.executor.db@.friends, "trusted"@, "\u{2B50} TRUSTED:"@)
                + spec_list_group(self.executor.db@.friends, "normal"@, "\u{1F464} NORMAL:"@)
                + spec_list_group(self.executor.db@.friends, "blocked"@, "\u{1F6AB} BLOCKED:"@),
    {
        let all = self.executor.db.friend_list_all();
        if all.len() == 0 {
            proof {
                assert(self.executor.db@.friends.len() == self.executor.db@.friends.reverse().len());
            }
            return String::from_str("No authorized friends yet");
        }
        proof {
            assert(self.executor.db@.friends.len() == all@.map_values(|f: Friend| f@).len());
        }
        let mut out = String::from_str("\u{1F465} Friend list:\n");
        out.append(self.list_group("admin", "\u{1F451} ADMIN:").as_str());
        out.append(self.list_group("trusted", "\u{2B50} TRUSTED:").as_str());
        out.append(self.list_group("normal", "\u{1F464} NORMAL:").as_str());
        out.append(self.list_group("blocked", "\u{1F6AB} BLOCKED:").as_str());
        out
    }

    /// One tier's section of the friend list: a heading and one
    /// indented display name per friend, most recently added first;
    /// empty when the tier has no friends.
    fn list_group(&self, tier: &str, heading: &str) -> (r: String)
        requires
            self.wf(),
        ensures
            r@ == spec_list_group(self.executor.db@.friends, tier@, heading@),
    {
        let members = self.executor.db.friend_list_by_permission(tier);
        let n = members.len();
        let ghost ms = members@.map_values(|f: Friend| f@);
        if n == 0 {
            return String::new();
        }
        let mut out = String::from_str("\n");
        out.append(heading);
        let mut k: usize = n;
        while k > 0
            invariant
                n == members@.len(),
                ms == members@.map_values(|f: Friend| f@),
                ms.len() == n,
                n > 0,
                k <= n,
                out@ =~= "\n"@ + heading@ + spec_group_entries(ms, k as int),
            decreases k,
        {
            k -= 1;
            out.append("\n  ");
            let f = &members[k];
            let shown: &str = match &f.remark_name {
                Some(rn) => rn.as_str(),
                None => match &f.nickname {
                    Some(nk) => nk.as_str(),
                    None => f.wxid.as_str(),
                },
            };
            out.append(shown);
            proof {
                assert(ms[k as int] == members@[k as int]@);
                assert(out@ =~= "\n"@ + heading@ + spec_group_entries(ms, k as int));
            }
        }
        out.append("\n");
        proof {
            assert(out@ =~= spec_list_group(self.executor.db@.friends, tier@, heading@));
        }
        out
    }
}

impl MessageRouter {
    /// Handle an incoming message and decide the outcome.
    ///
    /// The gates fire in order: a blocked identity is refused silently
    /// before anything else; an unrecognized tier gets the configured
    /// notice or silence; the rate budget is charged next and a
    /// rejection carries the limiter's reason; then commands are
    /// dispatched, the content filter runs on free text (admin passes
    /// it unconditionally), and what remains is forwarded for
    /// execution.
    pub fn handle_message(&mut self, contact: &Contact, message: &str, now: i64) -> (r:
        RouteOutcome)
        requires
            old(self).wf(),
        ensures
            final(self).wf(),
            MessageRouter::same_config(*old(self), *final(self)),
            ({
                let eff = spec_effective_permission(
                    old(self).executor.db@.friends,
                    old(self).admin_wxid@,
                    old(self).default_level@,
                    contact.wxid@,
                );
                let m = spec_minute_of(now) as i64;
                let d = spec_day_of(now);
                let cur = spec_rate_count(old(self).executor.db@.rate, contact.wxid@, m);
                let day_total = spec_day_total(old(self).executor.db@.rate, contact.wxid@, d);
                let minute_hit = cur > 0 && cur >= old(self).max_per_minute;
                let day_hit = !minute_hit && day_total >= old(self).max_per_day;
                let slash = message@.len() > 0 && message@[0] == '/';
                let words = spec_split_ws(message@);
                let known = words.len() > 0 && spec_command_min_level(spec_lower_seq(words[0]))
                    > 0;
                let gate_refused = slash && known && spec_perm_level(eff)
                    < spec_command_min_level(spec_lower_seq(words[0]));
                let as_text = !slash || !known;
                let registered = spec_registered_friends(
                    old(self).executor.db@.friends,
                    contact,
                    old(self).admin_wxid@,
                    old(self).default_level@,
                    now,
                );
                // a blocked identity is refused before any other
                // processing: nothing is audited, registered or charged
                &&& (eff == "blocked"@ ==> r is NoReply && final(self).executor.db@ == old(self).executor.db@ && final(self).executor.active_tasks@ == old(self).executor.active_tasks@)
                // every other sender is registered (commands that edit the
                // table themselves are stated at their handlers)
                &&& (eff != "blocked"@ && (as_text || gate_refused) ==> final(self).executor.db@.friends =~= registered)
                // an unrecognized tier is charged nothing
                &&& (eff != "blocked"@ && spec_perm_level(eff) == 0 ==> final(self).executor.db@.rate == old(self).executor.db@.rate)
                // an authorized sender is charged exactly once, and only
                // when the budget allows it
                &&& (eff != "blocked"@ && spec_perm_level(eff) >= 1 ==> (if minute_hit || day_hit {
                    final(self).executor.db@.rate == old(self).executor.db@.rate
                } else {
                    final(self).executor.db@.rate =~= (if spec_has_window(
                        old(self).executor.db@.rate,
                        contact.wxid@,
                        m,
                    ) {
                        old(self).executor.db@.rate.update(
                            spec_window_idx(old(self).executor.db@.rate, contact.wxid@, m),
                            RateWindowV {
                                count: (cur + 1) as i64,
                                ..old(self).executor.db@.rate[spec_window_idx(
                                    old(self).executor.db@.rate,
                                    contact.wxid@,
                                    m,
                                )]
                            },
                        )
                    } else {
                        old(self).executor.db@.rate.push(
                            RateWindowV { wxid: contact.wxid@, window_start: m, count: 1 },
                        )
                    })
                }))
                // plain text and refused commands touch no session and no
                // in-flight marker
                &&& (eff != "blocked"@ && (as_text || gate_refused) ==> final(self).executor.db@.sessions == old(self).executor.db@.sessions && final(self).executor.active_tasks@ == old(self).executor.active_tasks@)
                // plain text appends exactly the inbound audit entry
                &&& (eff != "blocked"@ && as_text && spec_next_audit_id(
                    old(self).executor.db@.audit,
                ) <= i64::MAX ==> final(self).executor.db@.audit =~= old(self).executor.db@.audit.push(
                    AuditEntryV {
                        id: spec_next_audit_id(old(self).executor.db@.audit) as i64,
                        wxid: contact.wxid@,
                        nickname: Some(spec_contact_display(contact)),
                        direction: "in"@,
                        message: Some(
                            if old(self).log_message_content {
                                message@
                            } else {
                                "[hidden]"@
                            },
                        ),
                        agent_session: None,
                        timestamp: now,
                    },
                ))
                // the command gate: an insufficient tier gets the fixed
                // refusal and no action runs
                &&& (eff != "blocked"@ && spec_perm_level(eff) >= 1 && !minute_hit && !day_hit
                    && gate_refused ==> match r {
                    RouteOutcome::Reply(msg) => msg@
                        == "\u{26A0}\u{FE0F} Insufficient permission"@,
                    _ => false,
                })
                &&& (spec_perm_level(eff) == 0 && eff != "blocked"@ ==> (if old(self).notify_unauthorized {
                    match r {
                        RouteOutcome::Reply(msg) => msg@ == old(self).unauthorized_message@,
                        _ => false,
                    }
                } else {
                    r is NoReply
                }))
                &&& (spec_perm_level(eff) >= 1 && minute_hit ==> match r {
                    RouteOutcome::Reply(msg) => msg@ == "\u{26A0}\u{FE0F} "@
                        + "Too many requests, please try again later"@,
                    _ => false,
                })
                &&& (spec_perm_level(eff) >= 1 && day_hit ==> match r {
                    RouteOutcome::Reply(msg) => msg@ == "\u{26A0}\u{FE0F} "@
                        + "Daily request quota exhausted"@,
                    _ => false,
                })
                &&& (spec_perm_level(eff) >= 1 && !minute_hit && !day_hit && !(message@.len() > 0
                    && message@[0] == '/') && eff != "admin"@ && (exists|i: int|
                    0 <= i < old(self).blocked_patterns@.len() && spec_pattern_hits(
                        (#[trigger] old(self).blocked_patterns@[i])@,
                        message@,
                    )) ==> match r {
                    RouteOutcome::Reply(msg) => msg@ == "\u{26A0}\u{FE0F} "@
                        + "Message contains a disallowed operation"@,
                    _ => false,
                })
                &&& (spec_perm_level(eff) >= 1 && !minute_hit && !day_hit && !(message@.len() > 0
                    && message@[0] == '/') && (eff == "admin"@ || (forall|i: int|
                    0 <= i < old(self).blocked_patterns@.len() ==> !spec_pattern_hits(
                        (#[trigger] old(self).blocked_patterns@[i])@,
                        message@,
                    ))) ==> match r {
                    RouteOutcome::Execute(q) => q.wxid@ == contact.wxid@ && q.message@ == message@
                        && q.friend@.wxid == contact.wxid@,
                    RouteOutcome::Reply(msg) => msg@
                        == "Error handling the message, please try again later"@,
                    _ => false,
                })
            }),
    {
        // 1. A blocked identity is refused before any other processing.
        let permission = self.get_effective_permission(contact.wxid.as_str());
        if str_eq(permission.as_str(), "blocked") {
            proof {
                reveal_strlit("blocked");
                reveal_strlit("admin");
                reveal_strlit("trusted");
                reveal_strlit("normal");
                assert("blocked"@[0] == 'b' && "trusted"@[0] == 't');
                assert(spec_perm_level("blocked"@) == 0);
            }
            return RouteOutcome::NoReply;
        }

        let dn = String::from_str(display_name(contact));

        // 2. Audit the incoming message (content only when configured).
        let audit_content: &str = if self.log_message_content {
            message
        } else {
            "[hidden]"
        };
        let _ = self.executor.db.audit_log(
            contact.wxid.as_str(),
            Some(dn.as_str()),
            "in",
            Some(audit_content),
            None,
            now,
        );

        // 3. Ensure the sender is registered.
        self.ensure_friend_registered(contact, now);

        // 4. Tier check.
        if perm_level(permission.as_str()) == 0 {
            if self.notify_unauthorized {
                return RouteOutcome::Reply(self.unauthorized_message.clone());
            } else {
                return RouteOutcome::NoReply;
            }
        }

        // 5. Rate limit check.
        let verdict = self.executor.db.rate_limit_check_and_increment(
            contact.wxid.as_str(),
            self.max_per_minute,
            self.max_per_day,
            now,
        );
        if !verdict.allowed {
            let mut msg = String::from_str("\u{26A0}\u{FE0F} ");
            match &verdict.reason {
                Some(reason) => msg.append(reason.as_str()),
                None => {},
            }
            return RouteOutcome::Reply(msg);
        }

        // 6. Command handling.
        let starts_slash = message.unicode_len() > 0 && message.get_char(0) == '/';
        if starts_slash {
            match self.handle_command(
                contact.wxid.as_str(),
                permission.as_str(),
                message,
                now,
            ) {
                Some(outcome) => {
                    let reply_text: Option<&String> = match &outcome {
                        RouteOutcome::Reply(resp) => Some(resp),
                        RouteOutcome::ReplyWithAction(resp, _) => Some(resp),
                        _ => None,
                    };
                    match reply_text {
                        Some(resp) => {
                            let clipped = truncate_str(resp.as_str(), 200);
                            let _ = self.executor.db.audit_log(
                                contact.wxid.as_str(),
                                Some(dn.as_str()),
                                "out",
                                Some(clipped),
                                None,
                                now,
                            );
                        },
                        None => {},
                    }
                    return outcome;
                },
                None => {},
            }
        }

        // 7. Content security check.
        match self.security_check(message, permission.as_str()) {
            Some(reason) => {
                let mut msg = String::from_str("\u{26A0}\u{FE0F} ");
                msg.append(reason.as_str());
                return RouteOutcome::Reply(msg);
            },
            None => {},
        }

        // 8. Forward to the execution dispatcher.
        match self.executor.db.friend_get(contact.wxid.as_str()) {
            Some(friend) => {
                proof {
                    assert(friend@.wxid == contact.wxid@);
                }
                RouteOutcome::Execute(
                    ExecRequest {
                        wxid: contact.wxid.clone(),
                        friend,
                        message: String::from_str(message),
                    },
                )
            },
            None => RouteOutcome::Reply(
                String::from_str("Error handling the message, please try again later"),
            ),
        }
    }

    /// Record an outgoing dispatcher reply in the audit log, clipped to
    /// 500 bytes.
    pub fn record_outgoing(&mut self, wxid: &str, shown_name: &str, response: &str, now: i64)
        requires
            old(self).wf(),
        ensures
            final(self).wf(),
            MessageRouter::same_config(*old(self), *final(self)),
            final(self).executor.db@.friends == old(self).executor.db@.friends,
            final(self).executor.db@.sessions == old(self).executor.db@.sessions,
            final(self).executor.db@.rate == old(self).executor.db@.rate,
            final(self).executor.active_tasks@ == old(self).executor.active_tasks@,
            spec_next_audit_id(old(self).executor.db@.audit) <= i64::MAX ==> final(self).executor.db@.audit =~= old(self).executor.db@.audit.push(
                AuditEntryV {
                    id: spec_next_audit_id(old(self).executor.db@.audit) as i64,
                    wxid: wxid@,
                    nickname: Some(shown_name@),
                    direction: "out"@,
                    message: Some(spec_clip_bytes(response@, 500)),
                    agent_session: None,
                    timestamp: now,
                },
            ),
            spec_next_audit_id(old(self).executor.db@.audit) > i64::MAX ==> final(self).executor.db@.audit == old(self).executor.db@.audit,
    {
        let clipped = truncate_str(response, 500);
        proof {
            vstd::utf8::encode_utf8_valid_utf8(response@);
            vstd::utf8::encode_utf8_decode_utf8(clipped@);
            assert(clipped@ == vstd::utf8::decode_utf8(clipped.spec_bytes()));
            assert(clipped@ == spec_clip_bytes(response@, 500));
        }
        let _ = self.executor.db.audit_log(
            wxid,
            Some(shown_name),
            "out",
            Some(clipped),
            None,
            now,
        );
    }

    /// The reply for a kill query, given whether a process was killed.
    pub fn render_kill_reply(&self, name: &str, killed: bool) -> (r: String)
        ensures
            killed ==> r@ == "\u{2705} Killed "@ + name@ + "'s process"@,
            !killed ==> r@ == "No running process"@,
    {
        if killed {
            let mut msg = String::from_str("\u{2705} Killed ");
            msg.append(name);
            msg.append("'s process");
            msg
        } else {
            String::from_str("No running process")
        }
    }

    /// The reply for a stop-all query, given how many containers there
    /// were.
    pub fn render_stopall_reply(&self, count: u64) -> (r: String)
        ensures
            r@ == "\u{23F9} Stopped all "@ + crate::text::spec_digits(count as int)
                + " containers"@,
    {
        let mut msg = String::from_str("\u{23F9} Stopped all ");
        let digits = crate::text::u64_to_string(count);
        msg.append(digits.as_str());
        msg.append(" containers");
        msg
    }
}

/// The registered record of an identity, if any.
pub open spec fn spec_friend_of(friends: Seq<FriendV>, id: Seq<char>) -> Option<FriendV> {
    if exists|i: int| 0 <= i < friends.len() && (#[trigger] friends[i]).wxid == id {
        Some(
            friends[choose|i: int| 0 <= i < friends.len() && (#[trigger] friends[i]).wxid == id],
        )
    } else {
        None
    }
}

/// The active session of an identity, if any.
pub open spec fn spec_active_of(sessions: Seq<crate::store::SessionV>, id: Seq<char>) -> Option<
    crate::store::SessionV,
> {
    if exists|i: int| crate::executor::spec_active_session(sessions, id, i) {
        Some(sessions[choose|i: int| crate::executor::spec_active_session(sessions, id, i)])
    } else {
        None
    }
}

/// The name shown on a status reply.
pub open spec fn spec_status_name(f: Option<FriendV>) -> Seq<char> {
    match f {
        Some(f) => match f.remark_name {
            Some(r) => r,
            None => match f.nickname {
                Some(n) => n,
                None => "unknown"@,
            },
        },
        None => "unknown"@,
    }
}

/// The tier shown on a status reply.
pub open spec fn spec_status_perm(f: Option<FriendV>) -> Seq<char> {
    match f {
        Some(f) => f.permission,
        None => "none"@,
    }
}

/// The session line of a status reply.
pub open spec fn spec_session_info(s: Option<crate::store::SessionV>) -> Seq<char> {
    match s {
        Some(s) => "Active ("@ + crate::text::spec_digits(
            if s.message_count < 0 {
                0
            } else {
                s.message_count as int
            },
        ) + " messages)"@,
        None => "None"@,
    }
}

/// The stats block of a status reply, empty when no stats came back.
pub open spec fn spec_stats_block(stats: Option<crate::docker::ContainerStats>) -> Seq<char> {
    match stats {
        Some(st) => "\n   CPU: "@ + crate::text::spec_digits(
            st.cpu_percent_tenths as int / 10,
        ) + seq!['.', crate::text::spec_digit_char(st.cpu_percent_tenths as int % 10)] + "%\n   Memory: "@
            + crate::text::spec_format_bytes(st.memory_usage as int) + " / "@
            + crate::text::spec_format_bytes(st.memory_limit as int) + "\n   Processes: "@
            + crate::text::spec_digits(st.pids as int),
        None => Seq::empty(),
    }
}

/// The disk line of a status reply, empty when none came back.
pub open spec fn spec_disk_block(disk: Option<Seq<char>>) -> Seq<char> {
    match disk {
        Some(d) => "\n   Disk: "@ + d,
        None => Seq::empty(),
    }
}

/// The store-derived head of a status reply.
pub open spec fn spec_status_head(
    f: Option<FriendV>,
    s: Option<crate::store::SessionV>,
) -> Seq<char> {
    "\u{1F4CA} Current status:\n\n\u{1F464} "@ + spec_status_name(f) + "\n\u{1F511} Permission: "@
        + spec_status_perm(f) + "\n\u{1F4AC} Session: "@ + spec_session_info(s)
}

/// The engine-derived tail of a status reply.
pub open spec fn spec_status_tail(status: &crate::executor::ContainerStatus) -> Seq<char> {
    "\n\n\u{1F433} Container: "@ + status.name@ + "\n   Status: "@ + (if status.running {
        "\u{2705} Running"@
    } else {
        "\u{23F9} Stopped"@
    }) + spec_stats_block(status.stats) + spec_disk_block(ovs(status.disk))
}

/// The whole status reply for one identity.
pub open spec fn spec_status_text(
    f: Option<FriendV>,
    s: Option<crate::store::SessionV>,
    status: &crate::executor::ContainerStatus,
) -> Seq<char> {
    spec_status_head(f, s) + spec_status_tail(status)
}

impl MessageRouter {
    /// Render the status reply from the store's records and the
    /// engine's report.
    pub fn render_status_reply(&self, wxid: &str, status: &crate::executor::ContainerStatus) -> (r:
        String)
        requires
            self.wf(),
        ensures
            r@ == spec_status_text(
                spec_friend_of(self.executor.db@.friends, wxid@),
                spec_active_of(self.executor.db@.sessions, wxid@),
                status,
            ),
    {
        let mut out = self.status_head(wxid);
        let tail = status_tail(status);
        out.append(tail.as_str());
        out
    }

    /// The store-derived head of the status reply.
    fn status_head(&self, wxid: &str) -> (r: String)
        requires
            self.wf(),
        ensures
            r@ == spec_status_head(
                spec_friend_of(self.executor.db@.friends, wxid@),
                spec_active_of(self.executor.db@.sessions, wxid@),
            ),
    {
        let friend = self.executor.db.friend_get(wxid);
        let session = self.executor.db.session_get_active(wxid);
        proof {
            match &friend {
                Some(f) => {
                    let i = choose|i: int|
                        0 <= i < self.executor.db@.friends.len()
                            && #[trigger] self.executor.db@.friends[i].wxid == wxid@ && f@
                            == self.executor.db@.friends[i];
                    let j = choose|j: int|
                        0 <= j < self.executor.db@.friends.len()
                            && (#[trigger] self.executor.db@.friends[j]).wxid == wxid@;
                    self.executor.db.lemma_friends_unique(i, j);
                    assert(spec_friend_of(self.executor.db@.friends, wxid@) == Some(f@));
                },
                None => {
                    assert(spec_friend_of(self.executor.db@.friends, wxid@) is None);
                },
            }
            match &session {
                Some(s) => {
                    let sessions = self.executor.db@.sessions;
                    let i = choose|i: int|
                        0 <= i < sessions.len() && #[trigger] sessions[i].wxid == wxid@ && s@
                            == sessions[i] && (forall|j: int|
                            0 <= j < sessions.len() && #[trigger] sessions[j].wxid == wxid@
                                ==> crate::store::spec_session_no_later(sessions, j, i));
                    assert(crate::executor::spec_active_session(sessions, wxid@, i));
                    let j = choose|j: int|
                        crate::executor::spec_active_session(sessions, wxid@, j);
                    crate::executor::lemma_active_session_unique(sessions, wxid@, i, j);
                    assert(spec_active_of(sessions, wxid@) == Some(s@));
                },
                None => {
                    let sessions = self.executor.db@.sessions;
                    if exists|i: int|
                        crate::executor::spec_active_session(sessions, wxid@, i) {
                        let i = choose|i: int|
                            crate::executor::spec_active_session(sessions, wxid@, i);
                        assert(sessions[i].wxid == wxid@);
                    }
                    assert(spec_active_of(sessions, wxid@) is None);
                },
            }
        }
        let mut out = String::from_str("\u{1F4CA} Current status:\n\n\u{1F464} ");
        match &friend {
            Some(f) => {
                match &f.remark_name {
                    Some(rn) => out.append(rn.as_str()),
                    None => match &f.nickname {
                        Some(nk) => out.append(nk.as_str()),
                        None => out.append("unknown"),
                    },
                }
            },
            None => out.append("unknown"),
        }
        out.append("\n\u{1F511} Permission: ");
        match &friend {
            Some(f) => out.append(f.permission.as_str()),
            None => out.append("none"),
        }
        out.append("\n\u{1F4AC} Session: ");
        match &session {
            Some(s) => {
                out.append("Active (");
                let count: u64 = if s.message_count < 0 {
                    0
                } else {
                    s.message_count as u64
                };
                let digits = crate::text::u64_to_string(count);
                out.append(digits.as_str());
                out.append(" messages)");
            },
            None => out.append("None"),
        }
        out
    }

    /// Render the container-list reply from the engine's listing; each
    /// container is shown under the friendliest name the store knows.
    pub fn render_containers_reply(&self, list: &Vec<crate::docker::ContainerInfo>) -> (r: String)
        requires
            self.wf(),
        ensures
            list@.len() == 0 ==> r@ == "\u{1F433} No containers running"@,
            list@.len() > 0 ==> r@ == "\u{1F433} Container list:\n"@ + spec_cinfo_lines(
                list@,
                self.executor.db@.friends,
                list@.len() as int,
            ),
    {
        let n = list.len();
        if n == 0 {
            return String::from_str("\u{1F433} No containers running");
        }
        let mut out = String::from_str("\u{1F433} Container list:\n");
        let mut k: usize = 0;
        while k < n
            invariant
                n == list@.len(),
                k <= n,
                self.wf(),
                out@ =~= "\u{1F433} Container list:\n"@ + spec_cinfo_lines(
                    list@,
                    self.executor.db@.friends,
                    k as int,
                ),
            decreases n - k,
        {
            let line = self.cinfo_line(&list[k]);
            out.append(line.as_str());
            k += 1;
            proof {
                assert(out@ =~= "\u{1F433} Container list:\n"@ + spec_cinfo_lines(
                    list@,
                    self.executor.db@.friends,
                    k as int,
                ));
            }
        }
        out
    }

    /// One listed container's lines, rendered.
    fn cinfo_line(&self, c: &crate::docker::ContainerInfo) -> (r: String)
        requires
            self.wf(),
        ensures
            r@ == spec_cinfo_line(*c, self.executor.db@.friends),
    {
        let mut out = String::from_str("\n");
        let up = crate::text::contains_str(c.status.as_str(), "Up");
        if up {
            out.append("\u{2705} ");
        } else {
            out.append("\u{23F9} ");
        }
        let looked_up: Option<Friend> = match &c.wxid {
            Some(w) => {
                let found = self.executor.db.friend_get(w.as_str());
                proof {
                    let friends = self.executor.db@.friends;
                    match &found {
                        Some(f) => {
                            let i = choose|i: int|
                                0 <= i < friends.len() && #[trigger] friends[i].wxid == w@ && f@
                                    == friends[i];
                            let j = choose|j: int|
                                0 <= j < friends.len() && (#[trigger] friends[j]).wxid == w@;
                            self.executor.db.lemma_friends_unique(i, j);
                            assert(spec_friend_of(friends, w@) == Some(f@));
                        },
                        None => {
                            assert(spec_friend_of(friends, w@) is None);
                        },
                    }
                }
                found
            },
            None => None,
        };
        let mut named = false;
        match &looked_up {
            Some(f) => {
                match &f.remark_name {
                    Some(rn) => {
                        out.append(rn.as_str());
                        named = true;
                    },
                    None => match &f.nickname {
                        Some(nk) => {
                            out.append(nk.as_str());
                            named = true;
                        },
                        None => {},
                    },
                }
            },
            None => {},
        }
        if !named {
            match &c.wxid {
                Some(w) => out.append(w.as_str()),
                None => out.append("unknown"),
            }
        }
        out.append(" [");
        match &c.permission {
            Some(p) => out.append(p.as_str()),
            None => out.append("?"),
        }
        out.append("]\n   ");
        out.append(c.name.as_str());
        out.append(": ");
        out.append(c.status.as_str());
        out
    }
}

/// The name a listed container is shown under: the friend's remark or
/// display name, else the identity label, else a placeholder.
pub open spec fn spec_cinfo_name(
    c: crate::docker::ContainerInfo,
    friends: Seq<FriendV>,
) -> Seq<char> {
    match ovs(c.wxid) {
        Some(id) => match spec_friend_of(friends, id) {
            Some(f) => match f.remark_name {
                Some(r) => r,
                None => match f.nickname {
                    Some(n) => n,
                    None => id,
                },
            },
            None => id,
        },
        None => "unknown"@,
    }
}

/// One listed container's lines.
pub open spec fn spec_cinfo_line(
    c: crate::docker::ContainerInfo,
    friends: Seq<FriendV>,
) -> Seq<char> {
    "\n"@ + (if crate::text::spec_contains_cs(c.status@, "Up"@) {
        "\u{2705} "@
    } else {
        "\u{23F9} "@
    }) + spec_cinfo_name(c, friends) + " ["@ + (match ovs(c.permission) {
        Some(p) => p,
        None => "?"@,
    }) + "]\n   "@ + c.name@ + ": "@ + c.status@
}

/// The first `k` listed containers' lines.
pub open spec fn spec_cinfo_lines(
    list: Seq<crate::docker::ContainerInfo>,
    friends: Seq<FriendV>,
    k: int,
) -> Seq<char>
    decreases k,
    when 0 <= k <= list.len()
{
    if k <= 0 {
        Seq::empty()
    } else {
        spec_cinfo_lines(list, friends, k - 1) + spec_cinfo_line(list[k - 1], friends)
    }
}

/// The engine-derived tail of the status reply.
#[verifier::rlimit(100)]
#[verifier::spinoff_prover]
fn status_tail(status: &crate::executor::ContainerStatus) -> (r: String)
    ensures
        r@ == spec_status_tail(status),
{
    let mut out = String::from_str("\n\n\u{1F433} Container: ");
    out.append(status.name.as_str());
    out.append("\n   Status: ");
    if status.running {
        out.append("\u{2705} Running");
    } else {
        out.append("\u{23F9} Stopped");
    }
    match &status.stats {
        Some(st) => {
            out.append("\n   CPU: ");
            let whole = crate::text::u64_to_string(st.cpu_percent_tenths / 10);
            out.append(whole.as_str());
            crate::text::push_char(&mut out, '.');
            crate::text::push_char(&mut out, (48 + (st.cpu_percent_tenths % 10) as u8) as char);
            out.append("%\n   Memory: ");
            let used = crate::text::format_bytes(st.memory_usage);
            out.append(used.as_str());
            out.append(" / ");
            let limit = crate::text::format_bytes(st.memory_limit);
            out.append(limit.as_str());
            out.append("\n   Processes: ");
            let pids = crate::text::u64_to_string(st.pids);
            out.append(pids.as_str());
        },
        None => {},
    }
    match &status.disk {
        Some(d) => {
            out.append("\n   Disk: ");
            out.append(d.as_str());
        },
        None => {},
    }
    out
}

/// The indented member lines for the members at index `k` and above,
/// most recently added first.
pub open spec fn spec_group_entries(ms: Seq<FriendV>, k: int) -> Seq<char>
    decreases ms.len() - k,
    when 0 <= k <= ms.len()
{
    if k >= ms.len() {
        Seq::empty()
    } else {
        spec_group_entries(ms, k + 1) + "\n  "@ + crate::executor::spec_display_name_of(ms[k])
    }
}

/// One tier's section of the friend list.
pub open spec fn spec_list_group(
    friends: Seq<FriendV>,
    tier: Seq<char>,
    heading: Seq<char>,
) -> Seq<char> {
    let ms = crate::store::spec_friends_with_tier(friends, tier);
    if ms.len() == 0 {
        Seq::empty()
    } else {
        "\n"@ + heading + spec_group_entries(ms, 0) + "\n"@
    }
}

/// An exact copy of a friend record (for handing across the command
/// layer).
fn clone_friend_pub(f: &Friend) -> (r: Friend)
    ensures
        r == *f,
{
    Friend {
        wxid: f.wxid.clone(),
        nickname: match &f.nickname {
            Some(s) => Some(s.clone()),
            None => None,
        },
        remark_name: match &f.remark_name {
            Some(s) => Some(s.clone()),
            None => None,
        },
        permission: f.permission.clone(),
        added_at: f.added_at,
        added_by: match &f.added_by {
            Some(s) => Some(s.clone()),
            None => None,
        },
        notes: match &f.notes {
            Some(s) => Some(s.clone()),
            None => None,
        },
    }
}

/// Friends other than the touched identity survive an upsert of that
/// identity unchanged.
proof fn lemma_untouched_friends_survive(
    pre: Seq<FriendV>,
    post: Seq<FriendV>,
    wxid: Seq<char>,
)
    requires
        ({
            ||| post == pre
            ||| (exists|i: int|
                0 <= i < pre.len() && #[trigger] pre[i].wxid == wxid && post =~= pre.update(
                    i,
                    spec_upserted_friend(
                        pre[i],
                        post[i].nickname,
                        post[i].remark_name,
                        None,
                        post[i].notes,
                    ),
                ))
            ||| (exists|f: FriendV| post =~= pre.push(f))
        }),
    ensures
        forall|i: int|
            0 <= i < pre.len() ==> #[trigger] pre[i].wxid != wxid ==> exists|j: int|
                0 <= j < post.len() && #[trigger] post[j] == pre[i],
{
    if post == pre {
        assert forall|i: int| 0 <= i < pre.len() && pre[i].wxid != wxid implies exists|j: int|
            0 <= j < post.len() && #[trigger] post[j] == pre[i] by {
            assert(post[i] == pre[i]);
        }
    } else if exists|i: int|
        0 <= i < pre.len() && #[trigger] pre[i].wxid == wxid && post =~= pre.update(
            i,
            spec_upserted_friend(
                pre[i],
                post[i].nickname,
                post[i].remark_name,
                None,
                post[i].notes,
            ),
        ) {
        let t = choose|i: int|
            0 <= i < pre.len() && #[trigger] pre[i].wxid == wxid && post =~= pre.update(
                i,
                spec_upserted_friend(
                    pre[i],
                    post[i].nickname,
                    post[i].remark_name,
                    None,
                    post[i].notes,
                ),
            );
        assert forall|i: int| 0 <= i < pre.len() && pre[i].wxid != wxid implies exists|j: int|
            0 <= j < post.len() && #[trigger] post[j] == pre[i] by {
            assert(i != t);
            assert(post[i] == pre[i]);
        }
    } else {
        let f = choose|f: FriendV| post =~= pre.push(f);
        assert forall|i: int| 0 <= i < pre.len() && pre[i].wxid != wxid implies exists|j: int|
            0 <= j < post.len() && #[trigger] post[j] == pre[i] by {
            assert(post[i] == pre[i]);
        }
    }
}

} // verus!
