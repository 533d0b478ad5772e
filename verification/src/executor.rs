//! The execution dispatcher: per-identity serialization, session
//! resolution and expiry, execution planning, continuation-token capture
//! and response bounding.
//!
//! The container engine itself is outside this crate: a caller acquires
//! the guard, performs the engine work described by an [`ExecPlan`], and
//! hands the outcome back to be folded into the durable state.

use vstd::prelude::*;
use vstd::string::{StringExecFns, StringSliceAdditionalSpecFns};
use vstd::utf8::encode_utf8;
use crate::guard::ConcurrencyGuard;
use crate::permission::{parse_permission, spec_parse_permission, Permission};
use crate::store::{ovs, spec_sessions_without, Database, Friend, FriendV, Session, SessionV};
use crate::text::{
    chars_vec, lower_char, push_char, spec_is_space, spec_lower_char, spec_truncate_len,
    truncate_str,
};

verus! {

/// Maximum response length in bytes before truncation.
pub const MAX_RESPONSE_LEN: usize = 4000;

/// Relies on chrono::NaiveDateTime::parse_from_str followed by
/// DateTime::timestamp: both are pure functions of the text and the
/// format string, yielding the parsed instant as seconds since the
/// epoch, or nothing when the text does not match the format.
pub uninterp spec fn datetime_seconds(s: Seq<char>, fmt: Seq<char>) -> Option<i64>;

/// Relies on chrono::NaiveDateTime::parse_from_str and
/// DateTime::timestamp, named by `datetime_seconds`.
#[verifier::external_body]
fn parse_datetime(s: &str, fmt: &str) -> (r: Option<i64>)
    ensures
        r == datetime_seconds(s@, fmt@),
{
    match chrono::NaiveDateTime::parse_from_str(s, fmt) {
        Ok(dt) => Some(dt.and_utc().timestamp()),
        Err(_) => None,
    }
}

/// Relies on chrono::Utc::now: the current time in seconds since the
/// epoch. Nothing can be promised of a clock reading; the call aborts
/// only on a platform whose clock reads before the epoch, an
/// environmental condition no precondition could exclude.
#[verifier::external_body]
fn now_seconds() -> i64 {
    chrono::Utc::now().timestamp()
}

/// Relies on uuid::Uuid::new_v4 and its display form: a fresh random
/// identifier rendered as 36 hyphenated hexadecimal characters. Nothing
/// more can be promised of a random value; the call aborts only when
/// the platform's randomness source fails, an environmental condition
/// no precondition could exclude.
#[verifier::external_body]
fn fresh_session_id() -> (r: String)
    ensures
        r@.len() == 36,
{
    uuid::Uuid::new_v4().to_string()
}

/// A session is stale when its last-active time lies more than
/// `expire_minutes` whole minutes before `now`; an unreadable time
/// counts as stale, a future time never does.
pub open spec fn spec_session_expired(parsed: Option<i64>, now: i64, expire_minutes: u64) -> bool {
    match parsed {
        None => true,
        Some(ts) => if now <= ts {
            false
        } else {
            (now - ts) / 60 > expire_minutes
        },
    }
}

/// Decide staleness from a parsed last-active time.
pub fn session_expired_at(parsed: Option<i64>, now: i64, expire_minutes: u64) -> (r: bool)
    ensures
        r == spec_session_expired(parsed, now, expire_minutes),
{
    match parsed {
        None => true,
        Some(ts) => {
            if now <= ts {
                false
            } else {
                let e128: i128 = (now as i128) - (ts as i128);
                let e: u64 = e128 as u64;
                proof {
                    assert(e == now - ts);
                }
                let mins: u64 = e / 60;
                mins > expire_minutes
            }
        },
    }
}

/// Check if a session's last_active timestamp is older than expire_minutes.
/// The timestamp is parsed in the store's "%Y-%m-%d %H:%M:%S" form; text
/// that does not parse counts as expired. The comparison point is the
/// clock at the moment of the call.
pub fn is_session_expired(last_active: &str, expire_minutes: u64) -> (r: bool)
    ensures
        datetime_seconds(last_active@, "%Y-%m-%d %H:%M:%S"@) is None ==> r == true,
{
    let parsed = parse_datetime(last_active, "%Y-%m-%d %H:%M:%S");
    let now = now_seconds();
    session_expired_at(parsed, now, expire_minutes)
}

// ============================================
// Continuation-token capture
// ============================================

/// A separator between the keyword and the token: a colon or whitespace.
pub open spec fn spec_is_sep(c: char) -> bool {
    c as u32 == 58 || spec_is_space(c)
}

/// A character of the token itself: a hexadecimal digit (either case)
/// or a hyphen.
pub open spec fn spec_is_tok(c: char) -> bool {
    let u = c as u32;
    ||| (97 <= u && u <= 102)
    ||| (65 <= u && u <= 70)
    ||| (48 <= u && u <= 57)
    ||| u == 45
}

fn is_sep(c: char) -> (r: bool)
    ensures
        r == spec_is_sep(c),
{
    let u = c as u32;
    u == 58 || (9 <= u && u <= 13) || u == 32 || u == 0x85 || u == 0xA0 || u == 0x1680 || (0x2000
        <= u && u <= 0x200A) || u == 0x2028 || u == 0x2029 || u == 0x202F || u == 0x205F || u
        == 0x3000
}

fn is_tok(c: char) -> (r: bool)
    ensures
        r == spec_is_tok(c),
{
    let u = c as u32;
    (97 <= u && u <= 102) || (65 <= u && u <= 70) || (48 <= u && u <= 57) || u == 45
}

/// The word "session", compared case-insensitively, starts at `p`.
pub open spec fn spec_kw_at(s: Seq<char>, p: int) -> bool {
    &&& 0 <= p
    &&& p + 7 <= s.len()
    &&& spec_lower_char(s[p]) == 's'
    &&& spec_lower_char(s[p + 1]) == 'e'
    &&& spec_lower_char(s[p + 2]) == 's'
    &&& spec_lower_char(s[p + 3]) == 's'
    &&& spec_lower_char(s[p + 4]) == 'i'
    &&& spec_lower_char(s[p + 5]) == 'o'
    &&& spec_lower_char(s[p + 6]) == 'n'
}

/// The end of the separator run starting at `i`.
pub open spec fn spec_sep_end(s: Seq<char>, i: int) -> int
    decreases s.len() - i,
{
    if 0 <= i < s.len() && spec_is_sep(s[i]) {
        spec_sep_end(s, i + 1)
    } else {
        i
    }
}

/// The end of the token-character run starting at `i`.
pub open spec fn spec_tok_end(s: Seq<char>, i: int) -> int
    decreases s.len() - i,
{
    if 0 <= i < s.len() && spec_is_tok(s[i]) {
        spec_tok_end(s, i + 1)
    } else {
        i
    }
}

/// The continuation-token pattern matches at `p`: the keyword, then at
/// least one separator, then at least one token character.
pub open spec fn spec_token_match_at(s: Seq<char>, p: int) -> bool {
    &&& spec_kw_at(s, p)
    &&& spec_sep_end(s, p + 7) > p + 7
    &&& spec_tok_end(s, spec_sep_end(s, p + 7)) > spec_sep_end(s, p + 7)
}

/// The token captured by a match at `p`.
pub open spec fn spec_token_at(s: Seq<char>, p: int) -> Seq<char> {
    s.subrange(spec_sep_end(s, p + 7), spec_tok_end(s, spec_sep_end(s, p + 7)))
}

/// The position of the leftmost match, where one exists.
pub open spec fn spec_first_token_pos(s: Seq<char>) -> int {
    choose|p: int|
        spec_token_match_at(s, p) && (forall|q: int| 0 <= q < p ==> !spec_token_match_at(s, q))
}

/// Two leftmost matches are the same match.
pub proof fn lemma_first_token_pos_unique(s: Seq<char>, p1: int, p2: int)
    requires
        spec_token_match_at(s, p1),
        forall|q: int| 0 <= q < p1 ==> !spec_token_match_at(s, q),
        spec_token_match_at(s, p2),
        forall|q: int| 0 <= q < p2 ==> !spec_token_match_at(s, q),
    ensures
        p1 == p2,
{
}

proof fn lemma_sep_end_bounds(s: Seq<char>, i: int)
    requires
        0 <= i <= s.len(),
    ensures
        i <= spec_sep_end(s, i) <= s.len(),
    decreases s.len() - i,
{
    if i < s.len() && spec_is_sep(s[i]) {
        lemma_sep_end_bounds(s, i + 1);
    }
}

proof fn lemma_tok_end_bounds(s: Seq<char>, i: int)
    requires
        0 <= i <= s.len(),
    ensures
        i <= spec_tok_end(s, i) <= s.len(),
    decreases s.len() - i,
{
    if i < s.len() && spec_is_tok(s[i]) {
        lemma_tok_end_bounds(s, i + 1);
    }
}

/// Whether the keyword starts at `p`.
fn kw_at(v: &Vec<char>, p: usize) -> (r: bool)
    requires
        p + 7 <= v@.len(),
    ensures
        r == spec_kw_at(v@, p as int),
{
    let _n = v.len();
    lower_char(v[p]) == 's' && lower_char(v[p + 1]) == 'e' && lower_char(v[p + 2]) == 's'
        && lower_char(v[p + 3]) == 's' && lower_char(v[p + 4]) == 'i' && lower_char(v[p + 5])
        == 'o' && lower_char(v[p + 6]) == 'n'
}

/// The end of the separator run starting at `i`.
fn sep_end(v: &Vec<char>, i: usize) -> (r: usize)
    requires
        i <= v@.len(),
    ensures
        r == spec_sep_end(v@, i as int),
        i <= r <= v@.len(),
{
    let n = v.len();
    let mut j = i;
    while j < n && is_sep(v[j])
        invariant
            i <= j <= n,
            n == v@.len(),
            spec_sep_end(v@, i as int) == spec_sep_end(v@, j as int),
        decreases n - j,
    {
        j += 1;
    }
    proof {
        assert(spec_sep_end(v@, j as int) == j as int);
    }
    j
}

/// The end of the token run starting at `i`.
fn tok_end(v: &Vec<char>, i: usize) -> (r: usize)
    requires
        i <= v@.len(),
    ensures
        r == spec_tok_end(v@, i as int),
        i <= r <= v@.len(),
{
    let n = v.len();
    let mut j = i;
    while j < n && is_tok(v[j])
        invariant
            i <= j <= n,
            n == v@.len(),
            spec_tok_end(v@, i as int) == spec_tok_end(v@, j as int),
        decreases n - j,
    {
        j += 1;
    }
    proof {
        assert(spec_tok_end(v@, j as int) == j as int);
    }
    j
}

/// Scan diagnostic output for a continuation token: the first place
/// where "session" (case-insensitively) is followed by separators and a
/// hex-like run, whose run is the token.
pub fn extract_session_token(text: &str) -> (r: Option<String>)
    ensures
        match r {
            Some(tok) => exists|p: int|
                #![trigger spec_token_match_at(text@, p)]
                spec_token_match_at(text@, p) && (forall|q: int|
                    0 <= q < p ==> !spec_token_match_at(text@, q)) && tok@ == spec_token_at(
                    text@,
                    p,
                ),
            None => forall|p: int| !spec_token_match_at(text@, p),
        },
{
    let v = chars_vec(text);
    let n = v.len();
    if n < 9 {
        proof {
            assert forall|p: int| !spec_token_match_at(text@, p) by {
                if spec_token_match_at(text@, p) {
                    lemma_sep_end_bounds(text@, p + 7);
                    lemma_tok_end_bounds(text@, spec_sep_end(text@, p + 7));
                }
            }
        }
        return None;
    }
    let mut p: usize = 0;
    while p <= n - 9
        invariant
            v@ == text@,
            n == v@.len(),
            n >= 9,
            p <= n,
            forall|q: int| 0 <= q < p ==> !spec_token_match_at(text@, q),
        decreases n - p,
    {
        if kw_at(&v, p) {
            let q1 = sep_end(&v, p + 7);
            if q1 > p + 7 {
                let q2 = tok_end(&v, q1);
                if q2 > q1 {
                    let mut tok = String::new();
                    let mut t = q1;
                    while t < q2
                        invariant
                            q1 <= t <= q2 <= v@.len(),
                            v@ == text@,
                            tok@ =~= v@.subrange(q1 as int, t as int),
                        decreases q2 - t,
                    {
                        push_char(&mut tok, v[t]);
                        t += 1;
                    }
                    proof {
                        assert(spec_token_match_at(text@, p as int));
                        assert(tok@ =~= spec_token_at(text@, p as int));
                    }
                    return Some(tok);
                } else {
                    proof {
                        assert(!spec_token_match_at(text@, p as int));
                    }
                }
            } else {
                proof {
                    assert(!spec_token_match_at(text@, p as int));
                }
            }
        } else {
            proof {
                assert(!spec_token_match_at(text@, p as int));
            }
        }
        p += 1;
    }
    proof {
        assert forall|q: int| !spec_token_match_at(text@, q) by {
            if spec_token_match_at(text@, q) {
                lemma_sep_end_bounds(text@, q + 7);
                lemma_tok_end_bounds(text@, spec_sep_end(text@, q + 7));
                assert(q + 9 <= text@.len());
                assert(q < p);
            }
        }
    }
    None
}

// ============================================
// Response bounding
// ============================================

/// The notice appended when a response is cut.
pub open spec fn spec_truncation_notice() -> Seq<char> {
    "\n\n... (response truncated)"@
}

/// What bounding a response returns: a response within the byte cap is
/// returned unchanged; a longer one is cut at the largest character
/// boundary within the cap and the truncation notice is appended.
pub open spec fn spec_bounded_response(s: Seq<char>) -> Seq<char> {
    if encode_utf8(s).len() <= MAX_RESPONSE_LEN {
        s
    } else {
        vstd::utf8::decode_utf8(
            encode_utf8(s).subrange(
                0,
                spec_truncate_len(encode_utf8(s), MAX_RESPONSE_LEN as int),
            ),
        ) + spec_truncation_notice()
    }
}

/// Bound the visible response to the byte cap, cutting only at a
/// character boundary and appending a notice when cut. Bounding an
/// already-short response returns it unchanged.
pub fn truncate_response(response: &str) -> (r: String)
    ensures
        r@ == spec_bounded_response(response@),
        response.spec_bytes().len() <= MAX_RESPONSE_LEN ==> r@ == response@,
{
    let blen = response.as_bytes().len();
    if blen <= MAX_RESPONSE_LEN {
        return String::from_str(response);
    }
    let head = truncate_str(response, MAX_RESPONSE_LEN);
    let mut out = String::from_str(head);
    out.append("\n\n... (response truncated)");
    proof {
        vstd::utf8::encode_utf8_valid_utf8(response@);
        vstd::utf8::encode_utf8_decode_utf8(head@);
        assert(head@ == vstd::utf8::decode_utf8(head.spec_bytes()));
    }
    out
}

// ============================================
// System prompt
// ============================================

/// The name an identity is addressed by: the remark name if set, else
/// the display name, else the identity itself.
pub open spec fn spec_display_name_of(f: FriendV) -> Seq<char> {
    match f.remark_name {
        Some(r) => r,
        None => match f.nickname {
            Some(n) => n,
            None => f.wxid,
        },
    }
}

/// The capability description for a stored tier.
pub open spec fn spec_perm_desc(p: Seq<char>) -> Seq<char> {
    if p == "admin"@ {
        "Admin with full privileges, can execute any code and system operations"@
    } else if p == "trusted"@ {
        "Trusted user, can execute code and file operations (within sandbox)"@
    } else if p == "normal"@ {
        "Normal user, limited to Q&A only, no code execution or file system access"@
    } else {
        "Unknown permission level"@
    }
}

/// The tool notice for a stored tier.
pub open spec fn spec_tool_note(p: Seq<char>) -> Seq<char> {
    if p == "normal"@ {
        "- WARNING: This user is limited to Q&A only. Do not execute any code, shell commands, or file operations"@
    } else {
        "- This user can request code execution and file operations"@
    }
}

/// The execution-context preamble handed to the engine: the identity,
/// its display name, and the tier-specific capability notice.
pub open spec fn spec_system_prompt(f: FriendV) -> Seq<char> {
    "Current user identity:\n- WeChat ID: "@ + f.wxid + "\n- Nickname: "@ + spec_display_name_of(f)
        + "\n- Permission level: "@ + f.permission + " ("@ + spec_perm_desc(f.permission)
        + ")\n\nEnvironment:\n- You are running in this user's dedicated Docker container\n- Working directory: /home/sandbox/workspace (persistent storage)\n- Container is fully isolated from other users\n"@
        + spec_tool_note(f.permission) + "\n- Keep responses concise, suitable for WeChat reading"@
}

/// Build the system prompt with user identity and permission info.
pub fn build_system_prompt(friend: &Friend) -> (r: String)
    ensures
        r@ == spec_system_prompt(friend@),
{
    let display_name: &str = match &friend.remark_name {
        Some(n) => n.as_str(),
        None => match &friend.nickname {
            Some(n) => n.as_str(),
            None => friend.wxid.as_str(),
        },
    };
    let perm = friend.permission.as_str();
    let perm_desc: &str = if crate::text::str_eq(perm, "admin") {
        "Admin with full privileges, can execute any code and system operations"
    } else if crate::text::str_eq(perm, "trusted") {
        "Trusted user, can execute code and file operations (within sandbox)"
    } else if crate::text::str_eq(perm, "normal") {
        "Normal user, limited to Q&A only, no code execution or file system access"
    } else {
        "Unknown permission level"
    };
    let tool_note: &str = if crate::text::str_eq(perm, "normal") {
        "- WARNING: This user is limited to Q&A only. Do not execute any code, shell commands, or file operations"
    } else {
        "- This user can request code execution and file operations"
    };
    let mut out = String::from_str("Current user identity:\n- WeChat ID: ");
    out.append(friend.wxid.as_str());
    out.append("\n- Nickname: ");
    out.append(display_name);
    out.append("\n- Permission level: ");
    out.append(perm);
    out.append(" (");
    out.append(perm_desc);
    out.append(
        ")\n\nEnvironment:\n- You are running in this user's dedicated Docker container\n- Working directory: /home/sandbox/workspace (persistent storage)\n- Container is fully isolated from other users\n",
    );
    out.append(tool_note);
    out.append("\n- Keep responses concise, suitable for WeChat reading");
    out
}

// ============================================
// The dispatcher
// ============================================

/// Options for one execution.
pub struct ExecAgentOptions {
    pub timeout: Option<u64>,
    pub agent_session: Option<String>,
    pub permission: Option<Permission>,
}

/// Result from executing the agent in a container.
pub struct ExecAgentResult {
    pub ok: bool,
    pub output: String,
    pub stderr: String,
}

/// Everything the engine consumer needs to run one execution.
pub struct ExecPlan {
    pub session_id: String,
    pub system_prompt: String,
    pub options: ExecAgentOptions,
}

/// What the engine call came back with, as plain values: the collected
/// output streams, the engine's error text, or the timeout verdict.
pub enum EngineExecOutcome {
    /// The exec finished; standard output and standard error follow.
    Completed(String, String),
    /// The engine reported an error; its text follows.
    Failed(String),
    /// The caller-supplied timeout expired first.
    TimedOut,
}

/// Turn an engine outcome into the execution result: a timeout and an
/// engine error each map to their fixed user-facing reply, and empty
/// trimmed output is replaced with an explicit placeholder.
pub fn interpret_exec_outcome(outcome: EngineExecOutcome) -> (r: ExecAgentResult)
    ensures
        match outcome {
            EngineExecOutcome::TimedOut => !r.ok && r.output@ == "Request timed out"@
                && r.stderr@ == Seq::<char>::empty(),
            EngineExecOutcome::Failed(e) => !r.ok && r.output@
                == "Processing error, please try again later"@ && r.stderr@ == e@,
            EngineExecOutcome::Completed(stdout, stderr) => r.ok && r.stderr@ == stderr@ && ({
                let t = crate::text::spec_trim(stdout@);
                if t.len() == 0 {
                    r.output@ == "(the agent returned no content)"@
                } else {
                    r.output@ == t
                }
            }),
        },
{
    match outcome {
        EngineExecOutcome::TimedOut => ExecAgentResult {
            ok: false,
            output: String::from_str("Request timed out"),
            stderr: String::new(),
        },
        EngineExecOutcome::Failed(e) => ExecAgentResult {
            ok: false,
            output: String::from_str("Processing error, please try again later"),
            stderr: e,
        },
        EngineExecOutcome::Completed(stdout, stderr) => {
            let trimmed = crate::text::trim_str(stdout.as_str());
            if trimmed.as_str().is_empty() {
                ExecAgentResult {
                    ok: true,
                    output: String::from_str("(the agent returned no content)"),
                    stderr,
                }
            } else {
                ExecAgentResult { ok: true, output: trimmed, stderr }
            }
        },
    }
}

/// Container status info.
pub struct ContainerStatus {
    pub name: String,
    pub running: bool,
    pub stats: Option<crate::docker::ContainerStats>,
    pub disk: Option<String>,
}

/// `i` indexes the active session of `id`: the one touched last, ties
/// going to the most recently created.
pub open spec fn spec_active_session(sessions: Seq<SessionV>, id: Seq<char>, i: int) -> bool {
    &&& 0 <= i < sessions.len()
    &&& sessions[i].wxid == id
    &&& forall|j: int|
        0 <= j < sessions.len() && #[trigger] sessions[j].wxid == id
            ==> crate::store::spec_session_no_later(sessions, j, i)
}

/// There is a session of `id` that is active and fresh at `now`.
pub open spec fn spec_has_live_session(
    sessions: Seq<SessionV>,
    id: Seq<char>,
    now: i64,
    expire_minutes: u64,
) -> bool {
    exists|i: int|
        #![trigger spec_active_session(sessions, id, i)]
        spec_active_session(sessions, id, i) && !spec_session_expired(
            Some(sessions[i].last_active),
            now,
            expire_minutes,
        )
}

pub proof fn lemma_active_session_unique(sessions: Seq<SessionV>, id: Seq<char>, i1: int, i2: int)
    requires
        spec_active_session(sessions, id, i1),
        spec_active_session(sessions, id, i2),
    ensures
        i1 == i2,
{
    assert(crate::store::spec_session_no_later(sessions, i2, i1));
    assert(crate::store::spec_session_no_later(sessions, i1, i2));
}

proof fn lemma_no_sessions_kept(sessions: Seq<SessionV>, id: Seq<char>)
    requires
        forall|i: int| 0 <= i < sessions.len() ==> (#[trigger] sessions[i]).wxid != id,
    ensures
        spec_sessions_without(sessions, id) == sessions,
    decreases sessions.len(),
{
    reveal(Seq::filter);
    if sessions.len() > 0 {
        assert forall|i: int|
            0 <= i < sessions.drop_last().len() implies (#[trigger] sessions.drop_last()[i]).wxid
            != id by {
            assert(sessions.drop_last()[i] == sessions[i]);
        }
        lemma_no_sessions_kept(sessions.drop_last(), id);
        assert(spec_sessions_without(sessions, id) == spec_sessions_without(
            sessions.drop_last(),
            id,
        ).push(sessions.last()));
        assert(sessions.drop_last().push(sessions.last()) =~= sessions);
    }
}

/// The execution dispatcher: owns the durable store and the per-identity
/// concurrency guard, and turns requests into bounded executions.
pub struct AgentExecutor {
    pub db: Database,
    /// Set of identities currently being processed (concurrency guard).
    pub active_tasks: ConcurrencyGuard,
    /// Session expiry in minutes.
    pub session_expire_minutes: u64,
    /// Execution timeout in seconds.
    pub timeout: u64,
}

impl AgentExecutor {
    pub open spec fn wf(self) -> bool {
        &&& self.db.wf()
        &&& self.active_tasks.wf()
    }

    pub fn new(db: Database, session_expire_minutes: u64, timeout: u64) -> (r: AgentExecutor)
        requires
            db.wf(),
        ensures
            r.wf(),
            r.db == db,
            r.active_tasks@ =~= Seq::<Seq<char>>::empty(),
            r.session_expire_minutes == session_expire_minutes,
            r.timeout == timeout,
    {
        AgentExecutor {
            db,
            active_tasks: ConcurrencyGuard::new(),
            session_expire_minutes,
            timeout,
        }
    }

    /// Create a fresh session for the identity and return it.
    fn create_new_session(&mut self, wxid: &str, now: i64) -> (r: Result<Session, String>)
        requires
            old(self).wf(),
        ensures
            final(self).wf(),
            final(self).active_tasks == old(self).active_tasks,
            final(self).session_expire_minutes == old(self).session_expire_minutes,
            final(self).timeout == old(self).timeout,
            final(self).db@.friends == old(self).db@.friends,
            final(self).db@.audit == old(self).db@.audit,
            final(self).db@.rate == old(self).db@.rate,
            match r {
                Ok(s) => s@.wxid == wxid@ && s@.agent_session is None && s@.created_at == now
                    && s@.last_active == now && s@.message_count == 0
                    && final(self).db@.sessions =~= old(self).db@.sessions.push(s@),
                Err(msg) => msg@ == "Session error, please try again"@ && final(self).db@ == old(
                    self,
                ).db@,
            },
    {
        let session_id = fresh_session_id();
        match self.db.session_create(session_id.as_str(), wxid, None, now) {
            Ok(()) => Ok(
                Session {
                    id: session_id,
                    wxid: String::from_str(wxid),
                    agent_session: None,
                    created_at: now,
                    last_active: now,
                    message_count: 0,
                },
            ),
            Err(_) => Err(String::from_str("Session error, please try again")),
        }
    }

    /// Get the active session for a user, creating one if none exists
    /// or the active one has expired; an expired session is superseded,
    /// never reused, and superseding clears the identity's sessions.
    pub fn get_or_create_session(&mut self, wxid: &str, now: i64) -> (r: Result<Session, String>)
        requires
            old(self).wf(),
        ensures
            final(self).wf(),
            final(self).active_tasks == old(self).active_tasks,
            final(self).session_expire_minutes == old(self).session_expire_minutes,
            final(self).timeout == old(self).timeout,
            final(self).db@.friends == old(self).db@.friends,
            final(self).db@.audit == old(self).db@.audit,
            final(self).db@.rate == old(self).db@.rate,
            match r {
                Ok(s) => ({
                    if spec_has_live_session(
                        old(self).db@.sessions,
                        wxid@,
                        now,
                        old(self).session_expire_minutes,
                    ) {
                        // The live session is reused as it stands.
                        &&& (exists|i: int|
                            #![trigger old(self).db@.sessions[i]]
                            spec_active_session(old(self).db@.sessions, wxid@, i) && s@ == old(
                                self,
                            ).db@.sessions[i])
                        &&& final(self).db@.sessions == old(self).db@.sessions
                    } else {
                        // Prior sessions are superseded by a fresh one
                        // with no continuation token.
                        &&& s@.wxid == wxid@
                        &&& s@.agent_session is None
                        &&& s@.created_at == now
                        &&& s@.last_active == now
                        &&& s@.message_count == 0
                        &&& final(self).db@.sessions =~= spec_sessions_without(
                            old(self).db@.sessions,
                            wxid@,
                        ).push(s@)
                    }
                }),
                Err(msg) => {
                    // failure can come only from the freshly drawn random
                    // session id colliding with a stored one; it never
                    // happens while a live session is there to reuse, and
                    // it leaves the identity's sessions cleared
                    &&& msg@ == "Session error, please try again"@
                    &&& !spec_has_live_session(
                        old(self).db@.sessions,
                        wxid@,
                        now,
                        old(self).session_expire_minutes,
                    )
                    &&& final(self).db@.sessions =~= spec_sessions_without(
                        old(self).db@.sessions,
                        wxid@,
                    )
                },
            },
    {
        let expire = self.session_expire_minutes;
        match self.db.session_get_active(wxid) {
            Some(s) => {
                proof {
                    let i = choose|i: int|
                        0 <= i < self.db@.sessions.len() && #[trigger] self.db@.sessions[i].wxid
                            == wxid@ && s@ == self.db@.sessions[i] && (forall|j: int|
                            0 <= j < self.db@.sessions.len()
                                && #[trigger] self.db@.sessions[j].wxid == wxid@
                                ==> crate::store::spec_session_no_later(self.db@.sessions, j, i));
                    assert(spec_active_session(self.db@.sessions, wxid@, i));
                }
                if !session_expired_at(Some(s.last_active), now, expire) {
                    proof {
                        let i = choose|i: int|
                            0 <= i < self.db@.sessions.len()
                                && #[trigger] self.db@.sessions[i].wxid == wxid@ && s@
                                == self.db@.sessions[i] && (forall|j: int|
                                0 <= j < self.db@.sessions.len()
                                    && #[trigger] self.db@.sessions[j].wxid == wxid@
                                    ==> crate::store::spec_session_no_later(
                                    self.db@.sessions,
                                    j,
                                    i,
                                ));
                        assert(spec_active_session(self.db@.sessions, wxid@, i) && s@
                            == self.db@.sessions[i]);
                        assert(spec_has_live_session(self.db@.sessions, wxid@, now, expire));
                    }
                    return Ok(s);
                }
                // Session expired: supersede it.
                proof {
                    if spec_has_live_session(self.db@.sessions, wxid@, now, expire) {
                        let i = choose|i: int|
                            0 <= i < self.db@.sessions.len()
                                && #[trigger] self.db@.sessions[i].wxid == wxid@ && s@
                                == self.db@.sessions[i] && (forall|j: int|
                                0 <= j < self.db@.sessions.len()
                                    && #[trigger] self.db@.sessions[j].wxid == wxid@
                                    ==> crate::store::spec_session_no_later(
                                    self.db@.sessions,
                                    j,
                                    i,
                                ));
                        let i2 = choose|i2: int|
                            #![trigger spec_active_session(self.db@.sessions, wxid@, i2)]
                            spec_active_session(self.db@.sessions, wxid@, i2)
                                && !spec_session_expired(
                                Some(self.db@.sessions[i2].last_active),
                                now,
                                expire,
                            );
                        lemma_active_session_unique(self.db@.sessions, wxid@, i, i2);
                    }
                }
                self.db.session_clear_user(wxid);
                self.create_new_session(wxid, now)
            },
            None => {
                proof {
                    lemma_no_sessions_kept(self.db@.sessions, wxid@);
                    if spec_has_live_session(self.db@.sessions, wxid@, now, expire) {
                        let i2 = choose|i2: int|
                            #![trigger spec_active_session(self.db@.sessions, wxid@, i2)]
                            spec_active_session(self.db@.sessions, wxid@, i2)
                                && !spec_session_expired(
                                Some(self.db@.sessions[i2].last_active),
                                now,
                                expire,
                            );
                        assert(self.db@.sessions[i2].wxid == wxid@);
                    }
                }
                self.create_new_session(wxid, now)
            },
        }
    }

    /// Enter the per-identity critical section. A second request while
    /// one is in flight is refused with the still-processing reply and
    /// nothing else happens.
    pub fn begin_execute(&mut self, wxid: &str) -> (r: Option<String>)
        requires
            old(self).wf(),
        ensures
            final(self).wf(),
            final(self).db == old(self).db,
            final(self).session_expire_minutes == old(self).session_expire_minutes,
            final(self).timeout == old(self).timeout,
            match r {
                Some(msg) => msg@
                    == "Previous message is still being processed, please wait..."@ && old(
                    self,
                ).active_tasks@.contains(wxid@) && final(self).active_tasks@ == old(
                    self,
                ).active_tasks@,
                None => !old(self).active_tasks@.contains(wxid@) && final(self).active_tasks@
                    =~= old(self).active_tasks@.push(wxid@),
            },
    {
        if self.active_tasks.try_acquire(wxid) {
            None
        } else {
            Some(String::from_str("Previous message is still being processed, please wait..."))
        }
    }

    /// Resolve the session, touch it, and build the execution plan. On
    /// a session failure the guard is released and the session-error
    /// reply returned.
    pub fn prepare_execute(&mut self, wxid: &str, friend: &Friend, now: i64) -> (r: Result<
        ExecPlan,
        String,
    >)
        requires
            old(self).wf(),
        ensures
            final(self).wf(),
            final(self).session_expire_minutes == old(self).session_expire_minutes,
            final(self).timeout == old(self).timeout,
            final(self).db@.friends == old(self).db@.friends,
            final(self).db@.audit == old(self).db@.audit,
            final(self).db@.rate == old(self).db@.rate,
            match r {
                Ok(plan) => {
                    &&& final(self).active_tasks == old(self).active_tasks
                    &&& plan.system_prompt@ == spec_system_prompt(friend@)
                    &&& plan.options.timeout == Some(old(self).timeout)
                    &&& plan.options.permission == Some(
                        spec_parse_permission(friend@.permission),
                    )
                    &&& (if spec_has_live_session(
                        old(self).db@.sessions,
                        wxid@,
                        now,
                        old(self).session_expire_minutes,
                    ) {
                        exists|i: int|
                            #![trigger old(self).db@.sessions[i]]
                            spec_active_session(old(self).db@.sessions, wxid@, i)
                                && plan.session_id@ == old(self).db@.sessions[i].id && ovs(
                                plan.options.agent_session,
                            ) == old(self).db@.sessions[i].agent_session
                    } else {
                        plan.options.agent_session is None
                    })
                },
                Err(msg) => {
                    &&& msg@ == "Session error, please try again"@
                    &&& !spec_has_live_session(
                        old(self).db@.sessions,
                        wxid@,
                        now,
                        old(self).session_expire_minutes,
                    )
                    &&& final(self).db@.sessions =~= spec_sessions_without(
                        old(self).db@.sessions,
                        wxid@,
                    )
                    &&& !final(self).active_tasks@.contains(wxid@)
                },
            },
    {
        let session = match self.get_or_create_session(wxid, now) {
            Ok(s) => s,
            Err(msg) => {
                self.active_tasks.release(wxid);
                return Err(msg);
            },
        };
        // Touch the session (advances last-active, counts the message);
        // an unknown id is simply ignored, never fatal.
        self.db.session_touch(session.id.as_str(), now);
        let system_prompt = build_system_prompt(friend);
        let permission = parse_permission(friend.permission.as_str());
        let timeout = self.timeout;
        Ok(
            ExecPlan {
                session_id: session.id,
                system_prompt,
                options: ExecAgentOptions {
                    timeout: Some(timeout),
                    agent_session: session.agent_session,
                    permission: Some(permission),
                },
            },
        )
    }

    /// Fold an execution result back in: capture a continuation token
    /// from the diagnostic output, bound the visible response, and leave
    /// the critical section.
    pub fn finish_execute(&mut self, wxid: &str, session_id: &str, result: &ExecAgentResult) -> (r:
        String)
        requires
            old(self).wf(),
        ensures
            final(self).wf(),
            final(self).session_expire_minutes == old(self).session_expire_minutes,
            final(self).timeout == old(self).timeout,
            final(self).db@.friends == old(self).db@.friends,
            final(self).db@.audit == old(self).db@.audit,
            final(self).db@.rate == old(self).db@.rate,
            r@ == spec_bounded_response(result.output@),
            !final(self).active_tasks@.contains(wxid@),
            forall|x: Seq<char>|
                x != wxid@ ==> (final(self).active_tasks@.contains(x) <==> old(
                    self,
                ).active_tasks@.contains(x)),
            (result.stderr@.len() == 0 || (forall|p: int|
                !spec_token_match_at(result.stderr@, p))) ==> final(self).db@.sessions == old(
                self,
            ).db@.sessions,
            // a token found in the diagnostics is persisted on the session
            (result.stderr@.len() > 0 && (exists|p: int|
                #[trigger] spec_token_match_at(result.stderr@, p))) ==> ({
                let tok = spec_token_at(result.stderr@, spec_first_token_pos(result.stderr@));
                ||| (exists|i: int|
                    0 <= i < old(self).db@.sessions.len() && #[trigger] old(
                        self,
                    ).db@.sessions[i].id == session_id@ && final(self).db@.sessions =~= old(
                        self,
                    ).db@.sessions.update(
                        i,
                        SessionV { agent_session: Some(tok), ..old(self).db@.sessions[i] },
                    ))
                ||| ((forall|i: int|
                    0 <= i < old(self).db@.sessions.len() ==> old(self).db@.sessions[i].id
                        != session_id@) && final(self).db@.sessions == old(self).db@.sessions)
            }),
    {
        if !result.stderr.as_str().is_empty() {
            match extract_session_token(result.stderr.as_str()) {
                Some(tok) => {
                    proof {
                        let st = result.stderr@;
                        let p0 = choose|p: int|
                            #![trigger spec_token_match_at(st, p)]
                            spec_token_match_at(st, p) && (forall|q: int|
                                0 <= q < p ==> !spec_token_match_at(st, q)) && tok@
                                == spec_token_at(st, p);
                        let pc = spec_first_token_pos(st);
                        assert(spec_token_match_at(st, pc) && (forall|q: int|
                            0 <= q < pc ==> !spec_token_match_at(st, q)));
                        lemma_first_token_pos_unique(st, p0, pc);
                        assert(tok@ == spec_token_at(st, spec_first_token_pos(st)));
                    }
                    self.db.session_set_agent_session(session_id, tok.as_str());
                },
                None => {},
            }
        }
        let reply = truncate_response(result.output.as_str());
        self.active_tasks.release(wxid);
        reply
    }

    /// Give up on a request whose container could not be provided:
    /// leave the critical section and return the setup-failure reply.
    pub fn fail_setup(&mut self, wxid: &str) -> (r: String)
        requires
            old(self).wf(),
        ensures
            final(self).wf(),
            final(self).db == old(self).db,
            final(self).session_expire_minutes == old(self).session_expire_minutes,
            final(self).timeout == old(self).timeout,
            r@ == "Container setup failed, please try again later"@,
            !final(self).active_tasks@.contains(wxid@),
            forall|x: Seq<char>|
                x != wxid@ ==> (final(self).active_tasks@.contains(x) <==> old(
                    self,
                ).active_tasks@.contains(x)),
    {
        self.active_tasks.release(wxid);
        String::from_str("Container setup failed, please try again later")
    }

    /// Clear a user's session state; whether their container is also
    /// restarted is the engine consumer's affair.
    pub fn clear_session(&mut self, wxid: &str)
        requires
            old(self).wf(),
        ensures
            final(self).wf(),
            final(self).active_tasks == old(self).active_tasks,
            final(self).session_expire_minutes == old(self).session_expire_minutes,
            final(self).timeout == old(self).timeout,
            final(self).db@.friends == old(self).db@.friends,
            final(self).db@.audit == old(self).db@.audit,
            final(self).db@.rate == old(self).db@.rate,
            final(self).db@.sessions =~= spec_sessions_without(old(self).db@.sessions, wxid@),
    {
        self.db.session_clear_user(wxid);
    }

    /// Forget a user's sessions and in-flight marker before their
    /// container is removed, so an administrative reset cannot leave a
    /// wedged identity behind.
    pub fn destroy_container(&mut self, wxid: &str)
        requires
            old(self).wf(),
        ensures
            final(self).wf(),
            final(self).session_expire_minutes == old(self).session_expire_minutes,
            final(self).timeout == old(self).timeout,
            final(self).db@.friends == old(self).db@.friends,
            final(self).db@.audit == old(self).db@.audit,
            final(self).db@.rate == old(self).db@.rate,
            final(self).db@.sessions =~= spec_sessions_without(old(self).db@.sessions, wxid@),
            !final(self).active_tasks@.contains(wxid@),
            forall|x: Seq<char>|
                x != wxid@ ==> (final(self).active_tasks@.contains(x) <==> old(
                    self,
                ).active_tasks@.contains(x)),
    {
        self.db.session_clear_user(wxid);
        self.active_tasks.release(wxid);
    }
}

} // verus!
