//! The durable per-user state: friend records with permission tiers,
//! execution sessions, the audit log, and sliding-window rate counters.
//!
//! The store is an in-memory structure; every operation is specified
//! exactly over its view. Time never comes from inside: each operation
//! that needs a clock takes the current time in seconds as an argument.

use vstd::prelude::*;
use crate::text::{spec_contains_ci, contains_ci, str_eq};

verus! {

/// A friend (authorized identity) record.
pub struct Friend {
    pub wxid: String,
    pub nickname: Option<String>,
    pub remark_name: Option<String>,
    pub permission: String,
    pub added_at: Option<i64>,
    pub added_by: Option<String>,
    pub notes: Option<String>,
}

/// One execution session: conversational continuity for one identity.
pub struct Session {
    pub id: String,
    pub wxid: String,
    pub agent_session: Option<String>,
    pub created_at: i64,
    pub last_active: i64,
    pub message_count: i64,
}

/// One audit log entry.
pub struct AuditEntry {
    pub id: i64,
    pub wxid: String,
    pub nickname: Option<String>,
    pub direction: String,
    pub message: Option<String>,
    pub agent_session: Option<String>,
    pub timestamp: i64,
}

/// Outcome of a rate-limit check.
pub struct RateLimitResult {
    pub allowed: bool,
    pub reason: Option<String>,
}

/// One per-minute request counter.
struct RateWindow {
    wxid: String,
    /// Minutes since the epoch (the timestamp truncated to the minute).
    window_start: i64,
    count: i64,
}

/// Why a store operation was refused.
#[derive(Debug, PartialEq, Eq, Structural, Clone, Copy)]
pub enum StoreError {
    /// A permission string outside admin/trusted/normal/blocked.
    InvalidTier,
    /// An audit direction other than "in" or "out".
    InvalidDirection,
    /// A session id that already exists.
    DuplicateSessionId,
    /// The audit id space is used up.
    CapacityExhausted,
}

/// View of an optional borrowed string.
pub open spec fn ov(o: Option<&str>) -> Option<Seq<char>> {
    match o {
        Some(s) => Some(s@),
        None => None,
    }
}

/// View of an optional owned string.
pub open spec fn ovs(o: Option<String>) -> Option<Seq<char>> {
    match o {
        Some(s) => Some(s@),
        None => None,
    }
}

pub ghost struct FriendV {
    pub wxid: Seq<char>,
    pub nickname: Option<Seq<char>>,
    pub remark_name: Option<Seq<char>>,
    pub permission: Seq<char>,
    pub added_at: Option<i64>,
    pub added_by: Option<Seq<char>>,
    pub notes: Option<Seq<char>>,
}

impl View for Friend {
    type V = FriendV;

    open spec fn view(&self) -> FriendV {
        FriendV {
            wxid: self.wxid@,
            nickname: ovs(self.nickname),
            remark_name: ovs(self.remark_name),
            permission: self.permission@,
            added_at: self.added_at,
            added_by: ovs(self.added_by),
            notes: ovs(self.notes),
        }
    }
}

pub ghost struct SessionV {
    pub id: Seq<char>,
    pub wxid: Seq<char>,
    pub agent_session: Option<Seq<char>>,
    pub created_at: i64,
    pub last_active: i64,
    pub message_count: i64,
}

impl View for Session {
    type V = SessionV;

    open spec fn view(&self) -> SessionV {
        SessionV {
            id: self.id@,
            wxid: self.wxid@,
            agent_session: ovs(self.agent_session),
            created_at: self.created_at,
            last_active: self.last_active,
            message_count: self.message_count,
        }
    }
}

pub ghost struct AuditEntryV {
    pub id: i64,
    pub wxid: Seq<char>,
    pub nickname: Option<Seq<char>>,
    pub direction: Seq<char>,
    pub message: Option<Seq<char>>,
    pub agent_session: Option<Seq<char>>,
    pub timestamp: i64,
}

impl View for AuditEntry {
    type V = AuditEntryV;

    open spec fn view(&self) -> AuditEntryV {
        AuditEntryV {
            id: self.id,
            wxid: self.wxid@,
            nickname: ovs(self.nickname),
            direction: self.direction@,
            message: ovs(self.message),
            agent_session: ovs(self.agent_session),
            timestamp: self.timestamp,
        }
    }
}

pub ghost struct RateWindowV {
    pub wxid: Seq<char>,
    pub window_start: i64,
    pub count: i64,
}

impl View for RateWindow {
    type V = RateWindowV;

    closed spec fn view(&self) -> RateWindowV {
        RateWindowV { wxid: self.wxid@, window_start: self.window_start, count: self.count }
    }
}

/// The store's abstract state.
pub ghost struct DbV {
    pub friends: Seq<FriendV>,
    pub sessions: Seq<SessionV>,
    pub audit: Seq<AuditEntryV>,
    pub rate: Seq<RateWindowV>,
}

/// The session and permission store.
pub struct Database {
    friends: Vec<Friend>,
    sessions: Vec<Session>,
    audit: Vec<AuditEntry>,
    rate: Vec<RateWindow>,
}

impl View for Database {
    type V = DbV;

    closed spec fn view(&self) -> DbV {
        DbV {
            friends: self.friends@.map_values(|f: Friend| f@),
            sessions: self.sessions@.map_values(|s: Session| s@),
            audit: self.audit@.map_values(|a: AuditEntry| a@),
            rate: self.rate@.map_values(|w: RateWindow| w@),
        }
    }
}

/// The four stored permission tiers.
pub open spec fn spec_valid_tier(s: Seq<char>) -> bool {
    ||| s == "admin"@
    ||| s == "trusted"@
    ||| s == "normal"@
    ||| s == "blocked"@
}

/// Whether a permission string is one of the four stored tiers.
pub fn valid_tier(s: &str) -> (r: bool)
    ensures
        r == spec_valid_tier(s@),
{
    str_eq(s, "admin") || str_eq(s, "trusted") || str_eq(s, "normal") || str_eq(s, "blocked")
}

impl Database {
    /// Friend identities are unique in a well-formed store.
    pub proof fn lemma_friends_unique(self, i: int, j: int)
        requires
            self.wf(),
            0 <= i < self@.friends.len(),
            0 <= j < self@.friends.len(),
            self@.friends[i].wxid == self@.friends[j].wxid,
        ensures
            i == j,
    {
        if i != j {
            let a = if i < j {
                i
            } else {
                j
            };
            let b = if i < j {
                j
            } else {
                i
            };
            assert(self.friends@[a]@.wxid != self.friends@[b]@.wxid);
            assert(self@.friends[a] == self.friends@[a]@);
            assert(self@.friends[b] == self.friends@[b]@);
        }
    }
}

/// Keep the new value where one is given, the prior value otherwise.
pub open spec fn spec_coalesce(new: Option<Seq<char>>, prior: Option<Seq<char>>) -> Option<
    Seq<char>,
> {
    if new is Some {
        new
    } else {
        prior
    }
}

/// The record that updating an existing friend produces: given fields
/// replace, omitted fields are preserved, identity and provenance never
/// change.
pub open spec fn spec_upserted_friend(
    prior: FriendV,
    nickname: Option<Seq<char>>,
    remark_name: Option<Seq<char>>,
    permission: Option<Seq<char>>,
    notes: Option<Seq<char>>,
) -> FriendV {
    FriendV {
        wxid: prior.wxid,
        nickname: spec_coalesce(nickname, prior.nickname),
        remark_name: spec_coalesce(remark_name, prior.remark_name),
        permission: match permission {
            Some(p) => p,
            None => prior.permission,
        },
        added_at: prior.added_at,
        added_by: prior.added_by,
        notes: spec_coalesce(notes, prior.notes),
    }
}

/// The record that registering a new friend produces; the tier defaults
/// to "normal".
pub open spec fn spec_inserted_friend(
    wxid: Seq<char>,
    nickname: Option<Seq<char>>,
    remark_name: Option<Seq<char>>,
    permission: Option<Seq<char>>,
    added_by: Option<Seq<char>>,
    notes: Option<Seq<char>>,
    now: i64,
) -> FriendV {
    FriendV {
        wxid,
        nickname,
        remark_name,
        permission: match permission {
            Some(p) => p,
            None => "normal"@,
        },
        added_at: Some(now),
        added_by,
        notes,
    }
}

/// A friend's display or remark name contains the given text (ASCII
/// case-insensitively).
pub open spec fn spec_friend_name_matches(f: FriendV, pat: Seq<char>) -> bool {
    ||| (match f.nickname {
        Some(n) => spec_contains_ci(n, pat),
        None => false,
    })
    ||| (match f.remark_name {
        Some(n) => spec_contains_ci(n, pat),
        None => false,
    })
}

/// Whether a friend's display or remark name contains the given text.
fn friend_name_matches(f: &Friend, pat: &str) -> (r: bool)
    ensures
        r == spec_friend_name_matches(f@, pat@),
{
    let nick = match &f.nickname {
        Some(n) => contains_ci(n.as_str(), pat),
        None => false,
    };
    if nick {
        return true;
    }
    match &f.remark_name {
        Some(n) => contains_ci(n.as_str(), pat),
        None => false,
    }
}

/// The friends holding exactly the given tier, in order.
pub open spec fn spec_friends_with_tier(friends: Seq<FriendV>, tier: Seq<char>) -> Seq<FriendV> {
    friends.filter(|f: FriendV| f.permission == tier)
}

proof fn lemma_friends_with_tier_step(friends: Seq<FriendV>, k: int, tier: Seq<char>)
    requires
        0 < k <= friends.len(),
    ensures
        spec_friends_with_tier(friends.take(k), tier) == if friends[k - 1].permission == tier {
            spec_friends_with_tier(friends.take(k - 1), tier).push(friends[k - 1])
        } else {
            spec_friends_with_tier(friends.take(k - 1), tier)
        },
{
    reveal(Seq::filter);
    assert(friends.take(k).drop_last() =~= friends.take(k - 1));
    assert(friends.take(k).last() == friends[k - 1]);
}

/// The friends whose display or remark name contains the given text, in
/// order.
pub open spec fn spec_friends_matching(friends: Seq<FriendV>, pat: Seq<char>) -> Seq<FriendV> {
    friends.filter(|f: FriendV| spec_friend_name_matches(f, pat))
}

proof fn lemma_friends_matching_step(friends: Seq<FriendV>, k: int, pat: Seq<char>)
    requires
        0 < k <= friends.len(),
    ensures
        spec_friends_matching(friends.take(k), pat) == if spec_friend_name_matches(
            friends[k - 1],
            pat,
        ) {
            spec_friends_matching(friends.take(k - 1), pat).push(friends[k - 1])
        } else {
            spec_friends_matching(friends.take(k - 1), pat)
        },
{
    reveal(Seq::filter);
    assert(friends.take(k).drop_last() =~= friends.take(k - 1));
    assert(friends.take(k).last() == friends[k - 1]);
}

/// Every name-search result is one of the stored friend records.
pub proof fn lemma_matching_member(friends: Seq<FriendV>, pat: Seq<char>, i: int)
    requires
        0 <= i < spec_friends_matching(friends, pat).len(),
    ensures
        exists|j: int|
            0 <= j < friends.len() && #[trigger] friends[j] == spec_friends_matching(
                friends,
                pat,
            )[i],
    decreases friends.len(),
{
    reveal(Seq::filter);
    if friends.len() > 0 {
        let prior = spec_friends_matching(friends.drop_last(), pat);
        if i < prior.len() {
            lemma_matching_member(friends.drop_last(), pat, i);
            let j = choose|j: int|
                0 <= j < friends.drop_last().len() && #[trigger] friends.drop_last()[j]
                    == prior[i];
            assert(friends[j] == prior[i]);
        } else {
            assert(friends[friends.len() - 1] == spec_friends_matching(friends, pat)[i]);
        }
    }
}

/// The sessions not owned by the given identity, in order.
pub open spec fn spec_sessions_without(sessions: Seq<SessionV>, id: Seq<char>) -> Seq<SessionV> {
    sessions.filter(|s: SessionV| s.wxid != id)
}

proof fn lemma_sessions_without_step(sessions: Seq<SessionV>, k: int, id: Seq<char>)
    requires
        0 < k <= sessions.len(),
    ensures
        spec_sessions_without(sessions.take(k), id) == if sessions[k - 1].wxid != id {
            spec_sessions_without(sessions.take(k - 1), id).push(sessions[k - 1])
        } else {
            spec_sessions_without(sessions.take(k - 1), id)
        },
{
    reveal(Seq::filter);
    assert(sessions.take(k).drop_last() =~= sessions.take(k - 1));
    assert(sessions.take(k).last() == sessions[k - 1]);
}

/// The sessions last active strictly after the cutoff, in order.
pub open spec fn spec_sessions_active_after(sessions: Seq<SessionV>, cutoff: int) -> Seq<
    SessionV,
> {
    sessions.filter(|s: SessionV| s.last_active > cutoff)
}

proof fn lemma_sessions_active_after_step(sessions: Seq<SessionV>, k: int, cutoff: int)
    requires
        0 < k <= sessions.len(),
    ensures
        spec_sessions_active_after(sessions.take(k), cutoff) == if sessions[k - 1].last_active
            > cutoff {
            spec_sessions_active_after(sessions.take(k - 1), cutoff).push(sessions[k - 1])
        } else {
            spec_sessions_active_after(sessions.take(k - 1), cutoff)
        },
{
    reveal(Seq::filter);
    assert(sessions.take(k).drop_last() =~= sessions.take(k - 1));
    assert(sessions.take(k).last() == sessions[k - 1]);
}

impl Database {
    /// Well-formedness: identities are unique among friends, session ids
    /// are unique, counters are positive and keyed uniquely, audit ids
    /// grow with insertion.
    pub closed spec fn wf(self) -> bool {
        &&& forall|i: int, j: int|
            0 <= i < j < self.friends@.len() ==> self.friends@[i]@.wxid != self.friends@[j]@.wxid
        &&& forall|i: int, j: int|
            0 <= i < j < self.sessions@.len() ==> self.sessions@[i]@.id != self.sessions@[j]@.id
        &&& forall|i: int|
            0 <= i < self.sessions@.len() ==> #[trigger] self.sessions@[i]@.message_count >= 0
        &&& forall|i: int, j: int|
            0 <= i < j < self.rate@.len() ==> !(self.rate@[i]@.wxid == self.rate@[j]@.wxid
                && self.rate@[i]@.window_start == self.rate@[j]@.window_start)
        &&& forall|i: int| 0 <= i < self.rate@.len() ==> #[trigger] self.rate@[i]@.count >= 1
        &&& forall|i: int|
            0 <= i < self.audit@.len() ==> 0 < #[trigger] self.audit@[i]@.id
        &&& forall|i: int, j: int|
            0 <= i < j < self.audit@.len() ==> self.audit@[i]@.id < self.audit@[j]@.id
    }

    /// An empty store.
    pub fn new() -> (db: Database)
        ensures
            db.wf(),
            db@.friends =~= Seq::<FriendV>::empty(),
            db@.sessions =~= Seq::<SessionV>::empty(),
            db@.audit =~= Seq::<AuditEntryV>::empty(),
            db@.rate =~= Seq::<RateWindowV>::empty(),
    {
        Database {
            friends: Vec::new(),
            sessions: Vec::new(),
            audit: Vec::new(),
            rate: Vec::new(),
        }
    }

    // ============================================
    // Friends
    // ============================================

    /// Index of the friend with this identity, if any.
    fn find_friend_idx(&self, wxid: &str) -> (r: Option<usize>)
        ensures
            match r {
                Some(i) => i < self@.friends.len() && self@.friends[i as int].wxid == wxid@,
                None => forall|i: int|
                    0 <= i < self@.friends.len() ==> self@.friends[i].wxid != wxid@,
            },
    {
        let n = self.friends.len();
        let mut k: usize = 0;
        while k < n
            invariant
                n == self.friends@.len(),
                k <= n,
                self@.friends.len() == n,
                forall|i: int| 0 <= i < k ==> self@.friends[i].wxid != wxid@,
            decreases n - k,
        {
            if str_eq(self.friends[k].wxid.as_str(), wxid) {
                return Some(k);
            }
            k += 1;
        }
        None
    }

    /// Look up a friend by identity.
    pub fn friend_get(&self, wxid: &str) -> (r: Option<Friend>)
        ensures
            match r {
                Some(f) => exists|i: int|
                    0 <= i < self@.friends.len() && #[trigger] self@.friends[i].wxid == wxid@
                        && f@ == self@.friends[i],
                None => forall|i: int|
                    0 <= i < self@.friends.len() ==> self@.friends[i].wxid != wxid@,
            },
    {
        match self.find_friend_idx(wxid) {
            Some(i) => Some(clone_friend(&self.friends[i])),
            None => None,
        }
    }

    /// The stored permission of a friend, if registered.
    pub fn friend_get_permission(&self, wxid: &str) -> (r: Option<String>)
        ensures
            match r {
                Some(p) => exists|i: int|
                    0 <= i < self@.friends.len() && #[trigger] self@.friends[i].wxid == wxid@
                        && p@ == self@.friends[i].permission,
                None => forall|i: int|
                    0 <= i < self@.friends.len() ==> self@.friends[i].wxid != wxid@,
            },
    {
        match self.find_friend_idx(wxid) {
            Some(i) => Some(self.friends[i].permission.clone()),
            None => None,
        }
    }

    /// Set a friend's permission tier. A no-op (still `Ok`) when the
    /// identity is unknown; refused when the tier string is invalid.
    pub fn friend_set_permission(&mut self, wxid: &str, permission: &str) -> (r: Result<
        (),
        StoreError,
    >)
        requires
            old(self).wf(),
        ensures
            final(self).wf(),
            r is Err <==> !spec_valid_tier(permission@),
            r is Err ==> final(self)@ == old(self)@,
            r is Ok ==> final(self)@.sessions == old(self)@.sessions && final(self)@.audit == old(
                self,
            )@.audit && final(self)@.rate == old(self)@.rate,
            r is Ok ==> ({
                ||| (exists|i: int|
                    0 <= i < old(self)@.friends.len() && #[trigger] old(self)@.friends[i].wxid
                        == wxid@ && final(self)@.friends =~= old(self)@.friends.update(
                        i,
                        FriendV { permission: permission@, ..old(self)@.friends[i] },
                    ))
                ||| ((forall|i: int|
                    0 <= i < old(self)@.friends.len() ==> old(self)@.friends[i].wxid != wxid@)
                    && final(self)@.friends == old(self)@.friends)
            }),
    {
        if !valid_tier(permission) {
            return Err(StoreError::InvalidTier);
        }
        match self.find_friend_idx(wxid) {
            Some(i) => {
                let f = clone_friend(&self.friends[i]);
                let updated = Friend { permission: String::from_str(permission), ..f };
                self.friends[i] = updated;
                proof {
                    assert(self@.friends =~= old(self)@.friends.update(
                        i as int,
                        FriendV { permission: permission@, ..old(self)@.friends[i as int] },
                    ));
                }
            },
            None => {},
        }
        Ok(())
    }

    /// Register or update a friend record. Omitted fields keep their
    /// prior values on an existing record ("coalesce" semantics); a new
    /// record defaults to the "normal" tier. An invalid tier string is
    /// refused and nothing changes.
    pub fn friend_upsert(
        &mut self,
        wxid: &str,
        nickname: Option<&str>,
        remark_name: Option<&str>,
        permission: Option<&str>,
        added_by: Option<&str>,
        notes: Option<&str>,
        now: i64,
    ) -> (r: Result<(), StoreError>)
        requires
            old(self).wf(),
        ensures
            final(self).wf(),
            final(self)@.sessions == old(self)@.sessions,
            final(self)@.audit == old(self)@.audit,
            final(self)@.rate == old(self)@.rate,
            r is Err <==> (match permission {
                Some(p) => !spec_valid_tier(p@),
                None => false,
            }),
            r is Err ==> final(self)@ == old(self)@,
            r is Ok ==> ({
                ||| (exists|i: int|
                    0 <= i < old(self)@.friends.len() && #[trigger] old(self)@.friends[i].wxid
                        == wxid@ && final(self)@.friends =~= old(self)@.friends.update(
                        i,
                        spec_upserted_friend(
                            old(self)@.friends[i],
                            ov(nickname),
                            ov(remark_name),
                            ov(permission),
                            ov(notes),
                        ),
                    ))
                ||| ((forall|i: int|
                    0 <= i < old(self)@.friends.len() ==> old(self)@.friends[i].wxid != wxid@)
                    && final(self)@.friends =~= old(self)@.friends.push(
                    spec_inserted_friend(
                        wxid@,
                        ov(nickname),
                        ov(remark_name),
                        ov(permission),
                        ov(added_by),
                        ov(notes),
                        now,
                    ),
                ))
            }),
    {
        match permission {
            Some(p) => {
                if !valid_tier(p) {
                    return Err(StoreError::InvalidTier);
                }
            },
            None => {},
        }
        match self.find_friend_idx(wxid) {
            Some(i) => {
                let oldf = clone_friend(&self.friends[i]);
                let newf = Friend {
                    wxid: oldf.wxid,
                    nickname: match nickname {
                        Some(s) => Some(String::from_str(s)),
                        None => oldf.nickname,
                    },
                    remark_name: match remark_name {
                        Some(s) => Some(String::from_str(s)),
                        None => oldf.remark_name,
                    },
                    permission: match permission {
                        Some(p) => String::from_str(p),
                        None => oldf.permission,
                    },
                    added_at: oldf.added_at,
                    added_by: oldf.added_by,
                    notes: match notes {
                        Some(s) => Some(String::from_str(s)),
                        None => oldf.notes,
                    },
                };
                self.friends[i] = newf;
                proof {
                    assert(self@.friends =~= old(self)@.friends.update(
                        i as int,
                        spec_upserted_friend(
                            old(self)@.friends[i as int],
                            ov(nickname),
                            ov(remark_name),
                            ov(permission),
                            ov(notes),
                        ),
                    ));
                    assert(self.friends@[i as int]@.wxid == old(
                        self,
                    ).friends@[i as int]@.wxid);
                    assert forall|a: int, b: int|
                        0 <= a < b < self.friends@.len() implies self.friends@[a]@.wxid
                        != self.friends@[b]@.wxid by {
                        assert(old(self).friends@[a]@.wxid != old(self).friends@[b]@.wxid);
                    }
                }
            },
            None => {
                let newf = Friend {
                    wxid: String::from_str(wxid),
                    nickname: match nickname {
                        Some(s) => Some(String::from_str(s)),
                        None => None,
                    },
                    remark_name: match remark_name {
                        Some(s) => Some(String::from_str(s)),
                        None => None,
                    },
                    permission: String::from_str(
                        match permission {
                            Some(p) => p,
                            None => "normal",
                        },
                    ),
                    added_at: Some(now),
                    added_by: match added_by {
                        Some(s) => Some(String::from_str(s)),
                        None => None,
                    },
                    notes: match notes {
                        Some(s) => Some(String::from_str(s)),
                        None => None,
                    },
                };
                self.friends.push(newf);
                proof {
                    assert(self@.friends =~= old(self)@.friends.push(
                        spec_inserted_friend(
                            wxid@,
                            ov(nickname),
                            ov(remark_name),
                            ov(permission),
                            ov(added_by),
                            ov(notes),
                            now,
                        ),
                    ));
                    let m = self.friends@.len() as int;
                    assert(self.friends@[m - 1]@.wxid == wxid@);
                    assert forall|a: int, b: int|
                        0 <= a < b < self.friends@.len() implies self.friends@[a]@.wxid
                        != self.friends@[b]@.wxid by {
                        if b < m - 1 {
                            assert(old(self).friends@[a]@.wxid != old(self).friends@[b]@.wxid);
                        } else {
                            assert(old(self)@.friends[a] == old(self).friends@[a]@);
                            assert(old(self)@.friends[a].wxid != wxid@);
                        }
                    }
                }
            },
        }
        Ok(())
    }

    /// All friend records, most recently added first.
    pub fn friend_list_all(&self) -> (r: Vec<Friend>)
        ensures
            r@.map_values(|f: Friend| f@) =~= self@.friends.reverse(),
    {
        let n = self.friends.len();
        let mut r: Vec<Friend> = Vec::new();
        let mut k: usize = 0;
        while k < n
            invariant
                n == self.friends@.len(),
                k <= n,
                self@.friends.len() == n,
                r@.len() == k as int,
                forall|i: int| 0 <= i < k ==> (#[trigger] r@[i])@ == self@.friends[n - 1 - i],
            decreases n - k,
        {
            r.push(clone_friend(&self.friends[n - 1 - k]));
            k += 1;
        }
        proof {
            assert(r@.map_values(|f: Friend| f@) =~= self@.friends.reverse());
        }
        r
    }

    /// All friends holding exactly this tier, in insertion order.
    pub fn friend_list_by_permission(&self, permission: &str) -> (r: Vec<Friend>)
        ensures
            r@.map_values(|f: Friend| f@) =~= spec_friends_with_tier(self@.friends, permission@),
    {
        let n = self.friends.len();
        let mut r: Vec<Friend> = Vec::new();
        let mut k: usize = 0;
        while k < n
            invariant
                n == self.friends@.len(),
                k <= n,
                self@.friends.len() == n,
                r@.map_values(|f: Friend| f@) =~= spec_friends_with_tier(
                    self@.friends.take(k as int),
                    permission@,
                ),
            decreases n - k,
        {
            if str_eq(self.friends[k].permission.as_str(), permission) {
                r.push(clone_friend(&self.friends[k]));
            }
            k += 1;
            proof {
                lemma_friends_with_tier_step(self@.friends, k as int, permission@);
            }
        }
        proof {
            assert(self@.friends.take(n as int) =~= self@.friends);
        }
        r
    }

    /// All friends whose display name or remark name contains the given
    /// text, compared ASCII case-insensitively, in insertion order.
    pub fn friend_find_by_nickname(&self, nickname: &str) -> (r: Vec<Friend>)
        ensures
            r@.map_values(|f: Friend| f@) =~= spec_friends_matching(self@.friends, nickname@),
    {
        let n = self.friends.len();
        let mut r: Vec<Friend> = Vec::new();
        let mut k: usize = 0;
        while k < n
            invariant
                n == self.friends@.len(),
                k <= n,
                self@.friends.len() == n,
                r@.map_values(|f: Friend| f@) =~= spec_friends_matching(
                    self@.friends.take(k as int),
                    nickname@,
                ),
            decreases n - k,
        {
            let matched = friend_name_matches(&self.friends[k], nickname);
            if matched {
                r.push(clone_friend(&self.friends[k]));
            }
            k += 1;
            proof {
                lemma_friends_matching_step(self@.friends, k as int, nickname@);
            }
        }
        proof {
            assert(self@.friends.take(n as int) =~= self@.friends);
        }
        r
    }

    /// Remove the friend record with this identity, if present.
    pub fn friend_remove(&mut self, wxid: &str)
        requires
            old(self).wf(),
        ensures
            final(self).wf(),
            final(self)@.sessions == old(self)@.sessions,
            final(self)@.audit == old(self)@.audit,
            final(self)@.rate == old(self)@.rate,
            ({
                ||| (exists|i: int|
                    0 <= i < old(self)@.friends.len() && #[trigger] old(self)@.friends[i].wxid
                        == wxid@ && final(self)@.friends =~= old(self)@.friends.remove(i))
                ||| ((forall|i: int|
                    0 <= i < old(self)@.friends.len() ==> old(self)@.friends[i].wxid != wxid@)
                    && final(self)@.friends == old(self)@.friends)
            }),
    {
        match self.find_friend_idx(wxid) {
            Some(i) => {
                self.friends.remove(i);
                proof {
                    assert(self@.friends =~= old(self)@.friends.remove(i as int));
                }
            },
            None => {},
        }
    }
}

/// `j` indexes a session of `wxid` that is no later than session `i`:
/// strictly older, or touched at the same time but created earlier.
pub open spec fn spec_session_no_later(sessions: Seq<SessionV>, j: int, i: int) -> bool {
    ||| sessions[j].last_active < sessions[i].last_active
    ||| (sessions[j].last_active == sessions[i].last_active && j <= i)
}

impl Database {
    // ============================================
    // Sessions
    // ============================================

    /// Index of the session with this id, if any.
    fn find_session_idx(&self, id: &str) -> (r: Option<usize>)
        ensures
            match r {
                Some(i) => i < self@.sessions.len() && self@.sessions[i as int].id == id@,
                None => forall|i: int|
                    0 <= i < self@.sessions.len() ==> self@.sessions[i].id != id@,
            },
    {
        let n = self.sessions.len();
        let mut k: usize = 0;
        while k < n
            invariant
                n == self.sessions@.len(),
                k <= n,
                self@.sessions.len() == n,
                forall|i: int| 0 <= i < k ==> self@.sessions[i].id != id@,
            decreases n - k,
        {
            if str_eq(self.sessions[k].id.as_str(), id) {
                return Some(k);
            }
            k += 1;
        }
        None
    }

    /// The most recently active session of this identity: latest
    /// last-active time, ties going to the most recently created.
    pub fn session_get_active(&self, wxid: &str) -> (r: Option<Session>)
        ensures
            match r {
                Some(s) => exists|i: int|
                    0 <= i < self@.sessions.len() && #[trigger] self@.sessions[i].wxid == wxid@
                        && s@ == self@.sessions[i] && (forall|j: int|
                        0 <= j < self@.sessions.len() && #[trigger] self@.sessions[j].wxid == wxid@
                            ==> spec_session_no_later(self@.sessions, j, i)),
                None => forall|i: int|
                    0 <= i < self@.sessions.len() ==> self@.sessions[i].wxid != wxid@,
            },
    {
        let n = self.sessions.len();
        let mut best: Option<usize> = None;
        let mut k: usize = 0;
        while k < n
            invariant
                n == self.sessions@.len(),
                k <= n,
                self@.sessions.len() == n,
                match best {
                    Some(b) => b < k && self@.sessions[b as int].wxid == wxid@ && (forall|j: int|
                        0 <= j < k && #[trigger] self@.sessions[j].wxid == wxid@
                            ==> spec_session_no_later(self@.sessions, j, b as int)),
                    None => forall|i: int| 0 <= i < k ==> self@.sessions[i].wxid != wxid@,
                },
            decreases n - k,
        {
            if str_eq(self.sessions[k].wxid.as_str(), wxid) {
                match best {
                    Some(b) => {
                        if self.sessions[k].last_active >= self.sessions[b].last_active {
                            best = Some(k);
                        }
                    },
                    None => {
                        best = Some(k);
                    },
                }
            }
            k += 1;
        }
        match best {
            Some(b) => Some(clone_session(&self.sessions[b])),
            None => None,
        }
    }

    /// Create a new session. Fresh sessions carry no continuation token
    /// unless one is given, start with a zero message count, and are
    /// created and touched at `now`. A duplicate id is refused.
    pub fn session_create(
        &mut self,
        id: &str,
        wxid: &str,
        agent_session: Option<&str>,
        now: i64,
    ) -> (r: Result<(), StoreError>)
        requires
            old(self).wf(),
        ensures
            final(self).wf(),
            final(self)@.friends == old(self)@.friends,
            final(self)@.audit == old(self)@.audit,
            final(self)@.rate == old(self)@.rate,
            r is Err <==> (exists|i: int|
                0 <= i < old(self)@.sessions.len() && #[trigger] old(self)@.sessions[i].id == id@),
            r is Err ==> final(self)@ == old(self)@,
            r is Ok ==> final(self)@.sessions =~= old(self)@.sessions.push(
                SessionV {
                    id: id@,
                    wxid: wxid@,
                    agent_session: ov(agent_session),
                    created_at: now,
                    last_active: now,
                    message_count: 0,
                },
            ),
    {
        match self.find_session_idx(id) {
            Some(_) => Err(StoreError::DuplicateSessionId),
            None => {
                let s = Session {
                    id: String::from_str(id),
                    wxid: String::from_str(wxid),
                    agent_session: match agent_session {
                        Some(t) => Some(String::from_str(t)),
                        None => None,
                    },
                    created_at: now,
                    last_active: now,
                    message_count: 0,
                };
                self.sessions.push(s);
                proof {
                    let m = self.sessions@.len() as int;
                    assert forall|a: int, b: int|
                        0 <= a < b < self.sessions@.len() implies self.sessions@[a]@.id
                        != self.sessions@[b]@.id by {
                        if b < m - 1 {
                            assert(old(self).sessions@[a]@.id != old(self).sessions@[b]@.id);
                        } else {
                            assert(old(self)@.sessions[a] == old(self).sessions@[a]@);
                            assert(old(self)@.sessions[a].id != id@);
                        }
                    }
                    assert(self@.sessions =~= old(self)@.sessions.push(
                        SessionV {
                            id: id@,
                            wxid: wxid@,
                            agent_session: ov(agent_session),
                            created_at: now,
                            last_active: now,
                            message_count: 0,
                        },
                    ));
                }
                Ok(())
            },
        }
    }

    /// Touch a session: advance its last-active time to `now` and count
    /// one more message. Unknown ids are ignored.
    pub fn session_touch(&mut self, id: &str, now: i64)
        requires
            old(self).wf(),
        ensures
            final(self).wf(),
            final(self)@.friends == old(self)@.friends,
            final(self)@.audit == old(self)@.audit,
            final(self)@.rate == old(self)@.rate,
            ({
                ||| (exists|i: int|
                    0 <= i < old(self)@.sessions.len() && #[trigger] old(self)@.sessions[i].id
                        == id@ && final(self)@.sessions =~= old(self)@.sessions.update(
                        i,
                        SessionV {
                            last_active: now,
                            message_count: if old(self)@.sessions[i].message_count < i64::MAX {
                                (old(self)@.sessions[i].message_count + 1) as i64
                            } else {
                                old(self)@.sessions[i].message_count
                            },
                            ..old(self)@.sessions[i]
                        },
                    ))
                ||| ((forall|i: int|
                    0 <= i < old(self)@.sessions.len() ==> old(self)@.sessions[i].id != id@)
                    && final(self)@ == old(self)@)
            }),
    {
        match self.find_session_idx(id) {
            Some(i) => {
                let s = clone_session(&self.sessions[i]);
                let bumped: i64 = if s.message_count < i64::MAX {
                    s.message_count + 1
                } else {
                    s.message_count
                };
                let updated = Session { last_active: now, message_count: bumped, ..s };
                self.sessions[i] = updated;
                proof {
                    assert forall|a: int, b: int|
                        0 <= a < b < self.sessions@.len() implies self.sessions@[a]@.id
                        != self.sessions@[b]@.id by {
                        assert(old(self).sessions@[a]@.id != old(self).sessions@[b]@.id);
                    }
                    assert(self@.sessions =~= old(self)@.sessions.update(
                        i as int,
                        SessionV {
                            last_active: now,
                            message_count: if old(self)@.sessions[i as int].message_count
                                < i64::MAX {
                                (old(self)@.sessions[i as int].message_count + 1) as i64
                            } else {
                                old(self)@.sessions[i as int].message_count
                            },
                            ..old(self)@.sessions[i as int]
                        },
                    ));
                }
            },
            None => {},
        }
    }

    /// Record the continuation token learned from execution output on a
    /// session. Unknown ids are ignored.
    pub fn session_set_agent_session(&mut self, id: &str, agent_session: &str)
        requires
            old(self).wf(),
        ensures
            final(self).wf(),
            final(self)@.friends == old(self)@.friends,
            final(self)@.audit == old(self)@.audit,
            final(self)@.rate == old(self)@.rate,
            ({
                ||| (exists|i: int|
                    0 <= i < old(self)@.sessions.len() && #[trigger] old(self)@.sessions[i].id
                        == id@ && final(self)@.sessions =~= old(self)@.sessions.update(
                        i,
                        SessionV {
                            agent_session: Some(agent_session@),
                            ..old(self)@.sessions[i]
                        },
                    ))
                ||| ((forall|i: int|
                    0 <= i < old(self)@.sessions.len() ==> old(self)@.sessions[i].id != id@)
                    && final(self)@ == old(self)@)
            }),
    {
        match self.find_session_idx(id) {
            Some(i) => {
                let s = clone_session(&self.sessions[i]);
                let updated = Session {
                    agent_session: Some(String::from_str(agent_session)),
                    ..s
                };
                self.sessions[i] = updated;
                proof {
                    assert forall|a: int, b: int|
                        0 <= a < b < self.sessions@.len() implies self.sessions@[a]@.id
                        != self.sessions@[b]@.id by {
                        assert(old(self).sessions@[a]@.id != old(self).sessions@[b]@.id);
                    }
                    assert(self@.sessions =~= old(self)@.sessions.update(
                        i as int,
                        SessionV {
                            agent_session: Some(agent_session@),
                            ..old(self)@.sessions[i as int]
                        },
                    ));
                }
            },
            None => {},
        }
    }

    /// Delete every session of this identity.
    pub fn session_clear_user(&mut self, wxid: &str)
        requires
            old(self).wf(),
        ensures
            final(self).wf(),
            final(self)@.friends == old(self)@.friends,
            final(self)@.audit == old(self)@.audit,
            final(self)@.rate == old(self)@.rate,
            final(self)@.sessions =~= spec_sessions_without(old(self)@.sessions, wxid@),
    {
        let n = self.sessions.len();
        let mut kept: Vec<Session> = Vec::new();
        let mut k: usize = 0;
        while k < n
            invariant
                n == self.sessions@.len(),
                k <= n,
                self@.sessions.len() == n,
                old(self).wf(),
                self == old(self),
                kept@.map_values(|s: Session| s@) =~= spec_sessions_without(
                    self@.sessions.take(k as int),
                    wxid@,
                ),
                forall|a: int|
                    0 <= a < kept@.len() ==> exists|j: int|
                        0 <= j < k && (#[trigger] kept@[a])@ == self@.sessions[j],
                forall|a: int, b: int|
                    0 <= a < b < kept@.len() ==> kept@[a]@.id != kept@[b]@.id,
            decreases n - k,
        {
            if !str_eq(self.sessions[k].wxid.as_str(), wxid) {
                let ghost prev = kept@;
                kept.push(clone_session(&self.sessions[k]));
                proof {
                    assert forall|a: int, b: int|
                        0 <= a < b < kept@.len() implies kept@[a]@.id != kept@[b]@.id by {
                        if b == kept@.len() - 1 && a < b {
                            let j = choose|j: int|
                                0 <= j < k && (#[trigger] prev[a])@ == self@.sessions[j];
                            assert(self.sessions@[j]@.id != self.sessions@[k as int]@.id);
                        }
                    }
                }
            }
            k += 1;
            proof {
                lemma_sessions_without_step(self@.sessions, k as int, wxid@);
            }
        }
        proof {
            assert(self@.sessions.take(n as int) =~= self@.sessions);
            assert forall|a: int|
                0 <= a < kept@.len() implies kept@[a]@.message_count >= 0 by {
                let j = choose|j: int| 0 <= j < k && (#[trigger] kept@[a])@ == self@.sessions[j];
                assert(self.sessions@[j]@.message_count >= 0);
            }
        }
        self.sessions = kept;
    }

    /// Delete every session whose last-active time is at least
    /// `expire_minutes` old at `now`; the count of deleted sessions is
    /// returned.
    pub fn session_clean_expired(&mut self, expire_minutes: i64, now: i64) -> (r: usize)
        requires
            old(self).wf(),
        ensures
            final(self).wf(),
            final(self)@.friends == old(self)@.friends,
            final(self)@.audit == old(self)@.audit,
            final(self)@.rate == old(self)@.rate,
            final(self)@.sessions =~= spec_sessions_active_after(
                old(self)@.sessions,
                now - expire_minutes * 60,
            ),
            r == old(self)@.sessions.len() - final(self)@.sessions.len(),
    {
        let ghost cutoff = now - expire_minutes * 60;
        let n = self.sessions.len();
        let mut kept: Vec<Session> = Vec::new();
        let mut k: usize = 0;
        while k < n
            invariant
                n == self.sessions@.len(),
                k <= n,
                self@.sessions.len() == n,
                old(self).wf(),
                self == old(self),
                cutoff == now - expire_minutes * 60,
                kept@.map_values(|s: Session| s@) =~= spec_sessions_active_after(
                    self@.sessions.take(k as int),
                    cutoff,
                ),
                kept@.len() <= k,
                forall|a: int|
                    0 <= a < kept@.len() ==> exists|j: int|
                        0 <= j < k && (#[trigger] kept@[a])@ == self@.sessions[j],
                forall|a: int, b: int|
                    0 <= a < b < kept@.len() ==> kept@[a]@.id != kept@[b]@.id,
            decreases n - k,
        {
            let live = (self.sessions[k].last_active as i128) > (now as i128) - (
            expire_minutes as i128) * 60;
            if live {
                let ghost prev = kept@;
                kept.push(clone_session(&self.sessions[k]));
                proof {
                    assert forall|a: int, b: int|
                        0 <= a < b < kept@.len() implies kept@[a]@.id != kept@[b]@.id by {
                        if b == kept@.len() - 1 && a < b {
                            let j = choose|j: int|
                                0 <= j < k && (#[trigger] prev[a])@ == self@.sessions[j];
                            assert(self.sessions@[j]@.id != self.sessions@[k as int]@.id);
                        }
                    }
                }
            }
            k += 1;
            proof {
                lemma_sessions_active_after_step(self@.sessions, k as int, cutoff);
            }
        }
        proof {
            assert(self@.sessions.take(n as int) =~= self@.sessions);
            assert forall|a: int|
                0 <= a < kept@.len() implies kept@[a]@.message_count >= 0 by {
                let j = choose|j: int| 0 <= j < k && (#[trigger] kept@[a])@ == self@.sessions[j];
                assert(self.sessions@[j]@.message_count >= 0);
            }
        }
        let deleted = n - kept.len();
        self.sessions = kept;
        deleted
    }
}

/// An exact copy of a session record.
fn clone_session(s: &Session) -> (r: Session)
    ensures
        r == *s,
{
    Session {
        id: s.id.clone(),
        wxid: s.wxid.clone(),
        agent_session: clone_opt_string(&s.agent_session),
        created_at: s.created_at,
        last_active: s.last_active,
        message_count: s.message_count,
    }
}

/// An exact copy of a friend record.
fn clone_friend(f: &Friend) -> (r: Friend)
    ensures
        r == *f,
{
    Friend {
        wxid: f.wxid.clone(),
        nickname: clone_opt_string(&f.nickname),
        remark_name: clone_opt_string(&f.remark_name),
        permission: f.permission.clone(),
        added_at: f.added_at,
        added_by: clone_opt_string(&f.added_by),
        notes: clone_opt_string(&f.notes),
    }
}

/// An exact copy of an optional string.
fn clone_opt_string(o: &Option<String>) -> (r: Option<String>)
    ensures
        r == *o,
{
    match o {
        Some(s) => Some(s.clone()),
        None => None,
    }
}

/// An exact copy of an audit entry.
fn clone_audit(a: &AuditEntry) -> (r: AuditEntry)
    ensures
        r == *a,
{
    AuditEntry {
        id: a.id,
        wxid: a.wxid.clone(),
        nickname: clone_opt_string(&a.nickname),
        direction: a.direction.clone(),
        message: clone_opt_string(&a.message),
        agent_session: clone_opt_string(&a.agent_session),
        timestamp: a.timestamp,
    }
}

/// The audit entries of one identity, in insertion order.
pub open spec fn spec_audit_of(audit: Seq<AuditEntryV>, id: Seq<char>) -> Seq<AuditEntryV> {
    audit.filter(|a: AuditEntryV| a.wxid == id)
}

proof fn lemma_audit_of_step(audit: Seq<AuditEntryV>, k: int, id: Seq<char>)
    requires
        0 < k <= audit.len(),
    ensures
        spec_audit_of(audit.take(k), id) == if audit[k - 1].wxid == id {
            spec_audit_of(audit.take(k - 1), id).push(audit[k - 1])
        } else {
            spec_audit_of(audit.take(k - 1), id)
        },
{
    reveal(Seq::filter);
    assert(audit.take(k).drop_last() =~= audit.take(k - 1));
    assert(audit.take(k).last() == audit[k - 1]);
}

/// At most the first `limit` entries (all of them for a negative limit).
pub open spec fn spec_take_limit(s: Seq<AuditEntryV>, limit: i64) -> Seq<AuditEntryV> {
    if limit < 0 || limit >= s.len() {
        s
    } else {
        s.take(limit as int)
    }
}

/// The id that the next audit entry gets: one past the last id issued.
pub open spec fn spec_next_audit_id(audit: Seq<AuditEntryV>) -> int {
    if audit.len() == 0 {
        1
    } else {
        audit.last().id + 1
    }
}

/// The minute index of a timestamp in seconds (clamped at zero).
pub open spec fn spec_minute_of(now: i64) -> int {
    if now < 0 {
        0
    } else {
        now as int / 60
    }
}

/// The minute index of a timestamp in seconds.
pub fn minute_of(now: i64) -> (r: i64)
    ensures
        r == spec_minute_of(now),
{
    if now < 0 {
        0
    } else {
        ((now as u64) / 60) as i64
    }
}

/// The day index of a timestamp in seconds (clamped at zero).
pub open spec fn spec_day_of(now: i64) -> int {
    if now < 0 {
        0
    } else {
        now as int / 86400
    }
}

/// The day index of a timestamp in seconds.
pub fn day_of(now: i64) -> (r: i64)
    ensures
        r == spec_day_of(now),
{
    if now < 0 {
        0
    } else {
        ((now as u64) / 86400) as i64
    }
}

/// The minute a timestamp falls in is never before the first minute of
/// the day it falls in.
pub proof fn lemma_minute_in_day(now: i64)
    ensures
        spec_minute_of(now) >= spec_day_of(now) * 1440,
        spec_minute_of(now) >= 0,
        spec_day_of(now) >= 0,
{
    if now >= 0 {
        let n = now as int;
        let d = n / 86400;
        vstd::arithmetic::div_mod::lemma_fundamental_div_mod(n, 86400);
        vstd::arithmetic::div_mod::lemma_div_pos_is_pos(n, 86400);
        vstd::arithmetic::div_mod::lemma_div_pos_is_pos(n, 60);
        assert(86400 * d <= n);
        assert((d * 1440) * 60 == 86400 * d) by (nonlinear_arith);
        vstd::arithmetic::div_mod::lemma_div_is_ordered((d * 1440) * 60, n, 60);
        vstd::arithmetic::div_mod::lemma_div_multiples_vanish(d * 1440, 60);
    }
}

/// There is a counter for this identity and minute window.
pub open spec fn spec_has_window(rate: Seq<RateWindowV>, id: Seq<char>, m: i64) -> bool {
    exists|i: int| 0 <= i < rate.len() && rate[i].wxid == id && rate[i].window_start == m
}

/// The index of the counter for this identity and minute window.
pub open spec fn spec_window_idx(rate: Seq<RateWindowV>, id: Seq<char>, m: i64) -> int {
    choose|i: int| 0 <= i < rate.len() && rate[i].wxid == id && rate[i].window_start == m
}

/// The count already recorded for this identity in this minute window
/// (zero when no counter exists).
pub open spec fn spec_rate_count(rate: Seq<RateWindowV>, id: Seq<char>, m: i64) -> int {
    if spec_has_window(rate, id, m) {
        rate[spec_window_idx(rate, id, m)].count as int
    } else {
        0
    }
}

/// Whether a window falls within the day starting at minute `d * 1440`
/// (or later; a window can only be later when the clock ran backwards).
pub open spec fn spec_window_in_day(w: RateWindowV, d: int) -> bool {
    w.window_start >= d * 1440
}

/// The total count recorded for this identity over all windows of the
/// current day.
pub open spec fn spec_day_total(rate: Seq<RateWindowV>, id: Seq<char>, d: int) -> int
    decreases rate.len(),
{
    if rate.len() == 0 {
        0
    } else {
        (if rate[0].wxid == id && spec_window_in_day(rate[0], d) {
            rate[0].count as int
        } else {
            0
        }) + spec_day_total(rate.drop_first(), id, d)
    }
}

proof fn lemma_day_total_nonneg(rate: Seq<RateWindowV>, id: Seq<char>, d: int)
    requires
        forall|i: int| 0 <= i < rate.len() ==> (#[trigger] rate[i]).count >= 0,
    ensures
        spec_day_total(rate, id, d) >= 0,
    decreases rate.len(),
{
    if rate.len() > 0 {
        lemma_day_total_nonneg(rate.drop_first(), id, d);
    }
}

proof fn lemma_day_total_step(rate: Seq<RateWindowV>, k: int, id: Seq<char>, d: int)
    requires
        0 <= k < rate.len(),
    ensures
        spec_day_total(rate.skip(k), id, d) == (if rate[k].wxid == id && spec_window_in_day(
            rate[k],
            d,
        ) {
            rate[k].count as int
        } else {
            0
        }) + spec_day_total(rate.skip(k + 1), id, d),
{
    assert(rate.skip(k)[0] == rate[k]);
    assert(rate.skip(k).drop_first() =~= rate.skip(k + 1));
}

/// A single in-range window never counts more than the whole day.
proof fn lemma_count_le_day_total(rate: Seq<RateWindowV>, id: Seq<char>, d: int, i: int)
    requires
        0 <= i < rate.len(),
        rate[i].wxid == id,
        spec_window_in_day(rate[i], d),
        forall|j: int| 0 <= j < rate.len() ==> (#[trigger] rate[j]).count >= 0,
    ensures
        rate[i].count <= spec_day_total(rate, id, d),
    decreases rate.len(),
{
    if i == 0 {
        lemma_day_total_nonneg(rate.drop_first(), id, d);
    } else {
        assert(rate.drop_first()[i - 1] == rate[i]);
        lemma_count_le_day_total(rate.drop_first(), id, d, i - 1);
    }
}

/// The windows at or after the cutoff minute, in order.
pub open spec fn spec_rate_since(rate: Seq<RateWindowV>, cutoff: i64) -> Seq<RateWindowV> {
    rate.filter(|w: RateWindowV| w.window_start >= cutoff)
}

proof fn lemma_rate_since_step(rate: Seq<RateWindowV>, k: int, cutoff: i64)
    requires
        0 < k <= rate.len(),
    ensures
        spec_rate_since(rate.take(k), cutoff) == if rate[k - 1].window_start >= cutoff {
            spec_rate_since(rate.take(k - 1), cutoff).push(rate[k - 1])
        } else {
            spec_rate_since(rate.take(k - 1), cutoff)
        },
{
    reveal(Seq::filter);
    assert(rate.take(k).drop_last() =~= rate.take(k - 1));
    assert(rate.take(k).last() == rate[k - 1]);
}

proof fn lemma_day_total_pointwise(a: Seq<RateWindowV>, b: Seq<RateWindowV>, id: Seq<char>, d: int)
    requires
        a.len() == b.len(),
        forall|j: int| 0 <= j < a.len() ==> (#[trigger] b[j]).wxid == a[j].wxid,
        forall|j: int| 0 <= j < a.len() && (#[trigger] a[j]).wxid == id ==> b[j] == a[j],
    ensures
        spec_day_total(b, id, d) == spec_day_total(a, id, d),
    decreases a.len(),
{
    if a.len() > 0 {
        assert forall|j: int|
            0 <= j < a.drop_first().len() implies (#[trigger] b.drop_first()[j]).wxid
            == a.drop_first()[j].wxid by {
            assert(b.drop_first()[j] == b[j + 1] && a.drop_first()[j] == a[j + 1]);
        }
        assert forall|j: int|
            0 <= j < a.drop_first().len() && (#[trigger] a.drop_first()[j]).wxid
            == id implies b.drop_first()[j] == a.drop_first()[j] by {
            assert(b.drop_first()[j] == b[j + 1] && a.drop_first()[j] == a[j + 1]);
        }
        lemma_day_total_pointwise(a.drop_first(), b.drop_first(), id, d);
    }
}

proof fn lemma_day_total_none(a: Seq<RateWindowV>, id: Seq<char>, d: int)
    requires
        forall|j: int| 0 <= j < a.len() ==> (#[trigger] a[j]).wxid != id,
    ensures
        spec_day_total(a, id, d) == 0,
    decreases a.len(),
{
    if a.len() > 0 {
        assert forall|j: int|
            0 <= j < a.drop_first().len() implies (#[trigger] a.drop_first()[j]).wxid != id by {
            assert(a.drop_first()[j] == a[j + 1]);
        }
        lemma_day_total_none(a.drop_first(), id, d);
    }
}

/// Rate limiting is per identity: charging one identity's budget leaves
/// every other identity's minute counters and day totals exactly as
/// they were.
pub proof fn lemma_rate_limit_independent(
    pre: Seq<RateWindowV>,
    post: Seq<RateWindowV>,
    id: Seq<char>,
    m: i64,
    other: Seq<char>,
    m2: i64,
    d2: int,
)
    requires
        other != id,
        forall|i: int, j: int|
            0 <= i < j < pre.len() ==> !((#[trigger] pre[i]).wxid == (#[trigger] pre[j]).wxid
                && pre[i].window_start == pre[j].window_start),
        post =~= (if spec_has_window(pre, id, m) {
            pre.update(
                spec_window_idx(pre, id, m),
                RateWindowV {
                    count: (spec_rate_count(pre, id, m) + 1) as i64,
                    ..pre[spec_window_idx(pre, id, m)]
                },
            )
        } else {
            pre.push(RateWindowV { wxid: id, window_start: m, count: 1 })
        }),
    ensures
        spec_rate_count(post, other, m2) == spec_rate_count(pre, other, m2),
        spec_day_total(post, other, d2) == spec_day_total(pre, other, d2),
{
    if spec_has_window(pre, id, m) {
        let t = spec_window_idx(pre, id, m);
        assert(0 <= t < pre.len() && pre[t].wxid == id);
        assert(forall|j: int| 0 <= j < pre.len() ==> (#[trigger] post[j]).wxid == pre[j].wxid);
        assert forall|j: int|
            0 <= j < pre.len() && (#[trigger] pre[j]).wxid == other implies post[j] == pre[j] by {}
        // minute counters agree
        if spec_has_window(pre, other, m2) {
            let i1 = spec_window_idx(pre, other, m2);
            assert(0 <= i1 < pre.len() && pre[i1].wxid == other && pre[i1].window_start == m2);
            assert(post[i1].wxid == other && post[i1].window_start == m2);
            assert(spec_has_window(post, other, m2));
            let i2 = spec_window_idx(post, other, m2);
            assert(0 <= i2 < post.len() && post[i2].wxid == other && post[i2].window_start == m2);
            assert(pre[i2].wxid == other && pre[i2].window_start == m2);
            if i1 != i2 {
                assert(false);
            }
            assert(post[i2] == pre[i2]);
        } else {
            if spec_has_window(post, other, m2) {
                let i2 = spec_window_idx(post, other, m2);
                assert(pre[i2].wxid == other && pre[i2].window_start == m2);
            }
        }
        // day totals agree pointwise
        lemma_day_total_pointwise(pre, post, other, d2);
    } else {
        assert(forall|j: int| 0 <= j < pre.len() ==> (#[trigger] post[j]) == pre[j]);
        if spec_has_window(pre, other, m2) {
            let i1 = spec_window_idx(pre, other, m2);
            assert(post[i1].wxid == other && post[i1].window_start == m2);
            assert(spec_has_window(post, other, m2));
            let i2 = spec_window_idx(post, other, m2);
            assert(0 <= i2 < post.len());
            if i2 == post.len() - 1 {
                assert(post[i2].wxid == id);
                assert(false);
            }
            assert(post[i2] == pre[i2]);
            if i1 != i2 {
                assert(false);
            }
        } else {
            if spec_has_window(post, other, m2) {
                let i2 = spec_window_idx(post, other, m2);
                if i2 == post.len() - 1 {
                    assert(post[i2].wxid == id);
                } else {
                    assert(pre[i2].wxid == other && pre[i2].window_start == m2);
                }
            }
        }
        // the appended window belongs to the charged identity only
        assert(post.take(pre.len() as int) =~= pre);
        lemma_day_total_concat(post.take(pre.len() as int), post.skip(pre.len() as int), other, d2);
        assert forall|j: int|
            0 <= j < post.skip(pre.len() as int).len() implies (#[trigger] post.skip(
            pre.len() as int,
        )[j]).wxid != other by {
            assert(post.skip(pre.len() as int)[j] == post[pre.len() + j]);
        }
        lemma_day_total_none(post.skip(pre.len() as int), other, d2);
        assert(post =~= post.take(pre.len() as int) + post.skip(pre.len() as int));
    }
}

proof fn lemma_day_total_concat(a: Seq<RateWindowV>, b: Seq<RateWindowV>, id: Seq<char>, d: int)
    ensures
        spec_day_total(a + b, id, d) == spec_day_total(a, id, d) + spec_day_total(b, id, d),
    decreases a.len(),
{
    if a.len() == 0 {
        assert(a + b =~= b);
    } else {
        assert((a + b).drop_first() =~= a.drop_first() + b);
        assert((a + b)[0] == a[0]);
        lemma_day_total_concat(a.drop_first(), b, id, d);
    }
}

impl Database {
    // ============================================
    // Audit log
    // ============================================

    /// Append one audit entry, stamped with `now` and the next id in
    /// order. Directions other than "in" and "out" are refused.
    pub fn audit_log(
        &mut self,
        wxid: &str,
        nickname: Option<&str>,
        direction: &str,
        message: Option<&str>,
        agent_session: Option<&str>,
        now: i64,
    ) -> (r: Result<(), StoreError>)
        requires
            old(self).wf(),
        ensures
            final(self).wf(),
            final(self)@.friends == old(self)@.friends,
            final(self)@.sessions == old(self)@.sessions,
            final(self)@.rate == old(self)@.rate,
            r is Err <==> (!(direction@ == "in"@ || direction@ == "out"@)
                || spec_next_audit_id(old(self)@.audit) > i64::MAX as int),
            r is Err ==> final(self)@ == old(self)@,
            r is Ok ==> final(self)@.audit =~= old(self)@.audit.push(
                AuditEntryV {
                    id: spec_next_audit_id(old(self)@.audit) as i64,
                    wxid: wxid@,
                    nickname: ov(nickname),
                    direction: direction@,
                    message: ov(message),
                    agent_session: ov(agent_session),
                    timestamp: now,
                },
            ),
    {
        if !(str_eq(direction, "in") || str_eq(direction, "out")) {
            return Err(StoreError::InvalidDirection);
        }
        let n = self.audit.len();
        let next_id: i64 = if n == 0 {
            1
        } else {
            let last = self.audit[n - 1].id;
            proof {
                assert(self@.audit.last() == self.audit@[n - 1]@);
            }
            if last == i64::MAX {
                return Err(StoreError::CapacityExhausted);
            }
            last + 1
        };
        let entry = AuditEntry {
            id: next_id,
            wxid: String::from_str(wxid),
            nickname: match nickname {
                Some(s) => Some(String::from_str(s)),
                None => None,
            },
            direction: String::from_str(direction),
            message: match message {
                Some(s) => Some(String::from_str(s)),
                None => None,
            },
            agent_session: match agent_session {
                Some(s) => Some(String::from_str(s)),
                None => None,
            },
            timestamp: now,
        };
        self.audit.push(entry);
        proof {
            let m = self.audit@.len() as int;
            assert forall|a: int, b: int|
                0 <= a < b < self.audit@.len() implies self.audit@[a]@.id
                < self.audit@[b]@.id by {
                if b < m - 1 {
                    assert(old(self).audit@[a]@.id < old(self).audit@[b]@.id);
                } else if a < m - 1 && n > 0 {
                    if a < n - 1 {
                        assert(old(self).audit@[a]@.id < old(self).audit@[n - 1]@.id);
                    }
                }
            }
            assert(self@.audit =~= old(self)@.audit.push(
                AuditEntryV {
                    id: spec_next_audit_id(old(self)@.audit) as i64,
                    wxid: wxid@,
                    nickname: ov(nickname),
                    direction: direction@,
                    message: ov(message),
                    agent_session: ov(agent_session),
                    timestamp: now,
                },
            ));
        }
        Ok(())
    }

    /// The newest audit entries of one identity, newest first, at most
    /// `limit` of them (a negative limit means no bound).
    pub fn audit_get_by_user(&self, wxid: &str, limit: i64) -> (r: Vec<AuditEntry>)
        ensures
            r@.map_values(|a: AuditEntry| a@) =~= spec_take_limit(
                spec_audit_of(self@.audit, wxid@).reverse(),
                limit,
            ),
    {
        let n = self.audit.len();
        let mut matched: Vec<AuditEntry> = Vec::new();
        let mut k: usize = 0;
        while k < n
            invariant
                n == self.audit@.len(),
                k <= n,
                self@.audit.len() == n,
                matched@.map_values(|a: AuditEntry| a@) =~= spec_audit_of(
                    self@.audit.take(k as int),
                    wxid@,
                ),
            decreases n - k,
        {
            if str_eq(self.audit[k].wxid.as_str(), wxid) {
                matched.push(clone_audit(&self.audit[k]));
            }
            k += 1;
            proof {
                lemma_audit_of_step(self@.audit, k as int, wxid@);
            }
        }
        proof {
            assert(self@.audit.take(n as int) =~= self@.audit);
        }
        reverse_and_limit(matched, limit)
    }

    /// The newest audit entries over all identities, newest first, at
    /// most `limit` of them (a negative limit means no bound).
    pub fn audit_get_recent(&self, limit: i64) -> (r: Vec<AuditEntry>)
        ensures
            r@.map_values(|a: AuditEntry| a@) =~= spec_take_limit(
                self@.audit.reverse(),
                limit,
            ),
    {
        let n = self.audit.len();
        let mut matched: Vec<AuditEntry> = Vec::new();
        let mut k: usize = 0;
        while k < n
            invariant
                n == self.audit@.len(),
                k <= n,
                self@.audit.len() == n,
                matched@.len() == k as int,
                forall|i: int| 0 <= i < k ==> (#[trigger] matched@[i])@ == self@.audit[i],
            decreases n - k,
        {
            matched.push(clone_audit(&self.audit[k]));
            k += 1;
        }
        proof {
            assert(matched@.map_values(|a: AuditEntry| a@) =~= self@.audit);
        }
        reverse_and_limit(matched, limit)
    }

    // ============================================
    // Rate limiting
    // ============================================

    /// Index of the counter for this identity and minute window, if any.
    fn find_rate_idx(&self, wxid: &str, m: i64) -> (r: Option<usize>)
        ensures
            match r {
                Some(i) => i < self@.rate.len() && self@.rate[i as int].wxid == wxid@
                    && self@.rate[i as int].window_start == m,
                None => forall|i: int|
                    0 <= i < self@.rate.len() ==> !(self@.rate[i].wxid == wxid@
                        && self@.rate[i].window_start == m),
            },
    {
        let n = self.rate.len();
        let mut k: usize = 0;
        while k < n
            invariant
                n == self.rate@.len(),
                k <= n,
                self@.rate.len() == n,
                forall|i: int|
                    0 <= i < k ==> !(self@.rate[i].wxid == wxid@ && self@.rate[i].window_start
                        == m),
            decreases n - k,
        {
            if self.rate[k].window_start == m && str_eq(self.rate[k].wxid.as_str(), wxid) {
                return Some(k);
            }
            k += 1;
        }
        None
    }

    /// Check the per-minute and per-day budgets for one request and, when
    /// allowed, charge it to the current minute window.
    ///
    /// The per-minute check compares only against a counter that already
    /// exists, so the first request of a minute is allowed even with a
    /// budget of zero. The per-day check sums every counter of the
    /// identity falling in the current day, the current minute included.
    pub fn rate_limit_check_and_increment(
        &mut self,
        wxid: &str,
        max_per_minute: i64,
        max_per_day: i64,
        now: i64,
    ) -> (r: RateLimitResult)
        requires
            old(self).wf(),
        ensures
            final(self).wf(),
            final(self)@.friends == old(self)@.friends,
            final(self)@.sessions == old(self)@.sessions,
            final(self)@.audit == old(self)@.audit,
            ({
                let m = spec_minute_of(now) as i64;
                let d = spec_day_of(now);
                let cur = spec_rate_count(old(self)@.rate, wxid@, m);
                let day_total = spec_day_total(old(self)@.rate, wxid@, d);
                if cur > 0 && cur >= max_per_minute {
                    &&& !r.allowed
                    &&& ovs(r.reason) == Some("Too many requests, please try again later"@)
                    &&& final(self)@ == old(self)@
                } else if day_total >= max_per_day {
                    &&& !r.allowed
                    &&& ovs(r.reason) == Some("Daily request quota exhausted"@)
                    &&& final(self)@ == old(self)@
                } else {
                    &&& r.allowed
                    &&& r.reason is None
                    &&& final(self)@.rate =~= if spec_has_window(old(self)@.rate, wxid@, m) {
                        old(self)@.rate.update(
                            spec_window_idx(old(self)@.rate, wxid@, m),
                            RateWindowV {
                                count: (cur + 1) as i64,
                                ..old(self)@.rate[spec_window_idx(old(self)@.rate, wxid@, m)]
                            },
                        )
                    } else {
                        old(self)@.rate.push(
                            RateWindowV { wxid: wxid@, window_start: m, count: 1 },
                        )
                    }
                }
            }),
    {
        let m = minute_of(now);
        let d = day_of(now);
        proof {
            lemma_minute_in_day(now);
        }
        let idx = self.find_rate_idx(wxid, m);

        // Per-minute check, against the existing counter only.
        match idx {
            Some(i) => {
                proof {
                    let ghost j = spec_window_idx(self@.rate, wxid@, m);
                    assert(spec_has_window(self@.rate, wxid@, m));
                    assert(j == i as int);
                    assert(self@.rate[i as int] == self.rate@[i as int]@);
                    assert(self.rate@[i as int]@.count >= 1);
                    assert(spec_rate_count(self@.rate, wxid@, m) == self@.rate[i as int].count
                        as int);
                }
                let cur = self.rate[i].count;
                if cur >= max_per_minute {
                    return RateLimitResult {
                        allowed: false,
                        reason: Some(
                            String::from_str("Too many requests, please try again later"),
                        ),
                    };
                }
            },
            None => {
                proof {
                    assert(!spec_has_window(self@.rate, wxid@, m));
                }
            },
        }

        // Per-day check: sum this identity's counters over the current day.
        proof {
            if now >= 0 {
                vstd::arithmetic::div_mod::lemma_div_is_ordered(
                    now as int,
                    i64::MAX as int,
                    86400,
                );
                vstd::arithmetic::div_mod::lemma_div_pos_is_pos(now as int, 86400);
            }
            assert(0 <= spec_day_of(now) <= 106751991167300);
            assert(spec_day_of(now) * 1440 <= 153722867280912000) by (nonlinear_arith)
                requires
                    0 <= spec_day_of(now) <= 106751991167300,
            ;
        }
        let day_floor: i64 = d * 1440;
        let n = self.rate.len();
        let mut acc: i128 = 0;
        let mut k: usize = 0;
        proof {
            assert(self@.rate.skip(0) =~= self@.rate);
        }
        while k < n
            invariant
                n == self.rate@.len(),
                k <= n,
                self@.rate.len() == n,
                old(self).wf(),
                self == old(self),
                day_floor == spec_day_of(now) * 1440,
                !(spec_rate_count(old(self)@.rate, wxid@, spec_minute_of(now) as i64) > 0
                    && spec_rate_count(old(self)@.rate, wxid@, spec_minute_of(now) as i64)
                    >= max_per_minute),
                acc < i64::MAX as i128,
                acc >= 0,
                acc + spec_day_total(self@.rate.skip(k as int), wxid@, spec_day_of(now))
                    == spec_day_total(self@.rate, wxid@, spec_day_of(now)),
            decreases n - k,
        {
            proof {
                lemma_day_total_step(self@.rate, k as int, wxid@, spec_day_of(now));
            }
            proof {
                assert(self.rate@[k as int]@.count >= 1);
                assert(self@.rate[k as int] == self.rate@[k as int]@);
            }
            let ws_ok = self.rate[k].window_start >= day_floor;
            proof {
                assert(ws_ok == spec_window_in_day(self@.rate[k as int], spec_day_of(now)));
            }
            let id_ok = str_eq(self.rate[k].wxid.as_str(), wxid);
            proof {
                assert(id_ok == (self@.rate[k as int].wxid == wxid@));
            }
            let in_day = ws_ok && id_ok;
            if in_day {
                acc = acc + self.rate[k].count as i128;
                if acc >= max_per_day as i128 {
                    proof {
                        assert forall|i: int|
                            0 <= i < self@.rate.skip(k as int + 1).len() implies (
                        #[trigger] self@.rate.skip(k as int + 1)[i]).count >= 0 by {
                            assert(self@.rate.skip(k as int + 1)[i] == self@.rate[k as int + 1
                                + i]);
                            assert(self.rate@[k as int + 1 + i]@.count >= 1);
                        }
                        lemma_day_total_nonneg(
                            self@.rate.skip(k as int + 1),
                            wxid@,
                            spec_day_of(now),
                        );
                    }
                    return RateLimitResult {
                        allowed: false,
                        reason: Some(String::from_str("Daily request quota exhausted")),
                    };
                }
            }
            k += 1;
        }
        proof {
            assert(self@.rate.skip(n as int) =~= Seq::<RateWindowV>::empty());
            assert(spec_day_total(self@.rate, wxid@, spec_day_of(now)) == acc);
        }
        if acc >= max_per_day as i128 {
            return RateLimitResult {
                allowed: false,
                reason: Some(String::from_str("Daily request quota exhausted")),
            };
        }

        // Within budget: charge this request to the current minute.
        match idx {
            Some(i) => {
                proof {
                    assert(spec_has_window(self@.rate, wxid@, m));
                    assert(spec_window_idx(self@.rate, wxid@, m) == i as int);
                    assert(spec_window_in_day(self@.rate[i as int], spec_day_of(now))) by {
                        lemma_minute_in_day(now);
                    }
                    assert forall|j: int|
                        0 <= j < self@.rate.len() implies (#[trigger] self@.rate[j]).count
                        >= 0 by {
                        assert(self.rate@[j]@.count >= 1);
                    }
                    lemma_count_le_day_total(self@.rate, wxid@, spec_day_of(now), i as int);
                }
                let w = &self.rate[i];
                let bumped = RateWindow {
                    wxid: w.wxid.clone(),
                    window_start: w.window_start,
                    count: w.count + 1,
                };
                self.rate[i] = bumped;
                proof {
                    assert forall|a: int, b: int|
                        0 <= a < b < self.rate@.len() implies !(self.rate@[a]@.wxid
                        == self.rate@[b]@.wxid && self.rate@[a]@.window_start
                        == self.rate@[b]@.window_start) by {
                        assert(!(old(self).rate@[a]@.wxid == old(self).rate@[b]@.wxid && old(
                            self,
                        ).rate@[a]@.window_start == old(self).rate@[b]@.window_start));
                    }
                    assert(self@.rate =~= old(self)@.rate.update(
                        spec_window_idx(old(self)@.rate, wxid@, m),
                        RateWindowV {
                            count: (spec_rate_count(old(self)@.rate, wxid@, m) + 1) as i64,
                            ..old(self)@.rate[spec_window_idx(old(self)@.rate, wxid@, m)]
                        },
                    ));
                }
            },
            None => {
                let w = RateWindow {
                    wxid: String::from_str(wxid),
                    window_start: m,
                    count: 1,
                };
                self.rate.push(w);
                proof {
                    let t = self.rate@.len() as int;
                    assert forall|a: int, b: int|
                        0 <= a < b < self.rate@.len() implies !(self.rate@[a]@.wxid
                        == self.rate@[b]@.wxid && self.rate@[a]@.window_start
                        == self.rate@[b]@.window_start) by {
                        if b < t - 1 {
                            assert(!(old(self).rate@[a]@.wxid == old(self).rate@[b]@.wxid && old(
                                self,
                            ).rate@[a]@.window_start == old(self).rate@[b]@.window_start));
                        } else {
                            assert(old(self)@.rate[a] == old(self).rate@[a]@);
                            assert(!(old(self)@.rate[a].wxid == wxid@
                                && old(self)@.rate[a].window_start == m));
                        }
                    }
                    assert(self@.rate =~= old(self)@.rate.push(
                        RateWindowV { wxid: wxid@, window_start: m, count: 1 },
                    ));
                }
            },
        }
        RateLimitResult { allowed: true, reason: None }
    }

    /// Delete every counter whose minute window started more than one
    /// day before `now`; the count of deleted windows is returned.
    pub fn rate_limit_cleanup(&mut self, now: i64) -> (r: usize)
        requires
            old(self).wf(),
        ensures
            final(self).wf(),
            final(self)@.friends == old(self)@.friends,
            final(self)@.sessions == old(self)@.sessions,
            final(self)@.audit == old(self)@.audit,
            final(self)@.rate =~= spec_rate_since(
                old(self)@.rate,
                spec_minute_of(if now >= 86400 {
                    (now - 86400) as i64
                } else {
                    0
                }) as i64,
            ),
            r == old(self)@.rate.len() - final(self)@.rate.len(),
    {
        let base: i64 = if now >= 86400 {
            now - 86400
        } else {
            0
        };
        let cutoff = minute_of(base);
        let n = self.rate.len();
        let mut kept: Vec<RateWindow> = Vec::new();
        let mut k: usize = 0;
        while k < n
            invariant
                n == self.rate@.len(),
                k <= n,
                self@.rate.len() == n,
                old(self).wf(),
                self == old(self),
                cutoff == spec_minute_of(if now >= 86400 { (now - 86400) as i64 } else { 0i64 }),
                kept@.map_values(|w: RateWindow| w@) =~= spec_rate_since(
                    self@.rate.take(k as int),
                    cutoff,
                ),
                kept@.len() <= k,
                forall|a: int|
                    0 <= a < kept@.len() ==> exists|j: int|
                        0 <= j < k && (#[trigger] kept@[a])@ == self@.rate[j],
                forall|a: int, b: int|
                    0 <= a < b < kept@.len() ==> !(kept@[a]@.wxid == kept@[b]@.wxid
                        && kept@[a]@.window_start == kept@[b]@.window_start),
            decreases n - k,
        {
            if self.rate[k].window_start >= cutoff {
                let ghost prev = kept@;
                let w = &self.rate[k];
                kept.push(
                    RateWindow {
                        wxid: w.wxid.clone(),
                        window_start: w.window_start,
                        count: w.count,
                    },
                );
                proof {
                    assert forall|a: int, b: int|
                        0 <= a < b < kept@.len() implies !(kept@[a]@.wxid == kept@[b]@.wxid
                        && kept@[a]@.window_start == kept@[b]@.window_start) by {
                        if b == kept@.len() - 1 && a < b {
                            let j = choose|j: int|
                                0 <= j < k && (#[trigger] prev[a])@ == self@.rate[j];
                            assert(!(self.rate@[j]@.wxid == self.rate@[k as int]@.wxid
                                && self.rate@[j]@.window_start
                                == self.rate@[k as int]@.window_start));
                        }
                    }
                }
            }
            k += 1;
            proof {
                lemma_rate_since_step(self@.rate, k as int, cutoff);
            }
        }
        proof {
            assert(self@.rate.take(n as int) =~= self@.rate);
            assert forall|a: int| 0 <= a < kept@.len() implies kept@[a]@.count >= 1 by {
                let j = choose|j: int| 0 <= j < k && (#[trigger] kept@[a])@ == self@.rate[j];
                assert(self.rate@[j]@.count >= 1);
            }
        }
        let deleted = n - kept.len();
        self.rate = kept;
        deleted
    }
}

/// Reverse a list of audit entries and keep at most `limit` of them
/// (all of them for a negative limit).
fn reverse_and_limit(entries: Vec<AuditEntry>, limit: i64) -> (r: Vec<AuditEntry>)
    ensures
        r@.map_values(|a: AuditEntry| a@) =~= spec_take_limit(
            entries@.map_values(|a: AuditEntry| a@).reverse(),
            limit,
        ),
{
    let n = entries.len();
    let mut rev: Vec<AuditEntry> = Vec::new();
    let mut k: usize = 0;
    while k < n
        invariant
            n == entries@.len(),
            k <= n,
            rev@.len() == k as int,
            forall|i: int| 0 <= i < k ==> (#[trigger] rev@[i])@ == entries@[n - 1 - i]@,
        decreases n - k,
    {
        rev.push(clone_audit(&entries[n - 1 - k]));
        k += 1;
    }
    let ghost full = entries@.map_values(|a: AuditEntry| a@).reverse();
    proof {
        assert(rev@.map_values(|a: AuditEntry| a@) =~= full);
    }
    if limit >= 0 && (limit as u64) < (rev.len() as u64) {
        let ghost before = rev@;
        let lim: usize = limit as usize;
        proof {
            assert(lim as int == limit as int);
        }
        rev.truncate(lim);
        proof {
            assert(rev@ == before.subrange(0, lim as int));
            assert forall|i: int|
                0 <= i < rev@.len() implies (#[trigger] rev@[i])@ == full.take(limit as int)[i] by {
                assert(before.subrange(0, lim as int)[i] == before[i]);
                assert(rev@[i] == before[i]);
                assert(before.map_values(|a: AuditEntry| a@)[i] == full[i]);
                assert(full.take(limit as int)[i] == full[i]);
            }
            assert(rev@.map_values(|a: AuditEntry| a@) =~= full.take(limit as int));
        }
    }
    rev
}

} // verus!
