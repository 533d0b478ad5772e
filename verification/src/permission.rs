//! Permission tiers and their total order.
//!
//! Tiers are carried as strings in the durable store ("admin", "trusted",
//! "normal", "blocked"); the `Permission` enum names the three tiers a
//! container can be provisioned for. `perm_level` is the single ordering
//! used by every command gate.

use vstd::prelude::*;
use crate::text::str_eq;

verus! {

/// Permission level for a user's container.
#[derive(Debug, Clone, Copy, PartialEq, Eq, Structural)]
pub enum Permission {
    Normal,
    Trusted,
    Admin,
}

impl Permission {
    /// The tier's name as stored and displayed.
    pub open spec fn spec_str(self) -> Seq<char> {
        match self {
            Permission::Normal => "normal"@,
            Permission::Trusted => "trusted"@,
            Permission::Admin => "admin"@,
        }
    }

    pub fn as_str(&self) -> (r: &'static str)
        ensures
            r@ == self.spec_str(),
    {
        match self {
            Permission::Normal => "normal",
            Permission::Trusted => "trusted",
            Permission::Admin => "admin",
        }
    }
}

/// The tier named by a stored permission string; anything unrecognized
/// (including "blocked") maps to the most restricted container tier.
pub open spec fn spec_parse_permission(s: Seq<char>) -> Permission {
    if s == "admin"@ {
        Permission::Admin
    } else if s == "trusted"@ {
        Permission::Trusted
    } else {
        Permission::Normal
    }
}

/// Parse a permission string to the Permission enum.
pub fn parse_permission(s: &str) -> (r: Permission)
    ensures
        r == spec_parse_permission(s@),
{
    if str_eq(s, "admin") {
        Permission::Admin
    } else if str_eq(s, "trusted") {
        Permission::Trusted
    } else {
        Permission::Normal
    }
}

/// Numeric rank of a stored permission string; the one ordering used for
/// every "minimum required tier" comparison.
pub open spec fn spec_perm_level(s: Seq<char>) -> u8 {
    if s == "admin"@ {
        3
    } else if s == "trusted"@ {
        2
    } else if s == "normal"@ {
        1
    } else {
        0
    }
}

/// Permission level numeric value for comparison.
pub fn perm_level(perm: &str) -> (r: u8)
    ensures
        r == spec_perm_level(perm@),
{
    if str_eq(perm, "admin") {
        3
    } else if str_eq(perm, "trusted") {
        2
    } else if str_eq(perm, "normal") {
        1
    } else {
        0
    }
}

/// The four stored tiers are totally ordered:
/// blocked < normal < trusted < admin.
pub proof fn lemma_permission_order()
    ensures
        spec_perm_level("blocked"@) < spec_perm_level("normal"@),
        spec_perm_level("normal"@) < spec_perm_level("trusted"@),
        spec_perm_level("trusted"@) < spec_perm_level("admin"@),
{
    broadcast use vstd::string::group_string_axioms;

    reveal_strlit("blocked");
    reveal_strlit("normal");
    reveal_strlit("trusted");
    reveal_strlit("admin");
    assert("blocked"@.len() == 7);
    assert("normal"@.len() == 6);
    assert("trusted"@.len() == 7);
    assert("admin"@.len() == 5);
    assert("blocked"@[0] == 'b' && "trusted"@[0] == 't');
    assert("blocked"@ != "normal"@);
    assert("blocked"@ != "trusted"@ && "blocked"@ != "admin"@);
    assert("normal"@ != "trusted"@ && "normal"@ != "admin"@);
    assert("trusted"@ != "admin"@);
}

} // verus!
