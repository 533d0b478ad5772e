//! The per-identity concurrency guard: the set of identities that have an
//! execution in flight. Membership is the sole truth for "mid-request";
//! entry is an atomic check-and-insert, never a blocking wait.

use vstd::prelude::*;
use crate::text::str_eq;

verus! {

/// What one acquire attempt does to the busy set: refused when the
/// identity is already a member, otherwise the identity joins.
pub open spec fn spec_acquired(busy: Seq<Seq<char>>, id: Seq<char>) -> (bool, Seq<Seq<char>>) {
    if busy.contains(id) {
        (false, busy)
    } else {
        (true, busy.push(id))
    }
}

/// The set of identities currently executing a request.
pub struct ConcurrencyGuard {
    busy: Vec<String>,
}

impl View for ConcurrencyGuard {
    type V = Seq<Seq<char>>;

    closed spec fn view(&self) -> Seq<Seq<char>> {
        self.busy@.map_values(|s: String| s@)
    }
}

impl ConcurrencyGuard {
    /// No duplicate members.
    pub open spec fn wf(self) -> bool {
        forall|i: int, j: int| 0 <= i < j < self@.len() ==> self@[i] != self@[j]
    }

    pub fn new() -> (g: ConcurrencyGuard)
        ensures
            g.wf(),
            g@ =~= Seq::<Seq<char>>::empty(),
    {
        ConcurrencyGuard { busy: Vec::new() }
    }

    /// Whether this identity has an execution in flight.
    pub fn is_busy(&self, id: &str) -> (r: bool)
        ensures
            r == self@.contains(id@),
    {
        let n = self.busy.len();
        let mut k: usize = 0;
        while k < n
            invariant
                n == self.busy@.len(),
                self@.len() == n,
                k <= n,
                forall|i: int| 0 <= i < k ==> self@[i] != id@,
            decreases n - k,
        {
            if str_eq(self.busy[k].as_str(), id) {
                proof {
                    assert(self@[k as int] == id@);
                }
                return true;
            }
            k += 1;
        }
        proof {
            assert forall|i: int| 0 <= i < self@.len() implies self@[i] != id@ by {}
        }
        false
    }

    /// Atomic check-and-insert: refused (with no change) when the
    /// identity is already busy, otherwise the identity becomes busy.
    pub fn try_acquire(&mut self, id: &str) -> (r: bool)
        requires
            old(self).wf(),
        ensures
            final(self).wf(),
            (r, final(self)@) == spec_acquired(old(self)@, id@),
    {
        if self.is_busy(id) {
            false
        } else {
            self.busy.push(String::from_str(id));
            proof {
                assert(self@ =~= old(self)@.push(id@));
                let m = self@.len() as int;
                assert forall|i: int, j: int|
                    0 <= i < j < self@.len() implies self@[i] != self@[j] by {
                    if j < m - 1 {
                        assert(old(self)@[i] != old(self)@[j]);
                    } else {
                        assert(!old(self)@.contains(id@));
                        assert(old(self)@[i] != id@);
                    }
                }
            }
            true
        }
    }

    /// Leave the busy set (a no-op when not a member). Administrative
    /// resets call this so a stuck in-flight marker cannot wedge future
    /// requests.
    #[verifier::rlimit(30)]
    pub fn release(&mut self, id: &str)
        requires
            old(self).wf(),
        ensures
            final(self).wf(),
            !final(self)@.contains(id@),
            forall|x: Seq<char>|
                x != id@ ==> (final(self)@.contains(x) <==> old(self)@.contains(x)),
    {
        let n = self.busy.len();
        let mut kept: Vec<String> = Vec::new();
        let mut k: usize = 0;
        while k < n
            invariant
                n == self.busy@.len(),
                self@.len() == n,
                k <= n,
                old(self).wf(),
                self == old(self),
                forall|a: int| 0 <= a < kept@.len() ==> (#[trigger] kept@[a])@ != id@,
                forall|a: int|
                    0 <= a < kept@.len() ==> exists|j: int|
                        0 <= j < k && (#[trigger] kept@[a])@ == self@[j],
                forall|a: int, b: int|
                    0 <= a < b < kept@.len() ==> kept@[a]@ != kept@[b]@,
                forall|j: int|
                    #![trigger self@[j]]
                    0 <= j < k && self@[j] != id@ ==> exists|a: int|
                        0 <= a < kept@.len() && (#[trigger] kept@[a])@ == self@[j],
            decreases n - k,
        {
            if !str_eq(self.busy[k].as_str(), id) {
                let ghost prev = kept@;
                kept.push(self.busy[k].clone());
                proof {
                    assert(kept@[prev.len() as int]@ == self@[k as int]);
                    assert forall|a: int, b: int|
                        0 <= a < b < kept@.len() implies kept@[a]@ != kept@[b]@ by {
                        if b == kept@.len() - 1 && a < b {
                            let j = choose|j: int| 0 <= j < k && (#[trigger] prev[a])@ == self@[j];
                            assert(self@[j] != self@[k as int]);
                        }
                    }
                    assert forall|a: int|
                        0 <= a < kept@.len() implies exists|j: int|
                            0 <= j < k as int + 1 && (#[trigger] kept@[a])@ == self@[j] by {
                        if a < prev.len() {
                            let j = choose|j: int| 0 <= j < k && (#[trigger] prev[a])@ == self@[j];
                            assert(0 <= j < k as int + 1 && kept@[a]@ == self@[j]);
                        } else {
                            assert(kept@[a]@ == self@[k as int]);
                        }
                    }
                    assert forall|j: int|
                        0 <= j < k as int + 1 && self@[j] != id@ implies exists|a: int|
                            0 <= a < kept@.len() && (#[trigger] kept@[a])@ == self@[j] by {
                        if j < k as int {
                            let a = choose|a: int|
                                0 <= a < prev.len() && (#[trigger] prev[a])@ == self@[j];
                            assert(kept@[a]@ == self@[j]);
                        } else {
                            assert(kept@[prev.len() as int]@ == self@[j]);
                        }
                    }
                }
            } else {
                proof {
                    assert(self@[k as int] == id@);
                }
            }
            k += 1;
        }
        proof {
            let ghost kv = kept@.map_values(|s: String| s@);
            assert(kv.len() == kept@.len());
            assert(!kv.contains(id@)) by {
                if kv.contains(id@) {
                    let a = choose|a: int| 0 <= a < kv.len() && kv[a] == id@;
                    assert(kept@[a]@ == id@);
                }
            }
            assert forall|x: Seq<char>| x != id@ && old(self)@.contains(x) implies kv.contains(
                x,
            ) by {
                let j = choose|j: int| 0 <= j < old(self)@.len() && old(self)@[j] == x;
                assert(self@[j] != id@);
                let a = choose|a: int| 0 <= a < kept@.len() && (#[trigger] kept@[a])@ == self@[j];
                assert(kv[a] == x);
            }
            assert forall|x: Seq<char>| kv.contains(x) implies old(self)@.contains(x) && x
                != id@ by {
                let a = choose|a: int| 0 <= a < kv.len() && kv[a] == x;
                assert(kept@[a]@ == x);
                let j = choose|j: int| 0 <= j < k && (#[trigger] kept@[a])@ == self@[j];
                assert(old(self)@[j] == x);
            }
        }
        self.busy = kept;
    }
}

/// Once an identity has entered the busy set, a second acquire for the
/// same identity is always refused until the first is released.
pub proof fn lemma_busy_is_exclusive(busy: Seq<Seq<char>>, id: Seq<char>)
    ensures
        spec_acquired(busy, id).0 ==> !spec_acquired(spec_acquired(busy, id).1, id).0,
{
    if spec_acquired(busy, id).0 {
        let after = spec_acquired(busy, id).1;
        assert(after[after.len() - 1] == id);
        assert(after.contains(id));
    }
}

} // verus!
