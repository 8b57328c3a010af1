//! Model of the state-computation collaborator.
//!
//! The state manager holds one computed state per height in a contiguous
//! retained range, and a plan of the digests execution will produce for the
//! heights above the latest computed one. A digest of `None` stands for a
//! height that is not a checkpoint and will never carry a digest.

use vstd::prelude::*;
use crate::types::Certification;
use crate::types::copy_bytes;

verus! {

/// Why an instantaneous state-hash query did not return a digest.
#[derive(Debug)]
pub enum StateHashError {
    /// The state is not yet computed; polling again may succeed.
    Transient,
    /// The height was only partially certified and will never carry a digest.
    StateNotFullyCertified(u64),
    /// The state at this height has been pruned.
    StateRemoved(u64),
}

/// The content digest an optional byte vector stands for.
pub open spec fn digest_view(o: Option<Vec<u8>>) -> Option<Seq<u8>> {
    match o {
        Some(v) => Some(v@),
        None => None,
    }
}

pub struct StateManager {
    /// Lowest retained state height.
    pub low: u64,
    /// Latest computed state height.
    pub latest: u64,
    /// Digest per retained height; index 0 belongs to `low`.
    pub digests: Vec<Option<Vec<u8>>>,
    /// Digests execution will produce for the heights above `latest`, in
    /// ascending height order.
    pub plan: Vec<Option<Vec<u8>>>,
    /// Certifications delivered to the state manager, in delivery order.
    pub certifications: Vec<Certification>,
}

impl StateManager {
    pub open spec fn wf(self) -> bool {
        &&& self.low <= self.latest
        &&& self.digests@.len() == self.latest - self.low + 1
        &&& self.latest + self.plan@.len() <= u64::MAX
    }

    /// Highest height the plan reaches.
    pub open spec fn horizon(self) -> int {
        self.latest + self.plan@.len()
    }

    pub open spec fn covers(self, h: u64) -> bool {
        self.low <= h <= self.horizon()
    }

    /// The digest the state manager holds, or will compute, for height `h`:
    /// retained heights read the computed state, higher covered heights read
    /// the execution plan.
    pub open spec fn digest_expected_at(self, h: u64) -> Option<Seq<u8>> {
        if self.low <= h <= self.latest {
            digest_view(self.digests@[h - self.low])
        } else if self.latest < h <= self.horizon() {
            digest_view(self.plan@[h - self.latest - 1])
        } else {
            None
        }
    }

    pub fn latest_state_height(&self) -> (h: u64)
        ensures
            h == self.latest,
    {
        self.latest
    }

    /// Instantaneous state-hash query, one poll of the collaborator.
    pub fn get_state_hash_at(&self, height: u64) -> (r: Result<Vec<u8>, StateHashError>)
        requires
            self.wf(),
        ensures
            match r {
                Ok(d) => (self.low <= height <= self.latest
                    && self.digest_expected_at(height) == Some(d@)),
                Err(StateHashError::Transient) => height > self.latest,
                Err(StateHashError::StateNotFullyCertified(h)) => (h == height
                    && self.low <= height <= self.latest
                    && self.digest_expected_at(height) is None),
                Err(StateHashError::StateRemoved(h)) => h == height && height < self.low,
            },
    {
        if height > self.latest {
            Err(StateHashError::Transient)
        } else if height < self.low {
            Err(StateHashError::StateRemoved(height))
        } else {
            let n: usize = self.digests.len();
            proof {
                assert(height - self.low < n);
            }
            let idx: usize = (height - self.low) as usize;
            match &self.digests[idx] {
                Some(d) => Ok(copy_bytes(d)),
                None => Err(StateHashError::StateNotFullyCertified(height)),
            }
        }
    }

    /// Prunes all states strictly below `h` to bound memory.
    pub fn remove_states_below(&mut self, h: u64)
        requires
            old(self).wf(),
            h <= old(self).latest,
        ensures
            final(self).wf(),
            final(self).latest == old(self).latest,
            final(self).low == if h >= old(self).low { h } else { old(self).low },
            final(self).plan == old(self).plan,
            final(self).certifications == old(self).certifications,
            forall|k: u64| final(self).low <= k <= final(self).horizon()
                ==> final(self).digest_expected_at(k) == old(self).digest_expected_at(k),
    {
        let ghost orig = *self;
        proof {
            assert(orig.digests@.skip(0) =~= orig.digests@);
        }
        while self.low < h
            invariant
                self.wf(),
                self.low <= h || self.low == orig.low,
                orig.digests@.len() == orig.latest - orig.low + 1,
                orig.low <= orig.latest,
                h <= self.latest,
                self.latest == orig.latest,
                self.low >= orig.low,
                self.plan == orig.plan,
                self.certifications == orig.certifications,
                self.digests@ == orig.digests@.skip(self.low - orig.low),
            decreases h - self.low,
        {
            self.digests.remove(0);
            self.low = self.low + 1;
            proof {
                let a0 = self.low - 1 - orig.low;
                assert(self.digests@ == orig.digests@.skip(a0).remove(0));
                assert forall|i: int| 0 <= i < self.digests@.len() implies
                    self.digests@[i] == orig.digests@.skip(a0 + 1)[i] by {
                    assert(orig.digests@.skip(a0).remove(0)[i]
                        == orig.digests@.skip(a0)[i + 1]);
                    assert(orig.digests@.skip(a0)[i + 1] == orig.digests@[a0 + i + 1]);
                    assert(orig.digests@.skip(a0 + 1)[i] == orig.digests@[a0 + 1 + i]);
                }
                assert(self.digests@ =~= orig.digests@.skip(a0 + 1));
            }
        }
        proof {
            assert forall|k: u64| self.low <= k <= self.horizon()
                implies self.digest_expected_at(k) == orig.digest_expected_at(k) by {
                if k <= self.latest {
                    assert(self.digests@[k - self.low] == orig.digests@[k - orig.low]);
                }
            }
        }
    }

    /// Records a certification of a height's state digest. The collaborator
    /// aborts on a certification that contradicts a computed checkpoint, so
    /// such a certification is never handed to it.
    pub fn deliver_state_certification(&mut self, c: Certification)
        requires
            old(self).wf(),
            old(self).low <= c.height <= old(self).latest
                ==> (old(self).digest_expected_at(c.height) is None
                    || old(self).digest_expected_at(c.height) == Some(c.digest@)),
        ensures
            final(self).wf(),
            final(self).certifications@ == old(self).certifications@.push(c),
            final(self).low == old(self).low,
            final(self).latest == old(self).latest,
            final(self).digests == old(self).digests,
            final(self).plan == old(self).plan,
    {
        self.certifications.push(c);
    }

    /// Executes the next planned height: the state at `latest + 1` becomes
    /// computed with the digest the plan holds for it.
    pub fn commit_next_state(&mut self)
        requires
            old(self).wf(),
            old(self).plan@.len() > 0,
        ensures
            final(self).wf(),
            final(self).latest == old(self).latest + 1,
            final(self).low == old(self).low,
            final(self).horizon() == old(self).horizon(),
            final(self).certifications == old(self).certifications,
            forall|k: u64| old(self).covers(k)
                ==> final(self).digest_expected_at(k) == old(self).digest_expected_at(k),
    {
        let d = self.plan.remove(0);
        self.digests.push(d);
        self.latest = self.latest + 1;
        proof {
            assert forall|k: u64| old(self).covers(k)
                implies self.digest_expected_at(k) == old(self).digest_expected_at(k) by {
                if k <= old(self).latest {
                    assert(self.digests@[k - self.low] == old(self).digests@[k - self.low]);
                } else if k == self.latest {
                    assert(self.digests@[k - self.low] == old(self).plan@[0]);
                } else {
                    assert(self.plan@[k - self.latest - 1]
                        == old(self).plan@[k - old(self).latest - 1]);
                }
            }
        }
    }
}

/// Blocks until the digest at `height` is either available, returning it, or
/// the height turns out not fully certifiable, returning `None`. Any other
/// outcome aborts, so the caller must name a computed, retained height. In
/// this model the poll resolves at once: the height is already computed.
pub fn get_state_hash(state_manager: &StateManager, height: u64) -> (r: Option<Vec<u8>>)
    requires
        state_manager.wf(),
        state_manager.low <= height <= state_manager.latest,
    ensures
        digest_view(r) == state_manager.digest_expected_at(height),
{
    match state_manager.get_state_hash_at(height) {
        Ok(hash) => Some(hash),
        Err(StateHashError::StateNotFullyCertified(_)) => None,
        Err(_) => vstd::pervasive::unreached(),
    }
}

} // verus!
