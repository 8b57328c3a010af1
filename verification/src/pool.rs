//! Models of the consensus pool and the certification pool.
//!
//! The consensus pool holds the finalized chain as a contiguous run of
//! blocks together with the highest catch-up package; validated artifacts
//! below a purge height can be dropped. The certification pool maps heights
//! to certifications, in strictly ascending height order.

use vstd::prelude::*;
use crate::types::Block;
use crate::types::CatchUpPackage;
use crate::types::Certification;
use crate::types::copy_bytes;
use crate::types::copy_ingress_vec;
use crate::types::ingress_vec_eq;

verus! {

/// Whether two blocks agree on every field.
pub open spec fn block_eq(a: Block, b: Block) -> bool {
    &&& a.height == b.height
    &&& a.registry_version == b.registry_version
    &&& a.replica_version == b.replica_version
    &&& a.time == b.time
    &&& a.seed@ == b.seed@
    &&& ingress_vec_eq(a.ingress@, b.ingress@)
}

/// Copies a block.
pub fn copy_block(b: &Block) -> (r: Block)
    ensures
        block_eq(r, *b),
{
    Block {
        height: b.height,
        registry_version: b.registry_version,
        replica_version: b.replica_version,
        time: b.time,
        seed: copy_bytes(&b.seed),
        ingress: copy_ingress_vec(&b.ingress),
    }
}

/// Whether two catch-up packages agree on every field.
pub open spec fn cup_eq(a: CatchUpPackage, b: CatchUpPackage) -> bool {
    &&& a.height == b.height
    &&& a.state_hash@ == b.state_hash@
    &&& a.registry_version == b.registry_version
    &&& a.signature_ok == b.signature_ok
}

/// Copies a catch-up package.
pub fn copy_cup(c: &CatchUpPackage) -> (r: CatchUpPackage)
    ensures
        cup_eq(r, *c),
{
    CatchUpPackage {
        height: c.height,
        state_hash: copy_bytes(&c.state_hash),
        registry_version: c.registry_version,
        signature_ok: c.signature_ok,
    }
}

pub struct ConsensusPool {
    /// The finalized chain: contiguous, ascending heights.
    pub blocks: Vec<Block>,
    /// The highest catch-up package in the pool.
    pub cup: CatchUpPackage,
    /// Validated artifacts strictly below this height have been purged.
    pub purged_below: u64,
}

impl ConsensusPool {
    /// Height of the oldest block still in the pool.
    pub open spec fn first_height(self) -> u64 {
        self.blocks@[0].height
    }

    /// The finalized height: the height of the newest block.
    pub open spec fn last_height(self) -> u64 {
        self.blocks@.last().height
    }

    pub open spec fn wf(self) -> bool {
        &&& self.blocks@.len() > 0
        &&& (forall|i: int|
            0 <= i < self.blocks@.len() ==> (#[trigger] self.blocks@[i]).height
                == self.first_height() + i)
        &&& self.first_height() <= self.cup.height <= self.last_height()
        &&& self.last_height() < u64::MAX - 1
        &&& (forall|i: int|
            0 <= i < self.blocks@.len() ==> (#[trigger] self.blocks@[i]).time < u64::MAX)
    }

    /// A fresh pool seeded with one catch-up package and the block it binds.
    pub fn new_from_cup(cup: CatchUpPackage, block: Block) -> (r: ConsensusPool)
        requires
            block.height == cup.height,
            block.height < u64::MAX - 1,
            block.time < u64::MAX,
        ensures
            r.wf(),
            r.blocks@.len() == 1,
            r.blocks@[0] == block,
            r.cup == cup,
            r.purged_below == cup.height,
    {
        let h = cup.height;
        let mut blocks = Vec::new();
        blocks.push(block);
        ConsensusPool { blocks, cup, purged_below: h }
    }

    pub fn get_finalized_height(&self) -> (h: u64)
        requires
            self.wf(),
        ensures
            h == self.last_height(),
    {
        self.blocks[self.blocks.len() - 1].height
    }

    /// The finalized block at a height, if the pool still holds it.
    pub fn get_finalized_block(&self, h: u64) -> (r: Option<&Block>)
        requires
            self.wf(),
        ensures
            match r {
                Some(b) => (self.first_height() <= h <= self.last_height() && *b == self.blocks@[h
                    - self.first_height()]),
                None => !(self.first_height() <= h <= self.last_height()),
            },
    {
        let first = self.blocks[0].height;
        if h < first || h > self.get_finalized_height() {
            None
        } else {
            let n: usize = self.blocks.len();
            proof {
                assert(self.last_height() == self.first_height() + n - 1);
                assert(h - first < n);
            }
            let idx: usize = (h - first) as usize;
            Some(&self.blocks[idx])
        }
    }

    /// Appends the next finalized block to the chain.
    pub fn insert_block(&mut self, b: Block)
        requires
            old(self).wf(),
            b.height == old(self).last_height() + 1,
            b.height < u64::MAX - 1,
            b.time < u64::MAX,
        ensures
            final(self).wf(),
            final(self).blocks@ == old(self).blocks@.push(b),
            final(self).cup == old(self).cup,
            final(self).purged_below == old(self).purged_below,
            final(self).last_height() == old(self).last_height() + 1,
            final(self).first_height() == old(self).first_height(),
    {
        self.blocks.push(b);
    }

    /// Replaces the pool's catch-up package by a newer one at an already
    /// finalized height.
    pub fn insert_cup(&mut self, c: CatchUpPackage)
        requires
            old(self).wf(),
            old(self).first_height() <= c.height <= old(self).last_height(),
        ensures
            final(self).wf(),
            final(self).cup == c,
            final(self).blocks == old(self).blocks,
            final(self).purged_below == old(self).purged_below,
    {
        self.cup = c;
    }

    /// Purges validated artifacts strictly below `h`.
    pub fn purge_validated_below(&mut self, h: u64)
        requires
            old(self).wf(),
            h <= old(self).cup.height,
        ensures
            final(self).wf(),
            final(self).cup == old(self).cup,
            final(self).last_height() == old(self).last_height(),
            final(self).purged_below == h,
            final(self).first_height() == if h >= old(self).first_height() {
                h
            } else {
                old(self).first_height()
            },
            forall|k: u64| final(self).first_height() <= k <= final(self).last_height()
                ==> #[trigger] block_eq(
                    final(self).blocks@[k - final(self).first_height()],
                    old(self).blocks@[k - old(self).first_height()],
                ),
    {
        let ghost orig = *self;
        while self.blocks[0].height < h
            invariant
                self.wf(),
                h <= self.cup.height,
                self.cup == orig.cup,
                self.purged_below == orig.purged_below,
                orig.wf(),
                self.first_height() >= orig.first_height(),
                self.first_height() <= h || self.first_height() == orig.first_height(),
                self.blocks@ == orig.blocks@.subrange(
                    self.first_height() - orig.first_height(),
                    orig.blocks@.len() as int,
                ),
            decreases h - self.first_height(),
        {
            proof {
                assert(self.blocks@.len() > 1) by {
                    assert(self.blocks@.last().height == self.cup.height
                        + (self.last_height() - self.cup.height));
                }
            }
            let ghost pre = self.blocks@;
            let ghost a0 = self.first_height() - orig.first_height();
            self.blocks.remove(0);
            proof {
                assert forall|i: int| 0 <= i < self.blocks@.len() implies self.blocks@[i]
                    == orig.blocks@.subrange(a0 + 1, orig.blocks@.len() as int)[i] by {
                    assert(pre.remove(0)[i] == pre[i + 1]);
                }
                assert(self.blocks@ =~= orig.blocks@.subrange(a0 + 1, orig.blocks@.len() as int));
            }
        }
        self.purged_below = h;
    }
}

pub struct CertificationPool {
    /// Certifications in strictly ascending height order.
    pub certs: Vec<Certification>,
}

impl CertificationPool {
    pub open spec fn wf(self) -> bool {
        forall|i: int, j: int|
            0 <= i < j < self.certs@.len() ==> (#[trigger] self.certs@[i]).height < (
            #[trigger] self.certs@[j]).height
    }

    /// All certified heights, in ascending order.
    pub fn certified_heights(&self) -> (r: Vec<u64>)
        ensures
            r@.len() == self.certs@.len(),
            forall|i: int| 0 <= i < r@.len() ==> r@[i] == (#[trigger] self.certs@[i]).height,
    {
        let mut r: Vec<u64> = Vec::new();
        let mut i: usize = 0;
        while i < self.certs.len()
            invariant
                i <= self.certs@.len(),
                r@.len() == i,
                forall|j: int| 0 <= j < i ==> r@[j] == (#[trigger] self.certs@[j]).height,
            decreases self.certs@.len() - i,
        {
            r.push(self.certs[i].height);
            i = i + 1;
        }
        r
    }

    /// The certification at a height, if the pool holds one.
    pub fn certification_at_height(&self, h: u64) -> (r: Option<Certification>)
        ensures
            match r {
                Some(c) => (c.height == h && exists|i: int|
                    0 <= i < self.certs@.len() && (#[trigger] self.certs@[i]).height == h
                        && c.digest@ == self.certs@[i].digest@),
                None => forall|i: int|
                    0 <= i < self.certs@.len() ==> (#[trigger] self.certs@[i]).height != h,
            },
    {
        let mut i: usize = 0;
        while i < self.certs.len()
            invariant
                i <= self.certs@.len(),
                forall|j: int|
                    0 <= j < i ==> (#[trigger] self.certs@[j]).height != h,
            decreases self.certs@.len() - i,
        {
            if self.certs[i].height == h {
                return Some(
                    Certification { height: h, digest: copy_bytes(&self.certs[i].digest) },
                );
            }
            i = i + 1;
        }
        None
    }

    /// Records a certification for a height above every certified one.
    pub fn insert(&mut self, c: Certification)
        requires
            old(self).wf(),
            forall|i: int|
                0 <= i < old(self).certs@.len() ==> (#[trigger] old(self).certs@[i]).height
                    < c.height,
        ensures
            final(self).wf(),
            final(self).certs@ == old(self).certs@.push(c),
    {
        self.certs.push(c);
    }
}

} // verus!
