//! Model of the archival spool and the artifact-ingestion pass of a backup
//! restore.
//!
//! The spool holds one entry per archived height: the finalized block, and
//! optionally a catch-up package and a certification recorded at that
//! height. An ingestion pass feeds entries into the consensus and
//! certification pools in height order until it hits an obstacle, reported
//! as an exit point.

use vstd::prelude::*;
use crate::types::Block;
use crate::types::CatchUpPackage;
use crate::types::Certification;
use crate::types::copy_bytes;
use crate::pool::ConsensusPool;
use crate::pool::CertificationPool;
use crate::pool::copy_block;
use crate::pool::copy_cup;
use crate::pool::block_eq;
use crate::pool::cup_eq;

verus! {

/// Where an artifact-ingestion pass stopped.
#[derive(Debug)]
pub enum ExitPoint {
    /// A catch-up package boundary was reached at this height.
    CUPHeightWasFinalized(u64),
    /// The next artifact references a registry version not yet known
    /// locally.
    NewerRegistryVersion(u64),
    /// A certification for this height was ingested while the state manager
    /// still lags behind it.
    StateBehind(u64),
    /// No artifacts remain.
    Done,
}

/// One archived height.
pub struct SpoolEntry {
    pub block: Block,
    pub cup: Option<CatchUpPackage>,
    pub certification: Option<Certification>,
}

/// The archival spool, read in height order through `cursor`.
pub struct BackupSpool {
    pub entries: Vec<SpoolEntry>,
    /// Index of the next entry to ingest.
    pub cursor: usize,
}

impl BackupSpool {
    /// Height of the spool's first entry.
    pub open spec fn first_height(self) -> u64 {
        self.entries@[0].block.height
    }

    /// Height of entry `i`.
    pub open spec fn height_at(self, i: int) -> u64 {
        self.entries@[i].block.height
    }

    pub open spec fn wf(self) -> bool {
        &&& self.cursor <= self.entries@.len()
        &&& (forall|i: int|
            0 <= i < self.entries@.len() ==> (#[trigger] self.entries@[i]).block.height
                == self.first_height() + i)
        &&& self.first_height() + self.entries@.len() < u64::MAX - 1
        &&& (forall|i: int|
            0 <= i < self.entries@.len() ==> (#[trigger] self.entries@[i]).block.time < u64::MAX)
        &&& (forall|i: int|
            0 <= i < self.entries@.len() ==> match (#[trigger] self.entries@[i]).cup {
                Some(c) => c.height == self.entries@[i].block.height,
                None => true,
            })
        &&& (forall|i: int|
            0 <= i < self.entries@.len() ==> match (#[trigger] self.entries@[i]).certification {
                Some(c) => c.height == self.entries@[i].block.height,
                None => true,
            })
    }

    /// Whether the spool records a catch-up package at this height.
    pub open spec fn has_cup_at(self, h: u64) -> bool {
        &&& self.entries@.len() > 0
        &&& self.first_height() <= h < self.first_height() + self.entries@.len()
        &&& self.entries@[h - self.first_height()].cup is Some
    }

    /// The catch-up package the spool records at this height.
    pub open spec fn cup_at(self, h: u64) -> CatchUpPackage {
        self.entries@[h - self.first_height()].cup->Some_0
    }

    /// Reads the catch-up package archived at exactly this height, together
    /// with the block it binds.
    pub fn read_cup_at_height(&self, h: u64) -> (r: Option<(CatchUpPackage, Block)>)
        requires
            self.wf(),
        ensures
            match r {
                Some(p) => (self.has_cup_at(h) && cup_eq(p.0, self.cup_at(h)) && block_eq(
                    p.1,
                    self.entries@[h - self.first_height()].block,
                )),
                None => !self.has_cup_at(h),
            },
    {
        if self.entries.len() == 0 {
            return None;
        }
        let first = self.entries[0].block.height;
        if h < first {
            return None;
        }
        let n: usize = self.entries.len();
        proof {
            assert(self.first_height() + n < u64::MAX);
        }
        if h >= first + n as u64 {
            return None;
        }
        proof {
            assert(h - first < n);
        }
        let idx: usize = (h - first) as usize;
        match &self.entries[idx].cup {
            Some(c) => Some((copy_cup(c), copy_block(&self.entries[idx].block))),
            None => None,
        }
    }
}

/// Reads the catch-up package the spool holds at `cup_height` and replaces
/// the pool's package by it.
pub fn insert_cup_at_height(pool: &mut ConsensusPool, spool: &BackupSpool, cup_height: u64)
    requires
        old(pool).wf(),
        spool.wf(),
        spool.has_cup_at(cup_height),
        old(pool).first_height() <= cup_height <= old(pool).last_height(),
    ensures
        final(pool).wf(),
        cup_eq(final(pool).cup, spool.cup_at(cup_height)),
        final(pool).cup.height == cup_height,
        final(pool).blocks == old(pool).blocks,
        final(pool).purged_below == old(pool).purged_below,
{
    let cup = match spool.read_cup_at_height(cup_height) {
        Some(p) => p.0,
        None => vstd::pervasive::unreached(),
    };
    pool.insert_cup(cup);
}

/// Feeds archived artifacts into the pools, in height order, until an
/// obstacle is hit. Blocks referencing a registry version not yet known
/// locally stay in the spool; certifications and catch-up packages stop the
/// pass right after the entry carrying them was ingested.
pub fn deserialize_consensus_artifacts(
    spool: &mut BackupSpool,
    pool: &mut ConsensusPool,
    certification_pool: &mut CertificationPool,
    registry_latest: u64,
    latest_state_height: u64,
) -> (r: ExitPoint)
    requires
        old(spool).wf(),
        old(pool).wf(),
        old(certification_pool).wf(),
        forall|i: int|
            0 <= i < old(certification_pool).certs@.len() ==> (#[trigger] old(
                certification_pool,
            ).certs@[i]).height <= old(pool).last_height(),
        old(spool).cursor < old(spool).entries@.len() ==> old(spool).height_at(
            old(spool).cursor as int,
        ) == old(pool).last_height() + 1,
    ensures
        final(spool).wf(),
        final(pool).wf(),
        final(certification_pool).wf(),
        final(spool).entries == old(spool).entries,
        final(spool).cursor >= old(spool).cursor,
        final(pool).cup == old(pool).cup,
        final(pool).first_height() == old(pool).first_height(),
        final(pool).purged_below == old(pool).purged_below,
        final(pool).last_height() == old(pool).last_height() + (final(spool).cursor - old(
            spool,
        ).cursor),
        forall|k: u64|
            old(pool).first_height() <= k <= old(pool).last_height() ==> #[trigger] block_eq(
                final(pool).blocks@[k - old(pool).first_height()],
                old(pool).blocks@[k - old(pool).first_height()],
            ),
        forall|k: u64|
            old(pool).last_height() < k <= final(pool).last_height() ==> #[trigger] block_eq(
                final(pool).blocks@[k - old(pool).first_height()],
                old(spool).entries@[k - old(spool).first_height()].block,
            ),
        forall|i: int|
            0 <= i < final(certification_pool).certs@.len()
                ==> (#[trigger] final(certification_pool).certs@[i]).height
                <= final(pool).last_height(),
        final(certification_pool).certs@.len() >= old(certification_pool).certs@.len(),
        final(certification_pool).certs@.subrange(
            0,
            old(certification_pool).certs@.len() as int,
        ) == old(certification_pool).certs@,
        final(spool).cursor < final(spool).entries@.len() ==> final(spool).height_at(
            final(spool).cursor as int,
        ) == final(pool).last_height() + 1,
        forall|i: int|
            old(spool).cursor <= i < final(spool).cursor ==> (#[trigger] old(
                spool,
            ).entries@[i]).block.registry_version <= registry_latest,
        forall|i: int|
            old(spool).cursor <= i < final(spool).cursor - 1 ==> ((#[trigger] old(
                spool,
            ).entries@[i]).cup is None && (match old(spool).entries@[i].certification {
                Some(c) => c.height <= latest_state_height,
                None => true,
            })),
        match r {
            ExitPoint::Done => final(spool).cursor == final(spool).entries@.len(),
            ExitPoint::NewerRegistryVersion(v) => (final(spool).cursor < final(spool).entries@.len() && final(spool).entries@[final(spool).cursor as int].block.registry_version
                == v && v > registry_latest),
            ExitPoint::CUPHeightWasFinalized(h) => (final(spool).cursor > old(spool).cursor
                && final(spool).has_cup_at(h) && h == final(pool).last_height()),
            ExitPoint::StateBehind(ch) => (ch == final(pool).last_height() && ch
                > latest_state_height && final(spool).cursor > old(spool).cursor),
        },
{
    let ghost spool0 = *old(spool);
    let ghost pool0 = *old(pool);
    let ghost certs0 = *old(certification_pool);
    proof {
        assert(certification_pool.certs@.subrange(0, certs0.certs@.len() as int)
            =~= certs0.certs@);
    }
    loop
        invariant
            spool0 == *old(spool),
            pool0 == *old(pool),
            certs0 == *old(certification_pool),
            spool.wf(),
            pool.wf(),
            certification_pool.wf(),
            spool.entries == spool0.entries,
            spool.cursor >= spool0.cursor,
            pool.cup == pool0.cup,
            pool.first_height() == pool0.first_height(),
            pool.purged_below == pool0.purged_below,
            spool0.wf(),
            pool0.wf(),
            spool0.cursor < spool0.entries@.len() ==> spool0.height_at(spool0.cursor as int)
                == pool0.last_height() + 1,
            pool.last_height() == pool0.last_height() + (spool.cursor - spool0.cursor),
            forall|k: u64|
                pool0.first_height() <= k <= pool0.last_height() ==> #[trigger] block_eq(
                    pool.blocks@[k - pool0.first_height()],
                    pool0.blocks@[k - pool0.first_height()],
                ),
            forall|k: u64|
                pool0.last_height() < k <= pool.last_height() ==> #[trigger] block_eq(
                    pool.blocks@[k - pool0.first_height()],
                    spool0.entries@[k - spool0.first_height()].block,
                ),
            forall|i: int|
                0 <= i < certification_pool.certs@.len() ==> (#[trigger] certification_pool
                    .certs@[i]).height <= pool.last_height(),
            certification_pool.certs@.len() >= certs0.certs@.len(),
            certification_pool.certs@.subrange(0, certs0.certs@.len() as int) == certs0.certs@,
            spool.cursor < spool.entries@.len() ==> spool.height_at(spool.cursor as int)
                == pool.last_height() + 1,
            forall|i: int|
                spool0.cursor <= i < spool.cursor ==> (#[trigger] spool0.entries@[i]).block
                    .registry_version <= registry_latest,
            forall|i: int|
                spool0.cursor <= i < spool.cursor ==> ((#[trigger] spool0.entries@[i]).cup is None
                    && (match spool0.entries@[i].certification {
                    Some(c) => c.height <= latest_state_height,
                    None => true,
                })),
        decreases spool.entries@.len() - spool.cursor,
    {
        if spool.cursor >= spool.entries.len() {
            return ExitPoint::Done;
        }
        let idx = spool.cursor;
        if spool.entries[idx].block.registry_version > registry_latest {
            return ExitPoint::NewerRegistryVersion(spool.entries[idx].block.registry_version);
        }
        let b = copy_block(&spool.entries[idx].block);
        proof {
            assert(spool.first_height() + spool.entries@.len() < u64::MAX - 1);
            assert(b.height == pool.last_height() + 1);
        }
        pool.insert_block(b);
        let ghost certs_pre = certification_pool.certs@;
        let mut state_behind: Option<u64> = None;
        match &spool.entries[idx].certification {
            Some(c) => {
                let cert = Certification { height: c.height, digest: copy_bytes(&c.digest) };
                certification_pool.insert(cert);
                proof {
                    assert(certification_pool.certs@.subrange(0, certs0.certs@.len() as int)
                        =~= certs_pre.subrange(0, certs0.certs@.len() as int));
                }
                if c.height > latest_state_height {
                    state_behind = Some(c.height);
                }
            }
            None => {
            }
        }
        spool.cursor = idx + 1;
        match state_behind {
            Some(ch) => {
                return ExitPoint::StateBehind(ch);
            }
            None => {
            }
        }
        if spool.entries[idx].cup.is_some() {
            let h = spool.entries[idx].block.height;
            return ExitPoint::CUPHeightWasFinalized(h);
        }
    }
}

} // verus!
