//! The replay engine's orchestrator.
//!
//! A `Player` owns one instance of each collaborator model and exposes
//! `replay` (live mode) and `restore` (backup mode) as the two top-level
//! entry points. Batches are delivered strictly in ascending height order up
//! to `min(finalized height, replay target)`, state below the last delivered
//! height is pruned once it is certain, and checkpoints are held against the
//! locally computed digests.

use vstd::prelude::*;
use crate::types::Batch;
use crate::types::BlessedReplicaVersions;
use crate::types::CatchUpPackage;
use crate::types::Certification;
use crate::types::IngressMessage;
use crate::types::QueryError;
use crate::types::RegistryRecord;
use crate::types::ReplayError;
use crate::types::ReplayResult;
use crate::types::StateParams;
use crate::types::SubnetRecord;
use crate::types::copy_bytes;
use crate::types::copy_ingress_vec;
use crate::hexenc::hex_of;
use crate::hexenc::to_hex;
use crate::state_manager::StateManager;
use crate::state_manager::get_state_hash;
use crate::routing::MessageRouting;
use crate::routing::MessageRoutingError;
use crate::pool::ConsensusPool;
use crate::pool::CertificationPool;
use crate::pool::copy_cup;
use crate::pool::cup_eq;
use crate::registry::LocalStore;
use crate::registry::QueryHandler;
use crate::registry::RegistryClient;
use crate::backup::BackupSpool;

verus! {

/// The ceiling the batch delivery loop observes: the finalized height, or
/// the caller's target when that is lower.
pub open spec fn clamp_target(finalized: u64, target: Option<u64>) -> u64 {
    match target {
        None => finalized,
        Some(t) => if t < finalized {
            t
        } else {
            finalized
        },
    }
}

pub open spec fn queue_weight(q: Option<Batch>) -> int {
    match q {
        Some(_) => 1,
        None => 0,
    }
}

/// The all-zero randomness seed of a synthetic batch delivered without a
/// consensus pool: no live subnet is impersonated in that mode.
fn zero_seed() -> (r: Vec<u8>)
    ensures
        r@.len() == 32,
        forall|k: int| 0 <= k < 32 ==> r@[k] == 0u8,
{
    let mut r: Vec<u8> = Vec::new();
    let mut i: usize = 0;
    while i < 32
        invariant
            i <= 32,
            r@.len() == i,
            forall|k: int| 0 <= k < i ==> r@[k] == 0u8,
        decreases 32 - i,
    {
        r.push(0u8);
        i = i + 1;
    }
    r
}

/// A checkpoint boundary taken from a consistent archive passes the
/// consistency check: the inserted package commits the expected digest and
/// names the running build.
proof fn lemma_boundary_of_consistent_archive(orig: Player, inserted: Player, cup_height: u64)
    requires
        orig.wf(),
        orig.backup_spool is Some,
        orig.consensus_pool is Some,
        inserted.consensus_pool is Some,
        orig.archive_checkpoints_consistent(),
        orig.backup_spool->Some_0.has_cup_at(cup_height),
        cup_height >= 1,
        cup_eq(
            inserted.consensus_pool->Some_0.cup,
            orig.backup_spool->Some_0.cup_at(cup_height),
        ),
        inserted.consensus_pool->Some_0.cup.height == cup_height,
        inserted.state_manager.digest_expected_at(cup_height)
            == orig.state_manager.digest_expected_at(cup_height),
        inserted.registry.replica_versions == orig.registry.replica_versions,
        inserted.replica_version == orig.replica_version,
    ensures
        !inserted.cup_divergence(),
        inserted.cup_upgrade() is None,
{
    let sp0 = orig.backup_spool->Some_0;
    let idx = cup_height - sp0.first_height();
    let c = sp0.cup_at(cup_height);
    assert(0 <= idx < sp0.entries@.len());
    assert(sp0.entries@[idx].cup == Some(c));
    assert(c.height == sp0.entries@[idx].block.height);
    assert(match (orig.backup_spool->Some_0.entries@[idx]).cup {
        Some(cc) => cc.height == 0 || (orig.state_manager.digest_expected_at(cc.height) == Some(
            cc.state_hash@,
        ) && orig.build_mismatch(cc.registry_version) is None),
        None => true,
    });
    assert(orig.state_manager.digest_expected_at(cup_height) == Some(c.state_hash@));
    assert(orig.build_mismatch(c.registry_version) is None);
    assert(inserted.cup_upgrade() == orig.build_mismatch(c.registry_version));
}

/// Among the artifacts one ingestion pass took past the target height, only
/// the pass-ending one can carry a checkpoint or a certification: the
/// middle of a pass is boundary-free, and a certification in the middle
/// could only name an already-computed height below the target.
proof fn lemma_no_boundary_past_target(
    sp: BackupSpool,
    lo: int,
    cpre: int,
    cnow: int,
    latest_state: u64,
    t: u64,
)
    requires
        sp.wf(),
        0 <= lo <= cpre <= cnow <= sp.entries@.len(),
        latest_state <= t,
        forall|j: int|
            cpre <= j < cnow - 1 ==> ((#[trigger] sp.entries@[j]).cup is None && (match sp
                .entries@[j].certification {
                Some(c) => c.height <= latest_state,
                None => true,
            })),
        forall|j: int|
            lo <= j < cpre ==> ((#[trigger] sp.entries@[j]).block.height > t ==> (sp.entries@[j].cup
                is None && sp.entries@[j].certification is None)),
    ensures
        forall|j: int|
            lo <= j < cnow - 1 ==> ((#[trigger] sp.entries@[j]).block.height > t ==> (sp
                .entries@[j].cup is None && sp.entries@[j].certification is None)),
{
    assert forall|j: int|
        lo <= j < cnow - 1 && (#[trigger] sp.entries@[j]).block.height > t implies (sp
        .entries@[j].cup is None && sp.entries@[j].certification is None) by {
        if j >= cpre {
            match sp.entries@[j].certification {
                Some(c) => {
                    assert(c.height <= latest_state);
                    assert(c.height == sp.entries@[j].block.height);
                    assert(false);
                },
                None => {},
            }
        }
    }
}

/// An ingestion pass that stayed below the target height took no artifact
/// past it either: every newly ingested height is bounded by the pool's new
/// finalized height.
proof fn lemma_segment_below_target(
    sp: BackupSpool,
    lo: int,
    cpre: int,
    cnow: int,
    pool_last: u64,
    t: u64,
)
    requires
        sp.wf(),
        0 <= lo <= cpre <= cnow <= sp.entries@.len(),
        pool_last < t,
        cnow > cpre ==> pool_last == sp.first_height() + cnow - 1,
        forall|j: int|
            lo <= j < cpre ==> ((#[trigger] sp.entries@[j]).block.height > t ==> (sp.entries@[j].cup
                is None && sp.entries@[j].certification is None)),
    ensures
        forall|j: int|
            lo <= j < cnow ==> ((#[trigger] sp.entries@[j]).block.height > t ==> (sp.entries@[j].cup
                is None && sp.entries@[j].certification is None)),
{
    assert forall|j: int|
        lo <= j < cnow && (#[trigger] sp.entries@[j]).block.height > t implies (sp.entries@[j].cup
        is None && sp.entries@[j].certification is None) by {
        if j >= cpre {
            assert(sp.entries@[j].block.height == sp.first_height() + j);
            assert(sp.entries@[j].block.height <= pool_last);
            assert(false);
        }
    }
}

/// How the delivered-heights log looks after one more run of ascending
/// deliveries, starting at `startc`, was appended to it: the old prefix is
/// kept, the whole suffix beyond `origdh` stays strictly ascending and under
/// the target, and the last entry names the newest accepted height.
proof fn lemma_delivered_log_extends(
    origdh: Seq<u64>,
    predh: Seq<u64>,
    dh: Seq<u64>,
    startc: u64,
    target: Option<u64>,
)
    requires
        predh.len() >= origdh.len(),
        predh.subrange(0, origdh.len() as int) == origdh,
        dh.len() >= predh.len(),
        dh.subrange(0, predh.len() as int) == predh,
        forall|i: int|
            0 <= i < dh.len() - predh.len() ==> #[trigger] dh[predh.len() + i] == startc + i,
        forall|a: int, b: int| origdh.len() <= a < b < predh.len() ==> predh[a] < predh[b],
        predh.len() > origdh.len() ==> predh[predh.len() - 1] == startc - 1,
        match target {
            Some(t) => (forall|a: int|
                origdh.len() <= a < predh.len() ==> #[trigger] predh[a] <= t) && (dh.len()
                > predh.len() ==> startc + (dh.len() - predh.len()) - 1 <= t),
            None => true,
        },
    ensures
        dh.subrange(0, origdh.len() as int) == origdh,
        forall|a: int, b: int| origdh.len() <= a < b < dh.len() ==> dh[a] < dh[b],
        dh.len() == predh.len() ==> dh == predh,
        dh.len() > predh.len() ==> dh[dh.len() - 1] == startc + (dh.len() - predh.len()) - 1,
        match target {
            Some(t) => forall|a: int| origdh.len() <= a < dh.len() ==> #[trigger] dh[a] <= t,
            None => true,
        },
{
    assert forall|i: int| 0 <= i < predh.len() implies dh[i] == predh[i] by {
        assert(dh.subrange(0, predh.len() as int)[i] == predh[i]);
    }
    assert forall|i: int| 0 <= i < origdh.len() implies dh[i] == origdh[i] by {
        assert(predh.subrange(0, origdh.len() as int)[i] == predh[i]);
    }
    assert(dh.subrange(0, origdh.len() as int) =~= origdh);
    if dh.len() == predh.len() {
        assert(dh =~= predh);
    }
    assert forall|a: int, b: int| origdh.len() <= a < b < dh.len() implies dh[a] < dh[b] by {
        if b >= predh.len() {
            assert(dh[predh.len() + (b - predh.len())] == startc + (b - predh.len()));
            if a >= predh.len() {
                assert(dh[predh.len() + (a - predh.len())] == startc + (a - predh.len()));
            } else if a == predh.len() - 1 {
            } else {
                assert(predh[a] < predh[predh.len() - 1]);
            }
        }
    }
    if dh.len() > predh.len() {
        assert(dh[predh.len() + (dh.len() - predh.len() - 1)] == startc + (dh.len() - predh.len()
            - 1));
    }
    match target {
        Some(t) => {
            assert forall|a: int| origdh.len() <= a < dh.len() implies #[trigger] dh[a] <= t by {
                if a >= predh.len() {
                    assert(dh[predh.len() + (a - predh.len())] == startc + (a - predh.len()));
                }
            }
        },
        None => {},
    }
}

/// The main replay component: consensus pool, certification pool, state
/// manager, message routing, registry client and query path, assembled for
/// one subnet.
pub struct Player {
    pub state_manager: StateManager,
    pub message_routing: MessageRouting,
    pub consensus_pool: Option<ConsensusPool>,
    pub certification_pool: Option<CertificationPool>,
    pub registry: RegistryClient,
    pub local_store: Option<LocalStore>,
    pub query_handler: QueryHandler,
    pub backup_spool: Option<BackupSpool>,
    /// The id of the subnet the artifacts are taken from.
    pub subnet_id: u64,
    /// The replica build this engine runs as.
    pub replica_version: u64,
    /// The wall clock, nanoseconds since the epoch.
    pub now: u64,
    /// The target height until which the state will be replayed; `None`
    /// means the finalized height.
    pub replay_target_height: Option<u64>,
}

impl Player {
    /// The engine's cross-component invariant: the pipeline expects exactly
    /// the height after the last accepted batch, the state manager's plan
    /// reaches every height the pools or the spool can yield, and the pool's
    /// catch-up package never runs ahead of the computed state.
    pub open spec fn wf(self) -> bool {
        &&& self.state_manager.wf()
        &&& self.state_manager.horizon() < u64::MAX - 2
        &&& match self.message_routing.queue {
            None => self.message_routing.expected == self.state_manager.latest + 1,
            Some(b) => b.batch_number == self.state_manager.latest + 1
                && self.message_routing.expected == self.state_manager.latest + 2
                && self.state_manager.latest + 1 <= self.state_manager.horizon(),
        }
        &&& (self.consensus_pool is Some <==> self.certification_pool is Some)
        &&& match self.consensus_pool {
            Some(p) => {
                &&& p.wf()
                &&& p.cup.height <= self.state_manager.latest
                &&& p.first_height() <= self.state_manager.latest + 1
                &&& (p.cup.height == self.state_manager.latest
                    ==> self.state_manager.digest_expected_at(p.cup.height) is Some)
                &&& self.state_manager.horizon() >= p.last_height() + 1
            },
            None => true,
        }
        &&& match self.certification_pool {
            Some(cp) => {
                &&& cp.wf()
                &&& (self.consensus_pool is Some ==> forall|i: int|
                    0 <= i < cp.certs@.len() ==> (#[trigger] cp.certs@[i]).height
                        <= self.consensus_pool->Some_0.last_height())
            },
            None => true,
        }
        &&& match self.backup_spool {
            Some(sp) => {
                &&& sp.wf()
                &&& self.consensus_pool is Some
                &&& (sp.cursor < sp.entries@.len() ==> sp.height_at(sp.cursor as int)
                    == self.consensus_pool->Some_0.last_height() + 1)
                &&& (sp.entries@.len() > 0 ==> self.state_manager.horizon() >= sp.first_height()
                    + sp.entries@.len())
                &&& (forall|i: int|
                    0 <= i < sp.entries@.len() ==> match (#[trigger] sp.entries@[i]).cup {
                        Some(c) => (c.height > self.consensus_pool->Some_0.cup.height && c.height
                            >= self.state_manager.low)
                            ==> self.state_manager.digest_expected_at(c.height) is Some,
                        None => true,
                    })
            },
            None => true,
        }
        &&& self.now < u64::MAX - 60_000_000_000
    }

    /// What the engine reports as the latest state: the latest computed
    /// height with its digest when the state manager can hand the digest
    /// out, else the catch-up package's height and committed digest.
    pub open spec fn state_params_now(self) -> (u64, Seq<char>) {
        match self.state_manager.digest_expected_at(self.state_manager.latest) {
            Some(d) => (self.state_manager.latest, hex_of(d)),
            None => (
                self.consensus_pool->Some_0.cup.height,
                hex_of(self.consensus_pool->Some_0.cup.state_hash@),
            ),
        }
    }

    /// Whether `state_params_now` is defined: either the digest is at hand
    /// or a pool's catch-up package can stand in.
    pub open spec fn can_report_state(self) -> bool {
        self.state_manager.digest_expected_at(self.state_manager.latest) is Some
            || self.consensus_pool is Some
    }

    /// The components the orchestration never touches besides through their
    /// documented interfaces.
    pub open spec fn same_identity(a: Player, b: Player) -> bool {
        &&& a.subnet_id == b.subnet_id
        &&& a.replica_version == b.replica_version
        &&& a.now == b.now
        &&& a.replay_target_height == b.replay_target_height
    }

    /// Assembles a player from its collaborators. A certification pool
    /// exists exactly when a consensus pool does: the two construction modes
    /// either attach to a pool pair or run poolless.
    #[verifier::rlimit(30)]
    pub fn new_with_params(
        state_manager: StateManager,
        message_routing: MessageRouting,
        consensus_pool: Option<ConsensusPool>,
        certifications: Vec<Certification>,
        registry: RegistryClient,
        local_store: Option<LocalStore>,
        query_handler: QueryHandler,
        backup_spool: Option<BackupSpool>,
        subnet_id: u64,
        replica_version: u64,
        now: u64,
    ) -> (r: Player)
        requires
            ({
                let p = (Player {
                    state_manager,
                    message_routing,
                    consensus_pool,
                    certification_pool: match consensus_pool {
                        Some(_) => Some(CertificationPool { certs: certifications }),
                        None => None,
                    },
                    registry,
                    local_store,
                    query_handler,
                    backup_spool,
                    subnet_id,
                    replica_version,
                    now,
                    replay_target_height: None,
                });
                p.wf()
            }),
        ensures
            r.wf(),
            r.state_manager == state_manager,
            r.message_routing == message_routing,
            r.consensus_pool == consensus_pool,
            r.certification_pool == (match consensus_pool {
                Some(_) => Some(CertificationPool { certs: certifications }),
                None => None,
            }),
            r.registry == registry,
            r.local_store == local_store,
            r.query_handler == query_handler,
            r.backup_spool == backup_spool,
            r.subnet_id == subnet_id,
            r.replica_version == replica_version,
            r.now == now,
            r.replay_target_height is None,
    {
        let certification_pool = match &consensus_pool {
            Some(_) => Some(CertificationPool { certs: certifications }),
            None => None,
        };
        Player {
            state_manager,
            message_routing,
            consensus_pool,
            certification_pool,
            registry,
            local_store,
            query_handler,
            backup_spool,
            subnet_id,
            replica_version,
            now,
            replay_target_height: None,
        }
    }

    /// Sets the replay target height.
    pub fn with_replay_target_height(self, replay_target_height: Option<u64>) -> (r: Player)
        ensures
            r == (Player { replay_target_height, ..self }),
    {
        Player { replay_target_height, ..self }
    }

    /// The pool's current catch-up package. Only meaningful with a pool
    /// attached.
    fn get_latest_cup(&self) -> (r: &CatchUpPackage)
        requires
            self.consensus_pool is Some,
        ensures
            *r == self.consensus_pool->Some_0.cup,
    {
        match &self.consensus_pool {
            Some(p) => &p.cup,
            None => vstd::pervasive::unreached(),
        }
    }

    /// Returns the highest catch-up package.
    pub fn get_highest_catch_up_package(&self) -> (r: CatchUpPackage)
        requires
            self.consensus_pool is Some,
        ensures
            cup_eq(r, self.consensus_pool->Some_0.cup),
    {
        copy_cup(self.get_latest_cup())
    }

    /// Blocks until the state at the given height is committed; in this
    /// model the wait resolves by running the execution worker once. The
    /// caller names the last delivered height: a state manager that ends up
    /// anywhere else would be an internal contract violation.
    pub fn wait_for_state(&mut self, height: u64)
        requires
            old(self).wf(),
            old(self).state_manager.latest == height || (old(self).message_routing.queue is Some
                && height == old(self).state_manager.latest + 1),
        ensures
            final(self).wf(),
            final(self).state_manager.latest == height,
            final(self).state_manager.low == old(self).state_manager.low,
            final(self).state_manager.horizon() == old(self).state_manager.horizon(),
            final(self).state_manager.certifications == old(self).state_manager.certifications,
            forall|k: u64|
                old(self).state_manager.covers(k) ==> final(self).state_manager.digest_expected_at(
                    k,
                ) == old(self).state_manager.digest_expected_at(k),
            final(self).message_routing.expected == old(self).message_routing.expected,
            final(self).message_routing.delivered_heights == old(self).message_routing.delivered_heights,
            final(self).message_routing.outcomes == old(self).message_routing.outcomes,
            final(self).message_routing.statuses@.subrange(
                0,
                old(self).message_routing.statuses@.len() as int,
            ) == old(self).message_routing.statuses@,
            old(self).state_manager.latest == height ==> *final(self) == *old(self),
            (old(self).state_manager.latest < height && old(self).message_routing.queue matches
                Some(b)) ==> {
                let b = old(self).message_routing.queue->Some_0;
                &&& final(self).message_routing.queue is None
                &&& final(self).message_routing.statuses@.len() == old(self).message_routing.statuses@.len() + b.ingress@.len()
                &&& (forall|i: int|
                    0 <= i < b.ingress@.len() ==> {
                        let e = final(self).message_routing.statuses@[old(self).message_routing.statuses@.len() + i];
                        e.0 == (#[trigger] b.ingress@[i]).id && crate::routing::status_view(e.1)
                            == crate::routing::latest_status_in(
                            old(self).message_routing.outcomes@,
                            b.ingress@[i].id,
                        )
                    })
            },
            final(self).consensus_pool == old(self).consensus_pool,
            final(self).certification_pool == old(self).certification_pool,
            final(self).registry == old(self).registry,
            final(self).local_store == old(self).local_store,
            final(self).query_handler == old(self).query_handler,
            final(self).backup_spool == old(self).backup_spool,
            Player::same_identity(*final(self), *old(self)),
    {
        if self.state_manager.latest < height {
            self.message_routing.process_pending(&mut self.state_manager);
        } else {
            proof {
                assert(self.message_routing.statuses@.subrange(
                    0,
                    self.message_routing.statuses@.len() as int,
                ) =~= self.message_routing.statuses@);
            }
        }
    }

    /// Returns the latest height and state hash according to the state
    /// manager: the latest checkpoint, or the catch-up package's state when
    /// the latest height exists in memory only.
    pub fn get_latest_state_height_and_hash(&self) -> (r: StateParams)
        requires
            self.wf(),
            self.can_report_state(),
        ensures
            r.0 == self.state_params_now().0,
            r.1@ == self.state_params_now().1,
    {
        let height = self.state_manager.latest_state_height();
        match self.state_manager.get_state_hash_at(height) {
            Ok(hash_raw) => (height, to_hex(&hash_raw)),
            Err(_) => {
                let cup = self.get_latest_cup();
                (cup.height, to_hex(&cup.state_hash))
            },
        }
    }

    /// Whether the locally computed digest at the catch-up package's height
    /// disagrees with the committed one while the computed state has not
    /// moved past that height.
    pub open spec fn cup_divergence(self) -> bool {
        let cup = self.consensus_pool->Some_0.cup;
        &&& cup.height != 0
        &&& !(cup.height < self.state_manager.latest)
        &&& self.state_manager.digest_expected_at(cup.height) != Some(cup.state_hash@)
    }

    /// The replica build the registry records as active at a registry
    /// version, when it differs from the running one.
    pub open spec fn build_mismatch(self, registry_version: u64) -> Option<u64> {
        match crate::registry::replica_version_in(
            self.registry.replica_versions@,
            registry_version,
        ) {
            Some(v) => if v != self.replica_version {
                Some(v)
            } else {
                None
            },
            None => None,
        }
    }

    /// The replica build the registry records for the catch-up package's
    /// registry version, when it differs from the running one.
    pub open spec fn cup_upgrade(self) -> Option<u64> {
        self.build_mismatch(self.consensus_pool->Some_0.cup.registry_version)
    }

    /// Checks that the catch-up package inside the consensus pool commits
    /// the same state hash as the one computed locally, and that the running
    /// replica build is the one the registry records for it. A genesis
    /// package passes unconditionally: there is no prior state to compare
    /// and the subnet's signing key is only established at that height. The
    /// signature itself is externally guaranteed before this stage; a
    /// package failing it would abort, so it is never handed in.
    pub fn verify_latest_cup(&self) -> (r: Result<(), ReplayError>)
        requires
            self.wf(),
            self.consensus_pool is Some,
            self.consensus_pool->Some_0.cup.height != 0
                ==> self.consensus_pool->Some_0.cup.signature_ok,
        ensures
            self.consensus_pool->Some_0.cup.height == 0 ==> r is Ok,
            r matches Err(ReplayError::StateDivergence(h)) ==> (self.cup_divergence() && h
                == self.consensus_pool->Some_0.cup.height),
            self.cup_divergence() ==> (r matches Err(ReplayError::StateDivergence(h)) && h
                == self.consensus_pool->Some_0.cup.height),
            r matches Err(ReplayError::UpgradeDetected(p)) ==> (self.consensus_pool->Some_0.cup.height
                != 0 && !self.cup_divergence() && self.cup_upgrade() is Some && p.0
                == self.state_params_now().0 && p.1@ == self.state_params_now().1),
            (self.consensus_pool->Some_0.cup.height != 0 && !self.cup_divergence()
                && self.cup_upgrade() is Some) ==> r matches Err(ReplayError::UpgradeDetected(_)),
            r is Ok <==> (self.consensus_pool->Some_0.cup.height == 0 || (!self.cup_divergence()
                && self.cup_upgrade() is None)),
    {
        let cup = self.get_latest_cup();

        if cup.height == 0 {
            return Ok(());
        }

        // The threshold signature over the package's byte encoding was
        // verified against the subnet's key at the package's registry
        // version before this stage.
        if !cup.signature_ok {
            return vstd::pervasive::unreached();
        }

        if !(cup.height < self.state_manager.latest_state_height()) {
            // States are persisted without new packages being minted during
            // recovery, so the comparison only binds while the computed
            // state has not moved past the package.
            let local = match get_state_hash(&self.state_manager, cup.height) {
                Some(d) => d,
                None => vstd::pervasive::unreached(),
            };
            if !crate::types::bytes_eq(&local, &cup.state_hash) {
                return Err(ReplayError::StateDivergence(cup.height));
            }
        }

        match self.registry.lookup_replica_version(cup.registry_version) {
            Some(replica_version) => {
                if replica_version != self.replica_version {
                    return Err(ReplayError::UpgradeDetected(
                        self.get_latest_state_height_and_hash(),
                    ));
                }
            },
            None => {},
        }

        Ok(())
    }

    /// Delivers all finalized batches since the pipeline's next expected
    /// height, strictly in ascending height order, stopping at the given
    /// ceiling (or the finalized height with none given). Backpressure is
    /// waited out by letting execution drain; a batch at a pending height
    /// can never be ignored. Returns the last height handed over.
    pub fn deliver_batches(&mut self, replay_target_height: Option<u64>) -> (r: u64)
        requires
            old(self).wf(),
            old(self).consensus_pool is Some,
        ensures
            final(self).wf(),
            ({
                let fin = old(self).consensus_pool->Some_0.last_height();
                let tgt = clamp_target(fin, replay_target_height);
                let start = old(self).message_routing.expected;
                let count = if start > tgt {
                    0int
                } else {
                    tgt - start + 1
                };
                &&& r == if start > tgt {
                    (start - 1) as u64
                } else {
                    tgt
                }
                &&& final(self).message_routing.expected == r + 1
                &&& final(self).message_routing.delivered_heights@.len() == old(self).message_routing.delivered_heights@.len() + count
                &&& final(self).message_routing.delivered_heights@.subrange(
                    0,
                    old(self).message_routing.delivered_heights@.len() as int,
                ) == old(self).message_routing.delivered_heights@
                &&& (forall|i: int|
                    0 <= i < count ==> #[trigger] final(self).message_routing.delivered_heights@[
                        old(self).message_routing.delivered_heights@.len() + i] == start + i)
                &&& (start > tgt ==> *final(self) == *old(self))
            }),
            final(self).message_routing.outcomes == old(self).message_routing.outcomes,
            final(self).message_routing.statuses@.len() >= old(self).message_routing.statuses@.len(),
            final(self).message_routing.statuses@.subrange(
                0,
                old(self).message_routing.statuses@.len() as int,
            ) == old(self).message_routing.statuses@,
            final(self).state_manager.low == old(self).state_manager.low,
            final(self).state_manager.latest >= old(self).state_manager.latest,
            final(self).state_manager.horizon() == old(self).state_manager.horizon(),
            final(self).state_manager.certifications == old(self).state_manager.certifications,
            forall|k: u64|
                old(self).state_manager.covers(k) ==> final(self).state_manager.digest_expected_at(
                    k,
                ) == old(self).state_manager.digest_expected_at(k),
            final(self).consensus_pool == old(self).consensus_pool,
            final(self).certification_pool == old(self).certification_pool,
            final(self).registry == old(self).registry,
            final(self).local_store == old(self).local_store,
            final(self).query_handler == old(self).query_handler,
            final(self).backup_spool == old(self).backup_spool,
            Player::same_identity(*final(self), *old(self)),
    {
        let ghost orig = *self;
        let expected = self.message_routing.expected_batch_height();
        let fin = match &self.consensus_pool {
            Some(p) => p.get_finalized_height(),
            None => vstd::pervasive::unreached(),
        };
        let tgt = match replay_target_height {
            None => fin,
            Some(t) => if t < fin {
                t
            } else {
                fin
            },
        };
        let mut h = expected;
        proof {
            assert(self.message_routing.delivered_heights@.subrange(
                0,
                orig.message_routing.delivered_heights@.len() as int,
            ) =~= orig.message_routing.delivered_heights@);
            assert(self.message_routing.statuses@.subrange(
                0,
                orig.message_routing.statuses@.len() as int,
            ) =~= orig.message_routing.statuses@);
        }
        while h <= tgt
            invariant
                orig == *old(self),
                self.wf(),
                orig.wf(),
                orig.consensus_pool is Some,
                self.consensus_pool == orig.consensus_pool,
                self.certification_pool == orig.certification_pool,
                self.registry == orig.registry,
                self.local_store == orig.local_store,
                self.query_handler == orig.query_handler,
                self.backup_spool == orig.backup_spool,
                Player::same_identity(*self, orig),
                expected == orig.message_routing.expected,
                fin == orig.consensus_pool->Some_0.last_height(),
                tgt == clamp_target(fin, replay_target_height),
                expected <= h,
                h <= tgt + 1 || h == expected,
                expected > tgt ==> *self == orig,
                h == self.message_routing.expected,
                self.message_routing.delivered_heights@.len() == orig.message_routing
                    .delivered_heights@.len() + (h - expected),
                self.message_routing.delivered_heights@.subrange(
                    0,
                    orig.message_routing.delivered_heights@.len() as int,
                ) == orig.message_routing.delivered_heights@,
                forall|i: int|
                    0 <= i < h - expected ==> #[trigger] self.message_routing.delivered_heights@[
                        orig.message_routing.delivered_heights@.len() + i] == expected + i,
                self.message_routing.outcomes == orig.message_routing.outcomes,
                self.message_routing.statuses@.len() >= orig.message_routing.statuses@.len(),
                self.message_routing.statuses@.subrange(
                    0,
                    orig.message_routing.statuses@.len() as int,
                ) == orig.message_routing.statuses@,
                self.state_manager.low == orig.state_manager.low,
                self.state_manager.latest >= orig.state_manager.latest,
                self.state_manager.horizon() == orig.state_manager.horizon(),
                self.state_manager.certifications == orig.state_manager.certifications,
                forall|k: u64|
                    orig.state_manager.covers(k) ==> self.state_manager.digest_expected_at(k)
                        == orig.state_manager.digest_expected_at(k),
            decreases 2 * (tgt - h) + queue_weight(self.message_routing.queue) + 2,
        {
            let (block_registry_version, block_time, seed, ingress) = match &self.consensus_pool {
                Some(p) => match p.get_finalized_block(h) {
                    Some(b) => (
                        b.registry_version,
                        b.time,
                        copy_bytes(&b.seed),
                        copy_ingress_vec(&b.ingress),
                    ),
                    None => vstd::pervasive::unreached(),
                },
                None => vstd::pervasive::unreached(),
            };
            let batch = Batch {
                batch_number: h,
                requires_full_state_hash: false,
                ingress,
                randomness: seed,
                registry_version: block_registry_version,
                time: block_time,
            };
            let ghost pre = *self;
            match self.message_routing.deliver_batch(batch) {
                Ok(()) => {
                    proof {
                        assert(self.message_routing.delivered_heights@.subrange(
                            0,
                            orig.message_routing.delivered_heights@.len() as int,
                        ) =~= pre.message_routing.delivered_heights@.subrange(
                            0,
                            orig.message_routing.delivered_heights@.len() as int,
                        ));
                    }
                    h = h + 1;
                },
                Err((MessageRoutingError::QueueIsFull, _refused)) => {
                    self.message_routing.process_pending(&mut self.state_manager);
                    proof {
                        assert(self.message_routing.statuses@.subrange(
                            0,
                            orig.message_routing.statuses@.len() as int,
                        ) =~= pre.message_routing.statuses@.subrange(
                            0,
                            orig.message_routing.statuses@.len() as int,
                        ));
                    }
                },
                Err((MessageRoutingError::Ignored, _refused)) => {
                    vstd::pervasive::unreached()
                },
            }
        }
        if expected > tgt {
            expected - 1
        } else {
            tgt
        }
    }

    /// Queries the registry canister, through the anonymous query path, for
    /// all records changed since the given version.
    pub fn get_changes_since(&self, version: u64, _ingress_expiry: u64) -> (r: Result<
        Vec<RegistryRecord>,
        QueryError,
    >)
        ensures
            match r {
                Ok(v) => (self.query_handler.fault is None && crate::registry::records_match(
                    v@,
                    crate::registry::changes_since(self.query_handler.records@, version),
                )),
                Err(e) => self.query_handler.fault == Some(e),
            },
    {
        match self.query_handler.fault {
            Some(e) => Err(e),
            None => Ok(crate::registry::changes_since_exec(&self.query_handler.records, version)),
        }
    }

    /// Returns the latest registry version by querying the registry
    /// canister.
    pub fn get_latest_registry_version(&self, _ingress_expiry: u64) -> (r: Result<u64, QueryError>)
        ensures
            match r {
                Ok(v) => (self.query_handler.fault is None && v
                    == crate::registry::max_version_of(self.query_handler.records@)),
                Err(e) => self.query_handler.fault == Some(e),
            },
    {
        match self.query_handler.fault {
            Some(e) => Err(e),
            None => Ok(crate::registry::max_version_exec(&self.query_handler.records)),
        }
    }

    /// Returns the latest blessed-replica-versions record by querying the
    /// registry canister. The record exists on any directory worth querying;
    /// its absence would abort.
    pub fn get_blessed_replica_versions(&self, _ingress_expiry: u64) -> (r: Result<
        BlessedReplicaVersions,
        QueryError,
    >)
        requires
            self.query_handler.fault is None ==> self.query_handler.blessed is Some,
        ensures
            match r {
                Ok(b) => (self.query_handler.fault is None && b.blessed_version_ids@
                    == self.query_handler.blessed->Some_0.blessed_version_ids@),
                Err(e) => self.query_handler.fault == Some(e),
            },
    {
        match self.query_handler.fault {
            Some(e) => Err(e),
            None => match &self.query_handler.blessed {
                Some(b) => Ok(
                    BlessedReplicaVersions {
                        blessed_version_ids: crate::types::copy_u64s(&b.blessed_version_ids),
                    },
                ),
                None => vstd::pervasive::unreached(),
            },
        }
    }

    /// Returns this subnet's record at the latest registry version by
    /// querying the registry canister. The record exists for any subnet
    /// worth replaying; its absence would abort.
    pub fn get_subnet_record(&self, _ingress_expiry: u64) -> (r: Result<SubnetRecord, QueryError>)
        requires
            self.query_handler.fault is None ==> self.query_handler.subnet_record is Some,
        ensures
            match r {
                Ok(s) => (self.query_handler.fault is None && s
                    == self.query_handler.subnet_record->Some_0),
                Err(e) => self.query_handler.fault == Some(e),
            },
    {
        match self.query_handler.fault {
            Some(e) => Err(e),
            None => match &self.query_handler.subnet_record {
                Some(s) => Ok(SubnetRecord { replica_version_id: s.replica_version_id }),
                None => vstd::pervasive::unreached(),
            },
        }
    }

    /// Whether the local store and the query path are in the state the
    /// registry update requires: a store backing the client's snapshot, a
    /// canister that answers, and a gapless canister changelog above the
    /// client's version.
    pub open spec fn registry_update_ready(self) -> bool {
        &&& self.local_store is Some
        &&& self.local_store->Some_0.entries@.len() == self.registry.latest_version
        &&& self.query_handler.fault is None
        &&& (forall|v: u64|
            self.registry.latest_version < v <= crate::registry::max_version_of(
                self.query_handler.records@,
            ) ==> #[trigger] crate::registry::has_version(self.query_handler.records@, v))
        &&& self.registry.latest_version + self.query_handler.records@.len() < u64::MAX
    }

    /// The highest version the local store holds once the canister's changes
    /// since the client's version have been appended.
    pub open spec fn updated_store_version(self) -> u64 {
        let cmax = crate::registry::max_version_of(self.query_handler.records@);
        if cmax > self.registry.latest_version {
            cmax
        } else {
            self.registry.latest_version
        }
    }

    /// Fetches all registry records newer than the client's version and
    /// appends them to the local store, grouped by version in ascending
    /// version order with no gaps. The client itself is not advanced: it
    /// re-reads the store on its next poll.
    pub fn update_registry_local_store(&mut self)
        requires
            old(self).wf(),
            old(self).registry_update_ready(),
        ensures
            final(self).wf(),
            final(self).local_store is Some,
            final(self).local_store->Some_0.entries@.len() == old(self).updated_store_version(),
            final(self).local_store->Some_0.entries@.subrange(
                0,
                old(self).registry.latest_version as int,
            ) == old(self).local_store->Some_0.entries@,
            exists|vs: Seq<u64>|
                crate::registry::appended_as_changelog(
                    final(self).local_store->Some_0.entries@,
                    old(self).registry.latest_version as int,
                    crate::registry::changes_since(
                        old(self).query_handler.records@,
                        old(self).registry.latest_version,
                    ),
                    vs,
                ),
            final(self).state_manager == old(self).state_manager,
            final(self).message_routing == old(self).message_routing,
            final(self).consensus_pool == old(self).consensus_pool,
            final(self).certification_pool == old(self).certification_pool,
            final(self).registry == old(self).registry,
            final(self).query_handler == old(self).query_handler,
            final(self).backup_spool == old(self).backup_spool,
            Player::same_identity(*final(self), *old(self)),
    {
        let latest_version = self.registry.get_latest_version();
        let records = match self.get_changes_since(latest_version, self.now + 60_000_000_000) {
            Ok(records) => records,
            Err(_) => vstd::pervasive::unreached(),
        };
        let ghost canister = self.query_handler.records@;
        let ghost filtered = crate::registry::changes_since(canister, latest_version);
        proof {
            crate::registry::lemma_changes_since_len(canister, latest_version);
            crate::registry::lemma_changes_since_versions(canister, latest_version);
            crate::registry::lemma_versions_congruent(records@, filtered);
            crate::registry::lemma_distinct_versions(records@);
            crate::registry::lemma_distinct_versions(filtered);
            crate::registry::lemma_max_version_of(canister);
            assert forall|i: int| 0 <= i < records@.len() implies (#[trigger] records@[i]).version
                > latest_version by {
                assert(crate::registry::record_matches(records@[i], filtered[i]));
                crate::registry::lemma_changes_since_members(canister, latest_version);
            }
        }
        let ghost store0 = self.local_store->Some_0.entries@;
        match &mut self.local_store {
            Some(store) => crate::registry::write_records_to_local_store(
                store,
                latest_version,
                &records,
            ),
            None => vstd::pervasive::unreached(),
        }
        proof {
            let store1 = self.local_store->Some_0.entries@;
            let cmax = crate::registry::max_version_of(canister);
            let vs = choose|vs: Seq<u64>|
                crate::registry::appended_as_changelog(
                    store1,
                    store0.len() as int,
                    records@,
                    vs,
                );
            assert forall|j: int| 0 <= j < vs.len() implies crate::registry::entry_matches(
                (#[trigger] store1[store0.len() + j])@,
                crate::registry::filter_version(filtered, vs[j]),
            ) by {
                crate::registry::lemma_filter_version_congruent(records@, filtered, vs[j]);
                assert(crate::registry::entry_matches(
                    store1[store0.len() + j]@,
                    crate::registry::filter_version(records@, vs[j]),
                ));
                assert forall|k: int|
                    0 <= k < crate::registry::filter_version(filtered, vs[j]).len() implies
                    crate::registry::km_matches(
                    #[trigger] (store1[store0.len() + j]@)[k],
                    crate::registry::filter_version(filtered, vs[j])[k],
                ) by {
                    assert(crate::registry::km_matches(
                        store1[store0.len() + j]@[k],
                        crate::registry::filter_version(records@, vs[j])[k],
                    ));
                    assert(crate::registry::record_matches(
                        crate::registry::filter_version(records@, vs[j])[k],
                        crate::registry::filter_version(filtered, vs[j])[k],
                    ));
                }
            }
            assert(crate::registry::distinct_versions(records@)
                == crate::registry::distinct_versions(filtered));
            assert(crate::registry::appended_as_changelog(
                store1,
                store0.len() as int,
                filtered,
                vs,
            ));
            crate::registry::lemma_distinct_versions(canister);
            if cmax > latest_version {
                assert forall|v: u64| #[trigger] crate::registry::distinct_versions(
                    filtered,
                ).contains(v) implies latest_version < v <= cmax by {
                    assert(v > latest_version && crate::registry::distinct_versions(
                        canister,
                    ).contains(v));
                    let i = choose|i: int|
                        0 <= i < canister.len() && (#[trigger] canister[i]).version == v;
                    assert(canister[i].version <= cmax);
                }
                assert forall|v: u64| latest_version < v <= cmax
                    implies #[trigger] crate::registry::distinct_versions(filtered).contains(
                    v,
                ) by {
                    assert(crate::registry::has_version(canister, v));
                    assert(crate::registry::distinct_versions(canister).contains(v));
                }
                assert forall|j: int| 0 <= j < vs.len() implies latest_version < #[trigger] vs[j]
                    <= cmax by {
                    assert(crate::registry::distinct_versions(filtered).contains(vs[j]));
                }
                assert forall|v: u64| latest_version < v <= cmax implies vs.contains(v) by {
                    assert(crate::registry::distinct_versions(filtered).contains(v));
                }
                crate::registry::lemma_cover_interval(vs, latest_version, cmax);
                assert(store1.len() == latest_version + (cmax - latest_version));
            } else {
                if crate::registry::distinct_versions(filtered).len() > 0 {
                    let v = vs[0];
                    assert(crate::registry::distinct_versions(filtered).contains(v));
                }
            }
        }
    }

    /// The decision context of the extra batch: the latest finalized
    /// block's registry version and its time moved one nanosecond forward
    /// (strict monotonic progress), or, with no pool configured, the
    /// registry client's version and the wall clock.
    pub open spec fn extra_batch_context(self) -> (u64, u64) {
        match self.consensus_pool {
            None => (self.registry.latest_version, self.now),
            Some(p) => (p.blocks@.last().registry_version, (p.blocks@.last().time + 1) as u64),
        }
    }

    /// Constructs one synthetic batch beyond the last finalized height,
    /// carrying the given extra messages, and hands it to the pipeline
    /// under the usual backpressure policy; with no messages nothing is
    /// delivered. Returns the context time and, if delivered, the batch
    /// height with the message ids.
    pub fn deliver_extra_batch(&mut self, extra: Vec<IngressMessage>) -> (r: (
        u64,
        Option<(u64, Vec<u64>)>,
    ))
        requires
            old(self).wf(),
            extra@.len() > 0 ==> old(self).message_routing.expected <= old(self).state_manager.horizon(),
        ensures
            final(self).wf(),
            r.0 == old(self).extra_batch_context().1,
            extra@.len() == 0 ==> (*final(self) == *old(self) && r.1 is None),
            extra@.len() > 0 ==> ({
                let b = final(self).message_routing.queue->Some_0;
                &&& (r.1 matches Some(p) && p.0 == old(self).message_routing.expected && p.1@.len()
                    == extra@.len() && (forall|i: int|
                    0 <= i < extra@.len() ==> p.1@[i] == (#[trigger] extra@[i]).id))
                &&& final(self).message_routing.queue is Some
                &&& b.batch_number == old(self).message_routing.expected
                &&& b.ingress == extra
                &&& b.registry_version == old(self).extra_batch_context().0
                &&& b.time == old(self).extra_batch_context().1
                &&& b.requires_full_state_hash
                &&& (old(self).consensus_pool matches Some(p) ==> b.randomness@
                    == p.blocks@.last().seed@)
                &&& (old(self).consensus_pool is None ==> (b.randomness@.len() == 32 && (forall|
                    k: int,
                |
                    0 <= k < 32 ==> b.randomness@[k] == 0u8)))
                &&& final(self).message_routing.expected == old(self).message_routing.expected + 1
                &&& final(self).message_routing.delivered_heights@ == old(self).message_routing.delivered_heights@.push(old(self).message_routing.expected)
            }),
            final(self).message_routing.outcomes == old(self).message_routing.outcomes,
            final(self).message_routing.statuses@.len() >= old(self).message_routing.statuses@.len(),
            final(self).message_routing.statuses@.subrange(
                0,
                old(self).message_routing.statuses@.len() as int,
            ) == old(self).message_routing.statuses@,
            final(self).state_manager.low == old(self).state_manager.low,
            final(self).state_manager.latest >= old(self).state_manager.latest,
            final(self).state_manager.horizon() == old(self).state_manager.horizon(),
            final(self).state_manager.certifications == old(self).state_manager.certifications,
            forall|k: u64|
                old(self).state_manager.covers(k) ==> final(self).state_manager.digest_expected_at(
                    k,
                ) == old(self).state_manager.digest_expected_at(k),
            final(self).consensus_pool == old(self).consensus_pool,
            final(self).certification_pool == old(self).certification_pool,
            final(self).registry == old(self).registry,
            final(self).local_store == old(self).local_store,
            final(self).query_handler == old(self).query_handler,
            final(self).backup_spool == old(self).backup_spool,
            Player::same_identity(*final(self), *old(self)),
    {
        let ghost orig = *self;
        let (registry_version, time, randomness) = match &self.consensus_pool {
            None => (self.registry.get_latest_version(), self.now, zero_seed()),
            Some(pool) => {
                let finalized_height = pool.get_finalized_height();
                let last_block = match pool.get_finalized_block(finalized_height) {
                    Some(b) => b,
                    None => vstd::pervasive::unreached(),
                };
                // The randomness seed is derived deterministically from the
                // finalized block's content.
                (last_block.registry_version, last_block.time + 1, copy_bytes(&last_block.seed))
            },
        };
        let batch_number = self.message_routing.expected_batch_height();
        let context_time = time;
        if extra.len() == 0 {
            return (context_time, None);
        }
        let mut extra_msg_ids: Vec<u64> = Vec::new();
        let mut i: usize = 0;
        while i < extra.len()
            invariant
                i <= extra@.len(),
                extra_msg_ids@.len() == i,
                forall|j: int| 0 <= j < i ==> extra_msg_ids@[j] == (#[trigger] extra@[j]).id,
            decreases extra@.len() - i,
        {
            extra_msg_ids.push(extra[i].id);
            i = i + 1;
        }
        let mut extra_batch = Batch {
            batch_number,
            requires_full_state_hash: true,
            ingress: extra,
            randomness,
            registry_version,
            time,
        };
        let ghost batch0 = extra_batch;
        proof {
            assert(self.message_routing.statuses@.subrange(
                0,
                orig.message_routing.statuses@.len() as int,
            ) =~= orig.message_routing.statuses@);
        }
        loop
            invariant_except_break
                extra_batch == batch0,
                self.message_routing.expected == batch_number,
                self.message_routing.delivered_heights == orig.message_routing.delivered_heights,
            invariant
                orig == *old(self),
                orig.wf(),
                self.wf(),
                batch0.batch_number == batch_number,
                batch_number == orig.message_routing.expected,
                batch_number <= orig.state_manager.horizon(),
                self.consensus_pool == orig.consensus_pool,
                self.certification_pool == orig.certification_pool,
                self.registry == orig.registry,
                self.local_store == orig.local_store,
                self.query_handler == orig.query_handler,
                self.backup_spool == orig.backup_spool,
                Player::same_identity(*self, orig),
                self.message_routing.outcomes == orig.message_routing.outcomes,
                self.message_routing.statuses@.len() >= orig.message_routing.statuses@.len(),
                self.message_routing.statuses@.subrange(
                    0,
                    orig.message_routing.statuses@.len() as int,
                ) == orig.message_routing.statuses@,
                self.state_manager.low == orig.state_manager.low,
                self.state_manager.latest >= orig.state_manager.latest,
                self.state_manager.horizon() == orig.state_manager.horizon(),
                self.state_manager.certifications == orig.state_manager.certifications,
                forall|k: u64|
                    orig.state_manager.covers(k) ==> self.state_manager.digest_expected_at(k)
                        == orig.state_manager.digest_expected_at(k),
            ensures
                self.message_routing.queue == Some(batch0),
                self.message_routing.expected == batch_number + 1,
                self.message_routing.delivered_heights@ == orig.message_routing
                    .delivered_heights@.push(batch_number),
            decreases queue_weight(self.message_routing.queue) + 1,
        {
            let ghost pre = *self;
            match self.message_routing.deliver_batch(extra_batch) {
                Ok(()) => {
                    break ;
                },
                Err((MessageRoutingError::QueueIsFull, b)) => {
                    extra_batch = b;
                    self.message_routing.process_pending(&mut self.state_manager);
                    proof {
                        assert(self.message_routing.statuses@.subrange(
                            0,
                            orig.message_routing.statuses@.len() as int,
                        ) =~= pre.message_routing.statuses@.subrange(
                            0,
                            orig.message_routing.statuses@.len() as int,
                        ));
                    }
                },
                Err((MessageRoutingError::Ignored, b)) => {
                    extra_batch = b;
                    vstd::pervasive::unreached()
                },
            }
        }
        (context_time, Some((batch_number, extra_msg_ids)))
    }

    /// Whether every one of the given messages has, according to the
    /// ingress history, completed with a reply. Any other terminal status
    /// after an extra-batch delivery is fatal.
    pub fn extra_messages_completed(&self, msg_ids: &Vec<u64>) -> (ok: bool)
        ensures
            ok <==> forall|i: int|
                0 <= i < msg_ids@.len() ==> (#[trigger] crate::routing::latest_status_in(
                    self.message_routing.statuses@,
                    msg_ids@[i],
                )).is_reply(),
    {
        let mut i: usize = 0;
        while i < msg_ids.len()
            invariant
                i <= msg_ids@.len(),
                forall|j: int|
                    0 <= j < i ==> (#[trigger] crate::routing::latest_status_in(
                        self.message_routing.statuses@,
                        msg_ids@[j],
                    )).is_reply(),
            decreases msg_ids@.len() - i,
        {
            let st = self.message_routing.get_latest_status(msg_ids[i]);
            match st {
                crate::types::IngressStatus::CompletedReply(_) => {},
                _ => {
                    proof {
                        assert(!crate::routing::latest_status_in(
                            self.message_routing.statuses@,
                            msg_ids@[i as int],
                        ).is_reply());
                    }
                    return false;
                },
            }
            i = i + 1;
        }
        true
    }

    /// The delivery ceiling of a replay on this player: the finalized
    /// height clamped by the target.
    pub open spec fn replay_clamped_target(self) -> u64 {
        clamp_target(self.consensus_pool->Some_0.last_height(), self.replay_target_height)
    }

    /// The last ordinary batch height a replay delivers (or has already
    /// delivered) on this player.
    pub open spec fn replay_last_batch(self) -> u64 {
        if self.message_routing.expected > self.replay_clamped_target() {
            (self.message_routing.expected - 1) as u64
        } else {
            self.replay_clamped_target()
        }
    }

    /// How many ordinary batches a replay on this player delivers.
    pub open spec fn replay_batch_count(self) -> int {
        if self.message_routing.expected > self.replay_clamped_target() {
            0
        } else {
            self.replay_clamped_target() - self.message_routing.expected + 1
        }
    }

    /// Replays past finalized but un-executed blocks by delivering their
    /// payloads for execution, prunes state below the last delivered height,
    /// and re-delivers every certification in ascending height order. The
    /// extra messages, if any, are then executed in one synthetic batch
    /// beyond the finalized height, and each must complete with a reply.
    /// A diverged checkpoint aborts the replay; a detected upgrade at this
    /// stage is tolerated and replay continues.
    pub fn replay(&mut self, extra: Vec<IngressMessage>) -> (r: ReplayResult)
        requires
            old(self).wf(),
            old(self).can_report_state(),
            old(self).consensus_pool is Some ==> (old(self).consensus_pool->Some_0.cup.height != 0
                ==> old(self).consensus_pool->Some_0.cup.signature_ok),
            old(self).certification_pool is Some ==> (forall|i: int|
                0 <= i < old(self).certification_pool->Some_0.certs@.len()
                    ==> match old(self).state_manager.digest_expected_at(
                    (#[trigger] old(self).certification_pool->Some_0.certs@[i]).height,
                ) {
                    Some(d) => d == old(self).certification_pool->Some_0.certs@[i].digest@,
                    None => true,
                }),
            forall|i: int|
                0 <= i < extra@.len() ==> crate::routing::latest_status_in(
                    old(self).message_routing.outcomes@,
                    (#[trigger] extra@[i]).id,
                ).is_reply(),
            extra@.len() > 0 ==> old(self).message_routing.expected <= old(self).state_manager.horizon(),
            (old(self).consensus_pool is None && extra@.len() > 0) ==> old(self).state_manager.digest_expected_at(old(self).message_routing.expected) is Some,
        ensures
            final(self).wf(),
            (old(self).consensus_pool is Some && old(self).cup_divergence()) ==> (*final(self)
                == *old(self) && (r matches Err(ReplayError::StateDivergence(h)) && h == old(self).consensus_pool->Some_0.cup.height)),
            r is Err ==> (old(self).consensus_pool is Some && old(self).cup_divergence()),
            r is Ok ==> ({
                let oldp = *old(self);
                let start = oldp.message_routing.expected;
                let extra_n = if extra@.len() > 0 {
                    1int
                } else {
                    0int
                };
                let dh = final(self).message_routing.delivered_heights@;
                let base = oldp.message_routing.delivered_heights@.len() as int;
                &&& dh.subrange(0, base) == oldp.message_routing.delivered_heights@
                &&& (forall|a: int, b: int| base <= a < b < dh.len() ==> dh[a] < dh[b])
                &&& (oldp.consensus_pool is Some ==> ({
                    let tgt = oldp.replay_clamped_target();
                    let count = oldp.replay_batch_count();
                    let last = oldp.replay_last_batch();
                    &&& dh.len() == base + count + extra_n
                    &&& (forall|i: int| 0 <= i < count ==> #[trigger] dh[base + i] == start + i)
                    &&& (forall|i: int| 0 <= i < count ==> #[trigger] dh[base + i] <= tgt)
                    &&& (extra@.len() > 0 ==> dh[base + count] == last + 1)
                    &&& final(self).state_manager.low == if extra@.len() > 0 {
                        last + 1
                    } else {
                        last as int
                    }
                    &&& ({
                        let cp = oldp.certification_pool->Some_0;
                        let certs = final(self).state_manager.certifications@;
                        let cbase = oldp.state_manager.certifications@.len() as int;
                        &&& certs.len() == cbase + cp.certs@.len()
                        &&& certs.subrange(0, cbase) == oldp.state_manager.certifications@
                        &&& (forall|i: int|
                            0 <= i < cp.certs@.len() ==> (#[trigger] certs[cbase + i]).height
                                == cp.certs@[i].height)
                    })
                }))
                &&& (oldp.consensus_pool is None ==> ({
                    &&& dh.len() == base + extra_n
                    &&& (extra@.len() > 0 ==> dh[base] == start)
                    &&& final(self).state_manager.low == if extra@.len() > 0 {
                        start as int
                    } else {
                        oldp.state_manager.low as int
                    }
                    &&& final(self).state_manager.certifications
                        == oldp.state_manager.certifications
                }))
                &&& r->Ok_0.0 == final(self).state_params_now().0
                &&& r->Ok_0.1@ == final(self).state_params_now().1
            }),
    {
        let ghost orig = *self;
        let pools_present = self.consensus_pool.is_some();
        if pools_present {
            match self.verify_latest_cup() {
                Err(ReplayError::StateDivergence(h)) => {
                    return Err(ReplayError::StateDivergence(h));
                },
                _ => {},
            }
            let fin = match &self.consensus_pool {
                Some(p) => p.get_finalized_height(),
                None => vstd::pervasive::unreached(),
            };
            let target_height = match self.replay_target_height {
                None => fin,
                Some(t) => if t < fin {
                    t
                } else {
                    fin
                },
            };
            let last_batch_height = self.deliver_batches(Some(target_height));
            self.wait_for_state(last_batch_height);
            // Only the checkpoint after the latest batch is kept.
            self.state_manager.remove_states_below(last_batch_height);

            // Redeliver certifications to the state manager, in ascending
            // height order. A missing certification for a certified height
            // would be an internal contract violation.
            let heights = match &self.certification_pool {
                Some(cp) => cp.certified_heights(),
                None => vstd::pervasive::unreached(),
            };
            let ghost mid = *self;
            proof {
                let cp = orig.certification_pool->Some_0;
                assert forall|j: int| 0 <= j < cp.certs@.len() implies match mid.state_manager
                    .digest_expected_at((#[trigger] cp.certs@[j]).height) {
                    Some(d) => d == cp.certs@[j].digest@,
                    None => true,
                } by {
                    let hgt = cp.certs@[j].height;
                    if mid.state_manager.low <= hgt <= mid.state_manager.latest {
                        assert(hgt <= orig.consensus_pool->Some_0.last_height());
                        assert(orig.state_manager.covers(hgt));
                        assert(mid.state_manager.digest_expected_at(hgt) == orig.state_manager
                            .digest_expected_at(hgt));
                    }
                }
            }
            let mut i: usize = 0;
            while i < heights.len()
                invariant
                    orig == *old(self),
                    mid.wf(),
                    i <= heights@.len(),
                    orig.certification_pool is Some,
                    heights@.len() == orig.certification_pool->Some_0.certs@.len(),
                    forall|j: int|
                        0 <= j < heights@.len() ==> heights@[j] == (#[trigger] orig
                            .certification_pool->Some_0.certs@[j]).height,
                    self.certification_pool == orig.certification_pool,
                    self.consensus_pool == mid.consensus_pool,
                    self.message_routing == mid.message_routing,
                    self.registry == mid.registry,
                    self.local_store == mid.local_store,
                    self.query_handler == mid.query_handler,
                    self.backup_spool == mid.backup_spool,
                    Player::same_identity(*self, mid),
                    self.wf(),
                    self.state_manager.low == mid.state_manager.low,
                    self.state_manager.latest == mid.state_manager.latest,
                    self.state_manager.horizon() == mid.state_manager.horizon(),
                    self.state_manager.digests == mid.state_manager.digests,
                    self.state_manager.plan == mid.state_manager.plan,
                    self.state_manager.certifications@.len() == mid.state_manager
                        .certifications@.len() + i,
                    self.state_manager.certifications@.subrange(
                        0,
                        mid.state_manager.certifications@.len() as int,
                    ) == mid.state_manager.certifications@,
                    forall|j: int|
                        0 <= j < i ==> (#[trigger] self.state_manager.certifications@[mid
                            .state_manager.certifications@.len() + j]).height == heights@[j],
                    forall|j: int|
                        0 <= j < heights@.len() ==> match mid.state_manager.digest_expected_at(
                            (#[trigger] orig.certification_pool->Some_0.certs@[j]).height,
                        ) {
                            Some(d) => d == orig.certification_pool->Some_0.certs@[j].digest@,
                            None => true,
                        },
                decreases heights@.len() - i,
            {
                let cert = match &self.certification_pool {
                    Some(cp) => match cp.certification_at_height(heights[i]) {
                        Some(c) => c,
                        None => {
                            proof {
                                assert(orig.certification_pool->Some_0.certs@[i as int].height
                                    == heights@[i as int]);
                            }
                            vstd::pervasive::unreached()
                        },
                    },
                    None => vstd::pervasive::unreached(),
                };
                let ghost pre = *self;
                self.state_manager.deliver_state_certification(cert);
                proof {
                    assert(self.state_manager.certifications@.subrange(
                        0,
                        mid.state_manager.certifications@.len() as int,
                    ) =~= pre.state_manager.certifications@.subrange(
                        0,
                        mid.state_manager.certifications@.len() as int,
                    ));
                }
                i = i + 1;
            }
        }

        let ghost before_extra = *self;
        let (latest_context_time, extra_batch_delivery) = self.deliver_extra_batch(extra);
        let ghost after_extra = *self;
        match extra_batch_delivery {
            Some(pair) => {
                let (last_batch_height, msg_ids) = pair;
                self.wait_for_state(last_batch_height);
                // Only the checkpoint after the extra batch is kept.
                self.state_manager.remove_states_below(last_batch_height);

                // Every injected message must have completed with a reply.
                let ok = self.extra_messages_completed(&msg_ids);
                proof {
                    let b = after_extra.message_routing.queue->Some_0;
                    let base = after_extra.message_routing.statuses@;
                    let total = self.message_routing.statuses@;
                    let app = total.subrange(base.len() as int, total.len() as int);
                    assert(total =~= base + app);
                    assert forall|j: int|
                        0 <= j < msg_ids@.len() implies (#[trigger] crate::routing::latest_status_in(
                        total,
                        msg_ids@[j],
                    )).is_reply() by {
                        let id = msg_ids@[j];
                        assert(id == extra@[j].id);
                        let v = crate::routing::latest_status_in(
                            after_extra.message_routing.outcomes@,
                            id,
                        );
                        assert(after_extra.message_routing.outcomes@ == orig.message_routing
                            .outcomes@);
                        assert(v.is_reply());
                        assert(app[j].0 == b.ingress@[j].id && b.ingress@[j].id == id);
                        assert forall|k: int|
                            0 <= k < app.len() implies ((#[trigger] app[k]).0 == id
                            ==> crate::routing::status_view(app[k].1) == v) by {
                            assert(app[k].0 == b.ingress@[k].id);
                            if app[k].0 == id {
                                assert(crate::routing::status_view(app[k].1)
                                    == crate::routing::latest_status_in(
                                    after_extra.message_routing.outcomes@,
                                    b.ingress@[k].id,
                                ));
                            }
                        }
                        crate::routing::lemma_latest_status_uniform(app, id, v);
                        crate::routing::lemma_latest_status_append(base, app, id);
                    }
                }
                if !ok {
                    return vstd::pervasive::unreached();
                }
            },
            None => {},
        }

        // Resolve the current registry version by querying the directory
        // live; a subnet that does not host it answers with a failure, and
        // the client's cached version stands in.
        let _latest_registry_version = match self.get_latest_registry_version(
            latest_context_time,
        ) {
            Ok(v) => v,
            Err(_) => self.registry.get_latest_version(),
        };
        proof {
            let dh = self.message_routing.delivered_heights@;
            let base = orig.message_routing.delivered_heights@.len() as int;
            assert forall|a: int, b: int| base <= a < b < dh.len() implies dh[a] < dh[b] by {
                if orig.consensus_pool is Some {
                    let start = orig.message_routing.expected;
                    let count = orig.replay_batch_count();
                    let last = orig.replay_last_batch();
                    let before = before_extra.message_routing.delivered_heights@;
                    if b < base + count {
                        assert(before[base + (a - base)] == start + (a - base));
                        assert(before[base + (b - base)] == start + (b - base));
                        assert(dh[a] == before[a] && dh[b] == before[b]);
                    } else {
                        assert(dh[b] == last + 1);
                        assert(a < base + count);
                        assert(before[base + (a - base)] == start + (a - base));
                        assert(dh[a] == before[a]);
                        assert(start + (a - base) <= last);
                    }
                } else {
                    assert(dh.len() <= base + 1);
                }
            }
        }
        Ok(self.get_latest_state_height_and_hash())
    }

    /// Checks that the restored catch-up package commits the same state
    /// hash as the one computed from the restored artifacts, then drops all
    /// states and validated pool artifacts below the package's height.
    /// Purging happens only after the package is confirmed consistent.
    pub fn assert_consistency_and_clean_up(&mut self) -> (r: Result<StateParams, ReplayError>)
        requires
            old(self).wf(),
            old(self).consensus_pool is Some,
            old(self).consensus_pool->Some_0.cup.height != 0 ==> old(self).consensus_pool->Some_0.cup.signature_ok,
        ensures
            final(self).wf(),
            r is Err ==> *final(self) == *old(self),
            old(self).cup_divergence() ==> (r matches Err(ReplayError::StateDivergence(h)) && h
                == old(self).consensus_pool->Some_0.cup.height),
            r matches Err(ReplayError::StateDivergence(h)) ==> (old(self).cup_divergence() && h
                == old(self).consensus_pool->Some_0.cup.height),
            r matches Err(ReplayError::UpgradeDetected(_)) ==> (old(self).consensus_pool->Some_0.cup.height != 0 && !old(self).cup_divergence() && old(self).cup_upgrade() is Some),
            r is Ok <==> (old(self).consensus_pool->Some_0.cup.height == 0 || (!old(self).cup_divergence() && old(self).cup_upgrade() is None)),
            r is Ok ==> ({
                let cup = old(self).consensus_pool->Some_0.cup;
                &&& final(self).state_manager.low == if cup.height >= old(self).state_manager.low {
                    cup.height as int
                } else {
                    old(self).state_manager.low as int
                }
                &&& final(self).state_manager.latest == old(self).state_manager.latest
                &&& final(self).state_manager.certifications == old(self).state_manager.certifications
                &&& final(self).state_manager.horizon() == old(self).state_manager.horizon()
                &&& (forall|k: u64|
                    old(self).state_manager.covers(k) && k >= final(self).state_manager.low
                        ==> final(self).state_manager.digest_expected_at(k) == old(self).state_manager.digest_expected_at(k))
                &&& final(self).consensus_pool->Some_0.purged_below == cup.height
                &&& final(self).consensus_pool->Some_0.cup == cup
                &&& final(self).consensus_pool->Some_0.last_height() == old(self).consensus_pool->Some_0.last_height()
                &&& final(self).message_routing == old(self).message_routing
                &&& final(self).certification_pool == old(self).certification_pool
                &&& final(self).registry == old(self).registry
                &&& final(self).local_store == old(self).local_store
                &&& final(self).query_handler == old(self).query_handler
                &&& (final(self).backup_spool == old(self).backup_spool)
                &&& r->Ok_0.0 == old(self).state_params_now().0
                &&& r->Ok_0.1@ == old(self).state_params_now().1
            }),
            Player::same_identity(*final(self), *old(self)),
    {
        match self.verify_latest_cup() {
            Err(e) => {
                return Err(e);
            },
            Ok(()) => {},
        }
        let params = self.get_latest_state_height_and_hash();
        let purge_height = match &self.consensus_pool {
            Some(p) => p.cup.height,
            None => vstd::pervasive::unreached(),
        };
        self.state_manager.remove_states_below(purge_height);
        match &mut self.consensus_pool {
            Some(p) => p.purge_validated_below(purge_height),
            None => vstd::pervasive::unreached(),
        }
        Ok(params)
    }

    /// The registry-side conditions a restore run relies on: a local store
    /// backing the client, an answering canister whose changelog is gapless
    /// above the client's version, and archived blocks that reference no
    /// version beyond what the canister can provide.
    pub open spec fn restore_registry_ok(self) -> bool {
        let cmax = crate::registry::max_version_of(self.query_handler.records@);
        &&& self.registry_update_ready()
        &&& cmax + self.query_handler.records@.len() < u64::MAX
        &&& (self.backup_spool is Some ==> forall|i: int|
            0 <= i < self.backup_spool->Some_0.entries@.len() ==> (#[trigger] self
                .backup_spool->Some_0.entries@[i]).block.registry_version
                <= self.updated_store_version())
    }

    /// Registry versions the canister still holds beyond the client's
    /// snapshot: what a registry update can still gain.
    pub open spec fn registry_lag(self) -> int {
        let cmax = crate::registry::max_version_of(self.query_handler.records@);
        if cmax > self.registry.latest_version {
            cmax - self.registry.latest_version
        } else {
            0
        }
    }

    /// Restores the execution state from the archival spool, starting right
    /// after `start_height`: artifacts are ingested segment by segment, each
    /// segment's batches are delivered and waited for, and each exit point
    /// is acted on — a fresh checkpoint is verified and pruned to, a missing
    /// registry span is fetched and applied, a certified-but-behind state is
    /// pruned — until the archive is exhausted or the target height is
    /// reached.
    #[verifier::rlimit(100)]
    /// Handles a checkpoint boundary during a restore: the archived package
    /// at `cup_height` is inserted into the pool, its consistency asserted,
    /// and only then are states and validated artifacts below it purged.
    #[verifier::rlimit(50)]
    fn restore_checkpoint_boundary(&mut self, cup_height: u64, orig: Ghost<Player>) -> (r: Result<
        (),
        ReplayError,
    >)
        requires
            old(self).wf(),
            old(self).consensus_pool is Some,
            old(self).backup_spool is Some,
            orig@.wf(),
            orig@.backup_spool is Some,
            orig@.consensus_pool is Some,
            old(self).backup_spool->Some_0.entries == orig@.backup_spool->Some_0.entries,
            old(self).registry.replica_versions == orig@.registry.replica_versions,
            Player::same_identity(*old(self), orig@),
            old(self).backup_spool->Some_0.has_cup_at(cup_height),
            forall|i: int|
                0 <= i < orig@.backup_spool->Some_0.entries@.len() ==> match (#[trigger] orig@
                    .backup_spool->Some_0.entries@[i]).cup {
                    Some(c) => c.height != 0 ==> c.signature_ok,
                    None => true,
                },
            old(self).consensus_pool->Some_0.first_height() <= cup_height <= old(self).consensus_pool->Some_0.last_height(),
            cup_height == old(self).state_manager.latest,
            cup_height >= 1,
            old(self).state_manager.horizon() == orig@.state_manager.horizon(),
            orig@.state_manager.covers(cup_height),
            forall|k: u64|
                orig@.state_manager.covers(k) && k >= old(self).state_manager.low ==> old(self).state_manager.digest_expected_at(k) == orig@.state_manager.digest_expected_at(k),
        ensures
            final(self).wf(),
            r is Err ==> ({
                &&& final(self).state_manager == old(self).state_manager
                &&& final(self).message_routing == old(self).message_routing
                &&& final(self).backup_spool == old(self).backup_spool
                &&& final(self).registry == old(self).registry
                &&& final(self).local_store == old(self).local_store
                &&& final(self).query_handler == old(self).query_handler
                &&& final(self).certification_pool == old(self).certification_pool
                &&& Player::same_identity(*final(self), *old(self))
            }),
            r matches Err(ReplayError::StateDivergence(h)) ==> (h == cup_height && orig@
                .backup_spool->Some_0.has_cup_at(h) && orig@.state_manager.digest_expected_at(h)
                != Some(orig@.backup_spool->Some_0.cup_at(h).state_hash@)),
            r matches Err(ReplayError::UpgradeDetected(_)) ==> (orig@.backup_spool->Some_0.entries@[
                cup_height - orig@.backup_spool->Some_0.first_height()].cup is Some && orig@
                .build_mismatch(
                orig@.backup_spool->Some_0.cup_at(cup_height).registry_version,
            ) is Some),
            orig@.archive_checkpoints_consistent() ==> r is Ok,
            r is Ok ==> ({
                &&& final(self).message_routing == old(self).message_routing
                &&& final(self).backup_spool == old(self).backup_spool
                &&& final(self).registry == old(self).registry
                &&& final(self).local_store == old(self).local_store
                &&& final(self).query_handler == old(self).query_handler
                &&& final(self).certification_pool == old(self).certification_pool
                &&& Player::same_identity(*final(self), *old(self))
                &&& final(self).state_manager.latest == old(self).state_manager.latest
                &&& final(self).state_manager.horizon() == old(self).state_manager.horizon()
                &&& final(self).state_manager.certifications == old(self).state_manager.certifications
                &&& final(self).state_manager.low >= old(self).state_manager.low
                &&& final(self).consensus_pool->Some_0.last_height() == old(self).consensus_pool->Some_0.last_height()
                &&& (final(self).consensus_pool->Some_0.cup.height != 0 ==> final(self).consensus_pool->Some_0.cup.signature_ok)
                &&& (forall|k: u64|
                    orig@.state_manager.covers(k) && k >= final(self).state_manager.low ==> final(self).state_manager.digest_expected_at(k) == orig@.state_manager.digest_expected_at(
                        k,
                    ))
            }),
    {
        match (&mut self.consensus_pool, &self.backup_spool) {
            (Some(po), Some(sp)) => crate::backup::insert_cup_at_height(po, sp, cup_height),
            _ => vstd::pervasive::unreached(),
        }
        let ghost inserted = *self;
        match self.assert_consistency_and_clean_up() {
            Err(e) => {
                proof {
                    let sp0 = orig@.backup_spool->Some_0;
                    let idx = cup_height - sp0.first_height();
                    let c = sp0.cup_at(cup_height);
                    let icup = inserted.consensus_pool->Some_0.cup;
                    assert(self.backup_spool->Some_0.entries == sp0.entries);
                    assert(sp0.has_cup_at(cup_height));
                    assert(cup_eq(icup, c));
                    assert(icup.height == cup_height);
                    assert(inserted.state_manager.digest_expected_at(cup_height) == orig@
                        .state_manager.digest_expected_at(cup_height));
                    assert(inserted.cup_upgrade() == orig@.build_mismatch(c.registry_version));
                    assert(sp0.entries@[idx].cup == Some(c));
                    assert(c.height == sp0.entries@[idx].block.height);
                    if orig@.archive_checkpoints_consistent() {
                        lemma_boundary_of_consistent_archive(orig@, inserted, cup_height);
                        assert(false);
                    }
                }
                Err(e)
            },
            Ok(_) => {
                proof {
                    let sp0 = orig@.backup_spool->Some_0;
                    let idx = cup_height - sp0.first_height();
                    assert(sp0.entries@[idx].cup == Some(sp0.cup_at(cup_height)));
                    assert(cup_eq(inserted.consensus_pool->Some_0.cup, sp0.cup_at(cup_height)));
                    assert(self.consensus_pool->Some_0.cup == inserted.consensus_pool->Some_0.cup);
                    assert forall|k: u64|
                        orig@.state_manager.covers(k) && k >= self.state_manager.low implies self
                        .state_manager.digest_expected_at(k) == orig@.state_manager
                        .digest_expected_at(k) by {
                        assert(inserted.state_manager.covers(k));
                        assert(self.state_manager.digest_expected_at(k) == inserted.state_manager
                            .digest_expected_at(k));
                    }
                }
                Ok(())
            },
        }
    }

    /// Catches the local registry up across a version gap during a restore:
    /// the canister's changes are dumped into the local store and the client
    /// re-reads it, after which it must have reached the needed version —
    /// the bridge makes monotonic forward progress.
    fn restore_registry_gap(&mut self, new_version: u64)
        requires
            old(self).wf(),
            old(self).restore_registry_ok(),
            old(self).local_store is Some,
            new_version > old(self).registry.latest_version,
            new_version <= old(self).updated_store_version(),
        ensures
            final(self).wf(),
            final(self).registry.latest_version >= new_version,
            final(self).registry.latest_version > old(self).registry.latest_version,
            final(self).registry_lag() < old(self).registry_lag(),
            final(self).restore_registry_ok(),
            final(self).registry.replica_versions == old(self).registry.replica_versions,
            final(self).local_store is Some,
            final(self).state_manager == old(self).state_manager,
            final(self).message_routing == old(self).message_routing,
            final(self).consensus_pool == old(self).consensus_pool,
            final(self).certification_pool == old(self).certification_pool,
            final(self).backup_spool == old(self).backup_spool,
            final(self).query_handler == old(self).query_handler,
            Player::same_identity(*final(self), *old(self)),
    {
        self.update_registry_local_store();
        match &self.local_store {
            Some(store) => self.registry.poll_once(store),
            None => vstd::pervasive::unreached(),
        }
        proof {
            assert(self.registry.latest_version >= new_version);
        }
    }

    /// The relation a restore's driving loop maintains between the running
    /// player and the one it started from: the archive and identity are
    /// untouched, the pipeline is drained, the pool tracks the ingestion
    /// cursor, delivered heights stay ascending and under the target, and
    /// every expected digest is still the one the original expected.
    pub open spec fn restore_inv(cur: Player, orig: Player) -> bool {
        &&& cur.wf()
        &&& orig.wf()
        &&& orig.backup_spool is Some
        &&& orig.consensus_pool is Some
        &&& cur.backup_spool is Some
        &&& cur.consensus_pool is Some
        &&& cur.local_store is Some
        &&& cur.backup_spool->Some_0.entries == orig.backup_spool->Some_0.entries
        &&& cur.query_handler == orig.query_handler
        &&& Player::same_identity(cur, orig)
        &&& cur.replay_target_height == orig.replay_target_height
        &&& cur.registry.latest_version >= orig.registry.latest_version
        &&& cur.registry.replica_versions == orig.registry.replica_versions
        &&& cur.restore_registry_ok()
        &&& (cur.consensus_pool->Some_0.cup.height != 0 ==> cur.consensus_pool->Some_0.cup
            .signature_ok)
        &&& (forall|i: int|
            0 <= i < cur.backup_spool->Some_0.entries@.len() ==> match (#[trigger] cur
                .backup_spool->Some_0.entries@[i]).cup {
                Some(c) => c.height != 0 ==> c.signature_ok,
                None => true,
            })
        &&& cur.message_routing.queue is None
        &&& cur.state_manager.latest <= cur.consensus_pool->Some_0.last_height()
        &&& ((orig.backup_spool->Some_0.cursor as int) < orig.backup_spool->Some_0.entries@.len()
            ==> cur.consensus_pool->Some_0.last_height() == cur.backup_spool->Some_0.first_height()
            + cur.backup_spool->Some_0.cursor - 1)
        &&& cur.state_manager.latest >= orig.state_manager.latest
        &&& cur.state_manager.horizon() == orig.state_manager.horizon()
        &&& cur.backup_spool->Some_0.cursor >= orig.backup_spool->Some_0.cursor
        &&& cur.consensus_pool->Some_0.last_height() >= orig.consensus_pool->Some_0.last_height()
        &&& orig.state_manager.latest <= orig.consensus_pool->Some_0.last_height()
        &&& (orig.consensus_pool->Some_0.cup.height == 0 || (!orig.cup_divergence()
            && orig.cup_upgrade() is None))
        &&& (forall|k: u64|
            orig.state_manager.covers(k) && k >= cur.state_manager.low
                ==> cur.state_manager.digest_expected_at(k) == orig.state_manager
                .digest_expected_at(k))
        &&& (forall|i: int|
            orig.backup_spool->Some_0.cursor <= i < cur.backup_spool->Some_0.cursor ==> (
            #[trigger] orig.backup_spool->Some_0.entries@[i]).block.registry_version
                <= cur.registry.latest_version)
        &&& match cur.replay_target_height {
            Some(t) => {
                &&& (orig.state_manager.latest <= t ==> cur.state_manager.latest <= t)
                &&& cur.state_manager.latest <= (if orig.state_manager.latest > t {
                    orig.state_manager.latest as int
                } else {
                    t as int
                })
            },
            None => true,
        }
        &&& ({
            let dh = cur.message_routing.delivered_heights@;
            let base = orig.message_routing.delivered_heights@.len() as int;
            &&& dh.len() >= base
            &&& dh.subrange(0, base) == orig.message_routing.delivered_heights@
            &&& (forall|a: int, b: int| base <= a < b < dh.len() ==> dh[a] < dh[b])
            &&& (dh.len() > base ==> dh[dh.len() - 1] == cur.message_routing.expected - 1)
            &&& (match cur.replay_target_height {
                Some(t) => forall|a: int| base <= a < dh.len() ==> #[trigger] dh[a] <= t,
                None => true,
            })
        })
    }

    /// The artifacts a restore took past its target height, except the one
    /// ending the pass that reached it, carry no checkpoint and no
    /// certification: the restore returned as soon as the target was
    /// reached.
    pub open spec fn restore_ingested_no_boundary_past(
        orig: Player,
        upto: int,
        t: u64,
    ) -> bool {
        forall|j: int|
            orig.backup_spool->Some_0.cursor <= j < upto ==> ((#[trigger] orig
                .backup_spool->Some_0.entries@[j]).block.height > t ==> (orig
                .backup_spool->Some_0.entries@[j].cup is None && orig
                .backup_spool->Some_0.entries@[j].certification is None))
    }

    /// One pass of a restore's driving loop: ingests artifacts up to the
    /// next obstacle, delivers every batch they make reachable, and waits
    /// for the state to follow. Returns the exit point and the last
    /// delivered height.
    #[verifier::rlimit(100)]
    fn restore_advance(&mut self, orig: Ghost<Player>) -> (r: (crate::backup::ExitPoint, u64))
        requires
            Player::restore_inv(*old(self), orig@),
            match old(self).replay_target_height {
                Some(t) => orig@.state_manager.latest <= t
                    ==> Player::restore_ingested_no_boundary_past(
                    orig@,
                    old(self).backup_spool->Some_0.cursor as int,
                    t,
                ),
                None => true,
            },
        ensures
            Player::restore_inv(*final(self), orig@),
            final(self).state_manager.latest == r.1,
            r.1 >= old(self).state_manager.latest,
            final(self).state_manager.low == old(self).state_manager.low,
            final(self).state_manager.certifications == old(self).state_manager.certifications,
            final(self).registry == old(self).registry,
            final(self).local_store == old(self).local_store,
            final(self).consensus_pool->Some_0.cup == old(self).consensus_pool->Some_0.cup,
            final(self).backup_spool->Some_0.cursor >= old(self).backup_spool->Some_0.cursor,
            (r.1 == final(self).consensus_pool->Some_0.last_height()) || (match old(self).replay_target_height {
                Some(t) => r.1 >= t,
                None => false,
            }),
            match old(self).replay_target_height {
                Some(t) => (r.1 < t ==> final(self).consensus_pool->Some_0.last_height() < t),
                None => true,
            },
            match old(self).replay_target_height {
                Some(t) => orig@.state_manager.latest <= t
                    ==> (Player::restore_ingested_no_boundary_past(
                    orig@,
                    final(self).backup_spool->Some_0.cursor - 1,
                    t,
                ) && (r.1 < t ==> Player::restore_ingested_no_boundary_past(
                    orig@,
                    final(self).backup_spool->Some_0.cursor as int,
                    t,
                ))),
                None => true,
            },
            match r.0 {
                crate::backup::ExitPoint::Done => final(self).backup_spool->Some_0.cursor == final(self).backup_spool->Some_0.entries@.len(),
                crate::backup::ExitPoint::NewerRegistryVersion(v) => (v > final(self).registry.latest_version && v <= final(self).updated_store_version()),
                crate::backup::ExitPoint::CUPHeightWasFinalized(h) => (final(self).backup_spool->Some_0.cursor > old(self).backup_spool->Some_0.cursor && final(self).backup_spool->Some_0.has_cup_at(h) && h == final(self).consensus_pool->Some_0.last_height() && final(self).consensus_pool->Some_0.last_height() >= old(self).consensus_pool->Some_0.last_height() + 1),
                crate::backup::ExitPoint::StateBehind(ch) => (final(self).backup_spool->Some_0.cursor > old(self).backup_spool->Some_0.cursor && ch
                    == final(self).consensus_pool->Some_0.last_height()),
            },
    {
        let ghost pre = *self;
        let target_height = self.replay_target_height;
        let registry_latest = self.registry.get_latest_version();
        let latest_state = self.state_manager.latest_state_height();
        let result = match (
            &mut self.backup_spool,
            &mut self.consensus_pool,
            &mut self.certification_pool,
        ) {
            (Some(sp), Some(po), Some(cp)) => crate::backup::deserialize_consensus_artifacts(
                sp,
                po,
                cp,
                registry_latest,
                latest_state,
            ),
            _ => vstd::pervasive::unreached(),
        };
        let ghost afteri = *self;
        let last_batch_height = self.deliver_batches(target_height);
        self.wait_for_state(last_batch_height);
        proof {
            let dh = self.message_routing.delivered_heights@;
            let base = orig@.message_routing.delivered_heights@.len() as int;
            let predh = pre.message_routing.delivered_heights@;
            let startc = pre.message_routing.expected;
            assert(afteri.message_routing == pre.message_routing);
            assert(dh.subrange(0, predh.len() as int) == predh);
            assert(self.state_manager.latest == last_batch_height);
            match target_height {
                Some(t) => {
                    if dh.len() > predh.len() {
                        assert(last_batch_height <= t);
                        assert(startc + (dh.len() - predh.len()) - 1 == last_batch_height);
                    }
                },
                None => {},
            }
            lemma_delivered_log_extends(
                orig@.message_routing.delivered_heights@,
                predh,
                dh,
                startc,
                target_height,
            );
            if dh.len() > base {
                assert(dh[dh.len() - 1] == self.message_routing.expected - 1);
            }
            assert(afteri.state_manager == pre.state_manager);
            assert forall|k: u64|
                orig@.state_manager.covers(k) && k >= self.state_manager.low implies self
                .state_manager.digest_expected_at(k) == orig@.state_manager.digest_expected_at(
                k,
            ) by {
                assert(pre.state_manager.covers(k));
                assert(self.state_manager.digest_expected_at(k) == afteri.state_manager
                    .digest_expected_at(k));
            }
            let sp0 = orig@.backup_spool->Some_0;
            let cpre = pre.backup_spool->Some_0.cursor as int;
            let cnow = self.backup_spool->Some_0.cursor as int;
            assert forall|i: int| (sp0.cursor as int) <= i < cnow implies (#[trigger] sp0
                .entries@[i]).block.registry_version <= self.registry.latest_version by {
                if i >= cpre {
                    assert(sp0.entries@[i].block.registry_version <= registry_latest);
                }
            }
            match target_height {
                Some(t) => {
                    if orig@.state_manager.latest <= t {
                        lemma_no_boundary_past_target(
                            sp0,
                            sp0.cursor as int,
                            cpre,
                            cnow,
                            latest_state,
                            t,
                        );
                        if last_batch_height < t {
                            assert(clamp_target(
                                self.consensus_pool->Some_0.last_height(),
                                Some(t),
                            ) <= last_batch_height);
                            assert(self.consensus_pool->Some_0.last_height() < t);
                            lemma_segment_below_target(
                                sp0,
                                sp0.cursor as int,
                                cpre,
                                cnow,
                                self.consensus_pool->Some_0.last_height(),
                                t,
                            );
                        }
                    }
                },
                None => {},
            }
            match result {
                crate::backup::ExitPoint::NewerRegistryVersion(v) => {
                    assert(v <= self.updated_store_version());
                },
                _ => {},
            }
        }
        (result, last_batch_height)
    }

    /// Whether every checkpoint a restore can encounter — the pool's
    /// current catch-up package and every archived one — commits the digest
    /// the state manager expects at its height and names the running
    /// replica build. A restore over such an archive is owed success.
    pub open spec fn archive_checkpoints_consistent(self) -> bool {
        &&& (self.consensus_pool->Some_0.cup.height == 0 || (!self.cup_divergence()
            && self.cup_upgrade() is None))
        &&& match self.backup_spool {
            Some(sp) => forall|i: int|
                0 <= i < sp.entries@.len() ==> match (#[trigger] sp.entries@[i]).cup {
                    Some(c) => c.height == 0 || (self.state_manager.digest_expected_at(c.height)
                        == Some(c.state_hash@) && self.build_mismatch(
                        c.registry_version,
                    ) is None),
                    None => true,
                },
            None => true,
        }
    }

    pub fn restore(&mut self, start_height: u64) -> (r: ReplayResult)
        requires
            old(self).wf(),
            old(self).backup_spool is Some,
            old(self).message_routing.queue is None,
            old(self).state_manager.latest <= old(self).consensus_pool->Some_0.last_height(),
            old(self).consensus_pool->Some_0.cup.height != 0 ==> old(self).consensus_pool->Some_0.cup.signature_ok,
            forall|i: int|
                0 <= i < old(self).backup_spool->Some_0.entries@.len() ==> match (#[trigger] old(self).backup_spool->Some_0.entries@[i]).cup {
                    Some(c) => c.height != 0 ==> c.signature_ok,
                    None => true,
                },
            old(self).restore_registry_ok(),
            (old(self).backup_spool->Some_0.cursor as int) < old(self).backup_spool->Some_0.entries@.len() ==> old(self).backup_spool->Some_0.height_at(
                old(self).backup_spool->Some_0.cursor as int,
            ) == start_height + 1,
            start_height < u64::MAX,
        ensures
            final(self).wf(),
            r is Ok ==> ({
                &&& r->Ok_0.0 == final(self).state_params_now().0
                &&& r->Ok_0.1@ == final(self).state_params_now().1
                &&& (old(self).replay_target_height matches Some(t) ==> final(self).state_manager.latest <= (if old(self).state_manager.latest > t {
                    old(self).state_manager.latest as int
                } else {
                    t as int
                }))
                &&& ((old(self).replay_target_height is None && (old(self).backup_spool->Some_0.cursor as int) < old(self).backup_spool->Some_0.entries@.len()) ==> (final(self).backup_spool->Some_0.cursor
                    == final(self).backup_spool->Some_0.entries@.len() && final(self).state_manager.latest == old(self).backup_spool->Some_0.entries@.last()
                    .block.height))
            }),
            ({
                let dh = final(self).message_routing.delivered_heights@;
                let base = old(self).message_routing.delivered_heights@.len() as int;
                &&& dh.subrange(0, base) == old(self).message_routing.delivered_heights@
                &&& (forall|a: int, b: int| base <= a < b < dh.len() ==> dh[a] < dh[b])
                &&& (old(self).replay_target_height matches Some(t) ==> forall|a: int|
                    base <= a < dh.len() ==> #[trigger] dh[a] <= t)
            }),
            final(self).registry.latest_version >= old(self).registry.latest_version,
            old(self).cup_divergence() ==> (*final(self) == *old(self) && (r matches Err(
                ReplayError::StateDivergence(h),
            ) && h == old(self).consensus_pool->Some_0.cup.height)),
            (old(self).consensus_pool->Some_0.cup.height != 0 && !old(self).cup_divergence()
                && old(self).cup_upgrade() is Some) ==> (*final(self) == *old(self) && r matches
                Err(ReplayError::UpgradeDetected(_))),
            r matches Err(ReplayError::StateDivergence(h)) ==> ((h == old(self).consensus_pool->Some_0.cup.height && old(self).cup_divergence()) || (old(self).backup_spool->Some_0.has_cup_at(h) && old(self).state_manager.digest_expected_at(h)
                != Some(old(self).backup_spool->Some_0.cup_at(h).state_hash@))),
            r matches Err(ReplayError::UpgradeDetected(_)) ==> (old(self).cup_upgrade() is Some
                || exists|i: int|
                    0 <= i < old(self).backup_spool->Some_0.entries@.len() && (#[trigger] old(self).backup_spool->Some_0.entries@[i]).cup is Some && old(self).build_mismatch(
                        old(self).backup_spool->Some_0.entries@[i].cup->Some_0.registry_version,
                    ) is Some),
            old(self).archive_checkpoints_consistent() ==> r is Ok,
            r is Ok ==> final(self).state_manager.low == final(self).state_manager.latest,
            old(self).replay_target_height matches Some(t) ==> (r is Ok ==> (final(self).state_manager.latest >= t || final(self).backup_spool->Some_0.cursor == final(self).backup_spool->Some_0.entries@.len())),
            r is Ok ==> (forall|i: int|
                old(self).backup_spool->Some_0.cursor <= i < final(self).backup_spool->Some_0.cursor ==> (#[trigger] old(self).backup_spool->Some_0.entries@[i]).block.registry_version <= final(self).registry.latest_version),
            old(self).replay_target_height matches Some(t) ==> ((r is Ok && old(self).state_manager.latest <= t) ==> forall|j: int|
                old(self).backup_spool->Some_0.cursor <= j < final(self).backup_spool->Some_0.cursor - 1
                    ==> ((#[trigger] old(self).backup_spool->Some_0.entries@[j]).block.height > t
                    ==> (old(self).backup_spool->Some_0.entries@[j].cup is None
                    && old(self).backup_spool->Some_0.entries@[j].certification is None))),
    {
        let ghost orig = *self;
        let target_height = self.replay_target_height;
        // Assert a consistent initial state. Unlike replay, a detected
        // upgrade is propagated from here, not tolerated.
        match self.verify_latest_cup() {
            Err(e) => {
                proof {
                    if orig.archive_checkpoints_consistent() {
                        assert(false);
                    }
                }
                return Err(e);
            },
            Ok(()) => {},
        }
        proof {
            assert(self.message_routing.delivered_heights@.subrange(
                0,
                orig.message_routing.delivered_heights@.len() as int,
            ) =~= orig.message_routing.delivered_heights@);
        }
        loop
            invariant
                orig == *old(self),
                Player::restore_inv(*self, orig),
                target_height == orig.replay_target_height,
                match target_height {
                    Some(t) => orig.state_manager.latest <= t
                        ==> Player::restore_ingested_no_boundary_past(
                        orig,
                        self.backup_spool->Some_0.cursor as int,
                        t,
                    ),
                    None => true,
                },
            decreases self.backup_spool->Some_0.entries@.len()
                - self.backup_spool->Some_0.cursor, self.registry_lag(),
        {
            let ghost head = *self;
            let pass = self.restore_advance(Ghost(orig));
            let result = pass.0;
            let last_batch_height = pass.1;

            match target_height {
                Some(height) => {
                    if last_batch_height >= height {
                        // Only the checkpoint after the latest batch is kept.
                        self.state_manager.remove_states_below(last_batch_height);
                        return Ok(self.get_latest_state_height_and_hash());
                    }
                },
                None => {},
            }

            match result {
                // The pool cache assumes at most one catch-up package in the
                // pool, so all batches were delivered before the new package
                // is inserted.
                crate::backup::ExitPoint::CUPHeightWasFinalized(cup_height) => {
                    proof {
                        assert(cup_height >= head.consensus_pool->Some_0.last_height() + 1);
                        assert(head.consensus_pool->Some_0.last_height()
                            >= orig.consensus_pool->Some_0.last_height());
                        assert(orig.consensus_pool->Some_0.last_height()
                            >= orig.state_manager.latest);
                        assert(cup_height >= 1);
                        assert(cup_height <= orig.state_manager.horizon());
                        assert(orig.state_manager.covers(cup_height));
                    }
                    match self.restore_checkpoint_boundary(cup_height, Ghost(orig)) {
                        Err(e) => {
                            return Err(e);
                        },
                        Ok(_) => {},
                    }
                },
                // A block referenced a registry version that is not local
                // yet: catch the local registry up across the gap.
                crate::backup::ExitPoint::NewerRegistryVersion(new_version) => {
                    self.restore_registry_gap(new_version);
                },
                // The archive certified a height the state manager has
                // already computed by now: prune below it.
                crate::backup::ExitPoint::StateBehind(certified_height) => {
                    proof {
                        assert(certified_height <= self.state_manager.latest);
                    }
                    self.state_manager.remove_states_below(certified_height);
                },
                crate::backup::ExitPoint::Done => {
                    // Only the checkpoint after the latest batch is kept.
                    self.state_manager.remove_states_below(last_batch_height);
                    proof {
                        let sp = self.backup_spool->Some_0;
                        if (orig.backup_spool->Some_0.cursor as int)
                            < orig.backup_spool->Some_0.entries@.len() {
                            assert(sp.cursor == sp.entries@.len());
                            assert(self.consensus_pool->Some_0.last_height()
                                == sp.first_height() + sp.entries@.len() - 1);
                            assert(sp.entries@.last().block.height == sp.first_height()
                                + sp.entries@.len() - 1);
                        }
                    }
                    return Ok(self.get_latest_state_height_and_hash());
                },
            }
        }
    }

    /// Builds a player attached to an already-populated, read-only consensus
    /// pool pair, for in-place recovery of a running subnet; without a pool
    /// on disk it runs poolless. The active replica build is derived from
    /// the pool's finalized tip.
    pub fn new(
        state_manager: StateManager,
        message_routing: MessageRouting,
        consensus_pool: Option<ConsensusPool>,
        certifications: Vec<Certification>,
        registry: RegistryClient,
        local_store: Option<LocalStore>,
        query_handler: QueryHandler,
        subnet_id: u64,
        now: u64,
    ) -> (r: Player)
        requires
            ({
                let p = (Player {
                    state_manager,
                    message_routing,
                    consensus_pool,
                    certification_pool: match consensus_pool {
                        Some(_) => Some(CertificationPool { certs: certifications }),
                        None => None,
                    },
                    registry,
                    local_store,
                    query_handler,
                    backup_spool: None,
                    subnet_id,
                    replica_version: 0,
                    now,
                    replay_target_height: None,
                });
                p.wf()
            }),
        ensures
            r.wf(),
            r.state_manager == state_manager,
            r.message_routing == message_routing,
            r.consensus_pool == consensus_pool,
            r.registry == registry,
            r.local_store == local_store,
            r.query_handler == query_handler,
            r.backup_spool is None,
            r.subnet_id == subnet_id,
            r.now == now,
            r.replay_target_height is None,
            r.replica_version == (match consensus_pool {
                Some(p) => p.blocks@.last().replica_version,
                None => 0,
            }),
    {
        let replica_version = match &consensus_pool {
            Some(p) => {
                // Use the replica version of the finalized tip in the pool.
                let tip_height = p.get_finalized_height();
                match p.get_finalized_block(tip_height) {
                    Some(b) => b.replica_version,
                    None => vstd::pervasive::unreached(),
                }
            },
            None => 0,
        };
        Self::new_with_params(
            state_manager,
            message_routing,
            consensus_pool,
            certifications,
            registry,
            local_store,
            query_handler,
            None,
            subnet_id,
            replica_version,
            now,
        )
    }

    /// Builds a player for restoring states from a backup spool: a fresh,
    /// isolated consensus pool is seeded with the catch-up package archived
    /// at the start height, and, when starting from genesis, the local
    /// registry store is first bootstrapped from a bulk snapshot of the
    /// remote directory.
    #[verifier::rlimit(30)]
    pub fn new_for_backup(
        state_manager: StateManager,
        message_routing: MessageRouting,
        registry: RegistryClient,
        provider_snapshot: Vec<RegistryRecord>,
        local_store: LocalStore,
        query_handler: QueryHandler,
        spool: BackupSpool,
        subnet_id: u64,
        replica_version: u64,
        start_height: u64,
        now: u64,
    ) -> (r: Player)
        requires
            state_manager.wf(),
            state_manager.horizon() < u64::MAX - 2,
            message_routing.queue is None,
            message_routing.expected == state_manager.latest + 1,
            spool.wf(),
            spool.has_cup_at(start_height),
            state_manager.latest == start_height,
            state_manager.digest_expected_at(start_height) is Some,
            spool.entries@.len() > 0 ==> state_manager.horizon() >= spool.first_height()
                + spool.entries@.len(),
            (spool.cursor as int) < spool.entries@.len() ==> spool.height_at(spool.cursor as int)
                == start_height + 1,
            forall|i: int|
                0 <= i < spool.entries@.len() ==> match (#[trigger] spool.entries@[i]).cup {
                    Some(c) => c.height > start_height ==> state_manager.digest_expected_at(
                        c.height,
                    ) is Some,
                    None => true,
                },
            start_height == 0 ==> (local_store.entries@.len() == 0 && (forall|i: int|
                0 <= i < provider_snapshot@.len() ==> (#[trigger] provider_snapshot@[i]).version
                    > 0) && provider_snapshot@.len() < u64::MAX),
            now < u64::MAX - 60_000_000_000,
        ensures
            r.wf(),
            r.state_manager == state_manager,
            r.message_routing == message_routing,
            r.consensus_pool is Some,
            cup_eq(r.consensus_pool->Some_0.cup, spool.cup_at(start_height)),
            r.consensus_pool->Some_0.cup.height == start_height,
            r.consensus_pool->Some_0.blocks@.len() == 1,
            (r.certification_pool matches Some(cp) && cp.certs@.len() == 0),
            r.backup_spool == Some(spool),
            r.query_handler == query_handler,
            r.subnet_id == subnet_id,
            r.replica_version == replica_version,
            r.now == now,
            r.replay_target_height is None,
            r.registry.latest_version == r.local_store->Some_0.entries@.len(),
            r.registry.replica_versions == registry.replica_versions,
            start_height != 0 ==> r.local_store == Some(local_store),
            start_height == 0 ==> (r.local_store->Some_0.entries@.len()
                == crate::registry::distinct_versions(provider_snapshot@).len() && exists|
                vs: Seq<u64>,
            |
                crate::registry::appended_as_changelog(
                    r.local_store->Some_0.entries@,
                    0,
                    provider_snapshot@,
                    vs,
                )),
    {
        let mut local_store = local_store;
        let mut registry = registry;
        // Starting from the genesis height: bootstrap the local registry
        // store from the bulk snapshot before anything reads it.
        if start_height == 0 {
            crate::registry::write_records_to_local_store(&mut local_store, 0, &provider_snapshot);
        }
        registry.poll_once(&local_store);
        // Extract the archived catch-up package and seed a fresh pool with
        // it: the backup data is read from the spool, so the pool starts
        // with nothing else.
        let (cup, block) = match spool.read_cup_at_height(start_height) {
            Some(p) => p,
            None => vstd::pervasive::unreached(),
        };
        let pool = ConsensusPool::new_from_cup(cup, block);
        Self::new_with_params(
            state_manager,
            message_routing,
            Some(pool),
            Vec::new(),
            registry,
            Some(local_store),
            query_handler,
            Some(spool),
            subnet_id,
            replica_version,
            now,
        )
    }

    /// Heights of all batches the pipeline has accepted, in acceptance
    /// order.
    pub fn delivered_batch_heights(&self) -> (r: Vec<u64>)
        ensures
            r@ == self.message_routing.delivered_heights@,
    {
        crate::types::copy_u64s(&self.message_routing.delivered_heights)
    }

    /// The lowest state height the state manager still retains.
    pub fn lowest_retained_state_height(&self) -> (h: u64)
        ensures
            h == self.state_manager.low,
    {
        self.state_manager.low
    }

    /// The highest version the registry local store holds.
    pub fn registry_local_store_version(&self) -> (v: u64)
        requires
            self.local_store is Some,
        ensures
            v == self.local_store->Some_0.entries@.len(),
    {
        match &self.local_store {
            Some(store) => store.latest_version(),
            None => vstd::pervasive::unreached(),
        }
    }

    /// The changelog entry the registry local store holds at a version.
    pub fn registry_local_store_entry(&self, version: u64) -> (r: Option<&Vec<
        crate::types::KeyMutation,
    >>)
        requires
            self.local_store is Some,
        ensures
            match r {
                Some(e) => (1 <= version <= self.local_store->Some_0.entries@.len() && *e
                    == self.local_store->Some_0.entries@[version - 1]),
                None => !(1 <= version <= self.local_store->Some_0.entries@.len()),
            },
    {
        match &self.local_store {
            Some(store) => store.get(version),
            None => vstd::pervasive::unreached(),
        }
    }

    /// How many archived artifacts the backup spool still holds beyond the
    /// ingestion cursor.
    pub fn backup_entries_remaining(&self) -> (n: usize)
        requires
            self.wf(),
            self.backup_spool is Some,
        ensures
            n == self.backup_spool->Some_0.entries@.len() - self.backup_spool->Some_0.cursor,
    {
        match &self.backup_spool {
            Some(sp) => sp.entries.len() - sp.cursor,
            None => vstd::pervasive::unreached(),
        }
    }
}

} // verus!
