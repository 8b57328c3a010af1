//! Plain-value data model of the engine: heights, batches, blocks, catch-up
//! packages, certifications, registry records and ingress statuses.
//!
//! Heights and registry versions are monotonically increasing `u64` values;
//! state digests are byte vectors; replica builds are identified by a `u64`.

use vstd::prelude::*;

verus! {

/// The height and hex-encoded digest of the last execution state: the
/// externally observable result of a successful replay or restore.
pub type StateParams = (u64, String);

/// The two recoverable failure conditions of a replay or restore.
#[derive(Debug)]
pub enum ReplayError {
    /// Can't proceed because the state has diverged from a signed checkpoint.
    StateDivergence(u64),
    /// Can't proceed because a different replica build governed this height.
    UpgradeDetected(StateParams),
}

pub type ReplayResult = Result<StateParams, ReplayError>;

/// One ingress message handed to execution, identified by a message id.
#[derive(Debug)]
pub struct IngressMessage {
    pub id: u64,
    pub payload: Vec<u8>,
}

/// The terminal (or still pending) status execution reports for an ingress
/// message.
#[derive(Debug)]
pub enum IngressStatus {
    /// Completed with a reply carrying the given bytes.
    CompletedReply(Vec<u8>),
    /// Completed with a rejection.
    CompletedReject,
    /// Execution failed.
    Failed,
    /// Still being processed.
    InProgress,
    /// Never seen by execution.
    Unknown,
}

impl IngressStatus {
    pub open spec fn is_reply(self) -> bool {
        matches!(self, IngressStatus::CompletedReply(_))
    }
}

/// The unit of work delivered to execution for one height.
#[derive(Debug)]
pub struct Batch {
    pub batch_number: u64,
    pub requires_full_state_hash: bool,
    pub ingress: Vec<IngressMessage>,
    pub randomness: Vec<u8>,
    pub registry_version: u64,
    pub time: u64,
}

/// A finalized block of the consensus log: the decision context (registry
/// version, time, randomness seed derived from the block's content hash,
/// replica build) together with the ingress payload for its height.
#[derive(Debug)]
pub struct Block {
    pub height: u64,
    pub registry_version: u64,
    pub replica_version: u64,
    pub time: u64,
    pub seed: Vec<u8>,
    pub ingress: Vec<IngressMessage>,
}

/// A signed checkpoint binding a height to a state digest and a registry
/// version. Whether the threshold signature over the package's byte encoding
/// verifies against the subnet's key is recorded as the plain outcome
/// `signature_ok`, since the cryptography itself is an external collaborator.
#[derive(Debug)]
pub struct CatchUpPackage {
    pub height: u64,
    pub state_hash: Vec<u8>,
    pub registry_version: u64,
    pub signature_ok: bool,
}

/// An attestation that the subnet agrees on a height's state digest.
#[derive(Debug)]
pub struct Certification {
    pub height: u64,
    pub digest: Vec<u8>,
}

/// One directory (registry) delta: a key set to a value (or deleted) at a
/// version.
#[derive(Debug)]
pub struct RegistryRecord {
    pub version: u64,
    pub key: String,
    pub value: Option<Vec<u8>>,
}

/// One key mutation of a changelog entry in the registry local store.
#[derive(Debug)]
pub struct KeyMutation {
    pub key: String,
    pub value: Option<Vec<u8>>,
}

/// The directory's record for a subnet at some version.
#[derive(Debug)]
pub struct SubnetRecord {
    pub replica_version_id: u64,
}

/// The directory's list of blessed replica builds.
#[derive(Debug)]
pub struct BlessedReplicaVersions {
    pub blessed_version_ids: Vec<u64>,
}

/// Why a registry-canister query did not yield a reply.
#[derive(Clone, Copy, Debug, PartialEq, Eq)]
pub enum QueryError {
    /// The query executed and was rejected by the canister.
    Rejected,
    /// The query could not be executed at all.
    Failed,
}

/// Copies a byte vector.
pub fn copy_bytes(v: &Vec<u8>) -> (r: Vec<u8>)
    ensures
        r@ == v@,
{
    let mut r: Vec<u8> = Vec::new();
    let mut i: usize = 0;
    while i < v.len()
        invariant
            i <= v.len(),
            r@ == v@.subrange(0, i as int),
        decreases v.len() - i,
    {
        r.push(v[i]);
        i = i + 1;
    }
    proof {
        assert(r@ == v@.subrange(0, v@.len() as int));
        assert(v@.subrange(0, v@.len() as int) == v@);
    }
    r
}

/// Compares two byte vectors for equal content.
pub fn bytes_eq(a: &Vec<u8>, b: &Vec<u8>) -> (r: bool)
    ensures
        r <==> a@ == b@,
{
    if a.len() != b.len() {
        return false;
    }
    let mut i: usize = 0;
    while i < a.len()
        invariant
            a@.len() == b@.len(),
            i <= a@.len(),
            forall|j: int| 0 <= j < i ==> a@[j] == b@[j],
        decreases a@.len() - i,
    {
        if a[i] != b[i] {
            return false;
        }
        i = i + 1;
    }
    proof {
        assert(a@ =~= b@);
    }
    true
}

/// Whether two optional byte vectors hold the same bytes.
pub open spec fn opt_bytes_eq(a: Option<Vec<u8>>, b: Option<Vec<u8>>) -> bool {
    match (a, b) {
        (Some(x), Some(y)) => x@ == y@,
        (None, None) => true,
        _ => false,
    }
}

/// Copies an optional byte vector.
pub fn copy_opt_bytes(v: &Option<Vec<u8>>) -> (r: Option<Vec<u8>>)
    ensures
        opt_bytes_eq(r, *v),
{
    match v {
        Some(b) => Some(copy_bytes(b)),
        None => None,
    }
}

/// Copies a vector of integers.
pub fn copy_u64s(v: &Vec<u64>) -> (r: Vec<u64>)
    ensures
        r@ == v@,
{
    let mut r: Vec<u64> = Vec::new();
    let mut i: usize = 0;
    while i < v.len()
        invariant
            i <= v.len(),
            r@ == v@.subrange(0, i as int),
        decreases v.len() - i,
    {
        r.push(v[i]);
        i = i + 1;
    }
    proof {
        assert(v@.subrange(0, v@.len() as int) == v@);
    }
    r
}

/// Whether two ingress messages agree on id and payload.
pub open spec fn ingress_eq(a: IngressMessage, b: IngressMessage) -> bool {
    a.id == b.id && a.payload@ == b.payload@
}

/// Whether two ingress message vectors agree pointwise.
pub open spec fn ingress_vec_eq(a: Seq<IngressMessage>, b: Seq<IngressMessage>) -> bool {
    a.len() == b.len() && forall|i: int| 0 <= i < a.len() ==> ingress_eq(a[i], b[i])
}

/// Copies an ingress message.
pub fn copy_ingress(m: &IngressMessage) -> (r: IngressMessage)
    ensures
        ingress_eq(r, *m),
{
    IngressMessage { id: m.id, payload: copy_bytes(&m.payload) }
}

/// Copies a vector of ingress messages.
pub fn copy_ingress_vec(v: &Vec<IngressMessage>) -> (r: Vec<IngressMessage>)
    ensures
        ingress_vec_eq(r@, v@),
{
    let mut r: Vec<IngressMessage> = Vec::new();
    let mut i: usize = 0;
    while i < v.len()
        invariant
            i <= v.len(),
            r@.len() == i,
            forall|j: int| 0 <= j < i ==> ingress_eq(r@[j], v@[j]),
        decreases v.len() - i,
    {
        r.push(copy_ingress(&v[i]));
        i = i + 1;
    }
    r
}

} // verus!
