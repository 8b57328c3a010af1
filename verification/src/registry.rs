//! Models of the registry (directory) client, its on-disk local store, and
//! the query path to the registry canister, together with the logic that
//! appends fetched deltas to the local store.
//!
//! The local store is an ordered changelog: entry `i` holds the key
//! mutations of version `i + 1`, so versions are contiguous with no gaps by
//! construction. Fetched records are grouped by version in ascending version
//! order before they are appended, one changelog entry per distinct version.

use vstd::prelude::*;
use crate::types::BlessedReplicaVersions;
use crate::types::KeyMutation;
use crate::types::QueryError;
use crate::types::RegistryRecord;
use crate::types::SubnetRecord;
use crate::types::copy_opt_bytes;
use crate::types::opt_bytes_eq;

verus! {

/// Whether a key mutation carries a record's key and value.
pub open spec fn km_matches(m: KeyMutation, r: RegistryRecord) -> bool {
    m.key@ == r.key@ && opt_bytes_eq(m.value, r.value)
}

/// Whether two records agree on version, key and value.
pub open spec fn record_matches(a: RegistryRecord, b: RegistryRecord) -> bool {
    a.version == b.version && a.key@ == b.key@ && opt_bytes_eq(a.value, b.value)
}

/// Whether a changelog entry holds exactly these records' mutations, in
/// order.
pub open spec fn entry_matches(e: Seq<KeyMutation>, rs: Seq<RegistryRecord>) -> bool {
    e.len() == rs.len() && forall|k: int| 0 <= k < e.len() ==> km_matches(#[trigger] e[k], rs[k])
}

/// The set of versions occurring in a run of records.
pub open spec fn distinct_versions(rs: Seq<RegistryRecord>) -> Set<u64>
    decreases rs.len(),
{
    if rs.len() == 0 {
        Set::empty()
    } else {
        distinct_versions(rs.drop_last()).insert(rs.last().version)
    }
}

pub proof fn lemma_distinct_versions(rs: Seq<RegistryRecord>)
    ensures
        distinct_versions(rs).finite(),
        distinct_versions(rs).len() <= rs.len(),
        forall|v: u64|
            #[trigger] distinct_versions(rs).contains(v) <==> exists|i: int|
                0 <= i < rs.len() && (#[trigger] rs[i]).version == v,
    decreases rs.len(),
{
    if rs.len() > 0 {
        lemma_distinct_versions(rs.drop_last());
        assert forall|v: u64| #[trigger] distinct_versions(rs).contains(v) implies exists|i: int|
            0 <= i < rs.len() && (#[trigger] rs[i]).version == v by {
            if v == rs.last().version {
                assert(rs[rs.len() - 1].version == v);
            } else {
                let i = choose|i: int|
                    0 <= i < rs.drop_last().len() && (#[trigger] rs.drop_last()[i]).version == v;
                assert(rs[i].version == v);
            }
        }
        assert forall|v: u64|
            (exists|i: int| 0 <= i < rs.len() && (#[trigger] rs[i]).version == v)
            implies #[trigger] distinct_versions(rs).contains(v) by {
            let i = choose|i: int| 0 <= i < rs.len() && (#[trigger] rs[i]).version == v;
            if i < rs.len() - 1 {
                assert(rs.drop_last()[i].version == v);
            }
        }
    }
}

/// The subsequence of records carrying version `v`, in input order.
pub open spec fn filter_version(rs: Seq<RegistryRecord>, v: u64) -> Seq<RegistryRecord>
    decreases rs.len(),
{
    if rs.len() == 0 {
        Seq::empty()
    } else if rs.last().version == v {
        filter_version(rs.drop_last(), v).push(rs.last())
    } else {
        filter_version(rs.drop_last(), v)
    }
}

pub proof fn lemma_filter_version_push(rs: Seq<RegistryRecord>, r: RegistryRecord, v: u64)
    ensures
        r.version == v ==> filter_version(rs.push(r), v) == filter_version(rs, v).push(r),
        r.version != v ==> filter_version(rs.push(r), v) == filter_version(rs, v),
{
    assert(rs.push(r).drop_last() =~= rs);
    assert(rs.push(r).last() == r);
}

/// The records with a version strictly above `version`, in input order: what
/// the registry canister answers to a changes-since query.
pub open spec fn changes_since(rs: Seq<RegistryRecord>, version: u64) -> Seq<RegistryRecord>
    decreases rs.len(),
{
    if rs.len() == 0 {
        Seq::empty()
    } else if rs.last().version > version {
        changes_since(rs.drop_last(), version).push(rs.last())
    } else {
        changes_since(rs.drop_last(), version)
    }
}

pub proof fn lemma_changes_since_push(rs: Seq<RegistryRecord>, r: RegistryRecord, version: u64)
    ensures
        r.version > version ==> changes_since(rs.push(r), version) == changes_since(
            rs,
            version,
        ).push(r),
        r.version <= version ==> changes_since(rs.push(r), version) == changes_since(rs, version),
{
    assert(rs.push(r).drop_last() =~= rs);
    assert(rs.push(r).last() == r);
}

/// Whether a run of records holds a record at this version.
pub open spec fn has_version(rs: Seq<RegistryRecord>, v: u64) -> bool {
    exists|i: int| 0 <= i < rs.len() && (#[trigger] rs[i]).version == v
}

/// Whether two runs of records agree pointwise.
pub open spec fn records_match(a: Seq<RegistryRecord>, b: Seq<RegistryRecord>) -> bool {
    a.len() == b.len() && forall|i: int| 0 <= i < a.len() ==> record_matches(#[trigger] a[i], b[i])
}

/// Copies a record.
pub fn copy_record(r: &RegistryRecord) -> (c: RegistryRecord)
    ensures
        record_matches(c, *r),
{
    RegistryRecord { version: r.version, key: r.key.clone(), value: copy_opt_bytes(&r.value) }
}

/// Collects the records with a version strictly above `version`, in order.
pub fn changes_since_exec(records: &Vec<RegistryRecord>, version: u64) -> (r: Vec<RegistryRecord>)
    ensures
        records_match(r@, changes_since(records@, version)),
{
    let mut r: Vec<RegistryRecord> = Vec::new();
    let mut i: usize = 0;
    proof {
        assert(records@.subrange(0, 0) =~= Seq::<RegistryRecord>::empty());
    }
    while i < records.len()
        invariant
            i <= records@.len(),
            records_match(r@, changes_since(records@.subrange(0, i as int), version)),
        decreases records@.len() - i,
    {
        let ghost prefix = records@.subrange(0, i as int);
        proof {
            assert(records@.subrange(0, i + 1) =~= prefix.push(records@[i as int]));
            lemma_changes_since_push(prefix, records@[i as int], version);
        }
        if records[i].version > version {
            r.push(copy_record(&records[i]));
        }
        i = i + 1;
    }
    proof {
        assert(records@.subrange(0, records@.len() as int) =~= records@);
    }
    r
}

/// There are no more changes since `version` than records.
pub proof fn lemma_changes_since_len(rs: Seq<RegistryRecord>, version: u64)
    ensures
        changes_since(rs, version).len() <= rs.len(),
    decreases rs.len(),
{
    if rs.len() > 0 {
        lemma_changes_since_len(rs.drop_last(), version);
    }
}

/// Filtering by version respects pointwise record agreement.
pub proof fn lemma_filter_version_congruent(a: Seq<RegistryRecord>, b: Seq<RegistryRecord>, v: u64)
    requires
        a.len() == b.len(),
        forall|i: int| 0 <= i < a.len() ==> record_matches(#[trigger] a[i], b[i]),
    ensures
        filter_version(a, v).len() == filter_version(b, v).len(),
        forall|k: int|
            0 <= k < filter_version(a, v).len() ==> record_matches(
                #[trigger] filter_version(a, v)[k],
                filter_version(b, v)[k],
            ),
    decreases a.len(),
{
    if a.len() > 0 {
        assert forall|i: int| 0 <= i < a.drop_last().len() implies record_matches(
            #[trigger] a.drop_last()[i],
            b.drop_last()[i],
        ) by {
            assert(record_matches(a[i], b[i]));
        }
        lemma_filter_version_congruent(a.drop_last(), b.drop_last(), v);
        assert(record_matches(a.last(), b.last()));
    }
}

/// Computes the highest record version; zero with no records.
pub fn max_version_exec(records: &Vec<RegistryRecord>) -> (m: u64)
    ensures
        m == max_version_of(records@),
{
    let mut m: u64 = 0;
    let mut i: usize = 0;
    proof {
        assert(records@.subrange(0, 0) =~= Seq::<RegistryRecord>::empty());
    }
    while i < records.len()
        invariant
            i <= records@.len(),
            m == max_version_of(records@.subrange(0, i as int)),
        decreases records@.len() - i,
    {
        let ghost prefix = records@.subrange(0, i as int);
        proof {
            assert(records@.subrange(0, i + 1) =~= prefix.push(records@[i as int]));
            assert(prefix.push(records@[i as int]).drop_last() =~= prefix);
        }
        if records[i].version > m {
            m = records[i].version;
        }
        i = i + 1;
    }
    proof {
        assert(records@.subrange(0, records@.len() as int) =~= records@);
    }
    m
}

/// No record's version exceeds `max_version_of`, and some record carries it
/// when there is any record at all.
pub proof fn lemma_max_version_of(rs: Seq<RegistryRecord>)
    ensures
        forall|i: int| 0 <= i < rs.len() ==> (#[trigger] rs[i]).version <= max_version_of(rs),
        rs.len() > 0 ==> exists|i: int|
            0 <= i < rs.len() && (#[trigger] rs[i]).version == max_version_of(rs),
    decreases rs.len(),
{
    if rs.len() > 0 {
        lemma_max_version_of(rs.drop_last());
        assert forall|i: int| 0 <= i < rs.len() implies (#[trigger] rs[i]).version
            <= max_version_of(rs) by {
            if i < rs.len() - 1 {
                assert(rs.drop_last()[i] == rs[i]);
            }
        }
        if rs.len() > 1 && max_version_of(rs) != rs.last().version {
            let i = choose|i: int|
                0 <= i < rs.drop_last().len() && (#[trigger] rs.drop_last()[i]).version
                    == max_version_of(rs.drop_last());
            assert(rs[i].version == max_version_of(rs));
        } else if rs.len() >= 1 && max_version_of(rs) == rs.last().version {
            assert(rs[rs.len() - 1].version == max_version_of(rs));
        }
    }
}

/// Pointwise version-equal runs agree on their version set and maximum.
pub proof fn lemma_versions_congruent(a: Seq<RegistryRecord>, b: Seq<RegistryRecord>)
    requires
        a.len() == b.len(),
        forall|i: int| 0 <= i < a.len() ==> (#[trigger] a[i]).version == b[i].version,
    ensures
        distinct_versions(a) == distinct_versions(b),
        max_version_of(a) == max_version_of(b),
    decreases a.len(),
{
    if a.len() > 0 {
        assert forall|i: int| 0 <= i < a.drop_last().len() implies (#[trigger] a.drop_last()[
            i
        ]).version == b.drop_last()[i].version by {
            assert(a[i].version == b[i].version);
        }
        lemma_versions_congruent(a.drop_last(), b.drop_last());
        assert(a.last().version == b.last().version);
    }
}

/// The versions occurring among the changes since `version` are exactly the
/// record versions above `version`.
pub proof fn lemma_changes_since_versions(rs: Seq<RegistryRecord>, version: u64)
    ensures
        forall|w: u64|
            #[trigger] distinct_versions(changes_since(rs, version)).contains(w) <==> (w > version
                && distinct_versions(rs).contains(w)),
    decreases rs.len(),
{
    lemma_distinct_versions(rs);
    lemma_distinct_versions(changes_since(rs, version));
    assert forall|w: u64|
        #[trigger] distinct_versions(changes_since(rs, version)).contains(w) implies (w > version
        && distinct_versions(rs).contains(w)) by {
        lemma_changes_since_members(rs, version);
        let i = choose|i: int|
            0 <= i < changes_since(rs, version).len() && (#[trigger] changes_since(
                rs,
                version,
            )[i]).version == w;
        let j = choose|j: int|
            0 <= j < rs.len() && (#[trigger] rs[j]).version == changes_since(rs, version)[i].version
                && rs[j].version > version;
        assert(rs[j].version == w);
    }
    assert forall|w: u64| (w > version && distinct_versions(rs).contains(w))
        implies #[trigger] distinct_versions(changes_since(rs, version)).contains(w) by {
        let j = choose|j: int| 0 <= j < rs.len() && (#[trigger] rs[j]).version == w;
        lemma_changes_since_contains(rs, version, j);
    }
}

/// Every entry of the filtered run is a record version above `version`.
pub proof fn lemma_changes_since_members(rs: Seq<RegistryRecord>, version: u64)
    ensures
        forall|i: int|
            0 <= i < changes_since(rs, version).len() ==> exists|j: int|
                0 <= j < rs.len() && (#[trigger] rs[j]).version == (#[trigger] changes_since(
                    rs,
                    version,
                )[i]).version && rs[j].version > version,
    decreases rs.len(),
{
    if rs.len() > 0 {
        lemma_changes_since_members(rs.drop_last(), version);
        assert forall|i: int| 0 <= i < changes_since(rs, version).len() implies exists|j: int|
            0 <= j < rs.len() && (#[trigger] rs[j]).version == (#[trigger] changes_since(
                rs,
                version,
            )[i]).version && rs[j].version > version by {
            let cs = changes_since(rs, version);
            let prev = changes_since(rs.drop_last(), version);
            if rs.last().version > version && i == cs.len() - 1 {
                assert(rs[rs.len() - 1].version == cs[i].version && rs[rs.len() - 1].version
                    > version);
            } else {
                assert(cs[i] == prev[i]);
                let j = choose|j: int|
                    0 <= j < rs.drop_last().len() && (#[trigger] rs.drop_last()[j]).version
                        == prev[i].version && rs.drop_last()[j].version > version;
                assert(rs[j].version == cs[i].version && rs[j].version > version);
            }
        }
    }
}

/// A record version above `version` appears among the changes since
/// `version`.
pub proof fn lemma_changes_since_contains(rs: Seq<RegistryRecord>, version: u64, j: int)
    requires
        0 <= j < rs.len(),
        rs[j].version > version,
    ensures
        exists|i: int|
            0 <= i < changes_since(rs, version).len() && (#[trigger] changes_since(
                rs,
                version,
            )[i]).version == rs[j].version,
    decreases rs.len(),
{
    let cs = changes_since(rs, version);
    if j == rs.len() - 1 {
        assert(cs[cs.len() - 1].version == rs[j].version);
    } else {
        lemma_changes_since_contains(rs.drop_last(), version, j);
        let prev = changes_since(rs.drop_last(), version);
        let i = choose|i: int|
            0 <= i < prev.len() && (#[trigger] prev[i]).version == rs.drop_last()[j].version;
        assert(cs[i].version == rs[j].version);
    }
}

/// A strictly increasing run that stays inside `(base, m]` and covers every
/// value of that interval has exactly `m - base` elements.
pub proof fn lemma_cover_interval(vs: Seq<u64>, base: u64, m: u64)
    requires
        base <= m,
        forall|a: int, b: int| 0 <= a < b < vs.len() ==> vs[a] < vs[b],
        forall|j: int| 0 <= j < vs.len() ==> base < #[trigger] vs[j] <= m,
        forall|v: u64| base < v <= m ==> vs.contains(v),
    ensures
        vs.len() == m - base,
    decreases m - base,
{
    if m == base {
        if vs.len() > 0 {
            assert(base < vs[0] <= m);
        }
    } else {
        assert(vs.contains(m));
        let jm = choose|j: int| 0 <= j < vs.len() && vs[j] == m;
        assert(jm == vs.len() - 1) by {
            if jm < vs.len() - 1 {
                assert(vs[jm] < vs[vs.len() - 1]);
                assert(vs[vs.len() - 1] <= m);
            }
        }
        let prev = vs.drop_last();
        assert forall|j: int| 0 <= j < prev.len() implies base < #[trigger] prev[j] <= (m - 1)
            as u64 by {
            assert(prev[j] == vs[j]);
            assert(vs[j] < vs[vs.len() - 1]);
        }
        assert forall|v: u64| base < v <= (m - 1) as u64 implies prev.contains(v) by {
            assert(vs.contains(v));
            let jv = choose|j: int| 0 <= j < vs.len() && vs[j] == v;
            assert(jv < vs.len() - 1);
            assert(prev[jv] == v);
        }
        lemma_cover_interval(prev, base, (m - 1) as u64);
    }
}

/// The on-disk registry local store: an ordered changelog whose entry `i`
/// holds the key mutations of version `i + 1`.
pub struct LocalStore {
    pub entries: Vec<Vec<KeyMutation>>,
}

impl LocalStore {
    /// The highest version the store holds; zero for an empty store.
    pub fn latest_version(&self) -> (v: u64)
        ensures
            v == self.entries@.len(),
    {
        self.entries.len() as u64
    }

    /// Appends the changelog entry of the next version. The store refuses
    /// gaps: `version` must be exactly one above the highest stored one.
    pub fn store(&mut self, version: u64, entry: Vec<KeyMutation>)
        requires
            version == old(self).entries@.len() + 1,
        ensures
            final(self).entries@ == old(self).entries@.push(entry),
    {
        self.entries.push(entry);
    }

    /// The changelog entry of a version, if the store holds it.
    pub fn get(&self, version: u64) -> (r: Option<&Vec<KeyMutation>>)
        ensures
            match r {
                Some(e) => 1 <= version <= self.entries@.len() && *e == self.entries@[version - 1],
                None => !(1 <= version <= self.entries@.len()),
            },
    {
        if version >= 1 && version <= self.entries.len() as u64 {
            proof {
                assert(version - 1 < self.entries@.len());
            }
            Some(&self.entries[(version - 1) as usize])
        } else {
            None
        }
    }
}

/// The registry build record the table reports for a registry version: the
/// last entry for that version, if any.
pub open spec fn replica_version_in(s: Seq<(u64, u64)>, v: u64) -> Option<u64>
    decreases s.len(),
{
    if s.len() == 0 {
        None
    } else if s.last().0 == v {
        Some(s.last().1)
    } else {
        replica_version_in(s.drop_last(), v)
    }
}

/// Model of the registry client: a cached snapshot of the local store. The
/// decoded content the engine reads from the snapshot — which replica build
/// governs each registry version — is held as a plain table.
pub struct RegistryClient {
    /// Highest version read from the local store.
    pub latest_version: u64,
    /// Registry version to replica build id, as the snapshot records it.
    pub replica_versions: Vec<(u64, u64)>,
}

impl RegistryClient {
    pub fn get_latest_version(&self) -> (v: u64)
        ensures
            v == self.latest_version,
    {
        self.latest_version
    }

    /// Re-reads the local store once, picking up versions appended since the
    /// last poll.
    pub fn poll_once(&mut self, store: &LocalStore)
        ensures
            final(self).latest_version == store.entries@.len(),
            final(self).replica_versions == old(self).replica_versions,
    {
        self.latest_version = store.latest_version();
    }

    /// Initial bulk read of the local store, after which the client serves
    /// queries from its snapshot.
    pub fn fetch_and_start_polling(&mut self, store: &LocalStore)
        ensures
            final(self).latest_version == store.entries@.len(),
            final(self).replica_versions == old(self).replica_versions,
    {
        self.latest_version = store.latest_version();
    }

    /// The replica build the registry records as active at a registry
    /// version.
    pub fn lookup_replica_version(&self, version: u64) -> (r: Option<u64>)
        ensures
            r == replica_version_in(self.replica_versions@, version),
    {
        let mut i: usize = self.replica_versions.len();
        proof {
            assert(self.replica_versions@.subrange(0, self.replica_versions@.len() as int)
                =~= self.replica_versions@);
        }
        while i > 0
            invariant
                i <= self.replica_versions@.len(),
                replica_version_in(self.replica_versions@, version) == replica_version_in(
                    self.replica_versions@.subrange(0, i as int),
                    version,
                ),
            decreases i,
        {
            i = i - 1;
            let ghost pre = self.replica_versions@.subrange(0, i + 1);
            proof {
                assert(pre.last() == self.replica_versions@[i as int]);
                assert(pre.drop_last() =~= self.replica_versions@.subrange(0, i as int));
            }
            if self.replica_versions[i].0 == version {
                return Some(self.replica_versions[i].1);
            }
        }
        proof {
            assert(self.replica_versions@.subrange(0, 0).len() == 0);
        }
        None
    }
}

/// Model of the query path to the registry canister: the canister's full
/// changelog and the records the engine may ask it for. A fault, when set,
/// stands for the query being rejected or failing outright, as happens when
/// the queried subnet does not host the registry.
pub struct QueryHandler {
    pub fault: Option<QueryError>,
    /// The registry canister's records, every version.
    pub records: Vec<RegistryRecord>,
    /// The subnet record served for this subnet.
    pub subnet_record: Option<SubnetRecord>,
    /// The blessed replica versions record.
    pub blessed: Option<BlessedReplicaVersions>,
}

/// The highest version among a run of records; zero if there are none.
pub open spec fn max_version_of(rs: Seq<RegistryRecord>) -> u64
    decreases rs.len(),
{
    if rs.len() == 0 {
        0
    } else {
        let m = max_version_of(rs.drop_last());
        if rs.last().version > m {
            rs.last().version
        } else {
            m
        }
    }
}

/// Builds the key mutation a record stands for.
fn mutation_of(r: &RegistryRecord) -> (m: KeyMutation)
    ensures
        km_matches(m, *r),
{
    KeyMutation { key: r.key.clone(), value: copy_opt_bytes(&r.value) }
}

/// The smallest record version strictly above `above`, if any.
fn min_version_above(records: &Vec<RegistryRecord>, above: u64) -> (r: Option<u64>)
    ensures
        match r {
            Some(m) => m > above && (exists|i: int|
                0 <= i < records@.len() && (#[trigger] records@[i]).version == m) && (forall|i: int|
                0 <= i < records@.len() ==> ((#[trigger] records@[i]).version > above
                    ==> records@[i].version >= m)),
            None => forall|i: int|
                0 <= i < records@.len() ==> (#[trigger] records@[i]).version <= above,
        },
{
    let mut best: Option<u64> = None;
    let mut i: usize = 0;
    while i < records.len()
        invariant
            i <= records@.len(),
            match best {
                Some(m) => m > above && (exists|j: int|
                    0 <= j < i && (#[trigger] records@[j]).version == m) && (forall|j: int|
                    0 <= j < i ==> ((#[trigger] records@[j]).version > above ==> records@[j].version
                        >= m)),
                None => forall|j: int| 0 <= j < i ==> (#[trigger] records@[j]).version <= above,
            },
        decreases records@.len() - i,
    {
        let v = records[i].version;
        if v > above {
            match best {
                None => best = Some(v),
                Some(m) => if v < m {
                    best = Some(v)
                },
            }
        }
        i = i + 1;
    }
    best
}

/// Collects, in input order, the mutations of all records carrying version
/// `v`.
fn collect_version(records: &Vec<RegistryRecord>, v: u64) -> (g: Vec<KeyMutation>)
    ensures
        entry_matches(g@, filter_version(records@, v)),
{
    let mut g: Vec<KeyMutation> = Vec::new();
    let mut i: usize = 0;
    proof {
        assert(records@.subrange(0, 0) =~= Seq::<RegistryRecord>::empty());
    }
    while i < records.len()
        invariant
            i <= records@.len(),
            entry_matches(g@, filter_version(records@.subrange(0, i as int), v)),
        decreases records@.len() - i,
    {
        let ghost prefix = records@.subrange(0, i as int);
        proof {
            assert(records@.subrange(0, i + 1) =~= prefix.push(records@[i as int]));
            lemma_filter_version_push(prefix, records@[i as int], v);
        }
        if records[i].version == v {
            g.push(mutation_of(&records[i]));
        }
        i = i + 1;
    }
    proof {
        assert(records@.subrange(0, records@.len() as int) =~= records@);
    }
    g
}

/// What `write_records_to_local_store` appends: one changelog entry per
/// distinct record version, in ascending version order, each holding that
/// version's mutations in input order.
pub open spec fn appended_as_changelog(
    entries: Seq<Vec<KeyMutation>>,
    base_len: int,
    records: Seq<RegistryRecord>,
    vs: Seq<u64>,
) -> bool {
    &&& vs.len() == distinct_versions(records).len()
    &&& (forall|a: int, b: int| 0 <= a < b < vs.len() ==> vs[a] < vs[b])
    &&& (forall|j: int| 0 <= j < vs.len() ==> distinct_versions(records).contains(#[trigger] vs[j]))
    &&& (forall|v: u64| #[trigger] distinct_versions(records).contains(v) ==> vs.contains(v))
    &&& (forall|j: int|
        0 <= j < vs.len() ==> entry_matches(
            (#[trigger] entries[base_len + j])@,
            filter_version(records, vs[j]),
        ))
}

/// Appends the fetched records to the local store, grouped by version: the
/// store gains exactly one changelog entry per distinct record version,
/// consecutively numbered from `latest_version + 1` upward, in ascending
/// version order, whatever order the records arrived in.
pub fn write_records_to_local_store(
    local_store: &mut LocalStore,
    latest_version: u64,
    records: &Vec<RegistryRecord>,
)
    requires
        latest_version == old(local_store).entries@.len(),
        forall|i: int|
            0 <= i < records@.len() ==> (#[trigger] records@[i]).version > latest_version,
        old(local_store).entries@.len() + records@.len() < u64::MAX,
    ensures
        final(local_store).entries@.len() == old(local_store).entries@.len() + distinct_versions(
            records@,
        ).len(),
        final(local_store).entries@.subrange(0, old(local_store).entries@.len() as int) == old(
            local_store,
        ).entries@,
        exists|vs: Seq<u64>|
            appended_as_changelog(
                final(local_store).entries@,
                old(local_store).entries@.len() as int,
                records@,
                vs,
            ),
{
    let ghost base = local_store.entries@;
    let ghost distinct = distinct_versions(records@);
    let ghost mut vs: Seq<u64> = Seq::empty();
    let ghost mut seen: Set<u64> = Set::empty();
    proof {
        lemma_distinct_versions(records@);
        assert(seen =~= Set::<u64>::new(
            |v: u64| distinct.contains(v) && v <= latest_version,
        ));
        assert(base.subrange(0, base.len() as int) =~= base);
    }
    let mut last_v: u64 = latest_version;
    loop
        invariant
            latest_version <= last_v,
            forall|i: int|
                0 <= i < records@.len() ==> (#[trigger] records@[i]).version > latest_version,
            distinct == distinct_versions(records@),
            distinct.finite(),
            distinct.len() <= records@.len(),
            base.len() + records@.len() < u64::MAX,
            forall|v: u64|
                #[trigger] distinct.contains(v) <==> exists|i: int|
                    0 <= i < records@.len() && (#[trigger] records@[i]).version == v,
            seen.finite(),
            seen == Set::<u64>::new(|v: u64| distinct.contains(v) && v <= last_v),
            seen.len() == vs.len(),
            forall|v: u64| #[trigger] seen.contains(v) <==> vs.contains(v),
            vs.len() <= distinct.len(),
            forall|a: int, b: int| 0 <= a < b < vs.len() ==> vs[a] < vs[b],
            forall|j: int| 0 <= j < vs.len() ==> latest_version < #[trigger] vs[j] <= last_v,
            forall|j: int| 0 <= j < vs.len() ==> distinct.contains(#[trigger] vs[j]),
            base == old(local_store).entries@,
            latest_version == base.len(),
            local_store.entries@.len() == base.len() + vs.len(),
            local_store.entries@.subrange(0, base.len() as int) == base,
            forall|j: int|
                0 <= j < vs.len() ==> entry_matches(
                    (#[trigger] local_store.entries@[base.len() + j])@,
                    filter_version(records@, vs[j]),
                ),
        ensures
            seen == distinct,
        decreases distinct.len() - vs.len(),
    {
        match min_version_above(records, last_v) {
            None => {
                proof {
                    assert forall|v: u64| distinct.contains(v) implies seen.contains(v) by {
                        let i = choose|i: int|
                            0 <= i < records@.len() && (#[trigger] records@[i]).version == v;
                        assert(records@[i].version <= last_v);
                    }
                    assert(seen =~= distinct);
                }
                break ;
            }
            Some(m) => {
                let g = collect_version(records, m);
                let ghost pre_entries = local_store.entries@;
                let next = local_store.latest_version() + 1;
                local_store.store(next, g);
                proof {
                    assert(!seen.contains(m));
                    assert(distinct.contains(m));
                    let seen2 = Set::<u64>::new(|v: u64| distinct.contains(v) && v <= m);
                    assert forall|v: u64| seen2.contains(v) implies seen.insert(m).contains(
                        v,
                    ) by {
                        if v != m {
                            assert(records@[choose|i: int|
                                0 <= i < records@.len() && (#[trigger] records@[i]).version
                                    == v].version >= m || v <= last_v);
                        }
                    }
                    assert(seen2 =~= seen.insert(m));
                    let ghost seen0 = seen;
                    let ghost vs0 = vs;
                    seen = seen.insert(m);
                    vs = vs.push(m);
                    assert(seen.subset_of(distinct));
                    vstd::set_lib::lemma_len_subset(seen, distinct);
                    assert forall|v: u64| #[trigger] seen.contains(v) implies vs.contains(v) by {
                        if v == m {
                            assert(vs[vs.len() - 1] == v);
                        } else {
                            let i = choose|i: int| 0 <= i < vs0.len() && vs0[i] == v;
                            assert(vs[i] == v);
                        }
                    }
                    assert forall|v: u64| vs.contains(v) implies #[trigger] seen.contains(v) by {
                        let i = choose|i: int| 0 <= i < vs.len() && vs[i] == v;
                        if i < vs.len() - 1 {
                            assert(vs0[i] == v);
                            assert(seen0.contains(v));
                        }
                    }
                    assert(local_store.entries@.subrange(0, base.len() as int) =~= pre_entries
                        .subrange(0, base.len() as int));
                    assert forall|j: int| 0 <= j < vs.len() implies entry_matches(
                        (#[trigger] local_store.entries@[base.len() + j])@,
                        filter_version(records@, vs[j]),
                    ) by {
                        if j < vs.len() - 1 {
                            assert(local_store.entries@[base.len() + j] == pre_entries[base.len()
                                + j]);
                        } else {
                            assert(local_store.entries@[base.len() + j] == g);
                        }
                    }
                }
                last_v = m;
            }
        }
    }
    proof {
        assert(vs.len() == distinct.len());
        assert(appended_as_changelog(local_store.entries@, base.len() as int, records@, vs));
    }
}

} // verus!
