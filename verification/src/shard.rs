//! Dynamic shard coordinator.
//!
//! Shards partition the 64-bit hash space; a vertex is routed to a
//! shard by the consistent hash of the namespace extracted from its
//! transaction payload.  Rebalancing splits overloaded shards at the
//! midpoint of their range and merges adjacent underloaded ones, so
//! that the active shards always partition the hash space.
//!
//! Merging is restricted to shards with adjacent hash ranges: merging
//! arbitrary pairs would leave the active ranges overlapping or full
//! of holes during transients, so the conservative choice is made and
//! documented here.

use vstd::prelude::*;

use crate::crypto::{blake3_hash32, blake3_of, now_secs};
use crate::error::DAGError;
use crate::vertex::{clone_bytes, DAGVertex, TransactionData, VertexAbs};
use crate::ShardId;

verus! {

/// Shard configuration.
#[derive(Debug, Clone, Copy, PartialEq, Eq, Structural)]
pub struct ShardConfig {
    /// Number of shards created at start.
    pub initial_shard_count: u32,
    /// Rolling-average TPS above which a shard is split.
    pub max_shard_tps: u32,
    /// Rolling-average TPS below which a shard may be merged.
    pub min_shard_tps: u32,
    /// Upper bound on the number of shards.
    pub max_shard_count: u32,
    /// Seconds between rebalancing passes.
    pub rebalance_interval_secs: u64,
}

impl Default for ShardConfig {
    /// The default configuration.
    fn default() -> (r: ShardConfig)
        ensures
            r.initial_shard_count == 4,
            r.max_shard_tps == 10000,
            r.min_shard_tps == 1000,
            r.max_shard_count == 1024,
            r.rebalance_interval_secs == 300,
    {
        ShardConfig {
            initial_shard_count: 4,
            max_shard_tps: 10000,
            min_shard_tps: 1000,
            max_shard_count: 1024,
            rebalance_interval_secs: 300,
        }
    }
}

/// Half-open hash range `[start, end)`.
#[derive(Debug, Clone, Copy, PartialEq, Eq, Structural)]
pub struct HashRange {
    pub start: u64,
    pub end: u64,
}

/// Lifecycle state of a shard.
#[derive(Debug, Clone, Copy, PartialEq, Eq, Structural)]
pub enum ShardStatus {
    Active,
    Splitting,
    Merging,
    Inactive,
}

/// Information about one shard.
#[derive(Debug, Clone, PartialEq)]
pub struct ShardInfo {
    /// Shard identifier.
    pub shard_id: ShardId,
    /// Namespaces assigned to this shard.
    pub namespaces: Vec<Vec<u8>>,
    /// Hash range owned by this shard.
    pub hash_range: HashRange,
    /// Creation time, seconds.
    pub created_at: u64,
    /// Shard this one was split from, if any.
    pub parent_shard: Option<ShardId>,
    /// Lifecycle state.
    pub status: ShardStatus,
}

/// Mathematical image of `ShardInfo`.
pub ghost struct ShardInfoAbs {
    pub shard_id: ShardId,
    pub namespaces: Seq<Seq<u8>>,
    pub hash_range: HashRange,
    pub created_at: u64,
    pub parent_shard: Option<ShardId>,
    pub status: ShardStatus,
}

impl View for ShardInfo {
    type V = ShardInfoAbs;

    open spec fn view(&self) -> ShardInfoAbs {
        ShardInfoAbs {
            shard_id: self.shard_id,
            namespaces: Seq::new(self.namespaces@.len(), |i: int| self.namespaces@[i]@),
            hash_range: self.hash_range,
            created_at: self.created_at,
            parent_shard: self.parent_shard,
            status: self.status,
        }
    }
}

/// One TPS measurement.
#[derive(Debug, Clone, Copy, PartialEq, Eq, Structural)]
pub struct TPSSample {
    pub timestamp: u64,
    pub tps: u64,
}

/// Load statistics of one shard.  TPS figures are whole transactions
/// per second.
#[derive(Debug, Clone, PartialEq)]
pub struct ShardLoadStats {
    /// Most recent TPS sample.
    pub current_tps: u64,
    /// Mean of the retained samples, rounded down.
    pub average_tps: u64,
    /// Largest TPS sample seen.
    pub peak_tps: u64,
    /// Number of vertices in the shard.
    pub vertex_count: u64,
    /// Total storage size in bytes.
    pub storage_size: u64,
    /// Time of the last update, seconds.
    pub last_update: u64,
    /// Samples from the last hour.
    pub tps_history: Vec<TPSSample>,
}

impl ShardLoadStats {
    /// Fresh statistics with no samples.
    pub fn empty() -> (r: ShardLoadStats)
        ensures
            r.current_tps == 0,
            r.average_tps == 0,
            r.peak_tps == 0,
            r.vertex_count == 0,
            r.storage_size == 0,
            r.last_update == 0,
            r.tps_history@.len() == 0,
    {
        ShardLoadStats {
            current_tps: 0,
            average_tps: 0,
            peak_tps: 0,
            vertex_count: 0,
            storage_size: 0,
            last_update: 0,
            tps_history: Vec::new(),
        }
    }

    /// Copy with a proved equality of the fields.
    pub fn duplicate(&self) -> (r: ShardLoadStats)
        ensures
            r.current_tps == self.current_tps,
            r.average_tps == self.average_tps,
            r.peak_tps == self.peak_tps,
            r.vertex_count == self.vertex_count,
            r.storage_size == self.storage_size,
            r.last_update == self.last_update,
            r.tps_history@ == self.tps_history@,
    {
        let hist = self.tps_history.clone();
        proof {
            assert forall|i: int| 0 <= i < self.tps_history@.len() implies hist@[i]
                == self.tps_history@[i] by {
                assert(vstd::pervasive::cloned::<TPSSample>(self.tps_history@[i], hist@[i]));
            }
            assert(hist@ =~= self.tps_history@);
        }
        ShardLoadStats {
            current_tps: self.current_tps,
            average_tps: self.average_tps,
            peak_tps: self.peak_tps,
            vertex_count: self.vertex_count,
            storage_size: self.storage_size,
            last_update: self.last_update,
            tps_history: hist,
        }
    }
}

/// A planned rebalancing operation.
#[derive(Debug, Clone, PartialEq)]
pub enum ShardOperation {
    /// Split one shard into two fresh ones.
    Split { shard_id: ShardId, new_shard_ids: Vec<ShardId> },
    /// Merge two adjacent shards into one fresh one.
    Merge { shard_ids: Vec<ShardId>, new_shard_id: ShardId },
    /// Move a namespace between shards.
    Reassign { namespace: Vec<u8>, from_shard: ShardId, to_shard: ShardId },
}

/// The hash `h` falls in the shard's half-open range.
pub open spec fn in_range(s: ShardInfoAbs, h: u64) -> bool {
    s.hash_range.start <= h < s.hash_range.end
}

/// Some active shard owns `h`.
pub open spec fn covers(shards: Seq<ShardInfoAbs>, h: u64) -> bool {
    exists|i: int|
        0 <= i < shards.len() && shards[i].status == ShardStatus::Active && in_range(shards[i], h)
}

/// At most one active shard owns any hash.
pub open spec fn no_overlap(shards: Seq<ShardInfoAbs>) -> bool {
    forall|h: u64, i: int, j: int|
        0 <= i < shards.len() && 0 <= j < shards.len() && shards[i].status == ShardStatus::Active
            && shards[j].status == ShardStatus::Active && #[trigger] in_range(shards[i], h)
            && #[trigger] in_range(shards[j], h) ==> i == j
}

/// The active shards partition the hash space below `u64::MAX`.
pub open spec fn partitioned(shards: Seq<ShardInfoAbs>) -> bool {
    &&& forall|h: u64| h < u64::MAX ==> #[trigger] covers(shards, h)
    &&& no_overlap(shards)
}

/// The view of the coordinator's shard list.
pub open spec fn shards_abs(shards: Seq<ShardInfo>) -> Seq<ShardInfoAbs> {
    Seq::new(shards.len(), |i: int| shards[i]@)
}

/// The namespace bytes `default`.
pub open spec fn default_namespace() -> Seq<u8> {
    seq![100u8, 101u8, 102u8, 97u8, 117u8, 108u8, 116u8]
}

/// The string value at top-level JSON key `p`, if the bytes are a
/// JSON object carrying one; a function of the bytes alone.
pub uninterp spec fn json_p_string(data: Seq<u8>) -> Option<Seq<u8>>;

/// Relies on serde_json::from_slice and serde_json::Value::get /
/// as_str: extracts the string at top-level key `p`, a function of
/// the input bytes alone.
#[verifier::external_body]
fn json_protocol_field(data: &Vec<u8>) -> (r: Option<Vec<u8>>)
    ensures
        match r {
            Some(ns) => json_p_string(data@) == Some(ns@),
            None => json_p_string(data@) is None,
        },
{
    match serde_json::from_slice::<serde_json::Value>(data) {
        Ok(v) => match v.get("p").and_then(|p| p.as_str()) {
            Some(s) => Some(s.as_bytes().to_vec()),
            None => None,
        },
        Err(_) => None,
    }
}

/// The namespace a vertex routes by: the JSON `p` value for
/// name-system payloads, else `default`.
pub open spec fn spec_namespace_of(v: VertexAbs) -> Seq<u8> {
    if TransactionData::spec_is_cns(v.transaction_data.user_data) {
        match json_p_string(v.transaction_data.user_data) {
            Some(ns) => ns,
            None => default_namespace(),
        }
    } else {
        default_namespace()
    }
}

/// Big-endian value of the first eight bytes of a digest.
pub open spec fn be64_of_prefix(s: Seq<u8>) -> u64
    recommends
        s.len() >= 8,
{
    ((s[0] as u64) << 56) | ((s[1] as u64) << 48) | ((s[2] as u64) << 40) | ((s[3] as u64) << 32)
        | ((s[4] as u64) << 24) | ((s[5] as u64) << 16) | ((s[6] as u64) << 8) | (s[7] as u64)
}

/// The consistent hash a namespace routes by.
pub open spec fn spec_namespace_hash(ns: Seq<u8>) -> u64 {
    be64_of_prefix(blake3_of(ns))
}

/// The shard a hash routes to: the unique active shard whose range
/// holds it, or shard zero if none does.
pub open spec fn spec_route(shards: Seq<ShardInfoAbs>, h: u64) -> ShardId {
    if covers(shards, h) {
        let i = choose|i: int|
            0 <= i < shards.len() && shards[i].status == ShardStatus::Active && in_range(
                shards[i],
                h,
            );
        shards[i].shard_id
    } else {
        0
    }
}

/// An association list holds a key at most once.
pub open spec fn unique_ns_keys(assignments: Seq<(Vec<u8>, ShardId)>) -> bool {
    forall|i: int, j: int|
        0 <= i < j < assignments.len() ==> assignments[i].0@ != assignments[j].0@
}

/// The memoized shard of a namespace, if any.
pub open spec fn ns_lookup(assignments: Seq<(Vec<u8>, ShardId)>, ns: Seq<u8>) -> Option<ShardId> {
    if exists|i: int| 0 <= i < assignments.len() && assignments[i].0@ == ns {
        let i = choose|i: int| 0 <= i < assignments.len() && assignments[i].0@ == ns;
        Some(assignments[i].1)
    } else {
        None
    }
}

/// Unique shard identifiers.
pub open spec fn unique_shard_ids(shards: Seq<ShardInfoAbs>) -> bool {
    forall|i: int, j: int| 0 <= i < j < shards.len() ==> shards[i].shard_id != shards[j].shard_id
}

/// Unique load-statistics keys.
pub open spec fn unique_stat_keys(stats: Seq<(ShardId, ShardLoadStats)>) -> bool {
    forall|i: int, j: int| 0 <= i < j < stats.len() ==> stats[i].0 != stats[j].0
}

/// The coordinator of dynamic shards.
pub struct ShardCoordinator {
    config: ShardConfig,
    shards: Vec<ShardInfo>,
    load_stats: Vec<(ShardId, ShardLoadStats)>,
    namespace_assignments: Vec<(Vec<u8>, ShardId)>,
    next_shard_id: ShardId,
}

impl ShardCoordinator {
    /// The configuration.
    pub closed spec fn spec_config(self) -> ShardConfig {
        self.config
    }

    /// The shard list, viewed mathematically.
    pub closed spec fn spec_shards(self) -> Seq<ShardInfoAbs> {
        shards_abs(self.shards@)
    }

    /// The load statistics, as an association list.
    pub closed spec fn spec_load_stats(self) -> Seq<(ShardId, ShardLoadStats)> {
        self.load_stats@
    }

    /// The namespace memo, as an association list.
    pub closed spec fn spec_assignments(self) -> Seq<(Vec<u8>, ShardId)> {
        self.namespace_assignments@
    }

    /// The next fresh shard identifier.
    pub closed spec fn spec_next_shard_id(self) -> ShardId {
        self.next_shard_id
    }

    /// Well-formedness: unique keys everywhere, every shard id below
    /// the allocator mark, well-ordered ranges, and the active shards
    /// partitioning the hash space.
    pub open spec fn wf(self) -> bool {
        &&& unique_shard_ids(self.spec_shards())
        &&& unique_stat_keys(self.spec_load_stats())
        &&& unique_ns_keys(self.spec_assignments())
        &&& forall|i: int|
            0 <= i < self.spec_load_stats().len() ==> (#[trigger] self.spec_load_stats()[i]).0
                < self.spec_next_shard_id()
        &&& forall|i: int|
            0 <= i < self.spec_shards().len() ==> (#[trigger] self.spec_shards()[i]).shard_id
                < self.spec_next_shard_id()
        &&& forall|i: int|
            0 <= i < self.spec_shards().len() ==> (#[trigger] self.spec_shards()[i]).hash_range.start
                <= self.spec_shards()[i].hash_range.end
        &&& partitioned(self.spec_shards())
    }
}

/// Ranges laid out back to back cover everything below the bound.
proof fn lemma_consecutive_cover(shards: Seq<ShardInfoAbs>, h: u64)
    requires
        shards.len() >= 1,
        shards[0].hash_range.start == 0,
        forall|i: int|
            0 < i < shards.len() ==> (#[trigger] shards[i].hash_range.start) == shards[
                i - 1
            ].hash_range.end,
        forall|i: int| 0 <= i < shards.len() ==> (#[trigger] shards[i].status) == ShardStatus::Active,
        h < shards[shards.len() - 1].hash_range.end,
    ensures
        covers(shards, h),
    decreases shards.len(),
{
    let n = shards.len() as int;
    if shards[n - 1].hash_range.start <= h {
        assert(shards[n - 1].status == ShardStatus::Active && in_range(shards[n - 1], h));
    } else {
        if n == 1 {
            assert(false);
        } else {
            let prefix = shards.drop_last();
            assert(prefix[0].hash_range.start == 0);
            assert(h < prefix[prefix.len() - 1].hash_range.end);
            lemma_consecutive_cover(prefix, h);
            let i = choose|i: int|
                0 <= i < prefix.len() && prefix[i].status == ShardStatus::Active && in_range(
                    prefix[i],
                    h,
                );
            assert(shards[i].status == ShardStatus::Active && in_range(shards[i], h));
        }
    }
}

/// Back-to-back ranges do not overlap.
proof fn lemma_consecutive_disjoint(shards: Seq<ShardInfoAbs>)
    requires
        forall|i: int|
            0 < i < shards.len() ==> (#[trigger] shards[i].hash_range.start) == shards[
                i - 1
            ].hash_range.end,
        forall|i: int|
            0 <= i < shards.len() ==> (#[trigger] shards[i].hash_range.start) <= shards[
                i
            ].hash_range.end,
    ensures
        no_overlap(shards),
{
    assert forall|i: int, j: int| 0 <= i < j < shards.len() implies shards[i].hash_range.end
        <= shards[j].hash_range.start by {
        lemma_range_chain(shards, i, j);
    }
}

/// The ends of back-to-back ranges are monotone.
proof fn lemma_range_chain(shards: Seq<ShardInfoAbs>, i: int, j: int)
    requires
        forall|k: int|
            0 < k < shards.len() ==> (#[trigger] shards[k].hash_range.start) == shards[
                k - 1
            ].hash_range.end,
        forall|k: int|
            0 <= k < shards.len() ==> (#[trigger] shards[k].hash_range.start) <= shards[
                k
            ].hash_range.end,
        0 <= i < j < shards.len(),
    ensures
        shards[i].hash_range.end <= shards[j].hash_range.start,
    decreases j - i,
{
    if j == i + 1 {
    } else {
        lemma_range_chain(shards, i, j - 1);
    }
}

impl ShardCoordinator {
    /// Create a coordinator with `initial_shard_count` shards slicing
    /// the hash space evenly; the last slice extends to the top.
    pub fn new(config: ShardConfig) -> (r: ShardCoordinator)
        requires
            config.initial_shard_count >= 1,
        ensures
            r.wf(),
            r.spec_config() == config,
            r.spec_shards().len() == config.initial_shard_count,
            forall|i: int|
                0 <= i < r.spec_shards().len() ==> (#[trigger] r.spec_shards()[i]).status
                    == ShardStatus::Active && r.spec_shards()[i].shard_id == i
                    && r.spec_shards()[i].namespaces.len() == 0,
            forall|i: int|
                0 <= i < r.spec_shards().len() ==> (#[trigger] r.spec_shards()[i]).hash_range.start
                    == (u64::MAX as int / config.initial_shard_count as int) * i
                    && r.spec_shards()[i].hash_range.end == (if i
                    == config.initial_shard_count - 1 {
                    u64::MAX as int
                } else {
                    (u64::MAX as int / config.initial_shard_count as int) * (i + 1)
                }),
            r.spec_assignments().len() == 0,
            r.spec_next_shard_id() == config.initial_shard_count,
            r.spec_load_stats().len() == config.initial_shard_count,
            forall|i: int|
                0 <= i < r.spec_load_stats().len() ==> (#[trigger] r.spec_load_stats()[i]).0
                    == i && is_fresh_stats(r.spec_load_stats()[i].1),
    {
        let n = config.initial_shard_count;
        let width = u64::MAX / (n as u64);
        let created = now_secs();
        let mut shards: Vec<ShardInfo> = Vec::new();
        let mut load_stats: Vec<(ShardId, ShardLoadStats)> = Vec::new();
        let mut i: u32 = 0;
        while i < n
            invariant
                1 <= n,
                width == u64::MAX / (n as u64),
                i <= n,
                shards@.len() == i,
                load_stats@.len() == i,
                forall|k: int|
                    0 <= k < i ==> (#[trigger] shards@[k]@).shard_id == k && shards@[k]@.status
                        == ShardStatus::Active && shards@[k]@.namespaces.len() == 0,
                forall|k: int|
                    0 <= k < i ==> (#[trigger] shards@[k]@).hash_range.start == width * k
                        && shards@[k]@.hash_range.end == (if k == n - 1 {
                        u64::MAX
                    } else {
                        (width * (k + 1)) as u64
                    }),
                forall|k: int|
                    0 <= k < i ==> (#[trigger] load_stats@[k]).0 == k && is_fresh_stats(
                        load_stats@[k].1,
                    ),
            decreases n - i,
        {
            proof {
                assert(width * (i + 1) == width * i + width) by (nonlinear_arith);
                assert(width * (i + 1) <= u64::MAX) by (nonlinear_arith)
                    requires
                        width == u64::MAX / (n as u64),
                        0 <= i < n,
                ;
                assert(width * i >= 0) by (nonlinear_arith)
                    requires
                        width >= 0 && i >= 0,
                ;
            }
            let start = width * (i as u64);
            let end = if i == n - 1 {
                u64::MAX
            } else {
                width * ((i as u64) + 1)
            };
            let info = ShardInfo {
                shard_id: i,
                namespaces: Vec::new(),
                hash_range: HashRange { start, end },
                created_at: created,
                parent_shard: None,
                status: ShardStatus::Active,
            };
            shards.push(info);
            load_stats.push((i, ShardLoadStats::empty()));
            i = i + 1;
        }
        let r = ShardCoordinator {
            config,
            shards,
            load_stats,
            namespace_assignments: Vec::new(),
            next_shard_id: n,
        };
        proof {
            let abs = r.spec_shards();
            assert(abs.len() == n);
            assert(abs[0].hash_range.start == 0) by {
                assert(width * 0 == 0) by (nonlinear_arith);
            }
            assert forall|k: int| 0 < k < abs.len() implies (#[trigger] abs[k].hash_range.start)
                == abs[k - 1].hash_range.end by {
                assert(width * k <= u64::MAX) by (nonlinear_arith)
                    requires
                        width == u64::MAX / (n as u64),
                        0 <= k < n,
                        n >= 1,
                ;
                assert(abs[k].hash_range.start == width * k);
                assert(abs[k - 1].hash_range.end == (width * k) as u64);
            }
            assert forall|k: int| 0 <= k < abs.len() implies (#[trigger] abs[k].hash_range.start)
                <= abs[k].hash_range.end by {
                if k == n - 1 {
                    assert(width * k <= u64::MAX) by (nonlinear_arith)
                        requires
                            width == u64::MAX / (n as u64),
                            0 <= k < n,
                            n >= 1,
                    ;
                } else {
                    assert(width * (k + 1) <= u64::MAX) by (nonlinear_arith)
                        requires
                            width == u64::MAX / (n as u64),
                            0 <= k + 1 < n,
                            n >= 1,
                    ;
                    assert(width * k <= width * (k + 1)) by (nonlinear_arith)
                        requires
                            width >= 0 && k >= 0,
                    ;
                }
            }
            assert forall|h: u64| h < u64::MAX implies #[trigger] covers(abs, h) by {
                assert(abs[abs.len() - 1].hash_range.end == u64::MAX);
                lemma_consecutive_cover(abs, h);
            }
            lemma_consecutive_disjoint(abs);
            assert forall|k: int| 0 <= k < abs.len() implies (#[trigger] abs[k].hash_range.start)
                == (u64::MAX as int / n as int) * k && abs[k].hash_range.end == (if k == n - 1 {
                u64::MAX as int
            } else {
                (u64::MAX as int / n as int) * (k + 1)
            }) by {
                if k != n - 1 {
                    assert(width * (k + 1) <= u64::MAX) by (nonlinear_arith)
                        requires
                            width == u64::MAX / (n as u64),
                            0 <= k + 1 < n,
                            n >= 1,
                    ;
                    assert(width * (k + 1) >= 0) by (nonlinear_arith)
                        requires
                            width >= 0 && k >= 0,
                    ;
                }
            }
        }
        r
    }

    /// Extract the routing namespace from a vertex's payload.
    pub fn extract_cns_namespace(&self, vertex: &DAGVertex) -> (r: Vec<u8>)
        ensures
            r@ == spec_namespace_of(vertex@),
    {
        if vertex.transaction_data.is_cns_transaction() {
            match json_protocol_field(&vertex.transaction_data.user_data) {
                Some(ns) => {
                    return ns;
                },
                None => {},
            }
        }
        let mut d: Vec<u8> = Vec::new();
        d.push(100u8);
        d.push(101u8);
        d.push(102u8);
        d.push(97u8);
        d.push(117u8);
        d.push(108u8);
        d.push(116u8);
        assert(d@ =~= default_namespace());
        d
    }

    /// The consistent hash of a namespace: the big-endian value of
    /// the first eight bytes of its digest.
    pub fn calculate_namespace_hash(&self, namespace: &Vec<u8>) -> (r: u64)
        ensures
            r == spec_namespace_hash(namespace@),
    {
        let digest = blake3_hash32(namespace);
        ((digest[0] as u64) << 56) | ((digest[1] as u64) << 48) | ((digest[2] as u64) << 40) | ((
        digest[3] as u64) << 32) | ((digest[4] as u64) << 24) | ((digest[5] as u64) << 16) | ((
        digest[6] as u64) << 8) | (digest[7] as u64)
    }

    /// The active shard owning `hash`, or shard zero as a fallback.
    fn find_shard_for_hash(&self, hash: u64) -> (r: ShardId)
        requires
            self.wf(),
        ensures
            r == spec_route(self.spec_shards(), hash),
    {
        let n = self.shards.len();
        let mut i: usize = 0;
        while i < n
            invariant
                self.wf(),
                n == self.shards@.len(),
                i <= n,
                forall|k: int|
                    0 <= k < i ==> !((#[trigger] self.spec_shards()[k]).status
                        == ShardStatus::Active && in_range(self.spec_shards()[k], hash)),
            decreases n - i,
        {
            let s = &self.shards[i];
            if s.status == ShardStatus::Active && s.hash_range.start <= hash && hash
                < s.hash_range.end {
                proof {
                    assert(self.spec_shards()[i as int].status == ShardStatus::Active && in_range(
                        self.spec_shards()[i as int],
                        hash,
                    ));
                    assert(covers(self.spec_shards(), hash));
                    let w = choose|k: int|
                        0 <= k < self.spec_shards().len() && self.spec_shards()[k].status
                            == ShardStatus::Active && in_range(self.spec_shards()[k], hash);
                    assert(w == i as int);
                }
                return s.shard_id;
            }
            i = i + 1;
        }
        proof {
            assert(!covers(self.spec_shards(), hash));
        }
        0
    }

    /// Memoized namespace lookup.
    fn lookup_assignment(&self, ns: &Vec<u8>) -> (r: Option<ShardId>)
        requires
            unique_ns_keys(self.spec_assignments()),
        ensures
            r == ns_lookup(self.spec_assignments(), ns@),
    {
        let n = self.namespace_assignments.len();
        let mut i: usize = 0;
        while i < n
            invariant
                unique_ns_keys(self.spec_assignments()),
                n == self.namespace_assignments@.len(),
                i <= n,
                forall|k: int| 0 <= k < i ==> (#[trigger] self.namespace_assignments@[k].0@) != ns@,
            decreases n - i,
        {
            if bytes_eq(&self.namespace_assignments[i].0, ns) {
                proof {
                    let w = choose|k: int|
                        0 <= k < self.namespace_assignments@.len()
                            && self.namespace_assignments@[k].0@ == ns@;
                    assert(w == i as int);
                }
                return Some(self.namespace_assignments[i].1);
            }
            i = i + 1;
        }
        proof {
            assert(!exists|k: int|
                0 <= k < self.namespace_assignments@.len() && self.namespace_assignments@[k].0@
                    == ns@);
        }
        None
    }

    /// Assign a shard for a vertex by the consistent hash of its
    /// namespace; the assignment is memoized, so equal namespaces
    /// keep routing to the same shard until a rebalance moves them.
    pub fn assign_shard(&mut self, vertex: &DAGVertex) -> (r: ShardId)
        requires
            old(self).wf(),
        ensures
            final(self).wf(),
            final(self).spec_shards().len() == old(self).spec_shards().len(),
            final(self).spec_config() == old(self).spec_config(),
            final(self).spec_next_shard_id() == old(self).spec_next_shard_id(),
            final(self).spec_load_stats() == old(self).spec_load_stats(),
            assign_effect(*old(self), *final(self), vertex@, r),
    {
        let ns = self.extract_cns_namespace(vertex);
        match self.lookup_assignment(&ns) {
            Some(id) => {
                return id;
            },
            None => {},
        }
        let h = self.calculate_namespace_hash(&ns);
        let shard_id = self.find_shard_for_hash(h);
        let ghost old_assignments = self.namespace_assignments@;
        let ns_copy = clone_bytes(&ns);
        self.namespace_assignments.push((ns_copy, shard_id));
        proof {
            assert forall|i: int, j: int|
                0 <= i < j < self.namespace_assignments@.len() implies (
            #[trigger] self.namespace_assignments@[i].0@)
                != (#[trigger] self.namespace_assignments@[j].0@) by {
                if j == old_assignments.len() as int {
                    assert(ns_lookup(old_assignments, ns@) is None);
                    assert(self.namespace_assignments@[j].0@ == ns@);
                }
            }
            let w = choose|k: int|
                0 <= k < self.namespace_assignments@.len() && self.namespace_assignments@[k].0@
                    == ns@;
            assert(self.namespace_assignments@[old_assignments.len() as int].0@ == ns@);
            assert(w == old_assignments.len() as int);
            assert forall|other: Seq<u8>| other != ns@ implies #[trigger] ns_lookup(
                self.namespace_assignments@,
                other,
            ) == ns_lookup(old_assignments, other) by {
                if exists|k: int|
                    0 <= k < old_assignments.len() && old_assignments[k].0@ == other {
                    let k1 = choose|k: int|
                        0 <= k < old_assignments.len() && old_assignments[k].0@ == other;
                    assert(self.namespace_assignments@[k1].0@ == other);
                    let k2 = choose|k: int|
                        0 <= k < self.namespace_assignments@.len()
                            && self.namespace_assignments@[k].0@ == other;
                    assert(k2 < old_assignments.len());
                } else {
                    if exists|k: int|
                        0 <= k < self.namespace_assignments@.len()
                            && self.namespace_assignments@[k].0@ == other {
                        let k2 = choose|k: int|
                            0 <= k < self.namespace_assignments@.len()
                                && self.namespace_assignments@[k].0@ == other;
                        assert(k2 == old_assignments.len() as int);
                        assert(other == ns@);
                    }
                }
            }
        }
        // Record the namespace on the owning shard, if it is known.
        match self.find_shard_index(shard_id) {
            Some(i) => {
                let ghost old_shards = self.spec_shards();
                let ns_copy2 = clone_bytes(&ns);
                let mut entry = self.shards.remove(i);
                entry.namespaces.push(ns_copy2);
                self.shards.insert(i, entry);
                proof {
                    assert(self.shards@ =~= old(self).shards@.update(i as int, entry));
                    assert forall|k: int|
                        0 <= k < self.spec_shards().len() implies unchanged_but_ns(
                        old_shards[k],
                        #[trigger] self.spec_shards()[k],
                    ) by {}
                    lemma_ns_only_preserves(old_shards, self.spec_shards());
                    assert forall|j: int|
                        0 <= j < old_shards.len() && (#[trigger] old_shards[j]).shard_id
                            != shard_id implies self.spec_shards()[j] == old_shards[j] by {
                        if j == i as int {
                            assert(old_shards[j].shard_id == shard_id);
                        }
                    }
                    assert(self.spec_shards()[i as int].namespaces =~= old_shards[
                        i as int
                    ].namespaces.push(ns@));
                    assert forall|j: int|
                        0 <= j < old_shards.len() && (#[trigger] old_shards[j]).shard_id
                            == shard_id implies self.spec_shards()[j].namespaces == old_shards[
                        j
                    ].namespaces.push(ns@) by {
                        assert(j == i as int);
                    }
                }
            },
            None => {},
        }
        shard_id
    }

    /// Index of the shard with the given identifier.
    fn find_shard_index(&self, id: ShardId) -> (r: Option<usize>)
        ensures
            match r {
                Some(i) => i < self.spec_shards().len() && self.spec_shards()[i as int].shard_id
                    == id,
                None => forall|k: int|
                    0 <= k < self.spec_shards().len() ==> (#[trigger] self.spec_shards()[k]).shard_id
                        != id,
            },
    {
        let m = self.shards.len();
        let mut i: usize = 0;
        while i < m
            invariant
                i <= m,
                m == self.shards@.len(),
                forall|k: int|
                    0 <= k < i ==> (#[trigger] self.spec_shards()[k]).shard_id != id,
            decreases m - i,
        {
            if self.shards[i].shard_id == id {
                return Some(i);
            }
            i = i + 1;
        }
        None
    }
}

/// Two shard views equal except possibly the namespace set.
pub open spec fn unchanged_but_ns(a: ShardInfoAbs, b: ShardInfoAbs) -> bool {
    a.shard_id == b.shard_id && a.hash_range == b.hash_range && a.status == b.status
        && a.created_at == b.created_at && a.parent_shard == b.parent_shard
}

/// Changing only namespace sets preserves the routing invariants.
proof fn lemma_ns_only_preserves(pre: Seq<ShardInfoAbs>, post: Seq<ShardInfoAbs>)
    requires
        pre.len() == post.len(),
        forall|k: int| 0 <= k < pre.len() ==> unchanged_but_ns(pre[k], #[trigger] post[k]),
        unique_shard_ids(pre),
        partitioned(pre),
        forall|i: int| 0 <= i < pre.len() ==> (#[trigger] pre[i]).hash_range.start <= pre[i].hash_range.end,
    ensures
        unique_shard_ids(post),
        partitioned(post),
        forall|i: int|
            0 <= i < post.len() ==> (#[trigger] post[i]).hash_range.start
                <= post[i].hash_range.end,
{
    assert forall|h: u64| h < u64::MAX implies #[trigger] covers(post, h) by {
        assert(covers(pre, h));
        let i = choose|i: int|
            0 <= i < pre.len() && pre[i].status == ShardStatus::Active && in_range(pre[i], h);
        assert(post[i].status == ShardStatus::Active && in_range(post[i], h));
    }
    assert forall|h: u64, i: int, j: int|
        0 <= i < post.len() && 0 <= j < post.len() && post[i].status == ShardStatus::Active
            && post[j].status == ShardStatus::Active && #[trigger] in_range(post[i], h)
            && #[trigger] in_range(post[j], h) implies i == j by {
        assert(pre[i].status == ShardStatus::Active && in_range(pre[i], h));
        assert(pre[j].status == ShardStatus::Active && in_range(pre[j], h));
    }
}

/// Byte-vector equality.
fn bytes_eq(a: &Vec<u8>, b: &Vec<u8>) -> (r: bool)
    ensures
        r == (a@ == b@),
{
    if a.len() != b.len() {
        return false;
    }
    let mut i: usize = 0;
    while i < a.len()
        invariant
            a@.len() == b@.len(),
            i <= a@.len(),
            forall|k: int| 0 <= k < i ==> a@[k] == b@[k],
        decreases a@.len() - i,
    {
        if a[i] != b[i] {
            return false;
        }
        i = i + 1;
    }
    assert(a@ =~= b@);
    true
}


// ---------------------------------------------------------------------
// Load statistics
// ---------------------------------------------------------------------
/// Sum of the TPS values of a sample list.
pub open spec fn sum_tps(s: Seq<TPSSample>) -> int
    decreases s.len(),
{
    if s.len() == 0 {
        0
    } else {
        sum_tps(s.drop_last()) + s.last().tps
    }
}

/// The samples young enough to keep.
pub open spec fn retained(h: Seq<TPSSample>, cutoff: u64) -> Seq<TPSSample> {
    h.filter(|s: TPSSample| s.timestamp >= cutoff)
}

/// The load statistics recorded for a shard, if any.
pub open spec fn stat_lookup(stats: Seq<(ShardId, ShardLoadStats)>, id: ShardId) -> Option<
    ShardLoadStats,
> {
    if exists|i: int| 0 <= i < stats.len() && stats[i].0 == id {
        let i = choose|i: int| 0 <= i < stats.len() && stats[i].0 == id;
        Some(stats[i].1)
    } else {
        None
    }
}

/// How one sample updates a shard's statistics: the sample is
/// appended, samples older than an hour are dropped, the average is
/// the floor of the mean of what remains, the peak is monotone.
pub open spec fn stats_updated(
    old_st: ShardLoadStats,
    new_st: ShardLoadStats,
    tps: u64,
    timestamp: u64,
) -> bool {
    let cutoff = if timestamp >= 3600 {
        (timestamp - 3600) as u64
    } else {
        0u64
    };
    let hist = retained(old_st.tps_history@.push(TPSSample { timestamp, tps }), cutoff);
    &&& new_st.current_tps == tps
    &&& new_st.peak_tps == if old_st.peak_tps >= tps {
        old_st.peak_tps
    } else {
        tps
    }
    &&& new_st.last_update == timestamp
    &&& new_st.tps_history@ == hist
    &&& hist.len() > 0
    &&& new_st.average_tps == sum_tps(hist) / (hist.len() as int)
    &&& new_st.vertex_count == old_st.vertex_count
    &&& new_st.storage_size == old_st.storage_size
}

/// What recording one sample does to the coordinator: the addressed
/// shard's statistics absorb the sample, every other entry is
/// untouched, and the topology does not move.
pub open spec fn record_effect(
    pre: ShardCoordinator,
    post: ShardCoordinator,
    shard_id: ShardId,
    tps: u64,
    timestamp: u64,
) -> bool {
    &&& post.spec_shards() == pre.spec_shards()
    &&& post.spec_assignments() == pre.spec_assignments()
    &&& post.spec_next_shard_id() == pre.spec_next_shard_id()
    &&& post.spec_config() == pre.spec_config()
    &&& post.spec_load_stats().len() == pre.spec_load_stats().len()
    &&& match (stat_lookup(pre.spec_load_stats(), shard_id), stat_lookup(
        post.spec_load_stats(),
        shard_id,
    )) {
        (Some(o), Some(n)) => stats_updated(o, n, tps, timestamp),
        (None, None) => post.spec_load_stats() == pre.spec_load_stats(),
        _ => false,
    }
    &&& forall|id2: ShardId|
        id2 != shard_id ==> #[trigger] stat_lookup(post.spec_load_stats(), id2) == stat_lookup(
            pre.spec_load_stats(),
            id2,
        )
}

impl ShardCoordinator {
    /// Index of the statistics entry for a shard.
    fn find_stats_index(&self, id: ShardId) -> (r: Option<usize>)
        requires
            unique_stat_keys(self.spec_load_stats()),
        ensures
            match r {
                Some(i) => i < self.spec_load_stats().len() && self.spec_load_stats()[i as int].0
                    == id && stat_lookup(self.spec_load_stats(), id) == Some(
                    self.spec_load_stats()[i as int].1,
                ),
                None => stat_lookup(self.spec_load_stats(), id) is None,
            },
    {
        let m = self.load_stats.len();
        let mut i: usize = 0;
        while i < m
            invariant
                unique_stat_keys(self.spec_load_stats()),
                m == self.load_stats@.len(),
                i <= m,
                forall|k: int| 0 <= k < i ==> (#[trigger] self.load_stats@[k]).0 != id,
            decreases m - i,
        {
            if self.load_stats[i].0 == id {
                proof {
                    let w = choose|k: int|
                        0 <= k < self.load_stats@.len() && self.load_stats@[k].0 == id;
                    assert(w == i as int);
                }
                return Some(i);
            }
            i = i + 1;
        }
        proof {
            assert(!exists|k: int| 0 <= k < self.load_stats@.len() && self.load_stats@[k].0 == id);
        }
        None
    }

    /// Record one TPS sample for a shard at an explicit time: append
    /// it, drop samples older than an hour, refresh the average and
    /// the peak.  Unknown shards are ignored.
    #[verifier::rlimit(100)]
    #[verifier::spinoff_prover]
    pub fn record_load_sample(&mut self, shard_id: ShardId, tps: u64, timestamp: u64)
        requires
            old(self).wf(),
        ensures
            final(self).wf(),
            record_effect(*old(self), *final(self), shard_id, tps, timestamp),
    {
        broadcast use vstd::seq_lib::group_seq_properties;

        let k = match self.find_stats_index(shard_id) {
            Some(k) => k,
            None => {
                return ;
            },
        };
        let (id, entry) = self.load_stats.remove(k);
        let ghost old_st = entry;
        let mut st = entry.duplicate();
        st.current_tps = tps;
        if tps > st.peak_tps {
            st.peak_tps = tps;
        }
        st.last_update = timestamp;
        st.tps_history.push(TPSSample { timestamp, tps });
        let cutoff: u64 = if timestamp >= 3600 {
            timestamp - 3600
        } else {
            0
        };
        let ghost appended = st.tps_history@;
        let mut kept: Vec<TPSSample> = Vec::new();
        let n = st.tps_history.len();
        let mut i: usize = 0;
        while i < n
            invariant
                n == st.tps_history@.len(),
                i <= n,
                appended == st.tps_history@,
                kept@ == st.tps_history@.take(i as int).filter(
                    |s: TPSSample| s.timestamp >= cutoff,
                ),
            decreases n - i,
        {
            let sample = st.tps_history[i];
            proof {
                assert(appended.take(i + 1) =~= appended.take(i as int).push(
                    appended[i as int],
                ));
                appended.take(i as int).lemma_filter_push(
                    appended[i as int],
                    |s: TPSSample| s.timestamp >= cutoff,
                );
            }
            if sample.timestamp >= cutoff {
                kept.push(sample);
            }
            i = i + 1;
        }
        proof {
            assert(appended.take(n as int) =~= appended);
            assert(kept@ == retained(appended, cutoff));
            let last = appended[appended.len() - 1];
            assert(last.timestamp >= cutoff);
            assert(appended.take(n as int).filter(|s: TPSSample| s.timestamp >= cutoff).contains(
                last,
            )) by {
                assert(appended.take(n as int) =~= appended.take(n - 1).push(last));
                appended.take(n - 1).lemma_filter_push(
                    last,
                    |s: TPSSample| s.timestamp >= cutoff,
                );
                assert(appended.take(n - 1).filter(|s: TPSSample| s.timestamp >= cutoff).push(
                    last,
                ).last() == last);
            }
            assert(kept@.len() > 0);
        }
        st.tps_history = kept;
        // Mean of the retained samples, in wide arithmetic.
        let m = st.tps_history.len();
        let mut acc: u128 = 0;
        let mut j: usize = 0;
        while j < m
            invariant
                m == st.tps_history@.len(),
                j <= m,
                acc as int == sum_tps(st.tps_history@.take(j as int)),
                acc <= (j as int) * (u64::MAX as int),
            decreases m - j,
        {
            let sample = st.tps_history[j];
            proof {
                assert(st.tps_history@.take(j + 1).drop_last() =~= st.tps_history@.take(
                    j as int,
                ));
                assert(st.tps_history@.take(j + 1).last() == st.tps_history@[j as int]);
            }
            acc = acc + sample.tps as u128;
            j = j + 1;
        }
        proof {
            assert(st.tps_history@.take(m as int) =~= st.tps_history@);
        }
        if m > 0 {
            let avg_wide = acc / (m as u128);
            proof {
                vstd::arithmetic::div_mod::lemma_div_is_ordered(
                    acc as int,
                    (m as int) * (u64::MAX as int),
                    m as int,
                );
                vstd::arithmetic::div_mod::lemma_div_multiples_vanish(
                    u64::MAX as int,
                    m as int,
                );
            }
            st.average_tps = avg_wide as u64;
        }
        let ghost new_st = st;
        self.load_stats.insert(k, (id, st));
        proof {
            assert(self.load_stats@ =~= old(self).load_stats@.update(k as int, (id, new_st)));
            assert(stats_updated(old_st, new_st, tps, timestamp));
            assert forall|i2: int, j2: int|
                0 <= i2 < j2 < self.load_stats@.len() implies (#[trigger] self.load_stats@[i2]).0
                != (#[trigger] self.load_stats@[j2]).0 by {
                assert(old(self).load_stats@[i2].0 == self.load_stats@[i2].0 || i2 == k);
            }
            assert(self.spec_load_stats()[k as int] == (id, new_st));
            let w = choose|i2: int|
                0 <= i2 < self.spec_load_stats().len() && self.spec_load_stats()[i2].0 == shard_id;
            assert(self.spec_load_stats()[k as int].0 == shard_id);
            assert(w == k as int);
            assert(stat_lookup(self.spec_load_stats(), shard_id) == Some(new_st));
            assert(stat_lookup(old(self).spec_load_stats(), shard_id) == Some(old_st));
            assert forall|id2: ShardId| id2 != shard_id implies #[trigger] stat_lookup(
                self.spec_load_stats(),
                id2,
            ) == stat_lookup(old(self).spec_load_stats(), id2) by {
                if exists|i2: int|
                    0 <= i2 < old(self).spec_load_stats().len() && old(self).spec_load_stats()[
                        i2
                    ].0 == id2 {
                    let wp = choose|i2: int|
                        0 <= i2 < old(self).spec_load_stats().len() && old(
                            self,
                        ).spec_load_stats()[i2].0 == id2;
                    assert(wp != k as int);
                    assert(self.spec_load_stats()[wp].0 == id2);
                    let wq = choose|i2: int|
                        0 <= i2 < self.spec_load_stats().len() && self.spec_load_stats()[i2].0
                            == id2;
                    assert(wq == wp);
                } else {
                    assert forall|i2: int|
                        0 <= i2 < self.spec_load_stats().len() implies (
                    #[trigger] self.spec_load_stats()[i2]).0 != id2 by {
                        if i2 == k as int {
                        } else {
                            assert(old(self).spec_load_stats()[i2].0 != id2);
                        }
                    }
                }
            }
        }
    }

    /// Record a TPS sample stamped with the current wall clock.
    pub fn update_load_stats(&mut self, shard_id: ShardId, tps: u64)
        requires
            old(self).wf(),
        ensures
            final(self).wf(),
            exists|t: u64| record_effect(*old(self), *final(self), shard_id, tps, t),
    {
        let t = now_secs();
        self.record_load_sample(shard_id, tps, t);
    }

    /// The load statistics of a shard, if known.
    pub fn get_load_stats(&self, shard_id: ShardId) -> (r: Option<ShardLoadStats>)
        requires
            self.wf(),
        ensures
            match r {
                Some(st) => exists|i: int|
                    0 <= i < self.spec_load_stats().len() && (#[trigger] self.spec_load_stats()[
                        i
                    ]).0 == shard_id && st.current_tps == self.spec_load_stats()[i].1.current_tps
                        && st.average_tps == self.spec_load_stats()[i].1.average_tps
                        && st.peak_tps == self.spec_load_stats()[i].1.peak_tps
                        && st.tps_history@ == self.spec_load_stats()[i].1.tps_history@,
                None => stat_lookup(self.spec_load_stats(), shard_id) is None,
            },
    {
        match self.find_stats_index(shard_id) {
            Some(i) => Some(self.load_stats[i].1.duplicate()),
            None => None,
        }
    }

    /// Information about a shard, if known.
    pub fn get_shard_info(&self, shard_id: ShardId) -> (r: Option<ShardInfo>)
        ensures
            match r {
                Some(info) => exists|i: int|
                    0 <= i < self.spec_shards().len() && (#[trigger] self.spec_shards()[i]).shard_id
                        == shard_id && info@ == self.spec_shards()[i],
                None => forall|i: int|
                    0 <= i < self.spec_shards().len() ==> (#[trigger] self.spec_shards()[
                        i
                    ]).shard_id != shard_id,
            },
    {
        match self.find_shard_index(shard_id) {
            Some(i) => {
                let entry = &self.shards[i];
                let mut namespaces: Vec<Vec<u8>> = Vec::new();
                let mut j: usize = 0;
                let nn = entry.namespaces.len();
                while j < nn
                    invariant
                        nn == entry.namespaces@.len(),
                        j <= nn,
                        namespaces@.len() == j,
                        forall|k: int| 0 <= k < j ==> (#[trigger] namespaces@[k]@) == entry.namespaces@[k]@,
                    decreases nn - j,
                {
                    namespaces.push(clone_bytes(&entry.namespaces[j]));
                    j = j + 1;
                }
                let info = ShardInfo {
                    shard_id: entry.shard_id,
                    namespaces,
                    hash_range: entry.hash_range,
                    created_at: entry.created_at,
                    parent_shard: entry.parent_shard,
                    status: entry.status,
                };
                proof {
                    assert(info@.namespaces =~= entry@.namespaces);
                }
                Some(info)
            },
            None => None,
        }
    }

    /// Number of active shards, saturating at the 32-bit maximum.
    pub fn get_active_shard_count(&self) -> (r: u32)
        ensures
            r as nat == if count_active(self.spec_shards()) <= u32::MAX as nat {
                count_active(self.spec_shards())
            } else {
                u32::MAX as nat
            },
    {
        let n = self.shards.len();
        let mut acc: u64 = 0;
        let mut i: usize = 0;
        while i < n
            invariant
                n == self.shards@.len(),
                i <= n,
                acc <= i,
                acc as nat == count_active(self.spec_shards().take(i as int)),
            decreases n - i,
        {
            proof {
                assert(self.spec_shards().take(i + 1).drop_last() =~= self.spec_shards().take(
                    i as int,
                ));
                assert(self.spec_shards().take(i + 1).last() == self.spec_shards()[i as int]);
            }
            if self.shards[i].status == ShardStatus::Active {
                acc = acc + 1;
            }
            i = i + 1;
        }
        proof {
            assert(self.spec_shards().take(n as int) =~= self.spec_shards());
        }
        if acc > (u32::MAX as u64) {
            u32::MAX
        } else {
            acc as u32
        }
    }
}

/// Number of active shards in a list.
pub open spec fn count_active(shards: Seq<ShardInfoAbs>) -> nat
    decreases shards.len(),
{
    if shards.len() == 0 {
        0
    } else {
        count_active(shards.drop_last()) + if shards.last().status == ShardStatus::Active {
            1nat
        } else {
            0nat
        }
    }
}

/// Every hash below the top value is owned by exactly one active
/// shard of a well-formed coordinator; `u64::MAX` itself lies outside
/// every half-open range and falls back to shard zero on routing.
pub proof fn lemma_active_shards_partition(c: ShardCoordinator, h: u64)
    requires
        c.wf(),
        h < u64::MAX,
    ensures
        covers(c.spec_shards(), h),
        forall|i: int, j: int|
            0 <= i < c.spec_shards().len() && 0 <= j < c.spec_shards().len()
                && c.spec_shards()[i].status == ShardStatus::Active && c.spec_shards()[j].status
                == ShardStatus::Active && #[trigger] in_range(c.spec_shards()[i], h)
                && #[trigger] in_range(c.spec_shards()[j], h) ==> i == j,
{
}

/// What one assignment promises: a memoized namespace keeps its
/// shard, a fresh one is routed by its consistent hash and memoized,
/// and the chosen shard's namespace set gains the namespace.  No
/// shard's identifier, range or status moves.
pub open spec fn assign_effect(
    pre: ShardCoordinator,
    post: ShardCoordinator,
    v: VertexAbs,
    r: ShardId,
) -> bool {
    let ns = spec_namespace_of(v);
    &&& post.spec_shards().len() == pre.spec_shards().len()
    &&& forall|j: int|
        0 <= j < pre.spec_shards().len() ==> unchanged_but_ns(
            pre.spec_shards()[j],
            #[trigger] post.spec_shards()[j],
        )
    &&& forall|j: int|
        0 <= j < pre.spec_shards().len() && (#[trigger] pre.spec_shards()[j]).shard_id != r
            ==> post.spec_shards()[j] == pre.spec_shards()[j]
    &&& match ns_lookup(pre.spec_assignments(), ns) {
        Some(id) => r == id && post.spec_assignments() == pre.spec_assignments()
            && post.spec_shards() == pre.spec_shards(),
        None => r == spec_route(pre.spec_shards(), spec_namespace_hash(ns)) && ns_lookup(
            post.spec_assignments(),
            ns,
        ) == Some(r) && forall|j: int|
            0 <= j < pre.spec_shards().len() && (#[trigger] pre.spec_shards()[j]).shard_id == r
                ==> post.spec_shards()[j].namespaces == pre.spec_shards()[j].namespaces.push(ns),
    }
    &&& forall|other: Seq<u8>|
        other != ns ==> #[trigger] ns_lookup(post.spec_assignments(), other) == ns_lookup(
            pre.spec_assignments(),
            other,
        )
}

/// Shard assignment is pure in (namespace, topology): two vertices
/// with equal namespaces, assigned one after the other, land on the
/// same shard.
pub proof fn lemma_assignment_deterministic(
    c0: ShardCoordinator,
    c1: ShardCoordinator,
    c2: ShardCoordinator,
    v1: VertexAbs,
    v2: VertexAbs,
    r1: ShardId,
    r2: ShardId,
)
    requires
        spec_namespace_of(v1) == spec_namespace_of(v2),
        assign_effect(c0, c1, v1, r1),
        assign_effect(c1, c2, v2, r2),
    ensures
        r2 == r1,
{
    let ns = spec_namespace_of(v1);
    match ns_lookup(c0.spec_assignments(), ns) {
        Some(id) => {
            assert(ns_lookup(c1.spec_assignments(), ns) == Some(id));
        },
        None => {
            assert(ns_lookup(c1.spec_assignments(), ns) == Some(r1));
        },
    }
}


// ---------------------------------------------------------------------
// Rebalancing
// ---------------------------------------------------------------------
/// A fresh, zeroed statistics entry.
pub open spec fn is_fresh_stats(st: ShardLoadStats) -> bool {
    st.current_tps == 0 && st.average_tps == 0 && st.peak_tps == 0 && st.tps_history@.len() == 0
}

/// One half produced by a split.
pub open spec fn is_half(
    x: ShardInfoAbs,
    id: ShardId,
    start: u64,
    end: u64,
    parent: ShardId,
) -> bool {
    &&& x.shard_id == id
    &&& x.status == ShardStatus::Active
    &&& x.hash_range == (HashRange { start, end })
    &&& x.parent_shard == Some(parent)
    &&& x.namespaces.len() == 0
}

/// The same shard, marked inactive.
pub open spec fn deactivated(x: ShardInfoAbs, y: ShardInfoAbs) -> bool {
    &&& y.shard_id == x.shard_id
    &&& y.namespaces == x.namespaces
    &&& y.hash_range == x.hash_range
    &&& y.created_at == x.created_at
    &&& y.parent_shard == x.parent_shard
    &&& y.status == ShardStatus::Inactive
}

/// What a split does: the original active shard goes inactive and
/// two fresh active shards take its lower and upper half.
pub open spec fn split_effect_c(
    pre: ShardCoordinator,
    post: ShardCoordinator,
    sid: ShardId,
    id1: ShardId,
    id2: ShardId,
) -> bool {
    &&& exists|k: int|
        #[trigger] split_shards_shape(pre.spec_shards(), post.spec_shards(), sid, id1, id2, k)
    &&& post.spec_assignments() == pre.spec_assignments()
    &&& post.spec_config() == pre.spec_config()
    &&& post.spec_next_shard_id() >= pre.spec_next_shard_id()
    &&& post.spec_load_stats().len() == pre.spec_load_stats().len() + 2
    &&& (forall|j: int|
        0 <= j < pre.spec_load_stats().len() ==> #[trigger] post.spec_load_stats()[j]
            == pre.spec_load_stats()[j])
    &&& post.spec_load_stats()[pre.spec_load_stats().len() as int].0 == id1
    &&& is_fresh_stats(post.spec_load_stats()[pre.spec_load_stats().len() as int].1)
    &&& post.spec_load_stats()[(pre.spec_load_stats().len() + 1) as int].0 == id2
    &&& is_fresh_stats(post.spec_load_stats()[(pre.spec_load_stats().len() + 1) as int].1)
}

/// Shape of the shard list across a split at index `k`.
pub open spec fn split_shards_shape(
    olds: Seq<ShardInfoAbs>,
    news: Seq<ShardInfoAbs>,
    sid: ShardId,
    id1: ShardId,
    id2: ShardId,
    k: int,
) -> bool {
    let start = olds[k].hash_range.start;
    let end = olds[k].hash_range.end;
    let mid = (start + (end - start) / 2) as u64;
    &&& 0 <= k < olds.len()
    &&& olds[k].shard_id == sid
    &&& olds[k].status == ShardStatus::Active
    &&& news.len() == olds.len() + 2
    &&& (forall|j: int| 0 <= j < olds.len() && j != k ==> #[trigger] news[j] == olds[j])
    &&& deactivated(olds[k], news[k])
    &&& is_half(news[olds.len() as int], id1, start, mid, sid)
    &&& is_half(news[(olds.len() + 1) as int], id2, mid, end, sid)
}

/// What a merge does: two adjacent active shards go inactive and one
/// fresh active shard takes their union.
pub open spec fn merge_effect_c(
    pre: ShardCoordinator,
    post: ShardCoordinator,
    a: ShardId,
    b: ShardId,
    new_id: ShardId,
) -> bool {
    &&& exists|ka: int, kb: int|
        #[trigger] merge_shards_shape(pre.spec_shards(), post.spec_shards(), a, b, new_id, ka, kb)
    &&& post.spec_assignments() == pre.spec_assignments()
    &&& post.spec_config() == pre.spec_config()
    &&& post.spec_next_shard_id() == (if pre.spec_next_shard_id() <= new_id {
        (new_id + 1) as u32
    } else {
        pre.spec_next_shard_id()
    })
    &&& post.spec_next_shard_id() > new_id
    &&& post.spec_next_shard_id() >= pre.spec_next_shard_id()
    &&& post.spec_load_stats().len() == pre.spec_load_stats().len() + 1
    &&& (forall|j: int|
        0 <= j < pre.spec_load_stats().len() ==> #[trigger] post.spec_load_stats()[j]
            == pre.spec_load_stats()[j])
    &&& post.spec_load_stats()[pre.spec_load_stats().len() as int].0 == new_id
    &&& is_fresh_stats(post.spec_load_stats()[pre.spec_load_stats().len() as int].1)
}

/// Shape of the shard list across a merge of indices `ka` and `kb`.
pub open spec fn merge_shards_shape(
    olds: Seq<ShardInfoAbs>,
    news: Seq<ShardInfoAbs>,
    a: ShardId,
    b: ShardId,
    new_id: ShardId,
    ka: int,
    kb: int,
) -> bool {
    &&& 0 <= ka < olds.len()
    &&& 0 <= kb < olds.len()
    &&& ka != kb
    &&& olds[ka].shard_id == a
    &&& olds[kb].shard_id == b
    &&& olds[ka].status == ShardStatus::Active
    &&& olds[kb].status == ShardStatus::Active
    &&& (olds[ka].hash_range.end == olds[kb].hash_range.start || olds[kb].hash_range.end
        == olds[ka].hash_range.start)
    &&& news.len() == olds.len() + 1
    &&& (forall|j: int|
        0 <= j < olds.len() && j != ka && j != kb ==> #[trigger] news[j] == olds[j])
    &&& deactivated(olds[ka], news[ka])
    &&& deactivated(olds[kb], news[kb])
    &&& news[olds.len() as int].shard_id == new_id
    &&& news[olds.len() as int].status == ShardStatus::Active
    &&& news[olds.len() as int].hash_range.start == (if olds[ka].hash_range.start
        <= olds[kb].hash_range.start {
        olds[ka].hash_range.start
    } else {
        olds[kb].hash_range.start
    })
    &&& news[olds.len() as int].hash_range.end == (if olds[ka].hash_range.end
        >= olds[kb].hash_range.end {
        olds[ka].hash_range.end
    } else {
        olds[kb].hash_range.end
    })
    &&& news[olds.len() as int].parent_shard is None
    &&& news[olds.len() as int].namespaces == olds[ka].namespaces + olds[kb].namespaces
}

/// What a reassignment does: the namespace maps to the target shard;
/// only the two involved shards may change their namespace sets.
pub open spec fn reassign_effect_c(
    pre: ShardCoordinator,
    post: ShardCoordinator,
    ns: Seq<u8>,
    from: ShardId,
    to: ShardId,
) -> bool {
    &&& post.spec_shards().len() == pre.spec_shards().len()
    &&& (forall|j: int|
        0 <= j < pre.spec_shards().len() ==> unchanged_but_ns(
            pre.spec_shards()[j],
            #[trigger] post.spec_shards()[j],
        ))
    &&& (forall|j: int|
        0 <= j < pre.spec_shards().len() && pre.spec_shards()[j].shard_id != from
            && pre.spec_shards()[j].shard_id != to ==> #[trigger] post.spec_shards()[j]
            == pre.spec_shards()[j])
    &&& ns_lookup(post.spec_assignments(), ns) == Some(to)
    &&& (forall|other: Seq<u8>|
        other != ns ==> #[trigger] ns_lookup(post.spec_assignments(), other) == ns_lookup(
            pre.spec_assignments(),
            other,
        ))
    &&& post.spec_load_stats() == pre.spec_load_stats()
    &&& post.spec_config() == pre.spec_config()
    &&& post.spec_next_shard_id() == pre.spec_next_shard_id()
}

/// What executing one planned operation does.
pub open spec fn op_effect(
    pre: ShardCoordinator,
    post: ShardCoordinator,
    op: ShardOperation,
) -> bool {
    match op {
        ShardOperation::Split { shard_id, new_shard_ids } => new_shard_ids@.len() == 2
            && split_effect_c(pre, post, shard_id, new_shard_ids@[0], new_shard_ids@[1]),
        ShardOperation::Merge { shard_ids, new_shard_id } => shard_ids@.len() == 2
            && merge_effect_c(pre, post, shard_ids@[0], shard_ids@[1], new_shard_id),
        ShardOperation::Reassign { namespace, from_shard, to_shard } => reassign_effect_c(
            pre,
            post,
            namespace@,
            from_shard,
            to_shard,
        ),
    }
}

/// A sequence of operations relates two states step by step.
pub open spec fn rebalance_steps(
    pre: ShardCoordinator,
    post: ShardCoordinator,
    ops: Seq<ShardOperation>,
) -> bool
    decreases ops.len(),
{
    if ops.len() == 0 {
        post == pre
    } else {
        exists|mid: ShardCoordinator|
            #[trigger] op_effect(pre, mid, ops[0]) && rebalance_steps(mid, post, ops.drop_first())
    }
}

/// Extending a step chain on the right.
proof fn lemma_rebalance_steps_snoc(
    pre: ShardCoordinator,
    mid: ShardCoordinator,
    post: ShardCoordinator,
    ops: Seq<ShardOperation>,
    op: ShardOperation,
)
    requires
        rebalance_steps(pre, mid, ops),
        op_effect(mid, post, op),
    ensures
        rebalance_steps(pre, post, ops.push(op)),
    decreases ops.len(),
{
    if ops.len() == 0 {
        assert(ops.push(op)[0] == op);
        assert(ops.push(op).drop_first() =~= Seq::<ShardOperation>::empty());
        assert(rebalance_steps(post, post, ops.push(op).drop_first()));
        assert(op_effect(pre, post, ops.push(op)[0]));
    } else {
        let m1 = choose|m: ShardCoordinator|
            #[trigger] op_effect(pre, m, ops[0]) && rebalance_steps(m, mid, ops.drop_first());
        lemma_rebalance_steps_snoc(m1, mid, post, ops.drop_first(), op);
        assert(ops.push(op).drop_first() =~= ops.drop_first().push(op));
        assert(ops.push(op)[0] == ops[0]);
        assert(op_effect(pre, m1, ops.push(op)[0]));
    }
}


/// The dynamically checked conditions under which a split executes:
/// two distinct usable fresh identifiers and a present, active shard.
pub open spec fn split_executable(c: ShardCoordinator, sid: ShardId, ids: Seq<ShardId>) -> bool {
    &&& ids.len() == 2
    &&& ids[0] != ids[1]
    &&& ids[0] != u32::MAX
    &&& ids[1] != u32::MAX
    &&& forall|i: int|
        0 <= i < c.spec_shards().len() ==> (#[trigger] c.spec_shards()[i]).shard_id != ids[0]
            && c.spec_shards()[i].shard_id != ids[1]
    &&& stat_lookup(c.spec_load_stats(), ids[0]) is None
    &&& stat_lookup(c.spec_load_stats(), ids[1]) is None
    &&& exists|k: int|
        0 <= k < c.spec_shards().len() && (#[trigger] c.spec_shards()[k]).shard_id == sid
            && c.spec_shards()[k].status == ShardStatus::Active
}

/// The dynamically checked conditions under which a merge executes:
/// a usable fresh identifier and two distinct, present, active shards
/// with the first's range ending where the second's starts or the
/// other way round.
pub open spec fn merge_executable(c: ShardCoordinator, a: ShardId, b: ShardId, new_id: ShardId) -> bool {
    &&& a != b
    &&& new_id != u32::MAX
    &&& forall|i: int|
        0 <= i < c.spec_shards().len() ==> (#[trigger] c.spec_shards()[i]).shard_id != new_id
    &&& stat_lookup(c.spec_load_stats(), new_id) is None
    &&& exists|ka: int, kb: int|
        {
            &&& 0 <= ka < c.spec_shards().len()
            &&& 0 <= kb < c.spec_shards().len()
            &&& (#[trigger] c.spec_shards()[ka]).shard_id == a
            &&& (#[trigger] c.spec_shards()[kb]).shard_id == b
            &&& c.spec_shards()[ka].status == ShardStatus::Active
            &&& c.spec_shards()[kb].status == ShardStatus::Active
            &&& (c.spec_shards()[ka].hash_range.end == c.spec_shards()[kb].hash_range.start
                || c.spec_shards()[kb].hash_range.end == c.spec_shards()[ka].hash_range.start)
        }
}

/// The checked conditions under which one planned operation
/// executes against the given state.
pub open spec fn op_executable(c: ShardCoordinator, op: ShardOperation) -> bool {
    match op {
        ShardOperation::Split { shard_id, new_shard_ids } => split_executable(
            c,
            shard_id,
            new_shard_ids@,
        ),
        ShardOperation::Merge { shard_ids, new_shard_id } => shard_ids@.len() == 2
            && merge_executable(c, shard_ids@[0], shard_ids@[1], new_shard_id),
        ShardOperation::Reassign { .. } => true,
    }
}

/// Every operation of the list executes in turn: the first against
/// the given state, the rest against whatever state its effect
/// leaves.
pub open spec fn ops_executable(c: ShardCoordinator, ops: Seq<ShardOperation>) -> bool
    decreases ops.len(),
{
    ops.len() == 0 || (op_executable(c, ops[0]) && forall|mid: ShardCoordinator|
        #[trigger] op_effect(c, mid, ops[0]) ==> ops_executable(mid, ops.drop_first()))
}

/// A split planned against a well-formed state executes against any
/// state holding the same shards and statistics: the reserved
/// identifiers are fresh there because every identifier in use lies
/// below the allocator mark the plan reserved from.
pub proof fn lemma_planned_split_executable(
    c0: ShardCoordinator,
    c1: ShardCoordinator,
    op: ShardOperation,
)
    requires
        c0.wf(),
        split_planned(c0, op),
        c1.spec_shards() == c0.spec_shards(),
        c1.spec_load_stats() == c0.spec_load_stats(),
    ensures
        op_executable(c1, op),
{
    match op {
        ShardOperation::Split { shard_id, new_shard_ids } => {
            assert forall|i: int|
                0 <= i < c1.spec_shards().len() implies (#[trigger] c1.spec_shards()[i]).shard_id
                != new_shard_ids@[0] && c1.spec_shards()[i].shard_id != new_shard_ids@[1] by {
                assert(c0.spec_shards()[i].shard_id < c0.spec_next_shard_id());
            }
            if stat_lookup(c1.spec_load_stats(), new_shard_ids@[0]) is Some {
                let w = choose|i: int|
                    0 <= i < c1.spec_load_stats().len() && c1.spec_load_stats()[i].0
                        == new_shard_ids@[0];
                assert(c0.spec_load_stats()[w].0 < c0.spec_next_shard_id());
            }
            if stat_lookup(c1.spec_load_stats(), new_shard_ids@[1]) is Some {
                let w = choose|i: int|
                    0 <= i < c1.spec_load_stats().len() && c1.spec_load_stats()[i].0
                        == new_shard_ids@[1];
                assert(c0.spec_load_stats()[w].0 < c0.spec_next_shard_id());
            }
        },
        _ => {},
    }
}

/// A merge planned against a well-formed state executes against any
/// state holding the same shards and statistics.
pub proof fn lemma_planned_merge_executable(
    c0: ShardCoordinator,
    c1: ShardCoordinator,
    op: ShardOperation,
)
    requires
        c0.wf(),
        merge_planned(c0, op),
        c1.spec_shards() == c0.spec_shards(),
        c1.spec_load_stats() == c0.spec_load_stats(),
    ensures
        op_executable(c1, op),
{
    match op {
        ShardOperation::Merge { shard_ids, new_shard_id } => {
            assert forall|i: int|
                0 <= i < c1.spec_shards().len() implies (#[trigger] c1.spec_shards()[i]).shard_id
                != new_shard_id by {
                assert(c0.spec_shards()[i].shard_id < c0.spec_next_shard_id());
            }
            if stat_lookup(c1.spec_load_stats(), new_shard_id) is Some {
                let w = choose|i: int|
                    0 <= i < c1.spec_load_stats().len() && c1.spec_load_stats()[i].0
                        == new_shard_id;
                assert(c0.spec_load_stats()[w].0 < c0.spec_next_shard_id());
            }
        },
        _ => {},
    }
}

/// A single planned operation runs to completion: executing the
/// one-element plan on the state it was planned against succeeds.
pub proof fn lemma_single_planned_op_executable(
    c0: ShardCoordinator,
    c1: ShardCoordinator,
    op: ShardOperation,
)
    requires
        c0.wf(),
        split_planned(c0, op) || merge_planned(c0, op),
        c1.spec_shards() == c0.spec_shards(),
        c1.spec_load_stats() == c0.spec_load_stats(),
    ensures
        ops_executable(c1, seq![op]),
{
    if split_planned(c0, op) {
        lemma_planned_split_executable(c0, c1, op);
    } else {
        lemma_planned_merge_executable(c0, c1, op);
    }
    assert(seq![op][0] == op);
    assert forall|mid: ShardCoordinator| #[trigger] op_effect(c1, mid, seq![op][0]) implies
        ops_executable(mid, seq![op].drop_first()) by {
        assert(seq![op].drop_first().len() == 0);
    }
}

impl ShardCoordinator {
    /// Execute a split: deactivate the original shard and create two
    /// active halves under fresh identifiers.  All preconditions are
    /// re-checked dynamically; on error nothing changes.
    #[verifier::rlimit(100)]
    #[verifier::spinoff_prover]
    fn execute_split(&mut self, shard_id: ShardId, new_shard_ids: &Vec<ShardId>) -> (r: Result<
        (),
        DAGError,
    >)
        requires
            old(self).wf(),
        ensures
            final(self).wf(),
            r is Ok ==> new_shard_ids@.len() == 2 && split_effect_c(
                *old(self),
                *final(self),
                shard_id,
                new_shard_ids@[0],
                new_shard_ids@[1],
            ),
            r is Err ==> *final(self) == *old(self),
            split_executable(*old(self), shard_id, new_shard_ids@) ==> r is Ok,
    {
        if new_shard_ids.len() != 2 {
            return Err(DAGError::ShardError(String::from_str("split needs two fresh shards")));
        }
        let id1 = new_shard_ids[0];
        let id2 = new_shard_ids[1];
        if id1 == id2 || id1 == u32::MAX || id2 == u32::MAX {
            return Err(DAGError::ShardError(String::from_str("unusable shard identifiers")));
        }
        match self.find_shard_index(id1) {
            Some(_) => {
                return Err(DAGError::ShardError(String::from_str("shard identifier in use")));
            },
            None => {},
        }
        match self.find_shard_index(id2) {
            Some(_) => {
                return Err(DAGError::ShardError(String::from_str("shard identifier in use")));
            },
            None => {},
        }
        match self.find_stats_index(id1) {
            Some(_) => {
                return Err(DAGError::ShardError(String::from_str("shard identifier in use")));
            },
            None => {},
        }
        match self.find_stats_index(id2) {
            Some(_) => {
                return Err(DAGError::ShardError(String::from_str("shard identifier in use")));
            },
            None => {},
        }
        let k = match self.find_shard_index(shard_id) {
            Some(k) => k,
            None => {
                return Err(DAGError::ShardError(String::from_str("shard not found")));
            },
        };
        if !(self.shards[k].status == ShardStatus::Active) {
            return Err(DAGError::ShardError(String::from_str("shard is not active")));
        }
        let start = self.shards[k].hash_range.start;
        let end = self.shards[k].hash_range.end;
        let mid = start + (end - start) / 2;
        let created = now_secs();
        let ghost olds = self.spec_shards();
        let mut entry = self.shards.remove(k);
        entry.status = ShardStatus::Inactive;
        let ghost inact = entry@;
        self.shards.insert(k, entry);
        self.shards.push(
            ShardInfo {
                shard_id: id1,
                namespaces: Vec::new(),
                hash_range: HashRange { start, end: mid },
                created_at: created,
                parent_shard: Some(shard_id),
                status: ShardStatus::Active,
            },
        );
        self.shards.push(
            ShardInfo {
                shard_id: id2,
                namespaces: Vec::new(),
                hash_range: HashRange { start: mid, end },
                created_at: created,
                parent_shard: Some(shard_id),
                status: ShardStatus::Active,
            },
        );
        self.load_stats.push((id1, ShardLoadStats::empty()));
        self.load_stats.push((id2, ShardLoadStats::empty()));
        if self.next_shard_id <= id1 {
            self.next_shard_id = id1 + 1;
        }
        if self.next_shard_id <= id2 {
            self.next_shard_id = id2 + 1;
        }
        proof {
            let news = self.spec_shards();
            let n = olds.len() as int;
            assert(news.len() == n + 2);
            assert forall|j: int| 0 <= j < n && j != k as int implies #[trigger] news[j]
                == olds[j] by {}
            assert(split_shards_shape(olds, news, shard_id, id1, id2, k as int));
            // unique identifiers
            assert forall|i: int, j: int| 0 <= i < j < news.len() implies news[i].shard_id
                != news[j].shard_id by {
                if j < n {
                } else if j == n {
                    assert(news[j].shard_id == id1);
                    if i < n {
                        assert(olds[i].shard_id != id1);
                    }
                } else {
                    assert(news[j].shard_id == id2);
                    if i < n {
                        assert(olds[i].shard_id != id2);
                    } else if i == n {
                    }
                }
            }
            // identifiers stay below the allocator mark
            assert forall|i: int| 0 <= i < news.len() implies (#[trigger] news[i]).shard_id
                < self.spec_next_shard_id() by {
                if i < n {
                    assert(olds[i].shard_id < old(self).spec_next_shard_id());
                }
            }
            // ranges stay ordered
            assert forall|i: int| 0 <= i < news.len() implies (#[trigger] news[i]).hash_range.start
                <= news[i].hash_range.end by {
                if i < n {
                } else {
                    assert(olds[k as int].hash_range.start <= olds[k as int].hash_range.end);
                }
            }
            // coverage
            assert forall|h: u64| h < u64::MAX implies #[trigger] covers(news, h) by {
                assert(covers(olds, h));
                let w = choose|i: int|
                    0 <= i < olds.len() && olds[i].status == ShardStatus::Active && in_range(
                        olds[i],
                        h,
                    );
                if w != k as int {
                    assert(news[w].status == ShardStatus::Active && in_range(news[w], h));
                } else {
                    if h < mid {
                        assert(news[n].status == ShardStatus::Active && in_range(news[n], h));
                    } else {
                        assert(news[n + 1].status == ShardStatus::Active && in_range(
                            news[n + 1],
                            h,
                        ));
                    }
                }
            }
            // uniqueness of the owner
            assert forall|h: u64, i: int, j: int|
                0 <= i < news.len() && 0 <= j < news.len() && news[i].status == ShardStatus::Active
                    && news[j].status == ShardStatus::Active && #[trigger] in_range(news[i], h)
                    && #[trigger] in_range(news[j], h) implies i == j by {
                let wi: int = if i < n {
                    i
                } else {
                    k as int
                };
                let wj: int = if j < n {
                    j
                } else {
                    k as int
                };
                assert(olds[wi].status == ShardStatus::Active && in_range(olds[wi], h));
                assert(olds[wj].status == ShardStatus::Active && in_range(olds[wj], h));
                assert(wi == wj);
                if i < n && j >= n {
                    assert(i == k as int);
                    assert(news[i].status == ShardStatus::Inactive);
                } else if i >= n && j < n {
                    assert(j == k as int);
                    assert(news[j].status == ShardStatus::Inactive);
                } else if i >= n && j >= n && i != j {
                    assert(h < mid && mid <= h);
                }
            }
            // statistics keys stay unique
            assert forall|i: int, j: int|
                0 <= i < j < self.spec_load_stats().len() implies (
            #[trigger] self.spec_load_stats()[i]).0 != (#[trigger] self.spec_load_stats()[j]).0 by {
                let m = old(self).spec_load_stats().len() as int;
                if j < m {
                } else if j == m {
                    if i < m {
                        assert(stat_lookup(old(self).spec_load_stats(), id1) is None);
                        assert(old(self).spec_load_stats()[i].0 != id1);
                    }
                } else {
                    if i < m {
                        assert(stat_lookup(old(self).spec_load_stats(), id2) is None);
                        assert(old(self).spec_load_stats()[i].0 != id2);
                    }
                }
            }
        }
        Ok(())
    }
}


impl ShardCoordinator {
    /// Execute a merge of two adjacent active shards into one fresh
    /// shard covering their union.  All preconditions are re-checked
    /// dynamically; on error nothing changes.
    #[verifier::rlimit(100)]
    #[verifier::spinoff_prover]
    fn execute_merge(&mut self, shard_ids: &Vec<ShardId>, new_shard_id: ShardId) -> (r: Result<
        (),
        DAGError,
    >)
        requires
            old(self).wf(),
        ensures
            final(self).wf(),
            r is Ok ==> shard_ids@.len() == 2 && merge_effect_c(
                *old(self),
                *final(self),
                shard_ids@[0],
                shard_ids@[1],
                new_shard_id,
            ),
            r is Err ==> *final(self) == *old(self),
            (shard_ids@.len() == 2 && merge_executable(
                *old(self),
                shard_ids@[0],
                shard_ids@[1],
                new_shard_id,
            )) ==> r is Ok,
    {
        if shard_ids.len() != 2 {
            return Err(DAGError::ShardError(String::from_str("merge needs two shards")));
        }
        let a = shard_ids[0];
        let b = shard_ids[1];
        if a == b || new_shard_id == u32::MAX {
            return Err(DAGError::ShardError(String::from_str("unusable shard identifiers")));
        }
        match self.find_shard_index(new_shard_id) {
            Some(_) => {
                return Err(DAGError::ShardError(String::from_str("shard identifier in use")));
            },
            None => {},
        }
        match self.find_stats_index(new_shard_id) {
            Some(_) => {
                return Err(DAGError::ShardError(String::from_str("shard identifier in use")));
            },
            None => {},
        }
        let ka = match self.find_shard_index(a) {
            Some(k) => k,
            None => {
                return Err(DAGError::ShardError(String::from_str("shard not found")));
            },
        };
        let kb = match self.find_shard_index(b) {
            Some(k) => k,
            None => {
                return Err(DAGError::ShardError(String::from_str("shard not found")));
            },
        };
        if !(self.shards[ka].status == ShardStatus::Active) || !(self.shards[kb].status
            == ShardStatus::Active) {
            return Err(DAGError::ShardError(String::from_str("shard is not active")));
        }
        let ra = self.shards[ka].hash_range;
        let rb = self.shards[kb].hash_range;
        if !(ra.end == rb.start || rb.end == ra.start) {
            return Err(DAGError::ShardError(String::from_str("shards are not adjacent")));
        }
        proof {
            assert(ka != kb);
        }
        let new_start = if ra.start <= rb.start {
            ra.start
        } else {
            rb.start
        };
        let new_end = if ra.end >= rb.end {
            ra.end
        } else {
            rb.end
        };
        let created = now_secs();
        let ghost olds = self.spec_shards();
        // collect the union of the two namespace sets
        let mut namespaces: Vec<Vec<u8>> = Vec::new();
        let na = self.shards[ka].namespaces.len();
        let mut i: usize = 0;
        while i < na
            invariant
                ka < self.shards@.len(),
                na == self.shards@[ka as int].namespaces@.len(),
                i <= na,
                namespaces@.len() == i,
                forall|q: int|
                    0 <= q < i ==> (#[trigger] namespaces@[q]@) == self.shards@[
                        ka as int
                    ]@.namespaces[q],
            decreases na - i,
        {
            namespaces.push(clone_bytes(&self.shards[ka].namespaces[i]));
            i = i + 1;
        }
        let nb = self.shards[kb].namespaces.len();
        let mut j: usize = 0;
        while j < nb
            invariant
                ka < self.shards@.len(),
                kb < self.shards@.len(),
                na == self.shards@[ka as int].namespaces@.len(),
                nb == self.shards@[kb as int].namespaces@.len(),
                j <= nb,
                namespaces@.len() == na + j,
                forall|q: int|
                    0 <= q < na ==> (#[trigger] namespaces@[q]@) == self.shards@[
                        ka as int
                    ]@.namespaces[q],
                forall|q: int|
                    na <= q < na + j ==> (#[trigger] namespaces@[q]@) == self.shards@[
                        kb as int
                    ]@.namespaces[q - na],
            decreases nb - j,
        {
            namespaces.push(clone_bytes(&self.shards[kb].namespaces[j]));
            j = j + 1;
        }
        // deactivate the originals
        let mut ea = self.shards.remove(ka);
        ea.status = ShardStatus::Inactive;
        self.shards.insert(ka, ea);
        let mut eb = self.shards.remove(kb);
        eb.status = ShardStatus::Inactive;
        self.shards.insert(kb, eb);
        // add the merged shard
        let merged = ShardInfo {
            shard_id: new_shard_id,
            namespaces,
            hash_range: HashRange { start: new_start, end: new_end },
            created_at: created,
            parent_shard: None,
            status: ShardStatus::Active,
        };
        self.shards.push(merged);
        self.load_stats.push((new_shard_id, ShardLoadStats::empty()));
        if self.next_shard_id <= new_shard_id {
            self.next_shard_id = new_shard_id + 1;
        }
        proof {
            let news = self.spec_shards();
            let n = olds.len() as int;
            assert(news.len() == n + 1);
            assert forall|q: int| 0 <= q < n && q != ka as int && q != kb as int implies #[trigger]
                news[q] == olds[q] by {}
            assert(news[n].namespaces =~= olds[ka as int].namespaces + olds[kb as int].namespaces);
            assert(merge_shards_shape(olds, news, a, b, new_shard_id, ka as int, kb as int));
            // unique identifiers
            assert forall|p: int, q: int| 0 <= p < q < news.len() implies news[p].shard_id
                != news[q].shard_id by {
                if q == n && p < n {
                    assert(olds[p].shard_id != new_shard_id);
                }
            }
            // identifiers below the allocator mark
            assert forall|p: int| 0 <= p < news.len() implies (#[trigger] news[p]).shard_id
                < self.spec_next_shard_id() by {
                if p < n {
                    assert(olds[p].shard_id < old(self).spec_next_shard_id());
                }
            }
            // ranges ordered
            assert forall|p: int| 0 <= p < news.len() implies (#[trigger] news[p]).hash_range.start
                <= news[p].hash_range.end by {
                if p == n {
                    assert(olds[ka as int].hash_range.start <= olds[ka as int].hash_range.end);
                    assert(olds[kb as int].hash_range.start <= olds[kb as int].hash_range.end);
                }
            }
            // coverage
            assert forall|h: u64| h < u64::MAX implies #[trigger] covers(news, h) by {
                assert(covers(olds, h));
                let w = choose|q: int|
                    0 <= q < olds.len() && olds[q].status == ShardStatus::Active && in_range(
                        olds[q],
                        h,
                    );
                if w != ka as int && w != kb as int {
                    assert(news[w].status == ShardStatus::Active && in_range(news[w], h));
                } else {
                    assert(news[n].status == ShardStatus::Active && in_range(news[n], h));
                }
            }
            // uniqueness of the owner
            assert forall|h: u64, p: int, q: int|
                0 <= p < news.len() && 0 <= q < news.len() && news[p].status == ShardStatus::Active
                    && news[q].status == ShardStatus::Active && #[trigger] in_range(news[p], h)
                    && #[trigger] in_range(news[q], h) implies p == q by {
                if p != q {
                    let wp: int = if p < n {
                        p
                    } else {
                        if in_range(olds[ka as int], h) {
                            ka as int
                        } else {
                            kb as int
                        }
                    };
                    let wq: int = if q < n {
                        q
                    } else {
                        if in_range(olds[ka as int], h) {
                            ka as int
                        } else {
                            kb as int
                        }
                    };
                    if p == n {
                        assert(in_range(olds[ka as int], h) || in_range(olds[kb as int], h));
                    }
                    if q == n {
                        assert(in_range(olds[ka as int], h) || in_range(olds[kb as int], h));
                    }
                    assert(olds[wp].status == ShardStatus::Active && in_range(olds[wp], h));
                    assert(olds[wq].status == ShardStatus::Active && in_range(olds[wq], h));
                    assert(wp == wq);
                    if p < n && q == n {
                        assert(p == ka as int || p == kb as int);
                        assert(news[p].status == ShardStatus::Inactive);
                    } else if p == n && q < n {
                        assert(q == ka as int || q == kb as int);
                        assert(news[q].status == ShardStatus::Inactive);
                    }
                }
            }
            // statistics keys stay unique
            assert forall|p: int, q: int|
                0 <= p < q < self.spec_load_stats().len() implies (
            #[trigger] self.spec_load_stats()[p]).0 != (#[trigger] self.spec_load_stats()[q]).0 by {
                let m = old(self).spec_load_stats().len() as int;
                if q == m && p < m {
                    assert(stat_lookup(old(self).spec_load_stats(), new_shard_id) is None);
                    assert(old(self).spec_load_stats()[p].0 != new_shard_id);
                }
            }
        }
        Ok(())
    }

    /// Execute a namespace reassignment: the namespace leaves the
    /// source shard's set, joins the target's, and the memo points to
    /// the target.
    fn execute_reassignment(
        &mut self,
        namespace: &Vec<u8>,
        from_shard: ShardId,
        to_shard: ShardId,
    ) -> (r: Result<(), DAGError>)
        requires
            old(self).wf(),
        ensures
            final(self).wf(),
            r is Ok ==> reassign_effect_c(
                *old(self),
                *final(self),
                namespace@,
                from_shard,
                to_shard,
            ),
            r is Ok,
    {
        // remove from the source shard's namespace set
        match self.find_shard_index(from_shard) {
            Some(i) => {
                let ghost pre_shards = self.spec_shards();
                let mut entry = self.shards.remove(i);
                let mut kept: Vec<Vec<u8>> = Vec::new();
                let nn = entry.namespaces.len();
                let mut q: usize = 0;
                while q < nn
                    invariant
                        nn == entry.namespaces@.len(),
                        q <= nn,
                    decreases nn - q,
                {
                    if !bytes_eq(&entry.namespaces[q], namespace) {
                        kept.push(clone_bytes(&entry.namespaces[q]));
                    }
                    q = q + 1;
                }
                entry.namespaces = kept;
                self.shards.insert(i, entry);
                proof {
                    assert forall|j: int|
                        0 <= j < self.spec_shards().len() implies unchanged_but_ns(
                        pre_shards[j],
                        #[trigger] self.spec_shards()[j],
                    ) by {}
                    lemma_ns_only_preserves(pre_shards, self.spec_shards());
                    assert forall|j: int|
                        0 <= j < self.spec_shards().len() && pre_shards[j].shard_id != from_shard
                            && pre_shards[j].shard_id != to_shard implies #[trigger] self
                        .spec_shards()[j] == pre_shards[j] by {}
                }
            },
            None => {},
        }
        // add to the target shard's namespace set
        match self.find_shard_index(to_shard) {
            Some(i) => {
                let ghost pre_shards = self.spec_shards();
                let mut entry = self.shards.remove(i);
                entry.namespaces.push(clone_bytes(namespace));
                self.shards.insert(i, entry);
                proof {
                    assert forall|j: int|
                        0 <= j < self.spec_shards().len() implies unchanged_but_ns(
                        pre_shards[j],
                        #[trigger] self.spec_shards()[j],
                    ) by {}
                    lemma_ns_only_preserves(pre_shards, self.spec_shards());
                    assert forall|j: int|
                        0 <= j < self.spec_shards().len() && pre_shards[j].shard_id != from_shard
                            && pre_shards[j].shard_id != to_shard implies #[trigger] self
                        .spec_shards()[j] == pre_shards[j] by {}
                }
            },
            None => {},
        }
        // update the memo
        let ghost pre_assignments = self.namespace_assignments@;
        let mut idx: usize = 0;
        let an = self.namespace_assignments.len();
        let mut found = false;
        while idx < an && !found
            invariant
                an == self.namespace_assignments@.len(),
                idx <= an,
                !found ==> forall|k: int|
                    0 <= k < idx ==> (#[trigger] self.namespace_assignments@[k].0@) != namespace@,
                found ==> idx < an && self.namespace_assignments@[idx as int].0@ == namespace@,
            decreases an - idx + if found {
                0int
            } else {
                1int
            },
        {
            if bytes_eq(&self.namespace_assignments[idx].0, namespace) {
                found = true;
            } else {
                idx = idx + 1;
            }
        }
        if found {
            let (ns_key, _) = self.namespace_assignments.remove(idx);
            self.namespace_assignments.insert(idx, (ns_key, to_shard));
            proof {
                assert(self.namespace_assignments@ =~= pre_assignments.update(
                    idx as int,
                    (pre_assignments[idx as int].0, to_shard),
                ));
                assert forall|i2: int, j2: int|
                    0 <= i2 < j2 < self.namespace_assignments@.len() implies (
                #[trigger] self.namespace_assignments@[i2].0@) != (
                #[trigger] self.namespace_assignments@[j2].0@) by {
                    assert(pre_assignments[i2].0@ == self.namespace_assignments@[i2].0@);
                    assert(pre_assignments[j2].0@ == self.namespace_assignments@[j2].0@);
                }
                let w = choose|k: int|
                    0 <= k < self.namespace_assignments@.len()
                        && self.namespace_assignments@[k].0@ == namespace@;
                assert(self.namespace_assignments@[idx as int].0@ == namespace@);
                assert(w == idx as int);
                lemma_ns_frame(pre_assignments, self.namespace_assignments@, namespace@);
            }
        } else {
            let ns_copy = clone_bytes(namespace);
            self.namespace_assignments.push((ns_copy, to_shard));
            proof {
                assert forall|i2: int, j2: int|
                    0 <= i2 < j2 < self.namespace_assignments@.len() implies (
                #[trigger] self.namespace_assignments@[i2].0@) != (
                #[trigger] self.namespace_assignments@[j2].0@) by {
                    if j2 == pre_assignments.len() as int {
                        assert(self.namespace_assignments@[j2].0@ == namespace@);
                        assert(pre_assignments[i2].0@ != namespace@);
                    }
                }
                let w = choose|k: int|
                    0 <= k < self.namespace_assignments@.len()
                        && self.namespace_assignments@[k].0@ == namespace@;
                assert(self.namespace_assignments@[pre_assignments.len() as int].0@ == namespace@);
                assert(w == pre_assignments.len() as int);
                lemma_ns_frame(pre_assignments, self.namespace_assignments@, namespace@);
            }
        }
        Ok(())
    }
}

/// Updating or appending one namespace key leaves every other lookup
/// unchanged.
proof fn lemma_ns_frame(pre: Seq<(Vec<u8>, ShardId)>, post: Seq<(Vec<u8>, ShardId)>, ns: Seq<u8>)
    requires
        unique_ns_keys(pre),
        unique_ns_keys(post),
        pre.len() <= post.len(),
        post.len() <= pre.len() + 1,
        forall|k: int| 0 <= k < pre.len() ==> (#[trigger] post[k].0@) == pre[k].0@,
        post.len() > pre.len() ==> post[pre.len() as int].0@ == ns,
        forall|k: int| 0 <= k < pre.len() && pre[k].0@ != ns ==> #[trigger] post[k] == pre[k],
    ensures
        forall|other: Seq<u8>|
            other != ns ==> #[trigger] ns_lookup(post, other) == ns_lookup(pre, other),
{
    assert forall|other: Seq<u8>| other != ns implies #[trigger] ns_lookup(post, other)
        == ns_lookup(pre, other) by {
        if exists|k: int| 0 <= k < pre.len() && pre[k].0@ == other {
            let k1 = choose|k: int| 0 <= k < pre.len() && pre[k].0@ == other;
            assert(post[k1].0@ == other);
            let kp = choose|k: int| 0 <= k < pre.len() && pre[k].0@ == other;
            let k2 = choose|k: int| 0 <= k < post.len() && post[k].0@ == other;
            if k2 < pre.len() {
                assert(pre[k2].0@ == other);
            } else {
                assert(post[k2].0@ == ns);
            }
            assert(k2 == k1);
            assert(post[k1] == pre[k1]);
        } else {
            if exists|k: int| 0 <= k < post.len() && post[k].0@ == other {
                let k2 = choose|k: int| 0 <= k < post.len() && post[k].0@ == other;
                if k2 < pre.len() {
                    assert(pre[k2].0@ == other);
                } else {
                    assert(post[k2].0@ == ns);
                }
            }
        }
    }
}


/// A shard qualifies for splitting: overloaded, active, and the
/// shard count is below the configured cap.
pub open spec fn qualifies_for_split(c: ShardCoordinator, id: ShardId) -> bool {
    &&& match stat_lookup(c.spec_load_stats(), id) {
        Some(st) => st.average_tps > c.spec_config().max_shard_tps as u64,
        None => false,
    }
    &&& exists|i: int|
        0 <= i < c.spec_shards().len() && (#[trigger] c.spec_shards()[i]).shard_id == id
            && c.spec_shards()[i].status == ShardStatus::Active
    &&& c.spec_shards().len() < c.spec_config().max_shard_count as nat
}

/// The operation is a split of the given shard.
pub open spec fn op_is_split_of(op: ShardOperation, id: ShardId) -> bool {
    match op {
        ShardOperation::Split { shard_id, .. } => shard_id == id,
        _ => false,
    }
}

/// A planned split is justified by the state it was planned against.
pub open spec fn split_planned(c: ShardCoordinator, op: ShardOperation) -> bool {
    match op {
        ShardOperation::Split { shard_id, new_shard_ids } => {
            &&& qualifies_for_split(c, shard_id)
            &&& new_shard_ids@.len() == 2
            &&& new_shard_ids@[0] != new_shard_ids@[1]
            &&& new_shard_ids@[0] >= c.spec_next_shard_id()
            &&& new_shard_ids@[1] >= c.spec_next_shard_id()
            &&& new_shard_ids@[0] != u32::MAX
            &&& new_shard_ids@[1] != u32::MAX
        },
        _ => false,
    }
}

/// Two shards make an eligible merge pair: distinct, both active,
/// both underloaded, with adjacent ranges.
pub open spec fn merge_candidates(c: ShardCoordinator, a: ShardId, b: ShardId) -> bool {
    &&& a != b
    &&& match stat_lookup(c.spec_load_stats(), a) {
        Some(st) => st.average_tps < c.spec_config().min_shard_tps as u64,
        None => false,
    }
    &&& match stat_lookup(c.spec_load_stats(), b) {
        Some(st) => st.average_tps < c.spec_config().min_shard_tps as u64,
        None => false,
    }
    &&& exists|p: int, q: int|
        {
            &&& 0 <= p < c.spec_shards().len()
            &&& 0 <= q < c.spec_shards().len()
            &&& (#[trigger] c.spec_shards()[p]).shard_id == a
            &&& (#[trigger] c.spec_shards()[q]).shard_id == b
            &&& c.spec_shards()[p].status == ShardStatus::Active
            &&& c.spec_shards()[q].status == ShardStatus::Active
            &&& c.spec_shards()[p].hash_range.end == c.spec_shards()[q].hash_range.start
        }
}

/// The shard a split operation targets, if it is one.
pub open spec fn split_shard_of(op: ShardOperation) -> Option<ShardId> {
    match op {
        ShardOperation::Split { shard_id, .. } => Some(shard_id),
        _ => None,
    }
}

/// Whether the operation is a merge.
pub open spec fn is_merge_op(op: ShardOperation) -> bool {
    op matches ShardOperation::Merge { .. }
}

/// Number of split operations in a plan.
pub open spec fn count_splits(ops: Seq<ShardOperation>) -> nat
    decreases ops.len(),
{
    if ops.len() == 0 {
        0
    } else {
        count_splits(ops.drop_last()) + if split_shard_of(ops.last()) is Some {
            1nat
        } else {
            0nat
        }
    }
}

/// A list of split operations counts its own length.
pub proof fn lemma_count_splits_all(ops: Seq<ShardOperation>)
    requires
        forall|k: int| 0 <= k < ops.len() ==> split_shard_of(#[trigger] ops[k]) is Some,
    ensures
        count_splits(ops) == ops.len(),
    decreases ops.len(),
{
    if ops.len() > 0 {
        lemma_count_splits_all(ops.drop_last());
    }
}

/// The operation is a merge of an eligible pair of the given state.
pub open spec fn op_is_merge_of_candidates(c: ShardCoordinator, op: ShardOperation) -> bool {
    match op {
        ShardOperation::Merge { shard_ids, .. } => shard_ids@.len() == 2 && merge_candidates(
            c,
            shard_ids@[0],
            shard_ids@[1],
        ),
        _ => false,
    }
}

/// A planned merge is justified by the state it was planned against.
pub open spec fn merge_planned(c: ShardCoordinator, op: ShardOperation) -> bool {
    match op {
        ShardOperation::Merge { shard_ids, new_shard_id } => {
            &&& shard_ids@.len() == 2
            &&& merge_candidates(c, shard_ids@[0], shard_ids@[1])
            &&& new_shard_id >= c.spec_next_shard_id()
            &&& new_shard_id != u32::MAX
        },
        _ => false,
    }
}

/// Indices `p`, `q` hold an eligible merge pair: distinct, both
/// active and underloaded, with `p`'s range ending where `q`'s starts.
pub open spec fn merge_pair_at(c: ShardCoordinator, p: int, q: int) -> bool {
    &&& 0 <= p < c.spec_shards().len()
    &&& 0 <= q < c.spec_shards().len()
    &&& p != q
    &&& c.spec_shards()[p].status == ShardStatus::Active
    &&& c.spec_shards()[q].status == ShardStatus::Active
    &&& c.spec_shards()[p].hash_range.end == c.spec_shards()[q].hash_range.start
    &&& match stat_lookup(c.spec_load_stats(), c.spec_shards()[p].shard_id) {
        Some(st) => st.average_tps < c.spec_config().min_shard_tps as u64,
        None => false,
    }
    &&& match stat_lookup(c.spec_load_stats(), c.spec_shards()[q].shard_id) {
        Some(st) => st.average_tps < c.spec_config().min_shard_tps as u64,
        None => false,
    }
}

impl ShardCoordinator {
    /// Find one eligible merge pair, if any; a miss means none exists.
    fn find_merge_pair(&self) -> (r: Option<(ShardId, ShardId)>)
        requires
            self.wf(),
        ensures
            match r {
                Some((a, b)) => merge_candidates(*self, a, b),
                None => forall|a: ShardId, b: ShardId| !merge_candidates(*self, a, b),
            },
    {
        let n = self.shards.len();
        let mut p: usize = 0;
        while p < n
            invariant
                self.wf(),
                n == self.shards@.len(),
                p <= n,
                forall|p2: int, q2: int| 0 <= p2 < p ==> !#[trigger] merge_pair_at(*self, p2, q2),
            decreases n - p,
        {
            let mut skip_p = true;
            if self.shards[p].status == ShardStatus::Active {
                let a = self.shards[p].shard_id;
                let a_low = match self.find_stats_index(a) {
                    Some(si) => self.load_stats[si].1.average_tps < (
                    self.config.min_shard_tps as u64),
                    None => false,
                };
                if a_low {
                    skip_p = false;
                    let mut q: usize = 0;
                    while q < n
                        invariant
                            self.wf(),
                            n == self.shards@.len(),
                            p < n,
                            q <= n,
                            self.spec_shards()[p as int].status == ShardStatus::Active,
                            self.spec_shards()[p as int].shard_id == a,
                            match stat_lookup(self.spec_load_stats(), a) {
                                Some(st) => st.average_tps < self.spec_config().min_shard_tps
                                    as u64,
                                None => false,
                            },
                            forall|q2: int|
                                0 <= q2 < q ==> !#[trigger] merge_pair_at(*self, p as int, q2),
                        decreases n - q,
                    {
                        if q != p && self.shards[q].status == ShardStatus::Active
                            && self.shards[p].hash_range.end == self.shards[q].hash_range.start {
                            let b = self.shards[q].shard_id;
                            let b_low = match self.find_stats_index(b) {
                                Some(si) => self.load_stats[si].1.average_tps < (
                                self.config.min_shard_tps as u64),
                                None => false,
                            };
                            if b_low {
                                proof {
                                    assert(self.spec_shards()[p as int].shard_id == a);
                                    assert(self.spec_shards()[q as int].shard_id == b);
                                    assert(a != b);
                                }
                                return Some((a, b));
                            }
                        }
                        q = q + 1;
                    }
                }
            }
            proof {
                assert forall|q2: int| !#[trigger] merge_pair_at(*self, p as int, q2) by {
                    if skip_p {
                    }
                }
            }
            p = p + 1;
        }
        proof {
            assert forall|a: ShardId, b: ShardId| !#[trigger] merge_candidates(*self, a, b) by {
                if merge_candidates(*self, a, b) {
                    let (ka, kb): (int, int) = choose|ka: int, kb: int|
                        {
                            &&& 0 <= ka < self.spec_shards().len()
                            &&& 0 <= kb < self.spec_shards().len()
                            &&& (#[trigger] self.spec_shards()[ka]).shard_id == a
                            &&& (#[trigger] self.spec_shards()[kb]).shard_id == b
                            &&& self.spec_shards()[ka].status == ShardStatus::Active
                            &&& self.spec_shards()[kb].status == ShardStatus::Active
                            &&& self.spec_shards()[ka].hash_range.end
                                == self.spec_shards()[kb].hash_range.start
                        };
                    assert(ka != kb);
                    assert(merge_pair_at(*self, ka, kb));
                }
            }
        }
        None
    }

    /// Plan rebalancing: one split per overloaded active shard (two
    /// fresh identifiers are reserved for each), then at most one
    /// merge of an eligible underloaded pair.
    /// Plan the split half: one justified split per overloaded active
    /// shard, with two consecutive identifiers reserved from the
    /// allocator mark for each, in statistics order.
    #[verifier::rlimit(100)]
    #[verifier::spinoff_prover]
    fn plan_splits(&mut self) -> (r: Vec<ShardOperation>)
        requires
            old(self).wf(),
        ensures
            final(self).wf(),
            final(self).spec_shards() == old(self).spec_shards(),
            final(self).spec_load_stats() == old(self).spec_load_stats(),
            final(self).spec_assignments() == old(self).spec_assignments(),
            final(self).spec_config() == old(self).spec_config(),
            final(self).spec_next_shard_id() >= old(self).spec_next_shard_id(),
            r@.len() <= old(self).spec_load_stats().len(),
            final(self).spec_next_shard_id() as int == old(self).spec_next_shard_id() + 2
                * r@.len(),
            forall|k: int| 0 <= k < r@.len() ==> split_planned(*old(self), #[trigger] r@[k]),
            forall|k1: int, k2: int|
                0 <= k1 < k2 < r@.len() ==> !(split_shard_of(#[trigger] r@[k1]) is Some
                    && split_shard_of(r@[k1]) == split_shard_of(#[trigger] r@[k2])),
            forall|k: int|
                0 <= k < r@.len() ==> match #[trigger] r@[k] {
                    ShardOperation::Split { new_shard_ids, .. } => new_shard_ids@[0] as int == old(
                        self,
                    ).spec_next_shard_id() + 2 * k && new_shard_ids@[1] == new_shard_ids@[0] + 1,
                    _ => true,
                },
            old(self).spec_next_shard_id() + 2 * old(self).spec_load_stats().len() <= u32::MAX
                ==> forall|id: ShardId|
                #[trigger] qualifies_for_split(*old(self), id) ==> exists|k: int|
                    0 <= k < r@.len() && op_is_split_of(r@[k], id),
    {
        let mut ops: Vec<ShardOperation> = Vec::new();
        let m = self.load_stats.len();
        let mut i: usize = 0;
        while i < m
            invariant
                old(self).wf(),
                self.wf(),
                m == self.load_stats@.len(),
                i <= m,
                ops@.len() <= i,
                self.spec_shards() == old(self).spec_shards(),
                self.spec_load_stats() == old(self).spec_load_stats(),
                self.spec_assignments() == old(self).spec_assignments(),
                self.spec_config() == old(self).spec_config(),
                old(self).spec_next_shard_id() <= self.spec_next_shard_id(),
                self.spec_next_shard_id() as int == old(self).spec_next_shard_id() + 2
                    * ops@.len(),
                forall|k: int| 0 <= k < ops@.len() ==> split_planned(*old(self), #[trigger] ops@[k]),
                forall|k: int|
                    0 <= k < ops@.len() ==> exists|j: int|
                        0 <= j < i && op_is_split_of(#[trigger] ops@[k], old(
                            self,
                        ).spec_load_stats()[j].0),
                forall|k1: int, k2: int|
                    0 <= k1 < k2 < ops@.len() ==> !(split_shard_of(#[trigger] ops@[k1]) is Some
                        && split_shard_of(ops@[k1]) == split_shard_of(#[trigger] ops@[k2])),
                forall|k: int|
                    0 <= k < ops@.len() ==> match #[trigger] ops@[k] {
                        ShardOperation::Split { new_shard_ids, .. } => new_shard_ids@[0] as int
                            == old(self).spec_next_shard_id() + 2 * k && new_shard_ids@[1]
                            == new_shard_ids@[0] + 1,
                        _ => true,
                    },
                forall|j: int|
                    0 <= j < i && qualifies_for_split(
                        *old(self),
                        (#[trigger] old(self).spec_load_stats()[j]).0,
                    ) && old(self).spec_next_shard_id() + 2 * m <= u32::MAX ==> exists|k: int|
                        0 <= k < ops@.len() && op_is_split_of(ops@[k], old(
                            self,
                        ).spec_load_stats()[j].0),
            decreases m - i,
        {
            let id = self.load_stats[i].0;
            let avg = self.load_stats[i].1.average_tps;
            let ghost ops_before = ops@;
            let mut pushed = false;
            if avg > (self.config.max_shard_tps as u64) {
                if self.shards.len() < (self.config.max_shard_count as usize) {
                    match self.find_shard_index(id) {
                        Some(si) => {
                            if self.shards[si].status == ShardStatus::Active {
                                if self.next_shard_id <= u32::MAX - 2 {
                                    let id1 = self.next_shard_id;
                                    let id2 = id1 + 1;
                                    self.next_shard_id = id1 + 2;
                                    let mut ids: Vec<ShardId> = Vec::new();
                                    ids.push(id1);
                                    ids.push(id2);
                                    proof {
                                        let w = choose|k2: int|
                                            0 <= k2 < self.spec_load_stats().len()
                                                && self.spec_load_stats()[k2].0 == id;
                                        assert(self.spec_load_stats()[i as int].0 == id);
                                        assert(w == i as int);
                                        assert(qualifies_for_split(*old(self), id));
                                    }
                                    ops.push(
                                        ShardOperation::Split { shard_id: id, new_shard_ids: ids },
                                    );
                                    pushed = true;
                                }
                            }
                        },
                        None => {},
                    }
                }
            }
            proof {
                if pushed {
                    assert(split_shard_of(ops@[ops@.len() - 1]) == Some(id));
                    assert(old(self).spec_load_stats()[i as int].0 == id);
                    assert forall|k: int| 0 <= k < ops@.len() implies exists|j: int|
                        0 <= j < i + 1 && op_is_split_of(#[trigger] ops@[k], old(
                        self,
                    ).spec_load_stats()[j].0) by {
                        if k < ops_before.len() {
                            assert(ops@[k] == ops_before[k]);
                            let j0 = choose|j: int|
                                0 <= j < i && op_is_split_of(ops_before[k], old(
                                    self,
                                ).spec_load_stats()[j].0);
                            assert(0 <= j0 < i + 1 && op_is_split_of(ops@[k], old(
                                self,
                            ).spec_load_stats()[j0].0));
                        } else {
                            assert(op_is_split_of(ops@[k], old(
                                self,
                            ).spec_load_stats()[i as int].0));
                        }
                    }
                    assert forall|k1: int, k2: int| 0 <= k1 < k2 < ops@.len() implies !(
                    split_shard_of(#[trigger] ops@[k1]) is Some && split_shard_of(ops@[k1])
                        == split_shard_of(#[trigger] ops@[k2])) by {
                        if k2 < ops_before.len() {
                            assert(ops@[k1] == ops_before[k1]);
                            assert(ops@[k2] == ops_before[k2]);
                        } else {
                            assert(ops@[k1] == ops_before[k1]);
                            let j0 = choose|j: int|
                                0 <= j < i && op_is_split_of(ops_before[k1], old(
                                    self,
                                ).spec_load_stats()[j].0);
                            assert(old(self).spec_load_stats()[j0].0 != old(
                                self,
                            ).spec_load_stats()[i as int].0);
                        }
                    }
                }
                if !pushed {
                    assert(ops@ == ops_before);
                    if qualifies_for_split(*old(self), id) && old(self).spec_next_shard_id() + 2
                        * m <= u32::MAX {
                        assert(self.spec_next_shard_id() <= u32::MAX - 2);
                        let w2 = choose|p: int|
                            0 <= p < old(self).spec_shards().len() && old(self).spec_shards()[
                                p
                            ].shard_id == id && old(self).spec_shards()[p].status
                                == ShardStatus::Active;
                        let w3 = choose|k2: int|
                            0 <= k2 < old(self).spec_load_stats().len() && old(
                                self,
                            ).spec_load_stats()[k2].0 == id;
                        assert(w3 == i as int);
                        assert(false);
                    }
                }
                assert forall|j: int|
                    0 <= j < i + 1 && qualifies_for_split(
                        *old(self),
                        (#[trigger] old(self).spec_load_stats()[j]).0,
                    ) && old(self).spec_next_shard_id() + 2 * m <= u32::MAX implies exists|k: int|
                    0 <= k < ops@.len() && op_is_split_of(ops@[k], old(
                    self,
                ).spec_load_stats()[j].0) by {
                    if j < i {
                        let k0 = choose|k: int|
                            0 <= k < ops_before.len() && op_is_split_of(ops_before[k], old(
                                self,
                            ).spec_load_stats()[j].0);
                        assert(ops@[k0] == ops_before[k0]);
                    } else {
                        assert(old(self).spec_load_stats()[j].0 == id);
                        assert(op_is_split_of(ops@[ops@.len() - 1], id));
                    }
                }
            }
            i = i + 1;
        }
        ops
    }

    #[verifier::rlimit(100)]
    #[verifier::spinoff_prover]
    pub fn check_rebalancing(&mut self) -> (r: Vec<ShardOperation>)
        requires
            old(self).wf(),
        ensures
            final(self).wf(),
            final(self).spec_shards() == old(self).spec_shards(),
            final(self).spec_load_stats() == old(self).spec_load_stats(),
            final(self).spec_assignments() == old(self).spec_assignments(),
            final(self).spec_config() == old(self).spec_config(),
            final(self).spec_next_shard_id() >= old(self).spec_next_shard_id(),
            forall|k: int|
                0 <= k < r@.len() ==> split_planned(*old(self), #[trigger] r@[k]) || merge_planned(
                    *old(self),
                    r@[k],
                ),
            old(self).spec_next_shard_id() + 2 * old(self).spec_load_stats().len() <= u32::MAX
                ==> forall|id: ShardId|
                #[trigger] qualifies_for_split(*old(self), id) ==> exists|k: int|
                    0 <= k < r@.len() && op_is_split_of(r@[k], id),
            ((exists|a: ShardId, b: ShardId| merge_candidates(*old(self), a, b)) && old(
                self,
            ).spec_next_shard_id() + 2 * old(self).spec_load_stats().len() < u32::MAX) ==> exists|
                k: int,
            |
                0 <= k < r@.len() && op_is_merge_of_candidates(*old(self), #[trigger] r@[k]),
            forall|k1: int, k2: int|
                0 <= k1 < k2 < r@.len() ==> !(split_shard_of(#[trigger] r@[k1]) is Some
                    && split_shard_of(r@[k1]) == split_shard_of(#[trigger] r@[k2])),
            forall|k1: int, k2: int|
                0 <= k1 < k2 < r@.len() ==> !(is_merge_op(#[trigger] r@[k1]) && is_merge_op(
                    #[trigger] r@[k2],
                )),
            forall|k: int|
                0 <= k < r@.len() ==> match #[trigger] r@[k] {
                    ShardOperation::Split { new_shard_ids, .. } => new_shard_ids@[0] as int == old(
                        self,
                    ).spec_next_shard_id() + 2 * count_splits(r@.take(k)) && new_shard_ids@[1]
                        == new_shard_ids@[0] + 1,
                    _ => true,
                },
            final(self).spec_next_shard_id() as int == old(self).spec_next_shard_id() + 2
                * count_splits(r@),
    {
        let mut ops = self.plan_splits();
        let ghost ops_before = ops@;
        proof {
            assert forall|k: int| 0 <= k < ops_before.len() implies split_shard_of(
                #[trigger] ops_before[k],
            ) is Some by {
                assert(split_planned(*old(self), ops_before[k]));
            }
            lemma_count_splits_all(ops_before);
            assert forall|k: int| 0 <= k < ops_before.len() implies count_splits(
                ops_before.take(k),
            ) == k by {
                assert forall|k2: int| 0 <= k2 < ops_before.take(k).len() implies split_shard_of(
                    #[trigger] ops_before.take(k)[k2],
                ) is Some by {
                    assert(ops_before.take(k)[k2] == ops_before[k2]);
                    assert(split_planned(*old(self), ops_before[k2]));
                }
                lemma_count_splits_all(ops_before.take(k));
            }
        }
        let found_pair = self.find_merge_pair();
        match found_pair {
            Some((a, b)) if self.next_shard_id != u32::MAX => {
                let mut pair: Vec<ShardId> = Vec::new();
                pair.push(a);
                pair.push(b);
                let ghost ops_before = ops@;
                proof {
                    assert(merge_candidates(*old(self), a, b));
                }
                ops.push(
                    ShardOperation::Merge { shard_ids: pair, new_shard_id: self.next_shard_id },
                );
                proof {
                    assert(op_is_merge_of_candidates(*old(self), ops@[ops@.len() - 1]));
                    assert(ops@.drop_last() =~= ops_before);
                    assert(split_shard_of(ops@[ops@.len() - 1]) is None);
                    assert(count_splits(ops@) == count_splits(ops_before));
                    assert forall|k1: int, k2: int| 0 <= k1 < k2 < ops@.len() implies !(
                    split_shard_of(#[trigger] ops@[k1]) is Some && split_shard_of(ops@[k1])
                        == split_shard_of(#[trigger] ops@[k2])) by {
                        if k2 < ops_before.len() {
                            assert(ops@[k1] == ops_before[k1]);
                            assert(ops@[k2] == ops_before[k2]);
                        }
                    }
                    assert forall|k1: int, k2: int| 0 <= k1 < k2 < ops@.len() implies !(
                    is_merge_op(#[trigger] ops@[k1]) && is_merge_op(#[trigger] ops@[k2])) by {
                        assert(ops@[k1] == ops_before[k1]);
                        assert(split_planned(*old(self), ops_before[k1]));
                    }
                    assert forall|k: int| 0 <= k < ops@.len() implies match #[trigger] ops@[k] {
                        ShardOperation::Split { new_shard_ids, .. } => new_shard_ids@[0] as int
                            == old(self).spec_next_shard_id() + 2 * count_splits(ops@.take(k))
                            && new_shard_ids@[1] == new_shard_ids@[0] + 1,
                        _ => true,
                    } by {
                        if k < ops_before.len() {
                            assert(ops@[k] == ops_before[k]);
                            assert(ops@.take(k) =~= ops_before.take(k));
                        }
                    }
                    assert forall|k: int|
                        0 <= k < ops@.len() implies split_planned(*old(self), #[trigger] ops@[k])
                        || merge_planned(*old(self), ops@[k]) by {
                        if k < ops_before.len() {
                            assert(ops@[k] == ops_before[k]);
                        }
                    }
                    assert forall|id: ShardId|
                        #[trigger] qualifies_for_split(*old(self), id) && old(
                            self,
                        ).spec_next_shard_id() + 2 * old(self).spec_load_stats().len()
                            <= u32::MAX implies exists|k: int|
                        0 <= k < ops@.len() && op_is_split_of(ops@[k], id) by {
                        let w3 = choose|k2: int|
                            0 <= k2 < old(self).spec_load_stats().len() && old(
                                self,
                            ).spec_load_stats()[k2].0 == id;
                        let k0 = choose|k: int|
                            0 <= k < ops_before.len() && op_is_split_of(ops_before[k], id);
                        assert(ops@[k0] == ops_before[k0]);
                    }
                }
                ops
            },
            _ => {
                proof {
                    assert forall|k1: int, k2: int| 0 <= k1 < k2 < ops@.len() implies !(
                    is_merge_op(#[trigger] ops@[k1]) && is_merge_op(#[trigger] ops@[k2])) by {
                        assert(split_planned(*old(self), ops@[k1]));
                    }
                    assert forall|id: ShardId|
                        #[trigger] qualifies_for_split(*old(self), id) && old(
                            self,
                        ).spec_next_shard_id() + 2 * old(self).spec_load_stats().len()
                            <= u32::MAX implies exists|k: int|
                        0 <= k < ops@.len() && op_is_split_of(ops@[k], id) by {
                        let w3 = choose|k2: int|
                            0 <= k2 < old(self).spec_load_stats().len() && old(
                                self,
                            ).spec_load_stats()[k2].0 == id;
                    }
                    if (exists|a: ShardId, b: ShardId| merge_candidates(*old(self), a, b)) && old(
                        self,
                    ).spec_next_shard_id() + 2 * old(self).spec_load_stats().len() < u32::MAX {
                        assert(self.spec_next_shard_id() != u32::MAX);
                        assert(found_pair is None);
                        let (a, b): (ShardId, ShardId) = choose|a: ShardId, b: ShardId|
                            merge_candidates(*old(self), a, b);
                        assert(merge_candidates(*self, a, b));
                    }
                }
                ops
            },
        }
    }

    /// Execute planned operations in order.  On success the final
    /// state is reachable from the initial one by the operation list.
    pub fn execute_rebalancing(&mut self, operations: Vec<ShardOperation>) -> (r: Result<
        (),
        DAGError,
    >)
        requires
            old(self).wf(),
        ensures
            final(self).wf(),
            r is Ok ==> rebalance_steps(*old(self), *final(self), operations@),
            ops_executable(*old(self), operations@) ==> r is Ok,
    {
        let n = operations.len();
        proof {
            assert(operations@.skip(0) =~= operations@);
        }
        let mut k: usize = 0;
        while k < n
            invariant
                self.wf(),
                n == operations@.len(),
                k <= n,
                rebalance_steps(*old(self), *self, operations@.take(k as int)),
                ops_executable(*old(self), operations@) ==> ops_executable(
                    *self,
                    operations@.skip(k as int),
                ),
            decreases n - k,
        {
            let ghost before = *self;
            let op = &operations[k];
            let step = match op {
                ShardOperation::Split { shard_id, new_shard_ids } => self.execute_split(
                    *shard_id,
                    new_shard_ids,
                ),
                ShardOperation::Merge { shard_ids, new_shard_id } => self.execute_merge(
                    shard_ids,
                    *new_shard_id,
                ),
                ShardOperation::Reassign { namespace, from_shard, to_shard } => self
                    .execute_reassignment(namespace, *from_shard, *to_shard),
            };
            proof {
                if ops_executable(*old(self), operations@) {
                    assert(operations@.skip(k as int)[0] == operations@[k as int]);
                    assert(op_executable(before, operations@[k as int]));
                }
            }
            match step {
                Ok(()) => {},
                Err(e) => {
                    return Err(e);
                },
            }
            proof {
                assert(op_effect(before, *self, operations@[k as int]));
                lemma_rebalance_steps_snoc(
                    *old(self),
                    before,
                    *self,
                    operations@.take(k as int),
                    operations@[k as int],
                );
                assert(operations@.take(k + 1) =~= operations@.take(k as int).push(
                    operations@[k as int],
                ));
                if ops_executable(*old(self), operations@) {
                    assert(operations@.skip(k as int).drop_first() =~= operations@.skip(k + 1));
                    assert(ops_executable(*self, operations@.skip(k + 1)));
                }
            }
            k = k + 1;
        }
        proof {
            assert(operations@.take(n as int) =~= operations@);
        }
        Ok(())
    }
}

} // verus!
