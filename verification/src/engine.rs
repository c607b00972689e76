//! The DAG engine façade: admission validation, shard assignment,
//! durable storage, consensus rounds, and statistics, coordinated
//! behind one handle.
//!
//! Event delivery is the embedding application's concern: the engine
//! defines the event type, and an embedder that wants a broadcast bus
//! wraps these calls and publishes the events it constructs.

use vstd::prelude::*;

use crate::cache::{vertex_cache_model, VertexCache};
use crate::consensus::{
    proof_safety_ok, ConsensusConfig, FinalityProof, ValidatorInfo, VirtualVotingConsensus,
};
use crate::error::DAGError;
use crate::shard::{assign_effect, ShardConfig, ShardCoordinator};
use crate::storage::{store_effect, DAGVertexStore};
use crate::vertex::{DAGVertex, parents_distinct};
use crate::{ShardId, ValidatorId, VertexHash};

verus! {

/// Configuration of a DAG engine.
#[derive(Debug, Clone)]
pub struct DAGEngineConfig {
    /// Directory of the persistent store.
    pub storage_path: String,
    /// Consensus parameters.
    pub consensus_config: ConsensusConfig,
    /// Shard parameters.
    pub shard_config: ShardConfig,
}

/// Aggregated engine statistics.  The cache hit rate is an estimate
/// from cache fullness, in millionths of the unit interval.
#[derive(Debug, Clone, Copy, PartialEq, Eq, Structural)]
pub struct DAGStatistics {
    pub total_vertices: u64,
    pub active_shards: u32,
    pub cache_hit_rate: u64,
    pub consensus_rounds: u64,
}

/// Events the engine reports to its surroundings.  Delivery over a
/// broadcast bus is the embedding application's concern.
#[derive(Debug, Clone)]
pub enum DAGEvent {
    VertexInserted { vertex: DAGVertex, shard_id: ShardId },
    VertexFinalized { vertex_hash: VertexHash, finality_proof: FinalityProof },
    ShardSplit { old_shard: ShardId, new_shards: Vec<ShardId> },
    ShardMerge { merged_shards: Vec<ShardId>, new_shard: ShardId },
    ConsensusReached { round: u64, participants: Vec<ValidatorId> },
}

/// The engine: storage, consensus, shard coordination, and a hot
/// vertex cache.
pub struct DAGEngine {
    storage: DAGVertexStore,
    consensus: VirtualVotingConsensus,
    shard_coordinator: ShardCoordinator,
    vertex_cache: VertexCache,
}

/// Capacity of the engine's hot vertex cache.
pub const ENGINE_CACHE_CAPACITY: usize = 10000;

impl DAGEngine {
    /// The persistent store.
    pub closed spec fn spec_storage(self) -> DAGVertexStore {
        self.storage
    }

    /// The consensus engine.
    pub closed spec fn spec_consensus(self) -> VirtualVotingConsensus {
        self.consensus
    }

    /// The shard coordinator.
    pub closed spec fn spec_coordinator(self) -> ShardCoordinator {
        self.shard_coordinator
    }

    /// Well-formedness: every part is well-formed and the hot cache
    /// agrees with the store.
    pub closed spec fn wf(self) -> bool {
        &&& self.storage.wf()
        &&& self.consensus.wf()
        &&& self.shard_coordinator.wf()
        &&& forall|h: Seq<u8>|
            #[trigger] vertex_cache_model(self.vertex_cache).contains_key(h)
                ==> self.storage.vertex_at(h) == Some(vertex_cache_model(self.vertex_cache)[h])
    }

    /// Open an engine under the configured storage path.
    pub fn new(config: DAGEngineConfig) -> (r: Result<DAGEngine, DAGError>)
        ensures
            match r {
                Ok(e) => e.wf() && e.spec_consensus().spec_round() == 1
                    && e.spec_coordinator().spec_shards().len()
                    == config.shard_config.initial_shard_count,
                Err(_) => true,
            },
            config.shard_config.initial_shard_count < 1 ==> (r matches Err(e) && e matches
                DAGError::ConfigError(_)),
            (r matches Err(e) && e matches DAGError::ConfigError(_))
                ==> config.shard_config.initial_shard_count < 1,
            (config.shard_config.initial_shard_count >= 1 && r is Err) ==> (r matches Err(e)
                && e matches DAGError::StorageError(_)),
    {
        if config.shard_config.initial_shard_count < 1 {
            return Err(
                DAGError::ConfigError(String::from_str("at least one initial shard is required")),
            );
        }
        let storage = match DAGVertexStore::new(config.storage_path.as_str(), ENGINE_CACHE_CAPACITY) {
            Ok(s) => s,
            Err(e) => {
                return Err(
                    DAGError::StorageError(String::from_str("storage initialization failed")),
                );
            },
        };
        let consensus = VirtualVotingConsensus::new(config.consensus_config);
        let shard_coordinator = ShardCoordinator::new(config.shard_config);
        let vertex_cache = VertexCache::new(ENGINE_CACHE_CAPACITY);
        Ok(DAGEngine { storage, consensus, shard_coordinator, vertex_cache })
    }

    /// Admit a vertex: reject structurally bad vertices, assign a
    /// shard by namespace, persist, and keep the vertex hot.
    pub fn insert_vertex(&mut self, vertex: DAGVertex) -> (r: Result<(), DAGError>)
        requires
            old(self).wf(),
        ensures
            final(self).wf(),
            final(self).spec_consensus() == old(self).spec_consensus(),
            ((vertex@.parents.len() < 2 && vertex@.logical_clock > 0)
                || !DAGVertex::spec_parents_distinct(vertex@.parents)) ==> (r matches Err(e)
                && e matches DAGError::InvalidVertex(_) && *final(self) == *old(self)),
            (r matches Err(e) && e matches DAGError::InvalidVertex(_)) ==> ((vertex@.parents.len()
                < 2 && vertex@.logical_clock > 0) || !DAGVertex::spec_parents_distinct(
                vertex@.parents,
            )),
            r is Ok ==> {
                &&& vertex@.parents.len() >= 2 || vertex@.logical_clock == 0
                &&& DAGVertex::spec_parents_distinct(vertex@.parents)
                &&& store_effect(
                    old(self).spec_storage(),
                    final(self).spec_storage(),
                    vertex@,
                )
                &&& exists|sid: ShardId|
                    #[trigger] assign_effect(
                        old(self).spec_coordinator(),
                        final(self).spec_coordinator(),
                        vertex@,
                        sid,
                    )
            },
    {
        if vertex.parents.len() < 2 && vertex.logical_clock > 0 {
            return Err(DAGError::InvalidVertex(String::from_str("insufficient parent count")));
        }
        if !parents_distinct(&vertex.parents) {
            return Err(DAGError::InvalidVertex(String::from_str("duplicate parent references")));
        }
        let shard_id = self.shard_coordinator.assign_shard(&vertex);
        let ghost coord_mid = self.shard_coordinator;
        proof {
            assert(assign_effect(old(self).spec_coordinator(), coord_mid, vertex@, shard_id));
        }
        match self.storage.store_vertex(&vertex) {
            Ok(()) => {},
            Err(e) => {
                self.vertex_cache.clear();
                return Err(DAGError::StorageError(String::from_str("failed to store vertex")));
            },
        }
        let copy = vertex.duplicate();
        let ghost cache_before = self.vertex_cache;
        self.vertex_cache.put(vertex.hash, copy);
        proof {
            assert(self.shard_coordinator == coord_mid);
            assert(self.spec_coordinator() == coord_mid);
            assert(assign_effect(
                old(self).spec_coordinator(),
                self.spec_coordinator(),
                vertex@,
                shard_id,
            ));
            assert(self.storage.vertex_at(vertex@.hash) == Some(vertex@));
            assert forall|h: Seq<u8>| #[trigger] vertex_cache_model(
                self.vertex_cache,
            ).contains_key(h) implies self.storage.vertex_at(h) == Some(
                vertex_cache_model(self.vertex_cache)[h],
            ) by {
                if h != vertex@.hash {
                    assert(vertex_cache_model(self.vertex_cache).dom().contains(h));
                    assert(vertex_cache_model(cache_before).insert(
                        vertex@.hash,
                        vertex@,
                    ).dom().contains(h));
                    assert(vertex_cache_model(cache_before).contains_key(h));
                    assert(old(self).spec_storage().vertex_at(h) == Some(
                        vertex_cache_model(cache_before)[h],
                    ));
                    assert(self.storage.vertex_at(h) == old(self).spec_storage().vertex_at(h));
                }
            }
        }
        Ok(())
    }

    /// Retrieve a vertex: the hot cache first, then the store.
    pub fn get_vertex(&mut self, hash: &VertexHash) -> (r: Result<Option<DAGVertex>, DAGError>)
        requires
            old(self).wf(),
        ensures
            final(self).wf(),
            final(self).spec_storage().same_content(old(self).spec_storage()),
            match r {
                Ok(opt) => match opt {
                    Some(v) => final(self).spec_storage().vertex_at(hash@) == Some(v@),
                    None => !final(self).spec_storage().has_vertex_rec(hash@),
                },
                Err(_) => true,
            },
    {
        match self.vertex_cache.get(hash) {
            Some(v) => {
                proof {
                    assert(old(self).spec_storage().vertex_at(hash@) == Some(v@));
                }
                return Ok(Some(v));
            },
            None => {},
        }
        let found = match self.storage.get_vertex(hash) {
            Ok(o) => o,
            Err(e) => {
                return Err(DAGError::StorageError(String::from_str("failed to read vertex")));
            },
        };
        match found {
            Some(v) => {
                let copy = v.duplicate();
                let ghost cache_before = self.vertex_cache;
                self.vertex_cache.put(*hash, copy);
                proof {
                    assert forall|h: Seq<u8>| #[trigger] vertex_cache_model(
                        self.vertex_cache,
                    ).contains_key(h) implies self.storage.vertex_at(h) == Some(
                        vertex_cache_model(self.vertex_cache)[h],
                    ) by {
                        if h != hash@ {
                            assert(vertex_cache_model(self.vertex_cache).dom().contains(h));
                            assert(vertex_cache_model(cache_before).insert(
                                hash@,
                                v@,
                            ).dom().contains(h));
                            assert(vertex_cache_model(cache_before).contains_key(h));
                            assert(old(self).spec_storage().vertex_at(h) == Some(
                                vertex_cache_model(cache_before)[h],
                            ));
                        }
                    }
                }
                Ok(Some(v))
            },
            None => Ok(None),
        }
    }

    /// Run one consensus round over the candidate hashes.  The round
    /// number advances by exactly one and every returned proof
    /// satisfies the Byzantine safety conditions.
    pub fn process_consensus_round(&mut self, vertices: Vec<VertexHash>) -> (r: Result<
        Vec<FinalityProof>,
        DAGError,
    >)
        requires
            old(self).wf(),
            old(self).spec_consensus().spec_round() < u64::MAX,
            vertices@.len() <= u32::MAX,
        ensures
            final(self).wf(),
            final(self).spec_consensus().spec_round() == old(self).spec_consensus().spec_round()
                + 1,
            r matches Ok(proofs) ==> forall|k: int|
                0 <= k < proofs@.len() ==> proof_safety_ok(#[trigger] proofs@[k])
                    && proofs@[k].finality_round == old(self).spec_consensus().spec_round() + 1
                    && proofs@[k].bft_proof.total_validators as nat == old(self).spec_consensus().spec_validator_count() && proofs@[k].bft_proof.total_stake
                    == old(self).spec_consensus().spec_validators().total_stake
                    && proofs@[k].bft_proof.supporting_vote_count as nat == old(self).spec_consensus().spec_validator_count()
                    && proofs@[k].bft_proof.supporting_stake == old(self).spec_consensus().spec_validators().total_stake,
            r matches Ok(proofs) ==> ((old(self).spec_consensus().spec_validator_count() >= 1
                && old(self).spec_consensus().spec_validators().total_stake >= 1)
                ==> crate::consensus::round_emits_all(
                old(self).spec_consensus(),
                vertices@,
                proofs@,
            )),
            r matches Ok(proofs) ==> (old(self).spec_consensus().spec_validator_count() == 0
                ==> proofs@.len() == 0),
            r is Ok,
            r matches Ok(proofs) ==> crate::consensus::proofs_from_candidates(
                vertices@,
                proofs@,
            ),
            r matches Ok(proofs) ==> crate::consensus::one_proof_per_vertex(proofs@),
    {
        self.consensus.process_round(vertices)
    }

    /// Register a validator with the consensus engine.
    pub fn add_validator(&mut self, validator_id: ValidatorId, validator_info: ValidatorInfo)
        requires
            old(self).wf(),
            old(self).spec_consensus().spec_validators().total_stake + validator_info.stake
                <= u64::MAX,
            old(self).spec_consensus().spec_validator_count() + 1 < u32::MAX,
        ensures
            final(self).wf(),
            final(self).spec_consensus().spec_round() == old(self).spec_consensus().spec_round(),
    {
        self.consensus.add_validator(validator_id, validator_info);
    }

    /// How full the hot cache currently is.
    pub closed spec fn spec_cache_fullness(self) -> nat {
        vertex_cache_model(self.vertex_cache).dom().len()
    }

    /// Current engine statistics: store totals, active shard count,
    /// the fullness-based cache hit estimate (at most 950000 per
    /// million), and the round number.
    pub fn get_statistics(&self) -> (r: DAGStatistics)
        requires
            self.wf(),
        ensures
            r.total_vertices == self.spec_storage().spec_stats().total_vertices,
            r.consensus_rounds == self.spec_consensus().spec_round(),
            r.cache_hit_rate == 95 * (if self.spec_cache_fullness() > 10000 {
                10000nat
            } else {
                self.spec_cache_fullness()
            }),
            r.cache_hit_rate <= 950000,
            r.active_shards as nat == if crate::shard::count_active(
                self.spec_coordinator().spec_shards(),
            ) <= u32::MAX as nat {
                crate::shard::count_active(self.spec_coordinator().spec_shards())
            } else {
                u32::MAX as nat
            },
    {
        let stats = self.storage.get_stats();
        let fullness = self.vertex_cache.len();
        let capped: u64 = if fullness > ENGINE_CACHE_CAPACITY {
            ENGINE_CACHE_CAPACITY as u64
        } else {
            fullness as u64
        };
        DAGStatistics {
            total_vertices: stats.total_vertices,
            active_shards: self.shard_coordinator.get_active_shard_count(),
            cache_hit_rate: capped * 95,
            consensus_rounds: self.consensus.get_round_count(),
        }
    }
}

} // verus!
