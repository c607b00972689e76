//! Virtual-voting consensus with mathematical finality proofs.
//!
//! Each round collects one stake-weighted vote per validator and
//! candidate vertex, then gossip witness statements about every vote,
//! and finally emits a finality proof for each candidate whose
//! support crosses the Byzantine safety thresholds.

use vstd::prelude::*;

use crate::codec::{enc_hashes, enc_u64, hashes_view, push_hashes, push_slice, push_u64};
use crate::crypto::{blake3_hash32, blake3_of, now_millis};
use crate::error::DAGError;
use crate::vertex::clone_hash_vec;
use crate::{ValidatorId, VertexHash};

verus! {

/// Hash of a virtual vote.
pub type VoteHash = [u8; 32];

/// Consensus configuration.
#[derive(Debug, Clone, Copy, PartialEq, Eq, Structural)]
pub struct ConsensusConfig {
    /// Minimum number of validators required.
    pub min_validators: u32,
    /// Maximum number of validators allowed.
    pub max_validators: u32,
    /// Advisory Byzantine threshold, in hundredths.
    pub bft_threshold_percent: u32,
    /// Soft deadline for a round, milliseconds.
    pub round_timeout_ms: u64,
    /// Maximum rounds to wait for finality.
    pub max_finality_rounds: u32,
}

impl Default for ConsensusConfig {
    /// The default configuration.
    fn default() -> (r: ConsensusConfig)
        ensures
            r.min_validators == 4,
            r.max_validators == 25,
            r.bft_threshold_percent == 67,
            r.round_timeout_ms == 2000,
            r.max_finality_rounds == 10,
    {
        ConsensusConfig {
            min_validators: 4,
            max_validators: 25,
            bft_threshold_percent: 67,
            round_timeout_ms: 2000,
            max_finality_rounds: 10,
        }
    }
}

/// Validator tiers by stake bracket.
#[derive(Debug, Clone, Copy, PartialEq, Eq, Structural)]
pub enum ValidatorTier {
    Bronze,
    Silver,
    Gold,
    Platinum,
}

/// The tier a stake amount falls into: Bronze below 100k (the
/// nominal bracket starts at 50k and smaller stakes default to
/// Bronze), Silver below 250k, Gold below 500k, Platinum beyond.
pub open spec fn tier_of(stake: u64) -> ValidatorTier {
    if stake >= 500_000 {
        ValidatorTier::Platinum
    } else if stake >= 250_000 {
        ValidatorTier::Gold
    } else if stake >= 100_000 {
        ValidatorTier::Silver
    } else {
        ValidatorTier::Bronze
    }
}

/// Information about a validator.  The performance score is held in
/// millionths, clamped to the unit interval.
#[derive(Debug, Clone, Copy, PartialEq)]
pub struct ValidatorInfo {
    /// Compressed public key.
    pub public_key: [u8; 48],
    /// Staked amount.
    pub stake: u64,
    /// Tier derived from the stake bracket.
    pub tier: ValidatorTier,
    /// Last activity, milliseconds.
    pub last_activity: u64,
    /// Performance score in millionths of the unit interval.
    pub performance_score: u64,
}

impl ValidatorInfo {
    /// Register a validator: the tier is determined by the stake
    /// bracket alone.
    pub fn new(public_key: [u8; 48], stake: u64) -> (r: ValidatorInfo)
        ensures
            r.public_key@ == public_key@,
            r.stake == stake,
            r.tier == tier_of(stake),
            r.performance_score == 1_000_000,
    {
        let tier = if stake >= 500_000 {
            ValidatorTier::Platinum
        } else if stake >= 250_000 {
            ValidatorTier::Gold
        } else if stake >= 100_000 {
            ValidatorTier::Silver
        } else {
            ValidatorTier::Bronze
        };
        ValidatorInfo {
            public_key,
            stake,
            tier,
            last_activity: now_millis(),
            performance_score: 1_000_000,
        }
    }

    /// Update the performance score, clamped into the unit interval.
    pub fn update_performance(&mut self, new_score: u64)
        ensures
            final(self).performance_score == if new_score > 1_000_000 {
                1_000_000u64
            } else {
                new_score
            },
            final(self).public_key@ == old(self).public_key@,
            final(self).stake == old(self).stake,
            final(self).tier == old(self).tier,
    {
        self.performance_score = if new_score > 1_000_000 {
            1_000_000
        } else {
            new_score
        };
        self.last_activity = now_millis();
    }
}

/// Vote kind.
#[derive(Debug, Clone, Copy, PartialEq, Eq, Structural)]
pub enum VoteType {
    Approve,
    Reject,
}

/// Proof of stake eligibility attached to a vote.
#[derive(Debug, Clone, PartialEq)]
pub struct StakeProof {
    /// Stake amount.
    pub stake: u64,
    /// Merkle proof of the stake.
    pub merkle_proof: Vec<[u8; 32]>,
    /// Stake commitment.
    pub commitment: [u8; 32],
}

/// A validator's per-vertex vote in one round.
#[derive(Debug, Clone, PartialEq)]
pub struct VirtualVote {
    /// Validator that cast the vote.
    pub validator: ValidatorId,
    /// Vertex voted on.
    pub vertex_hash: VertexHash,
    /// Approve or reject.
    pub vote_type: VoteType,
    /// Round number.
    pub round: u64,
    /// Timestamp, milliseconds.
    pub timestamp: u64,
    /// Signature of the vote.
    pub signature: [u8; 48],
    /// Stake eligibility proof.
    pub stake_proof: StakeProof,
}

impl VirtualVote {
    /// Deep copy with proved field equality.
    pub fn duplicate(&self) -> (r: VirtualVote)
        ensures
            vote_view_eq(r, *self),
            enc_vote(r) == enc_vote(*self),
    {
        let r = VirtualVote {
            validator: self.validator,
            vertex_hash: self.vertex_hash,
            vote_type: self.vote_type,
            round: self.round,
            timestamp: self.timestamp,
            signature: self.signature,
            stake_proof: StakeProof {
                stake: self.stake_proof.stake,
                merkle_proof: clone_hash_vec(&self.stake_proof.merkle_proof),
                commitment: self.stake_proof.commitment,
            },
        };
        r
    }
}

/// Witness kind for a gossip vote.
#[derive(Debug, Clone, Copy, PartialEq, Eq, Structural)]
pub enum WitnessType {
    /// Witnessed the vote directly.
    DirectWitness,
    /// Heard about the vote transitively.
    IndirectWitness,
}

/// A validator's witness statement about another validator's vote.
#[derive(Debug, Clone, Copy, PartialEq)]
pub struct GossipVote {
    /// Validator casting the witness statement.
    pub validator: ValidatorId,
    /// Hash of the witnessed vote.
    pub original_vote_hash: VoteHash,
    /// Direct or indirect witness.
    pub witness_type: WitnessType,
    /// Round number.
    pub round: u64,
    /// Timestamp, milliseconds.
    pub timestamp: u64,
    /// Signature.
    pub signature: [u8; 48],
}

/// All votes collected for one vertex.
#[derive(Debug, Clone, PartialEq)]
pub struct VoteRecord {
    /// The votes, one per validator.
    pub votes: Vec<VirtualVote>,
    /// Count of approvals.
    pub approvals: u32,
    /// Count of rejections.
    pub rejections: u32,
    /// Total stake that voted.
    pub total_voting_stake: u64,
    /// Whether both vote-count and stake thresholds were crossed.
    pub consensus_reached: bool,
}

/// Gossip statements collected about one vote.
#[derive(Debug, Clone, PartialEq)]
pub struct GossipVoteRecord {
    /// The vote being witnessed.
    pub original_vote: VirtualVote,
    /// Witness statements from the other validators.
    pub gossip_votes: Vec<GossipVote>,
    /// Count of direct witnesses.
    pub direct_witnesses: u32,
    /// Count of indirect witnesses.
    pub indirect_witnesses: u32,
    /// Whether the witness count crossed the threshold.
    pub gossip_consensus: bool,
}

/// The Byzantine safety computation of a finality proof.
#[derive(Debug, Clone, Copy, PartialEq, Eq, Structural)]
pub struct BFTSafetyProof {
    /// Number of validators.
    pub total_validators: u32,
    /// Tolerated Byzantine faults: one third of the rest.
    pub max_byzantine_faults: u32,
    /// Number of supporting votes.
    pub supporting_vote_count: u32,
    /// Stake behind the supporting votes.
    pub supporting_stake: u64,
    /// Total stake of the network.
    pub total_stake: u64,
    /// Whether both safety conditions hold.
    pub safety_satisfied: bool,
}

/// A mathematical record that a vertex crossed the safety threshold.
#[derive(Debug, Clone, PartialEq)]
pub struct FinalityProof {
    /// The finalized vertex.
    pub vertex_hash: VertexHash,
    /// Round in which finality was reached.
    pub finality_round: u64,
    /// The approving votes.
    pub supporting_votes: Vec<VirtualVote>,
    /// Witness statements from records with gossip consensus.
    pub witness_votes: Vec<GossipVote>,
    /// The safety computation.
    pub bft_proof: BFTSafetyProof,
    /// Timestamp of finality, milliseconds.
    pub finality_timestamp: u64,
}

impl FinalityProof {
    /// Deep copy with proved equality of every field, votes compared
    /// by their views.
    pub fn duplicate(&self) -> (r: FinalityProof)
        ensures
            r.vertex_hash@ == self.vertex_hash@,
            r.finality_round == self.finality_round,
            r.bft_proof == self.bft_proof,
            r.supporting_votes@.len() == self.supporting_votes@.len(),
            forall|i: int|
                0 <= i < self.supporting_votes@.len() ==> vote_view_eq(
                    #[trigger] r.supporting_votes@[i],
                    self.supporting_votes@[i],
                ),
            r.witness_votes@ == self.witness_votes@,
            r.finality_timestamp == self.finality_timestamp,
    {
        let mut sv: Vec<VirtualVote> = Vec::new();
        let n = self.supporting_votes.len();
        let mut i: usize = 0;
        while i < n
            invariant
                n == self.supporting_votes@.len(),
                i <= n,
                sv@.len() == i,
                forall|k: int|
                    0 <= k < i ==> vote_view_eq(#[trigger] sv@[k], self.supporting_votes@[k]),
            decreases n - i,
        {
            sv.push(self.supporting_votes[i].duplicate());
            i = i + 1;
        }
        let mut wv: Vec<GossipVote> = Vec::new();
        let m = self.witness_votes.len();
        let mut j: usize = 0;
        while j < m
            invariant
                m == self.witness_votes@.len(),
                j <= m,
                wv@.len() == j,
                forall|k: int| 0 <= k < j ==> #[trigger] wv@[k] == self.witness_votes@[k],
            decreases m - j,
        {
            wv.push(self.witness_votes[j]);
            j = j + 1;
        }
        proof {
            assert(wv@ =~= self.witness_votes@);
        }
        FinalityProof {
            vertex_hash: self.vertex_hash,
            finality_round: self.finality_round,
            supporting_votes: sv,
            witness_votes: wv,
            bft_proof: self.bft_proof,
            finality_timestamp: self.finality_timestamp,
        }
    }
}

/// Statistics of one round.
#[derive(Debug, Clone, Copy, PartialEq, Eq, Structural)]
pub struct RoundStats {
    /// Vertices proposed in the round.
    pub vertices_proposed: u32,
    /// Vertices finalized in the round.
    pub vertices_finalized: u32,
    /// Validators active in the round.
    pub active_validators: u32,
    /// Round duration, milliseconds.
    pub duration_ms: u64,
    /// Average consensus time per proposed vertex.
    pub avg_consensus_time_ms: u64,
}

/// The validator set.
#[derive(Debug, Clone, PartialEq)]
pub struct ValidatorSet {
    /// The validators with their information, in insertion order.
    pub validators: Vec<(ValidatorId, ValidatorInfo)>,
    /// Total stake of the set.
    pub total_stake: u64,
    /// Current epoch.
    pub epoch: u64,
}

/// Sum of the stakes in a validator list.
pub open spec fn sum_stakes(s: Seq<(ValidatorId, ValidatorInfo)>) -> int
    decreases s.len(),
{
    if s.len() == 0 {
        0
    } else {
        sum_stakes(s.drop_last()) + s.last().1.stake
    }
}

/// Unique validator identifiers.
pub open spec fn unique_validator_ids(s: Seq<(ValidatorId, ValidatorInfo)>) -> bool {
    forall|i: int, j: int| 0 <= i < j < s.len() ==> s[i].0@ != s[j].0@
}

/// Well-formedness of a validator set: unique identifiers, the total
/// equal to the sum of the stakes, and a bounded count.
pub open spec fn validator_set_wf(s: ValidatorSet) -> bool {
    &&& unique_validator_ids(s.validators@)
    &&& s.total_stake == sum_stakes(s.validators@)
    &&& s.validators@.len() < u32::MAX
}

/// A prefix never sums to more than the whole list.
proof fn lemma_sum_stakes_prefix(s: Seq<(ValidatorId, ValidatorInfo)>, i: int)
    requires
        0 <= i <= s.len(),
    ensures
        sum_stakes(s.take(i)) <= sum_stakes(s),
        sum_stakes(s.take(i)) >= 0,
        sum_stakes(s) >= 0,
    decreases s.len(),
{
    if s.len() == 0 {
        assert(s.take(i) =~= s);
    } else if i == s.len() {
        assert(s.take(i) =~= s);
        lemma_sum_stakes_prefix(s.drop_last(), s.len() - 1);
    } else {
        assert(s.take(i) =~= s.drop_last().take(i));
        lemma_sum_stakes_prefix(s.drop_last(), i);
    }
}

/// Removing one entry lowers the sum by exactly its stake.
proof fn lemma_sum_stakes_remove(s: Seq<(ValidatorId, ValidatorInfo)>, k: int)
    requires
        0 <= k < s.len(),
    ensures
        sum_stakes(s.remove(k)) == sum_stakes(s) - s[k].1.stake,
    decreases s.len(),
{
    if k == s.len() - 1 {
        assert(s.remove(k) =~= s.drop_last());
    } else {
        assert(s.remove(k).drop_last() =~= s.drop_last().remove(k));
        assert(s.remove(k).last() == s.last());
        lemma_sum_stakes_remove(s.drop_last(), k);
    }
}

/// Appending one entry raises the sum by exactly its stake.
proof fn lemma_sum_stakes_push(s: Seq<(ValidatorId, ValidatorInfo)>, e: (ValidatorId, ValidatorInfo))
    ensures
        sum_stakes(s.push(e)) == sum_stakes(s) + e.1.stake,
{
    assert(s.push(e).drop_last() =~= s);
    assert(s.push(e).last() == e);
}

/// Field-wise equality of two votes, with views compared.
pub open spec fn vote_view_eq(a: VirtualVote, b: VirtualVote) -> bool {
    &&& a.validator@ == b.validator@
    &&& a.vertex_hash@ == b.vertex_hash@
    &&& a.vote_type == b.vote_type
    &&& a.round == b.round
    &&& a.timestamp == b.timestamp
    &&& a.signature@ == b.signature@
    &&& a.stake_proof.stake == b.stake_proof.stake
    &&& hashes_view(a.stake_proof.merkle_proof@) == hashes_view(b.stake_proof.merkle_proof@)
    &&& a.stake_proof.commitment@ == b.stake_proof.commitment@
}

/// Number of approving votes in a list.
pub open spec fn count_approvals(votes: Seq<VirtualVote>) -> nat
    decreases votes.len(),
{
    if votes.len() == 0 {
        0
    } else {
        count_approvals(votes.drop_last()) + if votes.last().vote_type == VoteType::Approve {
            1nat
        } else {
            0nat
        }
    }
}

/// A list of approvals counts its own length.
pub proof fn lemma_count_all_approvals(votes: Seq<VirtualVote>)
    requires
        forall|i: int| 0 <= i < votes.len() ==> (#[trigger] votes[i]).vote_type == VoteType::Approve,
    ensures
        count_approvals(votes) == votes.len(),
    decreases votes.len(),
{
    if votes.len() > 0 {
        lemma_count_all_approvals(votes.drop_last());
    }
}

/// Lists with pointwise-equal vote kinds count the same approvals.
pub proof fn lemma_count_approvals_pointwise(a: Seq<VirtualVote>, b: Seq<VirtualVote>)
    requires
        a.len() == b.len(),
        forall|i: int| 0 <= i < a.len() ==> (#[trigger] a[i]).vote_type == b[i].vote_type,
    ensures
        count_approvals(a) == count_approvals(b),
    decreases a.len(),
{
    if a.len() > 0 {
        lemma_count_approvals_pointwise(a.drop_last(), b.drop_last());
    }
}

/// Number of validators other than the given one.
pub open spec fn count_others(vals: Seq<(ValidatorId, ValidatorInfo)>, id: Seq<u8>) -> nat
    decreases vals.len(),
{
    if vals.len() == 0 {
        0
    } else {
        count_others(vals.drop_last(), id) + if vals.last().0@ != id {
            1nat
        } else {
            0nat
        }
    }
}

/// Canonical encoding of a virtual vote, the input of its hash.
pub open spec fn enc_vote(v: VirtualVote) -> Seq<u8> {
    v.validator@ + v.vertex_hash@ + (match v.vote_type {
        VoteType::Approve => seq![0u8],
        VoteType::Reject => seq![1u8],
    }) + enc_u64(v.round) + enc_u64(v.timestamp) + v.signature@ + enc_u64(v.stake_proof.stake)
        + enc_hashes(hashes_view(v.stake_proof.merkle_proof@)) + v.stake_proof.commitment@
}


/// The validator info registered under an identifier.
pub open spec fn validator_lookup(s: Seq<(ValidatorId, ValidatorInfo)>, id: Seq<u8>) -> Option<
    ValidatorInfo,
> {
    if exists|i: int| 0 <= i < s.len() && s[i].0@ == id {
        let i = choose|i: int| 0 <= i < s.len() && s[i].0@ == id;
        Some(s[i].1)
    } else {
        None
    }
}

/// Unique 32-byte keys in an association list.
pub open spec fn unique_hash_keys<T>(s: Seq<(VertexHash, T)>) -> bool {
    forall|i: int, j: int| 0 <= i < j < s.len() ==> s[i].0@ != s[j].0@
}

/// The vote-count threshold: more than two thirds of the validators.
pub open spec fn required_votes(n: nat) -> nat {
    n * 2 / 3 + 1
}

/// The stake threshold: more than two thirds of the total stake.
pub open spec fn required_stake(total: u64) -> int {
    (total as int) * 2 / 3 + 1
}

/// The Byzantine fault bound: a third of all but one validator.
pub open spec fn fault_bound(n: nat) -> nat {
    if n == 0 {
        0
    } else {
        ((n - 1) / 3) as nat
    }
}

/// The safety conditions every emitted finality proof satisfies;
/// the supporting votes are approvals only.
pub open spec fn proof_safety_ok(p: FinalityProof) -> bool {
    &&& p.bft_proof.safety_satisfied
    &&& p.bft_proof.max_byzantine_faults == fault_bound(p.bft_proof.total_validators as nat)
    &&& p.supporting_votes@.len() == p.bft_proof.supporting_vote_count
    &&& p.bft_proof.supporting_vote_count >= 2 * p.bft_proof.max_byzantine_faults + 1
    &&& (p.bft_proof.supporting_stake as int) > (p.bft_proof.total_stake as int) * 2 / 3
    &&& forall|i: int|
        0 <= i < p.supporting_votes@.len() ==> (#[trigger] p.supporting_votes@[i]).vote_type
            == VoteType::Approve
}

/// The vote record phase one stores for a candidate under the
/// always-approve placeholder: one approving vote per validator in
/// order, carrying that validator's stake; tallies match the set and
/// the consensus flag tests both two-thirds thresholds.
pub open spec fn vote_record_ok(
    rec: VoteRecord,
    vals: Seq<(ValidatorId, ValidatorInfo)>,
    total: u64,
    vertex_hash: Seq<u8>,
    round: u64,
) -> bool {
    &&& rec.votes@.len() == vals.len()
    &&& forall|i: int|
        0 <= i < vals.len() ==> {
            let v = #[trigger] rec.votes@[i];
            v.validator@ == vals[i].0@ && v.vertex_hash@ == vertex_hash && v.vote_type
                == VoteType::Approve && v.round == round && v.stake_proof.stake == vals[i].1.stake
        }
    &&& rec.approvals as nat == vals.len()
    &&& rec.rejections == 0
    &&& rec.total_voting_stake == total
    &&& rec.consensus_reached == ((rec.approvals as nat >= required_votes(vals.len())) && (
    rec.total_voting_stake as int >= required_stake(total)))
}

/// The gossip record phase two stores for a vote under the
/// always-witnessed placeholder: one direct witness statement from
/// every other validator, no indirect ones, and the consensus flag
/// testing the witness count against the two-thirds threshold.
pub open spec fn gossip_record_ok(
    g: GossipVoteRecord,
    vals: Seq<(ValidatorId, ValidatorInfo)>,
    round: u64,
) -> bool {
    &&& g.direct_witnesses as nat == count_others(vals, g.original_vote.validator@)
    &&& g.indirect_witnesses == 0
    &&& g.gossip_votes@.len() == g.direct_witnesses as nat
    &&& forall|i: int|
        0 <= i < g.gossip_votes@.len() ==> {
            let w = #[trigger] g.gossip_votes@[i];
            w.witness_type == WitnessType::DirectWitness && w.round == round && w.validator@
                != g.original_vote.validator@ && w.original_vote_hash@ == blake3_of(
                enc_vote(g.original_vote),
            )
        }
    &&& g.gossip_consensus == ((g.direct_witnesses as nat + g.indirect_witnesses as nat)
        >= required_votes(vals.len()))
}

/// The approving votes of a list, in order.
pub open spec fn approve_votes(votes: Seq<VirtualVote>) -> Seq<VirtualVote> {
    votes.filter(|v: VirtualVote| v.vote_type == VoteType::Approve)
}

/// The witness statement comes from a gossip record that reached
/// gossip consensus on one of the record's approving votes.
pub open spec fn witness_from_consensus_record(
    c: VirtualVotingConsensus,
    rec: VoteRecord,
    w: GossipVote,
) -> bool {
    exists|j: int|
        {
            &&& 0 <= j < rec.votes@.len()
            &&& (#[trigger] rec.votes@[j]).vote_type == VoteType::Approve
            &&& match c.spec_gossip_record(blake3_of(enc_vote(rec.votes@[j]))) {
                Some(g) => g.gossip_consensus && g.gossip_votes@.contains(w),
                None => false,
            }
        }
}

/// Votes with equal views have equal canonical encodings.
pub proof fn lemma_enc_vote_view_eq(a: VirtualVote, b: VirtualVote)
    requires
        vote_view_eq(a, b),
    ensures
        enc_vote(a) == enc_vote(b),
{
}

/// Lists of pointwise view-equal votes have pointwise view-equal
/// approving sublists.
pub proof fn lemma_approve_votes_view_eq(a: Seq<VirtualVote>, b: Seq<VirtualVote>)
    requires
        a.len() == b.len(),
        forall|i: int| 0 <= i < a.len() ==> vote_view_eq(#[trigger] a[i], b[i]),
    ensures
        approve_votes(a).len() == approve_votes(b).len(),
        forall|i: int|
            0 <= i < approve_votes(a).len() ==> vote_view_eq(
                #[trigger] approve_votes(a)[i],
                approve_votes(b)[i],
            ),
    decreases a.len(),
{
    broadcast use vstd::seq_lib::group_seq_properties;

    if a.len() > 0 {
        lemma_approve_votes_view_eq(a.drop_last(), b.drop_last());
        assert(a =~= a.drop_last().push(a.last()));
        assert(b =~= b.drop_last().push(b.last()));
        a.drop_last().lemma_filter_push(a.last(), |v: VirtualVote| v.vote_type == VoteType::Approve);
        b.drop_last().lemma_filter_push(b.last(), |v: VirtualVote| v.vote_type == VoteType::Approve);
        assert(vote_view_eq(a.last(), b.last()));
        if a.last().vote_type == VoteType::Approve {
            assert(approve_votes(a) =~= approve_votes(a.drop_last()).push(a.last()));
            assert(approve_votes(b) =~= approve_votes(b.drop_last()).push(b.last()));
        } else {
            assert(approve_votes(a) =~= approve_votes(a.drop_last()));
            assert(approve_votes(b) =~= approve_votes(b.drop_last()));
        }
    }
}

/// Every fresh, distinct candidate of a round is matched by an
/// emitted proof in the result.
pub open spec fn round_emits_all(
    pre: VirtualVotingConsensus,
    vertices: Seq<VertexHash>,
    proofs: Seq<FinalityProof>,
) -> bool {
    forall|k: int|
        0 <= k < vertices.len() && !pre.spec_has_proof((#[trigger] vertices[k])@) && (forall|
            k2: int,
        |
            0 <= k2 < k ==> vertices[k2]@ != vertices[k]@) ==> exists|i: int|
            0 <= i < proofs.len() && (#[trigger] proofs[i]).vertex_hash@ == vertices[k]@
}

/// The hash views of a list of candidate vertices.
pub open spec fn candidate_hashes(vertices: Seq<VertexHash>) -> Seq<Seq<u8>> {
    Seq::new(vertices.len(), |k: int| vertices[k]@)
}

/// Every proof in the result finalizes one of the round's candidates.
pub open spec fn proofs_from_candidates(
    vertices: Seq<VertexHash>,
    proofs: Seq<FinalityProof>,
) -> bool {
    forall|i: int|
        0 <= i < proofs.len() ==> candidate_hashes(vertices).contains(
            (#[trigger] proofs[i]).vertex_hash@,
        )
}

/// No two proofs in the result finalize the same vertex.
pub open spec fn one_proof_per_vertex(proofs: Seq<FinalityProof>) -> bool {
    forall|i1: int, i2: int|
        0 <= i1 < i2 < proofs.len() ==> (#[trigger] proofs[i1]).vertex_hash@ != (
        #[trigger] proofs[i2]).vertex_hash@
}

/// The virtual-voting consensus engine.
pub struct VirtualVotingConsensus {
    config: ConsensusConfig,
    validators: ValidatorSet,
    votes: Vec<(VertexHash, VoteRecord)>,
    gossip_votes: Vec<(VoteHash, GossipVoteRecord)>,
    finality_proofs: Vec<(VertexHash, FinalityProof)>,
    current_round: u64,
    round_stats: Vec<(u64, RoundStats)>,
}

impl VirtualVotingConsensus {
    /// The current round number.
    pub closed spec fn spec_round(self) -> u64 {
        self.current_round
    }

    /// The validator set.
    pub closed spec fn spec_validators(self) -> ValidatorSet {
        self.validators
    }

    /// Number of registered validators.
    pub open spec fn spec_validator_count(self) -> nat {
        self.spec_validators().validators@.len()
    }

    /// The vote record stored for a vertex hash, if any.
    pub closed spec fn spec_vote_record(self, h: Seq<u8>) -> Option<VoteRecord> {
        hash_lookup(self.votes@, h)
    }

    /// The gossip record stored for a vote hash, if any.
    pub closed spec fn spec_gossip_record(self, h: Seq<u8>) -> Option<GossipVoteRecord> {
        hash_lookup(self.gossip_votes@, h)
    }

    /// Whether a finality proof exists for a vertex.
    pub closed spec fn spec_has_proof(self, h: Seq<u8>) -> bool {
        exists|i: int| 0 <= i < self.finality_proofs@.len() && self.finality_proofs@[i].0@ == h
    }

    /// Well-formedness of the engine state.
    pub closed spec fn wf(self) -> bool {
        &&& validator_set_wf(self.validators)
        &&& unique_hash_keys(self.votes@)
        &&& unique_hash_keys(self.gossip_votes@)
        &&& unique_hash_keys(self.finality_proofs@)
        &&& forall|i: int|
            0 <= i < self.votes@.len() ==> (#[trigger] self.votes@[i]).1.votes@.len() < u32::MAX
        &&& forall|i: int|
            0 <= i < self.finality_proofs@.len() ==> (#[trigger] self.finality_proofs@[
                i
            ]).1.vertex_hash@ == self.finality_proofs@[i].0@ && proof_safety_ok(
                self.finality_proofs@[i].1,
            )
    }

    /// Create a consensus engine with no validators, at round one.
    pub fn new(config: ConsensusConfig) -> (r: VirtualVotingConsensus)
        ensures
            r.wf(),
            r.spec_round() == 1,
            r.spec_validator_count() == 0,
            r.spec_validators().total_stake == 0,
            forall|h: Seq<u8>| !r.spec_has_proof(h),
            forall|h: Seq<u8>| r.spec_vote_record(h) is None,
            forall|h: Seq<u8>| r.spec_gossip_record(h) is None,
    {
        VirtualVotingConsensus {
            config,
            validators: ValidatorSet { validators: Vec::new(), total_stake: 0, epoch: 0 },
            votes: Vec::new(),
            gossip_votes: Vec::new(),
            finality_proofs: Vec::new(),
            current_round: 1,
            round_stats: Vec::new(),
        }
    }

    /// Number of registered validators.
    pub fn validator_count(&self) -> (r: usize)
        ensures
            r == self.spec_validator_count(),
    {
        self.validators.validators.len()
    }

    /// Total stake of the validator set.
    pub fn total_stake(&self) -> (r: u64)
        ensures
            r == self.spec_validators().total_stake,
    {
        self.validators.total_stake
    }

    /// The current round number.
    pub fn get_round_count(&self) -> (r: u64)
        ensures
            r == self.spec_round(),
    {
        self.current_round
    }

    /// Index of a validator, if registered.
    fn find_validator_index(&self, id: &ValidatorId) -> (r: Option<usize>)
        requires
            unique_validator_ids(self.validators.validators@),
        ensures
            match r {
                Some(i) => i < self.validators.validators@.len()
                    && self.validators.validators@[i as int].0@ == id@ && validator_lookup(
                    self.validators.validators@,
                    id@,
                ) == Some(self.validators.validators@[i as int].1),
                None => validator_lookup(self.validators.validators@, id@) is None,
            },
    {
        let n = self.validators.validators.len();
        let mut i: usize = 0;
        while i < n
            invariant
                unique_validator_ids(self.validators.validators@),
                n == self.validators.validators@.len(),
                i <= n,
                forall|k: int| 0 <= k < i ==> (#[trigger] self.validators.validators@[k]).0@ != id@,
            decreases n - i,
        {
            if crate::vertex::hash_eq(&self.validators.validators[i].0, id) {
                proof {
                    let w = choose|k: int|
                        0 <= k < self.validators.validators@.len()
                            && self.validators.validators@[k].0@ == id@;
                    assert(w == i as int);
                }
                return Some(i);
            }
            i = i + 1;
        }
        proof {
            assert(!exists|k: int|
                0 <= k < self.validators.validators@.len() && self.validators.validators@[k].0@
                    == id@);
        }
        None
    }

    /// Register a validator.  A fresh identifier is appended and its
    /// stake joins the total; re-registering replaces the previous
    /// record and adjusts the total by the difference.  Nothing else
    /// moves: other validators, stored votes, gossip records and
    /// finality proofs stay as they were.
    pub fn add_validator(&mut self, validator_id: ValidatorId, validator_info: ValidatorInfo)
        requires
            old(self).wf(),
            old(self).spec_validators().total_stake + validator_info.stake <= u64::MAX,
            old(self).spec_validator_count() + 1 < u32::MAX,
        ensures
            final(self).wf(),
            final(self).spec_round() == old(self).spec_round(),
            validator_lookup(final(self).spec_validators().validators@, validator_id@) == Some(
                validator_info,
            ),
            match validator_lookup(old(self).spec_validators().validators@, validator_id@) {
                None => final(self).spec_validators().total_stake == old(self).spec_validators().total_stake + validator_info.stake && final(self).spec_validator_count() == old(self).spec_validator_count() + 1,
                Some(prev) => final(self).spec_validators().total_stake == old(self).spec_validators().total_stake - prev.stake + validator_info.stake && final(self).spec_validator_count() == old(self).spec_validator_count(),
            },
            forall|other: Seq<u8>|
                other != validator_id@ ==> #[trigger] validator_lookup(
                    final(self).spec_validators().validators@,
                    other,
                ) == validator_lookup(old(self).spec_validators().validators@, other),
            forall|h: Seq<u8>| #[trigger] final(self).spec_has_proof(h) == old(self).spec_has_proof(h),
            forall|h: Seq<u8>|
                #[trigger] final(self).spec_vote_record(h) == old(self).spec_vote_record(h),
            forall|h: Seq<u8>|
                #[trigger] final(self).spec_gossip_record(h) == old(self).spec_gossip_record(h),
    {
        match self.find_validator_index(&validator_id) {
            Some(k) => {
                let ghost pre = self.validators.validators@;
                let (vid, oldinfo) = self.validators.validators.remove(k);
                proof {
                    lemma_sum_stakes_remove(pre, k as int);
                    lemma_sum_stakes_prefix(pre.remove(k as int), pre.remove(k as int).len() as int);
                }
                let reduced = self.validators.total_stake - oldinfo.stake;
                self.validators.total_stake = reduced + validator_info.stake;
                self.validators.validators.push((vid, validator_info));
                proof {
                    lemma_sum_stakes_push(pre.remove(k as int), (vid, validator_info));
                    assert forall|i: int, j: int|
                        0 <= i < j < self.validators.validators@.len() implies (
                    #[trigger] self.validators.validators@[i]).0@ != (
                    #[trigger] self.validators.validators@[j]).0@ by {
                        lemma_remove_keeps_distinct(pre, k as int, i, j, validator_id@);
                    }
                    let w = choose|i: int|
                        0 <= i < self.validators.validators@.len()
                            && self.validators.validators@[i].0@ == validator_id@;
                    assert(self.validators.validators@[self.validators.validators@.len() - 1].0@
                        == validator_id@);
                    assert(w == self.validators.validators@.len() - 1);
                    lemma_validator_frame_moved(
                        pre,
                        self.validators.validators@,
                        k as int,
                        validator_id@,
                    );
                }
            },
            None => {
                let ghost pre = self.validators.validators@;
                self.validators.validators.push((validator_id, validator_info));
                self.validators.total_stake = self.validators.total_stake + validator_info.stake;
                proof {
                    lemma_sum_stakes_push(pre, (validator_id, validator_info));
                    assert forall|i: int, j: int|
                        0 <= i < j < self.validators.validators@.len() implies (
                    #[trigger] self.validators.validators@[i]).0@ != (
                    #[trigger] self.validators.validators@[j]).0@ by {
                        if j == pre.len() as int {
                            assert(pre[i].0@ != validator_id@);
                        }
                    }
                    let w = choose|i: int|
                        0 <= i < self.validators.validators@.len()
                            && self.validators.validators@[i].0@ == validator_id@;
                    assert(self.validators.validators@[pre.len() as int].0@ == validator_id@);
                    assert(w == pre.len() as int);
                    assert forall|other: Seq<u8>| other != validator_id@ implies #[trigger]
                        validator_lookup(self.validators.validators@, other) == validator_lookup(
                        pre,
                        other,
                    ) by {
                        if exists|a: int| 0 <= a < pre.len() && pre[a].0@ == other {
                            let a1 = choose|a: int| 0 <= a < pre.len() && pre[a].0@ == other;
                            assert(self.validators.validators@[a1].0@ == other);
                            let a2 = choose|a: int|
                                0 <= a < self.validators.validators@.len()
                                    && self.validators.validators@[a].0@ == other;
                            assert(a2 == a1);
                        } else {
                            if exists|a: int|
                                0 <= a < self.validators.validators@.len()
                                    && self.validators.validators@[a].0@ == other {
                                let a2 = choose|a: int|
                                    0 <= a < self.validators.validators@.len()
                                        && self.validators.validators@[a].0@ == other;
                                if a2 < pre.len() {
                                    assert(pre[a2].0@ == other);
                                } else {
                                    assert(self.validators.validators@[a2].0@ == validator_id@);
                                }
                            }
                        }
                    }
                }
            },
        }
    }

    /// Remove a validator; its stake leaves the total.  Unknown
    /// identifiers are ignored.
    pub fn remove_validator(&mut self, validator_id: &ValidatorId)
        requires
            old(self).wf(),
        ensures
            final(self).wf(),
            final(self).spec_round() == old(self).spec_round(),
            validator_lookup(final(self).spec_validators().validators@, validator_id@) is None,
            match validator_lookup(old(self).spec_validators().validators@, validator_id@) {
                Some(info) => final(self).spec_validators().total_stake == old(self).spec_validators().total_stake - info.stake,
                None => *final(self) == *old(self),
            },
    {
        match self.find_validator_index(validator_id) {
            Some(k) => {
                let ghost pre = self.validators.validators@;
                let (_, info) = self.validators.validators.remove(k);
                proof {
                    lemma_sum_stakes_remove(pre, k as int);
                    lemma_sum_stakes_prefix(pre.remove(k as int), pre.remove(k as int).len() as int);
                }
                self.validators.total_stake = self.validators.total_stake - info.stake;
                proof {
                    assert forall|i: int, j: int|
                        0 <= i < j < self.validators.validators@.len() implies (
                    #[trigger] self.validators.validators@[i]).0@ != (
                    #[trigger] self.validators.validators@[j]).0@ by {
                        if i < k as int {
                            if j < k as int {
                                assert(pre[i].0@ != pre[j].0@);
                            } else {
                                assert(pre[i].0@ != pre[j + 1].0@);
                            }
                        } else {
                            assert(pre[i + 1].0@ != pre[j + 1].0@);
                        }
                    }
                    assert forall|i: int|
                        0 <= i < self.validators.validators@.len() implies (
                    #[trigger] self.validators.validators@[i]).0@ != validator_id@ by {
                        if i < k as int {
                        } else {
                            assert(self.validators.validators@[i] == pre[i + 1]);
                        }
                    }
                }
            },
            None => {},
        }
    }

    /// Hash of a vote: the digest of its canonical encoding, so equal
    /// votes hash identically in every process.
    pub fn calculate_vote_hash(&self, vote: &VirtualVote) -> (r: VoteHash)
        ensures
            r@ == blake3_of(enc_vote(*vote)),
    {
        let mut buf: Vec<u8> = Vec::new();
        push_slice(&mut buf, vote.validator.as_slice());
        push_slice(&mut buf, vote.vertex_hash.as_slice());
        match vote.vote_type {
            VoteType::Approve => {
                buf.push(0u8);
            },
            VoteType::Reject => {
                buf.push(1u8);
            },
        }
        push_u64(&mut buf, vote.round);
        push_u64(&mut buf, vote.timestamp);
        push_slice(&mut buf, vote.signature.as_slice());
        push_u64(&mut buf, vote.stake_proof.stake);
        push_hashes(&mut buf, &vote.stake_proof.merkle_proof);
        push_slice(&mut buf, vote.stake_proof.commitment.as_slice());
        proof {
            assert(buf@ =~= enc_vote(*vote));
        }
        blake3_hash32(&buf)
    }

    /// The finality proof recorded for a vertex, if any.
    pub fn get_finality_proof(&self, vertex_hash: &VertexHash) -> (r: Option<FinalityProof>)
        requires
            self.wf(),
        ensures
            match r {
                Some(p) => self.spec_has_proof(vertex_hash@) && p.vertex_hash@ == vertex_hash@
                    && proof_safety_ok(p),
                None => !self.spec_has_proof(vertex_hash@),
            },
    {
        let n = self.finality_proofs.len();
        let mut i: usize = 0;
        while i < n
            invariant
                self.wf(),
                n == self.finality_proofs@.len(),
                i <= n,
                forall|k: int| 0 <= k < i ==> (#[trigger] self.finality_proofs@[k]).0@ != vertex_hash@,
            decreases n - i,
        {
            if crate::vertex::hash_eq(&self.finality_proofs[i].0, vertex_hash) {
                proof {
                    assert(self.finality_proofs@[i as int].0@ == vertex_hash@);
                    assert(self.spec_has_proof(vertex_hash@));
                    assert(proof_safety_ok(self.finality_proofs@[i as int].1));
                }
                let p = self.finality_proofs[i].1.duplicate();
                return Some(p);
            }
            i = i + 1;
        }
        proof {
            assert(!self.spec_has_proof(vertex_hash@));
        }
        None
    }
}


/// Moving one keyed entry to the end (with a new value) leaves every
/// other key's lookup unchanged.
proof fn lemma_validator_frame_moved(
    pre: Seq<(ValidatorId, ValidatorInfo)>,
    post: Seq<(ValidatorId, ValidatorInfo)>,
    k: int,
    id: Seq<u8>,
)
    requires
        forall|a: int, b: int| 0 <= a < b < pre.len() ==> pre[a].0@ != pre[b].0@,
        forall|a: int, b: int| 0 <= a < b < post.len() ==> post[a].0@ != post[b].0@,
        0 <= k < pre.len(),
        pre[k].0@ == id,
        post.len() == pre.len(),
        forall|a: int| 0 <= a < k ==> #[trigger] post[a] == pre[a],
        forall|a: int| k <= a < pre.len() - 1 ==> #[trigger] post[a] == pre[a + 1],
        post[post.len() - 1].0@ == id,
    ensures
        forall|other: Seq<u8>|
            other != id ==> #[trigger] validator_lookup(post, other) == validator_lookup(
                pre,
                other,
            ),
{
    assert forall|other: Seq<u8>| other != id implies #[trigger] validator_lookup(post, other)
        == validator_lookup(pre, other) by {
        if exists|a: int| 0 <= a < pre.len() && pre[a].0@ == other {
            let a1 = choose|a: int| 0 <= a < pre.len() && pre[a].0@ == other;
            assert(a1 != k);
            let m1: int = if a1 < k {
                a1
            } else {
                a1 - 1
            };
            assert(post[m1] == pre[a1]);
            let a2 = choose|a: int| 0 <= a < post.len() && post[a].0@ == other;
            assert(a2 == m1);
        } else {
            if exists|a: int| 0 <= a < post.len() && post[a].0@ == other {
                let a2 = choose|a: int| 0 <= a < post.len() && post[a].0@ == other;
                if a2 < k {
                    assert(pre[a2].0@ == other);
                } else if a2 < post.len() - 1 {
                    assert(pre[a2 + 1].0@ == other);
                } else {
                    assert(post[a2].0@ == id);
                }
            }
        }
    }
}

/// Distinctness of keys survives moving one entry to the end.
proof fn lemma_remove_keeps_distinct(
    pre: Seq<(ValidatorId, ValidatorInfo)>,
    k: int,
    i: int,
    j: int,
    id: Seq<u8>,
)
    requires
        forall|a: int, b: int| 0 <= a < b < pre.len() ==> pre[a].0@ != pre[b].0@,
        0 <= k < pre.len(),
        pre[k].0@ == id,
        0 <= i < j < pre.len(),
    ensures
        ({
            let s = pre.remove(k).push((pre[k].0, pre[k].1));
            s[i].0@ != s[j].0@
        }),
{
    let rem = pre.remove(k);
    let s = rem.push((pre[k].0, pre[k].1));
    if j == s.len() - 1 {
        assert(s[j].0@ == id);
        if i < k {
            assert(s[i].0@ == pre[i].0@);
            assert(pre[i].0@ != pre[k].0@);
        } else {
            assert(s[i].0@ == pre[i + 1].0@);
            assert(pre[k].0@ != pre[i + 1].0@);
        }
    } else {
        if i < k && j < k {
            assert(s[i].0@ == pre[i].0@ && s[j].0@ == pre[j].0@);
        } else if i < k {
            assert(s[i].0@ == pre[i].0@ && s[j].0@ == pre[j + 1].0@);
        } else {
            assert(s[i].0@ == pre[i + 1].0@ && s[j].0@ == pre[j + 1].0@);
        }
    }
}



/// Lookup in a hash-keyed association list.
pub open spec fn hash_lookup<T>(s: Seq<(VertexHash, T)>, h: Seq<u8>) -> Option<T> {
    if exists|i: int| 0 <= i < s.len() && s[i].0@ == h {
        let i = choose|i: int| 0 <= i < s.len() && s[i].0@ == h;
        Some(s[i].1)
    } else {
        None
    }
}

/// Writing one key of a hash-keyed association list leaves every
/// other key's lookup unchanged.
proof fn lemma_hash_keyed_frame<T>(
    pre: Seq<(VertexHash, T)>,
    post: Seq<(VertexHash, T)>,
    key: Seq<u8>,
)
    requires
        unique_hash_keys(pre),
        unique_hash_keys(post),
        pre.len() <= post.len(),
        post.len() <= pre.len() + 1,
        forall|a: int| 0 <= a < pre.len() ==> (#[trigger] post[a].0@) == pre[a].0@,
        post.len() > pre.len() ==> post[pre.len() as int].0@ == key,
        forall|a: int| 0 <= a < pre.len() && pre[a].0@ != key ==> #[trigger] post[a] == pre[a],
    ensures
        forall|h: Seq<u8>| h != key ==> #[trigger] hash_lookup(post, h) == hash_lookup(pre, h),
{
    assert forall|h: Seq<u8>| h != key implies #[trigger] hash_lookup(post, h) == hash_lookup(
        pre,
        h,
    ) by {
        if exists|a: int| 0 <= a < pre.len() && pre[a].0@ == h {
            let a1 = choose|a: int| 0 <= a < pre.len() && pre[a].0@ == h;
            assert(post[a1].0@ == h);
            let a2 = choose|a: int| 0 <= a < post.len() && post[a].0@ == h;
            assert(a2 == a1);
            assert(post[a1] == pre[a1]);
        } else {
            if exists|a: int| 0 <= a < post.len() && post[a].0@ == h {
                let a2 = choose|a: int| 0 <= a < post.len() && post[a].0@ == h;
                if a2 < pre.len() {
                    assert(pre[a2].0@ == h);
                } else {
                    assert(post[a2].0@ == key);
                }
            }
        }
    }
}

impl VoteRecord {
    /// Deep copy with proved length preservation.
    pub fn duplicate(&self) -> (r: VoteRecord)
        ensures
            r.votes@.len() == self.votes@.len(),
            r.approvals == self.approvals,
            r.rejections == self.rejections,
            r.total_voting_stake == self.total_voting_stake,
            r.consensus_reached == self.consensus_reached,
            forall|i: int|
                0 <= i < self.votes@.len() ==> vote_view_eq(
                    #[trigger] r.votes@[i],
                    self.votes@[i],
                ),
    {
        let mut vs: Vec<VirtualVote> = Vec::new();
        let n = self.votes.len();
        let mut i: usize = 0;
        while i < n
            invariant
                n == self.votes@.len(),
                i <= n,
                vs@.len() == i,
                forall|k: int|
                    0 <= k < i ==> vote_view_eq(#[trigger] vs@[k], self.votes@[k]),
            decreases n - i,
        {
            vs.push(self.votes[i].duplicate());
            i = i + 1;
        }
        VoteRecord {
            votes: vs,
            approvals: self.approvals,
            rejections: self.rejections,
            total_voting_stake: self.total_voting_stake,
            consensus_reached: self.consensus_reached,
        }
    }
}

impl VirtualVotingConsensus {
    /// Store a vote record under a vertex hash, replacing any
    /// previous record.
    fn votes_upsert(&mut self, key: VertexHash, rec: VoteRecord)
        requires
            old(self).wf(),
            rec.votes@.len() < u32::MAX,
        ensures
            final(self).wf(),
            final(self).spec_validators() == old(self).spec_validators(),
            final(self).spec_round() == old(self).spec_round(),
            final(self).finality_proofs == old(self).finality_proofs,
            final(self).gossip_votes == old(self).gossip_votes,
            final(self).round_stats == old(self).round_stats,
            final(self).config == old(self).config,
            final(self).spec_vote_record(key@) == Some(rec),
            forall|h: Seq<u8>|
                h != key@ ==> #[trigger] final(self).spec_vote_record(h) == old(self).spec_vote_record(h),
    {
        let n = self.votes.len();
        let mut i: usize = 0;
        while i < n
            invariant
                *self == *old(self),
                self.wf(),
                rec.votes@.len() < u32::MAX,
                n == self.votes@.len(),
                i <= n,
                forall|k: int| 0 <= k < i ==> (#[trigger] self.votes@[k]).0@ != key@,
            decreases n - i,
        {
            if crate::vertex::hash_eq(&self.votes[i].0, &key) {
                let ghost pre = self.votes@;
                let _ = self.votes.remove(i);
                self.votes.insert(i, (key, rec));
                proof {
                    assert(self.votes@ =~= pre.update(i as int, (key, rec)));
                    assert forall|a: int, b: int| 0 <= a < b < self.votes@.len() implies (
                    #[trigger] self.votes@[a]).0@ != (#[trigger] self.votes@[b]).0@ by {
                        assert(self.votes@[a].0@ == pre[a].0@);
                        assert(self.votes@[b].0@ == pre[b].0@);
                    }
                    assert forall|a: int| 0 <= a < self.votes@.len() implies (
                    #[trigger] self.votes@[a]).1.votes@.len() < u32::MAX by {
                        if a != i as int {
                            assert(self.votes@[a] == pre[a]);
                        }
                    }
                    let w = choose|a: int|
                        0 <= a < self.votes@.len() && self.votes@[a].0@ == key@;
                    assert(self.votes@[i as int].0@ == key@);
                    assert(w == i as int);
                    lemma_hash_keyed_frame(pre, self.votes@, key@);
                }
                return ;
            }
            i = i + 1;
        }
        let ghost pre = self.votes@;
        self.votes.push((key, rec));
        proof {
            assert forall|a: int, b: int| 0 <= a < b < self.votes@.len() implies (
            #[trigger] self.votes@[a]).0@ != (#[trigger] self.votes@[b]).0@ by {
                if b == pre.len() as int {
                    assert(pre[a].0@ != key@);
                }
            }
            let w = choose|a: int| 0 <= a < self.votes@.len() && self.votes@[a].0@ == key@;
            assert(self.votes@[pre.len() as int].0@ == key@);
            assert(w == pre.len() as int);
            lemma_hash_keyed_frame(pre, self.votes@, key@);
        }
    }

    /// Store a gossip record under a vote hash, replacing any
    /// previous record.
    fn gossip_upsert(&mut self, key: VoteHash, rec: GossipVoteRecord)
        requires
            old(self).wf(),
        ensures
            final(self).wf(),
            final(self).spec_validators() == old(self).spec_validators(),
            final(self).spec_round() == old(self).spec_round(),
            final(self).finality_proofs == old(self).finality_proofs,
            final(self).votes == old(self).votes,
            final(self).round_stats == old(self).round_stats,
            final(self).config == old(self).config,
            final(self).spec_gossip_record(key@) == Some(rec),
            forall|h: Seq<u8>|
                h != key@ ==> #[trigger] final(self).spec_gossip_record(h) == old(self).spec_gossip_record(h),
    {
        let n = self.gossip_votes.len();
        let mut i: usize = 0;
        while i < n
            invariant
                *self == *old(self),
                self.wf(),
                n == self.gossip_votes@.len(),
                i <= n,
                forall|k: int| 0 <= k < i ==> (#[trigger] self.gossip_votes@[k]).0@ != key@,
            decreases n - i,
        {
            if crate::vertex::hash_eq(&self.gossip_votes[i].0, &key) {
                let ghost pre = self.gossip_votes@;
                let _ = self.gossip_votes.remove(i);
                self.gossip_votes.insert(i, (key, rec));
                proof {
                    assert(self.gossip_votes@ =~= pre.update(i as int, (key, rec)));
                    assert forall|a: int, b: int|
                        0 <= a < b < self.gossip_votes@.len() implies (
                    #[trigger] self.gossip_votes@[a]).0@ != (
                    #[trigger] self.gossip_votes@[b]).0@ by {
                        assert(self.gossip_votes@[a].0@ == pre[a].0@);
                        assert(self.gossip_votes@[b].0@ == pre[b].0@);
                    }
                    let w = choose|a: int|
                        0 <= a < self.gossip_votes@.len() && self.gossip_votes@[a].0@ == key@;
                    assert(self.gossip_votes@[i as int].0@ == key@);
                    assert(w == i as int);
                    lemma_hash_keyed_frame(pre, self.gossip_votes@, key@);
                }
                return ;
            }
            i = i + 1;
        }
        let ghost pre = self.gossip_votes@;
        self.gossip_votes.push((key, rec));
        proof {
            assert forall|a: int, b: int| 0 <= a < b < self.gossip_votes@.len() implies (
            #[trigger] self.gossip_votes@[a]).0@ != (#[trigger] self.gossip_votes@[b]).0@ by {
                if b == pre.len() as int {
                    assert(pre[a].0@ != key@);
                }
            }
            let w = choose|a: int|
                0 <= a < self.gossip_votes@.len() && self.gossip_votes@[a].0@ == key@;
            assert(self.gossip_votes@[pre.len() as int].0@ == key@);
            assert(w == pre.len() as int);
            lemma_hash_keyed_frame(pre, self.gossip_votes@, key@);
        }
    }

    /// Phase one: collect one approving vote per validator for a
    /// candidate vertex and store the tallied record.  The vote-count
    /// and stake thresholds are both more than two thirds.
    fn collect_virtual_votes(&mut self, vertex_hash: &VertexHash, round: u64)
        requires
            old(self).wf(),
        ensures
            final(self).wf(),
            final(self).spec_validators() == old(self).spec_validators(),
            final(self).spec_round() == old(self).spec_round(),
            final(self).finality_proofs == old(self).finality_proofs,
            final(self).gossip_votes == old(self).gossip_votes,
            final(self).round_stats == old(self).round_stats,
            final(self).config == old(self).config,
            match final(self).spec_vote_record(vertex_hash@) {
                Some(rec) => vote_record_ok(
                    rec,
                    old(self).spec_validators().validators@,
                    old(self).spec_validators().total_stake,
                    vertex_hash@,
                    round,
                ),
                None => false,
            },
            forall|h: Seq<u8>|
                h != vertex_hash@ ==> #[trigger] final(self).spec_vote_record(h) == old(self).spec_vote_record(h),
    {
        let n = self.validators.validators.len();
        let ts = now_millis();
        let mut votes: Vec<VirtualVote> = Vec::new();
        let mut total_voting_stake: u64 = 0;
        let mut i: usize = 0;
        while i < n
            invariant
                *self == *old(self),
                self.wf(),
                n == self.validators.validators@.len(),
                n < u32::MAX,
                i <= n,
                votes@.len() == i,
                total_voting_stake as int == sum_stakes(self.validators.validators@.take(i as int)),
                forall|k: int|
                    0 <= k < i ==> {
                        let v = #[trigger] votes@[k];
                        v.validator@ == self.validators.validators@[k].0@ && v.vertex_hash@
                            == vertex_hash@ && v.vote_type == VoteType::Approve && v.round == round
                            && v.stake_proof.stake == self.validators.validators@[k].1.stake
                    },
            decreases n - i,
        {
            let vid = self.validators.validators[i].0;
            let stake = self.validators.validators[i].1.stake;
            proof {
                assert(self.validators.validators@.take(i + 1).drop_last()
                    =~= self.validators.validators@.take(i as int));
                assert(self.validators.validators@.take(i + 1).last()
                    == self.validators.validators@[i as int]);
                lemma_sum_stakes_prefix(self.validators.validators@, i + 1);
            }
            let vote = VirtualVote {
                validator: vid,
                vertex_hash: *vertex_hash,
                vote_type: VoteType::Approve,
                round,
                timestamp: ts,
                signature: [0u8; 48],
                stake_proof: StakeProof {
                    stake,
                    merkle_proof: Vec::new(),
                    commitment: [0u8; 32],
                },
            };
            votes.push(vote);
            total_voting_stake = total_voting_stake + stake;
            i = i + 1;
        }
        proof {
            assert(self.validators.validators@.take(n as int) =~= self.validators.validators@);
        }
        let approvals = n as u32;
        let required_vote_count = (n as u64) * 2 / 3 + 1;
        let total = self.validators.total_stake;
        let stake_ok = (total_voting_stake as u128) >= (total as u128) * 2 / 3 + 1;
        let consensus_reached = ((approvals as u64) >= required_vote_count) && stake_ok;
        let rec = VoteRecord {
            votes,
            approvals,
            rejections: 0,
            total_voting_stake,
            consensus_reached,
        };
        proof {
            assert(rec.approvals as nat >= required_votes(n as nat) <==> (approvals as u64)
                >= required_vote_count);
            assert(rec.total_voting_stake as int >= required_stake(total) <==> stake_ok);
            assert(vote_record_ok(
                rec,
                self.validators.validators@,
                total,
                vertex_hash@,
                round,
            ));
        }
        self.votes_upsert(*vertex_hash, rec);
    }

    /// Whether the gossip record stored for one vote of one vote
    /// record is present and well-formed after phase two.
    pub open spec fn vote_gossip_covered(
        pre: VirtualVotingConsensus,
        post: VirtualVotingConsensus,
        h: Seq<u8>,
        j: int,
        round: u64,
    ) -> bool {
        match pre.spec_vote_record(h) {
            Some(rec) => (0 <= j < rec.votes@.len()) ==> (match post.spec_gossip_record(
                blake3_of(enc_vote(rec.votes@[j])),
            ) {
                Some(g) => gossip_record_ok(g, pre.spec_validators().validators@, round)
                    && blake3_of(enc_vote(g.original_vote)) == blake3_of(enc_vote(rec.votes@[j])),
                None => false,
            }),
            None => true,
        }
    }

    /// One (record, vote) index pair has a well-formed gossip record
    /// stored under the vote's hash.
    spec fn idx_gossip_covered(
        votes: Seq<(VertexHash, VoteRecord)>,
        post: VirtualVotingConsensus,
        vals: Seq<(ValidatorId, ValidatorInfo)>,
        round: u64,
        i2: int,
        j2: int,
    ) -> bool {
        (0 <= i2 < votes.len() && 0 <= j2 < votes[i2].1.votes@.len()) ==> (match post
            .spec_gossip_record(blake3_of(enc_vote(votes[i2].1.votes@[j2]))) {
            Some(g) => gossip_record_ok(g, vals, round) && blake3_of(enc_vote(g.original_vote))
                == blake3_of(enc_vote(votes[i2].1.votes@[j2])),
            None => false,
        })
    }

    /// Phase two: for every collected vote, gather one witness
    /// statement from each other validator and store the tallied
    /// gossip record under the vote's hash.
    fn process_gossip_votes(&mut self, round: u64)
        requires
            old(self).wf(),
        ensures
            final(self).wf(),
            final(self).spec_validators() == old(self).spec_validators(),
            final(self).spec_round() == old(self).spec_round(),
            final(self).finality_proofs == old(self).finality_proofs,
            final(self).votes == old(self).votes,
            final(self).round_stats == old(self).round_stats,
            final(self).config == old(self).config,
            forall|h: Seq<u8>, j: int|
                #[trigger] Self::vote_gossip_covered(*old(self), *final(self), h, j, round),
    {
        let ghost vals = self.validators.validators@;
        let ts = now_millis();
        let nrec = self.votes.len();
        let mut vi: usize = 0;
        while vi < nrec
            invariant
                self.wf(),
                nrec == self.votes@.len(),
                vi <= nrec,
                vals == self.validators.validators@,
                self.spec_validators() == old(self).spec_validators(),
                self.spec_round() == old(self).spec_round(),
                self.finality_proofs == old(self).finality_proofs,
                self.votes == old(self).votes,
                self.round_stats == old(self).round_stats,
                self.config == old(self).config,
                forall|i2: int, j2: int|
                    0 <= i2 < vi ==> #[trigger] Self::idx_gossip_covered(
                        self.votes@,
                        *self,
                        vals,
                        round,
                        i2,
                        j2,
                    ),
            decreases nrec - vi,
        {
            let nv = self.votes[vi].1.votes.len();
            let mut vj: usize = 0;
            while vj < nv
                invariant
                    self.wf(),
                    nrec == self.votes@.len(),
                    vi < nrec,
                    nv == self.votes@[vi as int].1.votes@.len(),
                    vj <= nv,
                    vals == self.validators.validators@,
                    self.spec_validators() == old(self).spec_validators(),
                    self.spec_round() == old(self).spec_round(),
                    self.finality_proofs == old(self).finality_proofs,
                    self.votes == old(self).votes,
                    self.round_stats == old(self).round_stats,
                    self.config == old(self).config,
                    forall|i2: int, j2: int|
                        0 <= i2 < vi ==> #[trigger] Self::idx_gossip_covered(
                            self.votes@,
                            *self,
                            vals,
                            round,
                            i2,
                            j2,
                        ),
                    forall|j2: int|
                        0 <= j2 < vj ==> #[trigger] Self::idx_gossip_covered(
                            self.votes@,
                            *self,
                            vals,
                            round,
                            vi as int,
                            j2,
                        ),
                decreases nv - vj,
            {
                let vote = self.votes[vi].1.votes[vj].duplicate();
                let vote_hash = self.calculate_vote_hash(&vote);
                proof {
                    assert(enc_vote(vote) == enc_vote(self.votes@[vi as int].1.votes@[vj as int]));
                    assert(vote_hash@ == blake3_of(
                        enc_vote(self.votes@[vi as int].1.votes@[vj as int]),
                    ));
                }
                let nval = self.validators.validators.len();
                let mut gossip: Vec<GossipVote> = Vec::new();
                let mut direct: u32 = 0;
                let mut k: usize = 0;
                while k < nval
                    invariant
                        self.wf(),
                        vals == self.validators.validators@,
                        nval == self.validators.validators@.len(),
                        nval < u32::MAX,
                        k <= nval,
                        direct <= k,
                        gossip@.len() == direct,
                        direct as nat == count_others(vals.take(k as int), vote.validator@),
                        forall|q: int|
                            0 <= q < gossip@.len() ==> {
                                let w = #[trigger] gossip@[q];
                                w.witness_type == WitnessType::DirectWitness && w.round == round
                                    && w.validator@ != vote.validator@ && w.original_vote_hash@
                                    == vote_hash@
                            },
                    decreases nval - k,
                {
                    proof {
                        assert(vals.take(k + 1).drop_last() =~= vals.take(k as int));
                        assert(vals.take(k + 1).last() == vals[k as int]);
                    }
                    let vid = self.validators.validators[k].0;
                    if !crate::vertex::hash_eq(&vid, &vote.validator) {
                        // witnessing is polled from the gossip layer;
                        // the placeholder reports a direct witness
                        gossip.push(
                            GossipVote {
                                validator: vid,
                                original_vote_hash: vote_hash,
                                witness_type: WitnessType::DirectWitness,
                                round,
                                timestamp: ts,
                                signature: [0u8; 48],
                            },
                        );
                        direct = direct + 1;
                    }
                    k = k + 1;
                }
                proof {
                    assert(vals.take(nval as int) =~= vals);
                }
                let total_witnesses = direct;
                let required = (nval as u64) * 2 / 3 + 1;
                let gossip_consensus = (total_witnesses as u64) >= required;
                let rec = GossipVoteRecord {
                    original_vote: vote,
                    gossip_votes: gossip,
                    direct_witnesses: direct,
                    indirect_witnesses: 0,
                    gossip_consensus,
                };
                proof {
                    assert(gossip_consensus == ((rec.direct_witnesses as nat
                        + rec.indirect_witnesses as nat) >= required_votes(vals.len())));
                    assert(gossip_record_ok(rec, vals, round));
                    assert(blake3_of(enc_vote(rec.original_vote)) == vote_hash@);
                }
                let ghost before = *self;
                self.gossip_upsert(vote_hash, rec);
                proof {
                    assert forall|i2: int, j2: int|
                        0 <= i2 < vi implies #[trigger] Self::idx_gossip_covered(
                        self.votes@,
                        *self,
                        vals,
                        round,
                        i2,
                        j2,
                    ) by {
                        Self::lemma_idx_covered_step(
                            before,
                            *self,
                            vals,
                            round,
                            vote_hash@,
                            rec,
                            i2,
                            j2,
                        );
                    }
                    assert forall|j2: int|
                        0 <= j2 < vj + 1 implies #[trigger] Self::idx_gossip_covered(
                        self.votes@,
                        *self,
                        vals,
                        round,
                        vi as int,
                        j2,
                    ) by {
                        if j2 < vj {
                            Self::lemma_idx_covered_step(
                                before,
                                *self,
                                vals,
                                round,
                                vote_hash@,
                                rec,
                                vi as int,
                                j2,
                            );
                        } else {
                            assert(self.spec_gossip_record(vote_hash@) == Some(rec));
                        }
                    }
                }
                vj = vj + 1;
            }
            vi = vi + 1;
        }
        proof {
            assert forall|h: Seq<u8>, j: int| #[trigger] Self::vote_gossip_covered(
                *old(self),
                *self,
                h,
                j,
                round,
            ) by {
                match old(self).spec_vote_record(h) {
                    Some(rec) => {
                        let w = choose|i2: int|
                            0 <= i2 < self.votes@.len() && self.votes@[i2].0@ == h;
                        assert(Self::idx_gossip_covered(self.votes@, *self, vals, round, w, j));
                    },
                    None => {},
                }
            }
        }
    }

    /// A stored well-formed gossip record stays present and
    /// well-formed across one upsert of a well-formed record.
    proof fn lemma_idx_covered_step(
        before: VirtualVotingConsensus,
        after: VirtualVotingConsensus,
        vals: Seq<(ValidatorId, ValidatorInfo)>,
        round: u64,
        key: Seq<u8>,
        rec: GossipVoteRecord,
        i2: int,
        j2: int,
    )
        requires
            Self::idx_gossip_covered(before.votes@, before, vals, round, i2, j2),
            after.votes@ == before.votes@,
            after.spec_gossip_record(key) == Some(rec),
            forall|h: Seq<u8>|
                h != key ==> #[trigger] after.spec_gossip_record(h) == before.spec_gossip_record(
                    h,
                ),
            gossip_record_ok(rec, vals, round),
            blake3_of(enc_vote(rec.original_vote)) == key,
        ensures
            Self::idx_gossip_covered(after.votes@, after, vals, round, i2, j2),
    {
        if 0 <= i2 < after.votes@.len() && 0 <= j2 < after.votes@[i2].1.votes@.len() {
            let k2 = blake3_of(enc_vote(after.votes@[i2].1.votes@[j2]));
            if k2 != key {
                assert(after.spec_gossip_record(k2) == before.spec_gossip_record(k2));
            }
        }
    }

    /// Phase three: if the candidate's record reached consensus and
    /// no proof exists yet, compute the Byzantine safety conditions
    /// and emit a finality proof when they hold.
    fn check_finality(&mut self, vertex_hash: &VertexHash, round: u64) -> (r: Option<
        FinalityProof,
    >)
        requires
            old(self).wf(),
        ensures
            final(self).wf(),
            final(self).spec_validators() == old(self).spec_validators(),
            final(self).spec_round() == old(self).spec_round(),
            final(self).votes == old(self).votes,
            final(self).gossip_votes == old(self).gossip_votes,
            final(self).round_stats == old(self).round_stats,
            final(self).config == old(self).config,
            match r {
                Some(p) => {
                    &&& proof_safety_ok(p)
                    &&& p.finality_round == round
                    &&& p.vertex_hash@ == vertex_hash@
                    &&& p.bft_proof.total_validators as nat == old(self).spec_validator_count()
                    &&& p.bft_proof.total_stake == old(self).spec_validators().total_stake
                    &&& final(self).spec_has_proof(vertex_hash@)
                    &&& !old(self).spec_has_proof(vertex_hash@)
                    &&& match old(self).spec_vote_record(vertex_hash@) {
                        Some(rec) => rec.consensus_reached
                            && p.bft_proof.supporting_vote_count as nat == count_approvals(
                            rec.votes@,
                        ) && p.bft_proof.supporting_stake == rec.total_voting_stake
                            && p.supporting_votes@.len() == approve_votes(rec.votes@).len() && (
                        forall|i: int|
                            0 <= i < p.supporting_votes@.len() ==> vote_view_eq(
                                #[trigger] p.supporting_votes@[i],
                                approve_votes(rec.votes@)[i],
                            )) && (forall|i: int|
                            0 <= i < p.witness_votes@.len() ==> witness_from_consensus_record(
                                *old(self),
                                rec,
                                #[trigger] p.witness_votes@[i],
                            )),
                        None => false,
                    }
                },
                None => final(self).finality_proofs == old(self).finality_proofs,
            },
            forall|h: Seq<u8>|
                h != vertex_hash@ ==> #[trigger] final(self).spec_has_proof(h) == old(self).spec_has_proof(h),
            ({
                let n = old(self).spec_validator_count();
                let total = old(self).spec_validators().total_stake;
                ((match old(self).spec_vote_record(vertex_hash@) {
                    Some(rec) => rec.consensus_reached && count_approvals(rec.votes@) >= 2
                        * fault_bound(n) + 1 && (rec.total_voting_stake as int) > (total as int)
                        * 2 / 3,
                    None => false,
                }) && !old(self).spec_has_proof(vertex_hash@)) ==> r is Some
            }),
    {
        // the vote record of the candidate
        let nrec = self.votes.len();
        let mut vi: usize = 0;
        let mut found: Option<usize> = None;
        while vi < nrec && found.is_none()
            invariant
                *self == *old(self),
                self.wf(),
                nrec == self.votes@.len(),
                vi <= nrec,
                match found {
                    Some(fi) => fi < nrec && self.votes@[fi as int].0@ == vertex_hash@,
                    None => forall|k: int|
                        0 <= k < vi ==> (#[trigger] self.votes@[k]).0@ != vertex_hash@,
                },
            decreases nrec - vi + if found is Some {
                0int
            } else {
                1int
            },
        {
            if crate::vertex::hash_eq(&self.votes[vi].0, vertex_hash) {
                found = Some(vi);
            } else {
                vi = vi + 1;
            }
        }
        let fi = match found {
            Some(fi) => fi,
            None => {
                proof {
                    assert(self.spec_vote_record(vertex_hash@) is None);
                }
                return None;
            },
        };
        proof {
            let w = choose|i: int| 0 <= i < self.votes@.len() && self.votes@[i].0@ == vertex_hash@;
            assert(self.votes@[fi as int].0@ == vertex_hash@);
            assert(w == fi as int);
            assert(self.spec_vote_record(vertex_hash@) == Some(self.votes@[fi as int].1));
        }
        let ghost stored = self.votes@[fi as int].1;
        let rec = self.votes[fi].1.duplicate();
        if !rec.consensus_reached {
            return None;
        }
        // a proof is created at most once per vertex
        let np = self.finality_proofs.len();
        let mut pi: usize = 0;
        while pi < np
            invariant
                *self == *old(self),
                self.wf(),
                np == self.finality_proofs@.len(),
                pi <= np,
                forall|k: int| 0 <= k < pi ==> (#[trigger] self.finality_proofs@[k]).0@ != vertex_hash@,
            decreases np - pi,
        {
            if crate::vertex::hash_eq(&self.finality_proofs[pi].0, vertex_hash) {
                proof {
                    assert(self.spec_has_proof(vertex_hash@));
                }
                return None;
            }
            pi = pi + 1;
        }
        proof {
            assert(!self.spec_has_proof(vertex_hash@));
        }
        // collect supporting votes and witness statements
        let nv = rec.votes.len();
        let mut supporting: Vec<VirtualVote> = Vec::new();
        let mut witness_votes: Vec<GossipVote> = Vec::new();
        let mut vj: usize = 0;
        while vj < nv
            invariant
                *self == *old(self),
                self.wf(),
                nv == rec.votes@.len(),
                nv < u32::MAX,
                vj <= nv,
                supporting@.len() <= vj,
                rec.votes@.len() == stored.votes@.len(),
                forall|i: int|
                    0 <= i < stored.votes@.len() ==> vote_view_eq(
                        #[trigger] rec.votes@[i],
                        stored.votes@[i],
                    ),
                supporting@.len() == count_approvals(rec.votes@.take(vj as int)),
                supporting@.len() == approve_votes(rec.votes@.take(vj as int)).len(),
                forall|k: int|
                    0 <= k < supporting@.len() ==> (#[trigger] supporting@[k]).vote_type
                        == VoteType::Approve,
                forall|k: int|
                    0 <= k < supporting@.len() ==> vote_view_eq(
                        #[trigger] supporting@[k],
                        approve_votes(rec.votes@.take(vj as int))[k],
                    ),
                forall|k: int|
                    0 <= k < witness_votes@.len() ==> witness_from_consensus_record(
                        *old(self),
                        stored,
                        #[trigger] witness_votes@[k],
                    ),
            decreases nv - vj,
        {
            let ghost approve_pred = |v: VirtualVote| v.vote_type == VoteType::Approve;
            proof {
                assert(rec.votes@.take(vj + 1) =~= rec.votes@.take(vj as int).push(
                    rec.votes@[vj as int],
                ));
                assert(rec.votes@.take(vj + 1).drop_last() =~= rec.votes@.take(vj as int));
                assert(rec.votes@.take(vj + 1).last() == rec.votes@[vj as int]);
                rec.votes@.take(vj as int).lemma_filter_push(
                    rec.votes@[vj as int],
                    approve_pred,
                );
            }
            let is_approve = match rec.votes[vj].vote_type {
                VoteType::Approve => true,
                VoteType::Reject => false,
            };
            if is_approve {
                proof {
                    assert(approve_votes(rec.votes@.take(vj + 1)) =~= approve_votes(
                        rec.votes@.take(vj as int),
                    ).push(rec.votes@[vj as int]));
                }
                supporting.push(rec.votes[vj].duplicate());
                let vh = self.calculate_vote_hash(&rec.votes[vj]);
                proof {
                    lemma_enc_vote_view_eq(rec.votes@[vj as int], stored.votes@[vj as int]);
                    assert(vh@ == blake3_of(enc_vote(stored.votes@[vj as int])));
                    assert(stored.votes@[vj as int].vote_type == VoteType::Approve);
                }
                let ng = self.gossip_votes.len();
                let mut gi: usize = 0;
                while gi < ng
                    invariant
                        *self == *old(self),
                        self.wf(),
                        ng == self.gossip_votes@.len(),
                        gi <= ng,
                        vj < nv,
                        nv == rec.votes@.len(),
                        rec.votes@.len() == stored.votes@.len(),
                        vh@ == blake3_of(enc_vote(stored.votes@[vj as int])),
                        stored.votes@[vj as int].vote_type == VoteType::Approve,
                        forall|k: int|
                            0 <= k < witness_votes@.len() ==> witness_from_consensus_record(
                                *old(self),
                                stored,
                                #[trigger] witness_votes@[k],
                            ),
                    decreases ng - gi,
                {
                    if crate::vertex::hash_eq(&self.gossip_votes[gi].0, &vh) {
                        proof {
                            let w = choose|k: int|
                                0 <= k < self.gossip_votes@.len() && self.gossip_votes@[k].0@
                                    == vh@;
                            assert(self.gossip_votes@[gi as int].0@ == vh@);
                            assert(w == gi as int);
                            assert(self.spec_gossip_record(vh@) == Some(
                                self.gossip_votes@[gi as int].1,
                            ));
                        }
                        if self.gossip_votes[gi].1.gossip_consensus {
                            let gw = self.gossip_votes[gi].1.gossip_votes.len();
                            let mut gj: usize = 0;
                            while gj < gw
                                invariant
                                    *self == *old(self),
                                    self.wf(),
                                    ng == self.gossip_votes@.len(),
                                    gi < ng,
                                    gw == self.gossip_votes@[gi as int].1.gossip_votes@.len(),
                                    gj <= gw,
                                    vj < nv,
                                    nv == rec.votes@.len(),
                                    rec.votes@.len() == stored.votes@.len(),
                                    vh@ == blake3_of(enc_vote(stored.votes@[vj as int])),
                                    stored.votes@[vj as int].vote_type == VoteType::Approve,
                                    self.spec_gossip_record(vh@) == Some(
                                        self.gossip_votes@[gi as int].1,
                                    ),
                                    self.gossip_votes@[gi as int].1.gossip_consensus,
                                    forall|k: int|
                                        0 <= k < witness_votes@.len()
                                            ==> witness_from_consensus_record(
                                            *old(self),
                                            stored,
                                            #[trigger] witness_votes@[k],
                                        ),
                                decreases gw - gj,
                            {
                                witness_votes.push(self.gossip_votes[gi].1.gossip_votes[gj]);
                                proof {
                                    let w_new = witness_votes@[witness_votes@.len() - 1];
                                    assert(self.gossip_votes@[gi as int].1.gossip_votes@.contains(
                                        w_new,
                                    )) by {
                                        assert(self.gossip_votes@[gi as int].1.gossip_votes@[
                                            gj as int
                                        ] == w_new);
                                    }
                                    assert(witness_from_consensus_record(
                                        *old(self),
                                        stored,
                                        w_new,
                                    )) by {
                                        assert(0 <= vj < stored.votes@.len()
                                            && stored.votes@[vj as int].vote_type
                                            == VoteType::Approve && match old(
                                            self,
                                        ).spec_gossip_record(
                                            blake3_of(enc_vote(stored.votes@[vj as int])),
                                        ) {
                                            Some(g) => g.gossip_consensus
                                                && g.gossip_votes@.contains(w_new),
                                            None => false,
                                        });
                                    }
                                }
                                gj = gj + 1;
                            }
                        }
                        gi = ng;
                    } else {
                        gi = gi + 1;
                    }
                }
            } else {
                proof {
                    assert(approve_votes(rec.votes@.take(vj + 1)) =~= approve_votes(
                        rec.votes@.take(vj as int),
                    ));
                }
            }
            vj = vj + 1;
        }
        proof {
            assert(rec.votes@.take(nv as int) =~= rec.votes@);
            lemma_count_approvals_pointwise(rec.votes@, stored.votes@);
            lemma_approve_votes_view_eq(rec.votes@, stored.votes@);
        }
        // Byzantine safety computation
        proof {
            assert(rec.votes@.take(nv as int) =~= rec.votes@);
            lemma_count_approvals_pointwise(rec.votes@, stored.votes@);
        }
        let n32 = self.validators.validators.len() as u32;
        let f = if n32 == 0 {
            0u32
        } else {
            (n32 - 1) / 3
        };
        let required = 2 * f + 1;
        let sup_count = supporting.len() as u32;
        let total = self.validators.total_stake;
        let count_ok = sup_count >= required;
        let stake_ok = (rec.total_voting_stake as u128) > (total as u128) * 2 / 3;
        let safety_satisfied = count_ok && stake_ok;
        proof {
            assert(f as nat == fault_bound(self.spec_validator_count()));
            assert(sup_count as nat == count_approvals(stored.votes@));
        }
        if !safety_satisfied {
            proof {
                let n = old(self).spec_validator_count();
                if count_approvals(stored.votes@) >= 2 * fault_bound(n) + 1 && (
                stored.total_voting_stake as int) > (total as int) * 2 / 3 {
                    assert(count_ok);
                    assert(stake_ok);
                }
            }
            return None;
        }
        let bft_proof = BFTSafetyProof {
            total_validators: n32,
            max_byzantine_faults: f,
            supporting_vote_count: sup_count,
            supporting_stake: rec.total_voting_stake,
            total_stake: total,
            safety_satisfied,
        };
        let finality_proof = FinalityProof {
            vertex_hash: *vertex_hash,
            finality_round: round,
            supporting_votes: supporting,
            witness_votes,
            bft_proof,
            finality_timestamp: now_millis(),
        };
        proof {
            assert((rec.total_voting_stake as int) > (total as int) * 2 / 3);
            assert(proof_safety_ok(finality_proof));
        }
        let returned = finality_proof.duplicate();
        let ghost pre = self.finality_proofs@;
        self.finality_proofs.push((*vertex_hash, finality_proof));
        proof {
            assert forall|a: int, b: int| 0 <= a < b < self.finality_proofs@.len() implies (
            #[trigger] self.finality_proofs@[a]).0@ != (#[trigger] self.finality_proofs@[b]).0@ by {
                if b == pre.len() as int {
                    assert(pre[a].0@ != vertex_hash@);
                }
            }
            assert(self.finality_proofs@[pre.len() as int].0@ == vertex_hash@);
            assert(self.spec_has_proof(vertex_hash@));
            assert forall|h: Seq<u8>| h != vertex_hash@ implies #[trigger] self.spec_has_proof(h)
                == old(self).spec_has_proof(h) by {
                if self.spec_has_proof(h) {
                    let w = choose|i: int|
                        0 <= i < self.finality_proofs@.len() && self.finality_proofs@[i].0@ == h;
                    assert(w < pre.len());
                    assert(pre[w].0@ == h);
                }
                if old(self).spec_has_proof(h) {
                    let w = choose|i: int| 0 <= i < pre.len() && pre[i].0@ == h;
                    assert(self.finality_proofs@[w].0@ == h);
                }
            }
        }
        Some(returned)
    }

    /// Process one consensus round over the candidate vertices: the
    /// round number advances by exactly one, and every returned proof
    /// satisfies the Byzantine safety conditions for that round.
    #[verifier::rlimit(100)]
    #[verifier::spinoff_prover]
    pub fn process_round(&mut self, vertices: Vec<VertexHash>) -> (r: Result<
        Vec<FinalityProof>,
        DAGError,
    >)
        requires
            old(self).wf(),
            old(self).spec_round() < u64::MAX,
            vertices@.len() <= u32::MAX,
        ensures
            final(self).wf(),
            final(self).spec_round() == old(self).spec_round() + 1,
            final(self).spec_validators() == old(self).spec_validators(),
            r matches Ok(proofs) ==> forall|k: int|
                0 <= k < proofs@.len() ==> proof_safety_ok(#[trigger] proofs@[k])
                    && proofs@[k].finality_round == old(self).spec_round() + 1
                    && proofs@[k].bft_proof.total_validators as nat == old(self).spec_validator_count() && proofs@[k].bft_proof.total_stake == old(self).spec_validators().total_stake
                    && proofs@[k].bft_proof.supporting_vote_count as nat == old(self).spec_validator_count() && proofs@[k].bft_proof.supporting_stake == old(self).spec_validators().total_stake,
            r matches Ok(proofs) ==> ((old(self).spec_validator_count() >= 1 && old(self).spec_validators().total_stake >= 1) ==> round_emits_all(
                *old(self),
                vertices@,
                proofs@,
            )),
            r matches Ok(proofs) ==> (old(self).spec_validator_count() == 0 ==> proofs@.len()
                == 0),
            r is Ok,
            r matches Ok(proofs) ==> proofs_from_candidates(vertices@, proofs@),
            r matches Ok(proofs) ==> one_proof_per_vertex(proofs@),
    {
        let ghost vals = old(self).spec_validators().validators@;
        let ghost s_total = old(self).spec_validators().total_stake;
        let round = self.current_round + 1;
        self.current_round = round;
        let start = now_millis();
        let nv = vertices.len();
        let mut i: usize = 0;
        while i < nv
            invariant
                self.wf(),
                nv == vertices@.len(),
                i <= nv,
                self.spec_validators() == old(self).spec_validators(),
                vals == self.spec_validators().validators@,
                s_total == self.spec_validators().total_stake,
                self.spec_round() == round,
                round == old(self).spec_round() + 1,
                self.finality_proofs == old(self).finality_proofs,
                forall|k: int|
                    0 <= k < i ==> match self.spec_vote_record((#[trigger] vertices@[k])@) {
                        Some(rec) => vote_record_ok(rec, vals, s_total, vertices@[k]@, round),
                        None => false,
                    },
            decreases nv - i,
        {
            let ghost before = *self;
            self.collect_virtual_votes(&vertices[i], round);
            proof {
                assert forall|k: int|
                    0 <= k < i + 1 implies match self.spec_vote_record(
                    (#[trigger] vertices@[k])@,
                ) {
                    Some(rec) => vote_record_ok(rec, vals, s_total, vertices@[k]@, round),
                    None => false,
                } by {
                    if vertices@[k]@ != vertices@[i as int]@ {
                        assert(self.spec_vote_record(vertices@[k]@) == before.spec_vote_record(
                            vertices@[k]@,
                        ));
                    }
                }
            }
            i = i + 1;
        }
        let ghost s1 = *self;
        self.process_gossip_votes(round);
        proof {
            assert forall|k: int|
                0 <= k < nv implies match self.spec_vote_record((#[trigger] vertices@[k])@) {
                Some(rec) => vote_record_ok(rec, vals, s_total, vertices@[k]@, round),
                None => false,
            } by {
                assert(self.spec_vote_record(vertices@[k]@) == s1.spec_vote_record(
                    vertices@[k]@,
                ));
            }
            assert forall|h: Seq<u8>| #[trigger] self.spec_has_proof(h) == old(self).spec_has_proof(h) by {}
        }
        let ghost s2 = *self;
        let mut proofs: Vec<FinalityProof> = Vec::new();
        let mut j: usize = 0;
        while j < nv
            invariant
                self.wf(),
                nv == vertices@.len(),
                j <= nv,
                proofs@.len() <= j,
                self.spec_validators() == old(self).spec_validators(),
                vals == self.spec_validators().validators@,
                s_total == self.spec_validators().total_stake,
                vals.len() < u32::MAX,
                self.spec_round() == round,
                round == old(self).spec_round() + 1,
                forall|k: int|
                    0 <= k < nv ==> match self.spec_vote_record((#[trigger] vertices@[k])@) {
                        Some(rec) => vote_record_ok(rec, vals, s_total, vertices@[k]@, round),
                        None => false,
                    },
                forall|h: Seq<u8>|
                    #[trigger] self.spec_has_proof(h) ==> old(self).spec_has_proof(h) || exists|
                        k2: int,
                    |
                        0 <= k2 < j && vertices@[k2]@ == h,
                forall|k: int|
                    0 <= k < proofs@.len() ==> proof_safety_ok(#[trigger] proofs@[k])
                        && proofs@[k].finality_round == round
                        && proofs@[k].bft_proof.total_validators as nat == vals.len()
                        && proofs@[k].bft_proof.total_stake == s_total
                        && proofs@[k].bft_proof.supporting_vote_count as nat == vals.len()
                        && proofs@[k].bft_proof.supporting_stake == s_total,
                (vals.len() >= 1 && s_total >= 1) ==> forall|k: int|
                    0 <= k < j && !old(self).spec_has_proof((#[trigger] vertices@[k])@) && (
                    forall|k2: int| 0 <= k2 < k ==> vertices@[k2]@ != vertices@[k]@)
                        ==> exists|i2: int|
                        0 <= i2 < proofs@.len() && (#[trigger] proofs@[i2]).vertex_hash@
                            == vertices@[k]@,
                forall|i2: int|
                    0 <= i2 < proofs@.len() ==> exists|k2: int|
                        0 <= k2 < j && (#[trigger] proofs@[i2]).vertex_hash@ == vertices@[k2]@,
                forall|i2: int|
                    0 <= i2 < proofs@.len() ==> self.spec_has_proof(
                        (#[trigger] proofs@[i2]).vertex_hash@,
                    ),
                forall|i1: int, i2: int|
                    0 <= i1 < i2 < proofs@.len() ==> (#[trigger] proofs@[i1]).vertex_hash@ != (
                    #[trigger] proofs@[i2]).vertex_hash@,
            decreases nv - j,
        {
            let ghost before = *self;
            let ghost proofs_before = proofs@;
            let res = self.check_finality(&vertices[j], round);
            proof {
                let ghost rec_j = before.spec_vote_record(vertices@[j as int]@);
                assert(rec_j is Some);
                let reco = rec_j.unwrap();
                assert(vote_record_ok(reco, vals, s_total, vertices@[j as int]@, round));
                assert forall|q: int|
                    0 <= q < reco.votes@.len() implies (#[trigger] reco.votes@[q]).vote_type
                    == VoteType::Approve by {}
                lemma_count_all_approvals(reco.votes@);
            }
            let ghost proofs_pre = proofs@;
            let ghost res_g = res;
            match res {
                Some(p) => {
                    proofs.push(p);
                },
                None => {},
            }
            proof {
                match res_g {
                    Some(p) => {
                        assert(proofs@[proofs@.len() - 1].vertex_hash@ == vertices@[j as int]@);
                        assert(!before.spec_has_proof(vertices@[j as int]@));
                        assert forall|i2: int|
                            0 <= i2 < proofs@.len() implies self.spec_has_proof(
                            (#[trigger] proofs@[i2]).vertex_hash@,
                        ) by {
                            if i2 < proofs_pre.len() {
                                assert(proofs@[i2] == proofs_pre[i2]);
                                assert(before.spec_has_proof(proofs_pre[i2].vertex_hash@));
                                if proofs_pre[i2].vertex_hash@ != vertices@[j as int]@ {
                                    assert(self.spec_has_proof(proofs_pre[i2].vertex_hash@)
                                        == before.spec_has_proof(proofs_pre[i2].vertex_hash@));
                                }
                            }
                        }
                        assert forall|i1: int, i2: int|
                            0 <= i1 < i2 < proofs@.len() implies (
                        #[trigger] proofs@[i1]).vertex_hash@ != (
                        #[trigger] proofs@[i2]).vertex_hash@ by {
                            if i2 == proofs@.len() - 1 {
                                assert(proofs@[i1] == proofs_pre[i1]);
                                assert(before.spec_has_proof(proofs_pre[i1].vertex_hash@));
                            }
                        }
                    },
                    None => {},
                }
                if vals.len() >= 1 && s_total >= 1 {
                    assert forall|k: int|
                        0 <= k < j + 1 && !old(self).spec_has_proof(
                            (#[trigger] vertices@[k])@,
                        ) && (forall|k2: int| 0 <= k2 < k ==> vertices@[k2]@ != vertices@[k]@)
                            implies exists|i2: int|
                        0 <= i2 < proofs@.len() && (#[trigger] proofs@[i2]).vertex_hash@
                            == vertices@[k]@ by {
                        if k < j {
                            let i2 = choose|i2: int|
                                0 <= i2 < proofs_before.len() && proofs_before[i2].vertex_hash@
                                    == vertices@[k]@;
                            assert(proofs@[i2].vertex_hash@ == vertices@[k]@);
                        } else {
                            let reco = before.spec_vote_record(vertices@[k]@).unwrap();
                            assert(!before.spec_has_proof(vertices@[k]@));
                            assert(reco.consensus_reached);
                            assert(count_approvals(reco.votes@) >= 2 * fault_bound(vals.len())
                                + 1);
                            assert((reco.total_voting_stake as int) > (s_total as int) * 2 / 3);
                            assert(res is Some);
                            assert(proofs@[proofs@.len() - 1].vertex_hash@ == vertices@[k]@);
                        }
                    }
                }
            }
            j = j + 1;
        }
        proof {
            if vals.len() == 0 && proofs@.len() > 0 {
                assert(proof_safety_ok(proofs@[0]));
                assert(proofs@[0].bft_proof.supporting_vote_count as nat == 0);
                assert(false);
            }
            if vals.len() >= 1 && s_total >= 1 {
                assert forall|k: int|
                    0 <= k < vertices@.len() && !old(self).spec_has_proof(
                        (#[trigger] vertices@[k])@,
                    ) && (forall|k2: int| 0 <= k2 < k ==> vertices@[k2]@ != vertices@[k]@)
                        implies exists|i: int|
                    0 <= i < proofs@.len() && (#[trigger] proofs@[i]).vertex_hash@
                        == vertices@[k]@ by {}
                assert(round_emits_all(*old(self), vertices@, proofs@));
            }
            assert forall|i: int| 0 <= i < proofs@.len() implies candidate_hashes(
                vertices@,
            ).contains((#[trigger] proofs@[i]).vertex_hash@) by {
                let k2 = choose|k2: int|
                    0 <= k2 < nv && proofs@[i].vertex_hash@ == vertices@[k2]@;
                assert(candidate_hashes(vertices@)[k2] == proofs@[i].vertex_hash@);
            }
            assert(proofs_from_candidates(vertices@, proofs@));
            assert(one_proof_per_vertex(proofs@));
        }
        let finish = now_millis();
        let duration = finish.saturating_sub(start);
        let proposed = nv as u32;
        let denom: u64 = if proposed == 0 {
            1
        } else {
            proposed as u64
        };
        let active = self.validators.validators.len() as u32;
        let stats = RoundStats {
            vertices_proposed: proposed,
            vertices_finalized: proofs.len() as u32,
            active_validators: active,
            duration_ms: duration,
            avg_consensus_time_ms: duration / denom,
        };
        self.round_stats.push((round, stats));
        Ok(proofs)
    }
}

} // verus!
