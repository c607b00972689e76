//! The DAG vertex model: a content-addressed transaction vertex with
//! causal parent references, a Lamport clock, a shard tag, the embedded
//! transaction, and a signature.

use vstd::prelude::*;

use crate::codec::{
    enc_hash_list, enc_tx_data, enc_u32_be, enc_u64_be, hashes_view, push_bytes, push_hash_list,
    push_slice, push_u32, push_u32_be, push_u64, push_u64_be,
};
use crate::crypto::{blake3_hash32, blake3_of, now_millis};
use crate::{ShardId, TransactionHash, VertexHash};

verus! {

/// A DAG vertex: one transaction and its causal context.
#[derive(Debug, Clone, PartialEq)]
pub struct DAGVertex {
    /// Content hash identifying this vertex.
    pub hash: VertexHash,
    /// Hash of the embedded transaction payload.
    pub tx_hash: TransactionHash,
    /// Lamport timestamp; strictly greater than every parent's clock.
    pub logical_clock: u64,
    /// Parent vertex hashes: empty iff genesis, else at least two.
    pub parents: Vec<VertexHash>,
    /// Shard assigned at insertion time.
    pub shard_id: ShardId,
    /// The embedded transaction.
    pub transaction_data: TransactionData,
    /// BLS signature over the vertex.
    pub signature: BLSSignature,
    /// Wall-clock milliseconds at creation; advisory only.
    pub timestamp: u64,
    /// Optional zero-knowledge proof attachment.
    pub proof: Option<ZKProof>,
}

/// Transaction data embedded in a DAG vertex.
#[derive(Debug, Clone, PartialEq)]
pub struct TransactionData {
    /// Source address.
    pub source: [u8; 32],
    /// Target address.
    pub target: [u8; 32],
    /// Amount being transferred.
    pub amount: u64,
    /// Currency tag.
    pub currency: u32,
    /// Fee paid for execution.
    pub fee: u64,
    /// Nonce for replay protection.
    pub nonce: u64,
    /// Free-form user payload (name-system and token inscriptions).
    pub user_data: Vec<u8>,
}

/// A BLS signature with its public key and optional aggregation info.
#[derive(Debug, Clone, PartialEq)]
pub struct BLSSignature {
    /// Signature bytes.
    pub signature: [u8; 48],
    /// Compressed public key of the signer.
    pub public_key: [u8; 48],
    /// Present iff this is an aggregate of several signatures.
    pub aggregate_info: Option<AggregateInfo>,
}

/// Description of an aggregate signature.
#[derive(Debug, Clone, PartialEq)]
pub struct AggregateInfo {
    /// Number of signatures aggregated.
    pub signature_count: u32,
    /// Bitmap of participating validators.
    pub participant_bitmap: Vec<u8>,
}

/// A zero-knowledge proof attachment.
#[derive(Debug, Clone, PartialEq)]
pub struct ZKProof {
    /// Proof bytes.
    pub proof: Vec<u8>,
    /// Public inputs of the proof.
    pub public_inputs: Vec<u8>,
    /// Hash of the verification key.
    pub vk_hash: [u8; 32],
}

/// Mathematical image of `TransactionData`.
pub ghost struct TxDataAbs {
    pub source: Seq<u8>,
    pub target: Seq<u8>,
    pub amount: u64,
    pub currency: u32,
    pub fee: u64,
    pub nonce: u64,
    pub user_data: Seq<u8>,
}

/// Mathematical image of `AggregateInfo`.
pub ghost struct AggregateAbs {
    pub signature_count: u32,
    pub participant_bitmap: Seq<u8>,
}

/// Mathematical image of `BLSSignature`.
pub ghost struct SignatureAbs {
    pub signature: Seq<u8>,
    pub public_key: Seq<u8>,
    pub aggregate_info: Option<AggregateAbs>,
}

/// Mathematical image of `ZKProof`.
pub ghost struct ZKProofAbs {
    pub proof: Seq<u8>,
    pub public_inputs: Seq<u8>,
    pub vk_hash: Seq<u8>,
}

/// Mathematical image of `DAGVertex`.
pub ghost struct VertexAbs {
    pub hash: Seq<u8>,
    pub tx_hash: Seq<u8>,
    pub logical_clock: u64,
    pub parents: Seq<Seq<u8>>,
    pub shard_id: u32,
    pub transaction_data: TxDataAbs,
    pub signature: SignatureAbs,
    pub timestamp: u64,
    pub proof: Option<ZKProofAbs>,
}

impl View for TransactionData {
    type V = TxDataAbs;

    open spec fn view(&self) -> TxDataAbs {
        TxDataAbs {
            source: self.source@,
            target: self.target@,
            amount: self.amount,
            currency: self.currency,
            fee: self.fee,
            nonce: self.nonce,
            user_data: self.user_data@,
        }
    }
}

impl View for AggregateInfo {
    type V = AggregateAbs;

    open spec fn view(&self) -> AggregateAbs {
        AggregateAbs {
            signature_count: self.signature_count,
            participant_bitmap: self.participant_bitmap@,
        }
    }
}

impl View for BLSSignature {
    type V = SignatureAbs;

    open spec fn view(&self) -> SignatureAbs {
        SignatureAbs {
            signature: self.signature@,
            public_key: self.public_key@,
            aggregate_info: match self.aggregate_info {
                Some(a) => Some(a@),
                None => None,
            },
        }
    }
}

impl View for ZKProof {
    type V = ZKProofAbs;

    open spec fn view(&self) -> ZKProofAbs {
        ZKProofAbs {
            proof: self.proof@,
            public_inputs: self.public_inputs@,
            vk_hash: self.vk_hash@,
        }
    }
}

impl View for DAGVertex {
    type V = VertexAbs;

    open spec fn view(&self) -> VertexAbs {
        VertexAbs {
            hash: self.hash@,
            tx_hash: self.tx_hash@,
            logical_clock: self.logical_clock,
            parents: Seq::new(self.parents@.len(), |i: int| self.parents@[i]@),
            shard_id: self.shard_id,
            transaction_data: self.transaction_data@,
            signature: self.signature@,
            timestamp: self.timestamp,
            proof: match self.proof {
                Some(p) => Some(p@),
                None => None,
            },
        }
    }
}

/// All bytes of the sequence are zero.
pub open spec fn all_zero(s: Seq<u8>) -> bool {
    forall|i: int| 0 <= i < s.len() ==> s[i] == 0
}

/// `needle` occurs as a contiguous subsequence of `hay`.
pub open spec fn contains_seq(hay: Seq<u8>, needle: Seq<u8>) -> bool {
    exists|i: int|
        0 <= i && i + needle.len() <= hay.len() && #[trigger] hay.subrange(i, i + needle.len())
            == needle
}

/// The bytes of `"p":"cns"`.
pub open spec fn marker_cns() -> Seq<u8> {
    seq![34u8, 112u8, 34u8, 58u8, 34u8, 99u8, 110u8, 115u8, 34u8]
}

/// The bytes of `"p":"cdns"`.
pub open spec fn marker_cdns() -> Seq<u8> {
    seq![34u8, 112u8, 34u8, 58u8, 34u8, 99u8, 100u8, 110u8, 115u8, 34u8]
}

/// The bytes of `"op":"mint"`.
pub open spec fn marker_mint() -> Seq<u8> {
    seq![34u8, 111u8, 112u8, 34u8, 58u8, 34u8, 109u8, 105u8, 110u8, 116u8, 34u8]
}

/// The bytes of `"op":"deploy"`.
pub open spec fn marker_deploy() -> Seq<u8> {
    seq![34u8, 111u8, 112u8, 34u8, 58u8, 34u8, 100u8, 101u8, 112u8, 108u8, 111u8, 121u8, 34u8]
}

/// Whether a byte sequence is well-formed UTF-8.
pub uninterp spec fn is_valid_utf8(bytes: Seq<u8>) -> bool;

/// Relies on std::str::from_utf8: whether it accepts a byte slice
/// depends on the bytes alone, and it accepts every all-ASCII slice.
#[verifier::external_body]
fn utf8_check(bytes: &Vec<u8>) -> (r: bool)
    ensures
        r == is_valid_utf8(bytes@),
        (forall|i: int| 0 <= i < bytes@.len() ==> bytes@[i] < 128) ==> r,
{
    std::str::from_utf8(bytes).is_ok()
}

/// Naive substring search over byte slices.
fn contains_bytes(hay: &Vec<u8>, needle: &Vec<u8>) -> (r: bool)
    ensures
        r == contains_seq(hay@, needle@),
{
    let n = needle.len();
    let h = hay.len();
    if n > h {
        assert(!contains_seq(hay@, needle@));
        return false;
    }
    if n == 0 {
        proof {
            assert(hay@.subrange(0, 0 + needle@.len() as int) =~= needle@);
        }
        return true;
    }
    let mut i: usize = 0;
    while i <= h - n
        invariant
            n <= h,
            h == hay@.len(),
            n == needle@.len(),
            n >= 1,
            i <= h - n + 1,
            forall|k: int|
                0 <= k < i ==> #[trigger] hay@.subrange(k, k + needle@.len()) != needle@,
        decreases h - n - i + 1,
    {
        let mut j: usize = 0;
        let mut matched = true;
        while j < n
            invariant
                n <= h,
                h == hay@.len(),
                n == needle@.len(),
                i + n <= h,
                j <= n,
                matched ==> forall|m: int| 0 <= m < j ==> hay@[i + m] == needle@[m],
                !matched ==> hay@.subrange(i as int, i + needle@.len()) != needle@,
            decreases n - j,
        {
            if hay[i + j] != needle[j] {
                assert(hay@.subrange(i as int, i + needle@.len())[j as int] != needle@[j as int]);
                matched = false;
                j = n;
            } else {
                j = j + 1;
            }
        }
        if matched {
            assert(hay@.subrange(i as int, i + needle@.len()) =~= needle@);
            return true;
        }
        i = i + 1;
    }
    assert forall|k: int| 0 <= k && k + needle@.len() <= hay@.len() implies #[trigger] hay@.subrange(
        k,
        k + needle@.len(),
    ) != needle@ by {
        assert(k < i);
    }
    false
}

impl TransactionData {
    /// Build transaction data from its fields.
    pub fn new(
        source: [u8; 32],
        target: [u8; 32],
        amount: u64,
        currency: u32,
        fee: u64,
        nonce: u64,
        user_data: Vec<u8>,
    ) -> (r: TransactionData)
        ensures
            r@ == (TxDataAbs {
                source: source@,
                target: target@,
                amount,
                currency,
                fee,
                nonce,
                user_data: user_data@,
            }),
    {
        TransactionData { source, target, amount, currency, fee, nonce, user_data }
    }

    /// The payload classifies as a name-system transaction.
    pub open spec fn spec_is_cns(ud: Seq<u8>) -> bool {
        ud.len() > 0 && is_valid_utf8(ud) && (contains_seq(ud, marker_cns()) || contains_seq(
            ud,
            marker_cdns(),
        ))
    }

    /// The payload classifies as an ordinal token transaction.
    pub open spec fn spec_is_ordinal(ud: Seq<u8>) -> bool {
        ud.len() > 0 && is_valid_utf8(ud) && (contains_seq(ud, marker_mint()) || contains_seq(
            ud,
            marker_deploy(),
        ))
    }

    /// True iff `user_data` is UTF-8 text containing the literal
    /// `"p":"cns"` or `"p":"cdns"` (a conservative substring test).
    pub fn is_cns_transaction(&self) -> (r: bool)
        ensures
            r == Self::spec_is_cns(self.user_data@),
    {
        if self.user_data.len() == 0 {
            return false;
        }
        if !utf8_check(&self.user_data) {
            return false;
        }
        let m1 = build_marker_cns();
        if contains_bytes(&self.user_data, &m1) {
            return true;
        }
        let m2 = build_marker_cdns();
        contains_bytes(&self.user_data, &m2)
    }

    /// True iff `user_data` is UTF-8 text containing the literal
    /// `"op":"mint"` or `"op":"deploy"` (a conservative substring test).
    pub fn is_ordinal_transaction(&self) -> (r: bool)
        ensures
            r == Self::spec_is_ordinal(self.user_data@),
    {
        if self.user_data.len() == 0 {
            return false;
        }
        if !utf8_check(&self.user_data) {
            return false;
        }
        let m1 = build_marker_mint();
        if contains_bytes(&self.user_data, &m1) {
            return true;
        }
        let m2 = build_marker_deploy();
        contains_bytes(&self.user_data, &m2)
    }

    /// Transferred value including the fee, saturating at the maximum.
    pub fn total_value(&self) -> (r: u64)
        ensures
            r == if self.amount + self.fee > u64::MAX {
                u64::MAX
            } else {
                (self.amount + self.fee) as u64
            },
    {
        self.amount.saturating_add(self.fee)
    }
}

/// The byte vector whose view is `marker_cns()`.
fn build_marker_cns() -> (r: Vec<u8>)
    ensures
        r@ == marker_cns(),
{
    let mut v: Vec<u8> = Vec::new();
    v.push(34u8);
    v.push(112u8);
    v.push(34u8);
    v.push(58u8);
    v.push(34u8);
    v.push(99u8);
    v.push(110u8);
    v.push(115u8);
    v.push(34u8);
    assert(v@ =~= marker_cns());
    v
}

/// The byte vector whose view is `marker_cdns()`.
fn build_marker_cdns() -> (r: Vec<u8>)
    ensures
        r@ == marker_cdns(),
{
    let mut v: Vec<u8> = Vec::new();
    v.push(34u8);
    v.push(112u8);
    v.push(34u8);
    v.push(58u8);
    v.push(34u8);
    v.push(99u8);
    v.push(100u8);
    v.push(110u8);
    v.push(115u8);
    v.push(34u8);
    assert(v@ =~= marker_cdns());
    v
}

/// The byte vector whose view is `marker_mint()`.
fn build_marker_mint() -> (r: Vec<u8>)
    ensures
        r@ == marker_mint(),
{
    let mut v: Vec<u8> = Vec::new();
    v.push(34u8);
    v.push(111u8);
    v.push(112u8);
    v.push(34u8);
    v.push(58u8);
    v.push(34u8);
    v.push(109u8);
    v.push(105u8);
    v.push(110u8);
    v.push(116u8);
    v.push(34u8);
    assert(v@ =~= marker_mint());
    v
}

/// The byte vector whose view is `marker_deploy()`.
fn build_marker_deploy() -> (r: Vec<u8>)
    ensures
        r@ == marker_deploy(),
{
    let mut v: Vec<u8> = Vec::new();
    v.push(34u8);
    v.push(111u8);
    v.push(112u8);
    v.push(34u8);
    v.push(58u8);
    v.push(34u8);
    v.push(100u8);
    v.push(101u8);
    v.push(112u8);
    v.push(108u8);
    v.push(111u8);
    v.push(121u8);
    v.push(34u8);
    assert(v@ =~= marker_deploy());
    v
}

impl BLSSignature {
    /// Build a plain (non-aggregate) signature.
    pub fn new(signature: [u8; 48], public_key: [u8; 48]) -> (r: BLSSignature)
        ensures
            r@.signature == signature@,
            r@.public_key == public_key@,
            r@.aggregate_info is None,
    {
        BLSSignature { signature, public_key, aggregate_info: None }
    }

    /// Whether this signature carries aggregation info.
    pub fn is_aggregate(&self) -> (r: bool)
        ensures
            r == (self@.aggregate_info is Some),
    {
        self.aggregate_info.is_some()
    }
}

impl DAGVertex {
    /// A vertex is genesis iff it has no parents and a zero clock.
    pub open spec fn spec_is_genesis(v: VertexAbs) -> bool {
        v.parents.len() == 0 && v.logical_clock == 0
    }

    /// The parents are pairwise distinct.
    pub open spec fn spec_parents_distinct(parents: Seq<Seq<u8>>) -> bool {
        forall|i: int, j: int| 0 <= i < j < parents.len() ==> parents[i] != parents[j]
    }

    /// The structural DAG requirements on a vertex: genesis, or at
    /// least two pairwise-distinct parents and a positive clock.
    pub open spec fn spec_dag_props_ok(v: VertexAbs) -> bool {
        Self::spec_is_genesis(v) || (v.parents.len() >= 2 && Self::spec_parents_distinct(v.parents)
            && v.logical_clock > 0)
    }

    /// Size in bytes of this vertex's canonical encoding.
    pub fn serialized_size(&self) -> (r: usize)
        ensures
            r == crate::codec::enc_vertex(self@).len(),
    {
        let bytes = crate::codec::encode_vertex(self);
        bytes.len()
    }

    /// Check whether this is the genesis vertex.
    pub fn is_genesis(&self) -> (r: bool)
        ensures
            r == Self::spec_is_genesis(self@),
    {
        self.parents.len() == 0 && self.logical_clock == 0
    }

    /// Number of parent references.
    pub fn parent_count(&self) -> (r: usize)
        ensures
            r == self@.parents.len(),
    {
        self.parents.len()
    }

    /// Placeholder signature validity: the signature bytes are not all
    /// zero.  Real BLS verification is out of scope of the core.
    pub fn verify_signature(&self) -> (r: bool)
        ensures
            r == !all_zero(self@.signature.signature),
    {
        let mut i: usize = 0;
        while i < 48
            invariant
                i <= 48,
                forall|k: int| 0 <= k < i ==> self.signature.signature@[k] == 0,
            decreases 48 - i,
    {
            if self.signature.signature[i] != 0 {
                return true;
            }
            i = i + 1;
        }
        false
    }

    /// Enforce the structural DAG invariants: a non-genesis vertex has
    /// at least two pairwise-distinct parents and a positive clock.
    pub fn validate_dag_properties(&self) -> (r: Result<(), String>)
        ensures
            r is Ok <==> Self::spec_dag_props_ok(self@),
    {
        if self.is_genesis() {
            return Ok(());
        }
        if self.parents.len() < 2 {
            return Err(String::from_str("non-genesis vertex must have at least 2 parents"));
        }
        if !parents_distinct(&self.parents) {
            return Err(String::from_str("duplicate parent references found"));
        }
        if self.logical_clock == 0 {
            return Err(String::from_str("non-genesis vertex must have positive logical clock"));
        }
        Ok(())
    }
}

/// Pairwise-distinctness check over a list of hashes.
pub fn parents_distinct(parents: &Vec<VertexHash>) -> (r: bool)
    ensures
        r == DAGVertex::spec_parents_distinct(
            Seq::new(parents@.len(), |i: int| parents@[i]@),
        ),
{
    let ghost ps = Seq::new(parents@.len(), |i: int| parents@[i]@);
    let n = parents.len();
    let mut i: usize = 0;
    while i < n
        invariant
            n == parents@.len(),
            i <= n,
            ps == Seq::new(parents@.len(), |k: int| parents@[k]@),
            forall|a: int, b: int| 0 <= a < b < n && a < i ==> ps[a] != ps[b],
        decreases n - i,
    {
        let mut j: usize = i + 1;
        while j < n
            invariant
                n == parents@.len(),
                i < n,
                i < j,
                j <= n,
                ps == Seq::new(parents@.len(), |k: int| parents@[k]@),
                forall|b: int| i < b < j ==> ps[i as int] != ps[b],
            decreases n - j,
        {
            if hash_eq(&parents[i], &parents[j]) {
                assert(ps[i as int] == ps[j as int]);
                return false;
            }
            j = j + 1;
        }
        i = i + 1;
    }
    true
}

/// Byte-wise equality of two 32-byte hashes.
pub fn hash_eq(a: &VertexHash, b: &VertexHash) -> (r: bool)
    ensures
        r == (a@ == b@),
{
    let mut i: usize = 0;
    while i < 32
        invariant
            i <= 32,
            forall|k: int| 0 <= k < i ==> a@[k] == b@[k],
        decreases 32 - i,
    {
        if a[i] != b[i] {
            return false;
        }
        i = i + 1;
    }
    assert(a@ =~= b@);
    true
}


/// Canonical hash input of a vertex: the semantic fields in fixed
/// order, scalars big-endian, parents back to back, the transaction
/// in its canonical encoding, then signature and public key.  The
/// hash field itself is not part of the input.
pub open spec fn hash_input(v: VertexAbs) -> Seq<u8> {
    v.tx_hash + enc_u64_be(v.logical_clock) + enc_u32_be(v.shard_id) + enc_u64_be(v.timestamp)
        + enc_hash_list(v.parents) + enc_tx_data(v.transaction_data) + v.signature.signature
        + v.signature.public_key
}

/// The hash field equals the canonical hash of the other fields.
pub open spec fn hash_consistent(v: VertexAbs) -> bool {
    v.hash == blake3_of(hash_input(v))
}

/// The marker bytes carried by the genesis transaction payload.
pub open spec fn genesis_marker() -> Seq<u8> {
    seq![
        67u8, 82u8, 69u8, 68u8, 73u8, 84u8, 83u8, 32u8, 65u8, 76u8, 84u8, 45u8, 76u8, 69u8, 68u8,
        71u8, 69u8, 82u8, 32u8, 50u8, 48u8, 51u8, 48u8, 32u8, 71u8, 101u8, 110u8, 101u8, 115u8,
        105u8, 115u8,
    ]
}

/// The byte vector whose view is `genesis_marker()`.
fn build_genesis_marker() -> (r: Vec<u8>)
    ensures
        r@ == genesis_marker(),
{
    let mut v: Vec<u8> = Vec::new();
    v.push(67u8);
    v.push(82u8);
    v.push(69u8);
    v.push(68u8);
    v.push(73u8);
    v.push(84u8);
    v.push(83u8);
    v.push(32u8);
    v.push(65u8);
    v.push(76u8);
    v.push(84u8);
    v.push(45u8);
    v.push(76u8);
    v.push(69u8);
    v.push(68u8);
    v.push(71u8);
    v.push(69u8);
    v.push(82u8);
    v.push(32u8);
    v.push(50u8);
    v.push(48u8);
    v.push(51u8);
    v.push(48u8);
    v.push(32u8);
    v.push(71u8);
    v.push(101u8);
    v.push(110u8);
    v.push(101u8);
    v.push(115u8);
    v.push(105u8);
    v.push(115u8);
    assert(v@ =~= genesis_marker());
    v
}

impl DAGVertex {
    /// Recompute the canonical content hash from this vertex's fields.
    pub fn calculate_hash(&self) -> (r: VertexHash)
        ensures
            r@ == blake3_of(hash_input(self@)),
    {
        let mut buf: Vec<u8> = Vec::new();
        push_slice(&mut buf, self.tx_hash.as_slice());
        push_u64_be(&mut buf, self.logical_clock);
        push_u32_be(&mut buf, self.shard_id);
        push_u64_be(&mut buf, self.timestamp);
        push_hash_list(&mut buf, &self.parents);
        push_slice(&mut buf, self.transaction_data.source.as_slice());
        push_slice(&mut buf, self.transaction_data.target.as_slice());
        push_u64(&mut buf, self.transaction_data.amount);
        push_u32(&mut buf, self.transaction_data.currency);
        push_u64(&mut buf, self.transaction_data.fee);
        push_u64(&mut buf, self.transaction_data.nonce);
        push_bytes(&mut buf, &self.transaction_data.user_data);
        push_slice(&mut buf, self.signature.signature.as_slice());
        push_slice(&mut buf, self.signature.public_key.as_slice());
        proof {
            assert(self@.parents =~= hashes_view(self.parents@));
            assert(buf@ =~= hash_input(self@));
        }
        blake3_hash32(&buf)
    }

    /// Build a vertex with an explicit creation timestamp; the hash
    /// field is set to the canonical hash of the other fields.
    pub fn new_with_timestamp(
        tx_hash: TransactionHash,
        logical_clock: u64,
        parents: Vec<VertexHash>,
        shard_id: ShardId,
        transaction_data: TransactionData,
        signature: BLSSignature,
        timestamp: u64,
    ) -> (r: DAGVertex)
        ensures
            r@.tx_hash == tx_hash@,
            r@.logical_clock == logical_clock,
            r@.parents == hashes_view(parents@),
            r@.shard_id == shard_id,
            r@.transaction_data == transaction_data@,
            r@.signature == signature@,
            r@.timestamp == timestamp,
            r@.proof is None,
            hash_consistent(r@),
    {
        let mut vertex = DAGVertex {
            hash: [0u8; 32],
            tx_hash,
            logical_clock,
            parents,
            shard_id,
            transaction_data,
            signature,
            timestamp,
            proof: None,
        };
        let ghost before = vertex@;
        let h = vertex.calculate_hash();
        vertex.hash = h;
        proof {
            assert(vertex@.parents =~= before.parents);
            assert(hash_input(vertex@) == hash_input(before));
        }
        vertex
    }

    /// Build a vertex stamped with the current wall clock.
    pub fn new(
        tx_hash: TransactionHash,
        logical_clock: u64,
        parents: Vec<VertexHash>,
        shard_id: ShardId,
        transaction_data: TransactionData,
        signature: BLSSignature,
    ) -> (r: DAGVertex)
        ensures
            r@.tx_hash == tx_hash@,
            r@.logical_clock == logical_clock,
            r@.parents == hashes_view(parents@),
            r@.shard_id == shard_id,
            r@.transaction_data == transaction_data@,
            r@.signature == signature@,
            r@.proof is None,
            hash_consistent(r@),
    {
        let timestamp = now_millis();
        Self::new_with_timestamp(
            tx_hash,
            logical_clock,
            parents,
            shard_id,
            transaction_data,
            signature,
            timestamp,
        )
    }

    /// The unique parentless vertex: zero clock, zero addresses, the
    /// fixed marker payload, shard zero.
    pub fn genesis() -> (r: DAGVertex)
        ensures
            Self::spec_is_genesis(r@),
            Self::spec_dag_props_ok(r@),
            r@.shard_id == 0,
            all_zero(r@.tx_hash),
            all_zero(r@.signature.signature),
            r@.transaction_data.amount == 0,
            r@.transaction_data.currency == 1,
            r@.transaction_data.user_data == genesis_marker(),
            hash_consistent(r@),
    {
        let genesis_data = TransactionData {
            source: [0u8; 32],
            target: [0u8; 32],
            amount: 0,
            currency: 1,
            fee: 0,
            nonce: 0,
            user_data: build_genesis_marker(),
        };
        let genesis_signature = BLSSignature {
            signature: [0u8; 48],
            public_key: [0u8; 48],
            aggregate_info: None,
        };
        let parents: Vec<VertexHash> = Vec::new();
        let r = Self::new([0u8; 32], 0, parents, 0, genesis_data, genesis_signature);
        assert(r@.parents.len() == 0);
        r
    }
}

impl BLSSignature {
    /// Placeholder aggregation: byte `i` of the aggregate is taken
    /// from signature `i`, for the first 48 signatures; the rest of
    /// the bytes stay zero.  The bitmap marks every participant.
    pub fn aggregate(signatures: Vec<BLSSignature>) -> (r: BLSSignature)
        requires
            signatures@.len() <= u32::MAX,
        ensures
            forall|i: int|
                0 <= i < signatures@.len() && i < 48 ==> r@.signature[i]
                    == signatures@[i]@.signature[i] && r@.public_key[i]
                    == signatures@[i]@.public_key[i],
            forall|i: int|
                signatures@.len() <= i < 48 ==> r@.signature[i] == 0 && r@.public_key[i] == 0,
            r@.aggregate_info matches Some(a) && a.signature_count == signatures@.len()
                && a.participant_bitmap.len() == (signatures@.len() + 7) / 8 && forall|i: int|
                0 <= i < a.participant_bitmap.len() ==> a.participant_bitmap[i] == 0xff,
    {
        let mut aggregate_sig = [0u8; 48];
        let mut aggregate_pk = [0u8; 48];
        let n = signatures.len();
        let bound: usize = if n < 48 {
            n
        } else {
            48
        };
        let mut i: usize = 0;
        while i < bound
            invariant
                bound <= 48,
                bound <= signatures@.len(),
                i <= bound,
                forall|k: int|
                    0 <= k < i ==> aggregate_sig@[k] == signatures@[k]@.signature[k]
                        && aggregate_pk@[k] == signatures@[k]@.public_key[k],
                forall|k: int| i <= k < 48 ==> aggregate_sig@[k] == 0 && aggregate_pk@[k] == 0,
            decreases bound - i,
        {
            aggregate_sig[i] = signatures[i].signature[i];
            aggregate_pk[i] = signatures[i].public_key[i];
            i = i + 1;
        }
        let bitmap_len_w = (n as u64 + 7) / 8;
        assert(bitmap_len_w <= usize::MAX);
        let bitmap_len = bitmap_len_w as usize;
        let mut bitmap: Vec<u8> = Vec::new();
        let mut j: usize = 0;
        while j < bitmap_len
            invariant
                j <= bitmap_len,
                bitmap@.len() == j,
                forall|k: int| 0 <= k < j ==> bitmap@[k] == 0xff,
            decreases bitmap_len - j,
        {
            bitmap.push(0xffu8);
            j = j + 1;
        }
        BLSSignature {
            signature: aggregate_sig,
            public_key: aggregate_pk,
            aggregate_info: Some(
                AggregateInfo { signature_count: n as u32, participant_bitmap: bitmap },
            ),
        }
    }
}


/// Copy a byte vector with a proved view equality.
pub fn clone_bytes(v: &Vec<u8>) -> (r: Vec<u8>)
    ensures
        r@ == v@,
{
    let r = v.clone();
    proof {
        assert forall|i: int| 0 <= i < v@.len() implies r@[i] == v@[i] by {
            assert(vstd::pervasive::cloned::<u8>(v@[i], r@[i]));
        }
        assert(r@ =~= v@);
    }
    r
}

/// Copy a hash list with a proved view equality.
pub fn clone_hash_vec(v: &Vec<VertexHash>) -> (r: Vec<VertexHash>)
    ensures
        r@.len() == v@.len(),
        hashes_view(r@) == hashes_view(v@),
{
    let r = v.clone();
    proof {
        assert forall|i: int| 0 <= i < v@.len() implies r@[i]@ == v@[i]@ by {
            assert(vstd::pervasive::cloned::<VertexHash>(v@[i], r@[i]));
            if !vstd::pervasive::strictly_cloned::<VertexHash>(v@[i], r@[i]) {
            } else {
                assert forall|k: int| 0 <= k < 32 implies r@[i]@[k] == v@[i]@[k] by {
                    assert(vstd::pervasive::cloned::<u8>(v@[i]@[k], r@[i]@[k]));
                }
                assert(r@[i]@ =~= v@[i]@);
            }
        }
        assert(hashes_view(r@) =~= hashes_view(v@));
    }
    r
}

impl DAGVertex {
    /// Deep copy with a proved view equality.
    pub fn duplicate(&self) -> (r: DAGVertex)
        ensures
            r@ == self@,
    {
        let r = DAGVertex {
            hash: self.hash,
            tx_hash: self.tx_hash,
            logical_clock: self.logical_clock,
            parents: clone_hash_vec(&self.parents),
            shard_id: self.shard_id,
            transaction_data: TransactionData {
                source: self.transaction_data.source,
                target: self.transaction_data.target,
                amount: self.transaction_data.amount,
                currency: self.transaction_data.currency,
                fee: self.transaction_data.fee,
                nonce: self.transaction_data.nonce,
                user_data: clone_bytes(&self.transaction_data.user_data),
            },
            signature: BLSSignature {
                signature: self.signature.signature,
                public_key: self.signature.public_key,
                aggregate_info: match &self.signature.aggregate_info {
                    None => None,
                    Some(a) => Some(
                        AggregateInfo {
                            signature_count: a.signature_count,
                            participant_bitmap: clone_bytes(&a.participant_bitmap),
                        },
                    ),
                },
            },
            timestamp: self.timestamp,
            proof: match &self.proof {
                None => None,
                Some(z) => Some(
                    ZKProof {
                        proof: clone_bytes(&z.proof),
                        public_inputs: clone_bytes(&z.public_inputs),
                        vk_hash: z.vk_hash,
                    },
                ),
            },
        };
        assert(r@.parents =~= self@.parents);
        r
    }
}

} // verus!
