//! Canonical byte encoding of the vertex model.
//!
//! The layout is externally stable: fixed-width integers are
//! little-endian, variable-length byte strings carry a 64-bit length
//! prefix, and optional records carry a one-byte presence tag.  The
//! canonical hash input (see `vertex`) uses big-endian integers.
//! Decoding is proved to invert encoding exactly.

use vstd::prelude::*;

use vstd::array::ArrayAdditionalExecFns;
use vstd::bytes::{
    lemma_auto_spec_u32_to_from_le_bytes, lemma_auto_spec_u64_to_from_le_bytes,
    spec_u32_from_le_bytes, spec_u32_to_le_bytes, spec_u64_from_le_bytes, spec_u64_to_le_bytes,
    u32_from_le_bytes, u32_to_le_bytes, u64_from_le_bytes, u64_to_le_bytes,
};
use vstd::slice::{slice_index_get, slice_subrange};

use crate::vertex::{
    AggregateAbs, AggregateInfo, BLSSignature, DAGVertex, SignatureAbs, TransactionData, TxDataAbs,
    VertexAbs, ZKProof, ZKProofAbs,
};
use crate::VertexHash;

verus! {

// ---------------------------------------------------------------------
// Specification-level encoders
// ---------------------------------------------------------------------
/// Little-endian encoding of a 64-bit integer.
pub open spec fn enc_u64(x: u64) -> Seq<u8> {
    spec_u64_to_le_bytes(x)
}

/// Little-endian encoding of a 32-bit integer.
pub open spec fn enc_u32(x: u32) -> Seq<u8> {
    spec_u32_to_le_bytes(x)
}

/// Big-endian encoding of a 64-bit integer.
pub open spec fn enc_u64_be(x: u64) -> Seq<u8> {
    seq![
        ((x >> 56) & 0xff) as u8,
        ((x >> 48) & 0xff) as u8,
        ((x >> 40) & 0xff) as u8,
        ((x >> 32) & 0xff) as u8,
        ((x >> 24) & 0xff) as u8,
        ((x >> 16) & 0xff) as u8,
        ((x >> 8) & 0xff) as u8,
        (x & 0xff) as u8,
    ]
}

/// Big-endian encoding of a 32-bit integer.
pub open spec fn enc_u32_be(x: u32) -> Seq<u8> {
    seq![
        ((x >> 24) & 0xff) as u8,
        ((x >> 16) & 0xff) as u8,
        ((x >> 8) & 0xff) as u8,
        (x & 0xff) as u8,
    ]
}

/// Length-prefixed encoding of a byte string.
pub open spec fn enc_bytes(b: Seq<u8>) -> Seq<u8> {
    enc_u64(b.len() as u64) + b
}

/// Back-to-back encoding of a list of 32-byte hashes, without a count.
pub open spec fn enc_hash_list(hs: Seq<Seq<u8>>) -> Seq<u8>
    decreases hs.len(),
{
    if hs.len() == 0 {
        Seq::empty()
    } else {
        hs[0] + enc_hash_list(hs.drop_first())
    }
}

/// Count-prefixed encoding of a list of 32-byte hashes.
pub open spec fn enc_hashes(hs: Seq<Seq<u8>>) -> Seq<u8> {
    enc_u64(hs.len() as u64) + enc_hash_list(hs)
}

/// The view of a vector of hashes as a sequence of byte sequences.
pub open spec fn hashes_view(hs: Seq<VertexHash>) -> Seq<Seq<u8>> {
    Seq::new(hs.len(), |i: int| hs[i]@)
}

/// Canonical encoding of transaction data.
pub open spec fn enc_tx_data(t: TxDataAbs) -> Seq<u8> {
    t.source + t.target + enc_u64(t.amount) + enc_u32(t.currency) + enc_u64(t.fee) + enc_u64(
        t.nonce,
    ) + enc_bytes(t.user_data)
}

/// Encoding of optional aggregation info, behind a presence tag.
pub open spec fn enc_opt_agg(a: Option<AggregateAbs>) -> Seq<u8> {
    match a {
        None => seq![0u8],
        Some(ag) => seq![1u8] + enc_u32(ag.signature_count) + enc_bytes(ag.participant_bitmap),
    }
}

/// Canonical encoding of a signature record.
pub open spec fn enc_signature(s: SignatureAbs) -> Seq<u8> {
    s.signature + s.public_key + enc_opt_agg(s.aggregate_info)
}

/// Encoding of an optional proof attachment, behind a presence tag.
pub open spec fn enc_opt_proof(p: Option<ZKProofAbs>) -> Seq<u8> {
    match p {
        None => seq![0u8],
        Some(z) => seq![1u8] + enc_bytes(z.proof) + enc_bytes(z.public_inputs) + z.vk_hash,
    }
}

/// Canonical encoding of a whole vertex, hash field included.
pub open spec fn enc_vertex(v: VertexAbs) -> Seq<u8> {
    v.hash + v.tx_hash + enc_u64(v.logical_clock) + enc_u32(v.shard_id) + enc_u64(v.timestamp)
        + enc_hashes(v.parents) + enc_tx_data(v.transaction_data) + enc_signature(v.signature)
        + enc_opt_proof(v.proof)
}

/// Shape constraints every vertex built by this library satisfies:
/// fixed-width fields have their advertised widths.
pub open spec fn vertex_abs_wf(v: VertexAbs) -> bool {
    &&& v.hash.len() == 32
    &&& v.tx_hash.len() == 32
    &&& forall|i: int| 0 <= i < v.parents.len() ==> (#[trigger] v.parents[i]).len() == 32
    &&& v.parents.len() <= u64::MAX
    &&& v.transaction_data.source.len() == 32
    &&& v.transaction_data.target.len() == 32
    &&& v.transaction_data.user_data.len() <= u64::MAX
    &&& v.signature.signature.len() == 48
    &&& v.signature.public_key.len() == 48
    &&& match v.signature.aggregate_info {
        Some(a) => a.participant_bitmap.len() <= u64::MAX,
        None => true,
    }
    &&& match v.proof {
        Some(z) => z.proof.len() <= u64::MAX && z.public_inputs.len() <= u64::MAX && z.vk_hash.len()
            == 32,
        None => true,
    }
}

// ---------------------------------------------------------------------
// Specification-level parsers
// ---------------------------------------------------------------------
/// Parse a fixed-width field of `n` bytes at `pos`.
pub open spec fn parse_fix_at(b: Seq<u8>, pos: int, n: int) -> Option<(Seq<u8>, int)> {
    if 0 <= pos && 0 <= n && pos + n <= b.len() {
        Some((b.subrange(pos, pos + n), pos + n))
    } else {
        None
    }
}

/// Parse a little-endian 64-bit integer at `pos`.
pub open spec fn parse_u64_at(b: Seq<u8>, pos: int) -> Option<(u64, int)> {
    if 0 <= pos && pos + 8 <= b.len() {
        Some((spec_u64_from_le_bytes(b.subrange(pos, pos + 8)), pos + 8))
    } else {
        None
    }
}

/// Parse a little-endian 32-bit integer at `pos`.
pub open spec fn parse_u32_at(b: Seq<u8>, pos: int) -> Option<(u32, int)> {
    if 0 <= pos && pos + 4 <= b.len() {
        Some((spec_u32_from_le_bytes(b.subrange(pos, pos + 4)), pos + 4))
    } else {
        None
    }
}

/// Parse a length-prefixed byte string at `pos`.
pub open spec fn parse_bytes_at(b: Seq<u8>, pos: int) -> Option<(Seq<u8>, int)> {
    match parse_u64_at(b, pos) {
        None => None,
        Some((n, p)) => parse_fix_at(b, p, n as int),
    }
}

/// Parse exactly `n` 32-byte hashes at `pos`.
pub open spec fn parse_n_hashes_at(b: Seq<u8>, pos: int, n: nat) -> Option<(Seq<Seq<u8>>, int)>
    decreases n,
{
    if n == 0 {
        if 0 <= pos <= b.len() {
            Some((Seq::empty(), pos))
        } else {
            None
        }
    } else {
        match parse_fix_at(b, pos, 32) {
            None => None,
            Some((h, p)) => match parse_n_hashes_at(b, p, (n - 1) as nat) {
                None => None,
                Some((rest, q)) => Some((seq![h] + rest, q)),
            },
        }
    }
}

/// Parse a count-prefixed list of 32-byte hashes at `pos`.
pub open spec fn parse_hashes_at(b: Seq<u8>, pos: int) -> Option<(Seq<Seq<u8>>, int)> {
    match parse_u64_at(b, pos) {
        None => None,
        Some((n, p)) => parse_n_hashes_at(b, p, n as nat),
    }
}

/// Parse transaction data at `pos`.
pub open spec fn parse_tx_at(b: Seq<u8>, pos: int) -> Option<(TxDataAbs, int)> {
    match parse_fix_at(b, pos, 32) {
        None => None,
        Some((source, p1)) => match parse_fix_at(b, p1, 32) {
            None => None,
            Some((target, p2)) => match parse_u64_at(b, p2) {
                None => None,
                Some((amount, p3)) => match parse_u32_at(b, p3) {
                    None => None,
                    Some((currency, p4)) => match parse_u64_at(b, p4) {
                        None => None,
                        Some((fee, p5)) => match parse_u64_at(b, p5) {
                            None => None,
                            Some((nonce, p6)) => match parse_bytes_at(b, p6) {
                                None => None,
                                Some((user_data, p7)) => Some(
                                    (
                                        TxDataAbs {
                                            source,
                                            target,
                                            amount,
                                            currency,
                                            fee,
                                            nonce,
                                            user_data,
                                        },
                                        p7,
                                    ),
                                ),
                            },
                        },
                    },
                },
            },
        },
    }
}

/// Parse optional aggregation info at `pos`.
pub open spec fn parse_opt_agg_at(b: Seq<u8>, pos: int) -> Option<(Option<AggregateAbs>, int)> {
    if !(0 <= pos && pos + 1 <= b.len()) {
        None
    } else if b[pos] == 0 {
        Some((None, pos + 1))
    } else if b[pos] == 1 {
        match parse_u32_at(b, pos + 1) {
            None => None,
            Some((c, p)) => match parse_bytes_at(b, p) {
                None => None,
                Some((bm, q)) => Some(
                    (Some(AggregateAbs { signature_count: c, participant_bitmap: bm }), q),
                ),
            },
        }
    } else {
        None
    }
}

/// Parse a signature record at `pos`.
pub open spec fn parse_sig_at(b: Seq<u8>, pos: int) -> Option<(SignatureAbs, int)> {
    match parse_fix_at(b, pos, 48) {
        None => None,
        Some((sig, p1)) => match parse_fix_at(b, p1, 48) {
            None => None,
            Some((pk, p2)) => match parse_opt_agg_at(b, p2) {
                None => None,
                Some((agg, p3)) => Some(
                    (SignatureAbs { signature: sig, public_key: pk, aggregate_info: agg }, p3),
                ),
            },
        },
    }
}

/// Parse an optional proof attachment at `pos`.
pub open spec fn parse_opt_proof_at(b: Seq<u8>, pos: int) -> Option<(Option<ZKProofAbs>, int)> {
    if !(0 <= pos && pos + 1 <= b.len()) {
        None
    } else if b[pos] == 0 {
        Some((None, pos + 1))
    } else if b[pos] == 1 {
        match parse_bytes_at(b, pos + 1) {
            None => None,
            Some((pr, p1)) => match parse_bytes_at(b, p1) {
                None => None,
                Some((pi, p2)) => match parse_fix_at(b, p2, 32) {
                    None => None,
                    Some((vk, p3)) => Some(
                        (Some(ZKProofAbs { proof: pr, public_inputs: pi, vk_hash: vk }), p3),
                    ),
                },
            },
        }
    } else {
        None
    }
}

/// Parse a whole vertex; the encoding must span the entire input.
pub open spec fn parse_vertex(b: Seq<u8>) -> Option<VertexAbs> {
    match parse_fix_at(b, 0, 32) {
        None => None,
        Some((hash, p1)) => match parse_fix_at(b, p1, 32) {
            None => None,
            Some((tx_hash, p2)) => match parse_u64_at(b, p2) {
                None => None,
                Some((logical_clock, p3)) => match parse_u32_at(b, p3) {
                    None => None,
                    Some((shard_id, p4)) => match parse_u64_at(b, p4) {
                        None => None,
                        Some((timestamp, p5)) => match parse_hashes_at(b, p5) {
                            None => None,
                            Some((parents, p6)) => match parse_tx_at(b, p6) {
                                None => None,
                                Some((transaction_data, p7)) => match parse_sig_at(b, p7) {
                                    None => None,
                                    Some((signature, p8)) => match parse_opt_proof_at(b, p8) {
                                        None => None,
                                        Some((proof, p9)) => if p9 == b.len() {
                                            Some(
                                                VertexAbs {
                                                    hash,
                                                    tx_hash,
                                                    logical_clock,
                                                    parents,
                                                    shard_id,
                                                    transaction_data,
                                                    signature,
                                                    timestamp,
                                                    proof,
                                                },
                                            )
                                        } else {
                                            None
                                        },
                                    },
                                },
                            },
                        },
                    },
                },
            },
        },
    }
}

/// Parse a standalone count-prefixed hash list spanning the entire input.
pub open spec fn parse_hash_vec(b: Seq<u8>) -> Option<Seq<Seq<u8>>> {
    match parse_hashes_at(b, 0) {
        None => None,
        Some((hs, p)) => if p == b.len() {
            Some(hs)
        } else {
            None
        },
    }
}

// ---------------------------------------------------------------------
// Round-trip lemmas: parsing inverts encoding
// ---------------------------------------------------------------------
/// A fixed-width field is recovered from its position in a concatenation.
pub proof fn lemma_parse_fix_prefix(pre: Seq<u8>, mid: Seq<u8>, suf: Seq<u8>)
    ensures
        parse_fix_at(pre + mid + suf, pre.len() as int, mid.len() as int) == Some(
            (mid, (pre.len() + mid.len()) as int),
        ),
{
    assert((pre + mid + suf).subrange(pre.len() as int, (pre.len() + mid.len()) as int) =~= mid);
}

/// A little-endian 64-bit field is recovered from its position.
pub proof fn lemma_parse_u64_prefix(pre: Seq<u8>, x: u64, suf: Seq<u8>)
    ensures
        parse_u64_at(pre + enc_u64(x) + suf, pre.len() as int) == Some((x, (pre.len() + 8) as int)),
{
    lemma_auto_spec_u64_to_from_le_bytes();
    assert((pre + enc_u64(x) + suf).subrange(pre.len() as int, (pre.len() + 8) as int) =~= enc_u64(x));
}

/// A little-endian 32-bit field is recovered from its position.
pub proof fn lemma_parse_u32_prefix(pre: Seq<u8>, x: u32, suf: Seq<u8>)
    ensures
        parse_u32_at(pre + enc_u32(x) + suf, pre.len() as int) == Some((x, (pre.len() + 4) as int)),
{
    lemma_auto_spec_u32_to_from_le_bytes();
    assert((pre + enc_u32(x) + suf).subrange(pre.len() as int, (pre.len() + 4) as int) =~= enc_u32(x));
}

/// A length-prefixed byte string is recovered from its position.
pub proof fn lemma_parse_bytes_prefix(pre: Seq<u8>, data: Seq<u8>, suf: Seq<u8>)
    requires
        data.len() <= u64::MAX,
    ensures
        parse_bytes_at(pre + enc_bytes(data) + suf, pre.len() as int) == Some(
            (data, (pre.len() + 8 + data.len()) as int),
        ),
{
    let b = pre + enc_bytes(data) + suf;
    assert(b =~= pre + enc_u64(data.len() as u64) + (data + suf));
    lemma_parse_u64_prefix(pre, data.len() as u64, data + suf);
    assert(b =~= (pre + enc_u64(data.len() as u64)) + data + suf);
    lemma_parse_fix_prefix(pre + enc_u64(data.len() as u64), data, suf);
    lemma_auto_spec_u64_to_from_le_bytes();
}

/// The raw hash-list encoding has length `32 * hs.len()`.
pub proof fn lemma_enc_hash_list_len(hs: Seq<Seq<u8>>)
    requires
        forall|i: int| 0 <= i < hs.len() ==> (#[trigger] hs[i]).len() == 32,
    ensures
        enc_hash_list(hs).len() == 32 * hs.len(),
    decreases hs.len(),
{
    if hs.len() > 0 {
        lemma_enc_hash_list_len(hs.drop_first());
    }
}

/// Appending one hash extends the raw hash-list encoding on the right.
pub proof fn lemma_enc_hash_list_push(hs: Seq<Seq<u8>>, h: Seq<u8>)
    ensures
        enc_hash_list(hs.push(h)) == enc_hash_list(hs) + h,
    decreases hs.len(),
{
    if hs.len() == 0 {
        assert(hs.push(h).drop_first() =~= hs);
        assert(enc_hash_list(hs.push(h)) =~= enc_hash_list(hs) + h);
    } else {
        assert(hs.push(h).drop_first() =~= hs.drop_first().push(h));
        lemma_enc_hash_list_push(hs.drop_first(), h);
        assert(enc_hash_list(hs.push(h)) =~= enc_hash_list(hs) + h);
    }
}

/// A raw hash list of known count is recovered from its position.
pub proof fn lemma_parse_n_hashes_prefix(pre: Seq<u8>, hs: Seq<Seq<u8>>, suf: Seq<u8>)
    requires
        forall|i: int| 0 <= i < hs.len() ==> (#[trigger] hs[i]).len() == 32,
    ensures
        parse_n_hashes_at(pre + enc_hash_list(hs) + suf, pre.len() as int, hs.len()) == Some(
            (hs, (pre.len() + 32 * hs.len()) as int),
        ),
    decreases hs.len(),
{
    let b = pre + enc_hash_list(hs) + suf;
    if hs.len() == 0 {
        assert(b =~= pre + suf);
        assert(hs =~= Seq::<Seq<u8>>::empty());
    } else {
        let h0 = hs[0];
        let rest = hs.drop_first();
        assert(b =~= pre + h0 + (enc_hash_list(rest) + suf));
        lemma_parse_fix_prefix(pre, h0, enc_hash_list(rest) + suf);
        assert(b =~= (pre + h0) + enc_hash_list(rest) + suf);
        lemma_parse_n_hashes_prefix(pre + h0, rest, suf);
        assert(seq![h0] + rest =~= hs);
    }
}

/// A count-prefixed hash list is recovered from its position.
pub proof fn lemma_parse_hashes_prefix(pre: Seq<u8>, hs: Seq<Seq<u8>>, suf: Seq<u8>)
    requires
        forall|i: int| 0 <= i < hs.len() ==> (#[trigger] hs[i]).len() == 32,
        hs.len() <= u64::MAX,
    ensures
        parse_hashes_at(pre + enc_hashes(hs) + suf, pre.len() as int) == Some(
            (hs, (pre.len() + 8 + 32 * hs.len()) as int),
        ),
{
    let b = pre + enc_hashes(hs) + suf;
    assert(b =~= pre + enc_u64(hs.len() as u64) + (enc_hash_list(hs) + suf));
    lemma_parse_u64_prefix(pre, hs.len() as u64, enc_hash_list(hs) + suf);
    assert(b =~= (pre + enc_u64(hs.len() as u64)) + enc_hash_list(hs) + suf);
    lemma_parse_n_hashes_prefix(pre + enc_u64(hs.len() as u64), hs, suf);
    lemma_auto_spec_u64_to_from_le_bytes();
}

/// Transaction data is recovered from its position.
#[verifier::rlimit(100)]
pub proof fn lemma_parse_tx_prefix(pre: Seq<u8>, t: TxDataAbs, suf: Seq<u8>)
    requires
        t.source.len() == 32,
        t.target.len() == 32,
        t.user_data.len() <= u64::MAX,
    ensures
        parse_tx_at(pre + enc_tx_data(t) + suf, pre.len() as int) == Some(
            (t, (pre.len() + enc_tx_data(t).len()) as int),
        ),
{
    let b = pre + enc_tx_data(t) + suf;
    let r1 = t.target + enc_u64(t.amount) + enc_u32(t.currency) + enc_u64(t.fee) + enc_u64(t.nonce)
        + enc_bytes(t.user_data);
    assert(b =~= pre + t.source + (r1 + suf));
    lemma_parse_fix_prefix(pre, t.source, r1 + suf);
    let q1 = pre + t.source;
    let r2 = enc_u64(t.amount) + enc_u32(t.currency) + enc_u64(t.fee) + enc_u64(t.nonce)
        + enc_bytes(t.user_data);
    assert(b =~= q1 + t.target + (r2 + suf));
    lemma_parse_fix_prefix(q1, t.target, r2 + suf);
    let q2 = q1 + t.target;
    let r3 = enc_u32(t.currency) + enc_u64(t.fee) + enc_u64(t.nonce) + enc_bytes(t.user_data);
    assert(b =~= q2 + enc_u64(t.amount) + (r3 + suf));
    lemma_parse_u64_prefix(q2, t.amount, r3 + suf);
    let q3 = q2 + enc_u64(t.amount);
    let r4 = enc_u64(t.fee) + enc_u64(t.nonce) + enc_bytes(t.user_data);
    assert(b =~= q3 + enc_u32(t.currency) + (r4 + suf));
    lemma_parse_u32_prefix(q3, t.currency, r4 + suf);
    let q4 = q3 + enc_u32(t.currency);
    let r5 = enc_u64(t.nonce) + enc_bytes(t.user_data);
    assert(b =~= q4 + enc_u64(t.fee) + (r5 + suf));
    lemma_parse_u64_prefix(q4, t.fee, r5 + suf);
    let q5 = q4 + enc_u64(t.fee);
    let r6 = enc_bytes(t.user_data);
    assert(b =~= q5 + enc_u64(t.nonce) + (r6 + suf));
    lemma_parse_u64_prefix(q5, t.nonce, r6 + suf);
    let q6 = q5 + enc_u64(t.nonce);
    assert(b =~= q6 + enc_bytes(t.user_data) + suf);
    lemma_parse_bytes_prefix(q6, t.user_data, suf);
    lemma_auto_spec_u64_to_from_le_bytes();
    lemma_auto_spec_u32_to_from_le_bytes();
}

/// Optional aggregation info is recovered from its position.
pub proof fn lemma_parse_opt_agg_prefix(pre: Seq<u8>, a: Option<AggregateAbs>, suf: Seq<u8>)
    requires
        match a {
            Some(ag) => ag.participant_bitmap.len() <= u64::MAX,
            None => true,
        },
    ensures
        parse_opt_agg_at(pre + enc_opt_agg(a) + suf, pre.len() as int) == Some(
            (a, (pre.len() + enc_opt_agg(a).len()) as int),
        ),
{
    let b = pre + enc_opt_agg(a) + suf;
    match a {
        None => {
            assert(enc_opt_agg(a) =~= seq![0u8]);
            assert(b[pre.len() as int] == 0u8);
        },
        Some(ag) => {
            assert(b[pre.len() as int] == 1u8);
            let q1 = pre + seq![1u8];
            let r2 = enc_bytes(ag.participant_bitmap);
            assert(b =~= q1 + enc_u32(ag.signature_count) + (r2 + suf));
            lemma_parse_u32_prefix(q1, ag.signature_count, r2 + suf);
            let q2 = q1 + enc_u32(ag.signature_count);
            assert(b =~= q2 + enc_bytes(ag.participant_bitmap) + suf);
            lemma_parse_bytes_prefix(q2, ag.participant_bitmap, suf);
            lemma_auto_spec_u32_to_from_le_bytes();
            lemma_auto_spec_u64_to_from_le_bytes();
        },
    }
}

/// A signature record is recovered from its position.
pub proof fn lemma_parse_sig_prefix(pre: Seq<u8>, s: SignatureAbs, suf: Seq<u8>)
    requires
        s.signature.len() == 48,
        s.public_key.len() == 48,
        match s.aggregate_info {
            Some(ag) => ag.participant_bitmap.len() <= u64::MAX,
            None => true,
        },
    ensures
        parse_sig_at(pre + enc_signature(s) + suf, pre.len() as int) == Some(
            (s, (pre.len() + enc_signature(s).len()) as int),
        ),
{
    let b = pre + enc_signature(s) + suf;
    let r1 = s.public_key + enc_opt_agg(s.aggregate_info);
    assert(b =~= pre + s.signature + (r1 + suf));
    lemma_parse_fix_prefix(pre, s.signature, r1 + suf);
    let q1 = pre + s.signature;
    let r2 = enc_opt_agg(s.aggregate_info);
    assert(b =~= q1 + s.public_key + (r2 + suf));
    lemma_parse_fix_prefix(q1, s.public_key, r2 + suf);
    let q2 = q1 + s.public_key;
    assert(b =~= q2 + enc_opt_agg(s.aggregate_info) + suf);
    lemma_parse_opt_agg_prefix(q2, s.aggregate_info, suf);
}

/// An optional proof attachment is recovered from its position.
pub proof fn lemma_parse_opt_proof_prefix(pre: Seq<u8>, p: Option<ZKProofAbs>, suf: Seq<u8>)
    requires
        match p {
            Some(z) => z.proof.len() <= u64::MAX && z.public_inputs.len() <= u64::MAX
                && z.vk_hash.len() == 32,
            None => true,
        },
    ensures
        parse_opt_proof_at(pre + enc_opt_proof(p) + suf, pre.len() as int) == Some(
            (p, (pre.len() + enc_opt_proof(p).len()) as int),
        ),
{
    lemma_auto_spec_u64_to_from_le_bytes();
    let b = pre + enc_opt_proof(p) + suf;
    match p {
        None => {
            assert(enc_opt_proof(p) =~= seq![0u8]);
            assert(b[pre.len() as int] == 0u8);
        },
        Some(z) => {
            assert(b[pre.len() as int] == 1u8);
            let q1 = pre + seq![1u8];
            let r2 = enc_bytes(z.public_inputs) + z.vk_hash;
            assert(b =~= q1 + enc_bytes(z.proof) + (r2 + suf));
            lemma_parse_bytes_prefix(q1, z.proof, r2 + suf);
            let q2 = q1 + enc_bytes(z.proof);
            let r3 = z.vk_hash;
            assert(b =~= q2 + enc_bytes(z.public_inputs) + (r3 + suf));
            lemma_parse_bytes_prefix(q2, z.public_inputs, r3 + suf);
            let q3 = q2 + enc_bytes(z.public_inputs);
            assert(b =~= q3 + z.vk_hash + suf);
            lemma_parse_fix_prefix(q3, z.vk_hash, suf);
        },
    }
}

/// Decoding inverts encoding for every well-formed vertex.
#[verifier::rlimit(100)]
#[verifier::spinoff_prover]
pub proof fn lemma_vertex_round_trip(v: VertexAbs)
    requires
        vertex_abs_wf(v),
    ensures
        parse_vertex(enc_vertex(v)) == Some(v),
{
    lemma_auto_spec_u64_to_from_le_bytes();
    lemma_auto_spec_u32_to_from_le_bytes();
    lemma_enc_hash_list_len(v.parents);
    let b = enc_vertex(v);
    let e3 = enc_u64(v.logical_clock);
    let e4 = enc_u32(v.shard_id);
    let e5 = enc_u64(v.timestamp);
    let e6 = enc_hashes(v.parents);
    let e7 = enc_tx_data(v.transaction_data);
    let e8 = enc_signature(v.signature);
    let e9 = enc_opt_proof(v.proof);
    let empty = Seq::<u8>::empty();

    assert(b =~= empty + v.hash + (v.tx_hash + e3 + e4 + e5 + e6 + e7 + e8 + e9));
    lemma_parse_fix_prefix(empty, v.hash, v.tx_hash + e3 + e4 + e5 + e6 + e7 + e8 + e9);
    assert(parse_fix_at(b, 0, 32) == Some((v.hash, 32int)));
    let q1 = empty + v.hash;
    assert(b =~= q1 + v.tx_hash + (e3 + e4 + e5 + e6 + e7 + e8 + e9));
    lemma_parse_fix_prefix(q1, v.tx_hash, e3 + e4 + e5 + e6 + e7 + e8 + e9);
    assert(parse_fix_at(b, 32, 32) == Some((v.tx_hash, 64int)));
    let q2 = q1 + v.tx_hash;
    assert(b =~= q2 + e3 + (e4 + e5 + e6 + e7 + e8 + e9));
    lemma_parse_u64_prefix(q2, v.logical_clock, e4 + e5 + e6 + e7 + e8 + e9);
    assert(parse_u64_at(b, 64) == Some((v.logical_clock, 72int)));
    let q3 = q2 + e3;
    assert(b =~= q3 + e4 + (e5 + e6 + e7 + e8 + e9));
    lemma_parse_u32_prefix(q3, v.shard_id, e5 + e6 + e7 + e8 + e9);
    assert(parse_u32_at(b, 72) == Some((v.shard_id, 76int)));
    let q4 = q3 + e4;
    assert(b =~= q4 + e5 + (e6 + e7 + e8 + e9));
    lemma_parse_u64_prefix(q4, v.timestamp, e6 + e7 + e8 + e9);
    assert(parse_u64_at(b, 76) == Some((v.timestamp, 84int)));
    let q5 = q4 + e5;
    assert(b =~= q5 + e6 + (e7 + e8 + e9));
    lemma_parse_hashes_prefix(q5, v.parents, e7 + e8 + e9);
    let p6 = 84 + 8 + 32 * v.parents.len() as int;
    assert(parse_hashes_at(b, 84) == Some((v.parents, p6)));
    let q6 = q5 + e6;
    assert(q6.len() == p6);
    assert(b =~= q6 + e7 + (e8 + e9));
    lemma_parse_tx_prefix(q6, v.transaction_data, e8 + e9);
    let p7 = p6 + e7.len() as int;
    assert(parse_tx_at(b, p6) == Some((v.transaction_data, p7)));
    let q7 = q6 + e7;
    assert(q7.len() == p7);
    assert(b =~= q7 + e8 + (e9 + empty));
    lemma_parse_sig_prefix(q7, v.signature, e9 + empty);
    let p8 = p7 + e8.len() as int;
    assert(parse_sig_at(b, p7) == Some((v.signature, p8)));
    let q8 = q7 + e8;
    assert(q8.len() == p8);
    assert(b =~= q8 + e9 + empty);
    lemma_parse_opt_proof_prefix(q8, v.proof, empty);
    let p9 = p8 + e9.len() as int;
    assert(parse_opt_proof_at(b, p8) == Some((v.proof, p9)));
    assert(p9 == b.len());
}

/// Decoding inverts encoding for a standalone hash list.
pub proof fn lemma_hashes_round_trip(hs: Seq<Seq<u8>>)
    requires
        forall|i: int| 0 <= i < hs.len() ==> (#[trigger] hs[i]).len() == 32,
        hs.len() <= u64::MAX,
    ensures
        parse_hash_vec(enc_hashes(hs)) == Some(hs),
{
    let empty = Seq::<u8>::empty();
    assert(enc_hashes(hs) =~= empty + enc_hashes(hs) + empty);
    lemma_parse_hashes_prefix(empty, hs, empty);
    lemma_enc_hash_list_len(hs);
    lemma_auto_spec_u64_to_from_le_bytes();
}


/// Establish the shape constraints of a vertex held in executable
/// memory: fixed-width arrays have their advertised widths and every
/// vector length fits the 64-bit length prefix.
pub fn exec_vertex_wf(vertex: &DAGVertex)
    ensures
        vertex_abs_wf(vertex@),
{
    let np = vertex.parents.len();
    let nud = vertex.transaction_data.user_data.len();
    match &vertex.signature.aggregate_info {
        Some(a) => {
            let nbm = a.participant_bitmap.len();
        },
        None => {},
    }
    match &vertex.proof {
        Some(z) => {
            let nzp = z.proof.len();
            let nzi = z.public_inputs.len();
        },
        None => {},
    }
    proof {
        assert(vertex@.parents.len() == np);
        assert(forall|i: int|
            0 <= i < vertex@.parents.len() ==> (#[trigger] vertex@.parents[i]).len() == 32);
    }
}

// ---------------------------------------------------------------------
// Executable encoders
// ---------------------------------------------------------------------
/// Append a slice to the output buffer.
pub fn push_slice(out: &mut Vec<u8>, a: &[u8])
    ensures
        final(out)@ == old(out)@ + a@,
{
    let ghost pre = out@;
    let mut i: usize = 0;
    while i < a.len()
        invariant
            i <= a@.len(),
            out@ == pre + a@.take(i as int),
        decreases a@.len() - i,
    {
        let x = *slice_index_get(a, i);
        out.push(x);
        assert(pre + a@.take(i + 1) =~= (pre + a@.take(i as int)).push(a@[i as int]));
        i = i + 1;
    }
    assert(a@.take(a@.len() as int) =~= a@);
}

/// Append a little-endian 64-bit integer.
pub fn push_u64(out: &mut Vec<u8>, x: u64)
    ensures
        final(out)@ == old(out)@ + enc_u64(x),
{
    let mut v = u64_to_le_bytes(x);
    out.append(&mut v);
}

/// Append a little-endian 32-bit integer.
pub fn push_u32(out: &mut Vec<u8>, x: u32)
    ensures
        final(out)@ == old(out)@ + enc_u32(x),
{
    let mut v = u32_to_le_bytes(x);
    out.append(&mut v);
}

/// Append a big-endian 64-bit integer.
pub fn push_u64_be(out: &mut Vec<u8>, x: u64)
    ensures
        final(out)@ == old(out)@ + enc_u64_be(x),
{
    let ghost pre = out@;
    assert((x >> 56) & 0xff < 256 && (x >> 48) & 0xff < 256 && (x >> 40) & 0xff < 256 && (x >> 32)
        & 0xff < 256 && (x >> 24) & 0xff < 256 && (x >> 16) & 0xff < 256 && (x >> 8) & 0xff < 256
        && x & 0xff < 256) by (bit_vector);
    out.push(((x >> 56) & 0xff) as u8);
    out.push(((x >> 48) & 0xff) as u8);
    out.push(((x >> 40) & 0xff) as u8);
    out.push(((x >> 32) & 0xff) as u8);
    out.push(((x >> 24) & 0xff) as u8);
    out.push(((x >> 16) & 0xff) as u8);
    out.push(((x >> 8) & 0xff) as u8);
    out.push((x & 0xff) as u8);
    assert(out@ =~= pre + enc_u64_be(x));
}

/// Append a big-endian 32-bit integer.
pub fn push_u32_be(out: &mut Vec<u8>, x: u32)
    ensures
        final(out)@ == old(out)@ + enc_u32_be(x),
{
    let ghost pre = out@;
    assert((x >> 24) & 0xff < 256 && (x >> 16) & 0xff < 256 && (x >> 8) & 0xff < 256 && x & 0xff
        < 256) by (bit_vector);
    out.push(((x >> 24) & 0xff) as u8);
    out.push(((x >> 16) & 0xff) as u8);
    out.push(((x >> 8) & 0xff) as u8);
    out.push((x & 0xff) as u8);
    assert(out@ =~= pre + enc_u32_be(x));
}

/// Append a length-prefixed byte string.
pub fn push_bytes(out: &mut Vec<u8>, data: &Vec<u8>)
    ensures
        final(out)@ == old(out)@ + enc_bytes(data@),
{
    let ghost pre = out@;
    push_u64(out, data.len() as u64);
    push_slice(out, data.as_slice());
    assert(out@ =~= pre + enc_bytes(data@));
}

/// Append the raw (uncounted) concatenation of 32-byte hashes.
pub fn push_hash_list(out: &mut Vec<u8>, hs: &Vec<VertexHash>)
    ensures
        final(out)@ == old(out)@ + enc_hash_list(hashes_view(hs@)),
{
    let ghost pre = out@;
    let ghost view = hashes_view(hs@);
    let mut i: usize = 0;
    while i < hs.len()
        invariant
            i <= hs@.len(),
            view == hashes_view(hs@),
            out@ == pre + enc_hash_list(view.take(i as int)),
        decreases hs@.len() - i,
    {
        let h = &hs[i];
        push_slice(out, h.as_slice());
        proof {
            lemma_enc_hash_list_push(view.take(i as int), view[i as int]);
            assert(view.take(i + 1) =~= view.take(i as int).push(view[i as int]));
        }
        i = i + 1;
    }
    assert(view.take(view.len() as int) =~= view);
}

/// Append a count-prefixed list of 32-byte hashes.
pub fn push_hashes(out: &mut Vec<u8>, hs: &Vec<VertexHash>)
    ensures
        final(out)@ == old(out)@ + enc_hashes(hashes_view(hs@)),
{
    let ghost pre = out@;
    push_u64(out, hs.len() as u64);
    push_hash_list(out, hs);
    assert(out@ =~= pre + enc_hashes(hashes_view(hs@)));
}

/// Encode a standalone count-prefixed list of hashes.
pub fn encode_hashes(hs: &Vec<VertexHash>) -> (r: Vec<u8>)
    ensures
        r@ == enc_hashes(hashes_view(hs@)),
{
    let mut out: Vec<u8> = Vec::new();
    push_hashes(&mut out, hs);
    assert(out@ =~= enc_hashes(hashes_view(hs@)));
    out
}

/// Encode a whole vertex into its canonical byte form.
pub fn encode_vertex(v: &DAGVertex) -> (r: Vec<u8>)
    ensures
        r@ == enc_vertex(v@),
{
    let mut out: Vec<u8> = Vec::new();
    push_slice(&mut out, v.hash.as_slice());
    push_slice(&mut out, v.tx_hash.as_slice());
    push_u64(&mut out, v.logical_clock);
    push_u32(&mut out, v.shard_id);
    push_u64(&mut out, v.timestamp);
    push_hashes(&mut out, &v.parents);
    push_slice(&mut out, v.transaction_data.source.as_slice());
    push_slice(&mut out, v.transaction_data.target.as_slice());
    push_u64(&mut out, v.transaction_data.amount);
    push_u32(&mut out, v.transaction_data.currency);
    push_u64(&mut out, v.transaction_data.fee);
    push_u64(&mut out, v.transaction_data.nonce);
    push_bytes(&mut out, &v.transaction_data.user_data);
    push_slice(&mut out, v.signature.signature.as_slice());
    push_slice(&mut out, v.signature.public_key.as_slice());
    match &v.signature.aggregate_info {
        None => {
            out.push(0u8);
        },
        Some(a) => {
            out.push(1u8);
            push_u32(&mut out, a.signature_count);
            push_bytes(&mut out, &a.participant_bitmap);
        },
    }
    match &v.proof {
        None => {
            out.push(0u8);
        },
        Some(z) => {
            out.push(1u8);
            push_bytes(&mut out, &z.proof);
            push_bytes(&mut out, &z.public_inputs);
            push_slice(&mut out, z.vk_hash.as_slice());
        },
    }
    assert(out@ =~= enc_vertex(v@));
    out
}

// ---------------------------------------------------------------------
// Executable decoders
// ---------------------------------------------------------------------
/// Read a little-endian 64-bit integer.
fn read_u64(b: &Vec<u8>, pos: usize) -> (r: Option<(u64, usize)>)
    ensures
        match r {
            Some((x, p)) => parse_u64_at(b@, pos as int) == Some((x, p as int)),
            None => parse_u64_at(b@, pos as int) is None,
        },
{
    if b.len() < 8 || pos > b.len() - 8 {
        return None;
    }
    let x = u64_from_le_bytes(slice_subrange(b.as_slice(), pos, pos + 8));
    Some((x, pos + 8))
}

/// Read a little-endian 32-bit integer.
fn read_u32(b: &Vec<u8>, pos: usize) -> (r: Option<(u32, usize)>)
    ensures
        match r {
            Some((x, p)) => parse_u32_at(b@, pos as int) == Some((x, p as int)),
            None => parse_u32_at(b@, pos as int) is None,
        },
{
    if b.len() < 4 || pos > b.len() - 4 {
        return None;
    }
    let x = u32_from_le_bytes(slice_subrange(b.as_slice(), pos, pos + 4));
    Some((x, pos + 4))
}

/// Read a fixed 32-byte field.
fn read_arr32(b: &Vec<u8>, pos: usize) -> (r: Option<([u8; 32], usize)>)
    ensures
        match r {
            Some((a, p)) => parse_fix_at(b@, pos as int, 32) == Some((a@, p as int)),
            None => parse_fix_at(b@, pos as int, 32) is None,
        },
{
    if b.len() < 32 || pos > b.len() - 32 {
        return None;
    }
    let mut a = [0u8; 32];
    let mut i: usize = 0;
    while i < 32
        invariant
            i <= 32,
            pos + 32 <= b@.len() <= usize::MAX,
            forall|k: int| 0 <= k < i ==> a@[k] == b@[pos + k],
        decreases 32 - i,
    {
        a[i] = b[pos + i];
        i = i + 1;
    }
    assert(a@ =~= b@.subrange(pos as int, pos + 32));
    Some((a, pos + 32))
}

/// Read a fixed 48-byte field.
fn read_arr48(b: &Vec<u8>, pos: usize) -> (r: Option<([u8; 48], usize)>)
    ensures
        match r {
            Some((a, p)) => parse_fix_at(b@, pos as int, 48) == Some((a@, p as int)),
            None => parse_fix_at(b@, pos as int, 48) is None,
        },
{
    if b.len() < 48 || pos > b.len() - 48 {
        return None;
    }
    let mut a = [0u8; 48];
    let mut i: usize = 0;
    while i < 48
        invariant
            i <= 48,
            pos + 48 <= b@.len() <= usize::MAX,
            forall|k: int| 0 <= k < i ==> a@[k] == b@[pos + k],
        decreases 48 - i,
    {
        a[i] = b[pos + i];
        i = i + 1;
    }
    assert(a@ =~= b@.subrange(pos as int, pos + 48));
    Some((a, pos + 48))
}

/// Read a length-prefixed byte string.
fn read_bytes(b: &Vec<u8>, pos: usize) -> (r: Option<(Vec<u8>, usize)>)
    ensures
        match r {
            Some((d, p)) => parse_bytes_at(b@, pos as int) == Some((d@, p as int)),
            None => parse_bytes_at(b@, pos as int) is None,
        },
{
    let (n, p) = match read_u64(b, pos) {
        Some(v) => v,
        None => {
            return None;
        },
    };
    if n > (b.len() - p) as u64 {
        return None;
    }
    let nn = n as usize;
    let d = vstd::slice::slice_to_vec(slice_subrange(b.as_slice(), p, p + nn));
    Some((d, p + nn))
}

/// Read a count-prefixed list of 32-byte hashes.
fn read_hashes(b: &Vec<u8>, pos: usize) -> (r: Option<(Vec<VertexHash>, usize)>)
    ensures
        match r {
            Some((hs, p)) => parse_hashes_at(b@, pos as int) == Some(
                (hashes_view(hs@), p as int),
            ),
            None => parse_hashes_at(b@, pos as int) is None,
        },
{
    let (n, p0) = match read_u64(b, pos) {
        Some(v) => v,
        None => {
            return None;
        },
    };
    let mut hs: Vec<VertexHash> = Vec::new();
    let mut cur = p0;
    let mut i: u64 = 0;
    while i < n
        invariant
            i <= n,
            cur <= b@.len(),
            hs@.len() == i,
            parse_hashes_at(b@, pos as int) == (match parse_n_hashes_at(
                b@,
                cur as int,
                (n - i) as nat,
            ) {
                None => None::<(Seq<Seq<u8>>, int)>,
                Some((rest, q)) => Some((hashes_view(hs@) + rest, q)),
            }),
        decreases n - i,
    {
        let (h, p) = match read_arr32(b, cur) {
            Some(v) => v,
            None => {
                assert(parse_n_hashes_at(b@, cur as int, (n - i) as nat) is None);
                return None;
            },
        };
        proof {
            let ghost rem = (n - i) as nat;
            assert(parse_n_hashes_at(b@, cur as int, rem) == (match parse_n_hashes_at(
                b@,
                p as int,
                (rem - 1) as nat,
            ) {
                None => None::<(Seq<Seq<u8>>, int)>,
                Some((rest, q)) => Some((seq![h@] + rest, q)),
            }));
        }
        let ghost old_hs = hs@;
        hs.push(h);
        proof {
            assert(hashes_view(hs@) =~= hashes_view(old_hs).push(h@));
            assert forall|rest: Seq<Seq<u8>>|
                true implies hashes_view(old_hs) + (seq![h@] + rest) =~= hashes_view(hs@)
                + rest by {}
        }
        cur = p;
        i = i + 1;
    }
    assert(parse_n_hashes_at(b@, cur as int, 0) == Some((Seq::<Seq<u8>>::empty(), cur as int)));
    assert(hashes_view(hs@) + Seq::<Seq<u8>>::empty() =~= hashes_view(hs@));
    Some((hs, cur))
}

/// Decode a vertex from its canonical byte form.
pub fn decode_vertex(b: &Vec<u8>) -> (r: Option<DAGVertex>)
    ensures
        match r {
            Some(v) => parse_vertex(b@) == Some(v@),
            None => parse_vertex(b@) is None,
        },
{
    let (hash, p1) = match read_arr32(b, 0) {
        Some(v) => v,
        None => {
            return None;
        },
    };
    let (tx_hash, p2) = match read_arr32(b, p1) {
        Some(v) => v,
        None => {
            return None;
        },
    };
    let (logical_clock, p3) = match read_u64(b, p2) {
        Some(v) => v,
        None => {
            return None;
        },
    };
    let (shard_id, p4) = match read_u32(b, p3) {
        Some(v) => v,
        None => {
            return None;
        },
    };
    let (timestamp, p5) = match read_u64(b, p4) {
        Some(v) => v,
        None => {
            return None;
        },
    };
    let (parents, p6) = match read_hashes(b, p5) {
        Some(v) => v,
        None => {
            return None;
        },
    };
    let (source, p6a) = match read_arr32(b, p6) {
        Some(v) => v,
        None => {
            return None;
        },
    };
    let (target, p6b) = match read_arr32(b, p6a) {
        Some(v) => v,
        None => {
            return None;
        },
    };
    let (amount, p6c) = match read_u64(b, p6b) {
        Some(v) => v,
        None => {
            return None;
        },
    };
    let (currency, p6d) = match read_u32(b, p6c) {
        Some(v) => v,
        None => {
            return None;
        },
    };
    let (fee, p6e) = match read_u64(b, p6d) {
        Some(v) => v,
        None => {
            return None;
        },
    };
    let (nonce, p6f) = match read_u64(b, p6e) {
        Some(v) => v,
        None => {
            return None;
        },
    };
    let (user_data, p7) = match read_bytes(b, p6f) {
        Some(v) => v,
        None => {
            return None;
        },
    };
    let (sig, p7a) = match read_arr48(b, p7) {
        Some(v) => v,
        None => {
            return None;
        },
    };
    let (pk, p7b) = match read_arr48(b, p7a) {
        Some(v) => v,
        None => {
            return None;
        },
    };
    if p7b >= b.len() {
        return None;
    }
    let tag_a = b[p7b];
    let (aggregate_info, p8): (Option<AggregateInfo>, usize) = if tag_a == 0 {
        (None, p7b + 1)
    } else if tag_a == 1 {
        let (count, pa) = match read_u32(b, p7b + 1) {
            Some(v) => v,
            None => {
                return None;
            },
        };
        let (bitmap, pb) = match read_bytes(b, pa) {
            Some(v) => v,
            None => {
                return None;
            },
        };
        (Some(AggregateInfo { signature_count: count, participant_bitmap: bitmap }), pb)
    } else {
        return None;
    };
    if p8 >= b.len() {
        return None;
    }
    let tag_p = b[p8];
    let (proof, p9): (Option<ZKProof>, usize) = if tag_p == 0 {
        (None, p8 + 1)
    } else if tag_p == 1 {
        let (pr, pa) = match read_bytes(b, p8 + 1) {
            Some(v) => v,
            None => {
                return None;
            },
        };
        let (pi, pb) = match read_bytes(b, pa) {
            Some(v) => v,
            None => {
                return None;
            },
        };
        let (vk, pc) = match read_arr32(b, pb) {
            Some(v) => v,
            None => {
                return None;
            },
        };
        (Some(ZKProof { proof: pr, public_inputs: pi, vk_hash: vk }), pc)
    } else {
        return None;
    };
    if p9 != b.len() {
        return None;
    }
    let v = DAGVertex {
        hash,
        tx_hash,
        logical_clock,
        parents,
        shard_id,
        transaction_data: TransactionData {
            source,
            target,
            amount,
            currency,
            fee,
            nonce,
            user_data,
        },
        signature: BLSSignature { signature: sig, public_key: pk, aggregate_info },
        timestamp,
        proof,
    };
    proof {
        assert(v@.parents =~= hashes_view(v.parents@));
    }
    Some(v)
}

/// Decode a standalone count-prefixed list of hashes.
pub fn decode_hashes(b: &Vec<u8>) -> (r: Option<Vec<VertexHash>>)
    ensures
        match r {
            Some(hs) => parse_hash_vec(b@) == Some(hashes_view(hs@)),
            None => parse_hash_vec(b@) is None,
        },
{
    let (hs, p) = match read_hashes(b, 0) {
        Some(v) => v,
        None => {
            return None;
        },
    };
    if p != b.len() {
        return None;
    }
    Some(hs)
}

} // verus!
