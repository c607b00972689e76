//! Core of a DAG-structured ledger engine: content-addressed transaction
//! vertices, a persistent vertex store with secondary indices and caches,
//! a namespace-sharding coordinator, and a stake-weighted virtual-voting
//! consensus engine with explicit finality proofs.

use vstd::prelude::*;

pub mod cache;
pub mod codec;
pub mod consensus;
pub mod crypto;
pub mod engine;
pub mod error;
pub mod hexparse;
pub mod shard;
pub mod storage;
pub mod vertex;

verus! {

/// A 32-byte content hash identifying a vertex.
pub type VertexHash = [u8; 32];

/// A 32-byte hash of an embedded transaction payload.
pub type TransactionHash = [u8; 32];

/// A 32-byte validator identifier.
pub type ValidatorId = [u8; 32];

/// A 32-bit shard identifier.
pub type ShardId = u32;

} // verus!
