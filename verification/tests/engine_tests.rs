use dag_ledger::consensus::{ConsensusConfig, ValidatorInfo};
use dag_ledger::engine::{DAGEngine, DAGEngineConfig};
use dag_ledger::error::DAGError;
use dag_ledger::shard::ShardConfig;
use dag_ledger::vertex::{BLSSignature, DAGVertex, TransactionData};
use tempfile::TempDir;

fn engine_in(dir: &TempDir) -> DAGEngine {
    let config = DAGEngineConfig {
        storage_path: dir.path().to_str().unwrap().to_string(),
        consensus_config: ConsensusConfig::default(),
        shard_config: ShardConfig::default(),
    };
    DAGEngine::new(config).unwrap()
}

#[test]
fn test_dag_engine_creation() {
    let temp_dir = TempDir::new().unwrap();
    let engine = engine_in(&temp_dir);
    let stats = engine.get_statistics();
    assert_eq!(stats.total_vertices, 0);
    assert_eq!(stats.active_shards, 4);
    assert_eq!(stats.consensus_rounds, 1);
}

#[test]
fn test_vertex_insertion() {
    let temp_dir = TempDir::new().unwrap();
    let mut engine = engine_in(&temp_dir);

    // Create genesis vertex
    let genesis = DAGVertex::genesis();
    engine.insert_vertex(genesis.clone()).unwrap();

    // Verify insertion
    let retrieved = engine.get_vertex(&genesis.hash).unwrap();
    assert!(retrieved.is_some());
    assert_eq!(retrieved.unwrap().hash, genesis.hash);

    // Genesis alone: one vertex, valid DAG properties
    let stats = engine.get_statistics();
    assert_eq!(stats.total_vertices, 1);
    assert!(genesis.validate_dag_properties().is_ok());
}

#[test]
fn test_two_parent_insert_updates_children() {
    let temp_dir = TempDir::new().unwrap();
    let mut engine = engine_in(&temp_dir);

    let parent_a = [0x00u8; 32];
    let parent_b = [0x01u8; 32];
    let tx_data = TransactionData::new([1; 32], [2; 32], 10, 1, 1, 1, vec![]);
    let signature = BLSSignature::new([1; 48], [2; 48]);
    let vertex = DAGVertex::new([3; 32], 1, vec![parent_a, parent_b], 0, tx_data, signature);
    let hash = vertex.hash;

    engine.insert_vertex(vertex).unwrap();

    let retrieved = engine.get_vertex(&hash).unwrap().unwrap();
    assert_eq!(retrieved.logical_clock, 1);
}

#[test]
fn test_insufficient_parents_rejected() {
    let temp_dir = TempDir::new().unwrap();
    let mut engine = engine_in(&temp_dir);

    let tx_data = TransactionData::new([1; 32], [2; 32], 10, 1, 1, 1, vec![]);
    let signature = BLSSignature::new([1; 48], [2; 48]);
    let vertex = DAGVertex::new([3; 32], 1, vec![[0; 32]], 0, tx_data, signature);

    let result = engine.insert_vertex(vertex);
    assert!(matches!(result, Err(DAGError::InvalidVertex(_))));
    assert_eq!(engine.get_statistics().total_vertices, 0);
}

#[test]
fn test_duplicate_parents_rejected_by_engine() {
    let temp_dir = TempDir::new().unwrap();
    let mut engine = engine_in(&temp_dir);

    let tx_data = TransactionData::new([1; 32], [2; 32], 10, 1, 1, 1, vec![]);
    let signature = BLSSignature::new([1; 48], [2; 48]);
    let vertex = DAGVertex::new([3; 32], 1, vec![[5; 32], [5; 32]], 0, tx_data, signature);

    let result = engine.insert_vertex(vertex);
    assert!(matches!(result, Err(DAGError::InvalidVertex(_))));
}

#[test]
fn test_engine_consensus_round() {
    let temp_dir = TempDir::new().unwrap();
    let mut engine = engine_in(&temp_dir);

    for i in 0..5u8 {
        engine.add_validator([i; 32], ValidatorInfo::new([i; 48], 100_000));
    }
    let proofs = engine.process_consensus_round(vec![[1; 32], [2; 32]]).unwrap();
    assert_eq!(proofs.len(), 2);
    assert_eq!(engine.get_statistics().consensus_rounds, 2);
}

#[test]
fn test_missing_vertex_reads_none() {
    let temp_dir = TempDir::new().unwrap();
    let mut engine = engine_in(&temp_dir);
    let missing = engine.get_vertex(&[77; 32]).unwrap();
    assert!(missing.is_none());
}
