use dag_ledger::shard::{ShardConfig, ShardCoordinator, ShardOperation, ShardStatus};
use dag_ledger::vertex::{BLSSignature, DAGVertex, TransactionData};

#[test]
fn test_shard_coordinator_creation() {
    let config = ShardConfig::default();
    let coordinator = ShardCoordinator::new(config);

    assert_eq!(coordinator.get_active_shard_count(), config.initial_shard_count);
}

#[test]
fn test_namespace_hash_consistency() {
    let coordinator = ShardCoordinator::new(ShardConfig::default());

    let hash1 = coordinator.calculate_namespace_hash(&b"test".to_vec());
    let hash2 = coordinator.calculate_namespace_hash(&b"test".to_vec());
    let hash3 = coordinator.calculate_namespace_hash(&b"different".to_vec());

    assert_eq!(hash1, hash2);
    assert_ne!(hash1, hash3);
}

#[test]
fn test_cns_namespace_extraction() {
    let coordinator = ShardCoordinator::new(ShardConfig::default());

    // Create CNS transaction
    let cns_data = br#"{"p":"cns","op":"reg","cns":"alice"}"#;
    let tx_data = TransactionData::new([1; 32], [2; 32], 0, 1, 10, 1, cns_data.to_vec());
    let signature = BLSSignature::new([1; 48], [2; 48]);
    let vertex = DAGVertex::new([3; 32], 1, vec![[0; 32], [4; 32]], 0, tx_data, signature);

    let namespace = coordinator.extract_cns_namespace(&vertex);
    assert_eq!(namespace, b"cns".to_vec());
}

#[test]
fn test_default_namespace_extraction() {
    let coordinator = ShardCoordinator::new(ShardConfig::default());
    let tx_data = TransactionData::new([1; 32], [2; 32], 5, 1, 10, 1, vec![]);
    let signature = BLSSignature::new([1; 48], [2; 48]);
    let vertex = DAGVertex::new([3; 32], 1, vec![[0; 32], [4; 32]], 0, tx_data, signature);
    assert_eq!(coordinator.extract_cns_namespace(&vertex), b"default".to_vec());
}

#[test]
fn test_shard_assignment() {
    let mut coordinator = ShardCoordinator::new(ShardConfig::default());

    // Create test vertex
    let tx_data = TransactionData::new([1; 32], [2; 32], 100, 1, 10, 1, vec![]);
    let signature = BLSSignature::new([1; 48], [2; 48]);
    let vertex = DAGVertex::new([3; 32], 1, vec![[0; 32], [4; 32]], 0, tx_data, signature);

    let shard_id = coordinator.assign_shard(&vertex);
    assert!(shard_id < 4); // Should be one of the initial shards

    // Second assignment should be consistent
    let shard_id2 = coordinator.assign_shard(&vertex);
    assert_eq!(shard_id, shard_id2);
}

#[test]
fn test_cns_routing_stable() {
    // Two vertices with the same name-system namespace route to the
    // same active shard; a different namespace is also stable.
    let mut coordinator = ShardCoordinator::new(ShardConfig::default());
    let cns = br#"{"p":"cns","op":"reg","cns":"alice"}"#.to_vec();
    let signature = BLSSignature::new([1; 48], [2; 48]);

    let tx1 = TransactionData::new([1; 32], [2; 32], 1, 1, 1, 1, cns.clone());
    let v1 = DAGVertex::new([3; 32], 1, vec![[0; 32], [4; 32]], 0, tx1, signature.clone());
    let tx2 = TransactionData::new([5; 32], [6; 32], 2, 1, 1, 2, cns);
    let v2 = DAGVertex::new([7; 32], 2, vec![[0; 32], [8; 32]], 0, tx2, signature.clone());

    let s1 = coordinator.assign_shard(&v1);
    let s2 = coordinator.assign_shard(&v2);
    assert_eq!(s1, s2);
    let info = coordinator.get_shard_info(s1).unwrap();
    assert_eq!(info.status, ShardStatus::Active);

    let cdns = br#"{"p":"cdns","op":"reg","cns":"bob"}"#.to_vec();
    let tx3 = TransactionData::new([9; 32], [10; 32], 3, 1, 1, 3, cdns.clone());
    let v3 = DAGVertex::new([11; 32], 3, vec![[0; 32], [12; 32]], 0, tx3, signature.clone());
    let tx4 = TransactionData::new([13; 32], [14; 32], 4, 1, 1, 4, cdns);
    let v4 = DAGVertex::new([15; 32], 4, vec![[0; 32], [16; 32]], 0, tx4, signature);
    let s3 = coordinator.assign_shard(&v3);
    let s4 = coordinator.assign_shard(&v4);
    assert_eq!(s3, s4);
    assert_eq!(coordinator.get_shard_info(s3).unwrap().status, ShardStatus::Active);
}

#[test]
fn test_load_stats_update() {
    let mut coordinator = ShardCoordinator::new(ShardConfig::default());

    coordinator.update_load_stats(0, 1000);
    coordinator.update_load_stats(0, 1500);
    coordinator.update_load_stats(0, 2000);

    let stats = coordinator.get_load_stats(0).unwrap();
    assert_eq!(stats.current_tps, 2000);
    assert_eq!(stats.peak_tps, 2000);
    assert!(stats.average_tps > 0);
    assert_eq!(stats.tps_history.len(), 3);
}

#[test]
fn test_load_sample_retention() {
    let mut coordinator = ShardCoordinator::new(ShardConfig::default());
    coordinator.record_load_sample(0, 100, 1_000);
    coordinator.record_load_sample(0, 200, 2_000);
    // more than an hour later: earlier samples fall out
    coordinator.record_load_sample(0, 300, 10_000);
    let stats = coordinator.get_load_stats(0).unwrap();
    assert_eq!(stats.tps_history.len(), 1);
    assert_eq!(stats.average_tps, 300);
    assert_eq!(stats.peak_tps, 300);
}

#[test]
fn test_average_is_mean_of_retained() {
    let mut coordinator = ShardCoordinator::new(ShardConfig::default());
    coordinator.record_load_sample(2, 100, 50);
    coordinator.record_load_sample(2, 200, 60);
    coordinator.record_load_sample(2, 301, 70);
    let stats = coordinator.get_load_stats(2).unwrap();
    assert_eq!(stats.tps_history.len(), 3);
    assert_eq!(stats.average_tps, 200); // (100 + 200 + 301) / 3, rounded down
}

#[test]
fn test_shard_rebalancing_debug() {
    let mut config = ShardConfig::default();
    config.max_shard_tps = 2000; // High threshold for splitting
    config.min_shard_tps = 500; // Low threshold for merging
    let mut coordinator = ShardCoordinator::new(config);

    // Verify initial state
    assert_eq!(coordinator.get_active_shard_count(), 4);

    // Add baseline load to other shards (between min and max thresholds)
    for shard_id in 1..4 {
        for _ in 0..3 {
            coordinator.update_load_stats(shard_id, 1000);
        }
    }

    // Simulate high load on shard 0 multiple times to build history
    for _ in 0..5 {
        coordinator.update_load_stats(0, 2500);
    }

    // Verify load stats have been updated
    let stats = coordinator.get_load_stats(0).unwrap();
    assert!(stats.average_tps > 2000, "Average TPS should be > 2000, got {}", stats.average_tps);

    let operations = coordinator.check_rebalancing();
    assert!(!operations.is_empty(), "Should have rebalancing operations");

    // Verify operation type and the reserved identifiers
    match &operations[0] {
        ShardOperation::Split { shard_id, new_shard_ids } => {
            assert_eq!(*shard_id, 0);
            assert_eq!(*new_shard_ids, vec![4, 5]);
        }
        other => panic!("expected a split, got {:?}", other),
    }
    assert_eq!(operations.len(), 1, "Should only have one operation (split), got {}", operations.len());

    // Count active shards before split
    let before_count = coordinator.get_active_shard_count();
    assert_eq!(before_count, 4);

    // Execute rebalancing
    coordinator.execute_rebalancing(operations).unwrap();

    // Should have more shards now (two new actives, one inactive original)
    let final_count = coordinator.get_active_shard_count();
    assert!(final_count > 4, "Expected > 4 active shards, got {}", final_count);
    assert_eq!(coordinator.get_shard_info(0).unwrap().status, ShardStatus::Inactive);
}

#[test]
fn test_shard_split_simple() {
    let config = ShardConfig::default();
    let mut coordinator = ShardCoordinator::new(config);

    // Verify initial state: 4 active shards
    assert_eq!(coordinator.get_active_shard_count(), 4);

    // Manually create a split operation for shard 0
    let operations = vec![ShardOperation::Split { shard_id: 0, new_shard_ids: vec![4, 5] }];

    // Execute split
    coordinator.execute_rebalancing(operations).unwrap();

    // Should now have 5 active shards (0 becomes inactive)
    let final_count = coordinator.get_active_shard_count();
    assert_eq!(final_count, 5, "Expected exactly 5 active shards after split");
    assert_eq!(coordinator.get_shard_info(0).unwrap().status, ShardStatus::Inactive);
    assert_eq!(coordinator.get_shard_info(4).unwrap().status, ShardStatus::Active);
    assert_eq!(coordinator.get_shard_info(5).unwrap().status, ShardStatus::Active);
}

#[test]
fn test_split_halves_cover_parent_range() {
    let mut coordinator = ShardCoordinator::new(ShardConfig::default());
    let parent = coordinator.get_shard_info(0).unwrap();
    let ops = vec![ShardOperation::Split { shard_id: 0, new_shard_ids: vec![4, 5] }];
    coordinator.execute_rebalancing(ops).unwrap();
    let lower = coordinator.get_shard_info(4).unwrap();
    let upper = coordinator.get_shard_info(5).unwrap();
    assert_eq!(lower.hash_range.start, parent.hash_range.start);
    assert_eq!(lower.hash_range.end, upper.hash_range.start);
    assert_eq!(upper.hash_range.end, parent.hash_range.end);
    assert_eq!(lower.parent_shard, Some(0));
    assert_eq!(upper.parent_shard, Some(0));
}

#[test]
fn test_adjacent_merge() {
    let mut config = ShardConfig::default();
    config.min_shard_tps = 500;
    let mut coordinator = ShardCoordinator::new(config);
    // Make shards 0 and 1 (adjacent slices) underloaded.
    for _ in 0..3 {
        coordinator.update_load_stats(0, 100);
        coordinator.update_load_stats(1, 100);
    }
    let ops = coordinator.check_rebalancing();
    assert_eq!(ops.len(), 1);
    assert!(matches!(ops[0], ShardOperation::Merge { .. }));
    coordinator.execute_rebalancing(ops).unwrap();
    // Two actives replaced by one: 4 - 2 + 1 = 3.
    assert_eq!(coordinator.get_active_shard_count(), 3);
}
