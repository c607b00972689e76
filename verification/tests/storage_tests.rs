use dag_ledger::storage::DAGVertexStore;
use dag_ledger::vertex::{BLSSignature, DAGVertex, TransactionData};
use tempfile::TempDir;

fn create_test_vertex(clock: u64) -> DAGVertex {
    DAGVertex {
        hash: [clock as u8; 32],
        tx_hash: [clock as u8; 32],
        logical_clock: clock,
        parents: Vec::new(),
        shard_id: 0,
        transaction_data: TransactionData {
            source: [1u8; 32],
            target: [2u8; 32],
            amount: 1000,
            currency: 1,
            fee: 10,
            nonce: 0,
            user_data: Vec::new(),
        },
        signature: BLSSignature::new([0; 48], [0; 48]),
        timestamp: clock * 1000,
        proof: None,
    }
}

fn open_store(dir: &TempDir) -> DAGVertexStore {
    DAGVertexStore::new(dir.path().to_str().unwrap(), 100).unwrap()
}

#[test]
fn test_store_and_retrieve_vertex() {
    let temp_dir = TempDir::new().unwrap();
    let mut store = open_store(&temp_dir);

    let vertex = create_test_vertex(1);
    let hash = vertex.hash;

    // Store vertex
    store.store_vertex(&vertex).unwrap();

    // Retrieve vertex
    let retrieved = store.get_vertex(&hash).unwrap().unwrap();
    assert_eq!(retrieved.hash, vertex.hash);
    assert_eq!(retrieved.logical_clock, vertex.logical_clock);
}

#[test]
fn test_cache_functionality() {
    let temp_dir = TempDir::new().unwrap();
    let mut store = open_store(&temp_dir);

    let vertex = create_test_vertex(1);
    let hash = vertex.hash;

    // Store vertex
    store.store_vertex(&vertex).unwrap();

    // First retrieval - cache hit expected, the store caches on write
    let _ = store.get_vertex(&hash).unwrap();

    // Second retrieval - cache hit
    let _ = store.get_vertex(&hash).unwrap();

    let stats = store.get_stats();
    assert!(stats.cache_hits > 0);
}

#[test]
fn test_batch_operations() {
    let temp_dir = TempDir::new().unwrap();
    let mut store = open_store(&temp_dir);

    let vertices: Vec<_> = (1..=10).map(create_test_vertex).collect();
    let hashes: Vec<_> = vertices.iter().map(|v| v.hash).collect();

    // Store batch
    store.store_vertices_batch(&vertices).unwrap();

    // Retrieve batch
    let retrieved = store.get_vertices_batch(&hashes).unwrap();
    assert_eq!(retrieved.len(), 10);
    assert!(retrieved.iter().all(|v| v.is_some()));
}

#[test]
fn test_storage_creation() {
    let temp_dir = TempDir::new().unwrap();
    let store = open_store(&temp_dir);

    let count = store.get_stats().total_vertices;
    assert_eq!(count, 0);
}

#[test]
fn test_vertex_insertion_and_retrieval() {
    let temp_dir = TempDir::new().unwrap();
    let mut store = open_store(&temp_dir);

    // Create test vertex
    let tx_data = TransactionData::new([1; 32], [2; 32], 100, 1, 10, 1, vec![]);
    let signature = BLSSignature::new([1; 48], [2; 48]);
    let vertex = DAGVertex::new([3; 32], 1, vec![[0; 32], [4; 32]], 0, tx_data, signature);

    // Insert vertex
    store.store_vertex(&vertex).unwrap();

    // Retrieve vertex
    let retrieved = store.get_vertex(&vertex.hash).unwrap();
    assert!(retrieved.is_some());
    assert_eq!(retrieved.unwrap(), vertex);

    // Check count
    let count = store.get_stats().total_vertices;
    assert_eq!(count, 1);
}

#[test]
fn test_batch_insertion() {
    let temp_dir = TempDir::new().unwrap();
    let mut store = open_store(&temp_dir);

    // Create multiple vertices across three shards
    let mut vertices = Vec::new();
    for i in 0..10u8 {
        let tx_data = TransactionData::new([i; 32], [i + 1; 32], 100, 1, 10, i as u64, vec![]);
        let signature = BLSSignature::new([i; 48], [i + 1; 48]);
        let vertex = DAGVertex::new(
            [i; 32],
            i as u64 + 1,
            vec![[0; 32], [i + 2; 32]],
            (i % 3) as u32,
            tx_data,
            signature,
        );
        vertices.push(vertex);
    }

    // Insert batch
    store.store_vertices_batch(&vertices).unwrap();

    // Check count
    let count = store.get_stats().total_vertices;
    assert_eq!(count, 10);

    // Check shard distribution
    let shard_0 = store.get_shard_vertices(0).unwrap();
    let shard_1 = store.get_shard_vertices(1).unwrap();
    let shard_2 = store.get_shard_vertices(2).unwrap();

    assert!(shard_0.len() >= 3);
    assert!(shard_1.len() >= 3);
    assert!(shard_2.len() >= 3);
}

#[test]
fn test_children_index() {
    let temp_dir = TempDir::new().unwrap();
    let mut store = open_store(&temp_dir);

    let tx_data = TransactionData::new([1; 32], [2; 32], 100, 1, 10, 1, vec![]);
    let signature = BLSSignature::new([1; 48], [2; 48]);

    // Create parent vertex
    let parent = DAGVertex::new([1; 32], 1, vec![], 0, tx_data.clone(), signature.clone());
    let parent_hash = parent.hash;
    store.store_vertex(&parent).unwrap();

    // Create children vertices
    let mut child_hashes = Vec::new();
    for i in 0..3u8 {
        let child = DAGVertex::new(
            [i + 10; 32],
            (i as u64) + 2,
            vec![parent_hash, [i + 5; 32]],
            0,
            tx_data.clone(),
            signature.clone(),
        );
        child_hashes.push(child.hash);
        store.store_vertex(&child).unwrap();
    }

    // Get children
    let children = store.get_children(&parent_hash).unwrap();
    assert_eq!(children.len(), 3);
    for h in child_hashes {
        assert!(children.contains(&h));
    }
}

#[test]
fn test_children_index_deduplicates() {
    let temp_dir = TempDir::new().unwrap();
    let mut store = open_store(&temp_dir);

    let tx_data = TransactionData::new([1; 32], [2; 32], 100, 1, 10, 1, vec![]);
    let signature = BLSSignature::new([1; 48], [2; 48]);
    let child = DAGVertex::new(
        [9; 32],
        2,
        vec![[1; 32], [2; 32]],
        0,
        tx_data,
        signature,
    );

    // Re-inserting the same vertex must not duplicate index entries.
    store.store_vertex(&child).unwrap();
    store.store_vertex(&child).unwrap();

    let children = store.get_children(&[1; 32]).unwrap();
    assert_eq!(children.len(), 1);
    assert_eq!(children[0], child.hash);
}

#[test]
fn test_get_parents() {
    let temp_dir = TempDir::new().unwrap();
    let mut store = open_store(&temp_dir);

    let tx_data = TransactionData::new([1; 32], [2; 32], 100, 1, 10, 1, vec![]);
    let signature = BLSSignature::new([1; 48], [2; 48]);
    let vertex = DAGVertex::new([3; 32], 1, vec![[7; 32], [8; 32]], 0, tx_data, signature);
    store.store_vertex(&vertex).unwrap();

    let parents = store.get_parents(&vertex.hash).unwrap();
    assert_eq!(parents, vec![[7; 32], [8; 32]]);

    // Absent parents record reads as the empty list
    let none = store.get_parents(&[42; 32]).unwrap();
    assert!(none.is_empty());
}

#[test]
fn test_vertex_exists() {
    let temp_dir = TempDir::new().unwrap();
    let mut store = open_store(&temp_dir);

    let vertex = create_test_vertex(5);
    assert!(!store.vertex_exists(&vertex.hash).unwrap());
    store.store_vertex(&vertex).unwrap();
    assert!(store.vertex_exists(&vertex.hash).unwrap());
}

#[test]
fn test_persistence_across_reopen() {
    let temp_dir = TempDir::new().unwrap();
    let vertex = create_test_vertex(3);
    {
        let mut store = open_store(&temp_dir);
        store.store_vertex(&vertex).unwrap();
        store.compact().unwrap();
    }
    let mut store = open_store(&temp_dir);
    let retrieved = store.get_vertex(&vertex.hash).unwrap().unwrap();
    assert_eq!(retrieved, vertex);
    assert_eq!(store.get_stats().total_vertices, 1);
}

#[test]
fn test_clear_caches_keeps_contents() {
    let temp_dir = TempDir::new().unwrap();
    let mut store = open_store(&temp_dir);
    let vertex = create_test_vertex(4);
    store.store_vertex(&vertex).unwrap();
    store.clear_caches();
    let retrieved = store.get_vertex(&vertex.hash).unwrap().unwrap();
    assert_eq!(retrieved, vertex);
}
