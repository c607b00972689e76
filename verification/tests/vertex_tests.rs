use dag_ledger::codec::{decode_vertex, encode_vertex};
use dag_ledger::hexparse::{parse_address, parse_vertex_hash};
use dag_ledger::vertex::{BLSSignature, DAGVertex, TransactionData};

#[test]
fn test_genesis_vertex() {
    let genesis = DAGVertex::genesis();
    assert!(genesis.is_genesis());
    assert_eq!(genesis.logical_clock, 0);
    assert_eq!(genesis.parents.len(), 0);
    assert!(genesis.validate_dag_properties().is_ok());
}

#[test]
fn test_vertex_hash_consistency() {
    let tx_data = TransactionData::new([1; 32], [2; 32], 100, 1, 10, 1, vec![1, 2, 3]);
    let signature = BLSSignature::new([1; 48], [2; 48]);

    let vertex1 = DAGVertex::new_with_timestamp(
        [3; 32],
        1,
        vec![[0; 32]],
        0,
        tx_data.clone(),
        signature.clone(),
        7,
    );
    let vertex2 = DAGVertex::new_with_timestamp([3; 32], 1, vec![[0; 32]], 0, tx_data, signature, 7);

    assert_eq!(vertex1.hash, vertex2.hash);
}

#[test]
fn test_hash_recomputation_matches() {
    let tx_data = TransactionData::new([7; 32], [8; 32], 5, 1, 2, 9, vec![4, 5, 6]);
    let signature = BLSSignature::new([3; 48], [4; 48]);
    let vertex = DAGVertex::new([9; 32], 3, vec![[0; 32], [1; 32]], 2, tx_data, signature);
    assert_eq!(vertex.calculate_hash(), vertex.hash);
}

#[test]
fn test_dag_properties_validation() {
    let tx_data = TransactionData::new([1; 32], [2; 32], 100, 1, 10, 1, vec![]);
    let signature = BLSSignature::new([1; 48], [2; 48]);

    // Valid vertex with 2 parents
    let vertex = DAGVertex::new(
        [3; 32],
        1,
        vec![[0; 32], [1; 32]],
        0,
        tx_data.clone(),
        signature.clone(),
    );
    assert!(vertex.validate_dag_properties().is_ok());

    // Invalid vertex with only 1 parent
    let invalid_vertex = DAGVertex::new([3; 32], 1, vec![[0; 32]], 0, tx_data, signature);
    assert!(invalid_vertex.validate_dag_properties().is_err());
}

#[test]
fn test_duplicate_parents_rejected() {
    let tx_data = TransactionData::new([1; 32], [2; 32], 100, 1, 10, 1, vec![]);
    let signature = BLSSignature::new([1; 48], [2; 48]);
    let vertex = DAGVertex::new([3; 32], 1, vec![[5; 32], [5; 32]], 0, tx_data, signature);
    assert!(vertex.validate_dag_properties().is_err());
}

#[test]
fn test_zero_clock_non_genesis_rejected() {
    let tx_data = TransactionData::new([1; 32], [2; 32], 100, 1, 10, 1, vec![]);
    let signature = BLSSignature::new([1; 48], [2; 48]);
    let vertex = DAGVertex::new([3; 32], 0, vec![[0; 32], [1; 32]], 0, tx_data, signature);
    assert!(vertex.validate_dag_properties().is_err());
}

#[test]
fn test_cns_transaction_detection() {
    let cns_data = br#"{"p":"cns","op":"reg","cns":"alice","relay":"https://alice.credits"}"#;
    let tx_data = TransactionData::new([1; 32], [2; 32], 0, 1, 10, 1, cns_data.to_vec());

    assert!(tx_data.is_cns_transaction());
    assert!(!tx_data.is_ordinal_transaction());
}

#[test]
fn test_ordinal_transaction_detection() {
    let ordinal_data = br#"{"p":"crc-20","op":"mint","tick":"CREDS","amt":"1000"}"#;
    let tx_data = TransactionData::new([1; 32], [2; 32], 0, 1, 10, 1, ordinal_data.to_vec());

    assert!(!tx_data.is_cns_transaction());
    assert!(tx_data.is_ordinal_transaction());
}

#[test]
fn test_non_utf8_payload_is_not_cns() {
    let tx_data = TransactionData::new([1; 32], [2; 32], 0, 1, 10, 1, vec![0xff, 0xfe, 0x22]);
    assert!(!tx_data.is_cns_transaction());
    assert!(!tx_data.is_ordinal_transaction());
}

#[test]
fn test_total_value_saturates() {
    let tx_data = TransactionData::new([1; 32], [2; 32], 40, 1, 2, 1, vec![]);
    assert_eq!(tx_data.total_value(), 42);
    let maxed = TransactionData::new([1; 32], [2; 32], u64::MAX, 1, 10, 1, vec![]);
    assert_eq!(maxed.total_value(), u64::MAX);
}

#[test]
fn test_signature_verification_placeholder() {
    let zero = BLSSignature::new([0; 48], [1; 48]);
    let tx_data = TransactionData::new([1; 32], [2; 32], 1, 1, 1, 1, vec![]);
    let v = DAGVertex::new([0; 32], 1, vec![[0; 32], [1; 32]], 0, tx_data.clone(), zero);
    assert!(!v.verify_signature());

    let nonzero = BLSSignature::new([9; 48], [1; 48]);
    let v2 = DAGVertex::new([0; 32], 1, vec![[0; 32], [1; 32]], 0, tx_data, nonzero);
    assert!(v2.verify_signature());
}

#[test]
fn test_aggregate_signature() {
    let sigs = vec![
        BLSSignature::new([1; 48], [10; 48]),
        BLSSignature::new([2; 48], [20; 48]),
        BLSSignature::new([3; 48], [30; 48]),
    ];
    let agg = BLSSignature::aggregate(sigs);
    assert!(agg.is_aggregate());
    let info = agg.aggregate_info.unwrap();
    assert_eq!(info.signature_count, 3);
    assert_eq!(info.participant_bitmap, vec![0xff]);
    assert_eq!(agg.signature[0], 1);
    assert_eq!(agg.signature[1], 2);
    assert_eq!(agg.signature[2], 3);
    assert_eq!(agg.signature[3], 0);
}

#[test]
fn test_vertex_codec_round_trip() {
    let cns_data = br#"{"p":"cns","op":"reg","cns":"bob"}"#;
    let tx_data = TransactionData::new([11; 32], [12; 32], 77, 1, 3, 5, cns_data.to_vec());
    let signature = BLSSignature::aggregate(vec![
        BLSSignature::new([1; 48], [2; 48]),
        BLSSignature::new([3; 48], [4; 48]),
    ]);
    let vertex = DAGVertex::new([13; 32], 4, vec![[0; 32], [9; 32]], 1, tx_data, signature);

    let bytes = encode_vertex(&vertex);
    let decoded = decode_vertex(&bytes).expect("canonical bytes must decode");
    assert_eq!(decoded, vertex);

    // serialize -> deserialize -> serialize is byte-identical
    let bytes2 = encode_vertex(&decoded);
    assert_eq!(bytes2, bytes);
}

#[test]
fn test_decode_rejects_truncated_input() {
    let tx_data = TransactionData::new([1; 32], [2; 32], 1, 1, 1, 1, vec![]);
    let signature = BLSSignature::new([1; 48], [2; 48]);
    let vertex = DAGVertex::new([3; 32], 1, vec![[0; 32], [1; 32]], 0, tx_data, signature);
    let mut bytes = encode_vertex(&vertex);
    bytes.pop();
    assert!(decode_vertex(&bytes).is_none());
}

#[test]
fn test_parse_vertex_hash_round() {
    let s = "00112233445566778899aabbccddeeff00112233445566778899aabbccddeeff";
    let h = parse_vertex_hash(s).unwrap();
    assert_eq!(h[0], 0x00);
    assert_eq!(h[1], 0x11);
    assert_eq!(h[31], 0xff);

    assert!(parse_vertex_hash("abc").is_err());
    assert!(parse_vertex_hash(
        "zz112233445566778899aabbccddeeff00112233445566778899aabbccddeeff"
    )
    .is_err());
}

#[test]
fn test_parse_address_mixed_case() {
    let s = "FF00000000000000000000000000000000000000000000000000000000000001";
    let a = parse_address(s).unwrap();
    assert_eq!(a[0], 0xff);
    assert_eq!(a[31], 0x01);
}
