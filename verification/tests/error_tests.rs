use dag_ledger::error::{DAGError, DAGErrorCode};

#[test]
fn test_error_code_conversion() {
    let storage_error = DAGError::StorageError("test".to_string());
    let error_code: DAGErrorCode = storage_error.into();
    assert_eq!(error_code, DAGErrorCode::StorageError);
}

#[test]
fn test_every_variant_maps_to_its_code() {
    let cases = vec![
        (DAGError::StorageError(String::new()), DAGErrorCode::StorageError),
        (DAGError::SerializationError(String::new()), DAGErrorCode::SerializationError),
        (DAGError::InvalidVertex(String::new()), DAGErrorCode::InvalidVertex),
        (DAGError::ConsensusError(String::new()), DAGErrorCode::ConsensusError),
        (DAGError::ShardError(String::new()), DAGErrorCode::ShardError),
        (DAGError::NetworkError(String::new()), DAGErrorCode::NetworkError),
        (DAGError::ConfigError(String::new()), DAGErrorCode::ConfigError),
        (DAGError::ValidationError(String::new()), DAGErrorCode::ValidationError),
        (DAGError::TimeoutError(String::new()), DAGErrorCode::TimeoutError),
        (DAGError::CryptoError(String::new()), DAGErrorCode::CryptoError),
        (DAGError::FFIError(String::new()), DAGErrorCode::FFIError),
        (DAGError::IOError(String::new()), DAGErrorCode::IOError),
    ];
    for (err, code) in cases {
        let got: DAGErrorCode = err.into();
        assert_eq!(got, code);
    }
}

#[test]
fn test_error_message_carried() {
    let e = DAGError::ShardError("shard 7 missing".to_string());
    assert_eq!(e.message(), "shard 7 missing");
}
