//! Error taxonomy for the DAG engine.
//!
//! Every fallible operation returns a tagged error carrying a
//! human-readable message; callers may map tags to exit codes or
//! HTTP statuses without inspecting the message.

use vstd::prelude::*;

verus! {

/// Main error type for DAG operations.
#[derive(Debug, Clone, PartialEq)]
pub enum DAGError {
    /// A backend storage failure.
    StorageError(String),
    /// An encoding or decoding failure.
    SerializationError(String),
    /// A DAG invariant was violated by a submitted vertex.
    InvalidVertex(String),
    /// A round-level inconsistency in the consensus engine.
    ConsensusError(String),
    /// A missing shard or an illegal shard transition.
    ShardError(String),
    /// A transport-level failure.
    NetworkError(String),
    /// A bad engine configuration.
    ConfigError(String),
    /// Caller-supplied input failed validation.
    ValidationError(String),
    /// A deadline passed before the operation completed.
    TimeoutError(String),
    /// A cryptographic primitive failed.
    CryptoError(String),
    /// A failure at the foreign-function boundary.
    FFIError(String),
    /// A raw input/output failure.
    IOError(String),
}

/// Result type for DAG operations.
pub type DAGResult<T> = Result<T, DAGError>;

/// Numeric error tags for boundary interfaces.
#[derive(Debug, Clone, Copy, PartialEq, Eq, Structural)]
pub enum DAGErrorCode {
    Success,
    StorageError,
    SerializationError,
    InvalidVertex,
    ConsensusError,
    ShardError,
    NetworkError,
    ConfigError,
    ValidationError,
    TimeoutError,
    CryptoError,
    FFIError,
    IOError,
    UnknownError,
}

/// The tag that corresponds to each error variant.
pub open spec fn spec_error_code(e: DAGError) -> DAGErrorCode {
    match e {
        DAGError::StorageError(_) => DAGErrorCode::StorageError,
        DAGError::SerializationError(_) => DAGErrorCode::SerializationError,
        DAGError::InvalidVertex(_) => DAGErrorCode::InvalidVertex,
        DAGError::ConsensusError(_) => DAGErrorCode::ConsensusError,
        DAGError::ShardError(_) => DAGErrorCode::ShardError,
        DAGError::NetworkError(_) => DAGErrorCode::NetworkError,
        DAGError::ConfigError(_) => DAGErrorCode::ConfigError,
        DAGError::ValidationError(_) => DAGErrorCode::ValidationError,
        DAGError::TimeoutError(_) => DAGErrorCode::TimeoutError,
        DAGError::CryptoError(_) => DAGErrorCode::CryptoError,
        DAGError::FFIError(_) => DAGErrorCode::FFIError,
        DAGError::IOError(_) => DAGErrorCode::IOError,
    }
}

impl From<DAGError> for DAGErrorCode {
    fn from(e: DAGError) -> (r: DAGErrorCode)
        ensures
            r == spec_error_code(e),
    {
        match e {
            DAGError::StorageError(_) => DAGErrorCode::StorageError,
            DAGError::SerializationError(_) => DAGErrorCode::SerializationError,
            DAGError::InvalidVertex(_) => DAGErrorCode::InvalidVertex,
            DAGError::ConsensusError(_) => DAGErrorCode::ConsensusError,
            DAGError::ShardError(_) => DAGErrorCode::ShardError,
            DAGError::NetworkError(_) => DAGErrorCode::NetworkError,
            DAGError::ConfigError(_) => DAGErrorCode::ConfigError,
            DAGError::ValidationError(_) => DAGErrorCode::ValidationError,
            DAGError::TimeoutError(_) => DAGErrorCode::TimeoutError,
            DAGError::CryptoError(_) => DAGErrorCode::CryptoError,
            DAGError::FFIError(_) => DAGErrorCode::FFIError,
            DAGError::IOError(_) => DAGErrorCode::IOError,
        }
    }
}

impl vstd::std_specs::convert::FromSpecImpl<DAGError> for DAGErrorCode {
    open spec fn obeys_from_spec() -> bool {
        true
    }

    open spec fn from_spec(e: DAGError) -> DAGErrorCode {
        spec_error_code(e)
    }
}

impl DAGError {
    /// The message carried by this error.
    pub fn message(&self) -> (r: &String)
        ensures
            r == self.spec_message(),
    {
        match self {
            DAGError::StorageError(m) => m,
            DAGError::SerializationError(m) => m,
            DAGError::InvalidVertex(m) => m,
            DAGError::ConsensusError(m) => m,
            DAGError::ShardError(m) => m,
            DAGError::NetworkError(m) => m,
            DAGError::ConfigError(m) => m,
            DAGError::ValidationError(m) => m,
            DAGError::TimeoutError(m) => m,
            DAGError::CryptoError(m) => m,
            DAGError::FFIError(m) => m,
            DAGError::IOError(m) => m,
        }
    }

    /// The message carried by this error, at the specification level.
    pub open spec fn spec_message(&self) -> String {
        match self {
            DAGError::StorageError(m) => *m,
            DAGError::SerializationError(m) => *m,
            DAGError::InvalidVertex(m) => *m,
            DAGError::ConsensusError(m) => *m,
            DAGError::ShardError(m) => *m,
            DAGError::NetworkError(m) => *m,
            DAGError::ConfigError(m) => *m,
            DAGError::ValidationError(m) => *m,
            DAGError::TimeoutError(m) => *m,
            DAGError::CryptoError(m) => *m,
            DAGError::FFIError(m) => *m,
            DAGError::IOError(m) => *m,
        }
    }
}

} // verus!
