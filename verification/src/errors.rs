//! Errors of the storage layer and the chunk codec.
use vstd::prelude::*;
use crate::text::{decimal, push_decimal};

verus! {

#[derive(Debug)]
pub enum StorageError {
    InitFailed(String),
    NotFound,
    QuotaExceeded,
    TransactionFailed(String),
    DecodeFailed(String),
    VersionMismatch { expected: u16, found: u16 },
    PermissionDenied,
    Other(String),
}

/// The human-readable description of an error.
pub open spec fn describe_spec(e: StorageError) -> Seq<char> {
    match e {
        StorageError::InitFailed(m) => "storage init failed: "@ + m@,
        StorageError::NotFound => "not found"@,
        StorageError::QuotaExceeded => "storage quota exceeded"@,
        StorageError::TransactionFailed(m) => "storage transaction failed: "@ + m@,
        StorageError::DecodeFailed(m) => "decode failed: "@ + m@,
        StorageError::VersionMismatch { expected, found } => "version mismatch (expected "@
            + decimal(expected as nat) + ", found "@ + decimal(found as nat) + ")"@,
        StorageError::PermissionDenied => "storage permission denied"@,
        StorageError::Other(m) => "storage error: "@ + m@,
    }
}

fn prefixed(prefix: &str, message: &String) -> (s: String)
    ensures
        s@ == prefix@ + message@,
{
    let mut s = String::from_str(prefix);
    s.append(message.as_str());
    s
}

impl StorageError {
    /// Describes the error for people, as its display text.
    pub fn describe(&self) -> (s: String)
        ensures
            s@ == describe_spec(*self),
    {
        match self {
            StorageError::InitFailed(m) => prefixed("storage init failed: ", m),
            StorageError::NotFound => String::from_str("not found"),
            StorageError::QuotaExceeded => String::from_str("storage quota exceeded"),
            StorageError::TransactionFailed(m) => prefixed("storage transaction failed: ", m),
            StorageError::DecodeFailed(m) => prefixed("decode failed: ", m),
            StorageError::VersionMismatch { expected, found } => {
                let mut s = String::from_str("version mismatch (expected ");
                push_decimal(&mut s, *expected as u64);
                s.append(", found ");
                push_decimal(&mut s, *found as u64);
                s.append(")");
                s
            },
            StorageError::PermissionDenied => String::from_str("storage permission denied"),
            StorageError::Other(m) => prefixed("storage error: ", m),
        }
    }
}

} // verus!
