//! The failure taxonomy of the storage layer.
//!
//! Three kinds of failure exist: a name that breaks the charset rule, a
//! filesystem failure other than "not found" on a read path, and stored
//! bytes that are not valid UTF-8 when a string was asked for. "Not found"
//! is never an error here: a missing entry is an absent result on reads
//! and an already-satisfied success on deletes.

use vstd::prelude::*;
use vstd::string::StringExecFns;

verus! {

/// A structured storage failure: a human-readable message and an optional
/// machine-readable code (a symbolic tag, or an OS error number).
#[derive(Debug, PartialEq, Eq)]
pub struct StorageError {
    pub message: String,
    pub code: Option<String>,
}

/// The message reported when a datastore name breaks the charset rule.
pub open spec fn invalid_datastore_message(name: Seq<char>) -> Seq<char> {
    "datastore ("@ + name + ") contains invalid characters"@
}

/// The message reported when a key name breaks the charset rule.
pub open spec fn invalid_key_message(key: Seq<char>) -> Seq<char> {
    "key ("@ + key + ") contains invalid characters"@
}

/// True of the error produced when `name` was rejected as a datastore name.
pub open spec fn is_invalid_datastore_error(e: StorageError, name: Seq<char>) -> bool {
    &&& e.message@ == invalid_datastore_message(name)
    &&& e.code matches Some(c) && c@ == "INVALID_NAME"@
}

/// True of the error produced when `key` was rejected as a key name.
pub open spec fn is_invalid_key_error(e: StorageError, key: Seq<char>) -> bool {
    &&& e.message@ == invalid_key_message(key)
    &&& e.code matches Some(c) && c@ == "INVALID_KEY"@
}

/// True of the error produced when stored bytes are not valid UTF-8 text.
pub open spec fn is_decode_error(e: StorageError) -> bool {
    &&& e.message@ == "value is not valid utf-8"@
    &&& e.code matches Some(c) && c@ == "DECODE"@
}

impl StorageError {
    /// The error for a datastore name that breaks the charset rule; it
    /// carries the offending input in its message.
    pub fn invalid_datastore(name: &str) -> (e: StorageError)
        ensures
            is_invalid_datastore_error(e, name@),
    {
        let mut message = String::from_str("datastore (");
        message.append(name);
        message.append(") contains invalid characters");
        StorageError { message, code: Some(String::from_str("INVALID_NAME")) }
    }

    /// The error for a key name that breaks the charset rule; it carries
    /// the offending input in its message.
    pub fn invalid_key(key: &str) -> (e: StorageError)
        ensures
            is_invalid_key_error(e, key@),
    {
        let mut message = String::from_str("key (");
        message.append(key);
        message.append(") contains invalid characters");
        StorageError { message, code: Some(String::from_str("INVALID_KEY")) }
    }

    /// The error for stored bytes that are not valid UTF-8 text.
    pub fn decode() -> (e: StorageError)
        ensures
            is_decode_error(e),
    {
        StorageError {
            message: String::from_str("value is not valid utf-8"),
            code: Some(String::from_str("DECODE")),
        }
    }

    /// An error for a filesystem failure, from its message and optional OS
    /// error number. The host shell extracts both from the underlying
    /// failure and hands them over as plain values.
    pub fn io(message: String, os_code: Option<String>) -> (e: StorageError)
        ensures
            e.message == message,
            e.code == os_code,
    {
        StorageError { message, code: os_code }
    }
}

} // verus!
