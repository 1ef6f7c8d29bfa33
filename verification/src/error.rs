//! The ledger's error type.
use vstd::prelude::*;

use crate::clock::ClockError;
use crate::fact::{spec_id_text, BranchName, FactId, Namespace, TxId};
use crate::text::copy_string;

verus! {

/// A failure of the storage layer.
#[derive(Debug)]
pub enum StorageError {
    Sqlite(String),
    Serde(String),
    Join(String),
}

/// Everything that can go wrong in the ledger.
#[derive(Debug)]
pub enum Error {
    FactNotFound(FactId),
    TxNotFound(TxId),
    NamespaceNotFound(Namespace),
    NamespaceExists(Namespace),
    BranchNotFound(BranchName, Namespace),
    BranchExists(BranchName, Namespace),
    CannotDeleteRoot(BranchName, Namespace),
    TagNotFound(String),
    Conflict(String),
    SchemaViolation { attr: String, reason: String },
    InvalidTimeRange,
    Storage(StorageError),
    Clock(ClockError),
    Query(String),
    Other(String),
}

/// Whether an error reports that something looked up does not exist.
pub open spec fn spec_is_not_found(e: Error) -> bool {
    ||| e is FactNotFound
    ||| e is TxNotFound
    ||| e is NamespaceNotFound
    ||| e is BranchNotFound
    ||| e is TagNotFound
}

/// The message of a storage error.
pub open spec fn spec_storage_message(e: StorageError) -> Seq<char> {
    match e {
        StorageError::Sqlite(m) => "sqlite: "@ + m@,
        StorageError::Serde(m) => "serialization: "@ + m@,
        StorageError::Join(m) => "task join: "@ + m@,
    }
}

/// The message of an error.
pub open spec fn spec_message(e: Error) -> Seq<char> {
    match e {
        Error::FactNotFound(id) => "fact "@ + spec_id_text(id.0) + " not found"@,
        Error::TxNotFound(id) => "transaction "@ + spec_id_text(id.0) + " not found"@,
        Error::NamespaceNotFound(ns) => "namespace '"@ + ns@ + "' not found"@,
        Error::NamespaceExists(ns) => "namespace '"@ + ns@ + "' already exists"@,
        Error::BranchNotFound(b, ns) => "branch '"@ + b@ + "' not found in namespace '"@ + ns@
            + "'"@,
        Error::BranchExists(b, ns) => "branch '"@ + b@ + "' already exists in namespace '"@ + ns@
            + "'"@,
        Error::CannotDeleteRoot(b, ns) => "cannot delete branch '"@ + b@
            + "': it is the root branch of namespace '"@ + ns@ + "'"@,
        Error::TagNotFound(l) => "tag '"@ + l@ + "' not found"@,
        Error::Conflict(m) => "merge conflict: "@ + m@,
        Error::SchemaViolation { attr, reason } => "schema validation failed for attr '"@ + attr@
            + "': "@ + reason@,
        Error::InvalidTimeRange => "invalid valid-time range: valid_from must be before valid_to"@,
        Error::Storage(s) => "storage error: "@ + spec_storage_message(s),
        Error::Clock(c) => "clock error: "@ + crate::clock::spec_clock_message(c),
        Error::Query(m) => "query error: "@ + m@,
        Error::Other(m) => m@,
    }
}

impl StorageError {
    /// The error's message.
    pub fn to_string(&self) -> (s: String)
        ensures
            s@ == spec_storage_message(*self),
    {
        match self {
            StorageError::Sqlite(m) => {
                let mut s = String::from_str("sqlite: ");
                s.append(m.as_str());
                s
            },
            StorageError::Serde(m) => {
                let mut s = String::from_str("serialization: ");
                s.append(m.as_str());
                s
            },
            StorageError::Join(m) => {
                let mut s = String::from_str("task join: ");
                s.append(m.as_str());
                s
            },
        }
    }
}

impl Error {
    /// A free-form error.
    pub fn other(msg: &str) -> (e: Error)
        ensures
            e matches Error::Other(m) && m@ == msg@,
    {
        Error::Other(String::from_str(msg))
    }

    /// Whether this error reports a missing fact, transaction, namespace,
    /// branch or tag.
    pub fn is_not_found(&self) -> (b: bool)
        ensures
            b == spec_is_not_found(*self),
    {
        match self {
            Error::FactNotFound(_) | Error::TxNotFound(_) | Error::NamespaceNotFound(_)
            | Error::BranchNotFound(_, _) | Error::TagNotFound(_) => true,
            _ => false,
        }
    }

    /// The error's message.
    pub fn to_string(&self) -> (s: String)
        ensures
            s@ == spec_message(*self),
    {
        match self {
            Error::FactNotFound(id) => {
                let mut s = String::from_str("fact ");
                s.append(id.to_string().as_str());
                s.append(" not found");
                s
            },
            Error::TxNotFound(id) => {
                let mut s = String::from_str("transaction ");
                s.append(id.to_string().as_str());
                s.append(" not found");
                s
            },
            Error::NamespaceNotFound(ns) => {
                let mut s = String::from_str("namespace '");
                s.append(ns.as_str());
                s.append("' not found");
                s
            },
            Error::NamespaceExists(ns) => {
                let mut s = String::from_str("namespace '");
                s.append(ns.as_str());
                s.append("' already exists");
                s
            },
            Error::BranchNotFound(b, ns) => {
                let mut s = String::from_str("branch '");
                s.append(b.as_str());
                s.append("' not found in namespace '");
                s.append(ns.as_str());
                s.append("'");
                s
            },
            Error::BranchExists(b, ns) => {
                let mut s = String::from_str("branch '");
                s.append(b.as_str());
                s.append("' already exists in namespace '");
                s.append(ns.as_str());
                s.append("'");
                s
            },
            Error::CannotDeleteRoot(b, ns) => {
                let mut s = String::from_str("cannot delete branch '");
                s.append(b.as_str());
                s.append("': it is the root branch of namespace '");
                s.append(ns.as_str());
                s.append("'");
                s
            },
            Error::TagNotFound(l) => {
                let mut s = String::from_str("tag '");
                s.append(l.as_str());
                s.append("' not found");
                s
            },
            Error::Conflict(m) => {
                let mut s = String::from_str("merge conflict: ");
                s.append(m.as_str());
                s
            },
            Error::SchemaViolation { attr, reason } => {
                let mut s = String::from_str("schema validation failed for attr '");
                s.append(attr.as_str());
                s.append("': ");
                s.append(reason.as_str());
                s
            },
            Error::InvalidTimeRange => String::from_str(
                "invalid valid-time range: valid_from must be before valid_to",
            ),
            Error::Storage(e) => {
                let mut s = String::from_str("storage error: ");
                s.append(e.to_string().as_str());
                s
            },
            Error::Clock(e) => {
                let mut s = String::from_str("clock error: ");
                s.append(e.to_string().as_str());
                s
            },
            Error::Query(m) => {
                let mut s = String::from_str("query error: ");
                s.append(m.as_str());
                s
            },
            Error::Other(m) => copy_string(m),
        }
    }
}


/// The error of a failed SQLite operation, with the driver's message.
pub fn storage_err(msg: String) -> (e: Error)
    ensures
        e matches Error::Storage(StorageError::Sqlite(m)) && m@ == msg@,
{
    Error::Storage(StorageError::Sqlite(msg))
}

} // verus!
