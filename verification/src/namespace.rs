//! Namespaces: logical containers with a merge policy and an optional
//! schema.
use vstd::prelude::*;

use crate::fact::{Namespace, Timestamp};
use crate::schema::{Schema, SchemaView};
use crate::text::str_eq;

verus! {

/// How a merge settles an (entity, attribute) pair present on both branches.
#[derive(Debug, Clone, Copy, PartialEq, Eq, Structural)]
pub enum MergePolicy {
    LastWriteWins,
    FirstWriteWins,
    ErrorOnConflict,
}

/// The name a policy is written as.
pub open spec fn spec_policy_name(p: MergePolicy) -> Seq<char> {
    match p {
        MergePolicy::LastWriteWins => "last_write_wins"@,
        MergePolicy::FirstWriteWins => "first_write_wins"@,
        MergePolicy::ErrorOnConflict => "error_on_conflict"@,
    }
}

/// What parsing a policy name gives: both the `snake_case` and the
/// `kebab-case` spellings are accepted.
pub open spec fn spec_parse_policy(s: Seq<char>) -> Option<MergePolicy> {
    if s == "last_write_wins"@ || s == "last-write-wins"@ {
        Some(MergePolicy::LastWriteWins)
    } else if s == "first_write_wins"@ || s == "first-write-wins"@ {
        Some(MergePolicy::FirstWriteWins)
    } else if s == "error_on_conflict"@ || s == "error-on-conflict"@ {
        Some(MergePolicy::ErrorOnConflict)
    } else {
        None
    }
}

impl MergePolicy {
    /// The default policy, last-write-wins.
    pub fn default() -> (p: MergePolicy)
        ensures
            p == MergePolicy::LastWriteWins,
    {
        MergePolicy::LastWriteWins
    }

    /// The policy's name.
    pub fn to_string(&self) -> (s: &'static str)
        ensures
            s@ == spec_policy_name(*self),
    {
        match self {
            MergePolicy::LastWriteWins => "last_write_wins",
            MergePolicy::FirstWriteWins => "first_write_wins",
            MergePolicy::ErrorOnConflict => "error_on_conflict",
        }
    }

    /// Parses a policy name; an unknown name gives the message
    /// `unknown merge policy '<s>'`.
    pub fn parse(s: &str) -> (r: Result<MergePolicy, String>)
        ensures
            spec_parse_policy(s@) matches Some(p) ==> r == Ok::<MergePolicy, String>(p),
            spec_parse_policy(s@) is None ==> (r matches Err(m) && m@ == "unknown merge policy '"@
                + s@ + "'"@),
    {
        if str_eq(s, "last_write_wins") || str_eq(s, "last-write-wins") {
            Ok(MergePolicy::LastWriteWins)
        } else if str_eq(s, "first_write_wins") || str_eq(s, "first-write-wins") {
            Ok(MergePolicy::FirstWriteWins)
        } else if str_eq(s, "error_on_conflict") || str_eq(s, "error-on-conflict") {
            Ok(MergePolicy::ErrorOnConflict)
        } else {
            let mut m = String::from_str("unknown merge policy '");
            m.append(s);
            m.append("'");
            Err(m)
        }
    }
}

/// A namespace's settings.
#[derive(Debug)]
pub struct NamespaceInfo {
    pub name: Namespace,
    pub merge_policy: MergePolicy,
    pub schema: Option<Schema>,
    pub created_at: Timestamp,
}

/// The options a namespace is created with.
#[derive(Debug)]
pub struct NamespaceOpts {
    pub merge_policy: MergePolicy,
    pub schema: Option<Schema>,
}

impl NamespaceOpts {
    /// Last-write-wins, without schema.
    pub fn default() -> (o: NamespaceOpts)
        ensures
            o.merge_policy == MergePolicy::LastWriteWins,
            o.schema is None,
    {
        NamespaceOpts { merge_policy: MergePolicy::LastWriteWins, schema: None }
    }
}

/// The content of a namespace's settings.
pub struct NsView {
    pub name: Seq<char>,
    pub merge_policy: MergePolicy,
    pub schema: Option<SchemaView>,
    pub created_at: Timestamp,
}

/// The view of an optional schema.
pub open spec fn opt_schema_view(s: Option<Schema>) -> Option<SchemaView> {
    match s {
        Some(x) => Some(x@),
        None => None,
    }
}

impl View for NamespaceInfo {
    type V = NsView;

    open spec fn view(&self) -> NsView {
        NsView {
            name: self.name@,
            merge_policy: self.merge_policy,
            schema: opt_schema_view(self.schema),
            created_at: self.created_at,
        }
    }
}

impl Clone for NamespaceInfo {
    fn clone(&self) -> (r: Self)
        ensures
            r@ == self@,
    {
        NamespaceInfo {
            name: self.name.clone(),
            merge_policy: self.merge_policy,
            schema: match &self.schema {
                Some(s) => Some(s.clone()),
                None => None,
            },
            created_at: self.created_at,
        }
    }
}

} // verus!
