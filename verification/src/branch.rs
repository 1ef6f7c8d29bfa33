//! Branches: isolated lines of writes forked from a parent branch.
use vstd::prelude::*;

use crate::clock::Hlc;
use crate::fact::{BranchName, Namespace, Timestamp, TxId};

verus! {

/// A branch of a namespace.
#[derive(Debug)]
pub struct BranchInfo {
    pub namespace: Namespace,
    pub name: BranchName,
    pub parent: Option<BranchName>,
    /// The HLC at which this branch forked from its parent.
    pub fork_at: Option<Hlc>,
    pub created_at: Timestamp,
    pub head_tx: Option<TxId>,
    pub closed: bool,
}

/// The view of an optional branch name.
pub open spec fn opt_branch_view(b: Option<BranchName>) -> Option<Seq<char>> {
    match b {
        Some(x) => Some(x@),
        None => None,
    }
}

impl BranchInfo {
    /// Whether this is the root branch of its namespace (it has no parent).
    pub fn is_root(&self) -> (b: bool)
        ensures
            b == self.parent is None,
    {
        self.parent.is_none()
    }
}

/// The content of a branch record.
pub struct BranchView {
    pub namespace: Seq<char>,
    pub name: Seq<char>,
    pub parent: Option<Seq<char>>,
    pub fork_at: Option<Hlc>,
    pub created_at: Timestamp,
    pub head_tx: Option<TxId>,
    pub closed: bool,
}

impl View for BranchInfo {
    type V = BranchView;

    open spec fn view(&self) -> BranchView {
        BranchView {
            namespace: self.namespace@,
            name: self.name@,
            parent: opt_branch_view(self.parent),
            fork_at: self.fork_at,
            created_at: self.created_at,
            head_tx: self.head_tx,
            closed: self.closed,
        }
    }
}

impl Clone for BranchInfo {
    fn clone(&self) -> (r: Self)
        ensures
            r@ == self@,
    {
        BranchInfo {
            namespace: self.namespace.clone(),
            name: self.name.clone(),
            parent: match &self.parent {
                Some(p) => Some(p.clone()),
                None => None,
            },
            fork_at: self.fork_at,
            created_at: self.created_at,
            head_tx: self.head_tx,
            closed: self.closed,
        }
    }
}

} // verus!
