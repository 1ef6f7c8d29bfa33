//! Transactions: the unit of writing, carrying an optional causal reference.
use vstd::prelude::*;

use crate::clock::Hlc;
use crate::fact::{copy_opt_string, opt_str_view, BranchName, Namespace, TxId};

verus! {

/// One transaction.
#[derive(Debug)]
pub struct Transaction {
    pub id: TxId,
    pub namespace: Namespace,
    pub branch: BranchName,
    pub ts: Hlc,
    pub author: Option<String>,
    pub message: Option<String>,
    pub fact_count: usize,
    /// The transaction that caused this one, if any.
    pub caused_by: Option<TxId>,
}

/// The content of a transaction.
pub struct TxView {
    pub id: u128,
    pub namespace: Seq<char>,
    pub branch: Seq<char>,
    pub ts: u64,
    pub author: Option<Seq<char>>,
    pub message: Option<Seq<char>>,
    pub fact_count: nat,
    pub caused_by: Option<TxId>,
}

impl View for Transaction {
    type V = TxView;

    open spec fn view(&self) -> TxView {
        TxView {
            id: self.id.0,
            namespace: self.namespace@,
            branch: self.branch@,
            ts: self.ts.0,
            author: opt_str_view(self.author),
            message: opt_str_view(self.message),
            fact_count: self.fact_count as nat,
            caused_by: self.caused_by,
        }
    }
}

impl Clone for Transaction {
    fn clone(&self) -> (r: Self)
        ensures
            r@ == self@,
    {
        Transaction {
            id: self.id,
            namespace: self.namespace.clone(),
            branch: self.branch.clone(),
            ts: self.ts,
            author: copy_opt_string(&self.author),
            message: copy_opt_string(&self.message),
            fact_count: self.fact_count,
            caused_by: self.caused_by,
        }
    }
}

} // verus!
