//! Recording several facts in one transaction.
use vstd::prelude::*;

use crate::clock::Hlc;
use crate::db::RecordParams;
use crate::error::Error;
use crate::fact::{copy_opt_string, opt_str_view, Attr, BranchName, EntityId, FactId, Namespace, Timestamp, TxId, Value, ValueView};

verus! {

/// One fact of a bulk write.
#[derive(Debug)]
pub struct BulkSpec {
    pub entity: EntityId,
    pub attr: Attr,
    pub value: Value,
    pub valid_from: Option<Timestamp>,
    pub valid_to: Option<Timestamp>,
}

/// The outcome of a bulk write.
#[derive(Debug)]
pub struct BulkResult {
    pub tx_id: TxId,
    pub applied: usize,
    pub fact_ids: Vec<FactId>,
}

/// The record parameters of each fact of a bulk write: all share the
/// namespace, branch, author, message, transaction time and transaction id;
/// a missing `valid_from` defaults to `now`; no causal reference and no
/// idempotency key. An empty bulk write is refused with
/// `bulk_record: at least one spec required`.
pub fn bulk_params(
    ns: &Namespace,
    branch: &BranchName,
    specs: Vec<BulkSpec>,
    author: &Option<String>,
    message: &Option<String>,
    now: Timestamp,
    tx_time: Hlc,
    tx_id: TxId,
) -> (r: Result<Vec<RecordParams>, Error>)
    ensures
        specs@.len() == 0 ==> (r matches Err(Error::Other(m)) && m@
            == "bulk_record: at least one spec required"@),
        specs@.len() > 0 ==> (r matches Ok(ps) && ps@.len() == specs@.len() && forall|i: int|
            0 <= i < ps@.len() ==> {
                let p = #[trigger] ps@[i];
                let s = specs@[i];
                &&& p.namespace@ == ns@
                &&& p.branch@ == branch@
                &&& p.entity@ == s.entity@
                &&& p.attr@ == s.attr@
                &&& p.value@ == s.value@
                &&& opt_str_view(p.author) == opt_str_view(*author)
                &&& opt_str_view(p.message) == opt_str_view(*message)
                &&& p.valid_from == (match s.valid_from {
                    Some(t) => t,
                    None => now,
                })
                &&& p.valid_to == s.valid_to
                &&& p.tx_time == tx_time
                &&& p.tx_id == tx_id
                &&& p.caused_by is None
                &&& p.idempotency_key is None
            }),
{
    if specs.len() == 0 {
        return Err(Error::other("bulk_record: at least one spec required"));
    }
    let ghost orig = specs@;
    let n = specs.len();
    let mut specs = specs;
    let mut out: Vec<RecordParams> = Vec::new();
    let mut i: usize = 0;
    while specs.len() > 0
        invariant
            i + specs@.len() == n,
            n == orig.len(),
            specs@ == orig.skip(i as int),
            out@.len() == i,
            forall|j: int|
                0 <= j < i ==> {
                    let p = #[trigger] out@[j];
                    let s = orig[j];
                    &&& p.namespace@ == ns@
                    &&& p.branch@ == branch@
                    &&& p.entity@ == s.entity@
                    &&& p.attr@ == s.attr@
                    &&& p.value@ == s.value@
                    &&& opt_str_view(p.author) == opt_str_view(*author)
                    &&& opt_str_view(p.message) == opt_str_view(*message)
                    &&& p.valid_from == (match s.valid_from {
                        Some(t) => t,
                        None => now,
                    })
                    &&& p.valid_to == s.valid_to
                    &&& p.tx_time == tx_time
                    &&& p.tx_id == tx_id
                    &&& p.caused_by is None
                    &&& p.idempotency_key is None
                },
        decreases specs@.len(),
    {
        let sp = specs.remove(0);
        assert(sp == orig[i as int]);
        assert(specs@ =~= orig.skip(i + 1));
        let valid_from = match sp.valid_from {
            Some(t) => t,
            None => now,
        };
        out.push(
            RecordParams {
                namespace: ns.clone(),
                entity: sp.entity,
                attr: sp.attr,
                value: sp.value,
                branch: branch.clone(),
                author: copy_opt_string(author),
                message: copy_opt_string(message),
                valid_from,
                valid_to: sp.valid_to,
                tx_time,
                tx_id,
                caused_by: None,
                idempotency_key: None,
            },
        );
        i = i + 1;
    }
    Ok(out)
}

} // verus!
