//! Store-wide counters.
use vstd::prelude::*;

use crate::text::{decimal_u64, hex16, spec_decimal, spec_hex16, string_from_chars};

verus! {

/// Counters over the whole store.
#[derive(Debug, Clone, Copy, PartialEq, Eq, Structural)]
pub struct StoreStats {
    pub namespaces: usize,
    pub branches: usize,
    pub facts: usize,
    pub retracted: usize,
    pub transactions: usize,
    /// Oldest transaction time seen (0 if no facts).
    pub oldest_tx: u64,
    /// Newest transaction time seen (0 if no facts).
    pub newest_tx: u64,
    /// Approximate storage size in bytes (0 if unknown).
    pub estimated_bytes: u64,
}

/// The text rendering of the counters, one line each; the transaction range
/// only when `oldest_tx` is non-zero, the storage size (in whole KiB) only
/// when it is non-zero.
pub open spec fn spec_render(s: StoreStats) -> Seq<char> {
    "namespaces:   "@ + spec_decimal(s.namespaces as nat) + "\n"@ + "branches:     "@
        + spec_decimal(s.branches as nat) + "\n"@ + "facts:        "@ + spec_decimal(
        s.facts as nat,
    ) + "\n"@ + "retracted:    "@ + spec_decimal(s.retracted as nat) + "\n"@ + "transactions: "@
        + spec_decimal(s.transactions as nat) + "\n"@ + (if s.oldest_tx > 0 {
        "tx range:     "@ + spec_hex16(s.oldest_tx as nat) + " ... "@ + spec_hex16(
            s.newest_tx as nat,
        ) + "\n"@
    } else {
        Seq::empty()
    }) + (if s.estimated_bytes > 0 {
        "storage:      "@ + spec_decimal((s.estimated_bytes / 1024) as nat) + " KiB\n"@
    } else {
        Seq::empty()
    })
}

impl StoreStats {
    /// All counters zero.
    pub fn default() -> (s: StoreStats)
        ensures
            s == (StoreStats {
                namespaces: 0,
                branches: 0,
                facts: 0,
                retracted: 0,
                transactions: 0,
                oldest_tx: 0,
                newest_tx: 0,
                estimated_bytes: 0,
            }),
    {
        StoreStats {
            namespaces: 0,
            branches: 0,
            facts: 0,
            retracted: 0,
            transactions: 0,
            oldest_tx: 0,
            newest_tx: 0,
            estimated_bytes: 0,
        }
    }

    /// The counters as text (see `spec_render`).
    pub fn render(&self) -> (r: String)
        ensures
            r@ == spec_render(*self),
    {
        let mut r = String::from_str("namespaces:   ");
        r.append(decimal_u64(self.namespaces as u64).as_str());
        r.append("\n");
        r.append("branches:     ");
        r.append(decimal_u64(self.branches as u64).as_str());
        r.append("\n");
        r.append("facts:        ");
        r.append(decimal_u64(self.facts as u64).as_str());
        r.append("\n");
        r.append("retracted:    ");
        r.append(decimal_u64(self.retracted as u64).as_str());
        r.append("\n");
        r.append("transactions: ");
        r.append(decimal_u64(self.transactions as u64).as_str());
        r.append("\n");
        let ghost base = r@;
        if self.oldest_tx > 0 {
            r.append("tx range:     ");
            r.append(string_from_chars(&hex16(self.oldest_tx)).as_str());
            r.append(" ... ");
            r.append(string_from_chars(&hex16(self.newest_tx)).as_str());
            r.append("\n");
        }
        let ghost mid = r@;
        if self.estimated_bytes > 0 {
            r.append("storage:      ");
            r.append(decimal_u64(self.estimated_bytes / 1024).as_str());
            r.append(" KiB\n");
        }
        assert(r@ =~= spec_render(*self));
        r
    }
}

} // verus!
