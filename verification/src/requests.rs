//! The bodies and query strings of the HTTP front end's requests and
//! answers, with what the handlers decide from them: the branch a request
//! names (`main` when it names none), the identifiers it carries, and the
//! parameters handed to the ledger.
use vstd::prelude::*;

use crate::clock::{spec_parse_hlc, HexError, Hlc};
use crate::db::{RecordOpts, RecordResult, RetractOpts, ScanQuery, ScanView};
use crate::fact::{
    copy_opt_string, main_branch, opt_str_view, spec_id_text, spec_parse_id, BranchName, Fact,
    Namespace, TxId,
};
use crate::merge::{DiffParams, MergeParams};
use crate::namespace::{spec_parse_policy, MergePolicy, NamespaceOpts};

verus! {

/// The branch a request names: the one given, else `main`.
pub open spec fn spec_branch_or_main(b: Option<Seq<char>>) -> Seq<char> {
    match b {
        Some(s) => s,
        None => main_branch(),
    }
}

/// The branch a request names: `spec_branch_or_main`.
pub fn branch_or_main(b: &Option<String>) -> (r: BranchName)
    ensures
        r@ == spec_branch_or_main(opt_str_view(*b)),
{
    match b {
        Some(s) => BranchName::new(s.as_str()),
        None => BranchName::main(),
    }
}

/// The answer to a write.
#[derive(Debug)]
pub struct RecordResponse {
    pub fact_id: String,
    pub tx_id: String,
    pub was_duplicate: bool,
}

impl RecordResponse {
    /// The answer to a write that gave `r`: both identifiers as text.
    pub fn from_result(r: &RecordResult) -> (out: RecordResponse)
        ensures
            out.fact_id@ == spec_id_text(r.fact_id.0),
            out.tx_id@ == spec_id_text(r.tx_id.0),
            out.was_duplicate == r.was_duplicate,
    {
        RecordResponse {
            fact_id: r.fact_id.to_string(),
            tx_id: r.tx_id.to_string(),
            was_duplicate: r.was_duplicate,
        }
    }
}

/// The query string of a retraction.
#[derive(Debug)]
pub struct RetractQuery {
    pub branch: Option<String>,
    pub author: Option<String>,
    pub message: Option<String>,
}

impl RetractQuery {
    /// The branch the retraction is written to.
    pub fn branch_name(&self) -> (b: BranchName)
        ensures
            b@ == spec_branch_or_main(opt_str_view(self.branch)),
    {
        branch_or_main(&self.branch)
    }

    /// The retraction's author and message.
    pub fn opts(&self) -> (o: RetractOpts)
        ensures
            opt_str_view(o.author) == opt_str_view(self.author),
            opt_str_view(o.message) == opt_str_view(self.message),
    {
        RetractOpts { author: copy_opt_string(&self.author), message: copy_opt_string(&self.message) }
    }
}

/// The query string of an as-of read.
#[derive(Debug)]
pub struct AsofQuery {
    pub entity: String,
    pub attr: String,
    pub branch: Option<String>,
    /// A transaction time in hexadecimal; the current time when absent.
    pub at: Option<String>,
}

impl AsofQuery {
    /// The branch read.
    pub fn branch_name(&self) -> (b: BranchName)
        ensures
            b@ == spec_branch_or_main(opt_str_view(self.branch)),
    {
        branch_or_main(&self.branch)
    }

    /// The transaction time asked for: `None` when the request gives none,
    /// the error when the text given is no hexadecimal timestamp.
    pub fn at_time(&self) -> (r: Result<Option<Hlc>, HexError>)
        ensures
            self.at is None ==> r == Ok::<Option<Hlc>, HexError>(None),
            self.at matches Some(t) ==> match spec_parse_hlc(t@) {
                Ok(h) => r == Ok::<Option<Hlc>, HexError>(Some(h)),
                Err(e) => r == Err::<Option<Hlc>, HexError>(e),
            },
    {
        match &self.at {
            None => Ok(None),
            Some(t) => match Hlc::parse(t.as_str()) {
                Ok(h) => Ok(Some(h)),
                Err(e) => Err(e),
            },
        }
    }
}

/// The query string of a history read.
#[derive(Debug)]
pub struct HistoryQuery {
    pub entity: String,
    pub attr: String,
    pub branch: Option<String>,
}

impl HistoryQuery {
    /// The branch read.
    pub fn branch_name(&self) -> (b: BranchName)
        ensures
            b@ == spec_branch_or_main(opt_str_view(self.branch)),
    {
        branch_or_main(&self.branch)
    }
}

/// The query string of a snapshot read.
#[derive(Debug)]
pub struct SnapshotQuery {
    pub branch: Option<String>,
}

impl SnapshotQuery {
    /// The branch read.
    pub fn branch_name(&self) -> (b: BranchName)
        ensures
            b@ == spec_branch_or_main(opt_str_view(self.branch)),
    {
        branch_or_main(&self.branch)
    }
}

/// The query string of a transaction listing.
#[derive(Debug)]
pub struct TxListQuery {
    pub branch: Option<String>,
    pub limit: Option<usize>,
}

impl TxListQuery {
    /// The branch listed.
    pub fn branch_name(&self) -> (b: BranchName)
        ensures
            b@ == spec_branch_or_main(opt_str_view(self.branch)),
    {
        branch_or_main(&self.branch)
    }

    /// How many transactions are listed: 50 unless asked, never more than 500.
    pub fn effective_limit(&self) -> (n: usize)
        ensures
            n == (match self.limit {
                Some(l) => if l < 500 {
                    l
                } else {
                    500
                },
                None => 50,
            }),
    {
        crate::api::tx_list_limit(self.limit)
    }
}

/// The body of a branch creation.
#[derive(Debug)]
pub struct CreateBranchRequest {
    pub name: String,
    /// The branch forked from; `main` when absent.
    pub from: Option<String>,
}

impl CreateBranchRequest {
    /// The branch forked from.
    pub fn fork_from(&self) -> (b: BranchName)
        ensures
            b@ == spec_branch_or_main(opt_str_view(self.from)),
    {
        branch_or_main(&self.from)
    }
}

/// Whether an optional identifier text parses: absent, or a hexadecimal
/// identifier.
pub open spec fn spec_opt_id_ok(t: Option<Seq<char>>) -> bool {
    match t {
        None => true,
        Some(s) => spec_parse_id(s) is Ok,
    }
}

/// The identifier an optional text gives, where it parses.
pub open spec fn spec_opt_id(t: Option<Seq<char>>) -> Option<u128> {
    match t {
        None => None,
        Some(s) => match spec_parse_id(s) {
            Ok(n) => Some(n),
            Err(_) => None,
        },
    }
}

/// Parses an optional transaction identifier: `Ok(None)` when absent, `Err`
/// when the text is no identifier.
pub fn parse_opt_tx(t: &Option<String>) -> (r: Result<Option<TxId>, HexError>)
    ensures
        r is Ok <==> spec_opt_id_ok(opt_str_view(*t)),
        r matches Ok(o) ==> (match o {
            Some(id) => spec_opt_id(opt_str_view(*t)) == Some(id.0),
            None => t is None,
        }),
{
    match t {
        None => Ok(None),
        Some(s) => match TxId::parse(s.as_str()) {
            Ok(id) => Ok(Some(id)),
            Err(e) => Err(e),
        },
    }
}

/// The body of a merge.
#[derive(Debug)]
pub struct MergeRequest {
    pub source: String,
    pub target: String,
    pub author: Option<String>,
    pub message: Option<String>,
    pub caused_by: Option<String>,
}

impl MergeRequest {
    /// The merge asked for in namespace `ns`; `None` when `caused_by` is
    /// given and is no transaction identifier.
    pub fn params(&self, ns: &str) -> (r: Option<MergeParams>)
        ensures
            r is Some <==> spec_opt_id_ok(opt_str_view(self.caused_by)),
            r matches Some(p) ==> {
                &&& p.namespace@ == ns@
                &&& p.source@ == self.source@
                &&& p.target@ == self.target@
                &&& opt_str_view(p.author) == opt_str_view(self.author)
                &&& opt_str_view(p.message) == opt_str_view(self.message)
                &&& match p.caused_by {
                    Some(id) => spec_opt_id(opt_str_view(self.caused_by)) == Some(id.0),
                    None => self.caused_by is None,
                }
            },
    {
        match parse_opt_tx(&self.caused_by) {
            Err(_) => None,
            Ok(caused_by) => Some(
                MergeParams {
                    namespace: Namespace::new(ns),
                    source: BranchName::new(self.source.as_str()),
                    target: BranchName::new(self.target.as_str()),
                    author: copy_opt_string(&self.author),
                    message: copy_opt_string(&self.message),
                    caused_by,
                },
            ),
        }
    }
}

/// The query string of a diff.
#[derive(Debug)]
pub struct DiffQuery {
    pub source: String,
    /// The branch compared against; `main` when absent.
    pub target: Option<String>,
}

impl DiffQuery {
    /// The comparison asked for in namespace `ns`.
    pub fn params(&self, ns: &str) -> (p: DiffParams)
        ensures
            p.namespace@ == ns@,
            p.source@ == self.source@,
            p.target@ == spec_branch_or_main(opt_str_view(self.target)),
    {
        DiffParams {
            namespace: Namespace::new(ns),
            source: BranchName::new(self.source.as_str()),
            target: branch_or_main(&self.target),
        }
    }
}

/// The query string of an entity listing.
#[derive(Debug)]
pub struct EntitiesQuery {
    pub branch: String,
}

/// The branch an entity listing reads when the request names none: `main`.
pub fn default_branch() -> (s: String)
    ensures
        s@ == main_branch(),
{
    BranchName::main().0
}

impl EntitiesQuery {
    /// The listing of branch `main`.
    pub fn default() -> (q: EntitiesQuery)
        ensures
            q.branch@ == main_branch(),
    {
        EntitiesQuery { branch: default_branch() }
    }
}

/// The body of a namespace creation.
#[derive(Debug)]
pub struct CreateNamespaceRequest {
    pub name: String,
    /// A merge policy name; last-write-wins when absent.
    pub merge_policy: Option<String>,
}

impl CreateNamespaceRequest {
    /// The namespace's options (no schema); the error message of an unknown
    /// policy name.
    pub fn opts(&self) -> (r: Result<NamespaceOpts, String>)
        ensures
            self.merge_policy is None ==> (r matches Ok(o) && o.merge_policy
                == MergePolicy::LastWriteWins && o.schema is None),
            self.merge_policy matches Some(s) ==> match spec_parse_policy(s@) {
                Some(p) => r matches Ok(o) && o.merge_policy == p && o.schema is None,
                None => r matches Err(m) && m@ == "unknown merge policy '"@ + s@ + "'"@,
            },
    {
        match &self.merge_policy {
            None => Ok(NamespaceOpts::default()),
            Some(s) => match MergePolicy::parse(s.as_str()) {
                Ok(p) => Ok(NamespaceOpts { merge_policy: p, schema: None }),
                Err(m) => Err(m),
            },
        }
    }
}

/// The body of a query request.
#[derive(Debug)]
pub struct QueryRequest {
    pub pql: String,
    pub branch: Option<String>,
}

impl QueryRequest {
    /// The branch queried.
    pub fn branch_name(&self) -> (b: BranchName)
        ensures
            b@ == spec_branch_or_main(opt_str_view(self.branch)),
    {
        branch_or_main(&self.branch)
    }
}

/// A tag as the front end shows it.
#[derive(Debug)]
pub struct TagEntry {
    pub label: String,
    pub tx_id: String,
}

impl TagEntry {
    /// The entry of tag `label` on transaction `tx`.
    pub fn new(label: &str, tx: &TxId) -> (t: TagEntry)
        ensures
            t.label@ == label@,
            t.tx_id@ == spec_id_text(tx.0),
    {
        TagEntry { label: String::from_str(label), tx_id: tx.to_string() }
    }
}

/// The body that sets a tag.
#[derive(Debug)]
pub struct PutTagBody {
    pub tx_id: String,
}

impl PutTagBody {
    /// The transaction tagged.
    pub fn tx(&self) -> (r: Result<TxId, HexError>)
        ensures
            r matches Ok(id) ==> spec_parse_id(self.tx_id@) == Ok::<u128, HexError>(id.0),
            r matches Err(e) ==> spec_parse_id(self.tx_id@) == Err::<u128, HexError>(e),
    {
        TxId::parse(self.tx_id.as_str())
    }
}

/// The tally of a restore: facts written, and lines skipped (blank lines
/// aside: a line that is no fact, a fact already present, a refused write).
#[derive(Debug, Clone, Copy, PartialEq, Eq, Structural)]
pub struct RestoreResult {
    pub imported: usize,
    pub skipped: usize,
}

impl RestoreResult {
    /// Nothing imported, nothing skipped.
    pub fn new() -> (r: RestoreResult)
        ensures
            r.imported == 0,
            r.skipped == 0,
    {
        RestoreResult { imported: 0, skipped: 0 }
    }

    /// Counts one line that held a fact: imported when the write happened
    /// and was new, skipped otherwise.
    pub fn tally(&mut self, written: bool)
        requires
            old(self).imported + old(self).skipped < usize::MAX,
        ensures
            written ==> final(self).imported == old(self).imported + 1 && final(self).skipped
                == old(self).skipped,
            !written ==> final(self).skipped == old(self).skipped + 1 && final(self).imported
                == old(self).imported,
    {
        if written {
            self.imported = self.imported + 1;
        } else {
            self.skipped = self.skipped + 1;
        }
    }
}

/// The write that restores a dumped fact: its author and valid-time
/// interval, the message `restore`, and the fact's identifier as
/// idempotency key, so that replaying a dump writes nothing twice.
pub fn restore_opts(f: &Fact) -> (o: RecordOpts)
    ensures
        opt_str_view(o.author) == opt_str_view(f.author),
        opt_str_view(o.message) == Some("restore"@),
        o.valid_from == Some(f.valid_from),
        o.valid_to == f.valid_to,
        o.caused_by is None,
        opt_str_view(o.idempotency_key) == Some(spec_id_text(f.id.0)),
{
    RecordOpts {
        author: copy_opt_string(&f.author),
        message: Some(String::from_str("restore")),
        valid_from: Some(f.valid_from),
        valid_to: f.valid_to,
        caused_by: None,
        idempotency_key: Some(f.id.to_string()),
    }
}

/// The scan behind a dump: every fact of one branch, retracted ones too.
pub fn dump_query(ns: &Namespace, branch: &BranchName) -> (q: ScanQuery)
    ensures
        q@ == (ScanView {
            namespace: ns@,
            branch: branch@,
            entity: None,
            attr: None,
            asof_tx: None,
            asof_valid: None,
            include_retracted: true,
            limit: None,
            offset: None,
        }),
{
    ScanQuery {
        namespace: ns.clone(),
        branch: branch.clone(),
        entity: None,
        attr: None,
        asof_tx: None,
        asof_valid: None,
        include_retracted: true,
        limit: None,
        offset: None,
    }
}

} // verus!
