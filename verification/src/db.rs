//! The parameters and results of the ledger's operations, and the decisions
//! the ledger front end makes before it hands an operation to a store: the
//! valid-time check, schema validation, defaults, and the scan queries behind
//! the temporal reads.
use vstd::prelude::*;

use crate::clock::Hlc;
use crate::error::Error;
use crate::fact::{
    copy_opt_string, opt_str_view, ts_le, Attr, BranchName, EntityId, FactId, Namespace, Timestamp,
    TxId, Value, ValueView,
};
use crate::schema::{spec_declared_type, spec_type_matches, Schema};
use crate::text::{chars_of, string_from_chars};

verus! {

/// What a store needs to record one fact.
#[derive(Debug)]
pub struct RecordParams {
    pub namespace: Namespace,
    pub entity: EntityId,
    pub attr: Attr,
    pub value: Value,
    pub branch: BranchName,
    pub author: Option<String>,
    pub message: Option<String>,
    pub valid_from: Timestamp,
    pub valid_to: Option<Timestamp>,
    pub tx_time: Hlc,
    pub tx_id: TxId,
    pub caused_by: Option<TxId>,
    pub idempotency_key: Option<String>,
}

/// The outcome of recording a fact.
#[derive(Debug, Clone, Copy, PartialEq, Eq, Structural)]
pub struct RecordResult {
    pub fact_id: FactId,
    pub tx_id: TxId,
    /// Whether the idempotency key had been seen before (nothing was written).
    pub was_duplicate: bool,
}

/// What a store needs to retract one fact.
#[derive(Debug)]
pub struct RetractParams {
    pub namespace: Namespace,
    pub branch: BranchName,
    pub author: Option<String>,
    pub message: Option<String>,
    pub tx_time: Hlc,
    pub tx_id: TxId,
}

/// A query over the facts of one branch.
#[derive(Debug)]
pub struct ScanQuery {
    pub namespace: Namespace,
    pub branch: BranchName,
    pub entity: Option<EntityId>,
    pub attr: Option<Attr>,
    /// Only facts recorded at or before this transaction time (as-of); a live
    /// read then also sees facts retracted after it.
    pub asof_tx: Option<Hlc>,
    /// Only facts valid at this point in valid time (effective).
    pub asof_valid: Option<Timestamp>,
    pub include_retracted: bool,
    pub limit: Option<usize>,
    pub offset: Option<usize>,
}

/// The content of a scan query.
pub struct ScanView {
    pub namespace: Seq<char>,
    pub branch: Seq<char>,
    pub entity: Option<Seq<char>>,
    pub attr: Option<Seq<char>>,
    pub asof_tx: Option<u64>,
    pub asof_valid: Option<Timestamp>,
    pub include_retracted: bool,
    pub limit: Option<usize>,
    pub offset: Option<usize>,
}

/// The view of an optional entity id.
pub open spec fn opt_entity_view(e: Option<EntityId>) -> Option<Seq<char>> {
    match e {
        Some(x) => Some(x@),
        None => None,
    }
}

/// The view of an optional attribute.
pub open spec fn opt_attr_view(a: Option<Attr>) -> Option<Seq<char>> {
    match a {
        Some(x) => Some(x@),
        None => None,
    }
}

/// The view of an optional HLC.
pub open spec fn opt_hlc_view(h: Option<Hlc>) -> Option<u64> {
    match h {
        Some(x) => Some(x.0),
        None => None,
    }
}

impl View for ScanQuery {
    type V = ScanView;

    open spec fn view(&self) -> ScanView {
        ScanView {
            namespace: self.namespace@,
            branch: self.branch@,
            entity: opt_entity_view(self.entity),
            attr: opt_attr_view(self.attr),
            asof_tx: opt_hlc_view(self.asof_tx),
            asof_valid: self.asof_valid,
            include_retracted: self.include_retracted,
            limit: self.limit,
            offset: self.offset,
        }
    }
}

impl ScanQuery {
    /// A query over every live fact of the `main` branch of the `default`
    /// namespace.
    pub fn default() -> (q: ScanQuery)
        ensures
            q@ == (ScanView {
                namespace: crate::fact::default_namespace(),
                branch: crate::fact::main_branch(),
                entity: None,
                attr: None,
                asof_tx: None,
                asof_valid: None,
                include_retracted: false,
                limit: None,
                offset: None,
            }),
    {
        ScanQuery::of_branch(Namespace::default(), BranchName::main())
    }

    /// A query over every live fact of one branch.
    pub fn of_branch(namespace: Namespace, branch: BranchName) -> (q: ScanQuery)
        ensures
            q@ == (ScanView {
                namespace: namespace@,
                branch: branch@,
                entity: None,
                attr: None,
                asof_tx: None,
                asof_valid: None,
                include_retracted: false,
                limit: None,
                offset: None,
            }),
    {
        ScanQuery {
            namespace,
            branch,
            entity: None,
            attr: None,
            asof_tx: None,
            asof_valid: None,
            include_retracted: false,
            limit: None,
            offset: None,
        }
    }
}

/// Optional settings of a write.
#[derive(Debug)]
pub struct RecordOpts {
    pub author: Option<String>,
    pub message: Option<String>,
    pub valid_from: Option<Timestamp>,
    pub valid_to: Option<Timestamp>,
    pub caused_by: Option<TxId>,
    pub idempotency_key: Option<String>,
}

impl RecordOpts {
    /// No settings.
    pub fn default() -> (o: RecordOpts)
        ensures
            o.author is None,
            o.message is None,
            o.valid_from is None,
            o.valid_to is None,
            o.caused_by is None,
            o.idempotency_key is None,
    {
        RecordOpts {
            author: None,
            message: None,
            valid_from: None,
            valid_to: None,
            caused_by: None,
            idempotency_key: None,
        }
    }
}

/// Optional settings of a retraction.
#[derive(Debug)]
pub struct RetractOpts {
    pub author: Option<String>,
    pub message: Option<String>,
}

impl RetractOpts {
    /// No settings.
    pub fn default() -> (o: RetractOpts)
        ensures
            o.author is None,
            o.message is None,
    {
        RetractOpts { author: None, message: None }
    }
}

/// Whether a write's valid-time interval is acceptable: an end, when given,
/// must be after the start.
pub open spec fn spec_valid_range(valid_from: Timestamp, valid_to: Option<Timestamp>) -> bool {
    match valid_to {
        Some(t) => !ts_le(t, valid_from),
        None => true,
    }
}

/// The checks a write passes before it reaches the store: the valid-time
/// interval first, then the namespace schema (when the namespace has one).
pub open spec fn spec_write_check(
    valid_from: Timestamp,
    valid_to: Option<Timestamp>,
    schema: Option<&Schema>,
    attr: Seq<char>,
    value: ValueView,
) -> bool {
    spec_valid_range(valid_from, valid_to) && match schema {
        Some(s) => match spec_declared_type(s.attrs@, attr) {
            Some(t) => spec_type_matches(t, value),
            None => !s.strict,
        },
        None => true,
    }
}

/// Checks a write: `InvalidTimeRange` when `valid_to` is not after
/// `valid_from`; otherwise the schema's verdict (see `Schema::validate`).
pub fn check_write(
    valid_from: Timestamp,
    valid_to: Option<Timestamp>,
    schema: Option<&Schema>,
    attr: &Attr,
    value: &Value,
) -> (r: Result<(), Error>)
    ensures
        r is Ok == spec_write_check(valid_from, valid_to, schema, attr@, value@),
        !spec_valid_range(valid_from, valid_to) ==> r matches Err(Error::InvalidTimeRange),
        spec_valid_range(valid_from, valid_to) && r is Err ==> r matches Err(
            Error::SchemaViolation { .. },
        ),
{
    if let Some(vt) = valid_to {
        if vt.le(&valid_from) {
            return Err(Error::InvalidTimeRange);
        }
    }
    match schema {
        Some(s) => s.validate(attr, value),
        None => Ok(()),
    }
}

/// The record parameters of a write: `valid_from` defaults to `now`, the
/// remaining settings come from `opts`.
pub fn record_params(
    namespace: Namespace,
    entity: EntityId,
    attr: Attr,
    value: Value,
    branch: BranchName,
    opts: RecordOpts,
    now: Timestamp,
    tx_time: Hlc,
    tx_id: TxId,
) -> (p: RecordParams)
    ensures
        p.namespace@ == namespace@,
        p.entity@ == entity@,
        p.attr@ == attr@,
        p.value@ == value@,
        p.branch@ == branch@,
        opt_str_view(p.author) == opt_str_view(opts.author),
        opt_str_view(p.message) == opt_str_view(opts.message),
        p.valid_from == (match opts.valid_from {
            Some(t) => t,
            None => now,
        }),
        p.valid_to == opts.valid_to,
        p.tx_time == tx_time,
        p.tx_id == tx_id,
        p.caused_by == opts.caused_by,
        opt_str_view(p.idempotency_key) == opt_str_view(opts.idempotency_key),
{
    let valid_from = match opts.valid_from {
        Some(t) => t,
        None => now,
    };
    RecordParams {
        namespace,
        entity,
        attr,
        value,
        branch,
        author: opts.author,
        message: opts.message,
        valid_from,
        valid_to: opts.valid_to,
        tx_time,
        tx_id,
        caused_by: opts.caused_by,
        idempotency_key: opts.idempotency_key,
    }
}

/// The retract parameters of a retraction.
pub fn retract_params(
    namespace: Namespace,
    branch: BranchName,
    opts: RetractOpts,
    tx_time: Hlc,
    tx_id: TxId,
) -> (p: RetractParams)
    ensures
        p.namespace@ == namespace@,
        p.branch@ == branch@,
        opt_str_view(p.author) == opt_str_view(opts.author),
        opt_str_view(p.message) == opt_str_view(opts.message),
        p.tx_time == tx_time,
        p.tx_id == tx_id,
{
    RetractParams { namespace, branch, author: opts.author, message: opts.message, tx_time, tx_id }
}

/// The query behind `history`: every version of `entity.attr`, retracted
/// ones included.
pub fn history_query(ns: Namespace, branch: BranchName, entity: EntityId, attr: Attr) -> (q:
    ScanQuery)
    ensures
        q@ == (ScanView {
            namespace: ns@,
            branch: branch@,
            entity: Some(entity@),
            attr: Some(attr@),
            asof_tx: None,
            asof_valid: None,
            include_retracted: true,
            limit: None,
            offset: None,
        }),
{
    ScanQuery {
        namespace: ns,
        branch,
        entity: Some(entity),
        attr: Some(attr),
        asof_tx: None,
        asof_valid: None,
        include_retracted: true,
        limit: None,
        offset: None,
    }
}

/// The query behind `effective`: the newest live version of `entity.attr`
/// valid at `at`.
pub fn effective_query(
    ns: Namespace,
    branch: BranchName,
    entity: EntityId,
    attr: Attr,
    at: Timestamp,
) -> (q: ScanQuery)
    ensures
        q@ == (ScanView {
            namespace: ns@,
            branch: branch@,
            entity: Some(entity@),
            attr: Some(attr@),
            asof_tx: None,
            asof_valid: Some(at),
            include_retracted: false,
            limit: Some(1),
            offset: None,
        }),
{
    ScanQuery {
        namespace: ns,
        branch,
        entity: Some(entity),
        attr: Some(attr),
        asof_tx: None,
        asof_valid: Some(at),
        include_retracted: false,
        limit: Some(1),
        offset: None,
    }
}

/// The query behind `asof`: the newest version of `entity.attr` recorded at
/// or before `at` and not yet retracted at `at` (retracted, if at all, by a
/// transaction later than `at`; see `spec_live_at`), i.e. what was known as
/// of `at`.
pub fn asof_query(ns: Namespace, branch: BranchName, entity: EntityId, attr: Attr, at: Hlc) -> (q:
    ScanQuery)
    ensures
        q@ == (ScanView {
            namespace: ns@,
            branch: branch@,
            entity: Some(entity@),
            attr: Some(attr@),
            asof_tx: Some(at.0),
            asof_valid: None,
            include_retracted: false,
            limit: Some(1),
            offset: None,
        }),
{
    ScanQuery {
        namespace: ns,
        branch,
        entity: Some(entity),
        attr: Some(attr),
        asof_tx: Some(at),
        asof_valid: None,
        include_retracted: false,
        limit: Some(1),
        offset: None,
    }
}

/// The query behind `snapshot`: every live fact of `entity`.
pub fn snapshot_query(ns: Namespace, branch: BranchName, entity: EntityId) -> (q: ScanQuery)
    ensures
        q@ == (ScanView {
            namespace: ns@,
            branch: branch@,
            entity: Some(entity@),
            attr: None,
            asof_tx: None,
            asof_valid: None,
            include_retracted: false,
            limit: None,
            offset: None,
        }),
{
    ScanQuery {
        namespace: ns,
        branch,
        entity: Some(entity),
        attr: None,
        asof_tx: None,
        asof_valid: None,
        include_retracted: false,
        limit: None,
        offset: None,
    }
}


/// Whether `c` is white space in the sense of Unicode's `White_Space`
/// property, the characters that `str::trim` removes.
pub open spec fn spec_is_space(c: char) -> bool {
    let n = c as u32;
    ||| 0x09 <= n <= 0x0D
    ||| n == 0x20
    ||| n == 0x85
    ||| n == 0xA0
    ||| n == 0x1680
    ||| 0x2000 <= n <= 0x200A
    ||| n == 0x2028
    ||| n == 0x2029
    ||| n == 0x202F
    ||| n == 0x205F
    ||| n == 0x3000
}

/// `s` without its leading white space.
pub open spec fn spec_trim_start(s: Seq<char>) -> Seq<char>
    decreases s.len(),
{
    if s.len() > 0 && spec_is_space(s[0]) {
        spec_trim_start(s.drop_first())
    } else {
        s
    }
}

/// `s` without its trailing white space.
pub open spec fn spec_trim_end(s: Seq<char>) -> Seq<char>
    decreases s.len(),
{
    if s.len() > 0 && spec_is_space(s.last()) {
        spec_trim_end(s.drop_last())
    } else {
        s
    }
}

/// `s` without leading and trailing white space.
pub open spec fn spec_trim(s: Seq<char>) -> Seq<char> {
    spec_trim_end(spec_trim_start(s))
}

/// The text of the error that refuses a blank tag label.
pub open spec fn spec_empty_label_message() -> Seq<char> {
    seq!['t', 'a', 'g', ' ', 'l', 'a', 'b', 'e', 'l', ' ', 'm', 'u', 's', 't', ' ', 'n', 'o', 't',
        ' ', 'b', 'e', ' ', 'e', 'm', 'p', 't', 'y']
}

/// Whether `c` is white space (see `spec_is_space`).
pub fn is_space(c: char) -> (r: bool)
    ensures
        r == spec_is_space(c),
{
    let n = c as u32;
    (0x09 <= n && n <= 0x0D) || n == 0x20 || n == 0x85 || n == 0xA0 || n == 0x1680 || (0x2000
        <= n && n <= 0x200A) || n == 0x2028 || n == 0x2029 || n == 0x202F || n == 0x205F || n
        == 0x3000
}

/// `s` without leading and trailing white space, as `str::trim` gives it.
pub fn trim_text(s: &str) -> (r: String)
    ensures
        r@ == spec_trim(s@),
{
    let v = chars_of(s);
    let n = v.len();
    let mut i: usize = 0;
    assert(v@.subrange(0, n as int) =~= v@);
    while i < n && is_space(v[i])
        invariant
            v@ == s@,
            n == v.len(),
            i <= n,
            spec_trim_start(v@.subrange(i as int, n as int)) == spec_trim_start(v@),
        decreases n - i,
    {
        assert(v@.subrange(i as int, n as int).drop_first() =~= v@.subrange(i + 1, n as int));
        i = i + 1;
    }
    assert(spec_trim_start(v@) == v@.subrange(i as int, n as int));
    let mut j: usize = n;
    while j > i && is_space(v[j - 1])
        invariant
            v@ == s@,
            n == v.len(),
            i <= j <= n,
            spec_trim_end(v@.subrange(i as int, j as int)) == spec_trim_end(
                v@.subrange(i as int, n as int),
            ),
        decreases j,
    {
        assert(v@.subrange(i as int, j as int).drop_last() =~= v@.subrange(i as int, j - 1));
        j = j - 1;
    }
    let mut out: Vec<char> = Vec::new();
    let mut k: usize = i;
    while k < j
        invariant
            i <= k <= j <= n,
            n == v.len(),
            out@ == v@.subrange(i as int, k as int),
        decreases j - k,
    {
        out.push(v[k]);
        k = k + 1;
        assert(out@ =~= v@.subrange(i as int, k as int));
    }
    string_from_chars(&out)
}

/// The label under which a tag is stored: `label` without leading and
/// trailing white space. A label that is blank is refused.
pub fn tag_label(label: &str) -> (r: Result<String, Error>)
    ensures
        spec_trim(label@).len() > 0 ==> (r matches Ok(s) && s@ == spec_trim(label@)),
        spec_trim(label@).len() == 0 ==> (r matches Err(Error::Other(m)) && m@
            == spec_empty_label_message()),
{
    let t = trim_text(label);
    if t.unicode_len() == 0 {
        let msg = "tag label must not be empty";
        proof {
            reveal_strlit("tag label must not be empty");
        }
        let e = Error::other(msg);
        assert(msg@ =~= spec_empty_label_message());
        return Err(e);
    }
    Ok(t)
}

} // verus!
