//! The in-memory store: facts, transactions, branches, namespaces,
//! idempotency keys and tags, with every operation of the ledger.
use vstd::prelude::*;

use crate::branch::{opt_branch_view, BranchInfo, BranchView};
use crate::clock::{Clock, Hlc};
use crate::db::{RecordParams, RecordResult, RetractParams, ScanQuery, ScanView};
use crate::error::Error;
use crate::fact::{
    copy_opt_string, main_branch, default_namespace, opt_str_view, opt_tx_view, ts_le, ts_lt,
    Attr, BranchName, EntityId, Fact, FactId, FactView, Namespace, Timestamp, TxId,
};
use crate::gc::{GcParams, GcReport};
use crate::keyed::{
    find_key, key_index, lemma_key_index_view, lemma_unique_index, lemma_vkey_index_from,
    names_view, unique_names, vkey_index, vkey_index_from,
};
use crate::merge::{
    compute_diff, fv, indexed, is_diff, lemma_applied_bounds, lemma_first_refusal_bounds, pair_key, plan_merge, ConflictEntry, spec_applied, spec_conflicts,
    spec_first_refusal, spec_in_diff, ConflictView, DiffEntry, DiffParams, MergeParams,
    MergeResult, opt_fact_view,
};
use crate::namespace::{MergePolicy, NamespaceInfo, NamespaceOpts, NsView, opt_schema_view};
use crate::sort::{
    insert_sorted, key_lt, lemma_sort_views, sorted_distinct, sorted_distinct_of, texts, lemma_stable_sort_len, sort_stable, stable_sort,
    strictly_sorted, KeyView, SortKey,
};
use crate::stats::StoreStats;
use crate::text::copy_string;
use crate::tx::{Transaction, TxView};

verus! {

/// The wall clock as a UTC time: `chrono::Utc::now()`, as whole seconds and
/// nanoseconds. Nothing is claimed of the value, which is the machine's
/// clock.
#[verifier::external_body]
pub(crate) fn utc_now() -> Timestamp {
    let d = chrono::Utc::now();
    Timestamp { secs: d.timestamp(), nanos: d.timestamp_subsec_nanos() }
}

/// An in-memory fact ledger.
pub struct MemoryStore {
    facts: Vec<Fact>,
    transactions: Vec<Transaction>,
    branches: Vec<BranchInfo>,
    namespaces: Vec<NamespaceInfo>,
    idem_cache: Vec<(String, (FactId, TxId))>,
    tags: Vec<(String, TxId)>,
}

/// The content of a store.
pub struct StoreView {
    pub facts: Seq<FactView>,
    pub txs: Seq<TxView>,
    pub branches: Seq<BranchView>,
    pub namespaces: Seq<NsView>,
    pub idem: Seq<(Seq<char>, (FactId, TxId))>,
    pub tags: Seq<(Seq<char>, TxId)>,
}

impl View for MemoryStore {
    type V = StoreView;

    closed spec fn view(&self) -> StoreView {
        StoreView {
            facts: self.facts@.map_values(|f: Fact| f@),
            txs: self.transactions@.map_values(|t: Transaction| t@),
            branches: self.branches@.map_values(|b: BranchInfo| b@),
            namespaces: self.namespaces@.map_values(|n: NamespaceInfo| n@),
            idem: names_view(self.idem_cache@),
            tags: names_view(self.tags@),
        }
    }
}

/// The index of the first branch `ns`/`name`, or -1.
pub open spec fn branch_index_from(bs: Seq<BranchView>, ns: Seq<char>, name: Seq<char>, i: int) -> int
    decreases bs.len() - i,
{
    if i < 0 || i >= bs.len() {
        -1
    } else if bs[i].namespace == ns && bs[i].name == name {
        i
    } else {
        branch_index_from(bs, ns, name, i + 1)
    }
}

/// The index of the branch `ns`/`name`, or -1.
pub open spec fn branch_index(bs: Seq<BranchView>, ns: Seq<char>, name: Seq<char>) -> int {
    branch_index_from(bs, ns, name, 0)
}

/// The index of the first namespace called `name`, or -1.
pub open spec fn ns_index_from(nss: Seq<NsView>, name: Seq<char>, i: int) -> int
    decreases nss.len() - i,
{
    if i < 0 || i >= nss.len() {
        -1
    } else if nss[i].name == name {
        i
    } else {
        ns_index_from(nss, name, i + 1)
    }
}

/// The index of the namespace called `name`, or -1.
pub open spec fn ns_index(nss: Seq<NsView>, name: Seq<char>) -> int {
    ns_index_from(nss, name, 0)
}

/// The index of the first transaction `id`, or -1.
pub open spec fn tx_index_from(txs: Seq<TxView>, id: u128, i: int) -> int
    decreases txs.len() - i,
{
    if i < 0 || i >= txs.len() {
        -1
    } else if txs[i].id == id {
        i
    } else {
        tx_index_from(txs, id, i + 1)
    }
}

/// The index of the first transaction `id`, or -1.
pub open spec fn tx_index(txs: Seq<TxView>, id: u128) -> int {
    tx_index_from(txs, id, 0)
}

/// The index of the first fact `id`, or -1.
pub open spec fn fact_index_from(fs: Seq<FactView>, id: u128, i: int) -> int
    decreases fs.len() - i,
{
    if i < 0 || i >= fs.len() {
        -1
    } else if fs[i].id == id {
        i
    } else {
        fact_index_from(fs, id, i + 1)
    }
}

/// The index of the first fact `id`, or -1.
pub open spec fn fact_index(fs: Seq<FactView>, id: u128) -> int {
    fact_index_from(fs, id, 0)
}

/// The store's invariant: branches are unique per namespace and belong to an
/// existing namespace; namespace names, idempotency keys and tag labels are
/// unique.
pub open spec fn spec_wf(v: StoreView) -> bool {
    &&& forall|i: int, j: int|
        0 <= i < v.branches.len() && 0 <= j < v.branches.len() && i != j ==> !(
        #[trigger] v.branches[i].namespace == #[trigger] v.branches[j].namespace && v.branches[i].name
            == v.branches[j].name)
    &&& forall|i: int| 0 <= i < v.branches.len() ==> ns_index(v.namespaces, #[trigger] v.branches[i].namespace) != -1
    &&& forall|i: int, j: int|
        0 <= i < v.namespaces.len() && 0 <= j < v.namespaces.len() && i != j ==> #[trigger] v.namespaces[i].name
            != #[trigger] v.namespaces[j].name
    &&& unique_names(v.idem)
    &&& unique_names(v.tags)
}

/// Whether every transaction can count `n` more facts.
pub open spec fn spec_room_for(v: StoreView, n: nat) -> bool {
    forall|i: int| 0 <= i < v.txs.len() ==> #[trigger] v.txs[i].fact_count + n <= usize::MAX
}

/// The fact a write records.
pub open spec fn spec_new_fact(p: RecordParams, id: u128) -> FactView {
    FactView {
        id: id,
        namespace: p.namespace@,
        entity: p.entity@,
        attr: p.attr@,
        value: p.value@,
        valid_from: p.valid_from,
        valid_to: p.valid_to,
        tx_id: p.tx_id.0,
        tx_time: p.tx_time.0,
        branch: p.branch@,
        author: opt_str_view(p.author),
        retracted: false,
        retracted_at: None,
        caused_by: opt_tx_view(p.caused_by),
    }
}

/// The transactions after a write: the write's transaction counts one more
/// fact, or is created with one fact.
pub open spec fn spec_txs_after_record(txs: Seq<TxView>, p: RecordParams) -> Seq<TxView> {
    let i = tx_index(txs, p.tx_id.0);
    if i == -1 {
        txs.push(
            TxView {
                id: p.tx_id.0,
                namespace: p.namespace@,
                branch: p.branch@,
                ts: p.tx_time.0,
                author: opt_str_view(p.author),
                message: opt_str_view(p.message),
                fact_count: 1,
                caused_by: p.caused_by,
            },
        )
    } else {
        txs.update(i, TxView { fact_count: txs[i].fact_count + 1, ..txs[i] })
    }
}

/// The branches after a write to `ns`/`name` in transaction `tx`: that
/// branch's head becomes `tx`.
pub open spec fn spec_set_head(bs: Seq<BranchView>, ns: Seq<char>, name: Seq<char>, tx: TxId) -> Seq<
    BranchView,
> {
    bs.map_values(
        |b: BranchView|
            if b.namespace == ns && b.name == name {
                BranchView { head_tx: Some(tx), ..b }
            } else {
                b
            },
    )
}

/// Whether a write carries an idempotency key already seen.
pub open spec fn spec_is_duplicate(v: StoreView, p: RecordParams) -> bool {
    p.idempotency_key matches Some(k) && vkey_index(v.idem, k@) != -1
}

/// The store after a (non-duplicate) write whose fact got the id `id`.
pub open spec fn spec_after_record(v: StoreView, p: RecordParams, id: u128) -> StoreView {
    StoreView {
        facts: v.facts.push(spec_new_fact(p, id)),
        txs: spec_txs_after_record(v.txs, p),
        branches: spec_set_head(v.branches, p.namespace@, p.branch@, p.tx_id),
        namespaces: v.namespaces,
        idem: match p.idempotency_key {
            Some(k) => v.idem.push((k@, (FactId(id), p.tx_id))),
            None => v.idem,
        },
        tags: v.tags,
    }
}

/// The root branch of a namespace, as a store creates it.
pub open spec fn spec_root_branch(ns: Seq<char>, created_at: Timestamp) -> BranchView {
    BranchView {
        namespace: ns,
        name: main_branch(),
        parent: None,
        fork_at: None,
        created_at,
        head_tx: None,
        closed: false,
    }
}

/// The items among the first `j` of `s` that satisfy `pred`, in order.
pub open spec fn select<T>(s: Seq<T>, pred: spec_fn(T) -> bool, j: int) -> Seq<T>
    decreases j,
{
    if j <= 0 {
        Seq::empty()
    } else {
        let prev = select(s, pred, j - 1);
        if pred(s[j - 1]) {
            prev.push(s[j - 1])
        } else {
            prev
        }
    }
}

/// The items of `s` that satisfy `pred`, in order.
pub open spec fn select_all<T>(s: Seq<T>, pred: spec_fn(T) -> bool) -> Seq<T> {
    select(s, pred, s.len() as int)
}

/// A timestamp as one number ordered as the timestamps are.
pub open spec fn ts_number(t: Timestamp) -> int {
    t.secs as int * 4294967296 + t.nanos as int
}

/// Ordering branches by creation time.
pub open spec fn by_created_at() -> spec_fn(BranchView) -> KeyView {
    |b: BranchView| KeyView { num: ts_number(b.created_at), text: Seq::empty(), text2: Seq::empty() }
}

/// Ordering namespaces by name.
pub open spec fn by_ns_name() -> spec_fn(NsView) -> KeyView {
    |n: NsView| KeyView { num: 0, text: n.name, text2: Seq::empty() }
}

/// Ordering transactions newest first.
pub open spec fn by_newest_tx() -> spec_fn(TxView) -> KeyView {
    |t: TxView| KeyView { num: -(t.ts as int), text: Seq::empty(), text2: Seq::empty() }
}

/// Ordering tags by label.
pub open spec fn by_label() -> spec_fn((Seq<char>, TxId)) -> KeyView {
    |e: (Seq<char>, TxId)| KeyView { num: 0, text: e.0, text2: Seq::empty() }
}

/// The branches of namespace `ns`, oldest first (ties in store order).
pub open spec fn spec_list_branches(bs: Seq<BranchView>, ns: Seq<char>) -> Seq<BranchView> {
    stable_sort(select_all(bs, |b: BranchView| b.namespace == ns), by_created_at())
}

/// The transactions of branch `ns`/`br`, newest first (ties in store
/// order), at most `limit` of them.
pub open spec fn spec_list_tx(txs: Seq<TxView>, ns: Seq<char>, br: Seq<char>, limit: usize) -> Seq<TxView> {
    let all = stable_sort(select_all(txs, |t: TxView| t.namespace == ns && t.branch == br), by_newest_tx());
    if limit >= all.len() {
        all
    } else {
        all.take(limit as int)
    }
}

/// Whether `f` is a live fact of branch `ns`/`br`.
pub open spec fn live_in(f: FactView, ns: Seq<char>, br: Seq<char>) -> bool {
    f.namespace == ns && f.branch == br && !f.retracted
}

/// The entities of the live facts of branch `ns`/`br`, in store order, with
/// repetitions.
pub open spec fn live_entities(fs: Seq<FactView>, ns: Seq<char>, br: Seq<char>) -> Seq<Seq<char>> {
    select_all(fs, |f: FactView| live_in(f, ns, br)).map_values(|f: FactView| f.entity)
}

/// The attributes of the live facts of `entity` in branch `ns`/`br`, in
/// store order, with repetitions.
pub open spec fn live_attrs(fs: Seq<FactView>, ns: Seq<char>, br: Seq<char>, entity: Seq<char>) -> Seq<Seq<char>> {
    select_all(fs, |f: FactView| live_in(f, ns, br) && f.entity == entity).map_values(|f: FactView| f.attr)
}

/// The number of live facts among the first `j` of `fs`.
pub open spec fn count_live(fs: Seq<FactView>, j: int) -> nat
    decreases j,
{
    if j <= 0 {
        0
    } else {
        count_live(fs, j - 1) + if fs[j - 1].retracted {
            0nat
        } else {
            1nat
        }
    }
}

/// The smallest transaction time among the first `j` of `fs` (0 if none).
pub open spec fn min_tx_time(fs: Seq<FactView>, j: int) -> u64
    decreases j,
{
    if j <= 0 {
        0
    } else if j == 1 {
        fs[0].tx_time
    } else {
        let m = min_tx_time(fs, j - 1);
        if fs[j - 1].tx_time < m {
            fs[j - 1].tx_time
        } else {
            m
        }
    }
}

/// The largest transaction time among the first `j` of `fs` (0 if none).
pub open spec fn max_tx_time(fs: Seq<FactView>, j: int) -> u64
    decreases j,
{
    if j <= 0 {
        0
    } else {
        let m = max_tx_time(fs, j - 1);
        if fs[j - 1].tx_time > m {
            fs[j - 1].tx_time
        } else {
            m
        }
    }
}

/// The counters of a store.
pub open spec fn spec_stats(v: StoreView) -> StoreStats {
    let n = v.facts.len() as int;
    StoreStats {
        namespaces: v.namespaces.len() as usize,
        branches: v.branches.len() as usize,
        facts: count_live(v.facts, n) as usize,
        retracted: (n - count_live(v.facts, n)) as usize,
        transactions: v.txs.len() as usize,
        oldest_tx: min_tx_time(v.facts, n),
        newest_tx: max_tx_time(v.facts, n),
        estimated_bytes: (v.facts.len() * 256 + v.txs.len() * 128) as u64,
    }
}

/// Whether a garbage collection removes `f`: retracted, older than the age
/// bound (if any), on the branch asked for (if any).
pub open spec fn gc_eligible(f: FactView, before_ms: Option<u64>, branch: Option<Seq<char>>) -> bool {
    &&& f.retracted
    &&& (before_ms matches Some(ms) ==> crate::clock::spec_physical(f.tx_time) < ms)
    &&& (branch matches Some(b) ==> b == f.branch)
}

/// The facts a garbage collection keeps.
pub open spec fn gc_kept(fs: Seq<FactView>, p: GcParams) -> Seq<FactView> {
    select_all(fs, |f: FactView| !gc_eligible(f, p.before_ms, opt_branch_view(p.branch)))
}

/// Whether some fact of `fs` belongs to transaction `id`.
pub open spec fn has_fact_of(fs: Seq<FactView>, id: u128) -> bool {
    exists|j: int| 0 <= j < fs.len() && #[trigger] fs[j].tx_id == id
}

/// The transactions that still have a fact in `fs`.
pub open spec fn gc_live_txs(txs: Seq<TxView>, fs: Seq<FactView>) -> Seq<TxView> {
    select_all(txs, |t: TxView| has_fact_of(fs, t.id))
}

/// The query over every live fact of one branch.
pub open spec fn branch_query(ns: Seq<char>, br: Seq<char>) -> ScanView {
    ScanView {
        namespace: ns,
        branch: br,
        entity: None,
        attr: None,
        asof_tx: None,
        asof_valid: None,
        include_retracted: false,
        limit: None,
        offset: None,
    }
}

/// The fact a merge records on the target for the source fact `f`.
pub open spec fn merged_fact(f: FactView, p: MergeParams, tx: TxId, ts: Hlc, id: u128) -> FactView {
    FactView {
        id: id,
        namespace: p.namespace@,
        entity: f.entity,
        attr: f.attr,
        value: f.value,
        valid_from: f.valid_from,
        valid_to: f.valid_to,
        tx_id: tx.0,
        tx_time: ts.0,
        branch: p.target@,
        author: opt_str_view(p.author),
        retracted: false,
        retracted_at: None,
        caused_by: opt_tx_view(p.caused_by),
    }
}

/// The transaction a merge records, as created by its first fact.
pub open spec fn merge_tx(p: MergeParams, tx: TxId, ts: Hlc) -> TxView {
    TxView {
        id: tx.0,
        namespace: p.namespace@,
        branch: p.target@,
        ts: ts.0,
        author: opt_str_view(p.author),
        message: opt_str_view(p.message),
        fact_count: 1,
        caused_by: p.caused_by,
    }
}

/// The transactions after `n` writes in the transaction `t`: `t` counts `n`
/// more facts, or is created with `n` facts.
pub open spec fn spec_bump_tx_n(txs: Seq<TxView>, t: TxView, n: nat) -> Seq<TxView> {
    if n == 0 {
        txs
    } else {
        let i = tx_index(txs, t.id);
        if i == -1 {
            txs.push(TxView { fact_count: n, ..t })
        } else {
            txs.update(i, TxView { fact_count: txs[i].fact_count + n, ..txs[i] })
        }
    }
}

/// The store after a merge that recorded the source facts
/// `src[applied[k]]`, the `k`-th under the fact id `ids[k]`, all in the
/// transaction `tx` at `ts`: the facts are appended, the transaction counts
/// them, and the target head moves to it when anything was recorded.
pub open spec fn spec_after_merge(
    v: StoreView,
    p: MergeParams,
    tx: TxId,
    ts: Hlc,
    src: Seq<FactView>,
    applied: Seq<int>,
    ids: Seq<u128>,
) -> StoreView {
    StoreView {
        facts: v.facts + Seq::new(applied.len(), |k: int| merged_fact(src[applied[k]], p, tx, ts, ids[k])),
        txs: spec_bump_tx_n(v.txs, merge_tx(p, tx, ts), applied.len()),
        branches: if applied.len() == 0 {
            v.branches
        } else {
            spec_set_head(v.branches, p.namespace@, p.target@, tx)
        },
        ..v
    }
}

/// The message of a refused merge conflict.
pub open spec fn conflict_message(f: FactView) -> Seq<char> {
    "entity="@ + f.entity + " attr="@ + f.attr
}

/// The ids of the facts of `fs` from position `from` on.
pub open spec fn ids_from(fs: Seq<FactView>, from: int) -> Seq<u128> {
    fs.subrange(from, fs.len() as int).map_values(|f: FactView| f.id)
}

/// Looking up a transaction only depends on which entries carry the id.
proof fn lemma_tx_index_same(a: Seq<TxView>, b: Seq<TxView>, id: u128, i: int)
    requires
        a.len() == b.len(),
        0 <= i,
        forall|j: int| 0 <= j < a.len() ==> (#[trigger] a[j].id == id) == (b[j].id == id),
    ensures
        tx_index_from(a, id, i) == tx_index_from(b, id, i),
    decreases a.len() - i,
{
    if i < a.len() {
        lemma_tx_index_same(a, b, id, i + 1);
    }
}

/// Where no entry carries the id, appending one that does puts it last.
proof fn lemma_tx_index_push(a: Seq<TxView>, x: TxView, id: u128, i: int)
    requires
        0 <= i <= a.len(),
        tx_index_from(a, id, i) == -1,
        x.id == id,
    ensures
        tx_index_from(a.push(x), id, i) == a.len(),
    decreases a.len() - i,
{
    if i < a.len() {
        lemma_tx_index_push(a, x, id, i + 1);
    }
}

/// What `tx_index_from` finds carries the id.
proof fn lemma_tx_index_found(a: Seq<TxView>, id: u128, i: int)
    requires
        0 <= i,
    ensures
        tx_index_from(a, id, i) == -1 || (i <= tx_index_from(a, id, i) < a.len() && a[tx_index_from(a, id, i)].id == id),
    decreases a.len() - i,
{
    if i < a.len() && a[i].id != id {
        lemma_tx_index_found(a, id, i + 1);
    }
}

/// One more write in the merge transaction.
proof fn lemma_bump_step(txs: Seq<TxView>, t: TxView, k: nat, p: RecordParams)
    requires
        t.fact_count == 1,
        t == (TxView {
            id: p.tx_id.0,
            namespace: p.namespace@,
            branch: p.branch@,
            ts: p.tx_time.0,
            author: opt_str_view(p.author),
            message: opt_str_view(p.message),
            fact_count: 1,
            caused_by: p.caused_by,
        }),
    ensures
        spec_txs_after_record(spec_bump_tx_n(txs, t, k), p) == spec_bump_tx_n(txs, t, k + 1),
{
    let i0 = tx_index(txs, t.id);
    lemma_tx_index_found(txs, t.id, 0);
    if k > 0 {
        let b = spec_bump_tx_n(txs, t, k);
        if i0 == -1 {
            lemma_tx_index_push(txs, TxView { fact_count: k, ..t }, t.id, 0);
            assert(tx_index(b, t.id) == txs.len());
            assert(spec_txs_after_record(b, p) =~= spec_bump_tx_n(txs, t, k + 1));
        } else {
            lemma_tx_index_same(txs, b, t.id, 0);
            assert(spec_txs_after_record(b, p) =~= spec_bump_tx_n(txs, t, k + 1));
        }
    } else {
        assert(spec_txs_after_record(txs, p) =~= spec_bump_tx_n(txs, t, 1));
    }
}

/// Moving a branch head twice to the same transaction is moving it once.
proof fn lemma_set_head_twice(bs: Seq<BranchView>, ns: Seq<char>, name: Seq<char>, tx: TxId)
    ensures
        spec_set_head(spec_set_head(bs, ns, name, tx), ns, name, tx) == spec_set_head(bs, ns, name, tx),
{
    assert(spec_set_head(spec_set_head(bs, ns, name, tx), ns, name, tx) =~= spec_set_head(bs, ns, name, tx));
}

/// The items `select` keeps are at most the items looked at.
pub proof fn lemma_select_len<T>(s: Seq<T>, pred: spec_fn(T) -> bool, j: int)
    requires
        0 <= j,
    ensures
        select(s, pred, j).len() <= j,
    decreases j,
{
    if j > 0 {
        lemma_select_len(s, pred, j - 1);
    }
}

/// A scan answers at most as many facts as the store holds.
pub proof fn lemma_scan_len(fs: Seq<FactView>, q: ScanView)
    ensures
        spec_scan(fs, q).len() <= fs.len(),
{
    lemma_scan_filter_len(fs, q, fs.len() as int);
    lemma_stable_sort_len(spec_scan_filter(fs, q, fs.len() as int), by_newest_first());
}

proof fn lemma_scan_filter_len(fs: Seq<FactView>, q: ScanView, j: int)
    requires
        0 <= j,
    ensures
        spec_scan_filter(fs, q, j).len() <= j,
    decreases j,
{
    if j > 0 {
        lemma_scan_filter_len(fs, q, j - 1);
    }
}

/// The point in time of an HLC's physical part.
pub open spec fn spec_datetime(h: u64) -> Timestamp {
    Timestamp {
        secs: (crate::clock::spec_physical(h) / 1000) as i64,
        nanos: ((crate::clock::spec_physical(h) % 1000) * 1_000_000) as u32,
    }
}

/// Whether `f` is the live fact `id` of branch `ns`/`br`.
pub open spec fn retract_target(f: FactView, id: u128, ns: Seq<char>, br: Seq<char>) -> bool {
    f.id == id && !f.retracted && f.branch == br && f.namespace == ns
}

/// The index of the first live fact `id` of branch `ns`/`br` from `i` on, or
/// -1.
pub open spec fn retract_index_from(fs: Seq<FactView>, id: u128, ns: Seq<char>, br: Seq<char>, i: int) -> int
    decreases fs.len() - i,
{
    if i < 0 || i >= fs.len() {
        -1
    } else if retract_target(fs[i], id, ns, br) {
        i
    } else {
        retract_index_from(fs, id, ns, br, i + 1)
    }
}

/// The index `retract_index_from` finds is in range and names a live fact
/// `id` of the branch.
pub proof fn lemma_retract_index(fs: Seq<FactView>, id: u128, ns: Seq<char>, br: Seq<char>, i: int)
    requires
        0 <= i,
    ensures
        retract_index_from(fs, id, ns, br, i) == -1 || (i <= retract_index_from(fs, id, ns, br, i)
            < fs.len() && retract_target(fs[retract_index_from(fs, id, ns, br, i)], id, ns, br)),
    decreases fs.len() - i,
{
    if i < fs.len() && !retract_target(fs[i], id, ns, br) {
        lemma_retract_index(fs, id, ns, br, i + 1);
    }
}

/// The index of the first live fact `id` of branch `ns`/`br`, or -1.
pub open spec fn retract_index(fs: Seq<FactView>, id: u128, ns: Seq<char>, br: Seq<char>) -> int {
    retract_index_from(fs, id, ns, br, 0)
}

/// The store after retracting the fact at index `i`: the fact is marked
/// retracted, keeps the retraction's transaction time, and stops being valid
/// at the retraction's instant, a transaction
/// of one fact is appended, and the branch head moves to it.
pub open spec fn spec_after_retract(v: StoreView, i: int, p: RetractParams) -> StoreView {
    StoreView {
        facts: v.facts.update(
            i,
            FactView {
                retracted: true,
                retracted_at: Some(p.tx_time.0),
                valid_to: Some(spec_datetime(p.tx_time.0)),
                ..v.facts[i]
            },
        ),
        txs: v.txs.push(
            TxView {
                id: p.tx_id.0,
                namespace: p.namespace@,
                branch: p.branch@,
                ts: p.tx_time.0,
                author: opt_str_view(p.author),
                message: opt_str_view(p.message),
                fact_count: 1,
                caused_by: None,
            },
        ),
        branches: spec_set_head(v.branches, p.namespace@, p.branch@, p.tx_id),
        ..v
    }
}

/// Whether `f` counts as live for a read as of transaction time `asof`: it
/// is not retracted, or the read is as of a time before the transaction
/// that retracted it.
pub open spec fn spec_live_at(f: FactView, asof: Option<u64>) -> bool {
    ||| !f.retracted
    ||| (asof matches Some(t) && f.retracted_at matches Some(r) && t < r)
}

/// Whether a fact answers a scan query: same namespace and branch, the
/// entity and attribute asked for (if any), live (as of the as-of time, see
/// `spec_live_at`) unless retracted facts are asked for, recorded at or
/// before the as-of transaction time, and valid at the effective instant
/// (`valid_from <= at < valid_to`).
pub open spec fn spec_scan_match(q: ScanView, f: FactView) -> bool {
    &&& f.namespace == q.namespace
    &&& f.branch == q.branch
    &&& (q.entity matches Some(e) ==> e == f.entity)
    &&& (q.attr matches Some(a) ==> a == f.attr)
    &&& (q.include_retracted || spec_live_at(f, q.asof_tx))
    &&& (q.asof_tx matches Some(t) ==> f.tx_time <= t)
    &&& (q.asof_valid matches Some(at) ==> ts_le(f.valid_from, at) && (f.valid_to matches Some(
        vt,
    ) ==> ts_lt(at, vt)))
}

/// The facts among the first `j` of `fs` that answer `q`, in store order.
pub open spec fn spec_scan_filter(fs: Seq<FactView>, q: ScanView, j: int) -> Seq<FactView>
    decreases j,
{
    if j <= 0 {
        Seq::empty()
    } else {
        let prev = spec_scan_filter(fs, q, j - 1);
        if spec_scan_match(q, fs[j - 1]) {
            prev.push(fs[j - 1])
        } else {
            prev
        }
    }
}

/// The sort key that puts later transaction times first.
pub open spec fn newest_first(f: FactView) -> KeyView {
    KeyView { num: -(f.tx_time as int), text: Seq::empty(), text2: Seq::empty() }
}

/// Ordering facts newest first.
pub open spec fn by_newest_first() -> spec_fn(FactView) -> KeyView {
    |f: FactView| newest_first(f)
}

/// The page of `s` that skips `offset` items (none when absent) and keeps at
/// most `limit` (all when absent).
pub open spec fn spec_page<T>(s: Seq<T>, offset: Option<usize>, limit: Option<usize>) -> Seq<T> {
    let off: int = match offset {
        Some(o) => o as int,
        None => 0,
    };
    if off >= s.len() {
        Seq::empty()
    } else {
        let rest = s.subrange(off, s.len() as int);
        match limit {
            Some(l) => if l >= rest.len() {
                rest
            } else {
                rest.take(l as int)
            },
            None => rest,
        }
    }
}

/// The answer to a scan: the matching facts, newest transaction time first
/// (ties in store order), paged.
pub open spec fn spec_scan(fs: Seq<FactView>, q: ScanView) -> Seq<FactView> {
    spec_page(stable_sort(spec_scan_filter(fs, q, fs.len() as int), by_newest_first()), q.offset, q.limit)
}

/// Whether `f` answers `q`.
fn fact_matches(q: &ScanQuery, f: &Fact) -> (b: bool)
    ensures
        b == spec_scan_match(q@, f@),
{
    if !f.namespace.same(&q.namespace) || !f.branch.same(&q.branch) {
        return false;
    }
    if let Some(e) = &q.entity {
        if !e.same(&f.entity) {
            return false;
        }
    }
    if let Some(a) = &q.attr {
        if !a.same(&f.attr) {
            return false;
        }
    }
    if !q.include_retracted && f.retracted {
        let still_live = match (q.asof_tx, f.retracted_at) {
            (Some(t), Some(r)) => t.0 < r.0,
            _ => false,
        };
        if !still_live {
            return false;
        }
    }
    if let Some(t) = q.asof_tx {
        if f.tx_time.0 > t.0 {
            return false;
        }
    }
    if let Some(at) = q.asof_valid {
        if !f.valid_from.le(&at) {
            return false;
        }
        if let Some(vt) = f.valid_to {
            if !at.lt(&vt) {
                return false;
            }
        }
    }
    true
}

/// The facts of `fs` that answer `q`, newest first, paged.
pub fn scan_facts(fs: &Vec<Fact>, q: &ScanQuery) -> (r: Vec<Fact>)
    ensures
        fv(r@) == spec_scan(fv(fs@), q@),
{
    let ghost key2 = |f: Fact| newest_first(f@);
    let ghost vs = fv(fs@);
    let mut picked: Vec<Fact> = Vec::new();
    let mut keys: Vec<SortKey> = Vec::new();
    let mut i: usize = 0;
    while i < fs.len()
        invariant
            i <= fs@.len(),
            vs == fv(fs@),
            fv(picked@) == spec_scan_filter(vs, q@, i as int),
            picked@.len() == keys@.len(),
            forall|m: int| 0 <= m < keys@.len() ==> #[trigger] keys@[m]@ == key2(picked@[m]),
            key2 == (|f: Fact| newest_first(f@)),
        decreases fs@.len() - i,
    {
        assert(vs[i as int] == fs@[i as int]@);
        if fact_matches(q, &fs[i]) {
            let ghost before = picked@;
            let k = SortKey::number(-(fs[i].tx_time.0 as i128));
            picked.push(fs[i].clone());
            keys.push(k);
            assert(fv(picked@) =~= fv(before).push(vs[i as int]));
        }
        i = i + 1;
    }
    let ghost p = picked@;
    let sorted = sort_stable(picked, keys, Ghost(key2));
    proof {
        lemma_sort_views(p, |f: Fact| f@, by_newest_first(), key2);
        lemma_stable_sort_len(p, key2);
        assert(fv(p) == spec_scan_filter(vs, q@, fs@.len() as int));
    }
    let ghost srt = fv(sorted@);
    let off: usize = match q.offset {
        Some(o) => o,
        None => 0,
    };
    let mut out: Vec<Fact> = Vec::new();
    if off >= sorted.len() {
        assert(fv(out@) =~= spec_scan(vs, q@));
        return out;
    }
    let lim: usize = match q.limit {
        Some(l) => l,
        None => usize::MAX,
    };
    let mut k: usize = off;
    while k < sorted.len() && out.len() < lim
        invariant
            lim == (match q.limit {
                Some(l) => l,
                None => usize::MAX,
            }),
            off <= k <= sorted@.len(),
            out@.len() == k - off,
            srt == fv(sorted@),
            fv(out@) == srt.subrange(off as int, k as int),
            out@.len() <= lim,
        decreases sorted@.len() - k,
    {
        let ghost before = out@;
        out.push(sorted[k].clone());
        assert(fv(out@) =~= srt.subrange(off as int, k + 1));
        k = k + 1;
    }
    assert(fv(out@) =~= spec_scan(vs, q@));
    out
}

/// The index of the branch `ns`/`name` in `bs`.
fn find_branch(bs: &Vec<BranchInfo>, ns: &Namespace, name: &BranchName) -> (r: Option<usize>)
    ensures
        r matches Some(i) ==> i == branch_index(bs@.map_values(|b: BranchInfo| b@), ns@, name@) && i
            < bs@.len(),
        r is None ==> branch_index(bs@.map_values(|b: BranchInfo| b@), ns@, name@) == -1,
{
    let ghost v = bs@.map_values(|b: BranchInfo| b@);
    let mut i: usize = 0;
    while i < bs.len()
        invariant
            i <= bs@.len(),
            v == bs@.map_values(|b: BranchInfo| b@),
            branch_index(v, ns@, name@) == branch_index_from(v, ns@, name@, i as int),
        decreases bs@.len() - i,
    {
        assert(v[i as int] == bs@[i as int]@);
        if bs[i].namespace.same(ns) && bs[i].name.same(name) {
            return Some(i);
        }
        i = i + 1;
    }
    None
}

/// The index of the namespace `name` in `nss`.
fn find_namespace(nss: &Vec<NamespaceInfo>, name: &Namespace) -> (r: Option<usize>)
    ensures
        r matches Some(i) ==> i == ns_index(nss@.map_values(|n: NamespaceInfo| n@), name@) && i
            < nss@.len(),
        r is None ==> ns_index(nss@.map_values(|n: NamespaceInfo| n@), name@) == -1,
{
    let ghost v = nss@.map_values(|n: NamespaceInfo| n@);
    let mut i: usize = 0;
    while i < nss.len()
        invariant
            i <= nss@.len(),
            v == nss@.map_values(|n: NamespaceInfo| n@),
            ns_index(v, name@) == ns_index_from(v, name@, i as int),
        decreases nss@.len() - i,
    {
        assert(v[i as int] == nss@[i as int]@);
        if nss[i].name.same(name) {
            return Some(i);
        }
        i = i + 1;
    }
    None
}

/// What `branch_index_from` finds is the branch asked for, and no earlier
/// branch from `i` on is.
pub proof fn lemma_branch_index_from(bs: Seq<BranchView>, ns: Seq<char>, name: Seq<char>, i: int)
    requires
        0 <= i,
    ensures
        branch_index_from(bs, ns, name, i) == -1 || (i <= branch_index_from(bs, ns, name, i) < bs.len()
            && bs[branch_index_from(bs, ns, name, i)].namespace == ns && bs[branch_index_from(
            bs,
            ns,
            name,
            i,
        )].name == name),
        forall|j: int|
            i <= j < bs.len() && (branch_index_from(bs, ns, name, i) == -1 || j < branch_index_from(
                bs,
                ns,
                name,
                i,
            )) ==> !(#[trigger] bs[j].namespace == ns && bs[j].name == name),
    decreases bs.len() - i,
{
    if i < bs.len() && !(bs[i].namespace == ns && bs[i].name == name) {
        lemma_branch_index_from(bs, ns, name, i + 1);
    }
}

/// What `ns_index_from` finds is the namespace asked for, and no earlier one
/// from `i` on is.
pub proof fn lemma_ns_index_from(nss: Seq<NsView>, name: Seq<char>, i: int)
    requires
        0 <= i,
    ensures
        ns_index_from(nss, name, i) == -1 || (i <= ns_index_from(nss, name, i) < nss.len()
            && nss[ns_index_from(nss, name, i)].name == name),
        forall|j: int|
            i <= j < nss.len() && (ns_index_from(nss, name, i) == -1 || j < ns_index_from(nss, name, i))
                ==> #[trigger] nss[j].name != name,
    decreases nss.len() - i,
{
    if i < nss.len() && nss[i].name != name {
        lemma_ns_index_from(nss, name, i + 1);
    }
}

/// Counts one more fact in the transaction `p.tx_id` of `txs`, creating it
/// when it does not exist.
fn bump_tx_in(txs: &mut Vec<Transaction>, p: &RecordParams)
    requires
        forall|i: int| 0 <= i < old(txs)@.len() ==> #[trigger] old(txs)@[i].fact_count + 1 <= usize::MAX,
    ensures
        final(txs)@.map_values(|t: Transaction| t@) == spec_txs_after_record(
            old(txs)@.map_values(|t: Transaction| t@),
            *p,
        ),
{
    let ghost orig = txs@.map_values(|t: Transaction| t@);
    let mut i: usize = 0;
    while i < txs.len()
        invariant
            txs@.map_values(|t: Transaction| t@) == orig,
            orig == old(txs)@.map_values(|t: Transaction| t@),
            orig.len() == txs@.len(),
            forall|j: int| 0 <= j < txs@.len() ==> #[trigger] txs@[j].fact_count + 1 <= usize::MAX,
            i <= txs@.len(),
            tx_index(orig, p.tx_id.0) == tx_index_from(orig, p.tx_id.0, i as int),
        decreases txs@.len() - i,
    {
        assert(orig[i as int] == txs@[i as int]@);
        if txs[i].id.0 == p.tx_id.0 {
            assert(tx_index(orig, p.tx_id.0) == i);
            let mut t = txs[i].clone();
            t.fact_count = t.fact_count + 1;
            assert(t@ == TxView { fact_count: orig[i as int].fact_count + 1, ..orig[i as int] });
            txs.set(i, t);
            assert(txs@.map_values(|t: Transaction| t@) =~= spec_txs_after_record(orig, *p));
            return;
        }
        i = i + 1;
    }
    txs.push(
        Transaction {
            id: p.tx_id,
            namespace: p.namespace.clone(),
            branch: p.branch.clone(),
            ts: p.tx_time,
            author: copy_opt_string(&p.author),
            message: copy_opt_string(&p.message),
            fact_count: 1,
            caused_by: p.caused_by,
        },
    );
    assert(txs@.map_values(|t: Transaction| t@) =~= spec_txs_after_record(orig, *p));
}

/// Moves the head of branch `ns`/`name` in `bs` to `tx`.
fn set_head_in(bs: &mut Vec<BranchInfo>, ns: &Namespace, name: &BranchName, tx: TxId)
    ensures
        final(bs)@.map_values(|b: BranchInfo| b@) == spec_set_head(
            old(bs)@.map_values(|b: BranchInfo| b@),
            ns@,
            name@,
            tx,
        ),
{
    let ghost orig = bs@;
    let ghost target = spec_set_head(orig.map_values(|b: BranchInfo| b@), ns@, name@, tx);
    let mut i: usize = 0;
    while i < bs.len()
        invariant
            i <= bs@.len(),
            bs@.len() == orig.len(),
            target == spec_set_head(orig.map_values(|b: BranchInfo| b@), ns@, name@, tx),
            forall|j: int| 0 <= j < i ==> #[trigger] bs@[j]@ == target[j],
            forall|j: int| i <= j < bs@.len() ==> #[trigger] bs@[j] == orig[j],
        decreases bs@.len() - i,
    {
        if bs[i].namespace.same(ns) && bs[i].name.same(name) {
            let mut b = bs[i].clone();
            b.head_tx = Some(tx);
            bs.set(i, b);
        }
        i = i + 1;
    }
    assert(bs@.map_values(|b: BranchInfo| b@) =~= target);
}

impl MemoryStore {
    /// Whether every transaction can count `n` more facts.
    pub fn has_room_for(&self, n: usize) -> (b: bool)
        ensures
            b == spec_room_for(self@, n as nat),
    {
        let mut i: usize = 0;
        while i < self.transactions.len()
            invariant
                i <= self.transactions@.len(),
                forall|j: int| 0 <= j < i ==> #[trigger] self@.txs[j].fact_count + n <= usize::MAX,
            decreases self.transactions@.len() - i,
        {
            if self.transactions[i].fact_count > usize::MAX - n {
                assert(self@.txs[i as int].fact_count + n > usize::MAX);
                return false;
            }
            i = i + 1;
        }
        true
    }

    /// A store holding the `default` namespace (last-write-wins, no schema)
    /// and its root branch `main`, and nothing else.
    pub fn new() -> (s: MemoryStore)
        ensures
            spec_wf(s@),
            s@.facts.len() == 0,
            s@.txs.len() == 0,
            s@.idem.len() == 0,
            s@.tags.len() == 0,
            s@.namespaces.len() == 1,
            s@.namespaces[0].name == default_namespace(),
            s@.namespaces[0].merge_policy == MergePolicy::LastWriteWins,
            s@.namespaces[0].schema is None,
            s@.branches.len() == 1,
            s@.branches[0] == spec_root_branch(default_namespace(), s@.branches[0].created_at),
    {
        let mut namespaces: Vec<NamespaceInfo> = Vec::new();
        namespaces.push(
            NamespaceInfo {
                name: Namespace::default(),
                merge_policy: MergePolicy::LastWriteWins,
                schema: None,
                created_at: utc_now(),
            },
        );
        let mut branches: Vec<BranchInfo> = Vec::new();
        branches.push(
            BranchInfo {
                namespace: Namespace::default(),
                name: BranchName::main(),
                parent: None,
                fork_at: None,
                created_at: utc_now(),
                head_tx: None,
                closed: false,
            },
        );
        let s = MemoryStore {
            facts: Vec::new(),
            transactions: Vec::new(),
            branches,
            namespaces,
            idem_cache: Vec::new(),
            tags: Vec::new(),
        };
        assert(s@.branches[0].namespace == default_namespace());
        assert(ns_index(s@.namespaces, default_namespace()) == 0);
        s
    }

    /// Records a fact. A write whose idempotency key was seen before writes
    /// nothing and returns the earlier write's ids; otherwise the fact is
    /// appended under a fresh id, its transaction counts it (or is created),
    /// the branch head moves to the transaction, and the key is remembered.
    pub fn record(&mut self, p: RecordParams) -> (r: RecordResult)
        requires
            spec_wf(old(self)@),
            spec_room_for(old(self)@, 1),
        ensures
            spec_wf(final(self)@),
            spec_is_duplicate(old(self)@, p) ==> ({
                let i = vkey_index(old(self)@.idem, p.idempotency_key->0@);
                &&& r == RecordResult {
                    fact_id: old(self)@.idem[i].1.0,
                    tx_id: old(self)@.idem[i].1.1,
                    was_duplicate: true,
                }
                &&& final(self)@ == old(self)@
            }),
            !spec_is_duplicate(old(self)@, p) ==> ({
                &&& !r.was_duplicate
                &&& r.tx_id == p.tx_id
                &&& final(self)@ == spec_after_record(old(self)@, p, r.fact_id.0)
            }),
    {
        if let Some(key) = &p.idempotency_key {
            match find_key(&self.idem_cache, key.as_str()) {
                Some(i) => {
                    proof {
                        lemma_key_index_view(self.idem_cache@, key@, 0);
                    }
                    let (fid, tid) = self.idem_cache[i].1;
                    return RecordResult { fact_id: fid, tx_id: tid, was_duplicate: true };
                },
                None => {
                    proof {
                        lemma_key_index_view(self.idem_cache@, key@, 0);
                    }
                },
            }
        }
        let ghost old_v = self@;
        let fact_id = FactId::new();
        let fact = Fact {
            id: fact_id,
            namespace: p.namespace.clone(),
            entity: p.entity.clone(),
            attr: p.attr.clone(),
            value: p.value.clone(),
            valid_from: p.valid_from,
            valid_to: p.valid_to,
            tx_id: p.tx_id,
            tx_time: p.tx_time,
            branch: p.branch.clone(),
            author: copy_opt_string(&p.author),
            retracted: false,
            retracted_at: None,
            caused_by: p.caused_by,
        };
        self.facts.push(fact);
        assert(self@.facts =~= old_v.facts.push(spec_new_fact(p, fact_id.0)));
        self.bump_tx(&p);
        self.set_head(&p.namespace, &p.branch, p.tx_id);
        if let Some(key) = &p.idempotency_key {
            let ghost before = self.idem_cache@;
            self.idem_cache.push((copy_string(key), (fact_id, p.tx_id)));
            proof {
                assert(names_view(self.idem_cache@) =~= names_view(before).push((key@, (fact_id, p.tx_id))));
                let s = names_view(self.idem_cache@);
                lemma_vkey_index_from(names_view(before), key@, 0);
                assert forall|i: int, j: int| 0 <= i < s.len() && 0 <= j < s.len() && i != j implies #[trigger] s[i].0 != #[trigger] s[j].0 by {
                    if i < before.len() && j < before.len() {
                        assert(s[i] == names_view(before)[i]);
                        assert(s[j] == names_view(before)[j]);
                    } else if i < before.len() {
                        assert(s[i] == names_view(before)[i]);
                    } else if j < before.len() {
                        assert(s[j] == names_view(before)[j]);
                    }
                }
            }
        }
        assert(self@.facts == spec_after_record(old_v, p, fact_id.0).facts);
        RecordResult { fact_id, tx_id: p.tx_id, was_duplicate: false }
    }

    /// Counts one more fact in the transaction `p.tx_id`, creating it when it
    /// does not exist.
    fn bump_tx(&mut self, p: &RecordParams)
        requires
            spec_room_for(old(self)@, 1),
        ensures
            final(self)@ == (StoreView { txs: spec_txs_after_record(old(self)@.txs, *p), ..old(self)@ }),
    {
        assert forall|i: int| 0 <= i < self.transactions@.len() implies #[trigger] self.transactions@[i].fact_count
            + 1 <= usize::MAX by {
            assert(self@.txs[i] == self.transactions@[i]@);
            assert(old(self)@.txs[i].fact_count + 1 <= usize::MAX);
        }
        bump_tx_in(&mut self.transactions, p);
    }

    /// Moves the head of branch `ns`/`name` to `tx`.
    fn set_head(&mut self, ns: &Namespace, name: &BranchName, tx: TxId)
        ensures
            final(self)@ == (StoreView { branches: spec_set_head(old(self)@.branches, ns@, name@, tx), ..old(self)@ }),
    {
        set_head_in(&mut self.branches, ns, name, tx);
    }

    /// The first fact `id`, or `FactNotFound(id)`.
    pub fn get_fact(&self, id: FactId) -> (r: Result<Fact, Error>)
        ensures
            fact_index(self@.facts, id.0) == -1 ==> (r matches Err(Error::FactNotFound(x)) && x == id),
            fact_index(self@.facts, id.0) != -1 ==> (r matches Ok(f) && f@ == self@.facts[fact_index(self@.facts, id.0)]),
    {
        let mut i: usize = 0;
        while i < self.facts.len()
            invariant
                i <= self.facts@.len(),
                fact_index(self@.facts, id.0) == fact_index_from(self@.facts, id.0, i as int),
            decreases self.facts@.len() - i,
        {
            if self.facts[i].id.0 == id.0 {
                return Ok(self.facts[i].clone());
            }
            i = i + 1;
        }
        Err(Error::FactNotFound(id))
    }

    /// The first transaction `id`, or `TxNotFound(id)`.
    pub fn get_tx(&self, id: &TxId) -> (r: Result<Transaction, Error>)
        ensures
            tx_index(self@.txs, id.0) == -1 ==> (r matches Err(Error::TxNotFound(x)) && x == *id),
            tx_index(self@.txs, id.0) != -1 ==> (r matches Ok(t) && t@ == self@.txs[tx_index(self@.txs, id.0)]),
    {
        let mut i: usize = 0;
        while i < self.transactions.len()
            invariant
                i <= self.transactions@.len(),
                tx_index(self@.txs, id.0) == tx_index_from(self@.txs, id.0, i as int),
            decreases self.transactions@.len() - i,
        {
            if self.transactions[i].id.0 == id.0 {
                return Ok(self.transactions[i].clone());
            }
            i = i + 1;
        }
        Err(Error::TxNotFound(*id))
    }

    /// The branch `ns`/`name`, or `BranchNotFound(name, ns)`.
    pub fn get_branch(&self, ns: &Namespace, name: &BranchName) -> (r: Result<BranchInfo, Error>)
        ensures
            branch_index(self@.branches, ns@, name@) == -1 ==> (r matches Err(
                Error::BranchNotFound(b, n),
            ) && b@ == name@ && n@ == ns@),
            branch_index(self@.branches, ns@, name@) != -1 ==> (r matches Ok(b) && b@
                == self@.branches[branch_index(self@.branches, ns@, name@)]),
    {
        match find_branch(&self.branches, ns, name) {
            Some(i) => Ok(self.branches[i].clone()),
            None => Err(Error::BranchNotFound(name.clone(), ns.clone())),
        }
    }

    /// Creates the branch `ns`/`name`, forked from `fork_from` at `fork_at`,
    /// with no head yet. The namespace must exist (`NamespaceNotFound`) and
    /// the branch must not (`BranchExists`); on error nothing changes.
    pub fn create_branch(&mut self, ns: &Namespace, name: BranchName, fork_from: BranchName, fork_at: Hlc) -> (r:
        Result<(), Error>)
        requires
            spec_wf(old(self)@),
        ensures
            spec_wf(final(self)@),
            ns_index(old(self)@.namespaces, ns@) == -1 ==> (r matches Err(Error::NamespaceNotFound(n))
                && n@ == ns@ && final(self)@ == old(self)@),
            ns_index(old(self)@.namespaces, ns@) != -1 && branch_index(old(self)@.branches, ns@, name@)
                != -1 ==> (r matches Err(Error::BranchExists(b, n)) && b@ == name@ && n@ == ns@
                && final(self)@ == old(self)@),
            ns_index(old(self)@.namespaces, ns@) != -1 && branch_index(old(self)@.branches, ns@, name@)
                == -1 ==> (r is Ok && final(self)@ == (StoreView {
                branches: old(self)@.branches.push(
                    BranchView {
                        namespace: ns@,
                        name: name@,
                        parent: Some(fork_from@),
                        fork_at: Some(fork_at),
                        created_at: final(self)@.branches.last().created_at,
                        head_tx: None,
                        closed: false,
                    },
                ),
                ..old(self)@
            })),
    {
        if find_namespace(&self.namespaces, ns).is_none() {
            return Err(Error::NamespaceNotFound(ns.clone()));
        }
        if find_branch(&self.branches, ns, &name).is_some() {
            return Err(Error::BranchExists(name, ns.clone()));
        }
        let ghost old_v = self@;
        proof {
            lemma_branch_index_from(old_v.branches, ns@, name@, 0);
        }
        self.branches.push(
            BranchInfo {
                namespace: ns.clone(),
                name,
                parent: Some(fork_from),
                fork_at: Some(fork_at),
                created_at: utc_now(),
                head_tx: None,
                closed: false,
            },
        );
        proof {
            let bs = self@.branches;
            assert(bs =~= old_v.branches.push(bs.last()));
            assert forall|i: int, j: int|
                0 <= i < bs.len() && 0 <= j < bs.len() && i != j implies !(#[trigger] bs[i].namespace
                == #[trigger] bs[j].namespace && bs[i].name == bs[j].name) by {
                if i < old_v.branches.len() && j < old_v.branches.len() {
                    assert(bs[i] == old_v.branches[i] && bs[j] == old_v.branches[j]);
                } else if i < old_v.branches.len() {
                    assert(bs[i] == old_v.branches[i]);
                } else {
                    assert(bs[j] == old_v.branches[j]);
                }
            }
            assert forall|i: int| 0 <= i < bs.len() implies ns_index(
                self@.namespaces,
                #[trigger] bs[i].namespace,
            ) != -1 by {
                if i < old_v.branches.len() {
                    assert(bs[i] == old_v.branches[i]);
                }
            }
        }
        Ok(())
    }

    /// Deletes the branch `ns`/`name`: `BranchNotFound` when there is none,
    /// `CannotDeleteRoot` when it has no parent; on error nothing changes.
    pub fn delete_branch(&mut self, ns: &Namespace, name: &BranchName) -> (r: Result<(), Error>)
        requires
            spec_wf(old(self)@),
        ensures
            spec_wf(final(self)@),
            ({
                let i = branch_index(old(self)@.branches, ns@, name@);
                &&& i == -1 ==> (r matches Err(Error::BranchNotFound(b, n)) && b@ == name@ && n@
                    == ns@ && final(self)@ == old(self)@)
                &&& i != -1 && old(self)@.branches[i].parent is None ==> (r matches Err(
                    Error::CannotDeleteRoot(b, n),
                ) && b@ == name@ && n@ == ns@ && final(self)@ == old(self)@)
                &&& i != -1 && old(self)@.branches[i].parent is Some ==> (r is Ok && final(self)@
                    == (StoreView { branches: old(self)@.branches.remove(i), ..old(self)@ }))
            }),
    {
        match find_branch(&self.branches, ns, name) {
            None => Err(Error::BranchNotFound(name.clone(), ns.clone())),
            Some(i) => {
                assert(self@.branches[i as int] == self.branches@[i as int]@);
                if self.branches[i].parent.is_none() {
                    return Err(Error::CannotDeleteRoot(name.clone(), ns.clone()));
                }
                let ghost old_v = self@;
                self.branches.remove(i);
                proof {
                    let bs = self@.branches;
                    assert(bs =~= old_v.branches.remove(i as int));
                    assert forall|a: int, b: int|
                        0 <= a < bs.len() && 0 <= b < bs.len() && a != b implies !(
                        #[trigger] bs[a].namespace == #[trigger] bs[b].namespace && bs[a].name
                            == bs[b].name) by {
                        let a2 = if a < i { a } else { a + 1 };
                        let b2 = if b < i { b } else { b + 1 };
                        assert(bs[a] == old_v.branches[a2] && bs[b] == old_v.branches[b2]);
                    }
                    assert forall|a: int| 0 <= a < bs.len() implies ns_index(
                        self@.namespaces,
                        #[trigger] bs[a].namespace,
                    ) != -1 by {
                        let a2 = if a < i { a } else { a + 1 };
                        assert(bs[a] == old_v.branches[a2]);
                    }
                }
                Ok(())
            },
        }
    }

    /// The namespace `ns`, or `NamespaceNotFound(ns)`.
    pub fn get_namespace(&self, ns: &Namespace) -> (r: Result<NamespaceInfo, Error>)
        ensures
            ns_index(self@.namespaces, ns@) == -1 ==> (r matches Err(Error::NamespaceNotFound(n))
                && n@ == ns@),
            ns_index(self@.namespaces, ns@) != -1 ==> (r matches Ok(n) && n@
                == self@.namespaces[ns_index(self@.namespaces, ns@)]),
    {
        match find_namespace(&self.namespaces, ns) {
            Some(i) => Ok(self.namespaces[i].clone()),
            None => Err(Error::NamespaceNotFound(ns.clone())),
        }
    }

    /// Creates the namespace `ns` with the given merge policy and schema, and
    /// its root branch `main`; `NamespaceExists` (and no change) when it
    /// exists already.
    pub fn create_namespace(&mut self, ns: Namespace, opts: NamespaceOpts) -> (r: Result<(), Error>)
        requires
            spec_wf(old(self)@),
        ensures
            spec_wf(final(self)@),
            ns_index(old(self)@.namespaces, ns@) != -1 ==> (r matches Err(Error::NamespaceExists(n))
                && n@ == ns@ && final(self)@ == old(self)@),
            ns_index(old(self)@.namespaces, ns@) == -1 ==> (r is Ok && final(self)@ == (StoreView {
                namespaces: old(self)@.namespaces.push(
                    NsView {
                        name: ns@,
                        merge_policy: opts.merge_policy,
                        schema: opt_schema_view(opts.schema),
                        created_at: final(self)@.namespaces.last().created_at,
                    },
                ),
                branches: old(self)@.branches.push(
                    spec_root_branch(ns@, final(self)@.branches.last().created_at),
                ),
                ..old(self)@
            })),
    {
        if find_namespace(&self.namespaces, &ns).is_some() {
            return Err(Error::NamespaceExists(ns));
        }
        let ghost old_v = self@;
        proof {
            lemma_ns_index_from(old_v.namespaces, ns@, 0);
        }
        let ns2 = ns.clone();
        self.namespaces.push(
            NamespaceInfo {
                name: ns,
                merge_policy: opts.merge_policy,
                schema: opts.schema,
                created_at: utc_now(),
            },
        );
        self.branches.push(
            BranchInfo {
                namespace: ns2,
                name: BranchName::main(),
                parent: None,
                fork_at: None,
                created_at: utc_now(),
                head_tx: None,
                closed: false,
            },
        );
        proof {
            let nss = self@.namespaces;
            let bs = self@.branches;
            let name = nss.last().name;
            assert(nss =~= old_v.namespaces.push(nss.last()));
            assert(bs =~= old_v.branches.push(bs.last()));
            assert forall|i: int, j: int|
                0 <= i < nss.len() && 0 <= j < nss.len() && i != j implies #[trigger] nss[i].name
                != #[trigger] nss[j].name by {
                if i < old_v.namespaces.len() && j < old_v.namespaces.len() {
                    assert(nss[i] == old_v.namespaces[i] && nss[j] == old_v.namespaces[j]);
                } else if i < old_v.namespaces.len() {
                    assert(nss[i] == old_v.namespaces[i]);
                } else {
                    assert(nss[j] == old_v.namespaces[j]);
                }
            }
            assert(ns_index(nss, name) != -1) by {
                lemma_ns_index_from(nss, name, 0);
                if ns_index(nss, name) == -1 {
                    assert(nss[nss.len() - 1].name == name);
                }
            }
            assert forall|k: int| 0 <= k < old_v.namespaces.len() implies #[trigger] nss[k] == old_v.namespaces[k] by {}
            assert forall|i: int| 0 <= i < bs.len() implies ns_index(nss, #[trigger] bs[i].namespace) != -1 by {
                if i < old_v.branches.len() {
                    let nm = old_v.branches[i].namespace;
                    assert(bs[i] == old_v.branches[i]);
                    assert(ns_index(old_v.namespaces, nm) != -1);
                    lemma_ns_index_from(old_v.namespaces, nm, 0);
                    lemma_ns_index_from(nss, nm, 0);
                    if ns_index(nss, nm) == -1 {
                        let w = ns_index(old_v.namespaces, nm);
                        assert(nss[w] == old_v.namespaces[w]);
                    }
                }
            }
            assert forall|i: int, j: int|
                0 <= i < bs.len() && 0 <= j < bs.len() && i != j implies !(#[trigger] bs[i].namespace
                == #[trigger] bs[j].namespace && bs[i].name == bs[j].name) by {
                if i < old_v.branches.len() && j < old_v.branches.len() {
                    assert(bs[i] == old_v.branches[i] && bs[j] == old_v.branches[j]);
                } else if i < old_v.branches.len() {
                    assert(bs[i] == old_v.branches[i]);
                    assert(ns_index(old_v.namespaces, bs[i].namespace) != -1);
                } else if j < old_v.branches.len() {
                    assert(bs[j] == old_v.branches[j]);
                    assert(ns_index(old_v.namespaces, bs[j].namespace) != -1);
                }
            }
        }
        Ok(())
    }

    /// Points the tag `label` at `tx`, replacing what it pointed at.
    pub fn put_tag(&mut self, label: &str, tx: TxId)
        requires
            spec_wf(old(self)@),
        ensures
            spec_wf(final(self)@),
            final(self)@ == (StoreView {
                tags: if vkey_index(old(self)@.tags, label@) == -1 {
                    old(self)@.tags.push((label@, tx))
                } else {
                    old(self)@.tags.update(vkey_index(old(self)@.tags, label@), (label@, tx))
                },
                ..old(self)@
            }),
    {
        let ghost before = self.tags@;
        proof {
            lemma_key_index_view(before, label@, 0);
            lemma_vkey_index_from(names_view(before), label@, 0);
        }
        match find_key(&self.tags, label) {
            Some(i) => {
                self.tags.set(i, (String::from_str(label), tx));
                proof {
                    let t = names_view(self.tags@);
                    assert(t =~= names_view(before).update(i as int, (label@, tx)));
                    assert forall|a: int, b: int| 0 <= a < t.len() && 0 <= b < t.len() && a != b implies #[trigger] t[a].0 != #[trigger] t[b].0 by {
                        assert(names_view(before)[a].0 == t[a].0 || a == i);
                        assert(names_view(before)[b].0 == t[b].0 || b == i);
                    }
                }
            },
            None => {
                self.tags.push((String::from_str(label), tx));
                proof {
                    let t = names_view(self.tags@);
                    assert(t =~= names_view(before).push((label@, tx)));
                    assert forall|a: int, b: int| 0 <= a < t.len() && 0 <= b < t.len() && a != b implies #[trigger] t[a].0 != #[trigger] t[b].0 by {
                        if a < before.len() {
                            assert(t[a] == names_view(before)[a]);
                        }
                        if b < before.len() {
                            assert(t[b] == names_view(before)[b]);
                        }
                    }
                }
            },
        }
    }

    /// The transaction the tag `label` points at, or `TagNotFound(label)`.
    pub fn get_tag(&self, label: &str) -> (r: Result<TxId, Error>)
        ensures
            vkey_index(self@.tags, label@) == -1 ==> (r matches Err(Error::TagNotFound(l)) && l@
                == label@),
            vkey_index(self@.tags, label@) != -1 ==> r == Ok::<TxId, Error>(
                self@.tags[vkey_index(self@.tags, label@)].1,
            ),
    {
        proof {
            lemma_key_index_view(self.tags@, label@, 0);
        }
        match find_key(&self.tags, label) {
            Some(i) => Ok(self.tags[i].1),
            None => Err(Error::TagNotFound(String::from_str(label))),
        }
    }

    /// Removes the tag `label`, or `TagNotFound(label)` (and no change).
    pub fn delete_tag(&mut self, label: &str) -> (r: Result<(), Error>)
        requires
            spec_wf(old(self)@),
        ensures
            spec_wf(final(self)@),
            vkey_index(old(self)@.tags, label@) == -1 ==> (r matches Err(Error::TagNotFound(l)) && l@
                == label@ && final(self)@ == old(self)@),
            vkey_index(old(self)@.tags, label@) != -1 ==> (r is Ok && final(self)@ == (StoreView {
                tags: old(self)@.tags.remove(vkey_index(old(self)@.tags, label@)),
                ..old(self)@
            })),
    {
        let ghost before = self.tags@;
        proof {
            lemma_key_index_view(before, label@, 0);
        }
        match find_key(&self.tags, label) {
            Some(i) => {
                self.tags.remove(i);
                proof {
                    let t = names_view(self.tags@);
                    let o = names_view(before);
                    assert(t =~= o.remove(i as int));
                    assert forall|a: int, b: int| 0 <= a < t.len() && 0 <= b < t.len() && a != b implies #[trigger] t[a].0 != #[trigger] t[b].0 by {
                        let a2 = if a < i { a } else { a + 1 };
                        let b2 = if b < i { b } else { b + 1 };
                        assert(t[a] == o[a2] && t[b] == o[b2]);
                    }
                }
                Ok(())
            },
            None => Err(Error::TagNotFound(String::from_str(label))),
        }
    }

    /// Retracts the live fact `fact_id` of the branch `p` names: the fact is
    /// marked retracted and its validity ends at the retraction's time, a
    /// transaction of one fact is recorded, and the branch head moves to it.
    /// `FactNotFound(fact_id)` (and no change) when there is no such live
    /// fact.
    pub fn retract(&mut self, fact_id: FactId, p: RetractParams) -> (r: Result<TxId, Error>)
        requires
            spec_wf(old(self)@),
        ensures
            spec_wf(final(self)@),
            ({
                let i = retract_index(old(self)@.facts, fact_id.0, p.namespace@, p.branch@);
                &&& i != -1 ==> 0 <= i < old(self)@.facts.len() && retract_target(
                    old(self)@.facts[i],
                    fact_id.0,
                    p.namespace@,
                    p.branch@,
                )
                &&& i == -1 ==> (r matches Err(Error::FactNotFound(x)) && x == fact_id && final(self)@
                    == old(self)@)
                &&& i != -1 ==> (r == Ok::<TxId, Error>(p.tx_id) && final(self)@ == spec_after_retract(
                    old(self)@,
                    i,
                    p,
                ))
            }),
    {
        let ghost old_v = self@;
        proof {
            lemma_retract_index(old_v.facts, fact_id.0, p.namespace@, p.branch@, 0);
        }
        let mut i: usize = 0;
        while i < self.facts.len()
            invariant
                self@ == old_v,
                i <= self.facts@.len(),
                retract_index(old_v.facts, fact_id.0, p.namespace@, p.branch@) == retract_index_from(
                    old_v.facts,
                    fact_id.0,
                    p.namespace@,
                    p.branch@,
                    i as int,
                ),
            ensures
                self@ == old_v,
                i <= self.facts@.len(),
                retract_index(old_v.facts, fact_id.0, p.namespace@, p.branch@) == retract_index_from(
                    old_v.facts,
                    fact_id.0,
                    p.namespace@,
                    p.branch@,
                    i as int,
                ),
                i < self.facts@.len() ==> retract_target(old_v.facts[i as int], fact_id.0, p.namespace@, p.branch@),
            decreases self.facts@.len() - i,
        {
            assert(old_v.facts[i as int] == self.facts@[i as int]@);
            let f = &self.facts[i];
            if f.id.0 == fact_id.0 && !f.retracted && f.branch.same(&p.branch) && f.namespace.same(
                &p.namespace,
            ) {
                break;
            }
            i = i + 1;
        }
        if i == self.facts.len() {
            return Err(Error::FactNotFound(fact_id));
        }
        let mut f = self.facts[i].clone();
        f.retracted = true;
        f.retracted_at = Some(p.tx_time);
        f.valid_to = Some(p.tx_time.to_datetime());
        self.facts.set(i, f);
        assert(self@.facts =~= spec_after_retract(old_v, i as int, p).facts);
        self.transactions.push(
            Transaction {
                id: p.tx_id,
                namespace: p.namespace.clone(),
                branch: p.branch.clone(),
                ts: p.tx_time,
                author: copy_opt_string(&p.author),
                message: copy_opt_string(&p.message),
                fact_count: 1,
                caused_by: None,
            },
        );
        assert(self@.txs =~= spec_after_retract(old_v, i as int, p).txs);
        self.set_head(&p.namespace, &p.branch, p.tx_id);
        Ok(p.tx_id)
    }

    /// The facts answering `q`: see `spec_scan`.
    pub fn scan(&self, q: &ScanQuery) -> (r: Vec<Fact>)
        ensures
            fv(r@) == spec_scan(self@.facts, q@),
    {
        scan_facts(&self.facts, q)
    }

    /// The branches of namespace `ns`, oldest first.
    pub fn list_branches(&self, ns: &Namespace) -> (r: Vec<BranchInfo>)
        ensures
            r@.map_values(|b: BranchInfo| b@) == spec_list_branches(self@.branches, ns@),
    {
        let ghost pred = |b: BranchView| b.namespace == ns@;
        let ghost key2 = |b: BranchInfo| by_created_at()(b@);
        let ghost vs = self@.branches;
        let mut picked: Vec<BranchInfo> = Vec::new();
        let mut keys: Vec<SortKey> = Vec::new();
        let mut i: usize = 0;
        while i < self.branches.len()
            invariant
                i <= self.branches@.len(),
                vs == self@.branches,
                vs.len() == self.branches@.len(),
                pred == (|b: BranchView| b.namespace == ns@),
                key2 == (|b: BranchInfo| by_created_at()(b@)),
                picked@.map_values(|b: BranchInfo| b@) == select(vs, pred, i as int),
                picked@.len() == keys@.len(),
                forall|m: int| 0 <= m < keys@.len() ==> #[trigger] keys@[m]@ == key2(picked@[m]),
            decreases self.branches@.len() - i,
        {
            assert(vs[i as int] == self.branches@[i as int]@);
            if self.branches[i].namespace.same(ns) {
                let ghost before = picked@;
                let b = &self.branches[i];
                let k = SortKey::number(b.created_at.secs as i128 * 4294967296 + b.created_at.nanos as i128);
                picked.push(b.clone());
                keys.push(k);
                assert(picked@.map_values(|b: BranchInfo| b@) =~= before.map_values(|b: BranchInfo| b@).push(vs[i as int]));
            }
            i = i + 1;
        }
        let ghost pk = picked@;
        let sorted = sort_stable(picked, keys, Ghost(key2));
        proof {
            lemma_sort_views(pk, |b: BranchInfo| b@, by_created_at(), key2);
        }
        sorted
    }

    /// The namespaces, by name.
    pub fn list_namespaces(&self) -> (r: Vec<NamespaceInfo>)
        ensures
            r@.map_values(|n: NamespaceInfo| n@) == stable_sort(self@.namespaces, by_ns_name()),
    {
        let ghost key2 = |n: NamespaceInfo| by_ns_name()(n@);
        let mut items: Vec<NamespaceInfo> = Vec::new();
        let mut keys: Vec<SortKey> = Vec::new();
        let mut i: usize = 0;
        while i < self.namespaces.len()
            invariant
                i <= self.namespaces@.len(),
                key2 == (|n: NamespaceInfo| by_ns_name()(n@)),
                items@.map_values(|n: NamespaceInfo| n@) == self@.namespaces.take(i as int),
                items@.len() == keys@.len(),
                forall|m: int| 0 <= m < keys@.len() ==> #[trigger] keys@[m]@ == key2(items@[m]),
            decreases self.namespaces@.len() - i,
        {
            let ghost before = items@;
            let n = &self.namespaces[i];
            assert(self@.namespaces[i as int] == self.namespaces@[i as int]@);
            keys.push(SortKey::text(n.name.as_str()));
            items.push(n.clone());
            assert(items@.map_values(|n: NamespaceInfo| n@) =~= before.map_values(|n: NamespaceInfo| n@).push(self@.namespaces[i as int]));
            assert(self@.namespaces.take(i + 1) =~= self@.namespaces.take(i as int).push(self@.namespaces[i as int]));
            i = i + 1;
        }
        assert(self@.namespaces.take(i as int) =~= self@.namespaces);
        let ghost it = items@;
        let sorted = sort_stable(items, keys, Ghost(key2));
        proof {
            lemma_sort_views(it, |n: NamespaceInfo| n@, by_ns_name(), key2);
        }
        sorted
    }

    /// The transactions of branch `ns`/`branch`, newest first, at most
    /// `limit` of them.
    pub fn list_tx(&self, ns: &Namespace, branch: &BranchName, limit: usize) -> (r: Vec<Transaction>)
        ensures
            r@.map_values(|t: Transaction| t@) == spec_list_tx(self@.txs, ns@, branch@, limit),
    {
        let ghost pred = |t: TxView| t.namespace == ns@ && t.branch == branch@;
        let ghost key2 = |t: Transaction| by_newest_tx()(t@);
        let ghost vs = self@.txs;
        let mut picked: Vec<Transaction> = Vec::new();
        let mut keys: Vec<SortKey> = Vec::new();
        let mut i: usize = 0;
        while i < self.transactions.len()
            invariant
                i <= self.transactions@.len(),
                vs == self@.txs,
                vs.len() == self.transactions@.len(),
                pred == (|t: TxView| t.namespace == ns@ && t.branch == branch@),
                key2 == (|t: Transaction| by_newest_tx()(t@)),
                picked@.map_values(|t: Transaction| t@) == select(vs, pred, i as int),
                picked@.len() == keys@.len(),
                forall|m: int| 0 <= m < keys@.len() ==> #[trigger] keys@[m]@ == key2(picked@[m]),
            decreases self.transactions@.len() - i,
        {
            assert(vs[i as int] == self.transactions@[i as int]@);
            let t = &self.transactions[i];
            if t.namespace.same(ns) && t.branch.same(branch) {
                let ghost before = picked@;
                let k = SortKey::number(-(t.ts.0 as i128));
                picked.push(t.clone());
                keys.push(k);
                assert(picked@.map_values(|t: Transaction| t@) =~= before.map_values(|t: Transaction| t@).push(vs[i as int]));
            }
            i = i + 1;
        }
        let ghost pk = picked@;
        let mut sorted = sort_stable(picked, keys, Ghost(key2));
        proof {
            lemma_sort_views(pk, |t: Transaction| t@, by_newest_tx(), key2);
        }
        let ghost full = sorted@;
        sorted.truncate(limit);
        assert(sorted@.map_values(|t: Transaction| t@) =~= spec_list_tx(self@.txs, ns@, branch@, limit));
        sorted
    }

    /// The tags and the transactions they point at, by label.
    pub fn list_tags(&self) -> (r: Vec<(String, TxId)>)
        ensures
            names_view(r@) == stable_sort(self@.tags, by_label()),
    {
        let ghost key2 = |e: (String, TxId)| by_label()((e.0@, e.1));
        let mut items: Vec<(String, TxId)> = Vec::new();
        let mut keys: Vec<SortKey> = Vec::new();
        let mut i: usize = 0;
        while i < self.tags.len()
            invariant
                i <= self.tags@.len(),
                key2 == (|e: (String, TxId)| by_label()((e.0@, e.1))),
                names_view(items@) == self@.tags.take(i as int),
                items@.len() == keys@.len(),
                forall|m: int| 0 <= m < keys@.len() ==> #[trigger] keys@[m]@ == key2(items@[m]),
            decreases self.tags@.len() - i,
        {
            let ghost before = items@;
            let e = &self.tags[i];
            assert(self@.tags[i as int] == (self.tags@[i as int].0@, self.tags@[i as int].1));
            keys.push(SortKey::text(e.0.as_str()));
            items.push((copy_string(&e.0), e.1));
            assert(names_view(items@) =~= names_view(before).push(self@.tags[i as int]));
            assert(self@.tags.take(i + 1) =~= self@.tags.take(i as int).push(self@.tags[i as int]));
            i = i + 1;
        }
        assert(self@.tags.take(i as int) =~= self@.tags);
        let ghost it = items@;
        let sorted = sort_stable(items, keys, Ghost(key2));
        proof {
            lemma_sort_views(it, |e: (String, TxId)| (e.0@, e.1), by_label(), key2);
        }
        sorted
    }

    /// The entities with a live fact in branch `ns`/`branch`, each once, in
    /// ascending order.
    pub fn list_entities(&self, ns: &Namespace, branch: &BranchName) -> (r: Vec<EntityId>)
        ensures
            sorted_distinct_of(r@.map_values(|e: EntityId| e@), live_entities(self@.facts, ns@, branch@)),
    {
        let ghost pred = |f: FactView| live_in(f, ns@, branch@);
        let ghost vs = self@.facts;
        let mut cands: Vec<String> = Vec::new();
        let mut i: usize = 0;
        while i < self.facts.len()
            invariant
                i <= self.facts@.len(),
                vs == self@.facts,
                vs.len() == self.facts@.len(),
                pred == (|f: FactView| live_in(f, ns@, branch@)),
                texts(cands@) == select(vs, pred, i as int).map_values(|f: FactView| f.entity),
            decreases self.facts@.len() - i,
        {
            assert(vs[i as int] == self.facts@[i as int]@);
            let f = &self.facts[i];
            let ghost before = cands@;
            if f.namespace.same(ns) && f.branch.same(branch) && !f.retracted {
                cands.push(copy_string(&f.entity.0));
                assert(texts(cands@) =~= texts(before).push(vs[i as int].entity));
                assert(select(vs, pred, i + 1).map_values(|f: FactView| f.entity) =~= select(vs, pred, i as int).map_values(|f: FactView| f.entity).push(vs[i as int].entity));
            } else {
                assert(select(vs, pred, i + 1) == select(vs, pred, i as int));
            }
            i = i + 1;
        }
        let names = sorted_distinct(&cands);
        let mut r: Vec<EntityId> = Vec::new();
        let mut k: usize = 0;
        while k < names.len()
            invariant
                k <= names@.len(),
                r@.map_values(|e: EntityId| e@) == texts(names@).take(k as int),
            decreases names@.len() - k,
        {
            let ghost before = r@;
            r.push(EntityId(copy_string(&names[k])));
            assert(r@.map_values(|e: EntityId| e@) =~= before.map_values(|e: EntityId| e@).push(texts(names@)[k as int]));
            assert(texts(names@).take(k + 1) =~= texts(names@).take(k as int).push(texts(names@)[k as int]));
            k = k + 1;
        }
        assert(texts(names@).take(k as int) =~= texts(names@));
        r
    }

    /// The attributes with a live fact of `entity` in branch `ns`/`branch`,
    /// each once, in ascending order.
    pub fn list_attrs(&self, ns: &Namespace, branch: &BranchName, entity: &EntityId) -> (r: Vec<Attr>)
        ensures
            sorted_distinct_of(r@.map_values(|a: Attr| a@), live_attrs(self@.facts, ns@, branch@, entity@)),
    {
        let ghost pred = |f: FactView| live_in(f, ns@, branch@) && f.entity == entity@;
        let ghost vs = self@.facts;
        let mut cands: Vec<String> = Vec::new();
        let mut i: usize = 0;
        while i < self.facts.len()
            invariant
                i <= self.facts@.len(),
                vs == self@.facts,
                vs.len() == self.facts@.len(),
                pred == (|f: FactView| live_in(f, ns@, branch@) && f.entity == entity@),
                texts(cands@) == select(vs, pred, i as int).map_values(|f: FactView| f.attr),
            decreases self.facts@.len() - i,
        {
            assert(vs[i as int] == self.facts@[i as int]@);
            let f = &self.facts[i];
            let ghost before = cands@;
            if f.namespace.same(ns) && f.branch.same(branch) && !f.retracted && f.entity.same(entity) {
                cands.push(copy_string(&f.attr.0));
                assert(texts(cands@) =~= texts(before).push(vs[i as int].attr));
                assert(select(vs, pred, i + 1).map_values(|f: FactView| f.attr) =~= select(vs, pred, i as int).map_values(|f: FactView| f.attr).push(vs[i as int].attr));
            } else {
                assert(select(vs, pred, i + 1) == select(vs, pred, i as int));
            }
            i = i + 1;
        }
        let names = sorted_distinct(&cands);
        let mut r: Vec<Attr> = Vec::new();
        let mut k: usize = 0;
        while k < names.len()
            invariant
                k <= names@.len(),
                r@.map_values(|a: Attr| a@) == texts(names@).take(k as int),
            decreases names@.len() - k,
        {
            let ghost before = r@;
            r.push(Attr(copy_string(&names[k])));
            assert(r@.map_values(|a: Attr| a@) =~= before.map_values(|a: Attr| a@).push(texts(names@)[k as int]));
            assert(texts(names@).take(k + 1) =~= texts(names@).take(k as int).push(texts(names@)[k as int]));
            k = k + 1;
        }
        assert(texts(names@).take(k as int) =~= texts(names@));
        r
    }

    /// The counters of the store.
    pub fn stats(&self) -> (r: StoreStats)
        requires
            self@.facts.len() * 256 + self@.txs.len() * 128 <= usize::MAX,
        ensures
            r == spec_stats(self@),
    {
        let ghost vs = self@.facts;
        let mut live: usize = 0;
        let mut oldest: u64 = 0;
        let mut newest: u64 = 0;
        let mut i: usize = 0;
        while i < self.facts.len()
            invariant
                i <= self.facts@.len(),
                vs == self@.facts,
                vs.len() == self.facts@.len(),
                live == count_live(vs, i as int),
                live <= i,
                oldest == min_tx_time(vs, i as int),
                newest == max_tx_time(vs, i as int),
            decreases self.facts@.len() - i,
        {
            assert(vs[i as int] == self.facts@[i as int]@);
            let f = &self.facts[i];
            if !f.retracted {
                live = live + 1;
            }
            if i == 0 || f.tx_time.0 < oldest {
                oldest = f.tx_time.0;
            }
            if f.tx_time.0 > newest {
                newest = f.tx_time.0;
            }
            i = i + 1;
        }
        let n = self.facts.len();
        let t = self.transactions.len();
        StoreStats {
            namespaces: self.namespaces.len(),
            branches: self.branches.len(),
            facts: live,
            retracted: n - live,
            transactions: t,
            oldest_tx: oldest,
            newest_tx: newest,
            estimated_bytes: (n * 256 + t * 128) as u64,
        }
    }

    /// Removes the retracted facts that `p` selects, then the transactions
    /// left without a fact; a dry run changes nothing and reports what would
    /// be removed (facts only).
    pub fn gc(&mut self, p: &GcParams) -> (r: GcReport)
        ensures
            r.dry_run == p.dry_run,
            r.facts_removed == old(self)@.facts.len() - gc_kept(old(self)@.facts, *p).len(),
            p.dry_run ==> r.transactions_removed == 0 && final(self)@ == old(self)@,
            !p.dry_run ==> ({
                let kept = gc_kept(old(self)@.facts, *p);
                &&& final(self)@ == (StoreView {
                    facts: kept,
                    txs: gc_live_txs(old(self)@.txs, kept),
                    ..old(self)@
                })
                &&& r.transactions_removed == old(self)@.txs.len() - gc_live_txs(old(self)@.txs, kept).len()
            }),
    {
        let ghost pred = |f: FactView| !gc_eligible(f, p.before_ms, opt_branch_view(p.branch));
        let ghost vs = self@.facts;
        let mut kept: Vec<Fact> = Vec::new();
        let mut i: usize = 0;
        while i < self.facts.len()
            invariant
                i <= self.facts@.len(),
                vs == self@.facts,
                vs.len() == self.facts@.len(),
                pred == (|f: FactView| !gc_eligible(f, p.before_ms, opt_branch_view(p.branch))),
                fv(kept@) == select(vs, pred, i as int),
                kept@.len() <= i,
            decreases self.facts@.len() - i,
        {
            assert(vs[i as int] == self.facts@[i as int]@);
            let f = &self.facts[i];
            let mut eligible = f.retracted;
            if let Some(ms) = p.before_ms {
                if f.tx_time.physical_ms() >= ms {
                    eligible = false;
                }
            }
            if let Some(b) = &p.branch {
                if !b.same(&f.branch) {
                    eligible = false;
                }
            }
            if !eligible {
                let ghost before = kept@;
                kept.push(f.clone());
                assert(fv(kept@) =~= fv(before).push(vs[i as int]));
            }
            i = i + 1;
        }
        let facts_removed = self.facts.len() - kept.len();
        if p.dry_run {
            return GcReport { facts_removed, transactions_removed: 0, dry_run: true };
        }
        let ghost kv = fv(kept@);
        let ghost tv = self@.txs;
        let ghost tpred = |t: TxView| has_fact_of(kv, t.id);
        let mut live_txs: Vec<Transaction> = Vec::new();
        let mut k: usize = 0;
        while k < self.transactions.len()
            invariant
                k <= self.transactions@.len(),
                tv == self@.txs,
                tv.len() == self.transactions@.len(),
                kv == fv(kept@),
                tpred == (|t: TxView| has_fact_of(kv, t.id)),
                live_txs@.map_values(|t: Transaction| t@) == select(tv, tpred, k as int),
                live_txs@.len() <= k,
            decreases self.transactions@.len() - k,
        {
            assert(tv[k as int] == self.transactions@[k as int]@);
            let t = &self.transactions[k];
            let mut found = false;
            let mut j: usize = 0;
            while j < kept.len()
                invariant
                    j <= kept@.len(),
                    kv == fv(kept@),
                    found ==> has_fact_of(kv, t.id.0),
                    !found ==> forall|q: int| 0 <= q < j ==> #[trigger] kv[q].tx_id != t.id.0,
                decreases kept@.len() - j,
            {
                if kept[j].tx_id.0 == t.id.0 {
                    assert(kv[j as int].tx_id == t.id.0);
                    found = true;
                }
                j = j + 1;
            }
            if found {
                let ghost before = live_txs@;
                live_txs.push(t.clone());
                assert(live_txs@.map_values(|t: Transaction| t@) =~= before.map_values(|t: Transaction| t@).push(tv[k as int]));
            }
            k = k + 1;
        }
        let transactions_removed = self.transactions.len() - live_txs.len();
        self.facts = kept;
        self.transactions = live_txs;
        GcReport { facts_removed, transactions_removed, dry_run: false }
    }

    /// Merges branch `p.source` into `p.target`: both are scanned (live facts,
    /// newest first), the merge is planned by the namespace's policy (see
    /// `plan_merge`), and each source fact to apply is recorded on the target
    /// in one new transaction at one new timestamp. `NamespaceNotFound` when
    /// the namespace does not exist, `Conflict` when the policy refuses a
    /// conflict; on error nothing changes.
    #[verifier::rlimit(50)]
    pub fn merge(&mut self, p: &MergeParams) -> (r: Result<MergeResult, Error>)
        requires
            spec_wf(old(self)@),
            spec_room_for(old(self)@, old(self)@.facts.len()),
        ensures
            spec_wf(final(self)@),
            ({
                let src = spec_scan(old(self)@.facts, branch_query(p.namespace@, p.source@));
                let tgt = spec_scan(old(self)@.facts, branch_query(p.namespace@, p.target@));
                let ni = ns_index(old(self)@.namespaces, p.namespace@);
                &&& ni == -1 ==> (r matches Err(Error::NamespaceNotFound(n)) && n@ == p.namespace@
                    && final(self)@ == old(self)@)
                &&& ni != -1 ==> ({
                    let policy = old(self)@.namespaces[ni].merge_policy;
                    let i = spec_first_refusal(src, tgt, policy, src.len() as int);
                    let applied = spec_applied(src, tgt, policy, src.len() as int);
                    &&& i != -1 ==> (r matches Err(Error::Conflict(m)) && m@ == conflict_message(src[i])
                        && final(self)@ == old(self)@)
                    &&& i == -1 ==> (r matches Ok(res) && res.facts_applied == applied.len()
                        && res.conflicts@.map_values(|c: ConflictEntry| c@) == spec_conflicts(
                        src,
                        tgt,
                        policy,
                        src.len() as int,
                    ) && final(self)@ == spec_after_merge(
                        old(self)@,
                        *p,
                        res.tx_id,
                        res.ts,
                        src,
                        applied,
                        ids_from(final(self)@.facts, old(self)@.facts.len() as int),
                    ))
                })
            }),
    {
        let src = self.scan(&ScanQuery::of_branch(p.namespace.clone(), p.source.clone()));
        let tgt = self.scan(&ScanQuery::of_branch(p.namespace.clone(), p.target.clone()));
        let ns_info = match self.get_namespace(&p.namespace) {
            Ok(n) => n,
            Err(e) => {
                return Err(e);
            },
        };
        let policy = ns_info.merge_policy;
        let mut clk = Clock::new();
        let tx_id = TxId::new();
        let ts = match clk.try_tick() {
            Some(h) => h,
            None => {
                proof {
                    let w = choose|w: u64| #[trigger] crate::clock::spec_tick(clk.state(), w) == crate::clock::opt_value(None);
                }
                return Err(Error::other("clock"));
            },
        };
        let plan = match plan_merge(&src, &tgt, policy) {
            Err(i) => {
                proof {
                    lemma_first_refusal_bounds(fv(src@), fv(tgt@), policy, src@.len() as int);
                }
                assert(fv(src@)[i as int] == src@[i as int]@);
                let mut m = String::from_str("entity=");
                m.append(src[i].entity.as_str());
                m.append(" attr=");
                m.append(src[i].attr.as_str());
                return Err(Error::Conflict(m));
            },
            Ok(plan) => plan,
        };
        let ghost old_v = self@;
        let ghost srcv = fv(src@);
        let ghost applied = spec_applied(fv(src@), fv(tgt@), policy, src@.len() as int);
        let ghost n0 = old_v.facts.len() as int;
        proof {
            lemma_applied_bounds(fv(src@), fv(tgt@), policy, src@.len() as int);
            lemma_scan_len(old_v.facts, branch_query(p.namespace@, p.source@));
            assert(plan.apply@.len() == applied.len());
        }
        let n = plan.apply.len();
        let mut k: usize = 0;
        while k < n
            invariant
                n == plan.apply@.len(),
                n == applied.len(),
                n <= old_v.facts.len(),
                k <= n,
                srcv == fv(src@),
                forall|q: int| 0 <= q < n ==> #[trigger] plan.apply@[q] as int == applied[q],
                forall|q: int| 0 <= q < n ==> 0 <= #[trigger] applied[q] < src@.len(),
                spec_wf(self@),
                spec_room_for(self@, (n - k) as nat),
                self@.facts.len() == n0 + k,
                n0 == old_v.facts.len(),
                self@ == spec_after_merge(old_v, *p, tx_id, ts, srcv, applied.take(k as int), ids_from(self@.facts, n0)),
            decreases n - k,
        {
            let idx = plan.apply[k];
            assert(applied[k as int] == idx);
            let f = &src[idx];
            assert(srcv[idx as int] == f@);
            let params = RecordParams {
                namespace: p.namespace.clone(),
                entity: f.entity.clone(),
                attr: f.attr.clone(),
                value: f.value.clone(),
                branch: p.target.clone(),
                author: copy_opt_string(&p.author),
                message: copy_opt_string(&p.message),
                valid_from: f.valid_from,
                valid_to: f.valid_to,
                tx_time: ts,
                tx_id,
                caused_by: p.caused_by,
                idempotency_key: None,
            };
            let ghost cur = self@;
            assert forall|q: int| 0 <= q < cur.txs.len() implies #[trigger] cur.txs[q].fact_count + 1 <= usize::MAX by {
                assert(cur.txs[q].fact_count + (n - k) <= usize::MAX);
            }
            let res = self.record(params);
            proof {
                let id = res.fact_id.0;
                let t = merge_tx(*p, tx_id, ts);
                lemma_bump_step(old_v.txs, t, k as nat, params);
                let ids_k = ids_from(cur.facts, n0);
                let ids_k1 = ids_from(self@.facts, n0);
                assert(ids_k1 =~= ids_k.push(id));
                assert(applied.take(k + 1) =~= applied.take(k as int).push(idx as int));
                assert(spec_new_fact(params, id) == merged_fact(srcv[idx as int], *p, tx_id, ts, id));
                let target = spec_after_merge(old_v, *p, tx_id, ts, srcv, applied.take(k + 1), ids_k1);
                assert(self@.facts =~= target.facts);
                if k > 0 {
                    lemma_set_head_twice(old_v.branches, p.namespace@, p.target@, tx_id);
                }
                assert(self@.branches == target.branches);
                assert(self@.txs == target.txs);
                assert(self@ == target);
                assert forall|q: int| 0 <= q < self@.txs.len() implies #[trigger] self@.txs[q].fact_count + (n - k - 1) <= usize::MAX by {
                    let ti = tx_index(cur.txs, tx_id.0);
                    assert(self@.txs == spec_txs_after_record(cur.txs, params));
                    if ti == -1 {
                        if q < cur.txs.len() {
                            assert(self@.txs[q] == cur.txs[q]);
                            assert(cur.txs[q].fact_count + (n - k) <= usize::MAX);
                        }
                    } else {
                        lemma_tx_index_found(cur.txs, tx_id.0, 0);
                        assert(self@.txs.len() == cur.txs.len());
                        assert(cur.txs[q].fact_count + (n - k) <= usize::MAX);
                    }
                }
            }
            k = k + 1;
        }
        assert(applied.take(n as int) =~= applied);
        Ok(MergeResult { tx_id, ts, facts_applied: n, conflicts: plan.conflicts })
    }

    /// The (entity, attribute) pairs whose current live fact differs between
    /// branch `p.source` and `p.target`: see `compute_diff`.
    pub fn diff(&self, p: &DiffParams) -> (r: Vec<DiffEntry>)
        requires
            self@.facts.len() * 2 <= usize::MAX,
        ensures
            is_diff(
                r@,
                spec_scan(self@.facts, branch_query(p.namespace@, p.source@)),
                spec_scan(self@.facts, branch_query(p.namespace@, p.target@)),
            ),
    {
        let src = self.scan(&ScanQuery::of_branch(p.namespace.clone(), p.source.clone()));
        let tgt = self.scan(&ScanQuery::of_branch(p.namespace.clone(), p.target.clone()));
        proof {
            lemma_scan_len(self@.facts, branch_query(p.namespace@, p.source@));
            lemma_scan_len(self@.facts, branch_query(p.namespace@, p.target@));
        }
        compute_diff(&src, &tgt)
    }
}

} // verus!
