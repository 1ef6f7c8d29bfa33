//! Properties of the ledger that span several operations.
use vstd::prelude::*;

use crate::clock::{sat_inc, spec_encode, spec_logical, spec_observe, spec_parse_hlc, spec_physical, spec_skip_0x, spec_tick, Hlc};
use crate::fact::{spec_id_text, spec_parse_id};
use crate::namespace::{spec_parse_policy, spec_policy_name, MergePolicy};
use crate::branch::BranchView;
use crate::db::{RecordParams, RetractParams, ScanView};
use crate::fact::{main_branch, FactView, TxId};
use crate::keyed::{lemma_unique_index, lemma_vkey_index_from, unique_names, vkey_index};
use crate::namespace::NsView;
use crate::store::{
    branch_index, branch_index_from, fact_index, fact_index_from, lemma_branch_index_from,
    lemma_ns_index_from, ns_index, spec_after_record, spec_after_retract, spec_is_duplicate,
    spec_new_fact, spec_root_branch, spec_scan, spec_scan_filter, spec_scan_match, spec_wf,
    StoreView,
};
use crate::fact::{is_nan_bits, value_eq, ValueView, Timestamp};
use crate::gc::GcParams;
use crate::merge::{spec_conflict_at, spec_conflicts, ConflictResolution, ConflictView};
use crate::pql::ast::{BinOp, ExprView, LitView};
use crate::pql::numeric::Rel;
use crate::merge::{indexed, is_diff, last_with_key, spec_applied, spec_in_diff, spec_merge_step, MergeStep, DiffEntry};
use crate::sort::{insert_by, key_le, lemma_stable_sort_elems, lemma_stable_sort_sorted, stable_sort, sorted_by};
use crate::store::{by_newest_first, gc_eligible, gc_kept, newest_first, select, spec_page};
use crate::db::{spec_is_space, spec_trim, spec_trim_end, spec_trim_start};
use crate::text::{hex_char, hex_digit_value, spec_hex16, spec_hex_accumulate, spec_hex_digits, spec_parse_hex_max};

verus! {

/// An HLC built from a physical time below 2^48 and a logical counter gives
/// both back.
pub proof fn law_hlc_parts_roundtrip(physical_ms: u64, logical: u16)
    requires
        physical_ms < 0x1_0000_0000_0000,
    ensures
        spec_encode(physical_ms as nat, logical as nat) <= u64::MAX,
        spec_physical(spec_encode(physical_ms as nat, logical as nat) as u64) == physical_ms,
        spec_logical(spec_encode(physical_ms as nat, logical as nat) as u64) == logical,
{
    let p = physical_ms as nat;
    let l = logical as nat;
    assert(p % 0x1_0000_0000_0000 == p);
    assert(p * 0x10000 + l <= u64::MAX) by (nonlinear_arith)
        requires
            p < 0x1_0000_0000_0000,
            l < 0x10000,
    ;
    assert((p * 0x10000 + l) / 0x10000 == p) by (nonlinear_arith)
        requires
            l < 0x10000,
    ;
    assert((p * 0x10000 + l) % 0x10000 == l) by (nonlinear_arith)
        requires
            l < 0x10000,
    ;
}

/// A local tick always moves the clock forward: the new timestamp is greater
/// than the last one, whatever the wall clock says (while it stays below
/// 2^48 ms).
pub proof fn law_tick_advances(cur: u64, wall_ms: u64)
    requires
        wall_ms < 0x1_0000_0000_0000,
    ensures
        spec_tick(cur, wall_ms) matches Some(n) ==> n > cur,
{
    let p = spec_physical(cur);
    let l = spec_logical(cur);
    assert(cur == p * 0x10000 + l) by (nonlinear_arith)
        requires
            p == cur / 0x10000,
            l == cur % 0x10000,
    ;
    if wall_ms > p {
        let w = wall_ms as nat;
        assert(w % 0x1_0000_0000_0000 == w);
        assert(w * 0x10000 >= (p + 1) * 0x10000) by (nonlinear_arith)
            requires
                w >= p + 1,
        ;
        assert(spec_encode(w, 0) as u64 == w * 0x10000);
    } else if l < 0xffff {
        assert(p < 0x1_0000_0000_0000) by (nonlinear_arith)
            requires
                p == cur / 0x10000,
                cur <= u64::MAX,
        ;
        assert(p % 0x1_0000_0000_0000 == p);
        assert(spec_encode(p, l + 1) == cur + 1);
    }
}

/// Observing a remote timestamp never moves the clock back, and the result
/// is not below the remote timestamp either (while the wall clock stays below
/// 2^48 ms); it is strictly above both unless a logical counter is saturated.
pub proof fn law_observe_dominates(cur: u64, received: u64, wall_ms: u64)
    requires
        wall_ms < 0x1_0000_0000_0000,
    ensures
        spec_observe(cur, received, wall_ms) matches Ok(n) ==> n >= cur && n >= received,
        spec_observe(cur, received, wall_ms) matches Ok(n) ==> (spec_logical(cur) < 0xffff && spec_logical(
            received,
        ) < 0xffff ==> n > cur && n > received),
{
    let rp = spec_physical(received);
    let cp = spec_physical(cur);
    let rl = spec_logical(received);
    let cl = spec_logical(cur);
    assert(cur == cp * 0x10000 + cl) by (nonlinear_arith)
        requires
            cp == cur / 0x10000,
            cl == cur % 0x10000,
    ;
    assert(received == rp * 0x10000 + rl) by (nonlinear_arith)
        requires
            rp == received / 0x10000,
            rl == received % 0x10000,
    ;
    assert(rp < 0x1_0000_0000_0000 && cp < 0x1_0000_0000_0000) by (nonlinear_arith)
        requires
            rp == received / 0x10000,
            cp == cur / 0x10000,
            received <= u64::MAX,
            cur <= u64::MAX,
    ;
    if let Ok(n) = spec_observe(cur, received, wall_ms) {
        let m = vstd::math::max(vstd::math::max(wall_ms as int, rp as int), cp as int);
        let l = if m == rp && m == cp {
            sat_inc(vstd::math::max(rl as int, cl as int) as nat)
        } else if m == rp {
            sat_inc(rl)
        } else if m == cp {
            sat_inc(cl)
        } else {
            0
        };
        assert(0 <= m < 0x1_0000_0000_0000);
        assert((m as nat) % 0x1_0000_0000_0000 == m);
        assert(l < 0x10000);
        assert(n == m * 0x10000 + l);
        if m > rp {
            assert(m * 0x10000 >= (rp + 1) * 0x10000) by (nonlinear_arith)
                requires
                    m >= rp + 1,
            ;
        }
        if m > cp {
            assert(m * 0x10000 >= (cp + 1) * 0x10000) by (nonlinear_arith)
                requires
                    m >= cp + 1,
            ;
        }
    }
}

/// `16^k`.
pub open spec fn pow16(k: nat) -> nat
    decreases k,
{
    if k == 0 {
        1
    } else {
        16 * pow16((k - 1) as nat)
    }
}

proof fn lemma_hex_char_value(d: nat)
    requires
        d < 16,
    ensures
        hex_digit_value(hex_char(d)) == Some(d),
        hex_char(d) != '+' && hex_char(d) != '-' && hex_char(d) != 'x',
{
}

proof fn lemma_accumulate_push(s: Seq<char>, c: char, i: int, acc: nat, max: nat)
    requires
        0 <= i <= s.len(),
    ensures
        spec_hex_accumulate(s.push(c), i, acc, max) == (match spec_hex_accumulate(s, i, acc, max) {
            Ok(v) => match hex_digit_value(c) {
                None => Err(crate::clock::HexError::InvalidDigit),
                Some(x) => if v * 16 + x > max {
                    Err(crate::clock::HexError::Overflow)
                } else {
                    Ok(v * 16 + x)
                },
            },
            Err(e) => Err(e),
        }),
    decreases s.len() - i,
{
    if i < s.len() {
        assert(s.push(c)[i] == s[i]);
        match hex_digit_value(s[i]) {
            None => {},
            Some(x) => {
                if acc * 16 + x <= max {
                    lemma_accumulate_push(s, c, i + 1, acc * 16 + x, max);
                }
            },
        }
    } else {
        assert(s.push(c)[i] == c);
        if let Some(x) = hex_digit_value(c) {
            if acc * 16 + x <= max {
                assert(spec_hex_accumulate(s.push(c), i + 1, acc * 16 + x, max) == Ok::<nat, crate::clock::HexError>(acc * 16 + x));
            }
        }
    }
}

proof fn lemma_accumulate_digits(n: nat, k: nat, max: nat)
    requires
        n < pow16(k),
        n <= max,
    ensures
        spec_hex_accumulate(spec_hex_digits(n, k), 0, 0, max) == Ok::<nat, crate::clock::HexError>(n),
        spec_hex_digits(n, k).len() == k,
    decreases k,
{
    if k == 0 {
        assert(n == 0);
    } else {
        let k1 = (k - 1) as nat;
        assert(n / 16 < pow16(k1)) by (nonlinear_arith)
            requires
                n < 16 * pow16(k1),
        ;
        assert(n / 16 <= max) by (nonlinear_arith)
            requires
                n <= max,
        ;
        lemma_accumulate_digits(n / 16, k1, max);
        lemma_hex_char_value(n % 16);
        lemma_accumulate_push(spec_hex_digits(n / 16, k1), hex_char(n % 16), 0, 0, max);
        assert((n / 16) * 16 + n % 16 == n) by (nonlinear_arith);
    }
}

proof fn lemma_parse_digits(n: nat, k: nat, max: nat)
    requires
        k >= 1,
        n < pow16(k),
        n <= max,
    ensures
        spec_parse_hex_max(spec_hex_digits(n, k), max) == Ok::<nat, crate::clock::HexError>(n),
        spec_hex_digits(n, k).len() == k,
        forall|j: int| 0 <= j < k ==> hex_digit_value(#[trigger] spec_hex_digits(n, k)[j]) is Some,
    decreases k,
{
    lemma_accumulate_digits(n, k, max);
    lemma_digits_are_hex(n, k);
    let s = spec_hex_digits(n, k);
    assert(hex_digit_value(s[0]) is Some);
    assert(s[0] != '+' && s[0] != '-');
}

proof fn lemma_digits_are_hex(n: nat, k: nat)
    ensures
        spec_hex_digits(n, k).len() == k,
        forall|j: int| 0 <= j < k ==> hex_digit_value(#[trigger] spec_hex_digits(n, k)[j]) is Some,
        forall|j: int| 0 <= j < k ==> #[trigger] spec_hex_digits(n, k)[j] != 'x',
    decreases k,
{
    if k > 0 {
        lemma_digits_are_hex(n / 16, (k - 1) as nat);
        lemma_hex_char_value(n % 16);
        let s = spec_hex_digits(n, k);
        let p = spec_hex_digits(n / 16, (k - 1) as nat);
        assert forall|j: int| 0 <= j < k implies hex_digit_value(#[trigger] s[j]) is Some && s[j] != 'x' by {
            if j < k - 1 {
                assert(s[j] == p[j]);
            } else {
                assert(s[j] == hex_char(n % 16));
            }
        }
    }
}

proof fn lemma_pow16_values()
    ensures
        pow16(16) == 0x1_0000_0000_0000_0000,
        pow16(32) == 0x1_0000_0000_0000_0000_0000_0000_0000_0000,
{
    reveal_with_fuel(pow16, 33);
}

/// An HLC written out (16 hexadecimal digits) parses back to itself.
pub proof fn law_hlc_text_roundtrip(h: Hlc)
    ensures
        spec_parse_hlc(spec_hex16(h.0 as nat)) == Ok::<Hlc, crate::clock::HexError>(h),
{
    lemma_pow16_values();
    let s = spec_hex16(h.0 as nat);
    lemma_parse_digits(h.0 as nat, 16, u64::MAX as nat);
    lemma_digits_are_hex(h.0 as nat, 16);
    assert(s[1] != 'x');
    assert(spec_skip_0x(s, 0) == 0);
    assert(s.subrange(0, s.len() as int) =~= s);
}

/// A fact or transaction id written out (32 hexadecimal digits) parses back
/// to itself.
pub proof fn law_id_text_roundtrip(n: u128)
    ensures
        spec_parse_id(spec_id_text(n)) == Ok::<u128, crate::clock::HexError>(n),
{
    lemma_pow16_values();
    lemma_parse_digits(n as nat, 32, u128::MAX as nat);
}

/// A merge policy's name parses back to the policy.
pub proof fn law_policy_name_roundtrip(p: MergePolicy)
    ensures
        spec_parse_policy(spec_policy_name(p)) == Some(p),
{
    reveal_strlit("last_write_wins");
    reveal_strlit("last-write-wins");
    reveal_strlit("first_write_wins");
    reveal_strlit("first-write-wins");
    reveal_strlit("error_on_conflict");
    reveal_strlit("error-on-conflict");
    match p {
        MergePolicy::LastWriteWins => {},
        MergePolicy::FirstWriteWins => {
            assert("first_write_wins"@.len() != "last_write_wins"@.len());
            assert("first_write_wins"@.len() != "last-write-wins"@.len());
        },
        MergePolicy::ErrorOnConflict => {
            assert("error_on_conflict"@.len() != "last_write_wins"@.len());
            assert("error_on_conflict"@.len() != "last-write-wins"@.len());
            assert("error_on_conflict"@.len() != "first_write_wins"@.len());
            assert("error_on_conflict"@.len() != "first-write-wins"@.len());
        },
    }
}


proof fn lemma_fact_index_push(fs: Seq<FactView>, x: FactView, id: u128, i: int)
    requires
        0 <= i <= fs.len(),
        fact_index_from(fs, id, i) == -1,
        x.id == id,
    ensures
        fact_index_from(fs.push(x), id, i) == fs.len(),
    decreases fs.len() - i,
{
    if i < fs.len() {
        assert(fs.push(x)[i] == fs[i]);
        lemma_fact_index_push(fs, x, id, i + 1);
    } else {
        assert(fs.push(x)[i] == x);
    }
}

/// A written fact can be read back by its id: after a write whose fact got
/// the id `id` (not held by an earlier fact), looking `id` up finds exactly
/// the fact written.
pub proof fn law_record_then_get(v: StoreView, p: RecordParams, id: u128)
    requires
        fact_index(v.facts, id) == -1,
    ensures
        fact_index(spec_after_record(v, p, id).facts, id) == v.facts.len(),
        spec_after_record(v, p, id).facts[v.facts.len() as int] == spec_new_fact(p, id),
{
    lemma_fact_index_push(v.facts, spec_new_fact(p, id), id, 0);
}

/// Replaying a write with the same idempotency key is recognised: after a
/// write with key `k`, a second write with key `k` is a duplicate, answered
/// with the first write's fact and transaction ids (and changes nothing, see
/// `MemoryStore::record`).
pub proof fn law_record_replay(v: StoreView, p: RecordParams, id: u128, p2: RecordParams)
    requires
        spec_wf(v),
        !spec_is_duplicate(v, p),
        p.idempotency_key is Some,
        p2.idempotency_key is Some,
        p2.idempotency_key->0@ == p.idempotency_key->0@,
    ensures
        spec_is_duplicate(spec_after_record(v, p, id), p2),
        ({
            let idem = spec_after_record(v, p, id).idem;
            idem[vkey_index(idem, p2.idempotency_key->0@)].1 == (crate::fact::FactId(id), p.tx_id)
        }),
{
    let k = p.idempotency_key->0@;
    let idem = spec_after_record(v, p, id).idem;
    lemma_vkey_index_from(v.idem, k, 0);
    assert(idem == v.idem.push((k, (crate::fact::FactId(id), p.tx_id))));
    assert(unique_names(idem)) by {
        assert forall|i: int, j: int| 0 <= i < idem.len() && 0 <= j < idem.len() && i != j implies #[trigger] idem[i].0 != #[trigger] idem[j].0 by {
            if i < v.idem.len() && j < v.idem.len() {
                assert(idem[i] == v.idem[i] && idem[j] == v.idem[j]);
            } else if i < v.idem.len() {
                assert(idem[i] == v.idem[i]);
            } else if j < v.idem.len() {
                assert(idem[j] == v.idem[j]);
            }
        }
    }
    lemma_unique_index(idem, v.idem.len() as int);
}

/// A retracted fact no longer answers any scan that leaves retracted facts
/// out, unless the scan reads as of a time before the retraction: what was
/// known then still holds the fact.
pub proof fn law_retract_hides(v: StoreView, i: int, p: RetractParams, q: ScanView)
    requires
        0 <= i < v.facts.len(),
        !q.include_retracted,
        q.asof_tx matches Some(t) ==> t >= p.tx_time.0,
    ensures
        !spec_scan_match(q, spec_after_retract(v, i, p).facts[i]),
{
}

/// A fact retracted after the time a read is as of is still what the read
/// sees: as-of reads give what was known then.
pub proof fn law_asof_sees_later_retraction(v: StoreView, i: int, p: RetractParams, q: ScanView)
    requires
        0 <= i < v.facts.len(),
        spec_scan_match(q, v.facts[i]),
        q.asof_valid is None,
        q.asof_tx matches Some(t) && t < p.tx_time.0,
    ensures
        spec_scan_match(q, spec_after_retract(v, i, p).facts[i]),
{
}

proof fn lemma_scan_filter_push(fs: Seq<FactView>, x: FactView, q: ScanView, j: int)
    requires
        0 <= j <= fs.len(),
    ensures
        spec_scan_filter(fs.push(x), q, j) == spec_scan_filter(fs, q, j),
    decreases j,
{
    if j > 0 {
        lemma_scan_filter_push(fs, x, q, j - 1);
        assert(fs.push(x)[j - 1] == fs[j - 1]);
    }
}

/// Writes are isolated by branch: a write to one branch (or namespace)
/// changes no scan of another.
pub proof fn law_write_isolated(v: StoreView, p: RecordParams, id: u128, q: ScanView)
    requires
        q.namespace != p.namespace@ || q.branch != p.branch@,
    ensures
        spec_scan(spec_after_record(v, p, id).facts, q) == spec_scan(v.facts, q),
{
    let fs = v.facts;
    let x = spec_new_fact(p, id);
    lemma_scan_filter_push(fs, x, q, fs.len() as int);
    assert(fs.push(x)[fs.len() as int] == x);
    assert(!spec_scan_match(q, x));
    assert(spec_scan_filter(fs.push(x), q, (fs.len() + 1) as int) == spec_scan_filter(fs, q, fs.len() as int));
}

/// The tag store after pointing `label` at `tx`.
pub open spec fn tags_after_put(tags: Seq<(Seq<char>, TxId)>, label: Seq<char>, tx: TxId) -> Seq<(Seq<char>, TxId)> {
    if vkey_index(tags, label) == -1 {
        tags.push((label, tx))
    } else {
        tags.update(vkey_index(tags, label), (label, tx))
    }
}

/// After pointing a tag at a transaction, the tag reads back as that
/// transaction (an earlier value is overwritten).
pub proof fn law_tag_put_then_get(tags: Seq<(Seq<char>, TxId)>, label: Seq<char>, tx: TxId)
    requires
        unique_names(tags),
    ensures
        vkey_index(tags_after_put(tags, label, tx), label) != -1,
        tags_after_put(tags, label, tx)[vkey_index(tags_after_put(tags, label, tx), label)].1 == tx,
{
    lemma_vkey_index_from(tags, label, 0);
    let t2 = tags_after_put(tags, label, tx);
    if vkey_index(tags, label) == -1 {
        assert(unique_names(t2)) by {
            assert forall|i: int, j: int| 0 <= i < t2.len() && 0 <= j < t2.len() && i != j implies #[trigger] t2[i].0 != #[trigger] t2[j].0 by {
                if i < tags.len() && j < tags.len() {
                    assert(t2[i] == tags[i] && t2[j] == tags[j]);
                } else if i < tags.len() {
                    assert(t2[i] == tags[i]);
                } else if j < tags.len() {
                    assert(t2[j] == tags[j]);
                }
            }
        }
        lemma_unique_index(t2, tags.len() as int);
    } else {
        let k = vkey_index(tags, label);
        assert(unique_names(t2)) by {
            assert forall|i: int, j: int| 0 <= i < t2.len() && 0 <= j < t2.len() && i != j implies #[trigger] t2[i].0 != #[trigger] t2[j].0 by {
                assert(t2[i].0 == tags[i].0);
                assert(t2[j].0 == tags[j].0);
            }
        }
        lemma_unique_index(t2, k);
    }
}

/// After a tag is deleted it is not found.
pub proof fn law_tag_delete_then_missing(tags: Seq<(Seq<char>, TxId)>, label: Seq<char>)
    requires
        unique_names(tags),
        vkey_index(tags, label) != -1,
    ensures
        vkey_index(tags.remove(vkey_index(tags, label)), label) == -1,
{
    let k = vkey_index(tags, label);
    lemma_vkey_index_from(tags, label, 0);
    let t2 = tags.remove(k);
    lemma_vkey_index_from(t2, label, 0);
    if vkey_index(t2, label) != -1 {
        let j = vkey_index(t2, label);
        let j2 = if j < k { j } else { j + 1 };
        assert(t2[j] == tags[j2]);
        assert(tags[j2].0 == tags[k].0);
    }
}

/// A namespace, once created, is found by its name; the name was free
/// before.
pub proof fn law_namespace_create_then_get(nss: Seq<NsView>, info: NsView)
    requires
        ns_index(nss, info.name) == -1,
    ensures
        ns_index(nss.push(info), info.name) == nss.len(),
        nss.push(info)[nss.len() as int] == info,
{
    lemma_ns_index_from(nss, info.name, 0);
    let n2 = nss.push(info);
    lemma_ns_index_from(n2, info.name, 0);
    assert(n2[nss.len() as int] == info);
    if ns_index(n2, info.name) != nss.len() {
        let j = ns_index(n2, info.name);
        if j != -1 {
            assert(n2[j] == nss[j]);
        }
    }
}

/// A new namespace's `main` branch is its root: found under the namespace,
/// without a parent, so it cannot be deleted.
pub proof fn law_root_branch_after_create(v: StoreView, ns: Seq<char>, created_at: Timestamp)
    requires
        spec_wf(v),
        ns_index(v.namespaces, ns) == -1,
    ensures
        ({
            let bs = v.branches.push(spec_root_branch(ns, created_at));
            &&& branch_index(bs, ns, main_branch()) == v.branches.len()
            &&& bs[branch_index(bs, ns, main_branch())].parent is None
        }),
{
    let bs = v.branches.push(spec_root_branch(ns, created_at));
    lemma_branch_index_from(bs, ns, main_branch(), 0);
    let n = v.branches.len() as int;
    assert(bs[n] == spec_root_branch(ns, created_at));
    assert(bs[n].namespace == ns && bs[n].name == main_branch());
    let j = branch_index(bs, ns, main_branch());
    if j == -1 {
        assert(!(bs[n].namespace == ns && bs[n].name == main_branch()));
    } else if j != n {
        assert(j < n);
        assert(bs[j] == v.branches[j]);
        assert(ns_index(v.namespaces, v.branches[j].namespace) != -1);
    }
}


proof fn lemma_select_satisfies<T>(s: Seq<T>, pred: spec_fn(T) -> bool, j: int)
    requires
        0 <= j <= s.len(),
    ensures
        forall|k: int| 0 <= k < select(s, pred, j).len() ==> pred(#[trigger] select(s, pred, j)[k]),
    decreases j,
{
    if j > 0 {
        lemma_select_satisfies(s, pred, j - 1);
        let prev = select(s, pred, j - 1);
        let cur = select(s, pred, j);
        assert forall|k: int| 0 <= k < cur.len() implies pred(#[trigger] cur[k]) by {
            if k < prev.len() {
                assert(cur[k] == prev[k]);
            }
        }
    }
}

/// Garbage collection leaves no fact it would remove: every fact kept fails
/// the removal test.
pub proof fn law_gc_leaves_nothing_eligible(fs: Seq<FactView>, p: GcParams)
    ensures
        forall|k: int|
            0 <= k < gc_kept(fs, p).len() ==> !gc_eligible(
                #[trigger] gc_kept(fs, p)[k],
                p.before_ms,
                crate::branch::opt_branch_view(p.branch),
            ),
{
    lemma_select_satisfies(fs, |f: FactView| !gc_eligible(f, p.before_ms, crate::branch::opt_branch_view(p.branch)), fs.len() as int);
}

proof fn lemma_scan_filter_matches(fs: Seq<FactView>, q: ScanView, j: int)
    requires
        0 <= j <= fs.len(),
    ensures
        forall|k: int| 0 <= k < spec_scan_filter(fs, q, j).len() ==> spec_scan_match(q, #[trigger] spec_scan_filter(fs, q, j)[k]),
    decreases j,
{
    if j > 0 {
        lemma_scan_filter_matches(fs, q, j - 1);
        let prev = spec_scan_filter(fs, q, j - 1);
        let cur = spec_scan_filter(fs, q, j);
        assert forall|k: int| 0 <= k < cur.len() implies spec_scan_match(q, #[trigger] cur[k]) by {
            if k < prev.len() {
                assert(cur[k] == prev[k]);
            }
        }
    }
}

proof fn lemma_page_sub<T>(s: Seq<T>, offset: Option<usize>, limit: Option<usize>)
    ensures
        ({
            let off: int = match offset {
                Some(o) => o as int,
                None => 0,
            };
            &&& spec_page(s, offset, limit).len() <= s.len()
            &&& forall|k: int| 0 <= k < spec_page(s, offset, limit).len() ==> 0 <= off + k < s.len()
                && #[trigger] spec_page(s, offset, limit)[k] == s[off + k]
        }),
{
}

/// A scan answers only facts that match the query, newest transaction time
/// first.
pub proof fn law_scan_sound_and_newest_first(fs: Seq<FactView>, q: ScanView)
    ensures
        forall|k: int| 0 <= k < spec_scan(fs, q).len() ==> spec_scan_match(q, #[trigger] spec_scan(fs, q)[k]),
        forall|i: int, j: int|
            0 <= i < j < spec_scan(fs, q).len() ==> #[trigger] spec_scan(fs, q)[i].tx_time >= #[trigger] spec_scan(
                fs,
                q,
            )[j].tx_time,
{
    let filtered = spec_scan_filter(fs, q, fs.len() as int);
    let sorted = stable_sort(filtered, by_newest_first());
    lemma_scan_filter_matches(fs, q, fs.len() as int);
    lemma_stable_sort_elems(filtered, by_newest_first());
    lemma_stable_sort_sorted(filtered, by_newest_first());
    lemma_page_sub(sorted, q.offset, q.limit);
    let r = spec_scan(fs, q);
    let off: int = match q.offset {
        Some(o) => o as int,
        None => 0,
    };
    assert forall|k: int| 0 <= k < r.len() implies spec_scan_match(q, #[trigger] r[k]) by {
        assert(r[k] == sorted[off + k]);
        assert(filtered.contains(sorted[off + k]));
        let m = choose|m: int| 0 <= m < filtered.len() && filtered[m] == sorted[off + k];
    }
    assert forall|i: int, j: int| 0 <= i < j < r.len() implies #[trigger] r[i].tx_time >= #[trigger] r[j].tx_time by {
        assert(r[i] == sorted[off + i] && r[j] == sorted[off + j]);
        assert(key_le(by_newest_first()(sorted[off + i]), by_newest_first()(sorted[off + j])));
        assert(!crate::sort::seq_lt(Seq::<char>::empty(), Seq::<char>::empty()));
    }
}

/// Comparing a branch with itself finds no difference, as long as no fact
/// holds a NaN (a value unequal to itself).
pub proof fn law_diff_with_itself_is_empty(r: Seq<DiffEntry>, s: Seq<FactView>)
    requires
        is_diff(r, s, s),
        forall|i: int| 0 <= i < s.len() ==> !(#[trigger] s[i].value matches ValueView::Float(b) && is_nan_bits(b)),
    ensures
        r.len() == 0,
{
    if r.len() > 0 {
        let e = r[0].entity@;
        let a = r[0].attr@;
        assert(spec_in_diff(s, s, e, a));
        crate::merge::lemma_first_with_key(s, e, a, s.len() as int);
        let i = crate::merge::first_with_key(s, e, a, s.len() as int);
        if i != -1 {
            assert(!(s[i].value matches ValueView::Float(b) && is_nan_bits(b)));
            assert(value_eq(s[i].value, s[i].value));
        }
        assert(crate::merge::opt_value_eq(indexed(s, e, a), indexed(s, e, a)));
    }
}

/// A merge records every source fact whose (entity, attribute) the target
/// does not have.
pub proof fn law_merge_applies_unmatched(src: Seq<FactView>, tgt: Seq<FactView>, policy: MergePolicy, n: int, i: int)
    requires
        0 <= i < n,
        last_with_key(tgt, src[i].entity, src[i].attr, tgt.len() as int) == -1,
    ensures
        spec_applied(src, tgt, policy, n).contains(i),
    decreases n,
{
    let cur = spec_applied(src, tgt, policy, n);
    if i == n - 1 {
        assert(spec_merge_step(src, tgt, i, policy) == MergeStep::Apply);
        assert(cur[cur.len() - 1] == i);
    } else {
        law_merge_applies_unmatched(src, tgt, policy, n - 1, i);
        let prev = spec_applied(src, tgt, policy, n - 1);
        let k = choose|k: int| 0 <= k < prev.len() && prev[k] == i;
        assert(cur[k] == prev[k]);
    }
}

/// Under last-write-wins, a source fact newer than the target's fact for the
/// same (entity, attribute) is recorded.
pub proof fn law_merge_newer_source_wins(src: Seq<FactView>, tgt: Seq<FactView>, n: int, i: int)
    requires
        0 <= i < n,
        last_with_key(tgt, src[i].entity, src[i].attr, tgt.len() as int) != -1,
        src[i].tx_time > tgt[last_with_key(tgt, src[i].entity, src[i].attr, tgt.len() as int)].tx_time,
    ensures
        spec_applied(src, tgt, MergePolicy::LastWriteWins, n).contains(i),
    decreases n,
{
    let cur = spec_applied(src, tgt, MergePolicy::LastWriteWins, n);
    if i == n - 1 {
        assert(spec_merge_step(src, tgt, i, MergePolicy::LastWriteWins) == MergeStep::ApplyOverride);
        assert(cur[cur.len() - 1] == i);
    } else {
        law_merge_newer_source_wins(src, tgt, n - 1, i);
        let prev = spec_applied(src, tgt, MergePolicy::LastWriteWins, n - 1);
        let k = choose|k: int| 0 <= k < prev.len() && prev[k] == i;
        assert(cur[k] == prev[k]);
    }
}


/// Every value equals itself, except a NaN float.
pub proof fn law_value_eq_reflexive(v: ValueView)
    requires
        !(v matches ValueView::Float(b) && is_nan_bits(b)),
    ensures
        value_eq(v, v),
{
}


/// Restoring a dumped fact twice writes it once: the writes a restore makes
/// for fact `f` carry `f`'s identifier text as idempotency key (see
/// `restore_opts`), so whatever the first write did, the second is a
/// duplicate.
pub proof fn law_restore_replay(v: StoreView, f: crate::fact::Fact, p: RecordParams, id: u128, p2: RecordParams)
    requires
        spec_wf(v),
        crate::fact::opt_str_view(p.idempotency_key) == Some(spec_id_text(f.id.0)),
        crate::fact::opt_str_view(p2.idempotency_key) == Some(spec_id_text(f.id.0)),
    ensures
        spec_is_duplicate(
            if spec_is_duplicate(v, p) {
                v
            } else {
                spec_after_record(v, p, id)
            },
            p2,
        ),
{
    if !spec_is_duplicate(v, p) {
        law_record_replay(v, p, id, p2);
    }
}

proof fn lemma_trim_end_shape(t: Seq<char>)
    ensures
        spec_trim_end(t).len() <= t.len(),
        spec_trim_end(t) =~= t.subrange(0, spec_trim_end(t).len() as int),
        spec_trim_end(t).len() > 0 ==> !spec_is_space(spec_trim_end(t).last()),
    decreases t.len(),
{
    if t.len() > 0 && spec_is_space(t.last()) {
        lemma_trim_end_shape(t.drop_last());
    }
}

proof fn lemma_trim_start_first(t: Seq<char>)
    ensures
        spec_trim_start(t).len() > 0 ==> !spec_is_space(spec_trim_start(t)[0]),
    decreases t.len(),
{
    if t.len() > 0 && spec_is_space(t[0]) {
        lemma_trim_start_first(t.drop_first());
    }
}

/// Trimming twice is trimming once: a tag label that `tag_label` gives back
/// is its own label.
pub proof fn law_trim_idempotent(s: Seq<char>)
    ensures
        spec_trim(spec_trim(s)) == spec_trim(s),
{
    let t = spec_trim_start(s);
    let u = spec_trim_end(t);
    lemma_trim_start_first(s);
    lemma_trim_end_shape(t);
    if u.len() > 0 {
        assert(u[0] == t[0]);
    }
    assert(spec_trim_start(u) == u);
    assert(spec_trim_end(u) == u);
}


proof fn lemma_scan_filter_older(fs: Seq<FactView>, q: ScanView, j: int, t: u64)
    requires
        0 <= j <= fs.len(),
        forall|m: int| 0 <= m < j && spec_scan_match(q, #[trigger] fs[m]) ==> fs[m].tx_time < t,
    ensures
        forall|k: int| 0 <= k < spec_scan_filter(fs, q, j).len() ==> (#[trigger] spec_scan_filter(fs, q, j)[k]).tx_time < t,
    decreases j,
{
    if j > 0 {
        lemma_scan_filter_older(fs, q, j - 1, t);
        let prev = spec_scan_filter(fs, q, j - 1);
        let cur = spec_scan_filter(fs, q, j);
        assert forall|k: int| 0 <= k < cur.len() implies (#[trigger] cur[k]).tx_time < t by {
            if k < prev.len() {
                assert(cur[k] == prev[k]);
            }
        }
    }
}

/// A write that is newer than every fact a one-fact read selects is what
/// that read gives back: after writing `p`, a scan limited to one fact, from
/// the start, that the new fact answers and that no older matching fact
/// outranks, returns exactly the new fact.
pub proof fn law_scan_sees_newest_write(v: StoreView, p: RecordParams, id: u128, q: ScanView)
    requires
        spec_scan_match(q, spec_new_fact(p, id)),
        q.offset is None,
        q.limit == Some(1usize),
        forall|j: int|
            0 <= j < v.facts.len() && spec_scan_match(q, #[trigger] v.facts[j]) ==> v.facts[j].tx_time
                < p.tx_time.0,
    ensures
        spec_scan(spec_after_record(v, p, id).facts, q) == seq![spec_new_fact(p, id)],
{
    let fs = v.facts;
    let x = spec_new_fact(p, id);
    let fs2 = fs.push(x);
    let key = by_newest_first();
    lemma_scan_filter_push(fs, x, q, fs.len() as int);
    assert(fs2[fs.len() as int] == x);
    let old_f = spec_scan_filter(fs, q, fs.len() as int);
    let new_f = spec_scan_filter(fs2, q, fs2.len() as int);
    assert(new_f == old_f.push(x));
    assert(new_f.drop_last() =~= old_f);
    lemma_scan_filter_older(fs, q, fs.len() as int, p.tx_time.0);
    let sorted_old = stable_sort(old_f, key);
    lemma_stable_sort_elems(old_f, key);
    assert forall|i: int| 0 <= i < sorted_old.len() implies !key_le(#[trigger] key(sorted_old[i]), key(x)) by {
        assert(old_f.contains(sorted_old[i]));
        let m = choose|m: int| 0 <= m < old_f.len() && old_f[m] == sorted_old[i];
        assert(old_f[m].tx_time < x.tx_time);
    }
    crate::sort::lemma_insert_at(sorted_old, x, key, 0);
    let sorted = stable_sort(new_f, key);
    assert(sorted == insert_by(sorted_old, x, key));
    assert(sorted =~= seq![x] + sorted_old);
    assert(spec_page(sorted, q.offset, q.limit) =~= seq![x]);
}

/// What an as-of read gives back of a write: after writing `p`, reading
/// `p`'s entity and attribute on `p`'s branch as of any transaction time at
/// or after `p`'s gives the written fact, provided it is newer than every
/// fact of that attribute the read could see (recorded by then and not yet
/// retracted then), as the clock makes every later write.
pub proof fn law_asof_reads_back_write(v: StoreView, p: RecordParams, id: u128, at: u64)
    requires
        p.tx_time.0 <= at,
        forall|j: int|
            0 <= j < v.facts.len() && #[trigger] v.facts[j].namespace == p.namespace@ && v.facts[j].branch
                == p.branch@ && v.facts[j].entity == p.entity@ && v.facts[j].attr == p.attr@
                && crate::store::spec_live_at(v.facts[j], Some(at)) && v.facts[j].tx_time <= at
                ==> v.facts[j].tx_time < p.tx_time.0,
    ensures
        spec_scan(
            spec_after_record(v, p, id).facts,
            ScanView {
                namespace: p.namespace@,
                branch: p.branch@,
                entity: Some(p.entity@),
                attr: Some(p.attr@),
                asof_tx: Some(at),
                asof_valid: None,
                include_retracted: false,
                limit: Some(1),
                offset: None,
            },
        ) == seq![spec_new_fact(p, id)],
{
    let q = ScanView {
        namespace: p.namespace@,
        branch: p.branch@,
        entity: Some(p.entity@),
        attr: Some(p.attr@),
        asof_tx: Some(at),
        asof_valid: None,
        include_retracted: false,
        limit: Some(1),
        offset: None,
    };
    law_scan_sees_newest_write(v, p, id, q);
}

/// What an effective read gives back of a write: after writing `p`, reading
/// `p`'s entity and attribute on `p`'s branch at any valid time inside the
/// write's interval gives the written fact, provided it is newer than every
/// live fact of that attribute valid at that time.
pub proof fn law_effective_reads_back_write(v: StoreView, p: RecordParams, id: u128, at: Timestamp)
    requires
        crate::fact::ts_le(p.valid_from, at),
        p.valid_to matches Some(vt) ==> crate::fact::ts_lt(at, vt),
        forall|j: int|
            0 <= j < v.facts.len() && #[trigger] v.facts[j].namespace == p.namespace@ && v.facts[j].branch
                == p.branch@ && v.facts[j].entity == p.entity@ && v.facts[j].attr == p.attr@
                && !v.facts[j].retracted && crate::fact::ts_le(v.facts[j].valid_from, at) && (
            v.facts[j].valid_to matches Some(t) ==> crate::fact::ts_lt(at, t)) ==> v.facts[j].tx_time
                < p.tx_time.0,
    ensures
        spec_scan(
            spec_after_record(v, p, id).facts,
            ScanView {
                namespace: p.namespace@,
                branch: p.branch@,
                entity: Some(p.entity@),
                attr: Some(p.attr@),
                asof_tx: None,
                asof_valid: Some(at),
                include_retracted: false,
                limit: Some(1),
                offset: None,
            },
        ) == seq![spec_new_fact(p, id)],
{
    let q = ScanView {
        namespace: p.namespace@,
        branch: p.branch@,
        entity: Some(p.entity@),
        attr: Some(p.attr@),
        asof_tx: None,
        asof_valid: Some(at),
        include_retracted: false,
        limit: Some(1),
        offset: None,
    };
    law_scan_sees_newest_write(v, p, id, q);
}


proof fn lemma_insert_keeps(r: Seq<FactView>, x: FactView, key: spec_fn(FactView) -> crate::sort::KeyView)
    ensures
        insert_by(r, x, key).contains(x),
        forall|k: int| 0 <= k < r.len() ==> insert_by(r, x, key).contains(#[trigger] r[k]),
    decreases r.len(),
{
    let res = insert_by(r, x, key);
    if r.len() == 0 {
        assert(res[0] == x);
    } else if key_le(key(r.last()), key(x)) {
        assert(res[r.len() as int] == x);
        assert forall|k: int| 0 <= k < r.len() implies res.contains(#[trigger] r[k]) by {
            assert(res[k] == r[k]);
        }
    } else {
        let d = r.drop_last();
        lemma_insert_keeps(d, x, key);
        let inner = insert_by(d, x, key);
        assert(res == inner.push(r.last()));
        let i = choose|i: int| 0 <= i < inner.len() && inner[i] == x;
        assert(res[i] == x);
        assert forall|k: int| 0 <= k < r.len() implies res.contains(#[trigger] r[k]) by {
            if k < r.len() - 1 {
                assert(d[k] == r[k]);
                assert(inner.contains(d[k]));
                let m = choose|m: int| 0 <= m < inner.len() && inner[m] == d[k];
                assert(res[m] == r[k]);
            } else {
                assert(res[res.len() - 1] == r[k]);
            }
        }
    }
}

proof fn lemma_stable_sort_keeps(s: Seq<FactView>, key: spec_fn(FactView) -> crate::sort::KeyView)
    ensures
        forall|k: int| 0 <= k < s.len() ==> stable_sort(s, key).contains(#[trigger] s[k]),
    decreases s.len(),
{
    if s.len() > 0 {
        let d = s.drop_last();
        lemma_stable_sort_keeps(d, key);
        let inner = stable_sort(d, key);
        lemma_insert_keeps(inner, s.last(), key);
        let res = stable_sort(s, key);
        assert(res == insert_by(inner, s.last(), key));
        assert forall|k: int| 0 <= k < s.len() implies res.contains(#[trigger] s[k]) by {
            if k < s.len() - 1 {
                assert(d[k] == s[k]);
                assert(inner.contains(d[k]));
                let m = choose|m: int| 0 <= m < inner.len() && inner[m] == d[k];
                assert(insert_by(inner, s.last(), key).contains(inner[m]));
            }
        }
    }
}

proof fn lemma_scan_filter_keeps(fs: Seq<FactView>, q: ScanView, j: int)
    requires
        0 <= j <= fs.len(),
    ensures
        forall|m: int| 0 <= m < j && spec_scan_match(q, #[trigger] fs[m]) ==> spec_scan_filter(fs, q, j).contains(fs[m]),
    decreases j,
{
    if j > 0 {
        lemma_scan_filter_keeps(fs, q, j - 1);
        let prev = spec_scan_filter(fs, q, j - 1);
        let cur = spec_scan_filter(fs, q, j);
        assert forall|m: int| 0 <= m < j && spec_scan_match(q, #[trigger] fs[m]) implies cur.contains(fs[m]) by {
            if m < j - 1 {
                let i = choose|i: int| 0 <= i < prev.len() && prev[i] == fs[m];
                assert(cur[i] == prev[i]);
            } else {
                assert(cur[cur.len() - 1] == fs[m]);
            }
        }
    }
}

/// An unpaged scan misses nothing: every fact that answers the query is in
/// the answer (so a history read gives every version).
pub proof fn law_scan_complete(fs: Seq<FactView>, q: ScanView)
    requires
        q.offset is None,
        q.limit is None,
    ensures
        forall|j: int| 0 <= j < fs.len() && spec_scan_match(q, #[trigger] fs[j]) ==> spec_scan(fs, q).contains(fs[j]),
{
    let filtered = spec_scan_filter(fs, q, fs.len() as int);
    let sorted = stable_sort(filtered, by_newest_first());
    lemma_scan_filter_keeps(fs, q, fs.len() as int);
    lemma_stable_sort_keeps(filtered, by_newest_first());
    if sorted.len() > 0 {
        assert(spec_scan(fs, q) =~= sorted);
    }
    assert forall|j: int| 0 <= j < fs.len() && spec_scan_match(q, #[trigger] fs[j]) implies spec_scan(fs, q).contains(fs[j]) by {
        let i = choose|i: int| 0 <= i < filtered.len() && filtered[i] == fs[j];
        assert(sorted.contains(filtered[i]));
    }
}


proof fn lemma_scan_filter_prefix(fs: Seq<FactView>, e: Seq<FactView>, q: ScanView, j: int)
    requires
        0 <= j <= fs.len(),
    ensures
        spec_scan_filter(fs + e, q, j) == spec_scan_filter(fs, q, j),
    decreases j,
{
    if j > 0 {
        lemma_scan_filter_prefix(fs, e, q, j - 1);
        assert((fs + e)[j - 1] == fs[j - 1]);
    }
}

proof fn lemma_scan_filter_skip(fs: Seq<FactView>, e: Seq<FactView>, q: ScanView, j: int)
    requires
        fs.len() <= j <= fs.len() + e.len(),
        forall|k: int| 0 <= k < e.len() ==> !spec_scan_match(q, #[trigger] e[k]),
    ensures
        spec_scan_filter(fs + e, q, j) == spec_scan_filter(fs, q, fs.len() as int),
    decreases j,
{
    if j > fs.len() {
        lemma_scan_filter_skip(fs, e, q, j - 1);
        assert((fs + e)[j - 1] == e[j - 1 - fs.len()]);
    } else {
        lemma_scan_filter_prefix(fs, e, q, j);
    }
}

/// A merge writes only to its target: every scan of another branch (or
/// namespace) answers the same after the merge as before.
pub proof fn law_merge_touches_only_target(
    v: StoreView,
    p: crate::merge::MergeParams,
    tx: TxId,
    ts: crate::clock::Hlc,
    src: Seq<FactView>,
    applied: Seq<int>,
    ids: Seq<u128>,
    q: ScanView,
)
    requires
        q.namespace != p.namespace@ || q.branch != p.target@,
    ensures
        spec_scan(crate::store::spec_after_merge(v, p, tx, ts, src, applied, ids).facts, q) == spec_scan(v.facts, q),
{
    let e = Seq::new(applied.len(), |k: int| crate::store::merged_fact(src[applied[k]], p, tx, ts, ids[k]));
    assert forall|k: int| 0 <= k < e.len() implies !spec_scan_match(q, #[trigger] e[k]) by {
        assert(e[k].branch == p.target@ && e[k].namespace == p.namespace@);
    }
    lemma_scan_filter_skip(v.facts, e, q, (v.facts.len() + e.len()) as int);
    assert(crate::store::spec_after_merge(v, p, tx, ts, src, applied, ids).facts == v.facts + e);
}


proof fn lemma_select_keeps(s: Seq<FactView>, pred: spec_fn(FactView) -> bool, j: int)
    requires
        0 <= j <= s.len(),
    ensures
        forall|m: int| 0 <= m < j && pred(#[trigger] s[m]) ==> select(s, pred, j).contains(s[m]),
    decreases j,
{
    if j > 0 {
        lemma_select_keeps(s, pred, j - 1);
        let prev = select(s, pred, j - 1);
        let cur = select(s, pred, j);
        assert forall|m: int| 0 <= m < j && pred(#[trigger] s[m]) implies cur.contains(s[m]) by {
            if m < j - 1 {
                let i = choose|i: int| 0 <= i < prev.len() && prev[i] == s[m];
                assert(cur[i] == prev[i]);
            } else {
                assert(cur[cur.len() - 1] == s[m]);
            }
        }
    }
}

/// Garbage collection never removes a live fact, nor a retracted fact it
/// was not asked to remove: every fact that is not eligible stays.
pub proof fn law_gc_keeps_the_rest(fs: Seq<FactView>, p: GcParams)
    ensures
        forall|j: int|
            0 <= j < fs.len() && !gc_eligible(#[trigger] fs[j], p.before_ms, crate::branch::opt_branch_view(p.branch))
                ==> gc_kept(fs, p).contains(fs[j]),
        forall|j: int| 0 <= j < fs.len() && !(#[trigger] fs[j]).retracted ==> gc_kept(fs, p).contains(fs[j]),
{
    let pred = |f: FactView| !gc_eligible(f, p.before_ms, crate::branch::opt_branch_view(p.branch));
    lemma_select_keeps(fs, pred, fs.len() as int);
    assert forall|j: int|
        0 <= j < fs.len() && !gc_eligible(#[trigger] fs[j], p.before_ms, crate::branch::opt_branch_view(p.branch))
            implies gc_kept(fs, p).contains(fs[j]) by {
        assert(pred(fs[j]));
    }
    assert forall|j: int| 0 <= j < fs.len() && !(#[trigger] fs[j]).retracted implies gc_kept(fs, p).contains(fs[j]) by {
        assert(pred(fs[j]));
    }
}


/// A source fact the target keeps is never recorded: under
/// first-write-wins any source fact whose (entity, attribute) the target
/// has, and under last-write-wins one that is not newer than the target's
/// fact, stays off the target.
pub proof fn law_merge_target_keeps(src: Seq<FactView>, tgt: Seq<FactView>, policy: MergePolicy, n: int, i: int)
    requires
        0 <= i < n,
        spec_merge_step(src, tgt, i, policy) is KeepTarget,
    ensures
        !spec_applied(src, tgt, policy, n).contains(i),
    decreases n,
{
    let cur = spec_applied(src, tgt, policy, n);
    let prev = spec_applied(src, tgt, policy, n - 1);
    crate::merge::lemma_applied_bounds(src, tgt, policy, n - 1);
    if i == n - 1 {
        assert(cur == prev);
        if prev.contains(i) {
            let k = choose|k: int| 0 <= k < prev.len() && prev[k] == i;
            assert(prev[k] < n - 1);
        }
    } else {
        law_merge_target_keeps(src, tgt, policy, n - 1, i);
        if cur.contains(i) {
            let k = choose|k: int| 0 <= k < cur.len() && cur[k] == i;
            if k < prev.len() {
                assert(cur[k] == prev[k]);
            } else {
                assert(cur[k] == n - 1);
            }
        }
    }
}


/// The value order is antisymmetric: `a` orders below `b` exactly when `b`
/// orders above `a`, and `a` orders equal to `b` exactly when `b` orders
/// equal to `a`.
pub proof fn law_order_antisymmetric(a: crate::pql::eval::Val, b: crate::pql::eval::Val)
    ensures
        (crate::pql::eval::val_order(a, b) == Some(Rel::Less)) == (crate::pql::eval::val_order(b, a)
            == Some(Rel::Greater)),
        (crate::pql::eval::val_order(a, b) == Some(Rel::Equal)) == (crate::pql::eval::val_order(b, a)
            == Some(Rel::Equal)),
{
    match (a, b) {
        (crate::pql::eval::Val::Str(x), crate::pql::eval::Val::Str(y)) => {
            crate::sort::lemma_seq_lt_trichotomy(x, y);
        },
        _ => {},
    }
}

/// The comparison operators agree with each other and with the value order:
/// `a < b` holds exactly when `a` orders strictly below `b`, and exactly when
/// `b > a` holds; `a <= b` exactly when `b >= a`; `a < b` and `a > b` never
/// both hold; equality is symmetric.
pub proof fn law_comparisons_agree(a: crate::pql::eval::Val, b: crate::pql::eval::Val)
    ensures
        crate::pql::eval::binop_holds(BinOp::Lt, a, b) == (crate::pql::eval::val_order(a, b) == Some(
            Rel::Less,
        )),
        crate::pql::eval::binop_holds(BinOp::Gt, a, b) == (crate::pql::eval::val_order(a, b) == Some(
            Rel::Greater,
        )),
        crate::pql::eval::binop_holds(BinOp::Lt, a, b) == crate::pql::eval::binop_holds(BinOp::Gt, b, a),
        crate::pql::eval::binop_holds(BinOp::Le, a, b) == crate::pql::eval::binop_holds(BinOp::Ge, b, a),
        crate::pql::eval::binop_holds(BinOp::Le, a, b) == (crate::pql::eval::binop_holds(BinOp::Lt, a, b)
            || crate::pql::eval::val_order(a, b) == Some(Rel::Equal)),
        !(crate::pql::eval::binop_holds(BinOp::Lt, a, b) && crate::pql::eval::binop_holds(BinOp::Gt, a, b)),
        crate::pql::eval::binop_holds(BinOp::Eq, a, b) == crate::pql::eval::binop_holds(BinOp::Eq, b, a),
        crate::pql::eval::binop_holds(BinOp::Ne, a, b) == !crate::pql::eval::binop_holds(BinOp::Eq, a, b),
{
    law_order_antisymmetric(a, b);
}

/// A filter `column < literal` keeps exactly the facts whose column has a
/// value that orders strictly below the literal, and `literal > column`
/// keeps the same facts.
pub proof fn law_filter_less_than(c: Seq<char>, l: LitView, f: FactView, tbl: Seq<(Seq<char>, u64)>)
    ensures
        crate::pql::eval::spec_eval_filter(
            ExprView::BinOp {
                op: BinOp::Lt,
                left: Box::new(ExprView::Column(c)),
                right: Box::new(ExprView::Lit(l)),
            },
            f,
            tbl,
        ) == (crate::pql::eval::col_val(c, f) matches Some(v) && crate::pql::eval::val_order(
            v,
            crate::pql::eval::lit_val(l, tbl),
        ) == Some(Rel::Less)),
        crate::pql::eval::spec_eval_filter(
            ExprView::BinOp {
                op: BinOp::Lt,
                left: Box::new(ExprView::Column(c)),
                right: Box::new(ExprView::Lit(l)),
            },
            f,
            tbl,
        ) == crate::pql::eval::spec_eval_filter(
            ExprView::BinOp {
                op: BinOp::Gt,
                left: Box::new(ExprView::Lit(l)),
                right: Box::new(ExprView::Column(c)),
            },
            f,
            tbl,
        ),
{
    if let Some(v) = crate::pql::eval::col_val(c, f) {
        law_comparisons_agree(v, crate::pql::eval::lit_val(l, tbl));
    }
}

proof fn lemma_conflicts_keep(src: Seq<FactView>, tgt: Seq<FactView>, policy: MergePolicy, n: int, x: ConflictView)
    requires
        spec_conflicts(src, tgt, policy, n - 1).contains(x),
        n >= 1,
    ensures
        spec_conflicts(src, tgt, policy, n).contains(x),
{
    let prev = spec_conflicts(src, tgt, policy, n - 1);
    let cur = spec_conflicts(src, tgt, policy, n);
    let k = choose|k: int| 0 <= k < prev.len() && prev[k] == x;
    assert(cur[k] == prev[k]);
}

/// Under last-write-wins a source fact that is not newer than the target's
/// fact for the same (entity, attribute) loses: it is never recorded on the
/// target, and its conflict is reported with the target winning.
pub proof fn law_lww_older_source_loses(src: Seq<FactView>, tgt: Seq<FactView>, n: int, i: int)
    requires
        0 <= i < n,
        last_with_key(tgt, src[i].entity, src[i].attr, tgt.len() as int) != -1,
        src[i].tx_time <= tgt[last_with_key(tgt, src[i].entity, src[i].attr, tgt.len() as int)].tx_time,
    ensures
        !spec_applied(src, tgt, MergePolicy::LastWriteWins, n).contains(i),
        spec_conflicts(src, tgt, MergePolicy::LastWriteWins, n).contains(
            spec_conflict_at(src, tgt, i, ConflictResolution::TargetWins),
        ),
    decreases n,
{
    law_merge_target_keeps(src, tgt, MergePolicy::LastWriteWins, n, i);
    let x = spec_conflict_at(src, tgt, i, ConflictResolution::TargetWins);
    if i == n - 1 {
        let cur = spec_conflicts(src, tgt, MergePolicy::LastWriteWins, n);
        assert(cur[cur.len() - 1] == x);
    } else {
        law_lww_older_source_loses(src, tgt, n - 1, i);
        lemma_conflicts_keep(src, tgt, MergePolicy::LastWriteWins, n, x);
    }
}

/// The diff lists the same pairs whichever branch is the source: a pair is
/// listed against `tgt` exactly when it is listed against `src` the other
/// way round, and a pair that only one side has is always listed.
pub proof fn law_diff_pairs_symmetric(src: Seq<FactView>, tgt: Seq<FactView>, e: Seq<char>, a: Seq<char>)
    ensures
        spec_in_diff(src, tgt, e, a) == spec_in_diff(tgt, src, e, a),
        crate::merge::has_key(src, e, a) != crate::merge::has_key(tgt, e, a) ==> spec_in_diff(src, tgt, e, a),
{
}

/// Two diffs of the same branches, taken in both directions, list the same
/// (entity, attribute) pairs.
pub proof fn law_diff_both_ways(r1: Seq<DiffEntry>, r2: Seq<DiffEntry>, s: Seq<FactView>, t: Seq<FactView>)
    requires
        is_diff(r1, s, t),
        is_diff(r2, t, s),
    ensures
        forall|i: int|
            0 <= i < r1.len() ==> exists|j: int|
                0 <= j < r2.len() && r2[j].entity@ == (#[trigger] r1[i]).entity@ && r2[j].attr@ == r1[i].attr@,
        forall|j: int|
            0 <= j < r2.len() ==> exists|i: int|
                0 <= i < r1.len() && r1[i].entity@ == (#[trigger] r2[j]).entity@ && r1[i].attr@ == r2[j].attr@,
{
    assert forall|i: int| 0 <= i < r1.len() implies exists|j: int|
        0 <= j < r2.len() && r2[j].entity@ == (#[trigger] r1[i]).entity@ && r2[j].attr@ == r1[i].attr@ by {
        law_diff_pairs_symmetric(s, t, r1[i].entity@, r1[i].attr@);
        assert(spec_in_diff(t, s, r1[i].entity@, r1[i].attr@));
    }
    assert forall|j: int| 0 <= j < r2.len() implies exists|i: int|
        0 <= i < r1.len() && r1[i].entity@ == (#[trigger] r2[j]).entity@ && r1[i].attr@ == r2[j].attr@ by {
        law_diff_pairs_symmetric(t, s, r2[j].entity@, r2[j].attr@);
        assert(spec_in_diff(s, t, r2[j].entity@, r2[j].attr@));
    }
}

/// A garbage collection restricted to a branch removes nothing outside it:
/// every fact of another branch is still there afterwards.
pub proof fn law_gc_stays_in_its_branch(fs: Seq<FactView>, p: GcParams)
    requires
        p.branch is Some,
    ensures
        forall|j: int|
            0 <= j < fs.len() && (#[trigger] fs[j]).branch != p.branch->0@ ==> gc_kept(fs, p).contains(fs[j]),
{
    law_gc_keeps_the_rest(fs, p);
    assert forall|j: int| 0 <= j < fs.len() && (#[trigger] fs[j]).branch != p.branch->0@ implies gc_kept(
        fs,
        p,
    ).contains(fs[j]) by {
        assert(!gc_eligible(fs[j], p.before_ms, crate::branch::opt_branch_view(p.branch)));
    }
}

/// A declared type other than `Any` admits exactly the values of its kind:
/// a value matches it exactly when the value's kind name is the type's
/// label.
pub proof fn law_declared_type_admits_its_kind(t: crate::schema::AttrType, v: ValueView)
    requires
        t != crate::schema::AttrType::Any,
    ensures
        crate::schema::spec_type_matches(t, v) == (crate::fact::spec_kind_name(v) == crate::schema::spec_type_label(t)),
{
    reveal_strlit("str");
    reveal_strlit("int");
    reveal_strlit("float");
    reveal_strlit("bool");
    reveal_strlit("json");
    assert("str"@ =~= seq!['s', 't', 'r']);
    assert("int"@ =~= seq!['i', 'n', 't']);
    assert("float"@ =~= seq!['f', 'l', 'o', 'a', 't']);
    assert("bool"@ =~= seq!['b', 'o', 'o', 'l']);
    assert("json"@ =~= seq!['j', 's', 'o', 'n']);
    let k = crate::fact::spec_kind_name(v);
    let l = crate::schema::spec_type_label(t);
    if k == l {
        assert(k[0] == l[0]);
        assert(k.len() == l.len());
    }
}

/// Validation against a schema that declares the attribute with a type
/// other than `Any` succeeds exactly for values of that kind.
pub proof fn law_schema_write_check_by_kind(
    from: Timestamp,
    schema: crate::schema::Schema,
    attr: Seq<char>,
    v: ValueView,
    t: crate::schema::AttrType,
)
    requires
        crate::schema::spec_declared_type(schema.attrs@, attr) == Some(t),
        t != crate::schema::AttrType::Any,
    ensures
        crate::db::spec_write_check(from, None, Some(&schema), attr, v) == (crate::fact::spec_kind_name(v)
            == crate::schema::spec_type_label(t)),
{
    law_declared_type_admits_its_kind(t, v);
}

/// On integers the comparison operators are the arithmetic ones: `x < y`
/// holds exactly when `x` is smaller than `y`, and likewise for the others.
pub proof fn law_int_comparisons_numeric(x: i64, y: i64)
    ensures
        crate::pql::eval::binop_holds(BinOp::Lt, crate::pql::eval::Val::Int(x), crate::pql::eval::Val::Int(y)) == (x < y),
        crate::pql::eval::binop_holds(BinOp::Le, crate::pql::eval::Val::Int(x), crate::pql::eval::Val::Int(y)) == (x <= y),
        crate::pql::eval::binop_holds(BinOp::Gt, crate::pql::eval::Val::Int(x), crate::pql::eval::Val::Int(y)) == (x > y),
        crate::pql::eval::binop_holds(BinOp::Ge, crate::pql::eval::Val::Int(x), crate::pql::eval::Val::Int(y)) == (x >= y),
        crate::pql::eval::binop_holds(BinOp::Eq, crate::pql::eval::Val::Int(x), crate::pql::eval::Val::Int(y)) == (x == y),
        crate::pql::eval::binop_holds(BinOp::Ne, crate::pql::eval::Val::Int(x), crate::pql::eval::Val::Int(y)) == (x != y),
{
}

/// A garbage collection bounded by age keeps every fact whose transaction
/// time is at or after the bound.
pub proof fn law_gc_spares_recent(fs: Seq<FactView>, p: GcParams, ms: u64)
    requires
        p.before_ms == Some(ms),
    ensures
        forall|j: int|
            0 <= j < fs.len() && crate::clock::spec_physical((#[trigger] fs[j]).tx_time) >= ms ==> gc_kept(fs, p).contains(fs[j]),
{
    law_gc_keeps_the_rest(fs, p);
    assert forall|j: int|
        0 <= j < fs.len() && crate::clock::spec_physical((#[trigger] fs[j]).tx_time) >= ms implies gc_kept(fs, p).contains(fs[j]) by {
        assert(!gc_eligible(fs[j], p.before_ms, crate::branch::opt_branch_view(p.branch)));
    }
}

/// A garbage collection with no age bound leaves no retracted fact behind
/// on the branch it was asked for, or on any branch when none was named.
pub proof fn law_gc_purges_retracted(fs: Seq<FactView>, p: GcParams)
    requires
        p.before_ms is None,
    ensures
        forall|k: int|
            0 <= k < gc_kept(fs, p).len() && (p.branch matches Some(b) ==> (#[trigger] gc_kept(fs, p)[k]).branch == b@)
                ==> !gc_kept(fs, p)[k].retracted,
{
    law_gc_leaves_nothing_eligible(fs, p);
}

/// The type `Any` admits every value.
pub proof fn law_any_admits_everything(v: ValueView)
    ensures
        crate::schema::spec_type_matches(crate::schema::AttrType::Any, v),
{
}

} // verus!
