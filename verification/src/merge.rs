//! Merging one branch into another, and comparing two branches.
use vstd::prelude::*;

use crate::clock::Hlc;
use crate::fact::{value_eq, BranchName, Fact, FactId, FactView, Namespace, TxId};
use crate::namespace::MergePolicy;
use crate::sort::{insert_sorted, key_lt, strictly_sorted, KeyView, SortKey};
use crate::text::copy_string;

verus! {

/// What to merge.
#[derive(Debug)]
pub struct MergeParams {
    pub namespace: Namespace,
    pub source: BranchName,
    pub target: BranchName,
    pub author: Option<String>,
    pub message: Option<String>,
    pub caused_by: Option<TxId>,
}

/// Which side's fact stands after a conflict.
#[derive(Debug, Clone, Copy, PartialEq, Eq, Structural)]
pub enum ConflictResolution {
    SourceWins,
    TargetWins,
}

/// An (entity, attribute) pair present on both branches of a merge.
#[derive(Debug)]
pub struct ConflictEntry {
    pub entity: String,
    pub attr: String,
    pub source_fact: FactId,
    pub target_fact: FactId,
    pub resolution: ConflictResolution,
}

/// The content of a conflict entry.
pub struct ConflictView {
    pub entity: Seq<char>,
    pub attr: Seq<char>,
    pub source_fact: u128,
    pub target_fact: u128,
    pub resolution: ConflictResolution,
}

impl View for ConflictEntry {
    type V = ConflictView;

    open spec fn view(&self) -> ConflictView {
        ConflictView {
            entity: self.entity@,
            attr: self.attr@,
            source_fact: self.source_fact.0,
            target_fact: self.target_fact.0,
            resolution: self.resolution,
        }
    }
}

/// The outcome of a merge.
#[derive(Debug)]
pub struct MergeResult {
    pub tx_id: TxId,
    pub ts: Hlc,
    pub facts_applied: usize,
    pub conflicts: Vec<ConflictEntry>,
}

/// Which branches to compare.
#[derive(Debug)]
pub struct DiffParams {
    pub namespace: Namespace,
    pub source: BranchName,
    pub target: BranchName,
}

/// An (entity, attribute) pair whose current fact differs between two
/// branches.
#[derive(Debug)]
pub struct DiffEntry {
    pub entity: String,
    pub attr: String,
    pub source: Option<Fact>,
    pub target: Option<Fact>,
}

/// The views of a sequence of facts.
pub open spec fn fv(s: Seq<Fact>) -> Seq<FactView> {
    s.map_values(|f: Fact| f@)
}

/// The view of an optional fact.
pub open spec fn opt_fact_view(f: Option<Fact>) -> Option<FactView> {
    match f {
        Some(x) => Some(x@),
        None => None,
    }
}

/// The index of the last fact of `s` before position `n` about `entity.attr`,
/// or -1: indexing a scan by (entity, attribute), the later entry wins.
pub open spec fn last_with_key(s: Seq<FactView>, entity: Seq<char>, attr: Seq<char>, n: int) -> int
    decreases n,
{
    if n <= 0 {
        -1
    } else if s[n - 1].entity == entity && s[n - 1].attr == attr {
        n - 1
    } else {
        last_with_key(s, entity, attr, n - 1)
    }
}

/// The index of the first fact of `s` before position `n` about
/// `entity.attr`, or -1: in a scan, which lists newest first, the newest.
pub open spec fn first_with_key(s: Seq<FactView>, entity: Seq<char>, attr: Seq<char>, n: int) -> int
    decreases n,
{
    if n <= 0 {
        -1
    } else {
        let p = first_with_key(s, entity, attr, n - 1);
        if p != -1 {
            p
        } else if s[n - 1].entity == entity && s[n - 1].attr == attr {
            n - 1
        } else {
            -1
        }
    }
}

pub proof fn lemma_first_with_key(s: Seq<FactView>, entity: Seq<char>, attr: Seq<char>, n: int)
    requires
        n <= s.len(),
    ensures
        first_with_key(s, entity, attr, n) == -1 || (0 <= first_with_key(s, entity, attr, n) < n
            && s[first_with_key(s, entity, attr, n)].entity == entity
            && s[first_with_key(s, entity, attr, n)].attr == attr),
        forall|i: int|
            0 <= i < n && (first_with_key(s, entity, attr, n) == -1 || i < first_with_key(s, entity, attr, n))
                ==> !(#[trigger] s[i].entity == entity && s[i].attr == attr),
    decreases n,
{
    if n > 0 {
        lemma_first_with_key(s, entity, attr, n - 1);
    }
}

proof fn lemma_first_stable(s: Seq<FactView>, entity: Seq<char>, attr: Seq<char>, n: int, m: int)
    requires
        0 <= n <= m,
        first_with_key(s, entity, attr, n) != -1,
    ensures
        first_with_key(s, entity, attr, m) == first_with_key(s, entity, attr, n),
    decreases m,
{
    if m > n {
        lemma_first_stable(s, entity, attr, n, m - 1);
    }
}

/// The fact of `s` indexed under `entity.attr`, if any: the first, which in
/// a scan is the newest.
pub open spec fn indexed(s: Seq<FactView>, entity: Seq<char>, attr: Seq<char>) -> Option<FactView> {
    let i = first_with_key(s, entity, attr, s.len() as int);
    if i == -1 {
        None
    } else {
        Some(s[i])
    }
}

/// Whether two optional facts hold the same value: both absent, or both
/// present with equal values.
pub open spec fn opt_value_eq(a: Option<FactView>, b: Option<FactView>) -> bool {
    match (a, b) {
        (Some(x), Some(y)) => value_eq(x.value, y.value),
        (None, None) => true,
        _ => false,
    }
}

/// Finds `first_with_key(s, entity, attr, s.len())`.
pub fn find_first_with_key(s: &Vec<Fact>, entity: &String, attr: &String) -> (r: Option<usize>)
    ensures
        r matches Some(i) ==> i == first_with_key(fv(s@), entity@, attr@, s@.len() as int) && i
            < s@.len(),
        r is None ==> first_with_key(fv(s@), entity@, attr@, s@.len() as int) == -1,
{
    let mut i: usize = 0;
    while i < s.len()
        invariant
            i <= s@.len(),
            first_with_key(fv(s@), entity@, attr@, i as int) == -1,
        decreases s@.len() - i,
    {
        assert(fv(s@)[i as int] == s@[i as int]@);
        if s[i].entity.0 == *entity && s[i].attr.0 == *attr {
            proof {
                assert(first_with_key(fv(s@), entity@, attr@, i + 1) == i);
                lemma_first_stable(fv(s@), entity@, attr@, i + 1, s@.len() as int);
            }
            return Some(i);
        }
        i = i + 1;
    }
    None
}

/// Finds `last_with_key(s, entity, attr, s.len())`.
pub fn find_last_with_key(s: &Vec<Fact>, entity: &String, attr: &String) -> (r: Option<usize>)
    ensures
        r matches Some(i) ==> i == last_with_key(fv(s@), entity@, attr@, s@.len() as int) && i
            < s@.len(),
        r is None ==> last_with_key(fv(s@), entity@, attr@, s@.len() as int) == -1,
{
    let mut n = s.len();
    while n > 0
        invariant
            n <= s@.len(),
            last_with_key(fv(s@), entity@, attr@, s@.len() as int) == last_with_key(
                fv(s@),
                entity@,
                attr@,
                n as int,
            ),
        decreases n,
    {
        assert(fv(s@)[n - 1] == s@[n - 1]@);
        if s[n - 1].entity.0 == *entity && s[n - 1].attr.0 == *attr {
            return Some(n - 1);
        }
        n = n - 1;
    }
    None
}

/// The decision a merge takes for one source fact.
pub enum MergeStep {
    /// Record the source fact on the target without a conflict.
    Apply,
    /// Record the source fact on the target; it won a conflict.
    ApplyOverride,
    /// Keep the target's fact; it won a conflict.
    KeepTarget,
    /// The policy refuses conflicts.
    Refuse,
}

/// The decision for the source fact `src[i]`, against the target scan `tgt`.
pub open spec fn spec_merge_step(src: Seq<FactView>, tgt: Seq<FactView>, i: int, policy: MergePolicy) -> MergeStep {
    let j = last_with_key(tgt, src[i].entity, src[i].attr, tgt.len() as int);
    if j == -1 {
        MergeStep::Apply
    } else {
        match policy {
            MergePolicy::ErrorOnConflict => MergeStep::Refuse,
            MergePolicy::FirstWriteWins => MergeStep::KeepTarget,
            MergePolicy::LastWriteWins => if src[i].tx_time <= tgt[j].tx_time {
                MergeStep::KeepTarget
            } else {
                MergeStep::ApplyOverride
            },
        }
    }
}

/// The index of the first source fact (among the first `n`) that a merge
/// refuses, or -1.
pub open spec fn spec_first_refusal(src: Seq<FactView>, tgt: Seq<FactView>, policy: MergePolicy, n: int) -> int
    decreases n,
{
    if n <= 0 {
        -1
    } else {
        let prev = spec_first_refusal(src, tgt, policy, n - 1);
        if prev != -1 {
            prev
        } else if spec_merge_step(src, tgt, n - 1, policy) is Refuse {
            n - 1
        } else {
            -1
        }
    }
}

proof fn lemma_first_refusal_stays(src: Seq<FactView>, tgt: Seq<FactView>, policy: MergePolicy, i: int, n: int)
    requires
        0 <= i < n,
        spec_first_refusal(src, tgt, policy, i) == -1,
        spec_merge_step(src, tgt, i, policy) is Refuse,
    ensures
        spec_first_refusal(src, tgt, policy, n) == i,
    decreases n,
{
    if n > i + 1 {
        lemma_first_refusal_stays(src, tgt, policy, i, n - 1);
    }
}

/// The indices of the source facts (among the first `n`) that a merge records
/// on the target, in order.
pub open spec fn spec_applied(src: Seq<FactView>, tgt: Seq<FactView>, policy: MergePolicy, n: int) -> Seq<int>
    decreases n,
{
    if n <= 0 {
        Seq::empty()
    } else {
        let prev = spec_applied(src, tgt, policy, n - 1);
        match spec_merge_step(src, tgt, n - 1, policy) {
            MergeStep::Apply | MergeStep::ApplyOverride => prev.push(n - 1),
            _ => prev,
        }
    }
}

/// The conflict entry for source fact `src[i]`.
pub open spec fn spec_conflict_at(src: Seq<FactView>, tgt: Seq<FactView>, i: int, r: ConflictResolution) -> ConflictView {
    let j = last_with_key(tgt, src[i].entity, src[i].attr, tgt.len() as int);
    ConflictView {
        entity: src[i].entity,
        attr: src[i].attr,
        source_fact: src[i].id,
        target_fact: tgt[j].id,
        resolution: r,
    }
}

/// The conflicts recorded for the first `n` source facts, in order.
pub open spec fn spec_conflicts(src: Seq<FactView>, tgt: Seq<FactView>, policy: MergePolicy, n: int) -> Seq<ConflictView>
    decreases n,
{
    if n <= 0 {
        Seq::empty()
    } else {
        let prev = spec_conflicts(src, tgt, policy, n - 1);
        match spec_merge_step(src, tgt, n - 1, policy) {
            MergeStep::ApplyOverride => prev.push(spec_conflict_at(src, tgt, n - 1, ConflictResolution::SourceWins)),
            MergeStep::KeepTarget => prev.push(spec_conflict_at(src, tgt, n - 1, ConflictResolution::TargetWins)),
            _ => prev,
        }
    }
}

/// A merge decided: which source facts to record on the target, and the
/// conflicts met.
pub struct MergePlan {
    pub apply: Vec<usize>,
    pub conflicts: Vec<ConflictEntry>,
}

/// Decides a merge of the source scan `src` into the target scan `tgt` (each
/// newest first, as a scan returns them). The target is indexed by (entity,
/// attribute), the later scan entry winning. Each source fact whose pair is
/// not in the index is recorded. Otherwise: under error-on-conflict the merge
/// is refused at the first such fact (`Err` with its index); under
/// first-write-wins the target keeps its fact; under last-write-wins the
/// source fact is recorded if and only if its transaction time is later than
/// the indexed target fact's. Every pair met on both sides is reported as a
/// conflict, with the side that stands.
pub fn plan_merge(src: &Vec<Fact>, tgt: &Vec<Fact>, policy: MergePolicy) -> (r: Result<
    MergePlan,
    usize,
>)
    ensures
        r matches Err(i) ==> i == spec_first_refusal(fv(src@), fv(tgt@), policy, src@.len() as int),
        r is Ok ==> spec_first_refusal(fv(src@), fv(tgt@), policy, src@.len() as int) == -1,
        r matches Ok(plan) ==> plan.apply@.map_values(|i: usize| i as int) == spec_applied(
            fv(src@),
            fv(tgt@),
            policy,
            src@.len() as int,
        ) && plan.conflicts@.map_values(|c: ConflictEntry| c@) == spec_conflicts(
            fv(src@),
            fv(tgt@),
            policy,
            src@.len() as int,
        ),
{
    let mut apply: Vec<usize> = Vec::new();
    let mut conflicts: Vec<ConflictEntry> = Vec::new();
    let mut i: usize = 0;
    while i < src.len()
        invariant
            i <= src@.len(),
            spec_first_refusal(fv(src@), fv(tgt@), policy, i as int) == -1,
            apply@.map_values(|i: usize| i as int) == spec_applied(fv(src@), fv(tgt@), policy, i as int),
            conflicts@.map_values(|c: ConflictEntry| c@) == spec_conflicts(fv(src@), fv(tgt@), policy, i as int),
        decreases src@.len() - i,
    {
        let s = &src[i];
        let ghost before_a = apply@.map_values(|i: usize| i as int);
        let ghost before_c = conflicts@.map_values(|c: ConflictEntry| c@);
        match find_last_with_key(tgt, &s.entity.0, &s.attr.0) {
            None => {
                apply.push(i);
                assert(apply@.map_values(|i: usize| i as int) =~= before_a.push(i as int));
            },
            Some(j) => {
                let t = &tgt[j];
                match policy {
                    MergePolicy::ErrorOnConflict => {
                        proof {
                            lemma_first_refusal_stays(fv(src@), fv(tgt@), policy, i as int, src@.len() as int);
                        }
                        return Err(i);
                    },
                    MergePolicy::FirstWriteWins => {
                        conflicts.push(
                            ConflictEntry {
                                entity: copy_string(&s.entity.0),
                                attr: copy_string(&s.attr.0),
                                source_fact: s.id,
                                target_fact: t.id,
                                resolution: ConflictResolution::TargetWins,
                            },
                        );
                        assert(conflicts@.map_values(|c: ConflictEntry| c@) =~= before_c.push(
                            spec_conflict_at(fv(src@), fv(tgt@), i as int, ConflictResolution::TargetWins),
                        ));
                    },
                    MergePolicy::LastWriteWins => {
                        if s.tx_time.0 <= t.tx_time.0 {
                            conflicts.push(
                                ConflictEntry {
                                    entity: copy_string(&s.entity.0),
                                    attr: copy_string(&s.attr.0),
                                    source_fact: s.id,
                                    target_fact: t.id,
                                    resolution: ConflictResolution::TargetWins,
                                },
                            );
                            assert(conflicts@.map_values(|c: ConflictEntry| c@) =~= before_c.push(
                                spec_conflict_at(fv(src@), fv(tgt@), i as int, ConflictResolution::TargetWins),
                            ));
                        } else {
                            conflicts.push(
                                ConflictEntry {
                                    entity: copy_string(&s.entity.0),
                                    attr: copy_string(&s.attr.0),
                                    source_fact: s.id,
                                    target_fact: t.id,
                                    resolution: ConflictResolution::SourceWins,
                                },
                            );
                            assert(conflicts@.map_values(|c: ConflictEntry| c@) =~= before_c.push(
                                spec_conflict_at(fv(src@), fv(tgt@), i as int, ConflictResolution::SourceWins),
                            ));
                            apply.push(i);
                            assert(apply@.map_values(|i: usize| i as int) =~= before_a.push(i as int));
                        }
                    },
                }
            },
        }
        i = i + 1;
    }
    Ok(MergePlan { apply, conflicts })
}

/// The sort key of a diff entry: its entity, then its attribute.
pub open spec fn pair_key(entity: Seq<char>, attr: Seq<char>) -> KeyView {
    KeyView { num: 0, text: entity, text2: attr }
}

/// Whether `entity.attr` is indexed in `s`.
pub open spec fn has_key(s: Seq<FactView>, entity: Seq<char>, attr: Seq<char>) -> bool {
    first_with_key(s, entity, attr, s.len() as int) != -1
}

/// Whether the diff of `src` against `tgt` lists `entity.attr`: it is
/// indexed on either side, and only one side has it or the two newest facts
/// hold different values.
pub open spec fn spec_in_diff(src: Seq<FactView>, tgt: Seq<FactView>, entity: Seq<char>, attr: Seq<char>) -> bool {
    (has_key(src, entity, attr) || has_key(tgt, entity, attr)) && !opt_value_eq(
        indexed(src, entity, attr),
        indexed(tgt, entity, attr),
    )
}

/// The diff of two scans (each newest first, as a scan returns them): both
/// are indexed by (entity, attribute), the newest fact standing for its
/// pair; every pair that only one side has, or whose two newest facts hold
/// different values, is listed once, with both sides' facts, in (entity,
/// attribute) order.
pub fn compute_diff(src: &Vec<Fact>, tgt: &Vec<Fact>) -> (r: Vec<DiffEntry>)
    requires
        src@.len() + tgt@.len() <= usize::MAX,
    ensures
        strictly_sorted(r@.map_values(|e: DiffEntry| pair_key(e.entity@, e.attr@))),
        forall|i: int|
            0 <= i < r@.len() ==> {
                &&& spec_in_diff(fv(src@), fv(tgt@), #[trigger] r@[i].entity@, r@[i].attr@)
                &&& opt_fact_view(r@[i].source) == indexed(fv(src@), r@[i].entity@, r@[i].attr@)
                &&& opt_fact_view(r@[i].target) == indexed(fv(tgt@), r@[i].entity@, r@[i].attr@)
            },
        forall|e: Seq<char>, a: Seq<char>|
            #[trigger] spec_in_diff(fv(src@), fv(tgt@), e, a) ==> exists|i: int|
                0 <= i < r@.len() && r@[i].entity@ == e && r@[i].attr@ == a,
{
    let mut out: Vec<DiffEntry> = Vec::new();
    let mut out_keys: Vec<SortKey> = Vec::new();
    let total = src.len() + tgt.len();
    let mut k: usize = 0;
    while k < total
        invariant
            total == src@.len() + tgt@.len(),
            k <= total,
            out@.len() == out_keys@.len(),
            strictly_sorted(out_keys@.map_values(|s: SortKey| s@)),
            forall|i: int|
                #![trigger out_keys@[i]]
                0 <= i < out@.len() ==> out_keys@[i]@ == pair_key(out@[i].entity@, out@[i].attr@),
            forall|i: int|
                0 <= i < out@.len() ==> {
                    &&& spec_in_diff(fv(src@), fv(tgt@), #[trigger] out@[i].entity@, out@[i].attr@)
                    &&& opt_fact_view(out@[i].source) == indexed(fv(src@), out@[i].entity@, out@[i].attr@)
                    &&& opt_fact_view(out@[i].target) == indexed(fv(tgt@), out@[i].entity@, out@[i].attr@)
                    &&& seen_from(fv(src@), fv(tgt@), k as int, out@[i].entity@, out@[i].attr@)
                },
            forall|e: Seq<char>, a: Seq<char>|
                #[trigger] seen_from(fv(src@), fv(tgt@), k as int, e, a) && spec_in_diff(fv(src@), fv(tgt@), e, a)
                    ==> exists|i: int| 0 <= i < out@.len() && out@[i].entity@ == e && out@[i].attr@ == a,
        decreases total - k,
    {
        let f = if k < src.len() {
            &src[k]
        } else {
            &tgt[k - src.len()]
        };
        let ghost fe = f.entity@;
        let ghost fa = f.attr@;
        assert(fact_at(fv(src@), fv(tgt@), k as int).entity == fe && fact_at(fv(src@), fv(tgt@), k as int).attr == fa);
        proof {
            assert forall|e: Seq<char>, a: Seq<char>| #[trigger] seen_from(fv(src@), fv(tgt@), k + 1, e, a) <==> (
            seen_from(fv(src@), fv(tgt@), k as int, e, a) || (e == fe && a == fa)) by {
                lemma_seen_step(fv(src@), fv(tgt@), k as int, e, a);
            }
        }
        let earlier = occurs_before(src, tgt, k, &f.entity.0, &f.attr.0);
        if !earlier {
            let s_idx = find_first_with_key(src, &f.entity.0, &f.attr.0);
            let t_idx = find_first_with_key(tgt, &f.entity.0, &f.attr.0);
            let s_fact: Option<Fact> = match s_idx {
                Some(i) => Some(src[i].clone()),
                None => None,
            };
            let t_fact: Option<Fact> = match t_idx {
                Some(i) => Some(tgt[i].clone()),
                None => None,
            };
            let differ = match (&s_fact, &t_fact) {
                (Some(a), Some(b)) => !a.value.equals(&b.value),
                (None, None) => false,
                _ => true,
            };
            proof {
                if k < src@.len() {
                    lemma_key_found(fv(src@), fe, fa, k as int);
                } else {
                    lemma_key_found(fv(tgt@), fe, fa, k - src@.len());
                }
                assert(opt_fact_view(s_fact) == indexed(fv(src@), fe, fa));
                assert(opt_fact_view(t_fact) == indexed(fv(tgt@), fe, fa));
                assert(differ == spec_in_diff(fv(src@), fv(tgt@), fe, fa));
            }
            if differ {
                let key = SortKey::pair(f.entity.0.as_str(), f.attr.0.as_str());
                proof {
                    assert forall|i: int| 0 <= i < out_keys@.len() implies #[trigger] out_keys@[i]@ != key@ by {
                        if out_keys@[i]@ == key@ {
                            assert(out@[i].entity@ == fe && out@[i].attr@ == fa);
                        }
                    }
                }
                let entry = DiffEntry {
                    entity: copy_string(&f.entity.0),
                    attr: copy_string(&f.attr.0),
                    source: s_fact,
                    target: t_fact,
                };
                let ghost old_out = out@;
                let ghost old_keys = out_keys@;
                let p = insert_sorted(&mut out, &mut out_keys, entry, key);
                proof {
                    let nk = out_keys@.map_values(|s: SortKey| s@);
                    let ok = old_keys.map_values(|s: SortKey| s@);
                    assert forall|i: int| #![trigger out_keys@[i]] 0 <= i < out@.len() implies out_keys@[i]@ == pair_key(
                        out@[i].entity@,
                        out@[i].attr@,
                    ) by {
                        assert(nk[i] == out_keys@[i]@);
                        if i < p {
                            assert(out@[i] == old_out[i]);
                            assert(nk[i] == ok[i]);
                            assert(old_keys[i]@ == ok[i]);
                        } else if i == p {
                            assert(nk[i] == key@);
                        } else {
                            assert(out@[i] == old_out[i - 1]);
                            assert(nk[i] == ok[i - 1]);
                            assert(old_keys[i - 1]@ == ok[i - 1]);
                        }
                    }
                    assert forall|i: int| 0 <= i < out@.len() implies {
                        &&& spec_in_diff(fv(src@), fv(tgt@), #[trigger] out@[i].entity@, out@[i].attr@)
                        &&& opt_fact_view(out@[i].source) == indexed(fv(src@), out@[i].entity@, out@[i].attr@)
                        &&& opt_fact_view(out@[i].target) == indexed(fv(tgt@), out@[i].entity@, out@[i].attr@)
                        &&& seen_from(fv(src@), fv(tgt@), k + 1, out@[i].entity@, out@[i].attr@)
                    } by {
                        if i < p {
                            assert(out@[i] == old_out[i]);
                        } else if i == p {
                        } else {
                            assert(out@[i] == old_out[i - 1]);
                        }
                    }
                    assert forall|e: Seq<char>, a: Seq<char>|
                        #[trigger] seen_from(fv(src@), fv(tgt@), k + 1, e, a) && spec_in_diff(fv(src@), fv(tgt@), e, a)
                        implies exists|i: int| 0 <= i < out@.len() && out@[i].entity@ == e && out@[i].attr@ == a by {
                        if e == fe && a == fa {
                            assert(out@[p as int].entity@ == e);
                        } else {
                            let i = choose|i: int| 0 <= i < old_out.len() && old_out[i].entity@ == e && old_out[i].attr@ == a;
                            if i < p {
                                assert(out@[i] == old_out[i]);
                            } else {
                                assert(out@[i + 1] == old_out[i]);
                            }
                        }
                    }
                }
            } else {
                proof {
                    assert forall|i: int| 0 <= i < out@.len() implies seen_from(fv(src@), fv(tgt@), k + 1, #[trigger] out@[i].entity@, out@[i].attr@) by {
                        assert(seen_from(fv(src@), fv(tgt@), k as int, out@[i].entity@, out@[i].attr@));
                    }
                }
            }
        } else {
            proof {
                assert forall|i: int| 0 <= i < out@.len() implies seen_from(fv(src@), fv(tgt@), k + 1, #[trigger] out@[i].entity@, out@[i].attr@) by {
                    assert(seen_from(fv(src@), fv(tgt@), k as int, out@[i].entity@, out@[i].attr@));
                }
                assert forall|e: Seq<char>, a: Seq<char>|
                    #[trigger] seen_from(fv(src@), fv(tgt@), k + 1, e, a) && spec_in_diff(fv(src@), fv(tgt@), e, a)
                    implies exists|i: int| 0 <= i < out@.len() && out@[i].entity@ == e && out@[i].attr@ == a by {
                    assert(seen_from(fv(src@), fv(tgt@), k as int, e, a));
                }
            }
        }
        k = k + 1;
    }
    proof {
        assert forall|e: Seq<char>, a: Seq<char>| #[trigger] spec_in_diff(fv(src@), fv(tgt@), e, a) implies seen_from(
            fv(src@),
            fv(tgt@),
            total as int,
            e,
            a,
        ) by {
            lemma_first_with_key(fv(src@), e, a, src@.len() as int);
            lemma_first_with_key(fv(tgt@), e, a, tgt@.len() as int);
            if has_key(fv(src@), e, a) {
                let i = first_with_key(fv(src@), e, a, src@.len() as int);
                assert(fact_at(fv(src@), fv(tgt@), i).entity == e);
            } else {
                let i = first_with_key(fv(tgt@), e, a, tgt@.len() as int);
                assert(fact_at(fv(src@), fv(tgt@), i + src@.len()).entity == e);
            }
        }
        assert(out@.map_values(|e: DiffEntry| pair_key(e.entity@, e.attr@)) =~= out_keys@.map_values(
            |s: SortKey| s@,
        ));
    }
    out
}

/// Whether a fact before position `k` of `src` followed by `tgt` is about
/// `entity.attr`.
fn occurs_before(src: &Vec<Fact>, tgt: &Vec<Fact>, k: usize, entity: &String, attr: &String) -> (r: bool)
    requires
        k <= src@.len() + tgt@.len(),
    ensures
        r == seen_from(fv(src@), fv(tgt@), k as int, entity@, attr@),
{
    let mut j: usize = 0;
    while j < k
        invariant
            j <= k,
            k <= src@.len() + tgt@.len(),
            forall|x: int| 0 <= x < j ==> !(#[trigger] fact_at(fv(src@), fv(tgt@), x).entity == entity@ && fact_at(fv(src@), fv(tgt@), x).attr == attr@),
        decreases k - j,
    {
        let f = if j < src.len() {
            &src[j]
        } else {
            &tgt[j - src.len()]
        };
        assert(f@ == fact_at(fv(src@), fv(tgt@), j as int));
        if f.entity.0 == *entity && f.attr.0 == *attr {
            assert(fact_at(fv(src@), fv(tgt@), j as int).entity == entity@);
            return true;
        }
        j = j + 1;
    }
    false
}

/// Whether some fact among the first `k` of `src` followed by `tgt` is about
/// `entity.attr`.
pub open spec fn seen_from(src: Seq<FactView>, tgt: Seq<FactView>, k: int, entity: Seq<char>, attr: Seq<char>) -> bool {
    exists|i: int| 0 <= i < k && i < src.len() + tgt.len() && #[trigger] fact_at(src, tgt, i).entity == entity
        && fact_at(src, tgt, i).attr == attr
}

/// The `i`-th fact of `src` followed by `tgt`.
pub open spec fn fact_at(src: Seq<FactView>, tgt: Seq<FactView>, i: int) -> FactView {
    if i < src.len() {
        src[i]
    } else {
        tgt[i - src.len()]
    }
}

proof fn lemma_seen_step(src: Seq<FactView>, tgt: Seq<FactView>, k: int, e: Seq<char>, a: Seq<char>)
    requires
        0 <= k < src.len() + tgt.len(),
    ensures
        seen_from(src, tgt, k + 1, e, a) <==> (seen_from(src, tgt, k, e, a) || (fact_at(src, tgt, k).entity == e && fact_at(src, tgt, k).attr == a)),
{
    if seen_from(src, tgt, k + 1, e, a) {
        let i = choose|i: int| 0 <= i < k + 1 && i < src.len() + tgt.len() && #[trigger] fact_at(src, tgt, i).entity == e
            && fact_at(src, tgt, i).attr == a;
        if i < k {
            assert(seen_from(src, tgt, k, e, a));
        }
    }
    if fact_at(src, tgt, k).entity == e && fact_at(src, tgt, k).attr == a {
        assert(fact_at(src, tgt, k).entity == e);
    }
}

proof fn lemma_key_found(s: Seq<FactView>, e: Seq<char>, a: Seq<char>, k: int)
    requires
        0 <= k < s.len(),
        s[k].entity == e,
        s[k].attr == a,
    ensures
        has_key(s, e, a),
{
    lemma_first_with_key(s, e, a, s.len() as int);
}

/// Every index `spec_applied` lists is below `n`, and there are at most `n`.
pub proof fn lemma_applied_bounds(src: Seq<FactView>, tgt: Seq<FactView>, policy: MergePolicy, n: int)
    requires
        0 <= n,
    ensures
        spec_applied(src, tgt, policy, n).len() <= n,
        forall|k: int|
            0 <= k < spec_applied(src, tgt, policy, n).len() ==> 0 <= #[trigger] spec_applied(
                src,
                tgt,
                policy,
                n,
            )[k] < n,
    decreases n,
{
    if n > 0 {
        lemma_applied_bounds(src, tgt, policy, n - 1);
    }
}


/// The index `spec_first_refusal` gives, if any, is below `n`.
pub proof fn lemma_first_refusal_bounds(src: Seq<FactView>, tgt: Seq<FactView>, policy: MergePolicy, n: int)
    ensures
        spec_first_refusal(src, tgt, policy, n) == -1 || 0 <= spec_first_refusal(src, tgt, policy, n) < n,
    decreases n,
{
    if n > 0 {
        lemma_first_refusal_bounds(src, tgt, policy, n - 1);
    }
}


/// `r` is the diff of the scans `src` and `tgt`: strictly ordered by
/// (entity, attribute), each entry a pair whose indexed facts differ with
/// both sides' facts, and every such pair listed.
pub open spec fn is_diff(r: Seq<DiffEntry>, src: Seq<FactView>, tgt: Seq<FactView>) -> bool {
    &&& strictly_sorted(r.map_values(|e: DiffEntry| pair_key(e.entity@, e.attr@)))
    &&& forall|i: int|
        0 <= i < r.len() ==> {
            &&& spec_in_diff(src, tgt, #[trigger] r[i].entity@, r[i].attr@)
            &&& opt_fact_view(r[i].source) == indexed(src, r[i].entity@, r[i].attr@)
            &&& opt_fact_view(r[i].target) == indexed(tgt, r[i].entity@, r[i].attr@)
        }
    &&& forall|e: Seq<char>, a: Seq<char>|
        #[trigger] spec_in_diff(src, tgt, e, a) ==> exists|i: int|
            0 <= i < r.len() && r[i].entity@ == e && r[i].attr@ == a
}

} // verus!
