//! Garbage collection of retracted facts, and retention policies.
use vstd::prelude::*;

use crate::fact::{BranchName, Fact, FactId, FactView};
use crate::sort::{sort_stable, stable_sort, KeyView, SortKey};

verus! {

/// What a garbage collection removes.
#[derive(Debug)]
pub struct GcParams {
    /// Only retracted facts whose transaction time is before this bound, in
    /// milliseconds since the Unix epoch; `None` means no age bound.
    pub before_ms: Option<u64>,
    /// Only this branch; `None` means every branch.
    pub branch: Option<BranchName>,
    /// Report without deleting.
    pub dry_run: bool,
}

impl GcParams {
    /// No bound, every branch, for real.
    pub fn default() -> (p: GcParams)
        ensures
            p.before_ms is None,
            p.branch is None,
            !p.dry_run,
    {
        GcParams { before_ms: None, branch: None, dry_run: false }
    }
}

/// What a garbage collection removed (or would remove).
#[derive(Debug, Clone, Copy, PartialEq, Eq, Structural)]
pub struct GcReport {
    pub facts_removed: usize,
    pub transactions_removed: usize,
    pub dry_run: bool,
}

/// A retention policy, applied branch by branch and (entity, attribute) by
/// (entity, attribute).
#[derive(Debug)]
pub struct RetentionPolicy {
    /// Facts older than this many seconds are eligible.
    pub max_age_secs: Option<u64>,
    /// Keep at most this many versions of each (entity, attribute); older
    /// versions are eligible.
    pub max_versions: Option<usize>,
    /// Only already-retracted facts are eligible.
    pub only_retracted: bool,
    /// Only these branches; empty means every branch.
    pub branches: Vec<BranchName>,
    /// Report without applying.
    pub dry_run: bool,
}

impl RetentionPolicy {
    /// No limits, every branch, for real.
    pub fn default() -> (p: RetentionPolicy)
        ensures
            p.max_age_secs is None,
            p.max_versions is None,
            !p.only_retracted,
            p.branches@.len() == 0,
            !p.dry_run,
    {
        RetentionPolicy {
            max_age_secs: None,
            max_versions: None,
            only_retracted: false,
            branches: Vec::new(),
            dry_run: false,
        }
    }
}

/// The totals of one retention run.
#[derive(Debug, Clone, Copy, PartialEq, Eq, Structural)]
pub struct RetentionResult {
    pub inspected: usize,
    pub eligible: usize,
    pub retracted: usize,
    pub branches_processed: usize,
}

impl RetentionResult {
    /// All totals zero.
    pub fn default() -> (r: RetentionResult)
        ensures
            r.inspected == 0 && r.eligible == 0 && r.retracted == 0 && r.branches_processed == 0,
    {
        RetentionResult { inspected: 0, eligible: 0, retracted: 0, branches_processed: 0 }
    }
}

/// The age bound of a retention run at wall time `now_ms`, in milliseconds:
/// facts whose transaction time (its millisecond part) is at or after it are
/// kept.
pub fn retention_cutoff(now_ms: u64, max_age_secs: Option<u64>) -> (r: Option<u64>)
    requires
        max_age_secs matches Some(s) ==> s * 1000 <= now_ms,
    ensures
        r == (match max_age_secs {
            Some(s) => Some((now_ms - s * 1000) as u64),
            None => None::<u64>,
        }),
{
    match max_age_secs {
        Some(s) => Some(now_ms - s * 1000),
        None => None,
    }
}

/// The sort key of a fact by ascending transaction time.
pub open spec fn tx_time_key(f: Fact) -> KeyView {
    KeyView { num: f.tx_time.0 as int, text: Seq::empty(), text2: Seq::empty() }
}

/// Ordering facts by ascending transaction time.
pub open spec fn by_tx_time() -> spec_fn(Fact) -> KeyView {
    |f: Fact| tx_time_key(f)
}

/// Whether the fact at position `i` of the oldest-first history `o` is
/// eligible under the policy.
pub open spec fn spec_retention_eligible_at(
    o: Seq<Fact>,
    i: int,
    only_retracted: bool,
    cutoff: Option<u64>,
    max_versions: Option<usize>,
) -> bool {
    &&& !(only_retracted && !o[i].retracted)
    &&& !(cutoff matches Some(c) && crate::clock::spec_physical(o[i].tx_time.0) >= c)
    &&& !(max_versions matches Some(m) && o.len() - i <= m)
}

/// The eligible facts among the first `j` of the oldest-first history `o`,
/// oldest first.
pub open spec fn spec_retention_pick(
    o: Seq<Fact>,
    j: int,
    only_retracted: bool,
    cutoff: Option<u64>,
    max_versions: Option<usize>,
) -> Seq<FactView>
    decreases j,
{
    if j <= 0 {
        Seq::empty()
    } else {
        let prev = spec_retention_pick(o, j - 1, only_retracted, cutoff, max_versions);
        if spec_retention_eligible_at(o, j - 1, only_retracted, cutoff, max_versions) {
            prev.push(o[j - 1]@)
        } else {
            prev
        }
    }
}

/// The facts of one (entity, attribute) history that a retention policy
/// makes eligible, oldest first: the history is ordered by transaction time
/// (stably), then a fact is skipped when the policy only takes retracted
/// facts and it is live, when its transaction time (in milliseconds) is not
/// before the cutoff, or when it is
/// among the newest `max_versions`.
pub fn retention_eligible(
    hist: Vec<Fact>,
    policy: &RetentionPolicy,
    cutoff: Option<u64>,
) -> (r: Vec<Fact>)
    ensures
        r@.map_values(|f: Fact| f@) == spec_retention_pick(
            stable_sort(hist@, by_tx_time()),
            hist@.len() as int,
            policy.only_retracted,
            cutoff,
            policy.max_versions,
        ),
{
    let ghost key = by_tx_time();
    let mut keys: Vec<SortKey> = Vec::new();
    let mut k: usize = 0;
    while k < hist.len()
        invariant
            k <= hist@.len(),
            keys@.len() == k,
            forall|m: int| 0 <= m < k ==> #[trigger] keys@[m]@ == key(hist@[m]),
            key == by_tx_time(),
        decreases hist@.len() - k,
    {
        let sk = SortKey::number(hist[k].tx_time.0 as i128);
        assert(sk@ == key(hist@[k as int]));
        keys.push(sk);
        k = k + 1;
    }
    let ghost h = hist@;
    let ordered = sort_stable(hist, keys, Ghost(key));
    proof {
        crate::sort::lemma_stable_sort_len(h, key);
    }
    let n = ordered.len();
    let mut out: Vec<Fact> = Vec::new();
    let mut i: usize = 0;
    while i < n
        invariant
            i <= n,
            n == ordered@.len(),
            n == h.len(),
            ordered@ == stable_sort(h, key),
            key == by_tx_time(),
            out@.map_values(|f: Fact| f@) == spec_retention_pick(
                ordered@,
                i as int,
                policy.only_retracted,
                cutoff,
                policy.max_versions,
            ),
        decreases n - i,
    {
        let f = &ordered[i];
        let mut skip = false;
        if policy.only_retracted && !f.retracted {
            skip = true;
        }
        if let Some(c) = cutoff {
            if f.tx_time.physical_ms() >= c {
                skip = true;
            }
        }
        if let Some(max_v) = policy.max_versions {
            if n - i <= max_v {
                skip = true;
            }
        }
        let ghost before = out@;
        if !skip {
            out.push(f.clone());
            assert(out@.map_values(|f: Fact| f@) =~= before.map_values(|f: Fact| f@).push(
                ordered@[i as int]@,
            ));
        }
        i = i + 1;
    }
    out
}


/// The eligible facts never hold more than the history they come from.
proof fn lemma_pick_len(
    o: Seq<Fact>,
    j: int,
    only_retracted: bool,
    cutoff: Option<u64>,
    max_versions: Option<usize>,
)
    ensures
        spec_retention_pick(o, j, only_retracted, cutoff, max_versions).len() <= if j < 0 {
            0
        } else {
            j
        },
    decreases j,
{
    if j > 0 {
        lemma_pick_len(o, j - 1, only_retracted, cutoff, max_versions);
    }
}

/// The identifiers of the facts of `s` that are not retracted yet, in order.
pub open spec fn spec_live_ids(s: Seq<FactView>) -> Seq<u128>
    decreases s.len(),
{
    if s.len() == 0 {
        Seq::empty()
    } else {
        let prev = spec_live_ids(s.drop_last());
        if s.last().retracted {
            prev
        } else {
            prev.push(s.last().id)
        }
    }
}

/// One (entity, attribute) history of a retention run: adds its facts to the
/// inspected total and its eligible facts (see `retention_eligible`) to the
/// eligible total, and, unless the run is a dry run, gives the eligible
/// facts still live, oldest first, to be retracted, and counts them as
/// retracted.
pub fn retention_targets(
    total: &mut RetentionResult,
    hist: Vec<Fact>,
    policy: &RetentionPolicy,
    cutoff: Option<u64>,
) -> (ids: Vec<FactId>)
    requires
        old(total).inspected + hist@.len() <= usize::MAX,
        old(total).eligible + hist@.len() <= usize::MAX,
        old(total).retracted + hist@.len() <= usize::MAX,
    ensures
        ({
            let picked = spec_retention_pick(
                stable_sort(hist@, by_tx_time()),
                hist@.len() as int,
                policy.only_retracted,
                cutoff,
                policy.max_versions,
            );
            &&& final(total).inspected == old(total).inspected + hist@.len()
            &&& final(total).eligible == old(total).eligible + picked.len()
            &&& final(total).branches_processed == old(total).branches_processed
            &&& policy.dry_run ==> ids@.len() == 0 && final(total).retracted
                == old(total).retracted
            &&& !policy.dry_run ==> ids@.map_values(|i: FactId| i.0) == spec_live_ids(picked)
                && final(total).retracted == old(total).retracted + ids@.len()
        }),
{
    let ghost h = hist@;
    let n = hist.len();
    let eligible = retention_eligible(hist, policy, cutoff);
    let ghost picked = spec_retention_pick(
        stable_sort(h, by_tx_time()),
        h.len() as int,
        policy.only_retracted,
        cutoff,
        policy.max_versions,
    );
    proof {
        lemma_pick_len(
            stable_sort(h, by_tx_time()),
            h.len() as int,
            policy.only_retracted,
            cutoff,
            policy.max_versions,
        );
        assert(eligible@.len() == eligible@.map_values(|f: Fact| f@).len());
    }
    total.inspected = total.inspected + n;
    total.eligible = total.eligible + eligible.len();
    let mut ids: Vec<FactId> = Vec::new();
    if policy.dry_run {
        return ids;
    }
    let ghost ev = eligible@.map_values(|f: Fact| f@);
    let mut k: usize = 0;
    while k < eligible.len()
        invariant
            k <= eligible@.len(),
            ev == eligible@.map_values(|f: Fact| f@),
            ids@.map_values(|i: FactId| i.0) == spec_live_ids(ev.take(k as int)),
            ids@.len() <= k,
        decreases eligible@.len() - k,
    {
        assert(ev.take(k + 1).drop_last() =~= ev.take(k as int));
        assert(ev.take(k + 1).last() == eligible@[k as int]@);
        let ghost before = ids@;
        if !eligible[k].retracted {
            ids.push(eligible[k].id);
            assert(ids@.map_values(|i: FactId| i.0) =~= before.map_values(|i: FactId| i.0).push(
                eligible@[k as int].id.0,
            ));
        }
        k = k + 1;
    }
    assert(ev.take(eligible@.len() as int) =~= ev);
    total.retracted = total.retracted + ids.len();
    ids
}

/// The branches a retention run visits: those the policy names, or, when it
/// names none, every branch listed.
pub fn retention_branches(policy: &RetentionPolicy, listed: &Vec<crate::branch::BranchInfo>) -> (r:
    Vec<BranchName>)
    ensures
        policy.branches@.len() > 0 ==> r@.len() == policy.branches@.len() && forall|i: int|
            0 <= i < r@.len() ==> #[trigger] r@[i]@ == policy.branches@[i]@,
        policy.branches@.len() == 0 ==> r@.len() == listed@.len() && forall|i: int|
            0 <= i < r@.len() ==> #[trigger] r@[i]@ == listed@[i].name@,
{
    let mut r: Vec<BranchName> = Vec::new();
    if policy.branches.len() > 0 {
        let mut i: usize = 0;
        while i < policy.branches.len()
            invariant
                i <= policy.branches@.len(),
                r@.len() == i,
                forall|j: int| 0 <= j < i ==> #[trigger] r@[j]@ == policy.branches@[j]@,
            decreases policy.branches@.len() - i,
        {
            r.push(policy.branches[i].clone());
            i = i + 1;
        }
    } else {
        let mut i: usize = 0;
        while i < listed.len()
            invariant
                i <= listed@.len(),
                r@.len() == i,
                forall|j: int| 0 <= j < i ==> #[trigger] r@[j]@ == listed@[j].name@,
            decreases listed@.len() - i,
        {
            r.push(listed[i].name.clone());
            i = i + 1;
        }
    }
    r
}

} // verus!
