//! Call-stack reconstruction and weight aggregation.
//!
//! The walk keeps a stack of frame names. A step deeper than the stack pushes
//! the placeholder frame `call` until the stack is as deep as the step (the
//! trace does not name frames on call entry); a shallower step truncates it.
//! Each step with a positive gas cost adds that cost to the path made of the
//! frames and the step's operation. Host interactions then get synthetic
//! `hostio;<kind>` paths carrying a proportional share of the host gas.
use vstd::prelude::*;
use vstd::string::*;

use crate::hostio::{
    kind_at, kind_at_position, kind_index, kind_label, kind_name, lemma_count_le_sum, lemma_sum_counts_nonneg,
    sum_counts, cap, HostIoStats, HostIoType, HOSTIO_KINDS,
};
use crate::parser::{step_views, ParsedTrace, StepView};
use crate::text::{decimal, decimal_string};

verus! {

/// One aggregated path with its weight.
#[derive(Debug, Clone)]
pub struct CollapsedStack {
    /// Frame names joined by `;`, outermost first.
    pub stack: String,
    /// Gas attributed to this path.
    pub weight: u64,
}

impl CollapsedStack {
    /// A path with its weight.
    pub fn new(stack: String, weight: u64) -> (r: Self)
        ensures
            r.stack@ == stack@,
            r.weight == weight,
    {
        CollapsedStack { stack, weight }
    }

    /// The text line of this path: the path, a space, the weight in decimal.
    pub fn to_line(&self) -> (r: String)
        ensures
            r@ == self.stack@ + seq![' '] + decimal(self.weight as nat),
    {
        proof {
            reveal_strlit(" ");
        }
        let mut line = self.stack.clone();
        line.append(" ");
        let w = decimal_string(self.weight);
        line.append(w.as_str());
        line
    }
}

impl View for CollapsedStack {
    type V = (Seq<char>, u64);

    open spec fn view(&self) -> (Seq<char>, u64) {
        (self.stack@, self.weight)
    }
}

/// The views of a list of paths.
pub open spec fn stack_views(s: Seq<CollapsedStack>) -> Seq<(Seq<char>, u64)> {
    s.map_values(|c: CollapsedStack| c@)
}

// ---------------------------------------------------------------------------
// Paths
// ---------------------------------------------------------------------------

/// The frames followed by `;` each, outermost first.
pub open spec fn frames_prefix(frames: Seq<Seq<char>>) -> Seq<char>
    decreases frames.len(),
{
    if frames.len() == 0 {
        Seq::empty()
    } else {
        frames_prefix(frames.drop_last()) + frames.last() + seq![';']
    }
}

/// The path of an operation under the frames `frames`: the frames and the
/// operation joined by `;`.
pub open spec fn joined_path(frames: Seq<Seq<char>>, operation: Seq<char>) -> Seq<char> {
    frames_prefix(frames) + operation
}

/// The names of a list of frames.
pub open spec fn frame_names(frames: Seq<String>) -> Seq<Seq<char>> {
    frames.map_values(|f: String| f@)
}

/// `d` placeholder frames.
pub open spec fn placeholders(d: nat) -> Seq<Seq<char>> {
    Seq::new(d, |i: int| "call"@)
}

/// The name under which a step is recorded: its function name, else its
/// operation mnemonic, else `unknown`.
pub open spec fn op_name(s: StepView) -> Seq<char> {
    match s.function {
        Some(f) => f,
        None => match s.op {
            Some(o) => o,
            None => "unknown"@,
        },
    }
}

/// The path a step is recorded under: as many placeholder frames as its depth,
/// then its name.
pub open spec fn step_path(s: StepView) -> Seq<char> {
    joined_path(placeholders(s.depth as nat), op_name(s))
}

/// The synthetic path of a host-interaction kind.
pub open spec fn hostio_path(t: HostIoType) -> Seq<char> {
    "hostio;"@ + kind_name(t)
}

/// The share of the host gas apportioned to kind `t`:
/// floor(gas * count / max(calls, 1)).
pub open spec fn hostio_share(stats: HostIoStats, t: HostIoType) -> int {
    let calls: int = if stats.calls() > 0 {
        stats.calls() as int
    } else {
        1
    };
    (stats.gas() as int * stats.count_of(t) as int) / calls
}

// ---------------------------------------------------------------------------
// Contributions: what each step and each kind adds to which path
// ---------------------------------------------------------------------------

/// A path and an amount that is added to it.
pub type Contribution = (Seq<char>, int);

/// What the steps add, in order: each step with a positive cost adds it to
/// its path. Steps of zero cost add nothing.
pub open spec fn step_contributions(steps: Seq<StepView>) -> Seq<Contribution>
    decreases steps.len(),
{
    if steps.len() == 0 {
        Seq::empty()
    } else {
        let p = step_contributions(steps.drop_last());
        if steps.last().gas_cost > 0 {
            p.push((step_path(steps.last()), steps.last().gas_cost as int))
        } else {
            p
        }
    }
}

/// What the first `k` kinds of host interaction add: each kind with a
/// non-zero count adds its share to its synthetic path.
pub open spec fn hostio_contributions(stats: HostIoStats, k: int) -> Seq<Contribution>
    decreases k,
{
    if k <= 0 {
        Seq::empty()
    } else {
        let p = hostio_contributions(stats, k - 1);
        let t = kind_at(k - 1);
        if stats.count_of(t) > 0 {
            p.push((hostio_path(t), hostio_share(stats, t)))
        } else {
            p
        }
    }
}

/// Everything that aggregating `trace` adds, in order.
pub open spec fn contributions(trace: ParsedTrace) -> Seq<Contribution> {
    step_contributions(step_views(trace.execution_steps@)) + hostio_contributions(
        trace.hostio_stats,
        HOSTIO_KINDS as int,
    )
}

/// The sum of the amounts added to path `p`.
pub open spec fn amount_for(c: Seq<Contribution>, p: Seq<char>) -> int
    decreases c.len(),
{
    if c.len() == 0 {
        0
    } else {
        amount_for(c.drop_last(), p) + if c.last().0 == p {
            c.last().1
        } else {
            0
        }
    }
}

/// The sum of all amounts.
pub open spec fn total_amount(c: Seq<Contribution>) -> int
    decreases c.len(),
{
    if c.len() == 0 {
        0
    } else {
        total_amount(c.drop_last()) + c.last().1
    }
}

/// `p` is the path of some step with a positive cost.
pub open spec fn from_costly_step(steps: Seq<StepView>, p: Seq<char>) -> bool {
    exists|i: int| 0 <= i < steps.len() && #[trigger] steps[i].gas_cost > 0 && step_path(steps[i]) == p
}

/// `p` is the synthetic path of a host-interaction kind that occurred.
pub open spec fn from_host_kind(stats: HostIoStats, p: Seq<char>) -> bool {
    exists|t: HostIoType| #[trigger] stats.count_of(t) > 0 && hostio_path(t) == p
}

/// Every path that the steps add to is the path of a step with a positive
/// cost: steps of zero cost never make a path of their own.
pub proof fn lemma_step_paths_come_from_costly_steps(steps: Seq<StepView>, p: Seq<char>)
    requires
        has_path(step_contributions(steps), p),
    ensures
        from_costly_step(steps, p),
    decreases steps.len(),
{
    let c = step_contributions(steps);
    let q = step_contributions(steps.drop_last());
    let k = choose|k: int| 0 <= k < c.len() && #[trigger] c[k].0 == p;
    if k < q.len() {
        assert(c[k] == q[k]);
        lemma_step_paths_come_from_costly_steps(steps.drop_last(), p);
        let i = choose|i: int|
            0 <= i < steps.drop_last().len() && #[trigger] steps.drop_last()[i].gas_cost > 0
                && step_path(steps.drop_last()[i]) == p;
        assert(steps[i] == steps.drop_last()[i]);
    } else {
        let i = steps.len() - 1;
        assert(steps[i] == steps.last());
        assert(steps[i].gas_cost > 0);
    }
}

proof fn lemma_host_paths_come_from_kinds(stats: HostIoStats, k: int, p: Seq<char>)
    requires
        has_path(hostio_contributions(stats, k), p),
    ensures
        from_host_kind(stats, p),
    decreases k,
{
    let c = hostio_contributions(stats, k);
    let q = hostio_contributions(stats, k - 1);
    let i = choose|i: int| 0 <= i < c.len() && #[trigger] c[i].0 == p;
    let t = kind_at(k - 1);
    if i < q.len() {
        assert(c[i] == q[i]);
        lemma_host_paths_come_from_kinds(stats, k - 1, p);
    } else {
        assert(stats.count_of(t) > 0 && hostio_path(t) == p);
    }
}

/// A step with a positive cost adds that cost to its path.
proof fn lemma_costly_step_contributes(steps: Seq<StepView>, j: int)
    requires
        0 <= j < steps.len(),
        steps[j].gas_cost > 0,
    ensures
        exists|k: int|
            0 <= k < step_contributions(steps).len() && #[trigger] step_contributions(steps)[k]
                == (step_path(steps[j]), steps[j].gas_cost as int),
    decreases steps.len(),
{
    let c = step_contributions(steps);
    let q = step_contributions(steps.drop_last());
    if j == steps.len() - 1 {
        assert(c[q.len() as int] == (step_path(steps[j]), steps[j].gas_cost as int));
    } else {
        assert(steps.drop_last()[j] == steps[j]);
        lemma_costly_step_contributes(steps.drop_last(), j);
        let k = choose|k: int| 0 <= k < q.len() && #[trigger] q[k] == (step_path(steps[j]), steps[j].gas_cost as int);
        assert(c[k] == q[k]);
    }
}

proof fn lemma_amount_at_least(c: Seq<Contribution>, k: int, p: Seq<char>)
    requires
        0 <= k < c.len(),
        c[k].0 == p,
        forall|i: int| 0 <= i < c.len() ==> #[trigger] c[i].1 >= 0,
    ensures
        amount_for(c, p) >= c[k].1,
    decreases c.len(),
{
    lemma_amount_nonneg(c.drop_last(), p);
    if k < c.len() - 1 {
        assert(c.drop_last()[k] == c[k]);
        lemma_amount_at_least(c.drop_last(), k, p);
    }
}

/// Something is added to path `p`.
pub open spec fn has_path(c: Seq<Contribution>, p: Seq<char>) -> bool {
    exists|i: int| 0 <= i < c.len() && #[trigger] c[i].0 == p
}

/// The sum of the positive step costs.
pub open spec fn positive_cost_sum(steps: Seq<StepView>) -> int
    decreases steps.len(),
{
    if steps.len() == 0 {
        0
    } else {
        positive_cost_sum(steps.drop_last()) + steps.last().gas_cost as int
    }
}

/// The host gas apportioned over the first `k` kinds.
pub open spec fn apportioned_hostio_gas(stats: HostIoStats, k: int) -> int
    decreases k,
{
    if k <= 0 {
        0
    } else {
        apportioned_hostio_gas(stats, k - 1) + if stats.count_of(kind_at(k - 1)) > 0 {
            hostio_share(stats, kind_at(k - 1))
        } else {
            0
        }
    }
}

/// The total weight that aggregating `trace` distributes: the positive step
/// costs and the apportioned host gas.
pub open spec fn trace_weight(trace: ParsedTrace) -> int {
    positive_cost_sum(step_views(trace.execution_steps@)) + apportioned_hostio_gas(
        trace.hostio_stats,
        HOSTIO_KINDS as int,
    )
}

proof fn lemma_apportioned_scaled(stats: HostIoStats, k: int)
    requires
        stats.wf(),
        0 <= k <= HOSTIO_KINDS,
    ensures
        apportioned_hostio_gas(stats, k) >= 0,
        apportioned_hostio_gas(stats, k) * (if stats.calls() > 0 {
            stats.calls() as int
        } else {
            1
        }) <= stats.gas() as int * sum_counts(stats.counts().take(k)),
    decreases k,
{
    let calls: int = if stats.calls() > 0 {
        stats.calls() as int
    } else {
        1
    };
    let g = stats.gas() as int;
    if k == 0 {
        assert(stats.counts().take(0) =~= Seq::<u64>::empty());
    } else {
        lemma_apportioned_scaled(stats, k - 1);
        let t = kind_at(k - 1);
        assert(kind_index(t) == k - 1);
        let c = stats.count_of(t) as int;
        assert(stats.counts().take(k).drop_last() =~= stats.counts().take(k - 1));
        assert(stats.counts().take(k).last() == stats.counts()[k - 1]);
        let prev = apportioned_hostio_gas(stats, k - 1);
        let sp = sum_counts(stats.counts().take(k - 1));
        assert(sum_counts(stats.counts().take(k)) == sp + c);
        if c > 0 {
            let share = (g * c) / calls;
            assert(share == hostio_share(stats, t));
            assert(share * calls <= g * c && share >= 0) by (nonlinear_arith)
                requires
                    share == (g * c) / calls,
                    calls >= 1,
                    g >= 0,
                    c >= 0,
            ;
            assert((prev + share) * calls <= g * (sp + c)) by (nonlinear_arith)
                requires
                    prev * calls <= g * sp,
                    share * calls <= g * c,
            ;
        } else {
            assert(g * (sp + c) == g * sp);
        }
    }
}

/// The host gas apportioned over all kinds never exceeds the host gas.
pub proof fn lemma_apportioned_within_host_gas(stats: HostIoStats)
    requires
        stats.wf(),
    ensures
        0 <= apportioned_hostio_gas(stats, HOSTIO_KINDS as int) <= stats.gas(),
{
    lemma_apportioned_scaled(stats, HOSTIO_KINDS as int);
    assert(stats.counts().take(HOSTIO_KINDS as int) =~= stats.counts());
    let a = apportioned_hostio_gas(stats, HOSTIO_KINDS as int);
    let g = stats.gas() as int;
    assert(sum_counts(stats.counts()) == stats.calls() as int);
    if stats.calls() > 0 {
        let n = stats.calls() as int;
        assert(a * n <= g * n);
        assert(a <= g) by (nonlinear_arith)
            requires
                a * n <= g * n,
                n >= 1,
        ;
    } else {
        assert(g * 0 == 0);
        assert(a * 1 <= g * 0);
    }
}

/// Weight conservation needs only that the positive step costs and the host
/// gas fit in `u64` together: then the weights that `build_collapsed_stacks`
/// returns sum to exactly the positive step costs plus the apportioned host
/// gas.
pub proof fn lemma_weight_conservation_bound(trace: ParsedTrace)
    requires
        trace.hostio_stats.wf(),
        positive_cost_sum(step_views(trace.execution_steps@)) + trace.hostio_stats.gas()
            <= u64::MAX,
    ensures
        trace_weight(trace) <= u64::MAX,
{
    lemma_apportioned_within_host_gas(trace.hostio_stats);
}

/// The sum of the weights of a list of paths.
pub open spec fn sum_weights(s: Seq<CollapsedStack>) -> int
    decreases s.len(),
{
    if s.len() == 0 {
        0
    } else {
        sum_weights(s.drop_last()) + s.last().weight
    }
}

/// Paths `keys` with weights `weights` are the accumulation of `c`: one entry
/// per path that something is added to, each holding the capped sum of what
/// is added to it.
pub open spec fn accumulates(keys: Seq<String>, weights: Seq<u64>, c: Seq<Contribution>) -> bool {
    &&& keys.len() == weights.len()
    &&& forall|i: int, j: int| 0 <= i < j < keys.len() ==> keys[i]@ != keys[j]@
    &&& forall|j: int|
        0 <= j < keys.len() ==> has_path(c, #[trigger] keys[j]@) && weights[j] == cap(
            amount_for(c, keys[j]@),
        )
    &&& forall|i: int| 0 <= i < c.len() ==> exists|j: int| 0 <= j < keys.len() && #[trigger] keys[j]@ == #[trigger] c[i].0
    &&& forall|i: int| 0 <= i < c.len() ==> #[trigger] c[i].1 >= 0
    &&& no_saturation(keys, c) ==> sum_counts(weights) == total_amount(c)
}

/// No path among `keys` is owed more than `u64::MAX` by `c`.
pub open spec fn no_saturation(keys: Seq<String>, c: Seq<Contribution>) -> bool {
    forall|j: int| 0 <= j < keys.len() ==> amount_for(c, #[trigger] keys[j]@) <= u64::MAX
}

/// Every path that aggregating `trace` adds to is owed at most `u64::MAX`.
pub open spec fn path_totals_fit(trace: ParsedTrace) -> bool {
    forall|p: Seq<char>|
        has_path(contributions(trace), p) ==> #[trigger] amount_for(contributions(trace), p)
            <= u64::MAX
}

proof fn lemma_amount_nonneg(c: Seq<Contribution>, p: Seq<char>)
    requires
        forall|i: int| 0 <= i < c.len() ==> #[trigger] c[i].1 >= 0,
    ensures
        amount_for(c, p) >= 0,
        total_amount(c) >= 0,
        amount_for(c, p) <= total_amount(c),
    decreases c.len(),
{
    if c.len() > 0 {
        assert(c.last().1 >= 0);
        lemma_amount_nonneg(c.drop_last(), p);
    }
}

proof fn lemma_amount_absent(c: Seq<Contribution>, p: Seq<char>)
    requires
        !has_path(c, p),
    ensures
        amount_for(c, p) == 0,
    decreases c.len(),
{
    if c.len() > 0 {
        assert(c.last() == c[c.len() - 1]);
        assert(!has_path(c.drop_last(), p)) by {
            if has_path(c.drop_last(), p) {
                let i = choose|i: int| 0 <= i < c.drop_last().len() && #[trigger] c.drop_last()[i].0 == p;
                assert(c[i].0 == p);
            }
        }
        lemma_amount_absent(c.drop_last(), p);
    }
}

proof fn lemma_sum_update(s: Seq<u64>, j: int, v: u64)
    requires
        0 <= j < s.len(),
    ensures
        sum_counts(s.update(j, v)) == sum_counts(s) - s[j] + v,
    decreases s.len(),
{
    let t = s.update(j, v);
    if j == s.len() - 1 {
        assert(t.drop_last() =~= s.drop_last());
    } else {
        assert(t.drop_last() =~= s.drop_last().update(j, v));
        lemma_sum_update(s.drop_last(), j, v);
    }
}

/// Adds `amount` to the entry of `path`, creating it if absent; the sum
/// saturates at `u64::MAX`.
fn accumulate(
    keys: &mut Vec<String>,
    weights: &mut Vec<u64>,
    path: String,
    amount: u64,
    Ghost(c): Ghost<Seq<Contribution>>,
)
    requires
        accumulates(old(keys)@, old(weights)@, c),
    ensures
        accumulates(final(keys)@, final(weights)@, c.push((path@, amount as int))),
{
    let ghost c2 = c.push((path@, amount as int));
    assert(c2.drop_last() =~= c);
    assert(c2.last() == (path@, amount as int));
    assert(forall|i: int| 0 <= i < c.len() ==> c2[i] == #[trigger] c[i]);
    proof {
        lemma_amount_nonneg(c, path@);
    }
    let mut j: usize = 0;
    let n = keys.len();
    while j < n
        invariant
            n == keys@.len(),
            0 <= j <= n,
            accumulates(keys@, weights@, c),
            c2 == c.push((path@, amount as int)),
            c2.drop_last() == c,
            c2.last() == (path@, amount as int),
            forall|i: int| 0 <= i < c.len() ==> c2[i] == #[trigger] c[i],
            amount_for(c, path@) >= 0,
            total_amount(c) >= 0,
            amount_for(c, path@) <= total_amount(c),
            forall|k: int| 0 <= k < j ==> keys@[k]@ != path@,
        decreases n - j,
    {
        if keys[j] == path {
            let w = weights[j];
            let ghost before_w = weights@;
            proof {
                assert(keys@[j as int]@ == path@);
                lemma_sum_counts_nonneg(weights@);
                lemma_count_le_sum(weights@, j as int);
                lemma_sum_update(weights@, j as int, w.saturating_add(amount));
            }
            weights.set(j, w.saturating_add(amount));
            assert forall|k: int| 0 <= k < keys@.len() implies has_path(c2, #[trigger] keys@[k]@)
                && weights@[k] == cap(amount_for(c2, keys@[k]@)) by {
                assert(has_path(c, keys@[k]@));
                let i = choose|i: int| 0 <= i < c.len() && #[trigger] c[i].0 == keys@[k]@;
                assert(c2[i].0 == keys@[k]@);
            }
            assert forall|i: int| 0 <= i < c2.len() implies exists|k: int|
                0 <= k < keys@.len() && #[trigger] keys@[k]@ == #[trigger] c2[i].0 by {
                if i == c.len() {
                    assert(keys@[j as int]@ == c2[i].0);
                } else {
                    assert(c2[i] == c[i]);
                }
            }
            assert(no_saturation(keys@, c2) ==> sum_counts(weights@) == total_amount(c2)) by {
                if no_saturation(keys@, c2) {
                    assert forall|k: int| 0 <= k < keys@.len() implies amount_for(
                        c,
                        #[trigger] keys@[k]@,
                    ) <= u64::MAX by {
                        assert(amount_for(c2, keys@[k]@) <= u64::MAX);
                    }
                    assert(amount_for(c2, keys@[j as int]@) <= u64::MAX);
                    assert(sum_counts(before_w) == total_amount(c));
                    assert(before_w[j as int] == amount_for(c, path@));
                }
            }
            return;
        }
        j = j + 1;
    }
    proof {
        assert(!has_path(c, path@)) by {
            if has_path(c, path@) {
                let i = choose|i: int| 0 <= i < c.len() && #[trigger] c[i].0 == path@;
                let k = choose|k: int| 0 <= k < keys@.len() && #[trigger] keys@[k]@ == #[trigger] c[i].0;
            }
        }
        lemma_amount_absent(c, path@);
    }
    let ghost before_keys = keys@;
    let ghost before_weights = weights@;
    let ghost p = path@;
    keys.push(path);
    weights.push(amount);
    assert(weights@.drop_last() =~= before_weights);
    assert forall|k: int| 0 <= k < keys@.len() implies has_path(c2, #[trigger] keys@[k]@)
        && weights@[k] == cap(amount_for(c2, keys@[k]@)) by {
        if k < before_keys.len() {
            assert(keys@[k] == before_keys[k]);
            assert(has_path(c, keys@[k]@));
            let i = choose|i: int| 0 <= i < c.len() && #[trigger] c[i].0 == keys@[k]@;
            assert(c2[i].0 == keys@[k]@);
        } else {
            assert(c2[c.len() as int].0 == p);
        }
    }
    assert forall|i: int| 0 <= i < c2.len() implies exists|k: int|
        0 <= k < keys@.len() && #[trigger] keys@[k]@ == #[trigger] c2[i].0 by {
        if i == c.len() {
            assert(keys@[before_keys.len() as int]@ == c2[i].0);
        } else {
            assert(c2[i] == c[i]);
            let k = choose|k: int| 0 <= k < before_keys.len() && #[trigger] before_keys[k]@ == #[trigger] c[i].0;
            assert(keys@[k] == before_keys[k]);
        }
    }
    assert(no_saturation(keys@, c2) ==> sum_counts(weights@) == total_amount(c2)) by {
        if no_saturation(keys@, c2) {
            assert forall|k: int| 0 <= k < before_keys.len() implies amount_for(
                c,
                #[trigger] before_keys[k]@,
            ) <= u64::MAX by {
                assert(keys@[k] == before_keys[k]);
                assert(amount_for(c2, keys@[k]@) <= u64::MAX);
            }
            assert(sum_counts(before_weights) == total_amount(c));
        }
    }
}

// ---------------------------------------------------------------------------
// The walk
// ---------------------------------------------------------------------------

/// Joins `call_stack` and `operation` with `;`; with no frames the path is the
/// operation alone.
pub fn build_stack_string(call_stack: &[String], operation: &str) -> (r: String)
    ensures
        r@ == joined_path(frame_names(call_stack@), operation@),
{
    let mut s = String::new();
    let mut i: usize = 0;
    while i < call_stack.len()
        invariant
            0 <= i <= call_stack@.len(),
            s@ == frames_prefix(frame_names(call_stack@.take(i as int))),
        decreases call_stack@.len() - i,
    {
        assert(frame_names(call_stack@.take(i + 1)).drop_last() =~= frame_names(
            call_stack@.take(i as int),
        ));
        assert(frame_names(call_stack@.take(i + 1)).last() == call_stack@[i as int]@);
        proof {
            reveal_strlit(";");
        }
        assert(";"@ =~= seq![';']);
        s.append(call_stack[i].as_str());
        s.append(";");
        i = i + 1;
    }
    assert(call_stack@.take(call_stack@.len() as int) =~= call_stack@);
    s.append(operation);
    s
}

/// The placeholder frame pushed for a call of unknown name at position `i`.
pub open spec fn frame_placeholder(i: int) -> Seq<char> {
    "frame_"@ + decimal(i as nat)
}

/// Brings `call_stack` to `new_depth` frames: truncates it, or pushes
/// placeholder frames `frame_<position>` until it is deep enough.
pub fn update_call_stack(call_stack: &mut Vec<String>, new_depth: usize)
    ensures
        final(call_stack)@.len() == new_depth,
        forall|i: int|
            0 <= i < new_depth && i < old(call_stack)@.len() ==> #[trigger] final(call_stack)@[i]
                == old(call_stack)@[i],
        forall|i: int|
            old(call_stack)@.len() <= i < new_depth ==> #[trigger] final(call_stack)@[i]@
                == frame_placeholder(i),
{
    if new_depth < call_stack.len() {
        call_stack.truncate(new_depth);
    } else {
        let ghost start = call_stack@;
        while call_stack.len() < new_depth
            invariant
                start.len() <= call_stack@.len() <= new_depth,
                forall|i: int| 0 <= i < start.len() ==> #[trigger] call_stack@[i] == start[i],
                forall|i: int|
                    start.len() <= i < call_stack@.len() ==> #[trigger] call_stack@[i]@
                        == frame_placeholder(i),
            decreases new_depth - call_stack@.len(),
        {
            let mut name = String::from_str("frame_");
            let digits = decimal_string(call_stack.len() as u64);
            name.append(digits.as_str());
            call_stack.push(name);
        }
    }
}

/// Aggregates a trace into one weighted path per distinct path, in no
/// particular order. Every path that something is added to appears once, with
/// the sum of what is added to it (capped at `u64::MAX`); zero-cost steps add
/// nothing and create no path. When the trace's total weight fits in `u64`,
/// the weights sum to it exactly.
pub fn build_collapsed_stacks(parsed_trace: &ParsedTrace) -> (r: Vec<CollapsedStack>)
    requires
        parsed_trace.hostio_stats.wf(),
    ensures
        forall|i: int, j: int| 0 <= i < j < r@.len() ==> r@[i].stack@ != r@[j].stack@,
        forall|i: int|
            0 <= i < r@.len() ==> has_path(contributions(*parsed_trace), #[trigger] r@[i].stack@)
                && r@[i].weight == cap(amount_for(contributions(*parsed_trace), r@[i].stack@)),
        forall|p: Seq<char>|
            has_path(contributions(*parsed_trace), p) ==> exists|i: int|
                0 <= i < r@.len() && #[trigger] r@[i].stack@ == p,
        trace_weight(*parsed_trace) <= u64::MAX ==> sum_weights(r@) == trace_weight(*parsed_trace),
        path_totals_fit(*parsed_trace) ==> sum_weights(r@) == trace_weight(*parsed_trace),
        forall|i: int|
            0 <= i < r@.len() ==> from_costly_step(
                step_views(parsed_trace.execution_steps@),
                #[trigger] r@[i].stack@,
            ) || from_host_kind(parsed_trace.hostio_stats, r@[i].stack@),
        forall|i: int|
            0 <= i < r@.len() && from_costly_step(
                step_views(parsed_trace.execution_steps@),
                #[trigger] r@[i].stack@,
            ) ==> r@[i].weight > 0,
{
    let ghost views = step_views(parsed_trace.execution_steps@);
    let ghost stats = parsed_trace.hostio_stats;
    let mut keys: Vec<String> = Vec::new();
    let mut weights: Vec<u64> = Vec::new();
    let mut call_stack: Vec<String> = Vec::new();
    let steps = &parsed_trace.execution_steps;
    let mut i: usize = 0;
    while i < steps.len()
        invariant
            0 <= i <= steps@.len(),
            steps == parsed_trace.execution_steps,
            views == step_views(steps@),
            accumulates(keys@, weights@, step_contributions(views.take(i as int))),
            forall|k: int| 0 <= k < call_stack@.len() ==> #[trigger] call_stack@[k]@ == "call"@,
        decreases steps@.len() - i,
    {
        let ghost pre = views.take(i as int);
        let ghost next = views.take(i + 1);
        assert(next.drop_last() =~= pre);
        let step = &steps[i];
        assert(next.last() == step@);
        let operation: &str = match &step.function {
            Some(f) => f.as_str(),
            None => match &step.op {
                Some(o) => o.as_str(),
                None => "unknown",
            },
        };
        assert(operation@ == op_name(step@));
        let current_depth = step.depth as usize;
        if current_depth < call_stack.len() {
            call_stack.truncate(current_depth);
        }
        while call_stack.len() < current_depth
            invariant
                call_stack@.len() <= current_depth,
                forall|k: int| 0 <= k < call_stack@.len() ==> #[trigger] call_stack@[k]@ == "call"@,
            decreases current_depth - call_stack@.len(),
        {
            call_stack.push(String::from_str("call"));
        }
        assert(frame_names(call_stack@) =~= placeholders(step.depth as nat));
        let stack_str = build_stack_string(call_stack.as_slice(), operation);
        if step.gas_cost > 0 {
            accumulate(&mut keys, &mut weights, stack_str, step.gas_cost, Ghost(step_contributions(pre)));
        }
        i = i + 1;
    }
    assert(views.take(steps@.len() as int) =~= views);
    let ghost sc = step_contributions(views);
    let mut k: usize = 0;
    while k < HOSTIO_KINDS
        invariant
            0 <= k <= HOSTIO_KINDS,
            stats == parsed_trace.hostio_stats,
            stats.wf(),
            sc == step_contributions(views),
            accumulates(keys@, weights@, sc + hostio_contributions(stats, k as int)),
        decreases HOSTIO_KINDS - k,
    {
        let t = kind_at_position(k);
        let count = parsed_trace.hostio_stats.count_for_type(t);
        let ghost before = sc + hostio_contributions(stats, k as int);
        if count > 0 {
            let mut path = String::from_str("hostio;");
            path.append(kind_label(t));
            let total_calls = parsed_trace.hostio_stats.total_calls();
            let calls: u64 = if total_calls > 0 {
                total_calls
            } else {
                1
            };
            let gas = parsed_trace.hostio_stats.total_gas();
            proof {
                lemma_count_le_sum(stats.counts(), k as int);
                lemma_share_fits(gas as int, count as int, calls as int);
            }
            let share = ((gas as u128 * count as u128) / calls as u128) as u64;
            assert(share as int == hostio_share(stats, t));
            accumulate(&mut keys, &mut weights, path, share, Ghost(before));
            assert(sc + hostio_contributions(stats, k + 1) =~= before.push(
                (hostio_path(t), hostio_share(stats, t)),
            ));
        } else {
            assert(sc + hostio_contributions(stats, k + 1) =~= before);
        }
        k = k + 1;
    }
    let mut r: Vec<CollapsedStack> = Vec::new();
    let mut j: usize = 0;
    while j < keys.len()
        invariant
            0 <= j <= keys@.len(),
            keys@.len() == weights@.len(),
            r@.len() == j,
            forall|m: int| 0 <= m < j ==> #[trigger] r@[m].stack@ == keys@[m]@ && r@[m].weight == weights@[m],
            sum_weights(r@) == sum_counts(weights@.take(j as int)),
        decreases keys@.len() - j,
    {
        let ghost before = r@;
        r.push(CollapsedStack::new(keys[j].clone(), weights[j]));
        assert(r@.drop_last() =~= before);
        assert(weights@.take(j + 1).drop_last() =~= weights@.take(j as int));
        j = j + 1;
    }
    assert(weights@.take(keys@.len() as int) =~= weights@);
    proof {
        lemma_total_of_contributions(*parsed_trace);
        let c = contributions(*parsed_trace);
        assert forall|p: Seq<char>| has_path(c, p) implies exists|i: int|
            0 <= i < r@.len() && #[trigger] r@[i].stack@ == p by {
            let i = choose|i: int| 0 <= i < c.len() && #[trigger] c[i].0 == p;
            let m = choose|m: int| 0 <= m < keys@.len() && #[trigger] keys@[m]@ == #[trigger] c[i].0;
            assert(r@[m].stack@ == p);
        }
        if path_totals_fit(*parsed_trace) {
            assert forall|m: int| 0 <= m < keys@.len() implies amount_for(c, #[trigger] keys@[m]@)
                <= u64::MAX by {
                assert(has_path(c, keys@[m]@));
            }
        }
        if trace_weight(*parsed_trace) <= u64::MAX {
            assert forall|m: int| 0 <= m < keys@.len() implies amount_for(c, #[trigger] keys@[m]@)
                <= u64::MAX by {
                lemma_amount_nonneg(c, keys@[m]@);
            }
        }
        let sc2 = step_contributions(views);
        let hc = hostio_contributions(stats, HOSTIO_KINDS as int);
        assert(c == sc2 + hc);
        assert forall|i: int| 0 <= i < r@.len() implies from_costly_step(views, #[trigger] r@[i].stack@)
            || from_host_kind(stats, r@[i].stack@) by {
            let p = r@[i].stack@;
            assert(has_path(c, p));
            let k = choose|k: int| 0 <= k < c.len() && #[trigger] c[k].0 == p;
            if k < sc2.len() {
                assert(c[k] == sc2[k]);
                lemma_step_paths_come_from_costly_steps(views, p);
            } else {
                assert(c[k] == hc[k - sc2.len()]);
                lemma_host_paths_come_from_kinds(stats, HOSTIO_KINDS as int, p);
            }
        }
        assert forall|i: int| 0 <= i < r@.len() && from_costly_step(views, #[trigger] r@[i].stack@)
            implies r@[i].weight > 0 by {
            let p = r@[i].stack@;
            let j = choose|j: int| 0 <= j < views.len() && #[trigger] views[j].gas_cost > 0 && step_path(views[j]) == p;
            lemma_costly_step_contributes(views, j);
            let k = choose|k: int| 0 <= k < sc2.len() && #[trigger] sc2[k] == (step_path(views[j]), views[j].gas_cost as int);
            assert(c[k] == sc2[k]);
            lemma_amount_at_least(c, k, p);
        }
    }
    r
}

proof fn lemma_share_fits(gas: int, count: int, calls: int)
    requires
        0 <= gas <= u64::MAX,
        0 <= count <= calls,
        1 <= calls <= u64::MAX,
    ensures
        0 <= gas * count <= u128::MAX,
        (gas * count) / calls <= gas,
{
    assert(gas * count <= gas * calls) by (nonlinear_arith)
        requires
            0 <= gas,
            count <= calls,
    ;
    assert(gas * count >= 0) by (nonlinear_arith)
        requires
            0 <= gas,
            0 <= count,
    ;
    assert(gas * count <= u128::MAX) by (nonlinear_arith)
        requires
            0 <= gas <= u64::MAX,
            0 <= count <= u64::MAX,
    ;
    assert((gas * count) / calls <= (gas * calls) / calls) by (nonlinear_arith)
        requires
            gas * count <= gas * calls,
            1 <= calls,
    ;
    assert((gas * calls) / calls == gas) by (nonlinear_arith)
        requires
            1 <= calls,
    ;
}

proof fn lemma_total_concat(a: Seq<Contribution>, b: Seq<Contribution>)
    ensures
        total_amount(a + b) == total_amount(a) + total_amount(b),
    decreases b.len(),
{
    if b.len() == 0 {
        assert(a + b =~= a);
    } else {
        assert((a + b).drop_last() =~= a + b.drop_last());
        lemma_total_concat(a, b.drop_last());
    }
}

proof fn lemma_total_of_steps(steps: Seq<StepView>)
    ensures
        total_amount(step_contributions(steps)) == positive_cost_sum(steps),
    decreases steps.len(),
{
    if steps.len() > 0 {
        lemma_total_of_steps(steps.drop_last());
        let p = step_contributions(steps.drop_last());
        if steps.last().gas_cost > 0 {
            let q = p.push((step_path(steps.last()), steps.last().gas_cost as int));
            assert(q.drop_last() =~= p);
        }
    }
}

proof fn lemma_total_of_hostio(stats: HostIoStats, k: int)
    ensures
        total_amount(hostio_contributions(stats, k)) == apportioned_hostio_gas(stats, k),
    decreases k,
{
    if k > 0 {
        lemma_total_of_hostio(stats, k - 1);
        let p = hostio_contributions(stats, k - 1);
        let t = kind_at(k - 1);
        if stats.count_of(t) > 0 {
            let q = p.push((hostio_path(t), hostio_share(stats, t)));
            assert(q.drop_last() =~= p);
        }
    }
}

proof fn lemma_total_of_contributions(trace: ParsedTrace)
    ensures
        total_amount(contributions(trace)) == trace_weight(trace),
{
    let views = step_views(trace.execution_steps@);
    lemma_total_concat(
        step_contributions(views),
        hostio_contributions(trace.hostio_stats, HOSTIO_KINDS as int),
    );
    lemma_total_of_steps(views);
    lemma_total_of_hostio(trace.hostio_stats, HOSTIO_KINDS as int);
}

// ---------------------------------------------------------------------------
// Folding small paths
// ---------------------------------------------------------------------------

/// The paths of weight at least `threshold`, in order.
pub open spec fn kept_stacks(s: Seq<(Seq<char>, u64)>, threshold: u64) -> Seq<(Seq<char>, u64)>
    decreases s.len(),
{
    if s.len() == 0 {
        Seq::empty()
    } else {
        let p = kept_stacks(s.drop_last(), threshold);
        if s.last().1 >= threshold {
            p.push(s.last())
        } else {
            p
        }
    }
}

/// The summed weight of the paths lighter than `threshold`.
pub open spec fn small_weight(s: Seq<(Seq<char>, u64)>, threshold: u64) -> int
    decreases s.len(),
{
    if s.len() == 0 {
        0
    } else {
        small_weight(s.drop_last(), threshold) + if s.last().1 < threshold {
            s.last().1 as int
        } else {
            0
        }
    }
}

/// The summed weight of a list of path views.
pub open spec fn view_weight(s: Seq<(Seq<char>, u64)>) -> int
    decreases s.len(),
{
    if s.len() == 0 {
        0
    } else {
        view_weight(s.drop_last()) + s.last().1
    }
}

/// What folding the paths lighter than `threshold` gives: the others in
/// order, then an `other` path with their summed weight (capped at
/// `u64::MAX`) when that sum is positive.
pub open spec fn merged_stacks(s: Seq<(Seq<char>, u64)>, threshold: u64) -> Seq<(Seq<char>, u64)> {
    if small_weight(s, threshold) > 0 {
        kept_stacks(s, threshold).push(("other"@, cap(small_weight(s, threshold))))
    } else {
        kept_stacks(s, threshold)
    }
}

proof fn lemma_merge_conserves(s: Seq<(Seq<char>, u64)>, threshold: u64)
    ensures
        view_weight(kept_stacks(s, threshold)) + small_weight(s, threshold) == view_weight(s),
        small_weight(s, threshold) >= 0,
    decreases s.len(),
{
    if s.len() > 0 {
        lemma_merge_conserves(s.drop_last(), threshold);
        let p = kept_stacks(s.drop_last(), threshold);
        if s.last().1 >= threshold {
            assert(p.push(s.last()).drop_last() =~= p);
        }
    }
}

proof fn lemma_view_weight_nonneg(s: Seq<(Seq<char>, u64)>)
    ensures
        view_weight(s) >= 0,
    decreases s.len(),
{
    if s.len() > 0 {
        lemma_view_weight_nonneg(s.drop_last());
    }
}

proof fn lemma_view_weight_of_stacks(s: Seq<CollapsedStack>)
    ensures
        view_weight(stack_views(s)) == sum_weights(s),
    decreases s.len(),
{
    if s.len() > 0 {
        assert(stack_views(s).drop_last() =~= stack_views(s.drop_last()));
        lemma_view_weight_of_stacks(s.drop_last());
    }
}

/// Folds the paths lighter than `threshold` into one `other` path, appended
/// when their summed weight is positive. The total weight is kept whenever it
/// fits in `u64`.
pub fn merge_small_stacks(stacks: Vec<CollapsedStack>, threshold: u64) -> (r: Vec<CollapsedStack>)
    ensures
        stack_views(r@) == merged_stacks(stack_views(stacks@), threshold),
        sum_weights(stacks@) <= u64::MAX ==> sum_weights(r@) == sum_weights(stacks@),
{
    let ghost views = stack_views(stacks@);
    let mut merged: Vec<CollapsedStack> = Vec::new();
    let mut other_weight: u64 = 0;
    let mut i: usize = 0;
    while i < stacks.len()
        invariant
            0 <= i <= stacks@.len(),
            views == stack_views(stacks@),
            stack_views(merged@) == kept_stacks(views.take(i as int), threshold),
            other_weight == cap(small_weight(views.take(i as int), threshold)),
        decreases stacks@.len() - i,
    {
        let ghost pre = views.take(i as int);
        assert(views.take(i + 1).drop_last() =~= pre);
        assert(views.take(i + 1).last() == stacks@[i as int]@);
        proof {
            lemma_merge_conserves(pre, threshold);
        }
        let ghost before = merged@;
        let w = stacks[i].weight;
        if w >= threshold {
            merged.push(CollapsedStack::new(stacks[i].stack.clone(), w));
            assert(stack_views(merged@) =~= stack_views(before).push(stacks@[i as int]@));
        } else {
            other_weight = other_weight.saturating_add(w);
        }
        i = i + 1;
    }
    assert(views.take(stacks@.len() as int) =~= views);
    proof {
        lemma_merge_conserves(views, threshold);
    }
    if other_weight > 0 {
        let ghost before = merged@;
        proof {
            reveal_strlit("other");
        }
        merged.push(CollapsedStack::new(String::from_str("other"), other_weight));
        assert(stack_views(merged@) =~= stack_views(before).push(("other"@, other_weight)));
    }
    proof {
        lemma_view_weight_of_stacks(stacks@);
        lemma_view_weight_of_stacks(merged@);
        let k = kept_stacks(views, threshold);
        lemma_view_weight_nonneg(k);
        if small_weight(views, threshold) > 0 {
            assert(k.push(("other"@, other_weight)).drop_last() =~= k);
            assert(view_weight(k.push(("other"@, other_weight))) == view_weight(k) + other_weight);
        }
    }
    merged
}

} // verus!
