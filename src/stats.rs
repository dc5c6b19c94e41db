//! Statistics over the extracted collections: per-operator activation
//! statistics, their cross-worker aggregate, per-dataflow counts, and
//! worker and program rollups.
use vstd::prelude::*;
use crate::addr::{is_ancestor, is_strict_prefix};
use crate::extract::{ActivationRecord, ChannelRecord, Lifespan, LifespanRecord, OperatorRecord};
use crate::timeline::{PartialTimelineEvent, SpanRecord};

verus! {

/// One activation of an operator: when it started and how long it ran.
#[derive(Clone, Copy, Debug, PartialEq, Eq, Structural)]
pub struct ActivationDuration {
    pub start: u64,
    pub duration: u64,
}

/// Summary statistics of a non-empty list of activation durations.
#[derive(Clone, Copy, Debug, PartialEq, Eq, Structural)]
pub struct Summary {
    pub activations: usize,
    pub min: u64,
    pub max: u64,
    pub total: u128,
    pub average: u64,
}

/// Activation statistics of one operator on one worker.
#[derive(Clone, Debug)]
pub struct OperatorStats {
    pub id: usize,
    pub worker: usize,
    pub summary: Summary,
    pub activation_durations: Vec<ActivationDuration>,
    /// A rough size band of the operator's arrangement, where it merged.
    pub arrangement_size: Option<ArrangementSize>,
}

/// The fewest and most merges that an operator went through within one of
/// its activations: a rough stand-in for the size of its arrangement.
#[derive(Clone, Copy, Debug, PartialEq, Eq, Structural)]
pub struct ArrangementSize {
    pub min_size: u64,
    pub max_size: u64,
}

/// Activation statistics of one operator, summed over all workers.
#[derive(Clone, Copy, Debug, PartialEq, Eq, Structural)]
pub struct AggregatedOperatorStats {
    pub id: usize,
    pub summary: Summary,
}

pub open spec fn seq_sum(s: Seq<u64>) -> int
    decreases s.len(),
{
    if s.len() == 0 {
        0
    } else {
        seq_sum(s.drop_last()) + s.last()
    }
}

pub open spec fn seq_min(s: Seq<u64>) -> u64
    decreases s.len(),
{
    if s.len() <= 1 {
        if s.len() == 0 {
            0
        } else {
            s[0]
        }
    } else if s.last() < seq_min(s.drop_last()) {
        s.last()
    } else {
        seq_min(s.drop_last())
    }
}

pub open spec fn seq_max(s: Seq<u64>) -> u64
    decreases s.len(),
{
    if s.len() <= 1 {
        if s.len() == 0 {
            0
        } else {
            s[0]
        }
    } else if s.last() > seq_max(s.drop_last()) {
        s.last()
    } else {
        seq_max(s.drop_last())
    }
}

/// The summary of a non-empty list of durations.
pub open spec fn summary_of(s: Seq<u64>) -> Summary {
    Summary {
        activations: s.len() as usize,
        min: seq_min(s),
        max: seq_max(s),
        total: seq_sum(s) as u128,
        average: (seq_sum(s) / s.len() as int) as u64,
    }
}

pub proof fn lemma_extremes(s: Seq<u64>)
    requires
        s.len() > 0,
    ensures
        forall|i: int| 0 <= i < s.len() ==> seq_min(s) <= #[trigger] s[i] <= seq_max(s),
        s.len() * seq_min(s) <= seq_sum(s) <= s.len() * seq_max(s),
        0 <= seq_sum(s) <= s.len() * u64::MAX,
        seq_max(s) <= seq_sum(s),
    decreases s.len(),
{
    if s.len() == 1 {
        assert(s.drop_last().len() == 0);
        assert(seq_sum(s.drop_last()) == 0);
        assert(s.last() == s[0]);
        assert(seq_sum(s) == s[0]);
    } else {
        let p = s.drop_last();
        lemma_extremes(p);
        assert forall|i: int| 0 <= i < s.len() implies seq_min(s) <= #[trigger] s[i] <= seq_max(
            s,
        ) by {
            if i < p.len() {
                assert(s[i] == p[i]);
            }
        }
        let n = p.len() as int;
        assert(n * seq_min(s) <= n * seq_min(p)) by (nonlinear_arith)
            requires
                seq_min(s) <= seq_min(p),
                n >= 0,
        ;
        assert(n * seq_max(p) <= n * seq_max(s)) by (nonlinear_arith)
            requires
                seq_max(p) <= seq_max(s),
                n >= 0,
        ;
        assert(n * seq_max(p) <= n * u64::MAX) by (nonlinear_arith)
            requires
                seq_max(p) <= u64::MAX,
                n >= 0,
        ;
        assert((n + 1) * seq_min(s) == n * seq_min(s) + seq_min(s)) by (nonlinear_arith);
        assert((n + 1) * seq_max(s) == n * seq_max(s) + seq_max(s)) by (nonlinear_arith);
        assert((n + 1) * u64::MAX == n * u64::MAX + u64::MAX) by (nonlinear_arith);
    }
}

/// The invariant of activation statistics: the minimum is at most the
/// average, the average at most the maximum, the maximum at most the total,
/// and the total is the sum of the durations.
pub proof fn lemma_summary_bounds(s: Seq<u64>)
    requires
        0 < s.len() <= usize::MAX,
    ensures
        summary_of(s).min <= summary_of(s).average <= summary_of(s).max,
        summary_of(s).max as int <= summary_of(s).total as int,
        summary_of(s).total as int == seq_sum(s),
{
    lemma_extremes(s);
    let n = s.len() as int;
    let t = seq_sum(s);
    let lo = seq_min(s) as int;
    let hi = seq_max(s) as int;
    assert(lo <= t / n <= hi) by (nonlinear_arith)
        requires
            n > 0,
            n * lo <= t,
            t <= n * hi,
    ;
    assert(t <= u128::MAX) by (nonlinear_arith)
        requires
            t <= n * u64::MAX,
            n <= usize::MAX,
    ;
}

/// Summarises a non-empty list of durations.
pub fn summarize(durations: &Vec<u64>) -> (r: Summary)
    requires
        durations@.len() > 0,
    ensures
        r == summary_of(durations@),
{
    let ghost s = durations@;
    let mut total: u128 = 0;
    let mut min: u64 = durations[0];
    let mut max: u64 = durations[0];
    let mut i: usize = 0;
    while i < durations.len()
        invariant
            i <= s.len(),
            s == durations@,
            s.len() > 0,
            total as int == seq_sum(s.take(i as int)),
            i > 0 ==> min == seq_min(s.take(i as int)),
            i > 0 ==> max == seq_max(s.take(i as int)),
            i == 0 ==> min == s[0] && max == s[0],
        decreases s.len() - i,
    {
        let d = durations[i];
        let ghost t = s.take(i + 1);
        assert(t.drop_last() =~= s.take(i as int));
        assert(t.last() == d);
        proof {
            if i > 0 {
                lemma_extremes(s.take(i as int));
            }
            assert(seq_sum(s.take(i as int)) <= i * u64::MAX) by {
                if i == 0 {
                    assert(s.take(0).len() == 0);
                }
            }
            assert(i * u64::MAX + u64::MAX <= u128::MAX) by (nonlinear_arith)
                requires
                    i < usize::MAX,
            ;
        }
        total = total + d as u128;
        if i == 0 {
            assert(t.len() == 1);
        } else {
            if d < min {
                min = d;
            }
            if d > max {
                max = d;
            }
        }
        i += 1;
    }
    assert(s.take(s.len() as int) =~= s);
    proof {
        lemma_summary_bounds(s);
        lemma_extremes(s);
    }
    let average = (total / (durations.len() as u128)) as u64;
    Summary { activations: durations.len(), min, max, total, average }
}

/// The activations of `operator` on `worker`, in the order they were logged.
pub open spec fn activations_of(acts: Seq<ActivationRecord>, worker: usize, operator: usize) -> Seq<
    ActivationDuration,
>
    decreases acts.len(),
{
    if acts.len() == 0 {
        seq![]
    } else if acts.last().worker == worker && acts.last().operator == operator {
        activations_of(acts.drop_last(), worker, operator).push(
            ActivationDuration { start: acts.last().start, duration: acts.last().duration },
        )
    } else {
        activations_of(acts.drop_last(), worker, operator)
    }
}

/// The durations of the activations of `operator` on any worker.
pub open spec fn durations_across(acts: Seq<ActivationRecord>, operator: usize) -> Seq<u64>
    decreases acts.len(),
{
    if acts.len() == 0 {
        seq![]
    } else if acts.last().operator == operator {
        durations_across(acts.drop_last(), operator).push(acts.last().duration)
    } else {
        durations_across(acts.drop_last(), operator)
    }
}

/// Merge `m` belongs to `operator` on `worker` and starts within activation
/// `a`.
pub open spec fn merge_within(m: SpanRecord, worker: usize, operator: usize, a: ActivationDuration) -> bool {
    &&& m.worker == worker
    &&& m.event == PartialTimelineEvent::Merge { operator_id: operator }
    &&& a.start <= m.start
    &&& m.start <= a.start + a.duration
}

/// The number of merges of `operator` on `worker` that start within
/// activation `a`.
pub open spec fn merges_within(
    merges: Seq<SpanRecord>,
    worker: usize,
    operator: usize,
    a: ActivationDuration,
) -> nat
    decreases merges.len(),
{
    if merges.len() == 0 {
        0
    } else {
        merges_within(merges.drop_last(), worker, operator, a) + if merge_within(
            merges.last(),
            worker,
            operator,
            a,
        ) {
            1nat
        } else {
            0nat
        }
    }
}

/// Whether `operator` on `worker` merged at all.
pub open spec fn has_merges(merges: Seq<SpanRecord>, worker: usize, operator: usize) -> bool {
    exists|i: int|
        0 <= i < merges.len() && (#[trigger] merges[i]).worker == worker && merges[i].event
            == PartialTimelineEvent::Merge { operator_id: operator }
}

/// The merge count of each activation.
pub open spec fn merge_counts(
    acts: Seq<ActivationDuration>,
    merges: Seq<SpanRecord>,
    worker: usize,
    operator: usize,
) -> Seq<u64> {
    acts.map_values(|a: ActivationDuration| merges_within(merges, worker, operator, a) as u64)
}

fn count_merges_within(
    merges: &Vec<SpanRecord>,
    worker: usize,
    operator: usize,
    a: ActivationDuration,
) -> (r: u64)
    ensures
        r as int == merges_within(merges@, worker, operator, a),
{
    let ghost s = merges@;
    let mut n: u64 = 0;
    let mut i: usize = 0;
    while i < merges.len()
        invariant
            i <= s.len(),
            s == merges@,
            n as int == merges_within(s.take(i as int), worker, operator, a),
            n <= i,
        decreases s.len() - i,
    {
        let m = merges[i];
        let ghost t = s.take(i + 1);
        assert(t.drop_last() =~= s.take(i as int));
        assert(t.last() == m);
        if m.worker == worker && m.event == (PartialTimelineEvent::Merge { operator_id: operator })
            && a.start <= m.start && m.start as u128 <= a.start as u128 + a.duration as u128 {
            n += 1;
        }
        i += 1;
    }
    assert(s.take(s.len() as int) =~= s);
    n
}

fn find_merge(merges: &Vec<SpanRecord>, worker: usize, operator: usize) -> (r: bool)
    ensures
        r == has_merges(merges@, worker, operator),
{
    let mut i: usize = 0;
    while i < merges.len()
        invariant
            i <= merges@.len(),
            forall|j: int|
                0 <= j < i ==> !((#[trigger] merges@[j]).worker == worker && merges@[j].event
                    == PartialTimelineEvent::Merge { operator_id: operator }),
        decreases merges@.len() - i,
    {
        if merges[i].worker == worker && merges[i].event == (PartialTimelineEvent::Merge {
            operator_id: operator,
        }) {
            return true;
        }
        i += 1;
    }
    false
}

/// The arrangement size band of `operator` on `worker`: the fewest and most
/// merges within one of its activations, or `None` where it never merged or
/// never ran.
pub fn arrangement_size(
    worker: usize,
    operator: usize,
    activations: &Vec<ActivationDuration>,
    merges: &Vec<SpanRecord>,
) -> (r: Option<ArrangementSize>)
    ensures
        r.is_none() <==> (activations@.len() == 0 || !has_merges(merges@, worker, operator)),
        r matches Some(band) ==> band.min_size == seq_min(
            merge_counts(activations@, merges@, worker, operator),
        ) && band.max_size == seq_max(merge_counts(activations@, merges@, worker, operator)),
{
    if activations.len() == 0 || !find_merge(merges, worker, operator) {
        return None;
    }
    let mut counts: Vec<u64> = Vec::new();
    let mut k: usize = 0;
    while k < activations.len()
        invariant
            k <= activations@.len(),
            counts@ == merge_counts(activations@.take(k as int), merges@, worker, operator),
        decreases activations@.len() - k,
    {
        let c = count_merges_within(merges, worker, operator, activations[k]);
        counts.push(c);
        k += 1;
        assert(counts@ =~= merge_counts(activations@.take(k as int), merges@, worker, operator));
    }
    assert(activations@.take(activations@.len() as int) =~= activations@);
    let band = summarize(&counts);
    Some(ArrangementSize { min_size: band.min, max_size: band.max })
}

/// Activation statistics of `operator` on `worker`, with the size band of
/// its arrangement from the merge records `merges`: `None` where it has no
/// activation.
pub fn operator_stats(
    worker: usize,
    operator: usize,
    activations: &Vec<ActivationRecord>,
    merges: &Vec<SpanRecord>,
) -> (r: Option<OperatorStats>)
    ensures
        r.is_none() <==> activations_of(activations@, worker, operator).len() == 0,
        r matches Some(st) ==> {
            &&& st.id == operator
            &&& st.worker == worker
            &&& st.activation_durations@ == activations_of(activations@, worker, operator)
            &&& st.summary == summary_of(
                activations_of(activations@, worker, operator).map_values(
                    |a: ActivationDuration| a.duration,
                ),
            )
            &&& st.summary.activations == st.activation_durations@.len()
            &&& st.summary.total as int == seq_sum(
                st.activation_durations@.map_values(|a: ActivationDuration| a.duration),
            )
            &&& st.arrangement_size == (if has_merges(merges@, worker, operator) {
                Some(
                    ArrangementSize {
                        min_size: seq_min(
                            merge_counts(st.activation_durations@, merges@, worker, operator),
                        ),
                        max_size: seq_max(
                            merge_counts(st.activation_durations@, merges@, worker, operator),
                        ),
                    },
                )
            } else {
                None
            })
        },
{
    let ghost s = activations@;
    let mut list: Vec<ActivationDuration> = Vec::new();
    let mut durations: Vec<u64> = Vec::new();
    let mut i: usize = 0;
    while i < activations.len()
        invariant
            i <= s.len(),
            s == activations@,
            list@ == activations_of(s.take(i as int), worker, operator),
            durations@ == list@.map_values(|a: ActivationDuration| a.duration),
        decreases s.len() - i,
    {
        let a = activations[i];
        assert(s.take(i + 1).drop_last() =~= s.take(i as int));
        assert(s.take(i + 1).last() == a);
        if a.worker == worker && a.operator == operator {
            list.push(ActivationDuration { start: a.start, duration: a.duration });
            durations.push(a.duration);
        }
        assert(durations@ =~= list@.map_values(|a: ActivationDuration| a.duration));
        i += 1;
    }
    assert(s.take(s.len() as int) =~= s);
    if list.len() == 0 {
        None
    } else {
        let summary = summarize(&durations);
        proof {
            lemma_summary_bounds(durations@);
        }
        let arrangement = arrangement_size(worker, operator, &list, merges);
        Some(
            OperatorStats {
                id: operator,
                worker,
                summary,
                activation_durations: list,
                arrangement_size: arrangement,
            },
        )
    }
}

/// Activation statistics of `operator` summed over all workers: `None` where
/// it has no activation on any worker.
pub fn aggregate_operator_stats(operator: usize, activations: &Vec<ActivationRecord>) -> (r: Option<
    AggregatedOperatorStats,
>)
    ensures
        r.is_none() <==> durations_across(activations@, operator).len() == 0,
        r matches Some(st) ==> st.id == operator && st.summary == summary_of(
            durations_across(activations@, operator),
        ),
{
    let ghost s = activations@;
    let mut durations: Vec<u64> = Vec::new();
    let mut i: usize = 0;
    while i < activations.len()
        invariant
            i <= s.len(),
            s == activations@,
            durations@ == durations_across(s.take(i as int), operator),
        decreases s.len() - i,
    {
        let a = activations[i];
        assert(s.take(i + 1).drop_last() =~= s.take(i as int));
        assert(s.take(i + 1).last() == a);
        if a.operator == operator {
            durations.push(a.duration);
        }
        i += 1;
    }
    assert(s.take(s.len() as int) =~= s);
    if durations.len() == 0 {
        None
    } else {
        let summary = summarize(&durations);
        Some(AggregatedOperatorStats { id: operator, summary })
    }
}

/// Entry `i` of `ops` is an operator of `worker` underneath the address `a`.
pub open spec fn op_under(ops: Seq<OperatorRecord>, i: int, worker: usize, a: Seq<usize>) -> bool {
    ops[i].worker == worker && is_strict_prefix(a, ops[i].operator.addr@)
}

/// Some operator of `worker` in `ops` lies underneath the address `a`: the
/// operator at `a` is a subgraph.
pub open spec fn has_child(ops: Seq<OperatorRecord>, worker: usize, a: Seq<usize>) -> bool {
    exists|j: int| 0 <= j < ops.len() && #[trigger] op_under(ops, j, worker, a)
}

/// The number of operators of `worker` in `ops` underneath `a`.
pub open spec fn count_under(ops: Seq<OperatorRecord>, worker: usize, a: Seq<usize>) -> nat
    decreases ops.len(),
{
    if ops.len() == 0 {
        0
    } else {
        count_under(ops.drop_last(), worker, a) + if op_under(ops, ops.len() - 1, worker, a) {
            1nat
        } else {
            0nat
        }
    }
}

/// The number of operators of `worker` in `ops` underneath `a` that are
/// subgraphs among the operators `all`.
pub open spec fn subgraphs_under(
    ops: Seq<OperatorRecord>,
    all: Seq<OperatorRecord>,
    worker: usize,
    a: Seq<usize>,
) -> nat
    decreases ops.len(),
{
    if ops.len() == 0 {
        0
    } else {
        subgraphs_under(ops.drop_last(), all, worker, a) + if op_under(
            ops,
            ops.len() - 1,
            worker,
            a,
        ) && has_child(all, worker, ops.last().operator.addr@) {
            1nat
        } else {
            0nat
        }
    }
}

/// The number of channels of `worker` whose scope lies underneath `a`.
pub open spec fn channels_under(chs: Seq<ChannelRecord>, worker: usize, a: Seq<usize>) -> nat
    decreases chs.len(),
{
    if chs.len() == 0 {
        0
    } else {
        channels_under(chs.drop_last(), worker, a) + if chs.last().worker == worker
            && is_strict_prefix(a, chs.last().channel.scope_addr@) {
            1nat
        } else {
            0nat
        }
    }
}

/// The lifespan of `operator` on `worker`: the last one logged.
pub open spec fn lifespan_of(lifes: Seq<LifespanRecord>, worker: usize, operator: usize) -> Option<
    Lifespan,
>
    decreases lifes.len(),
{
    if lifes.len() == 0 {
        None
    } else if lifes.last().worker == worker && lifes.last().operator == operator {
        Some(lifes.last().lifespan)
    } else {
        lifespan_of(lifes.drop_last(), worker, operator)
    }
}

/// Counts under one top-level dataflow.
#[derive(Clone, Debug)]
pub struct DataflowStats {
    pub id: usize,
    pub worker: usize,
    pub addr: Vec<usize>,
    pub operators: usize,
    pub subgraphs: usize,
    pub channels: usize,
    pub lifespan: Lifespan,
}

/// The model of [`DataflowStats`].
pub struct DataflowRow {
    pub id: usize,
    pub worker: usize,
    pub addr: Seq<usize>,
    pub operators: nat,
    pub subgraphs: nat,
    pub channels: nat,
    pub lifespan: Lifespan,
}

impl View for DataflowStats {
    type V = DataflowRow;

    open spec fn view(&self) -> DataflowRow {
        DataflowRow {
            id: self.id,
            worker: self.worker,
            addr: self.addr@,
            operators: self.operators as nat,
            subgraphs: self.subgraphs as nat,
            channels: self.channels as nat,
            lifespan: self.lifespan,
        }
    }
}

/// The row of the dataflow whose operator is `op`.
pub open spec fn dataflow_row(
    op: OperatorRecord,
    all: Seq<OperatorRecord>,
    chs: Seq<ChannelRecord>,
    lifespan: Lifespan,
) -> DataflowRow {
    DataflowRow {
        id: op.operator.id,
        worker: op.worker,
        addr: op.operator.addr@,
        operators: count_under(all, op.worker, op.operator.addr@),
        subgraphs: subgraphs_under(all, all, op.worker, op.operator.addr@),
        channels: channels_under(chs, op.worker, op.operator.addr@),
        lifespan,
    }
}

/// One row for each operator of `ops` at a top-level address that has a
/// lifespan, in the order of `ops`.
pub open spec fn dataflow_rows(
    ops: Seq<OperatorRecord>,
    all: Seq<OperatorRecord>,
    chs: Seq<ChannelRecord>,
    lifes: Seq<LifespanRecord>,
) -> Seq<DataflowRow>
    decreases ops.len(),
{
    if ops.len() == 0 {
        seq![]
    } else {
        let op = ops.last();
        let rest = dataflow_rows(ops.drop_last(), all, chs, lifes);
        if op.operator.addr@.len() == 1 && lifespan_of(lifes, op.worker, op.operator.id).is_some() {
            rest.push(
                dataflow_row(op, all, chs, lifespan_of(lifes, op.worker, op.operator.id).unwrap()),
            )
        } else {
            rest
        }
    }
}

fn count_operators_under(ops: &Vec<OperatorRecord>, worker: usize, a: &Vec<usize>) -> (r: usize)
    ensures
        r == count_under(ops@, worker, a@),
{
    let ghost s = ops@;
    let mut n: usize = 0;
    let mut i: usize = 0;
    while i < ops.len()
        invariant
            i <= s.len(),
            s == ops@,
            n == count_under(s.take(i as int), worker, a@),
            n <= i,
        decreases s.len() - i,
    {
        let ghost t = s.take(i + 1);
        assert(t.drop_last() =~= s.take(i as int));
        assert(t[i as int] == s[i as int]);
        if ops[i].worker == worker && is_ancestor(a, &ops[i].operator.addr) {
            n += 1;
        }
        i += 1;
    }
    assert(s.take(s.len() as int) =~= s);
    n
}

/// Whether the operator of `worker` at `a` has an operator underneath it.
pub fn is_subgraph_of(ops: &Vec<OperatorRecord>, worker: usize, a: &Vec<usize>) -> (r: bool)
    ensures
        r == has_child(ops@, worker, a@),
{
    let mut i: usize = 0;
    while i < ops.len()
        invariant
            i <= ops@.len(),
            forall|j: int| 0 <= j < i ==> !#[trigger] op_under(ops@, j, worker, a@),
        decreases ops@.len() - i,
    {
        if ops[i].worker == worker && is_ancestor(a, &ops[i].operator.addr) {
            assert(op_under(ops@, i as int, worker, a@));
            return true;
        }
        i += 1;
    }
    false
}

fn count_subgraphs_under(ops: &Vec<OperatorRecord>, worker: usize, a: &Vec<usize>) -> (r: usize)
    ensures
        r == subgraphs_under(ops@, ops@, worker, a@),
{
    let ghost s = ops@;
    let mut n: usize = 0;
    let mut i: usize = 0;
    while i < ops.len()
        invariant
            i <= s.len(),
            s == ops@,
            n == subgraphs_under(s.take(i as int), s, worker, a@),
            n <= i,
        decreases s.len() - i,
    {
        let ghost t = s.take(i + 1);
        assert(t.drop_last() =~= s.take(i as int));
        assert(t[i as int] == s[i as int]);
        if ops[i].worker == worker && is_ancestor(a, &ops[i].operator.addr) && is_subgraph_of(
            ops,
            worker,
            &ops[i].operator.addr,
        ) {
            n += 1;
        }
        i += 1;
    }
    assert(s.take(s.len() as int) =~= s);
    n
}

fn count_channels_under(chs: &Vec<ChannelRecord>, worker: usize, a: &Vec<usize>) -> (r: usize)
    ensures
        r == channels_under(chs@, worker, a@),
{
    let ghost s = chs@;
    let mut n: usize = 0;
    let mut i: usize = 0;
    while i < chs.len()
        invariant
            i <= s.len(),
            s == chs@,
            n == channels_under(s.take(i as int), worker, a@),
            n <= i,
        decreases s.len() - i,
    {
        let ghost t = s.take(i + 1);
        assert(t.drop_last() =~= s.take(i as int));
        assert(t[i as int] == s[i as int]);
        if chs[i].worker == worker && is_ancestor(a, &chs[i].channel.scope_addr) {
            n += 1;
        }
        i += 1;
    }
    assert(s.take(s.len() as int) =~= s);
    n
}

fn find_lifespan(lifes: &Vec<LifespanRecord>, worker: usize, operator: usize) -> (r: Option<Lifespan>)
    ensures
        r == lifespan_of(lifes@, worker, operator),
{
    let ghost s = lifes@;
    let mut i: usize = lifes.len();
    assert(s.take(i as int) =~= s);
    while i > 0
        invariant
            i <= s.len(),
            s == lifes@,
            lifespan_of(s, worker, operator) == lifespan_of(s.take(i as int), worker, operator),
        decreases i,
    {
        let l = lifes[i - 1];
        assert(s.take(i as int).last() == l);
        assert(s.take(i as int).drop_last() =~= s.take(i - 1));
        if l.worker == worker && l.operator == operator {
            return Some(l.lifespan);
        }
        i -= 1;
    }
    None
}

/// Statistics of each top-level dataflow that has a lifespan: how many
/// operators, subgraphs and channels lie underneath it on its worker.
pub fn dataflow_stats(
    operators: &Vec<OperatorRecord>,
    channels: &Vec<ChannelRecord>,
    lifespans: &Vec<LifespanRecord>,
) -> (r: Vec<DataflowStats>)
    ensures
        r@.map_values(|d: DataflowStats| d@) == dataflow_rows(
            operators@,
            operators@,
            channels@,
            lifespans@,
        ),
{
    let ghost s = operators@;
    let mut out: Vec<DataflowStats> = Vec::new();
    let mut i: usize = 0;
    while i < operators.len()
        invariant
            i <= s.len(),
            s == operators@,
            out@.map_values(|d: DataflowStats| d@) == dataflow_rows(
                s.take(i as int),
                s,
                channels@,
                lifespans@,
            ),
        decreases s.len() - i,
    {
        let ghost t = s.take(i + 1);
        assert(t.drop_last() =~= s.take(i as int));
        assert(t.last() == s[i as int]);
        let op = &operators[i];
        if op.operator.addr.len() == 1 {
            match find_lifespan(lifespans, op.worker, op.operator.id) {
                Some(lifespan) => {
                    let addr = op.operator.addr.clone();
                    assert(addr@ =~= op.operator.addr@);
                    let row = DataflowStats {
                        id: op.operator.id,
                        worker: op.worker,
                        addr,
                        operators: count_operators_under(operators, op.worker, &op.operator.addr),
                        subgraphs: count_subgraphs_under(operators, op.worker, &op.operator.addr),
                        channels: count_channels_under(channels, op.worker, &op.operator.addr),
                        lifespan,
                    };
                    out.push(row);
                    assert(out@.map_values(|d: DataflowStats| d@) =~= dataflow_rows(
                        s.take(i as int),
                        s,
                        channels@,
                        lifespans@,
                    ).push(row@));
                },
                None => {},
            }
        }
        i += 1;
    }
    assert(s.take(s.len() as int) =~= s);
    out
}

/// The number of operators of `worker` in `ops` at a top-level address.
pub open spec fn count_dataflows(ops: Seq<OperatorRecord>, worker: usize) -> nat
    decreases ops.len(),
{
    if ops.len() == 0 {
        0
    } else {
        count_dataflows(ops.drop_last(), worker) + if ops.last().worker == worker
            && ops.last().operator.addr@.len() == 1 {
            1nat
        } else {
            0nat
        }
    }
}

/// Time from the first to the last of a worker's events.
pub open spec fn runtime_of(times: Seq<u64>) -> u64 {
    if times.len() == 0 {
        0
    } else {
        (seq_max(times) - seq_min(times)) as u64
    }
}

/// Counts over one worker's part of the log.
#[derive(Clone, Copy, Debug, PartialEq, Eq, Structural)]
pub struct WorkerStats {
    pub dataflows: usize,
    pub operators: usize,
    pub subgraphs: usize,
    pub channels: usize,
    pub events: usize,
    pub runtime: u64,
}

/// Counts over the whole log: sums of the workers' counts, and the longest
/// runtime.
#[derive(Clone, Copy, Debug, PartialEq, Eq, Structural)]
pub struct ProgramStats {
    pub workers: usize,
    pub dataflows: u128,
    pub operators: u128,
    pub subgraphs: u128,
    pub channels: u128,
    pub events: u128,
    pub runtime: u64,
}

fn count_dataflow_operators(ops: &Vec<OperatorRecord>, worker: usize) -> (r: usize)
    ensures
        r == count_dataflows(ops@, worker),
{
    let ghost s = ops@;
    let mut n: usize = 0;
    let mut i: usize = 0;
    while i < ops.len()
        invariant
            i <= s.len(),
            s == ops@,
            n == count_dataflows(s.take(i as int), worker),
            n <= i,
        decreases s.len() - i,
    {
        let ghost t = s.take(i + 1);
        assert(t.drop_last() =~= s.take(i as int));
        assert(t.last() == s[i as int]);
        if ops[i].worker == worker && ops[i].operator.addr.len() == 1 {
            n += 1;
        }
        i += 1;
    }
    assert(s.take(s.len() as int) =~= s);
    n
}

/// Counts of `worker`: its dataflows, operators, subgraphs and channels
/// among the extracted records, its number of events, and the time between
/// its first and last event, given the times of its events.
pub fn worker_stats(
    worker: usize,
    operators: &Vec<OperatorRecord>,
    channels: &Vec<ChannelRecord>,
    event_times: &Vec<u64>,
) -> (r: WorkerStats)
    ensures
        r.dataflows == count_dataflows(operators@, worker),
        r.operators == count_under(operators@, worker, seq![]),
        r.subgraphs == subgraphs_under(operators@, operators@, worker, seq![]),
        r.channels == channels_under(channels@, worker, seq![]),
        r.events == event_times@.len(),
        r.runtime == runtime_of(event_times@),
{
    let root: Vec<usize> = Vec::new();
    assert(root@ =~= Seq::<usize>::empty());
    let runtime = if event_times.len() == 0 {
        0
    } else {
        let ghost s = event_times@;
        let mut lo: u64 = event_times[0];
        let mut hi: u64 = event_times[0];
        let mut i: usize = 1;
        assert(s.take(1).drop_last().len() == 0);
        assert(s.take(1) =~= seq![s[0]]);
        while i < event_times.len()
            invariant
                1 <= i <= s.len(),
                s == event_times@,
                lo == seq_min(s.take(i as int)),
                hi == seq_max(s.take(i as int)),
            decreases s.len() - i,
        {
            let d = event_times[i];
            let ghost t = s.take(i + 1);
            assert(t.drop_last() =~= s.take(i as int));
            assert(t.last() == d);
            if d < lo {
                lo = d;
            }
            if d > hi {
                hi = d;
            }
            i += 1;
        }
        assert(s.take(s.len() as int) =~= s);
        proof {
            lemma_extremes(s);
        }
        hi - lo
    };
    WorkerStats {
        dataflows: count_dataflow_operators(operators, worker),
        operators: count_operators_under(operators, worker, &root),
        subgraphs: count_subgraphs_under(operators, worker, &root),
        channels: count_channels_under(channels, worker, &root),
        events: event_times.len(),
        runtime,
    }
}

/// The sum of one count over the workers.
pub open spec fn sum_of(ws: Seq<WorkerStats>, f: spec_fn(WorkerStats) -> usize) -> int
    decreases ws.len(),
{
    if ws.len() == 0 {
        0
    } else {
        sum_of(ws.drop_last(), f) + f(ws.last()) as int
    }
}

/// The longest runtime of the workers.
pub open spec fn max_runtime(ws: Seq<WorkerStats>) -> u64
    decreases ws.len(),
{
    if ws.len() == 0 {
        0
    } else if ws.last().runtime > max_runtime(ws.drop_last()) {
        ws.last().runtime
    } else {
        max_runtime(ws.drop_last())
    }
}

proof fn lemma_sum_bound(ws: Seq<WorkerStats>, f: spec_fn(WorkerStats) -> usize)
    ensures
        0 <= sum_of(ws, f) <= ws.len() * usize::MAX,
    decreases ws.len(),
{
    if ws.len() > 0 {
        lemma_sum_bound(ws.drop_last(), f);
        let n = ws.len() - 1;
        assert((n + 1) * usize::MAX == n * usize::MAX + usize::MAX) by (nonlinear_arith);
    }
}

/// The program's counts: the number of workers, the sums of their counts,
/// and the longest of their runtimes.
pub fn program_stats(workers: &Vec<WorkerStats>) -> (r: ProgramStats)
    ensures
        r.workers == workers@.len(),
        r.dataflows == sum_of(workers@, |w: WorkerStats| w.dataflows),
        r.operators == sum_of(workers@, |w: WorkerStats| w.operators),
        r.subgraphs == sum_of(workers@, |w: WorkerStats| w.subgraphs),
        r.channels == sum_of(workers@, |w: WorkerStats| w.channels),
        r.events == sum_of(workers@, |w: WorkerStats| w.events),
        r.runtime == max_runtime(workers@),
{
    let ghost s = workers@;
    let mut r = ProgramStats {
        workers: workers.len(),
        dataflows: 0,
        operators: 0,
        subgraphs: 0,
        channels: 0,
        events: 0,
        runtime: 0,
    };
    let mut i: usize = 0;
    while i < workers.len()
        invariant
            i <= s.len(),
            s == workers@,
            r.workers == s.len(),
            r.dataflows == sum_of(s.take(i as int), |w: WorkerStats| w.dataflows),
            r.operators == sum_of(s.take(i as int), |w: WorkerStats| w.operators),
            r.subgraphs == sum_of(s.take(i as int), |w: WorkerStats| w.subgraphs),
            r.channels == sum_of(s.take(i as int), |w: WorkerStats| w.channels),
            r.events == sum_of(s.take(i as int), |w: WorkerStats| w.events),
            r.runtime == max_runtime(s.take(i as int)),
        decreases s.len() - i,
    {
        let w = workers[i];
        let ghost t = s.take(i + 1);
        assert(t.drop_last() =~= s.take(i as int));
        assert(t.last() == w);
        proof {
            lemma_sum_bound(s.take(i as int), |w: WorkerStats| w.dataflows);
            lemma_sum_bound(s.take(i as int), |w: WorkerStats| w.operators);
            lemma_sum_bound(s.take(i as int), |w: WorkerStats| w.subgraphs);
            lemma_sum_bound(s.take(i as int), |w: WorkerStats| w.channels);
            lemma_sum_bound(s.take(i as int), |w: WorkerStats| w.events);
            assert(i * usize::MAX + usize::MAX <= u128::MAX) by (nonlinear_arith)
                requires
                    i < usize::MAX,
            ;
        }
        r.dataflows = r.dataflows + w.dataflows as u128;
        r.operators = r.operators + w.operators as u128;
        r.subgraphs = r.subgraphs + w.subgraphs as u128;
        r.channels = r.channels + w.channels as u128;
        r.events = r.events + w.events as u128;
        if w.runtime > r.runtime {
            r.runtime = w.runtime;
        }
        i += 1;
    }
    assert(s.take(s.len() as int) =~= s);
    r
}

proof fn lemma_count_under_prefix(ops: Seq<OperatorRecord>, k: int, worker: usize, a: Seq<usize>)
    requires
        0 <= k <= ops.len(),
    ensures
        count_under(ops.take(k), worker, a) <= count_under(ops, worker, a),
    decreases ops.len(),
{
    if k == ops.len() {
        assert(ops.take(k) =~= ops);
    } else {
        lemma_count_under_prefix(ops.drop_last(), k, worker, a);
        assert(ops.drop_last().take(k) =~= ops.take(k));
    }
}

proof fn lemma_count_dataflows_prefix(ops: Seq<OperatorRecord>, k: int, worker: usize)
    requires
        0 <= k <= ops.len(),
    ensures
        count_dataflows(ops.take(k), worker) <= count_dataflows(ops, worker),
    decreases ops.len(),
{
    if k == ops.len() {
        assert(ops.take(k) =~= ops);
    } else {
        lemma_count_dataflows_prefix(ops.drop_last(), k, worker);
        assert(ops.drop_last().take(k) =~= ops.take(k));
    }
}

proof fn lemma_channels_under_prefix(chs: Seq<ChannelRecord>, k: int, worker: usize, a: Seq<usize>)
    requires
        0 <= k <= chs.len(),
    ensures
        channels_under(chs.take(k), worker, a) <= channels_under(chs, worker, a),
    decreases chs.len(),
{
    if k == chs.len() {
        assert(chs.take(k) =~= chs);
    } else {
        lemma_channels_under_prefix(chs.drop_last(), k, worker, a);
        assert(chs.drop_last().take(k) =~= chs.take(k));
    }
}

proof fn lemma_subgraphs_under_prefix(
    ops: Seq<OperatorRecord>,
    all: Seq<OperatorRecord>,
    k: int,
    worker: usize,
    a: Seq<usize>,
)
    requires
        0 <= k <= ops.len(),
    ensures
        subgraphs_under(ops.take(k), all, worker, a) <= subgraphs_under(ops, all, worker, a),
    decreases ops.len(),
{
    if k == ops.len() {
        assert(ops.take(k) =~= ops);
    } else {
        lemma_subgraphs_under_prefix(ops.drop_last(), all, k, worker, a);
        assert(ops.drop_last().take(k) =~= ops.take(k));
    }
}

proof fn lemma_subgraphs_under_wider(
    ops: Seq<OperatorRecord>,
    all: Seq<OperatorRecord>,
    k: int,
    worker: usize,
    a: Seq<usize>,
)
    requires
        0 <= k <= all.len(),
    ensures
        subgraphs_under(ops, all.take(k), worker, a) <= subgraphs_under(ops, all, worker, a),
    decreases ops.len(),
{
    if ops.len() > 0 {
        lemma_subgraphs_under_wider(ops.drop_last(), all, k, worker, a);
        let x = ops.last().operator.addr@;
        if has_child(all.take(k), worker, x) {
            let j = choose|j: int| 0 <= j < all.take(k).len() && #[trigger] op_under(all.take(k), j, worker, x);
            assert(all.take(k)[j] == all[j]);
            assert(op_under(all, j, worker, x));
        }
    }
}

proof fn lemma_subgraphs_at_most_operators(
    ops: Seq<OperatorRecord>,
    all: Seq<OperatorRecord>,
    worker: usize,
    a: Seq<usize>,
)
    ensures
        subgraphs_under(ops, all, worker, a) <= count_under(ops, worker, a),
    decreases ops.len(),
{
    if ops.len() > 0 {
        lemma_subgraphs_at_most_operators(ops.drop_last(), all, worker, a);
    }
}

/// A dataflow has no more subgraphs underneath it than operators.
pub proof fn lemma_dataflow_subgraphs_bounded(
    ops: Seq<OperatorRecord>,
    all: Seq<OperatorRecord>,
    chs: Seq<ChannelRecord>,
    lifes: Seq<LifespanRecord>,
    i: int,
)
    requires
        0 <= i < dataflow_rows(ops, all, chs, lifes).len(),
    ensures
        dataflow_rows(ops, all, chs, lifes)[i].subgraphs <= dataflow_rows(ops, all, chs, lifes)[i].operators,
    decreases ops.len(),
{
    let rest = dataflow_rows(ops.drop_last(), all, chs, lifes);
    if i < rest.len() {
        lemma_dataflow_subgraphs_bounded(ops.drop_last(), all, chs, lifes, i);
    } else {
        lemma_subgraphs_at_most_operators(all, all, ops.last().worker, ops.last().operator.addr@);
    }
}

/// Monotone counts: the records extracted up to any point of the log give
/// a worker no more dataflows, operators, subgraphs or channels than the
/// records extracted up to a later point.
pub proof fn lemma_counts_monotone(
    ops: Seq<OperatorRecord>,
    chs: Seq<ChannelRecord>,
    k_ops: int,
    k_chs: int,
    worker: usize,
)
    requires
        0 <= k_ops <= ops.len(),
        0 <= k_chs <= chs.len(),
    ensures
        count_dataflows(ops.take(k_ops), worker) <= count_dataflows(ops, worker),
        count_under(ops.take(k_ops), worker, seq![]) <= count_under(ops, worker, seq![]),
        subgraphs_under(ops.take(k_ops), ops.take(k_ops), worker, seq![]) <= subgraphs_under(
            ops,
            ops,
            worker,
            seq![],
        ),
        channels_under(chs.take(k_chs), worker, seq![]) <= channels_under(chs, worker, seq![]),
{
    lemma_count_dataflows_prefix(ops, k_ops, worker);
    lemma_count_under_prefix(ops, k_ops, worker, seq![]);
    lemma_channels_under_prefix(chs, k_chs, worker, seq![]);
    lemma_subgraphs_under_wider(ops.take(k_ops), ops, k_ops, worker, seq![]);
    lemma_subgraphs_under_prefix(ops, ops, k_ops, worker, seq![]);
}

/// Program counts are monotone in the worker counts: where every worker's
/// counts grow, so do the program's sums and its longest runtime.
pub proof fn lemma_program_counts_monotone(before: Seq<WorkerStats>, after: Seq<WorkerStats>)
    requires
        before.len() == after.len(),
        forall|i: int|
            0 <= i < before.len() ==> {
                &&& (#[trigger] before[i]).dataflows <= after[i].dataflows
                &&& before[i].operators <= after[i].operators
                &&& before[i].subgraphs <= after[i].subgraphs
                &&& before[i].channels <= after[i].channels
                &&& before[i].events <= after[i].events
                &&& before[i].runtime <= after[i].runtime
            },
    ensures
        sum_of(before, |w: WorkerStats| w.dataflows) <= sum_of(after, |w: WorkerStats| w.dataflows),
        sum_of(before, |w: WorkerStats| w.operators) <= sum_of(after, |w: WorkerStats| w.operators),
        sum_of(before, |w: WorkerStats| w.subgraphs) <= sum_of(after, |w: WorkerStats| w.subgraphs),
        sum_of(before, |w: WorkerStats| w.channels) <= sum_of(after, |w: WorkerStats| w.channels),
        sum_of(before, |w: WorkerStats| w.events) <= sum_of(after, |w: WorkerStats| w.events),
        max_runtime(before) <= max_runtime(after),
    decreases before.len(),
{
    if before.len() > 0 {
        let (b, a) = (before.drop_last(), after.drop_last());
        assert forall|i: int| 0 <= i < b.len() implies {
            &&& (#[trigger] b[i]).dataflows <= a[i].dataflows
            &&& b[i].operators <= a[i].operators
            &&& b[i].subgraphs <= a[i].subgraphs
            &&& b[i].channels <= a[i].channels
            &&& b[i].events <= a[i].events
            &&& b[i].runtime <= a[i].runtime
        } by {
            assert(b[i] == before[i]);
            assert(a[i] == after[i]);
        }
        lemma_program_counts_monotone(b, a);
        assert(before.last() == before[before.len() - 1]);
        assert(after.last() == after[after.len() - 1]);
    }
}

} // verus!
