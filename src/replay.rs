//! Multiplexes several framed event sources into one stream of events, one
//! fuel-bounded activation at a time, honouring shutdown.
use vstd::prelude::*;
use crate::antichain::{
    antichain_count, antichain_counts, antichain_frontier, antichain_update, count_at, fits_i64,
    new_antichain, no_counts, no_positive, positive_times, updated, Antichain,
};
use crate::fuel::Fuel;

verus! {

/// One frame of a captured stream: progress updates to the frontier, or a
/// batch of records at a time.
#[derive(Debug)]
pub enum Event<T, D> {
    Progress(Vec<(T, i64)>),
    Messages(T, Vec<D>),
}

/// A byte source failed, or sent a frame that does not decode.
#[derive(Clone, Copy, Debug, PartialEq, Eq, Structural)]
pub struct SourceError;

/// A source of events. `next` returns an event, or `Ok(None)` where no whole
/// frame is available yet, and sets `is_finished` once the source has ended
/// and has been drained.
pub trait EventIterator<T, D> {
    fn next(&mut self, is_finished: &mut bool) -> Result<Option<Event<T, D>>, SourceError>;
}

/// The fuel that replaying an event costs: one for progress, one per record
/// for messages.
pub open spec fn weight<T, D>(event: Event<T, D>) -> nat {
    match event {
        Event::Progress(_) => 1,
        Event::Messages(_, data) => data@.len(),
    }
}

/// The fuel that replaying a sequence of events costs.
pub open spec fn total_weight<T, D>(events: Seq<Event<T, D>>) -> nat
    decreases events.len(),
{
    if events.len() == 0 {
        0
    } else {
        total_weight(events.drop_last()) + weight(events.last())
    }
}

/// `n`, or `usize::MAX` where it does not fit.
pub open spec fn saturated(n: nat) -> usize {
    if n <= usize::MAX {
        n as usize
    } else {
        usize::MAX
    }
}

/// What one activation of the driver produced, for the host runtime to act
/// on.
pub struct Activation<T, D> {
    /// On the first activation: how many capabilities to add at the minimum
    /// time so that there is one per source.
    pub capability_split: Option<i64>,
    /// The events pulled, in the order they were pulled.
    pub events: Vec<Event<T, D>>,
    /// A source failed; the replay must shut down.
    pub failed: bool,
    /// The driver wants to be activated again; otherwise it has released
    /// its capabilities and ends.
    pub reactivate: bool,
    /// The capabilities released as the driver ends: a negative count per
    /// time.
    pub released: Vec<(u64, i64)>,
    /// Every call of a source's `next`, in order.
    pub pulls: Ghost<Seq<Pull<D>>>,
}

/// The counts after applying a sequence of `(time, delta)` updates.
pub open spec fn apply_updates(m: Map<u64, int>, ups: Seq<(u64, i64)>) -> Map<u64, int>
    decreases ups.len(),
{
    if ups.len() == 0 {
        m
    } else {
        updated(apply_updates(m, ups.drop_last()), ups.last().0, ups.last().1 as int)
    }
}

/// The progress updates that a sequence of events carries, in order.
pub open spec fn progress_updates<D>(events: Seq<Event<u64, D>>) -> Seq<(u64, i64)>
    decreases events.len(),
{
    if events.len() == 0 {
        seq![]
    } else {
        progress_updates(events.drop_last()) + match events.last() {
            Event::Progress(updates) => updates@,
            Event::Messages(_, _) => seq![],
        }
    }
}

pub proof fn lemma_apply_concat(m: Map<u64, int>, a: Seq<(u64, i64)>, b: Seq<(u64, i64)>)
    ensures
        apply_updates(m, a + b) == apply_updates(apply_updates(m, a), b),
    decreases b.len(),
{
    if b.len() == 0 {
        assert(a + b =~= a);
    } else {
        lemma_apply_concat(m, a, b.drop_last());
        assert((a + b).drop_last() =~= a + b.drop_last());
        assert((a + b).last() == b.last());
    }
}

proof fn lemma_release_shrinks(m: Map<u64, int>, t: u64)
    requires
        m.dom().finite(),
        count_at(m, t) > 0,
    ensures
        updated(m, t, -count_at(m, t)).dom().finite(),
        positive_times(updated(m, t, -count_at(m, t))) == positive_times(m).remove(t),
        positive_times(m).contains(t),
        positive_times(m).finite(),
{
    let m2 = updated(m, t, -count_at(m, t));
    assert(positive_times(m2) =~= positive_times(m).remove(t));
    m.dom().lemma_len_filter(|s: u64| m[s] > 0);
}

/// The longest prefix of `ups` that can be applied to the counts `m` in
/// order, every count it passes through fitting an `i64`.
pub open spec fn fitting(m: Map<u64, int>, ups: Seq<(u64, i64)>) -> Seq<(u64, i64)>
    decreases ups.len(),
{
    if ups.len() == 0 {
        seq![]
    } else if fits_i64(count_at(m, ups[0].0) + ups[0].1) {
        seq![ups[0]] + fitting(updated(m, ups[0].0, ups[0].1 as int), ups.drop_first())
    } else {
        seq![]
    }
}

/// What the driver makes of one pulled result.
#[derive(Clone, Copy, Debug, PartialEq, Eq, Structural)]
pub enum PullOutcome {
    /// Pull again from the same source.
    Continue,
    /// The source has nothing ready: go on to the next one.
    NextStream,
    /// End the activation's pulling.
    Stop,
    /// A source failed: end the activation and shut the replay down.
    Fail,
}

/// One call of a source's `next` during an activation: the source, the
/// finished flag handed to it and the one it left, and what it returned.
pub struct Pull<D> {
    pub stream: usize,
    pub handed: bool,
    pub returned: bool,
    pub result: Result<Option<Event<u64, D>>, SourceError>,
}

/// Whether a pulled result carries an event.
pub open spec fn yields<D>(p: Result<Option<Event<u64, D>>, SourceError>) -> bool {
    p matches Ok(Some(_))
}

/// The fuel that a pulled result costs.
pub open spec fn step_cost<D>(p: Result<Option<Event<u64, D>>, SourceError>) -> nat {
    match p {
        Ok(Some(e)) => weight(e),
        _ => 0,
    }
}

/// Whether a pulled result fails the replay, with the counts `m` held:
/// an error, or progress with an update that would overflow a count.
pub open spec fn fails<D>(m: Map<u64, int>, p: Result<Option<Event<u64, D>>, SourceError>) -> bool {
    match p {
        Err(_) => true,
        Ok(Some(Event::Progress(ups))) => fitting(m, ups@).len() < ups@.len(),
        _ => false,
    }
}

/// The event that a pulled result gives, with the counts `m` held: a batch
/// of messages as it came, and progress cut to the updates that fit.
pub open spec fn gives_event<D>(
    m: Map<u64, int>,
    p: Result<Option<Event<u64, D>>, SourceError>,
    e: Event<u64, D>,
) -> bool {
    match (p, e) {
        (Ok(Some(Event::Progress(ups))), Event::Progress(applied)) => applied@ == fitting(m, ups@),
        (Ok(Some(Event::Messages(t, d))), Event::Messages(t2, d2)) => t == t2 && d == d2,
        _ => false,
    }
}

/// The counts after a pulled result, from the counts `m`.
pub open spec fn counts_step<D>(m: Map<u64, int>, p: Result<Option<Event<u64, D>>, SourceError>) -> Map<
    u64,
    int,
> {
    match p {
        Ok(Some(Event::Progress(ups))) => apply_updates(m, fitting(m, ups@)),
        _ => m,
    }
}

/// The counts after a sequence of pulls, from the counts `m`.
pub open spec fn counts_after<D>(m: Map<u64, int>, pulls: Seq<Pull<D>>) -> Map<u64, int>
    decreases pulls.len(),
{
    if pulls.len() == 0 {
        m
    } else {
        counts_step(counts_after(m, pulls.drop_last()), pulls.last().result)
    }
}

/// `events` are exactly the events that the pulls give, in order, from the
/// counts `m`.
pub open spec fn gives<D>(m: Map<u64, int>, pulls: Seq<Pull<D>>, events: Seq<Event<u64, D>>) -> bool
    decreases pulls.len(),
{
    if pulls.len() == 0 {
        events.len() == 0
    } else if yields(pulls.last().result) {
        &&& events.len() > 0
        &&& gives(m, pulls.drop_last(), events.drop_last())
        &&& gives_event(counts_after(m, pulls.drop_last()), pulls.last().result, events.last())
    } else {
        gives(m, pulls.drop_last(), events)
    }
}

/// The finished flag of source `i` after the pulls, from the flags `flags`.
pub open spec fn flag_after<D>(flags: Seq<bool>, pulls: Seq<Pull<D>>, i: int) -> bool
    decreases pulls.len(),
{
    if pulls.len() == 0 {
        flags[i]
    } else if pulls.last().stream == i {
        pulls.last().returned
    } else {
        flag_after(flags, pulls.drop_last(), i)
    }
}

/// Some pull found source `i` with nothing ready.
pub open spec fn drained_source<D>(pulls: Seq<Pull<D>>, i: int) -> bool {
    exists|k: int| 0 <= k < pulls.len() && (#[trigger] pulls[k]).stream == i && pulls[k].result matches Ok(
        None,
    )
}

/// Whether the budget is used up once `events` have been paid for.
pub open spec fn spent_out<D>(budget: Option<usize>, events: Seq<Event<u64, D>>) -> bool {
    (Fuel { budget, spent: saturated(total_weight(events)) }).exhausted()
}

/// The state of a replay between activations.
pub struct ReplayDriver {
    pub started: bool,
    pub streams_finished: Vec<bool>,
    pub fuel: Fuel,
    /// At most this many events are pulled in one activation.
    pub pull_limit: usize,
    /// The capabilities held, per time.
    pub antichain: Antichain,
}

impl ReplayDriver {
    /// The invariant: finitely many counts, each of which an `i64` holds,
    /// and none before the first activation.
    pub open spec fn wf(&self) -> bool {
        &&& antichain_counts(self.antichain).dom().finite()
        &&& forall|t: u64| fits_i64(#[trigger] count_at(antichain_counts(self.antichain), t))
        &&& !self.started ==> antichain_counts(self.antichain) == no_counts()
    }

    /// The counts held after the first activation's split, before anything
    /// is pulled.
    pub open spec fn split_counts(&self, streams: nat) -> Map<u64, int> {
        if self.started {
            antichain_counts(self.antichain)
        } else {
            updated(antichain_counts(self.antichain), 0, streams - 1)
        }
    }

    /// Every source has ended.
    pub open spec fn all_finished(&self) -> bool {
        forall|i: int| 0 <= i < self.streams_finished@.len() ==> #[trigger] self.streams_finished@[i]
    }

    /// A driver for `streams` sources that has not been activated.
    pub fn new(streams: usize, fuel: Fuel, pull_limit: usize) -> (r: ReplayDriver)
        ensures
            r.wf(),
            !r.started,
            r.streams_finished@ == Seq::new(streams as nat, |i: int| false),
            r.fuel == fuel,
            r.pull_limit == pull_limit,
    {
        let mut finished: Vec<bool> = Vec::new();
        let mut i: usize = 0;
        while i < streams
            invariant
                i <= streams,
                finished@ == Seq::new(i as nat, |j: int| false),
            decreases streams - i,
        {
            finished.push(false);
            i += 1;
            assert(finished@ =~= Seq::new(i as nat, |j: int| false));
        }
        ReplayDriver {
            started: false,
            streams_finished: finished,
            fuel,
            pull_limit,
            antichain: new_antichain(),
        }
    }

    /// Whether every source has ended.
    pub fn is_finished(&self) -> (r: bool)
        ensures
            r == self.all_finished(),
    {
        let mut i: usize = 0;
        while i < self.streams_finished.len()
            invariant
                i <= self.streams_finished@.len(),
                forall|j: int| 0 <= j < i ==> #[trigger] self.streams_finished@[j],
            decreases self.streams_finished@.len() - i,
        {
            if !self.streams_finished[i] {
                return false;
            }
            i += 1;
        }
        true
    }

    /// Applies one progress update where the count it gives fits an `i64`;
    /// returns whether it did.
    fn apply_progress(&mut self, time: u64, delta: i64) -> (r: bool)
        requires
            old(self).wf(),
            old(self).started,
        ensures
            final(self).wf(),
            final(self).started == old(self).started,
            final(self).streams_finished == old(self).streams_finished,
            final(self).fuel == old(self).fuel,
            final(self).pull_limit == old(self).pull_limit,
            r == fits_i64(count_at(antichain_counts(old(self).antichain), time) + delta),
            r ==> antichain_counts(final(self).antichain) == updated(
                antichain_counts(old(self).antichain),
                time,
                delta as int,
            ),
            !r ==> antichain_counts(final(self).antichain) == antichain_counts(old(self).antichain),
    {
        let current = antichain_count(&self.antichain, time);
        let next = current as i128 + delta as i128;
        if next < i64::MIN as i128 || next > i64::MAX as i128 {
            return false;
        }
        antichain_update(&mut self.antichain, time, delta);
        proof {
            let m = antichain_counts(old(self).antichain);
            assert(antichain_counts(self.antichain).dom() =~= m.dom().insert(time));
            assert forall|t: u64| fits_i64(#[trigger] count_at(antichain_counts(self.antichain), t)) by {
                if t != time {
                    assert(count_at(antichain_counts(self.antichain), t) == count_at(m, t));
                }
            }
        }
        true
    }

    /// Releases every capability held: each time with a positive count
    /// gets that count taken away, least time first.
    fn release_all(&mut self) -> (r: Vec<(u64, i64)>)
        requires
            old(self).wf(),
            old(self).started,
        ensures
            final(self).wf(),
            final(self).started,
            final(self).streams_finished == old(self).streams_finished,
            final(self).fuel == old(self).fuel,
            final(self).pull_limit == old(self).pull_limit,
            antichain_counts(final(self).antichain) == apply_updates(
                antichain_counts(old(self).antichain),
                r@,
            ),
            no_positive(antichain_counts(final(self).antichain)),
            forall|i: int| 0 <= i < r@.len() ==> (#[trigger] r@[i]).1 < 0,
            no_positive(antichain_counts(old(self).antichain)) ==> r@.len() == 0,
            forall|t: u64|
                #[trigger] count_at(antichain_counts(final(self).antichain), t) == if count_at(
                    antichain_counts(old(self).antichain),
                    t,
                ) > 0 {
                    0
                } else {
                    count_at(antichain_counts(old(self).antichain), t)
                },
    {
        let ghost base = antichain_counts(self.antichain);
        let mut released: Vec<(u64, i64)> = Vec::new();
        let mut front = antichain_frontier(&self.antichain);
        while front.len() > 0
            invariant
                self.wf(),
                self.started,
                self.streams_finished == old(self).streams_finished,
                self.fuel == old(self).fuel,
                self.pull_limit == old(self).pull_limit,
                antichain_counts(self.antichain) == apply_updates(base, released@),
                front@.len() <= 1,
                front@.len() == 0 <==> no_positive(antichain_counts(self.antichain)),
                front@.len() == 1 ==> count_at(antichain_counts(self.antichain), front@[0]) > 0,
                forall|i: int| 0 <= i < released@.len() ==> (#[trigger] released@[i]).1 < 0,
                no_positive(base) ==> released@.len() == 0,
                forall|s: u64|
                    #[trigger] count_at(antichain_counts(self.antichain), s) == count_at(base, s) || (
                    count_at(base, s) > 0 && count_at(antichain_counts(self.antichain), s) == 0),
            decreases positive_times(antichain_counts(self.antichain)).len(),
        {
            let t = front[0];
            let ghost before = antichain_counts(self.antichain);
            let count = antichain_count(&self.antichain, t);
            proof {
                lemma_release_shrinks(before, t);
            }
            antichain_update(&mut self.antichain, t, -count);
            let ghost prev = released@;
            released.push((t, -count));
            assert(released@.drop_last() =~= prev);
            proof {
                assert forall|s: u64| fits_i64(#[trigger] count_at(antichain_counts(self.antichain), s)) by {
                    if s != t {
                        assert(count_at(antichain_counts(self.antichain), s) == count_at(before, s));
                    }
                }
                assert forall|s: u64|
                    #[trigger] count_at(antichain_counts(self.antichain), s) == count_at(base, s) || (
                    count_at(base, s) > 0 && count_at(antichain_counts(self.antichain), s) == 0) by {
                    if s != t {
                        assert(count_at(antichain_counts(self.antichain), s) == count_at(before, s));
                    } else {
                        assert(count_at(antichain_counts(self.antichain), s) == 0);
                    }
                }
            }
            front = antichain_frontier(&self.antichain);
        }
        released
    }

    /// Handles one pulled result: a batch of messages is appended as it
    /// came and paid for by its size; progress is applied update by update
    /// while the counts fit, the applied updates are appended as one event
    /// that costs one unit, and an update that does not fit fails the
    /// replay; an empty poll moves on to the next source, or stops when the
    /// replay no longer runs; an error fails the replay.
    pub fn pull_step<D>(
        &mut self,
        pulled: Result<Option<Event<u64, D>>, SourceError>,
        is_running: bool,
        events: &mut Vec<Event<u64, D>>,
    ) -> (r: PullOutcome)
        requires
            old(self).wf(),
            old(self).started,
        ensures
            final(self).wf(),
            final(self).started,
            final(self).streams_finished == old(self).streams_finished,
            final(self).pull_limit == old(self).pull_limit,
            final(self).fuel.budget == old(self).fuel.budget,
            final(self).fuel.spent == (if old(self).fuel.spent + step_cost(pulled) <= usize::MAX {
                (old(self).fuel.spent + step_cost(pulled)) as usize
            } else {
                usize::MAX
            }),
            antichain_counts(final(self).antichain) == counts_step(
                antichain_counts(old(self).antichain),
                pulled,
            ),
            yields(pulled) ==> {
                &&& final(events)@.len() == old(events)@.len() + 1
                &&& final(events)@.drop_last() == old(events)@
                &&& gives_event(antichain_counts(old(self).antichain), pulled, final(events)@.last())
                &&& weight(final(events)@.last()) == step_cost(pulled)
            },
            !yields(pulled) ==> final(events)@ == old(events)@,
            r == (match pulled {
                Ok(Some(Event::Progress(ups))) => if fitting(
                    antichain_counts(old(self).antichain),
                    ups@,
                ).len() < ups@.len() {
                    PullOutcome::Fail
                } else if final(self).fuel.exhausted() {
                    PullOutcome::Stop
                } else {
                    PullOutcome::Continue
                },
                Ok(Some(Event::Messages(_, _))) => if final(self).fuel.exhausted() {
                    PullOutcome::Stop
                } else {
                    PullOutcome::Continue
                },
                Ok(None) => if is_running {
                    PullOutcome::NextStream
                } else {
                    PullOutcome::Stop
                },
                Err(_) => PullOutcome::Fail,
            }),
    {
        let ghost m0 = antichain_counts(self.antichain);
        let ghost before = events@;
        match pulled {
            Ok(Some(Event::Progress(updates))) => {
                let mut applied: Vec<(u64, i64)> = Vec::new();
                let mut j: usize = 0;
                let mut ok = true;
                assert(updates@.skip(0) =~= updates@);
                while j < updates.len() && ok
                    invariant
                        self.wf(),
                        self.started,
                        self.streams_finished == old(self).streams_finished,
                        self.pull_limit == old(self).pull_limit,
                        self.fuel == old(self).fuel,
                        j <= updates@.len(),
                        applied@ == updates@.take(j as int),
                        antichain_counts(self.antichain) == apply_updates(m0, applied@),
                        applied@ + fitting(antichain_counts(self.antichain), updates@.skip(j as int))
                            == fitting(m0, updates@),
                        !ok ==> fitting(antichain_counts(self.antichain), updates@.skip(j as int))
                            == Seq::<(u64, i64)>::empty(),
                        !ok ==> j < updates@.len(),
                    decreases updates@.len() - j, if ok {
                        1int
                    } else {
                        0int
                    },
                {
                    let (time, delta) = updates[j];
                    let ghost m = antichain_counts(self.antichain);
                    let ghost rest = updates@.skip(j as int);
                    assert(rest[0] == (time, delta));
                    let ghost prev = applied@;
                    if self.apply_progress(time, delta) {
                        applied.push((time, delta));
                        assert(rest.drop_first() =~= updates@.skip(j + 1));
                        assert(applied@.drop_last() =~= prev);
                        assert(applied@ =~= updates@.take(j + 1));
                        assert(fitting(m, rest) == seq![rest[0]] + fitting(
                            updated(m, time, delta as int),
                            rest.drop_first(),
                        ));
                        assert(prev + fitting(m, rest) =~= applied@ + fitting(
                            updated(m, time, delta as int),
                            rest.drop_first(),
                        ));
                        j += 1;
                    } else {
                        ok = false;
                    }
                }
                if ok {
                    assert(updates@.skip(j as int) =~= Seq::<(u64, i64)>::empty());
                    assert(applied@ =~= fitting(m0, updates@));
                    assert(updates@.take(j as int) =~= updates@);
                } else {
                    assert(applied@ + Seq::<(u64, i64)>::empty() =~= applied@);
                }
                self.fuel.exert(1);
                let failed = !ok;
                events.push(Event::Progress(applied));
                assert(events@.drop_last() =~= before);
                if failed {
                    PullOutcome::Fail
                } else if self.fuel.is_exhausted() {
                    PullOutcome::Stop
                } else {
                    PullOutcome::Continue
                }
            },
            Ok(Some(Event::Messages(time, data))) => {
                let cost = data.len();
                self.fuel.exert(cost);
                events.push(Event::Messages(time, data));
                assert(events@.drop_last() =~= before);
                if self.fuel.is_exhausted() {
                    PullOutcome::Stop
                } else {
                    PullOutcome::Continue
                }
            },
            Ok(None) => {
                if is_running {
                    PullOutcome::NextStream
                } else {
                    PullOutcome::Stop
                }
            },
            Err(_) => PullOutcome::Fail,
        }
    }

    /// One activation: pulls from each source in turn until it has nothing
    /// ready, until the fuel runs out, until the pull limit is reached,
    /// until a source fails, or, when `is_running` is false, until a source
    /// has nothing ready; each pulled result is handled by `pull_step`. The
    /// driver asks to be activated again while the replay runs, no source
    /// failed, and some source has not ended; otherwise it releases every
    /// capability it holds.
    pub fn activate<D, S: EventIterator<u64, D>>(&mut self, streams: &mut Vec<S>, is_running: bool) -> (r:
        Activation<u64, D>)
        requires
            old(self).wf(),
            old(streams)@.len() == old(self).streams_finished@.len(),
            old(streams)@.len() <= i64::MAX,
        ensures
            final(self).wf(),
            final(streams)@.len() == old(streams)@.len(),
            final(self).streams_finished@.len() == old(self).streams_finished@.len(),
            final(self).started,
            final(self).pull_limit == old(self).pull_limit,
            final(self).fuel.budget == old(self).fuel.budget,
            r.capability_split == (if old(self).started {
                None
            } else {
                Some((old(streams)@.len() - 1) as i64)
            }),
            // the events are exactly what the pulls gave
            gives(old(self).split_counts(old(streams)@.len()), r.pulls@, r.events@),
            forall|k: int| 0 <= k < r.pulls@.len() ==> (#[trigger] r.pulls@[k]).stream < old(
                streams,
            )@.len(),
            // each source is handed its current flag, and keeps what it left
            forall|k: int|
                0 <= k < r.pulls@.len() ==> (#[trigger] r.pulls@[k]).handed == flag_after(
                    old(self).streams_finished@,
                    r.pulls@.take(k),
                    r.pulls@[k].stream as int,
                ),
            forall|i: int|
                0 <= i < old(streams)@.len() ==> #[trigger] final(self).streams_finished@[i]
                    == flag_after(old(self).streams_finished@, r.pulls@, i),
            // fuel
            r.events@.len() <= old(self).pull_limit,
            final(self).fuel.spent == saturated(total_weight(r.events@)),
            forall|k: int|
                0 <= k < r.events@.len() - 1 ==> !spent_out(
                    old(self).fuel.budget,
                    #[trigger] r.events@.take(k + 1),
                ),
            // failures end the activation
            r.failed <==> (r.pulls@.len() > 0 && fails(
                counts_after(old(self).split_counts(old(streams)@.len()), r.pulls@.drop_last()),
                r.pulls@.last().result,
            )),
            forall|k: int|
                0 <= k < r.pulls@.len() - 1 ==> !fails(
                    counts_after(old(self).split_counts(old(streams)@.len()), r.pulls@.take(k)),
                    (#[trigger] r.pulls@[k]).result,
                ),
            !is_running ==> forall|k: int|
                0 <= k < r.pulls@.len() - 1 ==> !((#[trigger] r.pulls@[k]).result matches Ok(None)),
            // with nothing to stop it, every source is polled until it has nothing ready
            is_running && !r.failed && r.events@.len() < old(self).pull_limit
                && !final(self).fuel.exhausted() ==> forall|i: int|
                0 <= i < old(streams)@.len() ==> #[trigger] drained_source(r.pulls@, i),
            // capabilities
            r.reactivate == (is_running && !r.failed && !final(self).all_finished()),
            r.reactivate ==> r.released@.len() == 0,
            antichain_counts(final(self).antichain) == apply_updates(
                counts_after(old(self).split_counts(old(streams)@.len()), r.pulls@),
                r.released@,
            ),
            !r.reactivate ==> forall|t: u64|
                #[trigger] count_at(antichain_counts(final(self).antichain), t) == if count_at(
                    counts_after(old(self).split_counts(old(streams)@.len()), r.pulls@),
                    t,
                ) > 0 {
                    0
                } else {
                    count_at(
                        counts_after(old(self).split_counts(old(streams)@.len()), r.pulls@),
                        t,
                    )
                },
            forall|i: int| 0 <= i < r.released@.len() ==> (#[trigger] r.released@[i]).1 < 0,
    {
        let n = streams.len();
        let ghost base = old(self).split_counts(n as nat);
        let ghost flags0 = self.streams_finished@;
        let capability_split = if !self.started {
            let split = (n as i64) - 1;
            antichain_update(&mut self.antichain, 0, split);
            self.started = true;
            proof {
                assert forall|t: u64| fits_i64(#[trigger] count_at(antichain_counts(self.antichain), t)) by {
                    if t != 0 {
                        assert(count_at(antichain_counts(self.antichain), t) == 0);
                    }
                }
            }
            Some(split)
        } else {
            None
        };
        self.fuel.reset();
        let mut events: Vec<Event<u64, D>> = Vec::new();
        let ghost mut pulls: Seq<Pull<D>> = Seq::empty();
        assert(total_weight(events@) == 0);
        let mut failed = false;
        let mut stop = false;
        let mut idx: usize = 0;
        while idx < n && !stop
            invariant
                self.wf(),
                self.started,
                n == streams@.len(),
                n == self.streams_finished@.len(),
                n == flags0.len(),
                idx <= n,
                events@.len() <= self.pull_limit,
                self.pull_limit == old(self).pull_limit,
                self.fuel.budget == old(self).fuel.budget,
                self.fuel.spent == saturated(total_weight(events@)),
                gives(base, pulls, events@),
                antichain_counts(self.antichain) == counts_after(base, pulls),
                forall|k: int| 0 <= k < pulls.len() ==> (#[trigger] pulls[k]).stream < n,
                forall|k: int|
                    0 <= k < pulls.len() ==> (#[trigger] pulls[k]).handed == flag_after(
                        flags0,
                        pulls.take(k),
                        pulls[k].stream as int,
                    ),
                forall|i: int|
                    0 <= i < n ==> #[trigger] self.streams_finished@[i] == flag_after(flags0, pulls, i),
                forall|k: int|
                    0 <= k < events@.len() - 1 ==> !spent_out(
                        old(self).fuel.budget,
                        #[trigger] events@.take(k + 1),
                    ),
                !stop && events@.len() > 0 ==> !self.fuel.exhausted(),
                failed ==> stop,
                failed == (pulls.len() > 0 && fails(
                    counts_after(base, pulls.drop_last()),
                    pulls.last().result,
                )),
                forall|k: int|
                    0 <= k < pulls.len() && fails(counts_after(base, pulls.take(k)), (#[trigger] pulls[k]).result)
                        ==> k == pulls.len() - 1 && stop,
                !is_running ==> forall|k: int|
                    0 <= k < pulls.len() && ((#[trigger] pulls[k]).result matches Ok(None)) ==> k
                        == pulls.len() - 1 && stop,
                stop ==> (failed || !is_running || events@.len() >= self.pull_limit
                    || self.fuel.exhausted()),
                !stop ==> forall|i: int| 0 <= i < idx ==> #[trigger] drained_source(pulls, i),
            decreases n - idx,
        {
            let mut drained = false;
            while !drained && !stop
                invariant
                    self.wf(),
                    self.started,
                    n == streams@.len(),
                    n == self.streams_finished@.len(),
                    n == flags0.len(),
                    idx < n,
                    events@.len() <= self.pull_limit,
                    self.pull_limit == old(self).pull_limit,
                    self.fuel.budget == old(self).fuel.budget,
                    self.fuel.spent == saturated(total_weight(events@)),
                    gives(base, pulls, events@),
                    antichain_counts(self.antichain) == counts_after(base, pulls),
                    forall|k: int| 0 <= k < pulls.len() ==> (#[trigger] pulls[k]).stream < n,
                    forall|k: int|
                        0 <= k < pulls.len() ==> (#[trigger] pulls[k]).handed == flag_after(
                            flags0,
                            pulls.take(k),
                            pulls[k].stream as int,
                        ),
                    forall|i: int|
                        0 <= i < n ==> #[trigger] self.streams_finished@[i] == flag_after(
                            flags0,
                            pulls,
                            i,
                        ),
                    forall|k: int|
                        0 <= k < events@.len() - 1 ==> !spent_out(
                            old(self).fuel.budget,
                            #[trigger] events@.take(k + 1),
                        ),
                    !stop && events@.len() > 0 ==> !self.fuel.exhausted(),
                    failed ==> stop,
                    failed == (pulls.len() > 0 && fails(
                        counts_after(base, pulls.drop_last()),
                        pulls.last().result,
                    )),
                    forall|k: int|
                        0 <= k < pulls.len() && fails(
                            counts_after(base, pulls.take(k)),
                            (#[trigger] pulls[k]).result,
                        ) ==> k == pulls.len() - 1 && stop,
                    !is_running ==> forall|k: int|
                        0 <= k < pulls.len() && ((#[trigger] pulls[k]).result matches Ok(None)) ==> k
                            == pulls.len() - 1 && stop,
                    stop ==> (failed || !is_running || events@.len() >= self.pull_limit
                        || self.fuel.exhausted()),
                    !stop ==> forall|i: int| 0 <= i < idx ==> #[trigger] drained_source(pulls, i),
                    drained ==> pulls.len() > 0 && pulls.last().stream == idx && pulls.last().result
                        matches Ok(None),
                decreases self.pull_limit - events@.len(), if drained || stop {
                    0int
                } else {
                    1int
                },
            {
                if events.len() >= self.pull_limit {
                    stop = true;
                } else {
                    let mut finished = self.streams_finished[idx];
                    let ghost handed = finished;
                    let pulled = streams[idx].next(&mut finished);
                    self.streams_finished.set(idx, finished);
                    let ghost result = pulled;
                    let ghost record = Pull { stream: idx, handed, returned: finished, result };
                    let ghost old_pulls = pulls;
                    let ghost old_events = events@;
                    let ghost m = antichain_counts(self.antichain);
                    let outcome = self.pull_step(pulled, is_running, &mut events);
                    proof {
                        pulls = pulls.push(record);
                        assert(pulls.drop_last() =~= old_pulls);
                        assert(pulls.take(old_pulls.len() as int) =~= old_pulls);
                        assert forall|k: int| 0 <= k < old_pulls.len() implies #[trigger] pulls.take(k)
                            == old_pulls.take(k) by {
                            assert(pulls.take(k) =~= old_pulls.take(k));
                        }
                        assert forall|k: int| 0 <= k < old_events.len() - 1 implies #[trigger] events@.take(k + 1)
                            == old_events.take(k + 1) by {
                            assert(events@.take(k + 1) =~= old_events.take(k + 1));
                        }
                        if yields(result) {
                            assert(events@.take(old_events.len() as int) =~= old_events);
                        }
                        assert forall|i: int| 0 <= i < idx implies #[trigger] drained_source(pulls, i) by {
                            if drained_source(old_pulls, i) {
                                let k = choose|k: int|
                                    0 <= k < old_pulls.len() && (#[trigger] old_pulls[k]).stream == i
                                        && old_pulls[k].result matches Ok(None);
                                assert(pulls[k] == old_pulls[k]);
                            }
                        }
                    }
                    match outcome {
                        PullOutcome::Continue => {},
                        PullOutcome::NextStream => {
                            drained = true;
                        },
                        PullOutcome::Stop => {
                            stop = true;
                        },
                        PullOutcome::Fail => {
                            failed = true;
                            stop = true;
                        },
                    }
                }
            }
            proof {
                if !stop {
                    assert(drained_source(pulls, idx as int)) by {
                        assert(pulls[pulls.len() - 1] == pulls.last());
                    }
                }
            }
            idx += 1;
        }
        let reactivate = is_running && !failed && !self.is_finished();
        let ghost pre = antichain_counts(self.antichain);
        let released = if reactivate {
            Vec::new()
        } else {
            self.release_all()
        };
        proof {
            if reactivate {
                assert(apply_updates(pre, released@) == pre);
            }
        }
        Activation {
            capability_split,
            events,
            failed,
            reactivate,
            released,
            pulls: Ghost(pulls),
        }
    }
}

} // verus!
