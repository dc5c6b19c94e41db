//! Decodes a worker's main log into the collections that the analysis is
//! built on: operator lifespans, activation durations, the operators and
//! channels that were created, the top-level dataflows, and (when the
//! timeline is enabled) the worker's span records.
use vstd::prelude::*;
use crate::addr::{elapsed, granulate, granule};
use crate::events::{ChannelsEvent, OperatesEvent, StartStop, TimelyEvent};
use crate::slots::SlotTable;
use crate::fuel::Fuel;
use crate::timeline::{timely_step, EventProcessor, OpenSpan, SpanRecord};
use std::collections::VecDeque;

verus! {

/// When an operator was created and when it shut down.
#[derive(Clone, Copy, Debug, PartialEq, Eq, Structural)]
pub struct Lifespan {
    pub start: u64,
    pub end: u64,
}

/// An operator's lifespan, emitted at `time`.
#[derive(Clone, Copy, Debug, PartialEq, Eq, Structural)]
pub struct LifespanRecord {
    pub worker: usize,
    pub operator: usize,
    pub lifespan: Lifespan,
    pub time: u64,
}

/// One activation of an operator, emitted at `time`.
#[derive(Clone, Copy, Debug, PartialEq, Eq, Structural)]
pub struct ActivationRecord {
    pub worker: usize,
    pub operator: usize,
    pub start: u64,
    pub duration: u64,
    pub time: u64,
}

/// An operator that was created at `created`, emitted at `time`.
#[derive(Clone, Debug)]
pub struct OperatorRecord {
    pub worker: usize,
    pub operator: OperatesEvent,
    pub created: u64,
    pub time: u64,
}

/// A channel that was created at `created`, emitted at `time`.
#[derive(Clone, Debug)]
pub struct ChannelRecord {
    pub worker: usize,
    pub channel: ChannelsEvent,
    pub created: u64,
    pub time: u64,
}

/// The operator of a top-level dataflow, emitted at `time`.
#[derive(Clone, Copy, Debug, PartialEq, Eq, Structural)]
pub struct DataflowRecord {
    pub worker: usize,
    pub operator: usize,
    pub time: u64,
}

/// What the extractor has emitted so far.
pub struct TimelyOutputs {
    pub lifespans: Vec<LifespanRecord>,
    pub activations: Vec<ActivationRecord>,
    pub operators: Vec<OperatorRecord>,
    pub channels: Vec<ChannelRecord>,
    pub dataflows: Vec<DataflowRecord>,
    pub timeline: Vec<SpanRecord>,
}

impl TimelyOutputs {
    /// Outputs with nothing emitted.
    pub fn new() -> (r: TimelyOutputs)
        ensures
            r.lifespans@.len() == 0,
            r.activations@.len() == 0,
            r.operators@.len() == 0,
            r.channels@.len() == 0,
            r.dataflows@.len() == 0,
            r.timeline@.len() == 0,
    {
        TimelyOutputs {
            lifespans: Vec::new(),
            activations: Vec::new(),
            operators: Vec::new(),
            channels: Vec::new(),
            dataflows: Vec::new(),
            timeline: Vec::new(),
        }
    }
}

/// The later of two times.
pub open spec fn later(a: u64, b: u64) -> u64 {
    if a >= b {
        a
    } else {
        b
    }
}

/// The start times of live operators after an event, and the lifespans it
/// closes. An operator's lifespan ends at its shutdown, or at its creation
/// where the shutdown is logged earlier.
pub open spec fn lifespan_step(
    live: Map<(usize, usize), u64>,
    worker: usize,
    time: u64,
    event: TimelyEvent,
) -> (Map<(usize, usize), u64>, Seq<LifespanRecord>) {
    match event {
        TimelyEvent::Operates(op) => (live.insert((worker, op.id), time), seq![]),
        TimelyEvent::Shutdown { id } => if live.contains_key((worker, id)) {
            let start = live[(worker, id)];
            (
                live.remove((worker, id)),
                seq![
                    LifespanRecord {
                        worker,
                        operator: id,
                        lifespan: Lifespan { start, end: later(start, time) },
                        time: granule(time),
                    },
                ],
            )
        } else {
            (live, seq![])
        },
        _ => (live, seq![]),
    }
}

/// The start times of running activations after an event, and the
/// activations it closes. A stop without a start emits nothing; a shutdown
/// drops the operator's running activation.
pub open spec fn activation_step(
    running: Map<(usize, usize), u64>,
    worker: usize,
    time: u64,
    event: TimelyEvent,
) -> (Map<(usize, usize), u64>, Seq<ActivationRecord>) {
    match event {
        TimelyEvent::Schedule { id, start_stop } => if start_stop == StartStop::Start {
            (running.insert((worker, id), time), seq![])
        } else if running.contains_key((worker, id)) {
            let start = running[(worker, id)];
            (
                running.remove((worker, id)),
                seq![
                    ActivationRecord {
                        worker,
                        operator: id,
                        start,
                        duration: elapsed(time, start),
                        time: granule(time),
                    },
                ],
            )
        } else {
            (running, seq![])
        },
        TimelyEvent::Shutdown { id } => (running.remove((worker, id)), seq![]),
        _ => (running, seq![]),
    }
}

/// The operator records an event emits.
pub open spec fn operators_emitted(worker: usize, time: u64, event: TimelyEvent) -> Seq<
    OperatorRecord,
> {
    match event {
        TimelyEvent::Operates(op) => seq![
            OperatorRecord { worker, operator: op, created: time, time: granule(time) },
        ],
        _ => seq![],
    }
}

/// The channel records an event emits.
pub open spec fn channels_emitted(worker: usize, time: u64, event: TimelyEvent) -> Seq<
    ChannelRecord,
> {
    match event {
        TimelyEvent::Channels(ch) => seq![
            ChannelRecord { worker, channel: ch, created: time, time: granule(time) },
        ],
        _ => seq![],
    }
}

/// The dataflow records an event emits: one for an operator whose address
/// has a single element.
pub open spec fn dataflows_emitted(worker: usize, time: u64, event: TimelyEvent) -> Seq<
    DataflowRecord,
> {
    match event {
        TimelyEvent::Operates(op) => if op.addr@.len() == 1 {
            seq![DataflowRecord { worker, operator: op.id, time: granule(time) }]
        } else {
            seq![]
        },
        _ => seq![],
    }
}

/// The live operators and the lifespans emitted after a sequence of
/// `(worker, time, event)` entries of the main log.
pub open spec fn lifespan_run(
    live: Map<(usize, usize), u64>,
    events: Seq<(usize, u64, TimelyEvent)>,
) -> (Map<(usize, usize), u64>, Seq<LifespanRecord>)
    decreases events.len(),
{
    if events.len() == 0 {
        (live, seq![])
    } else {
        let before = lifespan_run(live, events.drop_last());
        let (worker, time, event) = events.last();
        let after = lifespan_step(before.0, worker, time, event);
        (after.0, before.1 + after.1)
    }
}

/// Entry `j` of the log creates `operator` on `worker` at `time`.
pub open spec fn created_at(
    events: Seq<(usize, u64, TimelyEvent)>,
    j: int,
    worker: usize,
    operator: usize,
    time: u64,
) -> bool {
    0 <= j < events.len() && events[j].0 == worker && events[j].1 == time && match events[j].2 {
        TimelyEvent::Operates(op) => op.id == operator,
        _ => false,
    }
}

proof fn lemma_created_extends(
    events: Seq<(usize, u64, TimelyEvent)>,
    j: int,
    worker: usize,
    operator: usize,
    time: u64,
)
    requires
        events.len() > 0,
        created_at(events.drop_last(), j, worker, operator, time),
    ensures
        created_at(events, j, worker, operator, time),
{
    assert(events.drop_last()[j] == events[j]);
}

/// Lifespan wellformedness: from a start with no live operator, every
/// lifespan that a log yields ends no earlier than it starts, and starts at
/// a time at which the log created that operator on that worker.
pub proof fn lemma_lifespan_wellformed(events: Seq<(usize, u64, TimelyEvent)>)
    ensures
        forall|k: (usize, usize)|
            #[trigger] lifespan_run(Map::empty(), events).0.contains_key(k) ==> exists|j: int|
                created_at(events, j, k.0, k.1, lifespan_run(Map::empty(), events).0[k]),
        forall|i: int|
            0 <= i < lifespan_run(Map::empty(), events).1.len() ==> {
                let r = #[trigger] lifespan_run(Map::empty(), events).1[i];
                &&& r.lifespan.start <= r.lifespan.end
                &&& exists|j: int| created_at(events, j, r.worker, r.operator, r.lifespan.start)
            },
    decreases events.len(),
{
    if events.len() > 0 {
        let prev = events.drop_last();
        lemma_lifespan_wellformed(prev);
        let before = lifespan_run(Map::empty(), prev);
        let (worker, time, event) = events.last();
        let after = lifespan_step(before.0, worker, time, event);
        let run = lifespan_run(Map::empty(), events);
        assert(run.0 == after.0);
        assert(run.1 == before.1 + after.1);
        assert forall|k: (usize, usize)| #[trigger] run.0.contains_key(k) implies exists|j: int|
            created_at(events, j, k.0, k.1, run.0[k]) by {
            let fresh = match event {
                TimelyEvent::Operates(op) => k == (worker, op.id),
                _ => false,
            };
            if fresh {
                assert(created_at(events, events.len() - 1, k.0, k.1, run.0[k]));
            } else {
                assert(before.0.contains_key(k));
                assert(run.0[k] == before.0[k]);
                let j = choose|j: int| created_at(prev, j, k.0, k.1, before.0[k]);
                lemma_created_extends(events, j, k.0, k.1, run.0[k]);
            }
        }
        assert forall|i: int| 0 <= i < run.1.len() implies {
            let r = #[trigger] run.1[i];
            &&& r.lifespan.start <= r.lifespan.end
            &&& exists|j: int| created_at(events, j, r.worker, r.operator, r.lifespan.start)
        } by {
            let r = run.1[i];
            if i < before.1.len() {
                assert(r == before.1[i]);
                let j = choose|j: int| created_at(prev, j, r.worker, r.operator, r.lifespan.start);
                lemma_created_extends(events, j, r.worker, r.operator, r.lifespan.start);
            } else {
                assert(r == after.1[i - before.1.len()]);
                let k = (r.worker, r.operator);
                assert(before.0.contains_key(k));
                let j = choose|j: int| created_at(prev, j, k.0, k.1, before.0[k]);
                lemma_created_extends(events, j, k.0, k.1, before.0[k]);
            }
        }
    }
}

/// The model of a [`TimelyExtractor`].
pub struct ExtractorView {
    pub live: Map<(usize, usize), u64>,
    pub running: Map<(usize, usize), u64>,
    pub spans: Option<Seq<OpenSpan>>,
}

/// The model of [`TimelyOutputs`].
pub struct OutputsView {
    pub lifespans: Seq<LifespanRecord>,
    pub activations: Seq<ActivationRecord>,
    pub operators: Seq<OperatorRecord>,
    pub channels: Seq<ChannelRecord>,
    pub dataflows: Seq<DataflowRecord>,
    pub timeline: Seq<SpanRecord>,
}

impl View for TimelyOutputs {
    type V = OutputsView;

    open spec fn view(&self) -> OutputsView {
        OutputsView {
            lifespans: self.lifespans@,
            activations: self.activations@,
            operators: self.operators@,
            channels: self.channels@,
            dataflows: self.dataflows@,
            timeline: self.timeline@,
        }
    }
}

/// What one event does to the extractor and to its outputs.
pub open spec fn extract_step(
    x: ExtractorView,
    o: OutputsView,
    worker: usize,
    time: u64,
    event: TimelyEvent,
) -> (ExtractorView, OutputsView) {
    let l = lifespan_step(x.live, worker, time, event);
    let a = activation_step(x.running, worker, time, event);
    let spans = match x.spans {
        Some(s) => Some(timely_step(s, worker, time, event).0),
        None => None,
    };
    let timeline = match x.spans {
        Some(s) => o.timeline + timely_step(s, worker, time, event).1,
        None => o.timeline,
    };
    (
        ExtractorView { live: l.0, running: a.0, spans },
        OutputsView {
            lifespans: o.lifespans + l.1,
            activations: o.activations + a.1,
            operators: o.operators + operators_emitted(worker, time, event),
            channels: o.channels + channels_emitted(worker, time, event),
            dataflows: o.dataflows + dataflows_emitted(worker, time, event),
            timeline,
        },
    )
}

/// What a sequence of `(worker, time, event)` entries does to the extractor
/// and to its outputs.
pub open spec fn extract_run(
    x: ExtractorView,
    o: OutputsView,
    events: Seq<(usize, u64, TimelyEvent)>,
) -> (ExtractorView, OutputsView)
    decreases events.len(),
{
    if events.len() == 0 {
        (x, o)
    } else {
        let before = extract_run(x, o, events.drop_last());
        let (worker, time, event) = events.last();
        extract_step(before.0, before.1, worker, time, event)
    }
}

/// Idempotent rerun: what the extractor derives from a log depends only on
/// the entries and their order, not on how they are split into batches, so
/// replaying the same log gives the same outputs whatever fuel and
/// scheduling cut it into.
pub proof fn lemma_batches_compose(
    x: ExtractorView,
    o: OutputsView,
    first: Seq<(usize, u64, TimelyEvent)>,
    second: Seq<(usize, u64, TimelyEvent)>,
)
    ensures
        extract_run(x, o, first + second) == extract_run(
            extract_run(x, o, first).0,
            extract_run(x, o, first).1,
            second,
        ),
    decreases second.len(),
{
    if second.len() == 0 {
        assert(first + second =~= first);
    } else {
        lemma_batches_compose(x, o, first, second.drop_last());
        assert((first + second).drop_last() =~= first + second.drop_last());
        assert((first + second).last() == second.last());
    }
}

/// The state that the extractor keeps between events.
pub struct TimelyExtractor {
    /// Creation times of operators that have not shut down.
    pub lifespan_map: SlotTable,
    /// Start times of activations that have not stopped.
    pub activation_map: SlotTable,
    /// The span correlator, when the timeline is enabled.
    pub timeline: Option<EventProcessor>,
}

impl View for TimelyExtractor {
    type V = ExtractorView;

    open spec fn view(&self) -> ExtractorView {
        ExtractorView {
            live: self.lifespan_map@,
            running: self.activation_map@,
            spans: match self.timeline {
                Some(p) => Some(p.open_spans@),
                None => None,
            },
        }
    }
}

impl TimelyExtractor {
    /// An extractor that has seen no event.
    pub fn new(timeline_enabled: bool) -> (r: TimelyExtractor)
        ensures
            r.lifespan_map@ == Map::<(usize, usize), u64>::empty(),
            r.activation_map@ == Map::<(usize, usize), u64>::empty(),
            timeline_enabled <==> r.timeline.is_some(),
            timeline_enabled ==> r.timeline.unwrap().open_spans@.len() == 0,
    {
        TimelyExtractor {
            lifespan_map: SlotTable::new(),
            activation_map: SlotTable::new(),
            timeline: if timeline_enabled {
                Some(EventProcessor::new())
            } else {
                None
            },
        }
    }

    /// Processes one event of `worker`'s main log, logged at `time`, and
    /// appends what it emits to `out`.
    pub fn process(&mut self, worker: usize, time: u64, event: TimelyEvent, out: &mut TimelyOutputs)
        ensures
            (final(self)@, final(out)@) == extract_step(old(self)@, old(out)@, worker, time, event),
            (final(self).lifespan_map@, final(out).lifespans@) == (
                lifespan_step(old(self).lifespan_map@, worker, time, event).0,
                old(out).lifespans@ + lifespan_step(old(self).lifespan_map@, worker, time, event).1,
            ),
            (final(self).activation_map@, final(out).activations@) == (
                activation_step(old(self).activation_map@, worker, time, event).0,
                old(out).activations@ + activation_step(
                    old(self).activation_map@,
                    worker,
                    time,
                    event,
                ).1,
            ),
            final(out).operators@ == old(out).operators@ + operators_emitted(worker, time, event),
            final(out).channels@ == old(out).channels@ + channels_emitted(worker, time, event),
            final(out).dataflows@ == old(out).dataflows@ + dataflows_emitted(worker, time, event),
            final(self).timeline.is_some() == old(self).timeline.is_some(),
            old(self).timeline.is_none() ==> final(out).timeline@ == old(out).timeline@,
            old(self).timeline.is_some() ==> (
            final(self).timeline.unwrap().open_spans@,
            final(out).timeline@,
            ) == (
                timely_step(old(self).timeline.unwrap().open_spans@, worker, time, event).0,
                old(out).timeline@ + timely_step(
                    old(self).timeline.unwrap().open_spans@,
                    worker,
                    time,
                    event,
                ).1,
            ),
    {
        match &mut self.timeline {
            Some(processor) => {
                let mut records = processor.process_timely_event(worker, time, &event);
                out.timeline.append(&mut records);
            },
            None => {},
        }
        let session_time = granulate(time);
        let ghost out_l = out.lifespans@;
        let ghost out_a = out.activations@;
        let ghost out_o = out.operators@;
        let ghost out_c = out.channels@;
        let ghost out_d = out.dataflows@;
        match event {
            TimelyEvent::Operates(op) => {
                self.lifespan_map.insert(worker, op.id, time);
                if op.addr.len() == 1 {
                    out.dataflows.push(DataflowRecord { worker, operator: op.id, time: session_time });
                }
                out.operators.push(
                    OperatorRecord { worker, operator: op, created: time, time: session_time },
                );
            },
            TimelyEvent::Shutdown { id } => {
                match self.lifespan_map.take(worker, id) {
                    Some(start) => {
                        let end = if time >= start {
                            time
                        } else {
                            start
                        };
                        out.lifespans.push(
                            LifespanRecord {
                                worker,
                                operator: id,
                                lifespan: Lifespan { start, end },
                                time: session_time,
                            },
                        );
                    },
                    None => {},
                }
                let _dangling = self.activation_map.take(worker, id);
            },
            TimelyEvent::Schedule { id, start_stop } => {
                match start_stop {
                    StartStop::Start => {
                        self.activation_map.insert(worker, id, time);
                    },
                    StartStop::Stop => {
                        match self.activation_map.take(worker, id) {
                            Some(start) => {
                                let duration = if time >= start {
                                    time - start
                                } else {
                                    0
                                };
                                out.activations.push(
                                    ActivationRecord {
                                        worker,
                                        operator: id,
                                        start,
                                        duration,
                                        time: session_time,
                                    },
                                );
                            },
                            None => {},
                        }
                    },
                }
            },
            TimelyEvent::Channels(ch) => {
                out.channels.push(
                    ChannelRecord { worker, channel: ch, created: time, time: session_time },
                );
            },
            _ => {},
        }
        assert(out.lifespans@ =~= out_l + lifespan_step(old(self).lifespan_map@, worker, time, event).1);
        assert(out.activations@ =~= out_a + activation_step(old(self).activation_map@, worker, time, event).1);
        assert(out.operators@ =~= out_o + operators_emitted(worker, time, event));
        assert(out.channels@ =~= out_c + channels_emitted(worker, time, event));
        assert(out.dataflows@ =~= out_d + dataflows_emitted(worker, time, event));
        proof {
            let next = extract_step(old(self)@, old(out)@, worker, time, event);
            assert(self@.spans == next.0.spans) by {
                match old(self).timeline {
                    Some(p) => {
                        assert(self.timeline.is_some());
                    },
                    None => {
                        assert(self.timeline.is_none());
                    },
                }
            }
            assert(out@.timeline == next.1.timeline) by {
                match old(self).timeline {
                    Some(p) => {},
                    None => {},
                }
            }
            assert(self@.live == next.0.live);
            assert(self@.running == next.0.running);
            assert(out@.lifespans == next.1.lifespans);
            assert(out@.activations == next.1.activations);
            assert(out@.operators == next.1.operators);
            assert(out@.channels == next.1.channels);
            assert(out@.dataflows == next.1.dataflows);
            assert(self@ == next.0);
            assert(out@ == next.1);
        }
    }

    /// Processes entries from the front of `queue` while the fuel lasts, one
    /// unit per entry, and returns how many it processed. Entries that are
    /// left wait for the next activation.
    pub fn process_batch(
        &mut self,
        queue: &mut VecDeque<(usize, u64, TimelyEvent)>,
        fuel: &mut Fuel,
        out: &mut TimelyOutputs,
    ) -> (r: usize)
        ensures
            r <= old(queue)@.len(),
            final(queue)@ == old(queue)@.subrange(r as int, old(queue)@.len() as int),
            (final(self)@, final(out)@) == extract_run(
                old(self)@,
                old(out)@,
                old(queue)@.take(r as int),
            ),
            r < old(queue)@.len() ==> final(fuel).exhausted(),
            final(fuel).budget == old(fuel).budget,
            final(fuel).spent == (if old(fuel).spent + r <= usize::MAX {
                (old(fuel).spent + r) as usize
            } else {
                usize::MAX
            }),
    {
        let ghost q = queue@;
        let ghost x0 = self@;
        let ghost o0 = out@;
        let ghost spent0 = fuel.spent;
        let queued = queue.len();
        let mut done: usize = 0;
        assert(q.take(0) =~= Seq::<(usize, u64, TimelyEvent)>::empty());
        while !fuel.is_exhausted() && done < queued
            invariant
                done <= q.len(),
                queued == q.len(),
                queue@ == q.subrange(done as int, q.len() as int),
                (self@, out@) == extract_run(x0, o0, q.take(done as int)),
                fuel.budget == old(fuel).budget,
                fuel.spent == (if spent0 + done <= usize::MAX {
                    (spent0 + done) as usize
                } else {
                    usize::MAX
                }),
            decreases queue@.len(),
        {
            let entry = queue.pop_front();
            match entry {
                Some((worker, time, event)) => {
                    assert(q.take(done + 1).drop_last() =~= q.take(done as int));
                    assert(q.take(done + 1).last() == (worker, time, event));
                    self.process(worker, time, event, out);
                    fuel.exert(1);
                    done += 1;
                    assert(queue@ =~= q.subrange(done as int, q.len() as int));
                },
                None => {},
            }
        }
        done
    }
}

} // verus!
