//! Pairs the start and stop events of each worker into span records: operator
//! activations, application spans, guarded messages and progress, input,
//! parking and arrangement merges.
use vstd::prelude::*;
use crate::addr::elapsed;
use crate::events::{DifferentialEvent, StartStop, TimelyEvent};
use crate::extract::OperatorRecord;

verus! {

/// What an open span is waiting to be closed by. Spans of one kind on one
/// worker nest: the innermost is closed first.
#[derive(Clone, Copy, Debug, PartialEq, Eq, Hash, PartialOrd, Ord, Structural)]
pub enum EventKind {
    OperatorActivation { operator_id: usize },
    Message,
    Progress,
    Input,
    Park,
    Application { id: usize },
    Merge { operator_id: usize },
}

/// What a closed span was, before operator names are attached.
#[derive(Clone, Copy, Debug, PartialEq, Eq, Hash, PartialOrd, Ord, Structural)]
pub enum PartialTimelineEvent {
    OperatorActivation { operator_id: usize },
    Application,
    Parked,
    Input,
    Message,
    Progress,
    Merge { operator_id: usize },
}

impl PartialTimelineEvent {
    pub open spec fn spec_operator_id(self) -> Option<usize> {
        match self {
            PartialTimelineEvent::OperatorActivation { operator_id } => Some(operator_id),
            PartialTimelineEvent::Merge { operator_id } => Some(operator_id),
            _ => None,
        }
    }

    /// The operator that the event belongs to, for activations and merges.
    pub fn operator_id(&self) -> (r: Option<usize>)
        ensures
            r == self.spec_operator_id(),
    {
        match *self {
            PartialTimelineEvent::OperatorActivation { operator_id } => Some(operator_id),
            PartialTimelineEvent::Merge { operator_id } => Some(operator_id),
            _ => None,
        }
    }
}

impl EventKind {
    pub open spec fn spec_partial(self) -> PartialTimelineEvent {
        match self {
            EventKind::OperatorActivation { operator_id } => {
                PartialTimelineEvent::OperatorActivation { operator_id }
            },
            EventKind::Message => PartialTimelineEvent::Message,
            EventKind::Progress => PartialTimelineEvent::Progress,
            EventKind::Input => PartialTimelineEvent::Input,
            EventKind::Park => PartialTimelineEvent::Parked,
            EventKind::Application { .. } => PartialTimelineEvent::Application,
            EventKind::Merge { operator_id } => PartialTimelineEvent::Merge { operator_id },
        }
    }

    /// The event that a span of this kind becomes once it is closed.
    pub fn partial(&self) -> (r: PartialTimelineEvent)
        ensures
            r == self.spec_partial(),
    {
        match *self {
            EventKind::OperatorActivation { operator_id } => {
                PartialTimelineEvent::OperatorActivation { operator_id }
            },
            EventKind::Message => PartialTimelineEvent::Message,
            EventKind::Progress => PartialTimelineEvent::Progress,
            EventKind::Input => PartialTimelineEvent::Input,
            EventKind::Park => PartialTimelineEvent::Parked,
            EventKind::Application { .. } => PartialTimelineEvent::Application,
            EventKind::Merge { operator_id } => PartialTimelineEvent::Merge { operator_id },
        }
    }
}

/// A span that has started on `worker` at time `start` and not yet ended.
#[derive(Clone, Copy, Debug, PartialEq, Eq, Structural)]
pub struct OpenSpan {
    pub worker: usize,
    pub kind: EventKind,
    pub start: u64,
}

/// A closed span: it ran from `start` for `duration` and was closed at `time`,
/// the time at which the record is emitted.
#[derive(Clone, Copy, Debug, PartialEq, Eq, Structural)]
pub struct SpanRecord {
    pub worker: usize,
    pub event: PartialTimelineEvent,
    pub start: u64,
    pub duration: u64,
    pub time: u64,
}

/// The record of closing `span` at `now`; a close that comes before the start
/// counts as a span of zero length.
pub open spec fn close_span(span: OpenSpan, now: u64) -> SpanRecord {
    SpanRecord {
        worker: span.worker,
        event: span.kind.spec_partial(),
        start: span.start,
        duration: elapsed(now, span.start),
        time: now,
    }
}

pub open spec fn has_key(span: OpenSpan, worker: usize, kind: EventKind) -> bool {
    span.worker == worker && span.kind == kind
}

/// Index of the innermost open span of `kind` on `worker`, or -1.
pub open spec fn last_match(s: Seq<OpenSpan>, worker: usize, kind: EventKind) -> int
    decreases s.len(),
{
    if s.len() == 0 {
        -1
    } else if has_key(s.last(), worker, kind) {
        s.len() - 1
    } else {
        last_match(s.drop_last(), worker, kind)
    }
}

/// The open spans after a new span of `kind` starts at `now`.
pub open spec fn opened(s: Seq<OpenSpan>, worker: usize, kind: EventKind, now: u64) -> Seq<
    OpenSpan,
> {
    s.push(OpenSpan { worker, kind, start: now })
}

/// The open spans after the innermost span of `kind` is closed; unchanged
/// where no such span is open.
pub open spec fn closed(s: Seq<OpenSpan>, worker: usize, kind: EventKind) -> Seq<OpenSpan> {
    let i = last_match(s, worker, kind);
    if i < 0 {
        s
    } else {
        s.remove(i)
    }
}

/// The records that closing the innermost span of `kind` at `now` emits:
/// none where no such span is open.
pub open spec fn closed_records(s: Seq<OpenSpan>, worker: usize, kind: EventKind, now: u64) -> Seq<
    SpanRecord,
> {
    let i = last_match(s, worker, kind);
    if i < 0 {
        seq![]
    } else {
        seq![close_span(s[i], now)]
    }
}

/// A span that an operator's shutdown closes: an activation or a merge of
/// that operator on that worker.
pub open spec fn references(span: OpenSpan, worker: usize, operator: usize) -> bool {
    span.worker == worker && match span.kind {
        EventKind::OperatorActivation { operator_id } => operator_id == operator,
        EventKind::Merge { operator_id } => operator_id == operator,
        _ => false,
    }
}

/// The open spans that outlive the shutdown of `operator` on `worker`.
pub open spec fn surviving(s: Seq<OpenSpan>, worker: usize, operator: usize) -> Seq<OpenSpan>
    decreases s.len(),
{
    if s.len() == 0 {
        seq![]
    } else if references(s.last(), worker, operator) {
        surviving(s.drop_last(), worker, operator)
    } else {
        surviving(s.drop_last(), worker, operator).push(s.last())
    }
}

/// The records of the spans that the shutdown of `operator` on `worker`
/// closes at `now`, in the order in which the spans were opened.
pub open spec fn released(s: Seq<OpenSpan>, worker: usize, operator: usize, now: u64) -> Seq<
    SpanRecord,
>
    decreases s.len(),
{
    if s.len() == 0 {
        seq![]
    } else if references(s.last(), worker, operator) {
        released(s.drop_last(), worker, operator, now).push(close_span(s.last(), now))
    } else {
        released(s.drop_last(), worker, operator, now)
    }
}

/// One start or stop of a span of `kind`.
pub open spec fn start_stop_step(
    s: Seq<OpenSpan>,
    worker: usize,
    now: u64,
    kind: EventKind,
    is_start: bool,
) -> (Seq<OpenSpan>, Seq<SpanRecord>) {
    if is_start {
        (opened(s, worker, kind, now), seq![])
    } else {
        (closed(s, worker, kind), closed_records(s, worker, kind, now))
    }
}

/// What one event of the main log does to the open spans, and the records it
/// emits.
pub open spec fn timely_step(s: Seq<OpenSpan>, worker: usize, now: u64, event: TimelyEvent) -> (
    Seq<OpenSpan>,
    Seq<SpanRecord>,
) {
    match event {
        TimelyEvent::Schedule { id, start_stop } => start_stop_step(
            s,
            worker,
            now,
            EventKind::OperatorActivation { operator_id: id },
            start_stop == StartStop::Start,
        ),
        TimelyEvent::Application { id, is_start } => start_stop_step(
            s,
            worker,
            now,
            EventKind::Application { id },
            is_start,
        ),
        TimelyEvent::GuardedMessage { is_start } => start_stop_step(
            s,
            worker,
            now,
            EventKind::Message,
            is_start,
        ),
        TimelyEvent::GuardedProgress { is_start } => start_stop_step(
            s,
            worker,
            now,
            EventKind::Progress,
            is_start,
        ),
        TimelyEvent::Input { start_stop } => start_stop_step(
            s,
            worker,
            now,
            EventKind::Input,
            start_stop == StartStop::Start,
        ),
        TimelyEvent::Park { .. } => start_stop_step(s, worker, now, EventKind::Park, true),
        TimelyEvent::Unpark => start_stop_step(s, worker, now, EventKind::Park, false),
        TimelyEvent::Shutdown { id } => (
            surviving(s, worker, id),
            released(s, worker, id, now),
        ),
        _ => (s, seq![]),
    }
}

/// What one event of the arrangement log does to the open spans, and the
/// records it emits. A merge that starts while one of the same operator is
/// open replaces it, and the replaced one emits nothing.
pub open spec fn differential_step(
    s: Seq<OpenSpan>,
    worker: usize,
    now: u64,
    event: DifferentialEvent,
) -> (Seq<OpenSpan>, Seq<SpanRecord>) {
    match event {
        DifferentialEvent::Merge { operator, complete } => {
            let kind = EventKind::Merge { operator_id: operator };
            if complete.is_none() {
                (opened(closed(s, worker, kind), worker, kind, now), seq![])
            } else {
                start_stop_step(s, worker, now, kind, false)
            }
        },
        DifferentialEvent::MergeShortfall { operator } => start_stop_step(
            s,
            worker,
            now,
            EventKind::Merge { operator_id: operator },
            false,
        ),
        DifferentialEvent::Drop { operator } => start_stop_step(
            s,
            worker,
            now,
            EventKind::Merge { operator_id: operator },
            false,
        ),
        _ => (s, seq![]),
    }
}

pub proof fn lemma_last_match_bounds(s: Seq<OpenSpan>, worker: usize, kind: EventKind)
    ensures
        -1 <= last_match(s, worker, kind) < s.len(),
        last_match(s, worker, kind) >= 0 ==> has_key(s[last_match(s, worker, kind)], worker, kind),
        last_match(s, worker, kind) < 0 ==> forall|j: int|
            0 <= j < s.len() ==> !has_key(#[trigger] s[j], worker, kind),
    decreases s.len(),
{
    if s.len() > 0 {
        lemma_last_match_bounds(s.drop_last(), worker, kind);
        if !has_key(s.last(), worker, kind) && last_match(s, worker, kind) < 0 {
            assert forall|j: int| 0 <= j < s.len() implies !has_key(#[trigger] s[j], worker, kind) by {
                if j < s.len() - 1 {
                    assert(s[j] == s.drop_last()[j]);
                }
            }
        }
    }
}

/// Whether an event of the main log opens a span.
pub open spec fn opens_span(event: TimelyEvent) -> bool {
    match event {
        TimelyEvent::Schedule { start_stop, .. } => start_stop == StartStop::Start,
        TimelyEvent::Application { is_start, .. } => is_start,
        TimelyEvent::GuardedMessage { is_start } => is_start,
        TimelyEvent::GuardedProgress { is_start } => is_start,
        TimelyEvent::Input { start_stop } => start_stop == StartStop::Start,
        TimelyEvent::Park { .. } => true,
        _ => false,
    }
}

/// The span kind that an event of the main log closes, if it closes one.
pub open spec fn closes_kind(event: TimelyEvent) -> Option<EventKind> {
    match event {
        TimelyEvent::Schedule { id, start_stop } => if start_stop == StartStop::Stop {
            Some(EventKind::OperatorActivation { operator_id: id })
        } else {
            None
        },
        TimelyEvent::Application { id, is_start } => if !is_start {
            Some(EventKind::Application { id })
        } else {
            None
        },
        TimelyEvent::GuardedMessage { is_start } => if !is_start {
            Some(EventKind::Message)
        } else {
            None
        },
        TimelyEvent::GuardedProgress { is_start } => if !is_start {
            Some(EventKind::Progress)
        } else {
            None
        },
        TimelyEvent::Input { start_stop } => if start_stop == StartStop::Stop {
            Some(EventKind::Input)
        } else {
            None
        },
        TimelyEvent::Unpark => Some(EventKind::Park),
        _ => None,
    }
}

/// An event is well formed against the open spans when every stop it makes
/// has a matching start.
pub open spec fn wellformed_step(s: Seq<OpenSpan>, worker: usize, event: TimelyEvent) -> bool {
    match closes_kind(event) {
        Some(kind) => last_match(s, worker, kind) >= 0,
        None => true,
    }
}

/// The open spans and the emitted records after a sequence of
/// `(worker, time, event)` entries of the main log.
pub open spec fn timely_run(s: Seq<OpenSpan>, events: Seq<(usize, u64, TimelyEvent)>) -> (
    Seq<OpenSpan>,
    Seq<SpanRecord>,
)
    decreases events.len(),
{
    if events.len() == 0 {
        (s, seq![])
    } else {
        let before = timely_run(s, events.drop_last());
        let (worker, time, event) = events.last();
        let after = timely_step(before.0, worker, time, event);
        (after.0, before.1 + after.1)
    }
}

/// Every stop of the sequence has a matching start when it arrives.
pub open spec fn wellformed_run(s: Seq<OpenSpan>, events: Seq<(usize, u64, TimelyEvent)>) -> bool
    decreases events.len(),
{
    if events.len() == 0 {
        true
    } else {
        let (worker, _time, event) = events.last();
        wellformed_run(s, events.drop_last()) && wellformed_step(
            timely_run(s, events.drop_last()).0,
            worker,
            event,
        )
    }
}

/// The number of entries that open a span.
pub open spec fn count_starts(events: Seq<(usize, u64, TimelyEvent)>) -> nat
    decreases events.len(),
{
    if events.len() == 0 {
        0
    } else {
        count_starts(events.drop_last()) + if opens_span(events.last().2) {
            1nat
        } else {
            0nat
        }
    }
}

/// An operator's shutdown splits the open spans: those of the operator are
/// closed, one record each, and none of them stays open.
pub proof fn lemma_shutdown_releases(s: Seq<OpenSpan>, worker: usize, operator: usize, now: u64)
    ensures
        surviving(s, worker, operator).len() + released(s, worker, operator, now).len() == s.len(),
        forall|j: int|
            0 <= j < surviving(s, worker, operator).len() ==> !references(
                #[trigger] surviving(s, worker, operator)[j],
                worker,
                operator,
            ),
        forall|j: int|
            0 <= j < released(s, worker, operator, now).len() ==> (#[trigger] released(
                s,
                worker,
                operator,
                now,
            )[j]).event.spec_operator_id() == Some(operator),
    decreases s.len(),
{
    if s.len() > 0 {
        lemma_shutdown_releases(s.drop_last(), worker, operator, now);
        let k = surviving(s.drop_last(), worker, operator);
        let r = released(s.drop_last(), worker, operator, now);
        if references(s.last(), worker, operator) {
            assert forall|j: int| 0 <= j < released(s, worker, operator, now).len() implies (
            #[trigger] released(s, worker, operator, now)[j]).event.spec_operator_id() == Some(
                operator,
            ) by {
                if j < r.len() {
                    assert(released(s, worker, operator, now)[j] == r[j]);
                }
            }
        } else {
            assert forall|j: int| 0 <= j < surviving(s, worker, operator).len() implies !references(
                #[trigger] surviving(s, worker, operator)[j],
                worker,
                operator,
            ) by {
                if j < k.len() {
                    assert(surviving(s, worker, operator)[j] == k[j]);
                }
            }
        }
    }
}

/// One event either opens a span, closes one into exactly one record, or
/// closes a shut-down operator's spans into one record each: no span is lost
/// and none is counted twice.
pub proof fn lemma_step_pairing(s: Seq<OpenSpan>, worker: usize, now: u64, event: TimelyEvent)
    requires
        wellformed_step(s, worker, event),
    ensures
        timely_step(s, worker, now, event).0.len() + timely_step(s, worker, now, event).1.len()
            == s.len() + if opens_span(event) {
            1int
        } else {
            0int
        },
{
    match event {
        TimelyEvent::Shutdown { id } => {
            lemma_shutdown_releases(s, worker, id, now);
        },
        _ => {
            match closes_kind(event) {
                Some(kind) => {
                    lemma_last_match_bounds(s, worker, kind);
                },
                None => {},
            }
        },
    }
}

/// Span pairing: on a well-formed log every span that starts is, at any
/// point, either still open or closed into exactly one record, by its stop
/// or by the shutdown of its operator.
pub proof fn lemma_span_pairing(s: Seq<OpenSpan>, events: Seq<(usize, u64, TimelyEvent)>)
    requires
        wellformed_run(s, events),
    ensures
        timely_run(s, events).0.len() + timely_run(s, events).1.len() == s.len() + count_starts(
            events,
        ),
    decreases events.len(),
{
    if events.len() > 0 {
        lemma_span_pairing(s, events.drop_last());
        let before = timely_run(s, events.drop_last());
        let (worker, time, event) = events.last();
        lemma_step_pairing(before.0, worker, time, event);
    }
}

/// The spans that are open on the workers whose events a processor has seen.
pub struct EventProcessor {
    pub open_spans: Vec<OpenSpan>,
}

impl EventProcessor {
    /// A processor with no open span.
    pub fn new() -> (r: EventProcessor)
        ensures
            r.open_spans@ == Seq::<OpenSpan>::empty(),
    {
        EventProcessor { open_spans: Vec::new() }
    }

    /// Opens a span of `kind` on `worker` at `time`.
    pub fn insert(&mut self, worker: usize, kind: EventKind, time: u64)
        ensures
            final(self).open_spans@ == opened(old(self).open_spans@, worker, kind, time),
    {
        self.open_spans.push(OpenSpan { worker, kind, start: time });
    }

    fn find_last(&self, worker: usize, kind: EventKind) -> (r: Option<usize>)
        ensures
            match r {
                Some(i) => i as int == last_match(self.open_spans@, worker, kind),
                None => last_match(self.open_spans@, worker, kind) < 0,
            },
    {
        let ghost s = self.open_spans@;
        let mut i: usize = self.open_spans.len();
        assert(s.take(i as int) =~= s);
        while i > 0
            invariant
                i <= s.len(),
                s == self.open_spans@,
                last_match(s, worker, kind) == last_match(s.take(i as int), worker, kind),
            decreases i,
        {
            let span = self.open_spans[i - 1];
            assert(s.take(i as int).last() == span);
            if span.worker == worker && span.kind == kind {
                return Some(i - 1);
            }
            assert(s.take(i as int).drop_last() =~= s.take(i - 1));
            i -= 1;
        }
        None
    }

    /// Closes the innermost open span of `kind` on `worker` at `time`, and
    /// returns its record. A stop without a start is dropped: nothing changes
    /// and nothing is returned.
    pub fn remove(&mut self, worker: usize, kind: EventKind, time: u64) -> (r: Option<SpanRecord>)
        ensures
            final(self).open_spans@ == closed(old(self).open_spans@, worker, kind),
            match r {
                Some(record) => closed_records(old(self).open_spans@, worker, kind, time) == seq![
                    record,
                ],
                None => closed_records(old(self).open_spans@, worker, kind, time) == Seq::<
                    SpanRecord,
                >::empty(),
            },
    {
        proof {
            lemma_last_match_bounds(self.open_spans@, worker, kind);
        }
        match self.find_last(worker, kind) {
            Some(i) => {
                let span = self.open_spans.remove(i);
                let duration = if time >= span.start {
                    time - span.start
                } else {
                    0
                };
                Some(
                    SpanRecord {
                        worker: span.worker,
                        event: span.kind.partial(),
                        start: span.start,
                        duration,
                        time,
                    },
                )
            },
            None => None,
        }
    }

    /// Opens (`is_start`) or closes a span of `kind`.
    pub fn start_stop(&mut self, worker: usize, kind: EventKind, time: u64, is_start: bool) -> (r:
        Vec<SpanRecord>)
        ensures
            (final(self).open_spans@, r@) == start_stop_step(
                old(self).open_spans@,
                worker,
                time,
                kind,
                is_start,
            ),
    {
        let mut out: Vec<SpanRecord> = Vec::new();
        if is_start {
            self.insert(worker, kind, time);
        } else {
            match self.remove(worker, kind, time) {
                Some(record) => {
                    out.push(record);
                    assert(out@ =~= seq![record]);
                },
                None => {
                    assert(out@ =~= Seq::<SpanRecord>::empty());
                },
            }
        }
        out
    }

    /// Closes, at `time`, every open span of `worker` that belongs to
    /// `operator`, which has shut down, and returns their records in the
    /// order in which the spans were opened.
    pub fn remove_referencing(&mut self, worker: usize, operator: usize, time: u64) -> (r: Vec<
        SpanRecord,
    >)
        ensures
            final(self).open_spans@ == surviving(old(self).open_spans@, worker, operator),
            r@ == released(old(self).open_spans@, worker, operator, time),
    {
        let ghost s = self.open_spans@;
        let mut kept: Vec<OpenSpan> = Vec::new();
        let mut out: Vec<SpanRecord> = Vec::new();
        let mut i: usize = 0;
        while i < self.open_spans.len()
            invariant
                i <= s.len(),
                s == self.open_spans@,
                kept@ == surviving(s.take(i as int), worker, operator),
                out@ == released(s.take(i as int), worker, operator, time),
            decreases s.len() - i,
        {
            let span = self.open_spans[i];
            assert(s.take(i + 1).drop_last() =~= s.take(i as int));
            assert(s.take(i + 1).last() == span);
            let hit = span.worker == worker && match span.kind {
                EventKind::OperatorActivation { operator_id } => operator_id == operator,
                EventKind::Merge { operator_id } => operator_id == operator,
                _ => false,
            };
            if hit {
                let duration = if time >= span.start {
                    time - span.start
                } else {
                    0
                };
                out.push(
                    SpanRecord {
                        worker: span.worker,
                        event: span.kind.partial(),
                        start: span.start,
                        duration,
                        time,
                    },
                );
            } else {
                kept.push(span);
            }
            i += 1;
        }
        assert(s.take(s.len() as int) =~= s);
        self.open_spans = kept;
        out
    }

    /// Feeds one event of `worker`'s main log, logged at `time`, and returns
    /// the records of the spans it closes.
    pub fn process_timely_event(&mut self, worker: usize, time: u64, event: &TimelyEvent) -> (r: Vec<
        SpanRecord,
    >)
        ensures
            (final(self).open_spans@, r@) == timely_step(
                old(self).open_spans@,
                worker,
                time,
                *event,
            ),
    {
        match event {
            TimelyEvent::Schedule { id, start_stop } => self.start_stop(
                worker,
                EventKind::OperatorActivation { operator_id: *id },
                time,
                *start_stop == StartStop::Start,
            ),
            TimelyEvent::Application { id, is_start } => self.start_stop(
                worker,
                EventKind::Application { id: *id },
                time,
                *is_start,
            ),
            TimelyEvent::GuardedMessage { is_start } => self.start_stop(
                worker,
                EventKind::Message,
                time,
                *is_start,
            ),
            TimelyEvent::GuardedProgress { is_start } => self.start_stop(
                worker,
                EventKind::Progress,
                time,
                *is_start,
            ),
            TimelyEvent::Input { start_stop } => self.start_stop(
                worker,
                EventKind::Input,
                time,
                *start_stop == StartStop::Start,
            ),
            TimelyEvent::Park { .. } => self.start_stop(worker, EventKind::Park, time, true),
            TimelyEvent::Unpark => self.start_stop(worker, EventKind::Park, time, false),
            TimelyEvent::Shutdown { id } => self.remove_referencing(worker, *id, time),
            _ => Vec::new(),
        }
    }

    /// Feeds one event of `worker`'s arrangement log, logged at `time`, and
    /// returns the records of the merges it closes.
    pub fn process_differential_event(
        &mut self,
        worker: usize,
        time: u64,
        event: &DifferentialEvent,
    ) -> (r: Vec<SpanRecord>)
        ensures
            (final(self).open_spans@, r@) == differential_step(
                old(self).open_spans@,
                worker,
                time,
                *event,
            ),
    {
        match *event {
            DifferentialEvent::Merge { operator, complete } => {
                let kind = EventKind::Merge { operator_id: operator };
                if complete.is_none() {
                    let _replaced = self.remove(worker, kind, time);
                    self.insert(worker, kind, time);
                    Vec::new()
                } else {
                    self.start_stop(worker, kind, time, false)
                }
            },
            DifferentialEvent::MergeShortfall { operator } => self.start_stop(
                worker,
                EventKind::Merge { operator_id: operator },
                time,
                false,
            ),
            DifferentialEvent::Drop { operator } => self.start_stop(
                worker,
                EventKind::Merge { operator_id: operator },
                time,
                false,
            ),
            _ => Vec::new(),
        }
    }
}

/// What a timeline entry shows; activations and merges carry the name of
/// their operator.
#[derive(Clone, Debug, PartialEq, Eq)]
pub enum TimelineEvent {
    OperatorActivation { operator_id: usize, operator_name: String },
    Application,
    Parked,
    Input,
    Message,
    Progress,
    Merge { operator_id: usize, operator_name: String },
}

impl TimelineEvent {
    /// The operator's name, for activations and merges.
    pub fn operator_name_mut(&mut self) -> (r: Option<&mut String>)
        ensures
            match *old(self) {
                TimelineEvent::OperatorActivation { operator_id, operator_name } => r.is_some()
                    && *r.unwrap() == operator_name && *final(self)
                    == TimelineEvent::OperatorActivation {
                    operator_id,
                    operator_name: *final(r.unwrap()),
                },
                TimelineEvent::Merge { operator_id, operator_name } => r.is_some() && *r.unwrap()
                    == operator_name && *final(self) == TimelineEvent::Merge {
                    operator_id,
                    operator_name: *final(r.unwrap()),
                },
                _ => r.is_none() && *final(self) == *old(self),
            },
    {
        match self {
            TimelineEvent::OperatorActivation { operator_name, .. } => Some(operator_name),
            TimelineEvent::Merge { operator_name, .. } => Some(operator_name),
            _ => None,
        }
    }
}

impl PartialTimelineEvent {
    /// The timeline event that shows this span, with an empty operator name
    /// for activations and merges until a name is attached.
    pub fn to_timeline_event(&self) -> (r: TimelineEvent)
        ensures
            timeline_view(r) == (*self, Seq::<char>::empty()),
    {
        match *self {
            PartialTimelineEvent::OperatorActivation { operator_id } => {
                TimelineEvent::OperatorActivation { operator_id, operator_name: String::new() }
            },
            PartialTimelineEvent::Application => TimelineEvent::Application,
            PartialTimelineEvent::Parked => TimelineEvent::Parked,
            PartialTimelineEvent::Input => TimelineEvent::Input,
            PartialTimelineEvent::Message => TimelineEvent::Message,
            PartialTimelineEvent::Progress => TimelineEvent::Progress,
            PartialTimelineEvent::Merge { operator_id } => {
                TimelineEvent::Merge { operator_id, operator_name: String::new() }
            },
        }
    }
}

/// The model of a [`TimelineEvent`]: the kind of span, and the operator's
/// name where it has one.
pub open spec fn timeline_view(e: TimelineEvent) -> (PartialTimelineEvent, Seq<char>) {
    match e {
        TimelineEvent::OperatorActivation { operator_id, operator_name } => (
            PartialTimelineEvent::OperatorActivation { operator_id },
            operator_name@,
        ),
        TimelineEvent::Application => (PartialTimelineEvent::Application, seq![]),
        TimelineEvent::Parked => (PartialTimelineEvent::Parked, seq![]),
        TimelineEvent::Input => (PartialTimelineEvent::Input, seq![]),
        TimelineEvent::Message => (PartialTimelineEvent::Message, seq![]),
        TimelineEvent::Progress => (PartialTimelineEvent::Progress, seq![]),
        TimelineEvent::Merge { operator_id, operator_name } => (
            PartialTimelineEvent::Merge { operator_id },
            operator_name@,
        ),
    }
}

/// One entry of a worker's timeline.
#[derive(Clone, Debug, PartialEq, Eq)]
pub struct WorkerTimelineEvent {
    pub event_id: u64,
    pub worker: usize,
    pub event: TimelineEvent,
    pub start_time: u64,
    pub duration: u64,
    /// The number of events that have been collapsed into this one.
    pub collapsed_events: usize,
}

/// The model of a [`WorkerTimelineEvent`].
pub struct TimelineRow {
    pub event_id: u64,
    pub worker: usize,
    pub event: PartialTimelineEvent,
    pub name: Seq<char>,
    pub start_time: u64,
    pub duration: u64,
    pub collapsed_events: usize,
}

impl View for WorkerTimelineEvent {
    type V = TimelineRow;

    open spec fn view(&self) -> TimelineRow {
        TimelineRow {
            event_id: self.event_id,
            worker: self.worker,
            event: timeline_view(self.event).0,
            name: timeline_view(self.event).1,
            start_time: self.start_time,
            duration: self.duration,
            collapsed_events: self.collapsed_events,
        }
    }
}

/// The name of `operator` on `worker`: the last one logged.
pub open spec fn name_of(ops: Seq<OperatorRecord>, worker: usize, operator: usize) -> Option<
    Seq<char>,
>
    decreases ops.len(),
{
    if ops.len() == 0 {
        None
    } else if ops.last().worker == worker && ops.last().operator.id == operator {
        Some(ops.last().operator.name@)
    } else {
        name_of(ops.drop_last(), worker, operator)
    }
}

/// The timeline entry of span record `r`, numbered `id`, with its
/// operator's name where it has one.
pub open spec fn timeline_row(r: SpanRecord, id: u64, name: Seq<char>) -> TimelineRow {
    TimelineRow {
        event_id: id,
        worker: r.worker,
        event: r.event,
        name,
        start_time: r.start,
        duration: r.duration,
        collapsed_events: 1,
    }
}

/// The timeline of the span records `recs`, each numbered by its position:
/// activations and merges of an operator with no logged name are left out.
pub open spec fn timeline_rows(recs: Seq<SpanRecord>, ops: Seq<OperatorRecord>) -> Seq<TimelineRow>
    decreases recs.len(),
{
    if recs.len() == 0 {
        seq![]
    } else {
        let r = recs.last();
        let id = (recs.len() - 1) as u64;
        let rest = timeline_rows(recs.drop_last(), ops);
        match r.event.spec_operator_id() {
            Some(op) => match name_of(ops, r.worker, op) {
                Some(name) => rest.push(timeline_row(r, id, name)),
                None => rest,
            },
            None => rest.push(timeline_row(r, id, seq![])),
        }
    }
}

fn find_name(ops: &Vec<OperatorRecord>, worker: usize, operator: usize) -> (r: Option<String>)
    ensures
        match r {
            Some(name) => name_of(ops@, worker, operator) == Some(name@),
            None => name_of(ops@, worker, operator).is_none(),
        },
{
    let ghost s = ops@;
    let mut i: usize = ops.len();
    assert(s.take(i as int) =~= s);
    while i > 0
        invariant
            i <= s.len(),
            s == ops@,
            name_of(s, worker, operator) == name_of(s.take(i as int), worker, operator),
        decreases i,
    {
        let op = &ops[i - 1];
        assert(s.take(i as int).last() == *op);
        assert(s.take(i as int).drop_last() =~= s.take(i - 1));
        if op.worker == worker && op.operator.id == operator {
            return Some(op.operator.name.clone());
        }
        i -= 1;
    }
    None
}

/// Builds the timeline entries of the span records, naming activations and
/// merges after their operators. Each entry is numbered by the position of
/// its record.
pub fn worker_timeline(records: &Vec<SpanRecord>, operators: &Vec<OperatorRecord>) -> (r: Vec<
    WorkerTimelineEvent,
>)
    requires
        records@.len() <= u64::MAX,
    ensures
        r@.map_values(|e: WorkerTimelineEvent| e@) == timeline_rows(records@, operators@),
{
    let ghost s = records@;
    let mut out: Vec<WorkerTimelineEvent> = Vec::new();
    let mut i: usize = 0;
    while i < records.len()
        invariant
            i <= s.len(),
            s == records@,
            s.len() <= u64::MAX,
            out@.map_values(|e: WorkerTimelineEvent| e@) == timeline_rows(s.take(i as int), operators@),
        decreases s.len() - i,
    {
        let r = records[i];
        let ghost t = s.take(i + 1);
        assert(t.drop_last() =~= s.take(i as int));
        assert(t.last() == r);
        let ghost prev = out@;
        let event = match r.event {
            PartialTimelineEvent::OperatorActivation { operator_id } => match find_name(
                operators,
                r.worker,
                operator_id,
            ) {
                Some(name) => Some(TimelineEvent::OperatorActivation { operator_id, operator_name: name }),
                None => None,
            },
            PartialTimelineEvent::Merge { operator_id } => match find_name(
                operators,
                r.worker,
                operator_id,
            ) {
                Some(name) => Some(TimelineEvent::Merge { operator_id, operator_name: name }),
                None => None,
            },
            PartialTimelineEvent::Application => Some(TimelineEvent::Application),
            PartialTimelineEvent::Parked => Some(TimelineEvent::Parked),
            PartialTimelineEvent::Input => Some(TimelineEvent::Input),
            PartialTimelineEvent::Message => Some(TimelineEvent::Message),
            PartialTimelineEvent::Progress => Some(TimelineEvent::Progress),
        };
        match event {
            Some(event) => {
                let entry = WorkerTimelineEvent {
                    event_id: i as u64,
                    worker: r.worker,
                    event,
                    start_time: r.start,
                    duration: r.duration,
                    collapsed_events: 1,
                };
                out.push(entry);
                assert(out@.map_values(|e: WorkerTimelineEvent| e@) =~= prev.map_values(
                    |e: WorkerTimelineEvent| e@,
                ).push(entry@));
            },
            None => {},
        }
        i += 1;
    }
    assert(s.take(s.len() as int) =~= s);
    out
}

/// Grace period within which two occurrences of one event that do not quite
/// touch are still collapsed into one timeline entry.
pub const COLLAPSE_MARGIN_NS: u64 = 500000;

/// An input of the timeline collapser: an entry to fold in, or a request to
/// emit the held entry once it ends no later than this one.
#[derive(Debug)]
pub enum CollapseInput {
    Event(WorkerTimelineEvent),
    Flush(WorkerTimelineEvent),
}

/// When a timeline entry ends.
pub open spec fn end_of(row: TimelineRow) -> int {
    row.start_time + row.duration
}

/// Two entries show the same event, and their time windows overlap once the
/// held one is widened by the margin on both sides.
pub open spec fn collapsible(held: TimelineRow, input: TimelineRow) -> bool {
    &&& held.event == input.event
    &&& held.name == input.name
    &&& (if held.start_time >= COLLAPSE_MARGIN_NS {
        held.start_time - COLLAPSE_MARGIN_NS
    } else {
        0
    }) <= end_of(input)
    &&& end_of(held) + COLLAPSE_MARGIN_NS >= input.start_time
}

/// `a + b`, or `u64::MAX` where that does not fit.
pub open spec fn sat_add(a: u64, b: u64) -> u64 {
    if a + b <= u64::MAX {
        (a + b) as u64
    } else {
        u64::MAX
    }
}

/// Whether two timeline events show the same thing.
pub fn same_event(a: &TimelineEvent, b: &TimelineEvent) -> (r: bool)
    ensures
        r == (timeline_view(*a) == timeline_view(*b)),
{
    match (a, b) {
        (
            TimelineEvent::OperatorActivation { operator_id: x, operator_name: m },
            TimelineEvent::OperatorActivation { operator_id: y, operator_name: n },
        ) => *x == *y && *m == *n,
        (
            TimelineEvent::Merge { operator_id: x, operator_name: m },
            TimelineEvent::Merge { operator_id: y, operator_name: n },
        ) => *x == *y && *m == *n,
        (TimelineEvent::Application, TimelineEvent::Application) => true,
        (TimelineEvent::Parked, TimelineEvent::Parked) => true,
        (TimelineEvent::Input, TimelineEvent::Input) => true,
        (TimelineEvent::Message, TimelineEvent::Message) => true,
        (TimelineEvent::Progress, TimelineEvent::Progress) => true,
        _ => false,
    }
}

/// Folds one input into the entry held for a worker. An event with nothing
/// held is held. An event that is collapsible with the held entry is added
/// to it: the durations add up and the count of collapsed events grows by
/// one, both saturating. Any other event replaces the held entry, which is
/// emitted. A flush emits and clears the held entry when it ends no later
/// than the flush's entry; the returned flag says whether it did.
pub fn fold_timeline_events(held: &mut Option<WorkerTimelineEvent>, input: CollapseInput) -> (r: (
    bool,
    Option<WorkerTimelineEvent>,
))
    ensures
        match input {
            CollapseInput::Event(e) => match *old(held) {
                None => *final(held) == Some(e) && r == (false, None::<WorkerTimelineEvent>),
                Some(h) => if collapsible(h@, e@) {
                    &&& r == (false, None::<WorkerTimelineEvent>)
                    &&& final(held).is_some()
                    &&& final(held).unwrap().event == h.event
                    &&& final(held).unwrap()@ == TimelineRow {
                        duration: sat_add(h.duration, e.duration),
                        collapsed_events: if h.collapsed_events < usize::MAX {
                            (h.collapsed_events + 1) as usize
                        } else {
                            usize::MAX
                        },
                        ..h@
                    }
                } else {
                    *final(held) == Some(e) && r == (false, Some(h))
                },
            },
            CollapseInput::Flush(e) => match *old(held) {
                Some(h) => if end_of(h@) <= end_of(e@) {
                    final(held).is_none() && r == (true, Some(h))
                } else {
                    *final(held) == *old(held) && r == (false, None::<WorkerTimelineEvent>)
                },
                None => final(held).is_none() && r == (false, None::<WorkerTimelineEvent>),
            },
        },
{
    match input {
        CollapseInput::Event(e) => {
            let current = held.take();
            match current {
                None => {
                    *held = Some(e);
                    (false, None)
                },
                Some(mut h) => {
                    let lower = h.start_time.saturating_sub(COLLAPSE_MARGIN_NS);
                    let input_end = e.start_time as u128 + e.duration as u128;
                    let held_end = h.start_time as u128 + h.duration as u128;
                    if same_event(&h.event, &e.event) && lower as u128 <= input_end && held_end
                        + COLLAPSE_MARGIN_NS as u128 >= e.start_time as u128 {
                        h.duration = h.duration.saturating_add(e.duration);
                        h.collapsed_events = h.collapsed_events.saturating_add(1);
                        *held = Some(h);
                        (false, None)
                    } else {
                        *held = Some(e);
                        (false, Some(h))
                    }
                },
            }
        },
        CollapseInput::Flush(e) => {
            let current = held.take();
            match current {
                Some(h) => {
                    if h.start_time as u128 + h.duration as u128 <= e.start_time as u128
                        + e.duration as u128 {
                        (true, Some(h))
                    } else {
                        *held = Some(h);
                        (false, None)
                    }
                },
                None => (false, None),
            }
        },
    }
}

} // verus!
