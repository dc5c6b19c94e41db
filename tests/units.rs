use ddshow::addr::{granulate, is_ancestor, same_addr, PROGRAM_NS_GRANULARITY};
use ddshow::events::{ChannelsEvent, DifferentialEvent, Endpoint, OperatesEvent, StartStop, TimelyEvent};
use ddshow::extract::{ActivationRecord, ChannelRecord, Lifespan, LifespanRecord, OperatorRecord, TimelyExtractor, TimelyOutputs};
use ddshow::fuel::Fuel;
use ddshow::progress::{aggregate_channel_messages, ProgressEvent};
use ddshow::reader::EventReader;
use ddshow::replay::{Event, EventIterator, PullOutcome, ReplayDriver, SourceError};
use ddshow::slots::SlotTable;
use ddshow::sources::{is_replay_file, make_streams, wait_step, ReplaySource, WaitDecision};
use ddshow::stats::{arrangement_size, dataflow_stats, operator_stats, ActivationDuration, ArrangementSize, program_stats, summarize, worker_stats, WorkerStats};
use ddshow::subgraphs::{attach_operators, rewire_channels, sift_leaves_and_scopes, Channel, ChannelKind, Edge};
use ddshow::timeline::{
    fold_timeline_events, CollapseInput, EventKind, EventProcessor, PartialTimelineEvent, SpanRecord,
    TimelineEvent, WorkerTimelineEvent,
};

fn op(worker: usize, id: usize, addr: Vec<usize>, name: &str) -> OperatorRecord {
    OperatorRecord {
        worker,
        operator: OperatesEvent { id, addr, name: name.to_string() },
        created: 0,
        time: 0,
    }
}

fn chan(id: usize, scope: Vec<usize>, s: (usize, usize), t: (usize, usize)) -> ChannelsEvent {
    ChannelsEvent {
        id,
        scope_addr: scope,
        source: Endpoint { operator: s.0, port: s.1 },
        target: Endpoint { operator: t.0, port: t.1 },
    }
}

#[test]
fn granulate_rounds_up_to_milliseconds() {
    assert_eq!(granulate(0), 0);
    assert_eq!(granulate(1), PROGRAM_NS_GRANULARITY);
    assert_eq!(granulate(1_000_000), 1_000_000);
    assert_eq!(granulate(1_000_001), 2_000_000);
    assert_eq!(granulate(u64::MAX), u64::MAX);
}

#[test]
fn ancestors_are_strict_prefixes() {
    assert!(is_ancestor(&vec![0], &vec![0, 1]));
    assert!(is_ancestor(&vec![0, 1], &vec![0, 1, 4]));
    assert!(!is_ancestor(&vec![0, 1], &vec![0, 1]));
    assert!(!is_ancestor(&vec![0, 2], &vec![0, 1, 2]));
    assert!(same_addr(&vec![3, 4], &vec![3, 4]));
    assert!(!same_addr(&vec![3], &vec![3, 4]));
}

#[test]
fn nested_applications_with_the_same_id_pair_innermost_first() {
    let mut p = EventProcessor::new();
    p.process_timely_event(0, 10, &TimelyEvent::Application { id: 3, is_start: true });
    p.process_timely_event(0, 20, &TimelyEvent::Application { id: 3, is_start: true });
    let inner = p.process_timely_event(0, 25, &TimelyEvent::Application { id: 3, is_start: false });
    let outer = p.process_timely_event(0, 40, &TimelyEvent::Application { id: 3, is_start: false });
    assert_eq!(inner.len(), 1);
    assert_eq!((inner[0].start, inner[0].duration), (20, 5));
    assert_eq!(outer.len(), 1);
    assert_eq!((outer[0].start, outer[0].duration), (10, 30));
    assert_eq!(outer[0].event, PartialTimelineEvent::Application);
    assert!(p.open_spans.is_empty());
}

#[test]
fn spans_pair_per_worker_and_kind() {
    let mut p = EventProcessor::new();
    p.process_timely_event(0, 1, &TimelyEvent::Park { timeout: None });
    p.process_timely_event(1, 2, &TimelyEvent::GuardedMessage { is_start: true });
    p.process_timely_event(0, 3, &TimelyEvent::Input { start_stop: StartStop::Start });
    let unpark = p.process_timely_event(0, 9, &TimelyEvent::Unpark);
    assert_eq!(unpark.len(), 1);
    assert_eq!(unpark[0].event, PartialTimelineEvent::Parked);
    assert_eq!(unpark[0].duration, 8);
    let wrong_worker = p.process_timely_event(0, 10, &TimelyEvent::GuardedMessage { is_start: false });
    assert!(wrong_worker.is_empty());
    let message = p.process_timely_event(1, 12, &TimelyEvent::GuardedMessage { is_start: false });
    assert_eq!(message[0].event, PartialTimelineEvent::Message);
    assert_eq!(message[0].duration, 10);
    let input = p.process_timely_event(0, 13, &TimelyEvent::Input { start_stop: StartStop::Stop });
    assert_eq!(input[0].event, PartialTimelineEvent::Input);
    assert!(p.open_spans.is_empty());
}

#[test]
fn stop_before_start_time_has_zero_duration() {
    let mut p = EventProcessor::new();
    p.process_timely_event(0, 50, &TimelyEvent::GuardedProgress { is_start: true });
    let r = p.process_timely_event(0, 40, &TimelyEvent::GuardedProgress { is_start: false });
    assert_eq!(r[0].duration, 0);
    assert_eq!(r[0].event, PartialTimelineEvent::Progress);
}

#[test]
fn merges_restart_and_close() {
    let mut p = EventProcessor::new();
    p.process_differential_event(0, 10, &DifferentialEvent::Merge { operator: 2, complete: None });
    p.process_differential_event(0, 20, &DifferentialEvent::Merge { operator: 2, complete: None });
    assert_eq!(p.open_spans.len(), 1);
    let done = p.process_differential_event(0, 35, &DifferentialEvent::Merge { operator: 2, complete: Some(4) });
    assert_eq!(done.len(), 1);
    assert_eq!(done[0].duration, 15);
    p.process_differential_event(0, 40, &DifferentialEvent::Merge { operator: 2, complete: None });
    let short = p.process_differential_event(0, 41, &DifferentialEvent::MergeShortfall { operator: 2 });
    assert_eq!(short[0].duration, 1);
    p.process_differential_event(0, 50, &DifferentialEvent::Merge { operator: 2, complete: None });
    let dropped = p.process_differential_event(0, 57, &DifferentialEvent::Drop { operator: 2 });
    assert_eq!(dropped[0].duration, 7);
    assert!(p.process_differential_event(0, 60, &DifferentialEvent::Drop { operator: 2 }).is_empty());
    assert!(p.process_differential_event(0, 60, &DifferentialEvent::Batch).is_empty());
}

#[test]
fn event_kinds_map_to_partial_events() {
    assert_eq!(EventKind::Park.partial(), PartialTimelineEvent::Parked);
    assert_eq!(
        EventKind::Merge { operator_id: 3 }.partial(),
        PartialTimelineEvent::Merge { operator_id: 3 }
    );
    assert_eq!(PartialTimelineEvent::Merge { operator_id: 3 }.operator_id(), Some(3));
    assert_eq!(
        PartialTimelineEvent::OperatorActivation { operator_id: 6 }.operator_id(),
        Some(6)
    );
    assert_eq!(PartialTimelineEvent::Parked.operator_id(), None);
}

#[test]
fn partial_events_become_unnamed_timeline_events() {
    assert_eq!(
        PartialTimelineEvent::Merge { operator_id: 2 }.to_timeline_event(),
        TimelineEvent::Merge { operator_id: 2, operator_name: String::new() }
    );
    assert_eq!(PartialTimelineEvent::Input.to_timeline_event(), TimelineEvent::Input);
}

#[test]
fn operator_names_can_be_set() {
    let mut e = TimelineEvent::Merge { operator_id: 1, operator_name: String::new() };
    *e.operator_name_mut().unwrap() = "join".to_string();
    assert_eq!(e, TimelineEvent::Merge { operator_id: 1, operator_name: "join".to_string() });
    let mut m = TimelineEvent::Message;
    assert!(m.operator_name_mut().is_none());
}

#[test]
fn slot_table_keeps_one_entry_per_key() {
    let mut t = SlotTable::new();
    t.insert(0, 1, 5);
    t.insert(0, 1, 7);
    t.insert(1, 1, 9);
    assert_eq!(t.take(0, 1), Some(7));
    assert_eq!(t.take(0, 1), None);
    assert_eq!(t.take(1, 1), Some(9));
}

#[test]
fn lifespan_never_ends_before_it_starts() {
    let mut x = TimelyExtractor::new(false);
    let mut out = TimelyOutputs::new();
    x.process(0, 300, TimelyEvent::Operates(OperatesEvent { id: 1, addr: vec![0], name: "a".to_string() }), &mut out);
    x.process(0, 200, TimelyEvent::Shutdown { id: 1 }, &mut out);
    assert_eq!(out.lifespans[0].lifespan, Lifespan { start: 300, end: 300 });
    assert_eq!(out.dataflows.len(), 1);
    assert!(out.timeline.is_empty());
}

#[test]
fn extractor_records_channels_and_granulates() {
    let mut x = TimelyExtractor::new(true);
    let mut out = TimelyOutputs::new();
    x.process(2, 1_500_000, TimelyEvent::Channels(chan(4, vec![0], (1, 1), (2, 1))), &mut out);
    x.process(2, 1_600_000, TimelyEvent::Operates(OperatesEvent { id: 5, addr: vec![0, 3], name: "b".to_string() }), &mut out);
    assert_eq!(out.channels.len(), 1);
    assert_eq!(out.channels[0].created, 1_500_000);
    assert_eq!(out.channels[0].time, 2_000_000);
    assert_eq!(out.operators[0].time, 2_000_000);
    assert!(out.dataflows.is_empty());
}

#[test]
fn shutdown_drops_a_running_activation() {
    let mut x = TimelyExtractor::new(true);
    let mut out = TimelyOutputs::new();
    x.process(0, 1, TimelyEvent::Schedule { id: 2, start_stop: StartStop::Start }, &mut out);
    x.process(0, 2, TimelyEvent::Shutdown { id: 2 }, &mut out);
    x.process(0, 3, TimelyEvent::Schedule { id: 2, start_stop: StartStop::Stop }, &mut out);
    assert!(out.activations.is_empty());
    assert_eq!(out.timeline.len(), 1);
    assert_eq!(out.timeline[0].duration, 1);
}

#[test]
fn batches_are_processed_while_fuel_lasts() {
    let mut queue = std::collections::VecDeque::new();
    queue.push_back((0usize, 10u64, TimelyEvent::Operates(OperatesEvent { id: 1, addr: vec![0], name: "d".to_string() })));
    queue.push_back((0, 20, TimelyEvent::Schedule { id: 1, start_stop: StartStop::Start }));
    queue.push_back((0, 30, TimelyEvent::Schedule { id: 1, start_stop: StartStop::Stop }));
    let mut x = TimelyExtractor::new(false);
    let mut out = TimelyOutputs::new();
    let mut fuel = Fuel::limited(2);
    assert_eq!(x.process_batch(&mut queue, &mut fuel, &mut out), 2);
    assert_eq!(queue.len(), 1);
    assert!(fuel.is_exhausted());
    assert_eq!(out.operators.len(), 1);
    assert!(out.activations.is_empty());
    fuel.reset();
    assert_eq!(x.process_batch(&mut queue, &mut fuel, &mut out), 1);
    assert!(queue.is_empty());
    assert_eq!((out.activations[0].start, out.activations[0].duration), (20, 10));
}

#[test]
fn rerun_is_identical() {
    let events = || {
        vec![
            (0usize, 10u64, TimelyEvent::Operates(OperatesEvent { id: 1, addr: vec![0], name: "d".to_string() })),
            (0, 20, TimelyEvent::Schedule { id: 1, start_stop: StartStop::Start }),
            (0, 30, TimelyEvent::Schedule { id: 1, start_stop: StartStop::Stop }),
            (0, 40, TimelyEvent::Shutdown { id: 1 }),
        ]
    };
    let replay = || {
        let mut x = TimelyExtractor::new(true);
        let mut out = TimelyOutputs::new();
        for (w, t, e) in events() {
            x.process(w, t, e, &mut out);
        }
        out
    };
    let (a, b) = (replay(), replay());
    assert_eq!(a.lifespans, b.lifespans);
    assert_eq!(a.activations, b.activations);
    assert_eq!(a.timeline, b.timeline);
    assert_eq!(a.dataflows, b.dataflows);
}

#[test]
fn every_raw_channel_is_classified_once() {
    let channels = vec![
        chan(1, vec![0], (1, 1), (2, 1)),
        chan(2, vec![0], (1, 0), (2, 1)),
        chan(3, vec![0], (1, 1), (2, 0)),
        chan(4, vec![0], (3, 1), (2, 1)),
    ];
    let subgraphs = vec![vec![0, 3]];
    let rewired = rewire_channels(&channels, &subgraphs);
    let kinds: Vec<ChannelKind> = rewired.iter().map(|c| c.kind()).collect();
    assert_eq!(
        kinds,
        vec![ChannelKind::Normal, ChannelKind::ScopeIngress, ChannelKind::ScopeEgress, ChannelKind::ScopeEgress]
    );
    assert_eq!(rewired[0].channel_id(), 1);
    assert_eq!(*rewired[0].source_addr(), vec![0, 1]);
    assert_eq!(*rewired[0].target_addr(), vec![0, 2]);
}

#[test]
fn leaves_and_scopes_are_sifted() {
    let ops = vec![op(0, 1, vec![0], "df"), op(0, 2, vec![0, 1], "region"), op(0, 3, vec![0, 1, 2], "map"), op(1, 4, vec![0, 5], "other")];
    let (leaves, scopes) = sift_leaves_and_scopes(&ops, 0);
    assert_eq!(leaves, vec![vec![0, 1, 2]]);
    assert_eq!(scopes, vec![vec![0], vec![0, 1]]);
}

#[test]
fn operators_are_attached_to_edges() {
    let ops = vec![op(0, 1, vec![0, 1], "a"), op(0, 2, vec![0, 2], "b"), op(0, 3, vec![0, 3], "c")];
    let channels = vec![
        Channel::Normal { channel_id: 7, source_addr: vec![0, 1], target_addr: vec![0, 2] },
        Channel::Normal { channel_id: 8, source_addr: vec![0, 2], target_addr: vec![0, 9] },
        Channel::Normal { channel_id: 9, source_addr: vec![0, 3], target_addr: vec![0, 1] },
    ];
    let leaves = vec![vec![0, 1], vec![0, 2]];
    let edges = attach_operators(0, &ops, &channels, &leaves);
    assert_eq!(edges, vec![Edge { source: 0, channel: 0, target: 1 }]);
}

#[test]
fn operator_stats_hold_every_activation() {
    let act = |worker: usize, operator: usize, start: u64, duration: u64| ActivationRecord { worker, operator, start, duration, time: 0 };
    let acts = vec![act(0, 1, 5, 4), act(0, 2, 6, 100), act(0, 1, 20, 8), act(1, 1, 30, 1)];
    let stats = operator_stats(0, 1, &acts, &Vec::new()).unwrap();
    assert_eq!(stats.activation_durations.len(), 2);
    assert_eq!(stats.summary.activations, 2);
    assert_eq!(stats.summary.total, 12);
    assert_eq!((stats.summary.min, stats.summary.max, stats.summary.average), (4, 8, 6));
    assert!(operator_stats(3, 1, &acts, &Vec::new()).is_none());
    assert!(stats.arrangement_size.is_none());
    let s = summarize(&vec![7, 1, 4]);
    assert_eq!((s.activations, s.min, s.max, s.total, s.average), (3, 1, 7, 12, 4));
    let big = summarize(&vec![u64::MAX, u64::MAX]);
    assert_eq!(big.total, 2 * (u64::MAX as u128));
    assert_eq!(big.average, u64::MAX);
}

#[test]
fn dataflow_stats_count_what_lies_underneath() {
    let ops = vec![
        op(0, 1, vec![0], "df"),
        op(0, 2, vec![0, 1], "region"),
        op(0, 3, vec![0, 1, 1], "map"),
        op(0, 4, vec![0, 2], "sink"),
        op(0, 5, vec![1], "other"),
        op(1, 6, vec![0, 7], "elsewhere"),
    ];
    let chs = vec![
        ChannelRecord { worker: 0, channel: chan(1, vec![0], (1, 1), (2, 1)), created: 0, time: 0 },
        ChannelRecord { worker: 0, channel: chan(2, vec![0, 1], (0, 1), (1, 1)), created: 0, time: 0 },
        ChannelRecord { worker: 1, channel: chan(3, vec![0, 7], (1, 1), (2, 1)), created: 0, time: 0 },
    ];
    let lifes = vec![LifespanRecord { worker: 0, operator: 1, lifespan: Lifespan { start: 1, end: 9 }, time: 0 }];
    let stats = dataflow_stats(&ops, &chs, &lifes);
    assert_eq!(stats.len(), 1);
    assert_eq!(stats[0].id, 1);
    assert_eq!(stats[0].addr, vec![0]);
    assert_eq!(stats[0].operators, 3);
    assert_eq!(stats[0].subgraphs, 1);
    assert_eq!(stats[0].channels, 1);
    assert_eq!(stats[0].lifespan, Lifespan { start: 1, end: 9 });
}

#[test]
fn worker_and_program_counts_grow_with_the_log() {
    let ops = vec![op(0, 1, vec![0], "df"), op(0, 2, vec![0, 1], "map"), op(1, 3, vec![0], "df")];
    let chs = vec![ChannelRecord { worker: 0, channel: chan(1, vec![0], (1, 1), (2, 1)), created: 0, time: 0 }];
    let early = worker_stats(0, &ops[..1].to_vec(), &Vec::new(), &vec![5]);
    let late = worker_stats(0, &ops, &chs, &vec![5, 9, 30]);
    assert_eq!((early.dataflows, early.operators, early.subgraphs, early.channels), (1, 1, 0, 0));
    assert_eq!((late.dataflows, late.operators, late.subgraphs, late.channels), (1, 2, 1, 1));
    assert_eq!((late.events, late.runtime), (3, 25));
    let other = worker_stats(1, &ops, &chs, &Vec::new());
    let program = program_stats(&vec![late, other]);
    assert_eq!(program.workers, 2);
    assert_eq!((program.dataflows, program.operators, program.subgraphs, program.channels, program.events), (2, 3, 1, 1, 3));
    assert_eq!(program.runtime, 25);
    let max = WorkerStats { dataflows: usize::MAX, operators: usize::MAX, subgraphs: 0, channels: 0, events: 0, runtime: 1 };
    assert_eq!(program_stats(&vec![max, max]).operators, 2 * (usize::MAX as u128));
}

#[test]
fn progress_is_summed_per_channel() {
    let p = |addr: Vec<usize>, channel: usize, sent: u64, received: u64| ProgressEvent { addr, channel, sent, received };
    let events = vec![p(vec![0, 1], 3, 5, 1), p(vec![0, 2], 3, 2, 2), p(vec![0, 1], 3, u64::MAX, 4), p(vec![0, 1], 4, 1, 1)];
    let totals = aggregate_channel_messages(&events);
    assert_eq!(totals.len(), 3);
    assert_eq!((totals[0].addr.clone(), totals[0].channel), (vec![0, 1], 3));
    assert_eq!(totals[0].sent, 5 + u64::MAX as u128);
    assert_eq!(totals[0].received, 5);
    assert_eq!((totals[1].sent, totals[2].sent), (2, 1));
}

#[test]
fn fuel_tracks_its_budget() {
    let mut f = Fuel::limited(10);
    assert!(!f.is_exhausted());
    f.exert(4);
    assert_eq!(f.used(), Some(4));
    assert_eq!(f.remaining(), Some(6));
    f.exert(usize::MAX);
    assert!(f.is_exhausted());
    assert_eq!(f.remaining(), Some(0));
    f.reset();
    assert_eq!(f.used(), Some(0));
    let mut u = Fuel::unlimited();
    u.exert(1_000);
    assert!(!u.is_exhausted());
    assert_eq!(u.used(), None);
    assert_eq!(u.remaining(), None);
}

#[test]
fn reader_keeps_partial_frames_and_reports_the_end_late() {
    let mut r = EventReader::new(());
    let mut finished = false;
    assert!(r.begin_poll(&mut finished));
    r.receive(&[1, 2, 3, 4, 5]);
    assert_eq!(r.pending(), &[1, 2, 3, 4, 5]);
    r.consume(2);
    assert_eq!(r.pending(), &[3, 4, 5]);
    r.compact();
    assert_eq!(r.pending(), &[3, 4, 5]);
    r.receive(&[6]);
    assert_eq!(r.pending(), &[3, 4, 5, 6]);
    r.receive(&[]);
    assert!(!r.begin_poll(&mut finished));
    assert!(!finished);
    assert!(r.begin_poll(&mut finished));
    assert!(finished);
    let _ = r.reader_mut();
}

struct Scripted {
    events: Vec<Result<Option<Event<u64, u8>>, SourceError>>,
}

impl EventIterator<u64, u8> for Scripted {
    fn next(&mut self, is_finished: &mut bool) -> Result<Option<Event<u64, u8>>, SourceError> {
        if self.events.is_empty() {
            *is_finished = true;
            Ok(None)
        } else {
            self.events.remove(0)
        }
    }
}

#[test]
fn replay_driver_splits_capabilities_and_drains_sources() {
    let mut streams = vec![
        Scripted { events: vec![Ok(Some(Event::Messages(1, vec![1, 2]))), Ok(None), Ok(Some(Event::Progress(vec![(1, -1)])))] },
        Scripted { events: vec![Ok(Some(Event::Progress(vec![(0, 1)])))] },
    ];
    let mut driver = ReplayDriver::new(2, Fuel::limited(100), 1000);
    let first = driver.activate(&mut streams, true);
    assert_eq!(first.capability_split, Some(1));
    assert_eq!(first.events.len(), 2);
    assert!(!first.failed);
    assert!(first.reactivate);
    assert!(first.released.is_empty());
    let second = driver.activate(&mut streams, true);
    assert_eq!(second.capability_split, None);
    assert_eq!(second.events.len(), 1);
    assert!(!second.reactivate);
    assert!(driver.is_finished());
    // one capability from the split and one from the second source's
    // progress remain at time 0; time 1 went negative and holds none
    assert_eq!(second.released, vec![(0, -2)]);
    let third = driver.activate(&mut streams, false);
    assert!(third.released.is_empty());
}

#[test]
fn replay_driver_releases_least_times_first_and_rejects_overflow() {
    let mut streams = vec![Scripted {
        events: vec![Ok(Some(Event::Progress(vec![(0, -1), (7, 2), (3, 1)])))],
    }];
    let mut driver = ReplayDriver::new(1, Fuel::unlimited(), 10);
    let r = driver.activate(&mut streams, false);
    assert_eq!(r.capability_split, Some(0));
    assert!(!r.reactivate);
    assert_eq!(r.released, vec![(3, -1), (7, -2)]);

    let mut bad = vec![Scripted {
        events: vec![Ok(Some(Event::Progress(vec![(4, 1), (5, i64::MAX), (5, 1), (6, 1)])))],
    }];
    let mut driver = ReplayDriver::new(1, Fuel::unlimited(), 10);
    let r = driver.activate(&mut bad, true);
    assert!(r.failed);
    assert!(!r.reactivate);
    match &r.events[0] {
        Event::Progress(applied) => assert_eq!(*applied, vec![(4, 1), (5, i64::MAX)]),
        other => panic!("unexpected {:?}", other),
    }
    assert_eq!(r.released, vec![(4, -1), (5, -i64::MAX)]);
}

#[test]
fn replay_driver_stops_on_failure_fuel_and_shutdown() {
    let mut failing = vec![Scripted { events: vec![Err(SourceError)] }];
    let mut driver = ReplayDriver::new(1, Fuel::unlimited(), 10);
    let r = driver.activate(&mut failing, true);
    assert!(r.failed);
    assert!(!r.reactivate);

    let mut busy = vec![Scripted { events: (0..5).map(|_| Ok(Some(Event::Messages(0, vec![0; 3])))).collect() }];
    let mut driver = ReplayDriver::new(1, Fuel::limited(5), 10);
    let r = driver.activate(&mut busy, true);
    assert_eq!(r.events.len(), 2);
    assert!(r.reactivate);

    let mut idle = vec![Scripted { events: vec![Ok(None), Ok(None)] }];
    let mut driver = ReplayDriver::new(1, Fuel::unlimited(), 10);
    let r = driver.activate(&mut idle, false);
    assert!(r.events.is_empty());
    assert!(!r.reactivate);

    let mut endless = vec![Scripted { events: (0..50).map(|_| Ok(Some(Event::Messages(0, Vec::new())))).collect() }];
    let mut driver = ReplayDriver::new(1, Fuel::unlimited(), 7);
    assert_eq!(driver.activate(&mut endless, true).events.len(), 7);
}

#[test]
fn sources_are_shared_round_robin() {
    let sources: ReplaySource<u8, u16> = ReplaySource::Rkyv(vec![10, 11, 12, 13, 14]);
    assert_eq!(sources.len(), 5);
    assert!(!sources.is_empty());
    assert_eq!(sources.kind(), "Rkyv");
    assert!(!sources.is_abomonation());
    let per_worker = make_streams(2, sources);
    assert_eq!(per_worker.len(), 2);
    match (&per_worker[0], &per_worker[1]) {
        (ReplaySource::Rkyv(a), ReplaySource::Rkyv(b)) => {
            assert_eq!(*a, vec![10, 12, 14]);
            assert_eq!(*b, vec![11, 13]);
        }
        _ => panic!("encoding changed"),
    }
    let legacy: ReplaySource<u8, u16> = ReplaySource::Abomonation(vec![7]);
    assert_eq!(legacy.kind(), "Abomonation");
    assert!(legacy.is_abomonation());
    let per_worker = make_streams(3, legacy);
    assert!(per_worker.iter().all(|s| s.is_abomonation()));
    assert_eq!(per_worker.iter().map(|s| s.len()).collect::<Vec<_>>(), vec![1, 0, 0]);
    assert!(per_worker[1].is_empty());
}

#[test]
fn replay_files_are_chosen_by_prefix_and_extension() {
    assert!(is_replay_file(b"timely.ddshow", b"timely", true));
    assert!(is_replay_file(b"timely.0.ddshow", b"timely", true));
    assert!(!is_replay_file(b"timely.ddshow", b"timely", false));
    assert!(!is_replay_file(b"timely.log", b"timely", true));
    assert!(!is_replay_file(b"differential.ddshow", b"timely", true));
    assert!(!is_replay_file(b"timelyx.ddshow", b"timely", true));
    assert!(!is_replay_file(b".ddshow", b"", true));
    assert!(is_replay_file(b"progress.ddshow", b"progress", true));
}

#[test]
fn wait_ends_on_finish_shutdown_or_request() {
    assert_eq!(wait_step(4, 4, true, true), WaitDecision::AllFinished);
    assert_eq!(wait_step(3, 4, false, true), WaitDecision::Stopped);
    assert_eq!(wait_step(3, 4, true, true), WaitDecision::UserRequest);
    assert_eq!(wait_step(3, 4, true, false), WaitDecision::Extract);
}

fn entry(start: u64, duration: u64) -> WorkerTimelineEvent {
    WorkerTimelineEvent {
        event_id: 0,
        worker: 0,
        event: TimelineEvent::Parked,
        start_time: start,
        duration,
        collapsed_events: 1,
    }
}

#[test]
fn timeline_entries_collapse_and_flush() {
    let mut held = None;
    assert_eq!(fold_timeline_events(&mut held, CollapseInput::Event(entry(1_000_000, 100))), (false, None));
    assert_eq!(fold_timeline_events(&mut held, CollapseInput::Event(entry(1_200_000, 50))), (false, None));
    let h = held.clone().unwrap();
    assert_eq!((h.start_time, h.duration, h.collapsed_events), (1_000_000, 150, 2));
    let (flushed, emitted) = fold_timeline_events(&mut held, CollapseInput::Event(entry(9_000_000, 5)));
    assert!(!flushed);
    assert_eq!(emitted.unwrap().duration, 150);
    assert_eq!(fold_timeline_events(&mut held, CollapseInput::Flush(entry(9_000_000, 1))), (false, None));
    let (flushed, emitted) = fold_timeline_events(&mut held, CollapseInput::Flush(entry(9_000_000, 5)));
    assert!(flushed);
    assert_eq!(emitted.unwrap().start_time, 9_000_000);
    assert!(held.is_none());
}

#[test]
fn ingress_reaches_the_deepest_operator() {
    let channels = vec![
        chan(1, vec![0], (1, 1), (2, 1)),
        chan(2, vec![0, 2], (0, 1), (3, 1)),
        chan(3, vec![0, 2], (0, 1), (4, 1)),
        chan(4, vec![0, 2, 4], (0, 1), (5, 1)),
    ];
    let rewired = rewire_channels(&channels, &vec![vec![0, 2], vec![0, 2, 4]]);
    match &rewired[0] {
        Channel::ScopeIngress { channel_id, source_addr, target_addr } => {
            assert_eq!(*channel_id, 1);
            assert_eq!(*source_addr, vec![0, 1]);
            assert_eq!(*target_addr, vec![0, 2, 4, 5]);
        }
        other => panic!("unexpected {:?}", other),
    }
}

#[test]
fn egress_comes_from_the_deepest_operator() {
    let channels = vec![
        chan(1, vec![0], (2, 1), (8, 1)),
        chan(2, vec![0, 2], (5, 1), (0, 1)),
        chan(3, vec![0, 2], (6, 1), (0, 1)),
        chan(4, vec![0, 2, 6], (7, 1), (0, 1)),
    ];
    let rewired = rewire_channels(&channels, &vec![vec![0, 2], vec![0, 2, 6]]);
    match &rewired[0] {
        Channel::ScopeEgress { channel_id, source_addr, target_addr } => {
            assert_eq!(*channel_id, 4);
            assert_eq!(*source_addr, vec![0, 2, 6, 7]);
            assert_eq!(*target_addr, vec![0, 8]);
        }
        other => panic!("unexpected {:?}", other),
    }
}

#[test]
fn each_pulled_result_is_handled_by_its_kind() {
    let mut driver = ReplayDriver::new(0, Fuel::limited(4), 10);
    let mut none: Vec<Scripted> = Vec::new();
    driver.activate(&mut none, true);
    driver.fuel.reset();
    let mut events: Vec<Event<u64, u8>> = Vec::new();
    assert_eq!(driver.pull_step(Ok(None), true, &mut events), PullOutcome::NextStream);
    assert_eq!(driver.pull_step(Ok(None), false, &mut events), PullOutcome::Stop);
    assert_eq!(driver.pull_step(Err(SourceError), true, &mut events), PullOutcome::Fail);
    assert!(events.is_empty());
    assert_eq!(driver.pull_step(Ok(Some(Event::Messages(3, vec![1, 2]))), true, &mut events), PullOutcome::Continue);
    assert_eq!(driver.fuel.spent, 2);
    assert_eq!(
        driver.pull_step(Ok(Some(Event::Progress(vec![(9, 1), (9, i64::MAX), (2, 1)]))), true, &mut events),
        PullOutcome::Fail
    );
    assert_eq!(driver.fuel.spent, 3);
    match &events[1] {
        Event::Progress(applied) => assert_eq!(*applied, vec![(9, 1)]),
        other => panic!("unexpected {:?}", other),
    }
    assert_eq!(driver.pull_step(Ok(Some(Event::Messages(4, vec![5]))), true, &mut events), PullOutcome::Stop);
    assert_eq!(events.len(), 3);
}

#[test]
fn shutdown_releases_each_capability_exactly_once() {
    let mut streams = vec![Scripted {
        events: vec![Ok(Some(Event::Progress(vec![(5, 3), (6, -2), (5, -1)]))), Ok(Some(Event::Messages(5, vec![7])))],
    }];
    let mut driver = ReplayDriver::new(1, Fuel::unlimited(), 10);
    let r = driver.activate(&mut streams, true);
    assert!(!r.failed);
    assert_eq!(r.events.len(), 2);
    assert!(!r.reactivate);
    assert_eq!(r.released, vec![(5, -2)]);
}

#[test]
fn arrangement_size_counts_merges_per_activation() {
    let merge = |operator_id: usize, start: u64| SpanRecord {
        worker: 0,
        event: PartialTimelineEvent::Merge { operator_id },
        start,
        duration: 1,
        time: start + 1,
    };
    let merges = vec![merge(1, 12), merge(1, 15), merge(2, 16), merge(1, 31), merge(1, 90)];
    let acts = vec![
        ActivationDuration { start: 10, duration: 10 },
        ActivationDuration { start: 30, duration: 5 },
        ActivationDuration { start: 50, duration: 5 },
    ];
    assert_eq!(
        arrangement_size(0, 1, &acts, &merges),
        Some(ArrangementSize { min_size: 0, max_size: 2 })
    );
    assert_eq!(arrangement_size(0, 3, &acts, &merges), None);
    assert_eq!(arrangement_size(0, 1, &Vec::new(), &merges), None);
    let records = vec![ActivationRecord { worker: 0, operator: 1, start: 10, duration: 10, time: 0 }];
    let stats = operator_stats(0, 1, &records, &merges).unwrap();
    assert_eq!(stats.arrangement_size, Some(ArrangementSize { min_size: 2, max_size: 2 }));
}
