use ddshow::events::{ChannelsEvent, DifferentialEvent, Endpoint, OperatesEvent, StartStop, TimelyEvent};
use ddshow::extract::{Lifespan, TimelyExtractor, TimelyOutputs};
use ddshow::extract::ActivationRecord;
use ddshow::stats::{aggregate_operator_stats, dataflow_stats, program_stats};
use ddshow::subgraphs::{rewire_channels, Channel};
use ddshow::timeline::{worker_timeline, EventProcessor, PartialTimelineEvent, TimelineEvent};

fn operates(id: usize, addr: Vec<usize>, name: &str) -> TimelyEvent {
    TimelyEvent::Operates(OperatesEvent { id, addr, name: name.to_string() })
}

fn schedule(id: usize, start_stop: StartStop) -> TimelyEvent {
    TimelyEvent::Schedule { id, start_stop }
}

fn run(extractor: &mut TimelyExtractor, out: &mut TimelyOutputs, events: Vec<(usize, u64, TimelyEvent)>) {
    for (worker, time, event) in events {
        extractor.process(worker, time, event, out);
    }
}

#[test]
fn empty_input_gives_empty_outputs() {
    let mut extractor = TimelyExtractor::new(true);
    let mut out = TimelyOutputs::new();
    run(&mut extractor, &mut out, Vec::new());
    assert!(out.lifespans.is_empty());
    assert!(out.activations.is_empty());
    assert!(out.operators.is_empty());
    assert!(out.channels.is_empty());
    assert!(out.dataflows.is_empty());
    assert!(out.timeline.is_empty());
    assert!(rewire_channels(&Vec::new(), &Vec::new()).is_empty());
    assert!(dataflow_stats(&out.operators, &out.channels, &out.lifespans).is_empty());
    let program = program_stats(&Vec::new());
    assert_eq!(program.workers, 0);
    assert_eq!(program.operators, 0);
    assert_eq!(program.runtime, 0);
}

#[test]
fn single_operator_without_schedules() {
    let mut extractor = TimelyExtractor::new(true);
    let mut out = TimelyOutputs::new();
    run(
        &mut extractor,
        &mut out,
        vec![(0, 100, operates(4, vec![0], "input")), (0, 900, TimelyEvent::Shutdown { id: 4 })],
    );
    assert_eq!(out.lifespans.len(), 1);
    assert_eq!(out.lifespans[0].lifespan, Lifespan { start: 100, end: 900 });
    assert!(out.activations.is_empty());
    assert!(out.timeline.is_empty());
}

#[test]
fn deeply_nested_ingress_and_egress() {
    // [0,1] feeds subgraph [0,2]; inside it [0,2,0] feeds subgraph [0,2,3];
    // inside that [0,2,3,0] feeds the leaf [0,2,3,4], whose output leaves
    // both subgraphs again to reach [0,5].
    let chan = |id: usize, scope: Vec<usize>, s: (usize, usize), t: (usize, usize)| ChannelsEvent {
        id,
        scope_addr: scope,
        source: Endpoint { operator: s.0, port: s.1 },
        target: Endpoint { operator: t.0, port: t.1 },
    };
    let channels = vec![
        chan(1, vec![0], (1, 1), (2, 1)),
        chan(2, vec![0, 2], (0, 1), (3, 1)),
        chan(3, vec![0, 2, 3], (0, 1), (4, 1)),
        chan(4, vec![0, 2, 3], (4, 1), (0, 1)),
        chan(5, vec![0, 2], (3, 1), (0, 1)),
        chan(6, vec![0], (2, 1), (5, 1)),
    ];
    let subgraphs = vec![vec![0, 2], vec![0, 2, 3]];
    let rewired = rewire_channels(&channels, &subgraphs);
    assert_eq!(rewired.len(), channels.len());
    match &rewired[0] {
        Channel::ScopeIngress { channel_id, source_addr, target_addr } => {
            assert_eq!(*channel_id, 1);
            assert_eq!(*source_addr, vec![0, 1]);
            assert_eq!(*target_addr, vec![0, 2, 3, 4]);
        }
        other => panic!("unexpected {:?}", other),
    }
    match &rewired[5] {
        Channel::ScopeEgress { channel_id, source_addr, target_addr } => {
            assert_eq!(*channel_id, 4);
            assert_eq!(*source_addr, vec![0, 2, 3, 4]);
            assert_eq!(*target_addr, vec![0, 5]);
        }
        other => panic!("unexpected {:?}", other),
    }
}

#[test]
fn mid_stream_shutdown_releases_open_spans() {
    let mut processor = EventProcessor::new();
    processor.process_timely_event(0, 10, &schedule(8, StartStop::Start));
    processor.process_differential_event(0, 20, &DifferentialEvent::Merge { operator: 8, complete: None });
    processor.process_timely_event(0, 25, &TimelyEvent::Application { id: 1, is_start: true });
    let released = processor.process_timely_event(0, 40, &TimelyEvent::Shutdown { id: 8 });
    assert_eq!(released.len(), 2);
    assert_eq!(released[0].event, PartialTimelineEvent::OperatorActivation { operator_id: 8 });
    assert_eq!(released[0].duration, 30);
    assert_eq!(released[1].event, PartialTimelineEvent::Merge { operator_id: 8 });
    assert_eq!(released[1].duration, 20);
    assert_eq!(processor.open_spans.len(), 1);
}

#[test]
fn single_activation() {
    let mut extractor = TimelyExtractor::new(true);
    let mut out = TimelyOutputs::new();
    run(
        &mut extractor,
        &mut out,
        vec![
            (0, 100, operates(7, vec![0, 1], "map")),
            (0, 200, schedule(7, StartStop::Start)),
            (0, 350, schedule(7, StartStop::Stop)),
            (0, 500, TimelyEvent::Shutdown { id: 7 }),
        ],
    );
    assert_eq!(out.activations.len(), 1);
    assert_eq!((out.activations[0].worker, out.activations[0].operator), (0, 7));
    assert_eq!((out.activations[0].start, out.activations[0].duration), (200, 150));
    assert_eq!(out.lifespans.len(), 1);
    assert_eq!(out.lifespans[0].lifespan, Lifespan { start: 100, end: 500 });
    assert_eq!(out.operators[0].operator.name, "map");
    let timeline = worker_timeline(&out.timeline, &out.operators);
    assert_eq!(timeline.len(), 1);
    assert_eq!(
        timeline[0].event,
        TimelineEvent::OperatorActivation { operator_id: 7, operator_name: "map".to_string() }
    );
    assert_eq!((timeline[0].start_time, timeline[0].duration), (200, 150));
}

#[test]
fn orphan_stop() {
    let mut extractor = TimelyExtractor::new(true);
    let mut out = TimelyOutputs::new();
    run(&mut extractor, &mut out, vec![(0, 10, schedule(3, StartStop::Stop))]);
    assert!(out.activations.is_empty());
    assert!(out.timeline.is_empty());
}

#[test]
fn two_level_channel() {
    let channels = vec![ChannelsEvent {
        id: 9,
        scope_addr: vec![0],
        source: Endpoint { operator: 1, port: 0 },
        target: Endpoint { operator: 2, port: 0 },
    }];
    let rewired = rewire_channels(&channels, &Vec::new());
    assert_eq!(rewired.len(), 1);
    match &rewired[0] {
        Channel::ScopeIngress { channel_id, source_addr, target_addr } => {
            assert_eq!(*channel_id, 9);
            assert_eq!(*source_addr, vec![0, 1]);
            assert_eq!(*target_addr, vec![0, 2]);
        }
        other => panic!("unexpected {:?}", other),
    }
}

#[test]
fn shutdown_during_merge() {
    let mut processor = EventProcessor::new();
    let started = processor.process_differential_event(
        0,
        100,
        &DifferentialEvent::Merge { operator: 5, complete: None },
    );
    assert!(started.is_empty());
    let closed = processor.process_timely_event(0, 150, &TimelyEvent::Shutdown { id: 5 });
    assert_eq!(closed.len(), 1);
    assert_eq!(closed[0].event, PartialTimelineEvent::Merge { operator_id: 5 });
    assert_eq!(closed[0].duration, 50);
    assert_eq!(closed[0].time, 150);
    assert!(processor.open_spans.is_empty());
}

#[test]
fn cross_worker_aggregate() {
    let act = |worker: usize, duration: u64| ActivationRecord {
        worker,
        operator: 11,
        start: 0,
        duration,
        time: 0,
    };
    let acts = vec![act(0, 10), act(0, 20), act(0, 30), act(1, 40), act(1, 50)];
    let stats = aggregate_operator_stats(11, &acts).unwrap();
    assert_eq!(stats.id, 11);
    assert_eq!(stats.summary.activations, 5);
    assert_eq!(stats.summary.total, 150);
    assert_eq!(stats.summary.min, 10);
    assert_eq!(stats.summary.max, 50);
    assert_eq!(stats.summary.average, 30);
}
