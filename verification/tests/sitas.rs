use vannak::index::IngestOutcome;
use vannak::ingest::{EventId, EventTimestamp, PipelineEvent, SourceId, SourceSequence};
use vannak::metadata::{DatasetId, MetadataRef};
use vannak::process::{
    EnvironmentId, EventKind, PipelineId, ProcessDefinitionId, ProcessInstanceId, ProcessStatus, TenantId,
};
use vannak::query::{
    EventQuery, ImpactQuery, PipelineQuery, ProcessInstanceQuery, ProcessStatusQuery, QueryLimit, QueryResult,
    TimeRangeQuery,
};
use vannak::runtime::{LogicalShardId, RuntimeError};
use vannak::shards::{ShardAnswer, ShardQuestion, ShardTask, SitasShardState};
use vannak::sitas_runtime::{
    stop_answer, IngestWorkerSummary, SitasRuntimeConfig, SitasRuntimeError, SitasShardRuntime,
};

fn event(event_id: &str, process_instance: &str, pipeline: &str) -> PipelineEvent {
    event_with_kind(event_id, process_instance, pipeline, EventKind::ProcessStarted)
}

fn event_with_kind(event_id: &str, process_instance: &str, pipeline: &str, kind: EventKind) -> PipelineEvent {
    PipelineEvent::new(
        EventId::from(event_id),
        SourceId::from("durga"),
        SourceSequence(1),
        TenantId::from("tenant-a"),
        EnvironmentId::from("prod"),
        PipelineId::from(pipeline),
        ProcessDefinitionId::from("definition-a"),
        ProcessInstanceId::from(process_instance),
        EventTimestamp::from("2026-06-30T10:00:00Z"),
        kind,
    )
}

#[test]
fn direct_ingest_runs_on_owning_sitas_shard() {
    let runtime = SitasShardRuntime::start(SitasRuntimeConfig::new(2, 4)).unwrap();
    let event = event("event-1", "instance-a", "pipeline-a");
    let expected = runtime.shard_for_process_instance(event.process_instance_id());

    let outcome = runtime.ingest(event).unwrap();

    assert_eq!(outcome.shard_id, expected);
    assert_eq!(outcome.outcome, IngestOutcome::Accepted);
    assert_eq!(runtime.snapshot().unwrap().runtime.totals.event_count, 1);
    runtime.stop().unwrap();
}

#[test]
fn mailbox_submit_applies_backpressure_and_explicit_drain() {
    let runtime = SitasShardRuntime::start(SitasRuntimeConfig::new(1, 1)).unwrap();
    runtime.try_submit(event("event-1", "instance-a", "pipeline-a")).unwrap();

    let full = runtime.try_submit(event("event-2", "instance-a", "pipeline-a")).unwrap_err();
    assert!(matches!(full, SitasRuntimeError::Runtime(RuntimeError::QueueFull { .. })));
    assert_eq!(runtime.snapshot().unwrap().runtime.totals.event_count, 0);

    let summary = runtime.drain_shard(LogicalShardId(0), 10).unwrap();

    assert_eq!(summary.accepted, 1);
    assert_eq!(summary.remaining_depth, 0);
    assert_eq!(runtime.snapshot().unwrap().runtime.totals.event_count, 1);
    runtime.stop().unwrap();
}

#[test]
fn fanout_queries_return_owned_results_from_sitas_shards() {
    let runtime = SitasShardRuntime::start(SitasRuntimeConfig::new(4, 8)).unwrap();
    let dataset = MetadataRef::Dataset(DatasetId::from("dataset-a"));
    runtime
        .ingest(event("event-1", "instance-a", "pipeline-a").with_metadata_refs(vec![dataset.clone()]))
        .unwrap();
    runtime
        .ingest(event_with_kind("event-2", "instance-b", "pipeline-a", EventKind::ProcessFailed))
        .unwrap();

    let QueryResult::ProcessInstances(instances) = runtime
        .pipeline_instances(&PipelineQuery {
            pipeline_id: PipelineId::from("pipeline-a"),
            limit: QueryLimit::new(10),
        })
        .unwrap()
    else {
        panic!("pipeline query should return process instances");
    };
    assert_eq!(instances.len(), 2);

    let QueryResult::ProcessInstances(failed) = runtime
        .process_instances_by_status(&ProcessStatusQuery {
            status: ProcessStatus::Failed,
            limit: QueryLimit::new(10),
        })
        .unwrap()
    else {
        panic!("status query should return process instances");
    };
    assert_eq!(failed.len(), 1);
    assert_eq!(runtime.affected_pipelines(&dataset).unwrap(), vec![PipelineId::from("pipeline-a")]);
    runtime.stop().unwrap();
}

#[test]
fn sitas_runtime_refuses_to_start_without_shards_or_room() {
    assert!(matches!(
        SitasShardRuntime::start(SitasRuntimeConfig::new(0, 4)),
        Err(SitasRuntimeError::Runtime(RuntimeError::NoShards))
    ));
    assert!(matches!(
        SitasShardRuntime::start(SitasRuntimeConfig::new(2, 0)),
        Err(SitasRuntimeError::Runtime(RuntimeError::QueueCapacityZero))
    ));
}

#[test]
fn sitas_runtime_refuses_events_that_are_not_valid() {
    let runtime = SitasShardRuntime::start(SitasRuntimeConfig::new(2, 4)).unwrap();
    let refused = runtime.try_submit(event("", "instance-a", "pipeline-a")).unwrap_err();
    assert!(matches!(refused, SitasRuntimeError::Ingest(_)));
    assert_eq!(refused.describe(), "event field event_id must not be empty");
    assert!(matches!(
        runtime.submit(event("", "instance-a", "pipeline-a")),
        Err(SitasRuntimeError::Ingest(_))
    ));
    assert!(matches!(
        runtime.ingest(event("", "instance-a", "pipeline-a")),
        Err(SitasRuntimeError::Ingest(_))
    ));
    let snapshot = runtime.snapshot().unwrap();
    assert_eq!(snapshot.runtime.totals.event_count, 0);
    assert_eq!(snapshot.mailboxes.len(), 2);
    assert!(snapshot.mailboxes.iter().all(|mailbox| mailbox.len == 0 && mailbox.sent == 0));
    runtime.stop().unwrap();
}

#[test]
fn sitas_mailboxes_hold_events_until_they_are_drained() {
    let runtime = SitasShardRuntime::start(SitasRuntimeConfig::new(1, 3)).unwrap();
    let queued = runtime.submit(event("event-1", "instance-a", "pipeline-a")).unwrap();
    assert_eq!(queued.shard_id, LogicalShardId(0));
    assert_eq!(queued.queued_depth, 1);
    assert_eq!(queued.capacity, 3);
    runtime.submit(event("event-1", "instance-a", "pipeline-a")).unwrap();
    runtime.submit(event("event-2", "instance-a", "pipeline-a")).unwrap();

    let full = runtime.try_submit(event("event-3", "instance-a", "pipeline-a")).unwrap_err();
    assert_eq!(
        full,
        SitasRuntimeError::Runtime(RuntimeError::QueueFull { shard_id: LogicalShardId(0), capacity: 3 })
    );
    let mailbox = runtime.snapshot().unwrap().mailboxes[0];
    assert_eq!(mailbox.shard_id, LogicalShardId(0));
    assert_eq!((mailbox.capacity, mailbox.len), (3, 3));
    assert_eq!((mailbox.sent, mailbox.full_rejections), (3, 1));
    assert!(mailbox.receiver_taken);

    let first = runtime.drain_shard(LogicalShardId(0), 2).unwrap();
    assert_eq!(first.shard_id, LogicalShardId(0));
    assert_eq!((first.attempted, first.accepted, first.duplicates, first.failed), (2, 1, 1, 0));
    assert_eq!(first.remaining_depth, 1);

    let rest = runtime.drain_all(10).unwrap();
    assert_eq!(rest.len(), 1);
    assert_eq!((rest[0].attempted, rest[0].accepted, rest[0].remaining_depth), (1, 1, 0));
    assert_eq!(runtime.snapshot().unwrap().runtime.totals.event_count, 2);

    assert!(matches!(
        runtime.drain_shard(LogicalShardId(1), 1),
        Err(SitasRuntimeError::Runtime(RuntimeError::InvalidShard { shard_id: LogicalShardId(1) }))
    ));
    runtime.stop().unwrap();
}

#[test]
fn sitas_shards_answer_for_what_they_own() {
    let runtime = SitasShardRuntime::start(SitasRuntimeConfig::new(3, 8)).unwrap();
    assert_eq!(runtime.shard_count(), 3);
    let dataset = MetadataRef::Dataset(DatasetId::from("dataset-a"));
    for number in 0..6 {
        let event = event(&format!("event-{number}"), &format!("instance-{number}"), "pipeline-a")
            .with_metadata_refs(vec![dataset.clone()]);
        runtime.ingest(event).unwrap();
    }
    assert_eq!(
        runtime.ingest(event("event-0", "instance-0", "pipeline-a")).unwrap().outcome,
        IngestOutcome::Duplicate
    );

    let known = runtime
        .process_instance(&ProcessInstanceQuery { process_instance_id: ProcessInstanceId::from("instance-4") })
        .unwrap();
    assert!(known.is_some());
    let unknown = runtime
        .process_instance(&ProcessInstanceQuery { process_instance_id: ProcessInstanceId::from("instance-9") })
        .unwrap();
    assert!(unknown.is_none());

    let event_4 = event("event-4", "instance-4", "pipeline-a");
    let (owner, handed_over) = runtime.addressed(event_4.clone());
    assert_eq!(handed_over, event_4);
    assert_eq!(owner, runtime.shard_for_process_instance(&ProcessInstanceId::from("instance-4")));
    let asked = ProcessInstanceId::from("instance-4");
    let question = ShardQuestion::Instance(ProcessInstanceQuery { process_instance_id: asked.clone() });
    let (shard_id, answer) = runtime.ask_owner(&asked, question).unwrap();
    assert_eq!(shard_id, runtime.shard_for_process_instance(&asked));
    assert!(matches!(answer, ShardAnswer::Instance(Some(_))));

    let QueryResult::Events(of_instance) = runtime
        .events(&EventQuery {
            process_instance_id: ProcessInstanceId::from("instance-4"),
            limit: QueryLimit::new(10),
        })
        .unwrap()
    else {
        panic!("events were asked for");
    };
    assert_eq!(of_instance.len(), 1);
    assert_eq!(of_instance[0].event_id().as_str(), "event-4");

    let QueryResult::Events(affected) = runtime
        .impact(&ImpactQuery { metadata_ref: dataset.clone(), limit: QueryLimit::new(4) })
        .unwrap()
    else {
        panic!("events were asked for");
    };
    assert_eq!(affected.len(), 4);

    let QueryResult::Events(in_range) = runtime
        .events_in_time_range(&TimeRangeQuery {
            start: Some(EventTimestamp::from("2026-06-30T10:00:00Z")),
            end: None,
            limit: QueryLimit::new(10),
        })
        .unwrap()
    else {
        panic!("events were asked for");
    };
    assert_eq!(in_range.len(), 6);

    let snapshot = runtime.snapshot().unwrap();
    assert_eq!(snapshot.runtime.shards.len(), 3);
    assert_eq!(snapshot.runtime.totals.event_count, 6);
    assert_eq!(snapshot.runtime.totals.duplicate_events, 1);
    assert_eq!(snapshot.executor.shard_count, 3);
    runtime.stop().unwrap();
}

#[test]
fn shard_state_does_its_tasks() {
    let mut receivers = Vec::new();
    let mut state = SitasShardState::fresh(&mut receivers, 0);
    assert!(matches!(
        state.run(ShardTask::Ingest(event("event-1", "instance-a", "pipeline-a"))),
        ShardAnswer::Ingested(Ok(IngestOutcome::Accepted))
    ));
    assert!(matches!(
        state.run(ShardTask::Drain(LogicalShardId(0), 5)),
        ShardAnswer::Drained(Err(SitasRuntimeError::WorkersRunning))
    ));
    assert!(state.take_receiver().is_none());

    let mut summary = IngestWorkerSummary::new();
    state.ingest_received(&mut summary, event("event-1", "instance-a", "pipeline-a"));
    state.ingest_received(&mut summary, event("event-2", "instance-a", "pipeline-a"));
    state.ingest_received(&mut summary, event("", "instance-a", "pipeline-a"));
    assert_eq!(
        summary,
        IngestWorkerSummary { attempted: 3, accepted: 1, duplicates: 1, failed: 1 }
    );

    let ShardAnswer::Sizes(sizes) = state.answer(&ShardQuestion::Sizes) else {
        panic!("sizes were asked for");
    };
    assert_eq!((sizes.event_count, sizes.process_instance_count, sizes.duplicate_events), (2, 1, 1));
}

#[test]
fn stopping_hands_on_what_the_executor_says() {
    assert_eq!(stop_answer(Ok(())), Ok(()));
    let failed = stop_answer(Err("failed to join shard thread".to_string())).unwrap_err();
    assert_eq!(failed, SitasRuntimeError::Start("failed to join shard thread".to_string()));
    assert_eq!(failed.describe(), "failed to join shard thread");
}
