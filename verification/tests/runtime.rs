//! The sharded runtimes.

use vannak::ingest::{EventId, EventTimestamp, PipelineEvent, SourceId, SourceSequence};
use vannak::metadata::{DatasetId, MetadataRef};
use vannak::process::{
    EnvironmentId, EventKind, PipelineId, ProcessDefinitionId, ProcessInstanceId, ProcessStatus, TenantId,
};
use vannak::query::{
    EventQuery, ImpactQuery, PipelineQuery, ProcessInstanceQuery, ProcessStatusQuery, QueryLimit, QueryResult,
    TimeRangeQuery,
};
use vannak::runtime::{BoundedIngestRuntime, LogicalShardId, RuntimeError, ShardLocalRuntime};

#[test]
fn runtime_routes_same_process_instance_to_same_shard() {
    let mut runtime = ShardLocalRuntime::new(4).unwrap();
    let first = event("event-1", "instance-a", "pipeline-a");
    let second = event("event-2", "instance-a", "pipeline-a");
    let expected = runtime.shard_for_process_instance(first.process_instance_id());

    assert_eq!(runtime.ingest(first).unwrap().shard_id, expected);
    assert_eq!(runtime.ingest(second).unwrap().shard_id, expected);
    assert_eq!(runtime.snapshot().totals.event_count, 2);
    assert_eq!(
        runtime
            .shard(expected)
            .unwrap()
            .snapshot()
            .process_instance_count,
        1
    );
}

#[test]
fn runtime_routes_process_owned_queries_to_one_shard() {
    let mut runtime = ShardLocalRuntime::new(4).unwrap();
    runtime
        .ingest(event("event-1", "instance-a", "pipeline-a"))
        .unwrap();
    runtime
        .ingest(event("event-2", "instance-a", "pipeline-a"))
        .unwrap();

    let process = runtime
        .process_instance(&ProcessInstanceQuery {
            process_instance_id: ProcessInstanceId::from("instance-a"),
        })
        .unwrap();
    assert_eq!(
        process.process_instance_id,
        ProcessInstanceId::from("instance-a")
    );

    let QueryResult::Events(events) = runtime.events(&EventQuery {
        process_instance_id: ProcessInstanceId::from("instance-a"),
        limit: QueryLimit::new(10),
    }) else {
        panic!("events query should return events");
    };
    assert_eq!(events.len(), 2);
}

#[test]
fn runtime_fans_out_pipeline_and_impact_queries_with_global_limit() {
    let dataset = MetadataRef::Dataset(DatasetId::from("dataset-a"));
    let mut runtime = ShardLocalRuntime::new(8).unwrap();
    for idx in 0..6 {
        runtime
            .ingest(
                event(
                    &format!("event-{idx}"),
                    &format!("instance-{idx}"),
                    "pipeline-a",
                )
                .with_metadata_refs(vec![dataset.clone()]),
            )
            .unwrap();
    }

    let QueryResult::ProcessInstances(instances) = runtime.pipeline_instances(&PipelineQuery {
        pipeline_id: PipelineId::from("pipeline-a"),
        limit: QueryLimit::new(3),
    }) else {
        panic!("pipeline query should return process instances");
    };
    assert_eq!(instances.len(), 3);

    let QueryResult::Events(events) = runtime.impact(&ImpactQuery {
        metadata_ref: dataset.clone(),
        limit: QueryLimit::new(4),
    }) else {
        panic!("impact query should return events");
    };
    assert_eq!(events.len(), 4);
    assert_eq!(
        runtime.affected_pipelines(&dataset),
        vec![PipelineId::from("pipeline-a")]
    );
}

#[test]
fn runtime_fans_out_status_and_time_range_queries_with_global_limit() {
    let mut runtime = ShardLocalRuntime::new(8).unwrap();
    runtime
        .ingest(event_at(
            "event-1",
            "instance-a",
            "pipeline-a",
            "2026-06-30T10:00:00Z",
            EventKind::ProcessStarted,
        ))
        .unwrap();
    runtime
        .ingest(event_at(
            "event-2",
            "instance-b",
            "pipeline-a",
            "2026-06-30T10:00:01Z",
            EventKind::ProcessStarted,
        ))
        .unwrap();
    runtime
        .ingest(event_at(
            "event-3",
            "instance-b",
            "pipeline-a",
            "2026-06-30T10:00:03Z",
            EventKind::ProcessFailed,
        ))
        .unwrap();

    let QueryResult::ProcessInstances(failed) =
        runtime.process_instances_by_status(&ProcessStatusQuery {
            status: ProcessStatus::Failed,
            limit: QueryLimit::new(10),
        })
    else {
        panic!("status query should return process instances");
    };
    assert_eq!(failed.len(), 1);
    assert_eq!(
        failed[0].process_instance_id,
        ProcessInstanceId::from("instance-b")
    );

    let QueryResult::Events(events) = runtime.events_in_time_range(&TimeRangeQuery {
        start: Some(EventTimestamp::from("2026-06-30T10:00:01Z")),
        end: Some(EventTimestamp::from("2026-06-30T10:00:03Z")),
        limit: QueryLimit::new(2),
    }) else {
        panic!("time range query should return events");
    };
    assert_eq!(events.len(), 2);
    assert_eq!(events[0].event_id(), &EventId::from("event-2"));
    assert_eq!(events[1].event_id(), &EventId::from("event-3"));
}

#[test]
fn runtime_rejects_zero_shards() {
    assert!(matches!(
        ShardLocalRuntime::new(0).unwrap_err(),
        RuntimeError::NoShards
    ));
}

#[test]
fn bounded_runtime_queues_by_owning_shard_and_drains_later() {
    let mut runtime = BoundedIngestRuntime::new(4, 8).unwrap();
    let event = event("event-1", "instance-a", "pipeline-a");
    let expected = runtime
        .runtime()
        .shard_for_process_instance(event.process_instance_id());

    let queued = runtime.submit(event).unwrap();

    assert_eq!(queued.shard_id, expected);
    assert_eq!(queued.queued_depth, 1);
    assert_eq!(runtime.snapshot().runtime.totals.event_count, 0);
    assert_eq!(runtime.snapshot().queues[expected.0].depth, 1);

    let summary = runtime.drain_shard(expected, 10).unwrap();

    assert_eq!(summary.accepted, 1);
    assert_eq!(summary.remaining_depth, 0);
    assert_eq!(runtime.snapshot().runtime.totals.event_count, 1);
}

#[test]
fn bounded_runtime_applies_backpressure_when_queue_is_full() {
    let mut runtime = BoundedIngestRuntime::new(2, 1).unwrap();
    let first = event("event-1", "instance-a", "pipeline-a");
    let shard_id = runtime
        .runtime()
        .shard_for_process_instance(first.process_instance_id());

    runtime.submit(first).unwrap();
    let error = runtime
        .submit(event("event-2", "instance-a", "pipeline-a"))
        .unwrap_err();

    assert_eq!(
        error,
        RuntimeError::QueueFull {
            shard_id,
            capacity: 1,
        }
    );
    assert_eq!(runtime.snapshot().queues[shard_id.0].depth, 1);
    assert_eq!(runtime.snapshot().runtime.totals.event_count, 0);
}

#[test]
fn bounded_runtime_drains_with_per_shard_limit_and_counts_duplicates() {
    let mut runtime = BoundedIngestRuntime::new(1, 8).unwrap();
    runtime
        .submit(event("event-1", "instance-a", "pipeline-a"))
        .unwrap();
    runtime
        .submit(event("event-2", "instance-a", "pipeline-a"))
        .unwrap();
    runtime
        .submit(event("event-2", "instance-a", "pipeline-a"))
        .unwrap();

    let first = runtime.drain_shard(LogicalShardId(0), 2).unwrap();
    assert_eq!(first.attempted, 2);
    assert_eq!(first.accepted, 2);
    assert_eq!(first.remaining_depth, 1);

    let second = runtime.drain_all(10).unwrap();
    assert_eq!(second[0].attempted, 1);
    assert_eq!(second[0].duplicates, 1);
    assert_eq!(runtime.snapshot().runtime.totals.event_count, 2);
    assert_eq!(runtime.snapshot().runtime.totals.duplicate_events, 1);
}

#[test]
fn bounded_runtime_rejects_invalid_configuration_and_invalid_shard() {
    assert!(matches!(
        BoundedIngestRuntime::new(0, 1).unwrap_err(),
        RuntimeError::NoShards
    ));
    assert!(matches!(
        BoundedIngestRuntime::new(1, 0).unwrap_err(),
        RuntimeError::QueueCapacityZero
    ));

    let mut runtime = BoundedIngestRuntime::new(1, 1).unwrap();
    assert!(matches!(
        runtime.drain_shard(LogicalShardId(2), 1).unwrap_err(),
        RuntimeError::InvalidShard {
            shard_id: LogicalShardId(2)
        }
    ));
}

#[test]
fn queries_to_all_shards_leave_out_nothing_below_their_limit() {
    let mut runtime = ShardLocalRuntime::new(3).unwrap();
    let dataset = MetadataRef::Dataset(DatasetId::from("dataset-a"));
    for number in 0..9 {
        let one = event(&format!("event-{number}"), &format!("instance-{number}"), &format!("pipeline-{}", number % 2))
            .with_metadata_refs(vec![dataset.clone()]);
        runtime.ingest(one).unwrap();
    }
    let QueryResult::Events(affected) =
        runtime.impact(&ImpactQuery { metadata_ref: dataset.clone(), limit: QueryLimit::new(10) })
    else {
        panic!("events were asked for");
    };
    let QueryResult::Events(in_range) =
        runtime.events_in_time_range(&TimeRangeQuery { start: None, end: None, limit: QueryLimit::new(10) })
    else {
        panic!("events were asked for");
    };
    for number in 0..9 {
        let id = EventId::from(format!("event-{number}"));
        assert!(affected.iter().any(|e| *e.event_id() == id));
        assert!(in_range.iter().any(|e| *e.event_id() == id));
    }
    assert_eq!((affected.len(), in_range.len()), (9, 9));
    assert_eq!(
        runtime.affected_pipelines(&dataset),
        vec![PipelineId::from("pipeline-0"), PipelineId::from("pipeline-1")]
    );
}

fn event(event_id: &str, instance_id: &str, pipeline_id: &str) -> PipelineEvent {
    event_at(
        event_id,
        instance_id,
        pipeline_id,
        "2026-06-30T10:00:00Z",
        EventKind::ProcessStarted,
    )
}

fn event_at(
    event_id: &str,
    instance_id: &str,
    pipeline_id: &str,
    timestamp: &str,
    kind: EventKind,
) -> PipelineEvent {
    PipelineEvent::new(
        EventId::from(event_id),
        SourceId::from("durga"),
        SourceSequence(1),
        TenantId::from("tenant-a"),
        EnvironmentId::from("prod"),
        PipelineId::from(pipeline_id),
        ProcessDefinitionId::from("definition-a"),
        ProcessInstanceId::from(instance_id),
        EventTimestamp::from(timestamp),
        kind,
    )
}
