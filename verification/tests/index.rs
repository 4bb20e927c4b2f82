//! The hot index.

use vannak::durga::{DurgaEventType, DurgaProcessEvent, DurgaStatus};
use vannak::index::{HotIndex, IngestOutcome};
use vannak::ingest::{EventId, EventTimestamp, PipelineEvent, SourceId, SourceSequence};
use vannak::metadata::{DatasetId, MetadataRef};
use vannak::process::{
    ActivityId, EnvironmentId, EventKind, PipelineId, ProcessDefinitionId, ProcessInstanceId, ProcessStatus, TenantId,
};
use vannak::query::{EventQuery, ImpactQuery, ProcessInstanceQuery, QueryLimit, QueryResult};

#[test]
fn ingest_reduces_process_state_and_indexes_metadata() {
    let dataset = MetadataRef::Dataset(DatasetId::from("dataset-a"));
    let mut index = HotIndex::new();

    let started =
        event("e1", EventKind::ProcessStarted).with_metadata_refs(vec![dataset.clone()]);
    let activity = event("e2", EventKind::ActivityEntered)
        .with_activity_id(ActivityId::from("extract"))
        .with_metadata_refs(vec![dataset.clone()]);
    let activity_completed =
        event("e3", EventKind::ActivityCompleted).with_activity_id(ActivityId::from("extract"));
    let completed = event("e4", EventKind::ProcessCompleted);

    assert_eq!(index.ingest(started).unwrap(), IngestOutcome::Accepted);
    assert_eq!(index.ingest(activity).unwrap(), IngestOutcome::Accepted);
    assert_eq!(
        index.ingest(activity_completed).unwrap(),
        IngestOutcome::Accepted
    );
    assert_eq!(index.ingest(completed).unwrap(), IngestOutcome::Accepted);

    let process = index
        .process_instance(&ProcessInstanceQuery {
            process_instance_id: ProcessInstanceId::from("instance-a"),
        })
        .unwrap();
    assert_eq!(process.status, ProcessStatus::Completed);
    assert_eq!(
        process.activity_durations.get(&ActivityId::from("extract")),
        Some(&1000)
    );
    assert!(process.metadata_refs.contains(&dataset));

    let result = index.impact(&ImpactQuery {
        metadata_ref: dataset.clone(),
        limit: QueryLimit::new(10),
    });
    let QueryResult::Events(events) = result else {
        panic!("impact query returns events");
    };
    assert_eq!(events.len(), 2);
    assert_eq!(
        index.affected_pipelines(&dataset),
        vec![PipelineId::from("pipeline-a")]
    );
}

#[test]
fn duplicate_event_is_idempotent() {
    let mut index = HotIndex::new();
    let event = event("e1", EventKind::ProcessStarted);

    assert_eq!(
        index.ingest(event.clone()).unwrap(),
        IngestOutcome::Accepted
    );
    assert_eq!(index.ingest(event).unwrap(), IngestOutcome::Duplicate);
    assert_eq!(index.snapshot().event_count, 1);
    assert_eq!(index.snapshot().duplicate_events, 1);
}

#[test]
fn durga_process_event_converts_to_pipeline_event() {
    let mut index = HotIndex::new();
    let durga_event = DurgaProcessEvent {
        process_instance_id: String::from("instance-a"),
        process_id: String::from("pipeline-a"),
        activity_id: Some(String::from("extract")),
        token_id: Some(String::from("token-1")),
        correlation_id: Some(String::from("corr-1")),
        payload: Some(String::from("{\"ok\":true}")),
        status: DurgaStatus::Started,
        error: None,
        event_type: DurgaEventType::ActivityEntered,
        process_version: Some(String::from("v1")),
        business_key: Some(String::from("order-1")),
        timestamp: String::from("2026-06-30T10:00:00Z"),
        metadata_refs: Vec::new(),
        schema_version: None,
    };

    let event = durga_event.into_pipeline_event(
        SourceId::from("durga-monitor"),
        SourceSequence(7),
        TenantId::from("tenant-a"),
        EnvironmentId::from("prod"),
    );

    assert_eq!(event.activity_id(), Some(&ActivityId::from("extract")));
    assert_eq!(event.kind(), EventKind::ActivityEntered);
    assert_eq!(index.ingest(event).unwrap(), IngestOutcome::Accepted);
    let process = index
        .process_instance(&ProcessInstanceQuery {
            process_instance_id: ProcessInstanceId::from("instance-a"),
        })
        .unwrap();
    assert_eq!(
        process.current_activity_id,
        Some(ActivityId::from("extract"))
    );
    assert_eq!(process.status, ProcessStatus::Active);
}

#[test]
fn accepted_events_are_found_again() {
    let dataset = MetadataRef::Dataset(DatasetId::from("dataset-a"));
    let other = MetadataRef::Dataset(DatasetId::from("dataset-b"));
    let mut index = HotIndex::new();
    for (id, refs) in [
        ("e1", vec![dataset.clone()]),
        ("e2", vec![other.clone()]),
        ("e3", vec![other.clone(), dataset.clone()]),
    ] {
        index.ingest(event(id, EventKind::ActivityEntered).with_metadata_refs(refs)).unwrap();
    }
    // What is refused or known already is listed nowhere.
    assert!(index.ingest(event("", EventKind::ProcessStarted).with_metadata_refs(vec![dataset.clone()])).is_err());
    let again = event("e2", EventKind::ProcessStarted).with_metadata_refs(vec![dataset.clone()]);
    assert_eq!(index.ingest(again).unwrap(), IngestOutcome::Duplicate);

    let impact = |metadata_ref: &MetadataRef, limit: usize| -> Vec<String> {
        let query = ImpactQuery { metadata_ref: metadata_ref.clone(), limit: QueryLimit::new(limit) };
        match index.impact(&query) {
            QueryResult::Events(events) => events.iter().map(|e| e.event_id().as_str().to_string()).collect(),
            _ => panic!("impact query returns events"),
        }
    };
    assert_eq!(impact(&dataset, 3), vec!["e1", "e3"]);
    assert_eq!(impact(&other, 2), vec!["e2", "e3"]);
    assert_eq!(impact(&other, 1), vec!["e2"]);

    let QueryResult::Events(of_process) = index.events(&EventQuery {
        process_instance_id: ProcessInstanceId::from("instance-a"),
        limit: QueryLimit::new(4),
    }) else {
        panic!("events were asked for");
    };
    let ids: Vec<&str> = of_process.iter().map(|e| e.event_id().as_str()).collect();
    assert_eq!(ids, vec!["e1", "e2", "e3"]);
    let nothing = MetadataRef::Dataset(DatasetId::from("dataset-c"));
    assert!(index.affected_pipelines(&nothing).is_empty());
    assert_eq!(index.affected_pipelines(&other), vec![PipelineId::from("pipeline-a")]);
}

fn event(event_id: &str, kind: EventKind) -> PipelineEvent {
    PipelineEvent::new(
        EventId::from(event_id),
        SourceId::from("durga-a"),
        SourceSequence(1),
        TenantId::from("tenant-a"),
        EnvironmentId::from("prod"),
        PipelineId::from("pipeline-a"),
        ProcessDefinitionId::from("definition-a"),
        ProcessInstanceId::from("instance-a"),
        EventTimestamp::from(match event_id {
            "e1" => "2026-06-30T10:00:00Z",
            "e2" => "2026-06-30T10:00:01Z",
            _ => "2026-06-30T10:00:02Z",
        }),
        kind,
    )
}
