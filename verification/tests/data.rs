//! The provenance index.

use vannak::data::{
    DataIndividualId, DataIndividualMetadataEvent, DataIndividualShardId, DataProvenanceIndex,
    DataProvenanceIndexSnapshot, DataProvenanceIngestOutcome, MetadataEventId, MetadataOperation,
};
use vannak::ingest::EventTimestamp;
use vannak::process::{ActivityId, EnvironmentId, PipelineId, ProcessInstanceId, TenantId};
use vannak::query::{
    ActivityMetadataQuery, DataIndividualMetadataQuery, ProcessMetadataQuery, QueryLimit, QueryResult,
};

#[test]
fn provenance_index_queries_by_data_process_and_activity() {
    let mut index = DataProvenanceIndex::new();
    let first = metadata_event("data-1", "meta-1", "instance-a", Some("extract"));
    let second = metadata_event("data-1", "meta-2", "instance-a", Some("load"));
    let third = metadata_event("data-2", "meta-3", "instance-a", Some("extract"));

    assert_eq!(
        index.ingest(first.clone()),
        DataProvenanceIngestOutcome::Accepted
    );
    assert_eq!(
        index.ingest(second.clone()),
        DataProvenanceIngestOutcome::Accepted
    );
    assert_eq!(
        index.ingest(third.clone()),
        DataProvenanceIngestOutcome::Accepted
    );

    let QueryResult::MetadataEvents(data_events) =
        index.metadata_for_data_individual(&DataIndividualMetadataQuery {
            data_individual_id: DataIndividualId::from("data-1"),
            limit: QueryLimit::new(10),
        })
    else {
        panic!("data query returns metadata events");
    };
    assert_eq!(data_events, vec![first.clone(), second.clone()]);

    let QueryResult::MetadataEvents(activity_events) =
        index.metadata_for_activity(&ActivityMetadataQuery {
            process_instance_id: ProcessInstanceId::from("instance-a"),
            activity_id: ActivityId::from("extract"),
            limit: QueryLimit::new(10),
        })
    else {
        panic!("activity query returns metadata events");
    };
    assert_eq!(activity_events, vec![first, third]);

    assert_eq!(
        index.data_individuals_for_process(&ProcessInstanceId::from("instance-a")),
        vec![
            DataIndividualId::from("data-1"),
            DataIndividualId::from("data-2")
        ]
    );
    assert_eq!(
        index.snapshot(),
        DataProvenanceIndexSnapshot {
            metadata_event_count: 3,
            data_individual_count: 2,
            process_instance_count: 1,
            activity_count: 2,
        }
    );
}

#[test]
fn provenance_index_is_idempotent() {
    let mut index = DataProvenanceIndex::new();
    let event = metadata_event("data-1", "meta-1", "instance-a", None);

    assert_eq!(
        index.ingest(event.clone()),
        DataProvenanceIngestOutcome::Accepted
    );
    assert_eq!(index.ingest(event), DataProvenanceIngestOutcome::Duplicate);
    assert_eq!(index.snapshot().metadata_event_count, 1);
}

#[test]
fn captured_events_and_their_data_are_found_again() {
    let mut index = DataProvenanceIndex::new();
    let events = [
        metadata_event("data-2", "meta-1", "instance-a", Some("extract")),
        metadata_event("data-1", "meta-2", "instance-a", None),
        metadata_event("data-1", "meta-3", "instance-b", Some("extract")),
    ];
    for event in &events {
        index.ingest(event.clone());
    }
    let of_process = |instance: &str, limit: usize| {
        index.metadata_for_process(&ProcessMetadataQuery {
            process_instance_id: ProcessInstanceId::from(instance),
            limit: QueryLimit::new(limit),
        })
    };
    assert_eq!(of_process("instance-a", 3), QueryResult::MetadataEvents(events[..2].to_vec()));
    assert_eq!(of_process("instance-a", 1), QueryResult::MetadataEvents(events[..1].to_vec()));
    assert_eq!(of_process("instance-c", 3), QueryResult::MetadataEvents(Vec::new()));

    let extract = ActivityId::from("extract");
    let data = |name: &str| DataIndividualId::from(name);
    let instance_a = ProcessInstanceId::from("instance-a");
    let instance_b = ProcessInstanceId::from("instance-b");
    assert_eq!(index.data_individuals_for_process(&instance_a), vec![data("data-1"), data("data-2")]);
    assert_eq!(index.data_individuals_for_activity(&instance_a, &extract), vec![data("data-2")]);
    assert_eq!(index.data_individuals_for_activity(&instance_b, &extract), vec![data("data-1")]);
    assert!(index.data_individuals_for_activity(&instance_b, &ActivityId::from("load")).is_empty());
}

fn metadata_event(
    data_id: &str,
    metadata_event_id: &str,
    process_instance_id: &str,
    activity_id: Option<&str>,
) -> DataIndividualMetadataEvent {
    let data_id = DataIndividualId::from(data_id);
    let shard_id = DataIndividualShardId::from_data_individual(&data_id);
    let event = DataIndividualMetadataEvent::new(
        MetadataEventId::from(metadata_event_id),
        data_id,
        shard_id,
        TenantId::from("tenant-a"),
        EnvironmentId::from("prod"),
        PipelineId::from("pipeline-a"),
        ProcessInstanceId::from(process_instance_id),
        EventTimestamp::from("2026-06-30T10:00:00Z"),
        MetadataOperation::Received,
    );
    if let Some(activity_id) = activity_id {
        event.with_activity_id(ActivityId::from(activity_id))
    } else {
        event
    }
}
