//! The service.

use vannak::checkpoint::{CheckpointEpoch, LeaseEpoch, WriterLease};
use vannak::cluster::{ClusterControlCommand, ClusterControlState, NodeId};
use vannak::data::{
    ActiveMetadata, DataIndividualId, DataIndividualMetadataEvent, DataIndividualShardId, IdempotencyKey,
    MetadataEventId, MetadataOperation, MetadataValue, PassiveMetadata,
};
use vannak::index::IngestOutcome;
use vannak::ingest::{EventId, EventTimestamp, PipelineEvent, SourceId, SourceSequence};
use vannak::ipto::{
    DurableOutboxEnqueueResult, IptoAttributeName, IptoInstanceId, IptoMapping, IptoWriteError, IptoWritePayload,
    IptoWriter, OutboxStatus, SegmentBackedMetadataOutbox,
};
use vannak::journal::{replay_process_event_segment, ProcessEventJournal};
use vannak::ordered::SortedMap;
use vannak::placement::{IptoPlacementMap, IptoPlacementSlot, PlacementEpoch};
use vannak::process::{
    ActivityId, EnvironmentId, EventKind, PipelineId, ProcessDefinitionId, ProcessInstanceId, ProcessStatus, TenantId,
};
use vannak::query::{
    ActivityMetadataQuery, DataIndividualMetadataQuery, ProcessInstanceQuery, ProcessStatusQuery, QueryLimit,
    QueryResult, TimeRangeQuery,
};
use vannak::service::{MetadataCaptureResult, VannakService, VannakServiceError};
use vannak::storage::{SegmentId, SegmentWriter};

#[test]
fn service_captures_metadata_durably_and_drains_with_lease() {
    let mut file = SegmentWriter::header();
    let target = IptoInstanceId::from("ipto-a");
    let mut service = service(target.clone());
    let event = metadata_event("data-1", "meta-1")
        .with_passive_metadata(
            PassiveMetadata::new()
                .insert("vannak:dataIndividualId", MetadataValue::string("data-1")),
        )
        .with_active_metadata(
            ActiveMetadata::new().insert("vannak:activityId", MetadataValue::string("extract")),
        );

    let capture = capture(&mut file, &mut service, &event);

    assert_eq!(capture.target, target);
    assert!(matches!(
        capture.result,
        DurableOutboxEnqueueResult::Enqueued { .. }
    ));
    assert_eq!(service.snapshot().metadata_outbox.outbox.pending, 1);
    assert_eq!(service.snapshot().provenance_index.metadata_event_count, 1);

    let mut control = ClusterControlState::new();
    control
        .apply(ClusterControlCommand::AddNode(NodeId::from("node-a")))
        .unwrap();
    control
        .apply(ClusterControlCommand::GrantWriterLease(WriterLease {
            target: target.clone(),
            holder: NodeId::from("node-a"),
            epoch: LeaseEpoch(1),
        }))
        .unwrap();

    let mut writer = RecordingWriter::default();
    let summary = service
        .drain_metadata_for_target_if_lease_held(
            &control,
            &NodeId::from("node-a"),
            &target,
            &mut writer,
            10,
        )
        .unwrap();

    assert_eq!(summary.acknowledged, 1);
    assert_eq!(writer.writes.len(), 1);
    assert_eq!(service.snapshot().metadata_outbox.outbox.acknowledged, 1);

    let checkpoint = service
        .acknowledged_checkpoint(
            event.data_individual_shard_id(),
            &target,
            CheckpointEpoch(1),
        )
        .unwrap();
    let replay = VannakService::replay_metadata_outbox_after(
        file,
        Some(checkpoint.last_acknowledged_offset),
    )
    .unwrap();
    assert_eq!(replay.summary.scanned_records, 1);
    assert_eq!(replay.summary.skipped_records, 1);
    assert!(replay.outbox.next_pending().is_none());
}

#[test]
fn service_indexes_metadata_capture_for_local_provenance_queries() {
    let mut file = SegmentWriter::header();
    let target = IptoInstanceId::from("ipto-a");
    let mut service = service(target);
    let first =
        metadata_event("data-1", "meta-1").with_activity_id(ActivityId::from("extract"));
    let second = metadata_event("data-1", "meta-2").with_activity_id(ActivityId::from("load"));
    let third =
        metadata_event("data-2", "meta-3").with_activity_id(ActivityId::from("extract"));

    capture(&mut file, &mut service, &first);
    capture(&mut file, &mut service, &second);
    capture(&mut file, &mut service, &third);

    let QueryResult::MetadataEvents(data_events) =
        service.metadata_for_data_individual(&DataIndividualMetadataQuery {
            data_individual_id: DataIndividualId::from("data-1"),
            limit: QueryLimit::new(10),
        })
    else {
        panic!("data query returns metadata events");
    };
    assert_eq!(data_events, vec![first.clone(), second]);

    let QueryResult::MetadataEvents(activity_events) =
        service.metadata_for_activity(&ActivityMetadataQuery {
            process_instance_id: ProcessInstanceId::from("instance-a"),
            activity_id: ActivityId::from("extract"),
            limit: QueryLimit::new(10),
        })
    else {
        panic!("activity query returns metadata events");
    };
    assert_eq!(activity_events, vec![first, third]);

    assert_eq!(
        service.data_individuals_for_process(&ProcessInstanceId::from("instance-a")),
        vec![
            DataIndividualId::from("data-1"),
            DataIndividualId::from("data-2")
        ]
    );
}

#[test]
fn service_recovers_outbox_after_checkpoint_and_continues_capture() {
    let mut file = SegmentWriter::header();
    let target = IptoInstanceId::from("ipto-a");
    let first = metadata_event("data-1", "meta-1").with_passive_metadata(
        PassiveMetadata::new()
            .insert("vannak:dataIndividualId", MetadataValue::string("data-1")),
    );
    let second = metadata_event("data-2", "meta-2").with_passive_metadata(
        PassiveMetadata::new()
            .insert("vannak:dataIndividualId", MetadataValue::string("data-2")),
    );

    let checkpoint_offset = {
        let mut service = service(target.clone());
        capture(&mut file, &mut service, &first);
        capture(&mut file, &mut service, &second);
        let mut writer = RecordingWriter::default();
        let summary = service.drain_metadata_for_target(&target, &mut writer, 1);
        assert_eq!(summary.acknowledged, 1);
        service
            .acknowledged_checkpoint(
                first.data_individual_shard_id(),
                &target,
                CheckpointEpoch(1),
            )
            .unwrap()
            .last_acknowledged_offset
    };

    let recovery = VannakService::recover_after(
        placement(target.clone()),
        mapping(),
        file.clone(),
        "outbox.seg",
        SegmentId::from("outbox-segment-a"),
        NodeId::from("node-a"),
        Some(checkpoint_offset),
    )
    .unwrap();

    assert_eq!(recovery.summary.scanned_records, 2);
    assert_eq!(recovery.summary.skipped_records, 1);
    assert_eq!(recovery.summary.replayed_records, 1);
    let mut service = recovery.service;
    assert_eq!(service.snapshot().metadata_outbox.outbox.pending, 1);

    let third = metadata_event("data-3", "meta-3").with_passive_metadata(
        PassiveMetadata::new()
            .insert("vannak:dataIndividualId", MetadataValue::string("data-3")),
    );
    capture(&mut file, &mut service, &third);
    assert_eq!(service.snapshot().metadata_outbox.segment.record_count, 3);
    assert_eq!(service.snapshot().metadata_outbox.outbox.pending, 2);
}

#[test]
fn service_refuses_to_drain_without_target_lease() {
    let mut file = SegmentWriter::header();
    let target = IptoInstanceId::from("ipto-a");
    let mut service = service(target.clone());
    capture(&mut file, &mut service, &metadata_event("data-1", "meta-1"));

    let mut control = ClusterControlState::new();
    control
        .apply(ClusterControlCommand::AddNode(NodeId::from("node-b")))
        .unwrap();
    control
        .apply(ClusterControlCommand::GrantWriterLease(WriterLease {
            target: target.clone(),
            holder: NodeId::from("node-b"),
            epoch: LeaseEpoch(1),
        }))
        .unwrap();

    let mut writer = RecordingWriter::default();
    let error = service
        .drain_metadata_for_target_if_lease_held(
            &control,
            &NodeId::from("node-a"),
            &target,
            &mut writer,
            10,
        )
        .unwrap_err();

    assert!(matches!(
        error,
        VannakServiceError::WriterLeaseNotHeld { .. }
    ));
    assert!(writer.writes.is_empty());
    assert_eq!(service.snapshot().metadata_outbox.outbox.pending, 1);
}

#[test]
fn service_ingests_process_events_into_hot_index() {
    let mut service = service(IptoInstanceId::from("ipto-a"));
    let event = PipelineEvent::new(
        EventId::from("event-1"),
        SourceId::from("durga"),
        SourceSequence(1),
        TenantId::from("tenant-a"),
        EnvironmentId::from("prod"),
        PipelineId::from("pipeline-a"),
        ProcessDefinitionId::from("definition-a"),
        ProcessInstanceId::from("instance-a"),
        EventTimestamp::from("2026-06-30T10:00:00Z"),
        EventKind::ProcessStarted,
    );

    assert_eq!(
        service.ingest_process_event(event).unwrap(),
        IngestOutcome::Accepted
    );
    assert_eq!(service.snapshot().hot_index.event_count, 1);
}

#[test]
fn service_durably_ingests_process_events_before_indexing() {
    let mut file = SegmentWriter::header();
    let process_journal = ProcessEventJournal::create(
        "process.seg",
        SegmentId::from("process-segment-a"),
        NodeId::from("node-a"),
    );
    let mut service = service(IptoInstanceId::from("ipto-a"))
        .with_process_event_journal(process_journal);
    let event = process_event("event-1", "instance-a", EventKind::ProcessStarted);

    file.extend(service.frame_process_event(&event).unwrap());
    let result = service.ingest_process_event_durable(event.clone()).unwrap();

    assert_eq!(result.outcome, IngestOutcome::Accepted);
    assert_eq!(service.snapshot().hot_index.event_count, 1);
    assert_eq!(
        service
            .snapshot()
            .process_event_journal
            .as_ref()
            .unwrap()
            .record_count,
        1
    );

    let replay = replay_process_event_segment(file).unwrap();
    assert_eq!(replay.summary.replayed_records, 1);
    assert_eq!(replay.events[0].event, event);
}

#[test]
fn service_replays_process_segment_into_hot_index() {
    let mut file = SegmentWriter::header();
    let mut journal = ProcessEventJournal::create(
        "process.seg",
        SegmentId::from("process-segment-a"),
        NodeId::from("node-a"),
    );
    for event in [
        process_event("event-1", "instance-a", EventKind::ProcessStarted),
        process_event("event-2", "instance-a", EventKind::ProcessCompleted),
    ] {
        file.extend(journal.frame_event(&event).unwrap());
        journal.append_durable(&event).unwrap();
    }
    drop(journal);

    let mut service = service(IptoInstanceId::from("ipto-a"));
    let summary = service
        .recover_process_events_into_hot_index(file)
        .unwrap();

    assert_eq!(summary.replayed_records, 2);
    assert_eq!(service.snapshot().hot_index.event_count, 2);
    assert!(
        service
            .hot_index()
            .process_instance(&ProcessInstanceQuery {
                process_instance_id: ProcessInstanceId::from("instance-a"),
            })
            .is_some()
    );
}

#[test]
fn service_exposes_typed_query_wrappers() {
    let mut service = service(IptoInstanceId::from("ipto-a"));
    service
        .ingest_process_event(process_event(
            "event-1",
            "instance-a",
            EventKind::ProcessStarted,
        ))
        .unwrap();
    service
        .ingest_process_event(process_event(
            "event-2",
            "instance-a",
            EventKind::ProcessFailed,
        ))
        .unwrap();

    let QueryResult::ProcessInstances(failed) =
        service.process_instances_by_status(&ProcessStatusQuery {
            status: ProcessStatus::Failed,
            limit: QueryLimit::new(10),
        })
    else {
        panic!("status query returns process instances");
    };
    assert_eq!(failed.len(), 1);

    let QueryResult::Events(events) = service.events_in_time_range(&TimeRangeQuery {
        start: Some(EventTimestamp::from("2026-06-30T10:00:00Z")),
        end: Some(EventTimestamp::from("2026-06-30T10:00:00Z")),
        limit: QueryLimit::new(10),
    }) else {
        panic!("time range query returns events");
    };
    assert_eq!(events.len(), 2);
}

#[test]
fn target_aware_drain_leaves_other_targets_pending() {
    let target_a = IptoInstanceId::from("ipto-a");
    let target_b = IptoInstanceId::from("ipto-b");
    let placement = IptoPlacementMap::new(
        PlacementEpoch(1),
        vec![
            IptoPlacementSlot::new(target_a.clone(), 1).unwrap(),
            IptoPlacementSlot::new(target_b.clone(), 1).unwrap(),
        ],
        vec![],
    )
    .unwrap();
    let mapping =
        IptoMapping::new("v1").map_field("vannak:dataIndividualId", "vannak:dataIndividualId");
    let outbox = SegmentBackedMetadataOutbox::create("outbox.seg", SegmentId::from("segment-a"), NodeId::from("node-a"));
    let mut service = VannakService::new(placement, mapping, outbox);

    let payload_a = IptoWritePayload {
        target: target_a.clone(),
        shard_id: DataIndividualShardId(1),
        idempotency_key: IdempotencyKey::from("a"),
        mapping_version: "v1".to_string(),
        attributes: attributes("a"),
    };
    let payload_b = IptoWritePayload {
        target: target_b.clone(),
        shard_id: DataIndividualShardId(2),
        idempotency_key: IdempotencyKey::from("b"),
        mapping_version: "v1".to_string(),
        attributes: attributes("b"),
    };
    service
        .metadata_outbox_mut()
        .enqueue_durable(payload_a)
        .unwrap();
    service
        .metadata_outbox_mut()
        .enqueue_durable(payload_b)
        .unwrap();

    let mut writer = RecordingWriter::default();
    let summary = service.drain_metadata_for_target(&target_b, &mut writer, 10);

    assert_eq!(summary.acknowledged, 1);
    assert_eq!(writer.writes, vec![target_b]);
    assert_eq!(service.snapshot().metadata_outbox.outbox.pending, 1);
    assert_eq!(
        service
            .metadata_outbox()
            .outbox()
            .next_pending_for_target(&target_a)
            .unwrap()
            .status(),
        OutboxStatus::Pending
    );
}

fn attributes(value: &str) -> SortedMap<IptoAttributeName, MetadataValue> {
    let mut attributes = SortedMap::new();
    attributes.insert(IptoAttributeName::from("vannak:dataIndividualId"), MetadataValue::string(value));
    attributes
}

/// Captures an event in a service whose outbox file is kept in memory.
fn capture(
    file: &mut Vec<u8>,
    service: &mut VannakService,
    event: &DataIndividualMetadataEvent,
) -> MetadataCaptureResult {
    if let Some(frame) = service.frame_metadata_event(event).unwrap() {
        file.extend(frame);
    }
    let result = service.capture_metadata_event(event).unwrap();
    assert_eq!(service.snapshot().metadata_outbox.segment.byte_len, file.len() as u64);
    result
}

fn service(target: IptoInstanceId) -> VannakService {
    VannakService::create(
        placement(target),
        mapping(),
        "outbox.seg",
        SegmentId::from("outbox-segment-a"),
        NodeId::from("node-a"),
    )
}

fn placement(target: IptoInstanceId) -> IptoPlacementMap {
    IptoPlacementMap::new(
        PlacementEpoch(1),
        vec![IptoPlacementSlot::new(target, 1).unwrap()],
        vec![],
    )
    .unwrap()
}

fn mapping() -> IptoMapping {
    IptoMapping::new("v1")
        .map_field("vannak:dataIndividualId", "vannak:dataIndividualId")
        .map_field("vannak:activityId", "vannak:activityId")
}

fn metadata_event(data_id: &str, metadata_event_id: &str) -> DataIndividualMetadataEvent {
    let data_id = DataIndividualId::from(data_id);
    let shard_id = DataIndividualShardId::from_data_individual(&data_id);
    DataIndividualMetadataEvent::new(
        MetadataEventId::from(metadata_event_id),
        data_id,
        shard_id,
        TenantId::from("tenant-a"),
        EnvironmentId::from("prod"),
        PipelineId::from("pipeline-a"),
        ProcessInstanceId::from("instance-a"),
        EventTimestamp::from("2026-06-30T10:00:00Z"),
        MetadataOperation::Received,
    )
    .with_activity_id(ActivityId::from("extract"))
}

fn process_event(event_id: &str, process_instance_id: &str, kind: EventKind) -> PipelineEvent {
    PipelineEvent::new(
        EventId::from(event_id),
        SourceId::from("durga"),
        SourceSequence(1),
        TenantId::from("tenant-a"),
        EnvironmentId::from("prod"),
        PipelineId::from("pipeline-a"),
        ProcessDefinitionId::from("definition-a"),
        ProcessInstanceId::from(process_instance_id),
        EventTimestamp::from("2026-06-30T10:00:00Z"),
        kind,
    )
}

#[derive(Default)]
struct RecordingWriter {
    writes: Vec<IptoInstanceId>,
}

impl IptoWriter for RecordingWriter {
    fn write(&mut self, payload: &IptoWritePayload) -> Result<(), IptoWriteError> {
        self.writes.push(payload.target.clone());
        Ok(())
    }
}
