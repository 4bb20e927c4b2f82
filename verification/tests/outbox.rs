//! Payloads, the metadata outbox and its delivery.

use std::collections::VecDeque;
use vannak::checkpoint::CheckpointEpoch;
use vannak::cluster::{IptoPlacementMap, IptoPlacementSlot, NodeId, PlacementEpoch};
use vannak::data::{
    ActiveMetadata, DataIndividualId, DataIndividualMetadataEvent, DataIndividualShardId, IdempotencyKey,
    MetadataEventId, MetadataOperation, MetadataValue, PassiveMetadata,
};
use vannak::ingest::EventTimestamp;
use vannak::ipto::{
    deliver_next_pending, drain_pending_outbox, rebalance_shard_range_to, replay_metadata_outbox_segment,
    replay_metadata_outbox_segment_after, replay_metadata_outbox_segment_for_shard_range, DurableOutboxEnqueueResult,
    IptoInstanceId, IptoMapping, IptoPayloadDecodeError, IptoWriteError, IptoWritePayload, IptoWriter, MetadataOutbox,
    MetadataOutboxDeliveryResult, MetadataOutboxDrainSummary, MetadataOutboxReplaySummary, MetadataOutboxSnapshot,
    OutboxEnqueueResult, SegmentBackedMetadataOutbox,
};
use vannak::process::{EnvironmentId, PipelineId, ProcessInstanceId, TenantId};
use vannak::storage::{SegmentId, SegmentReader, SegmentWriter};

#[test]
fn placement_maps_data_individual_shards_to_ipto_instances() {
    let placement = IptoPlacementMap::new(
        PlacementEpoch(1),
        vec![
            IptoPlacementSlot::new(IptoInstanceId::from("ipto-a"), 64).unwrap(),
            IptoPlacementSlot::new(IptoInstanceId::from("ipto-b"), 64).unwrap(),
        ],
        vec![],
    )
    .unwrap();

    let target = placement.resolve(DataIndividualShardId(0)).unwrap();
    assert!(target.as_str() == "ipto-a" || target.as_str() == "ipto-b");

    let target = placement.resolve(DataIndividualShardId(3)).unwrap();
    assert!(target.as_str() == "ipto-a" || target.as_str() == "ipto-b");
}

#[test]
fn metadata_event_maps_to_ipto_payload_and_outbox_is_idempotent() {
    let event = sample_event()
        .with_passive_metadata(
            PassiveMetadata::new()
                .insert("metadata.source_system", MetadataValue::string("orders"))
                .insert("metadata.size_bytes", MetadataValue::Integer(128)),
        )
        .with_active_metadata(
            ActiveMetadata::new().insert("mask.customer.email", MetadataValue::Boolean(true)),
        );
    let mapping = IptoMapping::new("v1")
        .map_field("metadata.source_system", "attr:provenance.source_system")
        .map_field("metadata.size_bytes", "attr:provenance.size_bytes")
        .map_field("mask.customer.email", "attr:provenance.masked_field");

    let target = IptoInstanceId::from("ipto-a");
    let payload = IptoWritePayload::from_event(&event, &target, &mapping);
    assert_eq!(payload.target, IptoInstanceId::from("ipto-a"));
    assert_eq!(payload.attributes.len(), 3);

    let mut outbox = MetadataOutbox::new();
    assert_eq!(
        outbox.enqueue(payload.clone()),
        OutboxEnqueueResult::Enqueued
    );
    assert_eq!(
        outbox.enqueue(payload.clone()),
        OutboxEnqueueResult::Duplicate
    );
    assert!(outbox.next_pending().is_some());
    assert!(outbox.acknowledge(&payload.idempotency_key));
    assert!(outbox.next_pending().is_none());
    assert_eq!(
        outbox.snapshot(),
        MetadataOutboxSnapshot {
            total: 1,
            pending: 0,
            acknowledged: 1,
            failed: 0,
            queued_pending: 0,
        }
    );
}

#[test]
fn ipto_write_payload_round_trips_through_codec() {
    let payload = sample_payload();

    let decoded = IptoWritePayload::decode(&payload.encode()).unwrap();

    assert_eq!(decoded, payload);
}

#[test]
fn ipto_write_payload_round_trips_through_segment_record() {
    let payload = sample_payload();
    let file = segment_of(&[payload.encode()]);

    let mut reader = SegmentReader::open(file).unwrap();
    let record = reader.read_next().unwrap().unwrap();
    let decoded = IptoWritePayload::decode(&record.payload).unwrap();

    assert_eq!(decoded, payload);
}

#[test]
fn segment_backed_outbox_persists_before_pending_delivery() {
    let mut file = SegmentWriter::header();
    let payload = sample_payload();
    let mut outbox = SegmentBackedMetadataOutbox::create("outbox.seg", SegmentId::from("outbox-segment-a"), NodeId::from("node-a"));

    let result = enqueue_durable(&mut file, &mut outbox, payload.clone());
    assert!(matches!(
        result,
        DurableOutboxEnqueueResult::Enqueued { .. }
    ));
    let DurableOutboxEnqueueResult::Enqueued { offset } = result else {
        unreachable!("duplicate checked above")
    };
    assert_eq!(
        enqueue_durable(&mut file, &mut outbox, payload.clone()),
        DurableOutboxEnqueueResult::Duplicate
    );
    assert_eq!(outbox.outbox().len(), 1);
    assert_eq!(
        outbox.outbox().next_pending().unwrap().record_offset(),
        Some(offset)
    );
    let snapshot = outbox.snapshot();
    assert_eq!(snapshot.outbox.pending, 1);
    assert_eq!(snapshot.segment.record_count, 1);
    assert!(outbox.outbox_mut().acknowledge(&payload.idempotency_key));
    let checkpoint = outbox
        .acknowledged_checkpoint(
            DataIndividualShardId(42),
            &payload.target,
            CheckpointEpoch(1),
        )
        .unwrap();
    assert_eq!(checkpoint.segment_id, SegmentId::from("outbox-segment-a"));
    assert_eq!(checkpoint.last_acknowledged_offset, offset);
    assert_eq!(checkpoint.mapping_version, "v1");
    outbox.seal();

    let replayed = replay_metadata_outbox_segment(file).unwrap();
    let pending = replayed.next_pending().unwrap();
    assert_eq!(pending.payload(), &payload);
    assert_eq!(pending.record_offset(), Some(offset));
}

#[test]
fn checkpoint_stops_before_what_is_still_to_be_delivered() {
    let mut file = SegmentWriter::header();
    let mut outbox = SegmentBackedMetadataOutbox::create("outbox.seg", SegmentId::from("outbox-segment-c"), NodeId::from("node-a"));
    let mut payloads = Vec::new();
    let mut offsets = Vec::new();
    for (number, target) in ["ipto-a", "ipto-a", "ipto-b", "ipto-a"].iter().enumerate() {
        let mut payload = sample_payload();
        payload.idempotency_key = IdempotencyKey::from(format!("data-{number}:event").as_str());
        payload.target = IptoInstanceId::from(*target);
        let DurableOutboxEnqueueResult::Enqueued { offset } = enqueue_durable(&mut file, &mut outbox, payload.clone())
        else {
            unreachable!("every key is new")
        };
        payloads.push(payload);
        offsets.push(offset);
    }
    let target = IptoInstanceId::from("ipto-a");
    let checkpoint = |outbox: &SegmentBackedMetadataOutbox| {
        outbox
            .acknowledged_checkpoint(DataIndividualShardId(42), &target, CheckpointEpoch(1))
            .map(|checkpoint| checkpoint.last_acknowledged_offset)
    };

    // The first entry is still pending, so nothing can be left behind.
    assert!(outbox.outbox_mut().acknowledge(&payloads[1].idempotency_key));
    assert!(outbox.outbox_mut().acknowledge(&payloads[3].idempotency_key));
    assert_eq!(checkpoint(&outbox), None);

    // An entry for another target keeps the last one from being passed.
    assert!(outbox.outbox_mut().acknowledge(&payloads[0].idempotency_key));
    assert_eq!(checkpoint(&outbox), Some(offsets[1]));
    let replayed = replay_metadata_outbox_segment_after(file.clone(), checkpoint(&outbox)).unwrap();
    assert_eq!(replayed.outbox.next_pending().unwrap().payload(), &payloads[2]);

    assert!(outbox.outbox_mut().acknowledge(&payloads[2].idempotency_key));
    assert_eq!(checkpoint(&outbox), Some(offsets[3]));
}

#[test]
fn damaged_payloads_are_refused() {
    let bytes = sample_payload().encode();
    for length in 0..bytes.len() {
        assert_eq!(IptoWritePayload::decode(&bytes[..length]), Err(IptoPayloadDecodeError::UnexpectedEof));
    }
    let mut longer = bytes.clone();
    longer.extend([0, 1, 2]);
    assert_eq!(IptoWritePayload::decode(&longer), Err(IptoPayloadDecodeError::TrailingBytes(3)));
    let mut other = sample_payload();
    other.mapping_version = String::from("v2");
    assert_ne!(other.encode(), bytes);
}

#[test]
fn replay_after_checkpoint_skips_acknowledged_offsets() {
    let mut file = SegmentWriter::header();
    let first = sample_payload();
    let mut second = sample_payload();
    second.idempotency_key = IdempotencyKey::from("data-2:metadata-event-2");
    let mut outbox = SegmentBackedMetadataOutbox::create("outbox.seg", SegmentId::from("outbox-segment-b"), NodeId::from("node-a"));

    let DurableOutboxEnqueueResult::Enqueued {
        offset: first_offset,
    } = enqueue_durable(&mut file, &mut outbox, first.clone())
    else {
        unreachable!("first payload should be new")
    };
    let DurableOutboxEnqueueResult::Enqueued {
        offset: second_offset,
    } = enqueue_durable(&mut file, &mut outbox, second.clone())
    else {
        unreachable!("second payload should be new")
    };
    outbox.seal();

    let replayed = replay_metadata_outbox_segment_after(file, Some(first_offset)).unwrap();
    let pending = replayed.outbox.next_pending().unwrap();

    assert_eq!(pending.payload(), &second);
    assert_eq!(pending.record_offset(), Some(second_offset));
    assert_eq!(replayed.outbox.snapshot().total, 1);
    assert_eq!(
        replayed.summary,
        MetadataOutboxReplaySummary {
            checkpoint_offset: Some(first_offset),
            scanned_records: 2,
            skipped_records: 1,
            replayed_records: 1,
        }
    );
}

#[test]
fn segment_backed_outbox_recovers_pending_entries_and_appends() {
    let mut file = SegmentWriter::header();
    let first = sample_payload();
    let mut second = sample_payload();
    second.idempotency_key = IdempotencyKey::from("data-2:metadata-event-2");

    let first_offset = {
        let mut outbox = SegmentBackedMetadataOutbox::create("outbox.seg", SegmentId::from("recover-segment"), NodeId::from("node-a"));
        let DurableOutboxEnqueueResult::Enqueued {
            offset: first_offset,
        } = enqueue_durable(&mut file, &mut outbox, first.clone())
        else {
            unreachable!("first payload should be new")
        };
        enqueue_durable(&mut file, &mut outbox, second.clone());
        assert!(outbox.outbox_mut().acknowledge(&first.idempotency_key));
        first_offset
    };

    let recovery = SegmentBackedMetadataOutbox::recover_after(
        file.clone(),
        "outbox.seg",
        SegmentId::from("recover-segment"),
        NodeId::from("node-a"),
        Some(first_offset),
    )
    .unwrap();
    assert_eq!(
        recovery.summary,
        MetadataOutboxReplaySummary {
            checkpoint_offset: Some(first_offset),
            scanned_records: 2,
            skipped_records: 1,
            replayed_records: 1,
        }
    );
    assert_eq!(recovery.outbox.outbox().snapshot().pending, 1);
    assert_eq!(recovery.outbox.manifest().record_count, 2);

    let mut recovered = recovery.outbox;
    let mut third = sample_payload();
    third.idempotency_key = IdempotencyKey::from("data-3:metadata-event-3");
    enqueue_durable(&mut file, &mut recovered, third);
    assert_eq!(recovered.manifest().record_count, 3);
    recovered.seal();

    let replayed = replay_metadata_outbox_segment(file).unwrap();
    assert_eq!(replayed.snapshot().total, 3);
}

#[test]
fn outbox_delivery_acknowledges_successful_ipto_write() {
    let payload = sample_payload();
    let mut outbox = MetadataOutbox::new();
    assert_eq!(
        outbox.enqueue(payload.clone()),
        OutboxEnqueueResult::Enqueued
    );
    let mut writer = RecordingWriter::default();

    let result = deliver_next_pending(&mut outbox, &mut writer);

    assert_eq!(
        result,
        MetadataOutboxDeliveryResult::Acknowledged {
            idempotency_key: payload.idempotency_key.clone()
        }
    );
    assert_eq!(writer.written, vec![payload]);
    assert!(outbox.next_pending().is_none());
}

#[test]
fn outbox_delivery_marks_failed_write_and_continues_to_later_pending() {
    let first = sample_payload();
    let mut second = sample_payload();
    second.idempotency_key = IdempotencyKey::from("data-2:metadata-event-2");
    let mut outbox = MetadataOutbox::new();
    assert_eq!(outbox.enqueue(first.clone()), OutboxEnqueueResult::Enqueued);
    assert_eq!(
        outbox.enqueue(second.clone()),
        OutboxEnqueueResult::Enqueued
    );
    let mut failing_writer = RecordingWriter::retryable_failure("ipto unavailable");

    let result = deliver_next_pending(&mut outbox, &mut failing_writer);

    assert_eq!(
        result,
        MetadataOutboxDeliveryResult::Failed {
            idempotency_key: first.idempotency_key.clone(),
            retryable: true,
            message: String::from("ipto unavailable"),
        }
    );
    assert_eq!(outbox.next_pending().unwrap().payload(), &second);
    assert_eq!(
        outbox.snapshot(),
        MetadataOutboxSnapshot {
            total: 2,
            pending: 1,
            acknowledged: 0,
            failed: 1,
            queued_pending: 1,
        }
    );

    assert!(outbox.retry_failed(&first.idempotency_key));
    assert_eq!(outbox.next_pending().unwrap().payload(), &second);
}

#[test]
fn outbox_drain_respects_max_attempts() {
    let first = sample_payload();
    let mut second = sample_payload();
    second.idempotency_key = IdempotencyKey::from("data-2:metadata-event-2");
    let mut outbox = MetadataOutbox::new();
    assert_eq!(outbox.enqueue(first.clone()), OutboxEnqueueResult::Enqueued);
    assert_eq!(
        outbox.enqueue(second.clone()),
        OutboxEnqueueResult::Enqueued
    );
    let mut writer = RecordingWriter::default();

    let summary = drain_pending_outbox(&mut outbox, &mut writer, 1);

    assert_eq!(
        summary,
        MetadataOutboxDrainSummary {
            attempted: 1,
            acknowledged: 1,
            failed: 0,
            stopped_after_failure: false,
        }
    );
    assert_eq!(writer.written, vec![first]);
    assert_eq!(outbox.next_pending().unwrap().payload(), &second);
}

#[test]
fn outbox_drain_stops_after_retryable_failure() {
    let first = sample_payload();
    let mut second = sample_payload();
    second.idempotency_key = IdempotencyKey::from("data-2:metadata-event-2");
    let mut outbox = MetadataOutbox::new();
    assert_eq!(outbox.enqueue(first.clone()), OutboxEnqueueResult::Enqueued);
    assert_eq!(
        outbox.enqueue(second.clone()),
        OutboxEnqueueResult::Enqueued
    );
    let mut writer =
        RecordingWriter::with_failures(vec![IptoWriteError::retryable("ipto unavailable")]);

    let summary = drain_pending_outbox(&mut outbox, &mut writer, 10);

    assert_eq!(
        summary,
        MetadataOutboxDrainSummary {
            attempted: 1,
            acknowledged: 0,
            failed: 1,
            stopped_after_failure: true,
        }
    );
    assert!(writer.written.is_empty());
    assert_eq!(outbox.next_pending().unwrap().payload(), &second);
}

#[test]
fn replay_for_shard_range_filters_by_shard_id() {
    let in_range = sample_payload();
    let mut out_of_range = sample_payload();
    out_of_range.idempotency_key = IdempotencyKey::from("other:event");
    out_of_range.shard_id = DataIndividualShardId(999);

    let file = segment_of(&[in_range.encode(), out_of_range.encode()]);

    let replayed = replay_metadata_outbox_segment_for_shard_range(
        file,
        DataIndividualShardId(0),
        DataIndividualShardId(100),
    )
    .unwrap();

    assert_eq!(replayed.len(), 1);
    assert_eq!(
        replayed.next_pending().unwrap().payload().shard_id,
        DataIndividualShardId(42)
    );
}

#[test]
fn rebalance_shard_range_to_delivers_only_matching_entries() {
    let in_range = sample_payload();
    let mut out_of_range = sample_payload();
    out_of_range.idempotency_key = IdempotencyKey::from("other:event");
    out_of_range.shard_id = DataIndividualShardId(999);

    let file = segment_of(&[in_range.encode(), out_of_range.encode()]);

    let mut writer = RecordingWriter::default();

    let summary = rebalance_shard_range_to(
        file,
        DataIndividualShardId(0),
        DataIndividualShardId(100),
        &mut writer,
        10,
    )
    .unwrap();

    assert_eq!(summary.entries_found, 1);
    assert_eq!(summary.acknowledged, 1);
    assert_eq!(summary.failed, 0);
    assert_eq!(writer.written.len(), 1);
    assert_eq!(writer.written[0].shard_id, DataIndividualShardId(42));
}

#[derive(Default)]
struct RecordingWriter {
    written: Vec<IptoWritePayload>,
    failures: VecDeque<IptoWriteError>,
}

impl RecordingWriter {
    fn retryable_failure(message: &str) -> Self {
        Self::with_failures(vec![IptoWriteError::retryable(message)])
    }

    fn with_failures(failures: Vec<IptoWriteError>) -> Self {
        Self {
            written: Vec::new(),
            failures: failures.into(),
        }
    }
}

impl IptoWriter for RecordingWriter {
    fn write(&mut self, payload: &IptoWritePayload) -> Result<(), IptoWriteError> {
        if let Some(error) = self.failures.pop_front() {
            return Err(error);
        }
        self.written.push(payload.clone());
        Ok(())
    }
}

fn sample_event() -> DataIndividualMetadataEvent {
    DataIndividualMetadataEvent::new(
        MetadataEventId::from("metadata-event-1"),
        DataIndividualId::from("data-1"),
        DataIndividualShardId(42),
        TenantId::from("tenant-a"),
        EnvironmentId::from("prod"),
        PipelineId::from("pipeline-a"),
        ProcessInstanceId::from("instance-a"),
        EventTimestamp::from("2026-06-30T12:00:00Z"),
        MetadataOperation::Received,
    )
}

fn sample_payload() -> IptoWritePayload {
    let event = sample_event()
        .with_passive_metadata(
            PassiveMetadata::new()
                .insert("metadata.source_system", MetadataValue::string("orders"))
                .insert("metadata.size_bytes", MetadataValue::Integer(128))
                .insert(
                    "metadata.received_at",
                    MetadataValue::Timestamp(EventTimestamp::from("2026-06-30T12:00:00Z")),
                ),
        )
        .with_active_metadata(ActiveMetadata::new().insert(
            "mask.customer.email",
            MetadataValue::StringList(vec![String::from("customer.email")]),
        ));
    let mapping = IptoMapping::new("v1")
        .map_field("metadata.source_system", "attr:provenance.source_system")
        .map_field("metadata.size_bytes", "attr:provenance.size_bytes")
        .map_field("metadata.received_at", "attr:provenance.received_at")
        .map_field("mask.customer.email", "attr:provenance.masked_field");

    IptoWritePayload::from_event(&event, &IptoInstanceId::from("ipto-a"), &mapping)
}

/// A segment with the given records.
fn segment_of(records: &[Vec<u8>]) -> Vec<u8> {
    let mut writer = SegmentWriter::create("a.seg", SegmentId::from("segment-a"), NodeId::from("node-a"));
    let mut file = SegmentWriter::header();
    for record in records {
        file.extend(writer.frame_record(record).unwrap());
        writer.append_record(record).unwrap();
    }
    file
}

/// Makes a payload durable in an outbox whose file is kept in memory.
fn enqueue_durable(
    file: &mut Vec<u8>,
    outbox: &mut SegmentBackedMetadataOutbox,
    payload: IptoWritePayload,
) -> DurableOutboxEnqueueResult {
    if let Some(frame) = outbox.frame_payload(&payload).unwrap() {
        file.extend(frame);
    }
    let result = outbox.enqueue_durable(payload).unwrap();
    assert_eq!(outbox.manifest().byte_len, file.len() as u64);
    result
}
