//! The codec of process events and the journal that keeps them.

use vannak::cluster::NodeId;
use vannak::event_codec::{decode_pipeline_event, encode_pipeline_event, ProcessEventDecodeError};
use vannak::ingest::{EventId, EventTimestamp, PipelineEvent, SourceId, SourceSequence};
use vannak::journal::{replay_process_event_segment, ProcessEventJournal, ProcessEventJournalError};
use vannak::metadata::{DatasetId, FieldId, MetadataRef, MetadataVersion, PipelineDefinitionId};
use vannak::process::{
    ActivityId, BusinessKey, CorrelationId, EnvironmentId, ErrorInfo, EventKind, EventStatus, PipelineId,
    ProcessDefinitionId, ProcessInstanceId, ProcessVersion, TenantId, TokenId,
};
use vannak::storage::{RecordOffset, SegmentId, SegmentWriter};

#[test]
fn process_event_codec_round_trips_full_event() {
    let event = pipeline_event("event-1", EventKind::ActivityCompleted)
        .with_status(EventStatus::Completed)
        .with_process_version(ProcessVersion::from("v3"))
        .with_activity_id(ActivityId::from("load"))
        .with_token_id(TokenId::from("token-1"))
        .with_correlation_id(CorrelationId::from("corr-1"))
        .with_business_key(BusinessKey::from("customer-42"))
        .with_error(ErrorInfo::new("late input", Some("E_LATE".to_string())))
        .with_metadata_refs(vec![
            MetadataRef::Dataset(DatasetId::from("customer-data")),
            MetadataRef::PipelineDefinition {
                id: PipelineDefinitionId::from("pipe-def"),
                version: Some(MetadataVersion::from("2026-06")),
            },
            MetadataRef::Field(FieldId::from("email")),
        ])
        .with_metadata_version(MetadataVersion::from("mv-7"))
        .with_causal_parent(EventId::from("event-0"))
        .with_payload("{\"records\":10}");

    let decoded = decode_pipeline_event(&encode_pipeline_event(&event)).unwrap();

    assert_eq!(decoded, event);
}

#[test]
fn process_event_journal_replays_events_and_reopens_for_append() {
    let mut file = SegmentWriter::header();
    let first = pipeline_event("event-1", EventKind::ProcessStarted);
    let second = pipeline_event("event-2", EventKind::ProcessCompleted);
    let third = pipeline_event("event-3", EventKind::ProcessFailed);

    let mut journal = ProcessEventJournal::create(
        "process-journal.seg",
        SegmentId::from("process-segment-a"),
        NodeId::from("node-a"),
    );
    let first_offset = append(&mut file, &mut journal, &first);
    append(&mut file, &mut journal, &second);
    drop(journal);

    let recovery = ProcessEventJournal::recover(
        file.clone(),
        "process-journal.seg",
        SegmentId::from("process-segment-a"),
        NodeId::from("node-a"),
    )
    .unwrap();
    assert_eq!(recovery.replay.summary.scanned_records, 2);
    assert_eq!(recovery.replay.events[0].offset, first_offset);
    assert_eq!(recovery.replay.events[0].event, first);
    assert_eq!(recovery.replay.events[1].event, second);

    let mut journal = recovery.journal;
    append(&mut file, &mut journal, &third);
    assert_eq!(journal.manifest().record_count, 3);
    drop(journal);

    let replay = replay_process_event_segment(file).unwrap();
    assert_eq!(replay.summary.replayed_records, 3);
    assert_eq!(replay.events[2].event, third);
}

#[test]
fn process_event_replay_rejects_invalid_payload() {
    let mut file = SegmentWriter::header();
    let writer = SegmentWriter::create("process-journal-invalid.seg", SegmentId::from("segment-a"), NodeId::from("node-a"));
    file.extend(writer.frame_record(b"not-a-process-event").unwrap());

    let error = replay_process_event_segment(file).unwrap_err();

    assert!(matches!(
        error,
        ProcessEventJournalError::Decode(ProcessEventDecodeError::InvalidMagic)
    ));
}

#[test]
fn process_event_codec_round_trips_unknown_event_kind() {
    let event = PipelineEvent::new(
        EventId::from("event-unknown"),
        SourceId::from("durga"),
        SourceSequence(1),
        TenantId::from("tenant-a"),
        EnvironmentId::from("prod"),
        PipelineId::from("pipeline-a"),
        ProcessDefinitionId::from("definition-a"),
        ProcessInstanceId::from("instance-a"),
        EventTimestamp::from("2026-06-30T10:00:00Z"),
        EventKind::Unknown("CUSTOM_ACTION".to_string()),
    );
    let encoded = encode_pipeline_event(&event);
    let decoded = decode_pipeline_event(&encoded).unwrap();
    assert_eq!(decoded.event_id(), event.event_id());
    assert_eq!(
        decoded.kind(),
        EventKind::Unknown("CUSTOM_ACTION".to_string())
    );
}

fn pipeline_event(event_id: &str, kind: EventKind) -> PipelineEvent {
    PipelineEvent::new(
        EventId::from(event_id),
        SourceId::from("durga"),
        SourceSequence(11),
        TenantId::from("tenant-a"),
        EnvironmentId::from("prod"),
        PipelineId::from("pipeline-a"),
        ProcessDefinitionId::from("definition-a"),
        ProcessInstanceId::from("instance-a"),
        EventTimestamp::from("2026-06-30T10:00:00Z"),
        kind,
    )
}

/// Makes an event durable in a journal whose file is kept in memory.
fn append(file: &mut Vec<u8>, journal: &mut ProcessEventJournal, event: &PipelineEvent) -> RecordOffset {
    let frame = journal.frame_event(event).unwrap();
    let start = file.len() as u64;
    file.extend(frame);
    let offset = journal.append_durable(event).unwrap();
    assert_eq!(offset, RecordOffset(start));
    assert_eq!(journal.manifest().byte_len, file.len() as u64);
    offset
}

#[test]
fn damaged_events_are_refused() {
    let event = pipeline_event("event-1", EventKind::Unknown("CUSTOM_ACTION".to_string()))
        .with_error(ErrorInfo::new("late input", Some("E_LATE".to_string())))
        .with_metadata_refs(vec![
            MetadataRef::Dataset(DatasetId::from("customer-data")),
            MetadataRef::PipelineDefinition {
                id: PipelineDefinitionId::from("pipe-def"),
                version: Some(MetadataVersion::from("2026-06")),
            },
        ])
        .with_payload("{}");
    let bytes = encode_pipeline_event(&event);
    for length in 0..bytes.len() {
        assert_eq!(decode_pipeline_event(&bytes[..length]), Err(ProcessEventDecodeError::UnexpectedEof));
    }
    let mut longer = bytes.clone();
    longer.extend([7, 7]);
    assert_eq!(decode_pipeline_event(&longer), Err(ProcessEventDecodeError::TrailingBytes { remaining: 2 }));
    for i in 0..4 {
        let mut other = bytes.clone();
        other[i] ^= 1;
        assert_eq!(decode_pipeline_event(&other), Err(ProcessEventDecodeError::InvalidMagic));
    }
}

#[test]
fn fractions_of_a_second_count_as_tenths_hundredths_and_thousandths() {
    let start = EventTimestamp::from("2026-06-30T10:00:00Z");
    for (later, millis) in [
        ("2026-06-30T10:00:00.5Z", 500),
        ("2026-06-30T10:00:00.05Z", 50),
        ("2026-06-30T10:00:00.25Z", 250),
        ("2026-06-30T10:00:00.005Z", 5),
        ("2026-06-30T10:00:01.123Z", 1_123),
        ("2026-06-30T10:00:00.123456Z", 123),
        ("2026-06-30T10:00:00.Z", 0),
    ] {
        assert_eq!(start.saturating_duration_until(&EventTimestamp::from(later)), millis, "{later}");
    }
}
