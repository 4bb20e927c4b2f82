//! The consumer and the ingest boundary.

use vannak::cluster::NodeId;
use vannak::event_codec::{encode_pipeline_event, ProcessEventDecodeError};
use vannak::ingest::{EventId, EventTimestamp, PipelineEvent, SourceId, SourceSequence};
use vannak::journal::ProcessEventJournal;
use vannak::kafka_client::{
    DurgaCompatibilityState, DurgaEventRecord, KafkaClientError, KafkaPayloadFormat, KafkaProcessConsumer,
    KafkaProcessConsumerConfig, KafkaRebalanceEvent, KafkaRebalanceState, MetadataRefRecord, PollStep, Polled,
    RebalanceNotice, SubmitStep,
};
use vannak::kafka_ingest::{
    settle_pending, settle_record, submit_kafka_process_record, submit_pending, try_submit_kafka_pending_record,
    KafkaIngestError, KafkaOffset, KafkaPendingRecord, KafkaProcessRecord, KafkaSubmitOutcome, KafkaTopicPartition,
};
use vannak::process::{
    EnvironmentId, EventKind, PipelineId, ProcessDefinitionId, ProcessInstanceId, TenantId,
};
use vannak::runtime::{LogicalShardId, QueuedIngestOutcome, RuntimeError};
use vannak::sitas_runtime::{SitasRuntimeConfig, SitasRuntimeError, SitasShardRuntime};
use vannak::storage::{RecordOffset, SegmentId};

#[test]
fn consumer_config_rejects_missing_required_fields() {
    assert!(matches!(
        KafkaProcessConsumerConfig::new("", "group", vec![String::from("topic")]).validate(),
        Err(KafkaClientError::InvalidConfig(_))
    ));
    assert!(matches!(
        KafkaProcessConsumerConfig::new("localhost:9092", "", vec![String::from("topic")]).validate(),
        Err(KafkaClientError::InvalidConfig(_))
    ));
    assert!(matches!(
        KafkaProcessConsumerConfig::new("localhost:9092", "group", Vec::<String>::new())
            .validate(),
        Err(KafkaClientError::InvalidConfig(_))
    ));
}

#[test]
fn durga_json_payload_decodes_to_pipeline_event() {
    let config = KafkaProcessConsumerConfig::new("localhost:9092", "group", vec![String::from("topic-a")])
        .with_payload_format(KafkaPayloadFormat::DurgaJson)
        .with_durga_context(
            SourceId::from("durga-kafka"),
            TenantId::from("tenant-a"),
            EnvironmentId::from("prod"),
        );
    let mut compat = DurgaCompatibilityState::default();
    let event = decode(&config, "process-events-demo",
            42,
            br#"{
                "processInstanceId": "instance-a",
                "processId": "pipeline-a",
                "activityId": "extract",
                "tokenId": "token-1",
                "correlationId": "corr-1",
                "payload": {"data": "value"},
                "status": "STARTED",
                "eventType": "ACTIVITY_ENTERED",
                "processVersion": "v1",
                "businessKey": "business-1",
                "timestamp": "2026-06-30T10:00:00Z"
            }"#,
            &mut compat,
        )
        .unwrap();

    assert_eq!(
        event.source_id().as_str(),
        "durga-kafka:process-events-demo"
    );
    assert_eq!(event.source_sequence().0, 42);
    assert_eq!(event.pipeline_id().as_str(), "pipeline-a");
    assert_eq!(event.process_instance_id().as_str(), "instance-a");
    assert_eq!(event.activity_id().unwrap().as_str(), "extract");
    assert_eq!(event.payload().unwrap(), r#"{"data":"value"}"#);
}

#[test]
fn rebalance_state_records_assignment_and_revocation() {
    let mut state = KafkaRebalanceState::default();
    let assigned = vec![KafkaTopicPartition::new("topic-a", 0), KafkaTopicPartition::new("topic-a", 1)];

    state.record_pre_rebalance(RebalanceNotice::Assign(assigned.clone()));
    state.record_post_rebalance(&RebalanceNotice::Assign(assigned));

    let snapshot = state.snapshot();
    assert_eq!(snapshot.pre_rebalance_count, 1);
    assert_eq!(snapshot.post_rebalance_count, 1);
    assert_eq!(snapshot.assignment_count, 1);
    assert_eq!(
        snapshot.assigned_partitions,
        vec![
            KafkaTopicPartition::new("topic-a", 0),
            KafkaTopicPartition::new("topic-a", 1)
        ]
    );
    assert_eq!(
        snapshot.last_event,
        Some(KafkaRebalanceEvent::Assigned(vec![
            KafkaTopicPartition::new("topic-a", 0),
            KafkaTopicPartition::new("topic-a", 1)
        ]))
    );

    state.record_pre_rebalance(RebalanceNotice::Revoke(vec![KafkaTopicPartition::new("topic-a", 1)]));

    let snapshot = state.snapshot();
    assert_eq!(snapshot.revocation_count, 1);
    assert_eq!(
        snapshot.assigned_partitions,
        vec![KafkaTopicPartition::new("topic-a", 0)]
    );
    assert_eq!(
        state.take_unhandled_revoked(),
        vec![KafkaTopicPartition::new("topic-a", 1)]
    );
    assert!(state.take_unhandled_revoked().is_empty());
}

#[test]
fn durga_json_unknown_status_parsed_tolerantly_and_tracked() {
    let config = KafkaProcessConsumerConfig::new("localhost:9092", "group", vec![String::from("topic-a")])
        .with_payload_format(KafkaPayloadFormat::DurgaJson)
        .with_durga_context(
            SourceId::from("durga-kafka"),
            TenantId::from("tenant-a"),
            EnvironmentId::from("prod"),
        );
    let mut compat = DurgaCompatibilityState::default();
    let _event = decode(&config, "topic-a",
            1,
            br#"{
                "processInstanceId": "instance-a",
                "processId": "pipeline-a",
                "status": "PENDING",
                "eventType": "ACTIVITY_ENTERED",
                "timestamp": "2026-06-30T10:00:00Z"
            }"#,
            &mut compat,
        )
        .unwrap();

    let snapshot = compat.snapshot();
    assert!(
        snapshot
            .unknown_status_values
            .iter()
            .any(|(val, _)| val == "PENDING"),
        "PENDING should be tracked as unknown status"
    );
}

#[test]
fn durga_json_unknown_event_type_parsed_tolerantly_and_tracked() {
    let config = KafkaProcessConsumerConfig::new("localhost:9092", "group", vec![String::from("topic-a")])
        .with_payload_format(KafkaPayloadFormat::DurgaJson)
        .with_durga_context(
            SourceId::from("durga-kafka"),
            TenantId::from("tenant-a"),
            EnvironmentId::from("prod"),
        );
    let mut compat = DurgaCompatibilityState::default();
    let _event = decode(&config, "topic-a",
            1,
            br#"{
                "processInstanceId": "instance-a",
                "processId": "pipeline-a",
                "status": "STARTED",
                "eventType": "CUSTOM_TASK_STARTED",
                "timestamp": "2026-06-30T10:00:00Z"
            }"#,
            &mut compat,
        )
        .unwrap();

    let snapshot = compat.snapshot();
    assert!(
        snapshot
            .unknown_event_type_values
            .iter()
            .any(|(val, _)| val == "CUSTOM_TASK_STARTED"),
        "CUSTOM_TASK_STARTED should be tracked as unknown event type"
    );
}

#[test]
fn durga_json_unknown_values_accumulate_counts() {
    let config = KafkaProcessConsumerConfig::new("localhost:9092", "group", vec![String::from("topic-a")])
        .with_payload_format(KafkaPayloadFormat::DurgaJson)
        .with_durga_context(
            SourceId::from("durga-kafka"),
            TenantId::from("tenant-a"),
            EnvironmentId::from("prod"),
        );
    let mut compat = DurgaCompatibilityState::default();

    decode(&config, "topic-a",
            1,
            br#"{
                "processInstanceId": "instance-a",
                "processId": "pipeline-a",
                "status": "PENDING",
                "eventType": "ACTIVITY_ENTERED",
                "timestamp": "2026-06-30T10:00:00Z"
            }"#,
            &mut compat,
        )
        .unwrap();
    decode(&config, "topic-a",
            2,
            br#"{
                "processInstanceId": "instance-a",
                "processId": "pipeline-a",
                "status": "PENDING",
                "eventType": "ACTIVITY_ENTERED",
                "timestamp": "2026-06-30T10:00:01Z"
            }"#,
            &mut compat,
        )
        .unwrap();

    let snapshot = compat.snapshot();
    let (_, count) = snapshot
        .unknown_status_values
        .iter()
        .find(|(val, _)| val == "PENDING")
        .unwrap();
    assert_eq!(*count, 2, "PENDING should be counted twice");
}

#[test]
fn durga_json_metadata_refs_deserialized() {
    let config = KafkaProcessConsumerConfig::new("localhost:9092", "group", vec![String::from("topic-a")])
        .with_payload_format(KafkaPayloadFormat::DurgaJson)
        .with_durga_context(
            SourceId::from("durga-kafka"),
            TenantId::from("tenant-a"),
            EnvironmentId::from("prod"),
        );
    let mut compat = DurgaCompatibilityState::default();
    let event = decode(&config, "topic-a",
            1,
            br#"{
                "processInstanceId": "instance-a",
                "processId": "pipeline-a",
                "status": "STARTED",
                "eventType": "ACTIVITY_ENTERED",
                "timestamp": "2026-06-30T10:00:00Z",
                "metadataRefs": [
                    {"kind": "dataset", "id": "dataset-a"},
                    {"kind": "schema", "id": "schema-a", "version": "v1"},
                    {"kind": "classification", "id": "pii"}
                ]
            }"#,
            &mut compat,
        )
        .unwrap();

    let refs = event.metadata_refs();
    assert_eq!(
        refs.len(),
        3,
        "all three metadata refs should be parsed"
    );
}

#[test]
fn durga_json_schema_version_deserialized() {
    let config = KafkaProcessConsumerConfig::new("localhost:9092", "group", vec![String::from("topic-a")])
        .with_payload_format(KafkaPayloadFormat::DurgaJson)
        .with_durga_context(
            SourceId::from("durga-kafka"),
            TenantId::from("tenant-a"),
            EnvironmentId::from("prod"),
        );
    let mut compat = DurgaCompatibilityState::default();
    let event = decode(&config, "topic-a",
            1,
            br#"{
                "processInstanceId": "instance-a",
                "processId": "pipeline-a",
                "status": "STARTED",
                "eventType": "ACTIVITY_ENTERED",
                "timestamp": "2026-06-30T10:00:00Z",
                "schemaVersion": "2.1.0"
            }"#,
            &mut compat,
        )
        .unwrap();

    // Verify the event decoded successfully (schema version tracked internally)
    assert_eq!(event.pipeline_id().as_str(), "pipeline-a");
}

#[test]
fn empty_compatibility_state_produces_empty_snapshot() {
    let compat = DurgaCompatibilityState::default();
    let snapshot = compat.snapshot();
    assert!(snapshot.unknown_status_values.is_empty());
    assert!(snapshot.unknown_event_type_values.is_empty());
}

fn text(value: &serde_json::Value, field: &str) -> Option<String> {
    value.get(field).and_then(|v| v.as_str()).map(String::from)
}

fn required(value: &serde_json::Value, field: &str) -> Result<String, String> {
    text(value, field).ok_or_else(|| format!("missing field `{field}`"))
}

/// The event that a JSON text carries.
fn carried(json: &[u8]) -> Result<DurgaEventRecord, String> {
    let value: serde_json::Value = serde_json::from_slice(json).map_err(|e| e.to_string())?;
    let mut metadata_refs = Vec::new();
    if let Some(refs) = value.get("metadataRefs").and_then(|v| v.as_array()) {
        for item in refs {
            metadata_refs.push(MetadataRefRecord {
                kind: required(item, "kind")?,
                id: required(item, "id")?,
                version: text(item, "version"),
            });
        }
    }
    Ok(DurgaEventRecord {
        process_instance_id: required(&value, "processInstanceId")?,
        process_id: required(&value, "processId")?,
        activity_id: text(&value, "activityId"),
        token_id: text(&value, "tokenId"),
        correlation_id: text(&value, "correlationId"),
        payload: value.get("payload").map(|payload| payload.to_string()),
        status: required(&value, "status")?,
        error: None,
        event_type: required(&value, "eventType")?,
        process_version: text(&value, "processVersion"),
        business_key: text(&value, "businessKey"),
        timestamp: required(&value, "timestamp")?,
        schema_version: text(&value, "schemaVersion"),
        metadata_refs,
    })
}

fn decode(
    config: &KafkaProcessConsumerConfig,
    topic: &str,
    offset: i64,
    payload: &[u8],
    compat: &mut DurgaCompatibilityState,
) -> Result<PipelineEvent, KafkaClientError> {
    config.decode_event(topic, offset, payload, carried(payload), compat)
}

// ---------------------------------------------------------------------------
// The consumer
// ---------------------------------------------------------------------------

fn event(event_id: &str, instance_id: &str) -> PipelineEvent {
    PipelineEvent::new(
        EventId::from(event_id),
        SourceId::from("durga"),
        SourceSequence(1),
        TenantId::from("tenant-a"),
        EnvironmentId::from("prod"),
        PipelineId::from("pipeline-a"),
        ProcessDefinitionId::from("definition-a"),
        ProcessInstanceId::from(instance_id),
        EventTimestamp::from("2026-06-30T10:00:00Z"),
        EventKind::ProcessStarted,
    )
}

fn message(offset: i64, event_id: &str) -> Polled {
    Polled::Message {
        topic: String::from("topic-a"),
        partition: 3,
        offset,
        payload: Some(encode_pipeline_event(&event(event_id, "instance-a"))),
        durga: Err(String::from("not JSON")),
    }
}

fn queue_full() -> SitasRuntimeError {
    SitasRuntimeError::Runtime(RuntimeError::QueueFull { shard_id: LogicalShardId(0), capacity: 1 })
}

fn queued() -> QueuedIngestOutcome {
    QueuedIngestOutcome { shard_id: LogicalShardId(0), queued_depth: 1, capacity: 1 }
}

fn consumer() -> KafkaProcessConsumer {
    KafkaProcessConsumer::start(KafkaProcessConsumerConfig::new(
        "localhost:9092",
        "group",
        vec![String::from("topic-a")],
    ))
    .unwrap()
}

#[test]
fn consumer_waits_pauses_and_commits() {
    let mut consumer = consumer();
    let partition = KafkaTopicPartition::new("topic-a", 3);
    assert_eq!(consumer.begin_poll(&vec![]).unwrap(), PollStep::Poll);
    assert!(!consumer.take_message(Polled::Nothing).unwrap());
    assert!(consumer.begin_submit().is_none());
    assert!(consumer.take_message(message(41, "event-1")).unwrap());

    // No room: the record waits and its partition is paused, once.
    let pending = consumer.begin_submit().unwrap();
    assert_eq!(pending.offset(), KafkaOffset(41));
    let step = consumer.after_submit(pending, Err(queue_full())).unwrap();
    assert_eq!(step, SubmitStep::Wait { pause: Some(partition.clone()) });
    assert_eq!(consumer.begin_poll(&vec![]).unwrap(), PollStep::Submit);
    let pending = consumer.begin_submit().unwrap();
    assert_eq!(consumer.after_submit(pending, Err(queue_full())).unwrap(), SubmitStep::Wait { pause: None });
    let snapshot = consumer.snapshot(KafkaRebalanceState::new().snapshot());
    assert_eq!(snapshot.pending_records, 1);
    assert_eq!(snapshot.pending_partitions, vec![partition.clone()]);
    assert_eq!(snapshot.paused_partitions, vec![partition.clone()]);

    // Room: the partition is resumed, the offset committed, and only then is it accepted.
    let pending = consumer.begin_submit().unwrap();
    let step = consumer.after_submit(pending, Ok(queued())).unwrap();
    let SubmitStep::Commit { outcome, resume } = step else {
        panic!("the record was taken");
    };
    assert_eq!(resume, Some(partition));
    assert_eq!(outcome.next_commit_offset, KafkaOffset(42));
    let failed = consumer.after_commit(
        KafkaSubmitOutcome {
            topic_partition: outcome.topic_partition.clone(),
            offset: outcome.offset,
            next_commit_offset: outcome.next_commit_offset,
            journal_offset: None,
            queued: queued(),
        },
        Err(String::from("broker is gone")),
    );
    assert_eq!(failed.unwrap_err().describe(), "Kafka offset commit failed: broker is gone");
    assert_eq!(consumer.snapshot(KafkaRebalanceState::new().snapshot()).total_accepted, 0);
    assert!(consumer.after_commit(outcome, Ok(())).is_ok());
    let snapshot = consumer.snapshot(KafkaRebalanceState::new().snapshot());
    assert_eq!(snapshot.total_accepted, 1);
    assert_eq!(snapshot.total_polled, 1);
    assert!(snapshot.paused_partitions.is_empty());
    assert_eq!(consumer.begin_poll(&vec![]).unwrap(), PollStep::Poll);
}

#[test]
fn consumer_reports_what_goes_wrong() {
    let mut consumer = consumer();
    let error = consumer.take_message(Polled::Failed(String::from("timed out"))).unwrap_err();
    assert_eq!(error.describe(), "timed out");
    let error = consumer
        .take_message(Polled::Message {
            topic: String::from("topic-a"),
            partition: 0,
            offset: 7,
            payload: None,
            durga: Err(String::new()),
        })
        .unwrap_err();
    assert_eq!(error, KafkaClientError::MissingPayload);
    assert_eq!(error.describe(), "Kafka process-event record has no payload");
    let error = consumer
        .take_message(Polled::Message {
            topic: String::from("topic-a"),
            partition: 0,
            offset: 7,
            payload: Some(b"not an event".to_vec()),
            durga: Err(String::new()),
        })
        .unwrap_err();
    assert!(matches!(error, KafkaClientError::Decode(ProcessEventDecodeError::InvalidMagic)));
    assert_eq!(consumer.snapshot(KafkaRebalanceState::new().snapshot()).total_polled, 3);

    assert!(consumer.take_message(message(9, "event-9")).unwrap());
    let pending = consumer.begin_submit().unwrap();
    let error = consumer.after_submit(pending, Err(SitasRuntimeError::WorkersRunning)).unwrap_err();
    assert!(matches!(error, KafkaClientError::Ingest(KafkaIngestError::Runtime(SitasRuntimeError::WorkersRunning))));
    assert_eq!(consumer.begin_poll(&vec![]).unwrap(), PollStep::Poll);
}

#[test]
fn consumer_gives_up_when_a_pending_partition_is_revoked() {
    let mut consumer = consumer();
    assert!(consumer.take_message(message(9, "event-9")).unwrap());
    let pending = consumer.begin_submit().unwrap();
    consumer.after_submit(pending, Err(queue_full())).unwrap();
    let error = consumer.begin_poll(&vec![KafkaTopicPartition::new("topic-a", 3)]).unwrap_err();
    assert_eq!(
        error.describe(),
        "Kafka partition topic-a:3 was revoked with uncommitted pending offset 9"
    );
    assert!(consumer.snapshot(KafkaRebalanceState::new().snapshot()).paused_partitions.is_empty());
}

#[test]
fn consumer_settings_leave_commits_to_the_consumer() {
    let config = KafkaProcessConsumerConfig::new("b:1", "g", vec![String::from("t")])
        .with_auto_offset_reset("earliest")
        .with_partition_eof(true);
    let consumer = KafkaProcessConsumer::start(config).unwrap();
    let expected: Vec<(String, String)> = [
        ("bootstrap.servers", "b:1"),
        ("group.id", "g"),
        ("enable.auto.commit", "false"),
        ("auto.offset.reset", "earliest"),
        ("enable.partition.eof", "true"),
    ]
    .iter()
    .map(|(a, b)| (String::from(*a), String::from(*b)))
    .collect();
    assert_eq!(consumer.client_settings(), expected);
}

#[test]
fn payload_format_names_are_read_back() {
    for format in [KafkaPayloadFormat::VannakBinary, KafkaPayloadFormat::DurgaJson] {
        assert_eq!(KafkaPayloadFormat::parse(format.as_str()), Some(format));
    }
    assert_eq!(KafkaPayloadFormat::parse("csv"), None);
}

#[test]
fn negative_offsets_count_as_zero_and_broken_json_is_reported() {
    let config = KafkaProcessConsumerConfig::new("b:1", "g", vec![String::from("t")])
        .with_payload_format(KafkaPayloadFormat::DurgaJson);
    let mut compat = DurgaCompatibilityState::new();
    let json = br#"{"processInstanceId":"i","processId":"p","status":"Started","eventType":"ProcessStarted","timestamp":"2026-06-30T10:00:00Z"}"#;
    let event = decode(&config, "t", -5, json, &mut compat).unwrap();
    assert_eq!(event.source_sequence(), SourceSequence(0));
    let error = config.decode_event("t", 1, b"{", Err(String::from("EOF")), &mut compat).unwrap_err();
    assert_eq!(error.describe(), "Durga JSON payload decode failed: EOF");
    assert!(compat.snapshot().unknown_status_values.is_empty());
}

// ---------------------------------------------------------------------------
// The ingest boundary
// ---------------------------------------------------------------------------

#[test]
fn kafka_record_is_journaled_then_fed_to_sitas_mailbox() {
    let runtime = SitasShardRuntime::start(SitasRuntimeConfig::new(2, 8)).unwrap();
    let mut journal =
        ProcessEventJournal::create("kafka.seg", SegmentId::from("segment-17"), NodeId::from("node-a"));
    let record = KafkaProcessRecord::new(
        KafkaTopicPartition::new("process-events-demo", 3),
        KafkaOffset(41),
        event("event-1", "instance-a"),
    );

    let outcome = submit_kafka_process_record(&runtime, Some(&mut journal), record.clone()).unwrap();

    assert_eq!(outcome.topic_partition, record.topic_partition);
    assert_eq!(outcome.offset, KafkaOffset(41));
    assert_eq!(outcome.next_commit_offset, KafkaOffset(42));
    assert!(outcome.journal_offset.is_some());
    assert!(outcome.queued.queued_depth <= outcome.queued.capacity);
    assert_eq!(outcome.queued.shard_id, runtime.shard_for_process_instance(record.event.process_instance_id()));
    assert_eq!(journal.manifest().record_count, 1);

    let summaries = runtime.drain_all(8).unwrap();
    assert_eq!(summaries.iter().map(|s| s.accepted).sum::<usize>(), 1);
    assert_eq!(runtime.snapshot().unwrap().runtime.totals.event_count, 1);
    runtime.stop().unwrap();
}

#[test]
fn pending_kafka_record_reuses_journal_offset_after_backpressure() {
    let runtime = SitasShardRuntime::start(SitasRuntimeConfig::new(1, 1)).unwrap();
    let mut journal =
        ProcessEventJournal::create("kafka.seg", SegmentId::from("segment-18"), NodeId::from("node-a"));

    runtime.try_submit(event("event-1", "instance-a")).expect("first event fills the mailbox");
    let mut pending = KafkaPendingRecord::new(KafkaProcessRecord::new(
        KafkaTopicPartition::new("process-events-demo", 3),
        KafkaOffset(42),
        event("event-2", "instance-a"),
    ));

    assert!(try_submit_kafka_pending_record(&runtime, Some(&mut journal), &mut pending).unwrap().is_none());
    let first_journal_offset = pending.journal_offset().unwrap();
    assert!(try_submit_kafka_pending_record(&runtime, Some(&mut journal), &mut pending).unwrap().is_none());
    assert_eq!(pending.journal_offset(), Some(first_journal_offset));
    assert_eq!(journal.manifest().record_count, 1);

    let summary = runtime.drain_shard(LogicalShardId(0), 1).unwrap();
    assert_eq!(summary.accepted, 1);
    let outcome =
        try_submit_kafka_pending_record(&runtime, Some(&mut journal), &mut pending).unwrap().unwrap();

    assert_eq!(outcome.offset, KafkaOffset(42));
    assert_eq!(outcome.journal_offset, Some(first_journal_offset));
    runtime.stop().unwrap();
}

#[test]
fn records_are_settled_by_what_their_shard_answers() {
    let record = KafkaProcessRecord::new(
        KafkaTopicPartition::new("process-events-demo", 3),
        KafkaOffset(7),
        event("event-1", "instance-a"),
    );
    let outcome = settle_record(record.clone(), Some(RecordOffset(8)), Ok(queued())).unwrap();
    assert_eq!((outcome.offset, outcome.next_commit_offset), (KafkaOffset(7), KafkaOffset(8)));
    assert_eq!((outcome.journal_offset, outcome.queued), (Some(RecordOffset(8)), queued()));
    assert!(matches!(settle_record(record.clone(), None, Err(queue_full())), Err(KafkaIngestError::Runtime(_))));

    let pending = KafkaPendingRecord::new(record);
    assert!(settle_pending(&pending, Err(queue_full())).unwrap().is_none());
    assert_eq!(settle_pending(&pending, Ok(queued())).unwrap().unwrap().queued, queued());
    assert!(matches!(
        settle_pending(&pending, Err(SitasRuntimeError::Stopped)),
        Err(KafkaIngestError::Runtime(SitasRuntimeError::Stopped))
    ));
}

#[test]
fn consumer_hands_the_record_in_front_to_its_shard() {
    let runtime = SitasShardRuntime::start(SitasRuntimeConfig::new(1, 1)).unwrap();
    let mut journal =
        ProcessEventJournal::create("kafka.seg", SegmentId::from("segment-19"), NodeId::from("node-a"));
    let invalid = KafkaProcessRecord::new(
        KafkaTopicPartition::new("process-events-demo", 0),
        KafkaOffset(1),
        event("", "instance-a"),
    );
    assert!(matches!(
        submit_kafka_process_record(&runtime, Some(&mut journal), invalid.clone()),
        Err(KafkaIngestError::Journal(_))
    ));
    assert!(matches!(
        submit_pending(&runtime, &KafkaPendingRecord::new(invalid)),
        Err(KafkaIngestError::Runtime(SitasRuntimeError::Ingest(_)))
    ));

    let pending = KafkaPendingRecord::new(KafkaProcessRecord::new(
        KafkaTopicPartition::new("process-events-demo", 0),
        KafkaOffset(2),
        event("event-2", "instance-a"),
    ));
    let mut consumer = consumer();
    assert!(matches!(
        consumer.submit(&runtime, pending.clone()).unwrap(),
        SubmitStep::Commit { resume: None, .. }
    ));
    assert!(matches!(consumer.submit(&runtime, pending).unwrap(), SubmitStep::Wait { pause: Some(_) }));
    runtime.stop().unwrap();
}

#[test]
fn last_offset_has_no_next_one() {
    assert_eq!(KafkaOffset(i64::MAX).next_commit_offset(), KafkaOffset(i64::MAX));
    assert_eq!(KafkaOffset(0).next_commit_offset(), KafkaOffset(1));
}
