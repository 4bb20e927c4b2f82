//! The adapter for Ipto repositories, and the way of metadata from events to units.

use std::collections::BTreeSet;
use vannak::data::{
    ActiveMetadata, DataIndividualId, DataIndividualMetadataEvent, DataIndividualShardId, IdempotencyKey,
    MetadataEventId, MetadataOperation, MetadataValue, PassiveMetadata, PluginName, PluginVersion,
};
use vannak::index::{HotIndex, IngestOutcome};
use vannak::ingest::{EventId, EventTimestamp, PipelineEvent, SourceId, SourceSequence};
use vannak::ipto::{
    deliver_next_pending, IptoAttributeName, IptoInstanceId, IptoMapping, IptoWriteError, IptoWritePayload,
    IptoWriter, MetadataOutbox, MetadataOutboxDeliveryResult, OutboxEnqueueResult,
};
use vannak::ipto_adapter::{schema_attribute, IptoRepoWriter, IptoUnit, WriteStep, SCHEMA_ATTRIBUTE_COUNT};
use vannak::ordered::SortedMap;
use vannak::placement::{IptoPlacementMap, IptoPlacementSlot, PlacementEpoch};
use vannak::process::{
    ActivityId, EnvironmentId, EventKind, PipelineId, ProcessDefinitionId, ProcessInstanceId, ProcessStatus, TenantId,
};
use vannak::query::{EventQuery, ProcessInstanceQuery, QueryLimit, QueryResult};

#[test]
fn corrid_is_deterministic() {
    let writer = IptoRepoWriter::new(1);
    let key = IdempotencyKey::from("data-1:metadata-event-1");

    let a = writer.corrid_for_key(&key);
    let b = writer.corrid_for_key(&key);
    assert_eq!(a, b);
    assert_eq!(a.len(), 36);
    assert!(a.contains('-'));
}

#[test]
fn corrid_differs_for_different_keys() {
    let writer = IptoRepoWriter::new(1);
    let a = writer.corrid_for_key(&IdempotencyKey::from("data-1:event-1"));
    let b = writer.corrid_for_key(&IdempotencyKey::from("data-1:event-2"));
    assert_ne!(a, b);
}

/// Two hashes of a key, one behind a seed, in the form of a UUID.
fn expected_corrid(key: &IdempotencyKey) -> String {
    let mut state: u64 = 0xcbf2_9ce4_8422_2325;
    for byte in key.as_str().as_bytes() {
        state ^= u64::from(*byte);
        state = state.wrapping_mul(0x0000_0100_0000_01b3);
    }
    let hi = {
        let mut s = 0xcbf2_9ce4_8422_2325u64;
        s ^= 1u64;
        s = s.wrapping_mul(0x0000_0100_0000_01b3);
        for byte in key.as_str().as_bytes() {
            s ^= u64::from(*byte);
            s = s.wrapping_mul(0x0000_0100_0000_01b3);
        }
        s
    };
    format!(
        "{:08x}-{:04x}-{:04x}-{:04x}-{:012x}",
        (hi >> 32) as u32,
        (hi >> 16) as u32 & 0xFFFF,
        0x7000 | (hi as u32 & 0x0FFF),
        0x8000 | (state as u32 >> 16 & 0x3FFF),
        state & 0xFFFF_FFFF,
    )
}

#[test]
fn build_unit_payload_resolves_known_attributes() {
    let mut writer = IptoRepoWriter::new(1);

    writer.learn_attribute(IptoAttributeName::from("rdfs:label"), 10);

    let unit = writer.build_unit_payload(&payload(&[("rdfs:label", "test-label")]));
    assert_eq!(unit.attributes.len(), 1);
    assert_eq!(unit.attributes[0].attr_id, 10);
    assert_eq!(unit.attributes[0].value, MetadataValue::String(String::from("test-label")));
}

#[test]
fn build_unit_payload_passes_over_unknown_attributes() {
    let mut writer = IptoRepoWriter::new(7);
    writer.learn_attribute(IptoAttributeName::from("rdfs:label"), 10);
    let payload = payload(&[("rdfs:comment", "a comment"), ("rdfs:label", "a label")]);
    let unit = writer.build_unit_payload(&payload);
    assert_eq!(unit.tenant_id, 7);
    assert_eq!(unit.status, 30);
    assert_eq!(unit.corrid, writer.corrid_for_key(&payload.idempotency_key));
    assert_eq!(unit.attributes.len(), 1);
    assert_eq!(unit.attributes[0].value, MetadataValue::String(String::from("a label")));
}

fn payload(attributes: &[(&str, &str)]) -> IptoWritePayload {
    let mut map = SortedMap::new();
    for (name, value) in attributes {
        map.insert(IptoAttributeName::from(*name), MetadataValue::String(String::from(*value)));
    }
    IptoWritePayload {
        target: IptoInstanceId::from("ignored"),
        shard_id: DataIndividualShardId(0),
        idempotency_key: IdempotencyKey::from("test"),
        mapping_version: String::from("v1"),
        attributes: map,
    }
}

#[test]
fn writer_refuses_to_write_before_the_schema_is_configured() {
    let writer = IptoRepoWriter::new(1);
    let WriteStep::Fail { error } = writer.begin_write(&payload(&[])) else {
        panic!("the schema is not configured");
    };
    assert!(!error.is_retryable());
    assert!(error.message().contains("SDL not configured"));
}

#[test]
fn schema_is_configured_up_to_the_first_failure() {
    let mut writer = IptoRepoWriter::new(1);
    let numbers: Vec<Result<Option<i64>, String>> = (0..SCHEMA_ATTRIBUTE_COUNT).map(|i| Ok(Some(i as i64))).collect();
    let error = writer.configure_sdl(Err(String::from("no connection")), &numbers).unwrap_err();
    assert!(error.is_retryable());
    assert_eq!(error.message(), "SDL configuration failed: no connection");

    let mut broken = numbers.clone();
    broken[9] = Err(String::from("no connection"));
    let error = writer.configure_sdl(Ok(()), &broken).unwrap_err();
    assert_eq!(error.message(), "attribute lookup failed: no connection");
    assert!(matches!(writer.begin_write(&payload(&[])), WriteStep::Fail { .. }));

    let mut partial = numbers;
    partial[8] = Ok(None);
    let mut fresh = IptoRepoWriter::new(1);
    fresh.configure_sdl(Ok(()), &partial).unwrap();
    let unit = fresh.build_unit_payload(&payload(&[("rdfs:label", "l"), ("rdfs:comment", "c")]));
    assert_eq!(unit.attributes.len(), 1);
    assert_eq!(unit.attributes[0].attr_id, 9);
    assert_eq!(schema_attribute(9), Some("rdfs:comment"));
    assert_eq!(schema_attribute(SCHEMA_ATTRIBUTE_COUNT), None);
}

#[test]
fn failures_of_the_repository_can_be_retried() {
    let mut writer = IptoRepoWriter::new(1);
    writer.configure_sdl(Ok(()), &vec![Ok(None); SCHEMA_ATTRIBUTE_COUNT]).unwrap();
    let payload = payload(&[]);
    let WriteStep::Fail { error } = writer.after_lookup(&payload, Err(String::from("timeout"))) else {
        panic!("the lookup failed");
    };
    assert!(error.is_retryable());
    assert_eq!(error.message(), "corrid lookup failed: timeout");
    let WriteStep::Fail { error } = writer.after_store(Err(String::from("timeout"))) else {
        panic!("the unit was not stored");
    };
    assert_eq!(error.message(), "store unit failed: timeout");
    assert_eq!(writer.after_store(Ok(())), WriteStep::Done);
}

/// A writer to a repository in memory.
struct MemoryWriter {
    adapter: IptoRepoWriter,
    units: Vec<IptoUnit>,
    known: BTreeSet<String>,
}

impl MemoryWriter {
    fn new() -> Self {
        let mut adapter = IptoRepoWriter::new(1);
        let numbers = (0..SCHEMA_ATTRIBUTE_COUNT).map(|i| Ok(Some(i as i64))).collect();
        adapter.configure_sdl(Ok(()), &numbers).expect("SDL configuration should succeed");
        MemoryWriter { adapter, units: Vec::new(), known: BTreeSet::new() }
    }
}

impl IptoWriter for MemoryWriter {
    fn write(&mut self, payload: &IptoWritePayload) -> Result<(), IptoWriteError> {
        let mut step = self.adapter.begin_write(payload);
        loop {
            step = match step {
                WriteStep::LookUp { corrid } => {
                    self.adapter.after_lookup(payload, Ok(self.known.contains(&corrid)))
                }
                WriteStep::Store { unit } => {
                    self.known.insert(unit.corrid.clone());
                    self.units.push(unit);
                    self.adapter.after_store(Ok(()))
                }
                WriteStep::Done => return Ok(()),
                WriteStep::Fail { error } => return Err(error),
            };
        }
    }
}

fn build_durga_pipeline_events() -> Vec<PipelineEvent> {
    let tenant = TenantId::from("tenant-a");
    let env = EnvironmentId::from("prod");
    let pipeline = PipelineId::from("data-pipeline-demo");
    let definition = ProcessDefinitionId::from("data-pipeline-demo");
    let instance = ProcessInstanceId::from("customer-pipeline-run-001");
    let source = SourceId::from("durga-monitor");

    vec![
        // Process start
        PipelineEvent::new(
            EventId::from("evt-001"),
            source.clone(),
            SourceSequence(1),
            tenant.clone(),
            env.clone(),
            pipeline.clone(),
            definition.clone(),
            instance.clone(),
            EventTimestamp::from("2026-06-30T10:00:00.000Z"),
            EventKind::ProcessStarted,
        ),
        // Transform activity enter
        PipelineEvent::new(
            EventId::from("evt-002"),
            source.clone(),
            SourceSequence(2),
            tenant.clone(),
            env.clone(),
            pipeline.clone(),
            definition.clone(),
            instance.clone(),
            EventTimestamp::from("2026-06-30T10:00:01.000Z"),
            EventKind::ActivityEntered,
        )
        .with_activity_id(ActivityId::from("transform_data")),
        // Transform activity complete
        PipelineEvent::new(
            EventId::from("evt-003"),
            source.clone(),
            SourceSequence(3),
            tenant.clone(),
            env.clone(),
            pipeline.clone(),
            definition.clone(),
            instance.clone(),
            EventTimestamp::from("2026-06-30T10:00:03.500Z"),
            EventKind::ActivityCompleted,
        )
        .with_activity_id(ActivityId::from("transform_data")),
        // Filter activity enter
        PipelineEvent::new(
            EventId::from("evt-004"),
            source.clone(),
            SourceSequence(4),
            tenant.clone(),
            env.clone(),
            pipeline.clone(),
            definition.clone(),
            instance.clone(),
            EventTimestamp::from("2026-06-30T10:00:04.000Z"),
            EventKind::ActivityEntered,
        )
        .with_activity_id(ActivityId::from("filter_fields")),
        // Filter activity complete
        PipelineEvent::new(
            EventId::from("evt-005"),
            source.clone(),
            SourceSequence(5),
            tenant.clone(),
            env.clone(),
            pipeline.clone(),
            definition.clone(),
            instance.clone(),
            EventTimestamp::from("2026-06-30T10:00:05.200Z"),
            EventKind::ActivityCompleted,
        )
        .with_activity_id(ActivityId::from("filter_fields")),
        // Enrich activity enter
        PipelineEvent::new(
            EventId::from("evt-006"),
            source.clone(),
            SourceSequence(6),
            tenant.clone(),
            env.clone(),
            pipeline.clone(),
            definition.clone(),
            instance.clone(),
            EventTimestamp::from("2026-06-30T10:00:06.000Z"),
            EventKind::ActivityEntered,
        )
        .with_activity_id(ActivityId::from("enrich_data")),
        // Enrich activity complete
        PipelineEvent::new(
            EventId::from("evt-007"),
            source,
            SourceSequence(7),
            tenant.clone(),
            env.clone(),
            pipeline.clone(),
            definition.clone(),
            instance.clone(),
            EventTimestamp::from("2026-06-30T10:00:08.800Z"),
            EventKind::ActivityCompleted,
        )
        .with_activity_id(ActivityId::from("enrich_data")),
        // Process complete
        PipelineEvent::new(
            EventId::from("evt-008"),
            SourceId::from("durga-monitor"),
            SourceSequence(8),
            tenant,
            env,
            pipeline,
            definition,
            instance,
            EventTimestamp::from("2026-06-30T10:00:09.000Z"),
            EventKind::ProcessCompleted,
        ),
    ]
}

fn build_metadata_events() -> Vec<DataIndividualMetadataEvent> {
    let tenant = TenantId::from("tenant-a");
    let env = EnvironmentId::from("prod");
    let pipeline = PipelineId::from("data-pipeline-demo");
    let instance = ProcessInstanceId::from("customer-pipeline-run-001");

    let data_id = DataIndividualId::from("customer-record-42");
    let shard_id = DataIndividualShardId::from_data_individual(&data_id);

    vec![
        // Received: raw customer data ingested
        DataIndividualMetadataEvent::new(
            MetadataEventId::from("meta-001"),
            data_id.clone(),
            shard_id,
            tenant.clone(),
            env.clone(),
            pipeline.clone(),
            instance.clone(),
            EventTimestamp::from("2026-06-30T10:00:00.500Z"),
            MetadataOperation::Received,
        )
        .with_passive_metadata(
            PassiveMetadata::new()
                .insert("vannak:dataIndividualId", MetadataValue::string("customer-record-42"))
                .insert("vannak:pipelineId", MetadataValue::string("data-pipeline-demo"))
                .insert("vannak:processInstanceId", MetadataValue::string("customer-pipeline-run-001"))
                .insert("vannak:tenantId", MetadataValue::string("tenant-a"))
                .insert("vannak:environmentId", MetadataValue::string("prod")),
        ),

        // Transformed: name, email, data.amount extracted
        DataIndividualMetadataEvent::new(
            MetadataEventId::from("meta-002"),
            data_id.clone(),
            shard_id,
            tenant.clone(),
            env.clone(),
            pipeline.clone(),
            instance.clone(),
            EventTimestamp::from("2026-06-30T10:00:03.500Z"),
            MetadataOperation::Transformed {
                plugin_name: Some(PluginName::from("json-transform")),
                plugin_version: Some(PluginVersion::from("1.0")),
            },
        )
        .with_activity_id(ActivityId::from("transform_data"))
        .with_active_metadata(
            ActiveMetadata::new()
                .insert("vannak:activityId", MetadataValue::string("transform_data")),
        ),

        // Validated: schema check passed
        DataIndividualMetadataEvent::new(
            MetadataEventId::from("meta-003"),
            data_id.clone(),
            shard_id,
            tenant.clone(),
            env.clone(),
            pipeline.clone(),
            instance.clone(),
            EventTimestamp::from("2026-06-30T10:00:05.200Z"),
            MetadataOperation::Validated { passed: true },
        )
        .with_activity_id(ActivityId::from("filter_fields"))
        .with_passive_metadata(
            PassiveMetadata::new()
                .insert("vannak:activityId", MetadataValue::string("filter_fields")),
        ),

        // Enriched: KV lookup by email
        DataIndividualMetadataEvent::new(
            MetadataEventId::from("meta-004"),
            data_id.clone(),
            shard_id,
            tenant,
            env,
            pipeline,
            instance,
            EventTimestamp::from("2026-06-30T10:00:08.800Z"),
            MetadataOperation::Enriched {
                source: Some(String::from("crm-lookup")),
            },
        )
        .with_activity_id(ActivityId::from("enrich_data"))
        .with_active_metadata(
            ActiveMetadata::new()
                .insert("vannak:activityId", MetadataValue::string("enrich_data")),
        ),
    ]
}

// ---------------------------------------------------------------------------
// Integration tests
// ---------------------------------------------------------------------------

#[test]
fn full_ingest_index_outbox_ipto_flow() {
    // --- 1. Configure the writer ---
    let mut writer = MemoryWriter::new();

    // --- 2. Ingest Durga process events into HotIndex ---
    let mut hot_index = HotIndex::new();
    let pipeline_events = build_durga_pipeline_events();

    for event in &pipeline_events {
        let outcome = hot_index.ingest(event.clone()).expect("ingest should succeed");
        assert!(
            matches!(outcome, IngestOutcome::Accepted),
            "event {} should be accepted",
            event.event_id().as_str()
        );
    }

    // --- 3. Verify HotIndex process state ---
    let process = hot_index
        .process_instance(&ProcessInstanceQuery {
            process_instance_id: ProcessInstanceId::from("customer-pipeline-run-001"),
        })
        .expect("process instance should exist");

    assert_eq!(process.status, ProcessStatus::Completed);
    assert_eq!(process.pipeline_id, PipelineId::from("data-pipeline-demo"));
    assert_eq!(process.started_at.as_ref().map(|t| t.as_str()), Some("2026-06-30T10:00:00.000Z"));

    // Activity durations should be computed
    let transform_dur = process.activity_durations.get(&ActivityId::from("transform_data"));
    assert!(transform_dur.is_some(), "transform_data duration should be computed");
    assert!(*transform_dur.unwrap() > 0);

    let enrich_dur = process.activity_durations.get(&ActivityId::from("enrich_data"));
    assert!(enrich_dur.is_some(), "enrich_data duration should be computed");

    // --- 4. Verify HotIndex event query ---
    let events = hot_index.events(&EventQuery {
        process_instance_id: ProcessInstanceId::from("customer-pipeline-run-001"),
        limit: QueryLimit::new(20),
    });
    if let QueryResult::Events(evts) = events {
        assert_eq!(evts.len(), 8, "all 8 process events should be queryable");
    } else {
        panic!("expected Events result");
    }

    // --- 5. Build Ipto write payloads from metadata events ---
    let metadata_events = build_metadata_events();
    let mut outbox = MetadataOutbox::new();

    let mapping = IptoMapping::new("v1")
        .map_field("vannak:dataIndividualId", "vannak:dataIndividualId")
        .map_field("vannak:pipelineId", "vannak:pipelineId")
        .map_field("vannak:processInstanceId", "vannak:processInstanceId")
        .map_field("vannak:tenantId", "vannak:tenantId")
        .map_field("vannak:environmentId", "vannak:environmentId")
        .map_field("vannak:activityId", "vannak:activityId");

    // Create a placement map for the write payloads
    let placement = IptoPlacementMap::new(
        PlacementEpoch(1),
        vec![IptoPlacementSlot::new(
            IptoInstanceId::from("unused"),
            1,
        )
        .unwrap()],
        vec![],
    )
    .unwrap();

    for event in &metadata_events {
        let target = placement.resolve(event.data_individual_shard_id()).expect("payload construction should succeed");
        let payload = IptoWritePayload::from_event(event, target, &mapping);
        assert!(
            matches!(
                outbox.enqueue(payload),
                OutboxEnqueueResult::Enqueued
            ),
            "metadata event {} should enqueue",
            event.metadata_event_id().as_str()
        );
    }

    // --- 6. Deliver outbox entries to Ipto ---
    let snapshot_before = outbox.snapshot();
    assert_eq!(snapshot_before.pending, 4);
    assert_eq!(snapshot_before.total, 4);

    for _ in 0..4 {
        let result = deliver_next_pending(&mut outbox, &mut writer);
        assert!(
            matches!(result, MetadataOutboxDeliveryResult::Acknowledged { .. }),
            "outbox delivery should succeed"
        );
    }

    let snapshot_after = outbox.snapshot();
    assert_eq!(snapshot_after.acknowledged, 4);
    assert_eq!(snapshot_after.pending, 0);

    // --- 7. Verify metadata persisted in Ipto via correlation-id lookup ---
    for event in &metadata_events {
        let corrid = expected_corrid(&event.idempotency_key());

        let unit = writer.units.iter().find(|unit| unit.corrid == corrid);
        assert!(
            unit.is_some(),
            "metadata event {} should be persisted in Ipto (corrid: {})",
            event.metadata_event_id().as_str(),
            corrid,
        );
    }
}

#[test]
fn duplicate_metadata_events_are_idempotent() {
    let mut writer = MemoryWriter::new();

    let tenant = TenantId::from("tenant-a");
    let env = EnvironmentId::from("prod");
    let pipeline = PipelineId::from("pipeline-a");
    let instance = ProcessInstanceId::from("instance-dup");
    let data_id = DataIndividualId::from("customer-dup");
    let shard_id = DataIndividualShardId::from_data_individual(&data_id);

    let event = DataIndividualMetadataEvent::new(
        MetadataEventId::from("meta-dup"),
        data_id,
        shard_id,
        tenant,
        env,
        pipeline,
        instance,
        EventTimestamp::from("2026-06-30T12:00:00Z"),
        MetadataOperation::Received,
    )
    .with_passive_metadata(
        PassiveMetadata::new()
            .insert("vannak:dataIndividualId", MetadataValue::string("customer-dup")),
    );

    let mapping = IptoMapping::new("v1")
        .map_field("vannak:dataIndividualId", "vannak:dataIndividualId");

    let placement = IptoPlacementMap::new(
        PlacementEpoch(1),
        vec![IptoPlacementSlot::new(
            IptoInstanceId::from("unused"),
            1,
        )
        .unwrap()],
        vec![],
    )
    .unwrap();

    let target = placement.resolve(event.data_individual_shard_id()).unwrap();
    let payload = IptoWritePayload::from_event(&event, target, &mapping);

    let held = payload.clone();

    // First write
    let mut outbox = MetadataOutbox::new();
    outbox.enqueue(payload.clone());
    let result = deliver_next_pending(&mut outbox, &mut writer);
    assert!(
        matches!(result, MetadataOutboxDeliveryResult::Acknowledged { .. }),
        "first write should succeed"
    );

    // Second write of the same payload (idempotent)
    outbox.enqueue(payload.clone());
    // Re-enqueue should detect duplicate
    assert!(matches!(
        outbox.enqueue(payload),
        OutboxEnqueueResult::Duplicate
    ));

    // A payload that the repository already holds is acknowledged without another unit.
    let mut other = MetadataOutbox::new();
    other.enqueue(held);
    let result = deliver_next_pending(&mut other, &mut writer);
    assert!(matches!(result, MetadataOutboxDeliveryResult::Acknowledged { .. }));
    assert_eq!(writer.units.len(), 1);
}
