//! Vannak: an operational knowledge plane for data pipelines.
//!
//! The library holds the domain layer: typed process events, metadata references,
//! process-state reduction and a hot index; the journal, the metadata outbox and their
//! segments; placement and the control state of the cluster; and the decisions of the
//! daemon and of its consumers. What touches files or the network is left to the program
//! around it, which hands plain values in and takes plain values back.

pub mod background_writer;
pub mod checkpoint;
pub mod cli;
pub mod cluster;
pub mod control_error;
pub mod daemon;
pub mod data;
pub mod discovery;
pub mod durable_outbox;
pub mod durga;
pub mod event_codec;
pub mod exchange;
pub mod fanout;
pub mod hash;
pub mod http;
pub mod index;
pub mod ingest;
pub mod ipto;
pub mod ipto_adapter;
pub mod journal;
pub mod json;
pub mod kafka_client;
pub mod kafka_ingest;
pub mod load;
pub mod metadata;
pub mod observability;
pub mod ordered;
pub mod outbox;
pub mod peers;
pub mod placement;
pub mod process;
pub mod query;
pub mod query_json;
pub mod raft_sm;
pub mod rebalance;
pub mod runtime;
pub mod service;
pub mod shard_runtime;
pub mod shards;
pub mod sitas_runtime;
pub mod storage;
pub mod text;
pub mod timestamp;
pub mod wire;

pub use background_writer::{BackgroundWriterConfig, BackgroundWriterSnapshot};
pub use cluster::{
    CheckpointEpoch, CheckpointManifest, ClusterControlCommand, ClusterControlError, ClusterControlState,
    IptoPlacementMap, IptoPlacementRange, IptoPlacementRing, IptoPlacementSlot, LeaseEpoch, MetadataOutboxCheckpoint,
    NodeId, PlacementEpoch, WriterLease,
};
pub use daemon::{Daemon, DaemonConfig, DaemonSnapshot};
pub use data::{
    ActiveMetadata, DataIndividualId, DataIndividualMetadataEvent, DataIndividualShardId, DataProvenanceIndex,
    DataProvenanceIndexSnapshot, DataProvenanceIngestOutcome, IdempotencyKey, MetadataEventId, MetadataFieldName,
    MetadataOperation, MetadataValue, PassiveMetadata, PayloadRef, PluginName, PluginVersion,
};
pub use discovery::{discover_segments, SegmentDiscoveryResult};
pub use event_codec::ProcessEventDecodeError;
pub use index::{HotIndex, IngestOutcome};
pub use ingest::{EventId, EventTimestamp, IngestError, PipelineEvent, SourceId, SourceSequence};
pub use ipto::{
    deliver_next_pending, deliver_next_pending_for_target, drain_pending_outbox, drain_pending_outbox_for_target,
    rebalance_shard_range_to, replay_metadata_outbox_segment, replay_metadata_outbox_segment_after,
    replay_metadata_outbox_segment_for_shard_range, DurableOutboxEnqueueResult, IptoAttributeName, IptoInstanceId,
    IptoMapping, IptoPayloadDecodeError, IptoWriteError, IptoWritePayload, IptoWriter, MetadataOutbox,
    MetadataOutboxDeliveryResult, MetadataOutboxDrainSummary, MetadataOutboxEntry, MetadataOutboxRebalanceSummary,
    MetadataOutboxReplay, MetadataOutboxReplaySummary, MetadataOutboxSnapshot, MetadataOutboxStorageError,
    OutboxEnqueueResult, OutboxStatus, SegmentBackedMetadataOutbox, SegmentBackedMetadataOutboxRecovery,
    SegmentBackedMetadataOutboxSnapshot,
};
pub use journal::{
    replay_process_event_segment, JournaledPipelineEvent, ProcessEventJournal, ProcessEventJournalError,
    ProcessEventJournalRecovery, ProcessEventReplay, ProcessEventReplaySummary,
};
pub use kafka_client::{
    KafkaClientError, KafkaPayloadFormat, KafkaProcessConsumer, KafkaProcessConsumerConfig,
    KafkaProcessConsumerSnapshot, KafkaRebalanceEvent, KafkaRebalanceSnapshot,
};
pub use kafka_ingest::{
    submit_kafka_process_record, try_submit_kafka_pending_record, KafkaIngestError, KafkaOffset, KafkaPendingRecord,
    KafkaProcessRecord, KafkaSubmitOutcome, KafkaTopicPartition,
};
pub use metadata::{
    ClassificationId, DataContractId, DatasetId, FieldId, LineageEdgeId, MetadataObjectId, MetadataRef,
    MetadataVersion, OwnerId, PipelineDefinitionId, SchemaId,
};
pub use process::{
    ActivityId, ActivityState, BusinessKey, CorrelationId, EnvironmentId, ErrorInfo, EventKind, EventStatus,
    PipelineId, ProcessDefinitionId, ProcessInstanceId, ProcessInstanceSnapshot, ProcessInstanceState, ProcessStatus,
    ProcessVersion, TenantId, TokenId,
};
pub use query::{
    ActivityMetadataQuery, DataIndividualMetadataQuery, EventQuery, ImpactQuery, PipelineQuery, ProcessInstanceQuery,
    ProcessMetadataQuery, ProcessStatusQuery, QueryLimit, QueryResult, TimeRangeQuery,
};
pub use runtime::{
    BoundedIngestRuntime, BoundedIngestRuntimeSnapshot, IngestDrainSummary, IngestQueueSnapshot, LogicalShardId,
    QueuedIngestOutcome, RuntimeError, ShardIngestOutcome, ShardLocalRuntime, ShardRuntimeSnapshot, ShardSnapshot,
};
pub use service::{
    DurableProcessIngestResult, MetadataCaptureResult, VannakService, VannakServiceError, VannakServiceRecovery,
    VannakServiceSnapshot,
};
pub use sitas_runtime::{
    SitasMailboxSnapshot, SitasRuntimeConfig, SitasRuntimeError, SitasRuntimeSnapshot, SitasShardRuntime,
};
pub use storage::{
    RecordOffset, SegmentError, SegmentId, SegmentManifest, SegmentReader, SegmentRecord, SegmentWriter,
};
