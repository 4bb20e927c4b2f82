//! The process-event consumer: its configuration, the decoding of its records, and what it
//! decides between polls.
//!
//! Where the owning shard has no room, the decoded record stays pending and its partition
//! is paused; when the record is accepted, the partition is resumed and the offset is
//! committed.

use vstd::prelude::*;
use std::collections::VecDeque;
use crate::durga::{pipeline_event_of, DurgaErrorInfo, DurgaEventType, DurgaProcessEvent, DurgaStatus};
use crate::event_codec::{decode_error_text, decode_pipeline_event, parse_event, ProcessEventDecodeError};
use crate::index::one_more;
use crate::ingest::{PipelineEvent, PipelineEventView, SourceId, SourceSequence};
use crate::kafka_ingest::{
    kafka_ingest_error_text, outcome_of, settle_pending, KafkaIngestError, KafkaIngestErrorView,
    KafkaOffset, KafkaPendingRecord, KafkaProcessRecord, KafkaSubmitOutcome, KafkaTopicPartition, PartitionView,
    PendingView, RecordView,
};
use crate::metadata::{
    ClassificationId, DataContractId, DatasetId, FieldId, LineageEdgeId, MetadataObjectId, MetadataRef,
    MetadataRefView, MetadataVersion, OwnerId, PipelineDefinitionId, SchemaId,
};
use crate::observability::DurgaCompatibilitySnapshot;
use crate::ordered::{duplicate_all, opt_view, sorted, views, Duplicate, Key, Rank, SortedMap, SortedSet};
use crate::process::{EnvironmentId, TenantId};
use crate::runtime::QueuedIngestOutcome;
use crate::shard_runtime::{submitted, SitasShardRuntime};
use crate::sitas_runtime::{says_queue_full, SitasRuntimeError};
use crate::text::{blank, is_blank, push_signed, push_text, signed_decimal, str_eq, IntoText};

verus! {

// ---------------------------------------------------------------------------
// Errors
// ---------------------------------------------------------------------------

/// What can go wrong in the consumer; failures of the client and of the JSON parser carry
/// their message.
#[derive(Debug, PartialEq, Eq)]
pub enum KafkaClientError {
    /// The configuration is not valid.
    InvalidConfig(String),
    /// The client failed.
    Kafka(String),
    /// An offset was not committed.
    Commit(String),
    /// A record has no payload.
    MissingPayload,
    /// A payload is not a binary process event.
    Decode(ProcessEventDecodeError),
    /// A payload is not a Durga event in JSON.
    DurgaJson(String),
    /// The journal or the shard did not take the event.
    Ingest(KafkaIngestError),
    /// A partition was revoked while a record of it was pending.
    PendingPartitionRevoked { topic_partition: KafkaTopicPartition, offset: KafkaOffset },
}

/// The view of an error.
pub enum KafkaClientErrorView {
    InvalidConfig(Seq<char>),
    Kafka(Seq<char>),
    Commit(Seq<char>),
    MissingPayload,
    Decode(ProcessEventDecodeError),
    DurgaJson(Seq<char>),
    Ingest(KafkaIngestErrorView),
    PendingPartitionRevoked(PartitionView, i64),
}

impl View for KafkaClientError {
    type V = KafkaClientErrorView;

    open spec fn view(&self) -> KafkaClientErrorView {
        match self {
            KafkaClientError::InvalidConfig(text) => KafkaClientErrorView::InvalidConfig(text@),
            KafkaClientError::Kafka(text) => KafkaClientErrorView::Kafka(text@),
            KafkaClientError::Commit(text) => KafkaClientErrorView::Commit(text@),
            KafkaClientError::MissingPayload => KafkaClientErrorView::MissingPayload,
            KafkaClientError::Decode(e) => KafkaClientErrorView::Decode(*e),
            KafkaClientError::DurgaJson(text) => KafkaClientErrorView::DurgaJson(text@),
            KafkaClientError::Ingest(e) => KafkaClientErrorView::Ingest(e@),
            KafkaClientError::PendingPartitionRevoked { topic_partition, offset } => {
                KafkaClientErrorView::PendingPartitionRevoked(topic_partition@, offset@)
            },
        }
    }
}

/// The text of an error.
pub open spec fn kafka_client_error_text(e: KafkaClientErrorView) -> Seq<char> {
    match e {
        KafkaClientErrorView::InvalidConfig(text) => "invalid Kafka consumer config: "@ + text,
        KafkaClientErrorView::Kafka(text) => text,
        KafkaClientErrorView::Commit(text) => "Kafka offset commit failed: "@ + text,
        KafkaClientErrorView::MissingPayload => "Kafka process-event record has no payload"@,
        KafkaClientErrorView::Decode(e) => decode_error_text(e),
        KafkaClientErrorView::DurgaJson(text) => "Durga JSON payload decode failed: "@ + text,
        KafkaClientErrorView::Ingest(e) => kafka_ingest_error_text(e),
        KafkaClientErrorView::PendingPartitionRevoked(p, offset) => "Kafka partition "@ + p.topic + ":"@
            + signed_decimal(p.partition as int) + " was revoked with uncommitted pending offset "@ + signed_decimal(
            offset as int,
        ),
    }
}

impl KafkaClientError {
    /// The error as a text for an operator.
    pub fn describe(&self) -> (r: String)
        ensures
            r@ == kafka_client_error_text(self@),
    {
        match self {
            KafkaClientError::InvalidConfig(text) => {
                let mut out = "invalid Kafka consumer config: ".to_owned();
                push_text(&mut out, text.as_str());
                out
            },
            KafkaClientError::Kafka(text) => text.clone(),
            KafkaClientError::Commit(text) => {
                let mut out = "Kafka offset commit failed: ".to_owned();
                push_text(&mut out, text.as_str());
                out
            },
            KafkaClientError::MissingPayload => "Kafka process-event record has no payload".to_owned(),
            KafkaClientError::Decode(e) => e.describe(),
            KafkaClientError::DurgaJson(text) => {
                let mut out = "Durga JSON payload decode failed: ".to_owned();
                push_text(&mut out, text.as_str());
                out
            },
            KafkaClientError::Ingest(e) => e.describe(),
            KafkaClientError::PendingPartitionRevoked { topic_partition, offset } => {
                let mut out = "Kafka partition ".to_owned();
                push_text(&mut out, topic_partition.topic());
                push_text(&mut out, ":");
                push_signed(&mut out, topic_partition.partition() as i64);
                push_text(&mut out, " was revoked with uncommitted pending offset ");
                push_signed(&mut out, offset.0);
                out
            },
        }
    }
}

impl From<ProcessEventDecodeError> for KafkaClientError {
    fn from(error: ProcessEventDecodeError) -> (r: Self) {
        KafkaClientError::Decode(error)
    }
}

impl vstd::std_specs::convert::FromSpecImpl<ProcessEventDecodeError> for KafkaClientError {
    open spec fn obeys_from_spec() -> bool {
        true
    }

    open spec fn from_spec(v: ProcessEventDecodeError) -> Self {
        KafkaClientError::Decode(v)
    }
}

impl From<KafkaIngestError> for KafkaClientError {
    fn from(error: KafkaIngestError) -> (r: Self) {
        KafkaClientError::Ingest(error)
    }
}

impl vstd::std_specs::convert::FromSpecImpl<KafkaIngestError> for KafkaClientError {
    open spec fn obeys_from_spec() -> bool {
        true
    }

    open spec fn from_spec(v: KafkaIngestError) -> Self {
        KafkaClientError::Ingest(v)
    }
}

// ---------------------------------------------------------------------------
// Configuration
// ---------------------------------------------------------------------------

/// How the payload of a record is encoded.
#[derive(Debug, Clone, Copy, PartialEq, Eq, Structural)]
pub enum KafkaPayloadFormat {
    /// The binary process-event codec.
    VannakBinary,
    /// Durga's JSON process event.
    DurgaJson,
}

/// The name of a payload format.
pub open spec fn format_name(f: KafkaPayloadFormat) -> Seq<char> {
    match f {
        KafkaPayloadFormat::VannakBinary => "vannak-binary"@,
        KafkaPayloadFormat::DurgaJson => "durga-json"@,
    }
}

/// The payload format with a name.
pub open spec fn named_format(name: Seq<char>) -> Option<KafkaPayloadFormat> {
    if name == format_name(KafkaPayloadFormat::VannakBinary) {
        Some(KafkaPayloadFormat::VannakBinary)
    } else if name == format_name(KafkaPayloadFormat::DurgaJson) {
        Some(KafkaPayloadFormat::DurgaJson)
    } else {
        None
    }
}

impl KafkaPayloadFormat {
    /// The payload format with a name.
    pub fn parse(value: &str) -> (r: Option<Self>)
        ensures
            r == named_format(value@),
    {
        if str_eq(value, "vannak-binary") {
            Some(KafkaPayloadFormat::VannakBinary)
        } else if str_eq(value, "durga-json") {
            Some(KafkaPayloadFormat::DurgaJson)
        } else {
            None
        }
    }

    /// The name of the format.
    pub fn as_str(self) -> (r: &'static str)
        ensures
            r@ == format_name(self),
    {
        match self {
            KafkaPayloadFormat::VannakBinary => "vannak-binary",
            KafkaPayloadFormat::DurgaJson => "durga-json",
        }
    }
}

/// Configuration of the consumer.
#[derive(Debug, PartialEq, Eq)]
pub struct KafkaProcessConsumerConfig {
    brokers: String,
    group_id: String,
    topics: Vec<String>,
    payload_format: KafkaPayloadFormat,
    durga_source_id: SourceId,
    durga_tenant_id: TenantId,
    durga_environment_id: EnvironmentId,
    poll_timeout_millis: u64,
    enable_partition_eof: bool,
    auto_offset_reset: String,
}

/// The view of a configuration.
pub struct ConsumerConfigView {
    pub brokers: Seq<char>,
    pub group_id: Seq<char>,
    pub topics: Seq<Seq<char>>,
    pub payload_format: KafkaPayloadFormat,
    pub durga_source_id: Seq<char>,
    pub durga_tenant_id: Seq<char>,
    pub durga_environment_id: Seq<char>,
    pub poll_timeout_millis: u64,
    pub enable_partition_eof: bool,
    pub auto_offset_reset: Seq<char>,
}

impl View for KafkaProcessConsumerConfig {
    type V = ConsumerConfigView;

    closed spec fn view(&self) -> ConsumerConfigView {
        ConsumerConfigView {
            brokers: self.brokers@,
            group_id: self.group_id@,
            topics: views(self.topics@),
            payload_format: self.payload_format,
            durga_source_id: self.durga_source_id@,
            durga_tenant_id: self.durga_tenant_id@,
            durga_environment_id: self.durga_environment_id@,
            poll_timeout_millis: self.poll_timeout_millis,
            enable_partition_eof: self.enable_partition_eof,
            auto_offset_reset: self.auto_offset_reset@,
        }
    }
}

/// What is wrong with a configuration.
pub open spec fn config_fault(c: ConsumerConfigView) -> Option<Seq<char>> {
    if is_blank(c.brokers) {
        Some("brokers must not be empty"@)
    } else if is_blank(c.group_id) {
        Some("group id must not be empty"@)
    } else if c.topics.len() == 0 || exists|i: int| 0 <= i < c.topics.len() && is_blank(#[trigger] c.topics[i]) {
        Some("at least one non-empty topic is required"@)
    } else if is_blank(c.auto_offset_reset) {
        Some("auto.offset.reset must not be empty"@)
    } else {
        None
    }
}

impl KafkaProcessConsumerConfig {
    /// A configuration for binary payloads.
    pub fn new(brokers: impl IntoText, group_id: impl IntoText, topics: Vec<String>) -> (r: Self)
        ensures
            r@ == (ConsumerConfigView {
                brokers: brokers.text(),
                group_id: group_id.text(),
                topics: views(topics@),
                payload_format: KafkaPayloadFormat::VannakBinary,
                durga_source_id: "kafka"@,
                durga_tenant_id: "default"@,
                durga_environment_id: "default"@,
                poll_timeout_millis: 100,
                enable_partition_eof: false,
                auto_offset_reset: "earliest"@,
            }),
    {
        KafkaProcessConsumerConfig {
            brokers: brokers.into_text(),
            group_id: group_id.into_text(),
            topics,
            payload_format: KafkaPayloadFormat::VannakBinary,
            durga_source_id: SourceId::from("kafka"),
            durga_tenant_id: TenantId::from("default"),
            durga_environment_id: EnvironmentId::from("default"),
            poll_timeout_millis: 100,
            enable_partition_eof: false,
            auto_offset_reset: "earliest".to_owned(),
        }
    }

    /// The configuration with another poll timeout, in milliseconds.
    pub fn with_poll_timeout(self, poll_timeout_millis: u64) -> (r: Self)
        ensures
            r@ == (ConsumerConfigView { poll_timeout_millis, ..self@ }),
    {
        let mut config = self;
        config.poll_timeout_millis = poll_timeout_millis;
        config
    }

    /// The configuration with events at the end of a partition, or without.
    pub fn with_partition_eof(self, enable_partition_eof: bool) -> (r: Self)
        ensures
            r@ == (ConsumerConfigView { enable_partition_eof, ..self@ }),
    {
        let mut config = self;
        config.enable_partition_eof = enable_partition_eof;
        config
    }

    /// The configuration with another policy for groups without an offset.
    pub fn with_auto_offset_reset(self, auto_offset_reset: impl IntoText) -> (r: Self)
        ensures
            r@ == (ConsumerConfigView { auto_offset_reset: auto_offset_reset.text(), ..self@ }),
    {
        let mut config = self;
        config.auto_offset_reset = auto_offset_reset.into_text();
        config
    }

    /// The configuration with another payload format.
    pub fn with_payload_format(self, payload_format: KafkaPayloadFormat) -> (r: Self)
        ensures
            r@ == (ConsumerConfigView { payload_format, ..self@ }),
    {
        let mut config = self;
        config.payload_format = payload_format;
        config
    }

    /// The configuration with the identity that Durga events are given.
    pub fn with_durga_context(self, source_id: SourceId, tenant_id: TenantId, environment_id: EnvironmentId) -> (r: Self)
        ensures
            r@ == (ConsumerConfigView {
                durga_source_id: source_id@,
                durga_tenant_id: tenant_id@,
                durga_environment_id: environment_id@,
                ..self@
            }),
    {
        let mut config = self;
        config.durga_source_id = source_id;
        config.durga_tenant_id = tenant_id;
        config.durga_environment_id = environment_id;
        config
    }

    /// The brokers.
    pub fn brokers(&self) -> (r: &str)
        ensures
            r@ == self@.brokers,
    {
        self.brokers.as_str()
    }

    /// The consumer group.
    pub fn group_id(&self) -> (r: &str)
        ensures
            r@ == self@.group_id,
    {
        self.group_id.as_str()
    }

    /// The topics.
    pub fn topics(&self) -> (r: &Vec<String>)
        ensures
            views(r@) == self@.topics,
    {
        &self.topics
    }

    /// The poll timeout in milliseconds.
    pub fn poll_timeout(&self) -> (r: u64)
        ensures
            r == self@.poll_timeout_millis,
    {
        self.poll_timeout_millis
    }

    /// The payload format.
    pub fn payload_format(&self) -> (r: KafkaPayloadFormat)
        ensures
            r == self@.payload_format,
    {
        self.payload_format
    }

    /// Whether events come at the end of a partition.
    pub fn partition_eof(&self) -> (r: bool)
        ensures
            r == self@.enable_partition_eof,
    {
        self.enable_partition_eof
    }

    /// The policy for groups without an offset.
    pub fn auto_offset_reset(&self) -> (r: &str)
        ensures
            r@ == self@.auto_offset_reset,
    {
        self.auto_offset_reset.as_str()
    }

    /// Whether a consumer can start with the configuration.
    pub fn validate(&self) -> (r: Result<(), KafkaClientError>)
        ensures
            match r {
                Ok(()) => config_fault(self@) is None,
                Err(e) => config_fault(self@) matches Some(text) && e@ == KafkaClientErrorView::InvalidConfig(text),
            },
    {
        if blank(self.brokers.as_str()) {
            return Err(KafkaClientError::InvalidConfig("brokers must not be empty".to_owned()));
        }
        if blank(self.group_id.as_str()) {
            return Err(KafkaClientError::InvalidConfig("group id must not be empty".to_owned()));
        }
        let ghost topics = views(self.topics@);
        let mut i: usize = 0;
        while i < self.topics.len()
            invariant
                i <= self.topics.len(),
                topics == views(self.topics@),
                topics == self@.topics,
                !is_blank(self@.brokers),
                !is_blank(self@.group_id),
                forall|j: int| 0 <= j < i ==> !is_blank(#[trigger] topics[j]),
            decreases self.topics.len() - i,
        {
            if blank(self.topics[i].as_str()) {
                assert(is_blank(topics[i as int]));
                return Err(
                    KafkaClientError::InvalidConfig("at least one non-empty topic is required".to_owned()),
                );
            }
            i += 1;
        }
        if self.topics.len() == 0 {
            return Err(KafkaClientError::InvalidConfig("at least one non-empty topic is required".to_owned()));
        }
        if blank(self.auto_offset_reset.as_str()) {
            return Err(KafkaClientError::InvalidConfig("auto.offset.reset must not be empty".to_owned()));
        }
        Ok(())
    }
}

impl Clone for KafkaProcessConsumerConfig {
    fn clone(&self) -> (r: Self)
        ensures
            r@ == self@,
    {
        KafkaProcessConsumerConfig {
            brokers: self.brokers.clone(),
            group_id: self.group_id.clone(),
            topics: duplicate_all(&self.topics),
            payload_format: self.payload_format,
            durga_source_id: self.durga_source_id.clone(),
            durga_tenant_id: self.durga_tenant_id.clone(),
            durga_environment_id: self.durga_environment_id.clone(),
            poll_timeout_millis: self.poll_timeout_millis,
            enable_partition_eof: self.enable_partition_eof,
            auto_offset_reset: self.auto_offset_reset.clone(),
        }
    }
}

// ---------------------------------------------------------------------------
// Durga events
// ---------------------------------------------------------------------------

/// Counts of the values that Durga events carried and that are not known.
#[derive(Debug, Clone)]
pub struct DurgaCompatibilityState {
    unknown_status_counts: SortedMap<String, u64>,
    unknown_event_type_counts: SortedMap<String, u64>,
}

/// The view of the counts.
pub struct CompatView {
    pub statuses: Map<Seq<char>, u64>,
    pub event_types: Map<Seq<char>, u64>,
}

impl View for DurgaCompatibilityState {
    type V = CompatView;

    closed spec fn view(&self) -> CompatView {
        CompatView { statuses: self.unknown_status_counts@, event_types: self.unknown_event_type_counts@ }
    }
}

/// The counts with one more for a value.
pub open spec fn counted(counts: Map<Seq<char>, u64>, value: Seq<char>) -> Map<Seq<char>, u64> {
    counts.insert(
        value,
        one_more(
            if counts.contains_key(value) {
                counts[value]
            } else {
                0
            },
        ),
    )
}

/// The counts in the order of their values.
pub open spec fn count_list(counts: Map<Seq<char>, u64>) -> Seq<(Seq<char>, u64)> {
    let keys = sorted::<String>(counts.dom());
    Seq::new(keys.len(), |i: int| (keys[i], counts[keys[i]]))
}

fn count(counts: &mut SortedMap<String, u64>, value: &str)
    ensures
        final(counts)@ == counted(old(counts)@, value@),
{
    let key = value.to_owned();
    let known: u64 = match counts.get(&key) {
        Some(n) => *n,
        None => 0,
    };
    let _ = counts.insert(key, known.saturating_add(1));
}

fn list_counts(counts: &SortedMap<String, u64>) -> (r: Vec<(String, u64)>)
    ensures
        views(r@) == count_list(counts@),
{
    let n: usize = counts.len();
    let mut out: Vec<(String, u64)> = Vec::new();
    let mut i: usize = 0;
    while i < n
        invariant
            i <= n,
            n == counts@.dom().len(),
            n == counts.keys().len(),
            out.len() == i,
            forall|j: int| 0 <= j < i ==> (#[trigger] out@[j])@ == count_list(counts@)[j],
        decreases n - i,
    {
        out.push((counts.key_at(i).clone(), *counts.value_at(i)));
        i += 1;
    }
    assert(views(out@) =~= count_list(counts@));
    out
}

impl DurgaCompatibilityState {
    /// Counts of nothing.
    pub fn new() -> (r: Self)
        ensures
            r@ == (CompatView { statuses: Map::empty(), event_types: Map::empty() }),
    {
        DurgaCompatibilityState {
            unknown_status_counts: SortedMap::new(),
            unknown_event_type_counts: SortedMap::new(),
        }
    }

    /// Counts a status that is not known.
    pub fn record_unknown_status(&mut self, value: &str)
        ensures
            final(self)@ == (CompatView { statuses: counted(old(self)@.statuses, value@), ..old(self)@ }),
    {
        count(&mut self.unknown_status_counts, value);
    }

    /// Counts an event type that is not known.
    pub fn record_unknown_event_type(&mut self, value: &str)
        ensures
            final(self)@ == (CompatView { event_types: counted(old(self)@.event_types, value@), ..old(self)@ }),
    {
        count(&mut self.unknown_event_type_counts, value);
    }

    /// The counts as lists.
    pub fn snapshot(&self) -> (r: DurgaCompatibilitySnapshot)
        ensures
            views(r.unknown_status_values@) == count_list(self@.statuses),
            views(r.unknown_event_type_values@) == count_list(self@.event_types),
    {
        DurgaCompatibilitySnapshot {
            unknown_status_values: list_counts(&self.unknown_status_counts),
            unknown_event_type_values: list_counts(&self.unknown_event_type_counts),
        }
    }
}

impl Default for DurgaCompatibilityState {
    fn default() -> (r: Self)
        ensures
            r@ == (CompatView { statuses: Map::empty(), event_types: Map::empty() }),
    {
        DurgaCompatibilityState::new()
    }
}

/// The status with a name, if it is known.
pub open spec fn known_status(value: Seq<char>) -> Option<DurgaStatus> {
    if value == "Started"@ || value == "STARTED"@ {
        Some(DurgaStatus::Started)
    } else if value == "Completed"@ || value == "COMPLETED"@ {
        Some(DurgaStatus::Completed)
    } else if value == "Failed"@ || value == "FAILED"@ {
        Some(DurgaStatus::Failed)
    } else if value == "Escalated"@ || value == "ESCALATED"@ {
        Some(DurgaStatus::Escalated)
    } else if value == "Cancelled"@ || value == "CANCELLED"@ || value == "Canceled"@ || value == "CANCELED"@ {
        Some(DurgaStatus::Cancelled)
    } else {
        None
    }
}

/// The event type with a name, if it is known.
pub open spec fn known_event_type(value: Seq<char>) -> Option<DurgaEventType> {
    if value == "ProcessStarted"@ || value == "PROCESS_STARTED"@ {
        Some(DurgaEventType::ProcessStarted)
    } else if value == "ActivityEntered"@ || value == "ACTIVITY_ENTERED"@ {
        Some(DurgaEventType::ActivityEntered)
    } else if value == "ActivityCompleted"@ || value == "ACTIVITY_COMPLETED"@ {
        Some(DurgaEventType::ActivityCompleted)
    } else if value == "ActivityEscalated"@ || value == "ACTIVITY_ESCALATED"@ {
        Some(DurgaEventType::ActivityEscalated)
    } else if value == "ActivityCancelled"@ || value == "ACTIVITY_CANCELLED"@ || value == "ActivityCanceled"@ || value == "ACTIVITY_CANCELED"@ {
        Some(DurgaEventType::ActivityCancelled)
    } else if value == "GatewayTaken"@ || value == "GATEWAY_TAKEN"@ {
        Some(DurgaEventType::GatewayTaken)
    } else if value == "ProcessCompleted"@ || value == "PROCESS_COMPLETED"@ {
        Some(DurgaEventType::ProcessCompleted)
    } else if value == "ProcessFailed"@ || value == "PROCESS_FAILED"@ {
        Some(DurgaEventType::ProcessFailed)
    } else {
        None
    }
}

/// Whether a status is the one with a name; one that is not known keeps its name.
pub open spec fn status_named(status: DurgaStatus, value: Seq<char>) -> bool {
    match known_status(value) {
        Some(known) => status == known,
        None => status matches DurgaStatus::Unknown(name) && name@ == value,
    }
}

/// Whether an event type is the one with a name; one that is not known keeps its name.
pub open spec fn event_type_named(event_type: DurgaEventType, value: Seq<char>) -> bool {
    match known_event_type(value) {
        Some(known) => event_type == known,
        None => event_type matches DurgaEventType::Unknown(name) && name@ == value,
    }
}

/// The status with a name; one that is not known is counted.
pub fn parse_durga_status(value: &str, compat: &mut DurgaCompatibilityState) -> (r: DurgaStatus)
    ensures
        status_named(r, value@),
        final(compat)@ == (if known_status(value@) is None {
            CompatView { statuses: counted(old(compat)@.statuses, value@), ..old(compat)@ }
        } else {
            old(compat)@
        }),
{
    if str_eq(value, "Started") || str_eq(value, "STARTED") {
        DurgaStatus::Started
    } else if str_eq(value, "Completed") || str_eq(value, "COMPLETED") {
        DurgaStatus::Completed
    } else if str_eq(value, "Failed") || str_eq(value, "FAILED") {
        DurgaStatus::Failed
    } else if str_eq(value, "Escalated") || str_eq(value, "ESCALATED") {
        DurgaStatus::Escalated
    } else if str_eq(value, "Cancelled") || str_eq(value, "CANCELLED") || str_eq(value, "Canceled") || str_eq(value, "CANCELED") {
        DurgaStatus::Cancelled
    } else {
        compat.record_unknown_status(value);
        DurgaStatus::Unknown(value.to_owned())
    }
}

/// The event type with a name; one that is not known is counted.
pub fn parse_durga_event_type(value: &str, compat: &mut DurgaCompatibilityState) -> (r: DurgaEventType)
    ensures
        event_type_named(r, value@),
        final(compat)@ == (if known_event_type(value@) is None {
            CompatView { event_types: counted(old(compat)@.event_types, value@), ..old(compat)@ }
        } else {
            old(compat)@
        }),
{
    if str_eq(value, "ProcessStarted") || str_eq(value, "PROCESS_STARTED") {
        DurgaEventType::ProcessStarted
    } else if str_eq(value, "ActivityEntered") || str_eq(value, "ACTIVITY_ENTERED") {
        DurgaEventType::ActivityEntered
    } else if str_eq(value, "ActivityCompleted") || str_eq(value, "ACTIVITY_COMPLETED") {
        DurgaEventType::ActivityCompleted
    } else if str_eq(value, "ActivityEscalated") || str_eq(value, "ACTIVITY_ESCALATED") {
        DurgaEventType::ActivityEscalated
    } else if str_eq(value, "ActivityCancelled") || str_eq(value, "ACTIVITY_CANCELLED") || str_eq(value, "ActivityCanceled") || str_eq(value, "ACTIVITY_CANCELED") {
        DurgaEventType::ActivityCancelled
    } else if str_eq(value, "GatewayTaken") || str_eq(value, "GATEWAY_TAKEN") {
        DurgaEventType::GatewayTaken
    } else if str_eq(value, "ProcessCompleted") || str_eq(value, "PROCESS_COMPLETED") {
        DurgaEventType::ProcessCompleted
    } else if str_eq(value, "ProcessFailed") || str_eq(value, "PROCESS_FAILED") {
        DurgaEventType::ProcessFailed
    } else {
        compat.record_unknown_event_type(value);
        DurgaEventType::Unknown(value.to_owned())
    }
}

/// A metadata reference as a Durga event carries it.
#[derive(Debug, PartialEq, Eq)]
pub struct MetadataRefRecord {
    pub kind: String,
    pub id: String,
    pub version: Option<String>,
}

/// The view of a carried reference.
pub struct RefRecordView {
    pub kind: Seq<char>,
    pub id: Seq<char>,
    pub version: Option<Seq<char>>,
}

impl View for MetadataRefRecord {
    type V = RefRecordView;

    open spec fn view(&self) -> RefRecordView {
        RefRecordView { kind: self.kind@, id: self.id@, version: opt_view(self.version) }
    }
}

impl Clone for MetadataRefRecord {
    fn clone(&self) -> (r: Self)
        ensures
            r == *self,
    {
        MetadataRefRecord { kind: self.kind.clone(), id: self.id.clone(), version: self.version.clone() }
    }
}

/// The reference that a carried one stands for, if its kind is known.
pub open spec fn carried_ref(r: RefRecordView) -> Option<MetadataRefView> {
    if r.kind == "dataset"@ {
        Some(MetadataRefView { variant: 0, id: r.id, version: None })
    } else if r.kind == "schema"@ {
        Some(MetadataRefView { variant: 1, id: r.id, version: r.version })
    } else if r.kind == "field"@ {
        Some(MetadataRefView { variant: 2, id: r.id, version: None })
    } else if r.kind == "pipelineDefinition"@ {
        Some(MetadataRefView { variant: 3, id: r.id, version: r.version })
    } else if r.kind == "object"@ {
        Some(MetadataRefView { variant: 4, id: r.id, version: None })
    } else if r.kind == "lineageEdge"@ {
        Some(MetadataRefView { variant: 5, id: r.id, version: None })
    } else if r.kind == "dataContract"@ {
        Some(MetadataRefView { variant: 6, id: r.id, version: None })
    } else if r.kind == "owner"@ {
        Some(MetadataRefView { variant: 7, id: r.id, version: None })
    } else if r.kind == "classification"@ {
        Some(MetadataRefView { variant: 8, id: r.id, version: None })
    } else {
        None
    }
}

/// The references of known kinds that carried ones stand for.
pub open spec fn carried_refs(records: Seq<RefRecordView>) -> Seq<MetadataRefView>
    decreases records.len(),
{
    if records.len() == 0 {
        Seq::empty()
    } else {
        match carried_ref(records.last()) {
            Some(r) => carried_refs(records.drop_last()).push(r),
            None => carried_refs(records.drop_last()),
        }
    }
}

fn version_of(version: Option<String>) -> (r: Option<MetadataVersion>)
    ensures
        opt_view(r) == opt_view(version),
{
    match version {
        Some(version) => Some(MetadataVersion::from(version)),
        None => None,
    }
}

impl MetadataRefRecord {
    /// The reference that this one stands for, if its kind is known.
    pub fn into_metadata_ref(self) -> (r: Option<MetadataRef>)
        ensures
            opt_view(r) == carried_ref(self@),
    {
        let kind = self.kind.as_str();
        if str_eq(kind, "dataset") {
            Some(MetadataRef::Dataset(DatasetId::from(self.id)))
        } else if str_eq(kind, "schema") {
            Some(MetadataRef::Schema { id: SchemaId::from(self.id), version: version_of(self.version) })
        } else if str_eq(kind, "field") {
            Some(MetadataRef::Field(FieldId::from(self.id)))
        } else if str_eq(kind, "pipelineDefinition") {
            Some(MetadataRef::PipelineDefinition { id: PipelineDefinitionId::from(self.id), version: version_of(self.version) })
        } else if str_eq(kind, "object") {
            Some(MetadataRef::Object(MetadataObjectId::from(self.id)))
        } else if str_eq(kind, "lineageEdge") {
            Some(MetadataRef::LineageEdge(LineageEdgeId::from(self.id)))
        } else if str_eq(kind, "dataContract") {
            Some(MetadataRef::DataContract(DataContractId::from(self.id)))
        } else if str_eq(kind, "owner") {
            Some(MetadataRef::Owner(OwnerId::from(self.id)))
        } else if str_eq(kind, "classification") {
            Some(MetadataRef::Classification(ClassificationId::from(self.id)))
        } else {
            None
        }
    }
}

/// A Durga event as it is carried.
#[derive(Debug, PartialEq, Eq)]
pub struct DurgaEventRecord {
    pub process_instance_id: String,
    pub process_id: String,
    pub activity_id: Option<String>,
    pub token_id: Option<String>,
    pub correlation_id: Option<String>,
    /// The payload as compact JSON.
    pub payload: Option<String>,
    pub status: String,
    pub error: Option<DurgaErrorInfo>,
    pub event_type: String,
    pub process_version: Option<String>,
    pub business_key: Option<String>,
    pub timestamp: String,
    pub schema_version: Option<String>,
    pub metadata_refs: Vec<MetadataRefRecord>,
}

/// Whether a Durga event is the one that a record carries.
pub open spec fn carried_event(e: DurgaProcessEvent, r: DurgaEventRecord) -> bool {
    &&& e.process_instance_id == r.process_instance_id
    &&& e.process_id == r.process_id
    &&& e.activity_id == r.activity_id
    &&& e.token_id == r.token_id
    &&& e.correlation_id == r.correlation_id
    &&& e.payload == r.payload
    &&& status_named(e.status, r.status@)
    &&& e.error == r.error
    &&& event_type_named(e.event_type, r.event_type@)
    &&& e.process_version == r.process_version
    &&& e.business_key == r.business_key
    &&& e.timestamp == r.timestamp
    &&& views(e.metadata_refs@) == carried_refs(views(r.metadata_refs@))
    &&& e.schema_version == r.schema_version
}

/// The counts after a carried event has been decoded.
pub open spec fn compat_after(c: CompatView, r: DurgaEventRecord) -> CompatView {
    let with_status = if known_status(r.status@) is None {
        CompatView { statuses: counted(c.statuses, r.status@), ..c }
    } else {
        c
    };
    if known_event_type(r.event_type@) is None {
        CompatView { event_types: counted(with_status.event_types, r.event_type@), ..with_status }
    } else {
        with_status
    }
}

fn refs_from(records: &Vec<MetadataRefRecord>) -> (r: Vec<MetadataRef>)
    ensures
        views(r@) == carried_refs(views(records@)),
{
    let ghost all = views(records@);
    let mut out: Vec<MetadataRef> = Vec::new();
    let mut i: usize = 0;
    assert(views(out@) =~= carried_refs(all.take(0)));
    while i < records.len()
        invariant
            i <= records.len(),
            all == views(records@),
            views(out@) == carried_refs(all.take(i as int)),
        decreases records.len() - i,
    {
        assert(all.take(i + 1).drop_last() =~= all.take(i as int));
        assert(all.take(i + 1).last() == records@[i as int]@);
        let ghost done = out@;
        if let Some(item) = records[i].clone().into_metadata_ref() {
            let ghost view = item@;
            out.push(item);
            assert(views(out@) =~= views(done).push(view));
        }
        i += 1;
    }
    assert(all.take(records.len() as int) =~= all);
    out
}

/// The Durga event that a record carries; a reference of an unknown kind is left out, a
/// status or an event type that is not known is counted.
pub fn decode_durga_event(record: DurgaEventRecord, compat: &mut DurgaCompatibilityState) -> (r: DurgaProcessEvent)
    ensures
        carried_event(r, record),
        final(compat)@ == compat_after(old(compat)@, record),
{
    let metadata_refs = refs_from(&record.metadata_refs);
    let status = parse_durga_status(record.status.as_str(), compat);
    let event_type = parse_durga_event_type(record.event_type.as_str(), compat);
    DurgaProcessEvent {
        process_instance_id: record.process_instance_id,
        process_id: record.process_id,
        activity_id: record.activity_id,
        token_id: record.token_id,
        correlation_id: record.correlation_id,
        payload: record.payload,
        status,
        error: record.error,
        event_type,
        process_version: record.process_version,
        business_key: record.business_key,
        timestamp: record.timestamp,
        metadata_refs,
        schema_version: record.schema_version,
    }
}

/// The source of Durga events of a topic.
pub open spec fn durga_source(c: ConsumerConfigView, topic: Seq<char>) -> Seq<char> {
    c.durga_source_id + ":"@ + topic
}

/// The position of a record; a negative offset counts as zero.
pub open spec fn sequence_of(offset: i64) -> u64 {
    if offset < 0 {
        0
    } else {
        offset as u64
    }
}

/// Whether a consumer makes an event, or reports an error, of a record; `durga` is what the
/// JSON parser made of the payload, and matters only where Durga events are consumed.
pub open spec fn decodes_to(
    config: ConsumerConfigView,
    topic: Seq<char>,
    offset: i64,
    payload: Seq<u8>,
    durga: Result<DurgaEventRecord, String>,
    r: Result<PipelineEventView, KafkaClientErrorView>,
) -> bool {
    match (config.payload_format, durga) {
        (KafkaPayloadFormat::VannakBinary, _) => r == (match parse_event(payload) {
            Ok(event) => Ok(event),
            Err(e) => Err(KafkaClientErrorView::Decode(e)),
        }),
        (KafkaPayloadFormat::DurgaJson, Ok(record)) => exists|e: DurgaProcessEvent| #[trigger]
            carried_event(e, record) && r == Ok::<PipelineEventView, KafkaClientErrorView>(
                pipeline_event_of(
                    e,
                    durga_source(config, topic),
                    sequence_of(offset),
                    config.durga_tenant_id,
                    config.durga_environment_id,
                ),
            ),
        (KafkaPayloadFormat::DurgaJson, Err(text)) => r == Err::<PipelineEventView, KafkaClientErrorView>(
            KafkaClientErrorView::DurgaJson(text@),
        ),
    }
}

/// The counts of unknown values after a record has been decoded.
pub open spec fn compat_after_decode(
    c: CompatView,
    format: KafkaPayloadFormat,
    durga: Result<DurgaEventRecord, String>,
) -> CompatView {
    match (format, durga) {
        (KafkaPayloadFormat::DurgaJson, Ok(record)) => compat_after(c, record),
        _ => c,
    }
}

/// The view of the result of decoding.
pub open spec fn decoded_view(r: Result<PipelineEvent, KafkaClientError>) -> Result<
    PipelineEventView,
    KafkaClientErrorView,
> {
    match r {
        Ok(event) => Ok(event@),
        Err(e) => Err(e@),
    }
}

impl KafkaProcessConsumerConfig {
    /// The process event of a record.
    pub fn decode_event(
        &self,
        topic: &str,
        offset: i64,
        payload: &[u8],
        durga: Result<DurgaEventRecord, String>,
        compat: &mut DurgaCompatibilityState,
    ) -> (r: Result<PipelineEvent, KafkaClientError>)
        ensures
            decodes_to(self@, topic@, offset, payload@, durga, decoded_view(r)),
            final(compat)@ == compat_after_decode(old(compat)@, self@.payload_format, durga),
    {
        match self.payload_format {
            KafkaPayloadFormat::VannakBinary => match decode_pipeline_event(payload) {
                Ok(event) => Ok(event),
                Err(e) => Err(KafkaClientError::Decode(e)),
            },
            KafkaPayloadFormat::DurgaJson => {
                let record = match durga {
                    Ok(record) => record,
                    Err(text) => return Err(KafkaClientError::DurgaJson(text)),
                };
                let event = decode_durga_event(record, compat);
                let mut source = self.durga_source_id.as_str().to_owned();
                push_text(&mut source, ":");
                push_text(&mut source, topic);
                let sequence: u64 = if offset < 0 {
                    0
                } else {
                    offset as u64
                };
                let ghost carried = event;
                assert(carried_event(carried, record));
                Ok(
                    event.into_pipeline_event(
                        SourceId::from(source),
                        SourceSequence(sequence),
                        self.durga_tenant_id.clone(),
                        self.durga_environment_id.clone(),
                    ),
                )
            },
        }
    }
}

// ---------------------------------------------------------------------------
// Rebalancing
// ---------------------------------------------------------------------------

/// What the broker tells of the partitions of the consumer.
#[derive(Debug, PartialEq, Eq)]
pub enum RebalanceNotice {
    Assign(Vec<KafkaTopicPartition>),
    Revoke(Vec<KafkaTopicPartition>),
    Error(String),
}

/// The view of a notice.
pub enum NoticeView {
    Assign(Seq<PartitionView>),
    Revoke(Seq<PartitionView>),
    Error(Seq<char>),
}

impl View for RebalanceNotice {
    type V = NoticeView;

    open spec fn view(&self) -> NoticeView {
        match self {
            RebalanceNotice::Assign(list) => NoticeView::Assign(views(list@)),
            RebalanceNotice::Revoke(list) => NoticeView::Revoke(views(list@)),
            RebalanceNotice::Error(text) => NoticeView::Error(text@),
        }
    }
}

/// The last thing that the broker told.
#[derive(Debug, PartialEq, Eq)]
pub enum KafkaRebalanceEvent {
    /// Partitions were assigned.
    Assigned(Vec<KafkaTopicPartition>),
    /// Partitions were revoked.
    Revoked(Vec<KafkaTopicPartition>),
    /// Rebalancing failed.
    Error(String),
}

impl View for KafkaRebalanceEvent {
    type V = NoticeView;

    open spec fn view(&self) -> NoticeView {
        match self {
            KafkaRebalanceEvent::Assigned(list) => NoticeView::Assign(views(list@)),
            KafkaRebalanceEvent::Revoked(list) => NoticeView::Revoke(views(list@)),
            KafkaRebalanceEvent::Error(text) => NoticeView::Error(text@),
        }
    }
}

impl Clone for KafkaRebalanceEvent {
    fn clone(&self) -> (r: Self)
        ensures
            r@ == self@,
    {
        match self {
            KafkaRebalanceEvent::Assigned(list) => KafkaRebalanceEvent::Assigned(duplicate_all(list)),
            KafkaRebalanceEvent::Revoked(list) => KafkaRebalanceEvent::Revoked(duplicate_all(list)),
            KafkaRebalanceEvent::Error(text) => KafkaRebalanceEvent::Error(text.clone()),
        }
    }
}

impl Duplicate for KafkaRebalanceEvent {
    fn duplicate(&self) -> (r: Self) {
        self.clone()
    }
}

/// What the broker has told of the partitions of the consumer.
#[derive(Debug, Clone)]
pub struct KafkaRebalanceState {
    assigned_partitions: SortedSet<KafkaTopicPartition>,
    revoked_partitions: Vec<KafkaTopicPartition>,
    pending_revoked_partitions: Vec<KafkaTopicPartition>,
    pre_rebalance_count: u64,
    post_rebalance_count: u64,
    assignment_count: u64,
    revocation_count: u64,
    error_count: u64,
    last_event: Option<KafkaRebalanceEvent>,
}

/// The view of what the broker has told.
pub struct RebalanceView {
    pub assigned: Set<PartitionView>,
    pub revoked: Seq<PartitionView>,
    pub pending_revoked: Seq<PartitionView>,
    pub pre_rebalance_count: u64,
    pub post_rebalance_count: u64,
    pub assignment_count: u64,
    pub revocation_count: u64,
    pub error_count: u64,
    pub last_event: Option<NoticeView>,
}

impl View for KafkaRebalanceState {
    type V = RebalanceView;

    closed spec fn view(&self) -> RebalanceView {
        RebalanceView {
            assigned: self.assigned_partitions@,
            revoked: views(self.revoked_partitions@),
            pending_revoked: views(self.pending_revoked_partitions@),
            pre_rebalance_count: self.pre_rebalance_count,
            post_rebalance_count: self.post_rebalance_count,
            assignment_count: self.assignment_count,
            revocation_count: self.revocation_count,
            error_count: self.error_count,
            last_event: opt_view(self.last_event),
        }
    }
}

/// Before anything is told.
pub open spec fn untold() -> RebalanceView {
    RebalanceView {
        assigned: Set::empty(),
        revoked: Seq::empty(),
        pending_revoked: Seq::empty(),
        pre_rebalance_count: 0,
        post_rebalance_count: 0,
        assignment_count: 0,
        revocation_count: 0,
        error_count: 0,
        last_event: None,
    }
}

/// After a notice before a rebalance: revoked partitions are no longer assigned, and are
/// kept until they have been dealt with.
pub open spec fn after_pre_rebalance(s: RebalanceView, n: NoticeView) -> RebalanceView {
    let told = RebalanceView {
        pre_rebalance_count: one_more(s.pre_rebalance_count),
        last_event: Some(n),
        ..s
    };
    match n {
        NoticeView::Assign(_) => RebalanceView { assignment_count: one_more(s.assignment_count), ..told },
        NoticeView::Revoke(list) => RebalanceView {
            assigned: s.assigned.difference(list.to_set()),
            revoked: s.revoked + list,
            pending_revoked: s.pending_revoked + list,
            revocation_count: one_more(s.revocation_count),
            ..told
        },
        NoticeView::Error(_) => RebalanceView { error_count: one_more(s.error_count), ..told },
    }
}

/// After a notice behind a rebalance: assigned partitions replace those assigned before.
pub open spec fn after_post_rebalance(s: RebalanceView, n: NoticeView) -> RebalanceView {
    let told = RebalanceView { post_rebalance_count: one_more(s.post_rebalance_count), ..s };
    match n {
        NoticeView::Assign(list) => RebalanceView { assigned: list.to_set(), ..told },
        _ => told,
    }
}

/// Owned copy of what the broker has told.
#[derive(Debug, Clone, PartialEq, Eq)]
pub struct KafkaRebalanceSnapshot {
    /// Partitions of the latest assignment.
    pub assigned_partitions: Vec<KafkaTopicPartition>,
    /// Partitions of all revocations.
    pub revoked_partitions: Vec<KafkaTopicPartition>,
    /// Notices before a rebalance.
    pub pre_rebalance_count: u64,
    /// Notices behind a rebalance.
    pub post_rebalance_count: u64,
    /// Assignments.
    pub assignment_count: u64,
    /// Revocations.
    pub revocation_count: u64,
    /// Failures.
    pub error_count: u64,
    /// The last thing told.
    pub last_event: Option<KafkaRebalanceEvent>,
}

fn append_partitions(list: &mut Vec<KafkaTopicPartition>, more: &Vec<KafkaTopicPartition>)
    ensures
        views(final(list)@) == views(old(list)@) + views(more@),
{
    let ghost before = views(list@);
    let ghost items = views(more@);
    let mut i: usize = 0;
    assert(before + items.take(0) =~= before);
    while i < more.len()
        invariant
            i <= more.len(),
            items == views(more@),
            views(list@) == before + items.take(i as int),
        decreases more.len() - i,
    {
        let ghost done = list@;
        list.push(more[i].clone());
        proof {
            assert(views(list@) =~= views(done).push(items[i as int]));
            assert(before + items.take(i + 1) =~= (before + items.take(i as int)).push(items[i as int]));
        }
        i += 1;
    }
    assert(items.take(more.len() as int) =~= items);
}

fn partition_set(list: &Vec<KafkaTopicPartition>) -> (r: SortedSet<KafkaTopicPartition>)
    ensures
        r@ == views(list@).to_set(),
{
    let ghost items = views(list@);
    let mut set: SortedSet<KafkaTopicPartition> = SortedSet::new();
    let mut i: usize = 0;
    assert(set@ =~= items.take(0).to_set());
    while i < list.len()
        invariant
            i <= list.len(),
            items == views(list@),
            set@ == items.take(i as int).to_set(),
        decreases list.len() - i,
    {
        let _ = set.insert(list[i].clone());
        proof {
            lemma_take_set(items, i as int);
        }
        i += 1;
    }
    assert(items.take(list.len() as int) =~= items);
    set
}

proof fn lemma_take_set(items: Seq<PartitionView>, n: int)
    requires
        0 <= n < items.len(),
    ensures
        items.take(n + 1).to_set() == items.take(n).to_set().insert(items[n]),
{
    let (a, b) = (items.take(n), items.take(n + 1));
    assert forall|k: PartitionView| b.to_set().contains(k) == a.to_set().insert(items[n]).contains(k) by {
        if a.contains(k) {
            let i = choose|i: int| 0 <= i < a.len() && a[i] == k;
            assert(b[i] == k);
        }
        if b.contains(k) {
            let i = choose|i: int| 0 <= i < b.len() && b[i] == k;
            if i < n {
                assert(a[i] == k);
            }
        }
        if k == items[n] {
            assert(b[n] == k);
        }
    }
    assert(b.to_set() =~= a.to_set().insert(items[n]));
}

impl KafkaRebalanceState {
    /// Before anything is told.
    pub fn new() -> (r: Self)
        ensures
            r@ == untold(),
    {
        let r = KafkaRebalanceState {
            assigned_partitions: SortedSet::new(),
            revoked_partitions: Vec::new(),
            pending_revoked_partitions: Vec::new(),
            pre_rebalance_count: 0,
            post_rebalance_count: 0,
            assignment_count: 0,
            revocation_count: 0,
            error_count: 0,
            last_event: None,
        };
        assert(views(r.revoked_partitions@) =~= Seq::<PartitionView>::empty());
        assert(views(r.pending_revoked_partitions@) =~= Seq::<PartitionView>::empty());
        r
    }

    fn unassign(&mut self, list: &Vec<KafkaTopicPartition>)
        ensures
            final(self)@ == (RebalanceView {
                assigned: old(self)@.assigned.difference(views(list@).to_set()),
                ..old(self)@
            }),
    {
        let ghost before = self@;
        let ghost items = views(list@);
        let mut i: usize = 0;
        assert(before.assigned.difference(items.take(0).to_set()) =~= before.assigned);
        while i < list.len()
            invariant
                i <= list.len(),
                items == views(list@),
                self@ == (RebalanceView {
                    assigned: before.assigned.difference(items.take(i as int).to_set()),
                    ..before
                }),
            decreases list.len() - i,
        {
            let _ = self.assigned_partitions.remove(&list[i]);
            proof {
                lemma_take_set(items, i as int);
                assert(self.assigned_partitions@ =~= before.assigned.difference(items.take(i + 1).to_set()));
            }
            i += 1;
        }
        assert(items.take(list.len() as int) =~= items);
    }

    /// Takes note of a notice before a rebalance.
    pub fn record_pre_rebalance(&mut self, notice: RebalanceNotice)
        ensures
            final(self)@ == after_pre_rebalance(old(self)@, notice@),
    {
        self.pre_rebalance_count = self.pre_rebalance_count.saturating_add(1);
        match notice {
            RebalanceNotice::Assign(list) => {
                self.assignment_count = self.assignment_count.saturating_add(1);
                self.last_event = Some(KafkaRebalanceEvent::Assigned(list));
            },
            RebalanceNotice::Revoke(list) => {
                self.revocation_count = self.revocation_count.saturating_add(1);
                self.unassign(&list);
                append_partitions(&mut self.revoked_partitions, &list);
                append_partitions(&mut self.pending_revoked_partitions, &list);
                self.last_event = Some(KafkaRebalanceEvent::Revoked(list));
            },
            RebalanceNotice::Error(text) => {
                self.error_count = self.error_count.saturating_add(1);
                self.last_event = Some(KafkaRebalanceEvent::Error(text));
            },
        }
    }

    /// Takes note of a notice behind a rebalance.
    pub fn record_post_rebalance(&mut self, notice: &RebalanceNotice)
        ensures
            final(self)@ == after_post_rebalance(old(self)@, notice@),
    {
        self.post_rebalance_count = self.post_rebalance_count.saturating_add(1);
        if let RebalanceNotice::Assign(list) = notice {
            self.assigned_partitions = partition_set(list);
        }
    }

    /// The revoked partitions that have not been dealt with; they are handed out once.
    pub fn take_unhandled_revoked(&mut self) -> (r: Vec<KafkaTopicPartition>)
        ensures
            views(r@) == old(self)@.pending_revoked,
            final(self)@ == (RebalanceView { pending_revoked: Seq::empty(), ..old(self)@ }),
    {
        let mut taken: Vec<KafkaTopicPartition> = Vec::new();
        std::mem::swap(&mut taken, &mut self.pending_revoked_partitions);
        assert(views(self.pending_revoked_partitions@) =~= Seq::<PartitionView>::empty());
        taken
    }

    /// Owned copy of what the broker has told.
    pub fn snapshot(&self) -> (r: KafkaRebalanceSnapshot)
        ensures
            views(r.assigned_partitions@) == sorted::<KafkaTopicPartition>(self@.assigned),
            views(r.revoked_partitions@) == self@.revoked,
            r.pre_rebalance_count == self@.pre_rebalance_count,
            r.post_rebalance_count == self@.post_rebalance_count,
            r.assignment_count == self@.assignment_count,
            r.revocation_count == self@.revocation_count,
            r.error_count == self@.error_count,
            opt_view(r.last_event) == self@.last_event,
    {
        KafkaRebalanceSnapshot {
            assigned_partitions: self.assigned_partitions.to_vec(),
            revoked_partitions: duplicate_all(&self.revoked_partitions),
            pre_rebalance_count: self.pre_rebalance_count,
            post_rebalance_count: self.post_rebalance_count,
            assignment_count: self.assignment_count,
            revocation_count: self.revocation_count,
            error_count: self.error_count,
            last_event: crate::ordered::duplicate_option(&self.last_event),
        }
    }
}

impl Default for KafkaRebalanceState {
    fn default() -> (r: Self)
        ensures
            r@ == untold(),
    {
        KafkaRebalanceState::new()
    }
}

// ---------------------------------------------------------------------------
// The consumer
// ---------------------------------------------------------------------------

/// The state of the consumer between its calls to the broker and to the shards.
#[derive(Debug)]
pub struct KafkaProcessConsumer {
    config: KafkaProcessConsumerConfig,
    pending: VecDeque<KafkaPendingRecord>,
    paused: SortedSet<KafkaTopicPartition>,
    durga_compat: DurgaCompatibilityState,
    total_polled: u64,
    total_accepted: u64,
}

/// The view of the consumer.
pub struct ConsumerView {
    pub config: ConsumerConfigView,
    pub pending: Seq<PendingView>,
    pub paused: Set<PartitionView>,
    pub compat: CompatView,
    pub total_polled: u64,
    pub total_accepted: u64,
}

impl View for KafkaProcessConsumer {
    type V = ConsumerView;

    closed spec fn view(&self) -> ConsumerView {
        ConsumerView {
            config: self.config@,
            pending: views(self.pending@),
            paused: self.paused@,
            compat: self.durga_compat@,
            total_polled: self.total_polled,
            total_accepted: self.total_accepted,
        }
    }
}

/// A consumer that has just been started.
pub open spec fn started(config: ConsumerConfigView) -> ConsumerView {
    ConsumerView {
        config,
        pending: Seq::empty(),
        paused: Set::empty(),
        compat: CompatView { statuses: Map::empty(), event_types: Map::empty() },
        total_polled: 0,
        total_accepted: 0,
    }
}

/// The settings of the client: offsets are never committed by the client itself.
pub open spec fn settings(c: ConsumerConfigView) -> Seq<(Seq<char>, Seq<char>)> {
    seq![
        ("bootstrap.servers"@, c.brokers),
        ("group.id"@, c.group_id),
        ("enable.auto.commit"@, "false"@),
        ("auto.offset.reset"@, c.auto_offset_reset),
        ("enable.partition.eof"@, if c.enable_partition_eof { "true"@ } else { "false"@ }),
    ]
}

/// The first of the pending records that belongs to a revoked partition.
pub open spec fn first_revoked(pending: Seq<PendingView>, revoked: Seq<PartitionView>) -> Option<PendingView>
    decreases pending.len(),
{
    if pending.len() == 0 {
        None
    } else if revoked.contains(pending[0].record.partition) {
        Some(pending[0])
    } else {
        first_revoked(pending.skip(1), revoked)
    }
}

/// What the consumer does next.
#[derive(Debug, Clone, Copy, PartialEq, Eq)]
pub enum PollStep {
    /// The pending record is handed to its shard again.
    Submit,
    /// The broker is asked for a record.
    Poll,
}

/// What the broker gave when it was asked for a record.
#[derive(Debug)]
pub enum Polled {
    /// There is no record.
    Nothing,
    /// The client failed, with a message.
    Failed(String),
    /// A record, with what the JSON parser made of its payload.
    Message {
        topic: String,
        partition: i32,
        offset: i64,
        payload: Option<Vec<u8>>,
        durga: Result<DurgaEventRecord, String>,
    },
}

/// What is done with the answer of a shard.
#[derive(Debug, PartialEq, Eq)]
pub enum SubmitStep {
    /// The record waits; the partition, if one is given, is paused at the broker.
    Wait { pause: Option<KafkaTopicPartition> },
    /// The record was taken; the partition, if one is given, is resumed at the broker, and
    /// then the offset is committed.
    Commit { outcome: KafkaSubmitOutcome, resume: Option<KafkaTopicPartition> },
}

/// The consumer after the record in front has been taken out to be handed over.
pub open spec fn taken(c: ConsumerView) -> ConsumerView {
    ConsumerView { pending: c.pending.skip(1), ..c }
}

/// The consumer after a record found no room: it is in front again, and its partition is
/// paused.
pub open spec fn waiting(c: ConsumerView, p: PendingView) -> ConsumerView {
    ConsumerView { pending: seq![p] + c.pending, paused: c.paused.insert(p.record.partition), ..c }
}

/// The consumer after a record has been taken by its shard: its partition is not paused.
pub open spec fn accepted(c: ConsumerView, p: PendingView) -> ConsumerView {
    ConsumerView { paused: c.paused.remove(p.record.partition), ..c }
}

/// Snapshot of the consumer.
#[derive(Debug, Clone, PartialEq, Eq)]
pub struct KafkaProcessConsumerSnapshot {
    /// Records that wait for their shard.
    pub pending_records: usize,
    /// Partitions of the records that wait.
    pub pending_partitions: Vec<KafkaTopicPartition>,
    /// Partitions that are paused.
    pub paused_partitions: Vec<KafkaTopicPartition>,
    /// What the broker has told of the partitions.
    pub rebalance: KafkaRebalanceSnapshot,
    /// Unknown values of Durga events.
    pub durga_compat: DurgaCompatibilitySnapshot,
    /// Answers of the broker.
    pub total_polled: u64,
    /// Records accepted.
    pub total_accepted: u64,
}

fn is_listed(list: &Vec<KafkaTopicPartition>, partition: &KafkaTopicPartition) -> (r: bool)
    ensures
        r == views(list@).contains(partition@),
{
    let mut i: usize = 0;
    while i < list.len()
        invariant
            i <= list.len(),
            forall|j: int| 0 <= j < i ==> (#[trigger] list@[j])@ != partition@,
        decreases list.len() - i,
    {
        if let Rank::Same = list[i].rank(partition) {
            assert(views(list@)[i as int] == partition@);
            return true;
        }
        i += 1;
    }
    assert forall|j: int| 0 <= j < views(list@).len() implies views(list@)[j] != partition@ by {
        assert(views(list@)[j] == list@[j]@);
    }
    false
}

/// Whether a step is what a consumer does next when the shard has answered for a record that
/// was taken out, and how that changes the consumer.
pub open spec fn answered(
    before: ConsumerView,
    after: ConsumerView,
    pending: PendingView,
    queued: Result<QueuedIngestOutcome, SitasRuntimeError>,
    r: Result<SubmitStep, KafkaClientError>,
) -> bool {
    match (queued, r) {
        (Ok(q), Ok(SubmitStep::Commit { outcome, resume })) => {
            &&& outcome_of(outcome, pending.record, pending.journal_offset, q)
            &&& opt_view(resume) == (if before.paused.contains(pending.record.partition) {
                Some(pending.record.partition)
            } else {
                None
            })
            &&& after == accepted(before, pending)
        },
        (Err(e), Ok(SubmitStep::Wait { pause })) => {
            &&& says_queue_full(e@)
            &&& opt_view(pause) == (if before.paused.contains(pending.record.partition) {
                None
            } else {
                Some(pending.record.partition)
            })
            &&& after == waiting(before, pending)
        },
        (Err(e), Err(x)) => {
            &&& !says_queue_full(e@)
            &&& x@ == KafkaClientErrorView::Ingest(KafkaIngestErrorView::Runtime(e@))
            &&& after == before
        },
        _ => false,
    }
}

impl KafkaProcessConsumer {
    /// A consumer with nothing pending, if its configuration is valid.
    pub fn start(config: KafkaProcessConsumerConfig) -> (r: Result<Self, KafkaClientError>)
        ensures
            match (config_fault(config@), r) {
                (None, Ok(consumer)) => consumer@ == started(config@),
                (Some(fault), Err(e)) => e@ == KafkaClientErrorView::InvalidConfig(fault),
                _ => false,
            },
    {
        match config.validate() {
            Ok(()) => {},
            Err(e) => return Err(e),
        }
        let consumer = KafkaProcessConsumer {
            config,
            pending: VecDeque::new(),
            paused: SortedSet::new(),
            durga_compat: DurgaCompatibilityState::new(),
            total_polled: 0,
            total_accepted: 0,
        };
        assert(consumer@.pending =~= Seq::<PendingView>::empty());
        Ok(consumer)
    }

    /// The configuration.
    pub fn config(&self) -> (r: &KafkaProcessConsumerConfig)
        ensures
            r@ == self@.config,
    {
        &self.config
    }

    /// The settings of the client.
    pub fn client_settings(&self) -> (r: Vec<(String, String)>)
        ensures
            views(r@) == settings(self@.config),
    {
        let mut out: Vec<(String, String)> = Vec::new();
        out.push(("bootstrap.servers".to_owned(), self.config.brokers.clone()));
        out.push(("group.id".to_owned(), self.config.group_id.clone()));
        out.push(("enable.auto.commit".to_owned(), "false".to_owned()));
        out.push(("auto.offset.reset".to_owned(), self.config.auto_offset_reset.clone()));
        let eof = if self.config.enable_partition_eof {
            "true".to_owned()
        } else {
            "false".to_owned()
        };
        out.push(("enable.partition.eof".to_owned(), eof));
        assert(views(out@) =~= settings(self@.config));
        out
    }

    fn unpause(&mut self, revoked: &Vec<KafkaTopicPartition>)
        ensures
            final(self)@ == (ConsumerView {
                paused: old(self)@.paused.difference(views(revoked@).to_set()),
                ..old(self)@
            }),
    {
        let ghost before = self@;
        let ghost items = views(revoked@);
        let mut i: usize = 0;
        assert(before.paused.difference(items.take(0).to_set()) =~= before.paused);
        while i < revoked.len()
            invariant
                i <= revoked.len(),
                items == views(revoked@),
                self@ == (ConsumerView { paused: before.paused.difference(items.take(i as int).to_set()), ..before }),
            decreases revoked.len() - i,
        {
            let _ = self.paused.remove(&revoked[i]);
            proof {
                lemma_take_set(items, i as int);
                assert(self.paused@ =~= before.paused.difference(items.take(i + 1).to_set()));
            }
            i += 1;
        }
        assert(items.take(revoked.len() as int) =~= items);
    }

    fn find_revoked(&self, revoked: &Vec<KafkaTopicPartition>) -> (r: Option<usize>)
        ensures
            match (r, first_revoked(self@.pending, views(revoked@))) {
                (Some(i), Some(p)) => i < self.pending@.len() && self.pending@[i as int]@ == p,
                (None, None) => true,
                _ => false,
            },
    {
        let ghost all = self@.pending;
        let ghost wanted = views(revoked@);
        let mut i: usize = 0;
        assert(all.skip(0) =~= all);
        while i < self.pending.len()
            invariant
                i <= self.pending@.len(),
                all == views(self.pending@),
                wanted == views(revoked@),
                first_revoked(all, wanted) == first_revoked(all.skip(i as int), wanted),
            decreases self.pending@.len() - i,
        {
            assert(all.skip(i as int)[0] == self.pending@[i as int]@);
            assert(all.skip(i as int).skip(1) =~= all.skip(i + 1));
            if is_listed(revoked, self.pending[i].topic_partition()) {
                return Some(i);
            }
            i += 1;
        }
        None
    }

    /// Takes note of the partitions that have been revoked, and says what is to be done
    /// next. A revoked partition is not paused any more; that a record of one is pending is
    /// an error.
    pub fn begin_poll(&mut self, revoked: &Vec<KafkaTopicPartition>) -> (r: Result<PollStep, KafkaClientError>)
        ensures
            final(self)@ == (ConsumerView {
                paused: old(self)@.paused.difference(views(revoked@).to_set()),
                ..old(self)@
            }),
            match (first_revoked(old(self)@.pending, views(revoked@)), r) {
                (Some(p), Err(e)) => e@ == KafkaClientErrorView::PendingPartitionRevoked(
                    p.record.partition,
                    p.record.offset,
                ),
                (None, Ok(step)) => step == (if old(self)@.pending.len() == 0 {
                    PollStep::Poll
                } else {
                    PollStep::Submit
                }),
                _ => false,
            },
    {
        self.unpause(revoked);
        if let Some(i) = self.find_revoked(revoked) {
            let pending = &self.pending[i];
            return Err(
                KafkaClientError::PendingPartitionRevoked {
                    topic_partition: pending.topic_partition().clone(),
                    offset: pending.offset(),
                },
            );
        }
        if self.pending.len() == 0 {
            Ok(PollStep::Poll)
        } else {
            Ok(PollStep::Submit)
        }
    }

    /// Takes what the broker gave: whether there is now a record to hand over.
    pub fn take_message(&mut self, polled: Polled) -> (r: Result<bool, KafkaClientError>)
        ensures
            match (polled, r) {
                (Polled::Nothing, Ok(there_is)) => !there_is && final(self)@ == old(self)@,
                (Polled::Failed(text), Err(e)) => e@ == KafkaClientErrorView::Kafka(text@) && final(self)@ == (
                ConsumerView { total_polled: one_more(old(self)@.total_polled), ..old(self)@ }),
                (Polled::Message { payload: None, .. }, Err(e)) => e@ == KafkaClientErrorView::MissingPayload
                    && final(self)@ == (ConsumerView {
                    total_polled: one_more(old(self)@.total_polled),
                    ..old(self)@
                }),
                (Polled::Message { topic, partition, offset, payload: Some(bytes), durga }, Err(e)) => {
                    &&& decodes_to(old(self)@.config, topic@, offset, bytes@, durga, Err(e@))
                    &&& final(self)@ == (ConsumerView {
                        total_polled: one_more(old(self)@.total_polled),
                        compat: compat_after_decode(old(self)@.compat, old(self)@.config.payload_format, durga),
                        ..old(self)@
                    })
                },
                (Polled::Message { topic, partition, offset, payload: Some(bytes), durga }, Ok(there_is)) => {
                    &&& there_is
                    &&& exists|event: PipelineEventView| #[trigger]
                        decodes_to(old(self)@.config, topic@, offset, bytes@, durga, Ok(event)) && final(self)@ == (
                        ConsumerView {
                            total_polled: one_more(old(self)@.total_polled),
                            compat: compat_after_decode(old(self)@.compat, old(self)@.config.payload_format, durga),
                            pending: old(self)@.pending.push(
                                PendingView {
                                    record: RecordView {
                                        partition: PartitionView { topic: topic@, partition },
                                        offset,
                                        event,
                                    },
                                    journal_offset: None,
                                },
                            ),
                            ..old(self)@
                        })
                },
                _ => false,
            },
    {
        let (topic, partition, offset, payload, durga) = match polled {
            Polled::Nothing => return Ok(false),
            Polled::Failed(text) => {
                self.total_polled = self.total_polled.saturating_add(1);
                return Err(KafkaClientError::Kafka(text));
            },
            Polled::Message { topic, partition, offset, payload, durga } => (topic, partition, offset, payload, durga),
        };
        self.total_polled = self.total_polled.saturating_add(1);
        let payload = match payload {
            Some(payload) => payload,
            None => return Err(KafkaClientError::MissingPayload),
        };
        let event = match self.config.decode_event(
            topic.as_str(),
            offset,
            payload.as_slice(),
            durga,
            &mut self.durga_compat,
        ) {
            Ok(event) => event,
            Err(e) => return Err(e),
        };
        let ghost view = event@;
        let record = KafkaProcessRecord::new(KafkaTopicPartition::new(topic, partition), KafkaOffset(offset), event);
        let pending = KafkaPendingRecord::new(record);
        let ghost added = pending@;
        let ghost before = self.pending@;
        self.pending.push_back(pending);
        proof {
            assert(views(self.pending@) =~= views(before).push(added));
            assert(decodes_to(old(self)@.config, topic@, offset, payload@, durga, Ok(view)));
        }
        Ok(true)
    }

    /// Takes the record in front out, to be made durable and handed to its shard.
    pub fn begin_submit(&mut self) -> (r: Option<KafkaPendingRecord>)
        ensures
            match r {
                Some(p) => old(self)@.pending.len() > 0 && p@ == old(self)@.pending[0] && final(self)@ == taken(
                    old(self)@,
                ),
                None => old(self)@.pending.len() == 0 && final(self)@ == old(self)@,
            },
    {
        let ghost before = self.pending@;
        let r = self.pending.pop_front();
        proof {
            if before.len() > 0 {
                assert(views(self.pending@) =~= views(before).skip(1));
            } else {
                assert(views(self.pending@) =~= views(before));
            }
        }
        r
    }

    /// Takes the answer of the shard for the record that was handed over. A record for
    /// which there is no room goes back in front.
    pub fn after_submit(
        &mut self,
        pending: KafkaPendingRecord,
        queued: Result<QueuedIngestOutcome, SitasRuntimeError>,
    ) -> (r: Result<SubmitStep, KafkaClientError>)
        ensures
            answered(old(self)@, final(self)@, pending@, queued, r),
    {
        let outcome = match settle_pending(&pending, queued) {
            Ok(outcome) => outcome,
            Err(e) => return Err(KafkaClientError::Ingest(e)),
        };
        let partition = pending.topic_partition().clone();
        let ghost before = self.pending@;
        let ghost view = pending@;
        match outcome {
            None => {
                self.pending.push_front(pending);
                assert(views(self.pending@) =~= seq![view] + views(before));
                let fresh = self.paused.insert(partition.clone());
                Ok(
                    SubmitStep::Wait {
                        pause: if fresh {
                            Some(partition)
                        } else {
                            None
                        },
                    },
                )
            },
            Some(outcome) => {
                let was_paused = self.paused.remove(&partition);
                Ok(
                    SubmitStep::Commit {
                        outcome,
                        resume: if was_paused {
                            Some(partition)
                        } else {
                            None
                        },
                    },
                )
            },
        }
    }

    /// Hands the record that was taken out to the shard that owns its event, if there is room,
    /// and takes the answer of the shard.
    pub fn submit(&mut self, runtime: &SitasShardRuntime, pending: KafkaPendingRecord) -> (r: Result<
        SubmitStep,
        KafkaClientError,
    >)
        ensures
            exists|queued: Result<QueuedIngestOutcome, SitasRuntimeError>|
                {
                    &&& #[trigger] submitted(runtime@, pending@.record.event, queued)
                    &&& answered(old(self)@, final(self)@, pending@, queued, r)
                },
    {
        let queued = runtime.try_submit(pending.event().clone());
        self.after_submit(pending, queued)
    }

    /// Takes the answer of the broker to the commit: the record counts as accepted when its
    /// offset has been committed.
    pub fn after_commit(
        &mut self,
        outcome: KafkaSubmitOutcome,
        committed: Result<(), String>,
    ) -> (r: Result<KafkaSubmitOutcome, KafkaClientError>)
        ensures
            match (committed, r) {
                (Ok(()), Ok(x)) => x == outcome && final(self)@ == (ConsumerView {
                    total_accepted: one_more(old(self)@.total_accepted),
                    ..old(self)@
                }),
                (Err(text), Err(e)) => e@ == KafkaClientErrorView::Commit(text@) && final(self)@ == old(self)@,
                _ => false,
            },
    {
        match committed {
            Ok(()) => {
                self.total_accepted = self.total_accepted.saturating_add(1);
                Ok(outcome)
            },
            Err(text) => Err(KafkaClientError::Commit(text)),
        }
    }

    /// Snapshot of the consumer, with what the broker has told.
    pub fn snapshot(&self, rebalance: KafkaRebalanceSnapshot) -> (r: KafkaProcessConsumerSnapshot)
        ensures
            r.pending_records == self@.pending.len(),
            views(r.pending_partitions@) == self@.pending.map_values(|p: PendingView| p.record.partition),
            views(r.paused_partitions@) == sorted::<KafkaTopicPartition>(self@.paused),
            r.rebalance == rebalance,
            views(r.durga_compat.unknown_status_values@) == count_list(self@.compat.statuses),
            views(r.durga_compat.unknown_event_type_values@) == count_list(self@.compat.event_types),
            r.total_polled == self@.total_polled,
            r.total_accepted == self@.total_accepted,
    {
        let mut partitions: Vec<KafkaTopicPartition> = Vec::new();
        let mut i: usize = 0;
        while i < self.pending.len()
            invariant
                i <= self.pending@.len(),
                partitions.len() == i,
                forall|j: int|
                    0 <= j < i ==> (#[trigger] partitions@[j])@ == self.pending@[j]@.record.partition,
            decreases self.pending@.len() - i,
        {
            partitions.push(self.pending[i].topic_partition().clone());
            i += 1;
        }
        assert(views(partitions@) =~= self@.pending.map_values(|p: PendingView| p.record.partition));
        KafkaProcessConsumerSnapshot {
            pending_records: self.pending.len(),
            pending_partitions: partitions,
            paused_partitions: self.paused.to_vec(),
            rebalance,
            durga_compat: self.durga_compat.snapshot(),
            total_polled: self.total_polled,
            total_accepted: self.total_accepted,
        }
    }
}

// ---------------------------------------------------------------------------
// Laws
// ---------------------------------------------------------------------------

/// The name of a payload format is read back as the format.
pub proof fn law_format_names_are_read_back(f: KafkaPayloadFormat)
    ensures
        named_format(format_name(f)) == Some(f),
{
    reveal_strlit("vannak-binary");
    reveal_strlit("durga-json");
    assert("vannak-binary"@.len() != "durga-json"@.len());
}

/// A record that found no room is kept as it was, with its partition paused, and nothing
/// that was accepted before is lost: taken out and put back, it is in front again.
pub proof fn law_backpressure_keeps_the_record(c: ConsumerView)
    requires
        c.pending.len() > 0,
    ensures
        waiting(taken(c), c.pending[0]) == (ConsumerView {
            paused: c.paused.insert(c.pending[0].record.partition),
            ..c
        }),
{
    assert(seq![c.pending[0]] + c.pending.skip(1) =~= c.pending);
}

/// A record that waited and is then taken leaves the consumer as if it had been taken at
/// once, had its partition not been paused before.
pub proof fn law_acceptance_undoes_the_pause(c: ConsumerView)
    requires
        c.pending.len() > 0,
        !c.paused.contains(c.pending[0].record.partition),
    ensures
        accepted(taken(waiting(taken(c), c.pending[0])), c.pending[0]) == accepted(taken(c), c.pending[0]),
        accepted(taken(c), c.pending[0]) == taken(c),
{
    let p = c.pending[0];
    law_backpressure_keeps_the_record(c);
    assert(c.paused.insert(p.record.partition).remove(p.record.partition) =~= c.paused);
    assert(c.paused.remove(p.record.partition) =~= c.paused);
}

/// A partition that has been revoked is neither assigned nor paused, until it is assigned
/// again.
pub proof fn law_revoked_partitions_are_given_up(
    s: RebalanceView,
    c: ConsumerView,
    revoked: Seq<PartitionView>,
    p: PartitionView,
)
    requires
        revoked.contains(p),
    ensures
        !after_pre_rebalance(s, NoticeView::Revoke(revoked)).assigned.contains(p),
        after_pre_rebalance(s, NoticeView::Revoke(revoked)).pending_revoked.contains(p),
        !c.paused.difference(revoked.to_set()).contains(p),
{
    let i = choose|i: int| 0 <= i < revoked.len() && revoked[i] == p;
    assert((s.pending_revoked + revoked)[s.pending_revoked.len() + i] == p);
}

/// What is not known is counted, and only that: each decoded record adds one for an unknown
/// status and one for an unknown event type.
pub proof fn law_unknown_values_are_counted(c: CompatView, r: DurgaEventRecord, value: Seq<char>)
    ensures
        known_status(r.status@) is Some ==> compat_after(c, r).statuses == c.statuses,
        known_event_type(r.event_type@) is Some ==> compat_after(c, r).event_types == c.event_types,
        known_status(r.status@) is None ==> compat_after(c, r).statuses.contains_key(r.status@),
        value != r.status@ ==> (compat_after(c, r).statuses.contains_key(value) == c.statuses.contains_key(value))
            && (c.statuses.contains_key(value) ==> compat_after(c, r).statuses[value] == c.statuses[value]),
{
}

/// A status is known by its name in either of two spellings and by no other; a name that is
/// not known is kept.
pub proof fn law_durga_statuses_are_known(value: Seq<char>, status: DurgaStatus)
    requires
        status_named(status, value),
    ensures
        status is Started ==> value == "Started"@ || value == "STARTED"@,
        status is Completed ==> value == "Completed"@ || value == "COMPLETED"@,
        status is Failed ==> value == "Failed"@ || value == "FAILED"@,
        status is Escalated ==> value == "Escalated"@ || value == "ESCALATED"@,
        status is Cancelled ==> value == "Cancelled"@ || value == "CANCELLED"@ || value == "Canceled"@ || value
            == "CANCELED"@,
        status matches DurgaStatus::Unknown(name) ==> {
            &&& name@ == value
            &&& value != "Started"@ && value != "STARTED"@ && value != "Completed"@ && value != "COMPLETED"@
            &&& value != "Failed"@ && value != "FAILED"@ && value != "Escalated"@ && value != "ESCALATED"@
            &&& value != "Cancelled"@ && value != "CANCELLED"@ && value != "Canceled"@ && value != "CANCELED"@
        },
{
}

/// An event type is known by its name in either of two spellings and by no other; a name
/// that is not known is kept.
pub proof fn law_durga_event_types_are_known(value: Seq<char>, event_type: DurgaEventType)
    requires
        event_type_named(event_type, value),
    ensures
        event_type is ProcessStarted ==> value == "ProcessStarted"@ || value == "PROCESS_STARTED"@,
        event_type is ActivityEntered ==> value == "ActivityEntered"@ || value == "ACTIVITY_ENTERED"@,
        event_type is ActivityCompleted ==> value == "ActivityCompleted"@ || value == "ACTIVITY_COMPLETED"@,
        event_type is ActivityEscalated ==> value == "ActivityEscalated"@ || value == "ACTIVITY_ESCALATED"@,
        event_type is ActivityCancelled ==> value == "ActivityCancelled"@ || value == "ACTIVITY_CANCELLED"@ || value
            == "ActivityCanceled"@ || value == "ACTIVITY_CANCELED"@,
        event_type is GatewayTaken ==> value == "GatewayTaken"@ || value == "GATEWAY_TAKEN"@,
        event_type is ProcessCompleted ==> value == "ProcessCompleted"@ || value == "PROCESS_COMPLETED"@,
        event_type is ProcessFailed ==> value == "ProcessFailed"@ || value == "PROCESS_FAILED"@,
        event_type matches DurgaEventType::Unknown(name) ==> {
            &&& name@ == value
            &&& value != "ProcessStarted"@ && value != "PROCESS_STARTED"@ && value != "ActivityEntered"@ && value
                != "ACTIVITY_ENTERED"@
            &&& value != "ActivityCompleted"@ && value != "ACTIVITY_COMPLETED"@ && value != "ActivityEscalated"@ && value
                != "ACTIVITY_ESCALATED"@
            &&& value != "ActivityCancelled"@ && value != "ACTIVITY_CANCELLED"@ && value != "ActivityCanceled"@ && value
                != "ACTIVITY_CANCELED"@
            &&& value != "GatewayTaken"@ && value != "GATEWAY_TAKEN"@ && value != "ProcessCompleted"@ && value
                != "PROCESS_COMPLETED"@
            &&& value != "ProcessFailed"@ && value != "PROCESS_FAILED"@
        },
{
}

/// A reference is carried over exactly if its kind is one of nine: it keeps its identifier,
/// and its version where it is to a schema or to the definition of a pipeline. References
/// keep their order.
pub proof fn law_references_are_carried(records: Seq<RefRecordView>, r: RefRecordView)
    ensures
        carried_ref(r) is Some <==> r.kind == "dataset"@ || r.kind == "schema"@ || r.kind == "field"@ || r.kind
            == "pipelineDefinition"@ || r.kind == "object"@ || r.kind == "lineageEdge"@ || r.kind == "dataContract"@
            || r.kind == "owner"@ || r.kind == "classification"@,
        carried_ref(r) matches Some(x) ==> {
            &&& x.id == r.id
            &&& x.variant == 0 ==> r.kind == "dataset"@
            &&& x.variant == 1 ==> r.kind == "schema"@
            &&& x.variant == 2 ==> r.kind == "field"@
            &&& x.variant == 3 ==> r.kind == "pipelineDefinition"@
            &&& x.variant == 4 ==> r.kind == "object"@
            &&& x.variant == 5 ==> r.kind == "lineageEdge"@
            &&& x.variant == 6 ==> r.kind == "dataContract"@
            &&& x.variant == 7 ==> r.kind == "owner"@
            &&& x.variant == 8 ==> r.kind == "classification"@
            &&& 0 <= x.variant <= 8
            &&& x.variant == 1 || x.variant == 3 ==> x.version == r.version
            &&& x.variant != 1 && x.variant != 3 ==> x.version is None
        },
        carried_refs(Seq::empty()).len() == 0,
        carried_ref(r) matches Some(x) ==> carried_refs(records.push(r)) == carried_refs(records).push(x),
        carried_ref(r) is None ==> carried_refs(records.push(r)) == carried_refs(records),
{
    assert(records.push(r).drop_last() =~= records);
}

/// A Durga record becomes an event with its fields as they are, read from its topic at its
/// offset for the tenant and the environment of the consumer.
pub proof fn law_durga_records_are_carried(
    config: ConsumerConfigView,
    topic: Seq<char>,
    offset: i64,
    payload: Seq<u8>,
    record: DurgaEventRecord,
    r: Result<PipelineEventView, KafkaClientErrorView>,
)
    requires
        config.payload_format == KafkaPayloadFormat::DurgaJson,
        decodes_to(config, topic, offset, payload, Ok(record), r),
    ensures
        r matches Ok(event) && {
            &&& event.process_instance_id == record.process_instance_id@
            &&& event.pipeline_id == record.process_id@ && event.process_definition_id == record.process_id@
            &&& event.timestamp == record.timestamp@
            &&& event.tenant_id == config.durga_tenant_id && event.environment_id == config.durga_environment_id
            &&& event.source_id == config.durga_source_id + ":"@ + topic
            &&& offset >= 0 ==> event.source_sequence == offset
            &&& offset < 0 ==> event.source_sequence == 0
            &&& record.activity_id matches Some(a) ==> event.activity_id == Some(a@)
            &&& record.activity_id is None ==> event.activity_id is None
            &&& record.payload matches Some(a) ==> event.payload == Some(a@)
            &&& record.token_id matches Some(a) ==> event.token_id == Some(a@)
            &&& record.correlation_id matches Some(a) ==> event.correlation_id == Some(a@)
            &&& record.business_key matches Some(a) ==> event.business_key == Some(a@)
            &&& record.process_version matches Some(a) ==> event.process_version == Some(a@)
            &&& event.kind is ProcessFailed ==> record.event_type@ == "ProcessFailed"@ || record.event_type@
                == "PROCESS_FAILED"@
            &&& event.kind is ProcessCompleted ==> record.event_type@ == "ProcessCompleted"@ || record.event_type@
                == "PROCESS_COMPLETED"@
            &&& event.kind is Unknown ==> event.kind == crate::process::EventKindView::Unknown(record.event_type@)
        },
{
    let e = choose|e: DurgaProcessEvent| #[trigger]
        carried_event(e, record) && r == Ok::<PipelineEventView, KafkaClientErrorView>(
            pipeline_event_of(
                e,
                durga_source(config, topic),
                sequence_of(offset),
                config.durga_tenant_id,
                config.durga_environment_id,
            ),
        );
    law_durga_event_types_are_known(record.event_type@, e.event_type);
    crate::durga::law_event_types_keep_their_meaning(e.event_type, e.event_type);
    crate::process::law_kinds_keep_their_names(crate::durga::kind_of(e.event_type));
}

/// What cannot be read is an error of the format it should have: binary events are decoded
/// as they stand, whatever a reader of JSON says.
pub proof fn law_formats_are_kept_apart(
    config: ConsumerConfigView,
    topic: Seq<char>,
    offset: i64,
    payload: Seq<u8>,
    durga: Result<DurgaEventRecord, String>,
    r: Result<PipelineEventView, KafkaClientErrorView>,
)
    requires
        decodes_to(config, topic, offset, payload, durga, r),
    ensures
        config.payload_format == KafkaPayloadFormat::VannakBinary ==> {
            &&& parse_event(payload) matches Ok(event) ==> r == Ok::<PipelineEventView, KafkaClientErrorView>(event)
            &&& parse_event(payload) matches Err(e) ==> r == Err::<PipelineEventView, KafkaClientErrorView>(
                KafkaClientErrorView::Decode(e),
            )
        },
        config.payload_format == KafkaPayloadFormat::DurgaJson ==> {
            &&& durga matches Err(text) ==> r == Err::<PipelineEventView, KafkaClientErrorView>(
                KafkaClientErrorView::DurgaJson(text@),
            )
            &&& durga is Ok ==> r is Ok
        },
        format_name(KafkaPayloadFormat::VannakBinary) == "vannak-binary"@ && format_name(KafkaPayloadFormat::DurgaJson)
            == "durga-json"@,
{
}

/// A consumer can be used exactly if its brokers, its group and its start are not blank and
/// it has a topic and no blank one; else the first of these is named.
pub proof fn law_usable_configurations(c: ConsumerConfigView)
    ensures
        config_fault(c) is None <==> !is_blank(c.brokers) && !is_blank(c.group_id) && c.topics.len() > 0 && (forall|
            i: int,
        |
            0 <= i < c.topics.len() ==> !is_blank(#[trigger] c.topics[i])) && !is_blank(c.auto_offset_reset),
        is_blank(c.brokers) ==> config_fault(c) == Some("brokers must not be empty"@),
        !is_blank(c.brokers) && is_blank(c.group_id) ==> config_fault(c) == Some("group id must not be empty"@),
        !is_blank(c.brokers) && !is_blank(c.group_id) && (c.topics.len() == 0 || exists|i: int|
            0 <= i < c.topics.len() && is_blank(#[trigger] c.topics[i])) ==> config_fault(c) == Some(
            "at least one non-empty topic is required"@,
        ),
{
}

/// A consumer never lets the broker commit for it: it commits what its shards have taken.
pub proof fn law_consumer_settings(c: ConsumerConfigView)
    ensures
        settings(c).contains(("enable.auto.commit"@, "false"@)),
        settings(c).contains(("bootstrap.servers"@, c.brokers)),
        settings(c).contains(("group.id"@, c.group_id)),
        settings(c).contains(("auto.offset.reset"@, c.auto_offset_reset)),
        c.enable_partition_eof ==> settings(c).contains(("enable.partition.eof"@, "true"@)),
        !c.enable_partition_eof ==> settings(c).contains(("enable.partition.eof"@, "false"@)),
        settings(c).len() == 5,
{
    let s = settings(c);
    assert(s[0] == ("bootstrap.servers"@, c.brokers));
    assert(s[1] == ("group.id"@, c.group_id));
    assert(s[2] == ("enable.auto.commit"@, "false"@));
    assert(s[3] == ("auto.offset.reset"@, c.auto_offset_reset));
    assert(s[4].0 == "enable.partition.eof"@);
}

/// A notice that partitions are taken away takes them from those held and puts them behind
/// those to be told of; one that partitions are given holds exactly these; and each notice is
/// counted by what it says.
pub proof fn law_rebalance_notices(s: RebalanceView, list: Seq<PartitionView>, text: Seq<char>, p: PartitionView)
    ensures
        ({
            let after = after_pre_rebalance(s, NoticeView::Revoke(list));
            &&& after.assigned.contains(p) <==> s.assigned.contains(p) && !list.contains(p)
            &&& after.revoked == s.revoked + list && after.pending_revoked == s.pending_revoked + list
            &&& s.revocation_count < u64::MAX ==> after.revocation_count == s.revocation_count + 1
            &&& s.pre_rebalance_count < u64::MAX ==> after.pre_rebalance_count == s.pre_rebalance_count + 1
            &&& after.assignment_count == s.assignment_count && after.error_count == s.error_count
            &&& after.last_event == Some(NoticeView::Revoke(list))
        }),
        ({
            let after = after_pre_rebalance(s, NoticeView::Assign(list));
            &&& after.assigned == s.assigned && after.revoked == s.revoked && after.pending_revoked == s.pending_revoked
            &&& s.assignment_count < u64::MAX ==> after.assignment_count == s.assignment_count + 1
            &&& after.revocation_count == s.revocation_count && after.error_count == s.error_count
        }),
        ({
            let after = after_pre_rebalance(s, NoticeView::Error(text));
            &&& after.assigned == s.assigned && after.revoked == s.revoked && after.pending_revoked == s.pending_revoked
            &&& s.error_count < u64::MAX ==> after.error_count == s.error_count + 1
            &&& after.revocation_count == s.revocation_count && after.assignment_count == s.assignment_count
        }),
        ({
            let after = after_post_rebalance(s, NoticeView::Assign(list));
            &&& after.assigned.contains(p) <==> list.contains(p)
            &&& s.post_rebalance_count < u64::MAX ==> after.post_rebalance_count == s.post_rebalance_count + 1
            &&& after.pre_rebalance_count == s.pre_rebalance_count && after.revoked == s.revoked
        }),
        after_post_rebalance(s, NoticeView::Revoke(list)).assigned == s.assigned,
        after_post_rebalance(s, NoticeView::Error(text)).assigned == s.assigned,
{
}

/// What a shard answers decides what becomes of a record. Taken, it is to be committed, and
/// its partition runs again if it was held up; with a full queue it waits in front of all
/// others, and its partition is held up; with any other refusal nothing changes.
pub proof fn law_answers_of_shards(
    before: ConsumerView,
    after: ConsumerView,
    pending: PendingView,
    queued: Result<QueuedIngestOutcome, SitasRuntimeError>,
    r: Result<SubmitStep, KafkaClientError>,
)
    requires
        answered(before, after, pending, queued, r),
    ensures
        ({
            let p = pending.record.partition;
            &&& queued is Ok ==> {
                &&& r is Ok && r->Ok_0 is Commit
                &&& after.pending == before.pending
                &&& !after.paused.contains(p)
                &&& forall|x: PartitionView|
                    x != p ==> #[trigger] after.paused.contains(x) == before.paused.contains(x)
            }
            &&& queued matches Err(e) ==> {
                &&& says_queue_full(e@) ==> {
                    &&& r is Ok && r->Ok_0 is Wait
                    &&& after.pending.len() == before.pending.len() + 1 && after.pending[0] == pending
                        && after.pending.skip(1) == before.pending
                    &&& after.paused.contains(p)
                    &&& forall|x: PartitionView|
                        x != p ==> #[trigger] after.paused.contains(x) == before.paused.contains(x)
                }
                &&& !says_queue_full(e@) ==> r is Err && after == before
            }
            &&& after.total_accepted == before.total_accepted && after.total_polled == before.total_polled
        }),
{
    if queued is Err && says_queue_full(queued->Err_0@) {
        assert(after.pending.skip(1) =~= before.pending);
    }
}

/// The record of a partition that was taken away is the first of those that wait.
pub proof fn law_first_revoked_record(pending: Seq<PendingView>, revoked: Seq<PartitionView>)
    ensures
        match first_revoked(pending, revoked) {
            None => forall|i: int|
                0 <= i < pending.len() ==> !revoked.contains((#[trigger] pending[i]).record.partition),
            Some(p) => revoked.contains(p.record.partition) && exists|i: int|
                {
                    &&& 0 <= i < pending.len()
                    &&& #[trigger] pending[i] == p
                    &&& forall|j: int| 0 <= j < i ==> !revoked.contains((#[trigger] pending[j]).record.partition)
                },
        },
    decreases pending.len(),
{
    if pending.len() > 0 {
        if revoked.contains(pending[0].record.partition) {
            assert(pending[0] == first_revoked(pending, revoked)->0);
        } else {
            let tail = pending.skip(1);
            law_first_revoked_record(tail, revoked);
            match first_revoked(tail, revoked) {
                None => {
                    assert forall|i: int| 0 <= i < pending.len() implies !revoked.contains(
                        (#[trigger] pending[i]).record.partition,
                    ) by {
                        if i > 0 {
                            assert(pending[i] == tail[i - 1]);
                        }
                    }
                },
                Some(p) => {
                    let i = choose|i: int|
                        {
                            &&& 0 <= i < tail.len()
                            &&& #[trigger] tail[i] == p
                            &&& forall|j: int|
                                0 <= j < i ==> !revoked.contains((#[trigger] tail[j]).record.partition)
                        };
                    assert(pending[i + 1] == p);
                    assert forall|j: int| 0 <= j < i + 1 implies !revoked.contains(
                        (#[trigger] pending[j]).record.partition,
                    ) by {
                        if j > 0 {
                            assert(pending[j] == tail[j - 1]);
                        }
                    }
                },
            }
        }
    }
}

} // verus!
