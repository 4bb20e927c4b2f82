//! Process events accepted by the hot path.

use vstd::prelude::*;
use crate::metadata::{MetadataRef, MetadataRefView, MetadataVersion};
use crate::ordered::{
    duplicate_all, opt_view, rank_str, text_before, text_before_connected, text_before_irreflexive,
    text_before_transitive, views, Duplicate, Key, Rank,
};
use crate::process::{
    implied_status, ActivityId, BusinessKey, CorrelationId, EnvironmentId, ErrorInfo, ErrorInfoView, EventKind,
    EventKindView, EventStatus, PipelineId, ProcessDefinitionId, ProcessInstanceId, ProcessVersion, TenantId,
    TokenId,
};
use crate::text::{push_text, IntoText};
use crate::timestamp::{duration_between, saturating_duration};

verus! {

/// Identifier of an event.
#[derive(Debug, PartialEq, Eq, PartialOrd, Ord, Hash)]
pub struct EventId(String);

impl View for EventId {
    type V = Seq<char>;

    closed spec fn view(&self) -> Seq<char> {
        self.0@
    }
}

impl EventId {
    /// Wraps a text.
    pub fn new(value: impl IntoText) -> (r: Self)
        ensures
            r@ == value.text(),
    {
        EventId(value.into_text())
    }

    /// The wrapped text.
    pub fn as_str(&self) -> (r: &str)
        ensures
            r@ == self@,
    {
        self.0.as_str()
    }
}

impl Clone for EventId {
    fn clone(&self) -> (r: Self)
        ensures
            r == *self,
    {
        EventId(self.0.clone())
    }
}

impl Duplicate for EventId {
    fn duplicate(&self) -> (r: Self) {
        self.clone()
    }
}

impl From<&str> for EventId {
    fn from(value: &str) -> (r: Self)
        ensures
            r@ == value@,
    {
        EventId(value.to_owned())
    }
}

impl vstd::std_specs::convert::FromSpecImpl<&str> for EventId {
    open spec fn obeys_from_spec() -> bool {
        false
    }

    open spec fn from_spec(v: &str) -> Self {
        arbitrary()
    }
}

impl From<String> for EventId {
    fn from(value: String) -> (r: Self)
        ensures
            r@ == value@,
    {
        EventId(value)
    }
}

impl vstd::std_specs::convert::FromSpecImpl<String> for EventId {
    open spec fn obeys_from_spec() -> bool {
        false
    }

    open spec fn from_spec(v: String) -> Self {
        arbitrary()
    }
}

impl Key for EventId {
    open spec fn before(a: Seq<char>, b: Seq<char>) -> bool {
        text_before(a, b)
    }

    proof fn before_irreflexive(a: Seq<char>) {
        text_before_irreflexive(a);
    }

    proof fn before_transitive(a: Seq<char>, b: Seq<char>, c: Seq<char>) {
        text_before_transitive(a, b, c);
    }

    proof fn before_connected(a: Seq<char>, b: Seq<char>) {
        text_before_connected(a, b);
    }

    fn rank(&self, other: &Self) -> (r: Rank) {
        rank_str(self.as_str(), other.as_str())
    }
}

/// Identifier of an event source.
#[derive(Debug, PartialEq, Eq, PartialOrd, Ord, Hash)]
pub struct SourceId(String);

impl View for SourceId {
    type V = Seq<char>;

    closed spec fn view(&self) -> Seq<char> {
        self.0@
    }
}

impl SourceId {
    /// Wraps a text.
    pub fn new(value: impl IntoText) -> (r: Self)
        ensures
            r@ == value.text(),
    {
        SourceId(value.into_text())
    }

    /// The wrapped text.
    pub fn as_str(&self) -> (r: &str)
        ensures
            r@ == self@,
    {
        self.0.as_str()
    }
}

impl Clone for SourceId {
    fn clone(&self) -> (r: Self)
        ensures
            r == *self,
    {
        SourceId(self.0.clone())
    }
}

impl Duplicate for SourceId {
    fn duplicate(&self) -> (r: Self) {
        self.clone()
    }
}

impl From<&str> for SourceId {
    fn from(value: &str) -> (r: Self)
        ensures
            r@ == value@,
    {
        SourceId(value.to_owned())
    }
}

impl vstd::std_specs::convert::FromSpecImpl<&str> for SourceId {
    open spec fn obeys_from_spec() -> bool {
        false
    }

    open spec fn from_spec(v: &str) -> Self {
        arbitrary()
    }
}

impl From<String> for SourceId {
    fn from(value: String) -> (r: Self)
        ensures
            r@ == value@,
    {
        SourceId(value)
    }
}

impl vstd::std_specs::convert::FromSpecImpl<String> for SourceId {
    open spec fn obeys_from_spec() -> bool {
        false
    }

    open spec fn from_spec(v: String) -> Self {
        arbitrary()
    }
}

impl Key for SourceId {
    open spec fn before(a: Seq<char>, b: Seq<char>) -> bool {
        text_before(a, b)
    }

    proof fn before_irreflexive(a: Seq<char>) {
        text_before_irreflexive(a);
    }

    proof fn before_transitive(a: Seq<char>, b: Seq<char>, c: Seq<char>) {
        text_before_transitive(a, b, c);
    }

    proof fn before_connected(a: Seq<char>, b: Seq<char>) {
        text_before_connected(a, b);
    }

    fn rank(&self, other: &Self) -> (r: Rank) {
        rank_str(self.as_str(), other.as_str())
    }
}

/// Event timestamp: an ISO-8601 instant kept as the text that its source published.
#[derive(Debug, PartialEq, Eq, PartialOrd, Ord, Hash)]
pub struct EventTimestamp(String);

impl View for EventTimestamp {
    type V = Seq<char>;

    closed spec fn view(&self) -> Seq<char> {
        self.0@
    }
}

impl EventTimestamp {
    /// Wraps a text.
    pub fn new(value: impl IntoText) -> (r: Self)
        ensures
            r@ == value.text(),
    {
        EventTimestamp(value.into_text())
    }

    /// The wrapped text.
    pub fn as_str(&self) -> (r: &str)
        ensures
            r@ == self@,
    {
        self.0.as_str()
    }
}

impl Clone for EventTimestamp {
    fn clone(&self) -> (r: Self)
        ensures
            r == *self,
    {
        EventTimestamp(self.0.clone())
    }
}

impl Duplicate for EventTimestamp {
    fn duplicate(&self) -> (r: Self) {
        self.clone()
    }
}

impl From<&str> for EventTimestamp {
    fn from(value: &str) -> (r: Self)
        ensures
            r@ == value@,
    {
        EventTimestamp(value.to_owned())
    }
}

impl vstd::std_specs::convert::FromSpecImpl<&str> for EventTimestamp {
    open spec fn obeys_from_spec() -> bool {
        false
    }

    open spec fn from_spec(v: &str) -> Self {
        arbitrary()
    }
}

impl From<String> for EventTimestamp {
    fn from(value: String) -> (r: Self)
        ensures
            r@ == value@,
    {
        EventTimestamp(value)
    }
}

impl vstd::std_specs::convert::FromSpecImpl<String> for EventTimestamp {
    open spec fn obeys_from_spec() -> bool {
        false
    }

    open spec fn from_spec(v: String) -> Self {
        arbitrary()
    }
}

impl Key for EventTimestamp {
    open spec fn before(a: Seq<char>, b: Seq<char>) -> bool {
        text_before(a, b)
    }

    proof fn before_irreflexive(a: Seq<char>) {
        text_before_irreflexive(a);
    }

    proof fn before_transitive(a: Seq<char>, b: Seq<char>, c: Seq<char>) {
        text_before_transitive(a, b, c);
    }

    proof fn before_connected(a: Seq<char>, b: Seq<char>) {
        text_before_connected(a, b);
    }

    fn rank(&self, other: &Self) -> (r: Rank) {
        rank_str(self.as_str(), other.as_str())
    }
}

impl EventTimestamp {
    /// Milliseconds from this instant to a later one; zero if it is not later or if one
    /// of the two cannot be read.
    pub fn saturating_duration_until(&self, later: &Self) -> (r: u64)
        ensures
            r == duration_between(self@, later@),
    {
        saturating_duration(self.as_str(), later.as_str())
    }
}

/// Position of an event in its source.
#[derive(Debug, Clone, Copy, PartialEq, Eq, PartialOrd, Ord, Hash)]
pub struct SourceSequence(pub u64);

/// Validated process event accepted by the hot path.
#[derive(Debug, PartialEq, Eq)]
pub struct PipelineEvent {
    event_id: EventId,
    source_id: SourceId,
    source_sequence: SourceSequence,
    tenant_id: TenantId,
    environment_id: EnvironmentId,
    pipeline_id: PipelineId,
    process_definition_id: ProcessDefinitionId,
    process_instance_id: ProcessInstanceId,
    process_version: Option<ProcessVersion>,
    activity_id: Option<ActivityId>,
    token_id: Option<TokenId>,
    correlation_id: Option<CorrelationId>,
    business_key: Option<BusinessKey>,
    timestamp: EventTimestamp,
    status: EventStatus,
    kind: EventKind,
    error: Option<ErrorInfo>,
    metadata_refs: Vec<MetadataRef>,
    metadata_version: Option<MetadataVersion>,
    causal_parent: Option<EventId>,
    payload: Option<String>,
}

/// The view of a process event.
pub struct PipelineEventView {
    pub event_id: Seq<char>,
    pub source_id: Seq<char>,
    pub source_sequence: u64,
    pub tenant_id: Seq<char>,
    pub environment_id: Seq<char>,
    pub pipeline_id: Seq<char>,
    pub process_definition_id: Seq<char>,
    pub process_instance_id: Seq<char>,
    pub process_version: Option<Seq<char>>,
    pub activity_id: Option<Seq<char>>,
    pub token_id: Option<Seq<char>>,
    pub correlation_id: Option<Seq<char>>,
    pub business_key: Option<Seq<char>>,
    pub timestamp: Seq<char>,
    pub status: EventStatus,
    pub kind: EventKindView,
    pub error: Option<ErrorInfoView>,
    pub metadata_refs: Seq<MetadataRefView>,
    pub metadata_version: Option<Seq<char>>,
    pub causal_parent: Option<Seq<char>>,
    pub payload: Option<Seq<char>>,
}

impl View for PipelineEvent {
    type V = PipelineEventView;

    closed spec fn view(&self) -> PipelineEventView {
        PipelineEventView {
            event_id: self.event_id@,
            source_id: self.source_id@,
            source_sequence: self.source_sequence.0,
            tenant_id: self.tenant_id@,
            environment_id: self.environment_id@,
            pipeline_id: self.pipeline_id@,
            process_definition_id: self.process_definition_id@,
            process_instance_id: self.process_instance_id@,
            process_version: opt_view(self.process_version),
            activity_id: opt_view(self.activity_id),
            token_id: opt_view(self.token_id),
            correlation_id: opt_view(self.correlation_id),
            business_key: opt_view(self.business_key),
            timestamp: self.timestamp@,
            status: self.status,
            kind: self.kind@,
            error: opt_view(self.error),
            metadata_refs: views(self.metadata_refs@),
            metadata_version: opt_view(self.metadata_version),
            causal_parent: opt_view(self.causal_parent),
            payload: opt_view(self.payload),
        }
    }
}

impl Clone for PipelineEvent {
    fn clone(&self) -> (r: Self)
        ensures
            r@ == self@,
    {
        PipelineEvent {
            event_id: self.event_id.clone(),
            source_id: self.source_id.clone(),
            source_sequence: self.source_sequence,
            tenant_id: self.tenant_id.clone(),
            environment_id: self.environment_id.clone(),
            pipeline_id: self.pipeline_id.clone(),
            process_definition_id: self.process_definition_id.clone(),
            process_instance_id: self.process_instance_id.clone(),
            process_version: self.process_version.clone(),
            activity_id: self.activity_id.clone(),
            token_id: self.token_id.clone(),
            correlation_id: self.correlation_id.clone(),
            business_key: self.business_key.clone(),
            timestamp: self.timestamp.clone(),
            status: self.status,
            kind: self.kind.clone(),
            error: self.error.clone(),
            metadata_refs: duplicate_all(&self.metadata_refs),
            metadata_version: self.metadata_version.clone(),
            causal_parent: self.causal_parent.clone(),
            payload: self.payload.clone(),
        }
    }
}

impl Duplicate for PipelineEvent {
    fn duplicate(&self) -> (r: Self) {
        self.clone()
    }
}

/// The first required field of an event that is empty.
pub open spec fn empty_field(event: PipelineEventView) -> Option<Seq<char>> {
    if event.event_id.len() == 0 {
        Some("event_id"@)
    } else if event.source_id.len() == 0 {
        Some("source_id"@)
    } else if event.tenant_id.len() == 0 {
        Some("tenant_id"@)
    } else if event.environment_id.len() == 0 {
        Some("environment_id"@)
    } else if event.pipeline_id.len() == 0 {
        Some("pipeline_id"@)
    } else if event.process_definition_id.len() == 0 {
        Some("process_definition_id"@)
    } else if event.process_instance_id.len() == 0 {
        Some("process_instance_id"@)
    } else if event.timestamp.len() == 0 {
        Some("timestamp"@)
    } else {
        None
    }
}

/// Whether every required field of an event is filled.
pub open spec fn is_valid(event: PipelineEventView) -> bool {
    empty_field(event) is None
}

impl PipelineEvent {
    /// An event of a given kind; its status is the one that the kind implies.
    pub fn new(
        event_id: EventId,
        source_id: SourceId,
        source_sequence: SourceSequence,
        tenant_id: TenantId,
        environment_id: EnvironmentId,
        pipeline_id: PipelineId,
        process_definition_id: ProcessDefinitionId,
        process_instance_id: ProcessInstanceId,
        timestamp: EventTimestamp,
        kind: EventKind,
    ) -> (r: Self)
        ensures
            r@ == (PipelineEventView {
                event_id: event_id@,
                source_id: source_id@,
                source_sequence: source_sequence.0,
                tenant_id: tenant_id@,
                environment_id: environment_id@,
                pipeline_id: pipeline_id@,
                process_definition_id: process_definition_id@,
                process_instance_id: process_instance_id@,
                process_version: None,
                activity_id: None,
                token_id: None,
                correlation_id: None,
                business_key: None,
                timestamp: timestamp@,
                status: implied_status(kind@),
                kind: kind@,
                error: None,
                metadata_refs: Seq::empty(),
                metadata_version: None,
                causal_parent: None,
                payload: None,
            }),
    {
        let status = kind.clone().inferred_status();
        let metadata_refs: Vec<MetadataRef> = Vec::new();
        assert(views(metadata_refs@) =~= Seq::<MetadataRefView>::empty());
        PipelineEvent {
            event_id,
            source_id,
            source_sequence,
            tenant_id,
            environment_id,
            pipeline_id,
            process_definition_id,
            process_instance_id,
            process_version: None,
            activity_id: None,
            token_id: None,
            correlation_id: None,
            business_key: None,
            timestamp,
            status,
            kind,
            error: None,
            metadata_refs,
            metadata_version: None,
            causal_parent: None,
            payload: None,
        }
    }

    /// The event with another status.
    pub fn with_status(self, status: EventStatus) -> (r: Self)
        ensures
            r@ == (PipelineEventView { status, ..self@ }),
    {
        PipelineEvent { status, ..self }
    }

    /// The event with a process version.
    pub fn with_process_version(self, version: ProcessVersion) -> (r: Self)
        ensures
            r@ == (PipelineEventView { process_version: Some(version@), ..self@ }),
    {
        PipelineEvent { process_version: Some(version), ..self }
    }

    /// The event with an activity.
    pub fn with_activity_id(self, activity_id: ActivityId) -> (r: Self)
        ensures
            r@ == (PipelineEventView { activity_id: Some(activity_id@), ..self@ }),
    {
        PipelineEvent { activity_id: Some(activity_id), ..self }
    }

    /// The event with a token.
    pub fn with_token_id(self, token_id: TokenId) -> (r: Self)
        ensures
            r@ == (PipelineEventView { token_id: Some(token_id@), ..self@ }),
    {
        PipelineEvent { token_id: Some(token_id), ..self }
    }

    /// The event with a correlation.
    pub fn with_correlation_id(self, correlation_id: CorrelationId) -> (r: Self)
        ensures
            r@ == (PipelineEventView { correlation_id: Some(correlation_id@), ..self@ }),
    {
        PipelineEvent { correlation_id: Some(correlation_id), ..self }
    }

    /// The event with a business key.
    pub fn with_business_key(self, business_key: BusinessKey) -> (r: Self)
        ensures
            r@ == (PipelineEventView { business_key: Some(business_key@), ..self@ }),
    {
        PipelineEvent { business_key: Some(business_key), ..self }
    }

    /// The event with an error.
    pub fn with_error(self, error: ErrorInfo) -> (r: Self)
        ensures
            r@ == (PipelineEventView { error: Some(error@), ..self@ }),
    {
        PipelineEvent { error: Some(error), ..self }
    }

    /// The event with a metadata version.
    pub fn with_metadata_version(self, metadata_version: MetadataVersion) -> (r: Self)
        ensures
            r@ == (PipelineEventView { metadata_version: Some(metadata_version@), ..self@ }),
    {
        PipelineEvent { metadata_version: Some(metadata_version), ..self }
    }

    /// The event with the event that caused it.
    pub fn with_causal_parent(self, causal_parent: EventId) -> (r: Self)
        ensures
            r@ == (PipelineEventView { causal_parent: Some(causal_parent@), ..self@ }),
    {
        PipelineEvent { causal_parent: Some(causal_parent), ..self }
    }

    /// The event with other metadata references.
    pub fn with_metadata_refs(self, metadata_refs: Vec<MetadataRef>) -> (r: Self)
        ensures
            r@ == (PipelineEventView { metadata_refs: views(metadata_refs@), ..self@ }),
    {
        PipelineEvent { metadata_refs, ..self }
    }

    /// The event with a payload.
    pub fn with_payload(self, payload: impl IntoText) -> (r: Self)
        ensures
            r@ == (PipelineEventView { payload: Some(payload.text()), ..self@ }),
    {
        PipelineEvent { payload: Some(payload.into_text()), ..self }
    }

    /// Checks that every required field is filled, in the order of the fields.
    pub fn validate(&self) -> (r: Result<(), IngestError>)
        ensures
            r is Ok <==> is_valid(self@),
            r matches Err(e) ==> empty_field(self@) == Some(e->field@),
    {
        validate_non_empty("event_id", self.event_id.as_str())?;
        validate_non_empty("source_id", self.source_id.as_str())?;
        validate_non_empty("tenant_id", self.tenant_id.as_str())?;
        validate_non_empty("environment_id", self.environment_id.as_str())?;
        validate_non_empty("pipeline_id", self.pipeline_id.as_str())?;
        validate_non_empty("process_definition_id", self.process_definition_id.as_str())?;
        validate_non_empty("process_instance_id", self.process_instance_id.as_str())?;
        validate_non_empty("timestamp", self.timestamp.as_str())?;
        Ok(())
    }

    /// The event identifier of the event.
    pub fn event_id(&self) -> (r: &EventId)
        ensures
            r@ == self@.event_id,
    {
        &self.event_id
    }

    /// The source identifier of the event.
    pub fn source_id(&self) -> (r: &SourceId)
        ensures
            r@ == self@.source_id,
    {
        &self.source_id
    }

    /// The position of the event in its source.
    pub fn source_sequence(&self) -> (r: SourceSequence)
        ensures
            r.0 == self@.source_sequence,
    {
        self.source_sequence
    }

    /// The tenant identifier of the event.
    pub fn tenant_id(&self) -> (r: &TenantId)
        ensures
            r@ == self@.tenant_id,
    {
        &self.tenant_id
    }

    /// The environment identifier of the event.
    pub fn environment_id(&self) -> (r: &EnvironmentId)
        ensures
            r@ == self@.environment_id,
    {
        &self.environment_id
    }

    /// The pipeline identifier of the event.
    pub fn pipeline_id(&self) -> (r: &PipelineId)
        ensures
            r@ == self@.pipeline_id,
    {
        &self.pipeline_id
    }

    /// The process definition identifier of the event.
    pub fn process_definition_id(&self) -> (r: &ProcessDefinitionId)
        ensures
            r@ == self@.process_definition_id,
    {
        &self.process_definition_id
    }

    /// The process instance identifier of the event.
    pub fn process_instance_id(&self) -> (r: &ProcessInstanceId)
        ensures
            r@ == self@.process_instance_id,
    {
        &self.process_instance_id
    }

    /// The timestamp of the event.
    pub fn timestamp(&self) -> (r: &EventTimestamp)
        ensures
            r@ == self@.timestamp,
    {
        &self.timestamp
    }

    /// The process version of the event, where it has one.
    pub fn process_version(&self) -> (r: Option<&ProcessVersion>)
        ensures
            opt_view(r) == self@.process_version,
    {
        self.process_version.as_ref()
    }

    /// The activity identifier of the event, where it has one.
    pub fn activity_id(&self) -> (r: Option<&ActivityId>)
        ensures
            opt_view(r) == self@.activity_id,
    {
        self.activity_id.as_ref()
    }

    /// The token identifier of the event, where it has one.
    pub fn token_id(&self) -> (r: Option<&TokenId>)
        ensures
            opt_view(r) == self@.token_id,
    {
        self.token_id.as_ref()
    }

    /// The correlation identifier of the event, where it has one.
    pub fn correlation_id(&self) -> (r: Option<&CorrelationId>)
        ensures
            opt_view(r) == self@.correlation_id,
    {
        self.correlation_id.as_ref()
    }

    /// The business key of the event, where it has one.
    pub fn business_key(&self) -> (r: Option<&BusinessKey>)
        ensures
            opt_view(r) == self@.business_key,
    {
        self.business_key.as_ref()
    }

    /// The error of the event, where it has one.
    pub fn error(&self) -> (r: Option<&ErrorInfo>)
        ensures
            opt_view(r) == self@.error,
    {
        self.error.as_ref()
    }

    /// The metadata version of the event, where it has one.
    pub fn metadata_version(&self) -> (r: Option<&MetadataVersion>)
        ensures
            opt_view(r) == self@.metadata_version,
    {
        self.metadata_version.as_ref()
    }

    /// The causal parent of the event, where it has one.
    pub fn causal_parent(&self) -> (r: Option<&EventId>)
        ensures
            opt_view(r) == self@.causal_parent,
    {
        self.causal_parent.as_ref()
    }

    /// The status of the event.
    pub fn status(&self) -> (r: EventStatus)
        ensures
            r == self@.status,
    {
        self.status
    }

    /// The kind of the event.
    pub fn kind(&self) -> (r: EventKind)
        ensures
            r@ == self@.kind,
    {
        self.kind.clone()
    }

    /// The metadata references of the event.
    pub fn metadata_refs(&self) -> (r: &Vec<MetadataRef>)
        ensures
            views(r@) == self@.metadata_refs,
    {
        &self.metadata_refs
    }

    /// The payload of the event, where it has one.
    pub fn payload(&self) -> (r: Option<&str>)
        ensures
            opt_view(r) == self@.payload,
    {
        match &self.payload {
            Some(text) => Some(text.as_str()),
            None => None,
        }
    }
}

/// The metadata references of an event name one of the known variants, and only those of
/// versioned variants carry a version.
pub proof fn lemma_event_refs(event: PipelineEvent)
    ensures
        forall|i: int|
            0 <= i < event@.metadata_refs.len() ==> 0 <= (#[trigger] event@.metadata_refs[i]).variant <= 8 && (
            event@.metadata_refs[i].variant != 1 && event@.metadata_refs[i].variant != 3
                ==> event@.metadata_refs[i].version is None),
{
}

/// Why an event is not accepted.
#[derive(Debug, PartialEq, Eq)]
pub enum IngestError {
    EmptyField { field: &'static str },
}

impl Clone for IngestError {
    fn clone(&self) -> (r: Self)
        ensures
            r == *self,
    {
        match self {
            IngestError::EmptyField { field } => IngestError::EmptyField { field },
        }
    }
}

impl IngestError {
    /// The error as a text for an operator.
    pub fn describe(&self) -> (r: String)
        ensures
            r@ == "event field "@ + self->field@ + " must not be empty"@,
    {
        match self {
            IngestError::EmptyField { field } => {
                let mut out = "event field ".to_owned();
                push_text(&mut out, field);
                push_text(&mut out, " must not be empty");
                out
            },
        }
    }
}

fn validate_non_empty(field: &'static str, value: &str) -> (r: Result<(), IngestError>)
    ensures
        r is Ok <==> value@.len() > 0,
        r matches Err(e) ==> e->field@ == field@,
{
    if value.is_empty() {
        Err(IngestError::EmptyField { field })
    } else {
        Ok(())
    }
}

// ---------------------------------------------------------------------------
// Laws
// ---------------------------------------------------------------------------

/// An event is refused exactly if it lacks its identifier, its source, its tenant, its
/// environment, its pipeline, its definition, its process instance or its instant, and the
/// first of these that is missing is named.
pub proof fn law_what_an_event_must_have(e: PipelineEventView)
    ensures
        is_valid(e) <==> e.event_id.len() > 0 && e.source_id.len() > 0 && e.tenant_id.len() > 0 && e.environment_id.len()
            > 0 && e.pipeline_id.len() > 0 && e.process_definition_id.len() > 0 && e.process_instance_id.len() > 0
            && e.timestamp.len() > 0,
        e.event_id.len() == 0 ==> empty_field(e) == Some("event_id"@),
        e.event_id.len() > 0 && e.source_id.len() == 0 ==> empty_field(e) == Some("source_id"@),
        e.event_id.len() > 0 && e.source_id.len() > 0 && e.tenant_id.len() == 0 ==> empty_field(e) == Some(
            "tenant_id"@,
        ),
        e.event_id.len() > 0 && e.source_id.len() > 0 && e.tenant_id.len() > 0 && e.environment_id.len() == 0
            ==> empty_field(e) == Some("environment_id"@),
        e.event_id.len() > 0 && e.source_id.len() > 0 && e.tenant_id.len() > 0 && e.environment_id.len() > 0
            && e.pipeline_id.len() == 0 ==> empty_field(e) == Some("pipeline_id"@),
        e.event_id.len() > 0 && e.source_id.len() > 0 && e.tenant_id.len() > 0 && e.environment_id.len() > 0
            && e.pipeline_id.len() > 0 && e.process_definition_id.len() == 0 ==> empty_field(e) == Some(
            "process_definition_id"@,
        ),
        e.event_id.len() > 0 && e.source_id.len() > 0 && e.tenant_id.len() > 0 && e.environment_id.len() > 0
            && e.pipeline_id.len() > 0 && e.process_definition_id.len() > 0 && e.process_instance_id.len() == 0
            ==> empty_field(e) == Some("process_instance_id"@),
        e.event_id.len() > 0 && e.source_id.len() > 0 && e.tenant_id.len() > 0 && e.environment_id.len() > 0
            && e.pipeline_id.len() > 0 && e.process_definition_id.len() > 0 && e.process_instance_id.len() > 0
            && e.timestamp.len() == 0 ==> empty_field(e) == Some("timestamp"@),
{
}

} // verus!
