//! Compatibility types of the Durga monitor.
//!
//! They mirror Durga's canonical monitoring event closely enough for adapters to stay
//! anchored to its contract. Transport formats are outside of this module.

use vstd::prelude::*;
use crate::ingest::{EventId, EventTimestamp, PipelineEvent, PipelineEventView, SourceId, SourceSequence};
use crate::metadata::{MetadataRef, MetadataRefView};
use crate::ordered::{duplicate_all, opt_view, views};
use crate::process::{
    ActivityId, BusinessKey, CorrelationId, EnvironmentId, ErrorInfo, ErrorInfoView, EventKind, EventStatus, PipelineId,
    ProcessDefinitionId, ProcessInstanceId, ProcessVersion, TenantId, TokenId,
};
use crate::text::{decimal, push_decimal, push_text};

verus! {

/// Status of a Durga event.
#[derive(Debug, PartialEq, Eq)]
pub enum DurgaStatus {
    Started,
    Completed,
    Failed,
    Escalated,
    Cancelled,
    Unknown(String),
}

impl Clone for DurgaStatus {
    fn clone(&self) -> (r: Self)
        ensures
            r == *self,
    {
        match self {
            DurgaStatus::Started => DurgaStatus::Started,
            DurgaStatus::Completed => DurgaStatus::Completed,
            DurgaStatus::Failed => DurgaStatus::Failed,
            DurgaStatus::Escalated => DurgaStatus::Escalated,
            DurgaStatus::Cancelled => DurgaStatus::Cancelled,
            DurgaStatus::Unknown(name) => DurgaStatus::Unknown(name.clone()),
        }
    }
}

/// The event status that a Durga status stands for; an unknown one counts as started.
pub open spec fn status_of(value: DurgaStatus) -> EventStatus {
    match value {
        DurgaStatus::Started => EventStatus::Started,
        DurgaStatus::Completed => EventStatus::Completed,
        DurgaStatus::Failed => EventStatus::Failed,
        DurgaStatus::Escalated => EventStatus::Escalated,
        DurgaStatus::Cancelled => EventStatus::Cancelled,
        DurgaStatus::Unknown(_) => EventStatus::Started,
    }
}

impl From<DurgaStatus> for EventStatus {
    fn from(value: DurgaStatus) -> (r: Self) {
        match value {
            DurgaStatus::Started => EventStatus::Started,
            DurgaStatus::Completed => EventStatus::Completed,
            DurgaStatus::Failed => EventStatus::Failed,
            DurgaStatus::Escalated => EventStatus::Escalated,
            DurgaStatus::Cancelled => EventStatus::Cancelled,
            DurgaStatus::Unknown(_) => EventStatus::Started,
        }
    }
}

impl vstd::std_specs::convert::FromSpecImpl<DurgaStatus> for EventStatus {
    open spec fn obeys_from_spec() -> bool {
        true
    }

    open spec fn from_spec(v: DurgaStatus) -> Self {
        status_of(v)
    }
}

/// Type of a Durga event.
#[derive(Debug, PartialEq, Eq)]
pub enum DurgaEventType {
    ProcessStarted,
    ActivityEntered,
    ActivityCompleted,
    ActivityEscalated,
    ActivityCancelled,
    GatewayTaken,
    ProcessCompleted,
    ProcessFailed,
    Unknown(String),
}

impl Clone for DurgaEventType {
    fn clone(&self) -> (r: Self)
        ensures
            r == *self,
    {
        match self {
            DurgaEventType::ProcessStarted => DurgaEventType::ProcessStarted,
            DurgaEventType::ActivityEntered => DurgaEventType::ActivityEntered,
            DurgaEventType::ActivityCompleted => DurgaEventType::ActivityCompleted,
            DurgaEventType::ActivityEscalated => DurgaEventType::ActivityEscalated,
            DurgaEventType::ActivityCancelled => DurgaEventType::ActivityCancelled,
            DurgaEventType::GatewayTaken => DurgaEventType::GatewayTaken,
            DurgaEventType::ProcessCompleted => DurgaEventType::ProcessCompleted,
            DurgaEventType::ProcessFailed => DurgaEventType::ProcessFailed,
            DurgaEventType::Unknown(name) => DurgaEventType::Unknown(name.clone()),
        }
    }
}

/// The event kind that a Durga event type stands for.
pub open spec fn kind_of(value: DurgaEventType) -> EventKind {
    match value {
        DurgaEventType::ProcessStarted => EventKind::ProcessStarted,
        DurgaEventType::ActivityEntered => EventKind::ActivityEntered,
        DurgaEventType::ActivityCompleted => EventKind::ActivityCompleted,
        DurgaEventType::ActivityEscalated => EventKind::ActivityEscalated,
        DurgaEventType::ActivityCancelled => EventKind::ActivityCancelled,
        DurgaEventType::GatewayTaken => EventKind::GatewayTaken,
        DurgaEventType::ProcessCompleted => EventKind::ProcessCompleted,
        DurgaEventType::ProcessFailed => EventKind::ProcessFailed,
        DurgaEventType::Unknown(name) => EventKind::Unknown(name),
    }
}

impl From<DurgaEventType> for EventKind {
    fn from(value: DurgaEventType) -> (r: Self) {
        match value {
            DurgaEventType::ProcessStarted => EventKind::ProcessStarted,
            DurgaEventType::ActivityEntered => EventKind::ActivityEntered,
            DurgaEventType::ActivityCompleted => EventKind::ActivityCompleted,
            DurgaEventType::ActivityEscalated => EventKind::ActivityEscalated,
            DurgaEventType::ActivityCancelled => EventKind::ActivityCancelled,
            DurgaEventType::GatewayTaken => EventKind::GatewayTaken,
            DurgaEventType::ProcessCompleted => EventKind::ProcessCompleted,
            DurgaEventType::ProcessFailed => EventKind::ProcessFailed,
            DurgaEventType::Unknown(name) => EventKind::Unknown(name),
        }
    }
}

impl vstd::std_specs::convert::FromSpecImpl<DurgaEventType> for EventKind {
    open spec fn obeys_from_spec() -> bool {
        true
    }

    open spec fn from_spec(v: DurgaEventType) -> Self {
        kind_of(v)
    }
}

/// An error in a Durga event.
#[derive(Debug, PartialEq, Eq)]
pub struct DurgaErrorInfo {
    pub message: String,
    pub code: Option<String>,
}

impl Clone for DurgaErrorInfo {
    fn clone(&self) -> (r: Self)
        ensures
            r == *self,
    {
        DurgaErrorInfo { message: self.message.clone(), code: self.code.clone() }
    }
}

impl From<DurgaErrorInfo> for ErrorInfo {
    fn from(value: DurgaErrorInfo) -> (r: Self) {
        ErrorInfo { message: value.message, code: value.code }
    }
}

impl vstd::std_specs::convert::FromSpecImpl<DurgaErrorInfo> for ErrorInfo {
    open spec fn obeys_from_spec() -> bool {
        true
    }

    open spec fn from_spec(v: DurgaErrorInfo) -> Self {
        ErrorInfo { message: v.message, code: v.code }
    }
}

/// Durga's canonical monitoring event.
#[derive(Debug, PartialEq, Eq)]
pub struct DurgaProcessEvent {
    pub process_instance_id: String,
    pub process_id: String,
    pub activity_id: Option<String>,
    pub token_id: Option<String>,
    pub correlation_id: Option<String>,
    pub payload: Option<String>,
    pub status: DurgaStatus,
    pub error: Option<DurgaErrorInfo>,
    pub event_type: DurgaEventType,
    pub process_version: Option<String>,
    pub business_key: Option<String>,
    pub timestamp: String,
    pub metadata_refs: Vec<MetadataRef>,
    pub schema_version: Option<String>,
}

/// The identifier of an event that came from Durga: source, process instance and position.
pub open spec fn durga_event_id(source: Seq<char>, instance: Seq<char>, sequence: u64) -> Seq<char> {
    source + ":"@ + instance + ":"@ + decimal(sequence as nat)
}

/// The process event that a Durga event stands for.
pub open spec fn pipeline_event_of(
    e: DurgaProcessEvent,
    source: Seq<char>,
    sequence: u64,
    tenant: Seq<char>,
    environment: Seq<char>,
) -> PipelineEventView {
    PipelineEventView {
        event_id: durga_event_id(source, e.process_instance_id@, sequence),
        source_id: source,
        source_sequence: sequence,
        tenant_id: tenant,
        environment_id: environment,
        pipeline_id: e.process_id@,
        process_definition_id: e.process_id@,
        process_instance_id: e.process_instance_id@,
        process_version: opt_view(e.process_version),
        activity_id: opt_view(e.activity_id),
        token_id: opt_view(e.token_id),
        correlation_id: opt_view(e.correlation_id),
        business_key: opt_view(e.business_key),
        timestamp: e.timestamp@,
        status: status_of(e.status),
        kind: kind_of(e.event_type)@,
        error: match e.error {
            Some(error) => Some(ErrorInfoView { message: error.message@, code: opt_view(error.code) }),
            None => None,
        },
        metadata_refs: views(e.metadata_refs@),
        metadata_version: None,
        causal_parent: None,
        payload: opt_view(e.payload),
    }
}

impl DurgaProcessEvent {
    /// The process event that this event stands for.
    pub fn into_pipeline_event(
        self,
        source_id: SourceId,
        source_sequence: SourceSequence,
        tenant_id: TenantId,
        environment_id: EnvironmentId,
    ) -> (r: PipelineEvent)
        ensures
            r@ == pipeline_event_of(self, source_id@, source_sequence.0, tenant_id@, environment_id@),
    {
        let mut id = source_id.as_str().to_owned();
        push_text(&mut id, ":");
        push_text(&mut id, self.process_instance_id.as_str());
        push_text(&mut id, ":");
        push_decimal(&mut id, source_sequence.0);
        let mut event = PipelineEvent::new(
            EventId::from(id),
            source_id,
            source_sequence,
            tenant_id,
            environment_id,
            PipelineId::from(self.process_id.clone()),
            ProcessDefinitionId::from(self.process_id),
            ProcessInstanceId::from(self.process_instance_id),
            EventTimestamp::from(self.timestamp),
            EventKind::from(self.event_type),
        ).with_status(EventStatus::from(self.status));
        if self.metadata_refs.len() > 0 {
            event = event.with_metadata_refs(self.metadata_refs);
        } else {
            assert(views(self.metadata_refs@) =~= Seq::<MetadataRefView>::empty());
        }
        if let Some(activity_id) = self.activity_id {
            event = event.with_activity_id(ActivityId::from(activity_id));
        }
        if let Some(token_id) = self.token_id {
            event = event.with_token_id(TokenId::from(token_id));
        }
        if let Some(correlation_id) = self.correlation_id {
            event = event.with_correlation_id(CorrelationId::from(correlation_id));
        }
        if let Some(process_version) = self.process_version {
            event = event.with_process_version(ProcessVersion::from(process_version));
        }
        if let Some(business_key) = self.business_key {
            event = event.with_business_key(BusinessKey::from(business_key));
        }
        if let Some(error) = self.error {
            event = event.with_error(ErrorInfo::from(error));
        }
        if let Some(payload) = self.payload {
            event = event.with_payload(payload);
        }
        event
    }
}

impl Clone for DurgaProcessEvent {
    fn clone(&self) -> (r: Self)
        ensures
            views(r.metadata_refs@) == views(self.metadata_refs@),
            r == (DurgaProcessEvent { metadata_refs: r.metadata_refs, ..*self }),
    {
        DurgaProcessEvent {
            process_instance_id: self.process_instance_id.clone(),
            process_id: self.process_id.clone(),
            activity_id: self.activity_id.clone(),
            token_id: self.token_id.clone(),
            correlation_id: self.correlation_id.clone(),
            payload: self.payload.clone(),
            status: self.status.clone(),
            error: self.error.clone(),
            event_type: self.event_type.clone(),
            process_version: self.process_version.clone(),
            business_key: self.business_key.clone(),
            timestamp: self.timestamp.clone(),
            metadata_refs: duplicate_all(&self.metadata_refs),
            schema_version: self.schema_version.clone(),
        }
    }
}

// ---------------------------------------------------------------------------
// Laws
// ---------------------------------------------------------------------------

/// A Durga event type gives the event kind of the same name, an unknown one keeps its name,
/// and different types give different kinds.
pub proof fn law_event_types_keep_their_meaning(a: DurgaEventType, b: DurgaEventType)
    ensures
        a is ProcessStarted <==> kind_of(a) is ProcessStarted,
        a is ActivityEntered <==> kind_of(a) is ActivityEntered,
        a is ActivityCompleted <==> kind_of(a) is ActivityCompleted,
        a is ActivityEscalated <==> kind_of(a) is ActivityEscalated,
        a is ActivityCancelled <==> kind_of(a) is ActivityCancelled,
        a is GatewayTaken <==> kind_of(a) is GatewayTaken,
        a is ProcessCompleted <==> kind_of(a) is ProcessCompleted,
        a is ProcessFailed <==> kind_of(a) is ProcessFailed,
        a matches DurgaEventType::Unknown(name) ==> kind_of(a) == EventKind::Unknown(name),
        kind_of(a) == kind_of(b) <==> a == b,
{
}

/// A Durga status gives the status of the same name; an unknown one counts as started.
pub proof fn law_statuses_keep_their_meaning(a: DurgaStatus)
    ensures
        status_of(a) == EventStatus::Completed <==> a is Completed,
        status_of(a) == EventStatus::Failed <==> a is Failed,
        status_of(a) == EventStatus::Escalated <==> a is Escalated,
        status_of(a) == EventStatus::Cancelled <==> a is Cancelled,
        status_of(a) == EventStatus::Started <==> a is Started || a is Unknown,
{
}

/// A process event says what the Durga event said, field by field, and where and in which
/// place it was read; its pipeline and its definition are the Durga process.
pub proof fn law_durga_events_are_carried_over(
    e: DurgaProcessEvent,
    source: Seq<char>,
    sequence: u64,
    tenant: Seq<char>,
    environment: Seq<char>,
)
    ensures
        ({
            let r = pipeline_event_of(e, source, sequence, tenant, environment);
            &&& r.source_id == source && r.source_sequence == sequence
            &&& r.tenant_id == tenant && r.environment_id == environment
            &&& r.pipeline_id == e.process_id@ && r.process_definition_id == e.process_id@
            &&& r.process_instance_id == e.process_instance_id@
            &&& r.timestamp == e.timestamp@
            &&& e.activity_id matches Some(x) ==> r.activity_id == Some(x@)
            &&& e.activity_id is None ==> r.activity_id is None
            &&& e.token_id matches Some(x) ==> r.token_id == Some(x@)
            &&& e.token_id is None ==> r.token_id is None
            &&& e.correlation_id matches Some(x) ==> r.correlation_id == Some(x@)
            &&& e.correlation_id is None ==> r.correlation_id is None
            &&& e.process_version matches Some(x) ==> r.process_version == Some(x@)
            &&& e.process_version is None ==> r.process_version is None
            &&& e.business_key matches Some(x) ==> r.business_key == Some(x@)
            &&& e.business_key is None ==> r.business_key is None
            &&& e.payload matches Some(x) ==> r.payload == Some(x@)
            &&& e.payload is None ==> r.payload is None
            &&& e.error matches Some(x) ==> r.error is Some && r.error->0.message == x.message@ && (x.code matches Some(
                code,
            ) ==> r.error->0.code == Some(code@)) && (x.code is None ==> r.error->0.code is None)
            &&& e.error is None ==> r.error is None
            &&& r.metadata_refs.len() == e.metadata_refs.len()
            &&& forall|i: int| 0 <= i < e.metadata_refs.len() ==> #[trigger] r.metadata_refs[i] == e.metadata_refs@[i]@
            &&& r.metadata_version is None && r.causal_parent is None
            &&& r.event_id == source + ":"@ + e.process_instance_id@ + ":"@ + decimal(sequence as nat)
        }),
{
}

/// A Durga event of which the process failed leaves its instance failed, whatever came
/// before, one that completed leaves it completed, and one that was cancelled cancelled.
pub proof fn law_durga_outcomes_are_kept(
    state: crate::process::ProcessView,
    e: DurgaProcessEvent,
    source: Seq<char>,
    sequence: u64,
    tenant: Seq<char>,
    environment: Seq<char>,
)
    ensures
        ({
            let after = crate::process::reduced(state, pipeline_event_of(e, source, sequence, tenant, environment));
            &&& e.event_type is ProcessFailed ==> after.status == crate::process::ProcessStatus::Failed
            &&& e.event_type is ProcessCompleted ==> after.status == crate::process::ProcessStatus::Completed
            &&& e.event_type is ActivityCancelled ==> after.status == crate::process::ProcessStatus::Cancelled
            &&& e.event_type is ProcessStarted ==> after.status == crate::process::ProcessStatus::Active
            &&& e.event_type is ProcessFailed && e.activity_id is Some ==> after.activities.contains_pair(
                e.activity_id->0@,
                crate::process::ActivityState::Failed,
            )
            &&& e.event_type is ActivityCompleted && e.activity_id is Some ==> after.activities.contains_pair(
                e.activity_id->0@,
                crate::process::ActivityState::Completed,
            )
        }),
{
    let event = pipeline_event_of(e, source, sequence, tenant, environment);
    crate::process::law_status_follows_kind(state, event);
    crate::process::law_activities_follow_kind(state, event);
}

/// Two events of one source and one process instance have the same identifier exactly if
/// they stand at the same place.
pub proof fn law_durga_event_ids(source: Seq<char>, instance: Seq<char>, a: u64, b: u64)
    ensures
        durga_event_id(source, instance, a) == durga_event_id(source, instance, b) <==> a == b,
{
    let front = source + ":"@ + instance + ":"@;
    crate::text::law_decimal_is_injective(a as nat, b as nat);
    let (x, y) = (durga_event_id(source, instance, a), durga_event_id(source, instance, b));
    assert(x.skip(front.len() as int) =~= decimal(a as nat));
    assert(y.skip(front.len() as int) =~= decimal(b as nat));
}

} // verus!
