//! Single-node service: process events are reduced into the hot index, metadata events
//! are placed, mapped, durably enqueued, and drained to their targets.

use vstd::prelude::*;
use crate::cluster::{
    CheckpointEpoch, ClusterControlState, ControlView, IptoPlacementMap, MetadataOutboxCheckpoint, NodeId,
    PlacementEpoch,
};
use crate::checkpoint::OutboxCheckpointView;
use crate::data::{
    captured, empty_provenance, listed_individuals, provenance_answer, DataIndividualId, DataIndividualMetadataEvent,
    DataIndividualShardId, DataProvenanceIndex, DataProvenanceIndexSnapshot, MetadataEventView, ProvenanceView,
};
use crate::durable_outbox::{
    durably_enqueued, has_no_room, outbox_error_text, replay_metadata_outbox_segment_after, replay_segment,
    DurableOutboxEnqueueResult, DurableOutboxView, MetadataOutboxReplay, MetadataOutboxReplaySummary,
    MetadataOutboxStorageError, OutboxErrorView, SegmentBackedMetadataOutbox, SegmentBackedMetadataOutboxSnapshot,
    Selection,
};
use crate::index::{
    empty_index, events_between, ingest_result, ingested, listed_events, matching_instances, of_pipeline, with_status,
    HotIndex, HotIndexView, IngestOutcome,
};
use crate::ingest::{is_valid, IngestError, PipelineEvent, PipelineEventView};
use crate::ipto::{
    payload_bytes, payload_of, IptoInstanceId, IptoMapping, IptoWritePayload, MappingView, PayloadView,
};
use crate::journal::{
    journal_error_text, journal_records, journal_refusal, journalable, journaled, law_journal_round_trip,
    replay_journal, replay_process_event_segment, JournalErrorView, JournaledView, ProcessEventJournal,
    ProcessEventJournalError, ProcessEventReplaySummary,
};
use crate::observability::HotIndexSnapshot;
use crate::ordered::{opt_view, views};
use crate::outbox::{
    count_status, drain_pending_outbox_for_target, drained, empty_outbox, furthest, outbox_keys, settled_up_to, waits,
    IptoWriter, MetadataOutboxDrainSummary, OutboxStatus,
};
use crate::placement::{owner, PlacementMapView};
use crate::process::{ActivityId, ProcessInstanceId, ProcessInstanceSnapshot};
use crate::query::{
    ActivityMetadataQuery, DataIndividualMetadataQuery, EventQuery, ImpactQuery, PipelineQuery, ProcessInstanceQuery,
    ProcessMetadataQuery, ProcessStatusQuery, QueryResult, QueryResultView, TimeRangeQuery,
};
use crate::runtime::snapshot_of;
use crate::storage::{
    frame, manifest_of, scan_segment, segment_bytes, RecordOffset, SegmentErrorView, SegmentId, SegmentManifest,
    SegmentWriterView,
};
use crate::event_codec::event_bytes;
use crate::text::{decimal, push_decimal, push_text, str_eq, IntoText};

verus! {

// ---------------------------------------------------------------------------
// Errors
// ---------------------------------------------------------------------------

/// What can go wrong in the service.
#[derive(Debug, PartialEq, Eq)]
pub enum VannakServiceError {
    NoPlacementTarget { shard_id: DataIndividualShardId },
    WriterLeaseNotHeld { target: IptoInstanceId, holder: NodeId },
    ProcessEventJournalNotConfigured,
    ProcessEventJournal(ProcessEventJournalError),
    MetadataOutboxStorage(MetadataOutboxStorageError),
    ProcessIngest(IngestError),
}

/// The view of a service error.
pub enum ServiceErrorView {
    NoPlacementTarget(u64),
    WriterLeaseNotHeld(Seq<char>, Seq<char>),
    JournalNotConfigured,
    Journal(JournalErrorView),
    Outbox(OutboxErrorView),
    Ingest(Seq<char>),
}

impl View for VannakServiceError {
    type V = ServiceErrorView;

    open spec fn view(&self) -> ServiceErrorView {
        match self {
            VannakServiceError::NoPlacementTarget { shard_id } => ServiceErrorView::NoPlacementTarget(shard_id@),
            VannakServiceError::WriterLeaseNotHeld { target, holder } => ServiceErrorView::WriterLeaseNotHeld(
                target@,
                holder@,
            ),
            VannakServiceError::ProcessEventJournalNotConfigured => ServiceErrorView::JournalNotConfigured,
            VannakServiceError::ProcessEventJournal(e) => ServiceErrorView::Journal(e@),
            VannakServiceError::MetadataOutboxStorage(e) => ServiceErrorView::Outbox(e@),
            VannakServiceError::ProcessIngest(e) => ServiceErrorView::Ingest(e->field@),
        }
    }
}

/// The text of a service error.
pub open spec fn service_error_text(e: ServiceErrorView) -> Seq<char> {
    match e {
        ServiceErrorView::NoPlacementTarget(shard) => "no Ipto placement target for shard "@ + decimal(shard as nat),
        ServiceErrorView::WriterLeaseNotHeld(target, holder) => "node '"@ + holder
            + "' does not hold writer lease for Ipto target '"@ + target + "'"@,
        ServiceErrorView::JournalNotConfigured => "process event journal is not configured"@,
        ServiceErrorView::Journal(e) => journal_error_text(e),
        ServiceErrorView::Outbox(e) => outbox_error_text(e),
        ServiceErrorView::Ingest(field) => "event field "@ + field + " must not be empty"@,
    }
}

impl VannakServiceError {
    /// The error as a text for an operator.
    pub fn describe(&self) -> (r: String)
        ensures
            r@ == service_error_text(self@),
    {
        match self {
            VannakServiceError::NoPlacementTarget { shard_id } => {
                let mut out = "no Ipto placement target for shard ".to_owned();
                push_decimal(&mut out, shard_id.0);
                out
            },
            VannakServiceError::WriterLeaseNotHeld { target, holder } => {
                let mut out = "node '".to_owned();
                push_text(&mut out, holder.as_str());
                push_text(&mut out, "' does not hold writer lease for Ipto target '");
                push_text(&mut out, target.as_str());
                push_text(&mut out, "'");
                out
            },
            VannakServiceError::ProcessEventJournalNotConfigured => "process event journal is not configured".to_owned(),
            VannakServiceError::ProcessEventJournal(e) => e.describe(),
            VannakServiceError::MetadataOutboxStorage(e) => e.describe(),
            VannakServiceError::ProcessIngest(e) => e.describe(),
        }
    }
}

impl From<MetadataOutboxStorageError> for VannakServiceError {
    fn from(value: MetadataOutboxStorageError) -> (r: Self) {
        VannakServiceError::MetadataOutboxStorage(value)
    }
}

impl vstd::std_specs::convert::FromSpecImpl<MetadataOutboxStorageError> for VannakServiceError {
    open spec fn obeys_from_spec() -> bool {
        true
    }

    open spec fn from_spec(v: MetadataOutboxStorageError) -> Self {
        VannakServiceError::MetadataOutboxStorage(v)
    }
}

impl From<ProcessEventJournalError> for VannakServiceError {
    fn from(value: ProcessEventJournalError) -> (r: Self) {
        VannakServiceError::ProcessEventJournal(value)
    }
}

impl vstd::std_specs::convert::FromSpecImpl<ProcessEventJournalError> for VannakServiceError {
    open spec fn obeys_from_spec() -> bool {
        true
    }

    open spec fn from_spec(v: ProcessEventJournalError) -> Self {
        VannakServiceError::ProcessEventJournal(v)
    }
}

impl From<IngestError> for VannakServiceError {
    fn from(value: IngestError) -> (r: Self) {
        VannakServiceError::ProcessIngest(value)
    }
}

impl vstd::std_specs::convert::FromSpecImpl<IngestError> for VannakServiceError {
    open spec fn obeys_from_spec() -> bool {
        true
    }

    open spec fn from_spec(v: IngestError) -> Self {
        VannakServiceError::ProcessIngest(v)
    }
}

// ---------------------------------------------------------------------------
// Results
// ---------------------------------------------------------------------------

/// What came of a durable ingest.
#[derive(Debug, Clone, Copy, PartialEq, Eq)]
pub struct DurableProcessIngestResult {
    pub outcome: IngestOutcome,
    pub offset: RecordOffset,
}

/// What came of capturing a metadata event.
#[derive(Debug, Clone, PartialEq, Eq)]
pub struct MetadataCaptureResult {
    pub target: IptoInstanceId,
    pub result: DurableOutboxEnqueueResult,
}

/// The sizes of the service's parts.
#[derive(Debug, Clone, PartialEq, Eq)]
pub struct VannakServiceSnapshot {
    pub hot_index: HotIndexSnapshot,
    pub metadata_outbox: SegmentBackedMetadataOutboxSnapshot,
    pub provenance_index: DataProvenanceIndexSnapshot,
    pub process_event_journal: Option<SegmentManifest>,
    pub placement_epoch: PlacementEpoch,
}

/// A service that has been opened again.
pub struct VannakServiceRecovery {
    pub service: VannakService,
    pub summary: MetadataOutboxReplaySummary,
}

// ---------------------------------------------------------------------------
// The service
// ---------------------------------------------------------------------------

/// State of a single-node service. It is not concurrent: there is one inside each owning
/// shard.
pub struct VannakService {
    hot_index: HotIndex,
    placement_map: IptoPlacementMap,
    mapping: IptoMapping,
    metadata_outbox: SegmentBackedMetadataOutbox,
    provenance_index: DataProvenanceIndex,
    process_event_journal: Option<ProcessEventJournal>,
}

/// The view of the service.
pub struct ServiceView {
    pub hot_index: HotIndexView,
    pub placement: PlacementMapView,
    pub mapping: MappingView,
    pub outbox: DurableOutboxView,
    pub provenance: ProvenanceView,
    pub journal: Option<SegmentWriterView>,
}

impl View for VannakService {
    type V = ServiceView;

    closed spec fn view(&self) -> ServiceView {
        ServiceView {
            hot_index: self.hot_index@,
            placement: self.placement_map@,
            mapping: self.mapping@,
            outbox: self.metadata_outbox@,
            provenance: self.provenance_index@,
            journal: opt_view(self.process_event_journal),
        }
    }
}

/// Whether a snapshot tells the sizes of a service's parts.
pub open spec fn sizes_of(r: VannakServiceSnapshot, s: ServiceView) -> bool {
    let outbox = s.outbox.outbox;
    &&& snapshot_of(r.hot_index, s.hot_index)
    &&& r.metadata_outbox.segment@ == manifest_of(s.outbox.segment)
    &&& r.metadata_outbox.outbox.total == outbox.entries.dom().len()
    &&& r.metadata_outbox.outbox.pending == count_status(outbox.entries, outbox_keys(outbox), OutboxStatus::Pending)
    &&& r.metadata_outbox.outbox.acknowledged == count_status(
        outbox.entries,
        outbox_keys(outbox),
        OutboxStatus::Acknowledged,
    )
    &&& r.metadata_outbox.outbox.failed == count_status(outbox.entries, outbox_keys(outbox), OutboxStatus::Failed)
    &&& r.metadata_outbox.outbox.queued_pending == outbox.pending.len()
    &&& r.provenance_index.metadata_event_count == s.provenance.events.len()
    &&& r.provenance_index.data_individual_count == s.provenance.by_data_individual.len()
    &&& r.provenance_index.process_instance_count == s.provenance.by_process.len()
    &&& r.provenance_index.activity_count == s.provenance.by_activity.len()
    &&& r.placement_epoch@ == s.placement.epoch
    &&& match (r.process_event_journal, s.journal) {
        (Some(m), Some(j)) => m@ == manifest_of(j),
        (None, None) => true,
        _ => false,
    }
}

/// A service without events.
pub open spec fn fresh_service(
    placement: PlacementMapView,
    mapping: MappingView,
    outbox: DurableOutboxView,
) -> ServiceView {
    ServiceView {
        hot_index: empty_index(),
        placement,
        mapping,
        outbox,
        provenance: empty_provenance(),
        journal: None,
    }
}

/// The index after the events of a journal have been offered one after another.
pub open spec fn offered(m: HotIndexView, events: Seq<JournaledView>) -> HotIndexView
    decreases events.len(),
{
    if events.len() == 0 {
        m
    } else {
        ingested(offered(m, events.drop_last()), events.last().event)
    }
}

/// What a durable ingest is refused with.
pub open spec fn durable_refusal(s: ServiceView, e: PipelineEventView) -> Option<ServiceErrorView> {
    match s.journal {
        None => Some(ServiceErrorView::JournalNotConfigured),
        Some(j) => match journal_refusal(j, e) {
            Some(x) => Some(ServiceErrorView::Journal(x)),
            None => None,
        },
    }
}

/// The service after a durable ingest.
pub open spec fn durably_ingested(s: ServiceView, e: PipelineEventView) -> ServiceView {
    if durable_refusal(s, e) is None {
        ServiceView {
            hot_index: ingested(s.hot_index, e),
            journal: Some(
                SegmentWriterView { records: s.journal->0.records.push(event_bytes(e)), ..s.journal->0 },
            ),
            ..s
        }
    } else {
        s
    }
}

/// The payload that a metadata event comes to, where its shard has a target.
pub open spec fn capture_payload(s: ServiceView, e: MetadataEventView) -> PayloadView {
    payload_of(e, owner(s.placement, e.data_individual_shard_id)->0, s.mapping)
}

/// What the capture of a metadata event is refused with.
pub open spec fn capture_refusal(s: ServiceView, e: MetadataEventView) -> Option<ServiceErrorView> {
    match owner(s.placement, e.data_individual_shard_id) {
        None => Some(ServiceErrorView::NoPlacementTarget(e.data_individual_shard_id)),
        Some(_) => if has_no_room(s.outbox, capture_payload(s, e)) {
            Some(
                ServiceErrorView::Outbox(
                    OutboxErrorView::Segment(
                        SegmentErrorView::RecordTooLarge(payload_bytes(capture_payload(s, e)).len() as usize),
                    ),
                ),
            )
        } else {
            None
        },
    }
}

/// The service after a metadata event has been captured.
pub open spec fn after_capture(s: ServiceView, e: MetadataEventView) -> ServiceView {
    if capture_refusal(s, e) is None {
        ServiceView {
            outbox: durably_enqueued(s.outbox, capture_payload(s, e)),
            provenance: captured(s.provenance, e),
            ..s
        }
    } else {
        s
    }
}

/// Whether a node holds the writer lease of a target.
pub open spec fn holds_lease(c: ControlView, node: Seq<char>, target: Seq<char>) -> bool {
    c.writer_leases.contains_key(target) && c.writer_leases[target].holder == node
}

impl VannakService {
    /// A service without events.
    pub fn new(placement_map: IptoPlacementMap, mapping: IptoMapping, metadata_outbox: SegmentBackedMetadataOutbox) -> (r:
        Self)
        ensures
            r@ == fresh_service(placement_map@, mapping@, metadata_outbox@),
    {
        VannakService {
            hot_index: HotIndex::new(),
            placement_map,
            mapping,
            metadata_outbox,
            provenance_index: DataProvenanceIndex::new(),
            process_event_journal: None,
        }
    }

    /// The service with a journal of process events.
    pub fn with_process_event_journal(self, journal: ProcessEventJournal) -> (r: Self)
        ensures
            r@ == (ServiceView { journal: Some(journal@), ..self@ }),
    {
        VannakService {
            hot_index: self.hot_index,
            placement_map: self.placement_map,
            mapping: self.mapping,
            metadata_outbox: self.metadata_outbox,
            provenance_index: self.provenance_index,
            process_event_journal: Some(journal),
        }
    }

    /// A service with a new durable outbox.
    pub fn create(
        placement_map: IptoPlacementMap,
        mapping: IptoMapping,
        outbox_path: impl IntoText,
        outbox_segment_id: SegmentId,
        node_id: NodeId,
    ) -> (r: Self)
        ensures
            r@ == fresh_service(
                placement_map@,
                mapping@,
                DurableOutboxView {
                    outbox: empty_outbox(),
                    segment: SegmentWriterView {
                        segment_id: outbox_segment_id@,
                        node_id: node_id@,
                        path: outbox_path.text(),
                        records: Seq::empty(),
                    },
                },
            ),
    {
        let outbox = SegmentBackedMetadataOutbox::create(outbox_path, outbox_segment_id, node_id);
        VannakService::new(placement_map, mapping, outbox)
    }

    /// A service whose durable outbox is opened again: the payloads behind the checkpoint
    /// are pending.
    pub fn recover_after(
        placement_map: IptoPlacementMap,
        mapping: IptoMapping,
        outbox_bytes: Vec<u8>,
        outbox_path: impl IntoText,
        outbox_segment_id: SegmentId,
        node_id: NodeId,
        checkpoint_offset: Option<RecordOffset>,
    ) -> (r: Result<VannakServiceRecovery, MetadataOutboxStorageError>)
        ensures
            match (
                replay_segment(outbox_bytes@, Selection::After(opt_view(checkpoint_offset))),
                scan_segment(outbox_bytes@),
                r,
            ) {
                (Ok(s), Ok(records), Ok(x)) => {
                    &&& x.service@ == fresh_service(
                        placement_map@,
                        mapping@,
                        DurableOutboxView {
                            outbox: s.outbox,
                            segment: SegmentWriterView {
                                segment_id: outbox_segment_id@,
                                node_id: node_id@,
                                path: outbox_path.text(),
                                records,
                            },
                        },
                    )
                    &&& x.summary.checkpoint_offset == checkpoint_offset
                    &&& x.summary.scanned_records == s.skipped + s.replayed
                    &&& x.summary.skipped_records == s.skipped
                    &&& x.summary.replayed_records == s.replayed
                },
                (Err(e), _, Err(x)) => x@ == e,
                (Ok(_), Err(e), Err(x)) => x@ == OutboxErrorView::Segment(e),
                _ => false,
            },
    {
        match SegmentBackedMetadataOutbox::recover_after(
            outbox_bytes,
            outbox_path,
            outbox_segment_id,
            node_id,
            checkpoint_offset,
        ) {
            Ok(recovery) => Ok(
                VannakServiceRecovery {
                    service: VannakService::new(placement_map, mapping, recovery.outbox),
                    summary: recovery.summary,
                },
            ),
            Err(e) => Err(e),
        }
    }

    /// Offers a process event to the hot index.
    pub fn ingest_process_event(&mut self, event: PipelineEvent) -> (r: Result<IngestOutcome, IngestError>)
        ensures
            final(self)@ == (ServiceView { hot_index: ingested(old(self)@.hot_index, event@), ..old(self)@ }),
            ingest_result(old(self)@.hot_index, event@, r),
    {
        self.hot_index.ingest(event)
    }

    /// The bytes that make a process event durable: they are to be written and synced
    /// before `ingest_process_event_durable` accounts for the event.
    pub fn frame_process_event(&self, event: &PipelineEvent) -> (r: Result<Vec<u8>, VannakServiceError>)
        ensures
            match r {
                Ok(bytes) => durable_refusal(self@, event@) is None && bytes@ == frame(event_bytes(event@)),
                Err(e) => durable_refusal(self@, event@) == Some(e@),
            },
    {
        match &self.process_event_journal {
            None => Err(VannakServiceError::ProcessEventJournalNotConfigured),
            Some(journal) => match journal.frame_event(event) {
                Ok(bytes) => Ok(bytes),
                Err(e) => Err(VannakServiceError::ProcessEventJournal(e)),
            },
        }
    }

    /// Accounts for a process event that has been made durable, and offers it to the hot
    /// index.
    pub fn ingest_process_event_durable(&mut self, event: PipelineEvent) -> (r: Result<
        DurableProcessIngestResult,
        VannakServiceError,
    >)
        ensures
            final(self)@ == durably_ingested(old(self)@, event@),
            match r {
                Ok(x) => {
                    &&& durable_refusal(old(self)@, event@) is None
                    &&& x.offset@ == segment_bytes(old(self)@.journal->0.records).len()
                    &&& ingest_result(old(self)@.hot_index, event@, Ok(x.outcome))
                },
                Err(e) => durable_refusal(old(self)@, event@) == Some(e@),
            },
    {
        let appended = match &mut self.process_event_journal {
            None => {
                return Err(VannakServiceError::ProcessEventJournalNotConfigured);
            },
            Some(journal) => journal.append_durable(&event),
        };
        let offset = match appended {
            Ok(offset) => offset,
            Err(e) => {
                return Err(VannakServiceError::ProcessEventJournal(e));
            },
        };
        match self.hot_index.ingest(event) {
            Ok(outcome) => Ok(DurableProcessIngestResult { outcome, offset }),
            Err(e) => Err(VannakServiceError::ProcessIngest(e)),
        }
    }

    /// Offers the events of a journal to the hot index.
    pub fn recover_process_events_into_hot_index(&mut self, bytes: Vec<u8>) -> (r: Result<
        ProcessEventReplaySummary,
        VannakServiceError,
    >)
        ensures
            match (replay_journal(bytes@), r) {
                (Ok(events), Ok(summary)) => {
                    &&& final(self)@ == (ServiceView {
                        hot_index: offered(old(self)@.hot_index, events),
                        ..old(self)@
                    })
                    &&& summary.scanned_records == events.len()
                    &&& summary.replayed_records == events.len()
                },
                (Err(e), Err(x)) => x@ == ServiceErrorView::Journal(e) && final(self)@ == old(self)@,
                _ => false,
            },
    {
        let replay = match replay_process_event_segment(bytes) {
            Ok(replay) => replay,
            Err(e) => {
                return Err(VannakServiceError::ProcessEventJournal(e));
            },
        };
        let ghost events = views(replay.events@);
        let ghost before = self@;
        let mut i: usize = 0;
        assert(events.take(0) =~= Seq::<JournaledView>::empty());
        proof {
            crate::journal::lemma_replayed_valid(bytes@);
        }
        while i < replay.events.len()
            invariant
                i <= replay.events.len(),
                before == old(self)@,
                events == views(replay.events@),
                replay_journal(bytes@) == Ok::<Seq<JournaledView>, JournalErrorView>(events),
                forall|j: int| 0 <= j < events.len() ==> is_valid((#[trigger] events[j]).event),
                self@ == (ServiceView { hot_index: offered(before.hot_index, events.take(i as int)), ..before }),
            decreases replay.events.len() - i,
        {
            assert(events.take(i + 1).drop_last() =~= events.take(i as int));
            assert(is_valid(events[i as int].event));
            match self.hot_index.ingest(replay.events[i].event.clone()) {
                Ok(_) => {},
                Err(e) => {
                    return Err(VannakServiceError::ProcessIngest(e));
                },
            }
            i += 1;
        }
        assert(events.take(replay.events.len() as int) =~= events);
        Ok(replay.summary)
    }

    /// The bytes that make the capture of a metadata event durable, if it is new: they are
    /// to be written and synced before `capture_metadata_event` accounts for the event.
    pub fn frame_metadata_event(&self, event: &DataIndividualMetadataEvent) -> (r: Result<
        Option<Vec<u8>>,
        VannakServiceError,
    >)
        ensures
            match r {
                Ok(None) => capture_refusal(self@, event@) is None && self@.outbox.outbox.entries.contains_key(
                    event@.idempotency_key,
                ),
                Ok(Some(bytes)) => {
                    &&& capture_refusal(self@, event@) is None
                    &&& !self@.outbox.outbox.entries.contains_key(event@.idempotency_key)
                    &&& bytes@ == frame(payload_bytes(capture_payload(self@, event@)))
                },
                Err(e) => capture_refusal(self@, event@) == Some(e@),
            },
    {
        let target = match self.placement_map.resolve(event.data_individual_shard_id()) {
            Some(target) => target.clone(),
            None => {
                return Err(
                    VannakServiceError::NoPlacementTarget { shard_id: event.data_individual_shard_id() },
                );
            },
        };
        let payload = IptoWritePayload::from_event(event, &target, &self.mapping);
        match self.metadata_outbox.frame_payload(&payload) {
            Ok(bytes) => Ok(bytes),
            Err(e) => Err(VannakServiceError::MetadataOutboxStorage(e)),
        }
    }

    /// Accounts for a metadata event that has been made durable: its payload becomes
    /// pending for the target that owns its shard, and it enters the provenance index.
    pub fn capture_metadata_event(&mut self, event: &DataIndividualMetadataEvent) -> (r: Result<
        MetadataCaptureResult,
        VannakServiceError,
    >)
        ensures
            final(self)@ == after_capture(old(self)@, event@),
            match r {
                Ok(x) => {
                    &&& capture_refusal(old(self)@, event@) is None
                    &&& owner(old(self)@.placement, event@.data_individual_shard_id) == Some(x.target@)
                    &&& match x.result {
                        DurableOutboxEnqueueResult::Duplicate => old(self)@.outbox.outbox.entries.contains_key(
                            event@.idempotency_key,
                        ),
                        DurableOutboxEnqueueResult::Enqueued { offset } => {
                            &&& !old(self)@.outbox.outbox.entries.contains_key(event@.idempotency_key)
                            &&& offset@ == segment_bytes(old(self)@.outbox.segment.records).len()
                        },
                    }
                },
                Err(e) => capture_refusal(old(self)@, event@) == Some(e@),
            },
    {
        let target = match self.placement_map.resolve(event.data_individual_shard_id()) {
            Some(target) => target.clone(),
            None => {
                return Err(
                    VannakServiceError::NoPlacementTarget { shard_id: event.data_individual_shard_id() },
                );
            },
        };
        let payload = IptoWritePayload::from_event(event, &target, &self.mapping);
        let result = match self.metadata_outbox.enqueue_durable(payload) {
            Ok(result) => result,
            Err(e) => {
                return Err(VannakServiceError::MetadataOutboxStorage(e));
            },
        };
        let _ = self.provenance_index.ingest(event.clone());
        Ok(MetadataCaptureResult { target, result })
    }

    /// Delivers pending payloads to a target, at most so many.
    pub fn drain_metadata_for_target<W: IptoWriter + ?Sized>(
        &mut self,
        target: &IptoInstanceId,
        writer: &mut W,
        max_attempts: usize,
    ) -> (r: MetadataOutboxDrainSummary)
        ensures
            final(self)@ == (ServiceView {
                outbox: DurableOutboxView { outbox: final(self)@.outbox.outbox, ..old(self)@.outbox },
                ..old(self)@
            }),
            drained(
                old(self)@.outbox.outbox,
                Some(target@),
                old(writer).attempts(),
                final(self)@.outbox.outbox,
                final(writer).attempts(),
                r,
                max_attempts as nat,
            ),
    {
        drain_pending_outbox_for_target(self.metadata_outbox.outbox_mut(), target, writer, max_attempts)
    }

    /// Delivers pending payloads to a target, at most so many, if the node holds the
    /// writer lease of the target.
    pub fn drain_metadata_for_target_if_lease_held<W: IptoWriter + ?Sized>(
        &mut self,
        control_state: &ClusterControlState,
        node_id: &NodeId,
        target: &IptoInstanceId,
        writer: &mut W,
        max_attempts: usize,
    ) -> (r: Result<MetadataOutboxDrainSummary, VannakServiceError>)
        ensures
            match r {
                Ok(summary) => {
                    &&& holds_lease(control_state@, node_id@, target@)
                    &&& final(self)@ == (ServiceView {
                        outbox: DurableOutboxView { outbox: final(self)@.outbox.outbox, ..old(self)@.outbox },
                        ..old(self)@
                    })
                    &&& drained(
                        old(self)@.outbox.outbox,
                        Some(target@),
                        old(writer).attempts(),
                        final(self)@.outbox.outbox,
                        final(writer).attempts(),
                        summary,
                        max_attempts as nat,
                    )
                },
                Err(e) => {
                    &&& !holds_lease(control_state@, node_id@, target@)
                    &&& e@ == ServiceErrorView::WriterLeaseNotHeld(target@, node_id@)
                    &&& final(self)@ == old(self)@
                    &&& final(writer).attempts() == old(writer).attempts()
                },
            },
    {
        let held = match control_state.writer_lease(target) {
            Some(lease) => str_eq(lease.holder.as_str(), node_id.as_str()),
            None => false,
        };
        if !held {
            return Err(VannakServiceError::WriterLeaseNotHeld { target: target.clone(), holder: node_id.clone() });
        }
        Ok(self.drain_metadata_for_target(target, writer, max_attempts))
    }

    /// How far a target has acknowledged the writes of the outbox segment.
    pub fn acknowledged_checkpoint(
        &self,
        shard_id: DataIndividualShardId,
        target: &IptoInstanceId,
        epoch: CheckpointEpoch,
    ) -> (r: Option<MetadataOutboxCheckpoint>)
        ensures
            match (r, furthest(self@.outbox.outbox.entries, outbox_keys(self@.outbox.outbox), target@)) {
                (Some(c), Some((offset, mapping_version))) => c@ == (OutboxCheckpointView {
                    shard: shard_id@,
                    target: target@,
                    segment_id: self@.outbox.segment.segment_id,
                    last_acknowledged_offset: offset,
                    mapping_version,
                    epoch: epoch@,
                }),
                (None, None) => true,
                _ => false,
            },
            r matches Some(c) ==> settled_up_to(self@.outbox.outbox.entries, c@.last_acknowledged_offset),
    {
        self.metadata_outbox.acknowledged_checkpoint(shard_id, target, epoch)
    }

    /// The sizes of the service's parts.
    pub fn snapshot(&self) -> (r: VannakServiceSnapshot)
        ensures
            sizes_of(r, self@),
    {
        VannakServiceSnapshot {
            hot_index: self.hot_index.snapshot(),
            metadata_outbox: self.metadata_outbox.snapshot(),
            provenance_index: self.provenance_index.snapshot(),
            process_event_journal: match &self.process_event_journal {
                Some(journal) => Some(journal.manifest()),
                None => None,
            },
            placement_epoch: self.placement_map.epoch(),
        }
    }

    /// Reads the payloads of an outbox segment that stand behind a checkpoint.
    pub fn replay_metadata_outbox_after(bytes: Vec<u8>, checkpoint_offset: Option<RecordOffset>) -> (r: Result<
        MetadataOutboxReplay,
        MetadataOutboxStorageError,
    >)
        ensures
            match (replay_segment(bytes@, Selection::After(opt_view(checkpoint_offset))), r) {
                (Ok(s), Ok(x)) => {
                    &&& x.outbox@ == s.outbox
                    &&& x.summary.checkpoint_offset == checkpoint_offset
                    &&& x.summary.scanned_records == s.skipped + s.replayed
                    &&& x.summary.skipped_records == s.skipped
                    &&& x.summary.replayed_records == s.replayed
                },
                (Err(e), Err(x)) => x@ == e,
                _ => false,
            },
    {
        replay_metadata_outbox_segment_after(bytes, checkpoint_offset)
    }

    /// The hot index.
    pub fn hot_index(&self) -> (r: &HotIndex)
        ensures
            r@ == self@.hot_index,
    {
        &self.hot_index
    }

    /// The state of a process instance.
    pub fn process_instance(&self, query: &ProcessInstanceQuery) -> (r: Option<ProcessInstanceSnapshot>)
        ensures
            match r {
                Some(p) => self@.hot_index.processes.contains_key(query.process_instance_id@) && p@
                    == self@.hot_index.processes[query.process_instance_id@],
                None => !self@.hot_index.processes.contains_key(query.process_instance_id@),
            },
    {
        self.hot_index.process_instance(query)
    }

    /// The instances of a pipeline.
    pub fn pipeline_instances(&self, query: &PipelineQuery) -> (r: QueryResult)
        ensures
            r@ == QueryResultView::ProcessInstances(
                matching_instances(self@.hot_index, of_pipeline(query.pipeline_id@), query.limit@),
            ),
    {
        self.hot_index.pipeline_instances(query)
    }

    /// The events of a process instance.
    pub fn events(&self, query: &EventQuery) -> (r: QueryResult)
        ensures
            r@ == QueryResultView::Events(
                listed_events(
                    self@.hot_index,
                    self@.hot_index.by_process,
                    query.process_instance_id@,
                    query.limit@,
                ),
            ),
    {
        self.hot_index.events(query)
    }

    /// The events that refer to a metadata object.
    pub fn impact(&self, query: &ImpactQuery) -> (r: QueryResult)
        ensures
            r@ == QueryResultView::Events(
                listed_events(self@.hot_index, self@.hot_index.by_ref, query.metadata_ref@, query.limit@),
            ),
    {
        self.hot_index.impact(query)
    }

    /// The instances with a status.
    pub fn process_instances_by_status(&self, query: &ProcessStatusQuery) -> (r: QueryResult)
        ensures
            r@ == QueryResultView::ProcessInstances(
                matching_instances(self@.hot_index, with_status(query.status), query.limit@),
            ),
    {
        self.hot_index.process_instances_by_status(query)
    }

    /// The events between two instants, the earliest first.
    pub fn events_in_time_range(&self, query: &TimeRangeQuery) -> (r: QueryResult)
        ensures
            r@ == QueryResultView::Events(
                events_between(self@.hot_index, opt_view(query.start), opt_view(query.end), query.limit@),
            ),
    {
        self.hot_index.events_in_time_range(query)
    }

    /// The metadata events of a data individual.
    pub fn metadata_for_data_individual(&self, query: &DataIndividualMetadataQuery) -> (r: QueryResult)
        ensures
            r@ == QueryResultView::MetadataEvents(
                provenance_answer(
                    self@.provenance,
                    self@.provenance.by_data_individual,
                    query.data_individual_id@,
                    query.limit@,
                ),
            ),
    {
        self.provenance_index.metadata_for_data_individual(query)
    }

    /// The metadata events of a process instance.
    pub fn metadata_for_process(&self, query: &ProcessMetadataQuery) -> (r: QueryResult)
        ensures
            r@ == QueryResultView::MetadataEvents(
                provenance_answer(
                    self@.provenance,
                    self@.provenance.by_process,
                    query.process_instance_id@,
                    query.limit@,
                ),
            ),
    {
        self.provenance_index.metadata_for_process(query)
    }

    /// The metadata events of an activity of a process instance.
    pub fn metadata_for_activity(&self, query: &ActivityMetadataQuery) -> (r: QueryResult)
        ensures
            r@ == QueryResultView::MetadataEvents(
                provenance_answer(
                    self@.provenance,
                    self@.provenance.by_activity,
                    (query.process_instance_id@, query.activity_id@),
                    query.limit@,
                ),
            ),
    {
        self.provenance_index.metadata_for_activity(query)
    }

    /// The data individuals that events of a process instance were about, in order.
    pub fn data_individuals_for_process(&self, process_instance_id: &ProcessInstanceId) -> (r: Vec<DataIndividualId>)
        ensures
            views(r@) == listed_individuals(self@.provenance.individuals_by_process, process_instance_id@),
    {
        self.provenance_index.data_individuals_for_process(process_instance_id)
    }

    /// The data individuals that events of an activity were about, in order.
    pub fn data_individuals_for_activity(&self, process_instance_id: &ProcessInstanceId, activity_id: &ActivityId) -> (r:
        Vec<DataIndividualId>)
        ensures
            views(r@) == listed_individuals(
                self@.provenance.individuals_by_activity,
                (process_instance_id@, activity_id@),
            ),
    {
        self.provenance_index.data_individuals_for_activity(process_instance_id, activity_id)
    }

    /// The durable outbox.
    pub fn metadata_outbox(&self) -> (r: &SegmentBackedMetadataOutbox)
        ensures
            r@ == self@.outbox,
    {
        &self.metadata_outbox
    }

    /// The durable outbox, to be changed.
    pub fn metadata_outbox_mut(&mut self) -> (r: &mut SegmentBackedMetadataOutbox)
        ensures
            r@ == old(self)@.outbox,
            final(self)@ == (ServiceView { outbox: final(r)@, ..old(self)@ }),
    {
        &mut self.metadata_outbox
    }
}

// ---------------------------------------------------------------------------
// Laws
// ---------------------------------------------------------------------------

/// A captured metadata event is pending for the target that owns its shard, stands in the
/// outbox segment, and is found in the provenance index.
pub proof fn law_captured_event_is_pending(s: ServiceView, e: MetadataEventView)
    requires
        capture_refusal(s, e) is None,
        !s.outbox.outbox.entries.contains_key(e.idempotency_key),
    ensures
        ({
            let n = after_capture(s, e);
            let target = owner(s.placement, e.data_individual_shard_id)->0;
            &&& waits(n.outbox.outbox, Some(target), e.idempotency_key)
            &&& n.outbox.outbox.pending.last() == e.idempotency_key
            &&& n.outbox.outbox.entries[e.idempotency_key].payload == payload_of(e, target, s.mapping)
            &&& n.outbox.segment.records.last() == payload_bytes(payload_of(e, target, s.mapping))
            &&& n.provenance.events.contains_key(e.idempotency_key)
        }),
{
}

/// Capturing an event a second time changes nothing.
pub proof fn law_capture_is_idempotent(s: ServiceView, e: MetadataEventView)
    requires
        capture_refusal(s, e) is None,
    ensures
        after_capture(after_capture(s, e), e) == after_capture(s, e),
{
    let n = after_capture(s, e);
    assert(n.outbox.outbox.entries.contains_key(e.idempotency_key));
    assert(n.provenance.events.contains_key(e.idempotency_key));
}

/// The index after events have been offered one after another.
pub open spec fn ingested_in_turn(m: HotIndexView, events: Seq<PipelineEvent>) -> HotIndexView
    decreases events.len(),
{
    if events.len() == 0 {
        m
    } else {
        ingested(ingested_in_turn(m, events.drop_last()), events.last()@)
    }
}

proof fn lemma_offered_journaled(m: HotIndexView, events: Seq<PipelineEvent>, n: int)
    requires
        0 <= n <= events.len(),
    ensures
        offered(m, journaled(events).take(n)) == ingested_in_turn(m, events.take(n)),
    decreases n,
{
    if n > 0 {
        lemma_offered_journaled(m, events, n - 1);
        assert(journaled(events).take(n).drop_last() =~= journaled(events).take(n - 1));
        assert(events.take(n).drop_last() =~= events.take(n - 1));
    }
}

/// Recovery rebuilds the hot index: reading a journal back gives the index that the
/// journaled events gave when they were ingested.
pub proof fn law_recovery_rebuilds_the_index(m: HotIndexView, events: Seq<PipelineEvent>)
    requires
        forall|i: int| 0 <= i < events.len() ==> journalable((#[trigger] events[i])@),
        segment_bytes(journal_records(events)).len() <= u64::MAX,
    ensures
        replay_journal(segment_bytes(journal_records(events))) matches Ok(read) && offered(m, read)
            == ingested_in_turn(m, events),
{
    law_journal_round_trip(events);
    lemma_offered_journaled(m, events, events.len() as int);
    assert(journaled(events).take(events.len() as int) =~= journaled(events));
    assert(events.take(events.len() as int) =~= events);
}

/// A metadata event is refused exactly if no instance owns its shard or if the outbox has no
/// room for it. Otherwise its payload, addressed to the owner of its shard, waits in the
/// outbox under the key of the event, and the event is among those that can be asked for;
/// the process events, the placement, the mapping and the journal stay as they are.
pub proof fn law_captured_events_go_to_their_owner(s: ServiceView, e: MetadataEventView)
    ensures
        ({
            let target = owner(s.placement, e.data_individual_shard_id);
            let payload = payload_of(e, target->0, s.mapping);
            let after = after_capture(s, e);
            &&& target is None ==> capture_refusal(s, e) == Some(
                ServiceErrorView::NoPlacementTarget(e.data_individual_shard_id),
            )
            &&& target is Some ==> (capture_refusal(s, e) is None <==> s.outbox.outbox.entries.contains_key(
                e.idempotency_key,
            ) || crate::storage::can_append(s.outbox.segment.records, payload_bytes(payload).len()))
            &&& capture_refusal(s, e) is Some ==> after == s
            &&& capture_refusal(s, e) is None ==> {
                &&& after.outbox.outbox.entries.contains_key(e.idempotency_key)
                &&& !s.outbox.outbox.entries.contains_key(e.idempotency_key) ==> {
                    let entry = after.outbox.outbox.entries[e.idempotency_key];
                    &&& entry.payload.target == target->0
                    &&& entry.payload.shard == e.data_individual_shard_id
                    &&& entry.payload.mapping_version == s.mapping.version
                    &&& entry.status == OutboxStatus::Pending
                    &&& after.outbox.segment.records == s.outbox.segment.records.push(payload_bytes(payload))
                }
                &&& s.outbox.outbox.entries.contains_key(e.idempotency_key) ==> after.outbox == s.outbox
                &&& after.provenance.events.contains_key(e.idempotency_key)
                &&& !s.provenance.events.contains_key(e.idempotency_key)
                    ==> after.provenance.events[e.idempotency_key] == e
                &&& after.hot_index == s.hot_index && after.placement == s.placement && after.mapping == s.mapping
                    && after.journal == s.journal
            }
        }),
{
    let target = owner(s.placement, e.data_individual_shard_id);
    crate::ipto::law_payload_is_addressed(e, target->0, s.mapping);
    crate::durable_outbox::law_durable_enqueue(s.outbox, capture_payload(s, e));
    crate::data::law_capture_appends(s.provenance, e);
}

/// A process event is taken in durably exactly if there is a journal and the journal takes
/// it: it is then the last record of the journal, and the index is as if it had been offered
/// the event. Otherwise nothing changes.
pub proof fn law_durable_ingest(s: ServiceView, e: PipelineEventView)
    ensures
        s.journal is None ==> durable_refusal(s, e) == Some(ServiceErrorView::JournalNotConfigured),
        s.journal matches Some(j) ==> {
            &&& journal_refusal(j, e) is None ==> durable_refusal(s, e) is None
            &&& journal_refusal(j, e) matches Some(x) ==> durable_refusal(s, e) == Some(ServiceErrorView::Journal(x))
        },
        durable_refusal(s, e) is Some ==> durably_ingested(s, e) == s,
        durable_refusal(s, e) is None ==> {
            let after = durably_ingested(s, e);
            &&& after.journal is Some && after.journal->0.records == s.journal->0.records.push(event_bytes(e))
            &&& after.hot_index == ingested(s.hot_index, e)
            &&& after.placement == s.placement && after.mapping == s.mapping && after.outbox == s.outbox
                && after.provenance == s.provenance
        },
{
}

/// A node holds the lease of a target exactly if the lease on record names it.
pub proof fn law_lease_holders(c: ControlView, node: Seq<char>, target: Seq<char>)
    ensures
        holds_lease(c, node, target) ==> c.writer_leases.contains_key(target) && c.writer_leases[target].holder == node,
        c.writer_leases.contains_key(target) ==> holds_lease(c, c.writer_leases[target].holder, target),
        !c.writer_leases.contains_key(target) ==> !holds_lease(c, node, target),
        c.writer_leases.contains_key(target) && c.writer_leases[target].holder != node ==> !holds_lease(c, node, target),
{
}

} // verus!
