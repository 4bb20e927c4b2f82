//! The ingest boundary for consumed process-event records.
//!
//! A decoded record with its topic, partition and offset is made durable in a journal,
//! handed to the owning shard, and only then may its offset be committed.

use vstd::prelude::*;
use crate::event_codec::event_bytes;
use crate::ingest::{PipelineEvent, PipelineEventView};
use crate::journal::{
    journal_error_text, journal_refusal, JournalErrorView, ProcessEventJournal, ProcessEventJournalError,
};
use crate::ordered::{
    opt_view, rank_str, text_before, text_before_connected, text_before_irreflexive, text_before_transitive,
    Duplicate, Key, Rank,
};
use crate::runtime::QueuedIngestOutcome;
use crate::shard_runtime::{submitted, SitasRuntimeView, SitasShardRuntime};
use crate::sitas_runtime::{says_queue_full, sitas_error_text, SitasErrorView, SitasRuntimeError};
use crate::storage::{frame, segment_bytes, RecordOffset, SegmentWriterView};
use crate::text::IntoText;

verus! {

/// Topic and partition of a record.
#[derive(Debug, PartialEq, Eq, PartialOrd, Ord, Hash)]
pub struct KafkaTopicPartition {
    topic: String,
    partition: i32,
}

/// The view of a topic and partition.
pub struct PartitionView {
    pub topic: Seq<char>,
    pub partition: i32,
}

impl View for KafkaTopicPartition {
    type V = PartitionView;

    closed spec fn view(&self) -> PartitionView {
        PartitionView { topic: self.topic@, partition: self.partition }
    }
}

impl KafkaTopicPartition {
    /// A topic and partition.
    pub fn new(topic: impl IntoText, partition: i32) -> (r: Self)
        ensures
            r@ == (PartitionView { topic: topic.text(), partition }),
    {
        KafkaTopicPartition { topic: topic.into_text(), partition }
    }

    /// The name of the topic.
    pub fn topic(&self) -> (r: &str)
        ensures
            r@ == self@.topic,
    {
        self.topic.as_str()
    }

    /// The number of the partition.
    pub fn partition(&self) -> (r: i32)
        ensures
            r == self@.partition,
    {
        self.partition
    }
}

impl Clone for KafkaTopicPartition {
    fn clone(&self) -> (r: Self)
        ensures
            r == *self,
    {
        KafkaTopicPartition { topic: self.topic.clone(), partition: self.partition }
    }
}

impl Duplicate for KafkaTopicPartition {
    fn duplicate(&self) -> (r: Self) {
        self.clone()
    }
}

impl Key for KafkaTopicPartition {
    open spec fn before(a: PartitionView, b: PartitionView) -> bool {
        text_before(a.topic, b.topic) || (a.topic == b.topic && a.partition < b.partition)
    }

    proof fn before_irreflexive(a: PartitionView) {
        text_before_irreflexive(a.topic);
    }

    proof fn before_transitive(a: PartitionView, b: PartitionView, c: PartitionView) {
        if text_before(a.topic, b.topic) && text_before(b.topic, c.topic) {
            text_before_transitive(a.topic, b.topic, c.topic);
        }
    }

    proof fn before_connected(a: PartitionView, b: PartitionView) {
        text_before_connected(a.topic, b.topic);
    }

    fn rank(&self, other: &Self) -> (r: Rank) {
        match rank_str(self.topic.as_str(), other.topic.as_str()) {
            Rank::Before => Rank::Before,
            Rank::After => Rank::After,
            Rank::Same => if self.partition < other.partition {
                Rank::Before
            } else if self.partition == other.partition {
                Rank::Same
            } else {
                Rank::After
            },
        }
    }
}

/// Offset of a record in its partition.
#[derive(Debug, Clone, Copy, PartialEq, Eq, PartialOrd, Ord, Hash)]
pub struct KafkaOffset(pub i64);

impl View for KafkaOffset {
    type V = i64;

    open spec fn view(&self) -> i64 {
        self.0
    }
}

/// The offset to commit after a record has been accepted.
pub open spec fn commit_offset(offset: i64) -> i64 {
    if offset < i64::MAX {
        (offset + 1) as i64
    } else {
        offset
    }
}

impl KafkaOffset {
    /// The offset to commit after this record has been accepted.
    pub fn next_commit_offset(self) -> (r: Self)
        ensures
            r@ == commit_offset(self@),
    {
        if self.0 < i64::MAX {
            KafkaOffset(self.0 + 1)
        } else {
            self
        }
    }
}

/// A decoded record.
#[derive(Debug, PartialEq, Eq)]
pub struct KafkaProcessRecord {
    pub topic_partition: KafkaTopicPartition,
    pub offset: KafkaOffset,
    pub event: PipelineEvent,
}

/// The view of a record.
pub struct RecordView {
    pub partition: PartitionView,
    pub offset: i64,
    pub event: PipelineEventView,
}

impl View for KafkaProcessRecord {
    type V = RecordView;

    open spec fn view(&self) -> RecordView {
        RecordView { partition: self.topic_partition@, offset: self.offset@, event: self.event@ }
    }
}

impl KafkaProcessRecord {
    /// A decoded record.
    pub fn new(topic_partition: KafkaTopicPartition, offset: KafkaOffset, event: PipelineEvent) -> (r: Self)
        ensures
            r@ == (RecordView { partition: topic_partition@, offset: offset@, event: event@ }),
    {
        KafkaProcessRecord { topic_partition, offset, event }
    }
}

impl Clone for KafkaProcessRecord {
    fn clone(&self) -> (r: Self)
        ensures
            r@ == self@,
    {
        KafkaProcessRecord {
            topic_partition: self.topic_partition.clone(),
            offset: self.offset,
            event: self.event.clone(),
        }
    }
}

/// A record that may have to be handed over again, when its shard has room.
#[derive(Debug, PartialEq, Eq)]
pub struct KafkaPendingRecord {
    record: KafkaProcessRecord,
    journal_offset: Option<RecordOffset>,
}

/// The view of a pending record.
pub struct PendingView {
    pub record: RecordView,
    pub journal_offset: Option<u64>,
}

impl View for KafkaPendingRecord {
    type V = PendingView;

    closed spec fn view(&self) -> PendingView {
        PendingView { record: self.record@, journal_offset: opt_view(self.journal_offset) }
    }
}

/// What came of a record that has been made durable and handed over.
#[derive(Debug, Clone, PartialEq, Eq)]
pub struct KafkaSubmitOutcome {
    pub topic_partition: KafkaTopicPartition,
    /// The offset that was accepted.
    pub offset: KafkaOffset,
    /// The offset that may be committed.
    pub next_commit_offset: KafkaOffset,
    /// Where the event stands in the journal, if there is one.
    pub journal_offset: Option<RecordOffset>,
    /// What the shard answered.
    pub queued: QueuedIngestOutcome,
}

/// Whether an outcome tells of a record that a shard has taken.
pub open spec fn outcome_of(
    x: KafkaSubmitOutcome,
    record: RecordView,
    journal_offset: Option<u64>,
    queued: QueuedIngestOutcome,
) -> bool {
    &&& x.topic_partition@ == record.partition
    &&& x.offset@ == record.offset
    &&& x.next_commit_offset@ == commit_offset(record.offset)
    &&& opt_view(x.journal_offset) == journal_offset
    &&& x.queued == queued
}

/// What can go wrong at the boundary.
#[derive(Debug, PartialEq, Eq)]
pub enum KafkaIngestError {
    /// The journal did not take the event.
    Journal(ProcessEventJournalError),
    /// The shard did not take the event.
    Runtime(SitasRuntimeError),
}

/// The view of an error.
pub enum KafkaIngestErrorView {
    Journal(JournalErrorView),
    Runtime(SitasErrorView),
}

impl View for KafkaIngestError {
    type V = KafkaIngestErrorView;

    open spec fn view(&self) -> KafkaIngestErrorView {
        match self {
            KafkaIngestError::Journal(e) => KafkaIngestErrorView::Journal(e@),
            KafkaIngestError::Runtime(e) => KafkaIngestErrorView::Runtime(e@),
        }
    }
}

/// The text of an error.
pub open spec fn kafka_ingest_error_text(e: KafkaIngestErrorView) -> Seq<char> {
    match e {
        KafkaIngestErrorView::Journal(e) => journal_error_text(e),
        KafkaIngestErrorView::Runtime(e) => sitas_error_text(e),
    }
}

impl KafkaIngestError {
    /// The error as a text for an operator.
    pub fn describe(&self) -> (r: String)
        ensures
            r@ == kafka_ingest_error_text(self@),
    {
        match self {
            KafkaIngestError::Journal(e) => e.describe(),
            KafkaIngestError::Runtime(e) => e.describe(),
        }
    }
}

impl From<ProcessEventJournalError> for KafkaIngestError {
    fn from(error: ProcessEventJournalError) -> (r: Self) {
        KafkaIngestError::Journal(error)
    }
}

impl vstd::std_specs::convert::FromSpecImpl<ProcessEventJournalError> for KafkaIngestError {
    open spec fn obeys_from_spec() -> bool {
        true
    }

    open spec fn from_spec(v: ProcessEventJournalError) -> Self {
        KafkaIngestError::Journal(v)
    }
}

impl From<SitasRuntimeError> for KafkaIngestError {
    fn from(error: SitasRuntimeError) -> (r: Self) {
        KafkaIngestError::Runtime(error)
    }
}

impl vstd::std_specs::convert::FromSpecImpl<SitasRuntimeError> for KafkaIngestError {
    open spec fn obeys_from_spec() -> bool {
        true
    }

    open spec fn from_spec(v: SitasRuntimeError) -> Self {
        KafkaIngestError::Runtime(v)
    }
}

/// The journal and the journal offset of a pending record after the record has been made
/// durable: that happens once.
pub open spec fn persisted(p: PendingView, j: SegmentWriterView) -> (PendingView, SegmentWriterView) {
    if p.journal_offset is Some || journal_refusal(j, p.record.event) is Some {
        (p, j)
    } else {
        (
            PendingView { journal_offset: Some(segment_bytes(j.records).len() as u64), ..p },
            SegmentWriterView { records: j.records.push(event_bytes(p.record.event)), ..j },
        )
    }
}

impl KafkaPendingRecord {
    /// A record that has not been made durable.
    pub fn new(record: KafkaProcessRecord) -> (r: Self)
        ensures
            r@ == (PendingView { record: record@, journal_offset: None }),
    {
        KafkaPendingRecord { record, journal_offset: None }
    }

    /// Topic and partition of the record.
    pub fn topic_partition(&self) -> (r: &KafkaTopicPartition)
        ensures
            r@ == self@.record.partition,
    {
        &self.record.topic_partition
    }

    /// Offset of the record.
    pub fn offset(&self) -> (r: KafkaOffset)
        ensures
            r@ == self@.record.offset,
    {
        self.record.offset
    }

    /// The event of the record.
    pub fn event(&self) -> (r: &PipelineEvent)
        ensures
            r@ == self@.record.event,
    {
        &self.record.event
    }

    /// Where the event stands in the journal, if it has been made durable.
    pub fn journal_offset(&self) -> (r: Option<RecordOffset>)
        ensures
            opt_view(r) == self@.journal_offset,
    {
        self.journal_offset
    }

    /// The bytes that make the record durable, if it is not yet: they are to be written
    /// and synced before `persist` accounts for the record.
    pub fn frame(&self, journal: &ProcessEventJournal) -> (r: Result<Option<Vec<u8>>, KafkaIngestError>)
        ensures
            match r {
                Ok(None) => self@.journal_offset is Some,
                Ok(Some(bytes)) => {
                    &&& self@.journal_offset is None
                    &&& journal_refusal(journal@, self@.record.event) is None
                    &&& bytes@ == frame(event_bytes(self@.record.event))
                },
                Err(e) => {
                    &&& self@.journal_offset is None
                    &&& journal_refusal(journal@, self@.record.event) matches Some(x) && e@
                        == KafkaIngestErrorView::Journal(x)
                },
            },
    {
        if self.journal_offset.is_some() {
            return Ok(None);
        }
        match journal.frame_event(&self.record.event) {
            Ok(bytes) => Ok(Some(bytes)),
            Err(e) => Err(KafkaIngestError::Journal(e)),
        }
    }

    /// Accounts for the record that has been made durable, unless that has been done.
    pub fn persist(&mut self, journal: &mut ProcessEventJournal) -> (r: Result<(), KafkaIngestError>)
        ensures
            (final(self)@, final(journal)@) == persisted(old(self)@, old(journal)@),
            match r {
                Ok(()) => old(self)@.journal_offset is Some || journal_refusal(
                    old(journal)@,
                    old(self)@.record.event,
                ) is None,
                Err(e) => {
                    &&& old(self)@.journal_offset is None
                    &&& journal_refusal(old(journal)@, old(self)@.record.event) matches Some(x) && e@
                        == KafkaIngestErrorView::Journal(x)
                },
            },
    {
        if self.journal_offset.is_some() {
            return Ok(());
        }
        match journal.append_durable(&self.record.event) {
            Ok(offset) => {
                self.journal_offset = Some(offset);
                Ok(())
            },
            Err(e) => Err(KafkaIngestError::Journal(e)),
        }
    }
}

impl Clone for KafkaPendingRecord {
    fn clone(&self) -> (r: Self)
        ensures
            r@ == self@,
    {
        KafkaPendingRecord { record: self.record.clone(), journal_offset: self.journal_offset }
    }
}

impl Duplicate for KafkaPendingRecord {
    fn duplicate(&self) -> (r: Self) {
        self.clone()
    }
}

/// Whether a result is what a record comes to when its shard has answered.
pub open spec fn record_settled(
    record: RecordView,
    journal_offset: Option<u64>,
    queued: Result<QueuedIngestOutcome, SitasRuntimeError>,
    r: Result<KafkaSubmitOutcome, KafkaIngestError>,
) -> bool {
    match (queued, r) {
        (Ok(q), Ok(x)) => outcome_of(x, record, journal_offset, q),
        (Err(e), Err(x)) => x@ == KafkaIngestErrorView::Runtime(e@),
        _ => false,
    }
}

/// Whether a result is what a pending record comes to when its shard has answered.
pub open spec fn pending_settled(
    pending: PendingView,
    queued: Result<QueuedIngestOutcome, SitasRuntimeError>,
    r: Result<Option<KafkaSubmitOutcome>, KafkaIngestError>,
) -> bool {
    match (queued, r) {
        (Ok(q), Ok(Some(x))) => outcome_of(x, pending.record, pending.journal_offset, q),
        (Err(e), Ok(None)) => says_queue_full(e@),
        (Err(e), Err(x)) => !says_queue_full(e@) && x@ == KafkaIngestErrorView::Runtime(e@),
        _ => false,
    }
}

/// What a record comes to, after it has been made durable, when its shard has answered.
pub fn settle_record(
    record: KafkaProcessRecord,
    journal_offset: Option<RecordOffset>,
    queued: Result<QueuedIngestOutcome, SitasRuntimeError>,
) -> (r: Result<KafkaSubmitOutcome, KafkaIngestError>)
    ensures
        record_settled(record@, opt_view(journal_offset), queued, r),
{
    match queued {
        Ok(queued) => Ok(
            KafkaSubmitOutcome {
                topic_partition: record.topic_partition,
                offset: record.offset,
                next_commit_offset: record.offset.next_commit_offset(),
                journal_offset,
                queued,
            },
        ),
        Err(e) => Err(KafkaIngestError::Runtime(e)),
    }
}

/// What a pending record comes to when its shard has answered: where the shard has no room
/// there is no outcome, and the record is to be handed over again.
pub fn settle_pending(
    pending: &KafkaPendingRecord,
    queued: Result<QueuedIngestOutcome, SitasRuntimeError>,
) -> (r: Result<Option<KafkaSubmitOutcome>, KafkaIngestError>)
    ensures
        pending_settled(pending@, queued, r),
{
    match queued {
        Ok(queued) => Ok(
            Some(
                KafkaSubmitOutcome {
                    topic_partition: pending.record.topic_partition.clone(),
                    offset: pending.record.offset,
                    next_commit_offset: pending.record.offset.next_commit_offset(),
                    journal_offset: pending.journal_offset,
                    queued,
                },
            ),
        ),
        Err(e) => if e.is_queue_full() {
            Ok(None)
        } else {
            Err(KafkaIngestError::Runtime(e))
        },
    }
}

/// Hands a record to the shard that owns its event, and waits for room there. Where there is
/// a journal, the record is accounted for in it first; the bytes of `frame_event` have been
/// written and synced by then.
pub fn submit_kafka_process_record(
    runtime: &SitasShardRuntime,
    journal: Option<&mut ProcessEventJournal>,
    record: KafkaProcessRecord,
) -> (r: Result<KafkaSubmitOutcome, KafkaIngestError>)
    ensures
        match journal {
            Some(j) => match journal_refusal(j@, record@.event) {
                Some(refusal) => {
                    &&& r matches Err(e) && e@ == KafkaIngestErrorView::Journal(refusal)
                    &&& final(j)@ == j@
                },
                None => {
                    &&& final(j)@ == (SegmentWriterView {
                        records: j@.records.push(event_bytes(record@.event)),
                        ..j@
                    })
                    &&& exists|queued: Result<QueuedIngestOutcome, SitasRuntimeError>|
                        {
                            &&& #[trigger] submitted(runtime@, record@.event, queued)
                            &&& record_settled(
                                record@,
                                Some(segment_bytes(j@.records).len() as u64),
                                queued,
                                r,
                            )
                        }
                },
            },
            None => exists|queued: Result<QueuedIngestOutcome, SitasRuntimeError>|
                {
                    &&& #[trigger] submitted(runtime@, record@.event, queued)
                    &&& record_settled(record@, None, queued, r)
                },
        },
        r matches Err(KafkaIngestError::Runtime(e)) ==> !says_queue_full(e@),
{
    let journal_offset: Option<RecordOffset> = match journal {
        Some(journal) => match journal.append_durable(&record.event) {
            Ok(offset) => Some(offset),
            Err(e) => {
                return Err(KafkaIngestError::Journal(e));
            },
        },
        None => None,
    };
    let queued = runtime.submit(record.event.clone());
    settle_record(record, journal_offset, queued)
}

/// Hands a pending record to the shard that owns its event, if there is room; where there is
/// none there is no outcome, and the record is to be handed over again. Where there is a
/// journal, the record is accounted for in it first, once; the bytes of `frame` have been
/// written and synced by then.
pub fn try_submit_kafka_pending_record(
    runtime: &SitasShardRuntime,
    journal: Option<&mut ProcessEventJournal>,
    pending: &mut KafkaPendingRecord,
) -> (r: Result<Option<KafkaSubmitOutcome>, KafkaIngestError>)
    ensures
        match journal {
            Some(j) => {
                &&& (final(pending)@, final(j)@) == persisted(old(pending)@, j@)
                &&& match journal_refusal(j@, old(pending)@.record.event) {
                    Some(refusal) if old(pending)@.journal_offset is None => r matches Err(e) && e@
                        == KafkaIngestErrorView::Journal(refusal),
                    _ => handed_over(runtime@, final(pending)@, r),
                }
            },
            None => final(pending)@ == old(pending)@ && handed_over(runtime@, final(pending)@, r),
        },
{
    if let Some(journal) = journal {
        match pending.persist(journal) {
            Ok(()) => {},
            Err(e) => {
                return Err(e);
            },
        }
    }
    submit_pending(runtime, pending)
}

/// Whether a pending record has been handed to the shard that owns its event, and a result is
/// what it comes to.
pub open spec fn handed_over(
    runtime: SitasRuntimeView,
    pending: PendingView,
    r: Result<Option<KafkaSubmitOutcome>, KafkaIngestError>,
) -> bool {
    exists|queued: Result<QueuedIngestOutcome, SitasRuntimeError>|
        {
            &&& #[trigger] submitted(runtime, pending.record.event, queued)
            &&& pending_settled(pending, queued, r)
        }
}

/// Hands a pending record, durable or not, to the shard that owns its event, if there is room.
pub fn submit_pending(runtime: &SitasShardRuntime, pending: &KafkaPendingRecord) -> (r: Result<
    Option<KafkaSubmitOutcome>,
    KafkaIngestError,
>)
    ensures
        handed_over(runtime@, pending@, r),
{
    let queued = runtime.try_submit(pending.event().clone());
    settle_pending(pending, queued)
}

// ---------------------------------------------------------------------------
// Laws
// ---------------------------------------------------------------------------

/// A record is made durable once: handing it over again appends nothing, and it keeps its
/// place in the journal.
pub proof fn law_record_is_persisted_once(p: PendingView, j: SegmentWriterView)
    ensures
        ({
            let (once, journal) = persisted(p, j);
            once.journal_offset is Some ==> persisted(once, journal) == (once, journal)
        }),
        p.journal_offset is Some ==> persisted(p, j) == (p, j),
{
}

/// A record that a shard has taken may be committed: the offset to commit is the one behind
/// the record, and the outcome names the record, its place in the journal and its place in
/// the queue.
pub proof fn law_commit_is_behind_the_record(
    x: KafkaSubmitOutcome,
    record: RecordView,
    journal_offset: Option<u64>,
    queued: QueuedIngestOutcome,
)
    requires
        outcome_of(x, record, journal_offset, queued),
    ensures
        record.offset < i64::MAX ==> x.next_commit_offset@ == record.offset + 1,
        record.offset == i64::MAX ==> x.next_commit_offset@ == i64::MAX,
        x.offset@ == record.offset,
        x.topic_partition@.topic == record.partition.topic && x.topic_partition@.partition == record.partition.partition,
        journal_offset is None ==> x.journal_offset is None,
        journal_offset matches Some(at) ==> x.journal_offset is Some && x.journal_offset->0@ == at,
        x.queued == queued,
{
}

/// A full queue is no failure: the record has no outcome yet and is to be handed over again.
/// Every other refusal of the runtime is handed on, and what was taken has its outcome.
pub proof fn law_only_a_full_queue_is_waited_for(
    pending: PendingView,
    queued: Result<QueuedIngestOutcome, SitasRuntimeError>,
    r: Result<Option<KafkaSubmitOutcome>, KafkaIngestError>,
)
    requires
        pending_settled(pending, queued, r),
    ensures
        queued matches Ok(q) ==> (r matches Ok(Some(x)) && outcome_of(x, pending.record, pending.journal_offset, q)),
        queued matches Err(e) ==> {
            &&& says_queue_full(e@) ==> (r matches Ok(None))
            &&& !says_queue_full(e@) ==> (r matches Err(x) && x@ == KafkaIngestErrorView::Runtime(e@))
        },
{
}

/// A record that is not durable yet is written at the end of the journal and remembers that
/// place; one that is durable, or that the journal refuses, leaves both as they are.
pub proof fn law_records_become_durable(p: PendingView, j: SegmentWriterView)
    ensures
        ({
            let (after, journal) = persisted(p, j);
            &&& after.record == p.record
            &&& p.journal_offset is Some || journal_refusal(j, p.record.event) is Some ==> after == p && journal == j
            &&& p.journal_offset is None && journal_refusal(j, p.record.event) is None ==> {
                &&& after.journal_offset == Some(segment_bytes(j.records).len() as u64)
                &&& journal.records == j.records.push(event_bytes(p.record.event))
                &&& journal.segment_id == j.segment_id && journal.node_id == j.node_id && journal.path == j.path
            }
        }),
{
}

} // verus!
