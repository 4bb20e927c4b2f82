//! Outbox whose payloads are made durable in a segment before they are pending.

use vstd::prelude::*;
use crate::checkpoint::{CheckpointEpoch, MetadataOutboxCheckpoint, OutboxCheckpointView};
use crate::cluster::NodeId;
use crate::data::DataIndividualShardId;
use crate::ipto::{
    lemma_payload_fits, law_payload_round_trip, parse_payload, payload_bytes, payload_error_text, IptoInstanceId,
    IptoPayloadDecodeError, IptoWritePayload, PayloadView,
};
use crate::ordered::opt_view;
use crate::outbox::{
    consistent, count_status, drain_pending_outbox, drained, empty_outbox, enqueued, furthest,
    law_checkpoint_loses_nothing, outbox_keys, settled_up_to, Attempt, IptoWriter, MetadataOutbox,
    MetadataOutboxDrainSummary, MetadataOutboxSnapshot, OutboxStatus, OutboxView,
};
use crate::storage::{
    can_append, frame, frames, law_frame_read_back, lemma_frame_len, lemma_frames_first, lemma_next_record,
    lemma_segment_push, manifest_of, next_record, offset_of, scan_segment, segment_bytes, segment_error_text,
    segment_magic, short_read, NextRecord, RecordOffset, SegmentError, SegmentErrorView, SegmentId, SegmentManifest,
    SegmentReader, SegmentWriter, SegmentWriterView,
};
use crate::text::{push_text, IntoText};

verus! {

/// What can go wrong with a durable outbox.
#[derive(Debug, PartialEq, Eq)]
pub enum MetadataOutboxStorageError {
    Segment(SegmentError),
    PayloadDecode(IptoPayloadDecodeError),
}

/// The view of a durable outbox's error.
pub enum OutboxErrorView {
    Segment(SegmentErrorView),
    PayloadDecode(IptoPayloadDecodeError),
}

impl View for MetadataOutboxStorageError {
    type V = OutboxErrorView;

    open spec fn view(&self) -> OutboxErrorView {
        match self {
            MetadataOutboxStorageError::Segment(e) => OutboxErrorView::Segment(e@),
            MetadataOutboxStorageError::PayloadDecode(e) => OutboxErrorView::PayloadDecode(*e),
        }
    }
}

/// The text of a durable outbox's error.
pub open spec fn outbox_error_text(e: OutboxErrorView) -> Seq<char> {
    match e {
        OutboxErrorView::Segment(e) => "metadata outbox segment error: "@ + segment_error_text(e),
        OutboxErrorView::PayloadDecode(e) => "metadata outbox payload decode error: "@ + payload_error_text(e),
    }
}

impl MetadataOutboxStorageError {
    /// The error as a text for an operator.
    pub fn describe(&self) -> (r: String)
        ensures
            r@ == outbox_error_text(self@),
    {
        match self {
            MetadataOutboxStorageError::Segment(e) => {
                let mut out = "metadata outbox segment error: ".to_owned();
                let text = e.describe();
                push_text(&mut out, text.as_str());
                out
            },
            MetadataOutboxStorageError::PayloadDecode(e) => {
                let mut out = "metadata outbox payload decode error: ".to_owned();
                let text = e.describe();
                push_text(&mut out, text.as_str());
                out
            },
        }
    }
}

impl From<SegmentError> for MetadataOutboxStorageError {
    fn from(value: SegmentError) -> (r: Self) {
        MetadataOutboxStorageError::Segment(value)
    }
}

impl vstd::std_specs::convert::FromSpecImpl<SegmentError> for MetadataOutboxStorageError {
    open spec fn obeys_from_spec() -> bool {
        true
    }

    open spec fn from_spec(v: SegmentError) -> Self {
        MetadataOutboxStorageError::Segment(v)
    }
}

impl From<IptoPayloadDecodeError> for MetadataOutboxStorageError {
    fn from(value: IptoPayloadDecodeError) -> (r: Self) {
        MetadataOutboxStorageError::PayloadDecode(value)
    }
}

impl vstd::std_specs::convert::FromSpecImpl<IptoPayloadDecodeError> for MetadataOutboxStorageError {
    open spec fn obeys_from_spec() -> bool {
        true
    }

    open spec fn from_spec(v: IptoPayloadDecodeError) -> Self {
        MetadataOutboxStorageError::PayloadDecode(v)
    }
}

// ---------------------------------------------------------------------------
// Replay
// ---------------------------------------------------------------------------

/// Numbers of records that a replay met.
#[derive(Debug, Clone, Copy, PartialEq, Eq)]
pub struct MetadataOutboxReplaySummary {
    pub checkpoint_offset: Option<RecordOffset>,
    pub scanned_records: usize,
    pub skipped_records: usize,
    pub replayed_records: usize,
}

/// The outbox that a segment was replayed into.
#[derive(Debug)]
pub struct MetadataOutboxReplay {
    pub outbox: MetadataOutbox,
    pub summary: MetadataOutboxReplaySummary,
}

/// Which records are replayed: those behind a checkpoint, or those of a range of shards.
pub enum Selection {
    After(Option<u64>),
    Shards(u64, u64),
}

/// How far a replay has got.
pub struct ReplayState {
    pub outbox: OutboxView,
    pub skipped: nat,
    pub replayed: nat,
}

/// The start of a replay.
pub open spec fn replay_start() -> ReplayState {
    ReplayState { outbox: empty_outbox(), skipped: 0, replayed: 0 }
}

/// Whether a record lies at or before the checkpoint, so that it is passed over unread.
pub open spec fn is_consumed(selection: Selection, offset: u64) -> bool {
    match selection {
        Selection::After(Some(checkpoint)) => offset <= checkpoint,
        _ => false,
    }
}

/// Whether a payload at a position is replayed.
pub open spec fn is_selected(selection: Selection, offset: u64, p: PayloadView) -> bool {
    match selection {
        Selection::After(_) => !is_consumed(selection, offset),
        Selection::Shards(start, end) => start <= p.shard <= end,
    }
}

/// The replay after one more payload.
pub open spec fn replay_step(s: ReplayState, selection: Selection, offset: u64, p: PayloadView) -> ReplayState {
    if is_selected(selection, offset, p) {
        ReplayState { outbox: enqueued(s.outbox, p, Some(offset)), replayed: s.replayed + 1, ..s }
    } else {
        ReplayState { skipped: s.skipped + 1, ..s }
    }
}

/// The replay of what follows from a position, or the first thing wrong with it.
pub open spec fn replay(b: Seq<u8>, offset: u64, selection: Selection, s: ReplayState) -> Result<
    ReplayState,
    OutboxErrorView,
>
    decreases b.len(),
{
    match next_record(b) {
        NextRecord::End => Ok(s),
        NextRecord::Truncated => Err(OutboxErrorView::Segment(short_read())),
        NextRecord::Corrupt { expected, payload, rest } => Err(
            OutboxErrorView::Segment(SegmentErrorView::ChecksumMismatch(offset, expected, crate::hash::fnv(payload))),
        ),
        NextRecord::Record { payload, rest } => {
            let next = (offset + 12 + payload.len()) as u64;
            if rest.len() >= b.len() {
                Ok(s)
            } else if is_consumed(selection, offset) {
                replay(rest, next, selection, ReplayState { skipped: s.skipped + 1, ..s })
            } else {
                match parse_payload(payload) {
                    Err(e) => Err(OutboxErrorView::PayloadDecode(e)),
                    Ok(p) => replay(rest, next, selection, replay_step(s, selection, offset, p)),
                }
            }
        },
    }
}

/// The replay of a segment, or the first thing wrong with it.
pub open spec fn replay_segment(bytes: Seq<u8>, selection: Selection) -> Result<ReplayState, OutboxErrorView> {
    if bytes.len() < 8 {
        Err(OutboxErrorView::Segment(short_read()))
    } else if bytes.take(8) != segment_magic() {
        Err(OutboxErrorView::Segment(SegmentErrorView::InvalidMagic))
    } else {
        replay(bytes.skip(8), 8, selection, replay_start())
    }
}

/// Reads the payloads of a segment back into an outbox.
pub fn replay_metadata_outbox_segment(bytes: Vec<u8>) -> (r: Result<MetadataOutbox, MetadataOutboxStorageError>)
    ensures
        match (replay_segment(bytes@, Selection::After(None)), r) {
            (Ok(s), Ok(outbox)) => outbox@ == s.outbox,
            (Err(e), Err(x)) => x@ == e,
            _ => false,
        },
{
    match replay_metadata_outbox_segment_after(bytes, None) {
        Ok(replay) => Ok(replay.outbox),
        Err(e) => Err(e),
    }
}

/// Reads the payloads of a segment that stand behind a checkpoint back into an outbox.
pub fn replay_metadata_outbox_segment_after(bytes: Vec<u8>, checkpoint_offset: Option<RecordOffset>) -> (r: Result<
    MetadataOutboxReplay,
    MetadataOutboxStorageError,
>)
    ensures
        match (replay_segment(bytes@, Selection::After(opt_view(checkpoint_offset))), r) {
            (Ok(s), Ok(x)) => {
                &&& x.outbox@ == s.outbox
                &&& x.summary.checkpoint_offset == checkpoint_offset
                &&& x.summary.scanned_records == s.skipped + s.replayed
                &&& x.summary.skipped_records == s.skipped
                &&& x.summary.replayed_records == s.replayed
            },
            (Err(e), Err(x)) => x@ == e,
            _ => false,
        },
{
    let ghost whole = bytes@;
    let ghost selection = Selection::After(opt_view(checkpoint_offset));
    let total: usize = bytes.len();
    let mut reader = match SegmentReader::open(bytes) {
        Ok(reader) => reader,
        Err(e) => {
            return Err(MetadataOutboxStorageError::Segment(e));
        },
    };
    let mut outbox = MetadataOutbox::new();
    let mut summary = MetadataOutboxReplaySummary {
        checkpoint_offset,
        scanned_records: 0,
        skipped_records: 0,
        replayed_records: 0,
    };
    loop
        invariant
            whole == bytes@,
            total == whole.len(),
            selection == Selection::After(opt_view(checkpoint_offset)),
            summary.checkpoint_offset == checkpoint_offset,
            summary.scanned_records == summary.skipped_records + summary.replayed_records,
            summary.scanned_records + reader@.rest.len() <= total,
            replay_segment(whole, selection) == replay(
                reader@.rest,
                reader@.offset,
                selection,
                ReplayState {
                    outbox: outbox@,
                    skipped: summary.skipped_records as nat,
                    replayed: summary.replayed_records as nat,
                },
            ),
        decreases reader@.rest.len(),
    {
        let ghost before = reader@;
        match reader.read_next() {
            Err(e) => {
                return Err(MetadataOutboxStorageError::Segment(e));
            },
            Ok(None) => {
                return Ok(MetadataOutboxReplay { outbox, summary });
            },
            Ok(Some(record)) => {
                proof {
                    lemma_next_record(before.rest);
                }
                summary.scanned_records = summary.scanned_records + 1;
                let consumed = match checkpoint_offset {
                    Some(checkpoint) => record.offset.0 <= checkpoint.0,
                    None => false,
                };
                if consumed {
                    summary.skipped_records = summary.skipped_records + 1;
                } else {
                    let payload = match IptoWritePayload::decode(record.payload.as_slice()) {
                        Ok(payload) => payload,
                        Err(e) => {
                            return Err(MetadataOutboxStorageError::PayloadDecode(e));
                        },
                    };
                    let _ = outbox.enqueue_with_offset(payload, Some(record.offset));
                    summary.replayed_records = summary.replayed_records + 1;
                }
            },
        }
    }
}

/// Reads the payloads of a range of shards back into an outbox, so that they can be
/// delivered to another target.
pub fn replay_metadata_outbox_segment_for_shard_range(
    bytes: Vec<u8>,
    start: DataIndividualShardId,
    end: DataIndividualShardId,
) -> (r: Result<MetadataOutbox, MetadataOutboxStorageError>)
    ensures
        match (replay_segment(bytes@, Selection::Shards(start@, end@)), r) {
            (Ok(s), Ok(outbox)) => outbox@ == s.outbox,
            (Err(e), Err(x)) => x@ == e,
            _ => false,
        },
{
    let ghost whole = bytes@;
    let ghost selection = Selection::Shards(start@, end@);
    let mut reader = match SegmentReader::open(bytes) {
        Ok(reader) => reader,
        Err(e) => {
            return Err(MetadataOutboxStorageError::Segment(e));
        },
    };
    let mut outbox = MetadataOutbox::new();
    let ghost mut state = replay_start();
    loop
        invariant
            whole == bytes@,
            selection == Selection::Shards(start@, end@),
            outbox@ == state.outbox,
            replay_segment(whole, selection) == replay(reader@.rest, reader@.offset, selection, state),
        decreases reader@.rest.len(),
    {
        let ghost before = reader@;
        match reader.read_next() {
            Err(e) => {
                return Err(MetadataOutboxStorageError::Segment(e));
            },
            Ok(None) => {
                return Ok(outbox);
            },
            Ok(Some(record)) => {
                proof {
                    lemma_next_record(before.rest);
                }
                let payload = match IptoWritePayload::decode(record.payload.as_slice()) {
                    Ok(payload) => payload,
                    Err(e) => {
                        return Err(MetadataOutboxStorageError::PayloadDecode(e));
                    },
                };
                proof {
                    state = replay_step(state, selection, before.offset, payload@);
                }
                if start.0 <= payload.shard_id.0 && payload.shard_id.0 <= end.0 {
                    let _ = outbox.enqueue_with_offset(payload, Some(record.offset));
                }
            },
        }
    }
}

/// What moving a range of shards did.
#[derive(Debug, Clone, Copy, PartialEq, Eq)]
pub struct MetadataOutboxRebalanceSummary {
    pub entries_found: usize,
    pub attempted: usize,
    pub acknowledged: usize,
    pub failed: usize,
}

/// Whether the payloads of a range of shards have been read from a segment and drained, with
/// the attempts made by then, and a summary tells of it.
pub open spec fn rebalanced(
    bytes: Seq<u8>,
    start: u64,
    end: u64,
    before: Seq<Attempt>,
    x: MetadataOutboxRebalanceSummary,
    after: Seq<Attempt>,
    max_attempts: nat,
) -> bool {
    replay_segment(bytes, Selection::Shards(start, end)) matches Ok(s) && x.entries_found
        == s.outbox.entries.dom().len() && exists|left: OutboxView, drain: MetadataOutboxDrainSummary|
        {
            &&& #[trigger] drained(s.outbox, None, before, left, after, drain, max_attempts)
            &&& x.attempted == drain.attempted
            &&& x.acknowledged == drain.acknowledged
            &&& x.failed == drain.failed
        }
}

/// Delivers the payloads of a range of shards, read from a segment, through the writer of
/// their new target.
pub fn rebalance_shard_range_to<W: IptoWriter + ?Sized>(
    bytes: Vec<u8>,
    start: DataIndividualShardId,
    end: DataIndividualShardId,
    writer: &mut W,
    max_attempts: usize,
) -> (r: Result<MetadataOutboxRebalanceSummary, MetadataOutboxStorageError>)
    ensures
        match r {
            Ok(x) => rebalanced(
                bytes@,
                start@,
                end@,
                old(writer).attempts(),
                x,
                final(writer).attempts(),
                max_attempts as nat,
            ),
            Err(e) => replay_segment(bytes@, Selection::Shards(start@, end@)) == Err::<ReplayState, OutboxErrorView>(
                e@,
            ) && final(writer).attempts() == old(writer).attempts(),
        },
{
    let mut pending = match replay_metadata_outbox_segment_for_shard_range(bytes, start, end) {
        Ok(pending) => pending,
        Err(e) => {
            return Err(e);
        },
    };
    let ghost found = pending@;
    let entries_found: usize = pending.len();
    let drain = drain_pending_outbox(&mut pending, writer, max_attempts);
    Ok(
        MetadataOutboxRebalanceSummary {
            entries_found,
            attempted: drain.attempted,
            acknowledged: drain.acknowledged,
            failed: drain.failed,
        },
    )
}

// ---------------------------------------------------------------------------
// The durable outbox
// ---------------------------------------------------------------------------

/// An outbox together with the segment that its payloads are kept in.
pub struct SegmentBackedMetadataOutbox {
    outbox: MetadataOutbox,
    writer: SegmentWriter,
}

/// The view of a durable outbox.
pub struct DurableOutboxView {
    pub outbox: OutboxView,
    pub segment: SegmentWriterView,
}

impl View for SegmentBackedMetadataOutbox {
    type V = DurableOutboxView;

    closed spec fn view(&self) -> DurableOutboxView {
        DurableOutboxView { outbox: self.outbox@, segment: self.writer@ }
    }
}

/// Whether a durable payload was new, and where it stands.
#[derive(Debug, Clone, Copy, PartialEq, Eq)]
pub enum DurableOutboxEnqueueResult {
    Enqueued { offset: RecordOffset },
    Duplicate,
}

/// Numbers of entries in a durable outbox, and its segment.
#[derive(Debug, Clone, PartialEq, Eq)]
pub struct SegmentBackedMetadataOutboxSnapshot {
    pub outbox: MetadataOutboxSnapshot,
    pub segment: SegmentManifest,
}

/// A durable outbox that has been opened again.
pub struct SegmentBackedMetadataOutboxRecovery {
    pub outbox: SegmentBackedMetadataOutbox,
    pub summary: MetadataOutboxReplaySummary,
}

/// Whether the segment cannot take the record of a payload.
pub open spec fn has_no_room(d: DurableOutboxView, p: PayloadView) -> bool {
    !d.outbox.entries.contains_key(p.key) && !can_append(d.segment.records, payload_bytes(p).len())
}

/// The durable outbox after a payload has been handed to it.
pub open spec fn durably_enqueued(d: DurableOutboxView, p: PayloadView) -> DurableOutboxView {
    if d.outbox.entries.contains_key(p.key) || has_no_room(d, p) {
        d
    } else {
        DurableOutboxView {
            outbox: enqueued(d.outbox, p, Some(segment_bytes(d.segment.records).len() as u64)),
            segment: SegmentWriterView { records: d.segment.records.push(payload_bytes(p)), ..d.segment },
        }
    }
}

impl SegmentBackedMetadataOutbox {
    /// A new durable outbox.
    pub fn create(path: impl IntoText, segment_id: SegmentId, node_id: NodeId) -> (r: Self)
        ensures
            r@ == (DurableOutboxView {
                outbox: empty_outbox(),
                segment: SegmentWriterView {
                    segment_id: segment_id@,
                    node_id: node_id@,
                    path: path.text(),
                    records: Seq::empty(),
                },
            }),
    {
        SegmentBackedMetadataOutbox {
            outbox: MetadataOutbox::new(),
            writer: SegmentWriter::create(path, segment_id, node_id),
        }
    }

    /// Opens an existing segment: the payloads behind the checkpoint are pending, and
    /// records can be appended.
    pub fn recover_after(
        bytes: Vec<u8>,
        path: impl IntoText,
        segment_id: SegmentId,
        node_id: NodeId,
        checkpoint_offset: Option<RecordOffset>,
    ) -> (r: Result<SegmentBackedMetadataOutboxRecovery, MetadataOutboxStorageError>)
        ensures
            match (
                replay_segment(bytes@, Selection::After(opt_view(checkpoint_offset))),
                scan_segment(bytes@),
                r,
            ) {
                (Ok(s), Ok(records), Ok(x)) => {
                    &&& x.outbox@ == (DurableOutboxView {
                        outbox: s.outbox,
                        segment: SegmentWriterView {
                            segment_id: segment_id@,
                            node_id: node_id@,
                            path: path.text(),
                            records,
                        },
                    })
                    &&& x.summary.checkpoint_offset == checkpoint_offset
                    &&& x.summary.scanned_records == s.skipped + s.replayed
                    &&& x.summary.skipped_records == s.skipped
                    &&& x.summary.replayed_records == s.replayed
                },
                (Err(e), _, Err(x)) => x@ == e,
                (Ok(_), Err(e), Err(x)) => x@ == OutboxErrorView::Segment(e),
                _ => false,
            },
    {
        let copy = crate::wire::copy_range(bytes.as_slice(), 0, bytes.len());
        assert(copy@ =~= bytes@);
        let replay = match replay_metadata_outbox_segment_after(copy, checkpoint_offset) {
            Ok(replay) => replay,
            Err(e) => {
                return Err(e);
            },
        };
        match SegmentWriter::open_append(bytes, path, segment_id, node_id) {
            Ok(writer) => Ok(
                SegmentBackedMetadataOutboxRecovery {
                    outbox: SegmentBackedMetadataOutbox { outbox: replay.outbox, writer },
                    summary: replay.summary,
                },
            ),
            Err(e) => Err(MetadataOutboxStorageError::Segment(e)),
        }
    }

    /// The bytes that make a payload durable, if it is new: they are to be written and
    /// synced before `enqueue_durable` makes the payload pending.
    pub fn frame_payload(&self, payload: &IptoWritePayload) -> (r: Result<Option<Vec<u8>>, MetadataOutboxStorageError>)
        ensures
            match r {
                Ok(None) => self@.outbox.entries.contains_key(payload@.key),
                Ok(Some(bytes)) => {
                    &&& !self@.outbox.entries.contains_key(payload@.key)
                    &&& !has_no_room(self@, payload@)
                    &&& bytes@ == frame(payload_bytes(payload@))
                },
                Err(e) => has_no_room(self@, payload@) && e@ == OutboxErrorView::Segment(
                    SegmentErrorView::RecordTooLarge(payload_bytes(payload@).len() as usize),
                ),
            },
    {
        if self.outbox.entry(&payload.idempotency_key).is_some() {
            return Ok(None);
        }
        let record = payload.encode();
        match self.writer.frame_record(record.as_slice()) {
            Ok(bytes) => Ok(Some(bytes)),
            Err(e) => Err(MetadataOutboxStorageError::Segment(e)),
        }
    }

    /// Makes a payload that has been made durable pending, and tells where it stands.
    pub fn enqueue_durable(&mut self, payload: IptoWritePayload) -> (r: Result<
        DurableOutboxEnqueueResult,
        MetadataOutboxStorageError,
    >)
        ensures
            final(self)@ == durably_enqueued(old(self)@, payload@),
            match r {
                Ok(DurableOutboxEnqueueResult::Duplicate) => old(self)@.outbox.entries.contains_key(payload@.key),
                Ok(DurableOutboxEnqueueResult::Enqueued { offset }) => {
                    &&& !old(self)@.outbox.entries.contains_key(payload@.key)
                    &&& !has_no_room(old(self)@, payload@)
                    &&& offset@ == segment_bytes(old(self)@.segment.records).len()
                },
                Err(e) => has_no_room(old(self)@, payload@) && e@ == OutboxErrorView::Segment(
                    SegmentErrorView::RecordTooLarge(payload_bytes(payload@).len() as usize),
                ),
            },
    {
        if self.outbox.entry(&payload.idempotency_key).is_some() {
            return Ok(DurableOutboxEnqueueResult::Duplicate);
        }
        let record = payload.encode();
        match self.writer.append_record(record.as_slice()) {
            Ok(offset) => {
                let _ = self.outbox.enqueue_with_offset(payload, Some(offset));
                Ok(DurableOutboxEnqueueResult::Enqueued { offset })
            },
            Err(e) => Err(MetadataOutboxStorageError::Segment(e)),
        }
    }

    /// What is known of the segment.
    pub fn manifest(&self) -> (r: SegmentManifest)
        ensures
            r@ == manifest_of(self@.segment),
    {
        self.writer.manifest()
    }

    /// Numbers of entries, and the segment.
    pub fn snapshot(&self) -> (r: SegmentBackedMetadataOutboxSnapshot)
        ensures
            r.segment@ == manifest_of(self@.segment),
            r.outbox.total == self@.outbox.entries.dom().len(),
            r.outbox.pending == count_status(
                self@.outbox.entries,
                outbox_keys(self@.outbox),
                OutboxStatus::Pending,
            ),
            r.outbox.acknowledged == count_status(
                self@.outbox.entries,
                outbox_keys(self@.outbox),
                OutboxStatus::Acknowledged,
            ),
            r.outbox.failed == count_status(self@.outbox.entries, outbox_keys(self@.outbox), OutboxStatus::Failed),
            r.outbox.queued_pending == self@.outbox.pending.len(),
    {
        SegmentBackedMetadataOutboxSnapshot { outbox: self.outbox.snapshot(), segment: self.writer.manifest() }
    }

    /// How far a target has acknowledged the writes of the segment.
    pub fn acknowledged_checkpoint(
        &self,
        data_individual_shard_id: DataIndividualShardId,
        target: &IptoInstanceId,
        epoch: CheckpointEpoch,
    ) -> (r: Option<MetadataOutboxCheckpoint>)
        ensures
            match (r, furthest(self@.outbox.entries, outbox_keys(self@.outbox), target@)) {
                (Some(c), Some((offset, mapping_version))) => c@ == (OutboxCheckpointView {
                    shard: data_individual_shard_id@,
                    target: target@,
                    segment_id: self@.segment.segment_id,
                    last_acknowledged_offset: offset,
                    mapping_version,
                    epoch: epoch@,
                }),
                (None, None) => true,
                _ => false,
            },
            r matches Some(c) ==> settled_up_to(self@.outbox.entries, c@.last_acknowledged_offset),
    {
        let manifest = self.writer.manifest();
        self.outbox.acknowledged_checkpoint(data_individual_shard_id, target, manifest.segment_id, epoch)
    }

    /// Ends the writing of the segment.
    pub fn seal(self) -> (r: SegmentManifest)
        ensures
            r@ == manifest_of(self@.segment),
    {
        self.writer.seal()
    }

    /// The outbox.
    pub fn outbox(&self) -> (r: &MetadataOutbox)
        ensures
            r@ == self@.outbox,
    {
        &self.outbox
    }

    /// The outbox, to be changed.
    pub fn outbox_mut(&mut self) -> (r: &mut MetadataOutbox)
        ensures
            r@ == old(self)@.outbox,
            final(self)@ == (DurableOutboxView { outbox: final(r)@, ..old(self)@ }),
    {
        &mut self.outbox
    }
}

// ---------------------------------------------------------------------------
// Laws
// ---------------------------------------------------------------------------

/// The records of a segment that holds the given payloads.
pub open spec fn payload_records(payloads: Seq<PayloadView>) -> Seq<Seq<u8>> {
    Seq::new(payloads.len(), |i: int| payload_bytes(payloads[i]))
}

/// Whether a payload can be kept in a segment.
pub open spec fn storable(p: PayloadView) -> bool {
    p.attributes.dom().finite() && payload_bytes(p).len() <= u32::MAX
}

/// The replay of the first payloads of a segment, at the positions where they stand.
pub open spec fn replayed(payloads: Seq<PayloadView>, selection: Selection, n: int) -> ReplayState
    decreases n,
{
    if n <= 0 {
        replay_start()
    } else {
        replay_step(
            replayed(payloads, selection, n - 1),
            selection,
            offset_of(payload_records(payloads), n - 1) as u64,
            payloads[n - 1],
        )
    }
}

proof fn lemma_replay_suffix(payloads: Seq<PayloadView>, selection: Selection, from: int)
    requires
        0 <= from <= payloads.len(),
        forall|i: int| 0 <= i < payloads.len() ==> storable(#[trigger] payloads[i]),
        segment_bytes(payload_records(payloads)).len() <= u64::MAX,
    ensures
        replay(
            frames(payload_records(payloads).skip(from)),
            offset_of(payload_records(payloads), from) as u64,
            selection,
            replayed(payloads, selection, from),
        ) == Ok::<ReplayState, OutboxErrorView>(replayed(payloads, selection, payloads.len() as int)),
    decreases payloads.len() - from,
{
    let records = payload_records(payloads);
    if from == payloads.len() {
        assert(records.skip(from) =~= Seq::<Seq<u8>>::empty());
        reveal(next_record);
    } else {
        let payload = records[from];
        let p = payloads[from];
        let tail = records.skip(from).skip(1);
        lemma_frames_first(records.skip(from));
        assert(tail =~= records.skip(from + 1));
        assert(records.skip(from)[0] == payload);
        assert(storable(payloads[from]));
        law_frame_read_back(payload, frames(tail));
        lemma_frame_len(payload);
        lemma_payload_fits(p);
        law_payload_round_trip(p);
        assert(records.take(from + 1) =~= records.take(from).push(payload));
        lemma_segment_push(records.take(from), payload);
        crate::storage::lemma_prefix_len(records, from);
        crate::storage::lemma_prefix_len(records, from + 1);
        lemma_replay_suffix(payloads, selection, from + 1);
    }
}

/// Replaying a segment gives back exactly the payloads that were stored in it and that
/// the selection takes, in order, at the offsets that were handed out for them: none at or
/// before a checkpoint, and none of another shard.
pub proof fn law_outbox_round_trip(payloads: Seq<PayloadView>, selection: Selection)
    requires
        forall|i: int| 0 <= i < payloads.len() ==> storable(#[trigger] payloads[i]),
        segment_bytes(payload_records(payloads)).len() <= u64::MAX,
    ensures
        replay_segment(segment_bytes(payload_records(payloads)), selection) == Ok::<ReplayState, OutboxErrorView>(
            replayed(payloads, selection, payloads.len() as int),
        ),
{
    let records = payload_records(payloads);
    let bytes = segment_bytes(records);
    assert(bytes.take(8) =~= segment_magic());
    assert(bytes.skip(8) =~= frames(records));
    assert(records.skip(0) =~= records);
    assert(records.take(0) =~= Seq::<Seq<u8>>::empty());
    lemma_replay_suffix(payloads, selection, 0);
}

proof fn lemma_replayed_prefix(payloads: Seq<PayloadView>, p: PayloadView, selection: Selection, n: int)
    requires
        0 <= n <= payloads.len(),
    ensures
        replayed(payloads.push(p), selection, n) == replayed(payloads, selection, n),
    decreases n,
{
    if n > 0 {
        lemma_replayed_prefix(payloads, p, selection, n - 1);
        assert(payload_records(payloads.push(p)).take(n - 1) =~= payload_records(payloads).take(n - 1));
    }
}

/// Persisted before pending: an accepted payload stands in the segment at the offset of
/// its entry, so a replay of the segment gives the live outbox back.
pub proof fn law_durable_enqueue_is_replayed(d: DurableOutboxView, payloads: Seq<PayloadView>, p: PayloadView)
    requires
        d.segment.records == payload_records(payloads),
        d.outbox == replayed(payloads, Selection::After(None), payloads.len() as int).outbox,
        !d.outbox.entries.contains_key(p.key),
        !has_no_room(d, p),
    ensures
        durably_enqueued(d, p).segment.records == payload_records(payloads.push(p)),
        durably_enqueued(d, p).outbox == replayed(
            payloads.push(p),
            Selection::After(None),
            payloads.len() as int + 1,
        ).outbox,
{
    let more = payloads.push(p);
    assert(payload_records(more) =~= payload_records(payloads).push(payload_bytes(p)));
    assert(payload_records(more).take(payloads.len() as int) =~= payload_records(payloads));
    lemma_replayed_prefix(payloads, p, Selection::After(None), payloads.len() as int);
}

/// Whether every entry with an offset has its payload in the segment at that offset.
pub open spec fn is_backed(d: DurableOutboxView) -> bool {
    forall|k: Seq<char>|
        #![trigger d.outbox.entries[k]]
        d.outbox.entries.contains_key(k) && d.outbox.entries[k].record_offset is Some ==> exists|i: int|
            stands_at(d.segment.records, i, d.outbox.entries[k].record_offset->0, d.outbox.entries[k].payload)
}

/// Whether the record at an index stands at an offset and holds a payload.
pub open spec fn stands_at(records: Seq<Seq<u8>>, i: int, offset: u64, p: PayloadView) -> bool {
    &&& 0 <= i < records.len()
    &&& offset == offset_of(records, i)
    &&& parse_payload(records[i]) == Ok::<PayloadView, IptoPayloadDecodeError>(p)
}

/// Every payload that is enqueued durably is backed by a record, and stays so.
pub proof fn law_durable_entries_are_backed(d: DurableOutboxView, p: PayloadView)
    requires
        is_backed(d),
        p.attributes.dom().finite(),
    ensures
        is_backed(durably_enqueued(d, p)),
{
    let n = durably_enqueued(d, p);
    if !d.outbox.entries.contains_key(p.key) && !has_no_room(d, p) {
        let records = d.segment.records;
        let more = n.segment.records;
        assert forall|k: Seq<char>|
            #![trigger n.outbox.entries[k]]
            n.outbox.entries.contains_key(k) && n.outbox.entries[k].record_offset is Some implies exists|i: int|
            stands_at(more, i, n.outbox.entries[k].record_offset->0, n.outbox.entries[k].payload) by {
            if k == p.key {
                lemma_payload_fits(p);
                law_payload_round_trip(p);
                assert(more.take(records.len() as int) =~= records);
                assert(n.outbox.entries[k].payload == p);
                assert(stands_at(more, records.len() as int, n.outbox.entries[k].record_offset->0, p));
            } else {
                let e = d.outbox.entries[k];
                assert(n.outbox.entries[k] == e);
                let i = choose|i: int| stands_at(records, i, e.record_offset->0, e.payload);
                assert(stands_at(records, i, e.record_offset->0, e.payload));
                assert(more.take(i) =~= records.take(i));
                assert(more[i] == records[i]);
                assert(stands_at(more, i, e.record_offset->0, e.payload));
            }
        }
    }
}

proof fn lemma_replayed_holds(payloads: Seq<PayloadView>, selection: Selection, i: int, n: int)
    requires
        0 <= i < n <= payloads.len(),
        is_selected(selection, offset_of(payload_records(payloads), i) as u64, payloads[i]),
    ensures
        replayed(payloads, selection, n).outbox.entries.contains_key(payloads[i].key),
    decreases n,
{
    if i < n - 1 {
        lemma_replayed_holds(payloads, selection, i, n - 1);
    }
}

proof fn lemma_replayed_waits(payloads: Seq<PayloadView>, selection: Selection, n: int, k: Seq<char>)
    requires
        n <= payloads.len(),
        replayed(payloads, selection, n).outbox.entries.contains_key(k),
    ensures
        replayed(payloads, selection, n).outbox.entries[k].status == OutboxStatus::Pending,
    decreases n,
{
    if n > 0 && replayed(payloads, selection, n - 1).outbox.entries.contains_key(k) {
        lemma_replayed_waits(payloads, selection, n - 1, k);
    }
}

/// Recovering behind the checkpoint of a target, as `replay_segment` does it, loses nothing:
/// every entry that has not been acknowledged, whatever its target, waits for its delivery
/// again.
pub proof fn law_recovery_behind_a_checkpoint_loses_nothing(
    d: DurableOutboxView,
    payloads: Seq<PayloadView>,
    target: Seq<char>,
    k: Seq<char>,
)
    requires
        consistent(d.outbox),
        is_backed(d),
        d.segment.records == payload_records(payloads),
        forall|i: int| 0 <= i < payloads.len() ==> storable(#[trigger] payloads[i]),
        furthest(d.outbox.entries, outbox_keys(d.outbox), target) is Some,
        d.outbox.entries.contains_key(k),
        d.outbox.entries[k].record_offset is Some,
        d.outbox.entries[k].status != OutboxStatus::Acknowledged,
    ensures
        ({
            let (offset, _) = furthest(d.outbox.entries, outbox_keys(d.outbox), target)->0;
            let after = replayed(payloads, Selection::After(Some(offset)), payloads.len() as int).outbox;
            after.entries.contains_key(k) && after.entries[k].status == OutboxStatus::Pending
        }),
{
    let (offset, _) = furthest(d.outbox.entries, outbox_keys(d.outbox), target)->0;
    let selection = Selection::After(Some(offset));
    let e = d.outbox.entries[k];
    law_checkpoint_loses_nothing(d.outbox, target);
    let i = choose|i: int| stands_at(d.segment.records, i, e.record_offset->0, e.payload);
    assert(stands_at(d.segment.records, i, e.record_offset->0, e.payload));
    assert(storable(payloads[i]));
    lemma_payload_fits(payloads[i]);
    law_payload_round_trip(payloads[i]);
    assert(payloads[i] == e.payload);
    assert(e.record_offset->0 > offset);
    lemma_replayed_holds(payloads, selection, i, payloads.len() as int);
    lemma_replayed_waits(payloads, selection, payloads.len() as int, k);
}

/// A replay from the start takes every record, a replay behind a checkpoint those at a later
/// place only, and a replay of shards those whose shard lies between the two, both included.
pub proof fn law_what_a_replay_selects(offset: u64, checkpoint: u64, start: u64, end: u64, p: PayloadView)
    ensures
        is_selected(Selection::After(None), offset, p),
        is_selected(Selection::After(Some(checkpoint)), offset, p) <==> offset > checkpoint,
        is_consumed(Selection::After(Some(checkpoint)), offset) <==> offset <= checkpoint,
        is_selected(Selection::Shards(start, end), offset, p) <==> start <= p.shard && p.shard <= end,
        !is_consumed(Selection::After(None), offset) && !is_consumed(Selection::Shards(start, end), offset),
{
}

/// A record that a replay takes waits in the outbox with its place, and counts as replayed;
/// any other counts as skipped and leaves the outbox as it is.
pub proof fn law_replay_takes_or_skips(s: ReplayState, selection: Selection, offset: u64, p: PayloadView)
    ensures
        ({
            let after = replay_step(s, selection, offset, p);
            &&& is_selected(selection, offset, p) ==> after.replayed == s.replayed + 1 && after.skipped == s.skipped
            &&& is_selected(selection, offset, p) && !s.outbox.entries.contains_key(p.key)
                ==> after.outbox.entries.contains_key(p.key) && after.outbox.entries[p.key].payload == p
                && after.outbox.entries[p.key].status == OutboxStatus::Pending
                && after.outbox.entries[p.key].record_offset == Some(offset) && after.outbox.pending
                == s.outbox.pending.push(p.key)
            &&& !is_selected(selection, offset, p) ==> after.replayed == s.replayed && after.skipped == s.skipped + 1
                && after.outbox == s.outbox
            &&& replay_start().replayed == 0 && replay_start().skipped == 0 && replay_start().outbox.pending.len() == 0
        }),
{
}

/// A payload whose key is new and for which there is room is written at the end of the
/// segment and waits in the outbox with that place; otherwise neither changes.
pub proof fn law_durable_enqueue(d: DurableOutboxView, p: PayloadView)
    ensures
        ({
            let after = durably_enqueued(d, p);
            let room = can_append(d.segment.records, payload_bytes(p).len());
            &&& has_no_room(d, p) <==> !d.outbox.entries.contains_key(p.key) && !room
            &&& d.outbox.entries.contains_key(p.key) || !room ==> after == d
            &&& !d.outbox.entries.contains_key(p.key) && room ==> {
                &&& after.segment.records == d.segment.records.push(payload_bytes(p))
                &&& after.segment.segment_id == d.segment.segment_id && after.segment.node_id == d.segment.node_id
                    && after.segment.path == d.segment.path
                &&& after.outbox.entries.contains_key(p.key)
                &&& after.outbox.entries[p.key].payload == p
                &&& after.outbox.entries[p.key].status == OutboxStatus::Pending
                &&& after.outbox.entries[p.key].record_offset == Some(segment_bytes(d.segment.records).len() as u64)
                &&& after.outbox.pending == d.outbox.pending.push(p.key)
            }
        }),
{
}

} // verus!
