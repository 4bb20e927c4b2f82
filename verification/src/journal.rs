//! Durable journal of process events.

use vstd::prelude::*;
use crate::cluster::NodeId;
use crate::event_codec::{
    decode_error_text, decode_pipeline_event, encode_pipeline_event, event_bytes, parse_event, ProcessEventDecodeError,
};
use crate::ingest::{empty_field, is_valid, IngestError, PipelineEvent, PipelineEventView};
use crate::ordered::views;
use crate::storage::{
    can_append, frame, manifest_of, next_record, scan_segment, segment_bytes, segment_error_text, segment_magic,
    short_read, NextRecord, RecordOffset, SegmentError, SegmentErrorView, SegmentId, SegmentManifest, SegmentReader,
    SegmentWriter, SegmentWriterView,
};
use crate::text::IntoText;

verus! {

/// What can go wrong with a journal.
#[derive(Debug, PartialEq, Eq)]
pub enum ProcessEventJournalError {
    Segment(SegmentError),
    Ingest(IngestError),
    Decode(ProcessEventDecodeError),
}

/// The view of a journal error.
pub enum JournalErrorView {
    Segment(SegmentErrorView),
    Ingest(Seq<char>),
    Decode(ProcessEventDecodeError),
}

impl View for ProcessEventJournalError {
    type V = JournalErrorView;

    open spec fn view(&self) -> JournalErrorView {
        match self {
            ProcessEventJournalError::Segment(e) => JournalErrorView::Segment(e@),
            ProcessEventJournalError::Ingest(e) => JournalErrorView::Ingest(e->field@),
            ProcessEventJournalError::Decode(e) => JournalErrorView::Decode(*e),
        }
    }
}

/// The text of a journal error.
pub open spec fn journal_error_text(e: JournalErrorView) -> Seq<char> {
    match e {
        JournalErrorView::Segment(e) => segment_error_text(e),
        JournalErrorView::Ingest(field) => "event field "@ + field + " must not be empty"@,
        JournalErrorView::Decode(e) => decode_error_text(e),
    }
}

impl ProcessEventJournalError {
    /// The error as a text for an operator.
    pub fn describe(&self) -> (r: String)
        ensures
            r@ == journal_error_text(self@),
    {
        match self {
            ProcessEventJournalError::Segment(e) => e.describe(),
            ProcessEventJournalError::Ingest(e) => e.describe(),
            ProcessEventJournalError::Decode(e) => e.describe(),
        }
    }
}

impl From<SegmentError> for ProcessEventJournalError {
    fn from(value: SegmentError) -> (r: Self) {
        ProcessEventJournalError::Segment(value)
    }
}

impl vstd::std_specs::convert::FromSpecImpl<SegmentError> for ProcessEventJournalError {
    open spec fn obeys_from_spec() -> bool {
        true
    }

    open spec fn from_spec(v: SegmentError) -> Self {
        ProcessEventJournalError::Segment(v)
    }
}

impl From<IngestError> for ProcessEventJournalError {
    fn from(value: IngestError) -> (r: Self) {
        ProcessEventJournalError::Ingest(value)
    }
}

impl vstd::std_specs::convert::FromSpecImpl<IngestError> for ProcessEventJournalError {
    open spec fn obeys_from_spec() -> bool {
        true
    }

    open spec fn from_spec(v: IngestError) -> Self {
        ProcessEventJournalError::Ingest(v)
    }
}

impl From<ProcessEventDecodeError> for ProcessEventJournalError {
    fn from(value: ProcessEventDecodeError) -> (r: Self) {
        ProcessEventJournalError::Decode(value)
    }
}

impl vstd::std_specs::convert::FromSpecImpl<ProcessEventDecodeError> for ProcessEventJournalError {
    open spec fn obeys_from_spec() -> bool {
        true
    }

    open spec fn from_spec(v: ProcessEventDecodeError) -> Self {
        ProcessEventJournalError::Decode(v)
    }
}

/// An event and where it stands in the journal.
#[derive(Debug, Clone, PartialEq, Eq)]
pub struct JournaledPipelineEvent {
    pub offset: RecordOffset,
    pub event: PipelineEvent,
}

/// The view of a journaled event.
pub struct JournaledView {
    pub offset: u64,
    pub event: PipelineEventView,
}

impl View for JournaledPipelineEvent {
    type V = JournaledView;

    open spec fn view(&self) -> JournaledView {
        JournaledView { offset: self.offset@, event: self.event@ }
    }
}

/// Number of records that a replay met and of those it replayed.
#[derive(Debug, Clone, Copy, PartialEq, Eq)]
pub struct ProcessEventReplaySummary {
    pub scanned_records: u64,
    pub replayed_records: u64,
}

/// The events of a journal.
#[derive(Debug, Clone, PartialEq, Eq)]
pub struct ProcessEventReplay {
    pub events: Vec<JournaledPipelineEvent>,
    pub summary: ProcessEventReplaySummary,
}

/// The events that follow from a position, appended to those already read, or the first
/// thing wrong with them.
pub open spec fn replay(b: Seq<u8>, offset: u64, done: Seq<JournaledView>) -> Result<
    Seq<JournaledView>,
    JournalErrorView,
>
    decreases b.len(),
{
    match next_record(b) {
        NextRecord::End => Ok(done),
        NextRecord::Truncated => Err(JournalErrorView::Segment(short_read())),
        NextRecord::Corrupt { expected, payload, rest } => Err(
            JournalErrorView::Segment(SegmentErrorView::ChecksumMismatch(offset, expected, crate::hash::fnv(payload))),
        ),
        NextRecord::Record { payload, rest } => match parse_event(payload) {
            Err(e) => Err(JournalErrorView::Decode(e)),
            Ok(event) => match empty_field(event) {
                Some(field) => Err(JournalErrorView::Ingest(field)),
                None => if rest.len() < b.len() {
                    replay(
                        rest,
                        (offset + 12 + payload.len()) as u64,
                        done.push(JournaledView { offset, event }),
                    )
                } else {
                    Ok(done)
                },
            },
        },
    }
}

/// The events of a journal, or the first thing wrong with it.
pub open spec fn replay_journal(bytes: Seq<u8>) -> Result<Seq<JournaledView>, JournalErrorView> {
    if bytes.len() < 8 {
        Err(JournalErrorView::Segment(short_read()))
    } else if bytes.take(8) != segment_magic() {
        Err(JournalErrorView::Segment(SegmentErrorView::InvalidMagic))
    } else {
        replay(bytes.skip(8), 8, Seq::empty())
    }
}

proof fn lemma_replay_valid(b: Seq<u8>, offset: u64, done: Seq<JournaledView>)
    requires
        forall|i: int| 0 <= i < done.len() ==> is_valid((#[trigger] done[i]).event),
    ensures
        replay(b, offset, done) matches Ok(events) ==> forall|i: int|
            0 <= i < events.len() ==> is_valid((#[trigger] events[i]).event),
    decreases b.len(),
{
    if let NextRecord::Record { payload, rest } = next_record(b) {
        if let Ok(event) = parse_event(payload) {
            if is_valid(event) && rest.len() < b.len() {
                lemma_replay_valid(
                    rest,
                    (offset + 12 + payload.len()) as u64,
                    done.push(JournaledView { offset, event }),
                );
            }
        }
    }
}

/// Every event that is read back from a journal is valid.
pub proof fn lemma_replayed_valid(bytes: Seq<u8>)
    ensures
        replay_journal(bytes) matches Ok(events) ==> forall|i: int|
            0 <= i < events.len() ==> is_valid((#[trigger] events[i]).event),
{
    if bytes.len() >= 8 {
        lemma_replay_valid(bytes.skip(8), 8, Seq::empty());
    }
}

/// Reads the events of a journal.
pub fn replay_process_event_segment(bytes: Vec<u8>) -> (r: Result<ProcessEventReplay, ProcessEventJournalError>)
    ensures
        match (replay_journal(bytes@), r) {
            (Ok(events), Ok(x)) => {
                &&& views(x.events@) == events
                &&& x.summary.scanned_records == events.len()
                &&& x.summary.replayed_records == events.len()
            },
            (Err(e), Err(x)) => x@ == e,
            _ => false,
        },
{
    let ghost whole = bytes@;
    let total: u64 = bytes.len() as u64;
    let mut reader = match SegmentReader::open(bytes) {
        Ok(reader) => reader,
        Err(e) => {
            return Err(ProcessEventJournalError::Segment(e));
        },
    };
    let mut events: Vec<JournaledPipelineEvent> = Vec::new();
    let mut scanned_records: u64 = 0;
    assert(views(events@) =~= Seq::<JournaledView>::empty());
    loop
        invariant
            whole == bytes@,
            total == whole.len(),
            scanned_records == events.len(),
            scanned_records + reader@.rest.len() <= total,
            replay_journal(whole) == replay(reader@.rest, reader@.offset, views(events@)),
        decreases reader@.rest.len(),
    {
        let ghost before = reader@;
        match reader.read_next() {
            Err(e) => {
                return Err(ProcessEventJournalError::Segment(e));
            },
            Ok(None) => {
                let replayed_records: u64 = events.len() as u64;
                return Ok(
                    ProcessEventReplay {
                        events,
                        summary: ProcessEventReplaySummary { scanned_records, replayed_records },
                    },
                );
            },
            Ok(Some(record)) => {
                proof {
                    crate::storage::lemma_next_record(before.rest);
                }
                scanned_records = scanned_records + 1;
                let event = match decode_pipeline_event(record.payload.as_slice()) {
                    Ok(event) => event,
                    Err(e) => {
                        return Err(ProcessEventJournalError::Decode(e));
                    },
                };
                match event.validate() {
                    Ok(()) => {},
                    Err(e) => {
                        return Err(ProcessEventJournalError::Ingest(e));
                    },
                }
                let ghost done = events@;
                let ghost item = JournaledView { offset: before.offset, event: event@ };
                events.push(JournaledPipelineEvent { offset: record.offset, event });
                assert(views(events@) =~= views(done).push(item));
            },
        }
    }
}

/// A durable journal of process events.
pub struct ProcessEventJournal {
    writer: SegmentWriter,
}

impl View for ProcessEventJournal {
    type V = SegmentWriterView;

    closed spec fn view(&self) -> SegmentWriterView {
        self.writer@
    }
}

/// A journal that has been opened again, with the events it holds.
pub struct ProcessEventJournalRecovery {
    pub journal: ProcessEventJournal,
    pub replay: ProcessEventReplay,
}

/// What a journal answers an event that it cannot take.
pub open spec fn journal_refusal(j: SegmentWriterView, e: PipelineEventView) -> Option<JournalErrorView> {
    match empty_field(e) {
        Some(field) => Some(JournalErrorView::Ingest(field)),
        None => if can_append(j.records, event_bytes(e).len()) {
            None
        } else {
            Some(JournalErrorView::Segment(SegmentErrorView::RecordTooLarge(event_bytes(e).len() as usize)))
        },
    }
}

impl ProcessEventJournal {
    /// A new journal.
    pub fn create(path: impl IntoText, segment_id: SegmentId, node_id: NodeId) -> (r: Self)
        ensures
            r@ == (SegmentWriterView {
                segment_id: segment_id@,
                node_id: node_id@,
                path: path.text(),
                records: Seq::empty(),
            }),
    {
        ProcessEventJournal { writer: SegmentWriter::create(path, segment_id, node_id) }
    }

    /// Opens an existing journal to read its events and to append to it.
    pub fn recover(bytes: Vec<u8>, path: impl IntoText, segment_id: SegmentId, node_id: NodeId) -> (r: Result<
        ProcessEventJournalRecovery,
        ProcessEventJournalError,
    >)
        ensures
            match r {
                Ok(x) => {
                    &&& replay_journal(bytes@) == Ok::<Seq<JournaledView>, JournalErrorView>(views(x.replay.events@))
                    &&& x.replay.summary.scanned_records == x.replay.events.len()
                    &&& x.replay.summary.replayed_records == x.replay.events.len()
                    &&& scan_segment(bytes@) == Ok::<Seq<Seq<u8>>, SegmentErrorView>(x.journal@.records)
                    &&& x.journal@ == (SegmentWriterView {
                        segment_id: segment_id@,
                        node_id: node_id@,
                        path: path.text(),
                        records: x.journal@.records,
                    })
                },
                Err(e) => match replay_journal(bytes@) {
                    Err(x) => e@ == x,
                    Ok(_) => scan_segment(bytes@) matches Err(x) && e@ == JournalErrorView::Segment(x),
                },
            },
    {
        let copy = crate::wire::copy_range(bytes.as_slice(), 0, bytes.len());
        assert(copy@ =~= bytes@);
        let replay = match replay_process_event_segment(copy) {
            Ok(replay) => replay,
            Err(e) => {
                return Err(e);
            },
        };
        match SegmentWriter::open_append(bytes, path, segment_id, node_id) {
            Ok(writer) => Ok(ProcessEventJournalRecovery { journal: ProcessEventJournal { writer }, replay }),
            Err(e) => Err(ProcessEventJournalError::Segment(e)),
        }
    }

    /// The bytes that make an event durable: they are to be written and synced before
    /// `append_durable` accounts for them.
    pub fn frame_event(&self, event: &PipelineEvent) -> (r: Result<Vec<u8>, ProcessEventJournalError>)
        ensures
            match r {
                Ok(bytes) => journal_refusal(self@, event@) is None && bytes@ == frame(event_bytes(event@)),
                Err(e) => journal_refusal(self@, event@) == Some(e@),
            },
    {
        match event.validate() {
            Ok(()) => {},
            Err(e) => {
                return Err(ProcessEventJournalError::Ingest(e));
            },
        }
        let payload = encode_pipeline_event(event);
        match self.writer.frame_record(payload.as_slice()) {
            Ok(bytes) => Ok(bytes),
            Err(e) => Err(ProcessEventJournalError::Segment(e)),
        }
    }

    /// Accounts for an event that has been made durable, and tells where it stands.
    pub fn append_durable(&mut self, event: &PipelineEvent) -> (r: Result<RecordOffset, ProcessEventJournalError>)
        ensures
            match r {
                Ok(offset) => {
                    &&& journal_refusal(old(self)@, event@) is None
                    &&& offset@ == segment_bytes(old(self)@.records).len()
                    &&& final(self)@ == (SegmentWriterView {
                        records: old(self)@.records.push(event_bytes(event@)),
                        ..old(self)@
                    })
                },
                Err(e) => {
                    &&& journal_refusal(old(self)@, event@) == Some(e@)
                    &&& final(self)@ == old(self)@
                },
            },
    {
        match event.validate() {
            Ok(()) => {},
            Err(e) => {
                return Err(ProcessEventJournalError::Ingest(e));
            },
        }
        let payload = encode_pipeline_event(event);
        match self.writer.append_record(payload.as_slice()) {
            Ok(offset) => Ok(offset),
            Err(e) => Err(ProcessEventJournalError::Segment(e)),
        }
    }

    /// What is known of the journal's segment.
    pub fn manifest(&self) -> (r: SegmentManifest)
        ensures
            r@ == manifest_of(self@),
    {
        self.writer.manifest()
    }

    /// Ends the writing of the journal.
    pub fn seal(self) -> (r: SegmentManifest)
        ensures
            r@ == manifest_of(self@),
    {
        self.writer.seal()
    }
}

// ---------------------------------------------------------------------------
// Laws
// ---------------------------------------------------------------------------

/// The records of a journal that holds the given events.
pub open spec fn journal_records(events: Seq<PipelineEvent>) -> Seq<Seq<u8>> {
    Seq::new(events.len(), |i: int| event_bytes(events[i]@))
}

/// The events of a journal and where they stand.
pub open spec fn journaled(events: Seq<PipelineEvent>) -> Seq<JournaledView> {
    Seq::new(
        events.len(),
        |i: int|
            JournaledView {
                offset: crate::storage::offset_of(journal_records(events), i) as u64,
                event: events[i]@,
            },
    )
}

/// Whether a journal takes an event: it is valid, its lengths are written in full and its
/// record is not too long.
pub open spec fn journalable(e: PipelineEventView) -> bool {
    is_valid(e) && crate::event_codec::event_fits(e) && event_bytes(e).len() <= u32::MAX
}

proof fn lemma_replay_suffix(events: Seq<PipelineEvent>, from: int)
    requires
        0 <= from <= events.len(),
        forall|i: int| 0 <= i < events.len() ==> journalable((#[trigger] events[i])@),
        segment_bytes(journal_records(events)).len() <= u64::MAX,
    ensures
        ({
            let records = journal_records(events);
            replay(
                crate::storage::frames(records.skip(from)),
                segment_bytes(records.take(from)).len() as u64,
                journaled(events).take(from),
            ) == Ok::<Seq<JournaledView>, JournalErrorView>(journaled(events))
        }),
    decreases events.len() - from,
{
    let records = journal_records(events);
    let rest = crate::storage::frames(records.skip(from));
    let done = journaled(events).take(from);
    let offset = segment_bytes(records.take(from)).len() as u64;
    if from == events.len() {
        assert(records.skip(from) =~= Seq::<Seq<u8>>::empty());
        reveal(next_record);
        assert(done =~= journaled(events));
    } else {
        let payload = records[from];
        let tail = records.skip(from).skip(1);
        crate::storage::lemma_frames_first(records.skip(from));
        assert(tail =~= records.skip(from + 1));
        assert(records.skip(from)[0] == payload);
        assert(journalable(events[from]@));
        crate::storage::law_frame_read_back(payload, crate::storage::frames(tail));
        crate::storage::lemma_frame_len(payload);
        crate::event_codec::law_event_round_trip(events[from]);
        assert(records.take(from + 1) =~= records.take(from).push(payload));
        crate::storage::lemma_segment_push(records.take(from), payload);
        crate::storage::lemma_prefix_len(records, from + 1);
        let next = JournaledView { offset, event: events[from]@ };
        assert(journaled(events).take(from + 1) =~= done.push(next));
        lemma_replay_suffix(events, from + 1);
    }
}

/// Replaying a journal gives back exactly the events that were appended to it, in order
/// and at the offsets that were handed out for them.
pub proof fn law_journal_round_trip(events: Seq<PipelineEvent>)
    requires
        forall|i: int| 0 <= i < events.len() ==> journalable((#[trigger] events[i])@),
        segment_bytes(journal_records(events)).len() <= u64::MAX,
    ensures
        replay_journal(segment_bytes(journal_records(events))) == Ok::<Seq<JournaledView>, JournalErrorView>(
            journaled(events),
        ),
{
    let records = journal_records(events);
    let bytes = segment_bytes(records);
    assert(bytes.take(8) =~= segment_magic());
    assert(bytes.skip(8) =~= crate::storage::frames(records));
    assert(records.skip(0) =~= records);
    assert(records.take(0) =~= Seq::<Seq<u8>>::empty());
    assert(journaled(events).take(0) =~= Seq::<JournaledView>::empty());
    lemma_replay_suffix(events, 0);
}

/// An event is refused by the journal for a missing field first, then for want of room;
/// anything else it takes.
pub proof fn law_journal_refusals(j: SegmentWriterView, e: PipelineEventView)
    ensures
        empty_field(e) matches Some(field) ==> journal_refusal(j, e) == Some(JournalErrorView::Ingest(field)),
        empty_field(e) is None && !can_append(j.records, event_bytes(e).len()) ==> journal_refusal(j, e) == Some(
            JournalErrorView::Segment(SegmentErrorView::RecordTooLarge(event_bytes(e).len() as usize)),
        ),
        empty_field(e) is None && can_append(j.records, event_bytes(e).len()) ==> journal_refusal(j, e) is None,
{
}

/// The events that are read back come in the order in which they were written, each with
/// its own place: the first at the eighth byte, the next behind it.
pub proof fn law_journaled_events_keep_their_places(events: Seq<PipelineEvent>, i: int)
    requires
        0 <= i < events.len(),
        segment_bytes(journal_records(events)).len() <= u64::MAX,
    ensures
        journaled(events).len() == events.len(),
        journaled(events)[i].event == events[i]@,
        journaled(events)[0].offset == 8,
        i > 0 ==> journaled(events)[i].offset == journaled(events)[i - 1].offset + 12 + event_bytes(
            events[i - 1]@,
        ).len(),
{
    let records = journal_records(events);
    crate::storage::law_offsets(records, 0);
    lemma_offset_bound(records, i);
    if i > 0 {
        crate::storage::law_offsets(records, i - 1);
        lemma_offset_bound(records, i - 1);
    }
}

proof fn lemma_offset_bound(records: Seq<Seq<u8>>, i: int)
    requires
        0 <= i <= records.len(),
    ensures
        crate::storage::offset_of(records, i) <= segment_bytes(records).len(),
    decreases records.len() - i,
{
    if i < records.len() {
        crate::storage::law_offsets(records, i);
        lemma_offset_bound(records, i + 1);
    } else {
        assert(records.take(i) =~= records);
    }
}

} // verus!
