//! Append-only event segment storage.
//!
//! Segments are the durability substrate for raw process events and metadata outbox
//! entries. The format is intentionally small:
//!
//! ```text
//! magic[8]
//! repeated:
//!   len: u32 little endian
//!   checksum: u64 little endian
//!   payload: [u8; len]
//! ```
//!
//! The checksum is a stable non-cryptographic checksum over the payload. It is for
//! corruption detection, not adversarial tamper resistance. This module keeps the
//! accounts of a segment and frames and reads its bytes; the caller moves the bytes to
//! and from files.

use vstd::prelude::*;
use crate::cluster::NodeId;
use crate::hash::{checksum, combine_checksum, combined, fnv};
use crate::ordered::{
    rank_str, text_before, text_before_connected, text_before_irreflexive, text_before_transitive, Duplicate, Key, Rank,
};
use crate::text::{push_decimal, push_hex, push_text, IntoText};
use crate::wire::{
    copy_range, lemma_assoc, lemma_read_u32, lemma_read_u64, put_bytes, put_u32, put_u64, read_u32, read_u64, u32_bytes,
    u64_bytes,
};

verus! {

/// Identifier of a segment.
#[derive(Debug, PartialEq, Eq, PartialOrd, Ord, Hash)]
pub struct SegmentId(String);

impl View for SegmentId {
    type V = Seq<char>;

    closed spec fn view(&self) -> Seq<char> {
        self.0@
    }
}

impl SegmentId {
    /// Wraps a text.
    pub fn new(value: impl IntoText) -> (r: Self)
        ensures
            r@ == value.text(),
    {
        SegmentId(value.into_text())
    }

    /// The wrapped text.
    pub fn as_str(&self) -> (r: &str)
        ensures
            r@ == self@,
    {
        self.0.as_str()
    }
}

impl Clone for SegmentId {
    fn clone(&self) -> (r: Self)
        ensures
            r == *self,
    {
        SegmentId(self.0.clone())
    }
}

impl Duplicate for SegmentId {
    fn duplicate(&self) -> (r: Self) {
        self.clone()
    }
}

impl From<&str> for SegmentId {
    fn from(value: &str) -> (r: Self)
        ensures
            r@ == value@,
    {
        SegmentId(value.to_owned())
    }
}

impl vstd::std_specs::convert::FromSpecImpl<&str> for SegmentId {
    open spec fn obeys_from_spec() -> bool {
        false
    }

    open spec fn from_spec(v: &str) -> Self {
        arbitrary()
    }
}

impl From<String> for SegmentId {
    fn from(value: String) -> (r: Self)
        ensures
            r@ == value@,
    {
        SegmentId(value)
    }
}

impl vstd::std_specs::convert::FromSpecImpl<String> for SegmentId {
    open spec fn obeys_from_spec() -> bool {
        false
    }

    open spec fn from_spec(v: String) -> Self {
        arbitrary()
    }
}

impl Key for SegmentId {
    open spec fn before(a: Seq<char>, b: Seq<char>) -> bool {
        text_before(a, b)
    }

    proof fn before_irreflexive(a: Seq<char>) {
        text_before_irreflexive(a);
    }

    proof fn before_transitive(a: Seq<char>, b: Seq<char>, c: Seq<char>) {
        text_before_transitive(a, b, c);
    }

    proof fn before_connected(a: Seq<char>, b: Seq<char>) {
        text_before_connected(a, b);
    }

    fn rank(&self, other: &Self) -> (r: Rank) {
        rank_str(self.as_str(), other.as_str())
    }
}

/// Position of a record in its segment.
#[derive(Debug, Clone, Copy, PartialEq, Eq, PartialOrd, Ord, Hash)]
pub struct RecordOffset(pub u64);

impl View for RecordOffset {
    type V = u64;

    open spec fn view(&self) -> u64 {
        self.0
    }
}

impl Duplicate for RecordOffset {
    fn duplicate(&self) -> (r: Self) {
        *self
    }
}

/// What is known of a segment.
#[derive(Debug, PartialEq, Eq)]
pub struct SegmentManifest {
    pub segment_id: SegmentId,
    pub node_id: NodeId,
    pub path: String,
    pub record_count: u64,
    pub byte_len: u64,
    pub checksum: u64,
}

/// The view of a manifest.
pub struct SegmentManifestView {
    pub segment_id: Seq<char>,
    pub node_id: Seq<char>,
    pub path: Seq<char>,
    pub record_count: u64,
    pub byte_len: u64,
    pub checksum: u64,
}

impl View for SegmentManifest {
    type V = SegmentManifestView;

    open spec fn view(&self) -> SegmentManifestView {
        SegmentManifestView {
            segment_id: self.segment_id@,
            node_id: self.node_id@,
            path: self.path@,
            record_count: self.record_count,
            byte_len: self.byte_len,
            checksum: self.checksum,
        }
    }
}

impl Clone for SegmentManifest {
    fn clone(&self) -> (r: Self)
        ensures
            r == *self,
    {
        SegmentManifest {
            segment_id: self.segment_id.clone(),
            node_id: self.node_id.clone(),
            path: self.path.clone(),
            record_count: self.record_count,
            byte_len: self.byte_len,
            checksum: self.checksum,
        }
    }
}

impl Duplicate for SegmentManifest {
    fn duplicate(&self) -> (r: Self) {
        self.clone()
    }
}

/// What can go wrong with a segment.
#[derive(Debug, PartialEq, Eq)]
pub enum SegmentError {
    Io(String),
    InvalidMagic,
    RecordTooLarge { len: usize },
    ChecksumMismatch { offset: u64, expected: u64, actual: u64 },
    TrailingBytes { offset: u64, byte_len: u64 },
}

/// The view of a segment error.
pub enum SegmentErrorView {
    Io(Seq<char>),
    InvalidMagic,
    RecordTooLarge(usize),
    ChecksumMismatch(u64, u64, u64),
    TrailingBytes(u64, u64),
}

impl View for SegmentError {
    type V = SegmentErrorView;

    open spec fn view(&self) -> SegmentErrorView {
        match self {
            SegmentError::Io(message) => SegmentErrorView::Io(message@),
            SegmentError::InvalidMagic => SegmentErrorView::InvalidMagic,
            SegmentError::RecordTooLarge { len } => SegmentErrorView::RecordTooLarge(*len),
            SegmentError::ChecksumMismatch { offset, expected, actual } => SegmentErrorView::ChecksumMismatch(
                *offset,
                *expected,
                *actual,
            ),
            SegmentError::TrailingBytes { offset, byte_len } => SegmentErrorView::TrailingBytes(*offset, *byte_len),
        }
    }
}

impl Clone for SegmentError {
    fn clone(&self) -> (r: Self)
        ensures
            r == *self,
    {
        match self {
            SegmentError::Io(message) => SegmentError::Io(message.clone()),
            SegmentError::InvalidMagic => SegmentError::InvalidMagic,
            SegmentError::RecordTooLarge { len } => SegmentError::RecordTooLarge { len: *len },
            SegmentError::ChecksumMismatch { offset, expected, actual } => SegmentError::ChecksumMismatch {
                offset: *offset,
                expected: *expected,
                actual: *actual,
            },
            SegmentError::TrailingBytes { offset, byte_len } => SegmentError::TrailingBytes {
                offset: *offset,
                byte_len: *byte_len,
            },
        }
    }
}

/// The text of a segment error.
pub open spec fn segment_error_text(e: SegmentErrorView) -> Seq<char> {
    match e {
        SegmentErrorView::Io(message) => "segment I/O error: "@ + message,
        SegmentErrorView::InvalidMagic => "invalid Vannak segment magic"@,
        SegmentErrorView::RecordTooLarge(len) => "segment record length "@ + crate::text::decimal(len as nat)
            + " exceeds u32::MAX"@,
        SegmentErrorView::ChecksumMismatch(offset, expected, actual) => "segment record checksum mismatch at offset "@
            + crate::text::decimal(offset as nat) + ": expected 0x"@ + crate::text::hex(expected as nat) + ", got 0x"@
            + crate::text::hex(actual as nat),
        SegmentErrorView::TrailingBytes(offset, byte_len) => "segment has trailing bytes after offset "@
            + crate::text::decimal(offset as nat) + ": segment length "@ + crate::text::decimal(byte_len as nat),
    }
}

impl SegmentError {
    /// The error as a text for an operator.
    pub fn describe(&self) -> (r: String)
        ensures
            r@ == segment_error_text(self@),
    {
        match self {
            SegmentError::Io(message) => {
                let mut out = "segment I/O error: ".to_owned();
                push_text(&mut out, message.as_str());
                out
            },
            SegmentError::InvalidMagic => "invalid Vannak segment magic".to_owned(),
            SegmentError::RecordTooLarge { len } => {
                let mut out = "segment record length ".to_owned();
                push_decimal(&mut out, *len as u64);
                push_text(&mut out, " exceeds u32::MAX");
                out
            },
            SegmentError::ChecksumMismatch { offset, expected, actual } => {
                let mut out = "segment record checksum mismatch at offset ".to_owned();
                push_decimal(&mut out, *offset);
                push_text(&mut out, ": expected 0x");
                push_hex(&mut out, *expected);
                push_text(&mut out, ", got 0x");
                push_hex(&mut out, *actual);
                out
            },
            SegmentError::TrailingBytes { offset, byte_len } => {
                let mut out = "segment has trailing bytes after offset ".to_owned();
                push_decimal(&mut out, *offset);
                push_text(&mut out, ": segment length ");
                push_decimal(&mut out, *byte_len);
                out
            },
        }
    }
}

// ---------------------------------------------------------------------------
// The format
// ---------------------------------------------------------------------------

/// The bytes that every segment begins with: `VANNAK01`.
pub open spec fn segment_magic() -> Seq<u8> {
    seq![0x56u8, 0x41, 0x4e, 0x4e, 0x41, 0x4b, 0x30, 0x31]
}

/// The frame of a record: length, checksum and payload.
pub open spec fn frame(payload: Seq<u8>) -> Seq<u8> {
    u32_bytes(payload.len() as u32) + u64_bytes(fnv(payload)) + payload
}

/// The frames of records one after another.
pub open spec fn frames(payloads: Seq<Seq<u8>>) -> Seq<u8>
    decreases payloads.len(),
{
    if payloads.len() == 0 {
        Seq::empty()
    } else {
        frames(payloads.drop_last()) + frame(payloads.last())
    }
}

/// The bytes of a segment that holds the given records.
pub open spec fn segment_bytes(payloads: Seq<Seq<u8>>) -> Seq<u8> {
    segment_magic() + frames(payloads)
}

/// The running checksum over the records of a segment.
pub open spec fn total_checksum(payloads: Seq<Seq<u8>>) -> u64
    decreases payloads.len(),
{
    if payloads.len() == 0 {
        0
    } else {
        combined(total_checksum(payloads.drop_last()), fnv(payloads.last()))
    }
}

/// The position of a record: the length of the segment before it.
pub open spec fn offset_of(payloads: Seq<Seq<u8>>, i: int) -> int {
    segment_bytes(payloads.take(i)).len() as int
}

/// Whether a segment that holds the given records can take one more payload.
pub open spec fn can_append(payloads: Seq<Seq<u8>>, len: nat) -> bool {
    len <= u32::MAX && segment_bytes(payloads).len() + 12 + len <= u64::MAX
}

/// A frame adds twelve bytes to its payload.
pub proof fn lemma_frame_len(payload: Seq<u8>)
    ensures
        frame(payload).len() == 12 + payload.len(),
{
    lemma_read_u32(payload.len() as u32, Seq::empty());
    lemma_read_u64(fnv(payload), Seq::empty());
}

/// Every record takes at least twelve bytes.
pub proof fn lemma_frames_len(payloads: Seq<Seq<u8>>)
    ensures
        frames(payloads).len() >= 12 * payloads.len(),
    decreases payloads.len(),
{
    if payloads.len() > 0 {
        lemma_frames_len(payloads.drop_last());
        lemma_frame_len(payloads.last());
    }
}

/// The first records of a segment take no more room than all of them.
pub proof fn lemma_prefix_len(records: Seq<Seq<u8>>, n: int)
    requires
        0 <= n <= records.len(),
    ensures
        segment_bytes(records.take(n)).len() <= segment_bytes(records).len(),
    decreases records.len() - n,
{
    if n < records.len() {
        assert(records.take(n + 1) =~= records.take(n).push(records[n]));
        lemma_segment_push(records.take(n), records[n]);
        lemma_prefix_len(records, n + 1);
    } else {
        assert(records.take(n) =~= records);
    }
}

/// One more record adds its frame.
pub proof fn lemma_segment_push(payloads: Seq<Seq<u8>>, payload: Seq<u8>)
    ensures
        frames(payloads.push(payload)) == frames(payloads) + frame(payload),
        segment_bytes(payloads.push(payload)) == segment_bytes(payloads) + frame(payload),
        total_checksum(payloads.push(payload)) == combined(total_checksum(payloads), fnv(payload)),
{
    assert(payloads.push(payload).drop_last() =~= payloads);
    lemma_assoc(segment_magic(), frames(payloads), frame(payload));
}

// ---------------------------------------------------------------------------
// Writing
// ---------------------------------------------------------------------------

/// Accounts of a segment that is being written.
pub struct SegmentWriter {
    segment_id: SegmentId,
    node_id: NodeId,
    path: String,
    record_count: u64,
    byte_len: u64,
    checksum: u64,
    records: Ghost<Seq<Seq<u8>>>,
}

/// The view of a segment writer: the segment's identity and the records it holds.
pub struct SegmentWriterView {
    pub segment_id: Seq<char>,
    pub node_id: Seq<char>,
    pub path: Seq<char>,
    pub records: Seq<Seq<u8>>,
}

impl View for SegmentWriter {
    type V = SegmentWriterView;

    closed spec fn view(&self) -> SegmentWriterView {
        SegmentWriterView {
            segment_id: self.segment_id@,
            node_id: self.node_id@,
            path: self.path@,
            records: self.records@,
        }
    }
}

/// The manifest of a segment.
pub open spec fn manifest_of(w: SegmentWriterView) -> SegmentManifestView {
    SegmentManifestView {
        segment_id: w.segment_id,
        node_id: w.node_id,
        path: w.path,
        record_count: w.records.len() as u64,
        byte_len: segment_bytes(w.records).len() as u64,
        checksum: total_checksum(w.records),
    }
}

impl SegmentWriter {
    #[verifier::type_invariant]
    spec fn inv(self) -> bool {
        &&& self.record_count == self.records@.len()
        &&& self.byte_len == segment_bytes(self.records@).len()
        &&& self.checksum == total_checksum(self.records@)
    }

    /// Accounts of a new segment, which holds nothing but the header.
    pub fn create(path: impl IntoText, segment_id: SegmentId, node_id: NodeId) -> (r: Self)
        ensures
            r@ == (SegmentWriterView {
                segment_id: segment_id@,
                node_id: node_id@,
                path: path.text(),
                records: Seq::empty(),
            }),
    {
        assert(segment_bytes(Seq::empty()).len() == 8);
        SegmentWriter {
            segment_id,
            node_id,
            path: path.into_text(),
            record_count: 0,
            byte_len: 8,
            checksum: 0,
            records: Ghost(Seq::empty()),
        }
    }

    /// The bytes that a new segment begins with.
    pub fn header() -> (r: Vec<u8>)
        ensures
            r@ == segment_bytes(Seq::empty()),
    {
        let out: Vec<u8> = vec![0x56, 0x41, 0x4e, 0x4e, 0x41, 0x4b, 0x30, 0x31];
        assert(out@ =~= segment_bytes(Seq::empty()));
        out
    }

    /// The bytes that append a record to the segment.
    pub fn frame_record(&self, payload: &[u8]) -> (r: Result<Vec<u8>, SegmentError>)
        ensures
            match r {
                Ok(bytes) => can_append(self@.records, payload@.len()) && bytes@ == frame(payload@),
                Err(e) => !can_append(self@.records, payload@.len()) && e@ == SegmentErrorView::RecordTooLarge(
                    payload.len(),
                ),
            },
    {
        proof {
            use_type_invariant(self);
        }
        let len: u64 = payload.len() as u64;
        if len > 4294967295 || len > u64::MAX - 12 || self.byte_len > u64::MAX - 12 - len {
            return Err(SegmentError::RecordTooLarge { len: payload.len() });
        }
        let mut out: Vec<u8> = Vec::new();
        put_u32(&mut out, payload.len() as u32);
        put_u64(&mut out, checksum(payload));
        put_bytes(&mut out, payload);
        assert(out@ =~= frame(payload@));
        Ok(out)
    }

    /// Accounts for a record that has been appended, and tells where it stands.
    pub fn append_record(&mut self, payload: &[u8]) -> (r: Result<RecordOffset, SegmentError>)
        ensures
            match r {
                Ok(offset) => {
                    &&& can_append(old(self)@.records, payload@.len())
                    &&& offset@ == segment_bytes(old(self)@.records).len()
                    &&& final(self)@ == (SegmentWriterView {
                        records: old(self)@.records.push(payload@),
                        ..old(self)@
                    })
                },
                Err(e) => {
                    &&& !can_append(old(self)@.records, payload@.len())
                    &&& e@ == SegmentErrorView::RecordTooLarge(payload.len())
                    &&& final(self)@ == old(self)@
                },
            },
    {
        proof {
            use_type_invariant(&*self);
        }
        let len: u64 = payload.len() as u64;
        if len > 4294967295 || len > u64::MAX - 12 || self.byte_len > u64::MAX - 12 - len {
            return Err(SegmentError::RecordTooLarge { len: payload.len() });
        }
        let offset: u64 = self.byte_len;
        let record_checksum: u64 = checksum(payload);
        proof {
            lemma_segment_push(self.records@, payload@);
            lemma_frame_len(payload@);
            lemma_frames_len(self.records@);
        }
        *self = SegmentWriter {
            segment_id: self.segment_id.clone(),
            node_id: self.node_id.clone(),
            path: self.path.clone(),
            record_count: self.record_count + 1,
            byte_len: offset + 12 + len,
            checksum: combine_checksum(self.checksum, record_checksum),
            records: Ghost(self.records@.push(payload@)),
        };
        Ok(RecordOffset(offset))
    }

    /// What is known of the segment.
    pub fn manifest(&self) -> (r: SegmentManifest)
        ensures
            r@ == manifest_of(self@),
            self@.records.len() <= u64::MAX,
            segment_bytes(self@.records).len() <= u64::MAX,
    {
        proof {
            use_type_invariant(self);
        }
        SegmentManifest {
            segment_id: self.segment_id.clone(),
            node_id: self.node_id.clone(),
            path: self.path.clone(),
            record_count: self.record_count,
            byte_len: self.byte_len,
            checksum: self.checksum,
        }
    }

    /// Ends the writing of the segment.
    pub fn seal(self) -> (r: SegmentManifest)
        ensures
            r@ == manifest_of(self@),
    {
        self.manifest()
    }

    /// Accounts of an existing segment, so that records can be appended to it.
    pub fn open_append(bytes: Vec<u8>, path: impl IntoText, segment_id: SegmentId, node_id: NodeId) -> (r: Result<
        Self,
        SegmentError,
    >)
        ensures
            match (scan_segment(bytes@), r) {
                (Ok(records), Ok(w)) => w@ == (SegmentWriterView {
                    segment_id: segment_id@,
                    node_id: node_id@,
                    path: path.text(),
                    records,
                }),
                (Err(e), Err(x)) => x@ == e,
                _ => false,
            },
    {
        let total: u64 = bytes.len() as u64;
        let ghost whole = bytes@;
        let mut reader = SegmentReader::open(bytes)?;
        let mut writer = SegmentWriter::create(path, segment_id, node_id);
        let ghost start = writer@;
        assert(reader@.offset == segment_bytes(writer@.records).len());
        loop
            invariant
                writer@ == (SegmentWriterView { records: writer@.records, ..start }),
                reader@.offset == segment_bytes(writer@.records).len(),
                whole == bytes@,
                total == whole.len(),
                reader@.offset + reader@.rest.len() == total,
                scan_segment(whole) == scan(reader@.rest, reader@.offset, writer@.records),
                start == (SegmentWriterView {
                    segment_id: segment_id@,
                    node_id: node_id@,
                    path: path.text(),
                    records: Seq::empty(),
                }),
            decreases reader@.rest.len(),
        {
            let ghost before = reader@;
            match reader.read_next() {
                Err(e) => {
                    return Err(e);
                },
                Ok(None) => {
                    let left: usize = reader.remaining();
                    if left > 0 {
                        return Err(SegmentError::TrailingBytes { offset: reader.offset(), byte_len: total });
                    }
                    return Ok(writer);
                },
                Ok(Some(record)) => {
                    proof {
                        lemma_next_record(before.rest);
                        lemma_frame_len(record.payload@);
                        lemma_segment_push(writer@.records, record.payload@);
                    }
                    match writer.append_record(record.payload.as_slice()) {
                        Ok(_) => {},
                        Err(e) => {
                            return Err(e);
                        },
                    }
                },
            }
        }
    }
}

// ---------------------------------------------------------------------------
// Reading
// ---------------------------------------------------------------------------

/// A record read from a segment.
#[derive(Debug, Clone, PartialEq, Eq)]
pub struct SegmentRecord {
    pub offset: RecordOffset,
    pub checksum: u64,
    pub payload: Vec<u8>,
}

/// What stands next in a segment: nothing more, a frame that is cut off, a record whose
/// checksum is wrong, or a record.
pub enum NextRecord {
    End,
    Truncated,
    Corrupt { expected: u64, payload: Seq<u8>, rest: Seq<u8> },
    Record { payload: Seq<u8>, rest: Seq<u8> },
}

/// What stands next in a segment.
#[verifier::opaque]
pub open spec fn next_record(b: Seq<u8>) -> NextRecord {
    match read_u32(b) {
        Err(_) => NextRecord::End,
        Ok((len, b1)) => match read_u64(b1) {
            Err(_) => NextRecord::Truncated,
            Ok((expected, b2)) => if b2.len() < len {
                NextRecord::Truncated
            } else {
                let payload = b2.take(len as int);
                let rest = b2.skip(len as int);
                if fnv(payload) == expected {
                    NextRecord::Record { payload, rest }
                } else {
                    NextRecord::Corrupt { expected, payload, rest }
                }
            },
        },
    }
}

/// The message of a read that meets the end of a file too early.
pub open spec fn short_read() -> SegmentErrorView {
    SegmentErrorView::Io("failed to fill whole buffer"@)
}

/// The records that follow from a position, appended to those already read, or the first
/// thing wrong with them.
pub open spec fn scan(b: Seq<u8>, offset: u64, done: Seq<Seq<u8>>) -> Result<Seq<Seq<u8>>, SegmentErrorView>
    decreases b.len(),
{
    match next_record(b) {
        NextRecord::End => if b.len() == 0 {
            Ok(done)
        } else {
            Err(SegmentErrorView::TrailingBytes(offset, (offset + b.len()) as u64))
        },
        NextRecord::Truncated => Err(short_read()),
        NextRecord::Corrupt { expected, payload, rest } => Err(
            SegmentErrorView::ChecksumMismatch(offset, expected, fnv(payload)),
        ),
        NextRecord::Record { payload, rest } => if rest.len() < b.len() {
            scan(rest, (offset + 12 + payload.len()) as u64, done.push(payload))
        } else {
            Ok(done)
        },
    }
}

/// The records of a segment, or the first thing wrong with it.
pub open spec fn scan_segment(bytes: Seq<u8>) -> Result<Seq<Seq<u8>>, SegmentErrorView> {
    if bytes.len() < 8 {
        Err(short_read())
    } else if bytes.take(8) != segment_magic() {
        Err(SegmentErrorView::InvalidMagic)
    } else {
        scan(bytes.skip(8), 8, Seq::empty())
    }
}

/// Reads records from the bytes of a segment.
#[derive(Debug)]
pub struct SegmentReader {
    bytes: Vec<u8>,
    position: usize,
    offset: u64,
}

/// The view of a reader: what is left to read and where the next record stands.
pub struct SegmentReaderView {
    pub rest: Seq<u8>,
    pub offset: u64,
}

impl View for SegmentReader {
    type V = SegmentReaderView;

    closed spec fn view(&self) -> SegmentReaderView {
        SegmentReaderView { rest: self.bytes@.skip(self.position as int), offset: self.offset }
    }
}

/// The state of a reader after it has read what stands next.
pub open spec fn after_read(r: SegmentReaderView) -> SegmentReaderView {
    match next_record(r.rest) {
        NextRecord::End => r,
        NextRecord::Truncated => SegmentReaderView { rest: Seq::empty(), ..r },
        NextRecord::Corrupt { expected, payload, rest } => SegmentReaderView {
            rest,
            offset: (r.offset + 12 + payload.len()) as u64,
        },
        NextRecord::Record { payload, rest } => SegmentReaderView {
            rest,
            offset: (r.offset + 12 + payload.len()) as u64,
        },
    }
}

/// A frame that is read leaves the rest behind it.
pub proof fn lemma_next_record(b: Seq<u8>)
    ensures
        match next_record(b) {
            NextRecord::Record { payload, rest } => b.len() == 12 + payload.len() + rest.len() && payload.len()
                <= u32::MAX && b == frame(payload) + rest,
            NextRecord::Corrupt { expected, payload, rest } => b.len() == 12 + payload.len() + rest.len()
                && payload.len() <= u32::MAX,
            _ => true,
        },
{
    reveal(next_record);
    match next_record(b) {
        NextRecord::Record { payload, rest } => {
            vstd::bytes::lemma_auto_spec_u32_to_from_le_bytes();
            vstd::bytes::lemma_auto_spec_u64_to_from_le_bytes();
            let len = b.take(4);
            let sum = b.skip(4).take(8);
            assert(u32_bytes(payload.len() as u32) =~= len);
            assert(u64_bytes(fnv(payload)) =~= sum);
            assert(b =~= frame(payload) + rest);
        },
        _ => {},
    }
}

impl SegmentReader {
    #[verifier::type_invariant]
    spec fn inv(self) -> bool {
        &&& self.position <= self.bytes@.len()
        &&& self.offset <= self.position
    }

    /// Opens a segment.
    pub fn open(bytes: Vec<u8>) -> (r: Result<Self, SegmentError>)
        ensures
            match r {
                Ok(reader) => bytes@.len() >= 8 && bytes@.take(8) == segment_magic() && reader@ == (SegmentReaderView {
                    rest: bytes@.skip(8),
                    offset: 8,
                }),
                Err(e) => if bytes@.len() < 8 {
                    e@ == short_read()
                } else {
                    bytes@.take(8) != segment_magic() && e@ == SegmentErrorView::InvalidMagic
                },
            },
    {
        if bytes.len() < 8 {
            return Err(SegmentError::Io("failed to fill whole buffer".to_owned()));
        }
        if bytes[0] != 0x56 || bytes[1] != 0x41 || bytes[2] != 0x4e || bytes[3] != 0x4e || bytes[4] != 0x41
            || bytes[5] != 0x4b || bytes[6] != 0x30 || bytes[7] != 0x31 {
            proof {
                let m = segment_magic();
                let t = bytes@.take(8);
                assert(t[0] != m[0] || t[1] != m[1] || t[2] != m[2] || t[3] != m[3] || t[4] != m[4] || t[5] != m[5]
                    || t[6] != m[6] || t[7] != m[7]);
            }
            return Err(SegmentError::InvalidMagic);
        }
        assert(bytes@.take(8) =~= segment_magic());
        Ok(SegmentReader { bytes, position: 8, offset: 8 })
    }

    /// The number of bytes left to read.
    pub fn remaining(&self) -> (r: usize)
        ensures
            r == self@.rest.len(),
    {
        proof {
            use_type_invariant(self);
        }
        self.bytes.len() - self.position
    }

    /// Where the next record stands.
    pub fn offset(&self) -> (r: u64)
        ensures
            r == self@.offset,
    {
        self.offset
    }

    /// Reads the next record. At the end, or where fewer bytes than a length are left,
    /// there is none.
    pub fn read_next(&mut self) -> (r: Result<Option<SegmentRecord>, SegmentError>)
        ensures
            final(self)@ == after_read(old(self)@),
            match next_record(old(self)@.rest) {
                NextRecord::End => r matches Ok(None),
                NextRecord::Truncated => r matches Err(e) && e@ == short_read(),
                NextRecord::Corrupt { expected, payload, rest } => r matches Err(e) && e@
                    == SegmentErrorView::ChecksumMismatch(old(self)@.offset, expected, fnv(payload)),
                NextRecord::Record { payload, rest } => r matches Ok(Some(record)) && record.offset@
                    == old(self)@.offset && record.checksum == fnv(payload) && record.payload@ == payload,
            },
            old(self)@.offset + old(self)@.rest.len() <= u64::MAX,
    {
        proof {
            use_type_invariant(&*self);
            reveal(next_record);
        }
        let ghost rest = self@.rest;
        let available: usize = self.bytes.len() - self.position;
        if available < 4 {
            return Ok(None);
        }
        let start: usize = self.position;
        let offset: u64 = self.offset;
        let mut taken = SegmentReader { bytes: Vec::new(), position: 0, offset: 0 };
        std::mem::swap(&mut taken, self);
        let SegmentReader { bytes, position: _, offset: _ } = taken;
        let total: usize = bytes.len();
        if available < 12 {
            *self = SegmentReader { bytes, position: total, offset };
            assert(self@.rest =~= Seq::<u8>::empty());
            return Err(SegmentError::Io("failed to fill whole buffer".to_owned()));
        }
        let len_bytes = copy_range(bytes.as_slice(), start, start + 4);
        let sum_bytes = copy_range(bytes.as_slice(), start + 4, start + 12);
        proof {
            assert(rest.take(4) =~= len_bytes@);
            assert(rest.skip(4).take(8) =~= sum_bytes@);
            assert(rest.skip(4).skip(8) =~= bytes@.skip(start + 12));
        }
        let len: usize = vstd::bytes::u32_from_le_bytes(len_bytes.as_slice()) as usize;
        let expected: u64 = vstd::bytes::u64_from_le_bytes(sum_bytes.as_slice());
        if available - 12 < len {
            *self = SegmentReader { bytes, position: total, offset };
            assert(self@.rest =~= Seq::<u8>::empty());
            return Err(SegmentError::Io("failed to fill whole buffer".to_owned()));
        }
        let end: usize = start + 12 + len;
        let payload = copy_range(bytes.as_slice(), start + 12, end);
        proof {
            assert(bytes@.skip(start + 12).take(len as int) =~= payload@);
            assert(bytes@.skip(start + 12).skip(len as int) =~= bytes@.skip(end as int));
        }
        *self = SegmentReader { bytes, position: end, offset: offset + 12 + len as u64 };
        let actual: u64 = checksum(payload.as_slice());
        if actual != expected {
            return Err(SegmentError::ChecksumMismatch { offset, expected, actual });
        }
        Ok(Some(SegmentRecord { offset: RecordOffset(offset), checksum: actual, payload }))
    }
}

// ---------------------------------------------------------------------------
// Round trip
// ---------------------------------------------------------------------------

/// The record that a frame holds is what stands next.
pub proof fn law_frame_read_back(payload: Seq<u8>, rest: Seq<u8>)
    requires
        payload.len() <= u32::MAX,
    ensures
        next_record(frame(payload) + rest) == (NextRecord::Record { payload, rest }),
{
    reveal(next_record);
    let (len, sum) = (u32_bytes(payload.len() as u32), u64_bytes(fnv(payload)));
    lemma_assoc(len + sum, payload, rest);
    lemma_assoc(len, sum, payload + rest);
    lemma_read_u32(payload.len() as u32, sum + (payload + rest));
    lemma_read_u64(fnv(payload), payload + rest);
    assert((payload + rest).take(payload.len() as int) =~= payload);
    assert((payload + rest).skip(payload.len() as int) =~= rest);
}

/// The frames of records, the first one first.
pub proof fn lemma_frames_first(payloads: Seq<Seq<u8>>)
    requires
        payloads.len() > 0,
    ensures
        frames(payloads) == frame(payloads[0]) + frames(payloads.skip(1)),
    decreases payloads.len(),
{
    let tail = payloads.skip(1);
    if payloads.len() == 1 {
        assert(payloads.drop_last() =~= Seq::<Seq<u8>>::empty());
        assert(tail =~= Seq::<Seq<u8>>::empty());
        assert(frames(payloads) =~= frame(payloads[0]) + frames(tail));
    } else {
        lemma_frames_first(payloads.drop_last());
        assert(payloads.drop_last().skip(1) =~= tail.drop_last());
        assert(tail.last() == payloads.last());
        lemma_assoc(frame(payloads[0]), frames(tail.drop_last()), frame(payloads.last()));
    }
}

proof fn lemma_scan_frames(payloads: Seq<Seq<u8>>, offset: u64, done: Seq<Seq<u8>>)
    requires
        forall|i: int| 0 <= i < payloads.len() ==> (#[trigger] payloads[i]).len() <= u32::MAX,
        offset + frames(payloads).len() <= u64::MAX,
    ensures
        scan(frames(payloads), offset, done) == Ok::<Seq<Seq<u8>>, SegmentErrorView>(done + payloads),
    decreases payloads.len(),
{
    if payloads.len() == 0 {
        reveal(next_record);
        assert(done + payloads =~= done);
    } else {
        let tail = payloads.skip(1);
        lemma_frames_first(payloads);
        law_frame_read_back(payloads[0], frames(tail));
        lemma_frame_len(payloads[0]);
        assert forall|i: int| 0 <= i < tail.len() implies (#[trigger] tail[i]).len() <= u32::MAX by {
            assert(payloads[i + 1].len() <= u32::MAX);
        }
        lemma_scan_frames(tail, (offset + 12 + payloads[0].len()) as u64, done.push(payloads[0]));
        assert(done.push(payloads[0]) + tail =~= done + payloads);
    }
}

/// Scanning a segment gives back exactly the records that were appended to it, in order.
pub proof fn law_segment_round_trip(payloads: Seq<Seq<u8>>)
    requires
        forall|i: int| 0 <= i < payloads.len() ==> (#[trigger] payloads[i]).len() <= u32::MAX,
        segment_bytes(payloads).len() <= u64::MAX,
    ensures
        scan_segment(segment_bytes(payloads)) == Ok::<Seq<Seq<u8>>, SegmentErrorView>(payloads),
{
    assert(segment_bytes(payloads).take(8) =~= segment_magic());
    assert(segment_bytes(payloads).skip(8) =~= frames(payloads));
    lemma_scan_frames(payloads, 8, Seq::empty());
    assert(Seq::<Seq<u8>>::empty() + payloads =~= payloads);
}

proof fn lemma_scan_bytes(b: Seq<u8>, offset: u64, done: Seq<Seq<u8>>)
    requires
        offset + b.len() <= u64::MAX,
    ensures
        scan(b, offset, done) matches Ok(records) ==> frames(done) + b == frames(records),
    decreases b.len(),
{
    match next_record(b) {
        NextRecord::End => {
            if b.len() == 0 {
                assert(frames(done) + b =~= frames(done));
            }
        },
        NextRecord::Record { payload, rest } => {
            lemma_next_record(b);
            lemma_scan_bytes(rest, (offset + 12 + payload.len()) as u64, done.push(payload));
            lemma_segment_push(done, payload);
            lemma_assoc(frames(done), frame(payload), rest);
        },
        _ => {},
    }
}

/// A segment that scans without an error is made of exactly the records it yields: no
/// byte is left unaccounted for.
pub proof fn law_scanned_segment_is_whole(bytes: Seq<u8>)
    requires
        bytes.len() <= u64::MAX,
    ensures
        scan_segment(bytes) matches Ok(records) ==> segment_bytes(records) == bytes,
{
    if scan_segment(bytes) is Ok {
        lemma_scan_bytes(bytes.skip(8), 8, Seq::empty());
        assert(frames(Seq::empty()) + bytes.skip(8) =~= bytes.skip(8));
        assert(bytes =~= bytes.take(8) + bytes.skip(8));
    }
}

/// A segment begins with the eight characters `VANNAK01`. Each record adds the number of its
/// bytes in four bytes, the FNV-1a hash of its bytes in eight, least significant first, and
/// then its bytes.
pub proof fn law_segment_layout(payloads: Seq<Seq<u8>>, payload: Seq<u8>)
    ensures
        segment_bytes(Seq::empty()) == seq![
            'V' as u8,
            'A' as u8,
            'N' as u8,
            'N' as u8,
            'A' as u8,
            'K' as u8,
            '0' as u8,
            '1' as u8,
        ],
        segment_bytes(payloads.push(payload)) == segment_bytes(payloads) + vstd::bytes::spec_u32_to_le_bytes(
            payload.len() as u32,
        ) + vstd::bytes::spec_u64_to_le_bytes(fnv(payload)) + payload,
        segment_bytes(payloads.push(payload)).len() == segment_bytes(payloads).len() + 12 + payload.len(),
{
    let all = payloads.push(payload);
    assert(all.drop_last() =~= payloads);
    crate::wire::law_wire_layout(payload.len() as u32, fnv(payload), Seq::empty());
    assert(segment_bytes(Seq::empty()) =~= segment_magic());
    assert(segment_bytes(all) =~= segment_bytes(payloads) + vstd::bytes::spec_u32_to_le_bytes(payload.len() as u32)
        + vstd::bytes::spec_u64_to_le_bytes(fnv(payload)) + payload);
}

/// The first record stands behind the eight bytes at the start, and each further one behind
/// the one before it, twelve bytes and those of the record farther.
pub proof fn law_offsets(payloads: Seq<Seq<u8>>, i: int)
    requires
        0 <= i < payloads.len(),
    ensures
        offset_of(payloads, 0) == 8,
        offset_of(payloads, i + 1) == offset_of(payloads, i) + 12 + payloads[i].len(),
{
    assert(payloads.take(0) =~= Seq::<Seq<u8>>::empty());
    assert(payloads.take(i + 1) =~= payloads.take(i).push(payloads[i]));
    law_segment_layout(payloads.take(i), payloads[i]);
}

/// The checksum of a segment without records is zero; each record rotates it by seven bits
/// to the left and combines it with the hash of the record.
pub proof fn law_segment_checksum(payloads: Seq<Seq<u8>>, payload: Seq<u8>)
    ensures
        total_checksum(Seq::empty()) == 0,
        total_checksum(payloads.push(payload)) == ((total_checksum(payloads) << 7u64) | (total_checksum(payloads)
            >> 57u64)) ^ fnv(payload),
{
    assert(payloads.push(payload).drop_last() =~= payloads);
}

/// A manifest names the segment, the node and the file, and counts the records and the bytes.
pub proof fn law_manifest(w: SegmentWriterView)
    requires
        w.records.len() <= u64::MAX,
        segment_bytes(w.records).len() <= u64::MAX,
    ensures
        manifest_of(w).segment_id == w.segment_id,
        manifest_of(w).node_id == w.node_id,
        manifest_of(w).path == w.path,
        manifest_of(w).record_count == w.records.len(),
        manifest_of(w).byte_len == segment_bytes(w.records).len(),
        manifest_of(w).checksum == total_checksum(w.records),
{
}

/// A record has room exactly if its length fits in 32 bits and the end of the segment, with
/// the record and the twelve bytes in front of it, fits in 64.
pub proof fn law_room_for_a_record(payloads: Seq<Seq<u8>>, payload: Seq<u8>)
    ensures
        can_append(payloads, payload.len()) <==> payload.len() <= u32::MAX && segment_bytes(
            payloads.push(payload),
        ).len() <= u64::MAX,
{
    law_segment_layout(payloads, payload);
}

/// What is not a segment is refused: too few bytes, another start, and, at its place, a
/// record whose hash is not the one that stands in front of it.
pub proof fn law_broken_segments_are_refused(bytes: Seq<u8>, payload: Seq<u8>, written: u64, rest: Seq<u8>)
    ensures
        bytes.len() < 8 ==> scan_segment(bytes) == Err::<Seq<Seq<u8>>, _>(
            SegmentErrorView::Io("failed to fill whole buffer"@),
        ),
        bytes.len() >= 8 && bytes.take(8) != segment_bytes(Seq::empty()) ==> scan_segment(bytes) == Err::<
            Seq<Seq<u8>>,
            _,
        >(SegmentErrorView::InvalidMagic),
        payload.len() <= u32::MAX && written != fnv(payload) ==> scan_segment(
            segment_bytes(Seq::empty()) + (u32_bytes(payload.len() as u32) + (u64_bytes(written) + (payload + rest))),
        ) == Err::<Seq<Seq<u8>>, _>(SegmentErrorView::ChecksumMismatch(8, written, fnv(payload))),
{
    assert(segment_bytes(Seq::empty()) =~= segment_magic());
    if payload.len() <= u32::MAX && written != fnv(payload) {
        reveal(next_record);
        let body = u32_bytes(payload.len() as u32) + (u64_bytes(written) + (payload + rest));
        let whole = segment_magic() + body;
        assert(whole.take(8) =~= segment_magic());
        assert(whole.skip(8) =~= body);
        lemma_read_u32(payload.len() as u32, u64_bytes(written) + (payload + rest));
        lemma_read_u64(written, payload + rest);
        assert((payload + rest).take(payload.len() as int) =~= payload);
        assert(next_record(body) is Corrupt);
    }
}

} // verus!
