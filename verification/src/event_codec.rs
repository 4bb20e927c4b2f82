//! Binary format of process events.

use vstd::prelude::*;
use crate::ingest::{EventId, EventTimestamp, PipelineEvent, PipelineEventView, SourceId, SourceSequence};
use crate::metadata::{
    ClassificationId, DataContractId, DatasetId, FieldId, LineageEdgeId, MetadataObjectId, MetadataRef,
    MetadataRefView, MetadataVersion, OwnerId, PipelineDefinitionId, SchemaId,
};
use crate::ordered::{opt_view, views};
use crate::process::{
    ActivityId, BusinessKey, CorrelationId, EnvironmentId, ErrorInfo, ErrorInfoView, EventKind, EventKindView,
    EventStatus, PipelineId, ProcessDefinitionId, ProcessInstanceId, ProcessVersion, TenantId, TokenId,
};
use crate::text::{push_decimal, push_text};
use crate::wire::{
    cut_short, lemma_assoc, lemma_read_text, lemma_read_u32, lemma_read_u64, lemma_read_u8, put_text, put_u32, put_u64,
    put_u8, read_text, read_u32, read_u64, read_u8, text_bytes, text_fits, u32_bytes, u64_bytes, Cursor, WireError,
};

verus! {

/// Why the bytes of an event could not be decoded.
#[derive(Debug, Clone, Copy, PartialEq, Eq, Structural)]
pub enum ProcessEventDecodeError {
    InvalidMagic,
    UnexpectedEof,
    TrailingBytes { remaining: usize },
    InvalidUtf8,
    InvalidBool { value: u8 },
    InvalidEventStatus { value: u8 },
    InvalidEventKind { value: u8 },
    InvalidMetadataRefKind { value: u8 },
}

/// The text of a decode error.
pub open spec fn decode_error_text(e: ProcessEventDecodeError) -> Seq<char> {
    match e {
        ProcessEventDecodeError::InvalidMagic => "invalid pipeline event payload magic"@,
        ProcessEventDecodeError::UnexpectedEof => "truncated pipeline event payload"@,
        ProcessEventDecodeError::TrailingBytes { remaining } => "pipeline event payload has "@ + crate::text::decimal(
            remaining as nat,
        ) + " trailing bytes"@,
        ProcessEventDecodeError::InvalidUtf8 => "pipeline event payload contains invalid UTF-8"@,
        ProcessEventDecodeError::InvalidBool { value } => "invalid boolean tag "@ + crate::text::decimal(value as nat),
        ProcessEventDecodeError::InvalidEventStatus { value } => "invalid event status tag "@ + crate::text::decimal(
            value as nat,
        ),
        ProcessEventDecodeError::InvalidEventKind { value } => "invalid event kind tag "@ + crate::text::decimal(
            value as nat,
        ),
        ProcessEventDecodeError::InvalidMetadataRefKind { value } => "invalid metadata reference kind tag "@
            + crate::text::decimal(value as nat),
    }
}

fn tagged(prefix: &str, value: u64) -> (r: String)
    ensures
        r@ == prefix@ + crate::text::decimal(value as nat),
{
    let mut out = prefix.to_owned();
    push_decimal(&mut out, value);
    out
}

impl ProcessEventDecodeError {
    /// The error as a text for an operator.
    pub fn describe(&self) -> (r: String)
        ensures
            r@ == decode_error_text(*self),
    {
        match self {
            ProcessEventDecodeError::InvalidMagic => "invalid pipeline event payload magic".to_owned(),
            ProcessEventDecodeError::UnexpectedEof => "truncated pipeline event payload".to_owned(),
            ProcessEventDecodeError::TrailingBytes { remaining } => {
                let mut out = tagged("pipeline event payload has ", *remaining as u64);
                push_text(&mut out, " trailing bytes");
                out
            },
            ProcessEventDecodeError::InvalidUtf8 => "pipeline event payload contains invalid UTF-8".to_owned(),
            ProcessEventDecodeError::InvalidBool { value } => tagged("invalid boolean tag ", *value as u64),
            ProcessEventDecodeError::InvalidEventStatus { value } => tagged("invalid event status tag ", *value as u64),
            ProcessEventDecodeError::InvalidEventKind { value } => tagged("invalid event kind tag ", *value as u64),
            ProcessEventDecodeError::InvalidMetadataRefKind { value } => tagged(
                "invalid metadata reference kind tag ",
                *value as u64,
            ),
        }
    }
}

// ---------------------------------------------------------------------------
// The format
// ---------------------------------------------------------------------------

/// The bytes that every encoded event begins with: `VPE1`.
pub open spec fn event_magic() -> Seq<u8> {
    seq![0x56u8, 0x50, 0x45, 0x31]
}

/// An optional text: a tag, then the text where there is one.
#[verifier::opaque]
pub open spec fn opt_text_bytes(o: Option<Seq<char>>) -> Seq<u8> {
    match o {
        Some(s) => seq![1u8] + text_bytes(s),
        None => seq![0u8],
    }
}

/// The tag of a status.
pub open spec fn status_tag(status: EventStatus) -> u8 {
    match status {
        EventStatus::Started => 0,
        EventStatus::Completed => 1,
        EventStatus::Failed => 2,
        EventStatus::Escalated => 3,
        EventStatus::Cancelled => 4,
    }
}

/// An event kind: a tag, then the name of an unknown kind.
#[verifier::opaque]
pub open spec fn kind_bytes(kind: EventKindView) -> Seq<u8> {
    match kind {
        EventKindView::ProcessStarted => seq![0u8],
        EventKindView::ActivityEntered => seq![1u8],
        EventKindView::ActivityCompleted => seq![2u8],
        EventKindView::ActivityEscalated => seq![3u8],
        EventKindView::ActivityCancelled => seq![4u8],
        EventKindView::GatewayTaken => seq![5u8],
        EventKindView::ProcessCompleted => seq![6u8],
        EventKindView::ProcessFailed => seq![7u8],
        EventKindView::Unknown(name) => seq![8u8] + text_bytes(name),
    }
}

/// An optional error: a tag, then message and optional code.
#[verifier::opaque]
pub open spec fn opt_error_bytes(o: Option<ErrorInfoView>) -> Seq<u8> {
    match o {
        Some(e) => seq![1u8] + text_bytes(e.message) + opt_text_bytes(e.code),
        None => seq![0u8],
    }
}

/// Whether references of a variant carry an optional version.
pub open spec fn versioned(variant: int) -> bool {
    variant == 1 || variant == 3
}

/// A metadata reference: its variant, its identifier and, for versioned variants, its
/// optional version.
#[verifier::opaque]
pub open spec fn ref_bytes(r: MetadataRefView) -> Seq<u8> {
    let plain = seq![r.variant as u8] + text_bytes(r.id);
    if versioned(r.variant) {
        plain + opt_text_bytes(r.version)
    } else {
        plain
    }
}

/// Metadata references one after another.
pub open spec fn refs_bytes(refs: Seq<MetadataRefView>) -> Seq<u8>
    decreases refs.len(),
{
    if refs.len() == 0 {
        Seq::empty()
    } else {
        refs_bytes(refs.drop_last()) + ref_bytes(refs.last())
    }
}

/// The identifying fields of an event.
#[verifier::opaque]
pub open spec fn head_bytes(e: PipelineEventView) -> Seq<u8> {
    text_bytes(e.event_id) + text_bytes(e.source_id) + u64_bytes(e.source_sequence) + text_bytes(e.tenant_id)
        + text_bytes(e.environment_id) + text_bytes(e.pipeline_id) + text_bytes(e.process_definition_id)
        + text_bytes(e.process_instance_id)
}

/// The context of an event.
#[verifier::opaque]
pub open spec fn context_bytes(e: PipelineEventView) -> Seq<u8> {
    opt_text_bytes(e.process_version) + opt_text_bytes(e.activity_id) + opt_text_bytes(e.token_id) + opt_text_bytes(
        e.correlation_id,
    ) + opt_text_bytes(e.business_key) + text_bytes(e.timestamp) + seq![status_tag(e.status)] + kind_bytes(e.kind)
}

/// The remaining fields of an event.
#[verifier::opaque]
pub open spec fn detail_bytes(e: PipelineEventView) -> Seq<u8> {
    opt_error_bytes(e.error) + u32_bytes(e.metadata_refs.len() as u32) + refs_bytes(e.metadata_refs)
        + opt_text_bytes(e.metadata_version) + opt_text_bytes(e.causal_parent) + opt_text_bytes(e.payload)
}

/// The bytes of an event.
pub open spec fn event_bytes(e: PipelineEventView) -> Seq<u8> {
    event_magic() + head_bytes(e) + context_bytes(e) + detail_bytes(e)
}

// ---------------------------------------------------------------------------
// Encoding
// ---------------------------------------------------------------------------

fn put_option_string(out: &mut Vec<u8>, value: Option<&str>)
    ensures
        final(out)@ == old(out)@ + opt_text_bytes(opt_view(value)),
{
    proof {
        reveal(opt_text_bytes);
    }
    match value {
        Some(text) => {
            put_u8(out, 1);
            put_text(out, text);
            proof {
                lemma_assoc(old(out)@, seq![1u8], text_bytes(text@));
            }
        },
        None => {
            put_u8(out, 0);
        },
    }
}

fn encode_event_status(value: EventStatus) -> (r: u8)
    ensures
        r == status_tag(value),
{
    match value {
        EventStatus::Started => 0,
        EventStatus::Completed => 1,
        EventStatus::Failed => 2,
        EventStatus::Escalated => 3,
        EventStatus::Cancelled => 4,
    }
}

fn encode_event_kind(out: &mut Vec<u8>, value: &EventKind)
    ensures
        final(out)@ == old(out)@ + kind_bytes(value@),
{
    proof {
        reveal(kind_bytes);
    }
    match value {
        EventKind::ProcessStarted => put_u8(out, 0),
        EventKind::ActivityEntered => put_u8(out, 1),
        EventKind::ActivityCompleted => put_u8(out, 2),
        EventKind::ActivityEscalated => put_u8(out, 3),
        EventKind::ActivityCancelled => put_u8(out, 4),
        EventKind::GatewayTaken => put_u8(out, 5),
        EventKind::ProcessCompleted => put_u8(out, 6),
        EventKind::ProcessFailed => put_u8(out, 7),
        EventKind::Unknown(name) => {
            put_u8(out, 8);
            put_text(out, name.as_str());
            proof {
                lemma_assoc(old(out)@, seq![8u8], text_bytes(name@));
            }
        },
    }
}

fn put_option_error(out: &mut Vec<u8>, value: Option<&ErrorInfo>)
    ensures
        final(out)@ == old(out)@ + opt_error_bytes(opt_view(value)),
{
    proof {
        reveal(opt_error_bytes);
    }
    match value {
        Some(error) => {
            put_u8(out, 1);
            put_text(out, error.message.as_str());
            let code = match &error.code {
                Some(code) => Some(code.as_str()),
                None => None,
            };
            put_option_string(out, code);
            proof {
                lemma_assoc(old(out)@, seq![1u8], text_bytes(error.message@));
                lemma_assoc(old(out)@, seq![1u8] + text_bytes(error.message@), opt_text_bytes(opt_view(code)));
            }
        },
        None => {
            put_u8(out, 0);
        },
    }
}

fn put_metadata_ref(out: &mut Vec<u8>, value: &MetadataRef)
    ensures
        final(out)@ == old(out)@ + ref_bytes(value@),
{
    proof {
        reveal(ref_bytes);
    }
    let variant: u8 = value.variant();
    put_u8(out, variant);
    put_text(out, value.id_str());
    proof {
        lemma_assoc(old(out)@, seq![variant], text_bytes(value@.id));
    }
    if variant == 1 || variant == 3 {
        put_option_string(out, value.version_str());
        proof {
            lemma_assoc(old(out)@, seq![variant] + text_bytes(value@.id), opt_text_bytes(value@.version));
        }
    }
}

fn put_metadata_refs(out: &mut Vec<u8>, refs: &Vec<MetadataRef>)
    ensures
        final(out)@ == old(out)@ + u32_bytes(refs.len() as u32) + refs_bytes(views(refs@)),
{
    put_u32(out, refs.len() as u32);
    let ghost start = out@;
    let mut i: usize = 0;
    assert(start + refs_bytes(views(refs@).take(0)) =~= start);
    while i < refs.len()
        invariant
            i <= refs.len(),
            out@ == start + refs_bytes(views(refs@).take(i as int)),
        decreases refs.len() - i,
    {
        put_metadata_ref(out, &refs[i]);
        proof {
            let sofar = views(refs@).take(i as int);
            assert(views(refs@).take(i + 1).drop_last() =~= sofar);
            lemma_assoc(start, refs_bytes(sofar), ref_bytes(refs@[i as int]@));
        }
        i += 1;
    }
    assert(views(refs@).take(refs.len() as int) =~= views(refs@));
}

fn put_head(out: &mut Vec<u8>, event: &PipelineEvent)
    ensures
        final(out)@ == old(out)@ + head_bytes(event@),
{
    proof {
        reveal(head_bytes);
    }
    put_text(out, event.event_id().as_str());
    put_text(out, event.source_id().as_str());
    put_u64(out, event.source_sequence().0);
    put_text(out, event.tenant_id().as_str());
    put_text(out, event.environment_id().as_str());
    put_text(out, event.pipeline_id().as_str());
    put_text(out, event.process_definition_id().as_str());
    put_text(out, event.process_instance_id().as_str());
    proof {
        let base = old(out)@;
        let e = event@;
        let a1 = text_bytes(e.event_id);
        let a2 = a1 + text_bytes(e.source_id);
        lemma_assoc(base, a1, text_bytes(e.source_id));
        let a3 = a2 + u64_bytes(e.source_sequence);
        lemma_assoc(base, a2, u64_bytes(e.source_sequence));
        let a4 = a3 + text_bytes(e.tenant_id);
        lemma_assoc(base, a3, text_bytes(e.tenant_id));
        let a5 = a4 + text_bytes(e.environment_id);
        lemma_assoc(base, a4, text_bytes(e.environment_id));
        let a6 = a5 + text_bytes(e.pipeline_id);
        lemma_assoc(base, a5, text_bytes(e.pipeline_id));
        let a7 = a6 + text_bytes(e.process_definition_id);
        lemma_assoc(base, a6, text_bytes(e.process_definition_id));
        let a8 = a7 + text_bytes(e.process_instance_id);
        lemma_assoc(base, a7, text_bytes(e.process_instance_id));
    }
}

fn put_context(out: &mut Vec<u8>, event: &PipelineEvent)
    ensures
        final(out)@ == old(out)@ + context_bytes(event@),
{
    proof {
        reveal(context_bytes);
    }
    put_option_string(out, match event.process_version() { Some(v) => Some(v.as_str()), None => None });
    put_option_string(out, match event.activity_id() { Some(v) => Some(v.as_str()), None => None });
    put_option_string(out, match event.token_id() { Some(v) => Some(v.as_str()), None => None });
    put_option_string(out, match event.correlation_id() { Some(v) => Some(v.as_str()), None => None });
    put_option_string(out, match event.business_key() { Some(v) => Some(v.as_str()), None => None });
    put_text(out, event.timestamp().as_str());
    put_u8(out, encode_event_status(event.status()));
    encode_event_kind(out, &event.kind());
    proof {
        let base = old(out)@;
        let e = event@;
        let a1 = opt_text_bytes(e.process_version);
        let a2 = a1 + opt_text_bytes(e.activity_id);
        lemma_assoc(base, a1, opt_text_bytes(e.activity_id));
        let a3 = a2 + opt_text_bytes(e.token_id);
        lemma_assoc(base, a2, opt_text_bytes(e.token_id));
        let a4 = a3 + opt_text_bytes(e.correlation_id);
        lemma_assoc(base, a3, opt_text_bytes(e.correlation_id));
        let a5 = a4 + opt_text_bytes(e.business_key);
        lemma_assoc(base, a4, opt_text_bytes(e.business_key));
        let a6 = a5 + text_bytes(e.timestamp);
        lemma_assoc(base, a5, text_bytes(e.timestamp));
        let a7 = a6 + seq![status_tag(e.status)];
        lemma_assoc(base, a6, seq![status_tag(e.status)]);
        let a8 = a7 + kind_bytes(e.kind);
        lemma_assoc(base, a7, kind_bytes(e.kind));
    }
}

fn put_detail(out: &mut Vec<u8>, event: &PipelineEvent)
    ensures
        final(out)@ == old(out)@ + detail_bytes(event@),
{
    proof {
        reveal(detail_bytes);
    }
    put_option_error(out, event.error());
    put_metadata_refs(out, event.metadata_refs());
    put_option_string(out, match event.metadata_version() { Some(v) => Some(v.as_str()), None => None });
    put_option_string(out, match event.causal_parent() { Some(v) => Some(v.as_str()), None => None });
    put_option_string(out, event.payload());
    proof {
        let base = old(out)@;
        let e = event@;
        let a1 = opt_error_bytes(e.error);
        let a2 = a1 + u32_bytes(e.metadata_refs.len() as u32);
        lemma_assoc(base, a1, u32_bytes(e.metadata_refs.len() as u32));
        let a3 = a2 + refs_bytes(e.metadata_refs);
        lemma_assoc(base, a2, refs_bytes(e.metadata_refs));
        let a4 = a3 + opt_text_bytes(e.metadata_version);
        lemma_assoc(base, a3, opt_text_bytes(e.metadata_version));
        let a5 = a4 + opt_text_bytes(e.causal_parent);
        lemma_assoc(base, a4, opt_text_bytes(e.causal_parent));
        let a6 = a5 + opt_text_bytes(e.payload);
        lemma_assoc(base, a5, opt_text_bytes(e.payload));
    }
}

/// Encodes an event.
pub fn encode_pipeline_event(event: &PipelineEvent) -> (r: Vec<u8>)
    ensures
        r@ == event_bytes(event@),
{
    let mut out: Vec<u8> = Vec::new();
    out.push(0x56);
    out.push(0x50);
    out.push(0x45);
    out.push(0x31);
    assert(out@ =~= event_magic());
    put_head(&mut out, event);
    put_context(&mut out, event);
    put_detail(&mut out, event);
    out
}

// ---------------------------------------------------------------------------
// Decoding
// ---------------------------------------------------------------------------

/// How a primitive read error shows in the decoding of an event.
pub open spec fn lifted(e: WireError) -> ProcessEventDecodeError {
    match e {
        WireError::Eof => ProcessEventDecodeError::UnexpectedEof,
        WireError::Utf8 => ProcessEventDecodeError::InvalidUtf8,
    }
}

/// A value and the bytes behind it, or why there is none.
pub type Parsed<T> = Result<(T, Seq<u8>), ProcessEventDecodeError>;

/// Reads a byte.
#[verifier::opaque]
pub open spec fn parse_u8(b: Seq<u8>) -> Parsed<u8> {
    match read_u8(b) {
        Ok(x) => Ok(x),
        Err(e) => Err(lifted(e)),
    }
}

/// Reads a 32-bit number.
#[verifier::opaque]
pub open spec fn parse_u32(b: Seq<u8>) -> Parsed<u32> {
    match read_u32(b) {
        Ok(x) => Ok(x),
        Err(e) => Err(lifted(e)),
    }
}

/// Reads a 64-bit number.
#[verifier::opaque]
pub open spec fn parse_u64(b: Seq<u8>) -> Parsed<u64> {
    match read_u64(b) {
        Ok(x) => Ok(x),
        Err(e) => Err(lifted(e)),
    }
}

/// Reads a text.
#[verifier::opaque]
pub open spec fn parse_text(b: Seq<u8>) -> Parsed<Seq<char>> {
    match read_text(b) {
        Ok(x) => Ok(x),
        Err(e) => Err(lifted(e)),
    }
}

/// Reads an optional text.
#[verifier::opaque]
pub open spec fn parse_opt_text(b: Seq<u8>) -> Parsed<Option<Seq<char>>> {
    match parse_u8(b) {
        Err(e) => Err(e),
        Ok((tag, b1)) => if tag == 0 {
            Ok((None, b1))
        } else if tag == 1 {
            match parse_text(b1) {
                Err(e) => Err(e),
                Ok((s, b2)) => Ok((Some(s), b2)),
            }
        } else {
            Err(ProcessEventDecodeError::InvalidBool { value: tag })
        },
    }
}

/// Reads a status.
#[verifier::opaque]
pub open spec fn parse_status(b: Seq<u8>) -> Parsed<EventStatus> {
    match parse_u8(b) {
        Err(e) => Err(e),
        Ok((tag, b1)) => if tag == 0 {
            Ok((EventStatus::Started, b1))
        } else if tag == 1 {
            Ok((EventStatus::Completed, b1))
        } else if tag == 2 {
            Ok((EventStatus::Failed, b1))
        } else if tag == 3 {
            Ok((EventStatus::Escalated, b1))
        } else if tag == 4 {
            Ok((EventStatus::Cancelled, b1))
        } else {
            Err(ProcessEventDecodeError::InvalidEventStatus { value: tag })
        },
    }
}

/// Reads an event kind.
#[verifier::opaque]
pub open spec fn parse_kind(b: Seq<u8>) -> Parsed<EventKindView> {
    match parse_u8(b) {
        Err(e) => Err(e),
        Ok((tag, b1)) => if tag == 0 {
            Ok((EventKindView::ProcessStarted, b1))
        } else if tag == 1 {
            Ok((EventKindView::ActivityEntered, b1))
        } else if tag == 2 {
            Ok((EventKindView::ActivityCompleted, b1))
        } else if tag == 3 {
            Ok((EventKindView::ActivityEscalated, b1))
        } else if tag == 4 {
            Ok((EventKindView::ActivityCancelled, b1))
        } else if tag == 5 {
            Ok((EventKindView::GatewayTaken, b1))
        } else if tag == 6 {
            Ok((EventKindView::ProcessCompleted, b1))
        } else if tag == 7 {
            Ok((EventKindView::ProcessFailed, b1))
        } else if tag == 8 {
            match parse_text(b1) {
                Err(e) => Err(e),
                Ok((s, b2)) => Ok((EventKindView::Unknown(s), b2)),
            }
        } else {
            Err(ProcessEventDecodeError::InvalidEventKind { value: tag })
        },
    }
}

/// Reads an optional error.
#[verifier::opaque]
pub open spec fn parse_opt_error(b: Seq<u8>) -> Parsed<Option<ErrorInfoView>> {
    match parse_u8(b) {
        Err(e) => Err(e),
        Ok((tag, b1)) => if tag == 0 {
            Ok((None, b1))
        } else if tag == 1 {
            match parse_text(b1) {
                Err(e) => Err(e),
                Ok((message, b2)) => match parse_opt_text(b2) {
                    Err(e) => Err(e),
                    Ok((code, b3)) => Ok((Some(ErrorInfoView { message, code }), b3)),
                },
            }
        } else {
            Err(ProcessEventDecodeError::InvalidBool { value: tag })
        },
    }
}

/// Reads a metadata reference.
#[verifier::opaque]
pub open spec fn parse_ref(b: Seq<u8>) -> Parsed<MetadataRefView> {
    match parse_u8(b) {
        Err(e) => Err(e),
        Ok((tag, b1)) => if tag > 8 {
            Err(ProcessEventDecodeError::InvalidMetadataRefKind { value: tag })
        } else {
            match parse_text(b1) {
                Err(e) => Err(e),
                Ok((id, b2)) => if versioned(tag as int) {
                    match parse_opt_text(b2) {
                        Err(e) => Err(e),
                        Ok((version, b3)) => Ok((MetadataRefView { variant: tag as int, id, version }, b3)),
                    }
                } else {
                    Ok((MetadataRefView { variant: tag as int, id, version: None }, b2))
                },
            }
        },
    }
}

/// Reads a number of metadata references and appends them to those already read.
pub open spec fn parse_refs(done: Seq<MetadataRefView>, b: Seq<u8>, count: nat) -> Parsed<Seq<MetadataRefView>>
    decreases count,
{
    if count == 0 {
        Ok((done, b))
    } else {
        match parse_ref(b) {
            Err(e) => Err(e),
            Ok((r, b1)) => parse_refs(done.push(r), b1, (count - 1) as nat),
        }
    }
}

/// The identifying fields of an event.
pub struct HeadView {
    pub event_id: Seq<char>,
    pub source_id: Seq<char>,
    pub source_sequence: u64,
    pub tenant_id: Seq<char>,
    pub environment_id: Seq<char>,
    pub pipeline_id: Seq<char>,
    pub process_definition_id: Seq<char>,
    pub process_instance_id: Seq<char>,
}

/// The context of an event.
pub struct ContextView {
    pub process_version: Option<Seq<char>>,
    pub activity_id: Option<Seq<char>>,
    pub token_id: Option<Seq<char>>,
    pub correlation_id: Option<Seq<char>>,
    pub business_key: Option<Seq<char>>,
    pub timestamp: Seq<char>,
    pub status: EventStatus,
    pub kind: EventKindView,
}

/// The remaining fields of an event.
pub struct DetailView {
    pub error: Option<ErrorInfoView>,
    pub metadata_refs: Seq<MetadataRefView>,
    pub metadata_version: Option<Seq<char>>,
    pub causal_parent: Option<Seq<char>>,
    pub payload: Option<Seq<char>>,
}

/// Reads the identifying fields.
#[verifier::opaque]
pub open spec fn parse_head(b: Seq<u8>) -> Parsed<HeadView> {
    match parse_text(b) {
        Err(e) => Err(e),
        Ok((event_id, b)) => match parse_text(b) {
            Err(e) => Err(e),
            Ok((source_id, b)) => match parse_u64(b) {
                Err(e) => Err(e),
                Ok((source_sequence, b)) => match parse_text(b) {
                    Err(e) => Err(e),
                    Ok((tenant_id, b)) => match parse_text(b) {
                        Err(e) => Err(e),
                        Ok((environment_id, b)) => match parse_text(b) {
                            Err(e) => Err(e),
                            Ok((pipeline_id, b)) => match parse_text(b) {
                                Err(e) => Err(e),
                                Ok((process_definition_id, b)) => match parse_text(b) {
                                    Err(e) => Err(e),
                                    Ok((process_instance_id, b)) => Ok(
                                        (
                                            HeadView {
                                                event_id,
                                                source_id,
                                                source_sequence,
                                                tenant_id,
                                                environment_id,
                                                pipeline_id,
                                                process_definition_id,
                                                process_instance_id,
                                            },
                                            b,
                                        ),
                                    ),
                                },
                            },
                        },
                    },
                },
            },
        },
    }
}

/// Reads the context.
#[verifier::opaque]
pub open spec fn parse_context(b: Seq<u8>) -> Parsed<ContextView> {
    match parse_opt_text(b) {
        Err(e) => Err(e),
        Ok((process_version, b)) => match parse_opt_text(b) {
            Err(e) => Err(e),
            Ok((activity_id, b)) => match parse_opt_text(b) {
                Err(e) => Err(e),
                Ok((token_id, b)) => match parse_opt_text(b) {
                    Err(e) => Err(e),
                    Ok((correlation_id, b)) => match parse_opt_text(b) {
                        Err(e) => Err(e),
                        Ok((business_key, b)) => match parse_text(b) {
                            Err(e) => Err(e),
                            Ok((timestamp, b)) => match parse_status(b) {
                                Err(e) => Err(e),
                                Ok((status, b)) => match parse_kind(b) {
                                    Err(e) => Err(e),
                                    Ok((kind, b)) => Ok(
                                        (
                                            ContextView {
                                                process_version,
                                                activity_id,
                                                token_id,
                                                correlation_id,
                                                business_key,
                                                timestamp,
                                                status,
                                                kind,
                                            },
                                            b,
                                        ),
                                    ),
                                },
                            },
                        },
                    },
                },
            },
        },
    }
}

/// Reads the remaining fields.
#[verifier::opaque]
pub open spec fn parse_detail(b: Seq<u8>) -> Parsed<DetailView> {
    match parse_opt_error(b) {
        Err(e) => Err(e),
        Ok((error, b)) => match parse_u32(b) {
            Err(e) => Err(e),
            Ok((count, b)) => match parse_refs(Seq::empty(), b, count as nat) {
                Err(e) => Err(e),
                Ok((metadata_refs, b)) => match parse_opt_text(b) {
                    Err(e) => Err(e),
                    Ok((metadata_version, b)) => match parse_opt_text(b) {
                        Err(e) => Err(e),
                        Ok((causal_parent, b)) => match parse_opt_text(b) {
                            Err(e) => Err(e),
                            Ok((payload, b)) => Ok(
                                (
                                    DetailView { error, metadata_refs, metadata_version, causal_parent, payload },
                                    b,
                                ),
                            ),
                        },
                    },
                },
            },
        },
    }
}

/// The event made of the three groups of fields.
pub open spec fn assembled(h: HeadView, c: ContextView, d: DetailView) -> PipelineEventView {
    PipelineEventView {
        event_id: h.event_id,
        source_id: h.source_id,
        source_sequence: h.source_sequence,
        tenant_id: h.tenant_id,
        environment_id: h.environment_id,
        pipeline_id: h.pipeline_id,
        process_definition_id: h.process_definition_id,
        process_instance_id: h.process_instance_id,
        process_version: c.process_version,
        activity_id: c.activity_id,
        token_id: c.token_id,
        correlation_id: c.correlation_id,
        business_key: c.business_key,
        timestamp: c.timestamp,
        status: c.status,
        kind: c.kind,
        error: d.error,
        metadata_refs: d.metadata_refs,
        metadata_version: d.metadata_version,
        causal_parent: d.causal_parent,
        payload: d.payload,
    }
}

/// The event that bytes encode, or the first thing wrong with them.
pub open spec fn parse_event(b: Seq<u8>) -> Result<PipelineEventView, ProcessEventDecodeError> {
    if b.len() < 4 {
        Err(ProcessEventDecodeError::UnexpectedEof)
    } else if b.take(4) != event_magic() {
        Err(ProcessEventDecodeError::InvalidMagic)
    } else {
        match parse_head(b.skip(4)) {
            Err(e) => Err(e),
            Ok((h, b)) => match parse_context(b) {
                Err(e) => Err(e),
                Ok((c, b)) => match parse_detail(b) {
                    Err(e) => Err(e),
                    Ok((d, b)) => if b.len() == 0 {
                        Ok(assembled(h, c, d))
                    } else {
                        Err(ProcessEventDecodeError::TrailingBytes { remaining: b.len() as usize })
                    },
                },
            },
        }
    }
}

fn lift(e: WireError) -> (r: ProcessEventDecodeError)
    ensures
        r == lifted(e),
{
    match e {
        WireError::Eof => ProcessEventDecodeError::UnexpectedEof,
        WireError::Utf8 => ProcessEventDecodeError::InvalidUtf8,
    }
}

fn get_u8(cursor: &mut Cursor) -> (r: Result<u8, ProcessEventDecodeError>)
    requires
        old(cursor).wf(),
    ensures
        final(cursor).wf(),
        match parse_u8(old(cursor)@) {
            Ok((x, rest)) => r == Ok::<u8, ProcessEventDecodeError>(x) && final(cursor)@ == rest,
            Err(e) => r == Err::<u8, ProcessEventDecodeError>(e),
        },
{
    proof {
        reveal(parse_u8);
    }
    match cursor.u8() {
        Ok(x) => Ok(x),
        Err(e) => Err(lift(e)),
    }
}

fn get_u32(cursor: &mut Cursor) -> (r: Result<u32, ProcessEventDecodeError>)
    requires
        old(cursor).wf(),
    ensures
        final(cursor).wf(),
        match parse_u32(old(cursor)@) {
            Ok((x, rest)) => r == Ok::<u32, ProcessEventDecodeError>(x) && final(cursor)@ == rest,
            Err(e) => r == Err::<u32, ProcessEventDecodeError>(e),
        },
{
    proof {
        reveal(parse_u32);
    }
    match cursor.u32() {
        Ok(x) => Ok(x),
        Err(e) => Err(lift(e)),
    }
}

fn get_u64(cursor: &mut Cursor) -> (r: Result<u64, ProcessEventDecodeError>)
    requires
        old(cursor).wf(),
    ensures
        final(cursor).wf(),
        match parse_u64(old(cursor)@) {
            Ok((x, rest)) => r == Ok::<u64, ProcessEventDecodeError>(x) && final(cursor)@ == rest,
            Err(e) => r == Err::<u64, ProcessEventDecodeError>(e),
        },
{
    proof {
        reveal(parse_u64);
    }
    match cursor.u64() {
        Ok(x) => Ok(x),
        Err(e) => Err(lift(e)),
    }
}

fn get_text(cursor: &mut Cursor) -> (r: Result<String, ProcessEventDecodeError>)
    requires
        old(cursor).wf(),
    ensures
        final(cursor).wf(),
        match parse_text(old(cursor)@) {
            Ok((s, rest)) => r matches Ok(t) && t@ == s && final(cursor)@ == rest,
            Err(e) => r == Err::<String, ProcessEventDecodeError>(e),
        },
{
    proof {
        reveal(parse_text);
    }
    match cursor.text() {
        Ok(x) => Ok(x),
        Err(e) => Err(lift(e)),
    }
}

fn get_opt_text(cursor: &mut Cursor) -> (r: Result<Option<String>, ProcessEventDecodeError>)
    requires
        old(cursor).wf(),
    ensures
        final(cursor).wf(),
        match parse_opt_text(old(cursor)@) {
            Ok((s, rest)) => r matches Ok(t) && opt_view(t) == s && final(cursor)@ == rest,
            Err(e) => r == Err::<Option<String>, ProcessEventDecodeError>(e),
        },
{
    proof {
        reveal(parse_opt_text);
    }
    let tag: u8 = get_u8(cursor)?;
    if tag == 0 {
        Ok(None)
    } else if tag == 1 {
        let text = get_text(cursor)?;
        Ok(Some(text))
    } else {
        Err(ProcessEventDecodeError::InvalidBool { value: tag })
    }
}

fn get_status(cursor: &mut Cursor) -> (r: Result<EventStatus, ProcessEventDecodeError>)
    requires
        old(cursor).wf(),
    ensures
        final(cursor).wf(),
        match parse_status(old(cursor)@) {
            Ok((s, rest)) => r == Ok::<EventStatus, ProcessEventDecodeError>(s) && final(cursor)@ == rest,
            Err(e) => r == Err::<EventStatus, ProcessEventDecodeError>(e),
        },
{
    proof {
        reveal(parse_status);
    }
    let value: u8 = get_u8(cursor)?;
    match value {
        0 => Ok(EventStatus::Started),
        1 => Ok(EventStatus::Completed),
        2 => Ok(EventStatus::Failed),
        3 => Ok(EventStatus::Escalated),
        4 => Ok(EventStatus::Cancelled),
        _ => Err(ProcessEventDecodeError::InvalidEventStatus { value }),
    }
}

fn get_kind(cursor: &mut Cursor) -> (r: Result<EventKind, ProcessEventDecodeError>)
    requires
        old(cursor).wf(),
    ensures
        final(cursor).wf(),
        match parse_kind(old(cursor)@) {
            Ok((s, rest)) => r matches Ok(k) && k@ == s && final(cursor)@ == rest,
            Err(e) => r == Err::<EventKind, ProcessEventDecodeError>(e),
        },
{
    proof {
        reveal(parse_kind);
    }
    let value: u8 = get_u8(cursor)?;
    match value {
        0 => Ok(EventKind::ProcessStarted),
        1 => Ok(EventKind::ActivityEntered),
        2 => Ok(EventKind::ActivityCompleted),
        3 => Ok(EventKind::ActivityEscalated),
        4 => Ok(EventKind::ActivityCancelled),
        5 => Ok(EventKind::GatewayTaken),
        6 => Ok(EventKind::ProcessCompleted),
        7 => Ok(EventKind::ProcessFailed),
        8 => {
            let name = get_text(cursor)?;
            Ok(EventKind::Unknown(name))
        },
        _ => Err(ProcessEventDecodeError::InvalidEventKind { value }),
    }
}

fn get_opt_error(cursor: &mut Cursor) -> (r: Result<Option<ErrorInfo>, ProcessEventDecodeError>)
    requires
        old(cursor).wf(),
    ensures
        final(cursor).wf(),
        match parse_opt_error(old(cursor)@) {
            Ok((s, rest)) => r matches Ok(t) && opt_view(t) == s && final(cursor)@ == rest,
            Err(e) => r == Err::<Option<ErrorInfo>, ProcessEventDecodeError>(e),
        },
{
    proof {
        reveal(parse_opt_error);
    }
    let tag: u8 = get_u8(cursor)?;
    if tag == 0 {
        Ok(None)
    } else if tag == 1 {
        let message = get_text(cursor)?;
        let code = get_opt_text(cursor)?;
        Ok(Some(ErrorInfo::new(message, code)))
    } else {
        Err(ProcessEventDecodeError::InvalidBool { value: tag })
    }
}

fn get_ref(cursor: &mut Cursor) -> (r: Result<MetadataRef, ProcessEventDecodeError>)
    requires
        old(cursor).wf(),
    ensures
        final(cursor).wf(),
        match parse_ref(old(cursor)@) {
            Ok((s, rest)) => r matches Ok(t) && t@ == s && final(cursor)@ == rest,
            Err(e) => r == Err::<MetadataRef, ProcessEventDecodeError>(e),
        },
{
    proof {
        reveal(parse_ref);
    }
    let value: u8 = get_u8(cursor)?;
    if value > 8 {
        return Err(ProcessEventDecodeError::InvalidMetadataRefKind { value });
    }
    let id = get_text(cursor)?;
    match value {
        0 => Ok(MetadataRef::Dataset(DatasetId::from(id))),
        1 => {
            let version = match get_opt_text(cursor)? {
                Some(v) => Some(MetadataVersion::from(v)),
                None => None,
            };
            Ok(MetadataRef::Schema { id: SchemaId::from(id), version })
        },
        2 => Ok(MetadataRef::Field(FieldId::from(id))),
        3 => {
            let version = match get_opt_text(cursor)? {
                Some(v) => Some(MetadataVersion::from(v)),
                None => None,
            };
            Ok(MetadataRef::PipelineDefinition { id: PipelineDefinitionId::from(id), version })
        },
        4 => Ok(MetadataRef::Object(MetadataObjectId::from(id))),
        5 => Ok(MetadataRef::LineageEdge(LineageEdgeId::from(id))),
        6 => Ok(MetadataRef::DataContract(DataContractId::from(id))),
        7 => Ok(MetadataRef::Owner(OwnerId::from(id))),
        _ => Ok(MetadataRef::Classification(ClassificationId::from(id))),
    }
}

fn get_refs(cursor: &mut Cursor, count: u32) -> (r: Result<Vec<MetadataRef>, ProcessEventDecodeError>)
    requires
        old(cursor).wf(),
    ensures
        final(cursor).wf(),
        match parse_refs(Seq::empty(), old(cursor)@, count as nat) {
            Ok((s, rest)) => r matches Ok(t) && views(t@) == s && final(cursor)@ == rest,
            Err(e) => r == Err::<Vec<MetadataRef>, ProcessEventDecodeError>(e),
        },
{
    let ghost start = cursor@;
    let mut refs: Vec<MetadataRef> = Vec::new();
    let mut i: u32 = 0;
    assert(views(refs@) =~= Seq::<MetadataRefView>::empty());
    while i < count
        invariant
            i <= count,
            cursor.wf(),
            start == old(cursor)@,
            parse_refs(Seq::empty(), start, count as nat) == parse_refs(views(refs@), cursor@, (count - i) as nat),
        decreases count - i,
    {
        let ghost done = refs@;
        let next = get_ref(cursor)?;
        refs.push(next);
        assert(views(refs@) =~= views(done).push(next@));
        assert((count - i) as nat - 1 == (count - (i + 1)) as nat);
        i += 1;
    }
    Ok(refs)
}

struct Head {
    event_id: EventId,
    source_id: SourceId,
    source_sequence: SourceSequence,
    tenant_id: TenantId,
    environment_id: EnvironmentId,
    pipeline_id: PipelineId,
    process_definition_id: ProcessDefinitionId,
    process_instance_id: ProcessInstanceId,
}

impl View for Head {
    type V = HeadView;

    closed spec fn view(&self) -> HeadView {
        HeadView {
            event_id: self.event_id@,
            source_id: self.source_id@,
            source_sequence: self.source_sequence.0,
            tenant_id: self.tenant_id@,
            environment_id: self.environment_id@,
            pipeline_id: self.pipeline_id@,
            process_definition_id: self.process_definition_id@,
            process_instance_id: self.process_instance_id@,
        }
    }
}

struct Context {
    process_version: Option<String>,
    activity_id: Option<String>,
    token_id: Option<String>,
    correlation_id: Option<String>,
    business_key: Option<String>,
    timestamp: EventTimestamp,
    status: EventStatus,
    kind: EventKind,
}

impl View for Context {
    type V = ContextView;

    closed spec fn view(&self) -> ContextView {
        ContextView {
            process_version: opt_view(self.process_version),
            activity_id: opt_view(self.activity_id),
            token_id: opt_view(self.token_id),
            correlation_id: opt_view(self.correlation_id),
            business_key: opt_view(self.business_key),
            timestamp: self.timestamp@,
            status: self.status,
            kind: self.kind@,
        }
    }
}

struct Detail {
    error: Option<ErrorInfo>,
    metadata_refs: Vec<MetadataRef>,
    metadata_version: Option<String>,
    causal_parent: Option<String>,
    payload: Option<String>,
}

impl View for Detail {
    type V = DetailView;

    closed spec fn view(&self) -> DetailView {
        DetailView {
            error: opt_view(self.error),
            metadata_refs: views(self.metadata_refs@),
            metadata_version: opt_view(self.metadata_version),
            causal_parent: opt_view(self.causal_parent),
            payload: opt_view(self.payload),
        }
    }
}

fn get_head(cursor: &mut Cursor) -> (r: Result<Head, ProcessEventDecodeError>)
    requires
        old(cursor).wf(),
    ensures
        final(cursor).wf(),
        match parse_head(old(cursor)@) {
            Ok((s, rest)) => r matches Ok(t) && t@ == s && final(cursor)@ == rest,
            Err(e) => r == Err::<Head, ProcessEventDecodeError>(e),
        },
{
    proof {
        reveal(parse_head);
    }
    let event_id = EventId::from(get_text(cursor)?);
    let source_id = SourceId::from(get_text(cursor)?);
    let source_sequence = SourceSequence(get_u64(cursor)?);
    let tenant_id = TenantId::from(get_text(cursor)?);
    let environment_id = EnvironmentId::from(get_text(cursor)?);
    let pipeline_id = PipelineId::from(get_text(cursor)?);
    let process_definition_id = ProcessDefinitionId::from(get_text(cursor)?);
    let process_instance_id = ProcessInstanceId::from(get_text(cursor)?);
    Ok(
        Head {
            event_id,
            source_id,
            source_sequence,
            tenant_id,
            environment_id,
            pipeline_id,
            process_definition_id,
            process_instance_id,
        },
    )
}

fn get_context(cursor: &mut Cursor) -> (r: Result<Context, ProcessEventDecodeError>)
    requires
        old(cursor).wf(),
    ensures
        final(cursor).wf(),
        match parse_context(old(cursor)@) {
            Ok((s, rest)) => r matches Ok(t) && t@ == s && final(cursor)@ == rest,
            Err(e) => r == Err::<Context, ProcessEventDecodeError>(e),
        },
{
    proof {
        reveal(parse_context);
    }
    let process_version = get_opt_text(cursor)?;
    let activity_id = get_opt_text(cursor)?;
    let token_id = get_opt_text(cursor)?;
    let correlation_id = get_opt_text(cursor)?;
    let business_key = get_opt_text(cursor)?;
    let timestamp = EventTimestamp::from(get_text(cursor)?);
    let status = get_status(cursor)?;
    let kind = get_kind(cursor)?;
    Ok(Context { process_version, activity_id, token_id, correlation_id, business_key, timestamp, status, kind })
}

fn get_detail(cursor: &mut Cursor) -> (r: Result<Detail, ProcessEventDecodeError>)
    requires
        old(cursor).wf(),
    ensures
        final(cursor).wf(),
        match parse_detail(old(cursor)@) {
            Ok((s, rest)) => r matches Ok(t) && t@ == s && final(cursor)@ == rest,
            Err(e) => r == Err::<Detail, ProcessEventDecodeError>(e),
        },
{
    proof {
        reveal(parse_detail);
    }
    let error = get_opt_error(cursor)?;
    let count: u32 = get_u32(cursor)?;
    let metadata_refs = get_refs(cursor, count)?;
    let metadata_version = get_opt_text(cursor)?;
    let causal_parent = get_opt_text(cursor)?;
    let payload = get_opt_text(cursor)?;
    Ok(Detail { error, metadata_refs, metadata_version, causal_parent, payload })
}

fn assemble(head: Head, context: Context, detail: Detail) -> (r: PipelineEvent)
    ensures
        r@ == assembled(head@, context@, detail@),
{
    let mut event = PipelineEvent::new(
        head.event_id,
        head.source_id,
        head.source_sequence,
        head.tenant_id,
        head.environment_id,
        head.pipeline_id,
        head.process_definition_id,
        head.process_instance_id,
        context.timestamp,
        context.kind,
    ).with_status(context.status).with_metadata_refs(detail.metadata_refs);
    if let Some(value) = context.process_version {
        event = event.with_process_version(ProcessVersion::from(value));
    }
    if let Some(value) = context.activity_id {
        event = event.with_activity_id(ActivityId::from(value));
    }
    if let Some(value) = context.token_id {
        event = event.with_token_id(TokenId::from(value));
    }
    if let Some(value) = context.correlation_id {
        event = event.with_correlation_id(CorrelationId::from(value));
    }
    if let Some(value) = context.business_key {
        event = event.with_business_key(BusinessKey::from(value));
    }
    if let Some(value) = detail.error {
        event = event.with_error(value);
    }
    if let Some(value) = detail.metadata_version {
        event = event.with_metadata_version(MetadataVersion::from(value));
    }
    if let Some(value) = detail.causal_parent {
        event = event.with_causal_parent(EventId::from(value));
    }
    if let Some(value) = detail.payload {
        event = event.with_payload(value);
    }
    event
}

/// Decodes an event.
pub fn decode_pipeline_event(payload: &[u8]) -> (r: Result<PipelineEvent, ProcessEventDecodeError>)
    ensures
        match parse_event(payload@) {
            Ok(s) => r matches Ok(t) && t@ == s,
            Err(e) => r == Err::<PipelineEvent, ProcessEventDecodeError>(e),
        },
{
    let mut cursor = Cursor::new(payload);
    let magic = match cursor.take(4) {
        Ok(bytes) => bytes,
        Err(e) => {
            return Err(lift(e));
        },
    };
    if magic[0] != 0x56 || magic[1] != 0x50 || magic[2] != 0x45 || magic[3] != 0x31 {
        assert(payload@.take(4) == magic@);
        return Err(ProcessEventDecodeError::InvalidMagic);
    }
    assert(magic@ =~= event_magic());
    let head = get_head(&mut cursor)?;
    let context = get_context(&mut cursor)?;
    let detail = get_detail(&mut cursor)?;
    let remaining: usize = cursor.remaining();
    if remaining != 0 {
        return Err(ProcessEventDecodeError::TrailingBytes { remaining });
    }
    Ok(assemble(head, context, detail))
}

// ---------------------------------------------------------------------------
// Round trip
// ---------------------------------------------------------------------------

/// Whether the length of an optional text is written in full.
pub open spec fn opt_text_fits(o: Option<Seq<char>>) -> bool {
    o matches Some(s) ==> text_fits(s)
}

/// Whether a reference names a known variant, carries a version only where its variant
/// has one, and is written in full.
pub open spec fn ref_fits(r: MetadataRefView) -> bool {
    &&& 0 <= r.variant <= 8
    &&& !versioned(r.variant) ==> r.version is None
    &&& text_fits(r.id)
    &&& opt_text_fits(r.version)
}

/// Whether every length in the encoding of an event is written in full: no text takes
/// more bytes, and no list has more elements, than 32 bits can count.
pub open spec fn event_fits(e: PipelineEventView) -> bool {
    &&& text_fits(e.event_id)
    &&& text_fits(e.source_id)
    &&& text_fits(e.tenant_id)
    &&& text_fits(e.environment_id)
    &&& text_fits(e.pipeline_id)
    &&& text_fits(e.process_definition_id)
    &&& text_fits(e.process_instance_id)
    &&& opt_text_fits(e.process_version)
    &&& opt_text_fits(e.activity_id)
    &&& opt_text_fits(e.token_id)
    &&& opt_text_fits(e.correlation_id)
    &&& opt_text_fits(e.business_key)
    &&& text_fits(e.timestamp)
    &&& (e.kind matches EventKindView::Unknown(name) ==> text_fits(name))
    &&& (e.error matches Some(error) ==> text_fits(error.message) && opt_text_fits(error.code))
    &&& e.metadata_refs.len() <= u32::MAX
    &&& forall|i: int|
        0 <= i < e.metadata_refs.len() ==> text_fits((#[trigger] e.metadata_refs[i]).id) && opt_text_fits(
            e.metadata_refs[i].version,
        )
    &&& opt_text_fits(e.metadata_version)
    &&& opt_text_fits(e.causal_parent)
    &&& opt_text_fits(e.payload)
}

proof fn lemma_opt_text(o: Option<Seq<char>>, rest: Seq<u8>)
    requires
        opt_text_fits(o),
    ensures
        parse_opt_text(opt_text_bytes(o) + rest) == Ok::<(Option<Seq<char>>, Seq<u8>), ProcessEventDecodeError>(
            (o, rest),
        ),
{
    reveal(opt_text_bytes);
    reveal(parse_opt_text);
    reveal(parse_u8);
    reveal(parse_text);
    match o {
        Some(s) => {
            lemma_assoc(seq![1u8], text_bytes(s), rest);
            lemma_read_u8(1, text_bytes(s) + rest);
            lemma_read_text(s, rest);
        },
        None => {
            lemma_read_u8(0, rest);
        },
    }
}

proof fn lemma_status(status: EventStatus, rest: Seq<u8>)
    ensures
        parse_status(seq![status_tag(status)] + rest) == Ok::<(EventStatus, Seq<u8>), ProcessEventDecodeError>(
            (status, rest),
        ),
{
    reveal(parse_status);
    reveal(parse_u8);
    lemma_read_u8(status_tag(status), rest);
}

proof fn lemma_kind(kind: EventKindView, rest: Seq<u8>)
    requires
        kind matches EventKindView::Unknown(name) ==> text_fits(name),
    ensures
        parse_kind(kind_bytes(kind) + rest) == Ok::<(EventKindView, Seq<u8>), ProcessEventDecodeError>((kind, rest)),
{
    reveal(kind_bytes);
    reveal(parse_kind);
    reveal(parse_u8);
    reveal(parse_text);
    match kind {
        EventKindView::Unknown(name) => {
            lemma_assoc(seq![8u8], text_bytes(name), rest);
            lemma_read_u8(8, text_bytes(name) + rest);
            lemma_read_text(name, rest);
        },
        _ => {
            lemma_read_u8(kind_bytes(kind)[0], rest);
            assert(kind_bytes(kind) =~= seq![kind_bytes(kind)[0]]);
        },
    }
}

proof fn lemma_opt_error(o: Option<ErrorInfoView>, rest: Seq<u8>)
    requires
        o matches Some(error) ==> text_fits(error.message) && opt_text_fits(error.code),
    ensures
        parse_opt_error(opt_error_bytes(o) + rest) == Ok::<(Option<ErrorInfoView>, Seq<u8>), ProcessEventDecodeError>(
            (o, rest),
        ),
{
    reveal(opt_error_bytes);
    reveal(parse_opt_error);
    reveal(parse_u8);
    reveal(parse_text);
    match o {
        Some(e) => {
            let code = opt_text_bytes(e.code);
            lemma_assoc(seq![1u8] + text_bytes(e.message), code, rest);
            lemma_assoc(seq![1u8], text_bytes(e.message), code + rest);
            lemma_read_u8(1, text_bytes(e.message) + (code + rest));
            lemma_read_text(e.message, code + rest);
            lemma_opt_text(e.code, rest);
        },
        None => {
            lemma_read_u8(0, rest);
        },
    }
}

proof fn lemma_ref(r: MetadataRefView, rest: Seq<u8>)
    requires
        ref_fits(r),
    ensures
        parse_ref(ref_bytes(r) + rest) == Ok::<(MetadataRefView, Seq<u8>), ProcessEventDecodeError>((r, rest)),
{
    reveal(ref_bytes);
    reveal(parse_ref);
    reveal(parse_u8);
    reveal(parse_text);
    let tag = seq![r.variant as u8];
    if versioned(r.variant) {
        let version = opt_text_bytes(r.version);
        lemma_assoc(tag + text_bytes(r.id), version, rest);
        lemma_assoc(tag, text_bytes(r.id), version + rest);
        lemma_read_u8(r.variant as u8, text_bytes(r.id) + (version + rest));
        lemma_read_text(r.id, version + rest);
        lemma_opt_text(r.version, rest);
    } else {
        lemma_assoc(tag, text_bytes(r.id), rest);
        lemma_read_u8(r.variant as u8, text_bytes(r.id) + rest);
        lemma_read_text(r.id, rest);
    }
}

proof fn lemma_refs_first(refs: Seq<MetadataRefView>)
    requires
        refs.len() > 0,
    ensures
        refs_bytes(refs) == ref_bytes(refs[0]) + refs_bytes(refs.skip(1)),
    decreases refs.len(),
{
    let tail = refs.skip(1);
    if refs.len() == 1 {
        assert(refs.drop_last() =~= Seq::<MetadataRefView>::empty());
        assert(tail =~= Seq::<MetadataRefView>::empty());
        assert(refs_bytes(refs) =~= ref_bytes(refs[0]) + refs_bytes(tail));
    } else {
        lemma_refs_first(refs.drop_last());
        assert(refs.drop_last().skip(1) =~= tail.drop_last());
        assert(tail.last() == refs.last());
        lemma_assoc(ref_bytes(refs[0]), refs_bytes(tail.drop_last()), ref_bytes(refs.last()));
    }
}

proof fn lemma_refs(done: Seq<MetadataRefView>, refs: Seq<MetadataRefView>, rest: Seq<u8>)
    requires
        forall|i: int| 0 <= i < refs.len() ==> ref_fits(#[trigger] refs[i]),
    ensures
        parse_refs(done, refs_bytes(refs) + rest, refs.len()) == Ok::<
            (Seq<MetadataRefView>, Seq<u8>),
            ProcessEventDecodeError,
        >((done + refs, rest)),
    decreases refs.len(),
{
    if refs.len() == 0 {
        assert(refs_bytes(refs) + rest =~= rest);
        assert(done + refs =~= done);
    } else {
        let tail = refs.skip(1);
        lemma_refs_first(refs);
        lemma_assoc(ref_bytes(refs[0]), refs_bytes(tail), rest);
        lemma_ref(refs[0], refs_bytes(tail) + rest);
        assert forall|i: int| 0 <= i < tail.len() implies ref_fits(#[trigger] tail[i]) by {
            assert(ref_fits(refs[i + 1]));
        }
        lemma_refs(done.push(refs[0]), tail, rest);
        assert(done.push(refs[0]) + tail =~= done + refs);
    }
}

proof fn lemma_head(e: PipelineEventView, rest: Seq<u8>)
    requires
        event_fits(e),
    ensures
        parse_head(head_bytes(e) + rest) == Ok::<(HeadView, Seq<u8>), ProcessEventDecodeError>((
            HeadView {
                event_id: e.event_id,
                source_id: e.source_id,
                source_sequence: e.source_sequence,
                tenant_id: e.tenant_id,
                environment_id: e.environment_id,
                pipeline_id: e.pipeline_id,
                process_definition_id: e.process_definition_id,
                process_instance_id: e.process_instance_id,
            },
            rest,
        )),
{
    reveal(head_bytes);
    reveal(parse_head);
    reveal(parse_text);
    reveal(parse_u64);
    let x1 = text_bytes(e.event_id);
    let x2 = text_bytes(e.source_id);
    let x3 = u64_bytes(e.source_sequence);
    let x4 = text_bytes(e.tenant_id);
    let x5 = text_bytes(e.environment_id);
    let x6 = text_bytes(e.pipeline_id);
    let x7 = text_bytes(e.process_definition_id);
    let x8 = text_bytes(e.process_instance_id);
    let t8 = rest;
    let t7 = x8 + t8;
    let t6 = x7 + t7;
    let t5 = x6 + t6;
    let t4 = x5 + t5;
    let t3 = x4 + t4;
    let t2 = x3 + t3;
    let t1 = x2 + t2;
    let p1 = x1;
    let p2 = p1 + x2;
    let p3 = p2 + x3;
    let p4 = p3 + x4;
    let p5 = p4 + x5;
    let p6 = p5 + x6;
    let p7 = p6 + x7;
    let p8 = p7 + x8;
    lemma_assoc(p7, x8, t8);
    lemma_assoc(p6, x7, t7);
    lemma_assoc(p5, x6, t6);
    lemma_assoc(p4, x5, t5);
    lemma_assoc(p3, x4, t4);
    lemma_assoc(p2, x3, t3);
    lemma_assoc(p1, x2, t2);
    lemma_read_text(e.event_id, t1);
    lemma_read_text(e.source_id, t2);
    lemma_read_u64(e.source_sequence, t3);
    lemma_read_text(e.tenant_id, t4);
    lemma_read_text(e.environment_id, t5);
    lemma_read_text(e.pipeline_id, t6);
    lemma_read_text(e.process_definition_id, t7);
    lemma_read_text(e.process_instance_id, t8);
}

proof fn lemma_context(e: PipelineEventView, rest: Seq<u8>)
    requires
        event_fits(e),
    ensures
        parse_context(context_bytes(e) + rest) == Ok::<(ContextView, Seq<u8>), ProcessEventDecodeError>((
            ContextView {
                process_version: e.process_version,
                activity_id: e.activity_id,
                token_id: e.token_id,
                correlation_id: e.correlation_id,
                business_key: e.business_key,
                timestamp: e.timestamp,
                status: e.status,
                kind: e.kind,
            },
            rest,
        )),
{
    reveal(context_bytes);
    reveal(parse_context);
    reveal(parse_text);
    let x1 = opt_text_bytes(e.process_version);
    let x2 = opt_text_bytes(e.activity_id);
    let x3 = opt_text_bytes(e.token_id);
    let x4 = opt_text_bytes(e.correlation_id);
    let x5 = opt_text_bytes(e.business_key);
    let x6 = text_bytes(e.timestamp);
    let x7 = seq![status_tag(e.status)];
    let x8 = kind_bytes(e.kind);
    let t8 = rest;
    let t7 = x8 + t8;
    let t6 = x7 + t7;
    let t5 = x6 + t6;
    let t4 = x5 + t5;
    let t3 = x4 + t4;
    let t2 = x3 + t3;
    let t1 = x2 + t2;
    let p1 = x1;
    let p2 = p1 + x2;
    let p3 = p2 + x3;
    let p4 = p3 + x4;
    let p5 = p4 + x5;
    let p6 = p5 + x6;
    let p7 = p6 + x7;
    let p8 = p7 + x8;
    lemma_assoc(p7, x8, t8);
    lemma_assoc(p6, x7, t7);
    lemma_assoc(p5, x6, t6);
    lemma_assoc(p4, x5, t5);
    lemma_assoc(p3, x4, t4);
    lemma_assoc(p2, x3, t3);
    lemma_assoc(p1, x2, t2);
    lemma_opt_text(e.process_version, t1);
    lemma_opt_text(e.activity_id, t2);
    lemma_opt_text(e.token_id, t3);
    lemma_opt_text(e.correlation_id, t4);
    lemma_opt_text(e.business_key, t5);
    lemma_read_text(e.timestamp, t6);
    lemma_status(e.status, t7);
    lemma_kind(e.kind, t8);
}

proof fn lemma_detail(e: PipelineEventView, rest: Seq<u8>)
    requires
        event_fits(e),
        forall|i: int| 0 <= i < e.metadata_refs.len() ==> ref_fits(#[trigger] e.metadata_refs[i]),
    ensures
        parse_detail(detail_bytes(e) + rest) == Ok::<(DetailView, Seq<u8>), ProcessEventDecodeError>((
            DetailView {
                error: e.error,
                metadata_refs: e.metadata_refs,
                metadata_version: e.metadata_version,
                causal_parent: e.causal_parent,
                payload: e.payload,
            },
            rest,
        )),
{
    reveal(detail_bytes);
    reveal(parse_detail);
    reveal(parse_u32);
    let x1 = opt_error_bytes(e.error);
    let x2 = u32_bytes(e.metadata_refs.len() as u32);
    let x3 = refs_bytes(e.metadata_refs);
    let x4 = opt_text_bytes(e.metadata_version);
    let x5 = opt_text_bytes(e.causal_parent);
    let x6 = opt_text_bytes(e.payload);
    let t6 = rest;
    let t5 = x6 + t6;
    let t4 = x5 + t5;
    let t3 = x4 + t4;
    let t2 = x3 + t3;
    let t1 = x2 + t2;
    let p1 = x1;
    let p2 = p1 + x2;
    let p3 = p2 + x3;
    let p4 = p3 + x4;
    let p5 = p4 + x5;
    let p6 = p5 + x6;
    lemma_assoc(p5, x6, t6);
    lemma_assoc(p4, x5, t5);
    lemma_assoc(p3, x4, t4);
    lemma_assoc(p2, x3, t3);
    lemma_assoc(p1, x2, t2);
    lemma_opt_error(e.error, t1);
    lemma_read_u32(e.metadata_refs.len() as u32, t2);
    lemma_refs(Seq::empty(), e.metadata_refs, t3);
    lemma_opt_text(e.metadata_version, t4);
    lemma_opt_text(e.causal_parent, t5);
    lemma_opt_text(e.payload, t6);
    assert(Seq::<MetadataRefView>::empty() + e.metadata_refs =~= e.metadata_refs);
}

proof fn lemma_event_read(event: PipelineEvent, more: Seq<u8>)
    requires
        event_fits(event@),
    ensures
        parse_event(event_bytes(event@) + more) == if more.len() == 0 {
            Ok::<PipelineEventView, ProcessEventDecodeError>(event@)
        } else {
            Err(ProcessEventDecodeError::TrailingBytes { remaining: more.len() as usize })
        },
{
    let e = event@;
    assert forall|i: int| 0 <= i < e.metadata_refs.len() implies ref_fits(#[trigger] e.metadata_refs[i]) by {
        crate::ingest::lemma_event_refs(event);
    }
    let (m, h, c, d) = (event_magic(), head_bytes(e), context_bytes(e), detail_bytes(e));
    let b = event_bytes(e) + more;
    lemma_assoc(m + h + c, d, more);
    lemma_assoc(m + h, c, d + more);
    lemma_assoc(m, h, c + (d + more));
    assert(b == m + (h + (c + (d + more))));
    assert(b.take(4) =~= m);
    assert(b.skip(4) =~= h + (c + (d + more)));
    lemma_head(e, c + (d + more));
    lemma_context(e, d + more);
    lemma_detail(e, more);
}

/// Decoding an encoded event gives the event back, and so `decode_pipeline_event` undoes
/// `encode_pipeline_event`, for every event whose lengths fit into 32 bits.
pub proof fn law_event_round_trip(event: PipelineEvent)
    requires
        event_fits(event@),
    ensures
        parse_event(event_bytes(event@)) == Ok::<PipelineEventView, ProcessEventDecodeError>(event@),
{
    let none = Seq::<u8>::empty();
    lemma_event_read(event, none);
    assert(event_bytes(event@) + none =~= event_bytes(event@));
}

/// Two events that encode to the same bytes are equal.
pub proof fn law_event_encoding_injective(a: PipelineEvent, b: PipelineEvent)
    requires
        event_fits(a@),
        event_fits(b@),
        event_bytes(a@) == event_bytes(b@),
    ensures
        a@ == b@,
{
    law_event_round_trip(a);
    law_event_round_trip(b);
}

// ---------------------------------------------------------------------------
// Damaged encodings
// ---------------------------------------------------------------------------

/// How reading the first of some bytes relates to reading all of them.
spec fn is_cut<T>(whole: Parsed<T>, part: Parsed<T>, b: Seq<u8>, k: int) -> bool {
    cut_short(whole, part, ProcessEventDecodeError::UnexpectedEof, b, k)
}

/// The bytes behind what has been read.
spec fn behind<T>(whole: Parsed<T>) -> Seq<u8> {
    whole->Ok_0.1
}

proof fn lemma_cut_u8(b: Seq<u8>, k: int)
    ensures
        is_cut(parse_u8(b), parse_u8(b.take(k)), b, k),
{
    reveal(parse_u8);
    crate::wire::lemma_cut_u8(b, k);
}

proof fn lemma_cut_u32(b: Seq<u8>, k: int)
    ensures
        is_cut(parse_u32(b), parse_u32(b.take(k)), b, k),
{
    reveal(parse_u32);
    crate::wire::lemma_cut_u32(b, k);
}

proof fn lemma_cut_u64(b: Seq<u8>, k: int)
    ensures
        is_cut(parse_u64(b), parse_u64(b.take(k)), b, k),
{
    reveal(parse_u64);
    crate::wire::lemma_cut_u64(b, k);
}

proof fn lemma_cut_text(b: Seq<u8>, k: int)
    ensures
        is_cut(parse_text(b), parse_text(b.take(k)), b, k),
{
    reveal(parse_text);
    crate::wire::lemma_cut_text(b, k);
}

proof fn lemma_cut_opt_text(b: Seq<u8>, k: int)
    ensures
        is_cut(parse_opt_text(b), parse_opt_text(b.take(k)), b, k),
{
    reveal(parse_opt_text);
    lemma_cut_u8(b, k);
    let b1 = behind(parse_u8(b));
    lemma_cut_text(b1, k - (b.len() - b1.len()));
}

proof fn lemma_cut_status(b: Seq<u8>, k: int)
    ensures
        is_cut(parse_status(b), parse_status(b.take(k)), b, k),
{
    reveal(parse_status);
    lemma_cut_u8(b, k);
}

proof fn lemma_cut_kind(b: Seq<u8>, k: int)
    ensures
        is_cut(parse_kind(b), parse_kind(b.take(k)), b, k),
{
    reveal(parse_kind);
    lemma_cut_u8(b, k);
    let b1 = behind(parse_u8(b));
    lemma_cut_text(b1, k - (b.len() - b1.len()));
}

proof fn lemma_cut_opt_error(b: Seq<u8>, k: int)
    ensures
        is_cut(parse_opt_error(b), parse_opt_error(b.take(k)), b, k),
{
    reveal(parse_opt_error);
    lemma_cut_u8(b, k);
    let b1 = behind(parse_u8(b));
    lemma_cut_text(b1, k - (b.len() - b1.len()));
    let b2 = behind(parse_text(b1));
    lemma_cut_opt_text(b2, k - (b.len() - b2.len()));
}

proof fn lemma_cut_ref(b: Seq<u8>, k: int)
    ensures
        is_cut(parse_ref(b), parse_ref(b.take(k)), b, k),
{
    reveal(parse_ref);
    lemma_cut_u8(b, k);
    let b1 = behind(parse_u8(b));
    lemma_cut_text(b1, k - (b.len() - b1.len()));
    let b2 = behind(parse_text(b1));
    lemma_cut_opt_text(b2, k - (b.len() - b2.len()));
}

proof fn lemma_cut_refs(done: Seq<MetadataRefView>, b: Seq<u8>, count: nat, k: int)
    ensures
        is_cut(parse_refs(done, b, count), parse_refs(done, b.take(k), count), b, k),
    decreases count,
{
    if count > 0 {
        lemma_cut_ref(b, k);
        if parse_ref(b) is Ok {
            let (r, b1) = parse_ref(b)->Ok_0;
            lemma_cut_refs(done.push(r), b1, (count - 1) as nat, k - (b.len() - b1.len()));
        }
    }
}

proof fn lemma_cut_head(b: Seq<u8>, k: int)
    ensures
        is_cut(parse_head(b), parse_head(b.take(k)), b, k),
{
    reveal(parse_head);
    lemma_cut_text(b, k);
    let b1 = behind(parse_text(b));
    lemma_cut_text(b1, k - (b.len() - b1.len()));
    let b2 = behind(parse_text(b1));
    lemma_cut_u64(b2, k - (b.len() - b2.len()));
    let b3 = behind(parse_u64(b2));
    lemma_cut_text(b3, k - (b.len() - b3.len()));
    let b4 = behind(parse_text(b3));
    lemma_cut_text(b4, k - (b.len() - b4.len()));
    let b5 = behind(parse_text(b4));
    lemma_cut_text(b5, k - (b.len() - b5.len()));
    let b6 = behind(parse_text(b5));
    lemma_cut_text(b6, k - (b.len() - b6.len()));
    let b7 = behind(parse_text(b6));
    lemma_cut_text(b7, k - (b.len() - b7.len()));
}

proof fn lemma_cut_context(b: Seq<u8>, k: int)
    ensures
        is_cut(parse_context(b), parse_context(b.take(k)), b, k),
{
    reveal(parse_context);
    lemma_cut_opt_text(b, k);
    let b1 = behind(parse_opt_text(b));
    lemma_cut_opt_text(b1, k - (b.len() - b1.len()));
    let b2 = behind(parse_opt_text(b1));
    lemma_cut_opt_text(b2, k - (b.len() - b2.len()));
    let b3 = behind(parse_opt_text(b2));
    lemma_cut_opt_text(b3, k - (b.len() - b3.len()));
    let b4 = behind(parse_opt_text(b3));
    lemma_cut_opt_text(b4, k - (b.len() - b4.len()));
    let b5 = behind(parse_opt_text(b4));
    lemma_cut_text(b5, k - (b.len() - b5.len()));
    let b6 = behind(parse_text(b5));
    lemma_cut_status(b6, k - (b.len() - b6.len()));
    let b7 = behind(parse_status(b6));
    lemma_cut_kind(b7, k - (b.len() - b7.len()));
}

proof fn lemma_cut_detail(b: Seq<u8>, k: int)
    ensures
        is_cut(parse_detail(b), parse_detail(b.take(k)), b, k),
{
    reveal(parse_detail);
    lemma_cut_opt_error(b, k);
    let b1 = behind(parse_opt_error(b));
    lemma_cut_u32(b1, k - (b.len() - b1.len()));
    let (count, b2) = parse_u32(b1)->Ok_0;
    lemma_cut_refs(Seq::empty(), b2, count as nat, k - (b.len() - b2.len()));
    let b3 = behind(parse_refs(Seq::empty(), b2, count as nat));
    lemma_cut_opt_text(b3, k - (b.len() - b3.len()));
    let b4 = behind(parse_opt_text(b3));
    lemma_cut_opt_text(b4, k - (b.len() - b4.len()));
    let b5 = behind(parse_opt_text(b4));
    lemma_cut_opt_text(b5, k - (b.len() - b5.len()));
}

/// An encoded event that is cut short, be it to nothing, is found to end too early.
pub proof fn law_cut_event_ends_too_early(event: PipelineEvent, k: int)
    requires
        event_fits(event@),
        0 <= k < event_bytes(event@).len(),
    ensures
        parse_event(event_bytes(event@).take(k)) == Err::<PipelineEventView, ProcessEventDecodeError>(
            ProcessEventDecodeError::UnexpectedEof,
        ),
{
    law_event_round_trip(event);
    let whole = event_bytes(event@);
    let part = whole.take(k);
    if k >= 4 {
        let b = whole.skip(4);
        assert(part.take(4) =~= whole.take(4));
        assert(part.skip(4) =~= b.take(k - 4));
        lemma_cut_head(b, k - 4);
        let b1 = behind(parse_head(b));
        lemma_cut_context(b1, k - 4 - (b.len() - b1.len()));
        let b2 = behind(parse_context(b1));
        lemma_cut_detail(b2, k - 4 - (b.len() - b2.len()));
    }
}

/// An encoded event with more bytes behind it is refused with the number of those bytes.
pub proof fn law_event_with_more_behind_is_refused(event: PipelineEvent, more: Seq<u8>)
    requires
        event_fits(event@),
        0 < more.len() <= usize::MAX,
    ensures
        parse_event(event_bytes(event@) + more) == Err::<PipelineEventView, ProcessEventDecodeError>(
            ProcessEventDecodeError::TrailingBytes { remaining: more.len() as usize },
        ),
{
    lemma_event_read(event, more);
}

/// An encoded event of which one of the first four bytes is another is refused as no event.
pub proof fn law_event_with_another_magic_is_refused(event: PipelineEvent, i: int, byte: u8)
    requires
        0 <= i < 4,
        byte != event_bytes(event@)[i],
    ensures
        parse_event(event_bytes(event@).update(i, byte)) == Err::<PipelineEventView, ProcessEventDecodeError>(
            ProcessEventDecodeError::InvalidMagic,
        ),
{
    let e = event@;
    let whole = event_bytes(e);
    let (m, h, c, d) = (event_magic(), head_bytes(e), context_bytes(e), detail_bytes(e));
    lemma_assoc(m + h, c, d);
    lemma_assoc(m, h, c + d);
    assert(whole[i] == event_magic()[i]);
    assert(whole.update(i, byte).take(4)[i] == byte);
}

/// An event is written as the four characters `VPE1` and then its fields in this order: its
/// identifier, source, number in the source, tenant, environment, pipeline, definition and
/// process instance; its version, activity, token, correlation and business key, each behind
/// a one, or as a zero where there is none; its instant, a byte for its status, its kind; its
/// error, the number of its references and these; and its metadata version, its causal parent
/// and its payload.
pub proof fn law_event_layout(e: PipelineEventView)
    ensures
        event_bytes(e) == seq!['V' as u8, 'P' as u8, 'E' as u8, '1' as u8] + (text_bytes(e.event_id) + text_bytes(
            e.source_id,
        ) + u64_bytes(e.source_sequence) + text_bytes(e.tenant_id) + text_bytes(e.environment_id) + text_bytes(
            e.pipeline_id,
        ) + text_bytes(e.process_definition_id) + text_bytes(e.process_instance_id)) + (opt_text_bytes(
            e.process_version,
        ) + opt_text_bytes(e.activity_id) + opt_text_bytes(e.token_id) + opt_text_bytes(e.correlation_id)
            + opt_text_bytes(e.business_key) + text_bytes(e.timestamp) + seq![status_tag(e.status)] + kind_bytes(
            e.kind,
        )) + (opt_error_bytes(e.error) + u32_bytes(e.metadata_refs.len() as u32) + refs_bytes(e.metadata_refs)
            + opt_text_bytes(e.metadata_version) + opt_text_bytes(e.causal_parent) + opt_text_bytes(e.payload)),
{
    reveal(head_bytes);
    reveal(context_bytes);
    reveal(detail_bytes);
}

/// What there is stands behind a one, what there is not is a zero.
pub proof fn law_optional_layout(s: Seq<char>, error: ErrorInfoView)
    ensures
        opt_text_bytes(None) == seq![0u8],
        opt_text_bytes(Some(s)) == seq![1u8] + text_bytes(s),
        opt_error_bytes(None) == seq![0u8],
        opt_error_bytes(Some(error)) == seq![1u8] + text_bytes(error.message) + opt_text_bytes(error.code),
{
    reveal(opt_text_bytes);
    reveal(opt_error_bytes);
}

/// The statuses are numbered from started to cancelled, the kinds from the start of the
/// process to its failure, with an unknown kind and its name behind them.
pub proof fn law_tags(name: Seq<char>)
    ensures
        status_tag(EventStatus::Started) == 0 && status_tag(EventStatus::Completed) == 1 && status_tag(
            EventStatus::Failed,
        ) == 2 && status_tag(EventStatus::Escalated) == 3 && status_tag(EventStatus::Cancelled) == 4,
        kind_bytes(EventKindView::ProcessStarted) == seq![0u8],
        kind_bytes(EventKindView::ActivityEntered) == seq![1u8],
        kind_bytes(EventKindView::ActivityCompleted) == seq![2u8],
        kind_bytes(EventKindView::ActivityEscalated) == seq![3u8],
        kind_bytes(EventKindView::ActivityCancelled) == seq![4u8],
        kind_bytes(EventKindView::GatewayTaken) == seq![5u8],
        kind_bytes(EventKindView::ProcessCompleted) == seq![6u8],
        kind_bytes(EventKindView::ProcessFailed) == seq![7u8],
        kind_bytes(EventKindView::Unknown(name)) == seq![8u8] + text_bytes(name),
{
    reveal(kind_bytes);
}

/// A reference is the number of its variant and its identifier, with an optional version
/// where it is to a schema or to the definition of a pipeline; references follow one another.
pub proof fn law_reference_layout(refs: Seq<MetadataRefView>, r: MetadataRefView)
    ensures
        refs_bytes(Seq::empty()) == Seq::<u8>::empty(),
        refs_bytes(refs.push(r)) == refs_bytes(refs) + ref_bytes(r),
        r.variant == 1 || r.variant == 3 ==> ref_bytes(r) == seq![r.variant as u8] + text_bytes(r.id) + opt_text_bytes(
            r.version,
        ),
        r.variant != 1 && r.variant != 3 ==> ref_bytes(r) == seq![r.variant as u8] + text_bytes(r.id),
{
    reveal(ref_bytes);
    assert(refs.push(r).drop_last() =~= refs);
}

/// A byte that stands for nothing is refused where it stands, by the name of what it should
/// have been.
pub proof fn law_unknown_tags_are_refused(tag: u8, rest: Seq<u8>)
    ensures
        tag > 1 ==> parse_opt_text(seq![tag] + rest) == Err::<(Option<Seq<char>>, Seq<u8>), _>(
            ProcessEventDecodeError::InvalidBool { value: tag },
        ),
        tag > 1 ==> parse_opt_error(seq![tag] + rest) == Err::<(Option<ErrorInfoView>, Seq<u8>), _>(
            ProcessEventDecodeError::InvalidBool { value: tag },
        ),
        tag > 4 ==> parse_status(seq![tag] + rest) == Err::<(EventStatus, Seq<u8>), _>(
            ProcessEventDecodeError::InvalidEventStatus { value: tag },
        ),
        tag > 8 ==> parse_kind(seq![tag] + rest) == Err::<(EventKindView, Seq<u8>), _>(
            ProcessEventDecodeError::InvalidEventKind { value: tag },
        ),
        tag > 8 ==> parse_ref(seq![tag] + rest) == Err::<(MetadataRefView, Seq<u8>), _>(
            ProcessEventDecodeError::InvalidMetadataRefKind { value: tag },
        ),
{
    reveal(parse_u8);
    reveal(parse_opt_text);
    reveal(parse_opt_error);
    reveal(parse_status);
    reveal(parse_kind);
    reveal(parse_ref);
    crate::wire::lemma_read_u8(tag, rest);
}

} // verus!
