//! Ipto mapping and write payloads.

use vstd::prelude::*;
use vstd::utf8::encode_utf8;
use crate::data::{
    DataIndividualMetadataEvent, DataIndividualShardId, IdempotencyKey, MetadataEventView, MetadataFieldName,
    MetadataValue, MetadataValueView,
};
use crate::ingest::EventTimestamp;
use crate::ordered::{
    lemma_listing_exists, lemma_listing_len, rank_str, sorted, text_before, text_before_connected,
    text_before_irreflexive, text_before_transitive, views, Duplicate, Key, Rank, SortedMap,
};
use crate::text::{decimal, push_decimal, push_text, IntoText};
use crate::wire::{
    cut_short, lemma_assoc, lemma_read_text, lemma_read_u32, lemma_read_u64, lemma_read_u8, put_text, put_u32, put_u64,
    put_u8, read_text, read_u32, read_u64, read_u8, text_bytes, text_fits, u32_bytes, u64_bytes, Cursor, WireError,
};
pub use crate::durable_outbox::{
    rebalance_shard_range_to, replay_metadata_outbox_segment, replay_metadata_outbox_segment_after,
    replay_metadata_outbox_segment_for_shard_range, DurableOutboxEnqueueResult, MetadataOutboxRebalanceSummary,
    MetadataOutboxReplay, MetadataOutboxReplaySummary, MetadataOutboxStorageError, SegmentBackedMetadataOutbox,
    SegmentBackedMetadataOutboxRecovery, SegmentBackedMetadataOutboxSnapshot,
};
pub use crate::outbox::{
    deliver_next_pending, deliver_next_pending_for_target, drain_pending_outbox, drain_pending_outbox_for_target,
    IptoWriteError, IptoWriter, MetadataOutbox, MetadataOutboxDeliveryResult, MetadataOutboxDrainSummary,
    MetadataOutboxEntry, MetadataOutboxSnapshot, OutboxEnqueueResult, OutboxStatus,
};

verus! {

/// Identifier of an Ipto instance.
#[derive(Debug, PartialEq, Eq, PartialOrd, Ord, Hash)]
pub struct IptoInstanceId(String);

impl View for IptoInstanceId {
    type V = Seq<char>;

    closed spec fn view(&self) -> Seq<char> {
        self.0@
    }
}

impl IptoInstanceId {
    /// Wraps a text.
    pub fn new(value: impl IntoText) -> (r: Self)
        ensures
            r@ == value.text(),
    {
        IptoInstanceId(value.into_text())
    }

    /// The wrapped text.
    pub fn as_str(&self) -> (r: &str)
        ensures
            r@ == self@,
    {
        self.0.as_str()
    }
}

impl Clone for IptoInstanceId {
    fn clone(&self) -> (r: Self)
        ensures
            r == *self,
    {
        IptoInstanceId(self.0.clone())
    }
}

impl Duplicate for IptoInstanceId {
    fn duplicate(&self) -> (r: Self) {
        self.clone()
    }
}

impl From<&str> for IptoInstanceId {
    fn from(value: &str) -> (r: Self)
        ensures
            r@ == value@,
    {
        IptoInstanceId(value.to_owned())
    }
}

impl vstd::std_specs::convert::FromSpecImpl<&str> for IptoInstanceId {
    open spec fn obeys_from_spec() -> bool {
        false
    }

    open spec fn from_spec(v: &str) -> Self {
        arbitrary()
    }
}

impl From<String> for IptoInstanceId {
    fn from(value: String) -> (r: Self)
        ensures
            r@ == value@,
    {
        IptoInstanceId(value)
    }
}

impl vstd::std_specs::convert::FromSpecImpl<String> for IptoInstanceId {
    open spec fn obeys_from_spec() -> bool {
        false
    }

    open spec fn from_spec(v: String) -> Self {
        arbitrary()
    }
}

impl Key for IptoInstanceId {
    open spec fn before(a: Seq<char>, b: Seq<char>) -> bool {
        text_before(a, b)
    }

    proof fn before_irreflexive(a: Seq<char>) {
        text_before_irreflexive(a);
    }

    proof fn before_transitive(a: Seq<char>, b: Seq<char>, c: Seq<char>) {
        text_before_transitive(a, b, c);
    }

    proof fn before_connected(a: Seq<char>, b: Seq<char>) {
        text_before_connected(a, b);
    }

    fn rank(&self, other: &Self) -> (r: Rank) {
        rank_str(self.as_str(), other.as_str())
    }
}

/// Name of an Ipto attribute.
#[derive(Debug, PartialEq, Eq, PartialOrd, Ord, Hash)]
pub struct IptoAttributeName(String);

impl View for IptoAttributeName {
    type V = Seq<char>;

    closed spec fn view(&self) -> Seq<char> {
        self.0@
    }
}

impl IptoAttributeName {
    /// Wraps a text.
    pub fn new(value: impl IntoText) -> (r: Self)
        ensures
            r@ == value.text(),
    {
        IptoAttributeName(value.into_text())
    }

    /// The wrapped text.
    pub fn as_str(&self) -> (r: &str)
        ensures
            r@ == self@,
    {
        self.0.as_str()
    }
}

impl Clone for IptoAttributeName {
    fn clone(&self) -> (r: Self)
        ensures
            r == *self,
    {
        IptoAttributeName(self.0.clone())
    }
}

impl Duplicate for IptoAttributeName {
    fn duplicate(&self) -> (r: Self) {
        self.clone()
    }
}

impl From<&str> for IptoAttributeName {
    fn from(value: &str) -> (r: Self)
        ensures
            r@ == value@,
    {
        IptoAttributeName(value.to_owned())
    }
}

impl vstd::std_specs::convert::FromSpecImpl<&str> for IptoAttributeName {
    open spec fn obeys_from_spec() -> bool {
        false
    }

    open spec fn from_spec(v: &str) -> Self {
        arbitrary()
    }
}

impl From<String> for IptoAttributeName {
    fn from(value: String) -> (r: Self)
        ensures
            r@ == value@,
    {
        IptoAttributeName(value)
    }
}

impl vstd::std_specs::convert::FromSpecImpl<String> for IptoAttributeName {
    open spec fn obeys_from_spec() -> bool {
        false
    }

    open spec fn from_spec(v: String) -> Self {
        arbitrary()
    }
}

impl Key for IptoAttributeName {
    open spec fn before(a: Seq<char>, b: Seq<char>) -> bool {
        text_before(a, b)
    }

    proof fn before_irreflexive(a: Seq<char>) {
        text_before_irreflexive(a);
    }

    proof fn before_transitive(a: Seq<char>, b: Seq<char>, c: Seq<char>) {
        text_before_transitive(a, b, c);
    }

    proof fn before_connected(a: Seq<char>, b: Seq<char>) {
        text_before_connected(a, b);
    }

    fn rank(&self, other: &Self) -> (r: Rank) {
        rank_str(self.as_str(), other.as_str())
    }
}

impl IntoText for IptoAttributeName {
    open spec fn text(&self) -> Seq<char> {
        self@
    }

    fn into_text(self) -> (r: String) {
        self.0
    }
}

// ---------------------------------------------------------------------------
// Mapping
// ---------------------------------------------------------------------------

/// Versioned mapping from metadata field names to Ipto attributes.
#[derive(Debug, PartialEq, Eq)]
pub struct IptoMapping {
    version: String,
    fields: SortedMap<MetadataFieldName, IptoAttributeName>,
    relations_enabled: bool,
}

/// The view of a mapping.
pub struct MappingView {
    pub version: Seq<char>,
    pub fields: Map<Seq<char>, Seq<char>>,
    pub relations_enabled: bool,
}

impl View for IptoMapping {
    type V = MappingView;

    closed spec fn view(&self) -> MappingView {
        MappingView { version: self.version@, fields: self.fields@, relations_enabled: self.relations_enabled }
    }
}

impl IptoMapping {
    /// A mapping without fields, with relations.
    pub fn new(version: impl IntoText) -> (r: Self)
        ensures
            r@ == (MappingView { version: version.text(), fields: Map::empty(), relations_enabled: true }),
    {
        IptoMapping { version: version.into_text(), fields: SortedMap::new(), relations_enabled: true }
    }

    /// The mapping with one more field.
    pub fn map_field(self, field: impl IntoText, attribute: impl IntoText) -> (r: Self)
        ensures
            r@ == (MappingView { fields: self@.fields.insert(field.text(), attribute.text()), ..self@ }),
    {
        let mut fields = self.fields;
        let _ = fields.insert(MetadataFieldName::new(field), IptoAttributeName::new(attribute));
        IptoMapping { version: self.version, fields, relations_enabled: self.relations_enabled }
    }

    /// The mapping without relations.
    pub fn without_relations(self) -> (r: Self)
        ensures
            r@ == (MappingView { relations_enabled: false, ..self@ }),
    {
        IptoMapping { version: self.version, fields: self.fields, relations_enabled: false }
    }

    /// The version of the mapping.
    pub fn version(&self) -> (r: &str)
        ensures
            r@ == self@.version,
    {
        self.version.as_str()
    }

    /// The attribute that a field is mapped to.
    pub fn attribute_for(&self, field: &MetadataFieldName) -> (r: Option<&IptoAttributeName>)
        ensures
            match r {
                Some(attribute) => self@.fields.contains_key(field@) && attribute@ == self@.fields[field@],
                None => !self@.fields.contains_key(field@),
            },
    {
        self.fields.get(field)
    }
}

impl Clone for IptoMapping {
    fn clone(&self) -> (r: Self)
        ensures
            r@ == self@,
    {
        IptoMapping {
            version: self.version.clone(),
            fields: self.fields.clone(),
            relations_enabled: self.relations_enabled,
        }
    }
}

// ---------------------------------------------------------------------------
// Write payloads
// ---------------------------------------------------------------------------

/// What is written to an Ipto instance for one metadata event.
#[derive(Debug, PartialEq, Eq)]
pub struct IptoWritePayload {
    pub target: IptoInstanceId,
    pub shard_id: DataIndividualShardId,
    pub idempotency_key: IdempotencyKey,
    pub mapping_version: String,
    pub attributes: SortedMap<IptoAttributeName, MetadataValue>,
}

/// The view of a write payload.
pub struct PayloadView {
    pub target: Seq<char>,
    pub shard: u64,
    pub key: Seq<char>,
    pub mapping_version: Seq<char>,
    pub attributes: Map<Seq<char>, MetadataValueView>,
}

impl View for IptoWritePayload {
    type V = PayloadView;

    open spec fn view(&self) -> PayloadView {
        PayloadView {
            target: self.target@,
            shard: self.shard_id@,
            key: self.idempotency_key@,
            mapping_version: self.mapping_version@,
            attributes: self.attributes@,
        }
    }
}

impl Clone for IptoWritePayload {
    fn clone(&self) -> (r: Self)
        ensures
            r@ == self@,
    {
        IptoWritePayload {
            target: self.target.clone(),
            shard_id: self.shard_id,
            idempotency_key: self.idempotency_key.clone(),
            mapping_version: self.mapping_version.clone(),
            attributes: self.attributes.clone(),
        }
    }
}

/// The attributes with those added that fields are mapped to; where two fields share an
/// attribute the later one counts.
pub open spec fn mapped(
    attributes: Map<Seq<char>, MetadataValueView>,
    fields: Map<Seq<char>, MetadataValueView>,
    names: Seq<Seq<char>>,
    mapping: MappingView,
) -> Map<Seq<char>, MetadataValueView>
    decreases names.len(),
{
    if names.len() == 0 {
        attributes
    } else {
        let sofar = mapped(attributes, fields, names.drop_last(), mapping);
        let name = names.last();
        if mapping.fields.contains_key(name) {
            sofar.insert(mapping.fields[name], fields[name])
        } else {
            sofar
        }
    }
}

/// The names of fields in order.
pub open spec fn field_names(fields: Map<Seq<char>, MetadataValueView>) -> Seq<Seq<char>> {
    sorted::<MetadataFieldName>(fields.dom())
}

/// The attributes of an event: its passive metadata, then its active metadata, then the
/// activity that generated it.
pub open spec fn event_attributes(e: MetadataEventView, mapping: MappingView) -> Map<Seq<char>, MetadataValueView> {
    let passive = mapped(Map::empty(), e.passive_metadata, field_names(e.passive_metadata), mapping);
    let both = mapped(passive, e.active_metadata, field_names(e.active_metadata), mapping);
    match e.activity_id {
        Some(activity) if mapping.relations_enabled => both.insert(
            "vannak:relation:wasGeneratedBy"@,
            MetadataValueView::String(activity),
        ),
        _ => both,
    }
}

/// The payload of an event for a target.
pub open spec fn payload_of(e: MetadataEventView, target: Seq<char>, mapping: MappingView) -> PayloadView {
    PayloadView {
        target,
        shard: e.data_individual_shard_id,
        key: e.idempotency_key,
        mapping_version: mapping.version,
        attributes: event_attributes(e, mapping),
    }
}

fn map_fields(
    attributes: &mut SortedMap<IptoAttributeName, MetadataValue>,
    fields: &SortedMap<MetadataFieldName, MetadataValue>,
    mapping: &IptoMapping,
)
    ensures
        final(attributes)@ == mapped(old(attributes)@, fields@, field_names(fields@), mapping@),
{
    let n: usize = fields.len();
    let ghost names = field_names(fields@);
    let ghost before = attributes@;
    let mut i: usize = 0;
    assert(names.take(0) =~= Seq::<Seq<char>>::empty());
    while i < n
        invariant
            i <= n,
            n == names.len(),
            n == fields@.dom().len(),
            names == fields.keys(),
            attributes@ == mapped(before, fields@, names.take(i as int), mapping@),
        decreases n - i,
    {
        assert(names.take(i + 1).drop_last() =~= names.take(i as int));
        if let Some(attribute) = mapping.attribute_for(fields.key_at(i)) {
            let _ = attributes.insert(attribute.clone(), fields.value_at(i).clone());
        }
        i += 1;
    }
    assert(names.take(n as int) =~= names);
}

impl IptoWritePayload {
    /// The payload of an event for a target.
    pub fn from_event(event: &DataIndividualMetadataEvent, target: &IptoInstanceId, mapping: &IptoMapping) -> (r: Self)
        ensures
            r@ == payload_of(event@, target@, mapping@),
    {
        let mut attributes: SortedMap<IptoAttributeName, MetadataValue> = SortedMap::new();
        map_fields(&mut attributes, event.passive_metadata().fields(), mapping);
        map_fields(&mut attributes, event.active_metadata().fields(), mapping);
        if mapping.relations_enabled {
            if let Some(activity_id) = event.activity_id() {
                let _ = attributes.insert(
                    IptoAttributeName::from("vannak:relation:wasGeneratedBy"),
                    MetadataValue::string(activity_id.as_str()),
                );
            }
        }
        IptoWritePayload {
            target: target.clone(),
            shard_id: event.data_individual_shard_id(),
            idempotency_key: event.idempotency_key().clone(),
            mapping_version: mapping.version().to_owned(),
            attributes,
        }
    }

    /// Encodes the payload for append-only outbox segment storage.
    pub fn encode(&self) -> (r: Vec<u8>)
        ensures
            r@ == payload_bytes(self@),
    {
        let mut out: Vec<u8> = Vec::new();
        put_text(&mut out, self.target.as_str());
        put_u64(&mut out, self.shard_id.0);
        put_text(&mut out, self.idempotency_key.as_str());
        put_text(&mut out, self.mapping_version.as_str());
        let n: usize = self.attributes.len();
        put_u32(&mut out, n as u32);
        assert(out@ == prefix_bytes(self@)) by {
            assert(Seq::<u8>::empty() + text_bytes(self@.target) =~= text_bytes(self@.target));
        }
        let ghost start = out@;
        let ghost names = attribute_names(self@.attributes);
        let mut i: usize = 0;
        assert(start + attributes_bytes(self@.attributes, names.take(0)) =~= start);
        while i < n
            invariant
                i <= n,
                n == names.len(),
                n == self@.attributes.dom().len(),
                names == self.attributes.keys(),
                out@ == start + attributes_bytes(self@.attributes, names.take(i as int)),
            decreases n - i,
        {
            let ghost sofar = attributes_bytes(self@.attributes, names.take(i as int));
            let ghost name = names[i as int];
            put_text(&mut out, self.attributes.key_at(i).as_str());
            write_metadata_value(&mut out, self.attributes.value_at(i));
            proof {
                assert(names.take(i + 1).drop_last() =~= names.take(i as int));
                let v = value_bytes(self@.attributes[name]);
                lemma_assoc(start, sofar, text_bytes(name));
                lemma_assoc(start, sofar + text_bytes(name), v);
            }
            i += 1;
        }
        assert(names.take(n as int) =~= names);
        out
    }

    /// Decodes a payload.
    pub fn decode(bytes: &[u8]) -> (r: Result<Self, IptoPayloadDecodeError>)
        ensures
            match parse_payload(bytes@) {
                Ok(p) => r matches Ok(x) && x@ == p,
                Err(e) => r == Err::<Self, IptoPayloadDecodeError>(e),
            },
    {
        let mut cursor = Cursor::new(bytes);
        let target = IptoInstanceId::from(get_text(&mut cursor)?);
        let shard_id = DataIndividualShardId(get_u64(&mut cursor)?);
        let idempotency_key = IdempotencyKey::from(get_text(&mut cursor)?);
        let mapping_version = get_text(&mut cursor)?;
        let count: u32 = get_u32(&mut cursor)?;
        let attributes = get_attributes(&mut cursor, count)?;
        let remaining: usize = cursor.remaining();
        if remaining != 0 {
            return Err(IptoPayloadDecodeError::TrailingBytes(remaining));
        }
        Ok(IptoWritePayload { target, shard_id, idempotency_key, mapping_version, attributes })
    }
}

/// Why the bytes of a payload could not be decoded.
#[derive(Debug, Clone, Copy, PartialEq, Eq, Structural)]
pub enum IptoPayloadDecodeError {
    UnexpectedEof,
    InvalidUtf8,
    InvalidValueTag(u8),
    TrailingBytes(usize),
}

/// The text of a payload decode error.
pub open spec fn payload_error_text(e: IptoPayloadDecodeError) -> Seq<char> {
    match e {
        IptoPayloadDecodeError::UnexpectedEof => "unexpected end of Ipto payload bytes"@,
        IptoPayloadDecodeError::InvalidUtf8 => "Ipto payload contains invalid UTF-8"@,
        IptoPayloadDecodeError::InvalidValueTag(tag) => "invalid Ipto metadata value tag "@ + decimal(tag as nat),
        IptoPayloadDecodeError::TrailingBytes(count) => "Ipto payload has "@ + decimal(count as nat)
            + " trailing undecoded bytes"@,
    }
}

impl IptoPayloadDecodeError {
    /// The error as a text for an operator.
    pub fn describe(&self) -> (r: String)
        ensures
            r@ == payload_error_text(*self),
    {
        match self {
            IptoPayloadDecodeError::UnexpectedEof => "unexpected end of Ipto payload bytes".to_owned(),
            IptoPayloadDecodeError::InvalidUtf8 => "Ipto payload contains invalid UTF-8".to_owned(),
            IptoPayloadDecodeError::InvalidValueTag(tag) => {
                let mut out = "invalid Ipto metadata value tag ".to_owned();
                push_decimal(&mut out, *tag as u64);
                out
            },
            IptoPayloadDecodeError::TrailingBytes(count) => {
                let mut out = "Ipto payload has ".to_owned();
                push_decimal(&mut out, *count as u64);
                push_text(&mut out, " trailing undecoded bytes");
                out
            },
        }
    }
}

// ---------------------------------------------------------------------------
// The format
// ---------------------------------------------------------------------------

/// The names of attributes in order.
pub open spec fn attribute_names(attributes: Map<Seq<char>, MetadataValueView>) -> Seq<Seq<char>> {
    sorted::<IptoAttributeName>(attributes.dom())
}

/// Texts one after another.
pub open spec fn texts_bytes(items: Seq<Seq<char>>) -> Seq<u8>
    decreases items.len(),
{
    if items.len() == 0 {
        Seq::empty()
    } else {
        texts_bytes(items.drop_last()) + text_bytes(items.last())
    }
}

/// A metadata value: a tag, then the value.
#[verifier::opaque]
pub open spec fn value_bytes(v: MetadataValueView) -> Seq<u8> {
    match v {
        MetadataValueView::String(s) => seq![0u8] + text_bytes(s),
        MetadataValueView::Integer(n) => seq![1u8] + u64_bytes(n as u64),
        MetadataValueView::Boolean(b) => seq![
            2u8,
            if b {
                1u8
            } else {
                0u8
            },
        ],
        MetadataValueView::Timestamp(s) => seq![3u8] + text_bytes(s),
        MetadataValueView::StringList(items) => seq![4u8] + u32_bytes(items.len() as u32) + texts_bytes(items),
    }
}

/// Attributes one after another: name and value.
pub open spec fn attributes_bytes(attributes: Map<Seq<char>, MetadataValueView>, names: Seq<Seq<char>>) -> Seq<u8>
    decreases names.len(),
{
    if names.len() == 0 {
        Seq::empty()
    } else {
        attributes_bytes(attributes, names.drop_last()) + text_bytes(names.last()) + value_bytes(
            attributes[names.last()],
        )
    }
}

/// What a payload begins with: target, shard, key, mapping version and the number of
/// attributes.
pub open spec fn prefix_bytes(p: PayloadView) -> Seq<u8> {
    text_bytes(p.target) + u64_bytes(p.shard) + text_bytes(p.key) + text_bytes(p.mapping_version) + u32_bytes(
        p.attributes.dom().len() as u32,
    )
}

/// The bytes of a payload.
pub open spec fn payload_bytes(p: PayloadView) -> Seq<u8> {
    prefix_bytes(p) + attributes_bytes(p.attributes, attribute_names(p.attributes))
}

fn write_texts(out: &mut Vec<u8>, items: &Vec<String>)
    ensures
        final(out)@ == old(out)@ + texts_bytes(views(items@)),
{
    let ghost all = views(items@);
    let ghost start = out@;
    let mut i: usize = 0;
    assert(start + texts_bytes(all.take(0)) =~= start);
    while i < items.len()
        invariant
            i <= items.len(),
            all == views(items@),
            out@ == start + texts_bytes(all.take(i as int)),
        decreases items.len() - i,
    {
        put_text(out, items[i].as_str());
        proof {
            assert(all.take(i + 1).drop_last() =~= all.take(i as int));
            lemma_assoc(start, texts_bytes(all.take(i as int)), text_bytes(all[i as int]));
        }
        i += 1;
    }
    assert(all.take(items.len() as int) =~= all);
}

fn write_metadata_value(out: &mut Vec<u8>, value: &MetadataValue)
    ensures
        final(out)@ == old(out)@ + value_bytes(value@),
{
    proof {
        reveal(value_bytes);
    }
    let ghost start = out@;
    match value {
        MetadataValue::String(text) => {
            put_u8(out, 0);
            put_text(out, text.as_str());
            proof {
                lemma_assoc(start, seq![0u8], text_bytes(text@));
            }
        },
        MetadataValue::Integer(n) => {
            put_u8(out, 1);
            put_u64(out, *n as u64);
            proof {
                lemma_assoc(start, seq![1u8], u64_bytes(*n as u64));
            }
        },
        MetadataValue::Boolean(b) => {
            put_u8(out, 2);
            put_u8(
                out,
                if *b {
                    1
                } else {
                    0
                },
            );
            assert(out@ =~= start + value_bytes(value@));
        },
        MetadataValue::Timestamp(time) => {
            put_u8(out, 3);
            put_text(out, time.as_str());
            proof {
                lemma_assoc(start, seq![3u8], text_bytes(time@));
            }
        },
        MetadataValue::StringList(items) => {
            put_u8(out, 4);
            put_u32(out, items.len() as u32);
            write_texts(out, items);
            proof {
                let n = u32_bytes(items.len() as u32);
                lemma_assoc(start, seq![4u8], n);
                lemma_assoc(start, seq![4u8] + n, texts_bytes(views(items@)));
            }
        },
    }
}

// ---------------------------------------------------------------------------
// Decoding
// ---------------------------------------------------------------------------

/// How a primitive read error shows in the decoding of a payload.
pub open spec fn lifted(e: WireError) -> IptoPayloadDecodeError {
    match e {
        WireError::Eof => IptoPayloadDecodeError::UnexpectedEof,
        WireError::Utf8 => IptoPayloadDecodeError::InvalidUtf8,
    }
}

/// A value and the bytes behind it, or why there is none.
pub type Parsed<T> = Result<(T, Seq<u8>), IptoPayloadDecodeError>;

/// Reads a byte.
#[verifier::opaque]
pub open spec fn parse_u8(b: Seq<u8>) -> Parsed<u8> {
    match read_u8(b) {
        Ok(x) => Ok(x),
        Err(e) => Err(lifted(e)),
    }
}

/// Reads a 32-bit number.
#[verifier::opaque]
pub open spec fn parse_u32(b: Seq<u8>) -> Parsed<u32> {
    match read_u32(b) {
        Ok(x) => Ok(x),
        Err(e) => Err(lifted(e)),
    }
}

/// Reads a 64-bit number.
#[verifier::opaque]
pub open spec fn parse_u64(b: Seq<u8>) -> Parsed<u64> {
    match read_u64(b) {
        Ok(x) => Ok(x),
        Err(e) => Err(lifted(e)),
    }
}

/// Reads a text.
#[verifier::opaque]
pub open spec fn parse_text(b: Seq<u8>) -> Parsed<Seq<char>> {
    match read_text(b) {
        Ok(x) => Ok(x),
        Err(e) => Err(lifted(e)),
    }
}

/// Reads a number of texts and appends them to those already read.
pub open spec fn parse_texts(done: Seq<Seq<char>>, b: Seq<u8>, count: nat) -> Parsed<Seq<Seq<char>>>
    decreases count,
{
    if count == 0 {
        Ok((done, b))
    } else {
        match parse_text(b) {
            Err(e) => Err(e),
            Ok((s, b1)) => parse_texts(done.push(s), b1, (count - 1) as nat),
        }
    }
}

/// Reads a metadata value; any byte but zero counts as true.
#[verifier::opaque]
pub open spec fn parse_value(b: Seq<u8>) -> Parsed<MetadataValueView> {
    match parse_u8(b) {
        Err(e) => Err(e),
        Ok((tag, b)) => if tag == 0 {
            match parse_text(b) {
                Err(e) => Err(e),
                Ok((s, b)) => Ok((MetadataValueView::String(s), b)),
            }
        } else if tag == 1 {
            match parse_u64(b) {
                Err(e) => Err(e),
                Ok((n, b)) => Ok((MetadataValueView::Integer(n as i64), b)),
            }
        } else if tag == 2 {
            match parse_u8(b) {
                Err(e) => Err(e),
                Ok((n, b)) => Ok((MetadataValueView::Boolean(n != 0), b)),
            }
        } else if tag == 3 {
            match parse_text(b) {
                Err(e) => Err(e),
                Ok((s, b)) => Ok((MetadataValueView::Timestamp(s), b)),
            }
        } else if tag == 4 {
            match parse_u32(b) {
                Err(e) => Err(e),
                Ok((count, b)) => match parse_texts(Seq::empty(), b, count as nat) {
                    Err(e) => Err(e),
                    Ok((items, b)) => Ok((MetadataValueView::StringList(items), b)),
                },
            }
        } else {
            Err(IptoPayloadDecodeError::InvalidValueTag(tag))
        },
    }
}

/// Reads a number of attributes and adds them to those already read.
pub open spec fn parse_attributes(done: Map<Seq<char>, MetadataValueView>, b: Seq<u8>, count: nat) -> Parsed<
    Map<Seq<char>, MetadataValueView>,
>
    decreases count,
{
    if count == 0 {
        Ok((done, b))
    } else {
        match parse_text(b) {
            Err(e) => Err(e),
            Ok((name, b1)) => match parse_value(b1) {
                Err(e) => Err(e),
                Ok((value, b2)) => parse_attributes(done.insert(name, value), b2, (count - 1) as nat),
            },
        }
    }
}

/// The payload that bytes encode, or the first thing wrong with them.
pub open spec fn parse_payload(b: Seq<u8>) -> Result<PayloadView, IptoPayloadDecodeError> {
    match parse_text(b) {
        Err(e) => Err(e),
        Ok((target, b)) => match parse_u64(b) {
            Err(e) => Err(e),
            Ok((shard, b)) => match parse_text(b) {
                Err(e) => Err(e),
                Ok((key, b)) => match parse_text(b) {
                    Err(e) => Err(e),
                    Ok((mapping_version, b)) => match parse_u32(b) {
                        Err(e) => Err(e),
                        Ok((count, b)) => match parse_attributes(Map::empty(), b, count as nat) {
                            Err(e) => Err(e),
                            Ok((attributes, b)) => if b.len() == 0 {
                                Ok(PayloadView { target, shard, key, mapping_version, attributes })
                            } else {
                                Err(IptoPayloadDecodeError::TrailingBytes(b.len() as usize))
                            },
                        },
                    },
                },
            },
        },
    }
}

fn lift(e: WireError) -> (r: IptoPayloadDecodeError)
    ensures
        r == lifted(e),
{
    match e {
        WireError::Eof => IptoPayloadDecodeError::UnexpectedEof,
        WireError::Utf8 => IptoPayloadDecodeError::InvalidUtf8,
    }
}

fn get_u8(cursor: &mut Cursor) -> (r: Result<u8, IptoPayloadDecodeError>)
    requires
        old(cursor).wf(),
    ensures
        final(cursor).wf(),
        match parse_u8(old(cursor)@) {
            Ok((x, rest)) => r == Ok::<u8, IptoPayloadDecodeError>(x) && final(cursor)@ == rest,
            Err(e) => r == Err::<u8, IptoPayloadDecodeError>(e),
        },
{
    proof {
        reveal(parse_u8);
    }
    match cursor.u8() {
        Ok(x) => Ok(x),
        Err(e) => Err(lift(e)),
    }
}

fn get_u32(cursor: &mut Cursor) -> (r: Result<u32, IptoPayloadDecodeError>)
    requires
        old(cursor).wf(),
    ensures
        final(cursor).wf(),
        match parse_u32(old(cursor)@) {
            Ok((x, rest)) => r == Ok::<u32, IptoPayloadDecodeError>(x) && final(cursor)@ == rest,
            Err(e) => r == Err::<u32, IptoPayloadDecodeError>(e),
        },
{
    proof {
        reveal(parse_u32);
    }
    match cursor.u32() {
        Ok(x) => Ok(x),
        Err(e) => Err(lift(e)),
    }
}

fn get_u64(cursor: &mut Cursor) -> (r: Result<u64, IptoPayloadDecodeError>)
    requires
        old(cursor).wf(),
    ensures
        final(cursor).wf(),
        match parse_u64(old(cursor)@) {
            Ok((x, rest)) => r == Ok::<u64, IptoPayloadDecodeError>(x) && final(cursor)@ == rest,
            Err(e) => r == Err::<u64, IptoPayloadDecodeError>(e),
        },
{
    proof {
        reveal(parse_u64);
    }
    match cursor.u64() {
        Ok(x) => Ok(x),
        Err(e) => Err(lift(e)),
    }
}

fn get_text(cursor: &mut Cursor) -> (r: Result<String, IptoPayloadDecodeError>)
    requires
        old(cursor).wf(),
    ensures
        final(cursor).wf(),
        match parse_text(old(cursor)@) {
            Ok((s, rest)) => r matches Ok(t) && t@ == s && final(cursor)@ == rest,
            Err(e) => r == Err::<String, IptoPayloadDecodeError>(e),
        },
{
    proof {
        reveal(parse_text);
    }
    match cursor.text() {
        Ok(x) => Ok(x),
        Err(e) => Err(lift(e)),
    }
}

fn get_texts(cursor: &mut Cursor, count: u32) -> (r: Result<Vec<String>, IptoPayloadDecodeError>)
    requires
        old(cursor).wf(),
    ensures
        final(cursor).wf(),
        match parse_texts(Seq::empty(), old(cursor)@, count as nat) {
            Ok((s, rest)) => r matches Ok(t) && views(t@) == s && final(cursor)@ == rest,
            Err(e) => r == Err::<Vec<String>, IptoPayloadDecodeError>(e),
        },
{
    let ghost start = cursor@;
    let mut items: Vec<String> = Vec::new();
    let mut i: u32 = 0;
    assert(views(items@) =~= Seq::<Seq<char>>::empty());
    while i < count
        invariant
            i <= count,
            cursor.wf(),
            start == old(cursor)@,
            parse_texts(Seq::empty(), start, count as nat) == parse_texts(views(items@), cursor@, (count - i) as nat),
        decreases count - i,
    {
        let ghost done = items@;
        let next = get_text(cursor)?;
        items.push(next);
        assert(views(items@) =~= views(done).push(next@));
        assert((count - i) as nat - 1 == (count - (i + 1)) as nat);
        i += 1;
    }
    Ok(items)
}

fn get_value(cursor: &mut Cursor) -> (r: Result<MetadataValue, IptoPayloadDecodeError>)
    requires
        old(cursor).wf(),
    ensures
        final(cursor).wf(),
        match parse_value(old(cursor)@) {
            Ok((s, rest)) => r matches Ok(t) && t@ == s && final(cursor)@ == rest,
            Err(e) => r == Err::<MetadataValue, IptoPayloadDecodeError>(e),
        },
{
    proof {
        reveal(parse_value);
    }
    let tag: u8 = get_u8(cursor)?;
    match tag {
        0 => {
            let text = get_text(cursor)?;
            Ok(MetadataValue::String(text))
        },
        1 => {
            let n: u64 = get_u64(cursor)?;
            Ok(MetadataValue::Integer(n as i64))
        },
        2 => {
            let n: u8 = get_u8(cursor)?;
            Ok(MetadataValue::Boolean(n != 0))
        },
        3 => {
            let text = get_text(cursor)?;
            Ok(MetadataValue::Timestamp(EventTimestamp::from(text)))
        },
        4 => {
            let count: u32 = get_u32(cursor)?;
            let items = get_texts(cursor, count)?;
            Ok(MetadataValue::StringList(items))
        },
        _ => Err(IptoPayloadDecodeError::InvalidValueTag(tag)),
    }
}

fn get_attributes(cursor: &mut Cursor, count: u32) -> (r: Result<
    SortedMap<IptoAttributeName, MetadataValue>,
    IptoPayloadDecodeError,
>)
    requires
        old(cursor).wf(),
    ensures
        final(cursor).wf(),
        match parse_attributes(Map::empty(), old(cursor)@, count as nat) {
            Ok((s, rest)) => r matches Ok(t) && t@ == s && final(cursor)@ == rest,
            Err(e) => r == Err::<SortedMap<IptoAttributeName, MetadataValue>, IptoPayloadDecodeError>(e),
        },
{
    let ghost start = cursor@;
    let mut attributes: SortedMap<IptoAttributeName, MetadataValue> = SortedMap::new();
    let mut i: u32 = 0;
    while i < count
        invariant
            i <= count,
            cursor.wf(),
            start == old(cursor)@,
            parse_attributes(Map::empty(), start, count as nat) == parse_attributes(
                attributes@,
                cursor@,
                (count - i) as nat,
            ),
        decreases count - i,
    {
        let name = IptoAttributeName::from(get_text(cursor)?);
        let value = get_value(cursor)?;
        let _ = attributes.insert(name, value);
        assert((count - i) as nat - 1 == (count - (i + 1)) as nat);
        i += 1;
    }
    Ok(attributes)
}

// ---------------------------------------------------------------------------
// Round trip
// ---------------------------------------------------------------------------

/// Whether every length in the encoding of a value is written in full.
pub open spec fn value_fits(v: MetadataValueView) -> bool {
    match v {
        MetadataValueView::String(s) => text_fits(s),
        MetadataValueView::Timestamp(s) => text_fits(s),
        MetadataValueView::StringList(items) => items.len() <= u32::MAX && forall|i: int|
            0 <= i < items.len() ==> text_fits(#[trigger] items[i]),
        _ => true,
    }
}

/// Whether every length in the encoding of a payload is written in full.
pub open spec fn payload_fits(p: PayloadView) -> bool {
    &&& text_fits(p.target)
    &&& text_fits(p.key)
    &&& text_fits(p.mapping_version)
    &&& p.attributes.dom().len() <= u32::MAX
    &&& forall|k: Seq<char>| #[trigger] p.attributes.contains_key(k) ==> text_fits(k) && value_fits(p.attributes[k])
}

proof fn lemma_texts_first(items: Seq<Seq<char>>)
    requires
        items.len() > 0,
    ensures
        texts_bytes(items) == text_bytes(items[0]) + texts_bytes(items.skip(1)),
    decreases items.len(),
{
    let tail = items.skip(1);
    if items.len() == 1 {
        assert(items.drop_last() =~= Seq::<Seq<char>>::empty());
        assert(tail =~= Seq::<Seq<char>>::empty());
        assert(texts_bytes(items) =~= text_bytes(items[0]) + texts_bytes(tail));
    } else {
        lemma_texts_first(items.drop_last());
        assert(items.drop_last().skip(1) =~= tail.drop_last());
        assert(tail.last() == items.last());
        lemma_assoc(text_bytes(items[0]), texts_bytes(tail.drop_last()), text_bytes(items.last()));
    }
}

proof fn lemma_texts(done: Seq<Seq<char>>, items: Seq<Seq<char>>, rest: Seq<u8>)
    requires
        forall|i: int| 0 <= i < items.len() ==> text_fits(#[trigger] items[i]),
    ensures
        parse_texts(done, texts_bytes(items) + rest, items.len()) == Ok::<
            (Seq<Seq<char>>, Seq<u8>),
            IptoPayloadDecodeError,
        >((done + items, rest)),
    decreases items.len(),
{
    if items.len() == 0 {
        assert(texts_bytes(items) + rest =~= rest);
        assert(done + items =~= done);
    } else {
        let tail = items.skip(1);
        lemma_texts_first(items);
        lemma_assoc(text_bytes(items[0]), texts_bytes(tail), rest);
        reveal(parse_text);
        lemma_read_text(items[0], texts_bytes(tail) + rest);
        assert forall|i: int| 0 <= i < tail.len() implies text_fits(#[trigger] tail[i]) by {
            assert(text_fits(items[i + 1]));
        }
        lemma_texts(done.push(items[0]), tail, rest);
        assert(done.push(items[0]) + tail =~= done + items);
    }
}

proof fn lemma_i64_bits(n: i64)
    ensures
        (n as u64) as i64 == n,
{
    assert((n as u64) as i64 == n) by (bit_vector);
}

proof fn lemma_value(v: MetadataValueView, rest: Seq<u8>)
    requires
        value_fits(v),
    ensures
        parse_value(value_bytes(v) + rest) == Ok::<(MetadataValueView, Seq<u8>), IptoPayloadDecodeError>((v, rest)),
{
    reveal(value_bytes);
    reveal(parse_value);
    reveal(parse_u8);
    match v {
        MetadataValueView::String(s) => {
            reveal(parse_text);
            lemma_assoc(seq![0u8], text_bytes(s), rest);
            lemma_read_u8(0, text_bytes(s) + rest);
            lemma_read_text(s, rest);
        },
        MetadataValueView::Integer(n) => {
            reveal(parse_u64);
            lemma_assoc(seq![1u8], u64_bytes(n as u64), rest);
            lemma_read_u8(1, u64_bytes(n as u64) + rest);
            lemma_read_u64(n as u64, rest);
            lemma_i64_bits(n);
        },
        MetadataValueView::Boolean(b) => {
            let x: u8 = if b {
                1
            } else {
                0
            };
            assert(value_bytes(v) + rest =~= seq![2u8] + (seq![x] + rest));
            lemma_read_u8(2, seq![x] + rest);
            lemma_read_u8(x, rest);
        },
        MetadataValueView::Timestamp(s) => {
            reveal(parse_text);
            lemma_assoc(seq![3u8], text_bytes(s), rest);
            lemma_read_u8(3, text_bytes(s) + rest);
            lemma_read_text(s, rest);
        },
        MetadataValueView::StringList(items) => {
            reveal(parse_u32);
            let n = u32_bytes(items.len() as u32);
            lemma_assoc(seq![4u8] + n, texts_bytes(items), rest);
            lemma_assoc(seq![4u8], n, texts_bytes(items) + rest);
            lemma_read_u8(4, n + (texts_bytes(items) + rest));
            lemma_read_u32(items.len() as u32, texts_bytes(items) + rest);
            lemma_texts(Seq::empty(), items, rest);
            assert(Seq::<Seq<char>>::empty() + items =~= items);
        },
    }
}

proof fn lemma_attributes_first(attributes: Map<Seq<char>, MetadataValueView>, names: Seq<Seq<char>>)
    requires
        names.len() > 0,
    ensures
        attributes_bytes(attributes, names) == text_bytes(names[0]) + (value_bytes(attributes[names[0]])
            + attributes_bytes(attributes, names.skip(1))),
    decreases names.len(),
{
    let tail = names.skip(1);
    let (x, v) = (text_bytes(names[0]), value_bytes(attributes[names[0]]));
    if names.len() == 1 {
        assert(names.drop_last() =~= Seq::<Seq<char>>::empty());
        assert(tail =~= Seq::<Seq<char>>::empty());
        assert(attributes_bytes(attributes, names) =~= x + (v + attributes_bytes(attributes, tail)));
    } else {
        lemma_attributes_first(attributes, names.drop_last());
        assert(names.drop_last().skip(1) =~= tail.drop_last());
        assert(tail.last() == names.last());
        let m = attributes_bytes(attributes, tail.drop_last());
        let (y, w) = (text_bytes(names.last()), value_bytes(attributes[names.last()]));
        lemma_assoc(x, v + m, y);
        lemma_assoc(v, m, y);
        lemma_assoc(x, v + (m + y), w);
        lemma_assoc(v, m + y, w);
    }
}

proof fn lemma_attributes(
    attributes: Map<Seq<char>, MetadataValueView>,
    names: Seq<Seq<char>>,
    done: Map<Seq<char>, MetadataValueView>,
    rest: Seq<u8>,
)
    requires
        forall|i: int|
            0 <= i < names.len() ==> text_fits(#[trigger] names[i]) && value_fits(attributes[names[i]]),
    ensures
        parse_attributes(done, attributes_bytes(attributes, names) + rest, names.len()) == Ok::<
            (Map<Seq<char>, MetadataValueView>, Seq<u8>),
            IptoPayloadDecodeError,
        >((with_entries(done, attributes, names), rest)),
    decreases names.len(),
{
    if names.len() == 0 {
        assert(attributes_bytes(attributes, names) + rest =~= rest);
    } else {
        let tail = names.skip(1);
        let (x, v, t) = (
            text_bytes(names[0]),
            value_bytes(attributes[names[0]]),
            attributes_bytes(attributes, tail),
        );
        lemma_attributes_first(attributes, names);
        lemma_assoc(x, v + t, rest);
        lemma_assoc(v, t, rest);
        reveal(parse_text);
        lemma_read_text(names[0], v + (t + rest));
        lemma_value(attributes[names[0]], t + rest);
        assert forall|i: int| 0 <= i < tail.len() implies text_fits(#[trigger] tail[i]) && value_fits(
            attributes[tail[i]],
        ) by {
            assert(text_fits(names[i + 1]));
        }
        lemma_attributes(attributes, tail, done.insert(names[0], attributes[names[0]]), rest);
    }
}

spec fn with_entries(
    done: Map<Seq<char>, MetadataValueView>,
    attributes: Map<Seq<char>, MetadataValueView>,
    names: Seq<Seq<char>>,
) -> Map<Seq<char>, MetadataValueView>
    decreases names.len(),
{
    if names.len() == 0 {
        done
    } else {
        with_entries(done.insert(names[0], attributes[names[0]]), attributes, names.skip(1))
    }
}

proof fn lemma_with_entries(
    done: Map<Seq<char>, MetadataValueView>,
    attributes: Map<Seq<char>, MetadataValueView>,
    names: Seq<Seq<char>>,
    k: Seq<char>,
)
    ensures
        with_entries(done, attributes, names).contains_key(k) == (done.contains_key(k) || names.contains(k)),
        names.contains(k) ==> with_entries(done, attributes, names)[k] == attributes[k],
        !names.contains(k) && done.contains_key(k) ==> with_entries(done, attributes, names)[k] == done[k],
    decreases names.len(),
{
    if names.len() > 0 {
        let tail = names.skip(1);
        lemma_with_entries(done.insert(names[0], attributes[names[0]]), attributes, tail, k);
        if names.contains(k) {
            let i = choose|i: int| 0 <= i < names.len() && names[i] == k;
            if i > 0 {
                assert(tail[i - 1] == k);
            }
        }
        if tail.contains(k) {
            let i = choose|i: int| 0 <= i < tail.len() && tail[i] == k;
            assert(names[i + 1] == k);
        }
        if k == names[0] {
            assert(names.contains(k));
        }
    }
}

proof fn lemma_payload_prefix(p: PayloadView, rest: Seq<u8>)
    ensures
        prefix_bytes(p) + rest == text_bytes(p.target) + (u64_bytes(p.shard) + (text_bytes(p.key) + (text_bytes(
            p.mapping_version,
        ) + (u32_bytes(p.attributes.dom().len() as u32) + rest)))),
{
    let (a, b, c, d, e) = (
        text_bytes(p.target),
        u64_bytes(p.shard),
        text_bytes(p.key),
        text_bytes(p.mapping_version),
        u32_bytes(p.attributes.dom().len() as u32),
    );
    lemma_assoc(a + b + c + d, e, rest);
    lemma_assoc(a + b + c, d, e + rest);
    lemma_assoc(a + b, c, d + (e + rest));
    lemma_assoc(a, b, c + (d + (e + rest)));
}

proof fn lemma_text_len(s: Seq<char>)
    ensures
        text_bytes(s).len() == 4 + encode_utf8(s).len(),
{
    reveal(text_bytes);
    lemma_read_u32(encode_utf8(s).len() as u32, Seq::empty());
}

proof fn lemma_texts_fit(items: Seq<Seq<char>>)
    requires
        texts_bytes(items).len() <= u32::MAX,
    ensures
        items.len() <= texts_bytes(items).len(),
        forall|i: int| 0 <= i < items.len() ==> text_fits(#[trigger] items[i]),
    decreases items.len(),
{
    if items.len() > 0 {
        lemma_text_len(items.last());
        lemma_texts_fit(items.drop_last());
        assert forall|i: int| 0 <= i < items.len() implies text_fits(#[trigger] items[i]) by {
            if i < items.len() - 1 {
                assert(items.drop_last()[i] == items[i]);
            }
        }
    }
}

proof fn lemma_value_fits(v: MetadataValueView)
    requires
        value_bytes(v).len() <= u32::MAX,
    ensures
        value_fits(v),
{
    reveal(value_bytes);
    match v {
        MetadataValueView::String(s) => {
            lemma_text_len(s);
        },
        MetadataValueView::Timestamp(s) => {
            lemma_text_len(s);
        },
        MetadataValueView::StringList(items) => {
            lemma_texts_fit(items);
        },
        _ => {},
    }
}

proof fn lemma_attributes_fit(attributes: Map<Seq<char>, MetadataValueView>, names: Seq<Seq<char>>)
    requires
        attributes_bytes(attributes, names).len() <= u32::MAX,
    ensures
        names.len() <= attributes_bytes(attributes, names).len(),
        forall|i: int|
            0 <= i < names.len() ==> text_fits(#[trigger] names[i]) && value_fits(attributes[names[i]]),
    decreases names.len(),
{
    if names.len() > 0 {
        lemma_text_len(names.last());
        lemma_value_fits(attributes[names.last()]);
        lemma_attributes_fit(attributes, names.drop_last());
        assert forall|i: int| 0 <= i < names.len() implies text_fits(#[trigger] names[i]) && value_fits(
            attributes[names[i]],
        ) by {
            if i < names.len() - 1 {
                assert(names.drop_last()[i] == names[i]);
            }
        }
    }
}

/// Where the whole encoding of a payload is short enough for a record, every length in it
/// is written in full.
pub proof fn lemma_payload_fits(p: PayloadView)
    requires
        p.attributes.dom().finite(),
        payload_bytes(p).len() <= u32::MAX,
    ensures
        payload_fits(p),
{
    let names = attribute_names(p.attributes);
    lemma_listing_exists::<IptoAttributeName>(p.attributes.dom());
    lemma_listing_len::<IptoAttributeName>(names, p.attributes.dom());
    lemma_text_len(p.target);
    lemma_text_len(p.key);
    lemma_text_len(p.mapping_version);
    lemma_attributes_fit(p.attributes, names);
    assert forall|k: Seq<char>| #[trigger] p.attributes.contains_key(k) implies text_fits(k) && value_fits(
        p.attributes[k],
    ) by {
        assert(p.attributes.dom().contains(k));
        assert(names.contains(k));
        let i = choose|i: int| 0 <= i < names.len() && names[i] == k;
        assert(text_fits(names[i]));
    }
}

proof fn lemma_payload_read(p: PayloadView, more: Seq<u8>)
    requires
        p.attributes.dom().finite(),
        payload_fits(p),
    ensures
        parse_payload(payload_bytes(p) + more) == if more.len() == 0 {
            Ok::<PayloadView, IptoPayloadDecodeError>(p)
        } else {
            Err(IptoPayloadDecodeError::TrailingBytes(more.len() as usize))
        },
{
    let names = attribute_names(p.attributes);
    let tail = attributes_bytes(p.attributes, names) + more;
    lemma_assoc(prefix_bytes(p), attributes_bytes(p.attributes, names), more);
    lemma_listing_exists::<IptoAttributeName>(p.attributes.dom());
    lemma_listing_len::<IptoAttributeName>(names, p.attributes.dom());
    lemma_payload_prefix(p, tail);
    reveal(parse_text);
    reveal(parse_u64);
    reveal(parse_u32);
    let (b, c, d, e) = (
        u64_bytes(p.shard),
        text_bytes(p.key),
        text_bytes(p.mapping_version),
        u32_bytes(p.attributes.dom().len() as u32),
    );
    lemma_read_text(p.target, b + (c + (d + (e + tail))));
    lemma_read_u64(p.shard, c + (d + (e + tail)));
    lemma_read_text(p.key, d + (e + tail));
    lemma_read_text(p.mapping_version, e + tail);
    lemma_read_u32(p.attributes.dom().len() as u32, tail);
    assert forall|i: int| 0 <= i < names.len() implies text_fits(#[trigger] names[i]) && value_fits(
        p.attributes[names[i]],
    ) by {
        assert(p.attributes.dom().contains(names[i]));
    }
    lemma_attributes(p.attributes, names, Map::empty(), more);
    let all = with_entries(Map::empty(), p.attributes, names);
    assert forall|k: Seq<char>| all.contains_key(k) == p.attributes.contains_key(k) by {
        lemma_with_entries(Map::empty(), p.attributes, names, k);
        if p.attributes.contains_key(k) {
            assert(p.attributes.dom().contains(k));
        }
        if names.contains(k) {
            let i = choose|i: int| 0 <= i < names.len() && names[i] == k;
            assert(p.attributes.dom().contains(names[i]));
        }
    }
    assert forall|k: Seq<char>| all.contains_key(k) implies all[k] == p.attributes[k] by {
        lemma_with_entries(Map::empty(), p.attributes, names, k);
        assert(p.attributes.dom().contains(k));
    }
    assert(all =~= p.attributes);
}

/// Decoding an encoded payload gives the payload back, and so `decode` undoes `encode`,
/// for every payload whose lengths fit into 32 bits.
pub proof fn law_payload_round_trip(p: PayloadView)
    requires
        p.attributes.dom().finite(),
        payload_fits(p),
    ensures
        parse_payload(payload_bytes(p)) == Ok::<PayloadView, IptoPayloadDecodeError>(p),
{
    let none = Seq::<u8>::empty();
    lemma_payload_read(p, none);
    assert(payload_bytes(p) + none =~= payload_bytes(p));
}

/// Two payloads that encode to the same bytes are equal.
pub proof fn law_payload_encoding_injective(p: PayloadView, q: PayloadView)
    requires
        p.attributes.dom().finite(),
        q.attributes.dom().finite(),
        payload_fits(p),
        payload_fits(q),
        payload_bytes(p) == payload_bytes(q),
    ensures
        p == q,
{
    law_payload_round_trip(p);
    law_payload_round_trip(q);
}

/// An encoded payload with more bytes behind it is refused with the number of those bytes.
pub proof fn law_payload_with_more_behind_is_refused(p: PayloadView, more: Seq<u8>)
    requires
        p.attributes.dom().finite(),
        payload_fits(p),
        0 < more.len() <= usize::MAX,
    ensures
        parse_payload(payload_bytes(p) + more) == Err::<PayloadView, IptoPayloadDecodeError>(
            IptoPayloadDecodeError::TrailingBytes(more.len() as usize),
        ),
{
    lemma_payload_read(p, more);
}

/// How reading the first of some bytes relates to reading all of them.
spec fn is_cut<T>(whole: Parsed<T>, part: Parsed<T>, b: Seq<u8>, k: int) -> bool {
    cut_short(whole, part, IptoPayloadDecodeError::UnexpectedEof, b, k)
}

/// The bytes behind what has been read.
spec fn behind<T>(whole: Parsed<T>) -> Seq<u8> {
    whole->Ok_0.1
}

proof fn lemma_cut_u8(b: Seq<u8>, k: int)
    ensures
        is_cut(parse_u8(b), parse_u8(b.take(k)), b, k),
{
    reveal(parse_u8);
    crate::wire::lemma_cut_u8(b, k);
}

proof fn lemma_cut_u32(b: Seq<u8>, k: int)
    ensures
        is_cut(parse_u32(b), parse_u32(b.take(k)), b, k),
{
    reveal(parse_u32);
    crate::wire::lemma_cut_u32(b, k);
}

proof fn lemma_cut_u64(b: Seq<u8>, k: int)
    ensures
        is_cut(parse_u64(b), parse_u64(b.take(k)), b, k),
{
    reveal(parse_u64);
    crate::wire::lemma_cut_u64(b, k);
}

proof fn lemma_cut_text(b: Seq<u8>, k: int)
    ensures
        is_cut(parse_text(b), parse_text(b.take(k)), b, k),
{
    reveal(parse_text);
    crate::wire::lemma_cut_text(b, k);
}

proof fn lemma_cut_texts(done: Seq<Seq<char>>, b: Seq<u8>, count: nat, k: int)
    ensures
        is_cut(parse_texts(done, b, count), parse_texts(done, b.take(k), count), b, k),
    decreases count,
{
    if count > 0 {
        lemma_cut_text(b, k);
        if parse_text(b) is Ok {
            let (s, b1) = parse_text(b)->Ok_0;
            lemma_cut_texts(done.push(s), b1, (count - 1) as nat, k - (b.len() - b1.len()));
        }
    }
}

proof fn lemma_cut_value(b: Seq<u8>, k: int)
    ensures
        is_cut(parse_value(b), parse_value(b.take(k)), b, k),
{
    reveal(parse_value);
    lemma_cut_u8(b, k);
    let b1 = behind(parse_u8(b));
    let k1 = k - (b.len() - b1.len());
    lemma_cut_text(b1, k1);
    lemma_cut_u64(b1, k1);
    lemma_cut_u8(b1, k1);
    lemma_cut_u32(b1, k1);
    let (count, b2) = parse_u32(b1)->Ok_0;
    lemma_cut_texts(Seq::empty(), b2, count as nat, k - (b.len() - b2.len()));
}

proof fn lemma_cut_attributes(done: Map<Seq<char>, MetadataValueView>, b: Seq<u8>, count: nat, k: int)
    ensures
        is_cut(parse_attributes(done, b, count), parse_attributes(done, b.take(k), count), b, k),
    decreases count,
{
    if count > 0 {
        lemma_cut_text(b, k);
        let (name, b1) = parse_text(b)->Ok_0;
        lemma_cut_value(b1, k - (b.len() - b1.len()));
        let (value, b2) = parse_value(b1)->Ok_0;
        lemma_cut_attributes(done.insert(name, value), b2, (count - 1) as nat, k - (b.len() - b2.len()));
    }
}

/// An encoded payload that is cut short, be it to nothing, is found to end too early.
pub proof fn law_cut_payload_ends_too_early(p: PayloadView, k: int)
    requires
        p.attributes.dom().finite(),
        payload_fits(p),
        0 <= k < payload_bytes(p).len(),
    ensures
        parse_payload(payload_bytes(p).take(k)) == Err::<PayloadView, IptoPayloadDecodeError>(
            IptoPayloadDecodeError::UnexpectedEof,
        ),
{
    law_payload_round_trip(p);
    let b = payload_bytes(p);
    lemma_cut_text(b, k);
    let b1 = behind(parse_text(b));
    lemma_cut_u64(b1, k - (b.len() - b1.len()));
    let b2 = behind(parse_u64(b1));
    lemma_cut_text(b2, k - (b.len() - b2.len()));
    let b3 = behind(parse_text(b2));
    lemma_cut_text(b3, k - (b.len() - b3.len()));
    let b4 = behind(parse_text(b3));
    lemma_cut_u32(b4, k - (b.len() - b4.len()));
    let (count, b5) = parse_u32(b4)->Ok_0;
    lemma_cut_attributes(Map::empty(), b5, count as nat, k - (b.len() - b5.len()));
}

proof fn lemma_mapped(
    attributes: Map<Seq<char>, MetadataValueView>,
    fields: Map<Seq<char>, MetadataValueView>,
    names: Seq<Seq<char>>,
    mapping: MappingView,
)
    ensures
        forall|x: Seq<char>| #[trigger]
            mapped(attributes, fields, names, mapping).contains_key(x) ==> attributes.contains_pair(
                x,
                mapped(attributes, fields, names, mapping)[x],
            ) || exists|i: int|
                0 <= i < names.len() && mapping.fields.contains_pair(#[trigger] names[i], x) && mapped(
                    attributes,
                    fields,
                    names,
                    mapping,
                )[x] == fields[names[i]],
        forall|i: int|
            #![trigger names[i]]
            0 <= i < names.len() && mapping.fields.contains_key(names[i]) ==> mapped(
                attributes,
                fields,
                names,
                mapping,
            ).contains_key(mapping.fields[names[i]]),
        forall|i: int|
            #![trigger names[i]]
            0 <= i < names.len() && mapping.fields.contains_key(names[i]) && (forall|j: int|
                i < j < names.len() ==> !mapping.fields.contains_pair(#[trigger] names[j], mapping.fields[names[i]]))
                ==> mapped(attributes, fields, names, mapping)[mapping.fields[names[i]]] == fields[names[i]],
        forall|x: Seq<char>|
            #![trigger attributes.contains_key(x)]
            attributes.contains_key(x) ==> mapped(attributes, fields, names, mapping).contains_key(x),
        forall|x: Seq<char>|
            #![trigger attributes.contains_key(x)]
            attributes.contains_key(x) && (forall|j: int|
                0 <= j < names.len() ==> !mapping.fields.contains_pair(#[trigger] names[j], x)) ==> mapped(
                attributes,
                fields,
                names,
                mapping,
            )[x] == attributes[x],
    decreases names.len(),
{
    if names.len() > 0 {
        let front = names.drop_last();
        let name = names.last();
        let last = names.len() - 1;
        let sofar = mapped(attributes, fields, front, mapping);
        let all = mapped(attributes, fields, names, mapping);
        lemma_mapped(attributes, fields, front, mapping);
        assert(names[last] == name);
        assert forall|x: Seq<char>| #[trigger] all.contains_key(x) implies attributes.contains_pair(x, all[x])
            || exists|i: int|
            0 <= i < names.len() && mapping.fields.contains_pair(#[trigger] names[i], x) && all[x]
                == fields[names[i]] by {
            if mapping.fields.contains_pair(name, x) {
                assert(all[x] == fields[names[last]]);
            } else {
                assert(sofar.contains_key(x) && sofar[x] == all[x]);
                if !attributes.contains_pair(x, sofar[x]) {
                    let i = choose|i: int|
                        0 <= i < front.len() && mapping.fields.contains_pair(#[trigger] front[i], x) && sofar[x]
                            == fields[front[i]];
                    assert(names[i] == front[i]);
                }
            }
        }
        assert forall|i: int|
            #![trigger names[i]]
            0 <= i < names.len() && mapping.fields.contains_key(names[i]) implies all.contains_key(
            mapping.fields[names[i]],
        ) by {
            if i < last {
                assert(front[i] == names[i]);
            }
        }
        assert forall|i: int|
            #![trigger names[i]]
            0 <= i < names.len() && mapping.fields.contains_key(names[i]) && (forall|j: int|
                i < j < names.len() ==> !mapping.fields.contains_pair(
                    #[trigger] names[j],
                    mapping.fields[names[i]],
                )) implies all[mapping.fields[names[i]]] == fields[names[i]] by {
            if i < last {
                assert(front[i] == names[i]);
                assert forall|j: int| i < j < front.len() implies !mapping.fields.contains_pair(
                    #[trigger] front[j],
                    mapping.fields[front[i]],
                ) by {
                    assert(front[j] == names[j]);
                }
                assert(!mapping.fields.contains_pair(names[last], mapping.fields[names[i]]));
            }
        }
        assert forall|x: Seq<char>|
            #![trigger attributes.contains_key(x)]
            attributes.contains_key(x) && (forall|j: int|
                0 <= j < names.len() ==> !mapping.fields.contains_pair(#[trigger] names[j], x)) implies all[x]
            == attributes[x] by {
            assert(!mapping.fields.contains_pair(names[last], x));
            assert forall|j: int| 0 <= j < front.len() implies !mapping.fields.contains_pair(#[trigger] front[j], x) by {
                assert(front[j] == names[j]);
            }
        }
    }
}

/// With relations, the activity of an event is the value of the attribute that says what the
/// data individual was generated by, whatever else is mapped to it.
pub proof fn law_generating_activity_is_kept(
    e: MetadataEventView,
    target: Seq<char>,
    mapping: MappingView,
    activity: Seq<char>,
)
    requires
        e.activity_id == Some(activity),
        mapping.relations_enabled,
    ensures
        payload_of(e, target, mapping).attributes.contains_pair(
            "vannak:relation:wasGeneratedBy"@,
            MetadataValueView::String(activity),
        ),
{
}

/// A payload goes to the target it was made for, under the shard and the idempotency key of
/// its event and the version of the mapping.
pub proof fn law_payload_is_addressed(e: MetadataEventView, target: Seq<char>, mapping: MappingView)
    ensures
        payload_of(e, target, mapping).target == target,
        payload_of(e, target, mapping).shard == e.data_individual_shard_id,
        payload_of(e, target, mapping).key == e.idempotency_key,
        payload_of(e, target, mapping).mapping_version == mapping.version,
{
}

/// A mapped field of the active metadata appears under its attribute with its own value,
/// and so does one of the passive metadata where no active field has the attribute; where
/// several fields of one kind share an attribute, the last in the order of their names
/// counts. The attribute of the relation is set by the relation alone, where there is one.
pub proof fn law_mapped_fields_appear(
    e: MetadataEventView,
    target: Seq<char>,
    mapping: MappingView,
    field: Seq<char>,
)
    requires
        e.active_metadata.dom().finite(),
        e.passive_metadata.dom().finite(),
        mapping.fields.contains_key(field),
        mapping.fields[field] != "vannak:relation:wasGeneratedBy"@ || !mapping.relations_enabled
            || e.activity_id is None,
    ensures
        ({
            let attributes = payload_of(e, target, mapping).attributes;
            let attribute = mapping.fields[field];
            &&& e.active_metadata.contains_key(field) && (forall|g: Seq<char>| #[trigger]
                e.active_metadata.contains_key(g) && mapping.fields.contains_pair(g, attribute) && g != field
                    ==> text_before(g, field)) ==> attributes.contains_pair(attribute, e.active_metadata[field])
            &&& e.passive_metadata.contains_key(field) && (forall|g: Seq<char>| #[trigger]
                e.active_metadata.contains_key(g) ==> !mapping.fields.contains_pair(g, attribute)) && (forall|
                g: Seq<char>,
            | #[trigger]
                e.passive_metadata.contains_key(g) && mapping.fields.contains_pair(g, attribute) && g != field
                    ==> text_before(g, field)) ==> attributes.contains_pair(attribute, e.passive_metadata[field])
        }),
{
    let attribute = mapping.fields[field];
    let passive_names = field_names(e.passive_metadata);
    let active_names = field_names(e.active_metadata);
    let passive = mapped(Map::empty(), e.passive_metadata, passive_names, mapping);
    let both = mapped(passive, e.active_metadata, active_names, mapping);
    crate::ordered::lemma_listing_exists::<MetadataFieldName>(e.passive_metadata.dom());
    crate::ordered::lemma_listing_exists::<MetadataFieldName>(e.active_metadata.dom());
    lemma_mapped(Map::empty(), e.passive_metadata, passive_names, mapping);
    lemma_mapped(passive, e.active_metadata, active_names, mapping);
    if e.active_metadata.contains_key(field) && (forall|g: Seq<char>| #[trigger]
        e.active_metadata.contains_key(g) && mapping.fields.contains_pair(g, attribute) && g != field ==> text_before(
            g,
            field,
        )) {
        lemma_last_of_attribute(e.active_metadata, mapping, field);
        assert(e.active_metadata.dom().contains(field));
        let i = choose|i: int| 0 <= i < active_names.len() && active_names[i] == field;
        assert(both.contains_key(mapping.fields[active_names[i]]));
    }
    if e.passive_metadata.contains_key(field) && (forall|g: Seq<char>| #[trigger]
        e.active_metadata.contains_key(g) ==> !mapping.fields.contains_pair(g, attribute)) && (forall|
        g: Seq<char>,
    | #[trigger]
        e.passive_metadata.contains_key(g) && mapping.fields.contains_pair(g, attribute) && g != field ==> text_before(
            g,
            field,
        )) {
        lemma_last_of_attribute(e.passive_metadata, mapping, field);
        assert(e.passive_metadata.dom().contains(field));
        let i = choose|i: int| 0 <= i < passive_names.len() && passive_names[i] == field;
        assert(passive.contains_key(mapping.fields[passive_names[i]]));
        assert forall|j: int| 0 <= j < active_names.len() implies !mapping.fields.contains_pair(
            #[trigger] active_names[j],
            attribute,
        ) by {
            assert(e.active_metadata.dom().contains(active_names[j]));
            assert(e.active_metadata.contains_key(active_names[j]));
        }
        assert(passive.contains_key(attribute));
        assert(both[attribute] == passive[attribute]);
    }
}

proof fn lemma_last_of_attribute(fields: Map<Seq<char>, MetadataValueView>, mapping: MappingView, field: Seq<char>)
    requires
        fields.dom().finite(),
        fields.contains_key(field),
        mapping.fields.contains_key(field),
        forall|g: Seq<char>| #[trigger]
            fields.contains_key(g) && mapping.fields.contains_pair(g, mapping.fields[field]) && g != field
                ==> text_before(g, field),
    ensures
        forall|i: int, j: int|
            #![trigger field_names(fields)[i], field_names(fields)[j]]
            0 <= i < j < field_names(fields).len() && field_names(fields)[i] == field
                ==> !mapping.fields.contains_pair(field_names(fields)[j], mapping.fields[field]),
{
    let names = field_names(fields);
    crate::ordered::lemma_listing_exists::<MetadataFieldName>(fields.dom());
    assert forall|i: int, j: int|
        #![trigger names[i], names[j]]
        0 <= i < j < names.len() && names[i] == field implies !mapping.fields.contains_pair(
        names[j],
        mapping.fields[field],
    ) by {
        assert(MetadataFieldName::before(names[i], names[j]));
        assert(fields.dom().contains(names[j]));
        assert(fields.contains_key(names[j]));
        if mapping.fields.contains_pair(names[j], mapping.fields[field]) {
            crate::ordered::text_before_irreflexive(field);
            if names[j] != field {
                crate::ordered::text_before_transitive(field, names[j], field);
            }
        }
    }
}

/// Every attribute of a payload comes from somewhere: from the relation, or from a mapped
/// field of the active or of the passive metadata, whose value it has.
pub proof fn law_attributes_come_from_the_event(
    e: MetadataEventView,
    target: Seq<char>,
    mapping: MappingView,
    attribute: Seq<char>,
)
    requires
        e.active_metadata.dom().finite(),
        e.passive_metadata.dom().finite(),
        payload_of(e, target, mapping).attributes.contains_key(attribute),
    ensures
        ({
            let value = payload_of(e, target, mapping).attributes[attribute];
            ||| mapping.relations_enabled && attribute == "vannak:relation:wasGeneratedBy"@ && e.activity_id is Some
                && value == MetadataValueView::String(e.activity_id->0)
            ||| exists|f: Seq<char>| #[trigger]
                mapping.fields.contains_pair(f, attribute) && e.active_metadata.contains_pair(f, value)
            ||| exists|f: Seq<char>| #[trigger]
                mapping.fields.contains_pair(f, attribute) && e.passive_metadata.contains_pair(f, value)
        }),
{
    let passive_names = field_names(e.passive_metadata);
    let active_names = field_names(e.active_metadata);
    let passive = mapped(Map::empty(), e.passive_metadata, passive_names, mapping);
    let both = mapped(passive, e.active_metadata, active_names, mapping);
    crate::ordered::lemma_listing_exists::<MetadataFieldName>(e.passive_metadata.dom());
    crate::ordered::lemma_listing_exists::<MetadataFieldName>(e.active_metadata.dom());
    lemma_mapped(Map::empty(), e.passive_metadata, passive_names, mapping);
    lemma_mapped(passive, e.active_metadata, active_names, mapping);
    let value = payload_of(e, target, mapping).attributes[attribute];
    if !(mapping.relations_enabled && attribute == "vannak:relation:wasGeneratedBy"@ && e.activity_id is Some) {
        assert(both.contains_key(attribute) && both[attribute] == value);
        if passive.contains_pair(attribute, value) {
            let i = choose|i: int|
                0 <= i < passive_names.len() && mapping.fields.contains_pair(#[trigger] passive_names[i], attribute)
                    && passive[attribute] == e.passive_metadata[passive_names[i]];
            assert(e.passive_metadata.dom().contains(passive_names[i]));
            assert(e.passive_metadata.contains_pair(passive_names[i], value));
        } else {
            let i = choose|i: int|
                0 <= i < active_names.len() && mapping.fields.contains_pair(#[trigger] active_names[i], attribute)
                    && both[attribute] == e.active_metadata[active_names[i]];
            assert(e.active_metadata.dom().contains(active_names[i]));
            assert(e.active_metadata.contains_pair(active_names[i], value));
        }
    }
}

/// A payload is written as its target, its shard, its key, the version of its mapping, the
/// number of its attributes and these, in the order of their names, each with its value.
pub proof fn law_payload_layout(p: PayloadView, names: Seq<Seq<char>>, name: Seq<char>)
    ensures
        payload_bytes(p) == text_bytes(p.target) + u64_bytes(p.shard) + text_bytes(p.key) + text_bytes(
            p.mapping_version,
        ) + u32_bytes(p.attributes.dom().len() as u32) + attributes_bytes(p.attributes, attribute_names(p.attributes)),
        attributes_bytes(p.attributes, Seq::empty()) == Seq::<u8>::empty(),
        attributes_bytes(p.attributes, names.push(name)) == attributes_bytes(p.attributes, names) + text_bytes(name)
            + value_bytes(p.attributes[name]),
{
    assert(names.push(name).drop_last() =~= names);
}

/// A value is a byte that says what it is and then the value: a text, a number, a truth
/// value as zero or one, an instant, or the number of texts and these.
pub proof fn law_value_layout(s: Seq<char>, n: i64, items: Seq<Seq<char>>, more: Seq<char>)
    ensures
        value_bytes(MetadataValueView::String(s)) == seq![0u8] + text_bytes(s),
        value_bytes(MetadataValueView::Integer(n)) == seq![1u8] + u64_bytes(n as u64),
        value_bytes(MetadataValueView::Boolean(true)) == seq![2u8, 1u8],
        value_bytes(MetadataValueView::Boolean(false)) == seq![2u8, 0u8],
        value_bytes(MetadataValueView::Timestamp(s)) == seq![3u8] + text_bytes(s),
        value_bytes(MetadataValueView::StringList(items)) == seq![4u8] + u32_bytes(items.len() as u32) + texts_bytes(
            items,
        ),
        texts_bytes(Seq::empty()) == Seq::<u8>::empty(),
        texts_bytes(items.push(more)) == texts_bytes(items) + text_bytes(more),
{
    reveal(value_bytes);
    assert(items.push(more).drop_last() =~= items);
}

/// A byte that stands for no kind of value is refused, and named.
pub proof fn law_unknown_value_tags_are_refused(tag: u8, rest: Seq<u8>)
    requires
        tag > 4,
    ensures
        parse_value(seq![tag] + rest) == Err::<(MetadataValueView, Seq<u8>), _>(
            IptoPayloadDecodeError::InvalidValueTag(tag),
        ),
{
    reveal(parse_u8);
    reveal(parse_value);
    crate::wire::lemma_read_u8(tag, rest);
}

} // verus!
