//! Data-individual provenance model.
//!
//! These types describe metadata about a flowing data item. They are separate from
//! process-monitoring events: process events say an activity ran; data-individual metadata
//! events say what happened to a specific data item.

use vstd::prelude::*;
use vstd::string::StringSliceAdditionalSpecFns;
use crate::hash::{fnv, fnv_update, FNV_OFFSET};
use crate::ingest::EventTimestamp;
use crate::ordered::{
    append_to, appended, duplicate_all, first_n, include_in, included, is_listed, lemma_appended_lists,
    lemma_listing_exists, lemma_looked_up_all, lemma_looked_up_contains, look_up, looked_up, opt_view, rank_str, rank_u64,
    sorted, text_before, text_before_connected, text_before_irreflexive, text_before_transitive, views, Duplicate, Key,
    List, Rank, SortedMap, SortedSet,
};
use crate::process::{ActivityId, EnvironmentId, PipelineId, ProcessInstanceId, TenantId};
use crate::query::{
    ActivityMetadataQuery, DataIndividualMetadataQuery, ProcessMetadataQuery, QueryResult, QueryResultView,
};
use crate::text::{push_text, IntoText};

verus! {

/// Identifier of a data individual.
#[derive(Debug, PartialEq, Eq, PartialOrd, Ord, Hash)]
pub struct DataIndividualId(String);

impl View for DataIndividualId {
    type V = Seq<char>;

    closed spec fn view(&self) -> Seq<char> {
        self.0@
    }
}

impl DataIndividualId {
    /// Wraps a text.
    pub fn new(value: impl IntoText) -> (r: Self)
        ensures
            r@ == value.text(),
    {
        DataIndividualId(value.into_text())
    }

    /// The wrapped text.
    pub fn as_str(&self) -> (r: &str)
        ensures
            r@ == self@,
    {
        self.0.as_str()
    }
}

impl Clone for DataIndividualId {
    fn clone(&self) -> (r: Self)
        ensures
            r == *self,
    {
        DataIndividualId(self.0.clone())
    }
}

impl Duplicate for DataIndividualId {
    fn duplicate(&self) -> (r: Self) {
        self.clone()
    }
}

impl From<&str> for DataIndividualId {
    fn from(value: &str) -> (r: Self)
        ensures
            r@ == value@,
    {
        DataIndividualId(value.to_owned())
    }
}

impl vstd::std_specs::convert::FromSpecImpl<&str> for DataIndividualId {
    open spec fn obeys_from_spec() -> bool {
        false
    }

    open spec fn from_spec(v: &str) -> Self {
        arbitrary()
    }
}

impl From<String> for DataIndividualId {
    fn from(value: String) -> (r: Self)
        ensures
            r@ == value@,
    {
        DataIndividualId(value)
    }
}

impl vstd::std_specs::convert::FromSpecImpl<String> for DataIndividualId {
    open spec fn obeys_from_spec() -> bool {
        false
    }

    open spec fn from_spec(v: String) -> Self {
        arbitrary()
    }
}

impl Key for DataIndividualId {
    open spec fn before(a: Seq<char>, b: Seq<char>) -> bool {
        text_before(a, b)
    }

    proof fn before_irreflexive(a: Seq<char>) {
        text_before_irreflexive(a);
    }

    proof fn before_transitive(a: Seq<char>, b: Seq<char>, c: Seq<char>) {
        text_before_transitive(a, b, c);
    }

    proof fn before_connected(a: Seq<char>, b: Seq<char>) {
        text_before_connected(a, b);
    }

    fn rank(&self, other: &Self) -> (r: Rank) {
        rank_str(self.as_str(), other.as_str())
    }
}

/// Identifier of a metadata event.
#[derive(Debug, PartialEq, Eq, PartialOrd, Ord, Hash)]
pub struct MetadataEventId(String);

impl View for MetadataEventId {
    type V = Seq<char>;

    closed spec fn view(&self) -> Seq<char> {
        self.0@
    }
}

impl MetadataEventId {
    /// Wraps a text.
    pub fn new(value: impl IntoText) -> (r: Self)
        ensures
            r@ == value.text(),
    {
        MetadataEventId(value.into_text())
    }

    /// The wrapped text.
    pub fn as_str(&self) -> (r: &str)
        ensures
            r@ == self@,
    {
        self.0.as_str()
    }
}

impl Clone for MetadataEventId {
    fn clone(&self) -> (r: Self)
        ensures
            r == *self,
    {
        MetadataEventId(self.0.clone())
    }
}

impl Duplicate for MetadataEventId {
    fn duplicate(&self) -> (r: Self) {
        self.clone()
    }
}

impl From<&str> for MetadataEventId {
    fn from(value: &str) -> (r: Self)
        ensures
            r@ == value@,
    {
        MetadataEventId(value.to_owned())
    }
}

impl vstd::std_specs::convert::FromSpecImpl<&str> for MetadataEventId {
    open spec fn obeys_from_spec() -> bool {
        false
    }

    open spec fn from_spec(v: &str) -> Self {
        arbitrary()
    }
}

impl From<String> for MetadataEventId {
    fn from(value: String) -> (r: Self)
        ensures
            r@ == value@,
    {
        MetadataEventId(value)
    }
}

impl vstd::std_specs::convert::FromSpecImpl<String> for MetadataEventId {
    open spec fn obeys_from_spec() -> bool {
        false
    }

    open spec fn from_spec(v: String) -> Self {
        arbitrary()
    }
}

impl Key for MetadataEventId {
    open spec fn before(a: Seq<char>, b: Seq<char>) -> bool {
        text_before(a, b)
    }

    proof fn before_irreflexive(a: Seq<char>) {
        text_before_irreflexive(a);
    }

    proof fn before_transitive(a: Seq<char>, b: Seq<char>, c: Seq<char>) {
        text_before_transitive(a, b, c);
    }

    proof fn before_connected(a: Seq<char>, b: Seq<char>) {
        text_before_connected(a, b);
    }

    fn rank(&self, other: &Self) -> (r: Rank) {
        rank_str(self.as_str(), other.as_str())
    }
}

/// Reference to the payload that a metadata event is about.
#[derive(Debug, PartialEq, Eq, PartialOrd, Ord, Hash)]
pub struct PayloadRef(String);

impl View for PayloadRef {
    type V = Seq<char>;

    closed spec fn view(&self) -> Seq<char> {
        self.0@
    }
}

impl PayloadRef {
    /// Wraps a text.
    pub fn new(value: impl IntoText) -> (r: Self)
        ensures
            r@ == value.text(),
    {
        PayloadRef(value.into_text())
    }

    /// The wrapped text.
    pub fn as_str(&self) -> (r: &str)
        ensures
            r@ == self@,
    {
        self.0.as_str()
    }
}

impl Clone for PayloadRef {
    fn clone(&self) -> (r: Self)
        ensures
            r == *self,
    {
        PayloadRef(self.0.clone())
    }
}

impl Duplicate for PayloadRef {
    fn duplicate(&self) -> (r: Self) {
        self.clone()
    }
}

impl From<&str> for PayloadRef {
    fn from(value: &str) -> (r: Self)
        ensures
            r@ == value@,
    {
        PayloadRef(value.to_owned())
    }
}

impl vstd::std_specs::convert::FromSpecImpl<&str> for PayloadRef {
    open spec fn obeys_from_spec() -> bool {
        false
    }

    open spec fn from_spec(v: &str) -> Self {
        arbitrary()
    }
}

impl From<String> for PayloadRef {
    fn from(value: String) -> (r: Self)
        ensures
            r@ == value@,
    {
        PayloadRef(value)
    }
}

impl vstd::std_specs::convert::FromSpecImpl<String> for PayloadRef {
    open spec fn obeys_from_spec() -> bool {
        false
    }

    open spec fn from_spec(v: String) -> Self {
        arbitrary()
    }
}

impl Key for PayloadRef {
    open spec fn before(a: Seq<char>, b: Seq<char>) -> bool {
        text_before(a, b)
    }

    proof fn before_irreflexive(a: Seq<char>) {
        text_before_irreflexive(a);
    }

    proof fn before_transitive(a: Seq<char>, b: Seq<char>, c: Seq<char>) {
        text_before_transitive(a, b, c);
    }

    proof fn before_connected(a: Seq<char>, b: Seq<char>) {
        text_before_connected(a, b);
    }

    fn rank(&self, other: &Self) -> (r: Rank) {
        rank_str(self.as_str(), other.as_str())
    }
}

/// Name of a plugin.
#[derive(Debug, PartialEq, Eq, PartialOrd, Ord, Hash)]
pub struct PluginName(String);

impl View for PluginName {
    type V = Seq<char>;

    closed spec fn view(&self) -> Seq<char> {
        self.0@
    }
}

impl PluginName {
    /// Wraps a text.
    pub fn new(value: impl IntoText) -> (r: Self)
        ensures
            r@ == value.text(),
    {
        PluginName(value.into_text())
    }

    /// The wrapped text.
    pub fn as_str(&self) -> (r: &str)
        ensures
            r@ == self@,
    {
        self.0.as_str()
    }
}

impl Clone for PluginName {
    fn clone(&self) -> (r: Self)
        ensures
            r == *self,
    {
        PluginName(self.0.clone())
    }
}

impl Duplicate for PluginName {
    fn duplicate(&self) -> (r: Self) {
        self.clone()
    }
}

impl From<&str> for PluginName {
    fn from(value: &str) -> (r: Self)
        ensures
            r@ == value@,
    {
        PluginName(value.to_owned())
    }
}

impl vstd::std_specs::convert::FromSpecImpl<&str> for PluginName {
    open spec fn obeys_from_spec() -> bool {
        false
    }

    open spec fn from_spec(v: &str) -> Self {
        arbitrary()
    }
}

impl From<String> for PluginName {
    fn from(value: String) -> (r: Self)
        ensures
            r@ == value@,
    {
        PluginName(value)
    }
}

impl vstd::std_specs::convert::FromSpecImpl<String> for PluginName {
    open spec fn obeys_from_spec() -> bool {
        false
    }

    open spec fn from_spec(v: String) -> Self {
        arbitrary()
    }
}

impl Key for PluginName {
    open spec fn before(a: Seq<char>, b: Seq<char>) -> bool {
        text_before(a, b)
    }

    proof fn before_irreflexive(a: Seq<char>) {
        text_before_irreflexive(a);
    }

    proof fn before_transitive(a: Seq<char>, b: Seq<char>, c: Seq<char>) {
        text_before_transitive(a, b, c);
    }

    proof fn before_connected(a: Seq<char>, b: Seq<char>) {
        text_before_connected(a, b);
    }

    fn rank(&self, other: &Self) -> (r: Rank) {
        rank_str(self.as_str(), other.as_str())
    }
}

/// Version of a plugin.
#[derive(Debug, PartialEq, Eq, PartialOrd, Ord, Hash)]
pub struct PluginVersion(String);

impl View for PluginVersion {
    type V = Seq<char>;

    closed spec fn view(&self) -> Seq<char> {
        self.0@
    }
}

impl PluginVersion {
    /// Wraps a text.
    pub fn new(value: impl IntoText) -> (r: Self)
        ensures
            r@ == value.text(),
    {
        PluginVersion(value.into_text())
    }

    /// The wrapped text.
    pub fn as_str(&self) -> (r: &str)
        ensures
            r@ == self@,
    {
        self.0.as_str()
    }
}

impl Clone for PluginVersion {
    fn clone(&self) -> (r: Self)
        ensures
            r == *self,
    {
        PluginVersion(self.0.clone())
    }
}

impl Duplicate for PluginVersion {
    fn duplicate(&self) -> (r: Self) {
        self.clone()
    }
}

impl From<&str> for PluginVersion {
    fn from(value: &str) -> (r: Self)
        ensures
            r@ == value@,
    {
        PluginVersion(value.to_owned())
    }
}

impl vstd::std_specs::convert::FromSpecImpl<&str> for PluginVersion {
    open spec fn obeys_from_spec() -> bool {
        false
    }

    open spec fn from_spec(v: &str) -> Self {
        arbitrary()
    }
}

impl From<String> for PluginVersion {
    fn from(value: String) -> (r: Self)
        ensures
            r@ == value@,
    {
        PluginVersion(value)
    }
}

impl vstd::std_specs::convert::FromSpecImpl<String> for PluginVersion {
    open spec fn obeys_from_spec() -> bool {
        false
    }

    open spec fn from_spec(v: String) -> Self {
        arbitrary()
    }
}

impl Key for PluginVersion {
    open spec fn before(a: Seq<char>, b: Seq<char>) -> bool {
        text_before(a, b)
    }

    proof fn before_irreflexive(a: Seq<char>) {
        text_before_irreflexive(a);
    }

    proof fn before_transitive(a: Seq<char>, b: Seq<char>, c: Seq<char>) {
        text_before_transitive(a, b, c);
    }

    proof fn before_connected(a: Seq<char>, b: Seq<char>) {
        text_before_connected(a, b);
    }

    fn rank(&self, other: &Self) -> (r: Rank) {
        rank_str(self.as_str(), other.as_str())
    }
}

/// Key under which a metadata write is done at most once.
#[derive(Debug, PartialEq, Eq, PartialOrd, Ord, Hash)]
pub struct IdempotencyKey(String);

impl View for IdempotencyKey {
    type V = Seq<char>;

    closed spec fn view(&self) -> Seq<char> {
        self.0@
    }
}

impl IdempotencyKey {
    /// Wraps a text.
    pub fn new(value: impl IntoText) -> (r: Self)
        ensures
            r@ == value.text(),
    {
        IdempotencyKey(value.into_text())
    }

    /// The wrapped text.
    pub fn as_str(&self) -> (r: &str)
        ensures
            r@ == self@,
    {
        self.0.as_str()
    }
}

impl Clone for IdempotencyKey {
    fn clone(&self) -> (r: Self)
        ensures
            r == *self,
    {
        IdempotencyKey(self.0.clone())
    }
}

impl Duplicate for IdempotencyKey {
    fn duplicate(&self) -> (r: Self) {
        self.clone()
    }
}

impl From<&str> for IdempotencyKey {
    fn from(value: &str) -> (r: Self)
        ensures
            r@ == value@,
    {
        IdempotencyKey(value.to_owned())
    }
}

impl vstd::std_specs::convert::FromSpecImpl<&str> for IdempotencyKey {
    open spec fn obeys_from_spec() -> bool {
        false
    }

    open spec fn from_spec(v: &str) -> Self {
        arbitrary()
    }
}

impl From<String> for IdempotencyKey {
    fn from(value: String) -> (r: Self)
        ensures
            r@ == value@,
    {
        IdempotencyKey(value)
    }
}

impl vstd::std_specs::convert::FromSpecImpl<String> for IdempotencyKey {
    open spec fn obeys_from_spec() -> bool {
        false
    }

    open spec fn from_spec(v: String) -> Self {
        arbitrary()
    }
}

impl Key for IdempotencyKey {
    open spec fn before(a: Seq<char>, b: Seq<char>) -> bool {
        text_before(a, b)
    }

    proof fn before_irreflexive(a: Seq<char>) {
        text_before_irreflexive(a);
    }

    proof fn before_transitive(a: Seq<char>, b: Seq<char>, c: Seq<char>) {
        text_before_transitive(a, b, c);
    }

    proof fn before_connected(a: Seq<char>, b: Seq<char>) {
        text_before_connected(a, b);
    }

    fn rank(&self, other: &Self) -> (r: Rank) {
        rank_str(self.as_str(), other.as_str())
    }
}

/// Name of a metadata field.
#[derive(Debug, PartialEq, Eq, PartialOrd, Ord, Hash)]
pub struct MetadataFieldName(String);

impl View for MetadataFieldName {
    type V = Seq<char>;

    closed spec fn view(&self) -> Seq<char> {
        self.0@
    }
}

impl MetadataFieldName {
    /// Wraps a text.
    pub fn new(value: impl IntoText) -> (r: Self)
        ensures
            r@ == value.text(),
    {
        MetadataFieldName(value.into_text())
    }

    /// The wrapped text.
    pub fn as_str(&self) -> (r: &str)
        ensures
            r@ == self@,
    {
        self.0.as_str()
    }
}

impl Clone for MetadataFieldName {
    fn clone(&self) -> (r: Self)
        ensures
            r == *self,
    {
        MetadataFieldName(self.0.clone())
    }
}

impl Duplicate for MetadataFieldName {
    fn duplicate(&self) -> (r: Self) {
        self.clone()
    }
}

impl From<&str> for MetadataFieldName {
    fn from(value: &str) -> (r: Self)
        ensures
            r@ == value@,
    {
        MetadataFieldName(value.to_owned())
    }
}

impl vstd::std_specs::convert::FromSpecImpl<&str> for MetadataFieldName {
    open spec fn obeys_from_spec() -> bool {
        false
    }

    open spec fn from_spec(v: &str) -> Self {
        arbitrary()
    }
}

impl From<String> for MetadataFieldName {
    fn from(value: String) -> (r: Self)
        ensures
            r@ == value@,
    {
        MetadataFieldName(value)
    }
}

impl vstd::std_specs::convert::FromSpecImpl<String> for MetadataFieldName {
    open spec fn obeys_from_spec() -> bool {
        false
    }

    open spec fn from_spec(v: String) -> Self {
        arbitrary()
    }
}

impl Key for MetadataFieldName {
    open spec fn before(a: Seq<char>, b: Seq<char>) -> bool {
        text_before(a, b)
    }

    proof fn before_irreflexive(a: Seq<char>) {
        text_before_irreflexive(a);
    }

    proof fn before_transitive(a: Seq<char>, b: Seq<char>, c: Seq<char>) {
        text_before_transitive(a, b, c);
    }

    proof fn before_connected(a: Seq<char>, b: Seq<char>) {
        text_before_connected(a, b);
    }

    fn rank(&self, other: &Self) -> (r: Rank) {
        rank_str(self.as_str(), other.as_str())
    }
}

impl IntoText for MetadataFieldName {
    open spec fn text(&self) -> Seq<char> {
        self@
    }

    fn into_text(self) -> (r: String) {
        self.0
    }
}

/// Domain placement key for durable metadata ownership.
///
/// This is not an executor shard. It selects the Ipto repository instance that owns the
/// durable metadata of a data individual.
#[derive(Debug, Clone, Copy, PartialEq, Eq, PartialOrd, Ord, Hash)]
pub struct DataIndividualShardId(pub u64);

impl View for DataIndividualShardId {
    type V = u64;

    open spec fn view(&self) -> u64 {
        self.0
    }
}

impl Duplicate for DataIndividualShardId {
    fn duplicate(&self) -> (r: Self) {
        *self
    }
}

impl Key for DataIndividualShardId {
    open spec fn before(a: u64, b: u64) -> bool {
        a < b
    }

    proof fn before_irreflexive(a: u64) {
    }

    proof fn before_transitive(a: u64, b: u64, c: u64) {
    }

    proof fn before_connected(a: u64, b: u64) {
    }

    fn rank(&self, other: &Self) -> (r: Rank) {
        rank_u64(self.0, other.0)
    }
}

impl DataIndividualShardId {
    /// Derives a shard from a stable data-individual identity.
    ///
    /// The shard is a deterministic 64-bit hash of the identity, so that shards are spread
    /// over the whole range. Callers may still assign an explicit shard when the placement
    /// key carries business meaning.
    pub fn from_data_individual(data_individual_id: &DataIndividualId) -> (r: Self)
        ensures
            r@ == fnv(vstd::utf8::encode_utf8(data_individual_id@)),
    {
        DataIndividualShardId(fnv_update(FNV_OFFSET, data_individual_id.as_str().as_bytes()))
    }
}

/// Small metadata value representation.
#[derive(Debug, PartialEq, Eq)]
pub enum MetadataValue {
    String(String),
    Integer(i64),
    Boolean(bool),
    Timestamp(EventTimestamp),
    StringList(Vec<String>),
}

/// The view of a metadata value.
pub enum MetadataValueView {
    String(Seq<char>),
    Integer(i64),
    Boolean(bool),
    Timestamp(Seq<char>),
    StringList(Seq<Seq<char>>),
}

impl View for MetadataValue {
    type V = MetadataValueView;

    open spec fn view(&self) -> MetadataValueView {
        match self {
            MetadataValue::String(text) => MetadataValueView::String(text@),
            MetadataValue::Integer(n) => MetadataValueView::Integer(*n),
            MetadataValue::Boolean(b) => MetadataValueView::Boolean(*b),
            MetadataValue::Timestamp(t) => MetadataValueView::Timestamp(t@),
            MetadataValue::StringList(items) => MetadataValueView::StringList(views(items@)),
        }
    }
}

impl MetadataValue {
    /// A text value.
    pub fn string(value: impl IntoText) -> (r: Self)
        ensures
            r@ == MetadataValueView::String(value.text()),
    {
        MetadataValue::String(value.into_text())
    }
}

impl Clone for MetadataValue {
    fn clone(&self) -> (r: Self)
        ensures
            r@ == self@,
    {
        match self {
            MetadataValue::String(text) => MetadataValue::String(text.clone()),
            MetadataValue::Integer(n) => MetadataValue::Integer(*n),
            MetadataValue::Boolean(b) => MetadataValue::Boolean(*b),
            MetadataValue::Timestamp(t) => MetadataValue::Timestamp(t.clone()),
            MetadataValue::StringList(items) => MetadataValue::StringList(duplicate_all(items)),
        }
    }
}

impl Duplicate for MetadataValue {
    fn duplicate(&self) -> (r: Self) {
        self.clone()
    }
}

/// Passive metadata observed at receive and create boundaries.
#[derive(Debug, PartialEq, Eq)]
pub struct PassiveMetadata {
    fields: SortedMap<MetadataFieldName, MetadataValue>,
}

impl View for PassiveMetadata {
    type V = Map<Seq<char>, MetadataValueView>;

    closed spec fn view(&self) -> Map<Seq<char>, MetadataValueView> {
        self.fields@
    }
}

impl PassiveMetadata {
    /// No metadata.
    pub fn new() -> (r: Self)
        ensures
            r@ == Map::<Seq<char>, MetadataValueView>::empty(),
    {
        PassiveMetadata { fields: SortedMap::new() }
    }

    /// The metadata with one field set.
    pub fn insert(self, name: impl IntoText, value: MetadataValue) -> (r: Self)
        ensures
            r@ == self@.insert(name.text(), value@),
    {
        let mut fields = self.fields;
        let _ = fields.insert(MetadataFieldName::new(name), value);
        PassiveMetadata { fields }
    }

    /// The fields in the order of their names.
    pub fn fields(&self) -> (r: &SortedMap<MetadataFieldName, MetadataValue>)
        ensures
            r@ == self@,
    {
        &self.fields
    }
}

impl Default for PassiveMetadata {
    fn default() -> (r: Self)
        ensures
            r@ == Map::<Seq<char>, MetadataValueView>::empty(),
    {
        PassiveMetadata::new()
    }
}

impl Clone for PassiveMetadata {
    fn clone(&self) -> (r: Self)
        ensures
            r@ == self@,
    {
        PassiveMetadata { fields: self.fields.clone() }
    }
}

/// Active metadata produced by transformations, masking, validation and enrichment.
#[derive(Debug, PartialEq, Eq)]
pub struct ActiveMetadata {
    fields: SortedMap<MetadataFieldName, MetadataValue>,
}

impl View for ActiveMetadata {
    type V = Map<Seq<char>, MetadataValueView>;

    closed spec fn view(&self) -> Map<Seq<char>, MetadataValueView> {
        self.fields@
    }
}

impl ActiveMetadata {
    /// No metadata.
    pub fn new() -> (r: Self)
        ensures
            r@ == Map::<Seq<char>, MetadataValueView>::empty(),
    {
        ActiveMetadata { fields: SortedMap::new() }
    }

    /// The metadata with one field set.
    pub fn insert(self, name: impl IntoText, value: MetadataValue) -> (r: Self)
        ensures
            r@ == self@.insert(name.text(), value@),
    {
        let mut fields = self.fields;
        let _ = fields.insert(MetadataFieldName::new(name), value);
        ActiveMetadata { fields }
    }

    /// The fields in the order of their names.
    pub fn fields(&self) -> (r: &SortedMap<MetadataFieldName, MetadataValue>)
        ensures
            r@ == self@,
    {
        &self.fields
    }
}

impl Default for ActiveMetadata {
    fn default() -> (r: Self)
        ensures
            r@ == Map::<Seq<char>, MetadataValueView>::empty(),
    {
        ActiveMetadata::new()
    }
}

impl Clone for ActiveMetadata {
    fn clone(&self) -> (r: Self)
        ensures
            r@ == self@,
    {
        ActiveMetadata { fields: self.fields.clone() }
    }
}

/// What happened to a data item.
#[derive(Debug, PartialEq, Eq)]
pub enum MetadataOperation {
    Created,
    Received,
    Transformed { plugin_name: Option<PluginName>, plugin_version: Option<PluginVersion> },
    Masked { fields: Vec<String> },
    Validated { passed: bool },
    Enriched { source: Option<String> },
    Routed,
    Persisted,
}

/// The view of an operation.
pub enum MetadataOperationView {
    Created,
    Received,
    Transformed { plugin_name: Option<Seq<char>>, plugin_version: Option<Seq<char>> },
    Masked { fields: Seq<Seq<char>> },
    Validated { passed: bool },
    Enriched { source: Option<Seq<char>> },
    Routed,
    Persisted,
}

impl View for MetadataOperation {
    type V = MetadataOperationView;

    open spec fn view(&self) -> MetadataOperationView {
        match self {
            MetadataOperation::Created => MetadataOperationView::Created,
            MetadataOperation::Received => MetadataOperationView::Received,
            MetadataOperation::Transformed { plugin_name, plugin_version } => MetadataOperationView::Transformed {
                plugin_name: opt_view(*plugin_name),
                plugin_version: opt_view(*plugin_version),
            },
            MetadataOperation::Masked { fields } => MetadataOperationView::Masked { fields: views(fields@) },
            MetadataOperation::Validated { passed } => MetadataOperationView::Validated { passed: *passed },
            MetadataOperation::Enriched { source } => MetadataOperationView::Enriched { source: opt_view(*source) },
            MetadataOperation::Routed => MetadataOperationView::Routed,
            MetadataOperation::Persisted => MetadataOperationView::Persisted,
        }
    }
}

impl Clone for MetadataOperation {
    fn clone(&self) -> (r: Self)
        ensures
            r@ == self@,
    {
        match self {
            MetadataOperation::Created => MetadataOperation::Created,
            MetadataOperation::Received => MetadataOperation::Received,
            MetadataOperation::Transformed { plugin_name, plugin_version } => MetadataOperation::Transformed {
                plugin_name: plugin_name.clone(),
                plugin_version: plugin_version.clone(),
            },
            MetadataOperation::Masked { fields } => MetadataOperation::Masked { fields: duplicate_all(fields) },
            MetadataOperation::Validated { passed } => MetadataOperation::Validated { passed: *passed },
            MetadataOperation::Enriched { source } => MetadataOperation::Enriched { source: source.clone() },
            MetadataOperation::Routed => MetadataOperation::Routed,
            MetadataOperation::Persisted => MetadataOperation::Persisted,
        }
    }
}

/// Provenance event for one flowing data item.
#[derive(Debug, PartialEq, Eq)]
pub struct DataIndividualMetadataEvent {
    metadata_event_id: MetadataEventId,
    data_individual_id: DataIndividualId,
    data_individual_shard_id: DataIndividualShardId,
    tenant_id: TenantId,
    environment_id: EnvironmentId,
    pipeline_id: PipelineId,
    process_instance_id: ProcessInstanceId,
    activity_id: Option<ActivityId>,
    timestamp: EventTimestamp,
    operation: MetadataOperation,
    passive_metadata: PassiveMetadata,
    active_metadata: ActiveMetadata,
    source_payload_ref: Option<PayloadRef>,
    idempotency_key: IdempotencyKey,
}

/// The view of a provenance event.
pub struct MetadataEventView {
    pub metadata_event_id: Seq<char>,
    pub data_individual_id: Seq<char>,
    pub data_individual_shard_id: u64,
    pub tenant_id: Seq<char>,
    pub environment_id: Seq<char>,
    pub pipeline_id: Seq<char>,
    pub process_instance_id: Seq<char>,
    pub activity_id: Option<Seq<char>>,
    pub timestamp: Seq<char>,
    pub operation: MetadataOperationView,
    pub passive_metadata: Map<Seq<char>, MetadataValueView>,
    pub active_metadata: Map<Seq<char>, MetadataValueView>,
    pub source_payload_ref: Option<Seq<char>>,
    pub idempotency_key: Seq<char>,
}

impl View for DataIndividualMetadataEvent {
    type V = MetadataEventView;

    closed spec fn view(&self) -> MetadataEventView {
        MetadataEventView {
            metadata_event_id: self.metadata_event_id@,
            data_individual_id: self.data_individual_id@,
            data_individual_shard_id: self.data_individual_shard_id@,
            tenant_id: self.tenant_id@,
            environment_id: self.environment_id@,
            pipeline_id: self.pipeline_id@,
            process_instance_id: self.process_instance_id@,
            activity_id: opt_view(self.activity_id),
            timestamp: self.timestamp@,
            operation: self.operation@,
            passive_metadata: self.passive_metadata@,
            active_metadata: self.active_metadata@,
            source_payload_ref: opt_view(self.source_payload_ref),
            idempotency_key: self.idempotency_key@,
        }
    }
}

impl Clone for DataIndividualMetadataEvent {
    fn clone(&self) -> (r: Self)
        ensures
            r@ == self@,
    {
        DataIndividualMetadataEvent {
            metadata_event_id: self.metadata_event_id.clone(),
            data_individual_id: self.data_individual_id.clone(),
            data_individual_shard_id: self.data_individual_shard_id,
            tenant_id: self.tenant_id.clone(),
            environment_id: self.environment_id.clone(),
            pipeline_id: self.pipeline_id.clone(),
            process_instance_id: self.process_instance_id.clone(),
            activity_id: self.activity_id.clone(),
            timestamp: self.timestamp.clone(),
            operation: self.operation.clone(),
            passive_metadata: self.passive_metadata.clone(),
            active_metadata: self.active_metadata.clone(),
            source_payload_ref: self.source_payload_ref.clone(),
            idempotency_key: self.idempotency_key.clone(),
        }
    }
}

impl Duplicate for DataIndividualMetadataEvent {
    fn duplicate(&self) -> (r: Self) {
        self.clone()
    }
}

/// The key under which the metadata of an event is written once: data individual and
/// event, separated by a colon.
pub open spec fn key_of(data_individual_id: Seq<char>, metadata_event_id: Seq<char>) -> Seq<char> {
    data_individual_id + ":"@ + metadata_event_id
}

impl DataIndividualMetadataEvent {
    /// An event without activity, metadata or payload reference.
    pub fn new(
        metadata_event_id: MetadataEventId,
        data_individual_id: DataIndividualId,
        data_individual_shard_id: DataIndividualShardId,
        tenant_id: TenantId,
        environment_id: EnvironmentId,
        pipeline_id: PipelineId,
        process_instance_id: ProcessInstanceId,
        timestamp: EventTimestamp,
        operation: MetadataOperation,
    ) -> (r: Self)
        ensures
            r@ == (MetadataEventView {
                metadata_event_id: metadata_event_id@,
                data_individual_id: data_individual_id@,
                data_individual_shard_id: data_individual_shard_id@,
                tenant_id: tenant_id@,
                environment_id: environment_id@,
                pipeline_id: pipeline_id@,
                process_instance_id: process_instance_id@,
                activity_id: None,
                timestamp: timestamp@,
                operation: operation@,
                passive_metadata: Map::empty(),
                active_metadata: Map::empty(),
                source_payload_ref: None,
                idempotency_key: key_of(data_individual_id@, metadata_event_id@),
            }),
    {
        let mut key = data_individual_id.as_str().to_owned();
        push_text(&mut key, ":");
        push_text(&mut key, metadata_event_id.as_str());
        DataIndividualMetadataEvent {
            metadata_event_id,
            data_individual_id,
            data_individual_shard_id,
            tenant_id,
            environment_id,
            pipeline_id,
            process_instance_id,
            activity_id: None,
            timestamp,
            operation,
            passive_metadata: PassiveMetadata::new(),
            active_metadata: ActiveMetadata::new(),
            source_payload_ref: None,
            idempotency_key: IdempotencyKey::from(key),
        }
    }

    /// The event with an activity.
    pub fn with_activity_id(self, activity_id: ActivityId) -> (r: Self)
        ensures
            r@ == (MetadataEventView { activity_id: Some(activity_id@), ..self@ }),
    {
        DataIndividualMetadataEvent { activity_id: Some(activity_id), ..self }
    }

    /// The event with passive metadata.
    pub fn with_passive_metadata(self, passive_metadata: PassiveMetadata) -> (r: Self)
        ensures
            r@ == (MetadataEventView { passive_metadata: passive_metadata@, ..self@ }),
    {
        DataIndividualMetadataEvent { passive_metadata, ..self }
    }

    /// The event with active metadata.
    pub fn with_active_metadata(self, active_metadata: ActiveMetadata) -> (r: Self)
        ensures
            r@ == (MetadataEventView { active_metadata: active_metadata@, ..self@ }),
    {
        DataIndividualMetadataEvent { active_metadata, ..self }
    }

    /// The event with a reference to its source payload.
    pub fn with_source_payload_ref(self, source_payload_ref: PayloadRef) -> (r: Self)
        ensures
            r@ == (MetadataEventView { source_payload_ref: Some(source_payload_ref@), ..self@ }),
    {
        DataIndividualMetadataEvent { source_payload_ref: Some(source_payload_ref), ..self }
    }

    /// The metadata event identifier of the event.
    pub fn metadata_event_id(&self) -> (r: &MetadataEventId)
        ensures
            r@ == self@.metadata_event_id,
    {
        &self.metadata_event_id
    }

    /// The data individual identifier of the event.
    pub fn data_individual_id(&self) -> (r: &DataIndividualId)
        ensures
            r@ == self@.data_individual_id,
    {
        &self.data_individual_id
    }

    /// The placement key of the data individual.
    pub fn data_individual_shard_id(&self) -> (r: DataIndividualShardId)
        ensures
            r@ == self@.data_individual_shard_id,
    {
        self.data_individual_shard_id
    }

    /// The tenant identifier of the event.
    pub fn tenant_id(&self) -> (r: &TenantId)
        ensures
            r@ == self@.tenant_id,
    {
        &self.tenant_id
    }

    /// The environment identifier of the event.
    pub fn environment_id(&self) -> (r: &EnvironmentId)
        ensures
            r@ == self@.environment_id,
    {
        &self.environment_id
    }

    /// The pipeline identifier of the event.
    pub fn pipeline_id(&self) -> (r: &PipelineId)
        ensures
            r@ == self@.pipeline_id,
    {
        &self.pipeline_id
    }

    /// The process instance identifier of the event.
    pub fn process_instance_id(&self) -> (r: &ProcessInstanceId)
        ensures
            r@ == self@.process_instance_id,
    {
        &self.process_instance_id
    }

    /// The timestamp of the event.
    pub fn timestamp(&self) -> (r: &EventTimestamp)
        ensures
            r@ == self@.timestamp,
    {
        &self.timestamp
    }

    /// The operation of the event.
    pub fn operation(&self) -> (r: &MetadataOperation)
        ensures
            r@ == self@.operation,
    {
        &self.operation
    }

    /// The passive metadata of the event.
    pub fn passive_metadata(&self) -> (r: &PassiveMetadata)
        ensures
            r@ == self@.passive_metadata,
    {
        &self.passive_metadata
    }

    /// The active metadata of the event.
    pub fn active_metadata(&self) -> (r: &ActiveMetadata)
        ensures
            r@ == self@.active_metadata,
    {
        &self.active_metadata
    }

    /// The idempotency key of the event.
    pub fn idempotency_key(&self) -> (r: &IdempotencyKey)
        ensures
            r@ == self@.idempotency_key,
    {
        &self.idempotency_key
    }

    /// The activity identifier of the event, where it has one.
    pub fn activity_id(&self) -> (r: Option<&ActivityId>)
        ensures
            opt_view(r) == self@.activity_id,
    {
        self.activity_id.as_ref()
    }

    /// The source payload ref of the event, where it has one.
    pub fn source_payload_ref(&self) -> (r: Option<&PayloadRef>)
        ensures
            opt_view(r) == self@.source_payload_ref,
    {
        self.source_payload_ref.as_ref()
    }
}

// ---------------------------------------------------------------------------
// Provenance index
// ---------------------------------------------------------------------------

/// Recent provenance lookup index.
///
/// This is not the durable store of record; Ipto remains the durable metadata owner. The
/// index gives the local service recent answers for common operator questions while
/// metadata writes are still delivered through the durable outbox.
#[derive(Debug)]
pub struct DataProvenanceIndex {
    events_by_idempotency: SortedMap<IdempotencyKey, DataIndividualMetadataEvent>,
    events_by_data_individual: SortedMap<DataIndividualId, List<IdempotencyKey>>,
    events_by_process: SortedMap<ProcessInstanceId, List<IdempotencyKey>>,
    events_by_activity: SortedMap<(ProcessInstanceId, ActivityId), List<IdempotencyKey>>,
    data_individuals_by_process: SortedMap<ProcessInstanceId, SortedSet<DataIndividualId>>,
    data_individuals_by_activity: SortedMap<(ProcessInstanceId, ActivityId), SortedSet<DataIndividualId>>,
}

/// The view of the provenance index.
pub struct ProvenanceView {
    pub events: Map<Seq<char>, MetadataEventView>,
    pub by_data_individual: Map<Seq<char>, Seq<Seq<char>>>,
    pub by_process: Map<Seq<char>, Seq<Seq<char>>>,
    pub by_activity: Map<(Seq<char>, Seq<char>), Seq<Seq<char>>>,
    pub individuals_by_process: Map<Seq<char>, Set<Seq<char>>>,
    pub individuals_by_activity: Map<(Seq<char>, Seq<char>), Set<Seq<char>>>,
}

impl View for DataProvenanceIndex {
    type V = ProvenanceView;

    closed spec fn view(&self) -> ProvenanceView {
        ProvenanceView {
            events: self.events_by_idempotency@,
            by_data_individual: self.events_by_data_individual@,
            by_process: self.events_by_process@,
            by_activity: self.events_by_activity@,
            individuals_by_process: self.data_individuals_by_process@,
            individuals_by_activity: self.data_individuals_by_activity@,
        }
    }
}

/// An index without events.
pub open spec fn empty_provenance() -> ProvenanceView {
    ProvenanceView {
        events: Map::empty(),
        by_data_individual: Map::empty(),
        by_process: Map::empty(),
        by_activity: Map::empty(),
        individuals_by_process: Map::empty(),
        individuals_by_activity: Map::empty(),
    }
}

/// The index after an event: unchanged if it holds an event with the same idempotency
/// key, else with the event under its data individual, its process instance and, where it
/// has one, its activity.
pub open spec fn captured(m: ProvenanceView, e: MetadataEventView) -> ProvenanceView {
    if m.events.contains_key(e.idempotency_key) {
        m
    } else {
        let k = e.idempotency_key;
        ProvenanceView {
            events: m.events.insert(k, e),
            by_data_individual: appended(m.by_data_individual, e.data_individual_id, k),
            by_process: appended(m.by_process, e.process_instance_id, k),
            by_activity: match e.activity_id {
                Some(a) => appended(m.by_activity, (e.process_instance_id, a), k),
                None => m.by_activity,
            },
            individuals_by_process: included(m.individuals_by_process, e.process_instance_id, e.data_individual_id),
            individuals_by_activity: match e.activity_id {
                Some(a) => included(m.individuals_by_activity, (e.process_instance_id, a), e.data_individual_id),
                None => m.individuals_by_activity,
            },
        }
    }
}

/// The events in a list of a lookup table, at most a number of them.
pub open spec fn provenance_answer<K>(m: ProvenanceView, table: Map<K, Seq<Seq<char>>>, key: K, limit: nat) -> Seq<
    MetadataEventView,
> {
    if table.contains_key(key) {
        looked_up(m.events, first_n(table[key], limit))
    } else {
        Seq::empty()
    }
}

/// The data individuals in a set of a lookup table, in order.
pub open spec fn listed_individuals<K>(table: Map<K, Set<Seq<char>>>, key: K) -> Seq<Seq<char>> {
    if table.contains_key(key) {
        sorted::<DataIndividualId>(table[key])
    } else {
        Seq::empty()
    }
}

impl DataProvenanceIndex {
    /// An index without events.
    pub fn new() -> (r: Self)
        ensures
            r@ == empty_provenance(),
    {
        DataProvenanceIndex {
            events_by_idempotency: SortedMap::new(),
            events_by_data_individual: SortedMap::new(),
            events_by_process: SortedMap::new(),
            events_by_activity: SortedMap::new(),
            data_individuals_by_process: SortedMap::new(),
            data_individuals_by_activity: SortedMap::new(),
        }
    }

    /// Takes an event into the index, unless one with the same idempotency key is there.
    pub fn ingest(&mut self, event: DataIndividualMetadataEvent) -> (r: DataProvenanceIngestOutcome)
        ensures
            final(self)@ == captured(old(self)@, event@),
            r == (if old(self)@.events.contains_key(event@.idempotency_key) {
                DataProvenanceIngestOutcome::Duplicate
            } else {
                DataProvenanceIngestOutcome::Accepted
            }),
    {
        if self.events_by_idempotency.contains_key(event.idempotency_key()) {
            return DataProvenanceIngestOutcome::Duplicate;
        }
        let key = event.idempotency_key().clone();
        let data_individual_id = event.data_individual_id().clone();
        let process_instance_id = event.process_instance_id().clone();
        append_to(&mut self.events_by_data_individual, data_individual_id.clone(), key.clone());
        append_to(&mut self.events_by_process, process_instance_id.clone(), key.clone());
        include_in(&mut self.data_individuals_by_process, process_instance_id.clone(), data_individual_id.clone());
        if let Some(activity_id) = event.activity_id() {
            append_to(
                &mut self.events_by_activity,
                (process_instance_id.clone(), activity_id.clone()),
                key.clone(),
            );
            include_in(
                &mut self.data_individuals_by_activity,
                (process_instance_id, activity_id.clone()),
                data_individual_id,
            );
        }
        let _ = self.events_by_idempotency.insert(key, event);
        DataProvenanceIngestOutcome::Accepted
    }

    /// The events of a data individual, in the order in which they came.
    pub fn metadata_for_data_individual(&self, query: &DataIndividualMetadataQuery) -> (r: QueryResult)
        ensures
            r@ == QueryResultView::MetadataEvents(
                provenance_answer(self@, self@.by_data_individual, query.data_individual_id@, query.limit@),
            ),
    {
        let found = match self.events_by_data_individual.get(&query.data_individual_id) {
            Some(keys) => look_up(&self.events_by_idempotency, keys, query.limit.value()),
            None => no_events(),
        };
        QueryResult::MetadataEvents(found)
    }

    /// The events of a process instance, in the order in which they came.
    pub fn metadata_for_process(&self, query: &ProcessMetadataQuery) -> (r: QueryResult)
        ensures
            r@ == QueryResultView::MetadataEvents(
                provenance_answer(self@, self@.by_process, query.process_instance_id@, query.limit@),
            ),
    {
        let found = match self.events_by_process.get(&query.process_instance_id) {
            Some(keys) => look_up(&self.events_by_idempotency, keys, query.limit.value()),
            None => no_events(),
        };
        QueryResult::MetadataEvents(found)
    }

    /// The events of an activity of a process instance, in the order in which they came.
    pub fn metadata_for_activity(&self, query: &ActivityMetadataQuery) -> (r: QueryResult)
        ensures
            r@ == QueryResultView::MetadataEvents(
                provenance_answer(
                    self@,
                    self@.by_activity,
                    (query.process_instance_id@, query.activity_id@),
                    query.limit@,
                ),
            ),
    {
        let key = (query.process_instance_id.clone(), query.activity_id.clone());
        let found = match self.events_by_activity.get(&key) {
            Some(keys) => look_up(&self.events_by_idempotency, keys, query.limit.value()),
            None => no_events(),
        };
        QueryResult::MetadataEvents(found)
    }

    /// The data individuals that events of a process instance were about, in order.
    pub fn data_individuals_for_process(&self, process_instance_id: &ProcessInstanceId) -> (r: Vec<DataIndividualId>)
        ensures
            views(r@) == listed_individuals(self@.individuals_by_process, process_instance_id@),
    {
        match self.data_individuals_by_process.get(process_instance_id) {
            Some(set) => set.to_vec(),
            None => {
                let none: Vec<DataIndividualId> = Vec::new();
                assert(views(none@) =~= Seq::<Seq<char>>::empty());
                none
            },
        }
    }

    /// The data individuals that events of an activity were about, in order.
    pub fn data_individuals_for_activity(&self, process_instance_id: &ProcessInstanceId, activity_id: &ActivityId) -> (r:
        Vec<DataIndividualId>)
        ensures
            views(r@) == listed_individuals(self@.individuals_by_activity, (process_instance_id@, activity_id@)),
    {
        match self.data_individuals_by_activity.get(&(process_instance_id.clone(), activity_id.clone())) {
            Some(set) => set.to_vec(),
            None => {
                let none: Vec<DataIndividualId> = Vec::new();
                assert(views(none@) =~= Seq::<Seq<char>>::empty());
                none
            },
        }
    }

    /// The sizes of the index.
    pub fn snapshot(&self) -> (r: DataProvenanceIndexSnapshot)
        ensures
            r.metadata_event_count == self@.events.len(),
            r.data_individual_count == self@.by_data_individual.len(),
            r.process_instance_count == self@.by_process.len(),
            r.activity_count == self@.by_activity.len(),
    {
        DataProvenanceIndexSnapshot {
            metadata_event_count: self.events_by_idempotency.len(),
            data_individual_count: self.events_by_data_individual.len(),
            process_instance_count: self.events_by_process.len(),
            activity_count: self.events_by_activity.len(),
        }
    }
}

fn no_events() -> (r: Vec<DataIndividualMetadataEvent>)
    ensures
        views(r@) == Seq::<MetadataEventView>::empty(),
{
    let none: Vec<DataIndividualMetadataEvent> = Vec::new();
    assert(views(none@) =~= Seq::<MetadataEventView>::empty());
    none
}

impl Default for DataProvenanceIndex {
    fn default() -> (r: Self)
        ensures
            r@ == empty_provenance(),
    {
        DataProvenanceIndex::new()
    }
}

/// Whether an event was taken into the provenance index.
#[derive(Debug, Clone, Copy, PartialEq, Eq, Structural)]
pub enum DataProvenanceIngestOutcome {
    Accepted,
    Duplicate,
}

/// Sizes of the provenance index.
#[derive(Debug, Clone, Copy, PartialEq, Eq)]
pub struct DataProvenanceIndexSnapshot {
    pub metadata_event_count: usize,
    pub data_individual_count: usize,
    pub process_instance_count: usize,
    pub activity_count: usize,
}

// ---------------------------------------------------------------------------
// Laws
// ---------------------------------------------------------------------------

/// Capturing an event twice is capturing it once.
pub proof fn law_capture_is_idempotent(m: ProvenanceView, e: MetadataEventView)
    ensures
        captured(captured(m, e), e) == captured(m, e),
{
}

/// Every key in the lookup tables names an event of the index that belongs where it is
/// listed.
pub open spec fn provenance_consistent(m: ProvenanceView) -> bool {
    &&& forall|d: Seq<char>, i: int|
        m.by_data_individual.contains_key(d) && 0 <= i < m.by_data_individual[d].len() ==> {
            let k = #[trigger] m.by_data_individual[d][i];
            m.events.contains_key(k) && m.events[k].data_individual_id == d
        }
    &&& forall|p: Seq<char>, i: int|
        m.by_process.contains_key(p) && 0 <= i < m.by_process[p].len() ==> {
            let k = #[trigger] m.by_process[p][i];
            m.events.contains_key(k) && m.events[k].process_instance_id == p
        }
    &&& forall|a: (Seq<char>, Seq<char>), i: int|
        m.by_activity.contains_key(a) && 0 <= i < m.by_activity[a].len() ==> {
            let k = #[trigger] m.by_activity[a][i];
            m.events.contains_key(k) && m.events[k].process_instance_id == a.0 && m.events[k].activity_id == Some(a.1)
        }
}

/// An index without events is consistent, and capturing an event keeps it so.
pub proof fn law_capture_keeps_consistency(m: ProvenanceView, e: MetadataEventView)
    ensures
        provenance_consistent(empty_provenance()),
        provenance_consistent(m) ==> provenance_consistent(captured(m, e)),
{
}

/// A consistent index answers a query for a data individual with events of that data
/// individual only, and leaves none of the listed ones out.
pub proof fn law_data_individual_answer(m: ProvenanceView, d: Seq<char>, limit: nat)
    requires
        provenance_consistent(m),
        m.by_data_individual.contains_key(d),
    ensures
        ({
            let listed = first_n(m.by_data_individual[d], limit);
            let answer = provenance_answer(m, m.by_data_individual, d, limit);
            &&& answer.len() == listed.len()
            &&& answer.len() <= limit
            &&& forall|i: int|
                0 <= i < answer.len() ==> #[trigger] answer[i] == m.events[listed[i]] && answer[i].data_individual_id
                    == d
        }),
{
    let listed = first_n(m.by_data_individual[d], limit);
    assert forall|i: int| 0 <= i < listed.len() implies m.events.contains_key(#[trigger] listed[i])
        && m.events[listed[i]].data_individual_id == d by {
        assert(listed[i] == m.by_data_individual[d][i]);
    }
    lemma_looked_up_all(m.events, listed);
}

/// A captured event is among the answers about its data individual, its process instance
/// and its activity.
pub proof fn law_captured_event_is_listed(m: ProvenanceView, e: MetadataEventView)
    requires
        !m.events.contains_key(e.idempotency_key),
    ensures
        ({
            let after = captured(m, e);
            &&& after.events[e.idempotency_key] == e
            &&& after.by_data_individual[e.data_individual_id].last() == e.idempotency_key
            &&& after.by_process[e.process_instance_id].last() == e.idempotency_key
            &&& after.individuals_by_process[e.process_instance_id].contains(e.data_individual_id)
            &&& e.activity_id matches Some(a) ==> after.by_activity[(e.process_instance_id, a)].last()
                == e.idempotency_key && after.individuals_by_activity[(e.process_instance_id, a)].contains(
                e.data_individual_id,
            )
        }),
{
}

/// Whether an event is listed under its data individual, its process instance and, where
/// it has one, its activity, and its data individual under the last two.
pub open spec fn event_is_listed(m: ProvenanceView, k: Seq<char>) -> bool {
    let e = m.events[k];
    let p = e.process_instance_id;
    let d = e.data_individual_id;
    &&& e.idempotency_key == k
    &&& is_listed(m.by_data_individual, d, k)
    &&& is_listed(m.by_process, p, k)
    &&& m.individuals_by_process.contains_key(p) && m.individuals_by_process[p].contains(d)
    &&& e.activity_id matches Some(a) ==> {
        &&& is_listed(m.by_activity, (p, a), k)
        &&& m.individuals_by_activity.contains_key((p, a)) && m.individuals_by_activity[(p, a)].contains(d)
    }
}

/// Whether every data individual listed under a process instance or an activity is that of
/// an event of it, and whether there are finitely many of them.
pub open spec fn individuals_consistent(m: ProvenanceView) -> bool {
    &&& forall|p: Seq<char>| #[trigger] m.individuals_by_process.contains_key(p) ==> m.individuals_by_process[p].finite()
    &&& forall|a: (Seq<char>, Seq<char>)| #[trigger]
        m.individuals_by_activity.contains_key(a) ==> m.individuals_by_activity[a].finite()
    &&& forall|p: Seq<char>, d: Seq<char>|
        m.individuals_by_process.contains_key(p) && #[trigger] m.individuals_by_process[p].contains(d)
            ==> has_event_of_process(m, p, d)
    &&& forall|a: (Seq<char>, Seq<char>), d: Seq<char>|
        m.individuals_by_activity.contains_key(a) && #[trigger] m.individuals_by_activity[a].contains(d)
            ==> has_event_of_activity(m, a, d)
}

/// Whether the index holds an event of a process instance about a data individual.
pub open spec fn has_event_of_process(m: ProvenanceView, p: Seq<char>, d: Seq<char>) -> bool {
    exists|k: Seq<char>| #[trigger]
        m.events.contains_key(k) && m.events[k].process_instance_id == p && m.events[k].data_individual_id == d
}

/// Whether the index holds an event of an activity about a data individual.
pub open spec fn has_event_of_activity(m: ProvenanceView, a: (Seq<char>, Seq<char>), d: Seq<char>) -> bool {
    exists|k: Seq<char>| #[trigger]
        m.events.contains_key(k) && m.events[k].process_instance_id == a.0 && m.events[k].activity_id == Some(a.1)
            && m.events[k].data_individual_id == d
}

/// Every event of the index is listed everywhere it belongs.
pub open spec fn provenance_complete(m: ProvenanceView) -> bool {
    &&& individuals_consistent(m)
    &&& forall|k: Seq<char>| #[trigger] m.events.contains_key(k) ==> event_is_listed(m, k)
}

/// An index without events is complete, and capturing an event keeps it so.
pub proof fn law_capture_keeps_completeness(m: ProvenanceView, e: MetadataEventView)
    ensures
        provenance_complete(empty_provenance()),
        provenance_complete(m) ==> provenance_complete(captured(m, e)),
{
    if provenance_complete(m) && !m.events.contains_key(e.idempotency_key) {
        let n = captured(m, e);
        let key = e.idempotency_key;
        lemma_appended_lists(m.by_data_individual, e.data_individual_id, key);
        lemma_appended_lists(m.by_process, e.process_instance_id, key);
        if let Some(a) = e.activity_id {
            lemma_appended_lists(m.by_activity, (e.process_instance_id, a), key);
        }
        assert(n.events.contains_key(key));
        assert forall|k: Seq<char>| #[trigger] n.events.contains_key(k) implies event_is_listed(n, k) by {
            if k != key {
                assert(m.events.contains_key(k));
                assert(event_is_listed(m, k));
            }
        }
        assert forall|p: Seq<char>, d: Seq<char>|
            n.individuals_by_process.contains_key(p) && #[trigger] n.individuals_by_process[p].contains(
                d,
            ) implies has_event_of_process(n, p, d) by {
            if m.individuals_by_process.contains_key(p) && m.individuals_by_process[p].contains(d) {
                assert(has_event_of_process(m, p, d));
                let k = choose|k: Seq<char>| #[trigger]
                    m.events.contains_key(k) && m.events[k].process_instance_id == p && m.events[k].data_individual_id
                        == d;
                assert(n.events.contains_key(k) && n.events[k] == m.events[k]);
            }
        }
        assert forall|a: (Seq<char>, Seq<char>), d: Seq<char>|
            n.individuals_by_activity.contains_key(a) && #[trigger] n.individuals_by_activity[a].contains(
                d,
            ) implies has_event_of_activity(n, a, d) by {
            if m.individuals_by_activity.contains_key(a) && m.individuals_by_activity[a].contains(d) {
                assert(has_event_of_activity(m, a, d));
                let k = choose|k: Seq<char>| #[trigger]
                    m.events.contains_key(k) && m.events[k].process_instance_id == a.0 && m.events[k].activity_id
                        == Some(a.1) && m.events[k].data_individual_id == d;
                assert(n.events.contains_key(k) && n.events[k] == m.events[k]);
            }
        }
    }
}

proof fn lemma_provenance_answer<K>(m: ProvenanceView, table: Map<K, Seq<Seq<char>>>, key: K, k: Seq<char>, limit: nat)
    requires
        m.events.contains_key(k),
        is_listed(table, key, k),
        forall|i: int| 0 <= i < table[key].len() ==> m.events.contains_key(#[trigger] table[key][i]),
    ensures
        table[key].len() <= limit ==> provenance_answer(m, table, key, limit).contains(m.events[k]),
        provenance_answer(m, table, key, limit).len() < limit ==> provenance_answer(m, table, key, limit).contains(
            m.events[k],
        ),
{
    let listed = first_n(table[key], limit);
    assert forall|i: int| 0 <= i < listed.len() implies m.events.contains_key(#[trigger] listed[i]) by {
        assert(listed[i] == table[key][i]);
    }
    lemma_looked_up_all(m.events, listed);
    if table[key].len() <= limit {
        assert(listed =~= table[key]);
        lemma_looked_up_contains(m.events, table[key], k);
    }
}

/// A query for the events of a data individual, a process instance or an activity leaves
/// out no event of it, as long as its limit is not reached.
pub proof fn law_metadata_answers_are_complete(m: ProvenanceView, k: Seq<char>, limit: nat)
    requires
        provenance_consistent(m),
        provenance_complete(m),
        m.events.contains_key(k),
    ensures
        ({
            let e = m.events[k];
            let of_individual = provenance_answer(m, m.by_data_individual, e.data_individual_id, limit);
            let of_process = provenance_answer(m, m.by_process, e.process_instance_id, limit);
            &&& m.by_data_individual[e.data_individual_id].len() <= limit ==> of_individual.contains(e)
            &&& of_individual.len() < limit ==> of_individual.contains(e)
            &&& m.by_process[e.process_instance_id].len() <= limit ==> of_process.contains(e)
            &&& of_process.len() < limit ==> of_process.contains(e)
            &&& e.activity_id matches Some(a) ==> {
                let of_activity = provenance_answer(m, m.by_activity, (e.process_instance_id, a), limit);
                &&& m.by_activity[(e.process_instance_id, a)].len() <= limit ==> of_activity.contains(e)
                &&& of_activity.len() < limit ==> of_activity.contains(e)
            }
        }),
{
    let e = m.events[k];
    assert(event_is_listed(m, k));
    lemma_provenance_answer(m, m.by_data_individual, e.data_individual_id, k, limit);
    lemma_provenance_answer(m, m.by_process, e.process_instance_id, k, limit);
    if let Some(a) = e.activity_id {
        lemma_provenance_answer(m, m.by_activity, (e.process_instance_id, a), k, limit);
    }
}

/// The data individuals of a process instance are those of its events: each is listed, and
/// no other.
pub proof fn law_individuals_of_process_are_exact(m: ProvenanceView, p: Seq<char>, d: Seq<char>)
    requires
        provenance_complete(m),
    ensures
        listed_individuals(m.individuals_by_process, p).contains(d) <==> has_event_of_process(m, p, d),
{
    if m.individuals_by_process.contains_key(p) {
        lemma_listing_exists::<DataIndividualId>(m.individuals_by_process[p]);
    }
    if has_event_of_process(m, p, d) {
        let k = choose|k: Seq<char>| #[trigger]
            m.events.contains_key(k) && m.events[k].process_instance_id == p && m.events[k].data_individual_id == d;
        assert(event_is_listed(m, k));
    }
}

/// The data individuals of an activity are those of its events: each is listed, and no
/// other.
pub proof fn law_individuals_of_activity_are_exact(m: ProvenanceView, a: (Seq<char>, Seq<char>), d: Seq<char>)
    requires
        provenance_complete(m),
    ensures
        listed_individuals(m.individuals_by_activity, a).contains(d) <==> has_event_of_activity(m, a, d),
{
    if m.individuals_by_activity.contains_key(a) {
        lemma_listing_exists::<DataIndividualId>(m.individuals_by_activity[a]);
    }
    if has_event_of_activity(m, a, d) {
        let k = choose|k: Seq<char>| #[trigger]
            m.events.contains_key(k) && m.events[k].process_instance_id == a.0 && m.events[k].activity_id == Some(a.1)
                && m.events[k].data_individual_id == d;
        assert(event_is_listed(m, k));
    }
}

/// The index after a row of events was captured by an empty one.
pub open spec fn captured_all(events: Seq<MetadataEventView>) -> ProvenanceView
    decreases events.len(),
{
    if events.len() == 0 {
        empty_provenance()
    } else {
        captured(captured_all(events.drop_last()), events.last())
    }
}

/// Whether an event of a row is accepted: none before it has its idempotency key.
pub open spec fn is_first_capture(events: Seq<MetadataEventView>, i: int) -> bool {
    forall|j: int| 0 <= j < i ==> (#[trigger] events[j]).idempotency_key != events[i].idempotency_key
}

/// Whatever events an index captured, it is consistent and complete, and holds, for each
/// idempotency key, the first event that had it.
pub proof fn law_captured_events_are_kept(events: Seq<MetadataEventView>)
    ensures
        provenance_consistent(captured_all(events)),
        provenance_complete(captured_all(events)),
        forall|i: int|
            0 <= i < events.len() ==> captured_all(events).events.contains_key(
                (#[trigger] events[i]).idempotency_key,
            ),
        forall|i: int|
            0 <= i < events.len() && is_first_capture(events, i) ==> captured_all(events).events[(
            #[trigger] events[i]).idempotency_key] == events[i],
        forall|k: Seq<char>| #[trigger]
            captured_all(events).events.contains_key(k) ==> exists|i: int|
                0 <= i < events.len() && #[trigger] events[i] == captured_all(events).events[k],
    decreases events.len(),
{
    if events.len() == 0 {
        law_capture_keeps_completeness(empty_provenance(), arbitrary());
    } else {
        let before = events.drop_last();
        let e = events.last();
        let m = captured_all(before);
        let n = captured_all(events);
        let last = events.len() - 1;
        law_captured_events_are_kept(before);
        law_capture_keeps_consistency(m, e);
        law_capture_keeps_completeness(m, e);
        assert forall|i: int| 0 <= i < events.len() implies n.events.contains_key(
            (#[trigger] events[i]).idempotency_key,
        ) by {
            if i < last {
                assert(before[i] == events[i]);
            }
        }
        assert forall|i: int| 0 <= i < events.len() && is_first_capture(events, i) implies n.events[(
        #[trigger] events[i]).idempotency_key] == events[i] by {
            if i < last {
                assert(before[i] == events[i]);
                assert(is_first_capture(before, i)) by {
                    assert forall|j: int| 0 <= j < i implies (#[trigger] before[j]).idempotency_key
                        != before[i].idempotency_key by {
                        assert(events[j] == before[j]);
                    }
                }
                assert(m.events.contains_key(before[i].idempotency_key));
            } else if m.events.contains_key(e.idempotency_key) {
                let j = choose|j: int| 0 <= j < before.len() && #[trigger] before[j] == m.events[e.idempotency_key];
                assert(event_is_listed(m, e.idempotency_key));
                assert(events[j] == before[j]);
            }
        }
        assert forall|k: Seq<char>| #[trigger] n.events.contains_key(k) implies exists|i: int|
            0 <= i < events.len() && #[trigger] events[i] == n.events[k] by {
            if m.events.contains_key(k) {
                let i = choose|i: int| 0 <= i < before.len() && #[trigger] before[i] == m.events[k];
                assert(events[i] == before[i]);
            } else {
                assert(events[last] == e);
            }
        }
    }
}

/// The key of an event is its data individual and its identifier with a colon in between, so
/// that two events of one data individual share it only if they have the same identifier.
pub proof fn law_idempotency_keys(data: Seq<char>, a: Seq<char>, b: Seq<char>)
    ensures
        key_of(data, a) == data + ":"@ + a,
        key_of(data, a) == key_of(data, b) <==> a == b,
{
    assert(key_of(data, a).skip((data + ":"@).len() as int) =~= a);
    assert(key_of(data, b).skip((data + ":"@).len() as int) =~= b);
}

/// The shard of a data individual is the 64-bit FNV-1a hash of all bytes of its identifier.
pub proof fn law_shard_is_the_hash_of_the_identity(
    h: spec_fn(Seq<u8>) -> u64,
    id: &DataIndividualId,
    shard: DataIndividualShardId,
)
    requires
        h(Seq::empty()) == 0xcbf2_9ce4_8422_2325u64,
        forall|s: Seq<u8>, b: u8| #[trigger] h(s.push(b)) == (h(s) ^ (b as u64)).wrapping_mul(0x100_0000_01b3u64),
        call_ensures(DataIndividualShardId::from_data_individual, (id,), shard),
    ensures
        shard.0 == h(vstd::utf8::encode_utf8(id@)),
{
    crate::hash::law_fnv_is_a_fold(h, vstd::utf8::encode_utf8(id@));
}

/// Answers come in the order in which the events were captured: the first ones of the list,
/// as many as are wanted and there are.
pub proof fn law_metadata_answers_come_in_order<K>(
    m: ProvenanceView,
    table: Map<K, Seq<Seq<char>>>,
    key: K,
    limit: nat,
)
    requires
        table.contains_key(key),
        forall|i: int| 0 <= i < table[key].len() ==> m.events.contains_key(#[trigger] table[key][i]),
    ensures
        ({
            let answer = provenance_answer(m, table, key, limit);
            &&& answer.len() <= limit && answer.len() <= table[key].len()
            &&& answer.len() == limit || answer.len() == table[key].len()
            &&& forall|i: int| 0 <= i < answer.len() ==> #[trigger] answer[i] == m.events[table[key][i]]
        }),
{
    let listed = first_n(table[key], limit);
    assert forall|i: int| 0 <= i < listed.len() implies m.events.contains_key(#[trigger] listed[i]) by {
        assert(listed[i] == table[key][i]);
    }
    lemma_looked_up_all(m.events, listed);
}

/// An event that is captured is put behind the earlier ones of its data individual, of its
/// process instance and of its activity, and on no other list; one whose key is known changes
/// nothing.
pub proof fn law_capture_appends(m: ProvenanceView, e: MetadataEventView)
    ensures
        m.events.contains_key(e.idempotency_key) ==> captured(m, e) == m,
        !m.events.contains_key(e.idempotency_key) ==> {
            let after = captured(m, e);
            let key = e.idempotency_key;
            let (d, p) = (e.data_individual_id, e.process_instance_id);
            &&& after.events.contains_pair(key, e)
            &&& forall|k: Seq<char>|
                k != key ==> #[trigger] after.events.contains_key(k) == m.events.contains_key(k) && after.events[k]
                    == m.events[k]
            &&& m.by_data_individual.contains_key(d) ==> after.by_data_individual[d] == m.by_data_individual[d].push(key)
            &&& !m.by_data_individual.contains_key(d) ==> after.by_data_individual.contains_pair(d, seq![key])
            &&& forall|x: Seq<char>|
                x != d ==> #[trigger] after.by_data_individual.contains_key(x) == m.by_data_individual.contains_key(x)
                    && after.by_data_individual[x] == m.by_data_individual[x]
            &&& m.by_process.contains_key(p) ==> after.by_process[p] == m.by_process[p].push(key)
            &&& !m.by_process.contains_key(p) ==> after.by_process.contains_pair(p, seq![key])
            &&& forall|x: Seq<char>|
                x != p ==> #[trigger] after.by_process.contains_key(x) == m.by_process.contains_key(x)
                    && after.by_process[x] == m.by_process[x]
            &&& e.activity_id is None ==> after.by_activity == m.by_activity
            &&& e.activity_id matches Some(a) ==> {
                &&& m.by_activity.contains_key((p, a)) ==> after.by_activity[(p, a)] == m.by_activity[(p, a)].push(key)
                &&& !m.by_activity.contains_key((p, a)) ==> after.by_activity.contains_pair((p, a), seq![key])
                &&& forall|x: (Seq<char>, Seq<char>)|
                    x != (p, a) ==> #[trigger] after.by_activity.contains_key(x) == m.by_activity.contains_key(x)
                        && after.by_activity[x] == m.by_activity[x]
            }
        },
{
    let key = e.idempotency_key;
    assert(Seq::<Seq<char>>::empty().push(key) =~= seq![key]);
}

} // verus!
