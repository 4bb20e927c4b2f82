//! Typed references into the metadata graph.

use vstd::prelude::*;
use crate::ordered::{
    opt_view, rank_str, text_before, text_before_connected, text_before_irreflexive,
    text_before_transitive, Duplicate, Key, Rank,
};
use crate::text::IntoText;

verus! {

/// Identifier of a dataset.
#[derive(Debug, PartialEq, Eq, PartialOrd, Ord, Hash)]
pub struct DatasetId(String);

impl View for DatasetId {
    type V = Seq<char>;

    closed spec fn view(&self) -> Seq<char> {
        self.0@
    }
}

impl DatasetId {
    /// Wraps a text.
    pub fn new(value: impl IntoText) -> (r: Self)
        ensures
            r@ == value.text(),
    {
        DatasetId(value.into_text())
    }

    /// The wrapped text.
    pub fn as_str(&self) -> (r: &str)
        ensures
            r@ == self@,
    {
        self.0.as_str()
    }
}

impl Clone for DatasetId {
    fn clone(&self) -> (r: Self)
        ensures
            r == *self,
    {
        DatasetId(self.0.clone())
    }
}

impl Duplicate for DatasetId {
    fn duplicate(&self) -> (r: Self) {
        self.clone()
    }
}

impl From<&str> for DatasetId {
    fn from(value: &str) -> (r: Self)
        ensures
            r@ == value@,
    {
        DatasetId(value.to_owned())
    }
}

impl vstd::std_specs::convert::FromSpecImpl<&str> for DatasetId {
    open spec fn obeys_from_spec() -> bool {
        false
    }

    open spec fn from_spec(v: &str) -> Self {
        arbitrary()
    }
}

impl From<String> for DatasetId {
    fn from(value: String) -> (r: Self)
        ensures
            r@ == value@,
    {
        DatasetId(value)
    }
}

impl vstd::std_specs::convert::FromSpecImpl<String> for DatasetId {
    open spec fn obeys_from_spec() -> bool {
        false
    }

    open spec fn from_spec(v: String) -> Self {
        arbitrary()
    }
}

impl Key for DatasetId {
    open spec fn before(a: Seq<char>, b: Seq<char>) -> bool {
        text_before(a, b)
    }

    proof fn before_irreflexive(a: Seq<char>) {
        text_before_irreflexive(a);
    }

    proof fn before_transitive(a: Seq<char>, b: Seq<char>, c: Seq<char>) {
        text_before_transitive(a, b, c);
    }

    proof fn before_connected(a: Seq<char>, b: Seq<char>) {
        text_before_connected(a, b);
    }

    fn rank(&self, other: &Self) -> (r: Rank) {
        rank_str(self.as_str(), other.as_str())
    }
}

/// Identifier of a schema.
#[derive(Debug, PartialEq, Eq, PartialOrd, Ord, Hash)]
pub struct SchemaId(String);

impl View for SchemaId {
    type V = Seq<char>;

    closed spec fn view(&self) -> Seq<char> {
        self.0@
    }
}

impl SchemaId {
    /// Wraps a text.
    pub fn new(value: impl IntoText) -> (r: Self)
        ensures
            r@ == value.text(),
    {
        SchemaId(value.into_text())
    }

    /// The wrapped text.
    pub fn as_str(&self) -> (r: &str)
        ensures
            r@ == self@,
    {
        self.0.as_str()
    }
}

impl Clone for SchemaId {
    fn clone(&self) -> (r: Self)
        ensures
            r == *self,
    {
        SchemaId(self.0.clone())
    }
}

impl Duplicate for SchemaId {
    fn duplicate(&self) -> (r: Self) {
        self.clone()
    }
}

impl From<&str> for SchemaId {
    fn from(value: &str) -> (r: Self)
        ensures
            r@ == value@,
    {
        SchemaId(value.to_owned())
    }
}

impl vstd::std_specs::convert::FromSpecImpl<&str> for SchemaId {
    open spec fn obeys_from_spec() -> bool {
        false
    }

    open spec fn from_spec(v: &str) -> Self {
        arbitrary()
    }
}

impl From<String> for SchemaId {
    fn from(value: String) -> (r: Self)
        ensures
            r@ == value@,
    {
        SchemaId(value)
    }
}

impl vstd::std_specs::convert::FromSpecImpl<String> for SchemaId {
    open spec fn obeys_from_spec() -> bool {
        false
    }

    open spec fn from_spec(v: String) -> Self {
        arbitrary()
    }
}

impl Key for SchemaId {
    open spec fn before(a: Seq<char>, b: Seq<char>) -> bool {
        text_before(a, b)
    }

    proof fn before_irreflexive(a: Seq<char>) {
        text_before_irreflexive(a);
    }

    proof fn before_transitive(a: Seq<char>, b: Seq<char>, c: Seq<char>) {
        text_before_transitive(a, b, c);
    }

    proof fn before_connected(a: Seq<char>, b: Seq<char>) {
        text_before_connected(a, b);
    }

    fn rank(&self, other: &Self) -> (r: Rank) {
        rank_str(self.as_str(), other.as_str())
    }
}

/// Identifier of a field.
#[derive(Debug, PartialEq, Eq, PartialOrd, Ord, Hash)]
pub struct FieldId(String);

impl View for FieldId {
    type V = Seq<char>;

    closed spec fn view(&self) -> Seq<char> {
        self.0@
    }
}

impl FieldId {
    /// Wraps a text.
    pub fn new(value: impl IntoText) -> (r: Self)
        ensures
            r@ == value.text(),
    {
        FieldId(value.into_text())
    }

    /// The wrapped text.
    pub fn as_str(&self) -> (r: &str)
        ensures
            r@ == self@,
    {
        self.0.as_str()
    }
}

impl Clone for FieldId {
    fn clone(&self) -> (r: Self)
        ensures
            r == *self,
    {
        FieldId(self.0.clone())
    }
}

impl Duplicate for FieldId {
    fn duplicate(&self) -> (r: Self) {
        self.clone()
    }
}

impl From<&str> for FieldId {
    fn from(value: &str) -> (r: Self)
        ensures
            r@ == value@,
    {
        FieldId(value.to_owned())
    }
}

impl vstd::std_specs::convert::FromSpecImpl<&str> for FieldId {
    open spec fn obeys_from_spec() -> bool {
        false
    }

    open spec fn from_spec(v: &str) -> Self {
        arbitrary()
    }
}

impl From<String> for FieldId {
    fn from(value: String) -> (r: Self)
        ensures
            r@ == value@,
    {
        FieldId(value)
    }
}

impl vstd::std_specs::convert::FromSpecImpl<String> for FieldId {
    open spec fn obeys_from_spec() -> bool {
        false
    }

    open spec fn from_spec(v: String) -> Self {
        arbitrary()
    }
}

impl Key for FieldId {
    open spec fn before(a: Seq<char>, b: Seq<char>) -> bool {
        text_before(a, b)
    }

    proof fn before_irreflexive(a: Seq<char>) {
        text_before_irreflexive(a);
    }

    proof fn before_transitive(a: Seq<char>, b: Seq<char>, c: Seq<char>) {
        text_before_transitive(a, b, c);
    }

    proof fn before_connected(a: Seq<char>, b: Seq<char>) {
        text_before_connected(a, b);
    }

    fn rank(&self, other: &Self) -> (r: Rank) {
        rank_str(self.as_str(), other.as_str())
    }
}

/// Identifier of a pipeline definition.
#[derive(Debug, PartialEq, Eq, PartialOrd, Ord, Hash)]
pub struct PipelineDefinitionId(String);

impl View for PipelineDefinitionId {
    type V = Seq<char>;

    closed spec fn view(&self) -> Seq<char> {
        self.0@
    }
}

impl PipelineDefinitionId {
    /// Wraps a text.
    pub fn new(value: impl IntoText) -> (r: Self)
        ensures
            r@ == value.text(),
    {
        PipelineDefinitionId(value.into_text())
    }

    /// The wrapped text.
    pub fn as_str(&self) -> (r: &str)
        ensures
            r@ == self@,
    {
        self.0.as_str()
    }
}

impl Clone for PipelineDefinitionId {
    fn clone(&self) -> (r: Self)
        ensures
            r == *self,
    {
        PipelineDefinitionId(self.0.clone())
    }
}

impl Duplicate for PipelineDefinitionId {
    fn duplicate(&self) -> (r: Self) {
        self.clone()
    }
}

impl From<&str> for PipelineDefinitionId {
    fn from(value: &str) -> (r: Self)
        ensures
            r@ == value@,
    {
        PipelineDefinitionId(value.to_owned())
    }
}

impl vstd::std_specs::convert::FromSpecImpl<&str> for PipelineDefinitionId {
    open spec fn obeys_from_spec() -> bool {
        false
    }

    open spec fn from_spec(v: &str) -> Self {
        arbitrary()
    }
}

impl From<String> for PipelineDefinitionId {
    fn from(value: String) -> (r: Self)
        ensures
            r@ == value@,
    {
        PipelineDefinitionId(value)
    }
}

impl vstd::std_specs::convert::FromSpecImpl<String> for PipelineDefinitionId {
    open spec fn obeys_from_spec() -> bool {
        false
    }

    open spec fn from_spec(v: String) -> Self {
        arbitrary()
    }
}

impl Key for PipelineDefinitionId {
    open spec fn before(a: Seq<char>, b: Seq<char>) -> bool {
        text_before(a, b)
    }

    proof fn before_irreflexive(a: Seq<char>) {
        text_before_irreflexive(a);
    }

    proof fn before_transitive(a: Seq<char>, b: Seq<char>, c: Seq<char>) {
        text_before_transitive(a, b, c);
    }

    proof fn before_connected(a: Seq<char>, b: Seq<char>) {
        text_before_connected(a, b);
    }

    fn rank(&self, other: &Self) -> (r: Rank) {
        rank_str(self.as_str(), other.as_str())
    }
}

/// Identifier of a metadata object.
#[derive(Debug, PartialEq, Eq, PartialOrd, Ord, Hash)]
pub struct MetadataObjectId(String);

impl View for MetadataObjectId {
    type V = Seq<char>;

    closed spec fn view(&self) -> Seq<char> {
        self.0@
    }
}

impl MetadataObjectId {
    /// Wraps a text.
    pub fn new(value: impl IntoText) -> (r: Self)
        ensures
            r@ == value.text(),
    {
        MetadataObjectId(value.into_text())
    }

    /// The wrapped text.
    pub fn as_str(&self) -> (r: &str)
        ensures
            r@ == self@,
    {
        self.0.as_str()
    }
}

impl Clone for MetadataObjectId {
    fn clone(&self) -> (r: Self)
        ensures
            r == *self,
    {
        MetadataObjectId(self.0.clone())
    }
}

impl Duplicate for MetadataObjectId {
    fn duplicate(&self) -> (r: Self) {
        self.clone()
    }
}

impl From<&str> for MetadataObjectId {
    fn from(value: &str) -> (r: Self)
        ensures
            r@ == value@,
    {
        MetadataObjectId(value.to_owned())
    }
}

impl vstd::std_specs::convert::FromSpecImpl<&str> for MetadataObjectId {
    open spec fn obeys_from_spec() -> bool {
        false
    }

    open spec fn from_spec(v: &str) -> Self {
        arbitrary()
    }
}

impl From<String> for MetadataObjectId {
    fn from(value: String) -> (r: Self)
        ensures
            r@ == value@,
    {
        MetadataObjectId(value)
    }
}

impl vstd::std_specs::convert::FromSpecImpl<String> for MetadataObjectId {
    open spec fn obeys_from_spec() -> bool {
        false
    }

    open spec fn from_spec(v: String) -> Self {
        arbitrary()
    }
}

impl Key for MetadataObjectId {
    open spec fn before(a: Seq<char>, b: Seq<char>) -> bool {
        text_before(a, b)
    }

    proof fn before_irreflexive(a: Seq<char>) {
        text_before_irreflexive(a);
    }

    proof fn before_transitive(a: Seq<char>, b: Seq<char>, c: Seq<char>) {
        text_before_transitive(a, b, c);
    }

    proof fn before_connected(a: Seq<char>, b: Seq<char>) {
        text_before_connected(a, b);
    }

    fn rank(&self, other: &Self) -> (r: Rank) {
        rank_str(self.as_str(), other.as_str())
    }
}

/// Identifier of a lineage edge.
#[derive(Debug, PartialEq, Eq, PartialOrd, Ord, Hash)]
pub struct LineageEdgeId(String);

impl View for LineageEdgeId {
    type V = Seq<char>;

    closed spec fn view(&self) -> Seq<char> {
        self.0@
    }
}

impl LineageEdgeId {
    /// Wraps a text.
    pub fn new(value: impl IntoText) -> (r: Self)
        ensures
            r@ == value.text(),
    {
        LineageEdgeId(value.into_text())
    }

    /// The wrapped text.
    pub fn as_str(&self) -> (r: &str)
        ensures
            r@ == self@,
    {
        self.0.as_str()
    }
}

impl Clone for LineageEdgeId {
    fn clone(&self) -> (r: Self)
        ensures
            r == *self,
    {
        LineageEdgeId(self.0.clone())
    }
}

impl Duplicate for LineageEdgeId {
    fn duplicate(&self) -> (r: Self) {
        self.clone()
    }
}

impl From<&str> for LineageEdgeId {
    fn from(value: &str) -> (r: Self)
        ensures
            r@ == value@,
    {
        LineageEdgeId(value.to_owned())
    }
}

impl vstd::std_specs::convert::FromSpecImpl<&str> for LineageEdgeId {
    open spec fn obeys_from_spec() -> bool {
        false
    }

    open spec fn from_spec(v: &str) -> Self {
        arbitrary()
    }
}

impl From<String> for LineageEdgeId {
    fn from(value: String) -> (r: Self)
        ensures
            r@ == value@,
    {
        LineageEdgeId(value)
    }
}

impl vstd::std_specs::convert::FromSpecImpl<String> for LineageEdgeId {
    open spec fn obeys_from_spec() -> bool {
        false
    }

    open spec fn from_spec(v: String) -> Self {
        arbitrary()
    }
}

impl Key for LineageEdgeId {
    open spec fn before(a: Seq<char>, b: Seq<char>) -> bool {
        text_before(a, b)
    }

    proof fn before_irreflexive(a: Seq<char>) {
        text_before_irreflexive(a);
    }

    proof fn before_transitive(a: Seq<char>, b: Seq<char>, c: Seq<char>) {
        text_before_transitive(a, b, c);
    }

    proof fn before_connected(a: Seq<char>, b: Seq<char>) {
        text_before_connected(a, b);
    }

    fn rank(&self, other: &Self) -> (r: Rank) {
        rank_str(self.as_str(), other.as_str())
    }
}

/// Identifier of a data contract.
#[derive(Debug, PartialEq, Eq, PartialOrd, Ord, Hash)]
pub struct DataContractId(String);

impl View for DataContractId {
    type V = Seq<char>;

    closed spec fn view(&self) -> Seq<char> {
        self.0@
    }
}

impl DataContractId {
    /// Wraps a text.
    pub fn new(value: impl IntoText) -> (r: Self)
        ensures
            r@ == value.text(),
    {
        DataContractId(value.into_text())
    }

    /// The wrapped text.
    pub fn as_str(&self) -> (r: &str)
        ensures
            r@ == self@,
    {
        self.0.as_str()
    }
}

impl Clone for DataContractId {
    fn clone(&self) -> (r: Self)
        ensures
            r == *self,
    {
        DataContractId(self.0.clone())
    }
}

impl Duplicate for DataContractId {
    fn duplicate(&self) -> (r: Self) {
        self.clone()
    }
}

impl From<&str> for DataContractId {
    fn from(value: &str) -> (r: Self)
        ensures
            r@ == value@,
    {
        DataContractId(value.to_owned())
    }
}

impl vstd::std_specs::convert::FromSpecImpl<&str> for DataContractId {
    open spec fn obeys_from_spec() -> bool {
        false
    }

    open spec fn from_spec(v: &str) -> Self {
        arbitrary()
    }
}

impl From<String> for DataContractId {
    fn from(value: String) -> (r: Self)
        ensures
            r@ == value@,
    {
        DataContractId(value)
    }
}

impl vstd::std_specs::convert::FromSpecImpl<String> for DataContractId {
    open spec fn obeys_from_spec() -> bool {
        false
    }

    open spec fn from_spec(v: String) -> Self {
        arbitrary()
    }
}

impl Key for DataContractId {
    open spec fn before(a: Seq<char>, b: Seq<char>) -> bool {
        text_before(a, b)
    }

    proof fn before_irreflexive(a: Seq<char>) {
        text_before_irreflexive(a);
    }

    proof fn before_transitive(a: Seq<char>, b: Seq<char>, c: Seq<char>) {
        text_before_transitive(a, b, c);
    }

    proof fn before_connected(a: Seq<char>, b: Seq<char>) {
        text_before_connected(a, b);
    }

    fn rank(&self, other: &Self) -> (r: Rank) {
        rank_str(self.as_str(), other.as_str())
    }
}

/// Identifier of an owner.
#[derive(Debug, PartialEq, Eq, PartialOrd, Ord, Hash)]
pub struct OwnerId(String);

impl View for OwnerId {
    type V = Seq<char>;

    closed spec fn view(&self) -> Seq<char> {
        self.0@
    }
}

impl OwnerId {
    /// Wraps a text.
    pub fn new(value: impl IntoText) -> (r: Self)
        ensures
            r@ == value.text(),
    {
        OwnerId(value.into_text())
    }

    /// The wrapped text.
    pub fn as_str(&self) -> (r: &str)
        ensures
            r@ == self@,
    {
        self.0.as_str()
    }
}

impl Clone for OwnerId {
    fn clone(&self) -> (r: Self)
        ensures
            r == *self,
    {
        OwnerId(self.0.clone())
    }
}

impl Duplicate for OwnerId {
    fn duplicate(&self) -> (r: Self) {
        self.clone()
    }
}

impl From<&str> for OwnerId {
    fn from(value: &str) -> (r: Self)
        ensures
            r@ == value@,
    {
        OwnerId(value.to_owned())
    }
}

impl vstd::std_specs::convert::FromSpecImpl<&str> for OwnerId {
    open spec fn obeys_from_spec() -> bool {
        false
    }

    open spec fn from_spec(v: &str) -> Self {
        arbitrary()
    }
}

impl From<String> for OwnerId {
    fn from(value: String) -> (r: Self)
        ensures
            r@ == value@,
    {
        OwnerId(value)
    }
}

impl vstd::std_specs::convert::FromSpecImpl<String> for OwnerId {
    open spec fn obeys_from_spec() -> bool {
        false
    }

    open spec fn from_spec(v: String) -> Self {
        arbitrary()
    }
}

impl Key for OwnerId {
    open spec fn before(a: Seq<char>, b: Seq<char>) -> bool {
        text_before(a, b)
    }

    proof fn before_irreflexive(a: Seq<char>) {
        text_before_irreflexive(a);
    }

    proof fn before_transitive(a: Seq<char>, b: Seq<char>, c: Seq<char>) {
        text_before_transitive(a, b, c);
    }

    proof fn before_connected(a: Seq<char>, b: Seq<char>) {
        text_before_connected(a, b);
    }

    fn rank(&self, other: &Self) -> (r: Rank) {
        rank_str(self.as_str(), other.as_str())
    }
}

/// Identifier of a classification.
#[derive(Debug, PartialEq, Eq, PartialOrd, Ord, Hash)]
pub struct ClassificationId(String);

impl View for ClassificationId {
    type V = Seq<char>;

    closed spec fn view(&self) -> Seq<char> {
        self.0@
    }
}

impl ClassificationId {
    /// Wraps a text.
    pub fn new(value: impl IntoText) -> (r: Self)
        ensures
            r@ == value.text(),
    {
        ClassificationId(value.into_text())
    }

    /// The wrapped text.
    pub fn as_str(&self) -> (r: &str)
        ensures
            r@ == self@,
    {
        self.0.as_str()
    }
}

impl Clone for ClassificationId {
    fn clone(&self) -> (r: Self)
        ensures
            r == *self,
    {
        ClassificationId(self.0.clone())
    }
}

impl Duplicate for ClassificationId {
    fn duplicate(&self) -> (r: Self) {
        self.clone()
    }
}

impl From<&str> for ClassificationId {
    fn from(value: &str) -> (r: Self)
        ensures
            r@ == value@,
    {
        ClassificationId(value.to_owned())
    }
}

impl vstd::std_specs::convert::FromSpecImpl<&str> for ClassificationId {
    open spec fn obeys_from_spec() -> bool {
        false
    }

    open spec fn from_spec(v: &str) -> Self {
        arbitrary()
    }
}

impl From<String> for ClassificationId {
    fn from(value: String) -> (r: Self)
        ensures
            r@ == value@,
    {
        ClassificationId(value)
    }
}

impl vstd::std_specs::convert::FromSpecImpl<String> for ClassificationId {
    open spec fn obeys_from_spec() -> bool {
        false
    }

    open spec fn from_spec(v: String) -> Self {
        arbitrary()
    }
}

impl Key for ClassificationId {
    open spec fn before(a: Seq<char>, b: Seq<char>) -> bool {
        text_before(a, b)
    }

    proof fn before_irreflexive(a: Seq<char>) {
        text_before_irreflexive(a);
    }

    proof fn before_transitive(a: Seq<char>, b: Seq<char>, c: Seq<char>) {
        text_before_transitive(a, b, c);
    }

    proof fn before_connected(a: Seq<char>, b: Seq<char>) {
        text_before_connected(a, b);
    }

    fn rank(&self, other: &Self) -> (r: Rank) {
        rank_str(self.as_str(), other.as_str())
    }
}

/// Version of a metadata object.
#[derive(Debug, PartialEq, Eq, PartialOrd, Ord, Hash)]
pub struct MetadataVersion(String);

impl View for MetadataVersion {
    type V = Seq<char>;

    closed spec fn view(&self) -> Seq<char> {
        self.0@
    }
}

impl MetadataVersion {
    /// Wraps a text.
    pub fn new(value: impl IntoText) -> (r: Self)
        ensures
            r@ == value.text(),
    {
        MetadataVersion(value.into_text())
    }

    /// The wrapped text.
    pub fn as_str(&self) -> (r: &str)
        ensures
            r@ == self@,
    {
        self.0.as_str()
    }
}

impl Clone for MetadataVersion {
    fn clone(&self) -> (r: Self)
        ensures
            r == *self,
    {
        MetadataVersion(self.0.clone())
    }
}

impl Duplicate for MetadataVersion {
    fn duplicate(&self) -> (r: Self) {
        self.clone()
    }
}

impl From<&str> for MetadataVersion {
    fn from(value: &str) -> (r: Self)
        ensures
            r@ == value@,
    {
        MetadataVersion(value.to_owned())
    }
}

impl vstd::std_specs::convert::FromSpecImpl<&str> for MetadataVersion {
    open spec fn obeys_from_spec() -> bool {
        false
    }

    open spec fn from_spec(v: &str) -> Self {
        arbitrary()
    }
}

impl From<String> for MetadataVersion {
    fn from(value: String) -> (r: Self)
        ensures
            r@ == value@,
    {
        MetadataVersion(value)
    }
}

impl vstd::std_specs::convert::FromSpecImpl<String> for MetadataVersion {
    open spec fn obeys_from_spec() -> bool {
        false
    }

    open spec fn from_spec(v: String) -> Self {
        arbitrary()
    }
}

impl Key for MetadataVersion {
    open spec fn before(a: Seq<char>, b: Seq<char>) -> bool {
        text_before(a, b)
    }

    proof fn before_irreflexive(a: Seq<char>) {
        text_before_irreflexive(a);
    }

    proof fn before_transitive(a: Seq<char>, b: Seq<char>, c: Seq<char>) {
        text_before_transitive(a, b, c);
    }

    proof fn before_connected(a: Seq<char>, b: Seq<char>) {
        text_before_connected(a, b);
    }

    fn rank(&self, other: &Self) -> (r: Rank) {
        rank_str(self.as_str(), other.as_str())
    }
}

/// Typed reference from a process event to the metadata graph.
#[allow(inconsistent_fields)]
#[derive(Debug, PartialEq, Eq, PartialOrd, Ord, Hash)]
pub enum MetadataRef {
    Dataset(DatasetId),
    Schema { id: SchemaId, version: Option<MetadataVersion> },
    Field(FieldId),
    PipelineDefinition { id: PipelineDefinitionId, version: Option<MetadataVersion> },
    Object(MetadataObjectId),
    LineageEdge(LineageEdgeId),
    DataContract(DataContractId),
    Owner(OwnerId),
    Classification(ClassificationId),
}

/// The view of a metadata reference: its variant, the referenced identifier and, for
/// schemas and pipeline definitions, the referenced version.
pub struct MetadataRefView {
    pub variant: int,
    pub id: Seq<char>,
    pub version: Option<Seq<char>>,
}

impl View for MetadataRef {
    type V = MetadataRefView;

    open spec fn view(&self) -> MetadataRefView {
        match self {
            MetadataRef::Dataset(id) => MetadataRefView { variant: 0, id: id@, version: None },
            MetadataRef::Schema { id, version } => MetadataRefView {
                variant: 1,
                id: id@,
                version: opt_view(*version),
            },
            MetadataRef::Field(id) => MetadataRefView { variant: 2, id: id@, version: None },
            MetadataRef::PipelineDefinition { id, version } => MetadataRefView {
                variant: 3,
                id: id@,
                version: opt_view(*version),
            },
            MetadataRef::Object(id) => MetadataRefView { variant: 4, id: id@, version: None },
            MetadataRef::LineageEdge(id) => MetadataRefView { variant: 5, id: id@, version: None },
            MetadataRef::DataContract(id) => MetadataRefView { variant: 6, id: id@, version: None },
            MetadataRef::Owner(id) => MetadataRefView { variant: 7, id: id@, version: None },
            MetadataRef::Classification(id) => MetadataRefView { variant: 8, id: id@, version: None },
        }
    }
}

/// The name of a kind of metadata reference.
pub open spec fn kind_name(variant: int) -> Seq<char> {
    if variant == 0 {
        "dataset"@
    } else if variant == 1 {
        "schema"@
    } else if variant == 2 {
        "field"@
    } else if variant == 3 {
        "pipeline_definition"@
    } else if variant == 4 {
        "object"@
    } else if variant == 5 {
        "lineage_edge"@
    } else if variant == 6 {
        "data_contract"@
    } else if variant == 7 {
        "owner"@
    } else {
        "classification"@
    }
}

impl MetadataRef {
    /// The name of the kind of reference.
    pub fn kind(&self) -> (r: &'static str)
        ensures
            r@ == kind_name(self@.variant),
    {
        match self {
            MetadataRef::Dataset(_) => "dataset",
            MetadataRef::Schema { .. } => "schema",
            MetadataRef::Field(_) => "field",
            MetadataRef::PipelineDefinition { .. } => "pipeline_definition",
            MetadataRef::Object(_) => "object",
            MetadataRef::LineageEdge(_) => "lineage_edge",
            MetadataRef::DataContract(_) => "data_contract",
            MetadataRef::Owner(_) => "owner",
            MetadataRef::Classification(_) => "classification",
        }
    }

    /// The position of the variant among the kinds of references.
    pub fn variant(&self) -> (r: u8)
        ensures
            r == self@.variant,
            r <= 8,
    {
        match self {
            MetadataRef::Dataset(_) => 0,
            MetadataRef::Schema { .. } => 1,
            MetadataRef::Field(_) => 2,
            MetadataRef::PipelineDefinition { .. } => 3,
            MetadataRef::Object(_) => 4,
            MetadataRef::LineageEdge(_) => 5,
            MetadataRef::DataContract(_) => 6,
            MetadataRef::Owner(_) => 7,
            MetadataRef::Classification(_) => 8,
        }
    }

    /// The referenced identifier.
    pub fn id_str(&self) -> (r: &str)
        ensures
            r@ == self@.id,
    {
        match self {
            MetadataRef::Dataset(id) => id.as_str(),
            MetadataRef::Schema { id, .. } => id.as_str(),
            MetadataRef::Field(id) => id.as_str(),
            MetadataRef::PipelineDefinition { id, .. } => id.as_str(),
            MetadataRef::Object(id) => id.as_str(),
            MetadataRef::LineageEdge(id) => id.as_str(),
            MetadataRef::DataContract(id) => id.as_str(),
            MetadataRef::Owner(id) => id.as_str(),
            MetadataRef::Classification(id) => id.as_str(),
        }
    }

    /// The referenced version.
    pub fn version_str(&self) -> (r: Option<&str>)
        ensures
            opt_view(r) == self@.version,
    {
        match self {
            MetadataRef::Schema { version: Some(v), .. } => Some(v.as_str()),
            MetadataRef::PipelineDefinition { version: Some(v), .. } => Some(v.as_str()),
            _ => None,
        }
    }
}

impl Clone for MetadataRef {
    fn clone(&self) -> (r: Self)
        ensures
            r@ == self@,
    {
        match self {
            MetadataRef::Dataset(id) => MetadataRef::Dataset(id.clone()),
            MetadataRef::Schema { id, version } => MetadataRef::Schema {
                id: id.clone(),
                version: version.clone(),
            },
            MetadataRef::Field(id) => MetadataRef::Field(id.clone()),
            MetadataRef::PipelineDefinition { id, version } => MetadataRef::PipelineDefinition {
                id: id.clone(),
                version: version.clone(),
            },
            MetadataRef::Object(id) => MetadataRef::Object(id.clone()),
            MetadataRef::LineageEdge(id) => MetadataRef::LineageEdge(id.clone()),
            MetadataRef::DataContract(id) => MetadataRef::DataContract(id.clone()),
            MetadataRef::Owner(id) => MetadataRef::Owner(id.clone()),
            MetadataRef::Classification(id) => MetadataRef::Classification(id.clone()),
        }
    }
}

impl Duplicate for MetadataRef {
    fn duplicate(&self) -> (r: Self) {
        self.clone()
    }
}

/// A missing version comes before a present one.
pub open spec fn version_before(a: Option<Seq<char>>, b: Option<Seq<char>>) -> bool {
    match (a, b) {
        (None, Some(_)) => true,
        (Some(x), Some(y)) => text_before(x, y),
        _ => false,
    }
}

/// References are ordered by variant, then by identifier, then by version.
impl Key for MetadataRef {
    open spec fn before(a: MetadataRefView, b: MetadataRefView) -> bool {
        ||| a.variant < b.variant
        ||| a.variant == b.variant && text_before(a.id, b.id)
        ||| a.variant == b.variant && a.id == b.id && version_before(a.version, b.version)
    }

    proof fn before_irreflexive(a: MetadataRefView) {
        text_before_irreflexive(a.id);
        if a.version is Some {
            text_before_irreflexive(a.version->0);
        }
    }

    proof fn before_transitive(a: MetadataRefView, b: MetadataRefView, c: MetadataRefView) {
        if text_before(a.id, b.id) && text_before(b.id, c.id) {
            text_before_transitive(a.id, b.id, c.id);
        }
        if a.version is Some && b.version is Some && c.version is Some && version_before(a.version, b.version)
            && version_before(b.version, c.version) {
            text_before_transitive(a.version->0, b.version->0, c.version->0);
        }
    }

    proof fn before_connected(a: MetadataRefView, b: MetadataRefView) {
        text_before_connected(a.id, b.id);
        if a.version is Some && b.version is Some {
            text_before_connected(a.version->0, b.version->0);
        }
    }

    fn rank(&self, other: &Self) -> (r: Rank) {
        let x: u8 = self.variant();
        let y: u8 = other.variant();
        if x < y {
            return Rank::Before;
        }
        if y < x {
            return Rank::After;
        }
        match rank_str(self.id_str(), other.id_str()) {
            Rank::Before => Rank::Before,
            Rank::After => Rank::After,
            Rank::Same => {
                match (self.version_str(), other.version_str()) {
                    (None, None) => Rank::Same,
                    (None, Some(_)) => Rank::Before,
                    (Some(_), None) => Rank::After,
                    (Some(a), Some(b)) => rank_str(a, b),
                }
            },
        }
    }
}

/// Whether a list holds a reference.
pub fn contains_ref(refs: &Vec<MetadataRef>, wanted: &MetadataRef) -> (r: bool)
    ensures
        r == crate::ordered::views(refs@).contains(wanted@),
{
    let mut i: usize = 0;
    while i < refs.len()
        invariant
            i <= refs.len(),
            forall|j: int| 0 <= j < i ==> refs@[j]@ != wanted@,
        decreases refs.len() - i,
    {
        match refs[i].rank(wanted) {
            Rank::Same => {
                assert(crate::ordered::views(refs@)[i as int] == wanted@);
                return true;
            },
            _ => {
                proof {
                    MetadataRef::before_irreflexive(wanted@);
                }
            },
        }
        i += 1;
    }
    false
}

// ---------------------------------------------------------------------------
// Laws
// ---------------------------------------------------------------------------

/// A reference is told apart by what it refers to, keeps its identifier, and has a version
/// only where it is to a schema or to the definition of a pipeline; its kind has the name of
/// what it refers to.
pub proof fn law_references(r: MetadataRef)
    ensures
        r matches MetadataRef::Dataset(id) ==> r@.variant == 0 && r@.id == id@ && r@.version is None && kind_name(
            r@.variant,
        ) == "dataset"@,
        r matches MetadataRef::Schema { id, version } ==> r@.variant == 1 && r@.id == id@ && (version matches Some(v)
            ==> r@.version == Some(v@)) && (version is None ==> r@.version is None) && kind_name(r@.variant) == "schema"@,
        r matches MetadataRef::Field(id) ==> r@.variant == 2 && r@.id == id@ && r@.version is None && kind_name(
            r@.variant,
        ) == "field"@,
        r matches MetadataRef::PipelineDefinition { id, version } ==> r@.variant == 3 && r@.id == id@ && (version
            matches Some(v) ==> r@.version == Some(v@)) && (version is None ==> r@.version is None) && kind_name(
            r@.variant,
        ) == "pipeline_definition"@,
        r matches MetadataRef::Object(id) ==> r@.variant == 4 && r@.id == id@ && r@.version is None && kind_name(
            r@.variant,
        ) == "object"@,
        r matches MetadataRef::LineageEdge(id) ==> r@.variant == 5 && r@.id == id@ && r@.version is None && kind_name(
            r@.variant,
        ) == "lineage_edge"@,
        r matches MetadataRef::DataContract(id) ==> r@.variant == 6 && r@.id == id@ && r@.version is None && kind_name(
            r@.variant,
        ) == "data_contract"@,
        r matches MetadataRef::Owner(id) ==> r@.variant == 7 && r@.id == id@ && r@.version is None && kind_name(
            r@.variant,
        ) == "owner"@,
        r matches MetadataRef::Classification(id) ==> r@.variant == 8 && r@.id == id@ && r@.version is None && kind_name(
            r@.variant,
        ) == "classification"@,
{
}

/// References are ordered by what they refer to, then by identifier, then by version, one
/// without a version first.
pub proof fn law_reference_order(a: MetadataRefView, b: MetadataRefView)
    ensures
        a.variant < b.variant ==> MetadataRef::before(a, b) && !MetadataRef::before(b, a),
        a.variant == b.variant && text_before(a.id, b.id) ==> MetadataRef::before(a, b),
        a.variant == b.variant && a.id == b.id && a.version is None && b.version is Some ==> MetadataRef::before(a, b)
            && !MetadataRef::before(b, a),
        a.variant == b.variant && a.id == b.id && a.version is Some && b.version is Some ==> (MetadataRef::before(a, b)
            <==> text_before(a.version->0, b.version->0)),
{
    text_before_irreflexive(a.id);
}

} // verus!
