//! Process identities and the reducer that folds process events into instance state.

use vstd::prelude::*;
use crate::ingest::{EventTimestamp, PipelineEvent, PipelineEventView};
use crate::metadata::{contains_ref, MetadataRef, MetadataRefView};
use crate::ordered::{
    duplicate_all, opt_view, rank_str, text_before, text_before_connected, text_before_irreflexive,
    text_before_transitive, views, Duplicate, Key, Rank, SortedMap,
};
use crate::text::IntoText;
use crate::timestamp::duration_between;

verus! {

/// Identifier of a tenant.
#[derive(Debug, PartialEq, Eq, PartialOrd, Ord, Hash)]
pub struct TenantId(String);

impl View for TenantId {
    type V = Seq<char>;

    closed spec fn view(&self) -> Seq<char> {
        self.0@
    }
}

impl TenantId {
    /// Wraps a text.
    pub fn new(value: impl IntoText) -> (r: Self)
        ensures
            r@ == value.text(),
    {
        TenantId(value.into_text())
    }

    /// The wrapped text.
    pub fn as_str(&self) -> (r: &str)
        ensures
            r@ == self@,
    {
        self.0.as_str()
    }
}

impl Clone for TenantId {
    fn clone(&self) -> (r: Self)
        ensures
            r == *self,
    {
        TenantId(self.0.clone())
    }
}

impl Duplicate for TenantId {
    fn duplicate(&self) -> (r: Self) {
        self.clone()
    }
}

impl From<&str> for TenantId {
    fn from(value: &str) -> (r: Self)
        ensures
            r@ == value@,
    {
        TenantId(value.to_owned())
    }
}

impl vstd::std_specs::convert::FromSpecImpl<&str> for TenantId {
    open spec fn obeys_from_spec() -> bool {
        false
    }

    open spec fn from_spec(v: &str) -> Self {
        arbitrary()
    }
}

impl From<String> for TenantId {
    fn from(value: String) -> (r: Self)
        ensures
            r@ == value@,
    {
        TenantId(value)
    }
}

impl vstd::std_specs::convert::FromSpecImpl<String> for TenantId {
    open spec fn obeys_from_spec() -> bool {
        false
    }

    open spec fn from_spec(v: String) -> Self {
        arbitrary()
    }
}

impl Key for TenantId {
    open spec fn before(a: Seq<char>, b: Seq<char>) -> bool {
        text_before(a, b)
    }

    proof fn before_irreflexive(a: Seq<char>) {
        text_before_irreflexive(a);
    }

    proof fn before_transitive(a: Seq<char>, b: Seq<char>, c: Seq<char>) {
        text_before_transitive(a, b, c);
    }

    proof fn before_connected(a: Seq<char>, b: Seq<char>) {
        text_before_connected(a, b);
    }

    fn rank(&self, other: &Self) -> (r: Rank) {
        rank_str(self.as_str(), other.as_str())
    }
}

/// Identifier of an environment.
#[derive(Debug, PartialEq, Eq, PartialOrd, Ord, Hash)]
pub struct EnvironmentId(String);

impl View for EnvironmentId {
    type V = Seq<char>;

    closed spec fn view(&self) -> Seq<char> {
        self.0@
    }
}

impl EnvironmentId {
    /// Wraps a text.
    pub fn new(value: impl IntoText) -> (r: Self)
        ensures
            r@ == value.text(),
    {
        EnvironmentId(value.into_text())
    }

    /// The wrapped text.
    pub fn as_str(&self) -> (r: &str)
        ensures
            r@ == self@,
    {
        self.0.as_str()
    }
}

impl Clone for EnvironmentId {
    fn clone(&self) -> (r: Self)
        ensures
            r == *self,
    {
        EnvironmentId(self.0.clone())
    }
}

impl Duplicate for EnvironmentId {
    fn duplicate(&self) -> (r: Self) {
        self.clone()
    }
}

impl From<&str> for EnvironmentId {
    fn from(value: &str) -> (r: Self)
        ensures
            r@ == value@,
    {
        EnvironmentId(value.to_owned())
    }
}

impl vstd::std_specs::convert::FromSpecImpl<&str> for EnvironmentId {
    open spec fn obeys_from_spec() -> bool {
        false
    }

    open spec fn from_spec(v: &str) -> Self {
        arbitrary()
    }
}

impl From<String> for EnvironmentId {
    fn from(value: String) -> (r: Self)
        ensures
            r@ == value@,
    {
        EnvironmentId(value)
    }
}

impl vstd::std_specs::convert::FromSpecImpl<String> for EnvironmentId {
    open spec fn obeys_from_spec() -> bool {
        false
    }

    open spec fn from_spec(v: String) -> Self {
        arbitrary()
    }
}

impl Key for EnvironmentId {
    open spec fn before(a: Seq<char>, b: Seq<char>) -> bool {
        text_before(a, b)
    }

    proof fn before_irreflexive(a: Seq<char>) {
        text_before_irreflexive(a);
    }

    proof fn before_transitive(a: Seq<char>, b: Seq<char>, c: Seq<char>) {
        text_before_transitive(a, b, c);
    }

    proof fn before_connected(a: Seq<char>, b: Seq<char>) {
        text_before_connected(a, b);
    }

    fn rank(&self, other: &Self) -> (r: Rank) {
        rank_str(self.as_str(), other.as_str())
    }
}

/// Identifier of a pipeline.
#[derive(Debug, PartialEq, Eq, PartialOrd, Ord, Hash)]
pub struct PipelineId(String);

impl View for PipelineId {
    type V = Seq<char>;

    closed spec fn view(&self) -> Seq<char> {
        self.0@
    }
}

impl PipelineId {
    /// Wraps a text.
    pub fn new(value: impl IntoText) -> (r: Self)
        ensures
            r@ == value.text(),
    {
        PipelineId(value.into_text())
    }

    /// The wrapped text.
    pub fn as_str(&self) -> (r: &str)
        ensures
            r@ == self@,
    {
        self.0.as_str()
    }
}

impl Clone for PipelineId {
    fn clone(&self) -> (r: Self)
        ensures
            r == *self,
    {
        PipelineId(self.0.clone())
    }
}

impl Duplicate for PipelineId {
    fn duplicate(&self) -> (r: Self) {
        self.clone()
    }
}

impl From<&str> for PipelineId {
    fn from(value: &str) -> (r: Self)
        ensures
            r@ == value@,
    {
        PipelineId(value.to_owned())
    }
}

impl vstd::std_specs::convert::FromSpecImpl<&str> for PipelineId {
    open spec fn obeys_from_spec() -> bool {
        false
    }

    open spec fn from_spec(v: &str) -> Self {
        arbitrary()
    }
}

impl From<String> for PipelineId {
    fn from(value: String) -> (r: Self)
        ensures
            r@ == value@,
    {
        PipelineId(value)
    }
}

impl vstd::std_specs::convert::FromSpecImpl<String> for PipelineId {
    open spec fn obeys_from_spec() -> bool {
        false
    }

    open spec fn from_spec(v: String) -> Self {
        arbitrary()
    }
}

impl Key for PipelineId {
    open spec fn before(a: Seq<char>, b: Seq<char>) -> bool {
        text_before(a, b)
    }

    proof fn before_irreflexive(a: Seq<char>) {
        text_before_irreflexive(a);
    }

    proof fn before_transitive(a: Seq<char>, b: Seq<char>, c: Seq<char>) {
        text_before_transitive(a, b, c);
    }

    proof fn before_connected(a: Seq<char>, b: Seq<char>) {
        text_before_connected(a, b);
    }

    fn rank(&self, other: &Self) -> (r: Rank) {
        rank_str(self.as_str(), other.as_str())
    }
}

/// Identifier of a process definition.
#[derive(Debug, PartialEq, Eq, PartialOrd, Ord, Hash)]
pub struct ProcessDefinitionId(String);

impl View for ProcessDefinitionId {
    type V = Seq<char>;

    closed spec fn view(&self) -> Seq<char> {
        self.0@
    }
}

impl ProcessDefinitionId {
    /// Wraps a text.
    pub fn new(value: impl IntoText) -> (r: Self)
        ensures
            r@ == value.text(),
    {
        ProcessDefinitionId(value.into_text())
    }

    /// The wrapped text.
    pub fn as_str(&self) -> (r: &str)
        ensures
            r@ == self@,
    {
        self.0.as_str()
    }
}

impl Clone for ProcessDefinitionId {
    fn clone(&self) -> (r: Self)
        ensures
            r == *self,
    {
        ProcessDefinitionId(self.0.clone())
    }
}

impl Duplicate for ProcessDefinitionId {
    fn duplicate(&self) -> (r: Self) {
        self.clone()
    }
}

impl From<&str> for ProcessDefinitionId {
    fn from(value: &str) -> (r: Self)
        ensures
            r@ == value@,
    {
        ProcessDefinitionId(value.to_owned())
    }
}

impl vstd::std_specs::convert::FromSpecImpl<&str> for ProcessDefinitionId {
    open spec fn obeys_from_spec() -> bool {
        false
    }

    open spec fn from_spec(v: &str) -> Self {
        arbitrary()
    }
}

impl From<String> for ProcessDefinitionId {
    fn from(value: String) -> (r: Self)
        ensures
            r@ == value@,
    {
        ProcessDefinitionId(value)
    }
}

impl vstd::std_specs::convert::FromSpecImpl<String> for ProcessDefinitionId {
    open spec fn obeys_from_spec() -> bool {
        false
    }

    open spec fn from_spec(v: String) -> Self {
        arbitrary()
    }
}

impl Key for ProcessDefinitionId {
    open spec fn before(a: Seq<char>, b: Seq<char>) -> bool {
        text_before(a, b)
    }

    proof fn before_irreflexive(a: Seq<char>) {
        text_before_irreflexive(a);
    }

    proof fn before_transitive(a: Seq<char>, b: Seq<char>, c: Seq<char>) {
        text_before_transitive(a, b, c);
    }

    proof fn before_connected(a: Seq<char>, b: Seq<char>) {
        text_before_connected(a, b);
    }

    fn rank(&self, other: &Self) -> (r: Rank) {
        rank_str(self.as_str(), other.as_str())
    }
}

/// Identifier of a process instance.
#[derive(Debug, PartialEq, Eq, PartialOrd, Ord, Hash)]
pub struct ProcessInstanceId(String);

impl View for ProcessInstanceId {
    type V = Seq<char>;

    closed spec fn view(&self) -> Seq<char> {
        self.0@
    }
}

impl ProcessInstanceId {
    /// Wraps a text.
    pub fn new(value: impl IntoText) -> (r: Self)
        ensures
            r@ == value.text(),
    {
        ProcessInstanceId(value.into_text())
    }

    /// The wrapped text.
    pub fn as_str(&self) -> (r: &str)
        ensures
            r@ == self@,
    {
        self.0.as_str()
    }
}

impl Clone for ProcessInstanceId {
    fn clone(&self) -> (r: Self)
        ensures
            r == *self,
    {
        ProcessInstanceId(self.0.clone())
    }
}

impl Duplicate for ProcessInstanceId {
    fn duplicate(&self) -> (r: Self) {
        self.clone()
    }
}

impl From<&str> for ProcessInstanceId {
    fn from(value: &str) -> (r: Self)
        ensures
            r@ == value@,
    {
        ProcessInstanceId(value.to_owned())
    }
}

impl vstd::std_specs::convert::FromSpecImpl<&str> for ProcessInstanceId {
    open spec fn obeys_from_spec() -> bool {
        false
    }

    open spec fn from_spec(v: &str) -> Self {
        arbitrary()
    }
}

impl From<String> for ProcessInstanceId {
    fn from(value: String) -> (r: Self)
        ensures
            r@ == value@,
    {
        ProcessInstanceId(value)
    }
}

impl vstd::std_specs::convert::FromSpecImpl<String> for ProcessInstanceId {
    open spec fn obeys_from_spec() -> bool {
        false
    }

    open spec fn from_spec(v: String) -> Self {
        arbitrary()
    }
}

impl Key for ProcessInstanceId {
    open spec fn before(a: Seq<char>, b: Seq<char>) -> bool {
        text_before(a, b)
    }

    proof fn before_irreflexive(a: Seq<char>) {
        text_before_irreflexive(a);
    }

    proof fn before_transitive(a: Seq<char>, b: Seq<char>, c: Seq<char>) {
        text_before_transitive(a, b, c);
    }

    proof fn before_connected(a: Seq<char>, b: Seq<char>) {
        text_before_connected(a, b);
    }

    fn rank(&self, other: &Self) -> (r: Rank) {
        rank_str(self.as_str(), other.as_str())
    }
}

/// Identifier of an activity.
#[derive(Debug, PartialEq, Eq, PartialOrd, Ord, Hash)]
pub struct ActivityId(String);

impl View for ActivityId {
    type V = Seq<char>;

    closed spec fn view(&self) -> Seq<char> {
        self.0@
    }
}

impl ActivityId {
    /// Wraps a text.
    pub fn new(value: impl IntoText) -> (r: Self)
        ensures
            r@ == value.text(),
    {
        ActivityId(value.into_text())
    }

    /// The wrapped text.
    pub fn as_str(&self) -> (r: &str)
        ensures
            r@ == self@,
    {
        self.0.as_str()
    }
}

impl Clone for ActivityId {
    fn clone(&self) -> (r: Self)
        ensures
            r == *self,
    {
        ActivityId(self.0.clone())
    }
}

impl Duplicate for ActivityId {
    fn duplicate(&self) -> (r: Self) {
        self.clone()
    }
}

impl From<&str> for ActivityId {
    fn from(value: &str) -> (r: Self)
        ensures
            r@ == value@,
    {
        ActivityId(value.to_owned())
    }
}

impl vstd::std_specs::convert::FromSpecImpl<&str> for ActivityId {
    open spec fn obeys_from_spec() -> bool {
        false
    }

    open spec fn from_spec(v: &str) -> Self {
        arbitrary()
    }
}

impl From<String> for ActivityId {
    fn from(value: String) -> (r: Self)
        ensures
            r@ == value@,
    {
        ActivityId(value)
    }
}

impl vstd::std_specs::convert::FromSpecImpl<String> for ActivityId {
    open spec fn obeys_from_spec() -> bool {
        false
    }

    open spec fn from_spec(v: String) -> Self {
        arbitrary()
    }
}

impl Key for ActivityId {
    open spec fn before(a: Seq<char>, b: Seq<char>) -> bool {
        text_before(a, b)
    }

    proof fn before_irreflexive(a: Seq<char>) {
        text_before_irreflexive(a);
    }

    proof fn before_transitive(a: Seq<char>, b: Seq<char>, c: Seq<char>) {
        text_before_transitive(a, b, c);
    }

    proof fn before_connected(a: Seq<char>, b: Seq<char>) {
        text_before_connected(a, b);
    }

    fn rank(&self, other: &Self) -> (r: Rank) {
        rank_str(self.as_str(), other.as_str())
    }
}

/// Identifier of a token.
#[derive(Debug, PartialEq, Eq, PartialOrd, Ord, Hash)]
pub struct TokenId(String);

impl View for TokenId {
    type V = Seq<char>;

    closed spec fn view(&self) -> Seq<char> {
        self.0@
    }
}

impl TokenId {
    /// Wraps a text.
    pub fn new(value: impl IntoText) -> (r: Self)
        ensures
            r@ == value.text(),
    {
        TokenId(value.into_text())
    }

    /// The wrapped text.
    pub fn as_str(&self) -> (r: &str)
        ensures
            r@ == self@,
    {
        self.0.as_str()
    }
}

impl Clone for TokenId {
    fn clone(&self) -> (r: Self)
        ensures
            r == *self,
    {
        TokenId(self.0.clone())
    }
}

impl Duplicate for TokenId {
    fn duplicate(&self) -> (r: Self) {
        self.clone()
    }
}

impl From<&str> for TokenId {
    fn from(value: &str) -> (r: Self)
        ensures
            r@ == value@,
    {
        TokenId(value.to_owned())
    }
}

impl vstd::std_specs::convert::FromSpecImpl<&str> for TokenId {
    open spec fn obeys_from_spec() -> bool {
        false
    }

    open spec fn from_spec(v: &str) -> Self {
        arbitrary()
    }
}

impl From<String> for TokenId {
    fn from(value: String) -> (r: Self)
        ensures
            r@ == value@,
    {
        TokenId(value)
    }
}

impl vstd::std_specs::convert::FromSpecImpl<String> for TokenId {
    open spec fn obeys_from_spec() -> bool {
        false
    }

    open spec fn from_spec(v: String) -> Self {
        arbitrary()
    }
}

impl Key for TokenId {
    open spec fn before(a: Seq<char>, b: Seq<char>) -> bool {
        text_before(a, b)
    }

    proof fn before_irreflexive(a: Seq<char>) {
        text_before_irreflexive(a);
    }

    proof fn before_transitive(a: Seq<char>, b: Seq<char>, c: Seq<char>) {
        text_before_transitive(a, b, c);
    }

    proof fn before_connected(a: Seq<char>, b: Seq<char>) {
        text_before_connected(a, b);
    }

    fn rank(&self, other: &Self) -> (r: Rank) {
        rank_str(self.as_str(), other.as_str())
    }
}

/// Identifier that correlates process instances.
#[derive(Debug, PartialEq, Eq, PartialOrd, Ord, Hash)]
pub struct CorrelationId(String);

impl View for CorrelationId {
    type V = Seq<char>;

    closed spec fn view(&self) -> Seq<char> {
        self.0@
    }
}

impl CorrelationId {
    /// Wraps a text.
    pub fn new(value: impl IntoText) -> (r: Self)
        ensures
            r@ == value.text(),
    {
        CorrelationId(value.into_text())
    }

    /// The wrapped text.
    pub fn as_str(&self) -> (r: &str)
        ensures
            r@ == self@,
    {
        self.0.as_str()
    }
}

impl Clone for CorrelationId {
    fn clone(&self) -> (r: Self)
        ensures
            r == *self,
    {
        CorrelationId(self.0.clone())
    }
}

impl Duplicate for CorrelationId {
    fn duplicate(&self) -> (r: Self) {
        self.clone()
    }
}

impl From<&str> for CorrelationId {
    fn from(value: &str) -> (r: Self)
        ensures
            r@ == value@,
    {
        CorrelationId(value.to_owned())
    }
}

impl vstd::std_specs::convert::FromSpecImpl<&str> for CorrelationId {
    open spec fn obeys_from_spec() -> bool {
        false
    }

    open spec fn from_spec(v: &str) -> Self {
        arbitrary()
    }
}

impl From<String> for CorrelationId {
    fn from(value: String) -> (r: Self)
        ensures
            r@ == value@,
    {
        CorrelationId(value)
    }
}

impl vstd::std_specs::convert::FromSpecImpl<String> for CorrelationId {
    open spec fn obeys_from_spec() -> bool {
        false
    }

    open spec fn from_spec(v: String) -> Self {
        arbitrary()
    }
}

impl Key for CorrelationId {
    open spec fn before(a: Seq<char>, b: Seq<char>) -> bool {
        text_before(a, b)
    }

    proof fn before_irreflexive(a: Seq<char>) {
        text_before_irreflexive(a);
    }

    proof fn before_transitive(a: Seq<char>, b: Seq<char>, c: Seq<char>) {
        text_before_transitive(a, b, c);
    }

    proof fn before_connected(a: Seq<char>, b: Seq<char>) {
        text_before_connected(a, b);
    }

    fn rank(&self, other: &Self) -> (r: Rank) {
        rank_str(self.as_str(), other.as_str())
    }
}

/// Business key of a process instance.
#[derive(Debug, PartialEq, Eq, PartialOrd, Ord, Hash)]
pub struct BusinessKey(String);

impl View for BusinessKey {
    type V = Seq<char>;

    closed spec fn view(&self) -> Seq<char> {
        self.0@
    }
}

impl BusinessKey {
    /// Wraps a text.
    pub fn new(value: impl IntoText) -> (r: Self)
        ensures
            r@ == value.text(),
    {
        BusinessKey(value.into_text())
    }

    /// The wrapped text.
    pub fn as_str(&self) -> (r: &str)
        ensures
            r@ == self@,
    {
        self.0.as_str()
    }
}

impl Clone for BusinessKey {
    fn clone(&self) -> (r: Self)
        ensures
            r == *self,
    {
        BusinessKey(self.0.clone())
    }
}

impl Duplicate for BusinessKey {
    fn duplicate(&self) -> (r: Self) {
        self.clone()
    }
}

impl From<&str> for BusinessKey {
    fn from(value: &str) -> (r: Self)
        ensures
            r@ == value@,
    {
        BusinessKey(value.to_owned())
    }
}

impl vstd::std_specs::convert::FromSpecImpl<&str> for BusinessKey {
    open spec fn obeys_from_spec() -> bool {
        false
    }

    open spec fn from_spec(v: &str) -> Self {
        arbitrary()
    }
}

impl From<String> for BusinessKey {
    fn from(value: String) -> (r: Self)
        ensures
            r@ == value@,
    {
        BusinessKey(value)
    }
}

impl vstd::std_specs::convert::FromSpecImpl<String> for BusinessKey {
    open spec fn obeys_from_spec() -> bool {
        false
    }

    open spec fn from_spec(v: String) -> Self {
        arbitrary()
    }
}

impl Key for BusinessKey {
    open spec fn before(a: Seq<char>, b: Seq<char>) -> bool {
        text_before(a, b)
    }

    proof fn before_irreflexive(a: Seq<char>) {
        text_before_irreflexive(a);
    }

    proof fn before_transitive(a: Seq<char>, b: Seq<char>, c: Seq<char>) {
        text_before_transitive(a, b, c);
    }

    proof fn before_connected(a: Seq<char>, b: Seq<char>) {
        text_before_connected(a, b);
    }

    fn rank(&self, other: &Self) -> (r: Rank) {
        rank_str(self.as_str(), other.as_str())
    }
}

/// Version of a process definition.
#[derive(Debug, PartialEq, Eq, PartialOrd, Ord, Hash)]
pub struct ProcessVersion(String);

impl View for ProcessVersion {
    type V = Seq<char>;

    closed spec fn view(&self) -> Seq<char> {
        self.0@
    }
}

impl ProcessVersion {
    /// Wraps a text.
    pub fn new(value: impl IntoText) -> (r: Self)
        ensures
            r@ == value.text(),
    {
        ProcessVersion(value.into_text())
    }

    /// The wrapped text.
    pub fn as_str(&self) -> (r: &str)
        ensures
            r@ == self@,
    {
        self.0.as_str()
    }
}

impl Clone for ProcessVersion {
    fn clone(&self) -> (r: Self)
        ensures
            r == *self,
    {
        ProcessVersion(self.0.clone())
    }
}

impl Duplicate for ProcessVersion {
    fn duplicate(&self) -> (r: Self) {
        self.clone()
    }
}

impl From<&str> for ProcessVersion {
    fn from(value: &str) -> (r: Self)
        ensures
            r@ == value@,
    {
        ProcessVersion(value.to_owned())
    }
}

impl vstd::std_specs::convert::FromSpecImpl<&str> for ProcessVersion {
    open spec fn obeys_from_spec() -> bool {
        false
    }

    open spec fn from_spec(v: &str) -> Self {
        arbitrary()
    }
}

impl From<String> for ProcessVersion {
    fn from(value: String) -> (r: Self)
        ensures
            r@ == value@,
    {
        ProcessVersion(value)
    }
}

impl vstd::std_specs::convert::FromSpecImpl<String> for ProcessVersion {
    open spec fn obeys_from_spec() -> bool {
        false
    }

    open spec fn from_spec(v: String) -> Self {
        arbitrary()
    }
}

impl Key for ProcessVersion {
    open spec fn before(a: Seq<char>, b: Seq<char>) -> bool {
        text_before(a, b)
    }

    proof fn before_irreflexive(a: Seq<char>) {
        text_before_irreflexive(a);
    }

    proof fn before_transitive(a: Seq<char>, b: Seq<char>, c: Seq<char>) {
        text_before_transitive(a, b, c);
    }

    proof fn before_connected(a: Seq<char>, b: Seq<char>) {
        text_before_connected(a, b);
    }

    fn rank(&self, other: &Self) -> (r: Rank) {
        rank_str(self.as_str(), other.as_str())
    }
}

/// Coarse lifecycle status attached to a process event.
#[derive(Debug, Clone, Copy, PartialEq, Eq, Structural)]
pub enum EventStatus {
    Started,
    Completed,
    Failed,
    Escalated,
    Cancelled,
}

/// What a process event reports.
#[derive(Debug, PartialEq, Eq)]
pub enum EventKind {
    ProcessStarted,
    ActivityEntered,
    ActivityCompleted,
    ActivityEscalated,
    ActivityCancelled,
    GatewayTaken,
    ProcessCompleted,
    ProcessFailed,
    Unknown(String),
}

/// The view of an event kind.
pub enum EventKindView {
    ProcessStarted,
    ActivityEntered,
    ActivityCompleted,
    ActivityEscalated,
    ActivityCancelled,
    GatewayTaken,
    ProcessCompleted,
    ProcessFailed,
    Unknown(Seq<char>),
}

impl View for EventKind {
    type V = EventKindView;

    open spec fn view(&self) -> EventKindView {
        match self {
            EventKind::ProcessStarted => EventKindView::ProcessStarted,
            EventKind::ActivityEntered => EventKindView::ActivityEntered,
            EventKind::ActivityCompleted => EventKindView::ActivityCompleted,
            EventKind::ActivityEscalated => EventKindView::ActivityEscalated,
            EventKind::ActivityCancelled => EventKindView::ActivityCancelled,
            EventKind::GatewayTaken => EventKindView::GatewayTaken,
            EventKind::ProcessCompleted => EventKindView::ProcessCompleted,
            EventKind::ProcessFailed => EventKindView::ProcessFailed,
            EventKind::Unknown(name) => EventKindView::Unknown(name@),
        }
    }
}

impl Clone for EventKind {
    fn clone(&self) -> (r: Self)
        ensures
            r == *self,
    {
        match self {
            EventKind::ProcessStarted => EventKind::ProcessStarted,
            EventKind::ActivityEntered => EventKind::ActivityEntered,
            EventKind::ActivityCompleted => EventKind::ActivityCompleted,
            EventKind::ActivityEscalated => EventKind::ActivityEscalated,
            EventKind::ActivityCancelled => EventKind::ActivityCancelled,
            EventKind::GatewayTaken => EventKind::GatewayTaken,
            EventKind::ProcessCompleted => EventKind::ProcessCompleted,
            EventKind::ProcessFailed => EventKind::ProcessFailed,
            EventKind::Unknown(name) => EventKind::Unknown(name.clone()),
        }
    }
}

/// The status that an event kind implies.
pub open spec fn implied_status(kind: EventKindView) -> EventStatus {
    match kind {
        EventKindView::ProcessStarted => EventStatus::Started,
        EventKindView::ActivityEntered => EventStatus::Started,
        EventKindView::ActivityCompleted => EventStatus::Completed,
        EventKindView::GatewayTaken => EventStatus::Completed,
        EventKindView::ProcessCompleted => EventStatus::Completed,
        EventKindView::ActivityEscalated => EventStatus::Escalated,
        EventKindView::ActivityCancelled => EventStatus::Cancelled,
        EventKindView::ProcessFailed => EventStatus::Failed,
        EventKindView::Unknown(_) => EventStatus::Started,
    }
}

impl EventKind {
    /// The status that the kind implies.
    pub fn inferred_status(self) -> (r: EventStatus)
        ensures
            r == implied_status(self@),
    {
        match self {
            EventKind::ProcessStarted => EventStatus::Started,
            EventKind::ActivityEntered => EventStatus::Started,
            EventKind::ActivityCompleted => EventStatus::Completed,
            EventKind::GatewayTaken => EventStatus::Completed,
            EventKind::ProcessCompleted => EventStatus::Completed,
            EventKind::ActivityEscalated => EventStatus::Escalated,
            EventKind::ActivityCancelled => EventStatus::Cancelled,
            EventKind::ProcessFailed => EventStatus::Failed,
            EventKind::Unknown(_) => EventStatus::Started,
        }
    }
}

/// Status of a process instance.
#[derive(Debug, Clone, Copy, PartialEq, Eq, Structural)]
pub enum ProcessStatus {
    Unknown,
    Active,
    Completed,
    Failed,
    Cancelled,
}

/// Latest known state of an activity.
#[derive(Debug, Clone, Copy, PartialEq, Eq, Structural)]
pub enum ActivityState {
    Entered,
    Completed,
    Escalated,
    Cancelled,
    GatewayTaken,
    Failed,
}

impl View for ActivityState {
    type V = ActivityState;

    open spec fn view(&self) -> ActivityState {
        *self
    }
}

impl Duplicate for ActivityState {
    fn duplicate(&self) -> (r: Self) {
        *self
    }
}

/// An error reported by a process.
#[derive(Debug, PartialEq, Eq)]
pub struct ErrorInfo {
    pub message: String,
    pub code: Option<String>,
}

/// The view of an error.
pub struct ErrorInfoView {
    pub message: Seq<char>,
    pub code: Option<Seq<char>>,
}

impl View for ErrorInfo {
    type V = ErrorInfoView;

    open spec fn view(&self) -> ErrorInfoView {
        ErrorInfoView { message: self.message@, code: opt_view(self.code) }
    }
}

impl ErrorInfo {
    /// An error with a message and an optional code.
    pub fn new(message: impl IntoText, code: Option<String>) -> (r: Self)
        ensures
            r@ == (ErrorInfoView { message: message.text(), code: opt_view(code) }),
    {
        ErrorInfo { message: message.into_text(), code }
    }
}

impl Clone for ErrorInfo {
    fn clone(&self) -> (r: Self)
        ensures
            r == *self,
    {
        ErrorInfo { message: self.message.clone(), code: self.code.clone() }
    }
}

/// Mutable shard-local reducer state for one process instance.
#[derive(Debug, PartialEq, Eq)]
pub struct ProcessInstanceState {
    inner: ProcessInstanceSnapshot,
}

/// Owned process-instance view returned by queries and snapshots.
#[derive(Debug, PartialEq, Eq)]
pub struct ProcessInstanceSnapshot {
    pub tenant_id: TenantId,
    pub environment_id: EnvironmentId,
    pub pipeline_id: PipelineId,
    pub process_definition_id: ProcessDefinitionId,
    pub process_instance_id: ProcessInstanceId,
    pub process_version: Option<ProcessVersion>,
    pub current_activity_id: Option<ActivityId>,
    pub status: ProcessStatus,
    pub started_at: Option<EventTimestamp>,
    pub last_updated_at: EventTimestamp,
    pub completed_at: Option<EventTimestamp>,
    pub correlation_id: Option<CorrelationId>,
    pub business_key: Option<BusinessKey>,
    pub token_id: Option<TokenId>,
    pub activities: SortedMap<ActivityId, ActivityState>,
    pub activity_entered_at: SortedMap<ActivityId, EventTimestamp>,
    pub activity_durations: SortedMap<ActivityId, u64>,
    pub metadata_refs: Vec<MetadataRef>,
    pub retry_count: u64,
    pub last_error: Option<ErrorInfo>,
}

/// The view of a process instance.
pub struct ProcessView {
    pub tenant_id: Seq<char>,
    pub environment_id: Seq<char>,
    pub pipeline_id: Seq<char>,
    pub process_definition_id: Seq<char>,
    pub process_instance_id: Seq<char>,
    pub process_version: Option<Seq<char>>,
    pub current_activity_id: Option<Seq<char>>,
    pub status: ProcessStatus,
    pub started_at: Option<Seq<char>>,
    pub last_updated_at: Seq<char>,
    pub completed_at: Option<Seq<char>>,
    pub correlation_id: Option<Seq<char>>,
    pub business_key: Option<Seq<char>>,
    pub token_id: Option<Seq<char>>,
    pub activities: Map<Seq<char>, ActivityState>,
    pub activity_entered_at: Map<Seq<char>, Seq<char>>,
    pub activity_durations: Map<Seq<char>, u64>,
    pub metadata_refs: Seq<MetadataRefView>,
    pub retry_count: u64,
    pub last_error: Option<ErrorInfoView>,
}

impl View for ProcessInstanceSnapshot {
    type V = ProcessView;

    open spec fn view(&self) -> ProcessView {
        ProcessView {
            tenant_id: self.tenant_id@,
            environment_id: self.environment_id@,
            pipeline_id: self.pipeline_id@,
            process_definition_id: self.process_definition_id@,
            process_instance_id: self.process_instance_id@,
            process_version: opt_view(self.process_version),
            current_activity_id: opt_view(self.current_activity_id),
            status: self.status,
            started_at: opt_view(self.started_at),
            last_updated_at: self.last_updated_at@,
            completed_at: opt_view(self.completed_at),
            correlation_id: opt_view(self.correlation_id),
            business_key: opt_view(self.business_key),
            token_id: opt_view(self.token_id),
            activities: self.activities@,
            activity_entered_at: self.activity_entered_at@,
            activity_durations: self.activity_durations@,
            metadata_refs: views(self.metadata_refs@),
            retry_count: self.retry_count,
            last_error: opt_view(self.last_error),
        }
    }
}

impl Clone for ProcessInstanceSnapshot {
    fn clone(&self) -> (r: Self)
        ensures
            r@ == self@,
    {
        ProcessInstanceSnapshot {
            tenant_id: self.tenant_id.clone(),
            environment_id: self.environment_id.clone(),
            pipeline_id: self.pipeline_id.clone(),
            process_definition_id: self.process_definition_id.clone(),
            process_instance_id: self.process_instance_id.clone(),
            process_version: self.process_version.clone(),
            current_activity_id: self.current_activity_id.clone(),
            status: self.status,
            started_at: self.started_at.clone(),
            last_updated_at: self.last_updated_at.clone(),
            completed_at: self.completed_at.clone(),
            correlation_id: self.correlation_id.clone(),
            business_key: self.business_key.clone(),
            token_id: self.token_id.clone(),
            activities: self.activities.clone(),
            activity_entered_at: self.activity_entered_at.clone(),
            activity_durations: self.activity_durations.clone(),
            metadata_refs: duplicate_all(&self.metadata_refs),
            retry_count: self.retry_count,
            last_error: self.last_error.clone(),
        }
    }
}

impl Duplicate for ProcessInstanceSnapshot {
    fn duplicate(&self) -> (r: Self) {
        self.clone()
    }
}

impl View for ProcessInstanceState {
    type V = ProcessView;

    closed spec fn view(&self) -> ProcessView {
        self.inner@
    }
}

/// The state of an instance before its first event is applied.
pub open spec fn fresh(event: PipelineEventView) -> ProcessView {
    ProcessView {
        tenant_id: event.tenant_id,
        environment_id: event.environment_id,
        pipeline_id: event.pipeline_id,
        process_definition_id: event.process_definition_id,
        process_instance_id: event.process_instance_id,
        process_version: event.process_version,
        current_activity_id: None,
        status: ProcessStatus::Unknown,
        started_at: None,
        last_updated_at: event.timestamp,
        completed_at: None,
        correlation_id: event.correlation_id,
        business_key: event.business_key,
        token_id: event.token_id,
        activities: Map::empty(),
        activity_entered_at: Map::empty(),
        activity_durations: Map::empty(),
        metadata_refs: event.metadata_refs,
        retry_count: 0,
        last_error: None,
    }
}

/// The newer of two optional values.
pub open spec fn newer<T>(new: Option<T>, known: Option<T>) -> Option<T> {
    if new is Some {
        new
    } else {
        known
    }
}

/// The known references followed by those that are new, each once.
pub open spec fn with_refs(known: Seq<MetadataRefView>, more: Seq<MetadataRefView>) -> Seq<MetadataRefView>
    decreases more.len(),
{
    if more.len() == 0 {
        known
    } else {
        let sofar = with_refs(known, more.drop_last());
        if sofar.contains(more.last()) {
            sofar
        } else {
            sofar.push(more.last())
        }
    }
}

/// An activity reaches a state; if it was entered, its duration becomes known.
pub open spec fn activity_ended(state: ProcessView, event: PipelineEventView, reached: ActivityState) -> ProcessView {
    match event.activity_id {
        Some(a) => ProcessView {
            activities: state.activities.insert(a, reached),
            activity_durations: if state.activity_entered_at.contains_key(a) {
                state.activity_durations.insert(
                    a,
                    duration_between(state.activity_entered_at[a], event.timestamp),
                )
            } else {
                state.activity_durations
            },
            ..state
        },
        None => state,
    }
}

/// What every event does to the state, whatever its kind.
pub open spec fn refreshed(state: ProcessView, event: PipelineEventView) -> ProcessView {
    ProcessView {
        last_updated_at: event.timestamp,
        process_version: newer(event.process_version, state.process_version),
        correlation_id: newer(event.correlation_id, state.correlation_id),
        business_key: newer(event.business_key, state.business_key),
        token_id: newer(event.token_id, state.token_id),
        current_activity_id: newer(event.activity_id, state.current_activity_id),
        last_error: newer(event.error, state.last_error),
        metadata_refs: with_refs(state.metadata_refs, event.metadata_refs),
        ..state
    }
}

/// The state after an event.
pub open spec fn reduced(state: ProcessView, event: PipelineEventView) -> ProcessView {
    let s = refreshed(state, event);
    match event.kind {
        EventKindView::ProcessStarted => ProcessView {
            status: ProcessStatus::Active,
            started_at: newer(s.started_at, Some(event.timestamp)),
            ..s
        },
        EventKindView::ActivityEntered => match event.activity_id {
            Some(a) => ProcessView {
                status: ProcessStatus::Active,
                activities: s.activities.insert(a, ActivityState::Entered),
                activity_entered_at: s.activity_entered_at.insert(a, event.timestamp),
                ..s
            },
            None => ProcessView { status: ProcessStatus::Active, ..s },
        },
        EventKindView::ActivityCompleted => activity_ended(
            ProcessView { status: ProcessStatus::Active, ..s },
            event,
            ActivityState::Completed,
        ),
        EventKindView::ActivityEscalated => activity_ended(
            ProcessView { status: ProcessStatus::Active, ..s },
            event,
            ActivityState::Escalated,
        ),
        EventKindView::ActivityCancelled => activity_ended(
            ProcessView { status: ProcessStatus::Cancelled, ..s },
            event,
            ActivityState::Cancelled,
        ),
        EventKindView::GatewayTaken => activity_ended(
            ProcessView { status: ProcessStatus::Active, ..s },
            event,
            ActivityState::GatewayTaken,
        ),
        EventKindView::ProcessCompleted => activity_ended(
            ProcessView {
                status: ProcessStatus::Completed,
                completed_at: Some(event.timestamp),
                current_activity_id: Some("completed"@),
                ..s
            },
            event,
            ActivityState::Completed,
        ),
        EventKindView::ProcessFailed => activity_ended(
            ProcessView {
                status: ProcessStatus::Failed,
                retry_count: if s.retry_count < u64::MAX {
                    (s.retry_count + 1) as u64
                } else {
                    u64::MAX
                },
                ..s
            },
            event,
            ActivityState::Failed,
        ),
        EventKindView::Unknown(_) => s,
    }
}

/// An event never changes which process instance the state belongs to.
pub proof fn law_reducing_keeps_identity(state: ProcessView, event: PipelineEventView)
    ensures
        ({
            let after = reduced(state, event);
            &&& after.tenant_id == state.tenant_id
            &&& after.environment_id == state.environment_id
            &&& after.pipeline_id == state.pipeline_id
            &&& after.process_definition_id == state.process_definition_id
            &&& after.process_instance_id == state.process_instance_id
        }),
{
}

/// The status that an event leads to: that of its kind, or the earlier one for an
/// unknown kind.
pub open spec fn status_after(before: ProcessStatus, kind: EventKindView) -> ProcessStatus {
    match kind {
        EventKindView::ProcessCompleted => ProcessStatus::Completed,
        EventKindView::ProcessFailed => ProcessStatus::Failed,
        EventKindView::ActivityCancelled => ProcessStatus::Cancelled,
        EventKindView::Unknown(_) => before,
        _ => ProcessStatus::Active,
    }
}

/// The status after an event depends only on the status before it and on the event's
/// kind, and an event of an unknown kind leaves it alone.
pub proof fn law_status_follows_kind(state: ProcessView, event: PipelineEventView)
    ensures
        reduced(state, event).status == status_after(state.status, event.kind),
        event.kind is ProcessStarted ==> reduced(state, event).status == ProcessStatus::Active,
        event.kind is ActivityEntered ==> reduced(state, event).status == ProcessStatus::Active,
        event.kind is ActivityCompleted ==> reduced(state, event).status == ProcessStatus::Active,
        event.kind is ActivityEscalated ==> reduced(state, event).status == ProcessStatus::Active,
        event.kind is GatewayTaken ==> reduced(state, event).status == ProcessStatus::Active,
        event.kind is ActivityCancelled ==> reduced(state, event).status == ProcessStatus::Cancelled,
        event.kind is ProcessCompleted ==> reduced(state, event).status == ProcessStatus::Completed,
        event.kind is ProcessFailed ==> reduced(state, event).status == ProcessStatus::Failed,
        event.kind is Unknown ==> reduced(state, event).status == state.status,
{
}

/// An event that names an activity leaves that activity in the state that the event's kind
/// says, and every other activity in the state it had. An event without an activity, the
/// start of the process and an event of an unknown kind leave all activities alone.
pub proof fn law_activities_follow_kind(state: ProcessView, event: PipelineEventView)
    ensures
        ({
            let after = reduced(state, event);
            &&& event.activity_id is None ==> after.activities == state.activities
            &&& event.kind is ProcessStarted || event.kind is Unknown ==> after.activities == state.activities
            &&& event.activity_id matches Some(a) ==> {
                &&& event.kind is ActivityEntered ==> after.activities.contains_pair(a, ActivityState::Entered)
                &&& event.kind is ActivityCompleted ==> after.activities.contains_pair(a, ActivityState::Completed)
                &&& event.kind is ActivityEscalated ==> after.activities.contains_pair(a, ActivityState::Escalated)
                &&& event.kind is ActivityCancelled ==> after.activities.contains_pair(a, ActivityState::Cancelled)
                &&& event.kind is GatewayTaken ==> after.activities.contains_pair(a, ActivityState::GatewayTaken)
                &&& event.kind is ProcessCompleted ==> after.activities.contains_pair(a, ActivityState::Completed)
                &&& event.kind is ProcessFailed ==> after.activities.contains_pair(a, ActivityState::Failed)
                &&& forall|b: Seq<char>|
                    b != a ==> #[trigger] after.activities.contains_key(b) == state.activities.contains_key(b)
                        && after.activities[b] == state.activities[b]
            }
        }),
{
}

/// An activity is timed from the instant at which it was last entered: entering notes the
/// instant and gives no duration, and each kind of event that ends the activity gives the
/// milliseconds between the two instants, or zero where they cannot be told or run
/// backwards. Nothing else is timed, and no other activity is touched.
pub proof fn law_activities_are_timed(state: ProcessView, event: PipelineEventView)
    ensures
        ({
            let after = reduced(state, event);
            let ends = event.kind is ActivityCompleted || event.kind is ActivityEscalated || event.kind is ActivityCancelled
                || event.kind is GatewayTaken || event.kind is ProcessCompleted || event.kind is ProcessFailed;
            &&& !(event.kind is ActivityEntered) || event.activity_id is None ==> after.activity_entered_at
                == state.activity_entered_at
            &&& !ends || event.activity_id is None ==> after.activity_durations == state.activity_durations
            &&& event.activity_id matches Some(a) ==> {
                &&& event.kind is ActivityEntered ==> after.activity_entered_at.contains_pair(a, event.timestamp)
                &&& ends && state.activity_entered_at.contains_key(a) ==> {
                    let from = crate::timestamp::epoch_millis(state.activity_entered_at[a]);
                    let to = crate::timestamp::epoch_millis(event.timestamp);
                    &&& after.activity_durations.contains_key(a)
                    &&& from is Some && to is Some && from->0 <= to->0 ==> after.activity_durations[a] == to->0
                        - from->0
                    &&& !(from is Some && to is Some && from->0 <= to->0) ==> after.activity_durations[a] == 0
                }
                &&& ends && !state.activity_entered_at.contains_key(a) ==> after.activity_durations
                    == state.activity_durations
                &&& forall|b: Seq<char>|
                    b != a ==> #[trigger] after.activity_durations.contains_key(b)
                        == state.activity_durations.contains_key(b) && after.activity_durations[b]
                        == state.activity_durations[b]
                &&& forall|b: Seq<char>|
                    b != a ==> #[trigger] after.activity_entered_at.contains_key(b)
                        == state.activity_entered_at.contains_key(b) && after.activity_entered_at[b]
                        == state.activity_entered_at[b]
            }
        }),
{
    crate::timestamp::law_durations(
        if event.activity_id is Some && state.activity_entered_at.contains_key(event.activity_id->0) {
            state.activity_entered_at[event.activity_id->0]
        } else {
            event.timestamp
        },
        event.timestamp,
    );
}

/// What an event says of the version, the correlation, the business key, the token and the
/// error replaces what was known, what it leaves out is kept, and its instant is the last
/// one.
pub proof fn law_latest_word_counts(state: ProcessView, event: PipelineEventView)
    ensures
        ({
            let after = reduced(state, event);
            &&& after.last_updated_at == event.timestamp
            &&& event.process_version is Some ==> after.process_version == event.process_version
            &&& event.process_version is None ==> after.process_version == state.process_version
            &&& event.correlation_id is Some ==> after.correlation_id == event.correlation_id
            &&& event.correlation_id is None ==> after.correlation_id == state.correlation_id
            &&& event.business_key is Some ==> after.business_key == event.business_key
            &&& event.business_key is None ==> after.business_key == state.business_key
            &&& event.token_id is Some ==> after.token_id == event.token_id
            &&& event.token_id is None ==> after.token_id == state.token_id
            &&& event.error is Some ==> after.last_error == event.error
            &&& event.error is None ==> after.last_error == state.last_error
            &&& event.kind is ProcessCompleted ==> after.current_activity_id == Some("completed"@)
            &&& !(event.kind is ProcessCompleted) && event.activity_id is Some ==> after.current_activity_id
                == event.activity_id
            &&& !(event.kind is ProcessCompleted) && event.activity_id is None ==> after.current_activity_id
                == state.current_activity_id
        }),
{
}

/// A process starts at the instant of its first start event and never again, is completed
/// at the instant of its latest completion, and every failure counts as one more retry.
pub proof fn law_start_end_and_retries(state: ProcessView, event: PipelineEventView)
    ensures
        ({
            let after = reduced(state, event);
            &&& state.started_at is Some ==> after.started_at == state.started_at
            &&& state.started_at is None && event.kind is ProcessStarted ==> after.started_at == Some(event.timestamp)
            &&& !(event.kind is ProcessStarted) ==> after.started_at == state.started_at
            &&& event.kind is ProcessCompleted ==> after.completed_at == Some(event.timestamp)
            &&& !(event.kind is ProcessCompleted) ==> after.completed_at == state.completed_at
            &&& event.kind is ProcessFailed && state.retry_count < u64::MAX ==> after.retry_count == state.retry_count + 1
            &&& event.kind is ProcessFailed && state.retry_count == u64::MAX ==> after.retry_count == u64::MAX
            &&& !(event.kind is ProcessFailed) ==> after.retry_count == state.retry_count
        }),
{
}

/// A process instance that is new belongs where its first event says, has seen nothing yet,
/// and gets its status from that event.
pub proof fn law_fresh_instance(event: PipelineEventView)
    ensures
        ({
            let state = fresh(event);
            &&& state.tenant_id == event.tenant_id
            &&& state.environment_id == event.environment_id
            &&& state.pipeline_id == event.pipeline_id
            &&& state.process_definition_id == event.process_definition_id
            &&& state.process_instance_id == event.process_instance_id
            &&& state.process_version == event.process_version
            &&& state.correlation_id == event.correlation_id
            &&& state.business_key == event.business_key
            &&& state.token_id == event.token_id
            &&& state.last_updated_at == event.timestamp
            &&& state.metadata_refs == event.metadata_refs
            &&& state.status == ProcessStatus::Unknown
            &&& state.current_activity_id is None && state.started_at is None && state.completed_at is None
            &&& state.last_error is None && state.retry_count == 0
            &&& forall|a: Seq<char>|
                !(#[trigger] state.activities.contains_key(a)) && !state.activity_entered_at.contains_key(a)
                    && !state.activity_durations.contains_key(a)
        }),
{
}

/// The references of the state keep their places, every reference of the event is added
/// behind them unless it is there, and nothing else is.
pub proof fn law_refs_are_added_behind(state: ProcessView, event: PipelineEventView)
    ensures
        ({
            let after = reduced(state, event).metadata_refs;
            &&& state.metadata_refs.is_prefix_of(after)
            &&& forall|r: MetadataRefView| #[trigger]
                after.contains(r) <==> state.metadata_refs.contains(r) || event.metadata_refs.contains(r)
            &&& state.metadata_refs.no_duplicates() ==> after.no_duplicates()
        }),
{
    let after = reduced(state, event).metadata_refs;
    lemma_with_refs_behind(state.metadata_refs, event.metadata_refs);
    assert forall|r: MetadataRefView| #[trigger] after.contains(r) <==> state.metadata_refs.contains(r)
        || event.metadata_refs.contains(r) by {
        lemma_with_refs(state.metadata_refs, event.metadata_refs, r);
    }
}

proof fn lemma_with_refs_behind(known: Seq<MetadataRefView>, more: Seq<MetadataRefView>)
    ensures
        known.is_prefix_of(with_refs(known, more)),
        known.no_duplicates() ==> with_refs(known, more).no_duplicates(),
    decreases more.len(),
{
    if more.len() > 0 {
        lemma_with_refs_behind(known, more.drop_last());
        let sofar = with_refs(known, more.drop_last());
        if sofar.contains(more.last()) {
        } else if known.no_duplicates() {
            let after = sofar.push(more.last());
            assert forall|i: int, j: int| 0 <= i < after.len() && 0 <= j < after.len() && i != j implies after[i]
                != after[j] by {
                if i == sofar.len() {
                    assert(sofar.contains(sofar[j]));
                } else if j == sofar.len() {
                    assert(sofar.contains(sofar[i]));
                }
            }
        }
    }
}

/// An activity that is entered and then completed has run for the milliseconds between the
/// two instants, and counts as completed.
pub proof fn law_completed_activity_has_run(
    state: ProcessView,
    entered: PipelineEventView,
    completed: PipelineEventView,
    a: Seq<char>,
)
    requires
        entered.kind is ActivityEntered,
        completed.kind is ActivityCompleted,
        entered.activity_id == Some(a),
        completed.activity_id == Some(a),
        crate::timestamp::epoch_millis(entered.timestamp) is Some,
        crate::timestamp::epoch_millis(completed.timestamp) is Some,
        crate::timestamp::epoch_millis(entered.timestamp)->0 <= crate::timestamp::epoch_millis(completed.timestamp)->0,
    ensures
        ({
            let after = reduced(reduced(state, entered), completed);
            &&& after.activities.contains_pair(a, ActivityState::Completed)
            &&& after.activity_durations.contains_key(a)
            &&& after.activity_durations[a] == crate::timestamp::epoch_millis(completed.timestamp)->0
                - crate::timestamp::epoch_millis(entered.timestamp)->0
        }),
{
    law_activities_are_timed(state, entered);
    law_activities_are_timed(reduced(state, entered), completed);
    law_activities_follow_kind(reduced(state, entered), completed);
}

/// What an event kind implies of the status of the event: a start is started, an end is
/// completed, and what was escalated, cancelled or failed is that.
pub proof fn law_implied_status(kind: EventKindView)
    ensures
        implied_status(kind) == EventStatus::Failed <==> kind is ProcessFailed,
        implied_status(kind) == EventStatus::Cancelled <==> kind is ActivityCancelled,
        implied_status(kind) == EventStatus::Escalated <==> kind is ActivityEscalated,
        implied_status(kind) == EventStatus::Completed <==> kind is ActivityCompleted || kind is GatewayTaken
            || kind is ProcessCompleted,
        implied_status(kind) == EventStatus::Started <==> kind is ProcessStarted || kind is ActivityEntered
            || kind is Unknown,
{
}

/// The view of a kind has its name.
pub proof fn law_kinds_keep_their_names(kind: EventKind)
    ensures
        kind is ProcessStarted <==> kind@ is ProcessStarted,
        kind is ActivityEntered <==> kind@ is ActivityEntered,
        kind is ActivityCompleted <==> kind@ is ActivityCompleted,
        kind is ActivityEscalated <==> kind@ is ActivityEscalated,
        kind is ActivityCancelled <==> kind@ is ActivityCancelled,
        kind is GatewayTaken <==> kind@ is GatewayTaken,
        kind is ProcessCompleted <==> kind@ is ProcessCompleted,
        kind is ProcessFailed <==> kind@ is ProcessFailed,
        kind is Unknown <==> kind@ is Unknown,
        kind matches EventKind::Unknown(name) ==> kind@ == EventKindView::Unknown(name@),
{
}

/// Every metadata reference of the state and of the event is in the state afterwards.
pub proof fn law_reducing_keeps_refs(state: ProcessView, event: PipelineEventView, wanted: MetadataRefView)
    requires
        state.metadata_refs.contains(wanted) || event.metadata_refs.contains(wanted),
    ensures
        reduced(state, event).metadata_refs.contains(wanted),
{
    lemma_with_refs(state.metadata_refs, event.metadata_refs, wanted);
}

proof fn lemma_with_refs(known: Seq<MetadataRefView>, more: Seq<MetadataRefView>, wanted: MetadataRefView)
    ensures
        with_refs(known, more).contains(wanted) == (known.contains(wanted) || more.contains(wanted)),
    decreases more.len(),
{
    if more.len() > 0 {
        lemma_with_refs(known, more.drop_last(), wanted);
        let sofar = with_refs(known, more.drop_last());
        assert(more =~= more.drop_last().push(more.last()));
        lemma_push_contains(more.drop_last(), more.last(), wanted);
        lemma_push_contains(sofar, more.last(), wanted);
    }
}

proof fn lemma_push_contains(s: Seq<MetadataRefView>, x: MetadataRefView, wanted: MetadataRefView)
    ensures
        s.push(x).contains(wanted) == (s.contains(wanted) || x == wanted),
{
    if s.contains(wanted) {
        let i = choose|i: int| 0 <= i < s.len() && s[i] == wanted;
        assert(s.push(x)[i] == wanted);
    }
    if x == wanted {
        assert(s.push(x)[s.len() as int] == wanted);
    }
    if s.push(x).contains(wanted) {
        let i = choose|i: int| 0 <= i < s.push(x).len() && s.push(x)[i] == wanted;
        if i < s.len() {
            assert(s[i] == wanted);
        }
    }
}

impl ProcessInstanceState {
    /// The state of an instance before its first event is applied.
    pub fn new(event: &PipelineEvent) -> (r: Self)
        ensures
            r@ == fresh(event@),
    {
        ProcessInstanceState {
            inner: ProcessInstanceSnapshot {
                tenant_id: event.tenant_id().clone(),
                environment_id: event.environment_id().clone(),
                pipeline_id: event.pipeline_id().clone(),
                process_definition_id: event.process_definition_id().clone(),
                process_instance_id: event.process_instance_id().clone(),
                process_version: event.process_version().cloned(),
                current_activity_id: None,
                status: ProcessStatus::Unknown,
                started_at: None,
                last_updated_at: event.timestamp().clone(),
                completed_at: None,
                correlation_id: event.correlation_id().cloned(),
                business_key: event.business_key().cloned(),
                token_id: event.token_id().cloned(),
                activities: SortedMap::new(),
                activity_entered_at: SortedMap::new(),
                activity_durations: SortedMap::new(),
                metadata_refs: duplicate_all(event.metadata_refs()),
                retry_count: 0,
                last_error: None,
            },
        }
    }

    fn record_refs(&mut self, event: &PipelineEvent)
        ensures
            final(self)@ == (ProcessView {
                metadata_refs: with_refs(old(self)@.metadata_refs, event@.metadata_refs),
                ..old(self)@
            }),
    {
        let refs = event.metadata_refs();
        let ghost before = self@;
        let mut i: usize = 0;
        assert(views(refs@).take(0) =~= Seq::<MetadataRefView>::empty());
        while i < refs.len()
            invariant
                i <= refs.len(),
                views(refs@) == event@.metadata_refs,
                self@ == (ProcessView {
                    metadata_refs: with_refs(before.metadata_refs, views(refs@).take(i as int)),
                    ..before
                }),
            decreases refs.len() - i,
        {
            proof {
                assert(views(refs@).take(i + 1).drop_last() =~= views(refs@).take(i as int));
                assert(views(refs@).take(i + 1).last() == refs@[i as int]@);
            }
            let ghost sofar = self@.metadata_refs;
            if !contains_ref(&self.inner.metadata_refs, &refs[i]) {
                self.inner.metadata_refs.push(refs[i].clone());
                assert(self@.metadata_refs =~= sofar.push(refs@[i as int]@));
            }
            i += 1;
        }
        assert(views(refs@).take(refs.len() as int) =~= views(refs@));
    }

    fn record_activity_terminal(&mut self, event: &PipelineEvent, state: ActivityState)
        ensures
            final(self)@ == activity_ended(old(self)@, event@, state),
    {
        match event.activity_id() {
            None => {},
            Some(activity_id) => {
                let _ = self.inner.activities.insert(activity_id.clone(), state);
                if let Some(entered_at) = self.inner.activity_entered_at.get(activity_id) {
                    let duration: u64 = entered_at.saturating_duration_until(event.timestamp());
                    let _ = self.inner.activity_durations.insert(activity_id.clone(), duration);
                }
            },
        }
    }

    /// Folds an event into the state.
    pub fn apply(&mut self, event: &PipelineEvent)
        ensures
            final(self)@ == reduced(old(self)@, event@),
    {
        self.inner.last_updated_at = event.timestamp().clone();
        if let Some(version) = event.process_version() {
            self.inner.process_version = Some(version.clone());
        }
        if let Some(correlation_id) = event.correlation_id() {
            self.inner.correlation_id = Some(correlation_id.clone());
        }
        if let Some(business_key) = event.business_key() {
            self.inner.business_key = Some(business_key.clone());
        }
        if let Some(token_id) = event.token_id() {
            self.inner.token_id = Some(token_id.clone());
        }
        if let Some(activity_id) = event.activity_id() {
            self.inner.current_activity_id = Some(activity_id.clone());
        }
        if let Some(error) = event.error() {
            self.inner.last_error = Some(error.clone());
        }
        self.record_refs(event);
        assert(self@ == refreshed(old(self)@, event@));
        match event.kind() {
            EventKind::ProcessStarted => {
                self.inner.status = ProcessStatus::Active;
                if self.inner.started_at.is_none() {
                    self.inner.started_at = Some(event.timestamp().clone());
                }
            },
            EventKind::ActivityEntered => {
                self.inner.status = ProcessStatus::Active;
                if let Some(activity_id) = event.activity_id() {
                    let _ = self.inner.activities.insert(activity_id.clone(), ActivityState::Entered);
                    let _ = self.inner.activity_entered_at.insert(activity_id.clone(), event.timestamp().clone());
                }
            },
            EventKind::ActivityCompleted => {
                self.inner.status = ProcessStatus::Active;
                self.record_activity_terminal(event, ActivityState::Completed);
            },
            EventKind::ActivityEscalated => {
                self.inner.status = ProcessStatus::Active;
                self.record_activity_terminal(event, ActivityState::Escalated);
            },
            EventKind::ActivityCancelled => {
                self.inner.status = ProcessStatus::Cancelled;
                self.record_activity_terminal(event, ActivityState::Cancelled);
            },
            EventKind::GatewayTaken => {
                self.inner.status = ProcessStatus::Active;
                self.record_activity_terminal(event, ActivityState::GatewayTaken);
            },
            EventKind::ProcessCompleted => {
                self.inner.status = ProcessStatus::Completed;
                self.inner.completed_at = Some(event.timestamp().clone());
                self.inner.current_activity_id = Some(ActivityId::from("completed"));
                self.record_activity_terminal(event, ActivityState::Completed);
            },
            EventKind::ProcessFailed => {
                self.inner.status = ProcessStatus::Failed;
                self.inner.retry_count = self.inner.retry_count.saturating_add(1);
                self.record_activity_terminal(event, ActivityState::Failed);
            },
            EventKind::Unknown(_) => {},
        }
    }

    /// A copy of the state.
    pub fn snapshot(&self) -> (r: ProcessInstanceSnapshot)
        ensures
            r@ == self@,
    {
        self.inner.clone()
    }

    /// The pipeline that the instance belongs to.
    pub fn pipeline_id(&self) -> (r: &PipelineId)
        ensures
            r@ == self@.pipeline_id,
    {
        &self.inner.pipeline_id
    }

    /// The status of the instance.
    pub fn status(&self) -> (r: ProcessStatus)
        ensures
            r == self@.status,
    {
        self.inner.status
    }
}

impl Duplicate for ProcessInstanceState {
    fn duplicate(&self) -> (r: Self) {
        self.clone()
    }
}

impl Clone for ProcessInstanceState {
    fn clone(&self) -> (r: Self)
        ensures
            r@ == self@,
    {
        ProcessInstanceState { inner: self.inner.clone() }
    }
}

} // verus!
