//! Queries and their results.

use vstd::prelude::*;
use crate::data::{DataIndividualId, DataIndividualMetadataEvent, MetadataEventView};
use crate::ingest::{EventTimestamp, PipelineEvent, PipelineEventView};
use crate::metadata::MetadataRef;
use crate::ordered::{duplicate_all, views};
use crate::process::{
    ActivityId, PipelineId, ProcessInstanceId, ProcessInstanceSnapshot, ProcessStatus, ProcessView,
};

verus! {

/// Asks for one process instance.
#[derive(Debug, Clone, PartialEq, Eq)]
pub struct ProcessInstanceQuery {
    pub process_instance_id: ProcessInstanceId,
}

/// Asks for the instances of a pipeline.
#[derive(Debug, Clone, PartialEq, Eq)]
pub struct PipelineQuery {
    pub pipeline_id: PipelineId,
    pub limit: QueryLimit,
}

/// Asks for the events of a process instance.
#[derive(Debug, Clone, PartialEq, Eq)]
pub struct EventQuery {
    pub process_instance_id: ProcessInstanceId,
    pub limit: QueryLimit,
}

/// Asks for the events that refer to a metadata object.
#[derive(Debug, Clone, PartialEq, Eq)]
pub struct ImpactQuery {
    pub metadata_ref: MetadataRef,
    pub limit: QueryLimit,
}

/// Asks for the process instances with a status.
#[derive(Debug, Clone, Copy, PartialEq, Eq)]
pub struct ProcessStatusQuery {
    pub status: ProcessStatus,
    pub limit: QueryLimit,
}

/// Asks for the events between two instants, both included; a missing bound excludes
/// nothing.
#[derive(Debug, Clone, PartialEq, Eq)]
pub struct TimeRangeQuery {
    pub start: Option<EventTimestamp>,
    pub end: Option<EventTimestamp>,
    pub limit: QueryLimit,
}

/// Asks for the metadata events of a data individual.
#[derive(Debug, Clone, PartialEq, Eq)]
pub struct DataIndividualMetadataQuery {
    pub data_individual_id: DataIndividualId,
    pub limit: QueryLimit,
}

/// Asks for the metadata events of a process instance.
#[derive(Debug, Clone, PartialEq, Eq)]
pub struct ProcessMetadataQuery {
    pub process_instance_id: ProcessInstanceId,
    pub limit: QueryLimit,
}

/// Asks for the metadata events of an activity of a process instance.
#[derive(Debug, Clone, PartialEq, Eq)]
pub struct ActivityMetadataQuery {
    pub process_instance_id: ProcessInstanceId,
    pub activity_id: ActivityId,
    pub limit: QueryLimit,
}

/// The largest number of results that a query returns: at least one.
#[derive(Debug, Clone, Copy, PartialEq, Eq)]
pub struct QueryLimit(usize);

impl View for QueryLimit {
    type V = nat;

    closed spec fn view(&self) -> nat {
        self.0 as nat
    }
}

impl QueryLimit {
    #[verifier::type_invariant]
    spec fn inv(self) -> bool {
        self.0 >= 1
    }

    /// A limit; zero counts as one.
    pub fn new(limit: usize) -> (r: Self)
        ensures
            r@ == (if limit == 0 {
                1nat
            } else {
                limit as nat
            }),
    {
        if limit == 0 {
            QueryLimit(1)
        } else {
            QueryLimit(limit)
        }
    }

    /// The limit as a number.
    pub fn value(self) -> (r: usize)
        ensures
            r == self@,
            r >= 1,
    {
        proof {
            use_type_invariant(&self);
        }
        self.0
    }

    /// Whether a number of results exhausts the limit.
    pub fn reached(self, count: usize) -> (r: bool)
        ensures
            r == (count >= self@),
    {
        count >= self.0
    }
}

/// The limit that applies where none is given.
impl Default for QueryLimit {
    fn default() -> (r: Self)
        ensures
            r@ == 100,
    {
        QueryLimit(100)
    }
}

/// The result of a query.
#[derive(Debug, PartialEq, Eq)]
pub enum QueryResult {
    ProcessInstances(Vec<ProcessInstanceSnapshot>),
    Events(Vec<PipelineEvent>),
    MetadataEvents(Vec<DataIndividualMetadataEvent>),
}

/// The view of a query result.
pub enum QueryResultView {
    ProcessInstances(Seq<ProcessView>),
    Events(Seq<PipelineEventView>),
    MetadataEvents(Seq<MetadataEventView>),
}

impl View for QueryResult {
    type V = QueryResultView;

    open spec fn view(&self) -> QueryResultView {
        match self {
            QueryResult::ProcessInstances(items) => QueryResultView::ProcessInstances(views(items@)),
            QueryResult::Events(items) => QueryResultView::Events(views(items@)),
            QueryResult::MetadataEvents(items) => QueryResultView::MetadataEvents(views(items@)),
        }
    }
}

impl Clone for QueryResult {
    fn clone(&self) -> (r: Self)
        ensures
            r@ == self@,
    {
        match self {
            QueryResult::ProcessInstances(items) => QueryResult::ProcessInstances(duplicate_all(items)),
            QueryResult::Events(items) => QueryResult::Events(duplicate_all(items)),
            QueryResult::MetadataEvents(items) => QueryResult::MetadataEvents(duplicate_all(items)),
        }
    }
}

} // verus!
