//! Shard-local runtime: one hot index for each logical shard, routing of process instances
//! to shards, bounded ingest queues, and queries that go to every shard.

use vstd::prelude::*;
use vstd::utf8::encode_utf8;
use std::collections::VecDeque;
use crate::hash::{checksum, fnv};
use crate::index::{
    empty_index, events_between, in_range, index_complete, index_consistent, ingest_result, ingested, keep_first, later,
    law_affected_pipelines_are_exact, law_impact_is_complete, law_ingest_keeps_completeness,
    law_ingest_keeps_consistency, law_instances_are_complete, law_time_range_is_complete, lemma_affected_finite,
    listed_events, matching_instances, of_pipeline, pipelines_affected, sort_by_time, with_status, HotIndex,
    HotIndexView, IngestOutcome,
};
use crate::ingest::{empty_field, is_valid, IngestError, PipelineEvent, PipelineEventView};
use crate::metadata::{MetadataRef, MetadataRefView};
use crate::observability::HotIndexSnapshot;
use crate::ordered::{
    first_n, lemma_listing_exists, lemma_stable_sort_multiset, opt_view, sorted, stable_sort, views, SortedSet,
};
use crate::process::{PipelineId, ProcessInstanceId, ProcessInstanceSnapshot, ProcessView};
use crate::query::{
    EventQuery, ImpactQuery, PipelineQuery, ProcessInstanceQuery, ProcessStatusQuery, QueryLimit, QueryResult,
    QueryResultView, TimeRangeQuery,
};
use crate::text::{decimal, push_decimal, push_text};

verus! {

/// Number of a logical shard.
#[derive(Debug, Clone, Copy, PartialEq, Eq, PartialOrd, Ord, Hash, Structural)]
pub struct LogicalShardId(pub usize);

impl View for LogicalShardId {
    type V = usize;

    open spec fn view(&self) -> usize {
        self.0
    }
}

// ---------------------------------------------------------------------------
// Errors
// ---------------------------------------------------------------------------

/// What can go wrong in a runtime.
#[derive(Debug, PartialEq, Eq)]
pub enum RuntimeError {
    NoShards,
    QueueCapacityZero,
    QueueFull { shard_id: LogicalShardId, capacity: usize },
    InvalidShard { shard_id: LogicalShardId },
    Ingest(IngestError),
}

/// The view of a runtime error.
pub enum RuntimeErrorView {
    NoShards,
    QueueCapacityZero,
    QueueFull(usize, usize),
    InvalidShard(usize),
    Ingest(Seq<char>),
}

impl View for RuntimeError {
    type V = RuntimeErrorView;

    open spec fn view(&self) -> RuntimeErrorView {
        match self {
            RuntimeError::NoShards => RuntimeErrorView::NoShards,
            RuntimeError::QueueCapacityZero => RuntimeErrorView::QueueCapacityZero,
            RuntimeError::QueueFull { shard_id, capacity } => RuntimeErrorView::QueueFull(shard_id.0, *capacity),
            RuntimeError::InvalidShard { shard_id } => RuntimeErrorView::InvalidShard(shard_id.0),
            RuntimeError::Ingest(e) => RuntimeErrorView::Ingest(e->field@),
        }
    }
}

/// The text of a runtime error.
pub open spec fn runtime_error_text(e: RuntimeErrorView) -> Seq<char> {
    match e {
        RuntimeErrorView::NoShards => "shard-local runtime requires at least one shard"@,
        RuntimeErrorView::QueueCapacityZero => "bounded ingest runtime requires non-zero queue capacity"@,
        RuntimeErrorView::QueueFull(shard, capacity) => "ingest queue for logical shard "@ + decimal(shard as nat)
            + " is full at capacity "@ + decimal(capacity as nat),
        RuntimeErrorView::InvalidShard(shard) => "logical shard "@ + decimal(shard as nat) + " does not exist"@,
        RuntimeErrorView::Ingest(field) => "event field "@ + field + " must not be empty"@,
    }
}

impl RuntimeError {
    /// The error as a text for an operator.
    pub fn describe(&self) -> (r: String)
        ensures
            r@ == runtime_error_text(self@),
    {
        match self {
            RuntimeError::NoShards => "shard-local runtime requires at least one shard".to_owned(),
            RuntimeError::QueueCapacityZero => "bounded ingest runtime requires non-zero queue capacity".to_owned(),
            RuntimeError::QueueFull { shard_id, capacity } => {
                let mut out = "ingest queue for logical shard ".to_owned();
                push_decimal(&mut out, shard_id.0 as u64);
                push_text(&mut out, " is full at capacity ");
                push_decimal(&mut out, *capacity as u64);
                out
            },
            RuntimeError::InvalidShard { shard_id } => {
                let mut out = "logical shard ".to_owned();
                push_decimal(&mut out, shard_id.0 as u64);
                push_text(&mut out, " does not exist");
                out
            },
            RuntimeError::Ingest(error) => error.describe(),
        }
    }
}

impl Clone for RuntimeError {
    fn clone(&self) -> (r: Self)
        ensures
            r == *self,
    {
        match self {
            RuntimeError::NoShards => RuntimeError::NoShards,
            RuntimeError::QueueCapacityZero => RuntimeError::QueueCapacityZero,
            RuntimeError::QueueFull { shard_id, capacity } => RuntimeError::QueueFull {
                shard_id: *shard_id,
                capacity: *capacity,
            },
            RuntimeError::InvalidShard { shard_id } => RuntimeError::InvalidShard { shard_id: *shard_id },
            RuntimeError::Ingest(error) => RuntimeError::Ingest(error.clone()),
        }
    }
}

// ---------------------------------------------------------------------------
// Routing
// ---------------------------------------------------------------------------

/// The shard that owns a process instance.
pub open spec fn shard_of(process_instance_id: Seq<char>, shard_count: nat) -> int {
    (fnv(encode_utf8(process_instance_id)) as usize) as int % shard_count as int
}

/// The shard that owns a process instance.
pub fn shard_for_process_instance(process_instance_id: &ProcessInstanceId, shard_count: usize) -> (r: LogicalShardId)
    requires
        shard_count > 0,
    ensures
        r@ == shard_of(process_instance_id@, shard_count as nat),
        r@ < shard_count,
{
    let state: u64 = checksum(process_instance_id.as_str().as_bytes());
    LogicalShardId((state as usize) % shard_count)
}

/// The shards after an event has been offered to the one that owns its process instance.
pub open spec fn ingested_at(shards: Seq<HotIndexView>, e: PipelineEventView) -> Seq<HotIndexView> {
    let i = shard_of(e.process_instance_id, shards.len());
    shards.update(i, ingested(shards[i], e))
}

// ---------------------------------------------------------------------------
// Queries that go to every shard
// ---------------------------------------------------------------------------

/// The answers of the shards one after another, until there are enough of them: each shard
/// is asked for as many as are still wanted.
pub open spec fn fan_out<T>(
    shards: Seq<HotIndexView>,
    answer: spec_fn(HotIndexView, nat) -> Seq<T>,
    limit: nat,
) -> Seq<T>
    decreases shards.len(),
{
    if shards.len() == 0 {
        Seq::empty()
    } else {
        let sofar = fan_out(shards.drop_last(), answer, limit);
        if sofar.len() >= limit {
            sofar
        } else {
            sofar + answer(shards.last(), (limit - sofar.len()) as nat)
        }
    }
}

/// How a shard answers a query for instances.
pub open spec fn instances_answer(wanted: spec_fn(ProcessView) -> bool) -> spec_fn(HotIndexView, nat) -> Seq<
    ProcessView,
> {
    |m: HotIndexView, n: nat| matching_instances(m, wanted, n)
}

/// How a shard answers an impact query.
pub open spec fn impact_answer(r: MetadataRefView) -> spec_fn(HotIndexView, nat) -> Seq<PipelineEventView> {
    |m: HotIndexView, n: nat| listed_events(m, m.by_ref, r, n)
}

/// How a shard answers a time-range query.
pub open spec fn range_answer(start: Option<Seq<char>>, end: Option<Seq<char>>) -> spec_fn(HotIndexView, nat) -> Seq<
    PipelineEventView,
> {
    |m: HotIndexView, n: nat| events_between(m, start, end, n)
}

/// The answer of all shards to a time-range query.
pub open spec fn merged_range(
    shards: Seq<HotIndexView>,
    start: Option<Seq<char>>,
    end: Option<Seq<char>>,
    limit: nat,
) -> Seq<PipelineEventView> {
    first_n(stable_sort(fan_out(shards, range_answer(start, end), limit), later()), limit)
}

/// The pipelines of all shards with an event that refers to a metadata object.
pub open spec fn affected_in(shards: Seq<HotIndexView>, r: MetadataRefView) -> Set<Seq<char>>
    decreases shards.len(),
{
    if shards.len() == 0 {
        Set::empty()
    } else {
        affected_in(shards.drop_last(), r).union(pipelines_affected(shards.last(), r))
    }
}

/// The sum of a number over the shards.
pub open spec fn total(shards: Seq<HotIndexView>, number: spec_fn(HotIndexView) -> nat) -> nat
    decreases shards.len(),
{
    if shards.len() == 0 {
        0
    } else {
        total(shards.drop_last(), number) + number(shards.last())
    }
}

/// A number, or the largest one that fits.
pub open spec fn at_most(n: nat, max: nat) -> nat {
    if n <= max {
        n
    } else {
        max
    }
}

/// Whether a snapshot tells of an index.
pub open spec fn snapshot_of(s: HotIndexSnapshot, m: HotIndexView) -> bool {
    &&& s.process_instance_count == m.processes.len()
    &&& s.event_count == m.events.len()
    &&& s.pipeline_count == m.by_pipeline.len()
    &&& s.metadata_ref_count == m.by_ref.len()
    &&& s.duplicate_events == m.duplicate_events
    &&& s.rejected_events == m.rejected_events
}

/// Whether a snapshot holds the sums over the shards.
pub open spec fn totals_of(s: HotIndexSnapshot, shards: Seq<HotIndexView>) -> bool {
    &&& s.process_instance_count == at_most(total(shards, |m: HotIndexView| m.processes.len()), usize::MAX as nat)
    &&& s.event_count == at_most(total(shards, |m: HotIndexView| m.events.len()), usize::MAX as nat)
    &&& s.pipeline_count == at_most(total(shards, |m: HotIndexView| m.by_pipeline.len()), usize::MAX as nat)
    &&& s.metadata_ref_count == at_most(total(shards, |m: HotIndexView| m.by_ref.len()), usize::MAX as nat)
    &&& s.duplicate_events == at_most(
        total(shards, |m: HotIndexView| m.duplicate_events as nat),
        u64::MAX as nat,
    )
    &&& s.rejected_events == at_most(total(shards, |m: HotIndexView| m.rejected_events as nat), u64::MAX as nat)
}

/// What came of offering an event to its shard.
#[derive(Debug, Clone, Copy, PartialEq, Eq)]
pub struct ShardIngestOutcome {
    pub shard_id: LogicalShardId,
    pub outcome: IngestOutcome,
}

/// The sizes of one shard.
#[derive(Debug, Clone, Copy, PartialEq, Eq)]
pub struct ShardSnapshot {
    pub shard_id: LogicalShardId,
    pub hot_index: HotIndexSnapshot,
}

/// The sizes of all shards, and their sums.
#[derive(Debug, Clone, PartialEq, Eq)]
pub struct ShardRuntimeSnapshot {
    pub shards: Vec<ShardSnapshot>,
    pub totals: HotIndexSnapshot,
}

/// Whether a snapshot tells of the shards.
pub open spec fn runtime_snapshot_of(s: ShardRuntimeSnapshot, shards: Seq<HotIndexView>) -> bool {
    &&& s.shards.len() == shards.len()
    &&& forall|i: int|
        0 <= i < shards.len() ==> (#[trigger] s.shards@[i]).shard_id@ == i && snapshot_of(
            s.shards@[i].hot_index,
            shards[i],
        )
    &&& totals_of(s.totals, shards)
}

/// A hot index for each logical shard.
///
/// A process instance belongs to one shard; values that cross a shard boundary are owned.
#[derive(Debug)]
pub struct ShardLocalRuntime {
    shards: Vec<HotIndex>,
}

impl View for ShardLocalRuntime {
    type V = Seq<HotIndexView>;

    closed spec fn view(&self) -> Seq<HotIndexView> {
        views(self.shards@)
    }
}

fn append_instances(out: &mut Vec<ProcessInstanceSnapshot>, more: QueryResult)
    requires
        more is ProcessInstances,
    ensures
        views(final(out)@) == views(old(out)@) + more@->ProcessInstances_0,
{
    if let QueryResult::ProcessInstances(items) = more {
        let mut items = items;
        let ghost before = out@;
        let ghost added = items@;
        out.append(&mut items);
        assert(views(out@) =~= views(before) + views(added));
    }
}

fn append_events(out: &mut Vec<PipelineEvent>, more: QueryResult)
    requires
        more is Events,
    ensures
        views(final(out)@) == views(old(out)@) + more@->Events_0,
{
    if let QueryResult::Events(items) = more {
        let mut items = items;
        let ghost before = out@;
        let ghost added = items@;
        out.append(&mut items);
        assert(views(out@) =~= views(before) + views(added));
    }
}

impl ShardLocalRuntime {
    /// There is a shard.
    #[verifier::type_invariant]
    spec fn has_a_shard(&self) -> bool {
        self.shards.len() > 0
    }

    /// A runtime with so many empty shards; there must be one.
    pub fn new(shard_count: usize) -> (r: Result<Self, RuntimeError>)
        ensures
            match r {
                Ok(runtime) => shard_count > 0 && runtime@ == Seq::new(shard_count as nat, |i: int| empty_index()),
                Err(e) => shard_count == 0 && e@ == RuntimeErrorView::NoShards,
            },
    {
        if shard_count == 0 {
            return Err(RuntimeError::NoShards);
        }
        let mut shards: Vec<HotIndex> = Vec::new();
        let mut i: usize = 0;
        while i < shard_count
            invariant
                i <= shard_count,
                shards.len() == i,
                forall|j: int| 0 <= j < i ==> (#[trigger] shards@[j])@ == empty_index(),
            decreases shard_count - i,
        {
            shards.push(HotIndex::new());
            i += 1;
        }
        assert(views(shards@) =~= Seq::new(shard_count as nat, |i: int| empty_index()));
        Ok(ShardLocalRuntime { shards })
    }

    /// The number of shards.
    pub fn shard_count(&self) -> (r: usize)
        ensures
            r == self@.len(),
            r > 0,
    {
        proof {
            use_type_invariant(self);
        }
        self.shards.len()
    }

    /// The shard that owns a process instance.
    pub fn shard_for_process_instance(&self, process_instance_id: &ProcessInstanceId) -> (r: LogicalShardId)
        ensures
            r@ == shard_of(process_instance_id@, self@.len()),
            r@ < self@.len(),
    {
        proof {
            use_type_invariant(self);
        }
        shard_for_process_instance(process_instance_id, self.shards.len())
    }

    /// Offers an event to the shard that owns its process instance.
    pub fn ingest(&mut self, event: PipelineEvent) -> (r: Result<ShardIngestOutcome, RuntimeError>)
        ensures
            final(self)@ == ingested_at(old(self)@, event@),
            match r {
                Ok(x) => {
                    let i = shard_of(event@.process_instance_id, old(self)@.len());
                    &&& x.shard_id@ == i
                    &&& ingest_result(old(self)@[i], event@, Ok(x.outcome))
                },
                Err(e) => empty_field(event@) matches Some(field) && e@ == RuntimeErrorView::Ingest(field),
            },
    {
        let shard_id = self.shard_for_process_instance(event.process_instance_id());
        let ghost before = views(self.shards@);
        let ghost e = event@;
        let ghost index = before[shard_id.0 as int];
        let mut shard = HotIndex::new();
        std::mem::swap(&mut shard, &mut self.shards[shard_id.0]);
        let result = shard.ingest(event);
        std::mem::swap(&mut shard, &mut self.shards[shard_id.0]);
        assert(views(self.shards@) =~= before.update(shard_id.0 as int, ingested(index, e)));
        match result {
            Ok(outcome) => Ok(ShardIngestOutcome { shard_id, outcome }),
            Err(error) => Err(RuntimeError::Ingest(error)),
        }
    }

    /// The state of a process instance, asked of the shard that owns it.
    pub fn process_instance(&self, query: &ProcessInstanceQuery) -> (r: Option<ProcessInstanceSnapshot>)
        ensures
            ({
                let m = self@[shard_of(query.process_instance_id@, self@.len())];
                match r {
                    Some(p) => m.processes.contains_key(query.process_instance_id@) && p@
                        == m.processes[query.process_instance_id@],
                    None => !m.processes.contains_key(query.process_instance_id@),
                }
            }),
    {
        let shard_id = self.shard_for_process_instance(&query.process_instance_id);
        self.shards[shard_id.0].process_instance(query)
    }

    /// The events of a process instance, asked of the shard that owns it.
    pub fn events(&self, query: &EventQuery) -> (r: QueryResult)
        ensures
            ({
                let m = self@[shard_of(query.process_instance_id@, self@.len())];
                r@ == QueryResultView::Events(
                    listed_events(m, m.by_process, query.process_instance_id@, query.limit@),
                )
            }),
    {
        let shard_id = self.shard_for_process_instance(&query.process_instance_id);
        self.shards[shard_id.0].events(query)
    }

    /// The instances of a pipeline, asked of every shard.
    pub fn pipeline_instances(&self, query: &PipelineQuery) -> (r: QueryResult)
        ensures
            r@ == QueryResultView::ProcessInstances(
                fan_out(self@, instances_answer(of_pipeline(query.pipeline_id@)), query.limit@),
            ),
    {
        let limit: usize = query.limit.value();
        let ghost answer = instances_answer(of_pipeline(query.pipeline_id@));
        let ghost all = self@;
        let mut instances: Vec<ProcessInstanceSnapshot> = Vec::new();
        let mut i: usize = 0;
        assert(views(instances@) =~= fan_out(all.take(0), answer, limit as nat));
        while i < self.shards.len()
            invariant
                i <= self.shards.len(),
                all == views(self.shards@),
                limit == query.limit@,
                answer == instances_answer(of_pipeline(query.pipeline_id@)),
                views(instances@) == fan_out(all.take(i as int), answer, limit as nat),
            decreases self.shards.len() - i,
        {
            assert(all.take(i + 1).drop_last() =~= all.take(i as int));
            assert(views(instances@).len() == instances.len());
            if instances.len() < limit {
                let shard_query = PipelineQuery {
                    pipeline_id: query.pipeline_id.clone(),
                    limit: QueryLimit::new(limit - instances.len()),
                };
                let partial = self.shards[i].pipeline_instances(&shard_query);
                append_instances(&mut instances, partial);
            }
            i += 1;
        }
        assert(all.take(self.shards.len() as int) =~= all);
        QueryResult::ProcessInstances(instances)
    }

    /// The events that refer to a metadata object, asked of every shard.
    pub fn impact(&self, query: &ImpactQuery) -> (r: QueryResult)
        ensures
            r@ == QueryResultView::Events(fan_out(self@, impact_answer(query.metadata_ref@), query.limit@)),
    {
        let limit: usize = query.limit.value();
        let ghost answer = impact_answer(query.metadata_ref@);
        let ghost all = self@;
        let mut events: Vec<PipelineEvent> = Vec::new();
        let mut i: usize = 0;
        assert(views(events@) =~= fan_out(all.take(0), answer, limit as nat));
        while i < self.shards.len()
            invariant
                i <= self.shards.len(),
                all == views(self.shards@),
                limit == query.limit@,
                answer == impact_answer(query.metadata_ref@),
                views(events@) == fan_out(all.take(i as int), answer, limit as nat),
            decreases self.shards.len() - i,
        {
            assert(all.take(i + 1).drop_last() =~= all.take(i as int));
            assert(views(events@).len() == events.len());
            if events.len() < limit {
                let shard_query = ImpactQuery {
                    metadata_ref: query.metadata_ref.clone(),
                    limit: QueryLimit::new(limit - events.len()),
                };
                let partial = self.shards[i].impact(&shard_query);
                append_events(&mut events, partial);
            }
            i += 1;
        }
        assert(all.take(self.shards.len() as int) =~= all);
        QueryResult::Events(events)
    }

    /// The instances with a status, asked of every shard.
    pub fn process_instances_by_status(&self, query: &ProcessStatusQuery) -> (r: QueryResult)
        ensures
            r@ == QueryResultView::ProcessInstances(
                fan_out(self@, instances_answer(with_status(query.status)), query.limit@),
            ),
    {
        let limit: usize = query.limit.value();
        let ghost answer = instances_answer(with_status(query.status));
        let ghost all = self@;
        let mut instances: Vec<ProcessInstanceSnapshot> = Vec::new();
        let mut i: usize = 0;
        assert(views(instances@) =~= fan_out(all.take(0), answer, limit as nat));
        while i < self.shards.len()
            invariant
                i <= self.shards.len(),
                all == views(self.shards@),
                limit == query.limit@,
                answer == instances_answer(with_status(query.status)),
                views(instances@) == fan_out(all.take(i as int), answer, limit as nat),
            decreases self.shards.len() - i,
        {
            assert(all.take(i + 1).drop_last() =~= all.take(i as int));
            assert(views(instances@).len() == instances.len());
            if instances.len() < limit {
                let shard_query = ProcessStatusQuery {
                    status: query.status,
                    limit: QueryLimit::new(limit - instances.len()),
                };
                let partial = self.shards[i].process_instances_by_status(&shard_query);
                append_instances(&mut instances, partial);
            }
            i += 1;
        }
        assert(all.take(self.shards.len() as int) =~= all);
        QueryResult::ProcessInstances(instances)
    }

    /// The events between two instants, asked of every shard, the earliest first.
    pub fn events_in_time_range(&self, query: &TimeRangeQuery) -> (r: QueryResult)
        ensures
            r@ == QueryResultView::Events(
                merged_range(self@, opt_view(query.start), opt_view(query.end), query.limit@),
            ),
    {
        let limit: usize = query.limit.value();
        let ghost answer = range_answer(opt_view(query.start), opt_view(query.end));
        let ghost all = self@;
        let mut events: Vec<PipelineEvent> = Vec::new();
        let mut i: usize = 0;
        assert(views(events@) =~= fan_out(all.take(0), answer, limit as nat));
        while i < self.shards.len()
            invariant
                i <= self.shards.len(),
                all == views(self.shards@),
                limit == query.limit@,
                answer == range_answer(opt_view(query.start), opt_view(query.end)),
                views(events@) == fan_out(all.take(i as int), answer, limit as nat),
            decreases self.shards.len() - i,
        {
            assert(all.take(i + 1).drop_last() =~= all.take(i as int));
            assert(views(events@).len() == events.len());
            if events.len() < limit {
                let shard_query = TimeRangeQuery {
                    start: query.start.clone(),
                    end: query.end.clone(),
                    limit: QueryLimit::new(limit - events.len()),
                };
                let partial = self.shards[i].events_in_time_range(&shard_query);
                append_events(&mut events, partial);
            }
            i += 1;
        }
        assert(all.take(self.shards.len() as int) =~= all);
        QueryResult::Events(keep_first(sort_by_time(events), limit))
    }

    /// The pipelines with an event that refers to a metadata object, asked of every shard,
    /// in order.
    pub fn affected_pipelines(&self, metadata_ref: &MetadataRef) -> (r: Vec<PipelineId>)
        ensures
            views(r@) == sorted::<PipelineId>(affected_in(self@, metadata_ref@)),
    {
        let ghost all = self@;
        let mut pipelines: SortedSet<PipelineId> = SortedSet::new();
        let mut i: usize = 0;
        assert(pipelines@ =~= affected_in(all.take(0), metadata_ref@));
        while i < self.shards.len()
            invariant
                i <= self.shards.len(),
                all == views(self.shards@),
                pipelines@ == affected_in(all.take(i as int), metadata_ref@),
            decreases self.shards.len() - i,
        {
            assert(all.take(i + 1).drop_last() =~= all.take(i as int));
            let found = self.shards[i].affected_pipelines(metadata_ref);
            let ghost before = pipelines@;
            insert_all(&mut pipelines, &found);
            proof {
                let set = pipelines_affected(all[i as int], metadata_ref@);
                crate::index::lemma_affected_finite(all[i as int], metadata_ref@);
                crate::ordered::lemma_listing_exists::<PipelineId>(set);
                assert(views(found@).to_set() =~= set);
                assert(pipelines@ =~= before.union(set));
            }
            i += 1;
        }
        assert(all.take(self.shards.len() as int) =~= all);
        pipelines.to_vec()
    }

    /// The sizes of all shards, and their sums.
    pub fn snapshot(&self) -> (r: ShardRuntimeSnapshot)
        ensures
            runtime_snapshot_of(r, self@),
    {
        let ghost all = self@;
        let mut shards: Vec<ShardSnapshot> = Vec::new();
        let mut totals = HotIndexSnapshot {
            process_instance_count: 0,
            event_count: 0,
            pipeline_count: 0,
            metadata_ref_count: 0,
            duplicate_events: 0,
            rejected_events: 0,
        };
        let mut i: usize = 0;
        while i < self.shards.len()
            invariant
                i <= self.shards.len(),
                all == views(self.shards@),
                shards.len() == i,
                forall|j: int|
                    0 <= j < i ==> (#[trigger] shards@[j]).shard_id@ == j && snapshot_of(shards@[j].hot_index, all[j]),
                totals_of(totals, all.take(i as int)),
            decreases self.shards.len() - i,
        {
            assert(all.take(i + 1).drop_last() =~= all.take(i as int));
            assert(all.take(i + 1).last() == all[i as int]);
            let hot_index = self.shards[i].snapshot();
            shards.push(ShardSnapshot { shard_id: LogicalShardId(i), hot_index });
            totals = HotIndexSnapshot {
                process_instance_count: totals.process_instance_count.saturating_add(
                    hot_index.process_instance_count,
                ),
                event_count: totals.event_count.saturating_add(hot_index.event_count),
                pipeline_count: totals.pipeline_count.saturating_add(hot_index.pipeline_count),
                metadata_ref_count: totals.metadata_ref_count.saturating_add(hot_index.metadata_ref_count),
                duplicate_events: totals.duplicate_events.saturating_add(hot_index.duplicate_events),
                rejected_events: totals.rejected_events.saturating_add(hot_index.rejected_events),
            };
            i += 1;
        }
        assert(all.take(self.shards.len() as int) =~= all);
        ShardRuntimeSnapshot { shards, totals }
    }

    /// A shard.
    pub fn shard(&self, shard_id: LogicalShardId) -> (r: Option<&HotIndex>)
        ensures
            match r {
                Some(index) => shard_id@ < self@.len() && index@ == self@[shard_id@ as int],
                None => shard_id@ >= self@.len(),
            },
    {
        if shard_id.0 < self.shards.len() {
            Some(&self.shards[shard_id.0])
        } else {
            None
        }
    }
}

/// Adds items to a set.
pub fn insert_all(set: &mut SortedSet<PipelineId>, items: &Vec<PipelineId>)
    ensures
        final(set)@ == old(set)@.union(views(items@).to_set()),
{
    let ghost before = set@;
    let ghost all = views(items@);
    let mut i: usize = 0;
    assert(set@ =~= before.union(all.take(0).to_set()));
    while i < items.len()
        invariant
            i <= items.len(),
            all == views(items@),
            set@ == before.union(all.take(i as int).to_set()),
        decreases items.len() - i,
    {
        let _ = set.insert(items[i].clone());
        proof {
            let n = all.take(i + 1);
            assert(n =~= all.take(i as int).push(all[i as int]));
            assert forall|k: Seq<char>| set@.contains(k) == before.union(n.to_set()).contains(k) by {
                if all.take(i as int).contains(k) {
                    let j = choose|j: int| 0 <= j < i && all.take(i as int)[j] == k;
                    assert(n[j] == k);
                }
                if k == all[i as int] {
                    assert(n[i as int] == k);
                }
                if n.contains(k) {
                    let j = choose|j: int| 0 <= j < n.len() && n[j] == k;
                    if j < i {
                        assert(all.take(i as int)[j] == k);
                    }
                }
            }
            assert(set@ =~= before.union(n.to_set()));
        }
        i += 1;
    }
    assert(all.take(items.len() as int) =~= all);
}

impl Default for ShardLocalRuntime {
    fn default() -> (r: Self)
        ensures
            r@ == seq![empty_index()],
    {
        let mut shards: Vec<HotIndex> = Vec::new();
        shards.push(HotIndex::new());
        assert(views(shards@) =~= seq![empty_index()]);
        ShardLocalRuntime { shards }
    }
}

// ---------------------------------------------------------------------------
// Bounded ingest
// ---------------------------------------------------------------------------

/// What came of submitting an event.
#[derive(Debug, Clone, Copy, PartialEq, Eq)]
pub struct QueuedIngestOutcome {
    pub shard_id: LogicalShardId,
    pub queued_depth: usize,
    pub capacity: usize,
}

/// What draining a queue did.
#[derive(Debug, Clone, Copy, PartialEq, Eq, Structural)]
pub struct IngestDrainSummary {
    pub shard_id: LogicalShardId,
    pub attempted: usize,
    pub accepted: usize,
    pub duplicates: usize,
    pub failed: usize,
    pub remaining_depth: usize,
}

/// The depth of a queue.
#[derive(Debug, Clone, Copy, PartialEq, Eq)]
pub struct IngestQueueSnapshot {
    pub shard_id: LogicalShardId,
    pub depth: usize,
    pub capacity: usize,
}

/// The sizes of the shards and of their queues.
#[derive(Debug, Clone, PartialEq, Eq)]
pub struct BoundedIngestRuntimeSnapshot {
    pub runtime: ShardRuntimeSnapshot,
    pub queues: Vec<IngestQueueSnapshot>,
}

/// A runtime with a bounded queue before each shard: events are submitted to a queue, and
/// the shard drains its queue into its index.
#[derive(Debug)]
pub struct BoundedIngestRuntime {
    runtime: ShardLocalRuntime,
    queues: Vec<VecDeque<PipelineEvent>>,
    per_shard_capacity: usize,
}

/// The view of a bounded runtime.
pub struct BoundedView {
    pub shards: Seq<HotIndexView>,
    pub queues: Seq<Seq<PipelineEventView>>,
    pub capacity: usize,
}

/// The events that wait in a queue.
pub open spec fn waiting(queue: VecDeque<PipelineEvent>) -> Seq<PipelineEventView> {
    views(queue@)
}

impl View for BoundedIngestRuntime {
    type V = BoundedView;

    closed spec fn view(&self) -> BoundedView {
        BoundedView {
            shards: self.runtime@,
            queues: Seq::new(self.queues@.len(), |i: int| waiting(self.queues@[i])),
            capacity: self.per_shard_capacity,
        }
    }
}

/// Whether a bounded runtime is well formed: there is a shard, each shard has a queue, and
/// no queue is longer than the capacity.
pub open spec fn well_formed(b: BoundedView) -> bool {
    &&& b.shards.len() > 0
    &&& b.queues.len() == b.shards.len()
    &&& b.capacity > 0
    &&& forall|i: int| 0 <= i < b.queues.len() ==> (#[trigger] b.queues[i]).len() <= b.capacity
}

/// Why an event cannot be submitted.
pub open spec fn submit_refusal(b: BoundedView, e: PipelineEventView) -> Option<RuntimeErrorView> {
    match empty_field(e) {
        Some(field) => Some(RuntimeErrorView::Ingest(field)),
        None => {
            let i = shard_of(e.process_instance_id, b.shards.len());
            if b.queues[i].len() >= b.capacity {
                Some(RuntimeErrorView::QueueFull(i as usize, b.capacity))
            } else {
                None
            }
        },
    }
}

/// The runtime after an event has been submitted.
pub open spec fn submitted(b: BoundedView, e: PipelineEventView) -> BoundedView {
    if submit_refusal(b, e) is None {
        let i = shard_of(e.process_instance_id, b.shards.len());
        BoundedView { queues: b.queues.update(i, b.queues[i].push(e)), ..b }
    } else {
        b
    }
}

/// The shards after events have been offered one after another.
pub open spec fn ingested_all(shards: Seq<HotIndexView>, events: Seq<PipelineEventView>) -> Seq<HotIndexView>
    decreases events.len(),
{
    if events.len() == 0 {
        shards
    } else {
        ingested_at(ingested_all(shards, events.drop_last()), events.last())
    }
}

/// What the offer of an event comes to.
pub enum Offer {
    Accepted,
    Duplicate,
    Rejected,
}

/// What the offer of an event to its shard comes to.
pub open spec fn offer(shards: Seq<HotIndexView>, e: PipelineEventView) -> Offer {
    if !is_valid(e) {
        Offer::Rejected
    } else if shards[shard_of(e.process_instance_id, shards.len())].events.contains_key(e.event_id) {
        Offer::Duplicate
    } else {
        Offer::Accepted
    }
}

/// How many of the events, offered one after another, come to the given.
pub open spec fn count_offers(shards: Seq<HotIndexView>, events: Seq<PipelineEventView>, what: Offer) -> nat
    decreases events.len(),
{
    if events.len() == 0 {
        0
    } else {
        count_offers(shards, events.drop_last(), what) + if offer(
            ingested_all(shards, events.drop_last()),
            events.last(),
        ) == what {
            1nat
        } else {
            0nat
        }
    }
}

/// The events that a drain takes from a queue: the ones that have waited longest.
pub open spec fn drain_taken(b: BoundedView, i: int, max_events: nat) -> Seq<PipelineEventView> {
    first_n(b.queues[i], max_events)
}

/// The runtime after a queue has been drained.
pub open spec fn after_drain(b: BoundedView, i: int, max_events: nat) -> BoundedView {
    let taken = drain_taken(b, i, max_events);
    BoundedView {
        shards: ingested_all(b.shards, taken),
        queues: b.queues.update(i, b.queues[i].skip(taken.len() as int)),
        ..b
    }
}

/// Whether a summary tells of the drain of a queue.
pub open spec fn drain_summary_of(s: IngestDrainSummary, b: BoundedView, i: int, max_events: nat) -> bool {
    let taken = drain_taken(b, i, max_events);
    &&& s.shard_id@ == i
    &&& s.attempted == taken.len()
    &&& s.accepted == count_offers(b.shards, taken, Offer::Accepted)
    &&& s.duplicates == count_offers(b.shards, taken, Offer::Duplicate)
    &&& s.failed == count_offers(b.shards, taken, Offer::Rejected)
    &&& s.remaining_depth == b.queues[i].len() - taken.len()
}

/// The runtime after the first queues have been drained.
pub open spec fn after_drains(b: BoundedView, n: int, max_events: nat) -> BoundedView
    decreases n,
{
    if n <= 0 {
        b
    } else {
        after_drain(after_drains(b, n - 1, max_events), n - 1, max_events)
    }
}

proof fn lemma_ingested_len(shards: Seq<HotIndexView>, events: Seq<PipelineEventView>)
    requires
        shards.len() > 0,
    ensures
        ingested_all(shards, events).len() == shards.len(),
    decreases events.len(),
{
    if events.len() > 0 {
        lemma_ingested_len(shards, events.drop_last());
    }
}

proof fn lemma_offers(shards: Seq<HotIndexView>, events: Seq<PipelineEventView>)
    ensures
        count_offers(shards, events, Offer::Accepted) + count_offers(shards, events, Offer::Duplicate) + count_offers(
            shards,
            events,
            Offer::Rejected,
        ) == events.len(),
    decreases events.len(),
{
    if events.len() > 0 {
        lemma_offers(shards, events.drop_last());
    }
}

impl BoundedIngestRuntime {
    /// A runtime with so many shards and so much room in each queue; there must be some of
    /// both.
    pub fn new(shard_count: usize, per_shard_capacity: usize) -> (r: Result<Self, RuntimeError>)
        ensures
            match r {
                Ok(b) => {
                    &&& shard_count > 0
                    &&& per_shard_capacity > 0
                    &&& b@ == (BoundedView {
                        shards: Seq::new(shard_count as nat, |i: int| empty_index()),
                        queues: Seq::new(shard_count as nat, |i: int| Seq::empty()),
                        capacity: per_shard_capacity,
                    })
                    &&& well_formed(b@)
                },
                Err(e) => e@ == (if per_shard_capacity == 0 {
                    RuntimeErrorView::QueueCapacityZero
                } else {
                    RuntimeErrorView::NoShards
                }) && (per_shard_capacity == 0 || shard_count == 0),
            },
    {
        if per_shard_capacity == 0 {
            return Err(RuntimeError::QueueCapacityZero);
        }
        let runtime = match ShardLocalRuntime::new(shard_count) {
            Ok(runtime) => runtime,
            Err(e) => {
                return Err(e);
            },
        };
        let mut queues: Vec<VecDeque<PipelineEvent>> = Vec::new();
        let mut i: usize = 0;
        while i < shard_count
            invariant
                i <= shard_count,
                queues.len() == i,
                forall|j: int| 0 <= j < i ==> (#[trigger] queues@[j])@.len() == 0,
            decreases shard_count - i,
        {
            queues.push(VecDeque::new());
            i += 1;
        }
        let r = BoundedIngestRuntime { runtime, queues, per_shard_capacity };
        assert(r@.queues =~= Seq::new(shard_count as nat, |i: int| Seq::<PipelineEventView>::empty())) by {
            assert forall|j: int| 0 <= j < shard_count implies waiting(r.queues@[j]) =~= Seq::<
                PipelineEventView,
            >::empty() by {}
        }
        Ok(r)
    }

    /// The number of shards.
    pub fn shard_count(&self) -> (r: usize)
        ensures
            r == self@.shards.len(),
    {
        self.runtime.shard_count()
    }

    /// The room in each queue.
    pub fn per_shard_capacity(&self) -> (r: usize)
        ensures
            r == self@.capacity,
    {
        self.per_shard_capacity
    }

    /// Puts a valid event into the queue of the shard that owns its process instance, if
    /// there is room. That shard has a queue, unless the shards were exchanged for more of
    /// them.
    pub fn submit(&mut self, event: PipelineEvent) -> (r: Result<QueuedIngestOutcome, RuntimeError>)
        requires
            is_valid(event@) ==> shard_of(event@.process_instance_id, old(self)@.shards.len())
                < old(self)@.queues.len(),
        ensures
            well_formed(old(self)@) ==> well_formed(final(self)@),
            final(self)@ == submitted(old(self)@, event@),
            match r {
                Ok(x) => {
                    let i = shard_of(event@.process_instance_id, old(self)@.shards.len());
                    &&& submit_refusal(old(self)@, event@) is None
                    &&& x.shard_id@ == i
                    &&& x.queued_depth == old(self)@.queues[i].len() + 1
                    &&& x.capacity == old(self)@.capacity
                },
                Err(e) => submit_refusal(old(self)@, event@) == Some(e@),
            },
    {
        match event.validate() {
            Ok(()) => {},
            Err(e) => {
                return Err(RuntimeError::Ingest(e));
            },
        }
        let shard_id = self.runtime.shard_for_process_instance(event.process_instance_id());
        let ghost before = self@;
        let ghost i = shard_id.0 as int;
        let ghost e = event@;
        let ghost queues = self.queues@;
        assert(before.queues[i] == waiting(queues[i]));
        if self.queues[shard_id.0].len() >= self.per_shard_capacity {
            return Err(RuntimeError::QueueFull { shard_id, capacity: self.per_shard_capacity });
        }
        self.queues[shard_id.0].push_back(event);
        let queued_depth: usize = self.queues[shard_id.0].len();
        proof {
            assert(waiting(self.queues@[i]) =~= before.queues[i].push(e));
            assert(self@.queues =~= before.queues.update(i, before.queues[i].push(e)));
        }
        Ok(QueuedIngestOutcome { shard_id, queued_depth, capacity: self.per_shard_capacity })
    }

    /// Moves events from the queue of a shard into the indexes, those that have waited
    /// longest first, at most so many.
    pub fn drain_shard(&mut self, shard_id: LogicalShardId, max_events: usize) -> (r: Result<
        IngestDrainSummary,
        RuntimeError,
    >)
        ensures
            well_formed(old(self)@) ==> well_formed(final(self)@),
            match r {
                Ok(s) => {
                    &&& shard_id@ < old(self)@.queues.len()
                    &&& final(self)@ == after_drain(old(self)@, shard_id@ as int, max_events as nat)
                    &&& drain_summary_of(s, old(self)@, shard_id@ as int, max_events as nat)
                },
                Err(e) => {
                    &&& shard_id@ >= old(self)@.queues.len()
                    &&& e@ == RuntimeErrorView::InvalidShard(shard_id@)
                    &&& final(self)@ == old(self)@
                },
            },
    {
        if shard_id.0 >= self.queues.len() {
            return Err(RuntimeError::InvalidShard { shard_id });
        }
        let ghost b = self@;
        let ghost i = shard_id.0 as int;
        let ghost queue = b.queues[i];
        proof {
            use_type_invariant(&self.runtime);
        }
        let mut summary = IngestDrainSummary {
            shard_id,
            attempted: 0,
            accepted: 0,
            duplicates: 0,
            failed: 0,
            remaining_depth: self.queues[shard_id.0].len(),
        };
        assert(queue == waiting(self.queues@[i]));
        assert(queue.take(0) =~= Seq::<PipelineEventView>::empty());
        assert(queue.skip(0) =~= queue);
        assert(b.queues.update(i, queue) =~= b.queues);
        while summary.attempted < max_events
            invariant_except_break
                summary.attempted <= max_events,
            invariant
                b.shards.len() > 0,
                0 <= i < b.queues.len(),
                i == shard_id.0,
                queue == b.queues[i],
                self.queues@.len() == b.queues.len(),
                summary.shard_id == shard_id,
                summary.attempted <= max_events,
                summary.attempted <= queue.len(),
                self@.capacity == b.capacity,
                self@.shards == ingested_all(b.shards, queue.take(summary.attempted as int)),
                self@.queues == b.queues.update(i, queue.skip(summary.attempted as int)),
                summary.accepted == count_offers(b.shards, queue.take(summary.attempted as int), Offer::Accepted),
                summary.duplicates == count_offers(b.shards, queue.take(summary.attempted as int), Offer::Duplicate),
                summary.failed == count_offers(b.shards, queue.take(summary.attempted as int), Offer::Rejected),
            ensures
                summary.attempted == max_events || summary.attempted == queue.len(),
            decreases max_events - summary.attempted,
        {
            let ghost n = summary.attempted as int;
            let ghost before = self@;
            assert(before.queues[i] == queue.skip(n));
            assert(before.queues[i] == waiting(self.queues@[i]));
            let ghost held = self.queues@;
            let next = self.queues[shard_id.0].pop_front();
            let event = match next {
                Some(event) => event,
                None => {
                    proof {
                        assert(queue.skip(n).len() == 0);
                        assert(waiting(self.queues@[i]) =~= queue.skip(n));
                        assert(self@.queues =~= before.queues);
                    }
                    break ;
                },
            };
            proof {
                assert(queue.skip(n)[0] == event@);
                assert(queue[n] == event@);
                assert(waiting(self.queues@[i]) =~= queue.skip(n + 1)) by {
                    assert forall|k: int| 0 <= k < queue.len() - n - 1 implies waiting(self.queues@[i])[k] == queue[n + 1
                        + k] by {
                        assert(self.queues@[i]@[k] == held[i]@[k + 1]);
                        assert(waiting(held[i])[k + 1] == queue.skip(n)[k + 1]);
                    }
                }
                assert forall|j: int| 0 <= j < held.len() && j != i implies waiting(self.queues@[j])
                    == b.queues[j] by {
                    assert(before.queues[j] == waiting(held[j]));
                }
                assert(self@.queues =~= b.queues.update(i, queue.skip(n + 1)));
                assert(queue.take(n + 1).drop_last() =~= queue.take(n));
                lemma_ingested_len(b.shards, queue.take(n));
                lemma_offers(b.shards, queue.take(n));
            }
            summary.attempted = summary.attempted + 1;
            match self.runtime.ingest(event) {
                Ok(x) => match x.outcome {
                    IngestOutcome::Accepted => {
                        summary.accepted = summary.accepted + 1;
                    },
                    IngestOutcome::Duplicate => {
                        summary.duplicates = summary.duplicates + 1;
                    },
                },
                Err(_) => {
                    summary.failed = summary.failed + 1;
                },
            }
        }
        summary.remaining_depth = self.queues[shard_id.0].len();
        proof {
            let n = summary.attempted as int;
            assert(first_n(queue, max_events as nat) =~= queue.take(n));
            assert(self@.queues[i] == waiting(self.queues@[i]));
            lemma_ingested_len(b.shards, queue.take(n));
            if well_formed(b) {
                assert forall|j: int| 0 <= j < self@.queues.len() implies (#[trigger] self@.queues[j]).len()
                    <= self@.capacity by {
                    assert(b.queues[j].len() <= b.capacity);
                }
            }
        }
        Ok(summary)
    }

    /// Drains the queues of all shards, one after another.
    pub fn drain_all(&mut self, max_events_per_shard: usize) -> (r: Result<Vec<IngestDrainSummary>, RuntimeError>)
        ensures
            well_formed(old(self)@) ==> well_formed(final(self)@),
            final(self)@ == after_drains(
                old(self)@,
                old(self)@.queues.len() as int,
                max_events_per_shard as nat,
            ),
            r matches Ok(summaries) && summaries.len() == old(self)@.queues.len() && forall|i: int|
                0 <= i < summaries.len() ==> drain_summary_of(
                    #[trigger] summaries@[i],
                    after_drains(old(self)@, i, max_events_per_shard as nat),
                    i,
                    max_events_per_shard as nat,
                ),
    {
        let count: usize = self.queues.len();
        let ghost b = self@;
        let mut summaries: Vec<IngestDrainSummary> = Vec::new();
        let mut i: usize = 0;
        while i < count
            invariant
                i <= count,
                b == old(self)@,
                count == b.queues.len(),
                well_formed(b) ==> well_formed(self@),
                self@.queues.len() == count,
                self@ == after_drains(b, i as int, max_events_per_shard as nat),
                summaries.len() == i,
                forall|j: int|
                    0 <= j < i ==> drain_summary_of(
                        #[trigger] summaries@[j],
                        after_drains(b, j, max_events_per_shard as nat),
                        j,
                        max_events_per_shard as nat,
                    ),
            decreases count - i,
        {
            match self.drain_shard(LogicalShardId(i), max_events_per_shard) {
                Ok(summary) => {
                    summaries.push(summary);
                },
                Err(e) => {
                    return Err(e);
                },
            }
            i += 1;
        }
        Ok(summaries)
    }

    /// The shards.
    pub fn runtime(&self) -> (r: &ShardLocalRuntime)
        ensures
            r@ == self@.shards,
    {
        &self.runtime
    }

    /// The shards, to be changed.
    pub fn runtime_mut(&mut self) -> (r: &mut ShardLocalRuntime)
        ensures
            r@ == old(self)@.shards,
            final(self)@ == (BoundedView { shards: final(r)@, ..old(self)@ }),
    {
        &mut self.runtime
    }

    /// The sizes of the shards and of their queues.
    pub fn snapshot(&self) -> (r: BoundedIngestRuntimeSnapshot)
        ensures
            runtime_snapshot_of(r.runtime, self@.shards),
            r.queues.len() == self@.queues.len(),
            forall|i: int|
                0 <= i < r.queues.len() ==> (#[trigger] r.queues@[i]).shard_id@ == i && r.queues@[i].depth
                    == self@.queues[i].len() && r.queues@[i].capacity == self@.capacity,
    {
        let mut queues: Vec<IngestQueueSnapshot> = Vec::new();
        let mut i: usize = 0;
        while i < self.queues.len()
            invariant
                i <= self.queues.len(),
                self@.queues.len() == self.queues.len(),
                queues.len() == i,
                forall|j: int|
                    0 <= j < i ==> (#[trigger] queues@[j]).shard_id@ == j && queues@[j].depth == self@.queues[j].len()
                        && queues@[j].capacity == self@.capacity,
            decreases self.queues.len() - i,
        {
            assert(self@.queues[i as int] == waiting(self.queues@[i as int]));
            queues.push(
                IngestQueueSnapshot {
                    shard_id: LogicalShardId(i),
                    depth: self.queues[i].len(),
                    capacity: self.per_shard_capacity,
                },
            );
            i += 1;
        }
        BoundedIngestRuntimeSnapshot { runtime: self.runtime.snapshot(), queues }
    }
}

// ---------------------------------------------------------------------------
// Laws
// ---------------------------------------------------------------------------

/// Whether every process instance and every event stands on the shard that owns it.
pub open spec fn routed(shards: Seq<HotIndexView>) -> bool {
    &&& forall|i: int, p: Seq<char>|
        0 <= i < shards.len() && #[trigger] shards[i].processes.contains_key(p) ==> shard_of(p, shards.len()) == i
    &&& forall|i: int, id: Seq<char>|
        0 <= i < shards.len() && #[trigger] shards[i].events.contains_key(id) ==> shard_of(
            shards[i].events[id].process_instance_id,
            shards.len(),
        ) == i
}

/// An event changes no shard but the one that owns its process instance, and whatever is
/// offered, every process instance stays on the shard that owns it.
pub proof fn law_events_stay_on_their_shard(shards: Seq<HotIndexView>, e: PipelineEventView)
    requires
        shards.len() > 0,
        routed(shards),
    ensures
        routed(ingested_at(shards, e)),
        forall|i: int|
            0 <= i < shards.len() && i != shard_of(e.process_instance_id, shards.len())
                ==> #[trigger] ingested_at(shards, e)[i] == shards[i],
{
    let n = ingested_at(shards, e);
    assert forall|i: int, p: Seq<char>|
        0 <= i < n.len() && #[trigger] n[i].processes.contains_key(p) implies shard_of(p, n.len()) == i by {
        if p != e.process_instance_id {
            assert(shards[i].processes.contains_key(p));
        } else if i != shard_of(e.process_instance_id, shards.len()) {
            assert(shards[i].processes.contains_key(p));
        }
    }
    assert forall|i: int, id: Seq<char>|
        0 <= i < n.len() && #[trigger] n[i].events.contains_key(id) implies shard_of(
        n[i].events[id].process_instance_id,
        n.len(),
    ) == i by {
        if n[i].events[id] != e {
            assert(shards[i].events.contains_key(id));
        } else if i != shard_of(e.process_instance_id, shards.len()) {
            assert(shards[i].events.contains_key(id));
        }
    }
}

/// Asking the shard that owns a process instance is asking all of them: no other shard
/// knows it.
pub proof fn law_instance_is_found_on_its_shard(shards: Seq<HotIndexView>, p: Seq<char>, i: int)
    requires
        routed(shards),
        0 <= i < shards.len(),
        shards[i].processes.contains_key(p),
    ensures
        shards[shard_of(p, shards.len())].processes.contains_key(p),
        shards[shard_of(p, shards.len())].processes[p] == shards[i].processes[p],
{
}

/// All that the shards would answer, one after another.
pub open spec fn all_answers<T>(shards: Seq<HotIndexView>, full: spec_fn(HotIndexView) -> Seq<T>) -> Seq<T>
    decreases shards.len(),
{
    if shards.len() == 0 {
        Seq::empty()
    } else {
        all_answers(shards.drop_last(), full) + full(shards.last())
    }
}

/// Asking every shard for what is still wanted gives the first of all that the shards
/// would answer: none is left out before the limit, and none comes beyond it.
pub proof fn law_fan_out_takes_the_first<T>(
    shards: Seq<HotIndexView>,
    answer: spec_fn(HotIndexView, nat) -> Seq<T>,
    full: spec_fn(HotIndexView) -> Seq<T>,
    limit: nat,
)
    requires
        forall|m: HotIndexView, n: nat| #[trigger] answer(m, n) == first_n(full(m), n),
    ensures
        fan_out(shards, answer, limit) == first_n(all_answers(shards, full), limit),
        fan_out(shards, answer, limit).len() <= limit,
    decreases shards.len(),
{
    if shards.len() == 0 {
        assert(first_n(all_answers(shards, full), limit) =~= Seq::<T>::empty());
    } else {
        law_fan_out_takes_the_first(shards.drop_last(), answer, full, limit);
        let before = all_answers(shards.drop_last(), full);
        let last = full(shards.last());
        let sofar = fan_out(shards.drop_last(), answer, limit);
        if sofar.len() >= limit {
            assert(first_n(before + last, limit) =~= first_n(before, limit));
        } else {
            assert(sofar =~= before);
            assert(first_n(before + last, limit) =~= before + first_n(last, (limit - before.len()) as nat));
        }
    }
}

/// Queries for instances return the first of the matching instances of all shards, and no
/// more than their limit.
pub proof fn law_instances_of_all_shards(
    shards: Seq<HotIndexView>,
    wanted: spec_fn(ProcessView) -> bool,
    limit: nat,
)
    ensures
        fan_out(shards, instances_answer(wanted), limit) == first_n(
            all_answers(
                shards,
                |m: HotIndexView|
                    crate::ordered::selected(m.processes, crate::index::process_keys(m), wanted),
            ),
            limit,
        ),
{
    law_fan_out_takes_the_first(
        shards,
        instances_answer(wanted),
        |m: HotIndexView| crate::ordered::selected(m.processes, crate::index::process_keys(m), wanted),
        limit,
    );
}

/// Whether every shard is consistent and lists each of its events everywhere it belongs.
pub open spec fn shards_complete(shards: Seq<HotIndexView>) -> bool {
    forall|i: int| 0 <= i < shards.len() ==> index_consistent(#[trigger] shards[i]) && index_complete(shards[i])
}

/// Empty shards are consistent and complete, and whatever is offered keeps them so.
pub proof fn law_ingest_keeps_shards_complete(shards: Seq<HotIndexView>, e: PipelineEventView)
    requires
        shards.len() > 0,
    ensures
        (forall|i: int| 0 <= i < shards.len() ==> #[trigger] shards[i] == empty_index()) ==> shards_complete(shards),
        shards_complete(shards) ==> shards_complete(ingested_at(shards, e)),
{
    let at = shard_of(e.process_instance_id, shards.len());
    law_ingest_keeps_consistency(shards[at], e);
    law_ingest_keeps_completeness(shards[at], e);
}

proof fn lemma_fan_out_contains<T>(
    shards: Seq<HotIndexView>,
    answer: spec_fn(HotIndexView, nat) -> Seq<T>,
    limit: nat,
    i: int,
    x: T,
)
    requires
        0 <= i < shards.len(),
        forall|n: nat| #[trigger] answer(shards[i], n).len() < n ==> answer(shards[i], n).contains(x),
    ensures
        fan_out(shards, answer, limit).len() < limit ==> fan_out(shards, answer, limit).contains(x),
    decreases shards.len(),
{
    let all = fan_out(shards, answer, limit);
    if all.len() < limit {
        let sofar = fan_out(shards.drop_last(), answer, limit);
        let last = answer(shards.last(), (limit - sofar.len()) as nat);
        if i == shards.len() - 1 {
            let k = choose|k: int| 0 <= k < last.len() && last[k] == x;
            assert(all[sofar.len() + k] == x);
        } else {
            assert(shards.drop_last()[i] == shards[i]);
            lemma_fan_out_contains(shards.drop_last(), answer, limit, i, x);
            let k = choose|k: int| 0 <= k < sofar.len() && sofar[k] == x;
            assert(all[k] == x);
        }
    }
}

/// A query to all shards that does not reach its limit leaves out nothing that matches: no
/// event that refers to the metadata object, and no event between the two instants.
pub proof fn law_events_of_all_shards_are_complete(
    shards: Seq<HotIndexView>,
    i: int,
    id: Seq<char>,
    r: MetadataRefView,
    start: Option<Seq<char>>,
    end: Option<Seq<char>>,
    limit: nat,
)
    requires
        shards_complete(shards),
        0 <= i < shards.len(),
        shards[i].events.contains_key(id),
    ensures
        ({
            let e = shards[i].events[id];
            let of_ref = fan_out(shards, impact_answer(r), limit);
            let between = merged_range(shards, start, end, limit);
            &&& e.metadata_refs.contains(r) && of_ref.len() < limit ==> of_ref.contains(e)
            &&& in_range(start, end)(e) && between.len() < limit ==> between.contains(e)
        }),
{
    let m = shards[i];
    let e = m.events[id];
    assert(index_consistent(shards[i]) && index_complete(shards[i]));
    if e.metadata_refs.contains(r) {
        let answer = impact_answer(r);
        assert forall|n: nat| #[trigger] answer(shards[i], n).len() < n implies answer(shards[i], n).contains(e) by {
            law_impact_is_complete(m, r, id, n);
        }
        lemma_fan_out_contains(shards, answer, limit, i, e);
    }
    if in_range(start, end)(e) {
        let answer = range_answer(start, end);
        assert forall|n: nat| #[trigger] answer(shards[i], n).len() < n implies answer(shards[i], n).contains(e) by {
            law_time_range_is_complete(m, start, end, id, n);
        }
        lemma_fan_out_contains(shards, answer, limit, i, e);
        let found = fan_out(shards, answer, limit);
        let all = stable_sort(found, later());
        lemma_stable_sort_multiset(found, later());
        broadcast use vstd::seq_lib::group_to_multiset_ensures;

        assert(all.to_multiset().len() == found.to_multiset().len());
        if found.len() < limit {
            assert(found.to_multiset().count(e) > 0);
            assert(all.contains(e));
            assert(first_n(all, limit) =~= all);
        }
    }
}

/// A query for instances to all shards that does not reach its limit leaves out none that
/// meets its condition.
pub proof fn law_instances_of_all_shards_are_complete(
    shards: Seq<HotIndexView>,
    i: int,
    p: Seq<char>,
    wanted: spec_fn(ProcessView) -> bool,
    limit: nat,
)
    requires
        shards_complete(shards),
        0 <= i < shards.len(),
        shards[i].processes.contains_key(p),
        wanted(shards[i].processes[p]),
    ensures
        ({
            let answer = fan_out(shards, instances_answer(wanted), limit);
            answer.len() < limit ==> answer.contains(shards[i].processes[p])
        }),
{
    let answer = instances_answer(wanted);
    let x = shards[i].processes[p];
    assert(index_complete(shards[i]));
    assert forall|n: nat| #[trigger] answer(shards[i], n).len() < n implies answer(shards[i], n).contains(x) by {
        law_instances_are_complete(shards[i], wanted, p, n);
    }
    lemma_fan_out_contains(shards, answer, limit, i, x);
}

proof fn lemma_affected_in(shards: Seq<HotIndexView>, r: MetadataRefView)
    ensures
        affected_in(shards, r).finite(),
        forall|p: Seq<char>| #[trigger]
            affected_in(shards, r).contains(p) <==> exists|i: int|
                0 <= i < shards.len() && pipelines_affected(#[trigger] shards[i], r).contains(p),
    decreases shards.len(),
{
    if shards.len() > 0 {
        let rest = shards.drop_last();
        lemma_affected_in(rest, r);
        lemma_affected_finite(shards.last(), r);
        assert forall|p: Seq<char>| #[trigger] affected_in(shards, r).contains(p) <==> exists|i: int|
            0 <= i < shards.len() && pipelines_affected(#[trigger] shards[i], r).contains(p) by {
            if affected_in(rest, r).contains(p) {
                let i = choose|i: int| 0 <= i < rest.len() && pipelines_affected(#[trigger] rest[i], r).contains(p);
                assert(shards[i] == rest[i]);
            }
            if exists|i: int| 0 <= i < shards.len() && pipelines_affected(#[trigger] shards[i], r).contains(p) {
                let i = choose|i: int| 0 <= i < shards.len() && pipelines_affected(#[trigger] shards[i], r).contains(p);
                if i < rest.len() {
                    assert(rest[i] == shards[i]);
                }
            }
            assert(shards[shards.len() - 1] == shards.last());
        }
    }
}

/// The affected pipelines of all shards are those of the events on any of them that refer
/// to the metadata object: each is listed, and no other.
pub proof fn law_affected_pipelines_of_all_shards(shards: Seq<HotIndexView>, r: MetadataRefView, p: Seq<char>)
    requires
        shards_complete(shards),
    ensures
        sorted::<PipelineId>(affected_in(shards, r)).contains(p) <==> exists|i: int, id: Seq<char>|
            0 <= i < shards.len() && #[trigger] shards[i].events.contains_key(id)
                && shards[i].events[id].metadata_refs.contains(r) && shards[i].events[id].pipeline_id == p,
{
    lemma_affected_in(shards, r);
    lemma_listing_exists::<PipelineId>(affected_in(shards, r));
    if affected_in(shards, r).contains(p) {
        let i = choose|i: int| 0 <= i < shards.len() && pipelines_affected(#[trigger] shards[i], r).contains(p);
        lemma_affected_finite(shards[i], r);
        lemma_listing_exists::<PipelineId>(pipelines_affected(shards[i], r));
        law_affected_pipelines_are_exact(shards[i], r, p);
        let id = choose|id: Seq<char>| #[trigger]
            shards[i].events.contains_key(id) && shards[i].events[id].metadata_refs.contains(r)
                && shards[i].events[id].pipeline_id == p;
        assert(shards[i].events.contains_key(id));
    }
    if exists|i: int, id: Seq<char>|
        0 <= i < shards.len() && #[trigger] shards[i].events.contains_key(id)
            && shards[i].events[id].metadata_refs.contains(r) && shards[i].events[id].pipeline_id == p {
        let (i, id) = choose|i: int, id: Seq<char>|
            0 <= i < shards.len() && #[trigger] shards[i].events.contains_key(id)
                && shards[i].events[id].metadata_refs.contains(r) && shards[i].events[id].pipeline_id == p;
        lemma_affected_finite(shards[i], r);
        lemma_listing_exists::<PipelineId>(pipelines_affected(shards[i], r));
        law_affected_pipelines_are_exact(shards[i], r, p);
        assert(pipelines_affected(shards[i], r).contains(p));
    }
}

/// What is submitted and drained is what is ingested directly: draining a queue to its end
/// leaves it empty and offers its events in the order in which they were submitted.
pub proof fn law_drain_offers_what_was_submitted(b: BoundedView, i: int, max_events: nat)
    requires
        well_formed(b),
        0 <= i < b.queues.len(),
        max_events >= b.capacity,
    ensures
        after_drain(b, i, max_events).queues[i].len() == 0,
        after_drain(b, i, max_events).shards == ingested_all(b.shards, b.queues[i]),
{
    assert(drain_taken(b, i, max_events) =~= b.queues[i]);
}

/// A process instance belongs to the shard whose number is the 64-bit FNV-1a hash of all
/// bytes of its identifier, cut to the machine's word, by the number of shards.
pub proof fn law_shard_is_the_hash_of_the_instance(h: spec_fn(Seq<u8>) -> u64, instance: Seq<char>, shard_count: nat)
    requires
        shard_count > 0,
        h(Seq::empty()) == 0xcbf2_9ce4_8422_2325u64,
        forall|s: Seq<u8>, b: u8| #[trigger] h(s.push(b)) == (h(s) ^ (b as u64)).wrapping_mul(0x100_0000_01b3u64),
    ensures
        shard_of(instance, shard_count) == (h(encode_utf8(instance)) as usize) as int % shard_count as int,
        0 <= shard_of(instance, shard_count) < shard_count,
{
    crate::hash::law_fnv_is_a_fold(h, encode_utf8(instance));
}

/// An event that is submitted is refused for a missing field, then for a full queue of the
/// shard that owns its process instance; else it stands at the end of that queue, and no other
/// queue and no shard changes.
pub proof fn law_submitted_events_wait(b: BoundedView, e: PipelineEventView)
    requires
        well_formed(b),
    ensures
        ({
            let i = shard_of(e.process_instance_id, b.shards.len());
            let refusal = submit_refusal(b, e);
            let after = submitted(b, e);
            &&& 0 <= i < b.queues.len()
            &&& empty_field(e) matches Some(field) ==> refusal == Some(RuntimeErrorView::Ingest(field))
            &&& empty_field(e) is None && b.queues[i].len() >= b.capacity ==> refusal == Some(
                RuntimeErrorView::QueueFull(i as usize, b.capacity),
            )
            &&& empty_field(e) is None && b.queues[i].len() < b.capacity ==> refusal is None
            &&& refusal is Some ==> after == b
            &&& refusal is None ==> {
                &&& after.queues.len() == b.queues.len()
                &&& after.queues[i] == b.queues[i].push(e)
                &&& forall|j: int| 0 <= j < b.queues.len() && j != i ==> #[trigger] after.queues[j] == b.queues[j]
                &&& after.shards == b.shards && after.capacity == b.capacity
            }
        }),
{
}

/// A drain takes the events that have waited longest, as many as it may, leaves the others
/// waiting in their order, and leaves the other queues alone; what it took is offered to the
/// shards in the order in which it waited.
pub proof fn law_drains_take_the_oldest(b: BoundedView, i: int, max_events: nat)
    requires
        0 <= i < b.queues.len(),
    ensures
        ({
            let taken = drain_taken(b, i, max_events);
            let after = after_drain(b, i, max_events);
            &&& taken.len() == max_events || taken.len() == b.queues[i].len()
            &&& taken.len() <= max_events
            &&& taken + after.queues[i] == b.queues[i]
            &&& after.queues.len() == b.queues.len()
            &&& forall|j: int| 0 <= j < b.queues.len() && j != i ==> #[trigger] after.queues[j] == b.queues[j]
            &&& after.capacity == b.capacity
            &&& after.shards == ingested_all(b.shards, taken)
        }),
{
    let taken = drain_taken(b, i, max_events);
    assert(taken + b.queues[i].skip(taken.len() as int) =~= b.queues[i]);
}

/// Events are offered one after another, each to the shard that owns its process instance,
/// and each counts as what its offer came to: rejected if a field is missing, a duplicate if
/// that shard knows it, accepted otherwise.
pub proof fn law_offers_in_turn(shards: Seq<HotIndexView>, events: Seq<PipelineEventView>, e: PipelineEventView)
    requires
        shards.len() > 0,
    ensures
        ({
            let sofar = ingested_all(shards, events);
            let more = events.push(e);
            let i = shard_of(e.process_instance_id, shards.len());
            let known = sofar[i].events.contains_key(e.event_id);
            &&& ingested_all(shards, Seq::empty()) == shards
            &&& ingested_all(shards, more) == sofar.update(i, ingested(sofar[i], e))
            &&& count_offers(shards, more, Offer::Rejected) == count_offers(shards, events, Offer::Rejected) + if empty_field(
                e,
            ) is Some {
                1nat
            } else {
                0nat
            }
            &&& count_offers(shards, more, Offer::Duplicate) == count_offers(shards, events, Offer::Duplicate) + if empty_field(
                e,
            ) is None && known {
                1nat
            } else {
                0nat
            }
            &&& count_offers(shards, more, Offer::Accepted) == count_offers(shards, events, Offer::Accepted) + if empty_field(
                e,
            ) is None && !known {
                1nat
            } else {
                0nat
            }
        }),
{
    assert(events.push(e).drop_last() =~= events);
    lemma_ingested_len(shards, events);
}

} // verus!
