//! The runtime on executor shards: each shard owns its index, work is handed to the shard
//! that owns a process instance, and events can wait in a bounded mailbox.

use vstd::prelude::*;
use crate::index::{
    empty_index, events_between, index_consistent, ingest_result, ingested, listed_events, matching_instances,
    of_pipeline, pipelines_affected, with_status, HotIndex, HotIndexView, IngestOutcome,
};
use crate::ingest::{IngestError, PipelineEvent, PipelineEventView};
use crate::metadata::MetadataRef;
use crate::observability::HotIndexSnapshot;
use crate::ordered::{opt_view, sorted, views};
use crate::process::{PipelineId, ProcessInstanceSnapshot};
use crate::query::{
    EventQuery, ImpactQuery, PipelineQuery, ProcessInstanceQuery, ProcessStatusQuery, QueryResult, QueryResultView,
    TimeRangeQuery,
};
use crate::runtime::{IngestDrainSummary, LogicalShardId};
use crate::sitas_runtime::{
    drain_counted, drain_goes_on, ingest_drained, worker_counted, IngestWorkerSummary, SitasErrorView,
    SitasRuntimeError,
};

verus! {

// ---------------------------------------------------------------------------
// The executor's types
// ---------------------------------------------------------------------------

/// `sitas::ShardedExecutor`: the threads of the shards.
#[verifier::external_type_specification]
#[verifier::external_body]
pub struct ExShardedExecutor(sitas::ShardedExecutor);

/// `sitas::ShardedExecutorSnapshot`: what is known of the threads of the shards.
#[verifier::external_type_specification]
#[verifier::external_body]
pub struct ExShardedExecutorSnapshot(sitas::ShardedExecutorSnapshot);

/// `sitas::ShardLocal`: one value per shard, reached only on the thread of its shard.
#[verifier::external_type_specification]
#[verifier::external_body]
#[verifier::reject_recursive_types(T)]
pub struct ExShardLocal<T>(sitas::ShardLocal<T>);

/// `sitas::ShardMailboxSet`: one bounded mailbox per shard.
#[verifier::external_type_specification]
#[verifier::external_body]
#[verifier::reject_recursive_types(M)]
pub struct ExShardMailboxSet<M>(sitas::ShardMailboxSet<M>);

/// `sitas::ShardReceiver`: the end of a mailbox from which its shard takes events.
#[verifier::external_type_specification]
#[verifier::external_body]
#[verifier::reject_recursive_types(M)]
pub struct ExShardReceiver<M>(sitas::ShardReceiver<M>);

// ---------------------------------------------------------------------------
// What a shard owns
// ---------------------------------------------------------------------------

/// What a shard owns: its index, and the receiver of its mailbox unless a worker has it.
pub struct SitasShardState {
    hot_index: HotIndex,
    receiver: Option<sitas::ShardReceiver<PipelineEvent>>,
}

/// The index after events have been offered to it one after another.
pub open spec fn taken_in(m: HotIndexView, events: Seq<PipelineEventView>) -> HotIndexView
    decreases events.len(),
{
    if events.len() == 0 {
        m
    } else {
        ingested(taken_in(m, events.drop_last()), events.last())
    }
}

/// The summary of a drain that has taken nothing.
pub open spec fn no_drain(shard_id: LogicalShardId) -> IngestDrainSummary {
    IngestDrainSummary { shard_id, attempted: 0, accepted: 0, duplicates: 0, failed: 0, remaining_depth: 0 }
}

/// The summary of a drain that has taken events.
pub open spec fn drain_of(
    shard_id: LogicalShardId,
    m: HotIndexView,
    events: Seq<PipelineEventView>,
) -> IngestDrainSummary
    decreases events.len(),
{
    if events.len() == 0 {
        no_drain(shard_id)
    } else {
        drain_counted(
            drain_of(shard_id, m, events.drop_last()),
            taken_in(m, events.drop_last()),
            events.last(),
        )
    }
}

/// A drain accounts for every event that it takes: each is new, known already, or not valid.
pub proof fn law_drain_adds_up(shard_id: LogicalShardId, m: HotIndexView, events: Seq<PipelineEventView>)
    requires
        events.len() <= usize::MAX,
    ensures
        ({
            let s = drain_of(shard_id, m, events);
            &&& s.shard_id == shard_id
            &&& s.remaining_depth == 0
            &&& s.attempted == events.len()
            &&& s.accepted + s.duplicates + s.failed == s.attempted
        }),
    decreases events.len(),
{
    if events.len() > 0 {
        law_drain_adds_up(shard_id, m, events.drop_last());
    }
}

/// Whether a summary tells of a drain of some events, at most so many, that has made one
/// index out of another.
pub open spec fn drained_into(
    m: HotIndexView,
    n: HotIndexView,
    shard_id: LogicalShardId,
    max_events: usize,
    summary: IngestDrainSummary,
) -> bool {
    exists|events: Seq<PipelineEventView>|
        {
            &&& events.len() <= max_events
            &&& n == taken_in(m, events)
            &&& summary == #[trigger] drain_of(shard_id, m, events)
        }
}

/// Takes the next event from a mailbox if there is one: `sitas::ShardReceiver::try_recv`,
/// whose two refusals (the mailbox is empty, or closed) are both `None`. What it gives
/// depends on what has been sent by then, so nothing is claimed of it.
#[verifier::external_body]
fn next_event(receiver: &mut sitas::ShardReceiver<PipelineEvent>) -> (r: Option<PipelineEvent>) {
    receiver.try_recv().ok()
}

impl SitasShardState {
    /// The index of the shard.
    pub closed spec fn index(&self) -> HotIndexView {
        self.hot_index@
    }

    /// Whether the receiver is with the shard.
    pub closed spec fn has_receiver(&self) -> bool {
        self.receiver is Some
    }

    /// What a shard owns at the start; each receiver is handed out once.
    pub fn fresh(
        receivers: &mut Vec<Option<sitas::ShardReceiver<PipelineEvent>>>,
        shard: usize,
    ) -> (r: SitasShardState)
        ensures
            r.index() == empty_index(),
            index_consistent(r.index()),
            r.has_receiver() == (shard < old(receivers).len() && old(receivers)@[shard as int] is Some),
            final(receivers)@ == if shard < old(receivers).len() {
                old(receivers)@.update(shard as int, None)
            } else {
                old(receivers)@
            },
    {
        proof {
            crate::index::law_ingest_keeps_consistency(empty_index(), arbitrary());
        }
        let receiver = if shard < receivers.len() {
            let mut taken: Option<sitas::ShardReceiver<PipelineEvent>> = None;
            std::mem::swap(&mut taken, &mut receivers[shard]);
            taken
        } else {
            None
        };
        SitasShardState { hot_index: HotIndex::new(), receiver }
    }

    /// Hands the receiver to a worker.
    pub fn take_receiver(&mut self) -> (r: Option<sitas::ShardReceiver<PipelineEvent>>)
        ensures
            final(self).index() == old(self).index(),
            !final(self).has_receiver(),
            r is Some == old(self).has_receiver(),
    {
        self.receiver.take()
    }

    /// Takes the receiver back from a worker.
    pub fn give_back(&mut self, receiver: sitas::ShardReceiver<PipelineEvent>)
        ensures
            final(self).index() == old(self).index(),
            final(self).has_receiver(),
    {
        self.receiver = Some(receiver);
    }

    /// Offers an event that a worker has received to the index, and counts what came of it.
    pub fn ingest_received(&mut self, summary: &mut IngestWorkerSummary, event: PipelineEvent)
        ensures
            final(self).index() == ingested(old(self).index(), event@),
            index_consistent(old(self).index()) ==> index_consistent(final(self).index()),
            final(self).has_receiver() == old(self).has_receiver(),
            *final(summary) == worker_counted(*old(summary), old(self).index(), event@),
    {
        proof {
            crate::index::law_ingest_keeps_consistency(self.hot_index@, event@);
        }
        summary.ingest(&mut self.hot_index, event);
    }

    /// Drains the mailbox into the index, up to so many events; not while a worker has the
    /// receiver.
    pub fn drain(&mut self, shard_id: LogicalShardId, max_events: usize) -> (r: Result<
        IngestDrainSummary,
        SitasRuntimeError,
    >)
        ensures
            index_consistent(old(self).index()) ==> index_consistent(final(self).index()),
            final(self).has_receiver() == old(self).has_receiver(),
            match r {
                Ok(summary) => {
                    &&& old(self).has_receiver()
                    &&& drained_into(old(self).index(), final(self).index(), shard_id, max_events, summary)
                },
                Err(e) => !old(self).has_receiver() && e@ == SitasErrorView::WorkersRunning && final(self).index()
                    == old(self).index(),
            },
    {
        let ghost m = self.hot_index@;
        let mut summary = IngestDrainSummary {
            shard_id,
            attempted: 0,
            accepted: 0,
            duplicates: 0,
            failed: 0,
            remaining_depth: 0,
        };
        let mut receiver = match self.receiver.take() {
            Some(receiver) => receiver,
            None => {
                return Err(SitasRuntimeError::WorkersRunning);
            },
        };
        let ghost mut events: Seq<PipelineEventView> = Seq::empty();
        let mut open = true;
        while open && drain_goes_on(&summary, max_events)
            invariant
                m == old(self).index(),
                events.len() == summary.attempted,
                summary.attempted <= max_events,
                summary.accepted + summary.duplicates + summary.failed == summary.attempted,
                summary == drain_of(shard_id, m, events),
                self.hot_index@ == taken_in(m, events),
                index_consistent(m) ==> index_consistent(self.hot_index@),
            decreases max_events - summary.attempted, if open { 1int } else { 0 },
        {
            match next_event(&mut receiver) {
                Some(event) => {
                    proof {
                        crate::index::law_ingest_keeps_consistency(self.hot_index@, event@);
                        assert(events.push(event@).drop_last() =~= events);
                        events = events.push(event@);
                    }
                    ingest_drained(&mut summary, &mut self.hot_index, event);
                },
                None => {
                    open = false;
                },
            }
        }
        self.receiver = Some(receiver);
        Ok(summary)
    }
}

// ---------------------------------------------------------------------------
// Work for a shard
// ---------------------------------------------------------------------------

/// What a shard can be asked.
#[derive(Debug, Clone)]
pub enum ShardQuestion {
    /// One process instance.
    Instance(ProcessInstanceQuery),
    /// The events of a process instance.
    Events(EventQuery),
    /// The instances of a pipeline.
    Pipeline(PipelineQuery),
    /// The events that refer to a metadata object.
    Impact(ImpactQuery),
    /// The instances with a status.
    Status(ProcessStatusQuery),
    /// The events between two instants.
    TimeRange(TimeRangeQuery),
    /// The pipelines that a metadata object touches.
    Pipelines(MetadataRef),
    /// How much the index holds.
    Sizes,
}

/// What a shard has to do.
#[derive(Debug)]
pub enum ShardTask {
    /// Offer an event to the index.
    Ingest(PipelineEvent),
    /// Drain the mailbox, up to so many events.
    Drain(LogicalShardId, usize),
    /// Answer.
    Answer(ShardQuestion),
}

/// What a shard answers.
#[derive(Debug)]
pub enum ShardAnswer {
    /// What became of an event.
    Ingested(Result<IngestOutcome, IngestError>),
    /// What a drain did.
    Drained(Result<IngestDrainSummary, SitasRuntimeError>),
    /// The process instance, if it is known.
    Instance(Option<ProcessInstanceSnapshot>),
    /// What a query has found.
    Found(QueryResult),
    /// Pipelines.
    Pipelines(Vec<PipelineId>),
    /// How much the index holds.
    Sizes(HotIndexSnapshot),
}

/// What an index holds of what a question for a list asks.
pub open spec fn found(m: HotIndexView, question: ShardQuestion) -> QueryResultView {
    match question {
        ShardQuestion::Events(q) => QueryResultView::Events(
            listed_events(m, m.by_process, q.process_instance_id@, q.limit@),
        ),
        ShardQuestion::Pipeline(q) => QueryResultView::ProcessInstances(
            matching_instances(m, of_pipeline(q.pipeline_id@), q.limit@),
        ),
        ShardQuestion::Impact(q) => QueryResultView::Events(
            listed_events(m, m.by_ref, q.metadata_ref@, q.limit@),
        ),
        ShardQuestion::Status(q) => QueryResultView::ProcessInstances(
            matching_instances(m, with_status(q.status), q.limit@),
        ),
        ShardQuestion::TimeRange(q) => QueryResultView::Events(
            events_between(m, opt_view(q.start), opt_view(q.end), q.limit@),
        ),
        _ => QueryResultView::Events(Seq::empty()),
    }
}

/// Whether a snapshot holds the sizes of an index.
pub open spec fn sizes_of(s: HotIndexSnapshot, m: HotIndexView) -> bool {
    &&& s.process_instance_count == m.processes.len()
    &&& s.event_count == m.events.len()
    &&& s.pipeline_count == m.by_pipeline.len()
    &&& s.metadata_ref_count == m.by_ref.len()
    &&& s.duplicate_events == m.duplicate_events
    &&& s.rejected_events == m.rejected_events
}

/// Whether an answer is that of an index to a question.
pub open spec fn answers(m: HotIndexView, question: ShardQuestion, answer: ShardAnswer) -> bool {
    match (question, answer) {
        (ShardQuestion::Instance(q), ShardAnswer::Instance(r)) => match r {
            Some(p) => m.processes.contains_key(q.process_instance_id@) && p@
                == m.processes[q.process_instance_id@],
            None => !m.processes.contains_key(q.process_instance_id@),
        },
        (ShardQuestion::Pipelines(metadata_ref), ShardAnswer::Pipelines(r)) => views(r@)
            == sorted::<PipelineId>(pipelines_affected(m, metadata_ref@)),
        (ShardQuestion::Sizes, ShardAnswer::Sizes(s)) => sizes_of(s, m),
        (ShardQuestion::Instance(_), _) => false,
        (ShardQuestion::Pipelines(_), _) => false,
        (ShardQuestion::Sizes, _) => false,
        (_, ShardAnswer::Found(r)) => r@ == found(m, question),
        _ => false,
    }
}

/// Whether an answer is what a task gives on an index.
pub open spec fn task_done(m: HotIndexView, task: ShardTask, answer: ShardAnswer) -> bool {
    match (task, answer) {
        (ShardTask::Ingest(event), ShardAnswer::Ingested(r)) => ingest_result(m, event@, r),
        (ShardTask::Drain(shard_id, max_events), ShardAnswer::Drained(r)) => match r {
            Ok(summary) => exists|n: HotIndexView| #[trigger] drained_into(m, n, shard_id, max_events, summary),
            Err(e) => e@ == SitasErrorView::WorkersRunning,
        },
        (ShardTask::Answer(question), _) => answers(m, question, answer),
        _ => false,
    }
}

impl SitasShardState {
    /// Answers a question.
    pub fn answer(&self, question: &ShardQuestion) -> (r: ShardAnswer)
        ensures
            answers(self.index(), *question, r),
    {
        match question {
            ShardQuestion::Instance(q) => ShardAnswer::Instance(self.hot_index.process_instance(q)),
            ShardQuestion::Events(q) => ShardAnswer::Found(self.hot_index.events(q)),
            ShardQuestion::Pipeline(q) => ShardAnswer::Found(self.hot_index.pipeline_instances(q)),
            ShardQuestion::Impact(q) => ShardAnswer::Found(self.hot_index.impact(q)),
            ShardQuestion::Status(q) => ShardAnswer::Found(self.hot_index.process_instances_by_status(q)),
            ShardQuestion::TimeRange(q) => ShardAnswer::Found(self.hot_index.events_in_time_range(q)),
            ShardQuestion::Pipelines(metadata_ref) => ShardAnswer::Pipelines(
                self.hot_index.affected_pipelines(metadata_ref),
            ),
            ShardQuestion::Sizes => ShardAnswer::Sizes(self.hot_index.snapshot()),
        }
    }

    /// Does a task.
    pub fn run(&mut self, task: ShardTask) -> (r: ShardAnswer)
        ensures
            task_done(old(self).index(), task, r),
            index_consistent(old(self).index()) ==> index_consistent(final(self).index()),
            match task {
                ShardTask::Ingest(event) => final(self).index() == ingested(old(self).index(), event@),
                ShardTask::Drain(shard_id, max_events) => match r {
                    ShardAnswer::Drained(Ok(summary)) => drained_into(
                        old(self).index(),
                        final(self).index(),
                        shard_id,
                        max_events,
                        summary,
                    ),
                    _ => final(self).index() == old(self).index(),
                },
                ShardTask::Answer(_) => *final(self) == *old(self),
            },
    {
        match task {
            ShardTask::Ingest(event) => {
                proof {
                    crate::index::law_ingest_keeps_consistency(self.hot_index@, event@);
                }
                ShardAnswer::Ingested(self.hot_index.ingest(event))
            },
            ShardTask::Drain(shard_id, max_events) => ShardAnswer::Drained(self.drain(shard_id, max_events)),
            ShardTask::Answer(question) => self.answer(&question),
        }
    }
}

/// A shard answers a question about an instance with that instance, and any other question
/// with the list or the numbers that its index holds.
pub proof fn law_shard_answers(m: HotIndexView, question: ShardQuestion, answer: ShardAnswer)
    requires
        answers(m, question, answer),
    ensures
        question matches ShardQuestion::Instance(q) ==> {
            &&& answer is Instance
            &&& answer->Instance_0 is Some <==> m.processes.contains_key(q.process_instance_id@)
            &&& answer->Instance_0 matches Some(p) ==> p@ == m.processes[q.process_instance_id@]
        },
        question matches ShardQuestion::Events(q) ==> (answer matches ShardAnswer::Found(r) && r@
            == QueryResultView::Events(listed_events(m, m.by_process, q.process_instance_id@, q.limit@))),
        question matches ShardQuestion::Impact(q) ==> (answer matches ShardAnswer::Found(r) && r@
            == QueryResultView::Events(listed_events(m, m.by_ref, q.metadata_ref@, q.limit@))),
        question matches ShardQuestion::Sizes ==> (answer matches ShardAnswer::Sizes(s) && s.event_count
            == m.events.len() && s.process_instance_count == m.processes.len() && s.pipeline_count
            == m.by_pipeline.len() && s.metadata_ref_count == m.by_ref.len() && s.duplicate_events
            == m.duplicate_events && s.rejected_events == m.rejected_events),
{
}

/// A drain offers the events of the mailbox one after another and counts each by what came of
/// it: failed if a field is missing, a duplicate if it is known by then, accepted otherwise.
pub proof fn law_drains_count(
    shard_id: LogicalShardId,
    m: HotIndexView,
    events: Seq<PipelineEventView>,
    e: PipelineEventView,
)
    requires
        events.len() < usize::MAX,
    ensures
        ({
            let before = drain_of(shard_id, m, events);
            let after = drain_of(shard_id, m, events.push(e));
            let sofar = taken_in(m, events);
            let known = sofar.events.contains_key(e.event_id);
            &&& taken_in(m, events.push(e)) == ingested(sofar, e)
            &&& taken_in(m, Seq::empty()) == m
            &&& after.shard_id == shard_id
            &&& after.attempted == before.attempted + 1
            &&& crate::ingest::empty_field(e) is Some ==> after.failed == before.failed + 1 && after.duplicates == before.duplicates
                && after.accepted == before.accepted
            &&& crate::ingest::empty_field(e) is None && known ==> after.duplicates == before.duplicates + 1 && after.failed
                == before.failed && after.accepted == before.accepted
            &&& crate::ingest::empty_field(e) is None && !known ==> after.accepted == before.accepted + 1 && after.failed
                == before.failed && after.duplicates == before.duplicates
        }),
{
    assert(events.push(e).drop_last() =~= events);
    law_drain_adds_up(shard_id, m, events);
    law_drain_adds_up(shard_id, m, events.push(e));
}

} // verus!
