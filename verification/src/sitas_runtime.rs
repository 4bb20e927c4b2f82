//! Shard work for a thread-per-shard executor: its configuration and errors, what one
//! shard does with an event, and how the answers of all shards are merged.

use vstd::prelude::*;
use crate::index::{
    ingested, keep_first, later, one_more, sort_by_time, HotIndex, HotIndexView, IngestOutcome,
};
use crate::ingest::{is_valid, IngestError, PipelineEvent, PipelineEventView};
use crate::observability::HotIndexSnapshot;
use crate::ordered::{first_n, sorted, stable_sort, views, SortedSet};
use crate::process::{PipelineId, ProcessInstanceSnapshot, ProcessView};
use crate::query::{QueryLimit, QueryResult, QueryResultView};
use crate::runtime::{
    all_answers, at_most, fan_out, runtime_error_text, IngestDrainSummary, LogicalShardId, QueuedIngestOutcome,
    RuntimeError, RuntimeErrorView, ShardRuntimeSnapshot, ShardSnapshot,
};
use crate::text::{decimal, push_decimal, push_text, IntoText};

pub use crate::shard_runtime::{SitasRuntimeSnapshot, SitasShardRuntime};

verus! {

// ---------------------------------------------------------------------------
// Configuration
// ---------------------------------------------------------------------------

/// The capacity of a mailbox where none is given: `sitas::DEFAULT_MAILBOX_CAPACITY`, which
/// is 1024.
#[verifier::external_body]
fn default_mailbox_capacity() -> (r: usize)
    ensures
        r == 1024,
{
    sitas::DEFAULT_MAILBOX_CAPACITY
}

/// Configuration of the executor.
#[derive(Debug, PartialEq, Eq)]
pub struct SitasRuntimeConfig {
    shard_count: usize,
    mailbox_capacity_per_shard: usize,
    thread_name_prefix: String,
}

/// The view of a configuration.
pub struct SitasConfigView {
    pub shard_count: usize,
    pub mailbox_capacity_per_shard: usize,
    pub thread_name_prefix: Seq<char>,
}

impl View for SitasRuntimeConfig {
    type V = SitasConfigView;

    closed spec fn view(&self) -> SitasConfigView {
        SitasConfigView {
            shard_count: self.shard_count,
            mailbox_capacity_per_shard: self.mailbox_capacity_per_shard,
            thread_name_prefix: self.thread_name_prefix@,
        }
    }
}

impl SitasRuntimeConfig {
    /// A configuration with so many shards and so much room in each mailbox.
    pub fn new(shard_count: usize, mailbox_capacity_per_shard: usize) -> (r: Self)
        ensures
            r@ == (SitasConfigView {
                shard_count,
                mailbox_capacity_per_shard,
                thread_name_prefix: "vannak-sitas-shard"@,
            }),
    {
        SitasRuntimeConfig {
            shard_count,
            mailbox_capacity_per_shard,
            thread_name_prefix: "vannak-sitas-shard".to_owned(),
        }
    }

    /// The configuration with another prefix for the names of the threads.
    pub fn with_thread_name_prefix(self, prefix: impl IntoText) -> (r: Self)
        ensures
            r@ == (SitasConfigView { thread_name_prefix: prefix.text(), ..self@ }),
    {
        SitasRuntimeConfig {
            shard_count: self.shard_count,
            mailbox_capacity_per_shard: self.mailbox_capacity_per_shard,
            thread_name_prefix: prefix.into_text(),
        }
    }

    /// The number of shards.
    pub fn shard_count(&self) -> (r: usize)
        ensures
            r == self@.shard_count,
    {
        self.shard_count
    }

    /// The room in each mailbox.
    pub fn mailbox_capacity_per_shard(&self) -> (r: usize)
        ensures
            r == self@.mailbox_capacity_per_shard,
    {
        self.mailbox_capacity_per_shard
    }

    /// The prefix for the names of the threads.
    pub fn thread_name_prefix(&self) -> (r: &str)
        ensures
            r@ == self@.thread_name_prefix,
    {
        self.thread_name_prefix.as_str()
    }

    /// Whether an executor can start with the configuration: it needs a shard and room in
    /// the mailboxes.
    pub fn validate(&self) -> (r: Result<(), SitasRuntimeError>)
        ensures
            match r {
                Ok(()) => self@.shard_count > 0 && self@.mailbox_capacity_per_shard > 0,
                Err(e) => if self@.shard_count == 0 {
                    e@ == SitasErrorView::Runtime(RuntimeErrorView::NoShards)
                } else {
                    self@.mailbox_capacity_per_shard == 0 && e@ == SitasErrorView::Runtime(
                        RuntimeErrorView::QueueCapacityZero,
                    )
                },
            },
    {
        if self.shard_count == 0 {
            return Err(SitasRuntimeError::Runtime(RuntimeError::NoShards));
        }
        if self.mailbox_capacity_per_shard == 0 {
            return Err(SitasRuntimeError::Runtime(RuntimeError::QueueCapacityZero));
        }
        Ok(())
    }
}

impl Clone for SitasRuntimeConfig {
    fn clone(&self) -> (r: Self)
        ensures
            r == *self,
    {
        SitasRuntimeConfig {
            shard_count: self.shard_count,
            mailbox_capacity_per_shard: self.mailbox_capacity_per_shard,
            thread_name_prefix: self.thread_name_prefix.clone(),
        }
    }
}

impl Default for SitasRuntimeConfig {
    fn default() -> (r: Self)
        ensures
            r@ == (SitasConfigView {
                shard_count: 1,
                mailbox_capacity_per_shard: 1024,
                thread_name_prefix: "vannak-sitas-shard"@,
            }),
    {
        SitasRuntimeConfig::new(1, default_mailbox_capacity())
    }
}

// ---------------------------------------------------------------------------
// Errors
// ---------------------------------------------------------------------------

/// What can go wrong in the executor's runtime; failures of the executor itself carry its
/// message.
#[derive(Debug, PartialEq, Eq)]
pub enum SitasRuntimeError {
    /// The runtime refuses.
    Runtime(RuntimeError),
    /// An event is not valid.
    Ingest(IngestError),
    /// The executor did not start or stop.
    Start(String),
    /// A task was not placed.
    Spawn(String),
    /// A task failed.
    Join(String),
    /// A task on all shards failed.
    Operation(String),
    /// A mailbox was not created.
    CreateMailbox(String),
    /// A mailbox was not found.
    AddressMailbox(String),
    /// The runtime has stopped.
    Stopped,
    /// The mailbox workers are running already.
    WorkersAlreadyRunning,
    /// The mailbox workers own the receivers.
    WorkersRunning,
    /// A worker could not reach the state of its shard.
    WorkerAccess(String),
    /// A mailbox is closed.
    MailboxClosed { shard_id: LogicalShardId },
}

/// The view of a runtime's error.
pub enum SitasErrorView {
    Runtime(RuntimeErrorView),
    Ingest(Seq<char>),
    Start(Seq<char>),
    Spawn(Seq<char>),
    Join(Seq<char>),
    Operation(Seq<char>),
    CreateMailbox(Seq<char>),
    AddressMailbox(Seq<char>),
    Stopped,
    WorkersAlreadyRunning,
    WorkersRunning,
    WorkerAccess(Seq<char>),
    MailboxClosed(usize),
}

impl View for SitasRuntimeError {
    type V = SitasErrorView;

    open spec fn view(&self) -> SitasErrorView {
        match self {
            SitasRuntimeError::Runtime(e) => SitasErrorView::Runtime(e@),
            SitasRuntimeError::Ingest(e) => SitasErrorView::Ingest(e->field@),
            SitasRuntimeError::Start(text) => SitasErrorView::Start(text@),
            SitasRuntimeError::Spawn(text) => SitasErrorView::Spawn(text@),
            SitasRuntimeError::Join(text) => SitasErrorView::Join(text@),
            SitasRuntimeError::Operation(text) => SitasErrorView::Operation(text@),
            SitasRuntimeError::CreateMailbox(text) => SitasErrorView::CreateMailbox(text@),
            SitasRuntimeError::AddressMailbox(text) => SitasErrorView::AddressMailbox(text@),
            SitasRuntimeError::Stopped => SitasErrorView::Stopped,
            SitasRuntimeError::WorkersAlreadyRunning => SitasErrorView::WorkersAlreadyRunning,
            SitasRuntimeError::WorkersRunning => SitasErrorView::WorkersRunning,
            SitasRuntimeError::WorkerAccess(text) => SitasErrorView::WorkerAccess(text@),
            SitasRuntimeError::MailboxClosed { shard_id } => SitasErrorView::MailboxClosed(shard_id.0),
        }
    }
}

/// The text of a runtime's error.
pub open spec fn sitas_error_text(e: SitasErrorView) -> Seq<char> {
    match e {
        SitasErrorView::Runtime(e) => runtime_error_text(e),
        SitasErrorView::Ingest(field) => "event field "@ + field + " must not be empty"@,
        SitasErrorView::Start(text) => text,
        SitasErrorView::Spawn(text) => text,
        SitasErrorView::Join(text) => text,
        SitasErrorView::Operation(text) => text,
        SitasErrorView::CreateMailbox(text) => text,
        SitasErrorView::AddressMailbox(text) => text,
        SitasErrorView::Stopped => "Sitas runtime has stopped"@,
        SitasErrorView::WorkersAlreadyRunning => "Sitas mailbox workers are already running"@,
        SitasErrorView::WorkersRunning => "Sitas mailbox workers own the shard mailbox receivers"@,
        SitasErrorView::WorkerAccess(text) => text,
        SitasErrorView::MailboxClosed(shard) => "process-event mailbox for logical shard "@ + decimal(shard as nat)
            + " is closed"@,
    }
}

impl SitasRuntimeError {
    /// The error as a text for an operator.
    pub fn describe(&self) -> (r: String)
        ensures
            r@ == sitas_error_text(self@),
    {
        match self {
            SitasRuntimeError::Runtime(e) => e.describe(),
            SitasRuntimeError::Ingest(e) => e.describe(),
            SitasRuntimeError::Start(text) => text.clone(),
            SitasRuntimeError::Spawn(text) => text.clone(),
            SitasRuntimeError::Join(text) => text.clone(),
            SitasRuntimeError::Operation(text) => text.clone(),
            SitasRuntimeError::CreateMailbox(text) => text.clone(),
            SitasRuntimeError::AddressMailbox(text) => text.clone(),
            SitasRuntimeError::Stopped => "Sitas runtime has stopped".to_owned(),
            SitasRuntimeError::WorkersAlreadyRunning => "Sitas mailbox workers are already running".to_owned(),
            SitasRuntimeError::WorkersRunning => "Sitas mailbox workers own the shard mailbox receivers".to_owned(),
            SitasRuntimeError::WorkerAccess(text) => text.clone(),
            SitasRuntimeError::MailboxClosed { shard_id } => {
                let mut out = "process-event mailbox for logical shard ".to_owned();
                push_decimal(&mut out, shard_id.0 as u64);
                push_text(&mut out, " is closed");
                out
            },
        }
    }

    /// Whether the error says that a mailbox is full.
    pub fn is_queue_full(&self) -> (r: bool)
        ensures
            r == says_queue_full(self@),
    {
        match self {
            SitasRuntimeError::Runtime(RuntimeError::QueueFull { .. }) => true,
            _ => false,
        }
    }
}

/// Whether an error says that a mailbox is full.
pub open spec fn says_queue_full(e: SitasErrorView) -> bool {
    e matches SitasErrorView::Runtime(RuntimeErrorView::QueueFull(_, _))
}

// ---------------------------------------------------------------------------
// Admission
// ---------------------------------------------------------------------------

/// What became of sending an event to a mailbox.
#[derive(Debug, Clone, Copy, PartialEq, Eq, Structural)]
pub enum MailboxSend {
    Sent,
    Full,
    Closed,
}

/// What a mailbox holds after an event has been sent to it.
#[derive(Debug, Clone, Copy, PartialEq, Eq, Structural)]
pub struct MailboxDepth {
    pub len: usize,
    pub capacity: usize,
}

/// What the sender of an event is answered.
pub fn admission(shard_id: LogicalShardId, send: MailboxSend, depth: MailboxDepth) -> (r: Result<
    QueuedIngestOutcome,
    SitasRuntimeError,
>)
    ensures
        match (send, r) {
            (MailboxSend::Sent, Ok(x)) => {
                &&& x.shard_id == shard_id
                &&& x.queued_depth == depth.len
                &&& x.capacity == depth.capacity
            },
            (MailboxSend::Full, Err(e)) => e@ == SitasErrorView::Runtime(
                RuntimeErrorView::QueueFull(shard_id@, depth.capacity),
            ),
            (MailboxSend::Closed, Err(e)) => e@ == SitasErrorView::MailboxClosed(shard_id@),
            _ => false,
        },
{
    match send {
        MailboxSend::Sent => Ok(QueuedIngestOutcome { shard_id, queued_depth: depth.len, capacity: depth.capacity }),
        MailboxSend::Full => Err(
            SitasRuntimeError::Runtime(RuntimeError::QueueFull { shard_id, capacity: depth.capacity }),
        ),
        MailboxSend::Closed => Err(SitasRuntimeError::MailboxClosed { shard_id }),
    }
}

/// What whoever stops the runtime is answered, given what the executor said.
pub fn stop_answer(stopped: Result<(), String>) -> (r: Result<(), SitasRuntimeError>)
    ensures
        match (stopped, r) {
            (Ok(()), Ok(())) => true,
            (Err(text), Err(e)) => e@ == SitasErrorView::Start(text@),
            _ => false,
        },
{
    match stopped {
        Ok(()) => Ok(()),
        Err(text) => Err(SitasRuntimeError::Start(text)),
    }
}

// ---------------------------------------------------------------------------
// Work of one shard
// ---------------------------------------------------------------------------

/// What a mailbox worker did.
#[derive(Debug, Clone, Copy, PartialEq, Eq, Structural)]
pub struct IngestWorkerSummary {
    /// Events read from the mailbox.
    pub attempted: u64,
    /// New events.
    pub accepted: u64,
    /// Events that were known.
    pub duplicates: u64,
    /// Events that are not valid.
    pub failed: u64,
}

/// The summary after one more event has been offered to an index.
pub open spec fn worker_counted(s: IngestWorkerSummary, m: HotIndexView, e: PipelineEventView) -> IngestWorkerSummary {
    let counted = IngestWorkerSummary { attempted: one_more(s.attempted), ..s };
    if !is_valid(e) {
        IngestWorkerSummary { failed: one_more(s.failed), ..counted }
    } else if m.events.contains_key(e.event_id) {
        IngestWorkerSummary { duplicates: one_more(s.duplicates), ..counted }
    } else {
        IngestWorkerSummary { accepted: one_more(s.accepted), ..counted }
    }
}

/// What a mailbox worker does next.
#[derive(Debug, PartialEq, Eq)]
pub enum WorkerStep {
    /// Offer the event to the index of the shard.
    Ingest { event: PipelineEvent },
    /// Wait for the next event.
    Wait,
    /// Give the receiver back and end.
    End,
}

/// What a mailbox worker has waited for.
#[derive(Debug, PartialEq, Eq)]
pub enum WorkerEvent {
    /// An event came.
    Received { event: PipelineEvent },
    /// The mailbox was empty after all.
    Empty,
    /// The mailbox is closed.
    Closed,
    /// The worker has been asked to stop.
    StopRequested,
}

impl IngestWorkerSummary {
    /// The summary of a worker that has not begun.
    pub fn new() -> (r: Self)
        ensures
            r == (IngestWorkerSummary { attempted: 0, accepted: 0, duplicates: 0, failed: 0 }),
    {
        IngestWorkerSummary { attempted: 0, accepted: 0, duplicates: 0, failed: 0 }
    }

    /// What the worker does after what it has waited for.
    pub fn next_step(event: WorkerEvent) -> (r: WorkerStep)
        ensures
            match event {
                WorkerEvent::Received { event } => r == (WorkerStep::Ingest { event }),
                WorkerEvent::Empty => r == WorkerStep::Wait,
                WorkerEvent::Closed => r == WorkerStep::End,
                WorkerEvent::StopRequested => r == WorkerStep::End,
            },
    {
        match event {
            WorkerEvent::Received { event } => WorkerStep::Ingest { event },
            WorkerEvent::Empty => WorkerStep::Wait,
            WorkerEvent::Closed => WorkerStep::End,
            WorkerEvent::StopRequested => WorkerStep::End,
        }
    }

    /// Offers an event to the index of the shard, and counts what came of it.
    pub fn ingest(&mut self, index: &mut HotIndex, event: PipelineEvent)
        ensures
            final(index)@ == ingested(old(index)@, event@),
            *final(self) == worker_counted(*old(self), old(index)@, event@),
    {
        self.attempted = self.attempted.saturating_add(1);
        match index.ingest(event) {
            Ok(IngestOutcome::Accepted) => {
                self.accepted = self.accepted.saturating_add(1);
            },
            Ok(IngestOutcome::Duplicate) => {
                self.duplicates = self.duplicates.saturating_add(1);
            },
            Err(_) => {
                self.failed = self.failed.saturating_add(1);
            },
        }
    }
}

impl Default for IngestWorkerSummary {
    fn default() -> (r: Self)
        ensures
            r == (IngestWorkerSummary { attempted: 0, accepted: 0, duplicates: 0, failed: 0 }),
    {
        IngestWorkerSummary::new()
    }
}

/// The summary of a drain after one more event has been offered to an index.
pub open spec fn drain_counted(s: IngestDrainSummary, m: HotIndexView, e: PipelineEventView) -> IngestDrainSummary {
    let counted = IngestDrainSummary { attempted: (s.attempted + 1) as usize, ..s };
    if !is_valid(e) {
        IngestDrainSummary { failed: (s.failed + 1) as usize, ..counted }
    } else if m.events.contains_key(e.event_id) {
        IngestDrainSummary { duplicates: (s.duplicates + 1) as usize, ..counted }
    } else {
        IngestDrainSummary { accepted: (s.accepted + 1) as usize, ..counted }
    }
}

/// Whether a drain goes on: it stops after so many events.
pub fn drain_goes_on(summary: &IngestDrainSummary, max_events: usize) -> (r: bool)
    ensures
        r == (summary.attempted < max_events),
{
    summary.attempted < max_events
}

/// Offers an event that a drain has taken from a mailbox to the index of the shard, and
/// counts what came of it.
pub fn ingest_drained(summary: &mut IngestDrainSummary, index: &mut HotIndex, event: PipelineEvent)
    requires
        old(summary).accepted + old(summary).duplicates + old(summary).failed == old(summary).attempted,
        old(summary).attempted < usize::MAX,
    ensures
        final(index)@ == ingested(old(index)@, event@),
        *final(summary) == drain_counted(*old(summary), old(index)@, event@),
        final(summary).accepted + final(summary).duplicates + final(summary).failed == final(summary).attempted,
{
    summary.attempted = summary.attempted + 1;
    match index.ingest(event) {
        Ok(IngestOutcome::Accepted) => {
            summary.accepted = summary.accepted + 1;
        },
        Ok(IngestOutcome::Duplicate) => {
            summary.duplicates = summary.duplicates + 1;
        },
        Err(_) => {
            summary.failed = summary.failed + 1;
        },
    }
}

// ---------------------------------------------------------------------------
// Snapshots
// ---------------------------------------------------------------------------

/// What is known of a mailbox.
#[derive(Debug, Clone, Copy, PartialEq, Eq)]
pub struct SitasMailboxSnapshot {
    pub shard_id: LogicalShardId,
    /// Room for events.
    pub capacity: usize,
    /// Events that wait.
    pub len: usize,
    /// Live senders.
    pub sender_count: usize,
    /// Whether the shard has taken the receiver.
    pub receiver_taken: bool,
    /// Whether the receiver is closed.
    pub receiver_closed: bool,
    /// Events sent.
    pub sent: u64,
    /// Events received.
    pub received: u64,
    /// Events refused because the mailbox was full.
    pub full_rejections: u64,
    /// Events refused because the mailbox was closed.
    pub closed_rejections: u64,
    /// Senders that wait for room.
    pub send_waiter_count: usize,
}

/// The sum of a number over snapshots.
pub open spec fn snapshot_total(s: Seq<HotIndexSnapshot>, number: spec_fn(HotIndexSnapshot) -> nat) -> nat
    decreases s.len(),
{
    if s.len() == 0 {
        0
    } else {
        snapshot_total(s.drop_last(), number) + number(s.last())
    }
}

/// Whether a snapshot holds the sums over others.
pub open spec fn sums_up(t: HotIndexSnapshot, s: Seq<HotIndexSnapshot>) -> bool {
    &&& t.process_instance_count == at_most(
        snapshot_total(s, |x: HotIndexSnapshot| x.process_instance_count as nat),
        usize::MAX as nat,
    )
    &&& t.event_count == at_most(
        snapshot_total(s, |x: HotIndexSnapshot| x.event_count as nat),
        usize::MAX as nat,
    )
    &&& t.pipeline_count == at_most(
        snapshot_total(s, |x: HotIndexSnapshot| x.pipeline_count as nat),
        usize::MAX as nat,
    )
    &&& t.metadata_ref_count == at_most(
        snapshot_total(s, |x: HotIndexSnapshot| x.metadata_ref_count as nat),
        usize::MAX as nat,
    )
    &&& t.duplicate_events == at_most(
        snapshot_total(s, |x: HotIndexSnapshot| x.duplicate_events as nat),
        u64::MAX as nat,
    )
    &&& t.rejected_events == at_most(
        snapshot_total(s, |x: HotIndexSnapshot| x.rejected_events as nat),
        u64::MAX as nat,
    )
}

/// The sizes of all shards, given in their order, and their sums.
pub fn runtime_snapshot(snapshots: &Vec<HotIndexSnapshot>) -> (r: ShardRuntimeSnapshot)
    ensures
        r.shards.len() == snapshots.len(),
        forall|i: int|
            0 <= i < snapshots.len() ==> (#[trigger] r.shards@[i]).shard_id@ == i && r.shards@[i].hot_index
                == snapshots@[i],
        sums_up(r.totals, snapshots@),
{
    let ghost all = snapshots@;
    let mut shards: Vec<ShardSnapshot> = Vec::new();
    let mut totals = HotIndexSnapshot {
        process_instance_count: 0,
        event_count: 0,
        pipeline_count: 0,
        metadata_ref_count: 0,
        duplicate_events: 0,
        rejected_events: 0,
    };
    let mut i: usize = 0;
    while i < snapshots.len()
        invariant
            i <= snapshots.len(),
            all == snapshots@,
            shards.len() == i,
            forall|j: int| 0 <= j < i ==> (#[trigger] shards@[j]).shard_id@ == j && shards@[j].hot_index == all[j],
            sums_up(totals, all.take(i as int)),
        decreases snapshots.len() - i,
    {
        assert(all.take(i + 1).drop_last() =~= all.take(i as int));
        let hot_index = snapshots[i];
        shards.push(ShardSnapshot { shard_id: LogicalShardId(i), hot_index });
        totals = HotIndexSnapshot {
            process_instance_count: totals.process_instance_count.saturating_add(hot_index.process_instance_count),
            event_count: totals.event_count.saturating_add(hot_index.event_count),
            pipeline_count: totals.pipeline_count.saturating_add(hot_index.pipeline_count),
            metadata_ref_count: totals.metadata_ref_count.saturating_add(hot_index.metadata_ref_count),
            duplicate_events: totals.duplicate_events.saturating_add(hot_index.duplicate_events),
            rejected_events: totals.rejected_events.saturating_add(hot_index.rejected_events),
        };
        i += 1;
    }
    assert(all.take(snapshots.len() as int) =~= all);
    ShardRuntimeSnapshot { shards, totals }
}

// ---------------------------------------------------------------------------
// Merging the answers of all shards
// ---------------------------------------------------------------------------

/// The instances in the answers of the shards, one after another.
pub open spec fn all_instances(answers: Seq<QueryResultView>) -> Seq<ProcessView>
    decreases answers.len(),
{
    if answers.len() == 0 {
        Seq::empty()
    } else {
        match answers.last() {
            QueryResultView::ProcessInstances(items) => all_instances(answers.drop_last()) + items,
            _ => all_instances(answers.drop_last()),
        }
    }
}

/// The events in the answers of the shards, one after another.
pub open spec fn all_events(answers: Seq<QueryResultView>) -> Seq<PipelineEventView>
    decreases answers.len(),
{
    if answers.len() == 0 {
        Seq::empty()
    } else {
        match answers.last() {
            QueryResultView::Events(items) => all_events(answers.drop_last()) + items,
            _ => all_events(answers.drop_last()),
        }
    }
}

/// The first of the instances that the shards have answered.
pub fn merge_instances(answers: &Vec<QueryResult>, limit: QueryLimit) -> (r: QueryResult)
    ensures
        r@ == QueryResultView::ProcessInstances(first_n(all_instances(views(answers@)), limit@)),
{
    let ghost all = views(answers@);
    let most: usize = limit.value();
    let mut instances: Vec<ProcessInstanceSnapshot> = Vec::new();
    let mut i: usize = 0;
    assert(all.take(0) =~= Seq::<QueryResultView>::empty());
    assert(views(instances@) =~= first_n(all_instances(all.take(0)), most as nat));
    while i < answers.len()
        invariant
            i <= answers.len(),
            all == views(answers@),
            most == limit@,
            instances.len() <= most,
            views(instances@) == first_n(all_instances(all.take(i as int)), most as nat),
        decreases answers.len() - i,
    {
        assert(all.take(i + 1).drop_last() =~= all.take(i as int));
        assert(all.take(i + 1).last() == answers@[i as int]@);
        let ghost before = all_instances(all.take(i as int));
        if let QueryResult::ProcessInstances(partial) = &answers[i] {
            let ghost items = views(partial@);
            let mut j: usize = 0;
            assert(before + items.take(0) =~= before);
            while j < partial.len() && instances.len() < most
                invariant
                    j <= partial.len(),
                    items == views(partial@),
                    instances.len() <= most,
                    views(instances@) == first_n(before + items.take(j as int), most as nat),
                decreases partial.len() - j,
            {
                let ghost done = instances@;
                assert(views(done).len() == done.len());
                instances.push(partial[j].clone());
                proof {
                    assert(views(instances@) =~= views(done).push(items[j as int]));
                    assert(before + items.take(j + 1) =~= (before + items.take(j as int)).push(items[j as int]));
                    assert(views(instances@) =~= first_n(before + items.take(j + 1), most as nat));
                }
                j += 1;
            }
            proof {
                assert(views(instances@).len() == instances.len());
                if j == partial.len() {
                    assert(items.take(j as int) =~= items);
                } else {
                    assert(first_n(before + items, most as nat) =~= first_n(before + items.take(j as int), most as nat));
                }
            }
        }
        i += 1;
    }
    assert(all.take(answers.len() as int) =~= all);
    QueryResult::ProcessInstances(instances)
}

fn collect_events(answers: &Vec<QueryResult>) -> (r: Vec<PipelineEvent>)
    ensures
        views(r@) == all_events(views(answers@)),
{
    let ghost all = views(answers@);
    let mut events: Vec<PipelineEvent> = Vec::new();
    let mut i: usize = 0;
    assert(all.take(0) =~= Seq::<QueryResultView>::empty());
    assert(views(events@) =~= all_events(all.take(0)));
    while i < answers.len()
        invariant
            i <= answers.len(),
            all == views(answers@),
            views(events@) == all_events(all.take(i as int)),
        decreases answers.len() - i,
    {
        assert(all.take(i + 1).drop_last() =~= all.take(i as int));
        assert(all.take(i + 1).last() == answers@[i as int]@);
        let ghost before = all_events(all.take(i as int));
        if let QueryResult::Events(partial) = &answers[i] {
            let ghost items = views(partial@);
            let mut j: usize = 0;
            assert(before + items.take(0) =~= before);
            while j < partial.len()
                invariant
                    j <= partial.len(),
                    items == views(partial@),
                    views(events@) == before + items.take(j as int),
                decreases partial.len() - j,
            {
                let ghost done = events@;
                events.push(partial[j].clone());
                proof {
                    assert(views(events@) =~= views(done).push(items[j as int]));
                    assert(before + items.take(j + 1) =~= (before + items.take(j as int)).push(items[j as int]));
                }
                j += 1;
            }
            assert(items.take(partial.len() as int) =~= items);
        }
        i += 1;
    }
    assert(all.take(answers.len() as int) =~= all);
    events
}

/// The first of the events that the shards have answered.
pub fn merge_events(answers: &Vec<QueryResult>, limit: QueryLimit) -> (r: QueryResult)
    ensures
        r@ == QueryResultView::Events(first_n(all_events(views(answers@)), limit@)),
{
    QueryResult::Events(keep_first(collect_events(answers), limit.value()))
}

/// The first in time of the events that the shards have answered.
pub fn merge_time_range(answers: &Vec<QueryResult>, limit: QueryLimit) -> (r: QueryResult)
    ensures
        r@ == QueryResultView::Events(first_n(stable_sort(all_events(views(answers@)), later()), limit@)),
{
    QueryResult::Events(keep_first(sort_by_time(collect_events(answers)), limit.value()))
}

/// The pipelines that the shards have answered.
pub open spec fn all_pipelines(answers: Seq<Seq<Seq<char>>>) -> Set<Seq<char>>
    decreases answers.len(),
{
    if answers.len() == 0 {
        Set::empty()
    } else {
        all_pipelines(answers.drop_last()).union(answers.last().to_set())
    }
}

/// The lists of pipelines that the shards have answered.
pub open spec fn pipeline_lists(answers: Seq<Vec<PipelineId>>) -> Seq<Seq<Seq<char>>> {
    Seq::new(answers.len(), |i: int| views(answers[i]@))
}

/// The pipelines that the shards have answered, each once, in order.
pub fn merge_pipelines(answers: &Vec<Vec<PipelineId>>) -> (r: Vec<PipelineId>)
    ensures
        views(r@) == sorted::<PipelineId>(all_pipelines(pipeline_lists(answers@))),
{
    let ghost all = pipeline_lists(answers@);
    let mut pipelines: SortedSet<PipelineId> = SortedSet::new();
    let mut i: usize = 0;
    assert(all.take(0) =~= Seq::<Seq<Seq<char>>>::empty());
    assert(pipelines@ =~= all_pipelines(all.take(0)));
    while i < answers.len()
        invariant
            i <= answers.len(),
            all == pipeline_lists(answers@),
            pipelines@ == all_pipelines(all.take(i as int)),
        decreases answers.len() - i,
    {
        assert(all.take(i + 1).drop_last() =~= all.take(i as int));
        assert(all.take(i + 1).last() == views(answers@[i as int]@));
        crate::runtime::insert_all(&mut pipelines, &answers[i]);
        i += 1;
    }
    assert(all.take(answers.len() as int) =~= all);
    pipelines.to_vec()
}

// ---------------------------------------------------------------------------
// Laws
// ---------------------------------------------------------------------------

/// The answers of shards to a query that each answers with the first of what it holds.
pub open spec fn instance_answers(
    shards: Seq<HotIndexView>,
    answer: spec_fn(HotIndexView, nat) -> Seq<ProcessView>,
    limit: nat,
) -> Seq<QueryResultView> {
    Seq::new(shards.len(), |i: int| QueryResultView::ProcessInstances(answer(shards[i], limit)))
}

/// Asking all shards at once and keeping the first of their answers gives the same as
/// asking one after another for what is still wanted.
pub proof fn law_merging_agrees_with_asking_in_turn(
    shards: Seq<HotIndexView>,
    answer: spec_fn(HotIndexView, nat) -> Seq<ProcessView>,
    full: spec_fn(HotIndexView) -> Seq<ProcessView>,
    limit: nat,
)
    requires
        forall|m: HotIndexView, n: nat| #[trigger] answer(m, n) == first_n(full(m), n),
    ensures
        first_n(all_instances(instance_answers(shards, answer, limit)), limit) == fan_out(shards, answer, limit),
{
    lemma_merged(shards, answer, full, limit);
    crate::runtime::law_fan_out_takes_the_first(shards, answer, full, limit);
}

proof fn lemma_merged(
    shards: Seq<HotIndexView>,
    answer: spec_fn(HotIndexView, nat) -> Seq<ProcessView>,
    full: spec_fn(HotIndexView) -> Seq<ProcessView>,
    limit: nat,
)
    requires
        forall|m: HotIndexView, n: nat| #[trigger] answer(m, n) == first_n(full(m), n),
    ensures
        first_n(all_instances(instance_answers(shards, answer, limit)), limit) == first_n(
            all_answers(shards, full),
            limit,
        ),
    decreases shards.len(),
{
    let answers = instance_answers(shards, answer, limit);
    if shards.len() == 0 {
        assert(all_instances(answers) =~= all_answers(shards, full));
    } else {
        lemma_merged(shards.drop_last(), answer, full, limit);
        assert(answers.drop_last() =~= instance_answers(shards.drop_last(), answer, limit));
        let a = all_instances(answers.drop_last());
        let b = all_answers(shards.drop_last(), full);
        let last = full(shards.last());
        let part = first_n(last, limit);
        assert(all_instances(answers) == a + part);
        assert(first_n(a, limit) == first_n(b, limit));
        assert(first_n(a + part, limit) =~= first_n(b + last, limit)) by {
            assert(a.len() < limit ==> a == b) by {
                if a.len() < limit {
                    assert(first_n(a, limit) =~= a);
                    assert(b.len() < limit) by {
                        assert(first_n(b, limit).len() == a.len());
                    }
                    assert(first_n(b, limit) =~= b);
                }
            }
            assert(a.len() >= limit ==> b.len() >= limit) by {
                assert(first_n(a, limit).len() == first_n(b, limit).len());
            }
            assert forall|i: int| 0 <= i < first_n(a + part, limit).len() implies first_n(a + part, limit)[i]
                == first_n(b + last, limit)[i] by {
                if a.len() >= limit {
                    assert(first_n(a, limit)[i] == a[i]);
                    assert(first_n(b, limit)[i] == b[i]);
                }
            }
        }
    }
}

/// A full mailbox, and nothing else, is a full queue.
pub proof fn law_full_queues(e: SitasErrorView)
    ensures
        says_queue_full(e) ==> e is Runtime && e->Runtime_0 is QueueFull,
        e is Runtime && e->Runtime_0 is QueueFull ==> says_queue_full(e),
{
}

/// A worker counts every event it takes once, by what came of it.
pub proof fn law_workers_count(s: IngestWorkerSummary, m: HotIndexView, e: PipelineEventView)
    ensures
        ({
            let after = worker_counted(s, m, e);
            let known = m.events.contains_key(e.event_id);
            &&& s.attempted < u64::MAX ==> after.attempted == s.attempted + 1
            &&& crate::ingest::empty_field(e) is Some ==> after.duplicates == s.duplicates && after.accepted == s.accepted
                && (s.failed < u64::MAX ==> after.failed == s.failed + 1)
            &&& crate::ingest::empty_field(e) is None && known ==> after.failed == s.failed && after.accepted
                == s.accepted && (s.duplicates < u64::MAX ==> after.duplicates == s.duplicates + 1)
            &&& crate::ingest::empty_field(e) is None && !known ==> after.failed == s.failed && after.duplicates
                == s.duplicates && (s.accepted < u64::MAX ==> after.accepted == s.accepted + 1)
        }),
{
}

/// What the shards answered comes one after another, in the order of the shards.
pub proof fn law_answers_are_joined(answers: Seq<QueryResultView>, items: Seq<ProcessView>, events: Seq<PipelineEventView>)
    ensures
        all_instances(Seq::empty()).len() == 0 && all_events(Seq::empty()).len() == 0,
        all_instances(answers.push(QueryResultView::ProcessInstances(items))) == all_instances(answers) + items,
        all_events(answers.push(QueryResultView::Events(events))) == all_events(answers) + events,
{
    assert(answers.push(QueryResultView::ProcessInstances(items)).drop_last() =~= answers);
    assert(answers.push(QueryResultView::Events(events)).drop_last() =~= answers);
}

/// The pipelines of all shards are those that any of them names.
pub proof fn law_pipelines_are_joined(answers: Seq<Seq<Seq<char>>>, p: Seq<char>)
    ensures
        all_pipelines(answers).contains(p) <==> exists|i: int|
            0 <= i < answers.len() && (#[trigger] answers[i]).contains(p),
    decreases answers.len(),
{
    if answers.len() > 0 {
        let front = answers.drop_last();
        law_pipelines_are_joined(front, p);
        let last = answers.len() - 1;
        assert(answers[last] == answers.last());
        if all_pipelines(front).contains(p) {
            let i = choose|i: int| 0 <= i < front.len() && (#[trigger] front[i]).contains(p);
            assert(answers[i] == front[i]);
        }
        if exists|i: int| 0 <= i < answers.len() && (#[trigger] answers[i]).contains(p) {
            let i = choose|i: int| 0 <= i < answers.len() && (#[trigger] answers[i]).contains(p);
            if i < last {
                assert(front[i] == answers[i]);
            }
        }
    }
}

/// The numbers of one more shard are added to those of the others.
pub proof fn law_totals_add_up(s: Seq<HotIndexSnapshot>, x: HotIndexSnapshot, t: HotIndexSnapshot)
    requires
        sums_up(t, s.push(x)),
    ensures
        ({
            let events = snapshot_total(s, |x: HotIndexSnapshot| x.event_count as nat) + x.event_count;
            let instances = snapshot_total(s, |x: HotIndexSnapshot| x.process_instance_count as nat)
                + x.process_instance_count;
            let duplicates = snapshot_total(s, |x: HotIndexSnapshot| x.duplicate_events as nat) + x.duplicate_events;
            &&& events <= usize::MAX ==> t.event_count == events
            &&& events > usize::MAX ==> t.event_count == usize::MAX
            &&& instances <= usize::MAX ==> t.process_instance_count == instances
            &&& duplicates <= u64::MAX ==> t.duplicate_events == duplicates
        }),
{
    assert(s.push(x).drop_last() =~= s);
}

} // verus!
