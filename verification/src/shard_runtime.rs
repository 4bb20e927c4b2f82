//! Starting the runtime on executor shards, and handing work to the shards.

use vstd::prelude::*;
use crate::index::{index_consistent, ingest_result, later, pipelines_affected, HotIndexView};
use crate::ingest::{empty_field, is_valid, PipelineEvent, PipelineEventView};
use crate::metadata::{MetadataRef, MetadataRefView};
use crate::observability::HotIndexSnapshot;
use crate::ordered::{first_n, sorted, stable_sort, views, Duplicate};
use crate::process::{PipelineId, ProcessInstanceId, ProcessInstanceSnapshot};
use crate::query::{
    EventQuery, ImpactQuery, PipelineQuery, ProcessInstanceQuery, ProcessStatusQuery, QueryResult, QueryResultView,
    TimeRangeQuery,
};
use crate::runtime::{
    shard_for_process_instance, shard_of, IngestDrainSummary, LogicalShardId, QueuedIngestOutcome, RuntimeError,
    RuntimeErrorView, ShardIngestOutcome, ShardRuntimeSnapshot, ShardSnapshot,
};
use crate::shards::{
    answers, drain_of, drained_into, found, law_drain_adds_up, sizes_of, task_done, ShardAnswer, ShardQuestion,
    ShardTask, SitasShardState,
};
use crate::sitas_runtime::{
    admission, all_events, all_instances, all_pipelines, merge_events, merge_instances, merge_pipelines,
    merge_time_range, pipeline_lists, runtime_snapshot, says_queue_full, stop_answer, sums_up, MailboxDepth,
    MailboxSend, SitasErrorView, SitasMailboxSnapshot, SitasRuntimeConfig, SitasRuntimeError,
};

verus! {

// ---------------------------------------------------------------------------
// Calls of the executor
// ---------------------------------------------------------------------------

/// The number of shards of an executor: `sitas::ShardedExecutor::shard_count`.
pub uninterp spec fn executor_shards(executor: sitas::ShardedExecutor) -> nat;

/// What the names of the threads of an executor begin with.
pub uninterp spec fn executor_prefix(executor: sitas::ShardedExecutor) -> Seq<char>;

/// The number of shards that a snapshot of an executor tells of.
pub uninterp spec fn snapshot_shards(snapshot: sitas::ShardedExecutorSnapshot) -> nat;

/// The number of values of shard-local state: `sitas::ShardLocal::shard_count`.
pub uninterp spec fn state_count(states: sitas::ShardLocal<SitasShardState>) -> nat;

/// The number of mailboxes: `sitas::ShardMailboxSet::shard_count`.
pub uninterp spec fn mailbox_count(mailboxes: sitas::ShardMailboxSet<PipelineEvent>) -> nat;

/// The room with which each mailbox was made.
pub uninterp spec fn mailbox_room(mailboxes: sitas::ShardMailboxSet<PipelineEvent>) -> nat;

/// Starts the threads of the shards: `sitas::ShardedExecutor::start_with_config`. An
/// executor that starts has the shards it was asked for, and threads whose names begin with
/// the prefix. It is asked for at least one shard, for no more than memory can number, and for
/// names that a thread can have.
#[verifier::external_body]
fn start_executor(shards: usize, prefix: &str) -> (r: Result<sitas::ShardedExecutor, String>)
    requires
        0 < shards,
        shards * 1024 <= isize::MAX,
        !prefix@.contains('\0'),
    ensures
        r matches Ok(executor) ==> executor_shards(executor) == shards && executor_prefix(executor) == prefix@,
{
    sitas::ShardedExecutor::start_with_config(
        sitas::ShardedExecutorConfig::new(shards).with_thread_name_prefix(prefix.to_string()),
    ).map_err(|error| error.to_string())
}

/// Makes one mailbox per shard: `sitas::ShardMailboxSet::new`, which refuses an executor
/// without shards and mailboxes without room, and nothing else.
#[verifier::external_body]
fn make_mailboxes(executor: &sitas::ShardedExecutor, room: usize) -> (r: Result<
    sitas::ShardMailboxSet<PipelineEvent>,
    String,
>)
    requires
        room * 1024 <= isize::MAX,
    ensures
        match r {
            Ok(mailboxes) => {
                &&& mailbox_count(mailboxes) == executor_shards(*executor)
                &&& mailbox_room(mailboxes) == room
                &&& room > 0
                &&& executor_shards(*executor) > 0
            },
            Err(_) => room == 0 || executor_shards(*executor) == 0,
        },
{
    sitas::ShardMailboxSet::new(&executor.submitter(), sitas::ShardMailboxConfig::new(room)).map_err(
        |error| error.to_string(),
    )
}

/// Takes the receiver of a mailbox: `sitas::ShardMailboxSet::receiver_for`, which gives it
/// once. Whether it has been taken is not part of what is claimed.
#[verifier::external_body]
fn receiver_of(mailboxes: &sitas::ShardMailboxSet<PipelineEvent>, shard: usize) -> (r: Result<
    sitas::ShardReceiver<PipelineEvent>,
    String,
>)
    ensures
        shard >= mailbox_count(*mailboxes) ==> r is Err,
{
    mailboxes.receiver_for(sitas::ShardId(shard)).map_err(|error| error.to_string())
}

/// Makes the state of every shard: `sitas::ShardLocal::new`, which makes one value per
/// shard of the executor.
#[verifier::external_body]
fn make_states(
    executor: &sitas::ShardedExecutor,
    receivers: Vec<Option<sitas::ShardReceiver<PipelineEvent>>>,
) -> (r: sitas::ShardLocal<SitasShardState>)
    ensures
        state_count(r) == executor_shards(*executor),
{
    let mut receivers = receivers;
    sitas::ShardLocal::new(executor.submitter(), move |shard| SitasShardState::fresh(&mut receivers, shard.0))
}

/// The number of shards with state: `sitas::ShardLocal::shard_count`.
#[verifier::external_body]
fn count_states(states: &sitas::ShardLocal<SitasShardState>) -> (r: usize)
    ensures
        r == state_count(*states),
{
    states.shard_count()
}

/// Runs a task on the thread of a shard and waits for its answer: `sitas::ShardLocal::with_on`
/// and the handle that it gives. The task runs once on the state of that shard, so that the
/// answer is that of an index that can come about; every state begins empty and only the
/// tasks and the workers change it, so the index is consistent. Which index it is depends on
/// what ran before. The number that comes with the answer is that of the shard. A task is not
/// placed, or fails, if the executor does not run.
#[verifier::external_body]
fn run_on(states: &sitas::ShardLocal<SitasShardState>, shard: usize, task: ShardTask) -> (r: Result<
    (usize, ShardAnswer),
    SitasRuntimeError,
>)
    ensures
        match r {
            Ok((on, answer)) => on == shard && shard < state_count(*states) && exists|m: HotIndexView|
                index_consistent(m) && #[trigger] task_done(m, task, answer),
            Err(e) => e@ is Spawn || e@ is Join,
        },
{
    match states.with_on(sitas::ShardId(shard), move |state| state.run(task)) {
        Ok(handle) => sitas::executor::block_on(handle.join()).map(|(on, answer)| (on.0, answer)).map_err(
            |error| SitasRuntimeError::Join(error.to_string()),
        ),
        Err(error) => Err(SitasRuntimeError::Spawn(error.to_string())),
    }
}

/// Whether answers are those of indexes to a question, one after another.
pub open spec fn all_answered(indexes: Seq<HotIndexView>, question: ShardQuestion, r: Seq<ShardAnswer>) -> bool {
    &&& indexes.len() == r.len()
    &&& forall|i: int|
        0 <= i < r.len() ==> index_consistent(#[trigger] indexes[i]) && answers(indexes[i], question, r[i])
}

/// Asks every shard and waits for all answers: `sitas::ShardLocal::map_all`. There is one
/// answer per shard, in the order of the shards, each of a consistent index (see `run_on`).
#[verifier::external_body]
fn ask_all(states: &sitas::ShardLocal<SitasShardState>, question: ShardQuestion) -> (r: Result<
    Vec<ShardAnswer>,
    SitasRuntimeError,
>)
    ensures
        match r {
            Ok(found) => found.len() == state_count(*states) && exists|indexes: Seq<HotIndexView>| #[trigger]
                all_answered(indexes, question, found@),
            Err(e) => e@ is Operation,
        },
{
    sitas::executor::block_on(states.map_all(move |_, state| state.answer(&question))).map(
        |all| all.into_iter().map(|(_, answer)| answer).collect(),
    ).map_err(|error| SitasRuntimeError::Operation(error.to_string()))
}

/// Sends an event to a mailbox if there is room: `sitas::ShardMailboxSet::sender_to` and
/// `sitas::ShardSender::try_send`. The only error is that there is no such mailbox. The number
/// in the answer is that of the mailbox, `sitas::ShardSender::target_shard`. Whether the event
/// is taken depends on what waits by then.
#[verifier::external_body]
fn try_send(mailboxes: &sitas::ShardMailboxSet<PipelineEvent>, shard: usize, event: PipelineEvent) -> (r: Result<
    (usize, MailboxSend),
    String,
>)
    ensures
        r is Ok == (shard < mailbox_count(*mailboxes)),
        r matches Ok(sent) ==> sent.0 == shard,
{
    match mailboxes.sender_to(sitas::ShardId(shard)) {
        Ok(sender) => match sender.try_send(event) {
            Ok(()) => Ok((sender.target_shard().0, MailboxSend::Sent)),
            Err(sitas::ShardSendError::Full(_)) => Ok((sender.target_shard().0, MailboxSend::Full)),
            Err(sitas::ShardSendError::Closed(_)) => Ok((sender.target_shard().0, MailboxSend::Closed)),
        },
        Err(error) => Err(error.to_string()),
    }
}

/// Sends an event to a mailbox and waits for room: `sitas::ShardMailboxSet::sender_to` and
/// `sitas::ShardSender::send`, which waits where the other says that the mailbox is full. The
/// number in the answer is that of the mailbox.
#[verifier::external_body]
fn send_waiting(mailboxes: &sitas::ShardMailboxSet<PipelineEvent>, shard: usize, event: PipelineEvent) -> (r: Result<
    (usize, MailboxSend),
    String,
>)
    ensures
        r is Ok == (shard < mailbox_count(*mailboxes)),
        r matches Ok(sent) ==> sent.0 == shard && sent.1 != MailboxSend::Full,
{
    match mailboxes.sender_to(sitas::ShardId(shard)) {
        Ok(sender) => match sitas::executor::block_on(sender.send(event)) {
            Ok(()) => Ok((sender.target_shard().0, MailboxSend::Sent)),
            Err(sitas::ShardSendError::Full(_)) => Ok((sender.target_shard().0, MailboxSend::Full)),
            Err(sitas::ShardSendError::Closed(_)) => Ok((sender.target_shard().0, MailboxSend::Closed)),
        },
        Err(error) => Err(error.to_string()),
    }
}

/// What is known of a mailbox: `sitas::ShardMailboxSet::snapshot`. The only error is that
/// there is no such mailbox; no more events wait than there is room for.
#[verifier::external_body]
fn mailbox_snapshot(mailboxes: &sitas::ShardMailboxSet<PipelineEvent>, shard: usize) -> (r: Result<
    SitasMailboxSnapshot,
    String,
>)
    ensures
        r is Ok == (shard < mailbox_count(*mailboxes)),
        r matches Ok(s) ==> s.shard_id@ == shard && s.capacity == mailbox_room(*mailboxes) && s.len <= s.capacity,
{
    mailboxes.snapshot(sitas::ShardId(shard)).map(
        |s| SitasMailboxSnapshot {
            shard_id: LogicalShardId(s.shard_id.0),
            capacity: s.capacity,
            len: s.len,
            sender_count: s.sender_count,
            receiver_taken: s.receiver_taken,
            receiver_closed: s.receiver_closed,
            sent: s.sent,
            received: s.received,
            full_rejections: s.full_rejections,
            closed_rejections: s.closed_rejections,
            send_waiter_count: s.send_waiter_count }
    ).map_err(|error| error.to_string())
}

/// What is known of the threads of the shards: `sitas::ShardedExecutor::snapshot`, which tells
/// of every shard of the executor. What it tells of each thread depends on what runs by then.
#[verifier::external_body]
fn executor_snapshot(executor: &sitas::ShardedExecutor) -> (r: sitas::ShardedExecutorSnapshot)
    ensures
        snapshot_shards(r) == executor_shards(*executor),
{
    executor.snapshot()
}

/// Stops the threads of the shards and waits for them: `sitas::ShardedExecutor::stop`, once
/// the state and the mailboxes, through which work can still be handed in, are gone. Its only
/// error is that a thread could not be joined, `sitas::ShardError::ThreadJoinFailed`, given
/// here as its text. Whether that happens depends on how the threads ended, of which nothing
/// is claimed.
#[verifier::external_body]
fn stop_executor(
    states: sitas::ShardLocal<SitasShardState>,
    mailboxes: sitas::ShardMailboxSet<PipelineEvent>,
    executor: sitas::ShardedExecutor,
) -> (r: Result<(), String>)
    ensures
        r matches Err(text) ==> text@ == "failed to join shard thread"@,
{
    drop(states);
    drop(mailboxes);
    executor.stop().map_err(|error| error.to_string())
}

// ---------------------------------------------------------------------------
// The runtime
// ---------------------------------------------------------------------------

/// The runtime on executor shards.
pub struct SitasShardRuntime {
    states: sitas::ShardLocal<SitasShardState>,
    mailboxes: sitas::ShardMailboxSet<PipelineEvent>,
    executor: sitas::ShardedExecutor,
}

/// The view of a runtime: the number of its shards, the room in each mailbox, and what the
/// names of its threads begin with.
pub struct SitasRuntimeView {
    pub shard_count: nat,
    pub mailbox_capacity: nat,
    pub thread_name_prefix: Seq<char>,
}

impl View for SitasShardRuntime {
    type V = SitasRuntimeView;

    closed spec fn view(&self) -> SitasRuntimeView {
        SitasRuntimeView {
            shard_count: state_count(self.states),
            mailbox_capacity: mailbox_room(self.mailboxes),
            thread_name_prefix: executor_prefix(self.executor),
        }
    }
}

impl SitasShardRuntime {
    /// There is a shard, and a mailbox for each shard.
    #[verifier::type_invariant]
    spec fn well_formed(&self) -> bool {
        &&& 0 < state_count(self.states) <= usize::MAX
        &&& mailbox_count(self.mailboxes) == state_count(self.states)
        &&& executor_shards(self.executor) == state_count(self.states)
    }

    /// Starts the threads, with an empty index and an empty mailbox for each shard.
    pub fn start(config: SitasRuntimeConfig) -> (r: Result<Self, SitasRuntimeError>)
        requires
            config@.shard_count * 1024 <= isize::MAX,
            config@.mailbox_capacity_per_shard * 1024 <= isize::MAX,
            !config@.thread_name_prefix.contains('\0'),
        ensures
            match r {
                Ok(runtime) => {
                    &&& config@.shard_count > 0
                    &&& config@.mailbox_capacity_per_shard > 0
                    &&& runtime@.shard_count == config@.shard_count
                    &&& runtime@.mailbox_capacity == config@.mailbox_capacity_per_shard
                    &&& runtime@.thread_name_prefix == config@.thread_name_prefix
                },
                Err(e) => if config@.shard_count == 0 {
                    e@ == SitasErrorView::Runtime(RuntimeErrorView::NoShards)
                } else if config@.mailbox_capacity_per_shard == 0 {
                    e@ == SitasErrorView::Runtime(RuntimeErrorView::QueueCapacityZero)
                } else {
                    e@ is Start || e@ is AddressMailbox
                },
            },
    {
        match config.validate() {
            Ok(()) => {},
            Err(error) => {
                return Err(error);
            },
        }
        let executor = match start_executor(config.shard_count(), config.thread_name_prefix()) {
            Ok(executor) => executor,
            Err(text) => {
                return Err(SitasRuntimeError::Start(text));
            },
        };
        let mailboxes = match make_mailboxes(&executor, config.mailbox_capacity_per_shard()) {
            Ok(mailboxes) => mailboxes,
            Err(text) => {
                return Err(SitasRuntimeError::CreateMailbox(text));
            },
        };
        let shards: usize = config.shard_count();
        let mut receivers: Vec<Option<sitas::ShardReceiver<PipelineEvent>>> = Vec::new();
        let mut shard: usize = 0;
        while shard < shards
            invariant
                shard <= shards,
                receivers.len() == shard,
                shards == config@.shard_count,
                shards > 0,
                config@.mailbox_capacity_per_shard > 0,
            decreases shards - shard,
        {
            match receiver_of(&mailboxes, shard) {
                Ok(receiver) => {
                    receivers.push(Some(receiver));
                },
                Err(text) => {
                    return Err(SitasRuntimeError::AddressMailbox(text));
                },
            }
            shard += 1;
        }
        let states = make_states(&executor, receivers);
        Ok(SitasShardRuntime { states, mailboxes, executor })
    }

    /// The number of shards.
    pub fn shard_count(&self) -> (r: usize)
        ensures
            r == self@.shard_count,
            r > 0,
    {
        proof {
            use_type_invariant(self);
        }
        count_states(&self.states)
    }

    /// The state of the shards, for the workers that feed the indexes from the mailboxes.
    pub fn shard_states(&self) -> (r: &sitas::ShardLocal<SitasShardState>)
        ensures
            state_count(*r) == self@.shard_count,
    {
        &self.states
    }

    /// The shard that owns a process instance.
    pub fn shard_for_process_instance(&self, process_instance_id: &ProcessInstanceId) -> (r: LogicalShardId)
        ensures
            r@ == shard_of(process_instance_id@, self@.shard_count),
            r@ < self@.shard_count,
    {
        shard_for_process_instance(process_instance_id, self.shard_count())
    }

    /// What is handed over for an event: the shard that owns it, and the event.
    pub fn addressed(&self, event: PipelineEvent) -> (r: (LogicalShardId, PipelineEvent))
        ensures
            r.0@ == shard_of(event@.process_instance_id, self@.shard_count),
            r.0@ < self@.shard_count,
            r.1 == event,
    {
        let shard_id = self.shard_for_process_instance(event.process_instance_id());
        (shard_id, event)
    }

    /// Hands an event to the shard that owns it, and waits until its index has taken it in.
    pub fn ingest(&self, event: PipelineEvent) -> (r: Result<ShardIngestOutcome, SitasRuntimeError>)
        ensures
            match r {
                Ok(done) => {
                    &&& done.shard_id@ == shard_of(event@.process_instance_id, self@.shard_count)
                    &&& is_valid(event@)
                    &&& exists|m: HotIndexView|
                        index_consistent(m) && #[trigger] ingest_result(m, event@, Ok(done.outcome))
                },
                Err(SitasRuntimeError::Ingest(error)) => empty_field(event@) == Some(error->field@),
                Err(e) => e@ is Spawn || e@ is Join,
            },
    {
        let (shard_id, event) = self.addressed(event);
        match run_on(&self.states, shard_id.0, ShardTask::Ingest(event)) {
            Ok((on, answer)) => match answer {
                ShardAnswer::Ingested(Ok(outcome)) => Ok(ShardIngestOutcome { shard_id: LogicalShardId(on), outcome }),
                ShardAnswer::Ingested(Err(error)) => Err(SitasRuntimeError::Ingest(error)),
                _ => Err(SitasRuntimeError::Stopped),
            },
            Err(error) => Err(error),
        }
    }

    /// Puts an event into the mailbox of the shard that owns it, if there is room.
    pub fn try_submit(&self, event: PipelineEvent) -> (r: Result<QueuedIngestOutcome, SitasRuntimeError>)
        ensures
            submitted(self@, event@, r),
    {
        match event.validate() {
            Ok(()) => {},
            Err(error) => {
                return Err(SitasRuntimeError::Ingest(error));
            },
        }
        let (shard_id, event) = self.addressed(event);
        proof {
            use_type_invariant(self);
        }
        match try_send(&self.mailboxes, shard_id.0, event) {
            Ok((on, send)) => self.admitted(LogicalShardId(on), send),
            Err(text) => Err(SitasRuntimeError::AddressMailbox(text)),
        }
    }

    /// Puts an event into the mailbox of the shard that owns it, and waits for room.
    pub fn submit(&self, event: PipelineEvent) -> (r: Result<QueuedIngestOutcome, SitasRuntimeError>)
        ensures
            submitted(self@, event@, r),
            r matches Err(e) ==> !says_queue_full(e@),
    {
        match event.validate() {
            Ok(()) => {},
            Err(error) => {
                return Err(SitasRuntimeError::Ingest(error));
            },
        }
        let (shard_id, event) = self.addressed(event);
        proof {
            use_type_invariant(self);
        }
        match send_waiting(&self.mailboxes, shard_id.0, event) {
            Ok((on, send)) => self.admitted(LogicalShardId(on), send),
            Err(text) => Err(SitasRuntimeError::AddressMailbox(text)),
        }
    }

    fn admitted(&self, shard_id: LogicalShardId, send: MailboxSend) -> (r: Result<
        QueuedIngestOutcome,
        SitasRuntimeError,
    >)
        requires
            shard_id@ < self@.shard_count,
        ensures
            match (send, r) {
                (MailboxSend::Sent, Ok(x)) => {
                    &&& x.shard_id == shard_id
                    &&& x.capacity == self@.mailbox_capacity
                    &&& x.queued_depth <= x.capacity
                },
                (MailboxSend::Full, Err(e)) => e@ is Runtime && (e@->Runtime_0 matches RuntimeErrorView::QueueFull(
                    shard,
                    capacity,
                ) && shard == shard_id@ && capacity == self@.mailbox_capacity),
                (MailboxSend::Closed, Err(e)) => e@ == SitasErrorView::MailboxClosed(shard_id@),
                _ => false,
            },
    {
        proof {
            use_type_invariant(self);
        }
        match mailbox_snapshot(&self.mailboxes, shard_id.0) {
            Ok(snapshot) => admission(
                shard_id,
                send,
                MailboxDepth { len: snapshot.len, capacity: snapshot.capacity },
            ),
            Err(text) => Err(SitasRuntimeError::AddressMailbox(text)),
        }
    }

    /// Drains a mailbox into the index of its shard, up to so many events.
    pub fn drain_shard(&self, shard_id: LogicalShardId, max_events: usize) -> (r: Result<
        IngestDrainSummary,
        SitasRuntimeError,
    >)
        ensures
            shard_id@ >= self@.shard_count ==> r is Err,
            match r {
                Ok(summary) => summary.shard_id == shard_id && shard_drained(self@, shard_id, max_events, summary),
                Err(e) => if shard_id@ >= self@.shard_count {
                    e@ == SitasErrorView::Runtime(RuntimeErrorView::InvalidShard(shard_id@))
                } else {
                    e@ == SitasErrorView::WorkersRunning || e@ is Spawn || e@ is Join
                },
            },
    {
        if shard_id.0 >= self.shard_count() {
            return Err(SitasRuntimeError::Runtime(RuntimeError::InvalidShard { shard_id }));
        }
        proof {
            use_type_invariant(self);
        }
        match run_on(&self.states, shard_id.0, ShardTask::Drain(shard_id, max_events)) {
            Ok((on, answer)) => match answer {
                ShardAnswer::Drained(Ok(drained)) => match mailbox_snapshot(&self.mailboxes, on) {
                    Ok(snapshot) => {
                        let summary = IngestDrainSummary {
                            shard_id: LogicalShardId(on),
                            remaining_depth: snapshot.len,
                            ..drained
                        };
                        proof {
                            let m = choose|m: HotIndexView|
                                index_consistent(m) && #[trigger] task_done(
                                    m,
                                    ShardTask::Drain(shard_id, max_events),
                                    answer,
                                );
                            let n = choose|n: HotIndexView| #[trigger]
                                drained_into(m, n, shard_id, max_events, drained);
                            assert(drained.remaining_depth == 0 && drained.shard_id == shard_id) by {
                                let events = choose|events: Seq<PipelineEventView>|
                                    events.len() <= max_events && drained == #[trigger] drain_of(shard_id, m, events);
                                law_drain_adds_up(shard_id, m, events);
                            }
                            assert(IngestDrainSummary { remaining_depth: 0, ..summary } == drained);
                        }
                        Ok(summary)
                    },
                    Err(text) => Err(SitasRuntimeError::AddressMailbox(text)),
                },
                ShardAnswer::Drained(Err(error)) => Err(error),
                _ => Err(SitasRuntimeError::Stopped),
            },
            Err(error) => Err(error),
        }
    }

    /// Drains all mailboxes, each up to so many events.
    pub fn drain_all(&self, max_events_per_shard: usize) -> (r: Result<Vec<IngestDrainSummary>, SitasRuntimeError>)
        ensures
            match r {
                Ok(all) => {
                    &&& all.len() == self@.shard_count
                    &&& forall|i: int|
                        0 <= i < all.len() ==> #[trigger] shard_drained(
                            self@,
                            LogicalShardId(i as usize),
                            max_events_per_shard,
                            all@[i],
                        )
                },
                Err(e) => e@ == SitasErrorView::WorkersRunning || e@ is Spawn || e@ is Join,
            },
    {
        let shards: usize = self.shard_count();
        let mut all: Vec<IngestDrainSummary> = Vec::new();
        let mut i: usize = 0;
        while i < shards
            invariant
                i <= shards,
                shards == self@.shard_count,
                all.len() == i,
                forall|j: int|
                    0 <= j < i ==> #[trigger] shard_drained(
                        self@,
                        LogicalShardId(j as usize),
                        max_events_per_shard,
                        all@[j],
                    ),
            decreases shards - i,
        {
            match self.drain_shard(LogicalShardId(i), max_events_per_shard) {
                Ok(summary) => {
                    all.push(summary);
                },
                Err(error) => {
                    return Err(error);
                },
            }
            i += 1;
        }
        Ok(all)
    }

    /// Asks the shard that owns a process instance; the answer comes with the shard.
    pub fn ask_owner(&self, process_instance_id: &ProcessInstanceId, question: ShardQuestion) -> (r: Result<
        (LogicalShardId, ShardAnswer),
        SitasRuntimeError,
    >)
        ensures
            match r {
                Ok((shard_id, answer)) => {
                    &&& shard_id@ == shard_of(process_instance_id@, self@.shard_count)
                    &&& exists|m: HotIndexView| index_consistent(m) && #[trigger] answers(m, question, answer)
                },
                Err(e) => e@ is Spawn || e@ is Join,
            },
    {
        let owner = self.shard_for_process_instance(process_instance_id);
        match run_on(&self.states, owner.0, ShardTask::Answer(question)) {
            Ok((on, answer)) => {
                proof {
                    let m = choose|m: HotIndexView|
                        index_consistent(m) && #[trigger] task_done(m, ShardTask::Answer(question), answer);
                    assert(answers(m, question, answer));
                }
                Ok((LogicalShardId(on), answer))
            },
            Err(error) => Err(error),
        }
    }

    /// Asks the owning shard for a process instance.
    pub fn process_instance(&self, query: &ProcessInstanceQuery) -> (r: Result<
        Option<ProcessInstanceSnapshot>,
        SitasRuntimeError,
    >)
        ensures
            match r {
                Ok(found) => exists|m: HotIndexView|
                    index_consistent(m) && #[trigger] answers(
                        m,
                        ShardQuestion::Instance(*query),
                        ShardAnswer::Instance(found),
                    ),
                Err(e) => e@ is Spawn || e@ is Join,
            },
    {
        let question = ShardQuestion::Instance(
            ProcessInstanceQuery { process_instance_id: query.process_instance_id.clone() },
        );
        match self.ask_owner(&query.process_instance_id, question) {
            Ok((_, answer)) => match answer {
                ShardAnswer::Instance(found) => Ok(found),
                _ => Err(SitasRuntimeError::Stopped),
            },
            Err(error) => Err(error),
        }
    }

    /// Asks the owning shard for the events of a process instance.
    pub fn events(&self, query: &EventQuery) -> (r: Result<QueryResult, SitasRuntimeError>)
        ensures
            match r {
                Ok(result) => exists|m: HotIndexView|
                    index_consistent(m) && result@ == #[trigger] found(m, ShardQuestion::Events(*query)),
                Err(e) => e@ is Spawn || e@ is Join,
            },
    {
        let question = ShardQuestion::Events(
            EventQuery { process_instance_id: query.process_instance_id.clone(), limit: query.limit },
        );
        match self.ask_owner(&query.process_instance_id, question) {
            Ok((_, answer)) => {
                proof {
                    let m = choose|m: HotIndexView|
                        index_consistent(m) && #[trigger] answers(m, ShardQuestion::Events(*query), answer);
                    assert(answer is Found ==> answer->Found_0@ == found(m, ShardQuestion::Events(*query)));
                }
                match answer {
                    ShardAnswer::Found(result) => Ok(result),
                    _ => Err(SitasRuntimeError::Stopped),
                }
            },
            Err(error) => Err(error),
        }
    }

    /// Asks all shards for a list.
    fn found_on_all(&self, question: ShardQuestion) -> (r: Result<Vec<QueryResult>, SitasRuntimeError>)
        requires
            asks_for_a_list(question),
        ensures
            match r {
                Ok(results) => {
                    &&& results.len() == self@.shard_count
                    &&& exists|indexes: Seq<HotIndexView>|
                        all_consistent(indexes) && views(results@) == #[trigger] found_in(indexes, question)
                },
                Err(e) => e@ is Operation,
            },
    {
        let mut rest = match ask_all(&self.states, question) {
            Ok(all) => all,
            Err(error) => {
                return Err(error);
            },
        };
        let ghost all = rest@;
        let ghost indexes = choose|indexes: Seq<HotIndexView>| #[trigger] all_answered(indexes, question, all);
        let ghost wanted = found_in(indexes, question);
        let mut results: Vec<QueryResult> = Vec::new();
        while rest.len() > 0
            invariant
                asks_for_a_list(question),
                all_answered(indexes, question, all),
                wanted == found_in(indexes, question),
                results.len() + rest.len() == all.len(),
                rest@ == all.skip(results.len() as int),
                views(results@) == wanted.take(results.len() as int),
            decreases rest.len(),
        {
            let ghost at = results.len() as int;
            let answer = rest.remove(0);
            assert(answers(indexes[at], question, all[at]));
            if let ShardAnswer::Found(result) = answer {
                results.push(result);
                assert(views(results@) =~= wanted.take(at + 1));
            }
        }
        assert(wanted.take(all.len() as int) =~= wanted);
        Ok(results)
    }

    /// Asks all shards for the instances of a pipeline.
    pub fn pipeline_instances(&self, query: &PipelineQuery) -> (r: Result<QueryResult, SitasRuntimeError>)
        ensures
            match r {
                Ok(result) => exists|indexes: Seq<HotIndexView>|
                    {
                        &&& indexes.len() == self@.shard_count
                        &&& all_consistent(indexes)
                        &&& result@ == QueryResultView::ProcessInstances(
                            first_n(
                                all_instances(#[trigger] found_in(indexes, ShardQuestion::Pipeline(*query))),
                                query.limit@,
                            ),
                        )
                    },
                Err(e) => e@ is Operation,
            },
    {
        let question = ShardQuestion::Pipeline(
            PipelineQuery { pipeline_id: query.pipeline_id.clone(), limit: query.limit },
        );
        match self.found_on_all(question) {
            Ok(results) => Ok(merge_instances(&results, query.limit)),
            Err(error) => Err(error),
        }
    }

    /// Asks all shards for the events that refer to a metadata object.
    pub fn impact(&self, query: &ImpactQuery) -> (r: Result<QueryResult, SitasRuntimeError>)
        ensures
            match r {
                Ok(result) => exists|indexes: Seq<HotIndexView>|
                    {
                        &&& indexes.len() == self@.shard_count
                        &&& all_consistent(indexes)
                        &&& result@ == QueryResultView::Events(
                            first_n(
                                all_events(#[trigger] found_in(indexes, ShardQuestion::Impact(*query))),
                                query.limit@,
                            ),
                        )
                    },
                Err(e) => e@ is Operation,
            },
    {
        let question = ShardQuestion::Impact(
            ImpactQuery { metadata_ref: query.metadata_ref.duplicate(), limit: query.limit },
        );
        match self.found_on_all(question) {
            Ok(results) => {
                proof {
                    let indexes = choose|indexes: Seq<HotIndexView>|
                        all_consistent(indexes) && views(results@) == #[trigger] found_in(indexes, question);
                    assert(found_in(indexes, question) =~= found_in(indexes, ShardQuestion::Impact(*query)));
                }
                Ok(merge_events(&results, query.limit))
            },
            Err(error) => Err(error),
        }
    }

    /// Asks all shards for the instances with a status.
    pub fn process_instances_by_status(&self, query: &ProcessStatusQuery) -> (r: Result<
        QueryResult,
        SitasRuntimeError,
    >)
        ensures
            match r {
                Ok(result) => exists|indexes: Seq<HotIndexView>|
                    {
                        &&& indexes.len() == self@.shard_count
                        &&& all_consistent(indexes)
                        &&& result@ == QueryResultView::ProcessInstances(
                            first_n(
                                all_instances(#[trigger] found_in(indexes, ShardQuestion::Status(*query))),
                                query.limit@,
                            ),
                        )
                    },
                Err(e) => e@ is Operation,
            },
    {
        match self.found_on_all(ShardQuestion::Status(*query)) {
            Ok(results) => Ok(merge_instances(&results, query.limit)),
            Err(error) => Err(error),
        }
    }

    /// Asks all shards for the events between two instants.
    pub fn events_in_time_range(&self, query: &TimeRangeQuery) -> (r: Result<QueryResult, SitasRuntimeError>)
        ensures
            match r {
                Ok(result) => exists|indexes: Seq<HotIndexView>|
                    {
                        &&& indexes.len() == self@.shard_count
                        &&& all_consistent(indexes)
                        &&& result@ == QueryResultView::Events(
                            first_n(
                                stable_sort(
                                    all_events(#[trigger] found_in(indexes, ShardQuestion::TimeRange(*query))),
                                    later(),
                                ),
                                query.limit@,
                            ),
                        )
                    },
                Err(e) => e@ is Operation,
            },
    {
        let start = match &query.start {
            Some(start) => Some(start.clone()),
            None => None,
        };
        let end = match &query.end {
            Some(end) => Some(end.clone()),
            None => None,
        };
        match self.found_on_all(ShardQuestion::TimeRange(TimeRangeQuery { start, end, limit: query.limit })) {
            Ok(results) => Ok(merge_time_range(&results, query.limit)),
            Err(error) => Err(error),
        }
    }

    /// Asks all shards for the pipelines that a metadata object touches.
    pub fn affected_pipelines(&self, metadata_ref: &MetadataRef) -> (r: Result<Vec<PipelineId>, SitasRuntimeError>)
        ensures
            match r {
                Ok(pipelines) => exists|indexes: Seq<HotIndexView>|
                    {
                        &&& indexes.len() == self@.shard_count
                        &&& all_consistent(indexes)
                        &&& views(pipelines@) == sorted::<PipelineId>(
                            all_pipelines(#[trigger] pipelines_in(indexes, metadata_ref@)),
                        )
                    },
                Err(e) => e@ is Operation,
            },
    {
        let question = ShardQuestion::Pipelines(metadata_ref.duplicate());
        let mut rest = match ask_all(&self.states, question) {
            Ok(all) => all,
            Err(error) => {
                return Err(error);
            },
        };
        let ghost all = rest@;
        let ghost indexes = choose|indexes: Seq<HotIndexView>| #[trigger] all_answered(indexes, question, all);
        let ghost wanted = pipelines_in(indexes, metadata_ref@);
        let mut lists: Vec<Vec<PipelineId>> = Vec::new();
        while rest.len() > 0
            invariant
                question matches ShardQuestion::Pipelines(asked) && asked@ == metadata_ref@,
                all_answered(indexes, question, all),
                wanted == pipelines_in(indexes, metadata_ref@),
                lists.len() + rest.len() == all.len(),
                rest@ == all.skip(lists.len() as int),
                pipeline_lists(lists@) == wanted.take(lists.len() as int),
            decreases rest.len(),
        {
            let ghost at = lists.len() as int;
            let answer = rest.remove(0);
            assert(answers(indexes[at], question, all[at]));
            if let ShardAnswer::Pipelines(list) = answer {
                lists.push(list);
                assert(pipeline_lists(lists@) =~= wanted.take(at + 1));
            }
        }
        assert(wanted.take(all.len() as int) =~= wanted);
        Ok(merge_pipelines(&lists))
    }

    /// Snapshot of the executor, the indexes and the mailboxes.
    pub fn snapshot(&self) -> (r: Result<SitasRuntimeSnapshot, SitasRuntimeError>)
        ensures
            match r {
                Ok(s) => {
                    &&& snapshot_shards(s.executor) == self@.shard_count
                    &&& s.runtime.shards.len() == self@.shard_count
                    &&& forall|i: int|
                        0 <= i < self@.shard_count ==> (#[trigger] s.runtime.shards@[i]).shard_id@ == i
                    &&& exists|indexes: Seq<HotIndexView>|
                        all_consistent(indexes) && #[trigger] all_sized(indexes, s.runtime.shards@)
                    &&& sums_up(s.runtime.totals, shard_sizes(s.runtime.shards@))
                    &&& s.mailboxes.len() == self@.shard_count
                    &&& forall|i: int|
                        0 <= i < self@.shard_count ==> {
                            &&& (#[trigger] s.mailboxes@[i]).shard_id@ == i
                            &&& s.mailboxes@[i].capacity == self@.mailbox_capacity
                            &&& s.mailboxes@[i].len <= s.mailboxes@[i].capacity
                        }
                },
                Err(e) => e@ is Operation,
            },
    {
        proof {
            use_type_invariant(self);
        }
        let executor = executor_snapshot(&self.executor);
        let shards: usize = self.shard_count();
        let mut mailboxes: Vec<SitasMailboxSnapshot> = Vec::new();
        let mut i: usize = 0;
        while i < shards
            invariant
                i <= shards,
                shards == self@.shard_count,
                shards == mailbox_count(self.mailboxes),
                mailboxes.len() == i,
                forall|j: int|
                    0 <= j < i ==> {
                        &&& (#[trigger] mailboxes@[j]).shard_id@ == j
                        &&& mailboxes@[j].capacity == self@.mailbox_capacity
                        &&& mailboxes@[j].len <= mailboxes@[j].capacity
                    },
            decreases shards - i,
        {
            match mailbox_snapshot(&self.mailboxes, i) {
                Ok(snapshot) => {
                    mailboxes.push(snapshot);
                },
                Err(text) => {
                    return Err(SitasRuntimeError::AddressMailbox(text));
                },
            }
            i += 1;
        }
        let mut rest = match ask_all(&self.states, ShardQuestion::Sizes) {
            Ok(all) => all,
            Err(error) => {
                return Err(error);
            },
        };
        let ghost all = rest@;
        let ghost indexes = choose|indexes: Seq<HotIndexView>| #[trigger]
            all_answered(indexes, ShardQuestion::Sizes, all);
        let mut sizes: Vec<HotIndexSnapshot> = Vec::new();
        while rest.len() > 0
            invariant
                all_answered(indexes, ShardQuestion::Sizes, all),
                sizes.len() + rest.len() == all.len(),
                rest@ == all.skip(sizes.len() as int),
                forall|j: int| 0 <= j < sizes.len() ==> sizes_of(#[trigger] sizes@[j], indexes[j]),
            decreases rest.len(),
        {
            let ghost at = sizes.len() as int;
            let answer = rest.remove(0);
            assert(answers(indexes[at], ShardQuestion::Sizes, all[at]));
            if let ShardAnswer::Sizes(snapshot) = answer {
                sizes.push(snapshot);
            }
        }
        let runtime = runtime_snapshot(&sizes);
        proof {
            assert(sizes@.len() == self@.shard_count);
            assert(shard_sizes(runtime.shards@) =~= sizes@);
            assert(all_consistent(indexes)) by {
                assert forall|i: int| 0 <= i < indexes.len() implies index_consistent(#[trigger] indexes[i]) by {}
            }
            assert(all_sized(indexes, runtime.shards@)) by {
                assert forall|i: int| 0 <= i < runtime.shards.len() implies sizes_of(
                    (#[trigger] runtime.shards@[i]).hot_index,
                    indexes[i],
                ) by {
                    assert(sizes_of(sizes@[i], indexes[i]));
                }
            }
            assert(sums_up(runtime.totals, shard_sizes(runtime.shards@)));
        }
        Ok(SitasRuntimeSnapshot { executor, runtime, mailboxes })
    }

    /// Stops the threads of the shards and waits for them; all goes well unless one of them
    /// cannot be joined.
    pub fn stop(self) -> (r: Result<(), SitasRuntimeError>)
        ensures
            r matches Err(e) ==> e@ == SitasErrorView::Start("failed to join shard thread"@),
    {
        stop_answer(stop_executor(self.states, self.mailboxes, self.executor))
    }
}

/// Snapshot of the runtime on executor shards.
#[derive(Debug)]
pub struct SitasRuntimeSnapshot {
    pub executor: sitas::ShardedExecutorSnapshot,
    pub runtime: ShardRuntimeSnapshot,
    pub mailboxes: Vec<SitasMailboxSnapshot>,
}

/// The sizes of the indexes of shards.
pub open spec fn shard_sizes(shards: Seq<ShardSnapshot>) -> Seq<HotIndexSnapshot> {
    Seq::new(shards.len(), |i: int| shards[i].hot_index)
}

/// Whether snapshots of shards hold the sizes of indexes.
pub open spec fn all_sized(indexes: Seq<HotIndexView>, shards: Seq<ShardSnapshot>) -> bool {
    &&& indexes.len() == shards.len()
    &&& forall|i: int| 0 <= i < shards.len() ==> sizes_of((#[trigger] shards[i]).hot_index, indexes[i])
}

/// The pipelines that a metadata object touches in indexes, one list after another.
pub open spec fn pipelines_in(indexes: Seq<HotIndexView>, metadata_ref: MetadataRefView) -> Seq<Seq<Seq<char>>> {
    Seq::new(indexes.len(), |i: int| sorted::<PipelineId>(pipelines_affected(indexes[i], metadata_ref)))
}

/// What the sender of an event can be answered: an event that is not valid is refused, and
/// one that is goes to the mailbox of the shard that owns it, which may be full or closed.
pub open spec fn submitted(
    v: SitasRuntimeView,
    event: PipelineEventView,
    r: Result<QueuedIngestOutcome, SitasRuntimeError>,
) -> bool {
    let shard = shard_of(event.process_instance_id, v.shard_count);
    match r {
        Ok(x) => {
            &&& is_valid(event)
            &&& x.shard_id@ == shard
            &&& x.capacity == v.mailbox_capacity
            &&& x.queued_depth <= x.capacity
        },
        Err(e) => match e@ {
            SitasErrorView::Ingest(field) => empty_field(event) == Some(field),
            SitasErrorView::Runtime(RuntimeErrorView::QueueFull(full, capacity)) => is_valid(event) && full == shard
                && capacity == v.mailbox_capacity,
            SitasErrorView::MailboxClosed(closed) => is_valid(event) && closed == shard,
            _ => false,
        },
    }
}

/// Whether a question asks for a list.
pub open spec fn asks_for_a_list(question: ShardQuestion) -> bool {
    question !is Instance && question !is Pipelines && question !is Sizes
}

/// What indexes hold of what a question for a list asks, one after another.
pub open spec fn found_in(indexes: Seq<HotIndexView>, question: ShardQuestion) -> Seq<QueryResultView> {
    Seq::new(indexes.len(), |i: int| found(indexes[i], question))
}

/// Whether indexes are consistent.
pub open spec fn all_consistent(indexes: Seq<HotIndexView>) -> bool {
    forall|i: int| 0 <= i < indexes.len() ==> index_consistent(#[trigger] indexes[i])
}

/// Whether a summary tells of a drain of the mailbox of a shard, at most so many events,
/// into a consistent index; what is left fits into the mailbox.
pub open spec fn shard_drained(
    v: SitasRuntimeView,
    shard_id: LogicalShardId,
    max_events: usize,
    summary: IngestDrainSummary,
) -> bool {
    &&& summary.remaining_depth <= v.mailbox_capacity
    &&& exists|m: HotIndexView, n: HotIndexView|
        index_consistent(m) && #[trigger] drained_into(
            m,
            n,
            shard_id,
            max_events,
            IngestDrainSummary { remaining_depth: 0, ..summary },
        )
}

/// An event is refused for its own sake only if a field is missing, and what is said of a
/// shard is said of the one that owns its process instance, with the room of its mailbox.
pub proof fn law_answers_name_the_owner(
    v: SitasRuntimeView,
    event: PipelineEventView,
    r: Result<QueuedIngestOutcome, SitasRuntimeError>,
)
    requires
        submitted(v, event, r),
    ensures
        ({
            let shard = shard_of(event.process_instance_id, v.shard_count);
            &&& empty_field(event) matches Some(field) ==> (r matches Err(e) && e@ == SitasErrorView::Ingest(field))
            &&& empty_field(event) is None ==> !(r matches Err(e) && e@ is Ingest)
            &&& r matches Ok(x) ==> x.shard_id.0 == shard && x.capacity == v.mailbox_capacity && x.queued_depth
                <= v.mailbox_capacity
            &&& r matches Err(e) ==> {
                ||| e@ is Ingest
                ||| e@ == SitasErrorView::Runtime(
                    RuntimeErrorView::QueueFull(shard as usize, v.mailbox_capacity as usize),
                )
                ||| e@ == SitasErrorView::MailboxClosed(shard as usize)
            }
        }),
{
}

} // verus!
