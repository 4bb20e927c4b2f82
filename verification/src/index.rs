//! The hot index: recent process events and the state they add up to.

use vstd::prelude::*;
use crate::ingest::{empty_field, is_valid, EventId, EventTimestamp, IngestError, PipelineEvent, PipelineEventView};
use crate::metadata::{MetadataRef, MetadataRefView};
use crate::observability::HotIndexSnapshot;
use crate::ordered::{
    append_to, appended, first_n, insert_sorted, is_listed, lemma_appended_lists, lemma_insert_sorted_at,
    lemma_listing_exists, lemma_listing_len, lemma_looked_up_contains, lemma_selected_contains, lemma_selected_prefix,
    look_up, looked_up, rank_str, selected, sorted, stable_sort, text_before, views, Duplicate, List, Rank, SortedMap,
    SortedSet,
};
use crate::process::{
    fresh, reduced, PipelineId, ProcessInstanceId, ProcessInstanceSnapshot, ProcessInstanceState, ProcessStatus,
    ProcessView,
};
use crate::query::{
    EventQuery, ImpactQuery, PipelineQuery, ProcessInstanceQuery, ProcessStatusQuery, QueryResult, QueryResultView,
    TimeRangeQuery,
};
use crate::text::str_eq;

verus! {

/// Single-node hot index.
///
/// It is not concurrent: there is one inside the state of each owning shard.
#[derive(Debug)]
pub struct HotIndex {
    process_instances: SortedMap<ProcessInstanceId, ProcessInstanceState>,
    events_by_id: SortedMap<EventId, PipelineEvent>,
    events_by_process: SortedMap<ProcessInstanceId, List<EventId>>,
    events_by_pipeline: SortedMap<PipelineId, List<EventId>>,
    events_by_metadata_ref: SortedMap<MetadataRef, List<EventId>>,
    duplicate_events: u64,
    rejected_events: u64,
}

/// The view of a hot index.
pub struct HotIndexView {
    pub processes: Map<Seq<char>, ProcessView>,
    pub events: Map<Seq<char>, PipelineEventView>,
    pub by_process: Map<Seq<char>, Seq<Seq<char>>>,
    pub by_pipeline: Map<Seq<char>, Seq<Seq<char>>>,
    pub by_ref: Map<MetadataRefView, Seq<Seq<char>>>,
    pub duplicate_events: u64,
    pub rejected_events: u64,
}

impl View for HotIndex {
    type V = HotIndexView;

    closed spec fn view(&self) -> HotIndexView {
        HotIndexView {
            processes: self.process_instances@,
            events: self.events_by_id@,
            by_process: self.events_by_process@,
            by_pipeline: self.events_by_pipeline@,
            by_ref: self.events_by_metadata_ref@,
            duplicate_events: self.duplicate_events,
            rejected_events: self.rejected_events,
        }
    }
}

/// An index without events.
pub open spec fn empty_index() -> HotIndexView {
    HotIndexView {
        processes: Map::empty(),
        events: Map::empty(),
        by_process: Map::empty(),
        by_pipeline: Map::empty(),
        by_ref: Map::empty(),
        duplicate_events: 0,
        rejected_events: 0,
    }
}

/// The state of a process instance after an event: the first event starts a fresh one.
pub open spec fn process_after(processes: Map<Seq<char>, ProcessView>, e: PipelineEventView) -> ProcessView {
    reduced(
        if processes.contains_key(e.process_instance_id) {
            processes[e.process_instance_id]
        } else {
            fresh(e)
        },
        e,
    )
}

/// The lookup table in which an event is listed once for each of its references.
pub open spec fn listed_under_refs(
    table: Map<MetadataRefView, Seq<Seq<char>>>,
    refs: Seq<MetadataRefView>,
    id: Seq<char>,
) -> Map<MetadataRefView, Seq<Seq<char>>>
    decreases refs.len(),
{
    if refs.len() == 0 {
        table
    } else {
        appended(listed_under_refs(table, refs.drop_last(), id), refs.last(), id)
    }
}

/// The index after a new valid event.
pub open spec fn indexed(m: HotIndexView, e: PipelineEventView) -> HotIndexView {
    HotIndexView {
        processes: m.processes.insert(e.process_instance_id, process_after(m.processes, e)),
        events: m.events.insert(e.event_id, e),
        by_process: appended(m.by_process, e.process_instance_id, e.event_id),
        by_pipeline: appended(m.by_pipeline, e.pipeline_id, e.event_id),
        by_ref: listed_under_refs(m.by_ref, e.metadata_refs, e.event_id),
        ..m
    }
}

/// One more, up to the largest number.
pub open spec fn one_more(n: u64) -> u64 {
    if n < u64::MAX {
        (n + 1) as u64
    } else {
        n
    }
}

/// The index after an event is offered: unchanged if the event is not valid, with one more
/// duplicate counted if its identifier is known, else with the event indexed.
pub open spec fn ingested(m: HotIndexView, e: PipelineEventView) -> HotIndexView {
    if !is_valid(e) {
        m
    } else if m.events.contains_key(e.event_id) {
        HotIndexView { duplicate_events: one_more(m.duplicate_events), ..m }
    } else {
        indexed(m, e)
    }
}

/// What the offer of an event is answered.
pub open spec fn ingest_result(m: HotIndexView, e: PipelineEventView, r: Result<IngestOutcome, IngestError>) -> bool {
    match r {
        Err(error) => empty_field(e) == Some(error->field@),
        Ok(IngestOutcome::Duplicate) => is_valid(e) && m.events.contains_key(e.event_id),
        Ok(IngestOutcome::Accepted) => is_valid(e) && !m.events.contains_key(e.event_id),
    }
}

/// The process instances in key order.
pub open spec fn process_keys(m: HotIndexView) -> Seq<Seq<char>> {
    sorted::<ProcessInstanceId>(m.processes.dom())
}

/// The instances that meet a condition, in key order, at most a number of them.
pub open spec fn matching_instances(m: HotIndexView, wanted: spec_fn(ProcessView) -> bool, limit: nat) -> Seq<
    ProcessView,
> {
    first_n(selected(m.processes, process_keys(m), wanted), limit)
}

/// The condition of belonging to a pipeline.
pub open spec fn of_pipeline(pipeline_id: Seq<char>) -> spec_fn(ProcessView) -> bool {
    |p: ProcessView| p.pipeline_id == pipeline_id
}

/// The condition of having a status.
pub open spec fn with_status(status: ProcessStatus) -> spec_fn(ProcessView) -> bool {
    |p: ProcessView| p.status == status
}

/// The events in a list of a lookup table, at most a number of them.
pub open spec fn listed_events<K>(m: HotIndexView, table: Map<K, Seq<Seq<char>>>, key: K, limit: nat) -> Seq<
    PipelineEventView,
> {
    if table.contains_key(key) {
        looked_up(m.events, first_n(table[key], limit))
    } else {
        Seq::empty()
    }
}

/// The condition of lying between two instants, both included; instants are ordered as
/// texts.
pub open spec fn in_range(start: Option<Seq<char>>, end: Option<Seq<char>>) -> spec_fn(PipelineEventView) -> bool {
    |e: PipelineEventView|
        {
            &&& start matches Some(s) ==> !text_before(e.timestamp, s)
            &&& end matches Some(t) ==> !text_before(t, e.timestamp)
        }
}

/// The order of events in time.
pub open spec fn later() -> spec_fn(PipelineEventView, PipelineEventView) -> bool {
    |a: PipelineEventView, b: PipelineEventView| text_before(b.timestamp, a.timestamp)
}

/// The events between two instants, the earliest first, at most a number of them; events
/// of one instant come in the order of their identifiers.
pub open spec fn events_between(m: HotIndexView, start: Option<Seq<char>>, end: Option<Seq<char>>, limit: nat) -> Seq<
    PipelineEventView,
> {
    first_n(
        stable_sort(
            selected(m.events, sorted::<EventId>(m.events.dom()), in_range(start, end)),
            later(),
        ),
        limit,
    )
}

/// The pipelines of a list of events.
pub open spec fn pipelines_of(m: HotIndexView, ids: Seq<Seq<char>>) -> Set<Seq<char>>
    decreases ids.len(),
{
    if ids.len() == 0 {
        Set::empty()
    } else {
        let sofar = pipelines_of(m, ids.drop_last());
        if m.events.contains_key(ids.last()) {
            sofar.insert(m.events[ids.last()].pipeline_id)
        } else {
            sofar
        }
    }
}

/// The pipelines with an event that refers to a metadata object.
pub open spec fn pipelines_affected(m: HotIndexView, r: MetadataRefView) -> Set<Seq<char>> {
    if m.by_ref.contains_key(r) {
        pipelines_of(m, m.by_ref[r])
    } else {
        Set::empty()
    }
}

proof fn lemma_pipelines_finite(m: HotIndexView, ids: Seq<Seq<char>>)
    ensures
        pipelines_of(m, ids).finite(),
    decreases ids.len(),
{
    if ids.len() > 0 {
        lemma_pipelines_finite(m, ids.drop_last());
    }
}

/// Finitely many pipelines refer to a metadata object.
pub proof fn lemma_affected_finite(m: HotIndexView, r: MetadataRefView)
    ensures
        pipelines_affected(m, r).finite(),
{
    if m.by_ref.contains_key(r) {
        lemma_pipelines_finite(m, m.by_ref[r]);
    }
}

/// Inserts an event into a list that is sorted by time, behind those of the same instant.
pub fn insert_by_time(events: &mut Vec<PipelineEvent>, event: PipelineEvent)
    requires
        forall|i: int, j: int|
            0 <= i < j < old(events).len() ==> !text_before(
                (#[trigger] old(events)@[j])@.timestamp,
                (#[trigger] old(events)@[i])@.timestamp,
            ),
    ensures
        views(final(events)@) == insert_sorted(views(old(events)@), event@, later()),
        forall|i: int, j: int|
            0 <= i < j < final(events).len() ==> !text_before(
                (#[trigger] final(events)@[j])@.timestamp,
                (#[trigger] final(events)@[i])@.timestamp,
            ),
{
    let ghost before = events@;
    let mut at: usize = events.len();
    while at > 0
        invariant_except_break
            forall|i: int| at <= i < events.len() ==> text_before(event@.timestamp, (#[trigger] events@[i])@.timestamp),
        invariant
            at <= events.len(),
            events@ == before,
        ensures
            forall|i: int| at <= i < events.len() ==> text_before(event@.timestamp, (#[trigger] events@[i])@.timestamp),
            at == 0 || !text_before(event@.timestamp, events@[at - 1]@.timestamp),
        decreases at,
    {
        match rank_str(event.timestamp().as_str(), events[at - 1].timestamp().as_str()) {
            Rank::Before => {},
            Rank::Same => {
                proof {
                    crate::ordered::text_before_irreflexive(event@.timestamp);
                }
                break;
            },
            Rank::After => {
                proof {
                    if text_before(event@.timestamp, events@[at - 1]@.timestamp) {
                        crate::ordered::text_before_transitive(
                            event@.timestamp,
                            events@[at - 1]@.timestamp,
                            event@.timestamp,
                        );
                        crate::ordered::text_before_irreflexive(event@.timestamp);
                    }
                }
                break;
            },
        }
        at -= 1;
    }
    let ghost inserted = event;
    events.insert(at, event);
    proof {
        assert forall|i: int| at <= i < before.len() implies later()(#[trigger] views(before)[i], inserted@) by {
            assert(text_before(inserted@.timestamp, before[i]@.timestamp));
        }
        lemma_insert_sorted_at(views(before), inserted@, later(), at as int);
        assert(views(events@) =~= views(before).insert(at as int, inserted@));
        assert forall|i: int, j: int| 0 <= i < j < events.len() implies !text_before(
            (#[trigger] events@[j])@.timestamp,
            (#[trigger] events@[i])@.timestamp,
        ) by {
            let t = inserted@.timestamp;
            if i < at && j == at {
                if i < at - 1 {
                    assert(!text_before(before[at - 1]@.timestamp, before[i]@.timestamp));
                    lemma_not_before(t, before[at - 1]@.timestamp, before[i]@.timestamp);
                }
            } else if i == at {
                assert(text_before(t, before[j - 1]@.timestamp));
                lemma_asymmetric(t, before[j - 1]@.timestamp);
            } else {
                let a = if i < at { i } else { i - 1 };
                let b = if j < at { j } else { j - 1 };
                assert(!text_before(before[b]@.timestamp, before[a]@.timestamp));
            }
        }
    }
}

proof fn lemma_asymmetric(a: Seq<char>, b: Seq<char>)
    requires
        text_before(a, b),
    ensures
        !text_before(b, a),
{
    if text_before(b, a) {
        crate::ordered::text_before_transitive(a, b, a);
        crate::ordered::text_before_irreflexive(a);
    }
}

proof fn lemma_not_before(a: Seq<char>, b: Seq<char>, c: Seq<char>)
    requires
        !text_before(a, b),
        !text_before(b, c),
    ensures
        !text_before(a, c),
{
    if text_before(a, c) {
        crate::ordered::text_before_connected(a, b);
        if a != b {
            crate::ordered::text_before_transitive(b, a, c);
        }
    }
}

/// Sorts events by time, keeping the order of those of the same instant.
pub fn sort_by_time(events: Vec<PipelineEvent>) -> (r: Vec<PipelineEvent>)
    ensures
        views(r@) == stable_sort(views(events@), later()),
{
    let mut out: Vec<PipelineEvent> = Vec::new();
    let mut i: usize = 0;
    assert(views(out@) =~= stable_sort(views(events@).take(0), later()));
    while i < events.len()
        invariant
            i <= events.len(),
            views(out@) == stable_sort(views(events@).take(i as int), later()),
            forall|a: int, b: int|
                0 <= a < b < out.len() ==> !text_before(
                    (#[trigger] out@[b])@.timestamp,
                    (#[trigger] out@[a])@.timestamp,
                ),
        decreases events.len() - i,
    {
        insert_by_time(&mut out, events[i].clone());
        proof {
            assert(views(events@).take(i + 1).drop_last() =~= views(events@).take(i as int));
            assert(views(events@).take(i + 1).last() == events@[i as int]@);
        }
        i += 1;
    }
    assert(views(events@).take(events.len() as int) =~= views(events@));
    out
}

/// Keeps the first elements of a list of events.
pub fn keep_first(events: Vec<PipelineEvent>, limit: usize) -> (r: Vec<PipelineEvent>)
    ensures
        views(r@) == first_n(views(events@), limit as nat),
{
    let mut events = events;
    let ghost before = events@;
    if limit < events.len() {
        events.truncate(limit);
    }
    assert(views(events@) =~= first_n(views(before), limit as nat));
    events
}

impl HotIndex {
    /// An index without events.
    pub fn new() -> (r: Self)
        ensures
            r@ == empty_index(),
    {
        HotIndex {
            process_instances: SortedMap::new(),
            events_by_id: SortedMap::new(),
            events_by_process: SortedMap::new(),
            events_by_pipeline: SortedMap::new(),
            events_by_metadata_ref: SortedMap::new(),
            duplicate_events: 0,
            rejected_events: 0,
        }
    }

    fn list_under_refs(&mut self, event: &PipelineEvent)
        ensures
            final(self)@ == (HotIndexView {
                by_ref: listed_under_refs(old(self)@.by_ref, event@.metadata_refs, event@.event_id),
                ..old(self)@
            }),
    {
        let refs = event.metadata_refs();
        let ghost all = views(refs@);
        let ghost before = self@;
        let mut i: usize = 0;
        assert(all.take(0) =~= Seq::<MetadataRefView>::empty());
        while i < refs.len()
            invariant
                i <= refs.len(),
                all == views(refs@),
                self@ == (HotIndexView {
                    by_ref: listed_under_refs(before.by_ref, all.take(i as int), event@.event_id),
                    ..before
                }),
            decreases refs.len() - i,
        {
            proof {
                assert(all.take(i + 1).drop_last() =~= all.take(i as int));
                assert(all.take(i + 1).last() == refs@[i as int]@);
            }
            append_to(&mut self.events_by_metadata_ref, refs[i].clone(), event.event_id().clone());
            i += 1;
        }
        assert(all.take(refs.len() as int) =~= all);
    }

    /// Takes an event into the index, unless it is not valid or its identifier is known.
    pub fn ingest(&mut self, event: PipelineEvent) -> (r: Result<IngestOutcome, IngestError>)
        ensures
            final(self)@ == ingested(old(self)@, event@),
            ingest_result(old(self)@, event@, r),
    {
        match event.validate() {
            Ok(()) => {},
            Err(error) => {
                return Err(error);
            },
        }
        if self.events_by_id.contains_key(event.event_id()) {
            self.duplicate_events = self.duplicate_events.saturating_add(1);
            return Ok(IngestOutcome::Duplicate);
        }
        let mut state = match self.process_instances.remove(event.process_instance_id()) {
            Some(state) => state,
            None => ProcessInstanceState::new(&event),
        };
        state.apply(&event);
        let _ = self.process_instances.insert(event.process_instance_id().clone(), state);
        append_to(&mut self.events_by_process, event.process_instance_id().clone(), event.event_id().clone());
        append_to(&mut self.events_by_pipeline, event.pipeline_id().clone(), event.event_id().clone());
        self.list_under_refs(&event);
        let _ = self.events_by_id.insert(event.event_id().clone(), event);
        proof {
            let m = old(self)@;
            let e = event@;
            assert(self@.processes =~= m.processes.insert(e.process_instance_id, process_after(m.processes, e)));
            assert(self@ == indexed(m, e));
        }
        Ok(IngestOutcome::Accepted)
    }

    /// The state of a process instance.
    pub fn process_instance(&self, query: &ProcessInstanceQuery) -> (r: Option<ProcessInstanceSnapshot>)
        ensures
            match r {
                Some(p) => self@.processes.contains_key(query.process_instance_id@) && p@
                    == self@.processes[query.process_instance_id@],
                None => !self@.processes.contains_key(query.process_instance_id@),
            },
    {
        match self.process_instances.get(&query.process_instance_id) {
            Some(state) => Some(state.snapshot()),
            None => None,
        }
    }

    /// The instances of a pipeline.
    pub fn pipeline_instances(&self, query: &PipelineQuery) -> (r: QueryResult)
        ensures
            r@ == QueryResultView::ProcessInstances(
                matching_instances(self@, of_pipeline(query.pipeline_id@), query.limit@),
            ),
    {
        let limit: usize = query.limit.value();
        let n: usize = self.process_instances.len();
        let ghost keys = process_keys(self@);
        let ghost wanted = of_pipeline(query.pipeline_id@);
        let mut instances: Vec<ProcessInstanceSnapshot> = Vec::new();
        let mut i: usize = 0;
        assert(views(instances@) =~= selected(self@.processes, keys.take(0), wanted));
        while i < n && instances.len() < limit
            invariant
                i <= n,
                n == keys.len(),
                n == self@.processes.dom().len(),
                keys == process_keys(self@),
                keys == self.process_instances.keys(),
                wanted == of_pipeline(query.pipeline_id@),
                instances.len() <= limit,
                views(instances@) == selected(self@.processes, keys.take(i as int), wanted),
            decreases n - i,
        {
            assert(keys.take(i + 1).drop_last() =~= keys.take(i as int));
            let ghost done = instances@;
            let state = self.process_instances.value_at(i);
            if str_eq(state.pipeline_id().as_str(), query.pipeline_id.as_str()) {
                instances.push(state.snapshot());
                assert(views(instances@) =~= views(done).push(state@));
            }
            i += 1;
        }
        proof {
            lemma_selected_prefix(self@.processes, keys, wanted, i as int);
            assert(keys.take(n as int) =~= keys);
            assert(views(instances@).len() == instances.len());
            assert(views(instances@) =~= matching_instances(self@, wanted, limit as nat));
        }
        QueryResult::ProcessInstances(instances)
    }

    /// The instances with a status.
    pub fn process_instances_by_status(&self, query: &ProcessStatusQuery) -> (r: QueryResult)
        ensures
            r@ == QueryResultView::ProcessInstances(matching_instances(self@, with_status(query.status), query.limit@)),
    {
        let limit: usize = query.limit.value();
        let n: usize = self.process_instances.len();
        let ghost keys = process_keys(self@);
        let ghost wanted = with_status(query.status);
        let mut instances: Vec<ProcessInstanceSnapshot> = Vec::new();
        let mut i: usize = 0;
        assert(views(instances@) =~= selected(self@.processes, keys.take(0), wanted));
        while i < n && instances.len() < limit
            invariant
                i <= n,
                n == keys.len(),
                n == self@.processes.dom().len(),
                keys == process_keys(self@),
                keys == self.process_instances.keys(),
                wanted == with_status(query.status),
                instances.len() <= limit,
                views(instances@) == selected(self@.processes, keys.take(i as int), wanted),
            decreases n - i,
        {
            assert(keys.take(i + 1).drop_last() =~= keys.take(i as int));
            let ghost done = instances@;
            let state = self.process_instances.value_at(i);
            if state.status() == query.status {
                instances.push(state.snapshot());
                assert(views(instances@) =~= views(done).push(state@));
            }
            i += 1;
        }
        proof {
            lemma_selected_prefix(self@.processes, keys, wanted, i as int);
            assert(keys.take(n as int) =~= keys);
            assert(views(instances@).len() == instances.len());
            assert(views(instances@) =~= matching_instances(self@, wanted, limit as nat));
        }
        QueryResult::ProcessInstances(instances)
    }

    /// The events of a process instance, in the order in which they came.
    pub fn events(&self, query: &EventQuery) -> (r: QueryResult)
        ensures
            r@ == QueryResultView::Events(
                listed_events(self@, self@.by_process, query.process_instance_id@, query.limit@),
            ),
    {
        let found = match self.events_by_process.get(&query.process_instance_id) {
            Some(ids) => look_up(&self.events_by_id, ids, query.limit.value()),
            None => no_events(),
        };
        QueryResult::Events(found)
    }

    /// The events that refer to a metadata object, in the order in which they came.
    pub fn impact(&self, query: &ImpactQuery) -> (r: QueryResult)
        ensures
            r@ == QueryResultView::Events(listed_events(self@, self@.by_ref, query.metadata_ref@, query.limit@)),
    {
        let found = match self.events_by_metadata_ref.get(&query.metadata_ref) {
            Some(ids) => look_up(&self.events_by_id, ids, query.limit.value()),
            None => no_events(),
        };
        QueryResult::Events(found)
    }

    fn is_between(event: &PipelineEvent, start: &Option<EventTimestamp>, end: &Option<EventTimestamp>) -> (r: bool)
        ensures
            r == in_range(crate::ordered::opt_view(*start), crate::ordered::opt_view(*end))(event@),
    {
        let time = event.timestamp().as_str();
        if let Some(s) = start {
            match rank_str(time, s.as_str()) {
                Rank::Before => {
                    return false;
                },
                Rank::Same => {
                    proof {
                        crate::ordered::text_before_irreflexive(time@);
                    }
                },
                Rank::After => {
                    proof {
                        lemma_asymmetric(s@, time@);
                    }
                },
            }
        }
        if let Some(t) = end {
            match rank_str(t.as_str(), time) {
                Rank::Before => {
                    return false;
                },
                Rank::Same => {
                    proof {
                        crate::ordered::text_before_irreflexive(time@);
                    }
                },
                Rank::After => {
                    proof {
                        lemma_asymmetric(time@, t@);
                    }
                },
            }
        }
        true
    }

    /// The events between two instants, the earliest first.
    pub fn events_in_time_range(&self, query: &TimeRangeQuery) -> (r: QueryResult)
        ensures
            r@ == QueryResultView::Events(
                events_between(
                    self@,
                    crate::ordered::opt_view(query.start),
                    crate::ordered::opt_view(query.end),
                    query.limit@,
                ),
            ),
    {
        let n: usize = self.events_by_id.len();
        let ghost keys = sorted::<EventId>(self@.events.dom());
        let ghost wanted = in_range(crate::ordered::opt_view(query.start), crate::ordered::opt_view(query.end));
        let mut found: Vec<PipelineEvent> = Vec::new();
        let mut i: usize = 0;
        assert(views(found@) =~= selected(self@.events, keys.take(0), wanted));
        while i < n
            invariant
                i <= n,
                n == keys.len(),
                n == self@.events.dom().len(),
                keys == self.events_by_id.keys(),
                wanted == in_range(crate::ordered::opt_view(query.start), crate::ordered::opt_view(query.end)),
                views(found@) == selected(self@.events, keys.take(i as int), wanted),
            decreases n - i,
        {
            assert(keys.take(i + 1).drop_last() =~= keys.take(i as int));
            let ghost done = found@;
            let event = self.events_by_id.value_at(i);
            if HotIndex::is_between(event, &query.start, &query.end) {
                found.push(event.clone());
                assert(views(found@) =~= views(done).push(event@));
            }
            i += 1;
        }
        assert(keys.take(n as int) =~= keys);
        QueryResult::Events(keep_first(sort_by_time(found), query.limit.value()))
    }

    /// The pipelines with an event that refers to a metadata object, in order.
    pub fn affected_pipelines(&self, metadata_ref: &MetadataRef) -> (r: Vec<PipelineId>)
        ensures
            views(r@) == sorted::<PipelineId>(pipelines_affected(self@, metadata_ref@)),
    {
        let mut pipelines: SortedSet<PipelineId> = SortedSet::new();
        if let Some(ids) = self.events_by_metadata_ref.get(metadata_ref) {
            let mut i: usize = 0;
            assert(ids@.take(0) =~= Seq::<Seq<char>>::empty());
            while i < ids.len()
                invariant
                    i <= ids@.len(),
                    pipelines@ == pipelines_of(self@, ids@.take(i as int)),
                decreases ids@.len() - i,
            {
                assert(ids@.take(i + 1).drop_last() =~= ids@.take(i as int));
                if let Some(event) = self.events_by_id.get(ids.at(i)) {
                    let _ = pipelines.insert(event.pipeline_id().clone());
                }
                i += 1;
            }
            assert(ids@.take(ids@.len() as int) =~= ids@);
        }
        pipelines.to_vec()
    }

    /// The sizes of the index.
    pub fn snapshot(&self) -> (r: HotIndexSnapshot)
        ensures
            r.process_instance_count == self@.processes.len(),
            r.event_count == self@.events.len(),
            r.pipeline_count == self@.by_pipeline.len(),
            r.metadata_ref_count == self@.by_ref.len(),
            r.duplicate_events == self@.duplicate_events,
            r.rejected_events == self@.rejected_events,
    {
        HotIndexSnapshot {
            process_instance_count: self.process_instances.len(),
            event_count: self.events_by_id.len(),
            pipeline_count: self.events_by_pipeline.len(),
            metadata_ref_count: self.events_by_metadata_ref.len(),
            duplicate_events: self.duplicate_events,
            rejected_events: self.rejected_events,
        }
    }
}

fn no_events() -> (r: Vec<PipelineEvent>)
    ensures
        views(r@) == Seq::<PipelineEventView>::empty(),
{
    let none: Vec<PipelineEvent> = Vec::new();
    assert(views(none@) =~= Seq::<PipelineEventView>::empty());
    none
}

impl Default for HotIndex {
    fn default() -> (r: Self)
        ensures
            r@ == empty_index(),
    {
        HotIndex::new()
    }
}

/// Whether an event was taken into the index.
#[derive(Debug, Clone, Copy, PartialEq, Eq, Structural)]
pub enum IngestOutcome {
    Accepted,
    Duplicate,
}

// ---------------------------------------------------------------------------
// Laws
// ---------------------------------------------------------------------------

/// Offering an event a second time changes nothing but the number of duplicates.
pub proof fn law_ingest_is_idempotent(m: HotIndexView, e: PipelineEventView)
    requires
        is_valid(e),
    ensures
        ingested(ingested(m, e), e) == (HotIndexView {
            duplicate_events: one_more(ingested(m, e).duplicate_events),
            ..ingested(m, e)
        }),
{
}

/// The state that a list of events adds up to.
pub open spec fn replayed(events: Map<Seq<char>, PipelineEventView>, ids: Seq<Seq<char>>) -> ProcessView
    decreases ids.len(),
{
    let e = events[ids.last()];
    if ids.len() <= 1 {
        reduced(fresh(e), e)
    } else {
        reduced(replayed(events, ids.drop_last()), e)
    }
}

/// Every identifier in the lookup tables names an event of the index that belongs where it
/// is listed, and the state of every process instance is what its events add up to.
pub open spec fn index_consistent(m: HotIndexView) -> bool {
    &&& forall|p: Seq<char>, i: int|
        m.by_process.contains_key(p) && 0 <= i < m.by_process[p].len() ==> {
            let id = #[trigger] m.by_process[p][i];
            m.events.contains_key(id) && m.events[id].process_instance_id == p
        }
    &&& forall|p: Seq<char>, i: int|
        m.by_pipeline.contains_key(p) && 0 <= i < m.by_pipeline[p].len() ==> {
            let id = #[trigger] m.by_pipeline[p][i];
            m.events.contains_key(id) && m.events[id].pipeline_id == p
        }
    &&& forall|p: MetadataRefView, i: int|
        m.by_ref.contains_key(p) && 0 <= i < m.by_ref[p].len() ==> {
            let id = #[trigger] m.by_ref[p][i];
            m.events.contains_key(id) && m.events[id].metadata_refs.contains(p)
        }
    &&& forall|p: Seq<char>| #[trigger] m.processes.contains_key(p) == m.by_process.contains_key(p)
    &&& forall|p: Seq<char>|
        #[trigger] m.processes.contains_key(p) ==> m.by_process[p].len() > 0 && m.processes[p] == replayed(
            m.events,
            m.by_process[p],
        )
}

proof fn lemma_replayed_stable(
    events: Map<Seq<char>, PipelineEventView>,
    ids: Seq<Seq<char>>,
    id: Seq<char>,
    e: PipelineEventView,
)
    requires
        ids.len() > 0,
        forall|i: int| 0 <= i < ids.len() ==> #[trigger] ids[i] != id,
    ensures
        replayed(events.insert(id, e), ids) == replayed(events, ids),
    decreases ids.len(),
{
    assert(ids[ids.len() - 1] != id);
    if ids.len() > 1 {
        lemma_replayed_stable(events, ids.drop_last(), id, e);
    }
}

proof fn lemma_listed_under_refs(
    table: Map<MetadataRefView, Seq<Seq<char>>>,
    refs: Seq<MetadataRefView>,
    id: Seq<char>,
    r: MetadataRefView,
    i: int,
)
    requires
        listed_under_refs(table, refs, id).contains_key(r),
        0 <= i < listed_under_refs(table, refs, id)[r].len(),
    ensures
        (refs.contains(r) && listed_under_refs(table, refs, id)[r][i] == id) || (table.contains_key(r) && 0 <= i
            < table[r].len() && listed_under_refs(table, refs, id)[r][i] == table[r][i]),
    decreases refs.len(),
{
    if refs.len() > 0 {
        let sofar = listed_under_refs(table, refs.drop_last(), id);
        if r == refs.last() {
            assert(refs[refs.len() - 1] == r);
            if sofar.contains_key(r) && i < sofar[r].len() {
                lemma_listed_under_refs(table, refs.drop_last(), id, r, i);
                if refs.drop_last().contains(r) {
                    assert(refs.contains(r));
                }
            }
        } else {
            lemma_listed_under_refs(table, refs.drop_last(), id, r, i);
            if refs.drop_last().contains(r) {
                let k = choose|k: int| 0 <= k < refs.drop_last().len() && refs.drop_last()[k] == r;
                assert(refs[k] == r);
            }
        }
    }
}

/// An index without events is consistent, and no event makes it inconsistent: whatever is
/// offered, the state of each process instance stays the reduction of its events in the
/// order in which they came.
pub proof fn law_ingest_keeps_consistency(m: HotIndexView, e: PipelineEventView)
    ensures
        index_consistent(empty_index()),
        index_consistent(m) ==> index_consistent(ingested(m, e)),
{
    if index_consistent(m) && is_valid(e) && !m.events.contains_key(e.event_id) {
        let n = indexed(m, e);
        let id = e.event_id;
        assert forall|p: Seq<char>, i: int| n.by_process.contains_key(p) && 0 <= i < n.by_process[p].len() implies ({
            let x = #[trigger] n.by_process[p][i];
            n.events.contains_key(x) && n.events[x].process_instance_id == p
        }) by {
            if m.by_process.contains_key(p) && i < m.by_process[p].len() {
                let y = m.by_process[p][i];
                assert(m.events.contains_key(y));
            }
        }
        assert forall|p: Seq<char>, i: int| n.by_pipeline.contains_key(p) && 0 <= i < n.by_pipeline[p].len() implies ({
            let x = #[trigger] n.by_pipeline[p][i];
            n.events.contains_key(x) && n.events[x].pipeline_id == p
        }) by {
            if m.by_pipeline.contains_key(p) && i < m.by_pipeline[p].len() {
                let y = m.by_pipeline[p][i];
                assert(m.events.contains_key(y));
            }
        }
        assert forall|p: MetadataRefView, i: int| n.by_ref.contains_key(p) && 0 <= i < n.by_ref[p].len() implies ({
            let x = #[trigger] n.by_ref[p][i];
            n.events.contains_key(x) && n.events[x].metadata_refs.contains(p)
        }) by {
            lemma_listed_under_refs(m.by_ref, e.metadata_refs, id, p, i);
            if m.by_ref.contains_key(p) && i < m.by_ref[p].len() {
                let y = m.by_ref[p][i];
                assert(m.events.contains_key(y));
            }
        }
        assert forall|p: Seq<char>| #[trigger] n.processes.contains_key(p) implies n.by_process[p].len() > 0
            && n.processes[p] == replayed(n.events, n.by_process[p]) by {
            if m.processes.contains_key(p) {
                assert forall|i: int| 0 <= i < m.by_process[p].len() implies #[trigger] m.by_process[p][i] != id by {
                    assert(m.events.contains_key(m.by_process[p][i]));
                }
                lemma_replayed_stable(m.events, m.by_process[p], id, e);
            }
            if p == e.process_instance_id {
                assert(n.by_process[p].last() == id);
                if m.processes.contains_key(p) {
                    assert(n.by_process[p].drop_last() =~= m.by_process[p]);
                }
            }
        }
    }
}

/// A consistent index answers a query for the events of a process instance with events of
/// that instance only, and leaves none of the listed ones out.
pub proof fn law_process_events_answer(m: HotIndexView, p: Seq<char>, limit: nat)
    requires
        index_consistent(m),
        m.by_process.contains_key(p),
    ensures
        ({
            let listed = first_n(m.by_process[p], limit);
            let answer = listed_events(m, m.by_process, p, limit);
            &&& answer.len() == listed.len()
            &&& answer.len() <= limit
            &&& forall|i: int|
                0 <= i < answer.len() ==> #[trigger] answer[i] == m.events[listed[i]] && answer[i].process_instance_id
                    == p
        }),
{
    let listed = first_n(m.by_process[p], limit);
    assert forall|i: int| 0 <= i < listed.len() implies m.events.contains_key(#[trigger] listed[i])
        && m.events[listed[i]].process_instance_id == p by {
        assert(listed[i] == m.by_process[p][i]);
    }
    crate::ordered::lemma_looked_up_all(m.events, listed);
}

/// A consistent index answers an impact query with events that refer to the metadata
/// object, and leaves none of the listed ones out.
pub proof fn law_impact_answer(m: HotIndexView, r: MetadataRefView, limit: nat)
    requires
        index_consistent(m),
        m.by_ref.contains_key(r),
    ensures
        ({
            let listed = first_n(m.by_ref[r], limit);
            let answer = listed_events(m, m.by_ref, r, limit);
            &&& answer.len() == listed.len()
            &&& answer.len() <= limit
            &&& forall|i: int|
                0 <= i < answer.len() ==> #[trigger] answer[i] == m.events[listed[i]]
                    && answer[i].metadata_refs.contains(r)
        }),
{
    let listed = first_n(m.by_ref[r], limit);
    assert forall|i: int| 0 <= i < listed.len() implies m.events.contains_key(#[trigger] listed[i])
        && m.events[listed[i]].metadata_refs.contains(r) by {
        assert(listed[i] == m.by_ref[r][i]);
    }
    crate::ordered::lemma_looked_up_all(m.events, listed);
}

proof fn lemma_selected_members<K, V>(m: Map<K, V>, keys: Seq<K>, wanted: spec_fn(V) -> bool)
    ensures
        forall|i: int| 0 <= i < selected(m, keys, wanted).len() ==> wanted(#[trigger] selected(m, keys, wanted)[i]),
        selected(m, keys, wanted).len() <= keys.len(),
    decreases keys.len(),
{
    if keys.len() > 0 {
        lemma_selected_members(m, keys.drop_last(), wanted);
    }
}

/// A query for instances returns no more than its limit, and only instances that meet its
/// condition.
pub proof fn law_instance_answers(m: HotIndexView, wanted: spec_fn(ProcessView) -> bool, limit: nat)
    ensures
        matching_instances(m, wanted, limit).len() <= limit,
        forall|i: int|
            0 <= i < matching_instances(m, wanted, limit).len() ==> wanted(
                #[trigger] matching_instances(m, wanted, limit)[i],
            ),
{
    lemma_selected_members(m.processes, process_keys(m), wanted);
}

/// A time-range query returns no more events than its limit, all of them between the two
/// instants, and none before an earlier one.
pub proof fn law_time_range_answers(m: HotIndexView, start: Option<Seq<char>>, end: Option<Seq<char>>, limit: nat)
    ensures
        ({
            let answer = events_between(m, start, end, limit);
            &&& answer.len() <= limit
            &&& forall|i: int| 0 <= i < answer.len() ==> in_range(start, end)(#[trigger] answer[i])
            &&& forall|i: int, j: int|
                0 <= i < j < answer.len() ==> !text_before(
                    (#[trigger] answer[j]).timestamp,
                    (#[trigger] answer[i]).timestamp,
                )
        }),
{
    let keys = sorted::<EventId>(m.events.dom());
    let wanted = in_range(start, end);
    let found = selected(m.events, keys, wanted);
    let order = later();
    lemma_selected_members(m.events, keys, wanted);
    crate::ordered::lemma_stable_sort_multiset(found, order);
    assert forall|a: PipelineEventView, b: PipelineEventView| #![trigger order(a, b)] order(a, b) implies !order(b, a) by {
        lemma_asymmetric(b.timestamp, a.timestamp);
    }
    assert forall|a: PipelineEventView, b: PipelineEventView, c: PipelineEventView|
        #![trigger order(a, b), order(c, b)]
        order(a, b) && !order(c, b) implies order(a, c) by {
        crate::ordered::text_before_connected(b.timestamp, c.timestamp);
        if text_before(c.timestamp, b.timestamp) {
            crate::ordered::text_before_transitive(c.timestamp, b.timestamp, a.timestamp);
        }
    }
    crate::ordered::lemma_stable_sort_ordered(found, order);
    let all = stable_sort(found, order);
    assert forall|i: int| 0 <= i < all.len() implies wanted(#[trigger] all[i]) by {
        broadcast use vstd::seq_lib::group_to_multiset_ensures;

        assert(all.to_multiset().count(all[i]) > 0) by {
            assert(all.contains(all[i]));
        }
        assert(found.contains(all[i]));
    }
    let answer = events_between(m, start, end, limit);
    assert forall|i: int, j: int| 0 <= i < j < answer.len() implies !text_before(
        (#[trigger] answer[j]).timestamp,
        (#[trigger] answer[i]).timestamp,
    ) by {
        assert(answer[i] == all[i] && answer[j] == all[j]);
        assert(!order(all[i], all[j]));
    }
}

/// Whether an event is listed under its process instance, its pipeline and each of its
/// references.
pub open spec fn event_is_listed(m: HotIndexView, id: Seq<char>) -> bool {
    let e = m.events[id];
    &&& e.event_id == id
    &&& is_listed(m.by_process, e.process_instance_id, id)
    &&& is_listed(m.by_pipeline, e.pipeline_id, id)
    &&& forall|r: MetadataRefView| #[trigger] e.metadata_refs.contains(r) ==> is_listed(m.by_ref, r, id)
}

/// The index holds finitely many events and instances, and every event is listed
/// everywhere it belongs.
pub open spec fn index_complete(m: HotIndexView) -> bool {
    &&& m.events.dom().finite()
    &&& m.processes.dom().finite()
    &&& forall|id: Seq<char>| #[trigger] m.events.contains_key(id) ==> event_is_listed(m, id)
}

proof fn lemma_refs_list(table: Map<MetadataRefView, Seq<Seq<char>>>, refs: Seq<MetadataRefView>, id: Seq<char>)
    ensures
        forall|r: MetadataRefView| #[trigger] refs.contains(r) ==> is_listed(listed_under_refs(table, refs, id), r, id),
        forall|r: MetadataRefView, t: Seq<char>| #[trigger]
            is_listed(table, r, t) ==> is_listed(listed_under_refs(table, refs, id), r, t),
    decreases refs.len(),
{
    if refs.len() > 0 {
        let sofar = listed_under_refs(table, refs.drop_last(), id);
        lemma_refs_list(table, refs.drop_last(), id);
        lemma_appended_lists(sofar, refs.last(), id);
        assert forall|r: MetadataRefView| #[trigger] refs.contains(r) implies is_listed(
            listed_under_refs(table, refs, id),
            r,
            id,
        ) by {
            if r != refs.last() {
                let k = choose|k: int| 0 <= k < refs.len() && refs[k] == r;
                assert(refs.drop_last()[k] == r);
                assert(refs.drop_last().contains(r));
                assert(is_listed(sofar, r, id));
            }
        }
        assert forall|r: MetadataRefView, t: Seq<char>| #[trigger] is_listed(table, r, t) implies is_listed(
            listed_under_refs(table, refs, id),
            r,
            t,
        ) by {
            assert(is_listed(sofar, r, t));
        }
    }
}

/// An empty index is complete, and an event that is offered keeps it so.
pub proof fn law_ingest_keeps_completeness(m: HotIndexView, e: PipelineEventView)
    ensures
        index_complete(empty_index()),
        index_complete(m) ==> index_complete(ingested(m, e)),
{
    if index_complete(m) && is_valid(e) && !m.events.contains_key(e.event_id) {
        let n = indexed(m, e);
        lemma_appended_lists(m.by_process, e.process_instance_id, e.event_id);
        lemma_appended_lists(m.by_pipeline, e.pipeline_id, e.event_id);
        lemma_refs_list(m.by_ref, e.metadata_refs, e.event_id);
        assert forall|id: Seq<char>| #[trigger] n.events.contains_key(id) implies event_is_listed(n, id) by {
            if id != e.event_id {
                assert(m.events.contains_key(id));
                assert(event_is_listed(m, id));
                assert forall|r: MetadataRefView| #[trigger] n.events[id].metadata_refs.contains(r) implies is_listed(
                    n.by_ref,
                    r,
                    id,
                ) by {
                    assert(is_listed(m.by_ref, r, id));
                }
            }
        }
    }
}

/// A query for the events of a process instance leaves out no event of it, as long as its
/// limit is not reached.
pub proof fn law_process_events_are_complete(m: HotIndexView, id: Seq<char>, limit: nat)
    requires
        index_consistent(m),
        index_complete(m),
        m.events.contains_key(id),
    ensures
        ({
            let e = m.events[id];
            let answer = listed_events(m, m.by_process, e.process_instance_id, limit);
            &&& m.by_process.contains_key(e.process_instance_id)
            &&& m.by_process[e.process_instance_id].len() <= limit ==> answer.contains(e)
            &&& answer.len() < limit ==> answer.contains(e)
        }),
{
    let p = m.events[id].process_instance_id;
    assert(event_is_listed(m, id));
    law_process_events_answer(m, p, limit);
    if m.by_process[p].len() <= limit {
        assert(first_n(m.by_process[p], limit) =~= m.by_process[p]);
        lemma_looked_up_contains(m.events, m.by_process[p], id);
    }
}

/// An impact query leaves out no event that refers to the metadata object, as long as its
/// limit is not reached.
pub proof fn law_impact_is_complete(m: HotIndexView, r: MetadataRefView, id: Seq<char>, limit: nat)
    requires
        index_consistent(m),
        index_complete(m),
        m.events.contains_key(id),
        m.events[id].metadata_refs.contains(r),
    ensures
        ({
            let answer = listed_events(m, m.by_ref, r, limit);
            &&& m.by_ref.contains_key(r)
            &&& m.by_ref[r].len() <= limit ==> answer.contains(m.events[id])
            &&& answer.len() < limit ==> answer.contains(m.events[id])
        }),
{
    assert(event_is_listed(m, id));
    assert(is_listed(m.by_ref, r, id));
    law_impact_answer(m, r, limit);
    if m.by_ref[r].len() <= limit {
        assert(first_n(m.by_ref[r], limit) =~= m.by_ref[r]);
        lemma_looked_up_contains(m.events, m.by_ref[r], id);
    }
}

proof fn lemma_pipelines_members(m: HotIndexView, ids: Seq<Seq<char>>)
    ensures
        forall|id: Seq<char>| #[trigger]
            ids.contains(id) && m.events.contains_key(id) ==> pipelines_of(m, ids).contains(m.events[id].pipeline_id),
        forall|p: Seq<char>| #[trigger]
            pipelines_of(m, ids).contains(p) ==> exists|i: int|
                0 <= i < ids.len() && m.events.contains_key(#[trigger] ids[i]) && m.events[ids[i]].pipeline_id == p,
    decreases ids.len(),
{
    if ids.len() > 0 {
        let rest = ids.drop_last();
        lemma_pipelines_members(m, rest);
        assert forall|id: Seq<char>| #[trigger] ids.contains(id) && m.events.contains_key(id) implies pipelines_of(
            m,
            ids,
        ).contains(m.events[id].pipeline_id) by {
            if id != ids.last() {
                let k = choose|k: int| 0 <= k < ids.len() && ids[k] == id;
                assert(rest[k] == id);
                assert(rest.contains(id));
            }
        }
        assert forall|p: Seq<char>| #[trigger] pipelines_of(m, ids).contains(p) implies exists|i: int|
            0 <= i < ids.len() && m.events.contains_key(#[trigger] ids[i]) && m.events[ids[i]].pipeline_id == p by {
            if pipelines_of(m, rest).contains(p) {
                let i = choose|i: int|
                    0 <= i < rest.len() && m.events.contains_key(#[trigger] rest[i]) && m.events[rest[i]].pipeline_id
                        == p;
                assert(ids[i] == rest[i]);
            } else {
                assert(ids[ids.len() - 1] == ids.last());
            }
        }
    }
}

/// The affected pipelines are those of the events that refer to the metadata object: each
/// of them is listed, and no other.
pub proof fn law_affected_pipelines_are_exact(m: HotIndexView, r: MetadataRefView, p: Seq<char>)
    requires
        index_consistent(m),
        index_complete(m),
    ensures
        sorted::<PipelineId>(pipelines_affected(m, r)).contains(p) <==> exists|id: Seq<char>| #[trigger]
            m.events.contains_key(id) && m.events[id].metadata_refs.contains(r) && m.events[id].pipeline_id == p,
{
    let found = pipelines_affected(m, r);
    lemma_affected_finite(m, r);
    lemma_listing_exists::<PipelineId>(found);
    if found.contains(p) {
        let ids = m.by_ref[r];
        lemma_pipelines_members(m, ids);
        let i = choose|i: int|
            0 <= i < ids.len() && m.events.contains_key(#[trigger] ids[i]) && m.events[ids[i]].pipeline_id == p;
        assert(m.events.contains_key(ids[i]) && m.events[ids[i]].metadata_refs.contains(r));
    }
    if exists|id: Seq<char>| #[trigger]
        m.events.contains_key(id) && m.events[id].metadata_refs.contains(r) && m.events[id].pipeline_id == p {
        let id = choose|id: Seq<char>| #[trigger]
            m.events.contains_key(id) && m.events[id].metadata_refs.contains(r) && m.events[id].pipeline_id == p;
        assert(event_is_listed(m, id));
        assert(is_listed(m.by_ref, r, id));
        lemma_pipelines_members(m, m.by_ref[r]);
        assert(m.by_ref[r].contains(id));
        assert(found.contains(p));
    }
}

/// A query for instances leaves out none that meets its condition, as long as its limit is
/// not reached.
pub proof fn law_instances_are_complete(m: HotIndexView, wanted: spec_fn(ProcessView) -> bool, p: Seq<char>, limit: nat)
    requires
        index_complete(m),
        m.processes.contains_key(p),
        wanted(m.processes[p]),
    ensures
        m.processes.len() <= limit ==> matching_instances(m, wanted, limit).contains(m.processes[p]),
        matching_instances(m, wanted, limit).len() < limit ==> matching_instances(m, wanted, limit).contains(
            m.processes[p],
        ),
{
    let keys = process_keys(m);
    let found = selected(m.processes, keys, wanted);
    lemma_listing_exists::<ProcessInstanceId>(m.processes.dom());
    lemma_listing_len::<ProcessInstanceId>(keys, m.processes.dom());
    lemma_selected_members(m.processes, keys, wanted);
    lemma_selected_contains(m.processes, keys, wanted, p);
    if found.len() <= limit {
        assert(first_n(found, limit) =~= found);
    }
}

/// A time-range query leaves out no event between its instants, as long as its limit is
/// not reached.
pub proof fn law_time_range_is_complete(
    m: HotIndexView,
    start: Option<Seq<char>>,
    end: Option<Seq<char>>,
    id: Seq<char>,
    limit: nat,
)
    requires
        index_complete(m),
        m.events.contains_key(id),
        in_range(start, end)(m.events[id]),
    ensures
        m.events.len() <= limit ==> events_between(m, start, end, limit).contains(m.events[id]),
        events_between(m, start, end, limit).len() < limit ==> events_between(m, start, end, limit).contains(
            m.events[id],
        ),
{
    let keys = sorted::<EventId>(m.events.dom());
    let wanted = in_range(start, end);
    let found = selected(m.events, keys, wanted);
    let all = stable_sort(found, later());
    lemma_listing_exists::<EventId>(m.events.dom());
    lemma_listing_len::<EventId>(keys, m.events.dom());
    lemma_selected_members(m.events, keys, wanted);
    lemma_selected_contains(m.events, keys, wanted, id);
    crate::ordered::lemma_stable_sort_multiset(found, later());
    assert(all.contains(m.events[id]) && all.len() == found.len()) by {
        broadcast use vstd::seq_lib::group_to_multiset_ensures;

        assert(found.to_multiset().count(m.events[id]) > 0);
        assert(all.to_multiset().len() == found.to_multiset().len());
    }
    if all.len() <= limit {
        assert(first_n(all, limit) =~= all);
    }
}

/// The index after a row of events was offered to an empty one.
pub open spec fn ingested_all(events: Seq<PipelineEventView>) -> HotIndexView
    decreases events.len(),
{
    if events.len() == 0 {
        empty_index()
    } else {
        ingested(ingested_all(events.drop_last()), events.last())
    }
}

/// Whether an event of a row is accepted: it is valid, and no valid event before it has its
/// identifier.
pub open spec fn is_accepted(events: Seq<PipelineEventView>, i: int) -> bool {
    &&& is_valid(events[i])
    &&& forall|j: int| 0 <= j < i && is_valid(#[trigger] events[j]) ==> events[j].event_id != events[i].event_id
}

/// Whatever events an index was offered, it is consistent and complete, holds every event
/// that was accepted, and holds no other.
#[verifier::spinoff_prover]
#[verifier::rlimit(40)]
pub proof fn law_accepted_events_are_kept(events: Seq<PipelineEventView>)
    ensures
        index_consistent(ingested_all(events)),
        index_complete(ingested_all(events)),
        forall|i: int|
            0 <= i < events.len() && is_accepted(events, i) ==> ingested_all(events).events.contains_pair(
                (#[trigger] events[i]).event_id,
                events[i],
            ),
        forall|id: Seq<char>| #[trigger]
            ingested_all(events).events.contains_key(id) ==> exists|i: int|
                0 <= i < events.len() && is_accepted(events, i) && #[trigger] events[i] == ingested_all(
                    events,
                ).events[id],
    decreases events.len(),
{
    if events.len() == 0 {
        law_ingest_keeps_consistency(empty_index(), arbitrary());
        law_ingest_keeps_completeness(empty_index(), arbitrary());
    } else {
        let before = events.drop_last();
        let e = events.last();
        let m = ingested_all(before);
        let n = ingested_all(events);
        law_accepted_events_are_kept(before);
        law_ingest_keeps_consistency(m, e);
        law_ingest_keeps_completeness(m, e);
        let last = events.len() - 1;
        assert(is_accepted(events, last) ==> !m.events.contains_key(e.event_id)) by {
            if m.events.contains_key(e.event_id) {
                let j = choose|j: int|
                    0 <= j < before.len() && is_accepted(before, j) && #[trigger] before[j] == m.events[e.event_id];
                assert(event_is_listed(m, e.event_id));
                assert(events[j] == before[j]);
            }
        }
        assert forall|i: int| 0 <= i < events.len() && is_accepted(events, i) implies n.events.contains_pair(
            (#[trigger] events[i]).event_id,
            events[i],
        ) by {
            if i < last {
                assert(before[i] == events[i]);
                assert(is_accepted(before, i)) by {
                    assert forall|j: int| 0 <= j < i && is_valid(#[trigger] before[j]) implies before[j].event_id
                        != before[i].event_id by {
                        assert(events[j] == before[j]);
                    }
                }
                assert(m.events.contains_pair(before[i].event_id, before[i]));
            }
        }
        assert forall|id: Seq<char>| #[trigger] n.events.contains_key(id) implies exists|i: int|
            0 <= i < events.len() && is_accepted(events, i) && #[trigger] events[i] == n.events[id] by {
            if m.events.contains_key(id) {
                let i = choose|i: int|
                    0 <= i < before.len() && is_accepted(before, i) && #[trigger] before[i] == m.events[id];
                assert(events[i] == before[i]);
                assert(is_accepted(events, i)) by {
                    assert forall|j: int| 0 <= j < i && is_valid(#[trigger] events[j]) implies events[j].event_id
                        != events[i].event_id by {
                        assert(events[j] == before[j]);
                    }
                }
            } else {
                assert(id == e.event_id);
                assert(is_accepted(events, last)) by {
                    assert forall|j: int| 0 <= j < last && is_valid(#[trigger] events[j]) implies events[j].event_id
                        != events[last].event_id by {
                        assert(before[j] == events[j]);
                        lemma_valid_is_known(before, j);
                    }
                }
            }
        }
    }
}

proof fn lemma_valid_is_known(events: Seq<PipelineEventView>, i: int)
    requires
        0 <= i < events.len(),
        is_valid(events[i]),
    ensures
        ingested_all(events).events.contains_key(events[i].event_id),
    decreases events.len(),
{
    if i < events.len() - 1 {
        assert(events.drop_last()[i] == events[i]);
        lemma_valid_is_known(events.drop_last(), i);
    }
}

/// Whatever events an index was offered, every accepted event is found again: among the
/// events of its process instance and in the impact of each metadata object that it refers
/// to, where the query does not reach its limit, and by its pipeline among the pipelines
/// that each such object affects.
pub proof fn law_accepted_events_are_found(
    events: Seq<PipelineEventView>,
    i: int,
    r: MetadataRefView,
    limit: nat,
)
    requires
        0 <= i < events.len(),
        is_accepted(events, i),
    ensures
        ({
            let m = ingested_all(events);
            let of_process = listed_events(m, m.by_process, events[i].process_instance_id, limit);
            let of_ref = listed_events(m, m.by_ref, r, limit);
            &&& of_process.len() < limit ==> of_process.contains(events[i])
            &&& events[i].metadata_refs.contains(r) && of_ref.len() < limit ==> of_ref.contains(events[i])
            &&& events[i].metadata_refs.contains(r) ==> sorted::<PipelineId>(pipelines_affected(m, r)).contains(
                events[i].pipeline_id,
            )
        }),
{
    let m = ingested_all(events);
    law_accepted_events_are_kept(events);
    let id = events[i].event_id;
    assert(m.events.contains_pair(events[i].event_id, events[i]));
    law_process_events_are_complete(m, id, limit);
    if events[i].metadata_refs.contains(r) {
        law_impact_is_complete(m, r, id, limit);
        law_affected_pipelines_are_exact(m, r, events[i].pipeline_id);
    }
}

/// An event that is not valid changes nothing; one whose identifier is known counts as one
/// more duplicate and changes nothing else; any other is filed under its identifier, put
/// behind the earlier events of its process instance and of its pipeline, and folded into the
/// state of its process instance, which begins with its first event. No other event, list or
/// process instance is touched.
pub proof fn law_events_are_filed(m: HotIndexView, e: PipelineEventView)
    ensures
        ({
            let after = ingested(m, e);
            let (p, q) = (e.process_instance_id, e.pipeline_id);
            &&& empty_field(e) is Some ==> after == m
            &&& empty_field(e) is None && m.events.contains_key(e.event_id) ==> {
                &&& m.duplicate_events < u64::MAX ==> after.duplicate_events == m.duplicate_events + 1
                &&& m.duplicate_events == u64::MAX ==> after.duplicate_events == u64::MAX
                &&& after.events == m.events && after.processes == m.processes && after.by_process == m.by_process
                    && after.by_pipeline == m.by_pipeline && after.by_ref == m.by_ref
            }
            &&& empty_field(e) is None && !m.events.contains_key(e.event_id) ==> {
                &&& after.duplicate_events == m.duplicate_events
                &&& after.events.contains_pair(e.event_id, e)
                &&& forall|k: Seq<char>|
                    k != e.event_id ==> #[trigger] after.events.contains_key(k) == m.events.contains_key(k)
                        && after.events[k] == m.events[k]
                &&& m.processes.contains_key(p) ==> after.processes.contains_pair(p, reduced(m.processes[p], e))
                &&& !m.processes.contains_key(p) ==> after.processes.contains_pair(p, reduced(fresh(e), e))
                &&& forall|x: Seq<char>|
                    x != p ==> #[trigger] after.processes.contains_key(x) == m.processes.contains_key(x)
                        && after.processes[x] == m.processes[x]
                &&& m.by_process.contains_key(p) ==> after.by_process[p] == m.by_process[p].push(e.event_id)
                &&& !m.by_process.contains_key(p) ==> after.by_process.contains_pair(p, seq![e.event_id])
                &&& forall|x: Seq<char>|
                    x != p ==> #[trigger] after.by_process.contains_key(x) == m.by_process.contains_key(x)
                        && after.by_process[x] == m.by_process[x]
                &&& m.by_pipeline.contains_key(q) ==> after.by_pipeline[q] == m.by_pipeline[q].push(e.event_id)
                &&& !m.by_pipeline.contains_key(q) ==> after.by_pipeline.contains_pair(q, seq![e.event_id])
                &&& forall|x: Seq<char>|
                    x != q ==> #[trigger] after.by_pipeline.contains_key(x) == m.by_pipeline.contains_key(x)
                        && after.by_pipeline[x] == m.by_pipeline[x]
                &&& forall|r: MetadataRefView|
                    !e.metadata_refs.contains(r) ==> #[trigger] after.by_ref.contains_key(r) == m.by_ref.contains_key(r)
                        && after.by_ref[r] == m.by_ref[r]
                &&& forall|r: MetadataRefView|
                    e.metadata_refs.contains(r) ==> #[trigger] after.by_ref.contains_key(r) && after.by_ref[r].last()
                        == e.event_id && (m.by_ref.contains_key(r) ==> m.by_ref[r].is_prefix_of(after.by_ref[r]))
            }
        }),
{
    assert(Seq::<Seq<char>>::empty().push(e.event_id) =~= seq![e.event_id]);
    lemma_refs_filed(m.by_ref, e.metadata_refs, e.event_id);
}

proof fn lemma_refs_filed(table: Map<MetadataRefView, Seq<Seq<char>>>, refs: Seq<MetadataRefView>, id: Seq<char>)
    ensures
        ({
            let after = listed_under_refs(table, refs, id);
            &&& forall|r: MetadataRefView|
                !refs.contains(r) ==> #[trigger] after.contains_key(r) == table.contains_key(r) && after[r] == table[r]
            &&& forall|r: MetadataRefView|
                refs.contains(r) ==> #[trigger] after.contains_key(r) && after[r].len() > 0 && after[r].last() == id
            &&& forall|r: MetadataRefView|
                table.contains_key(r) ==> #[trigger] after.contains_key(r) && table[r].is_prefix_of(after[r])
        }),
    decreases refs.len(),
{
    if refs.len() > 0 {
        let front = refs.drop_last();
        lemma_refs_filed(table, front, id);
        let after = listed_under_refs(table, refs, id);
        let sofar = listed_under_refs(table, front, id);
        assert(refs[refs.len() - 1] == refs.last());
        assert forall|r: MetadataRefView| !refs.contains(r) implies #[trigger] after.contains_key(r)
            == table.contains_key(r) && after[r] == table[r] by {
            if front.contains(r) {
                let k = choose|k: int| 0 <= k < front.len() && front[k] == r;
                assert(refs[k] == r);
            }
            assert(sofar.contains_key(r) == table.contains_key(r));
        }
        assert forall|r: MetadataRefView| refs.contains(r) implies #[trigger] after.contains_key(r) && after[r].len() > 0
            && after[r].last() == id by {
            if r != refs.last() {
                let k = choose|k: int| 0 <= k < refs.len() && refs[k] == r;
                assert(front[k] == r);
                assert(front.contains(r));
                assert(sofar.contains_key(r));
            }
        }
        assert forall|r: MetadataRefView| table.contains_key(r) implies #[trigger] after.contains_key(r)
            && table[r].is_prefix_of(after[r]) by {
            assert(sofar.contains_key(r));
        }
    }
}

/// The offer of an event is answered with the field that is missing, with a duplicate where
/// the identifier is known, and with acceptance otherwise.
pub proof fn law_offers_are_answered(m: HotIndexView, e: PipelineEventView, r: Result<IngestOutcome, IngestError>)
    requires
        ingest_result(m, e, r),
    ensures
        r is Err <==> empty_field(e) is Some,
        r matches Err(error) ==> empty_field(e) == Some(error->field@),
        r == Ok::<IngestOutcome, IngestError>(IngestOutcome::Duplicate) <==> empty_field(e) is None
            && m.events.contains_key(e.event_id),
        r == Ok::<IngestOutcome, IngestError>(IngestOutcome::Accepted) <==> empty_field(e) is None
            && !m.events.contains_key(e.event_id),
{
}

/// A time-range query selects the events from one instant to another, both included; an
/// instant that is left out sets no bound. Its answer holds such events only, and all of them
/// where its limit is no less than the number of events.
pub proof fn law_time_range_is_inclusive(
    m: HotIndexView,
    start: Option<Seq<char>>,
    end: Option<Seq<char>>,
    limit: nat,
    e: PipelineEventView,
)
    requires
        index_complete(m),
        m.events.len() <= limit,
    ensures
        events_between(m, start, end, limit).contains(e) <==> m.events.contains_pair(e.event_id, e) && (
        start is Some ==> e.timestamp == start->0 || text_before(start->0, e.timestamp)) && (end is Some ==> e.timestamp
            == end->0 || text_before(e.timestamp, end->0)),
{
    let keys = sorted::<EventId>(m.events.dom());
    let wanted = in_range(start, end);
    let found = selected(m.events, keys, wanted);
    let all = stable_sort(found, later());
    if start is Some {
        crate::ordered::text_before_connected(start->0, e.timestamp);
        lemma_one_way(start->0, e.timestamp);
    }
    if end is Some {
        crate::ordered::text_before_connected(end->0, e.timestamp);
        lemma_one_way(end->0, e.timestamp);
    }
    lemma_listing_exists::<EventId>(m.events.dom());
    lemma_listing_len::<EventId>(keys, m.events.dom());
    lemma_selected_members(m.events, keys, wanted);
    crate::ordered::lemma_stable_sort_multiset(found, later());
    if m.events.contains_pair(e.event_id, e) && wanted(e) {
        law_time_range_is_complete(m, start, end, e.event_id, limit);
    }
    if events_between(m, start, end, limit).contains(e) {
        broadcast use vstd::seq_lib::group_to_multiset_ensures;

        let k = choose|k: int|
            0 <= k < events_between(m, start, end, limit).len() && events_between(m, start, end, limit)[k] == e;
        assert(all[k] == e);
        assert(all.contains(e));
        assert(all.to_multiset().count(e) > 0);
        assert(found.contains(e));
        let j = lemma_selected_origin(m.events, keys, wanted, e);
        assert(m.events.dom().contains(keys[j]));
        assert(event_is_listed(m, keys[j]));
    }
}

proof fn lemma_one_way(a: Seq<char>, b: Seq<char>)
    ensures
        text_before(a, b) ==> !text_before(b, a) && a != b,
{
    if text_before(a, b) {
        crate::ordered::text_before_irreflexive(a);
        if text_before(b, a) {
            crate::ordered::text_before_transitive(a, b, a);
        }
    }
}

proof fn lemma_selected_origin<K, V>(m: Map<K, V>, keys: Seq<K>, wanted: spec_fn(V) -> bool, v: V) -> (j: int)
    requires
        selected(m, keys, wanted).contains(v),
    ensures
        0 <= j < keys.len(),
        m[keys[j]] == v,
        wanted(v),
    decreases keys.len(),
{
    let all = selected(m, keys, wanted);
    let i = choose|i: int| 0 <= i < all.len() && all[i] == v;
    if keys.len() == 0 {
        0
    } else {
        let sofar = selected(m, keys.drop_last(), wanted);
        if i < sofar.len() {
            assert(sofar[i] == v);
            lemma_selected_origin(m, keys.drop_last(), wanted, v)
        } else {
            keys.len() - 1
        }
    }
}

/// A query by pipeline holds instances of that pipeline, a query by status instances with
/// that status, and where the limit is no less than the number of instances each holds all of
/// them.
pub proof fn law_instances_are_exact(
    m: HotIndexView,
    pipeline: Seq<char>,
    status: ProcessStatus,
    limit: nat,
    p: ProcessView,
)
    requires
        index_complete(m),
        m.processes.len() <= limit,
    ensures
        matching_instances(m, of_pipeline(pipeline), limit).contains(p) <==> p.pipeline_id == pipeline && exists|
            k: Seq<char>,
        | #[trigger] m.processes.contains_pair(k, p),
        matching_instances(m, with_status(status), limit).contains(p) <==> p.status == status && exists|
            k: Seq<char>,
        | #[trigger] m.processes.contains_pair(k, p),
{
    lemma_instances_exact(m, of_pipeline(pipeline), limit, p);
    lemma_instances_exact(m, with_status(status), limit, p);
}

proof fn lemma_instances_exact(m: HotIndexView, wanted: spec_fn(ProcessView) -> bool, limit: nat, p: ProcessView)
    requires
        index_complete(m),
        m.processes.len() <= limit,
    ensures
        matching_instances(m, wanted, limit).contains(p) <==> wanted(p) && exists|k: Seq<char>| #[trigger]
            m.processes.contains_pair(k, p),
{
    let keys = process_keys(m);
    let all = selected(m.processes, keys, wanted);
    lemma_listing_exists::<ProcessInstanceId>(m.processes.dom());
    lemma_listing_len::<ProcessInstanceId>(keys, m.processes.dom());
    lemma_selected_members(m.processes, keys, wanted);
    assert(first_n(all, limit) =~= all);
    if wanted(p) && exists|k: Seq<char>| #[trigger] m.processes.contains_pair(k, p) {
        let k = choose|k: Seq<char>| #[trigger] m.processes.contains_pair(k, p);
        law_instances_are_complete(m, wanted, k, limit);
    }
    if all.contains(p) {
        let j = lemma_selected_origin(m.processes, keys, wanted, p);
        assert(m.processes.dom().contains(keys[j]));
        assert(m.processes.contains_pair(keys[j], p));
    }
}

/// Events of a list are answered in the order in which they came, the first ones of the
/// list, as many as are wanted and there are.
pub proof fn law_listed_events_come_in_order<K>(m: HotIndexView, table: Map<K, Seq<Seq<char>>>, key: K, limit: nat)
    requires
        table.contains_key(key),
        forall|i: int| 0 <= i < table[key].len() ==> m.events.contains_key(#[trigger] table[key][i]),
    ensures
        ({
            let answer = listed_events(m, table, key, limit);
            &&& answer.len() <= limit && answer.len() <= table[key].len()
            &&& answer.len() == limit || answer.len() == table[key].len()
            &&& forall|i: int| 0 <= i < answer.len() ==> #[trigger] answer[i] == m.events[table[key][i]]
        }),
{
    let listed = first_n(table[key], limit);
    assert forall|i: int| 0 <= i < listed.len() implies m.events.contains_key(#[trigger] listed[i]) by {
        assert(listed[i] == table[key][i]);
    }
    crate::ordered::lemma_looked_up_all(m.events, listed);
}

/// An index that is new holds nothing.
pub proof fn law_empty_index(id: Seq<char>, r: MetadataRefView)
    ensures
        !empty_index().events.contains_key(id),
        !empty_index().processes.contains_key(id),
        !empty_index().by_process.contains_key(id),
        !empty_index().by_pipeline.contains_key(id),
        !empty_index().by_ref.contains_key(r),
        empty_index().duplicate_events == 0,
{
}

} // verus!
