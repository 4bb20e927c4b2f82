//! The background writer, which drains the metadata outbox target by target.

use vstd::prelude::*;
use crate::cluster::{latest_map, ClusterControlState, NodeId};
use crate::durable_outbox::DurableOutboxView;
use crate::ipto::IptoInstanceId;
use crate::ordered::views;
use crate::outbox::{drained, IptoWriter, MetadataOutboxDrainSummary};
use crate::placement::map_targets;
use crate::service::{holds_lease, ServiceView, VannakService};

verus! {

/// Settings of the background writer; times are in milliseconds.
#[derive(Debug, Clone, Copy, PartialEq, Eq)]
pub struct BackgroundWriterConfig {
    /// Time between two cycles.
    pub interval_millis: u64,
    /// The most delivery attempts in one cycle for one target.
    pub max_drain_attempts_per_target: usize,
    /// Whether the summaries of cycles are logged.
    pub verbose: bool,
}

impl Default for BackgroundWriterConfig {
    fn default() -> (r: Self)
        ensures
            r.interval_millis == 5_000,
            r.max_drain_attempts_per_target == 100,
            !r.verbose,
    {
        BackgroundWriterConfig { interval_millis: 5_000, max_drain_attempts_per_target: 100, verbose: false }
    }
}

/// What the background writer has done.
#[derive(Debug, PartialEq, Eq)]
pub struct BackgroundWriterSnapshot {
    /// Cycles begun.
    pub cycles: u64,
    /// Deliveries acknowledged.
    pub total_acknowledged: usize,
    /// Deliveries failed.
    pub total_failed: usize,
    /// The last cycle, once the writer has stopped.
    pub current_cycle: Option<u64>,
    /// The summaries of the last cycle in which anything was attempted.
    pub last_summary: Option<Vec<(IptoInstanceId, MetadataOutboxDrainSummary)>>,
}

/// The view of what the background writer has done.
pub struct WriterView {
    pub cycles: u64,
    pub total_acknowledged: usize,
    pub total_failed: usize,
    pub current_cycle: Option<u64>,
    pub last_summary: Option<Seq<(Seq<char>, MetadataOutboxDrainSummary)>>,
}

/// The view of the summaries of a cycle.
pub open spec fn cycle_view(cycle: Seq<(IptoInstanceId, MetadataOutboxDrainSummary)>) -> Seq<
    (Seq<char>, MetadataOutboxDrainSummary),
> {
    Seq::new(cycle.len(), |i: int| (cycle[i].0@, cycle[i].1))
}

impl View for BackgroundWriterSnapshot {
    type V = WriterView;

    open spec fn view(&self) -> WriterView {
        WriterView {
            cycles: self.cycles,
            total_acknowledged: self.total_acknowledged,
            total_failed: self.total_failed,
            current_cycle: self.current_cycle,
            last_summary: match self.last_summary {
                Some(cycle) => Some(cycle_view(cycle@)),
                None => None,
            },
        }
    }
}

impl Default for BackgroundWriterSnapshot {
    fn default() -> (r: Self)
        ensures
            r@ == (WriterView {
                cycles: 0,
                total_acknowledged: 0,
                total_failed: 0,
                current_cycle: None,
                last_summary: None,
            }),
    {
        BackgroundWriterSnapshot {
            cycles: 0,
            total_acknowledged: 0,
            total_failed: 0,
            current_cycle: None,
            last_summary: None,
        }
    }
}

impl Clone for BackgroundWriterSnapshot {
    fn clone(&self) -> (r: Self)
        ensures
            r@ == self@,
    {
        let last_summary = match &self.last_summary {
            None => None,
            Some(cycle) => {
                let mut copy: Vec<(IptoInstanceId, MetadataOutboxDrainSummary)> = Vec::new();
                let mut i: usize = 0;
                while i < cycle.len()
                    invariant
                        i <= cycle.len(),
                        copy.len() == i,
                        forall|j: int|
                            0 <= j < i ==> (#[trigger] copy@[j]).0@ == cycle@[j].0@ && copy@[j].1 == cycle@[j].1,
                    decreases cycle.len() - i,
                {
                    copy.push((cycle[i].0.clone(), cycle[i].1));
                    i += 1;
                }
                assert(cycle_view(copy@) =~= cycle_view(cycle@));
                Some(copy)
            },
        };
        BackgroundWriterSnapshot {
            cycles: self.cycles,
            total_acknowledged: self.total_acknowledged,
            total_failed: self.total_failed,
            current_cycle: self.current_cycle,
            last_summary,
        }
    }
}

/// A number with another added to it, as far as the numbers reach.
pub open spec fn capped_sum(a: usize, b: usize) -> usize {
    if a + b <= usize::MAX {
        (a + b) as usize
    } else {
        usize::MAX
    }
}

/// What the writer has done, with the summary of one more drain; one in which nothing was
/// attempted does not count.
pub open spec fn with_drain(w: WriterView, s: MetadataOutboxDrainSummary) -> WriterView {
    if s.attempted == 0 {
        w
    } else {
        WriterView {
            total_acknowledged: capped_sum(w.total_acknowledged, s.acknowledged),
            total_failed: capped_sum(w.total_failed, s.failed),
            ..w
        }
    }
}

/// The summaries of a cycle with one more.
pub open spec fn noted(
    cycle: Seq<(Seq<char>, MetadataOutboxDrainSummary)>,
    target: Seq<char>,
    s: MetadataOutboxDrainSummary,
) -> Seq<(Seq<char>, MetadataOutboxDrainSummary)> {
    if s.attempted == 0 {
        cycle
    } else {
        cycle.push((target, s))
    }
}

/// The targets of the latest placement, each once: every instance on which it can place a
/// shard.
pub fn drain_targets(control: &ClusterControlState) -> (r: Vec<IptoInstanceId>)
    ensures
        views(r@) == (match latest_map(control@.placement_maps) {
            Some(map) => map_targets(map),
            None => Seq::empty(),
        }),
{
    match control.placement_map() {
        Some(map) => map.targets(),
        None => {
            let none: Vec<IptoInstanceId> = Vec::new();
            assert(views(none@) =~= Seq::<Seq<char>>::empty());
            none
        },
    }
}

impl BackgroundWriterSnapshot {
    /// Begins a cycle.
    pub fn begin_cycle(&mut self)
        ensures
            final(self)@ == (WriterView { cycles: crate::index::one_more(old(self)@.cycles), ..old(self)@ }),
    {
        self.cycles = self.cycles.saturating_add(1);
    }

    /// Drains one target, if the node holds its writer lease, and notes what came of it.
    pub fn drain_target<W: IptoWriter + ?Sized>(
        &mut self,
        cycle: &mut Vec<(IptoInstanceId, MetadataOutboxDrainSummary)>,
        service: &mut VannakService,
        control: &ClusterControlState,
        node_id: &NodeId,
        target: &IptoInstanceId,
        writer: &mut W,
        max_attempts: usize,
    )
        ensures
            if holds_lease(control@, node_id@, target@) {
                &&& final(service)@ == (ServiceView {
                    outbox: DurableOutboxView { outbox: final(service)@.outbox.outbox, ..old(service)@.outbox },
                    ..old(service)@
                })
                &&& exists|summary: MetadataOutboxDrainSummary|
                    {
                        &&& #[trigger] drained(
                            old(service)@.outbox.outbox,
                            Some(target@),
                            old(writer).attempts(),
                            final(service)@.outbox.outbox,
                            final(writer).attempts(),
                            summary,
                            max_attempts as nat,
                        )
                        &&& final(self)@ == with_drain(old(self)@, summary)
                        &&& cycle_view(final(cycle)@) == noted(cycle_view(old(cycle)@), target@, summary)
                    }
            } else {
                &&& final(service)@ == old(service)@
                &&& final(writer).attempts() == old(writer).attempts()
                &&& final(self)@ == old(self)@
                &&& cycle_view(final(cycle)@) == cycle_view(old(cycle)@)
            },
    {
        match service.drain_metadata_for_target_if_lease_held(control, node_id, target, writer, max_attempts) {
            Ok(summary) => {
                if !summary.is_empty() {
                    self.total_acknowledged = self.total_acknowledged.saturating_add(summary.acknowledged);
                    self.total_failed = self.total_failed.saturating_add(summary.failed);
                    let ghost before = cycle@;
                    cycle.push((target.clone(), summary));
                    assert(cycle_view(cycle@) =~= cycle_view(before).push((target@, summary)));
                }
                assert(drained(
                    old(service)@.outbox.outbox,
                    Some(target@),
                    old(writer).attempts(),
                    service@.outbox.outbox,
                    writer.attempts(),
                    summary,
                    max_attempts as nat,
                ));
            },
            Err(_) => {},
        }
    }

    /// Ends a cycle: its summaries are kept, if there are any.
    pub fn end_cycle(&mut self, cycle: Vec<(IptoInstanceId, MetadataOutboxDrainSummary)>)
        ensures
            final(self)@ == (if cycle@.len() == 0 {
                old(self)@
            } else {
                WriterView { last_summary: Some(cycle_view(cycle@)), ..old(self)@ }
            }),
    {
        if cycle.len() > 0 {
            self.last_summary = Some(cycle);
        }
    }

    /// Notes that the writer has stopped.
    pub fn stop(&mut self)
        ensures
            final(self)@ == (WriterView { current_cycle: Some(old(self)@.cycles), ..old(self)@ }),
    {
        self.current_cycle = Some(self.cycles);
    }
}

// ---------------------------------------------------------------------------
// Laws
// ---------------------------------------------------------------------------

/// A drain that made no attempt leaves no trace; any other is added to the totals, which stop
/// at the largest number, and is noted behind the earlier ones of the cycle.
pub proof fn law_drains_are_totalled(
    w: WriterView,
    cycle: Seq<(Seq<char>, MetadataOutboxDrainSummary)>,
    target: Seq<char>,
    s: MetadataOutboxDrainSummary,
)
    ensures
        s.attempted == 0 ==> with_drain(w, s) == w && noted(cycle, target, s) == cycle,
        s.attempted > 0 ==> {
            let after = with_drain(w, s);
            &&& w.total_acknowledged + s.acknowledged <= usize::MAX ==> after.total_acknowledged == w.total_acknowledged
                + s.acknowledged
            &&& w.total_acknowledged + s.acknowledged > usize::MAX ==> after.total_acknowledged == usize::MAX
            &&& w.total_failed + s.failed <= usize::MAX ==> after.total_failed == w.total_failed + s.failed
            &&& w.total_failed + s.failed > usize::MAX ==> after.total_failed == usize::MAX
            &&& after.cycles == w.cycles && after.current_cycle == w.current_cycle && after.last_summary
                == w.last_summary
            &&& noted(cycle, target, s) == cycle.push((target, s))
        },
{
}

} // verus!
