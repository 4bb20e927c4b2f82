//! Rebalancing after a change of placement.
//!
//! Two placement maps are compared for the ranges of shards that changed their owner, and
//! the payloads of these ranges are delivered again through the writer of the new owner.

use vstd::prelude::*;
use crate::cluster::{latest_map, ClusterControlState};
use crate::data::DataIndividualShardId;
use crate::durable_outbox::{
    rebalance_shard_range_to, rebalanced, replay_segment, MetadataOutboxRebalanceSummary, MetadataOutboxStorageError,
    OutboxErrorView, Selection,
};
use crate::ipto::IptoInstanceId;
use crate::ordered::opt_view;
use crate::outbox::{Attempt, IptoWriter};
use crate::placement::{owner, IptoPlacementMap, PlacementEpoch, PlacementMapView};
use crate::text::str_eq;
use crate::wire::copy_range;

verus! {

// ---------------------------------------------------------------------------
// Changes of placement
// ---------------------------------------------------------------------------

/// First shard, last shard, the old owner of the shards, and their new owner.
pub type MovedRange = (DataIndividualShardId, DataIndividualShardId, IptoInstanceId, IptoInstanceId);

/// The ranges of shards that changed their owner from one placement map to another.
#[derive(Debug, PartialEq, Eq)]
pub struct PlacementChange {
    /// The epoch of the previous map.
    pub from_epoch: PlacementEpoch,
    /// The epoch of the new map.
    pub to_epoch: PlacementEpoch,
    /// First shard, last shard, the old owner of the shards, and their new owner.
    pub moved_ranges: Vec<MovedRange>,
}

/// A moved range: first shard, last shard, the old owner of its shards, and their new owner.
pub struct MoveView {
    pub start: u64,
    pub end: u64,
    pub from: Seq<char>,
    pub to: Seq<char>,
}

/// The view of a change of placement.
pub struct ChangeView {
    pub from_epoch: u64,
    pub to_epoch: u64,
    pub moves: Seq<MoveView>,
}

/// The view of a moved range.
pub open spec fn move_view(m: MovedRange) -> MoveView {
    MoveView { start: m.0@, end: m.1@, from: m.2@, to: m.3@ }
}

/// The view of a range that is still reached.
pub open spec fn open_view(m: Option<MovedRange>) -> Option<MoveView> {
    match m {
        Some(m) => Some(move_view(m)),
        None => None,
    }
}

/// The views of moved ranges.
pub open spec fn move_views(moves: Seq<MovedRange>) -> Seq<MoveView> {
    Seq::new(moves.len(), |i: int| move_view(moves[i]))
}

impl View for PlacementChange {
    type V = ChangeView;

    open spec fn view(&self) -> ChangeView {
        ChangeView {
            from_epoch: self.from_epoch@,
            to_epoch: self.to_epoch@,
            moves: move_views(self.moved_ranges@),
        }
    }
}

impl Clone for PlacementChange {
    fn clone(&self) -> (r: Self)
        ensures
            r@ == self@,
    {
        let mut moved: Vec<MovedRange> = Vec::new();
        let mut i: usize = 0;
        while i < self.moved_ranges.len()
            invariant
                i <= self.moved_ranges.len(),
                moved.len() == i,
                forall|j: int| 0 <= j < i ==> move_view(#[trigger] moved@[j]) == move_view(self.moved_ranges@[j]),
            decreases self.moved_ranges.len() - i,
        {
            let m = &self.moved_ranges[i];
            moved.push((m.0, m.1, m.2.clone(), m.3.clone()));
            i += 1;
        }
        assert(move_views(moved@) =~= move_views(self.moved_ranges@));
        PlacementChange { from_epoch: self.from_epoch, to_epoch: self.to_epoch, moved_ranges: moved }
    }
}

impl PlacementChange {
    /// Whether no shard moved.
    pub fn is_empty(&self) -> (r: bool)
        ensures
            r == (self@.moves.len() == 0),
    {
        self.moved_ranges.len() == 0
    }
}

/// The owner that a shard leaves and the one to which it moves, if its owner changes.
pub open spec fn moved(from: PlacementMapView, to: PlacementMapView, shard: u64) -> Option<(Seq<char>, Seq<char>)> {
    match (owner(from, shard), owner(to, shard)) {
        (Some(a), Some(b)) => if a != b {
            Some((a, b))
        } else {
            None
        },
        _ => None,
    }
}

/// Whether every shard of a range moves from the same old owner to the same new one.
pub open spec fn is_move(from: PlacementMapView, to: PlacementMapView, m: MoveView) -> bool {
    &&& m.start <= m.end
    &&& m.from != m.to
    &&& forall|x: u64|
        m.start <= x <= m.end ==> #[trigger] owner(from, x) == Some(m.from) && owner(to, x) == Some(m.to)
}

/// Whether a range holds a shard.
pub open spec fn move_holds(m: MoveView, shard: u64) -> bool {
    m.start <= shard <= m.end
}

/// Whether two ranges move from the same owner to the same owner.
pub open spec fn same_owners(a: MoveView, b: MoveView) -> bool {
    a.from == b.from && a.to == b.to
}

/// Whether ranges are the moves of the shards below a limit: they come in order, they hold
/// every shard that moves and no other one, and those that touch differ in an owner.
#[verifier::opaque]
pub open spec fn moves_below(from: PlacementMapView, to: PlacementMapView, moves: Seq<MoveView>, limit: int) -> bool {
    &&& forall|i: int| 0 <= i < moves.len() ==> is_move(from, to, #[trigger] moves[i]) && moves[i].end < limit
    &&& forall|i: int, j: int| 0 <= i < j < moves.len() ==> (#[trigger] moves[i]).end < (#[trigger] moves[j]).start
    &&& forall|i: int|
        0 < i < moves.len() ==> moves[i - 1].end + 1 < (#[trigger] moves[i]).start || !same_owners(
            moves[i - 1],
            moves[i],
        )
    &&& forall|x: u64|
        x < limit && #[trigger] moved(from, to, x) is Some ==> exists|i: int|
            0 <= i < moves.len() && #[trigger] move_holds(moves[i], x)
}

/// Whether ranges are the moves from one placement to another.
pub open spec fn describes_moves(from: PlacementMapView, to: PlacementMapView, moves: Seq<MoveView>) -> bool {
    moves_below(from, to, moves, u64::MAX + 1)
}

/// Whether the shards below a limit have been looked at: `closed` are the ranges that ended,
/// `open` is the one that reaches the limit.
pub open spec fn looked_at(
    from: PlacementMapView,
    to: PlacementMapView,
    closed: Seq<MoveView>,
    open: Option<MoveView>,
    limit: int,
) -> bool {
    match open {
        None => {
            &&& moves_below(from, to, closed, limit)
            &&& closed.len() > 0 ==> closed.last().end + 1 < limit
        },
        Some(m) => {
            &&& m.end == limit - 1
            &&& moves_below(from, to, closed.push(m), limit)
        },
    }
}

proof fn lemma_closed(from: PlacementMapView, to: PlacementMapView, closed: Seq<MoveView>, open: Option<MoveView>, limit: int)
    requires
        looked_at(from, to, closed, open, limit),
    ensures
        moves_below(
            from,
            to,
            match open {
                None => closed,
                Some(m) => closed.push(m),
            },
            limit,
        ),
{
}

proof fn lemma_nothing(from: PlacementMapView, to: PlacementMapView)
    ensures
        looked_at(from, to, Seq::empty(), None, 0),
{
    reveal(moves_below);
}

proof fn lemma_quiet(from: PlacementMapView, to: PlacementMapView, moves: Seq<MoveView>, limit: int, next: int)
    requires
        0 <= limit < next,
        moves_below(from, to, moves, limit),
        forall|x: u64| limit <= x < next ==> #[trigger] moved(from, to, x) is None,
    ensures
        looked_at(from, to, moves, None, next),
{
    reveal(moves_below);
    if moves.len() > 0 {
        assert(moves.last().end < limit);
    }
}

proof fn lemma_joined(from: PlacementMapView, to: PlacementMapView, closed: Seq<MoveView>, m: MoveView, next: int)
    requires
        m.end + 1 < next <= u64::MAX + 1,
        moves_below(from, to, closed.push(m), m.end + 1),
        forall|x: u64| m.end < x < next ==> #[trigger] moved(from, to, x) == Some((m.from, m.to)),
    ensures
        moves_below(from, to, closed.push(MoveView { end: (next - 1) as u64, ..m }), next),
{
    reveal(moves_below);
    let longer = MoveView { end: (next - 1) as u64, ..m };
    let (a, b) = (closed.push(m), closed.push(longer));
    let n = closed.len() as int;
    assert(a[n] == m && b[n] == longer);
    assert(is_move(from, to, a[n]));
    assert forall|i: int| 0 <= i < b.len() implies is_move(from, to, #[trigger] b[i]) && b[i].end < next by {
        assert(is_move(from, to, a[i]) && a[i].end < m.end + 1);
        if i == n {
            assert forall|x: u64| longer.start <= x <= longer.end implies #[trigger] owner(from, x) == Some(m.from)
                && owner(to, x) == Some(m.to) by {
                if m.end < x {
                    assert(moved(from, to, x) == Some((m.from, m.to)));
                }
            }
        }
    }
    assert forall|i: int, j: int| 0 <= i < j < b.len() implies (#[trigger] b[i]).end < (#[trigger] b[j]).start by {
        assert(a[i].end < a[j].start);
    }
    assert forall|i: int| 0 < i < b.len() implies b[i - 1].end + 1 < (#[trigger] b[i]).start || !same_owners(
        b[i - 1],
        b[i],
    ) by {
        assert(a[i - 1].end + 1 < a[i].start || !same_owners(a[i - 1], a[i]));
    }
    assert forall|x: u64| x < next && #[trigger] moved(from, to, x) is Some implies exists|i: int|
        0 <= i < b.len() && #[trigger] move_holds(b[i], x) by {
        if x <= m.end {
            let i = choose|i: int| 0 <= i < a.len() && #[trigger] move_holds(a[i], x);
            assert(move_holds(b[i], x));
        } else {
            assert(move_holds(b[n], x));
        }
    }
}

proof fn lemma_begun(from: PlacementMapView, to: PlacementMapView, moves: Seq<MoveView>, m: MoveView)
    requires
        moves_below(from, to, moves, m.start as int),
        is_move(from, to, m),
        moves.len() > 0 ==> moves.last().end + 1 < m.start || !same_owners(moves.last(), m),
    ensures
        moves_below(from, to, moves.push(m), m.end + 1),
{
    reveal(moves_below);
    let b = moves.push(m);
    let n = moves.len() as int;
    assert forall|i: int| 0 <= i < b.len() implies is_move(from, to, #[trigger] b[i]) && b[i].end < m.end + 1 by {
        if i < n {
            assert(is_move(from, to, moves[i]) && moves[i].end < m.start);
        }
    }
    assert forall|i: int, j: int| 0 <= i < j < b.len() implies (#[trigger] b[i]).end < (#[trigger] b[j]).start by {
        if j < n {
            assert(moves[i].end < moves[j].start);
        } else {
            assert(moves[i].end < m.start);
        }
    }
    assert forall|i: int| 0 < i < b.len() implies b[i - 1].end + 1 < (#[trigger] b[i]).start || !same_owners(
        b[i - 1],
        b[i],
    ) by {
        if i < n {
            assert(moves[i - 1].end + 1 < moves[i].start || !same_owners(moves[i - 1], moves[i]));
        }
    }
    assert forall|x: u64| x < m.end + 1 && #[trigger] moved(from, to, x) is Some implies exists|i: int|
        0 <= i < b.len() && #[trigger] move_holds(b[i], x) by {
        if x < m.start {
            let i = choose|i: int| 0 <= i < moves.len() && #[trigger] move_holds(moves[i], x);
            assert(move_holds(b[i], x));
        } else {
            assert(move_holds(b[n], x));
        }
    }
}

/// The ranges of shards that changed their owner. A range reaches as far as the shards
/// move from the same old owner to the same new one.
pub fn detect_placement_change(from_map: &IptoPlacementMap, to_map: &IptoPlacementMap) -> (r: PlacementChange)
    ensures
        r@.from_epoch == from_map@.epoch,
        r@.to_epoch == to_map@.epoch,
        describes_moves(from_map@, to_map@, r@.moves),
{
    let ghost (from, to) = (from_map@, to_map@);
    let mut closed: Vec<MovedRange> = Vec::new();
    let mut open: Option<MovedRange> = None;
    let mut shard: u64 = 0;
    let mut finished = false;
    proof {
        lemma_nothing(from, to);
        assert(move_views(closed@) =~= Seq::<MoveView>::empty());
    }
    while !finished
        invariant
            from == from_map@,
            to == to_map@,
            looked_at(
                from,
                to,
                move_views(closed@),
                open_view(open),
                if finished {
                    u64::MAX + 1
                } else {
                    shard as int
                },
            ),
        decreases
                if finished {
                    0int
                } else {
                    u64::MAX - shard + 1
                },
    {
        let ghost before = move_views(closed@);
        let ghost reached = open_view(open);
        let sid = DataIndividualShardId(shard);
        let from_end: u64 = from_map.stretch_end(sid).0;
        let to_end: u64 = to_map.stretch_end(sid).0;
        let end: u64 = if from_end < to_end {
            from_end
        } else {
            to_end
        };
        let ghost all = match reached {
            None => before,
            Some(m) => before.push(m),
        };
        proof {
            lemma_closed(from, to, before, reached, shard as int);
            assert forall|x: u64| shard <= x <= end implies #[trigger] moved(from, to, x) == moved(
                from,
                to,
                shard,
            ) by {
                assert(owner(from, x) == owner(from, shard));
                assert(owner(to, x) == owner(to, shard));
            }
        }
        let owners: Option<(IptoInstanceId, IptoInstanceId)> = match (from_map.resolve(sid), to_map.resolve(sid)) {
            (Some(old_target), Some(new_target)) => if str_eq(old_target.as_str(), new_target.as_str()) {
                None
            } else {
                Some((old_target.clone(), new_target.clone()))
            },
            _ => None,
        };
        match owners {
            None => {
                if let Some(m) = open {
                    let ghost view = move_view(m);
                    closed.push(m);
                    assert(move_views(closed@) =~= before.push(view));
                }
                open = None;
                proof {
                    lemma_quiet(from, to, all, shard as int, end + 1);
                }
            },
            Some((old_target, new_target)) => {
                let ghost begun = MoveView { start: shard, end, from: old_target@, to: new_target@ };
                assert(is_move(from, to, begun));
                match open {
                    Some(m) => {
                        let ghost view = move_view(m);
                        if str_eq(m.2.as_str(), old_target.as_str()) && str_eq(m.3.as_str(), new_target.as_str()) {
                            let longer = (m.0, DataIndividualShardId(end), m.2, m.3);
                            proof {
                                lemma_joined(from, to, before, view, end + 1);
                                assert(move_view(longer) == MoveView { end, ..view });
                            }
                            open = Some(longer);
                        } else {
                            closed.push(m);
                            let next = (sid, DataIndividualShardId(end), old_target, new_target);
                            proof {
                                assert(move_views(closed@) =~= before.push(view));
                                lemma_begun(from, to, before.push(view), begun);
                                assert(move_view(next) == begun);
                            }
                            open = Some(next);
                        }
                    },
                    None => {
                        let next = (sid, DataIndividualShardId(end), old_target, new_target);
                        proof {
                            lemma_begun(from, to, before, begun);
                            assert(move_view(next) == begun);
                        }
                        open = Some(next);
                    },
                }
            },
        }
        if end == u64::MAX {
            finished = true;
        } else {
            shard = end + 1;
        }
    }
    proof {
        lemma_closed(
            from,
            to,
            move_views(closed@),
            open_view(open),
            u64::MAX + 1,
        );
    }
    if let Some(m) = open {
        let ghost before = move_views(closed@);
        let ghost view = move_view(m);
        closed.push(m);
        assert(move_views(closed@) =~= before.push(view));
    }
    PlacementChange { from_epoch: from_map.epoch(), to_epoch: to_map.epoch(), moved_ranges: closed }
}

// ---------------------------------------------------------------------------
// Rebalancing
// ---------------------------------------------------------------------------

/// What rebalancing did for one moved range.
#[derive(Debug, Clone, PartialEq, Eq)]
pub struct RebalanceOutcome {
    pub placement_change: PlacementChange,
    pub drain_summary: MetadataOutboxRebalanceSummary,
}

/// What the replay of the segment for a moved range is refused with.
pub open spec fn range_refusal(segment: Seq<u8>, m: MoveView) -> Option<OutboxErrorView> {
    match replay_segment(segment, Selection::Shards(m.start, m.end)) {
        Ok(_) => None,
        Err(e) => Some(e),
    }
}

/// Whether the first of the moved ranges have been drained one after another: `history`
/// tells the attempts made before each of them and behind the last.
pub open spec fn rebalanced_in_turn(
    segment: Seq<u8>,
    moves: Seq<MoveView>,
    history: Seq<Seq<Attempt>>,
    summaries: Seq<MetadataOutboxRebalanceSummary>,
    max_attempts: nat,
) -> bool {
    &&& summaries.len() <= moves.len()
    &&& history.len() == summaries.len() + 1
    &&& forall|i: int|
        0 <= i < summaries.len() ==> rebalanced(
            segment,
            moves[i].start,
            moves[i].end,
            history[i],
            #[trigger] summaries[i],
            history[i + 1],
            max_attempts,
        )
}

/// Whether the first of the moved ranges have been drained one after another, and the
/// attempts went from some to others meanwhile.
pub open spec fn rebalanced_between(
    segment: Seq<u8>,
    moves: Seq<MoveView>,
    before: Seq<Attempt>,
    summaries: Seq<MetadataOutboxRebalanceSummary>,
    after: Seq<Attempt>,
    max_attempts: nat,
) -> bool {
    exists|history: Seq<Seq<Attempt>>|
        {
            &&& #[trigger] rebalanced_in_turn(segment, moves, history, summaries, max_attempts)
            &&& history[0] == before
            &&& history.last() == after
        }
}

/// The summaries of outcomes.
pub open spec fn summaries_of(outcomes: Seq<RebalanceOutcome>) -> Seq<MetadataOutboxRebalanceSummary> {
    Seq::new(outcomes.len(), |i: int| outcomes[i].drain_summary)
}

/// Delivers the payloads of the moved ranges, read from the outbox segment, range by range,
/// until the replay of one fails.
pub fn rebalance_after_placement_change<W: IptoWriter + ?Sized>(
    segment: &Vec<u8>,
    change: &PlacementChange,
    writer: &mut W,
    max_attempts: usize,
) -> (r: Result<Vec<RebalanceOutcome>, MetadataOutboxStorageError>)
    ensures
        match r {
            Ok(outcomes) => {
                &&& outcomes@.len() == change@.moves.len()
                &&& forall|i: int| 0 <= i < outcomes@.len() ==> (#[trigger] outcomes@[i]).placement_change@ == change@
                &&& rebalanced_between(
                    segment@,
                    change@.moves,
                    old(writer).attempts(),
                    summaries_of(outcomes@),
                    final(writer).attempts(),
                    max_attempts as nat,
                )
            },
            Err(e) => exists|summaries: Seq<MetadataOutboxRebalanceSummary>|
                {
                    &&& #[trigger] rebalanced_between(
                        segment@,
                        change@.moves,
                        old(writer).attempts(),
                        summaries,
                        final(writer).attempts(),
                        max_attempts as nat,
                    )
                    &&& summaries.len() < change@.moves.len()
                    &&& range_refusal(segment@, change@.moves[summaries.len() as int]) == Some(e@)
                },
        },
{
    let mut outcomes: Vec<RebalanceOutcome> = Vec::new();
    let ghost mut history: Seq<Seq<Attempt>> = seq![writer.attempts()];
    let ghost moves = change@.moves;
    let ghost first = writer.attempts();
    let mut i: usize = 0;
    while i < change.moved_ranges.len()
        invariant
            i <= change.moved_ranges.len(),
            moves == change@.moves,
            outcomes.len() == i,
            forall|j: int| 0 <= j < i ==> (#[trigger] outcomes@[j]).placement_change@ == change@,
            rebalanced_in_turn(segment@, moves, history, summaries_of(outcomes@), max_attempts as nat),
            history[0] == first,
            first == old(writer).attempts(),
            history.last() == writer.attempts(),
        decreases change.moved_ranges.len() - i,
    {
        let start = change.moved_ranges[i].0;
        let end = change.moved_ranges[i].1;
        assert(moves[i as int] == move_view(change.moved_ranges@[i as int]));
        let ghost done = summaries_of(outcomes@);
        let ghost before = outcomes@;
        let bytes = copy_range(segment.as_slice(), 0, segment.len());
        assert(bytes@ =~= segment@);
        match rebalance_shard_range_to(bytes, start, end, writer, max_attempts) {
            Ok(summary) => {
                proof {
                    let longer = history.push(writer.attempts());
                    let more = done.push(summary);
                    assert forall|j: int| 0 <= j < more.len() implies rebalanced(
                        segment@,
                        moves[j].start,
                        moves[j].end,
                        longer[j],
                        #[trigger] more[j],
                        longer[j + 1],
                        max_attempts as nat,
                    ) by {
                        if j < done.len() {
                            assert(done[j] == more[j]);
                        }
                    }
                    history = longer;
                }
                outcomes.push(RebalanceOutcome { placement_change: change.clone(), drain_summary: summary });
                assert(summaries_of(outcomes@) =~= done.push(summary));
            },
            Err(e) => {
                assert(rebalanced_between(segment@, moves, first, done, writer.attempts(), max_attempts as nat));
                return Err(e);
            },
        }
        i += 1;
    }
    assert(rebalanced_between(
        segment@,
        moves,
        first,
        summaries_of(outcomes@),
        writer.attempts(),
        max_attempts as nat,
    ));
    Ok(outcomes)
}

/// Settings of the monitor that rebalances when the placement changes; times are in
/// milliseconds.
#[derive(Debug, Clone, PartialEq, Eq)]
pub struct RebalanceMonitorConfig {
    /// Time between two looks at the placement.
    pub check_interval_millis: u64,
    /// The most delivery attempts for one moved range.
    pub max_drain_attempts: usize,
    /// Path of the outbox segment.
    pub outbox_segment_path: String,
}

impl Default for RebalanceMonitorConfig {
    fn default() -> (r: Self)
        ensures
            r.check_interval_millis == 30_000,
            r.max_drain_attempts == 100,
            r.outbox_segment_path@ == "outbox.seg"@,
    {
        RebalanceMonitorConfig {
            check_interval_millis: 30_000,
            max_drain_attempts: 100,
            outbox_segment_path: "outbox.seg".to_owned(),
        }
    }
}

/// Remembers the placement that was seen last.
#[derive(Debug)]
pub struct RebalanceMonitor {
    last_epoch: Option<PlacementEpoch>,
}

impl View for RebalanceMonitor {
    type V = Option<u64>;

    closed spec fn view(&self) -> Option<u64> {
        opt_view(self.last_epoch)
    }
}

impl RebalanceMonitor {
    /// A monitor that has seen no placement.
    pub fn new() -> (r: Self)
        ensures
            r@ == None::<u64>,
    {
        RebalanceMonitor { last_epoch: None }
    }

    /// Looks at the placement: the change since the last look, if there is one and the
    /// placement seen last is still known.
    pub fn check(&mut self, control: &ClusterControlState) -> (r: Option<PlacementChange>)
        ensures
            final(self)@ == (match latest_map(control@.placement_maps) {
                Some(map) => Some(map.epoch),
                None => old(self)@,
            }),
            match (latest_map(control@.placement_maps), old(self)@) {
                (Some(map), Some(last)) if last != map.epoch && control@.placement_maps.contains_key(last) => match r {
                    Some(change) => {
                        &&& change@.from_epoch == control@.placement_maps[last].epoch
                        &&& change@.to_epoch == map.epoch
                        &&& change@.moves.len() > 0
                        &&& describes_moves(control@.placement_maps[last], map, change@.moves)
                    },
                    None => describes_moves(control@.placement_maps[last], map, Seq::empty()),
                },
                _ => r is None,
            },
    {
        let map = match control.placement_map() {
            Some(map) => map,
            None => return None,
        };
        let epoch = map.epoch();
        let last = self.last_epoch;
        self.last_epoch = Some(epoch);
        match last {
            None => None,
            Some(last) => {
                if last.0 == epoch.0 {
                    return None;
                }
                match control.placement_map_history().get(&last) {
                    None => None,
                    Some(previous) => {
                        let change = detect_placement_change(previous, map);
                        if change.is_empty() {
                            assert(change@.moves =~= Seq::<MoveView>::empty());
                            None
                        } else {
                            Some(change)
                        }
                    },
                }
            },
        }
    }

    /// Goes back to before a change whose rebalancing has failed, so that the next look finds
    /// it again.
    pub fn put_back(&mut self, change: &PlacementChange)
        ensures
            final(self)@ == Some(change@.from_epoch),
    {
        self.last_epoch = Some(change.from_epoch);
    }
}

impl Default for RebalanceMonitor {
    fn default() -> (r: Self)
        ensures
            r@ == None::<u64>,
    {
        RebalanceMonitor::new()
    }
}

// ---------------------------------------------------------------------------
// Laws
// ---------------------------------------------------------------------------

proof fn lemma_starts_no_later(
    from: PlacementMapView,
    to: PlacementMapView,
    a: Seq<MoveView>,
    b: Seq<MoveView>,
    i: int,
)
    requires
        describes_moves(from, to, a),
        describes_moves(from, to, b),
        0 <= i < a.len(),
        i <= b.len(),
        a.take(i) == b.take(i),
    ensures
        i < b.len(),
        b[i].start <= a[i].start,
{
    reveal(moves_below);
    let x = a[i].start;
    assert(is_move(from, to, a[i]));
    assert(moved(from, to, x) is Some);
    let j = choose|j: int| 0 <= j < b.len() && #[trigger] move_holds(b[j], x);
    if j < i {
        assert(a.take(i)[j] == a[j]);
        assert(b.take(i)[j] == b[j]);
        assert(a[j].end < a[i].start);
    } else if i < j {
        assert(b[i].end < b[j].start);
        assert(is_move(from, to, b[i]));
    }
}

proof fn lemma_ends_no_earlier(
    from: PlacementMapView,
    to: PlacementMapView,
    a: Seq<MoveView>,
    b: Seq<MoveView>,
    i: int,
)
    requires
        describes_moves(from, to, a),
        describes_moves(from, to, b),
        0 <= i < a.len(),
        i < b.len(),
        a[i].start == b[i].start,
    ensures
        b[i].end <= a[i].end,
        a[i].to == b[i].to,
        a[i].from == b[i].from,
{
    reveal(moves_below);
    let s = a[i].start;
    assert(is_move(from, to, a[i]) && is_move(from, to, b[i]));
    assert(moved(from, to, s) == Some((a[i].from, a[i].to)));
    assert(moved(from, to, s) == Some((b[i].from, b[i].to)));
    if a[i].end < b[i].end {
        let x = (a[i].end + 1) as u64;
        assert(moved(from, to, x) == Some((b[i].from, b[i].to)));
        let k = choose|k: int| 0 <= k < a.len() && #[trigger] move_holds(a[k], x);
        if k < i {
            assert(a[k].end < a[i].start);
        } else if k > i {
            if k > i + 1 {
                assert(a[i + 1].end < a[k].start);
                assert(is_move(from, to, a[i + 1]));
            }
            assert(a[i].end < a[i + 1].start);
            assert(a[i + 1].start == x);
            assert(is_move(from, to, a[i + 1]));
            assert(moved(from, to, x) == Some((a[i + 1].from, a[i + 1].to)));
            assert(a[i + 1 - 1].end + 1 < a[i + 1].start || !same_owners(a[i + 1 - 1], a[i + 1]));
        }
    }
}

proof fn lemma_same_moves(from: PlacementMapView, to: PlacementMapView, a: Seq<MoveView>, b: Seq<MoveView>, i: int)
    requires
        describes_moves(from, to, a),
        describes_moves(from, to, b),
        0 <= i <= a.len(),
    ensures
        i <= b.len(),
        a.take(i) == b.take(i),
    decreases i,
{
    if i > 0 {
        lemma_same_moves(from, to, a, b, i - 1);
        lemma_starts_no_later(from, to, a, b, i - 1);
        lemma_starts_no_later(from, to, b, a, i - 1);
        lemma_ends_no_earlier(from, to, a, b, i - 1);
        lemma_ends_no_earlier(from, to, b, a, i - 1);
        assert(a[i - 1] == b[i - 1]);
        assert(a.take(i) =~= a.take(i - 1).push(a[i - 1]));
        assert(b.take(i) =~= b.take(i - 1).push(b[i - 1]));
    } else {
        assert(a.take(0) =~= b.take(0));
    }
}

/// The moves from one placement to another are determined by the two placements.
pub proof fn law_moves_are_determined(
    from: PlacementMapView,
    to: PlacementMapView,
    a: Seq<MoveView>,
    b: Seq<MoveView>,
)
    requires
        describes_moves(from, to, a),
        describes_moves(from, to, b),
    ensures
        a == b,
{
    lemma_same_moves(from, to, a, b, a.len() as int);
    lemma_same_moves(from, to, b, a, b.len() as int);
    assert(a.take(a.len() as int) =~= a);
    assert(b.take(b.len() as int) =~= b);
}

/// Every shard that changed its owner lies in exactly one moved range, which names its old
/// and its new owner, and no shard that kept its owner lies in one.
pub proof fn law_moves_hold_exactly_the_moved_shards(
    from: PlacementMapView,
    to: PlacementMapView,
    moves: Seq<MoveView>,
    shard: u64,
)
    requires
        describes_moves(from, to, moves),
    ensures
        moved(from, to, shard) is Some <==> exists|i: int| 0 <= i < moves.len() && #[trigger] move_holds(
            moves[i],
            shard,
        ),
        forall|i: int|
            0 <= i < moves.len() && #[trigger] move_holds(moves[i], shard) ==> owner(from, shard) == Some(moves[i].from)
                && owner(to, shard) == Some(moves[i].to),
        forall|i: int, j: int|
            0 <= i < moves.len() && 0 <= j < moves.len() && #[trigger] move_holds(moves[i], shard)
                && #[trigger] move_holds(moves[j], shard) ==> i == j,
{
    reveal(moves_below);
    assert forall|i: int| 0 <= i < moves.len() && #[trigger] move_holds(moves[i], shard) implies moved(
        from,
        to,
        shard,
    ) == Some((moves[i].from, moves[i].to)) by {
        assert(is_move(from, to, moves[i]));
    }
    assert forall|i: int, j: int|
        0 <= i < moves.len() && 0 <= j < moves.len() && #[trigger] move_holds(moves[i], shard)
            && #[trigger] move_holds(moves[j], shard) implies i == j by {
        if i < j {
            assert(moves[i].end < moves[j].start);
        } else if j < i {
            assert(moves[j].end < moves[i].start);
        }
    }
}

/// Nothing moves where the placement stays as it is.
pub proof fn law_same_placement_moves_nothing(map: PlacementMapView, moves: Seq<MoveView>)
    requires
        describes_moves(map, map, moves),
    ensures
        moves.len() == 0,
{
    reveal(moves_below);
    if moves.len() > 0 {
        assert(is_move(map, map, moves[0]));
        assert(moved(map, map, moves[0].start) is Some);
    }
}

/// A list of moves tells where every shard goes: a shard lies in a move exactly if the two
/// maps give it different owners, and that move names these two, from the old one to the
/// new. The moves come in the order of their shards and share none.
pub proof fn law_moves_tell_where_shards_go(
    from: PlacementMapView,
    to: PlacementMapView,
    moves: Seq<MoveView>,
    shard: u64,
    i: int,
    j: int,
)
    requires
        describes_moves(from, to, moves),
    ensures
        0 <= i < moves.len() && moves[i].start <= shard && shard <= moves[i].end ==> owner(from, shard) == Some(
            moves[i].from,
        ) && owner(to, shard) == Some(moves[i].to) && moves[i].from != moves[i].to,
        owner(from, shard) is Some && owner(to, shard) is Some && owner(from, shard) != owner(to, shard) ==> exists|
            k: int,
        | 0 <= k < moves.len() && (#[trigger] moves[k]).start <= shard && shard <= moves[k].end,
        0 <= i < j < moves.len() ==> moves[i].start <= moves[i].end && moves[i].end < moves[j].start,
{
    reveal(moves_below);
    if owner(from, shard) is Some && owner(to, shard) is Some && owner(from, shard) != owner(to, shard) {
        assert(moved(from, to, shard) is Some);
        let k = choose|k: int| 0 <= k < moves.len() && #[trigger] move_holds(moves[k], shard);
        assert(moves[k].start <= shard && shard <= moves[k].end);
    }
    if 0 <= i < moves.len() {
        assert(is_move(from, to, moves[i]));
    }
}

/// A move is delivered from the records of its own shards: what cannot be read of them stops
/// it.
pub proof fn law_unreadable_records_stop_a_move(segment: Seq<u8>, m: MoveView)
    ensures
        range_refusal(segment, m) is None <==> replay_segment(segment, Selection::Shards(m.start, m.end)) is Ok,
        range_refusal(segment, m) matches Some(e) ==> replay_segment(segment, Selection::Shards(m.start, m.end))
            matches Err(x) && x == e,
{
}

} // verus!
