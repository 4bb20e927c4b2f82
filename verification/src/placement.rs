//! Placement of data-individual shards on Ipto instances.
//!
//! Placement maps shards to instances with a deterministic consistent-hash ring. Each
//! instance contributes a configurable number of virtual nodes, placed on the ring of
//! 64-bit numbers. Adding or removing an instance affects only its own part of the shards.
//! Explicit range overrides take priority over the ring.

use vstd::prelude::*;
use vstd::string::StringSliceAdditionalSpecFns;
use vstd::utf8::encode_utf8;
use crate::control_error::{ClusterControlError, ControlErrorView};
use crate::data::DataIndividualShardId;
use crate::hash::{fnv, fnv_update, lemma_fnv_fold_concat, FNV_OFFSET};
use crate::ipto::IptoInstanceId;
use crate::ordered::{
    duplicate_all, insert_sorted, lemma_insert_sorted_at, opt_view, rank_u64, stable_sort, views, Duplicate, Key, Rank,
};
use crate::text::str_eq;
use crate::wire::u32_bytes;

verus! {

/// Version of a placement map.
#[derive(Debug, Clone, Copy, PartialEq, Eq, PartialOrd, Ord, Hash)]
pub struct PlacementEpoch(pub u64);

impl View for PlacementEpoch {
    type V = u64;

    open spec fn view(&self) -> u64 {
        self.0
    }
}

impl Duplicate for PlacementEpoch {
    fn duplicate(&self) -> (r: Self) {
        *self
    }
}

impl Key for PlacementEpoch {
    open spec fn before(a: u64, b: u64) -> bool {
        a < b
    }

    proof fn before_irreflexive(a: u64) {
    }

    proof fn before_transitive(a: u64, b: u64, c: u64) {
    }

    proof fn before_connected(a: u64, b: u64) {
    }

    fn rank(&self, other: &Self) -> (r: Rank) {
        rank_u64(self.0, other.0)
    }
}

/// A weighted Ipto instance entry in the placement configuration.
#[derive(Debug, PartialEq, Eq)]
pub struct IptoPlacementSlot {
    pub instance: IptoInstanceId,
    pub vnodes: u32,
}

/// The view of a slot.
pub struct SlotView {
    pub instance: Seq<char>,
    pub vnodes: u32,
}

impl View for IptoPlacementSlot {
    type V = SlotView;

    open spec fn view(&self) -> SlotView {
        SlotView { instance: self.instance@, vnodes: self.vnodes }
    }
}

impl IptoPlacementSlot {
    /// A slot with at least one virtual node.
    pub fn new(instance: IptoInstanceId, vnodes: u32) -> (r: Result<Self, ClusterControlError>)
        ensures
            match r {
                Ok(slot) => vnodes > 0 && slot@ == (SlotView { instance: instance@, vnodes }),
                Err(e) => vnodes == 0 && e@ == ControlErrorView::ZeroVnodes(instance@),
            },
    {
        if vnodes == 0 {
            return Err(ClusterControlError::ZeroVnodes { instance: instance.as_str().to_owned() });
        }
        Ok(IptoPlacementSlot { instance, vnodes })
    }
}

impl Clone for IptoPlacementSlot {
    fn clone(&self) -> (r: Self)
        ensures
            r == *self,
    {
        IptoPlacementSlot { instance: self.instance.clone(), vnodes: self.vnodes }
    }
}

impl Duplicate for IptoPlacementSlot {
    fn duplicate(&self) -> (r: Self) {
        self.clone()
    }
}

// ---------------------------------------------------------------------------
// Consistent-hash ring
// ---------------------------------------------------------------------------

#[derive(Debug, PartialEq, Eq)]
struct RingPoint {
    position: u64,
    instance: IptoInstanceId,
}

/// A virtual node on the ring.
pub struct PointView {
    pub position: u64,
    pub instance: Seq<char>,
}

impl View for RingPoint {
    type V = PointView;

    closed spec fn view(&self) -> PointView {
        PointView { position: self.position, instance: self.instance@ }
    }
}

impl Duplicate for RingPoint {
    fn duplicate(&self) -> (r: Self) {
        RingPoint { position: self.position, instance: self.instance.clone() }
    }
}

/// Where a virtual node of an instance stands: the hash of the instance's name followed by
/// the number of the virtual node.
pub open spec fn ring_position(instance: Seq<char>, vnode: u32) -> u64 {
    fnv(encode_utf8(instance) + u32_bytes(vnode))
}

/// The virtual nodes of a slot.
pub open spec fn slot_points(slot: SlotView) -> Seq<PointView> {
    Seq::new(
        slot.vnodes as nat,
        |k: int| PointView { position: ring_position(slot.instance, k as u32), instance: slot.instance },
    )
}

/// The virtual nodes of slots, slot by slot.
pub open spec fn all_points(slots: Seq<SlotView>) -> Seq<PointView>
    decreases slots.len(),
{
    if slots.len() == 0 {
        Seq::empty()
    } else {
        all_points(slots.drop_last()) + slot_points(slots.last())
    }
}

/// The order of virtual nodes on the ring.
pub open spec fn farther() -> spec_fn(PointView, PointView) -> bool {
    |a: PointView, b: PointView| b.position < a.position
}

/// The ring of slots: their virtual nodes in the order of their positions.
pub open spec fn ring_of(slots: Seq<SlotView>) -> Seq<PointView> {
    stable_sort(all_points(slots), farther())
}

/// The number of leading points before a position.
pub open spec fn lower_bound(points: Seq<PointView>, position: u64) -> int
    decreases points.len(),
{
    if points.len() == 0 || points[0].position >= position {
        0
    } else {
        1 + lower_bound(points.skip(1), position)
    }
}

/// The instance that owns a position: that of the first point at or behind it, or of the
/// first point of all where the ring ends before.
pub open spec fn ring_owner(points: Seq<PointView>, position: u64) -> Option<Seq<char>> {
    if points.len() == 0 {
        None
    } else {
        let i = lower_bound(points, position);
        Some(points[if i < points.len() {
            i
        } else {
            0
        }].instance)
    }
}

/// Whether points come in the order of their positions.
pub open spec fn in_ring_order(points: Seq<PointView>) -> bool {
    forall|i: int, j: int|
        0 <= i < j < points.len() ==> (#[trigger] points[i]).position <= (#[trigger] points[j]).position
}

proof fn lemma_lower_bound(points: Seq<PointView>, position: u64, i: int)
    requires
        0 <= i <= points.len(),
        forall|j: int| 0 <= j < i ==> (#[trigger] points[j]).position < position,
        i < points.len() ==> points[i].position >= position,
    ensures
        lower_bound(points, position) == i,
    decreases points.len(),
{
    if i > 0 {
        assert(points[0].position < position);
        assert forall|j: int| 0 <= j < i - 1 implies (#[trigger] points.skip(1)[j]).position < position by {
            assert(points[j + 1].position < position);
        }
        lemma_lower_bound(points.skip(1), position, i - 1);
    }
}

proof fn lemma_same_bound(points: Seq<PointView>, a: u64, b: u64)
    requires
        a <= b,
        forall|j: int| 0 <= j < points.len() ==> (#[trigger] points[j]).position < a || points[j].position >= b,
    ensures
        lower_bound(points, a) == lower_bound(points, b),
    decreases points.len(),
{
    if points.len() > 0 {
        assert(points[0].position < a || points[0].position >= b);
        let rest = points.skip(1);
        assert forall|j: int| 0 <= j < rest.len() implies (#[trigger] rest[j]).position < a || rest[j].position
            >= b by {
            assert(rest[j] == points[j + 1]);
        }
        lemma_same_bound(rest, a, b);
    }
}

/// Appends a value unless the list holds it.
pub open spec fn add_new(list: Seq<Seq<char>>, item: Seq<char>) -> Seq<Seq<char>> {
    if list.contains(item) {
        list
    } else {
        list.push(item)
    }
}

/// Appends those values of a list that are new, each once.
pub open spec fn add_all(list: Seq<Seq<char>>, more: Seq<Seq<char>>) -> Seq<Seq<char>>
    decreases more.len(),
{
    if more.len() == 0 {
        list
    } else {
        add_new(add_all(list, more.drop_last()), more.last())
    }
}

/// The instances of points.
pub open spec fn point_instances(points: Seq<PointView>) -> Seq<Seq<char>> {
    points.map_values(|p: PointView| p.instance)
}

/// The instances on a ring, each once, in the order in which they first appear.
pub open spec fn ring_instances(points: Seq<PointView>) -> Seq<Seq<char>> {
    add_all(Seq::empty(), point_instances(points))
}

/// The targets of overrides.
pub open spec fn override_targets(overrides: Seq<RangeView>) -> Seq<Seq<char>> {
    overrides.map_values(|r: RangeView| r.target)
}

/// The instances on which a map can place a shard, each once.
pub open spec fn map_targets(m: PlacementMapView) -> Seq<Seq<char>> {
    add_all(ring_instances(m.ring.points), override_targets(m.overrides))
}

/// What is appended is in the list afterwards, beside what was in it, and each value once.
pub proof fn lemma_add_all(list: Seq<Seq<char>>, more: Seq<Seq<char>>)
    ensures
        list.no_duplicates() ==> add_all(list, more).no_duplicates(),
        forall|x: Seq<char>| #[trigger]
            add_all(list, more).contains(x) <==> list.contains(x) || more.contains(x),
    decreases more.len(),
{
    if more.len() > 0 {
        let front = more.drop_last();
        lemma_add_all(list, front);
        let before = add_all(list, front);
        assert forall|x: Seq<char>| #[trigger] add_all(list, more).contains(x) implies list.contains(x)
            || more.contains(x) by {
            if before.contains(x) {
                if front.contains(x) {
                    let i = choose|i: int| 0 <= i < front.len() && front[i] == x;
                    assert(more[i] == x);
                }
            } else {
                assert(more[more.len() - 1] == x);
            }
        }
        assert forall|x: Seq<char>| list.contains(x) || #[trigger] more.contains(x) implies add_all(
            list,
            more,
        ).contains(x) by {
            let after = add_all(list, more);
            if before.contains(x) {
                let i = choose|i: int| 0 <= i < before.len() && before[i] == x;
                assert(after[i] == x);
            } else {
                let i = choose|i: int| 0 <= i < more.len() && more[i] == x;
                if i < front.len() {
                    assert(front[i] == x);
                    assert(before.contains(x));
                }
                assert(after[after.len() - 1] == x);
            }
        }
        assert forall|x: Seq<char>| list.contains(x) implies #[trigger] add_all(list, more).contains(x) by {
            let after = add_all(list, more);
            assert(before.contains(x));
            let i = choose|i: int| 0 <= i < before.len() && before[i] == x;
            assert(after[i] == x);
        }
    } else {
        assert(forall|x: Seq<char>| !more.contains(x));
    }
}

/// The owner of a shard is an instance on the ring or the target of an override.
pub proof fn lemma_owner_is_listed(m: PlacementMapView, shard: u64)
    ensures
        owner(m, shard) matches Some(target) ==> ring_instances(m.ring.points).contains(target) || override_targets(
            m.overrides,
        ).contains(target),
{
    if owner(m, shard) is Some {
        let target = owner(m, shard)->0;
        lemma_range_owner(m.overrides, shard);
        if range_owner(m.overrides, shard) is Some {
            let i = choose|i: int|
                0 <= i < m.overrides.len() && range_holds(#[trigger] m.overrides[i], shard) && m.overrides[i].target
                    == target;
            assert(override_targets(m.overrides)[i] == target);
        } else {
            let points = m.ring.points;
            let names = point_instances(points);
            lemma_add_all(Seq::empty(), names);
            let i = lower_bound(points, shard);
            lemma_lower_bound_spec(points, shard);
            let j: int = if i < points.len() {
                i
            } else {
                0
            };
            assert(names[j] == target);
        }
    }
}

/// Whether a list holds an instance.
pub fn contains_instance(list: &Vec<IptoInstanceId>, wanted: &IptoInstanceId) -> (r: bool)
    ensures
        r == views(list@).contains(wanted@),
{
    let mut i: usize = 0;
    while i < list.len()
        invariant
            i <= list.len(),
            forall|j: int| 0 <= j < i ==> list@[j]@ != wanted@,
        decreases list.len() - i,
    {
        if str_eq(list[i].as_str(), wanted.as_str()) {
            assert(views(list@)[i as int] == wanted@);
            return true;
        }
        i += 1;
    }
    assert forall|j: int| 0 <= j < views(list@).len() implies views(list@)[j] != wanted@ by {}
    false
}

/// Appends an instance unless the list holds it.
pub fn push_new(list: &mut Vec<IptoInstanceId>, item: &IptoInstanceId)
    ensures
        views(final(list)@) == add_new(views(old(list)@), item@),
{
    if !contains_instance(list, item) {
        list.push(item.clone());
        assert(views(list@) =~= views(old(list)@).push(item@));
    }
}

fn ring_hash(instance: &str, vnode_idx: u32) -> (r: u64)
    ensures
        r == ring_position(instance@, vnode_idx),
{
    let state: u64 = fnv_update(FNV_OFFSET, instance.as_bytes());
    let bytes = vstd::bytes::u32_to_le_bytes(vnode_idx);
    proof {
        lemma_fnv_fold_concat(FNV_OFFSET, encode_utf8(instance@), u32_bytes(vnode_idx));
    }
    fnv_update(state, bytes.as_slice())
}

/// Deterministic consistent-hash ring over the 64-bit numbers.
#[derive(Debug, PartialEq, Eq)]
pub struct IptoPlacementRing {
    epoch: PlacementEpoch,
    points: Vec<RingPoint>,
}

/// The view of a ring.
pub struct RingView {
    pub epoch: u64,
    pub points: Seq<PointView>,
}

impl View for IptoPlacementRing {
    type V = RingView;

    closed spec fn view(&self) -> RingView {
        RingView { epoch: self.epoch@, points: views(self.points@) }
    }
}

impl IptoPlacementRing {
    #[verifier::type_invariant]
    spec fn inv(self) -> bool {
        in_ring_order(views(self.points@))
    }

    fn insert_point(points: &mut Vec<RingPoint>, point: RingPoint)
        requires
            in_ring_order(views(old(points)@)),
        ensures
            views(final(points)@) == insert_sorted(views(old(points)@), point@, farther()),
            in_ring_order(views(final(points)@)),
    {
        let ghost before = points@;
        let mut at: usize = points.len();
        while at > 0 && points[at - 1].position > point.position
            invariant
                at <= points.len(),
                points@ == before,
                forall|i: int| at <= i < points.len() ==> (#[trigger] points@[i]).position > point.position,
            decreases at,
        {
            at -= 1;
        }
        let ghost inserted = point;
        points.insert(at, point);
        proof {
            assert forall|i: int| at <= i < before.len() implies farther()(#[trigger] views(before)[i], inserted@) by {
                assert(before[i].position > inserted.position);
            }
            lemma_insert_sorted_at(views(before), inserted@, farther(), at as int);
            assert(views(points@) =~= views(before).insert(at as int, inserted@));
            let after = views(points@);
            assert forall|i: int, j: int| 0 <= i < j < after.len() implies (#[trigger] after[i]).position <= (
            #[trigger] after[j]).position by {
                let b = views(before);
                if j == at {
                    if i < at - 1 {
                        assert(b[i].position <= b[at - 1].position);
                    }
                } else if i == at {
                    assert(before[j - 1].position > inserted.position);
                } else {
                    let x = if i < at { i } else { i - 1 };
                    let y = if j < at { j } else { j - 1 };
                    assert(b[x].position <= b[y].position);
                }
            }
        }
    }

    /// The ring of slots.
    pub fn new(epoch: PlacementEpoch, slots: &Vec<IptoPlacementSlot>) -> (r: Self)
        ensures
            r@ == (RingView { epoch: epoch@, points: ring_of(views(slots@)) }),
    {
        let mut points: Vec<RingPoint> = Vec::new();
        let ghost all = views(slots@);
        let mut i: usize = 0;
        assert(views(points@) =~= ring_of(all.take(0)));
        while i < slots.len()
            invariant
                i <= slots.len(),
                all == views(slots@),
                views(points@) == ring_of(all.take(i as int)),
                in_ring_order(views(points@)),
            decreases slots.len() - i,
        {
            let ghost before = all_points(all.take(i as int));
            let ghost own = slot_points(all[i as int]);
            let vnodes: u32 = slots[i].vnodes;
            let mut k: u32 = 0;
            assert(before + own.take(0) =~= before);
            while k < vnodes
                invariant
                    k <= vnodes,
                    i < slots.len(),
                    all == views(slots@),
                    own == slot_points(all[i as int]),
                    vnodes == all[i as int].vnodes,
                    views(points@) == stable_sort(before + own.take(k as int), farther()),
                    in_ring_order(views(points@)),
                decreases vnodes - k,
            {
                let position: u64 = ring_hash(slots[i].instance.as_str(), k);
                let point = RingPoint { position, instance: slots[i].instance.clone() };
                proof {
                    let longer = before + own.take(k + 1);
                    assert(longer.drop_last() =~= before + own.take(k as int));
                    assert(longer.last() == own[k as int]);
                    assert(own[k as int] == point@);
                }
                IptoPlacementRing::insert_point(&mut points, point);
                k += 1;
            }
            proof {
                assert(own.take(vnodes as int) =~= own);
                assert(all.take(i + 1).drop_last() =~= all.take(i as int));
                assert(all.take(i + 1).last() == all[i as int]);
            }
            i += 1;
        }
        assert(all.take(slots.len() as int) =~= all);
        IptoPlacementRing { epoch, points }
    }

    /// The version of the placement that the ring belongs to.
    pub fn epoch(&self) -> (r: PlacementEpoch)
        ensures
            r@ == self@.epoch,
    {
        self.epoch
    }

    /// The instance that owns a shard.
    pub fn resolve(&self, shard_id: DataIndividualShardId) -> (r: Option<&IptoInstanceId>)
        ensures
            opt_view(r) == ring_owner(self@.points, shard_id@),
    {
        proof {
            use_type_invariant(self);
        }
        let n: usize = self.points.len();
        if n == 0 {
            return None;
        }
        let ghost pts = views(self.points@);
        let mut low: usize = 0;
        let mut high: usize = n;
        while low < high
            invariant
                low <= high <= n,
                n == self.points.len(),
                pts == views(self.points@),
                in_ring_order(pts),
                forall|j: int| 0 <= j < low ==> (#[trigger] pts[j]).position < shard_id@,
                forall|j: int| high <= j < n ==> (#[trigger] pts[j]).position >= shard_id@,
            decreases high - low,
        {
            let mid: usize = low + (high - low) / 2;
            assert(pts[mid as int] == self.points@[mid as int]@);
            if self.points[mid].position < shard_id.0 {
                low = mid + 1;
            } else {
                high = mid;
            }
        }
        proof {
            lemma_lower_bound(pts, shard_id@, low as int);
        }
        let at: usize = if low < n {
            low
        } else {
            0
        };
        assert(pts[at as int] == self.points@[at as int]@);
        Some(&self.points[at].instance)
    }

    /// The end of a stretch of shards, from a given one, that have the same owner.
    pub fn stretch_end(&self, shard_id: DataIndividualShardId) -> (r: DataIndividualShardId)
        ensures
            shard_id@ <= r@,
            forall|x: u64|
                shard_id@ <= x <= r@ ==> #[trigger] ring_owner(self@.points, x) == ring_owner(
                    self@.points,
                    shard_id@,
                ),
    {
        let ghost pts = views(self.points@);
        let mut end: u64 = u64::MAX;
        let mut i: usize = 0;
        while i < self.points.len()
            invariant
                i <= self.points.len(),
                pts == views(self.points@),
                shard_id@ <= end,
                forall|j: int| 0 <= j < i ==> (#[trigger] pts[j]).position < shard_id@ || pts[j].position >= end,
            decreases self.points.len() - i,
        {
            assert(pts[i as int] == self.points@[i as int]@);
            let position: u64 = self.points[i].position;
            if position >= shard_id.0 && position < end {
                end = position;
            }
            i += 1;
        }
        proof {
            assert forall|x: u64| shard_id@ <= x <= end implies #[trigger] ring_owner(pts, x) == ring_owner(
                pts,
                shard_id@,
            ) by {
                lemma_same_bound(pts, shard_id@, x);
            }
        }
        DataIndividualShardId(end)
    }

    /// The instances on the ring, each once.
    pub fn instances(&self) -> (r: Vec<IptoInstanceId>)
        ensures
            views(r@) == ring_instances(self@.points),
    {
        let mut out: Vec<IptoInstanceId> = Vec::new();
        let ghost names = point_instances(views(self.points@));
        let mut i: usize = 0;
        assert(views(out@) =~= add_all(Seq::empty(), names.take(0)));
        while i < self.points.len()
            invariant
                i <= self.points.len(),
                names == point_instances(views(self.points@)),
                views(out@) == add_all(Seq::empty(), names.take(i as int)),
            decreases self.points.len() - i,
        {
            assert(names.take(i + 1).drop_last() =~= names.take(i as int));
            assert(names[i as int] == self.points@[i as int].instance@);
            push_new(&mut out, &self.points[i].instance);
            i += 1;
        }
        assert(names.take(self.points.len() as int) =~= names);
        out
    }

    /// Whether the ring has no points.
    pub fn is_empty(&self) -> (r: bool)
        ensures
            r == (self@.points.len() == 0),
    {
        self.points.len() == 0
    }
}

impl Clone for IptoPlacementRing {
    fn clone(&self) -> (r: Self)
        ensures
            r@ == self@,
    {
        proof {
            use_type_invariant(self);
        }
        let points = duplicate_all(&self.points);
        IptoPlacementRing { epoch: self.epoch, points }
    }
}

// ---------------------------------------------------------------------------
// Placement ranges
// ---------------------------------------------------------------------------

/// Inclusive data-individual shard range assigned to one Ipto instance.
#[derive(Debug, PartialEq, Eq)]
pub struct IptoPlacementRange {
    pub start: DataIndividualShardId,
    pub end: DataIndividualShardId,
    pub target: IptoInstanceId,
}

/// The view of a range.
pub struct RangeView {
    pub start: u64,
    pub end: u64,
    pub target: Seq<char>,
}

impl View for IptoPlacementRange {
    type V = RangeView;

    open spec fn view(&self) -> RangeView {
        RangeView { start: self.start@, end: self.end@, target: self.target@ }
    }
}

/// Whether a range holds a shard.
pub open spec fn range_holds(r: RangeView, shard: u64) -> bool {
    r.start <= shard <= r.end
}

impl IptoPlacementRange {
    /// A range whose end is not before its start.
    pub fn new(start: DataIndividualShardId, end: DataIndividualShardId, target: IptoInstanceId) -> (r: Result<
        Self,
        ClusterControlError,
    >)
        ensures
            match r {
                Ok(range) => start@ <= end@ && range@ == (RangeView { start: start@, end: end@, target: target@ }),
                Err(e) => end@ < start@ && e@ == ControlErrorView::InvalidPlacementRange(start@, end@),
            },
    {
        if end.0 < start.0 {
            return Err(ClusterControlError::InvalidPlacementRange { start, end });
        }
        Ok(IptoPlacementRange { start, end, target })
    }

    /// Whether the range holds a shard.
    pub fn contains(&self, shard_id: DataIndividualShardId) -> (r: bool)
        ensures
            r == range_holds(self@, shard_id@),
    {
        self.start.0 <= shard_id.0 && shard_id.0 <= self.end.0
    }
}

impl Clone for IptoPlacementRange {
    fn clone(&self) -> (r: Self)
        ensures
            r == *self,
    {
        IptoPlacementRange { start: self.start, end: self.end, target: self.target.clone() }
    }
}

impl Duplicate for IptoPlacementRange {
    fn duplicate(&self) -> (r: Self) {
        self.clone()
    }
}

/// The order of ranges by their starts.
pub open spec fn starts_later() -> spec_fn(RangeView, RangeView) -> bool {
    |a: RangeView, b: RangeView| b.start < a.start
}

/// Ranges in the order of their starts.
pub open spec fn sorted_ranges(ranges: Seq<RangeView>) -> Seq<RangeView> {
    stable_sort(ranges, starts_later())
}

/// The first position, from a given one, of a range that does not end before the next
/// begins.
pub open spec fn overlap_from(ranges: Seq<RangeView>, i: int) -> Option<int>
    decreases ranges.len() - i,
{
    if i < 0 || i + 1 >= ranges.len() {
        None
    } else if ranges[i + 1].start <= ranges[i].end {
        Some(i)
    } else {
        overlap_from(ranges, i + 1)
    }
}

/// The target of the first range that holds a shard.
pub open spec fn range_owner(ranges: Seq<RangeView>, shard: u64) -> Option<Seq<char>>
    decreases ranges.len(),
{
    if ranges.len() == 0 {
        None
    } else if range_holds(ranges[0], shard) {
        Some(ranges[0].target)
    } else {
        range_owner(ranges.skip(1), shard)
    }
}

proof fn lemma_same_range(ranges: Seq<RangeView>, a: u64, b: u64)
    requires
        forall|j: int| 0 <= j < ranges.len() ==> range_holds(#[trigger] ranges[j], a) == range_holds(ranges[j], b),
    ensures
        range_owner(ranges, a) == range_owner(ranges, b),
    decreases ranges.len(),
{
    if ranges.len() > 0 {
        let rest = ranges.skip(1);
        assert(range_holds(ranges[0], a) == range_holds(ranges[0], b));
        assert forall|j: int| 0 <= j < rest.len() implies range_holds(#[trigger] rest[j], a) == range_holds(
            rest[j],
            b,
        ) by {
            assert(rest[j] == ranges[j + 1]);
        }
        lemma_same_range(rest, a, b);
    }
}

fn sort_ranges(ranges: Vec<IptoPlacementRange>) -> (r: Vec<IptoPlacementRange>)
    ensures
        views(r@) == sorted_ranges(views(ranges@)),
{
    let ghost all = views(ranges@);
    let mut out: Vec<IptoPlacementRange> = Vec::new();
    let mut i: usize = 0;
    assert(views(out@) =~= sorted_ranges(all.take(0)));
    while i < ranges.len()
        invariant
            i <= ranges.len(),
            all == views(ranges@),
            views(out@) == sorted_ranges(all.take(i as int)),
            forall|a: int, b: int| 0 <= a < b < out.len() ==> (#[trigger] out@[a]).start@ <= (#[trigger] out@[b]).start@,
        decreases ranges.len() - i,
    {
        let ghost before = out@;
        let mut at: usize = out.len();
        while at > 0 && out[at - 1].start.0 > ranges[i].start.0
            invariant
                at <= out.len(),
                i < ranges.len(),
                out@ == before,
                forall|j: int| at <= j < out.len() ==> (#[trigger] out@[j]).start@ > ranges@[i as int].start@,
            decreases at,
        {
            at -= 1;
        }
        let item = ranges[i].clone();
        out.insert(at, item);
        proof {
            let x = ranges@[i as int]@;
            assert forall|j: int| at <= j < before.len() implies starts_later()(#[trigger] views(before)[j], x) by {
                assert(before[j].start@ > x.start);
            }
            lemma_insert_sorted_at(views(before), x, starts_later(), at as int);
            assert(views(out@) =~= views(before).insert(at as int, x));
            assert(all.take(i + 1).drop_last() =~= all.take(i as int));
            assert(all.take(i + 1).last() == x);
            assert forall|a: int, b: int| 0 <= a < b < out.len() implies (#[trigger] out@[a]).start@ <= (
            #[trigger] out@[b]).start@ by {
                if b == at {
                    if a < at - 1 {
                        assert(before[a].start@ <= before[at - 1].start@);
                    }
                } else if a == at {
                    assert(before[b - 1].start@ > x.start);
                } else {
                    let p = if a < at { a } else { a - 1 };
                    let q = if b < at { b } else { b - 1 };
                    assert(before[p].start@ <= before[q].start@);
                }
            }
        }
        i += 1;
    }
    assert(all.take(ranges.len() as int) =~= all);
    out
}

// ---------------------------------------------------------------------------
// Placement map
// ---------------------------------------------------------------------------

/// Versioned placement map: a consistent-hash ring built from slots, and optional range
/// overrides that take priority over it.
#[derive(Debug, PartialEq, Eq)]
pub struct IptoPlacementMap {
    pub epoch: PlacementEpoch,
    slots: Vec<IptoPlacementSlot>,
    ring: IptoPlacementRing,
    overrides: Vec<IptoPlacementRange>,
}

/// The view of a placement map.
pub struct PlacementMapView {
    pub epoch: u64,
    pub slots: Seq<SlotView>,
    pub ring: RingView,
    pub overrides: Seq<RangeView>,
}

impl View for IptoPlacementMap {
    type V = PlacementMapView;

    closed spec fn view(&self) -> PlacementMapView {
        PlacementMapView {
            epoch: self.epoch@,
            slots: views(self.slots@),
            ring: self.ring@,
            overrides: views(self.overrides@),
        }
    }
}

/// The placement map made of slots and overrides.
pub open spec fn placement(epoch: u64, slots: Seq<SlotView>, overrides: Seq<RangeView>) -> PlacementMapView {
    PlacementMapView {
        epoch,
        slots,
        ring: RingView { epoch, points: ring_of(slots) },
        overrides: sorted_ranges(overrides),
    }
}

/// Why slots and overrides make no placement map.
pub open spec fn placement_refusal(slots: Seq<SlotView>, overrides: Seq<RangeView>) -> Option<ControlErrorView> {
    if slots.len() == 0 {
        Some(ControlErrorView::NoPlacementSlots)
    } else {
        let ranges = sorted_ranges(overrides);
        match overlap_from(ranges, 0) {
            Some(i) => Some(
                ControlErrorView::OverlappingPlacementRanges(
                    ranges[i].start,
                    ranges[i].end,
                    ranges[i + 1].start,
                    ranges[i + 1].end,
                ),
            ),
            None => None,
        }
    }
}

/// The instance that owns a shard: that of the override that holds it, else that of the
/// ring.
pub open spec fn owner(m: PlacementMapView, shard: u64) -> Option<Seq<char>> {
    match range_owner(m.overrides, shard) {
        Some(target) => Some(target),
        None => ring_owner(m.ring.points, shard),
    }
}

impl IptoPlacementMap {
    /// A placement map with at least one slot and without overlapping overrides.
    pub fn new(epoch: PlacementEpoch, slots: Vec<IptoPlacementSlot>, overrides: Vec<IptoPlacementRange>) -> (r: Result<
        Self,
        ClusterControlError,
    >)
        ensures
            match r {
                Ok(m) => placement_refusal(views(slots@), views(overrides@)) is None && m@ == placement(
                    epoch@,
                    views(slots@),
                    views(overrides@),
                ),
                Err(e) => placement_refusal(views(slots@), views(overrides@)) == Some(e@),
            },
    {
        if slots.len() == 0 {
            return Err(ClusterControlError::NoPlacementSlots);
        }
        let ghost given = views(overrides@);
        let ordered = sort_ranges(overrides);
        let ghost ranges = views(ordered@);
        let n: usize = ordered.len();
        let mut i: usize = 0;
        while n > 0 && i < n - 1
            invariant
                n == ordered.len(),
                n == 0 || i <= n - 1,
                ranges == views(ordered@),
                given == views(overrides@),
                overlap_from(ranges, 0) == overlap_from(ranges, i as int),
                ranges == sorted_ranges(given),
                views(slots@).len() > 0,
                n == 0 ==> i == 0,
            decreases n - i,
        {
            assert(ranges[i as int] == ordered@[i as int]@);
            assert(ranges[i + 1] == ordered@[i + 1]@);
            if ordered[i + 1].start.0 <= ordered[i].end.0 {
                return Err(
                    ClusterControlError::OverlappingPlacementRanges {
                        left_start: ordered[i].start,
                        left_end: ordered[i].end,
                        right_start: ordered[i + 1].start,
                        right_end: ordered[i + 1].end,
                    },
                );
            }
            i += 1;
        }
        let ring = IptoPlacementRing::new(epoch, &slots);
        Ok(IptoPlacementMap { epoch, slots, ring, overrides: ordered })
    }

    /// The epoch of the map.
    pub fn epoch(&self) -> (r: PlacementEpoch)
        ensures
            r@ == self@.epoch,
    {
        self.epoch
    }

    /// The instance that owns a shard.
    pub fn resolve(&self, shard_id: DataIndividualShardId) -> (r: Option<&IptoInstanceId>)
        ensures
            opt_view(r) == owner(self@, shard_id@),
    {
        let ghost ranges = views(self.overrides@);
        let mut i: usize = 0;
        assert(ranges.skip(0) =~= ranges);
        while i < self.overrides.len()
            invariant
                i <= self.overrides.len(),
                ranges == views(self.overrides@),
                range_owner(ranges, shard_id@) == range_owner(ranges.skip(i as int), shard_id@),
            decreases self.overrides.len() - i,
        {
            assert(ranges.skip(i as int)[0] == self.overrides@[i as int]@);
            assert(ranges.skip(i as int).skip(1) =~= ranges.skip(i + 1));
            if self.overrides[i].contains(shard_id) {
                return Some(&self.overrides[i].target);
            }
            i += 1;
        }
        self.ring.resolve(shard_id)
    }

    /// The end of a stretch of shards, from a given one, that have the same owner.
    pub fn stretch_end(&self, shard_id: DataIndividualShardId) -> (r: DataIndividualShardId)
        ensures
            shard_id@ <= r@,
            forall|x: u64| shard_id@ <= x <= r@ ==> #[trigger] owner(self@, x) == owner(self@, shard_id@),
    {
        let ghost ranges = views(self.overrides@);
        let ring_end = self.ring.stretch_end(shard_id);
        let mut end: u64 = ring_end.0;
        let mut i: usize = 0;
        while i < self.overrides.len()
            invariant
                i <= self.overrides.len(),
                ranges == views(self.overrides@),
                shard_id@ <= end <= ring_end@,
                forall|j: int, x: u64|
                    0 <= j < i && shard_id@ <= x <= end ==> #[trigger] range_holds(ranges[j], x) == range_holds(
                        ranges[j],
                        shard_id@,
                    ),
            decreases self.overrides.len() - i,
        {
            assert(ranges[i as int] == self.overrides@[i as int]@);
            let start: u64 = self.overrides[i].start.0;
            let stop: u64 = self.overrides[i].end.0;
            if start > shard_id.0 && start - 1 < end {
                end = start - 1;
            }
            if stop >= shard_id.0 && stop < end {
                end = stop;
            }
            i += 1;
        }
        proof {
            assert forall|x: u64| shard_id@ <= x <= end implies #[trigger] owner(self@, x) == owner(
                self@,
                shard_id@,
            ) by {
                lemma_same_range(ranges, shard_id@, x);
                assert(ring_owner(self@.ring.points, x) == ring_owner(self@.ring.points, shard_id@));
            }
        }
        DataIndividualShardId(end)
    }

    /// The slots of the map.
    pub fn slots(&self) -> (r: &Vec<IptoPlacementSlot>)
        ensures
            views(r@) == self@.slots,
    {
        &self.slots
    }

    /// The overrides of the map in the order of their starts.
    pub fn overrides(&self) -> (r: &Vec<IptoPlacementRange>)
        ensures
            views(r@) == self@.overrides,
    {
        &self.overrides
    }

    /// The ring of the map.
    pub fn ring(&self) -> (r: &IptoPlacementRing)
        ensures
            r@ == self@.ring,
    {
        &self.ring
    }

    /// The instances on the ring, each once.
    pub fn instances(&self) -> (r: Vec<IptoInstanceId>)
        ensures
            views(r@) == ring_instances(self@.ring.points),
    {
        self.ring.instances()
    }

    /// The instances on which the map can place a shard, each once: those on the ring, then
    /// the targets of overrides.
    pub fn targets(&self) -> (r: Vec<IptoInstanceId>)
        ensures
            views(r@) == map_targets(self@),
    {
        let mut found = self.ring.instances();
        let ghost sofar = views(found@);
        let ghost names = override_targets(views(self.overrides@));
        let mut i: usize = 0;
        assert(add_all(sofar, names.take(0)) =~= sofar);
        while i < self.overrides.len()
            invariant
                i <= self.overrides.len(),
                names == override_targets(views(self.overrides@)),
                views(found@) == add_all(sofar, names.take(i as int)),
            decreases self.overrides.len() - i,
        {
            assert(names.take(i + 1).drop_last() =~= names.take(i as int));
            assert(names[i as int] == self.overrides@[i as int].target@);
            push_new(&mut found, &self.overrides[i].target);
            i += 1;
        }
        assert(names.take(self.overrides.len() as int) =~= names);
        found
    }
}

impl Clone for IptoPlacementMap {
    fn clone(&self) -> (r: Self)
        ensures
            r@ == self@,
    {
        IptoPlacementMap {
            epoch: self.epoch,
            slots: duplicate_all(&self.slots),
            ring: self.ring.clone(),
            overrides: duplicate_all(&self.overrides),
        }
    }
}

impl Duplicate for IptoPlacementMap {
    fn duplicate(&self) -> (r: Self) {
        self.clone()
    }
}

// ---------------------------------------------------------------------------
// Laws
// ---------------------------------------------------------------------------

/// Every shard has an owner exactly if the ring has a point.
pub proof fn law_ring_owns_every_shard(points: Seq<PointView>, shard: u64)
    ensures
        ring_owner(points, shard) is Some <==> points.len() > 0,
{
}

/// A shard that an override holds belongs to an override's target; every other shard
/// belongs where the ring puts it.
pub proof fn law_overrides_take_priority(m: PlacementMapView, shard: u64)
    ensures
        (exists|i: int| 0 <= i < m.overrides.len() && range_holds(#[trigger] m.overrides[i], shard)) ==> exists|i: int|
            0 <= i < m.overrides.len() && range_holds(#[trigger] m.overrides[i], shard) && owner(m, shard) == Some(
                m.overrides[i].target,
            ),
        (forall|i: int| 0 <= i < m.overrides.len() ==> !range_holds(#[trigger] m.overrides[i], shard)) ==> owner(
            m,
            shard,
        ) == ring_owner(m.ring.points, shard),
{
    lemma_range_owner(m.overrides, shard);
}

proof fn lemma_range_owner(ranges: Seq<RangeView>, shard: u64)
    ensures
        match range_owner(ranges, shard) {
            Some(target) => exists|i: int|
                0 <= i < ranges.len() && range_holds(#[trigger] ranges[i], shard) && ranges[i].target == target,
            None => forall|i: int| 0 <= i < ranges.len() ==> !range_holds(#[trigger] ranges[i], shard),
        },
    decreases ranges.len(),
{
    if ranges.len() > 0 {
        if range_holds(ranges[0], shard) {
            assert(ranges[0].target == range_owner(ranges, shard)->0);
        } else {
            let tail = ranges.skip(1);
            lemma_range_owner(tail, shard);
            match range_owner(tail, shard) {
                Some(target) => {
                    let i = choose|i: int|
                        0 <= i < tail.len() && range_holds(#[trigger] tail[i], shard) && tail[i].target == target;
                    assert(ranges[i + 1] == tail[i]);
                },
                None => {
                    assert forall|i: int| 0 <= i < ranges.len() implies !range_holds(#[trigger] ranges[i], shard) by {
                        if i > 0 {
                            assert(!range_holds(tail[i - 1], shard));
                        }
                    }
                },
            }
        }
    }
}

/// How far a virtual node is from a position, going round the ring upwards.
spec fn distance(p: PointView, position: u64) -> int {
    if p.position >= position {
        p.position - position
    } else {
        p.position - position + 0x1_0000_0000_0000_0000
    }
}

/// The virtual node that owns a position.
spec fn ring_point(points: Seq<PointView>, position: u64) -> Option<PointView> {
    if points.len() == 0 {
        None
    } else {
        let i = lower_bound(points, position);
        Some(points[if i < points.len() {
            i
        } else {
            0
        }])
    }
}

/// The one of two virtual nodes that is nearer to a position; of equal ones the first.
spec fn nearer(a: Option<PointView>, b: PointView, position: u64) -> Option<PointView> {
    match a {
        Some(p) if distance(p, position) <= distance(b, position) => a,
        _ => Some(b),
    }
}

proof fn lemma_point_step(points: Seq<PointView>, p: PointView, position: u64)
    requires
        in_ring_order(points),
    ensures
        in_ring_order(insert_sorted(points, p, farther())),
        ring_point(insert_sorted(points, p, farther()), position) == nearer(
            ring_point(points, position),
            p,
            position,
        ),
{
    let at = upper_bound(points, p.position);
    lemma_upper_bound(points, p.position);
    lemma_insert_sorted_at(points, p, farther(), at);
    let after = points.insert(at, p);
    assert forall|i: int, j: int| 0 <= i < j < after.len() implies (#[trigger] after[i]).position <= (
    #[trigger] after[j]).position by {
        if j == at {
            assert(points[i].position <= p.position);
        } else if i == at {
            assert(points[j - 1].position > p.position);
        } else {
            let x = if i < at { i } else { i - 1 };
            let y = if j < at { j } else { j - 1 };
            assert(points[x].position <= points[y].position);
        }
    }
    let b = lower_bound(points, position);
    lemma_lower_bound_spec(points, position);
    if p.position < position {
        assert forall|j: int| 0 <= j < b + 1 implies (#[trigger] after[j]).position < position by {
            if j < at {
                assert(points[j].position <= p.position);
            } else if j > at {
                assert(points[j - 1].position < position);
            }
        }
        assert(at <= b) by {
            if b < at {
                assert(points[b].position <= p.position);
            }
        }
        lemma_lower_bound(after, position, b + 1);
        if points.len() > 0 && b == points.len() && at > 0 {
            assert(after[0] == points[0]);
        }
    } else {
        assert(b <= at) by {
            if at < b {
                assert(points[at].position > p.position);
            }
        }
        if b < at {
            assert forall|j: int| 0 <= j < b implies (#[trigger] after[j]).position < position by {
                assert(after[j] == points[j]);
            }
            assert(after[b] == points[b]);
            lemma_lower_bound(after, position, b);
        } else {
            assert forall|j: int| 0 <= j < b implies (#[trigger] after[j]).position < position by {
                assert(after[j] == points[j]);
            }
            lemma_lower_bound(after, position, b);
        }
    }
}

spec fn upper_bound(points: Seq<PointView>, position: u64) -> int
    decreases points.len(),
{
    if points.len() == 0 || points[0].position > position {
        0
    } else {
        1 + upper_bound(points.skip(1), position)
    }
}

proof fn lemma_upper_bound(points: Seq<PointView>, position: u64)
    requires
        in_ring_order(points),
    ensures
        0 <= upper_bound(points, position) <= points.len(),
        forall|i: int| 0 <= i < upper_bound(points, position) ==> (#[trigger] points[i]).position <= position,
        forall|i: int|
            upper_bound(points, position) <= i < points.len() ==> (#[trigger] points[i]).position > position,
    decreases points.len(),
{
    if points.len() > 0 {
        let tail = points.skip(1);
        assert forall|i: int, j: int| 0 <= i < j < tail.len() implies (#[trigger] tail[i]).position <= (
        #[trigger] tail[j]).position by {
            assert(points[i + 1].position <= points[j + 1].position);
        }
        lemma_upper_bound(tail, position);
        if points[0].position > position {
            assert forall|i: int| 0 <= i < points.len() implies (#[trigger] points[i]).position > position by {
                if i > 0 {
                    assert(points[0].position <= points[i].position);
                }
            }
        } else {
            let u = upper_bound(points, position);
            assert forall|i: int| 0 <= i < u implies (#[trigger] points[i]).position <= position by {
                if i > 0 {
                    assert(tail[i - 1].position <= position);
                }
            }
            assert forall|i: int| u <= i < points.len() implies (#[trigger] points[i]).position > position by {
                assert(tail[i - 1].position > position);
            }
        }
    }
}

proof fn lemma_lower_bound_spec(points: Seq<PointView>, position: u64)
    ensures
        0 <= lower_bound(points, position) <= points.len(),
        forall|i: int| 0 <= i < lower_bound(points, position) ==> (#[trigger] points[i]).position < position,
        lower_bound(points, position) < points.len() ==> points[lower_bound(points, position)].position >= position,
    decreases points.len(),
{
    if points.len() > 0 && points[0].position < position {
        let tail = points.skip(1);
        lemma_lower_bound_spec(tail, position);
        let b = lower_bound(points, position);
        assert forall|i: int| 0 <= i < b implies (#[trigger] points[i]).position < position by {
            if i > 0 {
                assert(tail[i - 1].position < position);
            }
        }
        if b < points.len() {
            assert(points[b] == tail[b - 1]);
        }
    }
}

/// The virtual node of points, in whatever order, that owns a position on their ring.
spec fn nearest(points: Seq<PointView>, position: u64) -> Option<PointView> {
    ring_point(stable_sort(points, farther()), position)
}

proof fn lemma_nearest_step(points: Seq<PointView>, p: PointView, position: u64)
    ensures
        nearest(points.push(p), position) == nearer(nearest(points, position), p, position),
{
    assert(points.push(p).drop_last() =~= points);
    lemma_ring_sorted(points);
    lemma_point_step(stable_sort(points, farther()), p, position);
}

/// Points of one instance in between draw positions to that instance only.
proof fn lemma_points_between(
    base: Seq<PointView>,
    more: Seq<PointView>,
    rest: Seq<PointView>,
    instance: Seq<char>,
    position: u64,
)
    requires
        forall|i: int| 0 <= i < more.len() ==> (#[trigger] more[i]).instance == instance,
    ensures
        nearest(base + more + rest, position) == nearest(base + rest, position) || drawn(
            nearest(base + more + rest, position),
            nearest(base + rest, position),
            instance,
            position,
        ),
    decreases rest.len(), more.len(),
{
    if rest.len() > 0 {
        let front = rest.drop_last();
        lemma_points_between(base, more, front, instance, position);
        assert(base + more + rest =~= (base + more + front).push(rest.last()));
        assert(base + rest =~= (base + front).push(rest.last()));
        lemma_nearest_step(base + more + front, rest.last(), position);
        lemma_nearest_step(base + front, rest.last(), position);
    } else if more.len() > 0 {
        let front = more.drop_last();
        assert forall|i: int| 0 <= i < front.len() implies (#[trigger] front[i]).instance == instance by {
            assert(more[i].instance == instance);
        }
        lemma_points_between(base, front, rest, instance, position);
        assert(base + more + rest =~= (base + front + rest).push(more.last()));
        assert(more[more.len() - 1].instance == instance);
        lemma_nearest_step(base + front + rest, more.last(), position);
    } else {
        assert(base + more + rest =~= base + rest);
    }
}

/// Whether a virtual node of an instance has drawn a position from another node.
spec fn drawn(to: Option<PointView>, from: Option<PointView>, instance: Seq<char>, position: u64) -> bool {
    match (to, from) {
        (Some(a), Some(b)) => a.instance == instance && distance(a, position) <= distance(b, position),
        (Some(a), None) => a.instance == instance,
        _ => false,
    }
}

proof fn lemma_ring_sorted(points: Seq<PointView>)
    ensures
        in_ring_order(stable_sort(points, farther())),
    decreases points.len(),
{
    if points.len() > 0 {
        lemma_ring_sorted(points.drop_last());
        lemma_point_step(stable_sort(points.drop_last(), farther()), points.last(), 0);
    }
}

proof fn lemma_points_concat(a: Seq<SlotView>, b: Seq<SlotView>)
    ensures
        all_points(a + b) == all_points(a) + all_points(b),
    decreases b.len(),
{
    if b.len() == 0 {
        assert(a + b =~= a);
        assert(all_points(a) + all_points(b) =~= all_points(a));
    } else {
        assert((a + b).drop_last() =~= a + b.drop_last());
        lemma_points_concat(a, b.drop_last());
        assert(all_points(a + b) =~= all_points(a) + all_points(b));
    }
}

/// Adding a slot, wherever it stands among the others, moves shards to its instance only: a
/// shard that does not go to it stays where it was. Read backwards: removing a slot moves only
/// shards that its instance owned.
pub proof fn law_adding_a_slot_moves_shards_to_it_only(slots: Seq<SlotView>, at: int, slot: SlotView, shard: u64)
    requires
        0 <= at <= slots.len(),
    ensures
        ring_owner(ring_of(slots.insert(at, slot)), shard) == ring_owner(ring_of(slots), shard) || ring_owner(
            ring_of(slots.insert(at, slot)),
            shard,
        ) == Some(slot.instance),
{
    let (a, b) = (slots.take(at), slots.skip(at));
    let one = seq![slot];
    assert(slots =~= a + b);
    assert(slots.insert(at, slot) =~= a + one + b);
    lemma_points_concat(a, b);
    lemma_points_concat(a, one);
    lemma_points_concat(a + one, b);
    assert(one.drop_last() =~= Seq::<SlotView>::empty());
    reveal_with_fuel(all_points, 2);
    assert(all_points(one) =~= slot_points(slot));
    lemma_points_between(all_points(a), slot_points(slot), all_points(b), slot.instance, shard);
}

/// An owner on the ring is the instance of one of the slots.
pub proof fn law_ring_owner_is_a_slot(slots: Seq<SlotView>, shard: u64)
    ensures
        ring_owner(ring_of(slots), shard) matches Some(instance) ==> exists|i: int|
            0 <= i < slots.len() && (#[trigger] slots[i]).instance == instance,
    decreases slots.len(),
{
    if slots.len() == 0 {
        assert(ring_of(slots).len() == 0);
    } else {
        let front = slots.drop_last();
        law_ring_owner_is_a_slot(front, shard);
        law_adding_a_slot_moves_shards_to_it_only(front, front.len() as int, slots.last(), shard);
        assert(front.insert(front.len() as int, slots.last()) =~= slots);
        let o = ring_owner(ring_of(slots), shard);
        if o is Some {
            if o == Some(slots.last().instance) {
                assert(slots[slots.len() - 1].instance == o->0);
            } else {
                let i = choose|i: int| 0 <= i < front.len() && (#[trigger] front[i]).instance == o->0;
                assert(slots[i] == front[i]);
            }
        }
    }
}

/// With slots of at least one virtual node each, as `IptoPlacementSlot::new` makes them,
/// a placement map gives every shard an owner.
pub proof fn law_placement_owns_every_shard(epoch: u64, slots: Seq<SlotView>, overrides: Seq<RangeView>, shard: u64)
    requires
        placement_refusal(slots, overrides) is None,
        forall|i: int| 0 <= i < slots.len() ==> (#[trigger] slots[i]).vnodes > 0,
    ensures
        owner(placement(epoch, slots, overrides), shard) is Some,
{
    assert(slots[slots.len() - 1].vnodes > 0);
    crate::ordered::lemma_stable_sort_multiset(all_points(slots), farther());
    assert(slot_points(slots.last()).len() > 0);
}

/// The targets of a placement map are each named once, and the owner of every shard is among
/// them.
pub proof fn law_owners_are_targets(m: PlacementMapView, shard: u64)
    ensures
        map_targets(m).no_duplicates(),
        owner(m, shard) matches Some(target) ==> map_targets(m).contains(target),
{
    lemma_owner_is_listed(m, shard);
    lemma_add_all(Seq::empty(), point_instances(m.ring.points));
    lemma_add_all(ring_instances(m.ring.points), override_targets(m.overrides));
}

/// The overrides of a placement map do not overlap: no shard lies in two of them.
pub proof fn law_overrides_are_disjoint(slots: Seq<SlotView>, overrides: Seq<RangeView>, i: int, j: int, shard: u64)
    requires
        placement_refusal(slots, overrides) is None,
        forall|k: int| 0 <= k < overrides.len() ==> (#[trigger] overrides[k]).start <= overrides[k].end,
        0 <= i < j < sorted_ranges(overrides).len(),
    ensures
        !(range_holds(sorted_ranges(overrides)[i], shard) && range_holds(sorted_ranges(overrides)[j], shard)),
{
    let ranges = sorted_ranges(overrides);
    assert forall|k: int| 0 <= k < ranges.len() implies (#[trigger] ranges[k]).start <= ranges[k].end by {
        broadcast use vstd::seq_lib::group_to_multiset_ensures;

        crate::ordered::lemma_stable_sort_multiset(overrides, starts_later());
        assert(ranges.contains(ranges[k]));
        assert(ranges.to_multiset().count(ranges[k]) > 0);
        assert(overrides.contains(ranges[k]));
    }
    lemma_no_overlap(ranges, 0);
    lemma_disjoint(ranges, i, j);
}

proof fn lemma_no_overlap(ranges: Seq<RangeView>, from: int)
    requires
        0 <= from,
        overlap_from(ranges, from) is None,
    ensures
        forall|k: int| from <= k < ranges.len() - 1 ==> (#[trigger] ranges[k]).end < ranges[k + 1].start,
    decreases ranges.len() - from,
{
    if from + 1 < ranges.len() {
        lemma_no_overlap(ranges, from + 1);
    }
}

proof fn lemma_disjoint(ranges: Seq<RangeView>, i: int, j: int)
    requires
        0 <= i < j < ranges.len(),
        forall|k: int| 0 <= k < ranges.len() ==> (#[trigger] ranges[k]).start <= ranges[k].end,
        forall|k: int| 0 <= k < ranges.len() - 1 ==> (#[trigger] ranges[k]).end < ranges[k + 1].start,
    ensures
        ranges[i].end < ranges[j].start,
    decreases j - i,
{
    assert(ranges[i].end < ranges[i + 1].start);
    if i + 1 < j {
        lemma_disjoint(ranges, i + 1, j);
        assert(ranges[i + 1].start <= ranges[i + 1].end);
    }
}

/// A virtual node stands at the 64-bit FNV-1a hash of all bytes of its instance's name
/// followed by the four bytes of its number, least significant first.
pub proof fn law_position_is_the_hash_of_the_whole_name(h: spec_fn(Seq<u8>) -> u64, instance: Seq<char>, vnode: u32)
    requires
        h(Seq::empty()) == 0xcbf2_9ce4_8422_2325u64,
        forall|s: Seq<u8>, b: u8| #[trigger] h(s.push(b)) == (h(s) ^ (b as u64)).wrapping_mul(0x100_0000_01b3u64),
    ensures
        ring_position(instance, vnode) == h(encode_utf8(instance) + vstd::bytes::spec_u32_to_le_bytes(vnode)),
{
    crate::hash::law_fnv_is_a_fold(h, encode_utf8(instance) + vstd::bytes::spec_u32_to_le_bytes(vnode));
    crate::wire::law_wire_layout(vnode, 0, instance);
}

proof fn lemma_nearest_is_nearest(points: Seq<PointView>, position: u64) -> (i: int)
    requires
        points.len() > 0,
    ensures
        0 <= i < points.len(),
        ring_point(stable_sort(points, farther()), position) == Some(points[i]),
        forall|j: int|
            0 <= j < points.len() ==> distance(points[i], position) <= distance(#[trigger] points[j], position),
        forall|j: int| 0 <= j < i ==> distance(points[i], position) < distance(#[trigger] points[j], position),
    decreases points.len(),
{
    let front = points.drop_last();
    let last = points.last();
    lemma_nearest_step(front, last, position);
    assert(front.push(last) =~= points);
    if front.len() == 0 {
        assert(stable_sort(front, farther()).len() == 0);
        0
    } else {
        let i = lemma_nearest_is_nearest(front, position);
        let n = points.len() - 1;
        if distance(front[i], position) <= distance(last, position) {
            assert forall|j: int| 0 <= j < points.len() implies distance(points[i], position) <= distance(
                #[trigger] points[j],
                position,
            ) by {
                if j < n {
                    assert(points[j] == front[j]);
                }
            }
            assert forall|j: int| 0 <= j < i implies distance(points[i], position) < distance(
                #[trigger] points[j],
                position,
            ) by {
                assert(points[j] == front[j]);
            }
            i
        } else {
            assert forall|j: int| 0 <= j < n implies distance(points[n], position) < distance(
                #[trigger] points[j],
                position,
            ) by {
                assert(points[j] == front[j]);
            }
            n
        }
    }
}

/// Where the virtual nodes of a slot stand among those of all slots.
proof fn lemma_slot_points_at(slots: Seq<SlotView>, s: int, k: int)
    requires
        0 <= s < slots.len(),
        0 <= k < slots[s].vnodes,
    ensures
        ({
            let at = all_points(slots.take(s)).len() + k;
            &&& at < all_points(slots).len()
            &&& at < all_points(slots.take(s + 1)).len()
            &&& all_points(slots)[at] == (PointView {
                position: ring_position(slots[s].instance, k as u32),
                instance: slots[s].instance,
            })
        }),
{
    let front = slots.take(s + 1);
    assert(front.drop_last() =~= slots.take(s));
    assert(slots =~= front + slots.skip(s + 1));
    lemma_points_concat(front, slots.skip(s + 1));
    assert(front.last() == slots[s]);
}

proof fn lemma_points_grow(slots: Seq<SlotView>, s: int, t: int)
    requires
        0 <= s <= t <= slots.len(),
    ensures
        all_points(slots.take(s)).len() <= all_points(slots.take(t)).len(),
{
    assert(slots.take(t) =~= slots.take(s) + slots.subrange(s, t));
    lemma_points_concat(slots.take(s), slots.subrange(s, t));
}

proof fn lemma_point_of_slot(slots: Seq<SlotView>, i: int) -> (r: (int, int))
    requires
        0 <= i < all_points(slots).len(),
    ensures
        0 <= r.0 < slots.len(),
        0 <= r.1 < slots[r.0].vnodes,
        i == all_points(slots.take(r.0)).len() + r.1,
    decreases slots.len(),
{
    let front = slots.drop_last();
    let before = all_points(front).len();
    let last = slots.len() - 1;
    assert(slots.take(last) =~= front);
    if i < before {
        let r = lemma_point_of_slot(front, i);
        assert(front.take(r.0) =~= slots.take(r.0));
        r
    } else {
        (last, i - before)
    }
}

proof fn lemma_distance(p: PointView, position: u64)
    ensures
        distance(p, position) == (p.position - position) % 0x1_0000_0000_0000_0000,
{
    if p.position >= position {
        vstd::arithmetic::div_mod::lemma_fundamental_div_mod_converse(
            p.position - position,
            0x1_0000_0000_0000_0000,
            0,
            p.position - position,
        );
    } else {
        vstd::arithmetic::div_mod::lemma_fundamental_div_mod_converse(
            p.position - position,
            0x1_0000_0000_0000_0000,
            -1,
            p.position - position + 0x1_0000_0000_0000_0000,
        );
    }
}

/// A shard that no override holds belongs to the instance of the first virtual node at or
/// above it, going round the ring: no virtual node of any slot is nearer, and of slots with
/// a virtual node just as near the first one owns it.
pub proof fn law_nearest_virtual_node_owns(slots: Seq<SlotView>, shard: u64) -> (r: (int, int))
    requires
        exists|t: int| 0 <= t < slots.len() && (#[trigger] slots[t]).vnodes > 0,
    ensures
        0 <= r.0 < slots.len(),
        0 <= r.1 < slots[r.0].vnodes,
        ring_owner(ring_of(slots), shard) == Some(slots[r.0].instance),
        forall|t: int, l: int|
            0 <= t < slots.len() && 0 <= l < slots[t].vnodes ==> (ring_position(slots[r.0].instance, r.1 as u32) - shard)
                % 0x1_0000_0000_0000_0000 <= (#[trigger] ring_position(slots[t].instance, l as u32) - shard)
                % 0x1_0000_0000_0000_0000,
        forall|t: int, l: int|
            0 <= t < r.0 && 0 <= l < slots[t].vnodes ==> (ring_position(slots[r.0].instance, r.1 as u32) - shard)
                % 0x1_0000_0000_0000_0000 < (#[trigger] ring_position(slots[t].instance, l as u32) - shard)
                % 0x1_0000_0000_0000_0000,
{
    let points = all_points(slots);
    let some = choose|t: int| 0 <= t < slots.len() && (#[trigger] slots[t]).vnodes > 0;
    lemma_slot_points_at(slots, some, 0);
    let i = lemma_nearest_is_nearest(points, shard);
    let r = lemma_point_of_slot(slots, i);
    lemma_slot_points_at(slots, r.0, r.1);
    assert forall|t: int, l: int| 0 <= t < slots.len() && 0 <= l < slots[t].vnodes implies (ring_position(
        slots[r.0].instance,
        r.1 as u32,
    ) - shard) % 0x1_0000_0000_0000_0000 <= (#[trigger] ring_position(slots[t].instance, l as u32) - shard)
        % 0x1_0000_0000_0000_0000 by {
        lemma_slot_points_at(slots, t, l);
        let j = all_points(slots.take(t)).len() + l;
        lemma_distance(points[i], shard);
        lemma_distance(points[j], shard);
        assert(distance(points[i], shard) <= distance(points[j], shard));
    }
    assert forall|t: int, l: int| 0 <= t < r.0 && 0 <= l < slots[t].vnodes implies (ring_position(
        slots[r.0].instance,
        r.1 as u32,
    ) - shard) % 0x1_0000_0000_0000_0000 < (#[trigger] ring_position(slots[t].instance, l as u32) - shard)
        % 0x1_0000_0000_0000_0000 by {
        lemma_slot_points_at(slots, t, l);
        lemma_points_grow(slots, t + 1, r.0);
        let j = all_points(slots.take(t)).len() + l;
        lemma_distance(points[i], shard);
        lemma_distance(points[j], shard);
        assert(distance(points[i], shard) < distance(points[j], shard));
    }
    r
}

/// A shard from the start to the end of an override, both included, belongs to its target;
/// a shard outside all overrides belongs where the ring puts it.
pub proof fn law_overrides_are_exact(epoch: u64, slots: Seq<SlotView>, overrides: Seq<RangeView>, shard: u64, i: int)
    requires
        placement_refusal(slots, overrides) is None,
        forall|k: int| 0 <= k < overrides.len() ==> (#[trigger] overrides[k]).start <= overrides[k].end,
    ensures
        0 <= i < overrides.len() && overrides[i].start <= shard <= overrides[i].end ==> owner(
            placement(epoch, slots, overrides),
            shard,
        ) == Some(overrides[i].target),
        (forall|k: int|
            0 <= k < overrides.len() ==> shard < (#[trigger] overrides[k]).start || overrides[k].end < shard) ==> owner(
            placement(epoch, slots, overrides),
            shard,
        ) == ring_owner(ring_of(slots), shard),
{
    broadcast use vstd::seq_lib::group_to_multiset_ensures;

    let m = placement(epoch, slots, overrides);
    let ranges = sorted_ranges(overrides);
    crate::ordered::lemma_stable_sort_multiset(overrides, starts_later());
    law_overrides_take_priority(m, shard);
    if 0 <= i < overrides.len() && overrides[i].start <= shard <= overrides[i].end {
        assert(overrides.to_multiset().count(overrides[i]) > 0);
        assert(ranges.contains(overrides[i]));
        let a = choose|a: int| 0 <= a < ranges.len() && ranges[a] == overrides[i];
        assert(range_holds(ranges[a], shard));
        let b = choose|b: int|
            0 <= b < m.overrides.len() && range_holds(#[trigger] m.overrides[b], shard) && owner(m, shard) == Some(
                m.overrides[b].target,
            );
        if a < b {
            law_overrides_are_disjoint(slots, overrides, a, b, shard);
        } else if b < a {
            law_overrides_are_disjoint(slots, overrides, b, a, shard);
        }
    }
    if forall|k: int|
        0 <= k < overrides.len() ==> shard < (#[trigger] overrides[k]).start || overrides[k].end < shard {
        assert forall|a: int| 0 <= a < m.overrides.len() implies !range_holds(#[trigger] m.overrides[a], shard) by {
            assert(ranges.to_multiset().count(ranges[a]) > 0);
            assert(overrides.contains(ranges[a]));
        }
    }
}

/// A placement is refused exactly if it has no slot or if two of its overrides share a shard,
/// and the refusal names two such overrides.
pub proof fn law_refused_placements(slots: Seq<SlotView>, overrides: Seq<RangeView>) -> (r: (int, int))
    requires
        forall|k: int| 0 <= k < overrides.len() ==> (#[trigger] overrides[k]).start <= overrides[k].end,
    ensures
        slots.len() == 0 <==> placement_refusal(slots, overrides) == Some(ControlErrorView::NoPlacementSlots),
        slots.len() > 0 && placement_refusal(slots, overrides) is Some ==> {
            let (i, j) = r;
            &&& 0 <= i < overrides.len() && 0 <= j < overrides.len() && i != j
            &&& overrides[i].start <= overrides[j].start <= overrides[i].end
            &&& placement_refusal(slots, overrides) == Some(
                ControlErrorView::OverlappingPlacementRanges(
                    overrides[i].start,
                    overrides[i].end,
                    overrides[j].start,
                    overrides[j].end,
                ),
            )
        },
        placement_refusal(slots, overrides) is None ==> forall|i: int, j: int|
            0 <= i < overrides.len() && 0 <= j < overrides.len() && i != j ==> (#[trigger] overrides[i]).end < (
            #[trigger] overrides[j]).start || overrides[j].end < overrides[i].start,
{
    let ranges = sorted_ranges(overrides);
    let places = lemma_sorted_places(overrides);
    if slots.len() > 0 && overlap_from(ranges, 0) is Some {
        let k = lemma_overlap_found(ranges, 0);
        lemma_ranges_in_order(overrides);
        assert(ranges[k] == overrides[places[k]]);
        assert(ranges[k + 1] == overrides[places[k + 1]]);
        (places[k], places[k + 1])
    } else {
        if slots.len() > 0 {
            lemma_apart(overrides, places);
        }
        (0, 0)
    }
}

proof fn lemma_apart(overrides: Seq<RangeView>, places: Seq<int>)
    requires
        forall|k: int| 0 <= k < overrides.len() ==> (#[trigger] overrides[k]).start <= overrides[k].end,
        overlap_from(sorted_ranges(overrides), 0) is None,
        places.len() == overrides.len(),
        sorted_ranges(overrides).len() == overrides.len(),
        forall|k: int|
            0 <= k < places.len() ==> 0 <= #[trigger] places[k] < overrides.len() && sorted_ranges(overrides)[k]
                == overrides[places[k]],
        forall|i: int| 0 <= i < overrides.len() ==> #[trigger] places.contains(i),
    ensures
        forall|i: int, j: int|
            0 <= i < overrides.len() && 0 <= j < overrides.len() && i != j ==> (#[trigger] overrides[i]).end < (
            #[trigger] overrides[j]).start || overrides[j].end < overrides[i].start,
{
    assert forall|i: int, j: int| 0 <= i < overrides.len() && 0 <= j < overrides.len() && i != j implies (
    #[trigger] overrides[i]).end < (#[trigger] overrides[j]).start || overrides[j].end < overrides[i].start by {
        assert(places.contains(i) && places.contains(j));
        let a = choose|a: int| 0 <= a < places.len() && places[a] == i;
        let b = choose|b: int| 0 <= b < places.len() && places[b] == j;
        if a < b {
            lemma_apart_in_order(overrides, places, a, b);
        } else {
            lemma_apart_in_order(overrides, places, b, a);
        }
    }
}

proof fn lemma_apart_in_order(overrides: Seq<RangeView>, places: Seq<int>, a: int, b: int)
    requires
        forall|k: int| 0 <= k < overrides.len() ==> (#[trigger] overrides[k]).start <= overrides[k].end,
        overlap_from(sorted_ranges(overrides), 0) is None,
        places.len() == overrides.len(),
        sorted_ranges(overrides).len() == overrides.len(),
        forall|k: int|
            0 <= k < places.len() ==> 0 <= #[trigger] places[k] < overrides.len() && sorted_ranges(overrides)[k]
                == overrides[places[k]],
        0 <= a < b < places.len(),
    ensures
        overrides[places[a]].end < overrides[places[b]].start,
{
    let ranges = sorted_ranges(overrides);
    assert forall|k: int| 0 <= k < ranges.len() implies (#[trigger] ranges[k]).start <= ranges[k].end by {
        assert(ranges[k] == overrides[places[k]]);
    }
    lemma_no_overlap(ranges, 0);
    lemma_disjoint(ranges, a, b);
}

proof fn lemma_overlap_found(ranges: Seq<RangeView>, from: int) -> (k: int)
    requires
        0 <= from,
        overlap_from(ranges, from) is Some,
    ensures
        from <= k < ranges.len() - 1,
        overlap_from(ranges, from) == Some(k),
        ranges[k + 1].start <= ranges[k].end,
    decreases ranges.len() - from,
{
    if ranges[from + 1].start <= ranges[from].end {
        from
    } else {
        lemma_overlap_found(ranges, from + 1)
    }
}

/// Which of the ranges stands where after they have been sorted.
proof fn lemma_sorted_places(ranges: Seq<RangeView>) -> (places: Seq<int>)
    ensures
        places.len() == ranges.len(),
        sorted_ranges(ranges).len() == ranges.len(),
        places.no_duplicates(),
        forall|k: int|
            0 <= k < places.len() ==> 0 <= #[trigger] places[k] < ranges.len() && sorted_ranges(ranges)[k]
                == ranges[places[k]],
        forall|i: int| 0 <= i < ranges.len() ==> #[trigger] places.contains(i),
    decreases ranges.len(),
{
    if ranges.len() == 0 {
        Seq::empty()
    } else {
        let front = ranges.drop_last();
        let before = lemma_sorted_places(front);
        let sofar = sorted_ranges(front);
        let at = lemma_insert_place(sofar, ranges.last());
        let places = before.insert(at, ranges.len() - 1);
        assert forall|k: int| 0 <= k < places.len() implies 0 <= #[trigger] places[k] < ranges.len() && sorted_ranges(
            ranges,
        )[k] == ranges[places[k]] by {
            if k < at {
                assert(places[k] == before[k]);
            } else if k > at {
                assert(places[k] == before[k - 1]);
            }
        }
        assert forall|i: int| 0 <= i < ranges.len() implies #[trigger] places.contains(i) by {
            if i < front.len() {
                assert(before.contains(i));
                let k = choose|k: int| 0 <= k < before.len() && before[k] == i;
                assert(places[if k < at { k } else { k + 1 }] == i);
            } else {
                assert(places[at] == i);
            }
        }
        assert forall|a: int, b: int| 0 <= a < places.len() && 0 <= b < places.len() && a != b implies places[a]
            != places[b] by {
            let x = if a < at { a } else { a - 1 };
            let y = if b < at { b } else { b - 1 };
            if a == at {
                assert(places[b] == before[y] && before[y] < front.len());
            } else if b == at {
                assert(places[a] == before[x] && before[x] < front.len());
            } else {
                assert(before[x] != before[y]);
            }
        }
        places
    }
}

proof fn lemma_insert_place(s: Seq<RangeView>, x: RangeView) -> (at: int)
    ensures
        0 <= at <= s.len(),
        insert_sorted(s, x, starts_later()) == s.insert(at, x),
    decreases s.len(),
{
    if s.len() > 0 && starts_later()(s.last(), x) {
        let at = lemma_insert_place(s.drop_last(), x);
        assert(insert_sorted(s, x, starts_later()) =~= s.insert(at, x));
        at
    } else {
        assert(insert_sorted(s, x, starts_later()) =~= s.insert(s.len() as int, x));
        s.len() as int
    }
}

proof fn lemma_ranges_in_order(ranges: Seq<RangeView>)
    ensures
        forall|i: int, j: int|
            0 <= i < j < sorted_ranges(ranges).len() ==> (#[trigger] sorted_ranges(ranges)[i]).start <= (
            #[trigger] sorted_ranges(ranges)[j]).start,
{
    let order = starts_later();
    crate::ordered::lemma_stable_sort_ordered(ranges, order);
    let all = sorted_ranges(ranges);
    assert forall|i: int, j: int| 0 <= i < j < all.len() implies (#[trigger] all[i]).start <= (
    #[trigger] all[j]).start by {
        assert(!order(all[i], all[j]));
    }
}

} // verus!
