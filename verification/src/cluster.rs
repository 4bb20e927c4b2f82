//! Cluster control state.
//!
//! These are the compact records that a cluster replicates: placement maps, writer leases,
//! sealed segment manifests and checkpoints. Raw event traffic does not pass here.

use vstd::prelude::*;
use crate::data::DataIndividualShardId;
use crate::ipto::IptoInstanceId;
use crate::ordered::{
    lemma_listing_len, lists, opt_view, rank_str, sorted, text_before, text_before_connected, text_before_irreflexive,
    text_before_transitive, views, Duplicate, Key, Rank, SortedMap, SortedSet,
};
use crate::placement::{
    add_all, add_new, lemma_add_all, lemma_owner_is_listed, override_targets, owner, push_new, ring_instances,
    PlacementMapView,
};
use crate::checkpoint::{CheckpointManifestView, LeaseView, OutboxCheckpointView};
use crate::control_error::ControlErrorView;
use crate::storage::{SegmentId, SegmentManifest, SegmentManifestView};
use crate::text::{str_eq, IntoText};
pub use crate::checkpoint::{CheckpointEpoch, CheckpointManifest, LeaseEpoch, MetadataOutboxCheckpoint, WriterLease};
pub use crate::control_error::ClusterControlError;
pub use crate::placement::{
    IptoPlacementMap, IptoPlacementRange, IptoPlacementRing, IptoPlacementSlot, PlacementEpoch,
};

verus! {

/// Identifier of a cluster node.
#[derive(Debug, PartialEq, Eq, PartialOrd, Ord, Hash)]
pub struct NodeId(String);

impl View for NodeId {
    type V = Seq<char>;

    closed spec fn view(&self) -> Seq<char> {
        self.0@
    }
}

impl NodeId {
    /// Wraps a text.
    pub fn new(value: impl IntoText) -> (r: Self)
        ensures
            r@ == value.text(),
    {
        NodeId(value.into_text())
    }

    /// The wrapped text.
    pub fn as_str(&self) -> (r: &str)
        ensures
            r@ == self@,
    {
        self.0.as_str()
    }
}

impl Clone for NodeId {
    fn clone(&self) -> (r: Self)
        ensures
            r == *self,
    {
        NodeId(self.0.clone())
    }
}

impl Duplicate for NodeId {
    fn duplicate(&self) -> (r: Self) {
        self.clone()
    }
}

impl From<&str> for NodeId {
    fn from(value: &str) -> (r: Self)
        ensures
            r@ == value@,
    {
        NodeId(value.to_owned())
    }
}

impl vstd::std_specs::convert::FromSpecImpl<&str> for NodeId {
    open spec fn obeys_from_spec() -> bool {
        false
    }

    open spec fn from_spec(v: &str) -> Self {
        arbitrary()
    }
}

impl From<String> for NodeId {
    fn from(value: String) -> (r: Self)
        ensures
            r@ == value@,
    {
        NodeId(value)
    }
}

impl vstd::std_specs::convert::FromSpecImpl<String> for NodeId {
    open spec fn obeys_from_spec() -> bool {
        false
    }

    open spec fn from_spec(v: String) -> Self {
        arbitrary()
    }
}

impl Key for NodeId {
    open spec fn before(a: Seq<char>, b: Seq<char>) -> bool {
        text_before(a, b)
    }

    proof fn before_irreflexive(a: Seq<char>) {
        text_before_irreflexive(a);
    }

    proof fn before_transitive(a: Seq<char>, b: Seq<char>, c: Seq<char>) {
        text_before_transitive(a, b, c);
    }

    proof fn before_connected(a: Seq<char>, b: Seq<char>) {
        text_before_connected(a, b);
    }

    fn rank(&self, other: &Self) -> (r: Rank) {
        rank_str(self.as_str(), other.as_str())
    }
}

/// How many placement maps are kept.
pub const MAX_PLACEMENT_HISTORY: usize = 5;

/// A change of the control state.
#[derive(Debug, PartialEq, Eq)]
pub enum ClusterControlCommand {
    AddNode(NodeId),
    RemoveNode(NodeId),
    SetIptoPlacementMap(IptoPlacementMap),
    GrantWriterLease(WriterLease),
    RecordOutboxCheckpoint(MetadataOutboxCheckpoint),
    RecordSealedSegment(SegmentManifest),
    RecordCheckpoint(CheckpointManifest),
}

/// The view of a command.
pub enum CommandView {
    AddNode(Seq<char>),
    RemoveNode(Seq<char>),
    SetIptoPlacementMap(PlacementMapView),
    GrantWriterLease(LeaseView),
    RecordOutboxCheckpoint(OutboxCheckpointView),
    RecordSealedSegment(SegmentManifestView),
    RecordCheckpoint(CheckpointManifestView),
}

impl View for ClusterControlCommand {
    type V = CommandView;

    open spec fn view(&self) -> CommandView {
        match self {
            ClusterControlCommand::AddNode(node) => CommandView::AddNode(node@),
            ClusterControlCommand::RemoveNode(node) => CommandView::RemoveNode(node@),
            ClusterControlCommand::SetIptoPlacementMap(map) => CommandView::SetIptoPlacementMap(map@),
            ClusterControlCommand::GrantWriterLease(lease) => CommandView::GrantWriterLease(lease@),
            ClusterControlCommand::RecordOutboxCheckpoint(c) => CommandView::RecordOutboxCheckpoint(c@),
            ClusterControlCommand::RecordSealedSegment(m) => CommandView::RecordSealedSegment(m@),
            ClusterControlCommand::RecordCheckpoint(c) => CommandView::RecordCheckpoint(c@),
        }
    }
}

impl Clone for ClusterControlCommand {
    fn clone(&self) -> (r: Self)
        ensures
            r@ == self@,
    {
        match self {
            ClusterControlCommand::AddNode(node) => ClusterControlCommand::AddNode(node.clone()),
            ClusterControlCommand::RemoveNode(node) => ClusterControlCommand::RemoveNode(node.clone()),
            ClusterControlCommand::SetIptoPlacementMap(map) => ClusterControlCommand::SetIptoPlacementMap(map.clone()),
            ClusterControlCommand::GrantWriterLease(lease) => ClusterControlCommand::GrantWriterLease(lease.clone()),
            ClusterControlCommand::RecordOutboxCheckpoint(c) => ClusterControlCommand::RecordOutboxCheckpoint(
                c.clone(),
            ),
            ClusterControlCommand::RecordSealedSegment(m) => ClusterControlCommand::RecordSealedSegment(m.clone()),
            ClusterControlCommand::RecordCheckpoint(c) => ClusterControlCommand::RecordCheckpoint(c.clone()),
        }
    }
}

/// The compact state that a replicated state machine keeps.
///
/// It stores the current placement map and a bounded history of earlier ones, for query
/// fallback during reconfiguration.
#[derive(Debug)]
pub struct ClusterControlState {
    nodes: SortedSet<NodeId>,
    placement_maps: SortedMap<PlacementEpoch, IptoPlacementMap>,
    writer_leases: SortedMap<IptoInstanceId, WriterLease>,
    outbox_checkpoints: SortedMap<(DataIndividualShardId, IptoInstanceId), MetadataOutboxCheckpoint>,
    sealed_segments: SortedMap<SegmentId, SegmentManifest>,
    checkpoints: SortedMap<String, CheckpointManifest>,
}

/// The view of the control state.
pub struct ControlView {
    pub nodes: Set<Seq<char>>,
    pub placement_maps: Map<u64, PlacementMapView>,
    pub writer_leases: Map<Seq<char>, LeaseView>,
    pub outbox_checkpoints: Map<(u64, Seq<char>), OutboxCheckpointView>,
    pub sealed_segments: Map<Seq<char>, SegmentManifestView>,
    pub checkpoints: Map<Seq<char>, CheckpointManifestView>,
}

impl View for ClusterControlState {
    type V = ControlView;

    closed spec fn view(&self) -> ControlView {
        ControlView {
            nodes: self.nodes@,
            placement_maps: self.placement_maps@,
            writer_leases: self.writer_leases@,
            outbox_checkpoints: self.outbox_checkpoints@,
            sealed_segments: self.sealed_segments@,
            checkpoints: self.checkpoints@,
        }
    }
}

/// A control state without records.
pub open spec fn empty_control() -> ControlView {
    ControlView {
        nodes: Set::empty(),
        placement_maps: Map::empty(),
        writer_leases: Map::empty(),
        outbox_checkpoints: Map::empty(),
        sealed_segments: Map::empty(),
        checkpoints: Map::empty(),
    }
}

/// The epochs of the known placement maps, the oldest first.
pub open spec fn epochs(maps: Map<u64, PlacementMapView>) -> Seq<u64> {
    sorted::<PlacementEpoch>(maps.dom())
}

/// The placement map with the latest epoch.
pub open spec fn latest_map(maps: Map<u64, PlacementMapView>) -> Option<PlacementMapView> {
    if epochs(maps).len() > 0 {
        Some(maps[epochs(maps).last()])
    } else {
        None
    }
}

/// The newest maps, as many as are kept.
pub open spec fn newest(maps: Map<u64, PlacementMapView>) -> Map<u64, PlacementMapView> {
    let known = epochs(maps);
    if known.len() <= MAX_PLACEMENT_HISTORY {
        maps
    } else {
        maps.restrict(known.skip(known.len() - MAX_PLACEMENT_HISTORY).to_set())
    }
}

/// The leases that a node does not hold.
pub open spec fn leases_without(leases: Map<Seq<char>, LeaseView>, node: Seq<char>) -> Map<Seq<char>, LeaseView> {
    Map::new(|t: Seq<char>| leases.contains_key(t) && leases[t].holder != node, |t: Seq<char>| leases[t])
}

/// The state after a command, or why the command is refused.
pub open spec fn applied(s: ControlView, c: CommandView) -> Result<ControlView, ControlErrorView> {
    match c {
        CommandView::AddNode(node) => Ok(ControlView { nodes: s.nodes.insert(node), ..s }),
        CommandView::RemoveNode(node) => Ok(
            ControlView {
                nodes: s.nodes.remove(node),
                writer_leases: leases_without(s.writer_leases, node),
                ..s
            },
        ),
        CommandView::SetIptoPlacementMap(map) => match latest_map(s.placement_maps) {
            Some(current) if map.epoch <= current.epoch => Err(
                ControlErrorView::StalePlacementEpoch(current.epoch, map.epoch),
            ),
            _ => Ok(
                ControlView { placement_maps: newest(s.placement_maps.insert(map.epoch, map)), ..s },
            ),
        },
        CommandView::GrantWriterLease(lease) => if !s.nodes.contains(lease.holder) {
            Err(ControlErrorView::UnknownLeaseHolder(lease.holder))
        } else if s.writer_leases.contains_key(lease.target) && lease.epoch
            <= s.writer_leases[lease.target].epoch {
            Err(
                ControlErrorView::StaleLeaseEpoch(lease.target, s.writer_leases[lease.target].epoch, lease.epoch),
            )
        } else {
            Ok(ControlView { writer_leases: s.writer_leases.insert(lease.target, lease), ..s })
        },
        CommandView::RecordOutboxCheckpoint(c) => if s.outbox_checkpoints.contains_key((c.shard, c.target)) && c.epoch
            <= s.outbox_checkpoints[(c.shard, c.target)].epoch {
            Err(
                ControlErrorView::StaleCheckpointEpoch(
                    c.shard,
                    c.target,
                    s.outbox_checkpoints[(c.shard, c.target)].epoch,
                    c.epoch,
                ),
            )
        } else {
            Ok(ControlView { outbox_checkpoints: s.outbox_checkpoints.insert((c.shard, c.target), c), ..s })
        },
        CommandView::RecordSealedSegment(m) => Ok(
            ControlView { sealed_segments: s.sealed_segments.insert(m.segment_id, m), ..s },
        ),
        CommandView::RecordCheckpoint(c) => if s.checkpoints.contains_key(c.checkpoint_id) && c.epoch
            <= s.checkpoints[c.checkpoint_id].epoch {
            Err(
                ControlErrorView::StaleCheckpointManifest(
                    c.checkpoint_id,
                    s.checkpoints[c.checkpoint_id].epoch,
                    c.epoch,
                ),
            )
        } else {
            Ok(ControlView { checkpoints: s.checkpoints.insert(c.checkpoint_id, c), ..s })
        },
    }
}

/// The owner of a shard in the latest placement map.
pub open spec fn current_owner(s: ControlView, shard: u64) -> Option<Seq<char>> {
    match latest_map(s.placement_maps) {
        Some(map) => owner(map, shard),
        None => None,
    }
}

/// The owners of a shard in placement maps, appended to those already known, the newest
/// map first, each once.
pub open spec fn owners(maps: Map<u64, PlacementMapView>, known: Seq<u64>, shard: u64, found: Seq<Seq<char>>) -> Seq<
    Seq<char>,
>
    decreases known.len(),
{
    if known.len() == 0 {
        found
    } else {
        owners(
            maps,
            known.drop_last(),
            shard,
            match owner(maps[known.last()], shard) {
                Some(target) => add_new(found, target),
                None => found,
            },
        )
    }
}

/// The instances of placement maps, the oldest map first, of each map those on its ring
/// before the targets of its overrides, each once.
pub open spec fn instances_of(maps: Map<u64, PlacementMapView>, known: Seq<u64>) -> Seq<Seq<char>>
    decreases known.len(),
{
    if known.len() == 0 {
        Seq::empty()
    } else {
        let map = maps[known.last()];
        add_all(
            add_all(instances_of(maps, known.drop_last()), ring_instances(map.ring.points)),
            override_targets(map.overrides),
        )
    }
}

proof fn lemma_instances_of(maps: Map<u64, PlacementMapView>, known: Seq<u64>)
    ensures
        instances_of(maps, known).no_duplicates(),
        forall|epoch: u64, shard: u64|
            known.contains(epoch) && (#[trigger] owner(maps[epoch], shard)) is Some ==> instances_of(
                maps,
                known,
            ).contains(owner(maps[epoch], shard)->0),
    decreases known.len(),
{
    if known.len() > 0 {
        let front = known.drop_last();
        lemma_instances_of(maps, front);
        let before = instances_of(maps, front);
        let map = maps[known.last()];
        let ring = ring_instances(map.ring.points);
        lemma_add_all(before, ring);
        lemma_add_all(add_all(before, ring), override_targets(map.overrides));
        assert forall|epoch: u64, shard: u64|
            known.contains(epoch) && (#[trigger] owner(maps[epoch], shard)) is Some implies instances_of(
            maps,
            known,
        ).contains(owner(maps[epoch], shard)->0) by {
            let i = choose|i: int| 0 <= i < known.len() && known[i] == epoch;
            if i < front.len() {
                assert(front[i] == epoch);
                assert(front.contains(epoch));
                assert(before.contains(owner(maps[epoch], shard)->0));
            } else {
                lemma_owner_is_listed(map, shard);
            }
        }
    }
}

impl ClusterControlState {
    /// A control state without records.
    pub fn new() -> (r: Self)
        ensures
            r@ == empty_control(),
    {
        ClusterControlState {
            nodes: SortedSet::new(),
            placement_maps: SortedMap::new(),
            writer_leases: SortedMap::new(),
            outbox_checkpoints: SortedMap::new(),
            sealed_segments: SortedMap::new(),
            checkpoints: SortedMap::new(),
        }
    }

    /// Applies a command; a command that is refused changes nothing.
    pub fn apply(&mut self, command: ClusterControlCommand) -> (r: Result<(), ClusterControlError>)
        ensures
            match (applied(old(self)@, command@), r) {
                (Ok(after), Ok(())) => final(self)@ == after,
                (Err(e), Err(x)) => x@ == e && final(self)@ == old(self)@,
                _ => false,
            },
    {
        match command {
            ClusterControlCommand::AddNode(node_id) => {
                let _ = self.nodes.insert(node_id);
                Ok(())
            },
            ClusterControlCommand::RemoveNode(node_id) => {
                let _ = self.nodes.remove(&node_id);
                self.drop_leases(&node_id);
                Ok(())
            },
            ClusterControlCommand::SetIptoPlacementMap(map) => self.insert_placement_map(map),
            ClusterControlCommand::GrantWriterLease(lease) => {
                if !self.nodes.contains(&lease.holder) {
                    return Err(ClusterControlError::UnknownLeaseHolder { holder: lease.holder });
                }
                if let Some(current) = self.writer_leases.get(&lease.target) {
                    if lease.epoch.0 <= current.epoch.0 {
                        return Err(
                            ClusterControlError::StaleLeaseEpoch {
                                target: lease.target,
                                current: current.epoch,
                                proposed: lease.epoch,
                            },
                        );
                    }
                }
                let _ = self.writer_leases.insert(lease.target.clone(), lease);
                Ok(())
            },
            ClusterControlCommand::RecordOutboxCheckpoint(checkpoint) => {
                let key = (checkpoint.data_individual_shard_id, checkpoint.target.clone());
                if let Some(current) = self.outbox_checkpoints.get(&key) {
                    if checkpoint.epoch.0 <= current.epoch.0 {
                        return Err(
                            ClusterControlError::StaleCheckpointEpoch {
                                shard_id: checkpoint.data_individual_shard_id,
                                target: checkpoint.target,
                                current: current.epoch,
                                proposed: checkpoint.epoch,
                            },
                        );
                    }
                }
                let _ = self.outbox_checkpoints.insert(key, checkpoint);
                Ok(())
            },
            ClusterControlCommand::RecordSealedSegment(manifest) => {
                let _ = self.sealed_segments.insert(manifest.segment_id.clone(), manifest);
                Ok(())
            },
            ClusterControlCommand::RecordCheckpoint(checkpoint) => {
                if let Some(current) = self.checkpoints.get(&checkpoint.checkpoint_id) {
                    if checkpoint.epoch.0 <= current.epoch.0 {
                        return Err(
                            ClusterControlError::StaleCheckpointManifest {
                                checkpoint_id: checkpoint.checkpoint_id,
                                current: current.epoch,
                                proposed: checkpoint.epoch,
                            },
                        );
                    }
                }
                let _ = self.checkpoints.insert(checkpoint.checkpoint_id.clone(), checkpoint);
                Ok(())
            },
        }
    }

    fn drop_leases(&mut self, node_id: &NodeId)
        ensures
            final(self)@ == (ControlView {
                writer_leases: leases_without(old(self)@.writer_leases, node_id@),
                ..old(self)@
            }),
    {
        let n: usize = self.writer_leases.len();
        let ghost leases = self.writer_leases@;
        let ghost keys = self.writer_leases.keys();
        let mut kept: SortedMap<IptoInstanceId, WriterLease> = SortedMap::new();
        let mut i: usize = 0;
        while i < n
            invariant
                i <= n,
                n == leases.dom().len(),
                n == keys.len(),
                lists::<IptoInstanceId>(keys, leases.dom()),
                keys == self.writer_leases.keys(),
                leases == self.writer_leases@,
                self@ == old(self)@,
                forall|t: Seq<char>|
                    #[trigger] kept@.contains_key(t) ==> leases.contains_key(t) && leases[t].holder != node_id@
                        && kept@[t] == leases[t],
                forall|j: int|
                    0 <= j < i && leases[#[trigger] keys[j]].holder != node_id@ ==> kept@.contains_key(keys[j]),
            decreases n - i,
        {
            let lease = self.writer_leases.value_at(i);
            if !str_eq(lease.holder.as_str(), node_id.as_str()) {
                let key = self.writer_leases.key_at(i).clone();
                let _ = kept.insert(key, lease.clone());
            }
            i += 1;
        }
        proof {
            let wanted = leases_without(leases, node_id@);
            assert forall|t: Seq<char>| kept@.contains_key(t) == wanted.contains_key(t) by {
                if wanted.contains_key(t) {
                    assert(leases.dom().contains(t));
                    assert(keys.contains(t));
                    let j = choose|j: int| 0 <= j < keys.len() && keys[j] == t;
                    assert(kept@.contains_key(keys[j]));
                }
            }
            assert(kept@ =~= wanted);
        }
        self.writer_leases = kept;
    }

    fn insert_placement_map(&mut self, map: IptoPlacementMap) -> (r: Result<(), ClusterControlError>)
        ensures
            match (applied(old(self)@, CommandView::SetIptoPlacementMap(map@)), r) {
                (Ok(after), Ok(())) => final(self)@ == after,
                (Err(e), Err(x)) => x@ == e && final(self)@ == old(self)@,
                _ => false,
            },
    {
        let n: usize = self.placement_maps.len();
        let epoch = map.epoch();
        if n > 0 {
            let current = self.placement_maps.value_at(n - 1).epoch();
            if epoch.0 <= current.0 {
                return Err(ClusterControlError::StalePlacementEpoch { current, proposed: epoch });
            }
        }
        let _ = self.placement_maps.insert(epoch, map);
        let ghost all = self.placement_maps@;
        let ghost known = epochs(all);
        let ghost mut dropped: int = 0;
        let total: usize = self.placement_maps.len();
        let mut left: usize = total;
        assert(known.skip(0) =~= known);
        assert(all.restrict(known.skip(0).to_set()) =~= all) by {
            assert forall|k: u64| all.contains_key(k) implies known.skip(0).to_set().contains(k) by {
                assert(known.contains(k));
            }
        }
        while left > MAX_PLACEMENT_HISTORY
            invariant
                left + dropped == total,
                0 <= dropped,
                total == known.len(),
                known == epochs(all),
                lists::<PlacementEpoch>(known, all.dom()),
                left == self.placement_maps@.dom().len(),
                self.placement_maps@ == all.restrict(known.skip(dropped).to_set()),
                dropped == 0 || left >= MAX_PLACEMENT_HISTORY,
                self@ == (ControlView { placement_maps: self.placement_maps@, ..old(self)@ }),
            decreases left,
        {
            let ghost now = self.placement_maps@;
            proof {
                lemma_suffix_listing(all, known, dropped);
                assert(known.skip(dropped)[0] == known[dropped]);
            }
            let oldest = *self.placement_maps.key_at(0);
            let _ = self.placement_maps.remove(&oldest);
            proof {
                lemma_suffix_listing(all, known, dropped + 1);
                assert(now.remove(oldest@) =~= all.restrict(known.skip(dropped + 1).to_set())) by {
                    assert forall|k: u64|
                        now.remove(oldest@).contains_key(k) == all.restrict(
                            known.skip(dropped + 1).to_set(),
                        ).contains_key(k) by {
                        lemma_suffix_step(known, all.dom(), dropped, k);
                    }
                }
                dropped = dropped + 1;
            }
            left = left - 1;
        }
        proof {
            if total <= MAX_PLACEMENT_HISTORY {
                assert(self.placement_maps@ == all);
            }
        }
        Ok(())
    }

    /// The cluster nodes.
    pub fn nodes(&self) -> (r: &SortedSet<NodeId>)
        ensures
            r@ == self@.nodes,
    {
        &self.nodes
    }

    /// The placement map with the latest epoch.
    pub fn placement_map(&self) -> (r: Option<&IptoPlacementMap>)
        ensures
            opt_view(r) == latest_map(self@.placement_maps),
    {
        let n: usize = self.placement_maps.len();
        if n == 0 {
            None
        } else {
            Some(self.placement_maps.value_at(n - 1))
        }
    }

    /// The owner of a shard in the latest placement map.
    pub fn resolve_ipto_target(&self, shard_id: DataIndividualShardId) -> (r: Option<&IptoInstanceId>)
        ensures
            opt_view(r) == current_owner(self@, shard_id@),
    {
        match self.placement_map() {
            Some(map) => map.resolve(shard_id),
            None => None,
        }
    }

    /// The owners of a shard in all known placement maps, the current one first, then the
    /// earlier ones from the newest to the oldest, each instance once.
    pub fn resolve_with_fallback(&self, shard_id: DataIndividualShardId) -> (r: Vec<IptoInstanceId>)
        ensures
            views(r@) == owners(self@.placement_maps, epochs(self@.placement_maps), shard_id@, Seq::empty()),
    {
        let mut candidates: Vec<IptoInstanceId> = Vec::new();
        let n: usize = self.placement_maps.len();
        let ghost maps = self@.placement_maps;
        let ghost known = epochs(maps);
        let mut left: usize = n;
        assert(known.take(n as int) =~= known);
        assert(views(candidates@) =~= Seq::<Seq<char>>::empty());
        while left > 0
            invariant
                left <= n,
                n == known.len(),
                n == maps.dom().len(),
                known == self.placement_maps.keys(),
                maps == self.placement_maps@,
                owners(maps, known, shard_id@, Seq::empty()) == owners(
                    maps,
                    known.take(left as int),
                    shard_id@,
                    views(candidates@),
                ),
            decreases left,
        {
            assert(known.take(left as int).drop_last() =~= known.take(left - 1));
            if let Some(target) = self.placement_maps.value_at(left - 1).resolve(shard_id) {
                push_new(&mut candidates, target);
            }
            left = left - 1;
        }
        candidates
    }

    /// All instances of all known placement maps, each once: every instance on which a known
    /// map can place a shard.
    pub fn all_ipto_instances(&self) -> (r: Vec<IptoInstanceId>)
        ensures
            views(r@) == instances_of(self@.placement_maps, epochs(self@.placement_maps)),
            views(r@).no_duplicates(),
            forall|epoch: u64, shard: u64|
                self@.placement_maps.contains_key(epoch) && (#[trigger] owner(
                    self@.placement_maps[epoch],
                    shard,
                )) is Some ==> views(r@).contains(owner(self@.placement_maps[epoch], shard)->0),
    {
        let mut found: Vec<IptoInstanceId> = Vec::new();
        let n: usize = self.placement_maps.len();
        let ghost maps = self@.placement_maps;
        let ghost known = epochs(maps);
        let mut i: usize = 0;
        assert(views(found@) =~= instances_of(maps, known.take(0)));
        while i < n
            invariant
                i <= n,
                n == known.len(),
                n == maps.dom().len(),
                known == self.placement_maps.keys(),
                maps == self.placement_maps@,
                views(found@) == instances_of(maps, known.take(i as int)),
            decreases n - i,
        {
            assert(known.take(i + 1).drop_last() =~= known.take(i as int));
            let more = self.placement_maps.value_at(i).instances();
            let ghost sofar = views(found@);
            let ghost names = views(more@);
            let mut j: usize = 0;
            assert(add_all(sofar, names.take(0)) =~= sofar);
            while j < more.len()
                invariant
                    j <= more.len(),
                    names == views(more@),
                    views(found@) == add_all(sofar, names.take(j as int)),
                decreases more.len() - j,
            {
                assert(names.take(j + 1).drop_last() =~= names.take(j as int));
                push_new(&mut found, &more[j]);
                j += 1;
            }
            assert(names.take(more.len() as int) =~= names);
            let overrides = self.placement_maps.value_at(i).overrides();
            let ghost sofar = views(found@);
            let ghost names = override_targets(views(overrides@));
            let mut k: usize = 0;
            assert(add_all(sofar, names.take(0)) =~= sofar);
            while k < overrides.len()
                invariant
                    k <= overrides.len(),
                    names == override_targets(views(overrides@)),
                    views(found@) == add_all(sofar, names.take(k as int)),
                decreases overrides.len() - k,
            {
                assert(names.take(k + 1).drop_last() =~= names.take(k as int));
                assert(names[k as int] == overrides@[k as int].target@);
                push_new(&mut found, &overrides[k].target);
                k += 1;
            }
            assert(names.take(overrides.len() as int) =~= names);
            i += 1;
        }
        assert(known.take(n as int) =~= known);
        proof {
            lemma_instances_of(maps, known);
            assert forall|epoch: u64, shard: u64|
                maps.contains_key(epoch) && (#[trigger] owner(maps[epoch], shard)) is Some implies views(
                found@,
            ).contains(owner(maps[epoch], shard)->0) by {
                assert(maps.dom().contains(epoch));
                assert(known.contains(epoch));
            }
        }
        found
    }

    /// The known placement maps by epoch.
    pub fn placement_map_history(&self) -> (r: &SortedMap<PlacementEpoch, IptoPlacementMap>)
        ensures
            r@ == self@.placement_maps,
    {
        &self.placement_maps
    }

    /// The writer leases by target.
    pub fn writer_leases(&self) -> (r: &SortedMap<IptoInstanceId, WriterLease>)
        ensures
            r@ == self@.writer_leases,
    {
        &self.writer_leases
    }

    /// The writer lease of a target.
    pub fn writer_lease(&self, target: &IptoInstanceId) -> (r: Option<&WriterLease>)
        ensures
            match r {
                Some(lease) => self@.writer_leases.contains_key(target@) && lease@ == self@.writer_leases[target@],
                None => !self@.writer_leases.contains_key(target@),
            },
    {
        self.writer_leases.get(target)
    }

    /// The outbox checkpoints by shard and target.
    pub fn outbox_checkpoints(&self) -> (r: &SortedMap<(DataIndividualShardId, IptoInstanceId), MetadataOutboxCheckpoint>)
        ensures
            r@ == self@.outbox_checkpoints,
    {
        &self.outbox_checkpoints
    }

    /// The outbox checkpoint of a shard and a target.
    pub fn outbox_checkpoint(&self, shard_id: DataIndividualShardId, target: &IptoInstanceId) -> (r: Option<
        &MetadataOutboxCheckpoint,
    >)
        ensures
            match r {
                Some(c) => self@.outbox_checkpoints.contains_key((shard_id@, target@)) && c@
                    == self@.outbox_checkpoints[(shard_id@, target@)],
                None => !self@.outbox_checkpoints.contains_key((shard_id@, target@)),
            },
    {
        self.outbox_checkpoints.get(&(shard_id, target.clone()))
    }

    /// The sealed segments by identifier.
    pub fn sealed_segments(&self) -> (r: &SortedMap<SegmentId, SegmentManifest>)
        ensures
            r@ == self@.sealed_segments,
    {
        &self.sealed_segments
    }

    /// A sealed segment.
    pub fn sealed_segment(&self, segment_id: &SegmentId) -> (r: Option<&SegmentManifest>)
        ensures
            match r {
                Some(m) => self@.sealed_segments.contains_key(segment_id@) && m@
                    == self@.sealed_segments[segment_id@],
                None => !self@.sealed_segments.contains_key(segment_id@),
            },
    {
        self.sealed_segments.get(segment_id)
    }

    /// A recovery checkpoint.
    pub fn checkpoint(&self, checkpoint_id: &str) -> (r: Option<&CheckpointManifest>)
        ensures
            match r {
                Some(c) => self@.checkpoints.contains_key(checkpoint_id@) && c@
                    == self@.checkpoints[checkpoint_id@],
                None => !self@.checkpoints.contains_key(checkpoint_id@),
            },
    {
        self.checkpoints.get(&checkpoint_id.to_owned())
    }

    /// The recovery checkpoints by identifier.
    pub fn checkpoints(&self) -> (r: &SortedMap<String, CheckpointManifest>)
        ensures
            r@ == self@.checkpoints,
    {
        &self.checkpoints
    }
}

impl Default for ClusterControlState {
    fn default() -> (r: Self)
        ensures
            r@ == empty_control(),
    {
        ClusterControlState::new()
    }
}

impl Clone for ClusterControlState {
    fn clone(&self) -> (r: Self)
        ensures
            r@ == self@,
    {
        ClusterControlState {
            nodes: self.nodes.clone(),
            placement_maps: self.placement_maps.clone(),
            writer_leases: self.writer_leases.clone(),
            outbox_checkpoints: self.outbox_checkpoints.clone(),
            sealed_segments: self.sealed_segments.clone(),
            checkpoints: self.checkpoints.clone(),
        }
    }
}

proof fn lemma_suffix_step(known: Seq<u64>, dom: Set<u64>, i: int, k: u64)
    requires
        lists::<PlacementEpoch>(known, dom),
        0 <= i < known.len(),
    ensures
        known.skip(i + 1).to_set().contains(k) == (known.skip(i).to_set().contains(k) && k != known[i]),
{
    let tail = known.skip(i + 1);
    let longer = known.skip(i);
    if tail.contains(k) {
        let j = choose|j: int| 0 <= j < tail.len() && tail[j] == k;
        assert(longer[j + 1] == k);
        assert(PlacementEpoch::before(known[i], known[i + 1 + j]));
    }
    if longer.contains(k) && k != known[i] {
        let j = choose|j: int| 0 <= j < longer.len() && longer[j] == k;
        assert(tail[j - 1] == k);
    }
}

proof fn lemma_suffix_listing(all: Map<u64, PlacementMapView>, known: Seq<u64>, i: int)
    requires
        lists::<PlacementEpoch>(known, all.dom()),
        0 <= i <= known.len(),
    ensures
        ({
            let rest = all.restrict(known.skip(i).to_set());
            &&& lists::<PlacementEpoch>(known.skip(i), rest.dom())
            &&& epochs(rest) == known.skip(i)
            &&& rest.dom().finite()
            &&& rest.dom().len() == known.len() - i
        }),
{
    let tail = known.skip(i);
    let rest = all.restrict(tail.to_set());
    assert forall|a: int, b: int| 0 <= a < b < tail.len() implies PlacementEpoch::before(
        #[trigger] tail[a],
        #[trigger] tail[b],
    ) by {
        assert(PlacementEpoch::before(known[a + i], known[b + i]));
    }
    assert forall|a: int| 0 <= a < tail.len() implies rest.dom().contains(#[trigger] tail[a]) by {
        assert(all.dom().contains(known[a + i]));
        assert(tail.contains(tail[a]));
    }
    lemma_listing_len::<PlacementEpoch>(tail, rest.dom());
}

// ---------------------------------------------------------------------------
// Laws
// ---------------------------------------------------------------------------

/// Whether every placement map is filed under its own epoch, no more maps are kept than
/// the history allows, and their epochs can be listed.
pub open spec fn control_consistent(s: ControlView) -> bool {
    &&& lists::<PlacementEpoch>(epochs(s.placement_maps), s.placement_maps.dom())
    &&& epochs(s.placement_maps).len() <= MAX_PLACEMENT_HISTORY
    &&& forall|k: u64| #[trigger] s.placement_maps.contains_key(k) ==> s.placement_maps[k].epoch == k
    &&& forall|t: Seq<char>| #[trigger] s.writer_leases.contains_key(t) ==> s.writer_leases[t].target == t
        && s.nodes.contains(s.writer_leases[t].holder)
}

proof fn lemma_insert_last(maps: Map<u64, PlacementMapView>, map: PlacementMapView)
    requires
        lists::<PlacementEpoch>(epochs(maps), maps.dom()),
        forall|k: u64| #[trigger] maps.contains_key(k) ==> maps[k].epoch == k,
        latest_map(maps) matches Some(current) ==> current.epoch < map.epoch,
    ensures
        epochs(maps.insert(map.epoch, map)) == epochs(maps).push(map.epoch),
        lists::<PlacementEpoch>(epochs(maps).push(map.epoch), maps.insert(map.epoch, map).dom()),
{
    let known = epochs(maps);
    let longer = known.push(map.epoch);
    let dom = maps.insert(map.epoch, map).dom();
    if known.len() > 0 {
        assert(maps.dom().contains(known[known.len() - 1]));
    }
    assert forall|i: int, j: int| 0 <= i < j < longer.len() implies PlacementEpoch::before(
        #[trigger] longer[i],
        #[trigger] longer[j],
    ) by {
        if j == known.len() {
            if i < known.len() - 1 {
                assert(PlacementEpoch::before(known[i], known[known.len() - 1]));
            }
        } else {
            assert(PlacementEpoch::before(known[i], known[j]));
        }
    }
    assert forall|i: int| 0 <= i < longer.len() implies dom.contains(#[trigger] longer[i]) by {
        if i < known.len() {
            assert(maps.dom().contains(known[i]));
        }
    }
    assert forall|k: u64| #[trigger] dom.contains(k) implies longer.contains(k) by {
        if k == map.epoch {
            assert(longer[known.len() as int] == k);
        } else {
            assert(maps.dom().contains(k));
            assert(known.contains(k));
            let i = choose|i: int| 0 <= i < known.len() && known[i] == k;
            assert(longer[i] == k);
        }
    }
    lemma_listing_len::<PlacementEpoch>(longer, dom);
}

proof fn lemma_newest(maps: Map<u64, PlacementMapView>, known: Seq<u64>)
    requires
        lists::<PlacementEpoch>(known, maps.dom()),
        known == epochs(maps),
    ensures
        ({
            let kept = if known.len() <= MAX_PLACEMENT_HISTORY {
                known
            } else {
                known.skip(known.len() - MAX_PLACEMENT_HISTORY)
            };
            &&& epochs(newest(maps)) == kept
            &&& lists::<PlacementEpoch>(kept, newest(maps).dom())
        }),
{
    if known.len() > MAX_PLACEMENT_HISTORY {
        lemma_suffix_listing(maps, known, known.len() - MAX_PLACEMENT_HISTORY);
    }
}

/// A state without records is consistent, and no command makes it inconsistent: the
/// placement history stays bounded, every map is filed under its epoch, and every lease is
/// held by a cluster node.
pub proof fn law_commands_keep_consistency(s: ControlView, c: CommandView)
    ensures
        control_consistent(empty_control()),
        control_consistent(s) ==> (applied(s, c) matches Ok(after) ==> control_consistent(after)),
{
    lemma_listing_len::<PlacementEpoch>(Seq::<u64>::empty(), Map::<u64, PlacementMapView>::empty().dom());
    if control_consistent(s) && applied(s, c) is Ok {
        let after = applied(s, c)->Ok_0;
        match c {
            CommandView::SetIptoPlacementMap(map) => {
                lemma_insert_last(s.placement_maps, map);
                let all = s.placement_maps.insert(map.epoch, map);
                lemma_newest(all, epochs(all));
            },
            _ => {},
        }
    }
}

/// A placement map that is accepted becomes the current one, and its epoch is later than
/// that of every map known before.
pub proof fn law_accepted_map_is_current(s: ControlView, map: PlacementMapView)
    requires
        control_consistent(s),
    ensures
        applied(s, CommandView::SetIptoPlacementMap(map)) matches Ok(after) ==> {
            &&& latest_map(after.placement_maps) == Some(map)
            &&& forall|k: u64| #[trigger] s.placement_maps.contains_key(k) ==> k < map.epoch
        },
{
    if applied(s, CommandView::SetIptoPlacementMap(map)) is Ok {
        lemma_insert_last(s.placement_maps, map);
        let all = s.placement_maps.insert(map.epoch, map);
        let known = epochs(all);
        lemma_newest(all, known);
        assert(known.last() == map.epoch);
        let kept = epochs(newest(all));
        assert(kept.last() == map.epoch);
        assert(newest(all).dom().contains(kept[kept.len() - 1]));
        let before = epochs(s.placement_maps);
        assert forall|k: u64| #[trigger] s.placement_maps.contains_key(k) implies k < map.epoch by {
            assert(s.placement_maps.dom().contains(k));
            assert(before.contains(k));
            let i = choose|i: int| 0 <= i < before.len() && before[i] == k;
            assert(known[i] == k);
            assert(PlacementEpoch::before(known[i], known[known.len() - 1]));
        }
    }
}

/// The owner of a shard in the current map is the first candidate of the fallback.
pub proof fn law_fallback_starts_with_current_owner(s: ControlView, shard: u64)
    ensures
        current_owner(s, shard) matches Some(target) ==> {
            let found = owners(s.placement_maps, epochs(s.placement_maps), shard, Seq::empty());
            found.len() > 0 && found[0] == target
        },
{
    let known = epochs(s.placement_maps);
    if known.len() > 0 && current_owner(s, shard) is Some {
        let target = current_owner(s, shard)->0;
        let first = add_new(Seq::empty(), target);
        assert(first[0] == target);
        lemma_owners_prefix(s.placement_maps, known.drop_last(), shard, first);
    }
}

proof fn lemma_owners_prefix(maps: Map<u64, PlacementMapView>, known: Seq<u64>, shard: u64, found: Seq<Seq<char>>)
    ensures
        owners(maps, known, shard, found).len() >= found.len(),
        forall|i: int| 0 <= i < found.len() ==> owners(maps, known, shard, found)[i] == #[trigger] found[i],
    decreases known.len(),
{
    if known.len() > 0 {
        let next = match owner(maps[known.last()], shard) {
            Some(target) => add_new(found, target),
            None => found,
        };
        lemma_owners_prefix(maps, known.drop_last(), shard, next);
        assert forall|i: int| 0 <= i < found.len() implies owners(maps, known, shard, found)[i]
            == #[trigger] found[i] by {
            assert(next[i] == found[i]);
        }
    }
}

/// A node that is removed holds no lease afterwards, and the leases of other nodes stay.
pub proof fn law_removed_node_holds_no_lease(s: ControlView, node: Seq<char>, target: Seq<char>)
    ensures
        ({
            let after = applied(s, CommandView::RemoveNode(node))->Ok_0;
            &&& applied(s, CommandView::RemoveNode(node)) is Ok
            &&& !after.nodes.contains(node)
            &&& after.writer_leases.contains_key(target) ==> after.writer_leases[target].holder != node
            &&& s.writer_leases.contains_key(target) && s.writer_leases[target].holder != node
                ==> after.writer_leases.contains_key(target) && after.writer_leases[target] == s.writer_leases[target]
        }),
{
}

/// A lease that is granted is later than the one it replaces.
pub proof fn law_lease_epochs_increase(s: ControlView, lease: LeaseView)
    ensures
        applied(s, CommandView::GrantWriterLease(lease)) matches Ok(after) ==> {
            &&& after.writer_leases[lease.target] == lease
            &&& s.nodes.contains(lease.holder)
            &&& s.writer_leases.contains_key(lease.target) ==> s.writer_leases[lease.target].epoch < lease.epoch
        },
{
}

/// A lease is granted exactly if its holder is a cluster node and no lease of its target is
/// known with the same or a later epoch; the refusal says which of the two it is. A lease
/// that is granted is the one on record, and nothing else changes.
pub proof fn law_leases_are_granted(s: ControlView, lease: LeaseView)
    ensures
        ({
            let r = applied(s, CommandView::GrantWriterLease(lease));
            let known = s.writer_leases.contains_key(lease.target);
            let current = s.writer_leases[lease.target].epoch;
            &&& r is Ok <==> s.nodes.contains(lease.holder) && (known ==> current < lease.epoch)
            &&& !s.nodes.contains(lease.holder) ==> r == Err::<ControlView, _>(
                ControlErrorView::UnknownLeaseHolder(lease.holder),
            )
            &&& s.nodes.contains(lease.holder) && known && lease.epoch <= current ==> r == Err::<ControlView, _>(
                ControlErrorView::StaleLeaseEpoch(lease.target, current, lease.epoch),
            )
            &&& r matches Ok(after) ==> {
                &&& after.writer_leases.contains_pair(lease.target, lease)
                &&& forall|t: Seq<char>|
                    t != lease.target ==> #[trigger] after.writer_leases.contains_key(t)
                        == s.writer_leases.contains_key(t) && after.writer_leases[t] == s.writer_leases[t]
                &&& after.nodes == s.nodes && after.placement_maps == s.placement_maps && after.outbox_checkpoints
                    == s.outbox_checkpoints && after.sealed_segments == s.sealed_segments && after.checkpoints
                    == s.checkpoints
            }
        }),
{
}

/// An outbox checkpoint is accepted exactly if none of its shard and target is known or if
/// its epoch is greater than the known one's; the refusal names the two epochs. A checkpoint
/// that is accepted is the one on record, and nothing else changes.
pub proof fn law_outbox_checkpoints_advance(s: ControlView, c: OutboxCheckpointView)
    ensures
        ({
            let r = applied(s, CommandView::RecordOutboxCheckpoint(c));
            let key = (c.shard, c.target);
            let known = s.outbox_checkpoints.contains_key(key);
            let current = s.outbox_checkpoints[key].epoch;
            &&& r is Ok <==> (known ==> current < c.epoch)
            &&& known && c.epoch <= current ==> r == Err::<ControlView, _>(
                ControlErrorView::StaleCheckpointEpoch(c.shard, c.target, current, c.epoch),
            )
            &&& r matches Ok(after) ==> {
                &&& after.outbox_checkpoints.contains_pair(key, c)
                &&& forall|k: (u64, Seq<char>)|
                    k != key ==> #[trigger] after.outbox_checkpoints.contains_key(k)
                        == s.outbox_checkpoints.contains_key(k) && after.outbox_checkpoints[k]
                        == s.outbox_checkpoints[k]
                &&& after.nodes == s.nodes && after.placement_maps == s.placement_maps && after.writer_leases
                    == s.writer_leases && after.sealed_segments == s.sealed_segments && after.checkpoints
                    == s.checkpoints
            }
        }),
{
}

/// A checkpoint manifest is accepted exactly if none of its identifier is known or if its
/// epoch is greater than the known one's; the refusal names the two epochs. A manifest that
/// is accepted is the one on record, and nothing else changes.
pub proof fn law_checkpoint_manifests_advance(s: ControlView, c: CheckpointManifestView)
    ensures
        ({
            let r = applied(s, CommandView::RecordCheckpoint(c));
            let known = s.checkpoints.contains_key(c.checkpoint_id);
            let current = s.checkpoints[c.checkpoint_id].epoch;
            &&& r is Ok <==> (known ==> current < c.epoch)
            &&& known && c.epoch <= current ==> r == Err::<ControlView, _>(
                ControlErrorView::StaleCheckpointManifest(c.checkpoint_id, current, c.epoch),
            )
            &&& r matches Ok(after) ==> {
                &&& after.checkpoints.contains_pair(c.checkpoint_id, c)
                &&& forall|k: Seq<char>|
                    k != c.checkpoint_id ==> #[trigger] after.checkpoints.contains_key(k)
                        == s.checkpoints.contains_key(k) && after.checkpoints[k] == s.checkpoints[k]
                &&& after.nodes == s.nodes && after.placement_maps == s.placement_maps && after.writer_leases
                    == s.writer_leases && after.sealed_segments == s.sealed_segments && after.outbox_checkpoints
                    == s.outbox_checkpoints
            }
        }),
{
}

/// A sealed segment is recorded under its identifier, whatever was there, and nothing else
/// changes.
pub proof fn law_sealed_segments_are_recorded(s: ControlView, m: SegmentManifestView)
    ensures
        applied(s, CommandView::RecordSealedSegment(m)) matches Ok(after) && {
            &&& after.sealed_segments.contains_pair(m.segment_id, m)
            &&& forall|k: Seq<char>|
                k != m.segment_id ==> #[trigger] after.sealed_segments.contains_key(k)
                    == s.sealed_segments.contains_key(k) && after.sealed_segments[k] == s.sealed_segments[k]
            &&& after.nodes == s.nodes && after.placement_maps == s.placement_maps && after.writer_leases
                == s.writer_leases && after.outbox_checkpoints == s.outbox_checkpoints && after.checkpoints
                == s.checkpoints
        },
{
}

/// Adding a node adds that one and changes nothing else; removing it takes that one away,
/// with the leases it held, and changes nothing else. Neither is ever refused.
pub proof fn law_nodes_come_and_go(s: ControlView, node: Seq<char>, other: Seq<char>)
    ensures
        applied(s, CommandView::AddNode(node)) matches Ok(after) && {
            &&& after.nodes.contains(node)
            &&& other != node ==> after.nodes.contains(other) == s.nodes.contains(other)
            &&& after.writer_leases == s.writer_leases && after.placement_maps == s.placement_maps
                && after.outbox_checkpoints == s.outbox_checkpoints && after.sealed_segments == s.sealed_segments
                && after.checkpoints == s.checkpoints
        },
        applied(s, CommandView::RemoveNode(node)) matches Ok(after) && {
            &&& !after.nodes.contains(node)
            &&& other != node ==> after.nodes.contains(other) == s.nodes.contains(other)
            &&& forall|t: Seq<char>| #[trigger]
                after.writer_leases.contains_key(t) <==> s.writer_leases.contains_key(t) && s.writer_leases[t].holder
                    != node
            &&& forall|t: Seq<char>| #[trigger]
                after.writer_leases.contains_key(t) ==> after.writer_leases[t] == s.writer_leases[t]
            &&& after.placement_maps == s.placement_maps && after.outbox_checkpoints == s.outbox_checkpoints
                && after.sealed_segments == s.sealed_segments && after.checkpoints == s.checkpoints
        },
{
}

/// The current placement map is the one with the greatest epoch.
pub proof fn law_latest_map_is_the_latest(s: ControlView)
    requires
        control_consistent(s),
    ensures
        latest_map(s.placement_maps) is None <==> forall|k: u64| !(#[trigger] s.placement_maps.contains_key(k)),
        latest_map(s.placement_maps) matches Some(map) ==> {
            &&& s.placement_maps.contains_pair(map.epoch, map)
            &&& forall|k: u64| #[trigger] s.placement_maps.contains_key(k) ==> k <= map.epoch
        },
{
    let maps = s.placement_maps;
    let known = epochs(maps);
    if known.len() > 0 {
        let last = known[known.len() - 1];
        assert(maps.dom().contains(last));
        assert(maps.contains_key(last));
        assert forall|k: u64| #[trigger] maps.contains_key(k) implies k <= last by {
            assert(maps.dom().contains(k));
            assert(known.contains(k));
            let i = choose|i: int| 0 <= i < known.len() && known[i] == k;
            if i < known.len() - 1 {
                assert(PlacementEpoch::before(known[i], known[known.len() - 1]));
            }
        }
    } else {
        assert forall|k: u64| !(#[trigger] maps.contains_key(k)) by {
            if maps.dom().contains(k) {
                assert(known.contains(k));
            }
        }
    }
}

/// A placement map is accepted exactly if its epoch is later than that of every map known.
/// It is then known with the newest of the others, five maps in all at most: none is dropped
/// as long as there is room, and what is dropped is older than all that is kept.
pub proof fn law_placement_maps_advance(s: ControlView, map: PlacementMapView)
    requires
        control_consistent(s),
    ensures
        ({
            let r = applied(s, CommandView::SetIptoPlacementMap(map));
            &&& r is Ok <==> forall|k: u64| #[trigger] s.placement_maps.contains_key(k) ==> k < map.epoch
            &&& r matches Err(e) ==> e == ControlErrorView::StalePlacementEpoch(
                latest_map(s.placement_maps)->0.epoch,
                map.epoch,
            )
            &&& r matches Ok(after) ==> {
                let kept = after.placement_maps;
                &&& kept.contains_pair(map.epoch, map)
                &&& forall|k: u64| #[trigger]
                    kept.contains_key(k) && k != map.epoch ==> s.placement_maps.contains_pair(k, kept[k])
                &&& forall|k: u64, d: u64|
                    kept.contains_key(k) && s.placement_maps.contains_key(d) && !kept.contains_key(d)
                        ==> #[trigger] is_earlier(d, k)
                &&& kept.dom().len() == if s.placement_maps.dom().len() < 5 {
                    s.placement_maps.dom().len() + 1
                } else {
                    5
                }
                &&& after.nodes == s.nodes && after.writer_leases == s.writer_leases && after.outbox_checkpoints
                    == s.outbox_checkpoints && after.sealed_segments == s.sealed_segments && after.checkpoints
                    == s.checkpoints
            }
        }),
{
    law_latest_map_is_the_latest(s);
    let maps = s.placement_maps;
    let before = epochs(maps);
    lemma_listing_len::<PlacementEpoch>(before, maps.dom());
    if applied(s, CommandView::SetIptoPlacementMap(map)) is Ok {
        law_accepted_map_is_current(s, map);
        lemma_insert_last(maps, map);
        let all = maps.insert(map.epoch, map);
        let known = epochs(all);
        lemma_newest(all, known);
        let kept = newest(all);
        let left = epochs(kept);
        lemma_listing_len::<PlacementEpoch>(left, kept.dom());
        assert(left[left.len() - 1] == map.epoch);
        assert(kept.dom().contains(left[left.len() - 1]));
        assert forall|k: u64, d: u64|
            kept.contains_key(k) && maps.contains_key(d) && !kept.contains_key(d) implies #[trigger] is_earlier(
            d,
            k,
        ) by {
            assert(maps.dom().contains(d));
            assert(all.dom().contains(d));
            assert(lists::<PlacementEpoch>(known, all.dom()));
            assert(known.contains(d));
            assert(kept.dom().contains(k) && left.contains(k));
            let i = choose|i: int| 0 <= i < known.len() && known[i] == d;
            let j = choose|j: int| 0 <= j < left.len() && left[j] == k;
            let dropped = known.len() - left.len();
            assert(known[j + dropped] == left[j]);
            if i >= dropped {
                assert(left[i - dropped] == d);
                assert(kept.dom().contains(left[i - dropped]));
            } else {
                assert(PlacementEpoch::before(known[i], known[j + dropped]));
            }
        }
    }
}

/// Whether an epoch is earlier than another.
pub open spec fn is_earlier(a: u64, b: u64) -> bool {
    a < b
}

proof fn lemma_owners_members(maps: Map<u64, PlacementMapView>, known: Seq<u64>, shard: u64, found: Seq<Seq<char>>)
    ensures
        found.no_duplicates() ==> owners(maps, known, shard, found).no_duplicates(),
        forall|x: Seq<char>| #[trigger]
            owners(maps, known, shard, found).contains(x) <==> found.contains(x) || exists|i: int|
                0 <= i < known.len() && owner(maps[#[trigger] known[i]], shard) == Some(x),
    decreases known.len(),
{
    if known.len() > 0 {
        let front = known.drop_last();
        let last = known.len() - 1;
        let next = match owner(maps[known.last()], shard) {
            Some(target) => add_new(found, target),
            None => found,
        };
        lemma_owners_members(maps, front, shard, next);
        assert(owners(maps, known, shard, found) == owners(maps, front, shard, next));
        if owner(maps[known.last()], shard) is Some {
            let target = owner(maps[known.last()], shard)->0;
            assert(next.contains(target)) by {
                if !found.contains(target) {
                    assert(next[found.len() as int] == target);
                }
            }
            assert forall|x: Seq<char>| #[trigger] next.contains(x) == (found.contains(x) || x == target) by {
                if found.contains(x) && !found.contains(target) {
                    let i = choose|i: int| 0 <= i < found.len() && found[i] == x;
                    assert(next[i] == x);
                }
            }
            if found.no_duplicates() && !found.contains(target) {
                assert forall|i: int, j: int| 0 <= i < next.len() && 0 <= j < next.len() && i != j implies next[i]
                    != next[j] by {
                    if i < found.len() {
                        assert(found.contains(found[i]));
                    }
                    if j < found.len() {
                        assert(found.contains(found[j]));
                    }
                }
            }
        }
        assert forall|x: Seq<char>| #[trigger] owners(maps, known, shard, found).contains(x) <==> found.contains(x)
            || exists|i: int| 0 <= i < known.len() && owner(maps[#[trigger] known[i]], shard) == Some(x) by {
            assert(next.contains(x) == (found.contains(x) || owner(maps[known.last()], shard) == Some(x)));
            if exists|i: int| 0 <= i < front.len() && owner(maps[#[trigger] front[i]], shard) == Some(x) {
                let i = choose|i: int| 0 <= i < front.len() && owner(maps[#[trigger] front[i]], shard) == Some(x);
                assert(known[i] == front[i]);
            }
            if exists|i: int| 0 <= i < known.len() && owner(maps[#[trigger] known[i]], shard) == Some(x) {
                let i = choose|i: int| 0 <= i < known.len() && owner(maps[#[trigger] known[i]], shard) == Some(x);
                if i < last {
                    assert(front[i] == known[i]);
                }
            }
            assert(known[last] == known.last());
        }
    }
}

proof fn lemma_older_owners_come_behind(
    maps: Map<u64, PlacementMapView>,
    known: Seq<u64>,
    shard: u64,
    found: Seq<Seq<char>>,
)
    requires
        known.len() > 0,
    ensures
        owners(maps, known.skip(1), shard, found).is_prefix_of(owners(maps, known, shard, found)),
    decreases known.len(),
{
    let next = match owner(maps[known.last()], shard) {
        Some(target) => add_new(found, target),
        None => found,
    };
    if known.len() == 1 {
        assert(known.skip(1) =~= Seq::<u64>::empty());
        assert(known.drop_last() =~= Seq::<u64>::empty());
        assert(owners(maps, known.drop_last(), shard, next) == next);
        assert(found.is_prefix_of(next));
    } else {
        assert(known.skip(1).drop_last() =~= known.drop_last().skip(1));
        assert(known.skip(1).last() == known.last());
        lemma_older_owners_come_behind(maps, known.drop_last(), shard, next);
    }
}

/// The candidates for a shard are the owners that any of the known maps gives it, each once;
/// what the oldest map adds comes behind those of all newer ones.
pub proof fn law_fallback_is_complete(maps: Map<u64, PlacementMapView>, known: Seq<u64>, shard: u64)
    ensures
        ({
            let found = owners(maps, known, shard, Seq::empty());
            &&& found.no_duplicates()
            &&& forall|x: Seq<char>| #[trigger]
                found.contains(x) <==> exists|i: int|
                    0 <= i < known.len() && owner(maps[#[trigger] known[i]], shard) == Some(x)
            &&& known.len() > 0 ==> owners(maps, known.skip(1), shard, Seq::empty()).is_prefix_of(found)
        }),
{
    lemma_owners_members(maps, known, shard, Seq::empty());
    if known.len() > 0 {
        lemma_older_owners_come_behind(maps, known, shard, Seq::empty());
    }
}

/// A control state that is new holds nothing.
pub proof fn law_empty_control(node: Seq<char>, epoch: u64, shard: u64)
    ensures
        !empty_control().nodes.contains(node),
        !empty_control().placement_maps.contains_key(epoch),
        !empty_control().writer_leases.contains_key(node),
        !empty_control().outbox_checkpoints.contains_key((shard, node)),
        !empty_control().sealed_segments.contains_key(node),
        !empty_control().checkpoints.contains_key(node),
        current_owner(empty_control(), shard) is None,
{
    law_commands_keep_consistency(empty_control(), CommandView::AddNode(node));
    law_latest_map_is_the_latest(empty_control());
}

/// The current owner of a shard is the one that the map with the greatest epoch gives it.
pub proof fn law_current_owner(s: ControlView, shard: u64, epoch: u64)
    requires
        control_consistent(s),
        s.placement_maps.contains_key(epoch),
        forall|k: u64| #[trigger] s.placement_maps.contains_key(k) ==> k <= epoch,
    ensures
        current_owner(s, shard) == owner(s.placement_maps[epoch], shard),
{
    law_latest_map_is_the_latest(s);
}

} // verus!
