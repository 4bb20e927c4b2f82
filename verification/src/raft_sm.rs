//! The replicated state machine: commands, snapshots and queries of the control state, in
//! the form in which they are stored and sent.

use vstd::prelude::*;
use vstd::utf8::encode_utf8;
use crate::checkpoint::{
    CheckpointEpoch, CheckpointManifest, CheckpointManifestView, LeaseEpoch, LeaseView, MetadataOutboxCheckpoint,
    OutboxCheckpointView, WriterLease,
};
use crate::cluster::{
    applied, control_consistent, current_owner, empty_control, epochs, instances_of, latest_map, owners,
    ClusterControlCommand, ClusterControlState, CommandView, ControlView, NodeId, MAX_PLACEMENT_HISTORY,
};
use crate::control_error::{control_error_text, ClusterControlError, ControlErrorView};
use crate::data::DataIndividualShardId;
use crate::ipto::IptoInstanceId;
use crate::json::{json_answer, json_text, Answer, AnswerView};
use crate::ordered::{
    lemma_listing_exists, lemma_listing_len, lists, opt_view, sorted, views, Key, SortedMap, SortedSet,
};
use crate::placement::{
    placement, placement_refusal, sorted_ranges, IptoPlacementMap, IptoPlacementRange, IptoPlacementSlot,
    PlacementEpoch, PlacementMapView, RangeView, SlotView,
};
use crate::storage::{RecordOffset, SegmentId, SegmentManifest, SegmentManifestView};

verus! {

// ---------------------------------------------------------------------------
// Records
// ---------------------------------------------------------------------------

/// A slot as it is stored.
#[derive(Debug, PartialEq, Eq)]
pub struct PlacementSlotRecord {
    pub instance: String,
    pub vnodes: u32,
}

impl View for PlacementSlotRecord {
    type V = SlotView;

    open spec fn view(&self) -> SlotView {
        SlotView { instance: self.instance@, vnodes: self.vnodes }
    }
}

/// An override as it is stored.
#[derive(Debug, PartialEq, Eq)]
pub struct PlacementRangeRecord {
    pub start: u64,
    pub end: u64,
    pub target: String,
}

impl View for PlacementRangeRecord {
    type V = RangeView;

    open spec fn view(&self) -> RangeView {
        RangeView { start: self.start, end: self.end, target: self.target@ }
    }
}

/// A placement map as it is stored.
#[derive(Debug, PartialEq, Eq)]
pub struct PlacementMapRecord {
    pub epoch: u64,
    pub slots: Vec<PlacementSlotRecord>,
    pub overrides: Vec<PlacementRangeRecord>,
}

/// The view of a stored placement map.
pub struct MapRecordView {
    pub epoch: u64,
    pub slots: Seq<SlotView>,
    pub overrides: Seq<RangeView>,
}

impl View for PlacementMapRecord {
    type V = MapRecordView;

    open spec fn view(&self) -> MapRecordView {
        MapRecordView { epoch: self.epoch, slots: views(self.slots@), overrides: views(self.overrides@) }
    }
}

/// A writer lease as it is stored.
#[derive(Debug, PartialEq, Eq)]
pub struct WriterLeaseRecord {
    pub target: String,
    pub holder: String,
    pub epoch: u64,
}

impl View for WriterLeaseRecord {
    type V = LeaseView;

    open spec fn view(&self) -> LeaseView {
        LeaseView { target: self.target@, holder: self.holder@, epoch: self.epoch }
    }
}

/// An outbox checkpoint as it is stored.
#[derive(Debug, PartialEq, Eq)]
pub struct OutboxCheckpointRecord {
    pub data_individual_shard_id: u64,
    pub target: String,
    pub segment_id: String,
    pub last_acknowledged_offset: u64,
    pub mapping_version: String,
    pub epoch: u64,
}

impl View for OutboxCheckpointRecord {
    type V = OutboxCheckpointView;

    open spec fn view(&self) -> OutboxCheckpointView {
        OutboxCheckpointView {
            shard: self.data_individual_shard_id,
            target: self.target@,
            segment_id: self.segment_id@,
            last_acknowledged_offset: self.last_acknowledged_offset,
            mapping_version: self.mapping_version@,
            epoch: self.epoch,
        }
    }
}

/// A segment manifest as it is stored.
#[derive(Debug, PartialEq, Eq)]
pub struct SegmentManifestRecord {
    pub segment_id: String,
    pub node_id: String,
    pub path: String,
    pub record_count: u64,
    pub byte_len: u64,
    pub checksum: u64,
}

impl View for SegmentManifestRecord {
    type V = SegmentManifestView;

    open spec fn view(&self) -> SegmentManifestView {
        SegmentManifestView {
            segment_id: self.segment_id@,
            node_id: self.node_id@,
            path: self.path@,
            record_count: self.record_count,
            byte_len: self.byte_len,
            checksum: self.checksum,
        }
    }
}

/// How far a segment has been consumed, as it is stored.
#[derive(Debug, PartialEq, Eq)]
pub struct SegmentOffsetRecord {
    pub segment_id: String,
    pub offset: u64,
}

impl View for SegmentOffsetRecord {
    type V = (Seq<char>, u64);

    open spec fn view(&self) -> (Seq<char>, u64) {
        (self.segment_id@, self.offset)
    }
}

/// A recovery checkpoint as it is stored.
#[derive(Debug, PartialEq, Eq)]
pub struct CheckpointRecord {
    pub checkpoint_id: String,
    pub node_id: String,
    pub epoch: u64,
    pub segment_offsets: Vec<SegmentOffsetRecord>,
    pub metadata_version: Option<String>,
    pub checksum: u64,
}

/// The view of a stored recovery checkpoint.
pub struct CheckpointRecordView {
    pub checkpoint_id: Seq<char>,
    pub node_id: Seq<char>,
    pub epoch: u64,
    pub segment_offsets: Seq<(Seq<char>, u64)>,
    pub metadata_version: Option<Seq<char>>,
    pub checksum: u64,
}

impl View for CheckpointRecord {
    type V = CheckpointRecordView;

    open spec fn view(&self) -> CheckpointRecordView {
        CheckpointRecordView {
            checkpoint_id: self.checkpoint_id@,
            node_id: self.node_id@,
            epoch: self.epoch,
            segment_offsets: views(self.segment_offsets@),
            metadata_version: opt_view(self.metadata_version),
            checksum: self.checksum,
        }
    }
}

/// A command as it is stored.
#[derive(Debug, PartialEq, Eq)]
pub enum CommandRecord {
    AddNode(String),
    RemoveNode(String),
    SetIptoPlacementMap(PlacementMapRecord),
    GrantWriterLease(WriterLeaseRecord),
    RecordOutboxCheckpoint(OutboxCheckpointRecord),
    RecordSealedSegment(SegmentManifestRecord),
    RecordCheckpoint(CheckpointRecord),
}

/// The view of a stored command.
pub enum CommandRecordView {
    AddNode(Seq<char>),
    RemoveNode(Seq<char>),
    SetIptoPlacementMap(MapRecordView),
    GrantWriterLease(LeaseView),
    RecordOutboxCheckpoint(OutboxCheckpointView),
    RecordSealedSegment(SegmentManifestView),
    RecordCheckpoint(CheckpointRecordView),
}

impl View for CommandRecord {
    type V = CommandRecordView;

    open spec fn view(&self) -> CommandRecordView {
        match self {
            CommandRecord::AddNode(node) => CommandRecordView::AddNode(node@),
            CommandRecord::RemoveNode(node) => CommandRecordView::RemoveNode(node@),
            CommandRecord::SetIptoPlacementMap(map) => CommandRecordView::SetIptoPlacementMap(map@),
            CommandRecord::GrantWriterLease(lease) => CommandRecordView::GrantWriterLease(lease@),
            CommandRecord::RecordOutboxCheckpoint(c) => CommandRecordView::RecordOutboxCheckpoint(c@),
            CommandRecord::RecordSealedSegment(m) => CommandRecordView::RecordSealedSegment(m@),
            CommandRecord::RecordCheckpoint(c) => CommandRecordView::RecordCheckpoint(c@),
        }
    }
}

/// The control state as it is stored.
#[derive(Debug, PartialEq, Eq)]
pub struct ControlSnapshotRecord {
    pub nodes: Vec<String>,
    pub placement_maps: Vec<PlacementMapRecord>,
    pub writer_leases: Vec<WriterLeaseRecord>,
    pub outbox_checkpoints: Vec<OutboxCheckpointRecord>,
    pub sealed_segments: Vec<SegmentManifestRecord>,
    pub checkpoints: Vec<CheckpointRecord>,
}

/// The view of a stored control state.
pub struct SnapshotRecordView {
    pub nodes: Seq<Seq<char>>,
    pub placement_maps: Seq<MapRecordView>,
    pub writer_leases: Seq<LeaseView>,
    pub outbox_checkpoints: Seq<OutboxCheckpointView>,
    pub sealed_segments: Seq<SegmentManifestView>,
    pub checkpoints: Seq<CheckpointRecordView>,
}

impl View for ControlSnapshotRecord {
    type V = SnapshotRecordView;

    open spec fn view(&self) -> SnapshotRecordView {
        SnapshotRecordView {
            nodes: views(self.nodes@),
            placement_maps: views(self.placement_maps@),
            writer_leases: views(self.writer_leases@),
            outbox_checkpoints: views(self.outbox_checkpoints@),
            sealed_segments: views(self.sealed_segments@),
            checkpoints: views(self.checkpoints@),
        }
    }
}

// ---------------------------------------------------------------------------
// From values to records
// ---------------------------------------------------------------------------

/// The record of a placement map: what it was made of.
pub open spec fn map_record(m: PlacementMapView) -> MapRecordView {
    MapRecordView { epoch: m.epoch, slots: m.slots, overrides: m.overrides }
}

/// The entries of a map in the order of their keys.
pub open spec fn offset_list(offsets: Map<Seq<char>, u64>) -> Seq<(Seq<char>, u64)> {
    let keys = sorted::<SegmentId>(offsets.dom());
    Seq::new(keys.len(), |i: int| (keys[i], offsets[keys[i]]))
}

/// The record of a recovery checkpoint.
pub open spec fn checkpoint_record(c: CheckpointManifestView) -> CheckpointRecordView {
    CheckpointRecordView {
        checkpoint_id: c.checkpoint_id,
        node_id: c.node_id,
        epoch: c.epoch,
        segment_offsets: offset_list(c.segment_offsets),
        metadata_version: c.metadata_version,
        checksum: c.checksum,
    }
}

/// The record of a command.
pub open spec fn command_record(c: CommandView) -> CommandRecordView {
    match c {
        CommandView::AddNode(node) => CommandRecordView::AddNode(node),
        CommandView::RemoveNode(node) => CommandRecordView::RemoveNode(node),
        CommandView::SetIptoPlacementMap(m) => CommandRecordView::SetIptoPlacementMap(map_record(m)),
        CommandView::GrantWriterLease(lease) => CommandRecordView::GrantWriterLease(lease),
        CommandView::RecordOutboxCheckpoint(c) => CommandRecordView::RecordOutboxCheckpoint(c),
        CommandView::RecordSealedSegment(m) => CommandRecordView::RecordSealedSegment(m),
        CommandView::RecordCheckpoint(c) => CommandRecordView::RecordCheckpoint(checkpoint_record(c)),
    }
}

fn slot_records(slots: &Vec<IptoPlacementSlot>) -> (r: Vec<PlacementSlotRecord>)
    ensures
        views(r@) == views(slots@),
{
    let mut out: Vec<PlacementSlotRecord> = Vec::new();
    let mut i: usize = 0;
    while i < slots.len()
        invariant
            i <= slots.len(),
            out.len() == i,
            forall|j: int| 0 <= j < i ==> (#[trigger] out@[j])@ == slots@[j]@,
        decreases slots.len() - i,
    {
        out.push(
            PlacementSlotRecord { instance: slots[i].instance.as_str().to_owned(), vnodes: slots[i].vnodes },
        );
        i += 1;
    }
    assert(views(out@) =~= views(slots@));
    out
}

fn range_records(ranges: &Vec<IptoPlacementRange>) -> (r: Vec<PlacementRangeRecord>)
    ensures
        views(r@) == views(ranges@),
{
    let mut out: Vec<PlacementRangeRecord> = Vec::new();
    let mut i: usize = 0;
    while i < ranges.len()
        invariant
            i <= ranges.len(),
            out.len() == i,
            forall|j: int| 0 <= j < i ==> (#[trigger] out@[j])@ == ranges@[j]@,
        decreases ranges.len() - i,
    {
        out.push(
            PlacementRangeRecord {
                start: ranges[i].start.0,
                end: ranges[i].end.0,
                target: ranges[i].target.as_str().to_owned(),
            },
        );
        i += 1;
    }
    assert(views(out@) =~= views(ranges@));
    out
}

fn record_of_map(map: &IptoPlacementMap) -> (r: PlacementMapRecord)
    ensures
        r@ == map_record(map@),
{
    PlacementMapRecord {
        epoch: map.epoch().0,
        slots: slot_records(map.slots()),
        overrides: range_records(map.overrides()),
    }
}

fn record_of_lease(lease: &WriterLease) -> (r: WriterLeaseRecord)
    ensures
        r@ == lease@,
{
    WriterLeaseRecord {
        target: lease.target.as_str().to_owned(),
        holder: lease.holder.as_str().to_owned(),
        epoch: lease.epoch.0,
    }
}

fn record_of_outbox_checkpoint(c: &MetadataOutboxCheckpoint) -> (r: OutboxCheckpointRecord)
    ensures
        r@ == c@,
{
    OutboxCheckpointRecord {
        data_individual_shard_id: c.data_individual_shard_id.0,
        target: c.target.as_str().to_owned(),
        segment_id: c.segment_id.as_str().to_owned(),
        last_acknowledged_offset: c.last_acknowledged_offset.0,
        mapping_version: c.mapping_version.clone(),
        epoch: c.epoch.0,
    }
}

fn record_of_manifest(m: &SegmentManifest) -> (r: SegmentManifestRecord)
    ensures
        r@ == m@,
{
    SegmentManifestRecord {
        segment_id: m.segment_id.as_str().to_owned(),
        node_id: m.node_id.as_str().to_owned(),
        path: m.path.clone(),
        record_count: m.record_count,
        byte_len: m.byte_len,
        checksum: m.checksum,
    }
}

fn record_of_checkpoint(c: &CheckpointManifest) -> (r: CheckpointRecord)
    ensures
        r@ == checkpoint_record(c@),
{
    let n: usize = c.segment_offsets.len();
    let ghost keys = c.segment_offsets.keys();
    let ghost list = offset_list(c@.segment_offsets);
    let mut segment_offsets: Vec<SegmentOffsetRecord> = Vec::new();
    let mut i: usize = 0;
    while i < n
        invariant
            i <= n,
            n == keys.len(),
            n == c.segment_offsets@.dom().len(),
            keys == c.segment_offsets.keys(),
            list == offset_list(c@.segment_offsets),
            segment_offsets.len() == i,
            forall|j: int| 0 <= j < i ==> (#[trigger] segment_offsets@[j])@ == list[j],
        decreases n - i,
    {
        segment_offsets.push(
            SegmentOffsetRecord {
                segment_id: c.segment_offsets.key_at(i).as_str().to_owned(),
                offset: c.segment_offsets.value_at(i).0,
            },
        );
        i += 1;
    }
    assert(views(segment_offsets@) =~= list);
    CheckpointRecord {
        checkpoint_id: c.checkpoint_id.clone(),
        node_id: c.node_id.as_str().to_owned(),
        epoch: c.epoch.0,
        segment_offsets,
        metadata_version: c.metadata_version.clone(),
        checksum: c.checksum,
    }
}

/// The record of a command.
pub fn encode_command(cmd: &ClusterControlCommand) -> (r: CommandRecord)
    ensures
        r@ == command_record(cmd@),
{
    match cmd {
        ClusterControlCommand::AddNode(node_id) => CommandRecord::AddNode(node_id.as_str().to_owned()),
        ClusterControlCommand::RemoveNode(node_id) => CommandRecord::RemoveNode(node_id.as_str().to_owned()),
        ClusterControlCommand::SetIptoPlacementMap(map) => CommandRecord::SetIptoPlacementMap(record_of_map(map)),
        ClusterControlCommand::GrantWriterLease(lease) => CommandRecord::GrantWriterLease(record_of_lease(lease)),
        ClusterControlCommand::RecordOutboxCheckpoint(c) => CommandRecord::RecordOutboxCheckpoint(
            record_of_outbox_checkpoint(c),
        ),
        ClusterControlCommand::RecordSealedSegment(m) => CommandRecord::RecordSealedSegment(record_of_manifest(m)),
        ClusterControlCommand::RecordCheckpoint(c) => CommandRecord::RecordCheckpoint(record_of_checkpoint(c)),
    }
}

// ---------------------------------------------------------------------------
// From records to values
// ---------------------------------------------------------------------------

/// The first thing wrong with stored slots: one without virtual nodes.
pub open spec fn slots_refusal(slots: Seq<SlotView>) -> Option<ControlErrorView>
    decreases slots.len(),
{
    if slots.len() == 0 {
        None
    } else {
        match slots_refusal(slots.drop_last()) {
            Some(e) => Some(e),
            None => if slots.last().vnodes == 0 {
                Some(ControlErrorView::ZeroVnodes(slots.last().instance))
            } else {
                None
            },
        }
    }
}

/// The first thing wrong with stored overrides: one that ends before it starts.
pub open spec fn ranges_refusal(ranges: Seq<RangeView>) -> Option<ControlErrorView>
    decreases ranges.len(),
{
    if ranges.len() == 0 {
        None
    } else {
        match ranges_refusal(ranges.drop_last()) {
            Some(e) => Some(e),
            None => if ranges.last().end < ranges.last().start {
                Some(ControlErrorView::InvalidPlacementRange(ranges.last().start, ranges.last().end))
            } else {
                None
            },
        }
    }
}

/// The placement map of a record, or why there is none.
pub open spec fn recorded_map(m: MapRecordView) -> Result<PlacementMapView, ControlErrorView> {
    match slots_refusal(m.slots) {
        Some(e) => Err(e),
        None => match ranges_refusal(m.overrides) {
            Some(e) => Err(e),
            None => match placement_refusal(m.slots, m.overrides) {
                Some(e) => Err(e),
                None => Ok(placement(m.epoch, m.slots, m.overrides)),
            },
        },
    }
}

/// The map with the given entries; of equal keys the last counts.
pub open spec fn offsets_of(list: Seq<(Seq<char>, u64)>) -> Map<Seq<char>, u64>
    decreases list.len(),
{
    if list.len() == 0 {
        Map::empty()
    } else {
        offsets_of(list.drop_last()).insert(list.last().0, list.last().1)
    }
}

/// The recovery checkpoint of a record.
pub open spec fn recorded_checkpoint(c: CheckpointRecordView) -> CheckpointManifestView {
    CheckpointManifestView {
        checkpoint_id: c.checkpoint_id,
        node_id: c.node_id,
        epoch: c.epoch,
        segment_offsets: offsets_of(c.segment_offsets),
        metadata_version: c.metadata_version,
        checksum: c.checksum,
    }
}

/// The command of a record, or why there is none.
pub open spec fn recorded_command(c: CommandRecordView) -> Result<CommandView, ControlErrorView> {
    match c {
        CommandRecordView::AddNode(node) => Ok(CommandView::AddNode(node)),
        CommandRecordView::RemoveNode(node) => Ok(CommandView::RemoveNode(node)),
        CommandRecordView::SetIptoPlacementMap(m) => match recorded_map(m) {
            Ok(map) => Ok(CommandView::SetIptoPlacementMap(map)),
            Err(e) => Err(e),
        },
        CommandRecordView::GrantWriterLease(lease) => Ok(CommandView::GrantWriterLease(lease)),
        CommandRecordView::RecordOutboxCheckpoint(c) => Ok(CommandView::RecordOutboxCheckpoint(c)),
        CommandRecordView::RecordSealedSegment(m) => Ok(CommandView::RecordSealedSegment(m)),
        CommandRecordView::RecordCheckpoint(c) => Ok(CommandView::RecordCheckpoint(recorded_checkpoint(c))),
    }
}

fn slots_from(records: &Vec<PlacementSlotRecord>) -> (r: Result<Vec<IptoPlacementSlot>, ClusterControlError>)
    ensures
        match r {
            Ok(slots) => slots_refusal(views(records@)) is None && views(slots@) == views(records@),
            Err(e) => slots_refusal(views(records@)) == Some(e@),
        },
{
    let ghost all = views(records@);
    let mut out: Vec<IptoPlacementSlot> = Vec::new();
    let mut i: usize = 0;
    assert(all.take(0) =~= Seq::<SlotView>::empty());
    while i < records.len()
        invariant
            i <= records.len(),
            all == views(records@),
            out.len() == i,
            slots_refusal(all.take(i as int)) is None,
            forall|j: int| 0 <= j < i ==> (#[trigger] out@[j])@ == all[j],
        decreases records.len() - i,
    {
        assert(all.take(i + 1).drop_last() =~= all.take(i as int));
        assert(all.take(i + 1).last() == records@[i as int]@);
        match IptoPlacementSlot::new(IptoInstanceId::from(records[i].instance.as_str()), records[i].vnodes) {
            Ok(slot) => {
                out.push(slot);
            },
            Err(e) => {
                proof {
                    lemma_slots_refusal_prefix(all, i + 1);
                }
                return Err(e);
            },
        }
        i += 1;
    }
    assert(all.take(records.len() as int) =~= all);
    assert(views(out@) =~= all);
    Ok(out)
}

proof fn lemma_slots_refusal_prefix(slots: Seq<SlotView>, n: int)
    requires
        0 <= n <= slots.len(),
        slots_refusal(slots.take(n)) is Some,
    ensures
        slots_refusal(slots) == slots_refusal(slots.take(n)),
    decreases slots.len() - n,
{
    if n < slots.len() {
        assert(slots.take(n + 1).drop_last() =~= slots.take(n));
        lemma_slots_refusal_prefix(slots, n + 1);
    } else {
        assert(slots.take(n) =~= slots);
    }
}

proof fn lemma_ranges_refusal_prefix(ranges: Seq<RangeView>, n: int)
    requires
        0 <= n <= ranges.len(),
        ranges_refusal(ranges.take(n)) is Some,
    ensures
        ranges_refusal(ranges) == ranges_refusal(ranges.take(n)),
    decreases ranges.len() - n,
{
    if n < ranges.len() {
        assert(ranges.take(n + 1).drop_last() =~= ranges.take(n));
        lemma_ranges_refusal_prefix(ranges, n + 1);
    } else {
        assert(ranges.take(n) =~= ranges);
    }
}

fn ranges_from(records: &Vec<PlacementRangeRecord>) -> (r: Result<Vec<IptoPlacementRange>, ClusterControlError>)
    ensures
        match r {
            Ok(ranges) => ranges_refusal(views(records@)) is None && views(ranges@) == views(records@),
            Err(e) => ranges_refusal(views(records@)) == Some(e@),
        },
{
    let ghost all = views(records@);
    let mut out: Vec<IptoPlacementRange> = Vec::new();
    let mut i: usize = 0;
    assert(all.take(0) =~= Seq::<RangeView>::empty());
    while i < records.len()
        invariant
            i <= records.len(),
            all == views(records@),
            out.len() == i,
            ranges_refusal(all.take(i as int)) is None,
            forall|j: int| 0 <= j < i ==> (#[trigger] out@[j])@ == all[j],
        decreases records.len() - i,
    {
        assert(all.take(i + 1).drop_last() =~= all.take(i as int));
        assert(all.take(i + 1).last() == records@[i as int]@);
        match IptoPlacementRange::new(
            DataIndividualShardId(records[i].start),
            DataIndividualShardId(records[i].end),
            IptoInstanceId::from(records[i].target.as_str()),
        ) {
            Ok(range) => {
                out.push(range);
            },
            Err(e) => {
                proof {
                    lemma_ranges_refusal_prefix(all, i + 1);
                }
                return Err(e);
            },
        }
        i += 1;
    }
    assert(all.take(records.len() as int) =~= all);
    assert(views(out@) =~= all);
    Ok(out)
}

fn map_from(record: &PlacementMapRecord) -> (r: Result<IptoPlacementMap, ClusterControlError>)
    ensures
        match (recorded_map(record@), r) {
            (Ok(m), Ok(x)) => x@ == m,
            (Err(e), Err(x)) => x@ == e,
            _ => false,
        },
{
    let slots = match slots_from(&record.slots) {
        Ok(slots) => slots,
        Err(e) => {
            return Err(e);
        },
    };
    let overrides = match ranges_from(&record.overrides) {
        Ok(overrides) => overrides,
        Err(e) => {
            return Err(e);
        },
    };
    IptoPlacementMap::new(PlacementEpoch(record.epoch), slots, overrides)
}

fn checkpoint_from(record: &CheckpointRecord) -> (r: CheckpointManifest)
    ensures
        r@ == recorded_checkpoint(record@),
{
    let ghost list = views(record.segment_offsets@);
    let mut segment_offsets: SortedMap<SegmentId, RecordOffset> = SortedMap::new();
    let mut i: usize = 0;
    assert(list.take(0) =~= Seq::<(Seq<char>, u64)>::empty());
    while i < record.segment_offsets.len()
        invariant
            i <= record.segment_offsets.len(),
            list == views(record.segment_offsets@),
            segment_offsets@ == offsets_of(list.take(i as int)),
        decreases record.segment_offsets.len() - i,
    {
        assert(list.take(i + 1).drop_last() =~= list.take(i as int));
        assert(list.take(i + 1).last() == record.segment_offsets@[i as int]@);
        let _ = segment_offsets.insert(
            SegmentId::from(record.segment_offsets[i].segment_id.as_str()),
            RecordOffset(record.segment_offsets[i].offset),
        );
        i += 1;
    }
    assert(list.take(record.segment_offsets.len() as int) =~= list);
    CheckpointManifest {
        checkpoint_id: record.checkpoint_id.clone(),
        node_id: NodeId::from(record.node_id.as_str()),
        epoch: CheckpointEpoch(record.epoch),
        segment_offsets,
        metadata_version: record.metadata_version.clone(),
        checksum: record.checksum,
    }
}

fn lease_from(record: &WriterLeaseRecord) -> (r: WriterLease)
    ensures
        r@ == record@,
{
    WriterLease {
        target: IptoInstanceId::from(record.target.as_str()),
        holder: NodeId::from(record.holder.as_str()),
        epoch: LeaseEpoch(record.epoch),
    }
}

fn outbox_checkpoint_from(record: &OutboxCheckpointRecord) -> (r: MetadataOutboxCheckpoint)
    ensures
        r@ == record@,
{
    MetadataOutboxCheckpoint {
        data_individual_shard_id: DataIndividualShardId(record.data_individual_shard_id),
        target: IptoInstanceId::from(record.target.as_str()),
        segment_id: SegmentId::from(record.segment_id.as_str()),
        last_acknowledged_offset: RecordOffset(record.last_acknowledged_offset),
        mapping_version: record.mapping_version.clone(),
        epoch: CheckpointEpoch(record.epoch),
    }
}

fn manifest_from(record: &SegmentManifestRecord) -> (r: SegmentManifest)
    ensures
        r@ == record@,
{
    SegmentManifest {
        segment_id: SegmentId::from(record.segment_id.as_str()),
        node_id: NodeId::from(record.node_id.as_str()),
        path: record.path.clone(),
        record_count: record.record_count,
        byte_len: record.byte_len,
        checksum: record.checksum,
    }
}

/// The command of a record, or the text of what is wrong with it.
pub fn decode_command(record: &CommandRecord) -> (r: Result<ClusterControlCommand, String>)
    ensures
        match (recorded_command(record@), r) {
            (Ok(c), Ok(x)) => x@ == c,
            (Err(e), Err(text)) => text@ == control_error_text(e),
            _ => false,
        },
{
    match record {
        CommandRecord::AddNode(node_id) => Ok(ClusterControlCommand::AddNode(NodeId::from(node_id.as_str()))),
        CommandRecord::RemoveNode(node_id) => Ok(ClusterControlCommand::RemoveNode(NodeId::from(node_id.as_str()))),
        CommandRecord::SetIptoPlacementMap(map) => match map_from(map) {
            Ok(map) => Ok(ClusterControlCommand::SetIptoPlacementMap(map)),
            Err(e) => Err(e.describe()),
        },
        CommandRecord::GrantWriterLease(lease) => Ok(ClusterControlCommand::GrantWriterLease(lease_from(lease))),
        CommandRecord::RecordOutboxCheckpoint(c) => Ok(
            ClusterControlCommand::RecordOutboxCheckpoint(outbox_checkpoint_from(c)),
        ),
        CommandRecord::RecordSealedSegment(m) => Ok(ClusterControlCommand::RecordSealedSegment(manifest_from(m))),
        CommandRecord::RecordCheckpoint(c) => Ok(ClusterControlCommand::RecordCheckpoint(checkpoint_from(c))),
    }
}

// ---------------------------------------------------------------------------
// Snapshots
// ---------------------------------------------------------------------------

/// The placement maps of a control state as records, the oldest first.
pub open spec fn map_records(maps: Map<u64, PlacementMapView>) -> Seq<MapRecordView> {
    Seq::new(
        epochs(maps).len(),
        |i: int| MapRecordView { epoch: epochs(maps)[i], ..map_record(maps[epochs(maps)[i]]) },
    )
}

/// The leases of a control state as records, in the order of their targets.
pub open spec fn lease_records(leases: Map<Seq<char>, LeaseView>) -> Seq<LeaseView> {
    let keys = sorted::<IptoInstanceId>(leases.dom());
    Seq::new(keys.len(), |i: int| LeaseView { target: keys[i], ..leases[keys[i]] })
}

/// The keys of outbox checkpoints in order.
pub open spec fn outbox_checkpoint_keys(all: Map<(u64, Seq<char>), OutboxCheckpointView>) -> Seq<(u64, Seq<char>)> {
    sorted::<(DataIndividualShardId, IptoInstanceId)>(all.dom())
}

/// The outbox checkpoints of a control state as records, in the order of shard and target.
pub open spec fn outbox_checkpoint_records(all: Map<(u64, Seq<char>), OutboxCheckpointView>) -> Seq<
    OutboxCheckpointView,
> {
    let keys = outbox_checkpoint_keys(all);
    Seq::new(keys.len(), |i: int| OutboxCheckpointView { shard: keys[i].0, target: keys[i].1, ..all[keys[i]] })
}

/// The sealed segments of a control state as records, in the order of their identifiers.
pub open spec fn sealed_records(all: Map<Seq<char>, SegmentManifestView>) -> Seq<SegmentManifestView> {
    let keys = sorted::<SegmentId>(all.dom());
    Seq::new(keys.len(), |i: int| all[keys[i]])
}

/// The recovery checkpoints of a control state as records, in the order of their
/// identifiers.
pub open spec fn checkpoint_records(all: Map<Seq<char>, CheckpointManifestView>) -> Seq<CheckpointRecordView> {
    let keys = sorted::<String>(all.dom());
    Seq::new(keys.len(), |i: int| checkpoint_record(all[keys[i]]))
}

/// The record of a control state.
pub open spec fn snapshot_record(s: ControlView) -> SnapshotRecordView {
    SnapshotRecordView {
        nodes: sorted::<NodeId>(s.nodes),
        placement_maps: map_records(s.placement_maps),
        writer_leases: lease_records(s.writer_leases),
        outbox_checkpoints: outbox_checkpoint_records(s.outbox_checkpoints),
        sealed_segments: sealed_records(s.sealed_segments),
        checkpoints: checkpoint_records(s.checkpoints),
    }
}

fn node_records(nodes: &SortedSet<NodeId>) -> (r: Vec<String>)
    ensures
        views(r@) == sorted::<NodeId>(nodes@),
{
    let list = nodes.to_vec();
    let mut out: Vec<String> = Vec::new();
    let mut i: usize = 0;
    while i < list.len()
        invariant
            i <= list.len(),
            out.len() == i,
            forall|j: int| 0 <= j < i ==> (#[trigger] out@[j])@ == list@[j]@,
        decreases list.len() - i,
    {
        out.push(list[i].as_str().to_owned());
        i += 1;
    }
    assert(views(out@) =~= views(list@));
    out
}

/// The record of a control state.
pub fn encode_snapshot(state: &ClusterControlState) -> (r: ControlSnapshotRecord)
    ensures
        r@ == snapshot_record(state@),
{
    let ghost s = state@;
    let maps = state.placement_map_history();
    let mut placement_maps: Vec<PlacementMapRecord> = Vec::new();
    let n: usize = maps.len();
    let mut i: usize = 0;
    while i < n
        invariant
            i <= n,
            s == state@,
            maps@ == s.placement_maps,
            n == maps@.dom().len(),
            n == maps.keys().len(),
            placement_maps.len() == i,
            forall|j: int| 0 <= j < i ==> (#[trigger] placement_maps@[j])@ == map_records(s.placement_maps)[j],
        decreases n - i,
    {
        let record = record_of_map(maps.value_at(i));
        placement_maps.push(
            PlacementMapRecord { epoch: maps.key_at(i).0, slots: record.slots, overrides: record.overrides },
        );
        i += 1;
    }
    assert(views(placement_maps@) =~= map_records(s.placement_maps));
    let leases = state.writer_leases();
    let mut writer_leases: Vec<WriterLeaseRecord> = Vec::new();
    let n: usize = leases.len();
    let mut i: usize = 0;
    while i < n
        invariant
            i <= n,
            s == state@,
            leases@ == s.writer_leases,
            n == leases@.dom().len(),
            n == leases.keys().len(),
            writer_leases.len() == i,
            forall|j: int| 0 <= j < i ==> (#[trigger] writer_leases@[j])@ == lease_records(s.writer_leases)[j],
        decreases n - i,
    {
        let lease = leases.value_at(i);
        writer_leases.push(
            WriterLeaseRecord {
                target: leases.key_at(i).as_str().to_owned(),
                holder: lease.holder.as_str().to_owned(),
                epoch: lease.epoch.0,
            },
        );
        i += 1;
    }
    assert(views(writer_leases@) =~= lease_records(s.writer_leases));
    let all = state.outbox_checkpoints();
    let mut outbox_checkpoints: Vec<OutboxCheckpointRecord> = Vec::new();
    let n: usize = all.len();
    let mut i: usize = 0;
    while i < n
        invariant
            i <= n,
            s == state@,
            all@ == s.outbox_checkpoints,
            n == all@.dom().len(),
            n == all.keys().len(),
            outbox_checkpoints.len() == i,
            forall|j: int|
                0 <= j < i ==> (#[trigger] outbox_checkpoints@[j])@ == outbox_checkpoint_records(
                    s.outbox_checkpoints,
                )[j],
        decreases n - i,
    {
        let key = all.key_at(i);
        let record = record_of_outbox_checkpoint(all.value_at(i));
        outbox_checkpoints.push(
            OutboxCheckpointRecord {
                data_individual_shard_id: key.0.0,
                target: key.1.as_str().to_owned(),
                segment_id: record.segment_id,
                last_acknowledged_offset: record.last_acknowledged_offset,
                mapping_version: record.mapping_version,
                epoch: record.epoch,
            },
        );
        i += 1;
    }
    assert(views(outbox_checkpoints@) =~= outbox_checkpoint_records(s.outbox_checkpoints));
    let sealed = state.sealed_segments();
    let mut sealed_segments: Vec<SegmentManifestRecord> = Vec::new();
    let n: usize = sealed.len();
    let mut i: usize = 0;
    while i < n
        invariant
            i <= n,
            s == state@,
            sealed@ == s.sealed_segments,
            n == sealed@.dom().len(),
            n == sealed.keys().len(),
            sealed_segments.len() == i,
            forall|j: int| 0 <= j < i ==> (#[trigger] sealed_segments@[j])@ == sealed_records(s.sealed_segments)[j],
        decreases n - i,
    {
        sealed_segments.push(record_of_manifest(sealed.value_at(i)));
        i += 1;
    }
    assert(views(sealed_segments@) =~= sealed_records(s.sealed_segments));
    let known = state.checkpoints();
    let mut checkpoints: Vec<CheckpointRecord> = Vec::new();
    let n: usize = known.len();
    let mut i: usize = 0;
    while i < n
        invariant
            i <= n,
            s == state@,
            known@ == s.checkpoints,
            n == known@.dom().len(),
            n == known.keys().len(),
            checkpoints.len() == i,
            forall|j: int| 0 <= j < i ==> (#[trigger] checkpoints@[j])@ == checkpoint_records(s.checkpoints)[j],
        decreases n - i,
    {
        checkpoints.push(record_of_checkpoint(known.value_at(i)));
        i += 1;
    }
    assert(views(checkpoints@) =~= checkpoint_records(s.checkpoints));
    ControlSnapshotRecord {
        nodes: node_records(state.nodes()),
        placement_maps,
        writer_leases,
        outbox_checkpoints,
        sealed_segments,
        checkpoints,
    }
}

/// The commands that rebuild a stored control state: its nodes first, then its placement
/// maps, leases, outbox checkpoints, sealed segments and recovery checkpoints.
pub open spec fn rebuilding_commands(s: SnapshotRecordView) -> Seq<CommandRecordView> {
    Seq::new(s.nodes.len(), |i: int| CommandRecordView::AddNode(s.nodes[i])) + Seq::new(
        s.placement_maps.len(),
        |i: int| CommandRecordView::SetIptoPlacementMap(s.placement_maps[i]),
    ) + Seq::new(s.writer_leases.len(), |i: int| CommandRecordView::GrantWriterLease(s.writer_leases[i])) + Seq::new(
        s.outbox_checkpoints.len(),
        |i: int| CommandRecordView::RecordOutboxCheckpoint(s.outbox_checkpoints[i]),
    ) + Seq::new(
        s.sealed_segments.len(),
        |i: int| CommandRecordView::RecordSealedSegment(s.sealed_segments[i]),
    ) + Seq::new(s.checkpoints.len(), |i: int| CommandRecordView::RecordCheckpoint(s.checkpoints[i]))
}

/// The state after stored commands have been applied one after another, or why one of them
/// is refused.
pub open spec fn run(s: ControlView, commands: Seq<CommandRecordView>) -> Result<ControlView, ControlErrorView>
    decreases commands.len(),
{
    if commands.len() == 0 {
        Ok(s)
    } else {
        match run(s, commands.drop_last()) {
            Err(e) => Err(e),
            Ok(before) => match recorded_command(commands.last()) {
                Err(e) => Err(e),
                Ok(c) => applied(before, c),
            },
        }
    }
}

proof fn lemma_run_fails(s: ControlView, commands: Seq<CommandRecordView>, n: int)
    requires
        0 <= n <= commands.len(),
        run(s, commands.take(n)) is Err,
    ensures
        run(s, commands) == run(s, commands.take(n)),
    decreases commands.len() - n,
{
    if n < commands.len() {
        assert(commands.take(n + 1).drop_last() =~= commands.take(n));
        lemma_run_fails(s, commands, n + 1);
    } else {
        assert(commands.take(n) =~= commands);
    }
}

/// The control state of a record, or the text of what is wrong with it.
pub fn decode_snapshot(snapshot: &ControlSnapshotRecord) -> (r: Result<ClusterControlState, String>)
    ensures
        match (run(empty_control(), rebuilding_commands(snapshot@)), r) {
            (Ok(s), Ok(x)) => x@ == s,
            (Err(e), Err(text)) => text@ == control_error_text(e),
            _ => false,
        },
{
    let ghost s = snapshot@;
    let ghost all = rebuilding_commands(s);
    let mut state = ClusterControlState::new();
    assert(all.take(0) =~= Seq::<CommandRecordView>::empty());
    let mut i: usize = 0;
    while i < snapshot.nodes.len()
        invariant
            i <= snapshot.nodes.len(),
            s == snapshot@,
            all == rebuilding_commands(s),
            run(empty_control(), all.take(0int + i)) == Ok::<ControlView, ControlErrorView>(state@),
        decreases snapshot.nodes.len() - i,
    {
        let ghost k = 0int + i;
        assert(all.take(k + 1).drop_last() =~= all.take(k));
        assert(all.take(k + 1).last() == all[k]);
        assert(all[k] == CommandRecordView::AddNode(s.nodes[i as int]));
        match state.apply(ClusterControlCommand::AddNode(NodeId::from(snapshot.nodes[i].as_str()))) {
            Ok(()) => {},
            Err(e) => {
                proof {
                    lemma_run_fails(empty_control(), all, k + 1);
                }
                return Err(e.describe());
            },
        }
        i += 1;
    }
    let mut i: usize = 0;
    while i < snapshot.placement_maps.len()
        invariant
            i <= snapshot.placement_maps.len(),
            s == snapshot@,
            all == rebuilding_commands(s),
            run(empty_control(), all.take(s.nodes.len() + i)) == Ok::<ControlView, ControlErrorView>(state@),
        decreases snapshot.placement_maps.len() - i,
    {
        let ghost k = s.nodes.len() + i;
        assert(all.take(k + 1).drop_last() =~= all.take(k));
        assert(all.take(k + 1).last() == all[k]);
        assert(all[k] == CommandRecordView::SetIptoPlacementMap(s.placement_maps[i as int]));
        let map = match map_from(&snapshot.placement_maps[i]) {
            Ok(map) => map,
            Err(e) => {
                proof {
                    lemma_run_fails(empty_control(), all, k + 1);
                }
                return Err(e.describe());
            },
        };
        match state.apply(ClusterControlCommand::SetIptoPlacementMap(map)) {
            Ok(()) => {},
            Err(e) => {
                proof {
                    lemma_run_fails(empty_control(), all, k + 1);
                }
                return Err(e.describe());
            },
        }
        i += 1;
    }
    let mut i: usize = 0;
    while i < snapshot.writer_leases.len()
        invariant
            i <= snapshot.writer_leases.len(),
            s == snapshot@,
            all == rebuilding_commands(s),
            run(empty_control(), all.take(s.nodes.len() + s.placement_maps.len() + i)) == Ok::<ControlView, ControlErrorView>(state@),
        decreases snapshot.writer_leases.len() - i,
    {
        let ghost k = s.nodes.len() + s.placement_maps.len() + i;
        assert(all.take(k + 1).drop_last() =~= all.take(k));
        assert(all.take(k + 1).last() == all[k]);
        assert(all[k] == CommandRecordView::GrantWriterLease(s.writer_leases[i as int]));
        let lease = lease_from(&snapshot.writer_leases[i]);
        match state.apply(ClusterControlCommand::GrantWriterLease(lease)) {
            Ok(()) => {},
            Err(e) => {
                proof {
                    lemma_run_fails(empty_control(), all, k + 1);
                }
                return Err(e.describe());
            },
        }
        i += 1;
    }
    let mut i: usize = 0;
    while i < snapshot.outbox_checkpoints.len()
        invariant
            i <= snapshot.outbox_checkpoints.len(),
            s == snapshot@,
            all == rebuilding_commands(s),
            run(empty_control(), all.take(s.nodes.len() + s.placement_maps.len() + s.writer_leases.len() + i)) == Ok::<ControlView, ControlErrorView>(state@),
        decreases snapshot.outbox_checkpoints.len() - i,
    {
        let ghost k = s.nodes.len() + s.placement_maps.len() + s.writer_leases.len() + i;
        assert(all.take(k + 1).drop_last() =~= all.take(k));
        assert(all.take(k + 1).last() == all[k]);
        assert(all[k] == CommandRecordView::RecordOutboxCheckpoint(s.outbox_checkpoints[i as int]));
        let checkpoint = outbox_checkpoint_from(&snapshot.outbox_checkpoints[i]);
        match state.apply(ClusterControlCommand::RecordOutboxCheckpoint(checkpoint)) {
            Ok(()) => {},
            Err(e) => {
                proof {
                    lemma_run_fails(empty_control(), all, k + 1);
                }
                return Err(e.describe());
            },
        }
        i += 1;
    }
    let mut i: usize = 0;
    while i < snapshot.sealed_segments.len()
        invariant
            i <= snapshot.sealed_segments.len(),
            s == snapshot@,
            all == rebuilding_commands(s),
            run(empty_control(), all.take(s.nodes.len() + s.placement_maps.len() + s.writer_leases.len() + s.outbox_checkpoints.len() + i)) == Ok::<ControlView, ControlErrorView>(state@),
        decreases snapshot.sealed_segments.len() - i,
    {
        let ghost k = s.nodes.len() + s.placement_maps.len() + s.writer_leases.len() + s.outbox_checkpoints.len() + i;
        assert(all.take(k + 1).drop_last() =~= all.take(k));
        assert(all.take(k + 1).last() == all[k]);
        assert(all[k] == CommandRecordView::RecordSealedSegment(s.sealed_segments[i as int]));
        let manifest = manifest_from(&snapshot.sealed_segments[i]);
        match state.apply(ClusterControlCommand::RecordSealedSegment(manifest)) {
            Ok(()) => {},
            Err(e) => {
                proof {
                    lemma_run_fails(empty_control(), all, k + 1);
                }
                return Err(e.describe());
            },
        }
        i += 1;
    }
    let mut i: usize = 0;
    while i < snapshot.checkpoints.len()
        invariant
            i <= snapshot.checkpoints.len(),
            s == snapshot@,
            all == rebuilding_commands(s),
            run(empty_control(), all.take(s.nodes.len() + s.placement_maps.len() + s.writer_leases.len() + s.outbox_checkpoints.len()
                + s.sealed_segments.len() + i)) == Ok::<ControlView, ControlErrorView>(state@),
        decreases snapshot.checkpoints.len() - i,
    {
        let ghost k = s.nodes.len() + s.placement_maps.len() + s.writer_leases.len() + s.outbox_checkpoints.len()
                + s.sealed_segments.len() + i;
        assert(all.take(k + 1).drop_last() =~= all.take(k));
        assert(all.take(k + 1).last() == all[k]);
        assert(all[k] == CommandRecordView::RecordCheckpoint(s.checkpoints[i as int]));
        let checkpoint = checkpoint_from(&snapshot.checkpoints[i]);
        match state.apply(ClusterControlCommand::RecordCheckpoint(checkpoint)) {
            Ok(()) => {},
            Err(e) => {
                proof {
                    lemma_run_fails(empty_control(), all, k + 1);
                }
                return Err(e.describe());
            },
        }
        i += 1;
    }
    assert(all.take(all.len() as int) =~= all);
    Ok(state)
}

// ---------------------------------------------------------------------------
// Queries
// ---------------------------------------------------------------------------

/// A question about the control state.
#[derive(Debug, Clone, PartialEq, Eq)]
pub enum ClusterQuery {
    /// The owner of a shard in the current placement map.
    ResolveTarget { shard_id: u64 },
    /// The owners of a shard in all known placement maps.
    ResolveWithFallback { shard_id: u64 },
    /// All known Ipto instances.
    ListIptoInstances,
    /// The epoch of the current placement map.
    CurrentPlacementEpoch,
    /// The holder of the writer lease of a target.
    GetWriterLease { target: String },
    /// The offset up to which a target has acknowledged the writes of a shard.
    GetOutboxCheckpoint { shard_id: u64, target: String },
    /// The checksum of a sealed segment.
    GetSealedSegment { segment_id: String },
}

/// The view of a question.
pub enum QueryView {
    ResolveTarget(u64),
    ResolveWithFallback(u64),
    ListIptoInstances,
    CurrentPlacementEpoch,
    GetWriterLease(Seq<char>),
    GetOutboxCheckpoint(u64, Seq<char>),
    GetSealedSegment(Seq<char>),
}

impl View for ClusterQuery {
    type V = QueryView;

    open spec fn view(&self) -> QueryView {
        match self {
            ClusterQuery::ResolveTarget { shard_id } => QueryView::ResolveTarget(*shard_id),
            ClusterQuery::ResolveWithFallback { shard_id } => QueryView::ResolveWithFallback(*shard_id),
            ClusterQuery::ListIptoInstances => QueryView::ListIptoInstances,
            ClusterQuery::CurrentPlacementEpoch => QueryView::CurrentPlacementEpoch,
            ClusterQuery::GetWriterLease { target } => QueryView::GetWriterLease(target@),
            ClusterQuery::GetOutboxCheckpoint { shard_id, target } => QueryView::GetOutboxCheckpoint(
                *shard_id,
                target@,
            ),
            ClusterQuery::GetSealedSegment { segment_id } => QueryView::GetSealedSegment(segment_id@),
        }
    }
}

/// What a question is answered.
pub open spec fn query_answer(s: ControlView, q: QueryView) -> AnswerView {
    match q {
        QueryView::ResolveTarget(shard) => AnswerView::OptionalText(current_owner(s, shard)),
        QueryView::ResolveWithFallback(shard) => AnswerView::Texts(
            owners(s.placement_maps, epochs(s.placement_maps), shard, Seq::empty()),
        ),
        QueryView::ListIptoInstances => AnswerView::Texts(instances_of(s.placement_maps, epochs(s.placement_maps))),
        QueryView::CurrentPlacementEpoch => AnswerView::OptionalNumber(
            match latest_map(s.placement_maps) {
                Some(m) => Some(m.epoch),
                None => None,
            },
        ),
        QueryView::GetWriterLease(target) => AnswerView::OptionalText(
            if s.writer_leases.contains_key(target) {
                Some(s.writer_leases[target].holder)
            } else {
                None
            },
        ),
        QueryView::GetOutboxCheckpoint(shard, target) => AnswerView::OptionalNumber(
            if s.outbox_checkpoints.contains_key((shard, target)) {
                Some(s.outbox_checkpoints[(shard, target)].last_acknowledged_offset)
            } else {
                None
            },
        ),
        QueryView::GetSealedSegment(segment) => AnswerView::OptionalNumber(
            if s.sealed_segments.contains_key(segment) {
                Some(s.sealed_segments[segment].checksum)
            } else {
                None
            },
        ),
    }
}

fn instance_texts(list: &Vec<IptoInstanceId>) -> (r: Vec<String>)
    ensures
        views(r@) == views(list@),
{
    let mut out: Vec<String> = Vec::new();
    let mut i: usize = 0;
    while i < list.len()
        invariant
            i <= list.len(),
            out.len() == i,
            forall|j: int| 0 <= j < i ==> (#[trigger] out@[j])@ == list@[j]@,
        decreases list.len() - i,
    {
        out.push(list[i].as_str().to_owned());
        i += 1;
    }
    assert(views(out@) =~= views(list@));
    out
}

/// Answers a question about the control state.
pub fn answer_query(state: &ClusterControlState, query: &ClusterQuery) -> (r: Answer)
    ensures
        r@ == query_answer(state@, query@),
{
    match query {
        ClusterQuery::ResolveTarget { shard_id } => Answer::OptionalText(
            match state.resolve_ipto_target(DataIndividualShardId(*shard_id)) {
                Some(target) => Some(target.as_str().to_owned()),
                None => None,
            },
        ),
        ClusterQuery::ResolveWithFallback { shard_id } => Answer::Texts(
            instance_texts(&state.resolve_with_fallback(DataIndividualShardId(*shard_id))),
        ),
        ClusterQuery::ListIptoInstances => Answer::Texts(instance_texts(&state.all_ipto_instances())),
        ClusterQuery::CurrentPlacementEpoch => Answer::OptionalNumber(
            match state.placement_map() {
                Some(map) => Some(map.epoch().0),
                None => None,
            },
        ),
        ClusterQuery::GetWriterLease { target } => Answer::OptionalText(
            match state.writer_lease(&IptoInstanceId::from(target.as_str())) {
                Some(lease) => Some(lease.holder.as_str().to_owned()),
                None => None,
            },
        ),
        ClusterQuery::GetOutboxCheckpoint { shard_id, target } => Answer::OptionalNumber(
            match state.outbox_checkpoint(DataIndividualShardId(*shard_id), &IptoInstanceId::from(target.as_str())) {
                Some(checkpoint) => Some(checkpoint.last_acknowledged_offset.0),
                None => None,
            },
        ),
        ClusterQuery::GetSealedSegment { segment_id } => Answer::OptionalNumber(
            match state.sealed_segment(&SegmentId::from(segment_id.as_str())) {
                Some(manifest) => Some(manifest.checksum),
                None => None,
            },
        ),
    }
}

/// Answers a question about the control state in JSON.
pub fn handle_query(state: &ClusterControlState, query: &ClusterQuery) -> (r: Vec<u8>)
    ensures
        r@ == encode_utf8(json_text(query_answer(state@, query@))),
{
    json_answer(&answer_query(state, query))
}

// ---------------------------------------------------------------------------
// The state machine
// ---------------------------------------------------------------------------

/// The control state behind a replicated log.
#[derive(Debug)]
pub struct ClusterStateMachine {
    state: ClusterControlState,
}

impl View for ClusterStateMachine {
    type V = ControlView;

    closed spec fn view(&self) -> ControlView {
        self.state@
    }
}

/// What a command of the log comes to, or the text of why it changes nothing.
pub open spec fn log_step(s: ControlView, command: Result<CommandRecordView, Seq<char>>) -> Result<
    ControlView,
    Seq<char>,
> {
    match command {
        Err(text) => Err(text),
        Ok(record) => match recorded_command(record) {
            Err(e) => Err(control_error_text(e)),
            Ok(c) => match applied(s, c) {
                Err(e) => Err(control_error_text(e)),
                Ok(after) => Ok(after),
            },
        },
    }
}

/// The view of a record that was read, or of the text of why it could not be.
pub open spec fn read_view<T: View>(r: Result<T, String>) -> Result<T::V, Seq<char>> {
    match r {
        Ok(t) => Ok(t@),
        Err(text) => Err(text@),
    }
}

impl ClusterStateMachine {
    /// A state machine without records.
    pub fn new() -> (r: Self)
        ensures
            r@ == empty_control(),
    {
        ClusterStateMachine { state: ClusterControlState::new() }
    }

    /// The control state.
    pub fn state(&self) -> (r: &ClusterControlState)
        ensures
            r@ == self@,
    {
        &self.state
    }

    /// Applies a command of the log, if it could be read and is not refused.
    pub fn apply(&mut self, _term: u64, command: Result<CommandRecord, String>)
        ensures
            final(self)@ == (match log_step(old(self)@, read_view(command)) {
                Ok(after) => after,
                Err(_) => old(self)@,
            }),
    {
        if let Ok(record) = command {
            if let Ok(cmd) = decode_command(&record) {
                let _ = self.state.apply(cmd);
            }
        }
    }

    /// Applies a command of the log, and answers with nothing, or with the text of why it
    /// changed nothing as a JSON string.
    pub fn apply_with_result(&mut self, _term: u64, command: Result<CommandRecord, String>) -> (r: Vec<u8>)
        ensures
            match log_step(old(self)@, read_view(command)) {
                Ok(after) => final(self)@ == after && r@.len() == 0,
                Err(text) => final(self)@ == old(self)@ && r@ == encode_utf8(json_text(AnswerView::Text(text))),
            },
    {
        let record = match command {
            Ok(record) => record,
            Err(text) => {
                return json_answer(&Answer::Text(text));
            },
        };
        match decode_command(&record) {
            Err(text) => json_answer(&Answer::Text(text)),
            Ok(cmd) => match self.state.apply(cmd) {
                Ok(()) => Vec::new(),
                Err(e) => json_answer(&Answer::Text(e.describe())),
            },
        }
    }

    /// The record of the control state.
    pub fn snapshot(&self) -> (r: ControlSnapshotRecord)
        ensures
            r@ == snapshot_record(self@),
    {
        encode_snapshot(&self.state)
    }

    /// Takes over the control state of a record, if it could be read and is sound.
    pub fn restore(&mut self, snapshot: Result<ControlSnapshotRecord, String>)
        ensures
            final(self)@ == (match snapshot {
                Ok(record) => match run(empty_control(), rebuilding_commands(record@)) {
                    Ok(state) => state,
                    Err(_) => old(self)@,
                },
                Err(_) => old(self)@,
            }),
    {
        if let Ok(record) = snapshot {
            if let Ok(state) = decode_snapshot(&record) {
                self.state = state;
            }
        }
    }

    /// Answers a question in JSON; where it could not be read, with the text of why.
    pub fn query(&self, query: Result<ClusterQuery, String>) -> (r: Vec<u8>)
        ensures
            r@ == encode_utf8(
                json_text(
                    match query {
                        Ok(q) => query_answer(self@, q@),
                        Err(text) => AnswerView::Text(text@),
                    },
                ),
            ),
    {
        match query {
            Ok(q) => handle_query(&self.state, &q),
            Err(text) => json_answer(&Answer::Text(text)),
        }
    }
}

impl Default for ClusterStateMachine {
    fn default() -> (r: Self)
        ensures
            r@ == empty_control(),
    {
        ClusterStateMachine::new()
    }
}

// ---------------------------------------------------------------------------
// Laws
// ---------------------------------------------------------------------------

/// Whether a placement map can be rebuilt from what it was made of.
pub open spec fn storable_map(m: PlacementMapView) -> bool {
    recorded_map(map_record(m)) == Ok::<PlacementMapView, ControlErrorView>(m)
}

/// Whether a command can be rebuilt from its record.
pub open spec fn storable_command(c: CommandView) -> bool {
    match c {
        CommandView::SetIptoPlacementMap(m) => storable_map(m),
        CommandView::RecordCheckpoint(c) => c.segment_offsets.dom().finite(),
        _ => true,
    }
}

proof fn lemma_slots_sound(slots: Seq<SlotView>)
    requires
        forall|i: int| 0 <= i < slots.len() ==> (#[trigger] slots[i]).vnodes > 0,
    ensures
        slots_refusal(slots) is None,
    decreases slots.len(),
{
    if slots.len() > 0 {
        assert forall|i: int| 0 <= i < slots.drop_last().len() implies (#[trigger] slots.drop_last()[i]).vnodes > 0 by {
            assert(slots[i].vnodes > 0);
        }
        lemma_slots_sound(slots.drop_last());
        assert(slots[slots.len() - 1].vnodes > 0);
    }
}

proof fn lemma_ranges_sound(ranges: Seq<RangeView>)
    requires
        forall|i: int| 0 <= i < ranges.len() ==> (#[trigger] ranges[i]).start <= ranges[i].end,
    ensures
        ranges_refusal(ranges) is None,
    decreases ranges.len(),
{
    if ranges.len() > 0 {
        assert forall|i: int| 0 <= i < ranges.drop_last().len() implies (#[trigger] ranges.drop_last()[i]).start
            <= ranges.drop_last()[i].end by {
            assert(ranges[i].start <= ranges[i].end);
        }
        lemma_ranges_sound(ranges.drop_last());
        assert(ranges[ranges.len() - 1].start <= ranges[ranges.len() - 1].end);
    }
}

proof fn lemma_sorted_stays(ranges: Seq<RangeView>)
    requires
        forall|i: int, j: int|
            0 <= i < j < ranges.len() ==> (#[trigger] ranges[i]).start <= (#[trigger] ranges[j]).start,
    ensures
        sorted_ranges(ranges) == ranges,
    decreases ranges.len(),
{
    if ranges.len() > 0 {
        let front = ranges.drop_last();
        assert forall|i: int, j: int| 0 <= i < j < front.len() implies (#[trigger] front[i]).start <= (
        #[trigger] front[j]).start by {
            assert(ranges[i].start <= ranges[j].start);
        }
        lemma_sorted_stays(front);
        if front.len() > 0 {
            assert(ranges[front.len() - 1].start <= ranges[ranges.len() - 1].start);
        }
        assert(front.push(ranges.last()) =~= ranges);
    } else {
        assert(sorted_ranges(ranges) =~= ranges);
    }
}

/// Every placement map that is made of sound slots and overrides can be rebuilt from its
/// record.
pub proof fn law_made_maps_are_storable(epoch: u64, slots: Seq<SlotView>, overrides: Seq<RangeView>)
    requires
        forall|i: int| 0 <= i < slots.len() ==> (#[trigger] slots[i]).vnodes > 0,
        forall|i: int| 0 <= i < overrides.len() ==> (#[trigger] overrides[i]).start <= overrides[i].end,
        placement_refusal(slots, overrides) is None,
    ensures
        storable_map(placement(epoch, slots, overrides)),
{
    let ranges = sorted_ranges(overrides);
    let order = crate::placement::starts_later();
    lemma_slots_sound(slots);
    crate::ordered::lemma_stable_sort_multiset(overrides, order);
    crate::ordered::lemma_stable_sort_ordered(overrides, order);
    assert forall|i: int| 0 <= i < ranges.len() implies (#[trigger] ranges[i]).start <= ranges[i].end by {
        broadcast use vstd::seq_lib::group_to_multiset_ensures;

        assert(ranges.contains(ranges[i]));
        assert(ranges.to_multiset().count(ranges[i]) > 0);
        assert(overrides.contains(ranges[i]));
        let j = choose|j: int| 0 <= j < overrides.len() && overrides[j] == ranges[i];
        assert(overrides[j].start <= overrides[j].end);
    }
    lemma_ranges_sound(ranges);
    assert forall|i: int, j: int| 0 <= i < j < ranges.len() implies (#[trigger] ranges[i]).start <= (
    #[trigger] ranges[j]).start by {
        assert(!order(ranges[i], ranges[j]));
    }
    lemma_sorted_stays(ranges);
}

proof fn lemma_offsets(offsets: Map<Seq<char>, u64>, keys: Seq<Seq<char>>, list: Seq<(Seq<char>, u64)>, n: int)
    requires
        0 <= n <= keys.len(),
        list.len() == keys.len(),
        forall|i: int| 0 <= i < keys.len() ==> #[trigger] list[i] == (keys[i], offsets[keys[i]]),
        forall|i: int| 0 <= i < keys.len() ==> offsets.contains_key(#[trigger] keys[i]),
    ensures
        offsets_of(list.take(n)) == offsets.restrict(keys.take(n).to_set()),
    decreases n,
{
    if n == 0 {
        assert(offsets_of(list.take(0)) =~= offsets.restrict(keys.take(0).to_set()));
    } else {
        lemma_offsets(offsets, keys, list, n - 1);
        assert(list.take(n).drop_last() =~= list.take(n - 1));
        assert(list.take(n).last() == list[n - 1]);
        lemma_restrict_step(offsets, keys, n - 1);
    }
}

proof fn lemma_restrict_step<K, V>(m: Map<K, V>, keys: Seq<K>, n: int)
    requires
        0 <= n < keys.len(),
        m.contains_key(keys[n]),
    ensures
        m.restrict(keys.take(n + 1).to_set()) == m.restrict(keys.take(n).to_set()).insert(keys[n], m[keys[n]]),
{
    let (a, b) = (keys.take(n), keys.take(n + 1));
    assert forall|k: K| b.to_set().contains(k) == (a.to_set().contains(k) || k == keys[n]) by {
        if a.contains(k) {
            let i = choose|i: int| 0 <= i < a.len() && a[i] == k;
            assert(b[i] == k);
        }
        if b.contains(k) {
            let i = choose|i: int| 0 <= i < b.len() && b[i] == k;
            if i < n {
                assert(a[i] == k);
            }
        }
        if k == keys[n] {
            assert(b[n] == k);
        }
    }
    assert(m.restrict(b.to_set()) =~= m.restrict(a.to_set()).insert(keys[n], m[keys[n]]));
}

proof fn lemma_not_yet<K>(keys: Seq<K>, n: int)
    requires
        0 <= n < keys.len(),
        keys.no_duplicates(),
    ensures
        !keys.take(n).to_set().contains(keys[n]),
{
    if keys.take(n).contains(keys[n]) {
        let i = choose|i: int| 0 <= i < n && keys.take(n)[i] == keys[n];
        assert(keys[i] == keys[n]);
    }
}

proof fn lemma_restrict_all<K: Key, V>(m: Map<K::V, V>, keys: Seq<K::V>)
    requires
        lists::<K>(keys, m.dom()),
    ensures
        m.restrict(keys.take(keys.len() as int).to_set()) == m,
{
    let all = keys.take(keys.len() as int);
    assert(all =~= keys);
    assert forall|k: K::V| m.contains_key(k) implies all.to_set().contains(k) by {
        assert(m.dom().contains(k));
        assert(keys.contains(k));
    }
    assert(m.restrict(all.to_set()) =~= m);
}

proof fn lemma_listed<K: Key>(keys: Seq<K::V>, dom: Set<K::V>, i: int)
    requires
        lists::<K>(keys, dom),
        0 <= i < keys.len(),
    ensures
        dom.contains(keys[i]),
{
}

proof fn lemma_offset_list(offsets: Map<Seq<char>, u64>)
    requires
        offsets.dom().finite(),
    ensures
        offsets_of(offset_list(offsets)) == offsets,
{
    let keys = sorted::<SegmentId>(offsets.dom());
    let list = offset_list(offsets);
    lemma_listing_exists::<SegmentId>(offsets.dom());
    assert forall|i: int| 0 <= i < keys.len() implies offsets.contains_key(#[trigger] keys[i]) by {
        assert(offsets.dom().contains(keys[i]));
    }
    lemma_offsets(offsets, keys, list, keys.len() as int);
    assert(list.take(keys.len() as int) =~= list);
    lemma_restrict_all::<SegmentId, u64>(offsets, keys);
}

/// Decoding the record of a command gives the command back.
pub proof fn law_command_round_trip(c: CommandView)
    requires
        storable_command(c),
    ensures
        recorded_command(command_record(c)) == Ok::<CommandView, ControlErrorView>(c),
{
    if let CommandView::RecordCheckpoint(checkpoint) = c {
        lemma_offset_list(checkpoint.segment_offsets);
    }
}

/// Whether a control state can be rebuilt from its record: it is consistent, every entry
/// is filed under its own key, and its maps and checkpoints can be stored.
pub open spec fn storable_state(s: ControlView) -> bool {
    &&& control_consistent(s)
    &&& s.nodes.finite()
    &&& s.writer_leases.dom().finite()
    &&& s.outbox_checkpoints.dom().finite()
    &&& s.sealed_segments.dom().finite()
    &&& s.checkpoints.dom().finite()
    &&& forall|k: u64| #[trigger] s.placement_maps.contains_key(k) ==> storable_map(s.placement_maps[k])
    &&& forall|k: (u64, Seq<char>)| #[trigger]
        s.outbox_checkpoints.contains_key(k) ==> s.outbox_checkpoints[k].shard == k.0
            && s.outbox_checkpoints[k].target == k.1
    &&& forall|k: Seq<char>| #[trigger] s.sealed_segments.contains_key(k) ==> s.sealed_segments[k].segment_id == k
    &&& forall|k: Seq<char>| #[trigger]
        s.checkpoints.contains_key(k) ==> s.checkpoints[k].checkpoint_id == k
            && s.checkpoints[k].segment_offsets.dom().finite()
}

/// A state without records can be stored, and no command that can be stored makes it one
/// that cannot.
pub proof fn law_commands_keep_storable(s: ControlView, c: CommandView)
    requires
        storable_state(s),
        storable_command(c),
    ensures
        storable_state(empty_control()),
        applied(s, c) matches Ok(after) ==> storable_state(after),
{
    crate::cluster::law_commands_keep_consistency(s, c);
    if let Ok(after) = applied(s, c) {
        match c {
            CommandView::SetIptoPlacementMap(map) => {
                assert forall|k: u64| #[trigger] after.placement_maps.contains_key(k) implies storable_map(
                    after.placement_maps[k],
                ) by {
                    if k != map.epoch {
                        assert(s.placement_maps.contains_key(k));
                    }
                }
            },
            CommandView::RemoveNode(node) => {
                assert(after.writer_leases.dom().subset_of(s.writer_leases.dom()));
                vstd::set_lib::lemma_set_subset_finite(s.writer_leases.dom(), after.writer_leases.dom());
            },
            _ => {},
        }
    }
}

proof fn lemma_run_concat(s: ControlView, a: Seq<CommandRecordView>, b: Seq<CommandRecordView>)
    requires
        run(s, a) is Ok,
    ensures
        run(s, a + b) == run(run(s, a)->Ok_0, b),
    decreases b.len(),
{
    if b.len() == 0 {
        assert(a + b =~= a);
    } else {
        assert((a + b).drop_last() =~= a + b.drop_last());
        assert((a + b).last() == b.last());
        lemma_run_concat(s, a, b.drop_last());
    }
}

proof fn lemma_run_push(s: ControlView, commands: Seq<CommandRecordView>, n: int, before: ControlView)
    requires
        0 <= n < commands.len(),
        run(s, commands.take(n)) == Ok::<ControlView, ControlErrorView>(before),
    ensures
        run(s, commands.take(n + 1)) == (match recorded_command(commands[n]) {
            Err(e) => Err(e),
            Ok(c) => applied(before, c),
        }),
{
    assert(commands.take(n + 1).drop_last() =~= commands.take(n));
    assert(commands.take(n + 1).last() == commands[n]);
}

proof fn lemma_run_nodes(s: ControlView, keys: Seq<Seq<char>>, commands: Seq<CommandRecordView>, n: int)
    requires
        0 <= n <= keys.len(),
        commands.len() == keys.len(),
        s.nodes == Set::<Seq<char>>::empty(),
        forall|i: int| 0 <= i < keys.len() ==> #[trigger] commands[i] == CommandRecordView::AddNode(keys[i]),
    ensures
        run(s, commands.take(n)) == Ok::<ControlView, ControlErrorView>(
            ControlView { nodes: keys.take(n).to_set(), ..s },
        ),
    decreases n,
{
    if n == 0 {
        assert(commands.take(0) =~= Seq::<CommandRecordView>::empty());
        assert(keys.take(0).to_set() =~= s.nodes);
    } else {
        lemma_run_nodes(s, keys, commands, n - 1);
        let before = ControlView { nodes: keys.take(n - 1).to_set(), ..s };
        lemma_run_push(s, commands, n - 1, before);
        assert(keys.take(n) =~= keys.take(n - 1).push(keys[n - 1]));
        assert(keys.take(n - 1).to_set().insert(keys[n - 1]) =~= keys.take(n).to_set()) by {
            broadcast use vstd::seq_lib::group_seq_properties;

        }
    }
}

proof fn lemma_run_maps(
    s: ControlView,
    maps: Map<u64, PlacementMapView>,
    keys: Seq<u64>,
    commands: Seq<CommandRecordView>,
    n: int,
)
    requires
        0 <= n <= keys.len(),
        commands.len() == keys.len(),
        keys == epochs(maps),
        lists::<PlacementEpoch>(keys, maps.dom()),
        keys.len() <= MAX_PLACEMENT_HISTORY,
        s.placement_maps == Map::<u64, PlacementMapView>::empty(),
        forall|k: u64| #[trigger] maps.contains_key(k) ==> maps[k].epoch == k && storable_map(maps[k]),
        forall|i: int|
            0 <= i < keys.len() ==> #[trigger] commands[i] == CommandRecordView::SetIptoPlacementMap(
                map_record(maps[keys[i]]),
            ),
    ensures
        run(s, commands.take(n)) == Ok::<ControlView, ControlErrorView>(
            ControlView { placement_maps: maps.restrict(keys.take(n).to_set()), ..s },
        ),
    decreases n,
{
    if n == 0 {
        assert(commands.take(0) =~= Seq::<CommandRecordView>::empty());
        assert(maps.restrict(keys.take(0).to_set()) =~= s.placement_maps);
    } else {
        lemma_run_maps(s, maps, keys, commands, n - 1);
        let sofar = maps.restrict(keys.take(n - 1).to_set());
        let before = ControlView { placement_maps: sofar, ..s };
        lemma_run_push(s, commands, n - 1, before);
        let k = keys[n - 1];
        assert(maps.dom().contains(keys[n - 1]));
        assert(commands[n - 1] == CommandRecordView::SetIptoPlacementMap(map_record(maps[k])));
        lemma_restrict_step(maps, keys, n - 1);
        lemma_prefix_listing(maps, keys, n - 1);
        lemma_prefix_listing(maps, keys, n);
        if n > 1 {
            assert(keys.take(n - 1).last() == keys[n - 2]);
            assert(maps.dom().contains(keys[n - 2]));
            assert(PlacementEpoch::before(keys[n - 2], keys[n - 1]));
            assert(keys.take(n - 1)[n - 2] == keys[n - 2]);
            assert(sofar.contains_key(keys[n - 2])) by {
                assert(keys.take(n - 1).contains(keys[n - 2]));
            }
        }
    }
}

proof fn lemma_prefix_listing(maps: Map<u64, PlacementMapView>, keys: Seq<u64>, n: int)
    requires
        lists::<PlacementEpoch>(keys, maps.dom()),
        0 <= n <= keys.len(),
    ensures
        epochs(maps.restrict(keys.take(n).to_set())) == keys.take(n),
{
    let front = keys.take(n);
    let part = maps.restrict(front.to_set());
    assert forall|i: int, j: int| 0 <= i < j < front.len() implies PlacementEpoch::before(
        #[trigger] front[i],
        #[trigger] front[j],
    ) by {
        assert(PlacementEpoch::before(keys[i], keys[j]));
    }
    assert forall|i: int| 0 <= i < front.len() implies part.dom().contains(#[trigger] front[i]) by {
        assert(maps.dom().contains(keys[i]));
        assert(front.contains(front[i]));
    }
    assert forall|k: u64| #[trigger] part.dom().contains(k) implies front.contains(k) by {}
    lemma_listing_len::<PlacementEpoch>(front, part.dom());
}

proof fn lemma_run_leases(
    s: ControlView,
    leases: Map<Seq<char>, LeaseView>,
    keys: Seq<Seq<char>>,
    commands: Seq<CommandRecordView>,
    n: int,
)
    requires
        0 <= n <= keys.len(),
        commands.len() == keys.len(),
        lists::<IptoInstanceId>(keys, leases.dom()),
        keys.no_duplicates(),
        s.writer_leases == Map::<Seq<char>, LeaseView>::empty(),
        forall|t: Seq<char>| #[trigger]
            leases.contains_key(t) ==> leases[t].target == t && s.nodes.contains(leases[t].holder),
        forall|i: int|
            0 <= i < keys.len() ==> #[trigger] commands[i] == CommandRecordView::GrantWriterLease(leases[keys[i]]),
    ensures
        run(s, commands.take(n)) == Ok::<ControlView, ControlErrorView>(
            ControlView { writer_leases: leases.restrict(keys.take(n).to_set()), ..s },
        ),
    decreases n,
{
    if n == 0 {
        assert(commands.take(0) =~= Seq::<CommandRecordView>::empty());
        assert(leases.restrict(keys.take(0).to_set()) =~= s.writer_leases);
    } else {
        lemma_run_leases(s, leases, keys, commands, n - 1);
        let before = ControlView { writer_leases: leases.restrict(keys.take(n - 1).to_set()), ..s };
        lemma_run_push(s, commands, n - 1, before);
        assert(leases.dom().contains(keys[n - 1]));
        assert(commands[n - 1] == CommandRecordView::GrantWriterLease(leases[keys[n - 1]]));
        lemma_restrict_step(leases, keys, n - 1);
        lemma_not_yet(keys, n - 1);
    }
}

proof fn lemma_run_outbox_checkpoints(
    s: ControlView,
    all: Map<(u64, Seq<char>), OutboxCheckpointView>,
    keys: Seq<(u64, Seq<char>)>,
    commands: Seq<CommandRecordView>,
    n: int,
)
    requires
        0 <= n <= keys.len(),
        commands.len() == keys.len(),
        lists::<(DataIndividualShardId, IptoInstanceId)>(keys, all.dom()),
        keys.no_duplicates(),
        s.outbox_checkpoints == Map::<(u64, Seq<char>), OutboxCheckpointView>::empty(),
        forall|k: (u64, Seq<char>)| #[trigger] all.contains_key(k) ==> all[k].shard == k.0 && all[k].target == k.1,
        forall|i: int|
            0 <= i < keys.len() ==> #[trigger] commands[i] == CommandRecordView::RecordOutboxCheckpoint(all[keys[i]]),
    ensures
        run(s, commands.take(n)) == Ok::<ControlView, ControlErrorView>(
            ControlView { outbox_checkpoints: all.restrict(keys.take(n).to_set()), ..s },
        ),
    decreases n,
{
    if n == 0 {
        assert(commands.take(0) =~= Seq::<CommandRecordView>::empty());
        assert(all.restrict(keys.take(0).to_set()) =~= s.outbox_checkpoints);
    } else {
        lemma_run_outbox_checkpoints(s, all, keys, commands, n - 1);
        let before = ControlView { outbox_checkpoints: all.restrict(keys.take(n - 1).to_set()), ..s };
        lemma_run_push(s, commands, n - 1, before);
        let k = keys[n - 1];
        lemma_listed::<(DataIndividualShardId, IptoInstanceId)>(keys, all.dom(), n - 1);
        assert(all.contains_key(k));
        assert((all[k].shard, all[k].target) == k);
        assert(commands[n - 1] == CommandRecordView::RecordOutboxCheckpoint(all[k]));
        lemma_restrict_step(all, keys, n - 1);
        lemma_not_yet(keys, n - 1);
    }
}

proof fn lemma_run_sealed(
    s: ControlView,
    all: Map<Seq<char>, SegmentManifestView>,
    keys: Seq<Seq<char>>,
    commands: Seq<CommandRecordView>,
    n: int,
)
    requires
        0 <= n <= keys.len(),
        commands.len() == keys.len(),
        lists::<SegmentId>(keys, all.dom()),
        s.sealed_segments == Map::<Seq<char>, SegmentManifestView>::empty(),
        forall|k: Seq<char>| #[trigger] all.contains_key(k) ==> all[k].segment_id == k,
        forall|i: int|
            0 <= i < keys.len() ==> #[trigger] commands[i] == CommandRecordView::RecordSealedSegment(all[keys[i]]),
    ensures
        run(s, commands.take(n)) == Ok::<ControlView, ControlErrorView>(
            ControlView { sealed_segments: all.restrict(keys.take(n).to_set()), ..s },
        ),
    decreases n,
{
    if n == 0 {
        assert(commands.take(0) =~= Seq::<CommandRecordView>::empty());
        assert(all.restrict(keys.take(0).to_set()) =~= s.sealed_segments);
    } else {
        lemma_run_sealed(s, all, keys, commands, n - 1);
        let before = ControlView { sealed_segments: all.restrict(keys.take(n - 1).to_set()), ..s };
        lemma_run_push(s, commands, n - 1, before);
        assert(all.dom().contains(keys[n - 1]));
        assert(commands[n - 1] == CommandRecordView::RecordSealedSegment(all[keys[n - 1]]));
        lemma_restrict_step(all, keys, n - 1);
    }
}

proof fn lemma_run_checkpoints(
    s: ControlView,
    all: Map<Seq<char>, CheckpointManifestView>,
    keys: Seq<Seq<char>>,
    commands: Seq<CommandRecordView>,
    n: int,
)
    requires
        0 <= n <= keys.len(),
        commands.len() == keys.len(),
        lists::<String>(keys, all.dom()),
        keys.no_duplicates(),
        s.checkpoints == Map::<Seq<char>, CheckpointManifestView>::empty(),
        forall|k: Seq<char>| #[trigger]
            all.contains_key(k) ==> all[k].checkpoint_id == k && all[k].segment_offsets.dom().finite(),
        forall|i: int|
            0 <= i < keys.len() ==> #[trigger] commands[i] == CommandRecordView::RecordCheckpoint(
                checkpoint_record(all[keys[i]]),
            ),
    ensures
        run(s, commands.take(n)) == Ok::<ControlView, ControlErrorView>(
            ControlView { checkpoints: all.restrict(keys.take(n).to_set()), ..s },
        ),
    decreases n,
{
    if n == 0 {
        assert(commands.take(0) =~= Seq::<CommandRecordView>::empty());
        assert(all.restrict(keys.take(0).to_set()) =~= s.checkpoints);
    } else {
        lemma_run_checkpoints(s, all, keys, commands, n - 1);
        let before = ControlView { checkpoints: all.restrict(keys.take(n - 1).to_set()), ..s };
        lemma_run_push(s, commands, n - 1, before);
        let k = keys[n - 1];
        assert(all.dom().contains(keys[n - 1]));
        assert(all.contains_key(k));
        assert(commands[n - 1] == CommandRecordView::RecordCheckpoint(checkpoint_record(all[k])));
        law_command_round_trip(CommandView::RecordCheckpoint(all[k]));
        lemma_restrict_step(all, keys, n - 1);
        lemma_not_yet(keys, n - 1);
    }
}

/// Restoring a snapshot gives back the control state it was taken of.
pub proof fn law_snapshot_round_trip(s: ControlView)
    requires
        storable_state(s),
    ensures
        run(empty_control(), rebuilding_commands(snapshot_record(s))) == Ok::<ControlView, ControlErrorView>(s),
{
    let r = snapshot_record(s);
    let nodes = sorted::<NodeId>(s.nodes);
    let map_keys = epochs(s.placement_maps);
    let lease_keys = sorted::<IptoInstanceId>(s.writer_leases.dom());
    let outbox_keys = outbox_checkpoint_keys(s.outbox_checkpoints);
    let sealed_keys = sorted::<SegmentId>(s.sealed_segments.dom());
    let checkpoint_keys = sorted::<String>(s.checkpoints.dom());
    lemma_listing_exists::<NodeId>(s.nodes);
    lemma_listing_exists::<IptoInstanceId>(s.writer_leases.dom());
    lemma_listing_exists::<(DataIndividualShardId, IptoInstanceId)>(s.outbox_checkpoints.dom());
    lemma_listing_exists::<SegmentId>(s.sealed_segments.dom());
    lemma_listing_exists::<String>(s.checkpoints.dom());
    lemma_listing_len::<IptoInstanceId>(lease_keys, s.writer_leases.dom());
    lemma_listing_len::<(DataIndividualShardId, IptoInstanceId)>(outbox_keys, s.outbox_checkpoints.dom());
    lemma_listing_len::<String>(checkpoint_keys, s.checkpoints.dom());
    let c1 = Seq::new(r.nodes.len(), |i: int| CommandRecordView::AddNode(r.nodes[i]));
    let c2 = Seq::new(
        r.placement_maps.len(),
        |i: int| CommandRecordView::SetIptoPlacementMap(r.placement_maps[i]),
    );
    let c3 = Seq::new(r.writer_leases.len(), |i: int| CommandRecordView::GrantWriterLease(r.writer_leases[i]));
    let c4 = Seq::new(
        r.outbox_checkpoints.len(),
        |i: int| CommandRecordView::RecordOutboxCheckpoint(r.outbox_checkpoints[i]),
    );
    let c5 = Seq::new(
        r.sealed_segments.len(),
        |i: int| CommandRecordView::RecordSealedSegment(r.sealed_segments[i]),
    );
    let c6 = Seq::new(r.checkpoints.len(), |i: int| CommandRecordView::RecordCheckpoint(r.checkpoints[i]));
    let s0 = empty_control();
    let s1 = ControlView { nodes: s.nodes, ..s0 };
    let s2 = ControlView { placement_maps: s.placement_maps, ..s1 };
    let s3 = ControlView { writer_leases: s.writer_leases, ..s2 };
    let s4 = ControlView { outbox_checkpoints: s.outbox_checkpoints, ..s3 };
    let s5 = ControlView { sealed_segments: s.sealed_segments, ..s4 };
    assert(run(s0, c1) == Ok::<ControlView, ControlErrorView>(s1)) by {
        lemma_run_nodes(s0, nodes, c1, nodes.len() as int);
        assert(c1.take(nodes.len() as int) =~= c1);
        assert(nodes.take(nodes.len() as int) =~= nodes);
        assert(nodes.to_set() =~= s.nodes) by {
            assert forall|k: Seq<char>| nodes.to_set().contains(k) == s.nodes.contains(k) by {
                if nodes.contains(k) {
                    let i = choose|i: int| 0 <= i < nodes.len() && nodes[i] == k;
                    assert(s.nodes.contains(nodes[i]));
                }
            }
        }
    }
    assert(run(s1, c2) == Ok::<ControlView, ControlErrorView>(s2)) by {
        let maps = s.placement_maps;
        assert forall|i: int| 0 <= i < map_keys.len() implies #[trigger] c2[i]
            == CommandRecordView::SetIptoPlacementMap(map_record(maps[map_keys[i]])) by {
            assert(maps.dom().contains(map_keys[i]));
            assert(maps.contains_key(map_keys[i]));
        }
        lemma_run_maps(s1, maps, map_keys, c2, map_keys.len() as int);
        assert(c2.take(map_keys.len() as int) =~= c2);
        lemma_restrict_all::<PlacementEpoch, PlacementMapView>(maps, map_keys);
    }
    assert(run(s2, c3) == Ok::<ControlView, ControlErrorView>(s3)) by {
        let leases = s.writer_leases;
        assert forall|i: int| 0 <= i < lease_keys.len() implies #[trigger] c3[i]
            == CommandRecordView::GrantWriterLease(leases[lease_keys[i]]) by {
            assert(leases.dom().contains(lease_keys[i]));
            assert(leases.contains_key(lease_keys[i]));
        }
        lemma_run_leases(s2, leases, lease_keys, c3, lease_keys.len() as int);
        assert(c3.take(lease_keys.len() as int) =~= c3);
        lemma_restrict_all::<IptoInstanceId, LeaseView>(leases, lease_keys);
    }
    assert(run(s3, c4) == Ok::<ControlView, ControlErrorView>(s4)) by {
        let all = s.outbox_checkpoints;
        assert forall|i: int| 0 <= i < outbox_keys.len() implies #[trigger] c4[i]
            == CommandRecordView::RecordOutboxCheckpoint(all[outbox_keys[i]]) by {
            lemma_listed::<(DataIndividualShardId, IptoInstanceId)>(outbox_keys, all.dom(), i);
            assert(all.contains_key(outbox_keys[i]));
        }
        lemma_run_outbox_checkpoints(s3, all, outbox_keys, c4, outbox_keys.len() as int);
        assert(c4.take(outbox_keys.len() as int) =~= c4);
        lemma_restrict_all::<(DataIndividualShardId, IptoInstanceId), OutboxCheckpointView>(all, outbox_keys);
    }
    assert(run(s4, c5) == Ok::<ControlView, ControlErrorView>(s5)) by {
        let all = s.sealed_segments;
        lemma_run_sealed(s4, all, sealed_keys, c5, sealed_keys.len() as int);
        assert(c5.take(sealed_keys.len() as int) =~= c5);
        lemma_restrict_all::<SegmentId, SegmentManifestView>(all, sealed_keys);
    }
    assert(run(s5, c6) == Ok::<ControlView, ControlErrorView>(s)) by {
        let all = s.checkpoints;
        lemma_run_checkpoints(s5, all, checkpoint_keys, c6, checkpoint_keys.len() as int);
        assert(c6.take(checkpoint_keys.len() as int) =~= c6);
        lemma_restrict_all::<String, CheckpointManifestView>(all, checkpoint_keys);
    }
    lemma_run_concat(s0, c1, c2);
    lemma_run_concat(s0, c1 + c2, c3);
    lemma_run_concat(s0, c1 + c2 + c3, c4);
    lemma_run_concat(s0, c1 + c2 + c3 + c4, c5);
    lemma_run_concat(s0, c1 + c2 + c3 + c4 + c5, c6);
    assert(rebuilding_commands(r) =~= c1 + c2 + c3 + c4 + c5 + c6);
}

/// A query of the control state is answered with what is on record: the owner of a shard in
/// the latest map, its candidates, the instances, the latest epoch, the holder of a lease,
/// the place of a checkpoint and the checksum of a segment; what is not on record has no
/// answer.
pub proof fn law_control_queries(s: ControlView, shard: u64, name: Seq<char>)
    requires
        control_consistent(s),
    ensures
        query_answer(s, QueryView::ResolveTarget(shard)) == AnswerView::OptionalText(current_owner(s, shard)),
        query_answer(s, QueryView::ResolveWithFallback(shard)) matches AnswerView::Texts(found) && (current_owner(
            s,
            shard,
        ) matches Some(first) ==> found.len() > 0 && found[0] == first),
        latest_map(s.placement_maps) is None ==> query_answer(s, QueryView::CurrentPlacementEpoch)
            == AnswerView::OptionalNumber(None),
        query_answer(s, QueryView::CurrentPlacementEpoch) matches AnswerView::OptionalNumber(Some(epoch)) ==> (
        s.placement_maps.contains_key(epoch) && forall|k: u64| #[trigger]
            s.placement_maps.contains_key(k) ==> k <= epoch),
        s.writer_leases.contains_key(name) ==> query_answer(s, QueryView::GetWriterLease(name))
            == AnswerView::OptionalText(Some(s.writer_leases[name].holder)),
        !s.writer_leases.contains_key(name) ==> query_answer(s, QueryView::GetWriterLease(name))
            == AnswerView::OptionalText(None),
        s.outbox_checkpoints.contains_key((shard, name)) ==> query_answer(
            s,
            QueryView::GetOutboxCheckpoint(shard, name),
        ) == AnswerView::OptionalNumber(Some(s.outbox_checkpoints[(shard, name)].last_acknowledged_offset)),
        !s.outbox_checkpoints.contains_key((shard, name)) ==> query_answer(
            s,
            QueryView::GetOutboxCheckpoint(shard, name),
        ) == AnswerView::OptionalNumber(None),
        s.sealed_segments.contains_key(name) ==> query_answer(s, QueryView::GetSealedSegment(name))
            == AnswerView::OptionalNumber(Some(s.sealed_segments[name].checksum)),
        !s.sealed_segments.contains_key(name) ==> query_answer(s, QueryView::GetSealedSegment(name))
            == AnswerView::OptionalNumber(None),
{
    crate::cluster::law_fallback_starts_with_current_owner(s, shard);
    crate::cluster::law_latest_map_is_the_latest(s);
}

/// A command of the log is the command it was made from: a node, a lease, a checkpoint or a
/// segment as it is, and a map by its epoch, its slots and its overrides.
pub proof fn law_commands_are_recorded(
    node: Seq<char>,
    lease: LeaseView,
    c: OutboxCheckpointView,
    m: SegmentManifestView,
)
    ensures
        recorded_command(CommandRecordView::AddNode(node)) == Ok::<CommandView, ControlErrorView>(
            CommandView::AddNode(node),
        ),
        recorded_command(CommandRecordView::RemoveNode(node)) == Ok::<CommandView, ControlErrorView>(
            CommandView::RemoveNode(node),
        ),
        recorded_command(CommandRecordView::GrantWriterLease(lease)) == Ok::<CommandView, ControlErrorView>(
            CommandView::GrantWriterLease(lease),
        ),
        recorded_command(CommandRecordView::RecordOutboxCheckpoint(c)) == Ok::<CommandView, ControlErrorView>(
            CommandView::RecordOutboxCheckpoint(c),
        ),
        recorded_command(CommandRecordView::RecordSealedSegment(m)) == Ok::<CommandView, ControlErrorView>(
            CommandView::RecordSealedSegment(m),
        ),
        command_record(CommandView::AddNode(node)) == CommandRecordView::AddNode(node),
        command_record(CommandView::RemoveNode(node)) == CommandRecordView::RemoveNode(node),
        command_record(CommandView::GrantWriterLease(lease)) == CommandRecordView::GrantWriterLease(lease),
        command_record(CommandView::RecordOutboxCheckpoint(c)) == CommandRecordView::RecordOutboxCheckpoint(c),
        command_record(CommandView::RecordSealedSegment(m)) == CommandRecordView::RecordSealedSegment(m),
{
}

/// A recorded map is a placement map exactly if it has slots, each with a virtual node, and
/// overrides that end no earlier than they start and do not overlap.
pub proof fn law_recorded_maps(m: MapRecordView)
    ensures
        (exists|i: int| 0 <= i < m.slots.len() && (#[trigger] m.slots[i]).vnodes == 0) ==> recorded_map(m) is Err
            && recorded_map(m)->Err_0 is ZeroVnodes,
        (forall|i: int| 0 <= i < m.slots.len() ==> (#[trigger] m.slots[i]).vnodes > 0) && (exists|i: int|
            0 <= i < m.overrides.len() && (#[trigger] m.overrides[i]).end < m.overrides[i].start) ==> recorded_map(m)
            is Err && recorded_map(m)->Err_0 is InvalidPlacementRange,
        recorded_map(m) matches Ok(map) ==> {
            &&& map.epoch == m.epoch && map.slots == m.slots
            &&& m.slots.len() > 0
            &&& forall|i: int| 0 <= i < m.slots.len() ==> (#[trigger] m.slots[i]).vnodes > 0
            &&& forall|i: int| 0 <= i < m.overrides.len() ==> (#[trigger] m.overrides[i]).start <= m.overrides[i].end
        },
{
    lemma_slots_refusal(m.slots);
    lemma_ranges_refusal(m.overrides);
}

proof fn lemma_slots_refusal(slots: Seq<SlotView>)
    ensures
        slots_refusal(slots) is None <==> forall|i: int| 0 <= i < slots.len() ==> (#[trigger] slots[i]).vnodes > 0,
        slots_refusal(slots) is Some ==> slots_refusal(slots)->0 is ZeroVnodes,
    decreases slots.len(),
{
    if slots.len() > 0 {
        let front = slots.drop_last();
        lemma_slots_refusal(front);
        assert(slots[slots.len() - 1] == slots.last());
        if forall|i: int| 0 <= i < slots.len() ==> (#[trigger] slots[i]).vnodes > 0 {
            assert forall|i: int| 0 <= i < front.len() implies (#[trigger] front[i]).vnodes > 0 by {
                assert(front[i] == slots[i]);
            }
        }
        if slots_refusal(slots) is None {
            assert forall|i: int| 0 <= i < slots.len() implies (#[trigger] slots[i]).vnodes > 0 by {
                if i < front.len() {
                    assert(slots[i] == front[i]);
                }
            }
        }
    }
}

proof fn lemma_ranges_refusal(ranges: Seq<RangeView>)
    ensures
        ranges_refusal(ranges) is None <==> forall|i: int|
            0 <= i < ranges.len() ==> (#[trigger] ranges[i]).start <= ranges[i].end,
        ranges_refusal(ranges) is Some ==> ranges_refusal(ranges)->0 is InvalidPlacementRange,
    decreases ranges.len(),
{
    if ranges.len() > 0 {
        let front = ranges.drop_last();
        lemma_ranges_refusal(front);
        assert(ranges[ranges.len() - 1] == ranges.last());
        if forall|i: int| 0 <= i < ranges.len() ==> (#[trigger] ranges[i]).start <= ranges[i].end {
            assert forall|i: int| 0 <= i < front.len() implies (#[trigger] front[i]).start <= front[i].end by {
                assert(front[i] == ranges[i]);
            }
        }
        if ranges_refusal(ranges) is None {
            assert forall|i: int| 0 <= i < ranges.len() implies (#[trigger] ranges[i]).start <= ranges[i].end by {
                if i < front.len() {
                    assert(ranges[i] == front[i]);
                }
            }
        }
    }
}

/// Commands are run one after another; the first that is refused ends the run.
pub proof fn law_commands_run_in_turn(s: ControlView, commands: Seq<CommandRecordView>, c: CommandRecordView)
    ensures
        run(s, Seq::empty()) == Ok::<ControlView, ControlErrorView>(s),
        run(s, commands) matches Err(e) ==> run(s, commands.push(c)) == Err::<ControlView, ControlErrorView>(e),
        run(s, commands) matches Ok(before) ==> {
            &&& recorded_command(c) matches Err(e) ==> run(s, commands.push(c)) == Err::<ControlView, ControlErrorView>(e)
            &&& recorded_command(c) matches Ok(command) ==> run(s, commands.push(c)) == applied(before, command)
        },
{
    assert(commands.push(c).drop_last() =~= commands);
}

} // verus!
