//! What the cluster control state refuses.

use vstd::prelude::*;
use crate::cluster::NodeId;
use crate::checkpoint::{CheckpointEpoch, LeaseEpoch};
use crate::data::DataIndividualShardId;
use crate::ipto::IptoInstanceId;
use crate::placement::PlacementEpoch;
use crate::text::{decimal, push_decimal, push_text};

verus! {

/// Why a placement, a lease or a checkpoint is refused.
#[allow(inconsistent_fields)]
#[derive(Debug, PartialEq, Eq)]
pub enum ClusterControlError {
    NoPlacementSlots,
    ZeroVnodes { instance: String },
    NoShardTarget { shard_id: DataIndividualShardId },
    InvalidPlacementRange { start: DataIndividualShardId, end: DataIndividualShardId },
    OverlappingPlacementRanges {
        left_start: DataIndividualShardId,
        left_end: DataIndividualShardId,
        right_start: DataIndividualShardId,
        right_end: DataIndividualShardId,
    },
    StalePlacementEpoch { current: PlacementEpoch, proposed: PlacementEpoch },
    UnknownLeaseHolder { holder: NodeId },
    StaleLeaseEpoch { target: IptoInstanceId, current: LeaseEpoch, proposed: LeaseEpoch },
    StaleCheckpointEpoch {
        shard_id: DataIndividualShardId,
        target: IptoInstanceId,
        current: CheckpointEpoch,
        proposed: CheckpointEpoch,
    },
    StaleCheckpointManifest { checkpoint_id: String, current: CheckpointEpoch, proposed: CheckpointEpoch },
}

/// The view of a control error.
pub enum ControlErrorView {
    NoPlacementSlots,
    ZeroVnodes(Seq<char>),
    NoShardTarget(u64),
    InvalidPlacementRange(u64, u64),
    OverlappingPlacementRanges(u64, u64, u64, u64),
    StalePlacementEpoch(u64, u64),
    UnknownLeaseHolder(Seq<char>),
    StaleLeaseEpoch(Seq<char>, u64, u64),
    StaleCheckpointEpoch(u64, Seq<char>, u64, u64),
    StaleCheckpointManifest(Seq<char>, u64, u64),
}

impl View for ClusterControlError {
    type V = ControlErrorView;

    open spec fn view(&self) -> ControlErrorView {
        match self {
            ClusterControlError::NoPlacementSlots => ControlErrorView::NoPlacementSlots,
            ClusterControlError::ZeroVnodes { instance } => ControlErrorView::ZeroVnodes(instance@),
            ClusterControlError::NoShardTarget { shard_id } => ControlErrorView::NoShardTarget(shard_id@),
            ClusterControlError::InvalidPlacementRange { start, end } => ControlErrorView::InvalidPlacementRange(
                start@,
                end@,
            ),
            ClusterControlError::OverlappingPlacementRanges { left_start, left_end, right_start, right_end } =>
                ControlErrorView::OverlappingPlacementRanges(left_start@, left_end@, right_start@, right_end@),
            ClusterControlError::StalePlacementEpoch { current, proposed } => ControlErrorView::StalePlacementEpoch(
                current@,
                proposed@,
            ),
            ClusterControlError::UnknownLeaseHolder { holder } => ControlErrorView::UnknownLeaseHolder(holder@),
            ClusterControlError::StaleLeaseEpoch { target, current, proposed } => ControlErrorView::StaleLeaseEpoch(
                target@,
                current@,
                proposed@,
            ),
            ClusterControlError::StaleCheckpointEpoch { shard_id, target, current, proposed } =>
                ControlErrorView::StaleCheckpointEpoch(shard_id@, target@, current@, proposed@),
            ClusterControlError::StaleCheckpointManifest { checkpoint_id, current, proposed } =>
                ControlErrorView::StaleCheckpointManifest(checkpoint_id@, current@, proposed@),
        }
    }
}

/// The text of a control error.
pub open spec fn control_error_text(e: ControlErrorView) -> Seq<char> {
    match e {
        ControlErrorView::NoPlacementSlots => "Ipto placement map requires at least one slot"@,
        ControlErrorView::ZeroVnodes(instance) => "Ipto placement slot for '"@ + instance
            + "' must have at least one virtual node"@,
        ControlErrorView::NoShardTarget(shard) => "no Ipto instance resolved for shard "@ + decimal(shard as nat)
            + " in the current placement map"@,
        ControlErrorView::InvalidPlacementRange(start, end) => "invalid Ipto placement range: start "@ + decimal(
            start as nat,
        ) + " is greater than end "@ + decimal(end as nat),
        ControlErrorView::OverlappingPlacementRanges(ls, le, rs, re) => "overlapping Ipto placement ranges: "@
            + decimal(ls as nat) + "..="@ + decimal(le as nat) + " overlaps "@ + decimal(rs as nat) + "..="@ + decimal(
            re as nat,
        ),
        ControlErrorView::StalePlacementEpoch(current, proposed) => "stale Ipto placement epoch: current "@ + decimal(
            current as nat,
        ) + ", proposed "@ + decimal(proposed as nat),
        ControlErrorView::UnknownLeaseHolder(holder) => "writer lease holder '"@ + holder
            + "' is not a cluster node"@,
        ControlErrorView::StaleLeaseEpoch(target, current, proposed) => "stale writer lease epoch for target '"@
            + target + "': current "@ + decimal(current as nat) + ", proposed "@ + decimal(proposed as nat),
        ControlErrorView::StaleCheckpointEpoch(shard, target, current, proposed) =>
            "stale outbox checkpoint epoch for shard "@ + decimal(shard as nat) + " target '"@ + target
                + "': current "@ + decimal(current as nat) + ", proposed "@ + decimal(proposed as nat),
        ControlErrorView::StaleCheckpointManifest(id, current, proposed) => "stale checkpoint manifest epoch for '"@
            + id + "': current "@ + decimal(current as nat) + ", proposed "@ + decimal(proposed as nat),
    }
}

fn push_epochs(out: &mut String, before: &str, current: u64, proposed: u64)
    ensures
        final(out)@ == old(out)@ + before@ + decimal(current as nat) + ", proposed "@ + decimal(proposed as nat),
{
    push_text(out, before);
    push_decimal(out, current);
    push_text(out, ", proposed ");
    push_decimal(out, proposed);
}

impl ClusterControlError {
    /// The error as a text for an operator.
    pub fn describe(&self) -> (r: String)
        ensures
            r@ == control_error_text(self@),
    {
        match self {
            ClusterControlError::NoPlacementSlots => "Ipto placement map requires at least one slot".to_owned(),
            ClusterControlError::ZeroVnodes { instance } => {
                let mut out = "Ipto placement slot for '".to_owned();
                push_text(&mut out, instance.as_str());
                push_text(&mut out, "' must have at least one virtual node");
                out
            },
            ClusterControlError::NoShardTarget { shard_id } => {
                let mut out = "no Ipto instance resolved for shard ".to_owned();
                push_decimal(&mut out, shard_id.0);
                push_text(&mut out, " in the current placement map");
                out
            },
            ClusterControlError::InvalidPlacementRange { start, end } => {
                let mut out = "invalid Ipto placement range: start ".to_owned();
                push_decimal(&mut out, start.0);
                push_text(&mut out, " is greater than end ");
                push_decimal(&mut out, end.0);
                out
            },
            ClusterControlError::OverlappingPlacementRanges { left_start, left_end, right_start, right_end } => {
                let mut out = "overlapping Ipto placement ranges: ".to_owned();
                push_decimal(&mut out, left_start.0);
                push_text(&mut out, "..=");
                push_decimal(&mut out, left_end.0);
                push_text(&mut out, " overlaps ");
                push_decimal(&mut out, right_start.0);
                push_text(&mut out, "..=");
                push_decimal(&mut out, right_end.0);
                out
            },
            ClusterControlError::StalePlacementEpoch { current, proposed } => {
                let mut out = "stale Ipto placement epoch: current ".to_owned();
                push_decimal(&mut out, current.0);
                push_text(&mut out, ", proposed ");
                push_decimal(&mut out, proposed.0);
                out
            },
            ClusterControlError::UnknownLeaseHolder { holder } => {
                let mut out = "writer lease holder '".to_owned();
                push_text(&mut out, holder.as_str());
                push_text(&mut out, "' is not a cluster node");
                out
            },
            ClusterControlError::StaleLeaseEpoch { target, current, proposed } => {
                let mut out = "stale writer lease epoch for target '".to_owned();
                push_text(&mut out, target.as_str());
                push_epochs(&mut out, "': current ", current.0, proposed.0);
                out
            },
            ClusterControlError::StaleCheckpointEpoch { shard_id, target, current, proposed } => {
                let mut out = "stale outbox checkpoint epoch for shard ".to_owned();
                push_decimal(&mut out, shard_id.0);
                push_text(&mut out, " target '");
                push_text(&mut out, target.as_str());
                push_epochs(&mut out, "': current ", current.0, proposed.0);
                out
            },
            ClusterControlError::StaleCheckpointManifest { checkpoint_id, current, proposed } => {
                let mut out = "stale checkpoint manifest epoch for '".to_owned();
                push_text(&mut out, checkpoint_id.as_str());
                push_epochs(&mut out, "': current ", current.0, proposed.0);
                out
            },
        }
    }
}

impl Clone for ClusterControlError {
    fn clone(&self) -> (r: Self)
        ensures
            r == *self,
    {
        match self {
            ClusterControlError::NoPlacementSlots => ClusterControlError::NoPlacementSlots,
            ClusterControlError::ZeroVnodes { instance } => ClusterControlError::ZeroVnodes {
                instance: instance.clone(),
            },
            ClusterControlError::NoShardTarget { shard_id } => ClusterControlError::NoShardTarget {
                shard_id: *shard_id,
            },
            ClusterControlError::InvalidPlacementRange { start, end } => ClusterControlError::InvalidPlacementRange {
                start: *start,
                end: *end,
            },
            ClusterControlError::OverlappingPlacementRanges { left_start, left_end, right_start, right_end } =>
                ClusterControlError::OverlappingPlacementRanges {
                left_start: *left_start,
                left_end: *left_end,
                right_start: *right_start,
                right_end: *right_end,
            },
            ClusterControlError::StalePlacementEpoch { current, proposed } => ClusterControlError::StalePlacementEpoch {
                current: *current,
                proposed: *proposed,
            },
            ClusterControlError::UnknownLeaseHolder { holder } => ClusterControlError::UnknownLeaseHolder {
                holder: holder.clone(),
            },
            ClusterControlError::StaleLeaseEpoch { target, current, proposed } =>
                ClusterControlError::StaleLeaseEpoch {
                target: target.clone(),
                current: *current,
                proposed: *proposed,
            },
            ClusterControlError::StaleCheckpointEpoch { shard_id, target, current, proposed } =>
                ClusterControlError::StaleCheckpointEpoch {
                shard_id: *shard_id,
                target: target.clone(),
                current: *current,
                proposed: *proposed,
            },
            ClusterControlError::StaleCheckpointManifest { checkpoint_id, current, proposed } =>
                ClusterControlError::StaleCheckpointManifest {
                checkpoint_id: checkpoint_id.clone(),
                current: *current,
                proposed: *proposed,
            },
        }
    }
}

} // verus!
