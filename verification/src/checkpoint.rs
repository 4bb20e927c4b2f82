//! Leases and checkpoints.

use vstd::prelude::*;
use crate::cluster::NodeId;
use crate::data::DataIndividualShardId;
use crate::ipto::IptoInstanceId;
use crate::ordered::{opt_view, Duplicate, SortedMap};
use crate::storage::{RecordOffset, SegmentId};
use crate::text::IntoText;

verus! {

/// Version of a writer lease.
#[derive(Debug, Clone, Copy, PartialEq, Eq, PartialOrd, Ord, Hash)]
pub struct LeaseEpoch(pub u64);

impl View for LeaseEpoch {
    type V = u64;

    open spec fn view(&self) -> u64 {
        self.0
    }
}

/// Version of a checkpoint.
#[derive(Debug, Clone, Copy, PartialEq, Eq, PartialOrd, Ord, Hash)]
pub struct CheckpointEpoch(pub u64);

impl View for CheckpointEpoch {
    type V = u64;

    open spec fn view(&self) -> u64 {
        self.0
    }
}

/// The right of a node to write to an Ipto instance.
#[derive(Debug, PartialEq, Eq)]
pub struct WriterLease {
    pub target: IptoInstanceId,
    pub holder: NodeId,
    pub epoch: LeaseEpoch,
}

/// The view of a lease.
pub struct LeaseView {
    pub target: Seq<char>,
    pub holder: Seq<char>,
    pub epoch: u64,
}

impl View for WriterLease {
    type V = LeaseView;

    open spec fn view(&self) -> LeaseView {
        LeaseView { target: self.target@, holder: self.holder@, epoch: self.epoch@ }
    }
}

impl Clone for WriterLease {
    fn clone(&self) -> (r: Self)
        ensures
            r == *self,
    {
        WriterLease { target: self.target.clone(), holder: self.holder.clone(), epoch: self.epoch }
    }
}

impl Duplicate for WriterLease {
    fn duplicate(&self) -> (r: Self) {
        self.clone()
    }
}

/// How far the outbox of a segment has been acknowledged by a target.
#[derive(Debug, PartialEq, Eq)]
pub struct MetadataOutboxCheckpoint {
    pub data_individual_shard_id: DataIndividualShardId,
    pub target: IptoInstanceId,
    pub segment_id: SegmentId,
    pub last_acknowledged_offset: RecordOffset,
    pub mapping_version: String,
    pub epoch: CheckpointEpoch,
}

/// The view of an outbox checkpoint.
pub struct OutboxCheckpointView {
    pub shard: u64,
    pub target: Seq<char>,
    pub segment_id: Seq<char>,
    pub last_acknowledged_offset: u64,
    pub mapping_version: Seq<char>,
    pub epoch: u64,
}

impl View for MetadataOutboxCheckpoint {
    type V = OutboxCheckpointView;

    open spec fn view(&self) -> OutboxCheckpointView {
        OutboxCheckpointView {
            shard: self.data_individual_shard_id@,
            target: self.target@,
            segment_id: self.segment_id@,
            last_acknowledged_offset: self.last_acknowledged_offset@,
            mapping_version: self.mapping_version@,
            epoch: self.epoch@,
        }
    }
}

impl Clone for MetadataOutboxCheckpoint {
    fn clone(&self) -> (r: Self)
        ensures
            r == *self,
    {
        MetadataOutboxCheckpoint {
            data_individual_shard_id: self.data_individual_shard_id,
            target: self.target.clone(),
            segment_id: self.segment_id.clone(),
            last_acknowledged_offset: self.last_acknowledged_offset,
            mapping_version: self.mapping_version.clone(),
            epoch: self.epoch,
        }
    }
}

impl Duplicate for MetadataOutboxCheckpoint {
    fn duplicate(&self) -> (r: Self) {
        self.clone()
    }
}

/// Recovery checkpoint of a node.
///
/// It records how far segments have been consumed, so that a recovering node can skip
/// what has been processed.
#[derive(Debug, PartialEq, Eq)]
pub struct CheckpointManifest {
    pub checkpoint_id: String,
    pub node_id: NodeId,
    pub epoch: CheckpointEpoch,
    pub segment_offsets: SortedMap<SegmentId, RecordOffset>,
    pub metadata_version: Option<String>,
    pub checksum: u64,
}

/// The view of a recovery checkpoint.
pub struct CheckpointManifestView {
    pub checkpoint_id: Seq<char>,
    pub node_id: Seq<char>,
    pub epoch: u64,
    pub segment_offsets: Map<Seq<char>, u64>,
    pub metadata_version: Option<Seq<char>>,
    pub checksum: u64,
}

impl View for CheckpointManifest {
    type V = CheckpointManifestView;

    open spec fn view(&self) -> CheckpointManifestView {
        CheckpointManifestView {
            checkpoint_id: self.checkpoint_id@,
            node_id: self.node_id@,
            epoch: self.epoch@,
            segment_offsets: self.segment_offsets@,
            metadata_version: opt_view(self.metadata_version),
            checksum: self.checksum,
        }
    }
}

impl CheckpointManifest {
    /// A checkpoint made of its parts.
    pub fn new(
        checkpoint_id: impl IntoText,
        node_id: NodeId,
        epoch: CheckpointEpoch,
        segment_offsets: SortedMap<SegmentId, RecordOffset>,
        metadata_version: Option<String>,
        checksum: u64,
    ) -> (r: Self)
        ensures
            r@ == (CheckpointManifestView {
                checkpoint_id: checkpoint_id.text(),
                node_id: node_id@,
                epoch: epoch@,
                segment_offsets: segment_offsets@,
                metadata_version: opt_view(metadata_version),
                checksum,
            }),
    {
        CheckpointManifest {
            checkpoint_id: checkpoint_id.into_text(),
            node_id,
            epoch,
            segment_offsets,
            metadata_version,
            checksum,
        }
    }

    /// How far a segment has been consumed.
    pub fn latest_offset_for(&self, segment_id: &SegmentId) -> (r: Option<RecordOffset>)
        ensures
            match r {
                Some(offset) => self@.segment_offsets.contains_key(segment_id@) && offset@
                    == self@.segment_offsets[segment_id@],
                None => !self@.segment_offsets.contains_key(segment_id@),
            },
    {
        match self.segment_offsets.get(segment_id) {
            Some(offset) => Some(*offset),
            None => None,
        }
    }
}

impl Clone for CheckpointManifest {
    fn clone(&self) -> (r: Self)
        ensures
            r@ == self@,
    {
        CheckpointManifest {
            checkpoint_id: self.checkpoint_id.clone(),
            node_id: self.node_id.clone(),
            epoch: self.epoch,
            segment_offsets: self.segment_offsets.clone(),
            metadata_version: self.metadata_version.clone(),
            checksum: self.checksum,
        }
    }
}

impl Duplicate for CheckpointManifest {
    fn duplicate(&self) -> (r: Self) {
        self.clone()
    }
}

} // verus!
