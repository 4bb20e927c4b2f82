//! Placement and the control state of the cluster.

use std::collections::BTreeMap;
use vannak::checkpoint::{CheckpointEpoch, LeaseEpoch, MetadataOutboxCheckpoint, WriterLease};
use vannak::cluster::{ClusterControlCommand, ClusterControlState, NodeId, MAX_PLACEMENT_HISTORY};
use vannak::control_error::ClusterControlError;
use vannak::data::DataIndividualShardId;
use vannak::ipto::IptoInstanceId;
use vannak::placement::{
    IptoPlacementMap, IptoPlacementRange, IptoPlacementRing, IptoPlacementSlot, PlacementEpoch,
};
use vannak::storage::{RecordOffset, SegmentId, SegmentManifest};

fn slot(instance: &str, vnodes: u32) -> IptoPlacementSlot {
    IptoPlacementSlot::new(IptoInstanceId::from(instance), vnodes).unwrap()
}

fn test_shard(seed: u64) -> DataIndividualShardId {
    let mut state = 0xcbf2_9ce4_8422_2325u64;
    for byte in &seed.to_le_bytes() {
        state ^= u64::from(*byte);
        state = state.wrapping_mul(0x0000_0100_0000_01b3);
    }
    DataIndividualShardId(state)
}

// -- ring tests --

#[test]
fn ring_assigns_every_shard_to_an_instance() {
    let ring = IptoPlacementRing::new(
        PlacementEpoch(1),
        &vec![slot("ipto-a", 64), slot("ipto-b", 64)],
    );
    assert!(!ring.is_empty());

    let mut hits: BTreeMap<String, u64> = BTreeMap::new();
    for i in 0..10_000u64 {
        let target = ring.resolve(test_shard(i)).unwrap();
        *hits.entry(target.as_str().to_string()).or_default() += 1;
    }

    let a_share = *hits.get("ipto-a").unwrap_or(&0);
    let b_share = *hits.get("ipto-b").unwrap_or(&0);

    assert!((4000..=6000).contains(&a_share), "a got {a_share}");
    assert!((4000..=6000).contains(&b_share), "b got {b_share}");
}

#[test]
fn ring_is_deterministic() {
    let a = IptoPlacementRing::new(
        PlacementEpoch(1),
        &vec![slot("ipto-a", 32)],
    );
    let b = IptoPlacementRing::new(
        PlacementEpoch(1),
        &vec![slot("ipto-a", 32)],
    );

    for i in 0..1000u64 {
        let shard = test_shard(i);
        assert_eq!(a.resolve(shard), b.resolve(shard));
    }
}

#[test]
fn ring_changes_predictably_on_reconfiguration() {
    let ring1 = IptoPlacementRing::new(
        PlacementEpoch(1),
        &vec![slot("ipto-a", 256),
            slot("ipto-b", 256),
            slot("ipto-c", 256)],
    );
    let ring2 = IptoPlacementRing::new(
        PlacementEpoch(2),
        &vec![slot("ipto-a", 256),
            slot("ipto-b", 256),
            slot("ipto-c", 256),
            slot("ipto-d", 256)],
    );

    let mut moved = 0u64;
    let total = 50_000u64;
    for i in 0..total {
        let shard = test_shard(i);
        let from = ring1.resolve(shard).unwrap();
        let to = ring2.resolve(shard).unwrap();
        if from != to {
            moved += 1;
        }
    }
    let fraction = moved as f64 / total as f64;

    assert!(
        (0.15..=0.40).contains(&fraction),
        "expected ~25% moved, got {:.1}%",
        fraction * 100.0
    );
}

#[test]
fn ring_empty_resolves_to_none() {
    let ring = IptoPlacementRing::new(PlacementEpoch(1), &vec![]);
    assert!(ring.is_empty());
    assert_eq!(ring.resolve(DataIndividualShardId(0)), None);
}

#[test]
fn ring_single_instance_resolves_everything() {
    let ring = IptoPlacementRing::new(PlacementEpoch(1), &vec![slot("ipto-a", 1)]);
    for i in 0..1000u64 {
        let shard = test_shard(i);
        assert_eq!(
            ring.resolve(shard),
            Some(&IptoInstanceId::from("ipto-a"))
        );
    }
}

// -- placement map tests --

#[test]
fn placement_map_resolves_via_ring_by_default() {
    let map = IptoPlacementMap::new(
        PlacementEpoch(1),
        vec![slot("ipto-a", 64), slot("ipto-b", 64)],
        vec![],
    )
    .unwrap();

    for i in 0..100u64 {
        let shard = test_shard(i);
        let target = map.resolve(shard);
        assert!(target.is_some());
        let name = target.unwrap().as_str();
        assert!(name == "ipto-a" || name == "ipto-b");
    }
}

#[test]
fn placement_map_overrides_take_priority() {
    let map = IptoPlacementMap::new(
        PlacementEpoch(1),
        vec![slot("ipto-a", 64), slot("ipto-b", 64)],
        vec![
            IptoPlacementRange::new(
                DataIndividualShardId(100),
                DataIndividualShardId(199),
                IptoInstanceId::from("ipto-compliance"),
            )
            .unwrap(),
        ],
    )
    .unwrap();

    // Inside override range → compliance.
    assert_eq!(
        map.resolve(DataIndividualShardId(150)),
        Some(&IptoInstanceId::from("ipto-compliance"))
    );

    // Outside override range → ring (must be one of the ring instances).
    let resolved = map.resolve(DataIndividualShardId(50)).unwrap();
    assert!(resolved.as_str() == "ipto-a" || resolved.as_str() == "ipto-b");
}

#[test]
fn placement_map_rejects_empty_slots() {
    let error = IptoPlacementMap::new(PlacementEpoch(1), vec![], vec![]).unwrap_err();
    assert!(matches!(error, ClusterControlError::NoPlacementSlots));
}

#[test]
fn placement_map_rejects_overlapping_overrides() {
    let error = IptoPlacementMap::new(
        PlacementEpoch(1),
        vec![slot("ipto-a", 1)],
        vec![
            IptoPlacementRange::new(
                DataIndividualShardId(0),
                DataIndividualShardId(10),
                IptoInstanceId::from("ipto-a"),
            )
            .unwrap(),
            IptoPlacementRange::new(
                DataIndividualShardId(10),
                DataIndividualShardId(20),
                IptoInstanceId::from("ipto-b"),
            )
            .unwrap(),
        ],
    )
    .unwrap_err();

    assert!(matches!(
        error,
        ClusterControlError::OverlappingPlacementRanges { .. }
    ));
}

// -- cluster control state tests --

#[test]
fn control_state_applies_placement_lease_checkpoint_and_segment_manifest() {
    let mut state = ClusterControlState::new();
    state
        .apply(ClusterControlCommand::AddNode(NodeId::from("node-a")))
        .unwrap();

    let map = IptoPlacementMap::new(
        PlacementEpoch(1),
        vec![slot("ipto-a", 64), slot("ipto-b", 64)],
        vec![],
    )
    .unwrap();
    state
        .apply(ClusterControlCommand::SetIptoPlacementMap(map))
        .unwrap();

    assert!(state
        .resolve_ipto_target(DataIndividualShardId(42))
        .is_some());

    state
        .apply(ClusterControlCommand::GrantWriterLease(WriterLease {
            target: IptoInstanceId::from("ipto-a"),
            holder: NodeId::from("node-a"),
            epoch: LeaseEpoch(1),
        }))
        .unwrap();
    assert_eq!(
        state
            .writer_lease(&IptoInstanceId::from("ipto-a"))
            .unwrap()
            .holder,
        NodeId::from("node-a")
    );

    state
        .apply(ClusterControlCommand::RecordOutboxCheckpoint(
            MetadataOutboxCheckpoint {
                data_individual_shard_id: DataIndividualShardId(42),
                target: IptoInstanceId::from("ipto-a"),
                segment_id: SegmentId::from("segment-a"),
                last_acknowledged_offset: RecordOffset(128),
                mapping_version: String::from("mapping-v1"),
                epoch: CheckpointEpoch(1),
            },
        ))
        .unwrap();
    assert_eq!(
        state
            .outbox_checkpoint(DataIndividualShardId(42), &IptoInstanceId::from("ipto-a"))
            .unwrap()
            .last_acknowledged_offset,
        RecordOffset(128)
    );

    state
        .apply(ClusterControlCommand::RecordSealedSegment(
            SegmentManifest {
                segment_id: SegmentId::from("segment-a"),
                node_id: NodeId::from("node-a"),
                path: String::from("segment-a.seg"),
                record_count: 3,
                byte_len: 128,
                checksum: 42,
            },
        ))
        .unwrap();
    assert!(
        state
            .sealed_segment(&SegmentId::from("segment-a"))
            .is_some()
    );
}

#[test]
fn control_state_rejects_stale_lease_epoch() {
    let mut state = ClusterControlState::new();
    state
        .apply(ClusterControlCommand::AddNode(NodeId::from("node-a")))
        .unwrap();
    state
        .apply(ClusterControlCommand::GrantWriterLease(WriterLease {
            target: IptoInstanceId::from("ipto-a"),
            holder: NodeId::from("node-a"),
            epoch: LeaseEpoch(2),
        }))
        .unwrap();

    let error = state
        .apply(ClusterControlCommand::GrantWriterLease(WriterLease {
            target: IptoInstanceId::from("ipto-a"),
            holder: NodeId::from("node-a"),
            epoch: LeaseEpoch(1),
        }))
        .unwrap_err();

    assert!(matches!(error, ClusterControlError::StaleLeaseEpoch { .. }));
}

#[test]
fn control_state_keeps_placement_history_and_prunes_old_epochs() {
    let mut state = ClusterControlState::new();
    state
        .apply(ClusterControlCommand::AddNode(NodeId::from("node-a")))
        .unwrap();

    for epoch in 1..=7u64 {
        let map = IptoPlacementMap::new(
            PlacementEpoch(epoch),
            vec![slot("ipto-a", 1)],
            vec![],
        )
        .unwrap();
        state
            .apply(ClusterControlCommand::SetIptoPlacementMap(map))
            .unwrap();
    }

    assert_eq!(state.placement_map_history().len(), MAX_PLACEMENT_HISTORY);
    assert_eq!(state.placement_map().unwrap().epoch, PlacementEpoch(7));

    let oldest = *state.placement_map_history().key_at(0);
    assert_eq!(oldest, PlacementEpoch(3));
}

#[test]
fn resolve_with_fallback_returns_candidates_in_epoch_order() {
    let mut state = ClusterControlState::new();

    let map1 = IptoPlacementMap::new(
        PlacementEpoch(1),
        vec![slot("ipto-a", 1)],
        vec![],
    )
    .unwrap();
    let map2 = IptoPlacementMap::new(
        PlacementEpoch(2),
        vec![slot("ipto-b", 1)],
        vec![],
    )
    .unwrap();

    state
        .apply(ClusterControlCommand::SetIptoPlacementMap(map1))
        .unwrap();
    state
        .apply(ClusterControlCommand::SetIptoPlacementMap(map2))
        .unwrap();

    // With single-instance rings, every shard maps to the sole instance.
    let candidates = state.resolve_with_fallback(DataIndividualShardId(42));

    // Epoch 2 (ipto-b) first, then epoch 1 (ipto-a).
    assert_eq!(candidates.len(), 2);
    assert_eq!(candidates[0], IptoInstanceId::from("ipto-b"));
    assert_eq!(candidates[1], IptoInstanceId::from("ipto-a"));
}

#[test]
fn all_instances_include_the_targets_of_overrides() {
    let mut control = ClusterControlState::new();
    let overrides = |target: &str| {
        vec![IptoPlacementRange::new(
            DataIndividualShardId(10),
            DataIndividualShardId(19),
            IptoInstanceId::from(target),
        )
        .unwrap()]
    };
    let first = IptoPlacementMap::new(PlacementEpoch(1), vec![slot("ipto-a", 4)], overrides("ipto-b")).unwrap();
    let second =
        IptoPlacementMap::new(PlacementEpoch(2), vec![slot("ipto-a", 4), slot("ipto-c", 4)], overrides("ipto-a"))
            .unwrap();
    control.apply(ClusterControlCommand::SetIptoPlacementMap(first)).unwrap();
    control.apply(ClusterControlCommand::SetIptoPlacementMap(second)).unwrap();
    let names: Vec<String> =
        control.all_ipto_instances().iter().map(|instance| instance.as_str().to_string()).collect();
    assert_eq!(names, vec!["ipto-a", "ipto-b", "ipto-c"]);
}

#[test]
fn a_slot_put_first_draws_shards_to_itself_only() {
    let before = IptoPlacementMap::new(PlacementEpoch(1), vec![slot("ipto-a", 32), slot("ipto-b", 32)], vec![]).unwrap();
    let after = IptoPlacementMap::new(
        PlacementEpoch(2),
        vec![slot("ipto-c", 32), slot("ipto-a", 32), slot("ipto-b", 32)],
        vec![],
    )
    .unwrap();
    for seed in 0..500 {
        let shard = test_shard(seed);
        let owner = after.resolve(shard).unwrap();
        assert!(owner.as_str() == "ipto-c" || Some(owner) == before.resolve(shard));
    }
}
