//! The control state behind a replicated log.

use vannak::checkpoint::{CheckpointEpoch, CheckpointManifest, LeaseEpoch, WriterLease};
use vannak::cluster::{ClusterControlCommand, ClusterControlState, NodeId};
use vannak::data::DataIndividualShardId;
use vannak::ipto::IptoInstanceId;
use vannak::ordered::SortedMap;
use vannak::placement::{IptoPlacementMap, IptoPlacementRange, IptoPlacementSlot, PlacementEpoch};
use vannak::raft_sm::{
    decode_command, decode_snapshot, encode_command, encode_snapshot, ClusterQuery, ClusterStateMachine,
    CommandRecord, PlacementMapRecord, PlacementSlotRecord,
};
use vannak::storage::{RecordOffset, SegmentId, SegmentManifest};

fn slot(instance: &str, vnodes: u32) -> IptoPlacementSlot {
    IptoPlacementSlot::new(IptoInstanceId::from(instance), vnodes).unwrap()
}

fn build_test_state() -> ClusterControlState {
    let mut state = ClusterControlState::new();
    state
        .apply(ClusterControlCommand::AddNode(NodeId::from("node-a")))
        .unwrap();
    state
        .apply(ClusterControlCommand::AddNode(NodeId::from("node-b")))
        .unwrap();
    state
        .apply(ClusterControlCommand::SetIptoPlacementMap(
            IptoPlacementMap::new(
                PlacementEpoch(1),
                vec![slot("ipto-a", 64), slot("ipto-b", 64)],
                vec![],
            )
            .unwrap(),
        ))
        .unwrap();
    state
        .apply(ClusterControlCommand::GrantWriterLease(WriterLease {
            target: IptoInstanceId::from("ipto-a"),
            holder: NodeId::from("node-a"),
            epoch: LeaseEpoch(1),
        }))
        .unwrap();
    state
        .apply(ClusterControlCommand::RecordSealedSegment(
            SegmentManifest {
                segment_id: SegmentId::from("seg-1"),
                node_id: NodeId::from("node-a"),
                path: String::from("seg-1.seg"),
                record_count: 42,
                byte_len: 1024,
                checksum: 12345,
            },
        ))
        .unwrap();
    state
}

#[test]
fn command_round_trips_through_json() {
    let cmd = ClusterControlCommand::AddNode(NodeId::from("node-a"));
    let encoded = encode_command(&cmd);
    let decoded = decode_command(&encoded).unwrap();
    assert_eq!(decoded, cmd);
}

#[test]
fn placement_map_command_round_trips() {
    let map = IptoPlacementMap::new(
        PlacementEpoch(2),
        vec![slot("ipto-x", 128)],
        vec![IptoPlacementRange::new(
            DataIndividualShardId(10),
            DataIndividualShardId(20),
            IptoInstanceId::from("ipto-override"),
        )
        .unwrap()],
    )
    .unwrap();
    let cmd = ClusterControlCommand::SetIptoPlacementMap(map);
    let encoded = encode_command(&cmd);
    let decoded = decode_command(&encoded).unwrap();

    match (&cmd, &decoded) {
        (
            ClusterControlCommand::SetIptoPlacementMap(orig),
            ClusterControlCommand::SetIptoPlacementMap(round),
        ) => {
            assert_eq!(orig.epoch(), round.epoch());
            assert_eq!(orig.slots().len(), round.slots().len());
            assert_eq!(orig.overrides(), round.overrides());
        }
        _ => panic!("expected SetIptoPlacementMap"),
    }
}

#[test]
fn snapshot_round_trips() {
    let state = build_test_state();
    let encoded = encode_snapshot(&state);
    let decoded = decode_snapshot(&encoded).unwrap();

    assert_eq!(state.nodes().len(), decoded.nodes().len());
    assert_eq!(
        state.placement_map_history().len(),
        decoded.placement_map_history().len()
    );
    assert!(decoded.resolve_ipto_target(DataIndividualShardId(42)).is_some());
}

#[test]
fn state_machine_apply_and_snapshot() {
    let mut sm = ClusterStateMachine::new();

    let cmd = ClusterControlCommand::AddNode(NodeId::from("node-a"));
    let encoded = encode_command(&cmd);
    sm.apply(1, Ok(encoded));

    let snapshot = sm.snapshot();
    let mut sm2 = ClusterStateMachine::new();
    sm2.restore(Ok(snapshot));

    assert_eq!(sm.state().nodes().len(), sm2.state().nodes().len());
}

#[test]
fn state_machine_query() {
    let mut sm = ClusterStateMachine::new();
    let state = build_test_state();
    sm.restore(Ok(encode_snapshot(&state)));

    let query = ClusterQuery::ResolveWithFallback { shard_id: 42 };
    let result: Vec<String> = serde_json::from_slice(&sm.query(Ok(query))).unwrap();
    assert!(!result.is_empty());
}

#[test]
fn checkpoint_manifest_round_trips() {
    let mut offsets = SortedMap::new();
    offsets.insert(SegmentId::from("seg-1"), RecordOffset(1024));
    offsets.insert(SegmentId::from("seg-2"), RecordOffset(2048));

    let cp = CheckpointManifest::new(
        "cp-001",
        NodeId::from("node-a"),
        CheckpointEpoch(1),
        offsets,
        Some(String::from("mapping-v2")),
        12345,
    );

    let cmd = ClusterControlCommand::RecordCheckpoint(cp);
    let encoded = encode_command(&cmd);
    let decoded = decode_command(&encoded).unwrap();

    match decoded {
        ClusterControlCommand::RecordCheckpoint(round) => {
            assert_eq!(round.checkpoint_id, "cp-001");
            assert_eq!(round.node_id, NodeId::from("node-a"));
            assert_eq!(round.epoch, CheckpointEpoch(1));
            assert_eq!(round.segment_offsets.len(), 2);
            assert_eq!(
                round.segment_offsets.get(&SegmentId::from("seg-1")),
                Some(&RecordOffset(1024))
            );
            assert_eq!(round.metadata_version, Some(String::from("mapping-v2")));
            assert_eq!(round.checksum, 12345);
        }
        _ => panic!("expected RecordCheckpoint"),
    }
}

#[test]
fn every_answer_is_json() {
    let mut sm = ClusterStateMachine::new();
    assert_eq!(sm.query(Ok(ClusterQuery::CurrentPlacementEpoch)), b"null");
    assert_eq!(sm.query(Ok(ClusterQuery::ResolveTarget { shard_id: 1 })), b"null");
    assert_eq!(sm.query(Ok(ClusterQuery::ListIptoInstances)), b"[]");
    sm.restore(Ok(encode_snapshot(&build_test_state())));
    assert_eq!(sm.query(Ok(ClusterQuery::CurrentPlacementEpoch)), b"1");
    assert_eq!(
        sm.query(Ok(ClusterQuery::GetWriterLease { target: String::from("ipto-a") })),
        b"\"node-a\""
    );
    assert_eq!(sm.query(Ok(ClusterQuery::GetWriterLease { target: String::from("ipto-z") })), b"null");
    assert_eq!(
        sm.query(Ok(ClusterQuery::GetOutboxCheckpoint { shard_id: 1, target: String::from("ipto-a") })),
        b"null"
    );
    assert_eq!(
        sm.query(Ok(ClusterQuery::GetSealedSegment { segment_id: String::from("seg-1") })),
        b"12345"
    );
    assert_eq!(sm.query(Err(String::from("expected \"value\"\n"))), b"\"expected \\\"value\\\"\\n\"");
}

#[test]
fn refused_commands_change_nothing_and_are_answered() {
    let mut sm = ClusterStateMachine::new();
    let add = encode_command(&ClusterControlCommand::AddNode(NodeId::from("node-a")));
    assert!(sm.apply_with_result(1, Ok(add)).is_empty());
    assert_eq!(sm.state().nodes().len(), 1);
    let before = sm.snapshot();

    assert_eq!(sm.apply_with_result(1, Err(String::from("bad \u{1}"))), b"\"bad \\u0001\"");
    let lease = encode_command(&ClusterControlCommand::GrantWriterLease(WriterLease {
        target: IptoInstanceId::from("ipto-a"),
        holder: NodeId::from("node-z"),
        epoch: LeaseEpoch(1),
    }));
    let answer: String = serde_json::from_slice(&sm.apply_with_result(1, Ok(lease))).unwrap();
    assert!(answer.contains("node-z"));
    let map = CommandRecord::SetIptoPlacementMap(PlacementMapRecord {
        epoch: 1,
        slots: vec![PlacementSlotRecord { instance: String::from("ipto-a"), vnodes: 0 }],
        overrides: vec![],
    });
    assert!(decode_command(&map).is_err());
    sm.apply(1, Ok(map));
    sm.restore(Err(String::from("not a snapshot")));
    assert_eq!(sm.snapshot(), before);
}

#[test]
fn snapshot_of_a_restored_state_is_the_same() {
    let record = encode_snapshot(&build_test_state());
    let again = encode_snapshot(&decode_snapshot(&record).unwrap());
    assert_eq!(record, again);
}
