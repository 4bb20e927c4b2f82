//! The daemon: discovery, background writer, HTTP, queries to all nodes and rebalancing.

use vannak::background_writer::{drain_targets, BackgroundWriterConfig, BackgroundWriterSnapshot};
use vannak::checkpoint::{LeaseEpoch, WriterLease};
use vannak::cli::SupervisorConfig;
use vannak::cluster::{ClusterControlCommand, ClusterControlState, NodeId};
use vannak::daemon::{
    daemon_mapping, daemon_settings, default_placement, initial_control, outbox_identity, Daemon, DaemonConfig,
};
use vannak::data::{
    DataIndividualId, DataIndividualMetadataEvent, DataIndividualShardId, MetadataEventId, MetadataOperation,
    MetadataValue, PassiveMetadata,
};
use vannak::discovery::{discover_segments, validate_and_manifest_segment, FoundFile, SegmentDiscoveryResult};
use vannak::fanout::{
    fanout_pipeline_query, fanout_process_instance_query, fanout_process_status_query, pipeline_request,
    process_instance_request, process_status_request, ClusterQueryConfig, PeerReply,
};
use vannak::http::{
    build_health_json, handle_ingest_request, handle_query_request, not_found, query_request, response, route,
    take_header, unavailable, Route,
};
use vannak::ingest::{EventId, EventTimestamp, PipelineEvent, SourceId, SourceSequence};
use vannak::ipto::{
    IptoInstanceId, IptoMapping, IptoWriteError, IptoWritePayload, IptoWriter, MetadataOutboxStorageError,
};
use vannak::placement::{IptoPlacementMap, IptoPlacementRange, IptoPlacementSlot, PlacementEpoch};
use vannak::process::{
    EnvironmentId, EventKind, PipelineId, ProcessDefinitionId, ProcessInstanceId, ProcessStatus, TenantId,
};
use vannak::query::{PipelineQuery, ProcessInstanceQuery, ProcessStatusQuery, QueryLimit, QueryResult};
use vannak::query_json::{
    can_be_read, extract_json_string_field, extract_json_u64_field, parse_query_result_json, serialize_query_result,
};
use vannak::rebalance::{
    detect_placement_change, rebalance_after_placement_change, RebalanceMonitor, RebalanceMonitorConfig,
};
use vannak::service::VannakService;
use vannak::storage::{SegmentError, SegmentId, SegmentWriter};

fn segment(id: &str, path: &str, record: &[u8]) -> FoundFile {
    let mut bytes = SegmentWriter::header();
    let writer = SegmentWriter::create(path, SegmentId::from(id), NodeId::from("node-a"));
    bytes.extend(writer.frame_record(record).unwrap());
    file(path, bytes)
}

fn file(path: &str, bytes: Vec<u8>) -> FoundFile {
    FoundFile { path: String::from(path), is_file: true, contents: Ok(bytes) }
}

fn service() -> VannakService {
    VannakService::create(
        IptoPlacementMap::new(
            PlacementEpoch(1),
            vec![IptoPlacementSlot::new(IptoInstanceId::from("ipto-a"), 1).unwrap()],
            vec![],
        )
        .unwrap(),
        IptoMapping::new("v1").map_field("vannak:dataIndividualId", "vannak:dataIndividualId"),
        "daemon.seg",
        SegmentId::from("daemon-seg"),
        NodeId::from("node-a"),
    )
}

fn metadata_event(event_id: &str, data_id: &str) -> DataIndividualMetadataEvent {
    DataIndividualMetadataEvent::new(
        MetadataEventId::from(event_id),
        DataIndividualId::from(data_id),
        DataIndividualShardId::from_data_individual(&DataIndividualId::from(data_id)),
        TenantId::from("tenant-a"),
        EnvironmentId::from("prod"),
        PipelineId::from("pipeline-a"),
        ProcessInstanceId::from("instance-a"),
        EventTimestamp::from("2026-06-30T12:00:00Z"),
        MetadataOperation::Received,
    )
    .with_passive_metadata(
        PassiveMetadata::new().insert("vannak:dataIndividualId", MetadataValue::string("data-1")),
    )
}

fn leased(targets: &[&str]) -> ClusterControlState {
    let mut control = ClusterControlState::new();
    control.apply(ClusterControlCommand::AddNode(NodeId::from("node-a"))).unwrap();
    for target in targets {
        control
            .apply(ClusterControlCommand::GrantWriterLease(WriterLease {
                target: IptoInstanceId::from(*target),
                holder: NodeId::from("node-a"),
                epoch: LeaseEpoch(1),
            }))
            .unwrap();
    }
    control
}

#[derive(Default)]
struct RecordingWriter {
    written: usize,
    failing: bool,
}

impl IptoWriter for RecordingWriter {
    fn write(&mut self, _payload: &IptoWritePayload) -> Result<(), IptoWriteError> {
        if self.failing {
            return Err(IptoWriteError::permanent("refused"));
        }
        self.written += 1;
        Ok(())
    }
}

// -- segment discovery --

#[test]
fn discovers_valid_segments_in_directory() {
    let result = discover_segments(vec![
        segment("outbox", "outbox.seg", b"first"),
        segment("process", "process.seg", b"process-event"),
        file("corrupt.seg", b"not a vannak segment".to_vec()),
        file("notes.txt", b"not a segment file".to_vec()),
    ]);
    assert_eq!(result.segments.len(), 2);
    assert_eq!(result.invalid.len(), 1);
    assert!(result.io_errors.is_empty());
}

#[test]
fn discovers_nothing_in_nonexistent_directory() {
    let result = discover_segments(vec![]);
    assert!(result.segments.is_empty());
}

#[test]
fn discovered_segments_come_in_the_order_of_their_paths() {
    let mut result = SegmentDiscoveryResult::default();
    assert!(result.is_empty());
    result.add_file(segment("b", "dir/b.seg", b"b"));
    result.add_file(FoundFile { path: String::from("dir/c.seg"), is_file: false, contents: Err(String::new()) });
    result.add_file(FoundFile {
        path: String::from("dir/d.seg"),
        is_file: true,
        contents: Err(String::from("permission denied")),
    });
    result.add_file(segment("a", "dir/a.seg", b"a"));
    assert_eq!(result.segments.len(), 2);
    assert_eq!(result.segments[0].path, "dir/a.seg");
    assert_eq!(result.segments[1].path, "dir/b.seg");
    assert!(!result.is_empty());
    assert!(result.invalid.is_empty());
    assert_eq!(result.io_errors, vec![(String::from("dir/d.seg"), String::from("permission denied"))]);
}

#[test]
fn manifest_of_a_file_is_that_of_its_writer() {
    let mut writer = SegmentWriter::create("dir/a.seg", SegmentId::from("a"), NodeId::from("discovered"));
    let mut bytes = SegmentWriter::header();
    bytes.extend(writer.frame_record(b"one").unwrap());
    writer.append_record(b"one").unwrap();
    let found = validate_and_manifest_segment("dir/a.seg", bytes.clone()).unwrap();
    let known = writer.seal();
    assert_eq!(found.record_count, known.record_count);
    assert_eq!(found.byte_len, known.byte_len);
    assert_eq!(found.checksum, known.checksum);
    bytes.pop();
    assert!(validate_and_manifest_segment("dir/a.seg", bytes).is_err());
    assert!(matches!(
        validate_and_manifest_segment("dir/a.seg", b"not a vannak segment".to_vec()),
        Err(SegmentError::InvalidMagic)
    ));
}

// -- background writer --

#[test]
fn background_writer_snapshot_defaults_are_sensible() {
    let snap = BackgroundWriterSnapshot::default();
    assert_eq!(snap.cycles, 0);
    assert_eq!(snap.total_acknowledged, 0);
    assert_eq!(snap.total_failed, 0);
    assert!(snap.current_cycle.is_none());
    assert!(snap.last_summary.is_none());
}

#[test]
fn background_writer_drains_outbox_with_writer() {
    let target = IptoInstanceId::from("ipto-a");
    let mut svc = service();

    let event = metadata_event("meta-1", "data-1");

    svc.capture_metadata_event(&event).unwrap();
    assert_eq!(svc.snapshot().metadata_outbox.outbox.pending, 1);

    let control = leased(&["ipto-a"]);

    let mut recording = RecordingWriter::default();
    let summary = svc
        .drain_metadata_for_target_if_lease_held(&control, &NodeId::from("node-a"), &target, &mut recording, 10)
        .unwrap();

    assert_eq!(summary.acknowledged, 1);
    assert_eq!(recording.written, 1);
}

#[test]
fn background_writer_notes_what_its_cycles_did() {
    let target = IptoInstanceId::from("ipto-a");
    let node = NodeId::from("node-a");
    let mut svc = service();
    svc.capture_metadata_event(&metadata_event("meta-1", "data-1")).unwrap();
    let mut snap = BackgroundWriterSnapshot::default();
    let mut writer = RecordingWriter::default();

    // Without the lease nothing is drained.
    snap.begin_cycle();
    let mut cycle = Vec::new();
    snap.drain_target(&mut cycle, &mut svc, &leased(&[]), &node, &target, &mut writer, 10);
    snap.end_cycle(cycle);
    assert_eq!((snap.cycles, snap.total_acknowledged), (1, 0));
    assert!(snap.last_summary.is_none());

    snap.begin_cycle();
    let mut cycle = Vec::new();
    snap.drain_target(&mut cycle, &mut svc, &leased(&["ipto-a"]), &node, &target, &mut writer, 10);
    snap.end_cycle(cycle);
    assert_eq!((snap.cycles, snap.total_acknowledged), (2, 1));
    assert_eq!(snap.last_summary.as_ref().unwrap().len(), 1);

    // An empty cycle leaves the last summary as it was.
    snap.begin_cycle();
    snap.end_cycle(Vec::new());
    assert_eq!(snap.last_summary.as_ref().unwrap()[0].0, target);
    snap.stop();
    assert_eq!(snap.current_cycle, Some(3));

    let mut failing = RecordingWriter { written: 0, failing: true };
    svc.capture_metadata_event(&metadata_event("meta-2", "data-2")).unwrap();
    let mut cycle = Vec::new();
    snap.drain_target(&mut cycle, &mut svc, &leased(&["ipto-a"]), &node, &target, &mut failing, 10);
    assert_eq!(snap.total_failed, 1);
}

#[test]
fn drain_targets_are_those_of_the_latest_placement() {
    assert!(drain_targets(&ClusterControlState::new()).is_empty());
    let control = initial_control(NodeId::from("node-a")).unwrap();
    assert_eq!(drain_targets(&control), vec![IptoInstanceId::from("ipto-default")]);

    // A target that only an override names is one of them, and none is named twice.
    let mut control = ClusterControlState::new();
    let overrides = vec![(1, 2, "ipto-b"), (3, 4, "ipto-a"), (5, 6, "ipto-b")];
    control.apply(ClusterControlCommand::SetIptoPlacementMap(map(1, &[("ipto-a", 4)], overrides))).unwrap();
    assert_eq!(drain_targets(&control), vec![IptoInstanceId::from("ipto-a"), IptoInstanceId::from("ipto-b")]);
}

// -- health JSON --

#[test]
fn health_json_contains_required_fields() {
    let snapshot = service().snapshot();
    let json = build_health_json(Some(&snapshot), None, 0);
    assert!(json.contains("\"uptime_secs\""));
    assert!(json.contains("\"hot_index\""));
    assert!(json.contains("\"event_count\""));
    assert!(json.contains("\"outbox\""));
    assert!(json.contains("\"provenance\""));
    assert!(json.contains("\"placement_epoch\""));
}

#[test]
fn health_json_is_json() {
    let snapshot = service().snapshot();
    let mut writer = BackgroundWriterSnapshot::default();
    writer.begin_cycle();
    for (service, writer) in [(Some(&snapshot), None), (Some(&snapshot), Some(&writer)), (None, Some(&writer))] {
        let json = build_health_json(service, writer, 17);
        let value: serde_json::Value = serde_json::from_str(&json).unwrap();
        assert_eq!(value.get("uptime_secs").and_then(|v| v.as_u64()), Some(17));
    }
}

// -- daemon lifecycle --

#[test]
fn daemon_starts_and_stops_cleanly() {
    let mut daemon = Daemon::new(service(), DaemonConfig::default(), BackgroundWriterConfig::default());
    assert!(!daemon.is_stopping());

    let snap = daemon.snapshot(&None, 0);
    assert_eq!(snap.uptime_secs, 0);
    assert!(snap.service.hot_index.event_count == 0);

    daemon.stop();
    assert!(daemon.is_stopping());
}

#[test]
fn daemon_settings_follow_the_arguments() {
    let mut config = SupervisorConfig::default();
    let (http, writer) = daemon_settings(&config);
    assert_eq!(http.bind_address, "127.0.0.1:9090");
    assert_eq!(http.read_timeout_millis, 10_000);
    assert_eq!(writer.interval_millis, 5_000);
    assert_eq!(outbox_identity(&config), (SegmentId::from("default-outbox"), NodeId::from("vannak")));
    config.health_bind_address = Some(String::from("0.0.0.0:80"));
    config.writer_interval_secs = 2;
    config.outbox_segment_id = Some(SegmentId::from("s"));
    config.outbox_node_id = Some(NodeId::from("n"));
    let (http, writer) = daemon_settings(&config);
    assert_eq!(http.bind_address, "0.0.0.0:80");
    assert_eq!(writer.interval_millis, 2_000);
    assert_eq!(outbox_identity(&config), (SegmentId::from("s"), NodeId::from("n")));
}

#[test]
fn default_placement_sends_everything_to_one_instance() {
    let map = default_placement().unwrap();
    assert_eq!(map.epoch(), PlacementEpoch(1));
    assert_eq!(map.resolve(DataIndividualShardId(7)), Some(&IptoInstanceId::from("ipto-default")));
    let payload = IptoWritePayload::from_event(
        &metadata_event("m", "d"),
        &IptoInstanceId::from("ipto-default"),
        &daemon_mapping(),
    );
    assert_eq!(payload.mapping_version, "v1");
}

// -- HTTP --

#[test]
fn requests_are_routed_by_their_first_line() {
    assert_eq!(route("POST /ingest HTTP/1.1"), Route::Ingest);
    assert_eq!(route("POST /query HTTP/1.1"), Route::Query);
    assert_eq!(route("GET /health HTTP/1.1"), Route::Health);
    assert_eq!(route("DELETE / HTTP/1.1"), Route::NotFound);
    assert_eq!(not_found().0, "404 Not Found");
    assert_eq!(unavailable().0, "503 Service Unavailable");
}

#[test]
fn headers_end_with_an_empty_line() {
    let mut length = None;
    assert!(take_header("Host: localhost\r\n", &mut length));
    assert_eq!(length, None);
    assert!(take_header("Content-Length: 42\r\n", &mut length));
    assert_eq!(length, Some(42));
    assert!(!take_header("\r\n", &mut length));
    assert!(!take_header("", &mut length));
    assert_eq!(length, Some(42));
}

#[test]
fn responses_and_requests_tell_the_length_of_their_body() {
    assert_eq!(
        response("200 OK", "{\"a\":\"\u{e5}\"}"),
        "HTTP/1.1 200 OK\r\nContent-Type: application/json\r\nContent-Length: 10\r\nConnection: close\r\n\r\n{\"a\":\"\u{e5}\"}"
    );
    assert_eq!(
        query_request("host:1", "{}"),
        "POST /query HTTP/1.1\r\nHost: host:1\r\nContent-Type: application/json\r\nContent-Length: 2\r\nConnection: close\r\n\r\n{}"
    );
}

const POSTED: &str = "{\"process_instance_id\":\"run-1\",\"pipeline_id\":\"pipe\",\"kind\":\"ProcessStarted\",\"event_id\":\"e1\",\"timestamp\":\"2026-06-30T10:00:00Z\"}";

#[test]
fn posted_twice_is_a_duplicate() {
    let mut svc = service();
    let mut number = 0;
    let first = handle_ingest_request(&mut svc, POSTED, &mut number);
    assert_eq!(first.0, "200 OK");
    let second = handle_ingest_request(&mut svc, POSTED, &mut number);
    assert_eq!(second.0, "200 OK");
    assert_ne!(first.1, second.1);
    assert_eq!(svc.snapshot().hot_index.event_count, 1);
    assert_eq!(number, 0);
    let third = handle_ingest_request(&mut svc, "{\"kind\":\"ProcessStarted\"}", &mut number);
    assert_eq!(third.0, "400 Bad Request");
    let unnamed = "{\"process_instance_id\":\"run-2\",\"pipeline_id\":\"pipe\",\"kind\":\"ActivityEntered\"}";
    handle_ingest_request(&mut svc, unnamed, &mut number);
    assert_eq!(number, 1);
}

#[test]
fn queries_are_answered_from_the_index() {
    let mut svc = service();
    let mut number = 0;
    handle_ingest_request(&mut svc, POSTED, &mut number);
    let told = "{\"type\":\"ProcessInstances\",\"instance\":[{\"process_instance_id\":\"run-1\",\"pipeline_id\":\"pipe\",\"status\":\"Active\"}]}";
    let instance = process_instance_request(&ProcessInstanceQuery {
        process_instance_id: ProcessInstanceId::from("run-1"),
    });
    assert_eq!(instance, "{\"type\":\"ProcessInstance\",\"process_instance_id\":\"run-1\"}");
    let (status, body) = handle_query_request(&svc, &instance);
    assert_eq!((status, body.as_str()), ("200 OK", told));
    let pipeline =
        pipeline_request(&PipelineQuery { pipeline_id: PipelineId::from("pipe"), limit: QueryLimit::new(5) });
    assert_eq!(pipeline, "{\"type\":\"Pipeline\",\"pipeline_id\":\"pipe\",\"limit\":5}");
    assert_eq!(handle_query_request(&svc, &pipeline).1, told);
    let status_query = ProcessStatusQuery { status: ProcessStatus::Failed, limit: QueryLimit::new(5) };
    let by_status = process_status_request(&status_query);
    assert_eq!(by_status, "{\"type\":\"ProcessStatus\",\"status\":\"Failed\",\"limit\":5}");
    assert_eq!(handle_query_request(&svc, &by_status).1, "{\"type\":\"ProcessInstances\",\"instance\":[]}");
    assert_eq!(handle_query_request(&svc, "{\"type\":\"Other\"}").0, "400 Bad Request");
}

// -- results as JSON --

#[test]
fn fields_are_found_by_their_names() {
    let json = "{\"a\":\"x\",\"n\":42,\"big\":99999999999999999999}";
    assert_eq!(extract_json_string_field(json, "a").as_deref(), Some("x"));
    assert_eq!(extract_json_string_field(json, "n"), None);
    assert_eq!(extract_json_u64_field(json, "n"), Some(42));
    assert_eq!(extract_json_u64_field(json, "big"), None);
    assert_eq!(extract_json_u64_field(json, "a"), None);
}

#[test]
fn results_are_read_back() {
    let mut svc = service();
    let mut number = 0;
    handle_ingest_request(&mut svc, POSTED, &mut number);
    handle_ingest_request(
        &mut svc,
        "{\"process_instance_id\":\"process_instance_id\",\"pipeline_id\":\"status\",\"kind\":\"ProcessCompleted\"}",
        &mut number,
    );
    let result = svc.process_instances_by_status(&ProcessStatusQuery {
        status: ProcessStatus::Completed,
        limit: QueryLimit::new(5),
    });
    let json = serialize_query_result(&result);
    assert!(can_be_read(&json));
    let Some(QueryResult::ProcessInstances(items)) = parse_query_result_json(&json) else {
        panic!("the result was not read");
    };
    assert_eq!(items.len(), 1);
    assert_eq!(items[0].process_instance_id, ProcessInstanceId::from("process_instance_id"));
    assert_eq!(items[0].pipeline_id, PipelineId::from("status"));
    assert_eq!(items[0].status, ProcessStatus::Completed);
}

#[test]
fn texts_that_are_no_results_are_told_apart() {
    assert!(parse_query_result_json("{\"error\":\"unknown query type\"}").is_none());
    assert!(parse_query_result_json("{\"type\":\"ProcessInstances\",\"error\":\"x\"}").is_none());
    assert_eq!(
        parse_query_result_json(" {\"type\":\"ProcessInstances\",\"instance\":[]}\n"),
        Some(QueryResult::ProcessInstances(vec![]))
    );
    assert!(!can_be_read("{\"type\":\"ProcessInstances\",\"process_instance_id\":\""));
}

#[test]
fn unknown_kinds_are_shown_quoted() {
    let event = PipelineEvent::new(
        EventId::from("e1"),
        SourceId::from("s"),
        SourceSequence(0),
        TenantId::from("t"),
        EnvironmentId::from("e"),
        PipelineId::from("p"),
        ProcessDefinitionId::from("d"),
        ProcessInstanceId::from("i"),
        EventTimestamp::from("2026-06-30T10:00:00Z"),
        EventKind::Unknown(String::from("A\t\"B\"")),
    );
    assert_eq!(
        serialize_query_result(&QueryResult::Events(vec![event])),
        "{\"type\":\"Events\",\"events\":[{\"event_id\":\"e1\",\"pipeline_id\":\"p\",\"process_instance_id\":\"i\",\"kind\":\"Unknown(\"A\\t\\\"B\\\"\")\"}]}"
    );
}

#[test]
fn metadata_operations_are_shown() {
    let event = metadata_event("m1", "d1");
    assert_eq!(
        serialize_query_result(&QueryResult::MetadataEvents(vec![event])),
        "{\"type\":\"MetadataEvents\",\"events\":[{\"metadata_event_id\":\"m1\",\"data_individual_id\":\"d1\",\"operation\":\"Received\"}]}"
    );
}

// -- queries to all nodes --

fn reply(peer: &str, reply: Result<Option<QueryResult>, String>) -> PeerReply {
    PeerReply { peer: String::from(peer), reply }
}

#[test]
fn answers_of_all_nodes_are_merged() {
    let defaults = ClusterQueryConfig::default();
    assert!(defaults.peers.is_empty());
    assert_eq!((defaults.connect_timeout_millis, defaults.read_timeout_millis), (3_000, 5_000));

    let mut svc = service();
    let mut number = 0;
    handle_ingest_request(&mut svc, POSTED, &mut number);
    let told = "{\"type\":\"ProcessInstances\",\"instance\":[{\"process_instance_id\":\"run-9\",\"pipeline_id\":\"pipe\",\"status\":\"Active\"}]}";
    let replies = vec![
        reply("a", Ok(parse_query_result_json(told))),
        reply("b", Err(String::from("refused"))),
        reply("c", Ok(None)),
    ];
    let query = PipelineQuery { pipeline_id: PipelineId::from("pipe"), limit: QueryLimit::new(5) };
    let result = fanout_pipeline_query(&svc, &query, &replies);
    assert_eq!(result.peer_count, 2);
    assert_eq!(result.failed_peers, vec![String::from("b")]);
    let QueryResult::ProcessInstances(items) = result.merged else {
        panic!("instances were asked for");
    };
    assert_eq!(items.len(), 2);
    assert_eq!(items[0].process_instance_id, ProcessInstanceId::from("run-1"));
    assert_eq!(items[1].process_instance_id, ProcessInstanceId::from("run-9"));

    // The limit holds for all nodes together.
    let one = PipelineQuery { pipeline_id: PipelineId::from("pipe"), limit: QueryLimit::new(1) };
    assert!(matches!(
        fanout_pipeline_query(&svc, &one, &replies).merged,
        QueryResult::ProcessInstances(items) if items.len() == 1
    ));
    let status = ProcessStatusQuery { status: ProcessStatus::Active, limit: QueryLimit::new(5) };
    assert!(matches!(
        fanout_process_status_query(&svc, &status, &replies).merged,
        QueryResult::ProcessInstances(items) if items.len() == 2
    ));
}

#[test]
fn an_instance_is_looked_for_at_home_first() {
    let mut svc = service();
    let mut number = 0;
    handle_ingest_request(&mut svc, POSTED, &mut number);
    let told = "{\"type\":\"ProcessInstances\",\"instance\":[{\"process_instance_id\":\"run-9\",\"pipeline_id\":\"far\",\"status\":\"Failed\"}]}";
    let replies = vec![reply("a", Ok(parse_query_result_json(told)))];
    let away = ProcessInstanceQuery { process_instance_id: ProcessInstanceId::from("run-9") };
    let QueryResult::ProcessInstances(items) = fanout_process_instance_query(&svc, &away, &replies).merged else {
        panic!("instances were asked for");
    };
    assert_eq!(items.len(), 1);
    assert_eq!(items[0].pipeline_id, PipelineId::from("far"));
    let home = ProcessInstanceQuery { process_instance_id: ProcessInstanceId::from("run-1") };
    let QueryResult::ProcessInstances(items) = fanout_process_instance_query(&svc, &home, &vec![]).merged else {
        panic!("instances were asked for");
    };
    assert_eq!(items[0].process_instance_id, ProcessInstanceId::from("run-1"));
}

// -- rebalancing --

fn map(epoch: u64, slots: &[(&str, u32)], overrides: Vec<(u64, u64, &str)>) -> IptoPlacementMap {
    IptoPlacementMap::new(
        PlacementEpoch(epoch),
        slots.iter().map(|(name, n)| IptoPlacementSlot::new(IptoInstanceId::from(*name), *n).unwrap()).collect(),
        overrides
            .into_iter()
            .map(|(start, end, target)| {
                IptoPlacementRange::new(
                    DataIndividualShardId(start),
                    DataIndividualShardId(end),
                    IptoInstanceId::from(target),
                )
                .unwrap()
            })
            .collect(),
    )
    .unwrap()
}

#[test]
fn moved_ranges_hold_exactly_the_moved_shards() {
    let from = map(1, &[("ipto-a", 1)], vec![]);
    let to = map(2, &[("ipto-a", 1)], vec![(100, 199, "ipto-b"), (u64::MAX - 5, u64::MAX, "ipto-c")]);
    let change = detect_placement_change(&from, &to);
    assert_eq!((change.from_epoch, change.to_epoch), (PlacementEpoch(1), PlacementEpoch(2)));
    let a = IptoInstanceId::from("ipto-a");
    assert_eq!(
        change.moved_ranges,
        vec![
            (DataIndividualShardId(100), DataIndividualShardId(199), a.clone(), IptoInstanceId::from("ipto-b")),
            (DataIndividualShardId(u64::MAX - 5), DataIndividualShardId(u64::MAX), a, IptoInstanceId::from("ipto-c")),
        ]
    );
    assert!(detect_placement_change(&from, &from).is_empty());
    let back = detect_placement_change(&to, &from);
    assert_eq!(back.moved_ranges.len(), 2);
}

#[test]
fn moved_ranges_end_where_the_old_owner_changes() {
    let from = map(1, &[("ipto-a", 1)], vec![(10, 19, "ipto-b"), (20, 29, "ipto-c")]);
    let to = map(2, &[("ipto-a", 1)], vec![(10, 29, "ipto-d")]);
    let id = |name: &str| IptoInstanceId::from(name);
    assert_eq!(
        detect_placement_change(&from, &to).moved_ranges,
        vec![
            (DataIndividualShardId(10), DataIndividualShardId(19), id("ipto-b"), id("ipto-d")),
            (DataIndividualShardId(20), DataIndividualShardId(29), id("ipto-c"), id("ipto-d")),
        ]
    );
}

#[test]
fn moved_ranges_agree_with_the_ring() {
    let from = map(1, &[("ipto-a", 16), ("ipto-b", 16)], vec![]);
    let to = map(2, &[("ipto-a", 16), ("ipto-b", 16), ("ipto-c", 16)], vec![]);
    let change = detect_placement_change(&from, &to);
    assert!(!change.is_empty());
    for i in 0..2_000u64 {
        let shard = DataIndividualShardId(i.wrapping_mul(0x9e37_79b9_7f4a_7c15));
        let moved = change.moved_ranges.iter().any(|m| m.0 .0 <= shard.0 && shard.0 <= m.1 .0);
        assert_eq!(moved, from.resolve(shard) != to.resolve(shard));
    }
}

#[test]
fn moved_payloads_are_delivered_to_their_new_owner() {
    let mut svc = service();
    let event = metadata_event("meta-1", "data-1");
    let mut bytes = SegmentWriter::header();
    bytes.extend(svc.frame_metadata_event(&event).unwrap().unwrap());
    svc.capture_metadata_event(&event).unwrap();
    let shard = event.data_individual_shard_id().0;
    let from = map(1, &[("ipto-a", 1)], vec![]);
    let to = map(2, &[("ipto-a", 1)], vec![(shard, shard, "ipto-b")]);
    let change = detect_placement_change(&from, &to);
    let mut writer = RecordingWriter::default();
    let outcomes = rebalance_after_placement_change(&bytes, &change, &mut writer, 10).unwrap();
    assert_eq!(outcomes.len(), 1);
    assert_eq!(outcomes[0].placement_change, change);
    assert_eq!(outcomes[0].drain_summary.acknowledged, 1);
    assert_eq!(writer.written, 1);
    assert!(matches!(
        rebalance_after_placement_change(&b"no segment".to_vec(), &change, &mut writer, 10),
        Err(MetadataOutboxStorageError::Segment(_))
    ));
}

#[test]
fn monitor_reports_a_change_once() {
    let defaults = RebalanceMonitorConfig::default();
    assert_eq!((defaults.check_interval_millis, defaults.max_drain_attempts), (30_000, 100));
    assert_eq!(defaults.outbox_segment_path, "outbox.seg");

    let mut monitor = RebalanceMonitor::new();
    let mut control = ClusterControlState::new();
    assert!(monitor.check(&control).is_none());
    control.apply(ClusterControlCommand::SetIptoPlacementMap(map(1, &[("ipto-a", 1)], vec![]))).unwrap();
    assert!(monitor.check(&control).is_none());
    control
        .apply(ClusterControlCommand::SetIptoPlacementMap(map(2, &[("ipto-a", 1)], vec![(1, 2, "ipto-b")])))
        .unwrap();
    let change = monitor.check(&control).unwrap();
    assert_eq!(change.moved_ranges.len(), 1);
    assert!(monitor.check(&control).is_none());

    // A change that was put back is found again.
    monitor.put_back(&change);
    assert_eq!(monitor.check(&control), Some(change));
    assert!(monitor.check(&control).is_none());
}
