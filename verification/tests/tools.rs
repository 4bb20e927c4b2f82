//! Arguments, peers and the load test.

use vannak::cli::{ingest_usage, parse_args, parse_positive_usize, usage, CliConfig, DAEMON_USAGE, INGEST_USAGE};
use vannak::cluster::NodeId;
use vannak::data::DataIndividualShardId;
use vannak::index::HotIndex;
use vannak::ipto::IptoInstanceId;
use vannak::kafka_client::KafkaPayloadFormat;
use vannak::load::{
    format_ts, ingest_run, make_data_id, make_instance_id, make_metadata_events, make_payloads, make_pipeline_id,
    make_process_events, worker_share,
};
use vannak::peers::{parse_srv_line, response_type_for, split_peer_spec};
use vannak::process::{EnvironmentId, ProcessStatus, TenantId};
use vannak::query::ProcessInstanceQuery;
use vannak::sitas_runtime::SitasRuntimeConfig;
use vannak::storage::SegmentId;

fn args(text: &str) -> Vec<String> {
    text.split_whitespace().map(String::from).collect()
}

#[test]
fn ingest_arguments_are_read() {
    let config = CliConfig::parse(&args("b:1 group 4 16 topic-a topic-b")).unwrap();
    assert_eq!((config.brokers.as_str(), config.group_id.as_str()), ("b:1", "group"));
    assert_eq!((config.shards, config.mailbox_capacity), (4, 16));
    assert_eq!((config.poll_timeout_ms, config.report_interval), (100, 1000));
    assert_eq!(config.payload_format, KafkaPayloadFormat::VannakBinary);
    assert!(config.journal.is_none());
    assert_eq!(config.topics, args("topic-a topic-b"));

    let config = CliConfig::parse(&args(
        "b:1 group 4 16 --payload-format durga-json --tenant-id t --environment-id e --journal j.seg seg node \
         --poll-timeout-ms 5 --report-interval 7 topic-a",
    ))
    .unwrap();
    assert_eq!(config.payload_format, KafkaPayloadFormat::DurgaJson);
    assert_eq!((config.tenant_id, config.environment_id), (TenantId::from("t"), EnvironmentId::from("e")));
    let journal = config.journal.unwrap();
    assert_eq!(journal.path, "j.seg");
    assert_eq!((journal.segment_id, journal.node_id), (SegmentId::from("seg"), NodeId::from("node")));
    assert_eq!((config.poll_timeout_ms, config.report_interval), (5, 7));
}

#[test]
fn ingest_arguments_are_refused() {
    assert_eq!(CliConfig::parse(&args("b:1 group 4 16")).unwrap_err(), INGEST_USAGE);
    assert_eq!(CliConfig::parse(&args("b:1 group x 16 t")).unwrap_err(), "shards must be a positive integer");
    assert_eq!(CliConfig::parse(&args("b:1 group 0 16 t")).unwrap_err(), "shards must be greater than zero");
    assert_eq!(
        CliConfig::parse(&args("b:1 group 1 0 t")).unwrap_err(),
        "mailbox-capacity must be greater than zero"
    );
    assert_eq!(parse_positive_usize("7", "n"), Ok(7));
    assert_eq!(ingest_usage(), INGEST_USAGE);
    assert!(CliConfig::parse(&args("b:1 group 1 1 --payload-format csv t")).is_err());
    assert!(CliConfig::parse(&args("b:1 group 1 1 --tenant-id")).is_err());
}

#[test]
fn daemon_arguments_are_read() {
    let config = parse_args(&args(
        "--raft 127.0.0.1 7000 node-a /data node-b@127.0.0.1:7001 --kafka b:1 g 2 8 t1 t2 --health 0.0.0.0:80 \
         --outbox o.seg seg node --journal j.seg --writer-interval 9 --placement 3 ipto-a 4 ipto-b 8",
    ))
    .unwrap();
    let raft = config.raft.unwrap();
    assert_eq!((raft.host.as_str(), raft.port, raft.peer_id.as_str()), ("127.0.0.1", 7000, "node-a"));
    assert_eq!(raft.peers, args("node-b@127.0.0.1:7001"));
    assert!(raft.service.is_none());
    let kafka = config.kafka.unwrap();
    assert_eq!((kafka.shards, kafka.mailbox_capacity), (2, 8));
    assert_eq!(kafka.topics, args("t1 t2"));
    assert_eq!(config.health_bind_address.as_deref(), Some("0.0.0.0:80"));
    assert_eq!(config.outbox_path.as_deref(), Some("o.seg"));
    assert_eq!(config.process_journal_path.as_deref(), Some("j.seg"));
    assert_eq!(config.writer_interval_secs, 9);
    let placement = config.placement.unwrap();
    assert_eq!(placement.slots().len(), 2);
    assert!(placement.resolve(DataIndividualShardId(1)).is_some());
    assert!(placement.instances().contains(&IptoInstanceId::from("ipto-b")));
}

#[test]
fn daemon_arguments_are_refused() {
    assert_eq!(parse_args(&args("")).unwrap().writer_interval_secs, 5);
    assert_eq!(parse_args(&args("--what")).unwrap_err(), "unknown option --what");
    assert!(parse_args(&args("--raft 127.0.0.1 port node-a /data")).is_err());
    assert!(parse_args(&args("--placement 1 ipto-a 0")).is_err());
    assert_eq!(usage(), DAEMON_USAGE);
    let srv = parse_args(&args("--srv _raft._tcp.example 127.0.0.1 7000 node-a /data")).unwrap();
    assert_eq!(srv.raft.unwrap().service.as_deref(), Some("_raft._tcp.example"));
}

#[test]
fn peers_are_read() {
    assert_eq!(split_peer_spec("node-b@h:1"), Some((String::from("node-b"), String::from("h:1"))));
    assert_eq!(split_peer_spec("node-b"), None);
    assert_eq!(
        parse_srv_line("10 5 7000 node-b.example.org.", "node-a"),
        Some((String::from("node-b"), String::from("node-b.example.org:7000")))
    );
    assert_eq!(parse_srv_line("10 5 7000 node-a.example.org.", "node-a"), None);
    assert_eq!(parse_srv_line("10 5 7000", "node-a"), None);
}

#[test]
fn responses_are_named_after_requests() {
    assert_eq!(response_type_for("VoteRequest"), "VoteResponse");
    assert_eq!(response_type_for("Vote"), "VoteResponse");
}

#[test]
fn load_runs_are_numbered() {
    assert_eq!(make_pipeline_id(23).as_str(), "data-pipeline-demo-3");
    assert_eq!(make_instance_id(42).as_str(), "pipeline-run-000042");
    assert_eq!(make_instance_id(12_345_678).as_str(), "pipeline-run-12345678");
    assert_eq!(make_data_id(7, 2).as_str(), "customer-record-000007-step-2");
    assert_eq!(format_ts(61_007), "2026-06-30T12:00:01.007Z");
}

#[test]
fn load_runs_complete() {
    let mut index = HotIndex::new();
    assert_eq!(ingest_run(&mut index, 1), 8);
    let found = index
        .process_instance(&ProcessInstanceQuery { process_instance_id: make_instance_id(1) })
        .unwrap();
    assert_eq!(found.status, ProcessStatus::Completed);
    assert_eq!(make_process_events(&make_instance_id(1), &make_pipeline_id(1)).len(), 8);
    assert_eq!(make_metadata_events(&make_instance_id(1), &make_pipeline_id(1), 1).len(), 4);
    let payloads = make_payloads(1);
    assert_eq!(payloads.len(), 4);
    assert_eq!(payloads[0].attributes.len(), 5);
}

#[test]
fn workers_share_the_runs() {
    assert_eq!((0..4).map(|w| worker_share(10, 4, w)).collect::<Vec<_>>(), vec![3, 3, 3, 1]);
    assert_eq!((0..3).map(|w| worker_share(9, 3, w)).sum::<u64>(), 9);
}

#[test]
fn mailboxes_have_the_capacity_of_the_executor() {
    assert_eq!(SitasRuntimeConfig::default().mailbox_capacity_per_shard(), sitas::DEFAULT_MAILBOX_CAPACITY);
    assert_eq!(SitasRuntimeConfig::default().mailbox_capacity_per_shard(), 1024);
}
