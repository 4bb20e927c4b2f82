//! Command lines of the programs.

use vstd::prelude::*;
use crate::cluster::NodeId;
use crate::control_error::control_error_text;
use crate::control_error::ControlErrorView;
use crate::ingest::SourceId;
use crate::ipto::IptoInstanceId;
use crate::kafka_client::{named_format, KafkaPayloadFormat};
use crate::ordered::{opt_view, stable_sort, views};
use crate::placement::{
    placement, placement_refusal, IptoPlacementMap, IptoPlacementRange, IptoPlacementSlot, PlacementEpoch,
    PlacementMapView, RangeView, SlotView,
};
use crate::process::{EnvironmentId, TenantId};
use crate::storage::SegmentId;
use crate::text::{begins_with, parse_number, push_text, starts_with, str_eq, unsigned_value};

verus! {

/// How the ingest runner is called.
pub const INGEST_USAGE: &'static str = "usage: vannak-kafka-ingest <brokers> <group-id> <shards> <mailbox-capacity> [--payload-format vannak-binary|durga-json] [--source-id <id>] [--tenant-id <id>] [--environment-id <id>] [--journal <path> <segment-id> <node-id>] [--poll-timeout-ms <ms>] [--report-interval <n>] <topic>...";

/// How the daemon is called.
pub const DAEMON_USAGE: &'static str = "usage: vannak [probe <host> <port>] [options]\n\nCommands:\n  probe <host> <port>         Probe a running Vannak node for cluster summary\n\nOptions:\n  --raft <host> <port> <peer-id> <data-dir> [peers...]\n      Start Raft control-plane node\n  --srv <service> <host> <port> <peer-id> <data-dir>\n      Discover Raft peers via DNS SRV\n  --kafka <brokers> <group-id> <shards> <mailbox-capacity> <topic> [<topic>...]\n      Start Kafka process-event consumer (requires kafka-client feature)\n  --health <bind-addr>\n      Health/query HTTP server bind address (default: 127.0.0.1:9090)\n  --outbox <segment-path> <segment-id> <node-id>\n      Metadata outbox segment path and identity\n  --journal <path>\n      Process event journal segment path\n  --writer-interval <secs>\n      Background writer drain interval in seconds (default: 5)\n  --placement <epoch> <target> <vnodes> [<target> <vnodes> ...]\n      Ipto placement map (default: single ipto-default with 1 vnode)\n";

/// The number that an argument denotes, if it is no larger than a bound.
pub open spec fn argument_number(text: Seq<char>, max: nat) -> Option<nat> {
    match unsigned_value(text) {
        Some(n) => if n <= max {
            Some(n)
        } else {
            None
        },
        None => None,
    }
}

// ---------------------------------------------------------------------------
// The ingest runner
// ---------------------------------------------------------------------------

/// Where the ingest runner keeps its journal.
#[derive(Debug, PartialEq, Eq)]
pub struct JournalConfig {
    pub path: String,
    pub segment_id: SegmentId,
    pub node_id: NodeId,
}

/// The view of where the journal is kept.
pub struct JournalView {
    pub path: Seq<char>,
    pub segment_id: Seq<char>,
    pub node_id: Seq<char>,
}

impl View for JournalConfig {
    type V = JournalView;

    open spec fn view(&self) -> JournalView {
        JournalView { path: self.path@, segment_id: self.segment_id@, node_id: self.node_id@ }
    }
}

/// What the ingest runner was called with.
#[derive(Debug, PartialEq, Eq)]
pub struct CliConfig {
    pub brokers: String,
    pub group_id: String,
    pub shards: usize,
    pub mailbox_capacity: usize,
    pub poll_timeout_ms: u64,
    pub report_interval: u64,
    pub payload_format: KafkaPayloadFormat,
    pub source_id: SourceId,
    pub tenant_id: TenantId,
    pub environment_id: EnvironmentId,
    pub journal: Option<JournalConfig>,
    pub topics: Vec<String>,
}

/// The view of what the ingest runner was called with.
pub struct CliView {
    pub brokers: Seq<char>,
    pub group_id: Seq<char>,
    pub shards: usize,
    pub mailbox_capacity: usize,
    pub poll_timeout_ms: u64,
    pub report_interval: u64,
    pub payload_format: KafkaPayloadFormat,
    pub source_id: Seq<char>,
    pub tenant_id: Seq<char>,
    pub environment_id: Seq<char>,
    pub journal: Option<JournalView>,
    pub topics: Seq<Seq<char>>,
}

impl View for CliConfig {
    type V = CliView;

    open spec fn view(&self) -> CliView {
        CliView {
            brokers: self.brokers@,
            group_id: self.group_id@,
            shards: self.shards,
            mailbox_capacity: self.mailbox_capacity,
            poll_timeout_ms: self.poll_timeout_ms,
            report_interval: self.report_interval,
            payload_format: self.payload_format,
            source_id: self.source_id@,
            tenant_id: self.tenant_id@,
            environment_id: self.environment_id@,
            journal: opt_view(self.journal),
            topics: views(self.topics@),
        }
    }
}

/// A number of at least one, or what is wrong with it.
pub open spec fn positive(value: Seq<char>, label: Seq<char>) -> Result<usize, Seq<char>> {
    match argument_number(value, usize::MAX as nat) {
        None => Err(label + " must be a positive integer"@),
        Some(n) => if n == 0 {
            Err(label + " must be greater than zero"@)
        } else {
            Ok(n as usize)
        },
    }
}

/// A number of at least one.
pub fn parse_positive_usize(value: &str, label: &str) -> (r: Result<usize, String>)
    ensures
        match (r, positive(value@, label@)) {
            (Ok(n), Ok(m)) => n == m,
            (Err(text), Err(e)) => text@ == e,
            _ => false,
        },
{
    match parse_number(value, usize::MAX as u64) {
        None => {
            let mut text = label.to_owned();
            push_text(&mut text, " must be a positive integer");
            Err(text)
        },
        Some(n) => if n == 0 {
            let mut text = label.to_owned();
            push_text(&mut text, " must be greater than zero");
            Err(text)
        } else {
            Ok(n as usize)
        },
    }
}

/// What the argument at a position adds, with the position behind it and its values; an
/// argument that is no option is a topic.
pub open spec fn ingest_option(args: Seq<Seq<char>>, i: int, c: CliView) -> Result<(CliView, int), Seq<char>> {
    let arg = args[i];
    let has_value = i + 1 < args.len();
    if arg == "--journal"@ {
        if i + 3 >= args.len() {
            Err(INGEST_USAGE@)
        } else {
            let journal = JournalView { path: args[i + 1], segment_id: args[i + 2], node_id: args[i + 3] };
            Ok((CliView { journal: Some(journal), ..c }, i + 4))
        }
    } else if arg == "--poll-timeout-ms"@ {
        if !has_value {
            Err(INGEST_USAGE@)
        } else {
            match argument_number(args[i + 1], u64::MAX as nat) {
                Some(n) => Ok((CliView { poll_timeout_ms: n as u64, ..c }, i + 2)),
                None => Err("poll-timeout-ms must be a positive integer"@),
            }
        }
    } else if arg == "--report-interval"@ {
        if !has_value {
            Err(INGEST_USAGE@)
        } else {
            match argument_number(args[i + 1], u64::MAX as nat) {
                Some(n) => if n == 0 {
                    Err("report-interval must be greater than zero"@)
                } else {
                    Ok((CliView { report_interval: n as u64, ..c }, i + 2))
                },
                None => Err("report-interval must be a positive integer"@),
            }
        }
    } else if arg == "--payload-format"@ {
        if !has_value {
            Err(INGEST_USAGE@)
        } else {
            match named_format(args[i + 1]) {
                Some(f) => Ok((CliView { payload_format: f, ..c }, i + 2)),
                None => Err("payload-format must be vannak-binary or durga-json"@),
            }
        }
    } else if arg == "--source-id"@ {
        if !has_value {
            Err(INGEST_USAGE@)
        } else {
            Ok((CliView { source_id: args[i + 1], ..c }, i + 2))
        }
    } else if arg == "--tenant-id"@ {
        if !has_value {
            Err(INGEST_USAGE@)
        } else {
            Ok((CliView { tenant_id: args[i + 1], ..c }, i + 2))
        }
    } else if arg == "--environment-id"@ {
        if !has_value {
            Err(INGEST_USAGE@)
        } else {
            Ok((CliView { environment_id: args[i + 1], ..c }, i + 2))
        }
    } else if begins_with(arg, "--"@) {
        Err("unknown option "@ + arg)
    } else {
        Ok((CliView { topics: c.topics.push(arg), ..c }, i + 1))
    }
}

/// What the arguments from a position on add.
pub open spec fn ingest_options(args: Seq<Seq<char>>, i: int, c: CliView) -> Result<CliView, Seq<char>>
    decreases args.len() - i,
{
    if i >= args.len() {
        Ok(c)
    } else {
        match ingest_option(args, i, c) {
            Ok((after, next)) => if next > i {
                ingest_options(args, next, after)
            } else {
                Ok(after)
            },
            Err(e) => Err(e),
        }
    }
}

/// A call without topics is refused.
pub open spec fn topics_given(c: Result<CliView, Seq<char>>) -> Result<CliView, Seq<char>> {
    match c {
        Err(e) => Err(e),
        Ok(c) => if c.topics.len() == 0 {
            Err(INGEST_USAGE@)
        } else {
            Ok(c)
        },
    }
}

/// What the ingest runner is called with: brokers, group, numbers of shards and of places in
/// a mailbox, then options and at least one topic.
pub open spec fn ingest_config(args: Seq<Seq<char>>) -> Result<CliView, Seq<char>> {
    if args.len() < 5 {
        Err(INGEST_USAGE@)
    } else {
        match (positive(args[2], "shards"@), positive(args[3], "mailbox-capacity"@)) {
            (Err(e), _) => Err(e),
            (_, Err(e)) => Err(e),
            (Ok(shards), Ok(mailbox_capacity)) => topics_given(
                ingest_options(
                    args,
                    4,
                    CliView {
                        brokers: args[0],
                        group_id: args[1],
                        shards,
                        mailbox_capacity,
                        poll_timeout_ms: 100,
                        report_interval: 1000,
                        payload_format: KafkaPayloadFormat::VannakBinary,
                        source_id: "kafka"@,
                        tenant_id: "default"@,
                        environment_id: "default"@,
                        journal: None,
                        topics: Seq::empty(),
                    },
                ),
            ),
        }
    }
}

impl CliConfig {
    fn take_option(&mut self, args: &Vec<String>, i: usize) -> (r: Result<usize, String>)
        requires
            i < args.len(),
        ensures
            match (ingest_option(views(args@), i as int, old(self)@), r) {
                (Ok((after, next)), Ok(n)) => final(self)@ == after && n == next && i < n <= args.len(),
                (Err(e), Err(text)) => text@ == e,
                _ => false,
            },
    {
        let ghost all = views(args@);
        assert(all[i as int] == args@[i as int]@);
        let arg = args[i].as_str();
        let left: usize = args.len() - i;
        let has_value = left > 1;
        assert(has_value ==> all[i + 1] == args@[i + 1]@);
        if str_eq(arg, "--journal") {
            if left < 4 {
                return Err(INGEST_USAGE.to_owned());
            }
            assert(all[i + 2] == args@[i + 2]@ && all[i + 3] == args@[i + 3]@);
            self.journal = Some(
                JournalConfig {
                    path: args[i + 1].clone(),
                    segment_id: SegmentId::from(args[i + 2].clone()),
                    node_id: NodeId::from(args[i + 3].clone()),
                },
            );
            Ok(i + 4)
        } else if str_eq(arg, "--poll-timeout-ms") {
            if !has_value {
                return Err(INGEST_USAGE.to_owned());
            }
            match parse_number(args[i + 1].as_str(), u64::MAX) {
                Some(n) => {
                    self.poll_timeout_ms = n;
                    Ok(i + 2)
                },
                None => Err("poll-timeout-ms must be a positive integer".to_owned()),
            }
        } else if str_eq(arg, "--report-interval") {
            if !has_value {
                return Err(INGEST_USAGE.to_owned());
            }
            match parse_number(args[i + 1].as_str(), u64::MAX) {
                Some(n) => {
                    if n == 0 {
                        return Err("report-interval must be greater than zero".to_owned());
                    }
                    self.report_interval = n;
                    Ok(i + 2)
                },
                None => Err("report-interval must be a positive integer".to_owned()),
            }
        } else if str_eq(arg, "--payload-format") {
            if !has_value {
                return Err(INGEST_USAGE.to_owned());
            }
            match KafkaPayloadFormat::parse(args[i + 1].as_str()) {
                Some(f) => {
                    self.payload_format = f;
                    Ok(i + 2)
                },
                None => Err("payload-format must be vannak-binary or durga-json".to_owned()),
            }
        } else if str_eq(arg, "--source-id") {
            if !has_value {
                return Err(INGEST_USAGE.to_owned());
            }
            self.source_id = SourceId::from(args[i + 1].clone());
            Ok(i + 2)
        } else if str_eq(arg, "--tenant-id") {
            if !has_value {
                return Err(INGEST_USAGE.to_owned());
            }
            self.tenant_id = TenantId::from(args[i + 1].clone());
            Ok(i + 2)
        } else if str_eq(arg, "--environment-id") {
            if !has_value {
                return Err(INGEST_USAGE.to_owned());
            }
            self.environment_id = EnvironmentId::from(args[i + 1].clone());
            Ok(i + 2)
        } else if starts_with(arg, "--") {
            let mut text = "unknown option ".to_owned();
            push_text(&mut text, arg);
            Err(text)
        } else {
            let ghost before = self.topics@;
            self.topics.push(args[i].clone());
            assert(views(self.topics@) =~= views(before).push(args@[i as int]@));
            Ok(i + 1)
        }
    }

    /// Reads the arguments of the ingest runner.
    pub fn parse(args: &Vec<String>) -> (r: Result<Self, String>)
        ensures
            match (ingest_config(views(args@)), r) {
                (Ok(c), Ok(config)) => config@ == c,
                (Err(e), Err(text)) => text@ == e,
                _ => false,
            },
    {
        let ghost all = views(args@);
        if args.len() < 5 {
            return Err(INGEST_USAGE.to_owned());
        }
        assert(all[0] == args@[0]@ && all[1] == args@[1]@ && all[2] == args@[2]@ && all[3] == args@[3]@);
        let shards: usize = match parse_positive_usize(args[2].as_str(), "shards") {
            Ok(n) => n,
            Err(e) => return Err(e),
        };
        let mailbox_capacity: usize = match parse_positive_usize(args[3].as_str(), "mailbox-capacity") {
            Ok(n) => n,
            Err(e) => return Err(e),
        };
        let mut config = CliConfig {
            brokers: args[0].clone(),
            group_id: args[1].clone(),
            shards,
            mailbox_capacity,
            poll_timeout_ms: 100,
            report_interval: 1000,
            payload_format: KafkaPayloadFormat::VannakBinary,
            source_id: SourceId::from("kafka"),
            tenant_id: TenantId::from("default"),
            environment_id: EnvironmentId::from("default"),
            journal: None,
            topics: Vec::new(),
        };
        assert(config@.topics =~= Seq::<Seq<char>>::empty());
        let mut i: usize = 4;
        while i < args.len()
            invariant
                4 <= i <= args.len(),
                all == views(args@),
                ingest_config(all) == topics_given(ingest_options(all, i as int, config@)),
            decreases args.len() - i,
        {
            i = match config.take_option(args, i) {
                Ok(next) => next,
                Err(e) => return Err(e),
            };
        }
        if config.topics.len() == 0 {
            return Err(INGEST_USAGE.to_owned());
        }
        Ok(config)
    }
}

// ---------------------------------------------------------------------------
// The daemon
// ---------------------------------------------------------------------------

/// The control-plane node that the daemon runs. Its peers are given, or are to be looked up
/// under a service name.
#[derive(Debug, PartialEq, Eq)]
pub struct RaftArgs {
    pub host: String,
    pub port: u16,
    pub peer_id: String,
    pub data_dir: String,
    pub peers: Vec<String>,
    pub service: Option<String>,
}

/// The view of the control-plane node.
pub struct RaftView {
    pub host: Seq<char>,
    pub port: u16,
    pub peer_id: Seq<char>,
    pub data_dir: Seq<char>,
    pub peers: Seq<Seq<char>>,
    pub service: Option<Seq<char>>,
}

impl View for RaftArgs {
    type V = RaftView;

    open spec fn view(&self) -> RaftView {
        RaftView {
            host: self.host@,
            port: self.port,
            peer_id: self.peer_id@,
            data_dir: self.data_dir@,
            peers: views(self.peers@),
            service: opt_view(self.service),
        }
    }
}

/// The consumer that the daemon runs.
#[derive(Debug, PartialEq, Eq)]
pub struct KafkaArgs {
    pub brokers: String,
    pub group_id: String,
    pub shards: usize,
    pub mailbox_capacity: usize,
    pub topics: Vec<String>,
}

/// The view of the consumer.
pub struct KafkaArgsView {
    pub brokers: Seq<char>,
    pub group_id: Seq<char>,
    pub shards: usize,
    pub mailbox_capacity: usize,
    pub topics: Seq<Seq<char>>,
}

impl View for KafkaArgs {
    type V = KafkaArgsView;

    open spec fn view(&self) -> KafkaArgsView {
        KafkaArgsView {
            brokers: self.brokers@,
            group_id: self.group_id@,
            shards: self.shards,
            mailbox_capacity: self.mailbox_capacity,
            topics: views(self.topics@),
        }
    }
}

/// What the daemon was called with.
#[derive(Debug, PartialEq, Eq)]
pub struct SupervisorConfig {
    pub raft: Option<RaftArgs>,
    pub kafka: Option<KafkaArgs>,
    pub health_bind_address: Option<String>,
    pub outbox_path: Option<String>,
    pub outbox_segment_id: Option<SegmentId>,
    pub outbox_node_id: Option<NodeId>,
    pub process_journal_path: Option<String>,
    pub writer_interval_secs: u64,
    pub placement: Option<IptoPlacementMap>,
}

/// The view of what the daemon was called with.
pub struct SupervisorView {
    pub raft: Option<RaftView>,
    pub kafka: Option<KafkaArgsView>,
    pub health_bind_address: Option<Seq<char>>,
    pub outbox_path: Option<Seq<char>>,
    pub outbox_segment_id: Option<Seq<char>>,
    pub outbox_node_id: Option<Seq<char>>,
    pub process_journal_path: Option<Seq<char>>,
    pub writer_interval_secs: u64,
    pub placement: Option<PlacementMapView>,
}

impl View for SupervisorConfig {
    type V = SupervisorView;

    open spec fn view(&self) -> SupervisorView {
        SupervisorView {
            raft: opt_view(self.raft),
            kafka: opt_view(self.kafka),
            health_bind_address: opt_view(self.health_bind_address),
            outbox_path: opt_view(self.outbox_path),
            outbox_segment_id: opt_view(self.outbox_segment_id),
            outbox_node_id: opt_view(self.outbox_node_id),
            process_journal_path: opt_view(self.process_journal_path),
            writer_interval_secs: self.writer_interval_secs,
            placement: opt_view(self.placement),
        }
    }
}

/// A call without arguments: the background writer drains every five seconds.
pub open spec fn plain_call() -> SupervisorView {
    SupervisorView {
        raft: None,
        kafka: None,
        health_bind_address: None,
        outbox_path: None,
        outbox_segment_id: None,
        outbox_node_id: None,
        process_journal_path: None,
        writer_interval_secs: 5,
        placement: None,
    }
}

impl Default for SupervisorConfig {
    fn default() -> (r: Self)
        ensures
            r@ == plain_call(),
    {
        SupervisorConfig {
            raft: None,
            kafka: None,
            health_bind_address: None,
            outbox_path: None,
            outbox_segment_id: None,
            outbox_node_id: None,
            process_journal_path: None,
            writer_interval_secs: 5,
            placement: None,
        }
    }
}

/// The arguments from a position up to the next option.
pub open spec fn plain_arguments(args: Seq<Seq<char>>, i: int) -> Seq<Seq<char>>
    decreases args.len() - i,
{
    if i < 0 || i >= args.len() || begins_with(args[i], "--"@) {
        Seq::empty()
    } else {
        seq![args[i]] + plain_arguments(args, i + 1)
    }
}

/// The slots that are given as pairs of a target and a number of virtual nodes, from a
/// position up to the next option, with the position behind them.
pub open spec fn slot_arguments(args: Seq<Seq<char>>, i: int) -> Result<(Seq<SlotView>, int), Seq<char>>
    decreases args.len() - i,
{
    if i < 0 || i + 1 >= args.len() || begins_with(args[i], "--"@) {
        Ok((Seq::empty(), i))
    } else {
        match argument_number(args[i + 1], u32::MAX as nat) {
            None => Err("invalid vnodes"@),
            Some(n) => if n == 0 {
                Err(control_error_text(ControlErrorView::ZeroVnodes(args[i])))
            } else {
                match slot_arguments(args, i + 2) {
                    Err(e) => Err(e),
                    Ok((slots, next)) => Ok(
                        (seq![SlotView { instance: args[i], vnodes: n as u32 }] + slots, next),
                    ),
                }
            },
        }
    }
}

/// The epoch that is given at a position; anything else counts as the first.
pub open spec fn epoch_argument(args: Seq<Seq<char>>, i: int) -> u64 {
    if i < args.len() {
        match argument_number(args[i], u64::MAX as nat) {
            Some(n) => n as u64,
            None => 1,
        }
    } else {
        1
    }
}

/// The control-plane node with its peers.
pub open spec fn raft_option(args: Seq<Seq<char>>, i: int, c: SupervisorView) -> Result<(SupervisorView, int), Seq<char>> {
    let left = args.len() - i;
    if left < 5 {
        Err(DAEMON_USAGE@)
    } else {
        match argument_number(args[i + 2], u16::MAX as nat) {
            None => Err("invalid raft port"@),
            Some(port) => {
                let peers = plain_arguments(args, i + 5);
                let raft = RaftView {
                    host: args[i + 1],
                    port: port as u16,
                    peer_id: args[i + 3],
                    data_dir: args[i + 4],
                    peers,
                    service: None,
                };
                Ok((SupervisorView { raft: Some(raft), ..c }, i + 5 + peers.len()))
            },
        }
    }
}

/// The control-plane node whose peers are looked up.
pub open spec fn service_option(args: Seq<Seq<char>>, i: int, c: SupervisorView) -> Result<(SupervisorView, int), Seq<char>> {
    let left = args.len() - i;
    if left < 6 {
        Err(DAEMON_USAGE@)
    } else {
        match argument_number(args[i + 3], u16::MAX as nat) {
            None => Err("invalid raft port"@),
            Some(port) => {
                let raft = RaftView {
                    host: args[i + 2],
                    port: port as u16,
                    peer_id: args[i + 4],
                    data_dir: args[i + 5],
                    peers: Seq::empty(),
                    service: Some(args[i + 1]),
                };
                Ok((SupervisorView { raft: Some(raft), ..c }, i + 6))
            },
        }
    }
}

/// The consumer with at least one topic.
pub open spec fn kafka_option(args: Seq<Seq<char>>, i: int, c: SupervisorView) -> Result<(SupervisorView, int), Seq<char>> {
    let left = args.len() - i;
    if left < 5 {
        Err(DAEMON_USAGE@)
    } else {
        match (
            argument_number(args[i + 3], usize::MAX as nat),
            argument_number(args[i + 4], usize::MAX as nat),
        ) {
            (None, _) => Err("invalid shards"@),
            (_, None) => Err("invalid mailbox capacity"@),
            (Some(shards), Some(mailbox_capacity)) => {
                let topics = plain_arguments(args, i + 5);
                let kafka = KafkaArgsView {
                    brokers: args[i + 1],
                    group_id: args[i + 2],
                    shards: shards as usize,
                    mailbox_capacity: mailbox_capacity as usize,
                    topics,
                };
                if topics.len() == 0 {
                    Err("--kafka requires at least one topic"@)
                } else {
                    Ok((SupervisorView { kafka: Some(kafka), ..c }, i + 5 + topics.len()))
                }
            },
        }
    }
}

/// The placement with an epoch and its slots; without slots it is not set.
pub open spec fn placement_option(args: Seq<Seq<char>>, i: int, c: SupervisorView) -> Result<(SupervisorView, int), Seq<char>> {
    let left = args.len() - i;
    match slot_arguments(
        args,
        if left > 1 {
            i + 2
        } else {
            args.len() as int
        },
    ) {
        Err(e) => Err(e),
        Ok((slots, next)) => if slots.len() == 0 {
            Ok((c, next))
        } else {
            Ok(
                (
                    SupervisorView {
                        placement: Some(placement(epoch_argument(args, i + 1), slots, Seq::empty())),
                        ..c
                    },
                    next,
                ),
            )
        },
    }
}

/// What the argument at a position adds, with the position behind it and its values; an
/// argument that is no option is passed over.
pub open spec fn daemon_option(args: Seq<Seq<char>>, i: int, c: SupervisorView) -> Result<
    (SupervisorView, int),
    Seq<char>,
> {
    let arg = args[i];
    let left = args.len() - i;
    if arg == "--raft"@ {
        raft_option(args, i, c)
    } else if arg == "--srv"@ {
        service_option(args, i, c)
    } else if arg == "--kafka"@ {
        kafka_option(args, i, c)
    } else if arg == "--health"@ {
        if left < 2 {
            Err(DAEMON_USAGE@)
        } else {
            Ok((SupervisorView { health_bind_address: Some(args[i + 1]), ..c }, i + 2))
        }
    } else if arg == "--outbox"@ {
        if left < 4 {
            Err(DAEMON_USAGE@)
        } else {
            Ok(
                (
                    SupervisorView {
                        outbox_path: Some(args[i + 1]),
                        outbox_segment_id: Some(args[i + 2]),
                        outbox_node_id: Some(args[i + 3]),
                        ..c
                    },
                    i + 4,
                ),
            )
        }
    } else if arg == "--journal"@ {
        if left < 2 {
            Err(DAEMON_USAGE@)
        } else {
            Ok((SupervisorView { process_journal_path: Some(args[i + 1]), ..c }, i + 2))
        }
    } else if arg == "--writer-interval"@ {
        if left < 2 {
            Err(DAEMON_USAGE@)
        } else {
            match argument_number(args[i + 1], u64::MAX as nat) {
                None => Err("invalid interval"@),
                Some(n) => Ok((SupervisorView { writer_interval_secs: n as u64, ..c }, i + 2)),
            }
        }
    } else if arg == "--placement"@ {
        placement_option(args, i, c)
    } else if begins_with(arg, "--"@) {
        Err("unknown option "@ + arg)
    } else {
        Ok((c, i + 1))
    }
}

/// What the arguments from a position on add.
pub open spec fn daemon_options(args: Seq<Seq<char>>, i: int, c: SupervisorView) -> Result<SupervisorView, Seq<char>>
    decreases
            if i < args.len() {
                args.len() - i
            } else {
                0
            },
{
    if i >= args.len() {
        Ok(c)
    } else {
        match daemon_option(args, i, c) {
            Ok((after, next)) => if next > i {
                daemon_options(args, next, after)
            } else {
                Ok(after)
            },
            Err(e) => Err(e),
        }
    }
}

proof fn lemma_plain_step(args: Seq<Seq<char>>, i: int, j: int)
    requires
        0 <= i <= j < args.len(),
        !begins_with(args[j], "--"@),
        plain_arguments(args, i) == args.subrange(i, j) + plain_arguments(args, j),
    ensures
        plain_arguments(args, i) == args.subrange(i, j + 1) + plain_arguments(args, j + 1),
{
    assert(args.subrange(i, j) + (seq![args[j]] + plain_arguments(args, j + 1)) =~= args.subrange(i, j + 1)
        + plain_arguments(args, j + 1));
}

fn take_plain(args: &Vec<String>, i: usize) -> (r: Vec<String>)
    requires
        i <= args.len(),
    ensures
        views(r@) == plain_arguments(views(args@), i as int),
        i + r.len() <= args.len(),
{
    let ghost all = views(args@);
    let mut out: Vec<String> = Vec::new();
    let mut j: usize = i;
    proof {
        assert(all.subrange(i as int, i as int) + plain_arguments(all, i as int) =~= plain_arguments(all, i as int));
        assert(views(out@) =~= all.subrange(i as int, i as int));
    }
    while j < args.len() && !starts_with(args[j].as_str(), "--")
        invariant
            i <= j <= args.len(),
            all == views(args@),
            out.len() == j - i,
            views(out@) == all.subrange(i as int, j as int),
            plain_arguments(all, i as int) == all.subrange(i as int, j as int) + plain_arguments(all, j as int),
        decreases args.len() - j,
    {
        let ghost before = out@;
        assert(all[j as int] == args@[j as int]@);
        out.push(args[j].clone());
        proof {
            lemma_plain_step(all, i as int, j as int);
            assert(views(out@) =~= views(before).push(all[j as int]));
            assert(all.subrange(i as int, j + 1) =~= all.subrange(i as int, j as int).push(all[j as int]));
        }
        j += 1;
    }
    proof {
        if j < args.len() {
            assert(all[j as int] == args@[j as int]@);
        }
        assert(plain_arguments(all, j as int) =~= Seq::<Seq<char>>::empty());
        assert(plain_arguments(all, i as int) =~= views(out@));
    }
    out
}

fn take_slots(args: &Vec<String>, i: usize) -> (r: Result<(Vec<IptoPlacementSlot>, usize), String>)
    ensures
        match (slot_arguments(views(args@), i as int), r) {
            (Ok((slots, next)), Ok((found, n))) => views(found@) == slots && n == next && i <= n,
            (Err(e), Err(text)) => text@ == e,
            _ => false,
        },
{
    let ghost all = views(args@);
    let mut slots: Vec<IptoPlacementSlot> = Vec::new();
    let mut j: usize = i;
    proof {
        assert(views(slots@) =~= Seq::<SlotView>::empty());
        if let Ok((more, next)) = slot_arguments(all, i as int) {
            assert(Seq::<SlotView>::empty() + more =~= more);
        }
    }
    while j < args.len() && args.len() - j > 1 && !starts_with(args[j].as_str(), "--")
        invariant
            i <= j,
            all == views(args@),
            slot_arguments(all, i as int) == (match slot_arguments(all, j as int) {
                Ok((more, next)) => Ok((views(slots@) + more, next)),
                Err(e) => Err(e),
            }),
        decreases args.len() - j,
    {
        assert(all[j as int] == args@[j as int]@ && all[j + 1] == args@[j + 1]@);
        let vnodes: u32 = match parse_number(args[j + 1].as_str(), u32::MAX as u64) {
            Some(n) => n as u32,
            None => return Err("invalid vnodes".to_owned()),
        };
        match IptoPlacementSlot::new(IptoInstanceId::from(args[j].clone()), vnodes) {
            Ok(slot) => {
                let ghost before = slots@;
                let ghost view = slot@;
                slots.push(slot);
                proof {
                    assert(views(slots@) =~= views(before).push(view));
                    if let Ok((more, next)) = slot_arguments(all, j + 2) {
                        assert(views(before) + (seq![view] + more) =~= views(slots@) + more);
                    }
                }
            },
            Err(e) => return Err(e.describe()),
        }
        j += 2;
    }
    proof {
        if j < args.len() {
            assert(all[j as int] == args@[j as int]@);
        }
        assert(views(slots@) + Seq::<SlotView>::empty() =~= views(slots@));
    }
    Ok((slots, j))
}

proof fn lemma_no_overrides(slots: Seq<SlotView>)
    requires
        slots.len() > 0,
    ensures
        placement_refusal(slots, Seq::<RangeView>::empty()) is None,
{
    reveal_with_fuel(stable_sort, 2);
}

impl SupervisorConfig {
    fn take_raft(&mut self, args: &Vec<String>, i: usize) -> (r: Result<usize, String>)
        requires
            i < args.len(),
        ensures
            match (raft_option(views(args@), i as int, old(self)@), r) {
                (Ok((after, next)), Ok(n)) => final(self)@ == after && n == next && i < n,
                (Err(e), Err(text)) => text@ == e,
                _ => false,
            },
    {
        let ghost all = views(args@);
        assert(all[i as int] == args@[i as int]@);
        if args.len() - i < 5 {
            return Err(DAEMON_USAGE.to_owned());
        }
        assert(all[i + 1] == args@[i + 1]@ && all[i + 2] == args@[i + 2]@ && all[i + 3] == args@[i + 3]@ && all[i + 4]
            == args@[i + 4]@);
        let port: u16 = match parse_number(args[i + 2].as_str(), u16::MAX as u64) {
            Some(n) => n as u16,
            None => return Err("invalid raft port".to_owned()),
        };
        let peers = take_plain(args, i + 5);
        let next: usize = i + 5 + peers.len();
        self.raft = Some(
            RaftArgs {
                host: args[i + 1].clone(),
                port,
                peer_id: args[i + 3].clone(),
                data_dir: args[i + 4].clone(),
                peers,
                service: None,
            },
        );
        Ok(next)
    }

    fn take_service(&mut self, args: &Vec<String>, i: usize) -> (r: Result<usize, String>)
        requires
            i < args.len(),
        ensures
            match (service_option(views(args@), i as int, old(self)@), r) {
                (Ok((after, next)), Ok(n)) => final(self)@ == after && n == next && i < n,
                (Err(e), Err(text)) => text@ == e,
                _ => false,
            },
    {
        let ghost all = views(args@);
        assert(all[i as int] == args@[i as int]@);
        if args.len() - i < 6 {
            return Err(DAEMON_USAGE.to_owned());
        }
        assert(all[i + 1] == args@[i + 1]@ && all[i + 2] == args@[i + 2]@ && all[i + 3] == args@[i + 3]@ && all[i + 4]
            == args@[i + 4]@ && all[i + 5] == args@[i + 5]@);
        let port: u16 = match parse_number(args[i + 3].as_str(), u16::MAX as u64) {
            Some(n) => n as u16,
            None => return Err("invalid raft port".to_owned()),
        };
        let peers: Vec<String> = Vec::new();
        assert(views(peers@) =~= Seq::<Seq<char>>::empty());
        self.raft = Some(
            RaftArgs {
                host: args[i + 2].clone(),
                port,
                peer_id: args[i + 4].clone(),
                data_dir: args[i + 5].clone(),
                peers,
                service: Some(args[i + 1].clone()),
            },
        );
        Ok(i + 6)
    }

    fn take_kafka(&mut self, args: &Vec<String>, i: usize) -> (r: Result<usize, String>)
        requires
            i < args.len(),
        ensures
            match (kafka_option(views(args@), i as int, old(self)@), r) {
                (Ok((after, next)), Ok(n)) => final(self)@ == after && n == next && i < n,
                (Err(e), Err(text)) => text@ == e,
                _ => false,
            },
    {
        let ghost all = views(args@);
        assert(all[i as int] == args@[i as int]@);
        if args.len() - i < 5 {
            return Err(DAEMON_USAGE.to_owned());
        }
        assert(all[i + 1] == args@[i + 1]@ && all[i + 2] == args@[i + 2]@ && all[i + 3] == args@[i + 3]@ && all[i + 4]
            == args@[i + 4]@);
        let shards: usize = match parse_number(args[i + 3].as_str(), usize::MAX as u64) {
            Some(n) => n as usize,
            None => return Err("invalid shards".to_owned()),
        };
        let mailbox_capacity: usize = match parse_number(args[i + 4].as_str(), usize::MAX as u64) {
            Some(n) => n as usize,
            None => return Err("invalid mailbox capacity".to_owned()),
        };
        let topics = take_plain(args, i + 5);
        let next: usize = i + 5 + topics.len();
        if topics.len() == 0 {
            return Err("--kafka requires at least one topic".to_owned());
        }
        self.kafka = Some(
            KafkaArgs {
                brokers: args[i + 1].clone(),
                group_id: args[i + 2].clone(),
                shards,
                mailbox_capacity,
                topics,
            },
        );
        Ok(next)
    }

    fn take_placement(&mut self, args: &Vec<String>, i: usize) -> (r: Result<usize, String>)
        requires
            i < args.len(),
        ensures
            match (placement_option(views(args@), i as int, old(self)@), r) {
                (Ok((after, next)), Ok(n)) => final(self)@ == after && n == next && i < n,
                (Err(e), Err(text)) => text@ == e,
                _ => false,
            },
    {
        let ghost all = views(args@);
        assert(all[i as int] == args@[i as int]@);
        let left: usize = args.len() - i;
        let epoch: u64 = if left > 1 {
            assert(all[i + 1] == args@[i + 1]@);
            match parse_number(args[i + 1].as_str(), u64::MAX) {
                Some(n) => n,
                None => 1,
            }
        } else {
            1
        };
        let (slots, next) = match take_slots(
            args,
            if left > 1 {
                i + 2
            } else {
                args.len()
            },
        ) {
            Ok(found) => found,
            Err(e) => return Err(e),
        };
        if slots.len() > 0 {
            let none: Vec<IptoPlacementRange> = Vec::new();
            proof {
                assert(views(none@) =~= Seq::<RangeView>::empty());
                lemma_no_overrides(views(slots@));
            }
            match IptoPlacementMap::new(PlacementEpoch(epoch), slots, none) {
                Ok(map) => {
                    self.placement = Some(map);
                },
                Err(e) => return Err(e.describe()),
            }
        }
        Ok(next)
    }

    fn take_option(&mut self, args: &Vec<String>, i: usize) -> (r: Result<usize, String>)
        requires
            i < args.len(),
        ensures
            match (daemon_option(views(args@), i as int, old(self)@), r) {
                (Ok((after, next)), Ok(n)) => final(self)@ == after && n == next && i < n,
                (Err(e), Err(text)) => text@ == e,
                _ => false,
            },
    {
        let ghost all = views(args@);
        assert(all[i as int] == args@[i as int]@);
        let arg = args[i].as_str();
        let left: usize = args.len() - i;
        assert(left > 1 ==> all[i + 1] == args@[i + 1]@);
        if str_eq(arg, "--raft") {
            self.take_raft(args, i)
        } else if str_eq(arg, "--srv") {
            self.take_service(args, i)
        } else if str_eq(arg, "--kafka") {
            self.take_kafka(args, i)
        } else if str_eq(arg, "--health") {
            if left < 2 {
                return Err(DAEMON_USAGE.to_owned());
            }
            self.health_bind_address = Some(args[i + 1].clone());
            Ok(i + 2)
        } else if str_eq(arg, "--outbox") {
            if left < 4 {
                return Err(DAEMON_USAGE.to_owned());
            }
            assert(all[i + 2] == args@[i + 2]@ && all[i + 3] == args@[i + 3]@);
            self.outbox_path = Some(args[i + 1].clone());
            self.outbox_segment_id = Some(SegmentId::from(args[i + 2].clone()));
            self.outbox_node_id = Some(NodeId::from(args[i + 3].clone()));
            Ok(i + 4)
        } else if str_eq(arg, "--journal") {
            if left < 2 {
                return Err(DAEMON_USAGE.to_owned());
            }
            self.process_journal_path = Some(args[i + 1].clone());
            Ok(i + 2)
        } else if str_eq(arg, "--writer-interval") {
            if left < 2 {
                return Err(DAEMON_USAGE.to_owned());
            }
            match parse_number(args[i + 1].as_str(), u64::MAX) {
                Some(n) => {
                    self.writer_interval_secs = n;
                    Ok(i + 2)
                },
                None => Err("invalid interval".to_owned()),
            }
        } else if str_eq(arg, "--placement") {
            self.take_placement(args, i)
        } else if starts_with(arg, "--") {
            let mut text = "unknown option ".to_owned();
            push_text(&mut text, arg);
            Err(text)
        } else {
            Ok(i + 1)
        }
    }
}

/// Reads the arguments of the daemon.
pub fn parse_args(args: &Vec<String>) -> (r: Result<SupervisorConfig, String>)
    ensures
        match (daemon_options(views(args@), 0, plain_call()), r) {
            (Ok(c), Ok(config)) => config@ == c,
            (Err(e), Err(text)) => text@ == e,
            _ => false,
        },
{
    let ghost all = views(args@);
    let mut config = SupervisorConfig::default();
    let mut i: usize = 0;
    while i < args.len()
        invariant
            all == views(args@),
            daemon_options(all, 0, plain_call()) == daemon_options(all, i as int, config@),
        decreases
                if i < args.len() {
                    args.len() - i
                } else {
                    0
                },
    {
        i = match config.take_option(args, i) {
            Ok(next) => next,
            Err(e) => return Err(e),
        };
    }
    Ok(config)
}

/// How the ingest runner is called.
pub fn ingest_usage() -> (r: String)
    ensures
        r@ == INGEST_USAGE@,
{
    INGEST_USAGE.to_owned()
}

/// How the daemon is called.
pub fn usage() -> (r: String)
    ensures
        r@ == DAEMON_USAGE@,
{
    DAEMON_USAGE.to_owned()
}

} // verus!
