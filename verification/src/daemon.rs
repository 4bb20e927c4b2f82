//! The daemon: its settings, the state that its threads share, and what it starts with.

use vstd::prelude::*;
use crate::background_writer::{BackgroundWriterConfig, BackgroundWriterSnapshot};
use crate::cli::SupervisorConfig;
use crate::cluster::{
    applied, empty_control, latest_map, ClusterControlCommand, ClusterControlState, CommandView, ControlView, NodeId,
};
use crate::control_error::ControlErrorView;
use crate::discovery::SegmentDiscoveryResult;
use crate::ipto::{IptoInstanceId, IptoMapping, MappingView};
use crate::ordered::{lemma_listing_exists, lemma_listing_len, sorted, stable_sort, views};
use crate::placement::{
    overlap_from, placement, IptoPlacementMap, IptoPlacementRange, IptoPlacementSlot, PlacementEpoch, PlacementMapView,
    RangeView, SlotView,
};
use crate::service::{sizes_of, ServiceView, VannakService, VannakServiceSnapshot};
use crate::storage::SegmentId;

pub use crate::background_writer::{drain_targets, WriterView};
pub use crate::discovery::{discover_segments, FoundFile};
pub use crate::fanout::{
    fanout_pipeline_query, fanout_process_instance_query, fanout_process_status_query, ClusterQueryConfig,
    ClusterQueryResult, PeerReply,
};
pub use crate::http::{build_health_json, handle_ingest_request, handle_query_request};
pub use crate::rebalance::{
    detect_placement_change, rebalance_after_placement_change, PlacementChange, RebalanceMonitor,
    RebalanceMonitorConfig, RebalanceOutcome,
};

verus! {

/// Settings of the HTTP endpoint; times are in milliseconds.
#[derive(Debug, Clone, PartialEq, Eq)]
pub struct DaemonConfig {
    /// The address to listen on.
    pub bind_address: String,
    /// The longest time to wait for a request.
    pub read_timeout_millis: u64,
}

impl Default for DaemonConfig {
    fn default() -> (r: Self)
        ensures
            r.bind_address@ == "127.0.0.1:9090"@,
            r.read_timeout_millis == 10_000,
    {
        DaemonConfig { bind_address: "127.0.0.1:9090".to_owned(), read_timeout_millis: 10_000 }
    }
}

/// Snapshot of the daemon.
#[derive(Debug, Clone, PartialEq, Eq)]
pub struct DaemonSnapshot {
    pub service: VannakServiceSnapshot,
    pub background_writer: Option<BackgroundWriterSnapshot>,
    pub segment_discovery: Option<Vec<SegmentDiscoveryResult>>,
    pub uptime_secs: u64,
}

/// The state of the daemon that its threads share.
pub struct Daemon {
    service: VannakService,
    config: DaemonConfig,
    writer_config: BackgroundWriterConfig,
    stopping: bool,
}

/// The view of the daemon.
pub struct DaemonView {
    pub service: ServiceView,
    pub config: DaemonConfig,
    pub writer_config: BackgroundWriterConfig,
    pub stopping: bool,
}

impl View for Daemon {
    type V = DaemonView;

    closed spec fn view(&self) -> DaemonView {
        DaemonView {
            service: self.service@,
            config: self.config,
            writer_config: self.writer_config,
            stopping: self.stopping,
        }
    }
}

impl Daemon {
    /// A daemon around a service.
    pub fn new(service: VannakService, config: DaemonConfig, writer_config: BackgroundWriterConfig) -> (r: Self)
        ensures
            r@ == (DaemonView { service: service@, config, writer_config, stopping: false }),
    {
        Daemon { service, config, writer_config, stopping: false }
    }

    /// The service.
    pub fn service(&self) -> (r: &VannakService)
        ensures
            r@ == self@.service,
    {
        &self.service
    }

    /// The service, to be changed.
    pub fn service_mut(&mut self) -> (r: &mut VannakService)
        ensures
            r@ == old(self)@.service,
            final(self)@ == (DaemonView { service: final(r)@, ..old(self)@ }),
    {
        &mut self.service
    }

    /// The settings of the HTTP endpoint.
    pub fn config(&self) -> (r: &DaemonConfig)
        ensures
            *r == self@.config,
    {
        &self.config
    }

    /// The settings of the background writer.
    pub fn writer_config(&self) -> (r: BackgroundWriterConfig)
        ensures
            r == self@.writer_config,
    {
        self.writer_config
    }

    /// Asks all threads to stop.
    pub fn stop(&mut self)
        ensures
            final(self)@ == (DaemonView { stopping: true, ..old(self)@ }),
    {
        self.stopping = true;
    }

    /// Whether the threads are to stop.
    pub fn is_stopping(&self) -> (r: bool)
        ensures
            r == self@.stopping,
    {
        self.stopping
    }

    /// Snapshot of the daemon.
    pub fn snapshot(&self, background_writer: &Option<BackgroundWriterSnapshot>, uptime_secs: u64) -> (r: DaemonSnapshot)
        ensures
            sizes_of(r.service, self@.service),
            match (r.background_writer, *background_writer) {
                (Some(a), Some(b)) => a@ == b@,
                (None, None) => true,
                _ => false,
            },
            r.segment_discovery is None,
            r.uptime_secs == uptime_secs,
    {
        DaemonSnapshot {
            service: self.service.snapshot(),
            background_writer: match background_writer {
                Some(w) => Some(w.clone()),
                None => None,
            },
            segment_discovery: None,
            uptime_secs,
        }
    }
}

// ---------------------------------------------------------------------------
// What the daemon starts with
// ---------------------------------------------------------------------------

/// The placement where none is given: a single target.
pub open spec fn single_placement() -> PlacementMapView {
    placement(1, seq![SlotView { instance: "ipto-default"@, vnodes: 1 }], Seq::empty())
}

/// The placement where none is given.
pub fn default_placement() -> (r: Result<IptoPlacementMap, String>)
    ensures
        r matches Ok(map) && map@ == single_placement(),
{
    let slot = match IptoPlacementSlot::new(IptoInstanceId::from("ipto-default"), 1) {
        Ok(slot) => slot,
        Err(e) => return Err(e.describe()),
    };
    let ghost view = slot@;
    let mut slots: Vec<IptoPlacementSlot> = Vec::new();
    slots.push(slot);
    let none: Vec<IptoPlacementRange> = Vec::new();
    proof {
        assert(views(slots@) =~= seq![view]);
        assert(views(none@) =~= Seq::<RangeView>::empty());
        reveal_with_fuel(stable_sort, 2);
        reveal_with_fuel(overlap_from, 2);
    }
    match IptoPlacementMap::new(PlacementEpoch(1), slots, none) {
        Ok(map) => Ok(map),
        Err(e) => Err(e.describe()),
    }
}

/// The mapping of the daemon.
pub open spec fn daemon_mapping_view() -> MappingView {
    MappingView {
        version: "v1"@,
        fields: Map::<Seq<char>, Seq<char>>::empty().insert("vannak:dataIndividualId"@, "vannak:dataIndividualId"@).insert(
            "vannak:processInstanceId"@,
            "vannak:processInstanceId"@,
        ).insert("vannak:activityId"@, "vannak:activityId"@),
        relations_enabled: true,
    }
}

/// The mapping of the daemon.
pub fn daemon_mapping() -> (r: IptoMapping)
    ensures
        r@ == daemon_mapping_view(),
{
    IptoMapping::new("v1").map_field("vannak:dataIndividualId", "vannak:dataIndividualId").map_field(
        "vannak:processInstanceId",
        "vannak:processInstanceId",
    ).map_field("vannak:activityId", "vannak:activityId")
}

/// The identity of the outbox segment: what was given, or a default.
pub fn outbox_identity(config: &SupervisorConfig) -> (r: (SegmentId, NodeId))
    ensures
        r.0@ == (match config@.outbox_segment_id {
            Some(id) => id,
            None => "default-outbox"@,
        }),
        r.1@ == (match config@.outbox_node_id {
            Some(id) => id,
            None => "vannak"@,
        }),
{
    let segment_id = match &config.outbox_segment_id {
        Some(id) => id.clone(),
        None => SegmentId::from("default-outbox"),
    };
    let node_id = match &config.outbox_node_id {
        Some(id) => id.clone(),
        None => NodeId::from("vannak"),
    };
    (segment_id, node_id)
}

/// The settings of the HTTP endpoint and of the background writer.
pub fn daemon_settings(config: &SupervisorConfig) -> (r: (DaemonConfig, BackgroundWriterConfig))
    ensures
        r.0.bind_address@ == (match config@.health_bind_address {
            Some(address) => address,
            None => "127.0.0.1:9090"@,
        }),
        r.0.read_timeout_millis == 10_000,
        r.1.interval_millis == (if config@.writer_interval_secs <= u64::MAX / 1000 {
            (config@.writer_interval_secs * 1000) as u64
        } else {
            u64::MAX
        }),
        r.1.max_drain_attempts_per_target == 100,
        !r.1.verbose,
{
    let bind_address = match &config.health_bind_address {
        Some(address) => address.clone(),
        None => "127.0.0.1:9090".to_owned(),
    };
    let interval_millis: u64 = if config.writer_interval_secs <= u64::MAX / 1000 {
        config.writer_interval_secs * 1000
    } else {
        u64::MAX
    };
    (
        DaemonConfig { bind_address, read_timeout_millis: 10_000 },
        BackgroundWriterConfig { interval_millis, max_drain_attempts_per_target: 100, verbose: false },
    )
}

proof fn lemma_no_maps()
    ensures
        latest_map(Map::<u64, PlacementMapView>::empty()) is None,
{
    let dom = Map::<u64, PlacementMapView>::empty().dom();
    assert(dom =~= Set::<u64>::empty());
    lemma_listing_exists::<PlacementEpoch>(dom);
    lemma_listing_len::<PlacementEpoch>(sorted::<PlacementEpoch>(dom), dom);
}

/// The control state of a node that starts alone: it knows itself and the default placement.
pub fn initial_control(node_id: NodeId) -> (r: Result<ClusterControlState, String>)
    ensures
        r matches Ok(state) && applied(
            ControlView { nodes: Set::empty().insert(node_id@), ..empty_control() },
            CommandView::SetIptoPlacementMap(single_placement()),
        ) == Ok::<ControlView, ControlErrorView>(state@),
{
    proof {
        lemma_no_maps();
    }
    let mut state = ClusterControlState::new();
    match state.apply(ClusterControlCommand::AddNode(node_id)) {
        Ok(()) => {},
        Err(e) => return Err(e.describe()),
    }
    let map = match default_placement() {
        Ok(map) => map,
        Err(e) => return Err(e),
    };
    match state.apply(ClusterControlCommand::SetIptoPlacementMap(map)) {
        Ok(()) => Ok(state),
        Err(e) => Err(e.describe()),
    }
}

// ---------------------------------------------------------------------------
// Laws
// ---------------------------------------------------------------------------

/// A daemon without a placement of its own places every shard on one instance.
pub proof fn law_single_placement(shard: u64)
    ensures
        crate::placement::owner(single_placement(), shard) == Some("ipto-default"@),
        single_placement().epoch == 1,
{
    let slots = seq![SlotView { instance: "ipto-default"@, vnodes: 1 }];
    assert(slots[0].vnodes > 0);
    let r = crate::placement::law_nearest_virtual_node_owns(slots, shard);
    assert(crate::placement::placement_refusal(slots, Seq::empty()) is None) by {
        reveal_with_fuel(crate::ordered::stable_sort, 1);
    }
    crate::placement::law_overrides_are_exact(1, slots, Seq::empty(), shard, 0);
}

/// A daemon maps a data individual, its process instance and its activity under their own
/// names, and keeps the relation to the activity.
pub proof fn law_daemon_mapping()
    ensures
        daemon_mapping_view().version == "v1"@,
        daemon_mapping_view().relations_enabled,
        daemon_mapping_view().fields.contains_key("vannak:activityId"@)
            && daemon_mapping_view().fields["vannak:activityId"@] == "vannak:activityId"@,
        forall|f: Seq<char>| #[trigger]
            daemon_mapping_view().fields.contains_key(f) ==> daemon_mapping_view().fields[f] == f && (f
                == "vannak:dataIndividualId"@ || f == "vannak:processInstanceId"@ || f == "vannak:activityId"@),
        daemon_mapping_view().fields.contains_key("vannak:dataIndividualId"@),
        daemon_mapping_view().fields.contains_key("vannak:processInstanceId"@),
{
}

} // verus!
