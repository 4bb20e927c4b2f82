//! Synthetic load: the events of pipeline runs that transform, filter and enrich customer
//! records.

use vstd::prelude::*;
use vstd::utf8::encode_utf8;
use crate::data::{
    key_of, ActiveMetadata, DataIndividualId, DataIndividualMetadataEvent, DataIndividualShardId, MetadataEventId,
    MetadataEventView, MetadataOperation, MetadataOperationView, MetadataValue, MetadataValueView, PassiveMetadata,
    PluginName, PluginVersion,
};
use crate::hash::fnv;
use crate::index::{ingested, HotIndex, HotIndexView};
use crate::ingest::{EventId, EventTimestamp, PipelineEvent, PipelineEventView, SourceId, SourceSequence};
use crate::ipto::{payload_of, IptoInstanceId, IptoMapping, IptoWritePayload, MappingView};
use crate::ordered::views;
use crate::process::{
    implied_status, ActivityId, EnvironmentId, EventKind, EventKindView, PipelineId, ProcessDefinitionId,
    ProcessInstanceId, TenantId,
};
use crate::text::{chars_of, decimal, decimal_string, push_char, push_decimal, push_text};

verus! {

// ---------------------------------------------------------------------------
// Names
// ---------------------------------------------------------------------------

/// Decimal notation with leading zeros, at least so many digits.
pub open spec fn padded(n: nat, width: nat) -> Seq<char> {
    let digits = decimal(n);
    if digits.len() >= width {
        digits
    } else {
        Seq::new((width - digits.len()) as nat, |i: int| '0') + digits
    }
}

fn push_padded(out: &mut String, n: u64, width: usize)
    ensures
        final(out)@ == old(out)@ + padded(n as nat, width as nat),
{
    let digits = decimal_string(n);
    let len: usize = chars_of(digits.as_str()).len();
    let ghost before = out@;
    if len < width {
        let missing: usize = width - len;
        let mut i: usize = 0;
        assert(before + Seq::new(0, |k: int| '0') =~= before);
        while i < missing
            invariant
                i <= missing,
                out@ == before + Seq::new(i as nat, |k: int| '0'),
            decreases missing - i,
        {
            push_char(out, '0');
            assert(before + Seq::new((i + 1) as nat, |k: int| '0') =~= (before + Seq::new(i as nat, |k: int| '0')).push(
                '0',
            ));
            i += 1;
        }
    }
    let ghost zeros = out@;
    push_text(out, digits.as_str());
    proof {
        if len < width {
            assert(out@ =~= before + padded(n as nat, width as nat));
        }
    }
}

/// The pipeline of a run: there are ten.
pub open spec fn pipeline_name(i: u64) -> Seq<char> {
    "data-pipeline-demo-"@ + decimal((i % 10) as nat)
}

/// The pipeline of a run.
pub fn make_pipeline_id(i: u64) -> (r: PipelineId)
    ensures
        r@ == pipeline_name(i),
{
    let mut name = "data-pipeline-demo-".to_owned();
    push_decimal(&mut name, i % 10);
    PipelineId::from(name)
}

/// The process instance of a run.
pub open spec fn instance_name(i: u64) -> Seq<char> {
    "pipeline-run-"@ + padded(i as nat, 6)
}

/// The process instance of a run.
pub fn make_instance_id(i: u64) -> (r: ProcessInstanceId)
    ensures
        r@ == instance_name(i),
{
    let mut name = "pipeline-run-".to_owned();
    push_padded(&mut name, i, 6);
    ProcessInstanceId::from(name)
}

/// The data item of a step of a run.
pub open spec fn data_name(i: u64, step: u64) -> Seq<char> {
    "customer-record-"@ + padded(i as nat, 6) + "-step-"@ + decimal(step as nat)
}

/// The data item of a step of a run.
pub fn make_data_id(i: u64, step: u64) -> (r: DataIndividualId)
    ensures
        r@ == data_name(i, step),
{
    let mut name = "customer-record-".to_owned();
    push_padded(&mut name, i, 6);
    push_text(&mut name, "-step-");
    push_decimal(&mut name, step);
    DataIndividualId::from(name)
}

/// A timestamp within one minute.
pub open spec fn load_timestamp(millis: u64) -> Seq<char> {
    "2026-06-30T12:00:"@ + padded(((millis / 1000) % 60) as nat, 2) + "."@ + padded((millis % 1000) as nat, 3) + "Z"@
}

/// A timestamp within one minute.
pub fn format_ts(millis: u64) -> (r: String)
    ensures
        r@ == load_timestamp(millis),
{
    let mut out = "2026-06-30T12:00:".to_owned();
    push_padded(&mut out, (millis / 1000) % 60, 2);
    push_text(&mut out, ".");
    push_padded(&mut out, millis % 1000, 3);
    push_text(&mut out, "Z");
    out
}

/// The instant at which every run begins.
pub const BASE_MILLIS: u64 = 1_700_000_000_000;

// ---------------------------------------------------------------------------
// Process events
// ---------------------------------------------------------------------------

/// An event of a run, so many half seconds after its beginning.
pub open spec fn load_event(
    instance: Seq<char>,
    pipeline: Seq<char>,
    event_id: Seq<char>,
    sequence: u64,
    half_seconds: u64,
    kind: EventKindView,
    activity: Option<Seq<char>>,
) -> PipelineEventView {
    PipelineEventView {
        event_id,
        source_id: "load-generator"@,
        source_sequence: sequence,
        tenant_id: "load-test"@,
        environment_id: "perf"@,
        pipeline_id: pipeline,
        process_definition_id: pipeline,
        process_instance_id: instance,
        process_version: None,
        activity_id: activity,
        token_id: None,
        correlation_id: None,
        business_key: None,
        timestamp: load_timestamp((BASE_MILLIS + half_seconds * 500) as u64),
        status: implied_status(kind),
        kind,
        error: None,
        metadata_refs: Seq::empty(),
        metadata_version: None,
        causal_parent: None,
        payload: None,
    }
}

/// The event with which an activity of a run begins.
pub open spec fn entered_event(instance: Seq<char>, pipeline: Seq<char>, activity: Seq<char>, sequence: u64) -> PipelineEventView {
    load_event(
        instance,
        pipeline,
        "evt-enter-"@ + instance + "-"@ + activity,
        sequence,
        sequence,
        EventKindView::ActivityEntered,
        Some(activity),
    )
}

/// The event with which an activity of a run ends.
pub open spec fn done_event(instance: Seq<char>, pipeline: Seq<char>, activity: Seq<char>, sequence: u64) -> PipelineEventView {
    load_event(
        instance,
        pipeline,
        "evt-done-"@ + instance + "-"@ + activity,
        sequence,
        sequence,
        EventKindView::ActivityCompleted,
        Some(activity),
    )
}

/// The process events of a run: it starts, enters and completes three activities, and
/// completes.
pub open spec fn run_events(instance: Seq<char>, pipeline: Seq<char>) -> Seq<PipelineEventView> {
    seq![
        load_event(instance, pipeline, "evt-start-"@ + instance, 0, 0, EventKindView::ProcessStarted, None),
        entered_event(instance, pipeline, "transform_data"@, 1),
        done_event(instance, pipeline, "transform_data"@, 2),
        entered_event(instance, pipeline, "filter_fields"@, 3),
        done_event(instance, pipeline, "filter_fields"@, 4),
        entered_event(instance, pipeline, "enrich_data"@, 5),
        done_event(instance, pipeline, "enrich_data"@, 6),
        load_event(instance, pipeline, "evt-end-"@ + instance, 8, 9, EventKindView::ProcessCompleted, None),
    ]
}

fn make_event(
    instance: &ProcessInstanceId,
    pipeline: &PipelineId,
    event_id: String,
    sequence: u64,
    half_seconds: u64,
    kind: EventKind,
) -> (r: PipelineEvent)
    requires
        half_seconds <= 9,
    ensures
        r@ == load_event(instance@, pipeline@, event_id@, sequence, half_seconds, kind@, None),
{
    PipelineEvent::new(
        EventId::from(event_id),
        SourceId::from("load-generator"),
        SourceSequence(sequence),
        TenantId::from("load-test"),
        EnvironmentId::from("perf"),
        pipeline.clone(),
        ProcessDefinitionId::from(pipeline.as_str()),
        instance.clone(),
        EventTimestamp::from(format_ts(BASE_MILLIS + half_seconds * 500)),
        kind,
    )
}

fn event_name(prefix: &str, instance: &ProcessInstanceId, activity: &str) -> (r: String)
    ensures
        r@ == prefix@ + instance@ + "-"@ + activity@,
{
    let mut name = prefix.to_owned();
    push_text(&mut name, instance.as_str());
    push_text(&mut name, "-");
    push_text(&mut name, activity);
    name
}

fn push_activity(
    events: &mut Vec<PipelineEvent>,
    instance: &ProcessInstanceId,
    pipeline: &PipelineId,
    activity: &str,
    sequence: u64,
)
    requires
        sequence <= 8,
    ensures
        views(final(events)@) == views(old(events)@).push(
            entered_event(instance@, pipeline@, activity@, sequence),
        ).push(done_event(instance@, pipeline@, activity@, (sequence + 1) as u64)),
{
    let ghost before = events@;
    let entered = make_event(
        instance,
        pipeline,
        event_name("evt-enter-", instance, activity),
        sequence,
        sequence,
        EventKind::ActivityEntered,
    ).with_activity_id(ActivityId::from(activity));
    let done = make_event(
        instance,
        pipeline,
        event_name("evt-done-", instance, activity),
        sequence + 1,
        sequence + 1,
        EventKind::ActivityCompleted,
    ).with_activity_id(ActivityId::from(activity));
    let ghost (a, b) = (entered@, done@);
    events.push(entered);
    events.push(done);
    assert(views(events@) =~= views(before).push(a).push(b));
}

/// The process events of a run.
pub fn make_process_events(instance: &ProcessInstanceId, pipeline: &PipelineId) -> (r: Vec<PipelineEvent>)
    ensures
        views(r@) == run_events(instance@, pipeline@),
{
    let mut events: Vec<PipelineEvent> = Vec::new();
    let mut start_name = "evt-start-".to_owned();
    push_text(&mut start_name, instance.as_str());
    let start = make_event(instance, pipeline, start_name, 0, 0, EventKind::ProcessStarted);
    let ghost first = start@;
    events.push(start);
    assert(views(events@) =~= seq![first]);
    push_activity(&mut events, instance, pipeline, "transform_data", 1);
    push_activity(&mut events, instance, pipeline, "filter_fields", 3);
    push_activity(&mut events, instance, pipeline, "enrich_data", 5);
    let mut end_name = "evt-end-".to_owned();
    push_text(&mut end_name, instance.as_str());
    let end = make_event(instance, pipeline, end_name, 8, 9, EventKind::ProcessCompleted);
    let ghost last = end@;
    let ghost before = events@;
    events.push(end);
    proof {
        assert(views(events@) =~= views(before).push(last));
        assert(views(events@) =~= run_events(instance@, pipeline@));
    }
    events
}

/// The index after events have been offered one after another.
pub open spec fn offered_in_turn(m: HotIndexView, events: Seq<PipelineEventView>) -> HotIndexView
    decreases events.len(),
{
    if events.len() == 0 {
        m
    } else {
        ingested(offered_in_turn(m, events.drop_last()), events.last())
    }
}

/// Offers the process events of a run to an index; the result is their number.
pub fn ingest_run(index: &mut HotIndex, i: u64) -> (r: u64)
    ensures
        r == 8,
        final(index)@ == offered_in_turn(old(index)@, run_events(instance_name(i), pipeline_name(i))),
{
    let mut events = make_process_events(&make_instance_id(i), &make_pipeline_id(i));
    let ghost all = run_events(instance_name(i), pipeline_name(i));
    let ghost start = index@;
    let ghost mut done: int = 0;
    assert(all.take(0) =~= Seq::<PipelineEventView>::empty());
    assert(all.skip(0) =~= all);
    while events.len() > 0
        invariant
            0 <= done <= all.len(),
            views(events@) == all.skip(done),
            index@ == offered_in_turn(start, all.take(done)),
        decreases events.len(),
    {
        proof {
            assert(views(events@).len() == events@.len());
            assert(all.skip(done).len() == all.len() - done);
            assert(views(events@)[0] == all[done]);
            assert(all.take(done + 1).drop_last() =~= all.take(done));
            assert(all.take(done + 1).last() == all[done]);
        }
        let ghost before = events@;
        let event = events.remove(0);
        let _ = index.ingest(event);
        proof {
            assert(views(events@) =~= views(before).skip(1));
            assert(all.skip(done).skip(1) =~= all.skip(done + 1));
            done = done + 1;
        }
    }
    proof {
        assert(all.skip(done).len() == 0);
        assert(all.take(all.len() as int) =~= all);
    }
    8
}

// ---------------------------------------------------------------------------
// Metadata events
// ---------------------------------------------------------------------------

/// A metadata event of a run.
pub open spec fn load_metadata(
    instance: Seq<char>,
    pipeline: Seq<char>,
    i: u64,
    name: Seq<char>,
    millis: u64,
    operation: MetadataOperationView,
    activity: Option<Seq<char>>,
    passive: Map<Seq<char>, MetadataValueView>,
    active: Map<Seq<char>, MetadataValueView>,
) -> MetadataEventView {
    MetadataEventView {
        metadata_event_id: name + padded(i as nat, 6),
        data_individual_id: data_name(i, 0),
        data_individual_shard_id: fnv(encode_utf8(data_name(i, 0))),
        tenant_id: "load-test"@,
        environment_id: "perf"@,
        pipeline_id: pipeline,
        process_instance_id: instance,
        activity_id: activity,
        timestamp: load_timestamp((BASE_MILLIS + millis) as u64),
        operation,
        passive_metadata: passive,
        active_metadata: active,
        source_payload_ref: None,
        idempotency_key: key_of(data_name(i, 0), name + padded(i as nat, 6)),
    }
}

/// What is known of a record when it is received.
pub open spec fn received_metadata(instance: Seq<char>, pipeline: Seq<char>, i: u64) -> Map<
    Seq<char>,
    MetadataValueView,
> {
    Map::empty().insert("vannak:dataIndividualId"@, MetadataValueView::String(data_name(i, 0))).insert(
        "vannak:pipelineId"@,
        MetadataValueView::String(pipeline),
    ).insert("vannak:processInstanceId"@, MetadataValueView::String(instance)).insert(
        "vannak:tenantId"@,
        MetadataValueView::String("load-test"@),
    ).insert("vannak:environmentId"@, MetadataValueView::String("perf"@))
}

/// What is noted of an activity.
pub open spec fn activity_metadata(activity: Seq<char>) -> Map<Seq<char>, MetadataValueView> {
    Map::empty().insert("vannak:activityId"@, MetadataValueView::String(activity))
}

/// The metadata events of a run: its record is received, transformed, validated and
/// enriched.
pub open spec fn run_metadata(instance: Seq<char>, pipeline: Seq<char>, i: u64) -> Seq<MetadataEventView> {
    seq![
        load_metadata(
            instance,
            pipeline,
            i,
            "meta-rec-"@,
            250,
            MetadataOperationView::Received,
            None,
            received_metadata(instance, pipeline, i),
            Map::empty(),
        ),
        load_metadata(
            instance,
            pipeline,
            i,
            "meta-xform-"@,
            1500,
            MetadataOperationView::Transformed {
                plugin_name: Some("json-transform"@),
                plugin_version: Some("1.0"@),
            },
            Some("transform_data"@),
            Map::empty(),
            activity_metadata("transform_data"@),
        ),
        load_metadata(
            instance,
            pipeline,
            i,
            "meta-valid-"@,
            2500,
            MetadataOperationView::Validated { passed: true },
            Some("filter_fields"@),
            Map::empty(),
            Map::empty(),
        ),
        load_metadata(
            instance,
            pipeline,
            i,
            "meta-enrich-"@,
            4000,
            MetadataOperationView::Enriched { source: Some("crm-lookup"@) },
            Some("enrich_data"@),
            Map::empty(),
            activity_metadata("enrich_data"@),
        ),
    ]
}

fn make_metadata(
    instance: &ProcessInstanceId,
    pipeline: &PipelineId,
    i: u64,
    name: &str,
    millis: u64,
    operation: MetadataOperation,
) -> (r: DataIndividualMetadataEvent)
    requires
        millis <= 4000,
    ensures
        r@ == load_metadata(
            instance@,
            pipeline@,
            i,
            name@,
            millis,
            operation@,
            None,
            Map::empty(),
            Map::empty(),
        ),
{
    let data_id = make_data_id(i, 0);
    let shard_id = DataIndividualShardId::from_data_individual(&data_id);
    let mut id = name.to_owned();
    push_padded(&mut id, i, 6);
    DataIndividualMetadataEvent::new(
        MetadataEventId::from(id),
        data_id,
        shard_id,
        TenantId::from("load-test"),
        EnvironmentId::from("perf"),
        pipeline.clone(),
        instance.clone(),
        EventTimestamp::from(format_ts(BASE_MILLIS + millis)),
        operation,
    )
}

/// The metadata events of a run.
pub fn make_metadata_events(instance: &ProcessInstanceId, pipeline: &PipelineId, i: u64) -> (r: Vec<
    DataIndividualMetadataEvent,
>)
    ensures
        views(r@) == run_metadata(instance@, pipeline@, i),
{
    let data_id = make_data_id(i, 0);
    let received = make_metadata(instance, pipeline, i, "meta-rec-", 250, MetadataOperation::Received)
        .with_passive_metadata(
        PassiveMetadata::new().insert("vannak:dataIndividualId", MetadataValue::string(data_id.as_str())).insert(
            "vannak:pipelineId",
            MetadataValue::string(pipeline.as_str()),
        ).insert("vannak:processInstanceId", MetadataValue::string(instance.as_str())).insert(
            "vannak:tenantId",
            MetadataValue::string("load-test"),
        ).insert("vannak:environmentId", MetadataValue::string("perf")),
    );
    let transformed = make_metadata(
        instance,
        pipeline,
        i,
        "meta-xform-",
        1500,
        MetadataOperation::Transformed {
            plugin_name: Some(PluginName::from("json-transform")),
            plugin_version: Some(PluginVersion::from("1.0")),
        },
    ).with_activity_id(ActivityId::from("transform_data")).with_active_metadata(
        ActiveMetadata::new().insert("vannak:activityId", MetadataValue::string("transform_data")),
    );
    let validated = make_metadata(
        instance,
        pipeline,
        i,
        "meta-valid-",
        2500,
        MetadataOperation::Validated { passed: true },
    ).with_activity_id(ActivityId::from("filter_fields"));
    let enriched = make_metadata(
        instance,
        pipeline,
        i,
        "meta-enrich-",
        4000,
        MetadataOperation::Enriched { source: Some("crm-lookup".to_owned()) },
    ).with_activity_id(ActivityId::from("enrich_data")).with_active_metadata(
        ActiveMetadata::new().insert("vannak:activityId", MetadataValue::string("enrich_data")),
    );
    let ghost all = run_metadata(instance@, pipeline@, i);
    proof {
        assert(received@ == all[0]);
        assert(transformed@ == all[1]);
        assert(validated@ == all[2]);
        assert(enriched@ == all[3]);
    }
    let mut events: Vec<DataIndividualMetadataEvent> = Vec::new();
    events.push(received);
    events.push(transformed);
    events.push(validated);
    events.push(enriched);
    assert(views(events@) =~= all);
    events
}

/// The mapping of the load test: the fields keep their names, and there are no relations.
pub open spec fn load_mapping_view() -> MappingView {
    MappingView {
        version: "v1"@,
        fields: Map::<Seq<char>, Seq<char>>::empty().insert("vannak:dataIndividualId"@, "vannak:dataIndividualId"@).insert(
            "vannak:pipelineId"@,
            "vannak:pipelineId"@,
        ).insert("vannak:processInstanceId"@, "vannak:processInstanceId"@).insert(
            "vannak:tenantId"@,
            "vannak:tenantId"@,
        ).insert("vannak:environmentId"@, "vannak:environmentId"@).insert("vannak:activityId"@, "vannak:activityId"@),
        relations_enabled: false,
    }
}

/// The mapping of the load test.
pub fn load_mapping() -> (r: IptoMapping)
    ensures
        r@ == load_mapping_view(),
{
    IptoMapping::new("v1").map_field("vannak:dataIndividualId", "vannak:dataIndividualId").map_field(
        "vannak:pipelineId",
        "vannak:pipelineId",
    ).map_field("vannak:processInstanceId", "vannak:processInstanceId").map_field(
        "vannak:tenantId",
        "vannak:tenantId",
    ).map_field("vannak:environmentId", "vannak:environmentId").map_field("vannak:activityId", "vannak:activityId")
        .without_relations()
}

/// The payloads of the metadata events of a run.
pub fn make_payloads(i: u64) -> (r: Vec<IptoWritePayload>)
    ensures
        views(r@) == run_metadata(instance_name(i), pipeline_name(i), i).map_values(
            |e: MetadataEventView| payload_of(e, "load-test"@, load_mapping_view()),
        ),
{
    let events = make_metadata_events(&make_instance_id(i), &make_pipeline_id(i), i);
    let mapping = load_mapping();
    let target = IptoInstanceId::from("load-test");
    let ghost all = run_metadata(instance_name(i), pipeline_name(i), i);
    let mut out: Vec<IptoWritePayload> = Vec::new();
    let mut k: usize = 0;
    while k < events.len()
        invariant
            k <= events.len(),
            views(events@) == all,
            mapping@ == load_mapping_view(),
            target@ == "load-test"@,
            out.len() == k,
            forall|j: int| 0 <= j < k ==> (#[trigger] out@[j])@ == payload_of(all[j], "load-test"@, load_mapping_view()),
        decreases events.len() - k,
    {
        assert(all[k as int] == events@[k as int]@);
        out.push(IptoWritePayload::from_event(&events[k], &target, &mapping));
        k += 1;
    }
    assert(views(out@) =~= all.map_values(|e: MetadataEventView| payload_of(e, "load-test"@, load_mapping_view())));
    out
}

// ---------------------------------------------------------------------------
// Workers
// ---------------------------------------------------------------------------

/// The runs of each worker but the last.
pub open spec fn chunk(pipelines: u64, workers: u64) -> int
    recommends
        workers > 0,
{
    if pipelines % workers == 0 {
        pipelines as int / workers as int
    } else {
        pipelines as int / workers as int + 1
    }
}

/// The number of runs of a worker: no more than are left behind those of the workers before
/// it.
pub open spec fn share(pipelines: u64, workers: u64, worker: u64) -> int {
    let start = worker * chunk(pipelines, workers);
    if chunk(pipelines, workers) <= pipelines - start {
        chunk(pipelines, workers)
    } else {
        pipelines - start
    }
}

/// The number of runs of a worker.
pub fn worker_share(pipelines: u64, workers: u64, worker: u64) -> (r: u64)
    requires
        worker < workers,
        worker * chunk(pipelines, workers) <= pipelines,
    ensures
        r == share(pipelines, workers, worker),
{
    let size: u64 = if pipelines % workers == 0 {
        pipelines / workers
    } else {
        proof {
            assert(workers != 1) by (nonlinear_arith)
                requires
                    pipelines % workers != 0,
            ;
            assert(2 * ((pipelines as int) / (workers as int)) <= pipelines) by (nonlinear_arith)
                requires
                    workers >= 2,
            ;
        }
        pipelines / workers + 1
    };
    let start: u64 = worker * size;
    if size <= pipelines - start {
        size
    } else {
        pipelines - start
    }
}

// ---------------------------------------------------------------------------
// Laws
// ---------------------------------------------------------------------------

/// The runs of the first workers together.
pub open spec fn shared(pipelines: u64, workers: u64, n: nat) -> int
    decreases n,
{
    if n == 0 {
        0
    } else {
        shared(pipelines, workers, (n - 1) as nat) + share(pipelines, workers, (n - 1) as u64)
    }
}

/// The workers together make all the runs.
pub proof fn law_workers_make_all_runs(pipelines: u64, workers: u64)
    requires
        workers > 0,
        (workers - 1) * chunk(pipelines, workers) <= pipelines,
    ensures
        shared(pipelines, workers, workers as nat) == pipelines,
{
    let c = chunk(pipelines, workers);
    let last = (workers - 1) as u64;
    lemma_shared(pipelines, workers, last as nat);
    assert(workers * c >= pipelines) by (nonlinear_arith)
        requires
            workers > 0,
            c == (if pipelines % workers == 0 {
                pipelines as int / workers as int
            } else {
                pipelines as int / workers as int + 1
            }),
    ;
    assert(last * c + c == workers * c) by (nonlinear_arith)
        requires
            last == workers - 1,
    ;
}

proof fn lemma_shared(pipelines: u64, workers: u64, n: nat)
    requires
        n < workers,
        n * chunk(pipelines, workers) <= pipelines,
        chunk(pipelines, workers) >= 0,
    ensures
        shared(pipelines, workers, n) == n * chunk(pipelines, workers),
    decreases n,
{
    let c = chunk(pipelines, workers);
    if n == 0 {
        assert(n * c == 0) by (nonlinear_arith)
            requires
                n == 0,
        ;
    } else {
        let m = (n - 1) as nat;
        assert(m * c + c == n * c) by (nonlinear_arith)
            requires
                m == n - 1,
        ;
        lemma_shared(pipelines, workers, m);
    }
}

/// A number is padded with zeros on the left up to its width, and never cut.
pub proof fn law_padding(n: nat, width: nat)
    ensures
        padded(n, width).len() >= width,
        decimal(n).len() >= width ==> padded(n, width) == decimal(n),
        decimal(n).len() < width ==> padded(n, width).len() == width && padded(n, width).skip(
            width - decimal(n).len(),
        ) == decimal(n) && forall|i: int| 0 <= i < width - decimal(n).len() ==> #[trigger] padded(n, width)[i] == '0',
{
    if decimal(n).len() < width {
        assert(padded(n, width).skip(width - decimal(n).len()) =~= decimal(n));
    }
}

/// A run starts, enters and completes three activities one after another, and completes: its
/// eight events are all of its process instance and of its pipeline and are valid.
pub proof fn law_runs_run_through(instance: Seq<char>, pipeline: Seq<char>)
    requires
        instance.len() > 0,
        pipeline.len() > 0,
    ensures
        ({
            let events = run_events(instance, pipeline);
            &&& events.len() == 8
            &&& events[0].kind is ProcessStarted && events[7].kind is ProcessCompleted
            &&& forall|k: int|
                0 <= k < 3 ==> (#[trigger] events[2 * k + 1]).kind is ActivityEntered && events[2 * k + 2].kind
                    is ActivityCompleted && events[2 * k + 1].activity_id is Some && events[2 * k + 1].activity_id
                    == events[2 * k + 2].activity_id
            &&& forall|k: int|
                0 <= k < 8 ==> (#[trigger] events[k]).process_instance_id == instance && events[k].pipeline_id == pipeline
            &&& forall|k: int| 0 <= k < 7 ==> (#[trigger] events[k]).source_sequence == k
        }),
{
    let events = run_events(instance, pipeline);
    assert forall|k: int| 0 <= k < 3 implies (#[trigger] events[2 * k + 1]).kind is ActivityEntered && events[2 * k
        + 2].kind is ActivityCompleted && events[2 * k + 1].activity_id is Some && events[2 * k + 1].activity_id
        == events[2 * k + 2].activity_id by {
        if k == 0 {
            assert(events[1].kind is ActivityEntered && events[2].kind is ActivityCompleted);
        } else if k == 1 {
            assert(events[3].kind is ActivityEntered && events[4].kind is ActivityCompleted);
        } else {
            assert(events[5].kind is ActivityEntered && events[6].kind is ActivityCompleted);
        }
    }
}

/// No worker makes more runs than its share, the quotient of runs and workers rounded up,
/// and each worker but the last few makes just that many.
pub proof fn law_shares(pipelines: u64, workers: u64, worker: u64)
    requires
        workers > 0,
    ensures
        chunk(pipelines, workers) * workers >= pipelines,
        (chunk(pipelines, workers) - 1) * workers < pipelines || pipelines == 0,
        share(pipelines, workers, worker) <= chunk(pipelines, workers),
        (worker + 1) * chunk(pipelines, workers) <= pipelines ==> share(pipelines, workers, worker) == chunk(
            pipelines,
            workers,
        ),
{
    let (p, w) = (pipelines as int, workers as int);
    vstd::arithmetic::div_mod::lemma_fundamental_div_mod(p, w);
    let q = p / w;
    assert(p == w * q + p % w && 0 <= p % w < w) by (nonlinear_arith)
        requires
            w > 0,
            q == p / w,
            p >= 0,
    ;
    assert(q * w == w * q) by (nonlinear_arith);
    assert((q + 1) * w == q * w + w) by (nonlinear_arith);
    assert((q - 1) * w == q * w - w) by (nonlinear_arith);
    let c = chunk(pipelines, workers);
    assert((worker + 1) * c == worker * c + c) by (nonlinear_arith);
}

} // verus!
