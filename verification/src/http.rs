//! The HTTP endpoint of the daemon: which request is which, and what it is answered.

use vstd::prelude::*;
use vstd::utf8::encode_utf8;
use crate::background_writer::{BackgroundWriterSnapshot, WriterView};
use crate::index::{ingested, matching_instances, of_pipeline, with_status, IngestOutcome};
use crate::ingest::{empty_field, PipelineEventView};
use crate::ordered::views;
use crate::process::{PipelineId, ProcessInstanceId, ProcessInstanceSnapshot, ProcessView};
use crate::query::{PipelineQuery, ProcessInstanceQuery, ProcessStatusQuery, QueryLimit, QueryResult, QueryResultView};
use crate::query_json::{
    extract_json_string_field, extract_json_u64_field, named_status, number_after, number_field,
    parse_ingest_event_json, posted_event, result_json, serialize_query_result, status_named, string_field,
};
use crate::service::{ServiceView, VannakService, VannakServiceSnapshot};
use crate::text::{
    begins_with, chars_of, contains_text, decimal, found, parse_unsigned, push_decimal, push_text, starts_with, str_eq,
    trim_bounds, trimmed, unsigned_value,
};

verus! {

// ---------------------------------------------------------------------------
// Requests and responses
// ---------------------------------------------------------------------------

/// What a request asks for.
#[derive(Debug, Clone, Copy, PartialEq, Eq)]
pub enum Route {
    /// An event is posted.
    Ingest,
    /// A query is posted.
    Query,
    /// The health is asked for.
    Health,
    /// Anything else.
    NotFound,
}

/// What a request line asks for.
pub open spec fn route_of(line: Seq<char>) -> Route {
    if begins_with(line, "POST /ingest"@) {
        Route::Ingest
    } else if begins_with(line, "POST /query"@) {
        Route::Query
    } else if begins_with(line, "GET /"@) {
        Route::Health
    } else {
        Route::NotFound
    }
}

/// What a request line asks for.
pub fn route(request_line: &str) -> (r: Route)
    ensures
        r == route_of(request_line@),
{
    if starts_with(request_line, "POST /ingest") {
        Route::Ingest
    } else if starts_with(request_line, "POST /query") {
        Route::Query
    } else if starts_with(request_line, "GET /") {
        Route::Health
    } else {
        Route::NotFound
    }
}

/// The number that a header gives for the length of the body.
pub open spec fn header_length(line: Seq<char>) -> Option<usize> {
    match unsigned_value(trimmed(line.skip("Content-Length:"@.len() as int))) {
        Some(n) => if n <= usize::MAX {
            Some(n as usize)
        } else {
            None
        },
        None => None,
    }
}

/// Whether a line ends the headers.
pub open spec fn ends_headers(line: Seq<char>) -> bool {
    line == "\r\n"@ || line.len() == 0
}

/// Takes a header line: whether more follow. The last header that names the length of the
/// body counts.
pub fn take_header(line: &str, content_length: &mut Option<usize>) -> (r: bool)
    ensures
        r == !ends_headers(line@),
        *final(content_length) == (if !ends_headers(line@) && begins_with(line@, "Content-Length:"@) {
            header_length(line@)
        } else {
            *old(content_length)
        }),
{
    let chars = chars_of(line);
    if str_eq(line, "\r\n") || chars.len() == 0 {
        return false;
    }
    if starts_with(line, "Content-Length:") {
        let start: usize = chars_of("Content-Length:").len();
        assert(chars@.subrange(start as int, chars@.len() as int) =~= line@.skip(start as int));
        let (from, to) = trim_bounds(&chars, start, chars.len());
        *content_length = match parse_unsigned(&chars, from, to, usize::MAX as u64) {
            Some(n) => Some(n as usize),
            None => None,
        };
    }
    true
}

/// A response with a status and a JSON body.
pub open spec fn response_text(status: Seq<char>, body: Seq<char>) -> Seq<char> {
    "HTTP/1.1 "@ + status + "\r\nContent-Type: application/json\r\nContent-Length: "@ + decimal(
        encode_utf8(body).len(),
    ) + "\r\nConnection: close\r\n\r\n"@ + body
}

/// A response with a status and a JSON body.
pub fn response(status: &str, body: &str) -> (r: String)
    ensures
        r@ == response_text(status@, body@),
{
    let mut out = "HTTP/1.1 ".to_owned();
    push_text(&mut out, status);
    push_text(&mut out, "\r\nContent-Type: application/json\r\nContent-Length: ");
    push_decimal(&mut out, body.as_bytes().len() as u64);
    push_text(&mut out, "\r\nConnection: close\r\n\r\n");
    push_text(&mut out, body);
    out
}

/// A query that is posted to another node.
pub open spec fn query_request_text(peer: Seq<char>, body: Seq<char>) -> Seq<char> {
    "POST /query HTTP/1.1\r\nHost: "@ + peer + "\r\nContent-Type: application/json\r\nContent-Length: "@ + decimal(
        encode_utf8(body).len(),
    ) + "\r\nConnection: close\r\n\r\n"@ + body
}

/// A query that is posted to another node.
pub fn query_request(peer: &str, body: &str) -> (r: String)
    ensures
        r@ == query_request_text(peer@, body@),
{
    let mut out = "POST /query HTTP/1.1\r\nHost: ".to_owned();
    push_text(&mut out, peer);
    push_text(&mut out, "\r\nContent-Type: application/json\r\nContent-Length: ");
    push_decimal(&mut out, body.as_bytes().len() as u64);
    push_text(&mut out, "\r\nConnection: close\r\n\r\n");
    push_text(&mut out, body);
    out
}

/// What is answered when the service cannot be reached.
pub fn unavailable() -> (r: (&'static str, String))
    ensures
        r.0@ == "503 Service Unavailable"@,
        r.1@ == "{\"error\":\"service unavailable\"}"@,
{
    ("503 Service Unavailable", "{\"error\":\"service unavailable\"}".to_owned())
}

/// What is answered to a request that is not known.
pub fn not_found() -> (r: (&'static str, String))
    ensures
        r.0@ == "404 Not Found"@,
        r.1@ == "{\"error\":\"not found\"}"@,
{
    ("404 Not Found", "{\"error\":\"not found\"}".to_owned())
}

// ---------------------------------------------------------------------------
// Posted events
// ---------------------------------------------------------------------------

/// What a posted event is answered.
pub open spec fn ingest_answer(s: ServiceView, event: Option<PipelineEventView>) -> (Seq<char>, Seq<char>) {
    match event {
        None => ("400 Bad Request"@, "{\"error\":\"invalid event JSON\"}"@),
        Some(e) => match empty_field(e) {
            Some(field) => (
                "400 Bad Request"@,
                "{\"error\":\""@ + ("event field "@ + field + " must not be empty"@) + "\"}"@,
            ),
            None => if s.hot_index.events.contains_key(e.event_id) {
                ("200 OK"@, "{\"status\":\"duplicate\"}"@)
            } else {
                ("200 OK"@, "{\"status\":\"accepted\"}"@)
            },
        },
    }
}

/// Offers a posted event to the service.
pub fn handle_ingest_request(service: &mut VannakService, body: &str, number: &mut u64) -> (r: (&'static str, String))
    ensures
        (r.0@, r.1@) == ingest_answer(old(service)@, posted_event(body@, *old(number))),
        final(service)@ == (match posted_event(body@, *old(number)) {
            Some(e) => ServiceView { hot_index: ingested(old(service)@.hot_index, e), ..old(service)@ },
            None => old(service)@,
        }),
        *final(number) == number_after(body@, *old(number)),
{
    let event = match parse_ingest_event_json(body, number) {
        Some(event) => event,
        None => return ("400 Bad Request", "{\"error\":\"invalid event JSON\"}".to_owned()),
    };
    match service.ingest_process_event(event) {
        Ok(IngestOutcome::Accepted) => ("200 OK", "{\"status\":\"accepted\"}".to_owned()),
        Ok(IngestOutcome::Duplicate) => ("200 OK", "{\"status\":\"duplicate\"}".to_owned()),
        Err(e) => {
            let mut out = "{\"error\":\"".to_owned();
            let text = e.describe();
            push_text(&mut out, text.as_str());
            push_text(&mut out, "\"}");
            ("400 Bad Request", out)
        },
    }
}

// ---------------------------------------------------------------------------
// Posted queries
// ---------------------------------------------------------------------------

/// The limit of a posted query: a hundred where none is given, and at least one.
pub open spec fn posted_limit(body: Seq<char>) -> nat {
    let n: usize = (match number_field(body, "limit"@) {
        Some(n) => n,
        None => 100,
    }) as usize;
    if n == 0 {
        1
    } else {
        n as nat
    }
}

fn limit_of(body: &str) -> (r: QueryLimit)
    ensures
        r@ == posted_limit(body@),
{
    let n: u64 = match extract_json_u64_field(body, "limit") {
        Some(n) => n,
        None => 100,
    };
    QueryLimit::new(
        #[verifier::truncate]
        (n as usize),
    )
}

/// The instances that a posted query asks for: by instance, by pipeline or by status, in
/// this order, where the text names the type and the field.
pub open spec fn queried(s: ServiceView, body: Seq<char>) -> Option<Seq<ProcessView>> {
    let by_instance = string_field(body, "process_instance_id"@);
    let by_pipeline = string_field(body, "pipeline_id"@);
    let by_status = string_field(body, "status"@);
    if found(body, "\"type\":\"ProcessInstance\""@) is Some && by_instance is Some {
        if s.hot_index.processes.contains_key(by_instance->0) {
            Some(seq![s.hot_index.processes[by_instance->0]])
        } else {
            Some(Seq::empty())
        }
    } else if found(body, "\"type\":\"Pipeline\""@) is Some && by_pipeline is Some {
        Some(matching_instances(s.hot_index, of_pipeline(by_pipeline->0), posted_limit(body)))
    } else if found(body, "\"type\":\"ProcessStatus\""@) is Some && by_status is Some {
        Some(matching_instances(s.hot_index, with_status(named_status(by_status->0)), posted_limit(body)))
    } else {
        None
    }
}

/// What a posted query is answered.
pub open spec fn query_answer(s: ServiceView, body: Seq<char>) -> (Seq<char>, Seq<char>) {
    match queried(s, body) {
        Some(items) => ("200 OK"@, result_json(QueryResultView::ProcessInstances(items))),
        None => ("400 Bad Request"@, "{\"error\":\"invalid query\"}"@),
    }
}

/// Answers a posted query.
pub fn handle_query_request(service: &VannakService, body: &str) -> (r: (&'static str, String))
    ensures
        (r.0@, r.1@) == query_answer(service@, body@),
{
    if contains_text(body, "\"type\":\"ProcessInstance\"") {
        if let Some(id) = extract_json_string_field(body, "process_instance_id") {
            let query = ProcessInstanceQuery { process_instance_id: ProcessInstanceId::from(id) };
            let mut items: Vec<ProcessInstanceSnapshot> = Vec::new();
            match service.process_instance(&query) {
                Some(snapshot) => {
                    let ghost view = snapshot@;
                    items.push(snapshot);
                    assert(views(items@) =~= seq![view]);
                },
                None => {
                    assert(views(items@) =~= Seq::<ProcessView>::empty());
                },
            }
            return ("200 OK", serialize_query_result(&QueryResult::ProcessInstances(items)));
        }
    }
    if contains_text(body, "\"type\":\"Pipeline\"") {
        if let Some(id) = extract_json_string_field(body, "pipeline_id") {
            let query = PipelineQuery { pipeline_id: PipelineId::from(id), limit: limit_of(body) };
            return ("200 OK", serialize_query_result(&service.pipeline_instances(&query)));
        }
    }
    if contains_text(body, "\"type\":\"ProcessStatus\"") {
        if let Some(name) = extract_json_string_field(body, "status") {
            let query = ProcessStatusQuery { status: status_named(name.as_str()), limit: limit_of(body) };
            return ("200 OK", serialize_query_result(&service.process_instances_by_status(&query)));
        }
    }
    ("400 Bad Request", "{\"error\":\"invalid query\"}".to_owned())
}

// ---------------------------------------------------------------------------
// Health
// ---------------------------------------------------------------------------

/// The part of the health that tells of the service.
pub open spec fn service_health(s: VannakServiceSnapshot) -> Seq<char> {
    ",\"hot_index\":{\"event_count\":"@ + decimal(s.hot_index.event_count as nat) + ",\"process_instance_count\":"@
        + decimal(s.hot_index.process_instance_count as nat) + ",\"pipeline_count\":"@ + decimal(
        s.hot_index.pipeline_count as nat,
    ) + ",\"duplicate_events\":"@ + decimal(s.hot_index.duplicate_events as nat) + ",\"rejected_events\":"@ + decimal(
        s.hot_index.rejected_events as nat,
    ) + "},\"outbox\":{\"total\":"@ + decimal(s.metadata_outbox.outbox.total as nat) + ",\"pending\":"@ + decimal(
        s.metadata_outbox.outbox.pending as nat,
    ) + ",\"acknowledged\":"@ + decimal(s.metadata_outbox.outbox.acknowledged as nat) + ",\"failed\":"@ + decimal(
        s.metadata_outbox.outbox.failed as nat,
    ) + "},\"provenance\":{\"metadata_event_count\":"@ + decimal(s.provenance_index.metadata_event_count as nat)
        + "},\"placement_epoch\":"@ + decimal(s.placement_epoch@ as nat) + (match s.process_event_journal {
        Some(journal) => ",\"process_event_journal\":{\"record_count\":"@ + decimal(journal.record_count as nat)
            + ",\"byte_len\":"@ + decimal(journal.byte_len as nat) + "}"@,
        None => Seq::empty(),
    })
}

/// The part of the health that tells of the background writer.
pub open spec fn writer_health(w: WriterView) -> Seq<char> {
    ",\"background_writer\":{\"cycles\":"@ + decimal(w.cycles as nat) + ",\"total_acknowledged\":"@ + decimal(
        w.total_acknowledged as nat,
    ) + ",\"total_failed\":"@ + decimal(w.total_failed as nat) + (match w.current_cycle {
        Some(cycle) => ",\"current_cycle\":"@ + decimal(cycle as nat),
        None => Seq::empty(),
    }) + "}"@
}

/// The health: how long the daemon has been up, and, as far as they can be had, the sizes
/// of the service's parts and what the background writer has done.
pub open spec fn health_json(
    service: Option<VannakServiceSnapshot>,
    writer: Option<WriterView>,
    uptime_secs: u64,
) -> Seq<char> {
    "{\"uptime_secs\":"@ + decimal(uptime_secs as nat) + (match service {
        Some(s) => service_health(s),
        None => Seq::empty(),
    }) + (match writer {
        Some(w) => writer_health(w),
        None => Seq::empty(),
    }) + "}"@
}

fn service_text(s: &VannakServiceSnapshot) -> (r: String)
    ensures
        r@ == service_health(*s),
{
    let mut out = ",\"hot_index\":{\"event_count\":".to_owned();
    push_decimal(&mut out, s.hot_index.event_count as u64);
    push_text(&mut out, ",\"process_instance_count\":");
    push_decimal(&mut out, s.hot_index.process_instance_count as u64);
    push_text(&mut out, ",\"pipeline_count\":");
    push_decimal(&mut out, s.hot_index.pipeline_count as u64);
    push_text(&mut out, ",\"duplicate_events\":");
    push_decimal(&mut out, s.hot_index.duplicate_events);
    push_text(&mut out, ",\"rejected_events\":");
    push_decimal(&mut out, s.hot_index.rejected_events);
    push_text(&mut out, "},\"outbox\":{\"total\":");
    push_decimal(&mut out, s.metadata_outbox.outbox.total as u64);
    push_text(&mut out, ",\"pending\":");
    push_decimal(&mut out, s.metadata_outbox.outbox.pending as u64);
    push_text(&mut out, ",\"acknowledged\":");
    push_decimal(&mut out, s.metadata_outbox.outbox.acknowledged as u64);
    push_text(&mut out, ",\"failed\":");
    push_decimal(&mut out, s.metadata_outbox.outbox.failed as u64);
    push_text(&mut out, "},\"provenance\":{\"metadata_event_count\":");
    push_decimal(&mut out, s.provenance_index.metadata_event_count as u64);
    push_text(&mut out, "},\"placement_epoch\":");
    push_decimal(&mut out, s.placement_epoch.0);
    match &s.process_event_journal {
        Some(journal) => {
            let mut part = ",\"process_event_journal\":{\"record_count\":".to_owned();
            push_decimal(&mut part, journal.record_count);
            push_text(&mut part, ",\"byte_len\":");
            push_decimal(&mut part, journal.byte_len);
            push_text(&mut part, "}");
            push_text(&mut out, part.as_str());
        },
        None => {
            assert(out@ + Seq::<char>::empty() =~= out@);
        },
    }
    out
}

fn writer_text(w: &BackgroundWriterSnapshot) -> (r: String)
    ensures
        r@ == writer_health(w@),
{
    let mut out = ",\"background_writer\":{\"cycles\":".to_owned();
    push_decimal(&mut out, w.cycles);
    push_text(&mut out, ",\"total_acknowledged\":");
    push_decimal(&mut out, w.total_acknowledged as u64);
    push_text(&mut out, ",\"total_failed\":");
    push_decimal(&mut out, w.total_failed as u64);
    match w.current_cycle {
        Some(cycle) => {
            let mut part = ",\"current_cycle\":".to_owned();
            push_decimal(&mut part, cycle);
            push_text(&mut out, part.as_str());
        },
        None => {
            assert(out@ + Seq::<char>::empty() =~= out@);
        },
    }
    push_text(&mut out, "}");
    out
}

/// The health as JSON.
pub fn build_health_json(
    service: Option<&VannakServiceSnapshot>,
    background_writer: Option<&BackgroundWriterSnapshot>,
    uptime_secs: u64,
) -> (r: String)
    ensures
        r@ == health_json(
            match service {
                Some(s) => Some(*s),
                None => None,
            },
            match background_writer {
                Some(w) => Some(w@),
                None => None,
            },
            uptime_secs,
        ),
{
    let mut out = "{\"uptime_secs\":".to_owned();
    push_decimal(&mut out, uptime_secs);
    match service {
        Some(s) => {
            let part = service_text(s);
            push_text(&mut out, part.as_str());
        },
        None => {
            assert(out@ + Seq::<char>::empty() =~= out@);
        },
    }
    match background_writer {
        Some(w) => {
            let part = writer_text(w);
            push_text(&mut out, part.as_str());
        },
        None => {
            assert(out@ + Seq::<char>::empty() =~= out@);
        },
    }
    push_text(&mut out, "}");
    out
}

// ---------------------------------------------------------------------------
// Laws
// ---------------------------------------------------------------------------

/// An event that was accepted and is posted again is answered as a duplicate.
pub proof fn law_posted_twice_is_a_duplicate(s: ServiceView, e: PipelineEventView)
    requires
        empty_field(e) is None,
    ensures
        ({
            let after = ServiceView { hot_index: ingested(s.hot_index, e), ..s };
            ingest_answer(after, Some(e)) == ("200 OK"@, "{\"status\":\"duplicate\"}"@)
        }),
{
}

/// A query that does not name its type together with its field is refused, and no other is.
pub proof fn law_unknown_queries_are_refused(s: ServiceView, body: Seq<char>)
    ensures
        query_answer(s, body).0 == "400 Bad Request"@ <==> !(found(body, "\"type\":\"ProcessInstance\""@) is Some
            && string_field(body, "process_instance_id"@) is Some || found(body, "\"type\":\"Pipeline\""@) is Some
            && string_field(body, "pipeline_id"@) is Some || found(body, "\"type\":\"ProcessStatus\""@) is Some
            && string_field(body, "status"@) is Some),
{
    reveal_strlit("200 OK");
    reveal_strlit("400 Bad Request");
    assert("200 OK"@.len() != "400 Bad Request"@.len());
}

/// A request is routed by its first line: what is posted to `/ingest` is an event, what is
/// posted to `/query` a query, what is got is the health, and anything else is not found.
pub proof fn law_routes(line: Seq<char>)
    ensures
        route_of(line) is Ingest ==> begins_with(line, "POST /ingest"@),
        route_of(line) is Query ==> begins_with(line, "POST /query"@) && !begins_with(line, "POST /ingest"@),
        route_of(line) is Health ==> begins_with(line, "GET /"@),
        route_of(line) is NotFound ==> !begins_with(line, "POST /ingest"@) && !begins_with(line, "POST /query"@)
            && !begins_with(line, "GET /"@),
        begins_with(line, "POST /ingest"@) ==> route_of(line) is Ingest,
{
}

/// A posted event is answered by what became of it: text that is no event and an event that
/// lacks a field are bad requests, an event that is known is a duplicate, and any other is
/// accepted.
pub proof fn law_ingest_answers(s: ServiceView, event: Option<PipelineEventView>)
    ensures
        event is None ==> ingest_answer(s, event) == ("400 Bad Request"@, "{\"error\":\"invalid event JSON\"}"@),
        event matches Some(e) ==> {
            &&& empty_field(e) matches Some(field) ==> ingest_answer(s, event) == (
                "400 Bad Request"@,
                "{\"error\":\""@ + ("event field "@ + field + " must not be empty"@) + "\"}"@,
            )
            &&& empty_field(e) is None && s.hot_index.events.contains_key(e.event_id) ==> ingest_answer(s, event) == (
                "200 OK"@,
                "{\"status\":\"duplicate\"}"@,
            )
            &&& empty_field(e) is None && !s.hot_index.events.contains_key(e.event_id) ==> ingest_answer(s, event) == (
                "200 OK"@,
                "{\"status\":\"accepted\"}"@,
            )
        },
{
}

/// A response and a request say how many bytes their body has, and end with it.
pub proof fn law_messages_say_their_length(status: Seq<char>, body: Seq<char>)
    ensures
        response_text(status, body) == "HTTP/1.1 "@ + status
            + "\r\nContent-Type: application/json\r\nContent-Length: "@ + decimal(encode_utf8(body).len())
            + "\r\nConnection: close\r\n\r\n"@ + body,
        query_request_text(status, body) == "POST /query HTTP/1.1\r\nHost: "@ + status
            + "\r\nContent-Type: application/json\r\nContent-Length: "@ + decimal(encode_utf8(body).len())
            + "\r\nConnection: close\r\n\r\n"@ + body,
{
}

/// A query without a limit may have a hundred answers, and one with a limit of zero one.
pub proof fn law_posted_limits(body: Seq<char>)
    ensures
        number_field(body, "limit"@) is None ==> posted_limit(body) == 100,
        number_field(body, "limit"@) == Some(0u64) ==> posted_limit(body) == 1,
        number_field(body, "limit"@) matches Some(n) ==> 0 < n <= u32::MAX ==> posted_limit(body) == n,
{
}

/// A query for one instance tells of that one, and of none where it is not known; a query by
/// pipeline or by status tells of instances of that pipeline or status only.
pub proof fn law_queries_tell_what_is_asked(s: ServiceView, body: Seq<char>)
    ensures
        found(body, "\"type\":\"ProcessInstance\""@) is Some && string_field(body, "process_instance_id"@) is Some ==> {
            let id = string_field(body, "process_instance_id"@)->0;
            &&& s.hot_index.processes.contains_key(id) ==> queried(s, body) == Some(seq![s.hot_index.processes[id]])
            &&& !s.hot_index.processes.contains_key(id) ==> queried(s, body) == Some(Seq::<ProcessView>::empty())
        },
        !(found(body, "\"type\":\"ProcessInstance\""@) is Some && string_field(body, "process_instance_id"@) is Some)
            && found(body, "\"type\":\"Pipeline\""@) is Some && string_field(body, "pipeline_id"@) is Some ==> {
            let pipeline = string_field(body, "pipeline_id"@)->0;
            queried(s, body) == Some(matching_instances(s.hot_index, of_pipeline(pipeline), posted_limit(body)))
        },
        !(found(body, "\"type\":\"ProcessInstance\""@) is Some && string_field(body, "process_instance_id"@) is Some)
            && !(found(body, "\"type\":\"Pipeline\""@) is Some && string_field(body, "pipeline_id"@) is Some) && found(
            body,
            "\"type\":\"ProcessStatus\""@,
        ) is Some && string_field(body, "status"@) is Some ==> {
            let status = named_status(string_field(body, "status"@)->0);
            queried(s, body) == Some(matching_instances(s.hot_index, with_status(status), posted_limit(body)))
        },
{
}

} // verus!
