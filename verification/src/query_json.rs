//! The JSON that nodes exchange: posted events, queries and their results.
//!
//! Fields are looked up by their names where they stand first in the text; values are taken
//! up to the next quote and are not unescaped.

use vstd::prelude::*;
use crate::data::{DataIndividualMetadataEvent, MetadataEventView, MetadataOperation, MetadataOperationView};
use crate::ingest::{EventId, EventTimestamp, PipelineEvent, PipelineEventView, SourceId, SourceSequence};
use crate::metadata::{MetadataRef, MetadataRefView};
use crate::ordered::{views, SortedMap};
use crate::process::{
    implied_status, ActivityId, EnvironmentId, EventKind, EventKindView, PipelineId, ProcessDefinitionId,
    ProcessInstanceId, ProcessInstanceSnapshot, ProcessStatus, ProcessView, TenantId,
};
use crate::query::{QueryResult, QueryResultView};
use crate::text::{
    chars_of, decimal, digits_value, find_in, found, is_digit, lemma_found_from, parse_unsigned, push_decimal,
    push_text, stands_in, str_eq, text_of, trim_bounds, trimmed,
};

verus! {

// ---------------------------------------------------------------------------
// Fields
// ---------------------------------------------------------------------------

/// What stands behind the first place of a text in another one.
pub open spec fn behind(s: Seq<char>, part: Seq<char>) -> Option<Seq<char>> {
    match found(s, part) {
        Some(i) => Some(s.skip(i + part.len())),
        None => None,
    }
}

/// The value of a text field.
pub open spec fn string_field(json: Seq<char>, field: Seq<char>) -> Option<Seq<char>> {
    match behind(json, "\""@ + field + "\":\""@) {
        None => None,
        Some(after) => match found(after, "\""@) {
            Some(end) => Some(after.take(end)),
            None => None,
        },
    }
}

/// The digits in front of a text.
pub open spec fn leading_digits(s: Seq<char>) -> Seq<char>
    decreases s.len(),
{
    if s.len() > 0 && is_digit(s[0]) {
        seq![s[0]] + leading_digits(s.skip(1))
    } else {
        Seq::empty()
    }
}

/// The value of a number field, if it is a 64-bit number.
pub open spec fn number_field(json: Seq<char>, field: Seq<char>) -> Option<u64> {
    match behind(json, "\""@ + field + "\":"@) {
        None => None,
        Some(after) => {
            let digits = leading_digits(after);
            if digits.len() > 0 && digits_value(digits) <= u64::MAX {
                Some(digits_value(digits) as u64)
            } else {
                None
            }
        },
    }
}

fn find_behind(chars: &Vec<char>, from: usize, part: &str) -> (r: Option<usize>)
    requires
        from <= chars.len(),
    ensures
        match (r, behind(chars@.skip(from as int), part@)) {
            (Some(i), Some(rest)) => from <= i <= chars.len() && chars@.skip(i as int) == rest,
            (None, None) => true,
            _ => false,
        },
{
    assert(chars@.subrange(from as int, chars@.len() as int) =~= chars@.skip(from as int));
    proof {
        lemma_found_from(chars@.skip(from as int), part@, 0);
    }
    match find_in(chars, from, chars.len(), part) {
        Some(i) => {
            let part_len: usize = chars_of(part).len();
            assert(chars@.skip(from as int).skip(i - from + part@.len()) =~= chars@.skip(i + part@.len()));
            Some(i + part_len)
        },
        None => None,
    }
}

fn find_quote(chars: &Vec<char>, from: usize) -> (r: Option<usize>)
    requires
        from <= chars.len(),
    ensures
        match (r, found(chars@.skip(from as int), "\""@)) {
            (Some(i), Some(k)) => i == from + k && from <= i < chars.len(),
            (None, None) => true,
            _ => false,
        },
{
    assert(chars@.subrange(from as int, chars@.len() as int) =~= chars@.skip(from as int));
    proof {
        reveal_strlit("\"");
        lemma_found_from(chars@.skip(from as int), "\""@, 0);
    }
    find_in(chars, from, chars.len(), "\"")
}

/// The value of a text field.
pub fn extract_json_string_field(json: &str, field: &str) -> (r: Option<String>)
    ensures
        match (r, string_field(json@, field@)) {
            (Some(text), Some(value)) => text@ == value,
            (None, None) => true,
            _ => false,
        },
{
    let mut pattern = "\"".to_owned();
    push_text(&mut pattern, field);
    push_text(&mut pattern, "\":\"");
    let chars = chars_of(json);
    assert(chars@.skip(0) =~= json@);
    let start: usize = match find_behind(&chars, 0, pattern.as_str()) {
        Some(start) => start,
        None => return None,
    };
    let end: usize = match find_quote(&chars, start) {
        Some(end) => end,
        None => return None,
    };
    assert(chars@.subrange(start as int, end as int) =~= chars@.skip(start as int).take(end - start));
    Some(text_of(&chars, start, end))
}

/// The digits in front of a text end where another character stands.
pub proof fn lemma_leading_digits(s: Seq<char>, n: int)
    requires
        0 <= n <= s.len(),
        forall|i: int| 0 <= i < n ==> is_digit(#[trigger] s[i]),
        n < s.len() ==> !is_digit(s[n]),
    ensures
        leading_digits(s) == s.take(n),
    decreases s.len(),
{
    if n > 0 {
        assert(is_digit(s[0]));
        assert forall|i: int| 0 <= i < n - 1 implies is_digit(#[trigger] s.skip(1)[i]) by {
            assert(is_digit(s[i + 1]));
        }
        lemma_leading_digits(s.skip(1), n - 1);
        assert(seq![s[0]] + s.skip(1).take(n - 1) =~= s.take(n));
    } else {
        assert(s.take(0) =~= Seq::<char>::empty());
    }
}

/// The value of a number field.
pub fn extract_json_u64_field(json: &str, field: &str) -> (r: Option<u64>)
    ensures
        r == number_field(json@, field@),
{
    let mut pattern = "\"".to_owned();
    push_text(&mut pattern, field);
    push_text(&mut pattern, "\":");
    let chars = chars_of(json);
    assert(chars@.skip(0) =~= json@);
    let start: usize = match find_behind(&chars, 0, pattern.as_str()) {
        Some(start) => start,
        None => return None,
    };
    let mut end: usize = start;
    while end < chars.len() && '0' <= chars[end] && chars[end] <= '9'
        invariant
            start <= end <= chars.len(),
            forall|i: int| start <= i < end ==> is_digit(#[trigger] chars@[i]),
        decreases chars.len() - end,
    {
        end += 1;
    }
    let ghost after = chars@.skip(start as int);
    let ghost digits = chars@.subrange(start as int, end as int);
    proof {
        assert forall|i: int| 0 <= i < end - start implies is_digit(#[trigger] after[i]) by {
            assert(is_digit(chars@[start + i]));
        }
        lemma_leading_digits(after, end - start);
        assert(after.take(end - start) =~= digits);
        assert(digits.len() > 0 ==> digits[0] == chars@[start as int] && is_digit(digits[0]));
        assert forall|i: int| 0 <= i < digits.len() implies is_digit(#[trigger] digits[i]) by {
            assert(is_digit(chars@[start + i]));
        }
    }
    parse_unsigned(&chars, start, end, u64::MAX)
}

// ---------------------------------------------------------------------------
// Posted events
// ---------------------------------------------------------------------------

/// The event kind with a name; where there is none, an activity is entered.
pub open spec fn posted_kind(name: Seq<char>) -> EventKindView {
    if name == "ProcessStarted"@ {
        EventKindView::ProcessStarted
    } else if name == "ProcessCompleted"@ {
        EventKindView::ProcessCompleted
    } else if name == "ProcessFailed"@ {
        EventKindView::ProcessFailed
    } else if name == "ActivityEntered"@ {
        EventKindView::ActivityEntered
    } else if name == "ActivityCompleted"@ {
        EventKindView::ActivityCompleted
    } else if name == "ActivityCancelled"@ {
        EventKindView::ActivityCancelled
    } else if name == "ActivityEscalated"@ {
        EventKindView::ActivityEscalated
    } else if name == "GatewayTaken"@ {
        EventKindView::GatewayTaken
    } else {
        EventKindView::ActivityEntered
    }
}

fn kind_named(name: &str) -> (r: EventKind)
    ensures
        r@ == posted_kind(name@),
{
    if str_eq(name, "ProcessStarted") {
        EventKind::ProcessStarted
    } else if str_eq(name, "ProcessCompleted") {
        EventKind::ProcessCompleted
    } else if str_eq(name, "ProcessFailed") {
        EventKind::ProcessFailed
    } else if str_eq(name, "ActivityEntered") {
        EventKind::ActivityEntered
    } else if str_eq(name, "ActivityCompleted") {
        EventKind::ActivityCompleted
    } else if str_eq(name, "ActivityCancelled") {
        EventKind::ActivityCancelled
    } else if str_eq(name, "ActivityEscalated") {
        EventKind::ActivityEscalated
    } else if str_eq(name, "GatewayTaken") {
        EventKind::GatewayTaken
    } else {
        EventKind::ActivityEntered
    }
}

/// The value of a text field, or another text where it is missing.
pub open spec fn field_or(json: Seq<char>, field: Seq<char>, other: Seq<char>) -> Seq<char> {
    match string_field(json, field) {
        Some(value) => value,
        None => other,
    }
}

fn field_or_else(json: &str, field: &str, other: &str) -> (r: String)
    ensures
        r@ == field_or(json@, field@, other@),
{
    match extract_json_string_field(json, field) {
        Some(value) => value,
        None => other.to_owned(),
    }
}

/// The event that was posted: an instance, a pipeline and a kind must be named; an event
/// without a name is numbered.
pub open spec fn posted_event(json: Seq<char>, number: u64) -> Option<PipelineEventView> {
    match (
        string_field(json, "process_instance_id"@),
        string_field(json, "pipeline_id"@),
        string_field(json, "kind"@),
    ) {
        (Some(instance), Some(pipeline), Some(kind)) => Some(
            PipelineEventView {
                event_id: field_or(json, "event_id"@, "ingest-"@ + decimal(number as nat)),
                source_id: "daemon-http"@,
                source_sequence: 0,
                tenant_id: field_or(json, "tenant_id"@, "demo"@),
                environment_id: field_or(json, "environment_id"@, "demo"@),
                pipeline_id: pipeline,
                process_definition_id: "demo-definition"@,
                process_instance_id: instance,
                process_version: None,
                activity_id: string_field(json, "activity_id"@),
                token_id: None,
                correlation_id: None,
                business_key: None,
                timestamp: field_or(json, "timestamp"@, "1970-01-01T00:00:00Z"@),
                status: implied_status(posted_kind(kind)),
                kind: posted_kind(kind),
                error: None,
                metadata_refs: Seq::empty(),
                metadata_version: None,
                causal_parent: None,
                payload: None,
            },
        ),
        _ => None,
    }
}

/// The next number for events without a name, after one was posted.
pub open spec fn number_after(json: Seq<char>, number: u64) -> u64 {
    if posted_event(json, number) is Some && string_field(json, "event_id"@) is None {
        if number == u64::MAX {
            0
        } else {
            (number + 1) as u64
        }
    } else {
        number
    }
}

/// The event that was posted.
pub fn parse_ingest_event_json(json: &str, number: &mut u64) -> (r: Option<PipelineEvent>)
    ensures
        match (r, posted_event(json@, *old(number))) {
            (Some(event), Some(view)) => event@ == view,
            (None, None) => true,
            _ => false,
        },
        *final(number) == number_after(json@, *old(number)),
{
    let instance = match extract_json_string_field(json, "process_instance_id") {
        Some(value) => value,
        None => return None,
    };
    let pipeline = match extract_json_string_field(json, "pipeline_id") {
        Some(value) => value,
        None => return None,
    };
    let kind_name = match extract_json_string_field(json, "kind") {
        Some(value) => value,
        None => return None,
    };
    let kind = kind_named(kind_name.as_str());
    let event_id = match extract_json_string_field(json, "event_id") {
        Some(value) => value,
        None => {
            let mut name = "ingest-".to_owned();
            push_decimal(&mut name, *number);
            *number = if *number == u64::MAX {
                0
            } else {
                *number + 1
            };
            name
        },
    };
    let event = PipelineEvent::new(
        EventId::from(event_id),
        SourceId::from("daemon-http"),
        SourceSequence(0),
        TenantId::from(field_or_else(json, "tenant_id", "demo")),
        EnvironmentId::from(field_or_else(json, "environment_id", "demo")),
        PipelineId::from(pipeline),
        ProcessDefinitionId::from("demo-definition"),
        ProcessInstanceId::from(instance),
        EventTimestamp::from(field_or_else(json, "timestamp", "1970-01-01T00:00:00Z")),
        kind,
    );
    match extract_json_string_field(json, "activity_id") {
        Some(activity) => Some(event.with_activity_id(ActivityId::from(activity))),
        None => Some(event),
    }
}

// ---------------------------------------------------------------------------
// Names
// ---------------------------------------------------------------------------

/// The text that the standard library's `Debug` gives for a string: the string in quotes,
/// with escapes.
pub uninterp spec fn debug_text(s: Seq<char>) -> Seq<char>;

/// Calls the `Debug` implementation of `str` in the standard library. Its result depends on
/// the string alone; which characters it escapes is not said.
#[verifier::external_body]
fn std_debug(text: &str) -> (r: String)
    ensures
        r@ == debug_text(text@),
{
    format!("{:?}", text)
}

/// The name of a status.
pub open spec fn status_name(status: ProcessStatus) -> Seq<char> {
    match status {
        ProcessStatus::Unknown => "Unknown"@,
        ProcessStatus::Active => "Active"@,
        ProcessStatus::Completed => "Completed"@,
        ProcessStatus::Failed => "Failed"@,
        ProcessStatus::Cancelled => "Cancelled"@,
    }
}

/// The name of a status.
pub fn name_of_status(status: ProcessStatus) -> (r: &'static str)
    ensures
        r@ == status_name(status),
{
    match status {
        ProcessStatus::Unknown => "Unknown",
        ProcessStatus::Active => "Active",
        ProcessStatus::Completed => "Completed",
        ProcessStatus::Failed => "Failed",
        ProcessStatus::Cancelled => "Cancelled",
    }
}

/// The status with a name; where there is none, the instance is active.
pub open spec fn named_status(name: Seq<char>) -> ProcessStatus {
    if name == "Active"@ {
        ProcessStatus::Active
    } else if name == "Completed"@ {
        ProcessStatus::Completed
    } else if name == "Failed"@ {
        ProcessStatus::Failed
    } else if name == "Cancelled"@ {
        ProcessStatus::Cancelled
    } else {
        ProcessStatus::Active
    }
}

/// The status with a name.
pub fn status_named(name: &str) -> (r: ProcessStatus)
    ensures
        r == named_status(name@),
{
    if str_eq(name, "Active") {
        ProcessStatus::Active
    } else if str_eq(name, "Completed") {
        ProcessStatus::Completed
    } else if str_eq(name, "Failed") {
        ProcessStatus::Failed
    } else if str_eq(name, "Cancelled") {
        ProcessStatus::Cancelled
    } else {
        ProcessStatus::Active
    }
}

/// The name of an event kind.
pub open spec fn kind_name(kind: EventKindView) -> Seq<char> {
    match kind {
        EventKindView::ProcessStarted => "ProcessStarted"@,
        EventKindView::ActivityEntered => "ActivityEntered"@,
        EventKindView::ActivityCompleted => "ActivityCompleted"@,
        EventKindView::ActivityEscalated => "ActivityEscalated"@,
        EventKindView::ActivityCancelled => "ActivityCancelled"@,
        EventKindView::GatewayTaken => "GatewayTaken"@,
        EventKindView::ProcessCompleted => "ProcessCompleted"@,
        EventKindView::ProcessFailed => "ProcessFailed"@,
        EventKindView::Unknown(name) => "Unknown("@ + debug_text(name) + ")"@,
    }
}

fn push_kind(out: &mut String, kind: &EventKind)
    ensures
        final(out)@ == old(out)@ + kind_name(kind@),
{
    match kind {
        EventKind::ProcessStarted => push_text(out, "ProcessStarted"),
        EventKind::ActivityEntered => push_text(out, "ActivityEntered"),
        EventKind::ActivityCompleted => push_text(out, "ActivityCompleted"),
        EventKind::ActivityEscalated => push_text(out, "ActivityEscalated"),
        EventKind::ActivityCancelled => push_text(out, "ActivityCancelled"),
        EventKind::GatewayTaken => push_text(out, "GatewayTaken"),
        EventKind::ProcessCompleted => push_text(out, "ProcessCompleted"),
        EventKind::ProcessFailed => push_text(out, "ProcessFailed"),
        EventKind::Unknown(name) => {
            let mut text = "Unknown(".to_owned();
            let shown = std_debug(name.as_str());
            push_text(&mut text, shown.as_str());
            push_text(&mut text, ")");
            push_text(out, text.as_str());
        },
    }
}

/// An optional text in a wrapper, as it is shown.
pub open spec fn shown_option(value: Option<Seq<char>>, open: Seq<char>, close: Seq<char>) -> Seq<char> {
    match value {
        Some(text) => "Some("@ + open + debug_text(text) + close + ")"@,
        None => "None"@,
    }
}

fn push_option(out: &mut String, value: Option<&str>, open: &str, close: &str)
    ensures
        final(out)@ == old(out)@ + shown_option(
            match value {
                Some(text) => Some(text@),
                None => None,
            },
            open@,
            close@,
        ),
{
    match value {
        None => push_text(out, "None"),
        Some(text) => {
            let mut shown = "Some(".to_owned();
            let quoted = std_debug(text);
            push_text(&mut shown, open);
            push_text(&mut shown, quoted.as_str());
            push_text(&mut shown, close);
            push_text(&mut shown, ")");
            push_text(out, shown.as_str());
        },
    }
}

/// Texts with commas between them, as they are shown.
pub open spec fn shown_items(items: Seq<Seq<char>>) -> Seq<char>
    decreases items.len(),
{
    if items.len() == 0 {
        Seq::empty()
    } else if items.len() == 1 {
        debug_text(items[0])
    } else {
        shown_items(items.drop_last()) + ", "@ + debug_text(items.last())
    }
}

fn shown_texts(items: &Vec<String>) -> (r: String)
    ensures
        r@ == shown_items(views(items@)),
{
    let ghost all = views(items@);
    let mut out = String::new();
    let mut i: usize = 0;
    assert(all.take(0) =~= Seq::<Seq<char>>::empty());
    while i < items.len()
        invariant
            i <= items.len(),
            all == views(items@),
            out@ == shown_items(all.take(i as int)),
        decreases items.len() - i,
    {
        let ghost longer = all.take(i + 1);
        assert(longer.drop_last() =~= all.take(i as int));
        assert(longer.last() == items@[i as int]@);
        let quoted = std_debug(items[i].as_str());
        if i > 0 {
            push_text(&mut out, ", ");
            push_text(&mut out, quoted.as_str());
        } else {
            assert(longer[0] == items@[0]@);
            out = quoted;
        }
        i += 1;
    }
    assert(all.take(items.len() as int) =~= all);
    out
}

/// An operation, as it is shown.
pub open spec fn operation_name(operation: MetadataOperationView) -> Seq<char> {
    match operation {
        MetadataOperationView::Created => "Created"@,
        MetadataOperationView::Received => "Received"@,
        MetadataOperationView::Transformed { plugin_name, plugin_version } => "Transformed { plugin_name: "@
            + shown_option(plugin_name, "PluginName("@, ")"@) + ", plugin_version: "@ + shown_option(
            plugin_version,
            "PluginVersion("@,
            ")"@,
        ) + " }"@,
        MetadataOperationView::Masked { fields } => "Masked { fields: ["@ + shown_items(fields) + "] }"@,
        MetadataOperationView::Validated { passed } => if passed {
            "Validated { passed: true }"@
        } else {
            "Validated { passed: false }"@
        },
        MetadataOperationView::Enriched { source } => "Enriched { source: "@ + shown_option(source, ""@, ""@) + " }"@,
        MetadataOperationView::Routed => "Routed"@,
        MetadataOperationView::Persisted => "Persisted"@,
    }
}

fn shown_operation(operation: &MetadataOperation) -> (r: String)
    ensures
        r@ == operation_name(operation@),
{
    match operation {
        MetadataOperation::Created => "Created".to_owned(),
        MetadataOperation::Received => "Received".to_owned(),
        MetadataOperation::Transformed { plugin_name, plugin_version } => {
            let mut out = "Transformed { plugin_name: ".to_owned();
            let name = match plugin_name {
                Some(name) => Some(name.as_str()),
                None => None,
            };
            push_option(&mut out, name, "PluginName(", ")");
            push_text(&mut out, ", plugin_version: ");
            let version = match plugin_version {
                Some(version) => Some(version.as_str()),
                None => None,
            };
            push_option(&mut out, version, "PluginVersion(", ")");
            push_text(&mut out, " }");
            out
        },
        MetadataOperation::Masked { fields } => {
            let mut out = "Masked { fields: [".to_owned();
            let shown = shown_texts(fields);
            push_text(&mut out, shown.as_str());
            push_text(&mut out, "] }");
            out
        },
        MetadataOperation::Validated { passed } => if *passed {
            "Validated { passed: true }".to_owned()
        } else {
            "Validated { passed: false }".to_owned()
        },
        MetadataOperation::Enriched { source } => {
            let mut out = "Enriched { source: ".to_owned();
            let text = match source {
                Some(text) => Some(text.as_str()),
                None => None,
            };
            push_option(&mut out, text, "", "");
            push_text(&mut out, " }");
            out
        },
        MetadataOperation::Routed => "Routed".to_owned(),
        MetadataOperation::Persisted => "Persisted".to_owned(),
    }
}

// ---------------------------------------------------------------------------
// Results
// ---------------------------------------------------------------------------

/// Texts with commas between them.
pub open spec fn joined(items: Seq<Seq<char>>) -> Seq<char>
    decreases items.len(),
{
    if items.len() == 0 {
        Seq::empty()
    } else if items.len() == 1 {
        items[0]
    } else {
        joined(items.drop_last()) + ","@ + items.last()
    }
}

fn join(items: &Vec<String>) -> (r: String)
    ensures
        r@ == joined(views(items@)),
{
    let ghost all = views(items@);
    let mut out = String::new();
    let mut i: usize = 0;
    assert(all.take(0) =~= Seq::<Seq<char>>::empty());
    while i < items.len()
        invariant
            i <= items.len(),
            all == views(items@),
            out@ == joined(all.take(i as int)),
        decreases items.len() - i,
    {
        let ghost longer = all.take(i + 1);
        assert(longer.drop_last() =~= all.take(i as int));
        assert(longer.last() == items@[i as int]@);
        if i > 0 {
            push_text(&mut out, ",");
            push_text(&mut out, items[i].as_str());
        } else {
            assert(longer[0] == items@[0]@);
            out = items[0].clone();
        }
        i += 1;
    }
    assert(all.take(items.len() as int) =~= all);
    out
}

/// A process instance in a result.
pub open spec fn instance_json(p: ProcessView) -> Seq<char> {
    "{\"process_instance_id\":\""@ + p.process_instance_id + "\",\"pipeline_id\":\""@ + p.pipeline_id
        + "\",\"status\":\""@ + status_name(p.status) + "\"}"@
}

fn instance_text(p: &ProcessInstanceSnapshot) -> (r: String)
    ensures
        r@ == instance_json(p@),
{
    let mut out = "{\"process_instance_id\":\"".to_owned();
    push_text(&mut out, p.process_instance_id.as_str());
    push_text(&mut out, "\",\"pipeline_id\":\"");
    push_text(&mut out, p.pipeline_id.as_str());
    push_text(&mut out, "\",\"status\":\"");
    push_text(&mut out, name_of_status(p.status));
    push_text(&mut out, "\"}");
    out
}

/// A process event in a result.
pub open spec fn event_json(e: PipelineEventView) -> Seq<char> {
    "{\"event_id\":\""@ + e.event_id + "\",\"pipeline_id\":\""@ + e.pipeline_id
        + "\",\"process_instance_id\":\""@ + e.process_instance_id + "\",\"kind\":\""@ + kind_name(e.kind) + "\"}"@
}

fn event_text(e: &PipelineEvent) -> (r: String)
    ensures
        r@ == event_json(e@),
{
    let mut out = "{\"event_id\":\"".to_owned();
    push_text(&mut out, e.event_id().as_str());
    push_text(&mut out, "\",\"pipeline_id\":\"");
    push_text(&mut out, e.pipeline_id().as_str());
    push_text(&mut out, "\",\"process_instance_id\":\"");
    push_text(&mut out, e.process_instance_id().as_str());
    push_text(&mut out, "\",\"kind\":\"");
    push_kind(&mut out, &e.kind());
    push_text(&mut out, "\"}");
    out
}

/// A metadata event in a result.
pub open spec fn metadata_event_json(e: MetadataEventView) -> Seq<char> {
    "{\"metadata_event_id\":\""@ + e.metadata_event_id + "\",\"data_individual_id\":\""@ + e.data_individual_id
        + "\",\"operation\":\""@ + operation_name(e.operation) + "\"}"@
}

fn metadata_event_text(e: &DataIndividualMetadataEvent) -> (r: String)
    ensures
        r@ == metadata_event_json(e@),
{
    let mut out = "{\"metadata_event_id\":\"".to_owned();
    push_text(&mut out, e.metadata_event_id().as_str());
    push_text(&mut out, "\",\"data_individual_id\":\"");
    push_text(&mut out, e.data_individual_id().as_str());
    push_text(&mut out, "\",\"operation\":\"");
    let operation = shown_operation(e.operation());
    push_text(&mut out, operation.as_str());
    push_text(&mut out, "\"}");
    out
}

/// The JSON of a result.
pub open spec fn result_json(r: QueryResultView) -> Seq<char> {
    match r {
        QueryResultView::ProcessInstances(items) => "{\"type\":\"ProcessInstances\",\"instance\":["@ + joined(
            items.map_values(|p: ProcessView| instance_json(p)),
        ) + "]}"@,
        QueryResultView::Events(items) => "{\"type\":\"Events\",\"events\":["@ + joined(
            items.map_values(|e: PipelineEventView| event_json(e)),
        ) + "]}"@,
        QueryResultView::MetadataEvents(items) => "{\"type\":\"MetadataEvents\",\"events\":["@ + joined(
            items.map_values(|e: MetadataEventView| metadata_event_json(e)),
        ) + "]}"@,
    }
}

/// The JSON of a result.
pub fn serialize_query_result(result: &QueryResult) -> (r: String)
    ensures
        r@ == result_json(result@),
{
    let mut texts: Vec<String> = Vec::new();
    let mut i: usize = 0;
    match result {
        QueryResult::ProcessInstances(items) => {
            while i < items.len()
                invariant
                    i <= items.len(),
                    texts.len() == i,
                    forall|j: int| 0 <= j < i ==> (#[trigger] texts@[j])@ == instance_json(items@[j]@),
                decreases items.len() - i,
            {
                texts.push(instance_text(&items[i]));
                i += 1;
            }
            assert(views(texts@) =~= views(items@).map_values(|p: ProcessView| instance_json(p)));
            let mut out = "{\"type\":\"ProcessInstances\",\"instance\":[".to_owned();
            let list = join(&texts);
            push_text(&mut out, list.as_str());
            push_text(&mut out, "]}");
            out
        },
        QueryResult::Events(items) => {
            while i < items.len()
                invariant
                    i <= items.len(),
                    texts.len() == i,
                    forall|j: int| 0 <= j < i ==> (#[trigger] texts@[j])@ == event_json(items@[j]@),
                decreases items.len() - i,
            {
                texts.push(event_text(&items[i]));
                i += 1;
            }
            assert(views(texts@) =~= views(items@).map_values(|e: PipelineEventView| event_json(e)));
            let mut out = "{\"type\":\"Events\",\"events\":[".to_owned();
            let list = join(&texts);
            push_text(&mut out, list.as_str());
            push_text(&mut out, "]}");
            out
        },
        QueryResult::MetadataEvents(items) => {
            while i < items.len()
                invariant
                    i <= items.len(),
                    texts.len() == i,
                    forall|j: int| 0 <= j < i ==> (#[trigger] texts@[j])@ == metadata_event_json(items@[j]@),
                decreases items.len() - i,
            {
                texts.push(metadata_event_text(&items[i]));
                i += 1;
            }
            assert(views(texts@) =~= views(items@).map_values(|e: MetadataEventView| metadata_event_json(e)));
            let mut out = "{\"type\":\"MetadataEvents\",\"events\":[".to_owned();
            let list = join(&texts);
            push_text(&mut out, list.as_str());
            push_text(&mut out, "]}");
            out
        },
    }
}

// ---------------------------------------------------------------------------
// Reading results
// ---------------------------------------------------------------------------

/// The first of the texts that stand between a mark and the next quote; where the quote is
/// missing the text is empty.
pub open spec fn quoted_behind(s: Seq<char>, mark: Seq<char>) -> Option<Seq<char>> {
    match behind(s, mark) {
        None => None,
        Some(after) => Some(
            match found(after, "\""@) {
                Some(end) => after.take(end),
                None => Seq::empty(),
            },
        ),
    }
}

/// The process instance that a result tells of, with the text behind the mark of its
/// identifier.
pub open spec fn told_instance(after: Seq<char>) -> ProcessView {
    ProcessView {
        tenant_id: Seq::empty(),
        environment_id: Seq::empty(),
        pipeline_id: match quoted_behind(after, "\"pipeline_id\":\""@) {
            Some(text) => text,
            None => Seq::empty(),
        },
        process_definition_id: Seq::empty(),
        process_instance_id: match found(after, "\""@) {
            Some(end) => after.take(end),
            None => Seq::empty(),
        },
        process_version: None,
        current_activity_id: None,
        status: match quoted_behind(after, "\"status\":\""@) {
            Some(text) => named_status(text),
            None => ProcessStatus::Active,
        },
        started_at: None,
        last_updated_at: "1970-01-01T00:00:00Z"@,
        completed_at: None,
        correlation_id: None,
        business_key: None,
        token_id: None,
        activities: Map::empty(),
        activity_entered_at: Map::empty(),
        activity_durations: Map::empty(),
        metadata_refs: Seq::empty(),
        retry_count: 0,
        last_error: None,
    }
}

/// Where a quote is found, it is the first one.
pub proof fn lemma_found_quote(s: Seq<char>)
    ensures
        found(s, "\""@) matches Some(i) ==> 0 <= i < s.len() && s[i] == '"' && forall|k: int|
            0 <= k < i ==> #[trigger] s[k] != '"',
        found(s, "\""@) is None ==> forall|k: int| 0 <= k < s.len() ==> #[trigger] s[k] != '"',
{
    reveal_strlit("\"");
    lemma_found_from(s, "\""@, 0);
    assert forall|k: int| 0 <= k < s.len() implies stands_in(s, "\""@, k) == (#[trigger] s[k] == '"') by {
        assert(s.subrange(k, k + 1)[0] == s[k]);
        if s[k] == '"' {
            assert(s.subrange(k, k + 1) =~= "\""@);
        }
    }
    match found(s, "\""@) {
        Some(i) => {
            assert(stands_in(s, "\""@, i));
            assert forall|k: int| 0 <= k < i implies #[trigger] s[k] != '"' by {
                assert(!stands_in(s, "\""@, k));
            }
        },
        None => {
            assert forall|k: int| 0 <= k < s.len() implies #[trigger] s[k] != '"' by {
                assert(!stands_in(s, "\""@, k));
            }
        },
    }
}

/// The process instances that a text tells of, read from one identifier to the next; where
/// the quote behind the last identifier is missing, reading goes on behind the character
/// that follows the mark, and that must be there and be one byte.
pub open spec fn told_instances(s: Seq<char>) -> Option<Seq<ProcessView>>
    decreases s.len(),
{
    match found(s, "\"process_instance_id\":\""@) {
        None => Some(Seq::empty()),
        Some(start) => {
            let from = start + "\"process_instance_id\":\""@.len();
            let after = s.skip(from);
            let next = match found(after, "\""@) {
                Some(end) => end + 1,
                None => 1,
            };
            if found(after, "\""@) is None && (after.len() == 0 || after[0] as u32 >= 0x80) {
                None
            } else {
                proof {
                    lemma_found_from(s, "\"process_instance_id\":\""@, 0);
                    lemma_found_quote(after);
                }
                match told_instances(after.skip(next)) {
                    Some(rest) => Some(seq![told_instance(after)] + rest),
                    None => None,
                }
            }
        },
    }
}

fn quoted_text(chars: &Vec<char>, from: usize, mark: &str) -> (r: Option<String>)
    requires
        from <= chars.len(),
    ensures
        match (r, quoted_behind(chars@.skip(from as int), mark@)) {
            (Some(text), Some(value)) => text@ == value,
            (None, None) => true,
            _ => false,
        },
{
    let start: usize = match find_behind(chars, from, mark) {
        Some(start) => start,
        None => return None,
    };
    match find_quote(chars, start) {
        Some(end) => {
            assert(chars@.subrange(start as int, end as int) =~= chars@.skip(start as int).take(end - start));
            Some(text_of(chars, start, end))
        },
        None => {
            let empty = String::new();
            assert(empty@ =~= Seq::<char>::empty());
            Some(empty)
        },
    }
}

fn read_instance(chars: &Vec<char>, from: usize) -> (r: ProcessInstanceSnapshot)
    requires
        from <= chars.len(),
    ensures
        r@ == told_instance(chars@.skip(from as int)),
{
    let ghost after = chars@.skip(from as int);
    let id = match find_quote(chars, from) {
        Some(end) => {
            assert(chars@.subrange(from as int, end as int) =~= after.take(end - from));
            text_of(chars, from, end)
        },
        None => String::new(),
    };
    let pipeline = match quoted_text(chars, from, "\"pipeline_id\":\"") {
        Some(text) => text,
        None => String::new(),
    };
    let status = match quoted_text(chars, from, "\"status\":\"") {
        Some(text) => status_named(text.as_str()),
        None => ProcessStatus::Active,
    };
    let metadata_refs: Vec<MetadataRef> = Vec::new();
    assert(views(metadata_refs@) =~= Seq::<MetadataRefView>::empty());
    let empty = String::new();
    assert(empty@ =~= Seq::<char>::empty());
    ProcessInstanceSnapshot {
        tenant_id: TenantId::from(empty.clone()),
        environment_id: EnvironmentId::from(empty.clone()),
        pipeline_id: PipelineId::from(pipeline),
        process_definition_id: ProcessDefinitionId::from(empty),
        process_instance_id: ProcessInstanceId::from(id),
        process_version: None,
        current_activity_id: None,
        status,
        started_at: None,
        last_updated_at: EventTimestamp::from("1970-01-01T00:00:00Z"),
        completed_at: None,
        correlation_id: None,
        business_key: None,
        token_id: None,
        activities: SortedMap::new(),
        activity_entered_at: SortedMap::new(),
        activity_durations: SortedMap::new(),
        metadata_refs,
        retry_count: 0,
        last_error: None,
    }
}

fn read_instances(chars: &Vec<char>, from: usize, to: usize) -> (r: Option<Vec<ProcessInstanceSnapshot>>)
    requires
        from <= to <= chars.len(),
    ensures
        match (r, told_instances(chars@.subrange(from as int, to as int))) {
            (Some(items), Some(told)) => views(items@) == told,
            (None, None) => true,
            _ => false,
        },
{
    let mut rest: Vec<char> = Vec::new();
    let mut k: usize = from;
    while k < to
        invariant
            from <= k <= to <= chars.len(),
            rest@ == chars@.subrange(from as int, k as int),
        decreases to - k,
    {
        rest.push(chars[k]);
        assert(rest@ =~= chars@.subrange(from as int, k + 1));
        k += 1;
    }
    let ghost whole = rest@;
    let mut items: Vec<ProcessInstanceSnapshot> = Vec::new();
    let mut at: usize = 0;
    assert(whole.skip(0) =~= whole);
    assert(views(items@) =~= Seq::<ProcessView>::empty());
    proof {
        if let Some(told) = told_instances(whole) {
            assert(Seq::<ProcessView>::empty() + told =~= told);
        }
    }
    loop
        invariant
            at <= rest.len(),
            rest@ == whole,
            whole == chars@.subrange(from as int, to as int),
            told_instances(whole) == (match told_instances(whole.skip(at as int)) {
                Some(told) => Some(views(items@) + told),
                None => None,
            }),
        decreases rest.len() - at,
    {
        let ghost s = whole.skip(at as int);
        proof {
            lemma_found_from(s, "\"process_instance_id\":\""@, 0);
        }
        let start: usize = match find_behind(&rest, at, "\"process_instance_id\":\"") {
            Some(start) => start,
            None => {
                assert(views(items@) + Seq::<ProcessView>::empty() =~= views(items@));
                return Some(items);
            },
        };
        let ghost after = whole.skip(start as int);
        proof {
            lemma_found_quote(after);
        }
        let next: usize = match find_quote(&rest, start) {
            Some(end) => end + 1,
            None => {
                if start == rest.len() || rest[start] as u32 >= 0x80 {
                    return None;
                }
                start + 1
            },
        };
        let item = read_instance(&rest, start);
        let ghost view = item@;
        let ghost before = items@;
        items.push(item);
        proof {
            assert(after.skip(next - start) =~= whole.skip(next as int));
            assert(views(items@) =~= views(before).push(view));
            if let Some(told) = told_instances(whole.skip(next as int)) {
                assert(views(before) + (seq![view] + told) =~= views(items@) + told);
            }
        }
        at = next;
    }
}

/// Whether a text can be read as a result: the identifiers in it are closed by quotes, or
/// followed by a character of one byte.
pub open spec fn is_readable(json: Seq<char>) -> bool {
    found(trimmed(json), "\"type\":\"ProcessInstances\""@) is Some ==> told_instances(trimmed(json)) is Some
}

/// Whether a text can be read as a result.
pub fn can_be_read(json: &str) -> (r: bool)
    ensures
        r == is_readable(json@),
{
    let chars = chars_of(json);
    assert(chars@.subrange(0, chars@.len() as int) =~= json@);
    let (from, to) = trim_bounds(&chars, 0, chars.len());
    if find_in(&chars, from, to, "\"type\":\"ProcessInstances\"").is_none() {
        return true;
    }
    read_instances(&chars, from, to).is_some()
}

/// The result that a text tells of: there is one only where the text names the type, and it
/// is none where there are no instances but an error.
pub open spec fn told_result(json: Seq<char>) -> Option<QueryResultView> {
    let body = trimmed(json);
    match (found(body, "\"type\":\"ProcessInstances\""@), told_instances(body)) {
        (Some(_), Some(items)) => if items.len() == 0 && found(body, "\"error\""@) is Some {
            None
        } else {
            Some(QueryResultView::ProcessInstances(items))
        },
        _ => None,
    }
}

/// Reads the result of a query from the answer of another node.
pub fn parse_query_result_json(json: &str) -> (r: Option<QueryResult>)
    requires
        is_readable(json@),
    ensures
        match (r, told_result(json@)) {
            (Some(result), Some(told)) => result@ == told,
            (None, None) => true,
            _ => false,
        },
{
    let chars = chars_of(json);
    assert(chars@.subrange(0, chars@.len() as int) =~= json@);
    let (from, to) = trim_bounds(&chars, 0, chars.len());
    if find_in(&chars, from, to, "\"type\":\"ProcessInstances\"").is_none() {
        return None;
    }
    match read_instances(&chars, from, to) {
        None => None,
        Some(items) => if items.len() == 0 && find_in(&chars, from, to, "\"error\"").is_some() {
            None
        } else {
            Some(QueryResult::ProcessInstances(items))
        },
    }
}

/// An event that is posted has the process instance, the pipeline and the kind that its text
/// names, and must name all three; its identifier, its tenant, its environment and its instant
/// where they are named, and a default else; and its activity where it is named.
pub proof fn law_posted_events(json: Seq<char>, number: u64)
    ensures
        posted_event(json, number) is Some <==> string_field(json, "process_instance_id"@) is Some && string_field(
            json,
            "pipeline_id"@,
        ) is Some && string_field(json, "kind"@) is Some,
        posted_event(json, number) matches Some(e) ==> {
            &&& Some(e.process_instance_id) == string_field(json, "process_instance_id"@)
            &&& Some(e.pipeline_id) == string_field(json, "pipeline_id"@)
            &&& e.kind == posted_kind(string_field(json, "kind"@)->0)
            &&& e.activity_id == string_field(json, "activity_id"@)
            &&& string_field(json, "event_id"@) matches Some(x) ==> e.event_id == x
            &&& string_field(json, "event_id"@) is None ==> e.event_id == "ingest-"@ + decimal(number as nat)
            &&& string_field(json, "tenant_id"@) matches Some(x) ==> e.tenant_id == x
            &&& string_field(json, "tenant_id"@) is None ==> e.tenant_id == "demo"@
            &&& string_field(json, "environment_id"@) matches Some(x) ==> e.environment_id == x
            &&& string_field(json, "environment_id"@) is None ==> e.environment_id == "demo"@
            &&& string_field(json, "timestamp"@) matches Some(x) ==> e.timestamp == x
            &&& string_field(json, "timestamp"@) is None ==> e.timestamp == "1970-01-01T00:00:00Z"@
            &&& e.status == implied_status(e.kind)
            &&& e.metadata_refs.len() == 0 && e.error is None && e.payload is None
        },
        posted_event(json, number) is Some && string_field(json, "event_id"@) is None && number < u64::MAX
            ==> number_after(json, number) == number + 1,
        posted_event(json, number) is None || string_field(json, "event_id"@) is Some ==> number_after(json, number)
            == number,
{
}

/// The kind of a posted event is the one of its name; a name that is not known counts as an
/// activity that was entered.
pub proof fn law_posted_kinds(name: Seq<char>)
    ensures
        posted_kind(name) is ProcessStarted ==> name == "ProcessStarted"@,
        posted_kind(name) is ProcessCompleted ==> name == "ProcessCompleted"@,
        posted_kind(name) is ProcessFailed ==> name == "ProcessFailed"@,
        posted_kind(name) is ActivityCompleted ==> name == "ActivityCompleted"@,
        posted_kind(name) is ActivityCancelled ==> name == "ActivityCancelled"@,
        posted_kind(name) is ActivityEscalated ==> name == "ActivityEscalated"@,
        posted_kind(name) is GatewayTaken ==> name == "GatewayTaken"@,
        posted_kind(name) is ActivityEntered && name != "ActivityEntered"@ ==> name != "ProcessStarted"@ && name
            != "ProcessCompleted"@ && name != "ProcessFailed"@ && name != "ActivityCompleted"@ && name
            != "ActivityCancelled"@ && name != "ActivityEscalated"@ && name != "GatewayTaken"@,
        !(posted_kind(name) is Unknown),
{
}

/// A status is read by its name; any other name counts as active.
pub proof fn law_named_statuses(name: Seq<char>)
    ensures
        named_status(name) == ProcessStatus::Completed ==> name == "Completed"@,
        named_status(name) == ProcessStatus::Failed ==> name == "Failed"@,
        named_status(name) == ProcessStatus::Cancelled ==> name == "Cancelled"@,
        named_status(name) == ProcessStatus::Active && name != "Active"@ ==> name != "Completed"@ && name != "Failed"@
            && name != "Cancelled"@,
        named_status(name) != ProcessStatus::Unknown,
        status_name(ProcessStatus::Unknown) == "Unknown"@ && status_name(ProcessStatus::Active) == "Active"@
            && status_name(ProcessStatus::Completed) == "Completed"@ && status_name(ProcessStatus::Failed) == "Failed"@
            && status_name(ProcessStatus::Cancelled) == "Cancelled"@,
{
}

/// The name of a kind is the kind's own.
pub proof fn law_kind_names()
    ensures
        kind_name(EventKindView::ProcessStarted) == "ProcessStarted"@,
        kind_name(EventKindView::ActivityEntered) == "ActivityEntered"@,
        kind_name(EventKindView::ActivityCompleted) == "ActivityCompleted"@,
        kind_name(EventKindView::ActivityEscalated) == "ActivityEscalated"@,
        kind_name(EventKindView::ActivityCancelled) == "ActivityCancelled"@,
        kind_name(EventKindView::GatewayTaken) == "GatewayTaken"@,
        kind_name(EventKindView::ProcessCompleted) == "ProcessCompleted"@,
        kind_name(EventKindView::ProcessFailed) == "ProcessFailed"@,
{
}

/// A text field is found where its name first stands with a colon and a quotation mark, and
/// reaches up to the next one.
pub proof fn law_text_fields(json: Seq<char>, field: Seq<char>, at: int, end: int)
    requires
        ({
            let mark = "\""@ + field + "\":\""@;
            let from = at + mark.len();
            &&& 0 <= at && from <= end < json.len()
            &&& json.subrange(at, from) == mark
            &&& forall|k: int|
                0 <= k < at ==> #[trigger] json.subrange(k, k + mark.len()) != mark
            &&& json[end] == '"'
            &&& forall|k: int| from <= k < end ==> json[k] != '"'
        }),
    ensures
        string_field(json, field) == Some(json.subrange(at + ("\""@ + field + "\":\""@).len(), end)),
{
    let mark = "\""@ + field + "\":\""@;
    let from = at + mark.len();
    reveal_strlit("\"");
    reveal_strlit("\":\"");
    lemma_found_from(json, mark, 0);
    assert(stands_in(json, mark, at));
    match found(json, mark) {
        Some(i) => {
            if i < at {
                assert(json.subrange(i, i + mark.len()) == mark);
            }
            assert(i <= at) by {
                if at < i {
                    assert(!stands_in(json, mark, at));
                }
            }
        },
        None => {},
    }
    let after = json.skip(from);
    let quote = "\""@;
    lemma_found_from(after, quote, 0);
    assert(quote =~= seq!['"']);
    assert(after.subrange(end - from, end - from + 1) =~= quote);
    assert(stands_in(after, quote, end - from));
    match found(after, quote) {
        Some(i) => {
            assert(after.subrange(i, i + 1)[0] == after[i]);
            assert(after[i] == '"');
            assert(i <= end - from) by {
                if end - from < i {
                    assert(!stands_in(after, quote, end - from));
                }
            }
            if i < end - from {
                assert(after[i] == json[from + i]);
            }
            assert(after.take(end - from) =~= json.subrange(from, end));
        },
        None => {},
    }
}

/// What is told of an instance is its identifier, its pipeline and its status; of an event,
/// its identifier, its pipeline, its process instance and its kind. Several come one after
/// another with commas in between.
pub proof fn law_told_results(p: ProcessView, e: PipelineEventView, items: Seq<Seq<char>>, item: Seq<char>)
    ensures
        instance_json(p) == "{\"process_instance_id\":\""@ + p.process_instance_id + "\",\"pipeline_id\":\""@
            + p.pipeline_id + "\",\"status\":\""@ + status_name(p.status) + "\"}"@,
        event_json(e) == "{\"event_id\":\""@ + e.event_id + "\",\"pipeline_id\":\""@ + e.pipeline_id
            + "\",\"process_instance_id\":\""@ + e.process_instance_id + "\",\"kind\":\""@ + kind_name(e.kind) + "\"}"@,
        joined(Seq::empty()).len() == 0,
        joined(seq![item]) == item,
        items.len() > 0 ==> joined(items.push(item)) == joined(items) + ","@ + item,
{
    assert(items.push(item).drop_last() =~= items);
}

} // verus!
