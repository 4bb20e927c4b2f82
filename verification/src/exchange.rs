//! Laws of the exchange between nodes: what one node asks another is understood there, and
//! the answer is read back.
//!
//! A text is taken as the pieces between its quotes. Where no piece holds a quote itself, a
//! field is found in the text exactly where its name is found among the pieces.

use vstd::prelude::*;
use crate::fanout::{instance_request, instances_request, status_request};
use crate::http::{posted_limit, query_answer};
use crate::index::{matching_instances, of_pipeline, with_status};
use crate::process::{ProcessStatus, ProcessView};
use crate::query::QueryResultView;
use crate::query_json::{
    behind, instance_json, is_readable, joined, lemma_found_quote, lemma_leading_digits, named_status, number_field,
    result_json, status_name, string_field, told_instance, told_instances, told_result,
};
use crate::service::ServiceView;
use crate::text::{
    begins_with, decimal, digits_value, found, is_digit, is_space, lemma_found_from, stands_in, trimmed,
};

verus! {

// ---------------------------------------------------------------------------
// Pieces between quotes
// ---------------------------------------------------------------------------

/// Whether a text holds no quote.
pub open spec fn plain(s: Seq<char>) -> bool {
    forall|i: int| 0 <= i < s.len() ==> #[trigger] s[i] != '"'
}

spec fn all_plain(pieces: Seq<Seq<char>>) -> bool {
    forall|i: int| 0 <= i < pieces.len() ==> plain(#[trigger] pieces[i])
}

/// The text with quotes between its pieces.
spec fn quoted(pieces: Seq<Seq<char>>) -> Seq<char>
    decreases pieces.len(),
{
    if pieces.len() == 0 {
        Seq::empty()
    } else if pieces.len() == 1 {
        pieces[0]
    } else {
        pieces[0] + seq!['"'] + quoted(pieces.skip(1))
    }
}

/// Whether the pieces of a text begin with those of another one; of the last piece only a
/// part is asked.
spec fn leads(pieces: Seq<Seq<char>>, mark: Seq<Seq<char>>) -> bool
    decreases mark.len(),
{
    if pieces.len() == 0 || mark.len() == 0 {
        false
    } else if mark.len() == 1 {
        begins_with(pieces[0], mark[0])
    } else {
        pieces[0] == mark[0] && leads(pieces.skip(1), mark.skip(1))
    }
}

/// What is left of pieces behind those of a mark that they begin with.
spec fn left_over(pieces: Seq<Seq<char>>, mark: Seq<Seq<char>>) -> Seq<Seq<char>> {
    seq![pieces[mark.len() - 1].skip(mark.last().len() as int)] + pieces.skip(mark.len() as int)
}

proof fn lemma_leads(pieces: Seq<Seq<char>>, mark: Seq<Seq<char>>)
    requires
        pieces.len() > 0,
        mark.len() > 0,
        all_plain(pieces),
        all_plain(mark),
    ensures
        begins_with(quoted(pieces), quoted(mark)) == leads(pieces, mark),
        leads(pieces, mark) ==> mark.len() <= pieces.len() && quoted(pieces).skip(quoted(mark).len() as int) == quoted(
            left_over(pieces, mark),
        ),
    decreases mark.len(),
{
    let (s, m) = (quoted(pieces), quoted(mark));
    let (p, k) = (pieces[0], mark[0]);
    assert(plain(p) && plain(k));
    assert(pieces.len() > 1 ==> s[p.len() as int] == '"');
    assert(forall|i: int| 0 <= i < p.len() ==> s[i] == p[i]);
    if mark.len() == 1 {
        if begins_with(s, m) {
            assert(forall|i: int| 0 <= i < m.len() ==> #[trigger] s[i] == s.take(m.len() as int)[i]);
            if m.len() > p.len() {
                assert(m[p.len() as int] == s[p.len() as int]);
                assert(false);
            }
            assert(p.take(k.len() as int) =~= k);
        }
        if begins_with(p, k) {
            assert(s.take(m.len() as int) =~= p.take(k.len() as int));
            let rest = left_over(pieces, mark);
            if pieces.len() == 1 {
                assert(pieces.skip(1) =~= Seq::<Seq<char>>::empty());
                assert(rest =~= seq![p.skip(k.len() as int)]);
            } else {
                assert(rest.skip(1) =~= pieces.skip(1));
                assert(s.skip(m.len() as int) =~= p.skip(k.len() as int) + seq!['"'] + quoted(pieces.skip(1)));
            }
        }
    } else {
        let (tail, rest) = (mark.skip(1), pieces.skip(1));
        let (t, r) = (quoted(tail), quoted(rest));
        assert(all_plain(tail)) by {
            assert(forall|i: int| 0 <= i < tail.len() ==> tail[i] == mark[i + 1]);
        }
        assert(all_plain(rest)) by {
            assert(forall|i: int| 0 <= i < rest.len() ==> rest[i] == pieces[i + 1]);
        }
        assert(m == k + seq!['"'] + t);
        if begins_with(s, m) {
            assert(forall|i: int| 0 <= i < m.len() ==> #[trigger] s[i] == s.take(m.len() as int)[i]);
            assert(m[k.len() as int] == '"');
            if k.len() < p.len() {
                assert(p[k.len() as int] == '"');
                assert(false);
            }
            if pieces.len() == 1 {
                assert(s == p);
                assert(false);
            }
            if p.len() < k.len() {
                assert(k[p.len() as int] == m[p.len() as int]);
                assert(false);
            }
            assert(p =~= k) by {
                assert(forall|i: int| 0 <= i < k.len() ==> k[i] == m[i]);
            }
            lemma_leads(rest, tail);
            assert(r.take(t.len() as int) =~= t) by {
                assert(forall|i: int| 0 <= i < t.len() ==> t[i] == m[k.len() + 1 + i]);
                assert(forall|i: int| 0 <= i < r.len() ==> r[i] == s[p.len() + 1 + i]);
            }
        }
        if leads(pieces, mark) {
            reveal_with_fuel(leads, 2);
            lemma_leads(rest, tail);
            assert(s.take(m.len() as int) =~= m) by {
                assert(forall|i: int| 0 <= i < t.len() ==> t[i] == r.take(t.len() as int)[i]);
            }
            assert(s.skip(m.len() as int) =~= r.skip(t.len() as int));
            assert(left_over(rest, tail) =~= left_over(pieces, mark));
        }
    }
}

/// What is left of pieces behind the first place of a mark that starts at a quote; `tail`
/// are the pieces of the mark behind that quote.
spec fn past(pieces: Seq<Seq<char>>, tail: Seq<Seq<char>>) -> Option<Seq<Seq<char>>>
    decreases pieces.len(),
{
    if pieces.len() < 2 {
        None
    } else if leads(pieces.skip(1), tail) {
        Some(left_over(pieces.skip(1), tail))
    } else {
        past(pieces.skip(1), tail)
    }
}

proof fn lemma_found_shift(s: Seq<char>, part: Seq<char>, n: int)
    requires
        0 <= n <= s.len(),
        forall|k: int| 0 <= k < n ==> !#[trigger] stands_in(s, part, k),
    ensures
        found(s, part) == (match found(s.skip(n), part) {
            Some(i) => Some(n + i),
            None => None,
        }),
        behind(s, part) == behind(s.skip(n), part),
{
    let rest = s.skip(n);
    lemma_found_from(s, part, 0);
    lemma_found_from(rest, part, 0);
    assert forall|k: int| 0 <= k implies stands_in(s, part, n + k) == #[trigger] stands_in(rest, part, k) by {
        if n + k + part.len() <= s.len() {
            assert(s.subrange(n + k, n + k + part.len()) =~= rest.subrange(k, k + part.len()));
        }
    }
    match found(s, part) {
        Some(i) => {
            assert(i >= n);
            assert(stands_in(rest, part, i - n));
            let j = found(rest, part)->0;
            assert(found(rest, part) is Some);
            assert(stands_in(s, part, n + j));
            assert(j == i - n) by {
                if j < i - n {
                    assert(!stands_in(s, part, n + j));
                }
                if i - n < j {
                    assert(!stands_in(rest, part, i - n));
                }
            }
            assert(s.skip(i + part.len()) =~= rest.skip(j + part.len()));
        },
        None => {
            if let Some(j) = found(rest, part) {
                assert(stands_in(s, part, n + j));
            }
        },
    }
}

/// Looking for a mark in a text is looking for its pieces among those of the text.
proof fn lemma_past(pieces: Seq<Seq<char>>, tail: Seq<Seq<char>>)
    requires
        pieces.len() > 0,
        tail.len() > 0,
        all_plain(pieces),
        all_plain(tail),
    ensures
        behind(quoted(pieces), seq!['"'] + quoted(tail)) == (match past(pieces, tail) {
            Some(rest) => Some(quoted(rest)),
            None => None,
        }),
    decreases pieces.len(),
{
    let s = quoted(pieces);
    let mark = seq!['"'] + quoted(tail);
    let p = pieces[0];
    assert(plain(p));
    assert forall|k: int| 0 <= k < p.len() implies !#[trigger] stands_in(s, mark, k) by {
        assert(s[k] == p[k]);
        if stands_in(s, mark, k) {
            assert(s.subrange(k, k + mark.len())[0] == mark[0]);
        }
    }
    if pieces.len() == 1 {
        lemma_found_from(s, mark, 0);
        if let Some(i) = found(s, mark) {
            assert(!stands_in(s, mark, i));
        }
    } else {
        let rest = pieces.skip(1);
        let r = quoted(rest);
        let n = p.len() as int;
        assert(all_plain(rest)) by {
            assert(forall|i: int| 0 <= i < rest.len() ==> rest[i] == pieces[i + 1]);
        }
        lemma_leads(rest, tail);
        assert(s.skip(n + 1) =~= r);
        assert(stands_in(s, mark, n) == begins_with(r, quoted(tail))) by {
            if n + mark.len() <= s.len() {
                let t = s.subrange(n, n + mark.len());
                assert(t.skip(1) =~= r.take(quoted(tail).len() as int));
                assert(mark.skip(1) =~= quoted(tail));
                if t.skip(1) == quoted(tail) {
                    assert(t =~= mark) by {
                        assert(forall|i: int| 1 <= i < t.len() ==> t[i] == t.skip(1)[i - 1]);
                    }
                }
            }
        }
        if leads(rest, tail) {
            lemma_found_from(s, mark, 0);
            assert(found(s, mark) == Some(n));
            assert(s.skip(n + mark.len()) =~= r.skip(quoted(tail).len() as int));
        } else {
            lemma_found_shift(s, mark, n + 1);
            lemma_past(rest, tail);
        }
    }
}

/// The first quote of a text ends its first piece.
proof fn lemma_first_piece(pieces: Seq<Seq<char>>)
    requires
        pieces.len() > 1,
        all_plain(pieces),
    ensures
        found(quoted(pieces), "\""@) == Some(pieces[0].len() as int),
        quoted(pieces).take(pieces[0].len() as int) == pieces[0],
        quoted(pieces).skip(pieces[0].len() as int + 1) == quoted(pieces.skip(1)),
{
    let s = quoted(pieces);
    let p = pieces[0];
    assert(plain(p));
    lemma_found_quote(s);
    assert(s[p.len() as int] == '"');
    let i = found(s, "\""@)->0;
    assert(i == p.len()) by {
        if i < p.len() {
            assert(s[i] == p[i]);
        }
    }
    assert(s.take(p.len() as int) =~= p);
    assert(s.skip(p.len() as int + 1) =~= quoted(pieces.skip(1)));
}


// ---------------------------------------------------------------------------
// Fields among the pieces
// ---------------------------------------------------------------------------

#[verifier::opaque]
spec fn cons(first: Seq<char>, rest: Seq<Seq<char>>) -> Seq<Seq<char>> {
    seq![first] + rest
}

proof fn lemma_cons(first: Seq<char>, rest: Seq<Seq<char>>)
    ensures
        cons(first, rest).len() == rest.len() + 1,
        cons(first, rest)[0] == first,
        cons(first, rest).skip(1) == rest,
        plain(first) && all_plain(rest) ==> all_plain(cons(first, rest)),
        rest.len() > 0 ==> quoted(cons(first, rest)) == first + seq!['"'] + quoted(rest),
{
    reveal(cons);
    let all = cons(first, rest);
    assert(all.skip(1) =~= rest);
    assert(forall|i: int| 1 <= i < all.len() ==> all[i] == rest[i - 1]);
}

/// The pieces behind the first quote of a text field.
spec fn field_tail(name: Seq<char>) -> Seq<Seq<char>> {
    cons(name, cons(":"@, seq![Seq::empty()]))
}

/// The pieces behind the first quote of a text field with its value.
spec fn value_tail(name: Seq<char>, value: Seq<char>) -> Seq<Seq<char>> {
    cons(name, cons(":"@, cons(value, seq![Seq::empty()])))
}

/// The pieces behind the first quote of a number field.
spec fn number_tail(name: Seq<char>) -> Seq<Seq<char>> {
    cons(name, seq![":"@])
}

proof fn lemma_leads_nothing(pieces: Seq<Seq<char>>)
    requires
        pieces.len() > 0,
    ensures
        leads(pieces, seq![Seq::empty()]),
        left_over(pieces, seq![Seq::empty()]) == pieces,
{
    let none = seq![Seq::<char>::empty()];
    assert(pieces[0].take(0) =~= Seq::<char>::empty());
    assert(pieces[0].skip(0) =~= pieces[0]);
    assert(left_over(pieces, none) =~= pieces);
}

proof fn lemma_leads_cons(a: Seq<char>, rest: Seq<Seq<char>>, name: Seq<char>, tail: Seq<Seq<char>>)
    requires
        tail.len() > 0,
    ensures
        leads(cons(a, rest), cons(name, tail)) == (a == name && leads(rest, tail)),
        leads(rest, tail) ==> left_over(cons(a, rest), cons(name, tail)) == left_over(rest, tail),
{
    lemma_cons(a, rest);
    lemma_cons(name, tail);
    if leads(rest, tail) {
        reveal(cons);
        lemma_long_enough(rest, tail);
        assert(left_over(cons(a, rest), cons(name, tail)) =~= left_over(rest, tail));
    }
}

proof fn lemma_past_cons(p: Seq<char>, rest: Seq<Seq<char>>, tail: Seq<Seq<char>>)
    ensures
        past(cons(p, rest), tail) == (if rest.len() > 0 && leads(rest, tail) {
            Some(left_over(rest, tail))
        } else {
            past(rest, tail)
        }),
{
    lemma_cons(p, rest);
}

/// One step in the search for a text field.
proof fn lemma_field_step(p: Seq<char>, a: Seq<char>, b: Seq<char>, rest: Seq<Seq<char>>, name: Seq<char>)
    ensures
        past(cons(p, cons(a, cons(b, rest))), field_tail(name)) == (if a == name && b == ":"@ && rest.len() > 0 {
            Some(rest)
        } else {
            past(cons(a, cons(b, rest)), field_tail(name))
        }),
{
    let none = seq![Seq::<char>::empty()];
    reveal(cons);
    lemma_past_cons(p, cons(a, cons(b, rest)), field_tail(name));
    lemma_leads_cons(a, cons(b, rest), name, cons(":"@, none));
    lemma_leads_cons(b, rest, ":"@, none);
    if rest.len() > 0 {
        lemma_leads_nothing(rest);
    }
}

/// One step in the search for a text field with its value.
proof fn lemma_value_step(
    p: Seq<char>,
    a: Seq<char>,
    b: Seq<char>,
    c: Seq<char>,
    rest: Seq<Seq<char>>,
    name: Seq<char>,
    value: Seq<char>,
)
    ensures
        past(cons(p, cons(a, cons(b, cons(c, rest)))), value_tail(name, value)) == (if a == name && b == ":"@ && c
            == value && rest.len() > 0 {
            Some(rest)
        } else {
            past(cons(a, cons(b, cons(c, rest))), value_tail(name, value))
        }),
{
    let none = seq![Seq::<char>::empty()];
    reveal(cons);
    lemma_past_cons(p, cons(a, cons(b, cons(c, rest))), value_tail(name, value));
    lemma_leads_cons(a, cons(b, cons(c, rest)), name, cons(":"@, cons(value, none)));
    lemma_leads_cons(b, cons(c, rest), ":"@, cons(value, none));
    lemma_leads_cons(c, rest, value, none);
    if rest.len() > 0 {
        lemma_leads_nothing(rest);
    }
}

/// One step in the search for a number field.
proof fn lemma_number_step(p: Seq<char>, a: Seq<char>, b: Seq<char>, rest: Seq<Seq<char>>, name: Seq<char>)
    ensures
        past(cons(p, cons(a, cons(b, rest))), number_tail(name)) == (if a == name && begins_with(b, ":"@) {
            Some(cons(b.skip(1), rest))
        } else {
            past(cons(a, cons(b, rest)), number_tail(name))
        }),
{
    reveal_strlit(":");
    reveal(cons);
    lemma_past_cons(p, cons(a, cons(b, rest)), number_tail(name));
    lemma_leads_cons(a, cons(b, rest), name, seq![":"@]);
    lemma_cons(b, rest);
    assert(left_over(cons(b, rest), seq![":"@]) =~= cons(b.skip(1), rest));
}

/// A mark is not found in fewer pieces than it has.
proof fn lemma_too_few(pieces: Seq<Seq<char>>, tail: Seq<Seq<char>>)
    requires
        pieces.len() <= tail.len(),
    ensures
        past(pieces, tail) is None,
    decreases pieces.len(),
{
    if pieces.len() >= 2 {
        lemma_long_enough(pieces.skip(1), tail);
        lemma_too_few(pieces.skip(1), tail);
    }
}

proof fn lemma_long_enough(pieces: Seq<Seq<char>>, mark: Seq<Seq<char>>)
    ensures
        leads(pieces, mark) ==> mark.len() <= pieces.len(),
    decreases mark.len(),
{
    if mark.len() > 1 && pieces.len() > 0 {
        lemma_long_enough(pieces.skip(1), mark.skip(1));
    }
}

/// What stands behind a field is found among the pieces.
proof fn lemma_field(pieces: Seq<Seq<char>>, name: Seq<char>)
    requires
        pieces.len() > 0,
        all_plain(pieces),
        plain(name),
    ensures
        behind(quoted(pieces), "\""@ + name + "\":\""@) == (match past(pieces, field_tail(name)) {
            Some(rest) => Some(quoted(rest)),
            None => None,
        }),
{
    let none = seq![Seq::<char>::empty()];
    reveal_strlit(":");
    reveal_strlit("\"");
    reveal_strlit("\":\"");
    lemma_cons(":"@, none);
    lemma_cons(name, cons(":"@, none));
    assert(all_plain(none));
    assert(seq!['"'] + quoted(field_tail(name)) =~= "\""@ + name + "\":\""@);
    lemma_past(pieces, field_tail(name));
}

/// Whether a field with its value stands in a text is seen from the pieces.
proof fn lemma_value(pieces: Seq<Seq<char>>, name: Seq<char>, value: Seq<char>)
    requires
        pieces.len() > 0,
        all_plain(pieces),
        plain(name),
        plain(value),
    ensures
        (found(quoted(pieces), "\""@ + name + "\":\""@ + value + "\""@) is Some) == (past(
            pieces,
            value_tail(name, value),
        ) is Some),
{
    let none = seq![Seq::<char>::empty()];
    reveal_strlit(":");
    reveal_strlit("\"");
    reveal_strlit("\":\"");
    lemma_cons(value, none);
    lemma_cons(":"@, cons(value, none));
    lemma_cons(name, cons(":"@, cons(value, none)));
    assert(all_plain(none));
    assert(seq!['"'] + quoted(value_tail(name, value)) =~= "\""@ + name + "\":\""@ + value + "\""@);
    lemma_past(pieces, value_tail(name, value));
}

/// The number of a field is found among the pieces.
proof fn lemma_number(pieces: Seq<Seq<char>>, name: Seq<char>)
    requires
        pieces.len() > 0,
        all_plain(pieces),
        plain(name),
    ensures
        behind(quoted(pieces), "\""@ + name + "\":"@) == (match past(pieces, number_tail(name)) {
            Some(rest) => Some(quoted(rest)),
            None => None,
        }),
{
    reveal_strlit(":");
    reveal_strlit("\"");
    reveal_strlit("\":");
    lemma_cons(name, seq![":"@]);
    assert(seq!['"'] + quoted(number_tail(name)) =~= "\""@ + name + "\":"@);
    lemma_past(pieces, number_tail(name));
}


// ---------------------------------------------------------------------------
// Results
// ---------------------------------------------------------------------------

/// What a node is told of a process instance by another one: its identifier, its pipeline
/// and its status. An unknown status is taken as active.
pub open spec fn told(p: ProcessView) -> ProcessView {
    ProcessView {
        tenant_id: Seq::empty(),
        environment_id: Seq::empty(),
        pipeline_id: p.pipeline_id,
        process_definition_id: Seq::empty(),
        process_instance_id: p.process_instance_id,
        process_version: None,
        current_activity_id: None,
        status: match p.status {
            ProcessStatus::Unknown => ProcessStatus::Active,
            _ => p.status,
        },
        started_at: None,
        last_updated_at: "1970-01-01T00:00:00Z"@,
        completed_at: None,
        correlation_id: None,
        business_key: None,
        token_id: None,
        activities: Map::empty(),
        activity_entered_at: Map::empty(),
        activity_durations: Map::empty(),
        metadata_refs: Seq::empty(),
        retry_count: 0,
        last_error: None,
    }
}

/// Whether the identifiers that are told of an instance hold no quotes.
pub open spec fn tellable(p: ProcessView) -> bool {
    plain(p.process_instance_id) && plain(p.pipeline_id)
}

proof fn lemma_status_names(status: ProcessStatus)
    ensures
        plain(status_name(status)),
        status_name(status) != "process_instance_id"@,
        status_name(status) != "status"@,
        status_name(status) != "limit"@,
        status_name(status) != "type"@,
        named_status(status_name(status)) == told_status(status),
{
    reveal_strlit("Unknown");
    reveal_strlit("Active");
    reveal_strlit("Completed");
    reveal_strlit("Failed");
    reveal_strlit("Cancelled");
    reveal_strlit("process_instance_id");
    reveal_strlit("status");
    reveal_strlit("limit");
    reveal_strlit("type");
    let name = status_name(status);
    assert(name[0] == 'U' || name[0] == 'A' || name[0] == 'C' || name[0] == 'F');
    assert("process_instance_id"@[0] == 'p');
    assert("status"@[0] == 's');
    assert("limit"@[0] == 'l');
    assert("type"@[0] == 't');
    assert("Active"@[0] == 'A');
    assert("Failed"@[0] == 'F');
    assert("Completed"@[1] == 'o');
    assert("Cancelled"@[1] == 'a');
    assert("Unknown"@[0] == 'U');
}

spec fn told_status(status: ProcessStatus) -> ProcessStatus {
    match status {
        ProcessStatus::Unknown => ProcessStatus::Active,
        _ => status,
    }
}

/// The pieces behind the identifier of an instance, with those of what follows.
#[verifier::opaque]
spec fn details(p: ProcessView, next: Seq<Seq<char>>) -> Seq<Seq<char>> {
    cons(
        ","@,
        cons(
            "pipeline_id"@,
            cons(
                ":"@,
                cons(p.pipeline_id, cons(","@, cons("status"@, cons(":"@, cons(status_name(p.status), next))))),
            ),
        ),
    )
}

/// What stands between an instance and the next, or behind the last.
spec fn gap(more: bool) -> Seq<char> {
    if more {
        "},"@
    } else {
        "}"@
    }
}

/// The pieces of a list of instances behind some text.
spec fn listed(lead: Seq<char>, items: Seq<ProcessView>) -> Seq<Seq<char>>
    decreases items.len(),
{
    if items.len() == 0 {
        seq![lead + "]}"@]
    } else {
        cons(
            lead + "{"@,
            cons(
                "process_instance_id"@,
                cons(
                    ":"@,
                    cons(
                        items[0].process_instance_id,
                        details(items[0], listed(gap(items.len() > 1), items.skip(1))),
                    ),
                ),
            ),
        )
    }
}

proof fn lemma_details(p: ProcessView, next: Seq<Seq<char>>)
    requires
        next.len() > 0,
        all_plain(next),
        tellable(p),
    ensures
        all_plain(details(p, next)),
        details(p, next).len() == next.len() + 8,
        quoted(details(p, next)) == ",\"pipeline_id\":\""@ + p.pipeline_id + "\",\"status\":\""@ + status_name(p.status)
            + "\""@ + quoted(next),
{
    reveal(details);
    reveal_strlit(",");
    reveal_strlit(":");
    reveal_strlit("pipeline_id");
    reveal_strlit("status");
    reveal_strlit("\"");
    reveal_strlit(",\"pipeline_id\":\"");
    reveal_strlit("\",\"status\":\"");
    lemma_status_names(p.status);
    let g = cons(status_name(p.status), next);
    lemma_cons(status_name(p.status), next);
    let f = cons(":"@, g);
    lemma_cons(":"@, g);
    let e = cons("status"@, f);
    lemma_cons("status"@, f);
    let d = cons(","@, e);
    lemma_cons(","@, e);
    let c = cons(p.pipeline_id, d);
    lemma_cons(p.pipeline_id, d);
    let b = cons(":"@, c);
    lemma_cons(":"@, c);
    let a = cons("pipeline_id"@, b);
    lemma_cons("pipeline_id"@, b);
    lemma_cons(","@, a);
    assert(quoted(details(p, next)) =~= ",\"pipeline_id\":\""@ + p.pipeline_id + "\",\"status\":\""@ + status_name(
        p.status,
    ) + "\""@ + quoted(next));
}

proof fn lemma_joined_front(items: Seq<Seq<char>>)
    requires
        items.len() > 1,
    ensures
        joined(items) == items[0] + ","@ + joined(items.skip(1)),
    decreases items.len(),
{
    reveal_with_fuel(joined, 2);
    if items.len() == 2 {
        assert(items.drop_last()[0] == items[0]);
        assert(items.skip(1)[0] == items[1]);
    } else {
        lemma_joined_front(items.drop_last());
        assert(items.drop_last().skip(1) =~= items.skip(1).drop_last());
        let middle = joined(items.skip(1).drop_last());
        assert(items[0] + ","@ + middle + ","@ + items.last() =~= items[0] + ","@ + (middle + ","@ + items.last()));
    }
}

/// The text of the pieces of an instance.
proof fn lemma_instance_text(lead: Seq<char>, p: ProcessView, next: Seq<char>, tail: Seq<char>)
    requires
        next == "}"@ + tail,
    ensures
        lead + "{"@ + seq!['"'] + ("process_instance_id"@ + seq!['"'] + (":"@ + seq!['"'] + (p.process_instance_id
            + seq!['"'] + (",\"pipeline_id\":\""@ + p.pipeline_id + "\",\"status\":\""@ + status_name(p.status) + "\""@
            + next)))) == lead + instance_json(p) + tail,
{
    reveal_strlit("{");
    reveal_strlit("}");
    reveal_strlit(":");
    reveal_strlit("\"");
    reveal_strlit("process_instance_id");
    reveal_strlit("{\"process_instance_id\":\"");
    reveal_strlit("\",\"pipeline_id\":\"");
    reveal_strlit(",\"pipeline_id\":\"");
    reveal_strlit("\"}");
    assert("{"@ + seq!['"'] + "process_instance_id"@ + seq!['"'] + ":"@ + seq!['"'] =~= "{\"process_instance_id\":\""@);
    assert(seq!['"'] + ",\"pipeline_id\":\""@ =~= "\",\"pipeline_id\":\""@);
    assert("\""@ + "}"@ =~= "\"}"@);
    let x = ",\"pipeline_id\":\""@ + p.pipeline_id + "\",\"status\":\""@ + status_name(p.status);
    assert(seq!['"'] + (x + "\""@ + next) =~= "\",\"pipeline_id\":\""@ + p.pipeline_id + "\",\"status\":\""@
        + status_name(p.status) + "\"}"@ + tail);
    let y = p.process_instance_id + (seq!['"'] + (x + "\""@ + next));
    assert(p.process_instance_id + seq!['"'] + (x + "\""@ + next) =~= y);
    assert(lead + "{"@ + seq!['"'] + ("process_instance_id"@ + seq!['"'] + (":"@ + seq!['"'] + y)) =~= lead
        + ("{"@ + seq!['"'] + "process_instance_id"@ + seq!['"'] + ":"@ + seq!['"'] + y));
    assert("{"@ + seq!['"'] + "process_instance_id"@ + seq!['"'] + ":"@ + seq!['"'] + y =~= instance_json(p) + tail);
    assert(lead + (instance_json(p) + tail) =~= lead + instance_json(p) + tail);
}

proof fn lemma_regrouped(a: Seq<char>, b: Seq<char>, c: Seq<char>, d: Seq<char>)
    ensures
        a + b + c + d == a + (b + c + d),
{
    assert(a + b + c + d =~= a + (b + c + d));
}

proof fn lemma_regrouped_list(a: Seq<char>, b: Seq<char>, c: Seq<char>, d: Seq<char>, e: Seq<char>)
    ensures
        a + b + (c + d + e) == a + (b + c + d) + e,
{
    assert(a + b + (c + d + e) =~= a + (b + c + d) + e);
}

/// The text of the pieces of a list.
proof fn lemma_listed(lead: Seq<char>, items: Seq<ProcessView>)
    requires
        plain(lead),
        forall|i: int| 0 <= i < items.len() ==> tellable(#[trigger] items[i]),
    ensures
        all_plain(listed(lead, items)),
        listed(lead, items).len() > 0,
        listed(lead, items)[0] == lead + (if items.len() == 0 {
            "]}"@
        } else {
            "{"@
        }),
        quoted(listed(lead, items)) == lead + joined(items.map_values(|p: ProcessView| instance_json(p))) + "]}"@,
    decreases items.len(),
{
    let texts = items.map_values(|p: ProcessView| instance_json(p));
    if items.len() == 0 {
        reveal_strlit("]}");
        assert(plain(lead + "]}"@));
        assert(lead + Seq::<char>::empty() + "]}"@ =~= lead + "]}"@);
    } else {
        let rest = items.skip(1);
        let more = items.len() > 1;
        let p = items[0];
        assert(tellable(p));
        assert forall|i: int| 0 <= i < rest.len() implies tellable(#[trigger] rest[i]) by {
            assert(rest[i] == items[i + 1]);
        }
        let next = listed(gap(more), rest);
        lemma_plain_marks();
        lemma_listed(gap(more), rest);
        lemma_details(p, next);
        let c = cons(p.process_instance_id, details(p, next));
        lemma_cons(p.process_instance_id, details(p, next));
        let b = cons(":"@, c);
        lemma_cons(":"@, c);
        let a = cons("process_instance_id"@, b);
        lemma_cons("process_instance_id"@, b);
        assert(plain(lead + "{"@));
        lemma_cons(lead + "{"@, a);
        let rest_texts = rest.map_values(|p: ProcessView| instance_json(p));
        assert(texts.skip(1) =~= rest_texts);
        assert(texts[0] == instance_json(p));
        if more {
            let tail = ","@ + joined(rest_texts) + "]}"@;
            lemma_joined_front(texts);
            assert("},"@ =~= "}"@ + ","@) by {
                reveal_strlit("},");
                reveal_strlit("}");
                reveal_strlit(",");
            }
            lemma_regrouped("}"@, ","@, joined(rest_texts), "]}"@);
            lemma_instance_text(lead, p, quoted(next), tail);
            lemma_regrouped_list(lead, texts[0], ","@, joined(rest_texts), "]}"@);
        } else {
            assert(joined(rest_texts) =~= Seq::<char>::empty());
            assert(quoted(next) =~= "}"@ + "]}"@);
            lemma_instance_text(lead, p, quoted(next), "]}"@);
        }
    }
}

proof fn lemma_plain_marks()
    ensures
        plain("{"@),
        plain("}"@),
        plain("},"@),
        plain(","@),
        plain(":"@),
        plain("process_instance_id"@),
        plain("pipeline_id"@),
        plain("status"@),
{
    reveal_strlit("{");
    reveal_strlit("}");
    reveal_strlit("},");
    reveal_strlit(",");
    reveal_strlit(":");
    reveal_strlit("process_instance_id");
    reveal_strlit("pipeline_id");
    reveal_strlit("status");
}


/// The names of fields differ from each other and from the marks between them.
proof fn lemma_names_differ()
    ensures
        "process_instance_id"@ != ","@,
        "process_instance_id"@ != ":"@,
        "process_instance_id"@ != "pipeline_id"@,
        "process_instance_id"@ != "status"@,
        "pipeline_id"@ != ","@,
        "pipeline_id"@ != ":"@,
        "status"@ != ","@,
        "status"@ != ":"@,
        "status"@ != "pipeline_id"@,
        ","@ != ":"@,
{
    reveal_strlit(",");
    reveal_strlit(":");
    reveal_strlit("process_instance_id");
    reveal_strlit("pipeline_id");
    reveal_strlit("status");
    assert(","@[0] != ":"@[0]);
    assert("process_instance_id"@.len() == 19);
    assert("pipeline_id"@.len() == 11);
    assert("status"@.len() == 6);
}

/// In the details of an instance no other identifier is found.
proof fn lemma_details_pass(p: ProcessView, next: Seq<Seq<char>>)
    requires
        next.len() > 0,
        next[0].len() > 0,
        next[0][0] == '}',
    ensures
        past(details(p, next), field_tail("process_instance_id"@)) == past(next, field_tail("process_instance_id"@)),
{
    reveal(details);
    lemma_names_differ();
    lemma_status_names(p.status);
    let id = "process_instance_id"@;
    let s = status_name(p.status);
    let g = cons(s, next);
    let f = cons(":"@, g);
    let e = cons("status"@, f);
    let d = cons(","@, e);
    let c = cons(p.pipeline_id, d);
    let b = cons(":"@, c);
    lemma_field_step(","@, "pipeline_id"@, ":"@, c, id);
    lemma_field_step("pipeline_id"@, ":"@, p.pipeline_id, d, id);
    lemma_field_step(":"@, p.pipeline_id, ","@, e, id);
    lemma_field_step(p.pipeline_id, ","@, "status"@, f, id);
    lemma_field_step(","@, "status"@, ":"@, g, id);
    lemma_field_step("status"@, ":"@, s, next, id);
    let first = next[0];
    let rest = next.skip(1);
    assert(next =~= cons(first, rest)) by {
        reveal(cons);
    }
    lemma_field_step(":"@, s, first, rest, id);
    assert(first != id) by {
        reveal_strlit("process_instance_id");
    }
    if rest.len() == 0 {
        assert(cons(s, next).len() == 2 && next.len() == 1 && field_tail(id).len() == 3) by {
            reveal(cons);
        }
        lemma_too_few(cons(s, next), field_tail(id));
        lemma_too_few(next, field_tail(id));
    } else {
        let (second, more) = (rest[0], rest.skip(1));
        assert(rest =~= cons(second, more)) by {
            reveal(cons);
        }
        lemma_field_step(s, first, second, more, id);
    }
}

/// An instance is read from its pieces.
proof fn lemma_told_instance(p: ProcessView, next: Seq<Seq<char>>)
    requires
        next.len() > 0,
        all_plain(next),
        tellable(p),
    ensures
        told_instance(quoted(cons(p.process_instance_id, details(p, next)))) == told(p),
{
    lemma_names_differ();
    lemma_plain_marks();
    lemma_status_names(p.status);
    lemma_details(p, next);
    let id = p.process_instance_id;
    let s = status_name(p.status);
    let g = cons(s, next);
    let f = cons(":"@, g);
    let e = cons("status"@, f);
    let d = cons(","@, e);
    let c = cons(p.pipeline_id, d);
    let b = cons(":"@, c);
    let a = cons("pipeline_id"@, b);
    let all = cons(id, details(p, next));
    assert(details(p, next) == cons(","@, a)) by {
        reveal(details);
    }
    lemma_cons(id, details(p, next));
    lemma_first_piece(all);
    lemma_cons(s, next);
    lemma_cons(":"@, g);
    lemma_cons("status"@, f);
    lemma_cons(","@, e);
    lemma_cons(p.pipeline_id, d);
    lemma_field_step(id, ","@, "pipeline_id"@, b, "pipeline_id"@);
    lemma_field_step(","@, "pipeline_id"@, ":"@, c, "pipeline_id"@);
    lemma_field(all, "pipeline_id"@);
    assert("\""@ + "pipeline_id"@ + "\":\""@ =~= "\"pipeline_id\":\""@) by {
        reveal_strlit("\"");
        reveal_strlit("\":\"");
        reveal_strlit("pipeline_id");
        reveal_strlit("\"pipeline_id\":\"");
    }
    lemma_first_piece(c);
    lemma_field_step(id, ","@, "pipeline_id"@, b, "status"@);
    lemma_field_step(","@, "pipeline_id"@, ":"@, c, "status"@);
    lemma_field_step("pipeline_id"@, ":"@, p.pipeline_id, d, "status"@);
    lemma_field_step(":"@, p.pipeline_id, ","@, e, "status"@);
    lemma_field_step(p.pipeline_id, ","@, "status"@, f, "status"@);
    lemma_field_step(","@, "status"@, ":"@, g, "status"@);
    lemma_field(all, "status"@);
    assert("\""@ + "status"@ + "\":\""@ =~= "\"status\":\""@) by {
        reveal_strlit("\"");
        reveal_strlit("\":\"");
        reveal_strlit("status");
        reveal_strlit("\"status\":\"");
    }
    lemma_first_piece(g);
}

/// A list is read from its pieces, whatever stands before it without an identifier.
proof fn lemma_told_list(pieces: Seq<Seq<char>>, lead: Seq<char>, items: Seq<ProcessView>)
    requires
        pieces.len() > 0,
        all_plain(pieces),
        plain(lead),
        forall|i: int| 0 <= i < items.len() ==> tellable(#[trigger] items[i]),
        past(pieces, field_tail("process_instance_id"@)) == past(
            listed(lead, items),
            field_tail("process_instance_id"@),
        ),
    ensures
        told_instances(quoted(pieces)) == Some(items.map_values(|p: ProcessView| told(p))),
    decreases items.len(),
{
    let s = quoted(pieces);
    let id = "process_instance_id"@;
    let expected = items.map_values(|p: ProcessView| told(p));
    lemma_plain_marks();
    lemma_field(pieces, id);
    assert("\""@ + id + "\":\""@ =~= "\"process_instance_id\":\""@) by {
        reveal_strlit("\"");
        reveal_strlit("\":\"");
        reveal_strlit("process_instance_id");
        reveal_strlit("\"process_instance_id\":\"");
    }
    if items.len() == 0 {
        assert(field_tail(id).len() == 3) by {
            reveal(cons);
        }
        lemma_too_few(listed(lead, items), field_tail(id));
        assert(expected =~= Seq::<ProcessView>::empty());
    } else {
        let p = items[0];
        let rest = items.skip(1);
        let next = listed(gap(items.len() > 1), rest);
        assert(tellable(p));
        assert forall|i: int| 0 <= i < rest.len() implies tellable(#[trigger] rest[i]) by {
            assert(rest[i] == items[i + 1]);
        }
        lemma_listed(gap(items.len() > 1), rest);
        lemma_details(p, next);
        let all = cons(p.process_instance_id, details(p, next));
        lemma_cons(p.process_instance_id, details(p, next));
        lemma_field_step(lead + "{"@, id, ":"@, all, id);
        let after = quoted(all);
        lemma_first_piece(all);
        lemma_told_instance(p, next);
        assert(next[0].len() > 0 && next[0][0] == '}') by {
            reveal_strlit("}");
            reveal_strlit("},");
        }
        lemma_details_pass(p, next);
        lemma_told_list(details(p, next), gap(items.len() > 1), rest);
        assert(seq![told(p)] + rest.map_values(|p: ProcessView| told(p)) =~= expected);
    }
}

/// The pieces of a result with instances.
spec fn result_pieces(items: Seq<ProcessView>) -> Seq<Seq<char>> {
    cons(
        "{"@,
        cons(
            "type"@,
            cons(
                ":"@,
                cons("ProcessInstances"@, cons(","@, cons("instance"@, listed(":["@, items)))),
            ),
        ),
    )
}

proof fn lemma_result_pieces(items: Seq<ProcessView>)
    requires
        forall|i: int| 0 <= i < items.len() ==> tellable(#[trigger] items[i]),
    ensures
        all_plain(result_pieces(items)),
        result_pieces(items).len() > 0,
        quoted(result_pieces(items)) == result_json(QueryResultView::ProcessInstances(items)),
        past(result_pieces(items), field_tail("process_instance_id"@)) == past(
            listed(":["@, items),
            field_tail("process_instance_id"@),
        ),
        past(result_pieces(items), value_tail("type"@, "ProcessInstances"@)) is Some,
{
    let list = listed(":["@, items);
    let id = "process_instance_id"@;
    lemma_plain_marks();
    reveal_strlit(":[");
    assert(plain(":["@));
    lemma_listed(":["@, items);
    reveal_strlit("type");
    reveal_strlit("ProcessInstances");
    reveal_strlit("instance");
    assert(plain("type"@) && plain("ProcessInstances"@) && plain("instance"@));
    let e = cons("instance"@, list);
    lemma_cons("instance"@, list);
    let d = cons(","@, e);
    lemma_cons(","@, e);
    let c = cons("ProcessInstances"@, d);
    lemma_cons("ProcessInstances"@, d);
    let b = cons(":"@, c);
    lemma_cons(":"@, c);
    let a = cons("type"@, b);
    lemma_cons("type"@, b);
    lemma_cons("{"@, a);
    let inner = joined(items.map_values(|p: ProcessView| instance_json(p))) + "]}"@;
    assert(quoted(list) =~= ":["@ + inner);
    assert(quoted(result_pieces(items)) =~= "{\"type\":\"ProcessInstances\",\"instance\":["@ + inner) by {
        reveal_strlit("{");
        reveal_strlit(":");
        reveal_strlit(",");
        reveal_strlit("{\"type\":\"ProcessInstances\",\"instance\":[");
    }
    assert("{\"type\":\"ProcessInstances\",\"instance\":["@ + inner =~= result_json(
        QueryResultView::ProcessInstances(items),
    ));
    lemma_value_step("{"@, "type"@, ":"@, "ProcessInstances"@, d, "type"@, "ProcessInstances"@);
    reveal_strlit("process_instance_id");
    reveal_strlit(",");
    reveal_strlit(":");
    lemma_field_step("{"@, "type"@, ":"@, c, id);
    lemma_field_step("type"@, ":"@, "ProcessInstances"@, d, id);
    lemma_field_step(":"@, "ProcessInstances"@, ","@, e, id);
    lemma_field_step("ProcessInstances"@, ","@, "instance"@, list, id);
    let first = list[0];
    let rest = list.skip(1);
    assert(list =~= cons(first, rest)) by {
        reveal(cons);
    }
    assert(first[0] == ':');
    assert(id[0] == 'p');
    lemma_field_step(","@, "instance"@, first, rest, id);
    if rest.len() == 0 {
        assert(e.len() == 2 && list.len() == 1 && field_tail(id).len() == 3) by {
            reveal(cons);
        }
        lemma_too_few(e, field_tail(id));
        lemma_too_few(list, field_tail(id));
    } else {
        let (second, more) = (rest[0], rest.skip(1));
        assert(rest =~= cons(second, more)) by {
            reveal(cons);
        }
        lemma_field_step("instance"@, first, second, more, id);
    }
}


proof fn lemma_untrimmed(s: Seq<char>)
    requires
        s.len() > 0,
        !is_space(s[0]),
        !is_space(s.last()),
    ensures
        trimmed(s) == s,
{
}

// ---------------------------------------------------------------------------
// Requests
// ---------------------------------------------------------------------------

proof fn lemma_decimal(n: nat)
    ensures
        decimal(n).len() > 0,
        digits_value(decimal(n)) == n,
        forall|i: int| 0 <= i < decimal(n).len() ==> is_digit(#[trigger] decimal(n)[i]),
    decreases n,
{
    reveal_with_fuel(digits_value, 2);
    if n >= 10 {
        lemma_decimal(n / 10);
        assert(decimal(n).drop_last() =~= decimal(n / 10));
    } else {
        assert(decimal(n).drop_last() =~= Seq::<char>::empty());
    }
}

/// The pieces of a request: its type, a field, and what stands behind the field's value.
spec fn request(kind: Seq<char>, name: Seq<char>, value: Seq<char>, rest: Seq<Seq<char>>) -> Seq<Seq<char>> {
    cons("{"@, cons("type"@, cons(":"@, cons(kind, cons(","@, cons(name, cons(":"@, cons(value, rest))))))))
}

/// The pieces of a limit at the end of a request.
spec fn limit_pieces(limit: nat) -> Seq<Seq<char>> {
    cons(","@, cons("limit"@, seq![":"@ + decimal(limit) + "}"@]))
}

proof fn lemma_request(kind: Seq<char>, name: Seq<char>, value: Seq<char>, rest: Seq<Seq<char>>)
    requires
        plain(kind),
        plain(name),
        plain(value),
        all_plain(rest),
        rest.len() > 0,
    ensures
        all_plain(request(kind, name, value, rest)),
        request(kind, name, value, rest).len() > 0,
        quoted(request(kind, name, value, rest)) == "{\"type\":\""@ + kind + "\",\""@ + name + "\":\""@ + value + "\""@
            + quoted(rest),
{
    lemma_plain_marks();
    assert(plain("type"@)) by {
        reveal_strlit("type");
    }
    let g = cons(value, rest);
    lemma_cons(value, rest);
    let f = cons(":"@, g);
    lemma_cons(":"@, g);
    let e = cons(name, f);
    lemma_cons(name, f);
    let d = cons(","@, e);
    lemma_cons(","@, e);
    let c = cons(kind, d);
    lemma_cons(kind, d);
    let b = cons(":"@, c);
    lemma_cons(":"@, c);
    let a = cons("type"@, b);
    lemma_cons("type"@, b);
    lemma_cons("{"@, a);
    reveal_strlit("{");
    reveal_strlit("type");
    reveal_strlit(":");
    reveal_strlit(",");
    reveal_strlit("\"");
    reveal_strlit("\",\"");
    reveal_strlit("\":\"");
    reveal_strlit("{\"type\":\"");
    assert(quoted(request(kind, name, value, rest)) =~= "{\"type\":\""@ + kind + "\",\""@ + name + "\":\""@ + value
        + "\""@ + quoted(rest));
}

/// A request names its type, and no other.
proof fn lemma_request_type(
    kind: Seq<char>,
    name: Seq<char>,
    value: Seq<char>,
    rest: Seq<Seq<char>>,
    wanted: Seq<char>,
)
    requires
        plain(kind),
        plain(name),
        plain(value),
        plain(wanted),
        all_plain(rest),
        rest.len() == 1 || rest.len() == 3,
        rest.len() == 3 ==> rest[0] == ","@ && rest[1] == "limit"@,
        rest.len() == 1 ==> rest[0] != ":"@,
        name != "type"@,
        kind != "type"@,
        wanted != ","@,
        wanted != ":"@,
    ensures
        (found(quoted(request(kind, name, value, rest)), "\""@ + "type"@ + "\":\""@ + wanted + "\""@) is Some) == (kind
            == wanted),
{
    let ty = "type"@;
    reveal_strlit("type");
    reveal_strlit(":");
    reveal_strlit(",");
    reveal_strlit("limit");
    assert(","@[0] != ":"@[0]);
    lemma_request(kind, name, value, rest);
    lemma_value(request(kind, name, value, rest), ty, wanted);
    let g = cons(value, rest);
    let f = cons(":"@, g);
    let e = cons(name, f);
    let d = cons(","@, e);
    lemma_cons(","@, e);
    lemma_value_step("{"@, ty, ":"@, kind, d, ty, wanted);
    lemma_value_step(ty, ":"@, kind, ","@, e, ty, wanted);
    lemma_value_step(":"@, kind, ","@, name, f, ty, wanted);
    lemma_value_step(kind, ","@, name, ":"@, g, ty, wanted);
    lemma_value_step(","@, name, ":"@, value, rest, ty, wanted);
    let first = rest[0];
    let more = rest.skip(1);
    assert(rest =~= cons(first, more)) by {
        reveal(cons);
    }
    lemma_value_step(name, ":"@, value, first, more, ty, wanted);
    let tail = value_tail(ty, wanted);
    assert(tail.len() == 4) by {
        reveal(cons);
    }
    if rest.len() == 1 {
        assert(f.len() == 3) by {
            reveal(cons);
        }
        lemma_too_few(f, tail);
    } else {
        let (second, third) = (rest[1], rest[2]);
        let end: Seq<Seq<char>> = seq![third];
        assert(more =~= cons(second, end)) by {
            reveal(cons);
        }
        lemma_value_step(":"@, value, first, second, end, ty, wanted);
        assert(g.len() == 4) by {
            reveal(cons);
        }
        lemma_too_few(g, tail);
    }
}

/// The field of a request is found.
proof fn lemma_request_field(kind: Seq<char>, name: Seq<char>, value: Seq<char>, rest: Seq<Seq<char>>)
    requires
        plain(kind),
        plain(name),
        plain(value),
        all_plain(rest),
        rest.len() > 0,
        name != "type"@,
        name != ","@,
        name != ":"@,
    ensures
        string_field(quoted(request(kind, name, value, rest)), name) == Some(value),
{
    lemma_request(kind, name, value, rest);
    lemma_field(request(kind, name, value, rest), name);
    let g = cons(value, rest);
    let f = cons(":"@, g);
    let e = cons(name, f);
    let d = cons(","@, e);
    let c = cons(kind, d);
    lemma_cons(value, rest);
    reveal_strlit(":");
    reveal_strlit(",");
    assert(","@[0] != ":"@[0]);
    lemma_field_step("{"@, "type"@, ":"@, c, name);
    lemma_field_step("type"@, ":"@, kind, d, name);
    lemma_field_step(":"@, kind, ","@, e, name);
    lemma_field_step(kind, ","@, name, f, name);
    lemma_field_step(","@, name, ":"@, g, name);
    lemma_first_piece(g);
}

proof fn lemma_limit_pieces(limit: nat)
    ensures
        all_plain(limit_pieces(limit)),
        limit_pieces(limit).len() == 3,
        limit_pieces(limit)[0] == ","@,
        limit_pieces(limit)[1] == "limit"@,
        quoted(limit_pieces(limit)) == ",\"limit\":"@ + decimal(limit) + "}"@,
{
    reveal_strlit(",");
    reveal_strlit(":");
    reveal_strlit("}");
    reveal_strlit("limit");
    reveal_strlit(",\"limit\":");
    lemma_decimal(limit);
    let last = ":"@ + decimal(limit) + "}"@;
    assert(plain(last)) by {
        assert forall|i: int| 0 <= i < last.len() implies #[trigger] last[i] != '"' by {
            if 1 <= i <= decimal(limit).len() {
                assert(last[i] == decimal(limit)[i - 1]);
            }
        }
    }
    lemma_cons("limit"@, seq![last]);
    lemma_cons(","@, cons("limit"@, seq![last]));
    assert(limit_pieces(limit)[1] == "limit"@) by {
        reveal(cons);
    }
    assert(quoted(limit_pieces(limit)) =~= ",\"limit\":"@ + decimal(limit) + "}"@);
}

/// The limit of a request is found.
proof fn lemma_request_limit(kind: Seq<char>, name: Seq<char>, value: Seq<char>, limit: nat)
    requires
        plain(kind),
        plain(name),
        plain(value),
        name != "limit"@,
        kind != "limit"@,
        1 <= limit <= usize::MAX,
    ensures
        posted_limit(quoted(request(kind, name, value, limit_pieces(limit)))) == limit,
{
    let rest = limit_pieces(limit);
    let s = quoted(request(kind, name, value, rest));
    lemma_limit_pieces(limit);
    lemma_request(kind, name, value, rest);
    reveal_strlit("limit");
    reveal_strlit("type");
    reveal_strlit(":");
    reveal_strlit(",");
    reveal_strlit("}");
    assert(plain("limit"@));
    lemma_number(request(kind, name, value, rest), "limit"@);
    let last = ":"@ + decimal(limit) + "}"@;
    let end: Seq<Seq<char>> = seq![last];
    let h = cons("limit"@, end);
    let g = cons(value, rest);
    let f = cons(":"@, g);
    let e = cons(name, f);
    let d = cons(","@, e);
    let c = cons(kind, d);
    let wanted = "limit"@;
    let none: Seq<Seq<char>> = Seq::empty();
    assert(end =~= cons(last, none)) by {
        reveal(cons);
    }
    assert(","@[0] != ':');
    lemma_number_step("{"@, "type"@, ":"@, c, wanted);
    lemma_number_step("type"@, ":"@, kind, d, wanted);
    lemma_number_step(":"@, kind, ","@, e, wanted);
    lemma_number_step(kind, ","@, name, f, wanted);
    lemma_number_step(","@, name, ":"@, g, wanted);
    lemma_number_step(name, ":"@, value, rest, wanted);
    assert(!begins_with(","@, ":"@)) by {
        if begins_with(","@, ":"@) {
            assert(","@.take(1)[0] == ":"@[0]);
        }
    }
    lemma_number_step(":"@, value, ","@, h, wanted);
    lemma_number_step(value, ","@, wanted, end, wanted);
    assert(last.take(1) =~= ":"@);
    lemma_number_step(","@, wanted, last, none, wanted);
    let digits = decimal(limit) + "}"@;
    assert(last.skip(1) =~= digits);
    assert(quoted(cons(digits, none)) =~= digits) by {
        reveal(cons);
    }
    assert(behind(s, "\""@ + wanted + "\":"@) == Some(digits));
    lemma_decimal(limit);
    assert forall|i: int| 0 <= i < decimal(limit).len() implies is_digit(#[trigger] digits[i]) by {
        assert(digits[i] == decimal(limit)[i]);
    }
    lemma_leading_digits(digits, decimal(limit).len() as int);
    assert(digits.take(decimal(limit).len() as int) =~= decimal(limit));
    assert(number_field(s, wanted) == Some(limit as u64));
}

// ---------------------------------------------------------------------------
// Laws
// ---------------------------------------------------------------------------

/// A result with process instances is read back: of each instance its identifier, its
/// pipeline and its status, in the same order.
pub proof fn law_results_are_read_back(items: Seq<ProcessView>)
    requires
        forall|i: int| 0 <= i < items.len() ==> tellable(#[trigger] items[i]),
    ensures
        is_readable(result_json(QueryResultView::ProcessInstances(items))),
        told_result(result_json(QueryResultView::ProcessInstances(items))) == Some(
            QueryResultView::ProcessInstances(items.map_values(|p: ProcessView| told(p))),
        ),
{
    let s = result_json(QueryResultView::ProcessInstances(items));
    let pieces = result_pieces(items);
    lemma_result_pieces(items);
    assert(plain(":["@) && plain("type"@) && plain("ProcessInstances"@)) by {
        reveal_strlit(":[");
        reveal_strlit("type");
        reveal_strlit("ProcessInstances");
    }
    lemma_told_list(pieces, ":["@, items);
    lemma_value(pieces, "type"@, "ProcessInstances"@);
    assert("\""@ + "type"@ + "\":\""@ + "ProcessInstances"@ + "\""@ =~= "\"type\":\"ProcessInstances\""@) by {
        reveal_strlit("\"");
        reveal_strlit("type");
        reveal_strlit("\":\"");
        reveal_strlit("ProcessInstances");
        reveal_strlit("\"type\":\"ProcessInstances\"");
    }
    assert(trimmed(s) == s) by {
        reveal_strlit("{\"type\":\"ProcessInstances\",\"instance\":[");
        reveal_strlit("]}");
        assert(s[0] == '{');
        assert(s.last() == '}');
        lemma_untrimmed(s);
    }
    if items.len() == 0 {
        assert(found(s, "\"error\""@) is None) by {
            lemma_no_error(items);
        }
    }
}

proof fn lemma_no_error(items: Seq<ProcessView>)
    requires
        items.len() == 0,
    ensures
        found(result_json(QueryResultView::ProcessInstances(items)), "\"error\""@) is None,
{
    let s = result_json(QueryResultView::ProcessInstances(items));
    let texts = items.map_values(|p: ProcessView| instance_json(p));
    assert(joined(texts) =~= Seq::<char>::empty());
    reveal_strlit("{\"type\":\"ProcessInstances\",\"instance\":[");
    reveal_strlit("]}");
    reveal_strlit("\"error\"");
    lemma_found_from(s, "\"error\""@, 0);
    if let Some(i) = found(s, "\"error\""@) {
        assert(s.subrange(i, i + 7)[1] == 'e');
        assert(s.subrange(i, i + 7)[0] == '"');
        assert(s[i] == '"' && s[i + 1] == 'e');
    }
}

/// A node that is asked for a process instance by another one answers with what it knows of
/// that instance.
pub proof fn law_instance_requests_are_understood(s: ServiceView, id: Seq<char>)
    requires
        plain(id),
    ensures
        query_answer(s, instance_request(id)) == (
            "200 OK"@,
            result_json(
                QueryResultView::ProcessInstances(
                    if s.hot_index.processes.contains_key(id) {
                        seq![s.hot_index.processes[id]]
                    } else {
                        Seq::empty()
                    },
                ),
            ),
        ),
{
    let (kind, name) = ("ProcessInstance"@, "process_instance_id"@);
    let rest = seq!["}"@];
    lemma_plain_marks();
    reveal_strlit("ProcessInstance");
    reveal_strlit("process_instance_id");
    reveal_strlit("type");
    reveal_strlit(",");
    reveal_strlit(":");
    reveal_strlit("}");
    assert(plain(kind));
    lemma_request(kind, name, id, rest);
    assert("}"@[0] != ":"@[0]);
    assert(kind.len() == 15 && name.len() == 19);
    lemma_request_type(kind, name, id, rest, kind);
    lemma_request_field(kind, name, id, rest);
    assert("\""@ + "type"@ + "\":\""@ + kind + "\""@ =~= "\"type\":\"ProcessInstance\""@) by {
        reveal_strlit("\"");
        reveal_strlit("\":\"");
        reveal_strlit("\"type\":\"ProcessInstance\"");
    }
    assert(instance_request(id) =~= quoted(request(kind, name, id, rest))) by {
        reveal_strlit("{\"type\":\"ProcessInstance\",\"process_instance_id\":\"");
        reveal_strlit("\"}");
        reveal_strlit("{\"type\":\"");
        reveal_strlit("\",\"");
        reveal_strlit("\":\"");
        reveal_strlit("\"");
    }
}

/// A node that is asked for the instances of a pipeline by another one answers with as many
/// as it would find for itself.
pub proof fn law_pipeline_requests_are_understood(s: ServiceView, pipeline: Seq<char>, limit: nat)
    requires
        plain(pipeline),
        1 <= limit <= usize::MAX,
    ensures
        query_answer(s, instances_request(pipeline, limit)) == (
            "200 OK"@,
            result_json(
                QueryResultView::ProcessInstances(matching_instances(s.hot_index, of_pipeline(pipeline), limit)),
            ),
        ),
{
    let (kind, name) = ("Pipeline"@, "pipeline_id"@);
    let rest = limit_pieces(limit);
    lemma_plain_marks();
    lemma_limit_pieces(limit);
    reveal_strlit("Pipeline");
    reveal_strlit("ProcessInstance");
    reveal_strlit("pipeline_id");
    reveal_strlit("type");
    reveal_strlit("limit");
    reveal_strlit(",");
    reveal_strlit(":");
    assert(plain(kind) && plain("ProcessInstance"@));
    assert(kind.len() == 8 && "ProcessInstance"@.len() == 15 && name.len() == 11);
    lemma_request(kind, name, pipeline, rest);
    lemma_request_type(kind, name, pipeline, rest, kind);
    lemma_request_type(kind, name, pipeline, rest, "ProcessInstance"@);
    lemma_request_field(kind, name, pipeline, rest);
    lemma_request_limit(kind, name, pipeline, limit);
    lemma_type_marks();
    assert(instances_request(pipeline, limit) =~= quoted(request(kind, name, pipeline, rest))) by {
        reveal_strlit("{\"type\":\"Pipeline\",\"pipeline_id\":\"");
        reveal_strlit("\",\"limit\":");
        reveal_strlit(",\"limit\":");
        reveal_strlit("{\"type\":\"");
        reveal_strlit("\",\"");
        reveal_strlit("\":\"");
        reveal_strlit("\"");
    }
}

/// A node that is asked for the instances with a status by another one answers with as many
/// as it would find for itself. The status that is not known cannot be asked for.
pub proof fn law_status_requests_are_understood(s: ServiceView, status: ProcessStatus, limit: nat)
    requires
        status != ProcessStatus::Unknown,
        1 <= limit <= usize::MAX,
    ensures
        query_answer(s, status_request(status, limit)) == (
            "200 OK"@,
            result_json(
                QueryResultView::ProcessInstances(matching_instances(s.hot_index, with_status(status), limit)),
            ),
        ),
{
    let (kind, name) = ("ProcessStatus"@, "status"@);
    let value = status_name(status);
    let rest = limit_pieces(limit);
    lemma_plain_marks();
    lemma_limit_pieces(limit);
    lemma_status_names(status);
    reveal_strlit("Pipeline");
    reveal_strlit("ProcessInstance");
    reveal_strlit("ProcessStatus");
    reveal_strlit("status");
    reveal_strlit("type");
    reveal_strlit("limit");
    reveal_strlit(",");
    reveal_strlit(":");
    assert(plain(kind) && plain("ProcessInstance"@) && plain("Pipeline"@));
    assert(kind.len() == 13 && "ProcessInstance"@.len() == 15 && "Pipeline"@.len() == 8 && name.len() == 6);
    lemma_request(kind, name, value, rest);
    lemma_request_type(kind, name, value, rest, kind);
    lemma_request_type(kind, name, value, rest, "ProcessInstance"@);
    lemma_request_type(kind, name, value, rest, "Pipeline"@);
    lemma_request_field(kind, name, value, rest);
    lemma_request_limit(kind, name, value, limit);
    lemma_type_marks();
    assert(status_request(status, limit) =~= quoted(request(kind, name, value, rest))) by {
        reveal_strlit("{\"type\":\"ProcessStatus\",\"status\":\"");
        reveal_strlit("\",\"limit\":");
        reveal_strlit(",\"limit\":");
        reveal_strlit("{\"type\":\"");
        reveal_strlit("\",\"");
        reveal_strlit("\":\"");
        reveal_strlit("\"");
    }
}

proof fn lemma_type_marks()
    ensures
        "\""@ + "type"@ + "\":\""@ + "ProcessInstance"@ + "\""@ == "\"type\":\"ProcessInstance\""@,
        "\""@ + "type"@ + "\":\""@ + "Pipeline"@ + "\""@ == "\"type\":\"Pipeline\""@,
        "\""@ + "type"@ + "\":\""@ + "ProcessStatus"@ + "\""@ == "\"type\":\"ProcessStatus\""@,
{
    reveal_strlit("\"");
    reveal_strlit("type");
    reveal_strlit("\":\"");
    reveal_strlit("ProcessInstance");
    reveal_strlit("Pipeline");
    reveal_strlit("ProcessStatus");
    reveal_strlit("\"type\":\"ProcessInstance\"");
    reveal_strlit("\"type\":\"Pipeline\"");
    reveal_strlit("\"type\":\"ProcessStatus\"");
    assert("\""@ + "type"@ + "\":\""@ + "ProcessInstance"@ + "\""@ =~= "\"type\":\"ProcessInstance\""@);
    assert("\""@ + "type"@ + "\":\""@ + "Pipeline"@ + "\""@ =~= "\"type\":\"Pipeline\""@);
    assert("\""@ + "type"@ + "\":\""@ + "ProcessStatus"@ + "\""@ =~= "\"type\":\"ProcessStatus\""@);
}

} // verus!
