//! Queries to all nodes of the cluster: what is asked of the others, and how their answers
//! are merged with the local one.

use vstd::prelude::*;
use crate::index::{matching_instances, of_pipeline, with_status};
use crate::ordered::{first_n, opt_view, views, Duplicate};
use crate::process::{ProcessInstanceSnapshot, ProcessStatus, ProcessView};
use crate::query::{PipelineQuery, ProcessInstanceQuery, ProcessStatusQuery, QueryResult, QueryResultView};
use crate::query_json::{name_of_status, status_name};
use crate::service::VannakService;
use crate::text::{decimal, push_decimal, push_text, str_eq};

verus! {

/// Settings of queries to all nodes; times are in milliseconds.
#[derive(Debug, Clone, PartialEq, Eq)]
pub struct ClusterQueryConfig {
    /// Addresses of the other nodes.
    pub peers: Vec<String>,
    /// The longest time to connect.
    pub connect_timeout_millis: u64,
    /// The longest time to wait for an answer.
    pub read_timeout_millis: u64,
}

impl Default for ClusterQueryConfig {
    fn default() -> (r: Self)
        ensures
            r.peers@.len() == 0,
            r.connect_timeout_millis == 3_000,
            r.read_timeout_millis == 5_000,
    {
        ClusterQueryConfig { peers: Vec::new(), connect_timeout_millis: 3_000, read_timeout_millis: 5_000 }
    }
}

/// What another node answered: nothing that can be read, a result, or why it could not be
/// reached.
#[derive(Debug)]
pub struct PeerReply {
    pub peer: String,
    pub reply: Result<Option<QueryResult>, String>,
}

/// The view of an answer.
pub struct ReplyView {
    pub peer: Seq<char>,
    pub reply: Result<Option<QueryResultView>, Seq<char>>,
}

impl View for PeerReply {
    type V = ReplyView;

    open spec fn view(&self) -> ReplyView {
        ReplyView {
            peer: self.peer@,
            reply: match self.reply {
                Ok(Some(result)) => Ok(Some(result@)),
                Ok(None) => Ok(None),
                Err(text) => Err(text@),
            },
        }
    }
}

/// The merged result of all nodes.
#[derive(Debug, Clone, PartialEq, Eq)]
pub struct ClusterQueryResult {
    /// The number of other nodes that responded.
    pub peer_count: usize,
    /// The nodes that could not be reached.
    pub failed_peers: Vec<String>,
    /// The results of all the nodes that answered.
    pub merged: QueryResult,
}

/// The nodes that could not be reached.
pub open spec fn failed(replies: Seq<ReplyView>) -> Seq<Seq<char>>
    decreases replies.len(),
{
    if replies.len() == 0 {
        Seq::empty()
    } else if replies.last().reply is Err {
        failed(replies.drop_last()).push(replies.last().peer)
    } else {
        failed(replies.drop_last())
    }
}

proof fn lemma_failed_len(replies: Seq<ReplyView>)
    ensures
        failed(replies).len() <= replies.len(),
    decreases replies.len(),
{
    if replies.len() > 0 {
        lemma_failed_len(replies.drop_last());
    }
}

/// The process instances of an answer.
pub open spec fn instances_in(reply: ReplyView) -> Seq<ProcessView> {
    match reply.reply {
        Ok(Some(QueryResultView::ProcessInstances(items))) => items,
        _ => Seq::empty(),
    }
}

/// The process instances of all answers, in the order of the nodes.
pub open spec fn instances_of_all(replies: Seq<ReplyView>) -> Seq<ProcessView>
    decreases replies.len(),
{
    if replies.len() == 0 {
        Seq::empty()
    } else {
        instances_of_all(replies.drop_last()) + instances_in(replies.last())
    }
}

/// The instances without those that are known.
pub open spec fn unknown_instances(items: Seq<ProcessView>, known: Option<Seq<char>>) -> Seq<ProcessView>
    decreases items.len(),
{
    if items.len() == 0 {
        Seq::empty()
    } else if known == Some(items.last().process_instance_id) {
        unknown_instances(items.drop_last(), known)
    } else {
        unknown_instances(items.drop_last(), known).push(items.last())
    }
}

// ---------------------------------------------------------------------------
// Requests
// ---------------------------------------------------------------------------

/// The request for one process instance.
pub open spec fn instance_request(id: Seq<char>) -> Seq<char> {
    "{\"type\":\"ProcessInstance\",\"process_instance_id\":\""@ + id + "\"}"@
}

/// The request for one process instance.
pub fn process_instance_request(query: &ProcessInstanceQuery) -> (r: String)
    ensures
        r@ == instance_request(query.process_instance_id@),
{
    let mut out = "{\"type\":\"ProcessInstance\",\"process_instance_id\":\"".to_owned();
    push_text(&mut out, query.process_instance_id.as_str());
    push_text(&mut out, "\"}");
    out
}

/// The request for the instances of a pipeline.
pub open spec fn instances_request(pipeline: Seq<char>, limit: nat) -> Seq<char> {
    "{\"type\":\"Pipeline\",\"pipeline_id\":\""@ + pipeline + "\",\"limit\":"@ + decimal(limit) + "}"@
}

/// The request for the instances of a pipeline.
pub fn pipeline_request(query: &PipelineQuery) -> (r: String)
    ensures
        r@ == instances_request(query.pipeline_id@, query.limit@),
{
    let mut out = "{\"type\":\"Pipeline\",\"pipeline_id\":\"".to_owned();
    push_text(&mut out, query.pipeline_id.as_str());
    push_text(&mut out, "\",\"limit\":");
    push_decimal(&mut out, query.limit.value() as u64);
    push_text(&mut out, "}");
    out
}

/// The request for the instances with a status.
pub open spec fn status_request(status: ProcessStatus, limit: nat) -> Seq<char> {
    "{\"type\":\"ProcessStatus\",\"status\":\""@ + status_name(status) + "\",\"limit\":"@ + decimal(limit) + "}"@
}

/// The request for the instances with a status.
pub fn process_status_request(query: &ProcessStatusQuery) -> (r: String)
    ensures
        r@ == status_request(query.status, query.limit@),
{
    let mut out = "{\"type\":\"ProcessStatus\",\"status\":\"".to_owned();
    push_text(&mut out, name_of_status(query.status));
    push_text(&mut out, "\",\"limit\":");
    push_decimal(&mut out, query.limit.value() as u64);
    push_text(&mut out, "}");
    out
}

// ---------------------------------------------------------------------------
// Merging
// ---------------------------------------------------------------------------

fn failed_peers(replies: &Vec<PeerReply>) -> (r: Vec<String>)
    ensures
        views(r@) == failed(views(replies@)),
{
    let ghost all = views(replies@);
    let mut out: Vec<String> = Vec::new();
    let mut i: usize = 0;
    assert(views(out@) =~= failed(all.take(0)));
    while i < replies.len()
        invariant
            i <= replies.len(),
            all == views(replies@),
            views(out@) == failed(all.take(i as int)),
        decreases replies.len() - i,
    {
        assert(all.take(i + 1).drop_last() =~= all.take(i as int));
        assert(all.take(i + 1).last() == replies@[i as int]@);
        let ghost before = out@;
        if replies[i].reply.is_err() {
            out.push(replies[i].peer.clone());
            assert(views(out@) =~= views(before).push(replies@[i as int].peer@));
        }
        i += 1;
    }
    assert(all.take(replies.len() as int) =~= all);
    out
}

fn add_unknown(out: &mut Vec<ProcessInstanceSnapshot>, items: &Vec<ProcessInstanceSnapshot>, known: Option<&str>)
    ensures
        views(final(out)@) == views(old(out)@) + unknown_instances(
            views(items@),
            opt_view(known),
        ),
{
    let ghost all = views(items@);
    let ghost before = views(out@);
    let ghost id = opt_view(known);
    let mut i: usize = 0;
    assert(all.take(0) =~= Seq::<ProcessView>::empty());
    assert(before + Seq::<ProcessView>::empty() =~= before);
    while i < items.len()
        invariant
            i <= items.len(),
            all == views(items@),
            id == opt_view(known),
            views(out@) == before + unknown_instances(all.take(i as int), id),
        decreases items.len() - i,
    {
        assert(all.take(i + 1).drop_last() =~= all.take(i as int));
        assert(all.take(i + 1).last() == items@[i as int]@);
        let is_known = match known {
            Some(known_id) => str_eq(known_id, items[i].process_instance_id.as_str()),
            None => false,
        };
        let ghost sofar = out@;
        if !is_known {
            out.push(items[i].duplicate());
            proof {
                assert(views(out@) =~= views(sofar).push(items@[i as int]@));
                let list = unknown_instances(all.take(i as int), id);
                assert((before + list).push(items@[i as int]@) =~= before + list.push(items@[i as int]@));
            }
        }
        i += 1;
    }
    assert(all.take(items.len() as int) =~= all);
}

proof fn lemma_unknown_concat(a: Seq<ProcessView>, b: Seq<ProcessView>, known: Option<Seq<char>>)
    ensures
        unknown_instances(a + b, known) == unknown_instances(a, known) + unknown_instances(b, known),
    decreases b.len(),
{
    if b.len() == 0 {
        assert(a + b =~= a);
        assert(unknown_instances(a, known) + Seq::<ProcessView>::empty() =~= unknown_instances(a, known));
    } else {
        assert((a + b).drop_last() =~= a + b.drop_last());
        lemma_unknown_concat(a, b.drop_last(), known);
        let (x, y) = (unknown_instances(a, known), unknown_instances(b.drop_last(), known));
        assert((x + y).push(b.last()) =~= x + y.push(b.last()));
    }
}

/// Merges the answers of the other nodes with the state of an instance on this one: what is
/// known here is not taken from them.
pub fn fanout_process_instance_query(
    service: &VannakService,
    query: &ProcessInstanceQuery,
    replies: &Vec<PeerReply>,
) -> (r: ClusterQueryResult)
    ensures
        r.peer_count == replies@.len() - r.failed_peers@.len(),
        views(r.failed_peers@) == failed(views(replies@)),
        r.merged@ == QueryResultView::ProcessInstances(
            {
                let known = service@.hot_index.processes;
                let id = query.process_instance_id@;
                if known.contains_key(id) {
                    seq![known[id]] + unknown_instances(
                        instances_of_all(views(replies@)),
                        Some(known[id].process_instance_id),
                    )
                } else {
                    unknown_instances(instances_of_all(views(replies@)), None)
                }
            },
        ),
{
    let ghost all = views(replies@);
    let mut instances: Vec<ProcessInstanceSnapshot> = Vec::new();
    let known: Option<String> = match service.process_instance(query) {
        Some(snapshot) => {
            let id = snapshot.process_instance_id.as_str().to_owned();
            let ghost view = snapshot@;
            instances.push(snapshot);
            assert(views(instances@) =~= seq![view]);
            Some(id)
        },
        None => {
            assert(views(instances@) =~= Seq::<ProcessView>::empty());
            None
        },
    };
    let ghost local = views(instances@);
    let ghost known_id = opt_view(known);
    let known_text: Option<&str> = match &known {
        Some(id) => Some(id.as_str()),
        None => None,
    };
    let mut i: usize = 0;
    proof {
        assert(all.take(0) =~= Seq::<ReplyView>::empty());
        assert(local + Seq::<ProcessView>::empty() =~= local);
    }
    while i < replies.len()
        invariant
            i <= replies.len(),
            all == views(replies@),
            known_id == opt_view(known_text),
            views(instances@) == local + unknown_instances(instances_of_all(all.take(i as int)), known_id),
        decreases replies.len() - i,
    {
        let ghost sofar = instances_of_all(all.take(i as int));
        proof {
            assert(all.take(i + 1).drop_last() =~= all.take(i as int));
            assert(all.take(i + 1).last() == replies@[i as int]@);
            lemma_unknown_concat(sofar, instances_in(all[i as int]), known_id);
        }
        if let Ok(Some(QueryResult::ProcessInstances(more))) = &replies[i].reply {
            add_unknown(&mut instances, more, known_text);
            proof {
                assert(instances_in(all[i as int]) == views(more@));
                let (x, y) = (unknown_instances(sofar, known_id), unknown_instances(views(more@), known_id));
                assert((local + x) + y =~= local + (x + y));
            }
        } else {
            proof {
                assert(instances_in(all[i as int]) == Seq::<ProcessView>::empty());
                assert(sofar + Seq::<ProcessView>::empty() =~= sofar);
            }
        }
        i += 1;
    }
    proof {
        assert(all.take(replies.len() as int) =~= all);
        if known_id is None {
            assert(local + unknown_instances(instances_of_all(all), known_id) =~= unknown_instances(
                instances_of_all(all),
                known_id,
            ));
        }
    }
    let failed_peers = failed_peers(replies);
    proof {
        assert(views(failed_peers@).len() == failed_peers.len());
        lemma_failed_len(all);
    }
    ClusterQueryResult {
        peer_count: replies.len() - failed_peers.len(),
        failed_peers,
        merged: QueryResult::ProcessInstances(instances),
    }
}

fn merge_limited(local: QueryResult, limit: usize, replies: &Vec<PeerReply>) -> (r: ClusterQueryResult)
    ensures
        r.peer_count == replies@.len() - r.failed_peers@.len(),
        views(r.failed_peers@) == failed(views(replies@)),
        r.merged@ == QueryResultView::ProcessInstances(
            first_n(
                (match local@ {
                    QueryResultView::ProcessInstances(items) => items,
                    _ => Seq::empty(),
                }) + instances_of_all(views(replies@)),
                limit as nat,
            ),
        ),
{
    let ghost all = views(replies@);
    let mut instances: Vec<ProcessInstanceSnapshot> = match local {
        QueryResult::ProcessInstances(items) => items,
        _ => {
            let none: Vec<ProcessInstanceSnapshot> = Vec::new();
            assert(views(none@) =~= Seq::<ProcessView>::empty());
            none
        },
    };
    let ghost own = views(instances@);
    instances.truncate(limit);
    let mut i: usize = 0;
    proof {
        assert(all.take(0) =~= Seq::<ReplyView>::empty());
        assert(own + Seq::<ProcessView>::empty() =~= own);
        assert(views(instances@) =~= first_n(own, limit as nat));
    }
    while i < replies.len()
        invariant
            i <= replies.len(),
            all == views(replies@),
            views(instances@) == first_n(own + instances_of_all(all.take(i as int)), limit as nat),
        decreases replies.len() - i,
    {
        let ghost sofar = own + instances_of_all(all.take(i as int));
        let ghost next = instances_in(all[i as int]);
        proof {
            assert(all.take(i + 1).drop_last() =~= all.take(i as int));
            assert(all.take(i + 1).last() == replies@[i as int]@);
            assert(own + instances_of_all(all.take(i + 1)) =~= sofar + next);
        }
        if let Ok(Some(QueryResult::ProcessInstances(more))) = &replies[i].reply {
            assert(next == views(more@));
            let mut k: usize = 0;
            assert(sofar + next.take(0) =~= sofar);
            while k < more.len() && instances.len() < limit
                invariant
                    k <= more.len(),
                    next == views(more@),
                    views(instances@) == first_n(sofar + next.take(k as int), limit as nat),
                decreases more.len() - k,
            {
                let ghost before = instances@;
                instances.push(more[k].duplicate());
                proof {
                    assert(views(instances@) =~= views(before).push(next[k as int]));
                    assert(sofar + next.take(k + 1) =~= (sofar + next.take(k as int)).push(next[k as int]));
                }
                k += 1;
            }
            proof {
                assert(next.take(next.len() as int) =~= next);
                if k < more.len() {
                    assert(first_n(sofar + next.take(k as int), limit as nat) =~= first_n(
                        sofar + next,
                        limit as nat,
                    ));
                }
            }
        } else {
            assert(sofar + next =~= sofar);
        }
        i += 1;
    }
    assert(all.take(replies.len() as int) =~= all);
    let failed_peers = failed_peers(replies);
    proof {
        assert(views(failed_peers@).len() == failed_peers.len());
        lemma_failed_len(all);
    }
    ClusterQueryResult {
        peer_count: replies.len() - failed_peers.len(),
        failed_peers,
        merged: QueryResult::ProcessInstances(instances),
    }
}

/// Merges the answers of the other nodes with the local instances of a pipeline, up to the
/// limit of the query.
pub fn fanout_pipeline_query(service: &VannakService, query: &PipelineQuery, replies: &Vec<PeerReply>) -> (r:
    ClusterQueryResult)
    ensures
        r.peer_count == replies@.len() - r.failed_peers@.len(),
        views(r.failed_peers@) == failed(views(replies@)),
        r.merged@ == QueryResultView::ProcessInstances(
            first_n(
                matching_instances(service@.hot_index, of_pipeline(query.pipeline_id@), query.limit@)
                    + instances_of_all(views(replies@)),
                query.limit@,
            ),
        ),
{
    merge_limited(service.pipeline_instances(query), query.limit.value(), replies)
}

/// Merges the answers of the other nodes with the local instances that have a status, up to
/// the limit of the query.
pub fn fanout_process_status_query(service: &VannakService, query: &ProcessStatusQuery, replies: &Vec<PeerReply>) -> (r:
    ClusterQueryResult)
    ensures
        r.peer_count == replies@.len() - r.failed_peers@.len(),
        views(r.failed_peers@) == failed(views(replies@)),
        r.merged@ == QueryResultView::ProcessInstances(
            first_n(
                matching_instances(service@.hot_index, with_status(query.status), query.limit@) + instances_of_all(
                    views(replies@),
                ),
                query.limit@,
            ),
        ),
{
    merge_limited(service.process_instances_by_status(query), query.limit.value(), replies)
}

// ---------------------------------------------------------------------------
// Laws
// ---------------------------------------------------------------------------

/// The answers of the peers come one after another; a peer that did not answer adds nothing
/// and is named.
pub proof fn law_replies_are_joined(replies: Seq<ReplyView>, reply: ReplyView)
    ensures
        instances_of_all(Seq::empty()).len() == 0 && failed(Seq::empty()).len() == 0,
        reply.reply matches Ok(Some(QueryResultView::ProcessInstances(items))) ==> instances_of_all(replies.push(reply))
            == instances_of_all(replies) + items,
        reply.reply is Err ==> instances_of_all(replies.push(reply)) =~= instances_of_all(replies) && failed(
            replies.push(reply),
        ) == failed(replies).push(reply.peer),
        reply.reply is Ok ==> failed(replies.push(reply)) == failed(replies),
{
    assert(replies.push(reply).drop_last() =~= replies);
}

/// An instance that is known here is not listed again, and every other one is, in its order.
pub proof fn law_known_instances_are_not_repeated(items: Seq<ProcessView>, known: Option<Seq<char>>, item: ProcessView)
    ensures
        unknown_instances(Seq::empty(), known).len() == 0,
        known == Some(item.process_instance_id) ==> unknown_instances(items.push(item), known) == unknown_instances(
            items,
            known,
        ),
        known != Some(item.process_instance_id) ==> unknown_instances(items.push(item), known) == unknown_instances(
            items,
            known,
        ).push(item),
        known is None ==> unknown_instances(items, known) == items,
    decreases items.len(),
{
    assert(items.push(item).drop_last() =~= items);
    if known is None && items.len() > 0 {
        law_known_instances_are_not_repeated(items.drop_last(), known, items.last());
        assert(unknown_instances(items, known) =~= items);
    }
}

/// A request says what is asked for, with its value and its limit.
pub proof fn law_requests(id: Seq<char>, limit: nat, status: ProcessStatus)
    ensures
        instance_request(id) == "{\"type\":\"ProcessInstance\",\"process_instance_id\":\""@ + id + "\"}"@,
        instances_request(id, limit) == "{\"type\":\"Pipeline\",\"pipeline_id\":\""@ + id + "\",\"limit\":"@ + decimal(
            limit,
        ) + "}"@,
        status_request(status, limit) == "{\"type\":\"ProcessStatus\",\"status\":\""@ + status_name(status)
            + "\",\"limit\":"@ + decimal(limit) + "}"@,
{
}

} // verus!
