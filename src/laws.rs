use vstd::prelude::*;

use crate::aggregator::{ingest_all, ingest_spec};
use crate::message::{HttpRequestView, MessageView};
use crate::proxy::not_found_body;
use crate::session::{
    agents, data_replies, dispatch_spec, replay, replies, ActionView,
};
use crate::sse::{json_only, payloads, scan};
use crate::state::{appended, backend_of, running_clanker, ClankerView};

verus! {

/// The payloads of the events in `ms` that are addressed to agent `id` of
/// `project`, in order.
pub open spec fn events_for(ms: Seq<MessageView>, project: Seq<char>, id: u32) -> Seq<Seq<u8>>
    decreases ms.len(),
{
    if ms.len() == 0 {
        Seq::empty()
    } else {
        let rest = events_for(ms.drop_last(), project, id);
        match ms.last() {
            MessageView::ClaudeCodeMsg { project: p, clanker_id, msg } => if p == project && clanker_id
                == id {
                rest.push(msg)
            } else {
                rest
            },
            _ => rest,
        }
    }
}

/// The history that agent `id` of `agents` has before any event arrives.
pub open spec fn prior_history(agents: Seq<ClankerView>, id: u32) -> Seq<Seq<u8>> {
    if id < agents.len() {
        agents[id as int].history
    } else {
        Seq::empty()
    }
}

/// Whatever the aggregator takes in between (events of other agents, of
/// other projects, anything else), an agent's history after a run of
/// messages is what it held before followed by the events addressed to it,
/// in the order in which they arrived. The agent exists once it has an
/// event. (It must exist before, or be the project's next agent: events for
/// agents further on are not stored.)
pub proof fn lemma_history_in_ingestion_order(
    model: Map<Seq<char>, Seq<ClankerView>>,
    project: Seq<char>,
    id: u32,
    ms: Seq<MessageView>,
)
    requires
        id <= agents(model, project).len(),
    ensures
        ({
            let before = agents(model, project);
            let after = agents(ingest_all(model, ms), project);
            let mine = events_for(ms, project, id);
            &&& id <= after.len()
            &&& (id < after.len()) == (id < before.len() || mine.len() > 0)
            &&& id < after.len() ==> after[id as int].history == prior_history(before, id) + mine
        }),
    decreases ms.len(),
{
    let before = agents(model, project);
    let prior = prior_history(before, id);
    if ms.len() == 0 {
        assert(prior + Seq::<Seq<u8>>::empty() =~= prior);
    } else {
        let front = ms.drop_last();
        lemma_history_in_ingestion_order(model, project, id, front);
        let m1 = ingest_all(model, front);
        let a1 = agents(m1, project);
        let mine1 = events_for(front, project, id);
        let after = agents(ingest_all(model, ms), project);
        assert(ingest_all(model, ms) == ingest_spec(m1, ms.last()));
        match ms.last() {
            MessageView::ClaudeCodeMsg { project: p, clanker_id, msg } => {
                if p == project {
                    assert(after == appended(a1, clanker_id, msg));
                    if clanker_id == id {
                        if id < a1.len() {
                            assert((prior + mine1).push(msg) =~= prior + mine1.push(msg));
                        } else {
                            assert(prior =~= Seq::<Seq<u8>>::empty());
                            assert(mine1 =~= Seq::<Seq<u8>>::empty());
                            assert(prior + mine1.push(msg) =~= seq![msg]);
                        }
                    }
                } else {
                    assert(after == a1);
                }
            },
            _ => {},
        }
    }
}

/// A data request for a project that nobody has named yet answers with an
/// empty project and replays nothing; the state stays as it was.
pub proof fn lemma_unknown_project_data(
    model: Map<Seq<char>, Seq<ClankerView>>,
    next_port: u16,
    project: Seq<char>,
)
    requires
        !model.contains_key(project),
    ensures
        dispatch_spec(model, next_port, MessageView::DataRequest { project }) == (
            model,
            next_port,
            seq![ActionView::Reply(MessageView::DataResponse { data: Seq::empty(), project })],
        ),
{
    assert(replay(project, Seq::<ClankerView>::empty()) =~= Seq::<MessageView>::empty());
    assert(replies(Seq::<MessageView>::empty()) =~= Seq::<ActionView>::empty());
    assert(data_replies(project, Seq::empty()) =~= seq![
        ActionView::Reply(MessageView::DataResponse { data: Seq::empty(), project }),
    ]);
}

/// The number of events stored in the history of `agents`.
pub open spec fn total_events(agents: Seq<ClankerView>) -> nat
    decreases agents.len(),
{
    if agents.len() == 0 {
        0
    } else {
        total_events(agents.drop_last()) + agents.last().history.len()
    }
}

/// Where the replay of agent `i` of `agents` begins.
pub open spec fn replay_offset(agents: Seq<ClankerView>, i: int) -> nat {
    total_events(agents.subrange(0, i))
}

proof fn lemma_replay_len(project: Seq<char>, agents: Seq<ClankerView>)
    ensures
        replay(project, agents).len() == total_events(agents),
    decreases agents.len(),
{
    if agents.len() > 0 {
        lemma_replay_len(project, agents.drop_last());
    }
}

proof fn lemma_offset_bound(agents: Seq<ClankerView>, i: int)
    requires
        0 <= i < agents.len(),
    ensures
        replay_offset(agents, i) + agents[i].history.len() <= total_events(agents),
    decreases agents.len(),
{
    if i == agents.len() - 1 {
        assert(agents.subrange(0, i) =~= agents.drop_last());
    } else {
        lemma_offset_bound(agents.drop_last(), i);
        assert(agents.drop_last().subrange(0, i) =~= agents.subrange(0, i));
    }
}

proof fn lemma_replay_index(project: Seq<char>, agents: Seq<ClankerView>, i: int, j: int)
    requires
        0 <= i < agents.len(),
        0 <= j < agents[i].history.len(),
    ensures
        replay(project, agents)[replay_offset(agents, i) + j] == (MessageView::ClaudeCodeMsg {
            project,
            clanker_id: i as u32,
            msg: agents[i].history[j],
        }),
    decreases agents.len(),
{
    let front = agents.drop_last();
    lemma_replay_len(project, front);
    if i == agents.len() - 1 {
        assert(agents.subrange(0, i) =~= front);
    } else {
        lemma_replay_index(project, front, i, j);
        assert(front.subrange(0, i) =~= agents.subrange(0, i));
        lemma_offset_bound(front, i);
    }
}

/// A data request for a known project answers with one snapshot of its
/// agents, then one event message per stored event: agent `i`'s events
/// stand together, from `replay_offset(agents, i)` on, in the order they
/// were stored, each tagged with the agent's id.
pub proof fn lemma_data_request_replays(
    model: Map<Seq<char>, Seq<ClankerView>>,
    next_port: u16,
    project: Seq<char>,
)
    ensures
        ({
            let a = agents(model, project);
            let out = dispatch_spec(model, next_port, MessageView::DataRequest { project });
            &&& out.0 == model
            &&& out.1 == next_port
            &&& out.2.len() == 1 + total_events(a)
            &&& out.2[0] == ActionView::Reply(MessageView::DataResponse { data: a, project })
            &&& forall|i: int, j: int|
                0 <= i < a.len() && 0 <= j < a[i].history.len() ==> out.2[1 + replay_offset(a, i)
                    + j] == ActionView::Reply(
                    MessageView::ClaudeCodeMsg {
                        project,
                        clanker_id: i as u32,
                        msg: a[i].history[j],
                    },
                )
        }),
{
    let a = agents(model, project);
    lemma_replay_len(project, a);
    assert forall|i: int, j: int| 0 <= i < a.len() && 0 <= j < a[i].history.len() implies dispatch_spec(
        model,
        next_port,
        MessageView::DataRequest { project },
    ).2[1 + replay_offset(a, i) + j] == ActionView::Reply(
        MessageView::ClaudeCodeMsg { project, clanker_id: i as u32, msg: a[i].history[j] },
    ) by {
        lemma_replay_index(project, a, i, j);
        lemma_offset_bound(a, i);
    }
}

/// Every port that one inbound message launches a backend on lies between
/// the counter before and the counter after, and the counter never goes
/// back: backends are launched on ports that only grow and never repeat.
pub proof fn lemma_launch_ports_fresh(
    model: Map<Seq<char>, Seq<ClankerView>>,
    next_port: u16,
    m: MessageView,
)
    ensures
        ({
            let out = dispatch_spec(model, next_port, m);
            &&& next_port <= out.1
            &&& forall|k: int|
                0 <= k < out.2.len() ==> match #[trigger] out.2[k] {
                    ActionView::Launch { port, .. } => next_port <= port < out.1,
                    _ => true,
                }
        }),
{
}

/// The port that `a` launches a backend on, if it launches one.
pub open spec fn launch_port(a: ActionView) -> Option<u16> {
    match a {
        ActionView::Launch { port, .. } => Some(port),
        _ => None,
    }
}

/// The state, the next free port and all actions after the connections
/// handed the daemon `ms`, one message after another.
pub open spec fn run(model: Map<Seq<char>, Seq<ClankerView>>, next_port: u16, ms: Seq<MessageView>) -> (
    Map<Seq<char>, Seq<ClankerView>>,
    u16,
    Seq<ActionView>,
)
    decreases ms.len(),
{
    if ms.len() == 0 {
        (model, next_port, Seq::empty())
    } else {
        let prev = run(model, next_port, ms.drop_last());
        let step = dispatch_spec(prev.0, prev.1, ms.last());
        (step.0, step.1, prev.2 + step.2)
    }
}

proof fn lemma_one_launch_per_message(model: Map<Seq<char>, Seq<ClankerView>>, next_port: u16, m: MessageView)
    ensures
        ({
            let acts = dispatch_spec(model, next_port, m).2;
            forall|i: int, j: int|
                0 <= i < j < acts.len() ==> !((#[trigger] launch_port(acts[i])).is_some() && (
                #[trigger] launch_port(acts[j])).is_some())
        }),
{
    let acts = dispatch_spec(model, next_port, m).2;
    match m {
        MessageView::DataRequest { project } => {
            let a = agents(model, project);
            assert forall|k: int| 0 <= k < acts.len() implies launch_port(#[trigger] acts[k]).is_none() by {
                if k > 0 {
                    assert(acts[k] == replies(replay(project, a))[k - 1]);
                }
            }
        },
        _ => {},
    }
}

/// However the messages of all connections interleave, the daemon
/// launches backends on ports that strictly increase in the order of the
/// launches, so no two backends ever share a port; every one of them lies
/// between the counter at the start and the counter at the end.
pub proof fn lemma_launch_ports_increase(
    model: Map<Seq<char>, Seq<ClankerView>>,
    next_port: u16,
    ms: Seq<MessageView>,
)
    ensures
        ({
            let out = run(model, next_port, ms);
            &&& next_port <= out.1
            &&& forall|k: int|
                0 <= k < out.2.len() && (#[trigger] launch_port(out.2[k])).is_some() ==> next_port
                    <= launch_port(out.2[k]).unwrap() < out.1
            &&& forall|i: int, j: int|
                0 <= i < j < out.2.len() && (#[trigger] launch_port(out.2[i])).is_some() && (
                #[trigger] launch_port(out.2[j])).is_some() ==> launch_port(out.2[i]).unwrap()
                    < launch_port(out.2[j]).unwrap()
        }),
    decreases ms.len(),
{
    if ms.len() > 0 {
        lemma_launch_ports_increase(model, next_port, ms.drop_last());
        let prev = run(model, next_port, ms.drop_last());
        let step = dispatch_spec(prev.0, prev.1, ms.last());
        lemma_launch_ports_fresh(prev.0, prev.1, ms.last());
        lemma_one_launch_per_message(prev.0, prev.1, ms.last());
        let out = run(model, next_port, ms);
        let n = prev.2.len();
        assert forall|k: int| 0 <= k < out.2.len() && (#[trigger] launch_port(out.2[k])).is_some() implies next_port
            <= launch_port(out.2[k]).unwrap() < out.1 by {
            if k >= n {
                assert(out.2[k] == step.2[k - n]);
            } else {
                assert(out.2[k] == prev.2[k]);
            }
        }
        assert forall|i: int, j: int|
            0 <= i < j < out.2.len() && (#[trigger] launch_port(out.2[i])).is_some() && (
            #[trigger] launch_port(out.2[j])).is_some() implies launch_port(out.2[i]).unwrap()
            < launch_port(out.2[j]).unwrap() by {
            if j < n {
                assert(out.2[i] == prev.2[i]);
                assert(out.2[j] == prev.2[j]);
            } else if i < n {
                assert(out.2[i] == prev.2[i]);
                assert(out.2[j] == step.2[j - n]);
            } else {
                assert(out.2[i] == step.2[i - n]);
                assert(out.2[j] == step.2[j - n]);
            }
        }
    }
}

/// Two agents started one after the other in the same project get distinct
/// ids and ports, the second port above the first. (Ports and ids must not
/// be used up.)
pub proof fn lemma_two_starts(
    model: Map<Seq<char>, Seq<ClankerView>>,
    next_port: u16,
    project: Seq<char>,
    first: Seq<char>,
    second: Seq<char>,
)
    requires
        next_port < u16::MAX - 1,
        agents(model, project).len() + 2 <= u32::MAX,
    ensures
        ({
            let k = agents(model, project).len() as u32;
            let one = dispatch_spec(model, next_port, MessageView::StartClanker { project, prompt: first });
            let two = dispatch_spec(one.0, one.1, MessageView::StartClanker { project, prompt: second });
            &&& one.2[0] == ActionView::Launch { port: next_port, project, clanker_id: k }
            &&& two.2[0] == ActionView::Launch {
                port: (next_port + 1) as u16,
                project,
                clanker_id: (k + 1) as u32,
            }
            &&& agents(two.0, project) == agents(model, project).push(running_clanker(next_port)).push(
                running_clanker((next_port + 1) as u16),
            )
        }),
{
}

/// A request for an agent with no live backend is answered on the same
/// connection with exactly one 404 response; nothing is forwarded, ingested
/// or published, and the state stays as it was.
pub proof fn lemma_no_backend_not_found(
    model: Map<Seq<char>, Seq<ClankerView>>,
    next_port: u16,
    req: HttpRequestView,
    project: Seq<char>,
    clanker_id: u32,
)
    requires
        backend_of(agents(model, project), clanker_id).is_none(),
    ensures
        dispatch_spec(
            model,
            next_port,
            MessageView::HttpRequest {
                id: req.id,
                project,
                clanker_id,
                method: req.method,
                path: req.path,
                query: req.query,
                body: req.body,
            },
        ) == (
            model,
            next_port,
            seq![
                ActionView::Reply(
                    MessageView::HttpResponse { id: req.id, status: 404, body: not_found_body() },
                ),
            ],
        ),
{
}

/// A ping is answered with a ping, whatever came before it, and changes
/// nothing.
pub proof fn lemma_ping_answered(model: Map<Seq<char>, Seq<ClankerView>>, next_port: u16)
    ensures
        dispatch_spec(model, next_port, MessageView::Ping) == (
            model,
            next_port,
            seq![ActionView::Reply(MessageView::Ping)],
        ),
{
}

proof fn lemma_scan_split(pending: Seq<u8>, a: Seq<u8>, b: Seq<u8>)
    ensures
        scan(pending, a + b) == (
            scan(pending, a).0 + scan(scan(pending, a).1, b).0,
            scan(scan(pending, a).1, b).1,
        ),
    decreases b.len(),
{
    if b.len() == 0 {
        assert(a + b =~= a);
        assert(scan(pending, a).0 + Seq::<Seq<u8>>::empty() =~= scan(pending, a).0);
    } else {
        lemma_scan_split(pending, a, b.drop_last());
        assert((a + b).drop_last() =~= a + b.drop_last());
        let l1 = scan(pending, a).0;
        let l2 = scan(scan(pending, a).1, b.drop_last()).0;
        let c2 = scan(scan(pending, a).1, b.drop_last()).1;
        assert((l1 + l2).push(c2) =~= l1 + l2.push(c2));
    }
}

proof fn lemma_payloads_split(x: Seq<Seq<u8>>, y: Seq<Seq<u8>>)
    ensures
        payloads(x + y) == payloads(x) + payloads(y),
    decreases y.len(),
{
    if y.len() == 0 {
        assert(x + y =~= x);
        assert(payloads(x) + payloads(y) =~= payloads(x));
    } else {
        lemma_payloads_split(x, y.drop_last());
        assert((x + y).drop_last() =~= x + y.drop_last());
        let p = payloads(x);
        let q = payloads(y.drop_last());
        assert(forall|e: Seq<u8>| (p + q).push(e) =~= p + q.push(e));
    }
}

proof fn lemma_json_only_split(x: Seq<Seq<u8>>, y: Seq<Seq<u8>>)
    ensures
        json_only(x + y) == json_only(x) + json_only(y),
    decreases y.len(),
{
    if y.len() == 0 {
        assert(x + y =~= x);
        assert(json_only(x) + json_only(y) =~= json_only(x));
    } else {
        lemma_json_only_split(x, y.drop_last());
        assert((x + y).drop_last() =~= x + y.drop_last());
        let p = json_only(x);
        let q = json_only(y.drop_last());
        assert((p + q).push(y.last()) =~= p + q.push(y.last()));
    }
}

/// The events read from a stream do not depend on where it was cut into
/// chunks: reading `a` and then `b` gives the events of `a + b`, in order,
/// and leaves the same unfinished line.
pub proof fn lemma_stream_chunking(pending: Seq<u8>, a: Seq<u8>, b: Seq<u8>)
    ensures
        ({
            let first = scan(pending, a);
            let second = scan(first.1, b);
            let whole = scan(pending, a + b);
            &&& json_only(payloads(whole.0)) == json_only(payloads(first.0)) + json_only(
                payloads(second.0),
            )
            &&& whole.1 == second.1
        }),
{
    lemma_scan_split(pending, a, b);
    let first = scan(pending, a);
    let second = scan(first.1, b);
    lemma_payloads_split(first.0, second.0);
    lemma_json_only_split(payloads(first.0), payloads(second.0));
}

} // verus!
