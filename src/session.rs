use vstd::prelude::*;

use crate::message::{HttpRequestMessage, HttpRequestView, Message, MessageView};
use crate::ports::PortAllocator;
use crate::proxy::{not_found, not_found_body};
use crate::state::{
    backend_of, copy_bytes, running_clanker, ClankerView, ProjectState, State,
};

verus! {

/// The agents of project `name` in `model`; none when it is unknown.
pub open spec fn agents(model: Map<Seq<char>, Seq<ClankerView>>, name: Seq<char>) -> Seq<ClankerView> {
    if model.contains_key(name) {
        model[name]
    } else {
        Seq::empty()
    }
}

/// The replay of a project's history: one event message per stored event,
/// agent after agent, each agent's events in the order they were stored.
pub open spec fn replay(project: Seq<char>, agents: Seq<ClankerView>) -> Seq<MessageView>
    decreases agents.len(),
{
    if agents.len() == 0 {
        Seq::empty()
    } else {
        replay(project, agents.drop_last()) + agent_replay(
            project,
            (agents.len() - 1) as u32,
            agents.last().history,
        )
    }
}

/// The event messages of one agent's history, in order.
pub open spec fn agent_replay(project: Seq<char>, id: u32, history: Seq<Seq<u8>>) -> Seq<MessageView> {
    history.map_values(|e: Seq<u8>| MessageView::ClaudeCodeMsg { project, clanker_id: id, msg: e })
}

/// What a connection does after reading one message.
#[derive(Debug)]
pub enum Action {
    /// Put the message on this connection's outbound queue.
    Reply(Message),
    /// Hand the request to the intake channel of the backend on `port`.
    Forward { port: u16, request: HttpRequestMessage },
    /// Start the backend of agent `clanker_id` of `project` on `port`, with
    /// its intake channel.
    Launch { port: u16, project: String, clanker_id: u32 },
    /// Hand the message to the ingestion aggregator.
    Ingest(Message),
    /// Log the message and go on.
    Ignore(Message),
}

/// What an action holds, as plain values.
pub enum ActionView {
    Reply(MessageView),
    Forward { port: u16, request: HttpRequestView },
    Launch { port: u16, project: Seq<char>, clanker_id: u32 },
    Ingest(MessageView),
    Ignore(MessageView),
}

impl View for Action {
    type V = ActionView;

    open spec fn view(&self) -> ActionView {
        match self {
            Action::Reply(m) => ActionView::Reply(m@),
            Action::Forward { port, request } => ActionView::Forward { port: *port, request: request@ },
            Action::Launch { port, project, clanker_id } => ActionView::Launch {
                port: *port,
                project: project@,
                clanker_id: *clanker_id,
            },
            Action::Ingest(m) => ActionView::Ingest(m@),
            Action::Ignore(m) => ActionView::Ignore(m@),
        }
    }
}

pub open spec fn action_views(v: Seq<Action>) -> Seq<ActionView> {
    v.map_values(|a: Action| a@)
}

/// Replies that carry `messages`, in order.
pub open spec fn replies(messages: Seq<MessageView>) -> Seq<ActionView> {
    messages.map_values(|m: MessageView| ActionView::Reply(m))
}

/// The answer to a data request: the project's agents, then the replay of
/// their history.
pub open spec fn data_replies(project: Seq<char>, agents: Seq<ClankerView>) -> Seq<ActionView> {
    seq![ActionView::Reply(MessageView::DataResponse { data: agents, project })] + replies(
        replay(project, agents),
    )
}

/// What a connection does with one inbound message: the state, the next
/// free port and the actions that follow.
pub open spec fn dispatch_spec(
    model: Map<Seq<char>, Seq<ClankerView>>,
    next_port: u16,
    m: MessageView,
) -> (Map<Seq<char>, Seq<ClankerView>>, u16, Seq<ActionView>) {
    match m {
        MessageView::Ping => (model, next_port, seq![ActionView::Reply(MessageView::Ping)]),
        MessageView::DataRequest { project } => (
            model,
            next_port,
            data_replies(project, agents(model, project)),
        ),
        MessageView::HttpRequest { id, project, clanker_id, method, path, query, body } => {
            match backend_of(agents(model, project), clanker_id) {
                Some(port) => (
                    model,
                    next_port,
                    seq![
                        ActionView::Forward {
                            port,
                            request: HttpRequestView { id, method, path, query, body },
                        },
                    ],
                ),
                None => (
                    model,
                    next_port,
                    seq![
                        ActionView::Reply(
                            MessageView::HttpResponse { id, status: 404, body: not_found_body() },
                        ),
                    ],
                ),
            }
        },
        MessageView::StartClanker { project, prompt } => {
            let a = agents(model, project);
            if next_port == u16::MAX {
                (model, next_port, seq![ActionView::Ignore(m)])
            } else if a.len() >= u32::MAX {
                (model, (next_port + 1) as u16, seq![ActionView::Ignore(m)])
            } else {
                let started = a.push(running_clanker(next_port));
                (
                    model.insert(project, started),
                    (next_port + 1) as u16,
                    seq![
                        ActionView::Launch { port: next_port, project, clanker_id: a.len() as u32 },
                        ActionView::Reply(MessageView::DataResponse { data: started, project }),
                    ],
                )
            }
        },
        MessageView::ClaudeCodeMsg { .. } => (model, next_port, seq![ActionView::Ingest(m)]),
        _ => (model, next_port, seq![ActionView::Ignore(m)]),
    }
}

impl State {
    pub proof fn lemma_agents(&self, name: Seq<char>)
        requires
            self.wf(),
        ensures
            self.project(name) == agents(self.model(), name),
    {
    }
}

/// The replay of the history of project `name`, appended to `out`.
fn push_replay(out: &mut Vec<Action>, name: &String, project: &ProjectState)
    ensures
        action_views(final(out)@) == action_views(old(out)@) + replies(replay(name@, project@)),
{
    let mut i: usize = 0;
    while i < project.clankers.len()
        invariant
            i <= project.clankers.len(),
            action_views(out@) == action_views(old(out)@) + replies(
                replay(name@, project@.subrange(0, i as int)),
            ),
        decreases project.clankers.len() - i,
    {
        let ghost base = out@;
        let history = &project.clankers[i].history;
        let ghost hv = project@[i as int].history;
        let ghost id = i as u32;
        let mut j: usize = 0;
        while j < history.len()
            invariant
                i < project.clankers.len(),
                history == &project.clankers@[i as int].history,
                hv == project@[i as int].history,
                j <= history.len(),
                action_views(out@) == action_views(base) + replies(
                    agent_replay(name@, i as u32, hv.subrange(0, j as int)),
                ),
            decreases history.len() - j,
        {
            let ghost before = out@;
            let m = Message::ClaudeCodeMsg {
                project: name.clone(),
                clanker_id: i as u32,
                msg: copy_bytes(&history[j]),
            };
            out.push(Action::Reply(m));
            proof {
                let prev = agent_replay(name@, i as u32, hv.subrange(0, j as int));
                assert(hv[j as int] == history@[j as int]@);
                assert(agent_replay(name@, i as u32, hv.subrange(0, j + 1)) =~= prev.push(m@));
                assert(replies(prev.push(m@)) =~= replies(prev).push(ActionView::Reply(m@)));
                assert(action_views(out@) =~= action_views(before).push(ActionView::Reply(m@)));
            }
            j = j + 1;
        }
        proof {
            assert(hv.subrange(0, j as int) =~= hv);
            let s = project@.subrange(0, i + 1);
            assert(s.drop_last() =~= project@.subrange(0, i as int));
            assert(replay(name@, s) == replay(name@, project@.subrange(0, i as int)) + agent_replay(
                name@,
                i as u32,
                hv,
            ));
            assert(replies(replay(name@, s)) =~= replies(replay(name@, project@.subrange(0, i as int)))
                + replies(agent_replay(name@, i as u32, hv)));
        }
        i = i + 1;
    }
    assert(project@.subrange(0, project.clankers.len() as int) =~= project@);
}

/// The answer to a data request for project `name`.
pub fn data_request(state: &State, name: String) -> (r: Vec<Action>)
    requires
        state.wf(),
    ensures
        action_views(r@) == data_replies(name@, agents(state.model(), name@)),
{
    proof {
        state.lemma_agents(name@);
    }
    let snapshot = state.snapshot(&name);
    let mut r: Vec<Action> = Vec::new();
    push_replay(&mut r, &name, &snapshot);
    let ghost tail = r@;
    let ghost data = snapshot@;
    r.insert(0, Action::Reply(Message::DataResponse { data: snapshot, project: name }));
    proof {
        let first = ActionView::Reply(MessageView::DataResponse { data, project: name@ });
        assert(action_views(r@) =~= seq![first] + action_views(tail));
    }
    r
}

/// Handles one inbound message of a connection: updates the state and the
/// port counter, and returns what the connection then does, in order.
pub fn dispatch(state: &mut State, ports: &mut PortAllocator, msg: Message) -> (r: Vec<Action>)
    requires
        old(state).wf(),
    ensures
        final(state).wf(),
        (final(state).model(), final(ports).next_port, action_views(r@)) == dispatch_spec(
            old(state).model(),
            old(ports).next_port,
            msg@,
        ),
{
    let ghost m = msg@;
    let ghost model = state.model();
    match msg {
        Message::Ping => {
            let r = vec![Action::Reply(Message::Ping)];
            assert(action_views(r@) =~= seq![ActionView::Reply(MessageView::Ping)]);
            r
        },
        Message::DataRequest { project } => data_request(state, project),
        Message::HttpRequest { id, project, clanker_id, method, path, query, body } => {
            proof {
                state.lemma_agents(project@);
            }
            let r = match state.lookup_backend(&project, clanker_id) {
                Some(port) => vec![
                    Action::Forward {
                        port,
                        request: HttpRequestMessage { id, method, path, query, body },
                    },
                ],
                None => vec![Action::Reply(not_found(id))],
            };
            assert(action_views(r@) =~= dispatch_spec(model, ports.next_port, m).2);
            r
        },
        Message::StartClanker { project, prompt } => {
            proof {
                state.lemma_agents(project@);
            }
            if !ports.can_allocate() {
                let r = vec![Action::Ignore(Message::StartClanker { project, prompt })];
                assert(action_views(r@) =~= dispatch_spec(model, old(ports).next_port, m).2);
                return r;
            }
            let port = ports.allocate();
            match state.start_clanker(&project, port) {
                Some(id) => {
                    proof {
                        state.lemma_agents(project@);
                    }
                    let data = state.snapshot(&project);
                    let r = vec![
                        Action::Launch { port, project: project.clone(), clanker_id: id },
                        Action::Reply(Message::DataResponse { data, project }),
                    ];
                    assert(action_views(r@) =~= dispatch_spec(model, old(ports).next_port, m).2);
                    r
                },
                None => {
                    let r = vec![Action::Ignore(Message::StartClanker { project, prompt })];
                    assert(action_views(r@) =~= dispatch_spec(model, old(ports).next_port, m).2);
                    r
                },
            }
        },
        Message::ClaudeCodeMsg { project, clanker_id, msg } => {
            let r = vec![Action::Ingest(Message::ClaudeCodeMsg { project, clanker_id, msg })];
            assert(action_views(r@) =~= dispatch_spec(model, ports.next_port, m).2);
            r
        },
        other => {
            let r = vec![Action::Ignore(other)];
            assert(action_views(r@) =~= dispatch_spec(model, ports.next_port, m).2);
            r
        },
    }
}

/// What the reader of a connection got from its stream.
#[derive(Debug)]
pub enum Inbound {
    /// A line that decoded to a message.
    Decoded(Message),
    /// A line that did not decode.
    Malformed,
    /// The end of the stream.
    Closed,
}

/// Handles what the reader got: whether the connection reads on, and what
/// it does. A line that does not decode is skipped; the end of the stream
/// ends the connection.
pub fn on_inbound(state: &mut State, ports: &mut PortAllocator, event: Inbound) -> (r: (bool, Vec<Action>))
    requires
        old(state).wf(),
    ensures
        final(state).wf(),
        match event {
            Inbound::Decoded(m) => r.0 && (final(state).model(), final(ports).next_port, action_views(r.1@))
                == dispatch_spec(old(state).model(), old(ports).next_port, m@),
            Inbound::Malformed => r.0 && r.1@.len() == 0 && *final(state) == *old(state) && *final(ports) == *old(ports),
            Inbound::Closed => !r.0 && r.1@.len() == 0 && *final(state) == *old(state) && *final(ports) == *old(ports),
        },
{
    match event {
        Inbound::Decoded(m) => (true, dispatch(state, ports, m)),
        Inbound::Malformed => (true, Vec::new()),
        Inbound::Closed => (false, Vec::new()),
    }
}

} // verus!
