use clanker::aggregator::ingest;
use clanker::message::{HttpRequestMessage, Message};
use clanker::ports::PortAllocator;
use clanker::proxy::{is_stream_path, not_found, plain_response, request_url, sse_responses};
use clanker::session::{dispatch, on_inbound, Action, Inbound};
use clanker::sse::SseDecoder;
use clanker::state::{ClankerStatus, State};

fn s(x: &str) -> String {
    x.to_string()
}

fn start(state: &mut State, ports: &mut PortAllocator, project: &str) -> Vec<Action> {
    dispatch(state, ports, Message::StartClanker { project: s(project), prompt: s("x") })
}

fn event(project: &str, id: u32, body: &str) -> Message {
    Message::ClaudeCodeMsg { project: s(project), clanker_id: id, msg: body.as_bytes().to_vec() }
}

fn http_request(id: &str, project: &str, clanker_id: u32, path: &str) -> Message {
    Message::HttpRequest {
        id: s(id),
        project: s(project),
        clanker_id,
        method: s("GET"),
        path: s(path),
        query: None,
        body: None,
    }
}

#[test]
fn ports_start_at_8000_and_increase() {
    let mut ports = PortAllocator::new();
    assert!(ports.can_allocate());
    assert_eq!(ports.allocate(), 8000);
    assert_eq!(ports.allocate(), 8001);
    assert_eq!(ports.next_port, 8002);
}

#[test]
fn ports_run_out_at_the_top_of_the_range() {
    let mut ports = PortAllocator { next_port: u16::MAX - 1 };
    assert!(ports.can_allocate());
    assert_eq!(ports.allocate(), u16::MAX - 1);
    assert!(!ports.can_allocate());
}

#[test]
fn data_request_for_unknown_project_is_empty() {
    let mut state = State::default();
    let mut ports = PortAllocator::new();
    let out = dispatch(&mut state, &mut ports, Message::DataRequest { project: s("nope") });
    assert_eq!(out.len(), 1);
    match &out[0] {
        Action::Reply(Message::DataResponse { data, project }) => {
            assert_eq!(project, "nope");
            assert!(data.clankers.is_empty());
        }
        other => panic!("unexpected {:?}", matches!(other, Action::Reply(_))),
    }
    assert!(state.projects.is_empty());
}

#[test]
fn data_request_replays_history_per_agent_in_order() {
    let mut state = State::default();
    let mut ports = PortAllocator::new();
    start(&mut state, &mut ports, "p");
    start(&mut state, &mut ports, "p");
    ingest(&mut state, event("p", 0, "1"));
    ingest(&mut state, event("p", 1, "\"a\""));
    ingest(&mut state, event("p", 0, "2"));
    ingest(&mut state, event("p", 1, "\"b\""));
    ingest(&mut state, event("p", 0, "3"));
    let out = dispatch(&mut state, &mut ports, Message::DataRequest { project: s("p") });
    assert_eq!(out.len(), 1 + 5);
    match &out[0] {
        Action::Reply(Message::DataResponse { data, project }) => {
            assert_eq!(project, "p");
            assert_eq!(data.clankers.len(), 2);
            assert_eq!(data.clankers[0].history.len(), 3);
            assert_eq!(data.clankers[1].history.len(), 2);
        }
        _ => panic!("first reply is not a data response"),
    }
    let mut seen: Vec<(u32, String)> = Vec::new();
    for a in &out[1..] {
        match a {
            Action::Reply(Message::ClaudeCodeMsg { project, clanker_id, msg }) => {
                assert_eq!(project, "p");
                seen.push((*clanker_id, String::from_utf8(msg.clone()).unwrap()));
            }
            _ => panic!("replay holds something else"),
        }
    }
    assert_eq!(
        seen,
        vec![
            (0, s("1")),
            (0, s("2")),
            (0, s("3")),
            (1, s("\"a\"")),
            (1, s("\"b\"")),
        ]
    );
}

#[test]
fn two_starts_get_distinct_increasing_ports() {
    let mut state = State::default();
    let mut ports = PortAllocator::new();
    let a = start(&mut state, &mut ports, "p");
    let b = start(&mut state, &mut ports, "p");
    match (&a[0], &b[0]) {
        (
            Action::Launch { port: first_port, project: first_project, clanker_id: first_id },
            Action::Launch { port: second_port, project: second_project, clanker_id: second_id },
        ) => {
            assert_eq!((*first_port, *first_id), (8000, 0));
            assert_eq!((*second_port, *second_id), (8001, 1));
            assert!(first_port < second_port);
            assert_eq!(first_project, "p");
            assert_eq!(second_project, "p");
        }
        _ => panic!("no launch"),
    }
}

#[test]
fn request_without_backend_gets_one_not_found() {
    let mut state = State::default();
    let mut ports = PortAllocator::new();
    let out = dispatch(&mut state, &mut ports, http_request("r9", "p", 3, "/status"));
    assert_eq!(out.len(), 1);
    match &out[0] {
        Action::Reply(Message::HttpResponse { id, status, body }) => {
            assert_eq!(id, "r9");
            assert_eq!(*status, 404);
            assert_eq!(body.as_slice(), b"{\"error\":\"Clanker not found\"}");
        }
        _ => panic!("expected a direct reply"),
    }
    assert!(state.projects.is_empty());
}

#[test]
fn not_found_body_is_the_error_object() {
    match not_found(s("q")) {
        Message::HttpResponse { id, status, body } => {
            assert_eq!(id, "q");
            assert_eq!(status, 404);
            assert_eq!(String::from_utf8(body).unwrap(), "{\"error\":\"Clanker not found\"}");
        }
        _ => panic!("not a response"),
    }
}

#[test]
fn event_stream_gives_three_responses_in_order() {
    let mut dec = SseDecoder::new();
    let mut events: Vec<Vec<u8>> = Vec::new();
    events.extend(dec.events(b"data: {\"n\":1}\n\ndata: {\"n\""));
    events.extend(dec.events(b":2}\n\nevent: x\ndata: {\"n\":3}\r\n\r\n"));
    assert_eq!(
        events,
        vec![b"{\"n\":1}".to_vec(), b"{\"n\":2}".to_vec(), b"{\"n\":3}".to_vec()]
    );
    let out = sse_responses(&s("r1"), &events);
    assert_eq!(out.len(), 3);
    for (k, m) in out.iter().enumerate() {
        match m {
            Message::HttpResponse { id, status, body } => {
                assert_eq!(id, "r1");
                assert_eq!(*status, 200);
                assert_eq!(body, &events[k]);
            }
            _ => panic!("not a response"),
        }
    }
}

#[test]
fn event_stream_skips_data_that_is_not_json() {
    let mut dec = SseDecoder::new();
    let events = dec.events(b"data: {broken\n\ndata: [1,2]\n\ndata: 7\n");
    assert_eq!(events, vec![b"[1,2]".to_vec(), b"7".to_vec()]);
}

#[test]
fn event_stream_keeps_unfinished_line() {
    let mut dec = SseDecoder::new();
    assert!(dec.events(b"data: {\"a\":").is_empty());
    assert_eq!(dec.pending, b"data: {\"a\":".to_vec());
    assert_eq!(dec.events(b"1}\n"), vec![b"{\"a\":1}".to_vec()]);
    assert!(dec.pending.is_empty());
}

#[test]
fn feed_splits_lines() {
    let mut dec = SseDecoder::new();
    let lines = dec.feed(b"a\nbc\r\n\nd");
    assert_eq!(lines, vec![b"a".to_vec(), b"bc\r".to_vec(), b"".to_vec()]);
    assert_eq!(dec.pending, b"d".to_vec());
}

#[test]
fn malformed_line_does_not_end_connection() {
    let mut state = State::default();
    let mut ports = PortAllocator::new();
    let (go_on, out) = on_inbound(&mut state, &mut ports, Inbound::Malformed);
    assert!(go_on);
    assert!(out.is_empty());
    let (go_on, out) = on_inbound(&mut state, &mut ports, Inbound::Decoded(Message::Ping));
    assert!(go_on);
    assert_eq!(out.len(), 1);
    assert!(matches!(out[0], Action::Reply(Message::Ping)));
    let (go_on, out) = on_inbound(&mut state, &mut ports, Inbound::Closed);
    assert!(!go_on);
    assert!(out.is_empty());
}

#[test]
fn start_then_request_reaches_the_backend() {
    let mut state = State::default();
    let mut ports = PortAllocator::new();
    let out = start(&mut state, &mut ports, "p");
    assert_eq!(out.len(), 2);
    match &out[1] {
        Action::Reply(Message::DataResponse { data, project }) => {
            assert_eq!(project, "p");
            assert_eq!(data.clankers.len(), 1);
            assert_eq!(data.clankers[0].status, ClankerStatus::Running);
            assert_eq!(data.clankers[0].port, Some(8000));
        }
        _ => panic!("no data response"),
    }
    let out = dispatch(&mut state, &mut ports, http_request("r1", "p", 0, "/status"));
    assert_eq!(out.len(), 1);
    match &out[0] {
        Action::Forward { port, request } => {
            let HttpRequestMessage { id, method, path, query, body } = request;
            assert_eq!(*port, 8000);
            assert_eq!(id, "r1");
            assert_eq!(method, "GET");
            assert_eq!(path, "/status");
            assert!(query.is_none());
            assert!(body.is_none());
        }
        _ => panic!("request was not forwarded"),
    }
}

#[test]
fn events_are_ingested_in_arrival_order() {
    let mut state = State::default();
    let mut ports = PortAllocator::new();
    start(&mut state, &mut ports, "p");
    for k in 0..4 {
        let back = ingest(&mut state, event("p", 0, &format!("{}", k)));
        assert!(matches!(back, Message::ClaudeCodeMsg { clanker_id: 0, .. }));
    }
    let hist: Vec<String> = state.projects[0].state.clankers[0]
        .history
        .iter()
        .map(|e| String::from_utf8(e.clone()).unwrap())
        .collect();
    assert_eq!(hist, vec![s("0"), s("1"), s("2"), s("3")]);
}

#[test]
fn event_for_next_agent_creates_it_and_far_agent_is_dropped() {
    let mut state = State::default();
    assert!(state.append_history(&s("q"), 0, b"1".to_vec()));
    assert!(!state.append_history(&s("q"), 5, b"2".to_vec()));
    assert_eq!(state.projects.len(), 1);
    let c = &state.projects[0].state.clankers;
    assert_eq!(c.len(), 1);
    assert_eq!(c[0].status, ClankerStatus::Waiting);
    assert_eq!(c[0].history, vec![b"1".to_vec()]);
}

#[test]
fn claude_event_goes_to_the_aggregator() {
    let mut state = State::default();
    let mut ports = PortAllocator::new();
    let out = dispatch(&mut state, &mut ports, event("p", 0, "{}"));
    assert_eq!(out.len(), 1);
    assert!(matches!(out[0], Action::Ingest(Message::ClaudeCodeMsg { .. })));
    assert!(state.projects.is_empty());
}

#[test]
fn open_project_and_stray_responses_are_ignored() {
    let mut state = State::default();
    let mut ports = PortAllocator::new();
    let out = dispatch(
        &mut state,
        &mut ports,
        Message::OpenProject { name: s("n"), upstream: s("u") },
    );
    assert_eq!(out.len(), 1);
    assert!(matches!(out[0], Action::Ignore(Message::OpenProject { .. })));
    let out = dispatch(
        &mut state,
        &mut ports,
        Message::HttpResponse { id: s("i"), status: 200, body: b"1".to_vec() },
    );
    assert!(matches!(out[0], Action::Ignore(Message::HttpResponse { .. })));
}

#[test]
fn start_is_ignored_when_ports_run_out() {
    let mut state = State::default();
    let mut ports = PortAllocator { next_port: u16::MAX };
    let out = start(&mut state, &mut ports, "p");
    assert_eq!(out.len(), 1);
    assert!(matches!(out[0], Action::Ignore(Message::StartClanker { .. })));
    assert!(state.projects.is_empty());
}

#[test]
fn plain_response_keeps_json_and_nulls_the_rest() {
    match plain_response(s("a"), 201, b"{\"ok\":true}".to_vec()) {
        Message::HttpResponse { id, status, body } => {
            assert_eq!(id, "a");
            assert_eq!(status, 201);
            assert_eq!(body, b"{\"ok\":true}".to_vec());
        }
        _ => panic!(),
    }
    match plain_response(s("b"), 500, b"<html>oops".to_vec()) {
        Message::HttpResponse { status, body, .. } => {
            assert_eq!(status, 500);
            assert_eq!(body, b"null".to_vec());
        }
        _ => panic!(),
    }
}

#[test]
fn urls_carry_port_path_and_query() {
    let u: String = request_url(8000, &s("/session"), &None).into_iter().collect();
    assert_eq!(u, "http://localhost:8000/session");
    let u: String = request_url(9, &s("/x"), &Some(s("a=1&b=2"))).into_iter().collect();
    assert_eq!(u, "http://localhost:9/x?a=1&b=2");
    let u: String = request_url(65535, &s("/"), &None).into_iter().collect();
    assert_eq!(u, "http://localhost:65535/");
}

#[test]
fn only_event_path_streams() {
    assert!(is_stream_path(&s("/event")));
    assert!(!is_stream_path(&s("/events")));
    assert!(!is_stream_path(&s("/session")));
}

#[test]
fn lookup_finds_live_backend_only() {
    let mut state = State::default();
    assert_eq!(state.start_clanker(&s("p"), 8100), Some(0));
    assert_eq!(state.lookup_backend(&s("p"), 0), Some(8100));
    assert_eq!(state.lookup_backend(&s("p"), 1), None);
    assert_eq!(state.lookup_backend(&s("other"), 0), None);
    let snap = state.snapshot(&s("p"));
    assert_eq!(snap.clankers.len(), 1);
    assert!(snap.clankers[0].backend);
}
