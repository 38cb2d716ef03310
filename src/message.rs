use vstd::prelude::*;

use crate::state::{ClankerView, ProjectState};

verus! {

/// A message of the line protocol. Payloads that the daemon does not read
/// (request and response bodies, agent events) are JSON text, as bytes.
#[derive(Debug)]
#[allow(inconsistent_fields)]
pub enum Message {
    /// Heartbeat, in both directions.
    Ping,
    /// A request for the backend of agent `clanker_id` of `project`.
    HttpRequest {
        id: String,
        project: String,
        clanker_id: u32,
        method: String,
        path: String,
        query: Option<String>,
        body: Option<Vec<u8>>,
    },
    /// A response to the request with the same `id`.
    HttpResponse { id: String, status: u16, body: Vec<u8> },
    /// Asks for a project's agents and the replay of their history.
    DataRequest { project: String },
    /// A project's agents.
    DataResponse { data: ProjectState, project: String },
    /// Asks for a project to be created from an upstream source.
    OpenProject { name: String, upstream: String },
    /// Asks for a new agent in `project`.
    StartClanker { project: String, prompt: String },
    /// An event of agent `clanker_id` of `project`.
    ClaudeCodeMsg { project: String, clanker_id: u32, msg: Vec<u8> },
}

/// What a message holds, as plain values.
#[allow(inconsistent_fields)]
pub enum MessageView {
    Ping,
    HttpRequest {
        id: Seq<char>,
        project: Seq<char>,
        clanker_id: u32,
        method: Seq<char>,
        path: Seq<char>,
        query: Option<Seq<char>>,
        body: Option<Seq<u8>>,
    },
    HttpResponse { id: Seq<char>, status: u16, body: Seq<u8> },
    DataRequest { project: Seq<char> },
    DataResponse { data: Seq<ClankerView>, project: Seq<char> },
    OpenProject { name: Seq<char>, upstream: Seq<char> },
    StartClanker { project: Seq<char>, prompt: Seq<char> },
    ClaudeCodeMsg { project: Seq<char>, clanker_id: u32, msg: Seq<u8> },
}

pub open spec fn opt_chars(s: Option<String>) -> Option<Seq<char>> {
    match s {
        Some(s) => Some(s@),
        None => None,
    }
}

pub open spec fn opt_bytes(b: Option<Vec<u8>>) -> Option<Seq<u8>> {
    match b {
        Some(b) => Some(b@),
        None => None,
    }
}

impl View for Message {
    type V = MessageView;

    open spec fn view(&self) -> MessageView {
        match self {
            Message::Ping => MessageView::Ping,
            Message::HttpRequest { id, project, clanker_id, method, path, query, body } =>
                MessageView::HttpRequest {
                id: id@,
                project: project@,
                clanker_id: *clanker_id,
                method: method@,
                path: path@,
                query: opt_chars(*query),
                body: opt_bytes(*body),
            },
            Message::HttpResponse { id, status, body } => MessageView::HttpResponse {
                id: id@,
                status: *status,
                body: body@,
            },
            Message::DataRequest { project } => MessageView::DataRequest { project: project@ },
            Message::DataResponse { data, project } => MessageView::DataResponse {
                data: data@,
                project: project@,
            },
            Message::OpenProject { name, upstream } => MessageView::OpenProject {
                name: name@,
                upstream: upstream@,
            },
            Message::StartClanker { project, prompt } => MessageView::StartClanker {
                project: project@,
                prompt: prompt@,
            },
            Message::ClaudeCodeMsg { project, clanker_id, msg } => MessageView::ClaudeCodeMsg {
                project: project@,
                clanker_id: *clanker_id,
                msg: msg@,
            },
        }
    }
}

/// A request handed to the backend of one agent.
#[derive(Debug)]
pub struct HttpRequestMessage {
    pub id: String,
    pub method: String,
    pub path: String,
    pub query: Option<String>,
    pub body: Option<Vec<u8>>,
}

/// What a backend request holds, as plain values.
pub struct HttpRequestView {
    pub id: Seq<char>,
    pub method: Seq<char>,
    pub path: Seq<char>,
    pub query: Option<Seq<char>>,
    pub body: Option<Seq<u8>>,
}

impl View for HttpRequestMessage {
    type V = HttpRequestView;

    open spec fn view(&self) -> HttpRequestView {
        HttpRequestView {
            id: self.id@,
            method: self.method@,
            path: self.path@,
            query: opt_chars(self.query),
            body: opt_bytes(self.body),
        }
    }
}

/// The messages of `v` as plain values.
pub open spec fn message_views(v: Seq<Message>) -> Seq<MessageView> {
    v.map_values(|m: Message| m@)
}

} // verus!
