use vstd::prelude::*;

use crate::message::{Message, MessageView, message_views};
use crate::sse::{is_json, json_valid, views};
use crate::state::copy_bytes;
use vstd::string::StrSliceExecFns;

verus! {

/// The path of a backend's event stream.
pub open spec fn event_path() -> Seq<char> {
    seq!['/', 'e', 'v', 'e', 'n', 't']
}

/// `{"error":"Clanker not found"}`
pub open spec fn not_found_body() -> Seq<u8> {
    seq![
        123u8, 34u8, 101u8, 114u8, 114u8, 111u8, 114u8, 34u8, 58u8, 34u8, 67u8, 108u8, 97u8,
        110u8, 107u8, 101u8, 114u8, 32u8, 110u8, 111u8, 116u8, 32u8, 102u8, 111u8, 117u8,
        110u8, 100u8, 34u8, 125u8,
    ]
}

/// `null`
pub open spec fn null_body() -> Seq<u8> {
    seq![110u8, 117u8, 108u8, 108u8]
}

pub const STATUS_OK: u16 = 200;

pub const STATUS_NOT_FOUND: u16 = 404;

/// Whether a request to `path` subscribes to the backend's event stream
/// rather than making one call.
pub fn is_stream_path(path: &String) -> (r: bool)
    ensures
        r == (path@ == event_path()),
{
    let event = "/event".to_string();
    proof {
        reveal_strlit("/event");
        assert(event@ =~= event_path());
    }
    *path == event
}

/// The answer to a request for an agent that has no live backend.
pub fn not_found(id: String) -> (r: Message)
    ensures
        r@ == (MessageView::HttpResponse { id: id@, status: 404, body: not_found_body() }),
{
    let body: Vec<u8> = vec![
        123u8, 34u8, 101u8, 114u8, 114u8, 111u8, 114u8, 34u8, 58u8, 34u8, 67u8, 108u8, 97u8,
        110u8, 107u8, 101u8, 114u8, 32u8, 110u8, 111u8, 116u8, 32u8, 102u8, 111u8, 117u8,
        110u8, 100u8, 34u8, 125u8,
    ];
    assert(body@ =~= not_found_body());
    Message::HttpResponse { id, status: STATUS_NOT_FOUND, body }
}

/// The body that a response carries: `body` where it is well-formed JSON
/// (`valid`), else `null`.
pub open spec fn response_body(body: Seq<u8>, valid: bool) -> Seq<u8> {
    if valid {
        body
    } else {
        null_body()
    }
}

/// The response to a plain call, from the backend's status and body and
/// whether that body is well-formed JSON.
pub fn response_from(id: String, status: u16, body: Vec<u8>, valid: bool) -> (r: Message)
    ensures
        r@ == (MessageView::HttpResponse { id: id@, status, body: response_body(body@, valid) }),
{
    if valid {
        Message::HttpResponse { id, status, body }
    } else {
        let null: Vec<u8> = vec![110u8, 117u8, 108u8, 108u8];
        assert(null@ =~= null_body());
        Message::HttpResponse { id, status, body: null }
    }
}

/// The response to a plain call: the backend's status, and its body where
/// that is well-formed JSON, else `null`.
pub fn plain_response(id: String, status: u16, body: Vec<u8>) -> (r: Message)
    ensures
        r@ == (MessageView::HttpResponse {
            id: id@,
            status,
            body: response_body(body@, json_valid(body@)),
        }),
{
    let valid = is_json(body.as_slice());
    response_from(id, status, body, valid)
}

/// One response with status 200 for each event, all with the request's id,
/// in the order of the events.
pub open spec fn stream_responses(id: Seq<char>, events: Seq<Seq<u8>>) -> Seq<MessageView> {
    events.map_values(|e: Seq<u8>| MessageView::HttpResponse { id, status: 200, body: e })
}

/// The responses that carry the events of a stream to the request `id`.
pub fn sse_responses(id: &String, events: &Vec<Vec<u8>>) -> (r: Vec<Message>)
    ensures
        message_views(r@) == stream_responses(id@, views(events@)),
{
    let mut r: Vec<Message> = Vec::new();
    let mut i: usize = 0;
    while i < events.len()
        invariant
            i <= events.len(),
            message_views(r@) == stream_responses(id@, views(events@.subrange(0, i as int))),
        decreases events.len() - i,
    {
        let ghost before = r@;
        let m = Message::HttpResponse { id: id.clone(), status: STATUS_OK, body: copy_bytes(&events[i]) };
        assert(m@ == (MessageView::HttpResponse { id: id@, status: 200, body: events@[i as int]@ }));
        r.push(m);
        assert(r@ == before.push(m));
        let ghost es = views(events@.subrange(0, i as int));
        assert(views(events@.subrange(0, i + 1)) =~= es.push(events@[i as int]@));
        assert(message_views(r@) =~= message_views(before).push(m@));
        assert(stream_responses(id@, es.push(events@[i as int]@)) =~= stream_responses(id@, es).push(m@));
        assert(message_views(r@) =~= stream_responses(id@, views(events@.subrange(0, i + 1))));
        i = i + 1;
    }
    assert(events@.subrange(0, events.len() as int) =~= events@);
    r
}

/// `http://localhost:`
pub open spec fn local_origin() -> Seq<char> {
    seq!['h', 't', 't', 'p', ':', '/', '/', 'l', 'o', 'c', 'a', 'l', 'h', 'o', 's', 't', ':']
}

/// The decimal digit `d`.
pub open spec fn digit(d: nat) -> char {
    if d == 0 { '0' } else if d == 1 { '1' } else if d == 2 { '2' } else if d == 3 { '3' }
    else if d == 4 { '4' } else if d == 5 { '5' } else if d == 6 { '6' } else if d == 7 { '7' }
    else if d == 8 { '8' } else { '9' }
}

/// `n` written in decimal, without leading zeros.
pub open spec fn decimal(n: nat) -> Seq<char>
    decreases n,
{
    if n < 10 {
        seq![digit(n)]
    } else {
        decimal(n / 10).push(digit(n % 10))
    }
}

/// The address of `path` on the backend listening on `port`, with the
/// query string if there is one.
pub open spec fn target_url(port: u16, path: Seq<char>, query: Option<Seq<char>>) -> Seq<char> {
    local_origin() + decimal(port as nat) + path + match query {
        Some(q) => seq!['?'] + q,
        None => Seq::empty(),
    }
}

fn digit_char(d: u16) -> (c: char)
    requires
        d < 10,
    ensures
        c == digit(d as nat),
{
    if d == 0 { '0' } else if d == 1 { '1' } else if d == 2 { '2' } else if d == 3 { '3' }
    else if d == 4 { '4' } else if d == 5 { '5' } else if d == 6 { '6' } else if d == 7 { '7' }
    else if d == 8 { '8' } else { '9' }
}

fn push_decimal(out: &mut Vec<char>, n: u16)
    ensures
        final(out)@ == old(out)@ + decimal(n as nat),
    decreases n,
{
    if n >= 10 {
        push_decimal(out, n / 10);
    }
    out.push(digit_char(n % 10));
    assert(out@ =~= old(out)@ + decimal(n as nat));
}

fn push_chars(out: &mut Vec<char>, s: &str)
    ensures
        final(out)@ == old(out)@ + s@,
{
    let n = s.unicode_len();
    let mut i: usize = 0;
    while i < n
        invariant
            n == s@.len(),
            i <= n,
            out@ == old(out)@ + s@.subrange(0, i as int),
        decreases n - i,
    {
        out.push(s.get_char(i));
        assert(s@.subrange(0, i + 1) =~= s@.subrange(0, i as int).push(s@[i as int]));
        i = i + 1;
    }
    assert(s@.subrange(0, n as int) =~= s@);
}

/// The characters of the address that a request for `path` (and `query`)
/// goes to on the backend listening on `port`.
pub fn request_url(port: u16, path: &String, query: &Option<String>) -> (r: Vec<char>)
    ensures
        r@ == target_url(port, path@, crate::message::opt_chars(*query)),
{
    let mut r: Vec<char> = Vec::new();
    let origin = "http://localhost:";
    proof {
        reveal_strlit("http://localhost:");
        assert(origin@ =~= local_origin());
    }
    push_chars(&mut r, origin);
    push_decimal(&mut r, port);
    push_chars(&mut r, path.as_str());
    match query {
        Some(q) => {
            r.push('?');
            push_chars(&mut r, q.as_str());
        },
        None => {},
    }
    assert(r@ =~= target_url(port, path@, crate::message::opt_chars(*query)));
    r
}

} // verus!
