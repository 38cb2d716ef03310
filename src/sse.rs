use vstd::prelude::*;

use crate::state::copy_bytes;

verus! {

pub const NEWLINE: u8 = 10;

pub const CARRIAGE_RETURN: u8 = 13;

/// The bytes of `data: `, the prefix of a server-sent event's data line.
pub open spec fn data_prefix() -> Seq<u8> {
    seq![100u8, 97u8, 116u8, 97u8, 58u8, 32u8]
}

/// Splits `bytes` into lines after `pending`, the unfinished line left
/// over from earlier bytes: the complete lines (without their newline) and
/// the new unfinished line.
pub open spec fn scan(pending: Seq<u8>, bytes: Seq<u8>) -> (Seq<Seq<u8>>, Seq<u8>)
    decreases bytes.len(),
{
    if bytes.len() == 0 {
        (Seq::empty(), pending)
    } else {
        let prev = scan(pending, bytes.drop_last());
        if bytes.last() == NEWLINE {
            (prev.0.push(prev.1), Seq::empty())
        } else {
            (prev.0, prev.1.push(bytes.last()))
        }
    }
}

/// A line without the carriage return that may end it.
pub open spec fn strip_cr(line: Seq<u8>) -> Seq<u8> {
    if line.len() > 0 && line.last() == CARRIAGE_RETURN {
        line.drop_last()
    } else {
        line
    }
}

/// What follows `data: ` on a data line; `None` on any other line.
pub open spec fn data_payload(line: Seq<u8>) -> Option<Seq<u8>> {
    let l = strip_cr(line);
    if l.len() >= 6 && l.subrange(0, 6) == data_prefix() {
        Some(l.subrange(6, l.len() as int))
    } else {
        None
    }
}

/// The payloads of the data lines among `lines`, in order.
pub open spec fn payloads(lines: Seq<Seq<u8>>) -> Seq<Seq<u8>>
    decreases lines.len(),
{
    if lines.len() == 0 {
        Seq::empty()
    } else {
        let rest = payloads(lines.drop_last());
        match data_payload(lines.last()) {
            Some(p) => rest.push(p),
            None => rest,
        }
    }
}

/// The items of `items` whose flag in `keep` is set, in order.
pub open spec fn selected(items: Seq<Seq<u8>>, keep: Seq<bool>) -> Seq<Seq<u8>>
    decreases items.len(),
{
    if items.len() == 0 {
        Seq::empty()
    } else {
        let rest = selected(items.drop_last(), keep);
        if keep[items.len() - 1] {
            rest.push(items.last())
        } else {
            rest
        }
    }
}

/// Whether `text` is one well-formed JSON value.
pub uninterp spec fn json_valid(text: Seq<u8>) -> bool;

/// The items of `items` that are well-formed JSON, in order.
pub open spec fn json_only(items: Seq<Seq<u8>>) -> Seq<Seq<u8>>
    decreases items.len(),
{
    if items.len() == 0 {
        Seq::empty()
    } else {
        let rest = json_only(items.drop_last());
        if json_valid(items.last()) {
            rest.push(items.last())
        } else {
            rest
        }
    }
}

/// The byte strings of `v` as sequences.
pub open spec fn views(v: Seq<Vec<u8>>) -> Seq<Seq<u8>> {
    v.map_values(|b: Vec<u8>| b@)
}

/// Relies on serde_json::from_slice: whether `text` parses as a
/// `serde_json::Value`, which depends on the bytes alone.
#[verifier::external_body]
pub(crate) fn is_json(text: &[u8]) -> (r: bool)
    ensures
        r == json_valid(text@),
{
    serde_json::from_slice::<serde_json::Value>(text).is_ok()
}

/// The payload of `line` if it is a data line.
pub fn data_line_payload(line: &Vec<u8>) -> (r: Option<Vec<u8>>)
    ensures
        r.is_some() == data_payload(line@).is_some(),
        r.is_some() ==> r.unwrap()@ == data_payload(line@).unwrap(),
{
    let mut end = line.len();
    if end > 0 && line[end - 1] == CARRIAGE_RETURN {
        end = end - 1;
    }
    let ghost l = strip_cr(line@);
    assert(l == line@.subrange(0, end as int));
    if end < 6 || line[0] != 100u8 || line[1] != 97u8 || line[2] != 116u8 || line[3] != 97u8
        || line[4] != 58u8 || line[5] != 32u8 {
        proof {
            if l.len() >= 6 && l.subrange(0, 6) == data_prefix() {
                assert(l.subrange(0, 6)[0] == 100u8);
                assert(l.subrange(0, 6)[1] == 97u8);
                assert(l.subrange(0, 6)[2] == 116u8);
                assert(l.subrange(0, 6)[3] == 97u8);
                assert(l.subrange(0, 6)[4] == 58u8);
                assert(l.subrange(0, 6)[5] == 32u8);
            }
        }
        return None;
    }
    assert(l.subrange(0, 6) =~= data_prefix());
    let mut p: Vec<u8> = Vec::new();
    let mut i: usize = 6;
    while i < end
        invariant
            6 <= i <= end <= line.len(),
            p@ == line@.subrange(6, i as int),
        decreases end - i,
    {
        p.push(line[i]);
        i = i + 1;
    }
    assert(p@ =~= l.subrange(6, l.len() as int));
    Some(p)
}

/// The payloads of the data lines among `lines`, in order.
pub fn data_payloads(lines: &Vec<Vec<u8>>) -> (r: Vec<Vec<u8>>)
    ensures
        views(r@) == payloads(views(lines@)),
{
    let mut r: Vec<Vec<u8>> = Vec::new();
    let mut i: usize = 0;
    while i < lines.len()
        invariant
            i <= lines.len(),
            views(r@) == payloads(views(lines@.subrange(0, i as int))),
        decreases lines.len() - i,
    {
        let ghost before = r@;
        let got = data_line_payload(&lines[i]);
        match got {
            Some(p) => r.push(p),
            None => {},
        }
        proof {
            let s = views(lines@.subrange(0, i + 1));
            assert(s.drop_last() =~= views(lines@.subrange(0, i as int)));
            assert(s.last() == lines@[i as int]@);
            assert(views(r@) =~= payloads(s));
        }
        i = i + 1;
    }
    assert(lines@.subrange(0, lines.len() as int) =~= lines@);
    r
}

/// The items of `items` whose flag in `keep` is set, in order.
pub fn select(items: &Vec<Vec<u8>>, keep: &Vec<bool>) -> (r: Vec<Vec<u8>>)
    requires
        keep.len() == items.len(),
    ensures
        views(r@) == selected(views(items@), keep@),
{
    let mut r: Vec<Vec<u8>> = Vec::new();
    let mut i: usize = 0;
    while i < keep.len()
        invariant
            i <= keep.len() == items.len(),
            views(r@) == selected(views(items@.subrange(0, i as int)), keep@),
        decreases keep.len() - i,
    {
        if keep[i] {
            r.push(copy_bytes(&items[i]));
        }
        proof {
            let s = views(items@.subrange(0, i + 1));
            assert(s.drop_last() =~= views(items@.subrange(0, i as int)));
            assert(s.last() == items@[i as int]@);
            assert(views(r@) =~= selected(s, keep@));
        }
        i = i + 1;
    }
    assert(items@.subrange(0, items.len() as int) =~= items@);
    r
}

/// Selecting by JSON validity keeps exactly the well-formed items.
pub proof fn lemma_selected_json(items: Seq<Seq<u8>>, keep: Seq<bool>)
    requires
        keep.len() == items.len(),
        forall|j: int| 0 <= j < items.len() ==> keep[j] == json_valid(#[trigger] items[j]),
    ensures
        selected(items, keep) == json_only(items),
    decreases items.len(),
{
    if items.len() > 0 {
        let k = keep.subrange(0, items.len() - 1);
        lemma_selected_prefix(items.drop_last(), keep);
        lemma_selected_json(items.drop_last(), k);
        lemma_selected_prefix(items.drop_last(), k);
    }
}

/// `selected` reads only as many flags as there are items.
proof fn lemma_selected_prefix(items: Seq<Seq<u8>>, keep: Seq<bool>)
    requires
        items.len() <= keep.len(),
    ensures
        selected(items, keep) == selected(items, keep.subrange(0, items.len() as int)),
    decreases items.len(),
{
    if items.len() > 0 {
        lemma_selected_prefix(items.drop_last(), keep);
        lemma_selected_prefix(items.drop_last(), keep.subrange(0, items.len() as int));
        assert(keep.subrange(0, items.len() as int).subrange(0, items.len() - 1) =~= keep.subrange(
            0,
            items.len() - 1,
        ));
    }
}

/// Splits a stream of bytes into the data payloads of server-sent events,
/// whatever the boundaries between the chunks it arrives in.
pub struct SseDecoder {
    /// The line that has begun but not ended yet.
    pub pending: Vec<u8>,
}

impl SseDecoder {
    pub fn new() -> (r: Self)
        ensures
            r.pending@ == Seq::<u8>::empty(),
    {
        SseDecoder { pending: Vec::new() }
    }

    /// The lines that `chunk` completes, without their newlines.
    pub fn feed(&mut self, chunk: &[u8]) -> (r: Vec<Vec<u8>>)
        ensures
            views(r@) == scan(old(self).pending@, chunk@).0,
            final(self).pending@ == scan(old(self).pending@, chunk@).1,
    {
        let ghost start = self.pending@;
        let mut lines: Vec<Vec<u8>> = Vec::new();
        let mut cur: Vec<u8> = Vec::new();
        std::mem::swap(&mut cur, &mut self.pending);
        let mut i: usize = 0;
        while i < chunk.len()
            invariant
                i <= chunk.len(),
                views(lines@) == scan(start, chunk@.subrange(0, i as int)).0,
                cur@ == scan(start, chunk@.subrange(0, i as int)).1,
            decreases chunk.len() - i,
        {
            let ghost prefix = chunk@.subrange(0, i + 1);
            assert(prefix.drop_last() =~= chunk@.subrange(0, i as int));
            let b = chunk[i];
            if b == NEWLINE {
                let mut line: Vec<u8> = Vec::new();
                std::mem::swap(&mut line, &mut cur);
                let ghost lv = line@;
                lines.push(line);
                assert(views(lines@) =~= scan(start, chunk@.subrange(0, i as int)).0.push(lv));
            } else {
                cur.push(b);
            }
            i = i + 1;
        }
        assert(chunk@.subrange(0, chunk.len() as int) =~= chunk@);
        self.pending = cur;
        lines
    }

    /// The well-formed JSON payloads of the data lines that `chunk`
    /// completes, in the order they were sent.
    pub fn events(&mut self, chunk: &[u8]) -> (r: Vec<Vec<u8>>)
        ensures
            views(r@) == json_only(payloads(scan(old(self).pending@, chunk@).0)),
            final(self).pending@ == scan(old(self).pending@, chunk@).1,
    {
        let lines = self.feed(chunk);
        let found = data_payloads(&lines);
        let mut keep: Vec<bool> = Vec::new();
        let mut i: usize = 0;
        while i < found.len()
            invariant
                i <= found.len(),
                keep@.len() == i,
                forall|j: int| 0 <= j < i ==> keep@[j] == json_valid(#[trigger] found@[j]@),
            decreases found.len() - i,
        {
            let ok = is_json(found[i].as_slice());
            keep.push(ok);
            i = i + 1;
        }
        let r = select(&found, &keep);
        proof {
            let items = views(found@);
            assert forall|j: int| 0 <= j < items.len() implies keep@[j] == json_valid(
                #[trigger] items[j],
            ) by {
                assert(items[j] == found@[j]@);
            }
            lemma_selected_json(items, keep@);
        }
        r
    }
}

} // verus!
