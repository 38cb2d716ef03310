use vstd::prelude::*;

use crate::message::{Message, MessageView};
use crate::session::agents;
use crate::state::{appended, copy_bytes, ClankerView, State};

verus! {

/// The state after the aggregator took `m`: an agent event is appended to
/// its agent's history; anything else changes nothing.
pub open spec fn ingest_spec(model: Map<Seq<char>, Seq<ClankerView>>, m: MessageView) -> Map<
    Seq<char>,
    Seq<ClankerView>,
> {
    match m {
        MessageView::ClaudeCodeMsg { project, clanker_id, msg } => model.insert(
            project,
            appended(agents(model, project), clanker_id, msg),
        ),
        _ => model,
    }
}

/// The state after the aggregator took `ms`, in order.
pub open spec fn ingest_all(model: Map<Seq<char>, Seq<ClankerView>>, ms: Seq<MessageView>) -> Map<
    Seq<char>,
    Seq<ClankerView>,
>
    decreases ms.len(),
{
    if ms.len() == 0 {
        model
    } else {
        ingest_spec(ingest_all(model, ms.drop_last()), ms.last())
    }
}

/// Takes one message off the ingestion queue: commits an agent event to its
/// agent's history, then hands the message back to be published.
pub fn ingest(state: &mut State, msg: Message) -> (r: Message)
    requires
        old(state).wf(),
    ensures
        final(state).wf(),
        final(state).model() == ingest_spec(old(state).model(), msg@),
        r@ == msg@,
{
    match msg {
        Message::ClaudeCodeMsg { project, clanker_id, msg } => {
            proof {
                state.lemma_agents(project@);
            }
            let event = copy_bytes(&msg);
            state.append_history(&project, clanker_id, event);
            Message::ClaudeCodeMsg { project, clanker_id, msg }
        },
        other => other,
    }
}

} // verus!
