//! The agent loop's decisions.
//!
//! One step is one model call and, when the answer asks for tools, one round
//! of tool execution. The caller performs the call and the tool round; the
//! agent records each outcome in the history and says what comes next.
use vstd::prelude::*;
use crate::executor::{call_ids, result_ids};
use crate::history::{keep_last, History};
use crate::types::{
    ToolCall,
    copy_tool_calls, FinishReason, LLMResponse, Message, SystemMessage, TimedMessage,
    ToolDefinition, ToolResult, UserMessage,
};

verus! {

/// What the caller does next.
#[derive(Debug)]
pub enum Next {
    /// Call the model again with the history.
    CallModel,
    /// Run these tool calls, hand the results to `record_tool_results`, and
    /// call the model again.
    RunTools(Vec<ToolCall>),
    /// The run is over; this is the answer.
    Finished(String),
}

/// The turn recorded for a model response.
pub open spec fn assistant_turn(response: LLMResponse, timestamp: u64, elapsed: u64) -> TimedMessage {
    TimedMessage { message: Message::Assistant(response.message), timestamp, elapsed }
}

/// The turn recorded for a tool result.
pub open spec fn tool_turn(r: ToolResult) -> TimedMessage {
    TimedMessage { message: Message::Tool(r.tool_message), timestamp: r.timestamp, elapsed: r.elapsed }
}

/// The turns recorded for some tool results.
pub open spec fn tool_turns(rs: Seq<ToolResult>) -> Seq<TimedMessage> {
    rs.map_values(|r: ToolResult| tool_turn(r))
}

/// Whether the response asks for at least one tool call.
pub open spec fn requests_tools(response: LLMResponse) -> bool {
    response.message.tool_calls is Some && response.message.tool_calls->Some_0@.len() > 0
}

/// Whether the finish reason lets the loop go on.
pub open spec fn continues(f: FinishReason) -> bool {
    f is ToolCalls
}

/// The id a turn answers, for a tool turn.
pub open spec fn answered_id(t: TimedMessage) -> Seq<char> {
    match t.message {
        Message::Tool(m) => m.tool_call_id@,
        _ => Seq::empty(),
    }
}

fn is_tool_calls(f: &FinishReason) -> (r: bool)
    ensures
        r == continues(*f),
{
    match f {
        FinishReason::ToolCalls => true,
        _ => false,
    }
}

/// The conversation state of an agent: its history, the tools it
/// advertises, and what the last response left to do.
pub struct Agent<H> {
    history: H,
    tools: Vec<ToolDefinition>,
}

impl<H: History> Agent<H> {
    /// The history.
    pub closed spec fn store(&self) -> H {
        self.history
    }

    /// The advertised tools.
    pub closed spec fn tool_list(&self) -> Seq<ToolDefinition> {
        self.tools@
    }

    /// An agent with the given history and no tools.
    pub fn new(history: H) -> (r: Self)
        ensures
            r.store() == history,
            r.tool_list() == Seq::<ToolDefinition>::empty(),
    {
        Agent { history, tools: Vec::new() }
    }

    /// Replaces the history.
    pub fn with_history<G: History>(self, history: G) -> (r: Agent<G>)
        ensures
            r.store() == history,
            r.tool_list() == self.tool_list(),
    {
        Agent { history, tools: self.tools }
    }

    /// Appends a system turn made at `timestamp`.
    pub fn system(self, content: String, timestamp: u64) -> (r: Self)
        ensures
            r.store().bound() == self.store().bound(),
            r.store().turns() == keep_last(self.store().turns().push(TimedMessage {
                message: Message::System(SystemMessage { content }),
                timestamp,
                elapsed: 0,
            }), self.store().bound()),
            r.tool_list() == self.tool_list(),
    {
        let mut s = self;
        s.history.add(TimedMessage { message: Message::System(SystemMessage { content }), timestamp, elapsed: 0 });
        s
    }

    /// Appends a user turn made at `timestamp`.
    pub fn user(&mut self, content: String, timestamp: u64)
        ensures
            final(self).store().bound() == old(self).store().bound(),
            final(self).store().turns() == keep_last(old(self).store().turns().push(TimedMessage {
                message: Message::User(UserMessage { content }),
                timestamp,
                elapsed: 0,
            }), old(self).store().bound()),
            final(self).tool_list() == old(self).tool_list(),
    {
        self.history.add(TimedMessage { message: Message::User(UserMessage { content }), timestamp, elapsed: 0 });
    }

    /// The history.
    pub fn history(&self) -> (r: &H)
        ensures
            *r == self.store(),
    {
        &self.history
    }

    /// The advertised tools.
    pub fn tools(&self) -> (r: &[ToolDefinition])
        ensures
            r@ == self.tool_list(),
    {
        self.tools.as_slice()
    }

    /// Advertises one more tool.
    pub fn add_tool(&mut self, definition: ToolDefinition)
        ensures
            final(self).tool_list() == old(self).tool_list().push(definition),
            final(self).store() == old(self).store(),
    {
        self.tools.push(definition);
    }

    /// Records a model response that took `elapsed` milliseconds from
    /// `timestamp`. The assistant turn is appended. A `ToolCalls` finish
    /// reason goes on: to the tool round when the turn asks for tools, else to
    /// another model call. Any other reason ends the run with the turn's
    /// content, whatever the turn asks for.
    pub fn record_response(&mut self, response: LLMResponse, timestamp: u64, elapsed: u64) -> (r: Next)
        ensures
            final(self).store().bound() == old(self).store().bound(),
            final(self).store().turns() == keep_last(
                old(self).store().turns().push(assistant_turn(response, timestamp, elapsed)),
                old(self).store().bound(),
            ),
            final(self).tool_list() == old(self).tool_list(),
            !continues(response.finish_reason) ==> r is Finished
                && r->Finished_0 == response.message.content,
            continues(response.finish_reason) && requests_tools(response) ==> r is RunTools
                && r->RunTools_0@ == response.message.tool_calls->Some_0@,
            continues(response.finish_reason) && !requests_tools(response) ==> r is CallModel,
    {
        let go_on = is_tool_calls(&response.finish_reason);
        let calls = match &response.message.tool_calls {
            Some(c) => if go_on && c.len() > 0 { Some(copy_tool_calls(c)) } else { None },
            None => None,
        };
        let content = response.message.content.clone();
        let ghost recorded = assistant_turn(response, timestamp, elapsed);
        let LLMResponse { message, finish_reason: _ } = response;
        let turn = TimedMessage { message: Message::Assistant(message), timestamp, elapsed };
        assert(turn == recorded);
        self.history.add(turn);
        if !go_on {
            return Next::Finished(content);
        }
        match calls {
            Some(c) => Next::RunTools(c),
            None => Next::CallModel,
        }
    }

    /// Records the results of the tool round, each as a tool turn, in their
    /// order; the model is to be called next.
    pub fn record_tool_results(&mut self, results: Vec<ToolResult>)
        ensures
            final(self).store().bound() == old(self).store().bound(),
            results@.len() > 0 ==> final(self).store().turns() == keep_last(
                old(self).store().turns() + tool_turns(results@),
                old(self).store().bound(),
            ),
            results@.len() == 0 ==> final(self).store().turns() == old(self).store().turns(),
            final(self).tool_list() == old(self).tool_list(),
    {
        let mut turns: Vec<TimedMessage> = Vec::new();
        let mut rest = results;
        let ghost all = rest@;
        let ghost mut i: int = 0;
        while rest.len() > 0
            invariant
                0 <= i <= all.len(),
                rest@ == all.subrange(i, all.len() as int),
                turns@ == tool_turns(all.subrange(0, i)),
            decreases rest@.len(),
        {
            let res = rest.remove(0);
            let ToolResult { tool_message, timestamp, elapsed } = res;
            turns.push(TimedMessage { message: Message::Tool(tool_message), timestamp, elapsed });
            proof {
                assert(all.subrange(0, i + 1) =~= all.subrange(0, i).push(res));
                assert(tool_turns(all.subrange(0, i + 1)) =~= tool_turns(all.subrange(0, i)).push(tool_turn(res)));
                i = i + 1;
            }
            assert(rest@ =~= all.subrange(i, all.len() as int));
        }
        assert(all.subrange(0, i) =~= all);
        self.history.add_batch(turns);
    }
}

/// Every tool call of a step gets its answer right after it: when a response
/// with a `ToolCalls` finish reason asks for tools and the tool round answers
/// each call once (the results' ids are, with multiplicity, the calls' ids),
/// a history that keeps all
/// turns holds, after the step, the assistant turn followed immediately by
/// exactly one tool turn per call, answering the calls' ids. The `gather`
/// of both execution strategies returns results that answer each call once.
pub proof fn lemma_step_pairing(
    before: Seq<TimedMessage>,
    response: LLMResponse,
    timestamp: u64,
    elapsed: u64,
    results: Seq<ToolResult>,
)
    requires
        continues(response.finish_reason),
        requests_tools(response),
        result_ids(results).to_multiset() == call_ids(response.message.tool_calls->Some_0@).to_multiset(),
    ensures
        ({
            let calls = response.message.tool_calls->Some_0@;
            let after = keep_last(
                keep_last(before.push(assistant_turn(response, timestamp, elapsed)), None) + tool_turns(results),
                None,
            );
            &&& after.len() == before.len() + 1 + calls.len()
            &&& after[before.len() as int] == assistant_turn(response, timestamp, elapsed)
            &&& forall|i: int| before.len() < i < after.len() ==> (#[trigger] after[i]).message is Tool
            &&& after.subrange(before.len() as int + 1, after.len() as int).map_values(|t: TimedMessage| answered_id(t)).to_multiset()
                == call_ids(calls).to_multiset()
        }),
{
    broadcast use vstd::seq_lib::group_to_multiset_ensures;

    let calls = response.message.tool_calls->Some_0@;
    let head = before.push(assistant_turn(response, timestamp, elapsed));
    let after = head + tool_turns(results);
    assert(result_ids(results).to_multiset().len() == results.len());
    assert(call_ids(calls).to_multiset().len() == calls.len());
    assert(after.subrange(before.len() as int + 1, after.len() as int) =~= tool_turns(results));
    assert(tool_turns(results).map_values(|t: TimedMessage| answered_id(t)) =~= result_ids(results));
    assert forall|i: int| before.len() < i < after.len() implies (#[trigger] after[i]).message is Tool by {
        assert(after[i] == tool_turns(results)[i - before.len() - 1]);
    }
}

} // verus!
