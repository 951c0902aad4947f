//! The decisions of one iteration of the react loop: what an LLM response
//! does to the session and whether the loop goes on, runs tools or ends.
//! The caller performs the I/O (the LLM call, the middlewares, the tools,
//! the events) and hands each result to these functions.
use vstd::prelude::*;
use vstd::string::*;

use crate::message_queue::{drain_split, MessageQueue};
use crate::session::{RunState, answered_ids, dedup, last_batch, lemma_failed_persists, lemma_last_batch_bounds, lemma_remove_at, lemma_take_succ, remove_id, scan, sequence_fault, unanswered, ScanState, SequenceFault, dangling_ids, is_role_message, is_tool_result, without_ephemeral, AgentSession};
use crate::text::{concat2, concat3, decimal, decimal_string, join_strings, joined, replace_all, replaced, string_views};
use crate::types::{call_ids_of, has_tool_calls, string_of, AgentError, ChatMessage, MessageRole, RunOutcome};

verus! {

broadcast use vstd::seq_lib::group_seq_properties;

/// Consecutive reasoning-only turns after which the run fails.
pub const REASONING_ONLY_MAX_STRIKES: usize = 3;

/// Consecutive empty responses after which the run fails.
pub const EMPTY_RESPONSE_MAX_STRIKES: usize = 3;

/// Control flow of one loop iteration: keep looping, or end the turn.
#[derive(Debug)]
pub enum TurnFlow {
    Continue,
    Done(RunOutcome),
}

pub open spec fn reasoning_nudge_text() -> Seq<char> {
    "You produced internal reasoning but no tool call and no final answer. Make a decision now: call a tool to make progress, or write your final answer as plain text."@
}

pub open spec fn reasoning_fail_text() -> Seq<char> {
    "model produced only reasoning (no tool call or answer) across multiple turns despite tools being available"@
}

pub open spec fn empty_nudge_text() -> Seq<char> {
    "You returned an empty response with no tool call and no answer. Produce output now: call a tool to make progress, or write your final answer as plain text."@
}

pub open spec fn empty_fail_text() -> Seq<char> {
    "model returned empty responses repeatedly (no text, no reasoning, no tool call)"@
}

pub open spec fn truncated_call_text() -> Seq<char> {
    "Tool call was not executed: the response hit the output token limit, so its arguments may be truncated. Re-issue the tool call with complete arguments."@
}

/// The run-level counters and everything but the conversation are unchanged.
pub open spec fn same_run(a: &AgentSession, b: &AgentSession) -> bool {
    &&& a.identity() == b.identity()
    &&& a.allowed() == b.allowed()
    &&& a.total_calls() == b.total_calls()
    &&& a.run() == b.run()
}

/// Everything but the conversation and the two strike counters is unchanged.
pub open spec fn same_but_strikes(a: &AgentSession, b: &AgentSession) -> bool {
    &&& a.identity() == b.identity()
    &&& a.allowed() == b.allowed()
    &&& a.total_calls() == b.total_calls()
    &&& a.run().turn_tool_calls == b.run().turn_tool_calls
    &&& a.run().run_has_tool_calls == b.run().run_has_tool_calls
    &&& a.run().nudge_count == b.run().nudge_count
}

/// A reasoning-only response (reasoning but no text and no tool call): count
/// the strike; fail once the limit is reached, else nudge the model to commit.
pub fn reasoning_only_step(session: &mut AgentSession) -> (flow: TurnFlow)
    requires
        old(session).run().reasoning_only_strikes < usize::MAX,
    ensures
        final(session).run().reasoning_only_strikes == old(session).run().reasoning_only_strikes + 1,
        final(session).run().empty_response_strikes == 0,
        same_but_strikes(final(session), old(session)),
        if old(session).run().reasoning_only_strikes + 1 >= REASONING_ONLY_MAX_STRIKES {
            &&& flow matches TurnFlow::Done(RunOutcome::Failed { error }) && error@ == reasoning_fail_text()
            &&& final(session).messages() == old(session).messages()
        } else {
            &&& flow is Continue
            &&& final(session).messages().drop_last() == old(session).messages()
            &&& final(session).messages().len() == old(session).messages().len() + 1
            &&& is_role_message(final(session).messages().last(), MessageRole::User, reasoning_nudge_text())
        },
{
    let strikes = session.note_reasoning_only();
    if strikes >= REASONING_ONLY_MAX_STRIKES {
        return TurnFlow::Done(
            RunOutcome::Failed {
                error: string_of(
                    "model produced only reasoning (no tool call or answer) across multiple turns despite tools being available",
                ),
            },
        );
    }
    session.push_message(
        MessageRole::User,
        "You produced internal reasoning but no tool call and no final answer. Make a decision now: call a tool to make progress, or write your final answer as plain text.",
    );
    TurnFlow::Continue
}

/// The LLM response after the post-LLM middlewares ran.
#[derive(Debug)]
pub struct PostLlmResult {
    pub full_text: String,
    pub is_tool_call: bool,
    pub tool_calls: Vec<(String, String, String)>,
    pub skip_push: bool,
    pub follow_up_message: Option<String>,
}

/// What the loop does next with a response.
#[derive(Debug)]
pub enum PostLlmStep {
    /// Run the next turn.
    Continue,
    /// The response is the final answer.
    Complete,
    /// Execute these tool calls.
    ExecuteTools(Vec<(String, String, String)>),
    /// The run fails with this error.
    Fail(String),
}

/// The conversation after the assistant text of a response is recorded:
/// it is appended (with its reasoning, when there is any) unless a middleware
/// asked to skip it or it is empty.
pub open spec fn recorded_text(old: Seq<ChatMessage>, r: PostLlmResult, reasoning: String) -> Seq<ChatMessage> {
    if !r.skip_push && r.full_text@.len() > 0 {
        old.push(ChatMessage::Assistant {
            content: Some(r.full_text),
            reasoning_content: if reasoning@.len() > 0 { Some(reasoning) } else { None },
            tool_calls: None,
            thinking_signature: None,
        })
    } else {
        old
    }
}

/// The name shown for a tool call whose name may be missing.
pub open spec fn shown_name(name: Seq<char>) -> Seq<char> {
    if name.len() == 0 { "unknown"@ } else { name }
}

/// The two messages at `base + 2 * j` note the cut-off call `calls[j]`.
pub open spec fn note_pair(
    after: Seq<ChatMessage>,
    base: int,
    calls: Seq<(String, String, String)>,
    j: int,
) -> bool {
    &&& is_role_message(
        after[base + 2 * j],
        MessageRole::Assistant,
        "[would call tool: "@ + shown_name(calls[j].1@) + "]"@,
    )
    &&& is_tool_result(after[base + 2 * j + 1], calls[j].0@, truncated_call_text())
}

/// `after` is `before` followed, for each call, by an assistant note naming
/// the call and a tool result telling the model to re-issue it.
pub open spec fn truncated_notes(
    before: Seq<ChatMessage>,
    after: Seq<ChatMessage>,
    calls: Seq<(String, String, String)>,
) -> bool {
    &&& after.len() == before.len() + 2 * calls.len()
    &&& after.take(before.len() as int) == before
    &&& forall|j: int| 0 <= j < calls.len() ==> #[trigger] note_pair(after, before.len() as int, calls, j)
}

/// Whether the provider reported that the output token limit was hit.
pub open spec fn hit_length(finish_reason: Option<String>) -> bool {
    finish_reason matches Some(f) && f@ == "length"@
}

fn is_length(finish_reason: &Option<String>) -> (b: bool)
    ensures
        b == hit_length(*finish_reason),
{
    match finish_reason {
        Some(f) => *f == string_of("length"),
        None => false,
    }
}

/// Record the assistant text of a response.
fn record_text(session: &mut AgentSession, result: &PostLlmResult, reasoning_text: &String)
    ensures
        final(session).messages() == recorded_text(old(session).messages(), *result, *reasoning_text),
        same_run(final(session), old(session)),
{
    if !result.skip_push && !result.full_text.as_str().is_empty() {
        let reasoning = if !reasoning_text.as_str().is_empty() {
            Some(reasoning_text.clone())
        } else {
            None
        };
        let msg = ChatMessage::Assistant {
            content: Some(result.full_text.clone()),
            reasoning_content: reasoning,
            tool_calls: None,
            thinking_signature: None,
        };
        session.chat_messages_mut().push(msg);
    }
}

/// Tell the model that its tool calls were cut off by the token limit.
fn push_truncated_notes(session: &mut AgentSession, calls: &Vec<(String, String, String)>)
    ensures
        truncated_notes(old(session).messages(), final(session).messages(), calls@),
        same_run(final(session), old(session)),
{
    let ghost before = session.messages();
    let mut i: usize = 0;
    while i < calls.len()
        invariant
            i <= calls@.len(),
            session.messages().len() == before.len() + 2 * i,
            session.messages().take(before.len() as int) == before,
            forall|j: int| 0 <= j < i ==> #[trigger] note_pair(session.messages(), before.len() as int, calls@, j),
            same_run(session, old(session)),
        decreases calls@.len() - i,
    {
        let (id, name, _args) = &calls[i];
        let shown: &str = if name.as_str().is_empty() {
            proof { reveal_strlit(""); }
            "unknown"
        } else {
            name.as_str()
        };
        let note = concat3("[would call tool: ", shown, "]");
        let ghost m0 = session.messages();
        session.push_message(MessageRole::Assistant, note.as_str());
        let ghost m1 = session.messages();
        session.push_tool_result(
            id.as_str(),
            "Tool call was not executed: the response hit the output token limit, so its arguments may be truncated. Re-issue the tool call with complete arguments.",
        );
        proof {
            let m2 = session.messages();
            assert(m2.take(before.len() as int) =~= before) by {
                assert(m1.take(before.len() as int) =~= m0.take(before.len() as int));
                assert(m2.take(before.len() as int) =~= m1.take(before.len() as int));
            }
            assert forall|j: int| 0 <= j < i + 1 implies #[trigger] note_pair(m2, before.len() as int, calls@, j) by {
                if j < i {
                    assert(note_pair(m0, before.len() as int, calls@, j));
                    assert(m2[before.len() + 2 * j] == m0[before.len() + 2 * j]);
                    assert(m2[before.len() + 2 * j + 1] == m0[before.len() + 2 * j + 1]);
                } else {
                    assert(note@ == "[would call tool: "@ + shown_name(calls@[i as int].1@) + "]"@);
                    assert(is_role_message(m1.last(), MessageRole::Assistant, note@));
                    assert(m2[before.len() + 2 * j] == m1.last());
                    assert(m2[before.len() + 2 * j + 1] == m2.last());
                    assert(is_tool_result(m2.last(), calls@[i as int].0@, truncated_call_text()));
                }
            }
        }
        i = i + 1;
    }
}

/// A response after the post-LLM middlewares: record its text, then follow
/// the middlewares' follow-up message, handle an empty response, hand tool
/// calls over for execution (or, when the token limit cut them off, ask for
/// them again), or complete the run with the text answer.
pub fn post_llm_step(
    session: &mut AgentSession,
    result: PostLlmResult,
    reasoning_text: String,
    finish_reason: Option<String>,
) -> (step: PostLlmStep)
    requires
        old(session).run().empty_response_strikes < usize::MAX,
    ensures
        ({
            let mid = recorded_text(old(session).messages(), result, reasoning_text);
            let fin = final(session).messages();
            match result.follow_up_message {
                Some(f) => {
                    &&& step is Continue
                    &&& fin.drop_last() == mid && fin.len() == mid.len() + 1
                    &&& is_role_message(fin.last(), MessageRole::User, f@)
                    &&& same_run(final(session), old(session))
                },
                None => if result.full_text@.len() == 0 && !result.is_tool_call {
                    &&& final(session).run().empty_response_strikes == old(session).run().empty_response_strikes + 1
                    &&& final(session).run().reasoning_only_strikes == 0
                    &&& same_but_strikes(final(session), old(session))
                    &&& if old(session).run().empty_response_strikes + 1 >= EMPTY_RESPONSE_MAX_STRIKES {
                        step matches PostLlmStep::Fail(e) && e@ == empty_fail_text() && fin == mid
                    } else {
                        &&& step is Continue
                        &&& fin.drop_last() == mid && fin.len() == mid.len() + 1
                        &&& is_role_message(fin.last(), MessageRole::User, empty_nudge_text())
                    }
                } else if result.is_tool_call && result.tool_calls@.len() > 0 {
                    &&& same_run(final(session), old(session))
                    &&& if hit_length(finish_reason) {
                        step is Continue && truncated_notes(mid, fin, result.tool_calls@)
                    } else {
                        step == PostLlmStep::ExecuteTools(result.tool_calls) && fin == mid
                    }
                } else {
                    step is Complete && fin == mid && same_run(final(session), old(session))
                },
            }
        }),
{
    record_text(session, &result, &reasoning_text);
    let PostLlmResult { full_text, is_tool_call, tool_calls, skip_push: _, follow_up_message } = result;
    match follow_up_message {
        Some(f) => {
            session.push_message(MessageRole::User, f.as_str());
            return PostLlmStep::Continue;
        },
        None => {},
    }
    if full_text.as_str().is_empty() && !is_tool_call {
        let strikes = session.note_empty_response();
        if strikes >= EMPTY_RESPONSE_MAX_STRIKES {
            return PostLlmStep::Fail(
                string_of("model returned empty responses repeatedly (no text, no reasoning, no tool call)"),
            );
        }
        session.push_message(
            MessageRole::User,
            "You returned an empty response with no tool call and no answer. Produce output now: call a tool to make progress, or write your final answer as plain text.",
        );
        return PostLlmStep::Continue;
    }
    if is_tool_call && tool_calls.len() > 0 {
        if is_length(&finish_reason) {
            push_truncated_notes(session, &tool_calls);
            return PostLlmStep::Continue;
        }
        return PostLlmStep::ExecuteTools(tool_calls);
    }
    PostLlmStep::Complete
}

/// After a batch of `n` tool calls ran: count them in the session and in the
/// turn.
pub fn after_tool_calls(session: &mut AgentSession, n: usize)
    requires
        old(session).total_calls() + n <= usize::MAX,
        old(session).run().turn_tool_calls + n <= usize::MAX,
    ensures
        final(session).total_calls() == old(session).total_calls() + n,
        final(session).run().turn_tool_calls == old(session).run().turn_tool_calls + n,
        final(session).run().run_has_tool_calls,
        final(session).run().reasoning_only_strikes == 0,
        final(session).run().empty_response_strikes == 0,
        final(session).messages() == old(session).messages(),
{
    session.note_tool_calls(n);
}

/// What the loop does at the top of an iteration.
#[derive(Debug)]
pub enum TurnGate {
    /// Run this turn.
    Proceed,
    /// The run was cancelled.
    Cancelled,
    /// The turn budget is used up.
    MaxTurnsExceeded(u32),
}

/// The top of a loop iteration (`turn_count` already counts this turn):
/// stop when cancelled; otherwise inject the steering messages as user
/// messages, then stop when the turn budget is exceeded.
pub fn turn_gate(
    session: &mut AgentSession,
    queue: &mut MessageQueue,
    turn_count: u32,
    max_turns: u32,
    cancelled: bool,
) -> (gate: TurnGate)
    ensures
        cancelled ==> gate is Cancelled && final(session).messages() == old(session).messages()
            && *final(queue) == *old(queue),
        !cancelled ==> {
            let (drained, kept) = drain_split(old(queue).drain_mode(), old(queue).steering_queue());
            &&& final(queue).steering_queue() == kept
            &&& final(queue).follow_up_queue() == old(queue).follow_up_queue()
            &&& final(queue).drain_mode() == old(queue).drain_mode()
            &&& final(session).messages().len() == old(session).messages().len() + drained.len()
            &&& final(session).messages().take(old(session).messages().len() as int) == old(session).messages()
            &&& forall|j: int| 0 <= j < drained.len() ==> is_role_message(
                #[trigger] final(session).messages()[old(session).messages().len() + j],
                MessageRole::User,
                drained[j]@,
            )
            &&& if turn_count > max_turns { gate == TurnGate::MaxTurnsExceeded(turn_count) } else { gate is Proceed }
        },
        same_run(final(session), old(session)),
{
    if cancelled {
        return TurnGate::Cancelled;
    }
    let msgs = queue.drain_steering();
    push_user_messages(session, &msgs);
    if turn_count > max_turns {
        return TurnGate::MaxTurnsExceeded(turn_count);
    }
    TurnGate::Proceed
}

/// Append each text of `msgs` as a user message.
pub fn push_user_messages(session: &mut AgentSession, msgs: &Vec<String>)
    ensures
        final(session).messages().len() == old(session).messages().len() + msgs@.len(),
        final(session).messages().take(old(session).messages().len() as int) == old(session).messages(),
        forall|j: int| 0 <= j < msgs@.len() ==> is_role_message(
            #[trigger] final(session).messages()[old(session).messages().len() + j],
            MessageRole::User,
            msgs@[j]@,
        ),
        same_run(final(session), old(session)),
{
    let ghost before = session.messages();
    let mut i: usize = 0;
    while i < msgs.len()
        invariant
            i <= msgs@.len(),
            session.messages().len() == before.len() + i,
            session.messages().take(before.len() as int) == before,
            forall|j: int| 0 <= j < i ==> is_role_message(
                #[trigger] session.messages()[before.len() + j],
                MessageRole::User,
                msgs@[j]@,
            ),
            same_run(session, old(session)),
        decreases msgs@.len() - i,
    {
        let ghost m0 = session.messages();
        session.push_message(MessageRole::User, msgs[i].as_str());
        proof {
            let m1 = session.messages();
            assert(m1.take(before.len() as int) =~= m0.take(before.len() as int));
            assert forall|j: int| 0 <= j < i + 1 implies is_role_message(
                #[trigger] m1[before.len() + j],
                MessageRole::User,
                msgs@[j]@,
            ) by {
                if j < i {
                    assert(m1[before.len() + j] == m0[before.len() + j]);
                }
            }
        }
        i = i + 1;
    }
}

/// The start of a turn driven by a new user input: the turn counters are
/// reset and the input is recorded as a user message.
pub fn start_turn(session: &mut AgentSession, user_input: &str)
    ensures
        final(session).run().nudge_count == 0,
        final(session).run().turn_tool_calls == 0,
        final(session).run().run_has_tool_calls == old(session).run().run_has_tool_calls,
        final(session).run().reasoning_only_strikes == old(session).run().reasoning_only_strikes,
        final(session).run().empty_response_strikes == old(session).run().empty_response_strikes,
        final(session).total_calls() == old(session).total_calls(),
        final(session).messages().drop_last() == old(session).messages(),
        final(session).messages().len() == old(session).messages().len() + 1,
        is_role_message(final(session).messages().last(), MessageRole::User, user_input@),
{
    session.begin_turn_counters();
    session.push_message(MessageRole::User, user_input);
}

// ── Tool failures ──────────────────────────────────────────────────────────

/// Names of the tools that actually failed in a batch: a tool-level error
/// names its tool; any other error falls back to the whole batch.
pub open spec fn failing_names(calls: Seq<(String, String, String)>, error: AgentError) -> Seq<Seq<char>> {
    match error {
        AgentError::ToolArgsInvalid { name, .. } => seq![name@],
        AgentError::ToolExecution { name, .. } => seq![name@],
        _ => calls.map_values(|c: (String, String, String)| c.1@),
    }
}

/// Names of the tools that actually failed in a batch of tool calls.
pub fn failing_tool_names(tool_calls: &[(String, String, String)], error: &AgentError) -> (r: Vec<String>)
    ensures
        string_views(r@) == failing_names(tool_calls@, *error),
{
    match error {
        AgentError::ToolArgsInvalid { name, .. } => {
            let mut r = Vec::new();
            r.push(name.clone());
            assert(string_views(r@) =~= seq![name@]);
            r
        },
        AgentError::ToolExecution { name, .. } => {
            let mut r = Vec::new();
            r.push(name.clone());
            assert(string_views(r@) =~= seq![name@]);
            r
        },
        _ => {
            let mut r: Vec<String> = Vec::new();
            let mut i: usize = 0;
            while i < tool_calls.len()
                invariant
                    i <= tool_calls@.len(),
                    r@.len() == i,
                    forall|j: int| 0 <= j < i ==> #[trigger] r@[j]@ == tool_calls@[j].1@,
                decreases tool_calls@.len() - i,
            {
                r.push(tool_calls[i].1.clone());
                i = i + 1;
            }
            assert(string_views(r@) =~= tool_calls@.map_values(|c: (String, String, String)| c.1@));
            r
        },
    }
}

/// Language of the texts shown to the user.
#[derive(Clone, Copy, Debug, PartialEq, Eq, Structural)]
pub enum Language {
    En,
    Zh,
}

/// What the error-recovery policy decided for a tool failure.
#[derive(Debug)]
pub enum ToolErrorAction {
    /// End the run.
    Stop,
    /// Tell the model and let it try again.
    Retry,
    /// The tool failed repeatedly: show the model these errors.
    RetryWithHistory { errors: Vec<String> },
}

/// `before` followed by a tool result for each dangling call, with `summary`.
pub open spec fn closed_with(before: Seq<ChatMessage>, after: Seq<ChatMessage>, summary: Seq<char>) -> bool {
    &&& after.len() == before.len() + dangling_ids(before).len()
    &&& after.take(before.len() as int) == before
    &&& forall|j: int| 0 <= j < dangling_ids(before).len() ==> is_tool_result(
        #[trigger] after[before.len() + j],
        dangling_ids(before)[j],
        summary,
    )
}

/// Appending messages without tool calls keeps the last tool-call batch.
proof fn lemma_last_batch_append(s: Seq<ChatMessage>, t: Seq<ChatMessage>)
    requires
        forall|j: int| 0 <= j < t.len() ==> !has_tool_calls(#[trigger] t[j]),
    ensures
        last_batch(s + t) == last_batch(s),
    decreases t.len(),
{
    if t.len() == 0 {
        assert(s + t =~= s);
    } else {
        lemma_last_batch_append(s, t.drop_last());
        assert((s + t).drop_last() =~= s + t.drop_last());
        assert((s + t).last() == t[t.len() - 1]);
    }
}

/// Tool results appended to `a` answer their ids.
proof fn lemma_answered_append(a: Seq<ChatMessage>, t: Seq<ChatMessage>, ids: Seq<Seq<char>>, summary: Seq<char>)
    requires
        t.len() == ids.len(),
        forall|j: int| 0 <= j < t.len() ==> is_tool_result(#[trigger] t[j], ids[j], summary),
    ensures
        answered_ids(a + t) == answered_ids(a).union(ids.to_set()),
    decreases t.len(),
{
    if t.len() == 0 {
        assert(a + t =~= a);
        assert(ids.to_set() =~= Set::<Seq<char>>::empty());
        assert(answered_ids(a).union(ids.to_set()) =~= answered_ids(a));
    } else {
        let n = t.len() - 1;
        assert(is_tool_result(t[n], ids[n], summary));
        lemma_answered_append(a, t.drop_last(), ids.drop_last(), summary);
        assert((a + t).drop_last() =~= a + t.drop_last());
        assert((a + t).last() == t[n]);
        assert(ids.to_set() =~= ids.drop_last().to_set().insert(ids[n])) by {
            assert forall|x: Seq<char>| ids.to_set().contains(x) <==> ids.drop_last().to_set().insert(ids[n]).contains(x) by {
                if ids.to_set().contains(x) {
                    let i = choose|i: int| 0 <= i < ids.len() && ids[i] == x;
                    if i < n {
                        assert(ids.drop_last()[i] == x);
                    }
                }
                if ids.drop_last().to_set().contains(x) {
                    let i = choose|i: int| 0 <= i < ids.drop_last().len() && ids.drop_last()[i] == x;
                    assert(ids[i] == x);
                }
            }
        }
        assert(answered_ids(a + t) =~= answered_ids(a).union(ids.to_set()));
    }
}

/// An id is left unanswered exactly when it is one of `ids` and not in
/// `answered`.
proof fn lemma_unanswered_members(ids: Seq<Seq<char>>, answered: Set<Seq<char>>)
    ensures
        forall|x: Seq<char>| #[trigger] unanswered(ids, answered).contains(x) <==> ids.contains(x) && !answered.contains(x),
    decreases ids.len(),
{
    if ids.len() > 0 {
        lemma_unanswered_members(ids.drop_last(), answered);
        let u = unanswered(ids, answered);
        let u0 = unanswered(ids.drop_last(), answered);
        assert forall|x: Seq<char>| #[trigger] u.contains(x) <==> ids.contains(x) && !answered.contains(x) by {
            if ids.contains(x) && !answered.contains(x) {
                let i = choose|i: int| 0 <= i < ids.len() && ids[i] == x;
                if i < ids.len() - 1 {
                    assert(ids.drop_last()[i] == x);
                    assert(u0.contains(x));
                    if !answered.contains(ids.last()) {
                        assert(u == u0.push(ids.last()));
                        let j = choose|j: int| 0 <= j < u0.len() && u0[j] == x;
                        assert(u[j] == x);
                    }
                } else {
                    assert(u == u0.push(ids.last()));
                    assert(u[u.len() - 1] == x);
                }
            }
            if u.contains(x) {
                if answered.contains(ids.last()) {
                    assert(u0.contains(x));
                } else {
                    assert(u == u0.push(ids.last()));
                    let j = choose|j: int| 0 <= j < u.len() && u[j] == x;
                    if j < u0.len() {
                        assert(u0[j] == x);
                        assert(u0.contains(x));
                    } else {
                        assert(ids[ids.len() - 1] == x);
                    }
                }
                if u0.contains(x) {
                    let i = choose|i: int| 0 <= i < ids.drop_last().len() && ids.drop_last()[i] == x;
                    assert(ids[i] == x);
                }
            }
        }
    }
}

/// Once every dangling tool call of the last batch is answered (what
/// `close_dangling_tool_calls` does), no tool call dangles any more.
pub proof fn law_closing_leaves_no_dangling_calls(before: Seq<ChatMessage>, after: Seq<ChatMessage>, summary: Seq<char>)
    requires
        closed_with(before, after, summary),
    ensures
        dangling_ids(after).len() == 0,
{
    let d = dangling_ids(before);
    let n = before.len() as int;
    let t = after.skip(n);
    assert(after =~= before + t);
    assert forall|j: int| 0 <= j < t.len() implies is_tool_result(#[trigger] t[j], d[j], summary) by {
        assert(t[j] == after[n + j]);
    }
    assert forall|j: int| 0 <= j < t.len() implies !has_tool_calls(#[trigger] t[j]) by {
        assert(is_tool_result(t[j], d[j], summary));
    }
    lemma_last_batch_append(before, t);
    match last_batch(before) {
        None => {},
        Some(k) => {
            lemma_last_batch_bounds(before);
            let ids = call_ids_of(before[k]);
            let answered = answered_ids(before.subrange(k + 1, n));
            assert(after.subrange(k + 1, after.len() as int) =~= before.subrange(k + 1, n) + t);
            assert(after[k] == before[k]);
            lemma_answered_append(before.subrange(k + 1, n), t, d, summary);
            lemma_unanswered_members(ids, answered);
            let all = answered.union(d.to_set());
            lemma_unanswered_members(ids, all);
            assert forall|x: Seq<char>| !(#[trigger] unanswered(ids, all).contains(x)) by {
                if ids.contains(x) && !answered.contains(x) {
                    assert(unanswered(ids, answered).contains(x));
                    let j = choose|j: int| 0 <= j < d.len() && d[j] == x;
                    assert(d.to_set().contains(x));
                }
            }
            let u = unanswered(ids, all);
            if u.len() > 0 {
                assert(u.contains(u[0]));
            }
        },
    }
}

/// Every message after the last tool-call batch carries no tool calls; with
/// no batch at all, no message does.
proof fn lemma_after_last_batch(s: Seq<ChatMessage>)
    ensures
        match last_batch(s) {
            Some(k) => forall|j: int| k < j < s.len() ==> !has_tool_calls(#[trigger] s[j]),
            None => forall|j: int| 0 <= j < s.len() ==> !has_tool_calls(#[trigger] s[j]),
        },
    decreases s.len(),
{
    if s.len() > 0 {
        let d = s.drop_last();
        lemma_after_last_batch(d);
        lemma_last_batch_bounds(d);
        if !has_tool_calls(s.last()) {
            assert(last_batch(s) == last_batch(d));
            match last_batch(d) {
                Some(k) => {
                    assert forall|j: int| k < j < s.len() implies !has_tool_calls(#[trigger] s[j]) by {
                        if j < s.len() - 1 {
                            assert(s[j] == d[j]);
                        }
                    }
                },
                None => {
                    assert forall|j: int| 0 <= j < s.len() implies !has_tool_calls(#[trigger] s[j]) by {
                        if j < s.len() - 1 {
                            assert(s[j] == d[j]);
                        }
                    }
                },
            }
        }
    }
}

/// Without duplicates, `dedup` changes nothing.
proof fn lemma_dedup_identity(s: Seq<Seq<char>>)
    requires
        s.no_duplicates(),
    ensures
        dedup(s) == s,
    decreases s.len(),
{
    if s.len() > 0 {
        let d = s.drop_last();
        assert(d.no_duplicates());
        lemma_dedup_identity(d);
        if d.contains(s.last()) {
            let i = choose|i: int| 0 <= i < d.len() && d[i] == s.last();
            assert(s[i] == s[s.len() - 1]);
        }
        assert(d.push(s.last()) =~= s);
    }
}

/// With nothing answered, every id is unanswered.
proof fn lemma_unanswered_none(ids: Seq<Seq<char>>)
    ensures
        unanswered(ids, Set::empty()) == ids,
    decreases ids.len(),
{
    if ids.len() > 0 {
        lemma_unanswered_none(ids.drop_last());
        assert(ids.drop_last().push(ids.last()) =~= ids);
    }
}

/// Answering an id that is not among `ids` changes nothing.
proof fn lemma_unanswered_other(ids: Seq<Seq<char>>, answered: Set<Seq<char>>, x: Seq<char>)
    requires
        !ids.contains(x),
    ensures
        unanswered(ids, answered.insert(x)) == unanswered(ids, answered),
    decreases ids.len(),
{
    if ids.len() > 0 {
        assert(!ids.drop_last().contains(x)) by {
            if ids.drop_last().contains(x) {
                let i = choose|i: int| 0 <= i < ids.drop_last().len() && ids.drop_last()[i] == x;
                assert(ids[i] == x);
            }
        }
        lemma_unanswered_other(ids.drop_last(), answered, x);
        assert(ids[ids.len() - 1] != x);
    }
}

/// The unanswered ids of a batch without duplicates have none either.
proof fn lemma_unanswered_distinct(ids: Seq<Seq<char>>, answered: Set<Seq<char>>)
    requires
        ids.no_duplicates(),
    ensures
        unanswered(ids, answered).no_duplicates(),
    decreases ids.len(),
{
    if ids.len() > 0 {
        let d = ids.drop_last();
        assert(d.no_duplicates());
        lemma_unanswered_distinct(d, answered);
        if !answered.contains(ids.last()) {
            lemma_unanswered_members(d, answered);
            if unanswered(d, answered).contains(ids.last()) {
                let i = choose|i: int| 0 <= i < d.len() && d[i] == ids.last();
                assert(ids[i] == ids[ids.len() - 1]);
            }
        }
    }
}

/// Answering an unanswered id removes it from the unanswered ones.
proof fn lemma_unanswered_answer(ids: Seq<Seq<char>>, answered: Set<Seq<char>>, x: Seq<char>)
    requires
        ids.no_duplicates(),
        unanswered(ids, answered).contains(x),
    ensures
        remove_id(unanswered(ids, answered), x) == unanswered(ids, answered.insert(x)),
    decreases ids.len(),
{
    let d = ids.drop_last();
    let l = ids.last();
    assert(d.no_duplicates());
    lemma_unanswered_members(ids, answered);
    lemma_unanswered_members(d, answered);
    let u = unanswered(ids, answered);
    let u0 = unanswered(d, answered);
    if answered.contains(l) {
        assert(u == u0);
        assert(answered.insert(x).contains(l));
        assert(unanswered(ids, answered.insert(x)) == unanswered(d, answered.insert(x)));
        lemma_unanswered_answer(d, answered, x);
    } else if x == l {
        assert(!d.contains(l)) by {
            if d.contains(l) {
                let i = choose|i: int| 0 <= i < d.len() && d[i] == l;
                assert(ids[i] == ids[ids.len() - 1]);
            }
        }
        lemma_unanswered_other(d, answered, x);
        assert(u == u0.push(l));
        assert(remove_id(u, x) == u0);
        assert(answered.insert(x).contains(l));
        assert(unanswered(ids, answered.insert(x)) == unanswered(d, answered.insert(x)));
    } else {
        assert(u == u0.push(l));
        let j = choose|j: int| 0 <= j < u.len() && u[j] == x;
        if j == u.len() - 1 {
            assert(false);
        }
        assert(u0[j] == x);
        lemma_unanswered_answer(d, answered, x);
        assert(u.drop_last() =~= u0);
        assert(u.last() == l);
        assert(remove_id(u, x) == remove_id(u0, x).push(l));
        assert(!answered.insert(x).contains(l));
        assert(unanswered(ids, answered.insert(x)) == unanswered(d, answered.insert(x)).push(l));
    }
}

/// A prefix of `s` on which the check has not failed.
proof fn lemma_open_prefix(s: Seq<ChatMessage>, j: int)
    requires
        scan(s) is Open,
        0 <= j <= s.len(),
    ensures
        scan(s.take(j)) is Open,
{
    if scan(s.take(j)) is Failed {
        lemma_failed_persists(s, j, s.len() as int);
        assert(s.take(s.len() as int) =~= s);
    }
}

/// When the check does not fail on `s` and the last tool-call batch has no
/// repeated id, the calls left pending at the end are the dangling ones.
proof fn lemma_scan_pending_is_dangling(s: Seq<ChatMessage>)
    requires
        scan(s) is Open,
        last_batch(s) matches Some(k) ==> call_ids_of(s[k]).no_duplicates(),
    ensures
        scan(s) == ScanState::Open(dangling_ids(s)),
{
    lemma_after_last_batch(s);
    lemma_last_batch_bounds(s);
    match last_batch(s) {
        None => {
            lemma_scan_no_batch(s, s.len() as int);
            assert(s.take(s.len() as int) =~= s);
        },
        Some(k) => {
            lemma_scan_after_batch(s, k, s.len() as int);
            assert(s.take(s.len() as int) =~= s);
        },
    }
}

proof fn lemma_scan_no_batch(s: Seq<ChatMessage>, j: int)
    requires
        scan(s) is Open,
        last_batch(s) is None,
        0 <= j <= s.len(),
        forall|i: int| 0 <= i < s.len() ==> !has_tool_calls(#[trigger] s[i]),
    ensures
        scan(s.take(j)) == ScanState::Open(Seq::<Seq<char>>::empty()),
    decreases j,
{
    if j > 0 {
        lemma_scan_no_batch(s, j - 1);
        lemma_take_succ(s, j - 1);
        lemma_open_prefix(s, j);
        let m = s[j - 1];
        assert(!has_tool_calls(m));
        match m {
            ChatMessage::Assistant { tool_calls: Some(tc), .. } => {
                assert(tc@.len() == 0);
                assert(call_ids_of(m) =~= Seq::<Seq<char>>::empty());
            },
            _ => {},
        }
    } else {
        assert(s.take(0) =~= Seq::<ChatMessage>::empty());
    }
}

proof fn lemma_scan_after_batch(s: Seq<ChatMessage>, k: int, j: int)
    requires
        scan(s) is Open,
        last_batch(s) == Some(k),
        0 <= k < s.len(),
        has_tool_calls(s[k]),
        call_ids_of(s[k]).no_duplicates(),
        forall|i: int| k < i < s.len() ==> !has_tool_calls(#[trigger] s[i]),
        k + 1 <= j <= s.len(),
    ensures
        scan(s.take(j)) == ScanState::Open(unanswered(call_ids_of(s[k]), answered_ids(s.subrange(k + 1, j)))),
    decreases j,
{
    let ids = call_ids_of(s[k]);
    lemma_take_succ(s, j - 1);
    lemma_open_prefix(s, j);
    lemma_open_prefix(s, j - 1);
    if j == k + 1 {
        let q = scan(s.take(k))->Open_0;
        if q.len() > 0 {
            assert(scan(s.take(k + 1)) is Failed);
        }
        lemma_dedup_identity(ids);
        lemma_unanswered_none(ids);
        assert(s.subrange(k + 1, j) =~= Seq::<ChatMessage>::empty());
    } else {
        lemma_scan_after_batch(s, k, j - 1);
        let a0 = answered_ids(s.subrange(k + 1, j - 1));
        let p = unanswered(ids, a0);
        let m = s[j - 1];
        assert(!has_tool_calls(m));
        assert(s.subrange(k + 1, j).drop_last() =~= s.subrange(k + 1, j - 1));
        assert(s.subrange(k + 1, j).last() == m);
        match m {
            ChatMessage::Tool { tool_call_id, .. } => {
                if p.len() == 0 || !p.contains(tool_call_id@) {
                    assert(scan(s.take(j)) is Failed);
                }
                lemma_unanswered_answer(ids, a0, tool_call_id@);
            },
            ChatMessage::Assistant { tool_calls: Some(tc), .. } => {
                if p.len() > 0 {
                    assert(scan(s.take(j)) is Failed);
                }
                assert(tc@.len() == 0);
                assert(call_ids_of(m) =~= Seq::<Seq<char>>::empty());
            },
            _ => {},
        }
    }
}

/// The check never fails with a dangling-calls fault midway: that fault is
/// only reported at the end.
proof fn lemma_scan_fault_kinds(s: Seq<ChatMessage>)
    ensures
        scan(s) matches ScanState::Failed(f) ==> !(f is Dangling),
    decreases s.len(),
{
    if s.len() > 0 {
        lemma_scan_fault_kinds(s.drop_last());
    }
}

/// Tool results for the pending ids, in order, leave nothing pending.
proof fn lemma_scan_closing(a: Seq<ChatMessage>, t: Seq<ChatMessage>, d: Seq<Seq<char>>, summary: Seq<char>, j: int)
    requires
        scan(a) == ScanState::Open(d),
        d.no_duplicates(),
        t.len() == d.len(),
        forall|i: int| 0 <= i < t.len() ==> is_tool_result(#[trigger] t[i], d[i], summary),
        0 <= j <= t.len(),
    ensures
        scan(a + t.take(j)) == ScanState::Open(d.skip(j)),
    decreases j,
{
    if j == 0 {
        assert(a + t.take(0) =~= a);
        assert(d.skip(0) =~= d);
    } else {
        lemma_scan_closing(a, t, d, summary, j - 1);
        let pre = a + t.take(j - 1);
        assert((a + t.take(j)).drop_last() =~= pre);
        assert((a + t.take(j)).last() == t[j - 1]);
        assert(is_tool_result(t[j - 1], d[j - 1], summary));
        let p = d.skip(j - 1);
        assert(p[0] == d[j - 1]);
        assert(p.no_duplicates());
        lemma_remove_at(p, 0, d[j - 1]);
        assert(p.remove(0) =~= d.skip(j));
    }
}

/// Closing the dangling tool calls (what `close_dangling_tool_calls` does)
/// repairs a conversation whose only fault was calls left unanswered at the
/// end: the message-sequence check then passes. The last batch must not
/// repeat a call id.
pub proof fn law_closing_dangling_calls_repairs_the_sequence(before: Seq<ChatMessage>, after: Seq<ChatMessage>, summary: Seq<char>)
    requires
        closed_with(before, after, summary),
        sequence_fault(before) is None || (sequence_fault(before) matches Some(f) && f is Dangling),
        last_batch(before) matches Some(k) ==> call_ids_of(before[k]).no_duplicates(),
    ensures
        sequence_fault(after) is None,
{
    lemma_scan_fault_kinds(before);
    assert(scan(before) is Open);
    lemma_scan_pending_is_dangling(before);
    let d = dangling_ids(before);
    match last_batch(before) {
        Some(k) => {
            lemma_last_batch_bounds(before);
            lemma_unanswered_distinct(call_ids_of(before[k]), answered_ids(before.subrange(k + 1, before.len() as int)));
        },
        None => {},
    }
    let n = before.len() as int;
    let t = after.skip(n);
    assert(after =~= before + t);
    assert forall|i: int| 0 <= i < t.len() implies is_tool_result(#[trigger] t[i], d[i], summary) by {
        assert(t[i] == after[n + i]);
    }
    lemma_scan_closing(before, t, d, summary, t.len() as int);
    assert(t.take(t.len() as int) =~= t);
    assert(d.skip(d.len() as int) =~= Seq::<Seq<char>>::empty());
}

pub open spec fn rejected_text(lang: Language, error: Seq<char>) -> Seq<char> {
    match lang {
        Language::Zh => "❌ 用户拒绝执行: "@ + error,
        Language::En => "❌ User rejected: "@ + error,
    }
}

pub open spec fn failed_text(lang: Language, error: Seq<char>) -> Seq<char> {
    match lang {
        Language::Zh => "❌ 执行失败: "@ + error,
        Language::En => "❌ Tool execution failed: "@ + error,
    }
}

/// The run was stopped because the user rejected a tool call: the dangling
/// calls are answered with the rejection, ephemeral messages are dropped and
/// the run completes.
pub fn approval_denied_step(session: &mut AgentSession, error_text: &str, lang: Language) -> (outcome: RunOutcome)
    ensures
        outcome is Completed,
        exists|mid: Seq<ChatMessage>| closed_with(old(session).messages(), mid, rejected_text(lang, error_text@))
            && final(session).messages() == without_ephemeral(mid),
        same_run(final(session), old(session)),
{
    let summary = match lang {
        Language::Zh => concat2("❌ 用户拒绝执行: ", error_text),
        Language::En => concat2("❌ User rejected: ", error_text),
    };
    session.close_dangling_tool_calls(summary.as_str());
    let ghost mid = session.messages();
    session.remove_ephemeral_messages();
    assert(closed_with(old(session).messages(), mid, rejected_text(lang, error_text@)));
    RunOutcome::Completed
}

/// The numbered error history: `1. e1`, `2. e2`, ... separated by blank lines.
pub open spec fn numbered(errors: Seq<Seq<char>>) -> Seq<char>
    decreases errors.len(),
{
    if errors.len() == 0 {
        Seq::empty()
    } else if errors.len() == 1 {
        decimal(1) + ". "@ + errors[0]
    } else {
        numbered(errors.drop_last()) + "\n\n"@ + decimal(errors.len()) + ". "@ + errors.last()
    }
}

pub open spec fn history_text(tool_name: Seq<char>, errors: Seq<Seq<char>>) -> Seq<char> {
    "The tool `"@ + tool_name + "` has failed "@ + decimal(errors.len()) + " consecutive times. Error history:\n\n"@
        + numbered(errors)
        + "\n\nPlease analyze these errors and either switch to a different approach or explain the failure to the user."@
}

pub open spec fn history_summary(lang: Language, tool_name: Seq<char>, n: nat) -> Seq<char> {
    match lang {
        Language::Zh => "⚠️ "@ + tool_name + " 连续失败 "@ + decimal(n) + " 次，已将错误历史发给 LLM 评估"@,
        Language::En => "⚠️ "@ + tool_name + " failed "@ + decimal(n) + " consecutive times, error history sent to LLM"@,
    }
}

pub open spec fn retry_prompt(template: Option<String>, names: Seq<char>, error: Seq<char>) -> Seq<char> {
    match template {
        Some(t) => replaced(replaced(t@, "{tool_names}"@, names), "{error}"@, error),
        None => "Tool calls failed: "@ + names + "\nError: "@ + error
            + "\nPlease analyze the error and adjust your approach."@,
    }
}

fn numbered_errors(errors: &Vec<String>) -> (r: String)
    requires
        errors@.len() < u64::MAX,
    ensures
        r@ == numbered(string_views(errors@)),
{
    let ghost v = string_views(errors@);
    let mut r = String::new();
    let mut i: usize = 0;
    while i < errors.len()
        invariant
            i <= errors@.len(),
            errors@.len() < u64::MAX,
            v == string_views(errors@),
            r@ == numbered(v.take(i as int)),
        decreases errors@.len() - i,
    {
        assert(v.take(i + 1).drop_last() =~= v.take(i as int));
        if i > 0 {
            r.append("\n\n");
        }
        let d = decimal_string((i + 1) as u64);
        r.append(d.as_str());
        r.append(". ");
        r.append(errors[i].as_str());
        proof {
            if i == 0 {
                assert(r@ =~= numbered(v.take(1)));
            } else {
                assert(r@ =~= numbered(v.take(i + 1)));
            }
        }
        i = i + 1;
    }
    assert(v.take(i as int) =~= v);
    r
}

/// The recovery policy's decision for a failed batch of tool calls
/// (`names` the failing tools, `error_text` the error's message).
/// `Stop` answers the dangling calls, drops the ephemeral messages and fails
/// the run; `RetryWithHistory` answers them with a summary and shows the model
/// the error history; `Retry` answers them and asks the model to adjust.
pub fn recovery_step(
    session: &mut AgentSession,
    names: &Vec<String>,
    error_text: &str,
    lang: Language,
    action: ToolErrorAction,
    retry_template: Option<String>,
) -> (outcome: Option<RunOutcome>)
    requires
        match action {
            ToolErrorAction::RetryWithHistory { errors } => errors@.len() < u64::MAX,
            _ => true,
        },
    ensures
        same_run(final(session), old(session)),
        ({
            let tool_name = joined(string_views(names@), ", "@);
            match action {
                ToolErrorAction::Stop => {
                    &&& outcome matches Some(RunOutcome::Failed { error })
                        && error@ == "Tool execution failed: "@ + error_text@
                    &&& exists|mid: Seq<ChatMessage>| closed_with(old(session).messages(), mid, failed_text(lang, error_text@))
                        && final(session).messages() == without_ephemeral(mid)
                },
                ToolErrorAction::RetryWithHistory { errors } => {
                    let summary = history_summary(lang, tool_name, errors@.len());
                    &&& outcome is None
                    &&& closed_with(old(session).messages(), final(session).messages().drop_last(), summary)
                    &&& final(session).messages().len() > 0
                    &&& is_role_message(
                        final(session).messages().last(),
                        MessageRole::User,
                        history_text(tool_name, string_views(errors@)),
                    )
                },
                ToolErrorAction::Retry => {
                    &&& outcome is None
                    &&& closed_with(old(session).messages(), final(session).messages().drop_last(), failed_text(lang, error_text@))
                    &&& final(session).messages().len() > 0
                    &&& is_role_message(
                        final(session).messages().last(),
                        MessageRole::User,
                        retry_prompt(retry_template, tool_name, error_text@),
                    )
                },
            }
        }),
{
    let tool_name = join_strings(names, ", ");
    match action {
        ToolErrorAction::Stop => {
            let summary = match lang {
                Language::Zh => concat2("❌ 执行失败: ", error_text),
                Language::En => concat2("❌ Tool execution failed: ", error_text),
            };
            session.close_dangling_tool_calls(summary.as_str());
            let ghost mid = session.messages();
            session.remove_ephemeral_messages();
            assert(closed_with(old(session).messages(), mid, failed_text(lang, error_text@)));
            Some(RunOutcome::Failed { error: concat2("Tool execution failed: ", error_text) })
        },
        ToolErrorAction::RetryWithHistory { errors } => {
            let count = decimal_string(errors.len() as u64);
            let mut history = concat3("The tool `", tool_name.as_str(), "` has failed ");
            history.append(count.as_str());
            history.append(" consecutive times. Error history:\n\n");
            let list = numbered_errors(&errors);
            history.append(list.as_str());
            history.append(
                "\n\nPlease analyze these errors and either switch to a different approach or explain the failure to the user.",
            );
            let mut summary = match lang {
                Language::Zh => concat3("⚠️ ", tool_name.as_str(), " 连续失败 "),
                Language::En => concat3("⚠️ ", tool_name.as_str(), " failed "),
            };
            summary.append(count.as_str());
            match lang {
                Language::Zh => summary.append(" 次，已将错误历史发给 LLM 评估"),
                Language::En => summary.append(" consecutive times, error history sent to LLM"),
            }
            session.close_dangling_tool_calls(summary.as_str());
            let ghost mid = session.messages();
            session.push_message(MessageRole::User, history.as_str());
            assert(session.messages().drop_last() == mid);
            None
        },
        ToolErrorAction::Retry => {
            let prompt = match &retry_template {
                Some(template) => {
                    proof {
                        reveal_strlit("{tool_names}");
                        reveal_strlit("{error}");
                    }
                    let step1 = replace_all(template.as_str(), "{tool_names}", tool_name.as_str());
                    replace_all(step1.as_str(), "{error}", error_text)
                },
                None => {
                    let mut p = concat3("Tool calls failed: ", tool_name.as_str(), "\nError: ");
                    p.append(error_text);
                    p.append("\nPlease analyze the error and adjust your approach.");
                    p
                },
            };
            let summary = match lang {
                Language::Zh => concat2("❌ 执行失败: ", error_text),
                Language::En => concat2("❌ Tool execution failed: ", error_text),
            };
            session.close_dangling_tool_calls(summary.as_str());
            let ghost mid = session.messages();
            session.push_message(MessageRole::User, prompt.as_str());
            assert(session.messages().drop_last() == mid);
            None
        },
    }
}

// ── Managed runs ───────────────────────────────────────────────────────────

/// How a run is announced as over: cancelled, or finished.
#[derive(Clone, Copy, Debug, PartialEq, Eq, Structural)]
pub enum RunEnd {
    Cancelled,
    Finished,
}

/// A run that came back cancelled, or failed because it was cancelled, is
/// announced as cancelled; any other result as finished.
pub fn run_end(result: &Result<RunOutcome, AgentError>) -> (e: RunEnd)
    ensures
        e == RunEnd::Cancelled <==> (result matches Ok(RunOutcome::Cancelled) || result matches Err(AgentError::Cancelled)),
{
    match result {
        Ok(RunOutcome::Cancelled) => RunEnd::Cancelled,
        Err(e) => if e.is_cancelled() {
            RunEnd::Cancelled
        } else {
            RunEnd::Finished
        },
        _ => RunEnd::Finished,
    }
}

/// The start of a managed run: the input is recorded as a user message and
/// the run state starts afresh.
pub fn begin_managed_run(session: &mut AgentSession, user_input: &str)
    ensures
        final(session).messages().drop_last() == old(session).messages(),
        final(session).messages().len() == old(session).messages().len() + 1,
        is_role_message(final(session).messages().last(), MessageRole::User, user_input@),
        final(session).run() == RunState::zero(),
        final(session).total_calls() == old(session).total_calls(),
        final(session).identity() == old(session).identity(),
        final(session).allowed() == old(session).allowed(),
{
    session.push_message(MessageRole::User, user_input);
    session.reset_run_state();
}

/// Before each inner loop of a managed run: once the cumulative turns reach
/// the budget the run stops, with the turns spent.
pub fn managed_turn_cap(total_turns: u32, max_turns: u32) -> (r: Option<RunOutcome>)
    ensures
        total_turns >= max_turns ==> r == Some(RunOutcome::MaxTurnsExceeded { turns: total_turns }),
        total_turns < max_turns ==> r is None,
{
    if total_turns >= max_turns {
        Some(RunOutcome::MaxTurnsExceeded { turns: total_turns })
    } else {
        None
    }
}

/// What a managed run does after an inner loop.
#[derive(Debug)]
pub enum ManagedStep {
    /// Run another inner loop (with an empty input: the follow-up messages
    /// are already in the session).
    RunAgain,
    /// The managed run is over with this outcome.
    Finish(RunOutcome),
}

/// After an inner loop that ended with `outcome` and spent `turns` turns:
/// the turns are added to `total_turns`; the follow-up messages drained
/// from the queue are recorded as user messages and another inner loop
/// runs; with none the managed run finishes with `outcome`.
pub fn after_inner_loop(
    session: &mut AgentSession,
    total_turns: &mut u32,
    turns: u32,
    outcome: RunOutcome,
    follow_ups: &Vec<String>,
) -> (step: ManagedStep)
    requires
        *old(total_turns) + turns <= u32::MAX,
    ensures
        *final(total_turns) == *old(total_turns) + turns,
        follow_ups@.len() == 0 ==> step == ManagedStep::Finish(outcome) && *final(session) == *old(session),
        follow_ups@.len() > 0 ==> step is RunAgain,
        final(session).messages().len() == old(session).messages().len() + follow_ups@.len(),
        final(session).messages().take(old(session).messages().len() as int) == old(session).messages(),
        forall|j: int| 0 <= j < follow_ups@.len() ==> is_role_message(
            #[trigger] final(session).messages()[old(session).messages().len() + j],
            MessageRole::User,
            follow_ups@[j]@,
        ),
        same_run(final(session), old(session)),
{
    *total_turns = *total_turns + turns;
    if follow_ups.len() == 0 {
        assert(old(session).messages().take(old(session).messages().len() as int) =~= old(session).messages());
        return ManagedStep::Finish(outcome);
    }
    push_user_messages(session, follow_ups);
    ManagedStep::RunAgain
}

} // verus!
