//! The react-loop guard's view of a turn, the decisions a guard can take,
//! what each decision does to the session, and the turn-end metrics record.
use vstd::prelude::*;

use crate::session::{is_role_message, AgentSession};
use crate::stream::UsageInfo;
use crate::text::{concat2, truncate_for_context, truncated_chars};
use crate::turn::{same_but_strikes, same_run, PostLlmResult, TurnFlow};
use crate::types::{string_of, ChatMessage, FinishReason, MessageRole, RunOutcome, SessionId};

verus! {

/// What a guard sees of a turn. The scene flags (`is_reasoning_only`,
/// `is_empty_response`, `is_text_only`) are detected by the runtime.
#[derive(Debug)]
pub struct GuardCtx {
    pub session_id: SessionId,
    pub turn_count: u32,
    pub user_input: String,
    pub model_response: String,
    pub finish_reason: FinishReason,
    pub available_tools: Vec<String>,
    pub reasoning_only_strikes: usize,
    pub empty_response_strikes: usize,
    pub run_has_tool_calls: bool,
    pub last_tool_calls_invalid: bool,
    pub all_user_inputs: Vec<String>,
    pub is_reasoning_only: bool,
    pub is_empty_response: bool,
    pub is_text_only: bool,
    pub thinking_disabled: bool,
    pub original_thinking_enabled: bool,
    pub remaining_turns: u32,
}

/// The per-turn facts a guard context is built from.
#[derive(Debug)]
pub struct TurnFacts {
    pub session_id: SessionId,
    pub turn_count: u32,
    pub user_input: String,
    pub finish_reason: FinishReason,
    pub available_tools: Vec<String>,
    pub all_user_inputs: Vec<String>,
    pub max_turns: u32,
}

/// Build the guard's view of a turn. The strike counters and the tool-call
/// flag come from the session (all zero when there is none); the other facts
/// are passed in.
pub fn build_guard_ctx(
    session: Option<&AgentSession>,
    facts: TurnFacts,
    model_response: String,
    is_reasoning_only: bool,
    is_empty_response: bool,
    is_text_only: bool,
    thinking_disabled: bool,
    original_thinking_enabled: bool,
    last_tool_calls_invalid: bool,
) -> (g: GuardCtx)
    ensures
        g.session_id == facts.session_id,
        g.turn_count == facts.turn_count,
        g.user_input == facts.user_input,
        g.model_response == model_response,
        g.finish_reason == facts.finish_reason,
        g.available_tools == facts.available_tools,
        g.all_user_inputs == facts.all_user_inputs,
        match session {
            Some(s) => g.reasoning_only_strikes == s.run().reasoning_only_strikes
                && g.empty_response_strikes == s.run().empty_response_strikes
                && g.run_has_tool_calls == s.run().run_has_tool_calls,
            None => g.reasoning_only_strikes == 0 && g.empty_response_strikes == 0 && !g.run_has_tool_calls,
        },
        g.last_tool_calls_invalid == last_tool_calls_invalid,
        g.is_reasoning_only == is_reasoning_only,
        g.is_empty_response == is_empty_response,
        g.is_text_only == is_text_only,
        g.thinking_disabled == thinking_disabled,
        g.original_thinking_enabled == original_thinking_enabled,
        g.remaining_turns == if facts.max_turns >= facts.turn_count { (facts.max_turns - facts.turn_count) as u32 } else { 0 },
{
    let (ro, er, has) = match session {
        Some(s) => {
            let rs = s.run_state_copy();
            (rs.reasoning_only_strikes, rs.empty_response_strikes, rs.run_has_tool_calls)
        },
        None => (0, 0, false),
    };
    let remaining = if facts.max_turns >= facts.turn_count { facts.max_turns - facts.turn_count } else { 0 };
    GuardCtx {
        session_id: facts.session_id,
        turn_count: facts.turn_count,
        user_input: facts.user_input,
        model_response,
        finish_reason: facts.finish_reason,
        available_tools: facts.available_tools,
        reasoning_only_strikes: ro,
        empty_response_strikes: er,
        run_has_tool_calls: has,
        last_tool_calls_invalid,
        all_user_inputs: facts.all_user_inputs,
        is_reasoning_only,
        is_empty_response,
        is_text_only,
        thinking_disabled,
        original_thinking_enabled,
        remaining_turns: remaining,
    }
}

/// A guard's decision on a turn.
#[derive(Clone, Debug)]
pub enum GuardDecision {
    /// Keep looping, optionally injecting a nudge.
    Continue { nudge: Option<String> },
    /// The task is complete.
    Complete,
    /// The run fails.
    Fail { error: String },
    /// Turn thinking off for the rest of the run, with a nudge.
    DisableThinking { nudge: String },
    /// Put thinking back as it was at the start of the run.
    RestoreThinking,
}

/// A guard's action on a degenerate or text-only turn.
#[derive(Clone, Debug)]
pub enum GuardAction {
    /// Keep looping with this nudge.
    Continue(String),
    /// The guard considers the turn done.
    Done,
    /// The run fails with this error.
    Fail(String),
}

/// Carry out a guard decision. Returns the loop's flow and, for the
/// thinking decisions, whether thinking is now disabled.
pub fn apply_guard_decision(
    session: &mut AgentSession,
    decision: GuardDecision,
    original_thinking_enabled: bool,
) -> (r: (TurnFlow, Option<bool>))
    ensures
        same_run(final(session), old(session)),
        match decision {
            GuardDecision::Continue { nudge: Some(n) } => r.0 is Continue && r.1 is None
                && final(session).messages().drop_last() == old(session).messages()
                && final(session).messages().len() == old(session).messages().len() + 1
                && is_role_message(final(session).messages().last(), MessageRole::User, n@),
            GuardDecision::Continue { nudge: None } => r.0 is Continue && r.1 is None
                && final(session).messages() == old(session).messages(),
            GuardDecision::Complete => r.0 matches TurnFlow::Done(RunOutcome::Completed) && r.1 is None
                && final(session).messages() == old(session).messages(),
            GuardDecision::Fail { error } => r.0 matches TurnFlow::Done(RunOutcome::Failed { error: e }) && e == error
                && r.1 is None && final(session).messages() == old(session).messages(),
            GuardDecision::DisableThinking { nudge } => r.0 is Continue && r.1 == Some(true)
                && final(session).messages().drop_last() == old(session).messages()
                && final(session).messages().len() == old(session).messages().len() + 1
                && is_role_message(final(session).messages().last(), MessageRole::User, nudge@),
            GuardDecision::RestoreThinking => r.0 is Continue && r.1 == Some(!original_thinking_enabled)
                && final(session).messages() == old(session).messages(),
        },
{
    match decision {
        GuardDecision::Continue { nudge } => {
            match nudge {
                Some(n) => session.push_message(MessageRole::User, n.as_str()),
                None => {},
            }
            (TurnFlow::Continue, None)
        },
        GuardDecision::Complete => (TurnFlow::Done(RunOutcome::Completed), None),
        GuardDecision::Fail { error } => (TurnFlow::Done(RunOutcome::Failed { error }), None),
        GuardDecision::DisableThinking { nudge } => {
            session.push_message(MessageRole::User, nudge.as_str());
            (TurnFlow::Continue, Some(true))
        },
        GuardDecision::RestoreThinking => (TurnFlow::Continue, Some(!original_thinking_enabled)),
    }
}

/// Guard dispatch for the degenerate turns (reasoning-only, empty): `Done`
/// counts as a failure, since accepting no output as success would defeat
/// the strike counters.
pub fn apply_nudge_guard(session: &mut AgentSession, action: GuardAction, label: &str) -> (flow: TurnFlow)
    ensures
        same_run(final(session), old(session)),
        match action {
            GuardAction::Fail(e) => flow matches TurnFlow::Done(RunOutcome::Failed { error }) && error == e
                && final(session).messages() == old(session).messages(),
            GuardAction::Continue(n) => flow is Continue
                && final(session).messages().drop_last() == old(session).messages()
                && final(session).messages().len() == old(session).messages().len() + 1
                && is_role_message(final(session).messages().last(), MessageRole::User, n@),
            GuardAction::Done => (flow matches TurnFlow::Done(RunOutcome::Failed { error })
                && error@ == "guard returned Done for "@ + label@)
                && final(session).messages() == old(session).messages(),
        },
{
    match action {
        GuardAction::Fail(error) => TurnFlow::Done(RunOutcome::Failed { error }),
        GuardAction::Continue(nudge) => {
            session.push_message(MessageRole::User, nudge.as_str());
            TurnFlow::Continue
        },
        GuardAction::Done => TurnFlow::Done(RunOutcome::Failed { error: concat2("guard returned Done for ", label) }),
    }
}

/// Guard dispatch for a text-only turn: `Done` completes the run,
/// `Continue` injects the nudge, `Fail` fails the run.
pub fn apply_text_only_guard(session: &mut AgentSession, action: GuardAction) -> (flow: TurnFlow)
    ensures
        same_run(final(session), old(session)),
        match action {
            GuardAction::Done => flow matches TurnFlow::Done(RunOutcome::Completed)
                && final(session).messages() == old(session).messages(),
            GuardAction::Continue(n) => flow is Continue
                && final(session).messages().drop_last() == old(session).messages()
                && final(session).messages().len() == old(session).messages().len() + 1
                && is_role_message(final(session).messages().last(), MessageRole::User, n@),
            GuardAction::Fail(e) => flow matches TurnFlow::Done(RunOutcome::Failed { error }) && error == e
                && final(session).messages() == old(session).messages(),
        },
{
    match action {
        GuardAction::Done => TurnFlow::Done(RunOutcome::Completed),
        GuardAction::Continue(nudge) => {
            session.push_message(MessageRole::User, nudge.as_str());
            TurnFlow::Continue
        },
        GuardAction::Fail(error) => TurnFlow::Done(RunOutcome::Failed { error }),
    }
}

/// The facts of a finished turn iteration, handed to the turn-end callbacks.
#[derive(Debug)]
pub struct TurnEndCtx {
    pub session_id: SessionId,
    pub turn_number: u32,
    /// When the turn started, in milliseconds on the caller's clock.
    pub turn_start_ms: u64,
    pub model: String,
    pub user_input: String,
    pub ttft_ms: u64,
    pub llm_duration_ms: u64,
    pub tool_duration_ms: u64,
    pub usage: Option<UsageInfo>,
    pub text_length: u64,
    pub has_thinking: bool,
    pub thinking_bytes: u64,
    pub tool_call_count: u32,
    pub tools_used: Vec<String>,
    pub tool_success: u32,
    pub tool_failed: u32,
    pub outcome: RunOutcome,
    pub error_message: Option<String>,
    pub llm_calls: u32,
}

impl TurnEndCtx {
    /// The always-provided facts; every metric starts at zero.
    pub fn new(
        session_id: SessionId,
        turn_number: u32,
        turn_start_ms: u64,
        model: &str,
        user_input: &str,
        outcome: RunOutcome,
    ) -> (c: TurnEndCtx)
        ensures
            c.session_id == session_id,
            c.turn_number == turn_number,
            c.turn_start_ms == turn_start_ms,
            c.model@ == model@,
            c.user_input@ == user_input@,
            c.outcome == outcome,
            c.ttft_ms == 0 && c.llm_duration_ms == 0 && c.tool_duration_ms == 0,
            c.usage is None,
            c.text_length == 0 && !c.has_thinking && c.thinking_bytes == 0,
            c.tool_call_count == 0 && c.tools_used@.len() == 0,
            c.tool_success == 0 && c.tool_failed == 0,
            c.error_message is None,
            c.llm_calls == 0,
    {
        TurnEndCtx {
            session_id,
            turn_number,
            turn_start_ms,
            model: string_of(model),
            user_input: string_of(user_input),
            ttft_ms: 0,
            llm_duration_ms: 0,
            tool_duration_ms: 0,
            usage: None,
            text_length: 0,
            has_thinking: false,
            thinking_bytes: 0,
            tool_call_count: 0,
            tools_used: Vec::new(),
            tool_success: 0,
            tool_failed: 0,
            outcome,
            error_message: None,
            llm_calls: 0,
        }
    }
}

/// The record a turn-end callback receives.
#[derive(Debug)]
pub struct TurnContext {
    pub session_id: u64,
    pub turn_number: u32,
    pub ttft_ms: u64,
    pub llm_duration_ms: u64,
    pub duration_ms: u64,
    pub tool_duration_ms: u64,
    pub usage: Option<UsageInfo>,
    pub full_text_len: u64,
    pub has_thinking: bool,
    pub thinking_bytes: u64,
    pub tools_used: Vec<String>,
    pub tool_call_count: u32,
    pub tool_success: u32,
    pub tool_failed: u32,
    pub outcome: RunOutcome,
    pub error_message: Option<String>,
    /// The user input, cut to 80 characters.
    pub user_input: String,
    pub model: String,
    pub plan_updates: u32,
    pub approval_count: u32,
    pub llm_calls: u32,
}

/// The record for the turn-end callbacks: the facts of `ctx`, the turn's
/// duration up to `now_ms`, and the user input cut to 80 characters.
pub fn turn_context(ctx: TurnEndCtx, now_ms: u64, plan_updates: u32, approval_count: u32) -> (t: TurnContext)
    ensures
        t.session_id == ctx.session_id.id,
        t.turn_number == ctx.turn_number,
        t.ttft_ms == ctx.ttft_ms,
        t.llm_duration_ms == ctx.llm_duration_ms,
        t.duration_ms == if now_ms >= ctx.turn_start_ms { (now_ms - ctx.turn_start_ms) as u64 } else { 0 },
        t.tool_duration_ms == ctx.tool_duration_ms,
        t.usage == ctx.usage,
        t.full_text_len == ctx.text_length,
        t.has_thinking == ctx.has_thinking,
        t.thinking_bytes == ctx.thinking_bytes,
        t.tools_used == ctx.tools_used,
        t.tool_call_count == ctx.tool_call_count,
        t.tool_success == ctx.tool_success,
        t.tool_failed == ctx.tool_failed,
        t.outcome == ctx.outcome,
        t.error_message == ctx.error_message,
        t.user_input@ == truncated_chars(ctx.user_input@, 80),
        t.model == ctx.model,
        t.plan_updates == plan_updates,
        t.approval_count == approval_count,
        t.llm_calls == ctx.llm_calls,
{
    let duration = if now_ms >= ctx.turn_start_ms { now_ms - ctx.turn_start_ms } else { 0 };
    let user_input = truncate_for_context(ctx.user_input.as_str());
    TurnContext {
        session_id: ctx.session_id.id,
        turn_number: ctx.turn_number,
        ttft_ms: ctx.ttft_ms,
        llm_duration_ms: ctx.llm_duration_ms,
        duration_ms: duration,
        tool_duration_ms: ctx.tool_duration_ms,
        usage: ctx.usage,
        full_text_len: ctx.text_length,
        has_thinking: ctx.has_thinking,
        thinking_bytes: ctx.thinking_bytes,
        tools_used: ctx.tools_used,
        tool_call_count: ctx.tool_call_count,
        tool_success: ctx.tool_success,
        tool_failed: ctx.tool_failed,
        outcome: ctx.outcome,
        error_message: ctx.error_message,
        user_input,
        model: ctx.model,
        plan_updates,
        approval_count,
        llm_calls: ctx.llm_calls,
    }
}

// ── Guarded dispatch of a response ─────────────────────────────────────────

/// What the guarded loop does with a response after the post-LLM middlewares.
#[derive(Debug)]
pub enum GuardedStep {
    /// A follow-up message was recorded: run the next turn.
    Continue,
    /// Ask the guard's `on_turn` about this scene (an empty response, or a
    /// text-only answer); the strike counters are already updated.
    AskGuard { empty_response: bool, text_only: bool },
    /// Tell the guard about the tool calls, then execute them.
    ExecuteTools(Vec<(String, String, String)>),
    /// The run fails with this error.
    Fail(String),
}

/// `m` is the assistant answer `text` with reasoning `reasoning` (none when
/// empty).
pub open spec fn is_answer(m: ChatMessage, text: Seq<char>, reasoning: Seq<char>) -> bool {
    m matches ChatMessage::Assistant { content: Some(c), reasoning_content: rc, tool_calls: None, thinking_signature: None }
        && c@ == text
        && if reasoning.len() > 0 { rc matches Some(x) && x@ == reasoning } else { rc is None }
}

/// The error of a text response that the provider cut off.
pub open spec fn truncated_response_text() -> Seq<char> {
    "response truncated (Length)"@
}

/// The error of a response that announced tool calls without any.
pub open spec fn missing_tool_calls_text() -> Seq<char> {
    "finish_reason=tool_use but no tool calls were parsed"@
}

/// A response after the post-LLM middlewares, in the guarded loop: record a
/// text-only answer, then follow the middlewares' follow-up message; count
/// an empty response (or a tool-call response without any complete call) as
/// a strike and ask the guard; hand complete tool calls over; fail on a
/// finish-reason anomaly; otherwise ask the guard about the text answer.
pub fn guarded_post_llm_step(
    session: &mut AgentSession,
    result: PostLlmResult,
    reasoning_text: String,
    finish_reason: FinishReason,
) -> (step: GuardedStep)
    requires
        old(session).run().empty_response_strikes < usize::MAX,
    ensures
        ({
            let old_m = old(session).messages();
            let recorded = !result.skip_push && result.full_text@.len() > 0 && !result.is_tool_call;
            let fin = final(session).messages();
            let base: int = if recorded { old_m.len() as int + 1 } else { old_m.len() as int };
            &&& fin.take(old_m.len() as int) == old_m
            &&& recorded ==> is_answer(fin[old_m.len() as int], result.full_text@, reasoning_text@)
            &&& match result.follow_up_message {
                Some(f) => {
                    &&& step is Continue
                    &&& fin.len() == base + 1
                    &&& is_role_message(fin.last(), MessageRole::User, f@)
                    &&& same_run(final(session), old(session))
                },
                None => {
                    &&& fin.len() == base
                    &&& if (result.full_text@.len() == 0 && !result.is_tool_call)
                        || (result.is_tool_call && result.tool_calls@.len() == 0) {
                        &&& step == (GuardedStep::AskGuard { empty_response: true, text_only: false })
                        &&& final(session).run().empty_response_strikes == old(session).run().empty_response_strikes + 1
                        &&& final(session).run().reasoning_only_strikes == 0
                        &&& same_but_strikes(final(session), old(session))
                    } else if result.is_tool_call {
                        step == GuardedStep::ExecuteTools(result.tool_calls) && same_run(final(session), old(session))
                    } else {
                        &&& same_run(final(session), old(session))
                        &&& match finish_reason {
                            FinishReason::ToolUse => step matches GuardedStep::Fail(e) && e@ == missing_tool_calls_text(),
                            FinishReason::Length => step matches GuardedStep::Fail(e) && e@ == truncated_response_text(),
                            _ => step == (GuardedStep::AskGuard { empty_response: false, text_only: true }),
                        }
                    }
                },
            }
        }),
{
    let ghost old_m = session.messages();
    if !result.skip_push && !result.full_text.as_str().is_empty() && !result.is_tool_call {
        if !reasoning_text.as_str().is_empty() {
            session.push_assistant_with_reasoning(result.full_text.as_str(), reasoning_text.as_str());
        } else {
            session.push_message(MessageRole::Assistant, result.full_text.as_str());
        }
    }
    let ghost mid = session.messages();
    proof {
        assert(mid.take(old_m.len() as int) =~= old_m);
    }
    let PostLlmResult { full_text, is_tool_call, tool_calls, skip_push: _, follow_up_message } = result;
    match follow_up_message {
        Some(f) => {
            session.push_message(MessageRole::User, f.as_str());
            proof {
                assert(session.messages().take(old_m.len() as int) =~= mid.take(old_m.len() as int));
                assert(session.messages()[old_m.len() as int] == mid[old_m.len() as int] || mid.len() == old_m.len());
            }
            return GuardedStep::Continue;
        },
        None => {},
    }
    if (full_text.as_str().is_empty() && !is_tool_call) || (is_tool_call && tool_calls.len() == 0) {
        let _ = session.note_empty_response();
        return GuardedStep::AskGuard { empty_response: true, text_only: false };
    }
    if is_tool_call {
        return GuardedStep::ExecuteTools(tool_calls);
    }
    match finish_reason {
        FinishReason::ToolUse => GuardedStep::Fail(string_of("finish_reason=tool_use but no tool calls were parsed")),
        FinishReason::Length => GuardedStep::Fail(string_of("response truncated (Length)")),
        _ => GuardedStep::AskGuard { empty_response: false, text_only: true },
    }
}

} // verus!
