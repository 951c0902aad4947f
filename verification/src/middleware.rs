//! Post-LLM middlewares: the per-turn tool-call limit and the tool-use
//! enforcement nudge.
use vstd::prelude::*;

use crate::types::{string_of, AgentError, FinishReason, SafetyConfig, SessionId};

verus! {

/// What the post-LLM middlewares see of an LLM response, and may change.
#[derive(Debug)]
pub struct PostLlmCtx {
    pub session_id: SessionId,
    pub full_text: String,
    pub is_tool_call: bool,
    pub tool_calls: Vec<(String, String, String)>,
    pub available_tools: Vec<String>,
    pub turn_count: u32,
    pub total_tool_calls: usize,
    pub nudge_count: usize,
    pub turn_tool_calls: usize,
    /// Do not record the assistant text in the session.
    pub skip_push: bool,
    /// A user message to inject before the next turn.
    pub follow_up_message: Option<String>,
    pub finish_reason: FinishReason,
}

/// The message that forces the model to summarise once the per-turn tool
/// limit is reached.
pub open spec fn tool_limit_text() -> Seq<char> {
    "本轮工具调用已达上限。请根据已有结果总结并向用户报告。不要再调用工具。"@
}

/// Enforces a hard limit on tool calls per turn: when the turn's tool call
/// count has reached the limit, pending tool calls are discarded and the
/// model is told to summarise.
#[derive(Debug)]
pub struct TurnToolLimitMiddleware {
    max_tool_calls_per_turn: usize,
}

impl TurnToolLimitMiddleware {
    /// The limit.
    pub closed spec fn limit(&self) -> usize {
        self.max_tool_calls_per_turn
    }

    pub fn new(max_tool_calls_per_turn: usize) -> (m: TurnToolLimitMiddleware)
        ensures
            m.limit() == max_tool_calls_per_turn,
    {
        TurnToolLimitMiddleware { max_tool_calls_per_turn }
    }

    pub fn from_config(config: &SafetyConfig) -> (m: TurnToolLimitMiddleware)
        ensures
            m.limit() == config.max_tool_calls_per_turn,
    {
        Self::new(config.max_tool_calls_per_turn)
    }

    /// Blocks the pending tool calls once the turn has used up its budget.
    pub fn on_post_llm(&self, ctx: &mut PostLlmCtx) -> (r: Result<(), AgentError>)
        ensures
            r is Ok,
            if old(ctx).is_tool_call && old(ctx).tool_calls@.len() > 0 && old(ctx).turn_tool_calls >= self.limit() {
                &&& final(ctx).tool_calls@.len() == 0
                &&& !final(ctx).is_tool_call
                &&& final(ctx).follow_up_message matches Some(m) && m@ == tool_limit_text()
                &&& *final(ctx) == (PostLlmCtx {
                    tool_calls: final(ctx).tool_calls,
                    is_tool_call: false,
                    follow_up_message: final(ctx).follow_up_message,
                    ..*old(ctx)
                })
            } else {
                *final(ctx) == *old(ctx)
            },
    {
        if !ctx.is_tool_call || ctx.tool_calls.len() == 0 {
            return Ok(());
        }
        if ctx.turn_tool_calls >= self.max_tool_calls_per_turn {
            ctx.tool_calls = Vec::new();
            ctx.is_tool_call = false;
            ctx.follow_up_message = Some(
                string_of("本轮工具调用已达上限。请根据已有结果总结并向用户报告。不要再调用工具。"),
            );
        }
        Ok(())
    }
}

/// Settings of the tool-use enforcement.
#[derive(Debug)]
pub struct ToolEnforcementConfig {
    pub max_nudges: usize,
    pub nudge_message: String,
    pub first_turn_only: bool,
    pub min_tools_threshold: usize,
}

pub open spec fn default_nudge_text() -> Seq<char> {
    "CRITICAL: You have tools available but did not call any. Call the appropriate tool NOW. 关键提示：你有可用的工具但没有调用。立即使用工具执行。"@
}

impl Default for ToolEnforcementConfig {
    fn default() -> (c: ToolEnforcementConfig)
        ensures
            c.max_nudges == 3,
            c.nudge_message@ == default_nudge_text(),
            c.first_turn_only,
            c.min_tools_threshold == 1,
    {
        ToolEnforcementConfig {
            max_nudges: 3,
            nudge_message: string_of(
                "CRITICAL: You have tools available but did not call any. Call the appropriate tool NOW. 关键提示：你有可用的工具但没有调用。立即使用工具执行。",
            ),
            first_turn_only: true,
            min_tools_threshold: 1,
        }
    }
}

/// When the model answers with text although tools are available, suppress
/// the text and nudge it to call a tool, a bounded number of times.
#[derive(Debug)]
pub struct ToolEnforcementMiddleware {
    config: ToolEnforcementConfig,
}

impl ToolEnforcementMiddleware {
    /// The settings.
    pub closed spec fn settings(&self) -> ToolEnforcementConfig {
        self.config
    }

    pub fn new(config: ToolEnforcementConfig) -> (m: ToolEnforcementMiddleware)
        ensures
            m.settings() == config,
    {
        ToolEnforcementMiddleware { config }
    }

    /// Whether this response gets a nudge.
    pub open spec fn nudges(&self, ctx: PostLlmCtx) -> bool {
        &&& ctx.available_tools@.len() >= self.settings().min_tools_threshold
        &&& !(self.settings().first_turn_only && ctx.total_tool_calls > 0)
        &&& !ctx.is_tool_call
        &&& ctx.full_text@.len() > 0
        &&& ctx.nudge_count < self.settings().max_nudges
    }

    pub fn on_post_llm(&self, ctx: &mut PostLlmCtx) -> (r: Result<(), AgentError>)
        ensures
            r is Ok,
            if self.nudges(*old(ctx)) {
                &&& final(ctx).nudge_count == old(ctx).nudge_count + 1
                &&& final(ctx).skip_push
                &&& final(ctx).follow_up_message == Some(self.settings().nudge_message)
                &&& final(ctx).full_text == old(ctx).full_text
                &&& final(ctx).is_tool_call == old(ctx).is_tool_call
                &&& final(ctx).tool_calls == old(ctx).tool_calls
            } else {
                *final(ctx) == *old(ctx)
            },
    {
        if ctx.available_tools.len() < self.config.min_tools_threshold {
            return Ok(());
        }
        if self.config.first_turn_only && ctx.total_tool_calls > 0 {
            return Ok(());
        }
        if ctx.is_tool_call {
            return Ok(());
        }
        if ctx.full_text.as_str().is_empty() {
            return Ok(());
        }
        if ctx.nudge_count >= self.config.max_nudges {
            return Ok(());
        }
        ctx.nudge_count = ctx.nudge_count + 1;
        ctx.skip_push = true;
        ctx.follow_up_message = Some(self.config.nudge_message.clone());
        Ok(())
    }
}

/// Whether a response is nudged depends only on the tools on offer, the
/// tool calls made so far, the response itself and the nudges already given:
/// two responses that agree on these are treated alike, whatever their turn
/// number, session or finish reason.
pub proof fn law_nudge_ignores_turn_number(mw: ToolEnforcementMiddleware, a: PostLlmCtx, b: PostLlmCtx)
    requires
        a.available_tools@.len() == b.available_tools@.len(),
        a.total_tool_calls == b.total_tool_calls,
        a.is_tool_call == b.is_tool_call,
        a.full_text@.len() == b.full_text@.len(),
        a.nudge_count == b.nudge_count,
    ensures
        mw.nudges(a) == mw.nudges(b),
{
}

/// A text answer while tools are on offer and no tool was called yet is
/// nudged, at every turn, until the nudge budget is used up; once the budget
/// is used up it is accepted.
pub proof fn law_text_answer_nudged_until_budget(mw: ToolEnforcementMiddleware, ctx: PostLlmCtx)
    requires
        ctx.available_tools@.len() >= mw.settings().min_tools_threshold,
        ctx.total_tool_calls == 0,
        !ctx.is_tool_call,
        ctx.full_text@.len() > 0,
    ensures
        mw.nudges(ctx) <==> ctx.nudge_count < mw.settings().max_nudges,
{
}

/// The nudges of a turn stay within the configured budget: a response is
/// nudged only while fewer than `max_nudges` nudges were issued.
pub proof fn law_nudges_stay_within_budget(mw: ToolEnforcementMiddleware, ctx: PostLlmCtx)
    ensures
        mw.nudges(ctx) ==> ctx.nudge_count + 1 <= mw.settings().max_nudges,
{
}

} // verus!
