//! The runtime's own state: the steering / follow-up queue, the reasoning
//! settings and the cancellation token of the current run.
use tokio_util::sync::CancellationToken;
use vstd::prelude::*;

use crate::message_queue::{MessageQueue, QueueMode};

verus! {

#[verifier::external_type_specification]
#[verifier::external_body]
pub struct ExCancellationToken(CancellationToken);

/// `CancellationToken::new`: a token on a freshly allocated node. While
/// `besides` is alive its node is not freed, so the new token is a different
/// handle from it (the crate's `==` on tokens compares the node pointers).
#[verifier::external_body]
fn token_fresh(besides: Option<&CancellationToken>) -> (t: CancellationToken)
    ensures
        besides matches Some(o) ==> t != *o,
{
    CancellationToken::new()
}

/// `CancellationToken::cancel`: cancels the token and its clones. Nothing is
/// claimed of the state it leaves, which clones share.
#[verifier::external_body]
fn token_cancel(t: &CancellationToken) {
    t.cancel()
}

/// `CancellationToken::is_cancelled`. The answer depends on every clone of
/// the token, so nothing is claimed of it.
#[verifier::external_body]
fn token_is_cancelled(t: &CancellationToken) -> (b: bool) {
    t.is_cancelled()
}

/// `CancellationToken::clone`: the clone holds the same `Arc` pointer as `t`,
/// so it is the same handle (the crate's own `==` on tokens is that pointer
/// equality) and is cancelled together with `t`.
#[verifier::external_body]
fn token_clone(t: &CancellationToken) -> (c: CancellationToken)
    ensures
        c == *t,
{
    t.clone()
}

/// How hard a reasoning model should think.
#[derive(Clone, Copy, Debug, PartialEq, Eq, Structural)]
pub enum ReasoningEffort {
    Low,
    Medium,
    High,
}

/// Reasoning settings sent with each LLM request.
#[derive(Clone, Copy, Debug, PartialEq, Eq, Structural)]
pub struct ReasoningConfig {
    pub effort: Option<ReasoningEffort>,
    pub budget_tokens: Option<u32>,
}

impl Default for ReasoningConfig {
    fn default() -> (c: ReasoningConfig)
        ensures
            c.effort is None,
            c.budget_tokens is None,
    {
        ReasoningConfig { effort: None, budget_tokens: None }
    }
}

/// The runtime's state between runs.
///
/// Besides the token that a run and its tools watch, the runtime records
/// whether it cancelled the current token itself, and whether it handed out
/// handles on it (through which others may cancel it). A token that was
/// never handed out can only have been cancelled by the runtime.
pub struct AgentRuntime {
    message_queue: MessageQueue,
    cancel_token: CancellationToken,
    cancel_requested: bool,
    handles_given: bool,
    reasoning: Option<ReasoningConfig>,
}

/// The answer `b` of `is_cancelled` fits the runtime's record: it is true
/// after `cancel`, and false when neither `cancel` was called nor a handle
/// given out since the token was last replaced.
pub open spec fn reports_cancelled(r: AgentRuntime, b: bool) -> bool {
    &&& r.cancel_requested() ==> b
    &&& (!r.cancel_requested() && !r.handles_given()) ==> !b
}

/// `after` is `before` once `cancel` was called: the same token, now
/// cancelled, and nothing else changed.
pub open spec fn cancel_step(before: AgentRuntime, after: AgentRuntime) -> bool {
    &&& after.cancel_requested()
    &&& after.token() == before.token()
    &&& after.handles_given() == before.handles_given()
    &&& after.queue() == before.queue()
    &&& after.reasoning_config() == before.reasoning_config()
}

/// `after` is `before` once `reset_cancel` was called: a different token,
/// neither cancelled nor handed out, and nothing else changed.
pub open spec fn reset_step(before: AgentRuntime, after: AgentRuntime) -> bool {
    &&& after.token() != before.token()
    &&& !after.cancel_requested()
    &&& !after.handles_given()
    &&& after.queue() == before.queue()
    &&& after.reasoning_config() == before.reasoning_config()
}

/// The cancellation state (token, request, handles) is the same.
pub open spec fn same_cancellation(a: AgentRuntime, b: AgentRuntime) -> bool {
    &&& a.token() == b.token()
    &&& a.cancel_requested() == b.cancel_requested()
    &&& a.handles_given() == b.handles_given()
}

/// Cancelling, then resetting: right after `cancel` the runtime reports
/// cancellation, and it keeps the token that handles taken before share;
/// after `reset_cancel` it runs on another token and reports no cancellation.
pub proof fn law_cancel_then_reset(r0: AgentRuntime, r1: AgentRuntime, r2: AgentRuntime)
    requires
        cancel_step(r0, r1),
        reset_step(r1, r2),
    ensures
        forall|b: bool| reports_cancelled(r1, b) ==> b,
        forall|b: bool| reports_cancelled(r2, b) ==> !b,
        r1.token() == r0.token(),
        r2.token() != r0.token(),
        r2.queue() == r0.queue(),
        r2.reasoning_config() == r0.reasoning_config(),
{
}

impl AgentRuntime {
    /// The message queue.
    pub closed spec fn queue(&self) -> MessageQueue {
        self.message_queue
    }

    /// The cancellation token of the current run.
    pub closed spec fn token(&self) -> CancellationToken {
        self.cancel_token
    }

    /// Whether `cancel` was called since the token was last replaced.
    pub closed spec fn cancel_requested(&self) -> bool {
        self.cancel_requested
    }

    /// Whether a handle on the current token was given out.
    pub closed spec fn handles_given(&self) -> bool {
        self.handles_given
    }

    /// The reasoning settings.
    pub closed spec fn reasoning_config(&self) -> Option<ReasoningConfig> {
        self.reasoning
    }

    pub fn new(reasoning: Option<ReasoningConfig>) -> (r: AgentRuntime)
        ensures
            r.queue().steering_queue().len() == 0,
            r.queue().follow_up_queue().len() == 0,
            r.queue().drain_mode() == QueueMode::All,
            r.reasoning_config() == reasoning,
            !r.cancel_requested(),
            !r.handles_given(),
    {
        AgentRuntime {
            message_queue: MessageQueue::new(),
            cancel_token: token_fresh(None),
            cancel_requested: false,
            handles_given: false,
            reasoning,
        }
    }

    /// Queue a steering message for the next turn of the current run.
    pub fn steer(&mut self, message: String)
        ensures
            final(self).queue().steering_queue() == old(self).queue().steering_queue().push(message),
            final(self).queue().follow_up_queue() == old(self).queue().follow_up_queue(),
            final(self).queue().drain_mode() == old(self).queue().drain_mode(),
            final(self).reasoning_config() == old(self).reasoning_config(),
            same_cancellation(*final(self), *old(self)),
    {
        self.message_queue.steer(message);
    }

    /// Queue a follow-up message, processed after the inner loop stops.
    pub fn follow_up(&mut self, message: String)
        ensures
            final(self).queue().follow_up_queue() == old(self).queue().follow_up_queue().push(message),
            final(self).queue().steering_queue() == old(self).queue().steering_queue(),
            final(self).queue().drain_mode() == old(self).queue().drain_mode(),
            final(self).reasoning_config() == old(self).reasoning_config(),
            same_cancellation(*final(self), *old(self)),
    {
        self.message_queue.follow_up(message);
    }

    /// Set the drain mode of the message queues.
    pub fn set_queue_mode(&mut self, mode: QueueMode)
        ensures
            final(self).queue().drain_mode() == mode,
            final(self).queue().steering_queue() == old(self).queue().steering_queue(),
            final(self).queue().follow_up_queue() == old(self).queue().follow_up_queue(),
            final(self).reasoning_config() == old(self).reasoning_config(),
            same_cancellation(*final(self), *old(self)),
    {
        self.message_queue.set_mode(mode);
    }

    /// The message queue, for the run loop.
    pub fn message_queue_mut(&mut self) -> (q: &mut MessageQueue)
        ensures
            *q == old(self).queue(),
            final(self).queue() == *final(q),
            final(self).reasoning_config() == old(self).reasoning_config(),
            same_cancellation(*final(self), *old(self)),
    {
        &mut self.message_queue
    }

    /// Set the reasoning effort, keeping the other reasoning settings (or
    /// the defaults when there were none).
    pub fn set_reasoning_effort_sync(&mut self, effort: ReasoningEffort)
        ensures
            final(self).reasoning_config() == Some(ReasoningConfig {
                effort: Some(effort),
                budget_tokens: match old(self).reasoning_config() {
                    Some(c) => c.budget_tokens,
                    None => None,
                },
            }),
            final(self).queue() == old(self).queue(),
            same_cancellation(*final(self), *old(self)),
    {
        let mut reasoning = match self.reasoning {
            Some(c) => c,
            None => ReasoningConfig::default(),
        };
        reasoning.effort = Some(effort);
        self.reasoning = Some(reasoning);
    }

    /// The reasoning settings sent with each request.
    pub fn reasoning(&self) -> (r: Option<ReasoningConfig>)
        ensures
            r == self.reasoning_config(),
    {
        self.reasoning
    }

    /// Cancel the current run (no-op when nothing runs): cancels the current
    /// token, and every handle on it.
    pub fn cancel(&mut self)
        ensures
            cancel_step(*old(self), *final(self)),
    {
        token_cancel(&self.cancel_token);
        self.cancel_requested = true;
    }

    /// Replace the cancellation token by a fresh one (done before each run),
    /// so that a cancellation of the previous run no longer applies.
    pub fn reset_cancel(&mut self)
        ensures
            reset_step(*old(self), *final(self)),
    {
        let fresh = token_fresh(Some(&self.cancel_token));
        self.cancel_token = fresh;
        self.cancel_requested = false;
        self.handles_given = false;
    }

    /// Whether cancellation was requested: by `cancel`, or through a handle
    /// on the current token.
    pub fn is_cancelled(&self) -> (b: bool)
        ensures
            reports_cancelled(*self, b),
    {
        if self.cancel_requested {
            true
        } else if self.handles_given {
            token_is_cancelled(&self.cancel_token)
        } else {
            false
        }
    }

    /// A handle on the current cancellation token.
    pub fn cancel_token(&mut self) -> (t: CancellationToken)
        ensures
            t == old(self).token(),
            final(self).token() == old(self).token(),
            final(self).handles_given(),
            final(self).cancel_requested() == old(self).cancel_requested(),
            final(self).queue() == old(self).queue(),
            final(self).reasoning_config() == old(self).reasoning_config(),
    {
        self.handles_given = true;
        token_clone(&self.cancel_token)
    }
}

} // verus!
