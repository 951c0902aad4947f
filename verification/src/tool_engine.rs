//! The decisions of tool execution: argument validation, the approval flow
//! and the texts reported for a tool run. Running the tools themselves, with
//! timeouts and event forwarding, is the caller's part.
use vstd::prelude::*;

use crate::json::{json_top_of, parse_json_top, JsonTop};
use crate::session::AgentSession;
use crate::text::{concat2, concat3, lemma_utf8_bytes_take_strict, utf8_bytes, utf8_len, char_utf8_len};
use crate::turn::{failed_text, Language};
use crate::types::{string_of, AgentError};

verus! {

/// The result of one executed tool call: its text contents.
#[derive(Clone, Debug)]
pub struct ToolExecutionResult {
    pub id: String,
    pub name: String,
    pub output: Vec<String>,
}

/// Tool arguments must be JSON: anything else is rejected with the raw text.
pub fn check_tool_args(name: &str, raw: &str) -> (r: Result<(), AgentError>)
    ensures
        match r {
            Ok(()) => !(json_top_of(raw@) is Invalid),
            Err(e) => json_top_of(raw@) is Invalid
                && (e matches AgentError::ToolArgsInvalid { name: n, raw: a } && n@ == name@ && a@ == raw@),
        },
{
    match parse_json_top(raw) {
        JsonTop::Invalid => Err(AgentError::ToolArgsInvalid { name: string_of(name), raw: string_of(raw) }),
        _ => Ok(()),
    }
}

/// What the user answered to an approval request.
#[derive(Clone, Copy, Debug, PartialEq, Eq, Structural)]
pub enum ApprovalDecision {
    AllowOnce,
    AllowAlways,
    Deny,
}

/// An approval request can be skipped when its action key was allowed for
/// good in this session; a request without a key is always asked.
pub fn approval_cached(session: &AgentSession, action_key: Option<&str>) -> (b: bool)
    ensures
        b == (action_key matches Some(k) && session.allowed().contains(k@)),
{
    match action_key {
        Some(k) => session.is_action_allowed(k),
        None => false,
    }
}

/// The summary shown when the user denies a tool call.
pub open spec fn denial_text(tool_name: Seq<char>) -> Seq<char> {
    "[Action Denied]: tool "@ + tool_name + " rejected by approval"@
}

/// The summary shown when the user denies the tool `tool_name`.
pub fn denial_summary(tool_name: &str) -> (s: String)
    ensures
        s@ == denial_text(tool_name@),
{
    concat3("[Action Denied]: tool ", tool_name, " rejected by approval")
}

/// Act on the answer to an approval request for `tool_name`. No answer (no
/// handler, or the wait timed out) counts as a denial. "Allow always"
/// remembers the request's action key in the session; a denial fails the
/// call. The denial is not recorded in the conversation.
pub fn apply_approval_decision(
    session: &mut AgentSession,
    tool_name: &str,
    action_key: Option<&str>,
    decision: Option<ApprovalDecision>,
) -> (r: Result<(), AgentError>)
    ensures
        final(session).messages() == old(session).messages(),
        final(session).identity() == old(session).identity(),
        final(session).total_calls() == old(session).total_calls(),
        final(session).run() == old(session).run(),
        match decision {
            Some(ApprovalDecision::AllowOnce) => r is Ok && final(session).allowed() == old(session).allowed(),
            Some(ApprovalDecision::AllowAlways) => r is Ok && final(session).allowed() == match action_key {
                Some(k) => old(session).allowed().insert(k@),
                None => old(session).allowed(),
            },
            _ => final(session).allowed() == old(session).allowed()
                && (r matches Err(AgentError::ApprovalDenied { tool_name: t }) && t@ == tool_name@),
        },
{
    match decision {
        Some(ApprovalDecision::AllowOnce) => Ok(()),
        Some(ApprovalDecision::AllowAlways) => {
            if let Some(k) = action_key {
                session.allow_action(k);
            }
            Ok(())
        },
        _ => Err(AgentError::ApprovalDenied { tool_name: string_of(tool_name) }),
    }
}

/// The summary shown when a tool fails with `error`.
pub fn tool_failure_summary(lang: Language, error: &str) -> (s: String)
    ensures
        s@ == failed_text(lang, error@),
{
    match lang {
        Language::Zh => crate::text::concat2("❌ 执行失败: ", error),
        Language::En => crate::text::concat2("❌ Tool execution failed: ", error),
    }
}

/// The output of a call to a tool that is not registered.
pub open spec fn not_found_text(lang: Language, name: Seq<char>) -> Seq<char> {
    match lang {
        Language::Zh => "工具 "@ + name + " 未找到"@,
        Language::En => "Tool "@ + name + " not found"@,
    }
}

/// The output of a call to the unregistered tool `name`.
pub fn tool_not_found_text(lang: Language, name: &str) -> (s: String)
    ensures
        s@ == not_found_text(lang, name@),
{
    match lang {
        Language::Zh => concat3("工具 ", name, " 未找到"),
        Language::En => concat3("Tool ", name, " not found"),
    }
}

/// The text that replaces the output of a tool that ran out of time.
pub open spec fn timeout_text(name: Seq<char>) -> Seq<char> {
    "[Tool Timeout]: 工具 "@ + name + " 执行超时"@
}

/// The output of the tool `name` when it ran out of time.
pub fn tool_timeout_text(name: &str) -> (s: String)
    ensures
        s@ == timeout_text(name@),
{
    concat3("[Tool Timeout]: 工具 ", name, " 执行超时")
}

/// Whether the run goes on after a tool ran.
#[derive(Clone, Copy, Debug, PartialEq, Eq, Structural)]
pub enum ToolControlFlow {
    Continue,
    Break,
}

/// Whether the run goes on after a batch of tool calls.
#[derive(Clone, Copy, Debug, PartialEq, Eq, Structural)]
pub enum ToolCallResult {
    Continue,
    Break,
}

/// The run goes on after a batch when any of its tools says so.
pub fn tool_calls_flow(flows: &Vec<ToolControlFlow>) -> (r: ToolCallResult)
    ensures
        (r is Continue) <==> exists|i: int| 0 <= i < flows@.len() && flows@[i] is Continue,
{
    let mut i: usize = 0;
    while i < flows.len()
        invariant
            i <= flows@.len(),
            forall|j: int| 0 <= j < i ==> flows@[j] is Break,
        decreases flows@.len() - i,
    {
        if flows[i] == ToolControlFlow::Continue {
            return ToolCallResult::Continue;
        }
        i = i + 1;
    }
    ToolCallResult::Break
}

/// The marker appended to a tool output that was cut.
pub open spec fn cut_marker() -> Seq<char> {
    "...(truncated)"@
}

/// The bytes of an output kept when it is cut to `max` bytes: room is left
/// for the marker.
pub open spec fn kept_bytes(max: nat) -> nat {
    if max >= 14 { (max - 14) as nat } else { 0 }
}

/// The first `b` bytes of `s` end on a character boundary.
pub open spec fn boundary_at(s: Seq<char>, b: nat) -> bool {
    exists|k: int| 0 <= k <= s.len() && #[trigger] utf8_bytes(s.take(k)) == b
}

/// The characters of `s` that take its first `b` bytes.
pub open spec fn byte_head(s: Seq<char>, b: nat) -> Seq<char> {
    s.take(choose|k: int| 0 <= k <= s.len() && #[trigger] utf8_bytes(s.take(k)) == b)
}

/// A tool output under the output limit `max` (in bytes), and whether it
/// was cut: an output longer than the limit keeps its first bytes and ends
/// with the marker, at most `max` bytes in all once `max` leaves room for it.
pub open spec fn limited_output(s: Seq<char>, max: Option<usize>) -> (Seq<char>, bool) {
    match max {
        Some(m) => if utf8_bytes(s) > m {
            (byte_head(s, kept_bytes(m as nat)) + cut_marker(), true)
        } else {
            (s, false)
        },
        None => (s, false),
    }
}

proof fn lemma_take_bytes_step(s: Seq<char>, k: int)
    requires
        0 <= k < s.len(),
    ensures
        utf8_bytes(s.take(k + 1)) == utf8_bytes(s.take(k)) + utf8_len(s[k]),
{
    assert(s.take(k + 1).drop_last() =~= s.take(k));
}

/// Whether `s` takes more than `m` bytes.
fn bytes_exceed(s: &str, m: usize) -> (b: bool)
    ensures
        b == (utf8_bytes(s@) > m),
{
    let n = s.unicode_len();
    let mut k: usize = 0;
    let mut acc: u128 = 0;
    while k < n
        invariant
            n == s@.len(),
            k <= n,
            acc == utf8_bytes(s@.take(k as int)),
            acc <= m,
        decreases n - k,
    {
        proof {
            lemma_take_bytes_step(s@, k as int);
        }
        acc = acc + char_utf8_len(s.get_char(k)) as u128;
        k = k + 1;
        if acc > m as u128 {
            proof {
                if k < n {
                    lemma_utf8_bytes_take_strict(s@, k as int, n as int);
                }
                assert(s@.take(n as int) =~= s@);
            }
            return true;
        }
    }
    assert(s@.take(n as int) =~= s@);
    false
}

/// The number of characters of `s` that take its first `b` bytes.
fn boundary_index(s: &str, b: usize) -> (k: usize)
    requires
        boundary_at(s@, b as nat),
    ensures
        k <= s@.len(),
        utf8_bytes(s@.take(k as int)) == b,
{
    let ghost k0 = choose|k: int| 0 <= k <= s@.len() && #[trigger] utf8_bytes(s@.take(k)) == b;
    let n = s.unicode_len();
    let mut k: usize = 0;
    let mut acc: u128 = 0;
    while acc < b as u128
        invariant
            n == s@.len(),
            0 <= k0 <= n,
            utf8_bytes(s@.take(k0)) == b,
            k <= k0,
            acc == utf8_bytes(s@.take(k as int)),
        decreases n - k,
    {
        proof {
            if k as int == k0 {
                assert(false);
            }
            lemma_take_bytes_step(s@, k as int);
        }
        acc = acc + char_utf8_len(s.get_char(k)) as u128;
        k = k + 1;
        proof {
            if (k as int) < k0 {
                lemma_utf8_bytes_take_strict(s@, k as int, k0);
            }
        }
    }
    proof {
        if (k as int) < k0 {
            lemma_utf8_bytes_take_strict(s@, k as int, k0);
        }
    }
    k
}

/// Cut a tool output that is longer than `max` bytes, and say whether it
/// was cut. The cut point must fall on a character boundary.
pub fn truncate_tool_output(output: String, max: Option<usize>) -> (r: (String, bool))
    requires
        match max {
            Some(m) => utf8_bytes(output@) > m ==> boundary_at(output@, kept_bytes(m as nat)),
            None => true,
        },
    ensures
        (r.0@, r.1) == limited_output(output@, max),
{
    match max {
        None => (output, false),
        Some(m) => {
            if !bytes_exceed(output.as_str(), m) {
                return (output, false);
            }
            let keep: usize = if m >= 14 { m - 14 } else { 0 };
            let k = boundary_index(output.as_str(), keep);
            proof {
                let c = choose|c: int| 0 <= c <= output@.len() && #[trigger] utf8_bytes(output@.take(c)) == keep;
                if c < k {
                    lemma_utf8_bytes_take_strict(output@, c, k as int);
                } else if k < c {
                    lemma_utf8_bytes_take_strict(output@, k as int, c);
                }
            }
            let head = output.as_str().substring_char(0, k);
            (concat2(head, "...(truncated)"), true)
        },
    }
}

} // verus!
