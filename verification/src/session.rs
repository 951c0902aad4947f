//! Stable identity and rolling state of a single chat thread.
use vstd::prelude::*;
use vstd::string::*;

use crate::json::{distinct_keys, json_object_text, json_top_of, pair_views, parse_json_top, render_json_object, JsonTop};
use crate::text::{byte_bounded_prefix, byte_prefix, decimal, decimal_string, string_views};
use crate::types::{
    call_ids_of, tool_call_count_of, ToolCallMessage, has_tool_calls, spec_is_ephemeral, string_of, ChatMessage, ImageAttachment, Message, MessageRole,
    SessionId,
};

verus! {

broadcast use vstd::seq_lib::group_seq_properties;

/// Run-level state tracking for the react loop.
///
/// All fields are reset at the start of each run (when a new user message
/// arrives).
#[derive(Clone, Copy, Debug, PartialEq, Eq, Structural)]
pub struct RunState {
    /// Number of tool calls already executed in the current turn.
    pub turn_tool_calls: usize,
    /// Whether any tools were called in the current run.
    pub run_has_tool_calls: bool,
    /// Consecutive LLM turns that produced only reasoning content.
    pub reasoning_only_strikes: usize,
    /// Consecutive LLM turns that produced a completely empty response.
    pub empty_response_strikes: usize,
    /// Number of tool-enforcement nudges issued in the current turn.
    pub nudge_count: usize,
}

impl Default for RunState {
    fn default() -> (r: RunState)
        ensures
            r == RunState::zero(),
    {
        RunState {
            turn_tool_calls: 0,
            run_has_tool_calls: false,
            reasoning_only_strikes: 0,
            empty_response_strikes: 0,
            nudge_count: 0,
        }
    }
}

impl RunState {
    /// The state at the start of a run.
    pub open spec fn zero() -> RunState {
        RunState {
            turn_tool_calls: 0,
            run_has_tool_calls: false,
            reasoning_only_strikes: 0,
            empty_response_strikes: 0,
            nudge_count: 0,
        }
    }

    /// Reset all run-level state for a new run.
    pub fn reset_for_new_run(&mut self)
        ensures
            *final(self) == RunState::zero(),
    {
        self.turn_tool_calls = 0;
        self.run_has_tool_calls = false;
        self.reasoning_only_strikes = 0;
        self.empty_response_strikes = 0;
        self.nudge_count = 0;
    }

    /// Record `n` executed tool calls; resets both strike counters.
    pub fn record_tool_calls(&mut self, n: usize)
        requires
            old(self).turn_tool_calls + n <= usize::MAX,
        ensures
            final(self).turn_tool_calls == old(self).turn_tool_calls + n,
            final(self).run_has_tool_calls,
            final(self).reasoning_only_strikes == 0,
            final(self).empty_response_strikes == 0,
            final(self).nudge_count == old(self).nudge_count,
    {
        self.turn_tool_calls = self.turn_tool_calls + n;
        self.run_has_tool_calls = true;
        self.reasoning_only_strikes = 0;
        self.empty_response_strikes = 0;
    }

    /// Record a reasoning-only response; resets the empty-response strikes and
    /// returns the new reasoning-only strike count.
    pub fn record_reasoning_only(&mut self) -> (strikes: usize)
        requires
            old(self).reasoning_only_strikes < usize::MAX,
        ensures
            final(self).reasoning_only_strikes == old(self).reasoning_only_strikes + 1,
            strikes == final(self).reasoning_only_strikes,
            final(self).empty_response_strikes == 0,
            final(self).turn_tool_calls == old(self).turn_tool_calls,
            final(self).run_has_tool_calls == old(self).run_has_tool_calls,
            final(self).nudge_count == old(self).nudge_count,
    {
        self.empty_response_strikes = 0;
        self.reasoning_only_strikes = self.reasoning_only_strikes + 1;
        self.reasoning_only_strikes
    }

    /// Record an empty response; resets the reasoning-only strikes and returns
    /// the new empty-response strike count.
    pub fn record_empty_response(&mut self) -> (strikes: usize)
        requires
            old(self).empty_response_strikes < usize::MAX,
        ensures
            final(self).empty_response_strikes == old(self).empty_response_strikes + 1,
            strikes == final(self).empty_response_strikes,
            final(self).reasoning_only_strikes == 0,
            final(self).turn_tool_calls == old(self).turn_tool_calls,
            final(self).run_has_tool_calls == old(self).run_has_tool_calls,
            final(self).nudge_count == old(self).nudge_count,
    {
        self.reasoning_only_strikes = 0;
        self.empty_response_strikes = self.empty_response_strikes + 1;
        self.empty_response_strikes
    }

    /// The run state of a stored session record: its nested `run_state` when
    /// the record has one, else the older flat counters, each missing one
    /// taken as 0 (`run_has_tool_calls` was not stored then, so it is false).
    pub fn from_stored(
        run_state: Option<RunState>,
        nudge_count: Option<usize>,
        turn_tool_calls: Option<usize>,
        reasoning_only_strikes: Option<usize>,
        empty_response_strikes: Option<usize>,
    ) -> (r: RunState)
        ensures
            r == match run_state {
                Some(rs) => rs,
                None => RunState {
                    turn_tool_calls: turn_tool_calls.unwrap_or(0),
                    run_has_tool_calls: false,
                    reasoning_only_strikes: reasoning_only_strikes.unwrap_or(0),
                    empty_response_strikes: empty_response_strikes.unwrap_or(0),
                    nudge_count: nudge_count.unwrap_or(0),
                },
            },
    {
        match run_state {
            Some(rs) => rs,
            None => RunState {
                turn_tool_calls: turn_tool_calls.unwrap_or(0),
                run_has_tool_calls: false,
                reasoning_only_strikes: reasoning_only_strikes.unwrap_or(0),
                empty_response_strikes: empty_response_strikes.unwrap_or(0),
                nudge_count: nudge_count.unwrap_or(0),
            },
        }
    }
}

// ── Spec-level description of a message sequence ──────────────────────────

/// Number of user messages (conversation turns) in `s`.
pub open spec fn user_count(s: Seq<ChatMessage>) -> nat
    decreases s.len(),
{
    if s.len() == 0 {
        0
    } else {
        user_count(s.drop_last()) + if s.last() is User { 1nat } else { 0nat }
    }
}

/// Number of leading system messages of `s`.
pub open spec fn leading_systems(s: Seq<ChatMessage>) -> nat
    decreases s.len(),
{
    if s.len() == 0 || !(s[0] is System) {
        0
    } else {
        1 + leading_systems(s.drop_first())
    }
}

/// `d` is the position of the user message that opens turn number `k`
/// (counting from zero).
pub open spec fn opens_turn(s: Seq<ChatMessage>, d: int, k: nat) -> bool {
    0 <= d < s.len() && s[d] is User && user_count(s.take(d)) == k
}

/// The messages of `s` that are not ephemeral, in order.
pub open spec fn without_ephemeral(s: Seq<ChatMessage>) -> Seq<ChatMessage>
    decreases s.len(),
{
    if s.len() == 0 {
        s
    } else if spec_is_ephemeral(s.last()) {
        without_ephemeral(s.drop_last())
    } else {
        without_ephemeral(s.drop_last()).push(s.last())
    }
}

/// The simplified form of a message, if it has one: assistant messages that
/// carry only tool calls (no text) have none.
pub open spec fn simple_of(m: ChatMessage) -> Option<Message> {
    match m {
        ChatMessage::System { content, .. } => Some(Message { role: MessageRole::System, content }),
        ChatMessage::User { content, .. } => Some(Message { role: MessageRole::User, content }),
        ChatMessage::Tool { content, .. } => Some(Message { role: MessageRole::Tool, content }),
        ChatMessage::Assistant { content: None, .. } => None,
        ChatMessage::Assistant { content: Some(c), tool_calls: Some(tc), .. } =>
            if c@.len() == 0 && tc@.len() > 0 { None }
            else { Some(Message { role: MessageRole::Assistant, content: c }) },
        ChatMessage::Assistant { content: Some(c), .. } =>
            Some(Message { role: MessageRole::Assistant, content: c }),
    }
}

/// The simplified view of a message sequence.
pub open spec fn simple_view(s: Seq<ChatMessage>) -> Seq<Message>
    decreases s.len(),
{
    if s.len() == 0 {
        Seq::empty()
    } else {
        match simple_of(s.last()) {
            Some(m) => simple_view(s.drop_last()).push(m),
            None => simple_view(s.drop_last()),
        }
    }
}

/// The message that `push_message(role, content)` appends.
pub open spec fn is_role_message(m: ChatMessage, role: MessageRole, content: Seq<char>) -> bool {
    match role {
        MessageRole::System => m matches ChatMessage::System { content: c, ephemeral: e }
            && c@ == content && !e,
        MessageRole::User => m matches ChatMessage::User { content: c, images, ephemeral: e }
            && c@ == content && images@.len() == 0 && !e,
        MessageRole::Assistant => m matches ChatMessage::Assistant {
            content: Some(c),
            reasoning_content: None,
            tool_calls: None,
            thinking_signature: None,
        } && c@ == content,
        MessageRole::Tool => m matches ChatMessage::Tool { tool_call_id: i, name: None, content: c }
            && i@.len() == 0 && c@ == content,
    }
}

/// A tool result message answering `id` with `content`.
pub open spec fn is_tool_result(m: ChatMessage, id: Seq<char>, content: Seq<char>) -> bool {
    m matches ChatMessage::Tool { tool_call_id: i, name: None, content: c } && i@ == id && c@ == content
}

// ── Lemmas about the spec functions ────────────────────────────────────────

pub proof fn lemma_take_succ<A>(s: Seq<A>, i: int)
    requires
        0 <= i < s.len(),
    ensures
        s.take(i + 1).drop_last() == s.take(i),
        s.take(i + 1).last() == s[i],
{
    assert(s.take(i + 1).drop_last() =~= s.take(i));
}

pub proof fn lemma_user_count_append(a: Seq<ChatMessage>, b: Seq<ChatMessage>)
    ensures
        user_count(a + b) == user_count(a) + user_count(b),
    decreases b.len(),
{
    if b.len() == 0 {
        assert(a + b =~= a);
    } else {
        lemma_user_count_append(a, b.drop_last());
        assert((a + b).drop_last() =~= a + b.drop_last());
    }
}

/// The user count of a prefix never decreases as the prefix grows, and grows
/// past every user message.
pub proof fn lemma_user_count_take_mono(s: Seq<ChatMessage>, i: int, j: int)
    requires
        0 <= i <= j <= s.len(),
    ensures
        user_count(s.take(i)) <= user_count(s.take(j)),
        i < j && s[i] is User ==> user_count(s.take(i)) < user_count(s.take(j)),
    decreases j - i,
{
    if i < j {
        lemma_user_count_take_mono(s, i, j - 1);
        lemma_take_succ(s, j - 1);
        if i == j - 1 {
        }
    }
}

pub proof fn lemma_opens_turn_unique(s: Seq<ChatMessage>, d1: int, d2: int, k: nat)
    requires
        opens_turn(s, d1, k),
        opens_turn(s, d2, k),
    ensures
        d1 == d2,
{
    if d1 < d2 {
        lemma_user_count_take_mono(s, d1, d2);
    } else if d2 < d1 {
        lemma_user_count_take_mono(s, d2, d1);
    }
}

pub proof fn lemma_user_count_all_systems(s: Seq<ChatMessage>)
    requires
        forall|i: int| 0 <= i < s.len() ==> #[trigger] s[i] is System,
    ensures
        user_count(s) == 0,
    decreases s.len(),
{
    if s.len() > 0 {
        lemma_user_count_all_systems(s.drop_last());
    }
}

pub proof fn lemma_leading_systems_bound(s: Seq<ChatMessage>)
    ensures
        leading_systems(s) <= s.len(),
        forall|i: int| 0 <= i < leading_systems(s) ==> #[trigger] s[i] is System,
        leading_systems(s) < s.len() ==> !(s[leading_systems(s) as int] is System),
    decreases s.len(),
{
    if s.len() > 0 && s[0] is System {
        lemma_leading_systems_bound(s.drop_first());
        assert forall|i: int| 0 <= i < leading_systems(s) implies #[trigger] s[i] is System by {
            if i > 0 {
                assert(s[i] == s.drop_first()[i - 1]);
            }
        }
    }
}

pub proof fn lemma_leading_systems_exact(s: Seq<ChatMessage>, n: int)
    requires
        0 <= n <= s.len(),
        forall|i: int| 0 <= i < n ==> #[trigger] s[i] is System,
        n == s.len() || !(s[n] is System),
    ensures
        leading_systems(s) == n,
    decreases s.len(),
{
    if n > 0 {
        assert forall|i: int| 0 <= i < n - 1 implies #[trigger] s.drop_first()[i] is System by {
            assert(s.drop_first()[i] == s[i + 1]);
        }
        if n - 1 < s.drop_first().len() {
            assert(s.drop_first()[n - 1] == s[n]);
        }
        lemma_leading_systems_exact(s.drop_first(), n - 1);
    }
}

/// The messages that remain after dropping turns so that at most `max` turns
/// are left: the leading system messages are kept, and everything from the
/// first of them up to the start of the oldest kept turn is removed.
pub open spec fn trimmed(s: Seq<ChatMessage>, max: nat) -> Seq<ChatMessage> {
    let count = user_count(s);
    if count <= max || max == 0 {
        s
    } else {
        let d = choose|d: int| #[trigger] opens_turn(s, d, (count - max) as nat);
        let sp = leading_systems(s);
        if sp >= d {
            s
        } else {
            s.subrange(0, sp as int) + s.subrange(d, s.len() as int)
        }
    }
}

/// Every turn number below the count of user messages is opened by some user
/// message.
pub proof fn lemma_turn_opened(s: Seq<ChatMessage>, k: nat)
    requires
        k < user_count(s),
    ensures
        exists|d: int| #[trigger] opens_turn(s, d, k),
    decreases s.len(),
{
    let init = s.drop_last();
    assert(s.take(s.len() - 1) =~= init);
    if s.last() is User && user_count(init) == k {
        assert(opens_turn(s, s.len() - 1, k));
    } else {
        lemma_turn_opened(init, k);
        let d = choose|d: int| #[trigger] opens_turn(init, d, k);
        assert(s.take(d) =~= init.take(d));
        assert(opens_turn(s, d, k));
    }
}

/// Trimming to `max > 0` turns a conversation that has more keeps exactly
/// `max` turns: the leading system messages, then the conversation from the
/// user message that opens the first kept turn to the end.
pub proof fn law_trim_keeps_exactly_max_turns(s: Seq<ChatMessage>, max: nat)
    requires
        0 < max < user_count(s),
    ensures
        user_count(trimmed(s, max)) == max,
        exists|d: int| {
            &&& leading_systems(s) < d < s.len()
            &&& #[trigger] s[d] is User
            &&& trimmed(s, max) == s.take(leading_systems(s) as int) + s.subrange(d, s.len() as int)
        },
{
    let count = user_count(s);
    lemma_turn_opened(s, (count - max) as nat);
    let d = choose|e: int| #[trigger] opens_turn(s, e, (count - max) as nat);
    let sp = leading_systems(s);
    lemma_leading_systems_bound(s);
    if d < sp {
        assert(s[d] is System);
    }
    if d == sp {
        assert forall|i: int| 0 <= i < s.take(d).len() implies #[trigger] s.take(d)[i] is System by {
            assert(s.take(d)[i] == s[i]);
        }
        lemma_user_count_all_systems(s.take(d));
    }
    assert(d > sp);
    let head = s.take(sp as int);
    assert forall|i: int| 0 <= i < head.len() implies #[trigger] head[i] is System by {
        assert(head[i] == s[i]);
    }
    lemma_user_count_all_systems(head);
    assert(s.subrange(0, sp as int) =~= head);
    let tail = s.subrange(d, s.len() as int);
    assert(s =~= s.take(d) + tail);
    lemma_user_count_append(s.take(d), tail);
    lemma_user_count_append(head, tail);
    assert(trimmed(s, max) == head + tail);
}

// ── Message-sequence rules ────────────────────────────────────────────────

/// The views of a sequence of strings.
pub open spec fn views(v: Seq<String>) -> Seq<Seq<char>> {
    v.map_values(|x: String| x@)
}

/// `s` without repeated elements, each kept at its first occurrence.
pub open spec fn dedup(s: Seq<Seq<char>>) -> Seq<Seq<char>>
    decreases s.len(),
{
    if s.len() == 0 {
        s
    } else if dedup(s.drop_last()).contains(s.last()) {
        dedup(s.drop_last())
    } else {
        dedup(s.drop_last()).push(s.last())
    }
}

/// `p` without its last occurrence of `id`.
pub open spec fn remove_id(p: Seq<Seq<char>>, id: Seq<char>) -> Seq<Seq<char>>
    decreases p.len(),
{
    if p.len() == 0 {
        p
    } else if p.last() == id {
        p.drop_last()
    } else {
        remove_id(p.drop_last(), id).push(p.last())
    }
}

/// What makes a message sequence unfit for an LLM API.
pub enum SequenceFault {
    /// A tool message while no tool call is pending.
    Orphan { index: nat, id: Seq<char> },
    /// A tool message whose id is not among the pending tool calls.
    Unknown { index: nat, id: Seq<char> },
    /// A new batch of tool calls while calls of the previous one are pending.
    Unanswered { index: nat, pending: Seq<Seq<char>> },
    /// The sequence ends with tool calls pending.
    Dangling { pending: Seq<Seq<char>> },
}

/// Progress of the sequence check over a prefix: the ids of the pending tool
/// calls, or the fault found.
pub enum ScanState {
    Open(Seq<Seq<char>>),
    Failed(SequenceFault),
}

pub open spec fn scan_step(st: ScanState, m: ChatMessage, i: nat) -> ScanState {
    match st {
        ScanState::Failed(f) => ScanState::Failed(f),
        ScanState::Open(p) => match m {
            ChatMessage::Tool { tool_call_id, .. } => if p.len() == 0 {
                ScanState::Failed(SequenceFault::Orphan { index: i, id: tool_call_id@ })
            } else if !p.contains(tool_call_id@) {
                ScanState::Failed(SequenceFault::Unknown { index: i, id: tool_call_id@ })
            } else {
                ScanState::Open(remove_id(p, tool_call_id@))
            },
            ChatMessage::Assistant { tool_calls: Some(_), .. } => if p.len() > 0 {
                ScanState::Failed(SequenceFault::Unanswered { index: i, pending: p })
            } else {
                ScanState::Open(dedup(call_ids_of(m)))
            },
            _ => ScanState::Open(p),
        },
    }
}

/// The check over the whole of `s`, message by message.
pub open spec fn scan(s: Seq<ChatMessage>) -> ScanState
    decreases s.len(),
{
    if s.len() == 0 {
        ScanState::Open(Seq::empty())
    } else {
        scan_step(scan(s.drop_last()), s.last(), (s.len() - 1) as nat)
    }
}

/// The first fault of `s`, if any: no orphan or unknown tool result, no new
/// batch of tool calls before the previous one is answered, no tool call left
/// unanswered at the end.
pub open spec fn sequence_fault(s: Seq<ChatMessage>) -> Option<SequenceFault> {
    match scan(s) {
        ScanState::Failed(f) => Some(f),
        ScanState::Open(p) => if p.len() == 0 { None } else { Some(SequenceFault::Dangling { pending: p }) },
    }
}

/// A message that neither carries tool calls nor answers one.
pub open spec fn plain_message(m: ChatMessage) -> bool {
    !(m is Tool) && !(m matches ChatMessage::Assistant { tool_calls: Some(_), .. })
}

proof fn lemma_plain_scan(s: Seq<ChatMessage>)
    requires
        forall|i: int| 0 <= i < s.len() ==> plain_message(#[trigger] s[i]),
    ensures
        scan(s) == ScanState::Open(Seq::<Seq<char>>::empty()),
    decreases s.len(),
{
    if s.len() > 0 {
        assert forall|i: int| 0 <= i < s.drop_last().len() implies plain_message(#[trigger] s.drop_last()[i]) by {
            assert(s.drop_last()[i] == s[i]);
        }
        lemma_plain_scan(s.drop_last());
        assert(plain_message(s[s.len() - 1]));
    }
}

/// A conversation of plain messages (no tool calls, no tool results) is
/// always well formed.
pub proof fn law_plain_conversation_is_valid(s: Seq<ChatMessage>)
    requires
        forall|i: int| 0 <= i < s.len() ==> plain_message(#[trigger] s[i]),
    ensures
        sequence_fault(s) is None,
{
    lemma_plain_scan(s);
}

pub open spec fn quoted(id: Seq<char>) -> Seq<char> {
    "\""@ + id + "\""@
}

pub open spec fn quoted_join(p: Seq<Seq<char>>) -> Seq<char>
    decreases p.len(),
{
    if p.len() == 0 {
        Seq::empty()
    } else if p.len() == 1 {
        quoted(p[0])
    } else {
        quoted_join(p.drop_last()) + ", \""@ + p.last() + "\""@
    }
}

/// Rendering of a set of pending ids.
pub open spec fn set_text(p: Seq<Seq<char>>) -> Seq<char> {
    "{"@ + quoted_join(p) + "}"@
}

/// The error message for a fault.
pub open spec fn fault_text(f: SequenceFault) -> Seq<char> {
    match f {
        SequenceFault::Orphan { index, id } => "message["@ + decimal(index)
            + "]: Tool message with call_id '"@ + id + "' has no preceding tool_call"@,
        SequenceFault::Unknown { index, id } => "message["@ + decimal(index)
            + "]: Tool message with call_id '"@ + id
            + "' does not match any pending tool_call (already answered or unknown)"@,
        SequenceFault::Unanswered { index, pending } => "message["@ + decimal(index)
            + "]: Assistant message with new tool_calls appears before pending calls were answered: "@
            + set_text(pending),
        SequenceFault::Dangling { pending } => "message sequence ends with unanswered tool calls: "@
            + set_text(pending),
    }
}

/// Total number of tool calls that the assistant messages of `s` carry.
pub open spec fn total_calls_in(s: Seq<ChatMessage>) -> nat
    decreases s.len(),
{
    if s.len() == 0 { 0 } else { total_calls_in(s.drop_last()) + tool_call_count_of(s.last()) }
}

pub proof fn lemma_dedup_no_duplicates(s: Seq<Seq<char>>)
    ensures
        dedup(s).no_duplicates(),
        forall|x: Seq<char>| dedup(s).contains(x) <==> s.contains(x),
    decreases s.len(),
{
    if s.len() > 0 {
        let d = s.drop_last();
        lemma_dedup_no_duplicates(d);
        assert forall|x: Seq<char>| dedup(s).contains(x) <==> s.contains(x) by {
            assert(dedup(d).contains(x) <==> d.contains(x));
            if s.contains(x) && x != s.last() {
                let i = choose|i: int| 0 <= i < s.len() && s[i] == x;
                assert(d[i] == x);
            }
            if d.contains(x) {
                let i = choose|i: int| 0 <= i < d.len() && d[i] == x;
                assert(s[i] == x);
            }
            if x == s.last() {
                assert(s[s.len() - 1] == x);
            }
            if !dedup(d).contains(s.last()) {
                let e = dedup(d).push(s.last());
                if dedup(d).contains(x) {
                    let i = choose|i: int| 0 <= i < dedup(d).len() && dedup(d)[i] == x;
                    assert(e[i] == x);
                }
                if x == s.last() {
                    assert(e[e.len() - 1] == x);
                }
                if e.contains(x) && x != s.last() {
                    let i = choose|i: int| 0 <= i < e.len() && e[i] == x;
                    assert(dedup(d)[i] == x);
                }
            }
        }
        if !dedup(d).contains(s.last()) {
            let e = dedup(d).push(s.last());
            assert forall|i: int, j: int| 0 <= i < e.len() && 0 <= j < e.len() && i != j implies e[i] != e[j] by {
                if i == e.len() - 1 {
                    assert(dedup(d)[j] == e[j]);
                } else if j == e.len() - 1 {
                    assert(dedup(d)[i] == e[i]);
                }
            }
        }
    }
}

pub proof fn lemma_remove_at(p: Seq<Seq<char>>, i: int, id: Seq<char>)
    requires
        p.no_duplicates(),
        0 <= i < p.len(),
        p[i] == id,
    ensures
        p.remove(i) == remove_id(p, id),
        p.remove(i).no_duplicates(),
    decreases p.len(),
{
    if i == p.len() - 1 {
        assert(p.remove(i) =~= p.drop_last());
    } else {
        assert(p.last() != id);
        lemma_remove_at(p.drop_last(), i, id);
        assert(p.remove(i) =~= p.drop_last().remove(i).push(p.last()));
    }
}

/// Once the check fails on a prefix, it fails the same way on every longer one.
pub proof fn lemma_failed_persists(s: Seq<ChatMessage>, i: int, j: int)
    requires
        0 <= i <= j <= s.len(),
        scan(s.take(i)) is Failed,
    ensures
        scan(s.take(j)) == scan(s.take(i)),
    decreases j - i,
{
    if j > i {
        lemma_failed_persists(s, i, j - 1);
        lemma_take_succ(s, j - 1);
    }
}

/// Finds the position of `id` among `pending`.
fn find_id(pending: &Vec<String>, id: &String) -> (r: Option<usize>)
    ensures
        match r {
            Some(i) => i < pending@.len() && pending@[i as int]@ == id@,
            None => !views(pending@).contains(id@),
        },
{
    let mut i: usize = 0;
    while i < pending.len()
        invariant
            i <= pending@.len(),
            forall|j: int| 0 <= j < i ==> pending@[j]@ != id@,
        decreases pending@.len() - i,
    {
        if pending[i] == *id {
            return Some(i);
        }
        i = i + 1;
    }
    proof {
        if views(pending@).contains(id@) {
            let j = choose|j: int| 0 <= j < views(pending@).len() && views(pending@)[j] == id@;
            assert(pending@[j]@ == id@);
        }
    }
    None
}

/// The ids of a batch of tool calls, without repetitions.
fn batch_ids(tc: &Vec<ToolCallMessage>) -> (r: Vec<String>)
    ensures
        views(r@) == dedup(tc@.map_values(|t: ToolCallMessage| t.id@)),
{
    let ghost ids = tc@.map_values(|t: ToolCallMessage| t.id@);
    let mut r: Vec<String> = Vec::new();
    let mut j: usize = 0;
    while j < tc.len()
        invariant
            j <= tc@.len(),
            ids == tc@.map_values(|t: ToolCallMessage| t.id@),
            views(r@) == dedup(ids.take(j as int)),
        decreases tc@.len() - j,
    {
        proof { lemma_take_succ(ids, j as int); }
        let id = tc[j].id.clone();
        match find_id(&r, &id) {
            Some(k) => {
                assert(views(r@)[k as int] == id@);
                assert(views(r@).contains(id@));
            },
            None => {
                r.push(id);
                assert(views(r@) =~= views(r@.drop_last()).push(id@));
            },
        }
        j = j + 1;
    }
    assert(ids.take(j as int) =~= ids);
    r
}

/// Renders pending ids the way a set of strings is printed.
fn render_pending(p: &Vec<String>) -> (r: String)
    ensures
        r@ == set_text(views(p@)),
{
    let mut body = String::new();
    let mut i: usize = 0;
    while i < p.len()
        invariant
            i <= p@.len(),
            body@ == quoted_join(views(p@).take(i as int)),
        decreases p@.len() - i,
    {
        proof { lemma_take_succ(views(p@), i as int); }
        if i == 0 {
            body.append("\"");
            body.append(p[i].as_str());
            body.append("\"");
            assert(views(p@).take(1) =~= seq![p@[0]@]);
            assert(body@ =~= quoted(p@[0]@));
        } else {
            body.append(", \"");
            body.append(p[i].as_str());
            body.append("\"");
        }
        i = i + 1;
    }
    assert(views(p@).take(i as int) =~= views(p@));
    let mut r = String::from_str("{");
    r.append(body.as_str());
    r.append("}");
    r
}

/// `prefix` + decimal(index) + `suffix`.
fn indexed_text(prefix: &str, index: usize, middle: &str, tail: &str) -> (r: String)
    ensures
        r@ == prefix@ + decimal(index as nat) + middle@ + tail@,
{
    let mut r = String::from_str(prefix);
    let d = decimal_string(index as u64);
    r.append(d.as_str());
    r.append(middle);
    r.append(tail);
    r
}

/// One step of the sequence check: message `m` at position `i`, with
/// `pending` the ids of the tool calls not yet answered.
fn check_step(pending: &mut Vec<String>, m: &ChatMessage, i: usize) -> (r: Result<(), String>)
    requires
        views(old(pending)@).no_duplicates(),
    ensures
        match scan_step(ScanState::Open(views(old(pending)@)), *m, i as nat) {
            ScanState::Open(p) => r is Ok && views(final(pending)@) == p && p.no_duplicates(),
            ScanState::Failed(f) => r matches Err(e) && e@ == fault_text(f),
        },
{
    match m {
        ChatMessage::Tool { tool_call_id, .. } => {
            if pending.len() == 0 {
                let mut e = indexed_text("message[", i, "]: Tool message with call_id '", tool_call_id.as_str());
                e.append("' has no preceding tool_call");
                return Err(e);
            }
            match find_id(pending, tool_call_id) {
                None => {
                    let mut e = indexed_text("message[", i, "]: Tool message with call_id '", tool_call_id.as_str());
                    e.append("' does not match any pending tool_call (already answered or unknown)");
                    Err(e)
                },
                Some(k) => {
                    let ghost old_p = pending@;
                    proof {
                        assert(views(pending@)[k as int] == tool_call_id@);
                        assert(views(pending@).contains(tool_call_id@));
                        lemma_remove_at(views(pending@), k as int, tool_call_id@);
                    }
                    let _ = pending.remove(k);
                    proof {
                        assert(views(pending@) =~= views(old_p).remove(k as int));
                    }
                    Ok(())
                },
            }
        },
        ChatMessage::Assistant { tool_calls: Some(tc), .. } => {
            if pending.len() > 0 {
                let mut e = indexed_text(
                    "message[",
                    i,
                    "]: Assistant message with new tool_calls appears before pending calls were answered: ",
                    "",
                );
                let rendered = render_pending(pending);
                e.append(rendered.as_str());
                proof { reveal_strlit(""); }
                return Err(e);
            }
            *pending = batch_ids(tc);
            proof { lemma_dedup_no_duplicates(call_ids_of(*m)); }
            Ok(())
        },
        _ => Ok(()),
    }
}

/// Validate that a chat message sequence is well-formed for LLM API
/// consumption: every tool message answers a pending tool call, no id is
/// answered twice, a batch of tool calls is answered in full before the next
/// batch, and no tool call is left unanswered at the end.
pub fn validate_message_sequence(messages: &[ChatMessage]) -> (r: Result<(), String>)
    ensures
        match sequence_fault(messages@) {
            None => r is Ok,
            Some(f) => r matches Err(e) && e@ == fault_text(f),
        },
{
    let ghost s = messages@;
    let mut pending: Vec<String> = Vec::new();
    assert(s.take(0) =~= Seq::<ChatMessage>::empty());
    assert(views(pending@) =~= Seq::<Seq<char>>::empty());
    let mut i: usize = 0;
    while i < messages.len()
        invariant
            s == messages@,
            i <= s.len(),
            scan(s.take(i as int)) == ScanState::Open(views(pending@)),
            views(pending@).no_duplicates(),
        decreases s.len() - i,
    {
        proof { lemma_take_succ(s, i as int); }
        let step = check_step(&mut pending, &messages[i], i);
        if step.is_err() {
            proof {
                lemma_failed_persists(s, i as int + 1, s.len() as int);
                assert(s.take(s.len() as int) =~= s);
            }
            return step;
        }
        i = i + 1;
    }
    assert(s.take(i as int) =~= s);
    if pending.len() > 0 {
        let mut e = String::from_str("message sequence ends with unanswered tool calls: ");
        let rendered = render_pending(&pending);
        e.append(rendered.as_str());
        return Err(e);
    }
    Ok(())
}

/// Position of the last assistant message that carries tool calls.
pub open spec fn last_batch(s: Seq<ChatMessage>) -> Option<int>
    decreases s.len(),
{
    if s.len() == 0 {
        None
    } else if has_tool_calls(s.last()) {
        Some(s.len() - 1)
    } else {
        last_batch(s.drop_last())
    }
}

/// The ids that the tool messages of `s` answer.
pub open spec fn answered_ids(s: Seq<ChatMessage>) -> Set<Seq<char>>
    decreases s.len(),
{
    if s.len() == 0 {
        Set::empty()
    } else {
        match s.last() {
            ChatMessage::Tool { tool_call_id, .. } => answered_ids(s.drop_last()).insert(tool_call_id@),
            _ => answered_ids(s.drop_last()),
        }
    }
}

/// The ids of `ids` that are not in `answered`, in order.
pub open spec fn unanswered(ids: Seq<Seq<char>>, answered: Set<Seq<char>>) -> Seq<Seq<char>>
    decreases ids.len(),
{
    if ids.len() == 0 {
        ids
    } else if answered.contains(ids.last()) {
        unanswered(ids.drop_last(), answered)
    } else {
        unanswered(ids.drop_last(), answered).push(ids.last())
    }
}

/// The tool calls of the last batch that no later tool message answers.
pub open spec fn dangling_ids(s: Seq<ChatMessage>) -> Seq<Seq<char>> {
    match last_batch(s) {
        None => Seq::empty(),
        Some(k) => unanswered(call_ids_of(s[k]), answered_ids(s.subrange(k + 1, s.len() as int))),
    }
}

/// The members of the error object that replaces unparsable tool-call
/// arguments.
pub open spec fn truncation_members(preview: Seq<char>) -> Seq<(Seq<char>, Seq<char>)> {
    seq![
        ("error"@, "tool_call_arguments_truncated"@),
        ("original_args_preview"@, preview),
        ("message"@, "The tool call arguments were truncated or invalid. Please retry with complete arguments."@),
    ]
}

/// The arguments text stored for a tool call: unchanged when it parses as
/// JSON, else an error object carrying its first 200 bytes (cut at a
/// character boundary).
pub open spec fn sanitized_args(a: Seq<char>) -> Seq<char> {
    if json_top_of(a) is Invalid {
        json_object_text(truncation_members(byte_prefix(a, 200)))
    } else {
        a
    }
}

/// `tc` holds the calls of `calls`, arguments sanitized.
pub open spec fn calls_match(tc: Seq<ToolCallMessage>, calls: Seq<(String, String, String)>) -> bool {
    &&& tc.len() == calls.len()
    &&& forall|i: int| 0 <= i < tc.len() ==> {
        &&& #[trigger] tc[i].id@ == calls[i].0@
        &&& tc[i].name@ == calls[i].1@
        &&& tc[i].arguments@ == sanitized_args(calls[i].2@)
        &&& !(json_top_of(tc[i].arguments@) is Invalid)
    }
}

/// The arguments text to store for a tool call.
pub fn sanitize_tool_args(args: &String) -> (r: String)
    ensures
        r@ == sanitized_args(args@),
        !(json_top_of(r@) is Invalid),
        // Sanitizing again changes nothing.
        sanitized_args(r@) == r@,
{
    match parse_json_top(args.as_str()) {
        JsonTop::Invalid => {
            let preview = byte_bounded_prefix(args.as_str(), 200);
            let mut entries: Vec<(String, String)> = Vec::new();
            entries.push((string_of("error"), string_of("tool_call_arguments_truncated")));
            entries.push((string_of("original_args_preview"), string_of(preview)));
            entries.push(
                (
                    string_of("message"),
                    string_of(
                        "The tool call arguments were truncated or invalid. Please retry with complete arguments.",
                    ),
                ),
            );
            assert(pair_views(entries@) =~= truncation_members(byte_prefix(args@, 200)));
            proof {
                reveal_strlit("error");
                reveal_strlit("original_args_preview");
                reveal_strlit("message");
                assert("error"@.len() != "original_args_preview"@.len());
                assert("error"@.len() != "message"@.len());
                assert("message"@.len() != "original_args_preview"@.len());
                assert(distinct_keys(pair_views(entries@)));
            }
            render_json_object(&entries)
        },
        _ => args.clone(),
    }
}

/// The text of the last message of `s` when it is a user message, else empty.
pub open spec fn last_user_text(s: Seq<ChatMessage>) -> Seq<char> {
    if s.len() > 0 && s.last() is User {
        s.last()->User_content@
    } else {
        Seq::empty()
    }
}

/// The texts of the user messages of `s`, oldest first.
pub open spec fn user_texts(s: Seq<ChatMessage>) -> Seq<Seq<char>>
    decreases s.len(),
{
    if s.len() == 0 {
        Seq::empty()
    } else if s.last() is User {
        user_texts(s.drop_last()).push(s.last()->User_content@)
    } else {
        user_texts(s.drop_last())
    }
}

// ── The session ────────────────────────────────────────────────────────────

/// Stable identity + rolling state of a single chat thread.
pub struct AgentSession {
    id: Option<SessionId>,
    /// LLM API format messages: the single source of truth for the
    /// conversation state.
    chat_messages: Vec<ChatMessage>,
    always_allowed_actions: Vec<String>,
    /// Total number of tool calls made in this session (across all turns).
    pub total_tool_calls: usize,
    /// Run-level state tracking for the react loop.
    pub run_state: RunState,
}

impl Default for AgentSession {
    /// A fresh session with no identity.
    fn default() -> (s: AgentSession)
        ensures
            s.identity() is None,
            s.messages().len() == 0,
            s.allowed() == Set::<Seq<char>>::empty(),
            s.total_calls() == 0,
            s.run() == RunState::zero(),
    {
        let s = AgentSession {
            id: None,
            chat_messages: Vec::new(),
            always_allowed_actions: Vec::new(),
            total_tool_calls: 0,
            run_state: RunState::default(),
        };
        assert(s.allowed() =~= Set::<Seq<char>>::empty());
        s
    }
}

impl AgentSession {
    /// The conversation, in provider format.
    pub closed spec fn messages(&self) -> Seq<ChatMessage> {
        self.chat_messages@
    }

    /// The session's identity.
    pub closed spec fn identity(&self) -> Option<SessionId> {
        self.id
    }

    /// The action keys that the user allowed for good.
    pub closed spec fn allowed(&self) -> Set<Seq<char>> {
        Set::new(|k: Seq<char>| exists|i: int|
            0 <= i < self.always_allowed_actions@.len() && #[trigger] self.always_allowed_actions@[i]@ == k)
    }

    /// The total number of tool calls of the session.
    pub closed spec fn total_calls(&self) -> usize {
        self.total_tool_calls
    }

    /// The run-level state.
    pub closed spec fn run(&self) -> RunState {
        self.run_state
    }

    /// `self` and `other` agree on everything but the conversation.
    pub open spec fn same_but_messages(&self, other: &AgentSession) -> bool {
        &&& self.identity() == other.identity()
        &&& self.allowed() == other.allowed()
        &&& self.total_calls() == other.total_calls()
        &&& self.run() == other.run()
    }

    pub fn new(id: SessionId) -> (s: AgentSession)
        ensures
            s.identity() == Some(id),
            s.messages().len() == 0,
            s.allowed() == Set::<Seq<char>>::empty(),
            s.total_calls() == 0,
            s.run() == RunState::zero(),
    {
        let s = AgentSession {
            id: Some(id),
            chat_messages: Vec::new(),
            always_allowed_actions: Vec::new(),
            total_tool_calls: 0,
            run_state: RunState::default(),
        };
        assert(s.allowed() =~= Set::<Seq<char>>::empty());
        s
    }

    /// A session rebuilt from its stored parts, as they were saved; the
    /// conversation is taken as it stands, without validation.
    pub fn restore(
        id: Option<SessionId>,
        chat_messages: Vec<ChatMessage>,
        always_allowed_actions: Vec<String>,
        total_tool_calls: usize,
        run_state: RunState,
    ) -> (s: AgentSession)
        ensures
            s.identity() == id,
            s.messages() == chat_messages@,
            s.allowed() == Set::new(|k: Seq<char>| exists|i: int|
                0 <= i < always_allowed_actions@.len() && #[trigger] always_allowed_actions@[i]@ == k),
            s.total_calls() == total_tool_calls,
            s.run() == run_state,
    {
        AgentSession { id, chat_messages, always_allowed_actions, total_tool_calls, run_state }
    }

    pub fn id(&self) -> (r: Option<SessionId>)
        ensures
            r == self.identity(),
    {
        self.id
    }

    pub fn chat_messages(&self) -> (r: &[ChatMessage])
        ensures
            r@ == self.messages(),
    {
        self.chat_messages.as_slice()
    }

    /// Direct mutable access to the conversation, for advanced callers.
    pub fn chat_messages_mut(&mut self) -> (r: &mut Vec<ChatMessage>)
        ensures
            r@ == old(self).messages(),
            final(self).messages() == final(r)@,
            final(self).same_but_messages(old(self)),
    {
        &mut self.chat_messages
    }

    pub fn is_action_allowed(&self, action_key: &str) -> (b: bool)
        ensures
            b == self.allowed().contains(action_key@),
    {
        let key = string_of(action_key);
        let mut i: usize = 0;
        while i < self.always_allowed_actions.len()
            invariant
                i <= self.always_allowed_actions@.len(),
                key@ == action_key@,
                forall|j: int| 0 <= j < i ==> self.always_allowed_actions@[j]@ != key@,
            decreases self.always_allowed_actions@.len() - i,
        {
            if self.always_allowed_actions[i] == key {
                assert(self.always_allowed_actions@[i as int]@ == action_key@);
                return true;
            }
            i = i + 1;
        }
        false
    }

    pub fn allow_action(&mut self, action_key: &str)
        ensures
            final(self).allowed() == old(self).allowed().insert(action_key@),
            final(self).messages() == old(self).messages(),
            final(self).identity() == old(self).identity(),
            final(self).total_calls() == old(self).total_calls(),
            final(self).run() == old(self).run(),
    {
        if !self.is_action_allowed(action_key) {
            let ghost before = self.always_allowed_actions@;
            self.always_allowed_actions.push(string_of(action_key));
            proof {
                let n = before.len() as int;
                assert forall|k: Seq<char>| #[trigger] self.allowed().contains(k) == old(self).allowed().insert(action_key@).contains(k) by {
                    if old(self).allowed().contains(k) {
                        let i = choose|i: int| 0 <= i < before.len() && #[trigger] before[i]@ == k;
                        assert(self.always_allowed_actions@[i]@ == k);
                    }
                    if k == action_key@ {
                        assert(self.always_allowed_actions@[n]@ == k);
                    }
                    if self.allowed().contains(k) {
                        let i = choose|i: int| 0 <= i < self.always_allowed_actions@.len() && #[trigger] self.always_allowed_actions@[i]@ == k;
                        if i < n {
                            assert(before[i]@ == k);
                        }
                    }
                }
                assert(self.allowed() =~= old(self).allowed().insert(action_key@));
            }
        } else {
            assert(old(self).allowed().insert(action_key@) =~= old(self).allowed());
        }
    }

    /// Append a plain message of the given role.
    pub fn push_message(&mut self, role: MessageRole, content: &str)
        ensures
            final(self).messages().len() == old(self).messages().len() + 1,
            final(self).messages().drop_last() == old(self).messages(),
            is_role_message(final(self).messages().last(), role, content@),
            final(self).same_but_messages(old(self)),
    {
        let chat_msg = match role {
            MessageRole::System => ChatMessage::system(content),
            MessageRole::User => ChatMessage::user(content),
            MessageRole::Assistant => ChatMessage::assistant(content),
            MessageRole::Tool => {
                proof { reveal_strlit(""); }
                ChatMessage::tool("", content)
            },
        };
        self.chat_messages.push(chat_msg);
    }

    /// Push an assistant message with its reasoning content preserved.
    pub fn push_assistant_with_reasoning(&mut self, content: &str, reasoning: &str)
        ensures
            final(self).messages().drop_last() == old(self).messages(),
            final(self).messages().len() == old(self).messages().len() + 1,
            final(self).messages().last() matches ChatMessage::Assistant {
                content: Some(c),
                reasoning_content: Some(r),
                tool_calls: None,
                thinking_signature: None,
            } && c@ == content@ && r@ == reasoning@,
            final(self).same_but_messages(old(self)),
    {
        self.chat_messages.push(ChatMessage::assistant_with_reasoning(content, reasoning));
    }

    pub fn push_user_message_with_images(&mut self, content: &str, images: Vec<ImageAttachment>)
        ensures
            final(self).messages().drop_last() == old(self).messages(),
            final(self).messages().len() == old(self).messages().len() + 1,
            final(self).messages().last() matches ChatMessage::User { content: c, images: i, ephemeral: e }
                && c@ == content@ && i == images && !e,
            final(self).same_but_messages(old(self)),
    {
        self.chat_messages.push(ChatMessage::user_with_images(content, images));
    }

    pub fn push_assistant_tool_call(&mut self, tool_call_id: &str, tool_name: &str, arguments_json: &str)
        ensures
            final(self).messages().drop_last() == old(self).messages(),
            final(self).messages().len() == old(self).messages().len() + 1,
            final(self).messages().last() matches ChatMessage::Assistant {
                content: None,
                reasoning_content: None,
                tool_calls: Some(tc),
                thinking_signature: None,
            } && tc@.len() == 1 && tc@[0].id@ == tool_call_id@ && tc@[0].name@ == tool_name@
                && tc@[0].arguments@ == arguments_json@,
            final(self).same_but_messages(old(self)),
    {
        self.chat_messages.push(ChatMessage::assistant_tool_call(tool_call_id, tool_name, arguments_json));
    }

    pub fn push_tool_result(&mut self, tool_call_id: &str, content: &str)
        ensures
            final(self).messages().drop_last() == old(self).messages(),
            final(self).messages().len() == old(self).messages().len() + 1,
            is_tool_result(final(self).messages().last(), tool_call_id@, content@),
            final(self).same_but_messages(old(self)),
    {
        self.chat_messages.push(ChatMessage::tool(tool_call_id, content));
    }

    /// Push an assistant message carrying a batch of tool calls. Arguments
    /// that do not parse as JSON (for instance cut off by a token limit) are
    /// replaced by an error object, so that the provider does not reject the
    /// whole request.
    pub fn push_assistant_tool_calls(
        &mut self,
        tool_calls: &[(String, String, String)],
        reasoning: Option<String>,
        content: Option<String>,
    )
        ensures
            final(self).messages().drop_last() == old(self).messages(),
            final(self).messages().len() == old(self).messages().len() + 1,
            final(self).messages().last() matches ChatMessage::Assistant {
                content: c,
                reasoning_content: r,
                tool_calls: Some(tc),
                thinking_signature: None,
            } && c == content && r == reasoning && calls_match(tc@, tool_calls@),
            final(self).same_but_messages(old(self)),
    {
        let mut calls: Vec<ToolCallMessage> = Vec::new();
        let mut i: usize = 0;
        while i < tool_calls.len()
            invariant
                i <= tool_calls@.len(),
                calls@.len() == i,
                forall|j: int| 0 <= j < i ==> {
                    &&& #[trigger] calls@[j].id@ == tool_calls@[j].0@
                    &&& calls@[j].name@ == tool_calls@[j].1@
                    &&& calls@[j].arguments@ == sanitized_args(tool_calls@[j].2@)
                    &&& !(json_top_of(calls@[j].arguments@) is Invalid)
                },
            decreases tool_calls@.len() - i,
        {
            let (id, name, args) = &tool_calls[i];
            calls.push(
                ToolCallMessage { id: id.clone(), name: name.clone(), arguments: sanitize_tool_args(args) },
            );
            i = i + 1;
        }
        self.chat_messages.push(
            ChatMessage::Assistant {
                content,
                reasoning_content: reasoning,
                tool_calls: Some(calls),
                thinking_signature: None,
            },
        );
    }

    /// A copy of the run-level state.
    pub fn run_state_copy(&self) -> (r: RunState)
        ensures
            r == self.run(),
    {
        self.run_state
    }

    /// Start the counters of a new turn: no nudges and no tool calls yet.
    pub fn begin_turn_counters(&mut self)
        ensures
            final(self).run().nudge_count == 0,
            final(self).run().turn_tool_calls == 0,
            final(self).run().run_has_tool_calls == old(self).run().run_has_tool_calls,
            final(self).run().reasoning_only_strikes == old(self).run().reasoning_only_strikes,
            final(self).run().empty_response_strikes == old(self).run().empty_response_strikes,
            final(self).messages() == old(self).messages(),
            final(self).identity() == old(self).identity(),
            final(self).allowed() == old(self).allowed(),
            final(self).total_calls() == old(self).total_calls(),
    {
        self.run_state.nudge_count = 0;
        self.run_state.turn_tool_calls = 0;
    }

    /// Start the run-level state afresh, for a new run.
    pub fn reset_run_state(&mut self)
        ensures
            final(self).run() == RunState::zero(),
            final(self).messages() == old(self).messages(),
            final(self).identity() == old(self).identity(),
            final(self).allowed() == old(self).allowed(),
            final(self).total_calls() == old(self).total_calls(),
    {
        self.run_state.reset_for_new_run();
    }

    /// Record the nudge count that the middlewares left.
    pub fn set_nudge_count(&mut self, n: usize)
        ensures
            final(self).run().nudge_count == n,
            final(self).run().turn_tool_calls == old(self).run().turn_tool_calls,
            final(self).run().run_has_tool_calls == old(self).run().run_has_tool_calls,
            final(self).run().reasoning_only_strikes == old(self).run().reasoning_only_strikes,
            final(self).run().empty_response_strikes == old(self).run().empty_response_strikes,
            final(self).messages() == old(self).messages(),
            final(self).identity() == old(self).identity(),
            final(self).allowed() == old(self).allowed(),
            final(self).total_calls() == old(self).total_calls(),
    {
        self.run_state.nudge_count = n;
    }

    /// Record a reasoning-only response (see [`RunState::record_reasoning_only`]).
    pub fn note_reasoning_only(&mut self) -> (strikes: usize)
        requires
            old(self).run().reasoning_only_strikes < usize::MAX,
        ensures
            strikes == old(self).run().reasoning_only_strikes + 1,
            final(self).run().reasoning_only_strikes == strikes,
            final(self).run().empty_response_strikes == 0,
            final(self).run().turn_tool_calls == old(self).run().turn_tool_calls,
            final(self).run().run_has_tool_calls == old(self).run().run_has_tool_calls,
            final(self).run().nudge_count == old(self).run().nudge_count,
            final(self).messages() == old(self).messages(),
            final(self).identity() == old(self).identity(),
            final(self).allowed() == old(self).allowed(),
            final(self).total_calls() == old(self).total_calls(),
    {
        self.run_state.record_reasoning_only()
    }

    /// Record an empty response (see [`RunState::record_empty_response`]).
    pub fn note_empty_response(&mut self) -> (strikes: usize)
        requires
            old(self).run().empty_response_strikes < usize::MAX,
        ensures
            strikes == old(self).run().empty_response_strikes + 1,
            final(self).run().empty_response_strikes == strikes,
            final(self).run().reasoning_only_strikes == 0,
            final(self).run().turn_tool_calls == old(self).run().turn_tool_calls,
            final(self).run().run_has_tool_calls == old(self).run().run_has_tool_calls,
            final(self).run().nudge_count == old(self).run().nudge_count,
            final(self).messages() == old(self).messages(),
            final(self).identity() == old(self).identity(),
            final(self).allowed() == old(self).allowed(),
            final(self).total_calls() == old(self).total_calls(),
    {
        self.run_state.record_empty_response()
    }

    /// Record `n` executed tool calls, in the session total and in the turn.
    pub fn note_tool_calls(&mut self, n: usize)
        requires
            old(self).total_calls() + n <= usize::MAX,
            old(self).run().turn_tool_calls + n <= usize::MAX,
        ensures
            final(self).total_calls() == old(self).total_calls() + n,
            final(self).run().turn_tool_calls == old(self).run().turn_tool_calls + n,
            final(self).run().run_has_tool_calls,
            final(self).run().reasoning_only_strikes == 0,
            final(self).run().empty_response_strikes == 0,
            final(self).run().nudge_count == old(self).run().nudge_count,
            final(self).messages() == old(self).messages(),
            final(self).identity() == old(self).identity(),
            final(self).allowed() == old(self).allowed(),
    {
        self.total_tool_calls = self.total_tool_calls + n;
        self.run_state.record_tool_calls(n);
    }

    /// The text of the last message when it is a user message, else empty.
    pub fn last_user_input(&self) -> (r: String)
        ensures
            r@ == last_user_text(self.messages()),
    {
        let n = self.chat_messages.len();
        if n == 0 {
            return String::new();
        }
        match &self.chat_messages[n - 1] {
            ChatMessage::User { content, .. } => content.clone(),
            _ => String::new(),
        }
    }

    /// The texts of the user messages, oldest first.
    pub fn user_inputs(&self) -> (r: Vec<String>)
        ensures
            string_views(r@) == user_texts(self.messages()),
    {
        let ghost s = self.chat_messages@;
        let mut r: Vec<String> = Vec::new();
        let mut i: usize = 0;
        while i < self.chat_messages.len()
            invariant
                s == self.chat_messages@,
                i <= s.len(),
                string_views(r@) == user_texts(s.take(i as int)),
            decreases s.len() - i,
        {
            proof {
                assert(s.take(i as int + 1).drop_last() =~= s.take(i as int));
            }
            match &self.chat_messages[i] {
                ChatMessage::User { content, .. } => {
                    r.push(content.clone());
                    proof {
                        assert(string_views(r@) =~= string_views(r@.drop_last()).push(content@));
                    }
                },
                _ => {},
            }
            i = i + 1;
        }
        assert(s.take(s.len() as int) =~= s);
        r
    }

    /// The action keys allowed for good, for persistence.
    pub fn allowed_actions(&self) -> (r: &[String])
        ensures
            forall|k: Seq<char>| self.allowed().contains(k) <==> views(r@).contains(k),
    {
        proof {
            assert forall|k: Seq<char>| self.allowed().contains(k) <==> views(self.always_allowed_actions@).contains(k) by {
                if self.allowed().contains(k) {
                    let i = choose|i: int| 0 <= i < self.always_allowed_actions@.len() && #[trigger] self.always_allowed_actions@[i]@ == k;
                    assert(views(self.always_allowed_actions@)[i] == k);
                }
                if views(self.always_allowed_actions@).contains(k) {
                    let i = choose|i: int| 0 <= i < views(self.always_allowed_actions@).len() && views(self.always_allowed_actions@)[i] == k;
                    assert(self.always_allowed_actions@[i]@ == k);
                }
            }
        }
        self.always_allowed_actions.as_slice()
    }

    /// Remove all ephemeral messages.
    pub fn remove_ephemeral_messages(&mut self)
        ensures
            final(self).messages() == without_ephemeral(old(self).messages()),
            final(self).same_but_messages(old(self)),
    {
        let ghost s = self.chat_messages@;
        let mut rest = self.chat_messages.split_off(0);
        assert(rest@ =~= s.skip(0));
        assert(s.take(0) =~= Seq::<ChatMessage>::empty());
        let ghost mut i: int = 0;
        while rest.len() > 0
            invariant
                0 <= i <= s.len(),
                rest@ == s.skip(i),
                self.chat_messages@ == without_ephemeral(s.take(i)),
                self.same_but_messages(old(self)),
            decreases rest@.len(),
        {
            let m = rest.remove(0);
            proof {
                lemma_take_succ(s, i);
                assert(m == s[i]);
                assert(rest@ =~= s.skip(i + 1));
            }
            if !m.is_ephemeral() {
                self.chat_messages.push(m);
            }
            proof { i = i + 1; }
        }
        assert(s.take(i) =~= s);
    }

    /// Count the number of conversation turns (user messages).
    pub fn turn_count(&self) -> (n: usize)
        ensures
            n == user_count(self.messages()),
    {
        let ghost s = self.chat_messages@;
        let mut n: usize = 0;
        let mut i: usize = 0;
        while i < self.chat_messages.len()
            invariant
                s == self.chat_messages@,
                i <= s.len(),
                n == user_count(s.take(i as int)),
                n <= i,
            decreases s.len() - i,
        {
            proof { lemma_take_succ(s, i as int); }
            if self.chat_messages[i].is_user() {
                n = n + 1;
            }
            i = i + 1;
        }
        assert(s.take(i as int) =~= s);
        n
    }

    /// Remove the oldest turns until at most `max_turns` remain; the leading
    /// system messages are kept.
    #[verifier::rlimit(40)]
    pub fn trim_oldest_turns(&mut self, max_turns: usize)
        ensures
            final(self).messages() == trimmed(old(self).messages(), max_turns as nat),
            max_turns > 0 ==> user_count(final(self).messages()) <= max_turns,
            0 < max_turns < user_count(old(self).messages()) ==> user_count(final(self).messages()) == max_turns,
            user_count(old(self).messages()) <= max_turns || max_turns == 0 ==> final(self).messages() == old(self).messages(),
            leading_systems(old(self).messages()) <= final(self).messages().len(),
            final(self).messages().take(leading_systems(old(self).messages()) as int)
                == old(self).messages().take(leading_systems(old(self).messages()) as int),
            final(self).same_but_messages(old(self)),
    {
        let ghost s = self.chat_messages@;
        proof {
            lemma_leading_systems_bound(s);
            if 0 < max_turns < user_count(s) {
                law_trim_keeps_exactly_max_turns(s, max_turns as nat);
            }
        }
        let current_turns = self.turn_count();
        if current_turns <= max_turns || max_turns == 0 {
            return;
        }
        let turns_to_remove = current_turns - max_turns;

        // Position of the user message that opens turn `turns_to_remove`.
        let mut seen: usize = 0;
        let mut j: usize = 0;
        let mut found = false;
        while j < self.chat_messages.len()
            invariant
                s == self.chat_messages@,
                j <= s.len(),
                seen == user_count(s.take(j as int)),
                seen <= turns_to_remove,
                turns_to_remove < user_count(s),
                found ==> j < s.len() && opens_turn(s, j as int, turns_to_remove as nat),
            ensures
                found || j == s.len(),
                seen == user_count(s.take(j as int)),
                seen <= turns_to_remove,
                found ==> j < s.len() && opens_turn(s, j as int, turns_to_remove as nat),
            decreases s.len() - j,
        {
            proof { lemma_take_succ(s, j as int); }
            if self.chat_messages[j].is_user() {
                if seen == turns_to_remove {
                    found = true;
                    break;
                }
                seen = seen + 1;
            }
            j = j + 1;
        }
        if !found {
            assert(s.take(j as int) =~= s);
            assert(false);
            return;
        }
        let drain_end = j;
        proof {
            assert forall|d: int| opens_turn(s, d, turns_to_remove as nat) implies d == drain_end by {
                lemma_opens_turn_unique(s, d, drain_end as int, turns_to_remove as nat);
            }
        }

        // Number of leading system messages.
        let mut sp: usize = 0;
        while sp < self.chat_messages.len() && self.chat_messages[sp].is_system()
            invariant
                s == self.chat_messages@,
                sp <= s.len(),
                forall|i: int| 0 <= i < sp ==> #[trigger] s[i] is System,
            decreases s.len() - sp,
        {
            sp = sp + 1;
        }
        proof {
            lemma_leading_systems_exact(s, sp as int);
            if sp >= drain_end {
                assert forall|i: int| 0 <= i < s.take(drain_end as int).len() implies #[trigger] s.take(drain_end as int)[i] is System by {
                    assert(s.take(drain_end as int)[i] == s[i]);
                }
                lemma_user_count_all_systems(s.take(drain_end as int));
            }
        }
        if sp >= drain_end {
            return;
        }
        let mut tail = self.chat_messages.split_off(drain_end);
        self.chat_messages.truncate(sp);
        self.chat_messages.append(&mut tail);
        proof {
            let r = self.chat_messages@;
            assert(r =~= s.subrange(0, sp as int) + s.subrange(drain_end as int, s.len() as int));
            assert(s.take(drain_end as int) =~= s.subrange(0, sp as int) + s.subrange(sp as int, drain_end as int));
            lemma_user_count_append(s.subrange(0, sp as int), s.subrange(sp as int, drain_end as int));
            lemma_user_count_all_systems(s.subrange(0, sp as int));
            assert(s =~= s.take(drain_end as int) + s.subrange(drain_end as int, s.len() as int));
            lemma_user_count_append(s.take(drain_end as int), s.subrange(drain_end as int, s.len() as int));
            lemma_user_count_append(s.subrange(0, sp as int), s.subrange(drain_end as int, s.len() as int));
            assert(r.take(sp as int) =~= s.take(sp as int));
        }
    }

    /// Remove the last message (no-op on an empty conversation).
    pub fn pop_last_message(&mut self)
        ensures
            old(self).messages().len() > 0 ==> final(self).messages() == old(self).messages().drop_last(),
            old(self).messages().len() == 0 ==> final(self).messages() == old(self).messages(),
            final(self).same_but_messages(old(self)),
    {
        let _ = self.chat_messages.pop();
    }

    /// Answer every tool call of the last batch that has no tool result yet
    /// with `error_summary`.
    pub fn close_dangling_tool_calls(&mut self, error_summary: &str)
        ensures
            final(self).messages().len() == old(self).messages().len() + dangling_ids(old(self).messages()).len(),
            final(self).messages().take(old(self).messages().len() as int) == old(self).messages(),
            forall|j: int| 0 <= j < dangling_ids(old(self).messages()).len() ==> is_tool_result(
                #[trigger] final(self).messages()[old(self).messages().len() + j],
                dangling_ids(old(self).messages())[j],
                error_summary@,
            ),
            final(self).same_but_messages(old(self)),
    {
        let ghost s = self.chat_messages@;
        let n = self.chat_messages.len();
        let k = match last_batch_index(&self.chat_messages) {
            None => {
                assert(dangling_ids(s) =~= Seq::<Seq<char>>::empty());
                assert(self.chat_messages@.take(n as int) =~= s);
                return;
            },
            Some(k) => k,
        };
        let ids: Vec<String> = match &self.chat_messages[k] {
            ChatMessage::Assistant { tool_calls: Some(tc), .. } => call_id_list(tc),
            _ => {
                assert(false);
                Vec::new()
            },
        };
        let answered = answered_from(&self.chat_messages, k + 1);
        let ghost ans = answered_ids(s.subrange(k + 1, n as int));
        let ghost all_ids = views(ids@);
        let ghost base = n as int;
        let mut q: usize = 0;
        assert(all_ids.take(0) =~= Seq::<Seq<char>>::empty());
        while q < ids.len()
            invariant
                q <= ids@.len(),
                all_ids == views(ids@),
                base == s.len(),
                self.chat_messages@.len() == base + unanswered(all_ids.take(q as int), ans).len(),
                self.chat_messages@.take(base) == s,
                forall|t: int| 0 <= t < unanswered(all_ids.take(q as int), ans).len() ==> is_tool_result(
                    #[trigger] self.chat_messages@[base + t],
                    unanswered(all_ids.take(q as int), ans)[t],
                    error_summary@,
                ),
                forall|x: Seq<char>| #[trigger] views(answered@).contains(x) <==> ans.contains(x),
                self.same_but_messages(old(self)),
            decreases ids@.len() - q,
        {
            proof { lemma_take_succ(all_ids, q as int); }
            let hit = find_id(&answered, &ids[q]);
            if hit.is_none() {
                let ghost before = self.chat_messages@;
                self.push_tool_result(ids[q].as_str(), error_summary);
                proof {
                    assert(!ans.contains(all_ids[q as int]));
                    assert(self.chat_messages@.take(base) =~= before.take(base));
                    let u_old = unanswered(all_ids.take(q as int), ans);
                    let u_new = unanswered(all_ids.take(q as int + 1), ans);
                    assert(u_new == u_old.push(all_ids[q as int]));
                    assert forall|t: int| 0 <= t < u_new.len() implies is_tool_result(
                        #[trigger] self.chat_messages@[base + t],
                        u_new[t],
                        error_summary@,
                    ) by {
                        if t < u_old.len() {
                            assert(self.chat_messages@[base + t] == before[base + t]);
                        }
                    }
                }
            } else {
                proof {
                    let h = hit.unwrap();
                    assert(views(answered@)[h as int] == all_ids[q as int]);
                    assert(views(answered@).contains(all_ids[q as int]));
                    assert(ans.contains(all_ids[q as int]));
                }
            }
            q = q + 1;
        }
        assert(all_ids.take(q as int) =~= all_ids);
    }

    /// Replace the conversation (persistence restore); the sequence is
    /// validated first and the total tool-call count is recomputed from it.
    pub fn set_chat_messages(&mut self, messages: Vec<ChatMessage>) -> (r: Result<(), String>)
        requires
            total_calls_in(messages@) <= usize::MAX,
        ensures
            match sequence_fault(messages@) {
                None => r is Ok && final(self).messages() == messages@
                    && final(self).total_calls() == total_calls_in(messages@)
                    && final(self).identity() == old(self).identity()
                    && final(self).allowed() == old(self).allowed()
                    && final(self).run() == old(self).run(),
                Some(f) => r matches Err(e) && e@ == fault_text(f) && *final(self) == *old(self),
            },
    {
        let v = validate_message_sequence(messages.as_slice());
        if v.is_err() {
            return v;
        }
        let ghost s = messages@;
        let mut total: usize = 0;
        let mut i: usize = 0;
        while i < messages.len()
            invariant
                s == messages@,
                i <= s.len(),
                total == total_calls_in(s.take(i as int)),
                total_calls_in(s) <= usize::MAX,
            decreases s.len() - i,
        {
            proof {
                lemma_take_succ(s, i as int);
                lemma_total_calls_mono(s, i as int + 1);
            }
            match &messages[i] {
                ChatMessage::Assistant { tool_calls: Some(tc), .. } => {
                    total = total + tc.len();
                },
                _ => {},
            }
            i = i + 1;
        }
        assert(s.take(i as int) =~= s);
        self.total_tool_calls = total;
        self.chat_messages = messages;
        Ok(())
    }

    /// The simplified `(role, text)` view of the conversation; assistant
    /// messages that carry only tool calls are skipped.
    pub fn simple_messages(&self) -> (r: Vec<Message>)
        ensures
            r@ == simple_view(self.messages()),
    {
        let ghost s = self.chat_messages@;
        let mut out: Vec<Message> = Vec::new();
        let mut i: usize = 0;
        while i < self.chat_messages.len()
            invariant
                s == self.chat_messages@,
                i <= s.len(),
                out@ == simple_view(s.take(i as int)),
            decreases s.len() - i,
        {
            proof { lemma_take_succ(s, i as int); }
            match simple_message_of(&self.chat_messages[i]) {
                Some(m) => out.push(m),
                None => {},
            }
            i = i + 1;
        }
        assert(s.take(i as int) =~= s);
        out
    }
}

/// The ids of a batch of tool calls, in order.
fn call_id_list(tc: &Vec<ToolCallMessage>) -> (r: Vec<String>)
    ensures
        views(r@) == tc@.map_values(|t: ToolCallMessage| t.id@),
{
    let mut r: Vec<String> = Vec::new();
    let mut j: usize = 0;
    while j < tc.len()
        invariant
            j <= tc@.len(),
            r@.len() == j,
            forall|t: int| 0 <= t < j ==> #[trigger] r@[t]@ == tc@[t].id@,
        decreases tc@.len() - j,
    {
        r.push(tc[j].id.clone());
        j = j + 1;
    }
    assert(views(r@) =~= tc@.map_values(|t: ToolCallMessage| t.id@));
    r
}

/// Position of the last assistant message that carries tool calls.
fn last_batch_index(msgs: &Vec<ChatMessage>) -> (r: Option<usize>)
    ensures
        match r {
            Some(k) => last_batch(msgs@) == Some(k as int) && k < msgs@.len() && has_tool_calls(msgs@[k as int]),
            None => last_batch(msgs@) is None,
        },
{
    let ghost s = msgs@;
    let n = msgs.len();
    let mut found: Option<usize> = None;
    let mut i: usize = 0;
    while i < n
        invariant
            s == msgs@,
            n == s.len(),
            i <= n,
            match found {
                Some(k) => last_batch(s.take(i as int)) == Some(k as int),
                None => last_batch(s.take(i as int)) is None,
            },
        decreases n - i,
    {
        proof { lemma_take_succ(s, i as int); }
        let has = match &msgs[i] {
            ChatMessage::Assistant { tool_calls: Some(tc), .. } => tc.len() > 0,
            _ => false,
        };
        if has {
            found = Some(i);
        }
        i = i + 1;
    }
    assert(s.take(n as int) =~= s);
    proof { lemma_last_batch_bounds(s); }
    found
}

/// The ids answered by the tool messages of `msgs` from position `from` on.
fn answered_from(msgs: &Vec<ChatMessage>, from: usize) -> (r: Vec<String>)
    requires
        from <= msgs@.len(),
    ensures
        forall|x: Seq<char>| #[trigger] views(r@).contains(x)
            <==> answered_ids(msgs@.subrange(from as int, msgs@.len() as int)).contains(x),
{
    let ghost s = msgs@;
    let n = msgs.len();
    let mut answered: Vec<String> = Vec::new();
    let mut j: usize = from;
    assert(s.subrange(from as int, from as int) =~= Seq::<ChatMessage>::empty());
    while j < n
        invariant
            s == msgs@,
            n == s.len(),
            from <= j <= n,
            forall|x: Seq<char>| #[trigger] views(answered@).contains(x)
                <==> answered_ids(s.subrange(from as int, j as int)).contains(x),
        decreases n - j,
    {
        assert(s.subrange(from as int, j + 1).drop_last() =~= s.subrange(from as int, j as int));
        assert(s.subrange(from as int, j + 1).last() == s[j as int]);
        let ghost before = answered@;
        match &msgs[j] {
            ChatMessage::Tool { tool_call_id, .. } => {
                answered.push(tool_call_id.clone());
                proof {
                    assert forall|x: Seq<char>| #[trigger] views(answered@).contains(x)
                        <==> (views(before).contains(x) || x == tool_call_id@) by {
                        if views(before).contains(x) {
                            let q = choose|q: int| 0 <= q < views(before).len() && views(before)[q] == x;
                            assert(views(answered@)[q] == x);
                        }
                        if x == tool_call_id@ {
                            assert(views(answered@)[before.len() as int] == x);
                        }
                        if views(answered@).contains(x) && x != tool_call_id@ {
                            let q = choose|q: int| 0 <= q < views(answered@).len() && views(answered@)[q] == x;
                            assert(views(before)[q] == x);
                        }
                    }
                }
            },
            _ => {},
        }
        j = j + 1;
    }
    answered
}

pub proof fn lemma_last_batch_bounds(s: Seq<ChatMessage>)
    ensures
        match last_batch(s) {
            Some(k) => 0 <= k < s.len() && has_tool_calls(s[k]),
            None => true,
        },
    decreases s.len(),
{
    if s.len() > 0 && !has_tool_calls(s.last()) {
        lemma_last_batch_bounds(s.drop_last());
    }
}

pub proof fn lemma_total_calls_mono(s: Seq<ChatMessage>, i: int)
    requires
        0 <= i <= s.len(),
    ensures
        total_calls_in(s.take(i)) <= total_calls_in(s),
    decreases s.len() - i,
{
    if i < s.len() {
        lemma_total_calls_mono(s, i + 1);
        lemma_take_succ(s, i);
    } else {
        assert(s.take(i) =~= s);
    }
}

/// The simplified form of one message.
pub fn simple_message_of(cm: &ChatMessage) -> (r: Option<Message>)
    ensures
        r == simple_of(*cm),
{
    match cm {
        ChatMessage::System { content, .. } => Some(Message { role: MessageRole::System, content: content.clone() }),
        ChatMessage::User { content, .. } => Some(Message { role: MessageRole::User, content: content.clone() }),
        ChatMessage::Tool { content, .. } => Some(Message { role: MessageRole::Tool, content: content.clone() }),
        ChatMessage::Assistant { content: None, .. } => None,
        ChatMessage::Assistant { content: Some(c), tool_calls: Some(tc), .. } => {
            if c.as_str().is_empty() && tc.len() > 0 {
                None
            } else {
                Some(Message { role: MessageRole::Assistant, content: c.clone() })
            }
        },
        ChatMessage::Assistant { content: Some(c), .. } => Some(Message { role: MessageRole::Assistant, content: c.clone() }),
    }
}

} // verus!
