//! The truncation guard: tool calls whose arguments are cut off, echo a
//! truncation error object, or are an empty object for a tool with required
//! parameters are not executed but re-issued; repeated failures of a whole
//! batch trip a circuit breaker.
use vstd::prelude::*;
use vstd::string::*;

use crate::json::{json_top_of, parse_json_top, JsonTop, JsonTopView};
use crate::session::{calls_match, dedup, is_tool_result, views, AgentSession};
use crate::text::{concat3, decimal, decimal_string, join_strings, joined, string_views};
use crate::turn::same_run;
use crate::types::{string_of, ChatMessage};

verus! {

broadcast use vstd::seq_lib::group_seq_properties;

/// Consecutive all-invalid batches at which the run stops: the batches
/// before it are re-issued, each counting a strike.
pub const TRUNCATION_STRIKE_LIMIT: usize = 5;

/// The characters with the Unicode `White_Space` property, which
/// `str::trim` removes.
pub open spec fn is_white_space(c: char) -> bool {
    let v = c as u32;
    (0x9 <= v <= 0xD) || v == 0x20 || v == 0x85 || v == 0xA0 || v == 0x1680 || (0x2000 <= v <= 0x200A)
        || v == 0x2028 || v == 0x2029 || v == 0x202F || v == 0x205F || v == 0x3000
}

/// `s` has no character but white space.
pub open spec fn blank(s: Seq<char>) -> bool {
    forall|i: int| 0 <= i < s.len() ==> is_white_space(#[trigger] s[i])
}

fn char_is_white_space(c: char) -> (b: bool)
    ensures
        b == is_white_space(c),
{
    let v = c as u32;
    (0x9 <= v && v <= 0xD) || v == 0x20 || v == 0x85 || v == 0xA0 || v == 0x1680 || (0x2000 <= v && v <= 0x200A)
        || v == 0x2028 || v == 0x2029 || v == 0x202F || v == 0x205F || v == 0x3000
}

/// Whether `s` is empty after trimming white space.
pub fn is_blank(s: &str) -> (b: bool)
    ensures
        b == blank(s@),
{
    let n = s.unicode_len();
    let mut i: usize = 0;
    while i < n
        invariant
            n == s@.len(),
            i <= n,
            forall|j: int| 0 <= j < i ==> is_white_space(#[trigger] s@[j]),
        decreases n - i,
    {
        if !char_is_white_space(s.get_char(i)) {
            return false;
        }
        i = i + 1;
    }
    true
}

/// The object is the error object that replaces truncated arguments (see
/// `sanitized_args`), echoed back by the model: it carries the marker value,
/// or both the preview and the message keys.
pub open spec fn is_truncation_wrapper(top: JsonTopView) -> bool {
    match top {
        JsonTopView::Object(m) => {
            ||| m.contains(("error"@, Some("tool_call_arguments_truncated"@)))
            ||| (exists|i: int| 0 <= i < m.len() && #[trigger] m[i].0 == "original_args_preview"@)
                && (exists|i: int| 0 <= i < m.len() && #[trigger] m[i].0 == "message"@)
        },
        _ => false,
    }
}

/// The arguments cannot be trusted: they do not parse, or they are a
/// truncation error object.
pub open spec fn args_truncated(args: Seq<char>) -> bool {
    json_top_of(args) is Invalid || is_truncation_wrapper(json_top_of(args))
}

/// The arguments are the empty object `{}`.
pub open spec fn args_empty_object(args: Seq<char>) -> bool {
    json_top_of(args) matches JsonTopView::Object(m) && m.len() == 0
}

/// A call must not be executed: its arguments are blank (handled like
/// truncated ones), or it has a name and its arguments are truncated, or an
/// empty object for a tool that requires parameters.
pub open spec fn call_invalid(call: (String, String, String), requires_params: bool) -> bool {
    ||| blank(call.2@)
    ||| {
        &&& call.1@.len() > 0
        &&& (args_truncated(call.2@) || (args_empty_object(call.2@) && requires_params))
    }
}

/// Positions of the calls that are not executed: all of them when the
/// response hit the token limit, else the invalid ones.
pub open spec fn invalid_positions(
    calls: Seq<(String, String, String)>,
    requires_params: Seq<bool>,
    truncated_by_limit: bool,
    k: int,
) -> Seq<usize>
    decreases k,
{
    if k <= 0 {
        Seq::empty()
    } else if truncated_by_limit || call_invalid(calls[k - 1], requires_params[k - 1]) {
        invalid_positions(calls, requires_params, truncated_by_limit, k - 1).push((k - 1) as usize)
    } else {
        invalid_positions(calls, requires_params, truncated_by_limit, k - 1)
    }
}

/// When the response hit the token limit, every call of the batch is held
/// back, in order, whatever its arguments.
pub proof fn law_limit_holds_back_every_call(
    calls: Seq<(String, String, String)>,
    requires_params: Seq<bool>,
    n: int,
)
    requires
        0 <= n,
    ensures
        invalid_positions(calls, requires_params, true, n) == Seq::new(n as nat, |i: int| i as usize),
    decreases n,
{
    if n > 0 {
        law_limit_holds_back_every_call(calls, requires_params, n - 1);
        assert(Seq::new((n - 1) as nat, |i: int| i as usize).push((n - 1) as usize) =~= Seq::new(n as nat, |i: int| i as usize));
    }
}

/// No call is left to run when every position is held back.
proof fn lemma_none_left(calls: Seq<(String, String, String)>, n: int, k: int)
    requires
        0 <= k <= n,
    ensures
        calls_not_at(calls, Seq::new(n as nat, |i: int| i as usize), k).len() == 0,
    decreases k,
{
    if k > 0 {
        let all = Seq::new(n as nat, |i: int| i as usize);
        assert(all[k - 1] == (k - 1) as usize);
        assert(all.contains((k - 1) as usize));
        lemma_none_left(calls, n, k - 1);
    }
}

proof fn lemma_key_seen_step(m: Seq<(Seq<char>, Option<Seq<char>>)>, key: Seq<char>, i: int)
    requires
        0 <= i < m.len(),
    ensures
        (exists|j: int| 0 <= j < i + 1 && #[trigger] m[j].0 == key) == ((exists|j: int|
            0 <= j < i && #[trigger] m[j].0 == key) || m[i].0 == key),
{
    if m[i].0 == key {
        assert(0 <= i < i + 1 && m[i].0 == key);
    }
    if exists|j: int| 0 <= j < i && #[trigger] m[j].0 == key {
        let j = choose|j: int| 0 <= j < i && #[trigger] m[j].0 == key;
        assert(0 <= j < i + 1 && m[j].0 == key);
    }
    if exists|j: int| 0 <= j < i + 1 && #[trigger] m[j].0 == key {
        let j = choose|j: int| 0 <= j < i + 1 && #[trigger] m[j].0 == key;
        if j < i {
            assert(0 <= j < i && m[j].0 == key);
        }
    }
}

fn members_have(members: &Vec<(String, Option<String>)>) -> (r: (bool, bool, bool))
    ensures
        ({
            let m = members@.map_values(|e: (String, Option<String>)| crate::json::member_view(e));
            &&& r.0 == m.contains(("error"@, Some("tool_call_arguments_truncated"@)))
            &&& r.1 == exists|i: int| 0 <= i < m.len() && #[trigger] m[i].0 == "original_args_preview"@
            &&& r.2 == exists|i: int| 0 <= i < m.len() && #[trigger] m[i].0 == "message"@
        }),
{
    let ghost m = members@.map_values(|e: (String, Option<String>)| crate::json::member_view(e));
    let error_key = string_of("error");
    let marker = string_of("tool_call_arguments_truncated");
    let preview_key = string_of("original_args_preview");
    let message_key = string_of("message");
    let mut has_marker = false;
    let mut has_preview = false;
    let mut has_message = false;
    let mut i: usize = 0;
    while i < members.len()
        invariant
            i <= members@.len(),
            m == members@.map_values(|e: (String, Option<String>)| crate::json::member_view(e)),
            error_key@ == "error"@,
            marker@ == "tool_call_arguments_truncated"@,
            preview_key@ == "original_args_preview"@,
            message_key@ == "message"@,
            has_marker == exists|j: int| 0 <= j < i && m[j] == ("error"@, Some("tool_call_arguments_truncated"@)),
            has_preview == exists|j: int| 0 <= j < i && #[trigger] m[j].0 == "original_args_preview"@,
            has_message == exists|j: int| 0 <= j < i && #[trigger] m[j].0 == "message"@,
        decreases members@.len() - i,
    {
        let (k, v) = &members[i];
        let ghost mi = m[i as int];
        assert(mi == crate::json::member_view(members@[i as int]));
        proof {
            lemma_key_seen_step(m, "original_args_preview"@, i as int);
            lemma_key_seen_step(m, "message"@, i as int);
        }
        if *k == error_key {
            match v {
                Some(val) => {
                    if *val == marker {
                        has_marker = true;
                    }
                },
                None => {},
            }
        }
        if *k == preview_key {
            has_preview = true;
        }
        if *k == message_key {
            has_message = true;
        }
        i = i + 1;
    }
    proof {
        if m.contains(("error"@, Some("tool_call_arguments_truncated"@))) {
            let j = choose|j: int| 0 <= j < m.len() && m[j] == ("error"@, Some("tool_call_arguments_truncated"@));
            assert(0 <= j < i);
        }
        if has_marker {
            let j = choose|j: int| 0 <= j < i && m[j] == ("error"@, Some("tool_call_arguments_truncated"@));
            assert(m.contains(("error"@, Some("tool_call_arguments_truncated"@))));
        }
    }
    (has_marker, has_preview, has_message)
}

/// What the guard sees in a call's arguments: (truncated, empty object).
fn args_shape(args: &String) -> (r: (bool, bool))
    ensures
        r.0 == args_truncated(args@),
        r.1 == args_empty_object(args@),
{
    match parse_json_top(args.as_str()) {
        JsonTop::Invalid => (true, false),
        JsonTop::NotObject => (false, false),
        JsonTop::Object(members) => {
            let (marker, preview, message) = members_have(&members);
            (marker || (preview && message), members.len() == 0)
        },
    }
}

/// Positions of the calls not to execute.
pub fn find_invalid_calls(
    calls: &Vec<(String, String, String)>,
    requires_params: &Vec<bool>,
    truncated_by_limit: bool,
) -> (r: (Vec<usize>, bool))
    requires
        requires_params@.len() == calls@.len(),
    ensures
        r.0@ == invalid_positions(calls@, requires_params@, truncated_by_limit, calls@.len() as int),
        r.1 == exists|j: int| 0 <= j < r.0@.len() && args_truncated(#[trigger] calls@[r.0@[j] as int].2@),
        forall|j: int| 0 <= j < r.0@.len() ==> #[trigger] r.0@[j] < calls@.len(),
{
    let mut invalid: Vec<usize> = Vec::new();
    let mut any_truncated = false;
    let mut i: usize = 0;
    while i < calls.len()
        invariant
            i <= calls@.len(),
            requires_params@.len() == calls@.len(),
            invalid@ == invalid_positions(calls@, requires_params@, truncated_by_limit, i as int),
            forall|j: int| 0 <= j < invalid@.len() ==> #[trigger] invalid@[j] < i,
            any_truncated == exists|j: int| 0 <= j < invalid@.len() && args_truncated(#[trigger] calls@[invalid@[j] as int].2@),
        decreases calls@.len() - i,
    {
        let (_id, name, args) = &calls[i];
        let (truncated, empty) = args_shape(args);
        let invalid_call = is_blank(args.as_str()) || (!name.as_str().is_empty() && (truncated || (empty
            && requires_params[i])));
        let ghost before = invalid@;
        let ghost any_before = any_truncated;
        if truncated_by_limit || invalid_call {
            invalid.push(i);
            if truncated {
                any_truncated = true;
            }
            proof {
                let inv = invalid@;
                assert(inv[before.len() as int] == i);
                if truncated {
                    assert(args_truncated(calls@[inv[before.len() as int] as int].2@));
                }
                if any_before {
                    let j = choose|j: int| 0 <= j < before.len() && args_truncated(#[trigger] calls@[before[j] as int].2@);
                    assert(inv[j] == before[j]);
                    assert(args_truncated(calls@[inv[j] as int].2@));
                }
                if exists|j: int| 0 <= j < inv.len() && args_truncated(#[trigger] calls@[inv[j] as int].2@) {
                    let j = choose|j: int| 0 <= j < inv.len() && args_truncated(#[trigger] calls@[inv[j] as int].2@);
                    if j < before.len() {
                        assert(inv[j] == before[j]);
                        assert(args_truncated(calls@[before[j] as int].2@));
                    }
                }
            }
        }
        i = i + 1;
    }
    (invalid, any_truncated)
}

/// What the guard decides for a batch of tool calls.
#[derive(Debug)]
pub enum TruncationVerdict {
    /// Every call is fine: execute the batch.
    Proceed,
    /// The whole batch was invalid too many times in a row: the run fails
    /// with `error`; `strikes` is the count that reached the limit.
    Trip { error: String, strikes: usize },
    /// The invalid calls were answered with guidance; execute `valid_calls`
    /// (possibly none). `strikes` is the new count of consecutive all-invalid
    /// batches.
    Reissue { valid_calls: Vec<(String, String, String)>, strikes: usize },
}

pub open spec fn trip_text(names: Seq<Seq<char>>, strikes: nat) -> Seq<char> {
    "The provider repeatedly truncated tool call arguments for ["@ + joined(names, ", "@) + "] ("@
        + decimal(strikes)
        + " consecutive failures). This typically means the tool's parameter schema is too complex for this model to generate in a single response. Try using a different tool or approach."@
}

pub open spec fn guidance_text(strikes: nat, has_truncated: bool, truncated_by_limit: bool) -> Seq<char> {
    if strikes >= 2 {
        if has_truncated || truncated_by_limit {
            "Tool call was not executed (attempt "@ + decimal(strikes)
                + "): arguments are still truncated. STOP trying this tool — its argument schema is too complex for your output budget. Use a simpler alternative tool or explain to the user what you were trying to do."@
        } else {
            "Tool call was not executed (attempt "@ + decimal(strikes)
                + "): empty {} arguments. STOP trying this tool. Use a simpler alternative or explain the failure to the user."@
        }
    } else if truncated_by_limit {
        "Tool call was not executed: the response hit the output token limit, so its arguments may be truncated. Re-issue the tool call with complete arguments."@
    } else if has_truncated {
        "Tool call was not executed: the provider truncated the argument stream mid-generation, so its arguments are incomplete. Re-issue the tool call — emit ONE tool call per turn, or shorten long string fields (e.g. message, system_prompt) so the full arguments fit in a single response."@
    } else {
        "Tool call was not executed: it carried an empty argument object `{}`, but this tool requires fields. Re-issue it with every required field filled in — never send a bare `{}` placeholder. If you need several calls, emit each one with complete arguments."@
    }
}

fn guidance(strikes: usize, has_truncated: bool, truncated_by_limit: bool) -> (r: String)
    ensures
        r@ == guidance_text(strikes as nat, has_truncated, truncated_by_limit),
{
    if strikes >= 2 {
        let d = decimal_string(strikes as u64);
        if has_truncated || truncated_by_limit {
            concat3(
                "Tool call was not executed (attempt ",
                d.as_str(),
                "): arguments are still truncated. STOP trying this tool — its argument schema is too complex for your output budget. Use a simpler alternative tool or explain to the user what you were trying to do.",
            )
        } else {
            concat3(
                "Tool call was not executed (attempt ",
                d.as_str(),
                "): empty {} arguments. STOP trying this tool. Use a simpler alternative or explain the failure to the user.",
            )
        }
    } else if truncated_by_limit {
        string_of(
            "Tool call was not executed: the response hit the output token limit, so its arguments may be truncated. Re-issue the tool call with complete arguments.",
        )
    } else if has_truncated {
        string_of(
            "Tool call was not executed: the provider truncated the argument stream mid-generation, so its arguments are incomplete. Re-issue the tool call — emit ONE tool call per turn, or shorten long string fields (e.g. message, system_prompt) so the full arguments fit in a single response.",
        )
    } else {
        string_of(
            "Tool call was not executed: it carried an empty argument object `{}`, but this tool requires fields. Re-issue it with every required field filled in — never send a bare `{}` placeholder. If you need several calls, emit each one with complete arguments.",
        )
    }
}

/// The names of the calls, each once, in order of first appearance.
fn distinct_names(calls: &Vec<(String, String, String)>) -> (r: Vec<String>)
    ensures
        string_views(r@) == dedup(calls@.map_values(|c: (String, String, String)| c.1@)),
{
    let ghost ns = calls@.map_values(|c: (String, String, String)| c.1@);
    let mut r: Vec<String> = Vec::new();
    let mut j: usize = 0;
    while j < calls.len()
        invariant
            j <= calls@.len(),
            ns == calls@.map_values(|c: (String, String, String)| c.1@),
            string_views(r@) == dedup(ns.take(j as int)),
        decreases calls@.len() - j,
    {
        assert(ns.take(j + 1).drop_last() =~= ns.take(j as int));
        let name = calls[j].1.clone();
        let mut k: usize = 0;
        let mut seen = false;
        while k < r.len()
            invariant
                k <= r@.len(),
                seen == exists|q: int| 0 <= q < k && r@[q]@ == name@,
            decreases r@.len() - k,
        {
            if r[k] == name {
                seen = true;
            }
            k = k + 1;
        }
        proof {
            if seen {
                let q = choose|q: int| 0 <= q < k && r@[q]@ == name@;
                assert(string_views(r@)[q] == name@);
            }
            if string_views(r@).contains(name@) {
                let q = choose|q: int| 0 <= q < string_views(r@).len() && string_views(r@)[q] == name@;
                assert(r@[q]@ == name@);
            }
        }
        if !seen {
            r.push(name);
            assert(string_views(r@) =~= dedup(ns.take(j as int)).push(ns[j as int]));
        }
        j = j + 1;
    }
    assert(ns.take(j as int) =~= ns);
    r
}

/// `after` is `before`, then the batch as an assistant message, then a
/// tool result with `text` for each call at the given positions.
pub open spec fn reissued(
    before: Seq<ChatMessage>,
    after: Seq<ChatMessage>,
    calls: Seq<(String, String, String)>,
    positions: Seq<usize>,
    reasoning: String,
    full_text: String,
    text: Seq<char>,
) -> bool {
    &&& after.len() == before.len() + 1 + positions.len()
    &&& after.take(before.len() as int) == before
    &&& after[before.len() as int] matches ChatMessage::Assistant {
        content: Some(c),
        reasoning_content: Some(r),
        tool_calls: Some(tc),
        thinking_signature: None,
    } && c == full_text && r == reasoning && calls_match(tc@, calls)
    &&& forall|j: int| 0 <= j < positions.len() ==> is_tool_result(
        #[trigger] after[before.len() + 1 + j],
        calls[positions[j] as int].0@,
        text,
    )
}

/// The calls at positions not listed in `positions`, in order.
pub open spec fn calls_not_at(calls: Seq<(String, String, String)>, positions: Seq<usize>, k: int) -> Seq<(String, String, String)>
    decreases k,
{
    if k <= 0 {
        Seq::empty()
    } else if positions.contains((k - 1) as usize) {
        calls_not_at(calls, positions, k - 1)
    } else {
        calls_not_at(calls, positions, k - 1).push(calls[k - 1])
    }
}

/// The truncation guard for a batch of tool calls. `requires_params[i]` says
/// whether the tool of call `i` declares required parameters, and `strikes`
/// counts the preceding consecutive all-invalid batches.
pub fn truncation_guard(
    session: &mut AgentSession,
    calls: &Vec<(String, String, String)>,
    requires_params: &Vec<bool>,
    truncated_by_limit: bool,
    strikes: usize,
    reasoning_text: String,
    full_text: String,
) -> (v: TruncationVerdict)
    requires
        requires_params@.len() == calls@.len(),
        strikes < usize::MAX,
    ensures
        same_run(final(session), old(session)),
        // A response cut by the token limit runs none of its calls: each is
        // answered with guidance, or the run stops.
        truncated_by_limit && calls@.len() > 0 ==> {
            &&& !(v is Proceed)
            &&& (v matches TruncationVerdict::Reissue { valid_calls, .. } ==> {
                &&& valid_calls@.len() == 0
                &&& final(session).messages().len() == old(session).messages().len() + 1 + calls@.len()
                &&& forall|i: int| 0 <= i < calls@.len() ==> is_tool_result(
                    #[trigger] final(session).messages()[old(session).messages().len() + 1 + i],
                    calls@[i].0@,
                    guidance_text((strikes + 1) as nat, false, true),
                )
            })
        },
        ({
            let invalid = invalid_positions(calls@, requires_params@, truncated_by_limit, calls@.len() as int);
            let has_valid = invalid.len() < calls@.len();
            let has_truncated = exists|j: int| 0 <= j < invalid.len() && args_truncated(#[trigger] calls@[invalid[j] as int].2@);
            let after = if has_valid { 0nat } else { (strikes + 1) as nat };
            if invalid.len() == 0 {
                v is Proceed && final(session).messages() == old(session).messages()
            } else if !has_valid && after >= TRUNCATION_STRIKE_LIMIT {
                &&& v matches TruncationVerdict::Trip { error: e, strikes: s }
                    && e@ == trip_text(dedup(calls@.map_values(|c: (String, String, String)| c.1@)), after)
                    && s == after
                &&& final(session).messages() == old(session).messages()
            } else {
                &&& v matches TruncationVerdict::Reissue { valid_calls, strikes: s }
                    && s == after && valid_calls@ == calls_not_at(calls@, invalid, calls@.len() as int)
                &&& reissued(
                    old(session).messages(),
                    final(session).messages(),
                    calls@,
                    invalid,
                    reasoning_text,
                    full_text,
                    guidance_text(after, has_truncated, truncated_by_limit),
                )
            }
        }),
{
    let (invalid, has_truncated) = find_invalid_calls(calls, requires_params, truncated_by_limit);
    proof {
        if truncated_by_limit {
            law_limit_holds_back_every_call(calls@, requires_params@, calls@.len() as int);
            lemma_none_left(calls@, calls@.len() as int, calls@.len() as int);
        }
    }
    if invalid.len() == 0 {
        return TruncationVerdict::Proceed;
    }
    let has_valid = invalid.len() < calls.len();
    let strikes_after: usize = if has_valid { 0 } else { strikes + 1 };
    if strikes_after >= TRUNCATION_STRIKE_LIMIT && !has_valid {
        let names = distinct_names(calls);
        let joined_names = join_strings(&names, ", ");
        let mut e = concat3("The provider repeatedly truncated tool call arguments for [", joined_names.as_str(), "] (");
        let d = decimal_string(strikes_after as u64);
        e.append(d.as_str());
        e.append(
            " consecutive failures). This typically means the tool's parameter schema is too complex for this model to generate in a single response. Try using a different tool or approach.",
        );
        return TruncationVerdict::Trip { error: e, strikes: strikes_after };
    }
    let text = guidance(strikes_after, has_truncated, truncated_by_limit);
    let ghost before = session.messages();
    session.push_assistant_tool_calls(calls.as_slice(), Some(reasoning_text), Some(full_text));
    let ghost m1 = session.messages();
    let mut j: usize = 0;
    while j < invalid.len()
        invariant
            j <= invalid@.len(),
            forall|q: int| 0 <= q < invalid@.len() ==> #[trigger] invalid@[q] < calls@.len(),
            session.messages().len() == m1.len() + j,
            session.messages().take(m1.len() as int) == m1,
            forall|q: int| 0 <= q < j ==> is_tool_result(
                #[trigger] session.messages()[m1.len() + q],
                calls@[invalid@[q] as int].0@,
                text@,
            ),
            same_run(session, old(session)),
        decreases invalid@.len() - j,
    {
        let ghost m0 = session.messages();
        let k = invalid[j];
        session.push_tool_result(calls[k].0.as_str(), text.as_str());
        proof {
            let m2 = session.messages();
            assert(m2.take(m1.len() as int) =~= m0.take(m1.len() as int));
            assert forall|q: int| 0 <= q < j + 1 implies is_tool_result(
                #[trigger] m2[m1.len() + q],
                calls@[invalid@[q] as int].0@,
                text@,
            ) by {
                if q < j {
                    assert(m2[m1.len() + q] == m0[m1.len() + q]);
                }
            }
        }
        j = j + 1;
    }
    proof {
        let fin = session.messages();
        assert(fin.take(before.len() as int) =~= before) by {
            assert(fin.take(m1.len() as int).take(before.len() as int) =~= fin.take(before.len() as int));
        }
        assert(fin[before.len() as int] == m1.last());
        assert forall|q: int| 0 <= q < invalid@.len() implies is_tool_result(
            #[trigger] fin[before.len() + 1 + q],
            calls@[invalid@[q] as int].0@,
            text@,
        ) by {
            assert(fin[before.len() + 1 + q] == fin[m1.len() + q]);
        }
    }
    let valid_calls = collect_valid(calls, &invalid);
    TruncationVerdict::Reissue { valid_calls, strikes: strikes_after }
}

fn collect_valid(calls: &Vec<(String, String, String)>, invalid: &Vec<usize>) -> (r: Vec<(String, String, String)>)
    ensures
        r@ == calls_not_at(calls@, invalid@, calls@.len() as int),
{
    let mut r: Vec<(String, String, String)> = Vec::new();
    let mut i: usize = 0;
    while i < calls.len()
        invariant
            i <= calls@.len(),
            r@ == calls_not_at(calls@, invalid@, i as int),
        decreases calls@.len() - i,
    {
        let mut k: usize = 0;
        let mut listed = false;
        while k < invalid.len()
            invariant
                k <= invalid@.len(),
                listed == exists|q: int| 0 <= q < k && invalid@[q] == i,
            decreases invalid@.len() - k,
        {
            if invalid[k] == i {
                listed = true;
            }
            k = k + 1;
        }
        proof {
            if listed {
                let q = choose|q: int| 0 <= q < k && invalid@[q] == i;
                assert(invalid@.contains(i));
            }
            if invalid@.contains(i) {
                let q = choose|q: int| 0 <= q < invalid@.len() && invalid@[q] == i;
                assert(0 <= q < k);
            }
        }
        if !listed {
            let (a, b, c) = &calls[i];
            r.push((a.clone(), b.clone(), c.clone()));
            assert(r@.last() == calls@[i as int]);
        }
        i = i + 1;
    }
    r
}

} // verus!
