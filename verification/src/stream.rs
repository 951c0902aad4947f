//! Aggregation of a streamed LLM response: text, reasoning, and tool calls
//! assembled from indexed deltas.
use vstd::prelude::*;

verus! {

broadcast use vstd::seq_lib::group_seq_properties;

/// Token usage reported by the provider.
#[derive(Clone, Copy, Debug, PartialEq, Eq, Structural)]
pub struct UsageInfo {
    pub prompt_tokens: Option<u64>,
    pub completion_tokens: Option<u64>,
    pub total_tokens: Option<u64>,
}

/// One fragment of a tool call in a streamed response.
#[derive(Debug)]
pub struct ToolCallDelta {
    /// Position of the call in the response.
    pub index: usize,
    pub id: Option<String>,
    pub name: Option<String>,
    /// A piece of the arguments text.
    pub arguments: Option<String>,
}

/// A tool-call entry of a provider chunk, as its JSON gives it: each field
/// is `None` where the entry lacks it (or it has another JSON type).
#[derive(Debug)]
pub struct RawToolCall {
    pub index: Option<u64>,
    pub id: Option<String>,
    pub name: Option<String>,
    pub arguments: Option<String>,
}

/// The delta of an entry: an entry without an index is the call at index 0.
pub open spec fn raw_delta(r: RawToolCall) -> ToolCallDelta {
    ToolCallDelta {
        index: match r.index {
            Some(n) => n as usize,
            None => 0,
        },
        id: r.id,
        name: r.name,
        arguments: r.arguments,
    }
}

/// The deltas of a tool-call chunk, in order: none when the chunk carries no
/// list of tool calls.
pub fn tool_call_deltas(entries: Option<Vec<RawToolCall>>) -> (ds: Vec<ToolCallDelta>)
    ensures
        ds@ == match entries {
            Some(v) => v@.map_values(|r: RawToolCall| raw_delta(r)),
            None => Seq::<ToolCallDelta>::empty(),
        },
{
    match entries {
        None => Vec::new(),
        Some(v) => {
            let ghost all = v@;
            let mut rest = v;
            let mut out: Vec<ToolCallDelta> = Vec::new();
            let ghost mut k: int = 0;
            while rest.len() > 0
                invariant
                    0 <= k <= all.len(),
                    rest@ == all.skip(k),
                    out@ == all.take(k).map_values(|r: RawToolCall| raw_delta(r)),
                decreases rest@.len(),
            {
                let r = rest.remove(0);
                let index: usize = match r.index {
                    Some(n) => n as usize,
                    None => 0,
                };
                out.push(ToolCallDelta { index, id: r.id, name: r.name, arguments: r.arguments });
                proof {
                    assert(r == all[k]);
                    assert(all.take(k + 1) =~= all.take(k).push(all[k]));
                    k = k + 1;
                    assert(rest@ =~= all.skip(k));
                }
                assert(out@ =~= all.take(k).map_values(|r: RawToolCall| raw_delta(r)));
            }
            assert(all.take(k) =~= all);
            out
        },
    }
}

/// One chunk of a streamed response.
#[derive(Debug)]
pub enum StreamChunk {
    Text(String),
    Thought(String),
    ToolCall(Vec<ToolCallDelta>),
    Usage(UsageInfo),
    Stop { finish_reason: Option<String> },
}

/// An event to emit for a chunk.
#[derive(Debug)]
pub enum StreamEmit {
    TextDelta(String),
    ThoughtDelta(String),
}

/// A tool call being assembled.
#[derive(Debug)]
pub struct Partial {
    pub index: usize,
    pub id: String,
    pub name: String,
    pub arguments: String,
}

pub type CallView = (Seq<char>, Seq<char>, Seq<char>);

pub open spec fn partial_view(p: Partial) -> CallView {
    (p.id@, p.name@, p.arguments@)
}

/// The calls of a list of partials, by index (later entries win).
pub open spec fn list_map(l: Seq<Partial>) -> Map<usize, CallView>
    decreases l.len(),
{
    if l.len() == 0 {
        Map::empty()
    } else {
        list_map(l.drop_last()).insert(l.last().index, partial_view(l.last()))
    }
}

/// Indices strictly increase along the list.
pub open spec fn strictly_sorted(l: Seq<Partial>) -> bool {
    forall|i: int, j: int| 0 <= i < j < l.len() ==> l[i].index < l[j].index
}

pub proof fn lemma_list_map(l: Seq<Partial>)
    requires
        strictly_sorted(l),
    ensures
        forall|k: usize| list_map(l).dom().contains(k) <==> exists|i: int| 0 <= i < l.len() && l[i].index == k,
        forall|i: int| 0 <= i < l.len() ==> #[trigger] list_map(l)[l[i].index] == partial_view(l[i]),
        list_map(l).dom().finite(),
    decreases l.len(),
{
    if l.len() > 0 {
        let d = l.drop_last();
        lemma_list_map(d);
        assert forall|k: usize| list_map(l).dom().contains(k) <==> exists|i: int| 0 <= i < l.len() && l[i].index == k by {
            if list_map(d).dom().contains(k) {
                let i = choose|i: int| 0 <= i < d.len() && d[i].index == k;
                assert(l[i].index == k);
            }
            if k == l.last().index {
                assert(l[l.len() - 1].index == k);
            }
            if exists|i: int| 0 <= i < l.len() && l[i].index == k {
                let i = choose|i: int| 0 <= i < l.len() && l[i].index == k;
                if i < l.len() - 1 {
                    assert(d[i].index == k);
                }
            }
        }
        assert forall|i: int| 0 <= i < l.len() implies #[trigger] list_map(l)[l[i].index] == partial_view(l[i]) by {
            if i < l.len() - 1 {
                assert(d[i] == l[i]);
                assert(l[i].index < l.last().index);
            }
        }
    }
}

/// Two sorted lists with the same entries, found where the lists say, have
/// the same map.
pub proof fn lemma_list_map_ext(l: Seq<Partial>, m: Map<usize, CallView>)
    requires
        strictly_sorted(l),
        m.dom().finite(),
        forall|k: usize| m.dom().contains(k) <==> exists|i: int| 0 <= i < l.len() && l[i].index == k,
        forall|i: int| 0 <= i < l.len() ==> #[trigger] m[l[i].index] == partial_view(l[i]),
    ensures
        list_map(l) == m,
{
    lemma_list_map(l);
    assert forall|k: usize| #[trigger] list_map(l).dom().contains(k) implies list_map(l)[k] == m[k] by {
        let i = choose|i: int| 0 <= i < l.len() && l[i].index == k;
        assert(list_map(l)[l[i].index] == partial_view(l[i]));
    }
    assert(list_map(l) =~= m);
}

/// Placing `entry` at position `p` of a sorted list (replacing the entry
/// with the same index, if any) keeps it sorted and maps its index to it.
pub proof fn lemma_place(l: Seq<Partial>, p: int, found: bool, entry: Partial)
    requires
        strictly_sorted(l),
        0 <= p <= l.len(),
        forall|i: int| 0 <= i < p ==> #[trigger] l[i].index < entry.index,
        found ==> p < l.len() && l[p].index == entry.index,
        !found ==> p == l.len() || l[p].index > entry.index,
    ensures
        strictly_sorted((if found { l.remove(p) } else { l }).insert(p, entry)),
        list_map((if found { l.remove(p) } else { l }).insert(p, entry)) == list_map(l).insert(entry.index, partial_view(entry)),
{
    let l2 = (if found { l.remove(p) } else { l }).insert(p, entry);
    lemma_list_map(l);
    if found {
        assert(l2 =~= l.update(p, entry));
    }
    assert forall|i: int, j: int| 0 <= i < j < l2.len() implies l2[i].index < l2[j].index by {
        if found {
            if i != p && j != p {
                assert(l2[i] == l[i] && l2[j] == l[j]);
            } else if i == p {
                assert(l2[j] == l[j]);
                assert(l[p].index < l[j].index);
            } else {
                assert(l2[i] == l[i]);
            }
        } else {
            if i < p && j < p {
                assert(l2[i] == l[i]);
                assert(l2[j] == l[j]);
            } else if i < p && j == p {
            } else if i < p && j > p {
                assert(l2[j] == l[j - 1]);
                assert(l2[i] == l[i]);
                assert(l[i].index < entry.index);
            } else if i == p {
                assert(l2[j] == l[j - 1]);
                if j - 1 > p {
                    assert(l[p].index < l[j - 1].index);
                }
            } else {
                assert(l2[i] == l[i - 1]);
                assert(l2[j] == l[j - 1]);
            }
        }
    }
    if !found {
        assert forall|i: int| 0 <= i < l.len() implies #[trigger] l[i].index != entry.index by {
            if i > p {
                assert(l[p].index < l[i].index);
            }
        }
    }
    let target = list_map(l).insert(entry.index, partial_view(entry));
    assert forall|k: usize| target.dom().contains(k) <==> exists|i: int| 0 <= i < l2.len() && l2[i].index == k by {
        if k == entry.index {
            assert(l2[p].index == k);
        } else if target.dom().contains(k) {
            let i = choose|i: int| 0 <= i < l.len() && l[i].index == k;
            if found {
                assert(l2[i].index == k);
            } else if i < p {
                assert(l2[i] == l[i]);
            } else {
                assert(l2[i + 1] == l[i]);
            }
        }
        if exists|i: int| 0 <= i < l2.len() && l2[i].index == k {
            let i = choose|i: int| 0 <= i < l2.len() && l2[i].index == k;
            if k != entry.index {
                if found {
                    assert(l[i].index == k);
                } else if i < p {
                    assert(l[i].index == k);
                } else {
                    assert(i != p);
                    assert(l[i - 1].index == k);
                }
            }
        }
    }
    assert forall|i: int| 0 <= i < l2.len() implies #[trigger] target[l2[i].index] == partial_view(l2[i]) by {
        if i == p {
        } else if found {
            assert(l2[i] == l[i]);
            assert(list_map(l)[l[i].index] == partial_view(l[i]));
        } else if i < p {
            assert(l2[i] == l[i]);
            assert(list_map(l)[l[i].index] == partial_view(l[i]));
        } else {
            assert(l2[i] == l[i - 1]);
            assert(list_map(l)[l[i - 1].index] == partial_view(l[i - 1]));
        }
    }
    lemma_list_map_ext(l2, target);
}

/// The mathematical form of a delta.
pub open spec fn delta_view(d: ToolCallDelta) -> (usize, Option<Seq<char>>, Option<Seq<char>>, Option<Seq<char>>) {
    (
        d.index,
        match d.id { Some(x) => Some(x@), None => None },
        match d.name { Some(x) => Some(x@), None => None },
        match d.arguments { Some(x) => Some(x@), None => None },
    )
}

/// A non-empty replacement wins over the current value.
pub open spec fn replace_nonempty(cur: Seq<char>, new: Option<Seq<char>>) -> Seq<char> {
    match new {
        Some(x) => if x.len() > 0 { x } else { cur },
        None => cur,
    }
}

/// The calls after one delta: the call at its index (empty when new) takes a
/// non-empty id and name, and the arguments piece is appended.
pub open spec fn apply_delta(m: Map<usize, CallView>, d: ToolCallDelta) -> Map<usize, CallView> {
    let e: CallView = if m.dom().contains(d.index) { m[d.index] } else { (Seq::empty(), Seq::empty(), Seq::empty()) };
    let dv = delta_view(d);
    m.insert(
        d.index,
        (
            replace_nonempty(e.0, dv.1),
            replace_nonempty(e.1, dv.2),
            e.2 + match dv.3 { Some(a) => a, None => Seq::empty() },
        ),
    )
}

/// The calls after a sequence of deltas, applied in order.
pub open spec fn apply_deltas(m: Map<usize, CallView>, ds: Seq<ToolCallDelta>) -> Map<usize, CallView>
    decreases ds.len(),
{
    if ds.len() == 0 {
        m
    } else {
        apply_delta(apply_deltas(m, ds.drop_last()), ds.last())
    }
}

/// Splitting the deltas of a chunk changes nothing: applying `ds1 + ds2`
/// gives the calls of applying `ds1`, then `ds2`.
pub proof fn law_split_chunk(m: Map<usize, CallView>, ds1: Seq<ToolCallDelta>, ds2: Seq<ToolCallDelta>)
    ensures
        apply_deltas(m, ds1 + ds2) == apply_deltas(apply_deltas(m, ds1), ds2),
    decreases ds2.len(),
{
    if ds2.len() == 0 {
        assert(ds1 + ds2 =~= ds1);
    } else {
        law_split_chunk(m, ds1, ds2.drop_last());
        assert((ds1 + ds2).drop_last() =~= ds1 + ds2.drop_last());
        assert((ds1 + ds2).last() == ds2.last());
    }
}

/// After a chunk, every call index that any of its deltas names has a call,
/// every call that was there stays, and no other index gets one.
pub proof fn law_chunk_indices_present(m: Map<usize, CallView>, ds: Seq<ToolCallDelta>)
    ensures
        forall|i: int| 0 <= i < ds.len() ==> apply_deltas(m, ds).dom().contains(#[trigger] ds[i].index),
        forall|k: usize| m.dom().contains(k) ==> apply_deltas(m, ds).dom().contains(k),
        forall|k: usize| #[trigger] apply_deltas(m, ds).dom().contains(k) ==>
            m.dom().contains(k) || exists|i: int| 0 <= i < ds.len() && ds[i].index == k,
    decreases ds.len(),
{
    if ds.len() > 0 {
        let init = ds.drop_last();
        law_chunk_indices_present(m, init);
        assert forall|i: int| 0 <= i < ds.len() implies apply_deltas(m, ds).dom().contains(#[trigger] ds[i].index) by {
            if i < ds.len() - 1 {
                assert(init[i] == ds[i]);
            }
        }
        assert forall|k: usize| #[trigger] apply_deltas(m, ds).dom().contains(k) implies
            m.dom().contains(k) || exists|i: int| 0 <= i < ds.len() && ds[i].index == k by {
            if k != ds.last().index && !m.dom().contains(k) {
                let i = choose|i: int| 0 <= i < init.len() && init[i].index == k;
                assert(ds[i] == init[i]);
            } else if k == ds.last().index {
                assert(ds[ds.len() - 1].index == k);
            }
        }
    }
}

pub open spec fn triple_views(v: Seq<(String, String, String)>) -> Seq<CallView> {
    v.map_values(|t: (String, String, String)| (t.0@, t.1@, t.2@))
}

/// What a streamed LLM turn produced.
#[derive(Debug)]
pub struct LlmTurnResult {
    pub full_text: String,
    pub reasoning_text: String,
    pub is_tool_call: bool,
    /// The tool calls, `(id, name, arguments)`, in index order.
    pub tool_calls: Vec<(String, String, String)>,
    pub usage: Option<UsageInfo>,
    /// Provider stop reason (`"length"` means the token limit was hit).
    pub finish_reason: Option<String>,
    /// Time to first token in milliseconds.
    pub ttft_ms: u64,
    pub llm_duration_ms: u64,
    /// Reasoning content but no text and no tool call.
    pub reasoning_only: bool,
}

/// Accumulates the chunks of a streamed response.
pub struct StreamAggregator {
    is_tool_call: bool,
    full_text: String,
    reasoning_text: String,
    partials: Vec<Partial>,
    usage: Option<UsageInfo>,
    finish_reason: Option<String>,
    ttft_ms: u64,
    seen_text: bool,
}

impl StreamAggregator {
    pub closed spec fn text(&self) -> Seq<char> {
        self.full_text@
    }

    pub closed spec fn reasoning(&self) -> Seq<char> {
        self.reasoning_text@
    }

    pub closed spec fn calling(&self) -> bool {
        self.is_tool_call
    }

    /// The tool calls assembled so far, by index.
    pub closed spec fn calls(&self) -> Map<usize, CallView> {
        list_map(self.partials@)
    }

    /// The calls assembled so far, in index order.
    pub closed spec fn call_list(&self) -> Seq<CallView> {
        self.partials@.map_values(|p: Partial| partial_view(p))
    }

    /// The indices of the calls, in order.
    pub closed spec fn call_indices(&self) -> Seq<usize> {
        self.partials@.map_values(|p: Partial| p.index)
    }

    pub closed spec fn stop_reason(&self) -> Option<String> {
        self.finish_reason
    }

    pub closed spec fn reported_usage(&self) -> Option<UsageInfo> {
        self.usage
    }

    pub closed spec fn first_token_ms(&self) -> u64 {
        self.ttft_ms
    }

    pub closed spec fn text_seen(&self) -> bool {
        self.seen_text
    }

    pub closed spec fn wf(&self) -> bool {
        strictly_sorted(self.partials@)
    }

    pub fn new() -> (a: StreamAggregator)
        ensures
            a.wf(),
            a.text().len() == 0,
            a.reasoning().len() == 0,
            !a.calling(),
            a.calls() == Map::<usize, CallView>::empty(),
            a.stop_reason() is None,
            a.reported_usage() is None,
            !a.text_seen(),
            a.first_token_ms() == 0,
    {
        StreamAggregator {
            is_tool_call: false,
            full_text: String::new(),
            reasoning_text: String::new(),
            partials: Vec::new(),
            usage: None,
            finish_reason: None,
            ttft_ms: 0,
            seen_text: false,
        }
    }

    /// The list and the map of the calls agree.
    pub proof fn lemma_calls(&self)
        requires
            self.wf(),
        ensures
            self.call_list().len() == self.call_indices().len(),
            forall|i: int, j: int| 0 <= i < j < self.call_indices().len() ==> self.call_indices()[i] < self.call_indices()[j],
            forall|k: usize| self.calls().dom().contains(k) <==> self.call_indices().contains(k),
            forall|i: int| 0 <= i < self.call_list().len() ==> #[trigger] self.calls()[self.call_indices()[i]] == self.call_list()[i],
    {
        lemma_list_map(self.partials@);
        assert forall|k: usize| self.calls().dom().contains(k) <==> self.call_indices().contains(k) by {
            if self.calls().dom().contains(k) {
                let i = choose|i: int| 0 <= i < self.partials@.len() && self.partials@[i].index == k;
                assert(self.call_indices()[i] == k);
            }
            if self.call_indices().contains(k) {
                let i = choose|i: int| 0 <= i < self.call_indices().len() && self.call_indices()[i] == k;
                assert(self.partials@[i].index == k);
            }
        }
        assert forall|i: int| 0 <= i < self.call_list().len() implies #[trigger] self.calls()[self.call_indices()[i]] == self.call_list()[i] by {
            assert(self.calls()[self.partials@[i].index] == partial_view(self.partials@[i]));
        }
    }

    /// Fold one tool-call delta into the calls.
    fn apply_tool_delta(&mut self, d: ToolCallDelta)
        requires
            old(self).wf(),
        ensures
            final(self).wf(),
            final(self).calls() == apply_delta(old(self).calls(), d),
            final(self).text() == old(self).text(),
            final(self).reasoning() == old(self).reasoning(),
            final(self).calling() == old(self).calling(),
            final(self).stop_reason() == old(self).stop_reason(),
            final(self).reported_usage() == old(self).reported_usage(),
            final(self).first_token_ms() == old(self).first_token_ms(),
            final(self).text_seen() == old(self).text_seen(),
    {
        let ghost l = self.partials@;
        proof { lemma_list_map(l); }
        // First position whose index is not below the delta's.
        let mut p: usize = 0;
        while p < self.partials.len() && self.partials[p].index < d.index
            invariant
                l == self.partials@,
                p <= l.len(),
                forall|i: int| 0 <= i < p ==> #[trigger] l[i].index < d.index,
            decreases l.len() - p,
        {
            p = p + 1;
        }
        let ghost dv = delta_view(d);
        let ToolCallDelta { index, id, name, arguments } = d;
        let found = p < self.partials.len() && self.partials[p].index == index;
        let (cur_id, cur_name, cur_args) = if found {
            let old_p = self.partials.remove(p);
            (old_p.id, old_p.name, old_p.arguments)
        } else {
            (String::new(), String::new(), String::new())
        };
        proof {
            if !found {
                assert forall|i: int| 0 <= i < l.len() implies #[trigger] l[i].index != index by {
                    if i >= p {
                        if i > p {
                            assert(l[p as int].index < l[i].index);
                        }
                    }
                }
                assert(!old(self).calls().dom().contains(index));
            } else {
                assert(old(self).calls()[l[p as int].index] == partial_view(l[p as int]));
            }
        }
        let new_id = match id {
            Some(x) => if x.as_str().is_empty() { cur_id } else { x },
            None => cur_id,
        };
        let new_name = match name {
            Some(x) => if x.as_str().is_empty() { cur_name } else { x },
            None => cur_name,
        };
        let mut new_args = cur_args;
        match arguments {
            Some(a) => new_args.append(a.as_str()),
            None => {},
        }
        let entry = Partial { index, id: new_id, name: new_name, arguments: new_args };
        self.partials.insert(p, entry);
        proof {
            lemma_place(l, p as int, found, entry);
            let target = apply_delta(old(self).calls(), d);
            assert(target =~= list_map(l).insert(index, partial_view(entry)));
        }
    }

    /// Fold one chunk into the response; returns the delta event to emit, if
    /// any (text and reasoning are only shown while no tool call started).
    /// `elapsed_ms` is the time since the stream started; the first text
    /// chunk records it as the time to first token.
    pub fn apply_chunk(&mut self, chunk: StreamChunk, elapsed_ms: u64) -> (emit: Option<StreamEmit>)
        requires
            old(self).wf(),
        ensures
            final(self).wf(),
            match chunk {
                StreamChunk::Text(t) => {
                    &&& final(self).text() == old(self).text() + t@
                    &&& final(self).text_seen()
                    &&& final(self).first_token_ms() == if old(self).text_seen() { old(self).first_token_ms() } else { elapsed_ms }
                    &&& final(self).reasoning() == old(self).reasoning()
                    &&& final(self).calling() == old(self).calling()
                    &&& final(self).calls() == old(self).calls()
                    &&& final(self).stop_reason() == old(self).stop_reason()
                    &&& final(self).reported_usage() == old(self).reported_usage()
                    &&& if t@.len() > 0 && !old(self).calling() { emit == Some(StreamEmit::TextDelta(t)) } else { emit is None }
                },
                StreamChunk::Thought(t) => {
                    &&& final(self).reasoning() == old(self).reasoning() + t@
                    &&& final(self).text() == old(self).text()
                    &&& final(self).text_seen() == old(self).text_seen()
                    &&& final(self).first_token_ms() == old(self).first_token_ms()
                    &&& final(self).calling() == old(self).calling()
                    &&& final(self).calls() == old(self).calls()
                    &&& final(self).stop_reason() == old(self).stop_reason()
                    &&& final(self).reported_usage() == old(self).reported_usage()
                    &&& if t@.len() > 0 && !old(self).calling() { emit == Some(StreamEmit::ThoughtDelta(t)) } else { emit is None }
                },
                StreamChunk::ToolCall(ds) => {
                    &&& final(self).calling()
                    &&& final(self).calls() == apply_deltas(old(self).calls(), ds@)
                    &&& final(self).text() == old(self).text()
                    &&& final(self).reasoning() == old(self).reasoning()
                    &&& final(self).text_seen() == old(self).text_seen()
                    &&& final(self).first_token_ms() == old(self).first_token_ms()
                    &&& final(self).stop_reason() == old(self).stop_reason()
                    &&& final(self).reported_usage() == old(self).reported_usage()
                    &&& emit is None
                },
                StreamChunk::Usage(u) => {
                    &&& final(self).reported_usage() == Some(u)
                    &&& final(self).text() == old(self).text()
                    &&& final(self).reasoning() == old(self).reasoning()
                    &&& final(self).text_seen() == old(self).text_seen()
                    &&& final(self).first_token_ms() == old(self).first_token_ms()
                    &&& final(self).calling() == old(self).calling()
                    &&& final(self).calls() == old(self).calls()
                    &&& final(self).stop_reason() == old(self).stop_reason()
                    &&& emit is None
                },
                StreamChunk::Stop { finish_reason } => {
                    &&& final(self).stop_reason() == if finish_reason is Some { finish_reason } else { old(self).stop_reason() }
                    &&& final(self).text() == old(self).text()
                    &&& final(self).reasoning() == old(self).reasoning()
                    &&& final(self).text_seen() == old(self).text_seen()
                    &&& final(self).first_token_ms() == old(self).first_token_ms()
                    &&& final(self).calling() == old(self).calling()
                    &&& final(self).calls() == old(self).calls()
                    &&& final(self).reported_usage() == old(self).reported_usage()
                    &&& emit is None
                },
            },
    {
        match chunk {
            StreamChunk::Text(t) => {
                if !self.seen_text {
                    self.ttft_ms = elapsed_ms;
                    self.seen_text = true;
                }
                self.full_text.append(t.as_str());
                if !t.as_str().is_empty() && !self.is_tool_call {
                    Some(StreamEmit::TextDelta(t))
                } else {
                    None
                }
            },
            StreamChunk::Thought(t) => {
                self.reasoning_text.append(t.as_str());
                if !t.as_str().is_empty() && !self.is_tool_call {
                    Some(StreamEmit::ThoughtDelta(t))
                } else {
                    None
                }
            },
            StreamChunk::ToolCall(ds) => {
                self.is_tool_call = true;
                let ghost all = ds@;
                let mut rest = ds;
                let ghost mut done: Seq<ToolCallDelta> = Seq::empty();
                let ghost start = self.calls();
                assert(done + rest@ =~= all);
                while rest.len() > 0
                    invariant
                        self.wf(),
                        done + rest@ == all,
                        self.calls() == apply_deltas(start, done),
                        self.text() == old(self).text(),
                        self.reasoning() == old(self).reasoning(),
                        self.calling(),
                        self.stop_reason() == old(self).stop_reason(),
                        self.reported_usage() == old(self).reported_usage(),
                        self.first_token_ms() == old(self).first_token_ms(),
                        self.text_seen() == old(self).text_seen(),
                    decreases rest@.len(),
                {
                    let ghost before_rest = rest@;
                    let d = rest.remove(0);
                    let ghost dd = d;
                    self.apply_tool_delta(d);
                    proof {
                        let nd = done.push(dd);
                        assert(nd.drop_last() =~= done);
                        assert(apply_deltas(start, nd) == apply_delta(apply_deltas(start, done), dd));
                        assert(nd + rest@ =~= done + before_rest);
                        done = nd;
                    }
                }
                assert(done =~= all);
                None
            },
            StreamChunk::Usage(u) => {
                self.usage = Some(u);
                None
            },
            StreamChunk::Stop { finish_reason } => {
                if finish_reason.is_some() {
                    self.finish_reason = finish_reason;
                }
                None
            },
        }
    }
    /// Move the assembled calls, in index order, into the finished list.
    fn finalize_tool_calls(&mut self) -> (r: Vec<(String, String, String)>)
        ensures
            triple_views(r@) == old(self).call_list(),
            final(self).full_text == old(self).full_text,
            final(self).reasoning_text == old(self).reasoning_text,
            final(self).is_tool_call == old(self).is_tool_call,
            final(self).usage == old(self).usage,
            final(self).finish_reason == old(self).finish_reason,
            final(self).ttft_ms == old(self).ttft_ms,
    {
        let mut out: Vec<(String, String, String)> = Vec::new();
        let ghost all = self.partials@;
        let ghost mut k: int = 0;
        while self.partials.len() > 0
            invariant
                0 <= k <= all.len(),
                self.partials@ == all.skip(k),
                triple_views(out@) == all.take(k).map_values(|p: Partial| partial_view(p)),
                self.full_text == old(self).full_text,
                self.reasoning_text == old(self).reasoning_text,
                self.is_tool_call == old(self).is_tool_call,
                self.usage == old(self).usage,
                self.finish_reason == old(self).finish_reason,
                self.ttft_ms == old(self).ttft_ms,
            decreases self.partials@.len(),
        {
            let p = self.partials.remove(0);
            proof {
                assert(p == all[k]);
                assert(self.partials@ =~= all.skip(k + 1));
                assert(all.take(k + 1) =~= all.take(k).push(all[k]));
            }
            let ghost before = out@;
            let ghost pv = partial_view(p);
            out.push((p.id, p.name, p.arguments));
            proof {
                assert(triple_views(out@) =~= triple_views(before).push(pv));
                assert(triple_views(out@) =~= all.take(k + 1).map_values(|p: Partial| partial_view(p)));
                k = k + 1;
            }
        }
        assert(all.take(k) =~= all);
        out
    }

    /// The text, whether a tool call started, and the tool calls in index
    /// order.
    pub fn into_parts(self) -> (r: (String, bool, Vec<(String, String, String)>))
        ensures
            r.0@ == self.text(),
            r.1 == self.calling(),
            triple_views(r.2@) == self.call_list(),
    {
        let mut me = self;
        let calls = me.finalize_tool_calls();
        (me.full_text, me.is_tool_call, calls)
    }

    /// The result of the turn. A response that has reasoning but neither
    /// text nor a tool call is flagged as reasoning-only: reasoning is never
    /// promoted to the answer.
    pub fn finish(self, llm_duration_ms: u64) -> (r: LlmTurnResult)
        ensures
            r.full_text@ == self.text(),
            r.reasoning_text@ == self.reasoning(),
            r.is_tool_call == self.calling(),
            triple_views(r.tool_calls@) == self.call_list(),
            r.usage == self.reported_usage(),
            r.finish_reason == self.stop_reason(),
            r.ttft_ms == self.first_token_ms(),
            r.llm_duration_ms == llm_duration_ms,
            r.reasoning_only == (self.text().len() == 0 && self.reasoning().len() > 0 && !self.calling()),
    {
        let mut me = self;
        let calls = me.finalize_tool_calls();
        let reasoning_only = me.full_text.as_str().is_empty() && !me.reasoning_text.as_str().is_empty()
            && !me.is_tool_call;
        LlmTurnResult {
            full_text: me.full_text,
            reasoning_text: me.reasoning_text,
            is_tool_call: me.is_tool_call,
            tool_calls: calls,
            usage: me.usage,
            finish_reason: me.finish_reason,
            ttft_ms: me.ttft_ms,
            llm_duration_ms,
            reasoning_only,
        }
    }
}

} // verus!
