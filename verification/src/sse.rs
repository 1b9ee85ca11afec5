//! Decoding of a streamed chat-completions response: the state that the
//! stream builds up, one step per line, the events each step sends to the
//! UI, and the response assembled when the stream ends.
use vstd::prelude::*;
use vstd::string::StrSliceExecFns;
use vstd::string::StringExecFns;
use crate::chunk::{
    ChoiceV, ChunkUsage, ChunkV, ContentDelta, ContentDeltaPart, ContentV, DeltaV, PartV,
    SseChunk, ThinkingDelta, ThinkingDeltaBlock, ThinkingV, ToolCallDelta, ToolCallV,
    dec_chunk, dec_stream_error, decode_chunk, decode_stream_error, part_views,
    thinking_views, tool_call_views,
};
use crate::json::{Json, JsonV, json_parse, parse_json};
use crate::text::{
    chars_contain, chars_equal, chars_of, chars_start_with, contains_seq, decimal,
    decimal_string, starts_with, string_views, trim, trim_start, trim_start_str, trim_str,
};
use crate::types::{
    AgentError, AgentErrorV, BlockV, ContentBlock, EventV, Message, MessageV, ProviderEvent,
    Role, StopReason, StreamResponse, TokenUsage, block_views, event_views,
    stop_from_openai, stop_text, stream_error, stream_error_status,
};

verus! {

/// What the stream has said so far about one tool call.
pub struct ToolAccumulator {
    pub id: String,
    pub name: String,
    pub arguments: String,
}

pub struct AccV {
    pub id: Seq<char>,
    pub name: Seq<char>,
    pub arguments: Seq<char>,
}

impl View for ToolAccumulator {
    type V = AccV;

    open spec fn view(&self) -> AccV {
        AccV { id: self.id@, name: self.name@, arguments: self.arguments@ }
    }
}

pub open spec fn acc_views(s: Seq<ToolAccumulator>) -> Seq<AccV> {
    Seq::new(s.len(), |i: int| s[i]@)
}

/// The state of a stream being decoded.
pub struct SseState {
    text: String,
    reasoning_text: String,
    tools: Vec<ToolAccumulator>,
    usage: TokenUsage,
    stop_reason: Option<StopReason>,
    is_first_content: bool,
}

pub struct SseView {
    /// Visible text so far.
    pub text: Seq<char>,
    /// Reasoning text so far.
    pub reasoning: Seq<char>,
    /// Tool calls by their index in the stream.
    pub tools: Seq<AccV>,
    pub usage: TokenUsage,
    pub stop_reason: Option<StopReason>,
    /// No visible text has been seen yet (the next text is trimmed at its
    /// start).
    pub first: bool,
}

impl View for SseState {
    type V = SseView;

    closed spec fn view(&self) -> SseView {
        SseView {
            text: self.text@,
            reasoning: self.reasoning_text@,
            tools: acc_views(self.tools@),
            usage: self.usage,
            stop_reason: self.stop_reason,
            first: self.is_first_content,
        }
    }
}

pub open spec fn initial_view() -> SseView {
    SseView {
        text: Seq::empty(),
        reasoning: Seq::empty(),
        tools: Seq::empty(),
        usage: TokenUsage { input: 0, output: 0, cache_read: 0, cache_creation: 0 },
        stop_reason: None,
        first: true,
    }
}

// ---------------------------------------------------------------- one chunk, as specified

/// Usage as reported: cached tokens are the larger of the two cache
/// reports, and are not counted again as input.
pub open spec fn usage_of(u: ChunkUsage) -> TokenUsage {
    let details = match u.prompt_tokens_details {
        Some(d) => d.cached_tokens,
        None => 0,
    };
    let cached = if details >= u.prompt_cache_hit_tokens {
        details
    } else {
        u.prompt_cache_hit_tokens
    };
    TokenUsage {
        input: if u.prompt_tokens >= cached {
            (u.prompt_tokens - cached) as u32
        } else {
            0
        },
        output: u.completion_tokens,
        cache_read: cached,
        cache_creation: 0,
    }
}

/// A piece of visible text: the first one is trimmed at its start; what is
/// left, if anything, is appended and sent.
pub open spec fn text_piece(s: SseView, content: Seq<char>) -> (SseView, Seq<EventV>) {
    let c = if s.first {
        trim_start(content)
    } else {
        content
    };
    if c.len() > 0 {
        (SseView { text: s.text + c, first: false, ..s }, seq![EventV::TextDelta(c)])
    } else {
        (SseView { first: false, ..s }, Seq::empty())
    }
}

/// A piece of reasoning: appended and sent unless empty.
pub open spec fn thinking_piece(s: SseView, content: Seq<char>) -> (SseView, Seq<EventV>) {
    if content.len() > 0 {
        (SseView { reasoning: s.reasoning + content, ..s }, seq![EventV::ThinkingDelta(content)])
    } else {
        (s, Seq::empty())
    }
}

pub open spec fn thinking_text(t: ThinkingV) -> Seq<char> {
    match t {
        ThinkingV::Block(x) => x,
        ThinkingV::Str(x) => x,
    }
}

pub open spec fn thinkings_step(s: SseView, ts: Seq<ThinkingV>) -> (SseView, Seq<EventV>)
    decreases ts.len(),
{
    if ts.len() == 0 {
        (s, Seq::empty())
    } else {
        let (s1, e1) = thinkings_step(s, ts.drop_last());
        let (s2, e2) = thinking_piece(s1, thinking_text(ts.last()));
        (s2, e1 + e2)
    }
}

pub open spec fn part_step(s: SseView, p: PartV) -> (SseView, Seq<EventV>) {
    match p {
        PartV::Thinking(ts) => thinkings_step(s, ts),
        PartV::Text(t) => text_piece(s, t),
    }
}

pub open spec fn parts_step(s: SseView, ps: Seq<PartV>) -> (SseView, Seq<EventV>)
    decreases ps.len(),
{
    if ps.len() == 0 {
        (s, Seq::empty())
    } else {
        let (s1, e1) = parts_step(s, ps.drop_last());
        let (s2, e2) = part_step(s1, ps.last());
        (s2, e1 + e2)
    }
}

/// `content` of a delta: a non-empty string is a piece of text; an array
/// is a sequence of text and thinking parts.
pub open spec fn content_step(s: SseView, c: Option<ContentV>) -> (SseView, Seq<EventV>) {
    match c {
        Some(ContentV::Str(t)) => if t.len() > 0 {
            text_piece(s, t)
        } else {
            (s, Seq::empty())
        },
        Some(ContentV::Array(ps)) => parts_step(s, ps),
        None => (s, Seq::empty()),
    }
}

pub open spec fn reasoning_step(s: SseView, r: Option<Seq<char>>) -> (SseView, Seq<EventV>) {
    match r {
        Some(t) => thinking_piece(s, t),
        None => (s, Seq::empty()),
    }
}

pub open spec fn empty_acc() -> AccV {
    AccV { id: Seq::empty(), name: Seq::empty(), arguments: Seq::empty() }
}

/// The tool list grown with empty entries so that `index` is in it.
pub open spec fn padded(tools: Seq<AccV>, index: int) -> Seq<AccV> {
    if index < tools.len() {
        tools
    } else {
        tools + Seq::new((index + 1 - tools.len()) as nat, |i: int| empty_acc())
    }
}

/// Both an id and a name are known.
pub open spec fn complete(a: AccV) -> bool {
    a.id.len() > 0 && a.name.len() > 0
}

/// A tool-call delta applied to its entry. A delivered id or name replaces
/// the known one unless it is empty while the known one is not; the name at
/// the top of the delta is taken only while no name is known; argument text
/// is appended.
pub open spec fn acc_update(a: AccV, tc: ToolCallV) -> AccV {
    let id = match tc.id {
        Some(i) => if i.len() > 0 || a.id.len() == 0 {
            i
        } else {
            a.id
        },
        None => a.id,
    };
    let name1 = match tc.function {
        Some(f) => match f.name {
            Some(n) => if n.len() > 0 || a.name.len() == 0 {
                n
            } else {
                a.name
            },
            None => a.name,
        },
        None => a.name,
    };
    let arguments = match tc.function {
        Some(f) => match f.arguments {
            Some(x) => a.arguments + x,
            None => a.arguments,
        },
        None => a.arguments,
    };
    let name = if name1.len() == 0 {
        match tc.name {
            Some(n) => n,
            None => name1,
        }
    } else {
        name1
    };
    AccV { id, name, arguments }
}

/// One tool-call delta; the start of the tool is announced when its id and
/// name first become both known.
pub open spec fn tool_step(s: SseView, tc: ToolCallV) -> (SseView, Seq<EventV>) {
    let tools = padded(s.tools, tc.index as int);
    let a = tools[tc.index as int];
    let b = acc_update(a, tc);
    let s1 = SseView { tools: tools.update(tc.index as int, b), ..s };
    if complete(b) && !complete(a) {
        (s1, seq![EventV::ToolUseStart(b.id, b.name)])
    } else {
        (s1, Seq::empty())
    }
}

pub open spec fn tools_step(s: SseView, tcs: Seq<ToolCallV>) -> (SseView, Seq<EventV>)
    decreases tcs.len(),
{
    if tcs.len() == 0 {
        (s, Seq::empty())
    } else {
        let (s1, e1) = tools_step(s, tcs.drop_last());
        let (s2, e2) = tool_step(s1, tcs.last());
        (s2, e1 + e2)
    }
}

/// A delta: reasoning, then content, then tool calls.
pub open spec fn delta_step(s: SseView, d: DeltaV) -> (SseView, Seq<EventV>) {
    let (s1, e1) = reasoning_step(s, d.reasoning);
    let (s2, e2) = content_step(s1, d.content);
    let (s3, e3) = match d.tool_calls {
        Some(tcs) => tools_step(s2, tcs),
        None => (s2, Seq::empty()),
    };
    (s3, e1 + e2 + e3)
}

/// A chunk: its usage replaces the known usage; of its choices only the
/// first counts, whose finish reason is recorded and whose delta applied.
pub open spec fn chunk_step(s: SseView, c: ChunkV) -> (SseView, Seq<EventV>) {
    let s0 = match c.usage {
        Some(u) => SseView { usage: usage_of(u), ..s },
        None => s,
    };
    if c.choices.len() == 0 {
        (s0, Seq::empty())
    } else {
        let ch = c.choices[0];
        let s1 = match ch.finish_reason {
            Some(r) => SseView { stop_reason: Some(stop_from_openai(r)), ..s0 },
            None => s0,
        };
        match ch.delta {
            Some(d) => delta_step(s1, d),
            None => (s1, Seq::empty()),
        }
    }
}

// ---------------------------------------------------------------- one line, as specified

pub open spec fn bom() -> char {
    '\u{feff}'
}

pub open spec fn data_prefix() -> Seq<char> {
    seq!['d', 'a', 't', 'a', ':']
}

pub open spec fn done_marker() -> Seq<char> {
    seq!['[', 'D', 'O', 'N', 'E', ']']
}

/// The text whose presence marks a payload that may carry an error.
pub open spec fn error_marker() -> Seq<char> {
    seq!['"', 'e', 'r', 'r', 'o', 'r', '"']
}

/// The line without a leading byte-order mark.
pub open spec fn without_bom(line: Seq<char>) -> Seq<char> {
    if line.len() > 0 && line[0] == bom() {
        line.drop_first()
    } else {
        line
    }
}

/// The payload of a `data:` line, trimmed; `None` for any other line.
pub open spec fn line_payload(line: Seq<char>) -> Option<Seq<char>> {
    let l = without_bom(line);
    if starts_with(l, data_prefix()) {
        Some(trim(l.skip(5)))
    } else {
        None
    }
}

/// A payload: an error carried in the stream ends it with that error;
/// a chunk is applied; anything else is passed over.
pub open spec fn payload_step(s: SseView, data: Seq<char>) -> (SseView, Seq<EventV>, Option<AgentErrorV>) {
    match json_parse(data) {
        Some(v) => if contains_seq(data, error_marker()) && dec_stream_error(v) is Some {
            let (t, m) = dec_stream_error(v)->0;
            (s, Seq::empty(), Some(AgentErrorV::Api(stream_error_status(t), m)))
        } else {
            match dec_chunk(v) {
                Some(c) => {
                    let (s1, e1) = chunk_step(s, c);
                    (s1, e1, None)
                },
                None => (s, Seq::empty(), None),
            }
        },
        None => (s, Seq::empty(), None),
    }
}

/// The lines of a stream after `lines`: each ends at a line feed, which is
/// dropped together with a carriage return before it.
pub open spec fn first_newline(t: Seq<char>) -> Option<int> {
    if exists|k: int| 0 <= k < t.len() && t[k] == '\n' && forall|j: int| 0 <= j < k ==> t[j] != '\n' {
        Some(choose|k: int| 0 <= k < t.len() && t[k] == '\n' && forall|j: int| 0 <= j < k ==> t[j] != '\n')
    } else {
        None
    }
}

pub open spec fn strip_cr(l: Seq<char>) -> Seq<char> {
    if l.len() > 0 && l.last() == '\r' {
        l.drop_last()
    } else {
        l
    }
}

pub open spec fn lines(t: Seq<char>) -> Seq<Seq<char>>
    decreases t.len(),
{
    if t.len() == 0 {
        Seq::empty()
    } else {
        match first_newline(t) {
            Some(k) => if 0 <= k < t.len() {
                seq![strip_cr(t.take(k))] + lines(t.skip(k + 1))
            } else {
                Seq::empty()
            },
            None => seq![t],
        }
    }
}

/// One line: a line that is not `data:` is passed over, `[DONE]` ends the
/// stream (the last component), any other payload is applied.
pub open spec fn line_step(s: SseView, line: Seq<char>) -> (SseView, Seq<EventV>, Option<AgentErrorV>, bool) {
    match line_payload(line) {
        None => (s, Seq::empty(), None, false),
        Some(d) => if d == done_marker() {
            (s, Seq::empty(), None, true)
        } else {
            let (s1, e1, err) = payload_step(s, d);
            (s1, e1, err, false)
        },
    }
}

/// The stream run over `ls`: stops at `[DONE]` or at an error.
pub open spec fn run(s: SseView, ls: Seq<Seq<char>>) -> (SseView, Seq<EventV>, Option<AgentErrorV>)
    decreases ls.len(),
{
    if ls.len() == 0 {
        (s, Seq::empty(), None)
    } else {
        let (s1, e1, err, done) = line_step(s, ls[0]);
        if done || err is Some {
            (s1, e1, err)
        } else {
            let (s2, e2, err2) = run(s1, ls.drop_first());
            (s2, e1 + e2, err2)
        }
    }
}

// ---------------------------------------------------------------- the response, as specified

/// Name given to a tool call whose name never arrived.
pub open spec fn unknown_tool_name() -> Seq<char> {
    "maki_unknown_tool"@
}

/// Id given to the tool call at `idx` whose id never arrived.
pub open spec fn unnamed_tool_id(idx: int) -> Seq<char> {
    "maki_unnamed_"@ + decimal(idx as nat)
}

/// The tool-use block for the tool call at `idx`: its arguments parsed as
/// JSON, or an empty object where they are not JSON.
pub open spec fn tool_block(idx: int, a: AccV) -> BlockV {
    BlockV::ToolUse(
        if a.id.len() == 0 {
            unnamed_tool_id(idx)
        } else {
            a.id
        },
        if a.name.len() == 0 {
            unknown_tool_name()
        } else {
            a.name
        },
        match json_parse(a.arguments) {
            Some(v) => v,
            None => JsonV::Obj(Seq::empty()),
        },
    )
}

/// The content of the response: reasoning, text, then one tool use per tool
/// call in index order.
pub open spec fn response_blocks(s: SseView) -> Seq<BlockV> {
    (if s.reasoning.len() > 0 {
        seq![BlockV::Thinking(s.reasoning, None)]
    } else {
        Seq::empty()
    }) + (if s.text.len() > 0 {
        seq![BlockV::Text(s.text)]
    } else {
        Seq::empty()
    }) + Seq::new(s.tools.len(), |i: int| tool_block(i, s.tools[i]))
}

pub open spec fn empty_stream_message(r: Option<StopReason>) -> Seq<char> {
    "model returned empty stream (stop_reason: "@ + match r {
        Some(x) => stop_text(x),
        None => Seq::empty(),
    } + ")"@
}

// ---------------------------------------------------------------- executable

fn tool_accumulator_empty() -> (r: ToolAccumulator)
    ensures
        r@ == empty_acc(),
{
    ToolAccumulator { id: String::new(), name: String::new(), arguments: String::new() }
}

fn usage_from(u: ChunkUsage) -> (r: TokenUsage)
    ensures
        r == usage_of(u),
{
    let details = match u.prompt_tokens_details {
        Some(d) => d.cached_tokens,
        None => 0,
    };
    let cached = if details >= u.prompt_cache_hit_tokens {
        details
    } else {
        u.prompt_cache_hit_tokens
    };
    TokenUsage {
        input: u.prompt_tokens.saturating_sub(cached),
        output: u.completion_tokens,
        cache_read: cached,
        cache_creation: 0,
    }
}

fn is_empty_string(s: &String) -> (r: bool)
    ensures
        r == (s@.len() == 0),
{
    s.as_str().is_empty()
}

impl SseState {
    /// The state before any line.
    pub fn new() -> (r: SseState)
        ensures
            r@ == initial_view(),
    {
        let r = SseState {
            text: String::new(),
            reasoning_text: String::new(),
            tools: Vec::new(),
            usage: TokenUsage { input: 0, output: 0, cache_read: 0, cache_creation: 0 },
            stop_reason: None,
            is_first_content: true,
        };
        assert(r@.tools =~= Seq::<AccV>::empty());
        r
    }

    fn push_text_piece(&mut self, content: &String, events: &mut Vec<ProviderEvent>)
        ensures
            ({
                let (s1, e) = text_piece(old(self)@, content@);
                final(self)@ == s1 && event_views(final(events)@) == event_views(old(events)@) + e
            }),
    {
        let c = if self.is_first_content {
            trim_start_str(content.as_str())
        } else {
            content.clone()
        };
        self.is_first_content = false;
        let ghost ev0 = events@;
        if !is_empty_string(&c) {
            self.text.append(c.as_str());
            events.push(ProviderEvent::TextDelta { text: c });
            assert(event_views(events@) =~= event_views(ev0) + seq![events@.last()@]);
        } else {
            assert(event_views(events@) =~= event_views(ev0) + Seq::<EventV>::empty());
        }
    }

    fn push_thinking_piece(&mut self, content: &String, events: &mut Vec<ProviderEvent>)
        ensures
            ({
                let (s1, e) = thinking_piece(old(self)@, content@);
                final(self)@ == s1 && event_views(final(events)@) == event_views(old(events)@) + e
            }),
    {
        let ghost ev0 = events@;
        if !is_empty_string(content) {
            self.reasoning_text.append(content.as_str());
            events.push(ProviderEvent::ThinkingDelta { text: content.clone() });
            assert(event_views(events@) =~= event_views(ev0) + seq![events@.last()@]);
        } else {
            assert(event_views(events@) =~= event_views(ev0) + Seq::<EventV>::empty());
        }
    }

    fn push_thinkings(&mut self, ts: &Vec<ThinkingDelta>, events: &mut Vec<ProviderEvent>)
        ensures
            ({
                let (s1, e) = thinkings_step(old(self)@, thinking_views(ts@));
                final(self)@ == s1 && event_views(final(events)@) == event_views(old(events)@) + e
            }),
    {
        let ghost tv = thinking_views(ts@);
        let ghost s0 = self@;
        let ghost ev0 = event_views(events@);
        let mut i: usize = 0;
        while i < ts.len()
            invariant
                tv == thinking_views(ts@),
                i <= ts@.len(),
                ({
                    let (s1, e) = thinkings_step(s0, tv.take(i as int));
                    self@ == s1 && event_views(events@) == ev0 + e
                }),
            decreases ts.len() - i,
        {
            proof {
                assert(tv.take(i + 1).drop_last() =~= tv.take(i as int));
            }
            let ghost evb = event_views(events@);
            let piece = match &ts[i] {
                ThinkingDelta::Block(ThinkingDeltaBlock::Text { text }) => text,
                ThinkingDelta::String(text) => text,
            };
            self.push_thinking_piece(piece, events);
            proof {
                let (s1, e1) = thinkings_step(s0, tv.take(i as int));
                let (s2, e2) = thinking_piece(s1, thinking_text(tv[i as int]));
                assert(tv.take(i + 1).last() == tv[i as int]);
                assert(ev0 + e1 + e2 =~= ev0 + (e1 + e2));
            }
            i += 1;
        }
        assert(tv.take(ts@.len() as int) =~= tv);
    }

    fn push_parts(&mut self, ps: &Vec<ContentDeltaPart>, events: &mut Vec<ProviderEvent>)
        ensures
            ({
                let (s1, e) = parts_step(old(self)@, part_views(ps@));
                final(self)@ == s1 && event_views(final(events)@) == event_views(old(events)@) + e
            }),
    {
        let ghost pv = part_views(ps@);
        let ghost s0 = self@;
        let ghost ev0 = event_views(events@);
        let mut i: usize = 0;
        while i < ps.len()
            invariant
                pv == part_views(ps@),
                i <= ps@.len(),
                ({
                    let (s1, e) = parts_step(s0, pv.take(i as int));
                    self@ == s1 && event_views(events@) == ev0 + e
                }),
            decreases ps.len() - i,
        {
            proof {
                assert(pv.take(i + 1).drop_last() =~= pv.take(i as int));
                assert(pv.take(i + 1).last() == pv[i as int]);
            }
            match &ps[i] {
                ContentDeltaPart::Thinking { thinking } => {
                    self.push_thinkings(thinking, events);
                },
                ContentDeltaPart::Text { text } => {
                    self.push_text_piece(text, events);
                },
            }
            proof {
                let (s1, e1) = parts_step(s0, pv.take(i as int));
                let (s2, e2) = part_step(s1, pv[i as int]);
                assert(ev0 + e1 + e2 =~= ev0 + (e1 + e2));
            }
            i += 1;
        }
        assert(pv.take(ps@.len() as int) =~= pv);
    }

    fn apply_tool_delta(&mut self, tc: &ToolCallDelta, events: &mut Vec<ProviderEvent>)
        ensures
            ({
                let (s1, e) = tool_step(old(self)@, tc@);
                final(self)@ == s1 && event_views(final(events)@) == event_views(old(events)@) + e
            }),
    {
        let ghost s0 = self@;
        let idx = tc.index;
        while self.tools.len() <= idx
            invariant
                self@.text == s0.text,
                self@.reasoning == s0.reasoning,
                self@.usage == s0.usage,
                self@.stop_reason == s0.stop_reason,
                self@.first == s0.first,
                s0.tools.len() <= self@.tools.len(),
                self@.tools.take(s0.tools.len() as int) == s0.tools,
                forall|j: int|
                    s0.tools.len() <= j < self@.tools.len() ==> #[trigger] self@.tools[j]
                        == empty_acc(),
                s0.tools.len() <= idx ==> self@.tools.len() <= idx + 1,
                s0.tools.len() > idx ==> self@.tools == s0.tools,
            decreases idx + 1 - self.tools.len(),
        {
            let ghost before = self.tools@;
            self.tools.push(tool_accumulator_empty());
            assert(acc_views(self.tools@) =~= acc_views(before).push(empty_acc()));
        }
        proof {
            assert(self@.tools =~= padded(s0.tools, idx as int));
        }
        let ghost padded_tools = self@.tools;
        let mut acc = tool_accumulator_empty();
        std::mem::swap(&mut acc, &mut self.tools[idx]);
        let ghost a = acc@;
        assert(a == padded_tools[idx as int]);
        let was_complete = !is_empty_string(&acc.id) && !is_empty_string(&acc.name);
        if let Some(id) = &tc.id {
            if !is_empty_string(id) || is_empty_string(&acc.id) {
                acc.id = id.clone();
            }
        }
        if let Some(func) = &tc.function {
            if let Some(name) = &func.name {
                if !is_empty_string(name) || is_empty_string(&acc.name) {
                    acc.name = name.clone();
                }
            }
            if let Some(args) = &func.arguments {
                acc.arguments.append(args.as_str());
            }
        }
        if is_empty_string(&acc.name) {
            if let Some(name) = &tc.name {
                acc.name = name.clone();
            }
        }
        let ghost b = acc@;
        assert(b == acc_update(a, tc@));
        let now_complete = !is_empty_string(&acc.id) && !is_empty_string(&acc.name);
        let ghost ev0 = event_views(events@);
        if now_complete && !was_complete {
            let ghost evs = events@;
            events.push(ProviderEvent::ToolUseStart { id: acc.id.clone(), name: acc.name.clone() });
            assert(event_views(events@) =~= event_views(evs) + seq![EventV::ToolUseStart(b.id, b.name)]);
        } else {
            assert(event_views(events@) =~= ev0 + Seq::<EventV>::empty());
        }
        let ghost t_before = self.tools@;
        self.tools.set(idx, acc);
        proof {
            assert(acc_views(self.tools@) =~= padded_tools.update(idx as int, b));
        }
    }

    fn apply_tool_deltas(&mut self, tcs: &Vec<ToolCallDelta>, events: &mut Vec<ProviderEvent>)
        ensures
            ({
                let (s1, e) = tools_step(old(self)@, tool_call_views(tcs@));
                final(self)@ == s1 && event_views(final(events)@) == event_views(old(events)@) + e
            }),
    {
        let ghost tv = tool_call_views(tcs@);
        let ghost s0 = self@;
        let ghost ev0 = event_views(events@);
        let mut i: usize = 0;
        while i < tcs.len()
            invariant
                tv == tool_call_views(tcs@),
                i <= tcs@.len(),
                ({
                    let (s1, e) = tools_step(s0, tv.take(i as int));
                    self@ == s1 && event_views(events@) == ev0 + e
                }),
            decreases tcs.len() - i,
        {
            proof {
                assert(tv.take(i + 1).drop_last() =~= tv.take(i as int));
                assert(tv.take(i + 1).last() == tv[i as int]);
            }
            self.apply_tool_delta(&tcs[i], events);
            proof {
                let (s1, e1) = tools_step(s0, tv.take(i as int));
                let (s2, e2) = tool_step(s1, tv[i as int]);
                assert(ev0 + e1 + e2 =~= ev0 + (e1 + e2));
            }
            i += 1;
        }
        assert(tv.take(tcs@.len() as int) =~= tv);
    }

    /// Applies one decoded chunk; returns the events it sends, in order.
    pub fn apply_chunk(&mut self, chunk: SseChunk) -> (events: Vec<ProviderEvent>)
        ensures
            ({
                let (s1, e) = chunk_step(old(self)@, chunk@);
                final(self)@ == s1 && event_views(events@) == e
            }),
    {
        let mut events: Vec<ProviderEvent> = Vec::new();
        assert(event_views(events@) =~= Seq::<EventV>::empty());
        if let Some(u) = chunk.usage {
            self.usage = usage_from(u);
        }
        if chunk.choices.len() == 0 {
            return events;
        }
        let choice = &chunk.choices[0];
        if let Some(reason) = &choice.finish_reason {
            self.stop_reason = Some(StopReason::from_openai(reason.as_str()));
        }
        let delta = match &choice.delta {
            Some(d) => d,
            None => return events,
        };
        let ghost s1 = self@;
        if let Some(r) = &delta.reasoning_content {
            self.push_thinking_piece(r, &mut events);
        }
        let ghost s2 = self@;
        let ghost e1 = event_views(events@);
        match &delta.content {
            Some(ContentDelta::String(c)) => {
                if !is_empty_string(c) {
                    self.push_text_piece(c, &mut events);
                }
            },
            Some(ContentDelta::Array(parts)) => {
                self.push_parts(parts, &mut events);
            },
            None => {},
        }
        let ghost e2 = event_views(events@);
        if let Some(tcs) = &delta.tool_calls {
            self.apply_tool_deltas(tcs, &mut events);
        }
        proof {
            let dv = delta@;
            let (a1, x1) = reasoning_step(s1, dv.reasoning);
            let (a2, x2) = content_step(a1, dv.content);
            assert(e1 == x1);
            assert(e2 == x1 + x2);
            match dv.tool_calls {
                Some(t) => {
                    let (a3, x3) = tools_step(a2, t);
                    assert(event_views(events@) =~= x1 + x2 + x3);
                },
                None => {
                    assert(event_views(events@) =~= x1 + x2 + Seq::<EventV>::empty());
                },
            }
        }
        events
    }
}


/// What a line of the stream is.
pub enum SseLine {
    /// Not a `data:` line.
    Skip,
    /// The `[DONE]` marker.
    Done,
    /// The trimmed payload of a `data:` line.
    Data(String),
}

/// Classifies a line: a leading byte-order mark is ignored, the payload
/// after `data:` is trimmed.
pub fn classify_sse_line(line: &str) -> (r: SseLine)
    ensures
        match r {
            SseLine::Skip => line_payload(line@) is None,
            SseLine::Done => line_payload(line@) == Some(done_marker()),
            SseLine::Data(d) => line_payload(line@) == Some(d@) && d@ != done_marker(),
        },
{
    let v = chars_of(line);
    let body: &str = if v.len() > 0 && v[0] == '\u{feff}' {
        line.substring_char(1, v.len())
    } else {
        line
    };
    assert(body@ == without_bom(line@));
    let bv = chars_of(body);
    let prefix = vec!['d', 'a', 't', 'a', ':'];
    assert(prefix@ =~= data_prefix());
    if !chars_start_with(&bv, &prefix) {
        return SseLine::Skip;
    }
    let d = trim_str(body.substring_char(5, bv.len()));
    let done = vec!['[', 'D', 'O', 'N', 'E', ']'];
    assert(done@ =~= done_marker());
    if chars_equal(&chars_of(d.as_str()), &done) {
        SseLine::Done
    } else {
        SseLine::Data(d)
    }
}

/// Whether a payload holds the text `"error"` (with its quotes).
pub fn mentions_error(data: &str) -> (r: bool)
    ensures
        r == contains_seq(data@, error_marker()),
{
    let marker = vec!['"', 'e', 'r', 'r', 'o', 'r', '"'];
    assert(marker@ =~= error_marker());
    chars_contain(&chars_of(data), &marker)
}

proof fn lemma_lines_at_newline(t: Seq<char>, start: int, i: int)
    requires
        0 <= start <= i < t.len(),
        t[i] == '\n',
        forall|j: int| start <= j < i ==> #[trigger] t[j] != '\n',
    ensures
        lines(t.skip(start)) == seq![strip_cr(t.subrange(start, i))] + lines(t.skip(i + 1)),
{
    let tail = t.skip(start);
    let k = i - start;
    assert(tail[k] == '\n');
    assert forall|j: int| 0 <= j < k implies tail[j] != '\n' by {
        assert(tail[j] == t[start + j]);
    }
    let c = choose|c: int|
        0 <= c < tail.len() && tail[c] == '\n' && forall|j: int| 0 <= j < c ==> tail[j] != '\n';
    assert(c == k) by {
        if c < k {
            assert(tail[c] != '\n');
        }
        if c > k {
            assert(tail[k] != '\n');
        }
    }
    assert(first_newline(tail) == Some(k));
    assert(tail.skip(k + 1) =~= t.skip(i + 1));
    assert(tail.take(k) =~= t.subrange(start, i));
}

proof fn lemma_lines_last(t: Seq<char>, start: int)
    requires
        0 <= start < t.len(),
        forall|j: int| start <= j < t.len() ==> #[trigger] t[j] != '\n',
    ensures
        lines(t.skip(start)) == seq![t.subrange(start, t.len() as int)],
{
    let tail = t.skip(start);
    assert forall|c: int| 0 <= c < tail.len() implies tail[c] != '\n' by {
        assert(tail[c] == t[start + c]);
    }
    assert(first_newline(tail) is None);
    assert(tail =~= t.subrange(start, t.len() as int));
}

/// The lines of a text as a line reader yields them: split at line feeds,
/// each line feed dropped with a carriage return before it; text after the
/// last line feed is a last line.
pub fn split_lines(text: &str) -> (r: Vec<String>)
    ensures
        string_views(r@) == lines(text@),
{
    let v = chars_of(text);
    let n = v.len();
    let mut out: Vec<String> = Vec::new();
    let mut start: usize = 0;
    let mut i: usize = 0;
    let ghost t = text@;
    assert(t.skip(0) =~= t);
    assert(string_views(out@) + lines(t) =~= lines(t));
    while i < n
        invariant
            t == text@,
            v@ == t,
            n == t.len(),
            start <= i <= n,
            forall|j: int| start <= j < i ==> #[trigger] t[j] != '\n',
            lines(t) == string_views(out@) + lines(t.skip(start as int)),
        decreases n - i,
    {
        if v[i] == '\n' {
            proof {
                lemma_lines_at_newline(t, start as int, i as int);
            }
            let piece = text.substring_char(start, i);
            let line = strip_trailing_cr(piece);
            let ghost before = out@;
            out.push(line);
            proof {
                assert(string_views(out@) =~= string_views(before).push(strip_cr(t.subrange(start as int, i as int))));
                assert(lines(t) =~= string_views(out@) + lines(t.skip(i + 1)));
            }
            start = i + 1;
        }
        i += 1;
    }
    if start < n {
        proof {
            lemma_lines_last(t, start as int);
        }
        let piece = text.substring_char(start, n);
        let ghost before = out@;
        out.push(String::from_str(piece));
        proof {
            assert(string_views(out@) =~= string_views(before).push(t.subrange(start as int, n as int)));
            assert(lines(t) =~= string_views(out@));
        }
    } else {
        proof {
            assert(t.skip(start as int) =~= Seq::<char>::empty());
            assert(lines(t) =~= string_views(out@));
        }
    }
    out
}

fn strip_trailing_cr(piece: &str) -> (r: String)
    ensures
        r@ == strip_cr(piece@),
{
    let pv = chars_of(piece);
    if pv.len() > 0 && pv[pv.len() - 1] == '\r' {
        let r = String::from_str(piece.substring_char(0, pv.len() - 1));
        assert(r@ =~= piece@.drop_last());
        r
    } else {
        String::from_str(piece)
    }
}

/// What a line led to.
pub enum LineOutcome {
    /// The stream goes on; these events were sent.
    Continue(Vec<ProviderEvent>),
    /// The stream is complete.
    Done,
}

impl SseState {
    /// Applies the payload of a `data:` line: a stream error ends the stream
    /// with that error; a chunk is applied; anything else is passed over.
    pub fn apply_payload(&mut self, data: &str) -> (r: Result<Vec<ProviderEvent>, AgentError>)
        ensures
            ({
                let (s1, e, err) = payload_step(old(self)@, data@);
                &&& final(self)@ == s1
                &&& match r {
                    Ok(events) => err is None && event_views(events@) == e,
                    Err(x) => err == Some(x@) && e.len() == 0,
                }
            }),
    {
        let none: Vec<ProviderEvent> = Vec::new();
        assert(event_views(none@) =~= Seq::<EventV>::empty());
        let parsed = match parse_json(data) {
            Ok(j) => j,
            Err(_) => return Ok(none),
        };
        if mentions_error(data) {
            if let Some((kind, message)) = decode_stream_error(&parsed) {
                return Err(stream_error(kind.as_str(), message));
            }
        }
        match decode_chunk(&parsed) {
            Some(c) => Ok(self.apply_chunk(c)),
            None => Ok(none),
        }
    }

    /// Applies one line of the stream.
    pub fn apply_line(&mut self, line: &str) -> (r: Result<LineOutcome, AgentError>)
        ensures
            ({
                let (s1, e, err, done) = line_step(old(self)@, line@);
                &&& final(self)@ == s1
                &&& match r {
                    Ok(LineOutcome::Continue(events)) => err is None && !done && event_views(events@) == e,
                    Ok(LineOutcome::Done) => err is None && done && e.len() == 0,
                    Err(x) => err == Some(x@) && e.len() == 0,
                }
            }),
    {
        match classify_sse_line(line) {
            SseLine::Skip => {
                let none: Vec<ProviderEvent> = Vec::new();
                assert(event_views(none@) =~= Seq::<EventV>::empty());
                Ok(LineOutcome::Continue(none))
            },
            SseLine::Done => Ok(LineOutcome::Done),
            SseLine::Data(d) => match self.apply_payload(d.as_str()) {
                Ok(events) => Ok(LineOutcome::Continue(events)),
                Err(e) => Err(e),
            },
        }
    }

    /// Ends the stream: the response holds the reasoning, the text and one
    /// tool use per tool call; a stream that brought none of these is an
    /// error with status 502, so that the request can be retried.
    pub fn finish(self) -> (r: Result<StreamResponse, AgentError>)
        ensures
            match r {
                Ok(resp) => {
                    &&& response_blocks(self@).len() > 0
                    &&& resp.message@ == (MessageV { role: Role::Assistant, content: response_blocks(self@) })
                    &&& resp.usage == self@.usage
                    &&& resp.stop_reason == self@.stop_reason
                },
                Err(e) => {
                    &&& response_blocks(self@).len() == 0
                    &&& e@ == AgentErrorV::Api(502, empty_stream_message(self@.stop_reason))
                },
            },
    {
        let ghost sv = self@;
        let SseState { text, reasoning_text, tools, usage, stop_reason, is_first_content } = self;
        let mut blocks: Vec<ContentBlock> = Vec::new();
        if !is_empty_string(&reasoning_text) {
            blocks.push(ContentBlock::Thinking { thinking: reasoning_text, signature: None });
        }
        if !is_empty_string(&text) {
            blocks.push(ContentBlock::Text { text });
        }
        let ghost head = (if sv.reasoning.len() > 0 {
            seq![BlockV::Thinking(sv.reasoning, None)]
        } else {
            Seq::empty()
        }) + (if sv.text.len() > 0 {
            seq![BlockV::Text(sv.text)]
        } else {
            Seq::empty()
        });
        assert(block_views(blocks@) =~= head);
        let ghost all_tools = Seq::new(sv.tools.len(), |i: int| tool_block(i, sv.tools[i]));
        let mut idx: usize = 0;
        while idx < tools.len()
            invariant
                sv.tools == acc_views(tools@),
                all_tools == Seq::new(sv.tools.len(), |i: int| tool_block(i, sv.tools[i])),
                idx <= tools@.len(),
                block_views(blocks@) == head + all_tools.take(idx as int),
            decreases tools.len() - idx,
        {
            let acc = &tools[idx];
            let input = match parse_json(acc.arguments.as_str()) {
                Ok(v) => v,
                Err(_) => Json::empty_object(),
            };
            let id = if is_empty_string(&acc.id) {
                let mut s = String::from_str("maki_unnamed_");
                s.append(decimal_string(idx).as_str());
                s
            } else {
                acc.id.clone()
            };
            let name = if is_empty_string(&acc.name) {
                String::from_str("maki_unknown_tool")
            } else {
                acc.name.clone()
            };
            let ghost before = blocks@;
            blocks.push(ContentBlock::ToolUse { id, name, input });
            proof {
                assert(blocks@.last()@ == tool_block(idx as int, sv.tools[idx as int]));
                assert(block_views(blocks@) =~= block_views(before).push(blocks@.last()@));
                assert(all_tools.take(idx + 1) =~= all_tools.take(idx as int).push(all_tools[idx as int]));
            }
            idx += 1;
        }
        assert(all_tools.take(tools@.len() as int) =~= all_tools);
        assert(block_views(blocks@) =~= response_blocks(sv));
        if blocks.len() == 0 {
            let mut message = String::from_str("model returned empty stream (stop_reason: ");
            match &stop_reason {
                Some(reason) => message.append(reason.as_str()),
                None => {},
            }
            message.append(")");
            proof {
                assert(message@ =~= empty_stream_message(sv.stop_reason));
            }
            return Err(AgentError::Api { status: 502, message });
        }
        Ok(
            StreamResponse {
                message: Message { role: Role::Assistant, content: blocks },
                usage,
                stop_reason,
            },
        )
    }
}

/// Decodes a whole stream held as text: the lines are applied in order
/// until `[DONE]`, an error, or the end of the text; then the response is
/// assembled. Returns the outcome and the events sent on the way.
pub fn parse_sse_text(text: &str) -> (r: (Result<StreamResponse, AgentError>, Vec<ProviderEvent>))
    ensures
        ({
            let (sf, ef, err) = run(initial_view(), lines(text@));
            &&& event_views(r.1@) == ef
            &&& match err {
                Some(e) => r.0 matches Err(x) && x@ == e,
                None => match r.0 {
                    Ok(resp) => {
                        &&& response_blocks(sf).len() > 0
                        &&& resp.message@ == (MessageV { role: Role::Assistant, content: response_blocks(sf) })
                        &&& resp.usage == sf.usage
                        &&& resp.stop_reason == sf.stop_reason
                    },
                    Err(x) => response_blocks(sf).len() == 0 && x@ == AgentErrorV::Api(
                        502,
                        empty_stream_message(sf.stop_reason),
                    ),
                },
            }
        }),
{
    let ls = split_lines(text);
    let ghost lv = lines(text@);
    let mut state = SseState::new();
    let mut events: Vec<ProviderEvent> = Vec::new();
    let mut i: usize = 0;
    assert(lv.skip(0) =~= lv);
    assert(event_views(events@) =~= Seq::<EventV>::empty());
    while i < ls.len()
        invariant
            lv == lines(text@),
            string_views(ls@) == lv,
            i <= ls@.len(),
            ({
                let (sf, ef, err) = run(initial_view(), lv);
                let (s2, e2, err2) = run(state@, lv.skip(i as int));
                &&& sf == s2
                &&& ef == event_views(events@) + e2
                &&& err == err2
            }),
        decreases ls.len() - i,
    {
        let ghost s0 = state@;
        let ghost ev0 = event_views(events@);
        proof {
            assert(ls@[i as int]@ == lv[i as int]);
            assert(lv.skip(i as int)[0] == lv[i as int]);
            assert(lv.skip(i as int).drop_first() =~= lv.skip(i + 1));
        }
        match state.apply_line(ls[i].as_str()) {
            Ok(LineOutcome::Continue(evs)) => {
                let mut evs = evs;
                let ghost ev1 = event_views(evs@);
                events.append(&mut evs);
                proof {
                    let (s1, e1, err, done) = line_step(s0, lv[i as int]);
                    let (s2, e2, err2) = run(s1, lv.skip(i + 1));
                    assert(event_views(events@) =~= ev0 + e1);
                    assert(ev0 + (e1 + e2) =~= ev0 + e1 + e2);
                }
            },
            Ok(LineOutcome::Done) => {
                proof {
                    assert(run(s0, lv.skip(i as int)).1 =~= Seq::<EventV>::empty());
                    assert(ev0 + Seq::<EventV>::empty() =~= ev0);
                }
                return (state.finish(), events);
            },
            Err(e) => {
                proof {
                    assert(ev0 + Seq::<EventV>::empty() =~= ev0);
                }
                return (Err(e), events);
            },
        }
        i += 1;
    }
    proof {
        assert(lv.skip(i as int) =~= Seq::<Seq<char>>::empty());
        assert(event_views(events@) + Seq::<EventV>::empty() =~= event_views(events@));
    }
    (state.finish(), events)
}

} // verus!
