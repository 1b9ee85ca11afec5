//! Properties that hold across calls: the text the UI is sent is the text
//! of the response, a known tool id or name is never lost, the start of a
//! tool is announced once, nothing after `[DONE]` counts, lines the stream
//! passes over and byte-order marks change nothing, and conversations are
//! converted message by message.
use vstd::prelude::*;
use crate::chunk::{ChunkUsage, ChunkV, DeltaV, PartV, ThinkingV, ToolCallV};
use crate::sse::{
    AccV, SseView, acc_update, bom, chunk_step, complete, content_step, delta_step,
    done_marker, empty_acc, error_marker, initial_view, line_payload, line_step, lines, padded,
    part_step, parts_step, payload_step, reasoning_step, response_blocks, run, text_piece,
    thinking_piece, thinking_text, thinkings_step, tool_step, tools_step, usage_of,
};
use crate::chunk::{dec_chunk, dec_stream_error};
use crate::text::contains_seq;
use crate::types::{BlockV, EventV};
use crate::json::{JsonNumberV, JsonV, as_array, as_str, as_u64, first_key_at, get, index, json_parse, lookup, set_member};
use crate::provider::{context_window_of, effective_base_url, request_body, to_u32};
use crate::types::{StopReason, stop_from_openai};
use crate::convert::{image_parts, text_parts, tool_entry};
use crate::convert::{
    assistant_text, tool_entries, tool_message, tool_messages, wire_all, wire_assistant,
    wire_messages, wire_tools, wire_user,
};
use crate::types::MessageV;

verus! {

/// The text sent in `TextDelta` events, concatenated.
pub open spec fn delta_text(es: Seq<EventV>) -> Seq<char>
    decreases es.len(),
{
    if es.len() == 0 {
        Seq::empty()
    } else {
        delta_text(es.drop_last()) + match es.last() {
            EventV::TextDelta(t) => t,
            _ => Seq::empty(),
        }
    }
}

/// The text sent in `ThinkingDelta` events, concatenated.
pub open spec fn delta_thinking(es: Seq<EventV>) -> Seq<char>
    decreases es.len(),
{
    if es.len() == 0 {
        Seq::empty()
    } else {
        delta_thinking(es.drop_last()) + match es.last() {
            EventV::ThinkingDelta(t) => t,
            _ => Seq::empty(),
        }
    }
}

/// The number of `ToolUseStart` events.
pub open spec fn start_count(es: Seq<EventV>) -> nat
    decreases es.len(),
{
    if es.len() == 0 {
        0
    } else {
        start_count(es.drop_last()) + if es.last() is ToolUseStart {
            1nat
        } else {
            0nat
        }
    }
}

/// Every `ToolUseStart` event names a non-empty id and a non-empty name.
pub open spec fn starts_named(es: Seq<EventV>) -> bool {
    forall|i: int|
        0 <= i < es.len() ==> match #[trigger] es[i] {
            EventV::ToolUseStart(id, name) => id.len() > 0 && name.len() > 0,
            _ => true,
        }
}

/// The number of tool calls whose id and name are both known.
pub open spec fn complete_count(tools: Seq<AccV>) -> nat
    decreases tools.len(),
{
    if tools.len() == 0 {
        0
    } else {
        complete_count(tools.drop_last()) + if complete(tools.last()) {
            1nat
        } else {
            0nat
        }
    }
}

/// `b` keeps what `a` knew: a known id or name stays known, argument text
/// only grows.
pub open spec fn keeps(a: AccV, b: AccV) -> bool {
    &&& a.id.len() > 0 ==> b.id.len() > 0
    &&& a.name.len() > 0 ==> b.name.len() > 0
    &&& a.arguments.len() <= b.arguments.len()
    &&& b.arguments.take(a.arguments.len() as int) == a.arguments
}

/// What every step of decoding keeps, from `s` to `t` sending `es`.
pub open spec fn step_ok(s: SseView, t: SseView, es: Seq<EventV>) -> bool {
    &&& t.text == s.text + delta_text(es)
    &&& t.reasoning == s.reasoning + delta_thinking(es)
    &&& s.tools.len() <= t.tools.len()
    &&& forall|i: int| 0 <= i < s.tools.len() ==> keeps(#[trigger] s.tools[i], t.tools[i])
    &&& complete_count(t.tools) == complete_count(s.tools) + start_count(es)
    &&& starts_named(es)
}

proof fn lemma_event_sums_append(a: Seq<EventV>, b: Seq<EventV>)
    ensures
        delta_text(a + b) == delta_text(a) + delta_text(b),
        delta_thinking(a + b) == delta_thinking(a) + delta_thinking(b),
        start_count(a + b) == start_count(a) + start_count(b),
        starts_named(a) && starts_named(b) ==> starts_named(a + b),
    decreases b.len(),
{
    if b.len() == 0 {
        assert(a + b =~= a);
    } else {
        lemma_event_sums_append(a, b.drop_last());
        assert((a + b).drop_last() =~= a + b.drop_last());
        assert((a + b).last() == b.last());
    }
    if starts_named(a) && starts_named(b) {
        assert forall|i: int| 0 <= i < (a + b).len() implies match #[trigger] (a + b)[i] {
            EventV::ToolUseStart(id, name) => id.len() > 0 && name.len() > 0,
            _ => true,
        } by {
            if i < a.len() {
                assert((a + b)[i] == a[i]);
            } else {
                assert((a + b)[i] == b[i - a.len()]);
            }
        }
    }
}

proof fn lemma_step_ok_refl(s: SseView)
    ensures
        step_ok(s, s, Seq::empty()),
{
    assert(s.text + Seq::<char>::empty() =~= s.text);
    assert(s.reasoning + Seq::<char>::empty() =~= s.reasoning);
    assert forall|i: int| 0 <= i < s.tools.len() implies keeps(#[trigger] s.tools[i], s.tools[i]) by {
        assert(s.tools[i].arguments.take(s.tools[i].arguments.len() as int) =~= s.tools[i].arguments);
    }
}

proof fn lemma_step_ok_trans(s1: SseView, s2: SseView, s3: SseView, e1: Seq<EventV>, e2: Seq<EventV>)
    requires
        step_ok(s1, s2, e1),
        step_ok(s2, s3, e2),
    ensures
        step_ok(s1, s3, e1 + e2),
{
    lemma_event_sums_append(e1, e2);
    assert(s1.text + delta_text(e1) + delta_text(e2) =~= s1.text + (delta_text(e1) + delta_text(e2)));
    assert(s1.reasoning + delta_thinking(e1) + delta_thinking(e2) =~= s1.reasoning + (
    delta_thinking(e1) + delta_thinking(e2)));
    assert forall|i: int| 0 <= i < s1.tools.len() implies keeps(#[trigger] s1.tools[i], s3.tools[i]) by {
        let a = s1.tools[i];
        let b = s2.tools[i];
        let c = s3.tools[i];
        assert(keeps(a, b));
        assert(keeps(b, c));
        assert(c.arguments.take(a.arguments.len() as int) =~= c.arguments.take(
            b.arguments.len() as int,
        ).take(a.arguments.len() as int));
    }
}

proof fn lemma_text_piece(s: SseView, c: Seq<char>)
    ensures
        step_ok(s, text_piece(s, c).0, text_piece(s, c).1),
{
    let (t, es) = text_piece(s, c);
    lemma_step_ok_refl(s);
    if es.len() > 0 {
        assert(es.drop_last() =~= Seq::<EventV>::empty());
    }
}

proof fn lemma_thinking_piece(s: SseView, c: Seq<char>)
    ensures
        step_ok(s, thinking_piece(s, c).0, thinking_piece(s, c).1),
{
    lemma_step_ok_refl(s);
    let (t, es) = thinking_piece(s, c);
    if es.len() > 0 {
        assert(es.drop_last() =~= Seq::<EventV>::empty());
    }
}

proof fn lemma_thinkings(s: SseView, ts: Seq<ThinkingV>)
    ensures
        step_ok(s, thinkings_step(s, ts).0, thinkings_step(s, ts).1),
    decreases ts.len(),
{
    if ts.len() == 0 {
        lemma_step_ok_refl(s);
    } else {
        let (s1, e1) = thinkings_step(s, ts.drop_last());
        lemma_thinkings(s, ts.drop_last());
        lemma_thinking_piece(s1, thinking_text(ts.last()));
        let (s2, e2) = thinking_piece(s1, thinking_text(ts.last()));
        lemma_step_ok_trans(s, s1, s2, e1, e2);
    }
}

proof fn lemma_parts(s: SseView, ps: Seq<PartV>)
    ensures
        step_ok(s, parts_step(s, ps).0, parts_step(s, ps).1),
    decreases ps.len(),
{
    if ps.len() == 0 {
        lemma_step_ok_refl(s);
    } else {
        let (s1, e1) = parts_step(s, ps.drop_last());
        lemma_parts(s, ps.drop_last());
        match ps.last() {
            PartV::Thinking(ts) => lemma_thinkings(s1, ts),
            PartV::Text(t) => lemma_text_piece(s1, t),
        }
        let (s2, e2) = part_step(s1, ps.last());
        lemma_step_ok_trans(s, s1, s2, e1, e2);
    }
}

proof fn lemma_complete_count_push_empty(tools: Seq<AccV>, k: nat)
    ensures
        complete_count(tools + Seq::new(k, |i: int| empty_acc())) == complete_count(tools),
    decreases k,
{
    let ext = tools + Seq::new(k, |i: int| empty_acc());
    if k == 0 {
        assert(ext =~= tools);
    } else {
        let shorter = tools + Seq::new((k - 1) as nat, |i: int| empty_acc());
        assert(ext.drop_last() =~= shorter);
        lemma_complete_count_push_empty(tools, (k - 1) as nat);
    }
}

proof fn lemma_complete_count_update(tools: Seq<AccV>, j: int, x: AccV)
    requires
        0 <= j < tools.len(),
    ensures
        complete_count(tools.update(j, x)) + (if complete(tools[j]) {
            1int
        } else {
            0int
        }) == complete_count(tools) + (if complete(x) {
            1int
        } else {
            0int
        }),
    decreases tools.len(),
{
    let u = tools.update(j, x);
    if j == tools.len() - 1 {
        assert(u.drop_last() =~= tools.drop_last());
    } else {
        lemma_complete_count_update(tools.drop_last(), j, x);
        assert(u.drop_last() =~= tools.drop_last().update(j, x));
    }
}

proof fn lemma_acc_update_keeps(a: AccV, tc: ToolCallV)
    ensures
        keeps(a, acc_update(a, tc)),
{
    let b = acc_update(a, tc);
    assert(b.arguments.take(a.arguments.len() as int) =~= a.arguments);
}

proof fn lemma_tool_step(s: SseView, tc: ToolCallV)
    ensures
        step_ok(s, tool_step(s, tc).0, tool_step(s, tc).1),
{
    let idx = tc.index as int;
    let tools = padded(s.tools, idx);
    let a = tools[idx];
    let b = acc_update(a, tc);
    let (t, es) = tool_step(s, tc);
    lemma_acc_update_keeps(a, tc);
    assert(s.text + Seq::<char>::empty() =~= s.text);
    assert(s.reasoning + Seq::<char>::empty() =~= s.reasoning);
    if idx >= s.tools.len() {
        lemma_complete_count_push_empty(s.tools, (idx + 1 - s.tools.len()) as nat);
    }
    assert(complete_count(tools) == complete_count(s.tools));
    lemma_complete_count_update(tools, idx, b);
    assert forall|i: int| 0 <= i < s.tools.len() implies keeps(#[trigger] s.tools[i], t.tools[i]) by {
        assert(tools[i] == s.tools[i]);
        if i != idx {
            assert(t.tools[i] == s.tools[i]);
            assert(s.tools[i].arguments.take(s.tools[i].arguments.len() as int)
                =~= s.tools[i].arguments);
        }
    }
    assert(start_count(Seq::<EventV>::empty()) == 0);
    assert(delta_text(Seq::<EventV>::empty()) == Seq::<char>::empty());
    assert(delta_thinking(Seq::<EventV>::empty()) == Seq::<char>::empty());
    if es.len() > 0 {
        assert(es.drop_last() =~= Seq::<EventV>::empty());
        assert(delta_text(es) =~= Seq::<char>::empty());
        assert(delta_thinking(es) =~= Seq::<char>::empty());
        assert forall|i: int| 0 <= i < es.len() implies match #[trigger] es[i] {
            EventV::ToolUseStart(id, name) => id.len() > 0 && name.len() > 0,
            _ => true,
        } by {
            assert(i == 0);
        }
        assert(start_count(es) == 1);
    } else {
        assert(start_count(es) == 0);
    }
    assert(t.tools == tools.update(idx, b));
    assert(complete(a) ==> complete(b));
    assert(complete_count(t.tools) == complete_count(s.tools) + start_count(es));
    assert(s.text + delta_text(es) =~= s.text);
    assert(s.reasoning + delta_thinking(es) =~= s.reasoning);
    assert(t.text == s.text + delta_text(es));
    assert(t.reasoning == s.reasoning + delta_thinking(es));
    assert(starts_named(es));
}

proof fn lemma_tools(s: SseView, tcs: Seq<ToolCallV>)
    ensures
        step_ok(s, tools_step(s, tcs).0, tools_step(s, tcs).1),
    decreases tcs.len(),
{
    if tcs.len() == 0 {
        lemma_step_ok_refl(s);
    } else {
        let (s1, e1) = tools_step(s, tcs.drop_last());
        lemma_tools(s, tcs.drop_last());
        lemma_tool_step(s1, tcs.last());
        let (s2, e2) = tool_step(s1, tcs.last());
        lemma_step_ok_trans(s, s1, s2, e1, e2);
    }
}

proof fn lemma_delta(s: SseView, d: DeltaV)
    ensures
        step_ok(s, delta_step(s, d).0, delta_step(s, d).1),
{
    let (s1, e1) = reasoning_step(s, d.reasoning);
    match d.reasoning {
        Some(t) => lemma_thinking_piece(s, t),
        None => lemma_step_ok_refl(s),
    }
    let (s2, e2) = content_step(s1, d.content);
    match d.content {
        Some(crate::chunk::ContentV::Str(t)) => if t.len() > 0 {
            lemma_text_piece(s1, t);
        } else {
            lemma_step_ok_refl(s1);
        },
        Some(crate::chunk::ContentV::Array(ps)) => lemma_parts(s1, ps),
        None => lemma_step_ok_refl(s1),
    }
    lemma_step_ok_trans(s, s1, s2, e1, e2);
    match d.tool_calls {
        Some(tcs) => lemma_tools(s2, tcs),
        None => lemma_step_ok_refl(s2),
    }
    let (s3, e3) = match d.tool_calls {
        Some(tcs) => tools_step(s2, tcs),
        None => (s2, Seq::empty()),
    };
    lemma_step_ok_trans(s, s2, s3, e1 + e2, e3);
}

/// Applying a chunk appends to the text exactly what it sends as text
/// deltas and to the reasoning what it sends as thinking deltas, loses no
/// known tool id or name, and announces each tool whose id and name become
/// known, once, with both non-empty.
pub proof fn law_chunk_step(s: SseView, c: ChunkV)
    ensures
        step_ok(s, chunk_step(s, c).0, chunk_step(s, c).1),
{
    let s0 = match c.usage {
        Some(u) => SseView { usage: usage_of(u), ..s },
        None => s,
    };
    lemma_step_ok_refl(s);
    if c.choices.len() > 0 {
        let ch = c.choices[0];
        let s1 = match ch.finish_reason {
            Some(r) => SseView { stop_reason: Some(crate::types::stop_from_openai(r)), ..s0 },
            None => s0,
        };
        match ch.delta {
            Some(d) => {
                lemma_delta(s1, d);
            },
            None => {},
        }
    }
}

proof fn lemma_line_step(s: SseView, line: Seq<char>)
    ensures
        step_ok(s, line_step(s, line).0, line_step(s, line).1),
{
    lemma_step_ok_refl(s);
    match line_payload(line) {
        Some(d) => if d != done_marker() {
            match crate::json::json_parse(d) {
                Some(v) => if !(crate::text::contains_seq(d, crate::sse::error_marker())
                    && crate::chunk::dec_stream_error(v) is Some) {
                    match crate::chunk::dec_chunk(v) {
                        Some(c) => law_chunk_step(s, c),
                        None => {},
                    }
                },
                None => {},
            }
        },
        None => {},
    }
}

/// Over a whole run of lines the same holds: the final text is the text
/// sent, the final reasoning is the reasoning sent, and the number of tool
/// starts announced is the number of tool calls that became complete.
pub proof fn law_run(s: SseView, ls: Seq<Seq<char>>)
    ensures
        step_ok(s, run(s, ls).0, run(s, ls).1),
    decreases ls.len(),
{
    if ls.len() == 0 {
        lemma_step_ok_refl(s);
    } else {
        let (s1, e1, err, done) = line_step(s, ls[0]);
        lemma_line_step(s, ls[0]);
        if !(done || err is Some) {
            law_run(s1, ls.drop_first());
            let (s2, e2, err2) = run(s1, ls.drop_first());
            lemma_step_ok_trans(s, s1, s2, e1, e2);
        }
    }
}

proof fn lemma_complete_count_le(tools: Seq<AccV>)
    ensures
        complete_count(tools) <= tools.len(),
    decreases tools.len(),
{
    if tools.len() > 0 {
        lemma_complete_count_le(tools.drop_last());
    }
}

/// For a whole stream held as text: the visible text of the outcome is
/// everything sent as text deltas, the reasoning everything sent as
/// thinking deltas, and each tool call is announced at most once (exactly
/// once where its id and name both arrived), always with a non-empty id and
/// name.
pub proof fn law_stream_text_is_deltas(text: Seq<char>)
    ensures
        ({
            let (sf, ef, err) = run(initial_view(), lines(text));
            &&& sf.text == delta_text(ef)
            &&& sf.reasoning == delta_thinking(ef)
            &&& start_count(ef) == complete_count(sf.tools)
            &&& start_count(ef) <= sf.tools.len()
            &&& starts_named(ef)
        }),
{
    let s = initial_view();
    law_run(s, lines(text));
    let (sf, ef, err) = run(s, lines(text));
    assert(Seq::<char>::empty() + delta_text(ef) =~= delta_text(ef));
    assert(Seq::<char>::empty() + delta_thinking(ef) =~= delta_thinking(ef));
    lemma_complete_count_le(sf.tools);
}

/// Nothing after a `[DONE]` line counts: the run over lines that continue
/// past it is the run that stops there.
pub proof fn law_done_ends_stream(s: SseView, before: Seq<Seq<char>>, done: Seq<char>, after: Seq<Seq<char>>)
    requires
        line_payload(done) == Some(done_marker()),
    ensures
        run(s, before + seq![done] + after) == run(s, before + seq![done]),
    decreases before.len(),
{
    if before.len() == 0 {
        assert((before + seq![done] + after)[0] == done);
        assert((before + seq![done])[0] == done);
    } else {
        let all = before + seq![done] + after;
        let cut = before + seq![done];
        assert(all[0] == before[0]);
        assert(cut[0] == before[0]);
        assert(all.drop_first() =~= before.drop_first() + seq![done] + after);
        assert(cut.drop_first() =~= before.drop_first() + seq![done]);
        let (s1, e1, err, d) = line_step(s, before[0]);
        if !(d || err is Some) {
            law_done_ends_stream(s1, before.drop_first(), done, after);
        }
    }
}

/// Every tool use of a response has a non-empty id and a non-empty name:
/// missing ones are replaced by placeholders.
pub proof fn law_response_tools_named(s: SseView)
    ensures
        forall|i: int|
            0 <= i < response_blocks(s).len() ==> match #[trigger] response_blocks(s)[i] {
                BlockV::ToolUse(id, name, _) => id.len() > 0 && name.len() > 0,
                _ => true,
            },
{
    reveal_strlit("maki_unnamed_");
    reveal_strlit("maki_unknown_tool");
    let blocks = response_blocks(s);
    assert forall|i: int| 0 <= i < blocks.len() implies match #[trigger] blocks[i] {
        BlockV::ToolUse(id, name, _) => id.len() > 0 && name.len() > 0,
        _ => true,
    } by {
        let head_len = (if s.reasoning.len() > 0 {
            1int
        } else {
            0int
        }) + (if s.text.len() > 0 {
            1int
        } else {
            0int
        });
        if i >= head_len {
            let k = i - head_len;
            assert(blocks[i] == crate::sse::tool_block(k, s.tools[k]));
            assert(crate::sse::unnamed_tool_id(k).len() > 0);
        }
    }
}

/// The response is refused exactly when the stream brought no reasoning,
/// no text and no tool call.
pub proof fn law_empty_response(s: SseView)
    ensures
        response_blocks(s).len() == 0 <==> (s.reasoning.len() == 0 && s.text.len() == 0
            && s.tools.len() == 0),
{
}

/// Cached tokens are not counted as input: where the cache report does not
/// exceed the prompt, input and cache reads add up to the prompt.
pub proof fn law_usage_split(u: ChunkUsage)
    ensures
        usage_of(u).input + usage_of(u).cache_read >= u.prompt_tokens,
        usage_of(u).cache_read <= u.prompt_tokens ==> usage_of(u).input + usage_of(u).cache_read
            == u.prompt_tokens,
        usage_of(u).output == u.completion_tokens,
{
}


/// The `role` of a wire message.
pub open spec fn role_of(v: JsonV) -> Option<Seq<char>> {
    as_str(index(v, "role"@))
}

proof fn lemma_tool_messages_role(blocks: Seq<BlockV>)
    ensures
        forall|i: int|
            0 <= i < tool_messages(blocks).len() ==> role_of(#[trigger] tool_messages(blocks)[i])
                == Some("tool"@),
    decreases blocks.len(),
{
    if blocks.len() > 0 {
        lemma_tool_messages_role(blocks.drop_last());
        let rest = tool_messages(blocks.drop_last());
        match blocks.last() {
            BlockV::ToolResult(id, content, _) => {
                let m = tool_message(id, content);
                assert(role_of(m) == Some("tool"@));
                assert forall|i: int| 0 <= i < rest.push(m).len() implies role_of(
                    #[trigger] rest.push(m)[i],
                ) == Some("tool"@) by {
                    if i < rest.len() {
                        assert(rest.push(m)[i] == rest[i]);
                    }
                }
            },
            _ => {},
        }
    }
}

/// In the messages of a user turn, tool results come first: no message
/// for the turn's own content comes before a tool message.
pub proof fn law_tool_results_first(blocks: Seq<BlockV>)
    ensures
        forall|i: int, j: int|
            0 <= i < j < wire_user(blocks).len() && role_of(#[trigger] wire_user(blocks)[j]) == Some(
                "tool"@,
            ) ==> role_of(#[trigger] wire_user(blocks)[i]) == Some("tool"@),
        forall|j: int|
            0 <= j < wire_user(blocks).len() ==> role_of(#[trigger] wire_user(blocks)[j]) == Some(
                "tool"@,
            ) || role_of(wire_user(blocks)[j]) == Some("user"@),
{
    reveal_strlit("tool");
    reveal_strlit("user");
    lemma_tool_messages_role(blocks);
    let tm = tool_messages(blocks);
    let w = wire_user(blocks);
    assert(w.take(tm.len() as int) =~= tm);
    assert(w.len() <= tm.len() + 1);
    if w.len() == tm.len() + 1 {
        assert(role_of(w[tm.len() as int]) == Some("user"@));
        assert("user"@ != "tool"@) by {
            assert("user"@[0] != "tool"@[0]);
        }
    }
    assert forall|j: int| 0 <= j < w.len() implies role_of(#[trigger] w[j]) == Some("tool"@) || role_of(
        w[j],
    ) == Some("user"@) by {
        if j < tm.len() {
            assert(w[j] == tm[j]);
        }
    }
    assert forall|i: int, j: int|
        0 <= i < j < w.len() && role_of(#[trigger] w[j]) == Some("tool"@) implies role_of(
        #[trigger] w[i],
    ) == Some("tool"@) by {
        if j < tm.len() {
            assert(w[i] == tm[i]);
        } else {
            assert("user"@ != "tool"@) by {
                assert("user"@[0] != "tool"@[0]);
            }
        }
    }
}

/// An assistant turn yields at most one message, and its `content` is
/// always a string, empty where the turn had only reasoning or tool calls.
pub proof fn law_assistant_content_is_string(blocks: Seq<BlockV>)
    ensures
        wire_assistant(blocks).len() <= 1,
        wire_assistant(blocks).len() == 1 ==> as_str(index(wire_assistant(blocks)[0], "content"@))
            == Some(assistant_text(blocks)),
{
    reveal_strlit("role");
    reveal_strlit("content");
    assert("role"@ != "content"@) by {
        assert("role"@[0] != "content"@[0]);
    }
    if wire_assistant(blocks).len() == 1 {
        let fields = match wire_assistant(blocks)[0] {
            JsonV::Obj(f) => f,
            _ => Seq::empty(),
        };
        assert(fields[0].0 == "role"@);
        assert(fields.drop_first()[0].0 == "content"@);
        assert(crate::json::lookup(fields.drop_first(), "content"@) == Some(fields[1].1));
    }
}

/// The wire tool list is always an array, with at most one entry per tool.
pub proof fn law_tools_array(tools: JsonV)
    ensures
        wire_tools(tools) is Arr,
        match (wire_tools(tools), as_array(tools)) {
            (JsonV::Arr(out), Some(items)) => out.len() <= items.len(),
            (JsonV::Arr(out), None) => out.len() == 0,
            _ => false,
        },
{
    match as_array(tools) {
        Some(items) => lemma_tool_entries_len(items),
        None => {},
    }
}

proof fn lemma_tool_entries_len(items: Seq<JsonV>)
    ensures
        tool_entries(items).len() <= items.len(),
    decreases items.len(),
{
    if items.len() > 0 {
        lemma_tool_entries_len(items.drop_last());
    }
}

/// A line that the stream passes over in any state: a line that is not a
/// `data:` line, or one whose payload is not `[DONE]`, not an error carried
/// in the stream, and not a chunk.
pub open spec fn passed_over(line: Seq<char>) -> bool {
    match line_payload(line) {
        None => true,
        Some(d) => d != done_marker() && match json_parse(d) {
            None => true,
            Some(v) => !(contains_seq(d, error_marker()) && dec_stream_error(v) is Some)
                && dec_chunk(v) is None,
        },
    }
}

/// Lines that are passed over change nothing: inserting one anywhere in a
/// stream leaves its state, its events and its outcome as they were.
pub proof fn law_passed_over_lines(s: SseView, before: Seq<Seq<char>>, line: Seq<char>, after: Seq<Seq<char>>)
    requires
        passed_over(line),
    ensures
        run(s, before + seq![line] + after) == run(s, before + after),
    decreases before.len(),
{
    let all = before + seq![line] + after;
    let cut = before + after;
    if before.len() == 0 {
        assert(all[0] == line);
        assert(all.drop_first() =~= after);
        assert(cut =~= after);
        let (s2, e2, err2) = run(s, after);
        assert(Seq::<EventV>::empty() + e2 =~= e2);
    } else {
        assert(all[0] == before[0]);
        assert(cut[0] == before[0]);
        assert(all.drop_first() =~= before.drop_first() + seq![line] + after);
        assert(cut.drop_first() =~= before.drop_first() + after);
        let (s1, e1, err, d) = line_step(s, before[0]);
        if !(d || err is Some) {
            law_passed_over_lines(s1, before.drop_first(), line, after);
        }
    }
}

/// Lines that every state treats alike can replace one another anywhere in
/// a stream.
proof fn lemma_run_replace(s: SseView, before: Seq<Seq<char>>, a: Seq<char>, b: Seq<char>, after: Seq<Seq<char>>)
    requires
        forall|x: SseView| #[trigger] line_step(x, a) == line_step(x, b),
    ensures
        run(s, before + seq![a] + after) == run(s, before + seq![b] + after),
    decreases before.len(),
{
    let la = before + seq![a] + after;
    let lb = before + seq![b] + after;
    if before.len() == 0 {
        assert(la[0] == a);
        assert(lb[0] == b);
        assert(la.drop_first() =~= lb.drop_first());
        assert(line_step(s, a) == line_step(s, b));
    } else {
        assert(la[0] == before[0]);
        assert(lb[0] == before[0]);
        assert(la.drop_first() =~= before.drop_first() + seq![a] + after);
        assert(lb.drop_first() =~= before.drop_first() + seq![b] + after);
        let (s1, e1, err, d) = line_step(s, before[0]);
        if !(d || err is Some) {
            lemma_run_replace(s1, before.drop_first(), a, b, after);
        }
    }
}

/// A byte-order mark in front of a line that has none changes nothing.
pub proof fn law_bom_prefix(s: SseView, before: Seq<Seq<char>>, line: Seq<char>, after: Seq<Seq<char>>)
    requires
        line.len() == 0 || line[0] != bom(),
    ensures
        run(s, before + seq![seq![bom()] + line] + after) == run(s, before + seq![line] + after),
{
    let marked = seq![bom()] + line;
    assert(marked[0] == bom());
    assert(marked.drop_first() =~= line);
    assert(line_payload(marked) == line_payload(line));
    assert forall|x: SseView| #[trigger] line_step(x, marked) == line_step(x, line) by {}
    lemma_run_replace(s, before, marked, line, after);
}

proof fn lemma_wire_all_append(a: Seq<MessageV>, b: Seq<MessageV>)
    ensures
        wire_all(a + b) == wire_all(a) + wire_all(b),
    decreases b.len(),
{
    if b.len() == 0 {
        assert(a + b =~= a);
        assert(wire_all(a) + wire_all(b) =~= wire_all(a));
    } else {
        assert((a + b).drop_last() =~= a + b.drop_last());
        assert((a + b).last() == b.last());
        lemma_wire_all_append(a, b.drop_last());
        assert(wire_all(a) + wire_all(b.drop_last()) + crate::convert::wire_message(b.last())
            =~= wire_all(a) + (wire_all(b.drop_last()) + crate::convert::wire_message(b.last())));
    }
}

/// Each message is converted on its own and in order: converting two
/// conversations one after the other gives the conversion of the first
/// followed by that of the second without its system message.
pub proof fn law_convert_concatenation(a: Seq<MessageV>, b: Seq<MessageV>, system: Seq<char>)
    ensures
        wire_messages(a + b, system) == wire_messages(a, system) + wire_messages(b, system).drop_first(),
{
    lemma_wire_all_append(a, b);
    assert(wire_messages(b, system).drop_first() =~= wire_all(b));
    assert(wire_messages(a + b, system) =~= wire_messages(a, system) + wire_all(b));
}

/// Token usage counts the cache hits once: the cached tokens are the larger
/// of the two reports (`prompt_tokens_details.cached_tokens`, 0 where it is
/// absent, and `prompt_cache_hit_tokens`), never their sum, and the input is
/// the prompt less the cached tokens, at least 0.
pub proof fn law_cache_read_is_larger_report(u: ChunkUsage)
    ensures
        ({
            let details: u32 = match u.prompt_tokens_details {
                Some(d) => d.cached_tokens,
                None => 0,
            };
            let r = usage_of(u);
            &&& r.cache_read >= details
            &&& r.cache_read >= u.prompt_cache_hit_tokens
            &&& (r.cache_read == details || r.cache_read == u.prompt_cache_hit_tokens)
            &&& r.input + r.cache_read == if u.prompt_tokens >= r.cache_read {
                u.prompt_tokens as int
            } else {
                r.cache_read as int
            }
            &&& r.output == u.completion_tokens
            &&& r.cache_creation == 0
        }),
{
}

/// A user message whose `content` is the string `c`.
pub open spec fn user_text_message(c: Seq<char>) -> JsonV {
    JsonV::Obj(seq![("role"@, JsonV::Str("user"@)), ("content"@, JsonV::Str(c))])
}

proof fn lemma_text_parts_push(bv: Seq<BlockV>, b: BlockV)
    ensures
        text_parts(bv.push(b)) == match b {
            BlockV::Text(t) => text_parts(bv).push(t),
            _ => text_parts(bv),
        },
        image_parts(bv.push(b)) == match b {
            BlockV::Image(_, _) => image_parts(bv.push(b)),
            _ => image_parts(bv),
        },
        tool_messages(bv.push(b)) == match b {
            BlockV::ToolResult(_, _, _) => tool_messages(bv.push(b)),
            _ => tool_messages(bv),
        },
{
    assert(bv.push(b).drop_last() =~= bv);
}

/// The text of a user turn joins its text blocks with one line feed
/// between each two: a first text block becomes the whole text, and each
/// further text block is added after a line feed. Where the turn has
/// images, the same holds of the text part that follows them.
pub proof fn law_user_text_blocks_joined_by_line_feed(bv: Seq<BlockV>, t: Seq<char>)
    ensures
        text_parts(bv).len() == 0 && image_parts(bv).len() == 0 ==> wire_user(bv.push(BlockV::Text(t)))
            == tool_messages(bv) + seq![user_text_message(t)],
        forall|c: Seq<char>|
            #![trigger user_text_message(c)]
            text_parts(bv).len() > 0 && image_parts(bv).len() == 0 && wire_user(bv) == tool_messages(bv)
                + seq![user_text_message(c)] ==> wire_user(bv.push(BlockV::Text(t))) == tool_messages(bv)
                + seq![user_text_message(c + seq!['\n'] + t)],
        forall|c: Seq<char>|
            image_parts(bv).len() > 0 && text_parts(bv).len() > 0 && wire_user(bv) == tool_messages(bv)
                + seq![
                JsonV::Obj(
                    seq![
                        ("role"@, JsonV::Str("user"@)),
                        (
                            "content"@,
                            JsonV::Arr(image_parts(bv).push(JsonV::Obj(seq![("type"@, JsonV::Str("text"@)), ("text"@, JsonV::Str(c))]))),
                        ),
                    ],
                ),
            ] ==> wire_user(bv.push(BlockV::Text(t))) == tool_messages(bv) + seq![
                JsonV::Obj(
                    seq![
                        ("role"@, JsonV::Str("user"@)),
                        (
                            "content"@,
                            JsonV::Arr(image_parts(bv).push(JsonV::Obj(seq![("type"@, JsonV::Str("text"@)), ("text"@, JsonV::Str(c + seq!['\n'] + t))]))),
                        ),
                    ],
                ),
            ],
{
    lemma_text_parts_push(bv, BlockV::Text(t));
    let texts = text_parts(bv);
    let texts2 = texts.push(t);
    assert(texts2.drop_last() =~= texts);
    if texts.len() == 0 {
        assert(texts2 =~= seq![t]);
    }
    assert forall|c: Seq<char>|
        #![trigger user_text_message(c)]
        text_parts(bv).len() > 0 && image_parts(bv).len() == 0 && wire_user(bv) == tool_messages(bv)
            + seq![user_text_message(c)] implies wire_user(bv.push(BlockV::Text(t))) == tool_messages(bv)
            + seq![user_text_message(c + seq!['\n'] + t)] by {
        let w = tool_messages(bv) + seq![user_text_message(c)];
        assert(w[w.len() - 1] == user_text_message(c));
        assert(wire_user(bv)[w.len() - 1] == user_text_message(crate::text::join(texts, seq!['\n'])));
        assert(c == crate::text::join(texts, seq!['\n']));
    }
    assert forall|c: Seq<char>|
        image_parts(bv).len() > 0 && text_parts(bv).len() > 0 && wire_user(bv) == tool_messages(bv)
            + seq![
            JsonV::Obj(
                seq![
                    ("role"@, JsonV::Str("user"@)),
                    (
                        "content"@,
                        JsonV::Arr(image_parts(bv).push(JsonV::Obj(seq![("type"@, JsonV::Str("text"@)), ("text"@, JsonV::Str(c))]))),
                    ),
                ],
            ),
        ] implies wire_user(bv.push(BlockV::Text(t))) == tool_messages(bv) + seq![
            JsonV::Obj(
                seq![
                    ("role"@, JsonV::Str("user"@)),
                    (
                        "content"@,
                        JsonV::Arr(image_parts(bv).push(JsonV::Obj(seq![("type"@, JsonV::Str("text"@)), ("text"@, JsonV::Str(c + seq!['\n'] + t))]))),
                    ),
                ],
            ),
        ] by {
        let w = wire_user(bv);
        let n = tool_messages(bv).len() as int;
        let pa = seq![("type"@, JsonV::Str("text"@)), ("text"@, JsonV::Str(crate::text::join(texts, seq!['\n'])))];
        let pb = seq![("type"@, JsonV::Str("text"@)), ("text"@, JsonV::Str(c))];
        let xa = image_parts(bv).push(JsonV::Obj(pa));
        let xb = image_parts(bv).push(JsonV::Obj(pb));
        let fa = seq![("role"@, JsonV::Str("user"@)), ("content"@, JsonV::Arr(xa))];
        let fb = seq![("role"@, JsonV::Str("user"@)), ("content"@, JsonV::Arr(xb))];
        assert(w[n] == JsonV::Obj(fa));
        assert((tool_messages(bv) + seq![JsonV::Obj(fb)])[n] == JsonV::Obj(fb));
        assert(fa == fb);
        assert(fa[1] == fb[1]);
        assert(xa == xb);
        assert(xa[xa.len() - 1] == xb[xb.len() - 1]);
        assert(pa == pb);
        assert(pa[1] == pb[1]);
        assert(c == crate::text::join(texts, seq!['\n']));
    }
}

proof fn lemma_lookup_first(fields: Seq<(Seq<char>, JsonV)>, key: Seq<char>, i: int)
    requires
        first_key_at(fields, key, i),
    ensures
        lookup(fields, key) == Some(fields[i].1),
    decreases i,
{
    if i > 0 {
        assert(fields[0].0 != key);
        assert(first_key_at(fields.drop_first(), key, i - 1));
        lemma_lookup_first(fields.drop_first(), key, i - 1);
    }
}

proof fn lemma_lookup_absent(fields: Seq<(Seq<char>, JsonV)>, key: Seq<char>)
    requires
        forall|j: int| 0 <= j < fields.len() ==> #[trigger] fields[j].0 != key,
    ensures
        lookup(fields, key) is None,
    decreases fields.len(),
{
    if fields.len() > 0 {
        assert(fields[0].0 != key);
        assert forall|j: int| 0 <= j < fields.drop_first().len() implies #[trigger] fields.drop_first()[j].0 != key by {
            assert(fields.drop_first()[j] == fields[j + 1]);
        }
        lemma_lookup_absent(fields.drop_first(), key);
    }
}

/// The lookup of `key` in `fields`, in terms of the first member with it.
proof fn lemma_lookup_cases(fields: Seq<(Seq<char>, JsonV)>, key: Seq<char>)
    ensures
        (exists|i: int| first_key_at(fields, key, i)) ==> lookup(fields, key) == Some(
            fields[choose|i: int| first_key_at(fields, key, i)].1,
        ),
        !(exists|i: int| first_key_at(fields, key, i)) ==> lookup(fields, key) is None,
{
    if exists|i: int| first_key_at(fields, key, i) {
        let i = choose|i: int| first_key_at(fields, key, i);
        lemma_lookup_first(fields, key, i);
    } else {
        assert forall|j: int| 0 <= j < fields.len() implies #[trigger] fields[j].0 != key by {
            if fields[j].0 == key {
                lemma_first_key_exists(fields, key, j);
            }
        }
        lemma_lookup_absent(fields, key);
    }
}

proof fn lemma_first_key_exists(fields: Seq<(Seq<char>, JsonV)>, key: Seq<char>, j: int)
    requires
        0 <= j < fields.len(),
        fields[j].0 == key,
    ensures
        exists|i: int| first_key_at(fields, key, i),
    decreases j,
{
    if forall|k: int| 0 <= k < j ==> #[trigger] fields[k].0 != key {
        assert(first_key_at(fields, key, j));
    } else {
        let k = choose|k: int| 0 <= k < j && #[trigger] fields[k].0 == key;
        lemma_first_key_exists(fields, key, k);
    }
}

/// Setting a member makes `key` give the new value and leaves every other
/// key as it was.
proof fn lemma_set_member(fields: Seq<(Seq<char>, JsonV)>, key: Seq<char>, x: JsonV, other: Seq<char>)
    ensures
        lookup(set_member(fields, key, x), key) == Some(x),
        other != key ==> lookup(set_member(fields, key, x), other) == lookup(fields, other),
{
    let f2 = set_member(fields, key, x);
    if exists|i: int| first_key_at(fields, key, i) {
        let i = choose|i: int| first_key_at(fields, key, i);
        assert(first_key_at(f2, key, i));
        lemma_lookup_first(f2, key, i);
        if other != key {
            lemma_lookup_cases(fields, other);
            lemma_lookup_cases(f2, other);
            if exists|j: int| first_key_at(fields, other, j) {
                let j = choose|j: int| first_key_at(fields, other, j);
                assert(first_key_at(f2, other, j));
                lemma_lookup_first(f2, other, j);
            } else {
                assert forall|j: int| 0 <= j < f2.len() implies #[trigger] f2[j].0 != other by {
                    if j != i && fields[j].0 == other {
                        lemma_first_key_exists(fields, other, j);
                    }
                }
                lemma_lookup_absent(f2, other);
            }
        }
    } else {
        assert forall|j: int| 0 <= j < fields.len() implies #[trigger] fields[j].0 != key by {
            if fields[j].0 == key {
                lemma_first_key_exists(fields, key, j);
            }
        }
        assert(first_key_at(f2, key, fields.len() as int));
        lemma_lookup_first(f2, key, fields.len() as int);
        if other != key {
            lemma_lookup_cases(fields, other);
            lemma_lookup_cases(f2, other);
            if exists|j: int| first_key_at(fields, other, j) {
                let j = choose|j: int| first_key_at(fields, other, j);
                assert(first_key_at(f2, other, j));
                lemma_lookup_first(f2, other, j);
            } else {
                assert forall|j: int| 0 <= j < f2.len() implies #[trigger] f2[j].0 != other by {
                    if j < fields.len() && fields[j].0 == other {
                        lemma_first_key_exists(fields, other, j);
                    }
                }
                lemma_lookup_absent(f2, other);
            }
        }
    }
}

/// Where the provider asks for usage in the stream, the request body's
/// `stream_options` is exactly `{"include_usage": true}`, whatever the
/// model, the messages, the tools and the name of the output cap.
pub proof fn law_stream_usage_requested(
    max_tokens_field: Seq<char>,
    model_id: Seq<char>,
    max_output_tokens: Option<u32>,
    wire: Seq<JsonV>,
    tools: JsonV,
)
    ensures
        get(request_body(max_tokens_field, true, model_id, max_output_tokens, wire, tools), "stream_options"@)
            == Some(JsonV::Obj(seq![("include_usage"@, JsonV::Bool(true))])),
{
    reveal_strlit("tools");
    reveal_strlit("stream_options");
    let opts = JsonV::Obj(seq![("include_usage"@, JsonV::Bool(true))]);
    let b0 = seq![
        ("model"@, JsonV::Str(model_id)),
        ("messages"@, JsonV::Arr(wire)),
        ("stream"@, JsonV::Bool(true)),
    ];
    let b1 = match max_output_tokens {
        Some(m) => set_member(b0, max_tokens_field, JsonV::Number(JsonNumberV::PosInt(m as u64))),
        None => b0,
    };
    let b2 = set_member(b1, "stream_options"@, opts);
    lemma_set_member(b1, "stream_options"@, opts, "stream_options"@);
    assert("tools"@.len() != "stream_options"@.len());
    lemma_set_member(b2, "tools"@, tools, "stream_options"@);
}

/// The context window is read from `context_length`, or failing that from
/// `max_model_len`, or failing that from `max_context_length`: the first of
/// them that is an unsigned integer, where it fits in 32 bits.
pub proof fn law_context_window_fallbacks(m: JsonV)
    ensures
        forall|n: u64|
            #![trigger fits_u32(n)]
            as_u64(index(m, "context_length"@)) == Some(n) ==> context_window_of(m) == fits_u32(n),
        forall|n: u64|
            #![trigger fits_u32(n)]
            as_u64(index(m, "context_length"@)) is None && as_u64(index(m, "max_model_len"@)) == Some(n)
                ==> context_window_of(m) == fits_u32(n),
        forall|n: u64|
            #![trigger fits_u32(n)]
            as_u64(index(m, "context_length"@)) is None && as_u64(index(m, "max_model_len"@)) is None
                && as_u64(index(m, "max_context_length"@)) == Some(n) ==> context_window_of(m)
                == fits_u32(n),
        as_u64(index(m, "context_length"@)) is None && as_u64(index(m, "max_model_len"@)) is None
            && as_u64(index(m, "max_context_length"@)) is None ==> context_window_of(m) is None,
{
}

/// `n` as a `u32` where it fits.
pub open spec fn fits_u32(n: u64) -> Option<u32> {
    if n <= u32::MAX {
        Some(n as u32)
    } else {
        None
    }
}

/// A complete tool has a name, a description and an input schema.
pub open spec fn complete_tool(t: JsonV) -> bool {
    get(t, "name"@) is Some && get(t, "description"@) is Some && get(t, "input_schema"@) is Some
}

/// Complete tools each give one function entry, in order: the k-th entry
/// is a function whose name, description and parameters are the k-th
/// tool's name, description and input schema.
pub proof fn law_one_function_per_tool(items: Seq<JsonV>)
    requires
        forall|k: int| 0 <= k < items.len() ==> complete_tool(#[trigger] items[k]),
    ensures
        tool_entries(items).len() == items.len(),
        forall|k: int|
            0 <= k < items.len() ==> {
                let e = #[trigger] tool_entries(items)[k];
                &&& get(e, "type"@) == Some(JsonV::Str("function"@))
                &&& get(e, "function"@) matches Some(f) && {
                    &&& get(f, "name"@) == get(items[k], "name"@)
                    &&& get(f, "description"@) == get(items[k], "description"@)
                    &&& get(f, "parameters"@) == get(items[k], "input_schema"@)
                }
            },
    decreases items.len(),
{
    reveal_strlit("type");
    reveal_strlit("function");
    reveal_strlit("name");
    reveal_strlit("description");
    reveal_strlit("parameters");
    if items.len() > 0 {
        let init = items.drop_last();
        assert forall|k: int| 0 <= k < init.len() implies complete_tool(#[trigger] init[k]) by {
            assert(init[k] == items[k]);
        }
        law_one_function_per_tool(init);
        let t = items.last();
        assert(complete_tool(items[items.len() - 1]));
        let e = tool_entry(t)->0;
        assert(tool_entries(items) == tool_entries(init).push(e));
        let fs = seq![("name"@, get(t, "name"@)->0), ("description"@, get(t, "description"@)->0), ("parameters"@, get(t, "input_schema"@)->0)];
        let es = seq![("type"@, JsonV::Str("function"@)), ("function"@, JsonV::Obj(fs))];
        assert(e == JsonV::Obj(es));
        assert("type"@.len() != "function"@.len());
        assert("name"@.len() != "description"@.len());
        assert("name"@.len() != "parameters"@.len());
        assert("description"@.len() != "parameters"@.len());
        assert(es[0].0 != "function"@);
        assert(fs[0].0 != "description"@);
        assert(fs[0].0 != "parameters"@ && fs[1].0 != "parameters"@);
        assert(first_key_at(es, "function"@, 1));
        lemma_lookup_first(es, "function"@, 1);
        assert(first_key_at(fs, "description"@, 1));
        lemma_lookup_first(fs, "description"@, 1);
        assert(first_key_at(fs, "parameters"@, 2));
        lemma_lookup_first(fs, "parameters"@, 2);
        assert forall|k: int| 0 <= k < items.len() implies {
            let e = #[trigger] tool_entries(items)[k];
            &&& get(e, "type"@) == Some(JsonV::Str("function"@))
            &&& get(e, "function"@) matches Some(f) && {
                &&& get(f, "name"@) == get(items[k], "name"@)
                &&& get(f, "description"@) == get(items[k], "description"@)
                &&& get(f, "parameters"@) == get(items[k], "input_schema"@)
            }
        } by {
            if k < init.len() {
                assert(tool_entries(items)[k] == tool_entries(init)[k]);
                assert(items[k] == init[k]);
            }
        }
    }
}

/// The members of the request body, where the name of the output cap is
/// none of the other member names: `model` is the model id, `messages` the
/// wire messages, `stream` is true, the cap is present exactly when the
/// model has one, `stream_options` exactly when the provider asks for usage,
/// and `tools` exactly when there is at least one tool.
pub proof fn law_request_body_members(
    max_tokens_field: Seq<char>,
    include_stream_usage: bool,
    model_id: Seq<char>,
    max_output_tokens: Option<u32>,
    wire: Seq<JsonV>,
    tools: JsonV,
)
    requires
        max_tokens_field != "model"@,
        max_tokens_field != "messages"@,
        max_tokens_field != "stream"@,
        max_tokens_field != "stream_options"@,
        max_tokens_field != "tools"@,
    ensures
        ({
            let b = request_body(max_tokens_field, include_stream_usage, model_id, max_output_tokens, wire, tools);
            &&& b is Obj
            &&& get(b, "model"@) == Some(JsonV::Str(model_id))
            &&& get(b, "messages"@) == Some(JsonV::Arr(wire))
            &&& get(b, "stream"@) == Some(JsonV::Bool(true))
            &&& get(b, max_tokens_field) == match max_output_tokens {
                Some(m) => Some(JsonV::Number(JsonNumberV::PosInt(m as u64))),
                None => None,
            }
            &&& get(b, "stream_options"@) == if include_stream_usage {
                Some(JsonV::Obj(seq![("include_usage"@, JsonV::Bool(true))]))
            } else {
                None
            }
            &&& get(b, "tools"@) == match tools {
                JsonV::Arr(items) => if items.len() > 0 { Some(tools) } else { None },
                _ => None,
            }
        }),
{
    reveal_strlit("model");
    reveal_strlit("messages");
    reveal_strlit("stream");
    reveal_strlit("stream_options");
    reveal_strlit("tools");
    let km = "model"@;
    let kg = "messages"@;
    let ks = "stream"@;
    let ko = "stream_options"@;
    let kt = "tools"@;
    assert(km.len() != kg.len() && km.len() != ks.len() && km.len() != ko.len());
    assert(km[0] != kt[0]);
    assert(kg.len() != ks.len() && kg.len() != ko.len() && kg.len() != kt.len());
    assert(ks.len() != ko.len() && ks.len() != kt.len() && ko.len() != kt.len());
    let opts = JsonV::Obj(seq![("include_usage"@, JsonV::Bool(true))]);
    let b0 = seq![(km, JsonV::Str(model_id)), (kg, JsonV::Arr(wire)), (ks, JsonV::Bool(true))];
    let b1 = match max_output_tokens {
        Some(m) => set_member(b0, max_tokens_field, JsonV::Number(JsonNumberV::PosInt(m as u64))),
        None => b0,
    };
    let b2 = if include_stream_usage { set_member(b1, ko, opts) } else { b1 };
    // In the first three members.
    assert(lookup(b0, km) == Some(JsonV::Str(model_id)));
    assert(first_key_at(b0, kg, 1));
    lemma_lookup_first(b0, kg, 1);
    assert(first_key_at(b0, ks, 2));
    lemma_lookup_first(b0, ks, 2);
    assert forall|j: int| 0 <= j < b0.len() implies #[trigger] b0[j].0 != max_tokens_field by {}
    lemma_lookup_absent(b0, max_tokens_field);
    assert forall|j: int| 0 <= j < b0.len() implies #[trigger] b0[j].0 != ko by {}
    lemma_lookup_absent(b0, ko);
    assert forall|j: int| 0 <= j < b0.len() implies #[trigger] b0[j].0 != kt by {}
    lemma_lookup_absent(b0, kt);
    // Through the output cap.
    if let Some(m) = max_output_tokens {
        let x = JsonV::Number(JsonNumberV::PosInt(m as u64));
        lemma_set_member(b0, max_tokens_field, x, km);
        lemma_set_member(b0, max_tokens_field, x, kg);
        lemma_set_member(b0, max_tokens_field, x, ks);
        lemma_set_member(b0, max_tokens_field, x, ko);
        lemma_set_member(b0, max_tokens_field, x, kt);
    }
    // Through the stream options.
    if include_stream_usage {
        lemma_set_member(b1, ko, opts, km);
        lemma_set_member(b1, ko, opts, kg);
        lemma_set_member(b1, ko, opts, ks);
        lemma_set_member(b1, ko, opts, max_tokens_field);
        lemma_set_member(b1, ko, opts, kt);
    }
    // Through the tools.
    match tools {
        JsonV::Arr(items) => if items.len() > 0 {
            lemma_set_member(b2, kt, tools, km);
            lemma_set_member(b2, kt, tools, kg);
            lemma_set_member(b2, kt, tools, ks);
            lemma_set_member(b2, kt, tools, max_tokens_field);
            lemma_set_member(b2, kt, tools, ko);
        },
        _ => {},
    }
}

/// The stop reason: `length` is the output cap, `tool_calls` and
/// `function_call` are tool use, and every other reason ends the turn.
pub proof fn law_stop_reasons(reason: Seq<char>)
    ensures
        reason == seq!['l', 'e', 'n', 'g', 't', 'h'] ==> stop_from_openai(reason) == StopReason::MaxTokens,
        reason == seq!['t', 'o', 'o', 'l', '_', 'c', 'a', 'l', 'l', 's'] ==> stop_from_openai(reason)
            == StopReason::ToolUse,
        reason == seq!['f', 'u', 'n', 'c', 't', 'i', 'o', 'n', '_', 'c', 'a', 'l', 'l']
            ==> stop_from_openai(reason) == StopReason::ToolUse,
        reason != seq!['l', 'e', 'n', 'g', 't', 'h'] && reason != seq![
            't',
            'o',
            'o',
            'l',
            '_',
            'c',
            'a',
            'l',
            'l',
            's',
        ] && reason != seq!['f', 'u', 'n', 'c', 't', 'i', 'o', 'n', '_', 'c', 'a', 'l', 'l']
            ==> stop_from_openai(reason) == StopReason::EndTurn,
{
    reveal_strlit("length");
    reveal_strlit("tool_calls");
    reveal_strlit("function_call");
    assert("length"@ =~= seq!['l', 'e', 'n', 'g', 't', 'h']);
    assert("tool_calls"@ =~= seq!['t', 'o', 'o', 'l', '_', 'c', 'a', 'l', 'l', 's']);
    assert("function_call"@ =~= seq!['f', 'u', 'n', 'c', 't', 'i', 'o', 'n', '_', 'c', 'a', 'l', 'l']);
}

/// The base URL: one given with the credentials wins over everything; the
/// override wins over the configured default; the default is used only
/// where neither is given.
pub proof fn law_base_url_precedence(auth: Option<Seq<char>>, env: Option<Seq<char>>, default: Seq<char>)
    ensures
        auth is Some ==> effective_base_url(auth, env, default) == auth->0,
        auth is None && env is Some ==> effective_base_url(auth, env, default) == env->0,
        auth is None && env is None ==> effective_base_url(auth, env, default) == default,
{
}

/// The output cap of a model-list entry is its `max_tokens` where that is
/// an unsigned integer that fits in 32 bits, and absent otherwise.
pub proof fn law_output_cap(m: JsonV)
    ensures
        forall|n: u64|
            #![trigger fits_u32(n)]
            as_u64(index(m, "max_tokens"@)) == Some(n) ==> to_u32(as_u64(index(m, "max_tokens"@)))
                == fits_u32(n),
        as_u64(index(m, "max_tokens"@)) is None ==> to_u32(as_u64(index(m, "max_tokens"@))) is None,
{
}

} // verus!
