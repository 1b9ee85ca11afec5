//! Conversion of the conversation and of the tool list into the
//! chat-completions wire format.
use vstd::prelude::*;
use vstd::string::StringExecFns;
use crate::json::{
    Json, JsonV, as_array, get, json_parse, json_render, member_views, push_item, push_member,
    render_json, round_trips, views,
};
use crate::text::{join, join_strs};
use crate::types::{
    BlockV, ContentBlock, Message, MessageV, Role, block_views, data_url, message_views,
};

verus! {

/// A string value.
pub open spec fn jstr(s: Seq<char>) -> JsonV {
    JsonV::Str(s)
}

/// The texts of the text blocks, in order.
pub open spec fn text_parts(blocks: Seq<BlockV>) -> Seq<Seq<char>>
    decreases blocks.len(),
{
    if blocks.len() == 0 {
        Seq::empty()
    } else {
        let rest = text_parts(blocks.drop_last());
        match blocks.last() {
            BlockV::Text(t) => rest.push(t),
            _ => rest,
        }
    }
}

/// The `image_url` content part of an image.
pub open spec fn image_part(url: Seq<char>) -> JsonV {
    JsonV::Obj(
        seq![("type"@, jstr("image_url"@)), ("image_url"@, JsonV::Obj(seq![("url"@, jstr(url))]))],
    )
}

/// The image parts of the image blocks, in order.
pub open spec fn image_parts(blocks: Seq<BlockV>) -> Seq<JsonV>
    decreases blocks.len(),
{
    if blocks.len() == 0 {
        Seq::empty()
    } else {
        let rest = image_parts(blocks.drop_last());
        match blocks.last() {
            BlockV::Image(t, d) => rest.push(image_part(data_url(t, d))),
            _ => rest,
        }
    }
}

/// The `tool` message answering a tool call.
pub open spec fn tool_message(id: Seq<char>, content: Seq<char>) -> JsonV {
    JsonV::Obj(
        seq![("role"@, jstr("tool"@)), ("tool_call_id"@, jstr(id)), ("content"@, jstr(content))],
    )
}

/// The tool messages of the tool-result blocks, in order.
pub open spec fn tool_messages(blocks: Seq<BlockV>) -> Seq<JsonV>
    decreases blocks.len(),
{
    if blocks.len() == 0 {
        Seq::empty()
    } else {
        let rest = tool_messages(blocks.drop_last());
        match blocks.last() {
            BlockV::ToolResult(id, content, _) => rest.push(tool_message(id, content)),
            _ => rest,
        }
    }
}

pub open spec fn newline() -> Seq<char> {
    seq!['\n']
}

/// The messages for a user turn: its tool results first, then, where it
/// has images, one message whose content is the image parts followed by
/// the joined text; where it has only text, one message whose content is
/// the joined text.
pub open spec fn wire_user(blocks: Seq<BlockV>) -> Seq<JsonV> {
    let texts = text_parts(blocks);
    let images = image_parts(blocks);
    tool_messages(blocks) + if images.len() > 0 {
        let parts = if texts.len() > 0 {
            images.push(
                JsonV::Obj(seq![("type"@, jstr("text"@)), ("text"@, jstr(join(texts, newline())))]),
            )
        } else {
            images
        };
        seq![JsonV::Obj(seq![("role"@, jstr("user"@)), ("content"@, JsonV::Arr(parts))])]
    } else if texts.len() > 0 {
        seq![JsonV::Obj(seq![("role"@, jstr("user"@)), ("content"@, jstr(join(texts, newline())))])]
    } else {
        Seq::empty()
    }
}

/// The text of the text blocks, concatenated.
pub open spec fn assistant_text(blocks: Seq<BlockV>) -> Seq<char>
    decreases blocks.len(),
{
    if blocks.len() == 0 {
        Seq::empty()
    } else {
        let rest = assistant_text(blocks.drop_last());
        match blocks.last() {
            BlockV::Text(t) => rest + t,
            _ => rest,
        }
    }
}

/// The reasoning of the thinking blocks, concatenated.
pub open spec fn assistant_reasoning(blocks: Seq<BlockV>) -> Seq<char>
    decreases blocks.len(),
{
    if blocks.len() == 0 {
        Seq::empty()
    } else {
        let rest = assistant_reasoning(blocks.drop_last());
        match blocks.last() {
            BlockV::Thinking(t, _) => rest + t,
            _ => rest,
        }
    }
}

/// The `tool_calls` entry for a tool use; its arguments are the input
/// rendered as JSON text.
pub open spec fn tool_call(id: Seq<char>, name: Seq<char>, input: JsonV) -> JsonV {
    JsonV::Obj(
        seq![
            ("id"@, jstr(id)),
            ("type"@, jstr("function"@)),
            (
                "function"@,
                JsonV::Obj(
                    seq![("name"@, jstr(name)), ("arguments"@, jstr(json_render(input)))],
                ),
            ),
        ],
    )
}

pub open spec fn tool_calls(blocks: Seq<BlockV>) -> Seq<JsonV>
    decreases blocks.len(),
{
    if blocks.len() == 0 {
        Seq::empty()
    } else {
        let rest = tool_calls(blocks.drop_last());
        match blocks.last() {
            BlockV::ToolUse(id, name, input) => rest.push(tool_call(id, name, input)),
            _ => rest,
        }
    }
}

/// The message for an assistant turn: none where it has no text, no
/// reasoning and no tool use; otherwise one whose `content` is always a
/// string (possibly empty), with `reasoning_content` and `tool_calls` where
/// there are any.
pub open spec fn wire_assistant(blocks: Seq<BlockV>) -> Seq<JsonV> {
    let text = assistant_text(blocks);
    let reasoning = assistant_reasoning(blocks);
    let calls = tool_calls(blocks);
    if text.len() > 0 || calls.len() > 0 || reasoning.len() > 0 {
        let m0 = seq![("role"@, jstr("assistant"@)), ("content"@, jstr(text))];
        let m1 = if reasoning.len() > 0 {
            m0.push(("reasoning_content"@, jstr(reasoning)))
        } else {
            m0
        };
        let m2 = if calls.len() > 0 {
            m1.push(("tool_calls"@, JsonV::Arr(calls)))
        } else {
            m1
        };
        seq![JsonV::Obj(m2)]
    } else {
        Seq::empty()
    }
}

pub open spec fn wire_message(m: MessageV) -> Seq<JsonV> {
    match m.role {
        Role::User => wire_user(m.content),
        Role::Assistant => wire_assistant(m.content),
    }
}

pub open spec fn wire_all(msgs: Seq<MessageV>) -> Seq<JsonV>
    decreases msgs.len(),
{
    if msgs.len() == 0 {
        Seq::empty()
    } else {
        wire_all(msgs.drop_last()) + wire_message(msgs.last())
    }
}

pub open spec fn system_message(system: Seq<char>) -> JsonV {
    JsonV::Obj(seq![("role"@, jstr("system"@)), ("content"@, jstr(system))])
}

/// The wire messages of a conversation: the system message, then each
/// message's own.
pub open spec fn wire_messages(msgs: Seq<MessageV>, system: Seq<char>) -> Seq<JsonV> {
    seq![system_message(system)] + wire_all(msgs)
}

fn jstring(s: &str) -> (r: Json)
    ensures
        r@ == jstr(s@),
{
    Json::from_str(s)
}

fn object2(k1: &str, v1: Json, k2: &str, v2: Json) -> (r: Json)
    ensures
        r@ == JsonV::Obj(seq![(k1@, v1@), (k2@, v2@)]),
{
    let mut m: Vec<(String, Json)> = Vec::new();
    assert(member_views(m@) =~= Seq::empty());
    push_member(&mut m, k1, v1);
    push_member(&mut m, k2, v2);
    assert(member_views(m@) =~= seq![(k1@, v1@), (k2@, v2@)]);
    Json::object(m)
}

fn object3(k1: &str, v1: Json, k2: &str, v2: Json, k3: &str, v3: Json) -> (r: Json)
    ensures
        r@ == JsonV::Obj(seq![(k1@, v1@), (k2@, v2@), (k3@, v3@)]),
{
    let mut m: Vec<(String, Json)> = Vec::new();
    assert(member_views(m@) =~= Seq::empty());
    push_member(&mut m, k1, v1);
    push_member(&mut m, k2, v2);
    push_member(&mut m, k3, v3);
    assert(member_views(m@) =~= seq![(k1@, v1@), (k2@, v2@), (k3@, v3@)]);
    Json::object(m)
}

fn wire_user_exec(blocks: &Vec<ContentBlock>, out: &mut Vec<Json>)
    ensures
        views(final(out)@) == views(old(out)@) + wire_user(block_views(blocks@)),
{
    let ghost bv = block_views(blocks@);
    let mut results: Vec<Json> = Vec::new();
    let mut texts: Vec<String> = Vec::new();
    let mut images: Vec<Json> = Vec::new();
    let mut i: usize = 0;
    assert(views(results@) =~= Seq::empty());
    assert(views(images@) =~= Seq::empty());
    while i < blocks.len()
        invariant
            bv == block_views(blocks@),
            i <= blocks@.len(),
            views(results@) == tool_messages(bv.take(i as int)),
            views(images@) == image_parts(bv.take(i as int)),
            texts@.len() == text_parts(bv.take(i as int)).len(),
            forall|k: int| 0 <= k < texts@.len() ==> #[trigger] texts@[k]@ == text_parts(bv.take(i as int))[k],
        decreases blocks.len() - i,
    {
        proof {
            assert(bv.take(i + 1).drop_last() =~= bv.take(i as int));
            assert(bv.take(i + 1).last() == bv[i as int]);
        }
        match &blocks[i] {
            ContentBlock::Text { text } => {
                texts.push(text.clone());
            },
            ContentBlock::Image { source } => {
                let url = source.to_data_url();
                let mut m: Vec<(String, Json)> = Vec::new();
                assert(member_views(m@) =~= Seq::empty());
                push_member(&mut m, "url", jstring(url.as_str()));
                assert(member_views(m@) =~= seq![("url"@, jstr(url@))]);
                let url_obj = Json::object(m);
                let part = object2("type", jstring("image_url"), "image_url", url_obj);
                push_item(&mut images, part);
            },
            ContentBlock::ToolResult { tool_use_id, content, .. } => {
                let msg = object3(
                    "role",
                    jstring("tool"),
                    "tool_call_id",
                    jstring(tool_use_id.as_str()),
                    "content",
                    jstring(content.as_str()),
                );
                push_item(&mut results, msg);
            },
            _ => {},
        }
        i += 1;
    }
    proof {
        assert(bv.take(blocks@.len() as int) =~= bv);
    }
    let ghost out0 = views(out@);
    let mut k: usize = 0;
    while k < results.len()
        invariant
            k <= results@.len(),
            views(results@) == tool_messages(bv),
            views(out@) == out0 + views(results@).take(k as int),
        decreases results.len() - k,
    {
        push_item(out, results[k].duplicate());
        assert(views(results@).take(k + 1) =~= views(results@).take(k as int).push(views(results@)[k as int]));
        k += 1;
    }
    assert(views(results@).take(results@.len() as int) =~= views(results@));
    let ghost tv = texts@.map_values(|p: String| p@);
    assert(tv =~= text_parts(bv));
    let ghost out1 = views(out@);
    if images.len() > 0 {
        let ghost imgs = views(images@);
        if texts.len() > 0 {
            let joined = join_strs(&texts, "\n");
            proof {
                reveal_strlit("\n");
                assert("\n"@ =~= newline());
            }
            let text_part = object2("type", jstring("text"), "text", jstring(joined.as_str()));
            push_item(&mut images, text_part);
        }
        let msg = object2("role", jstring("user"), "content", Json::array(images));
        push_item(out, msg);
    } else if texts.len() > 0 {
        let joined = join_strs(&texts, "\n");
        proof {
            reveal_strlit("\n");
            assert("\n"@ =~= newline());
        }
        let msg = object2("role", jstring("user"), "content", jstring(joined.as_str()));
        push_item(out, msg);
    }
    proof {
        assert(views(out@) =~= out0 + wire_user(bv));
    }
}

/// Every tool-use input among `blocks` that round-trips is read back from
/// the arguments text rendered for it.
pub open spec fn arguments_read_back(blocks: Seq<BlockV>) -> bool {
    forall|k: int|
        0 <= k < blocks.len() ==> match #[trigger] blocks[k] {
            BlockV::ToolUse(_, _, input) => round_trips(input) ==> json_parse(json_render(input))
                == Some(input),
            _ => true,
        }
}

fn wire_assistant_exec(blocks: &Vec<ContentBlock>, out: &mut Vec<Json>)
    ensures
        views(final(out)@) == views(old(out)@) + wire_assistant(block_views(blocks@)),
        arguments_read_back(block_views(blocks@)),
{
    let ghost bv = block_views(blocks@);
    let mut text = String::new();
    let mut reasoning = String::new();
    let mut calls: Vec<Json> = Vec::new();
    let mut i: usize = 0;
    assert(views(calls@) =~= Seq::empty());
    while i < blocks.len()
        invariant
            bv == block_views(blocks@),
            i <= blocks@.len(),
            text@ == assistant_text(bv.take(i as int)),
            reasoning@ == assistant_reasoning(bv.take(i as int)),
            views(calls@) == tool_calls(bv.take(i as int)),
            arguments_read_back(bv.take(i as int)),
        decreases blocks.len() - i,
    {
        proof {
            assert(bv.take(i + 1).drop_last() =~= bv.take(i as int));
            assert(bv.take(i + 1).last() == bv[i as int]);
        }
        match &blocks[i] {
            ContentBlock::Text { text: t } => {
                text.append(t.as_str());
            },
            ContentBlock::Thinking { thinking, .. } => {
                reasoning.append(thinking.as_str());
            },
            ContentBlock::ToolUse { id, name, input } => {
                let arguments = render_json(input);
                assert(bv[i as int] == BlockV::ToolUse(id@, name@, input@));
                let function = object2("name", jstring(name.as_str()), "arguments", jstring(arguments.as_str()));
                let call = object3("id", jstring(id.as_str()), "type", jstring("function"), "function", function);
                push_item(&mut calls, call);
            },
            _ => {},
        }
        proof {
            assert forall|k: int| 0 <= k < i + 1 implies match #[trigger] bv.take(i + 1)[k] {
                BlockV::ToolUse(_, _, input) => round_trips(input) ==> json_parse(json_render(input))
                    == Some(input),
                _ => true,
            } by {
                if k < i {
                    assert(bv.take(i + 1)[k] == bv.take(i as int)[k]);
                }
            }
        }
        i += 1;
    }
    proof {
        assert(bv.take(blocks@.len() as int) =~= bv);
    }
    if text.as_str().is_empty() && calls.len() == 0 && reasoning.as_str().is_empty() {
        assert(views(out@) =~= views(out@) + wire_assistant(bv));
        return;
    }
    let has_reasoning = !reasoning.as_str().is_empty();
    let has_calls = calls.len() > 0;
    let ghost tx = text@;
    let ghost rs = reasoning@;
    let ghost cs = views(calls@);
    let ghost m0 = seq![("role"@, jstr("assistant"@)), ("content"@, jstr(tx))];
    let ghost m1 = if rs.len() > 0 { m0.push(("reasoning_content"@, jstr(rs))) } else { m0 };
    let ghost m2 = if cs.len() > 0 { m1.push(("tool_calls"@, JsonV::Arr(cs))) } else { m1 };
    let mut m: Vec<(String, Json)> = Vec::new();
    assert(member_views(m@) =~= Seq::empty());
    push_member(&mut m, "role", jstring("assistant"));
    push_member(&mut m, "content", Json::String(text));
    assert(member_views(m@) =~= m0);
    if has_reasoning {
        push_member(&mut m, "reasoning_content", Json::String(reasoning));
    }
    assert(member_views(m@) =~= m1);
    if has_calls {
        push_member(&mut m, "tool_calls", Json::array(calls));
    }
    assert(member_views(m@) =~= m2);
    let ghost o0 = views(out@);
    let obj = Json::object(m);
    assert(wire_assistant(bv) == seq![JsonV::Obj(m2)]);
    push_item(out, obj);
    proof {
        assert(views(out@) =~= o0 + wire_assistant(bv));
    }
}

/// Converts a conversation to chat-completions messages, the system
/// message first. The arguments of each tool call are the rendered input,
/// and `serde_json` reads them back as that input wherever it round-trips.
pub fn convert_messages(messages: &[Message], system: &str) -> (r: Vec<Json>)
    ensures
        views(r@) == wire_messages(message_views(messages@), system@),
        forall|i: int|
            0 <= i < messages@.len() && (#[trigger] message_views(messages@)[i]).role
                == Role::Assistant ==> arguments_read_back(message_views(messages@)[i].content),
{
    let ghost mv = message_views(messages@);
    let mut out: Vec<Json> = Vec::new();
    assert(views(out@) =~= Seq::empty());
    let sys = object2("role", jstring("system"), "content", jstring(system));
    push_item(&mut out, sys);
    let mut i: usize = 0;
    assert(views(out@) =~= seq![system_message(system@)] + wire_all(mv.take(0)));
    while i < messages.len()
        invariant
            mv == message_views(messages@),
            i <= messages@.len(),
            views(out@) == seq![system_message(system@)] + wire_all(mv.take(i as int)),
            forall|j: int|
                0 <= j < i && (#[trigger] mv[j]).role == Role::Assistant ==> arguments_read_back(
                    mv[j].content,
                ),
        decreases messages.len() - i,
    {
        proof {
            assert(mv.take(i + 1).drop_last() =~= mv.take(i as int));
            assert(mv.take(i + 1).last() == mv[i as int]);
        }
        let msg = &messages[i];
        let ghost o0 = views(out@);
        match msg.role {
            Role::User => wire_user_exec(&msg.content, &mut out),
            Role::Assistant => wire_assistant_exec(&msg.content, &mut out),
        }
        proof {
            assert(views(out@) =~= seq![system_message(system@)] + wire_all(mv.take(i + 1)));
        }
        i += 1;
    }
    assert(mv.take(messages@.len() as int) =~= mv);
    out
}

/// The function entry for one tool, where it has a name, a description and
/// an input schema.
pub open spec fn tool_entry(t: JsonV) -> Option<JsonV> {
    match (get(t, "name"@), get(t, "description"@), get(t, "input_schema"@)) {
        (Some(n), Some(d), Some(p)) => Some(
            JsonV::Obj(
                seq![
                    ("type"@, jstr("function"@)),
                    (
                        "function"@,
                        JsonV::Obj(seq![("name"@, n), ("description"@, d), ("parameters"@, p)]),
                    ),
                ],
            ),
        ),
        _ => None,
    }
}

pub open spec fn tool_entries(items: Seq<JsonV>) -> Seq<JsonV>
    decreases items.len(),
{
    if items.len() == 0 {
        Seq::empty()
    } else {
        let rest = tool_entries(items.drop_last());
        match tool_entry(items.last()) {
            Some(e) => rest.push(e),
            None => rest,
        }
    }
}

/// The wire tool list: one function entry per complete tool; an empty list
/// where the tools are not an array.
pub open spec fn wire_tools(tools: JsonV) -> JsonV {
    match as_array(tools) {
        Some(items) => JsonV::Arr(tool_entries(items)),
        None => JsonV::Arr(Seq::empty()),
    }
}

/// Converts tool definitions (name, description, input schema) to
/// chat-completions function tools.
pub fn convert_tools(anthropic_tools: &Json) -> (r: Json)
    ensures
        r@ == wire_tools(anthropic_tools@),
{
    let items = match anthropic_tools.as_array() {
        Some(a) => a,
        None => {
            let e: Vec<Json> = Vec::new();
            assert(views(e@) =~= Seq::empty());
            return Json::array(e);
        },
    };
    let ghost iv = views(items@);
    let mut out: Vec<Json> = Vec::new();
    assert(views(out@) =~= Seq::empty());
    let mut i: usize = 0;
    while i < items.len()
        invariant
            iv == views(items@),
            i <= items@.len(),
            views(out@) == tool_entries(iv.take(i as int)),
        decreases items.len() - i,
    {
        proof {
            assert(iv.take(i + 1).drop_last() =~= iv.take(i as int));
            assert(iv.take(i + 1).last() == iv[i as int]);
        }
        let t = &items[i];
        match (t.get("name"), t.get("description"), t.get("input_schema")) {
            (Some(n), Some(d), Some(p)) => {
                let function = object3(
                    "name",
                    n.duplicate(),
                    "description",
                    d.duplicate(),
                    "parameters",
                    p.duplicate(),
                );
                let entry = object2("type", jstring("function"), "function", function);
                push_item(&mut out, entry);
            },
            _ => {},
        }
        i += 1;
    }
    assert(iv.take(items@.len() as int) =~= iv);
    Json::array(out)
}

} // verus!
