//! The payload of one `data:` line of a chat-completions stream: its typed
//! form, its view, and its decoding from a JSON document.
//!
//! Decoding follows the schema of the stream: unknown members are ignored,
//! an optional member may be absent or `null`, a member with a default may be
//! absent, and a value of the wrong kind anywhere rejects the whole payload.
//! A struct may also be written as an array of its fields in order: no more
//! elements than fields, and only fields with a default may be left off the
//! end. A tagged variant may likewise be written as an array whose first
//! element is the tag.
//! Two pairs of members are read separately and then combined: a choice's
//! `delta` is completed from its `message`, and a delta's
//! `reasoning_content` falls back to its `reasoning`.
use vstd::prelude::*;
use crate::json::{Json, JsonNumber, JsonNumberV, JsonV, get};
use crate::text::str_eq;

verus! {

#[derive(Debug)]
pub struct FunctionDelta {
    pub name: Option<String>,
    pub arguments: Option<String>,
}

#[derive(Debug)]
pub struct ToolCallDelta {
    pub index: usize,
    pub id: Option<String>,
    pub name: Option<String>,
    pub function: Option<FunctionDelta>,
}

#[derive(Debug)]
pub enum ThinkingDeltaBlock {
    Text { text: String },
}

#[derive(Debug)]
pub enum ThinkingDelta {
    Block(ThinkingDeltaBlock),
    String(String),
}

#[derive(Debug)]
pub enum ContentDeltaPart {
    Text { text: String },
    Thinking { thinking: Vec<ThinkingDelta> },
}

#[derive(Debug)]
pub enum ContentDelta {
    Array(Vec<ContentDeltaPart>),
    String(String),
}

#[derive(Debug)]
pub struct ChunkDelta {
    pub content: Option<ContentDelta>,
    pub reasoning_content: Option<String>,
    pub tool_calls: Option<Vec<ToolCallDelta>>,
}

#[derive(Debug)]
pub struct ChunkChoice {
    pub delta: Option<ChunkDelta>,
    pub finish_reason: Option<String>,
}

#[derive(Clone, Copy, Debug, PartialEq, Eq, Structural)]
pub struct PromptTokensDetails {
    pub cached_tokens: u32,
}

#[derive(Clone, Copy, Debug, PartialEq, Eq, Structural)]
pub struct ChunkUsage {
    pub prompt_tokens: u32,
    pub completion_tokens: u32,
    pub prompt_tokens_details: Option<PromptTokensDetails>,
    /// Cache hits as one provider reports them, in place of
    /// `prompt_tokens_details`.
    pub prompt_cache_hit_tokens: u32,
}

#[derive(Debug)]
pub struct SseChunk {
    pub choices: Vec<ChunkChoice>,
    pub usage: Option<ChunkUsage>,
}

// ---------------------------------------------------------------- views

pub open spec fn opt_str(o: Option<String>) -> Option<Seq<char>> {
    match o {
        Some(s) => Some(s@),
        None => None,
    }
}

pub struct FunctionDeltaV {
    pub name: Option<Seq<char>>,
    pub arguments: Option<Seq<char>>,
}

pub struct ToolCallV {
    pub index: usize,
    pub id: Option<Seq<char>>,
    pub name: Option<Seq<char>>,
    pub function: Option<FunctionDeltaV>,
}

pub enum ThinkingV {
    Block(Seq<char>),
    Str(Seq<char>),
}

pub enum PartV {
    Text(Seq<char>),
    Thinking(Seq<ThinkingV>),
}

pub enum ContentV {
    Array(Seq<PartV>),
    Str(Seq<char>),
}

pub struct DeltaV {
    pub content: Option<ContentV>,
    pub reasoning: Option<Seq<char>>,
    pub tool_calls: Option<Seq<ToolCallV>>,
}

pub struct ChoiceV {
    pub delta: Option<DeltaV>,
    pub finish_reason: Option<Seq<char>>,
}

pub struct ChunkV {
    pub choices: Seq<ChoiceV>,
    pub usage: Option<ChunkUsage>,
}

impl View for FunctionDelta {
    type V = FunctionDeltaV;

    open spec fn view(&self) -> FunctionDeltaV {
        FunctionDeltaV { name: opt_str(self.name), arguments: opt_str(self.arguments) }
    }
}

impl View for ToolCallDelta {
    type V = ToolCallV;

    open spec fn view(&self) -> ToolCallV {
        ToolCallV {
            index: self.index,
            id: opt_str(self.id),
            name: opt_str(self.name),
            function: match self.function {
                Some(f) => Some(f@),
                None => None,
            },
        }
    }
}

impl View for ThinkingDelta {
    type V = ThinkingV;

    open spec fn view(&self) -> ThinkingV {
        match self {
            ThinkingDelta::Block(ThinkingDeltaBlock::Text { text }) => ThinkingV::Block(text@),
            ThinkingDelta::String(s) => ThinkingV::Str(s@),
        }
    }
}

pub open spec fn thinking_views(s: Seq<ThinkingDelta>) -> Seq<ThinkingV> {
    Seq::new(s.len(), |i: int| s[i]@)
}

impl View for ContentDeltaPart {
    type V = PartV;

    open spec fn view(&self) -> PartV {
        match self {
            ContentDeltaPart::Text { text } => PartV::Text(text@),
            ContentDeltaPart::Thinking { thinking } => PartV::Thinking(thinking_views(thinking@)),
        }
    }
}

pub open spec fn part_views(s: Seq<ContentDeltaPart>) -> Seq<PartV> {
    Seq::new(s.len(), |i: int| s[i]@)
}

impl View for ContentDelta {
    type V = ContentV;

    open spec fn view(&self) -> ContentV {
        match self {
            ContentDelta::Array(a) => ContentV::Array(part_views(a@)),
            ContentDelta::String(s) => ContentV::Str(s@),
        }
    }
}

pub open spec fn tool_call_views(s: Seq<ToolCallDelta>) -> Seq<ToolCallV> {
    Seq::new(s.len(), |i: int| s[i]@)
}

impl View for ChunkDelta {
    type V = DeltaV;

    open spec fn view(&self) -> DeltaV {
        DeltaV {
            content: match self.content {
                Some(c) => Some(c@),
                None => None,
            },
            reasoning: opt_str(self.reasoning_content),
            tool_calls: match self.tool_calls {
                Some(t) => Some(tool_call_views(t@)),
                None => None,
            },
        }
    }
}

impl View for ChunkChoice {
    type V = ChoiceV;

    open spec fn view(&self) -> ChoiceV {
        ChoiceV {
            delta: match self.delta {
                Some(d) => Some(d@),
                None => None,
            },
            finish_reason: opt_str(self.finish_reason),
        }
    }
}

pub open spec fn choice_views(s: Seq<ChunkChoice>) -> Seq<ChoiceV> {
    Seq::new(s.len(), |i: int| s[i]@)
}

impl View for SseChunk {
    type V = ChunkV;

    open spec fn view(&self) -> ChunkV {
        ChunkV { choices: choice_views(self.choices@), usage: self.usage }
    }
}

// ---------------------------------------------------------------- decoding, as specified

/// An optional string member: absent or `null` is `None`.
pub open spec fn dec_opt_str(m: Option<JsonV>) -> Option<Option<Seq<char>>> {
    match m {
        None => Some(None),
        Some(JsonV::Null) => Some(None),
        Some(JsonV::Str(s)) => Some(Some(s)),
        _ => None,
    }
}

/// A `u32` member with a default: absent is 0; present, it must be an
/// integer in range.
pub open spec fn dec_u32_or_zero(m: Option<JsonV>) -> Option<u32> {
    match m {
        None => Some(0),
        Some(JsonV::Number(JsonNumberV::PosInt(u))) => if u <= u32::MAX {
            Some(u as u32)
        } else {
            None
        },
        _ => None,
    }
}

/// A required `usize` member.
pub open spec fn dec_usize(m: Option<JsonV>) -> Option<usize> {
    match m {
        Some(JsonV::Number(JsonNumberV::PosInt(u))) => if u <= usize::MAX {
            Some(u as usize)
        } else {
            None
        },
        _ => None,
    }
}

/// Field `key` of a struct written as an object, or the field at `pos` of
/// one written as an array of its fields.
pub open spec fn member_at(v: JsonV, key: Seq<char>, pos: int) -> Option<JsonV> {
    match v {
        JsonV::Obj(_) => get(v, key),
        JsonV::Arr(items) => if 0 <= pos < items.len() {
            Some(items[pos])
        } else {
            None
        },
        _ => None,
    }
}

/// The shape of a struct: an object, or an array of at least `min` and at
/// most `max` fields (those after the first `min` have defaults).
pub open spec fn struct_shape(v: JsonV, min: nat, max: nat) -> bool {
    match v {
        JsonV::Obj(_) => true,
        JsonV::Arr(items) => min <= items.len() <= max,
        _ => false,
    }
}

pub open spec fn dec_function(v: JsonV) -> Option<FunctionDeltaV> {
    if struct_shape(v, 2, 2) {
        match (dec_opt_str(member_at(v, "name"@, 0)), dec_opt_str(member_at(v, "arguments"@, 1))) {
            (Some(name), Some(arguments)) => Some(FunctionDeltaV { name, arguments }),
            _ => None,
        }
    } else {
        None
    }
}

pub open spec fn dec_opt_function(m: Option<JsonV>) -> Option<Option<FunctionDeltaV>> {
    match m {
        None => Some(None),
        Some(JsonV::Null) => Some(None),
        Some(v) => match dec_function(v) {
            Some(f) => Some(Some(f)),
            None => None,
        },
    }
}

pub open spec fn dec_tool_call(v: JsonV) -> Option<ToolCallV> {
    if struct_shape(v, 4, 4) {
        match (
            dec_usize(member_at(v, "index"@, 0)),
            dec_opt_str(member_at(v, "id"@, 1)),
            dec_opt_str(member_at(v, "name"@, 2)),
            dec_opt_function(member_at(v, "function"@, 3)),
        ) {
            (Some(index), Some(id), Some(name), Some(function)) => Some(
                ToolCallV { index, id, name, function },
            ),
            _ => None,
        }
    } else {
        None
    }
}

pub open spec fn dec_tool_calls(items: Seq<JsonV>) -> Option<Seq<ToolCallV>>
    decreases items.len(),
{
    if items.len() == 0 {
        Some(Seq::empty())
    } else {
        match (dec_tool_calls(items.drop_last()), dec_tool_call(items.last())) {
            (Some(rest), Some(t)) => Some(rest.push(t)),
            _ => None,
        }
    }
}

pub open spec fn dec_opt_tool_calls(m: Option<JsonV>) -> Option<Option<Seq<ToolCallV>>> {
    match m {
        None => Some(None),
        Some(JsonV::Null) => Some(None),
        Some(JsonV::Arr(items)) => match dec_tool_calls(items) {
            Some(t) => Some(Some(t)),
            None => None,
        },
        _ => None,
    }
}

/// The tag of an internally tagged value: its `type` member, or the first
/// element of its array form.
pub open spec fn tag_of(v: JsonV) -> Option<JsonV> {
    match v {
        JsonV::Obj(_) => get(v, "type"@),
        JsonV::Arr(items) => if items.len() > 0 {
            Some(items[0])
        } else {
            None
        },
        _ => None,
    }
}

/// The one field of a tagged variant: member `key`, or the element after
/// the tag in an array of exactly two.
pub open spec fn variant_field(v: JsonV, key: Seq<char>) -> Option<JsonV> {
    match v {
        JsonV::Obj(_) => get(v, key),
        JsonV::Arr(items) => if items.len() == 2 {
            Some(items[1])
        } else {
            None
        },
        _ => None,
    }
}

/// Whether the tag names the variant: by its name, or by its position as an
/// integer.
pub open spec fn tag_is(v: JsonV, name: Seq<char>, position: u64) -> bool {
    match tag_of(v) {
        Some(JsonV::Str(s)) => s == name,
        Some(JsonV::Number(JsonNumberV::PosInt(u))) => u == position,
        _ => false,
    }
}

pub open spec fn dec_thinking(v: JsonV) -> Option<ThinkingV> {
    match v {
        JsonV::Str(s) => Some(ThinkingV::Str(s)),
        _ => if tag_is(v, "text"@, 0) {
            match variant_field(v, "text"@) {
                Some(JsonV::Str(t)) => Some(ThinkingV::Block(t)),
                _ => None,
            }
        } else {
            None
        },
    }
}

pub open spec fn dec_thinkings(items: Seq<JsonV>) -> Option<Seq<ThinkingV>>
    decreases items.len(),
{
    if items.len() == 0 {
        Some(Seq::empty())
    } else {
        match (dec_thinkings(items.drop_last()), dec_thinking(items.last())) {
            (Some(rest), Some(t)) => Some(rest.push(t)),
            _ => None,
        }
    }
}

pub open spec fn dec_part(v: JsonV) -> Option<PartV> {
    if tag_is(v, "text"@, 0) {
        match variant_field(v, "text"@) {
            Some(JsonV::Str(t)) => Some(PartV::Text(t)),
            _ => None,
        }
    } else if tag_is(v, "thinking"@, 1) {
        match variant_field(v, "thinking"@) {
            Some(JsonV::Arr(items)) => match dec_thinkings(items) {
                Some(t) => Some(PartV::Thinking(t)),
                None => None,
            },
            _ => None,
        }
    } else {
        None
    }
}

pub open spec fn dec_parts(items: Seq<JsonV>) -> Option<Seq<PartV>>
    decreases items.len(),
{
    if items.len() == 0 {
        Some(Seq::empty())
    } else {
        match (dec_parts(items.drop_last()), dec_part(items.last())) {
            (Some(rest), Some(p)) => Some(rest.push(p)),
            _ => None,
        }
    }
}

/// `content`: an array of parts, or a string.
pub open spec fn dec_opt_content(m: Option<JsonV>) -> Option<Option<ContentV>> {
    match m {
        None => Some(None),
        Some(JsonV::Null) => Some(None),
        Some(JsonV::Arr(items)) => match dec_parts(items) {
            Some(p) => Some(Some(ContentV::Array(p))),
            None => None,
        },
        Some(JsonV::Str(s)) => Some(Some(ContentV::Str(s))),
        _ => None,
    }
}

/// The first of two optional values that is present.
pub open spec fn or_else<T>(a: Option<T>, b: Option<T>) -> Option<T> {
    if a is Some {
        a
    } else {
        b
    }
}

/// A delta: `content`, `tool_calls`, and the reasoning, which is
/// `reasoning_content` where that is present and `reasoning` otherwise.
pub open spec fn dec_delta(v: JsonV) -> Option<DeltaV> {
    if struct_shape(v, 4, 4) {
        match (
            dec_opt_content(member_at(v, "content"@, 0)),
            dec_opt_str(member_at(v, "reasoning_content"@, 1)),
            dec_opt_str(member_at(v, "reasoning"@, 2)),
            dec_opt_tool_calls(member_at(v, "tool_calls"@, 3)),
        ) {
            (Some(content), Some(reasoning_content), Some(reasoning), Some(tool_calls)) => Some(
                DeltaV { content, reasoning: or_else(reasoning_content, reasoning), tool_calls },
            ),
            _ => None,
        }
    } else {
        None
    }
}

pub open spec fn dec_opt_delta(m: Option<JsonV>) -> Option<Option<DeltaV>> {
    match m {
        None => Some(None),
        Some(JsonV::Null) => Some(None),
        Some(v) => match dec_delta(v) {
            Some(d) => Some(Some(d)),
            None => None,
        },
    }
}

/// `delta` completed from `message`: each of the content, the reasoning and
/// the tool calls that `delta` lacks is taken from `message`; where only one
/// of the two is present, that one.
pub open spec fn merge_delta(d: Option<DeltaV>, m: Option<DeltaV>) -> Option<DeltaV> {
    match (d, m) {
        (Some(x), Some(y)) => Some(
            DeltaV {
                content: or_else(x.content, y.content),
                reasoning: or_else(x.reasoning, y.reasoning),
                tool_calls: or_else(x.tool_calls, y.tool_calls),
            },
        ),
        (Some(x), None) => Some(x),
        (None, Some(y)) => Some(y),
        (None, None) => None,
    }
}

/// A choice: its `delta` completed from its `message`, and its
/// `finish_reason`.
pub open spec fn dec_choice(v: JsonV) -> Option<ChoiceV> {
    if struct_shape(v, 3, 3) {
        match (
            dec_opt_delta(member_at(v, "delta"@, 0)),
            dec_opt_delta(member_at(v, "message"@, 1)),
            dec_opt_str(member_at(v, "finish_reason"@, 2)),
        ) {
            (Some(delta), Some(message), Some(finish_reason)) => Some(
                ChoiceV { delta: merge_delta(delta, message), finish_reason },
            ),
            _ => None,
        }
    } else {
        None
    }
}

pub open spec fn dec_choices(items: Seq<JsonV>) -> Option<Seq<ChoiceV>>
    decreases items.len(),
{
    if items.len() == 0 {
        Some(Seq::empty())
    } else {
        match (dec_choices(items.drop_last()), dec_choice(items.last())) {
            (Some(rest), Some(c)) => Some(rest.push(c)),
            _ => None,
        }
    }
}

/// `choices`: absent is empty.
pub open spec fn dec_choices_member(m: Option<JsonV>) -> Option<Seq<ChoiceV>> {
    match m {
        None => Some(Seq::empty()),
        Some(JsonV::Arr(items)) => dec_choices(items),
        _ => None,
    }
}

pub open spec fn dec_details(m: Option<JsonV>) -> Option<Option<PromptTokensDetails>> {
    match m {
        None => Some(None),
        Some(JsonV::Null) => Some(None),
        Some(v) => if struct_shape(v, 0, 1) {
            match dec_u32_or_zero(member_at(v, "cached_tokens"@, 0)) {
                Some(c) => Some(Some(PromptTokensDetails { cached_tokens: c })),
                None => None,
            }
        } else {
            None
        },
    }
}

pub open spec fn dec_usage(m: Option<JsonV>) -> Option<Option<ChunkUsage>> {
    match m {
        None => Some(None),
        Some(JsonV::Null) => Some(None),
        Some(v) => if struct_shape(v, 3, 4) {
            match (
                dec_u32_or_zero(member_at(v, "prompt_tokens"@, 0)),
                dec_u32_or_zero(member_at(v, "completion_tokens"@, 1)),
                dec_details(member_at(v, "prompt_tokens_details"@, 2)),
                dec_u32_or_zero(member_at(v, "prompt_cache_hit_tokens"@, 3)),
            ) {
                (Some(p), Some(c), Some(d), Some(h)) => Some(
                    Some(
                        ChunkUsage {
                            prompt_tokens: p,
                            completion_tokens: c,
                            prompt_tokens_details: d,
                            prompt_cache_hit_tokens: h,
                        },
                    ),
                ),
                _ => None,
            }
        } else {
            None
        },
    }
}

/// The payload of a `data:` line as a stream chunk; `None` where the
/// document does not fit the schema.
pub open spec fn dec_chunk(v: JsonV) -> Option<ChunkV> {
    if struct_shape(v, 2, 2) {
        match (dec_choices_member(member_at(v, "choices"@, 0)), dec_usage(member_at(v, "usage"@, 1))) {
            (Some(choices), Some(usage)) => Some(ChunkV { choices, usage }),
            _ => None,
        }
    } else {
        None
    }
}

/// An error carried in the stream, `{"error": {"type": .., "message": ..}}`,
/// as its type and message.
pub open spec fn dec_stream_error(v: JsonV) -> Option<(Seq<char>, Seq<char>)> {
    if struct_shape(v, 1, 1) {
        match member_at(v, "error"@, 0) {
            Some(e) => if struct_shape(e, 2, 2) {
                match (member_at(e, "type"@, 0), member_at(e, "message"@, 1)) {
                    (Some(JsonV::Str(t)), Some(JsonV::Str(m))) => Some((t, m)),
                    _ => None,
                }
            } else {
                None
            },
            None => None,
        }
    } else {
        None
    }
}

// ---------------------------------------------------------------- decoding, executable

fn field_at<'a>(j: &'a Json, key: &str, pos: usize) -> (r: Option<&'a Json>)
    ensures
        opt_view(r) == member_at(j@, key@, pos as int),
{
    match j {
        Json::Object(_) => j.get(key),
        Json::Array(items) => {
            proof {
                crate::json::lemma_array_view(*items);
            }
            if pos < items.len() {
                Some(&items[pos])
            } else {
                None
            }
        },
        _ => None,
    }
}

fn has_struct_shape(j: &Json, min: usize, max: usize) -> (r: bool)
    ensures
        r == struct_shape(j@, min as nat, max as nat),
{
    match j {
        Json::Object(_) => true,
        Json::Array(items) => {
            proof {
                crate::json::lemma_array_view(*items);
            }
            min <= items.len() && items.len() <= max
        },
        _ => false,
    }
}

fn variant_field_of<'a>(j: &'a Json, key: &str) -> (r: Option<&'a Json>)
    ensures
        opt_view(r) == variant_field(j@, key@),
{
    match j {
        Json::Object(_) => j.get(key),
        Json::Array(items) => {
            proof {
                crate::json::lemma_array_view(*items);
            }
            if items.len() == 2 {
                Some(&items[1])
            } else {
                None
            }
        },
        _ => None,
    }
}

fn is_null(j: &Json) -> (r: bool)
    ensures
        r == (j@ is Null),
{
    match j {
        Json::Null => true,
        _ => false,
    }
}

fn decode_opt_str(m: Option<&Json>) -> (r: Option<Option<String>>)
    ensures
        match r {
            Some(o) => dec_opt_str(
                match m {
                    Some(x) => Some(x@),
                    None => None,
                },
            ) == Some(opt_str(o)),
            None => dec_opt_str(
                match m {
                    Some(x) => Some(x@),
                    None => None,
                },
            ) is None,
        },
{
    match m {
        None => Some(None),
        Some(Json::Null) => Some(None),
        Some(Json::String(s)) => Some(Some(s.clone())),
        _ => None,
    }
}

pub open spec fn opt_view(m: Option<&Json>) -> Option<JsonV> {
    match m {
        Some(x) => Some(x@),
        None => None,
    }
}

fn decode_u32_or_zero(m: Option<&Json>) -> (r: Option<u32>)
    ensures
        r == dec_u32_or_zero(opt_view(m)),
{
    match m {
        None => Some(0),
        Some(Json::Number(JsonNumber::PosInt(u))) => if *u <= 4294967295u64 {
            Some(*u as u32)
        } else {
            None
        },
        _ => None,
    }
}

fn decode_usize(m: Option<&Json>) -> (r: Option<usize>)
    ensures
        r == dec_usize(opt_view(m)),
{
    match m {
        Some(Json::Number(JsonNumber::PosInt(u))) => if *u as u128 <= usize::MAX as u128 {
            Some(*u as usize)
        } else {
            None
        },
        _ => None,
    }
}

fn decode_function(j: &Json) -> (r: Option<FunctionDelta>)
    ensures
        match r {
            Some(f) => dec_function(j@) == Some(f@),
            None => dec_function(j@) is None,
        },
{
    if !has_struct_shape(j, 2, 2) {
        return None;
    }
    match (decode_opt_str(field_at(j, "name", 0)), decode_opt_str(field_at(j, "arguments", 1))) {
        (Some(name), Some(arguments)) => Some(FunctionDelta { name, arguments }),
        _ => None,
    }
}

fn decode_tool_call(j: &Json) -> (r: Option<ToolCallDelta>)
    ensures
        match r {
            Some(t) => dec_tool_call(j@) == Some(t@),
            None => dec_tool_call(j@) is None,
        },
{
    if !has_struct_shape(j, 4, 4) {
        return None;
    }
    let index = match decode_usize(field_at(j, "index", 0)) {
        Some(i) => i,
        None => return None,
    };
    let id = match decode_opt_str(field_at(j, "id", 1)) {
        Some(i) => i,
        None => return None,
    };
    let name = match decode_opt_str(field_at(j, "name", 2)) {
        Some(n) => n,
        None => return None,
    };
    let function = match field_at(j, "function", 3) {
        None => None,
        Some(f) => if is_null(f) {
            None
        } else {
            match decode_function(f) {
                Some(fd) => Some(fd),
                None => return None,
            }
        },
    };
    Some(ToolCallDelta { index, id, name, function })
}

fn decode_tool_calls(items: &Vec<Json>) -> (r: Option<Vec<ToolCallDelta>>)
    ensures
        match r {
            Some(t) => dec_tool_calls(crate::json::views(items@)) == Some(tool_call_views(t@)),
            None => dec_tool_calls(crate::json::views(items@)) is None,
        },
{
    let ghost vs = crate::json::views(items@);
    let mut out: Vec<ToolCallDelta> = Vec::new();
    let mut i: usize = 0;
    while i < items.len()
        invariant
            vs == crate::json::views(items@),
            i <= items@.len(),
            out@.len() == i,
            dec_tool_calls(vs.take(i as int)) == Some(tool_call_views(out@)),
        decreases items.len() - i,
    {
        proof {
            assert(vs.take(i + 1).drop_last() =~= vs.take(i as int));
        }
        match decode_tool_call(&items[i]) {
            Some(t) => {
                let ghost before = out@;
                out.push(t);
                assert(tool_call_views(out@) =~= tool_call_views(before).push(out@[i as int]@));
            },
            None => {
                proof {
                    lemma_fail_extends_tool_calls(vs, i as int + 1);
                }
                return None;
            },
        }
        i += 1;
    }
    assert(vs.take(items@.len() as int) =~= vs);
    Some(out)
}

proof fn lemma_fail_extends_tool_calls(vs: Seq<JsonV>, k: int)
    requires
        0 < k <= vs.len(),
        dec_tool_calls(vs.take(k)) is None,
    ensures
        dec_tool_calls(vs) is None,
    decreases vs.len() - k,
{
    if k < vs.len() {
        assert(vs.take(k + 1).drop_last() =~= vs.take(k));
        lemma_fail_extends_tool_calls(vs, k + 1);
    } else {
        assert(vs.take(k) =~= vs);
    }
}

proof fn lemma_fail_extends_thinkings(vs: Seq<JsonV>, k: int)
    requires
        0 < k <= vs.len(),
        dec_thinkings(vs.take(k)) is None,
    ensures
        dec_thinkings(vs) is None,
    decreases vs.len() - k,
{
    if k < vs.len() {
        assert(vs.take(k + 1).drop_last() =~= vs.take(k));
        lemma_fail_extends_thinkings(vs, k + 1);
    } else {
        assert(vs.take(k) =~= vs);
    }
}

proof fn lemma_fail_extends_parts(vs: Seq<JsonV>, k: int)
    requires
        0 < k <= vs.len(),
        dec_parts(vs.take(k)) is None,
    ensures
        dec_parts(vs) is None,
    decreases vs.len() - k,
{
    if k < vs.len() {
        assert(vs.take(k + 1).drop_last() =~= vs.take(k));
        lemma_fail_extends_parts(vs, k + 1);
    } else {
        assert(vs.take(k) =~= vs);
    }
}

proof fn lemma_fail_extends_choices(vs: Seq<JsonV>, k: int)
    requires
        0 < k <= vs.len(),
        dec_choices(vs.take(k)) is None,
    ensures
        dec_choices(vs) is None,
    decreases vs.len() - k,
{
    if k < vs.len() {
        assert(vs.take(k + 1).drop_last() =~= vs.take(k));
        lemma_fail_extends_choices(vs, k + 1);
    } else {
        assert(vs.take(k) =~= vs);
    }
}

fn tag_is_exec(j: &Json, name: &str, position: u64) -> (r: bool)
    ensures
        r == tag_is(j@, name@, position),
{
    let tag = match j {
        Json::Object(_) => j.get("type"),
        Json::Array(items) => {
            proof {
                crate::json::lemma_array_view(*items);
            }
            if items.len() > 0 {
                Some(&items[0])
            } else {
                None
            }
        },
        _ => None,
    };
    match tag {
        Some(Json::String(s)) => str_eq(s.as_str(), name),
        Some(Json::Number(JsonNumber::PosInt(u))) => *u == position,
        _ => false,
    }
}

fn decode_thinking(j: &Json) -> (r: Option<ThinkingDelta>)
    ensures
        match r {
            Some(t) => dec_thinking(j@) == Some(t@),
            None => dec_thinking(j@) is None,
        },
{
    match j {
        Json::String(s) => Some(ThinkingDelta::String(s.clone())),
        _ => {
            if tag_is_exec(j, "text", 0) {
                match variant_field_of(j, "text") {
                    Some(Json::String(t)) => Some(
                        ThinkingDelta::Block(ThinkingDeltaBlock::Text { text: t.clone() }),
                    ),
                    _ => None,
                }
            } else {
                None
            }
        },
    }
}

fn decode_thinkings(items: &Vec<Json>) -> (r: Option<Vec<ThinkingDelta>>)
    ensures
        match r {
            Some(t) => dec_thinkings(crate::json::views(items@)) == Some(thinking_views(t@)),
            None => dec_thinkings(crate::json::views(items@)) is None,
        },
{
    let ghost vs = crate::json::views(items@);
    let mut out: Vec<ThinkingDelta> = Vec::new();
    let mut i: usize = 0;
    while i < items.len()
        invariant
            vs == crate::json::views(items@),
            i <= items@.len(),
            out@.len() == i,
            dec_thinkings(vs.take(i as int)) == Some(thinking_views(out@)),
        decreases items.len() - i,
    {
        proof {
            assert(vs.take(i + 1).drop_last() =~= vs.take(i as int));
        }
        match decode_thinking(&items[i]) {
            Some(t) => {
                let ghost before = out@;
                out.push(t);
                assert(thinking_views(out@) =~= thinking_views(before).push(out@[i as int]@));
            },
            None => {
                proof {
                    lemma_fail_extends_thinkings(vs, i as int + 1);
                }
                return None;
            },
        }
        i += 1;
    }
    assert(vs.take(items@.len() as int) =~= vs);
    Some(out)
}

fn decode_part(j: &Json) -> (r: Option<ContentDeltaPart>)
    ensures
        match r {
            Some(p) => dec_part(j@) == Some(p@),
            None => dec_part(j@) is None,
        },
{
    if tag_is_exec(j, "text", 0) {
        match variant_field_of(j, "text") {
            Some(Json::String(t)) => Some(ContentDeltaPart::Text { text: t.clone() }),
            _ => None,
        }
    } else if tag_is_exec(j, "thinking", 1) {
        match variant_field_of(j, "thinking") {
            Some(Json::Array(items)) => {
                proof {
                    crate::json::lemma_array_view(*items);
                }
                match decode_thinkings(items) {
                    Some(t) => Some(ContentDeltaPart::Thinking { thinking: t }),
                    None => None,
                }
            },
            _ => None,
        }
    } else {
        None
    }
}

fn decode_parts(items: &Vec<Json>) -> (r: Option<Vec<ContentDeltaPart>>)
    ensures
        match r {
            Some(t) => dec_parts(crate::json::views(items@)) == Some(part_views(t@)),
            None => dec_parts(crate::json::views(items@)) is None,
        },
{
    let ghost vs = crate::json::views(items@);
    let mut out: Vec<ContentDeltaPart> = Vec::new();
    let mut i: usize = 0;
    while i < items.len()
        invariant
            vs == crate::json::views(items@),
            i <= items@.len(),
            out@.len() == i,
            dec_parts(vs.take(i as int)) == Some(part_views(out@)),
        decreases items.len() - i,
    {
        proof {
            assert(vs.take(i + 1).drop_last() =~= vs.take(i as int));
        }
        match decode_part(&items[i]) {
            Some(p) => {
                let ghost before = out@;
                out.push(p);
                assert(part_views(out@) =~= part_views(before).push(out@[i as int]@));
            },
            None => {
                proof {
                    lemma_fail_extends_parts(vs, i as int + 1);
                }
                return None;
            },
        }
        i += 1;
    }
    assert(vs.take(items@.len() as int) =~= vs);
    Some(out)
}

fn decode_opt_content(m: Option<&Json>) -> (r: Option<Option<ContentDelta>>)
    ensures
        match r {
            Some(o) => dec_opt_content(opt_view(m)) == Some(
                match o {
                    Some(c) => Some(c@),
                    None => None,
                },
            ),
            None => dec_opt_content(opt_view(m)) is None,
        },
{
    match m {
        None => Some(None),
        Some(Json::Null) => Some(None),
        Some(Json::Array(items)) => {
            proof {
                crate::json::lemma_array_view(*items);
            }
            match decode_parts(items) {
                Some(p) => Some(Some(ContentDelta::Array(p))),
                None => None,
            }
        },
        Some(Json::String(s)) => Some(Some(ContentDelta::String(s.clone()))),
        _ => None,
    }
}

fn decode_delta(j: &Json) -> (r: Option<ChunkDelta>)
    ensures
        match r {
            Some(d) => dec_delta(j@) == Some(d@),
            None => dec_delta(j@) is None,
        },
{
    if !has_struct_shape(j, 4, 4) {
        return None;
    }
    let content = match decode_opt_content(field_at(j, "content", 0)) {
        Some(c) => c,
        None => return None,
    };
    let reasoning_content = match decode_opt_str(field_at(j, "reasoning_content", 1)) {
        Some(r) => r,
        None => return None,
    };
    let reasoning = match decode_opt_str(field_at(j, "reasoning", 2)) {
        Some(r) => r,
        None => return None,
    };
    let tool_calls = match field_at(j, "tool_calls", 3) {
        None => None,
        Some(Json::Null) => None,
        Some(Json::Array(items)) => {
            proof {
                crate::json::lemma_array_view(*items);
            }
            match decode_tool_calls(items) {
                Some(t) => Some(t),
                None => return None,
            }
        },
        _ => return None,
    };
    let reasoning_content = match reasoning_content {
        Some(x) => Some(x),
        None => reasoning,
    };
    Some(ChunkDelta { content, reasoning_content, tool_calls })
}

pub open spec fn opt_delta_view(o: Option<ChunkDelta>) -> Option<DeltaV> {
    match o {
        Some(d) => Some(d@),
        None => None,
    }
}

fn decode_opt_delta(m: Option<&Json>) -> (r: Option<Option<ChunkDelta>>)
    ensures
        match r {
            Some(o) => dec_opt_delta(opt_view(m)) == Some(opt_delta_view(o)),
            None => dec_opt_delta(opt_view(m)) is None,
        },
{
    match m {
        None => Some(None),
        Some(d) => if is_null(d) {
            Some(None)
        } else {
            match decode_delta(d) {
                Some(x) => Some(Some(x)),
                None => None,
            }
        },
    }
}

fn merge_deltas(d: Option<ChunkDelta>, m: Option<ChunkDelta>) -> (r: Option<ChunkDelta>)
    ensures
        opt_delta_view(r) == merge_delta(opt_delta_view(d), opt_delta_view(m)),
{
    match (d, m) {
        (Some(x), Some(y)) => {
            let ChunkDelta { content: xc, reasoning_content: xr, tool_calls: xt } = x;
            let ChunkDelta { content: yc, reasoning_content: yr, tool_calls: yt } = y;
            let content = match xc {
                Some(c) => Some(c),
                None => yc,
            };
            let reasoning_content = match xr {
                Some(c) => Some(c),
                None => yr,
            };
            let tool_calls = match xt {
                Some(c) => Some(c),
                None => yt,
            };
            Some(ChunkDelta { content, reasoning_content, tool_calls })
        },
        (Some(x), None) => Some(x),
        (None, Some(y)) => Some(y),
        (None, None) => None,
    }
}

fn decode_choice(j: &Json) -> (r: Option<ChunkChoice>)
    ensures
        match r {
            Some(c) => dec_choice(j@) == Some(c@),
            None => dec_choice(j@) is None,
        },
{
    if !has_struct_shape(j, 3, 3) {
        return None;
    }
    let delta = match decode_opt_delta(field_at(j, "delta", 0)) {
        Some(d) => d,
        None => return None,
    };
    let message = match decode_opt_delta(field_at(j, "message", 1)) {
        Some(d) => d,
        None => return None,
    };
    let finish_reason = match decode_opt_str(field_at(j, "finish_reason", 2)) {
        Some(f) => f,
        None => return None,
    };
    Some(ChunkChoice { delta: merge_deltas(delta, message), finish_reason })
}

fn decode_choices(items: &Vec<Json>) -> (r: Option<Vec<ChunkChoice>>)
    ensures
        match r {
            Some(t) => dec_choices(crate::json::views(items@)) == Some(choice_views(t@)),
            None => dec_choices(crate::json::views(items@)) is None,
        },
{
    let ghost vs = crate::json::views(items@);
    let mut out: Vec<ChunkChoice> = Vec::new();
    let mut i: usize = 0;
    while i < items.len()
        invariant
            vs == crate::json::views(items@),
            i <= items@.len(),
            out@.len() == i,
            dec_choices(vs.take(i as int)) == Some(choice_views(out@)),
        decreases items.len() - i,
    {
        proof {
            assert(vs.take(i + 1).drop_last() =~= vs.take(i as int));
        }
        match decode_choice(&items[i]) {
            Some(c) => {
                let ghost before = out@;
                out.push(c);
                assert(choice_views(out@) =~= choice_views(before).push(out@[i as int]@));
            },
            None => {
                proof {
                    lemma_fail_extends_choices(vs, i as int + 1);
                }
                return None;
            },
        }
        i += 1;
    }
    assert(vs.take(items@.len() as int) =~= vs);
    Some(out)
}

fn decode_usage(m: Option<&Json>) -> (r: Option<Option<ChunkUsage>>)
    ensures
        r == dec_usage(opt_view(m)),
{
    let u = match m {
        None => return Some(None),
        Some(u) => u,
    };
    if is_null(u) {
        return Some(None);
    }
    if !has_struct_shape(u, 3, 4) {
        return None;
    }
    let prompt_tokens = match decode_u32_or_zero(field_at(u, "prompt_tokens", 0)) {
        Some(x) => x,
        None => return None,
    };
    let completion_tokens = match decode_u32_or_zero(field_at(u, "completion_tokens", 1)) {
        Some(x) => x,
        None => return None,
    };
    let prompt_tokens_details = match field_at(u, "prompt_tokens_details", 2) {
        None => None,
        Some(d) => if is_null(d) {
            None
        } else if has_struct_shape(d, 0, 1) {
            match decode_u32_or_zero(field_at(d, "cached_tokens", 0)) {
                Some(c) => Some(PromptTokensDetails { cached_tokens: c }),
                None => return None,
            }
        } else {
            return None;
        },
    };
    let prompt_cache_hit_tokens = match decode_u32_or_zero(field_at(u, "prompt_cache_hit_tokens", 3)) {
        Some(x) => x,
        None => return None,
    };
    Some(
        Some(
            ChunkUsage {
                prompt_tokens,
                completion_tokens,
                prompt_tokens_details,
                prompt_cache_hit_tokens,
            },
        ),
    )
}

/// Decodes the payload of a `data:` line as a stream chunk.
pub fn decode_chunk(j: &Json) -> (r: Option<SseChunk>)
    ensures
        match r {
            Some(c) => dec_chunk(j@) == Some(c@),
            None => dec_chunk(j@) is None,
        },
{
    if !has_struct_shape(j, 2, 2) {
        return None;
    }
    let choices = match field_at(j, "choices", 0) {
        None => {
            let v: Vec<ChunkChoice> = Vec::new();
            assert(choice_views(v@) =~= Seq::empty());
            v
        },
        Some(Json::Array(items)) => {
            proof {
                crate::json::lemma_array_view(*items);
            }
            match decode_choices(items) {
                Some(c) => c,
                None => return None,
            }
        },
        _ => return None,
    };
    let usage = match decode_usage(field_at(j, "usage", 1)) {
        Some(u) => u,
        None => return None,
    };
    Some(SseChunk { choices, usage })
}

/// Decodes an error carried in the stream into its type and message.
pub fn decode_stream_error(j: &Json) -> (r: Option<(String, String)>)
    ensures
        match r {
            Some((t, m)) => dec_stream_error(j@) == Some((t@, m@)),
            None => dec_stream_error(j@) is None,
        },
{
    if !has_struct_shape(j, 1, 1) {
        return None;
    }
    match field_at(j, "error", 0) {
        Some(e) => {
            if !has_struct_shape(e, 2, 2) {
                return None;
            }
            match (field_at(e, "type", 0), field_at(e, "message", 1)) {
                (Some(Json::String(t)), Some(Json::String(m))) => Some((t.clone(), m.clone())),
                _ => None,
            }
        },
        None => None,
    }
}

} // verus!
