//! Conversation and streaming types shared by the provider: messages and
//! their content blocks, token usage, stop reasons, stream events and
//! errors, each with its mathematical view.
use vstd::prelude::*;
use vstd::string::StringExecFns;
use crate::json::{Json, JsonV};
use crate::text::str_eq;

verus! {

#[derive(Clone, Copy, Debug, PartialEq, Eq, Structural)]
pub enum Role {
    User,
    Assistant,
}

#[derive(Clone, Copy, Debug, PartialEq, Eq, Structural)]
pub enum ImageMediaType {
    Png,
    Jpeg,
    Gif,
    Webp,
}

/// The MIME type of an image media type.
pub open spec fn mime_type(t: ImageMediaType) -> Seq<char> {
    match t {
        ImageMediaType::Png => "image/png"@,
        ImageMediaType::Jpeg => "image/jpeg"@,
        ImageMediaType::Gif => "image/gif"@,
        ImageMediaType::Webp => "image/webp"@,
    }
}

impl ImageMediaType {
    pub fn mime_type(&self) -> (r: &'static str)
        ensures
            r@ == mime_type(*self),
    {
        match self {
            ImageMediaType::Png => "image/png",
            ImageMediaType::Jpeg => "image/jpeg",
            ImageMediaType::Gif => "image/gif",
            ImageMediaType::Webp => "image/webp",
        }
    }
}

/// Base64-encoded image data with its media type.
#[derive(Debug, PartialEq)]
pub struct ImageSource {
    pub media_type: ImageMediaType,
    pub data: String,
}

/// The `data:` URL of an image: `data:<mime>;base64,<data>`.
pub open spec fn data_url(t: ImageMediaType, data: Seq<char>) -> Seq<char> {
    "data:"@ + mime_type(t) + ";base64,"@ + data
}

impl Clone for ImageSource {
    fn clone(&self) -> (r: ImageSource)
        ensures
            r.media_type == self.media_type,
            r.data@ == self.data@,
    {
        ImageSource { media_type: self.media_type, data: self.data.clone() }
    }
}

impl ImageSource {
    pub fn new(media_type: ImageMediaType, data: String) -> (r: ImageSource)
        ensures
            r.media_type == media_type,
            r.data@ == data@,
    {
        ImageSource { media_type, data }
    }

    pub fn to_data_url(&self) -> (r: String)
        ensures
            r@ == data_url(self.media_type, self.data@),
    {
        let mut r = String::from_str("data:");
        r.append(self.media_type.mime_type());
        r.append(";base64,");
        r.append(self.data.as_str());
        r
    }
}

/// One block of message content.
#[derive(Clone, Debug, PartialEq)]
pub enum ContentBlock {
    Text { text: String },
    Image { source: ImageSource },
    ToolResult { tool_use_id: String, content: String, is_error: bool },
    ToolUse { id: String, name: String, input: Json },
    Thinking { thinking: String, signature: Option<String> },
    RedactedThinking { data: String },
}

pub enum BlockV {
    Text(Seq<char>),
    Image(ImageMediaType, Seq<char>),
    ToolResult(Seq<char>, Seq<char>, bool),
    ToolUse(Seq<char>, Seq<char>, JsonV),
    Thinking(Seq<char>, Option<Seq<char>>),
    RedactedThinking(Seq<char>),
}

impl View for ContentBlock {
    type V = BlockV;

    open spec fn view(&self) -> BlockV {
        match self {
            ContentBlock::Text { text } => BlockV::Text(text@),
            ContentBlock::Image { source } => BlockV::Image(source.media_type, source.data@),
            ContentBlock::ToolResult { tool_use_id, content, is_error } => BlockV::ToolResult(
                tool_use_id@,
                content@,
                *is_error,
            ),
            ContentBlock::ToolUse { id, name, input } => BlockV::ToolUse(id@, name@, input@),
            ContentBlock::Thinking { thinking, signature } => BlockV::Thinking(
                thinking@,
                match signature {
                    Some(s) => Some(s@),
                    None => None,
                },
            ),
            ContentBlock::RedactedThinking { data } => BlockV::RedactedThinking(data@),
        }
    }
}

pub open spec fn block_views(s: Seq<ContentBlock>) -> Seq<BlockV> {
    Seq::new(s.len(), |i: int| s[i]@)
}

/// A conversation message.
#[derive(Clone, Debug, PartialEq)]
pub struct Message {
    pub role: Role,
    pub content: Vec<ContentBlock>,
}

pub struct MessageV {
    pub role: Role,
    pub content: Seq<BlockV>,
}

impl View for Message {
    type V = MessageV;

    open spec fn view(&self) -> MessageV {
        MessageV { role: self.role, content: block_views(self.content@) }
    }
}

pub open spec fn message_views(s: Seq<Message>) -> Seq<MessageV> {
    Seq::new(s.len(), |i: int| s[i]@)
}

/// The `(id, name, input)` of every tool-use block, in order.
pub open spec fn tool_uses_of(blocks: Seq<BlockV>) -> Seq<(Seq<char>, Seq<char>, JsonV)>
    decreases blocks.len(),
{
    if blocks.len() == 0 {
        Seq::empty()
    } else {
        let rest = tool_uses_of(blocks.drop_last());
        match blocks.last() {
            BlockV::ToolUse(id, name, input) => rest.push((id, name, input)),
            _ => rest,
        }
    }
}

impl Message {
    /// A user message holding one text block.
    pub fn user(text: String) -> (r: Message)
        ensures
            r@.role == Role::User,
            r@.content == seq![BlockV::Text(text@)],
    {
        let content = vec![ContentBlock::Text { text }];
        let r = Message { role: Role::User, content };
        assert(r@.content =~= seq![BlockV::Text(text@)]);
        r
    }

    /// A user message holding a text block followed by one image block per
    /// image.
    pub fn user_with_images(text: String, images: Vec<ImageSource>) -> (r: Message)
        ensures
            r@.role == Role::User,
            r@.content.len() == images@.len() + 1,
            r@.content[0] == BlockV::Text(text@),
            forall|i: int|
                0 <= i < images@.len() ==> r@.content[i + 1] == BlockV::Image(
                    #[trigger] images@[i].media_type,
                    images@[i].data@,
                ),
    {
        let ghost t = text@;
        let mut content = vec![ContentBlock::Text { text }];
        let mut i: usize = 0;
        let ghost imgs = images@;
        let mut images = images;
        let mut rest: Vec<ContentBlock> = Vec::new();
        while i < images.len()
            invariant
                images@ == imgs,
                i <= imgs.len(),
                rest@.len() == i,
                forall|j: int|
                    0 <= j < i ==> rest@[j]@ == BlockV::Image(
                        #[trigger] imgs[j].media_type,
                        imgs[j].data@,
                    ),
            decreases imgs.len() - i,
        {
            let source = images[i].clone();
            rest.push(ContentBlock::Image { source });
            i += 1;
        }
        content.append(&mut rest);
        let r = Message { role: Role::User, content };
        assert(r@.content[0] == BlockV::Text(t));
        r
    }

    /// Whether any block is a tool use.
    pub fn has_tool_calls(&self) -> (r: bool)
        ensures
            r == (exists|i: int| 0 <= i < self@.content.len() && #[trigger] self@.content[i] is ToolUse),
    {
        let mut i: usize = 0;
        while i < self.content.len()
            invariant
                i <= self.content@.len(),
                forall|j: int| 0 <= j < i ==> !(#[trigger] self@.content[j] is ToolUse),
            decreases self.content.len() - i,
        {
            if let ContentBlock::ToolUse { .. } = &self.content[i] {
                assert(self@.content[i as int] is ToolUse);
                return true;
            }
            i += 1;
        }
        false
    }

    /// The `(id, name, input)` of every tool-use block, in order.
    pub fn tool_uses(&self) -> (r: Vec<(String, String, Json)>)
        ensures
            r@.len() == tool_uses_of(self@.content).len(),
            forall|i: int|
                0 <= i < r@.len() ==> (#[trigger] r@[i].0@, r@[i].1@, r@[i].2@) == tool_uses_of(
                    self@.content,
                )[i],
    {
        let mut r: Vec<(String, String, Json)> = Vec::new();
        let mut i: usize = 0;
        let ghost bv = self@.content;
        while i < self.content.len()
            invariant
                bv == self@.content,
                i <= bv.len(),
                r@.len() == tool_uses_of(bv.take(i as int)).len(),
                forall|k: int|
                    0 <= k < r@.len() ==> (#[trigger] r@[k].0@, r@[k].1@, r@[k].2@)
                        == tool_uses_of(bv.take(i as int))[k],
            decreases self.content.len() - i,
        {
            proof {
                assert(bv.take(i + 1).drop_last() =~= bv.take(i as int));
            }
            if let ContentBlock::ToolUse { id, name, input } = &self.content[i] {
                r.push((id.clone(), name.clone(), input.duplicate()));
            }
            i += 1;
        }
        assert(bv.take(bv.len() as int) =~= bv);
        r
    }
}

/// Token counts reported for one request.
#[derive(Clone, Copy, Debug, PartialEq, Eq, Structural)]
pub struct TokenUsage {
    pub input: u32,
    pub output: u32,
    pub cache_read: u32,
    pub cache_creation: u32,
}

impl Default for TokenUsage {
    fn default() -> (r: TokenUsage)
        ensures
            r == (TokenUsage { input: 0, output: 0, cache_read: 0, cache_creation: 0 }),
    {
        TokenUsage { input: 0, output: 0, cache_read: 0, cache_creation: 0 }
    }
}

/// Why the model stopped.
#[derive(Clone, Copy, Debug, PartialEq, Eq, Structural)]
pub enum StopReason {
    EndTurn,
    MaxTokens,
    StopSequence,
    ToolUse,
}

/// The stop reason for an OpenAI `finish_reason`.
pub open spec fn stop_from_openai(reason: Seq<char>) -> StopReason {
    if reason == "length"@ {
        StopReason::MaxTokens
    } else if reason == "tool_calls"@ || reason == "function_call"@ {
        StopReason::ToolUse
    } else {
        StopReason::EndTurn
    }
}

pub open spec fn stop_text(r: StopReason) -> Seq<char> {
    match r {
        StopReason::EndTurn => "end_turn"@,
        StopReason::MaxTokens => "max_tokens"@,
        StopReason::StopSequence => "stop_sequence"@,
        StopReason::ToolUse => "tool_use"@,
    }
}

impl StopReason {
    pub fn from_openai(reason: &str) -> (r: StopReason)
        ensures
            r == stop_from_openai(reason@),
    {
        if str_eq(reason, "length") {
            StopReason::MaxTokens
        } else if str_eq(reason, "tool_calls") || str_eq(reason, "function_call") {
            StopReason::ToolUse
        } else {
            StopReason::EndTurn
        }
    }

    /// The reason's name, as its `Display` writes it.
    pub fn as_str(&self) -> (r: &'static str)
        ensures
            r@ == stop_text(*self),
    {
        match self {
            StopReason::EndTurn => "end_turn",
            StopReason::MaxTokens => "max_tokens",
            StopReason::StopSequence => "stop_sequence",
            StopReason::ToolUse => "tool_use",
        }
    }
}

/// An event sent to the UI while a response streams in.
#[derive(Clone, Debug, PartialEq)]
pub enum ProviderEvent {
    TextDelta { text: String },
    ThinkingDelta { text: String },
    ToolUseStart { id: String, name: String },
}

pub enum EventV {
    TextDelta(Seq<char>),
    ThinkingDelta(Seq<char>),
    ToolUseStart(Seq<char>, Seq<char>),
}

impl View for ProviderEvent {
    type V = EventV;

    open spec fn view(&self) -> EventV {
        match self {
            ProviderEvent::TextDelta { text } => EventV::TextDelta(text@),
            ProviderEvent::ThinkingDelta { text } => EventV::ThinkingDelta(text@),
            ProviderEvent::ToolUseStart { id, name } => EventV::ToolUseStart(id@, name@),
        }
    }
}

pub open spec fn event_views(s: Seq<ProviderEvent>) -> Seq<EventV> {
    Seq::new(s.len(), |i: int| s[i]@)
}

/// A completed streamed response.
#[derive(Clone, Debug, PartialEq)]
pub struct StreamResponse {
    pub message: Message,
    pub usage: TokenUsage,
    pub stop_reason: Option<StopReason>,
}

/// Errors of the provider.
#[derive(Clone, Debug, PartialEq)]
pub enum AgentError {
    /// The API answered with an error status, or the stream carried one.
    Api { status: u16, message: String },
    /// A body that should have been JSON was not.
    Json { message: String },
}

pub enum AgentErrorV {
    Api(u16, Seq<char>),
    Json(Seq<char>),
}

impl View for AgentError {
    type V = AgentErrorV;

    open spec fn view(&self) -> AgentErrorV {
        match self {
            AgentError::Api { status, message } => AgentErrorV::Api(*status, message@),
            AgentError::Json { message } => AgentErrorV::Json(message@),
        }
    }
}

/// The HTTP-like status of an error `type` carried in a stream.
pub open spec fn stream_error_status(kind: Seq<char>) -> u16 {
    if kind == "invalid_request_error"@ {
        400
    } else if kind == "authentication_error"@ {
        401
    } else if kind == "permission_error"@ {
        403
    } else if kind == "not_found_error"@ {
        404
    } else if kind == "request_too_large"@ {
        413
    } else if kind == "rate_limit_error"@ {
        429
    } else if kind == "overloaded_error"@ {
        529
    } else {
        500
    }
}

/// The error for an `{"error": {"type": .., "message": ..}}` payload.
pub fn stream_error(kind: &str, message: String) -> (r: AgentError)
    ensures
        r@ == AgentErrorV::Api(stream_error_status(kind@), message@),
{
    let status: u16 = if str_eq(kind, "invalid_request_error") {
        400
    } else if str_eq(kind, "authentication_error") {
        401
    } else if str_eq(kind, "permission_error") {
        403
    } else if str_eq(kind, "not_found_error") {
        404
    } else if str_eq(kind, "request_too_large") {
        413
    } else if str_eq(kind, "rate_limit_error") {
        429
    } else if str_eq(kind, "overloaded_error") {
        529
    } else {
        500
    };
    AgentError::Api { status, message }
}

} // verus!
