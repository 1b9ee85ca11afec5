//! The provider: its static configuration, the request body it sends, the
//! base URL it talks to, and the reading of its model list.
use vstd::prelude::*;
use vstd::string::StringExecFns;
use core::time::Duration;
use crate::convert::{convert_messages, convert_tools, wire_messages, wire_tools};
use crate::json::{
    Json, JsonNumber, JsonNumberV, JsonV, as_array, as_str, as_u64, index, json_error_text,
    json_parse, json_render, member_views, parse_json, push_member, render_json, set_member,
    set_member_in, views,
};
use crate::types::{AgentError, AgentErrorV, Message, message_views};

verus! {

/// How one OpenAI-compatible provider is reached.
pub struct OpenAiCompatConfig {
    /// Short name of the provider, used to name its overrides.
    pub slug: String,
    /// Environment variable that holds the API key.
    pub api_key_env: String,
    /// Base URL used when nothing overrides it.
    pub base_url: String,
    /// Name of the request member that caps the output tokens.
    pub max_tokens_field: String,
    /// Whether to ask for usage in the stream.
    pub include_stream_usage: bool,
    /// Name of the provider for logs.
    pub provider_name: String,
}

/// A model as the provider addresses it.
pub struct Model {
    pub id: String,
    pub max_output_tokens: Option<u32>,
}

/// Credentials and overrides resolved for a request.
pub struct ResolvedAuth {
    /// A base URL given by a dynamic or custom provider.
    pub base_url: Option<String>,
    /// Headers to send with each request.
    pub headers: Vec<(String, String)>,
}

/// A provider that speaks the OpenAI chat-completions protocol through the
/// HTTP client `C`.
pub struct OpenAiCompatProvider<C> {
    client: C,
    config: OpenAiCompatConfig,
    stream_timeout: Duration,
}

/// The request body: model, messages and streaming, then the output cap
/// where the model has one, stream usage where the provider wants it, and
/// the tools where there are any.
pub open spec fn request_body(
    max_tokens_field: Seq<char>,
    include_stream_usage: bool,
    model_id: Seq<char>,
    max_output_tokens: Option<u32>,
    wire: Seq<JsonV>,
    tools: JsonV,
) -> JsonV {
    let b0 = seq![
        ("model"@, JsonV::Str(model_id)),
        ("messages"@, JsonV::Arr(wire)),
        ("stream"@, JsonV::Bool(true)),
    ];
    let b1 = match max_output_tokens {
        Some(m) => set_member(b0, max_tokens_field, JsonV::Number(JsonNumberV::PosInt(m as u64))),
        None => b0,
    };
    let b2 = if include_stream_usage {
        set_member(b1, "stream_options"@, JsonV::Obj(seq![("include_usage"@, JsonV::Bool(true))]))
    } else {
        b1
    };
    let b3 = match tools {
        JsonV::Arr(items) => if items.len() > 0 {
            set_member(b2, "tools"@, tools)
        } else {
            b2
        },
        _ => b2,
    };
    JsonV::Obj(b3)
}

/// The base URL: one given with the credentials wins, then the override,
/// then the configured default.
pub open spec fn effective_base_url(
    auth_base: Option<Seq<char>>,
    env_override: Option<Seq<char>>,
    default: Seq<char>,
) -> Seq<char> {
    match auth_base {
        Some(b) => b,
        None => match env_override {
            Some(o) => o,
            None => default,
        },
    }
}

impl<C> OpenAiCompatProvider<C> {
    /// The provider made from a client, a configuration and a stream
    /// timeout.
    pub closed spec fn made(client: C, config: OpenAiCompatConfig, stream_timeout: Duration) -> Self {
        OpenAiCompatProvider { client, config, stream_timeout }
    }

    pub fn new(client: C, config: OpenAiCompatConfig, stream_timeout: Duration) -> (r: Self)
        ensures
            r == Self::made(client, config, stream_timeout),
            r.held_client() == client,
            r.held_config() == config,
            r.held_timeout() == stream_timeout,
    {
        OpenAiCompatProvider { client, config, stream_timeout }
    }

    pub closed spec fn held_client(&self) -> C {
        self.client
    }

    pub closed spec fn held_config(&self) -> OpenAiCompatConfig {
        self.config
    }

    pub closed spec fn held_timeout(&self) -> Duration {
        self.stream_timeout
    }

    pub fn client(&self) -> (r: &C)
        ensures
            *r == self.held_client(),
    {
        &self.client
    }

    pub fn config(&self) -> (r: &OpenAiCompatConfig)
        ensures
            *r == self.held_config(),
    {
        &self.config
    }

    pub fn stream_timeout(&self) -> (r: Duration)
        ensures
            r == self.held_timeout(),
    {
        self.stream_timeout
    }

    /// The streaming request body for a conversation.
    pub fn build_body(&self, model: &Model, messages: &[Message], system: &str, tools: &Json) -> (r: Json)
        ensures
            r@ == request_body(
                self.held_config().max_tokens_field@,
                self.held_config().include_stream_usage,
                model.id@,
                model.max_output_tokens,
                wire_messages(message_views(messages@), system@),
                wire_tools(tools@),
            ),
    {
        let wire_msgs = convert_messages(messages, system);
        let wire_tools = convert_tools(tools);
        let ghost wm = views(wire_msgs@);
        let ghost wt = wire_tools@;
        let ghost b0 = seq![
            ("model"@, JsonV::Str(model.id@)),
            ("messages"@, JsonV::Arr(wm)),
            ("stream"@, JsonV::Bool(true)),
        ];
        let ghost b1 = match model.max_output_tokens {
            Some(m) => set_member(b0, self.config.max_tokens_field@, JsonV::Number(JsonNumberV::PosInt(m as u64))),
            None => b0,
        };
        let ghost b2 = if self.config.include_stream_usage {
            set_member(b1, "stream_options"@, JsonV::Obj(seq![("include_usage"@, JsonV::Bool(true))]))
        } else {
            b1
        };
        let mut body: Vec<(String, Json)> = Vec::new();
        assert(member_views(body@) =~= Seq::empty());
        push_member(&mut body, "model", Json::String(model.id.clone()));
        push_member(&mut body, "messages", Json::array(wire_msgs));
        push_member(&mut body, "stream", Json::Bool(true));
        assert(member_views(body@) =~= b0);
        if let Some(max_output) = model.max_output_tokens {
            set_member_in(
                &mut body,
                self.config.max_tokens_field.as_str(),
                Json::Number(JsonNumber::PosInt(max_output as u64)),
            );
        }
        assert(member_views(body@) == b1);
        if self.config.include_stream_usage {
            let mut opts: Vec<(String, Json)> = Vec::new();
            assert(member_views(opts@) =~= Seq::empty());
            push_member(&mut opts, "include_usage", Json::Bool(true));
            assert(member_views(opts@) =~= seq![("include_usage"@, JsonV::Bool(true))]);
            set_member_in(&mut body, "stream_options", Json::object(opts));
        }
        assert(member_views(body@) == b2);
        let has_tools = match wire_tools.as_array() {
            Some(a) => a.len() > 0,
            None => false,
        };
        if has_tools {
            set_member_in(&mut body, "tools", wire_tools);
        }
        Json::object(body)
    }

    /// The base URL to talk to, given the override from the environment.
    pub fn base_url(&self, auth: &ResolvedAuth, env_override: Option<String>) -> (r: String)
        ensures
            r@ == effective_base_url(
                opt_view(auth.base_url),
                opt_view(env_override),
                self.held_config().base_url@,
            ),
    {
        if let Some(explicit) = &auth.base_url {
            return explicit.clone();
        }
        match env_override {
            Some(o) => o,
            None => self.config.base_url.clone(),
        }
    }
}

/// An HTTP request as the provider sends it: method, URL, headers in order
/// and body text.
pub struct HttpRequest {
    pub method: String,
    pub url: String,
    pub headers: Vec<(String, String)>,
    pub body: String,
}

/// The names and values of a list of headers.
pub open spec fn header_views(h: Seq<(String, String)>) -> Seq<(Seq<char>, Seq<char>)> {
    Seq::new(h.len(), |i: int| (h[i].0@, h[i].1@))
}

/// The names and values of a list of borrowed headers.
pub open spec fn str_header_views(h: Seq<(&str, &str)>) -> Seq<(Seq<char>, Seq<char>)> {
    Seq::new(h.len(), |i: int| (h[i].0@, h[i].1@))
}

/// The text of an optional string.
pub open spec fn opt_view(o: Option<String>) -> Option<Seq<char>> {
    match o {
        Some(s) => Some(s@),
        None => None,
    }
}

impl<C> OpenAiCompatProvider<C> {
    /// The streaming chat request for a request body: a POST to the
    /// chat-completions endpoint of the effective base URL, carrying the
    /// user agent, then the credential headers, then the JSON content type,
    /// then the extra headers, with the body rendered as JSON text.
    pub fn stream_request(
        &self,
        user_agent: &str,
        auth: &ResolvedAuth,
        env_override: Option<String>,
        extra_headers: &[(&str, &str)],
        body: &Json,
    ) -> (r: HttpRequest)
        ensures
            r.method@ == "POST"@,
            r.url@ == effective_base_url(
                opt_view(auth.base_url),
                opt_view(env_override),
                self.held_config().base_url@,
            ) + "/chat/completions"@,
            header_views(r.headers@) == seq![("user-agent"@, user_agent@)] + header_views(auth.headers@) + seq![
                ("content-type"@, "application/json"@),
            ] + str_header_views(extra_headers@),
            r.body@ == json_render(body@),
    {
        let base = self.base_url(auth, env_override);
        let url = endpoint(base.as_str(), "/chat/completions");
        let mut headers: Vec<(String, String)> = Vec::new();
        headers.push((String::from_str("user-agent"), String::from_str(user_agent)));
        let ghost lead = seq![("user-agent"@, user_agent@)];
        assert(header_views(headers@) =~= lead);
        let mut i: usize = 0;
        while i < auth.headers.len()
            invariant
                i <= auth.headers@.len(),
                header_views(headers@) == lead + header_views(auth.headers@).take(i as int),
            decreases auth.headers.len() - i,
        {
            let ghost before = header_views(headers@);
            let name = auth.headers[i].0.clone();
            let value = auth.headers[i].1.clone();
            headers.push((name, value));
            assert(header_views(headers@) =~= before.push((auth.headers@[i as int].0@, auth.headers@[i as int].1@)));
            assert(header_views(auth.headers@).take(i + 1) =~= header_views(auth.headers@).take(i as int).push(header_views(auth.headers@)[i as int]));
            assert(lead + header_views(auth.headers@).take(i + 1) =~= (lead + header_views(auth.headers@).take(i as int)).push(header_views(auth.headers@)[i as int]));
            i += 1;
        }
        assert(header_views(auth.headers@).take(auth.headers@.len() as int) =~= header_views(auth.headers@));
        let ghost with_auth = header_views(headers@);
        headers.push((String::from_str("content-type"), String::from_str("application/json")));
        assert(header_views(headers@) =~= with_auth + seq![("content-type"@, "application/json"@)]);
        let ghost fixed = header_views(headers@);
        let mut j: usize = 0;
        while j < extra_headers.len()
            invariant
                j <= extra_headers@.len(),
                header_views(headers@) == fixed + str_header_views(extra_headers@).take(j as int),
            decreases extra_headers.len() - j,
        {
            let ghost before = header_views(headers@);
            let (name, value) = extra_headers[j];
            headers.push((String::from_str(name), String::from_str(value)));
            assert(header_views(headers@) =~= before.push((name@, value@)));
            assert(str_header_views(extra_headers@).take(j + 1) =~= str_header_views(extra_headers@).take(j as int).push(str_header_views(extra_headers@)[j as int]));
            j += 1;
        }
        assert(str_header_views(extra_headers@).take(extra_headers@.len() as int) =~= str_header_views(extra_headers@));
        HttpRequest {
            method: String::from_str("POST"),
            url,
            headers,
            body: render_json(body),
        }
    }
}

/// A provider keeps what it was made with: the one made by `new` holds the
/// client, the configuration and the stream timeout given to `new`, so
/// `client`, `config` and `stream_timeout` report them. Every method takes
/// the provider by shared reference, so no call changes them.
pub proof fn law_provider_keeps_settings<C>(client: C, config: OpenAiCompatConfig, stream_timeout: Duration)
    ensures
        OpenAiCompatProvider::<C>::made(client, config, stream_timeout).held_timeout() == stream_timeout,
        OpenAiCompatProvider::<C>::made(client, config, stream_timeout).held_config() == config,
        OpenAiCompatProvider::<C>::made(client, config, stream_timeout).held_client() == client,
{
}

/// `base` followed by `path`.
pub fn endpoint(base: &str, path: &str) -> (r: String)
    ensures
        r@ == base@ + path@,
{
    let mut r = String::from_str(base);
    r.append(path);
    r
}

/// The entries of a model list: the `data` array of the document, or none
/// where it has no such array.
pub open spec fn model_entries(v: JsonV) -> Seq<JsonV> {
    match as_array(index(v, "data"@)) {
        Some(a) => a,
        None => Seq::empty(),
    }
}

/// Reads the body of a model-list response: its text must be JSON.
pub fn parse_model_list(body_text: &str) -> (r: Result<Vec<Json>, AgentError>)
    ensures
        r is Ok <==> json_parse(body_text@) is Some,
        r matches Ok(items) ==> views(items@) == model_entries(json_parse(body_text@)->0),
        r matches Err(e) ==> e@ is Json,
{
    let body = match parse_json(body_text) {
        Ok(b) => b,
        Err(e) => return Err(AgentError::Json { message: json_error_text(&e) }),
    };
    let mut out: Vec<Json> = Vec::new();
    assert(views(out@) =~= Seq::empty());
    let data = body.get("data");
    match data {
        Some(d) => match d.as_array() {
            Some(items) => {
                let ghost iv = views(items@);
                let mut i: usize = 0;
                while i < items.len()
                    invariant
                        iv == views(items@),
                        i <= items@.len(),
                        views(out@) == iv.take(i as int),
                    decreases items.len() - i,
                {
                    let ghost before = views(out@);
                    let x = items[i].duplicate();
                    out.push(x);
                    assert(views(out@) =~= before.push(x@));
                    assert(iv.take(i + 1) =~= iv.take(i as int).push(iv[i as int]));
                    i += 1;
                }
                assert(iv.take(items@.len() as int) =~= iv);
            },
            None => {},
        },
        None => {},
    }
    Ok(out)
}

/// What the model list says of one model, besides its pricing.
pub struct ModelFields {
    pub id: String,
    pub context_window: Option<u32>,
    pub max_output_tokens: Option<u32>,
}

/// A `u64` as a `u32`, where it fits.
pub open spec fn to_u32(x: Option<u64>) -> Option<u32> {
    match x {
        Some(v) => if v <= u32::MAX {
            Some(v as u32)
        } else {
            None
        },
        None => None,
    }
}

/// The first of three optional values that is present.
pub open spec fn first_of(a: Option<u64>, b: Option<u64>, c: Option<u64>) -> Option<u64> {
    if a is Some {
        a
    } else if b is Some {
        b
    } else {
        c
    }
}

/// The context window: the first of `context_length`, `max_model_len` and
/// `max_context_length` that is an unsigned integer, where it fits in 32
/// bits.
pub open spec fn context_window_of(m: JsonV) -> Option<u32> {
    to_u32(
        first_of(
            as_u64(index(m, "context_length"@)),
            as_u64(index(m, "max_model_len"@)),
            as_u64(index(m, "max_context_length"@)),
        ),
    )
}

/// Reads the id and limits of one model-list entry; an entry without a
/// string id is skipped.
pub fn parse_model_fields(m: &Json) -> (r: Option<ModelFields>)
    ensures
        r is Some <==> as_str(index(m@, "id"@)) is Some,
        r matches Some(f) ==> {
            &&& Some(f.id@) == as_str(index(m@, "id"@))
            &&& f.context_window == context_window_of(m@)
            &&& f.max_output_tokens == to_u32(as_u64(index(m@, "max_tokens"@)))
        },
{
    let id = match m.get("id") {
        Some(v) => match v.as_str() {
            Some(s) => String::from_str(s),
            None => return None,
        },
        None => return None,
    };
    let a = field_u64(m, "context_length");
    let b = field_u64(m, "max_model_len");
    let c = field_u64(m, "max_context_length");
    let first = if a.is_some() {
        a
    } else if b.is_some() {
        b
    } else {
        c
    };
    let context_window = narrow(first);
    let max_output_tokens = narrow(field_u64(m, "max_tokens"));
    Some(ModelFields { id, context_window, max_output_tokens })
}

fn field_u64(m: &Json, key: &str) -> (r: Option<u64>)
    ensures
        r == as_u64(index(m@, key@)),
{
    match m.get(key) {
        Some(v) => v.as_u64(),
        None => None,
    }
}

fn narrow(x: Option<u64>) -> (r: Option<u32>)
    ensures
        r == to_u32(x),
{
    match x {
        Some(v) => if v <= 4294967295u64 {
            Some(v as u32)
        } else {
            None
        },
        None => None,
    }
}

} // verus!
