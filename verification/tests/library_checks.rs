//! Checks of the library on concrete values: stream laws, edge cases of the
//! stream format, request assembly, the model list, and the JSON bridge.
use maki_providers::chunk::decode_chunk;
use maki_providers::convert::convert_tools;
use maki_providers::json::{Json, JsonNumber};
use maki_providers::order::{order_by_name, order_entries, str_lt};
use maki_providers::provider::{
    endpoint, parse_model_fields, parse_model_list, Model, OpenAiCompatConfig,
    OpenAiCompatProvider, ResolvedAuth,
};
use maki_providers::sse::{
    classify_sse_line, mentions_error, parse_sse_text, split_lines, LineOutcome, SseLine,
    SseState,
};
use maki_providers::text::{decimal_string, trim_start_str, trim_str};
use maki_providers::types::{
    stream_error, AgentError, ContentBlock, ImageMediaType, ImageSource, Message, ProviderEvent,
    Role, StopReason, TokenUsage,
};

fn s(text: &str) -> Json {
    Json::String(text.to_string())
}

fn obj(members: Vec<(&str, Json)>) -> Json {
    Json::Object(members.into_iter().map(|(k, v)| (k.to_string(), v)).collect())
}

fn texts(events: &[ProviderEvent]) -> String {
    events
        .iter()
        .filter_map(|e| match e {
            ProviderEvent::TextDelta { text } => Some(text.as_str()),
            _ => None,
        })
        .collect()
}

fn config(include_usage: bool) -> OpenAiCompatConfig {
    OpenAiCompatConfig {
        slug: "acme".to_string(),
        api_key_env: "ACME_API_KEY".to_string(),
        base_url: "https://api.acme.test/v1".to_string(),
        max_tokens_field: "max_completion_tokens".to_string(),
        include_stream_usage: include_usage,
        provider_name: "Acme".to_string(),
    }
}

fn provider(include_usage: bool) -> OpenAiCompatProvider<()> {
    OpenAiCompatProvider::new((), config(include_usage), std::time::Duration::from_secs(300))
}

#[test]
fn text_of_response_is_sent_text() {
    let sse = "data: {\"choices\":[{\"delta\":{\"content\":\"  Hi\"}}]}\n\
data: {\"choices\":[{\"delta\":{\"content\":\" there\"}}]}\n\
data: [DONE]\n";
    let (res, events) = parse_sse_text(sse);
    let resp = res.unwrap();
    assert_eq!(texts(&events), "Hi there");
    assert_eq!(resp.message.content, vec![ContentBlock::Text { text: "Hi there".to_string() }]);
}

#[test]
fn whitespace_only_first_text_uses_up_the_trim() {
    let sse = "data: {\"choices\":[{\"delta\":{\"content\":\"   \"}}]}\n\
data: {\"choices\":[{\"delta\":{\"content\":\" x\"}}]}\n\
data: [DONE]\n";
    let (res, events) = parse_sse_text(sse);
    assert_eq!(texts(&events), " x");
    assert_eq!(res.unwrap().message.content, vec![ContentBlock::Text { text: " x".to_string() }]);
}

#[test]
fn empty_text_part_in_array_uses_up_the_trim() {
    let sse = "data: {\"choices\":[{\"delta\":{\"content\":[{\"type\":\"text\",\"text\":\"\"}]}}]}\n\
data: {\"choices\":[{\"delta\":{\"content\":\" a\"}}]}\n\
data: [DONE]\n";
    let (res, _) = parse_sse_text(sse);
    assert_eq!(res.unwrap().message.content, vec![ContentBlock::Text { text: " a".to_string() }]);
}

#[test]
fn nothing_after_done_counts() {
    let sse = "data: {\"choices\":[{\"delta\":{\"content\":\"kept\"}}]}\n\
data: [DONE]\n\
data: {\"choices\":[{\"delta\":{\"content\":\" dropped\"}}]}\n";
    let (res, events) = parse_sse_text(sse);
    assert_eq!(texts(&events), "kept");
    assert_eq!(res.unwrap().message.content, vec![ContentBlock::Text { text: "kept".to_string() }]);
}

#[test]
fn placeholders_are_exact() {
    let sse = "data: {\"choices\":[{\"delta\":{\"tool_calls\":[{\"index\":1,\"function\":{\"arguments\":\"{}\"}}]}}]}\n\
data: [DONE]\n";
    let (res, events) = parse_sse_text(sse);
    let tools = res.unwrap().message.tool_uses();
    assert_eq!(tools.len(), 2);
    assert_eq!(tools[0].0, "maki_unnamed_0");
    assert_eq!(tools[1].0, "maki_unnamed_1");
    assert_eq!(tools[1].1, "maki_unknown_tool");
    assert_eq!(tools[1].2, Json::Object(Vec::new()));
    assert!(events.is_empty());
}

#[test]
fn tool_start_waits_for_id_and_name() {
    let mut state = SseState::new();
    let first = state
        .apply_line("data: {\"choices\":[{\"delta\":{\"tool_calls\":[{\"index\":0,\"function\":{\"name\":\"bash\"}}]}}]}")
        .unwrap();
    match first {
        LineOutcome::Continue(events) => assert!(events.is_empty()),
        LineOutcome::Done => panic!("not done"),
    }
    let second = state
        .apply_line("data: {\"choices\":[{\"delta\":{\"tool_calls\":[{\"index\":0,\"id\":\"c9\"},{\"index\":0,\"id\":\"c9\"}]}}]}")
        .unwrap();
    match second {
        LineOutcome::Continue(events) => assert_eq!(
            events,
            vec![ProviderEvent::ToolUseStart { id: "c9".to_string(), name: "bash".to_string() }]
        ),
        LineOutcome::Done => panic!("not done"),
    }
}

#[test]
fn stream_error_statuses() {
    assert_eq!(
        stream_error("rate_limit_error", "slow down".to_string()),
        AgentError::Api { status: 429, message: "slow down".to_string() }
    );
    assert_eq!(
        stream_error("something_else", "m".to_string()),
        AgentError::Api { status: 500, message: "m".to_string() }
    );
    let (res, _) = parse_sse_text(
        "data: {\"error\":{\"message\":\"bad key\",\"type\":\"authentication_error\"}}\n",
    );
    assert_eq!(res.unwrap_err(), AgentError::Api { status: 401, message: "bad key".to_string() });
}

#[test]
fn misshapen_error_payload_is_passed_over() {
    let sse = "data: {\"error\":\"oops\"}\n\
data: {\"choices\":[{\"delta\":{\"content\":\"ok\"}}]}\n";
    let (res, _) = parse_sse_text(sse);
    assert_eq!(res.unwrap().message.content, vec![ContentBlock::Text { text: "ok".to_string() }]);
}

#[test]
fn delta_is_completed_from_message() {
    let sse = "data: {\"choices\":[{\"delta\":{\"role\":\"assistant\",\"content\":\"\",\"reasoning_content\":\"User\"},\"finish_reason\":null,\"message\":{\"role\":null,\"content\":\"\",\"reasoning_content\":\"\"}}]}\n\
data: [DONE]\n";
    let (res, events) = parse_sse_text(sse);
    assert_eq!(
        res.unwrap().message.content,
        vec![ContentBlock::Thinking { thinking: "User".to_string(), signature: None }]
    );
    assert_eq!(events, vec![ProviderEvent::ThinkingDelta { text: "User".to_string() }]);

    let split = "data: {\"choices\":[{\"delta\":{\"reasoning_content\":\"why\"},\"message\":{\"content\":\"b\",\"reasoning_content\":\"lost\"}}]}\n";
    let (res, _) = parse_sse_text(split);
    assert_eq!(
        res.unwrap().message.content,
        vec![
            ContentBlock::Thinking { thinking: "why".to_string(), signature: None },
            ContentBlock::Text { text: "b".to_string() },
        ]
    );
}

#[test]
fn reasoning_content_is_preferred_to_reasoning() {
    let sse = "data: {\"choices\":[{\"delta\":{\"reasoning_content\":\"The\",\"reasoning\":\"The\"}}]}\n\
data: [DONE]\n";
    let (res, events) = parse_sse_text(sse);
    assert_eq!(
        res.unwrap().message.content,
        vec![ContentBlock::Thinking { thinking: "The".to_string(), signature: None }]
    );
    assert_eq!(events, vec![ProviderEvent::ThinkingDelta { text: "The".to_string() }]);
    let fallback = "data: {\"choices\":[{\"delta\":{\"reasoning_content\":null,\"reasoning\":\"v\"}}]}\n";
    let (res, _) = parse_sse_text(fallback);
    assert_eq!(
        res.unwrap().message.content,
        vec![ContentBlock::Thinking { thinking: "v".to_string(), signature: None }]
    );
}

#[test]
fn reasoning_fallback_and_numeric_tag() {
    let sse = "data: {\"choices\":[{\"delta\":{\"reasoning\":\"r\"}}]}\n\
data: {\"choices\":[{\"delta\":{\"content\":[{\"type\":0,\"text\":\"t\"}]}}]}\n";
    let (res, _) = parse_sse_text(sse);
    assert_eq!(
        res.unwrap().message.content,
        vec![
            ContentBlock::Thinking { thinking: "r".to_string(), signature: None },
            ContentBlock::Text { text: "t".to_string() },
        ]
    );
}

#[test]
fn wrong_kind_rejects_whole_chunk() {
    let sse = "data: {\"choices\":[{\"delta\":{\"content\":\"x\"}}],\"usage\":{\"prompt_tokens\":-1}}\n\
data: {\"choices\":[{\"delta\":{\"content\":\"y\"}}]}\n";
    let (res, _) = parse_sse_text(sse);
    assert_eq!(res.unwrap().message.content, vec![ContentBlock::Text { text: "y".to_string() }]);
}

#[test]
fn cache_larger_than_prompt_saturates() {
    let sse = "data: {\"choices\":[{\"delta\":{\"content\":\"x\"}}],\"usage\":{\"prompt_tokens\":5,\"completion_tokens\":1,\"prompt_cache_hit_tokens\":9}}\n";
    let resp = parse_sse_text(sse).0.unwrap();
    assert_eq!(resp.usage, TokenUsage { input: 0, output: 1, cache_read: 9, cache_creation: 0 });
}

#[test]
fn empty_stream_message_names_stop_reason() {
    let sse = "data: {\"choices\":[{\"finish_reason\":\"length\",\"delta\":{}}]}\n";
    assert_eq!(
        parse_sse_text(sse).0.unwrap_err(),
        AgentError::Api {
            status: 502,
            message: "model returned empty stream (stop_reason: max_tokens)".to_string()
        }
    );
    assert_eq!(
        parse_sse_text("").0.unwrap_err(),
        AgentError::Api { status: 502, message: "model returned empty stream (stop_reason: )".to_string() }
    );
}

#[test]
fn stop_reasons() {
    assert_eq!(StopReason::from_openai("stop"), StopReason::EndTurn);
    assert_eq!(StopReason::from_openai("length"), StopReason::MaxTokens);
    assert_eq!(StopReason::from_openai("tool_calls"), StopReason::ToolUse);
    assert_eq!(StopReason::from_openai("function_call"), StopReason::ToolUse);
    assert_eq!(StopReason::ToolUse.as_str(), "tool_use");
}

#[test]
fn line_classification() {
    assert!(matches!(classify_sse_line("event: ping"), SseLine::Skip));
    assert!(matches!(classify_sse_line("\u{feff}data:  [DONE] "), SseLine::Done));
    match classify_sse_line("data:\t{\"a\":1}  ") {
        SseLine::Data(d) => assert_eq!(d, "{\"a\":1}"),
        _ => panic!("expected data"),
    }
    assert!(matches!(classify_sse_line("\u{feff}\u{feff}data: x"), SseLine::Skip));
    assert!(mentions_error("{\"error\":1}"));
    assert!(!mentions_error("{\"errors\":1}"));
}

#[test]
fn lines_split_like_a_line_reader() {
    assert_eq!(split_lines("a\r\nb\n\nc\r"), vec!["a", "b", "", "c\r"]);
    assert_eq!(split_lines("x\n"), vec!["x"]);
    assert!(split_lines("").is_empty());
}

#[test]
fn text_helpers() {
    assert_eq!(trim_str("\u{3000} a b \n"), "a b");
    assert_eq!(trim_start_str("\t x "), "x ");
    assert_eq!(decimal_string(0), "0");
    assert_eq!(decimal_string(1207), "1207");
}

#[test]
fn json_bridge() {
    let parsed = parse_model_list("{\"data\":[{\"b\":[1,-2,1.5,null,true],\"a\":\"x\"}]}").unwrap();
    assert_eq!(
        parsed,
        vec![obj(vec![
            ("a", s("x")),
            (
                "b",
                Json::Array(vec![
                    Json::Number(JsonNumber::PosInt(1)),
                    Json::Number(JsonNumber::NegInt(-2)),
                    Json::Number(JsonNumber::Float("1.5".to_string())),
                    Json::Null,
                    Json::Bool(true),
                ])
            ),
        ])]
    );
    match parse_model_list("{broken") {
        Err(AgentError::Json { message }) => assert!(!message.is_empty()),
        other => panic!("expected a JSON error, got {:?}", other),
    }
    assert!(decode_chunk(&s("not a chunk")).is_none());
}

#[test]
fn stream_request_assembly() {
    let provider = OpenAiCompatProvider::new((), config(false), std::time::Duration::from_secs(5));
    let auth = ResolvedAuth {
        base_url: None,
        headers: vec![("authorization".to_string(), "Bearer k".to_string())],
    };
    let body = obj(vec![("k", s("v\"")), ("n", Json::Number(JsonNumber::PosInt(3)))]);
    let r = provider.stream_request("agent/1", &auth, Some("https://o.example/v1".to_string()), &[("x-a", "1")], &body);
    assert_eq!(r.method, "POST");
    assert_eq!(r.url, "https://o.example/v1/chat/completions");
    assert_eq!(
        r.headers,
        vec![
            ("user-agent".to_string(), "agent/1".to_string()),
            ("authorization".to_string(), "Bearer k".to_string()),
            ("content-type".to_string(), "application/json".to_string()),
            ("x-a".to_string(), "1".to_string()),
        ]
    );
    assert_eq!(r.body, "{\"k\":\"v\\\"\",\"n\":3}");
    let own = ResolvedAuth { base_url: Some("https://a.example".to_string()), headers: vec![] };
    assert_eq!(provider.stream_request("agent/1", &own, None, &[], &body).url, "https://a.example/chat/completions");
}

#[test]
fn request_body_assembly() {
    let p = provider(true);
    let model = Model { id: "m1".to_string(), max_output_tokens: Some(256) };
    let messages = vec![Message::user("hi".to_string())];
    let tools = Json::Array(vec![obj(vec![
        ("name", s("bash")),
        ("description", s("Run")),
        ("input_schema", obj(vec![])),
    ])]);
    let body = p.build_body(&model, &messages, "sys", &tools);
    let keys: Vec<&str> = match &body {
        Json::Object(m) => m.iter().map(|(k, _)| k.as_str()).collect(),
        _ => panic!("object expected"),
    };
    assert_eq!(keys, vec!["model", "messages", "stream", "max_completion_tokens", "stream_options", "tools"]);
    assert_eq!(body.get("max_completion_tokens"), Some(&Json::Number(JsonNumber::PosInt(256))));
    assert_eq!(body.get("stream"), Some(&Json::Bool(true)));

    let plain = provider(false).build_body(
        &Model { id: "m2".to_string(), max_output_tokens: None },
        &messages,
        "sys",
        &Json::Null,
    );
    let keys: Vec<&str> = match &plain {
        Json::Object(m) => m.iter().map(|(k, _)| k.as_str()).collect(),
        _ => panic!("object expected"),
    };
    assert_eq!(keys, vec!["model", "messages", "stream"]);
}

#[test]
fn base_url_precedence() {
    let p = provider(false);
    let with_auth = ResolvedAuth { base_url: Some("https://custom".to_string()), headers: vec![] };
    let without = ResolvedAuth { base_url: None, headers: vec![] };
    assert_eq!(p.base_url(&with_auth, Some("https://env".to_string())), "https://custom");
    assert_eq!(p.base_url(&without, Some("https://env".to_string())), "https://env");
    assert_eq!(p.base_url(&without, None), "https://api.acme.test/v1");
    assert_eq!(endpoint("https://env", "/models"), "https://env/models");
}

#[test]
fn model_list_reading() {
    let items = parse_model_list("{\"data\":[{\"id\":\"b\",\"max_model_len\":8192,\"max_tokens\":5000000000},{\"name\":\"no id\"}]}").unwrap();
    assert_eq!(items.len(), 2);
    let f = parse_model_fields(&items[0]).unwrap();
    assert_eq!(f.id, "b");
    assert_eq!(f.context_window, Some(8192));
    assert_eq!(f.max_output_tokens, None);
    assert!(parse_model_fields(&items[1]).is_none());
    assert!(parse_model_list("{\"object\":\"list\"}").unwrap().is_empty());
    assert!(matches!(parse_model_list("not json"), Err(AgentError::Json { .. })));
    let big = parse_model_list("{\"data\":[{\"id\":\"x\",\"context_length\":4294967296,\"max_model_len\":10}]}").unwrap();
    assert_eq!(parse_model_fields(&big[0]).unwrap().context_window, None);
}

#[test]
fn stable_name_order() {
    let names: Vec<String> = ["b", "a", "b", "ab", "a"].iter().map(|x| x.to_string()).collect();
    assert_eq!(order_by_name(&names), vec![1, 4, 3, 0, 2]);
    assert!(str_lt("a", "ab"));
    assert!(str_lt("Z", "a"));
    assert!(!str_lt("b", "b"));
}

#[test]
fn tools_conversion_edges() {
    assert_eq!(convert_tools(&obj(vec![])), Json::Array(vec![]));
    let partial = Json::Array(vec![obj(vec![("name", s("x"))])]);
    assert_eq!(convert_tools(&partial), Json::Array(vec![]));
}

#[test]
fn message_helpers() {
    let src = ImageSource::new(ImageMediaType::Png, "abc123".to_string());
    assert_eq!(src.to_data_url(), "data:image/png;base64,abc123");
    let m = Message {
        role: Role::Assistant,
        content: vec![
            ContentBlock::Text { text: "t".to_string() },
            ContentBlock::ToolUse { id: "i".to_string(), name: "n".to_string(), input: Json::Null },
        ],
    };
    assert!(m.has_tool_calls());
    assert_eq!(m.tool_uses(), vec![("i".to_string(), "n".to_string(), Json::Null)]);
    assert!(!Message::user("u".to_string()).has_tool_calls());
    assert_eq!(TokenUsage::default(), TokenUsage { input: 0, output: 0, cache_read: 0, cache_creation: 0 });
}

#[test]
fn tool_call_arguments_are_rendered_json_text() {
    let messages = vec![Message {
        role: Role::Assistant,
        content: vec![ContentBlock::ToolUse {
            id: "tc_1".to_string(),
            name: "bash".to_string(),
            input: obj(vec![("command", s("ls"))]),
        }],
    }];
    let wire = maki_providers::convert::convert_messages(&messages, "sys");
    let calls = wire[1].get("tool_calls").unwrap().as_array().unwrap();
    let args = calls[0].get("function").unwrap().get("arguments").unwrap();
    assert_eq!(args.as_str().unwrap(), "{\"command\":\"ls\"}");
}

#[test]
fn structs_written_as_arrays_are_accepted() {
    let sse = "data: [[[{\"content\":\"hi\"},null,null]],null]\n\
data: [[[[[[\"text\",\" there\"]],null,null,null],null,\"stop\"]],[10,5,[2]]]\n\
data: {\"choices\":[{\"delta\":[[[\"thinking\",[\"r\",[\"text\",\"s\"]]]],null,null,null]}]}\n";
    let (res, _) = parse_sse_text(sse);
    let resp = res.unwrap();
    assert_eq!(
        resp.message.content,
        vec![
            ContentBlock::Thinking { thinking: "rs".to_string(), signature: None },
            ContentBlock::Text { text: "hi there".to_string() },
        ]
    );
    assert_eq!(resp.stop_reason, Some(StopReason::EndTurn));
    assert_eq!(resp.usage, TokenUsage { input: 8, output: 5, cache_read: 2, cache_creation: 0 });
}

#[test]
fn arrays_of_the_wrong_length_are_passed_over() {
    let sse = "data: [[],null,1]\n\
data: [[]]\n\
data: {\"choices\":[[{\"content\":\"x\"},null]]}\n\
data: {\"choices\":[{\"delta\":{\"content\":[[\"text\"]]}}]}\n\
data: {\"choices\":[{\"delta\":{\"content\":\"ok\"}}]}\n";
    let (res, _) = parse_sse_text(sse);
    assert_eq!(res.unwrap().message.content, vec![ContentBlock::Text { text: "ok".to_string() }]);
}

#[test]
fn passed_over_lines_and_marks_change_nothing() {
    let plain = "data: {\"choices\":[{\"delta\":{\"content\":\"a\"}}]}\n\
data: {\"choices\":[{\"delta\":{\"reasoning_content\":\"r\"}}]}\n\
data: [DONE]\n";
    let noisy = ": keep-alive\n\
\u{feff}data: {\"choices\":[{\"delta\":{\"content\":\"a\"}}]}\n\
event: message\n\
data: {not json\n\
data: [1,2,3]\n\
data: 42\n\
data: {\"choices\":[{\"delta\":{\"reasoning_content\":\"r\"}}]}\n\
data: [DONE]\n\
data: {\"choices\":[{\"delta\":{\"content\":\"late\"}}]}\n";
    let (r1, e1) = parse_sse_text(plain);
    let (r2, e2) = parse_sse_text(noisy);
    assert_eq!(e1, e2);
    assert_eq!(r1.unwrap().message, r2.unwrap().message);
}

#[test]
fn conversion_of_concatenated_conversations() {
    let a = vec![Message::user("one".to_string())];
    let b = vec![
        Message {
            role: Role::Assistant,
            content: vec![ContentBlock::Text { text: "two".to_string() }],
        },
        Message::user("three".to_string()),
    ];
    let mut ab = Vec::new();
    ab.extend(a.iter().cloned());
    ab.extend(b.iter().cloned());
    let whole = maki_providers::convert::convert_messages(&ab, "s");
    let mut parts = maki_providers::convert::convert_messages(&a, "s");
    parts.extend(maki_providers::convert::convert_messages(&b, "s").into_iter().skip(1));
    assert_eq!(whole, parts);
}

#[test]
fn tool_arguments_read_back_as_the_input() {
    let input = obj(vec![
        ("a", Json::Array(vec![Json::Number(JsonNumber::NegInt(-3)), Json::Null, Json::Bool(false)])),
        ("b", s("x\"\n\u{1}é")),
    ]);
    let messages = vec![Message {
        role: Role::Assistant,
        content: vec![ContentBlock::ToolUse { id: "i".to_string(), name: "n".to_string(), input: input.clone() }],
    }];
    let wire = maki_providers::convert::convert_messages(&messages, "sys");
    let calls = wire[1].get("tool_calls").unwrap().as_array().unwrap();
    let args = calls[0].get("function").unwrap().get("arguments").unwrap().as_str().unwrap();
    let back = parse_model_list(&format!("{{\"data\":[{}]}}", args)).unwrap();
    assert_eq!(back, vec![input]);
}

#[test]
fn entries_in_stable_key_order() {
    let entries = vec![
        ("b".to_string(), 1),
        ("a".to_string(), 2),
        ("b".to_string(), 3),
        ("ab".to_string(), 4),
        ("a".to_string(), 5),
    ];
    let keys: Vec<(String, i32)> = order_entries(entries);
    assert_eq!(
        keys,
        vec![
            ("a".to_string(), 2),
            ("a".to_string(), 5),
            ("ab".to_string(), 4),
            ("b".to_string(), 1),
            ("b".to_string(), 3),
        ]
    );
    assert!(order_entries(Vec::<(String, u8)>::new()).is_empty());
}

#[test]
fn provider_keeps_its_settings() {
    let p = OpenAiCompatProvider::new(7u8, config(true), std::time::Duration::from_secs(42));
    let auth = ResolvedAuth { base_url: None, headers: vec![] };
    let _ = p.base_url(&auth, None);
    let _ = p.stream_request("ua", &auth, None, &[], &Json::Null);
    assert_eq!(p.stream_timeout(), std::time::Duration::from_secs(42));
    assert_eq!(*p.client(), 7u8);
    assert_eq!(p.config().slug, "acme");
}
