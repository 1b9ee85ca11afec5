//! Stream decoding scenarios: each feeds a complete event stream as text.
use maki_providers::json::Json;
use maki_providers::sse::parse_sse_text;
use maki_providers::types::{AgentError, ContentBlock, ProviderEvent, StopReason, StreamResponse};

fn ok(sse: &str) -> (StreamResponse, Vec<ProviderEvent>) {
    let (res, events) = parse_sse_text(sse);
    (res.unwrap(), events)
}

fn err(sse: &str) -> AgentError {
    parse_sse_text(sse).0.unwrap_err()
}

fn text_deltas(events: &[ProviderEvent]) -> Vec<String> {
    events
        .iter()
        .filter_map(|e| match e {
            ProviderEvent::TextDelta { text } => Some(text.clone()),
            _ => None,
        })
        .collect()
}

fn thinking_deltas(events: &[ProviderEvent]) -> Vec<String> {
    events
        .iter()
        .filter_map(|e| match e {
            ProviderEvent::ThinkingDelta { text } => Some(text.clone()),
            _ => None,
        })
        .collect()
}

fn tool_starts(events: &[ProviderEvent]) -> Vec<(String, String)> {
    events
        .iter()
        .filter_map(|e| match e {
            ProviderEvent::ToolUseStart { id, name } => Some((id.clone(), name.clone())),
            _ => None,
        })
        .collect()
}

fn member<'a>(v: &'a Json, key: &str) -> &'a Json {
    v.get(key).unwrap()
}

fn string(v: &Json) -> &str {
    v.as_str().unwrap()
}

#[test]
fn parse_sse_text_and_usage() {
    let sse = "\
data: {\"choices\":[{\"delta\":{\"content\":\"Hello\"}}]}\n\
\n\
data: {\"choices\":[{\"delta\":{\"content\":\" world\"}}]}\n\
\n\
data: {\"choices\":[{\"finish_reason\":\"stop\",\"delta\":{}}],\"usage\":{\"prompt_tokens\":100,\"completion_tokens\":10,\"prompt_tokens_details\":{\"cached_tokens\":40}}}\n\
\n\
data: [DONE]\n";
    let (resp, events) = ok(sse);
    assert_eq!(resp.usage.input, 60);
    assert_eq!(resp.usage.output, 10);
    assert_eq!(resp.usage.cache_read, 40);
    assert_eq!(resp.stop_reason, Some(StopReason::EndTurn));
    assert!(matches!(&resp.message.content[0], ContentBlock::Text { text } if text == "Hello world"));
    assert!(!resp.message.has_tool_calls());
    assert_eq!(text_deltas(&events), vec!["Hello", " world"]);
}

#[test]
fn parse_sse_deepseek_cache_hit_tokens() {
    let sse = "\
data: {\"choices\":[{\"delta\":{\"content\":\"Hello\"}}]}\n\
\n\
data: {\"choices\":[{\"finish_reason\":\"stop\",\"delta\":{}}],\"usage\":{\"prompt_tokens\":100,\"completion_tokens\":10,\"prompt_cache_hit_tokens\":80,\"prompt_cache_miss_tokens\":20}}\n\
\n\
data: [DONE]\n";
    let (resp, _) = ok(sse);
    assert_eq!(resp.usage.input, 20);
    assert_eq!(resp.usage.cache_read, 80);
    assert_eq!(resp.usage.output, 10);
}

#[test]
fn parse_sse_reasoning_and_content() {
    let sse = "\
data: {\"choices\":[{\"delta\":{\"reasoning_content\":\"Let me think\"}}]}\n\
\n\
data: {\"choices\":[{\"delta\":{\"reasoning_content\":\"...\"}}]}\n\
\n\
data: {\"choices\":[{\"delta\":{\"content\":\"Hello\"}}]}\n\
\n\
data: {\"choices\":[{\"finish_reason\":\"stop\",\"delta\":{}}],\"usage\":{\"prompt_tokens\":10,\"completion_tokens\":5}}\n\
\n\
data: [DONE]\n";
    let (resp, events) = ok(sse);
    assert!(matches!(&resp.message.content[0], ContentBlock::Thinking { thinking, .. } if thinking == "Let me think..."));
    assert!(matches!(&resp.message.content[1], ContentBlock::Text { text } if text == "Hello"));
    assert_eq!(thinking_deltas(&events), vec!["Let me think", "..."]);
    assert_eq!(text_deltas(&events), vec!["Hello"]);
}

#[test]
fn parse_sse_multiple_parallel_tool_calls() {
    let sse = "\
data: {\"choices\":[{\"delta\":{\"tool_calls\":[{\"index\":0,\"id\":\"c1\",\"function\":{\"name\":\"bash\",\"arguments\":\"\"}}]}}]}\n\
\n\
data: {\"choices\":[{\"delta\":{\"tool_calls\":[{\"index\":1,\"id\":\"c2\",\"function\":{\"name\":\"read\",\"arguments\":\"\"}}]}}]}\n\
\n\
data: {\"choices\":[{\"delta\":{\"tool_calls\":[{\"index\":0,\"function\":{\"arguments\":\"{\\\"command\\\": \\\"ls\\\"}\"}}]}}]}\n\
\n\
data: {\"choices\":[{\"delta\":{\"tool_calls\":[{\"index\":1,\"function\":{\"arguments\":\"{\\\"path\\\": \\\"/tmp\\\"}\"}}]}}]}\n\
\n\
data: {\"choices\":[{\"finish_reason\":\"tool_calls\",\"delta\":{}}],\"usage\":{\"prompt_tokens\":5,\"completion_tokens\":3}}\n\
\n\
data: [DONE]\n";
    let (resp, events) = ok(sse);
    let tools = resp.message.tool_uses();
    assert_eq!(tools.len(), 2);
    assert_eq!(tools[0].0, "c1");
    assert_eq!(tools[0].1, "bash");
    assert_eq!(string(member(&tools[0].2, "command")), "ls");
    assert_eq!(tools[1].0, "c2");
    assert_eq!(tools[1].1, "read");
    assert_eq!(string(member(&tools[1].2, "path")), "/tmp");
    assert_eq!(resp.stop_reason, Some(StopReason::ToolUse));
    assert_eq!(
        tool_starts(&events),
        vec![("c1".to_string(), "bash".to_string()), ("c2".to_string(), "read".to_string())]
    );
}

#[test]
fn parse_sse_error_payload_returns_err() {
    let sse = "\
data: {\"error\":{\"message\":\"Server overloaded\",\"type\":\"overloaded_error\"}}\n";
    match err(sse) {
        AgentError::Api { status, message } => {
            assert_eq!(status, 529);
            assert_eq!(message, "Server overloaded");
        }
        other => panic!("expected Api error, got: {other:?}"),
    }
}

#[test]
fn parse_sse_empty_tool_id_and_name_get_placeholders() {
    let sse = "\
data: {\"choices\":[{\"delta\":{\"tool_calls\":[{\"index\":0,\"function\":{\"arguments\":\"{\\\"tool_calls\\\":[{\\\"tool\\\":\\\"read\\\"}]}\"}}]}}]}\n\
\n\
data: {\"choices\":[{\"finish_reason\":\"tool_calls\",\"delta\":{}}],\"usage\":{\"prompt_tokens\":1,\"completion_tokens\":1}}\n\
\n\
data: [DONE]\n";
    let (resp, _) = ok(sse);
    let tools = resp.message.tool_uses();
    assert_eq!(tools.len(), 1);
    assert!(!tools[0].0.is_empty(), "id must be non-empty for Bedrock");
    assert!(!tools[0].1.is_empty(), "name must be non-empty for Bedrock");
}

#[test]
fn parse_sse_malformed_tool_json_yields_empty_object() {
    let sse = "\
data: {\"choices\":[{\"delta\":{\"tool_calls\":[{\"index\":0,\"id\":\"c1\",\"function\":{\"name\":\"bash\",\"arguments\":\"\"}}]}}]}\n\
\n\
data: {\"choices\":[{\"delta\":{\"tool_calls\":[{\"index\":0,\"function\":{\"arguments\":\"{broken\"}}]}}]}\n\
\n\
data: {\"choices\":[{\"finish_reason\":\"tool_calls\",\"delta\":{}}],\"usage\":{\"prompt_tokens\":1,\"completion_tokens\":1}}\n\
\n\
data: [DONE]\n";
    let (resp, _) = ok(sse);
    let tools = resp.message.tool_uses();
    assert_eq!(tools.len(), 1);
    assert_eq!(tools[0].1, "bash");
    assert_eq!(tools[0].2, Json::Object(Vec::new()));
}

#[test]
fn parse_sse_empty_stream() {
    let sse = "data: [DONE]\n";
    match err(sse) {
        AgentError::Api { status: 502, .. } => {}
        other => panic!("expected 502 error, got: {other:?}"),
    }
}

#[test]
fn parse_sse_content_as_array_with_thinking() {
    let sse = "\
data: {\"choices\":[{\"delta\":{\"content\":[{\"type\":\"thinking\",\"thinking\":[{\"type\":\"text\",\"text\":\"Let me think\"}]}]}}]}\n\
\n\
data: {\"choices\":[{\"delta\":{\"content\":[{\"type\":\"thinking\",\"thinking\":[{\"type\":\"text\",\"text\":\"...\"}]}]}}]}\n\
\n\
data: {\"choices\":[{\"delta\":{\"content\":\"Hello\"}}]}\n\
\n\
data: [DONE]\n";
    let (resp, events) = ok(sse);
    assert!(
        matches!(&resp.message.content[0], ContentBlock::Thinking { thinking, .. } if thinking == "Let me think..."),
        "{:?}",
        resp.message.content[0],
    );
    assert!(matches!(&resp.message.content[1], ContentBlock::Text { text } if text == "Hello"));
    assert_eq!(text_deltas(&events), vec!["Hello"]);
    assert_eq!(thinking_deltas(&events), vec!["Let me think", "..."]);
}

#[test]
fn sse_tool_name_at_top_level_fallback() {
    let sse = "\
data: {\"choices\":[{\"delta\":{\"tool_calls\":[{\"index\":0,\"name\":\"bash\",\"function\":{\"arguments\":\"\"}}]}}]}\n\
\n\
data: {\"choices\":[{\"delta\":{\"tool_calls\":[{\"index\":0,\"id\":\"call_abc\",\"function\":{\"arguments\":\"{\\\"command\\\":\\\"date\\\"}\"}}]}}]}\n\
\n\
data: {\"choices\":[{\"finish_reason\":\"tool_calls\",\"delta\":{}}],\"usage\":{\"prompt_tokens\":5,\"completion_tokens\":3}}\n\
\n\
data: [DONE]\n";
    let (resp, events) = ok(sse);
    let tools = resp.message.tool_uses();
    assert_eq!(tools.len(), 1, "one tool call expected");
    assert!(!tools[0].0.is_empty(), "id must be non-empty, got: {:?}", tools[0].0);
    assert_eq!(tools[0].0, "call_abc", "id should be the provider's id");
    assert_eq!(tools[0].1, "bash", "tool name should be 'bash'");
    assert_eq!(string(member(&tools[0].2, "command")), "date", "arguments should be complete");
    let starts = tool_starts(&events);
    assert_eq!(starts.len(), 1, "ToolUseStart should be sent exactly once, got: {:?}", starts);
    assert!(!starts[0].0.is_empty(), "ToolUseStart id must be non-empty, got: {:?}", starts[0].0);
}

#[test]
fn parse_sse_bom_prefix_skips_first_event() {
    let sse = "\
\u{feff}data: {\"choices\":[{\"delta\":{\"content\":\"first event\"}}]}
\n
data: {\"choices\":[{\"delta\":{\"content\":\" second event\"}}]}
\n
data: {\"choices\":[{\"finish_reason\":\"stop\",\"delta\":{}}]}
\n
data: [DONE]\n";
    let (resp, _) = ok(sse);
    assert_eq!(resp.message.content.len(), 1);
    assert!(matches!(&resp.message.content[0], ContentBlock::Text { text } if text == "first event second event"));
}

#[test]
fn parse_sse_bom_prefix_only_one_event() {
    let sse = "\u{feff}data: {\"choices\":[{\"delta\":{\"content\":\"only content\"}}]}\n
data: [DONE]\n";
    let (resp, _) = ok(sse);
    assert!(matches!(&resp.message.content[0], ContentBlock::Text { text } if text == "only content"));
    assert_eq!(resp.message.content.len(), 1);
}

#[test]
fn sse_tool_name_top_then_empty_function_name() {
    let sse = "\
data: {\"choices\":[{\"delta\":{\"tool_calls\":[{\"index\":0,\"name\":\"read\",\"function\":{\"arguments\":\"\"}}]}}]}\n\
\n\
data: {\"choices\":[{\"delta\":{\"tool_calls\":[{\"index\":0,\"function\":{\"name\":\"\",\"arguments\":\"\"}}]}}]}\n\
\n\
data: {\"choices\":[{\"delta\":{\"tool_calls\":[{\"index\":0,\"id\":\"call_r1\",\"function\":{\"arguments\":\"{\\\"path\\\":\\\"/tmp\\\"}\"}}]}}]}\n\
\n\
data: {\"choices\":[{\"finish_reason\":\"tool_calls\",\"delta\":{}}],\"usage\":{\"prompt_tokens\":5,\"completion_tokens\":3}}\n\
\n\
data: [DONE]\n";
    let (resp, _) = ok(sse);
    let tools = resp.message.tool_uses();
    assert_eq!(tools.len(), 1);
    assert_eq!(tools[0].0, "call_r1");
    assert_eq!(tools[0].1, "read", "name must survive empty overwrite");
    assert_eq!(string(member(&tools[0].2, "path")), "/tmp");
}

#[test]
fn sse_tool_name_and_id_at_top_level() {
    let sse = "\
data: {\"choices\":[{\"delta\":{\"tool_calls\":[{\"index\":0,\"id\":\"call_top\",\"name\":\"grep\",\"function\":{\"arguments\":\"{\\\"pattern\\\":\\\"test\\\"}\"}}]}}]}\n\
\n\
data: {\"choices\":[{\"finish_reason\":\"tool_calls\",\"delta\":{}}],\"usage\":{\"prompt_tokens\":5,\"completion_tokens\":3}}\n\
\n\
data: [DONE]\n";
    let (resp, events) = ok(sse);
    let tools = resp.message.tool_uses();
    assert_eq!(tools.len(), 1);
    assert_eq!(tools[0].0, "call_top");
    assert_eq!(tools[0].1, "grep");
    assert_eq!(string(member(&tools[0].2, "pattern")), "test");
    let starts = tool_starts(&events);
    assert_eq!(starts.len(), 1, "must send ToolUseStart exactly once");
    assert_eq!(starts[0], ("call_top".to_string(), "grep".to_string()));
}

#[test]
fn sse_tool_name_in_function_standard() {
    let sse = "\
data: {\"choices\":[{\"delta\":{\"tool_calls\":[{\"index\":0,\"id\":\"c_std\",\"function\":{\"name\":\"bash\",\"arguments\":\"{\\\"command\\\":\\\"ls\\\"}\"}}]}}]}\n\
\n\
data: {\"choices\":[{\"finish_reason\":\"tool_calls\",\"delta\":{}}],\"usage\":{\"prompt_tokens\":3,\"completion_tokens\":2}}\n\
\n\
data: [DONE]\n";
    let (resp, events) = ok(sse);
    let tools = resp.message.tool_uses();
    assert_eq!(tools.len(), 1);
    assert_eq!(tools[0].0, "c_std");
    assert_eq!(tools[0].1, "bash");
    assert_eq!(string(member(&tools[0].2, "command")), "ls");
    assert_eq!(
        tool_starts(&events),
        vec![("c_std".to_string(), "bash".to_string())],
        "standard format: one ToolUseStart with correct id+name"
    );
}

#[test]
fn sse_parallel_tool_calls_mixed_format() {
    let sse = "\
data: {\"choices\":[{\"delta\":{\"tool_calls\":[{\"index\":0,\"name\":\"bash\",\"function\":{\"arguments\":\"\"}}]}}]}\n\
\n\
data: {\"choices\":[{\"delta\":{\"tool_calls\":[{\"index\":1,\"id\":\"c2\",\"function\":{\"name\":\"grep\",\"arguments\":\"\"}}]}}]}\n\
\n\
data: {\"choices\":[{\"delta\":{\"tool_calls\":[{\"index\":0,\"id\":\"c1\",\"function\":{\"arguments\":\"{\\\"command\\\":\\\"date\\\"}\"}}]}}]}\n\
\n\
data: {\"choices\":[{\"delta\":{\"tool_calls\":[{\"index\":1,\"function\":{\"arguments\":\"{\\\"pattern\\\":\\\"foo\\\"}\"}}]}}]}\n\
\n\
data: {\"choices\":[{\"finish_reason\":\"tool_calls\",\"delta\":{}}],\"usage\":{\"prompt_tokens\":5,\"completion_tokens\":3}}\n\
\n\
data: [DONE]\n";
    let (resp, events) = ok(sse);
    let tools = resp.message.tool_uses();
    assert_eq!(tools.len(), 2);
    assert_eq!(tools[0].0, "c1");
    assert_eq!(tools[0].1, "bash");
    assert_eq!(string(member(&tools[0].2, "command")), "date");
    assert_eq!(tools[1].0, "c2");
    assert_eq!(tools[1].1, "grep");
    assert_eq!(string(member(&tools[1].2, "pattern")), "foo");
    let starts = tool_starts(&events);
    assert_eq!(starts.len(), 2, "exactly two ToolUseStart events, got: {:?}", starts);
    for (i, (id, _)) in starts.iter().enumerate() {
        assert!(!id.is_empty(), "ToolUseStart {} has empty id", i);
    }
    assert_eq!(starts[0], ("c2".to_string(), "grep".to_string()));
    assert_eq!(starts[1], ("c1".to_string(), "bash".to_string()));
}

#[test]
fn sse_shangtang_subsequent_empty_id_and_name() {
    let sse = "\
data: {\"choices\":[{\"delta\":{\"tool_calls\":[{\"index\":0,\"id\":\"call_abc\",\"type\":\"function\",\"function\":{\"name\":\"bash\",\"arguments\":\"\"}}]}}]}\n\
\n\
data: {\"choices\":[{\"delta\":{\"tool_calls\":[{\"index\":0,\"id\":\"\",\"type\":\"\",\"function\":{\"name\":\"\",\"arguments\":\"{\\\"command\\\":\\\"date\\\"}\"}}]}}]}\n\
\n\
data: {\"choices\":[{\"finish_reason\":\"tool_calls\",\"delta\":{}}],\"usage\":{\"prompt_tokens\":5,\"completion_tokens\":3}}\n\
\n\
data: [DONE]\n";
    let (resp, events) = ok(sse);
    let tools = resp.message.tool_uses();
    assert_eq!(tools.len(), 1);
    assert_eq!(tools[0].0, "call_abc", "id must survive empty overwrites");
    assert_eq!(tools[0].1, "bash", "name must survive empty overwrites");
    assert_eq!(string(member(&tools[0].2, "command")), "date");
    let starts = tool_starts(&events);
    assert_eq!(starts.len(), 1, "exactly one ToolUseStart, got: {:?}", starts);
}

#[test]
fn parse_sse_reasoning_only_no_content() {
    let sse = "\
data: {\"choices\":[{\"delta\":{\"reasoning_content\":\"Let me think about this\"}}]}
\n
data: {\"choices\":[{\"delta\":{\"reasoning_content\":\" step by step\"}}]}
\n
data: {\"choices\":[{\"finish_reason\":\"stop\",\"delta\":{}}],\"usage\":{\"prompt_tokens\":10,\"completion_tokens\":5}}
\n
data: [DONE]\n";
    let (resp, events) = ok(sse);
    assert!(matches!(&resp.message.content[0], ContentBlock::Thinking { thinking, .. } if thinking == "Let me think about this step by step"));
    assert_eq!(resp.message.content.len(), 1, "only thinking block, no text block");
    assert_eq!(resp.stop_reason, Some(StopReason::EndTurn));
    assert_eq!(resp.usage.output, 5);
    assert_eq!(thinking_deltas(&events), vec!["Let me think about this", " step by step"]);
}

#[test]
fn parse_sse_content_null_in_delta() {
    let sse = "\
data: {\"choices\":[{\"delta\":{\"reasoning_content\":\"thinking\",\"content\":null}}]}
\n
data: {\"choices\":[{\"delta\":{\"reasoning_content\":null,\"content\":\"answer text\"}}]}
\n
data: {\"choices\":[{\"finish_reason\":\"stop\",\"delta\":{}}]}
\n
data: [DONE]\n";
    let (resp, _) = ok(sse);
    assert!(matches!(&resp.message.content[0], ContentBlock::Thinking { thinking, .. } if thinking == "thinking"));
    assert!(matches!(&resp.message.content[1], ContentBlock::Text { text } if text == "answer text"));
}

#[test]
fn parse_sse_usage_only_chunk_with_empty_choices() {
    let sse = "\
data: {\"choices\":[{\"delta\":{\"content\":\"Hello\"}}]}
\n
data: {\"choices\":[],\"usage\":{\"prompt_tokens\":100,\"completion_tokens\":20}}
\n
data: [DONE]\n";
    let (resp, _) = ok(sse);
    assert!(matches!(&resp.message.content[0], ContentBlock::Text { text } if text == "Hello"));
    assert_eq!(resp.usage.input, 100);
    assert_eq!(resp.usage.output, 20);
    assert_eq!(resp.stop_reason, None);
}

#[test]
fn parse_sse_reasoning_with_empty_content() {
    let sse = "\
data: {\"choices\":[{\"delta\":{\"reasoning_content\":\"deep thoughts\",\"content\":\"\"}}]}
\n
data: {\"choices\":[{\"delta\":{\"reasoning_content\":null,\"content\":\"actual answer\"}}]}
\n
data: {\"choices\":[{\"finish_reason\":\"stop\",\"delta\":{}}]}
\n
data: [DONE]\n";
    let (resp, _) = ok(sse);
    assert!(matches!(&resp.message.content[0], ContentBlock::Thinking { thinking, .. } if thinking == "deep thoughts"));
    assert!(matches!(&resp.message.content[1], ContentBlock::Text { text } if text == "actual answer"));
}

#[test]
fn parse_sse_non_streaming_json_without_data_prefix() {
    let sse = "{\"id\":\"chatcmpl-abc\",\"object\":\"chat.completion\",\"created\":123,\"model\":\"qwen\",\"choices\":[{\"index\":0,\"message\":{\"role\":\"assistant\",\"content\":\"Hello\"},\"finish_reason\":\"stop\"}],\"usage\":{\"prompt_tokens\":10,\"completion_tokens\":5}}\n";
    match err(sse) {
        AgentError::Api { status: 502, .. } => {}
        other => panic!("expected 502 error, got: {other:?}"),
    }
}

#[test]
fn parse_sse_message_alias_with_stream_content() {
    let sse = "\
data: {\"choices\":[{\"message\":{\"content\":\"Hello\"}}]}
\n
data: {\"choices\":[{\"message\":{\"content\":\" world\"}}]}
\n
data: {\"choices\":[{\"finish_reason\":\"stop\",\"message\":{}}]}
\n
data: [DONE]\n";
    let (resp, events) = ok(sse);
    assert!(matches!(&resp.message.content[0], ContentBlock::Text { text } if text == "Hello world"));
    assert_eq!(resp.stop_reason, Some(StopReason::EndTurn));
    assert_eq!(text_deltas(&events), vec!["Hello", " world"]);
}
