//! Wire conversion scenarios for messages and tools.
use maki_providers::convert::{convert_messages, convert_tools};
use maki_providers::json::Json;
use maki_providers::types::{ContentBlock, ImageMediaType, ImageSource, Message, Role};

fn s(text: &str) -> Json {
    Json::String(text.to_string())
}

fn obj(members: Vec<(&str, Json)>) -> Json {
    Json::Object(members.into_iter().map(|(k, v)| (k.to_string(), v)).collect())
}

fn member<'a>(v: &'a Json, key: &str) -> &'a Json {
    v.get(key).unwrap()
}

fn item(v: &Json, i: usize) -> &Json {
    &v.as_array().unwrap()[i]
}

fn string(v: &Json) -> &str {
    v.as_str().unwrap()
}

#[test]
fn convert_messages_structure() {
    let messages = vec![
        Message::user("hello".to_string()),
        Message {
            role: Role::Assistant,
            content: vec![
                ContentBlock::Text { text: "thinking...".to_string() },
                ContentBlock::ToolUse {
                    id: "tc_1".to_string(),
                    name: "bash".to_string(),
                    input: obj(vec![("command", s("ls"))]),
                },
            ],
        },
        Message {
            role: Role::User,
            content: vec![ContentBlock::ToolResult {
                tool_use_id: "tc_1".to_string(),
                content: "file.txt".to_string(),
                is_error: false,
            }],
        },
    ];

    let wire = convert_messages(&messages, "be helpful");

    assert_eq!(string(member(&wire[0], "role")), "system");
    assert_eq!(string(member(&wire[0], "content")), "be helpful");
    assert_eq!(string(member(&wire[1], "role")), "user");
    assert_eq!(string(member(&wire[1], "content")), "hello");
    assert_eq!(string(member(&wire[2], "role")), "assistant");
    assert_eq!(string(member(&wire[2], "content")), "thinking...");
    let call = item(member(&wire[2], "tool_calls"), 0);
    assert_eq!(string(member(call, "id")), "tc_1");
    assert_eq!(string(member(call, "type")), "function");
    assert_eq!(string(member(member(call, "function"), "name")), "bash");
    assert_eq!(string(member(&wire[3], "role")), "tool");
    assert_eq!(string(member(&wire[3], "tool_call_id")), "tc_1");
    assert_eq!(string(member(&wire[3], "content")), "file.txt");
}

#[test]
fn convert_messages_assistant_tool_calls_only_has_content() {
    let messages = vec![
        Message::user("list files".to_string()),
        Message {
            role: Role::Assistant,
            content: vec![ContentBlock::ToolUse {
                id: "tc_1".to_string(),
                name: "bash".to_string(),
                input: obj(vec![("command", s("ls"))]),
            }],
        },
    ];

    let wire = convert_messages(&messages, "be helpful");

    assert_eq!(string(member(&wire[2], "role")), "assistant");
    assert_eq!(string(member(&wire[2], "content")), "");
    let call = item(member(&wire[2], "tool_calls"), 0);
    assert_eq!(string(member(member(call, "function"), "name")), "bash");
}

#[test]
fn convert_tools_structure() {
    let schema = obj(vec![
        ("type", s("object")),
        ("properties", obj(vec![("command", obj(vec![("type", s("string"))]))])),
        ("required", Json::Array(vec![s("command")])),
    ]);
    let anthropic = Json::Array(vec![obj(vec![
        ("name", s("bash")),
        ("description", s("Run a command")),
        ("input_schema", schema),
    ])]);

    let openai = convert_tools(&anthropic);
    let tool = item(&openai, 0);
    assert_eq!(string(member(tool, "type")), "function");
    assert_eq!(string(member(member(tool, "function"), "name")), "bash");
    assert_eq!(string(member(member(tool, "function"), "description")), "Run a command");
    assert_eq!(string(member(member(member(tool, "function"), "parameters"), "type")), "object");
}

#[test]
fn convert_messages_user_with_image() {
    let source = ImageSource::new(ImageMediaType::Png, "abc123".to_string());
    let msgs = vec![Message::user_with_images("describe".into(), vec![source])];
    let result = convert_messages(&msgs, "system");
    let user = &result[1];
    let content = member(user, "content").as_array().unwrap();
    assert_eq!(content.len(), 2);
    assert_eq!(string(member(&content[0], "type")), "image_url");
    assert!(string(member(member(&content[0], "image_url"), "url")).starts_with("data:image/png;base64,"));
    assert_eq!(string(member(&content[1], "type")), "text");
    assert_eq!(string(member(&content[1], "text")), "describe");
}

#[test]
fn convert_messages_tool_results_precede_tool_returned_image() {
    let msgs = vec![Message {
        role: Role::User,
        content: vec![
            ContentBlock::ToolResult {
                tool_use_id: "t1".into(),
                content: "[image: pic.png 1KB]".into(),
                is_error: false,
            },
            ContentBlock::Image { source: ImageSource::new(ImageMediaType::Png, "abc123".to_string()) },
        ],
    }];
    let result = convert_messages(&msgs, "system");
    assert_eq!(string(member(&result[1], "role")), "tool");
    assert_eq!(string(member(&result[1], "tool_call_id")), "t1");
    assert_eq!(string(member(&result[2], "role")), "user");
    assert_eq!(string(member(item(member(&result[2], "content"), 0), "type")), "image_url");
}

#[test]
fn convert_messages_user_text_only_stays_string() {
    let msgs = vec![Message::user("hello".into())];
    let result = convert_messages(&msgs, "system");
    assert!(member(&result[1], "content").is_string());
}

#[test]
fn convert_messages_assistant_with_reasoning() {
    let messages = vec![Message {
        role: Role::Assistant,
        content: vec![
            ContentBlock::Thinking { thinking: "Let me think...".into(), signature: None },
            ContentBlock::Text { text: "Hello".into() },
        ],
    }];
    let wire = convert_messages(&messages, "");
    let asst = &wire[1];
    assert_eq!(string(member(asst, "role")), "assistant");
    assert_eq!(string(member(asst, "content")), "Hello");
    assert_eq!(string(member(asst, "reasoning_content")), "Let me think...");
}

#[test]
fn convert_messages_assistant_reasoning_only() {
    let messages = vec![Message {
        role: Role::Assistant,
        content: vec![ContentBlock::Thinking { thinking: "Just thinking...".into(), signature: None }],
    }];
    let wire = convert_messages(&messages, "");
    let asst = &wire[1];
    assert_eq!(string(member(asst, "role")), "assistant");
    assert_eq!(string(member(asst, "reasoning_content")), "Just thinking...");
    assert_eq!(string(member(asst, "content")), "");
}
