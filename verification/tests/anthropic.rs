use jyc_agent::json::{parse_json, Json};
use jyc_agent::provider::anthropic::{
    apply_cache_breakpoints, mark_last_block_cached, next_anthropic_step, parse_anthropic_sse,
    sanitize_input_schema, AnthropicProvider, StreamState,
};
use jyc_agent::provider::stream::{SseItem, StreamStep};
use jyc_agent::types::{ContentBlock, ImageSource, Message, StreamEvent, ToolDefinition};

fn json(text: &str) -> Json {
    parse_json(text).unwrap()
}

/// The document at a path of names and indices, or null.
fn pick<'a>(json: &'a Json, path: &str) -> &'a Json {
    let mut at = json;
    for step in path.split('/') {
        at = match step.parse::<usize>() {
            Ok(i) => at.as_array().and_then(|items| items.get(i)),
            Err(_) => at.get(step),
        }
        .unwrap_or(&Json::Null);
    }
    at
}

fn marked(json: &Json, path: &str) -> bool {
    pick(json, path).get("cache_control").is_some()
}

/// How many markers there are anywhere in a document.
fn count_breakpoints(json: &Json) -> usize {
    match json {
        Json::Object(fields) => fields
            .iter()
            .map(|(name, value)| usize::from(name == "cache_control") + count_breakpoints(value))
            .sum(),
        Json::Array(items) => items.iter().map(count_breakpoints).sum(),
        _ => 0,
    }
}

fn body_with(messages: Json, tools: Json) -> Json {
    json(r#"{"model": "test-model", "max_tokens": 16384, "stream": true, "system": "You are a helpful agent."}"#)
        .with("tools", tools)
        .with("messages", messages)
}

const FIVE: &str = r#"[
    {"role": "user", "content": [{"type": "text", "text": "m0"}]},
    {"role": "assistant", "content": [{"type": "text", "text": "m1"}]},
    {"role": "user", "content": [{"type": "text", "text": "m2"}]},
    {"role": "assistant", "content": [{"type": "text", "text": "m3"}]},
    {"role": "user", "content": [{"type": "text", "text": "m4"}]}
]"#;

#[test]
fn cache_breakpoints_standard_layout() {
    let mut body = body_with(
        json(FIVE),
        json(r#"[{"name": "bash", "description": "d", "input_schema": {}}, {"name": "write", "description": "d", "input_schema": {}}]"#),
    );
    apply_cache_breakpoints(&mut body);

    assert_eq!(count_breakpoints(&body), 4);
    assert!(!marked(&body, "tools/0"), "first tool");
    assert!(marked(&body, "tools/1"), "last tool");

    assert_eq!(pick(&body, "system").as_array().unwrap().len(), 1);
    assert_eq!(pick(&body, "system/0/text").as_str(), Some("You are a helpful agent."));
    assert!(marked(&body, "system/0"));

    for (i, expected) in [(0, false), (1, false), (2, true), (3, true), (4, false)] {
        assert_eq!(
            marked(&body, &format!("messages/{i}/content/0")),
            expected,
            "message idx {i} marker mismatch"
        );
    }
}

#[test]
fn cache_breakpoint_marks_last_content_block() {
    let mut msg = json(
        r#"{"role": "assistant", "content": [{"type": "text", "text": "Let me look."}, {"type": "tool_use", "id": "toolu_1", "name": "grep", "input": {}}]}"#,
    );
    mark_last_block_cached(&mut msg);

    assert!(!marked(&msg, "content/0"), "first block must stay unmarked");
    assert!(marked(&msg, "content/1"), "last block must carry the marker");
    assert!(msg.get("cache_control").is_none());
}

#[test]
fn cache_breakpoint_normalizes_string_content() {
    let mut msg = json(r#"{ "role": "user", "content": "plain string" }"#);
    mark_last_block_cached(&mut msg);

    assert_eq!(pick(&msg, "content").as_array().unwrap().len(), 1);
    assert_eq!(pick(&msg, "content/0/type").as_str(), Some("text"));
    assert_eq!(pick(&msg, "content/0/text").as_str(), Some("plain string"));
    assert!(marked(&msg, "content/0"));
}

#[test]
fn cache_breakpoints_short_conversations() {
    for (count, expected_total) in [(1_usize, 2_usize), (2, 3)] {
        let messages: Vec<Json> = (0..count)
            .map(|i| json(&format!(r#"{{"role": "user", "content": [{{"type": "text", "text": "m{i}"}}]}}"#)))
            .collect();
        let mut body = body_with(
            Json::Array(messages),
            json(r#"[{"name": "bash", "description": "d", "input_schema": {}}]"#),
        );
        apply_cache_breakpoints(&mut body);

        assert_eq!(count_breakpoints(&body), expected_total);
        assert!(!marked(&body, &format!("messages/{}/content/0", count - 1)));
        if count == 2 {
            assert!(marked(&body, "messages/0/content/0"));
        }
    }
}

#[test]
fn cache_breakpoints_no_tools_empty_system() {
    let mut body = json(
        r#"{"model": "test-model", "system": "", "messages": [{"role": "user", "content": [{"type": "text", "text": "hi"}]}]}"#,
    );
    apply_cache_breakpoints(&mut body);

    assert!(body.get("tools").is_none(), "must not invent a tools key");
    assert_eq!(pick(&body, "system").as_str(), Some(""));
    assert_eq!(count_breakpoints(&body), 0);
}

#[test]
fn cache_breakpoints_preserves_caller_system_array() {
    let mut body = json(
        r#"{"model": "test-model", "system": [{"type": "text", "text": "role"}, {"type": "text", "text": "knowledge base"}], "messages": [{"role": "user", "content": [{"type": "text", "text": "hi"}]}]}"#,
    );
    apply_cache_breakpoints(&mut body);

    assert_eq!(pick(&body, "system").as_array().unwrap().len(), 2);
    assert!(!marked(&body, "system/0"));
    assert!(marked(&body, "system/1"));
}

#[test]
fn cache_breakpoints_defers_to_caller_supplied_markers() {
    let caller_system = json(
        r#"[{"type": "text", "text": "caller knows best", "cache_control": { "type": "ephemeral" }}]"#,
    );
    let mut body = body_with(
        json(
            r#"[{"role": "user", "content": [{"type": "text", "text": "m0"}]}, {"role": "assistant", "content": [{"type": "text", "text": "m1"}]}, {"role": "user", "content": [{"type": "text", "text": "m2"}]}]"#,
        ),
        json(r#"[{"name": "bash", "description": "d", "input_schema": {}}]"#),
    )
    .with("system", caller_system);
    let before = body.to_text();

    apply_cache_breakpoints(&mut body);

    assert_eq!(body.to_text(), before);
    assert_eq!(count_breakpoints(&body), 1);
}

#[test]
fn cache_breakpoints_defers_to_caller_marker_on_tools() {
    let mut body = body_with(
        json(r#"[{"role": "user", "content": [{"type": "text", "text": "hi"}]}]"#),
        json(r#"[{"name": "bash", "description": "d", "input_schema": {}, "cache_control": { "type": "ephemeral" }}]"#),
    );
    let before = body.to_text();

    apply_cache_breakpoints(&mut body);

    assert_eq!(body.to_text(), before, "caller's tool marker wins");
    assert_eq!(count_breakpoints(&body), 1);
}

#[test]
fn marking_twice_changes_nothing() {
    let mut body = body_with(json(FIVE), json("[]"));
    apply_cache_breakpoints(&mut body);
    let once = body.to_text();
    apply_cache_breakpoints(&mut body);
    assert_eq!(body.to_text(), once);
}

fn provider(params: Option<Json>) -> AnthropicProvider {
    AnthropicProvider::new("http://localhost/", "test-model", Some("k"), params, false, None, false)
}

fn tool(name: &str, description: &str) -> ToolDefinition {
    ToolDefinition {
        name: name.to_string(),
        description: description.to_string(),
        input_schema: json(r#"{"type": "object"}"#),
    }
}

#[test]
fn complete_raw_sends_cache_breakpoints_on_the_wire() {
    let raw: Vec<Json> = json(FIVE).as_array().unwrap().to_vec();
    let tools = [tool("bash", "run"), tool("write", "write")];
    let sent = provider(None).complete_raw_body(&raw, &tools, "system prompt here");

    assert_eq!(count_breakpoints(&sent), 4);
    assert_eq!(pick(&sent, "system/0/text").as_str(), Some("system prompt here"));
    assert!(marked(&sent, "system/0"));
    assert!(!marked(&sent, "tools/0"));
    assert!(marked(&sent, "tools/1"));
    assert!(marked(&sent, "messages/2/content/0"));
    assert!(marked(&sent, "messages/3/content/0"));
    assert!(!marked(&sent, "messages/4/content/0"));
}

#[test]
fn the_request_of_a_plain_conversation() {
    let p = provider(Some(json(r#"{"max_tokens": 7}"#)));
    assert_eq!(p.url(), "http://localhost/messages");
    let body = p.complete_body(&[Message::user("hello")], &[], "");
    assert_eq!(pick(&body, "model").as_str(), Some("test-model"));
    assert_eq!(pick(&body, "max_tokens").as_u64(), Some(7));
    assert_eq!(pick(&body, "messages/0/content/0/text").as_str(), Some("hello"));
}

#[test]
fn messages_are_kept_as_blocks() {
    let p = provider(None);
    assert_eq!(
        p.format_tool_result("t1", "out", true).to_text(),
        r#"{"content":[{"content":"out","is_error":true,"tool_use_id":"t1","type":"tool_result"}],"role":"user"}"#
    );
    let calls = [("t1".to_string(), "bash".to_string(), "{\"a\":1}".to_string())];
    assert_eq!(
        p.build_raw_assistant_message("hi", "why", &calls).to_text(),
        r#"{"content":[{"text":"hi","type":"text"},{"id":"t1","input":{"a":1},"name":"bash","type":"tool_use"}],"role":"assistant"}"#
    );
    let blocks = [
        ContentBlock::Text { text: "see".to_string() },
        ContentBlock::Image {
            source: ImageSource::Base64 { media_type: "image/png".to_string(), data: "AA==".to_string() },
        },
    ];
    assert_eq!(
        p.format_user_message(&blocks).to_text(),
        r#"{"content":[{"text":"see","type":"text"},{"source":{"data":"AA==","media_type":"image/png","type":"base64"},"type":"image"}],"role":"user"}"#
    );
}

#[test]
fn a_stream_is_read_step_by_step() {
    let mut state = StreamState::default();
    let message = |data: &str| SseItem::Message(data.to_string());
    assert_eq!(next_anthropic_step(SseItem::Open, &mut state), StreamStep::Wait);
    assert_eq!(
        next_anthropic_step(
            message(r#"{"type":"content_block_start","content_block":{"type":"tool_use","id":"t1","name":"bash"}}"#),
            &mut state
        ),
        StreamStep::Yield(StreamEvent::ToolUseStart { id: "t1".to_string(), name: "bash".to_string() })
    );
    assert_eq!(
        next_anthropic_step(
            message(r#"{"type":"content_block_delta","delta":{"type":"input_json_delta","partial_json":"{}"}}"#),
            &mut state
        ),
        StreamStep::Yield(StreamEvent::ToolInputDelta("{}".to_string()))
    );
    assert_eq!(
        next_anthropic_step(message(r#"{"type":"content_block_stop"}"#), &mut state),
        StreamStep::Yield(StreamEvent::ToolUseEnd)
    );
    assert_eq!(
        next_anthropic_step(message(r#"{"type":"message_stop"}"#), &mut state),
        StreamStep::Yield(StreamEvent::Done)
    );
}

#[test]
fn sanitize_input_schema_removes_one_of() {
    let schema = json(r#"{ "type": "object", "properties": { "name": {"type": "string"} }, "oneOf": [{"required": ["name"]}] }"#);
    let result = sanitize_input_schema(schema);
    assert!(result.get("oneOf").is_none(), "oneOf should be removed");
    assert!(result.get("type").is_some(), "type should be preserved");
    assert!(
        result.get("properties").is_some(),
        "properties should be preserved"
    );
}

#[test]
fn sanitize_input_schema_removes_all_of() {
    let schema = json(r#"{ "type": "object", "allOf": [{"type": "object"}] }"#);
    let result = sanitize_input_schema(schema);
    assert!(result.get("allOf").is_none(), "allOf should be removed");
    assert!(result.get("type").is_some(), "type should be preserved");
}

#[test]
fn sanitize_input_schema_removes_any_of() {
    let schema = json(r#"{ "type": "object", "anyOf": [{"type": "object"}, {"type": "string"}] }"#);
    let result = sanitize_input_schema(schema);
    assert!(result.get("anyOf").is_none(), "anyOf should be removed");
}

#[test]
fn sanitize_input_schema_removes_all_composition_keywords() {
    let schema = json(r#"{ "type": "object", "oneOf": [{"required": ["a"]}], "allOf": [{"type": "object"}], "anyOf": [{"type": "string"}] }"#);
    let result = sanitize_input_schema(schema);
    assert!(result.get("oneOf").is_none());
    assert!(result.get("allOf").is_none());
    assert!(result.get("anyOf").is_none());
}

#[test]
fn sanitize_input_schema_passes_through_non_object() {
    let schema = json(r#""string_value""#);
    let result = sanitize_input_schema(schema);
    assert_eq!(result.to_text(), json(r#""string_value""#).to_text());
}

#[test]
fn sanitize_input_schema_passes_through_null() {
    let schema = json(r#"null"#);
    let result = sanitize_input_schema(schema);
    assert_eq!(result.to_text(), json(r#"null"#).to_text());
}

#[test]
fn sanitize_input_schema_passes_through_clean_object() {
    let schema = json(r#"{ "type": "object", "properties": { "name": {"type": "string"} } }"#);
    let result = sanitize_input_schema(schema.clone());
    assert_eq!(result.to_text(), schema.to_text(), "clean object should pass through unchanged");
}

#[test]
fn parse_usage_normalizes_input_tokens_to_include_cache() {
    let mut state = StreamState::default();
    let data = json(r#"{ "type": "message_start", "message": { "usage": { "input_tokens": 2800, "output_tokens": 10, "cache_read_input_tokens": 38400, "cache_creation_input_tokens": 0 } } }"#).to_text();

    let events = parse_anthropic_sse(&data, &mut state).unwrap_or_default();
    match &events[0] {
        StreamEvent::Usage {
            input_tokens,
            cache_hit_tokens,
            ..
        } => {
            assert_eq!(*input_tokens, 41_200, "must be the normalized total");
            assert_eq!(*cache_hit_tokens, 38_400);
            assert!(
                *input_tokens >= *cache_hit_tokens,
                "input must never be less than cache hits, or cost clamps to zero"
            );
        }
        other => panic!("expected Usage, got {other:?}"),
    }
}

#[test]
fn parse_anthropic_thinking_start_emits_reasoning_delta() {
    let mut state = StreamState::default();
    let data = json(r#"{ "type": "content_block_start", "index": 0, "content_block": { "type": "thinking", "thinking": "Let me reason about this carefully..." } }"#).to_text();
    let events = parse_anthropic_sse(&data, &mut state).unwrap_or_default();
    assert_eq!(events.len(), 1, "one ReasoningDelta expected");
    match &events[0] {
        StreamEvent::ReasoningDelta(text) => {
            assert_eq!(text, "Let me reason about this carefully...");
        }
        other => panic!("expected ReasoningDelta, got {other:?}"),
    }
}

#[test]
fn parse_anthropic_thinking_delta_emits_reasoning_delta() {
    let mut state = StreamState::default();
    let data = json(r#"{ "type": "content_block_delta", "index": 0, "delta": { "type": "thinking_delta", "thinking": " more reasoning follows." } }"#).to_text();
    let events = parse_anthropic_sse(&data, &mut state).unwrap_or_default();
    assert_eq!(events.len(), 1, "one ReasoningDelta expected");
    match &events[0] {
        StreamEvent::ReasoningDelta(text) => {
            assert_eq!(text, " more reasoning follows.");
        }
        other => panic!("expected ReasoningDelta, got {other:?}"),
    }
}

#[test]
fn parse_anthropic_signature_delta_is_ignored() {
    let mut state = StreamState::default();
    let data = json(r#"{ "type": "content_block_delta", "index": 0, "delta": { "type": "signature_delta", "signature": "abc123" } }"#).to_text();
    let events = parse_anthropic_sse(&data, &mut state).unwrap_or_default();
    assert!(
        events.is_empty(),
        "signature_delta should produce no events, got {events:?}"
    );
}

#[test]
fn parse_anthropic_thinking_start_empty_text_is_ignored() {
    let mut state = StreamState::default();
    let data = json(r#"{ "type": "content_block_start", "index": 0, "content_block": { "type": "thinking", "thinking": "" } }"#).to_text();
    let events = parse_anthropic_sse(&data, &mut state).unwrap_or_default();
    assert!(
        events.is_empty(),
        "empty thinking block should produce no events, got {events:?}"
    );
}

#[test]
fn requests_tell_the_version_and_the_key() {
    let p = AnthropicProvider::new("https://a/", "m", Some("test-key"), None, false, Some("me/1"), false);
    assert_eq!(p.url(), "https://a/messages");
    let pair = |a: &str, b: &str| (a.to_string(), b.to_string());
    assert_eq!(
        p.headers(),
        vec![
            pair("anthropic-version", "2023-06-01"),
            pair("x-api-key", "test-key"),
            pair("user-agent", "me/1"),
        ]
    );
    let bare = AnthropicProvider::new("https://a", "m", None, None, false, None, false);
    assert_eq!(bare.headers().len(), 1);
}
