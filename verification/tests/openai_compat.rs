use jyc_agent::json::{parse_json, Json};
use jyc_agent::provider::openai_compat::{
    apply_headers, flush_think_buffer, next_openai_step, parse_openai_chunk, split_think_tags,
    OpenAiCompatProvider, OpenAiStreamState,
};
use jyc_agent::provider::stream::{SseItem, StreamStep};
use jyc_agent::types::{ContentBlock, ImageSource, Message, StreamEvent, ToolDefinition};

fn json(text: &str) -> Json {
    parse_json(text).unwrap()
}

/// The document at a path of names and indices, or null.
fn pick<'a>(json: &'a Json, path: &str) -> &'a Json {
    let mut at = json;
    for step in path.split('/') {
        at = match step.parse::<usize>() {
            Ok(i) => at.as_array().and_then(|items| items.get(i)),
            Err(_) => at.get(step),
        }
        .unwrap_or(&Json::Null);
    }
    at
}

#[test]
fn parse_tool_call_string_arguments() {
    let mut state = OpenAiStreamState::default();
    let chunk = json(r#"{ "choices": [{ "delta": { "tool_calls": [{ "index": 0, "id": "call_1", "function": { "name": "bash", "arguments": "{\"command\":\"ls\"}" } }] } }] }"#).to_text();
    let events = parse_openai_chunk(&chunk, &mut state).expect("should parse");

    assert!(!events.is_empty());
    assert_eq!(state.tool_calls.len(), 1);
    assert_eq!(state.tool_calls[0].name, "bash");
    assert_eq!(state.tool_calls[0].arguments, r#"{"command":"ls"}"#);
}

#[test]
fn parse_tool_call_object_arguments() {
    let mut state = OpenAiStreamState::default();
    let chunk = json(r#"{ "choices": [{ "delta": { "tool_calls": [{ "index": 0, "id": "call_1", "function": { "name": "bash", "arguments": {"command": "ls"} } }] } }] }"#).to_text();
    let events = parse_openai_chunk(&chunk, &mut state).expect("should parse");

    assert!(!events.is_empty());
    assert_eq!(state.tool_calls.len(), 1);
    assert_eq!(state.tool_calls[0].name, "bash");
    assert_eq!(state.tool_calls[0].arguments, r#"{"command":"ls"}"#);
}

#[test]
fn parse_tool_call_chunked_string_arguments() {
    let mut state = OpenAiStreamState::default();

    let chunk1 = json(r#"{ "choices": [{ "delta": { "tool_calls": [{ "index": 0, "id": "call_1", "function": { "name": "bash", "arguments": "{\"comm" } }] } }] }"#).to_text();
    parse_openai_chunk(&chunk1, &mut state);

    let chunk2 = json(r#"{ "choices": [{ "delta": { "tool_calls": [{ "index": 0, "function": { "arguments": "and\":\"ls\"}" } }] } }] }"#).to_text();
    parse_openai_chunk(&chunk2, &mut state);

    assert_eq!(state.tool_calls.len(), 1);
    assert_eq!(state.tool_calls[0].arguments, r#"{"command":"ls"}"#);
}

#[test]
fn parse_tool_call_finish_reason_with_last_fragment() {
    let mut state = OpenAiStreamState::default();
    let chunk1 = json(r#"{ "choices": [{ "delta": { "tool_calls": [{ "index": 0, "id": "call_1", "function": { "name": "read", "arguments": "{\"file_path\":\"/foo/bar\"" } }] } }] }"#).to_text();
    let events1 = parse_openai_chunk(&chunk1, &mut state).expect("should parse chunk 1");
    assert!(
        events1
            .iter()
            .any(|e| matches!(e, StreamEvent::ToolUseStart { name, .. } if name == "read")),
        "expected ToolUseStart for 'read', got {events1:?}"
    );
    assert!(
        !events1.iter().any(|e| matches!(e, StreamEvent::ToolUseEnd)),
        "no ToolUseEnd should fire yet"
    );
    assert_eq!(state.tool_calls.len(), 1);
    assert_eq!(state.tool_calls[0].arguments, r#"{"file_path":"/foo/bar""#);
    let chunk2 = json(r#"{ "choices": [{ "delta": { "tool_calls": [{ "index": 0, "function": { "arguments": "}" } }] }, "finish_reason": "tool_calls" }] }"#).to_text();
    let events2 = parse_openai_chunk(&chunk2, &mut state).expect("should parse chunk 2");
    let delta_pos = events2
        .iter()
        .position(|e| matches!(e, StreamEvent::ToolInputDelta(_)));
    let end_pos = events2
        .iter()
        .position(|e| matches!(e, StreamEvent::ToolUseEnd));
    assert!(
        delta_pos.is_some() && end_pos.is_some() && delta_pos.unwrap() < end_pos.unwrap(),
        "ToolInputDelta must precede ToolUseEnd so the final fragment is \
         accumulated before the tool call is finalized; got events={events2:?}"
    );
    assert_eq!(
        state.tool_calls.len(),
        0,
        "state cleared after finish_reason"
    );
}

#[test]
fn parse_tool_call_finish_reason_without_arguments() {
    let mut state = OpenAiStreamState::default();

    let chunk1 = json(r#"{ "choices": [{ "delta": { "tool_calls": [{ "index": 0, "id": "call_1", "function": { "name": "bash", "arguments": "{\"command\":\"ls\"}" } }] } }] }"#).to_text();
    parse_openai_chunk(&chunk1, &mut state);

    let chunk2 = json(r#"{ "choices": [{ "delta": {}, "finish_reason": "tool_calls" }] }"#).to_text();
    let events = parse_openai_chunk(&chunk2, &mut state).expect("should parse");
    let end_count = events
        .iter()
        .filter(|e| matches!(e, StreamEvent::ToolUseEnd))
        .count();
    let delta_count = events
        .iter()
        .filter(|e| matches!(e, StreamEvent::ToolInputDelta(_)))
        .count();
    assert_eq!(end_count, 1, "expected exactly one ToolUseEnd");
    assert_eq!(delta_count, 0, "no ToolInputDelta expected");
    assert!(
        state.tool_calls.is_empty(),
        "state cleared after finish_reason"
    );
}

#[test]
fn format_tool_result_prefixed_with_success() {
    let provider = OpenAiCompatProvider::new(
        "https://api.example.com",
        "test",
        Some("k"),
        None,
        false,
        None,
    );
    let result =
        provider.format_tool_result("id1", "Command completed with exit code 0", false);
    let content = pick(&result, "content").as_str().unwrap();
    assert!(
        content.starts_with("[SUCCESS] "),
        "expected [SUCCESS] prefix, got: {content}"
    );
    assert!(content.contains("Command completed with exit code 0"));
}

#[test]
fn format_tool_result_prefixed_with_error() {
    let provider = OpenAiCompatProvider::new(
        "https://api.example.com",
        "test",
        Some("k"),
        None,
        false,
        None,
    );
    let result = provider.format_tool_result("id1", "something failed", true);
    let content = pick(&result, "content").as_str().unwrap();
    assert!(
        content.starts_with("[ERROR] "),
        "expected [ERROR] prefix, got: {content}"
    );
    assert!(content.contains("something failed"));
}

fn texts(events: &[StreamEvent]) -> Vec<&str> {
    events
        .iter()
        .filter_map(|e| match e {
            StreamEvent::TextDelta(t) => Some(t.as_str()),
            _ => None,
        })
        .collect()
}

fn reasonings(events: &[StreamEvent]) -> Vec<&str> {
    events
        .iter()
        .filter_map(|e| match e {
            StreamEvent::ReasoningDelta(t) => Some(t.as_str()),
            _ => None,
        })
        .collect()
}

#[test]
fn split_think_tags_minimax_layout() {
    let mut state = OpenAiStreamState::default();
    let chunk1 = json(r#"{"choices": [{"delta": {"role": "assistant"}}]}"#).to_text();
    let events = parse_openai_chunk(&chunk1, &mut state).unwrap_or_default();
    assert!(texts(&events).is_empty() && reasonings(&events).is_empty());
    let chunk2 = json(r#"{ "choices": [{"delta": {"content": "<think>The user asks 2+2. Answer is Four.", "role": "assistant"}}] }"#).to_text();
    let events = parse_openai_chunk(&chunk2, &mut state).unwrap_or_default();
    assert!(
        texts(&events).is_empty(),
        "no text yet, got {:?}",
        texts(&events)
    );
    assert_eq!(
        reasonings(&events),
        vec!["The user asks 2+2. Answer is Four."],
        "thinking should be ReasoningDelta"
    );
    assert!(state.in_think_block);
    let chunk3 = json(r#"{ "choices": [{"delta": {"content": "</think>\n\nFour", "role": "assistant"}}] }"#).to_text();
    let events = parse_openai_chunk(&chunk3, &mut state).unwrap_or_default();
    assert_eq!(
        texts(&events),
        vec!["Four"],
        "response should be plain TextDelta with no think tags or leading newlines"
    );
    assert!(
        reasonings(&events).is_empty(),
        "no reasoning leaked into chunk 3"
    );
    assert!(!state.in_think_block, "should have exited think block");
}

#[test]
fn split_think_tags_plain_text_passthrough() {
    let mut state = OpenAiStreamState::default();
    let chunk = json(r#"{ "choices": [{"delta": {"content": "Hello, world!"}}] }"#).to_text();
    let events = parse_openai_chunk(&chunk, &mut state).unwrap_or_default();
    assert_eq!(texts(&events), vec!["Hello, world!"]);
    assert!(reasonings(&events).is_empty());
    assert!(state.tag_buffer.is_empty());
}

#[test]
fn split_think_tags_split_across_chunks() {
    let mut state = OpenAiStreamState::default();

    let chunk1 = json(r#"{"choices": [{"delta": {"content": "<thi"}}]}"#).to_text();
    let events = parse_openai_chunk(&chunk1, &mut state).unwrap_or_default();
    assert!(
        events.is_empty(),
        "partial tag must be buffered, not emitted"
    );
    assert_eq!(state.tag_buffer, "<thi");
    assert!(!state.in_think_block);

    let chunk2 =
        json(r#"{"choices": [{"delta": {"content": "nk>thinking"}}]}"#).to_text();
    let events = parse_openai_chunk(&chunk2, &mut state).unwrap_or_default();
    assert_eq!(
        reasonings(&events),
        vec!["thinking"],
        "thinking content emitted after buffered tag completes"
    );
    assert!(state.in_think_block);
    assert!(state.tag_buffer.is_empty());
}

#[test]
fn split_think_tags_strips_separator_after_close() {
    let mut state = OpenAiStreamState::default();
    let chunk1 =
        json(r#"{"choices": [{"delta": {"content": "<think>stuff"}}]}"#).to_text();
    parse_openai_chunk(&chunk1, &mut state).unwrap_or_default();

    let chunk2 = json(r#"{"choices": [{"delta": {"content": "</think>\n\nAnswer"}}]}"#).to_text();
    let events = parse_openai_chunk(&chunk2, &mut state).unwrap_or_default();
    assert_eq!(texts(&events), vec!["Answer"]);
}

#[test]
fn split_think_tags_buffer_only_after_last_angle_bracket() {
    let mut state = OpenAiStreamState::default();
    let chunk =
        json(r#"{"choices": [{"delta": {"content": "Hello <world"}}]}"#).to_text();
    let events = parse_openai_chunk(&chunk, &mut state).unwrap_or_default();
    assert_eq!(texts(&events), vec!["Hello "]);
    assert_eq!(state.tag_buffer, "<world");
}

#[test]
fn flush_think_buffer_emits_text_when_outside_think() {
    let mut state = OpenAiStreamState {
        tag_buffer: "trailing".to_string(),
        ..Default::default()
    };
    let event = flush_think_buffer(&mut state).expect("should produce event");
    match event {
        StreamEvent::TextDelta(t) => assert_eq!(t, "trailing"),
        other => panic!("expected TextDelta, got {other:?}"),
    }
    assert!(state.tag_buffer.is_empty());
}

#[test]
fn flush_think_buffer_emits_reasoning_when_inside_think() {
    let mut state = OpenAiStreamState {
        in_think_block: true,
        tag_buffer: "still thinking".to_string(),
        ..Default::default()
    };
    let event = flush_think_buffer(&mut state).expect("should produce event");
    match event {
        StreamEvent::ReasoningDelta(t) => assert_eq!(t, "still thinking"),
        other => panic!("expected ReasoningDelta, got {other:?}"),
    }
    assert!(state.tag_buffer.is_empty());
}

#[test]
fn flush_think_buffer_noop_when_empty() {
    let mut state = OpenAiStreamState::default();
    assert!(flush_think_buffer(&mut state).is_none());
}

#[test]
fn parse_openai_chunk_combines_reasoning_content_and_content() {
    let mut state = OpenAiStreamState::default();
    let chunk = json(r#"{ "choices": [{ "delta": { "content": "hello", "reasoning_content": "thinking..." } }] }"#).to_text();
    let events = parse_openai_chunk(&chunk, &mut state).unwrap_or_default();
    assert_eq!(texts(&events), vec!["hello"]);
    assert_eq!(reasonings(&events), vec!["thinking..."]);
}

#[test]
fn split_think_tags_separator_split_across_chunks() {
    let mut state = OpenAiStreamState::default();
    let chunk1 =
        json(r#"{"choices": [{"delta": {"content": "<think>thinking"}}]}"#).to_text();
    parse_openai_chunk(&chunk1, &mut state).unwrap_or_default();
    let chunk2 =
        json(r#"{"choices": [{"delta": {"content": "</think>"}}]}"#).to_text();
    let events = parse_openai_chunk(&chunk2, &mut state).unwrap_or_default();
    assert!(events.is_empty(), "no events after closing tag alone");
    assert!(state.pending_strip_newlines);
    let chunk3 =
        json(r#"{"choices": [{"delta": {"content": "\n\nAnswer"}}]}"#).to_text();
    let events = parse_openai_chunk(&chunk3, &mut state).unwrap_or_default();
    assert_eq!(
        texts(&events),
        vec!["Answer"],
        "leading \\n\\n must be stripped even when it arrives in a separate chunk"
    );
    assert!(!state.pending_strip_newlines);
}

#[test]
fn split_think_tags_multiple_think_blocks() {
    let mut state = OpenAiStreamState::default();
    let chunk = json(r#"{ "choices": [{"delta": {"content": "<think>a</think>middle<think>b</think>end"}}] }"#).to_text();
    let events = parse_openai_chunk(&chunk, &mut state).unwrap_or_default();

    let r = reasonings(&events);
    assert_eq!(r, vec!["a", "b"], "two separate reasoning segments");
    let t = texts(&events);
    assert_eq!(t, vec!["middle", "end"], "two separate text segments");
    assert!(!state.in_think_block);
    assert!(state.tag_buffer.is_empty());
}

#[test]
fn build_raw_assistant_message_inlines_think_tags() {
    let provider = OpenAiCompatProvider::new(
        "https://api.example.com",
        "test",
        Some("k"),
        None,
        false,
        None,
    );
    let msg = provider.build_raw_assistant_message("the answer", "the thinking", &[]);
    let content = pick(&msg, "content").as_str().expect("content should be string");
    assert_eq!(content, "<think>the thinking</think>\n\nthe answer");
    let reasoning = pick(&msg, "reasoning_content")
        .as_str()
        .expect("reasoning_content set");
    assert_eq!(reasoning, "the thinking");
}

#[test]
fn build_raw_assistant_message_plain_text_when_no_reasoning() {
    let provider = OpenAiCompatProvider::new(
        "https://api.example.com",
        "test",
        Some("k"),
        None,
        false,
        None,
    );
    let msg = provider.build_raw_assistant_message("just text", "", &[]);
    assert_eq!(pick(&msg, "content").as_str().unwrap(), "just text");
    assert!(msg.get("reasoning_content").is_none());
}

#[test]
fn build_raw_assistant_message_valid_args_passthrough() {
    let provider = OpenAiCompatProvider::new(
        "https://api.example.com",
        "test",
        Some("k"),
        None,
        false,
        None,
    );
    let calls = vec![(
        "call_1".to_string(),
        "bash".to_string(),
        r#"{"command": "ls -la"}"#.to_string(),
    )];
    let msg = provider.build_raw_assistant_message("", "", &calls);
    let args = pick(&msg, "tool_calls/0/function/arguments")
        .as_str()
        .expect("arguments is a JSON string");
    assert_eq!(args, r#"{"command": "ls -la"}"#);
}

#[test]
fn build_raw_assistant_message_replaces_malformed_args() {
    let provider = OpenAiCompatProvider::new(
        "https://api.example.com",
        "test",
        Some("k"),
        None,
        false,
        None,
    );
    let calls = vec![(
        "call_1".to_string(),
        "bash".to_string(),
        r#"{"command": "ls"#.to_string(),
    )];
    let msg = provider.build_raw_assistant_message("", "", &calls);
    let args = pick(&msg, "tool_calls/0/function/arguments")
        .as_str()
        .expect("arguments is a JSON string");
    assert_eq!(
        args, "{}",
        "malformed args must be replaced with empty object to avoid 400 on replay"
    );
}

#[test]
fn build_raw_assistant_message_replaces_empty_args() {
    let provider = OpenAiCompatProvider::new(
        "https://api.example.com",
        "test",
        Some("k"),
        None,
        false,
        None,
    );
    let calls = vec![("call_1".to_string(), "bash".to_string(), "   ".to_string())];
    let msg = provider.build_raw_assistant_message("", "", &calls);
    let args = pick(&msg, "tool_calls/0/function/arguments")
        .as_str()
        .expect("arguments is a JSON string");
    assert_eq!(args, "{}");
}

fn plain_provider() -> OpenAiCompatProvider {
    OpenAiCompatProvider::new("https://api.example.com/", "test", Some("k"), None, false, None)
}

#[test]
fn complete_sends_custom_user_agent() {
    assert_eq!(
        apply_headers(&Some("test-key".to_string()), &Some("opencode/1.15.13".to_string())),
        vec![
            ("authorization".to_string(), "Bearer test-key".to_string()),
            ("user-agent".to_string(), "opencode/1.15.13".to_string()),
        ]
    );
    assert!(apply_headers(&None, &None).is_empty());
}

#[test]
fn the_chat_request_holds_the_conversation() {
    let p = plain_provider();
    assert_eq!(p.url(), "https://api.example.com/chat/completions");
    let tools = [ToolDefinition {
        name: "bash".to_string(),
        description: "run".to_string(),
        input_schema: json(r#"{"type":"object"}"#),
    }];
    let body = p.complete_body(&[Message::user("hello")], &tools, "be brief");
    assert_eq!(pick(&body, "model").as_str(), Some("test"));
    assert_eq!(pick(&body, "messages/0/role").as_str(), Some("system"));
    assert_eq!(pick(&body, "messages/0/content").as_str(), Some("be brief"));
    assert_eq!(pick(&body, "messages/1/content").as_str(), Some("hello"));
    assert_eq!(pick(&body, "tools/0/function/name").as_str(), Some("bash"));
    let raw = [json(r#"{"role":"user","content":"hi"}"#)];
    let body = p.complete_raw_body(&raw, &[], "");
    assert_eq!(pick(&body, "messages/0/content").as_str(), Some("hi"));
    assert!(body.get("tools").is_none());
}

#[test]
fn images_are_sent_as_parts() {
    let blocks = [
        ContentBlock::Text { text: "see".to_string() },
        ContentBlock::Image {
            source: ImageSource::Base64 { media_type: "image/png".to_string(), data: "AA==".to_string() },
        },
    ];
    let message = plain_provider().format_user_message(&blocks);
    assert_eq!(
        pick(&message, "content/1/image_url/url").as_str(),
        Some("data:image/png;base64,AA==")
    );
}

#[test]
fn how_thinking_is_cut_into_chunks_does_not_matter() {
    let whole = "<think>a b</think>\n\nc < d";
    let read = |chunks: &[&str]| {
        let mut state = OpenAiStreamState::default();
        let mut events = Vec::new();
        for chunk in chunks {
            let data = Json::object()
                .with("choices", json("[{\"delta\":{}}]"))
                .to_text()
                .replace("{\"delta\":{}}", &format!("{{\"delta\":{{\"content\":{}}}}}", Json::text(chunk).to_text()));
            events.extend(parse_openai_chunk(&data, &mut state).unwrap_or_default());
        }
        events.extend(flush_think_buffer(&mut state));
        (texts(&events).concat(), reasonings(&events).concat())
    };
    let expected = ("c < d".to_string(), "a b".to_string());
    assert_eq!(read(&[whole]), expected);
    assert_eq!(read(&["<thi", "nk>a", " b</th", "ink>", "\n\nc <", " d"]), expected);
}

#[test]
fn a_chat_stream_is_read_step_by_step() {
    let mut state = OpenAiStreamState::default();
    assert_eq!(next_openai_step(SseItem::Open, &mut state), StreamStep::Wait);
    assert_eq!(
        next_openai_step(
            SseItem::Message(r#"{"choices":[{"delta":{"content":"hi"}}]}"#.to_string()),
            &mut state
        ),
        StreamStep::Yield(StreamEvent::TextDelta("hi".to_string()))
    );
    assert_eq!(
        next_openai_step(SseItem::Message("[DONE]".to_string()), &mut state),
        StreamStep::Yield(StreamEvent::Done)
    );
    assert_eq!(
        next_openai_step(SseItem::Failed("reset".to_string()), &mut OpenAiStreamState::default()),
        StreamStep::Fail("SSE stream error: reset".to_string())
    );
}

#[test]
fn a_call_starts_before_its_own_arguments() {
    let mut state = OpenAiStreamState::default();
    let chunk = json(
        r#"{ "choices": [{ "delta": { "tool_calls": [
            { "index": 0, "id": "a", "function": { "name": "bash", "arguments": "{}" } },
            { "index": 1, "id": "b", "function": { "name": "read" } },
            { "index": 1, "function": { "arguments": "{\"p\":1}" } }
        ] } }] }"#,
    )
    .to_text();
    let events = parse_openai_chunk(&chunk, &mut state).expect("should parse");
    assert_eq!(
        events,
        vec![
            StreamEvent::ToolUseStart { id: "a".to_string(), name: "bash".to_string() },
            StreamEvent::ToolInputDelta("{}".to_string()),
            StreamEvent::ToolUseStart { id: "b".to_string(), name: "read".to_string() },
            StreamEvent::ToolInputDelta("{\"p\":1}".to_string()),
        ]
    );
}

#[test]
fn stretches_hold_no_tags() {
    for parts in [
        vec!["a<think>b</think>\n\nc"],
        vec!["a<th", "ink>b</thi", "nk>c<", "d"],
        vec!["<think><think>x</think></think>y"],
        vec!["1 < 2 <b", "> and <thin"],
    ] {
        let mut state = OpenAiStreamState::default();
        let mut all = Vec::new();
        for part in parts {
            all.extend(split_think_tags(part, &mut state));
            let held = state.tag_buffer.as_str();
            assert!(held.is_empty() || (held.starts_with('<') && !held[1..].contains('<')));
        }
        all.extend(flush_think_buffer(&mut state));
        for event in all {
            match event {
                StreamEvent::TextDelta(text) => {
                    assert!(!text.is_empty() && !text.contains("<think>"), "got: {text}")
                }
                StreamEvent::ReasoningDelta(text) => {
                    assert!(!text.is_empty() && !text.contains("</think>"), "got: {text}")
                }
                other => panic!("expected a stretch, got {other:?}"),
            }
        }
    }
    let mut state = OpenAiStreamState::default();
    let mut text = String::new();
    for event in split_think_tags("1 < 2 <b> and <x", &mut state) {
        if let StreamEvent::TextDelta(more) = event {
            text.push_str(&more);
        }
    }
    assert_eq!(text + &state.tag_buffer, "1 < 2 <b> and <x");
}
